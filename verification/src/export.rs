//! The HTML export: a self-contained page per run, with the cells bit-packed
//! and base64-encoded into stacked canvases, a tab-separated manifest of all
//! runs, and an index page that lists them.
//!
//! This module computes every byte of those files; writing them to disk is
//! left to the caller.
use vstd::prelude::*;

use crate::sim::{boundary_label, BoundaryMode};
use crate::templates::{
    RUN_BORDERS_BOX, RUN_CELL_SIZE_BOX, RUN_CONTROLS, RUN_BOUNDARY, RUN_EXPORTED, RUN_GENERATIONS, RUN_HEAD, RUN_JOB_ID, RUN_META, RUN_PREVIEW, RUN_RULE, RUN_SCRIPT,
    RUN_STATUS, RUN_STYLE, RUN_WIDTH,
};
use crate::text::{decimal, digits_value, html_escape, html_escaped, push_char, push_decimal};

verus! {

/// Per-canvas cap on the number of cells of one tile.
pub const MAX_EXPORT_CELLS: usize = 200_000_000;

/// Per-canvas cap on the number of rows of one tile.
pub const MAX_EXPORT_HEIGHT: usize = 32_000;

/// Name of the manifest file in the export directory.
pub const MANIFEST_FILE: &'static str = "manifest.tsv";

/// Name of the index page in the export directory.
pub const INDEX_FILE: &'static str = "index.html";

/// What one exported run consists of.
pub struct ExportInput<'a> {
    pub job_id: u64,
    pub rule: u8,
    pub width: usize,
    pub generations: usize,
    pub progress: usize,
    pub boundary: BoundaryMode,
    pub status: &'a str,
    /// Flat row-major grid: cell (y, x) lives at `rows[y * width + x]`.
    pub rows: &'a [u8],
    /// The cell size the page first draws at.
    pub cell_size: u32,
    /// Whether the page first draws the grid between cells.
    pub show_borders: bool,
}

/// Number of rows of a tile from `start_row` (inclusive) to `end_row`
/// (exclusive) that a grid of `len` cells, `width` wide, actually has.
pub open spec fn rendered_rows(len: int, width: int, start_row: int, end_row: int) -> int {
    if width == 0 {
        0
    } else {
        let total = len / width;
        if start_row >= end_row || start_row >= total {
            0
        } else {
            (if end_row < total { end_row } else { total }) - start_row
        }
    }
}

/// Bit `i` of a packed buffer: bits are numbered from the most significant
/// bit of byte 0 on.
pub open spec fn packed_bit(bytes: Seq<u8>, i: int) -> u8 {
    (bytes[i / 8] >> ((7 - i % 8) as u8)) & 1
}

/// The buffer holds `n` bits (rounded up to whole bytes); bit `i` is the low
/// bit of `cells[i]`, and the padding bits are 0.
pub open spec fn packs(bytes: Seq<u8>, cells: Seq<u8>, n: int) -> bool {
    &&& bytes.len() == (n + 7) / 8
    &&& forall|i: int| 0 <= i < 8 * bytes.len() ==> #[trigger] packed_bit(bytes, i) == (if i < n {
        cells[i] % 2
    } else {
        0
    })
}

proof fn lemma_set_bit(v: u8, s: u8, t: u8)
    requires
        s < 8,
        t < 8,
    ensures
        ((v | (1u8 << s)) >> t) & 1 == (if s == t { 1 } else { (v >> t) & 1 }),
{
    assert(s < 8 && t < 8 ==> ((v | (1u8 << s)) >> t) & 1 == (if s == t { 1 } else { (v >> t) & 1 }))
        by (bit_vector);
}

proof fn lemma_zero_bits(t: u8)
    ensures
        (0u8 >> t) & 1 == 0,
{
    assert((0u8 >> t) & 1 == 0) by (bit_vector);
}

/// Pack rows `start_row..end_row` (clamped to the rows the grid has) into
/// bits, one bit per cell, row after row, most significant bit first.
pub fn pack_bits_range(rows: &[u8], width: usize, start_row: usize, end_row: usize) -> (r: Vec<u8>)
    ensures
        ({
            let h = rendered_rows(rows@.len() as int, width as int, start_row as int, end_row as int);
            let cells = rows@.subrange(start_row * width, start_row * width + width * h);
            &&& packs(r@, cells, width * h)
            &&& r@ == packed_bytes(cells, width * h)
        }),
{
    let ghost h = rendered_rows(rows@.len() as int, width as int, start_row as int, end_row as int);
    if width == 0 {
        let r = Vec::new();
        assert(r@ =~= packed_bytes(Seq::empty(), 0));
        return r;
    }
    let total_rows = rows.len() / width;
    if start_row >= end_row || start_row >= total_rows {
        let r = Vec::new();
        assert(width * h == 0);
        assert(r@ =~= packed_bytes(rows@.subrange(start_row * width, start_row * width + width * h), 0));
        return r;
    }
    let clamped_end = if end_row < total_rows { end_row } else { total_rows };
    let rendered_h = clamped_end - start_row;
    assert(rendered_h == h);
    assert(clamped_end * width <= rows@.len()) by (nonlinear_arith)
        requires clamped_end <= total_rows, total_rows == rows@.len() as int / width as int, width > 0;
    assert(width * rendered_h + start_row * width == clamped_end * width) by (nonlinear_arith)
        requires rendered_h == clamped_end - start_row;
    let total_bits = width * rendered_h;
    let nbytes = total_bits / 8 + if total_bits % 8 != 0 { 1 } else { 0 };
    assert(nbytes == (total_bits + 7) / 8);
    let mut out = vec![0u8; nbytes];
    let ghost cells = rows@.subrange(start_row * width, start_row * width + width * h);
    assert forall|i: int| 0 <= i < 8 * out@.len() implies #[trigger] packed_bit(out@, i) == 0 by {
        lemma_zero_bits((7 - i % 8) as u8);
    }
    let rows_len = rows.len();
    assert(0 * width == 0) by (nonlinear_arith);
    for rendered_y in 0..rendered_h
        invariant
            width > 0,
            rows@.len() == rows_len,
            rendered_h == h,
            total_bits == width * rendered_h,
            out@.len() == (total_bits + 7) / 8,
            clamped_end * width <= rows@.len(),
            rendered_h == clamped_end - start_row,
            width * rendered_h + start_row * width == clamped_end * width,
            cells == rows@.subrange(start_row * width, start_row * width + width * h),
            forall|i: int| 0 <= i < 8 * out@.len() ==> #[trigger] packed_bit(out@, i) == (if i < rendered_y * width {
                cells[i] % 2
            } else {
                0
            }),
    {
        let orig_y = start_row + rendered_y;
        assert((orig_y + 1) * width <= clamped_end * width) by (nonlinear_arith)
            requires orig_y < clamped_end, width > 0;
        assert((orig_y + 1) * width == orig_y * width + width) by (nonlinear_arith);
        assert(orig_y * width == start_row * width + rendered_y * width) by (nonlinear_arith)
            requires orig_y == start_row + rendered_y;
        assert((rendered_y + 1) * width <= total_bits) by (nonlinear_arith)
            requires rendered_y < rendered_h, total_bits == width * rendered_h, width > 0;
        assert((rendered_y + 1) * width == rendered_y * width + width) by (nonlinear_arith);
        let row = &rows[orig_y * width..(orig_y + 1) * width];
        let base = rendered_y * width;
        for x in 0..width
            invariant
                width > 0,
                row@.len() == width,
                base + width <= total_bits,
                out@.len() == (total_bits + 7) / 8,
                base == rendered_y * width,
                total_bits == width * h,
                forall|j: int| 0 <= j < width ==> #[trigger] row@[j] == cells[base + j],
                forall|i: int| 0 <= i < 8 * out@.len() ==> #[trigger] packed_bit(out@, i) == (if i < base + x {
                    cells[i] % 2
                } else {
                    0
                }),
        {
            let idx = base + x;
            let v = row[x];
            assert(v & 1 == v % 2) by (bit_vector);
            if v & 1 == 1 {
                assert(idx >> 3 == idx / 8 && idx & 7 == idx % 8) by (bit_vector);
                let byte = idx >> 3;
                let shift = 7 - (idx & 7);
                assert(byte < out@.len());
                let ghost old_out = out@;
                out[byte] = out[byte] | (1u8 << (shift as u8));
                assert forall|i: int| 0 <= i < 8 * out@.len() implies #[trigger] packed_bit(out@, i) == (if i < idx
                    + 1 {
                    cells[i] % 2
                } else {
                    0
                }) by {
                    if i / 8 == byte as int {
                        lemma_set_bit(old_out[byte as int], shift as u8, (7 - i % 8) as u8);
                        assert(packed_bit(old_out, i) == (if i < idx { cells[i] % 2 } else { 0 }));
                    } else {
                        assert(out@[i / 8] == old_out[i / 8]);
                        assert(packed_bit(old_out, i) == (if i < idx { cells[i] % 2 } else { 0 }));
                    }
                }
            } else {
                assert forall|i: int| 0 <= i < 8 * out@.len() implies #[trigger] packed_bit(out@, i) == (if i < idx
                    + 1 {
                    cells[i] % 2
                } else {
                    0
                }) by {
                    if i == idx {
                        assert(cells[i] == v);
                    }
                }
            }
        }
    }
    assert(rendered_h * width == total_bits) by (nonlinear_arith)
        requires total_bits == width * rendered_h;
    proof {
        lemma_packs_unique(out@, cells, total_bits as int);
    }
    out
}

/// Bit `i` of the bits that `cells` packs into (`n` of them, then zeros).
pub open spec fn cell_bit(cells: Seq<u8>, n: int, i: int) -> int {
    if 0 <= i < n {
        (cells[i] % 2) as int
    } else {
        0
    }
}

/// Byte `b` of the packing: bits `8b` to `8b + 7`, most significant first.
pub open spec fn packed_byte(cells: Seq<u8>, n: int, b: int) -> u8 {
    (128 * cell_bit(cells, n, 8 * b) + 64 * cell_bit(cells, n, 8 * b + 1) + 32 * cell_bit(cells, n, 8 * b + 2)
        + 16 * cell_bit(cells, n, 8 * b + 3) + 8 * cell_bit(cells, n, 8 * b + 4) + 4 * cell_bit(cells, n, 8 * b + 5)
        + 2 * cell_bit(cells, n, 8 * b + 6) + cell_bit(cells, n, 8 * b + 7)) as u8
}

/// The first `n` cells packed one bit per cell into whole bytes.
pub open spec fn packed_bytes(cells: Seq<u8>, n: int) -> Seq<u8> {
    Seq::new(((n + 7) / 8) as nat, |b: int| packed_byte(cells, n, b))
}

proof fn lemma_byte_from_bits(v: u8, c0: u8, c1: u8, c2: u8, c3: u8, c4: u8, c5: u8, c6: u8, c7: u8)
    requires
        (v >> 7u8) & 1 == c0,
        (v >> 6u8) & 1 == c1,
        (v >> 5u8) & 1 == c2,
        (v >> 4u8) & 1 == c3,
        (v >> 3u8) & 1 == c4,
        (v >> 2u8) & 1 == c5,
        (v >> 1u8) & 1 == c6,
        (v >> 0u8) & 1 == c7,
    ensures
        v == 128 * c0 + 64 * c1 + 32 * c2 + 16 * c3 + 8 * c4 + 4 * c5 + 2 * c6 + c7,
{
    assert((v >> 7u8) & 1 == c0 && (v >> 6u8) & 1 == c1 && (v >> 5u8) & 1 == c2 && (v >> 4u8) & 1 == c3 && (v
        >> 3u8) & 1 == c4 && (v >> 2u8) & 1 == c5 && (v >> 1u8) & 1 == c6 && (v >> 0u8) & 1 == c7 ==> v == 128
        * c0 + 64 * c1 + 32 * c2 + 16 * c3 + 8 * c4 + 4 * c5 + 2 * c6 + c7) by (bit_vector);
}

/// A buffer that [`packs`] the cells is the packing [`packed_bytes`].
pub proof fn lemma_packs_unique(bytes: Seq<u8>, cells: Seq<u8>, n: int)
    requires
        packs(bytes, cells, n),
        n >= 0,
        n <= cells.len(),
    ensures
        bytes == packed_bytes(cells, n),
{
    let p = packed_bytes(cells, n);
    assert forall|b: int| 0 <= b < bytes.len() implies bytes[b] == p[b] by {
        let v = bytes[b];
        assert forall|k: int| 0 <= k < 8 implies #[trigger] packed_bit(bytes, 8 * b + k) == cell_bit(cells, n, 8 * b + k) by {
            if 8 * b + k < n {
                assert(cells[8 * b + k] % 2 <= 1);
            }
        }
        assert(packed_bit(bytes, 8 * b + 0) == (v >> 7u8) & 1);
        assert(packed_bit(bytes, 8 * b + 1) == (v >> 6u8) & 1);
        assert(packed_bit(bytes, 8 * b + 2) == (v >> 5u8) & 1);
        assert(packed_bit(bytes, 8 * b + 3) == (v >> 4u8) & 1);
        assert(packed_bit(bytes, 8 * b + 4) == (v >> 3u8) & 1);
        assert(packed_bit(bytes, 8 * b + 5) == (v >> 2u8) & 1);
        assert(packed_bit(bytes, 8 * b + 6) == (v >> 1u8) & 1);
        assert(packed_bit(bytes, 8 * b + 7) == (v >> 0u8) & 1);
        lemma_byte_from_bits(
            v,
            cell_bit(cells, n, 8 * b) as u8,
            cell_bit(cells, n, 8 * b + 1) as u8,
            cell_bit(cells, n, 8 * b + 2) as u8,
            cell_bit(cells, n, 8 * b + 3) as u8,
            cell_bit(cells, n, 8 * b + 4) as u8,
            cell_bit(cells, n, 8 * b + 5) as u8,
            cell_bit(cells, n, 8 * b + 6) as u8,
            cell_bit(cells, n, 8 * b + 7) as u8,
        );
    }
    assert(bytes =~= p);
}

/// The character of a 6-bit value in the standard base64 alphabet
/// (RFC 4648): `A`-`Z`, `a`-`z`, `0`-`9`, `+`, `/`.
pub open spec fn base64_char(v: int) -> char {
    if v < 26 {
        (65 + v) as char
    } else if v < 52 {
        (97 + v - 26) as char
    } else if v < 62 {
        (48 + v - 52) as char
    } else if v == 62 {
        '+'
    } else {
        '/'
    }
}

/// The four characters of one group of up to three bytes: the 24 bits of
/// the group in four 6-bit values, with `=` for each missing byte.
pub open spec fn base64_group(bytes: Seq<u8>) -> Seq<char> {
    let b0 = bytes[0] as int;
    let b1 = if bytes.len() > 1 { bytes[1] as int } else { 0 };
    let b2 = if bytes.len() > 2 { bytes[2] as int } else { 0 };
    seq![
        base64_char(b0 / 4),
        base64_char((b0 % 4) * 16 + b1 / 16),
        if bytes.len() > 1 { base64_char((b1 % 16) * 4 + b2 / 64) } else { '=' },
        if bytes.len() > 2 { base64_char(b2 % 64) } else { '=' },
    ]
}

/// The standard base64 text (RFC 4648 alphabet, `=` padding) of `bytes`.
pub open spec fn base64_standard(bytes: Seq<u8>) -> Seq<char>
    decreases bytes.len(),
{
    if bytes.len() == 0 {
        Seq::empty()
    } else if bytes.len() <= 3 {
        base64_group(bytes)
    } else {
        base64_group(bytes.take(3)) + base64_standard(bytes.skip(3))
    }
}

/// Encodes bytes as base64 text.
///
/// Trusted: calls `base64::engine::general_purpose::STANDARD.encode`, which
/// encodes with the standard alphabet and `=` padding, so the text has four
/// characters per started group of three bytes, as [`base64_standard`]
/// spells out. It panics when that length overflows `usize`, which the
/// `requires` rules out.
#[verifier::external_body]
fn base64_encode(bytes: &[u8]) -> (r: String)
    requires
        bytes@.len() / 3 * 4 + 4 <= usize::MAX,
    ensures
        r@ == base64_standard(bytes@),
        r@.len() == (bytes@.len() + 2) / 3 * 4,
{
    base64::Engine::encode(&base64::engine::general_purpose::STANDARD, bytes)
}

/// Number of whole rows of a flat grid `width` cells wide.
pub open spec fn page_height(len: int, width: int) -> int {
    if width == 0 {
        0
    } else {
        len / width
    }
}

/// Rows per tile: as many as keep a tile within [`MAX_EXPORT_CELLS`] cells
/// and [`MAX_EXPORT_HEIGHT`] rows, and at least one.
pub open spec fn tile_rows_cap(width: int) -> int {
    let by_cells = if width == 0 {
        1
    } else if MAX_EXPORT_CELLS as int / width >= 1 {
        MAX_EXPORT_CELLS as int / width
    } else {
        1
    };
    if by_cells < MAX_EXPORT_HEIGHT {
        by_cells
    } else {
        MAX_EXPORT_HEIGHT as int
    }
}

/// Number of tiles of a grid of `height` rows.
pub open spec fn tile_count(height: int, cap: int) -> int {
    if height == 0 {
        0
    } else {
        (height + cap - 1) / cap
    }
}

/// First row of tile `i`.
pub open spec fn tile_start(i: int, cap: int) -> int {
    i * cap
}

/// One past the last row of tile `i`.
pub open spec fn tile_end(i: int, cap: int, height: int) -> int {
    if i * cap + cap < height {
        i * cap + cap
    } else {
        height
    }
}

/// The element id of tile `i`.
pub open spec fn tile_id(i: int) -> Seq<char> {
    "bits"@ + decimal(i as nat)
}

/// The JSON metadata object of tile `i`.
pub open spec fn tile_meta_entry(i: int, start: int, end: int) -> Seq<char> {
    "{\"id\":\""@ + tile_id(i) + "\",\"start\":"@ + decimal(start as nat) + ",\"end\":"@ + decimal(end as nat) + "}"@
}

/// The script element that carries the base64 data of tile `i`.
pub open spec fn tile_script(i: int, b64: Seq<char>) -> Seq<char> {
    "<script id=\""@ + tile_id(i) + "\" type=\"application/octet-stream\">"@ + b64 + "</script>\n"@
}

/// The packed cells of rows `start..end` of a grid `width` cells wide.
pub open spec fn tile_bytes(rows: Seq<u8>, width: int, start: int, end: int) -> Seq<u8> {
    let h = rendered_rows(rows.len() as int, width, start, end);
    packed_bytes(rows.subrange(start * width, start * width + width * h), width * h)
}

/// The metadata objects of the first `k` tiles, separated by commas.
pub open spec fn tiles_meta(k: int, cap: int, height: int) -> Seq<char>
    decreases k,
{
    if k <= 0 {
        Seq::empty()
    } else {
        tiles_meta(k - 1, cap, height) + (if k > 1 {
            ","@
        } else {
            Seq::empty()
        }) + tile_meta_entry(k - 1, tile_start(k - 1, cap), tile_end(k - 1, cap, height))
    }
}

/// The data scripts of the first `k` tiles.
pub open spec fn tiles_scripts(rows: Seq<u8>, width: int, k: int, cap: int, height: int) -> Seq<char>
    decreases k,
{
    if k <= 0 {
        Seq::empty()
    } else {
        tiles_scripts(rows, width, k - 1, cap, height) + tile_script(
            k - 1,
            base64_standard(tile_bytes(rows, width, tile_start(k - 1, cap), tile_end(k - 1, cap, height))),
        )
    }
}

/// The title of a run page.
pub open spec fn run_title(rule: u8, width: int, height: int, job_id: u64) -> Seq<char> {
    "Rule "@ + decimal(rule as nat) + " - "@ + decimal(width as nat) + "x"@ + decimal(height as nat) + " - job "@
        + decimal(job_id as nat)
}

/// How the preview is described: one canvas, or the number of stacked tiles.
pub open spec fn preview_text(count: int, cap: int) -> Seq<char> {
    if count <= 1 {
        "full fidelity (single canvas)"@
    } else {
        "full fidelity: "@ + decimal(count as nat) + " tiles ("@ + decimal(cap as nat) + " rows each, last shorter)"@
    }
}

/// The larger of `x` and 1.
pub open spec fn at_least_one(x: int) -> int {
    if x < 1 {
        1
    } else {
        x
    }
}

/// The part of a run page before the tile metadata: title, heading and the
/// metadata list.
pub open spec fn run_page_head(input: ExportInput, exported_at: Seq<char>, height: int, count: int, cap: int) -> Seq<char> {
    let title = html_escaped(run_title(input.rule, input.width as int, height, input.job_id));
    RUN_HEAD@ + title + RUN_STYLE@ + title + RUN_JOB_ID@ + decimal(input.job_id as nat) + RUN_RULE@ + decimal(
        input.rule as nat,
    ) + RUN_WIDTH@ + decimal(input.width as nat) + RUN_GENERATIONS@ + decimal(input.progress as nat) + " / "@
        + decimal(input.generations as nat) + RUN_BOUNDARY@ + boundary_label(input.boundary) + RUN_STATUS@
        + input.status@ + RUN_EXPORTED@ + exported_at + RUN_PREVIEW@ + preview_text(count, cap)
}

/// The cell size the page's controls start at: the requested size, kept
/// between 1 and 64 (the range of the number box).
pub open spec fn seeded_cell_size(cell_size: u32) -> int {
    if cell_size < 1 {
        1
    } else if cell_size > 64 {
        64
    } else {
        cell_size as int
    }
}

/// The controls of a run page: a cell-size slider (1 to 16) paired with a
/// number box (1 to 64), both at the seeded cell size, and a Borders
/// checkbox, checked when borders were asked for.
pub open spec fn run_page_controls(cell_size: u32, show_borders: bool) -> Seq<char> {
    RUN_CONTROLS@ + decimal(seeded_cell_size(cell_size) as nat) + RUN_CELL_SIZE_BOX@ + decimal(
        seeded_cell_size(cell_size) as nat,
    ) + RUN_BORDERS_BOX@ + (if show_borders {
        " checked"@
    } else {
        Seq::empty()
    })
}

/// The part of a run page from the tile metadata on: metadata, data
/// scripts and the drawing script.
pub open spec fn run_page_tail(rows: Seq<u8>, width: int, height: int, count: int, cap: int) -> Seq<char> {
    RUN_META@ + decimal(at_least_one(width) as nat) + ",\"h\":"@ + decimal(at_least_one(height) as nat)
        + ",\"tiles\":["@ + tiles_meta(count, cap, height) + "]}</script>\n"@ + tiles_scripts(
        rows,
        width,
        count,
        cap,
        height,
    ) + RUN_SCRIPT@
}

/// The exported HTML page of a run.
pub open spec fn run_page(input: ExportInput, exported_at: Seq<char>) -> Seq<char> {
    let width = input.width as int;
    let rows = input.rows@;
    let height = page_height(rows.len() as int, width);
    let cap = tile_rows_cap(width);
    let count = tile_count(height, cap);
    run_page_head(input, exported_at, height, count, cap) + run_page_controls(input.cell_size, input.show_borders)
        + run_page_tail(rows, width, height, count, cap)
}

/// The metadata object and the data script of tile `tile_idx`, given the
/// base64 text of its packed cells.
pub fn tile_parts(tile_idx: usize, start: usize, end: usize, b64: &str) -> (r: (String, String))
    ensures
        r.0@ == tile_meta_entry(tile_idx as int, start as int, end as int),
        r.1@ == tile_script(tile_idx as int, b64@),
{
    let mut meta = String::new();
    meta.append("{\"id\":\"");
    meta.append("bits");
    push_decimal(&mut meta, tile_idx as u64);
    meta.append("\",\"start\":");
    push_decimal(&mut meta, start as u64);
    meta.append(",\"end\":");
    push_decimal(&mut meta, end as u64);
    meta.append("}");
    let mut script = String::new();
    script.append("<script id=\"");
    script.append("bits");
    push_decimal(&mut script, tile_idx as u64);
    script.append("\" type=\"application/octet-stream\">");
    script.append(b64);
    script.append("</script>\n");
    (meta, script)
}

/// The title of a run page.
pub fn run_title_text(rule: u8, width: usize, height: usize, job_id: u64) -> (r: String)
    ensures
        r@ == run_title(rule, width as int, height as int, job_id),
{
    let mut t = String::new();
    t.append("Rule ");
    push_decimal(&mut t, rule as u64);
    t.append(" - ");
    push_decimal(&mut t, width as u64);
    t.append("x");
    push_decimal(&mut t, height as u64);
    t.append(" - job ");
    push_decimal(&mut t, job_id);
    t
}

/// The metadata objects and the data scripts of all tiles.
fn render_tiles(rows: &[u8], width: usize, height: usize, tile_max_rows: usize, num_tiles: usize) -> (r: (String, String))
    requires
        height == page_height(rows@.len() as int, width as int),
        rows@.len() <= isize::MAX,
        1 <= tile_max_rows <= MAX_EXPORT_HEIGHT,
        num_tiles == tile_count(height as int, tile_max_rows as int),
    ensures
        r.0@ == tiles_meta(num_tiles as int, tile_max_rows as int, height as int),
        r.1@ == tiles_scripts(rows@, width as int, num_tiles as int, tile_max_rows as int, height as int),
{
    let ghost cap = tile_max_rows as int;
    assert(height <= rows@.len()) by (nonlinear_arith)
        requires width == 0 ==> height == 0, width > 0 ==> height == rows@.len() as int / width as int;
    let mut tiles_meta_json = String::new();
    let mut tile_scripts = String::new();
    for tile_idx in 0..num_tiles
        invariant
            num_tiles == tile_count(height as int, cap),
            tile_max_rows == cap,
            1 <= cap <= MAX_EXPORT_HEIGHT,
            height == page_height(rows@.len() as int, width as int),
            height <= rows@.len(),
            rows@.len() <= isize::MAX,
            tiles_meta_json@ == tiles_meta(tile_idx as int, cap, height as int),
            tile_scripts@ == tiles_scripts(rows@, width as int, tile_idx as int, cap, height as int),
    {
        assert(tile_idx * tile_max_rows < height) by (nonlinear_arith)
            requires
                tile_idx < num_tiles,
                height > 0,
                num_tiles == (height + tile_max_rows - 1) / tile_max_rows as int,
                tile_max_rows >= 1,
        ;
        let start = tile_idx * tile_max_rows;
        let end = if start + tile_max_rows < height { start + tile_max_rows } else { height };
        let packed = pack_bits_range(rows, width, start, end);
        proof {
            let h = rendered_rows(rows@.len() as int, width as int, start as int, end as int);
            assert(width * h <= rows@.len()) by (nonlinear_arith)
                requires
                    h <= height,
                    width == 0 ==> h == 0,
                    width > 0 ==> height == rows@.len() as int / width as int,
                    h >= 0,
            ;
        }
        let b64 = base64_encode(packed.as_slice());
        let (meta, script) = tile_parts(tile_idx, start, end, b64.as_str());
        if tile_idx > 0 {
            tiles_meta_json.append(",");
        }
        tiles_meta_json.append(meta.as_str());
        tile_scripts.append(script.as_str());
    }
    (tiles_meta_json, tile_scripts)
}

/// The head part of a run page.
fn render_run_head(input: &ExportInput, exported_at: &str, height: usize, num_tiles: usize, tile_max_rows: usize) -> (r: String)
    ensures
        r@ == run_page_head(*input, exported_at@, height as int, num_tiles as int, tile_max_rows as int),
{
    let title = run_title_text(input.rule, input.width, height, input.job_id);
    let escaped = html_escape(title.as_str());
    let mut html = String::new();
    html.append(RUN_HEAD);
    html.append(escaped.as_str());
    html.append(RUN_STYLE);
    html.append(escaped.as_str());
    html.append(RUN_JOB_ID);
    push_decimal(&mut html, input.job_id);
    html.append(RUN_RULE);
    push_decimal(&mut html, input.rule as u64);
    html.append(RUN_WIDTH);
    push_decimal(&mut html, input.width as u64);
    html.append(RUN_GENERATIONS);
    push_decimal(&mut html, input.progress as u64);
    html.append(" / ");
    push_decimal(&mut html, input.generations as u64);
    html.append(RUN_BOUNDARY);
    html.append(input.boundary.label());
    html.append(RUN_STATUS);
    html.append(input.status);
    html.append(RUN_EXPORTED);
    html.append(exported_at);
    html.append(RUN_PREVIEW);
    if num_tiles <= 1 {
        html.append("full fidelity (single canvas)");
    } else {
        let mut preview = String::new();
        preview.append("full fidelity: ");
        push_decimal(&mut preview, num_tiles as u64);
        preview.append(" tiles (");
        push_decimal(&mut preview, tile_max_rows as u64);
        preview.append(" rows each, last shorter)");
        html.append(preview.as_str());
    }
    html
}

/// The controls of a run page.
fn render_controls(cell_size: u32, show_borders: bool) -> (r: String)
    ensures
        r@ == run_page_controls(cell_size, show_borders),
{
    let cs: u32 = if cell_size < 1 {
        1
    } else if cell_size > 64 {
        64
    } else {
        cell_size
    };
    let mut html = String::new();
    html.append(RUN_CONTROLS);
    push_decimal(&mut html, cs as u64);
    html.append(RUN_CELL_SIZE_BOX);
    push_decimal(&mut html, cs as u64);
    html.append(RUN_BORDERS_BOX);
    if show_borders {
        html.append(" checked");
    }
    html
}

/// The tail part of a run page.
fn render_run_tail(rows: &[u8], width: usize, height: usize, num_tiles: usize, tile_max_rows: usize) -> (r: String)
    requires
        height == page_height(rows@.len() as int, width as int),
        rows@.len() <= isize::MAX,
        1 <= tile_max_rows <= MAX_EXPORT_HEIGHT,
        num_tiles == tile_count(height as int, tile_max_rows as int),
    ensures
        r@ == run_page_tail(rows@, width as int, height as int, num_tiles as int, tile_max_rows as int),
{
    let (meta, scripts) = render_tiles(rows, width, height, tile_max_rows, num_tiles);
    let mut html = String::new();
    html.append(RUN_META);
    push_decimal(&mut html, if width < 1 { 1 } else { width as u64 });
    html.append(",\"h\":");
    push_decimal(&mut html, if height < 1 { 1 } else { height as u64 });
    html.append(",\"tiles\":[");
    html.append(meta.as_str());
    html.append("]}</script>\n");
    html.append(scripts.as_str());
    html.append(RUN_SCRIPT);
    html
}

/// Renders the HTML page of one exported run: a metadata list; controls for
/// the cell size and the grid, seeded from the run's render options; and
/// the cells bit-packed, base64-encoded and split into stacked canvases of
/// at most [`MAX_EXPORT_CELLS`] cells and [`MAX_EXPORT_HEIGHT`] rows each.
pub fn render_run_html(input: &ExportInput, exported_at: &str) -> (r: String)
    requires
        input.rows@.len() <= isize::MAX,
    ensures
        r@ == run_page(*input, exported_at@),
{
    let rows = input.rows;
    let width = input.width;
    let height = if width == 0 { 0 } else { rows.len() / width };
    let by_cells = if width == 0 {
        1
    } else if MAX_EXPORT_CELLS / width >= 1 {
        MAX_EXPORT_CELLS / width
    } else {
        1
    };
    let tile_max_rows = if by_cells < MAX_EXPORT_HEIGHT { by_cells } else { MAX_EXPORT_HEIGHT };
    assert(height <= rows@.len()) by (nonlinear_arith)
        requires width == 0 ==> height == 0, width > 0 ==> height == rows@.len() as int / width as int;
    let num_tiles = if height == 0 { 0 } else { (height + tile_max_rows - 1) / tile_max_rows };
    assert(tile_max_rows == tile_rows_cap(width as int));
    let mut html = render_run_head(input, exported_at, height, num_tiles, tile_max_rows);
    let controls = render_controls(input.cell_size, input.show_borders);
    html.append(controls.as_str());
    let tail = render_run_tail(rows, width, height, num_tiles, tile_max_rows);
    html.append(tail.as_str());
    html
}

/// The short name of a boundary mode in file names.
pub open spec fn boundary_short(mode: BoundaryMode) -> Seq<char> {
    match mode {
        BoundaryMode::ZeroPadded => "zp"@,
        BoundaryMode::Wrap => "wr"@,
    }
}

/// The rule number in at least three digits, zero-padded.
pub open spec fn rule_digits(rule: u8) -> Seq<char> {
    if rule < 10 {
        "00"@ + decimal(rule as nat)
    } else if rule < 100 {
        "0"@ + decimal(rule as nat)
    } else {
        decimal(rule as nat)
    }
}

/// The rule part of a file name is exactly three decimal digits that read
/// back as the rule number.
pub proof fn lemma_rule_digits(rule: u8)
    ensures
        rule_digits(rule).len() == 3,
        forall|i: int| 0 <= i < 3 ==> 48 <= #[trigger] (rule_digits(rule)[i] as int) <= 57,
        digits_value(rule_digits(rule)) == rule,
{
    crate::text::lemma_decimal_value(rule as nat);
    let d = decimal(rule as nat);
    reveal_strlit("00");
    reveal_strlit("0");
    if rule < 10 {
        assert(decimal(rule as nat) == seq![crate::text::digit_char(rule as nat)]);
    } else if rule < 100 {
        assert(decimal((rule / 10) as nat) == seq![crate::text::digit_char((rule / 10) as nat)]);
        assert(d.len() == 2);
    } else {
        assert(decimal((rule / 100) as nat) == seq![crate::text::digit_char((rule / 100) as nat)]);
        assert(decimal((rule / 10) as nat).len() == 2);
        assert(d.len() == 3);
    }
    let r = rule_digits(rule);
    if rule < 10 {
        assert(r =~= seq!['0'] + (seq!['0'] + d));
        lemma_leading_zero(d);
        lemma_leading_zero(seq!['0'] + d);
    } else if rule < 100 {
        assert(r =~= seq!['0'] + d);
        lemma_leading_zero(d);
    }
}

proof fn lemma_leading_zero(s: Seq<char>)
    ensures
        digits_value(seq!['0'] + s) == digits_value(s),
    decreases s.len(),
{
    let t = seq!['0'] + s;
    assert(digits_value(t) == 10 * digits_value(t.drop_last()) + (t.last() as int - 48));
    if s.len() == 0 {
        assert(t.drop_last() =~= Seq::<char>::empty());
        assert(digits_value(Seq::<char>::empty()) == 0);
        assert(t.last() == '0');
        assert('0' as int == 48);
    } else {
        lemma_leading_zero(s.drop_last());
        assert(t.drop_last() =~= seq!['0'] + s.drop_last());
        assert(t.last() == s.last());
        assert(digits_value(s) == 10 * digits_value(s.drop_last()) + (s.last() as int - 48));
    }
}

/// The parts of a run's file name, in order: `rule` and the zero-padded rule
/// number, `_w` and the width, `_g` and the generation count, `_` and `zp`
/// or `wr`, `_` and the time stamp, `_job` and the job id, then `.html`.
pub proof fn lemma_file_name_parts(input: ExportInput, stamp: Seq<char>)
    ensures
        run_file_name(input, stamp) == "rule"@ + rule_digits(input.rule) + "_w"@ + decimal(input.width as nat) + "_g"@
            + decimal(input.generations as nat) + "_"@ + (match input.boundary {
            BoundaryMode::ZeroPadded => "zp"@,
            BoundaryMode::Wrap => "wr"@,
        }) + "_"@ + stamp + "_job"@ + decimal(input.job_id as nat) + ".html"@,
{
}

/// The file name of an exported run page.
pub open spec fn run_file_name(input: ExportInput, stamp: Seq<char>) -> Seq<char> {
    "rule"@ + rule_digits(input.rule) + "_w"@ + decimal(input.width as nat) + "_g"@ + decimal(
        input.generations as nat,
    ) + "_"@ + boundary_short(input.boundary) + "_"@ + stamp + "_job"@ + decimal(input.job_id as nat) + ".html"@
}

/// The file name of an exported run page, from the run and the export time
/// stamp (`%Y%m%d_%H%M%S`).
pub fn run_filename(input: &ExportInput, stamp: &str) -> (r: String)
    ensures
        r@ == run_file_name(*input, stamp@),
{
    let mut name = String::new();
    name.append("rule");
    let mut digits = String::new();
    if input.rule < 10 {
        digits.append("00");
    } else if input.rule < 100 {
        digits.append("0");
    }
    push_decimal(&mut digits, input.rule as u64);
    name.append(digits.as_str());
    name.append("_w");
    push_decimal(&mut name, input.width as u64);
    name.append("_g");
    push_decimal(&mut name, input.generations as u64);
    name.append("_");
    match input.boundary {
        BoundaryMode::ZeroPadded => name.append("zp"),
        BoundaryMode::Wrap => name.append("wr"),
    }
    name.append("_");
    name.append(stamp);
    name.append("_job");
    push_decimal(&mut name, input.job_id);
    name.append(".html");
    name
}

/// The nine fields of a manifest line, in column order.
pub open spec fn manifest_fields(input: ExportInput, timestamp: Seq<char>, filename: Seq<char>) -> Seq<Seq<char>> {
    seq![
        decimal(input.job_id as nat),
        decimal(input.rule as nat),
        decimal(input.width as nat),
        decimal(input.generations as nat),
        boundary_label(input.boundary),
        input.status@,
        decimal(input.progress as nat),
        timestamp,
        filename,
    ]
}

/// Fields joined by tabs.
pub open spec fn join_tabs(fields: Seq<Seq<char>>) -> Seq<char>
    decreases fields.len(),
{
    if fields.len() == 0 {
        Seq::empty()
    } else if fields.len() == 1 {
        fields[0]
    } else {
        join_tabs(fields.drop_last()) + seq!['\t'] + fields.last()
    }
}

/// The manifest line of an exported run, with its line end.
pub fn manifest_line(input: &ExportInput, timestamp: &str, filename: &str) -> (r: String)
    ensures
        r@ == join_tabs(manifest_fields(*input, timestamp@, filename@)) + seq!['\n'],
        r@.last() == '\n',
        !input.status@.contains('\t') && !timestamp@.contains('\t') && !filename@.contains('\t')
            ==> crate::gallery::split_tabs(r@.drop_last()) == crate::gallery::run_columns(*input, timestamp@, filename@),
{
    let ghost f = manifest_fields(*input, timestamp@, filename@);
    let mut line = String::new();
    push_decimal(&mut line, input.job_id);
    assert(line@ == join_tabs(f.take(1)));
    push_char(&mut line, '\t');
    push_decimal(&mut line, input.rule as u64);
    assert(f.take(2).drop_last() =~= f.take(1));
    assert(line@ =~= join_tabs(f.take(2)));
    push_char(&mut line, '\t');
    push_decimal(&mut line, input.width as u64);
    assert(f.take(3).drop_last() =~= f.take(2));
    assert(line@ =~= join_tabs(f.take(3)));
    push_char(&mut line, '\t');
    push_decimal(&mut line, input.generations as u64);
    assert(f.take(4).drop_last() =~= f.take(3));
    assert(line@ =~= join_tabs(f.take(4)));
    push_char(&mut line, '\t');
    line.append(input.boundary.label());
    assert(f.take(5).drop_last() =~= f.take(4));
    assert(line@ =~= join_tabs(f.take(5)));
    push_char(&mut line, '\t');
    line.append(input.status);
    assert(f.take(6).drop_last() =~= f.take(5));
    assert(line@ =~= join_tabs(f.take(6)));
    push_char(&mut line, '\t');
    push_decimal(&mut line, input.progress as u64);
    assert(f.take(7).drop_last() =~= f.take(6));
    assert(line@ =~= join_tabs(f.take(7)));
    push_char(&mut line, '\t');
    line.append(timestamp);
    assert(f.take(8).drop_last() =~= f.take(7));
    assert(line@ =~= join_tabs(f.take(8)));
    push_char(&mut line, '\t');
    line.append(filename);
    assert(f.take(9).drop_last() =~= f.take(8));
    assert(line@ =~= join_tabs(f.take(9)));
    assert(f.take(9) =~= f);
    push_char(&mut line, '\n');
    proof {
        assert(line@.drop_last() =~= join_tabs(f));
        if !input.status@.contains('\t') && !timestamp@.contains('\t') && !filename@.contains('\t') {
            crate::gallery::lemma_manifest_columns(*input, timestamp@, filename@);
        }
    }
    line
}

/// The tiles of a page split its rows into consecutive, non-empty pieces
/// of at most the tile cap (at most [`MAX_EXPORT_HEIGHT`] rows, and at most
/// [`MAX_EXPORT_CELLS`] cells unless a single row is wider), from row 0 to
/// the last row.
pub proof fn lemma_tiles_cover_rows(width: int, height: int)
    requires
        width >= 0,
        height >= 0,
    ensures
        ({
            let cap = tile_rows_cap(width);
            let count = tile_count(height, cap);
            &&& 1 <= cap <= MAX_EXPORT_HEIGHT
            &&& (cap * width <= MAX_EXPORT_CELLS || cap == 1)
            &&& (count == 0 <==> height == 0)
            &&& count > 0 ==> tile_start(0, cap) == 0 && tile_end(count - 1, cap, height) == height
            &&& forall|i: int| 0 <= i < count ==> {
                &&& tile_start(i, cap) < #[trigger] tile_end(i, cap, height)
                &&& tile_end(i, cap, height) - tile_start(i, cap) <= cap
            }
            &&& forall|i: int| 0 <= i < count - 1 ==> #[trigger] tile_end(i, cap, height) == tile_start(i + 1, cap)
        }),
{
    let cap = tile_rows_cap(width);
    let count = tile_count(height, cap);
    if width > 0 {
        let q = MAX_EXPORT_CELLS as int / width;
        assert(q * width <= MAX_EXPORT_CELLS) by (nonlinear_arith)
            requires q == MAX_EXPORT_CELLS as int / width, width > 0;
        if q >= 1 && cap < q {
            assert(cap * width <= q * width) by (nonlinear_arith)
                requires cap < q, width > 0;
        }
    }
    if height > 0 {
        assert((count - 1) * cap < height && height <= count * cap) by (nonlinear_arith)
            requires count == (height + cap - 1) / cap, cap >= 1, height > 0;
        assert forall|i: int| 0 <= i < count implies {
            &&& tile_start(i, cap) < #[trigger] tile_end(i, cap, height)
            &&& tile_end(i, cap, height) - tile_start(i, cap) <= cap
        } by {
            assert(i * cap <= (count - 1) * cap) by (nonlinear_arith)
                requires i <= count - 1, cap >= 1;
        }
        assert forall|i: int| 0 <= i < count - 1 implies #[trigger] tile_end(i, cap, height) == tile_start(i + 1, cap) by {
            assert((i + 1) * cap <= (count - 1) * cap) by (nonlinear_arith)
                requires i + 1 <= count - 1, cap >= 1;
            assert(i * cap + cap == (i + 1) * cap) by (nonlinear_arith);
        }
        assert((count - 1) * cap + cap >= height) by (nonlinear_arith)
            requires height <= count * cap;
        assert(0 * cap == 0) by (nonlinear_arith);
    }
}

proof fn lemma_bits_of_byte(c0: u8, c1: u8, c2: u8, c3: u8, c4: u8, c5: u8, c6: u8, c7: u8)
    requires
        c0 <= 1,
        c1 <= 1,
        c2 <= 1,
        c3 <= 1,
        c4 <= 1,
        c5 <= 1,
        c6 <= 1,
        c7 <= 1,
    ensures
        ({
            let v = (128 * c0 + 64 * c1 + 32 * c2 + 16 * c3 + 8 * c4 + 4 * c5 + 2 * c6 + c7) as u8;
            &&& (v >> 7u8) & 1 == c0
            &&& (v >> 6u8) & 1 == c1
            &&& (v >> 5u8) & 1 == c2
            &&& (v >> 4u8) & 1 == c3
            &&& (v >> 3u8) & 1 == c4
            &&& (v >> 2u8) & 1 == c5
            &&& (v >> 1u8) & 1 == c6
            &&& (v >> 0u8) & 1 == c7
        }),
{
    assert(c0 <= 1 && c1 <= 1 && c2 <= 1 && c3 <= 1 && c4 <= 1 && c5 <= 1 && c6 <= 1 && c7 <= 1 ==> {
        let v = (128 * c0 + 64 * c1 + 32 * c2 + 16 * c3 + 8 * c4 + 4 * c5 + 2 * c6 + c7) as u8;
        &&& (v >> 7u8) & 1 == c0
        &&& (v >> 6u8) & 1 == c1
        &&& (v >> 5u8) & 1 == c2
        &&& (v >> 4u8) & 1 == c3
        &&& (v >> 3u8) & 1 == c4
        &&& (v >> 2u8) & 1 == c5
        &&& (v >> 1u8) & 1 == c6
        &&& (v >> 0u8) & 1 == c7
    }) by (bit_vector);
}

/// Reading the packing back bit by bit gives the low bits of the cells.
pub proof fn lemma_packed_bytes_bits(cells: Seq<u8>, n: int)
    requires
        0 <= n <= cells.len(),
    ensures
        packed_bytes(cells, n).len() == (n + 7) / 8,
        forall|j: int| 0 <= j < n ==> #[trigger] packed_bit(packed_bytes(cells, n), j) == cells[j] % 2,
{
    let p = packed_bytes(cells, n);
    assert forall|j: int| 0 <= j < n implies #[trigger] packed_bit(p, j) == cells[j] % 2 by {
        let b = j / 8;
        let k = j % 8;
        assert(0 <= b < p.len());
        lemma_bits_of_byte(
            cell_bit(cells, n, 8 * b) as u8,
            cell_bit(cells, n, 8 * b + 1) as u8,
            cell_bit(cells, n, 8 * b + 2) as u8,
            cell_bit(cells, n, 8 * b + 3) as u8,
            cell_bit(cells, n, 8 * b + 4) as u8,
            cell_bit(cells, n, 8 * b + 5) as u8,
            cell_bit(cells, n, 8 * b + 6) as u8,
            cell_bit(cells, n, 8 * b + 7) as u8,
        );
        assert(j == 8 * b + k);
        assert(cell_bit(cells, n, j) == cells[j] % 2);
        if k == 0 {
        } else if k == 1 {
        } else if k == 2 {
        } else if k == 3 {
        } else if k == 4 {
        } else if k == 5 {
        } else if k == 6 {
        } else {
        }
    }
}

/// Each tile carries the packing of exactly its own rows: the data script of
/// tile `k - 1` is the base64 text of bytes whose bits, read most
/// significant first, are the low bits of the grid cells from the tile's
/// first row up to its end row.
pub proof fn lemma_tile_data(rows: Seq<u8>, width: int, k: int, cap: int, height: int)
    requires
        width >= 0,
        1 <= cap,
        height == page_height(rows.len() as int, width),
        0 < k <= tile_count(height, cap),
    ensures
        exists|b: Seq<u8>|
            #![trigger base64_standard(b)]
            {
                let s = tile_start(k - 1, cap);
                let e = tile_end(k - 1, cap, height);
                &&& tiles_scripts(rows, width, k, cap, height) == tiles_scripts(rows, width, k - 1, cap, height)
                    + tile_script(k - 1, base64_standard(b))
                &&& b.len() == (width * (e - s) + 7) / 8
                &&& forall|j: int| 0 <= j < width * (e - s) ==> #[trigger] packed_bit(b, j) == rows[s * width + j] % 2
            },
{
    let s = tile_start(k - 1, cap);
    let e = tile_end(k - 1, cap, height);
    let count = tile_count(height, cap);
    assert(height > 0);
    assert(width > 0) by {
        if width == 0 {
            assert(height == 0);
        }
    }
    assert((count - 1) * cap < height) by (nonlinear_arith)
        requires count == (height + cap - 1) / cap, cap >= 1, height > 0;
    assert((k - 1) * cap <= (count - 1) * cap) by (nonlinear_arith)
        requires k - 1 <= count - 1, cap >= 1;
    assert(s < e && e <= height);
    assert(height * width <= rows.len()) by (nonlinear_arith)
        requires height == rows.len() as int / width, width > 0;
    assert(rendered_rows(rows.len() as int, width, s, e) == e - s);
    assert(e * width <= height * width) by (nonlinear_arith)
        requires e <= height, width > 0;
    assert(s * width + width * (e - s) == e * width) by (nonlinear_arith);
    assert(0 <= s * width) by (nonlinear_arith)
        requires s >= 0, width > 0;
    let cells = rows.subrange(s * width, s * width + width * (e - s));
    assert(0 <= width * (e - s)) by (nonlinear_arith)
        requires e > s, width > 0;
    lemma_packed_bytes_bits(cells, width * (e - s));
    let b = tile_bytes(rows, width, s, e);
    assert(b == packed_bytes(cells, width * (e - s)));
    assert forall|j: int| 0 <= j < width * (e - s) implies #[trigger] packed_bit(b, j) == rows[s * width + j] % 2 by {
        assert(cells[j] == rows[s * width + j]);
    }
    assert(tiles_scripts(rows, width, k, cap, height) == tiles_scripts(rows, width, k - 1, cap, height)
        + tile_script(k - 1, base64_standard(b)));
    assert(b.len() == (width * (e - s) + 7) / 8);
}

/// Stacking the tiles in order gives back the whole grid: every cell
/// `(y, x)` lies in tile `y / cap`, at bit `(y - start) * width + x` of that
/// tile's packing, where `start` is the tile's first row.
pub proof fn lemma_cell_in_tile(width: int, height: int, cap: int, y: int, x: int)
    requires
        1 <= cap,
        0 <= y < height,
        0 <= x < width,
    ensures
        ({
            let i = y / cap;
            let s = tile_start(i, cap);
            let e = tile_end(i, cap, height);
            &&& 0 <= i < tile_count(height, cap)
            &&& s <= y < e
            &&& 0 <= (y - s) * width + x < width * (e - s)
            &&& s * width + ((y - s) * width + x) == y * width + x
        }),
{
    let i = y / cap;
    let s = tile_start(i, cap);
    let e = tile_end(i, cap, height);
    assert(i * cap <= y < i * cap + cap) by (nonlinear_arith)
        requires i == y / cap, cap >= 1, y >= 0;
    assert(0 <= i) by (nonlinear_arith)
        requires i == y / cap, cap >= 1, y >= 0;
    assert(i < (height + cap - 1) / cap) by (nonlinear_arith)
        requires i * cap <= y, y < height, cap >= 1, i >= 0;
    assert(s <= y < e);
    assert((y - s) * width + x < (y - s + 1) * width) by (nonlinear_arith)
        requires x < width;
    assert((y - s + 1) * width <= (e - s) * width) by (nonlinear_arith)
        requires y + 1 <= e, width >= 0;
    assert((e - s) * width == width * (e - s)) by (nonlinear_arith);
    assert(0 <= (y - s) * width) by (nonlinear_arith)
        requires y >= s, width >= 0;
    assert(s * width + (y - s) * width == y * width) by (nonlinear_arith);
}

} // verus!
