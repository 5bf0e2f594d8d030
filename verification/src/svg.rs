//! Self-contained SVG generation for a simulation result.
//!
//! The SVG is laid out as one `cell_size`-pixel square per cell. Without
//! borders, consecutive black cells in the same row are coalesced into a
//! single `<rect>` (horizontal run-length encoding) over a white background.
//! With borders (and a cell size above 1), every cell is drawn inset by one
//! unit over a dark background, which shows through as the grid.
//!
//! Output is plain ASCII SVG with no embedded scripts or external references.
use vstd::prelude::*;

use crate::text::{decimal, push_decimal};
use crate::{RenderOptions, SimulationResult};

verus! {

/// Above this many cells a caller should warn that editors will struggle
/// with the file.
pub const LARGE_SVG_THRESHOLD: u128 = 50_000_000;

/// The index just past the run of `1` cells that starts at `x`.
pub open spec fn run_end(row: Seq<u8>, x: int) -> int
    decreases row.len() - x,
{
    if 0 <= x < row.len() && row[x] == 1 {
        run_end(row, x + 1)
    } else {
        x
    }
}

/// A run ends after it starts, within the row, and every cell it spans is `1`.
pub proof fn lemma_run_end(row: Seq<u8>, x: int)
    requires
        0 <= x <= row.len(),
    ensures
        x <= run_end(row, x) <= row.len(),
        forall|i: int| x <= i < run_end(row, x) ==> #[trigger] row[i] == 1,
        run_end(row, x) < row.len() ==> row[run_end(row, x)] != 1,
        x < row.len() && row[x] == 1 ==> run_end(row, x) > x,
    decreases row.len() - x,
{
    if x < row.len() && row[x] == 1 {
        lemma_run_end(row, x + 1);
    }
}

/// The maximal runs of `1` cells in `row` from position `x` on, as
/// (start, length) pairs, left to right.
pub open spec fn black_runs(row: Seq<u8>, x: int) -> Seq<(int, int)>
    decreases row.len() - x,
{
    if x < 0 || x >= row.len() {
        Seq::empty()
    } else if row[x] == 1 {
        proof {
            lemma_run_end(row, x);
        }
        let e = run_end(row, x);
        seq![(x, e - x)] + black_runs(row, e)
    } else {
        black_runs(row, x + 1)
    }
}

/// The runs cover exactly the `1` cells from `x` on, each run is maximal
/// (the cells just outside it are not `1`), and the runs are in increasing
/// order without overlap.
pub proof fn lemma_black_runs_exact(row: Seq<u8>, x: int)
    requires
        0 <= x <= row.len(),
    ensures
        forall|k: int| 0 <= k < black_runs(row, x).len() ==> {
            let (s, l) = #[trigger] black_runs(row, x)[k];
            &&& x <= s
            &&& l > 0
            &&& s + l <= row.len()
            &&& (forall|i: int| s <= i < s + l ==> row[i] == 1)
            &&& (s > x ==> row[s - 1] != 1)
            &&& (s + l < row.len() ==> row[s + l] != 1)
        },
        forall|k: int, m: int|
            0 <= k < m < black_runs(row, x).len() ==> #[trigger] black_runs(row, x)[k].0 + black_runs(row, x)[k].1
                < #[trigger] black_runs(row, x)[m].0,
        forall|i: int|
            x <= i < row.len() && row[i] == 1 ==> exists|k: int|
                0 <= k < black_runs(row, x).len() && #[trigger] black_runs(row, x)[k].0 <= i < black_runs(row, x)[k].0
                    + black_runs(row, x)[k].1,
    decreases row.len() - x,
{
    if x < row.len() {
        lemma_run_end(row, x);
        if row[x] == 1 {
            let e = run_end(row, x);
            lemma_black_runs_exact(row, e);
            let rest = black_runs(row, e);
            let runs = black_runs(row, x);
            assert(runs == seq![(x, e - x)] + rest);
            if e < row.len() {
                lemma_run_end(row, e);
                if rest.len() > 0 {
                    assert(rest[0].0 > e);
                }
            }
            assert forall|i: int| x <= i < row.len() && row[i] == 1 implies exists|k: int|
                0 <= k < runs.len() && #[trigger] runs[k].0 <= i < runs[k].0 + runs[k].1 by {
                if i < e {
                    assert(runs[0].0 <= i < runs[0].0 + runs[0].1);
                } else {
                    let k = choose|k: int| 0 <= k < rest.len() && #[trigger] rest[k].0 <= i < rest[k].0 + rest[k].1;
                    assert(runs[k + 1] == rest[k]);
                }
            }
            assert forall|k: int, m: int| 0 <= k < m < runs.len() implies #[trigger] runs[k].0 + runs[k].1
                < #[trigger] runs[m].0 by {
                assert(runs[m] == rest[m - 1]);
                if k > 0 {
                    assert(runs[k] == rest[k - 1]);
                } else {
                    assert(rest[m - 1].0 > e);
                }
            }
            assert forall|k: int| 0 <= k < runs.len() implies {
                let (s, l) = #[trigger] runs[k];
                &&& x <= s
                &&& l > 0
                &&& s + l <= row.len()
                &&& (forall|i: int| s <= i < s + l ==> row[i] == 1)
                &&& (s > x ==> row[s - 1] != 1)
                &&& (s + l < row.len() ==> row[s + l] != 1)
            } by {
                if k > 0 {
                    assert(runs[k] == rest[k - 1]);
                    let (s, l) = rest[k - 1];
                    if s == e {
                    } else {
                        assert(s > e);
                    }
                }
            }
        } else {
            lemma_black_runs_exact(row, x + 1);
            let runs = black_runs(row, x);
            assert(runs == black_runs(row, x + 1));
        }
    }
}

/// `<rect .../>` line of one run of black cells, without a fill attribute
/// (the SVG default fill is black).
pub open spec fn run_rect(start: int, len: int, y: int, cs: int) -> Seq<char> {
    "<rect x=\""@ + decimal((start * cs) as nat) + "\" y=\""@ + decimal((y * cs) as nat) + "\" width=\""@
        + decimal((len * cs) as nat) + "\" height=\""@ + decimal(cs as nat) + "\"/>\n"@
}

/// A run of `len` black cells starting at column `start` of row `y` is one
/// rectangle at pixel `(start * cs, y * cs)`, `len * cs` wide and `cs` high;
/// a bordered cell `(x, y)` is a square of side `cs - 1` at
/// `(x * cs + 1, y * cs + 1)`, black for `1` and white otherwise.
pub proof fn lemma_rect_geometry(start: int, len: int, x: int, y: int, cs: int, v: u8)
    ensures
        run_rect(start, len, y, cs) == "<rect x=\""@ + decimal((start * cs) as nat) + "\" y=\""@ + decimal((y * cs) as nat)
            + "\" width=\""@ + decimal((len * cs) as nat) + "\" height=\""@ + decimal(cs as nat) + "\"/>\n"@,
        bordered_rect(x, y, cs, v) == "<rect x=\""@ + decimal((x * cs + 1) as nat) + "\" y=\""@ + decimal(
            (y * cs + 1) as nat,
        ) + "\" width=\""@ + decimal((cs - 1) as nat) + "\" height=\""@ + decimal((cs - 1) as nat) + "\" fill=\""@
            + (if v == 1 {
            "#000000"@
        } else {
            "#ffffff"@
        }) + "\"/>\n"@,
{
}

/// The rect lines of a list of runs in row `y`.
pub open spec fn runs_text(runs: Seq<(int, int)>, y: int, cs: int) -> Seq<char>
    decreases runs.len(),
{
    if runs.len() == 0 {
        Seq::empty()
    } else {
        run_rect(runs[0].0, runs[0].1, y, cs) + runs_text(runs.drop_first(), y, cs)
    }
}

/// The fill colour of a bordered cell.
pub open spec fn cell_color(v: u8) -> Seq<char> {
    if v == 1 {
        "#000000"@
    } else {
        "#ffffff"@
    }
}

/// `<rect .../>` line of one bordered cell, inset by one unit.
pub open spec fn bordered_rect(x: int, y: int, cs: int, v: u8) -> Seq<char> {
    "<rect x=\""@ + decimal((x * cs + 1) as nat) + "\" y=\""@ + decimal((y * cs + 1) as nat) + "\" width=\""@
        + decimal((cs - 1) as nat) + "\" height=\""@ + decimal((cs - 1) as nat) + "\" fill=\""@ + cell_color(v)
        + "\"/>\n"@
}

/// The rect lines of cells `0..n` of row `y`, bordered.
pub open spec fn bordered_row_text(row: Seq<u8>, y: int, cs: int, n: int) -> Seq<char>
    decreases n,
{
    if n <= 0 {
        Seq::empty()
    } else {
        bordered_row_text(row, y, cs, n - 1) + bordered_rect(n - 1, y, cs, row[n - 1])
    }
}

/// The body lines of the first `n` rows of a grid `width` cells wide.
pub open spec fn svg_rows_text(rows: Seq<u8>, width: int, cs: int, with_borders: bool, n: int) -> Seq<char>
    decreases n,
{
    if n <= 0 {
        Seq::empty()
    } else {
        let row = rows.subrange((n - 1) * width, n * width);
        svg_rows_text(rows, width, cs, with_borders, n - 1) + if with_borders {
            bordered_row_text(row, n - 1, cs, width)
        } else {
            runs_text(black_runs(row, 0), n - 1, cs)
        }
    }
}

/// The cell size that is drawn: `cell_size`, but at least 1.
pub open spec fn drawn_cell_size(opts: RenderOptions) -> int {
    if opts.cell_size == 0 {
        1
    } else {
        opts.cell_size as int
    }
}

/// Number of whole rows in a flat grid of width `width`.
pub open spec fn grid_height(len: int, width: int) -> int {
    if width == 0 {
        0
    } else {
        len / width
    }
}

/// The SVG document for a grid of `height` rows of `width` cells.
pub open spec fn svg_document(rows: Seq<u8>, width: int, height: int, cs: int, with_borders: bool) -> Seq<char> {
    let total_w = width * cs;
    let total_h = height * cs;
    let bg = if with_borders {
        "#4d4d4d"@
    } else {
        "#ffffff"@
    };
    "<?xml version=\"1.0\" encoding=\"UTF-8\"?>\n"@ + "<svg xmlns=\"http://www.w3.org/2000/svg\" width=\""@ + decimal(
        total_w as nat,
    ) + "\" height=\""@ + decimal(total_h as nat) + "\" viewBox=\"0 0 "@ + decimal(total_w as nat) + " "@ + decimal(
        total_h as nat,
    ) + "\" shape-rendering=\"crispEdges\">\n"@ + "<rect width=\""@ + decimal(total_w as nat) + "\" height=\""@
        + decimal(total_h as nat) + "\" fill=\""@ + bg + "\"/>\n"@ + (if width == 0 || height == 0 {
        Seq::empty()
    } else {
        svg_rows_text(rows, width, cs, with_borders, height)
    }) + "</svg>\n"@
}

/// The SVG of a result drawn with `opts`.
pub open spec fn svg_of(result: SimulationResult, opts: RenderOptions) -> Seq<char> {
    let width = result.width as int;
    let cs = drawn_cell_size(opts);
    svg_document(
        result.rows@,
        width,
        grid_height(result.rows@.len() as int, width),
        cs,
        opts.show_borders && cs > 1,
    )
}

/// At cell size 0 or 1 there is no room for a grid: the drawing is the one
/// at cell size 1 without borders, whatever `show_borders` says.
pub proof fn lemma_small_cells_ignore_borders(result: SimulationResult, opts: RenderOptions)
    requires
        opts.cell_size <= 1,
    ensures
        svg_of(result, opts) == svg_of(result, RenderOptions { cell_size: 1, show_borders: false }),
{
}

/// The picture of a result drawn with `opts` fits in `usize` coordinates.
pub open spec fn svg_fits(result: SimulationResult, opts: RenderOptions) -> bool {
    let width = result.width as int;
    let cs = drawn_cell_size(opts);
    &&& width * cs <= usize::MAX
    &&& grid_height(result.rows@.len() as int, width) * cs <= usize::MAX
}

/// Whether a result is large enough that a caller should warn about the SVG
/// size (more than [`LARGE_SVG_THRESHOLD`] cells).
pub fn svg_is_large(result: &SimulationResult) -> (r: bool)
    ensures
        r == (result.width * grid_height(result.rows@.len() as int, result.width as int) > LARGE_SVG_THRESHOLD),
{
    let width = result.width;
    let height = if width == 0 { 0 } else { result.rows.len() / width };
    assert((width as u128) * (height as u128) <= 0xffff_ffff_ffff_ffffu128 * 0xffff_ffff_ffff_ffffu128) by (nonlinear_arith)
        requires width <= 0xffff_ffff_ffff_ffffu128, height <= 0xffff_ffff_ffff_ffffu128;
    let cell_count: u128 = (width as u128) * (height as u128);
    cell_count > LARGE_SVG_THRESHOLD
}

/// Appends the rect line of one run.
fn push_run_rect(out: &mut String, start: usize, len: usize, y: usize, cs: usize)
    requires
        start * cs <= usize::MAX,
        len * cs <= usize::MAX,
        y * cs <= usize::MAX,
    ensures
        final(out)@ == old(out)@ + run_rect(start as int, len as int, y as int, cs as int),
{
    out.append("<rect x=\"");
    push_decimal(out, (start * cs) as u64);
    out.append("\" y=\"");
    push_decimal(out, (y * cs) as u64);
    out.append("\" width=\"");
    push_decimal(out, (len * cs) as u64);
    out.append("\" height=\"");
    push_decimal(out, cs as u64);
    out.append("\"/>\n");
}

/// Appends the rect line of one bordered cell.
fn push_bordered_rect(out: &mut String, x: usize, y: usize, cs: usize, v: u8)
    requires
        cs >= 1,
        x * cs + 1 <= usize::MAX,
        y * cs + 1 <= usize::MAX,
    ensures
        final(out)@ == old(out)@ + bordered_rect(x as int, y as int, cs as int, v),
{
    let inset = cs - 1;
    out.append("<rect x=\"");
    push_decimal(out, (x * cs + 1) as u64);
    out.append("\" y=\"");
    push_decimal(out, (y * cs + 1) as u64);
    out.append("\" width=\"");
    push_decimal(out, inset as u64);
    out.append("\" height=\"");
    push_decimal(out, inset as u64);
    out.append("\" fill=\"");
    if v == 1 {
        out.append("#000000");
    } else {
        out.append("#ffffff");
    }
    out.append("\"/>\n");
}

/// Appends the run-length encoded rect lines of one row.
fn push_plain_row(out: &mut String, row: &[u8], y: usize, cs: usize)
    requires
        cs >= 1,
        row@.len() * cs <= usize::MAX,
        y * cs <= usize::MAX,
    ensures
        final(out)@ == old(out)@ + runs_text(black_runs(row@, 0), y as int, cs as int),
{
    let width = row.len();
    let ghost line_start = out@;
    let ghost total = runs_text(black_runs(row@, 0), y as int, cs as int);
    let mut x: usize = 0;
    while x < width
        invariant
            width == row@.len(),
            x <= width,
            cs >= 1,
            width * cs <= usize::MAX,
            y * cs <= usize::MAX,
            total == runs_text(black_runs(row@, 0), y as int, cs as int),
            line_start + total == out@ + runs_text(black_runs(row@, x as int), y as int, cs as int),
        decreases width - x,
    {
        if row[x] == 1 {
            let start = x;
            proof {
                lemma_run_end(row@, start as int);
            }
            while x < width && row[x] == 1
                invariant
                    width == row@.len(),
                    start <= x <= width,
                    run_end(row@, x as int) == run_end(row@, start as int),
                decreases width - x,
            {
                x += 1;
            }
            let ghost runs = black_runs(row@, start as int);
            assert(runs == seq![(start as int, x - start)] + black_runs(row@, x as int));
            assert(runs.drop_first() =~= black_runs(row@, x as int));
            assert(start * cs <= width * cs) by (nonlinear_arith)
                requires start <= width, cs >= 1;
            assert((x - start) * cs <= width * cs) by (nonlinear_arith)
                requires x - start <= width, cs >= 1;
            push_run_rect(out, start, x - start, y, cs);
        } else {
            x += 1;
        }
    }
    assert(black_runs(row@, width as int) =~= Seq::<(int, int)>::empty());
}

/// Appends the bordered rect lines of one row, one per cell.
fn push_bordered_row(out: &mut String, row: &[u8], y: usize, cs: usize)
    requires
        cs >= 1,
        row@.len() * cs <= usize::MAX,
        y * cs + 1 <= usize::MAX,
    ensures
        final(out)@ == old(out)@ + bordered_row_text(row@, y as int, cs as int, row@.len() as int),
{
    let width = row.len();
    let ghost line_start = out@;
    for x in 0..width
        invariant
            width == row@.len(),
            cs >= 1,
            width * cs <= usize::MAX,
            y * cs + 1 <= usize::MAX,
            out@ == line_start + bordered_row_text(row@, y as int, cs as int, x as int),
    {
        assert(x * cs + 1 <= width * cs) by (nonlinear_arith)
            requires x < width, cs >= 1;
        push_bordered_rect(out, x, y, cs, row[x]);
    }
}

/// Convert a simulation result to a self-contained SVG document.
///
/// `opts.cell_size` controls the size of each cell (a size of 0 is drawn as
/// 1). `opts.show_borders` draws a grid between cells when the cell size is
/// above 1; with size 1 the flag is ignored. The grid has
/// `rows.len() / width` rows (none when the width is 0).
pub fn to_svg(result: &SimulationResult, opts: &RenderOptions) -> (r: String)
    requires
        svg_fits(*result, *opts),
    ensures
        r@ == svg_of(*result, *opts),
{
    let width = result.width;
    let height = if width == 0 { 0 } else { result.rows.len() / width };
    let cs: usize = if opts.cell_size == 0 { 1 } else { opts.cell_size as usize };
    let total_w = width * cs;
    let total_h = height * cs;
    let with_borders = opts.show_borders && cs > 1;
    let mut s = String::new();
    s.append("<?xml version=\"1.0\" encoding=\"UTF-8\"?>\n");
    s.append("<svg xmlns=\"http://www.w3.org/2000/svg\" width=\"");
    push_decimal(&mut s, total_w as u64);
    s.append("\" height=\"");
    push_decimal(&mut s, total_h as u64);
    s.append("\" viewBox=\"0 0 ");
    push_decimal(&mut s, total_w as u64);
    s.append(" ");
    push_decimal(&mut s, total_h as u64);
    s.append("\" shape-rendering=\"crispEdges\">\n");
    s.append("<rect width=\"");
    push_decimal(&mut s, total_w as u64);
    s.append("\" height=\"");
    push_decimal(&mut s, total_h as u64);
    s.append("\" fill=\"");
    if with_borders {
        s.append("#4d4d4d");
    } else {
        s.append("#ffffff");
    }
    s.append("\"/>\n");
    let ghost header = s@;
    if width == 0 || height == 0 {
        s.append("</svg>\n");
        return s;
    }
    let ghost rows = result.rows@;
    let n = result.rows.len();
    assert(height * width <= rows.len()) by (nonlinear_arith)
        requires height == rows.len() as int / width as int, width > 0;
    for y in 0..height
        invariant
            rows == result.rows@,
            width == result.width,
            width > 0,
            height * width <= rows.len(),
            rows.len() == n,
            width * cs <= usize::MAX,
            height * cs <= usize::MAX,
            cs >= 1,
            with_borders ==> cs > 1,
            s@ == header + svg_rows_text(rows, width as int, cs as int, with_borders, y as int),
    {
        assert((y + 1) * width <= height * width) by (nonlinear_arith)
            requires y < height, width > 0;
        assert((y + 1) * width == y * width + width) by (nonlinear_arith);
        assert(y * cs + 1 <= height * cs) by (nonlinear_arith)
            requires y < height, cs >= 1;
        let row = &result.rows[y * width..(y + 1) * width];
        assert(row@ == rows.subrange(y * width, (y + 1) * width));
        if with_borders {
            push_bordered_row(&mut s, row, y, cs);
        } else {
            push_plain_row(&mut s, row, y, cs);
        }
    }
    s.append("</svg>\n");
    s
}

} // verus!
