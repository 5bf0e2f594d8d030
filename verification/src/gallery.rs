//! The gallery of exported runs: reading the manifest back into entries and
//! rendering the index page that lists them, newest first.
use vstd::prelude::*;

use crate::export::{join_tabs, manifest_fields, ExportInput};
use crate::sim::{boundary_label, BoundaryMode};
use crate::templates::{
    INDEX_EMPTY, INDEX_FILTER, INDEX_HEAD, INDEX_ROW_TAIL, INDEX_SCRIPT, INDEX_TABLE_HEAD, INDEX_TABLE_TAIL,
};
use crate::text::{decimal, digit_char, html_escape, html_escaped, push_char, push_decimal};

verus! {

/// Whether `c` has the Unicode `White_Space` property, as listed in the
/// Unicode Character Database (PropList.txt): the 25 code points U+0009 to
/// U+000D, U+0020, U+0085, U+00A0, U+1680, U+2000 to U+200A, U+2028, U+2029,
/// U+202F, U+205F and U+3000.
pub open spec fn is_white_space(c: char) -> bool {
    let v = c as int;
    ||| 0x09 <= v <= 0x0D
    ||| v == 0x20
    ||| v == 0x85
    ||| v == 0xA0
    ||| v == 0x1680
    ||| 0x2000 <= v <= 0x200A
    ||| v == 0x2028
    ||| v == 0x2029
    ||| v == 0x202F
    ||| v == 0x205F
    ||| v == 0x3000
}

/// Whether a character is white space.
///
/// Trusted: calls `char::is_whitespace`, which std documents as true exactly
/// for the characters with the Unicode `White_Space` property (PropList.txt);
/// the contract spells that property out as [`is_white_space`].
#[verifier::external_body]
fn char_is_whitespace(c: char) -> (r: bool)
    ensures
        r == is_white_space(c),
{
    c.is_whitespace()
}

/// A line is blank when it holds nothing but white space.
pub open spec fn is_blank(s: Seq<char>) -> bool {
    forall|i: int| 0 <= i < s.len() ==> #[trigger] is_white_space(s[i])
}

/// The tab-separated fields of a line: the text between tabs, so `k` tabs
/// give `k + 1` fields.
pub open spec fn split_tabs(s: Seq<char>) -> Seq<Seq<char>>
    decreases s.len(),
{
    if s.len() == 0 {
        seq![Seq::empty()]
    } else {
        let parts = split_tabs(s.drop_last());
        if s.last() == '\t' {
            parts.push(Seq::empty())
        } else {
            parts.update(parts.len() - 1, parts.last().push(s.last()))
        }
    }
}

/// There is always at least one field.
pub proof fn lemma_split_tabs_nonempty(s: Seq<char>)
    ensures
        split_tabs(s).len() >= 1,
    decreases s.len(),
{
    if s.len() > 0 {
        lemma_split_tabs_nonempty(s.drop_last());
    }
}

/// Text without tabs extends the last field.
proof fn lemma_split_tabs_append_plain(x: Seq<char>, y: Seq<char>)
    requires
        !y.contains('\t'),
    ensures
        split_tabs(x + y) == split_tabs(x).update(split_tabs(x).len() - 1, split_tabs(x).last() + y),
    decreases y.len(),
{
    lemma_split_tabs_nonempty(x);
    if y.len() == 0 {
        assert(x + y =~= x);
        assert(split_tabs(x).last() + y =~= split_tabs(x).last());
        assert(split_tabs(x).update(split_tabs(x).len() - 1, split_tabs(x).last()) =~= split_tabs(x));
    } else {
        let y0 = y.drop_last();
        assert(!y0.contains('\t')) by {
            if y0.contains('\t') {
                let i = choose|i: int| 0 <= i < y0.len() && y0[i] == '\t';
                assert(y[i] == '\t');
            }
        }
        lemma_split_tabs_append_plain(x, y0);
        assert((x + y).drop_last() =~= x + y0);
        assert((x + y).last() == y.last());
        assert(y.last() != '\t') by {
            assert(y[y.len() - 1] == y.last());
        }
        lemma_split_tabs_nonempty(x + y0);
        assert((split_tabs(x).last() + y0).push(y.last()) =~= split_tabs(x).last() + y);
        assert(split_tabs(x + y) =~= split_tabs(x).update(split_tabs(x).len() - 1, split_tabs(x).last() + y));
    }
}

/// Splitting at tabs gives back fields that were joined by tabs, as long as
/// no field holds a tab.
pub proof fn lemma_split_join_tabs(fields: Seq<Seq<char>>)
    requires
        fields.len() >= 1,
        forall|i: int| 0 <= i < fields.len() ==> !(#[trigger] fields[i]).contains('\t'),
    ensures
        split_tabs(join_tabs(fields)) == fields,
    decreases fields.len(),
{
    if fields.len() == 1 {
        lemma_split_tabs_append_plain(Seq::empty(), fields[0]);
        assert(Seq::<char>::empty() + fields[0] =~= fields[0]);
        assert(Seq::<char>::empty() + fields[0] =~= fields[0]);
        assert(split_tabs(join_tabs(fields)) =~= fields);
    } else {
        let init = fields.drop_last();
        assert forall|i: int| 0 <= i < init.len() implies !(#[trigger] init[i]).contains('\t') by {
            assert(init[i] == fields[i]);
        }
        lemma_split_join_tabs(init);
        let x = join_tabs(init) + seq!['\t'];
        assert(x.drop_last() =~= join_tabs(init));
        assert(split_tabs(x) == split_tabs(join_tabs(init)).push(Seq::empty()));
        assert(!fields.last().contains('\t')) by {
            assert(fields[fields.len() - 1] == fields.last());
        }
        lemma_split_tabs_append_plain(x, fields.last());
        assert(Seq::<char>::empty() + fields.last() =~= fields.last());
        assert(split_tabs(join_tabs(fields)) =~= fields);
    }
}

/// Splits a line at its tabs.
pub fn split_tab_fields(line: &str) -> (r: Vec<String>)
    ensures
        r@.map_values(|p: String| p@) == split_tabs(line@),
{
    let ghost all = line@;
    let mut parts: Vec<String> = Vec::new();
    let mut cur = String::new();
    assert(all.take(0) =~= Seq::<char>::empty());
    assert(parts@.map_values(|p: String| p@).push(cur@) =~= split_tabs(all.take(0)));
    for c in iter: line.chars()
        invariant
            iter.seq() == all,
            parts@.map_values(|p: String| p@).push(cur@) == split_tabs(all.take(iter.index() as int)),
    {
        let ghost before = parts@.map_values(|p: String| p@).push(cur@);
        assert(all.take(iter.index() + 1).drop_last() =~= all.take(iter.index() as int));
        assert(all.take(iter.index() + 1).last() == c);
        if c == '\t' {
            let done = cur;
            parts.push(done);
            cur = String::new();
            assert(parts@.map_values(|p: String| p@).push(cur@) =~= before.push(Seq::empty()));
        } else {
            push_char(&mut cur, c);
            assert(parts@.map_values(|p: String| p@).push(cur@) =~= before.update(
                before.len() - 1,
                before.last().push(c),
            ));
        }
    }
    assert(all.take(all.len() as int) =~= all);
    parts.push(cur);
    parts
}

/// Whether every character of a line is white space.
pub fn line_is_blank(line: &str) -> (r: bool)
    ensures
        r == is_blank(line@),
{
    let ghost all = line@;
    for c in iter: line.chars()
        invariant
            iter.seq() == all,
            all == line@,
            forall|i: int| 0 <= i < iter.index() ==> #[trigger] is_white_space(all[i]),
    {
        assert(all.take(iter.index() + 1).last() == c);
        if !char_is_whitespace(c) {
            assert(!is_white_space(line@[iter.index() as int]));
            return false;
        }
    }
    true
}

/// One run listed in the manifest, each column as text.
#[derive(Debug, Clone)]
pub struct ManifestEntry {
    pub id: String,
    pub rule: String,
    pub width: String,
    pub generations: String,
    pub boundary: String,
    pub status: String,
    pub progress: String,
    pub timestamp: String,
    pub filename: String,
}

impl View for ManifestEntry {
    type V = Seq<Seq<char>>;

    /// The columns in manifest order.
    open spec fn view(&self) -> Seq<Seq<char>> {
        seq![
            self.id@,
            self.rule@,
            self.width@,
            self.generations@,
            self.boundary@,
            self.status@,
            self.progress@,
            self.timestamp@,
            self.filename@,
        ]
    }
}

/// The columns a manifest line gives: none for a blank line or a line of
/// fewer than nine fields, otherwise its first nine fields.
pub open spec fn line_columns(line: Seq<char>) -> Option<Seq<Seq<char>>> {
    if is_blank(line) || split_tabs(line).len() < 9 {
        None
    } else {
        Some(split_tabs(line).take(9))
    }
}

/// Reads one manifest line (without its line end) into an entry.
pub fn entry_from_line(line: &str) -> (r: Option<ManifestEntry>)
    ensures
        match line_columns(line@) {
            None => r is None,
            Some(cols) => r matches Some(e) && e@ == cols,
        },
{
    if line_is_blank(line) {
        return None;
    }
    let mut parts = split_tab_fields(line);
    if parts.len() < 9 {
        return None;
    }
    let ghost cols = split_tabs(line@);
    assert(parts@.map_values(|p: String| p@)[8] == cols[8]);
    parts.truncate(9);
    let filename = parts.pop().unwrap();
    let timestamp = parts.pop().unwrap();
    let progress = parts.pop().unwrap();
    let status = parts.pop().unwrap();
    let boundary = parts.pop().unwrap();
    let generations = parts.pop().unwrap();
    let width = parts.pop().unwrap();
    let rule = parts.pop().unwrap();
    let id = parts.pop().unwrap();
    let e = ManifestEntry { id, rule, width, generations, boundary, status, progress, timestamp, filename };
    assert(e@ =~= cols.take(9));
    Some(e)
}

/// The columns of the entries that the manifest lines give: the first line
/// (the header) is skipped, and so are lines that give no entry.
pub open spec fn manifest_entries(lines: Seq<Seq<char>>) -> Seq<Seq<Seq<char>>>
    decreases lines.len(),
{
    if lines.len() <= 1 {
        Seq::empty()
    } else {
        manifest_entries(lines.drop_last()) + match line_columns(lines.last()) {
            Some(cols) => seq![cols],
            None => Seq::empty(),
        }
    }
}

/// Reads the lines of a manifest (without line ends) into entries.
pub fn entries_from_lines(lines: &[String]) -> (r: Vec<ManifestEntry>)
    ensures
        r@.map_values(|e: ManifestEntry| e@) == manifest_entries(lines@.map_values(|l: String| l@)),
{
    let ghost all = lines@.map_values(|l: String| l@);
    let mut entries: Vec<ManifestEntry> = Vec::new();
    if lines.len() == 0 {
        assert(entries@.map_values(|e: ManifestEntry| e@) =~= manifest_entries(all));
        return entries;
    }
    assert(all.take(1).len() <= 1);
    assert(entries@.map_values(|e: ManifestEntry| e@) =~= manifest_entries(all.take(1)));
    for i in 1..lines.len()
        invariant
            all == lines@.map_values(|l: String| l@),
            entries@.map_values(|e: ManifestEntry| e@) == manifest_entries(all.take(i as int)),
    {
        assert(all.take(i + 1).drop_last() =~= all.take(i as int));
        assert(all.take(i + 1).last() == lines@[i as int]@);
        let ghost before = entries@.map_values(|e: ManifestEntry| e@);
        match entry_from_line(lines[i].as_str()) {
            Some(e) => {
                entries.push(e);
                assert(entries@.map_values(|e: ManifestEntry| e@) =~= before + seq![e@]);
            },
            None => {
                assert(before + Seq::<Seq<Seq<char>>>::empty() =~= before);
            },
        }
    }
    assert(all.take(lines.len() as int) =~= all);
    entries
}

/// The table row of one entry.
pub open spec fn index_row(f: Seq<Seq<char>>) -> Seq<char> {
    "<tr data-filename=\""@ + html_escaped(f[8]) + "\"><td>"@ + html_escaped(f[0]) + "</td><td>"@ + html_escaped(f[1])
        + "</td><td>"@ + html_escaped(f[2]) + "</td><td>"@ + html_escaped(f[6]) + "/"@ + html_escaped(f[3])
        + "</td><td>"@ + html_escaped(f[4]) + "</td><td>"@ + html_escaped(f[5]) + "</td><td>"@ + html_escaped(f[7])
        + "</td><td><a href=\""@ + html_escaped(f[8]) + INDEX_ROW_TAIL@
}

/// The rows of the last `k` entries, newest (last) first.
pub open spec fn newest_rows(entries: Seq<Seq<Seq<char>>>, k: int) -> Seq<char>
    decreases k,
{
    if k <= 0 {
        Seq::empty()
    } else {
        newest_rows(entries, k - 1) + index_row(entries[entries.len() - k])
    }
}

/// The table lists the entries newest first: its first row is the last
/// manifest entry, followed by the rows of the entries before it, newest
/// first.
pub proof fn lemma_newest_first(entries: Seq<Seq<Seq<char>>>)
    requires
        entries.len() >= 1,
    ensures
        newest_rows(entries, entries.len() as int) == index_row(entries.last()) + newest_rows(
            entries.drop_last(),
            entries.len() - 1,
        ),
{
    lemma_newest_rows_prefix(entries, entries.len() as int);
}

proof fn lemma_newest_rows_prefix(entries: Seq<Seq<Seq<char>>>, k: int)
    requires
        1 <= k <= entries.len(),
    ensures
        newest_rows(entries, k) == index_row(entries.last()) + newest_rows(entries.drop_last(), k - 1),
    decreases k,
{
    let init = entries.drop_last();
    if k == 1 {
        assert(newest_rows(init, 0) == Seq::<char>::empty());
        assert(newest_rows(entries, 0) == Seq::<char>::empty());
        assert(newest_rows(entries, 1) =~= index_row(entries.last()));
    } else {
        lemma_newest_rows_prefix(entries, k - 1);
        assert(init[init.len() - (k - 1)] == entries[entries.len() - k]);
        assert(newest_rows(entries, k) =~= index_row(entries.last()) + newest_rows(init, k - 1));
    }
}

/// The index page that lists the entries.
pub open spec fn index_page(entries: Seq<Seq<Seq<char>>>) -> Seq<char> {
    INDEX_HEAD@ + decimal(entries.len()) + INDEX_FILTER@ + (if entries.len() == 0 {
        INDEX_EMPTY@
    } else {
        INDEX_TABLE_HEAD@ + newest_rows(entries, entries.len() as int) + INDEX_TABLE_TAIL@
    }) + INDEX_SCRIPT@
}

/// The table row of one entry.
fn render_index_row(e: &ManifestEntry) -> (r: String)
    ensures
        r@ == index_row(e@),
{
    let mut row = String::new();
    row.append("<tr data-filename=\"");
    row.append(html_escape(e.filename.as_str()).as_str());
    row.append("\"><td>");
    row.append(html_escape(e.id.as_str()).as_str());
    row.append("</td><td>");
    row.append(html_escape(e.rule.as_str()).as_str());
    row.append("</td><td>");
    row.append(html_escape(e.width.as_str()).as_str());
    row.append("</td><td>");
    row.append(html_escape(e.progress.as_str()).as_str());
    row.append("/");
    row.append(html_escape(e.generations.as_str()).as_str());
    row.append("</td><td>");
    row.append(html_escape(e.boundary.as_str()).as_str());
    row.append("</td><td>");
    row.append(html_escape(e.status.as_str()).as_str());
    row.append("</td><td>");
    row.append(html_escape(e.timestamp.as_str()).as_str());
    row.append("</td><td><a href=\"");
    row.append(html_escape(e.filename.as_str()).as_str());
    row.append(INDEX_ROW_TAIL);
    row
}

/// Renders the index page: the run count, a filter box, and a table of the
/// entries with the newest first (or a note that there are none).
pub fn render_index_html(entries: &[ManifestEntry]) -> (r: String)
    ensures
        r@ == index_page(entries@.map_values(|e: ManifestEntry| e@)),
{
    let ghost es = entries@.map_values(|e: ManifestEntry| e@);
    let n = entries.len();
    let mut rows_html = String::new();
    for k in 0..n
        invariant
            n == entries@.len(),
            es == entries@.map_values(|e: ManifestEntry| e@),
            rows_html@ == newest_rows(es, k as int),
    {
        let row = render_index_row(&entries[n - 1 - k]);
        rows_html.append(row.as_str());
    }
    let mut html = String::new();
    html.append(INDEX_HEAD);
    push_decimal(&mut html, n as u64);
    html.append(INDEX_FILTER);
    if n == 0 {
        html.append(INDEX_EMPTY);
    } else {
        let mut table = String::new();
        table.append(INDEX_TABLE_HEAD);
        table.append(rows_html.as_str());
        table.append(INDEX_TABLE_TAIL);
        html.append(table.as_str());
    }
    html.append(INDEX_SCRIPT);
    html
}

proof fn lemma_decimal_digits(n: nat)
    ensures
        decimal(n).len() >= 1,
        forall|i: int| 0 <= i < decimal(n).len() ==> 48 <= #[trigger] (decimal(n)[i] as int) <= 57,
    decreases n,
{
    if n >= 10 {
        lemma_decimal_digits(n / 10);
        let d = decimal(n / 10);
        let e = decimal(n);
        assert(e == d.push(digit_char(n % 10)));
        assert forall|i: int| 0 <= i < e.len() implies 48 <= #[trigger] (e[i] as int) <= 57 by {
            if i < d.len() {
                assert(e[i] == d[i]);
            }
        }
    } else {
        assert(decimal(n) == seq![digit_char(n)]);
    }
}

proof fn lemma_decimal_has_no_tab(n: nat)
    ensures
        !decimal(n).contains('\t'),
        !is_white_space(decimal(n)[0]),
{
    lemma_decimal_digits(n);
    let e = decimal(n);
    if e.contains('\t') {
        let i = choose|i: int| 0 <= i < e.len() && e[i] == '\t';
        assert(48 <= (e[i] as int) <= 57);
    }
    assert(48 <= (e[0] as int) <= 57);
}

/// The first field of a tab-joined line starts the line.
proof fn lemma_join_tabs_starts_with_first(fields: Seq<Seq<char>>)
    requires
        fields.len() >= 1,
    ensures
        join_tabs(fields).len() >= fields[0].len(),
        forall|i: int| 0 <= i < fields[0].len() ==> #[trigger] join_tabs(fields)[i] == fields[0][i],
    decreases fields.len(),
{
    if fields.len() > 1 {
        let init = fields.drop_last();
        lemma_join_tabs_starts_with_first(init);
        assert(init[0] == fields[0]);
        let j = join_tabs(fields);
        assert(j == join_tabs(init) + seq!['\t'] + fields.last());
        assert forall|i: int| 0 <= i < fields[0].len() implies #[trigger] j[i] == fields[0][i] by {
            assert(j[i] == join_tabs(init)[i]);
        }
    }
}

/// A manifest line written for a run reads back as the run's columns: the
/// line (without its line end) is not blank and splits at its tabs into
/// exactly the nine fields that were written, as long as the status, the
/// time stamp and the file name hold no tab.
pub proof fn lemma_manifest_line_reads_back(input: ExportInput, timestamp: Seq<char>, filename: Seq<char>)
    requires
        !input.status@.contains('\t'),
        !timestamp.contains('\t'),
        !filename.contains('\t'),
    ensures
        line_columns(join_tabs(manifest_fields(input, timestamp, filename))) == Some(
            manifest_fields(input, timestamp, filename),
        ),
{
    let f = manifest_fields(input, timestamp, filename);
    lemma_decimal_has_no_tab(input.job_id as nat);
    lemma_decimal_has_no_tab(input.rule as nat);
    lemma_decimal_has_no_tab(input.width as nat);
    lemma_decimal_has_no_tab(input.generations as nat);
    lemma_decimal_has_no_tab(input.progress as nat);
    lemma_decimal_digits(input.job_id as nat);
    lemma_join_tabs_starts_with_first(f);
    let line = join_tabs(f);
    assert(line[0] == decimal(input.job_id as nat)[0]);
    assert(!is_blank(line));
    assert(!boundary_label(input.boundary).contains('\t')) by {
        reveal_strlit("Padded");
        reveal_strlit("Wrap-around");
        let b = boundary_label(input.boundary);
        if b.contains('\t') {
            let i = choose|i: int| 0 <= i < b.len() && b[i] == '\t';
            match input.boundary {
                BoundaryMode::ZeroPadded => assert(b[i] != '\t'),
                BoundaryMode::Wrap => assert(b[i] != '\t'),
            }
        }
    }
    assert forall|i: int| 0 <= i < f.len() implies !(#[trigger] f[i]).contains('\t') by {
        if i == 0 {
        } else if i == 1 {
        } else if i == 2 {
        } else if i == 3 {
        } else if i == 4 {
        } else if i == 5 {
        } else if i == 6 {
        } else if i == 7 {
        } else {
        }
    }
    lemma_split_join_tabs(f);
    assert(f.take(9) =~= f);
}

/// The columns of a run's manifest line, in header order: id, rule, width,
/// generations, boundary, status, progress, timestamp, filename; each number
/// in decimal.
pub open spec fn run_columns(input: ExportInput, timestamp: Seq<char>, filename: Seq<char>) -> Seq<Seq<char>> {
    seq![
        decimal(input.job_id as nat),
        decimal(input.rule as nat),
        decimal(input.width as nat),
        decimal(input.generations as nat),
        boundary_label(input.boundary),
        input.status@,
        decimal(input.progress as nat),
        timestamp,
        filename,
    ]
}

/// Each field of a manifest line holds what its header column names: read
/// back, the line gives the run's id, rule, width, generations, boundary,
/// status, progress, timestamp and file name in that order, as long as the
/// status, the time stamp and the file name hold no tab.
pub proof fn lemma_manifest_columns(input: ExportInput, timestamp: Seq<char>, filename: Seq<char>)
    requires
        !input.status@.contains('\t'),
        !timestamp.contains('\t'),
        !filename.contains('\t'),
    ensures
        split_tabs(join_tabs(manifest_fields(input, timestamp, filename))) == run_columns(input, timestamp, filename),
        line_columns(join_tabs(manifest_fields(input, timestamp, filename))) == Some(
            run_columns(input, timestamp, filename),
        ),
{
    lemma_manifest_line_reads_back(input, timestamp, filename);
    lemma_decimal_has_no_tab(input.job_id as nat);
    lemma_decimal_has_no_tab(input.rule as nat);
    lemma_decimal_has_no_tab(input.width as nat);
    lemma_decimal_has_no_tab(input.generations as nat);
    lemma_decimal_has_no_tab(input.progress as nat);
    let f = manifest_fields(input, timestamp, filename);
    assert forall|i: int| 0 <= i < f.len() implies !(#[trigger] f[i]).contains('\t') by {
        if i == 4 {
            reveal_strlit("Padded");
            reveal_strlit("Wrap-around");
            let b = boundary_label(input.boundary);
            if b.contains('\t') {
                let j = choose|j: int| 0 <= j < b.len() && b[j] == '\t';
                match input.boundary {
                    BoundaryMode::ZeroPadded => assert(b[j] != '\t'),
                    BoundaryMode::Wrap => assert(b[j] != '\t'),
                }
            }
        }
    }
    lemma_split_join_tabs(f);
    assert(f =~= run_columns(input, timestamp, filename));
}

} // verus!
