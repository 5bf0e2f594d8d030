use cellular_automata::export::{
    manifest_line, pack_bits_range, render_run_html, run_filename, ExportInput, MANIFEST_FILE, INDEX_FILE,
};
use cellular_automata::gallery::{entries_from_lines, entry_from_line, render_index_html, split_tab_fields, ManifestEntry};
use cellular_automata::sim::BoundaryMode;
use cellular_automata::templates::MANIFEST_HEADER;

fn rule_30_grid() -> Vec<u8> {
    vec![
        0, 0, 0, 1, 0, 0, 0, //
        0, 0, 1, 1, 1, 0, 0, //
        0, 1, 1, 0, 0, 1, 0, //
        1, 1, 0, 1, 1, 1, 1, //
        1, 0, 0, 1, 0, 0, 0,
    ]
}

fn input<'a>(rows: &'a [u8], width: usize, status: &'a str) -> ExportInput<'a> {
    ExportInput {
        job_id: 3,
        rule: 7,
        width,
        generations: 4,
        progress: 4,
        boundary: BoundaryMode::Wrap,
        status,
        rows,
        cell_size: 4,
        show_borders: true,
    }
}

#[test]
fn pack_bits_is_most_significant_bit_first() {
    let grid = rule_30_grid();
    assert_eq!(pack_bits_range(&grid, 7, 0, 5), vec![16, 113, 150, 249, 0]);
    // Rows 1..3 of a 5-wide grid; the end is clamped to the rows there are.
    assert_eq!(pack_bits_range(&[1, 0, 1, 1, 0, 1, 1, 1, 1, 0], 5, 1, 3), vec![240]);
    assert_eq!(pack_bits_range(&[1, 1, 1, 1, 1, 1, 1, 1, 1], 3, 1, 2), vec![224]);
    // Only the low bit of a cell counts.
    assert_eq!(pack_bits_range(&[3, 2, 1], 3, 0, 1), vec![160]);
}

#[test]
fn pack_bits_of_nothing_is_empty() {
    assert!(pack_bits_range(&[1, 1], 0, 0, 1).is_empty());
    assert!(pack_bits_range(&[1, 1], 1, 1, 1).is_empty());
    assert!(pack_bits_range(&[1, 1], 1, 2, 5).is_empty());
}

#[test]
fn run_page_embeds_the_packed_cells() {
    let grid = rule_30_grid();
    let page = render_run_html(&input(&grid, 7, "Done"), "2024-01-01 12:00:00");
    assert!(page.starts_with("<!doctype html><html lang=\"en\"><head>\n<meta charset=\"utf-8\">\n<title>Rule 7 - 7x5 - job 3</title>\n"));
    assert!(page.contains("<h1>Rule 7 - 7x5 - job 3</h1>\n<dl>\n<dt>job id</dt><dd>3</dd>\n<dt>rule</dt><dd>7</dd>\n"));
    assert!(page.contains("<dt>generations</dt><dd>4 / 4</dd>\n<dt>boundary</dt><dd>Wrap-around</dd>\n"));
    assert!(page.contains("<dt>status</dt><dd>Done</dd>\n<dt>exported</dt><dd>2024-01-01 12:00:00</dd>\n"));
    assert!(page.contains("<dt>preview</dt><dd>full fidelity (single canvas)</dd>\n"));
    assert!(page.contains(
        "<script id=\"meta\" type=\"application/json\">{\"w\":7,\"h\":5,\"tiles\":[{\"id\":\"bits0\",\"start\":0,\"end\":5}]}</script>\n"
    ));
    assert!(page.contains("<script id=\"bits0\" type=\"application/octet-stream\">EHGW+QA=</script>\n"));
    assert!(page.ends_with("</script>\n</body></html>\n"));
    assert!(page.contains(
        "</dd>\n</dl>\n<div class=\"controls\">\n<label>Cell size <input id=\"cs-range\" type=\"range\" min=\"1\" max=\"16\" value=\"4\"></label>\n\
<input id=\"cs-num\" type=\"number\" min=\"1\" max=\"64\" value=\"4\">\n\
<label><input id=\"borders\" type=\"checkbox\" checked> Borders</label>\n</div>\n<div id=\"tiles\"></div>\n"
    ));
    assert!(page.contains("ctx.fillRect(x * cs + 1, y * cs + 1, cs - 1, cs - 1);"));
}

#[test]
fn run_page_controls_are_seeded_from_the_render_options() {
    let grid = rule_30_grid();
    let mut small = input(&grid, 7, "Done");
    small.cell_size = 0;
    small.show_borders = false;
    let page = render_run_html(&small, "now");
    assert!(page.contains("type=\"range\" min=\"1\" max=\"16\" value=\"1\">"));
    assert!(page.contains("type=\"number\" min=\"1\" max=\"64\" value=\"1\">"));
    assert!(page.contains("<input id=\"borders\" type=\"checkbox\"> Borders</label>"));
    let mut big = input(&grid, 7, "Done");
    big.cell_size = 100;
    let page = render_run_html(&big, "now");
    assert!(page.contains("type=\"number\" min=\"1\" max=\"64\" value=\"64\">"));
}

#[test]
fn run_page_splits_tall_runs_into_tiles() {
    let grid = vec![1u8; 32_001];
    let page = render_run_html(&input(&grid, 1, "Done"), "now");
    assert!(page.contains("<dt>preview</dt><dd>full fidelity: 2 tiles (32000 rows each, last shorter)</dd>\n"));
    assert!(page.contains(
        "{\"w\":1,\"h\":32001,\"tiles\":[{\"id\":\"bits0\",\"start\":0,\"end\":32000},{\"id\":\"bits1\",\"start\":32000,\"end\":32001}]}"
    ));
    assert!(page.contains("<script id=\"bits1\" type=\"application/octet-stream\">gA==</script>\n"));
}

#[test]
fn run_page_of_an_empty_grid() {
    let page = render_run_html(&input(&[], 0, "Cancelled"), "now");
    assert!(page.contains("<title>Rule 7 - 0x0 - job 3</title>"));
    assert!(page.contains("{\"w\":1,\"h\":1,\"tiles\":[]}</script>\n<script>\n"));
}

#[test]
fn run_title_is_escaped_but_status_is_not() {
    let grid = [1u8];
    let page = render_run_html(&input(&grid, 1, "<b>"), "x");
    assert!(page.contains("<dt>status</dt><dd><b></dd>"));
}

#[test]
fn file_name_pads_the_rule_number() {
    let grid = rule_30_grid();
    assert_eq!(
        run_filename(&input(&grid, 7, "Done"), "20240101_120000"),
        "rule007_w7_g4_wr_20240101_120000_job3.html"
    );
    let mut wide = input(&grid, 7, "Done");
    wide.rule = 30;
    wide.boundary = BoundaryMode::ZeroPadded;
    assert_eq!(run_filename(&wide, "T"), "rule030_w7_g4_zp_T_job3.html");
    wide.rule = 255;
    assert_eq!(run_filename(&wide, "T"), "rule255_w7_g4_zp_T_job3.html");
}

#[test]
fn manifest_line_and_header() {
    let grid = rule_30_grid();
    let line = manifest_line(&input(&grid, 7, "Done"), "2024-01-01 12:00:00", "a.html");
    assert_eq!(line, "3\t7\t7\t4\tWrap-around\tDone\t4\t2024-01-01 12:00:00\ta.html\n");
    assert_eq!(MANIFEST_HEADER, "id\trule\twidth\tgenerations\tboundary\tstatus\tprogress\ttimestamp\tfilename\n");
    assert_eq!(MANIFEST_FILE, "manifest.tsv");
    assert_eq!(INDEX_FILE, "index.html");
}

#[test]
fn manifest_line_reads_back() {
    let grid = rule_30_grid();
    let line = manifest_line(&input(&grid, 7, "Done"), "2024-01-01 12:00:00", "a.html");
    let entry = entry_from_line(line.trim_end_matches('\n')).unwrap();
    assert_eq!(entry.id, "3");
    assert_eq!(entry.rule, "7");
    assert_eq!(entry.width, "7");
    assert_eq!(entry.generations, "4");
    assert_eq!(entry.boundary, "Wrap-around");
    assert_eq!(entry.status, "Done");
    assert_eq!(entry.progress, "4");
    assert_eq!(entry.timestamp, "2024-01-01 12:00:00");
    assert_eq!(entry.filename, "a.html");
}

#[test]
fn split_keeps_empty_fields() {
    assert_eq!(split_tab_fields("a\t\tb\t"), vec!["a", "", "b", ""]);
    assert_eq!(split_tab_fields(""), vec![""]);
}

#[test]
fn manifest_entries_skip_header_blank_and_short_lines() {
    let lines: Vec<String> = vec![
        "1\t2\t3\t4\t5\t6\t7\t8\t9".to_string(),
        "1\t30\t7\t4\tPadded\tDone\t4\tT\tf.html".to_string(),
        "".to_string(),
        " \t\t\t\t\t\t\t\t ".to_string(),
        "a\tb".to_string(),
        "2\t90\t9\t1\tWrap-around\tRunning\t0\tT2\tg.html\textra".to_string(),
    ];
    let entries = entries_from_lines(&lines);
    assert_eq!(entries.len(), 2);
    assert_eq!(entries[0].rule, "30");
    assert_eq!(entries[1].id, "2");
    assert_eq!(entries[1].filename, "g.html");
    assert!(entries_from_lines(&[]).is_empty());
}

fn entry(id: &str, file: &str) -> ManifestEntry {
    ManifestEntry {
        id: id.to_string(),
        rule: "30".to_string(),
        width: "7".to_string(),
        generations: "4".to_string(),
        boundary: "Padded".to_string(),
        status: "Done".to_string(),
        progress: "4".to_string(),
        timestamp: "T".to_string(),
        filename: file.to_string(),
    }
}

#[test]
fn index_lists_runs_newest_first() {
    let page = render_index_html(&[entry("1", "first.html"), entry("2", "a<b.html")]);
    assert!(page.contains("<div class=\"meta\">2 saved run(s)."));
    let row2 = "<tr data-filename=\"a&lt;b.html\"><td>2</td><td>30</td><td>7</td><td>4/4</td><td>Padded</td><td>Done</td><td>T</td><td><a href=\"a&lt;b.html\">open</a> | <button data-move>Move</button></td></tr>\n";
    let row1 = "<tr data-filename=\"first.html\"><td>1</td>";
    let p2 = page.find(row2).unwrap();
    let p1 = page.find(row1).unwrap();
    assert!(p2 < p1);
    assert!(page.contains("<table id=\"runs\">\n<thead>"));
    assert!(page.contains("<div class=\"empty\">No runs exported yet.</div>\n<script>") == false);
    assert!(page.contains("fetch('manifest.tsv', {cache: 'no-store'})"));
    assert!(page.contains("if (await stillThere(f[8])) live.push(f);"));
}

#[test]
fn index_without_runs() {
    let page = render_index_html(&[]);
    assert!(page.contains("<div class=\"meta\">0 saved run(s)."));
    assert!(page.contains("<div class=\"empty\">No runs exported yet.</div>\n<script>"));
    assert!(!page.contains("<table id=\"runs\">\n"));
}

#[test]
fn unicode_white_space_lines_are_blank() {
    let lines: Vec<String> = vec![
        "header".to_string(),
        "\u{3000}\t\u{a0}\t\t\t\t\t\t\t\u{2009}".to_string(),
        "x\t\t\t\t\t\t\t\t".to_string(),
    ];
    let entries = entries_from_lines(&lines);
    assert_eq!(entries.len(), 1);
    assert_eq!(entries[0].id, "x");
    assert_eq!(entries[0].filename, "");
}
