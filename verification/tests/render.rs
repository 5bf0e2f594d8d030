use cellular_automata::sim::BoundaryMode;
use cellular_automata::svg::{svg_is_large, to_svg};
use cellular_automata::text::html_escape;
use cellular_automata::{RenderOptions, SimConfig, SimulationResult};

fn result_of(rows: Vec<u8>, width: usize, generations: usize) -> SimulationResult {
    SimulationResult {
        config: SimConfig { rule: 30, width, generations, boundary: BoundaryMode::ZeroPadded },
        width,
        generations,
        rows,
    }
}

fn rule_30_grid() -> Vec<u8> {
    vec![
        0, 0, 0, 1, 0, 0, 0, //
        0, 0, 1, 1, 1, 0, 0, //
        0, 1, 1, 0, 0, 1, 0, //
        1, 1, 0, 1, 1, 1, 1, //
        1, 0, 0, 1, 0, 0, 0,
    ]
}

#[test]
fn svg_coalesces_runs_of_black_cells() {
    let svg = to_svg(&result_of(rule_30_grid(), 7, 4), &RenderOptions { cell_size: 2, show_borders: false });
    let expected = "<?xml version=\"1.0\" encoding=\"UTF-8\"?>\n\
<svg xmlns=\"http://www.w3.org/2000/svg\" width=\"14\" height=\"10\" viewBox=\"0 0 14 10\" shape-rendering=\"crispEdges\">\n\
<rect width=\"14\" height=\"10\" fill=\"#ffffff\"/>\n\
<rect x=\"6\" y=\"0\" width=\"2\" height=\"2\"/>\n\
<rect x=\"4\" y=\"2\" width=\"6\" height=\"2\"/>\n\
<rect x=\"2\" y=\"4\" width=\"4\" height=\"2\"/>\n\
<rect x=\"10\" y=\"4\" width=\"2\" height=\"2\"/>\n\
<rect x=\"0\" y=\"6\" width=\"4\" height=\"2\"/>\n\
<rect x=\"6\" y=\"6\" width=\"8\" height=\"2\"/>\n\
<rect x=\"0\" y=\"8\" width=\"2\" height=\"2\"/>\n\
<rect x=\"6\" y=\"8\" width=\"2\" height=\"2\"/>\n\
</svg>\n";
    assert_eq!(svg, expected);
}

#[test]
fn svg_with_borders_draws_every_cell_inset() {
    let svg = to_svg(&result_of(vec![1, 0, 1, 1], 2, 1), &RenderOptions { cell_size: 3, show_borders: true });
    let expected = "<?xml version=\"1.0\" encoding=\"UTF-8\"?>\n\
<svg xmlns=\"http://www.w3.org/2000/svg\" width=\"6\" height=\"6\" viewBox=\"0 0 6 6\" shape-rendering=\"crispEdges\">\n\
<rect width=\"6\" height=\"6\" fill=\"#4d4d4d\"/>\n\
<rect x=\"1\" y=\"1\" width=\"2\" height=\"2\" fill=\"#000000\"/>\n\
<rect x=\"4\" y=\"1\" width=\"2\" height=\"2\" fill=\"#ffffff\"/>\n\
<rect x=\"1\" y=\"4\" width=\"2\" height=\"2\" fill=\"#000000\"/>\n\
<rect x=\"4\" y=\"4\" width=\"2\" height=\"2\" fill=\"#000000\"/>\n\
</svg>\n";
    assert_eq!(svg, expected);
}

#[test]
fn svg_ignores_borders_at_cell_size_one_and_treats_zero_as_one() {
    let with = to_svg(&result_of(vec![1, 1, 0], 3, 0), &RenderOptions { cell_size: 1, show_borders: true });
    let zero = to_svg(&result_of(vec![1, 1, 0], 3, 0), &RenderOptions { cell_size: 0, show_borders: true });
    let expected = "<?xml version=\"1.0\" encoding=\"UTF-8\"?>\n\
<svg xmlns=\"http://www.w3.org/2000/svg\" width=\"3\" height=\"1\" viewBox=\"0 0 3 1\" shape-rendering=\"crispEdges\">\n\
<rect width=\"3\" height=\"1\" fill=\"#ffffff\"/>\n\
<rect x=\"0\" y=\"0\" width=\"2\" height=\"1\"/>\n\
</svg>\n";
    assert_eq!(with, expected);
    assert_eq!(zero, expected);
}

#[test]
fn svg_of_an_empty_grid_is_just_the_background() {
    let svg = to_svg(&result_of(vec![], 0, 0), &RenderOptions { cell_size: 4, show_borders: false });
    let expected = "<?xml version=\"1.0\" encoding=\"UTF-8\"?>\n\
<svg xmlns=\"http://www.w3.org/2000/svg\" width=\"0\" height=\"0\" viewBox=\"0 0 0 0\" shape-rendering=\"crispEdges\">\n\
<rect width=\"0\" height=\"0\" fill=\"#ffffff\"/>\n\
</svg>\n";
    assert_eq!(svg, expected);
}

#[test]
fn svg_size_warning_threshold() {
    assert!(!svg_is_large(&result_of(vec![0; 10], 5, 1)));
    let big = SimulationResult {
        config: SimConfig { rule: 30, width: 10_000, generations: 5_000, boundary: BoundaryMode::Wrap },
        width: 10_000,
        generations: 5_000,
        rows: vec![0; 10_000 * 5_001],
    };
    assert!(svg_is_large(&big));
}

#[test]
fn html_escape_replaces_markup_characters() {
    assert_eq!(html_escape("a<b>&\"c'"), "a&lt;b&gt;&amp;&quot;c&#39;");
    assert_eq!(html_escape("plain text é"), "plain text é");
    assert_eq!(html_escape(""), "");
}
