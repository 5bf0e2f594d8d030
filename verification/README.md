# cellular_automata

Elementary one-dimensional cellular automata, verified with Verus.

- `src/sim.rs` — rules, the row stepper, initial rows, the owning runner.
- `src/lib.rs` — the configuration types and `simulate`, which validates
  the inputs and produces the flat row-major grid.
- `src/svg.rs` — SVG rendering with horizontal run-length encoding.
- `src/export.rs`, `src/gallery.rs`, `src/templates.rs` — the HTML export:
  bit-packed tiles, run pages, the manifest and the index page.
- `src/text.rs` — decimal numbers and HTML escaping.
- `app/` — the binary and the I/O around the library: `run`, JSON through
  serde, and writing the export files.
