//! Elementary one-dimensional cellular automata: simulation and rendering.
//!
//! A row of `0`/`1` cells is stepped by an 8-bit Wolfram rule; the rows are
//! stacked into a flat row-major grid ([`SimulationResult`]) that the
//! renderers turn into SVG or into the HTML gallery page.
use vstd::prelude::*;

pub mod sim;
pub mod text;
pub mod svg;
pub mod templates;
pub mod export;
pub mod gallery;

use crate::sim::{
    check_explicit_row, generation, initial_row, is_binary, padded_seed_layout, make_initial_row, rule_table, step_row_into,
    BoundaryMode, ExplicitRowError, PaddingAlign, PaddingFill, Rule, fill_value,
};

verus! {

/// The simulation parameters.
#[derive(Debug, Clone, Copy, PartialEq, Eq)]
pub struct SimConfig {
    /// The Wolfram rule number.
    pub rule: u8,
    /// Cells per row; must be at least 1.
    pub width: usize,
    /// How many rows to compute after the initial row.
    pub generations: usize,
    pub boundary: BoundaryMode,
}

/// The two ways to give the first row.
#[derive(Debug, Clone)]
pub enum InitialRow {
    /// The whole row; its length must equal the width and every cell must be
    /// `0` or `1`.
    Explicit(Vec<u8>),
    /// A short pattern padded out to the width.
    FromSeed { seed: Vec<u8>, align: PaddingAlign, fill: PaddingFill },
}

/// How a result is drawn.
#[derive(Debug, Clone, Copy, PartialEq, Eq)]
pub struct RenderOptions {
    /// Size of each cell in pixels.
    pub cell_size: u32,
    /// Whether a grid is drawn between cells (only when `cell_size > 1`).
    pub show_borders: bool,
}

/// A finished simulation.
#[derive(Debug, Clone)]
pub struct SimulationResult {
    pub config: SimConfig,
    pub width: usize,
    pub generations: usize,
    /// Flat row-major grid: cell (y, x) lives at `rows[y * width + x]`.
    pub rows: Vec<u8>,
}

/// Why a simulation was refused.
#[derive(Debug, Clone, Copy, PartialEq, Eq)]
pub enum SimError {
    /// The configured width is 0.
    WidthZero,
    /// An explicit initial row does not have `width` cells.
    InitialRowLengthMismatch { expected: usize, got: usize },
    /// The seed is longer than the row.
    SeedWiderThanWidth { width: usize, seed_len: usize },
    /// A cell of an explicit initial row is not `0` or `1`.
    NonBinaryCellValue { position: usize, value: u8 },
}

/// Index of the first cell of `row` that is not `0` or `1`.
pub open spec fn first_non_binary(row: Seq<u8>) -> int {
    choose|p: int| 0 <= p < row.len() && row[p] > 1 && forall|j: int| 0 <= j < p ==> #[trigger] row[j] <= 1
}

/// The initial row that a configuration and an initial-row choice give, or
/// the error that refuses them.
pub open spec fn start_row(width: usize, initial: InitialRow) -> Result<Seq<u8>, SimError> {
    if width == 0 {
        Err(SimError::WidthZero)
    } else {
        match initial {
            InitialRow::Explicit(v) => if v@.len() != width {
                Err(SimError::InitialRowLengthMismatch { expected: width, got: v@.len() as usize })
            } else if !is_binary(v@) {
                let p = first_non_binary(v@);
                Err(SimError::NonBinaryCellValue { position: p as usize, value: v@[p] })
            } else {
                Ok(v@)
            },
            InitialRow::FromSeed { seed, align, fill } => if seed@.len() > width {
                Err(SimError::SeedWiderThanWidth { width, seed_len: seed@.len() as usize })
            } else {
                Ok(initial_row(width as nat, seed@, align, fill_value(fill)))
            },
        }
    }
}

/// Rows `0` to `n` of a simulation, laid end to end.
pub open spec fn stacked_generations(table: Seq<u8>, row0: Seq<u8>, boundary: BoundaryMode, n: nat) -> Seq<u8>
    decreases n,
{
    if n == 0 {
        row0
    } else {
        stacked_generations(table, row0, boundary, (n - 1) as nat) + generation(table, row0, boundary, n)
    }
}

/// Row `y` of a flat row-major grid of rows `width` cells wide.
pub open spec fn grid_row(rows: Seq<u8>, width: int, y: int) -> Seq<u8> {
    rows.subrange(y * width, (y + 1) * width)
}

/// The rows laid end to end have `(n + 1) * width` cells, and cell `x` of row
/// `y` sits at index `y * width + x`.
pub proof fn lemma_stacked_layout(table: Seq<u8>, row0: Seq<u8>, boundary: BoundaryMode, n: nat)
    ensures
        stacked_generations(table, row0, boundary, n).len() == (n + 1) * row0.len(),
        forall|y: int, x: int|
            0 <= y <= n && 0 <= x < row0.len() ==> #[trigger] stacked_generations(table, row0, boundary, n)[y * row0.len() + x]
                == generation(table, row0, boundary, y as nat)[x],
    decreases n,
{
    let w = row0.len() as int;
    sim::lemma_generation_shape(table, row0, boundary, n);
    if n > 0 {
        lemma_stacked_layout(table, row0, boundary, (n - 1) as nat);
        let prev = stacked_generations(table, row0, boundary, (n - 1) as nat);
        let s = stacked_generations(table, row0, boundary, n);
        assert(prev.len() == n * w) by (nonlinear_arith)
            requires prev.len() == ((n - 1) + 1) * w;
        assert((n + 1) * w == n * w + w) by (nonlinear_arith);
        assert(s.len() == prev.len() + generation(table, row0, boundary, n).len());
        assert forall|y: int, x: int| 0 <= y <= n && 0 <= x < w implies #[trigger] s[y * w + x]
            == generation(table, row0, boundary, y as nat)[x] by {
            if y < n {
                assert(y * w + x < n * w) by (nonlinear_arith)
                    requires y < n, x < w, 0 <= x;
                assert(y <= n - 1);
            } else {
                assert(y * w == n * w);
            }
        }
    } else {
        assert((n + 1) * w == w) by (nonlinear_arith) requires n == 0;
    }
}

/// A simulation of `config` from `row0`: the configuration, its width and
/// generation count, and rows `0` to `generations` laid end to end.
pub open spec fn simulation_of(config: SimConfig, row0: Seq<u8>) -> (SimConfig, usize, usize, Seq<u8>) {
    (config, config.width, config.generations, stacked_generations(rule_table(config.rule), row0, config.boundary, config.generations as nat))
}

/// A simulation from a seed starts from the seed padded with the requested
/// fill: when the seed fits, the initial row is accepted, and every cell
/// outside the seed window is the fill's value (`1` for `PaddingFill::One`).
pub proof fn lemma_seed_start_row(width: usize, seed: Seq<u8>, align: PaddingAlign, fill: PaddingFill, seed_vec: Vec<u8>)
    requires
        width > 0,
        seed_vec@ == seed,
        seed.len() <= width,
    ensures
        start_row(width, InitialRow::FromSeed { seed: seed_vec, align, fill }) is Ok,
        padded_seed_layout(
            start_row(width, InitialRow::FromSeed { seed: seed_vec, align, fill })->Ok_0,
            width as nat,
            seed,
            align,
            fill_value(fill),
        ),
        fill_value(PaddingFill::One) == 1,
        fill_value(PaddingFill::Zero) == 0,
{
    sim::lemma_initial_row_layout(width as nat, seed, align, fill_value(fill));
}

/// Validate the inputs, build the initial row and run the simulation into a
/// flat row-major grid of `generations + 1` rows. The grid buffer is filled
/// row by row with the in-place stepper; nothing is allocated per row.
pub fn simulate(config: SimConfig, initial: InitialRow) -> (r: Result<SimulationResult, SimError>)
    ensures
        match start_row(config.width, initial) {
            Err(e) => r == Err::<SimulationResult, SimError>(e),
            Ok(row0) => r matches Ok(res) && (res.config, res.width, res.generations, res.rows@) == simulation_of(config, row0),
        },
        r matches Ok(res) ==> res.rows@.len() >= config.width,
        initial matches InitialRow::FromSeed { seed, align, fill } ==> (r is Ok ==> padded_seed_layout(
            r->Ok_0.rows@.subrange(0, config.width as int),
            config.width as nat,
            seed@,
            align,
            fill_value(fill),
        )),
{
    let ghost initial_copy = initial;
    let width = config.width;
    if width == 0 {
        return Err(SimError::WidthZero);
    }
    let row0 = match initial {
        InitialRow::Explicit(v) => {
            match check_explicit_row(width, v.as_slice()) {
                Err(ExplicitRowError::LengthMismatch { expected, got }) => {
                    return Err(SimError::InitialRowLengthMismatch { expected, got });
                },
                Err(ExplicitRowError::NonBinary { position, value }) => {
                    let ghost p = first_non_binary(v@);
                    proof {
                        let q = position as int;
                        assert(0 <= q < v@.len() && v@[q] > 1 && forall|j: int| 0 <= j < q ==> #[trigger] v@[j] <= 1);
                        if p < q {
                            assert(v@[p] <= 1);
                        } else if q < p {
                            assert(v@[q] <= 1);
                        }
                    }
                    return Err(SimError::NonBinaryCellValue { position, value });
                },
                Ok(()) => v,
            }
        },
        InitialRow::FromSeed { seed, align, fill } => {
            if seed.len() > width {
                return Err(SimError::SeedWiderThanWidth { width, seed_len: seed.len() });
            }
            make_initial_row(width, seed.as_slice(), align, fill.value())
        },
    };
    let ghost row0_view = row0@;
    assert(start_row(config.width, initial) == Ok::<Seq<u8>, SimError>(row0_view));
    let rule = Rule::new(config.rule);
    let mut rows: Vec<u8> = Vec::new();
    rows.extend_from_slice(row0.as_slice());
    let mut prev = row0;
    let mut next = vec![0u8; width];
    let generations = config.generations;
    assert(rows@ =~= stacked_generations(rule_table(config.rule), row0_view, config.boundary, 0));
    for g in 0..generations
        invariant
            rule.rule_number() == config.rule,
            row0_view.len() == width,
            prev@ == generation(rule_table(config.rule), row0_view, config.boundary, g as nat),
            next@.len() == width,
            rows@ == stacked_generations(rule_table(config.rule), row0_view, config.boundary, g as nat),
    {
        proof {
            sim::lemma_generation_shape(rule_table(config.rule), row0_view, config.boundary, g as nat);
        }
        step_row_into(&rule, prev.as_slice(), next.as_mut_slice(), config.boundary, 0);
        rows.extend_from_slice(next.as_slice());
        assert(rows@ =~= stacked_generations(rule_table(config.rule), row0_view, config.boundary, (g + 1) as nat));
        let tmp = prev;
        prev = next;
        next = tmp;
    }
    proof {
        lemma_stacked_layout(rule_table(config.rule), row0_view, config.boundary, generations as nat);
        let w = width as int;
        assert((generations + 1) * w >= w) by (nonlinear_arith)
            requires w >= 0;
        assert(rows@.subrange(0, w) =~= row0_view) by {
            assert forall|x: int| 0 <= x < w implies rows@[x] == row0_view[x] by {
                assert(rows@[0 * w + x] == generation(rule_table(config.rule), row0_view, config.boundary, 0)[x]);
                assert(0 * w + x == x);
            }
        }
        match initial_copy {
            InitialRow::FromSeed { seed, align, fill } => {
                sim::lemma_initial_row_layout(width as nat, seed@, align, fill_value(fill));
            },
            _ => {},
        }
    }
    Ok(SimulationResult { config, width, generations, rows })
}

/// What a successful simulation promises: the initial row has `width`
/// binary cells; the grid has exactly `(generations + 1) * width` cells, all
/// `0` or `1`; cell `(y, x)` sits at `y * width + x`; row 0 is the initial
/// row and each further row is the rule applied to the row before it.
pub proof fn lemma_simulation_result(config: SimConfig, initial: InitialRow)
    requires
        start_row(config.width, initial) is Ok,
    ensures
        ({
            let row0 = start_row(config.width, initial)->Ok_0;
            let rows = simulation_of(config, row0).3;
            let w = config.width as int;
            let g = config.generations as int;
            &&& row0.len() == w
            &&& is_binary(row0)
            &&& rows.len() == (g + 1) * w
            &&& is_binary(rows)
            &&& forall|y: int, x: int| 0 <= y <= g && 0 <= x < w ==> #[trigger] rows[y * w + x]
                == generation(rule_table(config.rule), row0, config.boundary, y as nat)[x]
            &&& generation(rule_table(config.rule), row0, config.boundary, 0) == row0
            &&& forall|y: nat| #[trigger] generation(rule_table(config.rule), row0, config.boundary, y + 1) == sim::step(
                rule_table(config.rule),
                generation(rule_table(config.rule), row0, config.boundary, y),
                config.boundary,
                0,
            )
        }),
{
    let row0 = start_row(config.width, initial)->Ok_0;
    let w = config.width as int;
    let g = config.generations as nat;
    match initial {
        InitialRow::Explicit(v) => {},
        InitialRow::FromSeed { seed, align, fill } => {
            let r = initial_row(config.width as nat, seed@, align, fill_value(fill));
            assert forall|i: int| 0 <= i < r.len() implies #[trigger] r[i] <= 1 by {}
        },
    }
    sim::lemma_rule_table_binary(config.rule);
    lemma_stacked_layout(rule_table(config.rule), row0, config.boundary, g);
    let rows = stacked_generations(rule_table(config.rule), row0, config.boundary, g);
    assert forall|i: int| 0 <= i < rows.len() implies #[trigger] rows[i] <= 1 by {
        let y = i / w;
        let x = i % w;
        assert(i == y * w + x && 0 <= y <= g && 0 <= x < w) by (nonlinear_arith)
            requires 0 <= i < (g + 1) * w, w > 0, y == i / w, x == i % w;
        sim::lemma_generation_shape(rule_table(config.rule), row0, config.boundary, y as nat);
        if y > 0 {
            assert(generation(rule_table(config.rule), row0, config.boundary, y as nat)[x] <= 1);
        }
    }
}

} // verus!
