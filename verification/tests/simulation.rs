use cellular_automata::sim::{BoundaryMode, PaddingAlign, PaddingFill};
use cellular_automata::{simulate, InitialRow, SimConfig, SimError};

fn config(rule: u8, width: usize, generations: usize, boundary: BoundaryMode) -> SimConfig {
    SimConfig { rule, width, generations, boundary }
}

#[test]
fn simulate_rule_30_from_a_centered_seed() {
    let initial = InitialRow::FromSeed { seed: vec![1], align: PaddingAlign::Center, fill: PaddingFill::Zero };
    let result = simulate(config(30, 7, 4, BoundaryMode::ZeroPadded), initial).unwrap();
    assert_eq!(result.width, 7);
    assert_eq!(result.generations, 4);
    assert_eq!(result.config.rule, 30);
    assert_eq!(
        result.rows,
        vec![
            0, 0, 0, 1, 0, 0, 0, //
            0, 0, 1, 1, 1, 0, 0, //
            0, 1, 1, 0, 0, 1, 0, //
            1, 1, 0, 1, 1, 1, 1, //
            1, 0, 0, 1, 0, 0, 0,
        ]
    );
}

#[test]
fn simulate_grid_shape_and_values() {
    let initial = InitialRow::Explicit(vec![1, 0, 0, 1, 1, 0, 1, 0, 0, 0, 1]);
    let result = simulate(config(110, 11, 20, BoundaryMode::Wrap), initial).unwrap();
    assert_eq!(result.rows.len(), 21 * 11);
    assert!(result.rows.iter().all(|&c| c <= 1));
    assert_eq!(&result.rows[..11], &[1, 0, 0, 1, 1, 0, 1, 0, 0, 0, 1]);
}

#[test]
fn simulate_with_zero_generations_keeps_only_the_initial_row() {
    let initial = InitialRow::Explicit(vec![0, 1, 1]);
    let result = simulate(config(30, 3, 0, BoundaryMode::Wrap), initial).unwrap();
    assert_eq!(result.rows, vec![0, 1, 1]);
}

#[test]
fn simulate_refuses_width_zero() {
    let initial = InitialRow::Explicit(vec![]);
    assert_eq!(simulate(config(30, 0, 3, BoundaryMode::Wrap), initial).unwrap_err(), SimError::WidthZero);
}

#[test]
fn simulate_refuses_explicit_row_of_wrong_length() {
    let initial = InitialRow::Explicit(vec![0, 1]);
    assert_eq!(
        simulate(config(30, 3, 3, BoundaryMode::Wrap), initial).unwrap_err(),
        SimError::InitialRowLengthMismatch { expected: 3, got: 2 }
    );
}

#[test]
fn simulate_refuses_non_binary_cells() {
    let initial = InitialRow::Explicit(vec![0, 1, 2, 5]);
    assert_eq!(
        simulate(config(30, 4, 3, BoundaryMode::Wrap), initial).unwrap_err(),
        SimError::NonBinaryCellValue { position: 2, value: 2 }
    );
}

#[test]
fn simulate_refuses_seed_wider_than_width() {
    let initial = InitialRow::FromSeed { seed: vec![1, 1, 1, 1], align: PaddingAlign::After, fill: PaddingFill::Zero };
    assert_eq!(
        simulate(config(30, 3, 3, BoundaryMode::Wrap), initial).unwrap_err(),
        SimError::SeedWiderThanWidth { width: 3, seed_len: 4 }
    );
}
