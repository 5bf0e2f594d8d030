use cellular_automata::sim::{
    check_explicit_row, make_initial_row, step_row, step_row_into, BoundaryMode, CellularAutomaton,
    ExplicitRowError, PaddingAlign, PaddingFill, Rule,
};

#[test]
fn rule_30_table() {
    let r = Rule::new(30);
    assert_eq!(r.apply(1, 1, 1), 0);
    assert_eq!(r.apply(1, 1, 0), 0);
    assert_eq!(r.apply(1, 0, 1), 0);
    assert_eq!(r.apply(1, 0, 0), 1);
    assert_eq!(r.apply(0, 1, 1), 1);
    assert_eq!(r.apply(0, 1, 0), 1);
    assert_eq!(r.apply(0, 0, 1), 1);
    assert_eq!(r.apply(0, 0, 0), 0);
}

#[test]
fn rows_have_fixed_width() {
    let mut ca = CellularAutomaton::new(
        Rule::new(30),
        21,
        5,
        {
            let mut v = vec![0u8; 21];
            v[10] = 1;
            v
        },
        BoundaryMode::ZeroPadded,
    );
    ca.run();
    assert_eq!(ca.rows().len(), 6);
    for row in ca.rows() {
        assert_eq!(row.len(), 21);
    }
}

#[test]
fn check_explicit_row_accepts_binary_with_matching_length() {
    assert!(check_explicit_row(4, &[0, 1, 1, 0]).is_ok());
}

#[test]
fn check_explicit_row_rejects_length_mismatch() {
    let err = check_explicit_row(4, &[0, 1, 1]).unwrap_err();
    assert!(matches!(err, ExplicitRowError::LengthMismatch { expected: 4, got: 3 }));
}

#[test]
fn check_explicit_row_rejects_non_binary() {
    let err = check_explicit_row(3, &[0, 2, 1]).unwrap_err();
    assert!(matches!(err, ExplicitRowError::NonBinary { position: 1, value: 2 }));
}

#[test]
fn check_explicit_row_reports_first_non_binary_cell() {
    let err = check_explicit_row(5, &[0, 1, 7, 3, 1]).unwrap_err();
    assert_eq!(err, ExplicitRowError::NonBinary { position: 2, value: 7 });
}

#[test]
fn rule_table_holds_the_bits_of_the_number() {
    assert_eq!(Rule::new(30).table(), &[0, 1, 1, 1, 1, 0, 0, 0]);
    assert_eq!(Rule::new(110).table(), &[0, 1, 1, 1, 0, 1, 1, 0]);
    assert_eq!(Rule::new(0).table(), &[0; 8]);
    assert_eq!(Rule::new(255).table(), &[1; 8]);
}

#[test]
fn apply_reads_only_the_low_bit() {
    let r = Rule::new(30);
    assert_eq!(r.apply(3, 2, 4), r.apply(1, 0, 0));
}

#[test]
fn rule_30_zero_padded_matches_the_guide() {
    let rule = Rule::new(30);
    let mut row = vec![0u8, 0, 0, 1, 0, 0, 0];
    let expected = [
        [0u8, 0, 1, 1, 1, 0, 0],
        [0, 1, 1, 0, 0, 1, 0],
        [1, 1, 0, 1, 1, 1, 1],
        [1, 0, 0, 1, 0, 0, 0],
    ];
    for want in expected.iter() {
        row = step_row(&rule, &row, BoundaryMode::ZeroPadded, 0);
        assert_eq!(&row[..], &want[..]);
    }
}

#[test]
fn wrap_boundary_glues_the_edges() {
    let rule = Rule::new(30);
    // A cell at the right edge spreads onto the left edge.
    let next = step_row(&rule, &[0, 0, 0, 0, 1], BoundaryMode::Wrap, 0);
    assert_eq!(next, vec![1, 0, 0, 1, 1]);
    let padded = step_row(&rule, &[0, 0, 0, 0, 1], BoundaryMode::ZeroPadded, 0);
    assert_eq!(padded, vec![0, 0, 0, 1, 1]);
}

#[test]
fn single_cell_rows() {
    let rule = Rule::new(30);
    // Wrap: the cell is its own neighbour on both sides: (1,1,1) -> 0.
    assert_eq!(step_row(&rule, &[1], BoundaryMode::Wrap, 0), vec![0]);
    // Padded with 0: (0,1,0) -> 1.
    assert_eq!(step_row(&rule, &[1], BoundaryMode::ZeroPadded, 0), vec![1]);
    // Padded with fill 1: (1,0,1) -> 0, and only the low bit of the fill counts.
    assert_eq!(step_row(&rule, &[0], BoundaryMode::ZeroPadded, 3), vec![0]);
    assert_eq!(step_row(&rule, &[], BoundaryMode::Wrap, 0), Vec::<u8>::new());
}

#[test]
fn step_row_into_writes_the_next_row() {
    let rule = Rule::new(90);
    let prev = [0u8, 0, 1, 0, 0];
    let mut next = [9u8; 5];
    step_row_into(&rule, &prev, &mut next, BoundaryMode::ZeroPadded, 0);
    assert_eq!(next, [0, 1, 0, 1, 0]);
}

#[test]
fn rule_0_clears_and_rule_255_fills() {
    let row = [1u8, 0, 1, 1, 0, 1];
    assert_eq!(step_row(&Rule::new(0), &row, BoundaryMode::Wrap, 0), vec![0; 6]);
    assert_eq!(step_row(&Rule::new(255), &row, BoundaryMode::ZeroPadded, 1), vec![1; 6]);
}

#[test]
fn initial_row_alignments_match_the_guide() {
    let seed = [1u8, 0, 1];
    assert_eq!(
        make_initial_row(9, &seed, PaddingAlign::After, 0),
        vec![1, 0, 1, 0, 0, 0, 0, 0, 0]
    );
    assert_eq!(
        make_initial_row(9, &seed, PaddingAlign::Before, 0),
        vec![0, 0, 0, 0, 0, 0, 1, 0, 1]
    );
    assert_eq!(
        make_initial_row(9, &seed, PaddingAlign::Center, 0),
        vec![0, 0, 0, 1, 0, 1, 0, 0, 0]
    );
    assert_eq!(
        make_initial_row(9, &seed, PaddingAlign::Center, PaddingFill::One.value()),
        vec![1, 1, 1, 1, 0, 1, 1, 1, 1]
    );
}

#[test]
fn initial_row_edge_cases() {
    // Nonzero seed bytes become 1; the fill keeps only its low bit.
    assert_eq!(make_initial_row(4, &[5, 0], PaddingAlign::After, 3), vec![1, 0, 1, 1]);
    // A seed longer than the row is cut.
    assert_eq!(make_initial_row(2, &[1, 0, 1], PaddingAlign::Before, 0), vec![1, 0]);
    assert_eq!(make_initial_row(3, &[], PaddingAlign::Center, 1), vec![1, 1, 1]);
    assert_eq!(make_initial_row(0, &[1], PaddingAlign::Center, 0), Vec::<u8>::new());
    // Centering rounds down.
    assert_eq!(make_initial_row(4, &[1], PaddingAlign::Center, 0), vec![0, 1, 0, 0]);
}

#[test]
fn automaton_run_follows_the_rule() {
    let mut ca = CellularAutomaton::new(Rule::new(30), 7, 2, vec![0, 0, 0, 1, 0, 0, 0], BoundaryMode::ZeroPadded);
    assert!(ca.rows().is_empty());
    ca.run();
    assert_eq!(ca.rows().len(), 3);
    assert_eq!(ca.rows()[0], vec![0, 0, 0, 1, 0, 0, 0]);
    assert_eq!(ca.rows()[1], vec![0, 0, 1, 1, 1, 0, 0]);
    assert_eq!(ca.rows()[2], vec![0, 1, 1, 0, 0, 1, 0]);
}

#[test]
fn automaton_with_width_zero_has_no_rows() {
    let mut ca = CellularAutomaton::new(Rule::new(30), 0, 4, vec![1, 0], BoundaryMode::Wrap);
    ca.run();
    assert!(ca.rows().is_empty());
}

#[test]
fn labels_and_fill_values() {
    assert_eq!(BoundaryMode::ZeroPadded.label(), "Padded");
    assert_eq!(BoundaryMode::Wrap.label(), "Wrap-around");
    assert_eq!(PaddingAlign::After.label(), "Padding after");
    assert_eq!(PaddingAlign::Before.label(), "Padding before");
    assert_eq!(PaddingAlign::Center.label(), "Centered");
    assert_eq!(PaddingFill::Zero.label(), "Fill 0s");
    assert_eq!(PaddingFill::One.label(), "Fill 1s");
    assert_eq!(PaddingFill::Zero.value(), 0);
    assert_eq!(PaddingFill::One.value(), 1);
    assert_eq!(BoundaryMode::ALL.len(), 2);
    assert_eq!(PaddingAlign::ALL.len(), 3);
    assert_eq!(PaddingFill::ALL, [PaddingFill::Zero, PaddingFill::One]);
}

#[test]
fn wrap_stepping_commutes_with_rotation() {
    let rule = Rule::new(110);
    let row = [1u8, 0, 0, 1, 1, 0, 1];
    let mut rotated = row.to_vec();
    rotated.rotate_left(1);
    let mut stepped = step_row(&rule, &row, BoundaryMode::Wrap, 0);
    stepped.rotate_left(1);
    assert_eq!(step_row(&rule, &rotated, BoundaryMode::Wrap, 0), stepped);
}
