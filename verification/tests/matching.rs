//! End-to-end tests of the matching engine.
//!
//! Scores are fixed-point: a real-valued affinity `x` is stored as
//! `round(x * 1e8)`, which preserves the ordering the algorithm depends on.

use recursive_matching::{recursive_match, MatchError, Matcher, Matrix};

fn s(x: f64) -> i64 {
    (x * 100_000_000.0).round() as i64
}

fn example_matrix() -> Matrix {
    let rows = vec![
        vec![s(0.0), s(0.0), s(0.0), s(0.0), s(0.0)],
        vec![s(0.20689655), s(0.07407407), s(0.04761905), s(0.0), s(0.23076923)],
        vec![s(0.0), s(0.0), s(0.38461538), s(0.0), s(0.0)],
        vec![s(0.0), s(0.0), s(0.04347826), s(0.5), s(0.0)],
        vec![s(0.5), s(0.0), s(0.0), s(0.0), s(1.0)],
    ];
    Matrix::from_rows(rows).unwrap()
}

#[test]
fn test_recursive_match() {
    let mut matrix = example_matrix();

    let matches = recursive_match(&mut matrix, 1 as usize, true, false).unwrap();

    assert_eq!(vec![1, -1, 2, 3, 4], matches);
}

#[test]
fn matcher_direct_run() {
    let matrix = example_matrix();
    let mut matcher = Matcher::new(&matrix, 1, true);
    matcher.run();
    assert_eq!(vec![1, -1, 2, 3, 4], matcher.get_matches());
}

#[test]
fn matcher_before_run_is_unmatched() {
    let matrix = example_matrix();
    let matcher = Matcher::new(&matrix, 0, false);
    assert_eq!(vec![-1, -1, -1, -1, -1], matcher.get_matches());
}

#[test]
fn example_matrix_rows_axis() {
    let mut matrix = example_matrix();

    let matches = recursive_match(&mut matrix, 0, true, false).unwrap();

    // Row 0 is all zeros, so its best candidate sits at the floor and is
    // rejected; row 4 evicts row 1 from column 4 (0.23076923 < 1.0) and row 1
    // falls back to column 0.
    assert_eq!(vec![-1, 0, 2, 3, 4], matches);

    // Uniqueness and range hold of the output.
    for (p, &a) in matches.iter().enumerate() {
        assert!(a == -1 || (0 <= a && a < 5));
        for (q, &b) in matches.iter().enumerate() {
            if p != q && a != -1 {
                assert_ne!(a, b);
            }
        }
    }
}

#[test]
fn boundary_single_cell_unlimited() {
    let mut matrix = Matrix::from_rows(vec![vec![s(0.25)]]).unwrap();
    let matches = recursive_match(&mut matrix, 1, false, false).unwrap();
    assert_eq!(vec![0], matches);
}

#[test]
fn boundary_single_cell_at_floor() {
    // With the cutoff on, the single value equals the floor and is rejected.
    let mut matrix = Matrix::from_rows(vec![vec![s(0.25)]]).unwrap();
    let matches = recursive_match(&mut matrix, 1, true, false).unwrap();
    assert_eq!(vec![-1], matches);
}

#[test]
fn no_conflict_diagonal_is_argmax() {
    // Every row's maximum sits in its own column: plain per-row argmax.
    let rows = vec![vec![9, 1, 1], vec![1, 9, 1], vec![1, 1, 9]];
    let mut matrix = Matrix::from_rows(rows).unwrap();
    let matches = recursive_match(&mut matrix, 0, false, false).unwrap();
    assert_eq!(vec![0, 1, 2], matches);
}

#[test]
fn eviction_prefers_stronger_contender() {
    // Both columns prefer row 1; column 1's claim (4) beats column 0's (3),
    // so column 0 is evicted and falls back to row 0.
    let rows = vec![vec![1, 2], vec![3, 4]];
    let mut matrix = Matrix::from_rows(rows).unwrap();
    let matches = recursive_match(&mut matrix, 1, false, false).unwrap();
    assert_eq!(vec![0, 1], matches);
}

#[test]
fn eviction_with_cutoff_leaves_loser_unmatched() {
    // As above, but the evicted column's next-best candidate (1) equals the
    // matrix-wide minimum and is rejected by the cutoff.
    let rows = vec![vec![1, 2], vec![3, 4]];
    let mut matrix = Matrix::from_rows(rows).unwrap();
    let matches = recursive_match(&mut matrix, 1, true, false).unwrap();
    assert_eq!(vec![-1, 1], matches);
}

#[test]
fn determinism_repeated_runs() {
    let mut m1 = example_matrix();
    let mut m2 = example_matrix();
    let r1 = recursive_match(&mut m1, 1, true, false).unwrap();
    let r2 = recursive_match(&mut m2, 1, true, false).unwrap();
    assert_eq!(r1, r2);
}

#[test]
fn tie_breaks_lowest_index() {
    let mut matrix = Matrix::from_rows(vec![vec![5, 5]]).unwrap();
    let matches = recursive_match(&mut matrix, 0, false, false).unwrap();
    assert_eq!(vec![0], matches);

    let mut matrix = Matrix::from_rows(vec![vec![5], vec![5]]).unwrap();
    let matches = recursive_match(&mut matrix, 1, false, false).unwrap();
    assert_eq!(vec![0], matches);
}

#[test]
fn minimum_inversion_matches_direct_run() {
    // A cost matrix: minimizing cost pairs entrant 0 with target 0.
    let rows = vec![vec![1, 9], vec![9, 1]];
    let mut with_flag = Matrix::from_rows(rows.clone()).unwrap();
    let r1 = recursive_match(&mut with_flag, 0, false, true).unwrap();

    // The same run on the hand-inverted matrix `max - x`.
    let max: i64 = 9;
    let inverted: Vec<Vec<i64>> = rows
        .iter()
        .map(|row| row.iter().map(|&x| max - x).collect())
        .collect();
    let mut direct = Matrix::from_rows(inverted).unwrap();
    let r2 = recursive_match(&mut direct, 0, false, false).unwrap();

    assert_eq!(r1, r2);
    assert_eq!(vec![0, 1], r1);
}

#[test]
fn minimum_flag_transforms_in_place() {
    let mut matrix = Matrix::from_rows(vec![vec![1, 9], vec![9, 1]]).unwrap();
    recursive_match(&mut matrix, 0, false, true).unwrap();
    // max = 9; every score x became 9 - x.
    assert_eq!(matrix.get(0, 0), 8);
    assert_eq!(matrix.get(0, 1), 0);
    assert_eq!(matrix.get(1, 0), 0);
    assert_eq!(matrix.get(1, 1), 8);
}

#[test]
fn invalid_axis_is_refused() {
    let mut matrix = example_matrix();
    let err = recursive_match(&mut matrix, 2, true, false).unwrap_err();
    assert_eq!(err, MatchError::InvalidArgument);
    // The matrix is untouched on the error path, even with `minimum` set.
    let err = recursive_match(&mut matrix, 5, true, true).unwrap_err();
    assert_eq!(err, MatchError::InvalidArgument);
    assert_eq!(matrix.get(1, 0), s(0.20689655));
}

#[test]
fn empty_matrix_is_refused() {
    let mut no_rows = Matrix::from_rows(vec![]).unwrap();
    let err = recursive_match(&mut no_rows, 0, false, false).unwrap_err();
    assert_eq!(err, MatchError::EmptyInput);

    let mut no_cols = Matrix::from_rows(vec![vec![], vec![]]).unwrap();
    let err = recursive_match(&mut no_cols, 1, false, true).unwrap_err();
    assert_eq!(err, MatchError::EmptyInput);
}

#[test]
fn ragged_rows_are_rejected() {
    assert!(Matrix::from_rows(vec![vec![1], vec![1, 2]]).is_none());
    assert!(Matrix::from_rows(vec![vec![1, 2], vec![3, 4]]).is_some());
}

#[test]
fn matrix_accessors() {
    let matrix = Matrix::from_rows(vec![vec![1, 2, 3], vec![4, 5, 6]]).unwrap();
    assert_eq!(matrix.rows(), 2);
    assert_eq!(matrix.cols(), 3);
    assert_eq!(matrix.get(1, 2), 6);
    let copy = matrix.duplicate();
    assert_eq!(copy.get(0, 1), 2);
    assert_eq!(copy.rows(), 2);
    assert_eq!(copy.cols(), 3);
}

#[test]
fn negative_scores_match() {
    // The floor is -7; with the cutoff on, only values above -7 are admitted.
    let rows = vec![vec![-7, -1], vec![-2, -7]];
    let mut matrix = Matrix::from_rows(rows).unwrap();
    let matches = recursive_match(&mut matrix, 0, true, false).unwrap();
    assert_eq!(vec![1, 0], matches);
}
