use lau_linear_systems::ctrb_obs::{count_significant, has_full_rank};
use lau_linear_systems::estimation::{check_kalman, check_observer_gain, EstimatorShapeError};
use lau_linear_systems::feedback::{check_ackermann, check_lqr, last_unit_row, DesignShapeError};
use lau_linear_systems::spectrum::diagonal_blocks;
use lau_linear_systems::transfer::{
    companion, controllable_canonical, first_significant, fit_length, static_gain,
};

#[test]
fn rank_counts_significant_values() {
    assert_eq!(count_significant(&vec![true, true, false]), 2);
    assert_eq!(count_significant(&vec![]), 0);
    assert!(has_full_rank(&vec![true, true], 2));
    assert!(!has_full_rank(&vec![true, false], 2));
}

#[test]
fn kalman_shape_errors() {
    assert_eq!(check_kalman(2, 1, (2, 2), (1, 1)), Ok(()));
    assert_eq!(check_kalman(2, 1, (3, 2), (1, 1)), Err(EstimatorShapeError::QRows));
    assert_eq!(check_kalman(2, 1, (2, 3), (1, 1)), Err(EstimatorShapeError::QCols));
    assert_eq!(check_kalman(2, 1, (2, 2), (2, 1)), Err(EstimatorShapeError::RRows));
    assert_eq!(check_kalman(2, 1, (2, 2), (1, 2)), Err(EstimatorShapeError::RCols));
}

#[test]
fn observer_gain_shape_errors() {
    assert_eq!(check_observer_gain(2, 1, (2, 1)), Ok(()));
    assert_eq!(check_observer_gain(2, 1, (2, 2)), Err(EstimatorShapeError::GainCols));
    assert_eq!(check_observer_gain(2, 1, (3, 1)), Err(EstimatorShapeError::GainRows));
}

#[test]
fn design_shape_errors() {
    assert_eq!(check_ackermann(2, 1, 2), Ok(()));
    assert_eq!(check_ackermann(2, 2, 2), Err(DesignShapeError::NotSingleInput));
    assert_eq!(check_ackermann(2, 1, 3), Err(DesignShapeError::PoleCount));
    assert_eq!(check_lqr(2, 1, (2, 2), (1, 1)), Ok(()));
    assert_eq!(check_lqr(2, 1, (1, 2), (1, 1)), Err(DesignShapeError::QRows));
    assert_eq!(check_lqr(2, 1, (2, 1), (1, 1)), Err(DesignShapeError::QCols));
    assert_eq!(check_lqr(2, 1, (2, 2), (2, 1)), Err(DesignShapeError::RRows));
    assert_eq!(check_lqr(2, 1, (2, 2), (1, 2)), Err(DesignShapeError::RCols));
}

#[test]
fn ackermann_selector_row() {
    let e = last_unit_row(3, 0.0, 1.0);
    assert_eq!(e.to_rows(), vec![vec![0.0, 0.0, 1.0]]);
}

#[test]
fn eigenvalue_blocks_of_quasi_triangular_forms() {
    // Rotation matrix [[0,-1],[1,0]]: one 2x2 block (complex pair).
    assert_eq!(diagonal_blocks(&vec![true], 2), vec![(0, 2)]);
    // Diagonal matrix: two real eigenvalues.
    assert_eq!(diagonal_blocks(&vec![false], 2), vec![(0, 1), (1, 1)]);
    // Coupled at 0 and 1: the pair at 0 consumes position 1.
    assert_eq!(diagonal_blocks(&vec![true, true, false], 4), vec![(0, 2), (2, 1), (3, 1)]);
    assert_eq!(diagonal_blocks(&vec![], 1), vec![(0, 1)]);
    let total: usize = diagonal_blocks(&vec![false, true, false, true], 5).iter().map(|b| b.1).sum();
    assert_eq!(total, 5);
}

#[test]
fn leading_significant_coefficient() {
    assert_eq!(first_significant(&vec![false, true, true]), 1);
    assert_eq!(first_significant(&vec![true, false]), 0);
    assert_eq!(first_significant(&vec![false, false, false]), 2);
}

#[test]
fn numerator_fitting() {
    assert_eq!(fit_length(&vec![1.0, 2.0], 3, 0.0), vec![0.0, 1.0, 2.0]);
    assert_eq!(fit_length(&vec![1.0, 2.0, 3.0, 4.0], 3, 0.0), vec![2.0, 3.0, 4.0]);
    assert_eq!(fit_length(&vec![5.0, 6.0], 2, 0.0), vec![5.0, 6.0]);
    assert_eq!(fit_length(&Vec::<f64>::new(), 2, 0.0), vec![0.0, 0.0]);
}

#[test]
fn controllable_canonical_form_of_second_order_tf() {
    // (s + 1) / (s^2 + 3 s + 2): first row -3, -2; C = [1, 1].
    let r = controllable_canonical(&vec![-3.0, -2.0], vec![1.0, 1.0], 0.0, 0.0, 1.0);
    assert_eq!(r.states(), 2);
    assert_eq!(r.inputs(), 1);
    assert_eq!(r.outputs(), 1);
    assert_eq!(r.a.to_rows(), vec![vec![-3.0, -2.0], vec![1.0, 0.0]]);
    assert_eq!(r.b.to_rows(), vec![vec![1.0], vec![0.0]]);
    assert_eq!(r.c.to_rows(), vec![vec![1.0, 1.0]]);
    assert_eq!(r.d.get(0, 0), 0.0);
}

#[test]
fn pure_gain_realization() {
    let r = static_gain(5.0, 0.0);
    assert_eq!(r.d.get(0, 0), 5.0);
    assert_eq!(r.a.get(0, 0), 0.0);
    assert_eq!(r.states(), 1);
}

#[test]
fn companion_matrix_layout() {
    // s^3 + 6 s^2 + 11 s + 6 : last row -6, -11, -6.
    let c = companion(&vec![-6.0, -11.0, -6.0], 0.0, 1.0);
    assert_eq!(
        c.to_rows(),
        vec![vec![0.0, 1.0, 0.0], vec![0.0, 0.0, 1.0], vec![-6.0, -11.0, -6.0]]
    );
}
