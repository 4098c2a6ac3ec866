use lau_linear_systems::interconnect::{
    check_feedback, check_parallel, check_series, feedback, parallel, series, ConnectError,
    LoopBlocks,
};
use lau_linear_systems::matrix::Mat;
use lau_linear_systems::system::{check_shapes, Dims, Realization, ShapeError};

fn mat(rows: &[&[f64]]) -> Mat<f64> {
    let cols = if rows.is_empty() { 0 } else { rows[0].len() };
    let data: Vec<Vec<f64>> = rows.iter().map(|r| r.to_vec()).collect();
    Mat::from_rows(data, cols).unwrap()
}

fn first_order(a: f64, b: f64, c: f64, d: f64) -> Realization<f64> {
    Realization::new(mat(&[&[a]]), mat(&[&[b]]), mat(&[&[c]]), mat(&[&[d]])).unwrap()
}

#[test]
fn shapes_of_a_second_order_siso_model() {
    let r = check_shapes((2, 2), (2, 1), (1, 2), (1, 1));
    assert_eq!(r, Ok(Dims { states: 2, inputs: 1, outputs: 1 }));
}

#[test]
fn each_shape_rule_reports_its_error() {
    assert_eq!(check_shapes((2, 3), (2, 1), (1, 3), (1, 1)), Err(ShapeError::ANotSquare));
    assert_eq!(check_shapes((2, 2), (3, 1), (1, 2), (1, 1)), Err(ShapeError::BRowsMismatch));
    assert_eq!(check_shapes((2, 2), (2, 1), (1, 3), (1, 1)), Err(ShapeError::CColsMismatch));
    assert_eq!(check_shapes((2, 2), (2, 1), (1, 2), (1, 2)), Err(ShapeError::DColsMismatch));
    assert_eq!(check_shapes((2, 2), (2, 1), (1, 2), (2, 1)), Err(ShapeError::DRowsMismatch));
    // The first broken rule wins.
    assert_eq!(check_shapes((2, 3), (5, 1), (1, 2), (2, 2)), Err(ShapeError::ANotSquare));
}

#[test]
fn realization_new_and_dimensions() {
    let a = mat(&[&[0.0, 1.0], &[-2.0, -3.0]]);
    let b = mat(&[&[0.0, 1.0], &[1.0, 0.0]]);
    let c = mat(&[&[1.0, 0.0]]);
    let d = mat(&[&[0.0, 0.0]]);
    let s = Realization::new(a, b, c, d).unwrap();
    assert_eq!(s.states(), 2);
    assert_eq!(s.inputs(), 2);
    assert_eq!(s.outputs(), 1);
    assert_eq!(s.dims(), Dims { states: 2, inputs: 2, outputs: 1 });
    let bad = Realization::new(mat(&[&[1.0]]), mat(&[&[1.0], &[2.0]]), mat(&[&[1.0]]), mat(&[&[0.0]]));
    assert!(matches!(bad, Err(ShapeError::BRowsMismatch)));
}

#[test]
fn series_dimensions_and_errors() {
    let d1 = Dims { states: 2, inputs: 1, outputs: 3 };
    let d2 = Dims { states: 4, inputs: 3, outputs: 2 };
    assert_eq!(check_series(d1, d2), Ok(Dims { states: 6, inputs: 1, outputs: 2 }));
    assert_eq!(check_series(d2, d1), Err(ConnectError::ForwardMismatch));
}

#[test]
fn parallel_and_feedback_dimension_errors() {
    let d1 = Dims { states: 1, inputs: 1, outputs: 2 };
    let d2 = Dims { states: 3, inputs: 2, outputs: 2 };
    assert_eq!(check_parallel(d1, d2), Err(ConnectError::InputsMismatch));
    let d3 = Dims { states: 3, inputs: 1, outputs: 1 };
    assert_eq!(check_parallel(d1, d3), Err(ConnectError::OutputsMismatch));
    let d4 = Dims { states: 2, inputs: 1, outputs: 2 };
    assert_eq!(check_parallel(d1, d4), Ok(Dims { states: 3, inputs: 1, outputs: 2 }));
    let f2 = Dims { states: 1, inputs: 2, outputs: 3 };
    assert_eq!(check_feedback(d1, f2), Err(ConnectError::ReturnMismatch));
    let f3 = Dims { states: 1, inputs: 1, outputs: 1 };
    assert_eq!(check_feedback(d1, f3), Err(ConnectError::ForwardMismatch));
    let f4 = Dims { states: 5, inputs: 2, outputs: 1 };
    assert_eq!(check_feedback(d1, f4), Ok(Dims { states: 6, inputs: 1, outputs: 2 }));
}

#[test]
fn series_places_blocks() {
    // sys1: x' = -1 x + 2 u, y = 3 x + 4 u ; sys2: x' = -5 x + 6 u, y = 7 x + 8 u
    let s1 = first_order(-1.0, 2.0, 3.0, 4.0);
    let s2 = first_order(-5.0, 6.0, 7.0, 8.0);
    let b2c1 = mat(&[&[18.0]]);
    let b2d1 = mat(&[&[24.0]]);
    let d2c1 = mat(&[&[24.0]]);
    let d2d1 = mat(&[&[32.0]]);
    let r = series(&s1, &s2, &b2c1, &b2d1, &d2c1, d2d1, 0.0);
    assert_eq!(r.dims(), Dims { states: 2, inputs: 1, outputs: 1 });
    assert_eq!(r.a.to_rows(), vec![vec![-1.0, 0.0], vec![18.0, -5.0]]);
    assert_eq!(r.b.to_rows(), vec![vec![2.0], vec![24.0]]);
    assert_eq!(r.c.to_rows(), vec![vec![24.0, 7.0]]);
    assert_eq!(r.d.to_rows(), vec![vec![32.0]]);
}

#[test]
fn parallel_places_blocks() {
    let s1 = first_order(-1.0, 2.0, 3.0, 4.0);
    let s2 = first_order(-5.0, 6.0, 7.0, 8.0);
    let r = parallel(&s1, &s2, mat(&[&[12.0]]), 0.0);
    assert_eq!(r.dims(), Dims { states: 2, inputs: 1, outputs: 1 });
    assert_eq!(r.a.to_rows(), vec![vec![-1.0, 0.0], vec![0.0, -5.0]]);
    assert_eq!(r.b.to_rows(), vec![vec![2.0], vec![6.0]]);
    assert_eq!(r.c.to_rows(), vec![vec![3.0, 7.0]]);
    assert_eq!(r.d.get(0, 0), 12.0);
}

#[test]
fn feedback_places_blocks() {
    let s1 = first_order(-1.0, 1.0, 1.0, 0.0);
    let s2 = first_order(-2.0, 1.0, 1.0, 0.0);
    let blocks = LoopBlocks {
        a11: mat(&[&[-1.0]]),
        a12: mat(&[&[-1.0]]),
        a21: mat(&[&[1.0]]),
        a22: mat(&[&[-2.0]]),
        b1: mat(&[&[1.0]]),
        b2: mat(&[&[0.0]]),
        c1: mat(&[&[1.0]]),
        c2: mat(&[&[0.0]]),
        d: mat(&[&[0.0]]),
    };
    let r = feedback(&s1, &s2, blocks);
    assert_eq!(r.dims(), Dims { states: 2, inputs: 1, outputs: 1 });
    assert_eq!(r.a.to_rows(), vec![vec![-1.0, -1.0], vec![1.0, -2.0]]);
    assert_eq!(r.b.to_rows(), vec![vec![1.0], vec![0.0]]);
    assert_eq!(r.c.to_rows(), vec![vec![1.0, 0.0]]);
}
