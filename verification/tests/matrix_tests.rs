use lau_linear_systems::matrix::Mat;

fn mat(rows: &[&[f64]]) -> Mat<f64> {
    let cols = if rows.is_empty() { 0 } else { rows[0].len() };
    let data: Vec<Vec<f64>> = rows.iter().map(|r| r.to_vec()).collect();
    Mat::from_rows(data, cols).expect("rows of equal length")
}

#[test]
fn from_rows_rejects_ragged_rows() {
    let data = vec![vec![1.0, 2.0], vec![3.0]];
    assert!(Mat::from_rows(data, 2).is_none());
    let ok = Mat::from_rows(vec![vec![1.0, 2.0], vec![3.0, 4.0]], 2).unwrap();
    assert_eq!(ok.nrows(), 2);
    assert_eq!(ok.ncols(), 2);
    assert_eq!(ok.get(1, 0), 3.0);
}

#[test]
fn filled_and_identity() {
    let z = Mat::filled(2, 3, 0.0);
    assert_eq!(z.nrows(), 2);
    assert_eq!(z.ncols(), 3);
    assert_eq!(z.get(1, 2), 0.0);
    let i = Mat::identity(3, 0.0, 1.0);
    for r in 0..3 {
        for c in 0..3 {
            assert_eq!(i.get(r, c), if r == c { 1.0 } else { 0.0 });
        }
    }
}

#[test]
fn transpose_swaps_entries_and_twice_restores() {
    let m = mat(&[&[1.0, 2.0, 3.0], &[4.0, 5.0, 6.0]]);
    let t = m.transpose();
    assert_eq!(t.nrows(), 3);
    assert_eq!(t.ncols(), 2);
    assert_eq!(t.get(2, 0), 3.0);
    assert_eq!(t.get(0, 1), 4.0);
    let tt = t.transpose();
    assert_eq!(tt.to_rows(), m.to_rows());
}

#[test]
fn block2x2_places_each_block() {
    let tl = mat(&[&[1.0]]);
    let tr = mat(&[&[2.0, 3.0]]);
    let bl = mat(&[&[4.0], &[7.0]]);
    let br = mat(&[&[5.0, 6.0], &[8.0, 9.0]]);
    let m = Mat::block2x2(&tl, &tr, &bl, &br);
    assert_eq!(
        m.to_rows(),
        vec![vec![1.0, 2.0, 3.0], vec![4.0, 5.0, 6.0], vec![7.0, 8.0, 9.0]]
    );
}

#[test]
fn beside_and_above() {
    let a = mat(&[&[1.0], &[2.0]]);
    let b = mat(&[&[3.0, 4.0], &[5.0, 6.0]]);
    assert_eq!(a.beside(&b).to_rows(), vec![vec![1.0, 3.0, 4.0], vec![2.0, 5.0, 6.0]]);
    let c = mat(&[&[7.0, 8.0]]);
    assert_eq!(b.above(&c).to_rows(), vec![vec![3.0, 4.0], vec![5.0, 6.0], vec![7.0, 8.0]]);
}

#[test]
fn hstack_layout_of_controllability_blocks() {
    // Blocks B, AB, A^2 B of a 3-state, 1-input system.
    let blocks = vec![
        mat(&[&[0.0], &[0.0], &[1.0]]),
        mat(&[&[0.0], &[1.0], &[-6.0]]),
        mat(&[&[1.0], &[-6.0], &[25.0]]),
    ];
    let ctrb = Mat::hstack(&blocks, 3, 1);
    assert_eq!(ctrb.nrows(), 3);
    assert_eq!(ctrb.ncols(), 3);
    assert_eq!(ctrb.get(2, 2), 25.0);
    assert_eq!(ctrb.get(1, 1), 1.0);
}

#[test]
fn hstack_with_two_inputs() {
    let blocks = vec![mat(&[&[1.0, 2.0]]), mat(&[&[3.0, 4.0]])];
    let h = Mat::hstack(&blocks, 1, 2);
    assert_eq!(h.to_rows(), vec![vec![1.0, 2.0, 3.0, 4.0]]);
}

#[test]
fn vstack_layout_of_observability_blocks() {
    let blocks = vec![mat(&[&[1.0, 0.0, 0.0]]), mat(&[&[0.0, 1.0, 0.0]]), mat(&[&[0.0, 0.0, 1.0]])];
    let obs = Mat::vstack(&blocks, 1, 3);
    assert_eq!(obs.nrows(), 3);
    assert_eq!(obs.ncols(), 3);
    assert_eq!(obs.get(2, 2), 1.0);
    assert_eq!(obs.get(0, 2), 0.0);
}

#[test]
fn vstack_is_transpose_of_hstack_of_transposes() {
    let blocks = vec![mat(&[&[1.0, 2.0], &[3.0, 4.0]]), mat(&[&[5.0, 6.0], &[7.0, 8.0]])];
    let transposed: Vec<Mat<f64>> = blocks.iter().map(|b| b.transpose()).collect();
    let v = Mat::vstack(&blocks, 2, 2);
    let h = Mat::hstack(&transposed, 2, 2);
    assert_eq!(v.to_rows(), h.transpose().to_rows());
}

#[test]
fn vectorize_reads_row_by_row_and_round_trips() {
    let m = mat(&[&[1.0, 2.0, 3.0], &[4.0, 5.0, 6.0]]);
    let v = m.vectorize();
    assert_eq!(v, vec![1.0, 2.0, 3.0, 4.0, 5.0, 6.0]);
    let back = Mat::unvectorize(&v, 2, 3);
    assert_eq!(back.to_rows(), m.to_rows());
    let other = Mat::unvectorize(&vec![9.0, 8.0, 7.0, 6.0], 2, 2);
    assert_eq!(other.get(1, 0), 7.0);
    assert_eq!(other.vectorize(), vec![9.0, 8.0, 7.0, 6.0]);
}

#[test]
fn kronecker_sum_structure_for_lyapunov() {
    let a = mat(&[&[1.0, 2.0], &[3.0, 4.0]]);
    let left = a.kron_identity_left(0.0);
    assert_eq!(
        left.to_rows(),
        vec![
            vec![1.0, 2.0, 0.0, 0.0],
            vec![3.0, 4.0, 0.0, 0.0],
            vec![0.0, 0.0, 1.0, 2.0],
            vec![0.0, 0.0, 3.0, 4.0],
        ]
    );
    let right = a.kron_identity_right(0.0);
    assert_eq!(
        right.to_rows(),
        vec![
            vec![1.0, 0.0, 2.0, 0.0],
            vec![0.0, 1.0, 0.0, 2.0],
            vec![3.0, 0.0, 4.0, 0.0],
            vec![0.0, 3.0, 0.0, 4.0],
        ]
    );
}

#[test]
fn row_and_row_vector() {
    let m = mat(&[&[1.0, 2.0], &[3.0, 4.0]]);
    assert_eq!(m.row(1), vec![3.0, 4.0]);
    let r = Mat::row_vector(vec![5.0, 6.0, 7.0]);
    assert_eq!(r.nrows(), 1);
    assert_eq!(r.ncols(), 3);
    assert_eq!(r.get(0, 2), 7.0);
}
