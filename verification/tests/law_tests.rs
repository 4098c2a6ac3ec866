use lau_linear_systems::interconnect::{feedback, LoopBlocks};
use lau_linear_systems::matrix::Mat;
use lau_linear_systems::system::Realization;
use lau_linear_systems::transfer::{companion, controllable_canonical};

fn mat(rows: &[&[i64]]) -> Mat<i64> {
    let cols = if rows.is_empty() { 0 } else { rows[0].len() };
    Mat::from_rows(rows.iter().map(|r| r.to_vec()).collect(), cols).unwrap()
}

fn apply(m: &Mat<i64>, x: &[i64]) -> Vec<i64> {
    (0..m.nrows()).map(|i| (0..m.ncols()).map(|j| m.get(i, j) * x[j]).sum()).collect()
}

fn product(a: &Mat<i64>, b: &Mat<i64>) -> Mat<i64> {
    let rows: Vec<Vec<i64>> = (0..a.nrows())
        .map(|i| (0..b.ncols()).map(|j| (0..a.ncols()).map(|k| a.get(i, k) * b.get(k, j)).sum()).collect())
        .collect();
    Mat::from_rows(rows, b.ncols()).unwrap()
}

fn plus(x: &[i64], y: &[i64]) -> Vec<i64> {
    x.iter().zip(y).map(|(a, b)| a + b).collect()
}

fn minus(x: &[i64], y: &[i64]) -> Vec<i64> {
    x.iter().zip(y).map(|(a, b)| a - b).collect()
}

#[test]
fn kronecker_sum_solves_the_lyapunov_equation() {
    let a = mat(&[&[1, 2], &[-3, 4]]);
    let p = mat(&[&[5, -1], &[2, 7]]);
    // Q = A P + P A'
    let q = product(&a, &p);
    let pat = product(&p, &a.transpose());
    let q_rows: Vec<Vec<i64>> = (0..2).map(|i| (0..2).map(|j| q.get(i, j) + pat.get(i, j)).collect()).collect();
    let q = Mat::from_rows(q_rows, 2).unwrap();
    let vp = p.vectorize();
    let lhs = plus(&apply(&a.kron_identity_left(0), &vp), &apply(&a.kron_identity_right(0), &vp));
    assert_eq!(lhs, q.vectorize());
}

#[test]
fn canonical_realization_has_the_transfer_function() {
    // num = 2 s^2 + 3 s + 5, den = s^2 + 7 s + 11, evaluated at s = 3.
    let num = [2i64, 3, 5];
    let den = [1i64, 7, 11];
    let top = vec![-den[1], -den[2]];
    let c_row = vec![num[1] - num[0] * den[1], num[2] - num[0] * den[2]];
    let r = controllable_canonical(&top, c_row, num[0], 0, 1);
    let s = 3i64;
    let x = vec![s, 1];
    let den_s = s * s + 7 * s + 11;
    let num_s = 2 * s * s + 3 * s + 5;
    let rate = plus(&apply(&r.a, &x), &apply(&r.b, &[den_s]));
    assert_eq!(rate, vec![s * x[0], s * x[1]]);
    let y = plus(&apply(&r.c, &x), &apply(&r.d, &[den_s]));
    assert_eq!(y, vec![num_s]);
}

#[test]
fn roots_are_companion_eigenvalues() {
    // (s - 1)(s - 2)(s - 3) = s^3 - 6 s^2 + 11 s - 6: last row (6, -11, 6).
    let c = companion(&vec![6, -11, 6], 0, 1);
    for s in [1i64, 2, 3] {
        let v = vec![1, s, s * s];
        assert_eq!(apply(&c, &v), vec![s, s * s, s * s * s]);
    }
}

#[test]
fn feedback_loop_with_direct_feedthrough() {
    // D2 = 0, so M = I and M2 = I; D1 != 0 exercises the B2 M D1 block.
    let s1 = Realization::new(mat(&[&[1]]), mat(&[&[2]]), mat(&[&[3]]), mat(&[&[4]])).unwrap();
    let s2 = Realization::new(mat(&[&[5]]), mat(&[&[6]]), mat(&[&[7]]), mat(&[&[0]])).unwrap();
    let blocks = LoopBlocks {
        a11: mat(&[&[1]]),          // A1 - B1 D2 M C1
        a12: mat(&[&[-14]]),        // -B1 M2 C2
        a21: mat(&[&[18]]),         // B2 M C1
        a22: mat(&[&[5 - 6 * 4 * 7]]), // A2 - B2 M D1 C2
        b1: mat(&[&[2]]),           // B1 M2
        b2: mat(&[&[24]]),          // B2 M D1
        c1: mat(&[&[3]]),           // M C1
        c2: mat(&[&[-28]]),         // -M D1 C2
        d: mat(&[&[4]]),            // M D1
    };
    let r = feedback(&s1, &s2, blocks);
    let (x1, x2, u) = (vec![2i64], vec![-1i64], vec![5i64]);
    let x = vec![x1[0], x2[0]];
    let y = plus(&apply(&r.c, &x), &apply(&r.d, &u));
    let y2 = plus(&apply(&s2.c, &x2), &apply(&s2.d, &y));
    let e = minus(&u, &y2);
    assert_eq!(y, plus(&apply(&s1.c, &x1), &apply(&s1.d, &e)));
    let mut expected = plus(&apply(&s1.a, &x1), &apply(&s1.b, &e));
    expected.extend(plus(&apply(&s2.a, &x2), &apply(&s2.b, &y)));
    assert_eq!(plus(&apply(&r.a, &x), &apply(&r.b, &u)), expected);
}
