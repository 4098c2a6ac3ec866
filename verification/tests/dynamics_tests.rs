use lau_linear_systems::interconnect::{parallel, series};
use lau_linear_systems::matrix::Mat;
use lau_linear_systems::system::Realization;

fn mat(rows: &[&[i64]]) -> Mat<i64> {
    let cols = if rows.is_empty() { 0 } else { rows[0].len() };
    Mat::from_rows(rows.iter().map(|r| r.to_vec()).collect(), cols).unwrap()
}

fn apply(m: &Mat<i64>, x: &[i64]) -> Vec<i64> {
    (0..m.nrows()).map(|i| (0..m.ncols()).map(|j| m.get(i, j) * x[j]).sum()).collect()
}

fn product(a: &Mat<i64>, b: &Mat<i64>) -> Mat<i64> {
    let rows: Vec<Vec<i64>> = (0..a.nrows())
        .map(|i| (0..b.ncols()).map(|j| (0..a.ncols()).map(|k| a.get(i, k) * b.get(k, j)).sum()).collect())
        .collect();
    Mat::from_rows(rows, b.ncols()).unwrap()
}

fn plus(x: &[i64], y: &[i64]) -> Vec<i64> {
    x.iter().zip(y).map(|(a, b)| a + b).collect()
}

fn rate(r: &Realization<i64>, x: &[i64], u: &[i64]) -> Vec<i64> {
    plus(&apply(&r.a, x), &apply(&r.b, u))
}

fn output(r: &Realization<i64>, x: &[i64], u: &[i64]) -> Vec<i64> {
    plus(&apply(&r.c, x), &apply(&r.d, u))
}

fn sys1() -> Realization<i64> {
    Realization::new(
        mat(&[&[1, 2], &[3, 4]]),
        mat(&[&[1], &[2]]),
        mat(&[&[5, 6], &[7, 8]]),
        mat(&[&[1], &[2]]),
    )
    .unwrap()
}

fn sys2() -> Realization<i64> {
    Realization::new(mat(&[&[-1]]), mat(&[&[2, 3]]), mat(&[&[4]]), mat(&[&[5, 6]])).unwrap()
}

#[test]
fn series_rate_and_output_match_the_wired_parts() {
    let (s1, s2) = (sys1(), sys2());
    let r = series(
        &s1,
        &s2,
        &product(&s2.b, &s1.c),
        &product(&s2.b, &s1.d),
        &product(&s2.d, &s1.c),
        product(&s2.d, &s1.d),
        0,
    );
    let (x1, x2, u) = (vec![1, -2], vec![3], vec![4]);
    let x: Vec<i64> = x1.iter().chain(&x2).copied().collect();
    let y1 = output(&s1, &x1, &u);
    let mut expected = rate(&s1, &x1, &u);
    expected.extend(rate(&s2, &x2, &y1));
    assert_eq!(rate(&r, &x, &u), expected);
    assert_eq!(output(&r, &x, &u), output(&s2, &x2, &y1));
}

#[test]
fn parallel_rate_and_output_match_the_parts() {
    let s1 = sys2();
    let s2 = Realization::new(mat(&[&[2, 0], &[1, 3]]), mat(&[&[1, 1], &[0, 2]]), mat(&[&[1, -1]]), mat(&[&[7, 8]])).unwrap();
    let d_sum = mat(&[&[12, 14]]);
    let r = parallel(&s1, &s2, d_sum, 0);
    let (x1, x2, u) = (vec![2], vec![1, 5], vec![-1, 3]);
    let x: Vec<i64> = x1.iter().chain(&x2).copied().collect();
    let mut expected = rate(&s1, &x1, &u);
    expected.extend(rate(&s2, &x2, &u));
    assert_eq!(rate(&r, &x, &u), expected);
    assert_eq!(output(&r, &x, &u), plus(&output(&s1, &x1, &u), &output(&s2, &x2, &u)));
}

#[test]
fn observability_is_transposed_controllability_of_the_dual() {
    let a = mat(&[&[0, 1, 0], &[0, 0, 1], &[-6, -11, -6]]);
    let c = mat(&[&[1, 2, 0], &[0, 1, 1]]);
    let (at, ct) = (a.transpose(), c.transpose());
    let mut obs = vec![c.transpose().transpose()];
    let mut ctr = vec![ct.transpose().transpose()];
    for k in 1..3 {
        obs.push(product(&obs[k - 1], &a));
        ctr.push(product(&at, &ctr[k - 1]));
    }
    let v = Mat::vstack(&obs, 2, 3);
    let h = Mat::hstack(&ctr, 3, 2);
    assert_eq!(v.to_rows(), h.transpose().to_rows());
}
