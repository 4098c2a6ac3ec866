//! What the layouts mean, with exact arithmetic on the entries: the state rate
//! `A x + B u` and output `C x + D u` of a series or parallel connection are
//! those of its parts wired together; stacking powers of `A` behaves under
//! transposition as controllability and observability require; the Kronecker
//! sum solves the Lyapunov equation; the canonical realization has the given
//! transfer function; and roots of a polynomial are eigenvalues of its
//! companion matrix.

use vstd::prelude::*;
use vstd::arithmetic::mul::{lemma_mul_is_distributive_add, lemma_mul_is_associative,
    lemma_mul_is_commutative};
use crate::matrix::{
    Mat, identity_kron_entry, kron_identity_entry, law_vstack_is_transposed_hstack,
    lemma_join_index,
};
use crate::system::Realization;
use crate::transfer::is_companion_of;
use vstd::arithmetic::power::pow;
use crate::interconnect::{series_violation, parallel_violation};

verus! {

/// Sum of the products of matching entries of `r` and `x` (taken of equal length).
pub open spec fn dot(r: Seq<int>, x: Seq<int>) -> int
    decreases r.len(),
{
    if r.len() == 0 {
        0
    } else {
        dot(r.drop_last(), x.drop_last()) + r.last() * x.last()
    }
}

/// Entry-wise sum.
pub open spec fn plus(x: Seq<int>, y: Seq<int>) -> Seq<int> {
    Seq::new(x.len(), |i: int| x[i] + y[i])
}

/// Every entry multiplied by `c`.
pub open spec fn scaled(c: int, x: Seq<int>) -> Seq<int> {
    Seq::new(x.len(), |i: int| c * x[i])
}

/// `n` zeros.
pub open spec fn zeros(n: nat) -> Seq<int> {
    Seq::new(n, |_i: int| 0int)
}

/// Column `j` of `m`.
pub open spec fn column(m: &Mat<int>, j: int) -> Seq<int> {
    Seq::new(m.num_rows(), |k: int| m.at(k, j))
}

/// The matrix-vector product `m x`.
pub open spec fn apply(m: &Mat<int>, x: Seq<int>) -> Seq<int> {
    Seq::new(m.num_rows(), |i: int| dot(m@[i], x))
}

/// `p` is the matrix product `a b`.
pub open spec fn is_product(p: &Mat<int>, a: &Mat<int>, b: &Mat<int>) -> bool {
    &&& p.wf()
    &&& a.wf()
    &&& b.wf()
    &&& a.num_cols() == b.num_rows()
    &&& p.num_rows() == a.num_rows()
    &&& p.num_cols() == b.num_cols()
    &&& forall|i: int, j: int|
        0 <= i < p.num_rows() && 0 <= j < p.num_cols() ==> #[trigger] p.at(i, j) == dot(
            a@[i],
            column(b, j),
        )
}

/// `s` is the matrix sum `a + b`.
pub open spec fn is_sum(s: &Mat<int>, a: &Mat<int>, b: &Mat<int>) -> bool {
    &&& s.wf()
    &&& a.wf()
    &&& b.wf()
    &&& a.num_rows() == s.num_rows() && b.num_rows() == s.num_rows()
    &&& a.num_cols() == s.num_cols() && b.num_cols() == s.num_cols()
    &&& forall|i: int, j: int|
        0 <= i < s.num_rows() && 0 <= j < s.num_cols() ==> #[trigger] s.at(i, j) == a.at(i, j)
            + b.at(i, j)
}

/// Splitting both vectors at the same place splits the dot product.
pub proof fn lemma_dot_concat(r1: Seq<int>, r2: Seq<int>, x1: Seq<int>, x2: Seq<int>)
    requires
        r1.len() == x1.len(),
        r2.len() == x2.len(),
    ensures
        dot(r1 + r2, x1 + x2) == dot(r1, x1) + dot(r2, x2),
    decreases r2.len(),
{
    if r2.len() == 0 {
        assert(r1 + r2 =~= r1);
        assert(x1 + x2 =~= x1);
    } else {
        assert((r1 + r2).drop_last() =~= r1 + r2.drop_last());
        assert((x1 + x2).drop_last() =~= x1 + x2.drop_last());
        lemma_dot_concat(r1, r2.drop_last(), x1, x2.drop_last());
    }
}

/// A row of zeros has dot product zero with anything.
pub proof fn lemma_dot_zeros(r: Seq<int>, x: Seq<int>)
    requires
        forall|i: int| 0 <= i < r.len() ==> r[i] == 0,
    ensures
        dot(r, x) == 0,
    decreases r.len(),
{
    if r.len() > 0 {
        lemma_dot_zeros(r.drop_last(), x.drop_last());
    }
}

/// The dot product distributes over a sum on the right.
pub proof fn lemma_dot_plus_right(r: Seq<int>, x: Seq<int>, y: Seq<int>)
    requires
        r.len() == x.len(),
        x.len() == y.len(),
    ensures
        dot(r, plus(x, y)) == dot(r, x) + dot(r, y),
    decreases r.len(),
{
    if r.len() > 0 {
        assert(plus(x, y).drop_last() =~= plus(x.drop_last(), y.drop_last()));
        lemma_dot_plus_right(r.drop_last(), x.drop_last(), y.drop_last());
        lemma_mul_is_distributive_add(r.last(), x.last(), y.last());
    }
}

/// The dot product distributes over a sum on the left.
pub proof fn lemma_dot_plus_left(r: Seq<int>, s: Seq<int>, x: Seq<int>)
    requires
        r.len() == s.len(),
        r.len() == x.len(),
    ensures
        dot(plus(r, s), x) == dot(r, x) + dot(s, x),
    decreases r.len(),
{
    if r.len() > 0 {
        assert(plus(r, s).drop_last() =~= plus(r.drop_last(), s.drop_last()));
        lemma_dot_plus_left(r.drop_last(), s.drop_last(), x.drop_last());
        lemma_mul_is_distributive_add(x.last(), r.last(), s.last());
        lemma_mul_is_commutative(x.last(), r.last());
        lemma_mul_is_commutative(x.last(), s.last());
        lemma_mul_is_commutative(x.last(), r.last() + s.last());
    }
}

/// Scaling the left vector scales the dot product.
pub proof fn lemma_dot_scaled_left(c: int, r: Seq<int>, x: Seq<int>)
    requires
        r.len() == x.len(),
    ensures
        dot(scaled(c, r), x) == c * dot(r, x),
    decreases r.len(),
{
    if r.len() > 0 {
        assert(scaled(c, r).drop_last() =~= scaled(c, r.drop_last()));
        lemma_dot_scaled_left(c, r.drop_last(), x.drop_last());
        lemma_mul_is_associative(c, r.last(), x.last());
        lemma_mul_is_distributive_add(c, dot(r.drop_last(), x.drop_last()), r.last() * x.last());
    }
}

/// The dot product is symmetric.
pub proof fn lemma_dot_symmetric(r: Seq<int>, x: Seq<int>)
    requires
        r.len() == x.len(),
    ensures
        dot(r, x) == dot(x, r),
    decreases r.len(),
{
    if r.len() > 0 {
        lemma_dot_symmetric(r.drop_last(), x.drop_last());
        lemma_mul_is_commutative(r.last(), x.last());
    }
}

/// Row `i` of `a b` computed from the first `m` columns of `a` and rows of `b` only.
pub open spec fn partial_row(a: &Mat<int>, b: &Mat<int>, i: int, m: int) -> Seq<int> {
    Seq::new(b.num_cols(), |j: int| dot(a@[i].take(m), column(b, j).take(m)))
}

proof fn lemma_partial_row(a: &Mat<int>, b: &Mat<int>, x: Seq<int>, i: int, m: int)
    requires
        a.wf(),
        b.wf(),
        a.num_cols() == b.num_rows(),
        x.len() == b.num_cols(),
        0 <= i < a.num_rows(),
        0 <= m <= a.num_cols(),
    ensures
        dot(partial_row(a, b, i, m), x) == dot(a@[i].take(m), apply(b, x).take(m)),
    decreases m,
{
    let ai = a@[i];
    let bx = apply(b, x);
    if m == 0 {
        assert forall|j: int| 0 <= j < partial_row(a, b, i, 0).len() implies partial_row(
            a,
            b,
            i,
            0,
        )[j] == 0 by {
            assert(ai.take(0).len() == 0);
        }
        lemma_dot_zeros(partial_row(a, b, i, 0), x);
    } else {
        let k = m - 1;
        lemma_partial_row(a, b, x, i, k);
        let c = ai[k];
        let bk = b@[k];
        assert(partial_row(a, b, i, m) =~= plus(partial_row(a, b, i, k), scaled(c, bk))) by {
            assert forall|j: int| 0 <= j < b.num_cols() implies #[trigger] partial_row(
                a,
                b,
                i,
                m,
            )[j] == partial_row(a, b, i, k)[j] + c * bk[j] by {
                let col = column(b, j);
                assert(ai.take(m).drop_last() =~= ai.take(k));
                assert(col.take(m).drop_last() =~= col.take(k));
                assert(col[k] == b.at(k, j));
            }
        }
        lemma_dot_plus_left(partial_row(a, b, i, k), scaled(c, bk), x);
        lemma_dot_scaled_left(c, bk, x);
        assert(ai.take(m).drop_last() =~= ai.take(k));
        assert(bx.take(m).drop_last() =~= bx.take(k));
        assert(bx[k] == dot(bk, x));
    }
}

/// Applying a product is applying its factors in turn: `(a b) x == a (b x)`.
pub proof fn lemma_apply_product(p: &Mat<int>, a: &Mat<int>, b: &Mat<int>, x: Seq<int>)
    requires
        is_product(p, a, b),
        x.len() == b.num_cols(),
    ensures
        apply(p, x) == apply(a, apply(b, x)),
{
    let n = a.num_cols() as int;
    assert forall|i: int| 0 <= i < p.num_rows() implies #[trigger] apply(p, x)[i] == apply(
        a,
        apply(b, x),
    )[i] by {
        lemma_partial_row(a, b, x, i, n);
        assert(a@[i].take(n) =~= a@[i]);
        assert(apply(b, x).take(n) =~= apply(b, x));
        assert(partial_row(a, b, i, n) =~= p@[i]) by {
            assert forall|j: int| 0 <= j < b.num_cols() implies #[trigger] partial_row(
                a,
                b,
                i,
                n,
            )[j] == p@[i][j] by {
                assert(column(b, j).take(n) =~= column(b, j));
                assert(p.at(i, j) == dot(a@[i], column(b, j)));
            }
        }
    }
    assert(apply(p, x) =~= apply(a, apply(b, x)));
}

/// The state rate (or next state) `A x + B u`.
pub open spec fn state_rate(r: &Realization<int>, x: Seq<int>, u: Seq<int>) -> Seq<int> {
    plus(apply(&r.a, x), apply(&r.b, u))
}

/// The output `C x + D u`.
pub open spec fn output_of(r: &Realization<int>, x: Seq<int>, u: Seq<int>) -> Seq<int> {
    plus(apply(&r.c, x), apply(&r.d, u))
}

/// Row `i` of `m` has the given entries.
pub proof fn lemma_row_is(m: &Mat<int>, i: int, row: Seq<int>)
    requires
        m.wf(),
        0 <= i < m.num_rows(),
        row.len() == m.num_cols(),
        forall|j: int| 0 <= j < m.num_cols() ==> #[trigger] m.at(i, j) == row[j],
    ensures
        m@[i] == row,
{
    assert forall|j: int| 0 <= j < row.len() implies m@[i][j] == row[j] by {
        assert(m.at(i, j) == row[j]);
    }
    assert(m@[i] =~= row);
}

/// In the series connection `sys1 -> sys2`, with `x = [x1; x2]`, the state rate
/// is that of `sys1` driven by `u` stacked on that of `sys2` driven by the output
/// of `sys1`, and the output is that of `sys2` driven by the output of `sys1`.
pub proof fn law_series_dynamics(
    s1: &Realization<int>,
    s2: &Realization<int>,
    b2c1: &Mat<int>,
    b2d1: &Mat<int>,
    d2c1: &Mat<int>,
    d2d1: Mat<int>,
    r: &Realization<int>,
    x1: Seq<int>,
    x2: Seq<int>,
    u: Seq<int>,
)
    requires
        s1.wf(),
        s2.wf(),
        series_violation(s1.dims_spec(), s2.dims_spec()) is None,
        s1.dims_spec().states + s2.dims_spec().states <= usize::MAX,
        is_product(b2c1, &s2.b, &s1.c),
        is_product(b2d1, &s2.b, &s1.d),
        is_product(d2c1, &s2.d, &s1.c),
        is_product(&d2d1, &s2.d, &s1.d),
        r.is_series_of(s1, s2, b2c1, b2d1, d2c1, d2d1, 0),
        x1.len() == s1.dims_spec().states,
        x2.len() == s2.dims_spec().states,
        u.len() == s1.dims_spec().inputs,
    ensures
        state_rate(r, x1 + x2, u) == state_rate(s1, x1, u) + state_rate(
            s2,
            x2,
            output_of(s1, x1, u),
        ),
        output_of(r, x1 + x2, u) == output_of(s2, x2, output_of(s1, x1, u)),
{
    let n1 = s1.a.num_rows() as int;
    let n2 = s2.a.num_rows() as int;
    let x = x1 + x2;
    let y1 = output_of(s1, x1, u);
    let lhs = state_rate(r, x, u);
    let rhs = state_rate(s1, x1, u) + state_rate(s2, x2, y1);
    assert forall|i: int| 0 <= i < n1 + n2 implies #[trigger] lhs[i] == rhs[i] by {
        if i < n1 {
            lemma_row_is(&r.a, i, s1.a@[i] + zeros(n2 as nat));
            lemma_row_is(&r.b, i, s1.b@[i]);
            lemma_dot_concat(s1.a@[i], zeros(n2 as nat), x1, x2);
            lemma_dot_zeros(zeros(n2 as nat), x2);
        } else {
            let k = i - n1;
            lemma_row_is(&r.a, i, b2c1@[k] + s2.a@[k]);
            lemma_row_is(&r.b, i, b2d1@[k]);
            lemma_dot_concat(b2c1@[k], s2.a@[k], x1, x2);
            lemma_dot_plus_right(s2.b@[k], apply(&s1.c, x1), apply(&s1.d, u));
            lemma_apply_product(b2c1, &s2.b, &s1.c, x1);
            lemma_apply_product(b2d1, &s2.b, &s1.d, u);
            assert(apply(b2c1, x1)[k] == dot(b2c1@[k], x1));
            assert(apply(b2d1, u)[k] == dot(b2d1@[k], u));
        }
    }
    assert(lhs =~= rhs);
    let lo = output_of(r, x, u);
    let ro = output_of(s2, x2, y1);
    assert forall|i: int| 0 <= i < s2.c.num_rows() implies #[trigger] lo[i] == ro[i] by {
        lemma_row_is(&r.c, i, d2c1@[i] + s2.c@[i]);
        lemma_dot_concat(d2c1@[i], s2.c@[i], x1, x2);
        lemma_dot_plus_right(s2.d@[i], apply(&s1.c, x1), apply(&s1.d, u));
        lemma_apply_product(d2c1, &s2.d, &s1.c, x1);
        lemma_apply_product(&d2d1, &s2.d, &s1.d, u);
        assert(apply(d2c1, x1)[i] == dot(d2c1@[i], x1));
        assert(apply(&d2d1, u)[i] == dot(d2d1@[i], u));
    }
    assert(lo =~= ro);
}

/// In the parallel connection `sys1 + sys2`, with `x = [x1; x2]`, the state rate
/// is those of the two systems driven by `u`, stacked, and the output is the sum
/// of their outputs.
pub proof fn law_parallel_dynamics(
    s1: &Realization<int>,
    s2: &Realization<int>,
    d_sum: Mat<int>,
    r: &Realization<int>,
    x1: Seq<int>,
    x2: Seq<int>,
    u: Seq<int>,
)
    requires
        s1.wf(),
        s2.wf(),
        parallel_violation(s1.dims_spec(), s2.dims_spec()) is None,
        s1.dims_spec().states + s2.dims_spec().states <= usize::MAX,
        is_sum(&d_sum, &s1.d, &s2.d),
        r.is_parallel_of(s1, s2, d_sum, 0),
        x1.len() == s1.dims_spec().states,
        x2.len() == s2.dims_spec().states,
        u.len() == s1.dims_spec().inputs,
    ensures
        state_rate(r, x1 + x2, u) == state_rate(s1, x1, u) + state_rate(s2, x2, u),
        output_of(r, x1 + x2, u) == plus(output_of(s1, x1, u), output_of(s2, x2, u)),
{
    let n1 = s1.a.num_rows() as int;
    let n2 = s2.a.num_rows() as int;
    let x = x1 + x2;
    let lhs = state_rate(r, x, u);
    let rhs = state_rate(s1, x1, u) + state_rate(s2, x2, u);
    assert forall|i: int| 0 <= i < n1 + n2 implies #[trigger] lhs[i] == rhs[i] by {
        if i < n1 {
            lemma_row_is(&r.a, i, s1.a@[i] + zeros(n2 as nat));
            lemma_row_is(&r.b, i, s1.b@[i]);
            lemma_dot_concat(s1.a@[i], zeros(n2 as nat), x1, x2);
            lemma_dot_zeros(zeros(n2 as nat), x2);
        } else {
            let k = i - n1;
            lemma_row_is(&r.a, i, zeros(n1 as nat) + s2.a@[k]);
            lemma_row_is(&r.b, i, s2.b@[k]);
            lemma_dot_concat(zeros(n1 as nat), s2.a@[k], x1, x2);
            lemma_dot_zeros(zeros(n1 as nat), x1);
        }
    }
    assert(lhs =~= rhs);
    let lo = output_of(r, x, u);
    let ro = plus(output_of(s1, x1, u), output_of(s2, x2, u));
    assert forall|i: int| 0 <= i < s1.c.num_rows() implies #[trigger] lo[i] == ro[i] by {
        lemma_row_is(&r.c, i, s1.c@[i] + s2.c@[i]);
        lemma_dot_concat(s1.c@[i], s2.c@[i], x1, x2);
        lemma_row_is(&d_sum, i, plus(s1.d@[i], s2.d@[i]));
        lemma_dot_plus_left(s1.d@[i], s2.d@[i], u);
    }
    assert(lo =~= ro);
}

/// `blocks` is `c, c a, c a^2, ...`: the row blocks of an observability matrix.
pub open spec fn is_right_power_chain(blocks: Seq<Mat<int>>, c: &Mat<int>, a: &Mat<int>) -> bool {
    &&& blocks.len() > 0 ==> blocks[0].wf() && blocks[0].same(c)
    &&& forall|k: int|
        #![trigger blocks[k]]
        0 < k < blocks.len() ==> is_product(&blocks[k], &blocks[k - 1], a)
}

/// `blocks` is `b, a b, a^2 b, ...`: the column blocks of a controllability matrix.
pub open spec fn is_left_power_chain(blocks: Seq<Mat<int>>, b: &Mat<int>, a: &Mat<int>) -> bool {
    &&& blocks.len() > 0 ==> blocks[0].wf() && blocks[0].same(b)
    &&& forall|k: int|
        #![trigger blocks[k]]
        0 < k < blocks.len() ==> is_product(&blocks[k], a, &blocks[k - 1])
}

proof fn lemma_chains_transposed(
    obs: Seq<Mat<int>>,
    ctr: Seq<Mat<int>>,
    a: &Mat<int>,
    c: &Mat<int>,
    at: &Mat<int>,
    ct: &Mat<int>,
    k: int,
)
    requires
        a.wf(),
        c.wf(),
        a.num_rows() == a.num_cols(),
        c.num_cols() == a.num_rows(),
        at.is_transpose_of(a),
        ct.is_transpose_of(c),
        obs.len() == ctr.len(),
        is_right_power_chain(obs, c, a),
        is_left_power_chain(ctr, ct, at),
        0 <= k < obs.len(),
    ensures
        obs[k].wf(),
        obs[k].num_rows() == c.num_rows(),
        obs[k].num_cols() == a.num_rows(),
        ctr[k].is_transpose_of(&obs[k]),
    decreases k,
{
    if k > 0 {
        lemma_chains_transposed(obs, ctr, a, c, at, ct, k - 1);
        let o = obs[k - 1];
        let g = ctr[k - 1];
        assert(is_product(&obs[k], &o, a));
        assert(is_product(&ctr[k], at, &g));
        assert forall|i: int, j: int|
            0 <= i < obs[k].num_cols() && 0 <= j < obs[k].num_rows() implies #[trigger] ctr[k].at(
            i,
            j,
        ) == obs[k].at(j, i) by {
            assert(ctr[k].at(i, j) == dot(at@[i], column(&g, j)));
            assert(obs[k].at(j, i) == dot(o@[j], column(a, i)));
            assert(at@[i] =~= column(a, i)) by {
                assert forall|l: int| 0 <= l < a.num_rows() implies at@[i][l] == column(a, i)[l] by {
                    assert(at.at(i, l) == a.at(l, i));
                }
            }
            assert(column(&g, j) =~= o@[j]) by {
                assert forall|l: int| 0 <= l < o.num_cols() implies column(&g, j)[l] == o@[j][l] by {
                    assert(g.at(l, j) == o.at(j, l));
                }
            }
            lemma_dot_symmetric(column(a, i), o@[j]);
        }
    }
}

/// The observability matrix of `(a, c)` is the transpose of the controllability
/// matrix of `(a', c')`: stacking `c a^k` vertically gives the transpose of
/// placing `(a')^k c'` side by side.
pub proof fn law_observability_is_transposed_controllability(
    a: &Mat<int>,
    c: &Mat<int>,
    at: &Mat<int>,
    ct: &Mat<int>,
    obs: Seq<Mat<int>>,
    ctr: Seq<Mat<int>>,
    v: &Mat<int>,
    h: &Mat<int>,
)
    requires
        a.wf(),
        c.wf(),
        a.num_rows() == a.num_cols(),
        c.num_cols() == a.num_rows(),
        at.is_transpose_of(a),
        ct.is_transpose_of(c),
        obs.len() == a.num_rows(),
        ctr.len() == a.num_rows(),
        is_right_power_chain(obs, c, a),
        is_left_power_chain(ctr, ct, at),
        v.is_vstack_of(obs, c.num_rows(), a.num_rows()),
        h.is_hstack_of(ctr, a.num_rows(), c.num_rows()),
    ensures
        v.is_transpose_of(h),
{
    assert forall|k: int| 0 <= k < obs.len() implies {
        &&& (#[trigger] obs[k]).wf()
        &&& obs[k].num_rows() == c.num_rows()
        &&& obs[k].num_cols() == a.num_rows()
        &&& ctr[k].is_transpose_of(&obs[k])
    } by {
        lemma_chains_transposed(obs, ctr, a, c, at, ct, k);
    }
    law_vstack_is_transposed_hstack(obs, ctr, c.num_rows(), a.num_rows(), *v, *h);
}

/// `s^(n-1), ..., s, 1`.
pub open spec fn descending_powers(n: nat, s: int) -> Seq<int> {
    Seq::new(n, |i: int| pow(s, (n - 1 - i) as nat))
}

/// `1, s, ..., s^(n-1)`.
pub open spec fn ascending_powers(n: nat, s: int) -> Seq<int> {
    Seq::new(n, |i: int| pow(s, i as nat))
}

/// The value at `s` of the polynomial with coefficients `c`, highest power first.
pub open spec fn poly_at(c: Seq<int>, s: int) -> int {
    dot(c, descending_powers(c.len(), s))
}

/// The dot product of two one-entry sequences is the product of the entries.
proof fn lemma_dot_single(a: int, b: int)
    ensures
        dot(seq![a], seq![b]) == a * b,
{
    assert(seq![a].drop_last().len() == 0);
    assert(dot(seq![a].drop_last(), seq![b].drop_last()) == 0);
    assert(seq![a].last() == a);
    assert(seq![b].last() == b);
}

/// `s^(e+1) = s * s^e`.
proof fn lemma_pow_step(s: int, e: nat)
    ensures
        pow(s, e + 1) == s * pow(s, e),
{
    reveal(pow);
    assert(((e + 1) - 1) as nat == e);
}

/// Splitting off the leading coefficient: `c(s) = c[0] s^n + (rest of c)(s)`.
pub proof fn lemma_poly_leading(c: Seq<int>, s: int)
    requires
        c.len() >= 1,
    ensures
        poly_at(c, s) == c[0] * pow(s, (c.len() - 1) as nat) + dot(
            c.drop_first(),
            descending_powers((c.len() - 1) as nat, s),
        ),
{
    let n = (c.len() - 1) as nat;
    assert(c =~= seq![c[0]] + c.drop_first());
    assert(descending_powers(c.len(), s) =~= seq![pow(s, n)] + descending_powers(n, s));
    lemma_dot_concat(seq![c[0]], c.drop_first(), seq![pow(s, n)], descending_powers(n, s));
    lemma_dot_single(c[0], pow(s, n));
}

/// Every root `s` of the monic polynomial `s^n - (last[n-1] s^(n-1) + ... + last[0])`
/// is an eigenvalue of the companion matrix with last row `last`, with
/// eigenvector `(1, s, ..., s^(n-1))`.
pub proof fn law_companion_root_eigenvector(m: &Mat<int>, last: Seq<int>, s: int)
    requires
        last.len() >= 1,
        is_companion_of(m, last, 0, 1),
        pow(s, last.len()) == dot(last, ascending_powers(last.len(), s)),
    ensures
        apply(m, ascending_powers(last.len(), s)) == scaled(s, ascending_powers(last.len(), s)),
{
    let n = last.len() as int;
    let v = ascending_powers(last.len(), s);
    assert forall|i: int| 0 <= i < n implies #[trigger] apply(m, v)[i] == scaled(s, v)[i] by {
        if i == n - 1 {
            lemma_row_is(m, i, last);
        } else {
            let unit = Seq::new(last.len(), |j: int| if j == i + 1 { 1int } else { 0int });
            lemma_row_is(m, i, unit);
            lemma_dot_one_entry(unit, v, i + 1, 1);
        }
        lemma_pow_step(s, i as nat);
    }
    assert(apply(m, v) =~= scaled(s, v));
}

/// First row of the controllable canonical `A` for the monic denominator `den`.
pub open spec fn canonical_top(den: Seq<int>) -> Seq<int> {
    Seq::new((den.len() - 1) as nat, |j: int| -den[j + 1])
}

/// Output row of the controllable canonical realization of `num / den`.
pub open spec fn canonical_output_row(num: Seq<int>, den: Seq<int>) -> Seq<int> {
    Seq::new((den.len() - 1) as nat, |j: int| num[j + 1] - num[0] * den[j + 1])
}

/// The controllable canonical realization of `num / den` (`den` monic, both of
/// length `n + 1`) has transfer function `num / den`: driven by `u = den(s)`, the
/// state `x = (s^(n-1), ..., s, 1)` has rate `s x`, and the output is `num(s)`.
pub proof fn law_canonical_transfer(r: &Realization<int>, num: Seq<int>, den: Seq<int>, s: int)
    requires
        den.len() >= 2,
        den.len() <= usize::MAX,
        num.len() == den.len(),
        den[0] == 1,
        r.is_canonical_of(canonical_top(den), canonical_output_row(num, den), num[0], 0, 1),
    ensures
        state_rate(r, descending_powers((den.len() - 1) as nat, s), seq![poly_at(den, s)])
            == scaled(s, descending_powers((den.len() - 1) as nat, s)),
        output_of(r, descending_powers((den.len() - 1) as nat, s), seq![poly_at(den, s)])
            == seq![poly_at(num, s)],
{
    let n = (den.len() - 1) as nat;
    let x = descending_powers(n, s);
    let u0 = poly_at(den, s);
    let u = seq![u0];
    let top = canonical_top(den);
    let dt = den.drop_first();
    let nt = num.drop_first();
    lemma_poly_leading(den, s);
    lemma_poly_leading(num, s);
    assert(top =~= scaled(-1, dt));
    lemma_dot_scaled_left(-1, dt, x);
    assert forall|i: int| 0 <= i < n implies #[trigger] state_rate(r, x, u)[i] == scaled(s, x)[i] by {
        let bi: int = if i == 0 { 1 } else { 0 };
        lemma_row_is(&r.b, i, seq![bi]);
        lemma_dot_single(bi, u0);
        if i == 0 {
            lemma_row_is(&r.a, 0, top);
        } else {
            let unit = Seq::new(n, |j: int| if j == i - 1 { 1int } else { 0int });
            lemma_row_is(&r.a, i, unit);
            lemma_dot_one_entry(unit, x, i - 1, 1);
        }
        lemma_pow_step(s, (n - 1 - i) as nat);
        assert((n - 1 - i) as nat + 1 == (n - i) as nat);
    }
    assert(state_rate(r, x, u) =~= scaled(s, x));
    let c_row = canonical_output_row(num, den);
    let d0 = num[0];
    lemma_row_is(&r.c, 0, c_row);
    lemma_row_is(&r.d, 0, seq![d0]);
    lemma_dot_single(d0, u0);
    assert forall|j: int| 0 <= j < n implies #[trigger] c_row[j] == plus(nt, scaled(-d0, dt))[j]
        by {
        vstd::arithmetic::mul::lemma_mul_unary_negation(d0, dt[j]);
    }
    assert(c_row =~= plus(nt, scaled(-d0, dt)));
    lemma_dot_plus_left(nt, scaled(-d0, dt), x);
    lemma_dot_scaled_left(-d0, dt, x);
    let p = pow(s, n);
    let t = dot(dt, x);
    assert(d0 * (1 * p + t) == d0 * p + d0 * t) by (nonlinear_arith);
    assert((-d0) * t + d0 * t == 0) by (nonlinear_arith);
    assert(output_of(r, x, u) =~= seq![poly_at(num, s)]);
}

/// A row whose only nonzero entry is `c` at position `k` gives `c * x[k]`.
pub proof fn lemma_dot_one_entry(r: Seq<int>, x: Seq<int>, k: int, c: int)
    requires
        r.len() == x.len(),
        0 <= k < r.len(),
        forall|j: int| 0 <= j < r.len() ==> #[trigger] r[j] == if j == k {
            c
        } else {
            0int
        },
    ensures
        dot(r, x) == c * x[k],
    decreases r.len(),
{
    let last = r.len() - 1;
    assert(r.last() == r[last]);
    if k == last {
        assert forall|i: int| 0 <= i < r.drop_last().len() implies r.drop_last()[i] == 0 by {
            assert(r[i] == 0);
        }
        lemma_dot_zeros(r.drop_last(), x.drop_last());
    } else {
        assert forall|j: int| 0 <= j < r.drop_last().len() implies #[trigger] r.drop_last()[j]
            == if j == k {
            c
        } else {
            0int
        } by {
            assert(r[j] == r.drop_last()[j]);
        }
        lemma_dot_one_entry(r.drop_last(), x.drop_last(), k, c);
    }
}

/// A dot product over `m` consecutive chunks of length `n` is the sum of the
/// chunk products; when chunk `j` contributes `f[j] * h[j]`, the total is `dot(f, h)`.
pub proof fn lemma_dot_chunks(w: Seq<int>, v: Seq<int>, n: int, m: int, f: Seq<int>, h: Seq<int>)
    requires
        n > 0,
        m >= 0,
        w.len() == m * n,
        v.len() == m * n,
        f.len() == m,
        h.len() == m,
        forall|j: int|
            0 <= j < m ==> #[trigger] dot(w.subrange(j * n, j * n + n), v.subrange(j * n, j * n + n))
                == f[j] * h[j],
    ensures
        dot(w, v) == dot(f, h),
    decreases m,
{
    if m == 0 {
        assert(w.len() == 0) by (nonlinear_arith)
            requires
                w.len() == m * n,
                m == 0,
        ;
    } else {
        let cut = (m - 1) * n;
        assert(cut + n == m * n) by (nonlinear_arith)
            requires
                cut == (m - 1) * n,
        ;
        assert(0 <= cut) by (nonlinear_arith)
            requires
                cut == (m - 1) * n,
                m >= 1,
                n > 0,
        ;
        let wt = w.take(cut);
        let vt = v.take(cut);
        assert forall|j: int| 0 <= j < m - 1 implies #[trigger] dot(
            wt.subrange(j * n, j * n + n),
            vt.subrange(j * n, j * n + n),
        ) == f.drop_last()[j] * h.drop_last()[j] by {
            assert(j * n + n <= cut) by (nonlinear_arith)
                requires
                    0 <= j < m - 1,
                    cut == (m - 1) * n,
                    n > 0,
            ;
            assert(0 <= j * n) by (nonlinear_arith)
                requires
                    0 <= j,
                    n > 0,
            ;
            assert(wt.subrange(j * n, j * n + n) =~= w.subrange(j * n, j * n + n));
            assert(vt.subrange(j * n, j * n + n) =~= v.subrange(j * n, j * n + n));
            assert(dot(w.subrange(j * n, j * n + n), v.subrange(j * n, j * n + n)) == f[j] * h[j]);
        }
        lemma_dot_chunks(wt, vt, n, m - 1, f.drop_last(), h.drop_last());
        assert(w =~= wt + w.subrange(cut, cut + n));
        assert(v =~= vt + v.subrange(cut, cut + n));
        lemma_dot_concat(wt, w.subrange(cut, cut + n), vt, v.subrange(cut, cut + n));
        assert(dot(w.subrange((m - 1) * n, (m - 1) * n + n), v.subrange((m - 1) * n, (m - 1) * n + n))
            == f[m - 1] * h[m - 1]);
    }
}

/// Chunk `j` (length `n`) of a row-major listing of `p` is row `j` of `p`.
proof fn lemma_row_major_chunk(p: &Mat<int>, vp: Seq<int>, n: int, j: int)
    requires
        p.wf(),
        p.num_rows() == n,
        p.num_cols() == n,
        p.is_row_major(vp),
        0 <= j < n,
    ensures
        0 <= j * n,
        j * n + n <= n * n,
        vp.subrange(j * n, j * n + n) == p@[j],
{
    lemma_join_index(j, 0, n, n);
    assert(j * n + n <= n * n) by (nonlinear_arith)
        requires
            0 <= j < n,
    ;
    assert forall|l: int| 0 <= l < n implies #[trigger] vp.subrange(j * n, j * n + n)[l]
        == p@[j][l] by {
        lemma_join_index(j, l, n, n);
        assert(vp[j * n + l] == p.at((j * n + l) / n, (j * n + l) % n));
    }
    assert(vp.subrange(j * n, j * n + n) =~= p@[j]);
}

/// Row `i n + k` of `I (x) a` applied to the row-major listing of `p` is
/// `a[k] . p[i]`, entry `(i, k)` of `p a'`.
proof fn lemma_identity_kron_row(
    a: &Mat<int>,
    left: &Mat<int>,
    p: &Mat<int>,
    vp: Seq<int>,
    i: int,
    k: int,
)
    requires
        a.wf(),
        a.num_rows() == a.num_cols(),
        left.is_identity_kron_of(a, 0),
        p.wf(),
        p.num_rows() == a.num_rows(),
        p.num_cols() == a.num_rows(),
        p.is_row_major(vp),
        0 <= i < a.num_rows(),
        0 <= k < a.num_rows(),
    ensures
        0 <= i * a.num_rows() + k < left.num_rows(),
        apply(left, vp)[i * a.num_rows() + k] == dot(a@[k], p@[i]),
{
    let n = a.num_rows() as int;
    let r = i * n + k;
    lemma_join_index(i, k, n, n);
    let w = left@[r];
    let x = dot(a@[k], p@[i]);
    let f = Seq::new(n as nat, |j: int| if j == i { 1int } else { 0int });
    let h = Seq::new(n as nat, |_j: int| x);
    assert forall|j: int| 0 <= j < n implies #[trigger] dot(
        w.subrange(j * n, j * n + n),
        vp.subrange(j * n, j * n + n),
    ) == f[j] * h[j] by {
        lemma_row_major_chunk(p, vp, n, j);
        let chunk = w.subrange(j * n, j * n + n);
        assert forall|l: int| 0 <= l < n implies #[trigger] chunk[l] == if j == i {
            a@[k][l]
        } else {
            0int
        } by {
            lemma_join_index(j, l, n, n);
            assert(left.at(r, j * n + l) == identity_kron_entry(a, 0, r, j * n + l));
        }
        if j == i {
            assert(chunk =~= a@[k]);
        } else {
            lemma_dot_zeros(chunk, vp.subrange(j * n, j * n + n));
        }
    }
    lemma_dot_chunks(w, vp, n, n, f, h);
    lemma_dot_one_entry(f, h, i, 1);
}

/// Row `i n + k` of `a (x) I` applied to the row-major listing of `p` is
/// `a[i] . (column k of p)`, entry `(i, k)` of `a p`.
proof fn lemma_kron_identity_row(
    a: &Mat<int>,
    right: &Mat<int>,
    p: &Mat<int>,
    vp: Seq<int>,
    i: int,
    k: int,
)
    requires
        a.wf(),
        a.num_rows() == a.num_cols(),
        right.is_kron_identity_of(a, 0),
        p.wf(),
        p.num_rows() == a.num_rows(),
        p.num_cols() == a.num_rows(),
        p.is_row_major(vp),
        0 <= i < a.num_rows(),
        0 <= k < a.num_rows(),
    ensures
        0 <= i * a.num_rows() + k < right.num_rows(),
        apply(right, vp)[i * a.num_rows() + k] == dot(a@[i], column(p, k)),
{
    let n = a.num_rows() as int;
    let r = i * n + k;
    lemma_join_index(i, k, n, n);
    let w = right@[r];
    let f = a@[i];
    let h = column(p, k);
    assert forall|j: int| 0 <= j < n implies #[trigger] dot(
        w.subrange(j * n, j * n + n),
        vp.subrange(j * n, j * n + n),
    ) == f[j] * h[j] by {
        lemma_row_major_chunk(p, vp, n, j);
        let chunk = w.subrange(j * n, j * n + n);
        assert forall|l: int| 0 <= l < n implies #[trigger] chunk[l] == if l == k {
            a.at(i, j)
        } else {
            0int
        } by {
            lemma_join_index(j, l, n, n);
            assert(right.at(r, j * n + l) == kron_identity_entry(a, 0, r, j * n + l));
        }
        lemma_dot_one_entry(chunk, vp.subrange(j * n, j * n + n), k, a.at(i, j));
        assert(p@[j][k] == p.at(j, k));
    }
    lemma_dot_chunks(w, vp, n, n, f, h);
}

/// Solving the vectorized system solves the Lyapunov equation: if
/// `(I (x) A + A (x) I) vec(P) = vec(Q)`, listing row by row, then `A P + P A' = Q`.
pub proof fn law_lyapunov_vectorization(
    a: &Mat<int>,
    left: &Mat<int>,
    right: &Mat<int>,
    p: &Mat<int>,
    vp: Seq<int>,
    q: &Mat<int>,
    vq: Seq<int>,
)
    requires
        a.wf(),
        a.num_rows() == a.num_cols(),
        left.is_identity_kron_of(a, 0),
        right.is_kron_identity_of(a, 0),
        p.wf(),
        p.num_rows() == a.num_rows(),
        p.num_cols() == a.num_rows(),
        p.is_row_major(vp),
        q.is_read_from(vq, a.num_rows(), a.num_rows()),
        plus(apply(left, vp), apply(right, vp)) == vq,
    ensures
        forall|i: int, k: int|
            0 <= i < a.num_rows() && 0 <= k < a.num_rows() ==> #[trigger] q.at(i, k) == dot(
                a@[i],
                column(p, k),
            ) + dot(p@[i], a@[k]),
{
    let n = a.num_rows() as int;
    assert forall|i: int, k: int| 0 <= i < n && 0 <= k < n implies #[trigger] q.at(i, k) == dot(
        a@[i],
        column(p, k),
    ) + dot(p@[i], a@[k]) by {
        lemma_identity_kron_row(a, left, p, vp, i, k);
        lemma_kron_identity_row(a, right, p, vp, i, k);
        lemma_dot_symmetric(a@[k], p@[i]);
        assert(q.at(i, k) == vq[i * n + k]);
        assert(vq[i * n + k] == plus(apply(left, vp), apply(right, vp))[i * n + k]);
    }
}

} // verus!
