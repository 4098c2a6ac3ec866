//! What the feedback layout means: with exact arithmetic, and loop blocks
//! that act as the products of the two systems' matrices and the inverses
//! `M = (I + D1 D2)^-1`, `M2 = (I + D2 D1)^-1`, the closed loop is `sys1`
//! driven by `u - sys2(y)` with `sys2` driven by the loop output `y`.

use vstd::prelude::*;
use crate::dynamics::{apply, dot, plus, state_rate, output_of, lemma_dot_concat,
    lemma_dot_plus_right, lemma_row_is};
use crate::interconnect::{feedback_violation, LoopBlocks};
use crate::matrix::Mat;
use crate::system::Realization;

verus! {

/// Entry-wise difference.
pub open spec fn minus(x: Seq<int>, y: Seq<int>) -> Seq<int> {
    Seq::new(x.len(), |i: int| x[i] - y[i])
}

/// Entry-wise negation.
pub open spec fn neg(x: Seq<int>) -> Seq<int> {
    Seq::new(x.len(), |i: int| -x[i])
}

proof fn lemma_dot_minus_right(r: Seq<int>, x: Seq<int>, y: Seq<int>)
    requires
        r.len() == x.len(),
        x.len() == y.len(),
    ensures
        dot(r, minus(x, y)) == dot(r, x) - dot(r, y),
    decreases r.len(),
{
    if r.len() > 0 {
        assert(minus(x, y).drop_last() =~= minus(x.drop_last(), y.drop_last()));
        lemma_dot_minus_right(r.drop_last(), x.drop_last(), y.drop_last());
        vstd::arithmetic::mul::lemma_mul_is_distributive_sub(r.last(), x.last(), y.last());
    }
}

proof fn lemma_dot_neg_right(r: Seq<int>, x: Seq<int>)
    requires
        r.len() == x.len(),
    ensures
        dot(r, neg(x)) == -dot(r, x),
    decreases r.len(),
{
    if r.len() > 0 {
        assert(neg(x).drop_last() =~= neg(x.drop_last()));
        lemma_dot_neg_right(r.drop_last(), x.drop_last());
        vstd::arithmetic::mul::lemma_mul_unary_negation(x.last(), r.last());
        vstd::arithmetic::mul::lemma_mul_is_commutative(r.last(), -x.last());
        vstd::arithmetic::mul::lemma_mul_is_commutative(r.last(), x.last());
    }
}

/// A matrix acts additively.
pub proof fn lemma_apply_plus(m: &Mat<int>, x: Seq<int>, y: Seq<int>)
    requires
        m.wf(),
        x.len() == m.num_cols(),
        y.len() == m.num_cols(),
    ensures
        apply(m, plus(x, y)) == plus(apply(m, x), apply(m, y)),
{
    assert forall|i: int| 0 <= i < m.num_rows() implies #[trigger] apply(m, plus(x, y))[i] == plus(
        apply(m, x),
        apply(m, y),
    )[i] by {
        lemma_dot_plus_right(m@[i], x, y);
    }
    assert(apply(m, plus(x, y)) =~= plus(apply(m, x), apply(m, y)));
}

/// A matrix acts on differences.
pub proof fn lemma_apply_minus(m: &Mat<int>, x: Seq<int>, y: Seq<int>)
    requires
        m.wf(),
        x.len() == m.num_cols(),
        y.len() == m.num_cols(),
    ensures
        apply(m, minus(x, y)) == minus(apply(m, x), apply(m, y)),
{
    assert forall|i: int| 0 <= i < m.num_rows() implies #[trigger] apply(m, minus(x, y))[i]
        == minus(apply(m, x), apply(m, y))[i] by {
        lemma_dot_minus_right(m@[i], x, y);
    }
    assert(apply(m, minus(x, y)) =~= minus(apply(m, x), apply(m, y)));
}

/// `m_inv` is a two-sided inverse of `I + f g` (`f` is `p` x `q`, `g` is `q` x `p`).
pub open spec fn inverts(m_inv: &Mat<int>, f: &Mat<int>, g: &Mat<int>) -> bool {
    let p = f.num_rows();
    &&& m_inv.wf()
    &&& m_inv.num_rows() == p
    &&& m_inv.num_cols() == p
    &&& forall|y: Seq<int>|
        y.len() == p ==> #[trigger] apply(m_inv, plus(y, apply(f, apply(g, y)))) == y
    &&& forall|y: Seq<int>|
        y.len() == p ==> plus(apply(m_inv, y), apply(f, apply(g, #[trigger] apply(m_inv, y))))
            == y
}

/// The loop blocks act as the products that define them, with `m_inv` for
/// `(I + D1 D2)^-1` and `m2_inv` for `(I + D2 D1)^-1`.
pub open spec fn blocks_act_as(
    blocks: LoopBlocks<int>,
    s1: &Realization<int>,
    s2: &Realization<int>,
    m_inv: &Mat<int>,
    m2_inv: &Mat<int>,
) -> bool {
    let n1 = s1.a.num_rows();
    let n2 = s2.a.num_rows();
    let m = s1.b.num_cols();
    &&& forall|x: Seq<int>|
        x.len() == n1 ==> #[trigger] apply(&blocks.a11, x) == minus(
            apply(&s1.a, x),
            apply(&s1.b, apply(&s2.d, apply(m_inv, apply(&s1.c, x)))),
        )
    &&& forall|x: Seq<int>|
        x.len() == n2 ==> #[trigger] apply(&blocks.a12, x) == neg(
            apply(&s1.b, apply(m2_inv, apply(&s2.c, x))),
        )
    &&& forall|x: Seq<int>|
        x.len() == n1 ==> #[trigger] apply(&blocks.a21, x) == apply(
            &s2.b,
            apply(m_inv, apply(&s1.c, x)),
        )
    &&& forall|x: Seq<int>|
        x.len() == n2 ==> #[trigger] apply(&blocks.a22, x) == minus(
            apply(&s2.a, x),
            apply(&s2.b, apply(m_inv, apply(&s1.d, apply(&s2.c, x)))),
        )
    &&& forall|u: Seq<int>|
        u.len() == m ==> #[trigger] apply(&blocks.b1, u) == apply(&s1.b, apply(m2_inv, u))
    &&& forall|u: Seq<int>|
        u.len() == m ==> #[trigger] apply(&blocks.b2, u) == apply(
            &s2.b,
            apply(m_inv, apply(&s1.d, u)),
        )
    &&& forall|x: Seq<int>|
        x.len() == n1 ==> #[trigger] apply(&blocks.c1, x) == apply(m_inv, apply(&s1.c, x))
    &&& forall|x: Seq<int>|
        x.len() == n2 ==> #[trigger] apply(&blocks.c2, x) == neg(
            apply(m_inv, apply(&s1.d, apply(&s2.c, x))),
        )
    &&& forall|u: Seq<int>|
        u.len() == m ==> #[trigger] apply(&blocks.d, u) == apply(m_inv, apply(&s1.d, u))
}

/// The signal entering `sys1`: `u` minus the output of `sys2` driven by `y`.
pub open spec fn loop_error(s2: &Realization<int>, x2: Seq<int>, y: Seq<int>, u: Seq<int>) -> Seq<
    int,
> {
    minus(u, output_of(s2, x2, y))
}

/// The closed loop `y = sys1(u - sys2(y))`: with `x = [x1; x2]` and `y` its output,
/// `y` is the output of `sys1` driven by `e = u - sys2(y)`, and the state rate is
/// that of `sys1` driven by `e` stacked on that of `sys2` driven by `y`.
pub proof fn law_feedback_dynamics(
    s1: &Realization<int>,
    s2: &Realization<int>,
    blocks: LoopBlocks<int>,
    m_inv: &Mat<int>,
    m2_inv: &Mat<int>,
    r: &Realization<int>,
    x1: Seq<int>,
    x2: Seq<int>,
    u: Seq<int>,
)
    requires
        s1.wf(),
        s2.wf(),
        feedback_violation(s1.dims_spec(), s2.dims_spec()) is None,
        s1.dims_spec().states + s2.dims_spec().states <= usize::MAX,
        blocks.fits(s1.dims_spec(), s2.dims_spec()),
        r.is_feedback_of(s1, s2, blocks),
        inverts(m_inv, &s1.d, &s2.d),
        inverts(m2_inv, &s2.d, &s1.d),
        blocks_act_as(blocks, s1, s2, m_inv, m2_inv),
        x1.len() == s1.dims_spec().states,
        x2.len() == s2.dims_spec().states,
        u.len() == s1.dims_spec().inputs,
    ensures
        output_of(r, x1 + x2, u) == output_of(
            s1,
            x1,
            loop_error(s2, x2, output_of(r, x1 + x2, u), u),
        ),
        state_rate(r, x1 + x2, u) == state_rate(
            s1,
            x1,
            loop_error(s2, x2, output_of(r, x1 + x2, u), u),
        ) + state_rate(s2, x2, output_of(r, x1 + x2, u)),
{
    let n1 = s1.a.num_rows() as int;
    let n2 = s2.a.num_rows() as int;
    let p = s1.c.num_rows() as int;
    let x = x1 + x2;
    let c1x = apply(&s1.c, x1);
    let c2x = apply(&s2.c, x2);
    let d1u = apply(&s1.d, u);
    let d1c2x = apply(&s1.d, c2x);
    let w = minus(u, c2x);
    let d1w = apply(&s1.d, w);
    let z = plus(c1x, d1w);
    let y0 = apply(m_inv, z);
    let mc1x = apply(m_inv, c1x);
    let md1w = apply(m_inv, d1w);
    let md1u = apply(m_inv, d1u);
    let md1c2x = apply(m_inv, d1c2x);
    // The loop output is M z.
    assert(apply(&blocks.c1, x1) == mc1x);
    assert(apply(&blocks.c2, x2) == neg(md1c2x));
    assert(apply(&blocks.d, u) == md1u);
    lemma_apply_minus(&s1.d, u, c2x);
    lemma_apply_plus(m_inv, c1x, d1w);
    lemma_apply_minus(m_inv, d1u, d1c2x);
    let y = output_of(r, x, u);
    assert forall|i: int| 0 <= i < p implies #[trigger] y[i] == y0[i] by {
        lemma_row_is(&r.c, i, blocks.c1@[i] + blocks.c2@[i]);
        lemma_dot_concat(blocks.c1@[i], blocks.c2@[i], x1, x2);
        assert(apply(&blocks.c1, x1)[i] == dot(blocks.c1@[i], x1));
        assert(apply(&blocks.c2, x2)[i] == dot(blocks.c2@[i], x2));
    }
    assert(y =~= y0);
    // The loop equation.
    let d2y = apply(&s2.d, y0);
    let e = loop_error(s2, x2, y, u);
    assert(e =~= minus(w, d2y));
    lemma_apply_minus(&s1.d, w, d2y);
    assert(plus(apply(m_inv, z), apply(&s1.d, apply(&s2.d, apply(m_inv, z)))) == z);
    let dd = apply(&s1.d, d2y);
    assert(apply(&s1.d, e) == minus(d1w, dd));
    assert forall|i: int| 0 <= i < p implies #[trigger] output_of(s1, x1, e)[i] == y0[i] by {
        assert(z[i] == y0[i] + dd[i]);
    }
    assert(output_of(s1, x1, e) =~= y0);
    // Push-through: M2 w = w - D2 M D1 w.
    let v = apply(m2_inv, w);
    let d1v = apply(&s1.d, v);
    assert(plus(apply(m2_inv, w), apply(&s2.d, apply(&s1.d, apply(m2_inv, w)))) == w);
    lemma_apply_plus(&s1.d, v, apply(&s2.d, d1v));
    assert(apply(m_inv, plus(d1v, apply(&s1.d, apply(&s2.d, d1v)))) == d1v);
    assert(d1w =~= plus(d1v, apply(&s1.d, apply(&s2.d, d1v))));
    let d2md1w = apply(&s2.d, md1w);
    assert(v =~= minus(w, d2md1w));
    // Rates.
    let d2mc1x = apply(&s2.d, mc1x);
    lemma_apply_plus(&s2.d, mc1x, md1w);
    lemma_apply_plus(&s1.b, d2mc1x, d2md1w);
    lemma_apply_minus(&s1.b, w, d2y);
    lemma_apply_minus(&s1.b, w, d2md1w);
    lemma_apply_minus(m2_inv, u, c2x);
    lemma_apply_minus(&s1.b, apply(m2_inv, u), apply(m2_inv, c2x));
    lemma_apply_plus(&s2.b, mc1x, minus(md1u, md1c2x));
    lemma_apply_minus(&s2.b, md1u, md1c2x);
    assert(apply(&blocks.a11, x1) == minus(apply(&s1.a, x1), apply(&s1.b, d2mc1x)));
    assert(apply(&blocks.a12, x2) == neg(apply(&s1.b, apply(m2_inv, c2x))));
    assert(apply(&blocks.a21, x1) == apply(&s2.b, mc1x));
    assert(apply(&blocks.a22, x2) == minus(apply(&s2.a, x2), apply(&s2.b, md1c2x)));
    assert(apply(&blocks.b1, u) == apply(&s1.b, apply(m2_inv, u)));
    assert(apply(&blocks.b2, u) == apply(&s2.b, md1u));
    let b1w = apply(&s1.b, w);
    let b1d2mc1x = apply(&s1.b, d2mc1x);
    let b1d2md1w = apply(&s1.b, d2md1w);
    assert(y0 == plus(mc1x, md1w));
    assert(d2y == plus(d2mc1x, d2md1w));
    assert(apply(&s1.b, d2y) == plus(b1d2mc1x, b1d2md1w));
    assert(apply(&s1.b, e) == minus(b1w, apply(&s1.b, d2y)));
    assert(apply(&s1.b, v) == minus(b1w, b1d2md1w));
    assert(v == minus(apply(m2_inv, u), apply(m2_inv, c2x)));
    assert(apply(&s1.b, v) == minus(apply(&s1.b, apply(m2_inv, u)), apply(&s1.b, apply(m2_inv, c2x))));
    assert(y0 == plus(mc1x, minus(md1u, md1c2x)));
    assert(apply(&s2.b, y0) == plus(apply(&s2.b, mc1x), minus(apply(&s2.b, md1u), apply(&s2.b, md1c2x))));
    let lhs = state_rate(r, x, u);
    let rhs = state_rate(s1, x1, e) + state_rate(s2, x2, y);
    assert forall|i: int| 0 <= i < n1 + n2 implies #[trigger] lhs[i] == rhs[i] by {
        if i < n1 {
            lemma_row_is(&r.a, i, blocks.a11@[i] + blocks.a12@[i]);
            lemma_row_is(&r.b, i, blocks.b1@[i]);
            lemma_dot_concat(blocks.a11@[i], blocks.a12@[i], x1, x2);
            assert(apply(&blocks.a11, x1)[i] == dot(blocks.a11@[i], x1));
            assert(apply(&blocks.a12, x2)[i] == dot(blocks.a12@[i], x2));
            assert(apply(&blocks.b1, u)[i] == dot(blocks.b1@[i], u));
            assert(apply(&s1.b, v)[i] == b1w[i] - b1d2md1w[i]);
            assert(apply(&s1.b, v)[i] == apply(&s1.b, apply(m2_inv, u))[i] - apply(&s1.b, apply(m2_inv, c2x))[i]);
            assert(apply(&s1.b, e)[i] == b1w[i] - b1d2mc1x[i] - b1d2md1w[i]);
        } else {
            let k = i - n1;
            lemma_row_is(&r.a, i, blocks.a21@[k] + blocks.a22@[k]);
            lemma_row_is(&r.b, i, blocks.b2@[k]);
            lemma_dot_concat(blocks.a21@[k], blocks.a22@[k], x1, x2);
            assert(apply(&blocks.a21, x1)[k] == dot(blocks.a21@[k], x1));
            assert(apply(&blocks.a22, x2)[k] == dot(blocks.a22@[k], x2));
            assert(apply(&blocks.b2, u)[k] == dot(blocks.b2@[k], u));
        }
    }
    assert(lhs =~= rhs);
}

} // verus!
