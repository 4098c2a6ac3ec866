//! Index bookkeeping of transfer functions: leading coefficients, padding of
//! numerators, and the companion forms used for roots and realizations.

use vstd::prelude::*;
use crate::matrix::Mat;
use crate::system::{Dims, Realization};

verus! {

/// Index of the leading significant coefficient: the first position flagged
/// as significant, or the last position when none is.
pub fn first_significant(flags: &Vec<bool>) -> (r: usize)
    requires
        flags@.len() > 0,
    ensures
        r < flags@.len(),
        (exists|i: int| 0 <= i < flags@.len() && flags@[i]) ==> flags@[r as int] && forall|k: int|
            0 <= k < r ==> !flags@[k],
        (forall|i: int| 0 <= i < flags@.len() ==> !flags@[i]) ==> r == flags@.len() - 1,
{
    let mut i: usize = 0;
    while i < flags.len()
        invariant
            i <= flags@.len(),
            forall|k: int| 0 <= k < i ==> !flags@[k],
        decreases flags@.len() - i,
    {
        if flags[i] {
            return i;
        }
        i = i + 1;
    }
    flags.len() - 1
}

/// `v` brought to length `len`: leading entries dropped when it is longer,
/// `zero` put in front when it is shorter.
pub open spec fn fit_length_spec<T>(v: Seq<T>, len: nat, zero: T) -> Seq<T> {
    if v.len() >= len {
        v.subrange(v.len() - len, v.len() as int)
    } else {
        Seq::new((len - v.len()) as nat, |_i: int| zero) + v
    }
}

/// Brings a coefficient list (highest power first) to length `len`,
/// dropping leading coefficients or padding in front with `zero`.
pub fn fit_length<T: Copy>(v: &Vec<T>, len: usize, zero: T) -> (r: Vec<T>)
    ensures
        r@ == fit_length_spec(v@, len as nat, zero),
        r@.len() == len,
        v@.len() >= len ==> r@ == v@.subrange(v@.len() - len, v@.len() as int),
        v@.len() < len ==> r@.subrange(len - v@.len(), len as int) == v@,
        v@.len() < len ==> forall|k: int| 0 <= k < len - v@.len() ==> #[trigger] r@[k] == zero,
{
    let mut out: Vec<T> = Vec::new();
    if v.len() >= len {
        let start = v.len() - len;
        let mut i: usize = start;
        while i < v.len()
            invariant
                start == v@.len() - len,
                start <= i <= v@.len(),
                out@ == v@.subrange(start as int, i as int),
            decreases v@.len() - i,
        {
            out.push(v[i]);
            i = i + 1;
            assert(out@ =~= v@.subrange(start as int, i as int));
        }
    } else {
        let pad = len - v.len();
        let mut i: usize = 0;
        while i < pad
            invariant
                i <= pad,
                out@ == Seq::new(i as nat, |_k: int| zero),
            decreases pad - i,
        {
            out.push(zero);
            i = i + 1;
            assert(out@ =~= Seq::new(i as nat, |_k: int| zero));
        }
        let ghost padded = out@;
        let mut j: usize = 0;
        while j < v.len()
            invariant
                j <= v@.len(),
                out@ == padded + v@.subrange(0, j as int),
            decreases v@.len() - j,
        {
            out.push(v[j]);
            j = j + 1;
            assert(out@ =~= padded + v@.subrange(0, j as int));
        }
        assert(v@.subrange(0, j as int) =~= v@);
    }
    assert(out@ =~= fit_length_spec(v@, len as nat, zero));
    proof {
        law_fit_length(v@, len as nat, zero);
    }
    out
}

/// Entry `(i, j)` of the controllable canonical state matrix whose first row is `top`:
/// `top` on the first row, ones on the subdiagonal, `zero` elsewhere.
pub open spec fn canonical_a_entry<T>(top: Seq<T>, zero: T, one: T, i: int, j: int) -> T {
    if i == 0 {
        top[j]
    } else if j == i - 1 {
        one
    } else {
        zero
    }
}

/// Entry `(i, j)` of the companion matrix whose last row is `last`:
/// ones on the superdiagonal above the last row, `last` on the last row.
pub open spec fn companion_entry<T>(last: Seq<T>, zero: T, one: T, i: int, j: int) -> T {
    if i == last.len() - 1 {
        last[j]
    } else if j == i + 1 {
        one
    } else {
        zero
    }
}

impl<T> Realization<T> {
    /// `self` is the controllable canonical realization of order `n = top.len()`:
    /// `A` has `top` on its first row and ones on the subdiagonal, `B` is the
    /// first unit vector, `C` is `c_row`, `D` is `d`.
    pub open spec fn is_canonical_of(&self, top: Seq<T>, c_row: Seq<T>, d: T, zero: T, one: T) -> bool {
        &&& self.has_dims(Dims { states: top.len() as usize, inputs: 1, outputs: 1 })
        &&& forall|i: int, j: int|
            0 <= i < top.len() && 0 <= j < top.len() ==> #[trigger] self.a.at(i, j)
                == canonical_a_entry(top, zero, one, i, j)
        &&& forall|i: int| 0 <= i < top.len() ==> #[trigger] self.b.at(i, 0) == if i == 0 {
            one
        } else {
            zero
        }
        &&& forall|j: int| 0 <= j < top.len() ==> #[trigger] self.c.at(0, j) == c_row[j]
        &&& self.d.at(0, 0) == d
    }
}

/// `m` is the `n` x `n` companion matrix with last row `last` (`n = last.len()`).
pub open spec fn is_companion_of<T>(m: &Mat<T>, last: Seq<T>, zero: T, one: T) -> bool {
    &&& m.wf()
    &&& m.num_rows() == last.len()
    &&& m.num_cols() == last.len()
    &&& forall|i: int, j: int|
        0 <= i < last.len() && 0 <= j < last.len() ==> #[trigger] m.at(i, j) == companion_entry(
            last,
            zero,
            one,
            i,
            j,
        )
}

/// The controllable canonical realization of order `n = top.len()`:
/// `A` has `top` on its first row and ones on the subdiagonal, `B` is the
/// first unit vector, `C` is `c_row`, `D` is `d`.
pub fn controllable_canonical<T: Copy>(
    top: &Vec<T>,
    c_row: Vec<T>,
    d: T,
    zero: T,
    one: T,
) -> (r: Realization<T>)
    requires
        top@.len() >= 1,
        c_row@.len() == top@.len(),
    ensures
        r.is_canonical_of(top@, c_row@, d, zero, one),
{
    let n = top.len();
    let mut a_rows: Vec<Vec<T>> = Vec::new();
    let mut b_rows: Vec<Vec<T>> = Vec::new();
    let mut i: usize = 0;
    while i < n
        invariant
            n == top@.len(),
            i <= n,
            a_rows@.len() == i,
            b_rows@.len() == i,
            forall|k: int| 0 <= k < i ==> (#[trigger] a_rows@[k])@.len() == n,
            forall|k: int| 0 <= k < i ==> (#[trigger] b_rows@[k])@.len() == 1,
            forall|k: int, j: int|
                0 <= k < i && 0 <= j < n ==> #[trigger] a_rows@[k]@[j] == canonical_a_entry(
                    top@,
                    zero,
                    one,
                    k,
                    j,
                ),
            forall|k: int| 0 <= k < i ==> #[trigger] b_rows@[k]@[0] == if k == 0 {
                one
            } else {
                zero
            },
        decreases n - i,
    {
        let mut row: Vec<T> = Vec::new();
        let mut j: usize = 0;
        while j < n
            invariant
                n == top@.len(),
                i < n,
                j <= n,
                row@.len() == j,
                forall|l: int| 0 <= l < j ==> #[trigger] row@[l] == canonical_a_entry(
                    top@,
                    zero,
                    one,
                    i as int,
                    l,
                ),
            decreases n - j,
        {
            if i == 0 {
                row.push(top[j]);
            } else if j + 1 == i {
                row.push(one);
            } else {
                row.push(zero);
            }
            j = j + 1;
        }
        a_rows.push(row);
        let mut b_row: Vec<T> = Vec::new();
        if i == 0 {
            b_row.push(one);
        } else {
            b_row.push(zero);
        }
        b_rows.push(b_row);
        i = i + 1;
    }
    let a = Mat::from_rows_exact(a_rows, n);
    let b = Mat::from_rows_exact(b_rows, 1);
    let c = Mat::row_vector(c_row);
    let mut d_row: Vec<T> = Vec::new();
    d_row.push(d);
    let d = Mat::row_vector(d_row);
    Realization { a, b, c, d }
}

/// The realization of a constant gain: one state, `A`, `B`, `C` zero, `D = gain`.
pub fn static_gain<T: Copy>(gain: T, zero: T) -> (r: Realization<T>)
    ensures
        r.has_dims(Dims { states: 1, inputs: 1, outputs: 1 }),
        r.a.at(0, 0) == zero,
        r.b.at(0, 0) == zero,
        r.c.at(0, 0) == zero,
        r.d.at(0, 0) == gain,
{
    let a = Mat::filled(1, 1, zero);
    let b = Mat::filled(1, 1, zero);
    let c = Mat::filled(1, 1, zero);
    let d = Mat::filled(1, 1, gain);
    Realization { a, b, c, d }
}

/// The companion matrix whose characteristic polynomial has the
/// normalized coefficients encoded in `last` (its last row).
pub fn companion<T: Copy>(last: &Vec<T>, zero: T, one: T) -> (r: Mat<T>)
    requires
        last@.len() >= 1,
    ensures
        is_companion_of(&r, last@, zero, one),
{
    let n = last.len();
    let mut rows: Vec<Vec<T>> = Vec::new();
    let mut i: usize = 0;
    while i < n
        invariant
            n == last@.len(),
            i <= n,
            rows@.len() == i,
            forall|k: int| 0 <= k < i ==> (#[trigger] rows@[k])@.len() == n,
            forall|k: int, j: int|
                0 <= k < i && 0 <= j < n ==> #[trigger] rows@[k]@[j] == companion_entry(
                    last@,
                    zero,
                    one,
                    k,
                    j,
                ),
        decreases n - i,
    {
        let mut row: Vec<T> = Vec::new();
        let mut j: usize = 0;
        while j < n
            invariant
                n == last@.len(),
                i < n,
                j <= n,
                row@.len() == j,
                forall|l: int| 0 <= l < j ==> #[trigger] row@[l] == companion_entry(
                    last@,
                    zero,
                    one,
                    i as int,
                    l,
                ),
            decreases n - j,
        {
            if i + 1 == n {
                row.push(last[j]);
            } else if j == i + 1 {
                row.push(one);
            } else {
                row.push(zero);
            }
            j = j + 1;
        }
        rows.push(row);
        i = i + 1;
    }
    Mat::from_rows_exact(rows, n)
}

/// Fitting keeps the trailing coefficients (the low powers) in place: a longer
/// list loses leading entries, a shorter one ends with itself after zeros, and
/// the result always has the requested length.
pub proof fn law_fit_length<T>(v: Seq<T>, len: nat, zero: T)
    ensures
        fit_length_spec(v, len, zero).len() == len,
        v.len() >= len ==> fit_length_spec(v, len, zero) == v.subrange(
            v.len() - len,
            v.len() as int,
        ),
        v.len() < len ==> fit_length_spec(v, len, zero).subrange(len - v.len(), len as int) == v,
        v.len() < len ==> forall|k: int|
            0 <= k < len - v.len() ==> #[trigger] fit_length_spec(v, len, zero)[k] == zero,
        forall|k: int|
            0 <= k < v.len() && k < len ==> #[trigger] fit_length_spec(v, len, zero)[len - 1 - k]
                == v[v.len() - 1 - k],
{
    let r = fit_length_spec(v, len, zero);
    if v.len() < len {
        assert(r.subrange(len - v.len(), len as int) =~= v);
    }
}

} // verus!
