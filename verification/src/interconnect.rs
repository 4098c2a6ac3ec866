//! Series, parallel and feedback connection of two realizations: which
//! connections are allowed, the size of the result, and where each block of
//! the combined matrices comes from.
//!
//! The blocks that are products or sums of the two systems' matrices are
//! computed by the caller and handed in; this module places them.

use vstd::prelude::*;
use crate::matrix::{Mat, block_entry};
use crate::system::{Dims, Realization};

verus! {

/// A connection of two systems whose sizes do not fit.
#[derive(Clone, Copy, Debug, PartialEq, Eq, Structural)]
pub enum ConnectError {
    /// The first system's outputs do not match the second system's inputs.
    ForwardMismatch,
    /// The second system's outputs do not match the first system's inputs.
    ReturnMismatch,
    /// The two systems have different numbers of inputs.
    InputsMismatch,
    /// The two systems have different numbers of outputs.
    OutputsMismatch,
}

/// Why `sys1 -> sys2` cannot be formed, if it cannot.
pub open spec fn series_violation(d1: Dims, d2: Dims) -> Option<ConnectError> {
    if d1.outputs != d2.inputs {
        Some(ConnectError::ForwardMismatch)
    } else {
        None
    }
}

/// Why `sys1 + sys2` cannot be formed, if it cannot (inputs are checked first).
pub open spec fn parallel_violation(d1: Dims, d2: Dims) -> Option<ConnectError> {
    if d1.inputs != d2.inputs {
        Some(ConnectError::InputsMismatch)
    } else if d1.outputs != d2.outputs {
        Some(ConnectError::OutputsMismatch)
    } else {
        None
    }
}

/// Why the loop with `sys1` forward and `sys2` in the return path cannot be
/// formed, if it cannot (the forward path is checked first).
pub open spec fn feedback_violation(d1: Dims, d2: Dims) -> Option<ConnectError> {
    if d1.outputs != d2.inputs {
        Some(ConnectError::ForwardMismatch)
    } else if d2.outputs != d1.inputs {
        Some(ConnectError::ReturnMismatch)
    } else {
        None
    }
}

/// Dimensions of `sys1 -> sys2`: states add up, inputs of the first, outputs of the second.
pub open spec fn series_dims(d1: Dims, d2: Dims) -> Dims {
    Dims {
        states: (d1.states + d2.states) as usize,
        inputs: d1.inputs,
        outputs: d2.outputs,
    }
}

/// Dimensions of `sys1 + sys2` and of the feedback loop: states add up,
/// inputs and outputs of the first system.
pub open spec fn combined_dims(d1: Dims, d2: Dims) -> Dims {
    Dims {
        states: (d1.states + d2.states) as usize,
        inputs: d1.inputs,
        outputs: d1.outputs,
    }
}

/// Checks that `sys1 -> sys2` can be formed; on success its dimensions.
pub fn check_series(d1: Dims, d2: Dims) -> (r: Result<Dims, ConnectError>)
    requires
        d1.states + d2.states <= usize::MAX,
    ensures
        series_violation(d1, d2) matches Some(e) ==> r == Err::<Dims, ConnectError>(e),
        series_violation(d1, d2) is None ==> r == Ok::<Dims, ConnectError>(series_dims(d1, d2)),
        r is Ok <==> d1.outputs == d2.inputs,
        r is Err ==> r == Err::<Dims, ConnectError>(ConnectError::ForwardMismatch),
        r matches Ok(d) ==> d.states == d1.states + d2.states && d.inputs == d1.inputs
            && d.outputs == d2.outputs,
{
    if d1.outputs != d2.inputs {
        Err(ConnectError::ForwardMismatch)
    } else {
        Ok(Dims { states: d1.states + d2.states, inputs: d1.inputs, outputs: d2.outputs })
    }
}

/// Checks that `sys1 + sys2` can be formed; on success its dimensions.
pub fn check_parallel(d1: Dims, d2: Dims) -> (r: Result<Dims, ConnectError>)
    requires
        d1.states + d2.states <= usize::MAX,
    ensures
        parallel_violation(d1, d2) matches Some(e) ==> r == Err::<Dims, ConnectError>(e),
        parallel_violation(d1, d2) is None ==> r == Ok::<Dims, ConnectError>(
            combined_dims(d1, d2),
        ),
        r is Ok <==> d1.inputs == d2.inputs && d1.outputs == d2.outputs,
        r == Err::<Dims, ConnectError>(ConnectError::InputsMismatch) <==> d1.inputs != d2.inputs,
        r == Err::<Dims, ConnectError>(ConnectError::OutputsMismatch) <==> d1.inputs == d2.inputs
            && d1.outputs != d2.outputs,
        r matches Ok(d) ==> d.states == d1.states + d2.states && d.inputs == d1.inputs
            && d.outputs == d1.outputs,
{
    if d1.inputs != d2.inputs {
        Err(ConnectError::InputsMismatch)
    } else if d1.outputs != d2.outputs {
        Err(ConnectError::OutputsMismatch)
    } else {
        Ok(Dims { states: d1.states + d2.states, inputs: d1.inputs, outputs: d1.outputs })
    }
}

/// Checks that the feedback loop can be formed; on success its dimensions.
pub fn check_feedback(d1: Dims, d2: Dims) -> (r: Result<Dims, ConnectError>)
    requires
        d1.states + d2.states <= usize::MAX,
    ensures
        feedback_violation(d1, d2) matches Some(e) ==> r == Err::<Dims, ConnectError>(e),
        feedback_violation(d1, d2) is None ==> r == Ok::<Dims, ConnectError>(
            combined_dims(d1, d2),
        ),
        r is Ok <==> d1.outputs == d2.inputs && d2.outputs == d1.inputs,
        r == Err::<Dims, ConnectError>(ConnectError::ForwardMismatch) <==> d1.outputs != d2.inputs,
        r == Err::<Dims, ConnectError>(ConnectError::ReturnMismatch) <==> d1.outputs == d2.inputs
            && d2.outputs != d1.inputs,
        r matches Ok(d) ==> d.states == d1.states + d2.states && d.inputs == d1.inputs
            && d.outputs == d1.outputs,
{
    if d1.outputs != d2.inputs {
        Err(ConnectError::ForwardMismatch)
    } else if d2.outputs != d1.inputs {
        Err(ConnectError::ReturnMismatch)
    } else {
        Ok(Dims { states: d1.states + d2.states, inputs: d1.inputs, outputs: d1.outputs })
    }
}

/// Entry `(i, j)` of `[tl, 0; bl, br]`, where `tl` is `n1` x `n1`.
pub open spec fn lower_block_entry<T>(
    tl: &Mat<T>,
    bl: &Mat<T>,
    br: &Mat<T>,
    zero: T,
    i: int,
    j: int,
) -> T {
    let n1 = tl.num_rows() as int;
    if i < n1 {
        if j < n1 {
            tl.at(i, j)
        } else {
            zero
        }
    } else {
        if j < n1 {
            bl.at(i - n1, j)
        } else {
            br.at(i - n1, j - n1)
        }
    }
}

/// Entry `(i, j)` of `[top; bottom]`.
pub open spec fn stacked_entry<T>(top: &Mat<T>, bottom: &Mat<T>, i: int, j: int) -> T {
    if i < top.num_rows() {
        top.at(i, j)
    } else {
        bottom.at(i - top.num_rows(), j)
    }
}

/// Entry `(i, j)` of `[left, right]`.
pub open spec fn side_by_side_entry<T>(left: &Mat<T>, right: &Mat<T>, i: int, j: int) -> T {
    if j < left.num_cols() {
        left.at(i, j)
    } else {
        right.at(i, j - left.num_cols())
    }
}

/// Every entry of `m` inside its size equals `f(i, j)`.
pub open spec fn entries_are<T>(m: &Mat<T>, f: spec_fn(int, int) -> T) -> bool {
    forall|i: int, j: int|
        0 <= i < m.num_rows() && 0 <= j < m.num_cols() ==> #[trigger] m.at(i, j) == f(i, j)
}

/// `m` is a well-formed `rows` x `cols` matrix.
pub open spec fn sized<T>(m: &Mat<T>, rows: usize, cols: usize) -> bool {
    &&& m.wf()
    &&& m.num_rows() == rows
    &&& m.num_cols() == cols
}

impl<T> Realization<T> {
    /// `self` is `s1 -> s2` laid out as `A = [A1, 0; b2c1, A2]`, `B = [B1; b2d1]`,
    /// `C = [d2c1, C2]`, `D = d2d1`, with `zero` in the empty block.
    pub open spec fn is_series_of(
        &self,
        s1: &Realization<T>,
        s2: &Realization<T>,
        b2c1: &Mat<T>,
        b2d1: &Mat<T>,
        d2c1: &Mat<T>,
        d2d1: Mat<T>,
        zero: T,
    ) -> bool {
        &&& self.has_dims(series_dims(s1.dims_spec(), s2.dims_spec()))
        &&& entries_are(
            &self.a,
            |i: int, j: int| lower_block_entry(&s1.a, b2c1, &s2.a, zero, i, j),
        )
        &&& entries_are(&self.b, |i: int, j: int| stacked_entry(&s1.b, b2d1, i, j))
        &&& entries_are(&self.c, |i: int, j: int| side_by_side_entry(d2c1, &s2.c, i, j))
        &&& self.d == d2d1
    }

    /// `self` is `s1 + s2` laid out as `A = [A1, 0; 0, A2]`, `B = [B1; B2]`,
    /// `C = [C1, C2]`, `D = d_sum`, with `zero` in the empty blocks.
    pub open spec fn is_parallel_of(
        &self,
        s1: &Realization<T>,
        s2: &Realization<T>,
        d_sum: Mat<T>,
        zero: T,
    ) -> bool {
        &&& self.has_dims(combined_dims(s1.dims_spec(), s2.dims_spec()))
        &&& entries_are(
            &self.a,
            |i: int, j: int|
                {
                    let n1 = s1.a.num_rows() as int;
                    if i < n1 && j < n1 {
                        s1.a.at(i, j)
                    } else if i >= n1 && j >= n1 {
                        s2.a.at(i - n1, j - n1)
                    } else {
                        zero
                    }
                },
        )
        &&& entries_are(&self.b, |i: int, j: int| stacked_entry(&s1.b, &s2.b, i, j))
        &&& entries_are(&self.c, |i: int, j: int| side_by_side_entry(&s1.c, &s2.c, i, j))
        &&& self.d == d_sum
    }
}

/// Series connection `sys1 -> sys2`:
/// `A = [A1, 0; B2 C1, A2]`, `B = [B1; B2 D1]`, `C = [D2 C1, C2]`, `D = D2 D1`,
/// given the products `B2 C1`, `B2 D1`, `D2 C1`, `D2 D1`.
pub fn series<T: Copy>(
    s1: &Realization<T>,
    s2: &Realization<T>,
    b2c1: &Mat<T>,
    b2d1: &Mat<T>,
    d2c1: &Mat<T>,
    d2d1: Mat<T>,
    zero: T,
) -> (r: Realization<T>)
    requires
        s1.wf(),
        s2.wf(),
        series_violation(s1.dims_spec(), s2.dims_spec()) is None,
        s1.dims_spec().states + s2.dims_spec().states <= usize::MAX,
        sized(b2c1, s2.dims_spec().states, s1.dims_spec().states),
        sized(b2d1, s2.dims_spec().states, s1.dims_spec().inputs),
        sized(d2c1, s2.dims_spec().outputs, s1.dims_spec().states),
        sized(&d2d1, s2.dims_spec().outputs, s1.dims_spec().inputs),
    ensures
        r.is_series_of(s1, s2, b2c1, b2d1, d2c1, d2d1, zero),
{
    let d1 = s1.dims();
    let d2 = s2.dims();
    let zeros = Mat::filled(d1.states, d2.states, zero);
    let a = Mat::block2x2(&s1.a, &zeros, b2c1, &s2.a);
    let b = s1.b.above(b2d1);
    let c = d2c1.beside(&s2.c);
    let r = Realization { a, b, c, d: d2d1 };
    assert(entries_are(&r.a, |i: int, j: int| lower_block_entry(&s1.a, b2c1, &s2.a, zero, i, j)))
        by {
        assert forall|i: int, j: int|
            0 <= i < r.a.num_rows() && 0 <= j < r.a.num_cols() implies #[trigger] r.a.at(i, j)
            == lower_block_entry(&s1.a, b2c1, &s2.a, zero, i, j) by {
            assert(r.a.at(i, j) == block_entry(&s1.a, &zeros, b2c1, &s2.a, i, j));
        }
    }
    r
}

/// Parallel connection `y = sys1(u) + sys2(u)`:
/// `A = [A1, 0; 0, A2]`, `B = [B1; B2]`, `C = [C1, C2]`, `D = D1 + D2`,
/// given the sum `D1 + D2`.
pub fn parallel<T: Copy>(
    s1: &Realization<T>,
    s2: &Realization<T>,
    d_sum: Mat<T>,
    zero: T,
) -> (r: Realization<T>)
    requires
        s1.wf(),
        s2.wf(),
        parallel_violation(s1.dims_spec(), s2.dims_spec()) is None,
        s1.dims_spec().states + s2.dims_spec().states <= usize::MAX,
        sized(&d_sum, s1.dims_spec().outputs, s1.dims_spec().inputs),
    ensures
        r.is_parallel_of(s1, s2, d_sum, zero),
{
    let d1 = s1.dims();
    let d2 = s2.dims();
    let upper = Mat::filled(d1.states, d2.states, zero);
    let lower = Mat::filled(d2.states, d1.states, zero);
    let a = Mat::block2x2(&s1.a, &upper, &lower, &s2.a);
    let b = s1.b.above(&s2.b);
    let c = s1.c.beside(&s2.c);
    Realization { a, b, c, d: d_sum }
}

/// The blocks of a closed loop, computed by the caller from the two systems
/// and the inverses `(I + D1 D2)^-1`, `(I + D2 D1)^-1`.
pub struct LoopBlocks<T> {
    /// `A1 - B1 D2 M C1` (`n1` x `n1`).
    pub a11: Mat<T>,
    /// `-B1 M2 C2` (`n1` x `n2`).
    pub a12: Mat<T>,
    /// `B2 M C1` (`n2` x `n1`).
    pub a21: Mat<T>,
    /// `A2 - B2 M D1 C2` (`n2` x `n2`).
    pub a22: Mat<T>,
    /// `B1 M2` (`n1` x `m`).
    pub b1: Mat<T>,
    /// `B2 M D1` (`n2` x `m`).
    pub b2: Mat<T>,
    /// `M C1` (`p` x `n1`).
    pub c1: Mat<T>,
    /// `-M D1 C2` (`p` x `n2`).
    pub c2: Mat<T>,
    /// `M D1` (`p` x `m`).
    pub d: Mat<T>,
}

impl<T> LoopBlocks<T> {
    /// Every block has the size its place in the closed loop asks for.
    pub open spec fn fits(&self, d1: Dims, d2: Dims) -> bool {
        &&& sized(&self.a11, d1.states, d1.states)
        &&& sized(&self.a12, d1.states, d2.states)
        &&& sized(&self.a21, d2.states, d1.states)
        &&& sized(&self.a22, d2.states, d2.states)
        &&& sized(&self.b1, d1.states, d1.inputs)
        &&& sized(&self.b2, d2.states, d1.inputs)
        &&& sized(&self.c1, d1.outputs, d1.states)
        &&& sized(&self.c2, d1.outputs, d2.states)
        &&& sized(&self.d, d1.outputs, d1.inputs)
    }
}

impl<T> Realization<T> {
    /// `self` is the closed loop laid out from `blocks`:
    /// `A = [a11, a12; a21, a22]`, `B = [b1; b2]`, `C = [c1, c2]`, `D = d`.
    pub open spec fn is_feedback_of(
        &self,
        s1: &Realization<T>,
        s2: &Realization<T>,
        blocks: LoopBlocks<T>,
    ) -> bool {
        &&& self.has_dims(combined_dims(s1.dims_spec(), s2.dims_spec()))
        &&& entries_are(
            &self.a,
            |i: int, j: int| block_entry(&blocks.a11, &blocks.a12, &blocks.a21, &blocks.a22, i, j),
        )
        &&& entries_are(&self.b, |i: int, j: int| stacked_entry(&blocks.b1, &blocks.b2, i, j))
        &&& entries_are(
            &self.c,
            |i: int, j: int| side_by_side_entry(&blocks.c1, &blocks.c2, i, j),
        )
        &&& self.d == blocks.d
    }
}

/// Feedback connection with `sys1` forward and `sys2` in the return path:
/// `A = [a11, a12; a21, a22]`, `B = [b1; b2]`, `C = [c1, c2]`, `D = d`.
pub fn feedback<T: Copy>(
    s1: &Realization<T>,
    s2: &Realization<T>,
    blocks: LoopBlocks<T>,
) -> (r: Realization<T>)
    requires
        s1.wf(),
        s2.wf(),
        feedback_violation(s1.dims_spec(), s2.dims_spec()) is None,
        s1.dims_spec().states + s2.dims_spec().states <= usize::MAX,
        blocks.fits(s1.dims_spec(), s2.dims_spec()),
    ensures
        r.is_feedback_of(s1, s2, blocks),
{
    let a = Mat::block2x2(&blocks.a11, &blocks.a12, &blocks.a21, &blocks.a22);
    let b = blocks.b1.above(&blocks.b2);
    let c = blocks.c1.beside(&blocks.c2);
    Realization { a, b, c, d: blocks.d }
}

/// Chaining three systems in series has the same dimensions whichever pair is joined first.
pub proof fn law_series_dims_associative(d1: Dims, d2: Dims, d3: Dims)
    requires
        series_violation(d1, d2) is None,
        series_violation(d2, d3) is None,
        d1.states + d2.states + d3.states <= usize::MAX,
    ensures
        series_violation(series_dims(d1, d2), d3) is None,
        series_violation(d1, series_dims(d2, d3)) is None,
        series_dims(series_dims(d1, d2), d3) == series_dims(d1, series_dims(d2, d3)),
{
}

/// A parallel connection can be formed in either order, with the same dimensions.
pub proof fn law_parallel_dims_symmetric(d1: Dims, d2: Dims)
    requires
        d1.states + d2.states <= usize::MAX,
    ensures
        parallel_violation(d1, d2) is None <==> parallel_violation(d2, d1) is None,
        parallel_violation(d1, d2) is None ==> combined_dims(d1, d2) == combined_dims(d2, d1),
{
}

/// A series connection is refused exactly when the first system's outputs
/// differ from the second system's inputs.
pub proof fn law_series_refused_iff_mismatch(d1: Dims, d2: Dims)
    ensures
        series_violation(d1, d2) is None <==> d1.outputs == d2.inputs,
{
}

/// A parallel connection is refused exactly when the inputs or the outputs differ.
pub proof fn law_parallel_refused_iff_mismatch(d1: Dims, d2: Dims)
    ensures
        parallel_violation(d1, d2) is None <==> d1.inputs == d2.inputs && d1.outputs == d2.outputs,
{
}

/// A feedback loop is refused exactly when either path's sizes do not meet.
pub proof fn law_feedback_refused_iff_mismatch(d1: Dims, d2: Dims)
    ensures
        feedback_violation(d1, d2) is None <==> d1.outputs == d2.inputs && d2.outputs
            == d1.inputs,
{
}

/// The connected system has the states of both parts.
pub proof fn law_connected_states_add(d1: Dims, d2: Dims)
    requires
        d1.states + d2.states <= usize::MAX,
    ensures
        series_dims(d1, d2).states == d1.states + d2.states,
        series_dims(d1, d2).inputs == d1.inputs,
        series_dims(d1, d2).outputs == d2.outputs,
        combined_dims(d1, d2).states == d1.states + d2.states,
        combined_dims(d1, d2).inputs == d1.inputs,
        combined_dims(d1, d2).outputs == d1.outputs,
{
}

} // verus!
