//! Shape rules of state-feedback design (Ackermann pole placement, LQR) and
//! the selector row of Ackermann's formula.

use vstd::prelude::*;
use crate::matrix::Mat;

verus! {

/// The first shape rule a feedback design problem breaks.
#[derive(Clone, Copy, Debug, PartialEq, Eq, Structural)]
pub enum DesignShapeError {
    /// Ackermann's formula needs exactly one input.
    NotSingleInput,
    /// The number of desired poles differs from the number of states.
    PoleCount,
    /// The state weight `Q` does not have one row per state.
    QRows,
    /// The state weight `Q` does not have one column per state.
    QCols,
    /// The input weight `R` does not have one row per input.
    RRows,
    /// The input weight `R` does not have one column per input.
    RCols,
}

/// The first rule broken when placing `poles` poles for a system with
/// `states` states and `inputs` inputs.
pub open spec fn ackermann_violation(states: usize, inputs: usize, poles: usize) -> Option<
    DesignShapeError,
> {
    if inputs != 1 {
        Some(DesignShapeError::NotSingleInput)
    } else if poles != states {
        Some(DesignShapeError::PoleCount)
    } else {
        None
    }
}

/// Checks a pole placement problem.
pub fn check_ackermann(states: usize, inputs: usize, poles: usize) -> (r: Result<
    (),
    DesignShapeError,
>)
    ensures
        ackermann_violation(states, inputs, poles) matches Some(e) ==> r == Err::<
            (),
            DesignShapeError,
        >(e),
        ackermann_violation(states, inputs, poles) is None ==> r is Ok,
        r is Ok <==> inputs == 1 && poles == states,
        r == Err::<(), DesignShapeError>(DesignShapeError::NotSingleInput) <==> inputs != 1,
        r == Err::<(), DesignShapeError>(DesignShapeError::PoleCount) <==> inputs == 1 && poles
            != states,
{
    if inputs != 1 {
        Err(DesignShapeError::NotSingleInput)
    } else if poles != states {
        Err(DesignShapeError::PoleCount)
    } else {
        Ok(())
    }
}

/// The first rule broken by LQR weights of sizes `q` and `r` for a system
/// with `states` states and `inputs` inputs.
pub open spec fn lqr_violation(
    states: usize,
    inputs: usize,
    q: (usize, usize),
    r: (usize, usize),
) -> Option<DesignShapeError> {
    if q.0 != states {
        Some(DesignShapeError::QRows)
    } else if q.1 != states {
        Some(DesignShapeError::QCols)
    } else if r.0 != inputs {
        Some(DesignShapeError::RRows)
    } else if r.1 != inputs {
        Some(DesignShapeError::RCols)
    } else {
        None
    }
}

/// Checks the weight sizes of an LQR problem.
pub fn check_lqr(states: usize, inputs: usize, q: (usize, usize), r: (usize, usize)) -> (res:
    Result<(), DesignShapeError>)
    ensures
        lqr_violation(states, inputs, q, r) matches Some(e) ==> res == Err::<(), DesignShapeError>(
            e,
        ),
        lqr_violation(states, inputs, q, r) is None ==> res is Ok,
        res is Ok <==> q.0 == states && q.1 == states && r.0 == inputs && r.1 == inputs,
        res == Err::<(), DesignShapeError>(DesignShapeError::QRows) <==> q.0 != states,
        res == Err::<(), DesignShapeError>(DesignShapeError::QCols) <==> q.0 == states && q.1
            != states,
        res == Err::<(), DesignShapeError>(DesignShapeError::RRows) <==> q.0 == states && q.1
            == states && r.0 != inputs,
        res == Err::<(), DesignShapeError>(DesignShapeError::RCols) <==> q.0 == states && q.1
            == states && r.0 == inputs && r.1 != inputs,
{
    if q.0 != states {
        Err(DesignShapeError::QRows)
    } else if q.1 != states {
        Err(DesignShapeError::QCols)
    } else if r.0 != inputs {
        Err(DesignShapeError::RRows)
    } else if r.1 != inputs {
        Err(DesignShapeError::RCols)
    } else {
        Ok(())
    }
}

/// The `1` x `n` row `[0, ..., 0, 1]` that picks the last row in Ackermann's formula.
pub fn last_unit_row<T: Copy>(n: usize, zero: T, one: T) -> (r: Mat<T>)
    requires
        n >= 1,
    ensures
        r.wf(),
        r.num_rows() == 1,
        r.num_cols() == n,
        forall|j: int| 0 <= j < n ==> #[trigger] r.at(0, j) == if j == n - 1 {
            one
        } else {
            zero
        },
{
    let mut row: Vec<T> = Vec::new();
    let mut j: usize = 0;
    while j < n
        invariant
            j <= n,
            row@.len() == j,
            forall|l: int| 0 <= l < j ==> #[trigger] row@[l] == if l == n - 1 {
                one
            } else {
                zero
            },
        decreases n - j,
    {
        if j + 1 == n {
            row.push(one);
        } else {
            row.push(zero);
        }
        j = j + 1;
    }
    Mat::row_vector(row)
}

/// Pole placement is refused exactly when there is not one input or the pole
/// count differs from the state count; LQR exactly when `Q` is not
/// `states` x `states` or `R` is not `inputs` x `inputs`.
pub proof fn law_designs_refused_iff_mismatch(
    states: usize,
    inputs: usize,
    poles: usize,
    q: (usize, usize),
    r: (usize, usize),
)
    ensures
        ackermann_violation(states, inputs, poles) is None <==> inputs == 1 && poles == states,
        lqr_violation(states, inputs, q, r) is None <==> q.0 == states && q.1 == states && r.0
            == inputs && r.1 == inputs,
{
}

} // verus!
