//! Shape rules of the state estimators (Kalman filter, Luenberger observer).

use vstd::prelude::*;

verus! {

/// The first shape rule an estimator's matrices break.
#[derive(Clone, Copy, Debug, PartialEq, Eq, Structural)]
pub enum EstimatorShapeError {
    /// The process noise covariance `Q` does not have one row per state.
    QRows,
    /// The process noise covariance `Q` does not have one column per state.
    QCols,
    /// The measurement noise covariance `R` does not have one row per output.
    RRows,
    /// The measurement noise covariance `R` does not have one column per output.
    RCols,
    /// The observer gain `L` does not have one column per output.
    GainCols,
    /// The observer gain `L` does not have one row per state.
    GainRows,
}

/// The first rule broken by a Kalman filter with `states` states, `outputs`
/// outputs, and covariances of sizes `q` and `r` (each `(rows, cols)`).
pub open spec fn kalman_violation(
    states: usize,
    outputs: usize,
    q: (usize, usize),
    r: (usize, usize),
) -> Option<EstimatorShapeError> {
    if q.0 != states {
        Some(EstimatorShapeError::QRows)
    } else if q.1 != states {
        Some(EstimatorShapeError::QCols)
    } else if r.0 != outputs {
        Some(EstimatorShapeError::RRows)
    } else if r.1 != outputs {
        Some(EstimatorShapeError::RCols)
    } else {
        None
    }
}

/// Checks the covariance sizes of a Kalman filter.
pub fn check_kalman(states: usize, outputs: usize, q: (usize, usize), r: (usize, usize)) -> (res:
    Result<(), EstimatorShapeError>)
    ensures
        kalman_violation(states, outputs, q, r) matches Some(e) ==> res == Err::<
            (),
            EstimatorShapeError,
        >(e),
        kalman_violation(states, outputs, q, r) is None ==> res is Ok,
        res is Ok <==> q.0 == states && q.1 == states && r.0 == outputs && r.1 == outputs,
        res == Err::<(), EstimatorShapeError>(EstimatorShapeError::QRows) <==> q.0 != states,
        res == Err::<(), EstimatorShapeError>(EstimatorShapeError::QCols) <==> q.0 == states
            && q.1 != states,
        res == Err::<(), EstimatorShapeError>(EstimatorShapeError::RRows) <==> q.0 == states
            && q.1 == states && r.0 != outputs,
        res == Err::<(), EstimatorShapeError>(EstimatorShapeError::RCols) <==> q.0 == states
            && q.1 == states && r.0 == outputs && r.1 != outputs,
{
    if q.0 != states {
        Err(EstimatorShapeError::QRows)
    } else if q.1 != states {
        Err(EstimatorShapeError::QCols)
    } else if r.0 != outputs {
        Err(EstimatorShapeError::RRows)
    } else if r.1 != outputs {
        Err(EstimatorShapeError::RCols)
    } else {
        Ok(())
    }
}

/// The first rule broken by an observer gain of size `gain` for a system
/// with `states` states and `outputs` outputs (columns are checked first).
pub open spec fn observer_violation(states: usize, outputs: usize, gain: (usize, usize)) -> Option<
    EstimatorShapeError,
> {
    if gain.1 != outputs {
        Some(EstimatorShapeError::GainCols)
    } else if gain.0 != states {
        Some(EstimatorShapeError::GainRows)
    } else {
        None
    }
}

/// Checks the size of a Luenberger observer gain.
pub fn check_observer_gain(states: usize, outputs: usize, gain: (usize, usize)) -> (res: Result<
    (),
    EstimatorShapeError,
>)
    ensures
        observer_violation(states, outputs, gain) matches Some(e) ==> res == Err::<
            (),
            EstimatorShapeError,
        >(e),
        observer_violation(states, outputs, gain) is None ==> res is Ok,
        res is Ok <==> gain.0 == states && gain.1 == outputs,
        res == Err::<(), EstimatorShapeError>(EstimatorShapeError::GainCols) <==> gain.1 != outputs,
        res == Err::<(), EstimatorShapeError>(EstimatorShapeError::GainRows) <==> gain.1 == outputs
            && gain.0 != states,
{
    if gain.1 != outputs {
        Err(EstimatorShapeError::GainCols)
    } else if gain.0 != states {
        Err(EstimatorShapeError::GainRows)
    } else {
        Ok(())
    }
}

/// A Kalman filter is refused exactly when `Q` is not `states` x `states` or
/// `R` is not `outputs` x `outputs`; an observer gain exactly when it is not
/// `states` x `outputs`.
pub proof fn law_estimators_refused_iff_mismatch(
    states: usize,
    outputs: usize,
    q: (usize, usize),
    r: (usize, usize),
    gain: (usize, usize),
)
    ensures
        kalman_violation(states, outputs, q, r) is None <==> q.0 == states && q.1 == states && r.0
            == outputs && r.1 == outputs,
        observer_violation(states, outputs, gain) is None <==> gain.0 == states && gain.1
            == outputs,
{
}

} // verus!
