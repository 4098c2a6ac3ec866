//! State-space realizations `(A, B, C, D)` and the shape rules they obey.

use vstd::prelude::*;
use crate::matrix::Mat;

verus! {

/// The sizes of a state-space model: `A` is `states` x `states`, `B` is
/// `states` x `inputs`, `C` is `outputs` x `states`, `D` is `outputs` x `inputs`.
#[derive(Clone, Copy, Debug, PartialEq, Eq, Structural)]
pub struct Dims {
    pub states: usize,
    pub inputs: usize,
    pub outputs: usize,
}

/// The first shape rule that a candidate `(A, B, C, D)` breaks.
#[derive(Clone, Copy, Debug, PartialEq, Eq, Structural)]
pub enum ShapeError {
    /// `A` is not square.
    ANotSquare,
    /// `A` and `B` have different numbers of rows.
    BRowsMismatch,
    /// `A` and `C` have different numbers of columns.
    CColsMismatch,
    /// `B` and `D` have different numbers of columns.
    DColsMismatch,
    /// `C` and `D` have different numbers of rows.
    DRowsMismatch,
}

/// The first shape rule broken by matrices of sizes `a`, `b`, `c`, `d`
/// (each `(rows, cols)`), checked in the order A square, B rows, C columns,
/// D columns, D rows; `None` when all hold.
pub open spec fn shape_violation(
    a: (usize, usize),
    b: (usize, usize),
    c: (usize, usize),
    d: (usize, usize),
) -> Option<ShapeError> {
    if a.0 != a.1 {
        Some(ShapeError::ANotSquare)
    } else if a.0 != b.0 {
        Some(ShapeError::BRowsMismatch)
    } else if a.1 != c.1 {
        Some(ShapeError::CColsMismatch)
    } else if b.1 != d.1 {
        Some(ShapeError::DColsMismatch)
    } else if c.0 != d.0 {
        Some(ShapeError::DRowsMismatch)
    } else {
        None
    }
}

/// Checks the sizes of `(A, B, C, D)`; on success the model's dimensions.
pub fn check_shapes(
    a: (usize, usize),
    b: (usize, usize),
    c: (usize, usize),
    d: (usize, usize),
) -> (r: Result<Dims, ShapeError>)
    ensures
        shape_violation(a, b, c, d) matches Some(e) ==> r == Err::<Dims, ShapeError>(e),
        shape_violation(a, b, c, d) is None ==> r == Ok::<Dims, ShapeError>(
            Dims { states: a.0, inputs: b.1, outputs: c.0 },
        ),
        r is Ok <==> a.0 == a.1 && a.0 == b.0 && a.1 == c.1 && b.1 == d.1 && c.0 == d.0,
        r matches Ok(dims) ==> dims.states == a.0 && dims.inputs == b.1 && dims.outputs == c.0,
        r == Err::<Dims, ShapeError>(ShapeError::ANotSquare) <==> a.0 != a.1,
        r == Err::<Dims, ShapeError>(ShapeError::BRowsMismatch) <==> a.0 == a.1 && a.0 != b.0,
        r == Err::<Dims, ShapeError>(ShapeError::CColsMismatch) <==> a.0 == a.1 && a.0 == b.0
            && a.1 != c.1,
        r == Err::<Dims, ShapeError>(ShapeError::DColsMismatch) <==> a.0 == a.1 && a.0 == b.0
            && a.1 == c.1 && b.1 != d.1,
        r == Err::<Dims, ShapeError>(ShapeError::DRowsMismatch) <==> a.0 == a.1 && a.0 == b.0
            && a.1 == c.1 && b.1 == d.1 && c.0 != d.0,
{
    if a.0 != a.1 {
        Err(ShapeError::ANotSquare)
    } else if a.0 != b.0 {
        Err(ShapeError::BRowsMismatch)
    } else if a.1 != c.1 {
        Err(ShapeError::CColsMismatch)
    } else if b.1 != d.1 {
        Err(ShapeError::DColsMismatch)
    } else if c.0 != d.0 {
        Err(ShapeError::DRowsMismatch)
    } else {
        Ok(Dims { states: a.0, inputs: b.1, outputs: c.0 })
    }
}

/// A state-space realization `dx = A x + B u`, `y = C x + D u`.
pub struct Realization<T> {
    pub a: Mat<T>,
    pub b: Mat<T>,
    pub c: Mat<T>,
    pub d: Mat<T>,
}

/// The size of a matrix as `(rows, cols)`.
pub open spec fn size_of<T>(m: &Mat<T>) -> (nat, nat) {
    (m.num_rows(), m.num_cols())
}

impl<T> Realization<T> {
    /// All four matrices are well formed and their sizes agree with `dims`.
    pub open spec fn has_dims(&self, dims: Dims) -> bool {
        &&& self.a.wf()
        &&& self.b.wf()
        &&& self.c.wf()
        &&& self.d.wf()
        &&& size_of(&self.a) == (dims.states as nat, dims.states as nat)
        &&& size_of(&self.b) == (dims.states as nat, dims.inputs as nat)
        &&& size_of(&self.c) == (dims.outputs as nat, dims.states as nat)
        &&& size_of(&self.d) == (dims.outputs as nat, dims.inputs as nat)
    }

    /// The dimensions read off `A`, `B` and `C`.
    pub open spec fn dims_spec(&self) -> Dims {
        Dims {
            states: self.a.num_rows() as usize,
            inputs: self.b.num_cols() as usize,
            outputs: self.c.num_rows() as usize,
        }
    }

    /// The four matrices fit together.
    pub open spec fn wf(&self) -> bool {
        self.has_dims(self.dims_spec())
    }

    /// Builds a realization, refusing matrices whose sizes do not fit together.
    pub fn new(a: Mat<T>, b: Mat<T>, c: Mat<T>, d: Mat<T>) -> (r: Result<Realization<T>, ShapeError>)
        requires
            a.wf(),
            b.wf(),
            c.wf(),
            d.wf(),
        ensures
            match shape_violation(
                (a.num_rows() as usize, a.num_cols() as usize),
                (b.num_rows() as usize, b.num_cols() as usize),
                (c.num_rows() as usize, c.num_cols() as usize),
                (d.num_rows() as usize, d.num_cols() as usize),
            ) {
                Some(e) => r == Err::<Realization<T>, ShapeError>(e),
                None => r matches Ok(s) && s.wf() && s.a == a && s.b == b && s.c == c && s.d == d,
            },
    {
        let shapes = check_shapes(
            (a.nrows(), a.ncols()),
            (b.nrows(), b.ncols()),
            (c.nrows(), c.ncols()),
            (d.nrows(), d.ncols()),
        );
        match shapes {
            Ok(_) => Ok(Realization { a, b, c, d }),
            Err(e) => Err(e),
        }
    }

    /// The model's dimensions.
    pub fn dims(&self) -> (r: Dims)
        requires
            self.wf(),
        ensures
            r == self.dims_spec(),
            self.has_dims(r),
    {
        Dims { states: self.a.nrows(), inputs: self.b.ncols(), outputs: self.c.nrows() }
    }

    /// Number of states.
    pub fn states(&self) -> (r: usize)
        requires
            self.wf(),
        ensures
            r == self.dims_spec().states,
    {
        self.a.nrows()
    }

    /// Number of inputs.
    pub fn inputs(&self) -> (r: usize)
        requires
            self.wf(),
        ensures
            r == self.dims_spec().inputs,
    {
        self.b.ncols()
    }

    /// Number of outputs.
    pub fn outputs(&self) -> (r: usize)
        requires
            self.wf(),
        ensures
            r == self.dims_spec().outputs,
    {
        self.c.nrows()
    }
}

/// A model is refused exactly when one of the five size rules fails.
pub proof fn law_shapes_refused_iff_mismatch(
    a: (usize, usize),
    b: (usize, usize),
    c: (usize, usize),
    d: (usize, usize),
)
    ensures
        shape_violation(a, b, c, d) is None <==> a.0 == a.1 && a.0 == b.0 && a.1 == c.1 && b.1
            == d.1 && c.0 == d.0,
{
}

} // verus!
