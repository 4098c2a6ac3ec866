# lau-linear-systems

Linear dynamical systems: state-space models, controllability and
observability, pole placement and LQR, Kalman filtering, transfer functions,
interconnection, discretization and system norms.

- `src/` is the verified core. It is generic over the matrix element type and
  holds everything that does not depend on floating-point arithmetic: the
  shape rules of models, estimators and designs; the block layouts of series,
  parallel and feedback connections, of controllability and observability
  matrices and of companion forms; the Kronecker and vectorization structure
  behind the Lyapunov solver; the split of a quasi-triangular form into
  eigenvalue blocks; and the rank count. Each function's contract states the
  size of its result and where each entry comes from. `dynamics` and
  `closed_loop` prove, with exact arithmetic on the entries, what the layouts
  mean: the series, parallel and feedback layouts give the state rate and
  output of the parts wired together; the observability matrix of `(A, C)` is
  the transposed controllability matrix of `(A', C')`; the Kronecker sum
  solves `A P + P A' = Q`; the controllable canonical realization has transfer
  function `num / den`; and the roots of a polynomial are eigenvalues of its
  companion matrix.
- `app/` is the numerical library on `nalgebra` and `num-complex` (with
  `serde` on the model types). It computes the floating-point quantities and
  calls the core for shapes and layouts.
- `tests/` exercises the core.
