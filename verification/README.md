# dynibo

Robot kinematics and dynamics for tree-structured robots described in URDF.

The crate is split in two:

- `src/` is the verified library. It holds everything about a robot that is
  not floating point: validation of the link and joint graph of a description,
  the root-first breadth-first order of links and joints, the bookkeeping of
  active joints and their degrees of freedom, model-scoped link handles,
  ancestor paths, slice-length checks, error values and their messages, and
  the buffer checks made at the C calling boundary. Every function carries a
  contract that Verus proves; the laws that relate several functions are
  public proof functions.
- `app/` is ordinary Rust on top of the library: reading URDF files, and the
  floating-point work (rigid transforms, Jacobians, damped-least-squares
  inverse kinematics, Newton-Euler inverse dynamics, composite-rigid-body mass
  matrices and articulated-body forward dynamics), and the C calling
  interface (`app/c_api.rs`), whose buffer checks and link lookups are the
  library's.

`tests/` exercises the library through its public interface.
