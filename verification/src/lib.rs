//! Tree-structured robot model topology: URDF graph validation, topological
//! ordering, degree-of-freedom bookkeeping and model-scoped link handles.

use vstd::prelude::*;

pub mod c_abi;
mod counting;
pub mod description;
pub mod error;
pub mod joint;
pub mod passive;
pub mod robot;
pub mod robot_arm;
pub mod tree;
pub mod urdf;

verus! {

} // verus!
