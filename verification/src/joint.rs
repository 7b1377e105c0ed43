//! Joint motion types.

use vstd::prelude::*;

verus! {

/// Joint motion supported by a robot model.
#[derive(Clone, Copy, Debug, PartialEq, Eq, Structural)]
pub enum JointType {
    /// Rotation about the joint axis.
    Revolute,
    /// Translation along the joint axis.
    Prismatic,
    /// A rigid connection with no degree of freedom.
    Fixed,
}

impl JointType {
    /// Whether the joint contributes a degree of freedom.
    pub fn is_active(&self) -> (r: bool)
        ensures
            r == (*self != JointType::Fixed),
    {
        match self {
            JointType::Fixed => false,
            _ => true,
        }
    }
}

} // verus!
