//! Adapter for a robot model containing passive (unactuated) joints.

use vstd::prelude::*;

use crate::error::Error;
use crate::robot_arm::RobotArm;

verus! {

/// Mapping between actuator coordinates and the coordinates of every joint of
/// a model containing passive joints.
pub trait PassiveJointMap<const ACTIVE: usize, const ALL: usize> {
    /// Joint-space vector with one entry per actuated joint.
    type Active;
    /// Joint-space vector with one entry per model joint.
    type All;

    /// Expands actuator coordinates to coordinates of every joint.
    fn expand(&self, active: &Self::Active) -> Self::All;

    /// Reduces generalized forces on every joint to actuator forces.
    fn reduce_force(&self, all: &Self::All) -> Self::Active;
}

/// A robot arm with `ALL` joints driven through `ACTIVE` actuators.
#[derive(Clone, Debug)]
pub struct RobotWithPassiveJoints<
    const ACTIVE: usize,
    const ALL: usize,
    M: PassiveJointMap<ACTIVE, ALL>,
    J,
    L,
> {
    arm: RobotArm<J, L>,
    mapping: M,
}

impl<const ACTIVE: usize, const ALL: usize, M: PassiveJointMap<ACTIVE, ALL>, J, L>
    RobotWithPassiveJoints<ACTIVE, ALL, M, J, L> {
    /// The wrapped arm.
    pub closed spec fn spec_arm(&self) -> RobotArm<J, L> {
        self.arm
    }

    /// The joint mapping.
    pub closed spec fn spec_mapping(&self) -> M {
        self.mapping
    }

    /// Wraps `arm`, which must have exactly `ALL` joints.
    pub fn new(arm: RobotArm<J, L>, mapping: M) -> (r: Result<Self, Error>)
        ensures
            arm.view().joints.len() == ALL ==> (r matches Ok(w) && w.spec_arm() == arm
                && w.spec_mapping() == mapping),
            arm.view().joints.len() != ALL ==> (r matches Err(Error::WrongJointCount { expected, actual })
                && expected == arm.view().joints.len() && actual == ALL),
    {
        if arm.joint_count() != ALL {
            return Err(Error::WrongJointCount { expected: arm.joint_count(), actual: ALL });
        }
        Ok(RobotWithPassiveJoints { arm, mapping })
    }

    /// Returns the wrapped arm.
    pub fn arm(&self) -> (r: &RobotArm<J, L>)
        ensures
            *r == self.spec_arm(),
    {
        &self.arm
    }

    /// Returns the joint mapping.
    pub fn mapping(&self) -> (r: &M)
        ensures
            *r == self.spec_mapping(),
    {
        &self.mapping
    }
}

} // verus!
