//! The topology of a parsed robot description: link names and the joints that
//! connect them, as read from a URDF document.

use vstd::prelude::*;

use crate::error::{join3, text, Error};
use crate::joint::JointType;

verus! {

/// Joint kinds that a URDF document can declare.
#[derive(Clone, Copy, Debug, PartialEq, Eq, Structural)]
pub enum UrdfJointKind {
    /// Bounded rotation.
    Revolute,
    /// Unbounded rotation.
    Continuous,
    /// Translation.
    Prismatic,
    /// Rigid connection.
    Fixed,
    /// Six free degrees of freedom.
    Floating,
    /// Motion in a plane.
    Planar,
    /// Ball joint.
    Spherical,
}

/// One joint of a description: its name, the names of the links it connects,
/// and its declared kind.
#[derive(Clone, Debug)]
pub struct UrdfJoint {
    /// Joint name.
    pub name: String,
    /// Name of the parent link.
    pub parent: String,
    /// Name of the child link.
    pub child: String,
    /// Declared kind.
    pub kind: UrdfJointKind,
}

/// The link and joint topology of a robot description.
#[derive(Clone, Debug)]
pub struct UrdfGraph {
    /// Robot name.
    pub name: String,
    /// Link names, in document order.
    pub links: Vec<String>,
    /// Joints, in document order.
    pub joints: Vec<UrdfJoint>,
}

/// No two entries of `s` are equal.
pub open spec fn unique_names(s: Seq<Seq<char>>) -> bool {
    forall|i: int, j: int| 0 <= i < j < s.len() ==> s[i] != s[j]
}

/// The character views of a sequence of strings.
pub open spec fn names_of(v: Seq<String>) -> Seq<Seq<char>> {
    v.map_values(|s: String| s@)
}

/// Lexicographic order on pairs of integers.
pub open spec fn lex_lt(a0: int, a1: int, b0: int, b1: int) -> bool {
    a0 < b0 || (a0 == b0 && a1 < b1)
}

impl UrdfGraph {
    /// Name of link `i`.
    pub open spec fn link_name(&self, i: int) -> Seq<char> {
        self.links@[i]@
    }

    /// Name of joint `k`.
    pub open spec fn joint_name(&self, k: int) -> Seq<char> {
        self.joints@[k].name@
    }

    /// Name of the parent link of joint `k`.
    pub open spec fn parent_name(&self, k: int) -> Seq<char> {
        self.joints@[k].parent@
    }

    /// Name of the child link of joint `k`.
    pub open spec fn child_name(&self, k: int) -> Seq<char> {
        self.joints@[k].child@
    }

    /// Some link carries `name`.
    pub open spec fn has_link(&self, name: Seq<char>) -> bool {
        exists|i: int| 0 <= i < self.links@.len() && self.link_name(i) == name
    }

    /// Link names are pairwise distinct.
    pub open spec fn link_names_unique(&self) -> bool {
        unique_names(names_of(self.links@))
    }

    /// Joint names are pairwise distinct.
    pub open spec fn joint_names_unique(&self) -> bool {
        forall|i: int, j: int|
            0 <= i < j < self.joints@.len() ==> self.joint_name(i) != self.joint_name(j)
    }

    /// Link `i` is the child of some joint.
    pub open spec fn is_child_link(&self, i: int) -> bool {
        exists|k: int| 0 <= k < self.joints@.len() && self.child_name(k) == self.link_name(i)
    }

    /// Number of links among the first `n` that are the child of no joint.
    pub open spec fn root_count_upto(&self, n: int) -> nat
        decreases n,
    {
        if n <= 0 {
            0
        } else {
            self.root_count_upto(n - 1) + if self.is_child_link(n - 1) {
                0nat
            } else {
                1nat
            }
        }
    }

    /// Number of links that are the child of no joint.
    pub open spec fn root_count(&self) -> nat {
        self.root_count_upto(self.links@.len() as int)
    }
}

/// Lower-case name of a joint kind.
pub open spec fn kind_text(kind: UrdfJointKind) -> Seq<char> {
    match kind {
        UrdfJointKind::Revolute => "revolute"@,
        UrdfJointKind::Continuous => "continuous"@,
        UrdfJointKind::Prismatic => "prismatic"@,
        UrdfJointKind::Fixed => "fixed"@,
        UrdfJointKind::Floating => "floating"@,
        UrdfJointKind::Planar => "planar"@,
        UrdfJointKind::Spherical => "spherical"@,
    }
}

/// The motion type that a supported kind maps to.
pub open spec fn kind_motion(kind: UrdfJointKind) -> Option<JointType> {
    match kind {
        UrdfJointKind::Revolute | UrdfJointKind::Continuous => Some(JointType::Revolute),
        UrdfJointKind::Prismatic => Some(JointType::Prismatic),
        UrdfJointKind::Fixed => Some(JointType::Fixed),
        _ => None,
    }
}

/// Lower-case name of a joint kind.
pub fn kind_name(kind: UrdfJointKind) -> (r: &'static str)
    ensures
        r@ == kind_text(kind),
{
    match kind {
        UrdfJointKind::Revolute => "revolute",
        UrdfJointKind::Continuous => "continuous",
        UrdfJointKind::Prismatic => "prismatic",
        UrdfJointKind::Fixed => "fixed",
        UrdfJointKind::Floating => "floating",
        UrdfJointKind::Planar => "planar",
        UrdfJointKind::Spherical => "spherical",
    }
}

/// Maps a declared joint kind to the supported motion type: revolute and
/// continuous joints rotate, prismatic joints slide, fixed joints are rigid,
/// and every other kind is rejected.
pub fn supported_joint_type(joint: &UrdfJoint) -> (r: Result<JointType, Error>)
    ensures
        match kind_motion(joint.kind) {
            Some(t) => r == Ok::<JointType, Error>(t),
            None => r matches Err(Error::UnsupportedJointType { joint: j, joint_type: k })
                && j@ == joint.name@ && k@ == kind_text(joint.kind),
        },
{
    match joint.kind {
        UrdfJointKind::Revolute | UrdfJointKind::Continuous => Ok(JointType::Revolute),
        UrdfJointKind::Prismatic => Ok(JointType::Prismatic),
        UrdfJointKind::Fixed => Ok(JointType::Fixed),
        _ => Err(
            Error::UnsupportedJointType {
                joint: joint.name.clone(),
                joint_type: text(kind_name(joint.kind)),
            },
        ),
    }
}

/// Whether every link name occurs once.
pub fn all_names_distinct(v: &Vec<String>) -> (r: bool)
    ensures
        r == unique_names(names_of(v@)),
{
    let n = v.len();
    let mut j: usize = 0;
    while j < n
        invariant
            n == v@.len(),
            j <= n,
            forall|a: int, b: int| 0 <= a < b < j ==> v@[a]@ != v@[b]@,
        decreases n - j,
    {
        let mut i: usize = 0;
        while i < j
            invariant
                n == v@.len(),
                i <= j < n,
                forall|a: int| 0 <= a < i ==> v@[a]@ != v@[j as int]@,
            decreases j - i,
        {
            if v[i] == v[j] {
                proof {
                    assert(names_of(v@)[i as int] == names_of(v@)[j as int]);
                }
                return false;
            }
            i += 1;
        }
        j += 1;
    }
    proof {
        assert forall|a: int, b: int| 0 <= a < b < names_of(v@).len() implies names_of(v@)[a]
            != names_of(v@)[b] by {
            assert(names_of(v@)[a] == v@[a]@);
            assert(names_of(v@)[b] == v@[b]@);
        }
    }
    true
}

/// Position of the first string in `v` equal to `x`.
pub fn find_name(v: &Vec<String>, x: &String) -> (r: Option<usize>)
    ensures
        match r {
            Some(i) => i < v@.len() && v@[i as int]@ == x@ && forall|a: int|
                0 <= a < i ==> v@[a]@ != x@,
            None => forall|a: int| 0 <= a < v@.len() ==> v@[a]@ != x@,
        },
{
    let n = v.len();
    let mut i: usize = 0;
    while i < n
        invariant
            n == v@.len(),
            i <= n,
            forall|a: int| 0 <= a < i ==> v@[a]@ != x@,
        decreases n - i,
    {
        if v[i] == *x {
            return Some(i);
        }
        i += 1;
    }
    None
}

} // verus!
