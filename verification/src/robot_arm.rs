//! A robot model whose links and joints carry caller-chosen payloads, built
//! from the breadth-first walk of a description, with numeric link identifiers.

use vstd::prelude::*;

use crate::description::{names_of, unique_names, UrdfGraph};
use crate::error::{text, Error};
use crate::tree::lemma_unique_link;
use crate::urdf::{leaves, is_leaf_list, is_walk, walk_is_complete, walk_precondition_fault, walk_stopped_at, TreeWalk};

verus! {

/// Stable numeric identifier for a link in one loaded robot model.
#[derive(Clone, Copy, Debug, PartialEq, Eq, Hash, Structural)]
pub struct LinkId(usize);

impl LinkId {
    /// The link position this identifier names.
    pub closed spec fn position(&self) -> usize {
        self.0
    }

    /// The identifier of the link at position `index`.
    pub fn from_index(index: usize) -> (r: Self)
        ensures
            r.position() == index,
    {
        LinkId(index)
    }

    /// The link position this identifier names.
    pub fn index(self) -> (r: usize)
        ensures
            r == self.position(),
    {
        self.0
    }
}

/// An identifier is determined by the position it names.
pub proof fn lemma_position_identifies(a: LinkId, b: LinkId)
    ensures
        a.position() == b.position() ==> a == b,
{
}

/// Abstract contents of a [`RobotArm`].
pub struct ArmView<J, L> {
    /// Robot name.
    pub name: Seq<char>,
    /// Joint payloads; joint `j` has child link `j + 1`.
    pub joints: Seq<J>,
    /// Link payloads in root-first order.
    pub links: Seq<L>,
    /// Link names in root-first order.
    pub link_names: Seq<Seq<char>>,
    /// Position of the parent link of joint `j`.
    pub parents: Seq<usize>,
    /// Positions of the links that no joint leaves, ascending.
    pub leaves: Seq<usize>,
}

impl<J, L> ArmView<J, L> {
    /// The structural facts every arm satisfies.
    pub open spec fn well_formed(&self) -> bool {
        &&& self.links.len() == self.joints.len() + 1
        &&& self.link_names.len() == self.links.len()
        &&& self.parents.len() == self.joints.len()
        &&& unique_names(self.link_names)
        &&& forall|j: int| 0 <= j < self.parents.len() ==> (#[trigger] self.parents[j]) <= j
        &&& forall|i: int| 0 <= i < self.leaves.len() ==> (#[trigger] self.leaves[i]) < self.links.len()
        &&& forall|i: int, k: int| 0 <= i < k < self.leaves.len() ==> self.leaves[i] < self.leaves[k]
        &&& forall|p: int|
            #![trigger self.leaves.contains(p as usize)]
            0 <= p < self.links.len() ==> (self.leaves.contains(p as usize) <==> forall|j: int|
                0 <= j < self.parents.len() ==> self.parents[j] != p)
    }
}

/// Runtime-sized robot model whose joints and links carry payloads `J` and `L`.
#[derive(Clone, Debug)]
pub struct RobotArm<J, L> {
    name: String,
    joints: Vec<J>,
    links: Vec<L>,
    link_names: Vec<String>,
    joint_parents: Vec<LinkId>,
    leaf_links: Vec<LinkId>,
}

impl<J, L> RobotArm<J, L> {
    /// Abstract contents of the arm.
    pub closed spec fn view(&self) -> ArmView<J, L> {
        ArmView {
            name: self.name@,
            joints: self.joints@,
            links: self.links@,
            link_names: names_of(self.link_names@),
            parents: self.joint_parents@.map_values(|l: LinkId| l.0),
            leaves: self.leaf_links@.map_values(|l: LinkId| l.0),
        }
    }

    /// The arm's structural facts hold.
    pub open spec fn wf(&self) -> bool {
        self.view().well_formed()
    }

    /// Builds an arm from a walk of `g` and the payloads of the walked links and
    /// joints, in walk order.
    ///
    /// A walk that stopped early returns the problem that stopped it; a walk
    /// that left links or joints unreached is rejected as disconnected.
    pub fn from_walk(g: &UrdfGraph, walk: TreeWalk, links: Vec<L>, joints: Vec<J>) -> (r: Result<
        Self,
        Error,
    >)
        requires
            walk_precondition_fault(g) is None,
            is_walk(g, walk.order.links@, walk.order.joints@, walk.order.parent_link_indices@),
            walk.fault is None ==> walk_is_complete(g, walk.order.links@, walk.order.joints@)
                && is_leaf_list(g, walk.order.links@, walk.leaf_links@),
            links@.len() == walk.order.links@.len(),
            joints@.len() == walk.order.joints@.len(),
        ensures
            walk.fault matches Some(f) ==> r == Err::<Self, Error>(f),
            walk.fault is None && (walk.order.joints@.len() != g.joints@.len()
                || walk.order.links@.len() != g.links@.len()) ==> (r matches Err(Error::InvalidModel(e))
                && e@ == "joint graph is disconnected or cyclic"@),
            walk.fault is None && walk.order.joints@.len() == g.joints@.len()
                && walk.order.links@.len() == g.links@.len() ==> r is Ok,
            r matches Ok(arm) ==> {
                &&& walk.fault is None
                &&& walk.order.joints@.len() == g.joints@.len()
                &&& walk.order.links@.len() == g.links@.len()
                &&& arm.wf()
                &&& arm.view().name == g.name@
                &&& arm.view().links == links@
                &&& arm.view().joints == joints@
                &&& arm.view().parents == walk.order.parent_link_indices@
                &&& arm.view().leaves == walk.leaf_links@
                &&& forall|t: int|
                    0 <= t < links@.len() ==> arm.view().link_names[t] == g.link_name(
                        #[trigger] walk.order.links@[t] as int,
                    )
            },
    {
        if walk.fault.is_some() {
            return Err(walk.fault.unwrap());
        }
        if walk.order.joints.len() != g.joints.len() || walk.order.links.len() != g.links.len() {
            return Err(Error::InvalidModel(text("joint graph is disconnected or cyclic")));
        }
        let ghost wl = walk.order.links@;
        let ghost wj = walk.order.joints@;
        let ghost wp = walk.order.parent_link_indices@;
        let ghost wleaf = walk.leaf_links@;
        let n = walk.order.links.len();
        let mut link_names: Vec<String> = Vec::new();
        let mut t: usize = 0;
        while t < n
            invariant
                n == wl.len(),
                wl == walk.order.links@,
                t <= n,
                is_walk(g, wl, wj, wp),
                link_names@.len() == t,
                forall|a: int| 0 <= a < t ==> (#[trigger] link_names@[a])@ == g.link_name(wl[a] as int),
            decreases n - t,
        {
            link_names.push(g.links[walk.order.links[t]].clone());
            t += 1;
        }
        let m = walk.order.parent_link_indices.len();
        let mut joint_parents: Vec<LinkId> = Vec::new();
        let mut t: usize = 0;
        while t < m
            invariant
                m == wp.len(),
                wp == walk.order.parent_link_indices@,
                t <= m,
                joint_parents@.len() == t,
                forall|a: int| 0 <= a < t ==> (#[trigger] joint_parents@[a]).0 == wp[a],
            decreases m - t,
        {
            joint_parents.push(LinkId(walk.order.parent_link_indices[t]));
            t += 1;
        }
        let q = walk.leaf_links.len();
        let mut leaf_links: Vec<LinkId> = Vec::new();
        let mut t: usize = 0;
        while t < q
            invariant
                q == wleaf.len(),
                wleaf == walk.leaf_links@,
                t <= q,
                leaf_links@.len() == t,
                forall|a: int| 0 <= a < t ==> (#[trigger] leaf_links@[a]).0 == wleaf[a],
            decreases q - t,
        {
            leaf_links.push(LinkId(walk.leaf_links[t]));
            t += 1;
        }
        let arm = RobotArm { name: g.name.clone(), joints, links, link_names, joint_parents, leaf_links };
        proof {
            let v = arm.view();
            assert(walk_is_complete(g, wl, wj));
            assert(v.parents =~= wp);
            assert(v.leaves =~= wleaf);
            assert forall|t: int| 0 <= t < n implies v.link_names[t] == g.link_name(
                #[trigger] wl[t] as int,
            ) by {
                assert(arm.link_names@[t]@ == g.link_name(wl[t] as int));
            }
            assert forall|a: int, b: int| 0 <= a < b < v.link_names.len() implies v.link_names[a]
                != v.link_names[b] by {
                if v.link_names[a] == v.link_names[b] {
                    lemma_unique_link(g, wl[a] as int, wl[b] as int);
                }
            }
            assert forall|p: int|
                #![trigger v.leaves.contains(p as usize)]
                0 <= p < v.links.len() implies (v.leaves.contains(p as usize) <==> forall|j: int|
                0 <= j < v.parents.len() ==> v.parents[j] != p) by {
                let lp = wl[p];
                assert(is_leaf_list(g, wl, wleaf));
                assert(wleaf.contains(p as usize) <==> !exists|k: int| 0 <= k < g.joints@.len() && leaves(g, wl, p, k));
                if exists|k: int| 0 <= k < g.joints@.len() && g.parent_name(k) == g.link_name(wl[p] as int) {
                    let k = choose|k: int| 0 <= k < g.joints@.len() && g.parent_name(k) == g.link_name(wl[p] as int);
                    assert(leaves(g, wl, p, k));
                    assert(wj.contains(k as usize));
                    let j = choose|j: int| 0 <= j < wj.len() && wj[j] == k;
                    assert(g.parent_name(wj[j] as int) == g.link_name(wl[wp[j] as int] as int));
                    lemma_unique_link(g, wl[wp[j] as int] as int, wl[p] as int);
                    assert(v.parents[j] == p);
                }
                if exists|j: int| 0 <= j < v.parents.len() && v.parents[j] == p {
                    let j = choose|j: int| 0 <= j < v.parents.len() && v.parents[j] == p;
                    assert(g.parent_name(wj[j] as int) == g.link_name(wl[wp[j] as int] as int));
                    assert(wj[j] < g.joints@.len());
                    assert(leaves(g, wl, p, wj[j] as int));
                }
                assert(wleaf.contains(p as usize) <==> !exists|k: int| 0 <= k < g.joints@.len() && leaves(g, wl, p, k));
            }
            assert(v.links == links@);
            assert(v.joints == joints@);
            assert(v.name == g.name@);
            assert(is_leaf_list(g, wl, wleaf));
            assert forall|j: int| 0 <= j < v.parents.len() implies (#[trigger] v.parents[j]) <= j by {
                assert(wj[j] < g.joints@.len());
            }
            assert forall|i: int| 0 <= i < v.leaves.len() implies (#[trigger] v.leaves[i]) < v.links.len() by {
                assert(wleaf[i] < wl.len());
            }
            assert(v.well_formed());
        }
        Ok(arm)
    }
}


impl<J, L> RobotArm<J, L> {
    /// Returns the robot name.
    pub fn name(&self) -> (r: &str)
        ensures
            r@ == self.view().name,
    {
        self.name.as_str()
    }

    /// Returns the link payloads in root-first order.
    pub fn links(&self) -> (r: &[L])
        ensures
            r@ == self.view().links,
    {
        self.links.as_slice()
    }

    /// Returns the joint payloads; joint `j` has child link `j + 1`.
    pub fn joints(&self) -> (r: &[J])
        ensures
            r@ == self.view().joints,
    {
        self.joints.as_slice()
    }

    /// Returns the root link.
    pub fn root_link(&self) -> (r: LinkId)
        ensures
            r.position() == 0,
    {
        LinkId(0)
    }

    /// Returns the links that no joint leaves, in root-first order.
    pub fn leaf_links(&self) -> (r: &[LinkId])
        ensures
            r@.map_values(|l: LinkId| l.position()) == self.view().leaves,
    {
        proof {
            assert(self.leaf_links@.map_values(|l: LinkId| l.position()) =~= self.view().leaves);
        }
        self.leaf_links.as_slice()
    }

    /// Returns the identifier of the link named `name`, if there is one.
    pub fn link_id(&self, name: &str) -> (r: Option<LinkId>)
        requires
            self.wf(),
        ensures
            match r {
                Some(id) => id.position() < self.view().links.len() && self.view().link_names[id.position() as int]
                    == name@,
                None => forall|i: int|
                    0 <= i < self.view().links.len() ==> self.view().link_names[i] != name@,
            },
    {
        let wanted = text(name);
        let n = self.link_names.len();
        let mut i: usize = 0;
        while i < n
            invariant
                self.wf(),
                n == self.link_names@.len(),
                i <= n,
                wanted@ == name@,
                forall|a: int| 0 <= a < i ==> self.link_names@[a]@ != name@,
            decreases n - i,
        {
            if self.link_names[i] == wanted {
                proof {
                    assert(self.view().link_names[i as int] == self.link_names@[i as int]@);
                }
                return Some(LinkId(i));
            }
            i += 1;
        }
        proof {
            assert forall|a: int| 0 <= a < self.view().links.len() implies self.view().link_names[a]
                != name@ by {
                assert(self.view().link_names[a] == self.link_names@[a]@);
            }
        }
        None
    }

    /// Returns the number of links, including the root.
    pub fn link_count(&self) -> (r: usize)
        ensures
            r == self.view().links.len(),
    {
        self.links.len()
    }

    /// Returns the number of joints.
    pub fn joint_count(&self) -> (r: usize)
        ensures
            r == self.view().joints.len(),
    {
        self.joints.len()
    }

    /// Returns the parent link of joint `joint_index`.
    pub fn joint_parent(&self, joint_index: usize) -> (r: LinkId)
        requires
            self.wf(),
            joint_index < self.view().joints.len(),
        ensures
            r.position() == self.view().parents[joint_index as int],
            r.position() <= joint_index,
    {
        self.joint_parents[joint_index]
    }

    /// Checks that a compile-time joint dimension `N` matches the model.
    pub fn validate_joint_count<const N: usize>(&self) -> (r: Result<(), Error>)
        ensures
            self.view().joints.len() == N ==> r is Ok,
            self.view().joints.len() != N ==> (r matches Err(Error::WrongJointCount { expected, actual })
                && expected == self.view().joints.len() && actual == N),
    {
        if self.joints.len() == N {
            Ok(())
        } else {
            Err(Error::WrongJointCount { expected: self.joints.len(), actual: N })
        }
    }

    /// Checks that `link` names a link of this model.
    pub fn validate_link(&self, link: LinkId) -> (r: Result<(), Error>)
        ensures
            link.position() < self.view().links.len() ==> r is Ok,
            link.position() >= self.view().links.len() ==> (r matches Err(
                Error::InvalidLinkId { index, link_count },
            ) && index == link.position() && link_count == self.view().links.len()),
    {
        if link.0 < self.links.len() {
            Ok(())
        } else {
            Err(Error::InvalidLinkId { index: link.0, link_count: self.links.len() })
        }
    }
}

} // verus!
