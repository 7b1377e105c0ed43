//! The validated, immutable topology of a robot model: link and joint names,
//! joint motion types, parent links, the active (non-fixed) joints that carry
//! degrees of freedom, and model-scoped link identifiers.

use vstd::prelude::*;

use crate::description::{kind_motion, names_of, unique_names, UrdfGraph};
use crate::error::{text, Error};
use crate::joint::JointType;
use crate::tree::{check_connected, is_tree_order, lemma_unique_link, model_fault, TreeOrder};

verus! {

/// Number of generalized coordinates contributed by a floating base.
pub const FLOATING_BASE_DOF: usize = 6;

/// How the root link is connected to the world.
#[derive(Clone, Copy, Debug, PartialEq, Eq, Structural)]
pub enum BaseMode {
    /// The root link is rigidly attached to the world.
    Fixed,
    /// The root link moves freely with six degrees of freedom.
    Floating,
}

/// Degrees of freedom contributed by the base.
pub open spec fn base_dofs(mode: BaseMode) -> nat {
    match mode {
        BaseMode::Fixed => 0,
        BaseMode::Floating => 6,
    }
}

/// An opaque, model-scoped identifier for a link.
///
/// A `LinkId` is valid for the model from which it was obtained, including
/// every robot instance sharing that model.
#[derive(Clone, Copy, Debug, PartialEq, Eq, Hash, Structural)]
pub struct LinkId {
    model_id: u64,
    index: usize,
}

impl LinkId {
    /// Identifier of the model the link belongs to.
    pub closed spec fn model(&self) -> u64 {
        self.model_id
    }

    /// Position of the link in the model's root-first order.
    pub closed spec fn position(&self) -> usize {
        self.index
    }

    fn new(model_id: u64, index: usize) -> (r: Self)
        ensures
            r.model() == model_id,
            r.position() == index,
    {
        LinkId { model_id, index }
    }

    /// Position of the link in the model's root-first order.
    pub fn link_index(&self) -> (r: usize)
        ensures
            r == self.position(),
    {
        self.index
    }
}

/// A link handle is determined by its model and the position it names.
pub proof fn lemma_model_and_position_identify(a: LinkId, b: LinkId)
    ensures
        a.model() == b.model() && a.position() == b.position() ==> a == b,
{
}

/// Abstract contents of a [`Model`].
pub struct ModelView {
    /// Identifier shared by every link handle of the model.
    pub model_id: u64,
    /// Robot name.
    pub name: Seq<char>,
    /// Link names in root-first order.
    pub link_names: Seq<Seq<char>>,
    /// Name of joint `j`, whose child is link `j + 1`.
    pub joint_names: Seq<Seq<char>>,
    /// Motion type of joint `j`.
    pub joint_types: Seq<JointType>,
    /// Position of the parent link of joint `j`.
    pub parents: Seq<usize>,
    /// Joint indices of the non-fixed joints, ascending; entry `k` is the joint
    /// of degree of freedom `k`.
    pub active: Seq<usize>,
    /// Degree of freedom of joint `j`, or `None` for a fixed joint.
    pub dofs: Seq<Option<usize>>,
    /// How the root is connected to the world.
    pub base_mode: BaseMode,
}

impl ModelView {
    /// Number of links.
    pub open spec fn link_count(&self) -> nat {
        self.link_names.len()
    }

    /// Number of joints, fixed ones included.
    pub open spec fn model_joint_count(&self) -> nat {
        self.joint_types.len()
    }

    /// Number of non-fixed joints.
    pub open spec fn joint_count(&self) -> nat {
        self.active.len()
    }

    /// Size of a generalized vector.
    pub open spec fn generalized_count(&self) -> nat {
        base_dofs(self.base_mode) + self.joint_count()
    }

    /// Whether `link` is a handle of one of this model's links.
    pub open spec fn owns(&self, link: LinkId) -> bool {
        link.model() == self.model_id && link.position() < self.link_count()
    }

    /// The structural facts every model satisfies.
    pub open spec fn well_formed(&self) -> bool {
        &&& self.model_id != 0
        &&& self.link_names.len() == self.joint_types.len() + 1
        &&& self.joint_names.len() == self.joint_types.len()
        &&& self.parents.len() == self.joint_types.len()
        &&& self.dofs.len() == self.joint_types.len()
        &&& self.joint_types.len() + FLOATING_BASE_DOF <= usize::MAX
        &&& unique_names(self.link_names)
        &&& forall|j: int| 0 <= j < self.parents.len() ==> (#[trigger] self.parents[j]) <= j
        &&& forall|k: int|
            0 <= k < self.active.len() ==> (#[trigger] self.active[k]) < self.joint_types.len()
                && self.joint_types[self.active[k] as int] != JointType::Fixed
        &&& forall|a: int, b: int| 0 <= a < b < self.active.len() ==> self.active[a] < self.active[b]
        &&& forall|j: int|
            0 <= j < self.dofs.len() ==> match #[trigger] self.dofs[j] {
                Some(k) => k < self.active.len() && self.active[k as int] == j,
                None => self.joint_types[j] == JointType::Fixed,
            }
    }
}

/// The validated topology of a robot model.
#[derive(Debug)]
pub struct Model {
    model_id: u64,
    name: String,
    link_names: Vec<String>,
    joint_names: Vec<String>,
    joint_types: Vec<JointType>,
    parent_link_indices: Vec<usize>,
    active_joint_indices: Vec<usize>,
    joint_dof_indices: Vec<Option<usize>>,
    base_mode: BaseMode,
}

impl View for Model {
    type V = ModelView;

    closed spec fn view(&self) -> ModelView {
        ModelView {
            model_id: self.model_id,
            name: self.name@,
            link_names: names_of(self.link_names@),
            joint_names: names_of(self.joint_names@),
            joint_types: self.joint_types@,
            parents: self.parent_link_indices@,
            active: self.active_joint_indices@,
            dofs: self.joint_dof_indices@,
            base_mode: self.base_mode,
        }
    }
}

impl Model {
    /// The model's structural facts hold.
    pub open spec fn wf(&self) -> bool {
        self@.well_formed()
    }
}


/// Joint indices of the non-fixed joints and the degree of freedom of each joint.
fn degrees_of_freedom(types: &Vec<JointType>) -> (r: (Vec<usize>, Vec<Option<usize>>))
    ensures
        r.1@.len() == types@.len(),
        forall|k: int|
            0 <= k < r.0@.len() ==> (#[trigger] r.0@[k]) < types@.len() && types@[r.0@[k] as int]
                != JointType::Fixed,
        forall|a: int, b: int| 0 <= a < b < r.0@.len() ==> r.0@[a] < r.0@[b],
        forall|j: int|
            0 <= j < r.1@.len() ==> match #[trigger] r.1@[j] {
                Some(k) => k < r.0@.len() && r.0@[k as int] == j,
                None => types@[j] == JointType::Fixed,
            },
{
    let m = types.len();
    let mut active: Vec<usize> = Vec::new();
    let mut dofs: Vec<Option<usize>> = Vec::new();
    let mut j: usize = 0;
    while j < m
        invariant
            m == types@.len(),
            j <= m,
            dofs@.len() == j,
            active@.len() <= j,
            forall|k: int|
                0 <= k < active@.len() ==> (#[trigger] active@[k]) < j && types@[active@[k] as int]
                    != JointType::Fixed,
            forall|a: int, b: int| 0 <= a < b < active@.len() ==> active@[a] < active@[b],
            forall|i: int|
                0 <= i < dofs@.len() ==> match #[trigger] dofs@[i] {
                    Some(k) => k < active@.len() && active@[k as int] == i,
                    None => types@[i] == JointType::Fixed,
                },
        decreases m - j,
    {
        if types[j].is_active() {
            dofs.push(Some(active.len()));
            active.push(j);
        } else {
            dofs.push(None);
        }
        j += 1;
    }
    (active, dofs)
}

impl Model {
    /// Builds the model of a validated description from its root-first order.
    ///
    /// Descriptions with links that the order does not reach are rejected.
    pub fn from_order(
        model_id: u64,
        g: &UrdfGraph,
        o: &TreeOrder,
        base_mode: BaseMode,
    ) -> (r: Result<Model, Error>)
        requires
            model_id != 0,
            model_fault(g) is None,
            is_tree_order(g, o.links@, o.joints@, o.parent_link_indices@),
            g.joints@.len() + FLOATING_BASE_DOF <= usize::MAX,
            forall|t: int|
                0 <= t < o.joints@.len() ==> kind_motion(
                    g.joints@[#[trigger] o.joints@[t] as int].kind,
                ) is Some,
        ensures
            r is Err <==> (o.joints@.len() != g.joints@.len() || o.links@.len() != g.links@.len()),
            r matches Err(Error::InvalidModel(e)) ==> e@ == "joint graph is disconnected or cyclic"@,
            r is Err ==> (r matches Err(Error::InvalidModel(_))),
            r matches Ok(model) ==> {
                &&& model.wf()
                &&& model@.model_id == model_id
                &&& model@.name == g.name@
                &&& model@.base_mode == base_mode
                &&& model@.link_names.len() == o.links@.len()
                &&& model@.joint_types.len() == o.joints@.len()
                &&& model@.parents == o.parent_link_indices@
                &&& forall|t: int|
                    0 <= t < o.links@.len() ==> model@.link_names[t] == g.link_name(
                        #[trigger] o.links@[t] as int,
                    )
                &&& forall|t: int|
                    #![trigger o.joints@[t]]
                    0 <= t < o.joints@.len() ==> model@.joint_names[t] == g.joint_name(
                        o.joints@[t] as int,
                    ) && Some(model@.joint_types[t]) == kind_motion(
                        g.joints@[o.joints@[t] as int].kind,
                    )
            },
    {
        check_connected(g, o)?;
        let n = o.links.len();
        let mut link_names: Vec<String> = Vec::new();
        let mut t: usize = 0;
        while t < n
            invariant
                n == o.links@.len(),
                t <= n,
                is_tree_order(g, o.links@, o.joints@, o.parent_link_indices@),
                link_names@.len() == t,
                forall|a: int| 0 <= a < t ==> (#[trigger] link_names@[a])@ == g.link_name(
                    o.links@[a] as int,
                ),
            decreases n - t,
        {
            link_names.push(g.links[o.links[t]].clone());
            t += 1;
        }
        let m = o.joints.len();
        let mut joint_names: Vec<String> = Vec::new();
        let mut joint_types: Vec<JointType> = Vec::new();
        let mut t: usize = 0;
        while t < m
            invariant
                m == o.joints@.len(),
                t <= m,
                is_tree_order(g, o.links@, o.joints@, o.parent_link_indices@),
                forall|t: int|
                    0 <= t < o.joints@.len() ==> kind_motion(
                        g.joints@[#[trigger] o.joints@[t] as int].kind,
                    ) is Some,
                joint_names@.len() == t,
                joint_types@.len() == t,
                forall|a: int|
                    0 <= a < t ==> (#[trigger] joint_names@[a])@ == g.joint_name(o.joints@[a] as int),
                forall|a: int|
                    0 <= a < t ==> Some(#[trigger] joint_types@[a]) == kind_motion(
                        g.joints@[o.joints@[a] as int].kind,
                    ),
            decreases m - t,
        {
            let joint = &g.joints[o.joints[t]];
            let joint_type = match crate::description::supported_joint_type(joint) {
                Ok(joint_type) => joint_type,
                Err(e) => {
                    proof {
                        assert(kind_motion(joint.kind) is Some);
                    }
                    return Err(e);
                },
            };
            assert(Some(joint_type) == kind_motion(joint.kind));
            assert(joint.name@ == g.joint_name(o.joints@[t as int] as int));
            let ghost old_names = joint_names@;
            let ghost old_types = joint_types@;
            let name = joint.name.clone();
            joint_names.push(name);
            joint_types.push(joint_type);
            proof {
                assert forall|a: int|
                    0 <= a < t + 1 implies (#[trigger] joint_names@[a])@ == g.joint_name(o.joints@[a] as int) by {
                    if a < t {
                        assert(joint_names@[a] == old_names[a]);
                    } else {
                        assert(joint_names@[a] == name);
                    }
                }
                assert forall|a: int|
                    0 <= a < t + 1 implies Some(#[trigger] joint_types@[a]) == kind_motion(
                        g.joints@[o.joints@[a] as int].kind,
                    ) by {
                    if a < t {
                        assert(joint_types@[a] == old_types[a]);
                    }
                }
            }
            t += 1;
        }
        let (active, dofs) = degrees_of_freedom(&joint_types);
        let model = Model {
            model_id,
            name: g.name.clone(),
            link_names,
            joint_names,
            joint_types,
            parent_link_indices: o.parent_link_indices.clone(),
            active_joint_indices: active,
            joint_dof_indices: dofs,
            base_mode,
        };
        proof {
            let v = model@;
            assert forall|a: int, b: int| 0 <= a < b < v.link_names.len() implies v.link_names[a]
                != v.link_names[b] by {
                assert(v.link_names[a] == g.link_name(o.links@[a] as int));
                assert(v.link_names[b] == g.link_name(o.links@[b] as int));
                if v.link_names[a] == v.link_names[b] {
                    lemma_unique_link(g, o.links@[a] as int, o.links@[b] as int);
                }
            }
            assert forall|j: int| 0 <= j < v.parents.len() implies (#[trigger] v.parents[j]) <= j by {
                assert(o.joints@[j] < g.joints@.len());
            }
            assert forall|a: int|
                #![trigger o.joints@[a]]
                0 <= a < o.joints@.len() implies v.joint_names[a] == g.joint_name(
                o.joints@[a] as int,
            ) && Some(v.joint_types[a]) == kind_motion(g.joints@[o.joints@[a] as int].kind) by {
                assert(model.joint_names@[a]@ == g.joint_name(o.joints@[a] as int));
            }
            assert forall|a: int|
                0 <= a < o.links@.len() implies v.link_names[a] == g.link_name(
                #[trigger] o.links@[a] as int,
            ) by {
                assert(model.link_names@[a]@ == g.link_name(o.links@[a] as int));
            }
        }
        Ok(model)
    }
}


impl Model {
    /// Returns the robot name declared in the description.
    pub fn name(&self) -> (r: &str)
        ensures
            r@ == self@.name,
    {
        self.name.as_str()
    }

    /// Returns whether the root link is fixed or floating.
    pub fn base_mode(&self) -> (r: BaseMode)
        ensures
            r == self@.base_mode,
    {
        self.base_mode
    }

    /// Returns the identifier shared by the model's link handles.
    pub fn model_id(&self) -> (r: u64)
        ensures
            r == self@.model_id,
    {
        self.model_id
    }

    /// Returns the number of links, including the root link.
    pub fn link_count(&self) -> (r: usize)
        requires
            self.wf(),
        ensures
            r == self@.link_count(),
    {
        self.link_names.len()
    }

    /// Returns the number of joints, fixed ones included.
    pub fn model_joint_count(&self) -> (r: usize)
        requires
            self.wf(),
        ensures
            r == self@.model_joint_count(),
    {
        self.joint_types.len()
    }

    /// Returns the number of non-fixed joints.
    pub fn joint_count(&self) -> (r: usize)
        requires
            self.wf(),
        ensures
            r == self@.joint_count(),
    {
        self.active_joint_indices.len()
    }

    /// Returns the degrees of freedom contributed by the base.
    pub fn base_dof_count(&self) -> (r: usize)
        ensures
            r == base_dofs(self@.base_mode),
    {
        match self.base_mode {
            BaseMode::Fixed => 0,
            BaseMode::Floating => FLOATING_BASE_DOF,
        }
    }

    /// Returns the size of a generalized vector: floating-base vectors are
    /// ordered `[base angular, base linear, joints]`, fixed-base vectors hold
    /// only the non-fixed joints.
    pub fn generalized_count(&self) -> (r: usize)
        requires
            self.wf(),
        ensures
            r == self@.generalized_count(),
    {
        proof {
            crate::counting::lemma_distinct_indices_bounded(
                self.active_joint_indices@,
                self.joint_types@.len(),
            );
        }
        self.base_dof_count() + self.joint_count()
    }

    /// Returns the joint index of degree of freedom `dof_index`.
    pub fn active_joint(&self, dof_index: usize) -> (r: Result<usize, Error>)
        requires
            self.wf(),
        ensures
            dof_index < self@.joint_count() ==> r == Ok::<usize, Error>(self@.active[dof_index as int]),
            dof_index >= self@.joint_count() ==> (r matches Err(Error::InvalidJointIndex { index })
                && index == dof_index),
    {
        if dof_index < self.active_joint_indices.len() {
            Ok(self.active_joint_indices[dof_index])
        } else {
            Err(Error::InvalidJointIndex { index: dof_index })
        }
    }

    /// Returns the name of the joint at an active-DOF index.
    pub fn joint_name(&self, dof_index: usize) -> (r: Result<&str, Error>)
        requires
            self.wf(),
        ensures
            dof_index < self@.joint_count() ==> (r matches Ok(name) && name@
                == self@.joint_names[self@.active[dof_index as int] as int]),
            dof_index >= self@.joint_count() ==> (r matches Err(Error::InvalidJointIndex { index })
                && index == dof_index),
    {
        let joint = self.active_joint(dof_index)?;
        Ok(self.joint_names[joint].as_str())
    }

    /// Returns the motion type of the joint at an active-DOF index.
    pub fn joint_type(&self, dof_index: usize) -> (r: Result<JointType, Error>)
        requires
            self.wf(),
        ensures
            dof_index < self@.joint_count() ==> r == Ok::<JointType, Error>(
                self@.joint_types[self@.active[dof_index as int] as int],
            ),
            dof_index >= self@.joint_count() ==> (r matches Err(Error::InvalidJointIndex { index })
                && index == dof_index),
    {
        let joint = self.active_joint(dof_index)?;
        Ok(self.joint_types[joint])
    }

    /// Returns the motion type of joint `joint_index`, fixed joints included.
    pub fn model_joint_type(&self, joint_index: usize) -> (r: JointType)
        requires
            self.wf(),
            joint_index < self@.model_joint_count(),
        ensures
            r == self@.joint_types[joint_index as int],
    {
        self.joint_types[joint_index]
    }

    /// Returns the position of the parent link of joint `joint_index`; the
    /// joint's child is the link at position `joint_index + 1`.
    pub fn parent_link_index(&self, joint_index: usize) -> (r: usize)
        requires
            self.wf(),
            joint_index < self@.model_joint_count(),
        ensures
            r == self@.parents[joint_index as int],
            r <= joint_index,
    {
        self.parent_link_indices[joint_index]
    }

    /// Returns the degree of freedom of joint `joint_index`, or `None` for a
    /// fixed joint.
    pub fn joint_dof_index(&self, joint_index: usize) -> (r: Option<usize>)
        requires
            self.wf(),
            joint_index < self@.model_joint_count(),
        ensures
            r == self@.dofs[joint_index as int],
    {
        self.joint_dof_indices[joint_index]
    }

    /// Returns the joint indices of the non-fixed joints, ascending.
    pub fn active_joint_indices(&self) -> (r: &[usize])
        ensures
            r@ == self@.active,
    {
        self.active_joint_indices.as_slice()
    }

    /// Finds a model-scoped link identifier by name.
    pub fn link_id(&self, name: &str) -> (r: Result<LinkId, Error>)
        requires
            self.wf(),
        ensures
            match r {
                Ok(id) => id.model() == self@.model_id && id.position() < self@.link_count()
                    && self@.link_names[id.position() as int] == name@,
                Err(e) => (e matches Error::UnknownLink { name: n } && n@ == name@) && forall|i: int|
                    0 <= i < self@.link_count() ==> self@.link_names[i] != name@,
            },
    {
        let wanted = text(name);
        let n = self.link_names.len();
        let mut i: usize = 0;
        while i < n
            invariant
                n == self.link_names@.len(),
                i <= n,
                wanted@ == name@,
                forall|a: int| 0 <= a < i ==> self.link_names@[a]@ != name@,
            decreases n - i,
        {
            if self.link_names[i] == wanted {
                return Ok(LinkId::new(self.model_id, i));
            }
            i += 1;
        }
        Err(Error::UnknownLink { name: wanted })
    }

    /// Returns the model-scoped identifier at a link position.
    pub fn link_id_at(&self, index: usize) -> (r: Result<LinkId, Error>)
        requires
            self.wf(),
        ensures
            index < self@.link_count() ==> (r matches Ok(id) && id.model() == self@.model_id
                && id.position() == index),
            index >= self@.link_count() ==> (r matches Err(Error::InvalidLinkId { index: i, link_count: c })
                && i == index && c == self@.link_count()),
    {
        if index < self.link_names.len() {
            Ok(LinkId::new(self.model_id, index))
        } else {
            Err(Error::InvalidLinkId { index, link_count: self.link_names.len() })
        }
    }

    /// Returns the root link identifier.
    pub fn root_link_id(&self) -> (r: LinkId)
        ensures
            r.model() == self@.model_id,
            r.position() == 0,
    {
        LinkId::new(self.model_id, 0)
    }

    /// Checks that `link` belongs to this model and returns its position.
    pub fn validate_link_id(&self, link: LinkId) -> (r: Result<usize, Error>)
        requires
            self.wf(),
        ensures
            self@.owns(link) ==> r == Ok::<usize, Error>(link.position()),
            !self@.owns(link) ==> (r matches Err(Error::InvalidLinkId { index: i, link_count: c })
                && i == link.position() && c == self@.link_count()),
    {
        if link.model_id == self.model_id && link.index < self.link_names.len() {
            Ok(link.index)
        } else {
            Err(Error::InvalidLinkId { index: link.index, link_count: self.link_names.len() })
        }
    }

    /// Returns the name of a model-scoped link.
    pub fn link_name(&self, link: LinkId) -> (r: Result<&str, Error>)
        requires
            self.wf(),
        ensures
            self@.owns(link) ==> (r matches Ok(name) && name@ == self@.link_names[
                link.position() as int
            ]),
            !self@.owns(link) ==> (r matches Err(Error::InvalidLinkId { index: i, link_count: c })
                && i == link.position() && c == self@.link_count()),
    {
        let index = self.validate_link_id(link)?;
        Ok(self.link_names[index].as_str())
    }

    /// Checks that a slice named `name` has the `expected` length.
    pub fn validate_slice_length(&self, name: &'static str, actual: usize, expected: usize) -> (r:
        Result<(), Error>)
        ensures
            actual == expected ==> r is Ok,
            actual != expected ==> (r matches Err(Error::WrongSliceLength { slice, expected: e, actual: a })
                && slice@ == name@ && e == expected && a == actual),
    {
        if actual == expected {
            Ok(())
        } else {
            Err(Error::WrongSliceLength { slice: name, expected, actual })
        }
    }

    /// Checks that a joint-space input has one entry per non-fixed joint.
    pub fn validate_slice(&self, name: &'static str, len: usize) -> (r: Result<(), Error>)
        requires
            self.wf(),
        ensures
            len == self@.joint_count() ==> r is Ok,
            len != self@.joint_count() ==> (r matches Err(Error::WrongSliceLength { slice, expected, actual })
                && slice@ == name@ && expected == self@.joint_count() && actual == len),
    {
        self.validate_slice_length(name, len, self.joint_count())
    }

    /// Checks that a generalized output has one entry per generalized coordinate.
    pub fn validate_output(&self, name: &'static str, len: usize) -> (r: Result<(), Error>)
        requires
            self.wf(),
        ensures
            len == self@.generalized_count() ==> r is Ok,
            len != self@.generalized_count() ==> (r matches Err(Error::WrongSliceLength { slice, expected, actual })
                && slice@ == name@ && expected == self@.generalized_count() && actual == len),
    {
        self.validate_slice_length(name, len, self.generalized_count())
    }

    /// Writes into `path` the joints from link `target_index` up to the root:
    /// `path[0]` is the joint whose child is the target, each next entry is the
    /// joint whose child is the previous joint's parent, and the last entry
    /// leaves the root. Returns the number of entries written; the root has none.
    pub fn prepare_ancestor_path(&self, target_index: usize, path: &mut Vec<usize>) -> (depth: usize)
        requires
            self.wf(),
            target_index < self@.link_count(),
            old(path)@.len() == self@.model_joint_count(),
        ensures
            final(path)@.len() == old(path)@.len(),
            depth <= target_index,
            (depth == 0) == (target_index == 0),
            depth > 0 ==> final(path)@[0] == target_index - 1,
            depth > 0 ==> self@.parents[final(path)@[depth - 1] as int] == 0,
            forall|d: int|
                0 <= d < depth ==> (#[trigger] final(path)@[d]) < self@.model_joint_count(),
            forall|d: int|
                0 <= d < depth - 1 ==> self@.parents[#[trigger] final(path)@[d] as int] != 0
                    && final(path)@[d + 1] == self@.parents[final(path)@[d] as int] - 1,
            forall|d: int| depth <= d < final(path)@.len() ==> final(path)@[d] == old(path)@[d],
    {
        let mut current = target_index;
        let mut depth: usize = 0;
        while current != 0
            invariant
                self.wf(),
                target_index < self@.link_count(),
                path@.len() == old(path)@.len(),
                path@.len() == self@.model_joint_count(),
                current <= target_index,
                depth + current <= target_index,
                (depth == 0) ==> current == target_index,
                depth > 0 ==> path@[0] == target_index - 1,
                depth > 0 ==> current == self@.parents[path@[depth - 1] as int],
                forall|d: int| 0 <= d < depth ==> (#[trigger] path@[d]) < self@.model_joint_count(),
                forall|d: int|
                    0 <= d < depth - 1 ==> self@.parents[#[trigger] path@[d] as int] != 0
                        && path@[d + 1] == self@.parents[path@[d] as int] - 1,
                forall|d: int| depth <= d < path@.len() ==> path@[d] == old(path)@[d],
            decreases current,
        {
            let joint_index = current - 1;
            path.set(depth, joint_index);
            depth += 1;
            current = self.parent_link_indices[joint_index];
        }
        depth
    }
}


/// Degrees of freedom and active joints are inverse: the joint of degree of
/// freedom `k` has degree of freedom `k`, and a joint has a degree of freedom
/// exactly when it is not fixed.
pub proof fn lemma_dofs_invert_active(m: ModelView)
    requires
        m.well_formed(),
    ensures
        forall|k: int|
            0 <= k < m.active.len() ==> m.dofs[#[trigger] m.active[k] as int] == Some(k as usize),
        forall|j: int|
            0 <= j < m.dofs.len() ==> ((#[trigger] m.dofs[j]) is Some <==> m.joint_types[j]
                != JointType::Fixed),
{
    assert forall|k: int| 0 <= k < m.active.len() implies m.dofs[#[trigger] m.active[k] as int]
        == Some(k as usize) by {
        let j = m.active[k] as int;
        match m.dofs[j] {
            Some(k2) => {
                if k2 < k {
                    assert(m.active[k2 as int] < m.active[k]);
                } else if k2 > k {
                    assert(m.active[k] < m.active[k2 as int]);
                }
            },
            None => {},
        }
    }
    assert forall|j: int| 0 <= j < m.dofs.len() implies ((#[trigger] m.dofs[j]) is Some
        <==> m.joint_types[j] != JointType::Fixed) by {
        match m.dofs[j] {
            Some(k) => {
                assert(m.joint_types[m.active[k as int] as int] != JointType::Fixed);
            },
            None => {},
        }
    }
}

/// Number of joints among the first `n` of `types` that are not fixed.
pub open spec fn non_fixed_count(types: Seq<JointType>, n: int) -> nat
    decreases n,
{
    if n <= 0 {
        0
    } else {
        non_fixed_count(types, n - 1) + if types[n - 1] != JointType::Fixed {
            1nat
        } else {
            0nat
        }
    }
}

/// The active joints below joint index `n` are exactly the first
/// `non_fixed_count(.., n)` entries of the active list.
proof fn lemma_active_prefix(m: ModelView, n: int)
    requires
        m.well_formed(),
        0 <= n <= m.joint_types.len(),
    ensures
        non_fixed_count(m.joint_types, n) <= m.active.len(),
        forall|k: int| 0 <= k < non_fixed_count(m.joint_types, n) ==> m.active[k] < n,
        forall|k: int| non_fixed_count(m.joint_types, n) <= k < m.active.len() ==> m.active[k] >= n,
    decreases n,
{
    if n > 0 {
        lemma_active_prefix(m, n - 1);
        lemma_active_are_members(m);
        let p = non_fixed_count(m.joint_types, n - 1) as int;
        let j = n - 1;
        if m.joint_types[j] != JointType::Fixed {
            assert(m.active.contains(j as usize));
            let k0 = choose|k0: int| 0 <= k0 < m.active.len() && m.active[k0] == j as usize;
            assert(k0 >= p);
            if p < k0 {
                assert(m.active[p] < m.active[k0]);
            }
            assert(m.active[p] == j);
            assert forall|k: int| p + 1 <= k < m.active.len() implies m.active[k] >= n by {
                assert(m.active[p] < m.active[k]);
            }
        } else {
            assert forall|k: int| p <= k < m.active.len() implies m.active[k] >= n by {
                if m.active[k] == j {
                    assert(m.active.contains(j as usize));
                }
            }
        }
    }
}

/// A joint is listed among the active joints exactly when it is not fixed.
proof fn lemma_active_are_members(m: ModelView)
    requires
        m.well_formed(),
    ensures
        forall|j: int|
            0 <= j < m.joint_types.len() ==> (m.active.contains(j as usize) <==> m.joint_types[j]
                != JointType::Fixed),
{
    lemma_dofs_invert_active(m);
    assert forall|j: int| 0 <= j < m.joint_types.len() implies (m.active.contains(j as usize)
        <==> m.joint_types[j] != JointType::Fixed) by {
        if m.joint_types[j] != JointType::Fixed {
            assert(m.dofs[j] is Some);
            let k = m.dofs[j]->0;
            assert(m.active[k as int] == j);
        }
    }
}

/// The number of degrees of freedom is the number of joints that are not
/// fixed, and a joint is listed among the active joints exactly when it is
/// not fixed.
pub proof fn lemma_active_are_non_fixed(m: ModelView)
    requires
        m.well_formed(),
    ensures
        m.active.len() == non_fixed_count(m.joint_types, m.joint_types.len() as int),
        forall|j: int|
            0 <= j < m.joint_types.len() ==> (m.active.contains(j as usize) <==> m.joint_types[j]
                != JointType::Fixed),
{
    lemma_active_are_members(m);
    lemma_active_prefix(m, m.joint_types.len() as int);
    let p = non_fixed_count(m.joint_types, m.joint_types.len() as int);
    if p < m.active.len() {
        assert(m.active[p as int] < m.joint_types.len());
    }
}

/// Link handles are model scoped: no handle is accepted by two models with
/// different identifiers.
pub proof fn lemma_handles_are_model_scoped(a: ModelView, b: ModelView, link: LinkId)
    requires
        a.model_id != b.model_id,
    ensures
        !(a.owns(link) && b.owns(link)),
{
}

/// A link name identifies a single link of a model.
pub proof fn lemma_link_names_identify(m: ModelView, a: int, b: int)
    requires
        m.well_formed(),
        0 <= a < m.link_names.len(),
        0 <= b < m.link_names.len(),
        m.link_names[a] == m.link_names[b],
    ensures
        a == b,
{
    if a < b {
        assert(m.link_names[a] != m.link_names[b]);
    } else if b < a {
        assert(m.link_names[b] != m.link_names[a]);
    }
}

} // verus!
