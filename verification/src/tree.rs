//! Validation of a robot description and its root-first (breadth-first)
//! topological order, as used to build a [`crate::robot::Model`].

use vstd::prelude::*;

use crate::counting::lemma_distinct_indices_bounded;
use crate::description::{all_names_distinct, find_name, lex_lt, names_of, UrdfGraph};
use crate::error::{decimal, decimal_text, join2, join3, text, Error};

verus! {

/// Root-first topological order of a validated description.
///
/// Position `0` holds the root link. For every `t`, joint `joints[t]` connects
/// the link at position `parent_link_indices[t]` to the link at position `t + 1`.
#[derive(Clone, Debug)]
pub struct TreeOrder {
    /// Source link indices, root first.
    pub links: Vec<usize>,
    /// Source joint index whose child is the link at position `t + 1`.
    pub joints: Vec<usize>,
    /// Position of the parent link of joint position `t`; always at most `t`.
    pub parent_link_indices: Vec<usize>,
}

/// The problem with joint `k`, given that all earlier joints are acceptable.
pub open spec fn joint_fault(g: &UrdfGraph, k: int) -> Option<Seq<char>> {
    if exists|i: int| 0 <= i < k && g.joint_name(i) == g.joint_name(k) {
        Some("joint names must be unique"@)
    } else if !g.has_link(g.parent_name(k)) {
        Some("joint "@ + g.joint_name(k) + " references a missing parent link"@)
    } else if !g.has_link(g.child_name(k)) {
        Some("joint "@ + g.joint_name(k) + " references a missing child link"@)
    } else if exists|i: int| 0 <= i < k && g.child_name(i) == g.child_name(k) {
        Some("link "@ + g.child_name(k) + " is reached more than once"@)
    } else {
        None
    }
}

/// The problem with the first unacceptable joint among the first `n`.
pub open spec fn first_joint_fault(g: &UrdfGraph, n: int) -> Option<Seq<char>>
    decreases n,
{
    if n <= 0 {
        None
    } else {
        match first_joint_fault(g, n - 1) {
            Some(m) => Some(m),
            None => joint_fault(g, n - 1),
        }
    }
}

/// The message of the first topology problem found in `g`, if any.
pub open spec fn model_fault(g: &UrdfGraph) -> Option<Seq<char>> {
    if !g.link_names_unique() {
        Some("link names must be unique"@)
    } else {
        match first_joint_fault(g, g.joints@.len() as int) {
            Some(m) => Some(m),
            None => if g.root_count() != 1 {
                Some("expected one root link, found "@ + decimal_text(g.root_count()))
            } else {
                None
            },
        }
    }
}

/// `links`, `joints` and `parents` describe the breadth-first order of the part
/// of `g` reachable from its root: each joint position records the joint whose
/// child link sits one position further, positions are ordered by (parent
/// position, joint index), and every joint leaving a listed link is listed.
pub open spec fn is_tree_order(
    g: &UrdfGraph,
    links: Seq<usize>,
    joints: Seq<usize>,
    parents: Seq<usize>,
) -> bool {
    &&& links.len() >= 1
    &&& joints.len() + 1 == links.len()
    &&& parents.len() == joints.len()
    &&& links.no_duplicates()
    &&& forall|t: int| 0 <= t < links.len() ==> (#[trigger] links[t]) < g.links@.len()
    &&& !g.is_child_link(links[0] as int)
    &&& forall|t: int|
        #![trigger joints[t]]
        0 <= t < joints.len() ==> {
            &&& joints[t] < g.joints@.len()
            &&& parents[t] <= t
            &&& g.parent_name(joints[t] as int) == g.link_name(links[parents[t] as int] as int)
            &&& g.child_name(joints[t] as int) == g.link_name(links[t + 1] as int)
        }
    &&& forall|t: int, u: int|
        0 <= t < u < joints.len() ==> lex_lt(
            parents[t] as int,
            joints[t] as int,
            parents[u] as int,
            joints[u] as int,
        )
    &&& forall|q: int, k: int|
        0 <= q < links.len() && 0 <= k < g.joints@.len() && g.parent_name(k) == g.link_name(
            links[q] as int,
        ) ==> joints.contains(k as usize)
}

/// Every joint among the first `n` is acceptable when none of them is the first fault.
proof fn lemma_no_first_fault(g: &UrdfGraph, n: int, k: int)
    requires
        0 <= k < n,
        first_joint_fault(g, n) is None,
    ensures
        joint_fault(g, k) is None,
    decreases n,
{
    if k < n - 1 {
        lemma_no_first_fault(g, n - 1, k);
    }
}

/// An accepted description has pairwise distinct link names, pairwise
/// distinct joint names, joints whose parent and child links exist, no link
/// that is the child of two joints, and exactly one root link.
pub proof fn lemma_accepted_topology(g: &UrdfGraph)
    requires
        model_fault(g) is None,
    ensures
        g.link_names_unique(),
        forall|i: int, k: int|
            0 <= i < k < g.joints@.len() ==> g.joint_name(i) != g.joint_name(k),
        g.joint_names_unique(),
        forall|k: int|
            0 <= k < g.joints@.len() ==> g.has_link(#[trigger] g.parent_name(k)) && g.has_link(
                g.child_name(k),
            ),
        forall|i: int, k: int|
            0 <= i < k < g.joints@.len() ==> g.child_name(i) != g.child_name(k),
        g.root_count() == 1,
{
    let m = g.joints@.len() as int;
    assert forall|i: int, k: int| 0 <= i < k < m implies g.joint_name(i) != g.joint_name(k)
        && g.child_name(i) != g.child_name(k) by {
        lemma_no_first_fault(g, m, k);
    }
    assert forall|k: int| 0 <= k < m implies g.has_link(#[trigger] g.parent_name(k))
        && g.has_link(g.child_name(k)) by {
        lemma_no_first_fault(g, m, k);
    }
}

/// With unique link names, a joint that shares its name with an earlier joint
/// is reported as a duplicate name when every joint before it has existing
/// parent and child links, a name of its own and a child of its own.
pub proof fn lemma_duplicate_joint_name_reported(g: &UrdfGraph, i: int, k: int)
    requires
        g.link_names_unique(),
        0 <= i < k < g.joints@.len(),
        g.joint_name(i) == g.joint_name(k),
        forall|j: int|
            0 <= j < k ==> g.has_link(#[trigger] g.parent_name(j)) && g.has_link(g.child_name(j)),
        forall|a: int, b: int|
            0 <= a < b < k ==> g.joint_name(a) != g.joint_name(b) && g.child_name(a)
                != g.child_name(b),
    ensures
        model_fault(g) == Some("joint names must be unique"@),
{
    lemma_faults_before(g, k);
    assert(joint_fault(g, k) == Some("joint names must be unique"@));
    assert(first_joint_fault(g, k + 1) == Some("joint names must be unique"@));
    lemma_first_fault_stable(g, k + 1, g.joints@.len() as int);
}

/// No joint before `n` is at fault when each has existing links, a name of
/// its own and a child of its own.
proof fn lemma_faults_before(g: &UrdfGraph, n: int)
    requires
        0 <= n <= g.joints@.len(),
        forall|j: int|
            0 <= j < n ==> g.has_link(#[trigger] g.parent_name(j)) && g.has_link(g.child_name(j)),
        forall|a: int, b: int|
            0 <= a < b < n ==> g.joint_name(a) != g.joint_name(b) && g.child_name(a)
                != g.child_name(b),
    ensures
        first_joint_fault(g, n) is None,
    decreases n,
{
    if n > 0 {
        lemma_faults_before(g, n - 1);
        assert(g.has_link(g.parent_name(n - 1)));
        assert(joint_fault(g, n - 1) is None);
    }
}

/// Once a joint is unacceptable, the first fault no longer changes.
pub proof fn lemma_first_fault_stable(g: &UrdfGraph, a: int, b: int)
    requires
        0 <= a <= b,
        first_joint_fault(g, a) is Some,
    ensures
        first_joint_fault(g, b) == first_joint_fault(g, a),
    decreases b - a,
{
    if a < b {
        lemma_first_fault_stable(g, a, b - 1);
    }
}

/// Distinct link names name distinct links.
pub proof fn lemma_unique_link(g: &UrdfGraph, a: int, b: int)
    requires
        g.link_names_unique(),
        0 <= a < g.links@.len(),
        0 <= b < g.links@.len(),
        g.link_name(a) == g.link_name(b),
    ensures
        a == b,
{
    assert(names_of(g.links@)[a] == g.link_name(a));
    assert(names_of(g.links@)[b] == g.link_name(b));
}

fn falses(n: usize) -> (r: Vec<bool>)
    ensures
        r@.len() == n,
        forall|i: int| 0 <= i < n ==> !(#[trigger] r@[i]),
{
    let mut r: Vec<bool> = Vec::new();
    let mut i: usize = 0;
    while i < n
        invariant
            i <= n,
            r@.len() == i,
            forall|a: int| 0 <= a < i ==> !(#[trigger] r@[a]),
        decreases n - i,
    {
        r.push(false);
        i += 1;
    }
    r
}

/// Resolved link indices of every joint's parent and child.
struct JointLinks {
    parents: Vec<usize>,
    children: Vec<usize>,
    has_parent: Vec<bool>,
}

fn resolve_joints(g: &UrdfGraph) -> (r: Result<JointLinks, Error>)
    requires
        g.link_names_unique(),
    ensures
        match first_joint_fault(g, g.joints@.len() as int) {
            Some(m) => r matches Err(Error::InvalidModel(e)) && e@ == m,
            None => r matches Ok(jl) && {
                &&& jl.parents@.len() == g.joints@.len()
                &&& jl.children@.len() == g.joints@.len()
                &&& jl.has_parent@.len() == g.links@.len()
                &&& jl.children@.no_duplicates()
                &&& forall|k: int|
                    #![trigger jl.parents@[k]]
                    #![trigger jl.children@[k]]
                    0 <= k < g.joints@.len() ==> {
                        &&& jl.parents@[k] < g.links@.len()
                        &&& jl.children@[k] < g.links@.len()
                        &&& g.link_name(jl.parents@[k] as int) == g.parent_name(k)
                        &&& g.link_name(jl.children@[k] as int) == g.child_name(k)
                    }
                &&& forall|c: int|
                    0 <= c < g.links@.len() ==> (#[trigger] jl.has_parent@[c] <==> exists|k: int|
                        0 <= k < g.joints@.len() && jl.children@[k] == c)
            }
        },
{
    let n = g.links.len();
    let m = g.joints.len();
    let mut parents: Vec<usize> = Vec::new();
    let mut children: Vec<usize> = Vec::new();
    let mut has_parent = falses(n);
    let mut k: usize = 0;
    while k < m
        invariant
            n == g.links@.len(),
            m == g.joints@.len(),
            g.link_names_unique(),
            k <= m,
            first_joint_fault(g, k as int) is None,
            parents@.len() == k,
            children@.len() == k,
            has_parent@.len() == n,
            children@.no_duplicates(),
            forall|i: int|
                #![trigger parents@[i]]
                #![trigger children@[i]]
                0 <= i < k ==> {
                    &&& parents@[i] < n
                    &&& children@[i] < n
                    &&& g.link_name(parents@[i] as int) == g.parent_name(i)
                    &&& g.link_name(children@[i] as int) == g.child_name(i)
                },
            forall|c: int|
                0 <= c < n ==> (#[trigger] has_parent@[c] <==> exists|i: int|
                    0 <= i < k && children@[i] == c),
        decreases m - k,
    {
        let joint = &g.joints[k];
        let mut i: usize = 0;
        while i < k
            invariant
                m == g.joints@.len(),
                i <= k < m,
                *joint == g.joints@[k as int],
                first_joint_fault(g, k as int) is None,
                forall|a: int| 0 <= a < i ==> g.joint_name(a) != g.joint_name(k as int),
            decreases k - i,
        {
            if g.joints[i].name == joint.name {
                proof {
                    assert(g.joint_name(i as int) == g.joint_name(k as int));
                    assert(joint_fault(g, k as int) == Some("joint names must be unique"@));
                    lemma_first_fault_stable(g, k + 1, m as int);
                }
                return Err(Error::InvalidModel(text("joint names must be unique")));
            }
            i += 1;
        }
        let parent = match find_name(&g.links, &joint.parent) {
            Some(p) => p,
            None => {
                proof {
                    assert(!g.has_link(g.parent_name(k as int)));
                    lemma_first_fault_stable(g, k + 1, m as int);
                }
                return Err(
                    Error::InvalidModel(
                        join3("joint ", joint.name.as_str(), " references a missing parent link"),
                    ),
                );
            },
        };
        let child = match find_name(&g.links, &joint.child) {
            Some(c) => c,
            None => {
                proof {
                    assert(g.has_link(g.parent_name(k as int))) by {
                        assert(g.link_name(parent as int) == g.parent_name(k as int));
                    }
                    assert(!g.has_link(g.child_name(k as int)));
                    lemma_first_fault_stable(g, k + 1, m as int);
                }
                return Err(
                    Error::InvalidModel(
                        join3("joint ", joint.name.as_str(), " references a missing child link"),
                    ),
                );
            },
        };
        proof {
            assert(g.link_name(parent as int) == g.parent_name(k as int));
            assert(g.link_name(child as int) == g.child_name(k as int));
            assert(g.has_link(g.parent_name(k as int)));
            assert(g.has_link(g.child_name(k as int)));
        }
        if has_parent[child] {
            proof {
                let i = choose|i: int| 0 <= i < k && children@[i] == child as int;
                assert(g.child_name(i) == g.child_name(k as int));
                lemma_first_fault_stable(g, k + 1, m as int);
            }
            return Err(
                Error::InvalidModel(
                    join3("link ", joint.child.as_str(), " is reached more than once"),
                ),
            );
        }
        proof {
            assert forall|i: int| 0 <= i < k implies g.child_name(i) != g.child_name(
                k as int,
            ) by {
                if g.child_name(i) == g.child_name(k as int) {
                    lemma_unique_link(g, children@[i] as int, child as int);
                    assert(has_parent@[child as int]);
                }
            }
            assert(joint_fault(g, k as int) is None);
        }
        let ghost old_children = children@;
        let ghost old_has = has_parent@;
        assert(!old_has[child as int]);
        parents.push(parent);
        children.push(child);
        has_parent.set(child, true);
        proof {
            assert(children@ == old_children.push(child));
            assert forall|a: int, b: int|
                0 <= a < children@.len() && 0 <= b < children@.len() && a != b implies children@[a]
                != children@[b] by {
                if a < k && b < k {
                    assert(children@[a] == old_children[a]);
                    assert(children@[b] == old_children[b]);
                } else if a == k {
                    assert(children@[b] == old_children[b]);
                    if children@[b] == child {
                        assert(old_children[b] == child);
                        assert(old_has[child as int]);
                    }
                } else {
                    assert(children@[a] == old_children[a]);
                }
            }
            assert forall|c: int| 0 <= c < n implies (#[trigger] has_parent@[c] <==> exists|i: int|
                0 <= i < k + 1 && children@[i] == c) by {
                if c == child {
                    assert(children@[k as int] == c);
                } else {
                    if exists|i: int| 0 <= i < k + 1 && children@[i] == c {
                        let i = choose|i: int| 0 <= i < k + 1 && children@[i] == c;
                        assert(i < k);
                        assert(old_children[i] == c);
                    }
                    if has_parent@[c] {
                        assert(old_has[c]);
                        let i = choose|i: int| 0 <= i < k && old_children[i] == c;
                        assert(children@[i] == c);
                    }
                }
            }
        }
        k += 1;
    }
    Ok(JointLinks { parents, children, has_parent })
}



/// Index-level breadth-first order of the links reachable from `root`, where
/// joint `k` leads from link `ps[k]` to link `cs[k]`.
pub open spec fn is_index_order(
    ps: Seq<usize>,
    cs: Seq<usize>,
    root: usize,
    n: nat,
    links: Seq<usize>,
    joints: Seq<usize>,
    parents: Seq<usize>,
) -> bool {
    &&& links.len() >= 1
    &&& links[0] == root
    &&& joints.len() + 1 == links.len()
    &&& parents.len() == joints.len()
    &&& links.no_duplicates()
    &&& forall|t: int| 0 <= t < links.len() ==> (#[trigger] links[t]) < n
    &&& forall|t: int|
        #![trigger joints[t]]
        0 <= t < joints.len() ==> {
            &&& joints[t] < ps.len()
            &&& parents[t] <= t
            &&& ps[joints[t] as int] == links[parents[t] as int]
            &&& cs[joints[t] as int] == links[t + 1]
        }
    &&& forall|t: int, u: int|
        0 <= t < u < joints.len() ==> lex_lt(
            parents[t] as int,
            joints[t] as int,
            parents[u] as int,
            joints[u] as int,
        )
    &&& forall|q: int, k: int|
        0 <= q < links.len() && 0 <= k < ps.len() && ps[k] == links[q] ==> joints.contains(
            k as usize,
        )
}

fn breadth_first(ps: &Vec<usize>, cs: &Vec<usize>, root: usize, n: usize) -> (r: TreeOrder)
    requires
        ps@.len() == cs@.len(),
        root < n,
        cs@.no_duplicates(),
        forall|k: int| 0 <= k < ps@.len() ==> (#[trigger] ps@[k]) < n,
        forall|k: int| 0 <= k < cs@.len() ==> (#[trigger] cs@[k]) < n && cs@[k] != root,
    ensures
        is_index_order(ps@, cs@, root, n as nat, r.links@, r.joints@, r.parent_link_indices@),
{
    let m = ps.len();
    let mut discovered = falses(n);
    discovered.set(root, true);
    let mut links: Vec<usize> = Vec::new();
    links.push(root);
    let mut joints: Vec<usize> = Vec::new();
    let mut parents: Vec<usize> = Vec::new();
    proof {
        assert forall|c: int| 0 <= c < n implies (#[trigger] discovered@[c] <==> links@.contains(
            c as usize,
        )) by {
            if c == root {
                assert(links@[0] == root);
            }
        }
    }
    let mut p: usize = 0;
    while p < links.len()
        invariant
            m == ps@.len(),
            m == cs@.len(),
            root < n,
            cs@.no_duplicates(),
            forall|k: int| 0 <= k < m ==> (#[trigger] ps@[k]) < n,
            forall|k: int| 0 <= k < m ==> (#[trigger] cs@[k]) < n && cs@[k] != root,
            p <= links@.len() <= n,
            links@.len() >= 1,
            links@[0] == root,
            joints@.len() + 1 == links@.len(),
            parents@.len() == joints@.len(),
            links@.no_duplicates(),
            forall|t: int| 0 <= t < links@.len() ==> (#[trigger] links@[t]) < n,
            discovered@.len() == n,
            forall|c: int| 0 <= c < n ==> (#[trigger] discovered@[c] <==> links@.contains(c as usize)),
            forall|t: int|
                #![trigger joints@[t]]
                0 <= t < joints@.len() ==> {
                    &&& joints@[t] < m
                    &&& parents@[t] <= t
                    &&& parents@[t] < p
                    &&& ps@[joints@[t] as int] == links@[parents@[t] as int]
                    &&& cs@[joints@[t] as int] == links@[t + 1]
                },
            forall|t: int, u: int|
                0 <= t < u < joints@.len() ==> lex_lt(
                    parents@[t] as int,
                    joints@[t] as int,
                    parents@[u] as int,
                    joints@[u] as int,
                ),
            forall|q: int, k: int|
                0 <= q < p && 0 <= k < m && ps@[k] == links@[q] ==> joints@.contains(k as usize),
        decreases n - p,
    {
        let parent = links[p];
        let mut k: usize = 0;
        while k < m
            invariant
                m == ps@.len(),
                m == cs@.len(),
                root < n,
                cs@.no_duplicates(),
                forall|k: int| 0 <= k < m ==> (#[trigger] ps@[k]) < n,
                forall|k: int| 0 <= k < m ==> (#[trigger] cs@[k]) < n && cs@[k] != root,
                k <= m,
                p < links@.len() <= n,
                parent == links@[p as int],
                links@.len() >= 1,
                links@[0] == root,
                joints@.len() + 1 == links@.len(),
                parents@.len() == joints@.len(),
                links@.no_duplicates(),
                forall|t: int| 0 <= t < links@.len() ==> (#[trigger] links@[t]) < n,
                discovered@.len() == n,
                forall|c: int|
                    0 <= c < n ==> (#[trigger] discovered@[c] <==> links@.contains(c as usize)),
                forall|t: int|
                    #![trigger joints@[t]]
                    0 <= t < joints@.len() ==> {
                        &&& joints@[t] < m
                        &&& parents@[t] <= t
                        &&& lex_lt(parents@[t] as int, joints@[t] as int, p as int, k as int)
                        &&& ps@[joints@[t] as int] == links@[parents@[t] as int]
                        &&& cs@[joints@[t] as int] == links@[t + 1]
                    },
                forall|t: int, u: int|
                    0 <= t < u < joints@.len() ==> lex_lt(
                        parents@[t] as int,
                        joints@[t] as int,
                        parents@[u] as int,
                        joints@[u] as int,
                    ),
                forall|q: int, j: int|
                    0 <= q < p && 0 <= j < m && ps@[j] == links@[q] ==> joints@.contains(j as usize),
                forall|j: int|
                    0 <= j < k && ps@[j] == parent ==> joints@.contains(j as usize),
            decreases m - k,
        {
            if ps[k] == parent {
                let child = cs[k];
                proof {
                    if links@.contains(child) {
                        let u = choose|u: int| 0 <= u < links@.len() && links@[u] == child;
                        if u == 0 {
                            assert(cs@[k as int] == root);
                        } else {
                            let t = u - 1;
                            assert(cs@[joints@[t] as int] == links@[t + 1]);
                            assert(joints@[t] == k);
                            assert(ps@[joints@[t] as int] == links@[parents@[t] as int]);
                            assert(links@[parents@[t] as int] == links@[p as int]);
                            assert(parents@[t] == p);
                        }
                    }
                    assert(!discovered@[child as int]);
                }
                let ghost old_links = links@;
                let ghost old_joints = joints@;
                let ghost old_parents = parents@;
                discovered.set(child, true);
                links.push(child);
                joints.push(k);
                parents.push(p);
                proof {
                    assert(links@ == old_links.push(child));
                    assert(joints@ == old_joints.push(k));
                    assert forall|a: int, b: int|
                        0 <= a < links@.len() && 0 <= b < links@.len() && a != b implies links@[a]
                        != links@[b] by {
                        if a == old_links.len() {
                            assert(old_links.contains(links@[b]));
                        } else if b == old_links.len() {
                            assert(old_links.contains(links@[a]));
                        } else {
                            assert(links@[a] == old_links[a]);
                            assert(links@[b] == old_links[b]);
                        }
                    }
                    lemma_distinct_indices_bounded(links@, n as nat);
                    assert forall|c: int| 0 <= c < n implies (#[trigger] discovered@[c]
                        <==> links@.contains(c as usize)) by {
                        if c == child {
                            assert(links@[old_links.len() as int] == child);
                        } else {
                            if links@.contains(c as usize) {
                                let u = choose|u: int| 0 <= u < links@.len() && links@[u] == c;
                                assert(u < old_links.len());
                                assert(old_links[u] == c);
                            }
                            if old_links.contains(c as usize) {
                                let u = choose|u: int| 0 <= u < old_links.len() && old_links[u] == c;
                                assert(links@[u] == c);
                            }
                        }
                    }
                    assert forall|q: int, j: int|
                        0 <= q < p && 0 <= j < m && ps@[j] == links@[q] implies joints@.contains(
                        j as usize,
                    ) by {
                        assert(links@[q] == old_links[q]);
                        assert(old_joints.contains(j as usize));
                        let t = choose|t: int| 0 <= t < old_joints.len() && old_joints[t] == j;
                        assert(joints@[t] == j);
                    }
                    assert forall|j: int| 0 <= j < k + 1 && ps@[j] == parent implies joints@.contains(
                        j as usize,
                    ) by {
                        if j == k {
                            assert(joints@[old_joints.len() as int] == k);
                        } else {
                            assert(old_joints.contains(j as usize));
                            let t = choose|t: int| 0 <= t < old_joints.len() && old_joints[t] == j;
                            assert(joints@[t] == j);
                        }
                    }
                }
            }
            k += 1;
        }
        p += 1;
    }
    TreeOrder { links, joints, parent_link_indices: parents }
}


/// Counts the links without a parent joint and returns the count with the last
/// such link.
fn count_roots(g: &UrdfGraph, jl: &JointLinks) -> (r: (usize, usize))
    requires
        g.link_names_unique(),
        jl.has_parent@.len() == g.links@.len(),
        jl.children@.len() == g.joints@.len(),
        forall|k: int|
            #![trigger jl.children@[k]]
            0 <= k < g.joints@.len() ==> jl.children@[k] < g.links@.len() && g.link_name(
                jl.children@[k] as int,
            ) == g.child_name(k),
        forall|c: int|
            0 <= c < g.links@.len() ==> (#[trigger] jl.has_parent@[c] <==> exists|k: int|
                0 <= k < g.joints@.len() && jl.children@[k] == c),
    ensures
        r.0 == g.root_count(),
        r.0 >= 1 ==> r.1 < g.links@.len() && !g.is_child_link(r.1 as int),
{
    let n = g.links.len();
    let mut count: usize = 0;
    let mut root: usize = 0;
    let mut i: usize = 0;
    while i < n
        invariant
            n == g.links@.len(),
            i <= n,
            count <= i,
            count == g.root_count_upto(i as int),
            count >= 1 ==> root < i && !g.is_child_link(root as int),
            g.link_names_unique(),
            jl.has_parent@.len() == g.links@.len(),
            jl.children@.len() == g.joints@.len(),
            forall|k: int|
                #![trigger jl.children@[k]]
                0 <= k < g.joints@.len() ==> jl.children@[k] < g.links@.len() && g.link_name(
                    jl.children@[k] as int,
                ) == g.child_name(k),
            forall|c: int|
                0 <= c < g.links@.len() ==> (#[trigger] jl.has_parent@[c] <==> exists|k: int|
                    0 <= k < g.joints@.len() && jl.children@[k] == c),
        decreases n - i,
    {
        proof {
            if g.is_child_link(i as int) {
                let k = choose|k: int|
                    0 <= k < g.joints@.len() && g.child_name(k) == g.link_name(i as int);
                lemma_unique_link(g, jl.children@[k] as int, i as int);
                assert(jl.has_parent@[i as int]);
            }
            if jl.has_parent@[i as int] {
                let k = choose|k: int| 0 <= k < g.joints@.len() && jl.children@[k] == i;
                assert(g.child_name(k) == g.link_name(i as int));
            }
        }
        if !jl.has_parent[i] {
            count += 1;
            root = i;
        }
        i += 1;
    }
    (count, root)
}

/// Validates the topology of a robot description and orders its links root
/// first, breadth first, visiting the joints that leave a link in document order.
///
/// Link names and joint names must be unique, every joint must name existing
/// parent and child links, no link may be the child of two joints, and exactly
/// one link may be the child of no joint. The first violation, in that order and
/// joint by joint, is reported. Links that cannot be reached from the root are
/// left out of the order; [`check_connected`] rejects such descriptions.
pub fn order_tree(g: &UrdfGraph) -> (r: Result<TreeOrder, Error>)
    ensures
        match model_fault(g) {
            Some(m) => r matches Err(Error::InvalidModel(e)) && e@ == m,
            None => r matches Ok(o) && is_tree_order(
                g,
                o.links@,
                o.joints@,
                o.parent_link_indices@,
            ),
        },
        r is Ok ==> g.link_names_unique() && g.joint_names_unique() && g.root_count() == 1,
{
    proof {
        if model_fault(g) is None {
            lemma_accepted_topology(g);
        }
    }
    if !all_names_distinct(&g.links) {
        return Err(Error::InvalidModel(text("link names must be unique")));
    }
    let jl = resolve_joints(g)?;
    let (count, root) = count_roots(g, &jl);
    if count != 1 {
        let found = decimal(count);
        return Err(
            Error::InvalidModel(join2("expected one root link, found ", found.as_str())),
        );
    }
    proof {
        assert forall|k: int| 0 <= k < jl.children@.len() implies (#[trigger] jl.children@[k])
            < g.links@.len() && jl.children@[k] != root by {
            assert(jl.parents@[k] < g.links@.len());
            if jl.children@[k] == root {
                assert(g.child_name(k) == g.link_name(root as int));
            }
        }
        assert forall|k: int| 0 <= k < jl.parents@.len() implies (#[trigger] jl.parents@[k])
            < g.links@.len() by {
        }
    }
    let o = breadth_first(&jl.parents, &jl.children, root, g.links.len());
    proof {
        let links = o.links@;
        let joints = o.joints@;
        let parents = o.parent_link_indices@;
        assert forall|t: int|
            #![trigger joints[t]]
            0 <= t < joints.len() implies {
            &&& joints[t] < g.joints@.len()
            &&& parents[t] <= t
            &&& g.parent_name(joints[t] as int) == g.link_name(links[parents[t] as int] as int)
            &&& g.child_name(joints[t] as int) == g.link_name(links[t + 1] as int)
        } by {
            assert(jl.parents@[joints[t] as int] == links[parents[t] as int]);
        }
        assert forall|q: int, k: int|
            0 <= q < links.len() && 0 <= k < g.joints@.len() && g.parent_name(k) == g.link_name(
                links[q] as int,
            ) implies joints.contains(k as usize) by {
            assert(jl.parents@[k] < g.links@.len());
            lemma_unique_link(g, jl.parents@[k] as int, links[q] as int);
        }
    }
    Ok(o)
}

/// Rejects a description whose joint graph leaves links unreachable from the
/// root (a disconnected part or a cycle).
pub fn check_connected(g: &UrdfGraph, o: &TreeOrder) -> (r: Result<(), Error>)
    ensures
        r is Ok <==> (o.joints@.len() == g.joints@.len() && o.links@.len() == g.links@.len()),
        r matches Err(Error::InvalidModel(e)) ==> e@ == "joint graph is disconnected or cyclic"@,
        r is Err ==> r matches Err(Error::InvalidModel(_)),
{
    if o.joints.len() != g.joints.len() || o.links.len() != g.links.len() {
        Err(Error::InvalidModel(text("joint graph is disconnected or cyclic")))
    } else {
        Ok(())
    }
}


/// A valid, connected description is ordered completely: every link and every
/// joint of the description appears exactly once in the order.
pub proof fn lemma_connected_order_is_complete(g: &UrdfGraph, o: &TreeOrder)
    requires
        model_fault(g) is None,
        is_tree_order(g, o.links@, o.joints@, o.parent_link_indices@),
        o.joints@.len() == g.joints@.len(),
        o.links@.len() == g.links@.len(),
    ensures
        forall|i: usize| i < g.links@.len() ==> o.links@.contains(i),
        forall|k: usize| k < g.joints@.len() ==> o.joints@.contains(k),
        o.joints@.no_duplicates(),
{
    let links = o.links@;
    let joints = o.joints@;
    crate::counting::lemma_distinct_indices_cover(links, g.links@.len());
    assert forall|t: int, u: int|
        0 <= t < joints.len() && 0 <= u < joints.len() && t != u implies joints[t]
        != joints[u] by {
        if joints[t] == joints[u] {
            assert(g.link_name(links[t + 1] as int) == g.link_name(links[u + 1] as int));
            lemma_unique_link(g, links[t + 1] as int, links[u + 1] as int);
        }
    }
    assert forall|t: int| 0 <= t < joints.len() implies (#[trigger] joints[t]) < g.joints@.len() by {
    }
    crate::counting::lemma_distinct_indices_cover(joints, g.joints@.len());
}

} // verus!
