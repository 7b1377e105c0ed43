//! Validation of a robot description and its breadth-first walk, as used to
//! build a [`crate::robot_arm::RobotArm`]. Unlike [`crate::tree::order_tree`],
//! joints are followed by the name of their parent link, and a child link that
//! is missing or reached a second time is reported when the walk meets it.

use vstd::prelude::*;

use crate::counting::lemma_distinct_indices_bounded;
use crate::description::{all_names_distinct, find_name, lex_lt, UrdfGraph};
use crate::error::{decimal, decimal_text, join2, join3, text, Error};
use crate::tree::{lemma_unique_link, TreeOrder};

verus! {

/// The walk of a description from its root: the links reached so far, the
/// leaf positions once the walk is complete, and the problem that stopped it.
#[derive(Debug)]
pub struct TreeWalk {
    /// The links and joints reached, root first.
    pub order: TreeOrder,
    /// Positions of reached links that no joint leaves, ascending; empty when
    /// the walk stopped early.
    pub leaf_links: Vec<usize>,
    /// The problem that stopped the walk, if any.
    pub fault: Option<Error>,
}

/// The first problem found before walking: duplicate link or joint names, or
/// not exactly one link that is the child of no joint.
pub open spec fn walk_precondition_fault(g: &UrdfGraph) -> Option<Seq<char>> {
    if !g.link_names_unique() {
        Some("link names must be unique"@)
    } else if !g.joint_names_unique() {
        Some("joint names must be unique"@)
    } else if g.root_count() != 1 {
        Some("expected one root link, found "@ + decimal_text(g.root_count()))
    } else {
        None
    }
}

/// A walk starts only on a description with pairwise distinct link names,
/// pairwise distinct joint names and exactly one root link; with distinct
/// link names, any two joints that share a name stop it with the duplicate
/// joint-name message.
pub proof fn lemma_walk_start(g: &UrdfGraph)
    ensures
        walk_precondition_fault(g) is None ==> g.link_names_unique() && (forall|i: int, k: int|
            0 <= i < k < g.joints@.len() ==> g.joint_name(i) != g.joint_name(k))
            && g.root_count() == 1,
        forall|i: int, k: int|
            g.link_names_unique() && 0 <= i < k < g.joints@.len() && g.joint_name(i)
                == g.joint_name(k) ==> walk_precondition_fault(g) == Some(
                "joint names must be unique"@,
            ),
{
}

/// Joint `k` leaves the link at position `q` of the walk.
pub open spec fn leaves(g: &UrdfGraph, links: Seq<usize>, q: int, k: int) -> bool {
    g.parent_name(k) == g.link_name(links[q] as int)
}

/// Shape shared by every walk: the root first, each listed joint leading from
/// an earlier position to the next one, in (parent position, joint) order.
pub open spec fn is_walk(
    g: &UrdfGraph,
    links: Seq<usize>,
    joints: Seq<usize>,
    parents: Seq<usize>,
) -> bool {
    &&& links.len() >= 1
    &&& joints.len() + 1 == links.len()
    &&& parents.len() == joints.len()
    &&& links.no_duplicates()
    &&& forall|t: int| 0 <= t < links.len() ==> (#[trigger] links[t]) < g.links@.len()
    &&& !g.is_child_link(links[0] as int)
    &&& forall|t: int|
        #![trigger joints[t]]
        0 <= t < joints.len() ==> {
            &&& joints[t] < g.joints@.len()
            &&& parents[t] <= t
            &&& g.parent_name(joints[t] as int) == g.link_name(links[parents[t] as int] as int)
            &&& g.child_name(joints[t] as int) == g.link_name(links[t + 1] as int)
        }
    &&& forall|t: int, u: int|
        0 <= t < u < joints.len() ==> lex_lt(
            parents[t] as int,
            joints[t] as int,
            parents[u] as int,
            joints[u] as int,
        )
}

/// Every joint leaving a listed link is listed.
pub open spec fn walk_is_complete(g: &UrdfGraph, links: Seq<usize>, joints: Seq<usize>) -> bool {
    forall|q: int, k: int|
        0 <= q < links.len() && 0 <= k < g.joints@.len() && leaves(g, links, q, k)
            ==> joints.contains(k as usize)
}

/// The walk stopped at joint `k` leaving position `q`: every listed joint comes
/// before it, every joint before it is listed, and `msg` describes why its child
/// could not be added.
pub open spec fn walk_stopped_at(
    g: &UrdfGraph,
    links: Seq<usize>,
    joints: Seq<usize>,
    parents: Seq<usize>,
    q: int,
    k: int,
    msg: Seq<char>,
) -> bool {
    &&& 0 <= q < links.len()
    &&& 0 <= k < g.joints@.len()
    &&& leaves(g, links, q, k)
    &&& forall|t: int|
        0 <= t < joints.len() ==> lex_lt(parents[t] as int, (#[trigger] joints[t]) as int, q, k)
    &&& forall|a: int, b: int|
        0 <= a < links.len() && 0 <= b < g.joints@.len() && lex_lt(a, b, q, k) && leaves(
            g,
            links,
            a,
            b,
        ) ==> joints.contains(b as usize)
    &&& if !g.has_link(g.child_name(k)) {
        msg == "joint "@ + g.joint_name(k) + " references a missing child link"@
    } else {
        exists|r: int|
            0 <= r < links.len() && g.link_name(links[r] as int) == g.child_name(k) && msg == "link "@
                + g.child_name(k) + " is reached more than once (first index "@ + decimal_text(
                r as nat,
            ) + ")"@
    }
}

/// `leaf` lists, ascending, the positions of `links` that no joint leaves.
pub open spec fn is_leaf_list(g: &UrdfGraph, links: Seq<usize>, leaf: Seq<usize>) -> bool {
    &&& forall|i: int| 0 <= i < leaf.len() ==> (#[trigger] leaf[i]) < links.len()
    &&& forall|i: int, j: int| 0 <= i < j < leaf.len() ==> leaf[i] < leaf[j]
    &&& forall|p: int|
        #![trigger links[p]]
        #![trigger leaf.contains(p as usize)]
        0 <= p < links.len() ==> (leaf.contains(p as usize) <==> !exists|k: int|
            0 <= k < g.joints@.len() && leaves(g, links, p, k))
}

fn joint_names_distinct(g: &UrdfGraph) -> (r: bool)
    ensures
        r == g.joint_names_unique(),
{
    let m = g.joints.len();
    let mut j: usize = 0;
    while j < m
        invariant
            m == g.joints@.len(),
            j <= m,
            forall|a: int, b: int| 0 <= a < b < j ==> g.joint_name(a) != g.joint_name(b),
        decreases m - j,
    {
        let mut i: usize = 0;
        while i < j
            invariant
                m == g.joints@.len(),
                i <= j < m,
                forall|a: int| 0 <= a < i ==> g.joint_name(a) != g.joint_name(j as int),
            decreases j - i,
        {
            if g.joints[i].name == g.joints[j].name {
                assert(g.joint_name(i as int) == g.joint_name(j as int));
                return false;
            }
            i += 1;
        }
        j += 1;
    }
    true
}

fn root_link(g: &UrdfGraph) -> (r: (usize, usize))
    ensures
        r.0 == g.root_count(),
        r.0 >= 1 ==> r.1 < g.links@.len() && !g.is_child_link(r.1 as int),
{
    let n = g.links.len();
    let m = g.joints.len();
    let mut count: usize = 0;
    let mut root: usize = 0;
    let mut i: usize = 0;
    while i < n
        invariant
            n == g.links@.len(),
            m == g.joints@.len(),
            i <= n,
            count <= i,
            count == g.root_count_upto(i as int),
            count >= 1 ==> root < i && !g.is_child_link(root as int),
        decreases n - i,
    {
        let mut is_child = false;
        let mut k: usize = 0;
        while k < m
            invariant
                n == g.links@.len(),
                m == g.joints@.len(),
                i < n,
                k <= m,
                is_child <==> exists|a: int| 0 <= a < k && g.child_name(a) == g.link_name(i as int),
            decreases m - k,
        {
            if g.joints[k].child == g.links[i] {
                is_child = true;
                assert(g.child_name(k as int) == g.link_name(i as int));
            }
            proof {
                if exists|a: int| 0 <= a < k + 1 && g.child_name(a) == g.link_name(i as int) {
                    if !is_child {
                        let a = choose|a: int| 0 <= a < k + 1 && g.child_name(a) == g.link_name(i as int);
                        assert(a == k);
                    }
                }
            }
            k += 1;
        }
        if !is_child {
            count += 1;
            root = i;
        }
        i += 1;
    }
    (count, root)
}

fn position_of(links: &Vec<usize>, x: usize) -> (r: usize)
    requires
        links@.contains(x),
    ensures
        r < links@.len(),
        links@[r as int] == x,
{
    let n = links.len();
    let mut i: usize = 0;
    while i < n
        invariant
            n == links@.len(),
            i <= n,
            links@.contains(x),
            forall|a: int| 0 <= a < i ==> links@[a] != x,
        decreases n - i,
    {
        if links[i] == x {
            return i;
        }
        i += 1;
    }
    proof {
        let a = choose|a: int| 0 <= a < links@.len() && links@[a] == x;
        assert(links@[a] != x);
    }
    0
}


fn falses(n: usize) -> (r: Vec<bool>)
    ensures
        r@.len() == n,
        forall|i: int| 0 <= i < n ==> !(#[trigger] r@[i]),
{
    let mut r: Vec<bool> = Vec::new();
    let mut i: usize = 0;
    while i < n
        invariant
            i <= n,
            r@.len() == i,
            forall|a: int| 0 <= a < i ==> !(#[trigger] r@[a]),
        decreases n - i,
    {
        r.push(false);
        i += 1;
    }
    r
}

fn stopped(links: Vec<usize>, joints: Vec<usize>, parents: Vec<usize>, fault: Error) -> (r: TreeWalk)
    ensures
        r.order.links@ == links@,
        r.order.joints@ == joints@,
        r.order.parent_link_indices@ == parents@,
        r.leaf_links@.len() == 0,
        r.fault == Some(fault),
{
    TreeWalk {
        order: TreeOrder { links, joints, parent_link_indices: parents },
        leaf_links: Vec::new(),
        fault: Some(fault),
    }
}

/// Validates a robot description and walks it breadth first from its root,
/// following in document order the joints whose parent is the current link.
///
/// Link and joint names must be unique and exactly one link may be the child
/// of no joint; otherwise the walk does not start. The walk stops at the first
/// joint whose child link does not exist or was already reached, and records
/// that problem; links reached before it are kept so that callers can process
/// them first.
pub fn tree_model(g: &UrdfGraph) -> (r: Result<TreeWalk, Error>)
    ensures
        match walk_precondition_fault(g) {
            Some(m) => r matches Err(Error::InvalidModel(e)) && e@ == m,
            None => r matches Ok(w) && is_walk(
                g,
                w.order.links@,
                w.order.joints@,
                w.order.parent_link_indices@,
            ) && match w.fault {
                None => walk_is_complete(g, w.order.links@, w.order.joints@) && is_leaf_list(
                    g,
                    w.order.links@,
                    w.leaf_links@,
                ),
                Some(f) => w.leaf_links@.len() == 0 && (f matches Error::InvalidModel(e) && exists|q: int, k: int|
                    walk_stopped_at(
                        g,
                        w.order.links@,
                        w.order.joints@,
                        w.order.parent_link_indices@,
                        q,
                        k,
                        e@,
                    )),
            },
        },
        r is Ok ==> g.link_names_unique() && g.joint_names_unique() && g.root_count() == 1,
{
    if !all_names_distinct(&g.links) {
        return Err(Error::InvalidModel(text("link names must be unique")));
    }
    if !joint_names_distinct(g) {
        return Err(Error::InvalidModel(text("joint names must be unique")));
    }
    let (count, root) = root_link(g);
    if count != 1 {
        let found = decimal(count);
        return Err(
            Error::InvalidModel(join2("expected one root link, found ", found.as_str())),
        );
    }
    let n = g.links.len();
    let m = g.joints.len();
    let mut discovered = falses(n);
    discovered.set(root, true);
    let mut links: Vec<usize> = Vec::new();
    links.push(root);
    let mut joints: Vec<usize> = Vec::new();
    let mut parents: Vec<usize> = Vec::new();
    let mut has_children: Vec<bool> = Vec::new();
    has_children.push(false);
    proof {
        assert forall|c: int| 0 <= c < n implies (#[trigger] discovered@[c] <==> links@.contains(
            c as usize,
        )) by {
            if c == root {
                assert(links@[0] == root);
            }
        }
    }
    let mut p: usize = 0;
    while p < links.len()
        invariant
            n == g.links@.len(),
            m == g.joints@.len(),
            g.link_names_unique(),
            walk_precondition_fault(g) is None,
            root < n,
            !g.is_child_link(root as int),
            p <= links@.len() <= n,
            links@.len() >= 1,
            links@[0] == root,
            joints@.len() + 1 == links@.len(),
            parents@.len() == joints@.len(),
            has_children@.len() == links@.len(),
            links@.no_duplicates(),
            forall|t: int| 0 <= t < links@.len() ==> (#[trigger] links@[t]) < n,
            discovered@.len() == n,
            forall|c: int| 0 <= c < n ==> (#[trigger] discovered@[c] <==> links@.contains(c as usize)),
            forall|t: int|
                #![trigger joints@[t]]
                0 <= t < joints@.len() ==> {
                    &&& joints@[t] < m
                    &&& parents@[t] <= t
                    &&& parents@[t] < p
                    &&& g.parent_name(joints@[t] as int) == g.link_name(
                        links@[parents@[t] as int] as int,
                    )
                    &&& g.child_name(joints@[t] as int) == g.link_name(links@[t + 1] as int)
                },
            forall|t: int, u: int|
                0 <= t < u < joints@.len() ==> lex_lt(
                    parents@[t] as int,
                    joints@[t] as int,
                    parents@[u] as int,
                    joints@[u] as int,
                ),
            forall|q: int, k: int|
                0 <= q < p && 0 <= k < m && leaves(g, links@, q, k) ==> joints@.contains(k as usize),
            forall|q: int|
                0 <= q < links@.len() ==> (#[trigger] has_children@[q] <==> (q < p && exists|k: int|
                    0 <= k < m && leaves(g, links@, q, k))),
        decreases n - p,
    {
        let current = links[p];
        let mut k: usize = 0;
        while k < m
            invariant
                n == g.links@.len(),
                m == g.joints@.len(),
                g.link_names_unique(),
                walk_precondition_fault(g) is None,
                root < n,
                !g.is_child_link(root as int),
                k <= m,
                p < links@.len() <= n,
                current == links@[p as int],
                links@.len() >= 1,
                links@[0] == root,
                joints@.len() + 1 == links@.len(),
                parents@.len() == joints@.len(),
                has_children@.len() == links@.len(),
                links@.no_duplicates(),
                forall|t: int| 0 <= t < links@.len() ==> (#[trigger] links@[t]) < n,
                discovered@.len() == n,
                forall|c: int|
                    0 <= c < n ==> (#[trigger] discovered@[c] <==> links@.contains(c as usize)),
                forall|t: int|
                    #![trigger joints@[t]]
                    0 <= t < joints@.len() ==> {
                        &&& joints@[t] < m
                        &&& parents@[t] <= t
                        &&& lex_lt(parents@[t] as int, joints@[t] as int, p as int, k as int)
                        &&& g.parent_name(joints@[t] as int) == g.link_name(
                            links@[parents@[t] as int] as int,
                        )
                        &&& g.child_name(joints@[t] as int) == g.link_name(links@[t + 1] as int)
                    },
                forall|t: int, u: int|
                    0 <= t < u < joints@.len() ==> lex_lt(
                        parents@[t] as int,
                        joints@[t] as int,
                        parents@[u] as int,
                        joints@[u] as int,
                    ),
                forall|q: int, j: int|
                    0 <= q < p && 0 <= j < m && leaves(g, links@, q, j) ==> joints@.contains(
                        j as usize,
                    ),
                forall|j: int|
                    0 <= j < k && leaves(g, links@, p as int, j) ==> joints@.contains(j as usize),
                forall|q: int|
                    0 <= q < links@.len() && q != p ==> (#[trigger] has_children@[q] <==> (q < p
                        && exists|j: int| 0 <= j < m && leaves(g, links@, q, j))),
                has_children@[p as int] <==> exists|j: int| 0 <= j < k && leaves(g, links@, p as int, j),
            decreases m - k,
        {
            if g.joints[k].parent == g.links[current] {
                proof {
                    assert(leaves(g, links@, p as int, k as int));
                }
                has_children.set(p, true);
                let child = match find_name(&g.links, &g.joints[k].child) {
                    Some(c) => c,
                    None => {
                        let message = join3(
                            "joint ",
                            g.joints[k].name.as_str(),
                            " references a missing child link",
                        );
                        let ghost text_view = message@;
                        proof {
                            assert(!g.has_link(g.child_name(k as int)));
                            assert(walk_stopped_at(g, links@, joints@, parents@, p as int, k as int, text_view));
                        }
                        let w = stopped(links, joints, parents, Error::InvalidModel(message));
                        proof {
                            assert(walk_stopped_at(
                                g,
                                w.order.links@,
                                w.order.joints@,
                                w.order.parent_link_indices@,
                                p as int,
                                k as int,
                                text_view,
                            ));
                            assert(is_walk(g, w.order.links@, w.order.joints@, w.order.parent_link_indices@));
                            assert(w.fault matches Some(Error::InvalidModel(e)) && e@ == text_view);
                            assert(exists|q: int, kk: int| walk_stopped_at(g, w.order.links@, w.order.joints@, w.order.parent_link_indices@, q, kk, text_view));
                        }
                        return Ok(w);
                    },
                };
                if discovered[child] {
                    let first = position_of(&links, child);
                    let first_text = decimal(first);
                    let mut message = join3(
                        "link ",
                        g.joints[k].child.as_str(),
                        " is reached more than once (first index ",
                    );
                    message.append(first_text.as_str());
                    message.append(")");
                    proof {
                        assert(g.has_link(g.child_name(k as int))) by {
                            assert(g.link_name(child as int) == g.child_name(k as int));
                        }
                        assert(g.link_name(links@[first as int] as int) == g.child_name(k as int));
                        assert(walk_stopped_at(
                            g,
                            links@,
                            joints@,
                            parents@,
                            p as int,
                            k as int,
                            message@,
                        ));
                    }
                    let ghost text_view = message@;
                    let w = stopped(links, joints, parents, Error::InvalidModel(message));
                    proof {
                        assert(walk_stopped_at(
                            g,
                            w.order.links@,
                            w.order.joints@,
                            w.order.parent_link_indices@,
                            p as int,
                            k as int,
                            text_view,
                        ));
                        assert(is_walk(g, w.order.links@, w.order.joints@, w.order.parent_link_indices@));
                        assert(w.fault matches Some(Error::InvalidModel(e)) && e@ == text_view);
                    }
                    return Ok(w);
                }
                let ghost old_links = links@;
                let ghost old_joints = joints@;
                let ghost old_has = has_children@;
                discovered.set(child, true);
                links.push(child);
                joints.push(k);
                parents.push(p);
                has_children.push(false);
                proof {
                    assert(links@ == old_links.push(child));
                    assert(joints@ == old_joints.push(k));
                    assert forall|a: int, b: int|
                        0 <= a < links@.len() && 0 <= b < links@.len() && a != b implies links@[a]
                        != links@[b] by {
                        if a == old_links.len() {
                            assert(old_links.contains(links@[b]));
                        } else if b == old_links.len() {
                            assert(old_links.contains(links@[a]));
                        } else {
                            assert(links@[a] == old_links[a]);
                            assert(links@[b] == old_links[b]);
                        }
                    }
                    lemma_distinct_indices_bounded(links@, n as nat);
                    assert forall|c: int| 0 <= c < n implies (#[trigger] discovered@[c]
                        <==> links@.contains(c as usize)) by {
                        if c == child {
                            assert(links@[old_links.len() as int] == child);
                        } else {
                            if links@.contains(c as usize) {
                                let u = choose|u: int| 0 <= u < links@.len() && links@[u] == c;
                                assert(u < old_links.len());
                                assert(old_links[u] == c);
                            }
                            if old_links.contains(c as usize) {
                                let u = choose|u: int| 0 <= u < old_links.len() && old_links[u] == c;
                                assert(links@[u] == c);
                            }
                        }
                    }
                    assert forall|q: int, j: int|
                        0 <= q < p && 0 <= j < m && leaves(g, links@, q, j) implies joints@.contains(
                        j as usize,
                    ) by {
                        assert(links@[q] == old_links[q]);
                        assert(leaves(g, old_links, q, j));
                        assert(old_joints.contains(j as usize));
                        let t = choose|t: int| 0 <= t < old_joints.len() && old_joints[t] == j;
                        assert(joints@[t] == j);
                    }
                    assert forall|j: int|
                        0 <= j < k + 1 && leaves(g, links@, p as int, j) implies joints@.contains(
                        j as usize,
                    ) by {
                        assert(links@[p as int] == old_links[p as int]);
                        if j == k {
                            assert(joints@[old_joints.len() as int] == k);
                        } else {
                            assert(leaves(g, old_links, p as int, j));
                            assert(old_joints.contains(j as usize));
                            let t = choose|t: int| 0 <= t < old_joints.len() && old_joints[t] == j;
                            assert(joints@[t] == j);
                        }
                    }
                    assert forall|q: int|
                        0 <= q < links@.len() && q != p implies (#[trigger] has_children@[q] <==> (q
                        < p && exists|j: int| 0 <= j < m && leaves(g, links@, q, j))) by {
                        if q < old_links.len() {
                            assert(links@[q] == old_links[q]);
                            assert(has_children@[q] == old_has[q]);
                            if exists|j: int| 0 <= j < m && leaves(g, links@, q, j) {
                                let j = choose|j: int| 0 <= j < m && leaves(g, links@, q, j);
                                assert(leaves(g, old_links, q, j));
                            }
                            if exists|j: int| 0 <= j < m && leaves(g, old_links, q, j) {
                                let j = choose|j: int| 0 <= j < m && leaves(g, old_links, q, j);
                                assert(leaves(g, links@, q, j));
                            }
                        }
                    }
                    assert(links@[p as int] == old_links[p as int]);
                    assert(has_children@[p as int]);
                    assert(leaves(g, links@, p as int, k as int));
                }
            }
            proof {
                if exists|j: int| 0 <= j < k + 1 && leaves(g, links@, p as int, j) {
                    if !has_children@[p as int] {
                        let j = choose|j: int| 0 <= j < k + 1 && leaves(g, links@, p as int, j);
                        assert(j == k);
                    }
                }
            }
            k += 1;
        }
        p += 1;
    }
    let len = links.len();
    let mut leaf_links: Vec<usize> = Vec::new();
    let mut i: usize = 0;
    while i < len
        invariant
            len == links@.len(),
            has_children@.len() == len,
            i <= len,
            forall|a: int| 0 <= a < leaf_links@.len() ==> (#[trigger] leaf_links@[a]) < i,
            forall|a: int, b: int| 0 <= a < b < leaf_links@.len() ==> leaf_links@[a] < leaf_links@[b],
            forall|q: int|
                0 <= q < i ==> (leaf_links@.contains(q as usize) <==> !(#[trigger] has_children@[q])),
        decreases len - i,
    {
        let ghost old_leaf = leaf_links@;
        if !has_children[i] {
            leaf_links.push(i);
        }
        proof {
            assert forall|q: int| 0 <= q < i + 1 implies (leaf_links@.contains(q as usize)
                <==> !(#[trigger] has_children@[q])) by {
                if q < i {
                    if leaf_links@.contains(q as usize) {
                        let a = choose|a: int| 0 <= a < leaf_links@.len() && leaf_links@[a] == q;
                        if a < old_leaf.len() {
                            assert(old_leaf[a] == q);
                        }
                    }
                    if old_leaf.contains(q as usize) {
                        let a = choose|a: int| 0 <= a < old_leaf.len() && old_leaf[a] == q;
                        assert(leaf_links@[a] == q);
                    }
                } else {
                    if !has_children@[q] {
                        assert(leaf_links@[old_leaf.len() as int] == q);
                    } else if leaf_links@.contains(q as usize) {
                        let a = choose|a: int| 0 <= a < leaf_links@.len() && leaf_links@[a] == q;
                        assert(old_leaf[a] < i);
                    }
                }
            }
        }
        i += 1;
    }
    proof {
        assert forall|q: int|
            #![trigger links@[q]]
            #![trigger leaf_links@.contains(q as usize)]
            0 <= q < links@.len() implies (leaf_links@.contains(q as usize) <==> !exists|k: int|
                0 <= k < m && leaves(g, links@, q, k)) by {
            assert(has_children@[q] <==> exists|k: int| 0 <= k < m && leaves(g, links@, q, k));
        }
    }
    Ok(TreeWalk { order: TreeOrder { links, joints, parent_link_indices: parents }, leaf_links, fault: None })
}

} // verus!
