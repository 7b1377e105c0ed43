use dynibo::description::{UrdfGraph, UrdfJoint, UrdfJointKind};
use dynibo::error::Error;
use dynibo::joint::JointType;
use dynibo::robot::{BaseMode, Model};
use dynibo::tree::order_tree;

fn edge(name: &str, parent: &str, child: &str, kind: UrdfJointKind) -> UrdfJoint {
    UrdfJoint {
        name: name.to_owned(),
        parent: parent.to_owned(),
        child: child.to_owned(),
        kind,
    }
}

/// base -(revolute j1)- l1 -(fixed j2)- l2 -(prismatic j3)- l3, plus
/// base -(continuous j4)- side.
fn graph() -> UrdfGraph {
    UrdfGraph {
        name: "test_arm".to_owned(),
        links: ["base", "l1", "l2", "l3", "side"].iter().map(|s| s.to_string()).collect(),
        joints: vec![
            edge("j1", "base", "l1", UrdfJointKind::Revolute),
            edge("j2", "l1", "l2", UrdfJointKind::Fixed),
            edge("j3", "l2", "l3", UrdfJointKind::Prismatic),
            edge("j4", "base", "side", UrdfJointKind::Continuous),
        ],
    }
}

fn model(id: u64, mode: BaseMode) -> Model {
    let g = graph();
    let order = order_tree(&g).unwrap();
    Model::from_order(id, &g, &order, mode).unwrap()
}

#[test]
fn counts_follow_the_joint_types() {
    let fixed = model(1, BaseMode::Fixed);
    assert_eq!(fixed.name(), "test_arm");
    assert_eq!(fixed.link_count(), 5);
    assert_eq!(fixed.model_joint_count(), 4);
    assert_eq!(fixed.joint_count(), 3);
    assert_eq!(fixed.base_dof_count(), 0);
    assert_eq!(fixed.generalized_count(), 3);
    let floating = model(2, BaseMode::Floating);
    assert_eq!(floating.base_mode(), BaseMode::Floating);
    assert_eq!(floating.generalized_count(), 9);
}

#[test]
fn breadth_first_order_and_degrees_of_freedom() {
    let m = model(3, BaseMode::Fixed);
    // Order: base, l1, side, l2, l3; joints j1, j4, j2, j3.
    let names: Vec<&str> = (0..m.link_count())
        .map(|i| m.link_name(m.link_id_at(i).unwrap()).unwrap())
        .collect();
    assert_eq!(names, vec!["base", "l1", "side", "l2", "l3"]);
    assert_eq!(m.active_joint_indices(), &[0, 1, 3]);
    assert_eq!(m.joint_dof_index(2), None);
    assert_eq!(m.joint_dof_index(3), Some(2));
    assert_eq!(m.joint_name(0).unwrap(), "j1");
    assert_eq!(m.joint_name(1).unwrap(), "j4");
    assert_eq!(m.joint_name(2).unwrap(), "j3");
    assert_eq!(m.joint_type(1).unwrap(), JointType::Revolute);
    assert_eq!(m.joint_type(2).unwrap(), JointType::Prismatic);
    assert_eq!(m.model_joint_type(2), JointType::Fixed);
    assert!(matches!(m.joint_name(3), Err(Error::InvalidJointIndex { index: 3 })));
    assert!(matches!(m.active_joint(7), Err(Error::InvalidJointIndex { index: 7 })));
    assert_eq!(m.parent_link_index(3), 3);
}

#[test]
fn identifiers_are_model_scoped() {
    let a = model(10, BaseMode::Fixed);
    let b = model(11, BaseMode::Fixed);
    let tool = a.link_id("l3").unwrap();
    assert_eq!(tool.link_index(), 4);
    assert_eq!(a.validate_link_id(tool).unwrap(), 4);
    assert!(matches!(
        b.validate_link_id(tool),
        Err(Error::InvalidLinkId { index: 4, link_count: 5 })
    ));
    assert_eq!(a.root_link_id(), a.link_id("base").unwrap());
    assert_eq!(a.link_id("l3").unwrap(), a.link_id_at(4).unwrap());
    assert_ne!(a.root_link_id(), b.root_link_id());
    assert!(matches!(
        a.link_id("missing"),
        Err(Error::UnknownLink { ref name }) if name == "missing"
    ));
    assert!(matches!(
        a.link_id_at(5),
        Err(Error::InvalidLinkId { index: 5, link_count: 5 })
    ));
    assert_eq!(a.model_id(), 10);
}

#[test]
fn ancestor_path_walks_to_the_root() {
    let m = model(4, BaseMode::Fixed);
    let mut path = vec![usize::MAX; m.model_joint_count()];
    let depth = m.prepare_ancestor_path(4, &mut path);
    assert_eq!(depth, 3);
    assert_eq!(&path[..3], &[3, 2, 0]);
    let depth = m.prepare_ancestor_path(2, &mut path);
    assert_eq!(depth, 1);
    assert_eq!(path[0], 1);
    assert_eq!(m.prepare_ancestor_path(0, &mut path), 0);
}

#[test]
fn slice_lengths_are_checked() {
    let m = model(5, BaseMode::Floating);
    assert!(m.validate_slice("q", 3).is_ok());
    assert!(matches!(
        m.validate_slice("q", 4),
        Err(Error::WrongSliceLength { slice: "q", expected: 3, actual: 4 })
    ));
    assert!(m.validate_output("out", 9).is_ok());
    assert!(matches!(
        m.validate_output("out", 3),
        Err(Error::WrongSliceLength { slice: "out", expected: 9, actual: 3 })
    ));
    assert!(m.validate_slice_length("w", 2, 2).is_ok());
}

#[test]
fn disconnected_descriptions_build_no_model() {
    let mut g = graph();
    g.links.push("a".to_owned());
    g.links.push("b".to_owned());
    g.joints.push(edge("ab", "a", "b", UrdfJointKind::Fixed));
    g.joints.push(edge("ba", "b", "a", UrdfJointKind::Fixed));
    let order = order_tree(&g).unwrap();
    assert!(matches!(
        Model::from_order(6, &g, &order, BaseMode::Fixed),
        Err(Error::InvalidModel(ref m)) if m == "joint graph is disconnected or cyclic"
    ));
}
