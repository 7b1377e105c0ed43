use dynibo::description::{supported_joint_type, UrdfGraph, UrdfJoint, UrdfJointKind};
use dynibo::error::Error;
use dynibo::joint::JointType;
use dynibo::tree::{check_connected, order_tree, TreeOrder};
use urdf_rs::{read_from_string, JointType as UrdfJointType};

const CHAIN: &str = r#"
    <robot name="chain">
      <link name="base"/>
      <link name="middle"/>
      <link name="tool"/>
      <joint name="shoulder" type="revolute">
        <parent link="base"/><child link="middle"/><axis xyz="0 0 1"/>
        <limit lower="-1" upper="1" effort="1" velocity="2"/>
      </joint>
      <joint name="wrist" type="fixed">
        <parent link="middle"/><child link="tool"/>
      </joint>
    </robot>
"#;

fn chain() -> urdf_rs::Robot {
    read_from_string(CHAIN).expect("test URDF must parse")
}

fn kind(joint_type: &UrdfJointType) -> UrdfJointKind {
    match joint_type {
        UrdfJointType::Revolute => UrdfJointKind::Revolute,
        UrdfJointType::Continuous => UrdfJointKind::Continuous,
        UrdfJointType::Prismatic => UrdfJointKind::Prismatic,
        UrdfJointType::Fixed => UrdfJointKind::Fixed,
        UrdfJointType::Floating => UrdfJointKind::Floating,
        UrdfJointType::Planar => UrdfJointKind::Planar,
        UrdfJointType::Spherical => UrdfJointKind::Spherical,
    }
}

fn graph(robot: &urdf_rs::Robot) -> UrdfGraph {
    UrdfGraph {
        name: robot.name.clone(),
        links: robot.links.iter().map(|link| link.name.clone()).collect(),
        joints: robot
            .joints
            .iter()
            .map(|joint| UrdfJoint {
                name: joint.name.clone(),
                parent: joint.parent.link.clone(),
                child: joint.child.link.clone(),
                kind: kind(&joint.joint_type),
            })
            .collect(),
    }
}

/// Runs the topology part of model construction: ordering, joint types in
/// order, then the connectivity check.
fn convert(robot: &urdf_rs::Robot) -> Result<(TreeOrder, Vec<JointType>), Error> {
    let g = graph(robot);
    let order = order_tree(&g)?;
    let mut types = Vec::new();
    for &joint in &order.joints {
        types.push(supported_joint_type(&g.joints[joint])?);
    }
    check_connected(&g, &order)?;
    Ok((order, types))
}

fn invalid_model(robot: &urdf_rs::Robot, expected: &str) {
    let error = convert(robot).err().expect("model must be rejected");
    assert!(
        matches!(error, Error::InvalidModel(ref message) if message.contains(expected)),
        "unexpected error: {error:?}"
    );
}

#[test]
fn tree_rejects_duplicate_link_and_joint_names() {
    let mut robot = chain();
    robot.links[1].name = robot.links[0].name.clone();
    invalid_model(&robot, "link names must be unique");

    let mut robot = chain();
    robot.joints[1].name = robot.joints[0].name.clone();
    invalid_model(&robot, "joint names must be unique");
}

#[test]
fn rejects_invalid_root_counts_and_missing_link_references() {
    let mut robot = chain();
    let mut detached = robot.links[0].clone();
    detached.name = "detached".to_owned();
    robot.links.push(detached);
    invalid_model(&robot, "expected one root link, found 2");

    let mut robot = chain();
    robot.joints.push(robot.joints[0].clone());
    robot.joints[2].name = "cycle".to_owned();
    robot.joints[2].parent.link = "tool".to_owned();
    robot.joints[2].child.link = "base".to_owned();
    invalid_model(&robot, "expected one root link, found 0");

    let mut robot = chain();
    robot.links.pop();
    invalid_model(&robot, "references a missing child link");

    let mut robot = chain();
    robot.joints[0].parent.link = "missing".to_owned();
    invalid_model(&robot, "references a missing parent link");
}

#[test]
fn tree_rejects_multiply_reached_and_disconnected_links() {
    let mut robot = chain();
    let mut duplicate_edge = robot.joints[1].clone();
    duplicate_edge.name = "second_path".to_owned();
    duplicate_edge.parent.link = "base".to_owned();
    robot.joints.push(duplicate_edge);
    invalid_model(&robot, "is reached more than once");

    let mut robot = chain();
    let mut detached_a = robot.links[0].clone();
    detached_a.name = "detached_a".to_owned();
    let mut detached_b = robot.links[0].clone();
    detached_b.name = "detached_b".to_owned();
    robot.links.extend([detached_a, detached_b]);

    let mut forward = robot.joints[1].clone();
    forward.name = "detached_forward".to_owned();
    forward.parent.link = "detached_a".to_owned();
    forward.child.link = "detached_b".to_owned();
    let mut backward = forward.clone();
    backward.name = "detached_backward".to_owned();
    backward.parent.link = "detached_b".to_owned();
    backward.child.link = "detached_a".to_owned();
    robot.joints.extend([forward, backward]);
    invalid_model(&robot, "joint graph is disconnected or cyclic");
}

#[test]
fn tree_rejects_unsupported_joints_and_accepts_continuous_joints() {
    let mut robot = chain();
    robot.joints[0].joint_type = UrdfJointType::Planar;
    assert!(matches!(
        convert(&robot),
        Err(Error::UnsupportedJointType {
            ref joint,
            ref joint_type,
        }) if joint == "shoulder" && joint_type == "planar"
    ));

    let mut robot = chain();
    robot.joints[0].joint_type = UrdfJointType::Continuous;
    let (_, types) = convert(&robot).expect("continuous joints are supported");
    assert_eq!(types[0], JointType::Revolute);
}

#[test]
fn chain_is_ordered_root_first() {
    let (order, types) = convert(&chain()).unwrap();
    assert_eq!(order.links, vec![0, 1, 2]);
    assert_eq!(order.joints, vec![0, 1]);
    assert_eq!(order.parent_link_indices, vec![0, 1]);
    assert_eq!(types, vec![JointType::Revolute, JointType::Fixed]);
}

fn edge(name: &str, parent: &str, child: &str, kind: UrdfJointKind) -> UrdfJoint {
    UrdfJoint {
        name: name.to_owned(),
        parent: parent.to_owned(),
        child: child.to_owned(),
        kind,
    }
}

fn branched() -> UrdfGraph {
    // Links listed out of order; joints listed so that breadth-first order
    // differs from document order.
    UrdfGraph {
        name: "branched".to_owned(),
        links: ["left_tool", "base", "right", "left", "right_tool"]
            .iter()
            .map(|s| s.to_string())
            .collect(),
        joints: vec![
            edge("left_tip", "left", "left_tool", UrdfJointKind::Prismatic),
            edge("right_root", "base", "right", UrdfJointKind::Revolute),
            edge("left_root", "base", "left", UrdfJointKind::Continuous),
            edge("right_tip", "right", "right_tool", UrdfJointKind::Fixed),
        ],
    }
}

#[test]
fn branched_tree_is_ordered_breadth_first_by_joint_index() {
    let g = branched();
    let order = order_tree(&g).unwrap();
    // base, then its children by joint index (right_root, left_root), then
    // grandchildren: left_tip leaves position 2 (left), right_tip leaves
    // position 1 (right), so right_tip comes first.
    assert_eq!(order.links, vec![1, 2, 3, 4, 0]);
    assert_eq!(order.joints, vec![1, 2, 3, 0]);
    assert_eq!(order.parent_link_indices, vec![0, 0, 1, 2]);
    assert!(check_connected(&g, &order).is_ok());
}

#[test]
fn root_count_message_gives_the_count() {
    let mut g = branched();
    g.links.push("a".to_owned());
    g.links.push("b".to_owned());
    g.links.push("c".to_owned());
    g.links.push("d".to_owned());
    g.links.push("e".to_owned());
    g.links.push("f".to_owned());
    g.links.push("g".to_owned());
    g.links.push("h".to_owned());
    g.links.push("i".to_owned());
    g.links.push("j".to_owned());
    match order_tree(&g) {
        Err(Error::InvalidModel(message)) => {
            assert_eq!(message, "expected one root link, found 11")
        }
        other => panic!("unexpected result {other:?}"),
    }
}

#[test]
fn first_faulty_joint_is_reported() {
    let mut g = branched();
    g.joints[1].parent = "nowhere".to_owned();
    g.joints[3].child = "nothing".to_owned();
    match order_tree(&g) {
        Err(Error::InvalidModel(message)) => {
            assert_eq!(message, "joint right_root references a missing parent link")
        }
        other => panic!("unexpected result {other:?}"),
    }
}

#[test]
fn supported_joint_types_map_kinds() {
    let joint = |kind| edge("j", "a", "b", kind);
    assert_eq!(
        supported_joint_type(&joint(UrdfJointKind::Prismatic)).unwrap(),
        JointType::Prismatic
    );
    assert_eq!(
        supported_joint_type(&joint(UrdfJointKind::Fixed)).unwrap(),
        JointType::Fixed
    );
    assert!(matches!(
        supported_joint_type(&joint(UrdfJointKind::Spherical)),
        Err(Error::UnsupportedJointType { ref joint_type, .. }) if joint_type == "spherical"
    ));
    assert!(matches!(
        supported_joint_type(&joint(UrdfJointKind::Floating)),
        Err(Error::UnsupportedJointType { ref joint_type, .. }) if joint_type == "floating"
    ));
}
