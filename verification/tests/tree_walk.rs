use dynibo::description::{supported_joint_type, UrdfGraph, UrdfJoint, UrdfJointKind};
use dynibo::error::Error;
use dynibo::joint::JointType;
use dynibo::robot_arm::{LinkId, RobotArm};
use dynibo::urdf::tree_model;
use urdf_rs::{read_from_string, JointType as UrdfJointType};

const CHAIN: &str = r#"
    <robot name="chain">
      <link name="base"/>
      <link name="middle"/>
      <link name="tool"/>
      <joint name="shoulder" type="revolute">
        <parent link="base"/><child link="middle"/><axis xyz="0 0 1"/>
        <limit lower="-1" upper="1" effort="1" velocity="2"/>
      </joint>
      <joint name="wrist" type="fixed">
        <parent link="middle"/><child link="tool"/>
      </joint>
    </robot>
"#;

fn chain() -> urdf_rs::Robot {
    read_from_string(CHAIN).expect("test URDF must parse")
}

fn kind(joint_type: &UrdfJointType) -> UrdfJointKind {
    match joint_type {
        UrdfJointType::Revolute => UrdfJointKind::Revolute,
        UrdfJointType::Continuous => UrdfJointKind::Continuous,
        UrdfJointType::Prismatic => UrdfJointKind::Prismatic,
        UrdfJointType::Fixed => UrdfJointKind::Fixed,
        UrdfJointType::Floating => UrdfJointKind::Floating,
        UrdfJointType::Planar => UrdfJointKind::Planar,
        UrdfJointType::Spherical => UrdfJointKind::Spherical,
    }
}

fn graph(robot: &urdf_rs::Robot) -> UrdfGraph {
    UrdfGraph {
        name: robot.name.clone(),
        links: robot.links.iter().map(|link| link.name.clone()).collect(),
        joints: robot
            .joints
            .iter()
            .map(|joint| UrdfJoint {
                name: joint.name.clone(),
                parent: joint.parent.link.clone(),
                child: joint.child.link.clone(),
                kind: kind(&joint.joint_type),
            })
            .collect(),
    }
}

/// Builds an arm whose payloads are the source names, converting joints in
/// walk order the way a loader does.
fn arm(robot: &urdf_rs::Robot) -> Result<RobotArm<JointType, String>, Error> {
    let g = graph(robot);
    let walk = tree_model(&g)?;
    let links: Vec<String> = walk.order.links.iter().map(|&l| g.links[l].clone()).collect();
    let mut joints = Vec::new();
    for &j in &walk.order.joints {
        joints.push(supported_joint_type(&g.joints[j])?);
    }
    RobotArm::from_walk(&g, walk, links, joints)
}

fn invalid_model(robot: &urdf_rs::Robot, expected: &str) {
    let error = arm(robot).err().expect("model must be rejected");
    assert!(
        matches!(error, Error::InvalidModel(ref message) if message.contains(expected)),
        "unexpected error: {error:?}"
    );
}

#[test]
fn urdf_rejects_duplicate_link_and_joint_names() {
    let mut robot = chain();
    robot.links[1].name = robot.links[0].name.clone();
    invalid_model(&robot, "link names must be unique");

    let mut robot = chain();
    robot.joints[1].name = robot.joints[0].name.clone();
    invalid_model(&robot, "joint names must be unique");
}

#[test]
fn rejects_invalid_root_counts_and_missing_children() {
    let mut robot = chain();
    let mut detached = robot.links[0].clone();
    detached.name = "detached".to_owned();
    robot.links.push(detached);
    invalid_model(&robot, "expected one root link, found 2");

    let mut robot = chain();
    robot.joints.push(robot.joints[0].clone());
    robot.joints[2].name = "cycle".to_owned();
    robot.joints[2].parent.link = "tool".to_owned();
    robot.joints[2].child.link = "base".to_owned();
    invalid_model(&robot, "expected one root link, found 0");

    let mut robot = chain();
    robot.links.pop();
    invalid_model(&robot, "references a missing child link");
}

#[test]
fn urdf_rejects_multiply_reached_and_disconnected_links() {
    let mut robot = chain();
    let mut duplicate_edge = robot.joints[1].clone();
    duplicate_edge.name = "second_path".to_owned();
    duplicate_edge.parent.link = "base".to_owned();
    robot.joints.push(duplicate_edge);
    invalid_model(&robot, "is reached more than once");

    let mut robot = chain();
    let mut detached_a = robot.links[0].clone();
    detached_a.name = "detached_a".to_owned();
    let mut detached_b = robot.links[0].clone();
    detached_b.name = "detached_b".to_owned();
    robot.links.extend([detached_a, detached_b]);

    let mut forward = robot.joints[1].clone();
    forward.name = "detached_forward".to_owned();
    forward.parent.link = "detached_a".to_owned();
    forward.child.link = "detached_b".to_owned();
    let mut backward = forward.clone();
    backward.name = "detached_backward".to_owned();
    backward.parent.link = "detached_b".to_owned();
    backward.child.link = "detached_a".to_owned();
    robot.joints.extend([forward, backward]);
    invalid_model(&robot, "joint graph is disconnected or cyclic");
}

#[test]
fn urdf_rejects_unsupported_joints_and_accepts_continuous_joints() {
    let mut robot = chain();
    robot.joints[0].joint_type = UrdfJointType::Planar;
    assert!(matches!(
        arm(&robot),
        Err(Error::UnsupportedJointType {
            ref joint,
            ref joint_type,
        }) if joint == "shoulder" && joint_type == "planar"
    ));

    let mut robot = chain();
    robot.joints[0].joint_type = UrdfJointType::Continuous;
    let model = arm(&robot).expect("continuous joints are supported");
    assert_eq!(model.joints()[0], JointType::Revolute);
}

#[test]
fn duplicate_child_is_reported_at_its_second_visit() {
    // base -> middle (shoulder), base -> tool (second_path), middle -> tool (wrist):
    // tool is reached from base first (position 2) and again from middle.
    let mut robot = chain();
    let mut duplicate_edge = robot.joints[1].clone();
    duplicate_edge.name = "second_path".to_owned();
    duplicate_edge.parent.link = "base".to_owned();
    robot.joints.push(duplicate_edge);
    let walk = tree_model(&graph(&robot)).unwrap();
    assert_eq!(walk.order.links, vec![0, 1, 2]);
    assert_eq!(walk.order.joints, vec![0, 2]);
    match walk.fault {
        Some(Error::InvalidModel(message)) => {
            assert_eq!(message, "link tool is reached more than once (first index 2)")
        }
        other => panic!("unexpected fault {other:?}"),
    }
}

#[test]
fn arm_queries_follow_the_walk() {
    let model = arm(&chain()).unwrap();
    assert_eq!(model.name(), "chain");
    assert_eq!(model.link_count(), 3);
    assert_eq!(model.joint_count(), 2);
    assert_eq!(model.root_link(), LinkId::from_index(0));
    assert_eq!(model.leaf_links(), &[LinkId::from_index(2)]);
    assert_eq!(model.link_id("tool"), Some(LinkId::from_index(2)));
    assert_eq!(model.link_id("missing"), None);
    assert_eq!(model.links(), &["base".to_owned(), "middle".to_owned(), "tool".to_owned()]);
    assert_eq!(model.joints(), &[JointType::Revolute, JointType::Fixed]);
    assert_eq!(model.joint_parent(1), LinkId::from_index(1));
    assert_eq!(LinkId::from_index(7).index(), 7);
    assert!(model.validate_joint_count::<2>().is_ok());
    assert!(matches!(
        model.validate_joint_count::<3>(),
        Err(Error::WrongJointCount { expected: 2, actual: 3 })
    ));
    assert!(model.validate_link(LinkId::from_index(2)).is_ok());
    assert!(matches!(
        model.validate_link(LinkId::from_index(3)),
        Err(Error::InvalidLinkId { index: 3, link_count: 3 })
    ));
}

#[test]
fn branched_arm_lists_every_leaf() {
    let g = UrdfGraph {
        name: "y".to_owned(),
        links: ["base", "left", "right", "left_tip"].iter().map(|s| s.to_string()).collect(),
        joints: vec![
            UrdfJoint {
                name: "a".to_owned(),
                parent: "base".to_owned(),
                child: "left".to_owned(),
                kind: UrdfJointKind::Revolute,
            },
            UrdfJoint {
                name: "b".to_owned(),
                parent: "base".to_owned(),
                child: "right".to_owned(),
                kind: UrdfJointKind::Revolute,
            },
            UrdfJoint {
                name: "c".to_owned(),
                parent: "left".to_owned(),
                child: "left_tip".to_owned(),
                kind: UrdfJointKind::Fixed,
            },
        ],
    };
    let walk = tree_model(&g).unwrap();
    assert!(walk.fault.is_none());
    assert_eq!(walk.leaf_links, vec![2, 3]);
    let links: Vec<usize> = walk.order.links.clone();
    let joints: Vec<usize> = walk.order.joints.clone();
    let model = RobotArm::from_walk(&g, walk, links, joints).unwrap();
    assert_eq!(
        model.leaf_links(),
        &[LinkId::from_index(2), LinkId::from_index(3)]
    );
    assert_eq!(model.joint_parent(2), LinkId::from_index(1));
}

#[test]
fn jointless_arm_is_its_own_leaf() {
    let robot = read_from_string(r#"<robot name="single"><link name="base"/></robot>"#)
        .expect("test URDF must parse");
    let model = arm(&robot).unwrap();
    assert_eq!(model.joint_count(), 0);
    assert_eq!(model.leaf_links(), &[model.root_link()]);
    let root = model.root_link();
    assert_eq!(LinkId::from_index(root.index()), root);
}
