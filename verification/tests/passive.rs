use dynibo::description::{UrdfGraph, UrdfJoint, UrdfJointKind};
use dynibo::error::Error;
use dynibo::passive::{PassiveJointMap, RobotWithPassiveJoints};
use dynibo::robot_arm::RobotArm;
use dynibo::urdf::tree_model;

/// Two actuators drive three joints; the middle joint mirrors the first.
#[derive(Clone, Debug)]
struct Mirror;

impl PassiveJointMap<2, 3> for Mirror {
    type Active = [i64; 2];
    type All = [i64; 3];

    fn expand(&self, active: &[i64; 2]) -> [i64; 3] {
        [active[0], active[0], active[1]]
    }

    fn reduce_force(&self, all: &[i64; 3]) -> [i64; 2] {
        [all[0] + all[1], all[2]]
    }
}

fn arm(joints: usize) -> RobotArm<(), ()> {
    let links: Vec<String> = (0..=joints).map(|i| format!("l{i}")).collect();
    let g = UrdfGraph {
        name: "serial".to_owned(),
        joints: (0..joints)
            .map(|i| UrdfJoint {
                name: format!("j{i}"),
                parent: links[i].clone(),
                child: links[i + 1].clone(),
                kind: UrdfJointKind::Revolute,
            })
            .collect(),
        links,
    };
    let walk = tree_model(&g).unwrap();
    let n_links = walk.order.links.len();
    let n_joints = walk.order.joints.len();
    RobotArm::from_walk(&g, walk, vec![(); n_links], vec![(); n_joints]).unwrap()
}

#[test]
fn passive_adapter_requires_every_joint() {
    let robot = RobotWithPassiveJoints::<2, 3, Mirror, (), ()>::new(arm(3), Mirror).unwrap();
    assert_eq!(robot.arm().joint_count(), 3);
    assert_eq!(robot.mapping().expand(&[1, 2]), [1, 1, 2]);
    assert_eq!(robot.mapping().reduce_force(&[1, 2, 3]), [3, 3]);
    assert!(matches!(
        RobotWithPassiveJoints::<2, 3, Mirror, (), ()>::new(arm(2), Mirror),
        Err(Error::WrongJointCount { expected: 2, actual: 3 })
    ));
}
