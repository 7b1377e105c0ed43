use dynibo::error::{validate_iteration_limit, Error};

#[test]
fn model_errors_read_as_sentences() {
    let e = Error::InvalidModel(String::from("URDF must have exactly one root link, found 2"));
    assert_eq!(
        e.message(),
        "invalid robot model: URDF must have exactly one root link, found 2"
    );
    let e = Error::UnsupportedJointType {
        joint: String::from("slide"),
        joint_type: String::from("planar"),
    };
    assert_eq!(e.message(), "unsupported joint type planar for slide");
    let e = Error::WrongJointCount { expected: 6, actual: 12 };
    assert_eq!(e.message(), "expected 6 joints, found 12");
    let e = Error::UnknownLink { name: String::from("tool") };
    assert_eq!(e.message(), "link tool does not exist in the model");
    let e = Error::InvalidLinkId { index: 7, link_count: 3 };
    assert_eq!(e.message(), "link 7 does not belong to this robot model of 3 links");
}

#[test]
fn calculation_errors_read_as_sentences() {
    let e = Error::WrongSliceLength { slice: "q", expected: 2, actual: 0 };
    assert_eq!(e.message(), "q has length 0, expected 2");
    let e = Error::IkNumericalFailure { iteration: 10 };
    assert_eq!(e.message(), "inverse-kinematics linear solve failed at iteration 10");
    let e = Error::NonFiniteIkInput { input: "target" };
    assert_eq!(e.message(), "inverse-kinematics target contains a non-finite value");
    assert_eq!(
        Error::FloatingBaseIkUnsupported.message(),
        "inverse kinematics is not supported for floating-base robots"
    );
}

#[test]
fn iteration_limit_must_be_positive() {
    assert!(validate_iteration_limit(1).is_ok());
    assert!(validate_iteration_limit(100).is_ok());
    match validate_iteration_limit(0) {
        Err(Error::InvalidIkOptions { option, reason }) => {
            assert_eq!(option, "max_iterations");
            assert_eq!(reason, "must be greater than zero");
        }
        other => panic!("unexpected {:?}", other),
    }
    assert_eq!(
        validate_iteration_limit(0).unwrap_err().message(),
        "invalid inverse-kinematics options: max_iterations must be greater than zero"
    );
}
