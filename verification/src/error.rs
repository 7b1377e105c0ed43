//! Errors reported while validating a robot description or a calculation request,
//! and the text helpers that build their messages.

use vstd::prelude::*;
use vstd::string::*;

verus! {

/// Errors returned while constructing or querying a robot model.
#[derive(Debug, Clone)]
pub enum Error {
    /// The description has an invalid or unsupported kinematic graph.
    InvalidModel(String),
    /// A joint uses a motion type not supported by this crate.
    UnsupportedJointType {
        /// Name of the joint.
        joint: String,
        /// Lower-case name of the rejected motion type.
        joint_type: String,
    },
    /// A compile-time joint dimension does not match the loaded model.
    WrongJointCount {
        /// Number of joints in the loaded model.
        expected: usize,
        /// Compile-time dimension supplied by the caller.
        actual: usize,
    },
    /// A joint axis is too small to normalize.
    InvalidJointAxis {
        /// Name of the joint with the invalid axis.
        joint: String,
    },
    /// No link with the requested name exists in the model.
    UnknownLink {
        /// Link name requested by the caller.
        name: String,
    },
    /// A link identifier belongs to another model or is out of range.
    InvalidLinkId {
        /// Index carried by the rejected identifier.
        index: usize,
        /// Number of links in the model.
        link_count: usize,
    },
    /// An active-joint index is out of range.
    InvalidJointIndex {
        /// Rejected index.
        index: usize,
    },
    /// A slice has the wrong length.
    WrongSliceLength {
        /// Name of the slice.
        slice: &'static str,
        /// Length required by the model.
        expected: usize,
        /// Length supplied.
        actual: usize,
    },
    /// A base state field is not acceptable.
    InvalidBaseState {
        /// Name of the rejected field.
        field: &'static str,
        /// Why it was rejected.
        reason: &'static str,
    },
    /// Inverse kinematics is only available for fixed-base models.
    FloatingBaseIkUnsupported,
    /// An inverse-kinematics option is out of range.
    InvalidIkOptions {
        /// Name of the option.
        option: &'static str,
        /// Why it was rejected.
        reason: &'static str,
    },
    /// An inverse-kinematics input contains a non-finite value.
    NonFiniteIkInput {
        /// Name of the input.
        input: &'static str,
    },
    /// The inverse-kinematics damped linear system could not be solved.
    IkNumericalFailure {
        /// One-based iteration at which the solve failed.
        iteration: usize,
    },
    /// An articulated joint inertia is singular.
    ForwardDynamicsSingularJointInertia {
        /// Active-joint index of the joint.
        joint_index: usize,
    },
    /// The articulated base inertia is singular.
    ForwardDynamicsSingularBaseInertia,
}

/// Result type returned by model construction and queries.
pub type Result<T> = core::result::Result<T, Error>;

/// A string holding exactly the characters of `s`.
pub fn text(s: &str) -> (r: String)
    ensures
        r@ == s@,
{
    String::from_str(s)
}

/// The concatenation of `a` and `b`.
pub fn join2(a: &str, b: &str) -> (r: String)
    ensures
        r@ == a@ + b@,
{
    let mut r = String::from_str(a);
    r.append(b);
    r
}

/// The concatenation of `a`, `b` and `c`.
pub fn join3(a: &str, b: &str, c: &str) -> (r: String)
    ensures
        r@ == a@ + b@ + c@,
{
    let mut r = String::from_str(a);
    r.append(b);
    r.append(c);
    r
}

/// The decimal digit character for `d < 10`.
pub open spec fn digit_char(d: nat) -> char {
    if d == 0 { '0' }
    else if d == 1 { '1' }
    else if d == 2 { '2' }
    else if d == 3 { '3' }
    else if d == 4 { '4' }
    else if d == 5 { '5' }
    else if d == 6 { '6' }
    else if d == 7 { '7' }
    else if d == 8 { '8' }
    else { '9' }
}

/// The decimal representation of `n`, without leading zeros.
pub open spec fn decimal_text(n: nat) -> Seq<char>
    decreases n,
{
    if n < 10 {
        seq![digit_char(n)]
    } else {
        decimal_text(n / 10) + seq![digit_char(n % 10)]
    }
}

fn digit_str(d: usize) -> (r: &'static str)
    requires
        d < 10,
    ensures
        r@ == seq![digit_char(d as nat)],
{
    if d == 0 {
        proof { reveal_strlit("0"); }
        "0"
    } else if d == 1 {
        proof { reveal_strlit("1"); }
        "1"
    } else if d == 2 {
        proof { reveal_strlit("2"); }
        "2"
    } else if d == 3 {
        proof { reveal_strlit("3"); }
        "3"
    } else if d == 4 {
        proof { reveal_strlit("4"); }
        "4"
    } else if d == 5 {
        proof { reveal_strlit("5"); }
        "5"
    } else if d == 6 {
        proof { reveal_strlit("6"); }
        "6"
    } else if d == 7 {
        proof { reveal_strlit("7"); }
        "7"
    } else if d == 8 {
        proof { reveal_strlit("8"); }
        "8"
    } else {
        proof { reveal_strlit("9"); }
        "9"
    }
}

/// Formats `n` in decimal.
pub fn decimal(n: usize) -> (r: String)
    ensures
        r@ == decimal_text(n as nat),
    decreases n,
{
    if n < 10 {
        String::from_str(digit_str(n))
    } else {
        let mut r = decimal(n / 10);
        r.append(digit_str(n % 10));
        r
    }
}


/// Human-readable description of an error.
pub open spec fn error_text(e: Error) -> Seq<char> {
    match e {
        Error::InvalidModel(m) => "invalid robot model: "@ + m@,
        Error::UnsupportedJointType { joint, joint_type } => "unsupported joint type "@
            + joint_type@ + " for "@ + joint@,
        Error::WrongJointCount { expected, actual } => "expected "@ + decimal_text(expected as nat)
            + " joints, found "@ + decimal_text(actual as nat),
        Error::InvalidJointAxis { joint } => "joint "@ + joint@ + " has an invalid axis"@,
        Error::UnknownLink { name } => "link "@ + name@ + " does not exist in the model"@,
        Error::InvalidLinkId { index, link_count } => "link "@ + decimal_text(index as nat)
            + " does not belong to this robot model of "@ + decimal_text(link_count as nat)
            + " links"@,
        Error::InvalidJointIndex { index } => "joint index "@ + decimal_text(index as nat)
            + " is out of range"@,
        Error::WrongSliceLength { slice, expected, actual } => slice@ + " has length "@
            + decimal_text(actual as nat) + ", expected "@ + decimal_text(expected as nat),
        Error::InvalidBaseState { field, reason } => "base state "@ + field@ + " "@ + reason@,
        Error::FloatingBaseIkUnsupported => "inverse kinematics is not supported for floating-base robots"@,
        Error::InvalidIkOptions { option, reason } => "invalid inverse-kinematics options: "@
            + option@ + " "@ + reason@,
        Error::NonFiniteIkInput { input } => "inverse-kinematics "@ + input@
            + " contains a non-finite value"@,
        Error::IkNumericalFailure { iteration } => "inverse-kinematics linear solve failed at iteration "@
            + decimal_text(iteration as nat),
        Error::ForwardDynamicsSingularJointInertia { joint_index } => "articulated inertia of joint "@
            + decimal_text(joint_index as nat) + " is singular"@,
        Error::ForwardDynamicsSingularBaseInertia => "articulated base inertia is singular"@,
    }
}

impl Error {
    /// Formats a human-readable description of the error.
    pub fn message(&self) -> (r: String)
        ensures
            r@ == error_text(*self),
    {
        match self {
            Error::InvalidModel(m) => join2("invalid robot model: ", m.as_str()),
            Error::UnsupportedJointType { joint, joint_type } => {
                let mut r = join3("unsupported joint type ", joint_type.as_str(), " for ");
                r.append(joint.as_str());
                r
            },
            Error::WrongJointCount { expected, actual } => {
                let e = decimal(*expected);
                let a = decimal(*actual);
                let mut r = join3("expected ", e.as_str(), " joints, found ");
                r.append(a.as_str());
                r
            },
            Error::InvalidJointAxis { joint } => join3("joint ", joint.as_str(), " has an invalid axis"),
            Error::UnknownLink { name } => join3("link ", name.as_str(), " does not exist in the model"),
            Error::InvalidLinkId { index, link_count } => {
                let i = decimal(*index);
                let c = decimal(*link_count);
                let mut r = join3("link ", i.as_str(), " does not belong to this robot model of ");
                r.append(c.as_str());
                r.append(" links");
                r
            },
            Error::InvalidJointIndex { index } => {
                let i = decimal(*index);
                join3("joint index ", i.as_str(), " is out of range")
            },
            Error::WrongSliceLength { slice, expected, actual } => {
                let a = decimal(*actual);
                let e = decimal(*expected);
                let mut r = join3(slice, " has length ", a.as_str());
                r.append(", expected ");
                r.append(e.as_str());
                r
            },
            Error::InvalidBaseState { field, reason } => {
                let mut r = join3("base state ", field, " ");
                r.append(reason);
                r
            },
            Error::FloatingBaseIkUnsupported => text(
                "inverse kinematics is not supported for floating-base robots",
            ),
            Error::InvalidIkOptions { option, reason } => {
                let mut r = join3("invalid inverse-kinematics options: ", option, " ");
                r.append(reason);
                r
            },
            Error::NonFiniteIkInput { input } => join3(
                "inverse-kinematics ",
                input,
                " contains a non-finite value",
            ),
            Error::IkNumericalFailure { iteration } => {
                let i = decimal(*iteration);
                join2("inverse-kinematics linear solve failed at iteration ", i.as_str())
            },
            Error::ForwardDynamicsSingularJointInertia { joint_index } => {
                let i = decimal(*joint_index);
                join3("articulated inertia of joint ", i.as_str(), " is singular")
            },
            Error::ForwardDynamicsSingularBaseInertia => text("articulated base inertia is singular"),
        }
    }
}

/// Checks the iteration budget of an inverse-kinematics solve.
pub fn validate_iteration_limit(max_iterations: usize) -> (r: Result<()>)
    ensures
        max_iterations > 0 ==> r is Ok,
        max_iterations == 0 ==> (r matches Err(Error::InvalidIkOptions { option, reason })
            && option@ == "max_iterations"@ && reason@ == "must be greater than zero"@),
{
    if max_iterations == 0 {
        Err(Error::InvalidIkOptions { option: "max_iterations", reason: "must be greater than zero" })
    } else {
        Ok(())
    }
}

} // verus!
