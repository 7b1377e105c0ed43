use dynibo::c_abi::{
    error_message_bytes, find_link, invalid, link, reject_byte_overlap, reject_f64_overlap,
    reject_struct_output_overlap, DyniboStatus,
};
use dynibo::description::{UrdfGraph, UrdfJoint, UrdfJointKind};
use dynibo::error::{decimal, join3};
use dynibo::robot::{BaseMode, Model};
use dynibo::tree::order_tree;

#[test]
fn overlapping_buffers_are_rejected() {
    assert!(reject_byte_overlap(1000, 16, "q", 1008, 16).is_err());
    assert!(reject_byte_overlap(1008, 16, "q", 1000, 16).is_err());
    let (status, message) = reject_byte_overlap(1000, 16, "q", 1000, 8).unwrap_err();
    assert_eq!(status, DyniboStatus::InvalidArgument);
    assert_eq!(message, "q and output must not overlap");
}

#[test]
fn adjacent_null_and_empty_buffers_are_accepted() {
    assert!(reject_byte_overlap(1000, 16, "q", 1016, 16).is_ok());
    assert!(reject_byte_overlap(1016, 16, "q", 1000, 16).is_ok());
    assert!(reject_byte_overlap(0, 16, "q", 0, 16).is_ok());
    assert!(reject_byte_overlap(1000, 0, "q", 1000, 16).is_ok());
    assert!(reject_byte_overlap(1000, 16, "q", 1000, 0).is_ok());
}

#[test]
fn address_overflow_is_rejected() {
    let (_, message) = reject_byte_overlap(usize::MAX - 4, 16, "qd", 8, 8).unwrap_err();
    assert_eq!(message, "qd address range overflows");
    let (_, message) = reject_byte_overlap(8, 8, "qd", usize::MAX, 2).unwrap_err();
    assert_eq!(message, "output address range overflows");
}

#[test]
fn double_lengths_are_measured_in_bytes() {
    assert!(reject_f64_overlap(1000, 2, "q", 1016, 4).is_ok());
    assert!(reject_f64_overlap(1000, 3, "q", 1016, 4).is_err());
    let (_, message) = reject_f64_overlap(1000, usize::MAX / 4, "q", 1016, 4).unwrap_err();
    assert_eq!(message, "q length is too large");
    let (_, message) = reject_f64_overlap(1000, 1, "q", 1016, usize::MAX).unwrap_err();
    assert_eq!(message, "output length is too large");
    assert!(reject_struct_output_overlap(1000, 2, "q", 1016, 56).is_ok());
    assert!(reject_struct_output_overlap(1000, 3, "q", 1016, 56).is_err());
}

#[test]
fn error_messages_are_nul_terminated_without_interior_nul() {
    assert_eq!(error_message_bytes("a\0b"), b"a b\0".to_vec());
    assert_eq!(error_message_bytes(""), vec![0u8]);
    let (status, message) = invalid("bad".to_owned());
    assert_eq!(status, DyniboStatus::InvalidArgument);
    assert_eq!(message, "bad");
}

#[test]
fn link_handles_are_found_by_index() {
    let g = UrdfGraph {
        name: "pair".to_owned(),
        links: vec!["a".to_owned(), "b".to_owned()],
        joints: vec![UrdfJoint {
            name: "j".to_owned(),
            parent: "a".to_owned(),
            child: "b".to_owned(),
            kind: UrdfJointKind::Revolute,
        }],
    };
    let order = order_tree(&g).unwrap();
    let m = Model::from_order(42, &g, &order, BaseMode::Fixed).unwrap();
    let ids = vec![m.link_id_at(0).unwrap(), m.link_id_at(1).unwrap()];
    assert_eq!(link(&ids, 1).unwrap(), ids[1]);
    let (status, message) = link(&ids, 12).unwrap_err();
    assert_eq!(status, DyniboStatus::InvalidArgument);
    assert_eq!(message, "invalid link id 12");
    assert_eq!(find_link(&ids, m.link_id("b").unwrap()), 1);
}

#[test]
fn decimal_text_has_no_leading_zeros() {
    assert_eq!(decimal(0), "0");
    assert_eq!(decimal(7), "7");
    assert_eq!(decimal(10), "10");
    assert_eq!(decimal(1234509876), "1234509876");
    assert_eq!(decimal(usize::MAX), usize::MAX.to_string());
    assert_eq!(join3("a", "bc", ""), "abc");
}
