//! Behaviour of the membership text parser.

use room_core::error::ApiError;
use room_core::membership::{parse_membership, Membership};

#[test]
fn the_five_membership_texts_parse() {
    assert_eq!(parse_membership("join").unwrap(), Membership::Join);
    assert_eq!(parse_membership("invite").unwrap(), Membership::Invite);
    assert_eq!(parse_membership("leave").unwrap(), Membership::Leave);
    assert_eq!(parse_membership("ban").unwrap(), Membership::Ban);
    assert_eq!(parse_membership("knock").unwrap(), Membership::Knock);
}

#[test]
fn other_membership_texts_are_serialization_errors() {
    assert_eq!(parse_membership("").unwrap_err(), ApiError::Serialization);
    assert_eq!(parse_membership("JOIN").unwrap_err(), ApiError::Serialization);
    assert_eq!(parse_membership("joined").unwrap_err(), ApiError::Serialization);
    assert_eq!(parse_membership(" join").unwrap_err(), ApiError::Serialization);
}
