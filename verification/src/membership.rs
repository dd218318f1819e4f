//! The closed set of membership values and its textual form.

use vstd::prelude::*;

use crate::error::ApiError;

verus! {

/// The relationship state of a user to a room.
///
/// Rows and events carry the value in its textual form; this enum is the
/// parsed shape the core branches on.
#[derive(Clone, Copy, Debug, PartialEq, Eq, Structural)]
pub enum Membership {
    Join,
    Invite,
    Leave,
    Ban,
    Knock,
}

/// The membership value denoted by a text, if any.
pub open spec fn membership_of(s: Seq<char>) -> Option<Membership> {
    if s == "join"@ {
        Some(Membership::Join)
    } else if s == "invite"@ {
        Some(Membership::Invite)
    } else if s == "leave"@ {
        Some(Membership::Leave)
    } else if s == "ban"@ {
        Some(Membership::Ban)
    } else if s == "knock"@ {
        Some(Membership::Knock)
    } else {
        None
    }
}

/// Parses a stored membership text into its value.
///
/// Succeeds exactly on the five texts of the closed set; everything else
/// is a serialization error.
pub fn parse_membership(s: &str) -> (r: Result<Membership, ApiError>)
    ensures
        (match r {
            Ok(m) => membership_of(s@) == Some(m),
            Err(e) => membership_of(s@) is None && e == ApiError::Serialization,
        }),
{
    let v = s.to_owned();
    if v == "join".to_owned() {
        Ok(Membership::Join)
    } else if v == "invite".to_owned() {
        Ok(Membership::Invite)
    } else if v == "leave".to_owned() {
        Ok(Membership::Leave)
    } else if v == "ban".to_owned() {
        Ok(Membership::Ban)
    } else if v == "knock".to_owned() {
        Ok(Membership::Knock)
    } else {
        Err(ApiError::Serialization)
    }
}

} // verus!
