//! Behaviour of the room membership projection.

use room_core::error::ApiError;
use room_core::event::{Event, EventContent, EventId, JoinRule, MemberEventContent};
use room_core::membership::Membership;
use room_core::profile::Profile;
use room_core::room_membership::{RoomMembership, RoomMembershipOptions};
use room_core::store::Store;

fn options(room: &str, user: &str, sender: &str, membership: &str) -> RoomMembershipOptions {
    RoomMembershipOptions {
        room_id: room.to_string(),
        user_id: user.to_string(),
        sender: sender.to_string(),
        membership: membership.to_string(),
    }
}

fn public_room(room: &str) -> Store {
    let mut store = Store::new();
    store.append_join_rules_event(room.to_string(), JoinRule::Public);
    store
}

#[test]
fn create_inserts_one_row_and_one_event() {
    let mut store = public_room("!a:host");
    store.set_clock(42);
    let row = RoomMembership::create(&mut store, options("!a:host", "@alice:host", "@alice:host", "join"))
        .unwrap();

    assert_eq!(row.room_id, "!a:host");
    assert_eq!(row.user_id, "@alice:host");
    assert_eq!(row.sender, "@alice:host");
    assert_eq!(row.membership, "join");
    assert_eq!(row.created_at, 42);
    // The join-rules event took position 0, so the member event is 1.
    assert_eq!(row.event_id, EventId(1));

    let found = RoomMembership::find(&store, "!a:host", "@alice:host").unwrap().unwrap();
    assert_eq!(found, row);
    assert_eq!(RoomMembership::find_by_user_id(&store, "@alice:host").unwrap(), vec![row]);
    assert_eq!(RoomMembership::get_events_by_room(&store, "!a:host").unwrap().len(), 1);
}

#[test]
fn create_is_idempotent() {
    let mut store = public_room("!a:host");
    let first = RoomMembership::create(&mut store, options("!a:host", "@alice:host", "@alice:host", "join"))
        .unwrap();
    for _ in 0..5 {
        let again = RoomMembership::create(
            &mut store,
            options("!a:host", "@alice:host", "@alice:host", "join"),
        )
        .unwrap();
        assert_eq!(again, first);
    }
    assert_eq!(RoomMembership::find_by_user_id(&store, "@alice:host").unwrap().len(), 1);
    assert_eq!(RoomMembership::get_events_by_room(&store, "!a:host").unwrap().len(), 1);
}

#[test]
fn create_with_other_membership_still_returns_existing_row() {
    let mut store = public_room("!a:host");
    let first = RoomMembership::create(&mut store, options("!a:host", "@alice:host", "@alice:host", "join"))
        .unwrap();
    let again = RoomMembership::create(&mut store, options("!a:host", "@alice:host", "@alice:host", "leave"))
        .unwrap();
    assert_eq!(again, first);
    assert_eq!(again.membership, "join");
}

#[test]
fn invite_only_room_rejects_other_sender() {
    let mut store = Store::new();
    store.append_join_rules_event("!closed:host".to_string(), JoinRule::Invite);
    let result = RoomMembership::create(
        &mut store,
        options("!closed:host", "@bob:host", "@alice:host", "join"),
    );
    assert_eq!(result.unwrap_err(), ApiError::Unauthorized);
    // Nothing was written: no row and no new event for the room.
    assert_eq!(RoomMembership::find(&store, "!closed:host", "@bob:host").unwrap(), None);
    assert_eq!(RoomMembership::get_events_by_room(&store, "!closed:host").unwrap().len(), 0);
}

#[test]
fn invite_only_room_admits_self_join() {
    let mut store = Store::new();
    store.append_join_rules_event("!closed:host".to_string(), JoinRule::Invite);
    let row = RoomMembership::create(
        &mut store,
        options("!closed:host", "@alice:host", "@alice:host", "join"),
    )
    .unwrap();
    assert_eq!(row.membership, "join");
    assert_eq!(RoomMembership::find_by_user_id(&store, "@alice:host").unwrap().len(), 1);
    assert_eq!(RoomMembership::get_events_by_room(&store, "!closed:host").unwrap().len(), 1);
}

#[test]
fn room_without_join_rules_is_not_found() {
    let mut store = Store::new();
    let result = RoomMembership::create(&mut store, options("!a:host", "@alice:host", "@alice:host", "join"));
    assert_eq!(result.unwrap_err(), ApiError::NotFound);
}

#[test]
fn existing_row_is_returned_before_any_policy_read() {
    // A store holding a row for the pair but no join-rules event for the
    // room: the idempotent return must win over the policy lookup.
    let mut store = Store::new();
    store.events.push(Event {
        id: EventId(0),
        room_id: "!a:host".to_string(),
        user_id: "@alice:host".to_string(),
        content: EventContent::Member(MemberEventContent {
            avatar_url: None,
            displayname: None,
            membership: Membership::Join,
        }),
    });
    store.room_memberships.push(RoomMembership {
        event_id: EventId(0),
        room_id: "!a:host".to_string(),
        user_id: "@alice:host".to_string(),
        sender: "@alice:host".to_string(),
        membership: "join".to_string(),
        created_at: 5,
    });

    let row = RoomMembership::create(&mut store, options("!a:host", "@alice:host", "@alice:host", "join"))
        .unwrap();
    assert_eq!(row.event_id, EventId(0));
    assert_eq!(row.created_at, 5);
    // Nothing was written.
    assert_eq!(store.events.len(), 1);
    assert_eq!(store.room_memberships.len(), 1);
}

#[test]
fn unknown_membership_value_is_a_serialization_error() {
    let mut store = public_room("!a:host");
    let result = RoomMembership::create(
        &mut store,
        options("!a:host", "@alice:host", "@alice:host", "sideways"),
    );
    assert_eq!(result.unwrap_err(), ApiError::Serialization);
    assert_eq!(RoomMembership::find(&store, "!a:host", "@alice:host").unwrap(), None);
}

#[test]
fn each_membership_value_of_the_closed_set_is_accepted() {
    for (i, value) in ["join", "invite", "leave", "ban", "knock"].iter().enumerate() {
        let mut store = public_room("!a:host");
        let user = format!("@u{}:host", i);
        let row = RoomMembership::create(&mut store, options("!a:host", &user, &user, value)).unwrap();
        assert_eq!(row.membership, *value);
    }
}

#[test]
fn create_carries_profile_fields_into_the_event() {
    let mut store = public_room("!a:host");
    store.put_profile(Profile {
        user_id: "@alice:host".to_string(),
        avatar_url: Some("mxc://host/x".to_string()),
        displayname: Some("Alice".to_string()),
    });
    RoomMembership::create(&mut store, options("!a:host", "@alice:host", "@alice:host", "join")).unwrap();

    let events = RoomMembership::get_events_by_room(&store, "!a:host").unwrap();
    assert_eq!(events.len(), 1);
    assert_eq!(events[0].user_id, "@alice:host");
    assert_eq!(events[0].content.avatar_url, Some("mxc://host/x".to_string()));
    assert_eq!(events[0].content.displayname, Some("Alice".to_string()));
}

#[test]
fn create_without_profile_leaves_event_fields_empty() {
    let mut store = public_room("!a:host");
    RoomMembership::create(&mut store, options("!a:host", "@alice:host", "@alice:host", "join")).unwrap();
    let events = RoomMembership::get_events_by_room(&store, "!a:host").unwrap();
    assert_eq!(events[0].content.avatar_url, None);
    assert_eq!(events[0].content.displayname, None);
}

#[test]
fn newest_profile_shadows_older_one() {
    let mut store = public_room("!a:host");
    store.put_profile(Profile {
        user_id: "@alice:host".to_string(),
        avatar_url: None,
        displayname: Some("Old".to_string()),
    });
    store.put_profile(Profile {
        user_id: "@alice:host".to_string(),
        avatar_url: None,
        displayname: Some("New".to_string()),
    });
    RoomMembership::create(&mut store, options("!a:host", "@alice:host", "@alice:host", "join")).unwrap();
    let events = RoomMembership::get_events_by_room(&store, "!a:host").unwrap();
    assert_eq!(events[0].content.displayname, Some("New".to_string()));
}

#[test]
fn profile_refresh_moves_the_event_pointer_only() {
    let mut store = public_room("!a:host");
    store.set_clock(7);
    let mut row = RoomMembership::create(&mut store, options("!a:host", "@alice:host", "@alice:host", "join"))
        .unwrap();
    let old_event_id = row.event_id;

    store.set_clock(9);
    RoomMembership::update_room_membership_events(
        &mut store,
        &mut row,
        Profile {
            user_id: "@alice:host".to_string(),
            avatar_url: Some("mxc://host/new".to_string()),
            displayname: Some("Alice the Renamed".to_string()),
        },
    )
    .unwrap();

    assert_ne!(row.event_id, old_event_id);
    assert_eq!(row.membership, "join");
    assert_eq!(row.created_at, 7);

    let stored = RoomMembership::find(&store, "!a:host", "@alice:host").unwrap().unwrap();
    assert_eq!(stored, row);
    // Still one row, and one listed event, now carrying the fresh profile.
    assert_eq!(RoomMembership::find_by_user_id(&store, "@alice:host").unwrap().len(), 1);
    let events = RoomMembership::get_events_by_room(&store, "!a:host").unwrap();
    assert_eq!(events.len(), 1);
    assert_eq!(events[0].event_id, row.event_id);
    assert_eq!(events[0].content.displayname, Some("Alice the Renamed".to_string()));
    assert_eq!(events[0].content.membership, room_core::membership::Membership::Join);
}

#[test]
fn refresh_of_row_with_unknown_membership_is_a_serialization_error() {
    let mut store = public_room("!a:host");
    let mut bogus = RoomMembership {
        event_id: EventId(0),
        room_id: "!a:host".to_string(),
        user_id: "@alice:host".to_string(),
        sender: "@alice:host".to_string(),
        membership: "sideways".to_string(),
        created_at: 0,
    };
    let result = RoomMembership::update_room_membership_events(
        &mut store,
        &mut bogus,
        Profile { user_id: "@alice:host".to_string(), avatar_url: None, displayname: None },
    );
    assert_eq!(result.unwrap_err(), ApiError::Serialization);
}

#[test]
fn fan_out_yields_one_event_per_row() {
    let mut store = public_room("!a:host");
    store.append_join_rules_event("!b:host".to_string(), JoinRule::Public);
    for user in ["@u1:host", "@u2:host", "@u3:host"] {
        RoomMembership::create(&mut store, options("!a:host", user, user, "join")).unwrap();
    }
    RoomMembership::create(&mut store, options("!b:host", "@u1:host", "@u1:host", "join")).unwrap();

    let events = RoomMembership::get_events_by_room(&store, "!a:host").unwrap();
    assert_eq!(events.len(), 3);
    assert_eq!(events[0].user_id, "@u1:host");
    assert_eq!(events[1].user_id, "@u2:host");
    assert_eq!(events[2].user_id, "@u3:host");
    assert_eq!(RoomMembership::get_events_by_room(&store, "!b:host").unwrap().len(), 1);
    assert_eq!(RoomMembership::get_events_by_room(&store, "!c:host").unwrap().len(), 0);
}

#[test]
fn fan_out_surfaces_a_dangling_event_reference() {
    let mut store = public_room("!a:host");
    RoomMembership::create(&mut store, options("!a:host", "@alice:host", "@alice:host", "join")).unwrap();
    // Simulate a writer bypassing the core: a row pointing at no event.
    store.room_memberships.push(RoomMembership {
        event_id: EventId(999),
        room_id: "!a:host".to_string(),
        user_id: "@ghost:host".to_string(),
        sender: "@ghost:host".to_string(),
        membership: "join".to_string(),
        created_at: 0,
    });
    let result = RoomMembership::get_events_by_room(&store, "!a:host");
    assert_eq!(result.unwrap_err(), ApiError::ConsistencyViolation);
}

#[test]
fn fan_out_surfaces_a_row_pointing_at_a_non_member_event() {
    let mut store = public_room("!a:host");
    // Simulate corruption: a row pointing at the join-rules event.
    store.room_memberships.push(RoomMembership {
        event_id: EventId(0),
        room_id: "!a:host".to_string(),
        user_id: "@ghost:host".to_string(),
        sender: "@ghost:host".to_string(),
        membership: "join".to_string(),
        created_at: 0,
    });
    let result = RoomMembership::get_events_by_room(&store, "!a:host");
    assert_eq!(result.unwrap_err(), ApiError::Serialization);
}

#[test]
fn latest_join_rules_event_wins() {
    let mut store = Store::new();
    store.append_join_rules_event("!a:host".to_string(), JoinRule::Public);
    store.append_join_rules_event("!a:host".to_string(), JoinRule::Invite);
    let result = RoomMembership::create(
        &mut store,
        options("!a:host", "@bob:host", "@alice:host", "invite"),
    );
    assert_eq!(result.unwrap_err(), ApiError::Unauthorized);

    store.append_join_rules_event("!a:host".to_string(), JoinRule::Public);
    let row = RoomMembership::create(
        &mut store,
        options("!a:host", "@bob:host", "@alice:host", "invite"),
    )
    .unwrap();
    assert_eq!(row.membership, "invite");
}

#[test]
fn memberships_of_a_user_span_rooms() {
    let mut store = public_room("!a:host");
    store.append_join_rules_event("!b:host".to_string(), JoinRule::Public);
    RoomMembership::create(&mut store, options("!a:host", "@alice:host", "@alice:host", "join")).unwrap();
    RoomMembership::create(&mut store, options("!b:host", "@alice:host", "@alice:host", "join")).unwrap();
    RoomMembership::create(&mut store, options("!a:host", "@bob:host", "@bob:host", "join")).unwrap();

    let rows = RoomMembership::find_by_user_id(&store, "@alice:host").unwrap();
    assert_eq!(rows.len(), 2);
    assert_eq!(rows[0].room_id, "!a:host");
    assert_eq!(rows[1].room_id, "!b:host");
    assert_eq!(RoomMembership::find_by_user_id(&store, "@carol:host").unwrap().len(), 0);
}

#[test]
fn events_are_appended_in_order_with_positional_ids() {
    let mut store = Store::new();
    let jr = store.append_join_rules_event("!a:host".to_string(), JoinRule::Public);
    assert_eq!(jr, EventId(0));
    let row1 = RoomMembership::create(&mut store, options("!a:host", "@u1:host", "@u1:host", "join"))
        .unwrap();
    let row2 = RoomMembership::create(&mut store, options("!a:host", "@u2:host", "@u2:host", "join"))
        .unwrap();
    assert_eq!(row1.event_id, EventId(1));
    assert_eq!(row2.event_id, EventId(2));
    assert!(matches!(store.events[0].content, EventContent::JoinRules(JoinRule::Public)));
}
