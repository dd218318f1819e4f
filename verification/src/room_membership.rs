//! The materialized room membership projection.

use vstd::prelude::*;

use crate::error::ApiError;
use crate::event::{
    find_event, spec_find_event, spec_latest_join_rule, spec_latest_join_rules_event, Event,
    EventContent, EventId, JoinRule, MemberEvent, MemberEventContent,
};
use crate::membership::{membership_of, parse_membership};
use crate::profile::{spec_find_profile, spec_profile_avatar, spec_profile_displayname, Profile};
use crate::store::Store;

verus! {

/// Room membership update or create data.
#[derive(Debug, PartialEq, Eq)]
pub struct RoomMembershipOptions {
    /// The room's ID.
    pub room_id: String,
    /// The user's ID.
    pub user_id: String,
    /// The ID of the user who created the membership.
    pub sender: String,
    /// The requested membership value, in its textual form.
    pub membership: String,
}

impl Clone for RoomMembershipOptions {
    fn clone(&self) -> (r: Self)
        ensures
            r == *self,
    {
        RoomMembershipOptions {
            room_id: self.room_id.clone(),
            user_id: self.user_id.clone(),
            sender: self.sender.clone(),
            membership: self.membership.clone(),
        }
    }
}

/// A new room membership row, not yet stored.
#[derive(Debug, PartialEq, Eq)]
pub struct NewRoomMembership {
    /// The event that produces the row.
    pub event_id: EventId,
    /// The room's ID.
    pub room_id: String,
    /// The user's ID.
    pub user_id: String,
    /// The ID of the user who created the membership.
    pub sender: String,
    /// The membership value, in its textual form.
    pub membership: String,
}

/// A room membership projection row. At most one exists per
/// `(room_id, user_id)`; its `event_id` always points at the most recent
/// membership-state event for that pair.
#[derive(Debug, PartialEq, Eq)]
pub struct RoomMembership {
    /// The event that produced the current state.
    pub event_id: EventId,
    /// The room's ID.
    pub room_id: String,
    /// The user's ID.
    pub user_id: String,
    /// The ID of the user who created the membership.
    pub sender: String,
    /// The current membership value, in its textual form.
    pub membership: String,
    /// The time the row was created; set once, never updated.
    pub created_at: u64,
}

impl Clone for RoomMembership {
    fn clone(&self) -> (r: Self)
        ensures
            r == *self,
    {
        RoomMembership {
            event_id: self.event_id,
            room_id: self.room_id.clone(),
            user_id: self.user_id.clone(),
            sender: self.sender.clone(),
            membership: self.membership.clone(),
            created_at: self.created_at,
        }
    }
}

/// The first row of `rows` keyed by `(room, user)`, if any.
pub open spec fn spec_find_membership(
    rows: Seq<RoomMembership>,
    room: Seq<char>,
    user: Seq<char>,
) -> Option<RoomMembership>
    decreases rows.len(),
{
    if rows.len() == 0 {
        None
    } else if rows[0].room_id@ == room && rows[0].user_id@ == user {
        Some(rows[0])
    } else {
        spec_find_membership(rows.drop_first(), room, user)
    }
}

/// `rows` with every row keyed by `(room, user)` repointed at `id`, and
/// every other row unchanged. Under the key-uniqueness constraint at most
/// one row is affected.
pub open spec fn spec_repoint(
    rows: Seq<RoomMembership>,
    room: Seq<char>,
    user: Seq<char>,
    id: EventId,
) -> Seq<RoomMembership> {
    Seq::new(
        rows.len(),
        |i: int|
            if rows[i].room_id@ == room && rows[i].user_id@ == user {
                RoomMembership { event_id: id, ..rows[i] }
            } else {
                rows[i]
            },
    )
}

/// The rows of `rows` that belong to `room`, in stored order.
pub open spec fn spec_rows_of_room(rows: Seq<RoomMembership>, room: Seq<char>) -> Seq<
    RoomMembership,
>
    decreases rows.len(),
{
    if rows.len() == 0 {
        Seq::empty()
    } else if rows[0].room_id@ == room {
        seq![rows[0]] + spec_rows_of_room(rows.drop_first(), room)
    } else {
        spec_rows_of_room(rows.drop_first(), room)
    }
}

/// Resolving every row of `room` to its membership-state event, in
/// stored order. The first row that fails decides the error: a row whose
/// event is absent from the log is a consistency violation; one whose
/// event is not a membership-state event is a serialization error.
pub open spec fn spec_member_events(
    rows: Seq<RoomMembership>,
    events: Seq<Event>,
    room: Seq<char>,
) -> Result<Seq<MemberEvent>, ApiError>
    decreases rows.len(),
{
    if rows.len() == 0 {
        Ok(Seq::empty())
    } else if rows[0].room_id@ != room {
        spec_member_events(rows.drop_first(), events, room)
    } else {
        match spec_find_event(events, rows[0].event_id) {
            None => Err(ApiError::ConsistencyViolation),
            Some(e) => match e.content {
                EventContent::Member(c) => match spec_member_events(
                    rows.drop_first(),
                    events,
                    room,
                ) {
                    Ok(s) => Ok(
                        seq![
                            (MemberEvent {
                                event_id: e.id,
                                room_id: e.room_id,
                                user_id: e.user_id,
                                content: c,
                            }),
                        ] + s,
                    ),
                    Err(err) => Err(err),
                },
                EventContent::JoinRules(_) => Err(ApiError::Serialization),
            },
        }
    }
}

/// The rows of `rows` that belong to `user`, in stored order.
pub open spec fn spec_memberships_of_user(
    rows: Seq<RoomMembership>,
    user: Seq<char>,
) -> Seq<RoomMembership>
    decreases rows.len(),
{
    if rows.len() == 0 {
        Seq::empty()
    } else if rows[0].user_id@ == user {
        seq![rows[0]] + spec_memberships_of_user(rows.drop_first(), user)
    } else {
        spec_memberships_of_user(rows.drop_first(), user)
    }
}

impl RoomMembership {
    /// Creates a new room membership in the store, as one atomic unit.
    ///
    /// When the pair already has a row, that row is returned unchanged —
    /// creation is idempotent, not an error, and no policy is read.
    /// Otherwise the room's current join rule is read; a room without a
    /// join-rules event cannot be reasoned about and fails the call. An
    /// invite-only room admits only the acting user itself
    /// (`sender == user_id`); an authorized creation parses the requested
    /// membership value, reads the user's profile, and appends the
    /// membership-state event and the projection row together. On any
    /// error nothing is written.
    pub fn create(store: &mut Store, options: RoomMembershipOptions) -> (r: Result<
        RoomMembership,
        ApiError,
    >)
        requires
            old(store).wf(),
        ensures
            final(store).wf(),
            final(store).profiles@ == old(store).profiles@,
            final(store).clock == old(store).clock,
            ({
                let rows0 = old(store).room_memberships@;
                let evs0 = old(store).events@;
                let found = spec_find_membership(rows0, options.room_id@, options.user_id@);
                let rule = spec_latest_join_rule(evs0, options.room_id@);
                if found is Some {
                    &&& r == Ok::<RoomMembership, ApiError>(found->Some_0)
                    &&& final(store).events@ == evs0
                    &&& final(store).room_memberships@ == rows0
                } else if rule is None {
                    &&& r == Err::<RoomMembership, ApiError>(ApiError::NotFound)
                    &&& final(store).events@ == evs0
                    &&& final(store).room_memberships@ == rows0
                } else if options.user_id@ != options.sender@ && rule == Some(JoinRule::Invite) {
                    &&& r == Err::<RoomMembership, ApiError>(ApiError::Unauthorized)
                    &&& final(store).events@ == evs0
                    &&& final(store).room_memberships@ == rows0
                } else if membership_of(options.membership@) is None {
                    &&& r == Err::<RoomMembership, ApiError>(ApiError::Serialization)
                    &&& final(store).events@ == evs0
                    &&& final(store).room_memberships@ == rows0
                } else {
                    let profile = spec_find_profile(old(store).profiles@, options.user_id@);
                    let content = (MemberEventContent {
                        avatar_url: spec_profile_avatar(profile),
                        displayname: spec_profile_displayname(profile),
                        membership: membership_of(options.membership@)->Some_0,
                    });
                    let event = (Event {
                        id: EventId(evs0.len() as u64),
                        room_id: options.room_id,
                        user_id: options.user_id,
                        content: EventContent::Member(content),
                    });
                    let row = (RoomMembership {
                        event_id: EventId(evs0.len() as u64),
                        room_id: options.room_id,
                        user_id: options.user_id,
                        sender: options.sender,
                        membership: options.membership,
                        created_at: old(store).clock,
                    });
                    &&& final(store).events@ == evs0.push(event)
                    &&& final(store).room_memberships@ == rows0.push(row)
                    &&& r == Ok::<RoomMembership, ApiError>(row)
                }
            }),
    {
        let existing = RoomMembership::find(store, options.room_id.as_str(), options.user_id.as_str());
        match existing {
            Ok(Some(room_membership)) => Ok(room_membership),
            _ => {
                let join_rules_event = match Event::find_room_join_rules_by_room_id(
                    store,
                    options.room_id.as_str(),
                ) {
                    Ok(event) => event,
                    Err(err) => {
                        return Err(err);
                    },
                };
                proof {
                    lemma_latest_join_rules_is_join_rules(store.events@, options.room_id@);
                }
                // An invite-only room admits no membership entry for the
                // user, unless the user is joining as the room's own act.
                let invite_only = match &join_rules_event.content {
                    EventContent::JoinRules(rule) => *rule == JoinRule::Invite,
                    EventContent::Member(_) => false,
                };
                if options.user_id != options.sender && invite_only {
                    return Err(ApiError::Unauthorized);
                }
                let membership = match parse_membership(options.membership.as_str()) {
                    Ok(value) => value,
                    Err(err) => {
                        return Err(err);
                    },
                };
                let profile = match Profile::find_by_user_id(store, options.user_id.as_str()) {
                    Ok(found) => found,
                    Err(err) => {
                        return Err(err);
                    },
                };
                let (avatar_url, displayname) = match profile {
                    Some(profile) => (profile.avatar_url, profile.displayname),
                    None => (None, None),
                };
                let event_id = EventId(store.events.len() as u64);
                let new_room_membership = NewRoomMembership {
                    event_id,
                    room_id: options.room_id.clone(),
                    user_id: options.user_id.clone(),
                    sender: options.sender.clone(),
                    membership: options.membership.clone(),
                };
                let new_memberstate_event = Event {
                    id: event_id,
                    room_id: options.room_id,
                    user_id: options.user_id,
                    content: EventContent::Member(
                        MemberEventContent { avatar_url, displayname, membership },
                    ),
                };
                store.events.push(new_memberstate_event);
                let row = RoomMembership {
                    event_id: new_room_membership.event_id,
                    room_id: new_room_membership.room_id,
                    user_id: new_room_membership.user_id,
                    sender: new_room_membership.sender,
                    membership: new_room_membership.membership,
                    created_at: store.clock,
                };
                let result = row.clone();
                store.room_memberships.push(row);
                proof {
                    lemma_find_membership_none_absent(
                        old(store).room_memberships@,
                        result.room_id@,
                        result.user_id@,
                    );
                    lemma_membership_push_keeps_unique(
                        old(store).room_memberships@,
                        store.room_memberships@.last(),
                    );
                    assert forall|i: int| 0 <= i < store.events@.len() implies (
                    #[trigger] store.events@[i]).id == EventId(i as u64) by {
                        if i < old(store).events@.len() {
                            assert(store.events@[i] == old(store).events@[i]);
                        }
                    }
                    assert forall|i: int| 0 <= i < store.room_memberships@.len() implies {
                        let row_i = #[trigger] store.room_memberships@[i];
                        &&& row_i.event_id.0 < store.events@.len()
                        &&& store.events@[row_i.event_id.0 as int].content is Member
                        &&& membership_of(row_i.membership@) is Some
                    } by {
                        if i < old(store).room_memberships@.len() {
                            assert(store.room_memberships@[i] == old(store).room_memberships@[i]);
                            assert(store.events@[store.room_memberships@[i].event_id.0 as int]
                                == old(store).events@[store.room_memberships@[i].event_id.0 as int]);
                        }
                    }
                }
                Ok(result)
            },
        }
    }

    /// Re-emit the membership-state event of an existing row with fresh
    /// profile data, as one atomic unit.
    ///
    /// The membership value is carried over unchanged from the row; only
    /// the event pointer moves. A new event holding the given profile's
    /// fields is appended, the stored row for the pair — and the handle
    /// given here — are repointed at it, and nothing else changes. No
    /// second row is ever created for the pair. A row whose membership
    /// text is not of the closed set fails with a serialization error,
    /// and nothing is written.
    pub fn update_room_membership_events(
        store: &mut Store,
        room_membership: &mut RoomMembership,
        profile: Profile,
    ) -> (r: Result<(), ApiError>)
        requires
            old(store).wf(),
        ensures
            final(store).wf(),
            final(store).profiles@ == old(store).profiles@,
            final(store).clock == old(store).clock,
            ({
                let rows0 = old(store).room_memberships@;
                let evs0 = old(store).events@;
                if membership_of(old(room_membership).membership@) is None {
                    &&& r == Err::<(), ApiError>(ApiError::Serialization)
                    &&& final(store).events@ == evs0
                    &&& final(store).room_memberships@ == rows0
                    &&& *final(room_membership) == *old(room_membership)
                } else {
                    let event = (Event {
                        id: EventId(evs0.len() as u64),
                        room_id: old(room_membership).room_id,
                        user_id: old(room_membership).user_id,
                        content: EventContent::Member(
                            (MemberEventContent {
                                avatar_url: profile.avatar_url,
                                displayname: profile.displayname,
                                membership: membership_of(old(room_membership).membership@)->Some_0,
                            }),
                        ),
                    });
                    &&& final(store).events@ == evs0.push(event)
                    &&& final(store).room_memberships@ == spec_repoint(
                        rows0,
                        old(room_membership).room_id@,
                        old(room_membership).user_id@,
                        event.id,
                    )
                    &&& *final(room_membership) == (RoomMembership {
                        event_id: event.id,
                        ..*old(room_membership)
                    })
                    &&& r == Ok::<(), ApiError>(())
                }
            }),
    {
        let membership = match parse_membership(room_membership.membership.as_str()) {
            Ok(value) => value,
            Err(err) => {
                return Err(err);
            },
        };
        let event_id = EventId(store.events.len() as u64);
        let new_memberstate_event = Event {
            id: event_id,
            room_id: room_membership.room_id.clone(),
            user_id: room_membership.user_id.clone(),
            content: EventContent::Member(
                MemberEventContent {
                    avatar_url: profile.avatar_url,
                    displayname: profile.displayname,
                    membership,
                },
            ),
        };
        store.events.push(new_memberstate_event);
        proof {
            assert forall|i: int| 0 <= i < store.events@.len() implies (
            #[trigger] store.events@[i]).id == EventId(i as u64) by {
                if i < old(store).events@.len() {
                    assert(store.events@[i] == old(store).events@[i]);
                }
            }
            assert forall|i: int| 0 <= i < store.room_memberships@.len() implies {
                let row_i = #[trigger] store.room_memberships@[i];
                &&& row_i.event_id.0 < store.events@.len()
                &&& store.events@[row_i.event_id.0 as int].content is Member
            } by {
                assert(store.room_memberships@[i] == old(store).room_memberships@[i]);
                assert(store.events@[store.room_memberships@[i].event_id.0 as int] == old(
                    store,
                ).events@[store.room_memberships@[i].event_id.0 as int]);
            }
        }
        let result = room_membership.update(store, event_id);
        room_membership.event_id = event_id;
        result
    }

    /// Repoint the stored row for this row's `(room_id, user_id)` pair —
    /// and nothing else of it — at the given event.
    fn update(&self, store: &mut Store, event_id: EventId) -> (r: Result<(), ApiError>)
        requires
            old(store).wf(),
            event_id.0 < old(store).events@.len(),
            old(store).events@[event_id.0 as int].content is Member,
        ensures
            final(store).wf(),
            final(store).events@ == old(store).events@,
            final(store).profiles@ == old(store).profiles@,
            final(store).clock == old(store).clock,
            final(store).room_memberships@ == spec_repoint(
                old(store).room_memberships@,
                self.room_id@,
                self.user_id@,
                event_id,
            ),
            r == Ok::<(), ApiError>(()),
    {
        let n = store.room_memberships.len();
        let mut updated: Vec<RoomMembership> = Vec::new();
        let mut i: usize = 0;
        while i < n
            invariant
                n == store.room_memberships@.len(),
                i <= n,
                updated@.len() == i,
                forall|j: int|
                    0 <= j < i ==> updated@[j] == spec_repoint(
                        store.room_memberships@,
                        self.room_id@,
                        self.user_id@,
                        event_id,
                    )[j],
            decreases n - i,
        {
            let row = &store.room_memberships[i];
            if row.room_id == self.room_id && row.user_id == self.user_id {
                updated.push(
                    RoomMembership {
                        event_id,
                        room_id: row.room_id.clone(),
                        user_id: row.user_id.clone(),
                        sender: row.sender.clone(),
                        membership: row.membership.clone(),
                        created_at: row.created_at,
                    },
                );
            } else {
                updated.push(row.clone());
            }
            i = i + 1;
        }
        store.room_memberships = updated;
        proof {
            assert(store.room_memberships@ =~= spec_repoint(
                old(store).room_memberships@,
                self.room_id@,
                self.user_id@,
                event_id,
            ));
            assert forall|i2: int| 0 <= i2 < store.room_memberships@.len() implies {
                let row_i = #[trigger] store.room_memberships@[i2];
                &&& row_i.event_id.0 < store.events@.len()
                &&& store.events@[row_i.event_id.0 as int].content is Member
                &&& membership_of(row_i.membership@) is Some
                &&& row_i.room_id@ == old(store).room_memberships@[i2].room_id@
                &&& row_i.user_id@ == old(store).room_memberships@[i2].user_id@
            } by {
                assert(old(store).wf());
            }
        }
        Ok(())
    }

    /// Return `RoomMembership` for given room and user.
    ///
    /// Absence is an empty result, never an error.
    pub fn find(store: &Store, room_id: &str, user_id: &str) -> (r: Result<
        Option<RoomMembership>,
        ApiError,
    >)
        ensures
            (match r {
                Ok(found) => found == spec_find_membership(
                    store.room_memberships@,
                    room_id@,
                    user_id@,
                ),
                Err(_) => false,
            }),
    {
        let room = room_id.to_owned();
        let user = user_id.to_owned();
        let n = store.room_memberships.len();
        let mut i: usize = 0;
        proof {
            assert(store.room_memberships@.skip(0) =~= store.room_memberships@);
        }
        while i < n
            invariant
                n == store.room_memberships@.len(),
                i <= n,
                room@ == room_id@,
                user@ == user_id@,
                spec_find_membership(store.room_memberships@.skip(i as int), room@, user@)
                    == spec_find_membership(store.room_memberships@, room@, user@),
            decreases n - i,
        {
            let row = &store.room_memberships[i];
            if row.room_id == room && row.user_id == user {
                proof {
                    assert(store.room_memberships@.skip(i as int)[0]
                        == store.room_memberships@[i as int]);
                }
                return Ok(Some(row.clone()));
            }
            proof {
                assert(store.room_memberships@.skip(i as int).drop_first()
                    =~= store.room_memberships@.skip(i as int + 1));
            }
            i = i + 1;
        }
        proof {
            assert(store.room_memberships@.skip(n as int) =~= Seq::<RoomMembership>::empty());
        }
        Ok(None)
    }

    /// Return `RoomMembership`'s for given user: every room the user has
    /// a membership record in, in stored order.
    pub fn find_by_user_id(store: &Store, user_id: &str) -> (r: Result<
        Vec<RoomMembership>,
        ApiError,
    >)
        ensures
            (match r {
                Ok(rows) => rows@ == spec_memberships_of_user(store.room_memberships@, user_id@),
                Err(_) => false,
            }),
    {
        let user = user_id.to_owned();
        let n = store.room_memberships.len();
        let mut result: Vec<RoomMembership> = Vec::new();
        let mut i: usize = 0;
        proof {
            assert(store.room_memberships@.take(0) =~= Seq::<RoomMembership>::empty());
        }
        while i < n
            invariant
                n == store.room_memberships@.len(),
                i <= n,
                user@ == user_id@,
                result@ == spec_memberships_of_user(store.room_memberships@.take(i as int), user@),
            decreases n - i,
        {
            let row = &store.room_memberships[i];
            if row.user_id == user {
                result.push(row.clone());
            }
            proof {
                lemma_memberships_of_user_take_step(store.room_memberships@, user@, i as int);
            }
            i = i + 1;
        }
        proof {
            assert(store.room_memberships@.take(n as int) =~= store.room_memberships@);
        }
        Ok(result)
    }

    /// Return member events for given room: exactly one per projection
    /// row of the room, each resolved from the event log.
    ///
    /// A row whose event is absent from the log is a consistency
    /// violation and fails the whole call — it is never silently
    /// skipped.
    pub fn get_events_by_room(store: &Store, room_id: &str) -> (r: Result<
        Vec<MemberEvent>,
        ApiError,
    >)
        ensures
            (match r {
                Ok(events) => spec_member_events(store.room_memberships@, store.events@, room_id@)
                    == Ok::<Seq<MemberEvent>, ApiError>(events@),
                Err(err) => spec_member_events(store.room_memberships@, store.events@, room_id@)
                    == Err::<Seq<MemberEvent>, ApiError>(err),
            }),
    {
        let room = room_id.to_owned();
        let n = store.room_memberships.len();
        let mut result: Vec<MemberEvent> = Vec::new();
        let mut i: usize = 0;
        proof {
            assert(store.room_memberships@.skip(0) =~= store.room_memberships@);
        }
        while i < n
            invariant
                n == store.room_memberships@.len(),
                i <= n,
                room@ == room_id@,
                spec_member_events(store.room_memberships@, store.events@, room@) == (
                match spec_member_events(
                    store.room_memberships@.skip(i as int),
                    store.events@,
                    room@,
                ) {
                    Ok(s) => Ok::<Seq<MemberEvent>, ApiError>(result@ + s),
                    Err(err) => Err::<Seq<MemberEvent>, ApiError>(err),
                }),
            decreases n - i,
        {
            let row = &store.room_memberships[i];
            proof {
                assert(store.room_memberships@.skip(i as int)[0]
                    == store.room_memberships@[i as int]);
                assert(store.room_memberships@.skip(i as int).drop_first()
                    =~= store.room_memberships@.skip(i as int + 1));
            }
            if row.room_id == room {
                let event = match find_event(&store.events, row.event_id) {
                    None => {
                        return Err(ApiError::ConsistencyViolation);
                    },
                    Some(event) => event,
                };
                match event.content {
                    EventContent::Member(content) => {
                        let member_event = MemberEvent {
                            event_id: event.id,
                            room_id: event.room_id,
                            user_id: event.user_id,
                            content,
                        };
                        proof {
                            let rest = spec_member_events(
                                store.room_memberships@.skip(i as int + 1),
                                store.events@,
                                room@,
                            );
                            if rest is Ok {
                                assert(result@ + (seq![member_event] + rest->Ok_0) =~= result@.push(
                                    member_event,
                                ) + rest->Ok_0);
                            }
                        }
                        result.push(member_event);
                    },
                    EventContent::JoinRules(_) => {
                        return Err(ApiError::Serialization);
                    },
                }
            }
            i = i + 1;
        }
        proof {
            assert(store.room_memberships@.skip(n as int) =~= Seq::<RoomMembership>::empty());
            assert(result@ + Seq::<MemberEvent>::empty() =~= result@);
        }
        Ok(result)
    }
}

/// A join-rules lookup only ever yields a join-rules event of the room
/// asked about.
proof fn lemma_latest_join_rules_is_join_rules(s: Seq<Event>, room: Seq<char>)
    ensures
        spec_latest_join_rules_event(s, room) matches Some(e) ==> e.content is JoinRules
            && e.room_id@ == room && spec_latest_join_rule(s, room) == Some(
            e.content->JoinRules_0,
        ),
    decreases s.len(),
{
    if s.len() > 0 {
        lemma_latest_join_rules_is_join_rules(s.drop_last(), room);
    }
}

/// A key that some row carries is found: the lookup never overlooks a row.
proof fn lemma_find_membership_none_absent(
    rows: Seq<RoomMembership>,
    room: Seq<char>,
    user: Seq<char>,
)
    ensures
        spec_find_membership(rows, room, user) is None ==> forall|i: int|
            0 <= i < rows.len() ==> !((#[trigger] rows[i]).room_id@ == room && rows[i].user_id@
                == user),
    decreases rows.len(),
{
    if rows.len() > 0 {
        lemma_find_membership_none_absent(rows.drop_first(), room, user);
        if spec_find_membership(rows, room, user) is None {
            assert forall|i: int| 0 <= i < rows.len() implies !((#[trigger] rows[i]).room_id@
                == room && rows[i].user_id@ == user) by {
                if i > 0 {
                    assert(rows.drop_first()[i - 1] == rows[i]);
                }
            }
        }
    }
}

/// Appending a row with a key no existing row carries keeps the keys
/// unique.
proof fn lemma_membership_push_keeps_unique(rows: Seq<RoomMembership>, row: RoomMembership)
    requires
        forall|i: int, j: int|
            0 <= i < j < rows.len() ==> !((#[trigger] rows[i]).room_id@ == (
            #[trigger] rows[j]).room_id@ && rows[i].user_id@ == rows[j].user_id@),
        spec_find_membership(rows, row.room_id@, row.user_id@) is None,
    ensures
        forall|i: int, j: int|
            0 <= i < j < rows.push(row).len() ==> !((#[trigger] rows.push(row)[i]).room_id@ == (
            #[trigger] rows.push(row)[j]).room_id@ && rows.push(row)[i].user_id@ == rows.push(
                row,
            )[j].user_id@),
{
    lemma_find_membership_none_absent(rows, row.room_id@, row.user_id@);
    assert forall|i: int, j: int| 0 <= i < j < rows.push(row).len() implies !((#[trigger] rows.push(
        row,
    )[i]).room_id@ == (#[trigger] rows.push(row)[j]).room_id@ && rows.push(row)[i].user_id@
        == rows.push(row)[j].user_id@) by {
        if j < rows.len() {
            assert(rows.push(row)[i] == rows[i]);
            assert(rows.push(row)[j] == rows[j]);
        } else {
            assert(rows.push(row)[j] == row);
            assert(rows.push(row)[i] == rows[i]);
        }
    }
}

/// Idempotent creation: when no row for a pair exists, the row a
/// successful creation appends is the only row of the pair afterwards,
/// and the one a later lookup of the pair finds — so a repeated creation
/// with the same pair returns this row unchanged and, by `create`'s
/// contract, writes nothing.
pub proof fn lemma_create_idempotent(rows: Seq<RoomMembership>, row: RoomMembership)
    requires
        spec_find_membership(rows, row.room_id@, row.user_id@) is None,
    ensures
        spec_find_membership(rows.push(row), row.room_id@, row.user_id@) == Some(row),
        forall|i: int|
            0 <= i < rows.push(row).len() && (#[trigger] rows.push(row)[i]).room_id@
                == row.room_id@ && rows.push(row)[i].user_id@ == row.user_id@ ==> rows.push(
                row,
            )[i] == row,
    decreases rows.len(),
{
    lemma_find_membership_none_absent(rows, row.room_id@, row.user_id@);
    assert forall|i: int|
        0 <= i < rows.push(row).len() && (#[trigger] rows.push(row)[i]).room_id@ == row.room_id@
            && rows.push(row)[i].user_id@ == row.user_id@ implies rows.push(row)[i] == row by {
        if i < rows.len() {
            assert(rows.push(row)[i] == rows[i]);
        } else {
            assert(rows.push(row)[i] == row);
        }
    }
    if rows.len() == 0 {
        assert(rows.push(row)[0] == row);
    } else {
        lemma_create_idempotent(rows.drop_first(), row);
        assert(rows.push(row)[0] == rows[0]);
        assert(rows.push(row).drop_first() =~= rows.drop_first().push(row));
    }
}

/// Profile refresh seen through a lookup: repointing the rows of a pair
/// moves exactly that pair's row — if any — to the new event, with every
/// other field unchanged, and creates no row.
pub proof fn lemma_repoint_find(
    rows: Seq<RoomMembership>,
    room: Seq<char>,
    user: Seq<char>,
    id: EventId,
)
    ensures
        spec_repoint(rows, room, user, id).len() == rows.len(),
        spec_find_membership(spec_repoint(rows, room, user, id), room, user) == (
        match spec_find_membership(rows, room, user) {
            Some(row) => Some((RoomMembership { event_id: id, ..row })),
            None => None::<RoomMembership>,
        }),
    decreases rows.len(),
{
    if rows.len() > 0 {
        lemma_repoint_find(rows.drop_first(), room, user, id);
        assert(spec_repoint(rows, room, user, id).drop_first() =~= spec_repoint(
            rows.drop_first(),
            room,
            user,
            id,
        ));
    }
}

/// An event identifier is its position in the log, so a lookup of the
/// identifier `base + k` in a log whose identifiers start at `base`
/// yields the event at position `k`.
proof fn lemma_find_event_offset(events: Seq<Event>, base: int, k: int)
    requires
        0 <= base,
        base + events.len() <= u64::MAX as int + 1,
        forall|i: int|
            0 <= i < events.len() ==> (#[trigger] events[i]).id == EventId((i + base) as u64),
        0 <= k < events.len(),
    ensures
        spec_find_event(events, EventId((k + base) as u64)) == Some(events[k]),
    decreases k,
{
    if k > 0 {
        assert(events[0].id == EventId(base as u64));
        assert(base as u64 != (k + base) as u64);
        assert forall|i: int| 0 <= i < events.drop_first().len() implies (
        #[trigger] events.drop_first()[i]).id == EventId((i + (base + 1)) as u64) by {
            assert(events.drop_first()[i] == events[i + 1]);
        }
        lemma_find_event_offset(events.drop_first(), base + 1, k - 1);
        assert(events.drop_first()[k - 1] == events[k]);
    }
}

/// The fan-out law over raw tables: under the store's integrity
/// constraints the member-event listing of a room never fails and holds
/// exactly one event per row of the room, in stored order, each carrying
/// that row's event pointer.
proof fn lemma_member_events_total(rows: Seq<RoomMembership>, events: Seq<Event>, room: Seq<char>)
    requires
        events.len() <= u64::MAX as int + 1,
        forall|i: int| 0 <= i < events.len() ==> (#[trigger] events[i]).id == EventId(i as u64),
        forall|i: int|
            0 <= i < rows.len() ==> {
                let row = #[trigger] rows[i];
                &&& row.event_id.0 < events.len()
                &&& events[row.event_id.0 as int].content is Member
            },
    ensures
        spec_member_events(rows, events, room) is Ok,
        spec_member_events(rows, events, room)->Ok_0.len() == spec_rows_of_room(rows, room).len(),
        forall|k: int|
            0 <= k < spec_rows_of_room(rows, room).len() ==> (#[trigger] spec_member_events(
                rows,
                events,
                room,
            )->Ok_0[k]).event_id == spec_rows_of_room(rows, room)[k].event_id,
    decreases rows.len(),
{
    if rows.len() > 0 {
        assert forall|i: int| 0 <= i < rows.drop_first().len() implies {
            let row = #[trigger] rows.drop_first()[i];
            &&& row.event_id.0 < events.len()
            &&& events[row.event_id.0 as int].content is Member
        } by {
            assert(rows.drop_first()[i] == rows[i + 1]);
        }
        lemma_member_events_total(rows.drop_first(), events, room);
        if rows[0].room_id@ == room {
            let k0 = rows[0].event_id.0 as int;
            assert forall|i: int| 0 <= i < events.len() implies (#[trigger] events[i]).id
                == EventId((i + 0) as u64) by {}
            lemma_find_event_offset(events, 0, k0);
            assert(rows[0].event_id == EventId((k0 + 0) as u64));
            assert(spec_find_event(events, rows[0].event_id) == Some(events[k0]));
            let rest = spec_member_events(rows.drop_first(), events, room)->Ok_0;
            let rest_rows = spec_rows_of_room(rows.drop_first(), room);
            assert forall|k: int| 0 <= k < spec_rows_of_room(rows, room).len() implies (
            #[trigger] spec_member_events(rows, events, room)->Ok_0[k]).event_id
                == spec_rows_of_room(rows, room)[k].event_id by {
                if k > 0 {
                    assert(spec_member_events(rows, events, room)->Ok_0[k] == rest[k - 1]);
                    assert(spec_rows_of_room(rows, room)[k] == rest_rows[k - 1]);
                } else {
                    assert(events[k0].id == EventId(k0 as u64));
                }
            }
        }
    }
}

/// Fan-out: in a well-formed store, listing the member events of a room
/// never fails and yields exactly one event per projection row of the
/// room, in stored order, each resolved from that row's event pointer.
pub proof fn lemma_fan_out(store: Store, room: Seq<char>)
    requires
        store.wf(),
    ensures
        spec_member_events(store.room_memberships@, store.events@, room) is Ok,
        spec_member_events(store.room_memberships@, store.events@, room)->Ok_0.len()
            == spec_rows_of_room(store.room_memberships@, room).len(),
        forall|k: int|
            0 <= k < spec_rows_of_room(store.room_memberships@, room).len() ==> (
            #[trigger] spec_member_events(store.room_memberships@, store.events@, room)->Ok_0[k]).event_id
                == spec_rows_of_room(store.room_memberships@, room)[k].event_id,
{
    vstd::std_specs::vec::axiom_spec_len(&store.events);
    lemma_member_events_total(store.room_memberships@, store.events@, room);
}

/// A dangling reference surfaces: when a row of the room points at no
/// event of the log, and every earlier row of the room still resolves to
/// a membership-state event, listing the room's member events fails with
/// the consistency violation — the dangling row is never silently
/// skipped. (An earlier row that resolves to a non-membership event
/// decides first, with the serialization error: the first failing row of
/// the room picks the error.)
pub proof fn lemma_dangling_reference_fails(
    rows: Seq<RoomMembership>,
    events: Seq<Event>,
    room: Seq<char>,
    k: int,
)
    requires
        0 <= k < rows.len(),
        rows[k].room_id@ == room,
        spec_find_event(events, rows[k].event_id) is None,
        forall|i: int|
            0 <= i < k && (#[trigger] rows[i]).room_id@ == room ==> {
                &&& spec_find_event(events, rows[i].event_id) is Some
                &&& spec_find_event(events, rows[i].event_id)->Some_0.content is Member
            },
    ensures
        spec_member_events(rows, events, room) == Err::<Seq<MemberEvent>, ApiError>(
            ApiError::ConsistencyViolation,
        ),
    decreases k,
{
    if k > 0 {
        assert(rows.drop_first()[k - 1] == rows[k]);
        assert forall|i: int|
            0 <= i < k - 1 && (#[trigger] rows.drop_first()[i]).room_id@ == room implies {
            &&& spec_find_event(events, rows.drop_first()[i].event_id) is Some
            &&& spec_find_event(events, rows.drop_first()[i].event_id)->Some_0.content is Member
        } by {
            assert(rows.drop_first()[i] == rows[i + 1]);
        }
        lemma_dangling_reference_fails(rows.drop_first(), events, room, k - 1);
    }
}

/// Extending the scanned prefix by one row extends the collected rows by
/// that row exactly when it belongs to the user.
proof fn lemma_memberships_of_user_take_step(rows: Seq<RoomMembership>, user: Seq<char>, i: int)
    requires
        0 <= i < rows.len(),
    ensures
        spec_memberships_of_user(rows.take(i + 1), user) == if rows[i].user_id@ == user {
            spec_memberships_of_user(rows.take(i), user).push(rows[i])
        } else {
            spec_memberships_of_user(rows.take(i), user)
        },
    decreases i,
{
    if i == 0 {
        assert(rows.take(1) =~= seq![rows[0]]);
        assert(rows.take(0) =~= Seq::<RoomMembership>::empty());
        if rows[0].user_id@ == user {
            assert(rows.take(1).drop_first() =~= Seq::<RoomMembership>::empty());
            assert(rows.take(1)[0] == rows[0]);
            assert(spec_memberships_of_user(rows.take(1), user) == seq![rows[0]]
                + spec_memberships_of_user(Seq::<RoomMembership>::empty(), user));
            assert(seq![rows[0]] + Seq::<RoomMembership>::empty() =~= Seq::<
                RoomMembership,
            >::empty().push(rows[0]));
        } else {
            assert(rows.take(1).drop_first() =~= Seq::<RoomMembership>::empty());
        }
    } else {
        lemma_memberships_of_user_take_step(rows.drop_first(), user, i - 1);
        assert(rows.take(i + 1).drop_first() =~= rows.drop_first().take(i));
        assert(rows.take(i).drop_first() =~= rows.drop_first().take(i - 1));
        assert(rows.drop_first()[i - 1] == rows[i]);
        if rows[i].user_id@ == user {
            assert(spec_memberships_of_user(rows.take(i + 1), user) == if rows.take(i
                + 1)[0].user_id@ == user {
                seq![rows[0]] + spec_memberships_of_user(rows.drop_first().take(i), user)
            } else {
                spec_memberships_of_user(rows.drop_first().take(i), user)
            });
            if rows[0].user_id@ == user {
                assert((seq![rows[0]] + spec_memberships_of_user(rows.drop_first().take(i - 1),
                    user).push(rows[i])) =~= (seq![rows[0]] + spec_memberships_of_user(
                    rows.drop_first().take(i - 1),
                    user,
                )).push(rows[i]));
            }
        }
    }
}

} // verus!
