//! The event classes this core constructs and reads.
//!
//! The event log is append-only; an event's identifier is its position in
//! the log, so identifiers are fresh and unique by construction.

use vstd::prelude::*;

use crate::error::ApiError;
use crate::membership::Membership;
use crate::store::Store;

verus! {

/// The identifier of an event: its position in the append-only log.
#[derive(Clone, Copy, Debug, PartialEq, Eq, Structural)]
pub struct EventId(pub u64);

/// The room-level policy governing who may create a membership.
#[derive(Clone, Copy, Debug, PartialEq, Eq, Structural)]
pub enum JoinRule {
    /// Anyone may join.
    Public,
    /// Only invited users may join.
    Invite,
    /// Joining takes a knock that is answered.
    Knock,
    /// Nobody may join.
    Private,
}

/// The payload of a membership-state event.
#[derive(Debug, PartialEq, Eq)]
pub struct MemberEventContent {
    /// The avatar reference of the affected user when the event was built.
    pub avatar_url: Option<String>,
    /// The display name of the affected user when the event was built.
    pub displayname: Option<String>,
    /// The membership value the event records.
    pub membership: Membership,
}

impl Clone for MemberEventContent {
    fn clone(&self) -> (r: Self)
        ensures
            r == *self,
    {
        MemberEventContent {
            avatar_url: match &self.avatar_url {
                Some(url) => Some(url.clone()),
                None => None,
            },
            displayname: match &self.displayname {
                Some(name) => Some(name.clone()),
                None => None,
            },
            membership: self.membership,
        }
    }
}

/// The payload of a state event, for the two classes the core knows.
#[derive(Debug, PartialEq, Eq)]
pub enum EventContent {
    /// A membership-state event.
    Member(MemberEventContent),
    /// A join-rules state event.
    JoinRules(JoinRule),
}

impl Clone for EventContent {
    fn clone(&self) -> (r: Self)
        ensures
            r == *self,
    {
        match self {
            EventContent::Member(content) => EventContent::Member(content.clone()),
            EventContent::JoinRules(rule) => EventContent::JoinRules(*rule),
        }
    }
}

/// A state event of the append-only log.
#[derive(Debug, PartialEq, Eq)]
pub struct Event {
    /// The event's identifier.
    pub id: EventId,
    /// The room the event belongs to.
    pub room_id: String,
    /// The user the event affects.
    pub user_id: String,
    /// The event's payload.
    pub content: EventContent,
}

impl Clone for Event {
    fn clone(&self) -> (r: Self)
        ensures
            r == *self,
    {
        Event {
            id: self.id,
            room_id: self.room_id.clone(),
            user_id: self.user_id.clone(),
            content: self.content.clone(),
        }
    }
}

/// A membership-state event in its parsed shape, as the fan-out lookup
/// hands it out.
#[derive(Debug, PartialEq, Eq)]
pub struct MemberEvent {
    /// The identifier of the underlying log event.
    pub event_id: EventId,
    /// The room the event belongs to.
    pub room_id: String,
    /// The user the event affects.
    pub user_id: String,
    /// The membership payload.
    pub content: MemberEventContent,
}

impl Clone for MemberEvent {
    fn clone(&self) -> (r: Self)
        ensures
            r == *self,
    {
        MemberEvent {
            event_id: self.event_id,
            room_id: self.room_id.clone(),
            user_id: self.user_id.clone(),
            content: self.content.clone(),
        }
    }
}

/// The first event of `s` carrying `id`, if any.
pub open spec fn spec_find_event(s: Seq<Event>, id: EventId) -> Option<Event>
    decreases s.len(),
{
    if s.len() == 0 {
        None
    } else if s[0].id == id {
        Some(s[0])
    } else {
        spec_find_event(s.drop_first(), id)
    }
}

/// The most recent join-rules event of `s` for `room`, if any.
pub open spec fn spec_latest_join_rules_event(s: Seq<Event>, room: Seq<char>) -> Option<Event>
    decreases s.len(),
{
    if s.len() == 0 {
        None
    } else if s.last().room_id@ == room && s.last().content is JoinRules {
        Some(s.last())
    } else {
        spec_latest_join_rules_event(s.drop_last(), room)
    }
}

/// The join rule `room` is currently under, if a join-rules event exists.
pub open spec fn spec_latest_join_rule(s: Seq<Event>, room: Seq<char>) -> Option<JoinRule> {
    match spec_latest_join_rules_event(s, room) {
        Some(e) => match e.content {
            EventContent::JoinRules(rule) => Some(rule),
            EventContent::Member(_) => None,
        },
        None => None,
    }
}

/// Look up an event by its identifier, scanning the log from the front.
pub(crate) fn find_event(events: &Vec<Event>, id: EventId) -> (r: Option<Event>)
    ensures
        r == spec_find_event(events@, id),
{
    let n = events.len();
    let mut i: usize = 0;
    proof {
        assert(events@.skip(0) =~= events@);
    }
    while i < n
        invariant
            n == events@.len(),
            i <= n,
            spec_find_event(events@.skip(i as int), id) == spec_find_event(events@, id),
        decreases n - i,
    {
        let event = &events[i];
        if event.id == id {
            proof {
                assert(events@.skip(i as int)[0] == events@[i as int]);
            }
            return Some(event.clone());
        }
        proof {
            assert(events@.skip(i as int).drop_first() =~= events@.skip(i as int + 1));
        }
        i = i + 1;
    }
    proof {
        assert(events@.skip(n as int) =~= Seq::<Event>::empty());
    }
    None
}

impl Event {
    /// Find the current join-rules state event of a room: the most recent
    /// one the log holds.
    ///
    /// A room without one cannot be reasoned about, so absence is an
    /// error here, unlike in the row lookups.
    pub fn find_room_join_rules_by_room_id(store: &Store, room_id: &str) -> (r: Result<
        Event,
        ApiError,
    >)
        ensures
            (match r {
                Ok(e) => spec_latest_join_rules_event(store.events@, room_id@) == Some(e),
                Err(e) => spec_latest_join_rules_event(store.events@, room_id@) is None && e
                    == ApiError::NotFound,
            }),
    {
        let room = room_id.to_owned();
        let mut i: usize = store.events.len();
        proof {
            assert(store.events@.take(store.events@.len() as int) =~= store.events@);
        }
        while i > 0
            invariant
                i <= store.events@.len(),
                room@ == room_id@,
                spec_latest_join_rules_event(store.events@.take(i as int), room@)
                    == spec_latest_join_rules_event(store.events@, room@),
            decreases i,
        {
            let event = &store.events[i - 1];
            let is_join_rules = match &event.content {
                EventContent::JoinRules(_) => true,
                EventContent::Member(_) => false,
            };
            proof {
                assert(store.events@.take(i as int).last() == store.events@[i as int - 1]);
                assert(store.events@.take(i as int).drop_last() =~= store.events@.take(
                    i as int - 1,
                ));
            }
            if is_join_rules && event.room_id == room {
                return Ok(event.clone());
            }
            i = i - 1;
        }
        proof {
            assert(store.events@.take(0) =~= Seq::<Event>::empty());
        }
        Err(ApiError::NotFound)
    }
}

} // verus!
