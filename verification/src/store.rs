//! The storage handle every operation of the core receives.
//!
//! The handle models the persisted layout as in-memory tables: the
//! append-only event log, the membership projection rows, and the
//! read-only profile source, together with the clock that stamps new
//! rows. Its integrity constraints are collected in [`Store::wf`];
//! every mutating operation of the core requires and preserves them.

use vstd::prelude::*;

use crate::event::{Event, EventContent, EventId, JoinRule};
use crate::membership::membership_of;
use crate::profile::Profile;
use crate::room_membership::RoomMembership;

verus! {

/// The contents of the persistent store.
pub struct Store {
    /// The append-only event log. An event's identifier is its position.
    pub events: Vec<Event>,
    /// The membership projection rows, at most one per `(room_id, user_id)`.
    pub room_memberships: Vec<RoomMembership>,
    /// The profile source, read but never written by this core.
    pub profiles: Vec<Profile>,
    /// The time new rows are stamped with.
    pub clock: u64,
}

impl Store {
    /// The store's integrity constraints:
    /// - each event's identifier is its position in the log;
    /// - `(room_id, user_id)` is unique over the projection rows;
    /// - every row's `event_id` resolves to a membership-state event in
    ///   the log (referential consistency);
    /// - every row's membership text is one of the closed set.
    pub open spec fn wf(&self) -> bool {
        &&& forall|i: int|
            0 <= i < self.events@.len() ==> (#[trigger] self.events@[i]).id == EventId(i as u64)
        &&& forall|i: int, j: int|
            0 <= i < j < self.room_memberships@.len() ==> !((#[trigger] self.room_memberships@[i]).room_id@
                == (#[trigger] self.room_memberships@[j]).room_id@
                && self.room_memberships@[i].user_id@ == self.room_memberships@[j].user_id@)
        &&& forall|i: int|
            0 <= i < self.room_memberships@.len() ==> {
                let row = #[trigger] self.room_memberships@[i];
                &&& row.event_id.0 < self.events@.len()
                &&& self.events@[row.event_id.0 as int].content is Member
            }
        &&& forall|i: int|
            0 <= i < self.room_memberships@.len() ==> membership_of(
                (#[trigger] self.room_memberships@[i]).membership@,
            ) is Some
    }

    /// An empty store.
    pub fn new() -> (s: Store)
        ensures
            s.wf(),
            s.events@ == Seq::<Event>::empty(),
            s.room_memberships@ == Seq::<RoomMembership>::empty(),
            s.profiles@ == Seq::<Profile>::empty(),
            s.clock == 0,
    {
        Store {
            events: Vec::new(),
            room_memberships: Vec::new(),
            profiles: Vec::new(),
            clock: 0,
        }
    }

    /// Set the time that new rows will be stamped with.
    pub fn set_clock(&mut self, now: u64)
        ensures
            final(self).events@ == old(self).events@,
            final(self).room_memberships@ == old(self).room_memberships@,
            final(self).profiles@ == old(self).profiles@,
            final(self).clock == now,
            old(self).wf() ==> final(self).wf(),
    {
        self.clock = now;
    }

    /// Make `profile` the one a lookup for its user finds, shadowing any
    /// earlier profile of that user. The profile source itself is outside
    /// the core; this is its write path in the model.
    pub fn put_profile(&mut self, profile: Profile)
        ensures
            final(self).events@ == old(self).events@,
            final(self).room_memberships@ == old(self).room_memberships@,
            final(self).profiles@ == old(self).profiles@.insert(0, profile),
            final(self).clock == old(self).clock,
            old(self).wf() ==> final(self).wf(),
    {
        self.profiles.insert(0, profile);
    }

    /// Append a join-rules state event for a room, putting the room under
    /// `join_rule`. Room policy is written outside this core; this is its
    /// write path in the model.
    pub fn append_join_rules_event(&mut self, room_id: String, join_rule: JoinRule) -> (id:
        EventId)
        requires
            old(self).wf(),
        ensures
            final(self).wf(),
            id == EventId(old(self).events@.len() as u64),
            final(self).events@ == old(self).events@.push(final(self).events@.last()),
            ({
                let ev = final(self).events@.last();
                &&& ev.id == id
                &&& ev.room_id == room_id
                &&& ev.user_id@ == Seq::<char>::empty()
                &&& ev.content == EventContent::JoinRules(join_rule)
            }),
            final(self).room_memberships@ == old(self).room_memberships@,
            final(self).profiles@ == old(self).profiles@,
            final(self).clock == old(self).clock,
    {
        let id = EventId(self.events.len() as u64);
        let event = Event {
            id,
            room_id,
            user_id: String::new(),
            content: EventContent::JoinRules(join_rule),
        };
        self.events.push(event);
        id
    }
}

} // verus!
