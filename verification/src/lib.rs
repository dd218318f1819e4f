//! A verified core for a chat-room protocol backend.
//!
//! Two services live here: a write-once idempotency cache keyed by endpoint
//! path and caller credential (`transaction`), and a materialized room
//! membership projection derived from an append-only event log
//! (`room_membership`), with join-policy authorization enforced at creation
//! time. The persistent storage is modelled by in-memory tables (`store`)
//! whose integrity constraints are stated as well-formedness predicates and
//! preserved by every operation.

pub mod error;
pub mod event;
pub mod membership;
pub mod profile;
pub mod room_membership;
pub mod store;
pub mod transaction;
