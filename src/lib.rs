//! Bundled relation aggregations and policy server decisions for the events of
//! a chat room.
//!
//! - [`replacement`] decides which events may replace an event, and which of
//!   them wins;
//! - [`aggregation`] sums up the relations of an event: its current
//!   replacement and the events that reference it;
//! - [`unsigned`] merges that summary into the event's unsigned metadata,
//!   keeping everything else there;
//! - [`access`] decides whether an event may be served to a user;
//! - [`policy`] decides on an event from the answer of the room's policy server;
//! - [`with_lock`] scopes access to locked data.
use vstd::prelude::*;

pub mod json;
pub mod event;
pub mod replacement;
pub mod unsigned;
pub mod aggregation;
pub mod policy;
pub mod with_lock;
pub mod access;

pub use access::{ReadError, check_event_access};
pub use aggregation::{
    BundledAggregations, MAX_BUNDLED_RELATIONS, add_bundled_aggregations_to_pdu,
    get_bundled_aggregations,
};
pub use event::{BundleError, PduEvent};
pub use policy::{PolicyError, PolicyResponse, RoomPolicy, policy_server, policyserv_check};
pub use replacement::{find_most_recent_replacement, is_valid_replacement_event};
pub use with_lock::WithLock;
pub use unsigned::{add_bundled_aggregations_to_unsigned, merge_relations};

verus! {

} // verus!
