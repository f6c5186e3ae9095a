//! Events as the relation logic sees them.
use vstd::prelude::*;
use crate::json::{member, string_of, value_as_str, value_get};

verus! {

/// Why a bundling operation failed.
#[derive(PartialEq, Eq, Structural, Debug, Clone, Copy)]
pub enum BundleError {
    /// The event's existing unsigned metadata is not a JSON object.
    InvalidUnsigned,
    /// The relation entry of the unsigned metadata exists and is not an object.
    RelationsNotObject,
}

/// An event of a room, with the fields that relation bundling reads.
///
/// `content` is the event's JSON content; `unsigned` the text of its unsigned
/// metadata, where it has any.
#[derive(Clone, Debug)]
pub struct PduEvent {
    pub event_id: String,
    pub room_id: String,
    pub sender: String,
    pub origin_server_ts: u64,
    /// The event type, such as `m.room.message`.
    pub kind: String,
    pub content: serde_json::Value,
    pub state_key: Option<String>,
    /// Whether the event has been redacted.
    pub redacted: bool,
    pub unsigned: Option<String>,
}

/// The key of a content's relation object.
pub open spec fn relates_to_key() -> Seq<char> {
    "m.relates_to"@
}

/// The key, inside the relation object, of the relation's type.
pub open spec fn rel_type_key() -> Seq<char> {
    "rel_type"@
}

/// The relation type of an edit.
pub open spec fn replace_rel() -> Seq<char> {
    "m.replace"@
}

/// The relation type of a reference.
pub open spec fn reference_rel() -> Seq<char> {
    "m.reference"@
}

/// The key of an edit's new content.
pub open spec fn new_content_key() -> Seq<char> {
    "m.new_content"@
}

/// The event type of an end-to-end encrypted event.
pub open spec fn encrypted_type() -> Seq<char> {
    "m.room.encrypted"@
}

/// The relation type that a content declares: the string under
/// `m.relates_to.rel_type`, where there is one.
pub open spec fn rel_type_of(content: serde_json::Value) -> Option<Seq<char>> {
    match member(content, relates_to_key()) {
        Some(rel) => match member(rel, rel_type_key()) {
            Some(t) => string_of(t),
            None => None,
        },
        None => None,
    }
}

/// Whether two texts are equal.
pub fn text_eq(a: &str, b: &str) -> (r: bool)
    ensures
        r == (a@ == b@),
{
    a.to_owned() == b.to_owned()
}

/// The relation type that a content declares.
pub fn relation_type(content: &serde_json::Value) -> (r: Option<&str>)
    ensures
        r is None <==> rel_type_of(*content) is None,
        r matches Some(t) ==> rel_type_of(*content) == Some(t@),
{
    match value_get(content, "m.relates_to") {
        Some(rel) => match value_get(rel, "rel_type") {
            Some(t) => value_as_str(t),
            None => None,
        },
        None => None,
    }
}

/// Whether a content declares a relation of the given type.
pub fn has_relation_type(content: &serde_json::Value, rel: &str) -> (r: bool)
    ensures
        r == (rel_type_of(*content) == Some(rel@)),
{
    match relation_type(content) {
        Some(t) => text_eq(t, rel),
        None => false,
    }
}

} // verus!
