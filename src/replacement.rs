//! Which events may replace an event, and which replacement wins.
use vstd::prelude::*;
use vstd::utf8::encode_utf8;
use crate::event::{
    BundleError, PduEvent, encrypted_type, has_relation_type, new_content_key, rel_type_of, replace_rel,
    text_eq,
};
use crate::json::{member, value_get};

verus! {

/// Whether `candidate` is a legitimate replacement of `original`: same room,
/// sender and type; neither a state event; `original` not itself a
/// replacement; and, unless encrypted, `candidate` carries new content.
pub open spec fn is_valid_replacement(original: PduEvent, candidate: PduEvent) -> bool {
    &&& original.room_id@ == candidate.room_id@
    &&& original.sender@ == candidate.sender@
    &&& original.kind@ == candidate.kind@
    &&& original.state_key is None
    &&& candidate.state_key is None
    &&& rel_type_of(original.content) != Some(replace_rel())
    &&& (candidate.kind@ == encrypted_type() || member(candidate.content, new_content_key()) is Some)
}

/// Checks that `replacement_event` is acceptable as a replacement of `original_event`.
pub fn is_valid_replacement_event(original_event: &PduEvent, replacement_event: &PduEvent) -> (r:
    Result<bool, BundleError>)
    ensures
        r == Ok::<bool, BundleError>(is_valid_replacement(*original_event, *replacement_event)),
{
    if original_event.room_id != replacement_event.room_id {
        return Ok(false);
    }
    if original_event.sender != replacement_event.sender {
        return Ok(false);
    }
    if original_event.kind != replacement_event.kind {
        return Ok(false);
    }
    if original_event.state_key.is_some() || replacement_event.state_key.is_some() {
        return Ok(false);
    }
    if has_relation_type(&original_event.content, "m.replace") {
        return Ok(false);
    }
    if !text_eq(replacement_event.kind.as_str(), "m.room.encrypted") {
        if value_get(&replacement_event.content, "m.new_content").is_none() {
            return Ok(false);
        }
    }
    Ok(true)
}

/// Whether byte string `a` comes after `b` in lexicographic order.
pub open spec fn bytes_after(a: Seq<u8>, b: Seq<u8>) -> bool
    decreases a.len(),
{
    if a.len() == 0 {
        false
    } else if b.len() == 0 {
        true
    } else if a[0] != b[0] {
        a[0] > b[0]
    } else {
        bytes_after(a.drop_first(), b.drop_first())
    }
}

/// Whether text `a` comes after `b` in the order of `String`: that of their
/// UTF-8 bytes.
pub open spec fn text_after(a: Seq<char>, b: Seq<char>) -> bool {
    bytes_after(encode_utf8(a), encode_utf8(b))
}

/// Whether `a` is more recent than `b`: a later timestamp, or the same
/// timestamp and a greater event identifier.
pub open spec fn more_recent(a: PduEvent, b: PduEvent) -> bool {
    a.origin_server_ts > b.origin_server_ts || (a.origin_server_ts == b.origin_server_ts
        && text_after(a.event_id@, b.event_id@))
}

/// Whether `a` from position `i` on comes after `b` from position `i` on.
pub open spec fn suffix_after(a: Seq<u8>, b: Seq<u8>, i: int) -> bool {
    bytes_after(a.subrange(i, a.len() as int), b.subrange(i, b.len() as int))
}

proof fn lemma_suffix_step(a: Seq<u8>, b: Seq<u8>, i: int)
    requires
        0 <= i < a.len(),
        i < b.len(),
    ensures
        a[i] != b[i] ==> (suffix_after(a, b, i) == (a[i] > b[i])),
        a[i] == b[i] ==> (suffix_after(a, b, i) == suffix_after(a, b, i + 1)),
{
    let sa = a.subrange(i, a.len() as int);
    let sb = b.subrange(i, b.len() as int);
    assert(sa.drop_first() =~= a.subrange(i + 1, a.len() as int));
    assert(sb.drop_first() =~= b.subrange(i + 1, b.len() as int));
}

/// Whether byte slice `a` comes after `b` in lexicographic order.
pub fn slice_after(a: &[u8], b: &[u8]) -> (r: bool)
    ensures
        r == bytes_after(a@, b@),
{
    let mut i: usize = 0;
    assert(a@.subrange(0, a@.len() as int) =~= a@);
    assert(b@.subrange(0, b@.len() as int) =~= b@);
    while i < a.len() && i < b.len()
        invariant
            i <= a@.len(),
            i <= b@.len(),
            suffix_after(a@, b@, i as int) == bytes_after(a@, b@),
        decreases a@.len() - i,
    {
        proof {
            lemma_suffix_step(a@, b@, i as int);
        }
        if a[i] != b[i] {
            return a[i] > b[i];
        }
        i = i + 1;
    }
    i < a.len()
}

/// Whether event identifier `a` comes after `b`.
pub fn event_id_after(a: &String, b: &String) -> (r: bool)
    ensures
        r == text_after(a@, b@),
{
    slice_after(a.as_str().as_bytes(), b.as_str().as_bytes())
}

/// Whether event `a` is more recent than event `b`.
pub fn is_more_recent(a: &PduEvent, b: &PduEvent) -> (r: bool)
    ensures
        r == more_recent(*a, *b),
{
    if a.origin_server_ts > b.origin_server_ts {
        true
    } else if a.origin_server_ts == b.origin_server_ts {
        event_id_after(&a.event_id, &b.event_id)
    } else {
        false
    }
}

/// The position of the most recent event among `events[..n]`: the first one
/// that no later one is more recent than.
pub open spec fn most_recent_in(events: Seq<PduEvent>, n: int) -> Option<int>
    decreases n,
{
    if n <= 0 {
        None
    } else {
        match most_recent_in(events, n - 1) {
            None => Some(n - 1),
            Some(j) => if more_recent(events[n - 1], events[j]) {
                Some(n - 1)
            } else {
                Some(j)
            },
        }
    }
}

/// Finds the most recent of the replacement events, by timestamp and then by
/// event identifier.
pub fn find_most_recent_replacement(replacement_events: &[PduEvent]) -> (r: Result<
    Option<usize>,
    BundleError,
>)
    ensures
        r matches Ok(i) && (i matches Some(k) ==> Some(k as int) == most_recent_in(replacement_events@, replacement_events@.len() as int))
            && (i is None <==> replacement_events@.len() == 0),
        r matches Ok(Some(k)) ==> forall|j: int|
            0 <= j < replacement_events@.len() ==> !more_recent(
                #[trigger] replacement_events@[j],
                replacement_events@[k as int],
            ),
{
    let mut most_recent: Option<usize> = None;
    let mut i: usize = 0;
    while i < replacement_events.len()
        invariant
            i <= replacement_events@.len(),
            most_recent matches Some(k) ==> Some(k as int) == most_recent_in(replacement_events@, i as int),
            most_recent is None <==> i == 0,
            most_recent matches Some(k) ==> k < i,
        decreases replacement_events@.len() - i,
    {
        match most_recent {
            None => {
                most_recent = Some(i);
            },
            Some(j) => {
                if is_more_recent(&replacement_events[i], &replacement_events[j]) {
                    most_recent = Some(i);
                }
            },
        }
        i = i + 1;
    }
    proof {
        if replacement_events@.len() > 0 {
            lemma_most_recent_is_maximal(replacement_events@, replacement_events@.len() as int);
        }
    }
    Ok(most_recent)
}

/// Where the other rules hold, an encrypted replacement is valid without new
/// content in its clear content, and any other one is not.
pub proof fn lemma_new_content_rule(original: PduEvent, candidate: PduEvent)
    requires
        original.room_id@ == candidate.room_id@,
        original.sender@ == candidate.sender@,
        original.kind@ == candidate.kind@,
        original.state_key is None,
        candidate.state_key is None,
        rel_type_of(original.content) != Some(replace_rel()),
        member(candidate.content, new_content_key()) is None,
    ensures
        candidate.kind@ == encrypted_type() ==> is_valid_replacement(original, candidate),
        candidate.kind@ != encrypted_type() ==> !is_valid_replacement(original, candidate),
{
}

pub(crate) proof fn lemma_text_after_asymmetric(a: Seq<u8>, b: Seq<u8>)
    ensures
        bytes_after(a, b) ==> !bytes_after(b, a),
    decreases a.len(),
{
    if a.len() > 0 && b.len() > 0 && a[0] == b[0] {
        lemma_text_after_asymmetric(a.drop_first(), b.drop_first());
    }
}

proof fn lemma_bytes_after_transitive(a: Seq<u8>, b: Seq<u8>, c: Seq<u8>)
    ensures
        bytes_after(a, b) && bytes_after(b, c) ==> bytes_after(a, c),
    decreases a.len(),
{
    if a.len() > 0 && b.len() > 0 && c.len() > 0 && a[0] == b[0] && b[0] == c[0] {
        lemma_bytes_after_transitive(a.drop_first(), b.drop_first(), c.drop_first());
    }
}

proof fn lemma_more_recent_order(a: PduEvent, b: PduEvent, c: PduEvent)
    ensures
        !more_recent(a, a),
        more_recent(a, b) && more_recent(b, c) ==> more_recent(a, c),
{
    lemma_text_after_asymmetric(encode_utf8(a.event_id@), encode_utf8(a.event_id@));
    lemma_bytes_after_transitive(
        encode_utf8(a.event_id@),
        encode_utf8(b.event_id@),
        encode_utf8(c.event_id@),
    );
}

proof fn lemma_most_recent_is_maximal(events: Seq<PduEvent>, n: int)
    requires
        0 < n <= events.len(),
    ensures
        most_recent_in(events, n) matches Some(k) && 0 <= k < n && forall|j: int|
            0 <= j < n ==> !more_recent(#[trigger] events[j], events[k]),
    decreases n,
{
    let last = events[n - 1];
    lemma_more_recent_order(last, last, last);
    if n > 1 {
        lemma_most_recent_is_maximal(events, n - 1);
        let k0 = most_recent_in(events, n - 1)->0;
        if more_recent(last, events[k0]) {
            assert forall|j: int| 0 <= j < n implies !more_recent(#[trigger] events[j], last) by {
                lemma_more_recent_order(events[j], last, events[k0]);
            }
        }
    } else {
        assert(most_recent_in(events, 0) is None);
    }
}

} // verus!
