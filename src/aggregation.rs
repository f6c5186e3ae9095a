//! Bundled aggregations: the summary of the relations of an event.
use vstd::prelude::*;
use crate::event::{BundleError, PduEvent, has_relation_type, reference_rel, rel_type_of, replace_rel};
use crate::json::{
    array_of, array_value, entries, parse_object, parsed_object, member, object_entries, uint_of, new_object, number_value, object_insert, object_value,
    string_of, string_value,
};
use crate::replacement::{
    bytes_after, find_most_recent_replacement, is_valid_replacement,
    is_valid_replacement_event, lemma_text_after_asymmetric, more_recent, most_recent_in, text_after,
};
use vstd::utf8::encode_utf8;
use crate::unsigned::{add_bundled_aggregations_to_unsigned, merge_outcome};

verus! {

/// The most relations of one event that bundling looks at.
pub const MAX_BUNDLED_RELATIONS: usize = 50;

/// The bundled aggregations of an event: its current replacement, and the
/// identifiers of the events that reference it. At least one is present.
#[derive(Clone, Debug)]
pub struct BundledAggregations {
    pub replace: Option<PduEvent>,
    pub reference: Option<Vec<String>>,
}

/// The relations that bundling looks at: the first ones, up to the cap.
pub open spec fn considered(relations: Seq<PduEvent>) -> Seq<PduEvent> {
    if relations.len() <= MAX_BUNDLED_RELATIONS {
        relations
    } else {
        relations.take(MAX_BUNDLED_RELATIONS as int)
    }
}

/// Whether `e` is a replacement of `original` that counts: it declares a
/// replacement relation and is a valid one.
pub open spec fn counts_as_replacement(original: PduEvent, e: PduEvent) -> bool {
    rel_type_of(e.content) == Some(replace_rel()) && is_valid_replacement(original, e)
}

/// The replacements that count among the first `n` relations, in order.
pub open spec fn replacements(original: PduEvent, rels: Seq<PduEvent>, n: int) -> Seq<PduEvent>
    decreases n,
{
    if n <= 0 {
        Seq::empty()
    } else if counts_as_replacement(original, rels[n - 1]) {
        replacements(original, rels, n - 1).push(rels[n - 1])
    } else {
        replacements(original, rels, n - 1)
    }
}

/// The identifiers of the references among the first `n` relations, in order.
pub open spec fn references(rels: Seq<PduEvent>, n: int) -> Seq<Seq<char>>
    decreases n,
{
    if n <= 0 {
        Seq::empty()
    } else if rel_type_of(rels[n - 1].content) == Some(reference_rel()) {
        references(rels, n - 1).push(rels[n - 1].event_id@)
    } else {
        references(rels, n - 1)
    }
}

/// The replacements of `original` that count among its relations.
pub open spec fn all_replacements(original: PduEvent, relations: Seq<PduEvent>) -> Seq<PduEvent> {
    replacements(original, considered(relations), considered(relations).len() as int)
}

/// The identifiers of the references among the relations.
pub open spec fn all_references(relations: Seq<PduEvent>) -> Seq<Seq<char>> {
    references(considered(relations), considered(relations).len() as int)
}

/// The texts of a list of strings.
pub open spec fn texts(v: Seq<String>) -> Seq<Seq<char>> {
    v.map_values(|s: String| s@)
}

/// Whether `b` is the bundle of `original` with these relations: the most
/// recent valid replacement, and every reference.
pub open spec fn is_bundle_of(
    b: BundledAggregations,
    original: PduEvent,
    relations: Seq<PduEvent>,
) -> bool {
    let reps = all_replacements(original, relations);
    let refs = all_references(relations);
    &&& (b.replace is None <==> reps.len() == 0)
    &&& (b.replace matches Some(e) ==> e == reps[most_recent_in(reps, reps.len() as int)->0])
    &&& (b.reference is None <==> refs.len() == 0)
    &&& (b.reference matches Some(v) ==> texts(v@) == refs)
}

proof fn lemma_most_recent_in_bounds(events: Seq<PduEvent>, n: int)
    requires
        0 < n,
    ensures
        most_recent_in(events, n) matches Some(k) && 0 <= k < n,
    decreases n,
{
    if n > 1 {
        lemma_most_recent_in_bounds(events, n - 1);
    } else {
        assert(most_recent_in(events, 0) is None);
    }
}

/// Gets the bundled aggregations of `original` from its relations, most recent
/// first as the relation index hands them out: `None` where none of them is a
/// valid replacement or a reference.
pub fn get_bundled_aggregations(original: &PduEvent, relations: Vec<PduEvent>) -> (r: Option<
    BundledAggregations,
>)
    ensures
        r is None <==> (all_replacements(*original, relations@).len() == 0 && all_references(
            relations@,
        ).len() == 0),
        r matches Some(b) ==> is_bundle_of(b, *original, relations@),
{
    let ghost all = considered(relations@);
    let mut rest = relations;
    if rest.len() > MAX_BUNDLED_RELATIONS {
        rest.truncate(MAX_BUNDLED_RELATIONS);
    }
    assert(rest@ =~= all);
    let ghost n = all.len() as int;
    let mut replace_events: Vec<PduEvent> = Vec::new();
    let mut reference_ids: Vec<String> = Vec::new();
    let mut i: usize = 0;
    while rest.len() > 0
        invariant
            i + rest@.len() == n,
            n == all.len(),
            n <= MAX_BUNDLED_RELATIONS,
            rest@ =~= all.subrange(i as int, n),
            replace_events@ == replacements(*original, all, i as int),
            texts(reference_ids@) == references(all, i as int),
        decreases rest@.len(),
    {
        let e = rest.remove(0);
        assert(e == all[i as int]);
        assert(rest@ =~= all.subrange(i + 1, n));
        let is_valid = match is_valid_replacement_event(original, &e) {
            Ok(v) => v,
            Err(_) => false,
        };
        proof {
            lemma_relation_kinds_differ();
        }
        let ghost ev = e;
        if has_relation_type(&e.content, "m.replace") {
            assert(rel_type_of(ev.content) != Some(reference_rel()));
            assert(references(all, i + 1) == references(all, i as int));
            if is_valid {
                replace_events.push(e);
            }
        } else if has_relation_type(&e.content, "m.reference") {
            reference_ids.push(e.event_id);
        }
        assert(texts(reference_ids@) =~= references(all, i + 1));
        assert(replace_events@ =~= replacements(*original, all, i + 1));
        i = i + 1;
    }
    if replace_events.len() == 0 && reference_ids.len() == 0 {
        return None;
    }
    let replace = match find_most_recent_replacement(replace_events.as_slice()) {
        Ok(Some(k)) => {
            proof {
                lemma_most_recent_in_bounds(replace_events@, replace_events@.len() as int);
            }
            Some(replace_events.swap_remove(k))
        },
        _ => None,
    };
    let reference = if reference_ids.len() > 0 {
        Some(reference_ids)
    } else {
        None
    };
    Some(BundledAggregations { replace, reference })
}

proof fn lemma_relation_kinds_differ()
    ensures
        replace_rel() != reference_rel(),
{
    reveal_strlit("m.replace");
    reveal_strlit("m.reference");
    assert(replace_rel().len() != reference_rel().len());
}

proof fn lemma_event_keys_differ()
    ensures
        "event_id"@ != "room_id"@,
        "event_id"@ != "sender"@,
        "event_id"@ != "origin_server_ts"@,
        "event_id"@ != "type"@,
        "event_id"@ != "content"@,
        "event_id"@ != "state_key"@,
        "room_id"@ != "sender"@,
        "room_id"@ != "origin_server_ts"@,
        "room_id"@ != "type"@,
        "room_id"@ != "content"@,
        "room_id"@ != "state_key"@,
        "sender"@ != "origin_server_ts"@,
        "sender"@ != "type"@,
        "sender"@ != "content"@,
        "sender"@ != "state_key"@,
        "origin_server_ts"@ != "type"@,
        "origin_server_ts"@ != "content"@,
        "origin_server_ts"@ != "state_key"@,
        "type"@ != "content"@,
        "type"@ != "state_key"@,
        "content"@ != "state_key"@,
        "event_id"@ != "unsigned"@,
        "room_id"@ != "unsigned"@,
        "sender"@ != "unsigned"@,
        "origin_server_ts"@ != "unsigned"@,
        "type"@ != "unsigned"@,
        "content"@ != "unsigned"@,
        "state_key"@ != "unsigned"@,
{
    reveal_strlit("event_id");
    reveal_strlit("room_id");
    reveal_strlit("sender");
    reveal_strlit("origin_server_ts");
    reveal_strlit("type");
    reveal_strlit("content");
    reveal_strlit("state_key");
    reveal_strlit("unsigned");
    assert("unsigned"@.len() == 8);
    assert("event_id"@[0] != "unsigned"@[0]);
    assert("event_id"@.len() == 8);
    assert("room_id"@.len() == 7);
    assert("sender"@.len() == 6);
    assert("origin_server_ts"@.len() == 16);
    assert("type"@.len() == 4);
    assert("content"@.len() == 7);
    assert("state_key"@.len() == 9);
    assert("room_id"@[0] != "content"@[0]);
}

/// The string member `k` of `v`.
pub open spec fn string_member(v: serde_json::Value, k: Seq<char>) -> Option<Seq<char>> {
    match member(v, k) {
        Some(x) => string_of(x),
        None => None,
    }
}

/// The members of the JSON form of event `e`.
pub open spec fn event_keys(e: PduEvent) -> Set<Seq<char>> {
    let keys = set![
        "event_id"@,
        "room_id"@,
        "sender"@,
        "origin_server_ts"@,
        "type"@,
        "content"@,
    ];
    let keys = if e.state_key is Some {
        keys.insert("state_key"@)
    } else {
        keys
    };
    if parsed_unsigned(e) is Some {
        keys.insert("unsigned"@)
    } else {
        keys
    }
}

/// The entries of an event's unsigned metadata, where it has some that
/// serde_json reads as a map.
pub open spec fn parsed_unsigned(e: PduEvent) -> Option<Map<Seq<char>, serde_json::Value>> {
    match e.unsigned {
        Some(s) => parsed_object(s@),
        None => None,
    }
}

/// Whether `v` is the JSON form of event `e`: an object with exactly its
/// members, each holding the event's field.
pub open spec fn describes_event(v: serde_json::Value, e: PduEvent) -> bool {
    &&& object_entries(v) matches Some(m) && m.dom() == event_keys(e)
    &&& string_member(v, "event_id"@) == Some(e.event_id@)
    &&& string_member(v, "room_id"@) == Some(e.room_id@)
    &&& string_member(v, "sender"@) == Some(e.sender@)
    &&& string_member(v, "type"@) == Some(e.kind@)
    &&& member(v, "origin_server_ts"@) matches Some(t) && uint_of(t) == Some(e.origin_server_ts)
    &&& member(v, "content"@) == Some(e.content)
    &&& (e.state_key matches Some(s) ==> string_member(v, "state_key"@) == Some(s@))
    &&& (parsed_unsigned(e) matches Some(u) ==> (member(v, "unsigned"@) matches Some(x)
        && object_entries(x) == Some(u)))
}

/// Whether `v` is the JSON form of a reference chunk of these identifiers: an
/// object whose one member, `chunk`, is an array of objects whose one member,
/// `event_id`, is the identifier.
pub open spec fn describes_references(v: serde_json::Value, ids: Seq<Seq<char>>) -> bool {
    &&& object_entries(v) matches Some(m) && m.dom() == set!["chunk"@]
    &&& array_of(member(v, "chunk"@)->0) matches Some(items) && items.len() == ids.len() && (
    forall|i: int|
        0 <= i < items.len() ==> (object_entries(#[trigger] items[i]) matches Some(e) && e.dom()
            == set!["event_id"@]) && string_member(items[i], "event_id"@) == Some(ids[i]))
}

/// The members of the JSON form of bundled aggregations `b`.
pub open spec fn bundle_keys(b: BundledAggregations) -> Set<Seq<char>> {
    let keys = if b.replace is Some {
        set![replace_rel()]
    } else {
        Set::empty()
    };
    if b.reference is Some {
        keys.insert(reference_rel())
    } else {
        keys
    }
}

/// Whether `v` is the JSON form of bundled aggregations `b`: an object keyed by
/// relation type, with a member for each aggregation present.
pub open spec fn describes_bundle(v: serde_json::Value, b: BundledAggregations) -> bool {
    &&& object_entries(v) matches Some(m) && m.dom() == bundle_keys(b)
    &&& (b.replace matches Some(e) ==> describes_event(member(v, replace_rel())->0, e))
    &&& (b.reference matches Some(ids) ==> describes_references(member(v, reference_rel())->0, texts(ids@)))
}

/// The JSON form of an event.
pub fn event_to_json(e: PduEvent) -> (r: serde_json::Value)
    ensures
        describes_event(r, e),
{
    proof {
        lemma_event_keys_differ();
    }
    let ghost g = e;
    let mut m = new_object();
    let id = string_value(e.event_id);
    let room = string_value(e.room_id);
    let sender = string_value(e.sender);
    let kind = string_value(e.kind);
    object_insert(&mut m, "event_id".to_owned(), id);
    object_insert(&mut m, "room_id".to_owned(), room);
    object_insert(&mut m, "sender".to_owned(), sender);
    object_insert(&mut m, "origin_server_ts".to_owned(), number_value(e.origin_server_ts));
    object_insert(&mut m, "type".to_owned(), kind);
    object_insert(&mut m, "content".to_owned(), e.content);
    match e.state_key {
        Some(s) => {
            object_insert(&mut m, "state_key".to_owned(), string_value(s));
        },
        None => {},
    }
    match e.unsigned {
        Some(text) => match parse_object(text.as_str()) {
            Ok(u) => {
                object_insert(&mut m, "unsigned".to_owned(), object_value(u));
            },
            Err(_) => {},
        },
        None => {},
    }
    assert(entries(m).dom() =~= event_keys(g));
    object_value(m)
}

/// The JSON form of a reference chunk.
pub fn references_to_json(ids: &Vec<String>) -> (r: serde_json::Value)
    ensures
        describes_references(r, texts(ids@)),
{
    let mut items: Vec<serde_json::Value> = Vec::new();
    let mut i: usize = 0;
    while i < ids.len()
        invariant
            i <= ids@.len(),
            items@.len() == i,
            forall|j: int|
                0 <= j < i ==> (object_entries(#[trigger] items@[j]) matches Some(e) && e.dom()
                    == set!["event_id"@]) && string_member(items@[j], "event_id"@) == Some(ids@[j]@),
        decreases ids@.len() - i,
    {
        let mut entry = new_object();
        object_insert(&mut entry, "event_id".to_owned(), string_value(ids[i].clone()));
        assert(entries(entry).dom() =~= set!["event_id"@]);
        items.push(object_value(entry));
        i = i + 1;
    }
    let mut chunk = new_object();
    object_insert(&mut chunk, "chunk".to_owned(), array_value(items));
    assert(entries(chunk).dom() =~= set!["chunk"@]);
    object_value(chunk)
}

/// The JSON form of bundled aggregations, keyed by relation type.
pub fn aggregations_to_json(b: BundledAggregations) -> (r: serde_json::Value)
    ensures
        describes_bundle(r, b),
{
    proof {
        lemma_relation_kinds_differ();
    }
    let ghost gb = b;
    let mut m = new_object();
    match b.replace {
        Some(e) => {
            object_insert(&mut m, "m.replace".to_owned(), event_to_json(e));
        },
        None => {},
    }
    match b.reference {
        Some(ids) => {
            object_insert(&mut m, "m.reference".to_owned(), references_to_json(&ids));
        },
        None => {},
    }
    assert(entries(m).dom() =~= bundle_keys(gb));
    object_value(m)
}

/// Adds the bundled aggregations of an event, computed from its relations, to
/// its unsigned metadata. A redacted event, and one with nothing to bundle,
/// stays as it is.
pub fn add_bundled_aggregations_to_pdu(pdu: &mut PduEvent, relations: Vec<PduEvent>) -> (r: Result<
    (),
    BundleError,
>)
    ensures
        old(pdu).redacted ==> r is Ok && *final(pdu) == *old(pdu),
        !old(pdu).redacted && all_replacements(*old(pdu), relations@).len() == 0
            && all_references(relations@).len() == 0 ==> r is Ok && *final(pdu) == *old(pdu),
        !old(pdu).redacted && !(all_replacements(*old(pdu), relations@).len() == 0
            && all_references(relations@).len() == 0) ==> exists|
            b: BundledAggregations,
            a: serde_json::Value,
        |
            #![trigger is_bundle_of(b, *old(pdu), relations@), merge_outcome(*old(pdu), a, *final(pdu), r)]
            is_bundle_of(b, *old(pdu), relations@) && describes_bundle(a, b) && merge_outcome(
                *old(pdu),
                a,
                *final(pdu),
                r,
            ),
{
    if pdu.redacted {
        return Ok(());
    }
    let ghost rels = relations@;
    let ghost before = *pdu;
    match get_bundled_aggregations(pdu, relations) {
        Some(b) => {
            let ghost gb = b;
            let aggregations_json = aggregations_to_json(b);
            let r = add_bundled_aggregations_to_unsigned(pdu, aggregations_json);
            assert(is_bundle_of(gb, before, rels) && describes_bundle(aggregations_json, gb)
                && merge_outcome(before, aggregations_json, *pdu, r));
            r
        },
        None => Ok(()),
    }
}

proof fn lemma_replacements_count(original: PduEvent, rels: Seq<PduEvent>, n: int)
    requires
        0 <= n <= rels.len(),
    ensures
        forall|i: int|
            0 <= i < replacements(original, rels, n).len() ==> counts_as_replacement(
                original,
                #[trigger] replacements(original, rels, n)[i],
            ) && rels.subrange(0, n).contains(replacements(original, rels, n)[i]),
    decreases n,
{
    if n > 0 {
        lemma_replacements_count(original, rels, n - 1);
        let prev = replacements(original, rels, n - 1);
        let cur = replacements(original, rels, n);
        assert forall|i: int| 0 <= i < cur.len() implies counts_as_replacement(
            original,
            #[trigger] cur[i],
        ) && rels.subrange(0, n).contains(cur[i]) by {
            if i < prev.len() {
                assert(cur[i] == prev[i]);
                let k = choose|k: int| 0 <= k < n - 1 && #[trigger] rels.subrange(0, n - 1)[k] == prev[i];
                assert(rels.subrange(0, n)[k] == prev[i]);
            } else {
                assert(rels.subrange(0, n)[n - 1] == cur[i]);
            }
        }
    }
}

/// The replacement that a bundle holds is a valid replacement of the original
/// that declares a replacement relation, and one of the relations looked at:
/// a candidate that fails a rule of validity is never chosen, however recent.
pub proof fn lemma_bundled_replacement_is_valid(
    b: BundledAggregations,
    original: PduEvent,
    relations: Seq<PduEvent>,
)
    requires
        is_bundle_of(b, original, relations),
    ensures
        b.replace matches Some(e) ==> is_valid_replacement(original, e) && rel_type_of(e.content)
            == Some(replace_rel()) && considered(relations).contains(e),
{
    let rels = considered(relations);
    let reps = all_replacements(original, relations);
    if b.replace is Some {
        lemma_replacements_count(original, rels, rels.len() as int);
        lemma_most_recent_in_bounds(reps, reps.len() as int);
        let k = most_recent_in(reps, reps.len() as int)->0;
        assert(counts_as_replacement(original, reps[k]));
        assert(rels.subrange(0, rels.len() as int) =~= rels);
    }
}

/// Of two valid replacements, the bundle holds the one with the later
/// timestamp; at equal timestamps, the one with the greater identifier.
pub proof fn lemma_bundled_replacement_order(
    b: BundledAggregations,
    original: PduEvent,
    x: PduEvent,
    y: PduEvent,
)
    requires
        counts_as_replacement(original, x),
        counts_as_replacement(original, y),
        is_bundle_of(b, original, seq![x, y]),
    ensures
        x.origin_server_ts > y.origin_server_ts ==> b.replace == Some(x),
        y.origin_server_ts > x.origin_server_ts ==> b.replace == Some(y),
        x.origin_server_ts == y.origin_server_ts && text_after(y.event_id@, x.event_id@)
            ==> b.replace == Some(y),
        x.origin_server_ts == y.origin_server_ts && text_after(x.event_id@, y.event_id@)
            ==> b.replace == Some(x),
{
    let rels = seq![x, y];
    assert(considered(rels) == rels);
    let reps = all_replacements(original, rels);
    assert(replacements(original, rels, 0) =~= Seq::<PduEvent>::empty());
    assert(replacements(original, rels, 1) =~= seq![x]);
    assert(reps =~= seq![x, y]);
    assert(most_recent_in(reps, 0) is None);
    assert(most_recent_in(reps, 1) == Some(0int));
    lemma_text_after_asymmetric(encode_utf8(x.event_id@), encode_utf8(y.event_id@));
}


/// Every reference among the relations looked at appears in the bundle, one
/// identifier each: a set of `n` references gives `n` identifiers.
pub proof fn lemma_bundled_references(
    b: BundledAggregations,
    original: PduEvent,
    relations: Seq<PduEvent>,
)
    requires
        is_bundle_of(b, original, relations),
        0 < relations.len() <= MAX_BUNDLED_RELATIONS,
        forall|i: int|
            0 <= i < relations.len() ==> rel_type_of(#[trigger] relations[i].content) == Some(
                reference_rel(),
            ),
    ensures
        b.reference matches Some(ids) && ids@.len() == relations.len() && forall|i: int|
            0 <= i < relations.len() ==> #[trigger] texts(ids@)[i] == relations[i].event_id@,
{
    lemma_references_all(relations, relations.len() as int);
}

proof fn lemma_references_all(rels: Seq<PduEvent>, n: int)
    requires
        0 <= n <= rels.len(),
        forall|i: int|
            0 <= i < rels.len() ==> rel_type_of(#[trigger] rels[i].content) == Some(reference_rel()),
    ensures
        references(rels, n) == rels.subrange(0, n).map_values(|e: PduEvent| e.event_id@),
    decreases n,
{
    if n > 0 {
        lemma_references_all(rels, n - 1);
        assert(rels.subrange(0, n).map_values(|e: PduEvent| e.event_id@) =~= rels.subrange(
            0,
            n - 1,
        ).map_values(|e: PduEvent| e.event_id@).push(rels[n - 1].event_id@));
    } else {
        assert(rels.subrange(0, 0).map_values(|e: PduEvent| e.event_id@) =~= Seq::<Seq<char>>::empty());
    }
}

/// Only the first relations, up to the cap, count: two lists of relations that
/// agree on those give the same bundles.
pub proof fn lemma_only_first_relations_count(
    b: BundledAggregations,
    original: PduEvent,
    relations: Seq<PduEvent>,
    other: Seq<PduEvent>,
)
    requires
        relations.len() > MAX_BUNDLED_RELATIONS,
        other.len() >= MAX_BUNDLED_RELATIONS,
        relations.take(MAX_BUNDLED_RELATIONS as int) == other.take(MAX_BUNDLED_RELATIONS as int),
    ensures
        is_bundle_of(b, original, relations) <==> is_bundle_of(b, original, other),
{
    assert(considered(relations) == considered(other));
}

proof fn lemma_more_recent_asymmetric(a: PduEvent, b: PduEvent)
    ensures
        more_recent(a, b) ==> !more_recent(b, a),
{
    lemma_text_after_asymmetric(encode_utf8(a.event_id@), encode_utf8(b.event_id@));
}

proof fn lemma_most_recent_finds(events: Seq<PduEvent>, n: int, e: PduEvent)
    requires
        0 < n <= events.len(),
        exists|i: int| 0 <= i < n && events[i] == e,
        forall|j: int| 0 <= j < n && events[j] != e ==> more_recent(e, #[trigger] events[j]),
    ensures
        most_recent_in(events, n) matches Some(k) && events[k] == e,
    decreases n,
{
    lemma_most_recent_in_bounds(events, n);
    let last = events[n - 1];
    if exists|i: int| 0 <= i < n - 1 && events[i] == e {
        lemma_most_recent_finds(events, n - 1, e);
        let k = most_recent_in(events, n - 1)->0;
        if last != e {
            lemma_more_recent_asymmetric(e, last);
        }
    } else {
        assert(last == e);
        if n > 1 {
            lemma_most_recent_in_bounds(events, n - 1);
            let k = most_recent_in(events, n - 1)->0;
            assert(events[k] != e);
        }
    }
}

proof fn lemma_replacements_include(original: PduEvent, rels: Seq<PduEvent>, n: int, i: int)
    requires
        0 <= i < n <= rels.len(),
        counts_as_replacement(original, rels[i]),
    ensures
        replacements(original, rels, n).contains(rels[i]),
    decreases n,
{
    if i < n - 1 {
        lemma_replacements_include(original, rels, n - 1, i);
        let prev = replacements(original, rels, n - 1);
        let k = choose|k: int| 0 <= k < prev.len() && prev[k] == rels[i];
        assert(replacements(original, rels, n)[k] == rels[i]);
    } else {
        let cur = replacements(original, rels, n);
        assert(cur[cur.len() - 1] == rels[i]);
    }
}

/// A valid replacement among the relations looked at that is more recent than
/// every other one is the bundled replacement, wherever it stands among them.
pub proof fn lemma_most_recent_replacement_is_bundled(
    b: BundledAggregations,
    original: PduEvent,
    relations: Seq<PduEvent>,
    e: PduEvent,
)
    requires
        is_bundle_of(b, original, relations),
        considered(relations).contains(e),
        counts_as_replacement(original, e),
        forall|x: PduEvent|
            #![trigger considered(relations).contains(x), counts_as_replacement(original, x)]
            considered(relations).contains(x) && counts_as_replacement(original, x) && x != e
                ==> more_recent(e, x),
    ensures
        b.replace == Some(e),
{
    let rels = considered(relations);
    let reps = all_replacements(original, relations);
    let i = choose|i: int| 0 <= i < rels.len() && rels[i] == e;
    lemma_replacements_include(original, rels, rels.len() as int, i);
    lemma_replacements_count(original, rels, rels.len() as int);
    assert(rels.subrange(0, rels.len() as int) =~= rels);
    assert forall|j: int| 0 <= j < reps.len() && reps[j] != e implies more_recent(
        e,
        #[trigger] reps[j],
    ) by {
        assert(counts_as_replacement(original, reps[j]));
        assert(rels.contains(reps[j]));
    }
    lemma_most_recent_finds(reps, reps.len() as int, e);
}

proof fn lemma_references_include(rels: Seq<PduEvent>, n: int, i: int)
    requires
        0 <= i < n <= rels.len(),
        rel_type_of(rels[i].content) == Some(reference_rel()),
    ensures
        references(rels, n).contains(rels[i].event_id@),
    decreases n,
{
    if i < n - 1 {
        lemma_references_include(rels, n - 1, i);
        let prev = references(rels, n - 1);
        let k = choose|k: int| 0 <= k < prev.len() && prev[k] == rels[i].event_id@;
        assert(references(rels, n)[k] == rels[i].event_id@);
    } else {
        let cur = references(rels, n);
        assert(cur[cur.len() - 1] == rels[i].event_id@);
    }
}

/// Every reference among the relations looked at has its identifier in the
/// bundle, wherever it stands among them.
pub proof fn lemma_reference_is_bundled(
    b: BundledAggregations,
    original: PduEvent,
    relations: Seq<PduEvent>,
    c: PduEvent,
)
    requires
        is_bundle_of(b, original, relations),
        considered(relations).contains(c),
        rel_type_of(c.content) == Some(reference_rel()),
    ensures
        b.reference matches Some(ids) && texts(ids@).contains(c.event_id@),
{
    let rels = considered(relations);
    let i = choose|i: int| 0 <= i < rels.len() && rels[i] == c;
    lemma_references_include(rels, rels.len() as int, i);
}

/// Whether an event declares a reference relation.
pub open spec fn is_reference(e: PduEvent) -> bool {
    rel_type_of(e.content) == Some(reference_rel())
}

/// The identifiers of the references among `rels`, in order.
pub open spec fn reference_ids(rels: Seq<PduEvent>) -> Seq<Seq<char>> {
    rels.filter(|e: PduEvent| is_reference(e)).map_values(|e: PduEvent| e.event_id@)
}

proof fn lemma_references_are_reference_ids(rels: Seq<PduEvent>, n: int)
    requires
        0 <= n <= rels.len(),
    ensures
        references(rels, n) == reference_ids(rels.take(n)),
    decreases n,
{
    reveal(Seq::filter);
    if n > 0 {
        lemma_references_are_reference_ids(rels, n - 1);
        let t = rels.take(n);
        assert(t.drop_last() =~= rels.take(n - 1));
        assert(t.last() == rels[n - 1]);
        let sub = rels.take(n - 1).filter(|e: PduEvent| is_reference(e));
        if is_reference(rels[n - 1]) {
            assert(t.filter(|e: PduEvent| is_reference(e)) == sub.push(rels[n - 1]));
            assert(reference_ids(t) =~= reference_ids(rels.take(n - 1)).push(rels[n - 1].event_id@));
        } else {
            assert(t.filter(|e: PduEvent| is_reference(e)) == sub);
        }
    } else {
        assert(rels.take(0) =~= Seq::<PduEvent>::empty());
        assert(reference_ids(rels.take(0)) =~= Seq::<Seq<char>>::empty());
    }
}

/// The bundle holds the identifier of every reference among the relations
/// looked at, once each and of nothing else: `n` references give `n`
/// identifiers, whatever other relations stand among them.
pub proof fn lemma_bundled_reference_ids(
    b: BundledAggregations,
    original: PduEvent,
    relations: Seq<PduEvent>,
)
    requires
        is_bundle_of(b, original, relations),
    ensures
        b.reference is None <==> reference_ids(considered(relations)).len() == 0,
        b.reference matches Some(ids) ==> texts(ids@) == reference_ids(considered(relations)),
{
    let rels = considered(relations);
    lemma_references_are_reference_ids(rels, rels.len() as int);
    assert(rels.take(rels.len() as int) =~= rels);
}

} // verus!
