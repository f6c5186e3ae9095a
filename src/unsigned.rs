//! Merging bundled aggregations into an event's unsigned metadata.
use vstd::prelude::*;
use crate::event::PduEvent;
use crate::json::{
    JsonObject, entries, into_object, new_object, object_entries, object_insert, object_pairs,
    object_remove, object_text, object_to_text, object_value, parse_object, parsed_object,
};
use crate::event::BundleError;

verus! {

/// The key of the unsigned metadata under which relation aggregations stand.
pub open spec fn relations_key() -> Seq<char> {
    "m.relations"@
}

/// The entries of an aggregations value: those of an object, none for any other
/// value.
pub open spec fn aggregation_entries(a: serde_json::Value) -> Map<Seq<char>, serde_json::Value> {
    match object_entries(a) {
        Some(m) => m,
        None => Map::empty(),
    }
}

/// The relation entries that unsigned metadata holds already: none where it has
/// no relation entry, `None` where that entry is not an object.
pub open spec fn existing_relations(u: Map<Seq<char>, serde_json::Value>) -> Option<
    Map<Seq<char>, serde_json::Value>,
> {
    if u.contains_key(relations_key()) {
        object_entries(u[relations_key()])
    } else {
        Some(Map::empty())
    }
}

/// Whether `n` is the unsigned metadata `u` with the aggregations `a` merged in:
/// every key but the relation entry as it was, and in the relation entry each
/// relation type of `a` set to its aggregation, the others as they were.
pub open spec fn merged_into(
    u: Map<Seq<char>, serde_json::Value>,
    a: serde_json::Value,
    n: Map<Seq<char>, serde_json::Value>,
) -> bool {
    &&& existing_relations(u) is Some
    &&& n.remove(relations_key()) == u.remove(relations_key())
    &&& n.contains_key(relations_key())
    &&& object_entries(n[relations_key()]) == Some(
        existing_relations(u)->0.union_prefer_right(aggregation_entries(a)),
    )
}

/// The map that the pairs from position `n` on make.
pub open spec fn pairs_from(pairs: Seq<(String, serde_json::Value)>, n: int) -> Map<
    Seq<char>,
    serde_json::Value,
>
    decreases pairs.len() - n,
{
    if n < 0 || n >= pairs.len() {
        Map::empty()
    } else {
        pairs_from(pairs, n + 1).insert(pairs[n].0@, pairs[n].1)
    }
}

proof fn lemma_pairs_from(pairs: Seq<(String, serde_json::Value)>, n: int)
    requires
        0 <= n <= pairs.len(),
        forall|i: int, j: int| 0 <= i < j < pairs.len() ==> pairs[i].0@ != pairs[j].0@,
    ensures
        forall|k: Seq<char>|
            pairs_from(pairs, n).contains_key(k) <==> exists|i: int|
                n <= i < pairs.len() && #[trigger] pairs[i].0@ == k,
        forall|i: int| n <= i < pairs.len() ==> pairs_from(pairs, n)[#[trigger] pairs[i].0@] == pairs[i].1,
    decreases pairs.len() - n,
{
    if n < pairs.len() {
        lemma_pairs_from(pairs, n + 1);
        assert(pairs_from(pairs, n) == pairs_from(pairs, n + 1).insert(pairs[n].0@, pairs[n].1));
        assert forall|k: Seq<char>|
            pairs_from(pairs, n).contains_key(k) implies exists|i: int|
                n <= i < pairs.len() && #[trigger] pairs[i].0@ == k by {
            if k == pairs[n].0@ {
                assert(pairs[n].0@ == k);
            } else {
                let i = choose|i: int| n + 1 <= i < pairs.len() && #[trigger] pairs[i].0@ == k;
                assert(pairs[i].0@ == k);
            }
        }
    }
}

/// Merges aggregations, an object from relation type to aggregation, into
/// unsigned metadata.
pub fn merge_relations(unsigned: JsonObject, aggregations: serde_json::Value) -> (r: Result<
    JsonObject,
    BundleError,
>)
    ensures
        r is Err <==> existing_relations(entries(unsigned)) is None,
        r is Err ==> r == Err::<JsonObject, BundleError>(BundleError::RelationsNotObject),
        r matches Ok(n) ==> merged_into(entries(unsigned), aggregations, entries(n)),
{
    let ghost u = entries(unsigned);
    let mut unsigned = unsigned;
    let existing = object_remove(&mut unsigned, "m.relations");
    let mut relations = match existing {
        None => new_object(),
        Some(v) => match into_object(v) {
            Some(m) => m,
            None => {
                return Err(BundleError::RelationsNotObject);
            },
        },
    };
    let ghost rel0 = entries(relations);
    assert(rel0 == existing_relations(u)->0);
    let ghost agg = aggregation_entries(aggregations);
    match into_object(aggregations) {
        Some(agg_map) => {
            let mut pairs = object_pairs(agg_map);
            let ghost p = pairs@;
            proof {
                lemma_pairs_from(p, 0);
                assert(pairs_from(p, 0) =~= agg);
            }
            assert(rel0.union_prefer_right(pairs_from(p, p.len() as int)) =~= rel0);
            assert(pairs@ =~= p.take(p.len() as int));
            while pairs.len() > 0
                invariant
                    pairs@.len() <= p.len(),
                    pairs@ =~= p.take(pairs@.len() as int),
                    entries(relations) == rel0.union_prefer_right(pairs_from(p, pairs@.len() as int)),
                decreases pairs@.len(),
            {
                let ghost k0 = pairs@.len() - 1;
                let (k, v) = pairs.pop().unwrap();
                assert(pairs@ =~= p.take(k0));
                object_insert(&mut relations, k, v);
                assert(entries(relations) =~= rel0.union_prefer_right(pairs_from(p, k0)));
            }
        },
        None => {
            assert(rel0.union_prefer_right(agg) =~= rel0);
        },
    }
    let ghost merged = entries(relations);
    let rel_value = object_value(relations);
    object_insert(&mut unsigned, "m.relations".to_owned(), rel_value);
    assert(entries(unsigned).remove(relations_key()) =~= u.remove(relations_key()));
    Ok(unsigned)
}

/// Merging leaves every key of the unsigned metadata but the relation entry as
/// it was, and in the relation entry every relation type that the
/// aggregations do not name.
pub proof fn lemma_merge_preserves_unrelated(
    u: Map<Seq<char>, serde_json::Value>,
    a: serde_json::Value,
    n: Map<Seq<char>, serde_json::Value>,
)
    requires
        merged_into(u, a, n),
    ensures
        forall|k: Seq<char>|
            k != relations_key() ==> (#[trigger] n.contains_key(k) <==> u.contains_key(k)),
        forall|k: Seq<char>|
            k != relations_key() && u.contains_key(k) ==> #[trigger] n[k] == u[k],
        forall|t: Seq<char>|
            #![trigger existing_relations(u)->0.contains_key(t)]
            existing_relations(u)->0.contains_key(t) && !aggregation_entries(a).contains_key(t)
                ==> object_entries(n[relations_key()])->0.contains_key(t)
                && object_entries(n[relations_key()])->0[t] == existing_relations(u)->0[t],
{
    assert forall|k: Seq<char>| k != relations_key() implies (#[trigger] n.contains_key(k) <==> u.contains_key(k)) by {
        assert(n.remove(relations_key()).contains_key(k) == n.contains_key(k));
        assert(u.remove(relations_key()).contains_key(k) == u.contains_key(k));
    }
    assert forall|k: Seq<char>| k != relations_key() && u.contains_key(k) implies #[trigger] n[k] == u[k] by {
        assert(n.remove(relations_key())[k] == n[k]);
        assert(u.remove(relations_key())[k] == u[k]);
    }
}

/// Merging the same aggregations a second time changes nothing more: the
/// result has the same keys, the same values outside the relation entry, and
/// the same relation entries.
pub proof fn lemma_merge_idempotent(
    u: Map<Seq<char>, serde_json::Value>,
    a: serde_json::Value,
    once: Map<Seq<char>, serde_json::Value>,
    twice: Map<Seq<char>, serde_json::Value>,
)
    requires
        merged_into(u, a, once),
        merged_into(once, a, twice),
    ensures
        twice.dom() == once.dom(),
        twice.remove(relations_key()) == once.remove(relations_key()),
        object_entries(twice[relations_key()]) == object_entries(once[relations_key()]),
{
    let rel = existing_relations(u)->0;
    let agg = aggregation_entries(a);
    assert(existing_relations(once) == Some(rel.union_prefer_right(agg)));
    assert(rel.union_prefer_right(agg).union_prefer_right(agg) =~= rel.union_prefer_right(agg));
    assert(twice.dom() =~= once.dom()) by {
        assert forall|k: Seq<char>| twice.dom().contains(k) <==> once.dom().contains(k) by {
            if k != relations_key() {
                assert(twice.remove(relations_key()).contains_key(k) == twice.contains_key(k));
                assert(once.remove(relations_key()).contains_key(k) == once.contains_key(k));
            }
        }
    }
}

/// The entries of unsigned metadata held as text: none where there is no
/// text, `None` where serde_json reads no map from the text (it reads `null`
/// as an empty one).
pub open spec fn unsigned_entries(u: Option<String>) -> Option<Map<Seq<char>, serde_json::Value>> {
    match u {
        None => Some(Map::empty()),
        Some(s) => parsed_object(s@),
    }
}

/// Whether `new`, with result `r`, is what merging aggregations `a` into the
/// unsigned metadata of `old` gives: an error where the metadata is no object
/// or its relation entry no object, and then no change; else the merged
/// metadata, written out as text.
pub open spec fn merge_outcome(
    old: PduEvent,
    a: serde_json::Value,
    new: PduEvent,
    r: Result<(), BundleError>,
) -> bool {
    &&& unsigned_entries(old.unsigned) is None ==> r == Err::<(), BundleError>(
        BundleError::InvalidUnsigned,
    )
    &&& unsigned_entries(old.unsigned) matches Some(u) ==> {
        &&& existing_relations(u) is None ==> r == Err::<(), BundleError>(
            BundleError::RelationsNotObject,
        )
        &&& existing_relations(u) is Some ==> r is Ok
    }
    &&& r is Err ==> new == old
    &&& r is Ok ==> new.unsigned is Some && exists|n: Map<Seq<char>, serde_json::Value>|
        merged_into(unsigned_entries(old.unsigned)->0, a, n) && #[trigger] object_text(n)
            == new.unsigned->0@
    &&& new.event_id == old.event_id
    &&& new.room_id == old.room_id
    &&& new.sender == old.sender
    &&& new.origin_server_ts == old.origin_server_ts
    &&& new.kind == old.kind
    &&& new.content == old.content
    &&& new.state_key == old.state_key
    &&& new.redacted == old.redacted
}

/// Adds bundled aggregations to an event's unsigned metadata, keeping what is
/// there besides.
pub fn add_bundled_aggregations_to_unsigned(
    pdu: &mut PduEvent,
    aggregations_json: serde_json::Value,
) -> (r: Result<(), BundleError>)
    ensures
        merge_outcome(*old(pdu), aggregations_json, *final(pdu), r),
{
    let unsigned = match &pdu.unsigned {
        None => new_object(),
        Some(s) => match parse_object(s.as_str()) {
            Ok(m) => m,
            Err(_) => {
                return Err(BundleError::InvalidUnsigned);
            },
        },
    };
    let merged = match merge_relations(unsigned, aggregations_json) {
        Ok(m) => m,
        Err(e) => {
            return Err(e);
        },
    };
    match object_to_text(&merged) {
        Ok(text) => {
            pdu.unsigned = Some(text);
            Ok(())
        },
        Err(_) => vstd::pervasive::unreached(),
    }
}

} // verus!
