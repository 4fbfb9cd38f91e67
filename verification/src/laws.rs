//! The laws the adapter obeys, stated once over the spec functions its
//! contracts use and proved for every input.

use crate::entity::Entity;
use crate::model::{
    distinct_keys, key_count, lemma_key_count_upsert, lemma_lookup_remove_same,
    lemma_lookup_upsert_same, lemma_remove_absent, lemma_upsert_distinct, lookup, remove_key,
    upsert, Row,
};
use vstd::prelude::*;

verus! {

/// Round trip: after an upsert of an encodable entity, the lookup of its key
/// finds its encoding, and the encoding decodes back to the entity itself.
/// With `save` and `find_by_id`'s contracts this pins the read-back value.
pub proof fn lemma_save_round_trip<E: Entity>(t: Seq<Row>, e: E)
    requires
        e.encodable(),
    ensures
        lookup(upsert(t, e.id_spec(), e.enc_spec()), e.id_spec()) == Some(e.enc_spec()),
        E::dec_spec(e.enc_spec()) == Some(e),
{
    lemma_lookup_upsert_same(t, e.id_spec(), e.enc_spec());
    e.lemma_round_trip();
}

/// Upsert idempotence: two upserts under one key leave exactly one row for
/// that key, and it holds the later value.
pub proof fn lemma_upsert_idempotent(t: Seq<Row>, k: Seq<char>, v1: Seq<char>, v2: Seq<char>)
    requires
        distinct_keys(t),
    ensures
        key_count(upsert(upsert(t, k, v1), k, v2), k) == 1,
        lookup(upsert(upsert(t, k, v1), k, v2), k) == Some(v2),
{
    lemma_upsert_distinct(t, k, v1);
    lemma_key_count_upsert(upsert(t, k, v1), k, v2);
    lemma_lookup_upsert_same(upsert(t, k, v1), k, v2);
}

/// A freshly created store misses every key: with `find_by_id`'s contract,
/// any lookup on it is `NotFound` carrying the stringified identifier.
pub proof fn lemma_empty_lookup(k: Seq<char>)
    ensures
        lookup(Seq::<Row>::empty(), k) is None,
{
}

/// Delete removes the row: removing a key just upserted makes its lookup
/// miss, whatever the table held before.
pub proof fn lemma_delete_removes(t: Seq<Row>, k: Seq<char>, v: Seq<char>)
    ensures
        lookup(remove_key(upsert(t, k, v), k), k) is None,
{
    lemma_lookup_remove_same(upsert(t, k, v), k);
}

/// Delete is idempotent by identifier: removing an absent key changes
/// nothing, and `remove_by_id`'s contract reports success all the same.
pub proof fn lemma_delete_absent(t: Seq<Row>, k: Seq<char>)
    requires
        lookup(t, k) is None,
    ensures
        remove_key(t, k) == t,
{
    lemma_remove_absent(t, k);
}

} // verus!
