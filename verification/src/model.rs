//! The mathematical model of the store: an ordered sequence of `(key, value)`
//! rows with pairwise-distinct keys, and the operations the adapter performs
//! on it — lookup, insert-or-replace, removal, and a pagination window.

use vstd::prelude::*;

verus! {

/// A persisted row: the stringified identifier and the encoded entity body.
pub type Row = (Seq<char>, Seq<char>);

/// No two rows share a key.
pub open spec fn distinct_keys(t: Seq<Row>) -> bool {
    forall|i: int, j: int|
        0 <= i < j < t.len() ==> (#[trigger] t[i]).0 != (#[trigger] t[j]).0
}

/// The value stored under `k`, if any: the first row with that key decides.
pub open spec fn lookup(t: Seq<Row>, k: Seq<char>) -> Option<Seq<char>>
    decreases t.len(),
{
    if t.len() == 0 {
        None
    } else if t[0].0 == k {
        Some(t[0].1)
    } else {
        lookup(t.drop_first(), k)
    }
}

/// Insert-or-replace: a present key keeps its row position and takes the new
/// value; an absent key is appended at the end.
pub open spec fn upsert(t: Seq<Row>, k: Seq<char>, v: Seq<char>) -> Seq<Row>
    decreases t.len(),
{
    if t.len() == 0 {
        seq![(k, v)]
    } else if t[0].0 == k {
        seq![(k, v)] + t.drop_first()
    } else {
        seq![t[0]] + upsert(t.drop_first(), k, v)
    }
}

/// Removes every row whose key is `k`, keeping the order of the rest.
pub open spec fn remove_key(t: Seq<Row>, k: Seq<char>) -> Seq<Row>
    decreases t.len(),
{
    if t.len() == 0 {
        t
    } else if t[0].0 == k {
        remove_key(t.drop_first(), k)
    } else {
        seq![t[0]] + remove_key(t.drop_first(), k)
    }
}

/// How many rows carry the key `k`.
pub open spec fn key_count(t: Seq<Row>, k: Seq<char>) -> nat
    decreases t.len(),
{
    if t.len() == 0 {
        0
    } else {
        (if t[0].0 == k {
            1nat
        } else {
            0nat
        }) + key_count(t.drop_first(), k)
    }
}

/// Some row of `t` carries the key `k`.
pub open spec fn has_key(t: Seq<Row>, k: Seq<char>) -> bool {
    exists|i: int| 0 <= i < t.len() && (#[trigger] t[i]).0 == k
}

/// Text free of NUL bytes: the only text the engine's read path hands back
/// unshortened, so the only text the adapter stores as a value.
pub open spec fn nul_free(s: Seq<char>) -> bool {
    forall|i: int| 0 <= i < s.len() ==> (#[trigger] s[i]) != '\0'
}

/// Every value of the table is free of NUL bytes.
pub open spec fn values_nul_free(t: Seq<Row>) -> bool {
    forall|i: int| 0 <= i < t.len() ==> nul_free((#[trigger] t[i]).1)
}

/// The stored values in row order.
pub open spec fn values_of(t: Seq<Row>) -> Seq<Seq<char>> {
    t.map_values(|r: Row| r.1)
}

/// The rows of the window `[offset, offset+size)`, clipped to the table: the
/// engine skips the first `offset` rows and yields up to `size` further ones.
pub open spec fn window(t: Seq<Row>, offset: int, size: int) -> Seq<Row>
    recommends
        0 <= offset,
        0 <= size,
{
    let lo = if offset <= t.len() {
        offset
    } else {
        t.len() as int
    };
    let hi = if offset + size <= t.len() {
        offset + size
    } else {
        t.len() as int
    };
    t.subrange(lo, hi)
}

/// Looking up the key just upserted finds the new value.
pub proof fn lemma_lookup_upsert_same(t: Seq<Row>, k: Seq<char>, v: Seq<char>)
    ensures
        lookup(upsert(t, k, v), k) == Some(v),
    decreases t.len(),
{
    if t.len() == 0 {
        assert(upsert(t, k, v) == seq![(k, v)]);
    } else if t[0].0 == k {
        let u = seq![(k, v)] + t.drop_first();
        assert(u[0] == (k, v));
    } else {
        lemma_lookup_upsert_same(t.drop_first(), k, v);
        let u = seq![t[0]] + upsert(t.drop_first(), k, v);
        assert(u[0] == t[0]);
        assert(u.drop_first() =~= upsert(t.drop_first(), k, v));
    }
}

/// A key carried by the result of an upsert is the upserted key or one of `t`.
pub proof fn lemma_upsert_keys(t: Seq<Row>, k: Seq<char>, v: Seq<char>, k2: Seq<char>)
    requires
        has_key(upsert(t, k, v), k2),
    ensures
        k2 == k || has_key(t, k2),
    decreases t.len(),
{
    if t.len() == 0 {
        let u = seq![(k, v)];
        let i = choose|i: int| 0 <= i < u.len() && (#[trigger] u[i]).0 == k2;
        assert(u[i] == (k, v));
    } else if t[0].0 == k {
        let u = seq![(k, v)] + t.drop_first();
        let i = choose|i: int| 0 <= i < u.len() && (#[trigger] u[i]).0 == k2;
        if i == 0 {
            assert(u[0] == (k, v));
        } else {
            assert(u[i] == t.drop_first()[i - 1]);
            assert(t[i] == t.drop_first()[i - 1]);
            assert(t[i].0 == k2);
        }
    } else {
        let u = seq![t[0]] + upsert(t.drop_first(), k, v);
        let i = choose|i: int| 0 <= i < u.len() && (#[trigger] u[i]).0 == k2;
        if i == 0 {
            assert(t[0].0 == k2);
        } else {
            assert(u[i] == upsert(t.drop_first(), k, v)[i - 1]);
            assert(has_key(upsert(t.drop_first(), k, v), k2));
            lemma_upsert_keys(t.drop_first(), k, v, k2);
            if has_key(t.drop_first(), k2) {
                let j = choose|j: int|
                    0 <= j < t.drop_first().len() && (#[trigger] t.drop_first()[j]).0 == k2;
                assert(t[j + 1].0 == k2);
            }
        }
    }
}

/// Upsert preserves key distinctness.
pub proof fn lemma_upsert_distinct(t: Seq<Row>, k: Seq<char>, v: Seq<char>)
    requires
        distinct_keys(t),
    ensures
        distinct_keys(upsert(t, k, v)),
    decreases t.len(),
{
    if t.len() == 0 {
    } else if t[0].0 == k {
        let u = seq![(k, v)] + t.drop_first();
        assert forall|i: int, j: int| 0 <= i < j < u.len() implies (#[trigger] u[i]).0 != (
        #[trigger] u[j]).0 by {
            if i == 0 {
                assert(u[j] == t.drop_first()[j - 1]);
                assert(t[j].0 != t[0].0);
            } else {
                assert(u[i] == t[i]);
                assert(u[j] == t[j]);
            }
        }
    } else {
        assert(distinct_keys(t.drop_first())) by {
            assert forall|i: int, j: int|
                0 <= i < j < t.drop_first().len() implies (#[trigger] t.drop_first()[i]).0 != (
            #[trigger] t.drop_first()[j]).0 by {
                assert(t.drop_first()[i] == t[i + 1]);
                assert(t.drop_first()[j] == t[j + 1]);
            }
        }
        lemma_upsert_distinct(t.drop_first(), k, v);
        let u = seq![t[0]] + upsert(t.drop_first(), k, v);
        assert forall|i: int, j: int| 0 <= i < j < u.len() implies (#[trigger] u[i]).0 != (
        #[trigger] u[j]).0 by {
            if i == 0 {
                assert(u[j] == upsert(t.drop_first(), k, v)[j - 1]);
                if u[j].0 == t[0].0 {
                    assert(has_key(upsert(t.drop_first(), k, v), t[0].0));
                    lemma_upsert_keys(t.drop_first(), k, v, t[0].0);
                    if has_key(t.drop_first(), t[0].0) {
                        let m = choose|m: int|
                            0 <= m < t.drop_first().len() && (#[trigger] t.drop_first()[m]).0 == t[0].0;
                        assert(t[m + 1].0 == t[0].0);
                    }
                }
            } else {
                assert(u[i] == upsert(t.drop_first(), k, v)[i - 1]);
                assert(u[j] == upsert(t.drop_first(), k, v)[j - 1]);
            }
        }
    }
}

/// A table whose rows all avoid `k` counts no row for `k`.
pub proof fn lemma_key_count_zero(t: Seq<Row>, k: Seq<char>)
    requires
        forall|i: int| 0 <= i < t.len() ==> (#[trigger] t[i]).0 != k,
    ensures
        key_count(t, k) == 0,
    decreases t.len(),
{
    if t.len() > 0 {
        assert(forall|i: int|
            0 <= i < t.drop_first().len() ==> (#[trigger] t.drop_first()[i]).0 != k) by {
            assert(forall|i: int|
                0 <= i < t.drop_first().len() ==> t.drop_first()[i] == (#[trigger] t[i + 1]));
        }
        lemma_key_count_zero(t.drop_first(), k);
    }
}

/// After an upsert into a distinct-keyed table, exactly one row carries `k`.
pub proof fn lemma_key_count_upsert(t: Seq<Row>, k: Seq<char>, v: Seq<char>)
    requires
        distinct_keys(t),
    ensures
        key_count(upsert(t, k, v), k) == 1,
    decreases t.len(),
{
    if t.len() == 0 {
        let u = seq![(k, v)];
        assert(u[0] == (k, v));
        assert(u.drop_first() =~= Seq::<Row>::empty());
        assert(key_count(u.drop_first(), k) == 0);
        assert(key_count(u, k) == 1);
    } else if t[0].0 == k {
        let u = seq![(k, v)] + t.drop_first();
        assert(u[0] == (k, v));
        assert(u.drop_first() =~= t.drop_first());
        assert(forall|i: int| 0 <= i < t.drop_first().len() ==> (#[trigger] t.drop_first()[i]).0
            != k) by {
            assert(forall|i: int|
                0 <= i < t.drop_first().len() ==> t.drop_first()[i] == (#[trigger] t[i + 1]));
        }
        lemma_key_count_zero(t.drop_first(), k);
        assert(key_count(u, k) == 1 + key_count(t.drop_first(), k));
    } else {
        assert(distinct_keys(t.drop_first())) by {
            assert(forall|i: int|
                0 <= i < t.drop_first().len() ==> t.drop_first()[i] == (#[trigger] t[i + 1]));
        }
        lemma_key_count_upsert(t.drop_first(), k, v);
        let u = seq![t[0]] + upsert(t.drop_first(), k, v);
        assert(u[0] == t[0]);
        assert(u.drop_first() =~= upsert(t.drop_first(), k, v));
        assert(key_count(u, k) == key_count(upsert(t.drop_first(), k, v), k));
    }
}

/// Looking up a removed key finds nothing.
pub proof fn lemma_lookup_remove_same(t: Seq<Row>, k: Seq<char>)
    ensures
        lookup(remove_key(t, k), k) is None,
    decreases t.len(),
{
    if t.len() == 0 {
    } else if t[0].0 == k {
        lemma_lookup_remove_same(t.drop_first(), k);
    } else {
        lemma_lookup_remove_same(t.drop_first(), k);
        let u = seq![t[0]] + remove_key(t.drop_first(), k);
        assert(u[0] == t[0]);
        assert(u.drop_first() =~= remove_key(t.drop_first(), k));
    }
}

/// Removing an absent key changes nothing.
pub proof fn lemma_remove_absent(t: Seq<Row>, k: Seq<char>)
    requires
        lookup(t, k) is None,
    ensures
        remove_key(t, k) == t,
    decreases t.len(),
{
    if t.len() == 0 {
        assert(remove_key(t, k) =~= t);
    } else {
        lemma_remove_absent(t.drop_first(), k);
        assert(seq![t[0]] + t.drop_first() =~= t);
    }
}

/// Removal preserves key distinctness.
pub proof fn lemma_remove_distinct(t: Seq<Row>, k: Seq<char>)
    requires
        distinct_keys(t),
    ensures
        distinct_keys(remove_key(t, k)),
    decreases t.len(),
{
    if t.len() == 0 {
    } else {
        assert(distinct_keys(t.drop_first())) by {
            assert(forall|i: int|
                0 <= i < t.drop_first().len() ==> t.drop_first()[i] == (#[trigger] t[i + 1]));
        }
        lemma_remove_distinct(t.drop_first(), k);
        if t[0].0 != k {
            let u = seq![t[0]] + remove_key(t.drop_first(), k);
            assert forall|i: int, j: int| 0 <= i < j < u.len() implies (#[trigger] u[i]).0 != (
            #[trigger] u[j]).0 by {
                if i == 0 {
                    assert(u[j] == remove_key(t.drop_first(), k)[j - 1]);
                    if u[j].0 == t[0].0 {
                        lemma_remove_has_key(t.drop_first(), k, t[0].0);
                        let m = choose|m: int|
                            0 <= m < t.drop_first().len() && (#[trigger] t.drop_first()[m]).0 == t[0].0;
                        assert(t[m + 1].0 == t[0].0);
                    }
                } else {
                    assert(u[i] == remove_key(t.drop_first(), k)[i - 1]);
                    assert(u[j] == remove_key(t.drop_first(), k)[j - 1]);
                }
            }
        }
    }
}

/// Upserting a NUL-free value keeps every value of the table NUL-free.
pub proof fn lemma_upsert_values_nul_free(t: Seq<Row>, k: Seq<char>, v: Seq<char>)
    requires
        values_nul_free(t),
        nul_free(v),
    ensures
        values_nul_free(upsert(t, k, v)),
    decreases t.len(),
{
    if t.len() == 0 {
        let u = seq![(k, v)];
        assert(u[0] == (k, v));
    } else if t[0].0 == k {
        let u = seq![(k, v)] + t.drop_first();
        assert forall|i: int| 0 <= i < u.len() implies nul_free((#[trigger] u[i]).1) by {
            if i == 0 {
                assert(u[0] == (k, v));
            } else {
                assert(u[i] == t[i]);
            }
        }
    } else {
        assert(values_nul_free(t.drop_first())) by {
            assert(forall|i: int|
                0 <= i < t.drop_first().len() ==> t.drop_first()[i] == (#[trigger] t[i + 1]));
        }
        lemma_upsert_values_nul_free(t.drop_first(), k, v);
        let u = seq![t[0]] + upsert(t.drop_first(), k, v);
        assert forall|i: int| 0 <= i < u.len() implies nul_free((#[trigger] u[i]).1) by {
            if i == 0 {
                assert(u[0] == t[0]);
            } else {
                assert(u[i] == upsert(t.drop_first(), k, v)[i - 1]);
            }
        }
    }
}

/// Removal keeps every value of the table NUL-free.
pub proof fn lemma_remove_values_nul_free(t: Seq<Row>, k: Seq<char>)
    requires
        values_nul_free(t),
    ensures
        values_nul_free(remove_key(t, k)),
    decreases t.len(),
{
    if t.len() == 0 {
    } else {
        assert(values_nul_free(t.drop_first())) by {
            assert(forall|i: int|
                0 <= i < t.drop_first().len() ==> t.drop_first()[i] == (#[trigger] t[i + 1]));
        }
        lemma_remove_values_nul_free(t.drop_first(), k);
        if t[0].0 != k {
            let u = seq![t[0]] + remove_key(t.drop_first(), k);
            assert forall|i: int| 0 <= i < u.len() implies nul_free((#[trigger] u[i]).1) by {
                if i == 0 {
                    assert(u[0] == t[0]);
                } else {
                    assert(u[i] == remove_key(t.drop_first(), k)[i - 1]);
                }
            }
        }
    }
}

/// A key carried by the result of a removal was carried by the table.
pub proof fn lemma_remove_has_key(t: Seq<Row>, k: Seq<char>, k2: Seq<char>)
    requires
        has_key(remove_key(t, k), k2),
    ensures
        has_key(t, k2),
    decreases t.len(),
{
    if t.len() == 0 {
    } else if t[0].0 == k {
        lemma_remove_has_key(t.drop_first(), k, k2);
        let j = choose|j: int|
            0 <= j < t.drop_first().len() && (#[trigger] t.drop_first()[j]).0 == k2;
        assert(t[j + 1].0 == k2);
    } else {
        let u = seq![t[0]] + remove_key(t.drop_first(), k);
        let i = choose|i: int| 0 <= i < u.len() && (#[trigger] u[i]).0 == k2;
        if i == 0 {
            assert(t[0].0 == k2);
        } else {
            assert(u[i] == remove_key(t.drop_first(), k)[i - 1]);
            assert(has_key(remove_key(t.drop_first(), k), k2));
            lemma_remove_has_key(t.drop_first(), k, k2);
            let j = choose|j: int|
                0 <= j < t.drop_first().len() && (#[trigger] t.drop_first()[j]).0 == k2;
            assert(t[j + 1].0 == k2);
        }
    }
}

} // verus!
