//! The mathematical model of the store: entry sequences, first-match lookup,
//! and the counting and folding functions behind the batch operations.
//!
//! Key comparison is modelled by `eq_spec`, the specification of `PartialEq`,
//! so every statement here matches what the executable scans actually test.

use vstd::prelude::*;
use vstd::std_specs::cmp::PartialEqSpec;

use crate::errors::ShardError;

verus! {

/// Index of the first entry whose key compares equal to `key`, or -1 when no
/// entry does.
pub open spec fn find_key<K: PartialEq, V>(s: Seq<(K, V)>, key: K) -> int
    decreases s.len(),
{
    if s.len() == 0 {
        -1
    } else if s[0].0.eq_spec(&key) {
        0
    } else if find_key(s.drop_first(), key) < 0 {
        -1
    } else {
        1 + find_key(s.drop_first(), key)
    }
}

/// Whether some entry's key compares equal to `key`.
pub open spec fn has_key<K: PartialEq, V>(s: Seq<(K, V)>, key: K) -> bool {
    exists|i: int| 0 <= i < s.len() && (#[trigger] s[i].0.eq_spec(&key))
}

/// No stored key compares equal to the key of any later entry.
pub open spec fn distinct_keys<K: PartialEq, V>(s: Seq<(K, V)>) -> bool {
    forall|i: int, j: int| 0 <= i < j < s.len() ==> !(#[trigger] s[i].0.eq_spec(&s[j].0))
}

/// The keys of a sequence of entries, in order.
pub open spec fn keys_of<K, V>(items: Seq<(K, V)>) -> Seq<K> {
    items.map_values(|e: (K, V)| e.0)
}

/// How many of `keys` are, each taken on its own, absent from `s`.
/// Repeated keys are counted as often as they occur.
pub open spec fn count_absent<K: PartialEq, V>(s: Seq<(K, V)>, keys: Seq<K>) -> int
    decreases keys.len(),
{
    if keys.len() == 0 {
        0
    } else {
        (if has_key(s, keys[0]) { 0int } else { 1int }) + count_absent(s, keys.drop_first())
    }
}

/// The store contents after one insert: an overwrite in place when the key is
/// already present, otherwise an append at the end.
pub open spec fn apply_insert<K: PartialEq, V>(s: Seq<(K, V)>, key: K, value: V) -> Seq<(K, V)> {
    if has_key(s, key) {
        s.update(find_key(s, key), (s[find_key(s, key)].0, value))
    } else {
        s.push((key, value))
    }
}

/// The store contents after inserting every pair of `items`, in order.
pub open spec fn apply_inserts<K: PartialEq, V>(s: Seq<(K, V)>, items: Seq<(K, V)>) -> Seq<(K, V)>
    decreases items.len(),
{
    if items.len() == 0 {
        s
    } else {
        apply_inserts(apply_insert(s, items[0].0, items[0].1), items.drop_first())
    }
}

/// The store contents after removing the first entry matching `key`, if any.
pub open spec fn apply_remove<K: PartialEq, V>(s: Seq<(K, V)>, key: K) -> Seq<(K, V)> {
    if has_key(s, key) {
        s.remove(find_key(s, key))
    } else {
        s
    }
}

/// What a lookup may report: the clone of the value of the first matching
/// entry, or an absence indicator.
pub open spec fn lookup_result<K: PartialEq, V: Clone>(
    s: Seq<(K, V)>,
    key: K,
    r: Option<V>,
) -> bool {
    match r {
        Some(v) => has_key(s, key) && cloned(s[find_key(s, key)].1, v),
        None => !has_key(s, key),
    }
}

/// The store and the per-item outcomes of a batch insert that stops at the
/// first capacity failure and reports that slot and every unattempted slot as
/// a capacity failure.
pub open spec fn insert_batch_outcomes<K: PartialEq, V>(
    s: Seq<(K, V)>,
    max: nat,
    items: Seq<(K, V)>,
) -> (Seq<(K, V)>, Seq<Result<(), ShardError>>)
    decreases items.len(),
{
    if items.len() == 0 {
        (s, Seq::<Result<(), ShardError>>::empty())
    } else if has_key(s, items[0].0) || s.len() < max {
        let rest = insert_batch_outcomes(apply_insert(s, items[0].0, items[0].1), max, items.drop_first());
        (rest.0, seq![Ok::<(), ShardError>(())] + rest.1)
    } else {
        (s, Seq::new(items.len(), |i: int| Err::<(), ShardError>(ShardError::ShardFull)))
    }
}

/// The store and the per-key outcomes of a batch removal; every key is
/// attempted, in order, whatever happened before it.
pub open spec fn remove_batch_outcomes<K: PartialEq, V>(
    s: Seq<(K, V)>,
    keys: Seq<K>,
) -> (Seq<(K, V)>, Seq<Result<(), ShardError>>)
    decreases keys.len(),
{
    if keys.len() == 0 {
        (s, Seq::<Result<(), ShardError>>::empty())
    } else {
        let first = if has_key(s, keys[0]) {
            Ok::<(), ShardError>(())
        } else {
            Err::<(), ShardError>(ShardError::KeyNotFound)
        };
        let rest = remove_batch_outcomes(apply_remove(s, keys[0]), keys.drop_first());
        (rest.0, seq![first] + rest.1)
    }
}

/// Percentage of the ceiling in use, rounded down; 0 for a ceiling of 0.
pub open spec fn utilization_pct(len: nat, max: nat) -> int {
    if max == 0 {
        0
    } else {
        len as int * 100 / max as int
    }
}

/// Load factor scaled to basis points (10_000 means full); 0 for a ceiling
/// of 0.
pub open spec fn load_factor_bp(len: nat, max: nat) -> int {
    if max == 0 {
        0
    } else {
        len as int * 10000 / max as int
    }
}

/// A successful unit outcome is the value `Ok(())` itself.
pub proof fn lemma_ok_is_ok_unit(r: Result<(), ShardError>)
    requires
        r is Ok,
    ensures
        r == Ok::<(), ShardError>(()),
{
    match r {
        Ok(u) => {
            assert(r == Ok::<(), ShardError>(u));
        },
        Err(_) => {
            assert(false);
        },
    }
}

/// `find_key` finds the first match: it stays in bounds, it lands on a
/// matching key, nothing before it matches, and it is non-negative exactly
/// when some entry matches.
pub proof fn lemma_find_key<K: PartialEq, V>(s: Seq<(K, V)>, key: K)
    ensures
        -1 <= find_key(s, key) < s.len(),
        find_key(s, key) >= 0 ==> s[find_key(s, key)].0.eq_spec(&key),
        forall|j: int| 0 <= j < find_key(s, key) ==> !(#[trigger] s[j].0.eq_spec(&key)),
        (find_key(s, key) >= 0) <==> has_key(s, key),
    decreases s.len(),
{
    if s.len() == 0 {
        assert(!has_key(s, key));
    } else if s[0].0.eq_spec(&key) {
        assert(has_key(s, key));
    } else {
        let sub = s.drop_first();
        lemma_find_key(sub, key);
        assert(forall|j: int| 0 <= j < sub.len() ==> #[trigger] sub[j] == s[j + 1]);
        if has_key(s, key) {
            let i = choose|i: int| 0 <= i < s.len() && (#[trigger] s[i].0.eq_spec(&key));
            assert(i != 0);
            assert(sub[i - 1] == s[i]);
            assert(has_key(sub, key));
        }
        if has_key(sub, key) {
            let i = choose|i: int| 0 <= i < sub.len() && (#[trigger] sub[i].0.eq_spec(&key));
            assert(s[i + 1].0.eq_spec(&key));
            assert(has_key(s, key));
        }
        assert forall|j: int| 0 <= j < find_key(s, key) implies !(#[trigger] s[j].0.eq_spec(&key)) by {
            if j > 0 {
                assert(s[j] == sub[j - 1]);
                assert(!sub[j - 1].0.eq_spec(&key));
            }
        }
    }
}

/// If position `i` matches and nothing before it does, the first match is `i`.
pub proof fn lemma_find_key_at<K: PartialEq, V>(s: Seq<(K, V)>, key: K, i: int)
    requires
        0 <= i < s.len(),
        s[i].0.eq_spec(&key),
        forall|j: int| 0 <= j < i ==> !(#[trigger] s[j].0.eq_spec(&key)),
    ensures
        find_key(s, key) == i,
{
    lemma_find_key(s, key);
    assert(has_key(s, key));
    let r = find_key(s, key);
    if r < i {
        assert(s[r].0.eq_spec(&key));
        assert(false);
    }
    if r > i {
        assert(!(s[i].0.eq_spec(&key)));
        assert(false);
    }
}

/// The absent-key count lies between 0 and the number of keys asked about.
pub proof fn lemma_count_absent_bounds<K: PartialEq, V>(s: Seq<(K, V)>, keys: Seq<K>)
    ensures
        0 <= count_absent(s, keys) <= keys.len(),
    decreases keys.len(),
{
    if keys.len() > 0 {
        lemma_count_absent_bounds(s, keys.drop_first());
    }
}

/// Growing the set of stored keys can only lower the absent-key count.
pub proof fn lemma_count_absent_superset<K: PartialEq, V>(
    s1: Seq<(K, V)>,
    s2: Seq<(K, V)>,
    keys: Seq<K>,
)
    requires
        forall|q: K| #[trigger] has_key(s1, q) ==> has_key(s2, q),
    ensures
        count_absent(s2, keys) <= count_absent(s1, keys),
    decreases keys.len(),
{
    if keys.len() > 0 {
        lemma_count_absent_superset(s1, s2, keys.drop_first());
        assert(has_key(s1, keys[0]) ==> has_key(s2, keys[0]));
    }
}

/// One insert keeps the keys distinct; it keeps the length on an overwrite
/// and grows it by one on an append; and it makes a key findable exactly when
/// it was findable before or is the inserted one.
pub proof fn lemma_apply_insert<K: PartialEq, V>(s: Seq<(K, V)>, key: K, value: V)
    requires
        distinct_keys(s),
    ensures
        ({
            let s1 = apply_insert(s, key, value);
            &&& distinct_keys(s1)
            &&& s1.len() == if has_key(s, key) { s.len() as int } else { s.len() as int + 1 }
            &&& forall|q: K| #[trigger] has_key(s, q) ==> has_key(s1, q)
            &&& has_key(s, key) ==> forall|i: int| 0 <= i < s.len() ==> #[trigger] s1[i].0 == s[i].0
            &&& !has_key(s, key) ==> forall|q: K|
                #[trigger] has_key(s1, q) ==> (has_key(s, q) || key.eq_spec(&q))
        }),
{
    lemma_find_key(s, key);
    let s1 = apply_insert(s, key, value);
    if has_key(s, key) {
        let r = find_key(s, key);
        assert(forall|i: int| 0 <= i < s.len() ==> #[trigger] s1[i].0 == s[i].0);
        assert forall|i: int, j: int| 0 <= i < j < s1.len() implies !(#[trigger] s1[i].0.eq_spec(
            &s1[j].0,
        )) by {
            assert(s1[i].0 == s[i].0);
            assert(s1[j].0 == s[j].0);
        }
        assert forall|q: K| #[trigger] has_key(s, q) implies has_key(s1, q) by {
            let w = choose|i: int| 0 <= i < s.len() && (#[trigger] s[i].0.eq_spec(&q));
            assert(s1[w].0.eq_spec(&q));
        }
    } else {
        assert(forall|i: int| 0 <= i < s.len() ==> #[trigger] s1[i] == s[i]);
        assert(s1[s.len() as int] == (key, value));
        assert forall|q: K| #[trigger] has_key(s, q) implies has_key(s1, q) by {
            let w = choose|i: int| 0 <= i < s.len() && (#[trigger] s[i].0.eq_spec(&q));
            assert(s1[w].0.eq_spec(&q));
        }
        assert forall|q: K| #[trigger] has_key(s1, q) implies (has_key(s, q) || key.eq_spec(
            &q,
        )) by {
            let w = choose|i: int| 0 <= i < s1.len() && (#[trigger] s1[i].0.eq_spec(&q));
            if w < s.len() {
                assert(s[w].0.eq_spec(&q));
            } else {
                assert(s1[w].0 == key);
            }
        }
        assert forall|i: int, j: int| 0 <= i < j < s1.len() implies !(#[trigger] s1[i].0.eq_spec(
            &s1[j].0,
        )) by {
            if j < s.len() {
                assert(s1[i].0 == s[i].0);
                assert(s1[j].0 == s[j].0);
            } else {
                assert(s1[j].0 == key);
                assert(s1[i].0 == s[i].0);
                if s[i].0.eq_spec(&key) {
                    assert(has_key(s, key));
                }
            }
        }
    }
}

/// Removing a key keeps the remaining keys distinct and shrinks the length by
/// one exactly when the key was present.
pub proof fn lemma_apply_remove<K: PartialEq, V>(s: Seq<(K, V)>, key: K)
    requires
        distinct_keys(s),
    ensures
        ({
            let s1 = apply_remove(s, key);
            &&& distinct_keys(s1)
            &&& s1.len() == if has_key(s, key) { s.len() - 1 } else { s.len() as int }
        }),
{
    lemma_find_key(s, key);
    if has_key(s, key) {
        let r = find_key(s, key);
        let s1 = s.remove(r);
        assert(forall|m: int| 0 <= m < r ==> #[trigger] s1[m] == s[m]);
        assert(forall|m: int| r <= m < s1.len() ==> #[trigger] s1[m] == s[m + 1]);
        assert forall|i: int, j: int| 0 <= i < j < s1.len() implies !(#[trigger] s1[i].0.eq_spec(
            &s1[j].0,
        )) by {
            let oi: int = if i < r { i } else { i + 1 };
            let oj: int = if j < r { j } else { j + 1 };
            assert(s1[i] == s[oi]);
            assert(s1[j] == s[oj]);
        }
    }
}

/// Inserting a key that is already present never changes the number of
/// entries, nor any stored key.
pub proof fn lemma_overwrite_preserves_len<K: PartialEq, V>(s: Seq<(K, V)>, key: K, value: V)
    requires
        has_key(s, key),
    ensures
        apply_insert(s, key, value).len() == s.len(),
        forall|i: int| 0 <= i < s.len() ==> #[trigger] apply_insert(s, key, value)[i].0 == s[i].0,
{
    lemma_find_key(s, key);
}

/// After an insert, the first entry matching the inserted key holds the new
/// value. For the append case the inserted key must compare equal to itself,
/// which holds of every reflexive equality.
pub proof fn lemma_insert_then_lookup<K: PartialEq, V>(s: Seq<(K, V)>, key: K, value: V)
    requires
        key.eq_spec(&key),
    ensures
        ({
            let s1 = apply_insert(s, key, value);
            &&& has_key(s1, key)
            &&& 0 <= find_key(s1, key) < s1.len()
            &&& s1[find_key(s1, key)].1 == value
        }),
{
    lemma_find_key(s, key);
    let s1 = apply_insert(s, key, value);
    if has_key(s, key) {
        let r = find_key(s, key);
        assert(s1[r].0 == s[r].0);
        assert forall|j: int| 0 <= j < r implies !(#[trigger] s1[j].0.eq_spec(&key)) by {
            assert(s1[j] == s[j]);
        }
        lemma_find_key_at(s1, key, r);
        assert(s1[r].1 == value);
    } else {
        let n = s.len() as int;
        assert(s1[n] == (key, value));
        assert forall|j: int| 0 <= j < n implies !(#[trigger] s1[j].0.eq_spec(&key)) by {
            assert(s1[j] == s[j]);
            if s[j].0.eq_spec(&key) {
                assert(has_key(s, key));
            }
        }
        lemma_find_key_at(s1, key, n);
    }
}

/// An insert whose key matches a different first entry leaves the entry
/// found for `key` exactly as it was: a later insert of another key never
/// disturbs an earlier key's lookup.
pub proof fn lemma_insert_other_key_keeps_lookup<K: PartialEq, V>(
    s: Seq<(K, V)>,
    other: K,
    value: V,
    key: K,
)
    requires
        has_key(s, key),
        has_key(s, other) ==> find_key(s, other) != find_key(s, key),
    ensures
        ({
            let s1 = apply_insert(s, other, value);
            &&& has_key(s1, key)
            &&& s1[find_key(s1, key)] == s[find_key(s, key)]
        }),
{
    lemma_find_key(s, key);
    lemma_find_key(s, other);
    let rk = find_key(s, key);
    let s1 = apply_insert(s, other, value);
    if has_key(s, other) {
        let ro = find_key(s, other);
        assert(forall|m: int| 0 <= m < s.len() && m != ro ==> #[trigger] s1[m] == s[m]);
        assert(s1[ro].0 == s[ro].0);
        assert(s1[rk] == s[rk]);
        assert forall|j: int| 0 <= j < rk implies !(#[trigger] s1[j].0.eq_spec(&key)) by {
            assert(s1[j].0 == s[j].0);
        }
        lemma_find_key_at(s1, key, rk);
    } else {
        assert(forall|m: int| 0 <= m < s.len() ==> #[trigger] s1[m] == s[m]);
        assert forall|j: int| 0 <= j < rk implies !(#[trigger] s1[j].0.eq_spec(&key)) by {
            assert(s1[j] == s[j]);
        }
        lemma_find_key_at(s1, key, rk);
    }
}

/// A removal that takes out a different first entry leaves the entry found
/// for `key` exactly as it was: removing one key never disturbs another
/// key's lookup.
pub proof fn lemma_remove_other_key_keeps_lookup<K: PartialEq, V>(s: Seq<(K, V)>, other: K, key: K)
    requires
        has_key(s, key),
        find_key(s, other) != find_key(s, key),
    ensures
        ({
            let s1 = apply_remove(s, other);
            &&& has_key(s1, key)
            &&& s1[find_key(s1, key)] == s[find_key(s, key)]
        }),
{
    lemma_find_key(s, key);
    lemma_find_key(s, other);
    let rk = find_key(s, key);
    if has_key(s, other) {
        let ro = find_key(s, other);
        let s1 = s.remove(ro);
        assert(forall|m: int| 0 <= m < ro ==> #[trigger] s1[m] == s[m]);
        assert(forall|m: int| ro <= m < s1.len() ==> #[trigger] s1[m] == s[m + 1]);
        if rk < ro {
            assert(s1[rk] == s[rk]);
            assert forall|j: int| 0 <= j < rk implies !(#[trigger] s1[j].0.eq_spec(&key)) by {
                assert(s1[j] == s[j]);
            }
            lemma_find_key_at(s1, key, rk);
        } else {
            let nk = rk - 1;
            assert(s1[nk] == s[rk]);
            assert forall|j: int| 0 <= j < nk implies !(#[trigger] s1[j].0.eq_spec(&key)) by {
                if j < ro {
                    assert(s1[j] == s[j]);
                } else {
                    assert(s1[j] == s[j + 1]);
                }
            }
            lemma_find_key_at(s1, key, nk);
        }
    }
}

} // verus!
