//! The bounded store itself: a flat, ordered sequence of key/value entries
//! under a fixed ceiling, with exact capacity accounting.

use vstd::prelude::*;
use vstd::std_specs::cmp::PartialEqSpec;

use crate::errors::ShardError;
use crate::model::apply_insert;
use crate::model::apply_remove;
use crate::model::count_absent;
use crate::model::distinct_keys;
use crate::model::find_key;
use crate::model::has_key;
use crate::model::insert_batch_outcomes;
use crate::model::keys_of;
use crate::model::lemma_apply_insert;
use crate::model::lemma_apply_remove;
use crate::model::lemma_count_absent_bounds;
use crate::model::lemma_count_absent_superset;
use crate::model::lemma_find_key_at;
use crate::model::load_factor_bp;
use crate::model::remove_batch_outcomes;
use crate::model::utilization_pct;
use crate::traits::ShardKey;
use crate::traits::ShardValue;
use crate::traits::ShardedMap;

verus! {

/// A point-in-time snapshot of a store's capacity accounting.
#[derive(Clone, Debug)]
pub struct CapacityStats {
    pub current_items: usize,
    pub max_capacity: usize,
    pub remaining_capacity: usize,
    /// Percentage of the ceiling in use, rounded down (0 to 100).
    pub utilization_percentage: u64,
    /// Load factor scaled to basis points (0 to 10_000).
    pub load_factor: u64,
    /// How many entries the underlying buffer can hold before reallocating.
    pub vec_capacity: usize,
    pub is_full: bool,
    pub is_empty: bool,
}

/// A capacity-bounded, key-unique map held as a flat, ordered list of
/// entries, sized to live inside a fixed, flatly serialized record.
#[derive(Clone, Debug)]
pub struct MappingShard<K: ShardKey, V: ShardValue> {
    /// Shard id, informational only; no operation reads it.
    pub shard_id: u8,
    /// The entries, in insertion order.
    pub items: Vec<(K, V)>,
    /// Cached entry count, kept narrow to shrink the serialized footprint;
    /// always equal to the list's length.
    pub item_count: u16,
    /// The capacity ceiling, changed only by an explicit resize.
    pub max_items: u16,
}

/// Relies on std's `Vec::capacity`: the allocated capacity is never below
/// the length.
#[verifier::external_body]
fn vec_capacity<T>(v: &Vec<T>) -> (r: usize)
    ensures
        r >= v@.len(),
{
    v.capacity()
}

/// Relies on std's `Vec::shrink_to_fit`: it only trims the allocation and
/// never touches the contents.
#[verifier::external_body]
fn vec_shrink_to_fit<T>(v: &mut Vec<T>)
    ensures
        final(v)@ == old(v)@,
{
    v.shrink_to_fit()
}

impl<K: ShardKey, V: ShardValue> MappingShard<K, V> {
    /// Creates an empty store with the given id and ceiling.
    pub fn new(shard_id: u8, max_items: u16) -> (r: Self)
        ensures
            r.inv(),
            r.entries() == Seq::<(K, V)>::empty(),
            r.ceiling() == max_items as nat,
            r.shard_id == shard_id,
    {
        MappingShard {
            shard_id,
            items: Vec::with_capacity(max_items as usize),
            item_count: 0,
            max_items,
        }
    }

    /// Whether a brand-new key could be admitted right now.
    pub fn can_add_item(&self) -> (r: bool)
        ensures
            r <==> self.entries().len() < self.ceiling(),
    {
        self.items.len() < self.max_items as usize
    }

    /// Whether some stored entry's key compares equal to `key`.
    fn contains_key(&self, key: &K) -> (r: bool)
        requires
            K::obeys_eq_spec(),
        ensures
            r <==> has_key(self.entries(), *key),
    {
        let mut i: usize = 0;
        while i < self.items.len()
            invariant
                K::obeys_eq_spec(),
                i <= self.items@.len(),
                forall|j: int| 0 <= j < i ==> !(#[trigger] self.items@[j].0.eq_spec(key)),
            decreases self.items@.len() - i,
        {
            if self.items[i].0 == *key {
                return true;
            }
            i += 1;
        }
        false
    }

    /// Counts the batch entries whose key is, each taken on its own, absent
    /// from the store. Repeated keys are counted as often as they occur.
    fn count_new_keys(&self, items: &[(K, V)]) -> (r: usize)
        requires
            K::obeys_eq_spec(),
        ensures
            r == count_absent(self.entries(), keys_of(items@)),
            r <= items@.len(),
    {
        let ghost ks = keys_of(items@);
        let mut count: usize = 0;
        let mut i: usize = 0;
        proof {
            assert(ks.skip(0) =~= ks);
        }
        while i < items.len()
            invariant
                K::obeys_eq_spec(),
                i <= items@.len(),
                count <= i,
                ks == keys_of(items@),
                count + count_absent(self.entries(), ks.skip(i as int)) == count_absent(
                    self.entries(),
                    ks,
                ),
            decreases items@.len() - i,
        {
            proof {
                assert(ks.skip(i as int)[0] == items@[i as int].0);
                assert(ks.skip(i as int).drop_first() =~= ks.skip(i as int + 1));
            }
            if !self.contains_key(&items[i].0) {
                count += 1;
            }
            i += 1;
        }
        proof {
            assert(ks.skip(items@.len() as int) =~= Seq::<K>::empty());
        }
        count
    }

    /// The single-entry insert behind both the trait method and the batch
    /// operations; states on top of the trait contract that the id and the
    /// ceiling fields stay untouched.
    fn insert_entry(&mut self, key: K, value: V) -> (r: Result<(), ShardError>)
        requires
            old(self).inv(),
            K::obeys_eq_spec(),
        ensures
            final(self).inv(),
            final(self).max_items == old(self).max_items,
            final(self).shard_id == old(self).shard_id,
            match r {
                Ok(()) => (has_key(old(self).items@, key) || old(self).items@.len() < old(
                    self,
                ).max_items as nat) && final(self).items@ == apply_insert(
                    old(self).items@,
                    key,
                    value,
                ),
                Err(e) => e == ShardError::ShardFull && !has_key(old(self).items@, key) && old(
                    self,
                ).items@.len() >= old(self).max_items as nat && final(self).items@ == old(
                    self,
                ).items@,
            },
    {
        let ghost s0 = self.items@;
        let mut i: usize = 0;
        while i < self.items.len()
            invariant
                *self == *old(self),
                old(self).inv(),
                s0 == self.items@,
                K::obeys_eq_spec(),
                i <= self.items@.len(),
                forall|j: int| 0 <= j < i ==> !(#[trigger] self.items@[j].0.eq_spec(&key)),
            decreases self.items@.len() - i,
        {
            if self.items[i].0 == key {
                proof {
                    lemma_find_key_at(s0, key, i as int);
                    assert(has_key(s0, key));
                    lemma_apply_insert(s0, key, value);
                }
                self.items[i].1 = value;
                proof {
                    assert(self.items@ =~= apply_insert(s0, key, value));
                }
                return Ok(());
            }
            i += 1;
        }
        proof {
            assert(!has_key(s0, key));
        }
        if !self.can_add_item() {
            return Err(ShardError::ShardFull);
        }
        self.items.push((key, value));
        proof {
            assert(self.items@.len() <= u16::MAX as nat);
        }
        self.item_count = self.items.len() as u16;
        proof {
            lemma_apply_insert(s0, key, value);
            assert(self.items@ =~= apply_insert(s0, key, value));
        }
        Ok(())
    }

    /// The single-key removal behind both the trait method and the batch
    /// operation; states on top of the trait contract that the id and the
    /// ceiling fields stay untouched.
    fn remove_entry(&mut self, key: &K) -> (r: Result<(), ShardError>)
        requires
            old(self).inv(),
            K::obeys_eq_spec(),
        ensures
            final(self).inv(),
            final(self).max_items == old(self).max_items,
            final(self).shard_id == old(self).shard_id,
            match r {
                Ok(()) => has_key(old(self).items@, *key) && final(self).items@ == old(
                    self,
                ).items@.remove(find_key(old(self).items@, *key)),
                Err(e) => e == ShardError::KeyNotFound && !has_key(old(self).items@, *key)
                    && final(self).items@ == old(self).items@,
            },
    {
        let ghost s0 = self.items@;
        let mut i: usize = 0;
        while i < self.items.len()
            invariant
                *self == *old(self),
                old(self).inv(),
                s0 == self.items@,
                K::obeys_eq_spec(),
                i <= self.items@.len(),
                forall|j: int| 0 <= j < i ==> !(#[trigger] self.items@[j].0.eq_spec(key)),
            decreases self.items@.len() - i,
        {
            if self.items[i].0 == *key {
                proof {
                    lemma_find_key_at(s0, *key, i as int);
                    assert(has_key(s0, *key));
                    lemma_apply_remove(s0, *key);
                }
                self.items.remove(i);
                proof {
                    assert(self.items@.len() <= u16::MAX as nat);
                }
                self.item_count = self.items.len() as u16;
                return Ok(());
            }
            i += 1;
        }
        proof {
            assert(!has_key(s0, *key));
        }
        Err(ShardError::KeyNotFound)
    }

    /// Applies the whole batch only if it is sure to fit: when the number of
    /// batch keys absent from the store exceeds the remaining capacity the
    /// call fails and nothing changes; otherwise every pair is inserted in
    /// order and the number of applied pairs, overwrites included, is
    /// returned.
    pub fn try_insert_batch(&mut self, items: Vec<(K, V)>) -> (r: Result<usize, ShardError>)
        requires
            old(self).inv(),
            K::obeys_eq_spec(),
        ensures
            final(self).inv(),
            final(self).ceiling() == old(self).ceiling(),
            final(self).shard_id == old(self).shard_id,
            match r {
                Ok(n) => count_absent(old(self).entries(), keys_of(items@)) <= old(self).ceiling()
                    - old(self).entries().len() && n == items@.len() && final(self).entries()
                    == crate::model::apply_inserts(old(self).entries(), items@),
                Err(e) => e == ShardError::ShardFull && count_absent(
                    old(self).entries(),
                    keys_of(items@),
                ) > old(self).ceiling() - old(self).entries().len() && final(self).entries()
                    == old(self).entries(),
            },
    {
        let new_items_count = self.count_new_keys(items.as_slice());
        let available_space = self.max_items as usize - self.items.len();
        if new_items_count > available_space {
            return Err(ShardError::ShardFull);
        }
        let ghost s0 = self.items@;
        let ghost all = items@;
        let ghost max0 = self.max_items;
        let ghost id0 = self.shard_id;
        let mut items = items;
        let total = items.len();
        let mut inserted: usize = 0;
        while items.len() > 0
            invariant
                self.inv(),
                K::obeys_eq_spec(),
                self.max_items == max0,
                self.shard_id == id0,
                inserted + items@.len() == all.len(),
                all.len() == total,
                crate::model::apply_inserts(s0, all) == crate::model::apply_inserts(
                    self.items@,
                    items@,
                ),
                count_absent(self.items@, keys_of(items@)) <= max0 as int - self.items@.len(),
            decreases items@.len(),
        {
            let ghost s_pre = self.items@;
            let ghost items_pre = items@;
            let (key, value) = items.remove(0);
            proof {
                assert(items_pre[0] == (key, value));
                assert(items@ =~= items_pre.drop_first());
                assert(keys_of(items_pre)[0] == key);
                assert(keys_of(items_pre).drop_first() =~= keys_of(items@));
                lemma_count_absent_bounds(s_pre, keys_of(items@));
                lemma_apply_insert(s_pre, key, value);
            }
            let res = self.insert_entry(key, value);
            proof {
                if !has_key(s_pre, key) {
                    assert(count_absent(s_pre, keys_of(items_pre)) == 1 + count_absent(
                        s_pre,
                        keys_of(items@),
                    ));
                    assert(s_pre.len() < max0 as int);
                } else {
                    assert(count_absent(s_pre, keys_of(items_pre)) == count_absent(
                        s_pre,
                        keys_of(items@),
                    ));
                }
                assert(res is Ok);
                lemma_count_absent_superset(s_pre, self.items@, keys_of(items@));
            }
            if res.is_ok() {
                inserted += 1;
            }
        }
        proof {
            assert(items@ =~= Seq::<(K, V)>::empty());
        }
        Ok(inserted)
    }

    /// Whether applying the batch through `try_insert_batch` would succeed;
    /// reads the store without changing it.
    pub fn can_insert_batch(&self, items: &[(K, V)]) -> (r: bool)
        requires
            self.inv(),
            K::obeys_eq_spec(),
        ensures
            r <==> count_absent(self.entries(), keys_of(items@)) <= self.ceiling()
                - self.entries().len(),
    {
        let new_items_count = self.count_new_keys(items);
        let available_space = self.max_items as usize - self.items.len();
        new_items_count <= available_space
    }

    /// The number of slots still open under the ceiling.
    pub fn remaining_capacity(&self) -> (r: usize)
        requires
            self.inv(),
        ensures
            r == self.ceiling() - self.entries().len(),
    {
        self.max_items as usize - self.items.len()
    }

    /// Whether the store is at its ceiling.
    pub fn is_full(&self) -> (r: bool)
        ensures
            r <==> self.entries().len() >= self.ceiling(),
    {
        self.items.len() >= self.max_items as usize
    }

    /// Whether the store holds no entries.
    pub fn is_empty(&self) -> (r: bool)
        ensures
            r <==> self.entries().len() == 0,
    {
        self.items.is_empty()
    }

    /// Percentage of the ceiling in use, rounded down; 0 when the ceiling
    /// is 0.
    pub fn utilization_percentage(&self) -> (r: u64)
        requires
            self.inv(),
        ensures
            r == utilization_pct(self.entries().len(), self.ceiling()),
    {
        if self.max_items == 0 {
            return 0;
        }
        (self.items.len() as u64) * 100 / (self.max_items as u64)
    }

    /// Load factor scaled to basis points (10_000 means full), rounded down;
    /// 0 when the ceiling is 0.
    pub fn load_factor(&self) -> (r: u64)
        requires
            self.inv(),
        ensures
            r == load_factor_bp(self.entries().len(), self.ceiling()),
    {
        if self.max_items == 0 {
            return 0;
        }
        (self.items.len() as u64) * 10000 / (self.max_items as u64)
    }

    /// Whether the utilization percentage has reached the given threshold.
    pub fn is_near_capacity(&self, threshold_percentage: u64) -> (r: bool)
        requires
            self.inv(),
        ensures
            r <==> utilization_pct(self.entries().len(), self.ceiling())
                >= threshold_percentage,
    {
        self.utilization_percentage() >= threshold_percentage
    }

    /// How many of these candidate keys could be admitted right now: the
    /// smaller of the number of candidates not already stored and the
    /// remaining capacity.
    pub fn space_for_new_items(&self, keys: &[K]) -> (r: usize)
        requires
            self.inv(),
            K::obeys_eq_spec(),
        ensures
            ({
                let cnt = count_absent(self.entries(), keys@);
                let rem = self.ceiling() - self.entries().len();
                r == if cnt <= rem {
                    cnt
                } else {
                    rem
                }
            }),
    {
        let mut count: usize = 0;
        let mut i: usize = 0;
        proof {
            assert(keys@.skip(0) =~= keys@);
        }
        while i < keys.len()
            invariant
                K::obeys_eq_spec(),
                i <= keys@.len(),
                count <= i,
                count + count_absent(self.entries(), keys@.skip(i as int)) == count_absent(
                    self.entries(),
                    keys@,
                ),
            decreases keys@.len() - i,
        {
            proof {
                assert(keys@.skip(i as int)[0] == keys@[i as int]);
                assert(keys@.skip(i as int).drop_first() =~= keys@.skip(i as int + 1));
            }
            if !self.contains_key(&keys[i]) {
                count += 1;
            }
            i += 1;
        }
        proof {
            assert(keys@.skip(keys@.len() as int) =~= Seq::<K>::empty());
        }
        let remaining = self.max_items as usize - self.items.len();
        if count < remaining {
            count
        } else {
            remaining
        }
    }

    /// Raises or lowers the ceiling; lowering it below the number of live
    /// entries is rejected, so entries are never truncated. Growing may
    /// reserve buffer space ahead of time, which is a performance hint only.
    pub fn resize_capacity(&mut self, new_max_items: u16) -> (r: Result<(), ShardError>)
        requires
            old(self).inv(),
        ensures
            final(self).inv(),
            final(self).entries() == old(self).entries(),
            final(self).shard_id == old(self).shard_id,
            match r {
                Ok(()) => new_max_items as nat >= old(self).entries().len() && final(self).ceiling() == new_max_items as nat,
                Err(e) => e == ShardError::InvalidCapacity && (new_max_items as nat) < old(self).entries().len() && final(self).ceiling() == old(self).ceiling(),
            },
    {
        if (new_max_items as usize) < self.items.len() {
            return Err(ShardError::InvalidCapacity);
        }
        self.max_items = new_max_items;
        if new_max_items as usize > vec_capacity(&self.items) {
            let additional = new_max_items as usize - self.items.len();
            self.items.reserve(additional);
        }
        Ok(())
    }

    /// Trims the underlying buffer to the current entries; purely advisory
    /// and never changes the logical state.
    pub fn shrink_to_fit(&mut self)
        requires
            old(self).inv(),
        ensures
            final(self).inv(),
            final(self).entries() == old(self).entries(),
            final(self).ceiling() == old(self).ceiling(),
            final(self).shard_id == old(self).shard_id,
    {
        vec_shrink_to_fit(&mut self.items);
    }

    /// Reserves buffer space for more entries, capping the request at the
    /// remaining capacity; purely advisory and never changes the logical
    /// state.
    pub fn reserve(&mut self, additional: usize)
        requires
            old(self).inv(),
        ensures
            final(self).inv(),
            final(self).entries() == old(self).entries(),
            final(self).ceiling() == old(self).ceiling(),
            final(self).shard_id == old(self).shard_id,
    {
        let max_additional = self.max_items as usize - self.items.len();
        let to_reserve = if additional < max_additional {
            additional
        } else {
            max_additional
        };
        self.items.reserve(to_reserve);
    }

    /// Removes every entry and resets the cached count; the ceiling stays.
    pub fn clear(&mut self)
        ensures
            final(self).inv(),
            final(self).entries() == Seq::<(K, V)>::empty(),
            final(self).ceiling() == old(self).ceiling(),
            final(self).shard_id == old(self).shard_id,
    {
        self.items.clear();
        self.item_count = 0;
    }

    /// Assembles a capacity snapshot consistent with the store at the
    /// instant of the call.
    pub fn capacity_stats(&self) -> (r: CapacityStats)
        requires
            self.inv(),
        ensures
            r.current_items == self.entries().len(),
            r.max_capacity == self.ceiling(),
            r.remaining_capacity == self.ceiling() - self.entries().len(),
            r.utilization_percentage == utilization_pct(self.entries().len(), self.ceiling()),
            r.load_factor == load_factor_bp(self.entries().len(), self.ceiling()),
            r.vec_capacity >= self.entries().len(),
            r.is_full <==> self.entries().len() >= self.ceiling(),
            r.is_empty <==> self.entries().len() == 0,
    {
        CapacityStats {
            current_items: self.len(),
            max_capacity: self.max_capacity(),
            remaining_capacity: self.remaining_capacity(),
            utilization_percentage: self.utilization_percentage(),
            load_factor: self.load_factor(),
            vec_capacity: vec_capacity(&self.items),
            is_full: self.is_full(),
            is_empty: self.is_empty(),
        }
    }
}

impl<K: ShardKey, V: ShardValue> ShardedMap<K, V> for MappingShard<K, V> {
    open spec fn entries(&self) -> Seq<(K, V)> {
        self.items@
    }

    open spec fn ceiling(&self) -> nat {
        self.max_items as nat
    }

    open spec fn inv(&self) -> bool {
        &&& self.items@.len() == self.item_count as nat
        &&& self.items@.len() <= self.max_items as nat
        &&& distinct_keys(self.items@)
    }

    fn insert(&mut self, key: K, value: V) -> (r: Result<(), ShardError>) {
        self.insert_entry(key, value)
    }

    fn get(&self, key: &K) -> (r: Option<V>) {
        let mut i: usize = 0;
        while i < self.items.len()
            invariant
                K::obeys_eq_spec(),
                i <= self.items@.len(),
                forall|j: int| 0 <= j < i ==> !(#[trigger] self.items@[j].0.eq_spec(key)),
            decreases self.items@.len() - i,
        {
            if self.items[i].0 == *key {
                proof {
                    lemma_find_key_at(self.items@, *key, i as int);
                    assert(has_key(self.items@, *key));
                }
                return Some(self.items[i].1.clone());
            }
            i += 1;
        }
        proof {
            assert(!has_key(self.items@, *key));
        }
        None
    }

    fn remove(&mut self, key: &K) -> (r: Result<(), ShardError>) {
        self.remove_entry(key)
    }

    fn len(&self) -> (r: usize) {
        self.items.len()
    }

    fn max_capacity(&self) -> (r: usize) {
        self.max_items as usize
    }

    fn insert_batch(&mut self, items: Vec<(K, V)>) -> (r: Result<
        Vec<Result<(), ShardError>>,
        ShardError,
    >) {
        let ghost s0 = self.items@;
        let ghost all = items@;
        let ghost maxn = self.max_items as nat;
        let ghost id0 = self.shard_id;
        let ghost max0 = self.max_items;
        let ghost target = insert_batch_outcomes(s0, maxn, all);
        let total = items.len();
        let mut items = items;
        let mut results: Vec<Result<(), ShardError>> = Vec::with_capacity(total);
        proof {
            assert(Seq::<Result<(), ShardError>>::empty() + target.1 =~= target.1);
        }
        while items.len() > 0
            invariant
                self.inv(),
                K::obeys_eq_spec(),
                self.max_items == max0,
                self.shard_id == id0,
                maxn == max0 as nat,
                total == all.len(),
                results@.len() + items@.len() == all.len(),
                target == insert_batch_outcomes(s0, maxn, all),
                target.0 == insert_batch_outcomes(self.items@, maxn, items@).0,
                target.1 == results@ + insert_batch_outcomes(self.items@, maxn, items@).1,
            decreases items@.len(),
        {
            let ghost s_pre = self.items@;
            let ghost items_pre = items@;
            let ghost results_pre = results@;
            let (key, value) = items.remove(0);
            proof {
                assert(items_pre[0] == (key, value));
                assert(items@ =~= items_pre.drop_first());
            }
            let res = self.insert_entry(key, value);
            let failed = res.is_err();
            results.push(res);
            if failed && !self.can_add_item() {
                proof {
                    assert(insert_batch_outcomes(s_pre, maxn, items_pre) == (
                        s_pre,
                        Seq::new(items_pre.len(), |n: int| Err::<(), ShardError>(
                            ShardError::ShardFull,
                        )),
                    ));
                    assert(target.1 =~= results_pre + Seq::new(items_pre.len(), |n: int| Err::<
                        (),
                        ShardError,
                    >(ShardError::ShardFull)));
                    assert(target.1.len() == total);
                    assert(results@ =~= target.1.take(results@.len() as int));
                }
                while results.len() < total
                    invariant
                        total == target.1.len(),
                        results@.len() <= total,
                        results@ == target.1.take(results@.len() as int),
                        forall|n: int| results_pre.len() <= n < target.1.len() ==> target.1[n]
                            == Err::<(), ShardError>(ShardError::ShardFull),
                        results_pre.len() < results@.len(),
                    decreases total - results@.len(),
                {
                    results.push(Err(ShardError::ShardFull));
                    proof {
                        assert(results@ =~= target.1.take(results@.len() as int));
                    }
                }
                items.clear();
                proof {
                    assert(results@ =~= target.1);
                    assert(insert_batch_outcomes(self.items@, maxn, items@) == (
                        self.items@,
                        Seq::<Result<(), ShardError>>::empty(),
                    ));
                    assert(results@ + Seq::<Result<(), ShardError>>::empty() =~= results@);
                }
            } else {
                proof {
                    crate::model::lemma_ok_is_ok_unit(res);
                    assert(results@ =~= results_pre + seq![Ok::<(), ShardError>(())]);
                    assert(self.items@ == apply_insert(s_pre, key, value));
                    assert(insert_batch_outcomes(s_pre, maxn, items_pre).1 == seq![
                        Ok::<(), ShardError>(()),
                    ] + insert_batch_outcomes(self.items@, maxn, items@).1);
                    assert(results_pre + (seq![Ok::<(), ShardError>(())] + insert_batch_outcomes(
                        self.items@,
                        maxn,
                        items@,
                    ).1) =~= results@ + insert_batch_outcomes(self.items@, maxn, items@).1);
                }
            }
        }
        proof {
            assert(items@ =~= Seq::<(K, V)>::empty());
            assert(results@ + Seq::<Result<(), ShardError>>::empty() =~= results@);
        }
        Ok(results)
    }

    fn get_batch(&self, keys: &[K]) -> (r: Vec<Option<V>>) {
        let mut out: Vec<Option<V>> = Vec::with_capacity(keys.len());
        let mut i: usize = 0;
        while i < keys.len()
            invariant
                self.inv(),
                K::obeys_eq_spec(),
                i <= keys@.len(),
                out@.len() == i,
                forall|j: int|
                    0 <= j < i ==> crate::model::lookup_result(
                        self.items@,
                        keys@[j],
                        #[trigger] out@[j],
                    ),
            decreases keys@.len() - i,
        {
            out.push(self.get(&keys[i]));
            i += 1;
        }
        out
    }

    fn remove_batch(&mut self, keys: &[K]) -> (r: Result<
        Vec<Result<(), ShardError>>,
        ShardError,
    >) {
        let ghost s0 = self.items@;
        let ghost id0 = self.shard_id;
        let ghost max0 = self.max_items;
        let ghost target = remove_batch_outcomes(s0, keys@);
        let mut results: Vec<Result<(), ShardError>> = Vec::with_capacity(keys.len());
        let mut i: usize = 0;
        proof {
            assert(keys@.skip(0) =~= keys@);
            assert(Seq::<Result<(), ShardError>>::empty() + target.1 =~= target.1);
        }
        while i < keys.len()
            invariant
                self.inv(),
                K::obeys_eq_spec(),
                self.max_items == max0,
                self.shard_id == id0,
                i <= keys@.len(),
                results@.len() == i,
                target == remove_batch_outcomes(s0, keys@),
                target.0 == remove_batch_outcomes(self.items@, keys@.skip(i as int)).0,
                target.1 == results@ + remove_batch_outcomes(self.items@, keys@.skip(i as int)).1,
            decreases keys@.len() - i,
        {
            let ghost s_pre = self.items@;
            let ghost results_pre = results@;
            proof {
                assert(keys@.skip(i as int)[0] == keys@[i as int]);
                assert(keys@.skip(i as int).drop_first() =~= keys@.skip(i as int + 1));
            }
            let res = self.remove_entry(&keys[i]);
            results.push(res);
            proof {
                assert(self.items@ == apply_remove(s_pre, keys@[i as int]));
                if has_key(s_pre, keys@[i as int]) {
                    crate::model::lemma_ok_is_ok_unit(res);
                } else {
                    assert(res == Err::<(), ShardError>(ShardError::KeyNotFound));
                }
                assert(results_pre + (seq![res] + remove_batch_outcomes(
                    self.items@,
                    keys@.skip(i as int + 1),
                ).1) =~= results@ + remove_batch_outcomes(self.items@, keys@.skip(i as int + 1)).1);
            }
            i += 1;
        }
        proof {
            assert(keys@.skip(keys@.len() as int) =~= Seq::<K>::empty());
            assert(results@ + Seq::<Result<(), ShardError>>::empty() =~= results@);
        }
        Ok(results)
    }
}

/// Law: a well-formed store never holds more entries than its ceiling.
pub proof fn lemma_len_within_ceiling<K: ShardKey, V: ShardValue>(m: &MappingShard<K, V>)
    requires
        m.inv(),
    ensures
        m.entries().len() <= m.ceiling(),
{
}

/// Law: in a well-formed store no two stored keys compare equal.
pub proof fn lemma_stored_keys_distinct<K: ShardKey, V: ShardValue>(m: &MappingShard<K, V>)
    requires
        m.inv(),
    ensures
        distinct_keys(m.entries()),
{
}

} // verus!
