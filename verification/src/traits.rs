//! The store interface and the capability bounds on keys and values.

use vstd::prelude::*;
use vstd::std_specs::cmp::PartialEqSpec;

use crate::errors::ShardError;
use crate::model::apply_insert;
use crate::model::find_key;
use crate::model::has_key;
use crate::model::insert_batch_outcomes;
use crate::model::lookup_result;
use crate::model::remove_batch_outcomes;

verus! {

/// What a key must support: equality comparison and cloning.
pub trait ShardKey: Clone + PartialEq {

}

impl<T: Clone + PartialEq> ShardKey for T {

}

/// What a value must support: cloning.
pub trait ShardValue: Clone {

}

impl<T: Clone> ShardValue for T {

}

/// The operations expected from a capacity-bounded, key-unique map.
///
/// The model of an implementor is its ordered entry sequence `entries()` and
/// its fixed ceiling `ceiling()`; `inv()` is the well-formedness every
/// operation assumes and preserves. All contracts are conditioned on the
/// key type obeying the specification of its own `==`.
pub trait ShardedMap<K: ShardKey, V: ShardValue>: Sized {
    /// The stored entries, in insertion order.
    spec fn entries(&self) -> Seq<(K, V)>;

    /// The capacity ceiling.
    spec fn ceiling(&self) -> nat;

    /// Well-formedness: the cached count and the ceiling are respected and
    /// no two stored keys compare equal.
    spec fn inv(&self) -> bool;

    /// Overwrites the value of a present key in place, or appends a new
    /// entry while the ceiling allows it; rejects the admission of a new key
    /// into a full store.
    fn insert(&mut self, key: K, value: V) -> (r: Result<(), ShardError>)
        requires
            old(self).inv(),
            K::obeys_eq_spec(),
        ensures
            final(self).inv(),
            final(self).ceiling() == old(self).ceiling(),
            match r {
                Ok(()) => (has_key(old(self).entries(), key) || old(self).entries().len() < old(self).ceiling()) && final(self).entries() == apply_insert(
                    old(self).entries(),
                    key,
                    value,
                ),
                Err(e) => e == ShardError::ShardFull && !has_key(old(self).entries(), key) && old(self).entries().len() >= old(self).ceiling() && final(self).entries() == old(self).entries(),
            },
    ;

    /// Returns a copy of the value stored under the first entry matching
    /// `key`, or nothing when no entry matches.
    fn get(&self, key: &K) -> (r: Option<V>)
        requires
            self.inv(),
            K::obeys_eq_spec(),
        ensures
            lookup_result(self.entries(), *key, r),
    ;

    /// Removes the entry matching `key`, shifting the entries behind it up
    /// by one place; reports an absent key and changes nothing.
    fn remove(&mut self, key: &K) -> (r: Result<(), ShardError>)
        requires
            old(self).inv(),
            K::obeys_eq_spec(),
        ensures
            final(self).inv(),
            final(self).ceiling() == old(self).ceiling(),
            match r {
                Ok(()) => has_key(old(self).entries(), *key) && final(self).entries() == old(self).entries().remove(find_key(old(self).entries(), *key)),
                Err(e) => e == ShardError::KeyNotFound && !has_key(old(self).entries(), *key)
                    && final(self).entries() == old(self).entries(),
            },
    ;

    /// The number of stored entries.
    fn len(&self) -> (r: usize)
        ensures
            r == self.entries().len(),
    ;

    /// The capacity ceiling.
    fn max_capacity(&self) -> (r: usize)
        ensures
            r == self.ceiling(),
    ;

    /// Inserts the pairs in input order, stopping at the first capacity
    /// failure; that slot and every unattempted slot reports the capacity
    /// failure, so the outcomes align with the input. The call as a whole
    /// never fails.
    fn insert_batch(&mut self, items: Vec<(K, V)>) -> (r: Result<
        Vec<Result<(), ShardError>>,
        ShardError,
    >)
        requires
            old(self).inv(),
            K::obeys_eq_spec(),
        ensures
            final(self).inv(),
            final(self).ceiling() == old(self).ceiling(),
            r matches Ok(results) && final(self).entries() == insert_batch_outcomes(
                old(self).entries(),
                old(self).ceiling(),
                items@,
            ).0 && results@ == insert_batch_outcomes(
                old(self).entries(),
                old(self).ceiling(),
                items@,
            ).1,
    ;

    /// Looks every key up, aligning the results with the input; absent keys
    /// map to the absence indicator. No mutation and no failure mode.
    fn get_batch(&self, keys: &[K]) -> (r: Vec<Option<V>>)
        requires
            self.inv(),
            K::obeys_eq_spec(),
        ensures
            r@.len() == keys@.len(),
            forall|i: int|
                0 <= i < keys@.len() ==> lookup_result(self.entries(), keys@[i], #[trigger] r@[i]),
    ;

    /// Removes every key in input order, recording each outcome
    /// independently; unlike a batch insert there is no early exit. The call
    /// as a whole never fails.
    fn remove_batch(&mut self, keys: &[K]) -> (r: Result<
        Vec<Result<(), ShardError>>,
        ShardError,
    >)
        requires
            old(self).inv(),
            K::obeys_eq_spec(),
        ensures
            final(self).inv(),
            final(self).ceiling() == old(self).ceiling(),
            r matches Ok(results) && final(self).entries() == remove_batch_outcomes(
                old(self).entries(),
                keys@,
            ).0 && results@ == remove_batch_outcomes(old(self).entries(), keys@).1,
    ;
}

} // verus!
