use shardmap::estimate_shard_account_size;
use shardmap::MappingShard;
use shardmap::ShardError;
use shardmap::ShardedMap;

#[test]
fn full_store_rejects_only_new_keys() {
    // Ceiling 2: two admissions succeed, a third brand-new key is rejected
    // and the length stays at the ceiling.
    let mut shard = MappingShard::<u8, u64>::new(0, 2);
    assert!(shard.insert(10, 1).is_ok());
    assert!(shard.insert(20, 2).is_ok());
    assert_eq!(shard.insert(30, 3), Err(ShardError::ShardFull));
    assert_eq!(shard.len(), 2);

    // Overwriting a present key stays legal even when full.
    assert!(shard.insert(10, 9).is_ok());
    assert_eq!(shard.get(&10), Some(9));
    assert_eq!(shard.len(), 2);
}

#[test]
fn overwrite_never_changes_len() {
    let mut shard = MappingShard::<u8, u64>::new(0, 4);
    shard.insert(7, 1).unwrap();
    assert_eq!(shard.len(), 1);
    shard.insert(7, 2).unwrap();
    shard.insert(7, 3).unwrap();
    assert_eq!(shard.len(), 1);
    assert_eq!(shard.get(&7), Some(3));
}

#[test]
fn remove_absent_key_changes_nothing() {
    let mut shard = MappingShard::<u8, u64>::new(0, 4);
    shard.insert(1, 10).unwrap();
    shard.insert(2, 20).unwrap();
    assert_eq!(shard.remove(&9), Err(ShardError::KeyNotFound));
    assert_eq!(shard.len(), 2);
    assert_eq!(shard.get(&1), Some(10));
    assert_eq!(shard.get(&2), Some(20));
}

#[test]
fn zero_ceiling_reports_zero_utilization() {
    let mut shard = MappingShard::<u8, u8>::new(0, 0);
    assert_eq!(shard.utilization_percentage(), 0);
    assert_eq!(shard.load_factor(), 0);
    let stats = shard.capacity_stats();
    assert_eq!(stats.utilization_percentage, 0);
    assert_eq!(stats.load_factor, 0);
    assert_eq!(shard.insert(1, 1), Err(ShardError::ShardFull));
}

#[test]
fn resize_below_len_keeps_ceiling() {
    let mut shard = MappingShard::<u8, u8>::new(0, 3);
    shard.insert(1, 1).unwrap();
    shard.insert(2, 2).unwrap();
    assert_eq!(shard.resize_capacity(1), Err(ShardError::InvalidCapacity));
    assert_eq!(shard.max_capacity(), 3);
    assert_eq!(shard.len(), 2);
    assert!(shard.resize_capacity(2).is_ok());
    assert_eq!(shard.max_capacity(), 2);
}

#[test]
fn try_insert_batch_failure_leaves_store_untouched() {
    // Ceiling 3 with key A present: three brand-new keys exceed the two
    // remaining slots, so the call fails and the store still holds only A.
    let mut shard = MappingShard::<u8, u64>::new(0, 3);
    shard.insert(1, 1).unwrap();
    let res = shard.try_insert_batch(vec![(2, 2), (3, 3), (4, 4)]);
    assert_eq!(res, Err(ShardError::ShardFull));
    assert_eq!(shard.len(), 1);
    assert_eq!(shard.get(&1), Some(1));
    assert_eq!(shard.get(&2), None);
    assert_eq!(shard.get(&3), None);
    assert_eq!(shard.get(&4), None);
}

#[test]
fn insert_batch_fills_unattempted_slots() {
    let mut shard = MappingShard::<u8, u64>::new(0, 1);
    let results = shard.insert_batch(vec![(1, 1), (2, 2), (3, 3)]).unwrap();
    assert_eq!(results.len(), 3);
    assert_eq!(results[0], Ok(()));
    assert_eq!(results[1], Err(ShardError::ShardFull));
    assert_eq!(results[2], Err(ShardError::ShardFull));
    assert_eq!(shard.len(), 1);
    assert_eq!(shard.get(&1), Some(1));
}

#[test]
fn remove_batch_attempts_every_key() {
    let mut shard = MappingShard::<u8, u64>::new(0, 4);
    shard.insert(1, 1).unwrap();
    shard.insert(2, 2).unwrap();
    let results = shard.remove_batch(&[1, 1, 2]).unwrap();
    assert_eq!(results[0], Ok(()));
    assert_eq!(results[1], Err(ShardError::KeyNotFound));
    assert_eq!(results[2], Ok(()));
    assert!(shard.is_empty());
}

#[test]
fn space_for_new_items_ignores_present_keys() {
    // Ceiling 5 with 2 entries: of four candidates one is already present,
    // so min(3 new keys, 3 remaining slots) == 3.
    let mut shard = MappingShard::<u8, u64>::new(0, 5);
    shard.insert(1, 1).unwrap();
    shard.insert(2, 2).unwrap();
    let space = shard.space_for_new_items(&[1, 11, 12, 13]);
    assert_eq!(space, 3);
}

#[test]
fn batch_duplicates_count_per_occurrence_but_apply_once() {
    // The admission pre-check counts a repeated brand-new key once per
    // occurrence, so a pair of entries under one new key is rejected by a
    // store with a single free slot ...
    let mut shard = MappingShard::<u8, u64>::new(0, 1);
    let res = shard.try_insert_batch(vec![(5, 1), (5, 2)]);
    assert_eq!(res, Err(ShardError::ShardFull));
    assert!(shard.is_empty());

    // ... while actually applying them consumes one slot and resolves to
    // last-value-wins.
    let results = shard.insert_batch(vec![(5, 1), (5, 2)]).unwrap();
    assert_eq!(results, vec![Ok(()), Ok(())]);
    assert_eq!(shard.len(), 1);
    assert_eq!(shard.get(&5), Some(2));
}

#[test]
fn get_batch_on_empty_input_is_empty() {
    let shard = MappingShard::<u8, u64>::new(0, 2);
    let values = shard.get_batch(&[]);
    assert!(values.is_empty());
}

#[test]
fn insertion_order_is_preserved() {
    let mut shard = MappingShard::<u8, u64>::new(0, 5);
    shard.insert(3, 30).unwrap();
    shard.insert(1, 10).unwrap();
    shard.insert(2, 20).unwrap();
    // Overwrites keep the entry's position.
    shard.insert(3, 33).unwrap();
    let keys: Vec<u8> = shard.items.iter().map(|(k, _)| *k).collect();
    assert_eq!(keys, vec![3, 1, 2]);
    // Removal shifts trailing entries up without reordering them.
    shard.remove(&3).unwrap();
    let keys: Vec<u8> = shard.items.iter().map(|(k, _)| *k).collect();
    assert_eq!(keys, vec![1, 2]);
}

#[test]
fn buffer_hints_keep_contents() {
    let mut shard = MappingShard::<u8, u64>::new(0, 8);
    shard.insert(1, 10).unwrap();
    shard.insert(2, 20).unwrap();
    let stats = shard.capacity_stats();
    assert!(stats.vec_capacity >= stats.current_items);
    shard.shrink_to_fit();
    assert_eq!(shard.get(&1), Some(10));
    assert_eq!(shard.get(&2), Some(20));
    shard.reserve(100);
    assert_eq!(shard.len(), 2);
    assert_eq!(shard.max_capacity(), 8);
}

#[test]
fn estimate_size_matches_formula() {
    // 8 + 4 + 10 * (32 + 8 + 4) + 32
    assert_eq!(estimate_shard_account_size(32, 8, 10), 484);
    // 8 + 4 + 0 * anything + 32
    assert_eq!(estimate_shard_account_size(32, 8, 0), 44);
}
