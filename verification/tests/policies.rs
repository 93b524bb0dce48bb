use liquid_cache::ids::BatchID;
use liquid_cache::ids::CacheAdvice;
use liquid_cache::ids::CacheEntryID;
use liquid_cache::modes::LiquidCacheMode;
use liquid_cache::policies::CachePolicy;
use liquid_cache::policies::DiscardPolicy;
use liquid_cache::policies::FiloPolicy;
use liquid_cache::policies::LruPolicy;
use liquid_cache::policies::ToDiskPolicy;
use std::sync::atomic::AtomicUsize;
use std::sync::atomic::Ordering;
use std::sync::Arc;
use std::sync::Barrier;
use std::sync::Mutex;

fn entry(id: u64) -> CacheEntryID {
    CacheEntryID::new(id, id, id, BatchID::from_raw(id as u16))
}

fn assert_evict_advice(
    policy: &mut LruPolicy,
    expect_evict: CacheEntryID,
    trigger_entry: CacheEntryID,
) {
    let advice = policy.advise(&trigger_entry, &LiquidCacheMode::Arrow);
    assert_eq!(advice, CacheAdvice::Evict(expect_evict));
}

fn assert_discard_advice(policy: &mut LruPolicy, trigger_entry: CacheEntryID) {
    let advice = policy.advise(&trigger_entry, &LiquidCacheMode::Arrow);
    assert_eq!(advice, CacheAdvice::Discard);
}

fn check_integrity(policy: &LruPolicy) {
    let map_count = policy.len();
    assert_eq!(map_count, policy.entries().len());
    assert_eq!(map_count, policy.entries_reversed().len());
    let mut reversed = policy.entries_reversed();
    reversed.reverse();
    assert_eq!(policy.entries(), reversed);
}

#[test]
fn test_lru_policy_insertion_order() {
    let mut policy = LruPolicy::new();
    let e1 = entry(1);
    let e2 = entry(2);
    let e3 = entry(3);

    policy.notify_insert(&e1);
    policy.notify_insert(&e2);
    policy.notify_insert(&e3);

    assert_evict_advice(&mut policy, e1, entry(4));
}

#[test]
fn test_lru_policy_access_moves_to_front() {
    let mut policy = LruPolicy::new();
    let e1 = entry(1);
    let e2 = entry(2);
    let e3 = entry(3);

    policy.notify_insert(&e1);
    policy.notify_insert(&e2);
    policy.notify_insert(&e3);

    policy.notify_access(&e1);
    assert_evict_advice(&mut policy, e2, entry(4));
    policy.notify_access(&e2);
    assert_evict_advice(&mut policy, e3, entry(4));
}

#[test]
fn test_lru_policy_reinsert_moves_to_front() {
    let mut policy = LruPolicy::new();
    let e1 = entry(1);
    let e2 = entry(2);
    let e3 = entry(3);

    policy.notify_insert(&e1);
    policy.notify_insert(&e2);
    policy.notify_insert(&e3);

    policy.notify_insert(&e1);
    assert_evict_advice(&mut policy, e2, entry(4));
}

#[test]
fn test_lru_policy_advise_empty() {
    let mut policy = LruPolicy::new();
    assert_discard_advice(&mut policy, entry(1));
}

#[test]
fn test_lru_policy_advise_single_item_self() {
    let mut policy = LruPolicy::new();
    let e1 = entry(1);
    policy.notify_insert(&e1);

    assert_evict_advice(&mut policy, e1, entry(1));
}

#[test]
fn test_lru_policy_advise_single_item_other() {
    let mut policy = LruPolicy::new();
    let e1 = entry(1);
    policy.notify_insert(&e1);
    let e2 = entry(2);

    assert_evict_advice(&mut policy, e1, e2);
}

#[test]
fn test_lru_policy_access_nonexistent() {
    let mut policy = LruPolicy::new();
    let e1 = entry(1);
    let e2 = entry(2);

    policy.notify_insert(&e1);
    policy.notify_insert(&e2);

    policy.notify_access(&entry(99));

    assert_evict_advice(&mut policy, e1, entry(3));
}

#[test]
fn test_lru_policy_invariants() {
    let mut policy = LruPolicy::new();

    for i in 0..10 {
        policy.notify_insert(&entry(i));
    }
    policy.notify_access(&entry(2));
    policy.notify_access(&entry(5));
    policy.advise(&entry(0), &LiquidCacheMode::Arrow);
    policy.advise(&entry(1), &LiquidCacheMode::Arrow);

    check_integrity(&policy);

    let map_count = policy.len();
    assert_eq!(map_count, 8);
    assert!(!policy.contains(&entry(0)));
    assert!(!policy.contains(&entry(1)));
    assert!(policy.contains(&entry(2)));

    let head_id = policy.entries()[0];
    assert_eq!(head_id, entry(5));
}

#[test]
fn test_concurrent_lru_operations() {
    let policy = Arc::new(Mutex::new(LruPolicy::new()));
    let num_threads = 4;
    let operations_per_thread = 100;

    let total_inserts = Arc::new(AtomicUsize::new(0));
    let total_evictions = Arc::new(AtomicUsize::new(0));

    let barrier = Arc::new(Barrier::new(num_threads));
    let runtime = tokio::runtime::Builder::new_current_thread().build().unwrap();

    let mut handles = vec![];
    for thread_id in 0..num_threads {
        let policy_clone = policy.clone();
        let total_inserts_clone = total_inserts.clone();
        let total_evictions_clone = total_evictions.clone();
        let barrier_clone = barrier.clone();

        let handle = runtime.spawn_blocking(move || {
            barrier_clone.wait();

            for i in 0..operations_per_thread {
                let op_type = i % 3; // 0: insert, 1: access, 2: evict
                let entry_id = entry((thread_id * operations_per_thread + i) as u64);

                match op_type {
                    0 => {
                        policy_clone.lock().unwrap().notify_insert(&entry_id);
                        total_inserts_clone.fetch_add(1, Ordering::SeqCst);
                    }
                    1 => {
                        // Every thread also accesses entries created by other threads
                        if i > 10 {
                            let other_thread = (thread_id + 1) % num_threads;
                            let other_id =
                                entry((other_thread * operations_per_thread + i - 10) as u64);
                            policy_clone.lock().unwrap().notify_access(&other_id);
                        }
                        policy_clone.lock().unwrap().notify_access(&entry_id);
                    }
                    2 => {
                        if i > 20 {
                            // Evict some earlier entries we created
                            let to_evict =
                                entry((thread_id * operations_per_thread + i - 20) as u64);
                            policy_clone.lock().unwrap().advise(&to_evict, &LiquidCacheMode::Arrow);
                            total_evictions_clone.fetch_add(1, Ordering::SeqCst);
                        }
                    }
                    _ => unreachable!(),
                }
            }
        });

        handles.push(handle);
    }

    // Wait for all threads to complete
    for handle in handles {
        runtime.block_on(handle).unwrap();
    }

    let inserts = total_inserts.load(Ordering::SeqCst);
    let evictions = total_evictions.load(Ordering::SeqCst);
    let expected_count = inserts - evictions;

    let state = policy.lock().unwrap();
    check_integrity(&state);

    let map_count = state.len();
    assert_eq!(map_count, expected_count);
}

fn concurrent_invariant_advice_once<P: CachePolicy + Send + 'static>(policy: P) {
    let policy = Arc::new(Mutex::new(policy));
    let num_threads = 4;

    for i in 0..100 {
        policy.lock().unwrap().notify_insert(&entry(i));
    }

    let advised_entries = Arc::new(Mutex::new(Vec::new()));
    let runtime = tokio::runtime::Builder::new_current_thread().build().unwrap();

    let mut handles = Vec::new();
    for _ in 0..num_threads {
        let policy_clone = policy.clone();
        let advised_entries_clone = advised_entries.clone();

        let handle = runtime.spawn_blocking(move || {
            let advice = policy_clone.lock().unwrap().advise(&entry(999), &LiquidCacheMode::Arrow);
            if let CacheAdvice::Evict(entry_id) = advice {
                let mut entries = advised_entries_clone.lock().unwrap();
                entries.push(entry_id);
            }
        });

        handles.push(handle);
    }

    for handle in handles {
        runtime.block_on(handle).unwrap();
    }

    let entries = advised_entries.lock().unwrap();
    let mut unique_entries = entries.clone();
    unique_entries.sort();
    unique_entries.dedup();

    // If there are duplicates, entries.len() will be greater than unique_entries.len()
    assert_eq!(
        entries.len(),
        unique_entries.len(),
        "Some entries were advised for eviction multiple times: {:?}",
        entries
    );
}

#[test]
fn test_concurrent_invariant_advice_once() {
    concurrent_invariant_advice_once(LruPolicy::new());

    concurrent_invariant_advice_once(DiscardPolicy);

    concurrent_invariant_advice_once(FiloPolicy::new());

    concurrent_invariant_advice_once(ToDiskPolicy::new());
}

#[test]
fn test_to_disk_policy_advice() {
    let mut policy = ToDiskPolicy::new();
    let entry_id = entry(42);

    let advice = policy.advise(&entry_id, &LiquidCacheMode::Arrow);
    assert_eq!(advice, CacheAdvice::ToDisk(entry_id));

    let advice = policy.advise(
        &entry_id,
        &LiquidCacheMode::Liquid {
            transcode_in_background: false,
        },
    );
    assert_eq!(advice, CacheAdvice::ToDisk(entry_id));
}

#[test]
fn filo_evicts_newest() {
    let mut policy = FiloPolicy::new();
    policy.notify_insert(&entry(1));
    policy.notify_insert(&entry(2));
    policy.notify_access(&entry(1));
    let mode = LiquidCacheMode::Liquid { transcode_in_background: true };
    assert_eq!(policy.advise(&entry(3), &mode), CacheAdvice::Evict(entry(2)));
    assert_eq!(policy.advise(&entry(3), &mode), CacheAdvice::Evict(entry(1)));
    assert_eq!(policy.advise(&entry(3), &mode), CacheAdvice::TranscodeToDisk(entry(3)));
    assert_eq!(policy.advise(&entry(3), &LiquidCacheMode::Arrow), CacheAdvice::Discard);
}

#[test]
fn lru_uses_places_again() {
    let mut policy = LruPolicy::default();
    for round in 0..5 {
        for i in 0..3 {
            policy.notify_insert(&entry(round * 3 + i));
        }
        for i in 0..3 {
            assert_evict_advice(&mut policy, entry(round * 3 + i), entry(99));
        }
        check_integrity(&policy);
    }
    assert_eq!(policy.len(), 0);
    let mode = LiquidCacheMode::Liquid { transcode_in_background: false };
    assert_eq!(policy.advise(&entry(7), &mode), CacheAdvice::TranscodeToDisk(entry(7)));
}

// Entries that are inserted again, accessed, accessed while unknown and evicted in between.
#[test]
fn lru_evicts_what_was_touched_the_longest_ago() {
    let mut policy = LruPolicy::new();
    for id in [1, 2, 3, 4] {
        policy.notify_insert(&entry(id));
    }
    policy.notify_access(&entry(1));
    policy.notify_access(&entry(9));
    assert_evict_advice(&mut policy, entry(2), entry(99));
    policy.notify_access(&entry(2));
    policy.notify_insert(&entry(3));
    policy.notify_insert(&entry(2));
    for id in [4, 1, 3, 2] {
        assert_evict_advice(&mut policy, entry(id), entry(99));
    }
    assert_eq!(policy.len(), 0);
}

#[test]
fn policies_can_be_chosen_at_run_time() {
    let mut policies: Vec<Box<dyn CachePolicy>> =
        vec![Box::new(LruPolicy::new()), Box::new(FiloPolicy::new()), Box::new(DiscardPolicy)];
    let mut advice = Vec::new();
    for policy in policies.iter_mut() {
        policy.notify_insert(&entry(1));
        policy.notify_insert(&entry(2));
        advice.push(policy.advise(&entry(3), &LiquidCacheMode::Arrow));
    }
    assert_eq!(
        advice,
        vec![CacheAdvice::Evict(entry(1)), CacheAdvice::Evict(entry(2)), CacheAdvice::Discard]
    );
}

#[test]
fn discard_policy_discards() {
    let mut policy = DiscardPolicy::default();
    policy.notify_insert(&entry(1));
    assert_eq!(policy.advise(&entry(1), &LiquidCacheMode::default()), CacheAdvice::Discard);
}
