use std::time::Instant;

use abixio::digest::sha256_hex;
use abixio::heal::mrf::{MrfEntry, MrfQueue};
use abixio::heal::scanner::{due, ScanState};
use abixio::heal::worker::{
    find_consensus_meta, heal_object, heal_outcome, object_needs_healing, reads_coherent,
    scan_object, HealPlan, HealResult, ShardRead,
};
use abixio::multipart::{decode_part, encode_part};
use abixio::storage::{ErasureMeta, ObjectMeta, StorageError};
use abixio::time::Duration;

#[test]
fn enqueue_and_dequeue() {
    let mut queue = MrfQueue::new(10);
    let entry = MrfEntry { bucket: "test".to_string(), key: "key".to_string() };
    queue.enqueue(entry.clone()).unwrap();
    assert_eq!(queue.pending_count(), 1);
}

#[test]
fn dedup_same_entry() {
    let mut queue = MrfQueue::new(10);
    let entry = MrfEntry { bucket: "test".to_string(), key: "key".to_string() };
    queue.enqueue(entry.clone()).unwrap();
    queue.enqueue(entry.clone()).unwrap(); // should be no-op
    assert_eq!(queue.pending_count(), 1);
}

#[test]
fn queue_full_drops() {
    let mut queue = MrfQueue::new(1);
    let e1 = MrfEntry { bucket: "test".to_string(), key: "k1".to_string() };
    let e2 = MrfEntry { bucket: "test".to_string(), key: "k2".to_string() };
    queue.enqueue(e1).unwrap();
    let result = queue.enqueue(e2);
    assert!(result.is_err());
}

#[test]
fn mark_done_allows_re_enqueue() {
    let mut queue = MrfQueue::new(10);
    let entry = MrfEntry { bucket: "test".to_string(), key: "key".to_string() };
    queue.enqueue(entry.clone()).unwrap();
    queue.mark_done(&entry);
    assert_eq!(queue.pending_count(), 0);
    queue.enqueue(entry).unwrap();
    assert_eq!(queue.pending_count(), 1);
}

#[test]
fn entries_come_out_in_order() {
    let mut queue = MrfQueue::new(10);
    for k in ["a", "b"] {
        queue.enqueue(MrfEntry { bucket: "b".to_string(), key: k.to_string() }).unwrap();
    }
    assert!(queue.take_receiver());
    assert!(!queue.take_receiver());
    assert_eq!(queue.dequeue().unwrap().key, "a");
    assert_eq!(queue.dequeue().unwrap().key, "b");
    assert!(queue.dequeue().is_none());
    queue.close();
    assert!(queue.enqueue(MrfEntry { bucket: "b".to_string(), key: "c".to_string() }).is_err());
}

#[test]
fn new_object_should_scan() {
    let state = ScanState::new(Duration::from_secs(3600));
    assert!(state.should_scan("bucket", "key"));
}

#[test]
fn recently_checked_skips() {
    let mut state = ScanState::new(Duration::from_secs(3600));
    state.mark_checked("bucket", "key");
    assert!(!state.should_scan("bucket", "key"));
}

#[test]
fn past_interval_rescans() {
    let mut state = ScanState::new(Duration::from_millis(10));
    // mark as checked in the past
    let past = Instant::now() - std::time::Duration::from_millis(100);
    state.mark_checked_at("bucket", "key", past);
    assert!(state.should_scan("bucket", "key"));
}

#[test]
fn different_objects_independent() {
    let mut state = ScanState::new(Duration::from_secs(3600));
    state.mark_checked("bucket", "key1");
    assert!(!state.should_scan("bucket", "key1"));
    assert!(state.should_scan("bucket", "key2"));
    assert_eq!(state.checked_count(), 1);
}

#[test]
fn a_check_is_due_after_the_interval() {
    let hour = Duration::from_secs(3600);
    assert!(due(None, &hour));
    assert!(!due(Some(Duration::from_secs(3599)), &hour));
    assert!(due(Some(Duration::from_secs(3600)), &hour));
}

/// The shards of an object on four disks, as a write leaves them.
fn stored(payload: &[u8], data: usize, parity: usize) -> Vec<Option<ShardRead>> {
    let shards = encode_part(payload, data, parity).unwrap();
    let total = data + parity;
    shards
        .into_iter()
        .enumerate()
        .map(|(i, shard)| {
            Some(ShardRead {
                meta: ObjectMeta {
                    size: payload.len() as u64,
                    etag: "tag".to_string(),
                    content_type: "text/plain".to_string(),
                    created_at: 1,
                    version_id: String::new(),
                    is_latest: true,
                    is_delete_marker: false,
                    erasure: ErasureMeta {
                        data,
                        parity,
                        index: i,
                        distribution: (0..total).collect(),
                        epoch_id: 1,
                        volume_ids: (0..total).map(|v| format!("v{}", v)).collect(),
                    },
                    checksum: sha256_hex(&shard),
                    user_metadata: vec![],
                    tags: vec![],
                },
                data: shard,
            })
        })
        .collect()
}

fn apply(reads: &mut [Option<ShardRead>], plan: HealPlan) -> usize {
    match plan {
        HealPlan::Repair(writes) => {
            let n = writes.len();
            for w in writes {
                reads[w.disk] = Some(ShardRead { data: w.data, meta: w.meta });
            }
            n
        }
        _ => 0,
    }
}

fn read_back(reads: &[Option<ShardRead>], data: usize, parity: usize, size: usize) -> Vec<u8> {
    let slots = reads.iter().map(|r| r.as_ref().map(|x| x.data.clone())).collect();
    decode_part(slots, data, parity, size as u64).unwrap()
}

#[test]
fn heal_healthy_object_returns_healthy() {
    let reads = stored(b"heal test data", 3, 1);
    let plan = heal_object(&reads).unwrap();
    assert!(matches!(heal_outcome(&plan, 0), HealResult::Healthy));
}

#[test]
fn heal_missing_shard_repairs() {
    let mut reads = stored(b"heal missing shard", 3, 1);
    reads[0] = None;
    let plan = heal_object(&reads).unwrap();
    let n = match &plan {
        HealPlan::Repair(w) => w.len(),
        _ => 0,
    };
    let result = heal_outcome(&plan, n);
    assert!(matches!(result, HealResult::Repaired { shards_fixed } if shards_fixed >= 1));
    apply(&mut reads, plan);
    assert_eq!(read_back(&reads, 3, 1, 18), b"heal missing shard");
    assert!(matches!(heal_object(&reads).unwrap(), HealPlan::Healthy));
}

#[test]
fn heal_corrupt_shard_repairs() {
    let mut reads = stored(b"heal corrupt shard", 3, 1);
    reads[0].as_mut().unwrap().data = b"CORRUPTED".to_vec();
    let plan = heal_object(&reads).unwrap();
    let n = apply(&mut reads, plan);
    assert!(n >= 1);
    assert_eq!(read_back(&reads, 3, 1, 18), b"heal corrupt shard");
}

#[test]
fn heal_too_many_missing_is_unrecoverable() {
    let mut reads = stored(b"unrecoverable", 2, 2);
    for r in reads.iter_mut().take(3) {
        *r = None;
    }
    match heal_object(&reads) {
        Ok(HealPlan::Unrecoverable) => {}
        Err(StorageError::ReadQuorum) => {}
        other => panic!("expected unrecoverable, got {:?}", other),
    }
}

#[test]
fn heal_missing_two_shards_repairs() {
    let mut reads = stored(b"two missing shards", 2, 2);
    for r in reads.iter_mut().take(2) {
        *r = None;
    }
    let plan = heal_object(&reads).unwrap();
    let n = match &plan {
        HealPlan::Repair(w) => w.len(),
        _ => 0,
    };
    let result = heal_outcome(&plan, n);
    assert!(matches!(result, HealResult::Repaired { shards_fixed } if shards_fixed == 2));
    apply(&mut reads, plan);
    assert_eq!(read_back(&reads, 2, 2, 18), b"two missing shards");
}

#[test]
fn heal_nonexistent_object_returns_not_found() {
    let reads: Vec<Option<ShardRead>> = vec![None, None, None, None];
    let result = heal_object(&reads);
    assert!(result.is_err());
}

#[test]
fn object_needs_healing_detects_missing_shard() {
    let mut reads = stored(b"check healing", 3, 1);
    let meta = Some(reads[1].as_ref().unwrap().meta.clone());
    assert!(!object_needs_healing(&meta, &reads));
    reads[0] = None;
    assert!(object_needs_healing(&meta, &reads));
}

#[test]
fn heal_single_disk_no_parity() {
    let reads = stored(b"no parity", 1, 0);
    let plan = heal_object(&reads).unwrap();
    assert!(matches!(plan, HealPlan::Healthy));
}

#[test]
fn the_majority_decides_what_was_written() {
    let mut reads = stored(b"newer", 2, 2);
    let old = stored(b"older", 2, 2);
    reads[3] = old.into_iter().nth(3).unwrap();
    reads[3].as_mut().unwrap().meta.created_at = 0;
    assert!(reads_coherent(&reads));
    let chosen = find_consensus_meta(&reads, 2).unwrap();
    assert_eq!(reads[chosen].as_ref().unwrap().meta.created_at, 1);
    let plan = heal_object(&reads).unwrap();
    let n = apply(&mut reads, plan);
    assert_eq!(n, 1);
    assert_eq!(read_back(&reads, 2, 2, 5), b"newer");
}

#[test]
fn a_write_may_name_more_or_fewer_disks_than_shards() {
    let mut short = stored(b"short list", 2, 1);
    for r in short.iter_mut().flatten() {
        r.meta.erasure.distribution.truncate(1);
    }
    assert!(reads_coherent(&short));
    assert!(matches!(heal_object(&short).unwrap(), HealPlan::Unrecoverable));
    let mut long = stored(b"long list", 2, 1);
    for r in long.iter_mut().flatten() {
        r.meta.erasure.distribution.push(9);
    }
    assert!(reads_coherent(&long));
    assert!(matches!(heal_object(&long).unwrap(), HealPlan::Healthy));
    for r in long.iter_mut().flatten() {
        r.meta.erasure.distribution[3] = 0;
    }
    assert!(!reads_coherent(&long));
    let mut bare = stored(b"too few places", 2, 1);
    for r in bare.iter_mut().flatten() {
        r.meta.erasure.distribution.truncate(2);
    }
    assert!(!reads_coherent(&bare));
}

#[test]
fn metadata_of_the_same_write_agrees() {
    let reads = stored(b"same write", 3, 1);
    let a = &reads[0].as_ref().unwrap().meta;
    let b = &reads[1].as_ref().unwrap().meta;
    assert!(a.quorum_eq(b));
    let mut c = b.clone();
    c.etag = "other".to_string();
    assert!(!a.quorum_eq(&c));
}

#[test]
fn a_scan_queues_what_is_damaged() {
    let mut queue = MrfQueue::new(10);
    let mut state = ScanState::new(Duration::from_secs(3600));
    scan_object(&mut queue, &mut state, "b", "good", false);
    scan_object(&mut queue, &mut state, "b", "bad", true);
    assert_eq!(queue.pending_count(), 1);
    assert_eq!(queue.dequeue().unwrap().key, "bad");
    assert!(!state.should_scan("b", "good"));
}

#[test]
fn the_count_is_of_distinct_objects() {
    let mut state = ScanState::new(Duration::from_secs(3600));
    assert_eq!(state.checked_count(), 0);
    for (bucket, key) in [("a", "k"), ("b", "k"), ("a", "k"), ("a", "b/k"), ("b", "k")] {
        state.mark_checked(bucket, key);
        assert!(!state.should_scan(bucket, key));
    }
    assert_eq!(state.checked_count(), 3);
}
