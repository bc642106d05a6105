use abixio::raft::adapter::fsm::{AbixioFsmAdapter, Committed, Payload};
use abixio::raft::adapter::log::{log_report, read_bounds, LogPlace, LogReport, RangeEnd};
use abixio::raft::adapter::network::rpc_url;
use abixio::raft::fsm::ops::{ApplyError, Op, PlacementVolume, State, VoterKind};
use abixio::raft::fsm::query;
use abixio::raft::fsm::AbixioStateMachine;
use abixio::raft::storage::log::{LogEntry, LogError, LogStore};
use abixio::raft::storage::meta::{loaded_vote, stored_vote, Vote, VoteStore};
use abixio::raft::storage::snapshot::{
    decode_meta, decode_snapshot, encode_meta, encode_snapshot, file_name, index_of_name,
    latest_index, list_indexes, prune_older_than, snapshot_meta,
};
use abixio::raft::storage::SnapshotStore;
use abixio::raft::types::AbixioNode;
use abixio::storage::BucketSettings;

fn add_node(id: &str) -> Op {
    Op::AddNode {
        node_id: id.to_string(),
        advertise_s3: format!("http://{}:10000", id),
        advertise_cluster: format!("http://{}:10000", id),
        voter_kind: VoterKind::Voter,
        added_at_unix_secs: 1700000000,
    }
}

#[test]
fn module_compiles() {}

#[test]
fn apply_monotonic_index() {
    let mut fsm = AbixioStateMachine::new();
    let a = fsm.apply(1, &add_node("a")).unwrap();
    assert_eq!(a, 1);
    let b = fsm.apply(2, &add_node("b")).unwrap();
    assert_eq!(b, 2);
    assert_eq!(fsm.applied_index(), 2);
    assert_eq!(fsm.members().len(), 2);
}

#[test]
fn snapshot_install_replaces_state() {
    let mut fsm = AbixioStateMachine::new();
    fsm.apply(1, &add_node("a")).unwrap();
    let (idx, snap) = fsm.snapshot();
    assert_eq!(idx, 1);

    let mut fsm2 = AbixioStateMachine::new();
    fsm2.install_snapshot(idx, snap);
    assert_eq!(fsm2.applied_index(), 1);
    assert!(fsm2.member("a").is_some());
}

#[test]
fn bucket_settings_round_trip() {
    let mut fsm = AbixioStateMachine::new();
    let mut settings = BucketSettings::default();
    settings.ftt = Some(3);
    fsm.apply(
        1,
        &Op::SetBucketSettings { bucket: "b".into(), settings: settings.clone() },
    )
    .unwrap();
    let got = fsm.bucket_settings("b").unwrap();
    assert_eq!(got.ftt, Some(3));
}

#[test]
fn placement_tracks_latest_epoch() {
    let mut fsm = AbixioStateMachine::new();
    fsm.apply(
        1,
        &Op::SetPlacementEpoch { epoch_id: 5, cluster_id: "c1".into(), volumes: vec![] },
    )
    .unwrap();
    assert_eq!(fsm.placement().epoch_id, 5);
}

#[test]
fn a_failed_operation_is_not_counted() {
    let mut fsm = AbixioStateMachine::new();
    fsm.apply(1, &add_node("a")).unwrap();
    let e = fsm.apply(2, &Op::RemoveNode { node_id: "x".into() }).unwrap_err();
    assert_eq!(e, ApplyError::UnknownNode("x".into()));
    assert_eq!(fsm.applied_index(), 1);
    assert_eq!(fsm.members().len(), 1);
}

#[test]
fn queries_read_the_state_machine() {
    let mut fsm = AbixioStateMachine::default();
    fsm.apply(1, &add_node("b")).unwrap();
    fsm.apply(2, &add_node("a")).unwrap();
    let mut names: Vec<String> = query::members(&fsm).into_iter().map(|m| m.node_id).collect();
    names.sort();
    assert_eq!(names, vec!["a", "b"]);
    assert!(query::bucket_settings(&fsm, "b").is_none());
    assert_eq!(query::placement(&fsm).epoch_id, 0);
}

#[test]
fn add_and_remove_node() {
    let mut s = State::default();
    add_node("a").apply(&mut s).unwrap();
    add_node("b").apply(&mut s).unwrap();
    assert_eq!(s.members.len(), 2);

    Op::RemoveNode { node_id: "a".into() }.apply(&mut s).unwrap();
    assert_eq!(s.members.len(), 1);
    assert!(s.members.contains_key("b"));
}

#[test]
fn remove_unknown_node_errors() {
    let mut s = State::default();
    let err = Op::RemoveNode { node_id: "nope".into() }
        .apply(&mut s)
        .unwrap_err();
    assert_eq!(err, ApplyError::UnknownNode("nope".into()));
}

#[test]
fn epoch_must_increase() {
    let mut s = State::default();
    Op::SetPlacementEpoch { epoch_id: 5, cluster_id: "c1".into(), volumes: vec![] }
        .apply(&mut s)
        .unwrap();
    let err = Op::SetPlacementEpoch { epoch_id: 3, cluster_id: "c1".into(), volumes: vec![] }
        .apply(&mut s)
        .unwrap_err();
    assert_eq!(err, ApplyError::EpochRegression { have: 5, got: 3 });
}

#[test]
fn epoch_zero_is_never_newer() {
    let mut s = State::default();
    let err = Op::SetPlacementEpoch { epoch_id: 0, cluster_id: "c1".into(), volumes: vec![] }
        .apply(&mut s)
        .unwrap_err();
    assert_eq!(err, ApplyError::EpochRegression { have: 0, got: 0 });
    assert_eq!(s.placement.cluster_id, "");
    Op::SetPlacementEpoch { epoch_id: 1, cluster_id: "c1".into(), volumes: vec![] }
        .apply(&mut s)
        .unwrap();
    assert_eq!(s.placement.epoch_id, 1);
}

#[test]
fn bucket_settings_upsert_and_delete() {
    let mut s = State::default();
    let mut settings = BucketSettings::default();
    settings.ftt = Some(2);
    Op::SetBucketSettings { bucket: "b".into(), settings: settings.clone() }
        .apply(&mut s)
        .unwrap();
    assert_eq!(s.buckets.get("b").unwrap().ftt, Some(2));

    Op::DeleteBucketSettings { bucket: "b".into() }
        .apply(&mut s)
        .unwrap();
    assert!(s.buckets.is_empty());
}

#[test]
fn delete_unknown_bucket_errors() {
    let mut s = State::default();
    let err = Op::DeleteBucketSettings { bucket: "b".into() }.apply(&mut s).unwrap_err();
    assert_eq!(err, ApplyError::UnknownBucket("b".into()));
}

#[test]
fn removing_undoes_adding() {
    let mut s = State::default();
    add_node("a").apply(&mut s).unwrap();
    add_node("b").apply(&mut s).unwrap();
    Op::RemoveNode { node_id: "b".into() }.apply(&mut s).unwrap();
    assert_eq!(s.members.len(), 1);
    assert!(s.members.get("b").is_none());
}

#[test]
fn two_replicas_agree() {
    let ops = vec![
        add_node("a"),
        Op::SetPlacementEpoch {
            epoch_id: 2,
            cluster_id: "c1".into(),
            volumes: vec![PlacementVolume {
                backend_index: 0,
                node_id: "a".into(),
                volume_id: "v-a-0".into(),
            }],
        },
    ];
    let mut x = State::default();
    let mut y = State::default();
    for op in &ops {
        op.apply(&mut x).unwrap();
        op.apply(&mut y).unwrap();
    }
    assert_eq!(x.placement, y.placement);
    assert_eq!(x.members.get("a"), y.members.get("a"));
}

fn entry(i: u64, t: u64, body: &[u8]) -> LogEntry {
    LogEntry { index: i, term: t, op_bytes: body.to_vec() }
}

fn empty_log() -> LogStore {
    LogStore::open(Vec::new())
}

#[test]
fn open_append_read_round_trip() {
    let mut s = empty_log();
    s.append(&[entry(1, 1, b"one"), entry(2, 1, b"two")]).unwrap();
    assert_eq!(s.last_log_index(), Some(2));
    assert_eq!(s.last_log_term(), Some(1));
    assert_eq!(s.read(1).unwrap().op_bytes, b"one");
    assert_eq!(s.read(2).unwrap().op_bytes, b"two");
}

#[test]
fn reopen_rebuilds_index() {
    let mut s = empty_log();
    s.append(&[entry(1, 1, b"a"), entry(2, 1, b"b"), entry(3, 2, b"c")])
        .unwrap();
    let s2 = LogStore::open(s.bytes().to_vec());
    assert_eq!(s2.entry_count(), 3);
    assert_eq!(s2.read(2).unwrap().op_bytes, b"b");
    assert_eq!(s2.last_log_term(), Some(2));
    assert!(s2.intact());
}

#[test]
fn monotonic_append_enforced() {
    let mut s = empty_log();
    s.append(&[entry(5, 1, b"x")]).unwrap();
    let err = s.append(&[entry(3, 1, b"y")]).unwrap_err();
    assert!(matches!(err, LogError::NonMonotonic { .. }));
}

#[test]
fn truncate_after_drops_tail() {
    let mut s = empty_log();
    s.append(&[entry(1, 1, b"a"), entry(2, 1, b"b"), entry(3, 1, b"c")])
        .unwrap();
    s.truncate_after(1).unwrap();
    assert_eq!(s.last_log_index(), Some(1));
    assert!(s.read(2).is_err());
    let s2 = LogStore::open(s.bytes().to_vec());
    assert_eq!(s2.last_log_index(), Some(1));
}

#[test]
fn purge_before_drops_prefix() {
    let mut s = empty_log();
    s.append(&[entry(1, 1, b"a"), entry(2, 1, b"b"), entry(3, 1, b"c"), entry(4, 1, b"d")])
        .unwrap();
    s.purge_before(3).unwrap();
    assert_eq!(s.first_log_index(), Some(3));
    assert_eq!(s.last_log_index(), Some(4));
    assert!(s.read(1).is_err());
    let s2 = LogStore::open(s.bytes().to_vec());
    assert_eq!(s2.first_log_index(), Some(3));
}

#[test]
fn read_range_inclusive() {
    let mut s = empty_log();
    s.append(&[entry(1, 1, b"a"), entry(2, 1, b"b"), entry(3, 2, b"c")])
        .unwrap();
    let got = s.read_range(1, 3).unwrap();
    assert_eq!(got.len(), 3);
    assert_eq!(got[2].term, 2);
}

#[test]
fn read_missing_index_returns_not_found() {
    let mut s = empty_log();
    s.append(&[entry(1, 1, b"a")]).unwrap();
    assert!(matches!(s.read(99), Err(LogError::NotFound(99))));
}

#[test]
fn variable_length_entries() {
    let mut s = empty_log();
    s.append(&[
        entry(1, 1, b"tiny"),
        entry(2, 1, &vec![0xAA; 5000]),
        entry(3, 1, b""),
    ])
    .unwrap();
    assert_eq!(s.read(2).unwrap().op_bytes.len(), 5000);
    assert!(s.read(3).unwrap().op_bytes.is_empty());
}

#[test]
fn a_torn_tail_is_not_read() {
    let mut s = empty_log();
    s.append(&[entry(1, 1, b"a"), entry(2, 1, b"bbbb")]).unwrap();
    let mut image = s.bytes().to_vec();
    image.truncate(image.len() - 2);
    let torn = LogStore::open(image);
    assert!(!torn.intact());
    assert_eq!(torn.read(1).unwrap().op_bytes, b"a");
    assert!(torn.read(2).is_err());
}

#[test]
fn a_torn_tail_gives_way_to_what_is_appended() {
    let mut s = empty_log();
    s.append(&[entry(1, 1, b"a"), entry(2, 1, b"bbbb")]).unwrap();
    let mut image = s.bytes().to_vec();
    image.truncate(image.len() - 2);
    let mut torn = LogStore::open(image.clone());
    assert!(matches!(
        torn.append(&[entry(2, 1, b"b")]),
        Err(LogError::NonMonotonic { prev: 2, got: 2 })
    ));
    torn.append(&[entry(3, 1, b"c")]).unwrap();
    assert!(torn.intact());
    assert_eq!(torn.entry_count(), 2);
    assert_eq!(torn.read(3).unwrap().op_bytes, b"c");
    let mut torn = LogStore::open(image.clone());
    assert!(matches!(torn.truncate_after(2), Err(LogError::Io(_))));
    torn.truncate_after(1).unwrap();
    assert!(torn.intact());
    assert_eq!(torn.last_log_index(), Some(1));
    let mut torn = LogStore::open(image);
    assert!(matches!(torn.purge_before(2), Err(LogError::Io(_))));
    torn.purge_before(1).unwrap();
    assert_eq!(torn.entry_count(), 2);
    let mut scrap = LogStore::open(vec![7]);
    scrap.truncate_after(3).unwrap();
    scrap.purge_before(3).unwrap();
    assert_eq!(scrap.bytes(), [7]);
    scrap.append(&[entry(1, 1, b"a")]).unwrap();
    assert!(scrap.intact());
}

#[test]
fn truncating_in_a_gap_keeps_what_stands_before_it() {
    let mut s = empty_log();
    s.append(&[entry(1, 1, b"a"), entry(3, 1, b"c")]).unwrap();
    s.truncate_after(2).unwrap();
    assert_eq!(s.last_log_index(), Some(1));
    assert_eq!(s.read(1).unwrap().op_bytes, b"a");
    assert!(matches!(s.read(3), Err(LogError::NotFound(3))));
}

#[test]
fn a_reopened_log_reads_as_before() {
    let mut s = empty_log();
    s.append(&[entry(1, 1, b"a"), entry(2, 1, b"b"), entry(4, 2, b"d"), entry(5, 2, b"e")])
        .unwrap();
    s.purge_before(2).unwrap();
    s.truncate_after(4).unwrap();
    let again = LogStore::open(s.bytes().to_vec());
    for i in 0..7 {
        assert_eq!(again.read(i), s.read(i));
    }
    assert_eq!(again.entry_count(), 2);
    assert_eq!(again.first_log_index(), Some(2));
    assert_eq!((again.last_log_index(), again.last_log_term()), (Some(4), Some(2)));
}

#[test]
fn truncating_and_purging_by_inclusive_bounds() {
    let mut s = empty_log();
    s.append(&[entry(1, 1, b"a"), entry(2, 1, b"b"), entry(3, 1, b"c")]).unwrap();
    s.truncate_from(3).unwrap();
    assert_eq!(s.last_log_index(), Some(2));
    s.purge_upto(1).unwrap();
    assert_eq!(s.first_log_index(), Some(2));
    assert_eq!(s.entry_count(), 1);
}

#[test]
fn default_when_missing() {
    let s = VoteStore::open(None);
    assert_eq!(s.load(), Vote::default());
}

#[test]
fn save_load_round_trip() {
    let mut s = VoteStore::open(None);
    let v = Vote { term: 7, voted_for: "node-b".into() };
    s.save(&v);
    assert_eq!(s.load(), v);
    assert_eq!(VoteStore::open(Some(s.load())).load(), v);
}

#[test]
fn overwrite_persists_latest() {
    let mut s = VoteStore::open(None);
    s.save(&Vote { term: 1, voted_for: "a".into() });
    s.save(&Vote { term: 2, voted_for: "b".into() });
    assert_eq!(s.load().term, 2);
}

#[test]
fn votes_keep_their_candidate() {
    assert_eq!(Vote::default(), Vote { term: 0, voted_for: String::new() });
    let v = stored_vote(7, Some(12));
    assert_eq!(v, Vote { term: 7, voted_for: "12".to_string() });
    assert_eq!(loaded_vote(&v), Some((7, 12)));
    assert_eq!(loaded_vote(&Vote::default()), None);
}

#[test]
fn store_and_load_round_trip() {
    let mut store = SnapshotStore::open(vec![("notes.txt".to_string(), b"n".to_vec())]);
    let (meta, removed) = store.store(42, 7, 1_700_000_000, b"state of 42").unwrap();
    assert_eq!(meta.last_applied_index, 42);
    assert_eq!(meta.last_applied_term, 7);
    assert_eq!(meta.created_at_unix_secs, 1_700_000_000);
    assert!(removed.is_empty());
    let (got_meta, got_state) = store.load_latest().unwrap().unwrap();
    assert_eq!(got_meta, meta);
    assert_eq!(got_state, b"state of 42");
}

#[test]
fn a_snapshot_header_is_three_numbers() {
    let meta = snapshot_meta(1, 0x0203, u64::MAX);
    let bytes = encode_meta(&meta).unwrap();
    let mut expected = vec![1u8, 0, 0, 0, 0, 0, 0, 0, 3, 2, 0, 0, 0, 0, 0, 0];
    expected.extend([0xff; 8]);
    assert_eq!(bytes, expected);
    assert_eq!(decode_meta(&bytes).unwrap(), meta);
    let mut longer = bytes.clone();
    longer.push(9);
    assert_eq!(decode_meta(&longer).unwrap(), meta);
    assert_eq!(decode_meta(&bytes[..23]).unwrap_err(), "io error: unexpected end of file");
}

#[test]
fn a_snapshot_file_is_taken_apart() {
    let file = encode_snapshot(b"header", b"the state").unwrap();
    let (header, body) = decode_snapshot(&file).unwrap();
    assert_eq!(header, b"header");
    assert_eq!(body, b"the state");
    assert_eq!(index_of_name(&file_name(42)), Some(42));
}

#[test]
fn load_empty_returns_none() {
    assert_eq!(latest_index(&list_indexes(&vec![])), None);
    assert!(SnapshotStore::open(vec![]).load_latest().unwrap().is_none());
}

#[test]
fn prune_keeps_last_two() {
    let mut store = SnapshotStore::open(vec![]);
    let mut removed = Vec::new();
    for i in [10u64, 20, 30, 40] {
        let (meta, gone) = store.store(i, 1, 5, b"state").unwrap();
        assert_eq!((meta.last_applied_index, meta.last_applied_term), (i, 1));
        removed.extend(gone);
    }
    let mut idx = store.list_indexes();
    idx.sort();
    assert_eq!(idx, vec![30, 40]);
    assert_eq!(removed, vec![10, 20]);
    assert_eq!(prune_older_than(&vec![5, 30, 10], 30), vec![5]);
}

#[test]
fn latest_picks_highest_index() {
    let files = vec![file_name(10), file_name(25), "notes.txt".to_string()];
    assert_eq!(list_indexes(&files).len(), 2);
    assert_eq!(latest_index(&list_indexes(&files)), Some(25));
    let mut store = SnapshotStore::open(vec![]);
    store.store(25, 1, 5, b"").unwrap();
    store.store(10, 1, 6, b"").unwrap();
    let (meta, _) = store.load_latest().unwrap().unwrap();
    assert_eq!(meta.last_applied_index, 25);
}

#[test]
fn damaged_snapshot_files_are_refused() {
    assert!(decode_snapshot(b"").is_err());
    assert!(decode_snapshot(b"not a snapshot").is_err());
    let file = encode_snapshot(b"header", b"body").unwrap();
    assert!(decode_snapshot(&file[..6]).is_err());
    let torn = SnapshotStore::open(vec![(file_name(3), file[..6].to_vec())]);
    assert_eq!(torn.load_latest().unwrap_err(), "failed to fill whole buffer");
    let headless = SnapshotStore::open(vec![(file_name(3), file.clone())]);
    assert_eq!(headless.load_latest().unwrap_err(), "io error: unexpected end of file");
    let odd = SnapshotStore::open(vec![("snap-03.msgpack".to_string(), file)]);
    assert!(odd.load_latest().is_err());
}

#[test]
fn abixio_node_default() {
    let n = AbixioNode::default();
    assert_eq!(n.voter_kind, VoterKind::Voter);
}

#[test]
fn a_node_is_named_by_its_cluster_address() {
    let mut n = AbixioNode::default();
    n.advertise_cluster = "http://a:10000".to_string();
    assert!(n.label().contains("http://a:10000"));
}

#[test]
fn committed_entries_are_applied_in_order() {
    let mut adapter = AbixioFsmAdapter::new(AbixioStateMachine::new());
    let at = |index: u64| LogPlace { term: 1, index };
    let done = adapter
        .apply(&vec![
            Committed { place: at(1), payload: Payload::Membership },
            Committed { place: at(2), payload: Payload::Normal(add_node("a")) },
            Committed { place: at(3), payload: Payload::Blank },
        ])
        .unwrap();
    assert_eq!(done.len(), 3);
    assert_eq!(adapter.last_applied, Some(at(3)));
    assert_eq!(adapter.last_membership, Some(at(1)));
    assert!(adapter.fsm.member("a").is_some());
    let first = adapter.next_snapshot_id();
    let second = adapter.next_snapshot_id();
    assert_ne!(first, second);
    adapter.install(Some(at(9)), None, State::default());
    assert_eq!(adapter.last_applied, Some(at(9)));
    assert!(adapter.fsm.member("a").is_none());
}

#[test]
fn log_bounds_are_inclusive() {
    assert_eq!(
        read_bounds(RangeEnd::Included(2), RangeEnd::Excluded(5), Some(9)),
        Some((2, 4))
    );
    assert_eq!(read_bounds(RangeEnd::Included(2), RangeEnd::Unbounded, Some(9)), Some((2, 9)));
    assert_eq!(read_bounds(RangeEnd::Included(5), RangeEnd::Excluded(5), Some(9)), None);
    assert_eq!(
        log_report(None, None, None),
        LogReport { purged: None, last: None }
    );
    assert_eq!(
        log_report(Some(1), Some(4), Some(2)).last,
        Some(LogPlace { term: 2, index: 4 })
    );
    assert_eq!(rpc_url("http://a:1/", "vote"), rpc_url("http://a:1", "vote"));
}
