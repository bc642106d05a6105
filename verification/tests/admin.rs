use abixio::admin::handlers::{
    bootstrap_status, disk_info, dispatch, ftt_param, heal_params, heal_response, heal_status,
    inspect_cached, inspect_object, join_params, map_storage_status, object_params, status,
    voters_with, voters_without, AdminConfig, AdminRoute, CachedObject, DiskReport, JoinRequest,
};
use abixio::admin::stats::{scan_duration, HealStats};
use abixio::cluster::identity::ResolvedIdentity;
use abixio::cluster::{ClusterConfig, ClusterManager};
use abixio::config::Config;
use abixio::digest::sha256_hex;
use abixio::heal::worker::{HealResult, ShardRead};
use abixio::multipart::encode_part;
use abixio::query::parse_query;
use abixio::s3::request::Method;
use abixio::storage::{ErasureMeta, ObjectMeta, StorageError};
use abixio::time::Duration;

fn admin_config() -> AdminConfig {
    let identity = ResolvedIdentity {
        node_id: "n1".to_string(),
        deployment_id: "d".to_string(),
        set_id: "s".to_string(),
        advertise: "http://n1:10000".to_string(),
        peers: vec!["http://n2:10000".to_string()],
        disk_paths: vec!["/d0".to_string()],
        all_members: vec![],
    };
    let cfg = Config {
        listen: ":10000".to_string(),
        tls_cert: None,
        tls_key: None,
        nodes: vec![],
        volumes: vec!["/d0".to_string()],
        no_auth: false,
        scan_interval: "10m".to_string(),
        heal_interval: "24h".to_string(),
        mrf_workers: 2,
        write_tier: "file".to_string(),
        write_cache: 256,
    };
    AdminConfig::from_identity(&identity, &cfg)
}

#[test]
fn endpoints_go_by_path_and_method() {
    assert_eq!(dispatch("status", Method::Get), AdminRoute::Status);
    assert_eq!(dispatch("heal", Method::Get), AdminRoute::HealStatus);
    assert_eq!(dispatch("heal", Method::Post), AdminRoute::HealObject);
    assert_eq!(dispatch("raft/join", Method::Post), AdminRoute::RaftJoin);
    assert_eq!(dispatch("raft/join", Method::Get), AdminRoute::Unknown);
    assert_eq!(dispatch("bucket/b/ftt", Method::Get), AdminRoute::GetFtt("b".to_string()));
    assert_eq!(dispatch("bucket/b/ftt", Method::Put), AdminRoute::SetFtt("b".to_string()));
    assert_eq!(dispatch("bucket/b/ftt", Method::Post), AdminRoute::MethodNotAllowed);
    assert_eq!(dispatch("bucket/ftt", Method::Get), AdminRoute::Unknown);
    assert_eq!(dispatch("nope", Method::Get), AdminRoute::Unknown);
}

#[test]
fn the_status_tells_the_configuration() {
    let config = admin_config();
    assert_eq!(config.node_count, 2);
    assert!(config.auth_enabled);
    let stats = HealStats::new();
    let manager = ClusterManager::new(
        ClusterConfig {
            node_id: "n1".to_string(),
            advertise_s3: "http://n1:10000".to_string(),
            advertise_cluster: "http://n1:10000".to_string(),
            peers: vec![],
            cluster_secret: String::new(),
            disk_paths: vec!["/d0".to_string()],
        },
        None,
        1,
    );
    let r = status("1.0", &stats, 1, &config, manager.summary());
    assert_eq!(r.server, "abixio");
    assert_eq!(r.version, "1.0");
    assert_eq!(r.total_disks, 1);
    assert_eq!(r.listen, ":10000");
    let h = heal_status(3, &stats, &config);
    assert_eq!(h.mrf_pending, 3);
    assert_eq!(h.mrf_workers, 2);
    assert_eq!(h.scanner.scan_interval, "10m");
}

#[test]
fn scans_and_heals_are_counted() {
    let mut stats = HealStats::new();
    assert_eq!(stats.last_scan_started_secs_ago(), None);
    stats.scan_started();
    stats.record_scan();
    stats.record_scan();
    stats.record_heal();
    stats.scan_finished();
    assert_eq!(stats.objects_scanned, 2);
    assert_eq!(stats.objects_healed, 1);
    assert!(stats.last_scan_started_secs_ago().unwrap() < 5);
    assert!(stats.last_scan_duration_secs() < 5);
    assert!(stats.uptime_secs() < 5);
    assert_eq!(scan_duration(Some(Duration::from_secs(7)), 3), 7);
    assert_eq!(scan_duration(None, 3), 3);
    let r = heal_response(&HealResult::Repaired { shards_fixed: 2 }, &mut stats);
    assert_eq!(r.result, "repaired");
    assert_eq!(r.shards_fixed, Some(2));
    assert_eq!(stats.objects_healed, 2);
    let r = heal_response(&HealResult::Healthy, &mut stats);
    assert_eq!(r.result, "healthy");
    let r = heal_response(&HealResult::Unrecoverable, &mut stats);
    assert_eq!(r.result, "unrecoverable");
    assert_eq!(stats.objects_healed, 2);
}

#[test]
fn disks_report_what_they_hold() {
    let d = disk_info(
        1,
        &DiskReport {
            label: "/d1".to_string(),
            total_bytes: Some(100),
            used_bytes: Some(40),
            free_bytes: Some(60),
            counts: Some(vec![Some(3), None, Some(2)]),
        },
    );
    assert_eq!((d.index, d.total_bytes, d.used_bytes, d.free_bytes), (1, 100, 40, 60));
    assert!(d.online);
    assert_eq!(d.bucket_count, 3);
    assert_eq!(d.object_count, 5);
    let d = disk_info(
        0,
        &DiskReport {
            label: "/d0".to_string(),
            total_bytes: None,
            used_bytes: None,
            free_bytes: None,
            counts: None,
        },
    );
    assert!(!d.online);
    assert_eq!(d.object_count, 0);
}

fn stored(payload: &[u8]) -> Vec<Option<ShardRead>> {
    encode_part(payload, 2, 1)
        .unwrap()
        .into_iter()
        .enumerate()
        .map(|(i, shard)| {
            Some(ShardRead {
                meta: ObjectMeta {
                    size: payload.len() as u64,
                    etag: "tag".to_string(),
                    content_type: "text/plain".to_string(),
                    created_at: 1,
                    version_id: String::new(),
                    is_latest: true,
                    is_delete_marker: false,
                    erasure: ErasureMeta {
                        data: 2,
                        parity: 1,
                        index: i,
                        distribution: vec![0, 1, 2],
                        epoch_id: 1,
                        volume_ids: vec!["v0".to_string(), "v1".to_string(), "v2".to_string()],
                    },
                    checksum: sha256_hex(&shard),
                    user_metadata: vec![],
                    tags: vec![],
                },
                data: shard,
            })
        })
        .collect()
}

#[test]
fn an_inspection_tells_the_state_of_each_shard() {
    let mut reads = stored(b"inspect me");
    reads[1] = None;
    reads[2].as_mut().unwrap().data[0] ^= 1;
    let r = inspect_object("b", "k", &reads).unwrap();
    assert_eq!(r.size, 10);
    assert_eq!((r.erasure.data, r.erasure.parity), (2, 1));
    let states: Vec<&str> = r.shards.iter().map(|s| s.status).collect();
    assert_eq!(states, vec!["ok", "missing", "corrupt"]);
    assert_eq!(r.shards[0].volume_id, "v0");
    let none: Vec<Option<ShardRead>> = vec![None, None];
    assert_eq!(inspect_object("b", "k", &none).unwrap_err().status, 404);
}

#[test]
fn a_cached_object_is_described_by_its_cache_entry() {
    let mut metas: Vec<_> = stored(b"cached").into_iter().flatten().map(|r| r.meta).collect();
    metas[0].erasure.volume_ids.clear();
    metas[0].erasure.data = 9;
    metas[1].erasure.epoch_id = 4;
    let mut entry = CachedObject {
        shards: 3,
        distribution: vec![2, 1],
        metas,
        original_size: 6,
        etag: "e".to_string(),
        content_type: "text/plain".to_string(),
    };
    let r = inspect_cached("b", "k", &entry);
    assert_eq!((r.data, r.parity, r.epoch_id), (2, 1, 4));
    assert_eq!((r.size, r.location), (6, "ram_cache"));
    let disks: Vec<usize> = r.shards.iter().map(|s| s.disk).collect();
    assert_eq!(disks, vec![2, 1, 0]);
    assert!(r.shards.iter().all(|s| s.checksum_ok && s.status == "ok"));
    entry.metas.truncate(1);
    assert_eq!(inspect_cached("b", "k", &entry).data, 9);
    entry.metas.clear();
    assert_eq!(inspect_cached("b", "k", &entry).data, 0);
}

#[test]
fn parameters_are_checked() {
    assert_eq!(
        object_params(&parse_query("bucket=b&key=k%2Fl")).unwrap(),
        ("b".to_string(), "k/l".to_string())
    );
    assert_eq!(object_params(&parse_query("bucket=b")).unwrap_err().status, 400);
    assert!(heal_params(true, &parse_query("bucket=b&key=k")).is_ok());
    assert_eq!(heal_params(false, &parse_query("bucket=b&key=k")).unwrap_err().status, 503);
    assert_eq!(ftt_param(true, &parse_query("ftt=2")).unwrap(), 2);
    assert_eq!(ftt_param(true, &parse_query("ftt=x")).unwrap_err().status, 400);
    assert_eq!(ftt_param(false, &parse_query("ftt=2")).unwrap_err().status, 503);
    assert_eq!(
        join_params(&parse_query("raft_id=4&advertise_s3=http://a&advertise_cluster=http://b")).unwrap(),
        JoinRequest {
            raft_id: 4,
            advertise_s3: "http://a".to_string(),
            advertise_cluster: "http://b".to_string()
        }
    );
    assert!(join_params(&parse_query("raft_id=x")).is_err());
    assert_eq!(map_storage_status(&StorageError::ObjectNotFound), 404);
    assert_eq!(map_storage_status(&StorageError::WriteQuorum), 500);
    assert_eq!(bootstrap_status("raft is already initialized"), 409);
}

#[test]
fn leaving_undoes_joining() {
    let voters = vec![1u64, 2];
    let more = voters_with(&voters, 3);
    assert_eq!(more, vec![1, 2, 3]);
    assert_eq!(voters_without(&more, 3), voters);
    assert_eq!(voters_with(&voters, 2), voters);
}

#[test]
fn spans_are_measured_from_their_beginning() {
    let mut stats = HealStats::new();
    let begun = std::time::Instant::now();
    stats.started_at = begun - std::time::Duration::from_millis(100_900);
    assert!((100..110).contains(&stats.uptime_secs()));
    stats.last_scan_started = Some(begun - std::time::Duration::from_secs(50));
    assert!((50..60).contains(&stats.last_scan_started_secs_ago().unwrap()));
    stats.scan_finished();
    assert!((50..60).contains(&stats.last_scan_duration_secs()));
    stats.last_scan_started = Some(begun + std::time::Duration::from_secs(1000));
    stats.scan_finished();
    assert_eq!(stats.last_scan_duration_secs(), 0);
}
