use std::collections::{BTreeMap, BTreeSet};

use abixio::cluster::identity::{
    advertise_for, boot_path, build_members, deployment_id_for, derive_advertise, finalized,
    join_url, local_identity, resolve_standalone, set_id_for, standalone_identity,
    stored_identity, BootPath, Exchange, NodeIdentity, VolumeEntry, VolumeFormat,
};
use abixio::cluster::manager::{
    cluster_id_for, disk_id_for, elect_leader, normalize_endpoint, normalize_id, normalize_peers,
    status_url,
};
use abixio::cluster::placement::{PlacementPlanner, PlacementVolume};
use abixio::cluster::topology::{normalize_path, StaticTopology, TopologyError, TopologyNode, TopologyVolume};
use abixio::cluster::{
    cluster_probe_header, ClusterConfig, ClusterDiskStatus, ClusterManager, ClusterNodeStatus,
    ClusterSummary, PersistedClusterState, ServiceState,
};

fn identity(node_id: &str, volume_id: &str) -> NodeIdentity {
    NodeIdentity {
        node_id: node_id.to_string(),
        advertise: format!("http://{}:10000", node_id),
        volumes: vec![VolumeEntry { volume_id: volume_id.to_string(), index: 0 }],
    }
}

#[test]
fn deployment_id_is_deterministic() {
    let ids = vec!["node-a".to_string(), "node-b".to_string()];
    assert_eq!(deployment_id_for(&ids), deployment_id_for(&ids));
}

#[test]
fn deployment_id_differs_for_different_nodes() {
    let a = vec!["node-a".to_string()];
    let b = vec!["node-b".to_string()];
    assert_ne!(deployment_id_for(&a), deployment_id_for(&b));
}

#[test]
fn deployment_and_set_ids_differ() {
    let ids = vec!["node-a".to_string(), "node-b".to_string()];
    assert_ne!(deployment_id_for(&ids), set_id_for(&ids));
    assert_eq!(set_id_for(&ids), set_id_for(&ids));
}

#[test]
fn build_members_is_sorted_by_node_id() {
    let ids = vec![
        NodeIdentity {
            node_id: "z-node".to_string(),
            advertise: "http://z:10000".to_string(),
            volumes: vec![VolumeEntry { volume_id: "v1".to_string(), index: 0 }],
        },
        NodeIdentity {
            node_id: "a-node".to_string(),
            advertise: "http://a:10000".to_string(),
            volumes: vec![VolumeEntry { volume_id: "v2".to_string(), index: 0 }],
        },
    ];
    let members = build_members(&ids);
    assert_eq!(members[0].node_id, "a-node");
    assert_eq!(members[1].node_id, "z-node");
}

#[test]
fn members_do_not_depend_on_the_order_of_nodes() {
    let a = build_members(&[identity("n1", "v1"), identity("n2", "v2")]);
    let b = build_members(&[identity("n2", "v2"), identity("n1", "v1")]);
    assert_eq!(a, b);
}

#[test]
fn advertise_uses_host_and_port() {
    assert_eq!(advertise_for(":10000", Some("box".to_string())), "http://box:10000");
    assert_eq!(advertise_for("0.0.0.0:9000", Some("box".to_string())), "http://box:9000");
    assert_eq!(advertise_for(":10000", None), "http://127.0.0.1:10000");
    let own = derive_advertise(":10000");
    assert!(own.starts_with("http://"));
    assert!(own.ends_with(":10000"));
    assert!(own.len() > "http://:10000".len());
}

#[test]
fn boot_path_goes_by_peers_and_stored_ids() {
    let peers = vec!["http://b:1".to_string()];
    let fresh = format("n1", "v1", 0);
    let whole = standalone_identity(identity("n1", "v1"), "set".to_string(), &vec![]);
    let stored = finalized(&fresh, &whole);
    assert_eq!(boot_path(&vec![], &fresh), BootPath::Standalone);
    assert_eq!(boot_path(&peers, &stored), BootPath::Stored);
    assert_eq!(boot_path(&peers, &fresh), BootPath::Exchange);
    let half = VolumeFormat { members: None, ..stored };
    assert_eq!(boot_path(&peers, &half), BootPath::Exchange);
}

fn format(node_id: &str, volume_id: &str, index: u32) -> VolumeFormat {
    VolumeFormat {
        node_id: node_id.to_string(),
        volume_id: volume_id.to_string(),
        volume_index: index,
        deployment_id: None,
        set_id: None,
        members: None,
    }
}

#[test]
fn a_restart_finds_the_same_cluster() {
    let formats = vec![format("n1", "va", 0), format("n1", "vb", 1)];
    let local = local_identity(&formats, "http://n1:1".to_string());
    assert_eq!(local.node_id, "n1");
    assert_eq!(local.volumes[1], VolumeEntry { volume_id: "vb".to_string(), index: 1 });
    let paths = vec!["/a".to_string(), "/b".to_string()];
    let peers = vec!["http://n2:1".to_string()];
    let mut exchange = Exchange::new(local.clone(), peers.clone());
    assert_eq!(exchange.known[0], local);
    exchange.learned(identity("n2", "vc"));
    let before = exchange.resolve(&paths);
    let stored = finalized(&formats[1], &before);
    assert_eq!((stored.volume_id.as_str(), stored.volume_index), ("vb", 1));
    let after = stored_identity(local, &stored, &peers, &paths);
    assert_eq!(after.deployment_id, before.deployment_id);
    assert_eq!(after.set_id, before.set_id);
    assert_eq!(after.all_members, before.all_members);
    assert_eq!(after.all_members.len(), 3);
    assert_eq!((after.peers, after.disk_paths), (peers, paths));
}

#[test]
fn standalone_identity_is_its_own_cluster() {
    let paths = vec!["/d0".to_string()];
    let r = standalone_identity(identity("n1", "v1"), "set".to_string(), &paths);
    assert_eq!(r.node_id, "n1");
    assert_eq!(r.set_id, "set");
    assert!(r.peers.is_empty());
    assert_eq!(r.disk_paths, paths);
    assert_eq!(r.all_members.len(), 1);
    let a = resolve_standalone(identity("n1", "v1"), &paths);
    let b = resolve_standalone(identity("n1", "v1"), &paths);
    assert!(!a.set_id.is_empty());
    assert_ne!(a.set_id, b.set_id);
}

#[test]
fn exchange_completes_when_every_peer_is_known() {
    let peers = vec!["http://n2:10000".to_string()];
    let mut e = Exchange::new(identity("n1", "v1"), peers);
    assert!(!e.complete());
    assert!(e.needs_contact("http://n2:10000"));
    e.learned(identity("n2", "v2"));
    assert!(e.complete());
    assert!(!e.needs_contact("http://n2:10000"));
    let r = e.resolve(&vec!["/d0".to_string()]);
    assert_eq!(r.all_members.len(), 2);
    assert_eq!(
        r.deployment_id,
        deployment_id_for(&["n1".to_string(), "n2".to_string()])
    );
    assert!(join_url("http://n2:10000/").starts_with("http://n2:10000/"));
}

fn test_config(peers: Vec<String>) -> ClusterConfig {
    ClusterConfig {
        node_id: "node-a".to_string(),
        advertise_s3: "127.0.0.1:9000".to_string(),
        advertise_cluster: "127.0.0.1:9000".to_string(),
        peers,
        cluster_secret: String::new(),
        disk_paths: vec!["/disk".to_string()],
    }
}

fn peer_summary(cluster_id: String) -> ClusterSummary {
    ClusterSummary {
        enabled: true,
        cluster_id,
        node_id: "node-b".to_string(),
        state: ServiceState::Ready,
        epoch_id: 1,
        leader_id: "node-a".to_string(),
        peer_count: 1,
        voter_count: 2,
        reachable_voters: 2,
        quorum: 2,
        fenced_reason: None,
    }
}

#[test]
fn standalone_cluster_starts_ready() {
    let manager = ClusterManager::new(test_config(vec![]), None, 1);
    assert_eq!(manager.summary().state, ServiceState::Ready);
    assert!(!manager.blocks_data_plane());
}

#[test]
fn force_fence_blocks_data_plane() {
    let mut manager = ClusterManager::new(test_config(vec![]), None, 1);
    manager.force_fence("test fence");
    let summary = manager.summary();
    assert_eq!(summary.state, ServiceState::Fenced);
    assert_eq!(summary.fenced_reason.as_deref(), Some("test fence"));
    assert!(manager.blocks_data_plane());
}

#[test]
fn clustered_config_starts_syncing_and_blocked() {
    let cfg = test_config(vec!["node-b:9000".to_string(), "node-c:9000".to_string()]);
    let manager = ClusterManager::new(cfg, None, 1);
    let summary = manager.summary();
    assert_eq!(summary.state, ServiceState::SyncingEpoch);
    assert!(summary.enabled);
    assert!(manager.blocks_data_plane());
}

#[test]
fn normalize_peers_deduplicates_and_adds_scheme() {
    let peers = normalize_peers(&[
        "node-b:9000".to_string(),
        "http://node-b:9000/".to_string(),
        "node-c:9000".to_string(),
    ]);
    assert_eq!(
        peers,
        vec!["http://node-b:9000".to_string(), "http://node-c:9000".to_string()]
    );
}

#[test]
fn persisted_state_survives_restart() {
    let peers = vec!["http://127.0.0.1:65011".to_string()];
    let mut manager = ClusterManager::new(test_config(peers.clone()), None, 1);
    manager.force_fence("persisted fence");
    let stored = PersistedClusterState {
        summary: manager.persisted().summary.clone(),
        topology: manager.persisted().topology.clone(),
        epochs: manager.epochs(),
    };
    let reloaded = ClusterManager::new(test_config(peers), Some(stored), 2);
    let summary = reloaded.summary();
    assert_eq!(summary.state, ServiceState::Fenced);
    assert_eq!(summary.fenced_reason.as_deref(), Some("persisted fence"));
}

#[test]
fn quorum_met_transitions_cluster_to_ready() {
    let peer = "http://127.0.0.1:65021".to_string();
    let id = cluster_id_for("node-a", std::slice::from_ref(&peer));
    let mut manager = ClusterManager::new(test_config(vec![peer.clone()]), None, 1);
    let answer = peer_summary(id);
    assert!(manager.accepts_answer(&answer));
    manager.refresh_from_peers(&[(peer, answer)], 2);
    let summary = manager.summary();
    assert_eq!(summary.state, ServiceState::Ready);
    assert_eq!(summary.reachable_voters, 2);
    assert!(!manager.blocks_data_plane());
    assert_eq!(manager.nodes().len(), 2);
    assert_eq!(manager.topology().nodes.len(), 2);
    assert_eq!(manager.status_response().summary.state, ServiceState::Ready);
}

#[test]
fn quorum_loss_fences_cluster() {
    let peers = vec![
        "http://127.0.0.1:65001".to_string(),
        "http://127.0.0.1:65002".to_string(),
    ];
    let mut manager = ClusterManager::new(test_config(peers), None, 1);
    manager.refresh_from_peers(&[], 2);
    let summary = manager.summary();
    assert_eq!(summary.state, ServiceState::Fenced);
    assert_eq!(summary.reachable_voters, 1);
    assert!(summary.fenced_reason.unwrap().contains("quorum lost"));
    assert!(manager.blocks_data_plane());
    assert!(!manager.allows_mutation());
}

#[test]
fn secret_mismatch_counts_peer_as_unreachable() {
    let peer = "http://127.0.0.1:65022".to_string();
    let mut cfg = test_config(vec![peer]);
    cfg.cluster_secret = "wrong-secret".to_string();
    let mut manager = ClusterManager::new(cfg, None, 1);
    assert_eq!(manager.cluster_secret(), "wrong-secret");
    // a peer that turns the probe down gives no answer
    manager.refresh_from_peers(&[], 2);
    let summary = manager.summary();
    assert_eq!(summary.state, ServiceState::Fenced);
    assert_eq!(summary.reachable_voters, 1);
}

#[test]
fn cluster_recovers_from_fence_when_peer_returns() {
    let peer = "http://127.0.0.1:65023".to_string();
    let id = cluster_id_for("node-a", std::slice::from_ref(&peer));
    let mut manager = ClusterManager::new(test_config(vec![peer.clone()]), None, 1);
    manager.force_fence("temporary fence");
    assert_eq!(manager.summary().state, ServiceState::Fenced);
    manager.refresh_from_peers(&[(peer, peer_summary(id))], 2);
    let summary = manager.summary();
    assert_eq!(summary.state, ServiceState::Ready);
    assert_eq!(summary.fenced_reason, None);
}

#[test]
fn answers_of_another_cluster_are_not_accepted() {
    let peer = "http://127.0.0.1:65024".to_string();
    let manager = ClusterManager::new(test_config(vec![peer]), None, 1);
    assert!(!manager.accepts_answer(&peer_summary("another".to_string())));
}

#[test]
fn leader_is_the_least_node_id() {
    let id = String::new();
    assert_eq!(elect_leader("node-a", &[("p".to_string(), peer_summary(id.clone()))]), "node-a");
    assert_eq!(elect_leader("node-z", &[("p".to_string(), peer_summary(id))]), "node-b");
}

#[test]
fn names_are_normalized() {
    assert_eq!(normalize_endpoint("node-b:9000/"), "http://node-b:9000");
    assert_eq!(normalize_endpoint("https://node-b:9000"), "https://node-b:9000");
    assert_eq!(normalize_id("Node B:9"), normalize_id("Node B:9"));
    assert_ne!(disk_id_for("n", "/a"), disk_id_for("n", "/b"));
    assert!(status_url("http://b:1").ends_with("/_admin/cluster/status"));
    assert_eq!(cluster_probe_header(), "x-abixio-cluster-secret");
}

#[test]
fn one_of_two_groups_has_the_majority() {
    // of three voters, two are a majority and one is not
    let peers = vec!["http://b:1".to_string(), "http://c:1".to_string()];
    let id = cluster_id_for("node-a", &peers);
    let mut manager = ClusterManager::new(test_config(peers.clone()), None, 1);
    manager.refresh_from_peers(&[(peers[0].clone(), peer_summary(id))], 2);
    assert_eq!(manager.summary().state, ServiceState::Ready);
    manager.refresh_from_peers(&[], 3);
    assert_eq!(manager.summary().state, ServiceState::Fenced);
}

fn planner() -> PlacementPlanner {
    let mut disks = Vec::new();
    for node in 0..4 {
        for disk in 0..2 {
            let backend_index = node * 2 + disk;
            disks.push(PlacementVolume {
                backend_index,
                node_id: format!("node-{}", node + 1),
                volume_id: format!("node-{}-disk-{}", node + 1, disk + 1),
            });
        }
    }
    PlacementPlanner::new(7, "set-a", disks)
}

#[test]
fn planner_is_deterministic() {
    let planner = planner();
    let a = planner.plan("bucket", "photos/cat.jpg", 2, 2).unwrap();
    let b = planner.plan("bucket", "photos/cat.jpg", 2, 2).unwrap();
    assert_eq!(a, b);
}

#[test]
fn planner_uses_each_node_before_reusing_a_node() {
    let planner = planner();
    for data in 1..=8 {
        let record = planner.plan("bucket", "alpha", data, 0).unwrap();
        let nodes = record
            .shards
            .iter()
            .map(|shard| shard.node_id.clone())
            .collect::<Vec<_>>();
        let distinct = nodes.iter().collect::<BTreeSet<_>>().len();
        assert_eq!(distinct, data.min(4));
        if data <= 4 {
            assert_eq!(distinct, data);
        }
    }
}

#[test]
fn planner_never_duplicates_a_disk() {
    let planner = planner();
    for data in 1..=8 {
        for parity in 0..=(8 - data) {
            let record = planner.plan("bucket", "object", data, parity).unwrap();
            let disks = record
                .shards
                .iter()
                .map(|shard| shard.volume_id.clone())
                .collect::<Vec<_>>();
            let distinct = disks.iter().collect::<BTreeSet<_>>().len();
            assert_eq!(distinct, data + parity);
        }
    }
}

#[test]
fn a_larger_plan_begins_with_the_smaller() {
    let planner = planner();
    let large = planner.plan("bucket", "object", 5, 3).unwrap();
    for (data, parity) in [(1, 0), (2, 2), (3, 1), (4, 4)] {
        let small = planner.plan("bucket", "object", data, parity).unwrap();
        assert_eq!(small.shards, large.shards[..data + parity]);
    }
}

#[test]
fn planner_differs_across_keys() {
    let planner = planner();
    let a = planner.plan("bucket", "alpha", 2, 2).unwrap();
    let b = planner.plan("bucket", "beta", 2, 2).unwrap();
    assert_ne!(a.shards, b.shards);
}

#[test]
fn planner_balance_is_reasonable_across_many_keys() {
    let planner = planner();
    let mut per_node: BTreeMap<String, usize> = BTreeMap::new();
    let mut per_disk: BTreeMap<String, usize> = BTreeMap::new();

    for key_index in 0..10_000 {
        let key = format!("object-{key_index:05}");
        let record = planner.plan("bucket", &key, 2, 2).unwrap();
        for shard in record.shards {
            *per_node.entry(shard.node_id).or_default() += 1;
            *per_disk.entry(shard.volume_id).or_default() += 1;
        }
    }

    let node_mean = 10_000usize;
    for count in per_node.values() {
        let delta = count.abs_diff(node_mean);
        assert!(delta <= 1_000, "node count {} outside 10% band", count);
    }

    let disk_mean = 5_000usize;
    for count in per_disk.values() {
        let delta = count.abs_diff(disk_mean);
        assert!(delta <= 750, "disk count {} outside 15% band", count);
    }
}

#[test]
fn planner_rejects_zero_data() {
    let planner = planner();
    assert!(planner.plan("bucket", "alpha", 0, 1).is_err());
}

#[test]
fn planner_rejects_more_shards_than_disks() {
    let planner = planner();
    assert_eq!(planner.disks().len(), 8);
    assert!(planner.plan("bucket", "alpha", 8, 1).is_err());
}

fn sample_topology() -> StaticTopology {
    StaticTopology {
        cluster_id: "cluster-a".to_string(),
        epoch_id: 7,
        pool_id: "set-a".to_string(),
        nodes: vec![
            TopologyNode {
                node_id: "node-1".to_string(),
                advertise_s3: "http://node-1:9000".to_string(),
                advertise_cluster: "http://node-1:9000".to_string(),
                volumes: vec![
                    TopologyVolume {
                        volume_id: "vol-a".to_string(),
                        path: "C:/data/d1".to_string(),
                    },
                    TopologyVolume {
                        volume_id: "vol-b".to_string(),
                        path: "C:/data/d2".to_string(),
                    },
                ],
            },
            TopologyNode {
                node_id: "node-2".to_string(),
                advertise_s3: "http://node-2:9000".to_string(),
                advertise_cluster: "http://node-2:9000".to_string(),
                volumes: vec![TopologyVolume {
                    volume_id: "vol-c".to_string(),
                    path: "C:/data/d3".to_string(),
                }],
            },
        ],
    }
}

#[test]
fn topology_validation_rejects_duplicate_nodes() {
    let mut topology = sample_topology();
    topology.nodes[1].node_id = "node-1".to_string();
    assert!(topology.validate().is_err());
}

#[test]
fn topology_validation_rejects_duplicate_disks() {
    let mut topology = sample_topology();
    topology.nodes[1].volumes[0].volume_id = "vol-a".to_string();
    assert!(topology.validate().is_err());
}

#[test]
fn validate_local_node_checks_disk_paths() {
    let topology = sample_topology();
    assert!(topology
        .validate_local_node("node-1", &["C:/data/d1".to_string(), "C:/data/d2".to_string()])
        .is_ok());
    assert!(topology
        .validate_local_node("node-1", &["C:/data/d1".to_string()])
        .is_err());
}

#[test]
fn topology_errors_name_what_is_wrong() {
    assert_eq!(sample_topology().validate(), Ok(()));

    let mut t = sample_topology();
    t.cluster_id = "  ".to_string();
    assert_eq!(t.validate(), Err(TopologyError::EmptyClusterId));

    let mut t = sample_topology();
    t.epoch_id = 0;
    assert_eq!(t.validate(), Err(TopologyError::ZeroEpoch));

    let mut t = sample_topology();
    t.pool_id = String::new();
    assert_eq!(t.validate(), Err(TopologyError::EmptyPoolId));

    let mut t = sample_topology();
    t.nodes = vec![];
    assert_eq!(t.validate(), Err(TopologyError::NoNodes));

    let mut t = sample_topology();
    t.nodes[0].node_id = "\t".to_string();
    assert_eq!(t.validate(), Err(TopologyError::EmptyNodeId));

    let mut t = sample_topology();
    t.nodes[1].node_id = "node-1".to_string();
    assert_eq!(t.validate(), Err(TopologyError::DuplicateNode("node-1".to_string())));

    let mut t = sample_topology();
    t.nodes[1].volumes = vec![];
    assert_eq!(t.validate(), Err(TopologyError::NoDisks("node-2".to_string())));

    let mut t = sample_topology();
    t.nodes[0].volumes[1].volume_id = String::new();
    assert_eq!(t.validate(), Err(TopologyError::EmptyVolumeId));

    let mut t = sample_topology();
    t.nodes[1].volumes[0].volume_id = "vol-a".to_string();
    assert_eq!(t.validate(), Err(TopologyError::DuplicateVolume("vol-a".to_string())));

    let mut t = sample_topology();
    t.nodes[1].volumes[0].path = "c:\\DATA\\d1".to_string();
    assert_eq!(t.validate(), Err(TopologyError::DuplicatePath("c:/data/d1".to_string())));

    let t = sample_topology();
    assert_eq!(
        t.validate_local_node("node-9", &[]),
        Err(TopologyError::MissingNode("node-9".to_string()))
    );
    assert_eq!(
        t.validate_local_node("node-2", &["C:/data/d4".to_string()]),
        Err(TopologyError::DiskMismatch {
            node_id: "node-2".to_string(),
            expected: vec!["c:/data/d3".to_string()],
            actual: vec!["c:/data/d4".to_string()],
        })
    );
}

#[test]
fn topology_lists_peers_volumes_and_nodes() {
    let t = sample_topology();
    assert_eq!(t.peers_for("node-1"), vec!["http://node-2:9000".to_string()]);
    assert_eq!(t.node("node-2").unwrap().volumes.len(), 1);
    assert!(t.node("node-9").is_none());
    let volumes = t.placement_volumes();
    assert_eq!(volumes.len(), 3);
    assert_eq!(volumes[2].backend_index, 2);
    assert_eq!(volumes[2].volume_id, "vol-c");
    let statuses = t.volume_statuses();
    assert_eq!(statuses[1].path, "C:/data/d2");
    let nodes = t.node_statuses(ServiceState::Ready, "node-1");
    assert_eq!(nodes[0].state, ServiceState::Ready);
    assert!(nodes[0].reachable);
    assert_eq!(nodes[1].state, ServiceState::Joining);
    assert!(!nodes[1].reachable);
    assert_eq!(nodes[0].total_disks, 2);
}

fn member(node_id: &str, reachable: bool) -> ClusterNodeStatus {
    ClusterNodeStatus {
        node_id: node_id.to_string(),
        advertise_s3: format!("http://{}:9000", node_id),
        advertise_cluster: format!("http://{}:9000", node_id),
        state: ServiceState::Ready,
        voter: true,
        reachable,
        total_disks: 1,
        last_heartbeat_unix_secs: 1,
    }
}

#[test]
fn an_installed_topology_needs_a_majority() {
    let mut manager = ClusterManager::new(test_config(vec!["node-b:9000".to_string()]), None, 1);
    assert!(manager.cluster_enabled());
    assert_eq!(manager.local_node_id(), "node-a");
    let disks = vec![ClusterDiskStatus {
        disk_id: "d".to_string(),
        node_id: "node-a".to_string(),
        path: "/disk".to_string(),
    }];
    let nodes = vec![member("node-a", true), member("node-b", true), member("node-c", false)];
    manager.install_topology(4, "node-a", nodes, disks.clone(), 9);
    let summary = manager.summary();
    assert_eq!(summary.state, ServiceState::Ready);
    assert_eq!((summary.epoch_id, summary.voter_count, summary.quorum), (4, 3, 2));
    assert_eq!(summary.reachable_voters, 2);
    assert_eq!(manager.topology().disks.len(), 1);
    assert_eq!(manager.epochs()[0].committed_at_unix_secs, 9);

    let nodes = vec![member("node-a", true), member("node-b", false), member("node-c", false)];
    manager.install_topology(5, "node-a", nodes, disks, 10);
    let summary = manager.summary();
    assert_eq!(summary.state, ServiceState::Fenced);
    assert_eq!(
        summary.fenced_reason.as_deref(),
        Some("cluster quorum lost: reachable_voters=1 quorum=2")
    );
    assert_eq!(manager.epochs().len(), 1);
}

#[test]
fn paths_are_compared_without_case_and_direction() {
    assert_eq!(normalize_path("C:\\Data\\D1"), "c:/data/d1");
    assert_eq!(normalize_id("  "), "local");
    assert_eq!(normalize_id(" a "), "a");
    assert_eq!(normalize_endpoint(""), "");
}

#[test]
fn identifiers_are_short_digests() {
    let id = cluster_id_for("node-a", &[]);
    assert!(id.starts_with("abixio-"));
    assert_eq!(id.len(), "abixio-".len() + 16);
    assert_eq!(disk_id_for("n", "/a").len(), "disk-".len() + 16);
    assert_eq!(set_id_for(&["n".to_string()]).len(), "set-".len() + 16);
}
