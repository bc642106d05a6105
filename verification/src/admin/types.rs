//! What the admin interface answers.

use vstd::prelude::*;

use crate::cluster::{ClusterEpoch, ClusterNodeStatus, ClusterSummary, ClusterTopology};

verus! {

/// The state of the server.
#[derive(Debug)]
pub struct StatusResponse {
    pub server: &'static str,
    pub version: &'static str,
    pub uptime_secs: u64,
    pub default_ftt: usize,
    pub total_disks: usize,
    pub listen: String,
    pub auth_enabled: bool,
    pub scan_interval: String,
    pub heal_interval: String,
    pub mrf_workers: usize,
    pub cluster: ClusterSummary,
}

/// The disks of the server.
#[derive(Debug)]
pub struct DisksResponse {
    pub disks: Vec<DiskInfo>,
}

/// A disk.
#[derive(Debug)]
pub struct DiskInfo {
    pub index: usize,
    pub path: String,
    pub online: bool,
    pub total_bytes: u64,
    pub used_bytes: u64,
    pub free_bytes: u64,
    pub bucket_count: usize,
    pub object_count: usize,
}

/// The state of healing.
#[derive(Debug)]
pub struct HealStatusResponse {
    pub mrf_pending: usize,
    pub mrf_workers: usize,
    pub scanner: ScannerStatus,
}

/// The state of the scanner.
#[derive(Debug)]
pub struct ScannerStatus {
    pub running: bool,
    pub scan_interval: String,
    pub heal_interval: String,
    pub objects_scanned: u64,
    pub objects_healed: u64,
    pub last_scan_started: u64,
    pub last_scan_duration_secs: u64,
}

/// An object and where its shards are.
#[derive(Debug)]
pub struct ObjectInspectResponse {
    pub bucket: String,
    pub key: String,
    pub size: u64,
    pub etag: String,
    pub content_type: String,
    pub created_at: u64,
    pub erasure: ErasureInfo,
    pub shards: Vec<ShardInfo>,
}

/// How an object is cut into shards.
#[derive(Debug)]
pub struct ErasureInfo {
    pub data: usize,
    pub parity: usize,
    pub epoch_id: u64,
    pub volume_ids: Vec<String>,
}

/// A shard of an object.
#[derive(Debug)]
pub struct ShardInfo {
    pub index: usize,
    pub disk: usize,
    pub volume_id: String,
    pub status: &'static str,
    pub checksum: Option<String>,
}

/// An object that is still in the write cache.
#[derive(Debug)]
pub struct CachedInspectResponse {
    pub bucket: String,
    pub key: String,
    pub size: u64,
    pub etag: String,
    pub content_type: String,
    pub data: usize,
    pub parity: usize,
    pub epoch_id: u64,
    pub shards: Vec<CachedShardInfo>,
    pub location: &'static str,
}

/// A shard in the write cache.
#[derive(Debug)]
pub struct CachedShardInfo {
    pub index: usize,
    pub disk: usize,
    pub status: &'static str,
    pub location: &'static str,
    pub checksum_ok: bool,
}

/// What came of a heal request.
#[derive(Debug)]
pub struct HealResponse {
    pub result: String,
    pub shards_fixed: Option<usize>,
    pub error: Option<String>,
}

/// The nodes of the cluster.
#[derive(Debug)]
pub struct ClusterNodesResponse {
    pub nodes: Vec<ClusterNodeStatus>,
}

/// The epochs of the cluster.
#[derive(Debug)]
pub struct ClusterEpochsResponse {
    pub epochs: Vec<ClusterEpoch>,
}

/// The topology of the cluster.
#[derive(Debug)]
pub struct ClusterTopologyResponse {
    pub topology: ClusterTopology,
}

} // verus!
