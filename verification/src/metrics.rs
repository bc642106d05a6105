//! What the server counts and measures.

use vstd::prelude::*;
use vstd::string::*;

use crate::cluster::{ClusterSummary, ServiceState};
use crate::order;
use crate::time::Duration;

verus! {

/// Coarse class of a response, used as a label.
#[derive(Clone, Copy, Debug, PartialEq, Eq, Structural)]
pub enum StatusClass {
    Okay,
    ClientErr,
    ServerErr,
}

/// The label of a class.
pub open spec fn class_label(c: StatusClass) -> Seq<char> {
    match c {
        StatusClass::Okay => "ok"@,
        StatusClass::ClientErr => "client_err"@,
        StatusClass::ServerErr => "server_err"@,
    }
}

/// The class of an HTTP status.
pub open spec fn class_of(code: u16) -> StatusClass {
    if code < 400 {
        StatusClass::Okay
    } else if code < 500 {
        StatusClass::ClientErr
    } else {
        StatusClass::ServerErr
    }
}

impl StatusClass {
    /// The label of the class.
    pub fn as_str(self) -> (r: &'static str)
        ensures
            r@ == class_label(self),
    {
        match self {
            StatusClass::Okay => "ok",
            StatusClass::ClientErr => "client_err",
            StatusClass::ServerErr => "server_err",
        }
    }

    /// The class of an HTTP status.
    pub fn from_http_status(code: u16) -> (r: StatusClass)
        ensures
            r == class_of(code),
    {
        if code < 400 {
            StatusClass::Okay
        } else if code < 500 {
            StatusClass::ClientErr
        } else {
            StatusClass::ServerErr
        }
    }
}

/// How a metric behaves.
#[derive(Clone, Copy, Debug, PartialEq, Eq, Structural)]
pub enum Kind {
    /// It only grows.
    Counter,
    /// It takes any value.
    Gauge,
    /// It sorts observations into buckets.
    Histogram,
}

/// A metric.
#[derive(Clone, Copy, Debug, PartialEq, Eq, Structural)]
pub enum Metric {
    S3Requests,
    S3RequestDuration,
    S3BytesSent,
    S3BytesReceived,
    WriteCacheHits,
    WriteCacheReplicateSuccess,
    WriteCacheReplicateFail,
    ReadCacheHits,
    ReadCacheMisses,
    WriteCacheBytes,
    WriteCacheEntries,
    ReadCacheBytes,
    ReadCacheEntries,
    WalMaterialized,
    WalMaterializeFailed,
    WalPending,
    HealRepaired,
    HealUnrecoverable,
    MrfQueueDepth,
    ScannerObjectsChecked,
    ScannerLastPassSeconds,
    LifecycleDeleted,
    LifecycleDeletedVersions,
    LifecycleDeleteMarkersReaped,
    LifecycleMultipartAborted,
    LifecycleLastPassSeconds,
    DiskTotalBytes,
    DiskUsedBytes,
    DiskFreeBytes,
    ClusterState,
    ClusterReachableVoters,
    ClusterQuorum,
    ClusterEpochId,
}

/// The name of a metric.
pub open spec fn name_of(m: Metric) -> Seq<char> {
    match m {
        Metric::S3Requests => "abixio_s3_requests_total"@,
        Metric::S3RequestDuration => "abixio_s3_request_duration_seconds"@,
        Metric::S3BytesSent => "abixio_s3_bytes_sent_total"@,
        Metric::S3BytesReceived => "abixio_s3_bytes_received_total"@,
        Metric::WriteCacheHits => "abixio_write_cache_hits_total"@,
        Metric::WriteCacheReplicateSuccess => "abixio_write_cache_replicate_success_total"@,
        Metric::WriteCacheReplicateFail => "abixio_write_cache_replicate_fail_total"@,
        Metric::ReadCacheHits => "abixio_read_cache_hits_total"@,
        Metric::ReadCacheMisses => "abixio_read_cache_misses_total"@,
        Metric::WriteCacheBytes => "abixio_write_cache_bytes"@,
        Metric::WriteCacheEntries => "abixio_write_cache_entries"@,
        Metric::ReadCacheBytes => "abixio_read_cache_bytes"@,
        Metric::ReadCacheEntries => "abixio_read_cache_entries"@,
        Metric::WalMaterialized => "abixio_wal_materialized_total"@,
        Metric::WalMaterializeFailed => "abixio_wal_materialize_failed_total"@,
        Metric::WalPending => "abixio_wal_pending_entries"@,
        Metric::HealRepaired => "abixio_heal_repaired_total"@,
        Metric::HealUnrecoverable => "abixio_heal_unrecoverable_total"@,
        Metric::MrfQueueDepth => "abixio_mrf_queue_depth"@,
        Metric::ScannerObjectsChecked => "abixio_scanner_objects_checked_total"@,
        Metric::ScannerLastPassSeconds => "abixio_scanner_last_pass_seconds"@,
        Metric::LifecycleDeleted => "abixio_lifecycle_deleted_total"@,
        Metric::LifecycleDeletedVersions => "abixio_lifecycle_deleted_versions_total"@,
        Metric::LifecycleDeleteMarkersReaped => "abixio_lifecycle_delete_markers_reaped_total"@,
        Metric::LifecycleMultipartAborted => "abixio_lifecycle_multipart_aborted_total"@,
        Metric::LifecycleLastPassSeconds => "abixio_lifecycle_last_pass_seconds"@,
        Metric::DiskTotalBytes => "abixio_disk_bytes_total"@,
        Metric::DiskUsedBytes => "abixio_disk_bytes_used"@,
        Metric::DiskFreeBytes => "abixio_disk_bytes_free"@,
        Metric::ClusterState => "abixio_cluster_state"@,
        Metric::ClusterReachableVoters => "abixio_cluster_reachable_voters"@,
        Metric::ClusterQuorum => "abixio_cluster_quorum"@,
        Metric::ClusterEpochId => "abixio_cluster_epoch_id"@,
    }
}

/// What a metric says.
pub open spec fn help_of(m: Metric) -> Seq<char> {
    match m {
        Metric::S3Requests => "S3 requests served, labelled by op and status class."@,
        Metric::S3RequestDuration => "S3 request wall-clock duration, seconds."@,
        Metric::S3BytesSent => "Response body bytes sent."@,
        Metric::S3BytesReceived => "Request body bytes received."@,
        Metric::WriteCacheHits => "Reads served from the RAM write cache."@,
        Metric::WriteCacheReplicateSuccess => "Successful peer cache replications."@,
        Metric::WriteCacheReplicateFail => "Peer cache replication failures that fell through to disk."@,
        Metric::ReadCacheHits => "GETs served from the LRU read cache."@,
        Metric::ReadCacheMisses => "GETs that missed the LRU read cache and went to disk."@,
        Metric::WriteCacheBytes => "Bytes held in the write cache."@,
        Metric::WriteCacheEntries => "Entries in the write cache."@,
        Metric::ReadCacheBytes => "Bytes held in the read cache."@,
        Metric::ReadCacheEntries => "Entries in the read cache."@,
        Metric::WalMaterialized => "WAL entries materialized to the file tier."@,
        Metric::WalMaterializeFailed => "WAL materialize attempts that returned an error."@,
        Metric::WalPending => "Un-materialized entries in the WAL, per disk."@,
        Metric::HealRepaired => "Objects repaired by the heal worker."@,
        Metric::HealUnrecoverable => "Objects the heal worker could not reconstruct."@,
        Metric::MrfQueueDepth => "Pending heal requests in the MRF queue."@,
        Metric::ScannerObjectsChecked => "Objects inspected by the integrity scanner."@,
        Metric::ScannerLastPassSeconds => "Wall-clock seconds of the last scanner pass."@,
        Metric::LifecycleDeleted => "Objects deleted (or delete-markered) by lifecycle rules."@,
        Metric::LifecycleDeletedVersions => "Noncurrent versions deleted by lifecycle rules."@,
        Metric::LifecycleDeleteMarkersReaped => "Expired delete markers cleaned up by lifecycle rules."@,
        Metric::LifecycleMultipartAborted => "Incomplete multipart uploads aborted by lifecycle rules."@,
        Metric::LifecycleLastPassSeconds => "Wall-clock seconds of the last lifecycle enforcement pass."@,
        Metric::DiskTotalBytes => "Filesystem total bytes per disk."@,
        Metric::DiskUsedBytes => "Filesystem used bytes per disk."@,
        Metric::DiskFreeBytes => "Filesystem free bytes per disk."@,
        Metric::ClusterState => "One gauge per state, 1 for current, 0 otherwise."@,
        Metric::ClusterReachableVoters => "Voters reachable from this node, including self."@,
        Metric::ClusterQuorum => "Voters required for quorum."@,
        Metric::ClusterEpochId => "Current cluster epoch id."@,
    }
}

/// How a metric behaves.
pub open spec fn kind_of(m: Metric) -> Kind {
    match m {
        Metric::S3Requests => Kind::Counter,
        Metric::S3RequestDuration => Kind::Histogram,
        Metric::S3BytesSent => Kind::Counter,
        Metric::S3BytesReceived => Kind::Counter,
        Metric::WriteCacheHits => Kind::Counter,
        Metric::WriteCacheReplicateSuccess => Kind::Counter,
        Metric::WriteCacheReplicateFail => Kind::Counter,
        Metric::ReadCacheHits => Kind::Counter,
        Metric::ReadCacheMisses => Kind::Counter,
        Metric::WriteCacheBytes => Kind::Gauge,
        Metric::WriteCacheEntries => Kind::Gauge,
        Metric::ReadCacheBytes => Kind::Gauge,
        Metric::ReadCacheEntries => Kind::Gauge,
        Metric::WalMaterialized => Kind::Counter,
        Metric::WalMaterializeFailed => Kind::Counter,
        Metric::WalPending => Kind::Gauge,
        Metric::HealRepaired => Kind::Counter,
        Metric::HealUnrecoverable => Kind::Counter,
        Metric::MrfQueueDepth => Kind::Gauge,
        Metric::ScannerObjectsChecked => Kind::Counter,
        Metric::ScannerLastPassSeconds => Kind::Gauge,
        Metric::LifecycleDeleted => Kind::Counter,
        Metric::LifecycleDeletedVersions => Kind::Counter,
        Metric::LifecycleDeleteMarkersReaped => Kind::Counter,
        Metric::LifecycleMultipartAborted => Kind::Counter,
        Metric::LifecycleLastPassSeconds => Kind::Gauge,
        Metric::DiskTotalBytes => Kind::Gauge,
        Metric::DiskUsedBytes => Kind::Gauge,
        Metric::DiskFreeBytes => Kind::Gauge,
        Metric::ClusterState => Kind::Gauge,
        Metric::ClusterReachableVoters => Kind::Gauge,
        Metric::ClusterQuorum => Kind::Gauge,
        Metric::ClusterEpochId => Kind::Gauge,
    }
}

/// The names of the labels of a metric.
pub open spec fn labels_of(m: Metric) -> Seq<Seq<char>> {
    match m {
        Metric::S3Requests => seq!["op"@, "status_class"@],
        Metric::S3RequestDuration => seq!["op"@],
        Metric::S3BytesSent => seq!["op"@],
        Metric::S3BytesReceived => seq!["op"@],
        Metric::WalPending => seq!["disk"@],
        Metric::DiskTotalBytes => seq!["disk"@],
        Metric::DiskUsedBytes => seq!["disk"@],
        Metric::DiskFreeBytes => seq!["disk"@],
        Metric::ClusterState => seq!["state"@],
        _ => Seq::empty(),
    }
}

impl Metric {
    /// The name of the metric.
    pub fn name(self) -> (r: &'static str)
        ensures
            r@ == name_of(self),
    {
        match self {
            Metric::S3Requests => "abixio_s3_requests_total",
            Metric::S3RequestDuration => "abixio_s3_request_duration_seconds",
            Metric::S3BytesSent => "abixio_s3_bytes_sent_total",
            Metric::S3BytesReceived => "abixio_s3_bytes_received_total",
            Metric::WriteCacheHits => "abixio_write_cache_hits_total",
            Metric::WriteCacheReplicateSuccess => "abixio_write_cache_replicate_success_total",
            Metric::WriteCacheReplicateFail => "abixio_write_cache_replicate_fail_total",
            Metric::ReadCacheHits => "abixio_read_cache_hits_total",
            Metric::ReadCacheMisses => "abixio_read_cache_misses_total",
            Metric::WriteCacheBytes => "abixio_write_cache_bytes",
            Metric::WriteCacheEntries => "abixio_write_cache_entries",
            Metric::ReadCacheBytes => "abixio_read_cache_bytes",
            Metric::ReadCacheEntries => "abixio_read_cache_entries",
            Metric::WalMaterialized => "abixio_wal_materialized_total",
            Metric::WalMaterializeFailed => "abixio_wal_materialize_failed_total",
            Metric::WalPending => "abixio_wal_pending_entries",
            Metric::HealRepaired => "abixio_heal_repaired_total",
            Metric::HealUnrecoverable => "abixio_heal_unrecoverable_total",
            Metric::MrfQueueDepth => "abixio_mrf_queue_depth",
            Metric::ScannerObjectsChecked => "abixio_scanner_objects_checked_total",
            Metric::ScannerLastPassSeconds => "abixio_scanner_last_pass_seconds",
            Metric::LifecycleDeleted => "abixio_lifecycle_deleted_total",
            Metric::LifecycleDeletedVersions => "abixio_lifecycle_deleted_versions_total",
            Metric::LifecycleDeleteMarkersReaped => "abixio_lifecycle_delete_markers_reaped_total",
            Metric::LifecycleMultipartAborted => "abixio_lifecycle_multipart_aborted_total",
            Metric::LifecycleLastPassSeconds => "abixio_lifecycle_last_pass_seconds",
            Metric::DiskTotalBytes => "abixio_disk_bytes_total",
            Metric::DiskUsedBytes => "abixio_disk_bytes_used",
            Metric::DiskFreeBytes => "abixio_disk_bytes_free",
            Metric::ClusterState => "abixio_cluster_state",
            Metric::ClusterReachableVoters => "abixio_cluster_reachable_voters",
            Metric::ClusterQuorum => "abixio_cluster_quorum",
            Metric::ClusterEpochId => "abixio_cluster_epoch_id",
        }
    }

    /// What the metric says.
    pub fn help(self) -> (r: &'static str)
        ensures
            r@ == help_of(self),
    {
        match self {
            Metric::S3Requests => "S3 requests served, labelled by op and status class.",
            Metric::S3RequestDuration => "S3 request wall-clock duration, seconds.",
            Metric::S3BytesSent => "Response body bytes sent.",
            Metric::S3BytesReceived => "Request body bytes received.",
            Metric::WriteCacheHits => "Reads served from the RAM write cache.",
            Metric::WriteCacheReplicateSuccess => "Successful peer cache replications.",
            Metric::WriteCacheReplicateFail => "Peer cache replication failures that fell through to disk.",
            Metric::ReadCacheHits => "GETs served from the LRU read cache.",
            Metric::ReadCacheMisses => "GETs that missed the LRU read cache and went to disk.",
            Metric::WriteCacheBytes => "Bytes held in the write cache.",
            Metric::WriteCacheEntries => "Entries in the write cache.",
            Metric::ReadCacheBytes => "Bytes held in the read cache.",
            Metric::ReadCacheEntries => "Entries in the read cache.",
            Metric::WalMaterialized => "WAL entries materialized to the file tier.",
            Metric::WalMaterializeFailed => "WAL materialize attempts that returned an error.",
            Metric::WalPending => "Un-materialized entries in the WAL, per disk.",
            Metric::HealRepaired => "Objects repaired by the heal worker.",
            Metric::HealUnrecoverable => "Objects the heal worker could not reconstruct.",
            Metric::MrfQueueDepth => "Pending heal requests in the MRF queue.",
            Metric::ScannerObjectsChecked => "Objects inspected by the integrity scanner.",
            Metric::ScannerLastPassSeconds => "Wall-clock seconds of the last scanner pass.",
            Metric::LifecycleDeleted => "Objects deleted (or delete-markered) by lifecycle rules.",
            Metric::LifecycleDeletedVersions => "Noncurrent versions deleted by lifecycle rules.",
            Metric::LifecycleDeleteMarkersReaped => "Expired delete markers cleaned up by lifecycle rules.",
            Metric::LifecycleMultipartAborted => "Incomplete multipart uploads aborted by lifecycle rules.",
            Metric::LifecycleLastPassSeconds => "Wall-clock seconds of the last lifecycle enforcement pass.",
            Metric::DiskTotalBytes => "Filesystem total bytes per disk.",
            Metric::DiskUsedBytes => "Filesystem used bytes per disk.",
            Metric::DiskFreeBytes => "Filesystem free bytes per disk.",
            Metric::ClusterState => "One gauge per state, 1 for current, 0 otherwise.",
            Metric::ClusterReachableVoters => "Voters reachable from this node, including self.",
            Metric::ClusterQuorum => "Voters required for quorum.",
            Metric::ClusterEpochId => "Current cluster epoch id.",
        }
    }

    /// How the metric behaves.
    pub fn kind(self) -> (r: Kind)
        ensures
            r == kind_of(self),
    {
        match self {
            Metric::S3Requests => Kind::Counter,
            Metric::S3RequestDuration => Kind::Histogram,
            Metric::S3BytesSent => Kind::Counter,
            Metric::S3BytesReceived => Kind::Counter,
            Metric::WriteCacheHits => Kind::Counter,
            Metric::WriteCacheReplicateSuccess => Kind::Counter,
            Metric::WriteCacheReplicateFail => Kind::Counter,
            Metric::ReadCacheHits => Kind::Counter,
            Metric::ReadCacheMisses => Kind::Counter,
            Metric::WriteCacheBytes => Kind::Gauge,
            Metric::WriteCacheEntries => Kind::Gauge,
            Metric::ReadCacheBytes => Kind::Gauge,
            Metric::ReadCacheEntries => Kind::Gauge,
            Metric::WalMaterialized => Kind::Counter,
            Metric::WalMaterializeFailed => Kind::Counter,
            Metric::WalPending => Kind::Gauge,
            Metric::HealRepaired => Kind::Counter,
            Metric::HealUnrecoverable => Kind::Counter,
            Metric::MrfQueueDepth => Kind::Gauge,
            Metric::ScannerObjectsChecked => Kind::Counter,
            Metric::ScannerLastPassSeconds => Kind::Gauge,
            Metric::LifecycleDeleted => Kind::Counter,
            Metric::LifecycleDeletedVersions => Kind::Counter,
            Metric::LifecycleDeleteMarkersReaped => Kind::Counter,
            Metric::LifecycleMultipartAborted => Kind::Counter,
            Metric::LifecycleLastPassSeconds => Kind::Gauge,
            Metric::DiskTotalBytes => Kind::Gauge,
            Metric::DiskUsedBytes => Kind::Gauge,
            Metric::DiskFreeBytes => Kind::Gauge,
            Metric::ClusterState => Kind::Gauge,
            Metric::ClusterReachableVoters => Kind::Gauge,
            Metric::ClusterQuorum => Kind::Gauge,
            Metric::ClusterEpochId => Kind::Gauge,
        }
    }

    /// The names of the labels of the metric.
    pub fn labels(self) -> (r: Vec<String>)
        ensures
            order::views(r@) == labels_of(self),
    {
        let mut out: Vec<String> = Vec::new();
        match self {
            Metric::S3Requests => {
                out.push("op".to_owned());
                out.push("status_class".to_owned());
            },
            Metric::S3RequestDuration => {
                out.push("op".to_owned());
            },
            Metric::S3BytesSent => {
                out.push("op".to_owned());
            },
            Metric::S3BytesReceived => {
                out.push("op".to_owned());
            },
            Metric::WalPending => {
                out.push("disk".to_owned());
            },
            Metric::DiskTotalBytes => {
                out.push("disk".to_owned());
            },
            Metric::DiskUsedBytes => {
                out.push("disk".to_owned());
            },
            Metric::DiskFreeBytes => {
                out.push("disk".to_owned());
            },
            Metric::ClusterState => {
                out.push("state".to_owned());
            },
            _ => {},
        }
        assert(order::views(out@) =~= labels_of(self));
        out
    }

    /// All metrics.
    pub fn all() -> (r: Vec<Metric>)
        ensures
            forall|m: Metric| #[trigger] r@.contains(m),
            r@.no_duplicates(),
    {
        let mut out: Vec<Metric> = Vec::new();
        out.push(Metric::S3Requests);
        out.push(Metric::S3RequestDuration);
        out.push(Metric::S3BytesSent);
        out.push(Metric::S3BytesReceived);
        out.push(Metric::WriteCacheHits);
        out.push(Metric::WriteCacheReplicateSuccess);
        out.push(Metric::WriteCacheReplicateFail);
        out.push(Metric::ReadCacheHits);
        out.push(Metric::ReadCacheMisses);
        out.push(Metric::WriteCacheBytes);
        out.push(Metric::WriteCacheEntries);
        out.push(Metric::ReadCacheBytes);
        out.push(Metric::ReadCacheEntries);
        out.push(Metric::WalMaterialized);
        out.push(Metric::WalMaterializeFailed);
        out.push(Metric::WalPending);
        out.push(Metric::HealRepaired);
        out.push(Metric::HealUnrecoverable);
        out.push(Metric::MrfQueueDepth);
        out.push(Metric::ScannerObjectsChecked);
        out.push(Metric::ScannerLastPassSeconds);
        out.push(Metric::LifecycleDeleted);
        out.push(Metric::LifecycleDeletedVersions);
        out.push(Metric::LifecycleDeleteMarkersReaped);
        out.push(Metric::LifecycleMultipartAborted);
        out.push(Metric::LifecycleLastPassSeconds);
        out.push(Metric::DiskTotalBytes);
        out.push(Metric::DiskUsedBytes);
        out.push(Metric::DiskFreeBytes);
        out.push(Metric::ClusterState);
        out.push(Metric::ClusterReachableVoters);
        out.push(Metric::ClusterQuorum);
        out.push(Metric::ClusterEpochId);
        proof {
            assert forall|m: Metric| #[trigger] out@.contains(m) by {
                match m {
                    Metric::S3Requests => assert(out@[0] == m),
                    Metric::S3RequestDuration => assert(out@[1] == m),
                    Metric::S3BytesSent => assert(out@[2] == m),
                    Metric::S3BytesReceived => assert(out@[3] == m),
                    Metric::WriteCacheHits => assert(out@[4] == m),
                    Metric::WriteCacheReplicateSuccess => assert(out@[5] == m),
                    Metric::WriteCacheReplicateFail => assert(out@[6] == m),
                    Metric::ReadCacheHits => assert(out@[7] == m),
                    Metric::ReadCacheMisses => assert(out@[8] == m),
                    Metric::WriteCacheBytes => assert(out@[9] == m),
                    Metric::WriteCacheEntries => assert(out@[10] == m),
                    Metric::ReadCacheBytes => assert(out@[11] == m),
                    Metric::ReadCacheEntries => assert(out@[12] == m),
                    Metric::WalMaterialized => assert(out@[13] == m),
                    Metric::WalMaterializeFailed => assert(out@[14] == m),
                    Metric::WalPending => assert(out@[15] == m),
                    Metric::HealRepaired => assert(out@[16] == m),
                    Metric::HealUnrecoverable => assert(out@[17] == m),
                    Metric::MrfQueueDepth => assert(out@[18] == m),
                    Metric::ScannerObjectsChecked => assert(out@[19] == m),
                    Metric::ScannerLastPassSeconds => assert(out@[20] == m),
                    Metric::LifecycleDeleted => assert(out@[21] == m),
                    Metric::LifecycleDeletedVersions => assert(out@[22] == m),
                    Metric::LifecycleDeleteMarkersReaped => assert(out@[23] == m),
                    Metric::LifecycleMultipartAborted => assert(out@[24] == m),
                    Metric::LifecycleLastPassSeconds => assert(out@[25] == m),
                    Metric::DiskTotalBytes => assert(out@[26] == m),
                    Metric::DiskUsedBytes => assert(out@[27] == m),
                    Metric::DiskFreeBytes => assert(out@[28] == m),
                    Metric::ClusterState => assert(out@[29] == m),
                    Metric::ClusterReachableVoters => assert(out@[30] == m),
                    Metric::ClusterQuorum => assert(out@[31] == m),
                    Metric::ClusterEpochId => assert(out@[32] == m),
                }
            }
        }
        out
    }
}

/// A mark by which the names of metrics can be told apart.
spec fn mark(s: Seq<char>) -> (nat, char, char) {
    (s.len(), s[8], s[18])
}

/// No two metrics have the same name.
pub proof fn law_names_are_distinct(a: Metric, b: Metric)
    ensures
        name_of(a) == name_of(b) ==> a == b,
{
    reveal_strlit("abixio_s3_requests_total");
    reveal_strlit("abixio_s3_request_duration_seconds");
    reveal_strlit("abixio_s3_bytes_sent_total");
    reveal_strlit("abixio_s3_bytes_received_total");
    reveal_strlit("abixio_write_cache_hits_total");
    reveal_strlit("abixio_write_cache_replicate_success_total");
    reveal_strlit("abixio_write_cache_replicate_fail_total");
    reveal_strlit("abixio_read_cache_hits_total");
    reveal_strlit("abixio_read_cache_misses_total");
    reveal_strlit("abixio_write_cache_bytes");
    reveal_strlit("abixio_write_cache_entries");
    reveal_strlit("abixio_read_cache_bytes");
    reveal_strlit("abixio_read_cache_entries");
    reveal_strlit("abixio_wal_materialized_total");
    reveal_strlit("abixio_wal_materialize_failed_total");
    reveal_strlit("abixio_wal_pending_entries");
    reveal_strlit("abixio_heal_repaired_total");
    reveal_strlit("abixio_heal_unrecoverable_total");
    reveal_strlit("abixio_mrf_queue_depth");
    reveal_strlit("abixio_scanner_objects_checked_total");
    reveal_strlit("abixio_scanner_last_pass_seconds");
    reveal_strlit("abixio_lifecycle_deleted_total");
    reveal_strlit("abixio_lifecycle_deleted_versions_total");
    reveal_strlit("abixio_lifecycle_delete_markers_reaped_total");
    reveal_strlit("abixio_lifecycle_multipart_aborted_total");
    reveal_strlit("abixio_lifecycle_last_pass_seconds");
    reveal_strlit("abixio_disk_bytes_total");
    reveal_strlit("abixio_disk_bytes_used");
    reveal_strlit("abixio_disk_bytes_free");
    reveal_strlit("abixio_cluster_state");
    reveal_strlit("abixio_cluster_reachable_voters");
    reveal_strlit("abixio_cluster_quorum");
    reveal_strlit("abixio_cluster_epoch_id");
    assert(mark("abixio_s3_requests_total"@) == (24nat, '3', '_'));
    assert(mark("abixio_s3_request_duration_seconds"@) == (34nat, '3', 'd'));
    assert(mark("abixio_s3_bytes_sent_total"@) == (26nat, '3', 'n'));
    assert(mark("abixio_s3_bytes_received_total"@) == (30nat, '3', 'c'));
    assert(mark("abixio_write_cache_hits_total"@) == (29nat, 'r', '_'));
    assert(mark("abixio_write_cache_replicate_success_total"@) == (42nat, 'r', '_'));
    assert(mark("abixio_write_cache_replicate_fail_total"@) == (39nat, 'r', '_'));
    assert(mark("abixio_read_cache_hits_total"@) == (28nat, 'e', 'h'));
    assert(mark("abixio_read_cache_misses_total"@) == (30nat, 'e', 'm'));
    assert(mark("abixio_write_cache_bytes"@) == (24nat, 'r', '_'));
    assert(mark("abixio_write_cache_entries"@) == (26nat, 'r', '_'));
    assert(mark("abixio_read_cache_bytes"@) == (23nat, 'e', 'b'));
    assert(mark("abixio_read_cache_entries"@) == (25nat, 'e', 'e'));
    assert(mark("abixio_wal_materialized_total"@) == (29nat, 'a', 'l'));
    assert(mark("abixio_wal_materialize_failed_total"@) == (35nat, 'a', 'l'));
    assert(mark("abixio_wal_pending_entries"@) == (26nat, 'a', '_'));
    assert(mark("abixio_heal_repaired_total"@) == (26nat, 'e', 'e'));
    assert(mark("abixio_heal_unrecoverable_total"@) == (31nat, 'e', 'v'));
    assert(mark("abixio_mrf_queue_depth"@) == (22nat, 'r', 'e'));
    assert(mark("abixio_scanner_objects_checked_total"@) == (36nat, 'c', 'e'));
    assert(mark("abixio_scanner_last_pass_seconds"@) == (32nat, 'c', 't'));
    assert(mark("abixio_lifecycle_deleted_total"@) == (30nat, 'i', 'e'));
    assert(mark("abixio_lifecycle_deleted_versions_total"@) == (39nat, 'i', 'e'));
    assert(mark("abixio_lifecycle_delete_markers_reaped_total"@) == (44nat, 'i', 'e'));
    assert(mark("abixio_lifecycle_multipart_aborted_total"@) == (40nat, 'i', 'u'));
    assert(mark("abixio_lifecycle_last_pass_seconds"@) == (34nat, 'i', 'a'));
    assert(mark("abixio_disk_bytes_total"@) == (23nat, 'i', 't'));
    assert(mark("abixio_disk_bytes_used"@) == (22nat, 'i', 'u'));
    assert(mark("abixio_disk_bytes_free"@) == (22nat, 'i', 'f'));
    assert(mark("abixio_cluster_state"@) == (20nat, 'l', 't'));
    assert(mark("abixio_cluster_reachable_voters"@) == (31nat, 'l', 'c'));
    assert(mark("abixio_cluster_quorum"@) == (21nat, 'l', 'r'));
    assert(mark("abixio_cluster_epoch_id"@) == (23nat, 'l', 'c'));
    assert(name_of(a) == name_of(b) ==> mark(name_of(a)) == mark(name_of(b)));
}

/// A letter, a digit or an underscore.
pub open spec fn name_char(c: char) -> bool {
    ('a' <= c <= 'z') || ('0' <= c <= '9') || c == '_'
}

/// A name that a metric or a label can have: letters, digits and underscores, and no digit
/// in front.
pub open spec fn valid_name(s: Seq<char>) -> bool {
    &&& s.len() > 0
    &&& 'a' <= s[0] <= 'z'
    &&& forall|i: int| 0 <= i < s.len() ==> name_char(#[trigger] s[i])
}

/// Every metric and every label has a valid name.
pub proof fn law_names_are_valid(m: Metric)
    ensures
        valid_name(name_of(m)),
        forall|i: int| 0 <= i < labels_of(m).len() ==> valid_name(#[trigger] labels_of(m)[i]),
{
    match m {
        Metric::S3Requests => {
            reveal_strlit("abixio_s3_requests_total");
        },
        Metric::S3RequestDuration => {
            reveal_strlit("abixio_s3_request_duration_seconds");
        },
        Metric::S3BytesSent => {
            reveal_strlit("abixio_s3_bytes_sent_total");
        },
        Metric::S3BytesReceived => {
            reveal_strlit("abixio_s3_bytes_received_total");
        },
        Metric::WriteCacheHits => {
            reveal_strlit("abixio_write_cache_hits_total");
        },
        Metric::WriteCacheReplicateSuccess => {
            reveal_strlit("abixio_write_cache_replicate_success_total");
        },
        Metric::WriteCacheReplicateFail => {
            reveal_strlit("abixio_write_cache_replicate_fail_total");
        },
        Metric::ReadCacheHits => {
            reveal_strlit("abixio_read_cache_hits_total");
        },
        Metric::ReadCacheMisses => {
            reveal_strlit("abixio_read_cache_misses_total");
        },
        Metric::WriteCacheBytes => {
            reveal_strlit("abixio_write_cache_bytes");
        },
        Metric::WriteCacheEntries => {
            reveal_strlit("abixio_write_cache_entries");
        },
        Metric::ReadCacheBytes => {
            reveal_strlit("abixio_read_cache_bytes");
        },
        Metric::ReadCacheEntries => {
            reveal_strlit("abixio_read_cache_entries");
        },
        Metric::WalMaterialized => {
            reveal_strlit("abixio_wal_materialized_total");
        },
        Metric::WalMaterializeFailed => {
            reveal_strlit("abixio_wal_materialize_failed_total");
        },
        Metric::WalPending => {
            reveal_strlit("abixio_wal_pending_entries");
        },
        Metric::HealRepaired => {
            reveal_strlit("abixio_heal_repaired_total");
        },
        Metric::HealUnrecoverable => {
            reveal_strlit("abixio_heal_unrecoverable_total");
        },
        Metric::MrfQueueDepth => {
            reveal_strlit("abixio_mrf_queue_depth");
        },
        Metric::ScannerObjectsChecked => {
            reveal_strlit("abixio_scanner_objects_checked_total");
        },
        Metric::ScannerLastPassSeconds => {
            reveal_strlit("abixio_scanner_last_pass_seconds");
        },
        Metric::LifecycleDeleted => {
            reveal_strlit("abixio_lifecycle_deleted_total");
        },
        Metric::LifecycleDeletedVersions => {
            reveal_strlit("abixio_lifecycle_deleted_versions_total");
        },
        Metric::LifecycleDeleteMarkersReaped => {
            reveal_strlit("abixio_lifecycle_delete_markers_reaped_total");
        },
        Metric::LifecycleMultipartAborted => {
            reveal_strlit("abixio_lifecycle_multipart_aborted_total");
        },
        Metric::LifecycleLastPassSeconds => {
            reveal_strlit("abixio_lifecycle_last_pass_seconds");
        },
        Metric::DiskTotalBytes => {
            reveal_strlit("abixio_disk_bytes_total");
        },
        Metric::DiskUsedBytes => {
            reveal_strlit("abixio_disk_bytes_used");
        },
        Metric::DiskFreeBytes => {
            reveal_strlit("abixio_disk_bytes_free");
        },
        Metric::ClusterState => {
            reveal_strlit("abixio_cluster_state");
        },
        Metric::ClusterReachableVoters => {
            reveal_strlit("abixio_cluster_reachable_voters");
        },
        Metric::ClusterQuorum => {
            reveal_strlit("abixio_cluster_quorum");
        },
        Metric::ClusterEpochId => {
            reveal_strlit("abixio_cluster_epoch_id");
        },
    }
    assert(valid_name("disk"@)) by {
        reveal_strlit("disk");
    }
    assert(valid_name("op"@)) by {
        reveal_strlit("op");
    }
    assert(valid_name("state"@)) by {
        reveal_strlit("state");
    }
    assert(valid_name("status_class"@)) by {
        reveal_strlit("status_class");
    }
}

// ------------------------------------------------------------------- updates

/// A change of a metric.
#[derive(Debug)]
pub enum Change {
    /// A counter grows by an amount.
    Add(u64),
    /// A counter starts over at an amount.
    Restart(u64),
    /// A gauge takes a value.
    Become(i64),
    /// A histogram takes a duration.
    Observe(Duration),
}

/// A change of a metric, under the given label values.
#[derive(Debug)]
pub struct Update {
    pub metric: Metric,
    pub labels: Vec<String>,
    pub change: Change,
}

/// `Update` as a mathematical value.
pub struct UpdateModel {
    pub metric: Metric,
    pub labels: Seq<Seq<char>>,
    pub change: Change,
}

impl View for Update {
    type V = UpdateModel;

    open spec fn view(&self) -> UpdateModel {
        UpdateModel {
            metric: self.metric,
            labels: order::views(self.labels@),
            change: self.change,
        }
    }
}

/// The model of an update.
pub open spec fn update(metric: Metric, labels: Seq<Seq<char>>, change: Change) -> UpdateModel {
    UpdateModel { metric, labels, change }
}

/// Updates as mathematical values.
pub open spec fn update_views(v: Seq<Update>) -> Seq<UpdateModel> {
    v.map_values(|u: Update| u@)
}

fn push_update(list: &mut Vec<Update>, metric: Metric, labels: Vec<String>, change: Change)
    ensures
        update_views(final(list)@) == update_views(old(list)@).push(
            update(metric, order::views(labels@), change),
        ),
{
    let ghost before = update_views(list@);
    list.push(Update { metric, labels, change });
    assert(update_views(list@) =~= before.push(update(metric, order::views(labels@), change)));
}

fn no_labels() -> (r: Vec<String>)
    ensures
        order::views(r@) == Seq::<Seq<char>>::empty(),
{
    let r: Vec<String> = Vec::new();
    assert(order::views(r@) =~= Seq::<Seq<char>>::empty());
    r
}

fn one_label(label: &str) -> (r: Vec<String>)
    ensures
        order::views(r@) == seq![label@],
{
    let mut r: Vec<String> = Vec::new();
    r.push(label.to_owned());
    assert(order::views(r@) =~= seq![label@]);
    r
}

fn two_labels(first: &str, second: &str) -> (r: Vec<String>)
    ensures
        order::views(r@) == seq![first@, second@],
{
    let mut r: Vec<String> = Vec::new();
    r.push(first.to_owned());
    r.push(second.to_owned());
    assert(order::views(r@) =~= seq![first@, second@]);
    r
}

/// What a completed request changes: it is counted and timed, and its bytes are counted
/// where there are any.
pub open spec fn request_updates(
    op: Seq<char>,
    status: StatusClass,
    duration: Duration,
    bytes_in: u64,
    bytes_out: u64,
) -> Seq<UpdateModel> {
    let received = if bytes_in > 0 {
        seq![update(Metric::S3BytesReceived, seq![op], Change::Add(bytes_in))]
    } else {
        Seq::empty()
    };
    let sent = if bytes_out > 0 {
        seq![update(Metric::S3BytesSent, seq![op], Change::Add(bytes_out))]
    } else {
        Seq::empty()
    };
    seq![
        update(Metric::S3Requests, seq![op, class_label(status)], Change::Add(1)),
        update(Metric::S3RequestDuration, seq![op], Change::Observe(duration)),
    ] + received + sent
}

/// Records a completed request.
pub fn record_request(
    op: &str,
    status: StatusClass,
    duration: Duration,
    bytes_in: u64,
    bytes_out: u64,
) -> (r: Vec<Update>)
    ensures
        update_views(r@) == request_updates(op@, status, duration, bytes_in, bytes_out),
{
    let mut out: Vec<Update> = Vec::new();
    assert(update_views(out@) =~= Seq::empty());
    let both = two_labels(op, status.as_str());
    push_update(&mut out, Metric::S3Requests, both, Change::Add(1));
    push_update(
        &mut out,
        Metric::S3RequestDuration,
        one_label(op),
        Change::Observe(duration),
    );
    if bytes_in > 0 {
        push_update(&mut out, Metric::S3BytesReceived, one_label(op), Change::Add(bytes_in));
    }
    if bytes_out > 0 {
        push_update(&mut out, Metric::S3BytesSent, one_label(op), Change::Add(bytes_out));
    }
    assert(update_views(out@) =~= request_updates(op@, status, duration, bytes_in, bytes_out));
    out
}

/// Records a completed request by its HTTP status.
pub fn record_s3(
    op: &str,
    http_status: u16,
    duration: Duration,
    bytes_in: u64,
    bytes_out: u64,
) -> (r: Vec<Update>)
    ensures
        update_views(r@) == request_updates(
            op@,
            class_of(http_status),
            duration,
            bytes_in,
            bytes_out,
        ),
{
    record_request(op, StatusClass::from_http_status(http_status), duration, bytes_in, bytes_out)
}

/// The label of a state of the node.
pub open spec fn state_label(s: ServiceState) -> Seq<char> {
    match s {
        ServiceState::Ready => "Ready"@,
        ServiceState::SyncingEpoch => "SyncingEpoch"@,
        ServiceState::Fenced => "Fenced"@,
        ServiceState::Joining => "Joining"@,
    }
}

/// One where the node is in the state, zero otherwise.
pub open spec fn state_gauge(s: ServiceState, current: ServiceState) -> UpdateModel {
    update(
        Metric::ClusterState,
        seq![state_label(s)],
        Change::Become(
            if s == current {
                1
            } else {
                0
            },
        ),
    )
}

/// What is read off at every scrape: the state of the cluster, the repair queue, and what
/// the scanner and the healer have done since the process began.
pub open spec fn scrape_updates(
    state: ServiceState,
    reachable: usize,
    quorum: usize,
    epoch: u64,
    pending: usize,
    scanned: u64,
    last_scan: u64,
    healed: u64,
) -> Seq<UpdateModel> {
    let none = Seq::<Seq<char>>::empty();
    seq![
        state_gauge(ServiceState::Ready, state),
        state_gauge(ServiceState::SyncingEpoch, state),
        state_gauge(ServiceState::Fenced, state),
        state_gauge(ServiceState::Joining, state),
        update(Metric::ClusterReachableVoters, none, Change::Become(reachable as i64)),
        update(Metric::ClusterQuorum, none, Change::Become(quorum as i64)),
        update(Metric::ClusterEpochId, none, Change::Become(epoch as i64)),
        update(Metric::MrfQueueDepth, none, Change::Become(pending as i64)),
        update(Metric::ScannerObjectsChecked, none, Change::Restart(scanned)),
        update(Metric::ScannerLastPassSeconds, none, Change::Become(last_scan as i64)),
        update(Metric::HealRepaired, none, Change::Restart(healed)),
    ]
}

fn push_state(list: &mut Vec<Update>, label: &str, is_current: bool)
    ensures
        update_views(final(list)@) == update_views(old(list)@).push(
            update(
                Metric::ClusterState,
                seq![label@],
                Change::Become(
                    if is_current {
                        1
                    } else {
                        0
                    },
                ),
            ),
        ),
{
    let value: i64 = if is_current {
        1
    } else {
        0
    };
    push_update(list, Metric::ClusterState, one_label(label), Change::Become(value));
}

/// What is read off at every scrape.
pub fn scrape(
    summary: &ClusterSummary,
    pending: usize,
    scanned: u64,
    last_scan: u64,
    healed: u64,
) -> (r: Vec<Update>)
    ensures
        update_views(r@) == scrape_updates(
            summary.state,
            summary.reachable_voters,
            summary.quorum,
            summary.epoch_id,
            pending,
            scanned,
            last_scan,
            healed,
        ),
{
    let mut out: Vec<Update> = Vec::new();
    assert(update_views(out@) =~= Seq::empty());
    let state = summary.state;
    push_state(&mut out, "Ready", state == ServiceState::Ready);
    push_state(&mut out, "SyncingEpoch", state == ServiceState::SyncingEpoch);
    push_state(&mut out, "Fenced", state == ServiceState::Fenced);
    push_state(&mut out, "Joining", state == ServiceState::Joining);
    push_update(
        &mut out,
        Metric::ClusterReachableVoters,
        no_labels(),
        Change::Become(summary.reachable_voters as i64),
    );
    push_update(
        &mut out,
        Metric::ClusterQuorum,
        no_labels(),
        Change::Become(summary.quorum as i64),
    );
    push_update(
        &mut out,
        Metric::ClusterEpochId,
        no_labels(),
        Change::Become(summary.epoch_id as i64),
    );
    push_update(&mut out, Metric::MrfQueueDepth, no_labels(), Change::Become(pending as i64));
    push_update(
        &mut out,
        Metric::ScannerObjectsChecked,
        no_labels(),
        Change::Restart(scanned),
    );
    push_update(
        &mut out,
        Metric::ScannerLastPassSeconds,
        no_labels(),
        Change::Become(last_scan as i64),
    );
    push_update(&mut out, Metric::HealRepaired, no_labels(), Change::Restart(healed));
    assert(update_views(out@) =~= scrape_updates(
        state,
        summary.reachable_voters,
        summary.quorum,
        summary.epoch_id,
        pending,
        scanned,
        last_scan,
        healed,
    ));
    out
}

/// The update fits its metric: as many label values as the metric has labels, and a change
/// of its kind.
pub open spec fn fits(u: UpdateModel) -> bool {
    &&& u.labels.len() == labels_of(u.metric).len()
    &&& match u.change {
        Change::Add(_) => kind_of(u.metric) == Kind::Counter,
        Change::Restart(_) => kind_of(u.metric) == Kind::Counter,
        Change::Become(_) => kind_of(u.metric) == Kind::Gauge,
        Change::Observe(_) => kind_of(u.metric) == Kind::Histogram,
    }
}

/// Every update of a request fits its metric.
pub proof fn law_request_updates_fit(
    op: Seq<char>,
    status: StatusClass,
    duration: Duration,
    bytes_in: u64,
    bytes_out: u64,
)
    ensures
        forall|i: int|
            0 <= i < request_updates(op, status, duration, bytes_in, bytes_out).len() ==> fits(
                #[trigger] request_updates(op, status, duration, bytes_in, bytes_out)[i],
            ),
{
}

/// Every update of a scrape fits its metric, and exactly one state is marked.
pub proof fn law_scrape_updates_fit(
    state: ServiceState,
    reachable: usize,
    quorum: usize,
    epoch: u64,
    pending: usize,
    scanned: u64,
    last_scan: u64,
    healed: u64,
)
    ensures
        ({
            let u = scrape_updates(
                state,
                reachable,
                quorum,
                epoch,
                pending,
                scanned,
                last_scan,
                healed,
            );
            &&& forall|i: int| 0 <= i < u.len() ==> fits(#[trigger] u[i])
            &&& exists|i: int|
                0 <= i < 4 && (#[trigger] u[i]).change == Change::Become(1) && (forall|j: int|
                    0 <= j < 4 && j != i ==> (#[trigger] u[j]).change == Change::Become(0))
        }),
{
    let u = scrape_updates(state, reachable, quorum, epoch, pending, scanned, last_scan, healed);
    let at: int = match state {
        ServiceState::Ready => 0,
        ServiceState::SyncingEpoch => 1,
        ServiceState::Fenced => 2,
        ServiceState::Joining => 3,
    };
    assert(u[at].change == Change::Become(1));
}

} // verus!
