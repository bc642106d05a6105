//! Requests to the admin interface.

use vstd::prelude::*;
use vstd::string::*;

use super::stats::HealStats;
use super::types::{
    CachedInspectResponse, CachedShardInfo, DiskInfo, ErasureInfo, HealResponse, HealStatusResponse,
    ObjectInspectResponse, ScannerStatus, ShardInfo, StatusResponse,
};
use crate::cluster::identity::ResolvedIdentity;
use crate::cluster::ClusterSummary;
use crate::config::Config;
use crate::digest;
use crate::heal::worker;
use crate::heal::worker::{HealResult, ShardRead};
use crate::order;
use crate::query;
use crate::s3::request::Method;
use crate::split;
use crate::storage;
use crate::storage::{MetaModel, ObjectMeta, StorageError};
use crate::strmap::StringMap;
use crate::text;
use crate::time;

verus! {

/// What the admin interface knows of the server's configuration.
#[derive(Clone, Debug)]
pub struct AdminConfig {
    pub listen: String,
    pub total_disks: usize,
    pub auth_enabled: bool,
    pub scan_interval: String,
    pub heal_interval: String,
    pub mrf_workers: usize,
    pub node_id: String,
    pub advertise_s3: String,
    pub advertise_cluster: String,
    pub node_count: usize,
}

impl AdminConfig {
    /// The configuration of a node with the given identity.
    pub fn from_identity(identity: &ResolvedIdentity, cfg: &Config) -> (r: Self)
        requires
            identity.peers@.len() < usize::MAX,
        ensures
            r.listen@ == cfg.listen@,
            r.total_disks == cfg.volumes@.len(),
            r.auth_enabled == !cfg.no_auth,
            r.scan_interval@ == cfg.scan_interval@,
            r.heal_interval@ == cfg.heal_interval@,
            r.mrf_workers == cfg.mrf_workers,
            r.node_id@ == identity.node_id@,
            r.advertise_s3@ == identity.advertise@,
            r.advertise_cluster@ == identity.advertise@,
            r.node_count == identity.peers@.len() + 1,
    {
        AdminConfig {
            listen: cfg.listen.clone(),
            total_disks: cfg.volumes.len(),
            auth_enabled: !cfg.no_auth,
            scan_interval: cfg.scan_interval.clone(),
            heal_interval: cfg.heal_interval.clone(),
            mrf_workers: cfg.mrf_workers,
            node_id: identity.node_id.clone(),
            advertise_s3: identity.advertise.clone(),
            advertise_cluster: identity.advertise.clone(),
            node_count: identity.peers.len() + 1,
        }
    }
}

/// A request that the admin interface turns down: HTTP status and message.
#[derive(Debug, PartialEq, Eq)]
pub struct AdminError {
    pub status: u16,
    pub message: String,
}

/// The error carries this status and message.
pub open spec fn refuses(e: AdminError, status: u16, message: Seq<char>) -> bool {
    e.status == status && e.message@ == message
}

fn refuse(status: u16, message: &str) -> (e: AdminError)
    ensures
        refuses(e, status, message@),
{
    AdminError { status, message: message.to_owned() }
}

// ------------------------------------------------------------------- routing

/// What a request to the admin interface asks for.
#[derive(Debug, PartialEq, Eq)]
pub enum AdminRoute {
    Status,
    Disks,
    HealStatus,
    HealObject,
    InspectObject,
    Flush,
    Metrics,
    RaftPeers,
    RaftPrimary,
    RaftSnapshot,
    RaftBootstrap,
    RaftJoin,
    RaftLeave,
    ClusterStatus,
    ClusterNodes,
    ClusterEpochs,
    ClusterTopology,
    /// How many failures the objects of this bucket tolerate.
    GetFtt(String),
    /// The same, to be set.
    SetFtt(String),
    /// The endpoint does not go by this method.
    MethodNotAllowed,
    /// There is no such endpoint.
    Unknown,
}

/// What a request asks for, as a mathematical value.
pub enum RouteModel {
    Status,
    Disks,
    HealStatus,
    HealObject,
    InspectObject,
    Flush,
    Metrics,
    RaftPeers,
    RaftPrimary,
    RaftSnapshot,
    RaftBootstrap,
    RaftJoin,
    RaftLeave,
    ClusterStatus,
    ClusterNodes,
    ClusterEpochs,
    ClusterTopology,
    GetFtt(Seq<char>),
    SetFtt(Seq<char>),
    MethodNotAllowed,
    Unknown,
}

impl View for AdminRoute {
    type V = RouteModel;

    open spec fn view(&self) -> RouteModel {
        match self {
            AdminRoute::Status => RouteModel::Status,
            AdminRoute::Disks => RouteModel::Disks,
            AdminRoute::HealStatus => RouteModel::HealStatus,
            AdminRoute::HealObject => RouteModel::HealObject,
            AdminRoute::InspectObject => RouteModel::InspectObject,
            AdminRoute::Flush => RouteModel::Flush,
            AdminRoute::Metrics => RouteModel::Metrics,
            AdminRoute::RaftPeers => RouteModel::RaftPeers,
            AdminRoute::RaftPrimary => RouteModel::RaftPrimary,
            AdminRoute::RaftSnapshot => RouteModel::RaftSnapshot,
            AdminRoute::RaftBootstrap => RouteModel::RaftBootstrap,
            AdminRoute::RaftJoin => RouteModel::RaftJoin,
            AdminRoute::RaftLeave => RouteModel::RaftLeave,
            AdminRoute::ClusterStatus => RouteModel::ClusterStatus,
            AdminRoute::ClusterNodes => RouteModel::ClusterNodes,
            AdminRoute::ClusterEpochs => RouteModel::ClusterEpochs,
            AdminRoute::ClusterTopology => RouteModel::ClusterTopology,
            AdminRoute::GetFtt(b) => RouteModel::GetFtt(b@),
            AdminRoute::SetFtt(b) => RouteModel::SetFtt(b@),
            AdminRoute::MethodNotAllowed => RouteModel::MethodNotAllowed,
            AdminRoute::Unknown => RouteModel::Unknown,
        }
    }
}

/// The endpoint at a fixed path, for a `GET`.
pub open spec fn get_route(path: Seq<char>) -> Option<RouteModel> {
    if path == "status"@ {
        Some(RouteModel::Status)
    } else if path == "disks"@ {
        Some(RouteModel::Disks)
    } else if path == "heal"@ {
        Some(RouteModel::HealStatus)
    } else if path == "object"@ {
        Some(RouteModel::InspectObject)
    } else if path == "metrics"@ {
        Some(RouteModel::Metrics)
    } else if path == "raft/peers"@ {
        Some(RouteModel::RaftPeers)
    } else if path == "raft/primary"@ {
        Some(RouteModel::RaftPrimary)
    } else if path == "cluster/status"@ {
        Some(RouteModel::ClusterStatus)
    } else if path == "cluster/nodes"@ {
        Some(RouteModel::ClusterNodes)
    } else if path == "cluster/epochs"@ {
        Some(RouteModel::ClusterEpochs)
    } else if path == "cluster/topology"@ {
        Some(RouteModel::ClusterTopology)
    } else {
        None
    }
}

/// The endpoint at a fixed path, for a `POST`.
pub open spec fn post_route(path: Seq<char>) -> Option<RouteModel> {
    if path == "heal"@ {
        Some(RouteModel::HealObject)
    } else if path == "flush"@ {
        Some(RouteModel::Flush)
    } else if path == "raft/snapshot"@ {
        Some(RouteModel::RaftSnapshot)
    } else if path == "raft/bootstrap"@ {
        Some(RouteModel::RaftBootstrap)
    } else if path == "raft/join"@ {
        Some(RouteModel::RaftJoin)
    } else if path == "raft/leave"@ {
        Some(RouteModel::RaftLeave)
    } else {
        None
    }
}

/// The bucket in a path `bucket/<name>/ftt`.
pub open spec fn ftt_bucket(path: Seq<char>) -> Option<Seq<char>> {
    let head = "bucket/"@;
    let tail = "/ftt"@;
    if text::has_prefix(path, head) && text::has_suffix(path, tail) && path.len() >= head.len()
        + tail.len() {
        Some(path.subrange(head.len() as int, path.len() - tail.len()))
    } else {
        None
    }
}

/// What a request asks for.
pub open spec fn admin_route(path: Seq<char>, method: Method) -> RouteModel {
    let fixed = match method {
        Method::Get => get_route(path),
        Method::Post => post_route(path),
        _ => None,
    };
    match fixed {
        Some(r) => r,
        None => match ftt_bucket(path) {
            Some(bucket) => match method {
                Method::Get => RouteModel::GetFtt(bucket),
                Method::Put => RouteModel::SetFtt(bucket),
                _ => RouteModel::MethodNotAllowed,
            },
            None => RouteModel::Unknown,
        },
    }
}

fn route_get(path: &str) -> (r: Option<AdminRoute>)
    ensures
        match r {
            Some(x) => get_route(path@) == Some(x@),
            None => get_route(path@) is None,
        },
{
    if text::str_eq(path, "status") {
        Some(AdminRoute::Status)
    } else if text::str_eq(path, "disks") {
        Some(AdminRoute::Disks)
    } else if text::str_eq(path, "heal") {
        Some(AdminRoute::HealStatus)
    } else if text::str_eq(path, "object") {
        Some(AdminRoute::InspectObject)
    } else if text::str_eq(path, "metrics") {
        Some(AdminRoute::Metrics)
    } else if text::str_eq(path, "raft/peers") {
        Some(AdminRoute::RaftPeers)
    } else if text::str_eq(path, "raft/primary") {
        Some(AdminRoute::RaftPrimary)
    } else if text::str_eq(path, "cluster/status") {
        Some(AdminRoute::ClusterStatus)
    } else if text::str_eq(path, "cluster/nodes") {
        Some(AdminRoute::ClusterNodes)
    } else if text::str_eq(path, "cluster/epochs") {
        Some(AdminRoute::ClusterEpochs)
    } else if text::str_eq(path, "cluster/topology") {
        Some(AdminRoute::ClusterTopology)
    } else {
        None
    }
}

fn route_post(path: &str) -> (r: Option<AdminRoute>)
    ensures
        match r {
            Some(x) => post_route(path@) == Some(x@),
            None => post_route(path@) is None,
        },
{
    if text::str_eq(path, "heal") {
        Some(AdminRoute::HealObject)
    } else if text::str_eq(path, "flush") {
        Some(AdminRoute::Flush)
    } else if text::str_eq(path, "raft/snapshot") {
        Some(AdminRoute::RaftSnapshot)
    } else if text::str_eq(path, "raft/bootstrap") {
        Some(AdminRoute::RaftBootstrap)
    } else if text::str_eq(path, "raft/join") {
        Some(AdminRoute::RaftJoin)
    } else if text::str_eq(path, "raft/leave") {
        Some(AdminRoute::RaftLeave)
    } else {
        None
    }
}

fn bucket_in(path: &str) -> (r: Option<String>)
    ensures
        storage::opt_view(r) == ftt_bucket(path@),
{
    let chars = text::chars_of(path);
    let head = text::chars_of("bucket/").len();
    let tail = text::chars_of("/ftt").len();
    proof {
        reveal_strlit("bucket/");
        reveal_strlit("/ftt");
    }
    if text::starts_with(path, "bucket/") && text::ends_with(path, "/ftt") && chars.len() >= head
        + tail {
        Some(text::string_of(chars.as_slice(), head, chars.len() - tail))
    } else {
        None
    }
}

/// What a request to the admin interface asks for.
pub fn dispatch(path: &str, method: Method) -> (r: AdminRoute)
    ensures
        r@ == admin_route(path@, method),
{
    let fixed: Option<AdminRoute> = match method {
        Method::Get => route_get(path),
        Method::Post => route_post(path),
        _ => None,
    };
    if let Some(r) = fixed {
        return r;
    }
    match bucket_in(path) {
        Some(bucket) => match method {
            Method::Get => AdminRoute::GetFtt(bucket),
            Method::Put => AdminRoute::SetFtt(bucket),
            _ => AdminRoute::MethodNotAllowed,
        },
        None => AdminRoute::Unknown,
    }
}

/// A `GET` asks the admin interface for nothing that changes anything.
pub proof fn law_get_only_asks(path: Seq<char>)
    ensures
        ({
            let r = admin_route(path, Method::Get);
            !(r is HealObject || r is Flush || r is RaftSnapshot || r is RaftBootstrap
                || r is RaftJoin || r is RaftLeave || r is SetFtt)
        }),
{
}

// -------------------------------------------------------------------- status

/// The state of the server.
pub fn status(
    version: &'static str,
    stats: &HealStats,
    default_ftt: usize,
    config: &AdminConfig,
    cluster: ClusterSummary,
) -> (r: StatusResponse)
    ensures
        r.server@ == "abixio"@,
        r.version@ == version@,
        exists|now: std::time::Instant|
            r.uptime_secs == #[trigger] time::secs_between(stats.started_at, now),
        r.default_ftt == default_ftt,
        r.total_disks == config.total_disks,
        r.listen@ == config.listen@,
        r.auth_enabled == config.auth_enabled,
        r.scan_interval@ == config.scan_interval@,
        r.heal_interval@ == config.heal_interval@,
        r.mrf_workers == config.mrf_workers,
        r.cluster == cluster,
{
    StatusResponse {
        server: "abixio",
        version,
        uptime_secs: stats.uptime_secs(),
        default_ftt,
        total_disks: config.total_disks,
        listen: config.listen.clone(),
        auth_enabled: config.auth_enabled,
        scan_interval: config.scan_interval.clone(),
        heal_interval: config.heal_interval.clone(),
        mrf_workers: config.mrf_workers,
        cluster,
    }
}

/// The state of healing.
pub fn heal_status(pending: usize, stats: &HealStats, config: &AdminConfig) -> (r:
    HealStatusResponse)
    ensures
        r.mrf_pending == pending,
        r.mrf_workers == config.mrf_workers,
        r.scanner.running,
        r.scanner.scan_interval@ == config.scan_interval@,
        r.scanner.heal_interval@ == config.heal_interval@,
        r.scanner.objects_scanned == stats.objects_scanned,
        r.scanner.objects_healed == stats.objects_healed,
        match stats.last_scan_started {
            Some(at) => exists|now: std::time::Instant|
                r.scanner.last_scan_started == #[trigger] time::secs_between(at, now),
            None => r.scanner.last_scan_started == 0,
        },
        r.scanner.last_scan_duration_secs == stats.last_scan_duration_secs,
{
    let ago: u64 = match stats.last_scan_started_secs_ago() {
        Some(s) => s,
        None => 0,
    };
    HealStatusResponse {
        mrf_pending: pending,
        mrf_workers: config.mrf_workers,
        scanner: ScannerStatus {
            running: true,
            scan_interval: config.scan_interval.clone(),
            heal_interval: config.heal_interval.clone(),
            objects_scanned: stats.objects_scanned,
            objects_healed: stats.objects_healed,
            last_scan_started: ago,
            last_scan_duration_secs: stats.last_scan_duration_secs(),
        },
    }
}

/// How many objects the buckets of a disk hold; a bucket that cannot be listed has none.
pub open spec fn objects_in(counts: Seq<Option<usize>>, n: nat) -> nat
    decreases n,
{
    if n == 0 {
        0
    } else {
        objects_in(counts, (n - 1) as nat) + (match counts[n - 1] {
            Some(k) => k as nat,
            None => 0,
        })
    }
}

/// What a disk reports of itself.
pub struct DiskReport {
    pub label: String,
    pub total_bytes: Option<u64>,
    pub used_bytes: Option<u64>,
    pub free_bytes: Option<u64>,
    /// How many objects each bucket holds, where it can be listed; nothing where the
    /// buckets cannot.
    pub counts: Option<Vec<Option<usize>>>,
}

proof fn lemma_objects_grow(counts: Seq<Option<usize>>, n: nat, m: nat)
    requires
        n <= m <= counts.len(),
    ensures
        objects_in(counts, n) <= objects_in(counts, m),
    decreases m,
{
    if n < m {
        lemma_objects_grow(counts, n, (m - 1) as nat);
    }
}

/// Describes a disk. One that does not tell its size is offline, and nothing is counted on
/// it.
pub fn disk_info(index: usize, report: &DiskReport) -> (r: DiskInfo)
    requires
        report.counts matches Some(c) ==> objects_in(c@, c@.len()) <= usize::MAX,
    ensures
        r.index == index,
        r.path@ == report.label@,
        r.online == report.total_bytes is Some,
        r.total_bytes == (match report.total_bytes {
            Some(n) => n,
            None => 0,
        }),
        r.used_bytes == (match report.used_bytes {
            Some(n) => n,
            None => 0,
        }),
        r.free_bytes == (match report.free_bytes {
            Some(n) => n,
            None => 0,
        }),
        report.total_bytes is None || report.counts is None ==> r.bucket_count == 0
            && r.object_count == 0,
        report.total_bytes is Some ==> (report.counts matches Some(c) ==> r.bucket_count
            == c@.len() && r.object_count == objects_in(c@, c@.len())),
{
    let mut bucket_count: usize = 0;
    let mut object_count: usize = 0;
    if report.total_bytes.is_some() {
        if let Some(counts) = &report.counts {
            bucket_count = counts.len();
            let mut i: usize = 0;
            while i < counts.len()
                invariant
                    i <= counts@.len(),
                    objects_in(counts@, counts@.len()) <= usize::MAX,
                    object_count == objects_in(counts@, i as nat),
                decreases counts@.len() - i,
            {
                proof {
                    lemma_objects_grow(counts@, (i + 1) as nat, counts@.len());
                }
                if let Some(k) = counts[i] {
                    object_count = object_count + k;
                }
                i = i + 1;
            }
        }
    }
    DiskInfo {
        index,
        path: report.label.clone(),
        online: report.total_bytes.is_some(),
        total_bytes: match report.total_bytes {
            Some(n) => n,
            None => 0,
        },
        used_bytes: match report.used_bytes {
            Some(n) => n,
            None => 0,
        },
        free_bytes: match report.free_bytes {
            Some(n) => n,
            None => 0,
        },
        bucket_count,
        object_count,
    }
}

// ---------------------------------------------------------------- inspection

/// Bucket and key that a request names, or what it lacks.
pub fn object_params(params: &StringMap<String>) -> (r: Result<(String, String), AdminError>)
    ensures
        ({
            let m = query::texts(params@);
            match r {
                Ok(p) => query::value_of(m, "bucket"@) == Some(p.0@) && query::value_of(m, "key"@)
                    == Some(p.1@),
                Err(e) => if query::value_of(m, "bucket"@) is None {
                    refuses(e, 400, "missing bucket parameter"@)
                } else {
                    query::value_of(m, "key"@) is None && refuses(e, 400, "missing key parameter"@)
                },
            }
        }),
{
    let bucket = match query::lookup(params, "bucket") {
        Some(b) => b.to_owned(),
        None => {
            return Err(refuse(400, "missing bucket parameter"));
        },
    };
    match query::lookup(params, "key") {
        Some(k) => Ok((bucket, k.to_owned())),
        None => Err(refuse(400, "missing key parameter")),
    }
}

/// The last of the first `n` disks that holds shard `s`.
pub open spec fn holder(reads: Seq<Option<ShardRead>>, s: int, n: nat) -> Option<int>
    decreases n,
{
    if n == 0 {
        None
    } else if reads[n - 1] matches Some(x) && x.meta.erasure.index == s {
        Some(n - 1)
    } else {
        holder(reads, s, (n - 1) as nat)
    }
}

/// The volume of a shard: that of the metadata, or one named after a number.
pub open spec fn volume_of(meta: MetaModel, s: int, other: int) -> Seq<char> {
    if s < meta.erasure.volume_ids.len() {
        meta.erasure.volume_ids[s]
    } else {
        "vol-"@ + text::decimal(other as nat)
    }
}

/// The shard belongs to the write and its digest fits.
pub open spec fn sound(read: ShardRead, meta: MetaModel) -> bool {
    storage::same_write(read.meta@, meta) && digest::hex_chars(
        digest::sha256_digest(read.data@),
    ) == read.meta.checksum@
}

/// The entry tells where shard `s` is, by what the first `n` disks hold.
pub open spec fn tells(
    e: ShardInfo,
    s: int,
    meta: MetaModel,
    reads: Seq<Option<ShardRead>>,
    n: nat,
) -> bool {
    &&& e.index == s
    &&& match holder(reads, s, n) {
        Some(d) => {
            &&& e.disk == d
            &&& e.volume_id@ == volume_of(meta, s, d)
            &&& e.status@ == (if sound(reads[d]->0, meta) {
                "ok"@
            } else {
                "corrupt"@
            })
            &&& storage::opt_view(e.checksum) == Some(reads[d]->0.meta.checksum@)
        },
        None => {
            &&& e.disk == s
            &&& e.volume_id@ == volume_of(meta, s, s)
            &&& e.status@ == "missing"@
            &&& e.checksum is None
        },
    }
}

fn name_volume(meta: &ObjectMeta, s: usize, other: usize) -> (r: String)
    ensures
        r@ == volume_of(meta@, s as int, other as int),
{
    if s < meta.erasure.volume_ids.len() {
        meta.erasure.volume_ids[s].clone()
    } else {
        let mut out = "vol-".to_owned();
        out.append(text::decimal_u64(other as u64).as_str());
        out
    }
}

fn is_shard(read: &Option<ShardRead>, s: usize) -> (r: bool)
    ensures
        r == (read matches Some(x) && x.meta.erasure.index == s),
{
    match read {
        Some(x) => x.meta.erasure.index == s,
        None => false,
    }
}

/// Tells where each of the shards of an object is.
pub fn shard_table(meta: &ObjectMeta, reads: &Vec<Option<ShardRead>>, total: usize) -> (r: Vec<
    ShardInfo,
>)
    ensures
        r@.len() == total,
        forall|s: int|
            0 <= s < total ==> tells(#[trigger] r@[s], s, meta@, reads@, reads@.len()),
{
    let mut out: Vec<ShardInfo> = Vec::new();
    while out.len() < total
        invariant
            out@.len() <= total,
            forall|s: int|
                0 <= s < out@.len() ==> tells(#[trigger] out@[s], s, meta@, reads@, reads@.len()),
        decreases total - out@.len(),
    {
        let s: usize = out.len();
        let mut n: usize = reads.len();
        while n > 0 && !is_shard(&reads[n - 1], s)
            invariant
                n <= reads@.len(),
                holder(reads@, s as int, reads@.len()) == holder(reads@, s as int, n as nat),
            ensures
                n <= reads@.len(),
                holder(reads@, s as int, reads@.len()) == (if n == 0 {
                    None::<int>
                } else {
                    Some(n - 1)
                }),
                n > 0 ==> reads@[n - 1] is Some,
            decreases n,
        {
            n = n - 1;
        }
        if n == 0 {
            out.push(
                ShardInfo {
                    index: s,
                    disk: s,
                    volume_id: name_volume(meta, s, s),
                    status: "missing",
                    checksum: None,
                },
            );
        } else {
            let d: usize = n - 1;
            if let Some(read) = &reads[d] {
                let status: &'static str = if worker::shard_intact(read, meta) {
                    "ok"
                } else {
                    "corrupt"
                };
                out.push(
                    ShardInfo {
                        index: s,
                        disk: d,
                        volume_id: name_volume(meta, s, d),
                        status,
                        checksum: Some(read.meta.checksum.clone()),
                    },
                );
            }
        }
    }
    out
}

/// The response describes the object by what the disks hold of it; the first disk that
/// holds anything gives the metadata.
pub open spec fn inspects(
    r: ObjectInspectResponse,
    bucket: Seq<char>,
    key: Seq<char>,
    reads: Seq<Option<ShardRead>>,
) -> bool {
    &&& worker::first_read(reads, 0) matches Some(f)
    &&& {
        let meta = reads[f]->0.meta@;
        &&& r.bucket@ == bucket
        &&& r.key@ == key
        &&& r.size == meta.size
        &&& r.etag@ == meta.etag
        &&& r.content_type@ == meta.content_type
        &&& r.created_at == meta.created_at
        &&& r.erasure.data == meta.erasure.data
        &&& r.erasure.parity == meta.erasure.parity
        &&& r.erasure.epoch_id == meta.erasure.epoch_id
        &&& order::views(r.erasure.volume_ids@) == meta.erasure.volume_ids
        &&& r.shards@.len() == meta.erasure.data + meta.erasure.parity
        &&& forall|s: int|
            0 <= s < r.shards@.len() ==> tells(#[trigger] r.shards@[s], s, meta, reads, reads.len())
    }
}

fn find_first(reads: &Vec<Option<ShardRead>>) -> (r: Option<usize>)
    ensures
        match r {
            Some(i) => worker::first_read(reads@, 0) == Some(i as int) && i < reads@.len()
                && reads@[i as int] is Some,
            None => worker::first_read(reads@, 0) is None,
        },
{
    let mut i: usize = 0;
    while i < reads.len()
        invariant
            i <= reads@.len(),
            worker::first_read(reads@, 0) == worker::first_read(reads@, i as int),
        decreases reads@.len() - i,
    {
        if reads[i].is_some() {
            return Some(i);
        }
        i = i + 1;
    }
    None
}

/// Describes an object by what each disk holds of it.
pub fn inspect_object(bucket: &str, key: &str, reads: &Vec<Option<ShardRead>>) -> (r: Result<
    ObjectInspectResponse,
    AdminError,
>)
    requires
        forall|i: int|
            0 <= i < reads@.len() ==> ((#[trigger] reads@[i]) matches Some(x)
                ==> x.meta.erasure.data + x.meta.erasure.parity <= usize::MAX),
    ensures
        match r {
            Ok(x) => inspects(x, bucket@, key@, reads@),
            Err(e) => worker::first_read(reads@, 0) is None && refuses(
                e,
                404,
                "object not found on any disk"@,
            ),
        },
{
    let f: usize = match find_first(reads) {
        Some(i) => i,
        None => {
            return Err(refuse(404, "object not found on any disk"));
        },
    };
    match &reads[f] {
        Some(read) => {
            let meta = &read.meta;
            let total: usize = meta.erasure.data + meta.erasure.parity;
            let shards = shard_table(meta, reads, total);
            Ok(
                ObjectInspectResponse {
                    bucket: bucket.to_owned(),
                    key: key.to_owned(),
                    size: meta.size,
                    etag: meta.etag.clone(),
                    content_type: meta.content_type.clone(),
                    created_at: meta.created_at,
                    erasure: ErasureInfo {
                        data: meta.erasure.data,
                        parity: meta.erasure.parity,
                        epoch_id: meta.erasure.epoch_id,
                        volume_ids: storage::clone_strings(&meta.erasure.volume_ids),
                    },
                    shards,
                },
            )
        },
        None => Err(refuse(404, "object not found on any disk")),
    }
}

/// The disk of a cached shard, the first disk where the distribution does not say.
pub open spec fn cached_disk(distribution: Seq<usize>, s: int) -> usize {
    if s < distribution.len() {
        distribution[s]
    } else {
        0
    }
}

/// An object in the write cache.
#[derive(Debug)]
pub struct CachedObject {
    /// How many shards there are.
    pub shards: usize,
    /// The disk of each shard.
    pub distribution: Vec<usize>,
    pub metas: Vec<ObjectMeta>,
    pub original_size: u64,
    pub etag: String,
    pub content_type: String,
}

/// The metadata, of index `from` on, that tells how a cached object is cut into shards: the
/// first that names volumes.
pub open spec fn names_volumes(metas: Seq<ObjectMeta>, from: int) -> Option<int>
    decreases metas.len() - from,
{
    if from < 0 || from >= metas.len() {
        None
    } else if metas[from].erasure.volume_ids@.len() > 0 {
        Some(from)
    } else {
        names_volumes(metas, from + 1)
    }
}

/// How a cached object is cut into shards: data shards, parity shards and epoch, by the first
/// metadata that names volumes, or else by the first of all.
pub open spec fn cached_erasure(metas: Seq<ObjectMeta>) -> (usize, usize, u64) {
    match names_volumes(metas, 0) {
        Some(i) => (metas[i].erasure.data, metas[i].erasure.parity, metas[i].erasure.epoch_id),
        None => if metas.len() > 0 {
            (metas[0].erasure.data, metas[0].erasure.parity, metas[0].erasure.epoch_id)
        } else {
            (0, 0, 0)
        },
    }
}

fn erasure_of_cached(metas: &Vec<ObjectMeta>) -> (r: (usize, usize, u64))
    ensures
        r == cached_erasure(metas@),
{
    let mut i: usize = 0;
    while i < metas.len()
        invariant
            i <= metas@.len(),
            names_volumes(metas@, 0) == names_volumes(metas@, i as int),
        decreases metas@.len() - i,
    {
        let e = &metas[i].erasure;
        if e.volume_ids.len() > 0 {
            return (e.data, e.parity, e.epoch_id);
        }
        i = i + 1;
    }
    if metas.len() > 0 {
        let e = &metas[0].erasure;
        (e.data, e.parity, e.epoch_id)
    } else {
        (0, 0, 0)
    }
}

/// Describes an object that is still in the write cache. All its shards are sound.
pub fn inspect_cached(bucket: &str, key: &str, entry: &CachedObject) -> (r: CachedInspectResponse)
    ensures
        r.bucket@ == bucket@,
        r.key@ == key@,
        r.size == entry.original_size,
        r.etag@ == entry.etag@,
        r.content_type@ == entry.content_type@,
        (r.data, r.parity, r.epoch_id) == cached_erasure(entry.metas@),
        r.location@ == "ram_cache"@,
        r.shards@.len() == entry.shards,
        forall|s: int|
            0 <= s < entry.shards ==> {
                let e = #[trigger] r.shards@[s];
                &&& e.index == s
                &&& e.disk == cached_disk(entry.distribution@, s)
                &&& e.status@ == "ok"@
                &&& e.location@ == "ram_cache"@
                &&& e.checksum_ok
            },
{
    let mut shards: Vec<CachedShardInfo> = Vec::new();
    while shards.len() < entry.shards
        invariant
            shards@.len() <= entry.shards,
            forall|s: int|
                0 <= s < shards@.len() ==> {
                    let e = #[trigger] shards@[s];
                    &&& e.index == s
                    &&& e.disk == cached_disk(entry.distribution@, s)
                    &&& e.status@ == "ok"@
                    &&& e.location@ == "ram_cache"@
                    &&& e.checksum_ok
                },
        decreases entry.shards - shards@.len(),
    {
        let s: usize = shards.len();
        let disk: usize = if s < entry.distribution.len() {
            entry.distribution[s]
        } else {
            0
        };
        shards.push(
            CachedShardInfo {
                index: s,
                disk,
                status: "ok",
                location: "ram_cache",
                checksum_ok: true,
            },
        );
    }
    let (data, parity, epoch_id) = erasure_of_cached(&entry.metas);
    CachedInspectResponse {
        bucket: bucket.to_owned(),
        key: key.to_owned(),
        size: entry.original_size,
        etag: entry.etag.clone(),
        content_type: entry.content_type.clone(),
        data,
        parity,
        epoch_id,
        shards,
        location: "ram_cache",
    }
}

// ------------------------------------------------------------------- healing

/// The response reports the result.
pub open spec fn reports_heal(r: HealResponse, result: HealResult) -> bool {
    match result {
        HealResult::Healthy => r.result@ == "healthy"@ && r.shards_fixed is None && r.error is None,
        HealResult::Repaired { shards_fixed } => r.result@ == "repaired"@ && r.shards_fixed == Some(
            shards_fixed,
        ) && r.error is None,
        HealResult::Unrecoverable => r.result@ == "unrecoverable"@ && r.shards_fixed is None
            && storage::opt_view(r.error) == Some("not enough healthy shards"@),
    }
}

/// Reports a heal, and counts it where it repaired something.
pub fn heal_response(result: &HealResult, stats: &mut HealStats) -> (r: HealResponse)
    ensures
        reports_heal(r, *result),
        *final(stats) == (if result is Repaired {
            HealStats {
                objects_healed: super::stats::counted(old(stats).objects_healed),
                ..*old(stats)
            }
        } else {
            *old(stats)
        }),
{
    match result {
        HealResult::Healthy => HealResponse {
            result: "healthy".to_owned(),
            shards_fixed: None,
            error: None,
        },
        HealResult::Repaired { shards_fixed } => {
            stats.record_heal();
            HealResponse {
                result: "repaired".to_owned(),
                shards_fixed: Some(*shards_fixed),
                error: None,
            }
        },
        HealResult::Unrecoverable => HealResponse {
            result: "unrecoverable".to_owned(),
            shards_fixed: None,
            error: Some("not enough healthy shards".to_owned()),
        },
    }
}

/// Bucket and key of a heal request, or why it is turned down: a fenced cluster heals
/// nothing.
pub fn heal_params(allowed: bool, params: &StringMap<String>) -> (r: Result<
    (String, String),
    AdminError,
>)
    ensures
        ({
            let m = query::texts(params@);
            match r {
                Ok(p) => allowed && query::value_of(m, "bucket"@) == Some(p.0@)
                    && query::value_of(m, "key"@) == Some(p.1@),
                Err(e) => if !allowed {
                    refuses(e, 503, "cluster is fenced"@)
                } else if query::value_of(m, "bucket"@) is None {
                    refuses(e, 400, "missing bucket parameter"@)
                } else {
                    query::value_of(m, "key"@) is None && refuses(e, 400, "missing key parameter"@)
                },
            }
        }),
{
    if !allowed {
        return Err(refuse(503, "cluster is fenced"));
    }
    object_params(params)
}

/// The failures that the objects of a bucket tolerate, or why they are not set: a fenced
/// cluster sets nothing.
pub fn ftt_param(allowed: bool, params: &StringMap<String>) -> (r: Result<usize, AdminError>)
    ensures
        ({
            let asked = match query::value_of(query::texts(params@), "ftt"@) {
                Some(v) => text::usize_value(v),
                None => None,
            };
            match r {
                Ok(n) => allowed && asked == Some(n),
                Err(e) => if !allowed {
                    refuses(e, 503, "cluster is fenced"@)
                } else {
                    asked is None && refuses(e, 400, "missing ftt parameter"@)
                },
            }
        }),
{
    if !allowed {
        return Err(refuse(503, "cluster is fenced"));
    }
    let asked: Option<usize> = match query::lookup(params, "ftt") {
        Some(v) => text::parse_usize(v),
        None => None,
    };
    match asked {
        Some(n) => Ok(n),
        None => Err(refuse(400, "missing ftt parameter")),
    }
}

/// The HTTP status that reports a storage error.
pub open spec fn status_of(err: StorageError) -> u16 {
    match err {
        StorageError::BucketNotFound => 404,
        StorageError::ObjectNotFound => 404,
        StorageError::BucketExists => 409,
        StorageError::BucketNotEmpty => 409,
        StorageError::InvalidConfig(_) => 400,
        StorageError::InvalidBucketName(_) => 400,
        StorageError::InvalidObjectKey(_) => 400,
        StorageError::InvalidVersionId(_) => 400,
        StorageError::InvalidUploadId(_) => 400,
        _ => 500,
    }
}

/// The HTTP status that reports a storage error.
pub fn map_storage_status(err: &StorageError) -> (r: u16)
    ensures
        r == status_of(*err),
{
    match err {
        StorageError::BucketNotFound => 404,
        StorageError::ObjectNotFound => 404,
        StorageError::BucketExists => 409,
        StorageError::BucketNotEmpty => 409,
        StorageError::InvalidConfig(_) => 400,
        StorageError::InvalidBucketName(_) => 400,
        StorageError::InvalidObjectKey(_) => 400,
        StorageError::InvalidVersionId(_) => 400,
        StorageError::InvalidUploadId(_) => 400,
        _ => 500,
    }
}

// ---------------------------------------------------------------------- raft

/// The HTTP status of a bootstrap that failed: a conflict where the cluster exists already.
pub fn bootstrap_status(message: &str) -> (r: u16)
    ensures
        r == (if split::holds(message@, "not allowed"@) || split::holds(message@, "already"@) {
            409u16
        } else {
            500u16
        }),
{
    if split::contains(message, "not allowed") || split::contains(message, "already") {
        409
    } else {
        500
    }
}

/// A node that asks to join.
#[derive(Debug, PartialEq, Eq)]
pub struct JoinRequest {
    pub raft_id: u64,
    pub advertise_s3: String,
    pub advertise_cluster: String,
}

/// The number of the node that asks to join.
pub open spec fn joiner_id(m: Map<Seq<char>, Seq<char>>) -> Option<u64> {
    match query::value_of(m, "raft_id"@) {
        Some(v) => text::u64_value(v),
        None => None,
    }
}

/// Reads a request to join. The address for the cluster is that for S3 where none is given.
pub fn join_params(params: &StringMap<String>) -> (r: Result<JoinRequest, AdminError>)
    ensures
        ({
            let m = query::texts(params@);
            match r {
                Ok(j) => {
                    &&& joiner_id(m) == Some(j.raft_id)
                    &&& query::value_of(m, "advertise_s3"@) == Some(j.advertise_s3@)
                    &&& j.advertise_cluster@ == (match query::value_of(m, "advertise_cluster"@) {
                        Some(v) => v,
                        None => j.advertise_s3@,
                    })
                },
                Err(e) => if joiner_id(m) is None {
                    refuses(e, 400, "missing or invalid raft_id"@)
                } else {
                    query::value_of(m, "advertise_s3"@) is None && refuses(
                        e,
                        400,
                        "missing advertise_s3"@,
                    )
                },
            }
        }),
{
    let id: Option<u64> = match query::lookup(params, "raft_id") {
        Some(v) => text::parse_u64(v),
        None => None,
    };
    let raft_id: u64 = match id {
        Some(n) => n,
        None => {
            return Err(refuse(400, "missing or invalid raft_id"));
        },
    };
    let advertise_s3 = match query::lookup(params, "advertise_s3") {
        Some(v) => v.to_owned(),
        None => {
            return Err(refuse(400, "missing advertise_s3"));
        },
    };
    let advertise_cluster = match query::lookup(params, "advertise_cluster") {
        Some(v) => v.to_owned(),
        None => advertise_s3.clone(),
    };
    Ok(JoinRequest { raft_id, advertise_s3, advertise_cluster })
}

/// The voters after a node has joined.
pub fn voters_with(voters: &Vec<u64>, id: u64) -> (r: Vec<u64>)
    ensures
        r@ == (if voters@.contains(id) {
            voters@
        } else {
            voters@.push(id)
        }),
{
    let mut out: Vec<u64> = Vec::new();
    let mut known = false;
    let mut i: usize = 0;
    while i < voters.len()
        invariant
            i <= voters@.len(),
            out@ == voters@.take(i as int),
            known == voters@.take(i as int).contains(id),
        decreases voters@.len() - i,
    {
        proof {
            let a = voters@.take(i as int);
            let b = voters@.take(i + 1);
            assert(b =~= a.push(voters@[i as int]));
            if a.contains(id) {
                let w = choose|w: int| 0 <= w < a.len() && a[w] == id;
                assert(b[w] == id);
            }
            if voters@[i as int] == id {
                assert(b[i as int] == id);
            }
            if b.contains(id) && voters@[i as int] != id {
                let w = choose|w: int| 0 <= w < b.len() && b[w] == id;
                assert(a[w] == id);
            }
        }
        if voters[i] == id {
            known = true;
        }
        out.push(voters[i]);
        i = i + 1;
    }
    assert(voters@.take(i as int) =~= voters@);
    if !known {
        out.push(id);
    }
    out
}

/// The voters after a node has left.
pub fn voters_without(voters: &Vec<u64>, id: u64) -> (r: Vec<u64>)
    ensures
        r@ == voters@.filter(|v: u64| v != id),
{
    let ghost keep = |v: u64| v != id;
    let mut out: Vec<u64> = Vec::new();
    let mut i: usize = 0;
    proof {
        reveal(Seq::filter);
        assert(voters@.take(0) =~= Seq::empty());
    }
    while i < voters.len()
        invariant
            i <= voters@.len(),
            keep == (|v: u64| v != id),
            out@ == voters@.take(i as int).filter(keep),
        decreases voters@.len() - i,
    {
        proof {
            reveal(Seq::filter);
            let b = voters@.take(i + 1);
            assert(b.drop_last() =~= voters@.take(i as int));
            assert(b.last() == voters@[i as int]);
        }
        if voters[i] != id {
            out.push(voters[i]);
        }
        i = i + 1;
    }
    assert(voters@.take(i as int) =~= voters@);
    out
}

proof fn lemma_all_stay(voters: Seq<u64>, id: u64)
    requires
        !voters.contains(id),
    ensures
        voters.filter(|v: u64| v != id) == voters,
    decreases voters.len(),
{
    reveal(Seq::filter);
    if voters.len() > 0 {
        let head = voters.drop_last();
        assert(!head.contains(id)) by {
            if head.contains(id) {
                let w = choose|w: int| 0 <= w < head.len() && head[w] == id;
                assert(voters[w] == id);
            }
        }
        lemma_all_stay(head, id);
        assert(voters[voters.len() - 1] != id);
        assert(head.push(voters.last()) =~= voters);
    }
}

/// A node that joins and leaves again leaves the voters as they were.
pub proof fn law_leaving_undoes_joining(voters: Seq<u64>, id: u64)
    requires
        !voters.contains(id),
    ensures
        voters.push(id).filter(|v: u64| v != id) == voters,
{
    reveal(Seq::filter);
    assert(voters.push(id).drop_last() =~= voters);
    lemma_all_stay(voters, id);
}

} // verus!
