//! What holds of the admin interface and of the metrics.

use vstd::prelude::*;
use vstd::string::*;

use super::handlers;
use super::handlers::RouteModel;
use super::stats;
use super::types::{HealResponse, ObjectInspectResponse, ShardInfo};
use crate::boot;
use crate::cluster::ServiceState;
use crate::digest;
use crate::heal::worker;
use crate::heal::worker::{HealResult, ShardRead};
use crate::metrics;
use crate::metrics::{Change, Kind, Metric, StatusClass, UpdateModel};
use crate::s3::request::Method;
use crate::storage;
use crate::storage::{ObjectMeta, StorageError};
use crate::text;
use crate::time::Duration;

verus! {

// -------------------------------------------------------------------- routes

/// The path at which an endpoint stands, and the method by which it goes.
pub open spec fn endpoint_of(r: RouteModel) -> Option<(Seq<char>, Method)> {
    match r {
        RouteModel::Status => Some(("status"@, Method::Get)),
        RouteModel::Disks => Some(("disks"@, Method::Get)),
        RouteModel::HealStatus => Some(("heal"@, Method::Get)),
        RouteModel::InspectObject => Some(("object"@, Method::Get)),
        RouteModel::Metrics => Some(("metrics"@, Method::Get)),
        RouteModel::RaftPeers => Some(("raft/peers"@, Method::Get)),
        RouteModel::RaftPrimary => Some(("raft/primary"@, Method::Get)),
        RouteModel::ClusterStatus => Some(("cluster/status"@, Method::Get)),
        RouteModel::ClusterNodes => Some(("cluster/nodes"@, Method::Get)),
        RouteModel::ClusterEpochs => Some(("cluster/epochs"@, Method::Get)),
        RouteModel::ClusterTopology => Some(("cluster/topology"@, Method::Get)),
        RouteModel::HealObject => Some(("heal"@, Method::Post)),
        RouteModel::Flush => Some(("flush"@, Method::Post)),
        RouteModel::RaftSnapshot => Some(("raft/snapshot"@, Method::Post)),
        RouteModel::RaftBootstrap => Some(("raft/bootstrap"@, Method::Post)),
        RouteModel::RaftJoin => Some(("raft/join"@, Method::Post)),
        RouteModel::RaftLeave => Some(("raft/leave"@, Method::Post)),
        _ => None,
    }
}

/// A request reaches an endpoint only at its path and by its method.
pub proof fn law_endpoint_stands_at_its_path(path: Seq<char>, method: Method)
    ensures
        ({
            let r = handlers::admin_route(path, method);
            &&& endpoint_of(r) is Some ==> endpoint_of(r) == Some((path, method))
            &&& r is GetFtt ==> method == Method::Get
            &&& r is SetFtt ==> method == Method::Put
            &&& r is MethodNotAllowed ==> method != Method::Get && method != Method::Put
        }),
{
}

/// Every endpoint is reached at its path and by its method.
pub proof fn law_every_endpoint_is_reached(r: RouteModel)
    requires
        endpoint_of(r) is Some,
    ensures
        ({
            let (path, method) = endpoint_of(r)->0;
            handlers::admin_route(path, method) == r
        }),
{
    reveal_strlit("status");
    reveal_strlit("disks");
    reveal_strlit("heal");
    reveal_strlit("object");
    reveal_strlit("metrics");
    reveal_strlit("raft/peers");
    reveal_strlit("raft/primary");
    reveal_strlit("cluster/status");
    reveal_strlit("cluster/nodes");
    reveal_strlit("cluster/epochs");
    reveal_strlit("cluster/topology");
    reveal_strlit("flush");
    reveal_strlit("raft/snapshot");
    reveal_strlit("raft/bootstrap");
    reveal_strlit("raft/join");
    reveal_strlit("raft/leave");
    assert("status"@.len() == 6 && "disks"@.len() == 5 && "heal"@.len() == 4);
    assert("object"@.len() == 6 && "metrics"@.len() == 7 && "raft/peers"@.len() == 10);
    assert("raft/primary"@.len() == 12 && "cluster/status"@.len() == 14);
    assert("cluster/nodes"@.len() == 13 && "cluster/epochs"@.len() == 14);
    assert("cluster/topology"@.len() == 16 && "flush"@.len() == 5);
    assert("raft/snapshot"@.len() == 13 && "raft/bootstrap"@.len() == 14);
    assert("raft/join"@.len() == 9 && "raft/leave"@.len() == 10);
    assert("status"@[0] == 's' && "object"@[0] == 'o');
    assert("cluster/status"@[8] == 's' && "cluster/epochs"@[8] == 'e');
}

/// The tolerance of a bucket is asked for and set at `bucket/<name>/ftt`, whatever the name.
pub proof fn law_tolerance_is_that_of_the_bucket(bucket: Seq<char>)
    ensures
        handlers::ftt_bucket("bucket/"@ + bucket + "/ftt"@) == Some(bucket),
        handlers::admin_route("bucket/"@ + bucket + "/ftt"@, Method::Get) == RouteModel::GetFtt(
            bucket,
        ),
        handlers::admin_route("bucket/"@ + bucket + "/ftt"@, Method::Put) == RouteModel::SetFtt(
            bucket,
        ),
{
    let path = "bucket/"@ + bucket + "/ftt"@;
    let a = "bucket/"@.len() as int;
    let b = "/ftt"@.len() as int;
    assert(path.take(a) =~= "bucket/"@);
    assert(path.skip(path.len() - b) =~= "/ftt"@);
    assert(path.subrange(a, path.len() - b) =~= bucket);
    reveal_strlit("bucket/");
    assert(path[0] == 'b');
    reveal_strlit("status");
    reveal_strlit("disks");
    reveal_strlit("heal");
    reveal_strlit("object");
    reveal_strlit("metrics");
    reveal_strlit("raft/peers");
    reveal_strlit("raft/primary");
    reveal_strlit("cluster/status");
    reveal_strlit("cluster/nodes");
    reveal_strlit("cluster/epochs");
    reveal_strlit("cluster/topology");
    assert("status"@[0] != 'b' && "disks"@[0] != 'b' && "heal"@[0] != 'b');
    assert("object"@[0] != 'b' && "metrics"@[0] != 'b' && "raft/peers"@[0] != 'b');
    assert("raft/primary"@[0] != 'b' && "cluster/status"@[0] != 'b');
    assert("cluster/nodes"@[0] != 'b' && "cluster/epochs"@[0] != 'b');
    assert("cluster/topology"@[0] != 'b');
}

/// Errors are told apart by their status: what is missing, what is in the way, what was asked
/// wrongly, and what failed.
pub proof fn law_status_tells_the_kind(e: StorageError)
    ensures
        handlers::status_of(e) == 404 <==> e is BucketNotFound || e is ObjectNotFound,
        handlers::status_of(e) == 409 <==> e is BucketExists || e is BucketNotEmpty,
        handlers::status_of(e) == 400 <==> e is InvalidConfig || e is InvalidBucketName
            || e is InvalidObjectKey || e is InvalidVersionId || e is InvalidUploadId,
        handlers::status_of(e) == 400 || handlers::status_of(e) == 404 || handlers::status_of(e)
            == 409 || handlers::status_of(e) == 500,
{
}

/// A node that joins is known by the number that it sends.
pub proof fn law_joiner_is_known_by_its_number(m: Map<Seq<char>, Seq<char>>, n: u64)
    ensures
        m.contains_key("raft_id"@) && m["raft_id"@] == text::decimal(n as nat)
            ==> handlers::joiner_id(m) == Some(n),
        !m.contains_key("raft_id"@) ==> handlers::joiner_id(m) is None,
{
    text::lemma_u64_round_trip(n);
}

/// Objects are counted over all buckets that can be listed.
pub proof fn law_objects_are_counted(counts: Seq<Option<usize>>, n: nat)
    requires
        0 < n <= counts.len(),
    ensures
        handlers::objects_in(counts, 0) == 0,
        counts[n - 1] is Some ==> handlers::objects_in(counts, n) - handlers::objects_in(
            counts,
            (n - 1) as nat,
        ) == counts[n - 1]->0,
        counts[n - 1] is None ==> handlers::objects_in(counts, n) == handlers::objects_in(
            counts,
            (n - 1) as nat,
        ),
{
}

/// A counter goes up by one, and starts over where it is full.
pub proof fn law_counter_goes_up_by_one(n: u64)
    ensures
        n < u64::MAX ==> stats::counted(n) == n + 1,
        n == u64::MAX ==> stats::counted(n) == 0,
{
}

// ---------------------------------------------------------------- inspection

/// Disk `d` holds shard `s`.
pub open spec fn holds(reads: Seq<Option<ShardRead>>, s: int, d: int) -> bool {
    0 <= d < reads.len() && reads[d] is Some && reads[d]->0.meta.erasure.index == s
}

proof fn lemma_holder(reads: Seq<Option<ShardRead>>, s: int, n: nat, d: int)
    requires
        n <= reads.len(),
        0 <= d < n,
        holds(reads, s, d),
        forall|e: int| d < e < n ==> !holds(reads, s, e),
    ensures
        handlers::holder(reads, s, n) == Some(d),
    decreases n,
{
    if d < n - 1 {
        assert(!holds(reads, s, n - 1));
        lemma_holder(reads, s, (n - 1) as nat, d);
    }
}

proof fn lemma_no_holder(reads: Seq<Option<ShardRead>>, s: int, n: nat)
    requires
        n <= reads.len(),
        forall|e: int| 0 <= e < n ==> !holds(reads, s, e),
    ensures
        handlers::holder(reads, s, n) is None,
    decreases n,
{
    if n > 0 {
        assert(!holds(reads, s, n - 1));
        lemma_no_holder(reads, s, (n - 1) as nat);
    }
}

/// A shard that some disk holds is found there, with the digest that is stored beside it; it is
/// sound where it belongs to the same write and its bytes have that digest, and corrupt
/// otherwise.
pub proof fn law_shard_is_found_on_its_disk(
    e: ShardInfo,
    s: int,
    meta: ObjectMeta,
    reads: Seq<Option<ShardRead>>,
    d: int,
)
    requires
        handlers::tells(e, s, meta@, reads, reads.len()),
        holds(reads, s, d),
        forall|x: int| d < x < reads.len() ==> !holds(reads, s, x),
    ensures
        e.index == s,
        e.disk == d,
        e.checksum is Some && e.checksum->0@ == reads[d]->0.meta.checksum@,
        e.status@ == "ok"@ <==> storage::same_write(reads[d]->0.meta@, meta@)
            && digest::hex_chars(digest::sha256_digest(reads[d]->0.data@))
            == reads[d]->0.meta.checksum@,
        e.status@ == "ok"@ || e.status@ == "corrupt"@,
        s < meta.erasure.volume_ids@.len() ==> e.volume_id@ == meta.erasure.volume_ids@[s]@,
{
    lemma_holder(reads, s, reads.len(), d);
    reveal_strlit("ok");
    reveal_strlit("corrupt");
    assert("ok"@.len() == 2 && "corrupt"@.len() == 7);
    lemma_volume(meta, s);
}

proof fn lemma_volume(meta: ObjectMeta, s: int)
    requires
        0 <= s,
    ensures
        meta@.erasure.volume_ids.len() == meta.erasure.volume_ids@.len(),
        s < meta.erasure.volume_ids@.len() ==> meta@.erasure.volume_ids[s]
            == meta.erasure.volume_ids@[s]@,
{
}

/// A shard that no disk holds is missing.
pub proof fn law_lost_shard_is_missing(
    e: ShardInfo,
    s: int,
    meta: ObjectMeta,
    reads: Seq<Option<ShardRead>>,
)
    requires
        handlers::tells(e, s, meta@, reads, reads.len()),
        forall|x: int| 0 <= x < reads.len() ==> !holds(reads, s, x),
    ensures
        e.index == s,
        e.status@ == "missing"@,
        e.checksum is None,
{
    lemma_no_holder(reads, s, reads.len());
}

/// An object is described by the first disk that holds something of it.
pub proof fn law_first_disk_describes(
    r: ObjectInspectResponse,
    bucket: Seq<char>,
    key: Seq<char>,
    reads: Seq<Option<ShardRead>>,
    f: int,
    k: int,
)
    requires
        handlers::inspects(r, bucket, key, reads),
        0 <= f < reads.len(),
        reads[f] is Some,
        forall|x: int| 0 <= x < f ==> (#[trigger] reads[x]) is None,
        0 <= k < reads[f]->0.meta.erasure.volume_ids@.len(),
    ensures
        ({
            let m = reads[f]->0.meta;
            &&& r.bucket@ == bucket
            &&& r.key@ == key
            &&& r.size == m.size
            &&& r.etag@ == m.etag@
            &&& r.content_type@ == m.content_type@
            &&& r.created_at == m.created_at
            &&& r.erasure.data == m.erasure.data
            &&& r.erasure.parity == m.erasure.parity
            &&& r.erasure.epoch_id == m.erasure.epoch_id
            &&& r.erasure.volume_ids@.len() == m.erasure.volume_ids@.len()
            &&& r.erasure.volume_ids@[k]@ == m.erasure.volume_ids@[k]@
            &&& r.shards@.len() == m.erasure.data + m.erasure.parity
        }),
{
    lemma_first(reads, 0, f);
    let m = reads[f]->0.meta;
    let a = crate::order::views(r.erasure.volume_ids@);
    assert(a == m@.erasure.volume_ids);
    lemma_volume(m, k);
    assert(a.len() == r.erasure.volume_ids@.len());
    assert(a[k] == r.erasure.volume_ids@[k]@);
}

proof fn lemma_first(reads: Seq<Option<ShardRead>>, i: int, f: int)
    requires
        0 <= i <= f < reads.len(),
        reads[f] is Some,
        forall|x: int| i <= x < f ==> (#[trigger] reads[x]) is None,
    ensures
        worker::first_read(reads, i) == Some(f),
    decreases f - i,
{
    if i < f {
        assert(reads[i] is None);
        lemma_first(reads, i + 1, f);
    }
}

/// The disk of a cached shard is that of the distribution, and how the object is cut is told by
/// the first metadata that names volumes.
pub proof fn law_cached_object_is_described(
    distribution: Seq<usize>,
    s: int,
    metas: Seq<ObjectMeta>,
    i: int,
)
    requires
        0 <= s < distribution.len(),
        0 <= i < metas.len(),
        metas[i].erasure.volume_ids@.len() > 0,
        forall|j: int| 0 <= j < i ==> (#[trigger] metas[j]).erasure.volume_ids@.len() == 0,
    ensures
        handlers::cached_disk(distribution, s) == distribution[s],
        handlers::cached_erasure(metas).0 == metas[i].erasure.data,
        handlers::cached_erasure(metas).1 == metas[i].erasure.parity,
        handlers::cached_erasure(metas).2 == metas[i].erasure.epoch_id,
{
    lemma_names_volumes(metas, 0, i);
}

proof fn lemma_names_volumes(metas: Seq<ObjectMeta>, from: int, i: int)
    requires
        0 <= from <= i < metas.len(),
        metas[i].erasure.volume_ids@.len() > 0,
        forall|j: int| from <= j < i ==> (#[trigger] metas[j]).erasure.volume_ids@.len() == 0,
    ensures
        handlers::names_volumes(metas, from) == Some(i),
    decreases i - from,
{
    if from < i {
        assert(metas[from].erasure.volume_ids@.len() == 0);
        lemma_names_volumes(metas, from + 1, i);
    }
}

/// The answer to a heal tells the three results apart, and how many shards were fixed.
pub proof fn law_heal_result_is_told(r: HealResponse, result: HealResult)
    requires
        handlers::reports_heal(r, result),
    ensures
        r.result@ == "healthy"@ <==> result is Healthy,
        r.result@ == "repaired"@ <==> result is Repaired,
        r.result@ == "unrecoverable"@ <==> result is Unrecoverable,
        result is Repaired ==> r.shards_fixed == Some(result->shards_fixed),
        !(result is Repaired) ==> r.shards_fixed is None,
        r.error is Some <==> result is Unrecoverable,
{
    reveal_strlit("healthy");
    reveal_strlit("repaired");
    reveal_strlit("unrecoverable");
    assert("healthy"@.len() == 7 && "repaired"@.len() == 8 && "unrecoverable"@.len() == 13);
}

// ------------------------------------------------------------------- metrics

/// A response is fine below 400, the client's fault below 500, and the server's from there on;
/// the three classes bear different labels.
pub proof fn law_class_goes_by_the_status(code: u16, a: StatusClass, b: StatusClass)
    ensures
        metrics::class_of(code) == StatusClass::Okay <==> code < 400,
        metrics::class_of(code) == StatusClass::ClientErr <==> 400 <= code < 500,
        metrics::class_of(code) == StatusClass::ServerErr <==> 500 <= code,
        metrics::class_label(a) == metrics::class_label(b) ==> a == b,
{
    reveal_strlit("ok");
    reveal_strlit("client_err");
    reveal_strlit("server_err");
    assert("ok"@.len() == 2 && "client_err"@[0] == 'c' && "server_err"@[0] == 's');
    assert("client_err"@.len() == 10 && "server_err"@.len() == 10);
}

/// A request is counted once under its operation and class, timed once, and its bytes are
/// counted in the direction in which they went.
pub proof fn law_request_is_counted_once(
    op: Seq<char>,
    status: StatusClass,
    duration: Duration,
    bytes_in: u64,
    bytes_out: u64,
)
    ensures
        ({
            let u = metrics::request_updates(op, status, duration, bytes_in, bytes_out);
            let received = metrics::update(
                Metric::S3BytesReceived,
                seq![op],
                Change::Add(bytes_in),
            );
            let sent = metrics::update(Metric::S3BytesSent, seq![op], Change::Add(bytes_out));
            &&& u.len() == 2 + (if bytes_in > 0 {
                1int
            } else {
                0
            }) + (if bytes_out > 0 {
                1int
            } else {
                0
            })
            &&& u[0].metric == Metric::S3Requests && u[0].change == Change::Add(1)
            &&& u[0].labels.len() == 2 && u[0].labels[0] == op && u[0].labels[1]
                == metrics::class_label(status)
            &&& u[1].metric == Metric::S3RequestDuration && u[1].change == Change::Observe(
                duration,
            )
            &&& u[1].labels == seq![op]
            &&& bytes_in > 0 ==> u[2] == received
            &&& bytes_out > 0 ==> u[u.len() - 1] == sent
        }),
{
}

/// The gauge of a state says one where the node is in it and zero where it is not.
pub proof fn law_state_gauge_marks_the_state(s: ServiceState, current: ServiceState)
    ensures
        metrics::state_gauge(s, current).metric == Metric::ClusterState,
        metrics::state_gauge(s, current).labels == seq![metrics::state_label(s)],
        s == current ==> metrics::state_gauge(s, current).change == Change::Become(1),
        s != current ==> metrics::state_gauge(s, current).change == Change::Become(0),
        s != current ==> metrics::state_label(s) != metrics::state_label(current),
{
    reveal_strlit("Ready");
    reveal_strlit("SyncingEpoch");
    reveal_strlit("Fenced");
    reveal_strlit("Joining");
    assert("Ready"@.len() == 5 && "SyncingEpoch"@.len() == 12 && "Fenced"@.len() == 6);
    assert("Joining"@.len() == 7);
}

/// The update sets a metric to a number.
pub open spec fn shows(u: UpdateModel, metric: Metric, value: int) -> bool {
    &&& u.metric == metric
    &&& match u.change {
        Change::Become(v) => v == value,
        Change::Restart(v) => v == value,
        _ => false,
    }
}

/// A scrape shows each number under its own metric.
pub proof fn law_scrape_shows_each_number(
    state: ServiceState,
    reachable: usize,
    quorum: usize,
    epoch: u64,
    pending: usize,
    scanned: u64,
    last_scan: u64,
    healed: u64,
)
    requires
        reachable <= i64::MAX,
        quorum <= i64::MAX,
        epoch <= i64::MAX,
        pending <= i64::MAX,
        last_scan <= i64::MAX,
    ensures
        ({
            let u = metrics::scrape_updates(
                state,
                reachable,
                quorum,
                epoch,
                pending,
                scanned,
                last_scan,
                healed,
            );
            &&& u.len() == 11
            &&& u[0] == metrics::state_gauge(ServiceState::Ready, state)
            &&& u[1] == metrics::state_gauge(ServiceState::SyncingEpoch, state)
            &&& u[2] == metrics::state_gauge(ServiceState::Fenced, state)
            &&& u[3] == metrics::state_gauge(ServiceState::Joining, state)
            &&& shows(u[4], Metric::ClusterReachableVoters, reachable as int)
            &&& shows(u[5], Metric::ClusterQuorum, quorum as int)
            &&& shows(u[6], Metric::ClusterEpochId, epoch as int)
            &&& shows(u[7], Metric::MrfQueueDepth, pending as int)
            &&& shows(u[8], Metric::ScannerObjectsChecked, scanned as int)
            &&& shows(u[9], Metric::ScannerLastPassSeconds, last_scan as int)
            &&& shows(u[10], Metric::HealRepaired, healed as int)
        }),
{
}

// ---------------------------------------------------------------------- boot

/// Every other node keeps copies of the write cache, this one does not, whether or not slashes
/// stand behind the addresses.
pub proof fn law_other_nodes_keep_copies(nodes: Seq<Seq<char>>, own: Seq<char>, n: nat, i: int)
    requires
        0 <= i < n <= nodes.len(),
        text::without_trailing(nodes[i], '/').len() > 0,
    ensures
        text::without_trailing(nodes[i], '/') != text::without_trailing(own, '/') ==> boot::others(
            nodes,
            own,
            n,
        ).contains(text::without_trailing(nodes[i], '/')),
        !boot::others(nodes, own, n).contains(text::without_trailing(own, '/')),
    decreases n,
{
    lemma_not_own(nodes, own, n);
    let x = text::without_trailing(nodes[i], '/');
    let all = boot::others(nodes, own, n);
    let before = boot::others(nodes, own, (n - 1) as nat);
    if x != text::without_trailing(own, '/') {
        if i < n - 1 {
            law_other_nodes_keep_copies(nodes, own, (n - 1) as nat, i);
            let j = choose|j: int| 0 <= j < before.len() && before[j] == x;
            assert(all[j] == x);
        } else {
            assert(all[all.len() - 1] == x);
        }
    }
}

proof fn lemma_not_own(nodes: Seq<Seq<char>>, own: Seq<char>, n: nat)
    ensures
        !boot::others(nodes, own, n).contains(text::without_trailing(own, '/')),
    decreases n,
{
    let all = boot::others(nodes, own, n);
    let x = text::without_trailing(own, '/');
    if n > 0 {
        lemma_not_own(nodes, own, (n - 1) as nat);
        let before = boot::others(nodes, own, (n - 1) as nat);
        if all.contains(x) {
            let j = choose|j: int| 0 <= j < all.len() && all[j] == x;
            if j < before.len() {
                assert(before[j] == x);
            }
        }
    }
}

/// The text ends with the given one.
pub open spec fn closes(s: Seq<char>, end: Seq<char>) -> bool {
    s.len() >= end.len() && s.skip(s.len() - end.len()) == end
}

/// What is named a total counts up, the size of a disk apart; the durations of requests are
/// collected; anything else is a gauge.
pub proof fn law_totals_count_up(m: Metric, k: Kind, name: &'static str)
    requires
        call_ensures(Metric::kind, (m,), k),
        call_ensures(Metric::name, (m,), name),
    ensures
        k is Counter <==> closes(name@, "_total"@) && !(m is DiskTotalBytes),
        k is Histogram <==> m is S3RequestDuration,
{
    lemma_total(m);
}

/// A name that ends otherwise than with an l is no total.
proof fn lemma_total(m: Metric)
    ensures
        closes(metrics::name_of(m), "_total"@) <==> (metrics::kind_of(m) is Counter
            || m is DiskTotalBytes),
{
    reveal_strlit("_total");
    let s = metrics::name_of(m);
    if closes(s, "_total"@) {
        assert(s[s.len() - 1] == s.skip(s.len() - 6)[5]);
    }
    match m {
        Metric::S3Requests => {
            reveal_strlit("abixio_s3_requests_total");
            assert("abixio_s3_requests_total"@.skip(18) =~= "_total"@);
        },
        Metric::S3RequestDuration => {
            reveal_strlit("abixio_s3_request_duration_seconds");
            assert("abixio_s3_request_duration_seconds"@[33] == 's');
        },
        Metric::S3BytesSent => {
            reveal_strlit("abixio_s3_bytes_sent_total");
            assert("abixio_s3_bytes_sent_total"@.skip(20) =~= "_total"@);
        },
        Metric::S3BytesReceived => {
            reveal_strlit("abixio_s3_bytes_received_total");
            assert("abixio_s3_bytes_received_total"@.skip(24) =~= "_total"@);
        },
        Metric::WriteCacheHits => {
            reveal_strlit("abixio_write_cache_hits_total");
            assert("abixio_write_cache_hits_total"@.skip(23) =~= "_total"@);
        },
        Metric::WriteCacheReplicateSuccess => {
            reveal_strlit("abixio_write_cache_replicate_success_total");
            assert("abixio_write_cache_replicate_success_total"@.skip(36) =~= "_total"@);
        },
        Metric::WriteCacheReplicateFail => {
            reveal_strlit("abixio_write_cache_replicate_fail_total");
            assert("abixio_write_cache_replicate_fail_total"@.skip(33) =~= "_total"@);
        },
        Metric::ReadCacheHits => {
            reveal_strlit("abixio_read_cache_hits_total");
            assert("abixio_read_cache_hits_total"@.skip(22) =~= "_total"@);
        },
        Metric::ReadCacheMisses => {
            reveal_strlit("abixio_read_cache_misses_total");
            assert("abixio_read_cache_misses_total"@.skip(24) =~= "_total"@);
        },
        Metric::WriteCacheBytes => {
            reveal_strlit("abixio_write_cache_bytes");
            assert("abixio_write_cache_bytes"@[23] == 's');
        },
        Metric::WriteCacheEntries => {
            reveal_strlit("abixio_write_cache_entries");
            assert("abixio_write_cache_entries"@[25] == 's');
        },
        Metric::ReadCacheBytes => {
            reveal_strlit("abixio_read_cache_bytes");
            assert("abixio_read_cache_bytes"@[22] == 's');
        },
        Metric::ReadCacheEntries => {
            reveal_strlit("abixio_read_cache_entries");
            assert("abixio_read_cache_entries"@[24] == 's');
        },
        Metric::WalMaterialized => {
            reveal_strlit("abixio_wal_materialized_total");
            assert("abixio_wal_materialized_total"@.skip(23) =~= "_total"@);
        },
        Metric::WalMaterializeFailed => {
            reveal_strlit("abixio_wal_materialize_failed_total");
            assert("abixio_wal_materialize_failed_total"@.skip(29) =~= "_total"@);
        },
        Metric::WalPending => {
            reveal_strlit("abixio_wal_pending_entries");
            assert("abixio_wal_pending_entries"@[25] == 's');
        },
        Metric::HealRepaired => {
            reveal_strlit("abixio_heal_repaired_total");
            assert("abixio_heal_repaired_total"@.skip(20) =~= "_total"@);
        },
        Metric::HealUnrecoverable => {
            reveal_strlit("abixio_heal_unrecoverable_total");
            assert("abixio_heal_unrecoverable_total"@.skip(25) =~= "_total"@);
        },
        Metric::MrfQueueDepth => {
            reveal_strlit("abixio_mrf_queue_depth");
            assert("abixio_mrf_queue_depth"@[21] == 'h');
        },
        Metric::ScannerObjectsChecked => {
            reveal_strlit("abixio_scanner_objects_checked_total");
            assert("abixio_scanner_objects_checked_total"@.skip(30) =~= "_total"@);
        },
        Metric::ScannerLastPassSeconds => {
            reveal_strlit("abixio_scanner_last_pass_seconds");
            assert("abixio_scanner_last_pass_seconds"@[31] == 's');
        },
        Metric::LifecycleDeleted => {
            reveal_strlit("abixio_lifecycle_deleted_total");
            assert("abixio_lifecycle_deleted_total"@.skip(24) =~= "_total"@);
        },
        Metric::LifecycleDeletedVersions => {
            reveal_strlit("abixio_lifecycle_deleted_versions_total");
            assert("abixio_lifecycle_deleted_versions_total"@.skip(33) =~= "_total"@);
        },
        Metric::LifecycleDeleteMarkersReaped => {
            reveal_strlit("abixio_lifecycle_delete_markers_reaped_total");
            assert("abixio_lifecycle_delete_markers_reaped_total"@.skip(38) =~= "_total"@);
        },
        Metric::LifecycleMultipartAborted => {
            reveal_strlit("abixio_lifecycle_multipart_aborted_total");
            assert("abixio_lifecycle_multipart_aborted_total"@.skip(34) =~= "_total"@);
        },
        Metric::LifecycleLastPassSeconds => {
            reveal_strlit("abixio_lifecycle_last_pass_seconds");
            assert("abixio_lifecycle_last_pass_seconds"@[33] == 's');
        },
        Metric::DiskTotalBytes => {
            reveal_strlit("abixio_disk_bytes_total");
            assert("abixio_disk_bytes_total"@.skip(17) =~= "_total"@);
        },
        Metric::DiskUsedBytes => {
            reveal_strlit("abixio_disk_bytes_used");
            assert("abixio_disk_bytes_used"@[21] == 'd');
        },
        Metric::DiskFreeBytes => {
            reveal_strlit("abixio_disk_bytes_free");
            assert("abixio_disk_bytes_free"@[21] == 'e');
        },
        Metric::ClusterState => {
            reveal_strlit("abixio_cluster_state");
            assert("abixio_cluster_state"@[19] == 'e');
        },
        Metric::ClusterReachableVoters => {
            reveal_strlit("abixio_cluster_reachable_voters");
            assert("abixio_cluster_reachable_voters"@[30] == 's');
        },
        Metric::ClusterQuorum => {
            reveal_strlit("abixio_cluster_quorum");
            assert("abixio_cluster_quorum"@[20] == 'm');
        },
        Metric::ClusterEpochId => {
            reveal_strlit("abixio_cluster_epoch_id");
            assert("abixio_cluster_epoch_id"@[22] == 'd');
        },
    }
}

} // verus!
