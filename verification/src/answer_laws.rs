//! What the deciding functions of the library answer, in terms of what they are given.

use vstd::prelude::*;
use vstd::string::*;

use crate::admin::handlers;
use crate::admin::handlers::{AdminError, JoinRequest};
use crate::admin::stats;
use crate::boot;
use crate::cluster::identity;
use crate::cluster::identity::{BootPath, NodeIdentity, VolumeFormat};
use crate::cluster::placement::{PlacementPlanner, PlacementRecord};
use crate::cluster::{ClusterManager, ClusterSummary, ServiceState};
use crate::config;
use crate::config::Config;
use crate::digest;
use crate::heal::scanner;
use crate::heal::worker;
use crate::heal::worker::{HealPlan, HealResult};
use crate::json::Json;
use crate::lifecycle::engine;
use crate::lifecycle::evaluator::Evaluator;
use crate::lifecycle::laws as lifecycle_laws;
use crate::lifecycle::types as rules;
use crate::lifecycle::types::{BucketLifecycleConfiguration, Event, LifecycleRule, ObjectOpts};
use crate::multipart;
use crate::multipart::{PartMeta, UploadMeta};
use crate::order;
use crate::policy::laws as policy_laws;
use crate::policy::{Args, Policy};
use crate::query;
use crate::raft::adapter::log as ranges;
use crate::raft::adapter::log::{LogReport, RangeEnd};
use crate::raft::storage::snapshot;
use crate::raft::storage::snapshot::SnapshotMeta;
use crate::s3::auth;
use crate::s3::errors::S3Error;
use crate::s3::listing;
use crate::s3::objects;
use crate::s3::objects::{DeletePlan, PutPlan, Versioning};
use crate::s3::request;
use crate::s3::request::Header;
use crate::s3::response::ListBucketResultV2;
use crate::s3::settings;
use crate::s3_access::{AbixioAccess, Access, AccessRequest};
use crate::s3_auth::AbixioAuth;
use crate::s3_service;
use crate::s3_service::{ByteRange, Conditionals, ObjectAnswer, ServiceError};
use crate::s3_service_laws;
use crate::split;
use crate::storage;
use crate::storage::{BucketSettings, ListOptions, Listing, ObjectInfo, StorageError};
use crate::strmap::StringMap;
use crate::text;
use crate::time;
use crate::time::Duration;

verus! {

// ------------------------------------------------------------------- healing

/// An object that was never checked is due, and one that was is due once the interval has
/// passed.
pub proof fn law_check_is_due(since: Option<Duration>, interval: &Duration, r: bool)
    requires
        call_ensures(scanner::due, (since, interval), r),
    ensures
        since is None ==> r,
        since is Some ==> (r <==> since->0.secs * 1_000_000_000 + since->0.nanos
            >= interval.secs * 1_000_000_000 + interval.nanos),
{
}

/// A repair counts the writes that were done; an object that needed none is healthy, and one
/// that could not be repaired is told so.
pub proof fn law_outcome_follows_the_plan(plan: &HealPlan, written: usize, r: HealResult)
    requires
        call_ensures(worker::heal_outcome, (plan, written), r),
    ensures
        r is Repaired <==> plan is Repair,
        r is Healthy <==> plan is Healthy,
        r is Unrecoverable <==> plan is Unrecoverable,
        r is Repaired ==> r->shards_fixed == written,
{
}

// ------------------------------------------------------------------ starting

/// Keys are missed exactly where authentication is on and one of them is empty.
pub proof fn law_keys_are_needed(no_auth: bool, access_key: &str, secret_key: &str, r: bool)
    requires
        call_ensures(boot::credentials_missing, (no_auth, access_key, secret_key), r),
    ensures
        no_auth ==> !r,
        !no_auth && access_key@.len() > 0 && secret_key@.len() > 0 ==> !r,
        !no_auth && access_key@.len() == 0 ==> r,
        !no_auth && secret_key@.len() == 0 ==> r,
{
}

/// An address that is only a port is opened on all interfaces; any other is kept.
pub proof fn law_port_is_opened_everywhere(listen: &str, r: String)
    requires
        call_ensures(boot::listen_address, (listen,), r),
    ensures
        listen@.len() > 0 && listen@[0] == ':' ==> r@ == "0.0.0.0"@ + listen@,
        listen@.len() > 0 && listen@[0] != ':' ==> r@ == listen@,
{
    reveal_strlit(":");
    if listen@.len() > 0 {
        assert(listen@.take(1)[0] == listen@[0]);
        assert(":"@.len() == 1 && ":"@[0] == ':');
        if listen@[0] == ':' {
            assert(listen@.take(1) =~= ":"@);
        }
    }
}

/// A node alone makes its identity; one with peers takes the stored one, and asks its peers
/// where deployment or members are not stored.
pub proof fn law_identity_is_found(peers: &Vec<String>, format: &VolumeFormat, r: BootPath)
    requires
        call_ensures(identity::boot_path, (peers, format), r),
    ensures
        r == BootPath::Standalone <==> peers@.len() == 0,
        peers@.len() > 0 && (format.deployment_id is None || format.members is None) ==> r
            == BootPath::Exchange,
        peers@.len() > 0 && format.deployment_id is Some && format.members is Some ==> r
            == BootPath::Stored,
{
}

/// A node tells its peers its id, its address and each of its volumes, in their order.
pub proof fn law_node_tells_its_volumes(
    formats: &Vec<VolumeFormat>,
    advertise: String,
    r: NodeIdentity,
    k: int,
)
    requires
        call_ensures(identity::local_identity, (formats, advertise), r),
        0 <= k < formats@.len(),
    ensures
        r.node_id@ == formats@[0].node_id@,
        r.advertise@ == advertise@,
        r.volumes@.len() == formats@.len(),
        r.volumes@[k].volume_id@ == formats@[k].volume_id@,
        r.volumes@[k].index == formats@[k].volume_index,
{
    assert(r.volumes@[k] == r.volumes@[k]);
}

/// An interval that is not set well falls back to ten minutes for scans and a day for checks.
pub proof fn law_intervals_fall_back(c: &Config, scan: Duration, heal: Duration)
    requires
        call_ensures(Config::scan_interval_duration, (c,), scan),
        call_ensures(Config::heal_interval_duration, (c,), heal),
    ensures
        config::duration_secs(c.scan_interval@) is None ==> scan.secs == 600,
        config::duration_secs(c.scan_interval@) matches Some(n) ==> scan.secs == n,
        config::duration_secs(c.heal_interval@) is None ==> heal.secs == 24 * 60 * 60,
        config::duration_secs(c.heal_interval@) matches Some(n) ==> heal.secs == n,
        scan.nanos == 0 && heal.nanos == 0,
{
}

// ------------------------------------------------------------------- cluster

/// A node serves data exactly where it is ready, and changes are taken exactly then.
pub proof fn law_only_a_ready_node_serves(m: &ClusterManager, blocks: bool, allows: bool)
    requires
        call_ensures(ClusterManager::blocks_data_plane, (m,), blocks),
        call_ensures(ClusterManager::allows_mutation, (m,), allows),
    ensures
        allows <==> m.model().summary.state == ServiceState::Ready,
        blocks <==> !allows,
{
}

/// An answer counts only where it comes from the same cluster.
pub proof fn law_stranger_does_not_count(m: &ClusterManager, s: &ClusterSummary, r: bool)
    requires
        call_ensures(ClusterManager::accepts_answer, (m, s), r),
    ensures
        r <==> s.cluster_id@ == m.model().summary.cluster_id,
{
}

/// An object is placed exactly where there is a data shard and a volume for each shard.
pub proof fn law_plan_needs_a_volume_for_each_shard(
    p: &PlacementPlanner,
    bucket: &str,
    key: &str,
    data: usize,
    parity: usize,
    r: Result<PlacementRecord, String>,
)
    requires
        call_ensures(PlacementPlanner::plan, (p, bucket, key, data, parity), r),
    ensures
        r is Ok <==> data >= 1 && data + parity <= p.volumes().len(),
        r matches Ok(record) ==> record.shards@.len() == data + parity,
{
}

/// The voters after a node has joined are those before and the node, once.
pub proof fn law_joined_node_votes(voters: &Vec<u64>, id: u64, r: Vec<u64>, v: u64)
    requires
        call_ensures(handlers::voters_with, (voters, id), r),
    ensures
        r@.contains(v) <==> voters@.contains(v) || v == id,
        r@.len() <= voters@.len() + 1,
{
    if !voters@.contains(id) {
        assert(r@[voters@.len() as int] == id);
        if voters@.contains(v) {
            let k = choose|k: int| 0 <= k < voters@.len() && voters@[k] == v;
            assert(r@[k] == v);
        }
        if r@.contains(v) && v != id {
            let k = choose|k: int| 0 <= k < r@.len() && r@[k] == v;
            assert(voters@[k] == v);
        }
    }
}

/// The voters after a node has left are those before, without the node.
pub proof fn law_left_node_does_not_vote(voters: &Vec<u64>, id: u64, r: Vec<u64>, v: u64)
    requires
        call_ensures(handlers::voters_without, (voters, id), r),
    ensures
        r@.contains(v) <==> voters@.contains(v) && v != id,
{
    lemma_without(voters@, id, v);
}

proof fn lemma_without(s: Seq<u64>, id: u64, v: u64)
    ensures
        s.filter(|x: u64| x != id).contains(v) <==> s.contains(v) && v != id,
    decreases s.len(),
{
    reveal(Seq::filter);
    let f = |x: u64| x != id;
    if s.len() > 0 {
        let d = s.drop_last();
        lemma_without(d, id, v);
        let a = d.filter(f);
        let b = s.filter(f);
        if s.contains(v) {
            let k = choose|k: int| 0 <= k < s.len() && s[k] == v;
            if k < d.len() {
                assert(d[k] == v);
            }
        }
        if d.contains(v) {
            let k = choose|k: int| 0 <= k < d.len() && d[k] == v;
            assert(s[k] == v);
        }
        if a.contains(v) {
            let k = choose|k: int| 0 <= k < a.len() && a[k] == v;
            assert(b[k] == v);
        }
        if f(s.last()) {
            assert(b[b.len() - 1] == s.last());
            assert(s[s.len() - 1] == s.last());
        }
        if b.contains(v) {
            let k = choose|k: int| 0 <= k < b.len() && b[k] == v;
            if k < a.len() {
                assert(a[k] == v);
            }
        }
    }
}

/// The entries that are read lie in the range; where it is empty nothing is read.
pub proof fn law_bounds_are_those_of_the_range(
    start: RangeEnd,
    end: RangeEnd,
    last: Option<u64>,
    r: Option<(u64, u64)>,
)
    requires
        call_ensures(ranges::read_bounds, (start, end, last), r),
    ensures
        r matches Some(b) ==> b.0 <= b.1 && b.0 == ranges::range_start(start) && b.1
            == ranges::effective_end(end, last),
        r is None <==> ranges::range_start(start) > ranges::effective_end(end, last),
{
}

// --------------------------------------------------------------------- admin

/// A request on an object names its bucket and its key; what is missing is told.
pub proof fn law_object_is_named(
    params: &StringMap<String>,
    r: Result<(String, String), AdminError>,
)
    requires
        call_ensures(handlers::object_params, (params,), r),
    ensures
        ({
            let m = query::texts(params@);
            &&& r is Ok <==> m.contains_key("bucket"@) && m.contains_key("key"@)
            &&& r matches Ok(p) ==> p.0@ == m["bucket"@] && p.1@ == m["key"@]
            &&& r matches Err(e) ==> e.status == 400
            &&& !m.contains_key("bucket"@) ==> (r matches Err(e) && e.message@
                == "missing bucket parameter"@)
        }),
{
}

/// A fenced node heals nothing and sets nothing.
pub proof fn law_fenced_node_changes_nothing(
    params: &StringMap<String>,
    heal: Result<(String, String), AdminError>,
    ftt: Result<usize, AdminError>,
)
    requires
        call_ensures(handlers::heal_params, (false, params), heal),
        call_ensures(handlers::ftt_param, (false, params), ftt),
    ensures
        heal is Err && heal->Err_0.status == 503,
        ftt is Err && ftt->Err_0.status == 503,
{
}

/// The tolerance that is set is the number that was sent.
pub proof fn law_tolerance_is_as_sent(
    params: &StringMap<String>,
    n: u64,
    r: Result<usize, AdminError>,
)
    requires
        call_ensures(handlers::ftt_param, (true, params), r),
        n <= usize::MAX,
    ensures
        ({
            let m = query::texts(params@);
            &&& m.contains_key("ftt"@) && m["ftt"@] == text::decimal(n as nat) ==> r == Ok::<
                usize,
                AdminError,
            >(n as usize)
            &&& !m.contains_key("ftt"@) ==> (r matches Err(e) && e.status == 400)
        }),
{
    text::lemma_u64_round_trip(n);
}

/// A node that joins is taken with the addresses that it sends; the one for the cluster is that
/// for S3 where it sends none.
pub proof fn law_joiner_is_taken_as_sent(
    params: &StringMap<String>,
    r: Result<JoinRequest, AdminError>,
)
    requires
        call_ensures(handlers::join_params, (params,), r),
    ensures
        ({
            let m = query::texts(params@);
            &&& r is Ok ==> m.contains_key("advertise_s3"@) && r->Ok_0.advertise_s3@
                == m["advertise_s3"@]
            &&& r is Ok && m.contains_key("advertise_cluster"@) ==> r->Ok_0.advertise_cluster@
                == m["advertise_cluster"@]
            &&& r is Ok && !m.contains_key("advertise_cluster"@) ==> r->Ok_0.advertise_cluster@
                == m["advertise_s3"@]
            &&& !m.contains_key("advertise_s3"@) || !m.contains_key("raft_id"@) ==> r is Err
            &&& r matches Err(e) ==> e.status == 400
        }),
{
}

/// A bootstrap that is refused is a conflict, and any other failure one of the server.
pub proof fn law_refused_bootstrap_is_a_conflict(message: &str, r: u16)
    requires
        call_ensures(handlers::bootstrap_status, (message,), r),
    ensures
        r == 409 <==> split::holds(message@, "not allowed"@) || split::holds(message@, "already"@),
        r == 409 || r == 500,
{
}

/// The last scan took as long as it ran; where none had begun, what was known stays.
pub proof fn law_scan_took_its_time(elapsed: Option<Duration>, before: u64, r: u64)
    requires
        call_ensures(stats::scan_duration, (elapsed, before), r),
    ensures
        elapsed is Some ==> r == elapsed->0.secs,
        elapsed is None ==> r == before,
{
}

// ------------------------------------------------------------------------ S3

/// A delete that names a version removes that one; one that names none puts a marker on top
/// where the bucket keeps versions, and removes the object where it does not.
pub proof fn law_delete_goes_by_the_version(
    version_id: Option<&str>,
    mode: Versioning,
    r: DeletePlan,
)
    requires
        call_ensures(objects::plan_delete, (version_id, mode), r),
    ensures
        version_id matches Some(v) ==> r is Version && r->Version_0@ == v@,
        version_id is None && mode == Versioning::Off ==> r is Remove,
        version_id is None && mode == Versioning::Enabled ==> r is Marker,
        version_id is None && mode == Versioning::Suspended ==> r is Marker,
{
}

/// Only `Enabled` and `Suspended` are taken as a status, and as they are.
pub proof fn law_only_two_statuses_are_taken(
    status: &Option<String>,
    r: Result<String, S3Error>,
    q: Result<String, ServiceError>,
)
    requires
        call_ensures(settings::check_versioning, (status,), r),
        call_ensures(s3_service::check_versioning, (status,), q),
    ensures
        r is Ok <==> *status is Some && (status->0@ == "Enabled"@ || status->0@ == "Suspended"@),
        q is Ok <==> r is Ok,
        r is Ok ==> r->Ok_0@ == status->0@ && q->Ok_0@ == status->0@,
        r matches Err(e) ==> e.http_status == 400,
{
}

/// Lifecycle rules have to name their configuration.
pub proof fn law_rules_name_their_configuration(body: &Option<String>, r: Result<(), S3Error>)
    requires
        call_ensures(settings::check_lifecycle, (body,), r),
    ensures
        r is Ok <==> *body is Some && split::holds(body->0@, "LifecycleConfiguration"@),
        r matches Err(e) ==> e.http_status == 400,
{
}

/// The secret is given out only for the key that it goes with.
pub proof fn law_secret_goes_with_its_key(a: &AbixioAuth, key: &str, r: Option<String>)
    requires
        call_ensures(AbixioAuth::get_secret_key, (a, key), r),
    ensures
        r is Some <==> key@ == a.access_key@,
        r is Some ==> r->0@ == a.secret_key@,
{
}

/// A bucket that is not there is reported as such.
pub proof fn law_missing_bucket_is_reported(there: bool, r: Result<(), ServiceError>)
    requires
        call_ensures(s3_service::require_bucket, (there,), r),
    ensures
        r is Ok <==> there,
        r matches Err(e) ==> e.code@ == "NoSuchBucket"@,
{
}

/// An object has the type that was stated, and is plain bytes where none was.
pub proof fn law_type_is_as_stated(stated: &Option<String>, r: String)
    requires
        call_ensures(s3_service::content_type_or_default, (stated,), r),
    ensures
        *stated is Some && stated->0@.len() > 0 ==> r@ == stated->0@,
        *stated is None || stated->0@.len() == 0 ==> r@ == "application/octet-stream"@,
{
}

/// Other settings than the one that is set stay as they are.
pub proof fn law_one_setting_is_set(
    s: BucketSettings,
    tags: Vec<(String, String)>,
    policy: Json,
    lifecycle: Option<String>,
    a: BucketSettings,
    b: BucketSettings,
    c: BucketSettings,
)
    requires
        call_ensures(s3_service::with_tags, (Some(s), tags), a),
        call_ensures(s3_service::with_policy, (Some(s), policy), b),
        call_ensures(s3_service::with_lifecycle, (Some(s), lifecycle), c),
    ensures
        a.tags == Some(tags) && a.policy == s.policy && a.lifecycle == s.lifecycle && a.versioning
            == s.versioning && a.ftt == s.ftt,
        b.policy == Some(policy) && b.tags == s.tags && b.lifecycle == s.lifecycle && b.versioning
            == s.versioning && b.ftt == s.ftt,
        c.lifecycle == lifecycle && c.tags == s.tags && c.policy == s.policy && c.versioning
            == s.versioning && c.ftt == s.ftt,
{
}

/// Rules that are a list are taken before those of a whole configuration.
pub proof fn law_list_of_rules_comes_first(
    list: Option<Vec<LifecycleRule>>,
    whole: Option<Vec<LifecycleRule>>,
    r: Option<BucketLifecycleConfiguration>,
)
    requires
        call_ensures(rules::choose_config, (list, whole), r),
    ensures
        list is Some ==> r is Some && r->0.rules == list->0,
        list is None && whole is Some ==> r is Some && r->0.rules == whole->0,
        list is None && whole is None ==> r is None,
{
}

// ----------------------------------------------------------------- multipart

/// An upload begins where at least one disk has taken it.
pub proof fn law_upload_begins_on_some_disk(
    u: &UploadMeta,
    written: usize,
    r: Result<String, StorageError>,
)
    requires
        call_ensures(multipart::create_upload, (u, written), r),
    ensures
        r is Ok <==> written >= 1,
        r is Ok ==> r->Ok_0@ == u.upload_id@,
{
}

/// A part is stored where enough of its shards were written: all data shards, and one more where
/// there is parity.
pub proof fn law_part_is_stored_on_enough_disks(
    part: PartMeta,
    written: usize,
    data: usize,
    parity: usize,
    r: Result<PartMeta, StorageError>,
)
    requires
        call_ensures(multipart::finish_part, (part, written, data, parity), r),
    ensures
        parity == 0 ==> (r is Ok <==> written >= data),
        parity > 0 ==> (r is Ok <==> written > data),
        r is Ok ==> r->Ok_0 == part,
        r is Err ==> r->Err_0 == StorageError::WriteQuorum,
{
}

/// The descriptions of parts are the files `part.*.meta`.
pub proof fn law_description_is_told_by_its_name(n: i32, name: &str, file: String, r: bool)
    requires
        call_ensures(multipart::part_meta_file, (n,), file),
        call_ensures(multipart::is_part_meta, (name,), r),
        name@ == file@,
    ensures
        r,
{
    let s = file@;
    let d = text::decimal_int(n as int);
    let tail = ".meta"@;
    assert(s =~= "part."@ + d + tail);
    assert(s.take("part."@.len() as int) =~= "part."@);
    assert(s.skip(s.len() - tail.len()) =~= tail);
}

// ---------------------------------------------------------------------- time

/// A duration lasts at least as long as another where it has more seconds, or as many and no
/// fewer nanoseconds.
pub proof fn law_durations_are_ordered(a: &Duration, b: &Duration, r: bool)
    requires
        call_ensures(Duration::at_least, (a, b), r),
        a.nanos < 1_000_000_000,
        b.nanos < 1_000_000_000,
    ensures
        r <==> a.secs > b.secs || (a.secs == b.secs && a.nanos >= b.nanos),
{
}

/// Milliseconds are thousandths of seconds.
pub proof fn law_milliseconds_are_thousandths(millis: u64, r: Duration)
    requires
        call_ensures(Duration::from_millis, (millis,), r),
    ensures
        r.secs == millis / 1000,
        r.nanos == (millis % 1000) * 1_000_000,
{
}

/// The seconds since the epoch are those that were read, and none where nothing was.
pub proof fn law_seconds_are_those_read(reading: Option<Duration>, r: u64)
    requires
        call_ensures(time::epoch_secs, (reading,), r),
    ensures
        reading is Some ==> r == reading->0.secs,
        reading is None ==> r == 0,
{
}

// ---------------------------------------------------------------- conditions

/// A request fails its precondition: it asks for an object with another tag or, where it names
/// none, for one that was not modified after a moment before the object's date.
pub open spec fn precondition_fails(c: Conditionals, etag: Seq<char>, at: u64) -> bool {
    ||| c.if_match is Some && !s3_service_laws::names_tag(c.if_match, etag)
    ||| c.if_match is None && c.if_unmodified_since is Some && at > c.if_unmodified_since->0
}

/// The copy of the client is current: it names the tag of the object or, where it names none, a
/// moment at or after the object's date.
pub open spec fn copy_is_current(c: Conditionals, etag: Seq<char>, at: u64) -> bool {
    ||| c.if_none_match is Some && s3_service_laws::names_tag(c.if_none_match, etag)
    ||| c.if_none_match is None && c.if_modified_since is Some && at <= c.if_modified_since->0
}

proof fn lemma_stopped(c: Conditionals, etag: Seq<char>, at: u64)
    ensures
        ({
            let s = s3_service::stopped(c, etag, at as int);
            &&& s is None <==> !precondition_fails(c, etag, at) && !copy_is_current(c, etag, at)
            &&& precondition_fails(c, etag, at) ==> s->0.code == "PreconditionFailed"@
            &&& !precondition_fails(c, etag, at) && copy_is_current(c, etag, at) ==> s->0.code
                == "NotModified"@
        }),
{
}

/// Conditions are answered by what they ask of the tag and of the date: a precondition that
/// fails comes first, then a copy that is current, and any other request goes on.
pub proof fn law_conditions_are_answered(
    c: &Conditionals,
    etag: &str,
    at: u64,
    r: Result<(), ServiceError>,
)
    requires
        call_ensures(s3_service::check_conditionals, (c, etag, at), r),
    ensures
        precondition_fails(*c, etag@, at) ==> r is Err && r->Err_0.code@ == "PreconditionFailed"@,
        !precondition_fails(*c, etag@, at) && copy_is_current(*c, etag@, at) ==> r is Err
            && r->Err_0.code@ == "NotModified"@,
        !precondition_fails(*c, etag@, at) && !copy_is_current(*c, etag@, at) ==> r is Ok,
{
    lemma_stopped(*c, etag@, at);
}

/// A read without a range sends the object as it is, and tells what it is; a look sends the same
/// without the bytes.
pub proof fn law_read_is_answered(
    data: Vec<u8>,
    info: &ObjectInfo,
    c: &Conditionals,
    get: Result<ObjectAnswer, ServiceError>,
    head: Result<ObjectAnswer, ServiceError>,
)
    requires
        call_ensures(s3_service::answer_get, (data, info, c, None), get),
        call_ensures(s3_service::answer_head, (info, c), head),
    ensures
        get is Ok <==> !precondition_fails(*c, info.etag@, info.created_at) && !copy_is_current(
            *c,
            info.etag@,
            info.created_at,
        ),
        head is Ok <==> get is Ok,
        get is Ok ==> get->Ok_0.body@ == data@ && get->Ok_0.content_length == data@.len()
            && get->Ok_0.etag@ == info.etag@ && get->Ok_0.content_type@ == info.content_type@
            && get->Ok_0.last_modified == info.created_at && get->Ok_0.content_range is None,
        head is Ok ==> head->Ok_0.body@.len() == 0 && head->Ok_0.content_length == info.size
            && head->Ok_0.etag@ == info.etag@ && head->Ok_0.content_type@ == info.content_type@
            && head->Ok_0.last_modified == info.created_at,
        get is Err ==> get->Err_0.code@ == head->Err_0.code@,
{
    lemma_stopped(*c, info.etag@, info.created_at);
}

// -------------------------------------------------------------------- access

/// A statement that denies what is asked for is final; where none does, the owner may, and
/// anybody else may what some statement allows.
pub proof fn law_denial_is_final(p: &Policy, args: &Args, r: bool)
    requires
        call_ensures(Policy::is_allowed, (p, args), r),
        policy_laws::fits(p.statements@),
    ensures
        (exists|k: int|
            0 <= k < p.statements@.len() && p.statements@[k].effect is Deny
                && policy_laws::speaks_of(#[trigger] p.statements@[k], *args)) ==> !r,
        (forall|k: int|
            0 <= k < p.statements@.len() && p.statements@[k].effect is Deny
                ==> !policy_laws::speaks_of(#[trigger] p.statements@[k], *args)) ==> (r
            <==> args.is_owner || exists|k: int|
            0 <= k < p.statements@.len() && p.statements@[k].effect is Allow
                && policy_laws::speaks_of(#[trigger] p.statements@[k], *args)),
{
    policy_laws::law_statements_decide(p.statements@, *args);
}

/// Access is asked for of the policy of the bucket: a node that serves no data serves nobody,
/// and a request without a bucket, or on one without a policy, goes on.
pub proof fn law_access_goes_by_the_policy(
    rule: &AbixioAccess,
    blocked: bool,
    req: &AccessRequest,
    settings: &Option<BucketSettings>,
    r: Access,
)
    requires
        call_ensures(AbixioAccess::check, (rule, blocked, req, settings), r),
    ensures
        blocked <==> r == Access::Unavailable,
        !blocked && req.bucket is None ==> r == Access::Allowed,
        !blocked && (*settings is None || settings->0.policy is None || settings->0.policy == Some(
            Json::Null,
        )) ==> r == Access::Allowed,
{
}

// ----------------------------------------------------------------- lifecycle

/// A noncurrent version goes only where a rule in force lets it go, and a current one only where
/// it has outlived a rule in force.
pub proof fn law_version_goes_by_a_rule(
    e: &Evaluator,
    obj: &ObjectOpts,
    now: u64,
    newer: usize,
    r: Event,
)
    requires
        call_ensures(Evaluator::eval, (e, obj, now, newer), r),
        now < u64::MAX,
    ensures
        r.action is DeleteVersion ==> !obj.is_latest && exists|i: int|
            0 <= i < e.rules().len() && lifecycle_laws::in_force(
                #[trigger] e.rules()[i],
                obj.name@,
            ) && lifecycle_laws::lets_go(e.rules()[i], *obj, now, newer),
        obj.mod_time_unix_secs > 0 && obj.is_latest ==> (r.action is Delete
            <==> !obj.is_delete_marker && exists|i: int|
            0 <= i < e.rules().len() && lifecycle_laws::in_force(
                #[trigger] e.rules()[i],
                obj.name@,
            ) && lifecycle_laws::outlived(e.rules()[i], *obj, now)),
        obj.mod_time_unix_secs == 0 ==> r.action is Noop,
{
    if r.action is DeleteVersion {
        lifecycle_laws::law_noncurrent_version_is_kept_for_its_days(e.rules(), *obj, now, newer);
    }
    if obj.mod_time_unix_secs > 0 && obj.is_latest {
        lifecycle_laws::law_current_version_expires_by_its_age(e.rules(), *obj, now, newer);
    }
}

// ------------------------------------------------------------------- writing

/// A write with a source is a copy; any other is stored with its type, unless the code that it
/// asks for does not fit the disks.
pub proof fn law_write_is_planned(
    headers: &Vec<Header>,
    disks: usize,
    r: Result<PutPlan, S3Error>,
)
    requires
        call_ensures(objects::plan_put, (headers, disks), r),
    ensures
        ({
            let h = request::header_views(headers@);
            let copies = request::named(h, "x-amz-copy-source"@);
            let data = objects::number(h, "x-amz-meta-ec-data"@);
            let parity = objects::number(h, "x-amz-meta-ec-parity"@);
            let misfit = data is Some && parity is Some && (data->0 == 0 || data->0 + parity->0
                > disks);
            &&& copies <==> (r matches Ok(p) && p is Copy)
            &&& !copies && misfit <==> r is Err
            &&& r matches Err(e) ==> e.http_status == 400
            &&& r matches Ok(PutPlan::Store(o)) ==> o.ec_data == data && o.ec_parity == parity && (
            request::value(h, "content-type"@) matches Some(t) ==> o.content_type@ == t) && (
            request::value(h, "content-type"@) is None ==> o.content_type@
                == "application/octet-stream"@)
        }),
{
}

/// Only the private access list can be set.
pub proof fn law_only_the_private_list_is_set(headers: &Vec<Header>, r: Result<(), S3Error>)
    requires
        call_ensures(settings::check_acl, (headers,), r),
    ensures
        ({
            let acl = request::value(request::header_views(headers@), "x-amz-acl"@);
            &&& r is Ok <==> acl is None || acl->0.len() == 0 || acl->0 == "private"@
            &&& r matches Err(e) ==> e.http_status == 501
        }),
{
}

/// A policy is given out where there is one, and reported as missing where there is none.
pub proof fn law_policy_is_given_out(s: &BucketSettings, r: Result<&Json, ServiceError>)
    requires
        call_ensures(s3_service::bucket_policy, (s,), r),
    ensures
        r is Ok <==> s.policy is Some && !(s.policy->0 is Null),
        r matches Ok(p) ==> s.policy == Some(*p),
        r matches Err(e) ==> e.code@ == "NoSuchBucketPolicy"@,
{
}

/// The parts that are asked for are those of the request, in their order.
pub proof fn law_parts_are_asked_for_in_order(
    parts: &Vec<(Option<i32>, Option<String>)>,
    r: Vec<(i32, String)>,
    i: int,
)
    requires
        call_ensures(s3_service::requested_parts, (parts,), r),
        0 <= i < parts@.len(),
    ensures
        r@.len() == parts@.len(),
        parts@[i].0 matches Some(n) ==> r@[i].0 == n,
        parts@[i].0 is None ==> r@[i].0 == 0,
        parts@[i].1 matches Some(t) ==> r@[i].1@ == t@,
{
    assert(r@[i] == r@[i]);
}

/// A listing tells what was found: how many objects there are, whether there are more, and where
/// to go on.
pub proof fn law_listing_tells_what_was_found(
    bucket: &str,
    options: &ListOptions,
    found: &Listing,
    r: ListBucketResultV2,
    i: int,
)
    requires
        call_ensures(listing::list_objects, (bucket, options, found), r),
        0 <= i < found.common_prefixes@.len(),
    ensures
        r.name@ == bucket@,
        r.prefix@ == options.prefix@,
        r.key_count == found.objects@.len(),
        r.max_keys == options.max_keys,
        r.is_truncated == found.is_truncated,
        r.next_continuation_token@ == found.next_continuation_token@,
        r.contents@.len() == found.objects@.len(),
        r.common_prefixes@.len() == found.common_prefixes@.len(),
        r.common_prefixes@[i].prefix@ == found.common_prefixes@[i]@,
{
    let a = listing::prefix_views(r.common_prefixes@);
    let b = order::views(found.common_prefixes@);
    assert(a.len() == r.common_prefixes@.len() && b.len() == found.common_prefixes@.len());
    assert(a[i] == r.common_prefixes@[i].prefix@ && b[i] == found.common_prefixes@[i]@);
}

/// What is listed is what the parameters ask for.
pub proof fn law_listing_is_as_asked(params: &StringMap<String>, r: ListOptions)
    requires
        call_ensures(listing::list_options, (params,), r),
    ensures
        ({
            let m = query::texts(params@);
            &&& m.contains_key("prefix"@) ==> r.prefix@ == m["prefix"@]
            &&& !m.contains_key("prefix"@) ==> r.prefix@.len() == 0
            &&& m.contains_key("delimiter"@) ==> r.delimiter@ == m["delimiter"@]
            &&& !m.contains_key("delimiter"@) ==> r.delimiter@.len() == 0
            &&& !m.contains_key("max-keys"@) ==> r.max_keys == 1000
        }),
{
}

// ------------------------------------------------------------------- details

/// A stretch of an object ends where it was asked to, or with the object; an open one and one
/// counted from behind end with the object. What begins behind the end, and nothing from behind,
/// is no stretch.
pub proof fn law_stretch_stays_in_the_object(range: ByteRange, total: u64, r: Option<(u64, u64)>)
    requires
        call_ensures(s3_service::resolve_range, (range, total), r),
    ensures
        range matches ByteRange::Between { first, last } ==> {
            &&& first >= total ==> r is None
            &&& first < total ==> (r matches Some((a, b)) && a == first && b < total && (last
                matches Some(l) ==> l < total ==> b == l) && (last matches Some(l) ==> l >= total
                ==> b == total - 1) && (last is None ==> b == total - 1))
        },
        range matches ByteRange::Suffix { length } ==> {
            &&& length == 0 || total == 0 ==> r is None
            &&& 0 < length <= total ==> (r matches Some((a, b)) && b == total - 1 && b - a + 1
                == length)
            &&& 0 < total < length ==> (r matches Some((a, b)) && a == 0 && b == total - 1)
        },
{
}

/// An empty version identifier stands for the newest version, any other for itself; a bucket
/// has a name, and is located below the root.
pub proof fn law_names_stand_for_themselves(
    version: &str,
    v: Option<String>,
    bucket: &str,
    place: String,
)
    requires
        call_ensures(s3_service::read_version, (version,), v),
        call_ensures(s3_service::location, (bucket,), place),
    ensures
        v is None <==> version@.len() == 0,
        v matches Some(t) ==> t@ == version@,
        place@.len() == bucket@.len() + 1,
        place@[0] == '/',
        place@.skip(1) == bucket@,
{
    reveal_strlit("/");
    assert(place@.skip(1) =~= bucket@);
}

/// A path is signed from the root on, and is otherwise left as it is.
pub proof fn law_path_is_signed_from_the_root(path: &str, r: String)
    requires
        call_ensures(auth::canonical_uri, (path,), r),
    ensures
        r@.len() > 0,
        r@[0] == '/',
        path@.len() > 0 && path@[0] == '/' ==> r@ == path@,
        path@.len() == 0 || path@[0] != '/' ==> r@.skip(1) == path@,
{
    reveal_strlit("/");
    if path@.len() == 0 || path@[0] != '/' {
        assert(r@.skip(1) =~= path@);
    }
}

/// An object without versions is its own newest and only version.
pub proof fn law_object_without_versions_is_the_newest(
    key: &str,
    created: u64,
    marker: bool,
    size: u64,
    r: ObjectOpts,
)
    requires
        call_ensures(engine::unversioned_opts, (key, created, marker, size), r),
    ensures
        r.name@ == key@,
        r.is_latest,
        r.num_versions == 1,
        r.version_id@.len() == 0,
        r.successor_mod_time_unix_secs == 0,
        r.mod_time_unix_secs == created,
        r.is_delete_marker == marker,
        r.size == size,
{
}

/// A log that does not begin with its first entry lacks all that stand before it; one that is
/// empty reports nothing.
pub proof fn law_log_tells_what_it_lacks(
    first: Option<u64>,
    last: Option<u64>,
    term: Option<u64>,
    r: LogReport,
)
    requires
        call_ensures(ranges::log_report, (first, last, term), r),
    ensures
        last is None ==> r.last is None && r.purged is None,
        last matches Some(l) ==> (r.last matches Some(at) && at.index == l && (term matches Some(
            t,
        ) ==> at.term == t)),
        last is Some && first == Some(0u64) ==> r.purged is None,
        last is Some && first is Some && first->0 > 0 ==> (r.purged matches Some(at) && at.index
            + 1 == first->0),
{
}

/// A snapshot bears the place up to which it reaches and the time at which it was made.
pub proof fn law_snapshot_bears_its_place(index: u64, term: u64, now: u64, r: SnapshotMeta)
    requires
        call_ensures(snapshot::snapshot_meta, (index, term, now), r),
    ensures
        r.last_applied_index == index,
        r.last_applied_term == term,
        r.created_at_unix_secs == now,
{
}

/// A short digest is the first quarter of the whole one.
pub proof fn law_short_digest_begins_the_digest(message: &[u8], short: String, whole: String)
    requires
        call_ensures(digest::short_hex, (message,), short),
        call_ensures(digest::sha256_hex, (message,), whole),
    ensures
        whole@.len() == 64 ==> short@ == whole@.take(16),
{
    if whole@.len() == 64 {
        assert(short@ =~= whole@.take(16));
    }
}

/// A copy source is the first name that its decoding yields, or itself where that yields none.
pub proof fn law_copy_source_is_decoded(source: &str, r: String)
    requires
        call_ensures(objects::decode_copy_source, (source,), r),
    ensures
        query::form_decoded(source@).len() == 0 ==> r@ == source@,
        query::form_decoded(source@).len() > 0 ==> r@ == query::form_decoded(source@)[0].0,
{
}

/// A part number that is written in digits is read as it stands, unless it is too large.
pub proof fn law_part_number_is_read(n: u64, s: &str, r: Option<i32>, size: Option<usize>)
    requires
        call_ensures(settings::parse_part_number, (s,), r),
        call_ensures(text::parse_usize, (s,), size),
        s@ == text::decimal(n as nat),
    ensures
        n <= i32::MAX ==> r is Some && r->0 == n,
        n > i32::MAX ==> r is None,
        n <= usize::MAX ==> size is Some && size->0 == n,
        n > usize::MAX ==> size is None,
{
    text::lemma_u64_round_trip(n);
    text::lemma_decimal_digits(n as nat);
    text::lemma_decimal_value(n as nat);
}

/// Two texts are the same where they have the same characters in the same order, and two lists
/// of numbers or of bytes where they have the same ones.
pub proof fn law_sameness_is_by_contents(
    s: &str,
    t: &str,
    same: bool,
    a: &[u8],
    b: &[u8],
    alike: bool,
    v: &Vec<usize>,
    w: &Vec<usize>,
    equal: bool,
)
    requires
        call_ensures(text::str_eq, (s, t), same),
        call_ensures(text::bytes_eq, (a, b), alike),
        call_ensures(storage::usizes_eq, (v, w), equal),
    ensures
        same <==> s@.len() == t@.len() && forall|i: int|
            0 <= i < s@.len() ==> #[trigger] s@[i] == t@[i],
        alike <==> a@.len() == b@.len() && forall|i: int|
            0 <= i < a@.len() ==> #[trigger] a@[i] == b@[i],
        equal <==> v@.len() == w@.len() && forall|i: int|
            0 <= i < v@.len() ==> #[trigger] v@[i] == w@[i],
{
    if s@.len() == t@.len() && forall|i: int| 0 <= i < s@.len() ==> #[trigger] s@[i] == t@[i] {
        assert(s@ =~= t@);
    }
    if a@.len() == b@.len() && forall|i: int| 0 <= i < a@.len() ==> #[trigger] a@[i] == b@[i] {
        assert(a@ =~= b@);
    }
    if v@.len() == w@.len() && forall|i: int| 0 <= i < v@.len() ==> #[trigger] v@[i] == w@[i] {
        assert(v@ =~= w@);
    }
}

} // verus!
