//! What holds of the functions that change a state, over one call or several.

use std::time::Instant;

use vstd::prelude::*;

use crate::admin::HealStats;
use crate::cluster::identity::{Exchange, NodeIdentity};
use crate::cluster::{ClusterManager, ClusterSummary, ServiceState};
use crate::heal::mrf::{MrfEntry, MrfQueue};
use crate::heal::scanner;
use crate::heal::scanner::ScanState;
use crate::lifecycle::engine::{LifecycleEngine, StoreStep};
use crate::lifecycle::evaluator::Evaluator;
use crate::lifecycle::types::{BucketLifecycleConfiguration, Event, ObjectOpts};
use crate::raft::fsm::ops;
use crate::raft::fsm::ops::{ApplyError, Op};
use crate::raft::fsm::AbixioStateMachine;
use crate::raft::storage::log;
use crate::raft::storage::log::{LogEntry, LogError, LogStore};

verus! {

// --------------------------------------------------------------------- queue

/// An object is queued once, behind all others, as long as the queue is open and has room; one
/// that is pending already is not queued again, and one that is refused changes nothing.
pub proof fn law_object_is_queued_once(q: &mut MrfQueue, e: MrfEntry, r: Result<(), String>)
    requires
        call_ensures(MrfQueue::enqueue, (q, e), r),
    ensures
        r is Ok ==> final(q).pending().contains(e@),
        old(q).pending().contains(e@) ==> r is Ok && final(q).queued() == old(q).queued(),
        !old(q).pending().contains(e@) && !old(q).is_closed() && old(q).queued().len()
            < old(q).limit() ==> r is Ok && final(q).queued() == old(q).queued().push(e@),
        !old(q).pending().contains(e@) && (old(q).is_closed() || old(q).queued().len()
            >= old(q).limit()) ==> r is Err && final(q).queued() == old(q).queued()
            && final(q).pending() == old(q).pending(),
        final(q).limit() == old(q).limit(),
{
}

/// Objects leave the queue in the order in which they came; one that has left stays pending
/// until it is done.
pub proof fn law_first_come_first_healed(q: &mut MrfQueue, r: Option<MrfEntry>)
    requires
        call_ensures(MrfQueue::dequeue, (q,), r),
    ensures
        old(q).queued().len() == 0 ==> r is None && final(q).queued() == old(q).queued(),
        old(q).queued().len() > 0 ==> r is Some && r->0@ == old(q).queued()[0],
        old(q).queued().len() > 0 ==> final(q).queued() == old(q).queued().skip(1),
        final(q).pending() == old(q).pending(),
{
    if old(q).queued().len() > 0 {
        assert(old(q).queued().drop_first() =~= old(q).queued().skip(1));
    }
}

/// An object that is done is no longer pending, and can be queued again; the others stay as
/// they are.
pub proof fn law_done_object_is_forgotten(q: &mut MrfQueue, e: &MrfEntry, other: MrfEntry, r: ())
    requires
        call_ensures(MrfQueue::mark_done, (q, e), r),
    ensures
        !final(q).pending().contains(e@),
        other@ != e@ ==> (final(q).pending().contains(other@) <==> old(q).pending().contains(
            other@,
        )),
        final(q).queued() == old(q).queued(),
        final(q).is_closed() == old(q).is_closed(),
{
}

/// A queue that is closed keeps what it holds, and the receiving side is handed out once.
pub proof fn law_queue_is_closed_for_good(q: &mut MrfQueue, p: &mut MrfQueue, r: (), first: bool)
    requires
        call_ensures(MrfQueue::close, (q,), r),
        call_ensures(MrfQueue::take_receiver, (p,), first),
    ensures
        final(q).is_closed(),
        final(q).queued() == old(q).queued(),
        first <==> !old(p).taken(),
        final(p).taken(),
        final(p).queued() == old(p).queued(),
{
}

// ------------------------------------------------------------------- scanner

/// A check is noted for its object, and for no other.
pub proof fn law_check_is_noted(
    s: &mut ScanState,
    bucket: &str,
    key: &str,
    at: Instant,
    other: Seq<char>,
    r: (),
)
    requires
        call_ensures(ScanState::mark_checked_at, (s, bucket, key, at), r),
    ensures
        ({
            let name = scanner::object_name(bucket@, key@);
            &&& final(s).checks().contains_key(name)
            &&& final(s).checks()[name] == at
            &&& other != name ==> (final(s).checks().contains_key(other)
                <==> old(s).checks().contains_key(other))
            &&& other != name && old(s).checks().contains_key(other) ==> final(s).checks()[other]
                == old(s).checks()[other]
            &&& final(s).interval() == old(s).interval()
        }),
{
}

/// An object that was never checked is scanned.
pub proof fn law_new_object_is_scanned(s: &ScanState, bucket: &str, key: &str, r: bool)
    requires
        call_ensures(ScanState::should_scan, (s, bucket, key), r),
        !s.checks().contains_key(scanner::object_name(bucket@, key@)),
    ensures
        r,
{
}

// ------------------------------------------------------------------- counters

/// A scan is counted as a scan and a repair as a repair, and nothing else changes.
pub proof fn law_events_are_counted_apart(a: &mut HealStats, b: &mut HealStats, r: (), q: ())
    requires
        call_ensures(HealStats::record_scan, (a,), r),
        call_ensures(HealStats::record_heal, (b,), q),
    ensures
        old(a).objects_scanned < u64::MAX ==> final(a).objects_scanned == old(a).objects_scanned
            + 1,
        final(a).objects_healed == old(a).objects_healed,
        final(a).last_scan_duration_secs == old(a).last_scan_duration_secs,
        old(b).objects_healed < u64::MAX ==> final(b).objects_healed == old(b).objects_healed + 1,
        final(b).objects_scanned == old(b).objects_scanned,
        final(b).last_scan_duration_secs == old(b).last_scan_duration_secs,
{
}

// ------------------------------------------------------------------- cluster

/// A node that is fenced tells why, and serves nothing from then on; who it is and what it knows
/// of the cluster stays.
pub proof fn law_fence_tells_why(m: &mut ClusterManager, reason: &str, r: ())
    requires
        call_ensures(ClusterManager::force_fence, (m, reason), r),
    ensures
        final(m).model().summary.state == ServiceState::Fenced,
        final(m).model().summary.fenced_reason == Some(reason@),
        final(m).model().summary.leader_id == old(m).model().summary.leader_id,
        final(m).model().summary.epoch_id == old(m).model().summary.epoch_id,
        final(m).model().summary.node_id == old(m).model().summary.node_id,
        final(m).model().topology.epoch == old(m).model().topology.epoch,
        final(m).model().topology.disks == old(m).model().topology.disks,
        final(m).model().epochs == old(m).model().epochs,
        final(m).cfg() == old(m).cfg(),
{
}

/// After its peers were asked, a node serves exactly where more than half of the voters, itself
/// among them, answered.
pub proof fn law_node_serves_with_a_majority(
    m: &mut ClusterManager,
    answers: &[(String, ClusterSummary)],
    now: u64,
    r: (),
)
    requires
        call_ensures(ClusterManager::refresh_from_peers, (m, answers, now), r),
    ensures
        final(m).model().summary.state == ServiceState::Ready <==> 2 * (answers@.len() + 1)
            > old(m).cfg().peers.len() + 1,
        final(m).model().summary.state == ServiceState::Ready || final(m).model().summary.state
            == ServiceState::Fenced,
        final(m).cfg() == old(m).cfg(),
{
}

/// A node becomes known once, behind those known before.
pub proof fn law_node_becomes_known_once(x: &mut Exchange, id: NodeIdentity, r: ())
    requires
        call_ensures(Exchange::learned, (x, id), r),
    ensures
        (exists|i: int|
            0 <= i < old(x).known@.len() && (#[trigger] old(x).known@[i]).node_id@ == id.node_id@)
            ==> final(x).known@ == old(x).known@,
        (forall|i: int|
            0 <= i < old(x).known@.len() ==> (#[trigger] old(x).known@[i]).node_id@ != id.node_id@)
            ==> final(x).known@ == old(x).known@.push(id),
        final(x).peers == old(x).peers,
        final(x).local == old(x).local,
{
}

// ----------------------------------------------------------------- lifecycle

/// A noncurrent version that stays counts as one that is kept; one that went does not, nor does
/// a current one.
pub proof fn law_kept_versions_are_counted(
    p: &mut LifecycleEngine,
    obj: &ObjectOpts,
    event: &Event,
    step: StoreStep,
    succeeded: bool,
    r: (),
)
    requires
        call_ensures(LifecycleEngine::settle, (p, obj, event, step, succeeded), r),
    ensures
        obj.is_latest ==> final(p).newer_noncurrent == old(p).newer_noncurrent,
        !obj.is_latest && (step is Nothing || !succeeded) ==> final(p).newer_noncurrent
            == old(p).newer_noncurrent + 1,
        !obj.is_latest && !(step is Nothing) && succeeded ==> final(p).newer_noncurrent
            == old(p).newer_noncurrent,
        step is Nothing || !succeeded ==> final(p).stats == old(p).stats,
{
}

/// What was removed is counted by its kind: objects, versions and delete markers apart.
pub proof fn law_removals_are_counted_by_kind(
    p: &mut LifecycleEngine,
    obj: &ObjectOpts,
    event: &Event,
    step: StoreStep,
    r: (),
)
    requires
        call_ensures(LifecycleEngine::settle, (p, obj, event, step, true), r),
        !(step is Nothing),
        p.stats.deleted < usize::MAX,
        p.stats.deleted_versions < usize::MAX,
        p.stats.delete_markers_reaped < usize::MAX,
    ensures
        final(p).stats.deleted - old(p).stats.deleted == (if event.action is Delete
            || event.action is DeleteAllVersions {
            1int
        } else {
            0
        }),
        final(p).stats.deleted_versions - old(p).stats.deleted_versions == (
        if event.action is DeleteVersion {
            1int
        } else {
            0
        }),
        final(p).stats.delete_markers_reaped - old(p).stats.delete_markers_reaped == (
        if event.action is DeleteExpiredMarker {
            1int
        } else {
            0
        }),
        final(p).stats.objects_examined == old(p).stats.objects_examined,
        final(p).stats.multipart_aborted == old(p).stats.multipart_aborted,
{
}

/// A version is judged by the rules with the versions that were kept so far, and is counted.
pub proof fn law_version_is_judged_by_the_rules(
    p: &mut LifecycleEngine,
    cfg: &BucketLifecycleConfiguration,
    e: &Evaluator,
    obj: &ObjectOpts,
    now: u64,
    r: (Event, StoreStep),
    judged: Event,
)
    requires
        call_ensures(LifecycleEngine::examine, (p, cfg, obj, now), r),
        call_ensures(Evaluator::new, (cfg,), *e),
        call_ensures(Evaluator::eval, (e, obj, now, p.newer_noncurrent), judged),
        p.stats.objects_examined < usize::MAX,
    ensures
        r.0@ == judged@,
        final(p).stats.objects_examined == old(p).stats.objects_examined + 1,
        final(p).stats.deleted == old(p).stats.deleted,
        final(p).newer_noncurrent == old(p).newer_noncurrent,
        judged.action is Noop ==> r.1 is Nothing,
        judged.action is DeleteVersion && obj.version_id@.len() > 0 ==> r.1 is DeleteVersion,
{
}

/// Every key begins with no version kept, and a bucket is counted.
pub proof fn law_count_begins_anew(p: &mut LifecycleEngine, q: &mut LifecycleEngine, r: (), s: ())
    requires
        call_ensures(LifecycleEngine::next_key, (p,), r),
        call_ensures(LifecycleEngine::next_bucket, (q,), s),
        q.stats.buckets_scanned < usize::MAX,
    ensures
        final(p).newer_noncurrent == 0,
        final(p).stats == old(p).stats,
        final(q).newer_noncurrent == 0,
        final(q).stats.buckets_scanned == old(q).stats.buckets_scanned + 1,
        final(q).stats.objects_examined == old(q).stats.objects_examined,
{
}

// ---------------------------------------------------------------------- raft

/// An operation that cannot be applied changes nothing; one that can leaves the cursor at the
/// higher of its own index and the one before.
pub proof fn law_cursor_never_goes_back(
    m: &mut AbixioStateMachine,
    index: u64,
    op: &Op,
    r: Result<u64, ApplyError>,
)
    requires
        call_ensures(AbixioStateMachine::apply, (m, index, op), r),
    ensures
        r is Ok <==> ops::applicable(*op, old(m).state()),
        r is Err ==> *final(m) == *old(m),
        r is Ok ==> final(m).cursor() >= old(m).cursor() && final(m).cursor() >= index,
        r is Ok ==> final(m).cursor() == index || final(m).cursor() == old(m).cursor(),
        r matches Ok(n) ==> n == final(m).cursor(),
{
}

/// An entry is appended behind the last one where its index is higher, or else refused with both
/// indexes; one whose bytes do not fit is refused too. A refused entry leaves the log as it is.
pub proof fn law_log_grows_at_its_end(l: &mut LogStore, entries: &[LogEntry], r: Result<(), LogError>)
    requires
        call_ensures(LogStore::append, (l, entries), r),
        l.is_intact(),
        entries@.len() == 1,
    ensures
        ({
            let new = entries@[0]@;
            let before = old(l).entries();
            let behind = before.len() == 0 || before.last().index < new.index;
            &&& final(l).is_intact()
            &&& !behind ==> r == Err::<(), LogError>(
                LogError::NonMonotonic { prev: before.last().index, got: new.index },
            )
            &&& behind && new.body.len() > log::MAX_BODY ==> (r matches Err(e) && e is Corruption)
            &&& behind && new.body.len() <= log::MAX_BODY ==> r is Ok && final(l).entries()
                == before.push(new)
            &&& r is Err ==> final(l).entries() == before
        }),
{
    let new = log::models(entries@);
    let last = log::last_index(old(l).entries());
    assert(new.len() == 1 && new[0] == entries@[0]@);
    assert(log::accepted(Some(new[0].index), new, 1) == 1);
    let k = log::accepted(last, new, 0);
    assert(k == (if log::can_follow(last, new[0]) {
        1int
    } else {
        0
    }));
    assert(old(l).entries() + new.take(1) =~= old(l).entries().push(new[0]));
    assert(old(l).entries() + new.take(0) =~= old(l).entries());
}

} // verus!
