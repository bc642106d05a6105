//! What holds of the replicated state, its log and its snapshots.

use vstd::bytes::*;
use vstd::prelude::*;

use super::adapter::fsm as adapter;
use super::adapter::fsm::{Committed, Payload};
use super::adapter::log as ranges;
use super::adapter::log::{LogPlace, RangeEnd};
use super::adapter::network;
use super::fsm::ops;
use super::fsm::ops::{ApplyError, Op, State};
use super::storage::log;
use super::storage::log::{EntryModel, Row};
use super::storage::snapshot;
use crate::cluster::laws as cluster_laws;
use crate::json;
use crate::storage;
use crate::storage::BucketSettings;

verus! {

// ---------------------------------------------------------------- operations

/// Two settings hold the same: tolerance, versioning, policy, lifecycle rules and tags.
pub open spec fn equal_settings(a: BucketSettings, b: BucketSettings) -> bool {
    &&& a.ftt == b.ftt
    &&& a.versioning is Some <==> b.versioning is Some
    &&& a.versioning is Some ==> a.versioning->0@ == b.versioning->0@
    &&& a.policy is Some <==> b.policy is Some
    &&& a.policy is Some ==> json::same(a.policy->0, b.policy->0)
    &&& a.lifecycle is Some <==> b.lifecycle is Some
    &&& a.lifecycle is Some ==> a.lifecycle->0@ == b.lifecycle->0@
    &&& a.tags is Some <==> b.tags is Some
    &&& a.tags is Some ==> a.tags->0@.len() == b.tags->0@.len() && forall|i: int|
        0 <= i < a.tags->0@.len() ==> (#[trigger] a.tags->0@[i]).0@ == b.tags->0@[i].0@
            && a.tags->0@[i].1@ == b.tags->0@[i].1@
}

proof fn lemma_settings(a: BucketSettings, b: BucketSettings)
    requires
        storage::same_settings(a, b),
    ensures
        equal_settings(a, b),
{
    if a.tags is Some {
        let x = storage::pair_views(a.tags->0@);
        let y = storage::pair_views(b.tags->0@);
        assert(x.len() == a.tags->0@.len() && y.len() == b.tags->0@.len());
        assert forall|i: int| 0 <= i < a.tags->0@.len() implies (
        #[trigger] a.tags->0@[i]).0@ == b.tags->0@[i].0@ && a.tags->0@[i].1@
            == b.tags->0@[i].1@ by {
            assert(x[i] == y[i]);
        }
    }
}

/// A node that is added is a member from then on, with all that was told of it; the other
/// members, the placement and the buckets stay as they are.
pub proof fn law_added_node_is_a_member(op: Op, s: State, t: State, other: Seq<char>)
    requires
        op is AddNode,
        ops::leads_to(op, s, t),
    ensures
        ({
            let id = op->AddNode_node_id@;
            let m = t.members@[id];
            &&& ops::applicable(op, s)
            &&& t.members@.contains_key(id)
            &&& m.node_id@ == id
            &&& m.advertise_s3@ == op->advertise_s3@
            &&& m.advertise_cluster@ == op->advertise_cluster@
            &&& m.voter_kind == op->voter_kind
            &&& m.added_at_unix_secs == op->added_at_unix_secs
            &&& other != id ==> (t.members@.contains_key(other) <==> s.members@.contains_key(other))
            &&& other != id && s.members@.contains_key(other) ==> t.members@[other]
                == s.members@[other]
            &&& t.placement == s.placement
            &&& t.buckets == s.buckets
        }),
{
}

/// A node can be removed exactly where it is a member. From then on it is none; the others,
/// the placement and the buckets stay as they are.
pub proof fn law_removed_node_is_no_member(op: Op, s: State, t: State, other: Seq<char>)
    requires
        op is RemoveNode,
        ops::leads_to(op, s, t),
    ensures
        ({
            let id = op->RemoveNode_node_id@;
            &&& ops::applicable(op, s) <==> s.members@.contains_key(id)
            &&& !t.members@.contains_key(id)
            &&& other != id ==> (t.members@.contains_key(other) <==> s.members@.contains_key(other))
            &&& other != id && s.members@.contains_key(other) ==> t.members@[other]
                == s.members@[other]
            &&& t.placement == s.placement
            &&& t.buckets == s.buckets
        }),
{
}

/// A placement is replaced as a whole, and only by one with a greater epoch: its cluster and
/// each of its volumes are those that were proposed.
pub proof fn law_placement_is_replaced(op: Op, s: State, t: State, i: int)
    requires
        op is SetPlacementEpoch,
        ops::leads_to(op, s, t),
        0 <= i < op->volumes@.len(),
    ensures
        ops::applicable(op, s) <==> op->epoch_id > s.placement.epoch_id,
        t.placement.epoch_id == op->epoch_id,
        t.placement.cluster_id@ == op->cluster_id@,
        t.placement.volumes@.len() == op->volumes@.len(),
        t.placement.volumes@[i].backend_index == op->volumes@[i].backend_index,
        t.placement.volumes@[i].node_id@ == op->volumes@[i].node_id@,
        t.placement.volumes@[i].volume_id@ == op->volumes@[i].volume_id@,
        t.members == s.members,
        t.buckets == s.buckets,
{
    let x = ops::volume_models(t.placement.volumes@);
    let y = ops::volume_models(op->volumes@);
    assert(t.placement@.volumes == y);
    assert(x.len() == t.placement.volumes@.len() && y.len() == op->volumes@.len());
    assert(x[i] == y[i]);
}

/// The settings of a bucket are those that were set last; the other buckets, the members and
/// the placement stay as they are.
pub proof fn law_settings_are_those_set(op: Op, s: State, t: State, other: Seq<char>)
    requires
        op is SetBucketSettings,
        ops::leads_to(op, s, t),
    ensures
        ({
            let b = op->SetBucketSettings_bucket@;
            &&& ops::applicable(op, s)
            &&& t.buckets@.contains_key(b)
            &&& equal_settings(op->settings, t.buckets@[b])
            &&& other != b ==> (t.buckets@.contains_key(other) <==> s.buckets@.contains_key(other))
            &&& other != b && s.buckets@.contains_key(other) ==> t.buckets@[other]
                == s.buckets@[other]
            &&& t.members == s.members
            &&& t.placement == s.placement
        }),
{
    lemma_settings(op->settings, t.buckets@[op->SetBucketSettings_bucket@]);
}

/// Settings can be deleted exactly where a bucket has some, and are gone then; the other
/// buckets, the members and the placement stay as they are.
pub proof fn law_deleted_settings_are_gone(op: Op, s: State, t: State, other: Seq<char>)
    requires
        op is DeleteBucketSettings,
        ops::leads_to(op, s, t),
    ensures
        ({
            let b = op->DeleteBucketSettings_bucket@;
            &&& ops::applicable(op, s) <==> s.buckets@.contains_key(b)
            &&& !t.buckets@.contains_key(b)
            &&& other != b ==> (t.buckets@.contains_key(other) <==> s.buckets@.contains_key(other))
            &&& other != b && s.buckets@.contains_key(other) ==> t.buckets@[other]
                == s.buckets@[other]
            &&& t.members == s.members
            &&& t.placement == s.placement
        }),
{
}

/// The error tells what stands in the way: the epoch that is there and the one that came, or
/// the node or the bucket that is not known.
pub proof fn law_error_tells_the_obstacle(op: Op, s: State, e: ApplyError)
    requires
        !ops::applicable(op, s),
        ops::names_obstacle(op, s, e),
    ensures
        op is SetPlacementEpoch ==> e is EpochRegression && e->have == s.placement.epoch_id
            && e->got == op->epoch_id && e->got <= e->have,
        op is RemoveNode ==> e is UnknownNode && e->UnknownNode_0@ == op->RemoveNode_node_id@,
        op is DeleteBucketSettings ==> e is UnknownBucket && e->UnknownBucket_0@
            == op->DeleteBucketSettings_bucket@,
        op is SetPlacementEpoch || op is RemoveNode || op is DeleteBucketSettings,
{
}

/// States with the same contents have the same members with all that is told of them, the same
/// placement, and the same settings of the same buckets.
pub proof fn law_same_states_hold_the_same(a: State, b: State, k: Seq<char>, i: int)
    requires
        ops::same_state(a, b),
        0 <= i < a.placement.volumes@.len(),
    ensures
        a.members@.contains_key(k) <==> b.members@.contains_key(k),
        a.members@.contains_key(k) ==> {
            let x = a.members@[k];
            let y = b.members@[k];
            &&& x.node_id@ == y.node_id@
            &&& x.advertise_s3@ == y.advertise_s3@
            &&& x.advertise_cluster@ == y.advertise_cluster@
            &&& x.voter_kind == y.voter_kind
            &&& x.added_at_unix_secs == y.added_at_unix_secs
        },
        a.placement.epoch_id == b.placement.epoch_id,
        a.placement.cluster_id@ == b.placement.cluster_id@,
        a.placement.volumes@.len() == b.placement.volumes@.len(),
        a.placement.volumes@[i].backend_index == b.placement.volumes@[i].backend_index,
        a.placement.volumes@[i].node_id@ == b.placement.volumes@[i].node_id@,
        a.placement.volumes@[i].volume_id@ == b.placement.volumes@[i].volume_id@,
        a.buckets@.contains_key(k) <==> b.buckets@.contains_key(k),
        a.buckets@.contains_key(k) ==> equal_settings(a.buckets@[k], b.buckets@[k]),
{
    assert(a.members@.dom().contains(k) == b.members@.dom().contains(k));
    assert(a.buckets@.dom().contains(k) == b.buckets@.dom().contains(k));
    if a.members@.contains_key(k) {
        assert(a.members@[k]@ == b.members@[k]@);
    }
    if a.buckets@.contains_key(k) {
        lemma_settings(a.buckets@[k], b.buckets@[k]);
    }
    let x = ops::volume_models(a.placement.volumes@);
    let y = ops::volume_models(b.placement.volumes@);
    assert(a.placement@.volumes == x && b.placement@.volumes == y);
    assert(x.len() == a.placement.volumes@.len() && y.len() == b.placement.volumes@.len());
    assert(x[i] == y[i]);
}

// ------------------------------------------------------------------- entries

/// The cursor stands at the highest index of an operation that was applied, and never goes
/// back.
pub proof fn law_cursor_is_the_highest_index(
    entries: Seq<Committed>,
    n: nat,
    before: u64,
    i: int,
)
    requires
        n <= entries.len(),
        0 <= i < n,
    ensures
        adapter::cursor_after(entries, n, before) >= before,
        entries[i].payload is Normal ==> entries[i].place.index <= adapter::cursor_after(
            entries,
            n,
            before,
        ),
        adapter::cursor_after(entries, n, before) == before || exists|k: int|
            0 <= k < n && (#[trigger] entries[k]).payload is Normal && entries[k].place.index
                == adapter::cursor_after(entries, n, before),
    decreases n,
{
    if n > 1 {
        law_cursor_is_the_highest_index(entries, (n - 1) as nat, before, if i < n - 1 {
            i
        } else {
            0
        });
    } else {
        assert(adapter::cursor_after(entries, 0, before) == before);
    }
    let c = adapter::cursor_after(entries, (n - 1) as nat, before);
    if c != before {
        let k = choose|k: int|
            0 <= k < n - 1 && (#[trigger] entries[k]).payload is Normal && entries[k].place.index
                == c;
        assert(entries[k].payload is Normal);
    }
    assert(entries[n - 1] == entries[n - 1]);
}

/// The place of the membership is that of the last entry that changed it, and the last applied
/// place that of the last entry.
pub proof fn law_last_membership_counts(
    entries: Seq<Committed>,
    n: nat,
    before: Option<LogPlace>,
    i: int,
)
    requires
        n <= entries.len(),
        0 <= i < n,
        entries[i].payload is Membership,
        forall|j: int| i < j < n ==> !((#[trigger] entries[j]).payload is Membership),
    ensures
        adapter::membership_place(entries, n, before) == Some(entries[i].place),
        adapter::applied_place(entries, n, before) == Some(entries[n - 1].place),
    decreases n,
{
    if i < n - 1 {
        assert(!(entries[n - 1].payload is Membership));
        law_last_membership_counts(entries, (n - 1) as nat, before, i);
    }
}

/// The entries that are read for a range are those in it that the log has: an index belongs to
/// them exactly where the range takes it in and it does not lie behind the last one.
pub proof fn law_range_reads_what_is_there(
    start: RangeEnd,
    end: RangeEnd,
    last: Option<u64>,
    i: u64,
)
    requires
        start is Excluded ==> start->Excluded_0 < u64::MAX,
        end is Excluded ==> end->Excluded_0 > 0,
    ensures
        ranges::range_start(start) <= i <= ranges::effective_end(end, last) <==> {
            &&& start is Included ==> start->Included_0 <= i
            &&& start is Excluded ==> start->Excluded_0 < i
            &&& end is Included ==> i <= end->Included_0
            &&& end is Excluded ==> i < end->Excluded_0
            &&& last is Some ==> i <= last->0
            &&& last is None ==> i == 0
        },
{
}

// ----------------------------------------------------------------------- log

/// A range of the log holds exactly the entries with an index in it, both ends included.
pub proof fn law_range_of_the_log(entries: Seq<EntryModel>, start: u64, end: u64, e: EntryModel)
    ensures
        log::entries_between(entries, start, end).contains(e) <==> entries.contains(e) && start
            <= e.index && e.index <= end,
    decreases entries.len(),
{
    reveal(Seq::filter);
    let f = |e: EntryModel| start <= e.index <= end;
    let all = entries.filter(f);
    assert(all == log::entries_between(entries, start, end));
    if entries.len() > 0 {
        let d = entries.drop_last();
        law_range_of_the_log(d, start, end, e);
        let part = d.filter(f);
        assert(part == log::entries_between(d, start, end));
        let x = entries.last();
        if entries.contains(e) {
            let k = choose|k: int| 0 <= k < entries.len() && entries[k] == e;
            if k < d.len() {
                assert(d[k] == e);
            }
        }
        if d.contains(e) {
            let k = choose|k: int| 0 <= k < d.len() && d[k] == e;
            assert(entries[k] == e);
        }
        if part.contains(e) {
            let k = choose|k: int| 0 <= k < part.len() && part[k] == e;
            assert(all[k] == e);
        }
        if f(x) {
            assert(all[all.len() - 1] == x);
            assert(entries[entries.len() - 1] == x);
        }
        if all.contains(e) {
            let k = choose|k: int| 0 <= k < all.len() && all[k] == e;
            if k < part.len() {
                assert(part[k] == e);
            }
        }
    }
}

/// The entries of a range stand in their order.
pub proof fn law_range_keeps_the_order(
    entries: Seq<EntryModel>,
    start: u64,
    end: u64,
    i: int,
    j: int,
)
    requires
        forall|a: int, b: int|
            #![trigger entries[a], entries[b]]
            0 <= a < b < entries.len() ==> entries[a].index < entries[b].index,
        0 <= i < j < log::entries_between(entries, start, end).len(),
    ensures
        log::entries_between(entries, start, end)[i].index < log::entries_between(
            entries,
            start,
            end,
        )[j].index,
    decreases entries.len(),
{
    reveal(Seq::filter);
    let f = |e: EntryModel| start <= e.index <= end;
    let all = entries.filter(f);
    assert(all == log::entries_between(entries, start, end));
    if entries.len() > 0 {
        let d = entries.drop_last();
        let part = d.filter(f);
        assert(part == log::entries_between(d, start, end));
        if j < part.len() {
            law_range_keeps_the_order(d, start, end, i, j);
        } else {
            assert(part[i] == all[i]);
            assert(part.contains(part[i]));
            law_range_of_the_log(d, start, end, part[i]);
            let k = choose|k: int| 0 <= k < d.len() && d[k] == part[i];
            assert(entries[k] == part[i]);
            assert(all[j] == entries[entries.len() - 1]);
        }
    }
}

/// Entries that are accepted leave the indexes of the log strictly ascending.
pub proof fn law_accepted_entries_ascend(last: Option<u64>, new: Seq<EntryModel>, i: int, k: int)
    requires
        0 <= i <= k < log::accepted(last, new, i),
        log::accepted(last, new, i) <= new.len(),
    ensures
        k == i ==> (last is Some ==> last->0 < new[k].index),
        k > i ==> new[k - 1].index < new[k].index,
        new[k].body.len() <= log::MAX_BODY,
    decreases new.len() - i,
{
    if k > i {
        if k == i + 1 {
            law_accepted_entries_ascend(Some(new[i].index), new, i + 1, k);
        } else {
            law_accepted_entries_ascend(Some(new[i].index), new, i + 1, k);
        }
    }
}

/// An entry is stored as its index, its term and the length of its payload, the lowest byte
/// first, and then the payload.
pub proof fn law_entry_layout(e: EntryModel)
    requires
        e.body.len() <= log::MAX_BODY,
    ensures
        log::record(e).len() == 20 + e.body.len(),
        log::record(e).subrange(0, 8) == spec_u64_to_le_bytes(e.index),
        log::record(e).subrange(8, 16) == spec_u64_to_le_bytes(e.term),
        log::record(e).subrange(16, 20) == spec_u32_to_le_bytes(e.body.len() as u32),
        log::record(e).skip(20) == e.body,
{
    lemma_auto_spec_u64_to_from_le_bytes();
    lemma_auto_spec_u32_to_from_le_bytes();
    let r = log::record(e);
    assert(r.subrange(0, 8) =~= spec_u64_to_le_bytes(e.index));
    assert(r.subrange(8, 16) =~= spec_u64_to_le_bytes(e.term));
    assert(r.subrange(16, 20) =~= spec_u32_to_le_bytes(e.body.len() as u32));
    assert(r.skip(20) =~= e.body);
}

// ----------------------------------------------------------------- snapshots

/// The newest snapshot is the one with the greatest index.
pub proof fn law_newest_snapshot_has_the_greatest_index(indexes: Seq<u64>, i: int)
    requires
        0 <= i < indexes.len(),
    ensures
        snapshot::newest(indexes) is Some,
        indexes[i] <= snapshot::newest(indexes)->0,
        indexes.contains(snapshot::newest(indexes)->0),
{
    snapshot::lemma_in_order(indexes);
    let s = snapshot::in_order(indexes);
    let x = indexes[i];
    indexes.to_multiset_ensures();
    s.to_multiset_ensures();
    assert(indexes.contains(x));
    assert(indexes.to_multiset().count(x) > 0);
    assert(s.to_multiset().count(x) > 0);
    assert(s.contains(x));
    let k = choose|k: int| 0 <= k < s.len() && s[k] == x;
    assert(s[k] <= s[s.len() - 1]);
    let y = s.last();
    assert(s.contains(y));
    assert(s.to_multiset().count(y) > 0);
    assert(indexes.to_multiset().count(y) > 0);
    assert(indexes.contains(y));
}

/// Two snapshots stay: of more than two, all but the two newest go once a newer one is written.
pub proof fn law_two_snapshots_stay(indexes: Seq<u64>, latest: u64)
    requires
        indexes.no_duplicates(),
        snapshot::newest(indexes) == Some(latest),
    ensures
        indexes.len() > 2 ==> snapshot::obsolete(indexes, latest).len() == indexes.len() - 2,
        indexes.len() <= 2 ==> snapshot::obsolete(indexes, latest).len() == 0,
{
    if indexes.len() > 2 {
        snapshot::law_prune_keeps_two(indexes, latest);
        snapshot::lemma_in_order(indexes);
    } else if snapshot::obsolete(indexes, latest).len() > 0 {
        snapshot::law_prune_keeps_the_newest(indexes, latest, 0);
    }
}

/// A call to a peer goes below the peer's address, with one slash between, whether or not the
/// address ends with slashes.
pub proof fn law_call_goes_below_the_address(address: Seq<char>, tail: Seq<char>, route: Seq<char>)
    requires
        address.len() > 0,
        address[address.len() - 1] != '/',
        cluster_laws::slashes(tail),
    ensures
        network::rpc_address(address + tail, route) == address + "/_storage/v1/raft/"@ + route,
{
    cluster_laws::lemma_slashes(address, tail);
}

/// Entries are applied one after the other, each to the state that the one before it left; only
/// operations change the state.
pub proof fn law_entries_are_applied_in_order(
    entries: Seq<Committed>,
    n: nat,
    s: State,
    t: State,
) -> (m: State)
    requires
        adapter::reaches(entries, n + 1, s, t),
    ensures
        adapter::reaches(entries, n, s, m),
        entries[n as int].payload matches Payload::Normal(op) ==> ops::applicable(op, m)
            && ops::leads_to(op, m, t),
        !(entries[n as int].payload is Normal) ==> t == m,
{
    let trace = choose|trace: Seq<State>| #[trigger]
        adapter::is_trace(entries, n + 1, trace) && trace[0] == s && trace[n as int + 1] == t;
    let before = trace.drop_last();
    assert forall|i: int|
        #![trigger before[i]]
        0 <= i < n implies adapter::entry_applicable(entries[i], before[i])
        && adapter::entry_leads_to(entries[i], before[i], before[i + 1]) by {
        assert(before[i] == trace[i] && before[i + 1] == trace[i + 1]);
    }
    assert(adapter::is_trace(entries, n, before));
    assert(before[0] == trace[0]);
    let m = trace[n as int];
    assert(adapter::entry_applicable(entries[n as int], m));
    m
}

/// A payload is refused exactly where its length does not fit four bytes.
pub proof fn law_payload_has_to_fit(last: Option<u64>, e: EntryModel)
    ensures
        log::can_follow(last, e) <==> (last is Some ==> last->0 < e.index) && e.body.len()
            <= u32::MAX,
{
}

/// Of two records with the same index the later one counts; the other records stay as they are.
pub proof fn law_later_record_counts(rows: Seq<Row>, r: Row)
    requires
        forall|i: int, j: int|
            0 <= i < j < rows.len() ==> (#[trigger] rows[i]).index < (#[trigger] rows[j]).index,
    ensures
        log::put_row(rows, r).contains(r),
        forall|i: int|
            0 <= i < rows.len() && (#[trigger] rows[i]).index != r.index ==> log::put_row(
                rows,
                r,
            ).contains(rows[i]),
        forall|j: int|
            0 <= j < log::put_row(rows, r).len() ==> {
                let at = #[trigger] log::put_row(rows, r)[j];
                at == r || (at.index != r.index && rows.contains(at))
            },
    decreases rows.len(),
{
    let out = log::put_row(rows, r);
    if rows.len() == 0 {
        assert(out[0] == r);
    } else if r.index < rows[0].index {
        assert(out[0] == r);
        assert forall|i: int| 0 <= i < rows.len() implies out.contains(#[trigger] rows[i]) by {
            assert(out[i + 1] == rows[i]);
        }
    } else if r.index == rows[0].index {
        assert(out[0] == r);
        assert forall|i: int|
            0 <= i < rows.len() && (#[trigger] rows[i]).index != r.index implies out.contains(
            rows[i],
        ) by {
            assert(out[i] == rows[i]);
        }
    } else {
        let rest = rows.drop_first();
        law_later_record_counts(rest, r);
        let sub = log::put_row(rest, r);
        let k = sub.index_of(r);
        assert(out[k + 1] == r);
        assert forall|i: int|
            0 <= i < rows.len() && (#[trigger] rows[i]).index != r.index implies out.contains(
            rows[i],
        ) by {
            if i == 0 {
                assert(out[0] == rows[0]);
            } else {
                assert(rest[i - 1] == rows[i]);
                assert(sub.contains(rest[i - 1]));
                let q = sub.index_of(rest[i - 1]);
                assert(out[q + 1] == rows[i]);
            }
        }
        assert forall|j: int| 0 <= j < out.len() implies {
            let at = #[trigger] out[j];
            at == r || (at.index != r.index && rows.contains(at))
        } by {
            if j == 0 {
                assert(rows[0] == out[0]);
            } else {
                assert(out[j] == sub[j - 1]);
                if sub[j - 1] != r {
                    assert(rest.contains(sub[j - 1]));
                    let q = rest.index_of(sub[j - 1]);
                    assert(rows[q + 1] == sub[j - 1]);
                }
            }
        }
    }
}

} // verus!
