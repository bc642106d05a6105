//! What holds of lifecycle decisions.

use vstd::prelude::*;

use super::engine;
use super::engine::{FoundUpload, PassStats, StoreStep};
use super::evaluator;
use super::types;
use super::types::{
    Action, FilterFields, LifecycleRule, LifecycleRuleFilter, ObjectOpts, RuleFields,
};
use crate::storage::ObjectMeta;

verus! {

/// A text begins with another one.
pub open spec fn begins(s: Seq<char>, p: Seq<char>) -> bool {
    p.len() <= s.len() && forall|i: int| 0 <= i < p.len() ==> #[trigger] s[i] == p[i]
}

/// A rule is in force for an object: it is enabled, and the object's name begins with the
/// prefix of its filter or, without a filter, with its own. A filter on anything but the
/// prefix lets no object pass.
pub open spec fn in_force(rule: LifecycleRule, name: Seq<char>) -> bool {
    let prefix = if rule.filter is Some {
        rule.filter->0.prefix
    } else {
        rule.prefix
    };
    &&& rule.status@ == "Enabled"@
    &&& rule.filter is Some ==> rule.filter->0.and is None && rule.filter->0.tag is None
        && rule.filter->0.object_size_greater_than is None
        && rule.filter->0.object_size_less_than is None
    &&& prefix is Some ==> begins(name, prefix->0@)
}

/// So many days have passed since a moment; a number of days that is not positive has.
pub open spec fn passed(days: i32, since: u64, now: u64) -> bool {
    if days > 0 {
        since + days * 86_400 <= now
    } else {
        since <= now
    }
}

/// The rule lets a noncurrent version go: its days, none where it states none, have passed
/// since the version was replaced or, where that is not known, since it was written; and as
/// many newer ones are kept as it asks for.
pub open spec fn lets_go(rule: LifecycleRule, obj: ObjectOpts, now: u64, newer: usize) -> bool {
    let n = rule.noncurrent_version_expiration->0;
    let days = if n.noncurrent_days is Some {
        n.noncurrent_days->0
    } else {
        0
    };
    let replaced = if obj.successor_mod_time_unix_secs > 0 {
        obj.successor_mod_time_unix_secs
    } else {
        obj.mod_time_unix_secs
    };
    &&& rule.noncurrent_version_expiration is Some
    &&& passed(days, replaced, now)
    &&& n.newer_noncurrent_versions is None || n.newer_noncurrent_versions->0 <= newer
}

/// The rule's days have passed for an object since it was written.
pub open spec fn outlived(rule: LifecycleRule, obj: ObjectOpts, now: u64) -> bool {
    rule.expiration is Some && rule.expiration->0.days is Some && passed(
        rule.expiration->0.days->0,
        obj.mod_time_unix_secs,
        now,
    )
}

proof fn lemma_begins(s: Seq<char>, p: Seq<char>)
    ensures
        crate::text::has_prefix(s, p) == begins(s, p),
{
    if begins(s, p) {
        assert(s.take(p.len() as int) =~= p);
    }
    if crate::text::has_prefix(s, p) {
        assert forall|i: int| 0 <= i < p.len() implies #[trigger] s[i] == p[i] by {
            assert(s.take(p.len() as int)[i] == s[i]);
        }
    }
}

proof fn lemma_in_force(rule: LifecycleRule, name: Seq<char>)
    ensures
        in_force(rule, name) == (types::enabled(rule) && super::filter::applies(rule, name)),
{
    match rule.filter {
        Some(f) => {
            if f.prefix is Some {
                lemma_begins(name, f.prefix->0@);
            }
        },
        None => {
            if rule.prefix is Some {
                lemma_begins(name, rule.prefix->0@);
            }
        },
    }
}

proof fn lemma_passed(since: u64, days: i32, now: u64)
    requires
        now < u64::MAX,
    ensures
        passed(days, since, now) == (now >= types::expiry(since, days)),
{
}

proof fn lemma_asks(rule: LifecycleRule, obj: ObjectOpts, now: u64, newer: usize)
    requires
        now < u64::MAX,
    ensures
        ({
            let a = evaluator::asks(rule, obj, now, newer);
            let lone = obj.is_delete_marker && obj.num_versions == 1;
            let reaped = lone && rule.expiration is Some && (
            rule.expiration->0.expired_object_delete_marker == Some(true) || outlived(
                rule,
                obj,
                now,
            ));
            &&& a is Some ==> in_force(rule, obj.name@)
            &&& a is Some && a->0.action is DeleteExpiredMarker <==> in_force(rule, obj.name@)
                && reaped
            &&& a is Some && a->0.action is DeleteVersion <==> in_force(rule, obj.name@) && !reaped
                && !obj.is_latest && lets_go(rule, obj, now, newer)
            &&& a is Some && a->0.action is Delete <==> in_force(rule, obj.name@) && !reaped
                && obj.is_latest && !obj.is_delete_marker && outlived(rule, obj, now)
            &&& a is Some ==> !(a->0.action is Noop) && !(a->0.action is DeleteAllVersions)
        }),
{
    lemma_in_force(rule, obj.name@);
    if rule.expiration is Some && rule.expiration->0.days is Some {
        lemma_passed(obj.mod_time_unix_secs, rule.expiration->0.days->0, now);
    }
    if rule.noncurrent_version_expiration is Some {
        let n = rule.noncurrent_version_expiration->0;
        let days = if n.noncurrent_days is Some {
            n.noncurrent_days->0
        } else {
            0
        };
        lemma_passed(obj.successor_mod_time_unix_secs, days, now);
        lemma_passed(obj.mod_time_unix_secs, days, now);
    }
}

/// A noncurrent version is removed only under an enabled rule that applies to it and lets it
/// go: where it is known when the version was replaced, only once the rule's days have passed
/// since then.
pub proof fn law_noncurrent_version_is_kept_for_its_days(
    rules: Seq<LifecycleRule>,
    obj: ObjectOpts,
    now: u64,
    newer: usize,
)
    requires
        now < u64::MAX,
        evaluator::decision(rules, obj, now, newer).action is DeleteVersion,
    ensures
        !obj.is_latest,
        exists|i: int|
            0 <= i < rules.len() && in_force(#[trigger] rules[i], obj.name@) && lets_go(
                rules[i],
                obj,
                now,
                newer,
            ),
{
    evaluator::law_earliest_request_wins(rules, obj, now, newer, rules.len());
    let e = evaluator::decision(rules, obj, now, newer);
    let i = choose|i: int|
        0 <= i < rules.len() && #[trigger] evaluator::asks(rules[i], obj, now, newer) == Some(e);
    lemma_asks(rules[i], obj, now, newer);
    assert(in_force(rules[i], obj.name@));
}

/// A noncurrent version that some enabled rule which applies to it lets go is not kept.
pub proof fn law_outdated_noncurrent_version_goes(
    rules: Seq<LifecycleRule>,
    obj: ObjectOpts,
    now: u64,
    newer: usize,
    i: int,
)
    requires
        now < u64::MAX,
        obj.mod_time_unix_secs > 0,
        !obj.is_latest,
        0 <= i < rules.len(),
        in_force(rules[i], obj.name@),
        lets_go(rules[i], obj, now, newer),
    ensures
        !(evaluator::decision(rules, obj, now, newer).action is Noop),
        !obj.is_delete_marker ==> evaluator::decision(rules, obj, now, newer).action
            is DeleteVersion,
{
    lemma_decided(rules, obj, now, newer, i);
}

proof fn lemma_decided(
    rules: Seq<LifecycleRule>,
    obj: ObjectOpts,
    now: u64,
    newer: usize,
    i: int,
)
    requires
        now < u64::MAX,
        obj.mod_time_unix_secs > 0,
        0 <= i < rules.len(),
        evaluator::asks(rules[i], obj, now, newer) is Some || (in_force(rules[i], obj.name@)
            && ((!obj.is_latest && lets_go(rules[i], obj, now, newer)) || (obj.is_latest
            && !obj.is_delete_marker && outlived(rules[i], obj, now)) || (obj.is_delete_marker
            && obj.num_versions == 1 && rules[i].expiration is Some && (
        rules[i].expiration->0.expired_object_delete_marker == Some(true) || outlived(
            rules[i],
            obj,
            now,
        ))))),
    ensures
        ({
            let d = evaluator::decision(rules, obj, now, newer);
            &&& !(d.action is Noop)
            &&& !(d.action is DeleteAllVersions)
            &&& d.action is Delete ==> obj.is_latest && !obj.is_delete_marker
            &&& d.action is DeleteVersion ==> !obj.is_latest
            &&& d.action is DeleteExpiredMarker ==> obj.is_delete_marker && obj.num_versions == 1
        }),
{
    evaluator::law_earliest_request_wins(rules, obj, now, newer, rules.len());
    lemma_asks(rules[i], obj, now, newer);
    assert(evaluator::asks(rules[i], obj, now, newer) is Some);
    let e = evaluator::decision(rules, obj, now, newer);
    let k = choose|k: int|
        0 <= k < rules.len() && #[trigger] evaluator::asks(rules[k], obj, now, newer) == Some(e);
    lemma_asks(rules[k], obj, now, newer);
}

/// A current version is deleted exactly where it is no delete marker and the days of some
/// enabled rule that applies to it have passed since it was written.
pub proof fn law_current_version_expires_by_its_age(
    rules: Seq<LifecycleRule>,
    obj: ObjectOpts,
    now: u64,
    newer: usize,
)
    requires
        now < u64::MAX,
        obj.mod_time_unix_secs > 0,
        obj.is_latest,
    ensures
        evaluator::decision(rules, obj, now, newer).action is Delete <==> !obj.is_delete_marker && (
        exists|i: int|
            0 <= i < rules.len() && in_force(#[trigger] rules[i], obj.name@) && outlived(
                rules[i],
                obj,
                now,
            )),
{
    let d = evaluator::decision(rules, obj, now, newer);
    if d.action is Delete {
        evaluator::law_earliest_request_wins(rules, obj, now, newer, rules.len());
        let k = choose|k: int|
            0 <= k < rules.len() && #[trigger] evaluator::asks(rules[k], obj, now, newer) == Some(
                d,
            );
        lemma_asks(rules[k], obj, now, newer);
        assert(in_force(rules[k], obj.name@));
    }
    if !obj.is_delete_marker && exists|i: int|
        0 <= i < rules.len() && in_force(#[trigger] rules[i], obj.name@) && outlived(
            rules[i],
            obj,
            now,
        ) {
        let i = choose|i: int|
            0 <= i < rules.len() && in_force(#[trigger] rules[i], obj.name@) && outlived(
                rules[i],
                obj,
                now,
            );
        lemma_decided(rules, obj, now, newer, i);
    }
}

/// A delete marker behind which nothing is left is reaped where some enabled rule that applies
/// to it asks for that, or has days that have passed since the marker was set; and no marker
/// is reaped otherwise.
pub proof fn law_lone_marker_is_reaped(
    rules: Seq<LifecycleRule>,
    obj: ObjectOpts,
    now: u64,
    newer: usize,
)
    requires
        now < u64::MAX,
        obj.mod_time_unix_secs > 0,
        obj.is_latest,
    ensures
        evaluator::decision(rules, obj, now, newer).action is DeleteExpiredMarker
            <==> obj.is_delete_marker && obj.num_versions == 1 && (exists|i: int|
            0 <= i < rules.len() && in_force(#[trigger] rules[i], obj.name@)
                && rules[i].expiration is Some && (
            rules[i].expiration->0.expired_object_delete_marker == Some(true) || outlived(
                rules[i],
                obj,
                now,
            ))),
{
    let d = evaluator::decision(rules, obj, now, newer);
    if d.action is DeleteExpiredMarker {
        evaluator::law_earliest_request_wins(rules, obj, now, newer, rules.len());
        let k = choose|k: int|
            0 <= k < rules.len() && #[trigger] evaluator::asks(rules[k], obj, now, newer) == Some(
                d,
            );
        lemma_asks(rules[k], obj, now, newer);
        assert(in_force(rules[k], obj.name@));
    }
    if obj.is_delete_marker && obj.num_versions == 1 && exists|i: int|
        0 <= i < rules.len() && in_force(#[trigger] rules[i], obj.name@) && rules[i].expiration
            is Some && (rules[i].expiration->0.expired_object_delete_marker == Some(true)
            || outlived(rules[i], obj, now)) {
        let i = choose|i: int|
            0 <= i < rules.len() && in_force(#[trigger] rules[i], obj.name@)
                && rules[i].expiration is Some && (
            rules[i].expiration->0.expired_object_delete_marker == Some(true) || outlived(
                rules[i],
                obj,
                now,
            ));
        lemma_decided(rules, obj, now, newer, i);
    }
}

/// A version of which it is not known when it was written is left alone.
pub proof fn law_undated_version_is_left_alone(
    rules: Seq<LifecycleRule>,
    obj: ObjectOpts,
    now: u64,
    newer: usize,
)
    requires
        obj.mod_time_unix_secs == 0,
    ensures
        evaluator::decision(rules, obj, now, newer).action is Noop,
{
}

/// What is to be removed at one moment is to be removed at every later one.
pub proof fn law_decisions_are_not_taken_back(
    rules: Seq<LifecycleRule>,
    obj: ObjectOpts,
    now: u64,
    later: u64,
    newer: usize,
)
    requires
        now <= later < u64::MAX,
        !(evaluator::decision(rules, obj, now, newer).action is Noop),
    ensures
        !(evaluator::decision(rules, obj, later, newer).action is Noop),
{
    evaluator::law_earliest_request_wins(rules, obj, now, newer, rules.len());
    let d = evaluator::decision(rules, obj, now, newer);
    let k = choose|k: int|
        0 <= k < rules.len() && #[trigger] evaluator::asks(rules[k], obj, now, newer) == Some(d);
    lemma_asks(rules[k], obj, now, newer);
    lemma_asks(rules[k], obj, later, newer);
    lemma_decided(rules, obj, later, newer, k);
}

/// An event names the rule that asked for it.
pub proof fn law_event_names_its_rule(
    rules: Seq<LifecycleRule>,
    obj: ObjectOpts,
    now: u64,
    newer: usize,
)
    requires
        now < u64::MAX,
        !(evaluator::decision(rules, obj, now, newer).action is Noop),
    ensures
        exists|i: int|
            0 <= i < rules.len() && in_force(#[trigger] rules[i], obj.name@)
                && evaluator::decision(rules, obj, now, newer).rule_id == (if rules[i].id is Some {
                rules[i].id->0@
            } else {
                Seq::empty()
            }),
{
    evaluator::law_earliest_request_wins(rules, obj, now, newer, rules.len());
    let d = evaluator::decision(rules, obj, now, newer);
    let k = choose|k: int|
        0 <= k < rules.len() && #[trigger] evaluator::asks(rules[k], obj, now, newer) == Some(d);
    lemma_asks(rules[k], obj, now, newer);
    assert(in_force(rules[k], obj.name@));
}

/// The moment at which so many days have passed.
pub open spec fn moment(days: i32, since: u64) -> int {
    if days > 0 {
        since + days * 86_400
    } else {
        since as int
    }
}

/// A current version comes due when the days of the rule that deletes it have passed; no other
/// enabled rule that applies to it came due before.
pub proof fn law_first_rule_to_expire_deletes(
    rules: Seq<LifecycleRule>,
    obj: ObjectOpts,
    now: u64,
    newer: usize,
    j: int,
)
    requires
        now < u64::MAX,
        evaluator::decision(rules, obj, now, newer).action is Delete,
        0 <= j < rules.len(),
    ensures
        ({
            let d = evaluator::decision(rules, obj, now, newer);
            &&& exists|i: int|
                0 <= i < rules.len() && in_force(#[trigger] rules[i], obj.name@) && outlived(
                    rules[i],
                    obj,
                    now,
                ) && d.due == moment(rules[i].expiration->0.days->0, obj.mod_time_unix_secs)
            &&& in_force(rules[j], obj.name@) && outlived(rules[j], obj, now) ==> d.due <= moment(
                rules[j].expiration->0.days->0,
                obj.mod_time_unix_secs,
            )
        }),
{
    evaluator::law_earliest_request_wins(rules, obj, now, newer, rules.len());
    let d = evaluator::decision(rules, obj, now, newer);
    let k = choose|k: int|
        0 <= k < rules.len() && #[trigger] evaluator::asks(rules[k], obj, now, newer) == Some(d);
    lemma_asks(rules[k], obj, now, newer);
    lemma_asks(rules[j], obj, now, newer);
    assert(in_force(rules[k], obj.name@));
    assert(evaluator::asks(rules[j], obj, now, newer) is Some ==> d.due <= evaluator::asks(
        rules[j],
        obj,
        now,
        newer,
    )->0.due);
}

/// A noncurrent version comes due when the days of the rule that removes it have passed since
/// it was replaced.
pub proof fn law_noncurrent_version_comes_due(
    rules: Seq<LifecycleRule>,
    obj: ObjectOpts,
    now: u64,
    newer: usize,
)
    requires
        now < u64::MAX,
        obj.successor_mod_time_unix_secs > 0,
        evaluator::decision(rules, obj, now, newer).action is DeleteVersion,
    ensures
        exists|i: int|
            0 <= i < rules.len() && in_force(#[trigger] rules[i], obj.name@) && lets_go(
                rules[i],
                obj,
                now,
                newer,
            ) && evaluator::decision(rules, obj, now, newer).due == moment(
                if rules[i].noncurrent_version_expiration->0.noncurrent_days is Some {
                    rules[i].noncurrent_version_expiration->0.noncurrent_days->0
                } else {
                    0
                },
                obj.successor_mod_time_unix_secs,
            ),
{
    evaluator::law_earliest_request_wins(rules, obj, now, newer, rules.len());
    let d = evaluator::decision(rules, obj, now, newer);
    let k = choose|k: int|
        0 <= k < rules.len() && #[trigger] evaluator::asks(rules[k], obj, now, newer) == Some(d);
    lemma_asks(rules[k], obj, now, newer);
    assert(in_force(rules[k], obj.name@));
}

// -------------------------------------------------------------------- passes

/// Nothing that has a version id is removed for good but by its id: the latest version gets a
/// delete marker on top. What has none is removed as a whole. Where nothing is to be done,
/// nothing is asked of the store.
pub proof fn law_steps_fit_the_version(action: Action, version_id: Seq<char>)
    ensures
        ({
            let step = engine::step_for(action, version_id);
            &&& action is Noop ==> step == StoreStep::Nothing
            &&& version_id.len() > 0 && action is Delete ==> step == StoreStep::AddDeleteMarker
            &&& version_id.len() > 0 && (action is DeleteVersion || action is DeleteExpiredMarker)
                ==> step == StoreStep::DeleteVersion
            &&& version_id.len() == 0 && (action is Delete || action is DeleteExpiredMarker)
                ==> step == StoreStep::DeleteObject
            &&& version_id.len() == 0 && action is DeleteVersion ==> step == StoreStep::Nothing
            &&& action is DeleteAllVersions ==> step == StoreStep::DeleteObject
        }),
{
}

/// One action is counted once, under its own heading, and changes no other count.
pub proof fn law_each_action_is_counted_once(stats: PassStats, action: Action)
    requires
        stats.deleted < usize::MAX,
        stats.deleted_versions < usize::MAX,
        stats.delete_markers_reaped < usize::MAX,
    ensures
        ({
            let n = engine::counted(stats, action);
            &&& n.deleted - stats.deleted == (if action is Delete || action is DeleteAllVersions {
                1int
            } else {
                0
            })
            &&& n.deleted_versions - stats.deleted_versions == (if action is DeleteVersion {
                1int
            } else {
                0
            })
            &&& n.delete_markers_reaped - stats.delete_markers_reaped == (
            if action is DeleteExpiredMarker {
                1int
            } else {
                0
            })
            &&& n.buckets_scanned == stats.buckets_scanned
            &&& n.objects_examined == stats.objects_examined
            &&& n.multipart_aborted == stats.multipart_aborted
        }),
{
}

/// A version is judged by its own metadata, and as replaced when the next newer version was
/// written.
pub proof fn law_version_was_replaced_by_the_next(
    o: ObjectOpts,
    key: Seq<char>,
    versions: Seq<ObjectMeta>,
    i: int,
)
    requires
        engine::is_version_opts(o, key, versions, i),
        0 <= i < versions.len(),
    ensures
        i > 0 ==> o.successor_mod_time_unix_secs == versions[i - 1].created_at,
        i == 0 ==> o.successor_mod_time_unix_secs == 0,
        o.name@ == key,
        o.mod_time_unix_secs == versions[i].created_at,
        o.version_id@ == versions[i].version_id@,
        o.is_latest == versions[i].is_latest,
        o.is_delete_marker == versions[i].is_delete_marker,
        o.num_versions == versions.len(),
        o.size == versions[i].size,
{
}

/// After how many days an enabled rule aborts uploads.
pub open spec fn aborts(rule: LifecycleRule, days: i32) -> bool {
    rule.status@ == "Enabled"@ && rule.abort_incomplete_multipart_upload is Some
        && rule.abort_incomplete_multipart_upload->0.days_after_initiation == Some(days)
}

proof fn lemma_shortest(rules: Seq<LifecycleRule>, n: nat)
    requires
        n <= rules.len(),
    ensures
        match engine::shortest_abort(rules, n) {
            None => forall|i: int, d: i32|
                0 <= i < n ==> !#[trigger] aborts(rules[i], d),
            Some(s) => (exists|i: int| 0 <= i < n && #[trigger] aborts(rules[i], s)) && forall|
                i: int,
                d: i32,
            |
                0 <= i < n && #[trigger] aborts(rules[i], d) ==> s <= d,
        },
    decreases n,
{
    if n > 0 {
        let m = (n - 1) as nat;
        lemma_shortest(rules, m);
        let r = rules[n - 1];
        match engine::abort_days(r) {
            None => {
                assert forall|d: i32| !#[trigger] aborts(r, d) by {}
            },
            Some(x) => {
                assert(aborts(r, x));
                assert forall|d: i32| #[trigger] aborts(r, d) implies d == x by {}
            },
        }
        if engine::shortest_abort(rules, m) is Some {
            let s = engine::shortest_abort(rules, m)->0;
            let i = choose|i: int| 0 <= i < m && #[trigger] aborts(rules[i], s);
            assert(aborts(rules[i], s));
        }
    }
}

/// An upload is aborted exactly where it is known when it was last touched and the days of
/// some enabled rule have passed since then; where an enabled rule states a negative number of
/// days, no upload is.
pub proof fn law_uploads_are_aborted_by_their_age(
    rules: Seq<LifecycleRule>,
    found: Seq<FoundUpload>,
    now: u64,
    i: int,
)
    requires
        0 <= i < found.len(),
        forall|a: int, b: int|
            #![trigger found[a], found[b]]
            0 <= a < found.len() && 0 <= b < found.len() && found[a].key@ == found[b].key@
                && found[a].upload_id@ == found[b].upload_id@ ==> a == b,
        forall|k: int, d: i32|
            0 <= k < rules.len() && #[trigger] aborts(rules[k], d) ==> d >= 0,
    ensures
        (engine::stale_before(rules, now) is Some && engine::stale_among(
            found,
            engine::stale_before(rules, now)->0,
            found.len(),
        ).contains((found[i].key@, found[i].upload_id@))) <==> found[i].modified_secs > 0 && (
        exists|k: int, d: i32|
            0 <= k < rules.len() && #[trigger] aborts(rules[k], d) && found[i].modified_secs + d
                * 86_400 <= now),
{
    lemma_shortest(rules, rules.len());
    let x = (found[i].key@, found[i].upload_id@);
    if engine::stale_before(rules, now) is Some {
        let cutoff = engine::stale_before(rules, now)->0;
        engine::law_exactly_the_stale_are_aborted(found, cutoff, found.len());
        if engine::stale_found(found, cutoff, found.len(), x) {
            let j = choose|j: int|
                0 <= j < found.len() && engine::is_stale(#[trigger] found[j], cutoff) && x == (
                    found[j].key@,
                    found[j].upload_id@,
                );
            assert(found[i].key@ == found[j].key@);
            assert(j == i);
            let s = engine::shortest_abort(rules, rules.len())->0;
            let k = choose|k: int| 0 <= k < rules.len() && #[trigger] aborts(rules[k], s);
            assert(aborts(rules[k], s) && found[i].modified_secs + s * 86_400 <= now);
        }
        if found[i].modified_secs > 0 && exists|k: int, d: i32|
            0 <= k < rules.len() && #[trigger] aborts(rules[k], d) && found[i].modified_secs + d
                * 86_400 <= now {
            let (k, d) = choose|k: int, d: i32|
                0 <= k < rules.len() && #[trigger] aborts(rules[k], d) && found[i].modified_secs + d
                    * 86_400 <= now;
            assert(engine::shortest_abort(rules, rules.len())->0 <= d);
            assert(engine::is_stale(found[i], cutoff));
            assert(engine::stale_found(found, cutoff, found.len(), x));
        }
    }
}

/// Two texts that may be missing are the same.
pub open spec fn same_text(a: Option<String>, b: Option<String>) -> bool {
    &&& a is Some <==> b is Some
    &&& a is Some ==> a->0@ == b->0@
}

/// A rule holds what its fields say, each in its own place.
pub proof fn law_rule_is_read_as_written(rule: LifecycleRule, f: RuleFields)
    requires
        rule@ == types::rule_of(f),
    ensures
        same_text(rule.id, f.0),
        same_text(rule.prefix, f.1),
        rule.status@ == f.2@,
        rule.abort_incomplete_multipart_upload is Some <==> f.3 is Some,
        f.3 is Some ==> rule.abort_incomplete_multipart_upload->0.days_after_initiation == f.3->0,
        rule.expiration is Some <==> f.4 is Some,
        f.4 matches Some(e) ==> rule.expiration->0.days == e.0
            && rule.expiration->0.expired_object_delete_marker == e.1,
        rule.noncurrent_version_expiration is Some <==> f.5 is Some,
        f.5 matches Some(n) ==> rule.noncurrent_version_expiration->0.noncurrent_days == n.0
            && rule.noncurrent_version_expiration->0.newer_noncurrent_versions == n.1,
        rule.filter is Some <==> f.6 is Some,
{
}

/// A filter holds what its fields say, each in its own place.
pub proof fn law_filter_is_read_as_written(filter: LifecycleRuleFilter, f: FilterFields)
    requires
        filter@ == types::filter_of(f),
    ensures
        filter.and is Some <==> f.0 is Some,
        f.0 matches Some(p) ==> same_text(filter.and->0.prefix, p),
        filter.tag is Some <==> f.1 is Some,
        f.1 matches Some(t) ==> same_text(filter.tag->0.key, t.0) && same_text(
            filter.tag->0.value,
            t.1,
        ),
        same_text(filter.prefix, f.2),
        filter.object_size_greater_than == f.3,
        filter.object_size_less_than == f.4,
{
}

/// The filter of a rule is that of its fields, and the rules of a document are those of its
/// entries, in their order.
pub proof fn law_every_rule_is_read(
    rules: Vec<LifecycleRule>,
    read: Vec<RuleFields>,
    i: int,
)
    requires
        types::rule_models(Some(rules)) == types::rules_of(Some(read)),
        0 <= i < read@.len(),
    ensures
        rules@.len() == read@.len(),
        rules@[i]@ == types::rule_of(read@[i]),
        read@[i].6 matches Some(f) ==> rules@[i].filter matches Some(g) && g@ == types::filter_of(
            f,
        ),
        types::rules_of(None) is None,
        types::rule_models(None) is None,
{
    let a = types::rule_models(Some(rules))->0;
    let b = types::rules_of(Some(read))->0;
    assert(a.len() == rules@.len() && b.len() == read@.len());
    assert(a[i] == rules@[i]@);
    assert(b[i] == types::rule_of(read@[i]));
}

/// A bucket is looked through exactly where one of its rules is in force.
pub proof fn law_bucket_is_looked_through(rules: Seq<LifecycleRule>, i: int)
    requires
        0 <= i < rules.len(),
    ensures
        rules[i].status@ == "Enabled"@ ==> engine::some_enabled(rules),
        (forall|j: int| 0 <= j < rules.len() ==> (#[trigger] rules[j]).status@ != "Enabled"@)
            ==> !engine::some_enabled(rules),
{
    if rules[i].status@ == "Enabled"@ {
        assert(types::enabled(rules[i]));
    }
}

} // verus!
