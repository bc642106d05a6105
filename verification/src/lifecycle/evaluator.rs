//! Lifecycle evaluator. Given a bucket's lifecycle configuration and a single object
//! version, computes the action that the enforcement engine should take. Goes through
//! the enabled rules that apply, collects what each asks for, and picks the one that
//! came due earliest.

use vstd::prelude::*;

use super::filter;
use super::types;
use super::types::{
    Action, BucketLifecycleConfiguration, Event, EventModel, LifecycleRule, ObjectOpts,
};

verus! {

/// Evaluates the rules of one configuration.
pub struct Evaluator<'a> {
    cfg: &'a BucketLifecycleConfiguration,
}

/// The name of a rule, empty where it has none.
pub open spec fn rule_name(rule: LifecycleRule) -> Seq<char> {
    match rule.id {
        Some(s) => s@,
        None => Seq::empty(),
    }
}

/// When a lone delete marker is to be removed under the rule, if it is.
pub open spec fn marker_due(rule: LifecycleRule, obj: ObjectOpts, now: u64) -> Option<u64> {
    match rule.expiration {
        Some(exp) => if !obj.lone_marker() {
            None
        } else if exp.expired_object_delete_marker == Some(true) {
            Some(now)
        } else {
            match exp.days {
                Some(days) => if now >= types::expiry(obj.mod_time_unix_secs, days) {
                    Some(types::expiry(obj.mod_time_unix_secs, days))
                } else {
                    None
                },
                None => None,
            }
        },
        None => None,
    }
}

/// When a noncurrent version is to be removed under the rule, if it is: enough newer
/// noncurrent versions are kept, and it was replaced long enough ago.
pub open spec fn noncurrent_due(
    rule: LifecycleRule,
    obj: ObjectOpts,
    now: u64,
    newer: usize,
) -> Option<u64> {
    match rule.noncurrent_version_expiration {
        Some(n) => {
            let retained = match n.newer_noncurrent_versions {
                Some(k) => k <= 0 || newer >= k,
                None => true,
            };
            let base = if obj.successor_mod_time_unix_secs > 0 {
                obj.successor_mod_time_unix_secs
            } else {
                obj.mod_time_unix_secs
            };
            let days = match n.noncurrent_days {
                Some(d) => d,
                None => 0,
            };
            let due = types::expiry(base, days);
            if !obj.is_latest && retained && now >= due {
                Some(due)
            } else {
                None
            }
        },
        None => None,
    }
}

/// When the current version is to be deleted under the rule, if it is.
pub open spec fn current_due(rule: LifecycleRule, obj: ObjectOpts, now: u64) -> Option<u64> {
    match rule.expiration {
        Some(exp) => match exp.days {
            Some(days) => if obj.is_latest && !obj.is_delete_marker && now >= types::expiry(
                obj.mod_time_unix_secs,
                days,
            ) {
                Some(types::expiry(obj.mod_time_unix_secs, days))
            } else {
                None
            },
            None => None,
        },
        None => None,
    }
}

/// What one rule asks for, if anything.
pub open spec fn asks(rule: LifecycleRule, obj: ObjectOpts, now: u64, newer: usize) -> Option<
    EventModel,
> {
    let rule_id = rule_name(rule);
    if !types::enabled(rule) || !filter::applies(rule, obj.name@) {
        None
    } else if marker_due(rule, obj, now) is Some {
        Some(
            EventModel {
                action: Action::DeleteExpiredMarker,
                rule_id,
                due: marker_due(rule, obj, now)->0,
            },
        )
    } else if noncurrent_due(rule, obj, now, newer) is Some {
        Some(
            EventModel {
                action: Action::DeleteVersion,
                rule_id,
                due: noncurrent_due(rule, obj, now, newer)->0,
            },
        )
    } else if current_due(rule, obj, now) is Some {
        Some(
            EventModel { action: Action::Delete, rule_id, due: current_due(rule, obj, now)->0 },
        )
    } else {
        None
    }
}

/// The first of the first `n` rules whose request came due earliest.
pub open spec fn winner(
    rules: Seq<LifecycleRule>,
    obj: ObjectOpts,
    now: u64,
    newer: usize,
    n: nat,
) -> Option<EventModel>
    decreases n,
{
    if n == 0 {
        None
    } else {
        let before = winner(rules, obj, now, newer, (n - 1) as nat);
        let this = asks(rules[n - 1], obj, now, newer);
        if this is None {
            before
        } else if before is None || this->0.due < before->0.due {
            this
        } else {
            before
        }
    }
}

/// The decision for an object version.
pub open spec fn decision(
    rules: Seq<LifecycleRule>,
    obj: ObjectOpts,
    now: u64,
    newer: usize,
) -> EventModel {
    if obj.mod_time_unix_secs == 0 {
        types::no_event()
    } else {
        match winner(rules, obj, now, newer, rules.len()) {
            Some(e) => e,
            None => types::no_event(),
        }
    }
}

impl<'a> Evaluator<'a> {
    /// The rules that are evaluated.
    pub closed spec fn rules(&self) -> Seq<LifecycleRule> {
        self.cfg.rules@
    }

    /// An evaluator for a configuration.
    pub fn new(cfg: &'a BucketLifecycleConfiguration) -> (r: Self)
        ensures
            r.rules() == cfg.rules@,
    {
        Evaluator { cfg }
    }

    /// Picks a single action for an object version. `newer_noncurrent_versions` is the
    /// number of newer noncurrent versions that the caller has decided to keep.
    pub fn eval(
        &self,
        obj: &ObjectOpts,
        now_unix_secs: u64,
        newer_noncurrent_versions: usize,
    ) -> (r: Event)
        ensures
            r@ == decision(self.rules(), *obj, now_unix_secs, newer_noncurrent_versions),
    {
        if obj.mod_time_unix_secs == 0 {
            return Event::default();
        }
        let mut chosen: Option<Event> = None;
        let mut i: usize = 0;
        while i < self.cfg.rules.len()
            invariant
                i <= self.cfg.rules@.len(),
                match chosen {
                    Some(e) => winner(
                        self.cfg.rules@,
                        *obj,
                        now_unix_secs,
                        newer_noncurrent_versions,
                        i as nat,
                    ) == Some(e@),
                    None => winner(
                        self.cfg.rules@,
                        *obj,
                        now_unix_secs,
                        newer_noncurrent_versions,
                        i as nat,
                    ) is None,
                },
            decreases self.cfg.rules@.len() - i,
        {
            let request = Self::request(
                &self.cfg.rules[i],
                obj,
                now_unix_secs,
                newer_noncurrent_versions,
            );
            if let Some(event) = request {
                chosen = earlier(chosen, event);
            }
            i = i + 1;
        }
        match chosen {
            Some(e) => e,
            None => Event::default(),
        }
    }

    /// What one rule asks for, if anything.
    fn request(rule: &LifecycleRule, obj: &ObjectOpts, now: u64, newer: usize) -> (r: Option<
        Event,
    >)
        ensures
            match r {
                Some(e) => asks(*rule, *obj, now, newer) == Some(e@),
                None => asks(*rule, *obj, now, newer) is None,
            },
    {
        if !types::is_enabled(rule) || !filter::matches(rule, obj) {
            return None;
        }
        if obj.expired_object_delete_marker() {
            if let Some(exp) = &rule.expiration {
                if let Some(true) = exp.expired_object_delete_marker {
                    return Some(
                        Event {
                            action: Action::DeleteExpiredMarker,
                            rule_id: rule_id(rule),
                            due_unix_secs: now,
                        },
                    );
                }
                if let Some(days) = exp.days {
                    let due: u64 = types::expected_expiry(obj.mod_time_unix_secs, days);
                    if now >= due {
                        return Some(
                            Event {
                                action: Action::DeleteExpiredMarker,
                                rule_id: rule_id(rule),
                                due_unix_secs: due,
                            },
                        );
                    }
                }
            }
        }
        if !obj.is_latest {
            if let Some(ncve) = &rule.noncurrent_version_expiration {
                let retained_enough = match ncve.newer_noncurrent_versions {
                    Some(n) => n <= 0 || newer >= n as usize,
                    None => true,
                };
                let base: u64 = if obj.successor_mod_time_unix_secs > 0 {
                    obj.successor_mod_time_unix_secs
                } else {
                    obj.mod_time_unix_secs
                };
                let days: i32 = match ncve.noncurrent_days {
                    Some(d) => d,
                    None => 0,
                };
                let due: u64 = types::expected_expiry(base, days);
                if retained_enough && now >= due {
                    return Some(
                        Event {
                            action: Action::DeleteVersion,
                            rule_id: rule_id(rule),
                            due_unix_secs: due,
                        },
                    );
                }
            }
        }
        if obj.is_latest && !obj.is_delete_marker {
            if let Some(exp) = &rule.expiration {
                if let Some(days) = exp.days {
                    let due: u64 = types::expected_expiry(obj.mod_time_unix_secs, days);
                    if now >= due {
                        return Some(
                            Event {
                                action: Action::Delete,
                                rule_id: rule_id(rule),
                                due_unix_secs: due,
                            },
                        );
                    }
                }
            }
        }
        None
    }
}

fn rule_id(rule: &LifecycleRule) -> (r: String)
    ensures
        r@ == rule_name(*rule),
{
    match &rule.id {
        Some(s) => s.clone(),
        None => String::new(),
    }
}

/// Keeps the event that came due earliest; the first one where they tie.
fn earlier(a: Option<Event>, b: Event) -> (r: Option<Event>)
    ensures
        r == (match a {
            None => Some(b),
            Some(e) => if b.due_unix_secs < e.due_unix_secs {
                Some(b)
            } else {
                a
            },
        }),
{
    match a {
        None => Some(b),
        Some(e) => if b.due_unix_secs < e.due_unix_secs {
            Some(b)
        } else {
            Some(e)
        },
    }
}

// --------------------------------------------------------------------- laws

/// The decision is the request of some rule, and no rule's request came due earlier.
pub proof fn law_earliest_request_wins(
    rules: Seq<LifecycleRule>,
    obj: ObjectOpts,
    now: u64,
    newer: usize,
    n: nat,
)
    requires
        n <= rules.len(),
    ensures
        match winner(rules, obj, now, newer, n) {
            Some(e) => {
                &&& exists|i: int|
                    0 <= i < n && #[trigger] asks(rules[i], obj, now, newer) == Some(e)
                &&& forall|i: int|
                    0 <= i < n && (#[trigger] asks(rules[i], obj, now, newer)) is Some ==> e.due
                        <= asks(rules[i], obj, now, newer)->0.due
            },
            None => forall|i: int|
                0 <= i < n ==> (#[trigger] asks(rules[i], obj, now, newer)) is None,
        },
    decreases n,
{
    if n > 0 {
        law_earliest_request_wins(rules, obj, now, newer, (n - 1) as nat);
        assert(asks(rules[n - 1], obj, now, newer) == asks(rules[n - 1], obj, now, newer));
    }
}

/// The decision of one rule by itself.
pub open spec fn alone(rule: LifecycleRule, obj: ObjectOpts, now: u64, newer: usize) -> EventModel {
    decision(seq![rule], obj, now, newer)
}

proof fn lemma_alone(rule: LifecycleRule, obj: ObjectOpts, now: u64, newer: usize)
    requires
        obj.mod_time_unix_secs != 0,
    ensures
        alone(rule, obj, now, newer) == (match asks(rule, obj, now, newer) {
            Some(e) => e,
            None => types::no_event(),
        }),
        asks(rule, obj, now, newer) matches Some(e) ==> !(e.action is Noop) && e.due <= now,
{
    reveal_with_fuel(winner, 2);
    assert(seq![rule][0] == rule);
}

proof fn lemma_first_winner(
    rules: Seq<LifecycleRule>,
    obj: ObjectOpts,
    now: u64,
    newer: usize,
    n: nat,
) -> (i: int)
    requires
        n <= rules.len(),
        winner(rules, obj, now, newer, n) is Some,
    ensures
        0 <= i < n,
        asks(rules[i], obj, now, newer) == winner(rules, obj, now, newer, n),
        forall|j: int|
            0 <= j < i ==> ((#[trigger] asks(rules[j], obj, now, newer)) matches Some(e) ==> winner(
                rules,
                obj,
                now,
                newer,
                n,
            )->0.due < e.due),
        forall|j: int|
            0 <= j < n ==> ((#[trigger] asks(rules[j], obj, now, newer)) matches Some(e) ==> winner(
                rules,
                obj,
                now,
                newer,
                n,
            )->0.due <= e.due),
    decreases n,
{
    let m = (n - 1) as nat;
    let before = winner(rules, obj, now, newer, m);
    law_earliest_request_wins(rules, obj, now, newer, n);
    law_earliest_request_wins(rules, obj, now, newer, m);
    let this = asks(rules[n - 1], obj, now, newer);
    if this is Some && (before is None || this->0.due < before->0.due) {
        n - 1
    } else {
        lemma_first_winner(rules, obj, now, newer, m)
    }
}

/// The decision is that of one rule by itself. Of the rules that do anything by themselves it
/// is the one whose action came due earliest, and the first of them where they tie; where none
/// does anything, nothing is done.
pub proof fn law_first_of_the_earliest_rules_decides(
    rules: Seq<LifecycleRule>,
    obj: ObjectOpts,
    now: u64,
    newer: usize,
)
    ensures
        ({
            let d = decision(rules, obj, now, newer);
            ||| d == types::no_event() && forall|j: int|
                0 <= j < rules.len() ==> (#[trigger] alone(rules[j], obj, now, newer)).action
                    is Noop
            ||| exists|i: int|
                {
                    &&& 0 <= i < rules.len()
                    &&& d == #[trigger] alone(rules[i], obj, now, newer)
                    &&& !(d.action is Noop)
                    &&& d.due <= now
                    &&& forall|j: int|
                        0 <= j < rules.len() && !((#[trigger] alone(
                            rules[j],
                            obj,
                            now,
                            newer,
                        )).action is Noop) ==> d.due <= alone(rules[j], obj, now, newer).due
                    &&& forall|j: int|
                        0 <= j < i && !((#[trigger] alone(rules[j], obj, now, newer)).action is Noop)
                            ==> d.due < alone(rules[j], obj, now, newer).due
                }
        }),
{
    let d = decision(rules, obj, now, newer);
    if obj.mod_time_unix_secs != 0 {
        assert forall|j: int| 0 <= j < rules.len() implies (#[trigger] alone(
            rules[j],
            obj,
            now,
            newer,
        )) == (match asks(rules[j], obj, now, newer) {
            Some(e) => e,
            None => types::no_event(),
        }) by {
            lemma_alone(rules[j], obj, now, newer);
        }
        match winner(rules, obj, now, newer, rules.len()) {
            Some(e) => {
                let i = lemma_first_winner(rules, obj, now, newer, rules.len());
                lemma_alone(rules[i], obj, now, newer);
                assert(d == alone(rules[i], obj, now, newer));
            },
            None => {
                law_earliest_request_wins(rules, obj, now, newer, rules.len());
                assert forall|j: int| 0 <= j < rules.len() implies (#[trigger] alone(
                    rules[j],
                    obj,
                    now,
                    newer,
                )).action is Noop by {
                    assert(asks(rules[j], obj, now, newer) is None);
                }
            },
        }
    }
}

/// No action is taken before it is due, and what is done fits the version: a current
/// version is deleted only where it is no delete marker, a version is removed only where
/// it is noncurrent, and a marker is reaped only where nothing else is left.
pub proof fn law_actions_are_due_and_fit(
    rules: Seq<LifecycleRule>,
    obj: ObjectOpts,
    now: u64,
    newer: usize,
)
    ensures
        ({
            let d = decision(rules, obj, now, newer);
            &&& d.due <= now
            &&& d.action is Delete ==> obj.is_latest && !obj.is_delete_marker
            &&& d.action is DeleteVersion ==> !obj.is_latest
            &&& d.action is DeleteExpiredMarker ==> obj.lone_marker()
            &&& !(d.action is DeleteAllVersions)
        }),
{
    law_earliest_request_wins(rules, obj, now, newer, rules.len());
}

/// Rules that are not enabled ask for nothing.
pub proof fn law_disabled_rules_do_nothing(
    rules: Seq<LifecycleRule>,
    obj: ObjectOpts,
    now: u64,
    newer: usize,
)
    requires
        forall|i: int| 0 <= i < rules.len() ==> !types::enabled(#[trigger] rules[i]),
    ensures
        decision(rules, obj, now, newer) == types::no_event(),
{
    law_earliest_request_wins(rules, obj, now, newer, rules.len());
}

} // verus!
