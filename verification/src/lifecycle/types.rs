//! Lifecycle data model: rules as the evaluator reads them, object versions, and
//! decisions.

use s3s::dto;
use vstd::prelude::*;

use crate::storage;
use crate::time;

verus! {

/// A single lifecycle decision for one object version.
#[derive(Clone, Debug, PartialEq, Eq)]
pub struct Event {
    pub action: Action,
    pub rule_id: String,
    /// Unix seconds at which the action came due. Zero where there is no action.
    pub due_unix_secs: u64,
}

/// `Event` as a mathematical value.
pub struct EventModel {
    pub action: Action,
    pub rule_id: Seq<char>,
    pub due: u64,
}

impl View for Event {
    type V = EventModel;

    open spec fn view(&self) -> EventModel {
        EventModel { action: self.action, rule_id: self.rule_id@, due: self.due_unix_secs }
    }
}

/// The decision to do nothing.
pub open spec fn no_event() -> EventModel {
    EventModel { action: Action::Noop, rule_id: Seq::empty(), due: 0 }
}

impl Default for Event {
    fn default() -> (r: Self)
        ensures
            r@ == no_event(),
    {
        Event { action: Action::Noop, rule_id: String::new(), due_unix_secs: 0 }
    }
}

/// Actions that the enforcement engine knows how to perform.
#[derive(Clone, Copy, Debug, PartialEq, Eq, Structural)]
pub enum Action {
    /// No rule matched; leave the object alone.
    Noop,
    /// Delete the current version. On a versioned bucket this produces a delete marker,
    /// on an unversioned bucket it removes the object.
    Delete,
    /// Delete one specific noncurrent version.
    DeleteVersion,
    /// Delete the current version and every noncurrent version.
    DeleteAllVersions,
    /// A delete marker without surviving versions has expired; remove it.
    DeleteExpiredMarker,
}

impl Default for Action {
    fn default() -> (r: Self)
        ensures
            r == Action::Noop,
    {
        Action::Noop
    }
}

impl Action {
    /// Whether the action leaves the object alone.
    pub fn is_noop(self) -> (r: bool)
        ensures
            r == (self is Noop),
    {
        match self {
            Action::Noop => true,
            _ => false,
        }
    }
}

/// What the evaluator reads of one object version.
#[derive(Clone, Debug)]
pub struct ObjectOpts {
    pub name: String,
    /// Unix seconds.
    pub mod_time_unix_secs: u64,
    pub version_id: String,
    pub is_latest: bool,
    pub is_delete_marker: bool,
    pub num_versions: usize,
    /// Modification time of the version that replaced this one. Zero for the latest, or
    /// where it is not known.
    pub successor_mod_time_unix_secs: u64,
    /// Byte size.
    pub size: u64,
}

impl ObjectOpts {
    /// The version is the only one left and is a delete marker.
    pub open spec fn lone_marker(&self) -> bool {
        self.is_delete_marker && self.num_versions == 1
    }

    /// Whether this version is the only one left and is a delete marker.
    pub fn expired_object_delete_marker(&self) -> (r: bool)
        ensures
            r == self.lone_marker(),
    {
        self.is_delete_marker && self.num_versions == 1
    }
}

/// Seconds since the Unix epoch, by the wall clock.
pub fn unix_now_secs() -> (r: u64)
    ensures
        exists|now: std::time::SystemTime| r == #[trigger] time::secs_since_epoch(now),
{
    time::unix_secs()
}

/// The moment at which an object becomes eligible: its modification time and as many
/// days, as far as the seconds counter goes.
pub open spec fn expiry(mod_time: u64, days: i32) -> u64 {
    if days <= 0 {
        mod_time
    } else if mod_time + days * 86_400 > u64::MAX {
        u64::MAX
    } else {
        (mod_time + days * 86_400) as u64
    }
}

/// The moment at which an object becomes eligible for an action, given its modification
/// time and a threshold in days.
pub fn expected_expiry(mod_time_unix_secs: u64, days: i32) -> (r: u64)
    ensures
        r == expiry(mod_time_unix_secs, days),
{
    if days <= 0 {
        return mod_time_unix_secs;
    }
    mod_time_unix_secs.saturating_add(days as u64 * 86_400)
}

/// Expiry never comes before the modification, and more days never make it earlier.
pub proof fn law_expiry_is_monotonic(mod_time: u64, a: i32, b: i32)
    requires
        a <= b,
    ensures
        mod_time <= expiry(mod_time, a) <= expiry(mod_time, b),
{
}

// -------------------------------------------------------------------- rules

/// When current versions expire.
#[derive(Clone, Copy, Debug, Default, PartialEq, Eq)]
pub struct LifecycleExpiration {
    pub days: Option<i32>,
    pub expired_object_delete_marker: Option<bool>,
}

/// When noncurrent versions expire.
#[derive(Clone, Copy, Debug, Default, PartialEq, Eq)]
pub struct NoncurrentVersionExpiration {
    pub noncurrent_days: Option<i32>,
    pub newer_noncurrent_versions: Option<i32>,
}

/// When incomplete multipart uploads are aborted.
#[derive(Clone, Copy, Debug, Default, PartialEq, Eq)]
pub struct AbortIncompleteMultipartUpload {
    pub days_after_initiation: Option<i32>,
}

/// A tag condition.
#[derive(Clone, Debug, Default, PartialEq, Eq)]
pub struct Tag {
    pub key: Option<String>,
    pub value: Option<String>,
}

/// A combination of conditions.
#[derive(Clone, Debug, Default, PartialEq, Eq)]
pub struct LifecycleRuleAndOperator {
    pub prefix: Option<String>,
}

/// Which objects a rule applies to.
#[derive(Clone, Debug, Default, PartialEq, Eq)]
pub struct LifecycleRuleFilter {
    pub and: Option<LifecycleRuleAndOperator>,
    pub object_size_greater_than: Option<i64>,
    pub object_size_less_than: Option<i64>,
    pub prefix: Option<String>,
    pub tag: Option<Tag>,
}

/// One lifecycle rule.
#[derive(Clone, Debug, Default, PartialEq, Eq)]
pub struct LifecycleRule {
    pub abort_incomplete_multipart_upload: Option<AbortIncompleteMultipartUpload>,
    pub expiration: Option<LifecycleExpiration>,
    pub filter: Option<LifecycleRuleFilter>,
    pub id: Option<String>,
    pub noncurrent_version_expiration: Option<NoncurrentVersionExpiration>,
    pub prefix: Option<String>,
    /// `Enabled` or `Disabled`.
    pub status: String,
}

/// The lifecycle rules of a bucket.
#[derive(Clone, Debug, Default, PartialEq, Eq)]
pub struct BucketLifecycleConfiguration {
    pub rules: Vec<LifecycleRule>,
}

/// `Tag` as a mathematical value.
pub struct TagModel {
    pub key: Option<Seq<char>>,
    pub value: Option<Seq<char>>,
}

/// `LifecycleRuleFilter` as a mathematical value. Of a combination it keeps the prefix.
pub struct FilterModel {
    pub and: Option<Option<Seq<char>>>,
    pub object_size_greater_than: Option<i64>,
    pub object_size_less_than: Option<i64>,
    pub prefix: Option<Seq<char>>,
    pub tag: Option<TagModel>,
}

impl View for LifecycleRuleFilter {
    type V = FilterModel;

    open spec fn view(&self) -> FilterModel {
        FilterModel {
            and: match self.and {
                Some(a) => Some(storage::opt_view(a.prefix)),
                None => None,
            },
            object_size_greater_than: self.object_size_greater_than,
            object_size_less_than: self.object_size_less_than,
            prefix: storage::opt_view(self.prefix),
            tag: match self.tag {
                Some(t) => Some(
                    TagModel {
                        key: storage::opt_view(t.key),
                        value: storage::opt_view(t.value),
                    },
                ),
                None => None,
            },
        }
    }
}

/// `LifecycleRule` as a mathematical value.
pub struct RuleModel {
    pub abort_incomplete_multipart_upload: Option<AbortIncompleteMultipartUpload>,
    pub expiration: Option<LifecycleExpiration>,
    pub filter: Option<FilterModel>,
    pub id: Option<Seq<char>>,
    pub noncurrent_version_expiration: Option<NoncurrentVersionExpiration>,
    pub prefix: Option<Seq<char>>,
    pub status: Seq<char>,
}

impl View for LifecycleRule {
    type V = RuleModel;

    open spec fn view(&self) -> RuleModel {
        RuleModel {
            abort_incomplete_multipart_upload: self.abort_incomplete_multipart_upload,
            expiration: self.expiration,
            filter: match self.filter {
                Some(f) => Some(f@),
                None => None,
            },
            id: storage::opt_view(self.id),
            noncurrent_version_expiration: self.noncurrent_version_expiration,
            prefix: storage::opt_view(self.prefix),
            status: self.status@,
        }
    }
}

/// Rules that were read, if they could be, as mathematical values.
pub open spec fn rule_models(rules: Option<Vec<LifecycleRule>>) -> Option<Seq<RuleModel>> {
    match rules {
        Some(v) => Some(Seq::new(v@.len(), |i: int| v@[i]@)),
        None => None,
    }
}

/// The fields of a filter: the prefix of a combination, the key and the value of a tag, the
/// prefix, and the two bounds on the size.
pub type FilterFields = (
    Option<Option<String>>,
    Option<(Option<String>, Option<String>)>,
    Option<String>,
    Option<i64>,
    Option<i64>,
);

/// The fields of a rule: its name, its prefix, its status, the days after which uploads are
/// aborted, when current and when noncurrent versions expire, and the fields of its filter.
pub type RuleFields = (
    Option<String>,
    Option<String>,
    String,
    Option<Option<i32>>,
    Option<(Option<i32>, Option<bool>)>,
    Option<(Option<i32>, Option<i32>)>,
    Option<FilterFields>,
);

/// The filter that fields make.
pub open spec fn filter_of(f: FilterFields) -> FilterModel {
    FilterModel {
        and: match f.0 {
            Some(prefix) => Some(storage::opt_view(prefix)),
            None => None,
        },
        tag: match f.1 {
            Some(t) => Some(
                TagModel { key: storage::opt_view(t.0), value: storage::opt_view(t.1) },
            ),
            None => None,
        },
        prefix: storage::opt_view(f.2),
        object_size_greater_than: f.3,
        object_size_less_than: f.4,
    }
}

/// The rule that fields make.
pub open spec fn rule_of(r: RuleFields) -> RuleModel {
    RuleModel {
        id: storage::opt_view(r.0),
        prefix: storage::opt_view(r.1),
        status: r.2@,
        abort_incomplete_multipart_upload: match r.3 {
            Some(days) => Some(AbortIncompleteMultipartUpload { days_after_initiation: days }),
            None => None,
        },
        expiration: match r.4 {
            Some(e) => Some(
                LifecycleExpiration { days: e.0, expired_object_delete_marker: e.1 },
            ),
            None => None,
        },
        noncurrent_version_expiration: match r.5 {
            Some(n) => Some(
                NoncurrentVersionExpiration {
                    noncurrent_days: n.0,
                    newer_noncurrent_versions: n.1,
                },
            ),
            None => None,
        },
        filter: match r.6 {
            Some(f) => Some(filter_of(f)),
            None => None,
        },
    }
}

/// The rules that fields make, if these could be read.
pub open spec fn rules_of(read: Option<Vec<RuleFields>>) -> Option<Seq<RuleModel>> {
    match read {
        Some(v) => Some(Seq::new(v@.len(), |i: int| rule_of(v@[i]))),
        None => None,
    }
}

/// The rules that a JSON text holds, where it is a list of lifecycle rules.
pub uninterp spec fn rules_in(json: Seq<char>) -> Option<Seq<RuleModel>>;

/// The rules that a JSON text holds, where it is a whole lifecycle configuration.
pub uninterp spec fn configuration_in(json: Seq<char>) -> Option<Seq<RuleModel>>;

/// Reads a JSON text with `serde_json::from_str` as a `Vec` of `s3s::dto::LifecycleRule`, and
/// moves the fields that the evaluation looks at out of each rule. The result depends on the
/// text alone; which texts are such a list is left unsaid.
#[verifier::external_body]
fn read_rules(json: &str) -> (r: Option<Vec<RuleFields>>)
    ensures
        rules_of(r) == rules_in(json@),
{
    let pick = |r: dto::LifecycleRule| (
        r.id,
        r.prefix,
        r.status.as_str().to_owned(),
        r.abort_incomplete_multipart_upload.map(|a| a.days_after_initiation),
        r.expiration.map(|e| (e.days, e.expired_object_delete_marker)),
        r.noncurrent_version_expiration.map(|n| (n.noncurrent_days, n.newer_noncurrent_versions)),
        r.filter.map(|f| (
            f.and.map(|a| a.prefix),
            f.tag.map(|t| (t.key, t.value)),
            f.prefix, f.object_size_greater_than, f.object_size_less_than,
        )),
    );
    let read = serde_json::from_str::<Vec<dto::LifecycleRule>>(json);
    read.ok().map(|v| v.into_iter().map(pick).collect())
}

/// Reads a JSON text with `serde_json::from_str` as an
/// `s3s::dto::BucketLifecycleConfiguration`, and moves the fields that the evaluation looks
/// at out of each of its rules. The result depends on the text alone; which texts are such a
/// configuration is left unsaid.
#[verifier::external_body]
fn read_configuration(json: &str) -> (r: Option<Vec<RuleFields>>)
    ensures
        rules_of(r) == configuration_in(json@),
{
    let pick = |r: dto::LifecycleRule| (
        r.id,
        r.prefix,
        r.status.as_str().to_owned(),
        r.abort_incomplete_multipart_upload.map(|a| a.days_after_initiation),
        r.expiration.map(|e| (e.days, e.expired_object_delete_marker)),
        r.noncurrent_version_expiration.map(|n| (n.noncurrent_days, n.newer_noncurrent_versions)),
        r.filter.map(|f| (
            f.and.map(|a| a.prefix),
            f.tag.map(|t| (t.key, t.value)),
            f.prefix, f.object_size_greater_than, f.object_size_less_than,
        )),
    );
    let read = serde_json::from_str::<dto::BucketLifecycleConfiguration>(json);
    read.ok().map(|c| c.rules.into_iter().map(pick).collect())
}

/// Puts a filter together.
pub fn make_filter(f: FilterFields) -> (r: LifecycleRuleFilter)
    ensures
        r@ == filter_of(f),
{
    LifecycleRuleFilter {
        and: match f.0 {
            Some(prefix) => Some(LifecycleRuleAndOperator { prefix }),
            None => None,
        },
        tag: match f.1 {
            Some(t) => Some(Tag { key: t.0, value: t.1 }),
            None => None,
        },
        prefix: f.2,
        object_size_greater_than: f.3,
        object_size_less_than: f.4,
    }
}

/// Puts a rule together.
pub fn make_rule(r: RuleFields) -> (rule: LifecycleRule)
    ensures
        rule@ == rule_of(r),
{
    LifecycleRule {
        id: r.0,
        prefix: r.1,
        status: r.2,
        abort_incomplete_multipart_upload: match r.3 {
            Some(days) => Some(AbortIncompleteMultipartUpload { days_after_initiation: days }),
            None => None,
        },
        expiration: match r.4 {
            Some(e) => Some(LifecycleExpiration { days: e.0, expired_object_delete_marker: e.1 }),
            None => None,
        },
        noncurrent_version_expiration: match r.5 {
            Some(n) => Some(
                NoncurrentVersionExpiration {
                    noncurrent_days: n.0,
                    newer_noncurrent_versions: n.1,
                },
            ),
            None => None,
        },
        filter: match r.6 {
            Some(f) => Some(make_filter(f)),
            None => None,
        },
    }
}

/// Puts the rules together that were read, if they could be.
pub fn make_rules(read: Option<Vec<RuleFields>>) -> (r: Option<Vec<LifecycleRule>>)
    ensures
        rule_models(r) == rules_of(read),
{
    let mut left = match read {
        Some(v) => v,
        None => {
            return None;
        },
    };
    let ghost all = left@;
    let mut rules: Vec<LifecycleRule> = Vec::new();
    while left.len() > 0
        invariant
            rules@.len() + left@.len() == all.len(),
            left@ == all.skip(rules@.len() as int),
            forall|i: int| 0 <= i < rules@.len() ==> (#[trigger] rules@[i])@ == rule_of(all[i]),
        decreases left@.len(),
    {
        rules.push(make_rule(left.remove(0)));
    }
    assert(rule_models(Some(rules)) == rules_of(read));
    Some(rules)
}

/// Which of two readings of a stored configuration counts: the plain list of rules where it
/// can be read as one, and otherwise the rules of the whole configuration.
pub fn choose_config(
    rules: Option<Vec<LifecycleRule>>,
    whole: Option<Vec<LifecycleRule>>,
) -> (r: Option<BucketLifecycleConfiguration>)
    ensures
        r == (match (rules, whole) {
            (Some(list), _) => Some(BucketLifecycleConfiguration { rules: list }),
            (None, Some(list)) => Some(BucketLifecycleConfiguration { rules: list }),
            (None, None) => None,
        }),
{
    match rules {
        Some(list) => Some(BucketLifecycleConfiguration { rules: list }),
        None => match whole {
            Some(list) => Some(BucketLifecycleConfiguration { rules: list }),
            None => None,
        },
    }
}

/// Reads the stored lifecycle configuration of a bucket: a plain list of rules, or a whole
/// configuration. There is none where the text is neither.
pub fn parse_lifecycle_config(json: &str) -> (r: Option<BucketLifecycleConfiguration>)
    ensures
        (match r {
            Some(c) => rule_models(Some(c.rules)),
            None => None,
        }) == (match rules_in(json@) {
            Some(rules) => Some(rules),
            None => configuration_in(json@),
        }),
{
    choose_config(make_rules(read_rules(json)), make_rules(read_configuration(json)))
}

/// The rule is in force.
pub open spec fn enabled(rule: LifecycleRule) -> bool {
    rule.status@ == "Enabled"@
}

/// Whether the rule is in force.
pub fn is_enabled(rule: &LifecycleRule) -> (r: bool)
    ensures
        r == enabled(*rule),
{
    crate::text::str_eq(rule.status.as_str(), "Enabled")
}

} // verus!
