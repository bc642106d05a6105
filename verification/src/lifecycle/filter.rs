//! Which objects a rule applies to. Only prefixes are supported; a rule that relies on
//! any other condition applies to nothing, which is safer than ignoring the condition.

use vstd::prelude::*;

use super::types::{LifecycleRule, LifecycleRuleFilter, ObjectOpts};
use crate::text;

verus! {

/// The name has the prefix, where there is one.
pub open spec fn prefix_accepts(prefix: Option<String>, name: Seq<char>) -> bool {
    match prefix {
        Some(p) => text::has_prefix(name, p@),
        None => true,
    }
}

/// The filter accepts the object.
pub open spec fn filter_accepts(f: LifecycleRuleFilter, name: Seq<char>) -> bool {
    &&& f.and is None
    &&& f.tag is None
    &&& f.object_size_greater_than is None
    &&& f.object_size_less_than is None
    &&& prefix_accepts(f.prefix, name)
}

/// The rule applies to the object: its filter accepts it or, without a filter, it has
/// the rule's prefix.
pub open spec fn applies(rule: LifecycleRule, name: Seq<char>) -> bool {
    match rule.filter {
        Some(f) => filter_accepts(f, name),
        None => prefix_accepts(rule.prefix, name),
    }
}

fn has_optional_prefix(prefix: &Option<String>, name: &str) -> (r: bool)
    ensures
        r == prefix_accepts(*prefix, name@),
{
    match prefix {
        Some(p) => text::starts_with(name, p.as_str()),
        None => true,
    }
}

/// Whether the rule applies to the object.
pub fn matches(rule: &LifecycleRule, obj: &ObjectOpts) -> (r: bool)
    ensures
        r == applies(*rule, obj.name@),
{
    if let Some(filter) = &rule.filter {
        return filter_matches(filter, obj);
    }
    has_optional_prefix(&rule.prefix, obj.name.as_str())
}

fn filter_matches(filter: &LifecycleRuleFilter, obj: &ObjectOpts) -> (r: bool)
    ensures
        r == filter_accepts(*filter, obj.name@),
{
    if filter.and.is_some() || filter.tag.is_some() || filter.object_size_greater_than.is_some()
        || filter.object_size_less_than.is_some() {
        return false;
    }
    has_optional_prefix(&filter.prefix, obj.name.as_str())
}

} // verus!
