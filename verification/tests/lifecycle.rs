use abixio::lifecycle::engine::{
    abort_cutoff, any_enabled, next_step, stale_uploads, unversioned_opts, version_opts,
    FoundUpload, LifecycleEngine, StoreStep,
};
use abixio::lifecycle::evaluator::Evaluator;
use abixio::lifecycle::parse_lifecycle_config;
use abixio::lifecycle::types::{
    choose_config, expected_expiry, AbortIncompleteMultipartUpload, Action,
    BucketLifecycleConfiguration, Event, LifecycleExpiration, LifecycleRule,
    LifecycleRuleAndOperator, LifecycleRuleFilter, NoncurrentVersionExpiration, ObjectOpts, Tag,
};
use abixio::storage::{ErasureMeta, ObjectMeta};

fn enabled_rule() -> LifecycleRule {
    LifecycleRule {
        id: Some("r1".to_string()),
        status: "Enabled".to_string(),
        abort_incomplete_multipart_upload: None,
        expiration: None,
        filter: None,
        noncurrent_version_expiration: None,
        prefix: None,
    }
}

fn opts(name: &str, age_days: u64, is_latest: bool) -> ObjectOpts {
    let now = 2_000_000_000u64;
    ObjectOpts {
        name: name.to_string(),
        mod_time_unix_secs: now - age_days * 86_400,
        version_id: String::new(),
        is_latest,
        is_delete_marker: false,
        num_versions: 1,
        successor_mod_time_unix_secs: 0,
        size: 0,
    }
}

fn days(n: i32) -> Option<LifecycleExpiration> {
    Some(LifecycleExpiration { days: Some(n), ..Default::default() })
}

#[test]
fn disabled_rule_noop() {
    let mut rule = enabled_rule();
    rule.status = "Disabled".to_string();
    rule.expiration = days(1);
    let cfg = BucketLifecycleConfiguration { rules: vec![rule] };
    let ev = Evaluator::new(&cfg).eval(&opts("k", 10, true), 2_000_000_000, 0);
    assert_eq!(ev.action, Action::Noop);
}

#[test]
fn expiration_days_matches() {
    let mut rule = enabled_rule();
    rule.expiration = days(5);
    let cfg = BucketLifecycleConfiguration { rules: vec![rule] };
    let ev = Evaluator::new(&cfg).eval(&opts("k", 10, true), 2_000_000_000, 0);
    assert_eq!(ev.action, Action::Delete);
    assert_eq!(ev.rule_id, "r1");
}

#[test]
fn expiration_days_not_yet_matured() {
    let mut rule = enabled_rule();
    rule.expiration = days(30);
    let cfg = BucketLifecycleConfiguration { rules: vec![rule] };
    let ev = Evaluator::new(&cfg).eval(&opts("k", 5, true), 2_000_000_000, 0);
    assert_eq!(ev.action, Action::Noop);
}

#[test]
fn prefix_filter_excludes() {
    let mut rule = enabled_rule();
    rule.filter = Some(LifecycleRuleFilter {
        prefix: Some("tmp/".to_string()),
        ..Default::default()
    });
    rule.expiration = days(0);
    let cfg = BucketLifecycleConfiguration { rules: vec![rule] };
    let ev = Evaluator::new(&cfg).eval(&opts("keep/b", 10, true), 2_000_000_000, 0);
    assert_eq!(ev.action, Action::Noop);
    let ev2 = Evaluator::new(&cfg).eval(&opts("tmp/a", 10, true), 2_000_000_000, 0);
    assert_eq!(ev2.action, Action::Delete);
}

#[test]
fn noncurrent_version_expiration() {
    let mut rule = enabled_rule();
    rule.noncurrent_version_expiration = Some(NoncurrentVersionExpiration {
        noncurrent_days: Some(3),
        newer_noncurrent_versions: None,
    });
    let cfg = BucketLifecycleConfiguration { rules: vec![rule] };
    let mut obj = opts("k", 10, false);
    obj.successor_mod_time_unix_secs = 2_000_000_000u64 - 5 * 86_400;
    let ev = Evaluator::new(&cfg).eval(&obj, 2_000_000_000, 0);
    assert_eq!(ev.action, Action::DeleteVersion);
}

#[test]
fn noncurrent_respects_newer_version_threshold() {
    let mut rule = enabled_rule();
    rule.noncurrent_version_expiration = Some(NoncurrentVersionExpiration {
        noncurrent_days: Some(3),
        newer_noncurrent_versions: Some(2),
    });
    let cfg = BucketLifecycleConfiguration { rules: vec![rule] };
    let mut obj = opts("k", 10, false);
    obj.successor_mod_time_unix_secs = 2_000_000_000u64 - 5 * 86_400;
    // only 1 newer kept: not eligible yet (need >= 2)
    let ev = Evaluator::new(&cfg).eval(&obj, 2_000_000_000, 1);
    assert_eq!(ev.action, Action::Noop);
    // 2 newer kept: eligible
    let ev2 = Evaluator::new(&cfg).eval(&obj, 2_000_000_000, 2);
    assert_eq!(ev2.action, Action::DeleteVersion);
}

#[test]
fn expired_delete_marker_flagged() {
    let mut rule = enabled_rule();
    rule.expiration = Some(LifecycleExpiration {
        expired_object_delete_marker: Some(true),
        ..Default::default()
    });
    let cfg = BucketLifecycleConfiguration { rules: vec![rule] };
    let mut obj = opts("k", 0, true);
    obj.is_delete_marker = true;
    obj.num_versions = 1;
    let ev = Evaluator::new(&cfg).eval(&obj, 2_000_000_000, 0);
    assert_eq!(ev.action, Action::DeleteExpiredMarker);
}

#[test]
fn tag_filter_unsupported_is_noop() {
    let mut rule = enabled_rule();
    rule.filter = Some(LifecycleRuleFilter {
        tag: Some(Tag { key: Some("k".to_string()), value: Some("v".to_string()) }),
        ..Default::default()
    });
    rule.expiration = days(0);
    let cfg = BucketLifecycleConfiguration { rules: vec![rule] };
    let ev = Evaluator::new(&cfg).eval(&opts("k", 10, true), 2_000_000_000, 0);
    assert_eq!(ev.action, Action::Noop, "tag filter should be ignored as non-matching");
}

#[test]
fn abort_multipart_field_parses_and_is_accessible() {
    let mut rule = enabled_rule();
    rule.abort_incomplete_multipart_upload = Some(AbortIncompleteMultipartUpload {
        days_after_initiation: Some(7),
    });
    let cfg = BucketLifecycleConfiguration { rules: vec![rule] };
    assert_eq!(
        cfg.rules[0]
            .abort_incomplete_multipart_upload
            .as_ref()
            .and_then(|a| a.days_after_initiation),
        Some(7)
    );
}

#[test]
fn the_earliest_request_wins() {
    let mut late = enabled_rule();
    late.id = Some("late".to_string());
    late.expiration = days(8);
    let mut early = enabled_rule();
    early.id = Some("early".to_string());
    early.expiration = days(2);
    let cfg = BucketLifecycleConfiguration { rules: vec![late, early] };
    let ev = Evaluator::new(&cfg).eval(&opts("k", 10, true), 2_000_000_000, 0);
    assert_eq!(ev.rule_id, "early");
}

#[test]
fn only_one_action_does_nothing() {
    assert!(Action::Noop.is_noop());
    assert!(Action::default().is_noop());
    assert!(!Action::Delete.is_noop());
}

#[test]
fn expiry_is_some_days_later() {
    assert_eq!(expected_expiry(1_000, 2), 1_000 + 2 * 86_400);
    assert!(expected_expiry(1_000, 3) > expected_expiry(1_000, 2));
}

fn version(id: &str, created_at: u64, is_latest: bool) -> ObjectMeta {
    ObjectMeta {
        size: 3,
        etag: String::new(),
        content_type: String::new(),
        created_at,
        version_id: id.to_string(),
        is_latest,
        is_delete_marker: false,
        erasure: ErasureMeta {
            data: 1,
            parity: 0,
            index: 0,
            distribution: vec![0],
            epoch_id: 0,
            volume_ids: vec![],
        },
        checksum: String::new(),
        user_metadata: vec![],
        tags: vec![],
    }
}

#[test]
fn a_pass_deletes_what_is_due() {
    let mut rule = enabled_rule();
    rule.expiration = days(5);
    let cfg = BucketLifecycleConfiguration { rules: vec![rule] };
    assert!(any_enabled(&cfg));
    let mut engine = LifecycleEngine::new();
    engine.next_bucket();
    engine.next_key();
    let now = 2_000_000_000;
    let obj = unversioned_opts("k", now - 10 * 86_400, false, 3);
    let (event, step) = engine.examine(&cfg, &obj, now);
    assert_eq!(event.action, Action::Delete);
    assert_eq!(step, StoreStep::DeleteObject);
    engine.settle(&obj, &event, step, true);
    assert_eq!(engine.stats.deleted, 1);
    assert_eq!(engine.stats.buckets_scanned, 1);
    assert_eq!(engine.stats.objects_examined, 1);
    engine.count_aborted(2);
    assert_eq!(engine.stats.multipart_aborted, 2);
}

#[test]
fn a_versioned_object_gets_a_delete_marker() {
    let versions = vec![version("v2", 20, true), version("v1", 10, false)];
    let latest = version_opts("k", &versions, 0);
    let event = Event { action: Action::Delete, rule_id: "r".to_string(), due_unix_secs: 0 };
    assert_eq!(next_step(&latest, &event), StoreStep::AddDeleteMarker);
    let older = version_opts("k", &versions, 1);
    assert_eq!(older.successor_mod_time_unix_secs, 20);
    assert_eq!(older.num_versions, 2);
    let event = Event { action: Action::DeleteVersion, rule_id: "r".to_string(), due_unix_secs: 0 };
    assert_eq!(next_step(&older, &event), StoreStep::DeleteVersion);
}

#[test]
fn exactly_the_stale_uploads_are_aborted() {
    let mut rule = enabled_rule();
    rule.abort_incomplete_multipart_upload = Some(AbortIncompleteMultipartUpload {
        days_after_initiation: Some(1),
    });
    let cfg = BucketLifecycleConfiguration { rules: vec![rule] };
    let cutoff = abort_cutoff(&cfg, 200_000).unwrap();
    assert_eq!(cutoff, 200_000 - 86_400);
    let found = vec![
        FoundUpload { key: "a".to_string(), upload_id: "1".to_string(), modified_secs: 100 },
        FoundUpload { key: "b".to_string(), upload_id: "2".to_string(), modified_secs: 199_999 },
    ];
    let stale = stale_uploads(&found, cutoff);
    assert_eq!(stale, vec![("a".to_string(), "1".to_string())]);
}

#[test]
fn the_first_of_the_earliest_rules_decides() {
    let named = |id: &str, n: i32| LifecycleRule {
        id: Some(id.to_string()),
        expiration: days(n),
        ..enabled_rule()
    };
    let rules = vec![named("late", 20), named("first", 5), named("second", 5), named("never", 900)];
    let cfg = BucketLifecycleConfiguration { rules };
    let obj = opts("k", 30, true);
    let event = Evaluator::new(&cfg).eval(&obj, 2_000_000_000, 0);
    assert_eq!(event.rule_id, "first");
    let one = BucketLifecycleConfiguration { rules: vec![named("first", 5)] };
    assert_eq!(Evaluator::new(&one).eval(&obj, 2_000_000_000, 0), event);
    let none = BucketLifecycleConfiguration { rules: vec![named("never", 900)] };
    assert_eq!(Evaluator::new(&none).eval(&obj, 2_000_000_000, 0), Event::default());
}

#[test]
fn a_list_of_rules_comes_before_a_whole_configuration() {
    let one = || Some(vec![enabled_rule()]);
    let none = || Some(Vec::new());
    assert_eq!(choose_config(one(), none()).unwrap().rules, vec![enabled_rule()]);
    assert_eq!(choose_config(None, one()).unwrap().rules, vec![enabled_rule()]);
    assert_eq!(choose_config(none(), one()).unwrap().rules, vec![]);
    assert_eq!(choose_config(None, None), None);
}

#[test]
fn a_stored_list_of_rules_is_read() {
    let text = r#"[
        {"id":"logs","status":"Enabled","prefix":"old/",
         "expiration":{"days":30,"expired_object_delete_marker":true},
         "noncurrent_version_expiration":{"noncurrent_days":7,"newer_noncurrent_versions":2},
         "abort_incomplete_multipart_upload":{"days_after_initiation":3},
         "filter":{"and":{"prefix":"both/"},"prefix":"logs/",
                   "object_size_greater_than":10,"object_size_less_than":20,
                   "tag":{"key":"k","value":"v"}}},
        {"status":"Disabled"}
    ]"#;
    let first = LifecycleRule {
        id: Some("logs".to_string()),
        status: "Enabled".to_string(),
        prefix: Some("old/".to_string()),
        expiration: Some(LifecycleExpiration {
            days: Some(30),
            expired_object_delete_marker: Some(true),
        }),
        noncurrent_version_expiration: Some(NoncurrentVersionExpiration {
            noncurrent_days: Some(7),
            newer_noncurrent_versions: Some(2),
        }),
        abort_incomplete_multipart_upload: Some(AbortIncompleteMultipartUpload {
            days_after_initiation: Some(3),
        }),
        filter: Some(LifecycleRuleFilter {
            and: Some(LifecycleRuleAndOperator { prefix: Some("both/".to_string()) }),
            object_size_greater_than: Some(10),
            object_size_less_than: Some(20),
            prefix: Some("logs/".to_string()),
            tag: Some(Tag { key: Some("k".to_string()), value: Some("v".to_string()) }),
        }),
    };
    let second = LifecycleRule { status: "Disabled".to_string(), ..Default::default() };
    let cfg = parse_lifecycle_config(text).unwrap();
    assert_eq!(cfg.rules, vec![first.clone(), second.clone()]);

    let whole = format!("{{\"rules\":{}}}", text);
    assert_eq!(parse_lifecycle_config(&whole).unwrap().rules, vec![first, second]);
    assert_eq!(parse_lifecycle_config("[]").unwrap().rules, vec![]);
}

#[test]
fn the_rules_that_the_service_stores_are_read_back() {
    let stored = s3s::dto::LifecycleRule {
        abort_incomplete_multipart_upload: None,
        expiration: Some(s3s::dto::LifecycleExpiration { days: Some(1), ..Default::default() }),
        filter: None,
        id: Some("r1".to_string()),
        noncurrent_version_expiration: None,
        noncurrent_version_transitions: None,
        prefix: None,
        status: s3s::dto::ExpirationStatus::from_static(s3s::dto::ExpirationStatus::ENABLED),
        transitions: None,
    };
    let text = serde_json::to_string(&vec![stored]).unwrap();
    let cfg = parse_lifecycle_config(&text).unwrap();
    let rule = LifecycleRule {
        expiration: Some(LifecycleExpiration { days: Some(1), ..Default::default() }),
        ..enabled_rule()
    };
    assert_eq!(cfg.rules, vec![rule]);
    let ev = Evaluator::new(&cfg).eval(&opts("k", 2, true), 2_000_000_000, 0);
    assert_eq!(ev.action, Action::Delete);
}

#[test]
fn a_text_that_holds_no_configuration_is_passed_over() {
    assert_eq!(parse_lifecycle_config(""), None);
    assert_eq!(parse_lifecycle_config("not json"), None);
    assert_eq!(parse_lifecycle_config("{}"), None);
    assert_eq!(parse_lifecycle_config("[{\"id\":\"no status\"}]"), None);
}
