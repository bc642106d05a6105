use abixio::json::Json;
use abixio::query::parse_query;
use abixio::s3::listing::KeyVersions;
use abixio::s3::objects::Versioning;
use abixio::s3_route::{content_length, dispatch, guess_op_label, Gate};
use abixio::s3_service::{
    answer_get, answer_head, bucket_lifecycle, bucket_policy, bucket_tags, check_conditionals,
    check_policy, check_versioning, collect_tags, content_type_or_default, cut_range,
    delete_outcomes, list_options, list_versions, location, map_err, object_ftt, put_version,
    read_policy, read_version, requested_parts, require_bucket, resolve_range, with_lifecycle, with_policy,
    with_tags, ByteRange, Conditionals, DeleteOutcome, RelaxedNameValidation, TagCondition,
};
use abixio::storage::{BucketSettings, ErasureMeta, ObjectInfo, ObjectMeta, StorageError};

#[test]
fn requests_go_to_their_service() {
    assert_eq!(dispatch("/_admin/status", false, true), Gate::Admin("status".to_string()));
    assert_eq!(dispatch("/_admin/status", false, false), Gate::NoAdmin);
    assert_eq!(dispatch("/b/k", true, true), Gate::Service);
    assert!(matches!(dispatch("/_storage/v1/read", true, true), Gate::Storage));
    assert!(matches!(dispatch("/_storage/v1/read", false, true), Gate::NoStorage));
    assert_eq!(content_length(Some("12")), 12);
    assert_eq!(content_length(Some("x")), 0);
    assert_eq!(content_length(None), 0);
}

#[test]
fn operations_are_labelled() {
    assert_eq!(guess_op_label("GET", "/", ""), "ListBuckets");
    assert_eq!(guess_op_label("GET", "/b", "list-type=2"), "ListObjectsV2");
    assert_eq!(guess_op_label("GET", "/b/k", ""), "GetObject");
    assert_eq!(guess_op_label("PUT", "/b", ""), "CreateBucket");
    assert_eq!(guess_op_label("PUT", "/b/k", ""), "PutObject");
    assert_eq!(guess_op_label("HEAD", "/b/k", ""), "HeadObject");
    assert_eq!(guess_op_label("DELETE", "/b/k", ""), "DeleteObject");
    assert_eq!(guess_op_label("PATCH", "/b/k", ""), "Unknown");
}

#[test]
fn failures_have_codes() {
    assert_eq!(map_err(&StorageError::BucketNotFound).code, "NoSuchBucket");
    assert_eq!(map_err(&StorageError::ObjectNotFound).code, "NoSuchKey");
    assert_eq!(map_err(&StorageError::BucketNotEmpty).code, "BucketNotEmpty");
    assert_eq!(map_err(&StorageError::BucketExists).code, "BucketAlreadyOwnedByYou");
    assert_eq!(map_err(&StorageError::WriteQuorum).code, "ServiceUnavailable");
    assert_eq!(
        map_err(&StorageError::ReadQuorum).message.as_deref(),
        Some("read quorum not met")
    );
    assert_eq!(map_err(&StorageError::Bitrot).code, "InternalError");
    assert_eq!(map_err(&StorageError::InvalidUploadId("u".to_string())).code, "NoSuchUpload");
    assert!(require_bucket(true).is_ok());
    assert_eq!(require_bucket(false).unwrap_err().code, "NoSuchBucket");
    assert!(RelaxedNameValidation.validate_bucket_name("b"));
}

fn conditions() -> Conditionals {
    Conditionals {
        if_match: None,
        if_none_match: None,
        if_modified_since: None,
        if_unmodified_since: None,
    }
}

#[test]
fn conditions_stop_a_request() {
    assert!(check_conditionals(&conditions(), "abc", 100).is_ok());
    let c = Conditionals { if_match: Some(TagCondition::Tag("x".to_string())), ..conditions() };
    assert_eq!(check_conditionals(&c, "abc", 100).unwrap_err().code, "PreconditionFailed");
    let c = Conditionals { if_match: Some(TagCondition::Any), ..conditions() };
    assert!(check_conditionals(&c, "abc", 100).is_ok());
    let c = Conditionals { if_none_match: Some(TagCondition::Tag("abc".to_string())), ..conditions() };
    assert_eq!(check_conditionals(&c, "abc", 100).unwrap_err().code, "NotModified");
    let c = Conditionals { if_unmodified_since: Some(99), ..conditions() };
    assert_eq!(check_conditionals(&c, "abc", 100).unwrap_err().code, "PreconditionFailed");
    let c = Conditionals {
        if_unmodified_since: Some(99),
        if_none_match: Some(TagCondition::Any),
        ..conditions()
    };
    assert_eq!(check_conditionals(&c, "abc", 100).unwrap_err().code, "PreconditionFailed");
    let c = Conditionals { if_modified_since: Some(100), ..conditions() };
    assert_eq!(check_conditionals(&c, "abc", 100).unwrap_err().code, "NotModified");
}

#[test]
fn a_condition_on_the_tag_takes_the_place_of_one_on_the_date() {
    let c = Conditionals {
        if_none_match: Some(TagCondition::Tag("b".to_string())),
        if_modified_since: Some(1_700_000_000),
        ..conditions()
    };
    assert!(check_conditionals(&c, "a", 1_700_000_000).is_ok());
    let c = Conditionals {
        if_match: Some(TagCondition::Tag("a".to_string())),
        if_unmodified_since: Some(99),
        ..conditions()
    };
    assert!(check_conditionals(&c, "a", 100).is_ok());
}

#[test]
fn ranges_are_cut_out() {
    let whole = cut_range(b"0123456789".to_vec(), None);
    assert_eq!(whole.body, b"0123456789");
    assert_eq!(whole.content_range, None);
    let part = cut_range(b"0123456789".to_vec(), Some(ByteRange::Between { first: 2, last: Some(4) }));
    assert_eq!(part.body, b"234");
    assert_eq!(part.content_range.as_deref(), Some("bytes 2-4/10"));
    let tail = cut_range(b"0123456789".to_vec(), Some(ByteRange::Suffix { length: 3 }));
    assert_eq!(tail.body, b"789");
    assert_eq!(resolve_range(ByteRange::Between { first: 5, last: None }, 10), Some((5, 9)));
    let empty = cut_range(b"0123".to_vec(), Some(ByteRange::Between { first: 2, last: Some(1) }));
    assert!(empty.body.is_empty());
    assert_eq!(empty.content_range.as_deref(), Some("bytes 2-1/4"));
    let behind = cut_range(b"0123".to_vec(), Some(ByteRange::Between { first: 9, last: Some(1) }));
    assert_eq!((behind.body, behind.content_range), (b"0123".to_vec(), None));
}

#[test]
fn options_have_defaults() {
    assert_eq!(content_type_or_default(&None), "application/octet-stream");
    assert_eq!(content_type_or_default(&Some("a/b".to_string())), "a/b");
    let o = list_options(&Some("p".to_string()), &None, None);
    assert_eq!((o.prefix.as_str(), o.delimiter.as_str(), o.max_keys), ("p", "", 1000));
    assert_eq!(list_options(&None, &None, Some(7)).max_keys, 7);
    assert_eq!(put_version("v", Versioning::Enabled), Some("v".to_string()));
    assert_eq!(put_version("", Versioning::Off), None);
    assert_eq!(read_version("v"), Some("v".to_string()));
    assert_eq!(read_version(""), None);
    assert_eq!(object_ftt(&parse_query("ec-ftt=2")), Some(2));
    assert_eq!(object_ftt(&parse_query("")), None);
    assert_eq!(location("b"), "/b");
}

#[test]
fn every_deletion_is_told() {
    let (gone, kept) = delete_outcomes(&vec![
        DeleteOutcome { key: "a".to_string(), failure: None },
        DeleteOutcome { key: "b".to_string(), failure: Some(StorageError::WriteQuorum) },
    ]);
    assert_eq!(gone, vec!["a"]);
    assert_eq!(kept.len(), 1);
    assert_eq!(kept[0].key, "b");
    assert_eq!(
        requested_parts(&vec![(Some(1), Some("e".to_string())), (None, None)]),
        vec![(1, "e".to_string()), (0, String::new())]
    );
}

#[test]
fn settings_are_changed_one_at_a_time() {
    let tags = collect_tags(&vec![
        (Some("k".to_string()), Some("v".to_string())),
        (Some("lone".to_string()), None),
    ]);
    assert_eq!(tags.get("k").map(String::as_str), Some("v"));
    let s = with_tags(None, vec![("k".to_string(), "v".to_string())]);
    assert_eq!(bucket_tags(&s), vec![("k".to_string(), "v".to_string())]);
    let s = with_policy(Some(s), Json::Object(vec![]));
    assert!(bucket_policy(&s).is_ok());
    assert_eq!(bucket_tags(&s).len(), 1);
    let s = with_lifecycle(Some(s), Some("<x/>".to_string()));
    assert_eq!(bucket_lifecycle(&s).unwrap(), "<x/>");
    assert!(bucket_policy(&s).is_ok());
    let none = BucketSettings::default();
    assert_eq!(bucket_policy(&none).unwrap_err().code, "NoSuchBucketPolicy");
    assert_eq!(bucket_lifecycle(&none).unwrap_err().code, "NoSuchLifecycleConfiguration");
    assert!(bucket_tags(&none).is_empty());
    assert!(check_policy(&None).is_err());
    assert!(read_policy(br#"{"Version":"2012-10-17"}"#).is_ok());
    let broken = read_policy(b"{").unwrap_err();
    assert_eq!(broken.code, "MalformedPolicy");
    assert_eq!(broken.message.as_deref(), Some("invalid JSON"));
    let bare = read_policy(br#"{"Version":""}"#).unwrap_err();
    assert_eq!(bare.code, "MalformedPolicy");
    assert_eq!(bare.message.as_deref(), Some("missing or empty Version field"));
    assert_eq!(check_versioning(&Some("Enabled".to_string())).unwrap(), "Enabled");
    assert!(check_versioning(&Some("x".to_string())).is_err());
}

#[test]
fn an_unversioned_object_is_listed_as_null() {
    let mut m = ObjectMeta {
        size: 0,
        etag: String::new(),
        content_type: String::new(),
        created_at: 0,
        version_id: String::new(),
        is_latest: true,
        is_delete_marker: false,
        erasure: ErasureMeta {
            data: 1,
            parity: 0,
            index: 0,
            distribution: vec![],
            epoch_id: 0,
            volume_ids: vec![],
        },
        checksum: String::new(),
        user_metadata: vec![],
        tags: vec![],
    };
    let plain = m.clone();
    m.version_id = "v".to_string();
    let named = m.clone();
    m.is_delete_marker = true;
    m.version_id = String::new();
    let found = vec![
        KeyVersions { key: "a".to_string(), versions: vec![m, named] },
        KeyVersions { key: "b".to_string(), versions: vec![plain] },
    ];
    let (versions, markers) = list_versions(&found);
    let shown: Vec<(&str, &str)> =
        versions.iter().map(|v| (v.key.as_str(), v.version_id.as_str())).collect();
    assert_eq!(shown, vec![("a", "v"), ("b", "null")]);
    assert_eq!(markers.len(), 1);
    assert_eq!((markers[0].key.as_str(), markers[0].version_id.as_str()), ("a", ""));
}

fn unconditional() -> Conditionals {
    Conditionals {
        if_match: None,
        if_none_match: None,
        if_modified_since: None,
        if_unmodified_since: None,
    }
}

#[test]
fn a_read_answers_the_part_that_is_asked_for() {
    let mut info = ObjectInfo {
        bucket: "b".to_string(),
        key: "k".to_string(),
        size: 10,
        etag: "abc".to_string(),
        content_type: "text/plain".to_string(),
        created_at: 1000,
        user_metadata: vec![("a".to_string(), "1".to_string())],
        tags: vec![],
        version_id: "v1".to_string(),
    };
    let data = b"0123456789".to_vec();
    let range = Some(ByteRange::Between { first: 2, last: Some(4) });
    let a = answer_get(data.clone(), &info, &unconditional(), range).unwrap();
    assert_eq!(a.body, b"234");
    assert_eq!(a.content_length, 3);
    assert_eq!(a.content_range.as_deref(), Some("bytes 2-4/10"));
    assert_eq!((a.etag.as_str(), a.content_type.as_str()), ("abc", "text/plain"));
    assert_eq!(a.last_modified, 1000);
    assert_eq!(a.metadata.unwrap().len(), 1);
    assert_eq!(a.version_id.as_deref(), Some("v1"));

    info.user_metadata.clear();
    info.version_id.clear();
    let h = answer_head(&info, &unconditional()).unwrap();
    assert!(h.body.is_empty());
    assert_eq!((h.content_length, h.content_range), (10, None));
    assert_eq!((h.metadata, h.version_id), (None, None));

    let stale = Conditionals {
        if_match: Some(TagCondition::Tag("other".to_string())),
        ..unconditional()
    };
    assert_eq!(answer_get(data, &info, &stale, None).unwrap_err().code, "PreconditionFailed");
    let seen = Conditionals { if_none_match: Some(TagCondition::Any), ..unconditional() };
    assert_eq!(answer_head(&info, &seen).unwrap_err().code, "NotModified");
}
