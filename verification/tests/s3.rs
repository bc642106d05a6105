use abixio::json::{get, parse, Json};
use abixio::query::parse_query;
use abixio::s3::auth::{parse_amz_date, sign, AuthConfig};
use abixio::s3::conditions::{check_preconditions, quote, Verdict};
use abixio::s3::dates::{civil, format_http_date, format_timestamp, pad, parse_http_date};
use abixio::s3::errors::{map_error, S3Error};
use abixio::multipart::{PartMeta, UploadMeta};
use abixio::s3::listing::{
    copy_result, delete_result, list_buckets, list_objects, list_options, list_parts, list_uploads,
    list_versions, Deletion, KeyVersions,
};
use abixio::s3::objects::{
    add_delete_marker, answer_delete, answer_get, answer_head, answer_put, decode_copy_source,
    find_latest_version, parse_copy_source, plan_delete, plan_put, plan_upload, read_metadata,
    read_versioning,
    write_content_range, DeletePlan, PutPlan, Versioning,
};
use abixio::s3::range::parse_range;
use abixio::s3::request::{has_header, header_value, parse_method, Header, Method, Request};
use abixio::s3::response::{default_owner, S3_XMLNS};
use abixio::s3::route::{check_auth, cluster_probe_authorized, dispatch, route, Operation, Step};
use abixio::s3::settings::{
    check_acl, check_lifecycle, check_policy, check_policy_body, check_versioning, disk_root,
    has_version,
    parse_part_number, part_params, upload_param, MAX_POLICY,
};
use abixio::storage::{
    BucketInfo, ErasureMeta, ListOptions, Listing, ObjectInfo, ObjectMeta, StorageError,
};

fn header(name: &str, value: &str) -> Header {
    Header { name: name.to_string(), value: Some(value.to_string()) }
}

#[test]
fn map_error_bucket_not_found() {
    let s3err = map_error(&StorageError::BucketNotFound);
    assert_eq!(s3err.code, "NoSuchBucket");
    assert_eq!(s3err.http_status, 404);
}

#[test]
fn map_error_object_not_found() {
    let s3err = map_error(&StorageError::ObjectNotFound);
    assert_eq!(s3err.code, "NoSuchKey");
    assert_eq!(s3err.http_status, 404);
}

#[test]
fn map_error_bucket_exists() {
    let s3err = map_error(&StorageError::BucketExists);
    assert_eq!(s3err.code, "BucketAlreadyOwnedByYou");
    assert_eq!(s3err.http_status, 409);
}

#[test]
fn map_error_write_quorum() {
    let s3err = map_error(&StorageError::WriteQuorum);
    assert_eq!(s3err.code, "InternalError");
    assert_eq!(s3err.http_status, 500);
}

#[test]
fn map_error_read_quorum() {
    let s3err = map_error(&StorageError::ReadQuorum);
    assert_eq!(s3err.code, "InternalError");
    assert_eq!(s3err.http_status, 500);
}

#[test]
fn errors_state_their_code_and_message() {
    let r = S3Error::no_such_bucket().response();
    assert_eq!(r.code, "NoSuchBucket");
    assert_eq!(r.message, "The specified bucket does not exist");
    assert_eq!(S3Error::access_denied().http_status, 403);
    assert_eq!(S3Error::invalid_range().http_status, 416);
    assert_eq!(S3Error::precondition_failed().http_status, 412);
    assert_eq!(S3Error::method_not_allowed().http_status, 405);
    assert_eq!(S3Error::service_unavailable().http_status, 503);
    assert_eq!(S3Error::bucket_not_empty().http_status, 409);
    assert_eq!(map_error(&StorageError::BucketNotEmpty).code, "BucketNotEmpty");
}

#[test]
fn dates_have_exact_forms() {
    assert_eq!(format_timestamp(0), "1970-01-01T00:00:00.000Z");
    assert_eq!(format_timestamp(1_704_067_200), "2024-01-01T00:00:00.000Z");
    assert_eq!(format_timestamp(1_709_251_199), "2024-02-29T23:59:59.000Z");
    assert_eq!(format_http_date(0), "Thu, 01 Jan 1970 00:00:00 GMT");
    assert_eq!(format_http_date(1_445_412_480), "Wed, 21 Oct 2015 07:28:00 GMT");
    assert_eq!(parse_http_date("Wed, 21 Oct 2015 07:28:00 GMT"), Some(1_445_412_480));
    assert_eq!(parse_http_date("yesterday"), None);
    let c = civil(951_782_400);
    assert_eq!((c.year, c.month, c.day), (2000, 1, 29));
    assert_eq!(pad(7, 2), "07");
    assert_eq!(pad(123, 2), "123");
}

#[test]
fn http_dates_round_trip() {
    for t in [0u64, 1, 86_399, 951_868_799, 951_868_800, 4_102_444_799, 253_402_300_799] {
        assert_eq!(parse_http_date(&format_http_date(t)), Some(t));
    }
}

#[test]
fn ranges_lie_inside() {
    assert_eq!(parse_range("bytes=0-4", 10), Some((0, 4)));
    assert_eq!(parse_range("bytes=5-", 10), Some((5, 9)));
    assert_eq!(parse_range("bytes=-3", 10), Some((7, 9)));
    assert_eq!(parse_range("bytes=4-99", 10), Some((4, 9)));
    assert_eq!(parse_range("bytes=10-12", 10), None);
    assert_eq!(parse_range("bytes=6-2", 10), None);
    assert_eq!(parse_range("items=0-4", 10), None);
}

#[test]
fn requests_are_read() {
    assert_eq!(parse_method("GET"), Method::Get);
    assert_eq!(parse_method("PATCH"), Method::Other);
    let headers = vec![header("x-amz-date", "d"), Header { name: "bad".to_string(), value: None }];
    assert_eq!(header_value(&headers, "x-amz-date"), Some("d"));
    assert_eq!(header_value(&headers, "bad"), None);
    assert!(has_header(&headers, "bad"));
    assert!(!has_header(&headers, "other"));
}

#[test]
fn conditional_headers_decide_in_order() {
    let date = format_http_date(1_000);
    let check = |headers: &Vec<Header>| check_preconditions(headers, "abc", 1_000);
    assert_eq!(quote("abc"), "\"abc\"");
    assert_eq!(check(&vec![]), Verdict::Proceed);
    assert_eq!(check(&vec![header("if-none-match", "\"abc\"")]), Verdict::NotModified);
    assert_eq!(check(&vec![header("if-none-match", "*")]), Verdict::NotModified);
    assert_eq!(check(&vec![header("if-match", "\"abc\"")]), Verdict::Proceed);
    assert_eq!(check(&vec![header("if-match", "\"other\"")]), Verdict::Failed);
    assert_eq!(check(&vec![header("if-modified-since", &date)]), Verdict::NotModified);
    assert_eq!(
        check(&vec![header("if-unmodified-since", &format_http_date(999))]),
        Verdict::Failed
    );
}

#[test]
fn operations_are_found() {
    assert_eq!(route("", "", Method::Get, ""), Operation::ListBuckets);
    assert_eq!(route("b", "", Method::Put, ""), Operation::CreateBucket);
    assert_eq!(route("b", "", Method::Get, "list-type=2"), Operation::ListObjects);
    assert_eq!(route("b", "", Method::Get, "versioning"), Operation::GetBucketVersioning);
    assert_eq!(route("b", "", Method::Post, "delete"), Operation::DeleteObjects);
    assert_eq!(route("b", "k", Method::Put, ""), Operation::PutObject);
    assert_eq!(route("b", "k", Method::Get, ""), Operation::GetObject);
    assert_eq!(route("b", "k", Method::Head, ""), Operation::HeadObject);
    assert_eq!(route("b", "k", Method::Delete, ""), Operation::DeleteObject);
    assert_eq!(route("b", "k", Method::Post, "uploads"), Operation::CreateMultipartUpload);
    assert_eq!(
        route("b", "k", Method::Put, "partNumber=1&uploadId=u"),
        Operation::UploadPart
    );
    assert_eq!(route("b", "k", Method::Other, ""), Operation::NotAllowed);
}

fn config() -> AuthConfig {
    AuthConfig { access_key: "ak".to_string(), secret_key: "sk".to_string(), no_auth: false }
}

fn unsigned(verb: &str, path: &str) -> Request {
    Request {
        verb: verb.to_string(),
        path: path.to_string(),
        query: String::new(),
        headers: vec![],
    }
}

#[test]
fn only_signed_requests_are_served() {
    let now = parse_amz_date("20240101T000000Z").unwrap() as u64;
    let mut req = unsigned("GET", "/b/k");
    assert_eq!(dispatch(&req, &config(), "", false, false, now), Step::Denied);

    let request = "GET\n/b/k\n\nhost:h\nx-amz-date:20240101T000000Z\n\nhost;x-amz-date\nUNSIGNED-PAYLOAD";
    let signature = sign("sk", "20240101T000000Z", "20240101", "us-east-1", request);
    req.headers = vec![
        header("host", "h"),
        header("x-amz-date", "20240101T000000Z"),
        header("x-amz-content-sha256", "UNSIGNED-PAYLOAD"),
        header(
            "authorization",
            &format!(
                "AWS4-HMAC-SHA256 Credential=ak/20240101/us-east-1/s3/aws4_request, SignedHeaders=host;x-amz-date, Signature={}",
                signature
            ),
        ),
    ];
    assert!(check_auth(&req, "ak", "sk", now));
    assert!(!check_auth(&req, "ak", "other", now));
    assert_eq!(
        dispatch(&req, &config(), "", false, false, now),
        Step::Operate {
            operation: Operation::GetObject,
            bucket: "b".to_string(),
            key: "k".to_string()
        }
    );
    assert_eq!(dispatch(&req, &config(), "", false, true, now), Step::Unavailable);
}

#[test]
fn probes_of_the_cluster_carry_its_secret() {
    let headers = vec![header("x-abixio-cluster-secret", "s")];
    assert!(cluster_probe_authorized(&headers, "s"));
    assert!(!cluster_probe_authorized(&headers, "t"));
    assert!(!cluster_probe_authorized(&vec![], "s"));
    let mut open = config();
    open.no_auth = true;
    assert_eq!(
        dispatch(&unsigned("GET", "/_admin/status"), &open, "", true, false, 0),
        Step::Admin("status".to_string())
    );
    assert_eq!(
        dispatch(&unsigned("GET", "/_admin/status"), &open, "", false, false, 0),
        Step::NoAdmin
    );
}

fn info() -> ObjectInfo {
    ObjectInfo {
        bucket: "b".to_string(),
        key: "k".to_string(),
        size: 10,
        etag: "abc".to_string(),
        content_type: "text/plain".to_string(),
        created_at: 1_445_412_480,
        user_metadata: vec![("x-amz-meta-a".to_string(), "1".to_string())],
        tags: vec![],
        version_id: String::new(),
    }
}

fn value<'a>(headers: &'a [(String, String)], name: &str) -> Option<&'a str> {
    headers
        .iter()
        .find(|h| h.0.eq_ignore_ascii_case(name))
        .map(|h| h.1.as_str())
}

#[test]
fn objects_are_sent_whole_or_in_part() {
    let data = b"0123456789".to_vec();
    let whole = answer_get(&vec![], data.clone(), &info()).unwrap();
    assert_eq!(whole.status, 200);
    assert_eq!(whole.body, data);
    assert_eq!(value(&whole.headers, "content-length"), Some("10"));
    assert_eq!(value(&whole.headers, "etag"), Some("\"abc\""));
    assert_eq!(
        value(&whole.headers, "last-modified"),
        Some("Wed, 21 Oct 2015 07:28:00 GMT")
    );

    let part = answer_get(&vec![header("range", "bytes=2-4")], data.clone(), &info()).unwrap();
    assert_eq!(part.status, 206);
    assert_eq!(part.body, b"234");
    assert_eq!(value(&part.headers, "content-range"), Some("bytes 2-4/10"));
    assert_eq!(write_content_range(2, 4, 10), "bytes 2-4/10");

    let outside = answer_get(&vec![header("range", "bytes=20-")], data.clone(), &info());
    assert_eq!(outside.unwrap_err().http_status, 416);
    let same = answer_get(&vec![header("if-none-match", "\"abc\"")], data.clone(), &info()).unwrap();
    assert_eq!(same.status, 304);
    assert!(same.body.is_empty());
    let other = answer_get(&vec![header("if-match", "\"x\"")], data, &info());
    assert_eq!(other.unwrap_err().http_status, 412);

    let head = answer_head(&vec![], &info()).unwrap();
    assert_eq!(head.status, 200);
    assert!(head.body.is_empty());
    assert_eq!(value(&head.headers, "content-length"), Some("10"));
}

#[test]
fn puts_are_planned() {
    let headers = vec![
        header("content-type", "image/png"),
        header("x-amz-meta-color", "red"),
        header("host", "h"),
    ];
    let choices = read_metadata(&headers);
    assert_eq!(choices.user_metadata.len(), 1);
    match plan_put(&headers, 4) {
        Ok(PutPlan::Store(options)) => {
            assert_eq!(options.content_type, "image/png");
            assert_eq!(options.user_metadata.len(), 1);
        }
        _ => panic!("expected a plain write"),
    }
    match plan_put(&vec![header("x-amz-copy-source", "/b%20c/k")], 4) {
        Ok(PutPlan::Copy(place)) => assert_eq!(place, decode_copy_source("/b%20c/k")),
        _ => panic!("expected a copy"),
    }
    let (bucket, key) = parse_copy_source("b/k/l").unwrap();
    assert_eq!((bucket.as_str(), key.as_str()), ("b", "k/l"));
    assert!(parse_copy_source("b").is_err());
    let put = answer_put(Versioning::Enabled, "v1", "abc");
    assert_eq!(put.status, 200);
    assert_eq!(value(&put.headers, "x-amz-version-id"), Some("v1"));
    assert_eq!(value(&put.headers, "etag"), Some("\"abc\""));
    assert_eq!(value(&answer_put(Versioning::Off, "", "abc").headers, "x-amz-version-id"), None);
}

#[test]
fn uploads_keep_every_metadata_header() {
    let headers = vec![
        header("X-Amz-Meta-Ec-Data", "2"),
        header("x-amz-meta-Color", "red"),
        header("host", "h"),
    ];
    let options = plan_upload(&headers);
    assert_eq!(options.content_type, "application/octet-stream");
    assert_eq!(options.user_metadata.len(), 2);
    assert_eq!(options.user_metadata.get("x-amz-meta-ec-data").map(String::as_str), Some("2"));
    assert_eq!(read_metadata(&headers).user_metadata.len(), 1);
    assert_eq!(read_metadata(&headers).ec_data, Some(2));
}

#[test]
fn a_code_that_does_not_fit_the_disks_is_refused() {
    let asked = |d: &str, p: &str| {
        plan_put(&vec![header("x-amz-meta-ec-data", d), header("x-amz-meta-ec-parity", p)], 4)
    };
    assert!(asked("3", "1").is_ok());
    assert!(asked("4", "1").is_err());
    assert!(asked("0", "1").is_err());
}

fn version(id: &str, created_at: u64, is_latest: bool, is_delete_marker: bool) -> ObjectMeta {
    ObjectMeta {
        size: 3,
        etag: "e".to_string(),
        content_type: String::new(),
        created_at,
        version_id: id.to_string(),
        is_latest,
        is_delete_marker,
        erasure: ErasureMeta {
            data: 1,
            parity: 0,
            index: 0,
            distribution: vec![0],
            epoch_id: 0,
            volume_ids: vec![],
        },
        checksum: String::new(),
        user_metadata: vec![],
        tags: vec![],
    }
}

#[test]
fn deletes_depend_on_versioning() {
    assert_eq!(read_versioning(&Some("Enabled".to_string())), Versioning::Enabled);
    assert_eq!(read_versioning(&Some("Suspended".to_string())), Versioning::Suspended);
    assert_eq!(read_versioning(&None), Versioning::Off);
    assert_eq!(plan_delete(Some("v"), Versioning::Off), DeletePlan::Version("v".to_string()));
    assert_eq!(plan_delete(None, Versioning::Enabled), DeletePlan::Marker);
    assert_eq!(plan_delete(None, Versioning::Off), DeletePlan::Remove);
    assert_eq!(answer_delete(&DeletePlan::Remove, "").status, 204);
    let marked = answer_delete(&DeletePlan::Marker, "m1");
    assert_eq!(value(&marked.headers, "x-amz-delete-marker"), Some("true"));
    assert_eq!(value(&marked.headers, "x-amz-version-id"), Some("m1"));
}

#[test]
fn the_marker_is_the_only_latest() {
    let before = vec![version("v2", 20, true, false), version("v1", 10, false, false)];
    let after = add_delete_marker(&before, "m", 30);
    assert_eq!(after.len(), 3);
    let latest: Vec<&str> =
        after.iter().filter(|m| m.is_latest).map(|m| m.version_id.as_str()).collect();
    assert_eq!(latest, vec!["m"]);
    assert!(after.iter().any(|m| m.version_id == "m" && m.is_delete_marker && m.created_at == 30));
    assert_eq!(find_latest_version(&vec![vec![], before]), Some("v2".to_string()));
    assert_eq!(find_latest_version(&vec![]), None);
}

#[test]
fn listings_hold_what_was_found() {
    let buckets = list_buckets(&vec![BucketInfo { name: "b".to_string(), created_at: 0 }]);
    assert_eq!(buckets.xmlns, S3_XMLNS);
    assert_eq!(buckets.owner.id, default_owner().id);
    assert_eq!(buckets.buckets.bucket[0].name, "b");
    assert_eq!(buckets.buckets.bucket[0].creation_date, "1970-01-01T00:00:00.000Z");

    let options = list_options(&parse_query("prefix=a%2F&delimiter=%2F&max-keys=5"));
    assert_eq!(options.prefix, "a/");
    assert_eq!(options.delimiter, "/");
    assert_eq!(options.max_keys, 5);
    assert_eq!(list_options(&parse_query("")).max_keys, 1000);

    let found = Listing {
        objects: vec![info()],
        common_prefixes: vec!["logs/".to_string()],
        is_truncated: true,
        next_continuation_token: "t".to_string(),
    };
    let options = ListOptions { prefix: String::new(), delimiter: "/".to_string(), max_keys: 9 };
    let listed = list_objects("b", &options, &found);
    assert_eq!(listed.contents.len(), 1);
    assert_eq!(listed.contents[0].etag, "\"abc\"");
    assert_eq!(listed.contents[0].storage_class, "STANDARD");
    assert_eq!(listed.common_prefixes[0].prefix, "logs/");
    assert!(listed.is_truncated);
    assert_eq!(listed.next_continuation_token, "t");
    assert_eq!(copy_result(&info()).etag, "\"abc\"");
}

#[test]
fn every_key_is_reported() {
    let done = vec![
        Deletion { key: "a".to_string(), failure: None },
        Deletion { key: "b".to_string(), failure: Some(StorageError::WriteQuorum) },
    ];
    let r = delete_result(&done);
    assert_eq!(r.deleted.len(), 1);
    assert_eq!(r.deleted[0].key, "a");
    assert_eq!(r.errors.len(), 1);
    assert_eq!(r.errors[0].key, "b");
    assert_eq!(r.errors[0].code, "InternalError");
}

#[test]
fn versions_and_markers_are_listed_apart() {
    let found = vec![KeyVersions {
        key: "k".to_string(),
        versions: vec![version("m", 30, true, true), version("v1", 10, false, false)],
    }];
    let r = list_versions("b", &parse_query("prefix=k"), &found);
    assert_eq!(r.name, "b");
    assert_eq!(r.prefix, "k");
    assert_eq!(r.versions.len(), 1);
    assert_eq!(r.versions[0].version_id, "v1");
    assert_eq!(r.delete_markers.len(), 1);
    assert_eq!(r.delete_markers[0].version_id, "m");
}

#[test]
fn json_values_are_read() {
    assert!(matches!(parse(b" null "), Some(Json::Null)));
    assert!(matches!(parse(b"true"), Some(Json::Bool(true))));
    assert!(matches!(parse(b"-12"), Some(Json::Number(n)) if n == "-12"));
    assert!(matches!(parse(br#""a\u0041""#), Some(Json::Text(t)) if t == "aA"));
    let Some(Json::Array(items)) = parse(br#"[1,{"b":[],"a":null}]"#) else {
        panic!("not an array");
    };
    let Json::Object(fields) = &items[1] else { panic!("not an object") };
    assert_eq!(fields.len(), 2);
    assert!(matches!(get(fields, "a"), Some(Json::Null)));
    assert!(matches!(get(fields, "b"), Some(Json::Array(v)) if v.is_empty()));
    assert!(get(fields, "c").is_none());
    for broken in [&b""[..], b"{", b"nonsense", b"1 2", b"\xff"] {
        assert!(parse(broken).is_none());
    }
}

#[test]
fn a_policy_body_is_read_and_checked() {
    let doc = check_policy_body(br#"{"Version":"2012-10-17","Statement":[]}"#).unwrap();
    let fields = match doc {
        Json::Object(fields) => fields,
        other => panic!("not an object: {:?}", other),
    };
    assert!(matches!(get(&fields, "Version"), Some(Json::Text(v)) if v == "2012-10-17"));
    assert!(matches!(get(&fields, "Statement"), Some(Json::Array(v)) if v.is_empty()));

    let malformed = S3Error::malformed_xml().code;
    for body in ["", "{", "nonsense", "{}", r#"{"Version":""}"#, r#"{"Version":1}"#, "[]"] {
        assert_eq!(check_policy_body(body.as_bytes()).unwrap_err().code, malformed);
    }
    let mut long = br#"{"Version":"1"}"#.to_vec();
    long.resize(MAX_POLICY, b' ');
    assert!(check_policy_body(&long).is_ok());
    long.push(b' ');
    let refused = check_policy_body(&long).unwrap_err();
    assert_eq!(refused.code, S3Error::policy_too_large().code);
}

#[test]
fn settings_are_checked() {
    assert_eq!(check_versioning(&Some("Enabled".to_string())).unwrap(), "Enabled");
    assert!(check_versioning(&Some("On".to_string())).is_err());
    assert!(check_versioning(&None).is_err());

    let doc = Json::Object(vec![(
        "Version".to_string(),
        Json::Text("2012-10-17".to_string()),
    )]);
    assert!(has_version(&doc));
    assert!(check_policy(10, &Some(doc)).is_ok());
    assert!(check_policy(10, &Some(Json::Object(vec![]))).is_err());
    assert!(check_policy(10, &None).is_err());
    assert_eq!(
        check_policy(MAX_POLICY + 1, &None).unwrap_err().code,
        S3Error::policy_too_large().code
    );
    assert!(check_lifecycle(&Some("<LifecycleConfiguration/>".to_string())).is_ok());
    assert!(check_lifecycle(&None).is_err());
    assert!(check_acl(&vec![header("x-amz-acl", "private")]).is_ok());
    assert!(check_acl(&vec![header("x-amz-acl", "public-read")]).is_err());

    assert_eq!(parse_part_number("7"), Some(7));
    assert_eq!(parse_part_number("x"), None);
    assert_eq!(upload_param(&parse_query("uploadId=u1")).unwrap(), "u1");
    assert!(upload_param(&parse_query("")).is_err());
    assert_eq!(part_params(&parse_query("uploadId=u1&partNumber=3")).unwrap(), ("u1".to_string(), 3));
    assert!(part_params(&parse_query("uploadId=u1")).is_err());
    assert_eq!(disk_root("local:/data/d1"), "/data/d1");
}

#[test]
fn uploads_and_parts_are_listed() {
    let uploads = list_uploads(&vec![UploadMeta {
        upload_id: "u".to_string(),
        bucket: "b".to_string(),
        key: "k".to_string(),
        content_type: String::new(),
        user_metadata: vec![],
        created_at: 1_704_067_200,
        data_dir: "d".to_string(),
    }]);
    assert_eq!(uploads[0].key, "k");
    assert_eq!(uploads[0].upload_id, "u");
    assert_eq!(uploads[0].initiated, "2024-01-01T00:00:00.000Z");
    let parts = list_parts(&vec![PartMeta { part_number: 2, size: 7, etag: "e".to_string() }]);
    assert_eq!((parts[0].part_number, parts[0].size), (2, 7));
    assert_eq!(parts[0].etag, "\"e\"");
}

#[test]
fn each_error_has_its_status() {
    let table = [
        (S3Error::no_such_bucket(), "NoSuchBucket", 404),
        (S3Error::no_such_key(), "NoSuchKey", 404),
        (S3Error::bucket_exists(), "BucketAlreadyOwnedByYou", 409),
        (S3Error::incomplete_body(), "IncompleteBody", 400),
        (S3Error::internal(), "InternalError", 500),
        (S3Error::method_not_allowed(), "MethodNotAllowed", 405),
        (S3Error::bucket_not_empty(), "BucketNotEmpty", 409),
        (S3Error::access_denied(), "AccessDenied", 403),
    ];
    for (err, code, status) in table {
        assert_eq!(err.code, code);
        assert_eq!(err.http_status, status);
        assert_eq!(err.response().message, err.message);
    }
}

#[test]
fn reads_are_never_routed_to_a_change() {
    for query in ["", "versioning", "versions", "uploads", "policy", "tagging", "acl"] {
        for key in ["", "k"] {
            let operation = route("b", key, Method::Get, query);
            let name = format!("{:?}", operation);
            assert!(name.starts_with("Get") || name.starts_with("List"), "{}", name);
        }
    }
}

#[test]
fn two_days_have_two_dates() {
    let mut last = civil(0);
    for day in 1..40_000u64 {
        let next = civil(day * 86_400);
        assert!((next.year, next.month, next.day) > (last.year, last.month, last.day));
        last = next;
    }
}
