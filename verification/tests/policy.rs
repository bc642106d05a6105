use abixio::json::Json;
use abixio::policy::action::op_to_action;
use abixio::policy::eval::{principal_entry_matches, Args};
use abixio::policy::glob::glob_match;
use abixio::policy::types::{Effect, Policy, Principal};
use abixio::s3_access::{AbixioAccess, Access, AccessRequest};
use abixio::s3_auth::AbixioAuth;
use abixio::storage::BucketSettings;

fn text(s: &str) -> Json {
    Json::Text(s.to_string())
}

fn object(fields: Vec<(&str, Json)>) -> Json {
    Json::Object(fields.into_iter().map(|(k, v)| (k.to_string(), v)).collect())
}

fn texts(items: Vec<&str>) -> Json {
    Json::Array(items.into_iter().map(text).collect())
}

fn document(statements: Vec<Json>) -> Json {
    object(vec![("Version", text("2012-10-17")), ("Statement", Json::Array(statements))])
}

fn statement(effect: &str, principal: Json, action: &str, resource: &str) -> Vec<(&'static str, Json)> {
    vec![
        ("Effect", text(effect)),
        ("Principal", principal),
        ("Action", text(action)),
        ("Resource", text(resource)),
    ]
}

fn aws(keys: Vec<&str>) -> Json {
    object(vec![("AWS", texts(keys))])
}

fn policy(v: Json) -> Policy {
    Policy::from_json(&v).unwrap()
}

#[test]
fn common_ops_mapped() {
    assert_eq!(op_to_action("GetObject"), "s3:GetObject");
    assert_eq!(op_to_action("PutObject"), "s3:PutObject");
    assert_eq!(op_to_action("ListObjectsV2"), "s3:ListBucket");
    assert_eq!(op_to_action("HeadBucket"), "s3:ListBucket");
    assert_eq!(op_to_action("DeleteObject"), "s3:DeleteObject");
}

#[test]
fn unknown_falls_back_to_wildcard() {
    assert_eq!(op_to_action("Nonesuch"), "s3:*");
}

#[test]
fn no_policy_defers_to_owner() {
    let p = policy(document(vec![object(statement(
        "Allow",
        aws(vec!["someone"]),
        "s3:GetObject",
        "arn:aws:s3:::b/*",
    ))]));
    // unrelated caller, no matching statement -> default to is_owner
    let allowed = p.is_allowed(&Args {
        bucket: "b",
        key: Some("k"),
        action: "s3:GetObject",
        access_key: "nobody",
        is_owner: true,
    });
    assert!(allowed);
}

#[test]
fn anonymous_get_on_public_bucket() {
    let p = policy(document(vec![object(statement(
        "Allow",
        text("*"),
        "s3:GetObject",
        "arn:aws:s3:::pub/*",
    ))]));
    assert!(p.is_allowed(&Args {
        bucket: "pub",
        key: Some("k"),
        action: "s3:GetObject",
        access_key: "",
        is_owner: false,
    }));
    // anonymous PUT on same bucket is denied
    assert!(!p.is_allowed(&Args {
        bucket: "pub",
        key: Some("k"),
        action: "s3:PutObject",
        access_key: "",
        is_owner: false,
    }));
}

fn deny_and_allow() -> Json {
    document(vec![
        object(statement("Allow", text("*"), "s3:*", "arn:aws:s3:::b/*")),
        object(statement("Deny", text("*"), "s3:DeleteObject", "arn:aws:s3:::b/locked/*")),
    ])
}

#[test]
fn explicit_deny_overrides_allow() {
    let p = policy(deny_and_allow());
    assert!(p.is_allowed(&Args {
        bucket: "b",
        key: Some("free/k"),
        action: "s3:DeleteObject",
        access_key: "",
        is_owner: false,
    }));
    assert!(!p.is_allowed(&Args {
        bucket: "b",
        key: Some("locked/k"),
        action: "s3:DeleteObject",
        access_key: "",
        is_owner: false,
    }));
}

fn conditional(range: &str) -> Json {
    let mut s = statement("Allow", text("*"), "s3:GetObject", "arn:aws:s3:::b/*");
    s.push((
        "Condition",
        object(vec![("IpAddress", object(vec![("aws:SourceIp", text(range))]))]),
    ));
    document(vec![object(s)])
}

#[test]
fn condition_present_makes_statement_nonmatching() {
    let p = policy(conditional("10.0.0.0/8"));
    assert!(!p.is_allowed(&Args {
        bucket: "b",
        key: Some("k"),
        action: "s3:GetObject",
        access_key: "",
        is_owner: false,
    }));
}

#[test]
fn action_wildcard_allows_any_op() {
    let p = policy(document(vec![object(statement(
        "Allow",
        text("*"),
        "s3:*",
        "arn:aws:s3:::b/*",
    ))]));
    for op in ["s3:GetObject", "s3:PutObject", "s3:DeleteObject"] {
        assert!(
            p.is_allowed(&Args {
                bucket: "b",
                key: Some("k"),
                action: op,
                access_key: "",
                is_owner: false
            }),
            "op {} should be allowed under s3:*",
            op
        );
    }
}

#[test]
fn aws_principal_matches_access_key() {
    let p = policy(document(vec![object(statement(
        "Allow",
        aws(vec!["alice"]),
        "s3:*",
        "arn:aws:s3:::b/*",
    ))]));
    let args = |access_key: &'static str| Args {
        bucket: "b",
        key: Some("k"),
        action: "s3:GetObject",
        access_key,
        is_owner: false,
    };
    assert!(p.is_allowed(&args("alice")));
    assert!(!p.is_allowed(&args("bob")));
}

#[test]
fn principals_are_matched_by_their_last_part() {
    let p = policy(document(vec![object(statement(
        "Allow",
        aws(vec!["arn:aws:iam::1:user/alice"]),
        "s3:*",
        "arn:aws:s3:::b",
    ))]));
    let a = Args { bucket: "b", key: None, action: "s3:ListBucket", access_key: "alice", is_owner: false };
    assert_eq!(a.resource(), "arn:aws:s3:::b");
    assert!(p.is_allowed(&a));
}

#[test]
fn exact_match() {
    assert!(glob_match("hello", "hello"));
    assert!(!glob_match("hello", "helloo"));
    assert!(!glob_match("hello", "hell"));
}

#[test]
fn star_matches_zero_or_more() {
    assert!(glob_match("*", ""));
    assert!(glob_match("*", "anything"));
    assert!(glob_match("a*", "a"));
    assert!(glob_match("a*", "abc"));
    assert!(glob_match("*c", "abc"));
    assert!(glob_match("a*c", "abbc"));
    assert!(!glob_match("a*c", "abd"));
}

#[test]
fn question_matches_one() {
    assert!(glob_match("a?c", "abc"));
    assert!(!glob_match("a?c", "ac"));
    assert!(!glob_match("a?c", "abbc"));
}

#[test]
fn action_globs() {
    assert!(glob_match("s3:*", "s3:GetObject"));
    assert!(glob_match("s3:Get*", "s3:GetObject"));
    assert!(!glob_match("s3:Get*", "s3:PutObject"));
    assert!(glob_match("s3:GetObject", "s3:GetObject"));
}

#[test]
fn resource_globs() {
    assert!(glob_match("arn:aws:s3:::pub/*", "arn:aws:s3:::pub/photo.jpg"));
    assert!(glob_match("arn:aws:s3:::pub/*", "arn:aws:s3:::pub/deep/key.png"));
    assert!(!glob_match("arn:aws:s3:::pub/*", "arn:aws:s3:::other/k"));
    assert!(glob_match("arn:aws:s3:::pub", "arn:aws:s3:::pub"));
}

#[test]
fn stars_are_wild_wherever_they_stand() {
    assert!(glob_match("*", "*"));
    assert!(glob_match("*a", "*ba"));
    assert!(glob_match("**", "ab"));
    assert!(glob_match("a*b*c", "axxbyyc"));
    assert!(!glob_match("a*b*c", "axxbyy"));
}

#[test]
fn parse_public_read() {
    let mut s = statement("Allow", text("*"), "s3:GetObject", "arn:aws:s3:::pub/*");
    s.insert(0, ("Sid", text("PublicRead")));
    let p = policy(document(vec![object(s)]));
    assert_eq!(p.version, "2012-10-17");
    assert_eq!(p.statements.len(), 1);
    assert_eq!(p.statements[0].effect, Effect::Allow);
    assert!(matches!(p.statements[0].principal, Principal::Anyone));
    assert_eq!(p.statements[0].sid.as_deref(), Some("PublicRead"));
}

#[test]
fn parse_deny_and_allow_combo() {
    let p = policy(deny_and_allow());
    assert_eq!(p.statements.len(), 2);
    assert_eq!(p.statements[1].effect, Effect::Deny);
}

#[test]
fn parse_rejects_missing_version() {
    let j = object(vec![("Statement", Json::Array(vec![]))]);
    assert!(Policy::from_json(&j).is_none());
}

#[test]
fn parse_keeps_condition_as_opaque() {
    let p = policy(conditional("10.0.0.0/24"));
    assert!(p.statements[0].condition.is_some());
}

#[test]
fn parse_aws_principal_list() {
    let p = policy(document(vec![object(statement(
        "Allow",
        aws(vec!["alice", "bob"]),
        "s3:GetObject",
        "arn:aws:s3:::b/*",
    ))]));
    match &p.statements[0].principal {
        Principal::Aws(keys) => assert_eq!(keys, &vec!["alice".to_string(), "bob".to_string()]),
        _ => panic!("expected Aws principal"),
    }
}

#[test]
fn a_policy_document_decides() {
    let access = AbixioAccess::new("owner".to_string());
    let req = AccessRequest {
        bucket: Some("b"),
        key: Some("locked/k"),
        operation: "DeleteObject",
        access_key: "owner",
    };
    assert_eq!(access.check(false, &req, &None), Access::Allowed);
    assert_eq!(access.check(true, &req, &None), Access::Unavailable);
    let mut settings = BucketSettings::default();
    settings.policy = Some(deny_and_allow());
    assert_eq!(access.check(false, &req, &Some(settings)), Access::Denied);
    let mut broken = BucketSettings::default();
    broken.policy = Some(Json::Bool(true));
    assert_eq!(access.check(false, &req, &Some(broken)), Access::Unreadable);
    let stranger = AccessRequest {
        bucket: Some("b"),
        key: Some("k"),
        operation: "GetObject",
        access_key: "other",
    };
    assert_eq!(access.check(false, &stranger, &None), Access::Allowed);
    let mut private = BucketSettings::default();
    private.policy = Some(document(vec![object(statement(
        "Allow",
        aws(vec!["alice"]),
        "s3:*",
        "arn:aws:s3:::b/*",
    ))]));
    assert_eq!(access.check(false, &stranger, &Some(private)), Access::Denied);
}

#[test]
fn only_the_known_key_has_a_secret() {
    let auth = AbixioAuth::new("ak".to_string(), "sk".to_string());
    assert_eq!(auth.get_secret_key("ak"), Some("sk".to_string()));
    assert_eq!(auth.get_secret_key("other"), None);
}

#[test]
fn the_order_of_statements_is_irrelevant() {
    let allow = || object(statement("Allow", text("*"), "s3:*", "arn:aws:s3:::b/*"));
    let deny = || object(statement("Deny", text("*"), "s3:Delete*", "arn:aws:s3:::b/*"));
    let a = policy(document(vec![allow(), deny()]));
    let b = policy(document(vec![deny(), allow()]));
    for action in ["s3:DeleteObject", "s3:GetObject"] {
        let args = Args { bucket: "b", key: Some("k"), action, access_key: "", is_owner: true };
        assert_eq!(a.is_allowed(&args), b.is_allowed(&args));
    }
}

#[test]
fn only_users_are_named_by_the_tail_of_an_arn() {
    assert!(principal_entry_matches("*", "alice"));
    assert!(principal_entry_matches("alice", "alice"));
    assert!(principal_entry_matches("arn:aws:iam::1:user/alice", "alice"));
    assert!(principal_entry_matches("arn:aws:iam::1:user/team/alice", "alice"));
    assert!(principal_entry_matches("arn:aws:iam::1:root/alice", "alice"));
    assert!(principal_entry_matches("user/alice", "alice"));
    assert!(!principal_entry_matches("arn:aws:iam::1:user/alice", "bob"));
    assert!(!principal_entry_matches("arn:aws:iam::1:role/alice", "alice"));
    assert!(!principal_entry_matches("arn:aws:iam::1:role/user/alice", "alice"));
    assert!(!principal_entry_matches("arn:aws:iam::1:superuser/alice", "alice"));
    assert!(principal_entry_matches("role/alice", "role/alice"));
}
