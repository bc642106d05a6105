use hmac::{Hmac, Mac};
use sha2::Sha256;

use abixio::digest::{hash_hex, sha256_hex};
use abixio::s3::auth::{
    build_canonical_headers, canonical_query, canonical_query_presigned, canonical_uri,
    derive_signing_key, find_header, is_presigned, parse_amz_date, parse_query_params,
    percent_decode, sign, verify_presigned_v4, verify_presigned_v4_at, verify_sig_v4,
    verify_sig_v4_at,
};

fn hmac_hex(key: &[u8], message: &[u8]) -> String {
    let mut mac = <Hmac<Sha256> as Mac>::new_from_slice(key).unwrap();
    mac.update(message);
    mac.finalize().into_bytes().iter().map(|b| format!("{:02x}", b)).collect()
}

// helper: sign a request and return the Authorization header
fn sign_request(
    method: &str,
    path: &str,
    query: &str,
    headers: &[(String, String)],
    body: &[u8],
    keys: (&str, &str),
    dates: (&str, &str),
    region: &str,
) -> String {
    let (access_key, secret_key) = keys;
    let (date, amz_date) = dates;
    let body_hash = sha256_hex(body);
    let mut names: Vec<String> = headers.iter().map(|(k, _)| k.to_lowercase()).collect();
    names.sort();
    let signed_headers_list = names.join(";");

    let canonical_hdrs = build_canonical_headers(headers, &names);
    let canonical_request = format!(
        "{}\n{}\n{}\n{}\n{}\n{}",
        method,
        canonical_uri(path),
        canonical_query(query),
        canonical_hdrs,
        signed_headers_list,
        body_hash
    );

    let credential_scope = format!("{}/{}/s3/aws4_request", date, region);
    let cr_hash = sha256_hex(canonical_request.as_bytes());
    let string_to_sign = format!(
        "AWS4-HMAC-SHA256\n{}\n{}\n{}",
        amz_date, credential_scope, cr_hash
    );

    let signing_key = derive_signing_key(secret_key, date, region);
    let signature = hmac_hex(&signing_key, string_to_sign.as_bytes());

    format!(
        "AWS4-HMAC-SHA256 Credential={}/{}, SignedHeaders={}, Signature={}",
        access_key, credential_scope, signed_headers_list, signature
    )
}

fn current_amz_timestamps() -> (String, String) {
    let now = std::time::SystemTime::now()
        .duration_since(std::time::UNIX_EPOCH)
        .unwrap()
        .as_secs();
    // approximate: good enough for tests
    let secs_in_day = 86400u64;
    let days_since_epoch = now / secs_in_day;
    let remaining = now % secs_in_day;
    let hour = remaining / 3600;
    let min = (remaining % 3600) / 60;
    let sec = remaining % 60;

    // approximate year/month/day
    let mut year = 1970u64;
    let mut remaining_days = days_since_epoch;
    loop {
        let days_in_year = if year % 4 == 0 { 366 } else { 365 };
        if remaining_days < days_in_year {
            break;
        }
        remaining_days -= days_in_year;
        year += 1;
    }
    let month_lengths = if year % 4 == 0 {
        [31, 29, 31, 30, 31, 30, 31, 31, 30, 31, 30, 31]
    } else {
        [31, 28, 31, 30, 31, 30, 31, 31, 30, 31, 30, 31]
    };
    let mut month = 1u64;
    for &ml in &month_lengths {
        if remaining_days < ml {
            break;
        }
        remaining_days -= ml;
        month += 1;
    }
    let day = remaining_days + 1;

    let date = format!("{:04}{:02}{:02}", year, month, day);
    let amz_date = format!("{}T{:02}{:02}{:02}Z", date, hour, min, sec);
    (date, amz_date)
}

fn request_headers(amz_date: &str, body: &[u8]) -> Vec<(String, String)> {
    vec![
        ("host".to_string(), "localhost:9000".to_string()),
        ("x-amz-date".to_string(), amz_date.to_string()),
        ("x-amz-content-sha256".to_string(), sha256_hex(body)),
    ]
}

#[test]
fn verify_valid_signature() {
    let (date, amz_date) = current_amz_timestamps();
    let headers = request_headers(&amz_date, b"");
    let auth = sign_request(
        "GET",
        "/test/key",
        "",
        &headers,
        b"",
        ("myaccesskey", "mysecretkey"),
        (&date, &amz_date),
        "us-east-1",
    );
    let result = verify_sig_v4(
        "GET",
        "/test/key",
        "",
        &headers,
        &sha256_hex(b""),
        &auth,
        "myaccesskey",
        "mysecretkey",
    );
    assert!(result.is_ok(), "expected ok, got: {:?}", result);
}

#[test]
fn verify_rejects_wrong_access_key() {
    let (date, amz_date) = current_amz_timestamps();
    let headers = request_headers(&amz_date, b"");
    let auth = sign_request(
        "GET",
        "/",
        "",
        &headers,
        b"",
        ("wrongkey", "mysecretkey"),
        (&date, &amz_date),
        "us-east-1",
    );
    let result = verify_sig_v4(
        "GET",
        "/",
        "",
        &headers,
        &sha256_hex(b""),
        &auth,
        "myaccesskey",
        "mysecretkey",
    );
    assert!(result.is_err());
}

#[test]
fn verify_rejects_wrong_secret_key() {
    let (date, amz_date) = current_amz_timestamps();
    let headers = request_headers(&amz_date, b"");
    let auth = sign_request(
        "GET",
        "/",
        "",
        &headers,
        b"",
        ("myaccesskey", "wrongsecret"),
        (&date, &amz_date),
        "us-east-1",
    );
    let result = verify_sig_v4(
        "GET",
        "/",
        "",
        &headers,
        &sha256_hex(b""),
        &auth,
        "myaccesskey",
        "mysecretkey",
    );
    assert!(result.is_err());
}

#[test]
fn verify_rejects_tampered_body() {
    let (date, amz_date) = current_amz_timestamps();
    let headers = request_headers(&amz_date, b"original");
    let auth = sign_request(
        "PUT",
        "/test/key",
        "",
        &headers,
        b"original",
        ("myaccesskey", "mysecretkey"),
        (&date, &amz_date),
        "us-east-1",
    );
    // verify with different body hash
    let result = verify_sig_v4(
        "PUT",
        "/test/key",
        "",
        &headers,
        &sha256_hex(b"tampered"),
        &auth,
        "myaccesskey",
        "mysecretkey",
    );
    assert!(result.is_err());
}

#[test]
fn verify_rejects_expired_request() {
    // use a date far in the past
    let date = "20200101";
    let amz_date = "20200101T000000Z";
    let headers = request_headers(amz_date, b"");
    let auth = sign_request(
        "GET",
        "/",
        "",
        &headers,
        b"",
        ("myaccesskey", "mysecretkey"),
        (date, amz_date),
        "us-east-1",
    );
    let result = verify_sig_v4(
        "GET",
        "/",
        "",
        &headers,
        &sha256_hex(b""),
        &auth,
        "myaccesskey",
        "mysecretkey",
    );
    assert!(result.is_err());
    assert!(result.unwrap_err().contains("skew"));
}

// helper: build presigned URL query string
fn presign_query(
    method: &str,
    path: &str,
    keys: (&str, &str),
    dates: (&str, &str),
    region: &str,
    expires: u64,
) -> String {
    let (access_key, secret_key) = keys;
    let (date, amz_date) = dates;
    let credential = format!("{}/{}/{}/s3/aws4_request", access_key, date, region);
    let signed_headers = "host";

    // build canonical query (without signature, sorted)
    let mut query_parts = vec![
        format!("X-Amz-Algorithm=AWS4-HMAC-SHA256"),
        format!("X-Amz-Credential={}", credential),
        format!("X-Amz-Date={}", amz_date),
        format!("X-Amz-Expires={}", expires),
        format!("X-Amz-SignedHeaders={}", signed_headers),
    ];
    query_parts.sort();
    let canonical_qs = query_parts.join("&");

    let headers = vec![("host".to_string(), "localhost:9000".to_string())];
    let canonical_hdrs = build_canonical_headers(&headers, &["host".to_string()]);
    let canonical_request = format!(
        "{}\n{}\n{}\n{}\n{}\n{}",
        method,
        canonical_uri(path),
        canonical_qs,
        canonical_hdrs,
        signed_headers,
        "UNSIGNED-PAYLOAD"
    );

    let credential_scope = format!("{}/{}/s3/aws4_request", date, region);
    let cr_hash = sha256_hex(canonical_request.as_bytes());
    let string_to_sign = format!(
        "AWS4-HMAC-SHA256\n{}\n{}\n{}",
        amz_date, credential_scope, cr_hash
    );

    let signing_key = derive_signing_key(secret_key, date, region);
    let signature = hmac_hex(&signing_key, string_to_sign.as_bytes());

    format!("{}&X-Amz-Signature={}", canonical_qs, signature)
}

#[test]
fn verify_presigned_valid() {
    let (date, amz_date) = current_amz_timestamps();
    let query = presign_query(
        "GET",
        "/test/key",
        ("myaccesskey", "mysecretkey"),
        (&date, &amz_date),
        "us-east-1",
        3600,
    );
    let headers = vec![("host".to_string(), "localhost:9000".to_string())];
    let result = verify_presigned_v4(
        "GET", "/test/key", &query, &headers, "myaccesskey", "mysecretkey",
    );
    assert!(result.is_ok(), "expected ok, got: {:?}", result);
}

#[test]
fn verify_presigned_expired() {
    // use a date far in the past with 1 second expiry
    let query = presign_query(
        "GET",
        "/test/key",
        ("myaccesskey", "mysecretkey"),
        ("20200101", "20200101T000000Z"),
        "us-east-1",
        1,
    );
    let headers = vec![("host".to_string(), "localhost:9000".to_string())];
    let result = verify_presigned_v4(
        "GET", "/test/key", &query, &headers, "myaccesskey", "mysecretkey",
    );
    assert!(result.is_err());
    assert!(result.unwrap_err().contains("expired"));
}

#[test]
fn verify_presigned_bad_key() {
    let (date, amz_date) = current_amz_timestamps();
    let query = presign_query(
        "GET",
        "/test/key",
        ("myaccesskey", "mysecretkey"),
        (&date, &amz_date),
        "us-east-1",
        3600,
    );
    let headers = vec![("host".to_string(), "localhost:9000".to_string())];
    let result = verify_presigned_v4(
        "GET", "/test/key", &query, &headers, "wrongkey", "mysecretkey",
    );
    assert!(result.is_err());
}

#[test]
fn is_presigned_detects_params() {
    assert!(is_presigned("X-Amz-Algorithm=AWS4-HMAC-SHA256&X-Amz-Credential=key"));
    assert!(!is_presigned("prefix=foo&delimiter=/"));
}

#[test]
fn a_presigned_url_lives_as_long_as_it_says() {
    let signed_at = parse_amz_date("20240615T120000Z").unwrap() as u64;
    let query = presign_query(
        "GET",
        "/b/k",
        ("ak", "sk"),
        ("20240615", "20240615T120000Z"),
        "us-east-1",
        60,
    );
    let headers = vec![("host".to_string(), "localhost:9000".to_string())];
    let at = |now: u64| verify_presigned_v4_at("GET", "/b/k", &query, &headers, "ak", "sk", now);
    assert!(at(signed_at).is_ok());
    assert!(at(signed_at + 60).is_ok());
    assert!(at(signed_at + 61).is_err());
}

#[test]
fn the_order_of_parameters_is_irrelevant() {
    assert_eq!(canonical_query("b=2&a=1"), "a=1&b=2");
    assert_eq!(canonical_query("a=1&b=2"), canonical_query("b=2&a=1"));
    assert_eq!(canonical_query(""), "");
    assert_eq!(
        canonical_query_presigned("b=2&X-Amz-Signature=00&a=1"),
        "a=1&b=2"
    );
}

#[test]
fn signatures_are_known_values() {
    // the signing key of Amazon's documentation, for service s3
    let key = derive_signing_key("wJalrXUtnFEMI/K7MDENG+bPxRfiCYEXAMPLEKEY", "20150830", "us-east-1");
    let date_key = {
        let mut mac =
            <Hmac<Sha256> as Mac>::new_from_slice(b"AWS4wJalrXUtnFEMI/K7MDENG+bPxRfiCYEXAMPLEKEY")
                .unwrap();
        mac.update(b"20150830");
        mac.finalize().into_bytes().to_vec()
    };
    let step = |key: &[u8], text: &[u8]| {
        let mut mac = <Hmac<Sha256> as Mac>::new_from_slice(key).unwrap();
        mac.update(text);
        mac.finalize().into_bytes().to_vec()
    };
    let region_key = step(&date_key, b"us-east-1");
    let service_key = step(&region_key, b"s3");
    assert_eq!(key, step(&service_key, b"aws4_request"));

    let request = "GET\n/\n\nhost:h\n\nhost\nUNSIGNED-PAYLOAD";
    let to_sign = format!(
        "AWS4-HMAC-SHA256\n20150830T000000Z\n20150830/us-east-1/s3/aws4_request\n{}",
        hash_hex(request)
    );
    assert_eq!(
        sign(
            "wJalrXUtnFEMI/K7MDENG+bPxRfiCYEXAMPLEKEY",
            "20150830T000000Z",
            "20150830",
            "us-east-1",
            request
        ),
        hmac_hex(&key, to_sign.as_bytes())
    );
}

#[test]
fn what_is_missing_or_malformed_is_named() {
    let date = "20240101";
    let amz_date = "20240101T000000Z";
    let now = parse_amz_date(amz_date).unwrap() as u64;
    let headers = request_headers(amz_date, b"");
    let auth = sign_request(
        "GET",
        "/",
        "",
        &headers,
        b"",
        ("ak", "sk"),
        (date, amz_date),
        "us-east-1",
    );
    let hash = sha256_hex(b"");
    let check = |headers: &[(String, String)], auth: &str, now: u64| {
        verify_sig_v4_at("GET", "/", "", headers, &hash, auth, "ak", "sk", now)
    };
    assert!(check(&headers, &auth, now).is_ok());
    assert!(check(&headers, &auth, now + 900).is_ok());
    assert!(check(&headers, &auth, now + 901).is_err());
    assert!(check(&headers, "Basic abc", now).is_err());
    assert!(check(&headers, "AWS4-HMAC-SHA256 Credential=ak", now).is_err());
    assert!(check(&headers[..1], &auth, now).is_err());
    assert!(verify_presigned_v4_at("GET", "/", "", &headers, "ak", "sk", now).is_err());
}

#[test]
fn dates_are_seconds() {
    assert_eq!(parse_amz_date("19700101T000000Z"), Some(0));
    assert_eq!(parse_amz_date("20200101T000000Z"), Some(1_577_836_800));
    assert_eq!(parse_amz_date("20240229T235959Z"), Some(1_709_251_199));
    assert_eq!(parse_amz_date("20240301T000000Z"), Some(1_709_251_200));
    assert_eq!(parse_amz_date("short"), None);
}

#[test]
fn escapes_are_decoded() {
    assert_eq!(percent_decode("a%2Fb"), "a/b");
    assert_eq!(percent_decode("plain-text"), "plain-text");
    assert_eq!(percent_decode("%C3%A9"), "\u{e9}");
    let params = parse_query_params("a=1%2F2&b");
    assert_eq!(params.get("a").map(String::as_str), Some("1/2"));
}

#[test]
fn headers_are_found_in_any_case() {
    let headers = vec![("Host".to_string(), "h".to_string())];
    assert_eq!(find_header(&headers, "host"), Some("h"));
    assert_eq!(find_header(&headers, "date"), None);
    assert_eq!(
        build_canonical_headers(&[("A".to_string(), "  x  y ".to_string())], &["a".to_string()]),
        "a:x  y\n"
    );
    assert_eq!(canonical_uri(""), "/");
}

#[test]
fn dates_follow_the_calendar() {
    assert_eq!(parse_amz_date("19700101T000000Z"), Some(0));
    assert_eq!(parse_amz_date("20240229T000000Z"), Some(1709164800));
    assert_eq!(parse_amz_date("20240301T000000Z"), Some(1709251200));
    assert_eq!(parse_amz_date("21000301T000000Z"), Some(4107542400));
    assert_eq!(parse_amz_date("21010101T000000Z"), Some(4133980800));
    assert_eq!(parse_amz_date("20000301T000000Z"), Some(951868800));
    assert_eq!(parse_amz_date("19691231T235959Z"), Some(-1));
}
