//! Requests on the settings of a bucket, and the parameters of multipart requests.

use vstd::prelude::*;
use vstd::string::*;

use super::errors;
use super::errors::S3Error;
use super::request;
use super::request::Header;
use crate::json;
use crate::json::Json;
use crate::query;
use crate::split;
use crate::storage;
use crate::strmap::StringMap;
use crate::text;

verus! {

/// How many bytes a bucket policy may have.
pub const MAX_POLICY: usize = 20480;

/// A status that turns versioning on or off.
pub open spec fn is_status(s: Seq<char>) -> bool {
    s == "Enabled"@ || s == "Suspended"@
}

/// Checks the versioning status that a request sets.
pub fn check_versioning(status: &Option<String>) -> (r: Result<String, S3Error>)
    ensures
        match r {
            Ok(s) => storage::opt_view(*status) == Some(s@) && is_status(s@),
            Err(e) => !(storage::opt_view(*status) matches Some(s) && is_status(s)) && e@
                == errors::malformed_xml(),
        },
{
    match status {
        Some(s) => if text::str_eq(s.as_str(), "Enabled") || text::str_eq(s.as_str(), "Suspended") {
            Ok(s.clone())
        } else {
            Err(S3Error::malformed_xml())
        },
        None => Err(S3Error::malformed_xml()),
    }
}

/// The document states a version that is not empty.
pub open spec fn states_version(doc: Json) -> bool {
    match doc {
        Json::Object(fields) => json::field(fields@, "Version"@) matches Some(Json::Text(v))
            && v@.len() > 0,
        _ => false,
    }
}

/// Whether a policy document states a version that is not empty.
pub fn has_version(doc: &Json) -> (r: bool)
    ensures
        r == states_version(*doc),
{
    match doc {
        Json::Object(fields) => match json::get(fields, "Version") {
            Some(Json::Text(v)) => !v.as_str().is_empty(),
            _ => false,
        },
        _ => false,
    }
}

/// Why a bucket policy is refused, if it is: by its length, and by the document that it
/// holds, if it holds one.
pub open spec fn policy_refusal(length: int, doc: Option<Json>) -> Option<errors::ErrorModel> {
    if length > MAX_POLICY {
        Some(errors::policy_too_large())
    } else if doc matches Some(d) && states_version(d) {
        None
    } else {
        Some(errors::malformed_xml())
    }
}

/// Checks a bucket policy.
pub fn check_policy(length: usize, doc: &Option<Json>) -> (r: Result<(), S3Error>)
    ensures
        match r {
            Ok(_) => policy_refusal(length as int, *doc) is None,
            Err(e) => policy_refusal(length as int, *doc) == Some(e@),
        },
{
    if length > MAX_POLICY {
        return Err(S3Error::policy_too_large());
    }
    match doc {
        Some(d) => if has_version(d) {
            Ok(())
        } else {
            Err(S3Error::malformed_xml())
        },
        None => Err(S3Error::malformed_xml()),
    }
}

/// Documents with the same contents state the same version.
pub proof fn lemma_same_version(a: Json, b: Json)
    requires
        json::same(a, b),
    ensures
        states_version(a) == states_version(b),
{
    if let (Json::Object(x), Json::Object(y)) = (a, b) {
        json::lemma_same_field(x@, y@, "Version"@);
    }
}

/// Reads and checks the bucket policy that a request sends.
pub fn check_policy_body(body: &[u8]) -> (r: Result<Json, S3Error>)
    ensures
        match r {
            Ok(d) => policy_refusal(body@.len() as int, Some(d)) is None && (json::json_in(
                body@,
            ) matches Some(j) && json::same(d, j)),
            Err(e) => policy_refusal(body@.len() as int, json::json_in(body@)) == Some(e@),
        },
{
    let doc = json::parse(body);
    proof {
        if doc is Some {
            lemma_same_version(doc->0, json::json_in(body@)->0);
        }
    }
    match check_policy(body.len(), &doc) {
        Ok(_) => match doc {
            Some(d) => Ok(d),
            None => Err(S3Error::malformed_xml()),
        },
        Err(e) => Err(e),
    }
}

/// Checks the lifecycle document of a bucket: it has to name its configuration.
pub fn check_lifecycle(body: &Option<String>) -> (r: Result<(), S3Error>)
    ensures
        r is Ok <==> (storage::opt_view(*body) matches Some(b) && split::holds(
            b,
            "LifecycleConfiguration"@,
        )),
        r matches Err(e) ==> e@ == errors::malformed_xml(),
{
    match body {
        Some(b) => if split::contains(b.as_str(), "LifecycleConfiguration") {
            Ok(())
        } else {
            Err(S3Error::malformed_xml())
        },
        None => Err(S3Error::malformed_xml()),
    }
}

/// Checks the access control list that a request sets: only the private one can be set.
pub fn check_acl(headers: &Vec<Header>) -> (r: Result<(), S3Error>)
    ensures
        ({
            let acl = request::value_or(
                request::header_views(headers@),
                "x-amz-acl"@,
                Seq::empty(),
            );
            &&& r is Ok <==> acl.len() == 0 || acl == "private"@
            &&& r matches Err(e) ==> e@ == errors::not_implemented()
        }),
{
    match request::header_value(headers, "x-amz-acl") {
        Some(v) => if v.is_empty() || text::str_eq(v, "private") {
            Ok(())
        } else {
            Err(S3Error::not_implemented())
        },
        None => Ok(()),
    }
}

/// The disk path in the label of a local disk; the current directory for any other disk.
pub open spec fn root_in(label: Seq<char>) -> Seq<char> {
    if text::has_prefix(label, "local:"@) {
        label.skip("local:"@.len() as int)
    } else {
        "."@
    }
}

/// The disk path in a label.
pub fn disk_root(label: &str) -> (r: &str)
    ensures
        r@ == root_in(label@),
{
    match text::strip_prefix(label, "local:") {
        Some(p) => p,
        None => ".",
    }
}

/// The number of a part, where it fits.
pub open spec fn part_number_value(s: Seq<char>) -> Option<int> {
    text::within(text::integer_value(s), i32::MIN as int, i32::MAX as int)
}

/// Reads the number of a part.
pub fn parse_part_number(s: &str) -> (r: Option<i32>)
    ensures
        match r {
            Some(n) => part_number_value(s@) == Some(n as int),
            None => part_number_value(s@) is None,
        },
{
    match text::parse_i64(s) {
        Some(n) => if -0x8000_0000i64 <= n && n <= 0x7fff_ffffi64 {
            Some(n as i32)
        } else {
            None
        },
        None => None,
    }
}

/// The upload that a request names.
pub fn upload_param(params: &StringMap<String>) -> (r: Result<String, S3Error>)
    ensures
        match r {
            Ok(id) => query::value_of(query::texts(params@), "uploadId"@) == Some(id@),
            Err(e) => query::value_of(query::texts(params@), "uploadId"@) is None && e@
                == errors::incomplete_body(),
        },
{
    match query::lookup(params, "uploadId") {
        Some(v) => Ok(v.to_owned()),
        None => Err(S3Error::incomplete_body()),
    }
}

/// Upload and part that a request names, if it names both.
pub open spec fn part_named(m: Map<Seq<char>, Seq<char>>) -> Option<(Seq<char>, int)> {
    match (query::value_of(m, "uploadId"@), query::value_of(m, "partNumber"@)) {
        (Some(id), Some(n)) => match part_number_value(n) {
            Some(k) => Some((id, k)),
            None => None,
        },
        _ => None,
    }
}

/// The upload and the part that a request names.
pub fn part_params(params: &StringMap<String>) -> (r: Result<(String, i32), S3Error>)
    ensures
        match r {
            Ok(p) => part_named(query::texts(params@)) == Some((p.0@, p.1 as int)),
            Err(e) => part_named(query::texts(params@)) is None && e@
                == errors::incomplete_body(),
        },
{
    let id = match query::lookup(params, "uploadId") {
        Some(v) => v.to_owned(),
        None => {
            return Err(S3Error::incomplete_body());
        },
    };
    match query::lookup(params, "partNumber") {
        Some(v) => match parse_part_number(v) {
            Some(n) => Ok((id, n)),
            None => Err(S3Error::incomplete_body()),
        },
        None => Err(S3Error::incomplete_body()),
    }
}

} // verus!
