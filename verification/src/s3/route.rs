//! Which operation a request asks for, and whether it may.

use vstd::prelude::*;
use vstd::string::*;

use super::auth;
use super::auth::AuthConfig;
use super::request;
use super::request::{Header, Method, Request};
use crate::cluster::cluster_probe_header;
use crate::split;
use crate::storage;
use crate::text;

verus! {

/// An operation of the S3 interface.
#[derive(Clone, Copy, Debug, PartialEq, Eq, Structural)]
pub enum Operation {
    ListBuckets,
    GetBucketVersioning,
    PutBucketVersioning,
    ListObjectVersions,
    ListMultipartUploads,
    GetBucketCors,
    PutBucketCors,
    DeleteBucketCors,
    GetBucketNotification,
    PutBucketNotification,
    GetAcl,
    PutAcl,
    GetBucketPolicy,
    PutBucketPolicy,
    DeleteBucketPolicy,
    GetBucketLifecycle,
    PutBucketLifecycle,
    DeleteBucketLifecycle,
    GetBucketTagging,
    PutBucketTagging,
    DeleteBucketTagging,
    CreateBucket,
    HeadBucket,
    DeleteBucket,
    ListObjects,
    DeleteObjects,
    GetObjectTagging,
    PutObjectTagging,
    DeleteObjectTagging,
    CreateMultipartUpload,
    UploadPart,
    CompleteMultipartUpload,
    AbortMultipartUpload,
    ListParts,
    PutObject,
    GetObject,
    HeadObject,
    DeleteObject,
    /// No operation goes by this method here.
    NotAllowed,
}

/// What a `GET` on a bucket asks for.
pub open spec fn bucket_get(query: Seq<char>) -> Operation {
    if split::holds(query, "versioning"@) {
        Operation::GetBucketVersioning
    } else if split::holds(query, "versions"@) {
        Operation::ListObjectVersions
    } else if split::holds(query, "uploads"@) {
        Operation::ListMultipartUploads
    } else if split::holds(query, "cors"@) {
        Operation::GetBucketCors
    } else if split::holds(query, "notification"@) {
        Operation::GetBucketNotification
    } else if split::holds(query, "acl"@) {
        Operation::GetAcl
    } else if split::holds(query, "policy"@) {
        Operation::GetBucketPolicy
    } else if split::holds(query, "lifecycle"@) {
        Operation::GetBucketLifecycle
    } else if split::holds(query, "tagging"@) {
        Operation::GetBucketTagging
    } else {
        Operation::ListObjects
    }
}

/// What a `PUT` on a bucket asks for.
pub open spec fn bucket_put(query: Seq<char>) -> Operation {
    if split::holds(query, "versioning"@) {
        Operation::PutBucketVersioning
    } else if split::holds(query, "cors"@) {
        Operation::PutBucketCors
    } else if split::holds(query, "notification"@) {
        Operation::PutBucketNotification
    } else if split::holds(query, "acl"@) {
        Operation::PutAcl
    } else if split::holds(query, "policy"@) {
        Operation::PutBucketPolicy
    } else if split::holds(query, "lifecycle"@) {
        Operation::PutBucketLifecycle
    } else if split::holds(query, "tagging"@) {
        Operation::PutBucketTagging
    } else {
        Operation::CreateBucket
    }
}

/// What a `DELETE` on a bucket asks for.
pub open spec fn bucket_delete(query: Seq<char>) -> Operation {
    if split::holds(query, "cors"@) {
        Operation::DeleteBucketCors
    } else if split::holds(query, "policy"@) {
        Operation::DeleteBucketPolicy
    } else if split::holds(query, "lifecycle"@) {
        Operation::DeleteBucketLifecycle
    } else if split::holds(query, "tagging"@) {
        Operation::DeleteBucketTagging
    } else {
        Operation::DeleteBucket
    }
}

/// What a request on an object asks for.
pub open spec fn object_operation(method: Method, query: Seq<char>) -> Operation {
    match method {
        Method::Get => if split::holds(query, "acl"@) {
            Operation::GetAcl
        } else if split::holds(query, "tagging"@) {
            Operation::GetObjectTagging
        } else if split::holds(query, "uploadId"@) {
            Operation::ListParts
        } else {
            Operation::GetObject
        },
        Method::Put => if split::holds(query, "acl"@) {
            Operation::PutAcl
        } else if split::holds(query, "tagging"@) {
            Operation::PutObjectTagging
        } else if split::holds(query, "uploadId"@) && split::holds(query, "partNumber"@) {
            Operation::UploadPart
        } else {
            Operation::PutObject
        },
        Method::Delete => if split::holds(query, "tagging"@) {
            Operation::DeleteObjectTagging
        } else if split::holds(query, "uploadId"@) {
            Operation::AbortMultipartUpload
        } else {
            Operation::DeleteObject
        },
        Method::Post => if split::holds(query, "uploads"@) {
            Operation::CreateMultipartUpload
        } else if split::holds(query, "uploadId"@) {
            Operation::CompleteMultipartUpload
        } else {
            Operation::NotAllowed
        },
        Method::Head => Operation::HeadObject,
        Method::Other => Operation::NotAllowed,
    }
}

/// What a request asks for.
pub open spec fn operation(
    bucket: Seq<char>,
    key: Seq<char>,
    method: Method,
    query: Seq<char>,
) -> Operation {
    if bucket.len() == 0 && method == Method::Get {
        Operation::ListBuckets
    } else if key.len() > 0 {
        object_operation(method, query)
    } else {
        match method {
            Method::Get => bucket_get(query),
            Method::Put => bucket_put(query),
            Method::Delete => bucket_delete(query),
            Method::Head => Operation::HeadBucket,
            Method::Post => if split::holds(query, "delete"@) {
                Operation::DeleteObjects
            } else {
                object_operation(method, query)
            },
            Method::Other => Operation::NotAllowed,
        }
    }
}

fn route_bucket_get(query: &str) -> (r: Operation)
    ensures
        r == bucket_get(query@),
{
    if split::contains(query, "versioning") {
        Operation::GetBucketVersioning
    } else if split::contains(query, "versions") {
        Operation::ListObjectVersions
    } else if split::contains(query, "uploads") {
        Operation::ListMultipartUploads
    } else if split::contains(query, "cors") {
        Operation::GetBucketCors
    } else if split::contains(query, "notification") {
        Operation::GetBucketNotification
    } else if split::contains(query, "acl") {
        Operation::GetAcl
    } else if split::contains(query, "policy") {
        Operation::GetBucketPolicy
    } else if split::contains(query, "lifecycle") {
        Operation::GetBucketLifecycle
    } else if split::contains(query, "tagging") {
        Operation::GetBucketTagging
    } else {
        Operation::ListObjects
    }
}

fn route_bucket_put(query: &str) -> (r: Operation)
    ensures
        r == bucket_put(query@),
{
    if split::contains(query, "versioning") {
        Operation::PutBucketVersioning
    } else if split::contains(query, "cors") {
        Operation::PutBucketCors
    } else if split::contains(query, "notification") {
        Operation::PutBucketNotification
    } else if split::contains(query, "acl") {
        Operation::PutAcl
    } else if split::contains(query, "policy") {
        Operation::PutBucketPolicy
    } else if split::contains(query, "lifecycle") {
        Operation::PutBucketLifecycle
    } else if split::contains(query, "tagging") {
        Operation::PutBucketTagging
    } else {
        Operation::CreateBucket
    }
}

fn route_bucket_delete(query: &str) -> (r: Operation)
    ensures
        r == bucket_delete(query@),
{
    if split::contains(query, "cors") {
        Operation::DeleteBucketCors
    } else if split::contains(query, "policy") {
        Operation::DeleteBucketPolicy
    } else if split::contains(query, "lifecycle") {
        Operation::DeleteBucketLifecycle
    } else if split::contains(query, "tagging") {
        Operation::DeleteBucketTagging
    } else {
        Operation::DeleteBucket
    }
}

fn route_object(method: Method, query: &str) -> (r: Operation)
    ensures
        r == object_operation(method, query@),
{
    match method {
        Method::Get => if split::contains(query, "acl") {
            Operation::GetAcl
        } else if split::contains(query, "tagging") {
            Operation::GetObjectTagging
        } else if split::contains(query, "uploadId") {
            Operation::ListParts
        } else {
            Operation::GetObject
        },
        Method::Put => if split::contains(query, "acl") {
            Operation::PutAcl
        } else if split::contains(query, "tagging") {
            Operation::PutObjectTagging
        } else if split::contains(query, "uploadId") && split::contains(query, "partNumber") {
            Operation::UploadPart
        } else {
            Operation::PutObject
        },
        Method::Delete => if split::contains(query, "tagging") {
            Operation::DeleteObjectTagging
        } else if split::contains(query, "uploadId") {
            Operation::AbortMultipartUpload
        } else {
            Operation::DeleteObject
        },
        Method::Post => if split::contains(query, "uploads") {
            Operation::CreateMultipartUpload
        } else if split::contains(query, "uploadId") {
            Operation::CompleteMultipartUpload
        } else {
            Operation::NotAllowed
        },
        Method::Head => Operation::HeadObject,
        Method::Other => Operation::NotAllowed,
    }
}

/// The operation that a request on a bucket or an object asks for.
pub fn route(bucket: &str, key: &str, method: Method, query: &str) -> (r: Operation)
    ensures
        r == operation(bucket@, key@, method, query@),
{
    if bucket.is_empty() && method == Method::Get {
        return Operation::ListBuckets;
    }
    if !key.is_empty() {
        return route_object(method, query);
    }
    match method {
        Method::Get => route_bucket_get(query),
        Method::Put => route_bucket_put(query),
        Method::Delete => route_bucket_delete(query),
        Method::Head => Operation::HeadBucket,
        Method::Post => if split::contains(query, "delete") {
            Operation::DeleteObjects
        } else {
            route_object(method, query)
        },
        Method::Other => Operation::NotAllowed,
    }
}

// ------------------------------------------------------------ authentication

/// The headers with a text for every value, empty where it is not readable.
pub open spec fn plain_headers(h: Seq<(Seq<char>, Option<Seq<char>>)>) -> Seq<
    (Seq<char>, Seq<char>),
> {
    h.map_values(
        |x: (Seq<char>, Option<Seq<char>>)|
            (
                x.0,
                match x.1 {
                    Some(v) => v,
                    None => Seq::empty(),
                },
            ),
    )
}

/// The value of the first header with exactly this name.
pub open spec fn exact_header(
    headers: Seq<(Seq<char>, Seq<char>)>,
    name: Seq<char>,
) -> Option<Seq<char>>
    decreases headers.len(),
{
    if headers.len() == 0 {
        None
    } else if headers[0].0 == name {
        Some(headers[0].1)
    } else {
        exact_header(headers.drop_first(), name)
    }
}

/// The digest of the body that a request states.
pub open spec fn stated_hash(headers: Seq<(Seq<char>, Seq<char>)>) -> Seq<char> {
    match exact_header(headers, "x-amz-content-sha256"@) {
        Some(v) => v,
        None => "UNSIGNED-PAYLOAD"@,
    }
}

/// The request carries a valid signature, in its query or in its headers.
pub open spec fn admitted(
    verb: Seq<char>,
    path: Seq<char>,
    query: Seq<char>,
    headers: Seq<(Seq<char>, Option<Seq<char>>)>,
    access_key: Seq<char>,
    secret_key: Seq<char>,
    now: int,
) -> bool {
    let plain = plain_headers(headers);
    if split::holds(query, "X-Amz-Algorithm"@) || split::holds(query, "X-Amz-Credential"@) {
        auth::presigned_refusal(verb, path, query, plain, access_key, secret_key, now) is None
    } else {
        let authorization = request::value_or(headers, "authorization"@, Seq::empty());
        authorization.len() > 0 && auth::refusal(
            verb,
            path,
            query,
            plain,
            stated_hash(plain),
            authorization,
            access_key,
            secret_key,
            now,
        ) is None
    }
}

fn list_headers(headers: &Vec<Header>) -> (r: Vec<(String, String)>)
    ensures
        storage::pair_views(r@) == plain_headers(request::header_views(headers@)),
{
    let mut out: Vec<(String, String)> = Vec::new();
    let ghost want = plain_headers(request::header_views(headers@));
    while out.len() < headers.len()
        invariant
            out@.len() <= headers@.len(),
            want == plain_headers(request::header_views(headers@)),
            forall|k: int|
                0 <= k < out@.len() ==> ((#[trigger] out@[k]).0@, out@[k].1@) == want[k],
        decreases headers@.len() - out@.len(),
    {
        let h = &headers[out.len()];
        let v: String = match &h.value {
            Some(v) => v.clone(),
            None => String::new(),
        };
        assert(h.value is None ==> v@ =~= Seq::<char>::empty());
        out.push((h.name.clone(), v));
    }
    assert(storage::pair_views(out@) =~= want);
    out
}

fn find_exact<'a>(headers: &'a Vec<(String, String)>, name: &str) -> (r: Option<&'a str>)
    ensures
        match r {
            Some(v) => exact_header(storage::pair_views(headers@), name@) == Some(v@),
            None => exact_header(storage::pair_views(headers@), name@) is None,
        },
{
    let ghost all = storage::pair_views(headers@);
    let mut i: usize = 0;
    assert(all.skip(0) =~= all);
    while i < headers.len()
        invariant
            i <= headers@.len(),
            all == storage::pair_views(headers@),
            exact_header(all, name@) == exact_header(all.skip(i as int), name@),
        decreases headers@.len() - i,
    {
        if text::str_eq(headers[i].0.as_str(), name) {
            return Some(headers[i].1.as_str());
        }
        assert(all.skip(i as int).drop_first() =~= all.skip(i + 1));
        i = i + 1;
    }
    None
}

/// Whether a request carries a valid signature at a given moment.
pub fn check_auth(req: &Request, access_key: &str, secret_key: &str, now: u64) -> (r: bool)
    ensures
        r == admitted(
            req.verb@,
            req.path@,
            req.query@,
            request::header_views(req.headers@),
            access_key@,
            secret_key@,
            now as int,
        ),
{
    let headers = list_headers(&req.headers);
    if auth::is_presigned(req.query.as_str()) {
        return auth::verify_presigned_v4_at(
            req.verb.as_str(),
            req.path.as_str(),
            req.query.as_str(),
            headers.as_slice(),
            access_key,
            secret_key,
            now,
        ).is_ok();
    }
    let authorization = match request::header_value(&req.headers, "authorization") {
        Some(v) => v,
        None => {
            return false;
        },
    };
    if authorization.is_empty() {
        return false;
    }
    let body_hash = match find_exact(&headers, "x-amz-content-sha256") {
        Some(v) => v,
        None => "UNSIGNED-PAYLOAD",
    };
    auth::verify_sig_v4_at(
        req.verb.as_str(),
        req.path.as_str(),
        req.query.as_str(),
        headers.as_slice(),
        body_hash,
        authorization,
        access_key,
        secret_key,
        now,
    ).is_ok()
}

/// A request is a probe of a peer: it knows the secret that the nodes share.
pub open spec fn is_probe(
    headers: Seq<(Seq<char>, Option<Seq<char>>)>,
    secret: Seq<char>,
) -> bool {
    secret.len() > 0 && request::value(headers, "x-abixio-cluster-secret"@) == Some(secret)
}

/// Whether a request is a probe of a peer.
pub fn cluster_probe_authorized(headers: &Vec<Header>, secret: &str) -> (r: bool)
    ensures
        r == is_probe(request::header_views(headers@), secret@),
{
    if secret.is_empty() {
        return false;
    }
    match request::header_value(headers, cluster_probe_header()) {
        Some(v) => text::str_eq(v, secret),
        None => false,
    }
}

// ------------------------------------------------------------------ dispatch

/// What becomes of a request.
#[derive(Debug, PartialEq, Eq)]
pub enum Step {
    /// It goes to the admin interface, with this path.
    Admin(String),
    /// Its signature is missing or wrong.
    Denied,
    /// It is meant for an admin interface that is not there.
    NoAdmin,
    /// The node serves no data now.
    Unavailable,
    /// It is an operation on buckets and objects.
    Operate { operation: Operation, bucket: String, key: String },
}

/// What becomes of a request, as a mathematical value.
pub enum StepModel {
    Admin(Seq<char>),
    Denied,
    NoAdmin,
    Unavailable,
    Operate(Operation, Seq<char>, Seq<char>),
}

impl View for Step {
    type V = StepModel;

    open spec fn view(&self) -> StepModel {
        match self {
            Step::Admin(p) => StepModel::Admin(p@),
            Step::Denied => StepModel::Denied,
            Step::NoAdmin => StepModel::NoAdmin,
            Step::Unavailable => StepModel::Unavailable,
            Step::Operate { operation, bucket, key } => StepModel::Operate(
                *operation,
                bucket@,
                key@,
            ),
        }
    }
}

/// Bucket and key in a path without leading slashes.
pub open spec fn bucket_and_key(path: Seq<char>) -> (Seq<char>, Seq<char>) {
    match split::split_pair(path, '/') {
        Some(p) => p,
        None => (path, Seq::empty()),
    }
}

/// What becomes of a request on a path without leading slashes, where `open` tells whether
/// it may go in, and `probe` whether it is a probe of a peer.
pub open spec fn step(
    path: Seq<char>,
    method: Method,
    query: Seq<char>,
    probe: bool,
    open: bool,
    has_admin: bool,
    blocked: bool,
) -> StepModel {
    if path == "_admin/cluster/status"@ && probe && has_admin {
        StepModel::Admin("cluster/status"@)
    } else if !open {
        StepModel::Denied
    } else if text::has_prefix(path, "_admin/"@) {
        if has_admin {
            StepModel::Admin(path.skip("_admin/"@.len() as int))
        } else {
            StepModel::NoAdmin
        }
    } else if path == "_admin"@ && has_admin {
        StepModel::Admin("status"@)
    } else if blocked {
        StepModel::Unavailable
    } else {
        let (bucket, key) = bucket_and_key(path);
        StepModel::Operate(operation(bucket, key, method, query), bucket, key)
    }
}

/// Decides what becomes of a request.
pub fn dispatch(
    req: &Request,
    config: &AuthConfig,
    cluster_secret: &str,
    has_admin: bool,
    blocked: bool,
    now: u64,
) -> (r: Step)
    ensures
        r@ == step(
            split::without_leading(req.path@, '/'),
            request::method_of(req.verb@),
            req.query@,
            is_probe(request::header_views(req.headers@), cluster_secret@),
            config.no_auth || admitted(
                req.verb@,
                req.path@,
                req.query@,
                request::header_views(req.headers@),
                config.access_key@,
                config.secret_key@,
                now as int,
            ),
            has_admin,
            blocked,
        ),
{
    let path = split::trim_start_char(req.path.as_str(), '/');
    if has_admin && text::str_eq(path, "_admin/cluster/status") && cluster_probe_authorized(
        &req.headers,
        cluster_secret,
    ) {
        return Step::Admin("cluster/status".to_owned());
    }
    if !config.no_auth && !check_auth(
        req,
        config.access_key.as_str(),
        config.secret_key.as_str(),
        now,
    ) {
        return Step::Denied;
    }
    if let Some(rest) = text::strip_prefix(path, "_admin/") {
        if has_admin {
            return Step::Admin(rest.to_owned());
        }
        return Step::NoAdmin;
    }
    if has_admin && text::str_eq(path, "_admin") {
        return Step::Admin("status".to_owned());
    }
    if blocked {
        return Step::Unavailable;
    }
    let method = request::parse_method(req.verb.as_str());
    let (bucket, key) = match split::split_once(path, '/') {
        Some(p) => p,
        None => {
            let none = String::new();
            assert(none@ =~= Seq::<char>::empty());
            (path.to_owned(), none)
        },
    };
    let operation = route(bucket.as_str(), key.as_str(), method, req.query.as_str());
    Step::Operate { operation, bucket, key }
}

// ---------------------------------------------------------------------- laws

/// A request without a valid signature reaches nothing but the status that peers may see.
pub proof fn law_unsigned_request_is_denied(
    path: Seq<char>,
    method: Method,
    query: Seq<char>,
    probe: bool,
    has_admin: bool,
    blocked: bool,
)
    ensures
        ({
            let s = step(path, method, query, probe, false, has_admin, blocked);
            s == StepModel::Denied || (probe && s == StepModel::Admin("cluster/status"@))
        }),
{
}

/// A node that serves no data performs no operation on buckets and objects.
pub proof fn law_blocked_node_serves_no_data(
    path: Seq<char>,
    method: Method,
    query: Seq<char>,
    probe: bool,
    open: bool,
    has_admin: bool,
)
    ensures
        !(step(path, method, query, probe, open, has_admin, true) is Operate),
{
}

/// A `GET` or a `HEAD` asks for nothing that changes what is stored.
pub proof fn law_reads_change_nothing(bucket: Seq<char>, key: Seq<char>, query: Seq<char>)
    ensures
        reads_only(operation(bucket, key, Method::Get, query)),
        reads_only(operation(bucket, key, Method::Head, query)),
{
}

/// The operation changes nothing that is stored.
pub open spec fn reads_only(op: Operation) -> bool {
    match op {
        Operation::ListBuckets => true,
        Operation::GetBucketVersioning => true,
        Operation::ListObjectVersions => true,
        Operation::ListMultipartUploads => true,
        Operation::GetBucketCors => true,
        Operation::GetBucketNotification => true,
        Operation::GetAcl => true,
        Operation::GetBucketPolicy => true,
        Operation::GetBucketLifecycle => true,
        Operation::GetBucketTagging => true,
        Operation::HeadBucket => true,
        Operation::ListObjects => true,
        Operation::GetObjectTagging => true,
        Operation::ListParts => true,
        Operation::GetObject => true,
        Operation::HeadObject => true,
        Operation::NotAllowed => true,
        _ => false,
    }
}

} // verus!
