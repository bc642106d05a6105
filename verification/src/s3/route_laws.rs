//! What holds of the way of a request: operations, access, and the names the metrics use.

use vstd::prelude::*;
use vstd::string::*;

use super::auth;
use super::request;
use super::request::{Header, Method};
use super::route;
use super::route::{Operation, StepModel};
use crate::s3_route;
use crate::s3_route::GateModel;
use crate::split;
use crate::text;

verus! {

// ---------------------------------------------------------------- operations

/// The method by which an operation is asked for.
pub open spec fn method_for(op: Operation) -> Method {
    match op {
        Operation::ListBuckets => Method::Get,
        Operation::GetBucketVersioning => Method::Get,
        Operation::ListObjectVersions => Method::Get,
        Operation::ListMultipartUploads => Method::Get,
        Operation::GetBucketCors => Method::Get,
        Operation::GetBucketNotification => Method::Get,
        Operation::GetAcl => Method::Get,
        Operation::GetBucketPolicy => Method::Get,
        Operation::GetBucketLifecycle => Method::Get,
        Operation::GetBucketTagging => Method::Get,
        Operation::ListObjects => Method::Get,
        Operation::GetObjectTagging => Method::Get,
        Operation::ListParts => Method::Get,
        Operation::GetObject => Method::Get,
        Operation::PutBucketVersioning => Method::Put,
        Operation::PutBucketCors => Method::Put,
        Operation::PutBucketNotification => Method::Put,
        Operation::PutAcl => Method::Put,
        Operation::PutBucketPolicy => Method::Put,
        Operation::PutBucketLifecycle => Method::Put,
        Operation::PutBucketTagging => Method::Put,
        Operation::CreateBucket => Method::Put,
        Operation::PutObjectTagging => Method::Put,
        Operation::UploadPart => Method::Put,
        Operation::PutObject => Method::Put,
        Operation::DeleteBucketCors => Method::Delete,
        Operation::DeleteBucketPolicy => Method::Delete,
        Operation::DeleteBucketLifecycle => Method::Delete,
        Operation::DeleteBucketTagging => Method::Delete,
        Operation::DeleteBucket => Method::Delete,
        Operation::DeleteObjectTagging => Method::Delete,
        Operation::AbortMultipartUpload => Method::Delete,
        Operation::DeleteObject => Method::Delete,
        Operation::DeleteObjects => Method::Post,
        Operation::CreateMultipartUpload => Method::Post,
        Operation::CompleteMultipartUpload => Method::Post,
        Operation::HeadBucket => Method::Head,
        Operation::HeadObject => Method::Head,
        Operation::NotAllowed => Method::Other,
    }
}

/// The word in the query that asks for an operation, if one does.
pub open spec fn word_for(op: Operation) -> Option<Seq<char>> {
    match op {
        Operation::GetBucketVersioning => Some("versioning"@),
        Operation::PutBucketVersioning => Some("versioning"@),
        Operation::ListObjectVersions => Some("versions"@),
        Operation::ListMultipartUploads => Some("uploads"@),
        Operation::CreateMultipartUpload => Some("uploads"@),
        Operation::GetBucketCors => Some("cors"@),
        Operation::PutBucketCors => Some("cors"@),
        Operation::DeleteBucketCors => Some("cors"@),
        Operation::GetBucketNotification => Some("notification"@),
        Operation::PutBucketNotification => Some("notification"@),
        Operation::GetAcl => Some("acl"@),
        Operation::PutAcl => Some("acl"@),
        Operation::GetBucketPolicy => Some("policy"@),
        Operation::PutBucketPolicy => Some("policy"@),
        Operation::DeleteBucketPolicy => Some("policy"@),
        Operation::GetBucketLifecycle => Some("lifecycle"@),
        Operation::PutBucketLifecycle => Some("lifecycle"@),
        Operation::DeleteBucketLifecycle => Some("lifecycle"@),
        Operation::GetBucketTagging => Some("tagging"@),
        Operation::PutBucketTagging => Some("tagging"@),
        Operation::DeleteBucketTagging => Some("tagging"@),
        Operation::GetObjectTagging => Some("tagging"@),
        Operation::PutObjectTagging => Some("tagging"@),
        Operation::DeleteObjectTagging => Some("tagging"@),
        Operation::ListParts => Some("uploadId"@),
        Operation::UploadPart => Some("uploadId"@),
        Operation::AbortMultipartUpload => Some("uploadId"@),
        Operation::CompleteMultipartUpload => Some("uploadId"@),
        Operation::DeleteObjects => Some("delete"@),
        _ => None,
    }
}

/// The operation is one on an object.
pub open spec fn on_object(op: Operation) -> bool {
    match op {
        Operation::GetObjectTagging => true,
        Operation::PutObjectTagging => true,
        Operation::DeleteObjectTagging => true,
        Operation::ListParts => true,
        Operation::UploadPart => true,
        Operation::AbortMultipartUpload => true,
        Operation::PutObject => true,
        Operation::GetObject => true,
        Operation::HeadObject => true,
        Operation::DeleteObject => true,
        _ => false,
    }
}

/// The operation is one on a bucket, or on all buckets.
pub open spec fn on_bucket(op: Operation) -> bool {
    match op {
        Operation::ListBuckets => true,
        Operation::GetBucketVersioning => true,
        Operation::PutBucketVersioning => true,
        Operation::ListObjectVersions => true,
        Operation::ListMultipartUploads => true,
        Operation::GetBucketCors => true,
        Operation::PutBucketCors => true,
        Operation::DeleteBucketCors => true,
        Operation::GetBucketNotification => true,
        Operation::PutBucketNotification => true,
        Operation::GetBucketPolicy => true,
        Operation::PutBucketPolicy => true,
        Operation::DeleteBucketPolicy => true,
        Operation::GetBucketLifecycle => true,
        Operation::PutBucketLifecycle => true,
        Operation::DeleteBucketLifecycle => true,
        Operation::GetBucketTagging => true,
        Operation::PutBucketTagging => true,
        Operation::DeleteBucketTagging => true,
        Operation::CreateBucket => true,
        Operation::HeadBucket => true,
        Operation::DeleteBucket => true,
        Operation::ListObjects => true,
        Operation::DeleteObjects => true,
        _ => false,
    }
}

/// An operation is performed only where its own method asks for it, on a resource of its kind,
/// and with its own word in the query.
pub proof fn law_operation_was_asked_for(
    bucket: Seq<char>,
    key: Seq<char>,
    method: Method,
    query: Seq<char>,
)
    ensures
        ({
            let op = route::operation(bucket, key, method, query);
            &&& op != Operation::NotAllowed ==> method == method_for(op)
            &&& word_for(op) is Some ==> split::holds(query, word_for(op)->0)
            &&& op == Operation::UploadPart ==> split::holds(query, "partNumber"@)
            &&& on_object(op) ==> key.len() > 0
            &&& on_bucket(op) && op != Operation::ListBuckets ==> key.len() == 0
            &&& op == Operation::ListBuckets <==> bucket.len() == 0 && method == Method::Get
            &&& op == Operation::NotAllowed ==> method == Method::Other || method == Method::Post
        }),
{
}

/// None of the words that ask for something other than the resource itself.
pub open spec fn plain(query: Seq<char>) -> bool {
    &&& !split::holds(query, "versioning"@)
    &&& !split::holds(query, "versions"@)
    &&& !split::holds(query, "uploads"@)
    &&& !split::holds(query, "cors"@)
    &&& !split::holds(query, "notification"@)
    &&& !split::holds(query, "acl"@)
    &&& !split::holds(query, "policy"@)
    &&& !split::holds(query, "lifecycle"@)
    &&& !split::holds(query, "tagging"@)
    &&& !split::holds(query, "uploadId"@)
    &&& !split::holds(query, "delete"@)
}

/// A request whose query names nothing else is one on the bucket or the object itself: it is
/// read, written, deleted or looked up by its method.
pub proof fn law_plain_request_is_on_the_resource(
    bucket: Seq<char>,
    key: Seq<char>,
    query: Seq<char>,
)
    requires
        bucket.len() > 0,
        plain(query),
    ensures
        key.len() > 0 ==> route::operation(bucket, key, Method::Get, query)
            == Operation::GetObject,
        key.len() > 0 ==> route::operation(bucket, key, Method::Put, query)
            == Operation::PutObject,
        key.len() > 0 ==> route::operation(bucket, key, Method::Delete, query)
            == Operation::DeleteObject,
        key.len() > 0 ==> route::operation(bucket, key, Method::Head, query)
            == Operation::HeadObject,
        key.len() == 0 ==> route::operation(bucket, key, Method::Get, query)
            == Operation::ListObjects,
        key.len() == 0 ==> route::operation(bucket, key, Method::Put, query)
            == Operation::CreateBucket,
        key.len() == 0 ==> route::operation(bucket, key, Method::Delete, query)
            == Operation::DeleteBucket,
        key.len() == 0 ==> route::operation(bucket, key, Method::Head, query)
            == Operation::HeadBucket,
        route::operation(bucket, key, Method::Post, query) == Operation::NotAllowed,
{
}

/// A query that holds a word is never taken for one that does not: the operation on the bare
/// resource is performed only where no word asks for another one.
pub proof fn law_bare_operations_need_a_bare_query(
    bucket: Seq<char>,
    key: Seq<char>,
    method: Method,
    query: Seq<char>,
)
    ensures
        ({
            let op = route::operation(bucket, key, method, query);
            &&& op == Operation::ListObjects ==> !split::holds(query, "versioning"@)
                && !split::holds(query, "versions"@) && !split::holds(query, "uploads"@)
                && !split::holds(query, "cors"@) && !split::holds(query, "notification"@)
                && !split::holds(query, "acl"@) && !split::holds(query, "policy"@)
                && !split::holds(query, "lifecycle"@) && !split::holds(query, "tagging"@)
            &&& op == Operation::CreateBucket ==> !split::holds(query, "versioning"@)
                && !split::holds(query, "cors"@) && !split::holds(query, "notification"@)
                && !split::holds(query, "acl"@) && !split::holds(query, "policy"@)
                && !split::holds(query, "lifecycle"@) && !split::holds(query, "tagging"@)
            &&& op == Operation::DeleteBucket ==> !split::holds(query, "cors"@)
                && !split::holds(query, "policy"@) && !split::holds(query, "lifecycle"@)
                && !split::holds(query, "tagging"@)
            &&& op == Operation::GetObject ==> !split::holds(query, "acl"@) && !split::holds(
                query,
                "tagging"@,
            ) && !split::holds(query, "uploadId"@)
            &&& op == Operation::PutObject ==> !split::holds(query, "acl"@) && !split::holds(
                query,
                "tagging"@,
            ) && !(split::holds(query, "uploadId"@) && split::holds(query, "partNumber"@))
            &&& op == Operation::DeleteObject ==> !split::holds(query, "tagging"@)
                && !split::holds(query, "uploadId"@)
            &&& op == Operation::NotAllowed && method == Method::Post ==> !split::holds(
                query,
                "uploads"@,
            ) && !split::holds(query, "uploadId"@)
            &&& op == Operation::NotAllowed && method == Method::Post && key.len() == 0
                ==> !split::holds(query, "delete"@)
        }),
{
}

// -------------------------------------------------------------------- access

/// The value of a header is that of the first with its name, byte for byte.
pub proof fn law_first_exact_header_counts(
    headers: Seq<(Seq<char>, Seq<char>)>,
    name: Seq<char>,
    i: int,
)
    requires
        0 <= i < headers.len(),
        headers[i].0 == name,
        forall|j: int| 0 <= j < i ==> (#[trigger] headers[j]).0 != name,
    ensures
        route::exact_header(headers, name) == Some(headers[i].1),
    decreases headers.len(),
{
    if i > 0 {
        assert(headers[0].0 != name);
        let rest = headers.drop_first();
        assert forall|j: int| 0 <= j < i - 1 implies (#[trigger] rest[j]).0 != name by {
            assert(rest[j] == headers[j + 1]);
        }
        law_first_exact_header_counts(rest, name, i - 1);
    }
}

/// A request states the digest of its body in `x-amz-content-sha256`; one that does not leaves
/// the body unsigned.
pub proof fn law_body_digest_is_as_stated(headers: Seq<(Seq<char>, Seq<char>)>, i: int)
    requires
        0 <= i <= headers.len(),
        forall|j: int| 0 <= j < i ==> (#[trigger] headers[j]).0 != "x-amz-content-sha256"@,
    ensures
        i < headers.len() && headers[i].0 == "x-amz-content-sha256"@ ==> route::stated_hash(
            headers,
        ) == headers[i].1,
        i == headers.len() ==> route::stated_hash(headers) == "UNSIGNED-PAYLOAD"@,
{
    if i == headers.len() {
        lemma_no_header(headers, "x-amz-content-sha256"@);
    } else if headers[i].0 == "x-amz-content-sha256"@ {
        law_first_exact_header_counts(headers, "x-amz-content-sha256"@, i);
    }
}

proof fn lemma_no_header(headers: Seq<(Seq<char>, Seq<char>)>, name: Seq<char>)
    requires
        forall|j: int| 0 <= j < headers.len() ==> (#[trigger] headers[j]).0 != name,
    ensures
        route::exact_header(headers, name) is None,
    decreases headers.len(),
{
    if headers.len() > 0 {
        assert(headers[0].0 != name);
        let rest = headers.drop_first();
        assert forall|j: int| 0 <= j < rest.len() implies (#[trigger] rest[j]).0 != name by {
            assert(rest[j] == headers[j + 1]);
        }
        lemma_no_header(rest, name);
    }
}

/// The headers that are signed are those that were sent, one for one.
pub proof fn law_headers_are_signed_as_sent(headers: Seq<Header>, i: int)
    requires
        0 <= i < headers.len(),
    ensures
        ({
            let p = route::plain_headers(request::header_views(headers));
            &&& p.len() == headers.len()
            &&& p[i].0 == headers[i].name@
            &&& headers[i].value is Some ==> p[i].1 == headers[i].value->0@
            &&& headers[i].value is None ==> p[i].1.len() == 0
        }),
{
}

/// A request is let in only by a signature: by the one in its query where the query speaks of
/// one, and otherwise by the one in its `authorization` header, which has to be there.
pub proof fn law_signature_lets_in(
    verb: Seq<char>,
    path: Seq<char>,
    query: Seq<char>,
    headers: Seq<(Seq<char>, Option<Seq<char>>)>,
    access_key: Seq<char>,
    secret_key: Seq<char>,
    now: int,
)
    ensures
        ({
            let in_query = split::holds(query, "X-Amz-Algorithm"@) || split::holds(
                query,
                "X-Amz-Credential"@,
            );
            let given = request::value(headers, "authorization"@);
            let plain = route::plain_headers(headers);
            let let_in = route::admitted(
                verb,
                path,
                query,
                headers,
                access_key,
                secret_key,
                now,
            );
            &&& in_query ==> (let_in <==> auth::presigned_refusal(
                verb,
                path,
                query,
                plain,
                access_key,
                secret_key,
                now,
            ) is None)
            &&& !in_query && (given is None || given->0.len() == 0) ==> !let_in
            &&& !in_query && given is Some && given->0.len() > 0 ==> (let_in <==> auth::refusal(
                verb,
                path,
                query,
                plain,
                route::stated_hash(plain),
                given->0,
                access_key,
                secret_key,
                now,
            ) is None)
        }),
{
}

/// A probe has to send the secret of the cluster; where there is none, nothing is a probe.
pub proof fn law_probe_knows_the_secret(
    headers: Seq<(Seq<char>, Option<Seq<char>>)>,
    secret: Seq<char>,
)
    ensures
        secret.len() == 0 ==> !route::is_probe(headers, secret),
        secret.len() > 0 ==> (route::is_probe(headers, secret) <==> request::value(
            headers,
            "x-abixio-cluster-secret"@,
        ) == Some(secret)),
{
}

// --------------------------------------------------------------------- paths

/// The bucket is what stands before the first slash of a path, the key all that stands behind
/// it, further slashes and all.
pub proof fn law_path_is_bucket_and_key(bucket: Seq<char>, key: Seq<char>)
    requires
        split::free_of(bucket, '/'),
        bucket.len() <= usize::MAX,
    ensures
        route::bucket_and_key(bucket + seq!['/'] + key) == (bucket, key),
        route::bucket_and_key(bucket).0 == bucket,
        route::bucket_and_key(bucket).1.len() == 0,
{
    split::lemma_split_at(bucket, '/', key);
    split::lemma_split_nowhere(bucket, '/');
}

/// Where a request that may go in goes: below `_admin/` to the admin interface with the rest of
/// its path, and otherwise to the operation on the bucket and the key of its path, unless the
/// node serves no data.
pub proof fn law_request_reaches_its_resource(
    bucket: Seq<char>,
    key: Seq<char>,
    rest: Seq<char>,
    method: Method,
    query: Seq<char>,
    blocked: bool,
)
    requires
        split::free_of(bucket, '/'),
        bucket.len() <= usize::MAX,
        bucket != "_admin"@,
    ensures
        route::step(
            bucket + seq!['/'] + key,
            method,
            query,
            false,
            true,
            true,
            false,
        ) == StepModel::Operate(route::operation(bucket, key, method, query), bucket, key),
        route::step(bucket + seq!['/'] + key, method, query, false, true, true, true)
            == StepModel::Unavailable,
        route::step("_admin/"@ + rest, method, query, false, true, true, blocked)
            == StepModel::Admin(rest),
        route::step("_admin/"@ + rest, method, query, false, true, false, blocked)
            == StepModel::NoAdmin,
        route::step("_admin/"@ + rest, method, query, false, false, true, blocked)
            == StepModel::Denied,
{
    let path = bucket + seq!['/'] + key;
    split::lemma_split_at(bucket, '/', key);
    lemma_admin_prefix(bucket, key);
    let p = "_admin/"@ + rest;
    assert(p.take("_admin/"@.len() as int) =~= "_admin/"@);
    assert(p.skip("_admin/"@.len() as int) =~= rest);
}

/// The admin interface itself tells its status. A node of the cluster may ask for the cluster's
/// status without a signature, and for nothing else.
pub proof fn law_status_is_told(
    path: Seq<char>,
    method: Method,
    query: Seq<char>,
    probe: bool,
    has_storage: bool,
    has_admin: bool,
    blocked: bool,
)
    ensures
        route::step("_admin"@, method, query, probe, true, true, blocked) == StepModel::Admin(
            "status"@,
        ),
        s3_route::gate("_admin"@, has_storage, true) == GateModel::Admin("status"@),
        s3_route::gate("_admin"@, has_storage, false) == GateModel::NoAdmin,
        route::step("_admin/cluster/status"@, method, query, true, false, true, blocked)
            == StepModel::Admin("cluster/status"@),
        !probe || path != "_admin/cluster/status"@ ==> route::step(
            path,
            method,
            query,
            probe,
            false,
            has_admin,
            blocked,
        ) == StepModel::Denied,
{
    reveal_strlit("_admin");
    reveal_strlit("_admin/");
    reveal_strlit("_admin/cluster/status");
    reveal_strlit("_storage/v1/");
}

proof fn lemma_admin_prefix(bucket: Seq<char>, key: Seq<char>)
    requires
        split::free_of(bucket, '/'),
        bucket != "_admin"@,
    ensures
        !text::has_prefix(bucket + seq!['/'] + key, "_admin/"@),
        bucket + seq!['/'] + key != "_admin"@,
{
    reveal_strlit("_admin");
    reveal_strlit("_admin/");
    let path = bucket + seq!['/'] + key;
    assert(path[bucket.len() as int] == '/');
    if text::has_prefix(path, "_admin/"@) {
        let p = "_admin/"@;
        assert(p.len() == 7);
        assert forall|i: int| 0 <= i < 7 implies path[i] == p[i] by {
            assert(path.take(7)[i] == path[i]);
        }
        assert(path[6] == '/');
        if bucket.len() < 6 {
            assert(p[bucket.len() as int] != '/');
        } else if bucket.len() > 6 {
            assert(path[6] == bucket[6]);
        } else {
            assert("_admin"@[0] == p[0] && "_admin"@[1] == p[1]);
            assert("_admin"@[2] == p[2] && "_admin"@[3] == p[3]);
            assert("_admin"@[4] == p[4] && "_admin"@[5] == p[5]);
            assert forall|i: int| 0 <= i < 6 implies bucket[i] == "_admin"@[i] by {
                assert(path[i] == bucket[i]);
            }
            assert("_admin"@.len() == 6);
            assert(bucket =~= "_admin"@);
        }
    }
    if path == "_admin"@ {
        assert("_admin"@.len() == 6);
        assert(path[bucket.len() as int] != '/');
    }
}

/// Where the server sends a request: below `_storage/v1/` to the disks of the node, below
/// `_admin/` to the admin interface, and everything else to S3.
pub proof fn law_gate_goes_by_the_path(bucket: Seq<char>, key: Seq<char>, rest: Seq<char>)
    requires
        split::free_of(bucket, '/'),
        bucket != "_admin"@,
        bucket != "_storage"@,
    ensures
        s3_route::gate(bucket + seq!['/'] + key, true, true) == GateModel::Service,
        s3_route::gate("_admin/"@ + rest, true, true) == GateModel::Admin(rest),
        s3_route::gate("_admin/"@ + rest, true, false) == GateModel::NoAdmin,
        s3_route::gate("_storage/v1/"@ + rest, true, true) == GateModel::Storage,
        s3_route::gate("_storage/v1/"@ + rest, false, true) == GateModel::NoStorage,
{
    lemma_admin_prefix(bucket, key);
    lemma_storage_prefix(bucket, key);
    let p = "_admin/"@ + rest;
    assert(p.take("_admin/"@.len() as int) =~= "_admin/"@);
    assert(p.skip("_admin/"@.len() as int) =~= rest);
    let q = "_storage/v1/"@ + rest;
    assert(q.take("_storage/v1/"@.len() as int) =~= "_storage/v1/"@);
    reveal_strlit("_admin");
    reveal_strlit("_admin/");
    reveal_strlit("_storage/v1/");
    assert(p[1] == 'a');
    assert(p.len() >= 7 && "_admin"@.len() == 6);
    if text::has_prefix(p, "_storage/v1/"@) {
        assert(p.take(12)[1] == p[1]);
    }
}

proof fn lemma_storage_prefix(bucket: Seq<char>, key: Seq<char>)
    requires
        split::free_of(bucket, '/'),
        bucket != "_storage"@,
    ensures
        !text::has_prefix(bucket + seq!['/'] + key, "_storage/v1/"@),
{
    reveal_strlit("_storage");
    reveal_strlit("_storage/v1/");
    let path = bucket + seq!['/'] + key;
    assert(path[bucket.len() as int] == '/');
    if text::has_prefix(path, "_storage/v1/"@) {
        let p = "_storage/v1/"@;
        assert(p.len() == 12);
        assert forall|i: int| 0 <= i < 12 implies path[i] == p[i] by {
            assert(path.take(12)[i] == path[i]);
        }
        assert(path[8] == '/');
        if bucket.len() < 8 {
            assert(p[bucket.len() as int] != '/');
        } else if bucket.len() > 8 {
            assert(path[8] == bucket[8]);
        } else {
            assert("_storage"@[0] == p[0] && "_storage"@[1] == p[1]);
            assert("_storage"@[2] == p[2] && "_storage"@[3] == p[3]);
            assert("_storage"@[4] == p[4] && "_storage"@[5] == p[5]);
            assert("_storage"@[6] == p[6] && "_storage"@[7] == p[7]);
            assert forall|i: int| 0 <= i < 8 implies bucket[i] == "_storage"@[i] by {
                assert(path[i] == bucket[i]);
            }
            assert("_storage"@.len() == 8);
            assert(bucket =~= "_storage"@);
        }
    }
}

/// A length is what the header states in digits, and zero where it states none.
pub proof fn law_length_is_as_stated(n: u64, other: Seq<char>)
    ensures
        s3_route::length_in(Some(text::decimal(n as nat))) == n,
        s3_route::length_in(None) == 0,
        text::u64_value(other) is None ==> s3_route::length_in(Some(other)) == 0,
{
    text::lemma_u64_round_trip(n);
}

// -------------------------------------------------------------------- labels

/// What the metrics call an operation that the path and the method alone ask for.
pub open spec fn name_of(op: Operation) -> Seq<char> {
    match op {
        Operation::GetObject => "GetObject"@,
        Operation::PutObject => "PutObject"@,
        Operation::HeadObject => "HeadObject"@,
        Operation::DeleteObject => "DeleteObject"@,
        Operation::ListObjects => "ListObjectsV2"@,
        Operation::CreateBucket => "CreateBucket"@,
        Operation::HeadBucket => "HeadBucket"@,
        Operation::DeleteBucket => "DeleteBucket"@,
        Operation::GetBucketVersioning => "GetBucketVersioning"@,
        Operation::PutBucketVersioning => "PutBucketVersioning"@,
        Operation::GetObjectTagging => "GetObjectTagging"@,
        Operation::PutObjectTagging => "PutObjectTagging"@,
        Operation::DeleteObjectTagging => "DeleteObjectTagging"@,
        Operation::GetBucketTagging => "GetBucketTagging"@,
        Operation::PutBucketTagging => "PutBucketTagging"@,
        Operation::DeleteBucketTagging => "DeleteBucketTagging"@,
        Operation::GetBucketPolicy => "GetBucketPolicy"@,
        Operation::PutBucketPolicy => "PutBucketPolicy"@,
        Operation::DeleteBucketPolicy => "DeleteBucketPolicy"@,
        Operation::GetBucketLifecycle => "GetBucketLifecycleConfiguration"@,
        Operation::PutBucketLifecycle => "PutBucketLifecycleConfiguration"@,
        Operation::DeleteBucketLifecycle => "DeleteBucketLifecycle"@,
        Operation::ListObjectVersions => "ListObjectVersions"@,
        Operation::ListParts => "ListParts"@,
        Operation::UploadPart => "UploadPart"@,
        Operation::AbortMultipartUpload => "AbortMultipartUpload"@,
        Operation::CompleteMultipartUpload => "CompleteMultipartUpload"@,
        Operation::GetAcl => "GetBucketAcl"@,
        Operation::PutAcl => "PutBucketAcl"@,
        _ => Seq::empty(),
    }
}

/// The words by which the metrics tell requests apart, but for one.
pub open spec fn no_other_word(query: Seq<char>, word: Seq<char>) -> bool {
    &&& !split::holds(query, "uploads"@) && !split::holds(query, "uploads="@)
    &&& !text::has_suffix(query, "uploads"@)
    &&& !split::holds(query, "cors"@) && !split::holds(query, "notification"@)
    &&& !split::holds(query, "delete"@)
    &&& word == "versioning"@ || !split::holds(query, "versioning"@)
    &&& word == "versions"@ || !split::holds(query, "versions"@)
    &&& word == "acl"@ || !split::holds(query, "acl"@)
    &&& word == "policy"@ || !split::holds(query, "policy"@)
    &&& word == "lifecycle"@ || !split::holds(query, "lifecycle"@)
    &&& word == "tagging"@ || !split::holds(query, "tagging"@)
    &&& word == "uploadId"@ || (!split::holds(query, "uploadId"@) && !split::holds(
        query,
        "uploadId="@,
    ))
}

proof fn lemma_named_path(bucket: Seq<char>, key: Seq<char>)
    requires
        bucket.len() > 0,
        split::free_of(bucket, '/'),
        bucket.len() <= usize::MAX,
    ensures
        s3_route::names_key(seq!['/'] + bucket + seq!['/'] + key) <==> key.len() > 0,
        seq!['/'] + bucket + seq!['/'] + key != "/"@,
{
    let path = seq!['/'] + bucket + seq!['/'] + key;
    let inner = bucket + seq!['/'] + key;
    assert(path.drop_first() =~= inner);
    assert(inner[0] == bucket[0]);
    assert(split::without_leading(inner, '/') == inner);
    assert(path[0] == '/');
    assert(split::without_leading(path, '/') == inner);
    split::lemma_split_at(bucket, '/', key);
    reveal_strlit("/");
    assert("/"@.len() == 1);
}

/// The metrics call a request on a bucket or an object by the operation that it is routed to.
pub proof fn law_label_names_the_operation(
    verb: Seq<char>,
    bucket: Seq<char>,
    key: Seq<char>,
    query: Seq<char>,
)
    requires
        bucket.len() > 0,
        split::free_of(bucket, '/'),
        bucket.len() <= usize::MAX,
        verb == "GET"@ || verb == "PUT"@ || verb == "DELETE"@ || verb == "HEAD"@,
        no_other_word(query, Seq::empty()),
    ensures
        s3_route::op_label(verb, seq!['/'] + bucket + seq!['/'] + key, query) == name_of(
            route::operation(bucket, key, request::method_of(verb), query),
        ),
{
    lemma_named_path(bucket, key);
    lemma_words();
    super::request_laws::law_methods_are_named(verb);
    let m = request::method_of(verb);
    assert(m == Method::Get || m == Method::Put || m == Method::Delete || m == Method::Head);
}

proof fn lemma_words()
    ensures
        "versioning"@.len() > 0,
        "versions"@.len() > 0,
        "acl"@.len() > 0,
        "policy"@.len() > 0,
        "lifecycle"@.len() > 0,
        "tagging"@.len() > 0,
        "uploadId"@.len() > 0,
{
    reveal_strlit("versioning");
    reveal_strlit("versions");
    reveal_strlit("acl");
    reveal_strlit("policy");
    reveal_strlit("lifecycle");
    reveal_strlit("tagging");
    reveal_strlit("uploadId");
}

/// The same holds where the query asks for the tags, the policy, the rules or the versioning of
/// a bucket or an object.
pub proof fn law_label_names_the_subresource(
    verb: Seq<char>,
    bucket: Seq<char>,
    key: Seq<char>,
    query: Seq<char>,
    word: Seq<char>,
)
    requires
        bucket.len() > 0,
        split::free_of(bucket, '/'),
        bucket.len() <= usize::MAX,
        no_other_word(query, word),
        split::holds(query, word),
        word == "tagging"@ || (key.len() == 0 && (word == "policy"@ || word == "lifecycle"@
            || word == "versioning"@)),
        verb == "GET"@ || verb == "PUT"@ || (verb == "DELETE"@ && word != "versioning"@),
    ensures
        s3_route::op_label(verb, seq!['/'] + bucket + seq!['/'] + key, query) == name_of(
            route::operation(bucket, key, request::method_of(verb), query),
        ),
{
    lemma_named_path(bucket, key);
    super::request_laws::law_methods_are_named(verb);
    reveal_strlit("versioning");
    reveal_strlit("versions");
    reveal_strlit("acl");
    reveal_strlit("policy");
    reveal_strlit("lifecycle");
    reveal_strlit("tagging");
    reveal_strlit("uploadId");
    assert("versioning"@.len() == 10 && "versions"@.len() == 8 && "acl"@.len() == 3);
    assert("policy"@.len() == 6 && "lifecycle"@.len() == 9 && "tagging"@.len() == 7);
    assert("uploadId"@.len() == 8 && "uploadId"@[0] == 'u' && "versions"@[0] == 'v');
}

/// A request with an upload's id is called by what it does to the upload.
pub proof fn law_label_names_the_upload_step(method: Method, query: Seq<char>, key: bool)
    requires
        split::holds(query, "uploadId="@),
        !split::holds(query, "uploads="@),
        !text::has_suffix(query, "uploads"@),
    ensures
        method == Method::Post ==> s3_route::subresource_label(method, query, key) == Some(
            name_of(Operation::CompleteMultipartUpload),
        ),
        method == Method::Put ==> s3_route::subresource_label(method, query, key) == Some(
            name_of(Operation::UploadPart),
        ),
        method == Method::Delete ==> s3_route::subresource_label(method, query, key) == Some(
            name_of(Operation::AbortMultipartUpload),
        ),
        method == Method::Get ==> s3_route::subresource_label(method, query, key) == Some(
            name_of(Operation::ListParts),
        ),
{
}

/// A listing of versions, an access list and a list of uploads are called by their names.
pub proof fn law_label_names_the_listing(query: Seq<char>, key: bool)
    ensures
        no_other_word(query, "versions"@) && split::holds(query, "versions"@)
            ==> s3_route::subresource_label(Method::Get, query, key) == Some(
            "ListObjectVersions"@,
        ),
        no_other_word(query, "acl"@) && split::holds(query, "acl"@)
            ==> s3_route::subresource_label(Method::Get, query, key) == Some("GetBucketAcl"@),
        no_other_word(query, "acl"@) && split::holds(query, "acl"@)
            ==> s3_route::subresource_label(Method::Put, query, key) == Some("PutBucketAcl"@),
        split::holds(query, "uploads="@) || text::has_suffix(query, "uploads"@)
            ==> s3_route::subresource_label(Method::Get, query, key) == Some(
            "ListMultipartUploads"@,
        ),
{
    reveal_strlit("versioning");
    reveal_strlit("versions");
    reveal_strlit("acl");
    reveal_strlit("policy");
    reveal_strlit("lifecycle");
    reveal_strlit("tagging");
    reveal_strlit("uploadId");
    assert("versioning"@.len() == 10 && "versions"@.len() == 8 && "acl"@.len() == 3);
    assert("policy"@.len() == 6 && "lifecycle"@.len() == 9 && "tagging"@.len() == 7);
    assert("uploadId"@.len() == 8 && "uploadId"@[0] == 'u' && "versions"@[0] == 'v');
}

} // verus!
