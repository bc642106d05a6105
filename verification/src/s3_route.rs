//! The layer in front of S3: which requests belong to other interfaces, and what the
//! metrics call the rest.

use vstd::prelude::*;
use vstd::string::*;

use crate::s3::request;
use crate::s3::request::Method;
use crate::split;
use crate::text;

verus! {

/// Where a request goes.
#[derive(Debug, PartialEq, Eq)]
pub enum Gate {
    /// To the storage interface that nodes use among themselves.
    Storage,
    /// There, but this node has none.
    NoStorage,
    /// To the admin interface, with this path.
    Admin(String),
    /// There, but this node has none.
    NoAdmin,
    /// To S3.
    Service,
}

/// Where a request goes, as a mathematical value.
pub enum GateModel {
    Storage,
    NoStorage,
    Admin(Seq<char>),
    NoAdmin,
    Service,
}

impl View for Gate {
    type V = GateModel;

    open spec fn view(&self) -> GateModel {
        match self {
            Gate::Storage => GateModel::Storage,
            Gate::NoStorage => GateModel::NoStorage,
            Gate::Admin(p) => GateModel::Admin(p@),
            Gate::NoAdmin => GateModel::NoAdmin,
            Gate::Service => GateModel::Service,
        }
    }
}

/// Where a request with a path without leading slashes goes.
pub open spec fn gate(path: Seq<char>, has_storage: bool, has_admin: bool) -> GateModel {
    if text::has_prefix(path, "_storage/v1/"@) {
        if has_storage {
            GateModel::Storage
        } else {
            GateModel::NoStorage
        }
    } else if text::has_prefix(path, "_admin/"@) || path == "_admin"@ {
        if !has_admin {
            GateModel::NoAdmin
        } else if path == "_admin"@ {
            GateModel::Admin("status"@)
        } else {
            GateModel::Admin(path.skip("_admin/"@.len() as int))
        }
    } else {
        GateModel::Service
    }
}

/// Decides where a request goes.
pub fn dispatch(path: &str, has_storage: bool, has_admin: bool) -> (r: Gate)
    ensures
        r@ == gate(split::without_leading(path@, '/'), has_storage, has_admin),
{
    let trimmed = split::trim_start_char(path, '/');
    if text::starts_with(trimmed, "_storage/v1/") {
        return if has_storage {
            Gate::Storage
        } else {
            Gate::NoStorage
        };
    }
    if text::str_eq(trimmed, "_admin") {
        return if has_admin {
            Gate::Admin("status".to_owned())
        } else {
            Gate::NoAdmin
        };
    }
    match text::strip_prefix(trimmed, "_admin/") {
        Some(rest) => if has_admin {
            Gate::Admin(rest.to_owned())
        } else {
            Gate::NoAdmin
        },
        None => Gate::Service,
    }
}

/// The length that a header states, zero where it states none.
pub open spec fn length_in(header: Option<Seq<char>>) -> u64 {
    match header {
        Some(v) => match text::u64_value(v) {
            Some(n) => n,
            None => 0,
        },
        None => 0,
    }
}

/// Reads a `Content-Length` header.
pub fn content_length(header: Option<&str>) -> (r: u64)
    ensures
        r == length_in(
            match header {
                Some(v) => Some(v@),
                None => None,
            },
        ),
{
    match header {
        Some(v) => match text::parse_u64(v) {
            Some(n) => n,
            None => 0,
        },
        None => 0,
    }
}

/// The path names a key: something stands behind the slash that follows the bucket.
pub open spec fn names_key(path: Seq<char>) -> bool {
    split::split_pair(split::without_leading(path, '/'), '/') matches Some((_, key)) && key.len()
        > 0
}

fn has_key(path: &str) -> (r: bool)
    ensures
        r == names_key(path@),
{
    match split::split_once(split::trim_start_char(path, '/'), '/') {
        Some((_, key)) => !key.as_str().is_empty(),
        None => false,
    }
}

/// What the metrics call a request whose query names a subresource.
pub open spec fn subresource_label(method: Method, query: Seq<char>, key: bool) -> Option<
    Seq<char>,
> {
    if split::holds(query, "uploads="@) || text::has_suffix(query, "uploads"@) {
        Some("ListMultipartUploads"@)
    } else if split::holds(query, "uploadId="@) {
        Some(
            match method {
                Method::Post => "CompleteMultipartUpload"@,
                Method::Put => "UploadPart"@,
                Method::Delete => "AbortMultipartUpload"@,
                _ => "ListParts"@,
            },
        )
    } else if split::holds(query, "versioning"@) {
        Some(
            if method == Method::Put {
                "PutBucketVersioning"@
            } else {
                "GetBucketVersioning"@
            },
        )
    } else if split::holds(query, "tagging"@) {
        Some(
            match method {
                Method::Put => if key {
                    "PutObjectTagging"@
                } else {
                    "PutBucketTagging"@
                },
                Method::Delete => if key {
                    "DeleteObjectTagging"@
                } else {
                    "DeleteBucketTagging"@
                },
                _ => if key {
                    "GetObjectTagging"@
                } else {
                    "GetBucketTagging"@
                },
            },
        )
    } else if split::holds(query, "policy"@) {
        Some(
            match method {
                Method::Put => "PutBucketPolicy"@,
                Method::Delete => "DeleteBucketPolicy"@,
                _ => "GetBucketPolicy"@,
            },
        )
    } else if split::holds(query, "lifecycle"@) {
        Some(
            match method {
                Method::Put => "PutBucketLifecycleConfiguration"@,
                Method::Delete => "DeleteBucketLifecycle"@,
                _ => "GetBucketLifecycleConfiguration"@,
            },
        )
    } else if split::holds(query, "versions"@) {
        Some("ListObjectVersions"@)
    } else if split::holds(query, "acl"@) {
        Some(
            if method == Method::Put {
                "PutBucketAcl"@
            } else {
                "GetBucketAcl"@
            },
        )
    } else {
        None
    }
}

/// What the metrics call a request on a bucket or an object itself.
pub open spec fn plain_label(method: Method, path: Seq<char>) -> Seq<char> {
    let key = names_key(path);
    match method {
        Method::Get => if key {
            "GetObject"@
        } else if path == "/"@ {
            "ListBuckets"@
        } else {
            "ListObjectsV2"@
        },
        Method::Head => if key {
            "HeadObject"@
        } else {
            "HeadBucket"@
        },
        Method::Put => if key {
            "PutObject"@
        } else {
            "CreateBucket"@
        },
        Method::Delete => if key {
            "DeleteObject"@
        } else {
            "DeleteBucket"@
        },
        Method::Post => "PostObject"@,
        Method::Other => "Unknown"@,
    }
}

/// What the metrics call a request.
pub open spec fn op_label(verb: Seq<char>, path: Seq<char>, query: Seq<char>) -> Seq<char> {
    let method = request::method_of(verb);
    match subresource_label(method, query, names_key(path)) {
        Some(l) => l,
        None => plain_label(method, path),
    }
}

fn label_subresource(method: Method, query: &str, key: bool) -> (r: Option<&'static str>)
    ensures
        match r {
            Some(l) => subresource_label(method, query@, key) == Some(l@),
            None => subresource_label(method, query@, key) is None,
        },
{
    if split::contains(query, "uploads=") || text::ends_with(query, "uploads") {
        return Some("ListMultipartUploads");
    }
    if split::contains(query, "uploadId=") {
        return Some(
            match method {
                Method::Post => "CompleteMultipartUpload",
                Method::Put => "UploadPart",
                Method::Delete => "AbortMultipartUpload",
                _ => "ListParts",
            },
        );
    }
    if split::contains(query, "versioning") {
        return Some(
            if method == Method::Put {
                "PutBucketVersioning"
            } else {
                "GetBucketVersioning"
            },
        );
    }
    if split::contains(query, "tagging") {
        return Some(
            match method {
                Method::Put => if key {
                    "PutObjectTagging"
                } else {
                    "PutBucketTagging"
                },
                Method::Delete => if key {
                    "DeleteObjectTagging"
                } else {
                    "DeleteBucketTagging"
                },
                _ => if key {
                    "GetObjectTagging"
                } else {
                    "GetBucketTagging"
                },
            },
        );
    }
    if split::contains(query, "policy") {
        return Some(
            match method {
                Method::Put => "PutBucketPolicy",
                Method::Delete => "DeleteBucketPolicy",
                _ => "GetBucketPolicy",
            },
        );
    }
    if split::contains(query, "lifecycle") {
        return Some(
            match method {
                Method::Put => "PutBucketLifecycleConfiguration",
                Method::Delete => "DeleteBucketLifecycle",
                _ => "GetBucketLifecycleConfiguration",
            },
        );
    }
    if split::contains(query, "versions") {
        return Some("ListObjectVersions");
    }
    if split::contains(query, "acl") {
        return Some(
            if method == Method::Put {
                "PutBucketAcl"
            } else {
                "GetBucketAcl"
            },
        );
    }
    None
}

/// What the metrics call a request: a coarse label by method, path and query.
pub fn guess_op_label(verb: &str, path: &str, query: &str) -> (r: &'static str)
    ensures
        r@ == op_label(verb@, path@, query@),
{
    let method = request::parse_method(verb);
    let key = has_key(path);
    if let Some(l) = label_subresource(method, query, key) {
        return l;
    }
    match method {
        Method::Get => if key {
            "GetObject"
        } else if text::str_eq(path, "/") {
            "ListBuckets"
        } else {
            "ListObjectsV2"
        },
        Method::Head => if key {
            "HeadObject"
        } else {
            "HeadBucket"
        },
        Method::Put => if key {
            "PutObject"
        } else {
            "CreateBucket"
        },
        Method::Delete => if key {
            "DeleteObject"
        } else {
            "DeleteBucket"
        },
        Method::Post => "PostObject",
        Method::Other => "Unknown",
    }
}

} // verus!
