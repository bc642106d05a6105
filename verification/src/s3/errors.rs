//! S3 errors: code, message and HTTP status.

use vstd::prelude::*;
use vstd::string::*;

use crate::storage::StorageError;

verus! {

/// An error as S3 reports it.
#[derive(Clone, Debug)]
pub struct S3Error {
    pub code: &'static str,
    pub message: &'static str,
    pub http_status: u16,
}

/// The body of an error response.
#[derive(Debug)]
pub struct ErrorResponse {
    pub code: String,
    pub message: String,
}

/// An error as a mathematical value.
pub struct ErrorModel {
    pub code: Seq<char>,
    pub message: Seq<char>,
    pub status: u16,
}

impl View for S3Error {
    type V = ErrorModel;

    open spec fn view(&self) -> ErrorModel {
        ErrorModel { code: self.code@, message: self.message@, status: self.http_status }
    }
}

/// The model of an error.
pub open spec fn error(code: Seq<char>, message: Seq<char>, status: u16) -> ErrorModel {
    ErrorModel { code, message, status }
}

pub open spec fn no_such_bucket() -> ErrorModel {
    error("NoSuchBucket"@, "The specified bucket does not exist"@, 404)
}

pub open spec fn no_such_key() -> ErrorModel {
    error("NoSuchKey"@, "The specified key does not exist"@, 404)
}

pub open spec fn bucket_exists() -> ErrorModel {
    error(
        "BucketAlreadyOwnedByYou"@,
        "Your previous request to create the named bucket succeeded"@,
        409,
    )
}

pub open spec fn incomplete_body() -> ErrorModel {
    error("IncompleteBody"@, "You did not provide the number of bytes specified"@, 400)
}

pub open spec fn internal() -> ErrorModel {
    error("InternalError"@, "We encountered an internal error"@, 500)
}

pub open spec fn method_not_allowed() -> ErrorModel {
    error("MethodNotAllowed"@, "The specified method is not allowed"@, 405)
}

pub open spec fn bucket_not_empty() -> ErrorModel {
    error("BucketNotEmpty"@, "The bucket you tried to delete is not empty"@, 409)
}

pub open spec fn access_denied() -> ErrorModel {
    error("AccessDenied"@, "Access Denied"@, 403)
}

pub open spec fn invalid_range() -> ErrorModel {
    error("InvalidRange"@, "The requested range is not satisfiable"@, 416)
}

pub open spec fn malformed_xml() -> ErrorModel {
    error("MalformedXML"@, "The document you provided was not well-formed"@, 400)
}

pub open spec fn precondition_failed() -> ErrorModel {
    error("PreconditionFailed"@, "At least one of the preconditions did not hold"@, 412)
}

pub open spec fn service_unavailable() -> ErrorModel {
    error("ServiceUnavailable"@, "Please reduce your request rate"@, 503)
}

pub open spec fn not_implemented() -> ErrorModel {
    error("NotImplemented"@, "The requested functionality is not implemented"@, 501)
}

pub open spec fn invalid_request() -> ErrorModel {
    error("InvalidRequest"@, "The request is not valid"@, 400)
}

pub open spec fn no_such_cors() -> ErrorModel {
    error("NoSuchCORSConfiguration"@, "The CORS configuration does not exist"@, 404)
}

pub open spec fn no_such_policy() -> ErrorModel {
    error("NoSuchBucketPolicy"@, "The bucket policy does not exist"@, 404)
}

pub open spec fn policy_too_large() -> ErrorModel {
    error("PolicyTooLarge"@, "The bucket policy exceeds the size limit"@, 400)
}

pub open spec fn no_such_lifecycle() -> ErrorModel {
    error("NoSuchLifecycleConfiguration"@, "The lifecycle configuration does not exist"@, 404)
}

impl S3Error {
    /// The bucket is not there.
    pub fn no_such_bucket() -> (r: S3Error)
        ensures
            r@ == no_such_bucket(),
    {
        S3Error {
            code: "NoSuchBucket",
            message: "The specified bucket does not exist",
            http_status: 404,
        }
    }

    /// The key is not there.
    pub fn no_such_key() -> (r: S3Error)
        ensures
            r@ == no_such_key(),
    {
        S3Error {
            code: "NoSuchKey",
            message: "The specified key does not exist",
            http_status: 404,
        }
    }

    /// The bucket is there already.
    pub fn bucket_exists() -> (r: S3Error)
        ensures
            r@ == bucket_exists(),
    {
        S3Error {
            code: "BucketAlreadyOwnedByYou",
            message: "Your previous request to create the named bucket succeeded",
            http_status: 409,
        }
    }

    /// The body is cut short.
    pub fn incomplete_body() -> (r: S3Error)
        ensures
            r@ == incomplete_body(),
    {
        S3Error {
            code: "IncompleteBody",
            message: "You did not provide the number of bytes specified",
            http_status: 400,
        }
    }

    /// The server failed.
    pub fn internal() -> (r: S3Error)
        ensures
            r@ == internal(),
    {
        S3Error {
            code: "InternalError",
            message: "We encountered an internal error",
            http_status: 500,
        }
    }

    /// The method does not go with the resource.
    pub fn method_not_allowed() -> (r: S3Error)
        ensures
            r@ == method_not_allowed(),
    {
        S3Error {
            code: "MethodNotAllowed",
            message: "The specified method is not allowed",
            http_status: 405,
        }
    }

    /// The bucket still holds objects.
    pub fn bucket_not_empty() -> (r: S3Error)
        ensures
            r@ == bucket_not_empty(),
    {
        S3Error {
            code: "BucketNotEmpty",
            message: "The bucket you tried to delete is not empty",
            http_status: 409,
        }
    }

    /// The caller may not do this.
    pub fn access_denied() -> (r: S3Error)
        ensures
            r@ == access_denied(),
    {
        S3Error { code: "AccessDenied", message: "Access Denied", http_status: 403 }
    }

    /// The range asks for nothing that is there.
    pub fn invalid_range() -> (r: S3Error)
        ensures
            r@ == invalid_range(),
    {
        S3Error {
            code: "InvalidRange",
            message: "The requested range is not satisfiable",
            http_status: 416,
        }
    }

    /// The body is not the document that was asked for.
    pub fn malformed_xml() -> (r: S3Error)
        ensures
            r@ == malformed_xml(),
    {
        S3Error {
            code: "MalformedXML",
            message: "The document you provided was not well-formed",
            http_status: 400,
        }
    }

    /// A condition of the request does not hold.
    pub fn precondition_failed() -> (r: S3Error)
        ensures
            r@ == precondition_failed(),
    {
        S3Error {
            code: "PreconditionFailed",
            message: "At least one of the preconditions did not hold",
            http_status: 412,
        }
    }

    /// The node does not serve data now.
    pub fn service_unavailable() -> (r: S3Error)
        ensures
            r@ == service_unavailable(),
    {
        S3Error {
            code: "ServiceUnavailable",
            message: "Please reduce your request rate",
            http_status: 503,
        }
    }

    /// The server has no such function.
    pub fn not_implemented() -> (r: S3Error)
        ensures
            r@ == not_implemented(),
    {
        S3Error {
            code: "NotImplemented",
            message: "The requested functionality is not implemented",
            http_status: 501,
        }
    }

    /// The parts of the request do not go together.
    pub fn invalid_request() -> (r: S3Error)
        ensures
            r@ == invalid_request(),
    {
        S3Error {
            code: "InvalidRequest",
            message: "The request is not valid",
            http_status: 400,
        }
    }

    /// The bucket has no CORS rules.
    pub fn no_such_cors() -> (r: S3Error)
        ensures
            r@ == no_such_cors(),
    {
        S3Error {
            code: "NoSuchCORSConfiguration",
            message: "The CORS configuration does not exist",
            http_status: 404,
        }
    }

    /// The bucket has no policy.
    pub fn no_such_policy() -> (r: S3Error)
        ensures
            r@ == no_such_policy(),
    {
        S3Error {
            code: "NoSuchBucketPolicy",
            message: "The bucket policy does not exist",
            http_status: 404,
        }
    }

    /// The policy is longer than is allowed.
    pub fn policy_too_large() -> (r: S3Error)
        ensures
            r@ == policy_too_large(),
    {
        S3Error {
            code: "PolicyTooLarge",
            message: "The bucket policy exceeds the size limit",
            http_status: 400,
        }
    }

    /// The bucket has no lifecycle rules.
    pub fn no_such_lifecycle() -> (r: S3Error)
        ensures
            r@ == no_such_lifecycle(),
    {
        S3Error {
            code: "NoSuchLifecycleConfiguration",
            message: "The lifecycle configuration does not exist",
            http_status: 404,
        }
    }

    /// The body that reports this error.
    pub fn response(&self) -> (r: ErrorResponse)
        ensures
            r.code@ == self@.code,
            r.message@ == self@.message,
    {
        ErrorResponse { code: self.code.to_owned(), message: self.message.to_owned() }
    }
}

/// The error that reports a storage error.
pub open spec fn mapped(err: StorageError) -> ErrorModel {
    match err {
        StorageError::BucketNotFound => no_such_bucket(),
        StorageError::ObjectNotFound => no_such_key(),
        StorageError::BucketExists => bucket_exists(),
        StorageError::BucketNotEmpty => bucket_not_empty(),
        _ => internal(),
    }
}

/// The error that reports a storage error.
pub fn map_error(err: &StorageError) -> (r: S3Error)
    ensures
        r@ == mapped(*err),
{
    match err {
        StorageError::BucketNotFound => S3Error::no_such_bucket(),
        StorageError::ObjectNotFound => S3Error::no_such_key(),
        StorageError::BucketExists => S3Error::bucket_exists(),
        StorageError::BucketNotEmpty => S3Error::bucket_not_empty(),
        _ => S3Error::internal(),
    }
}

} // verus!
