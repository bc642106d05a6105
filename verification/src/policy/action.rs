//! Translation of S3 operation names to the action strings that policies use
//! (`s3:GetObject` and friends). Anything not in the table gets `s3:*`, a safe
//! fallback that only takes part in action-wildcard matches.

use vstd::prelude::*;

use crate::text;

verus! {

/// The action string of an operation name.
pub open spec fn action_of(op: Seq<char>) -> Seq<char> {
    if op == "AbortMultipartUpload"@ {
        "s3:AbortMultipartUpload"@
    } else if op == "CompleteMultipartUpload"@ {
        "s3:PutObject"@
    } else if op == "CopyObject"@ {
        "s3:PutObject"@
    } else if op == "CreateBucket"@ {
        "s3:CreateBucket"@
    } else if op == "CreateMultipartUpload"@ {
        "s3:PutObject"@
    } else if op == "DeleteBucket"@ {
        "s3:DeleteBucket"@
    } else if op == "DeleteBucketCors"@ {
        "s3:PutBucketCORS"@
    } else if op == "DeleteBucketEncryption"@ {
        "s3:PutEncryptionConfiguration"@
    } else if op == "DeleteBucketLifecycle"@ {
        "s3:PutLifecycleConfiguration"@
    } else if op == "DeleteBucketPolicy"@ {
        "s3:DeleteBucketPolicy"@
    } else if op == "DeleteBucketReplication"@ {
        "s3:PutReplicationConfiguration"@
    } else if op == "DeleteBucketTagging"@ {
        "s3:PutBucketTagging"@
    } else if op == "DeleteBucketWebsite"@ {
        "s3:DeleteBucketWebsite"@
    } else if op == "DeleteObject"@ {
        "s3:DeleteObject"@
    } else if op == "DeleteObjects"@ {
        "s3:DeleteObject"@
    } else if op == "DeleteObjectTagging"@ {
        "s3:DeleteObjectTagging"@
    } else if op == "GetBucketAcl"@ {
        "s3:GetBucketAcl"@
    } else if op == "GetBucketCors"@ {
        "s3:GetBucketCORS"@
    } else if op == "GetBucketEncryption"@ {
        "s3:GetEncryptionConfiguration"@
    } else if op == "GetBucketLifecycle"@ || op == "GetBucketLifecycleConfiguration"@ {
        "s3:GetLifecycleConfiguration"@
    } else if op == "GetBucketLocation"@ {
        "s3:GetBucketLocation"@
    } else if op == "GetBucketLogging"@ {
        "s3:GetBucketLogging"@
    } else if op == "GetBucketNotification"@ || op == "GetBucketNotificationConfiguration"@ {
        "s3:GetBucketNotification"@
    } else if op == "GetBucketPolicy"@ {
        "s3:GetBucketPolicy"@
    } else if op == "GetBucketReplication"@ {
        "s3:GetReplicationConfiguration"@
    } else if op == "GetBucketRequestPayment"@ {
        "s3:GetBucketRequestPayment"@
    } else if op == "GetBucketTagging"@ {
        "s3:GetBucketTagging"@
    } else if op == "GetBucketVersioning"@ {
        "s3:GetBucketVersioning"@
    } else if op == "GetBucketWebsite"@ {
        "s3:GetBucketWebsite"@
    } else if op == "GetObject"@ {
        "s3:GetObject"@
    } else if op == "GetObjectAcl"@ {
        "s3:GetObjectAcl"@
    } else if op == "GetObjectTagging"@ {
        "s3:GetObjectTagging"@
    } else if op == "GetObjectVersion"@ {
        "s3:GetObjectVersion"@
    } else if op == "HeadBucket"@ {
        "s3:ListBucket"@
    } else if op == "HeadObject"@ {
        "s3:GetObject"@
    } else if op == "ListBucket"@ {
        "s3:ListBucket"@
    } else if op == "ListBuckets"@ {
        "s3:ListAllMyBuckets"@
    } else if op == "ListMultipartUploads"@ {
        "s3:ListBucketMultipartUploads"@
    } else if op == "ListObjects"@ || op == "ListObjectsV2"@ {
        "s3:ListBucket"@
    } else if op == "ListObjectVersions"@ {
        "s3:ListBucketVersions"@
    } else if op == "ListParts"@ {
        "s3:ListMultipartUploadParts"@
    } else if op == "PutBucketAcl"@ {
        "s3:PutBucketAcl"@
    } else if op == "PutBucketCors"@ {
        "s3:PutBucketCORS"@
    } else if op == "PutBucketEncryption"@ {
        "s3:PutEncryptionConfiguration"@
    } else if op == "PutBucketLifecycle"@ || op == "PutBucketLifecycleConfiguration"@ {
        "s3:PutLifecycleConfiguration"@
    } else if op == "PutBucketLogging"@ {
        "s3:PutBucketLogging"@
    } else if op == "PutBucketNotification"@ || op == "PutBucketNotificationConfiguration"@ {
        "s3:PutBucketNotification"@
    } else if op == "PutBucketPolicy"@ {
        "s3:PutBucketPolicy"@
    } else if op == "PutBucketReplication"@ {
        "s3:PutReplicationConfiguration"@
    } else if op == "PutBucketRequestPayment"@ {
        "s3:PutBucketRequestPayment"@
    } else if op == "PutBucketTagging"@ {
        "s3:PutBucketTagging"@
    } else if op == "PutBucketVersioning"@ {
        "s3:PutBucketVersioning"@
    } else if op == "PutBucketWebsite"@ {
        "s3:PutBucketWebsite"@
    } else if op == "PutObject"@ {
        "s3:PutObject"@
    } else if op == "PutObjectAcl"@ {
        "s3:PutObjectAcl"@
    } else if op == "PutObjectTagging"@ {
        "s3:PutObjectTagging"@
    } else if op == "RestoreObject"@ {
        "s3:RestoreObject"@
    } else if op == "UploadPart"@ {
        "s3:PutObject"@
    } else if op == "UploadPartCopy"@ {
        "s3:PutObject"@
    } else {
        "s3:*"@
    }
}

/// Translates an operation name (such as `GetObject`) into its policy action
/// string. Unknown names give `s3:*`, which only matches statements that use a
/// wildcard.
pub fn op_to_action(op_name: &str) -> (r: &'static str)
    ensures
        r@ == action_of(op_name@),
{
    if text::str_eq(op_name, "AbortMultipartUpload") {
        "s3:AbortMultipartUpload"
    } else if text::str_eq(op_name, "CompleteMultipartUpload") {
        "s3:PutObject"
    } else if text::str_eq(op_name, "CopyObject") {
        "s3:PutObject"
    } else if text::str_eq(op_name, "CreateBucket") {
        "s3:CreateBucket"
    } else if text::str_eq(op_name, "CreateMultipartUpload") {
        "s3:PutObject"
    } else if text::str_eq(op_name, "DeleteBucket") {
        "s3:DeleteBucket"
    } else if text::str_eq(op_name, "DeleteBucketCors") {
        "s3:PutBucketCORS"
    } else if text::str_eq(op_name, "DeleteBucketEncryption") {
        "s3:PutEncryptionConfiguration"
    } else if text::str_eq(op_name, "DeleteBucketLifecycle") {
        "s3:PutLifecycleConfiguration"
    } else if text::str_eq(op_name, "DeleteBucketPolicy") {
        "s3:DeleteBucketPolicy"
    } else if text::str_eq(op_name, "DeleteBucketReplication") {
        "s3:PutReplicationConfiguration"
    } else if text::str_eq(op_name, "DeleteBucketTagging") {
        "s3:PutBucketTagging"
    } else if text::str_eq(op_name, "DeleteBucketWebsite") {
        "s3:DeleteBucketWebsite"
    } else if text::str_eq(op_name, "DeleteObject") {
        "s3:DeleteObject"
    } else if text::str_eq(op_name, "DeleteObjects") {
        "s3:DeleteObject"
    } else if text::str_eq(op_name, "DeleteObjectTagging") {
        "s3:DeleteObjectTagging"
    } else if text::str_eq(op_name, "GetBucketAcl") {
        "s3:GetBucketAcl"
    } else if text::str_eq(op_name, "GetBucketCors") {
        "s3:GetBucketCORS"
    } else if text::str_eq(op_name, "GetBucketEncryption") {
        "s3:GetEncryptionConfiguration"
    } else if text::str_eq(op_name, "GetBucketLifecycle") || text::str_eq(op_name, "GetBucketLifecycleConfiguration") {
        "s3:GetLifecycleConfiguration"
    } else if text::str_eq(op_name, "GetBucketLocation") {
        "s3:GetBucketLocation"
    } else if text::str_eq(op_name, "GetBucketLogging") {
        "s3:GetBucketLogging"
    } else if text::str_eq(op_name, "GetBucketNotification") || text::str_eq(op_name, "GetBucketNotificationConfiguration") {
        "s3:GetBucketNotification"
    } else if text::str_eq(op_name, "GetBucketPolicy") {
        "s3:GetBucketPolicy"
    } else if text::str_eq(op_name, "GetBucketReplication") {
        "s3:GetReplicationConfiguration"
    } else if text::str_eq(op_name, "GetBucketRequestPayment") {
        "s3:GetBucketRequestPayment"
    } else if text::str_eq(op_name, "GetBucketTagging") {
        "s3:GetBucketTagging"
    } else if text::str_eq(op_name, "GetBucketVersioning") {
        "s3:GetBucketVersioning"
    } else if text::str_eq(op_name, "GetBucketWebsite") {
        "s3:GetBucketWebsite"
    } else if text::str_eq(op_name, "GetObject") {
        "s3:GetObject"
    } else if text::str_eq(op_name, "GetObjectAcl") {
        "s3:GetObjectAcl"
    } else if text::str_eq(op_name, "GetObjectTagging") {
        "s3:GetObjectTagging"
    } else if text::str_eq(op_name, "GetObjectVersion") {
        "s3:GetObjectVersion"
    } else if text::str_eq(op_name, "HeadBucket") {
        "s3:ListBucket"
    } else if text::str_eq(op_name, "HeadObject") {
        "s3:GetObject"
    } else if text::str_eq(op_name, "ListBucket") {
        "s3:ListBucket"
    } else if text::str_eq(op_name, "ListBuckets") {
        "s3:ListAllMyBuckets"
    } else if text::str_eq(op_name, "ListMultipartUploads") {
        "s3:ListBucketMultipartUploads"
    } else if text::str_eq(op_name, "ListObjects") || text::str_eq(op_name, "ListObjectsV2") {
        "s3:ListBucket"
    } else if text::str_eq(op_name, "ListObjectVersions") {
        "s3:ListBucketVersions"
    } else if text::str_eq(op_name, "ListParts") {
        "s3:ListMultipartUploadParts"
    } else if text::str_eq(op_name, "PutBucketAcl") {
        "s3:PutBucketAcl"
    } else if text::str_eq(op_name, "PutBucketCors") {
        "s3:PutBucketCORS"
    } else if text::str_eq(op_name, "PutBucketEncryption") {
        "s3:PutEncryptionConfiguration"
    } else if text::str_eq(op_name, "PutBucketLifecycle") || text::str_eq(op_name, "PutBucketLifecycleConfiguration") {
        "s3:PutLifecycleConfiguration"
    } else if text::str_eq(op_name, "PutBucketLogging") {
        "s3:PutBucketLogging"
    } else if text::str_eq(op_name, "PutBucketNotification") || text::str_eq(op_name, "PutBucketNotificationConfiguration") {
        "s3:PutBucketNotification"
    } else if text::str_eq(op_name, "PutBucketPolicy") {
        "s3:PutBucketPolicy"
    } else if text::str_eq(op_name, "PutBucketReplication") {
        "s3:PutReplicationConfiguration"
    } else if text::str_eq(op_name, "PutBucketRequestPayment") {
        "s3:PutBucketRequestPayment"
    } else if text::str_eq(op_name, "PutBucketTagging") {
        "s3:PutBucketTagging"
    } else if text::str_eq(op_name, "PutBucketVersioning") {
        "s3:PutBucketVersioning"
    } else if text::str_eq(op_name, "PutBucketWebsite") {
        "s3:PutBucketWebsite"
    } else if text::str_eq(op_name, "PutObject") {
        "s3:PutObject"
    } else if text::str_eq(op_name, "PutObjectAcl") {
        "s3:PutObjectAcl"
    } else if text::str_eq(op_name, "PutObjectTagging") {
        "s3:PutObjectTagging"
    } else if text::str_eq(op_name, "RestoreObject") {
        "s3:RestoreObject"
    } else if text::str_eq(op_name, "UploadPart") {
        "s3:PutObject"
    } else if text::str_eq(op_name, "UploadPartCopy") {
        "s3:PutObject"
    } else {
        "s3:*"
    }
}

} // verus!
