//! What holds of the actions that operations need, and of who may do what.

use vstd::prelude::*;
use vstd::string::*;

use super::action;
use super::eval;
use super::eval::Args;
use super::types;
use super::types::Policy;
use crate::json::Json;
use crate::s3_access;
use crate::s3_access::AccessRequest;
use crate::storage::BucketSettings;

verus! {

/// The operations whose action bears their own name.
pub open spec fn named_alike(op: Seq<char>) -> bool {
    ||| op == "AbortMultipartUpload"@
    ||| op == "CreateBucket"@
    ||| op == "DeleteBucket"@
    ||| op == "DeleteBucketPolicy"@
    ||| op == "DeleteBucketWebsite"@
    ||| op == "DeleteObject"@
    ||| op == "DeleteObjectTagging"@
    ||| op == "GetBucketAcl"@
    ||| op == "GetBucketLocation"@
    ||| op == "GetBucketLogging"@
    ||| op == "GetBucketNotification"@
    ||| op == "GetBucketPolicy"@
    ||| op == "GetBucketRequestPayment"@
    ||| op == "GetBucketTagging"@
    ||| op == "GetBucketVersioning"@
    ||| op == "GetBucketWebsite"@
    ||| op == "GetObject"@
    ||| op == "GetObjectAcl"@
    ||| op == "GetObjectTagging"@
    ||| op == "GetObjectVersion"@
    ||| op == "ListBucket"@
    ||| op == "PutBucketAcl"@
    ||| op == "PutBucketLogging"@
    ||| op == "PutBucketNotification"@
    ||| op == "PutBucketPolicy"@
    ||| op == "PutBucketRequestPayment"@
    ||| op == "PutBucketTagging"@
    ||| op == "PutBucketVersioning"@
    ||| op == "PutBucketWebsite"@
    ||| op == "PutObject"@
    ||| op == "PutObjectAcl"@
    ||| op == "PutObjectTagging"@
    ||| op == "RestoreObject"@
}

/// The operation that an operation is allowed with, where its action bears another name: a look
/// is allowed with what it looks at, a write with the write that it is part of, and taking a
/// setting away with setting it.
pub open spec fn allowed_with(op: Seq<char>, other: Seq<char>) -> bool {
    ||| op == "CompleteMultipartUpload"@ && other == "PutObject"@
    ||| op == "CopyObject"@ && other == "PutObject"@
    ||| op == "CreateMultipartUpload"@ && other == "PutObject"@
    ||| op == "UploadPart"@ && other == "PutObject"@
    ||| op == "UploadPartCopy"@ && other == "PutObject"@
    ||| op == "DeleteBucketCors"@ && other == "PutBucketCORS"@
    ||| op == "PutBucketCors"@ && other == "PutBucketCORS"@
    ||| op == "DeleteBucketEncryption"@ && other == "PutEncryptionConfiguration"@
    ||| op == "PutBucketEncryption"@ && other == "PutEncryptionConfiguration"@
    ||| op == "DeleteBucketLifecycle"@ && other == "PutLifecycleConfiguration"@
    ||| op == "PutBucketLifecycle"@ && other == "PutLifecycleConfiguration"@
    ||| op == "PutBucketLifecycleConfiguration"@ && other == "PutLifecycleConfiguration"@
    ||| op == "DeleteBucketReplication"@ && other == "PutReplicationConfiguration"@
    ||| op == "PutBucketReplication"@ && other == "PutReplicationConfiguration"@
    ||| op == "DeleteBucketTagging"@ && other == "PutBucketTagging"@
    ||| op == "DeleteObjects"@ && other == "DeleteObject"@
    ||| op == "GetBucketCors"@ && other == "GetBucketCORS"@
    ||| op == "GetBucketEncryption"@ && other == "GetEncryptionConfiguration"@
    ||| op == "GetBucketLifecycle"@ && other == "GetLifecycleConfiguration"@
    ||| op == "GetBucketLifecycleConfiguration"@ && other == "GetLifecycleConfiguration"@
    ||| op == "GetBucketNotificationConfiguration"@ && other == "GetBucketNotification"@
    ||| op == "GetBucketReplication"@ && other == "GetReplicationConfiguration"@
    ||| op == "HeadBucket"@ && other == "ListBucket"@
    ||| op == "ListObjects"@ && other == "ListBucket"@
    ||| op == "ListObjectsV2"@ && other == "ListBucket"@
    ||| op == "HeadObject"@ && other == "GetObject"@
    ||| op == "ListBuckets"@ && other == "ListAllMyBuckets"@
    ||| op == "ListMultipartUploads"@ && other == "ListBucketMultipartUploads"@
    ||| op == "ListObjectVersions"@ && other == "ListBucketVersions"@
    ||| op == "ListParts"@ && other == "ListMultipartUploadParts"@
    ||| op == "PutBucketNotificationConfiguration"@ && other == "PutBucketNotification"@
}

/// The names of operations are told apart by their lengths and by these letters.
proof fn lemma_names()
    ensures
        "AbortMultipartUpload"@.len() == 20,
        "AbortMultipartUpload"@[0] == 'A',
        "CompleteMultipartUpload"@.len() == 23,
        "CompleteMultipartUpload"@[0] == 'C',
        "CopyObject"@.len() == 10,
        "CopyObject"@[0] == 'C',
        "CreateBucket"@.len() == 12,
        "CreateBucket"@[0] == 'C',
        "CreateMultipartUpload"@.len() == 21,
        "CreateMultipartUpload"@[0] == 'C',
        "DeleteBucket"@.len() == 12,
        "DeleteBucket"@[0] == 'D',
        "DeleteBucket"@[6] == 'B',
        "DeleteBucketCors"@.len() == 16,
        "DeleteBucketCors"@[0] == 'D',
        "DeleteBucketEncryption"@.len() == 22,
        "DeleteBucketLifecycle"@.len() == 21,
        "DeleteBucketLifecycle"@[0] == 'D',
        "DeleteBucketPolicy"@.len() == 18,
        "DeleteBucketPolicy"@[0] == 'D',
        "DeleteBucketReplication"@.len() == 23,
        "DeleteBucketReplication"@[0] == 'D',
        "DeleteBucketTagging"@.len() == 19,
        "DeleteBucketTagging"@[0] == 'D',
        "DeleteBucketTagging"@[6] == 'B',
        "DeleteBucketTagging"@[12] == 'T',
        "DeleteBucketWebsite"@.len() == 19,
        "DeleteBucketWebsite"@[0] == 'D',
        "DeleteBucketWebsite"@[6] == 'B',
        "DeleteBucketWebsite"@[12] == 'W',
        "DeleteObject"@.len() == 12,
        "DeleteObject"@[0] == 'D',
        "DeleteObject"@[6] == 'O',
        "DeleteObjects"@.len() == 13,
        "DeleteObjects"@[0] == 'D',
        "DeleteObjectTagging"@.len() == 19,
        "DeleteObjectTagging"@[0] == 'D',
        "DeleteObjectTagging"@[6] == 'O',
        "GetBucketAcl"@.len() == 12,
        "GetBucketAcl"@[0] == 'G',
        "GetBucketAcl"@[3] == 'B',
        "GetBucketCors"@.len() == 13,
        "GetBucketCors"@[0] == 'G',
        "GetBucketEncryption"@.len() == 19,
        "GetBucketEncryption"@[0] == 'G',
        "GetBucketEncryption"@[9] == 'E',
        "GetBucketLifecycle"@.len() == 18,
        "GetBucketLifecycle"@[0] == 'G',
        "GetBucketLifecycleConfiguration"@.len() == 31,
        "GetBucketLifecycleConfiguration"@[0] == 'G',
        "GetBucketLocation"@.len() == 17,
        "GetBucketLogging"@.len() == 16,
        "GetBucketLogging"@[0] == 'G',
        "GetBucketLogging"@[3] == 'B',
        "GetBucketLogging"@[9] == 'L',
        "GetBucketNotification"@.len() == 21,
        "GetBucketNotification"@[0] == 'G',
        "GetBucketNotificationConfiguration"@.len() == 34,
        "GetBucketNotificationConfiguration"@[0] == 'G',
        "GetBucketPolicy"@.len() == 15,
        "GetBucketPolicy"@[0] == 'G',
        "GetBucketReplication"@.len() == 20,
        "GetBucketReplication"@[0] == 'G',
        "GetBucketRequestPayment"@.len() == 23,
        "GetBucketRequestPayment"@[0] == 'G',
        "GetBucketTagging"@.len() == 16,
        "GetBucketTagging"@[0] == 'G',
        "GetBucketTagging"@[3] == 'B',
        "GetBucketTagging"@[9] == 'T',
        "GetBucketVersioning"@.len() == 19,
        "GetBucketVersioning"@[0] == 'G',
        "GetBucketVersioning"@[9] == 'V',
        "GetBucketWebsite"@.len() == 16,
        "GetBucketWebsite"@[0] == 'G',
        "GetBucketWebsite"@[3] == 'B',
        "GetBucketWebsite"@[9] == 'W',
        "GetObject"@.len() == 9,
        "GetObject"@[0] == 'G',
        "GetObjectAcl"@.len() == 12,
        "GetObjectAcl"@[0] == 'G',
        "GetObjectAcl"@[3] == 'O',
        "GetObjectTagging"@.len() == 16,
        "GetObjectTagging"@[0] == 'G',
        "GetObjectTagging"@[3] == 'O',
        "GetObjectTagging"@[9] == 'T',
        "GetObjectVersion"@.len() == 16,
        "GetObjectVersion"@[0] == 'G',
        "GetObjectVersion"@[3] == 'O',
        "GetObjectVersion"@[9] == 'V',
        "HeadBucket"@.len() == 10,
        "HeadBucket"@[0] == 'H',
        "HeadBucket"@[4] == 'B',
        "HeadObject"@.len() == 10,
        "HeadObject"@[0] == 'H',
        "HeadObject"@[4] == 'O',
        "ListBucket"@.len() == 10,
        "ListBucket"@[0] == 'L',
        "ListBuckets"@.len() == 11,
        "ListBuckets"@[4] == 'B',
        "ListMultipartUploads"@.len() == 20,
        "ListMultipartUploads"@[0] == 'L',
        "ListObjects"@.len() == 11,
        "ListObjects"@[4] == 'O',
        "ListObjectsV2"@.len() == 13,
        "ListObjectsV2"@[0] == 'L',
        "ListObjectVersions"@.len() == 18,
        "ListObjectVersions"@[0] == 'L',
        "ListParts"@.len() == 9,
        "ListParts"@[0] == 'L',
        "PutBucketAcl"@.len() == 12,
        "PutBucketAcl"@[0] == 'P',
        "PutBucketAcl"@[3] == 'B',
        "PutBucketCors"@.len() == 13,
        "PutBucketCors"@[0] == 'P',
        "PutBucketEncryption"@.len() == 19,
        "PutBucketEncryption"@[0] == 'P',
        "PutBucketEncryption"@[9] == 'E',
        "PutBucketLifecycle"@.len() == 18,
        "PutBucketLifecycle"@[0] == 'P',
        "PutBucketLifecycleConfiguration"@.len() == 31,
        "PutBucketLifecycleConfiguration"@[0] == 'P',
        "PutBucketLogging"@.len() == 16,
        "PutBucketLogging"@[0] == 'P',
        "PutBucketLogging"@[3] == 'B',
        "PutBucketLogging"@[9] == 'L',
        "PutBucketNotification"@.len() == 21,
        "PutBucketNotification"@[0] == 'P',
        "PutBucketNotificationConfiguration"@.len() == 34,
        "PutBucketNotificationConfiguration"@[0] == 'P',
        "PutBucketPolicy"@.len() == 15,
        "PutBucketPolicy"@[0] == 'P',
        "PutBucketReplication"@.len() == 20,
        "PutBucketReplication"@[0] == 'P',
        "PutBucketRequestPayment"@.len() == 23,
        "PutBucketRequestPayment"@[0] == 'P',
        "PutBucketTagging"@.len() == 16,
        "PutBucketTagging"@[0] == 'P',
        "PutBucketTagging"@[3] == 'B',
        "PutBucketTagging"@[9] == 'T',
        "PutBucketVersioning"@.len() == 19,
        "PutBucketVersioning"@[0] == 'P',
        "PutBucketVersioning"@[9] == 'V',
        "PutBucketWebsite"@.len() == 16,
        "PutBucketWebsite"@[0] == 'P',
        "PutBucketWebsite"@[3] == 'B',
        "PutBucketWebsite"@[9] == 'W',
        "PutObject"@.len() == 9,
        "PutObject"@[0] == 'P',
        "PutObjectAcl"@.len() == 12,
        "PutObjectAcl"@[0] == 'P',
        "PutObjectAcl"@[3] == 'O',
        "PutObjectTagging"@.len() == 16,
        "PutObjectTagging"@[0] == 'P',
        "PutObjectTagging"@[3] == 'O',
        "RestoreObject"@.len() == 13,
        "RestoreObject"@[0] == 'R',
        "UploadPart"@.len() == 10,
        "UploadPart"@[0] == 'U',
        "UploadPartCopy"@.len() == 14,
{
    reveal_strlit("AbortMultipartUpload");
    reveal_strlit("CompleteMultipartUpload");
    reveal_strlit("CopyObject");
    reveal_strlit("CreateBucket");
    reveal_strlit("CreateMultipartUpload");
    reveal_strlit("DeleteBucket");
    reveal_strlit("DeleteBucketCors");
    reveal_strlit("DeleteBucketEncryption");
    reveal_strlit("DeleteBucketLifecycle");
    reveal_strlit("DeleteBucketPolicy");
    reveal_strlit("DeleteBucketReplication");
    reveal_strlit("DeleteBucketTagging");
    reveal_strlit("DeleteBucketWebsite");
    reveal_strlit("DeleteObject");
    reveal_strlit("DeleteObjects");
    reveal_strlit("DeleteObjectTagging");
    reveal_strlit("GetBucketAcl");
    reveal_strlit("GetBucketCors");
    reveal_strlit("GetBucketEncryption");
    reveal_strlit("GetBucketLifecycle");
    reveal_strlit("GetBucketLifecycleConfiguration");
    reveal_strlit("GetBucketLocation");
    reveal_strlit("GetBucketLogging");
    reveal_strlit("GetBucketNotification");
    reveal_strlit("GetBucketNotificationConfiguration");
    reveal_strlit("GetBucketPolicy");
    reveal_strlit("GetBucketReplication");
    reveal_strlit("GetBucketRequestPayment");
    reveal_strlit("GetBucketTagging");
    reveal_strlit("GetBucketVersioning");
    reveal_strlit("GetBucketWebsite");
    reveal_strlit("GetObject");
    reveal_strlit("GetObjectAcl");
    reveal_strlit("GetObjectTagging");
    reveal_strlit("GetObjectVersion");
    reveal_strlit("HeadBucket");
    reveal_strlit("HeadObject");
    reveal_strlit("ListBucket");
    reveal_strlit("ListBuckets");
    reveal_strlit("ListMultipartUploads");
    reveal_strlit("ListObjects");
    reveal_strlit("ListObjectsV2");
    reveal_strlit("ListObjectVersions");
    reveal_strlit("ListParts");
    reveal_strlit("PutBucketAcl");
    reveal_strlit("PutBucketCors");
    reveal_strlit("PutBucketEncryption");
    reveal_strlit("PutBucketLifecycle");
    reveal_strlit("PutBucketLifecycleConfiguration");
    reveal_strlit("PutBucketLogging");
    reveal_strlit("PutBucketNotification");
    reveal_strlit("PutBucketNotificationConfiguration");
    reveal_strlit("PutBucketPolicy");
    reveal_strlit("PutBucketReplication");
    reveal_strlit("PutBucketRequestPayment");
    reveal_strlit("PutBucketTagging");
    reveal_strlit("PutBucketVersioning");
    reveal_strlit("PutBucketWebsite");
    reveal_strlit("PutObject");
    reveal_strlit("PutObjectAcl");
    reveal_strlit("PutObjectTagging");
    reveal_strlit("RestoreObject");
    reveal_strlit("UploadPart");
    reveal_strlit("UploadPartCopy");
}

/// The action of a name is the name behind `s3:`.
proof fn lemma_actions()
    ensures
        "s3:AbortMultipartUpload"@ == "s3:"@ + "AbortMultipartUpload"@,
        "s3:CreateBucket"@ == "s3:"@ + "CreateBucket"@,
        "s3:DeleteBucket"@ == "s3:"@ + "DeleteBucket"@,
        "s3:DeleteBucketPolicy"@ == "s3:"@ + "DeleteBucketPolicy"@,
        "s3:DeleteBucketWebsite"@ == "s3:"@ + "DeleteBucketWebsite"@,
        "s3:DeleteObject"@ == "s3:"@ + "DeleteObject"@,
        "s3:DeleteObjectTagging"@ == "s3:"@ + "DeleteObjectTagging"@,
        "s3:GetBucketAcl"@ == "s3:"@ + "GetBucketAcl"@,
        "s3:GetBucketCORS"@ == "s3:"@ + "GetBucketCORS"@,
        "s3:GetBucketLocation"@ == "s3:"@ + "GetBucketLocation"@,
        "s3:GetBucketLogging"@ == "s3:"@ + "GetBucketLogging"@,
        "s3:GetBucketNotification"@ == "s3:"@ + "GetBucketNotification"@,
        "s3:GetBucketPolicy"@ == "s3:"@ + "GetBucketPolicy"@,
        "s3:GetBucketRequestPayment"@ == "s3:"@ + "GetBucketRequestPayment"@,
        "s3:GetBucketTagging"@ == "s3:"@ + "GetBucketTagging"@,
        "s3:GetBucketVersioning"@ == "s3:"@ + "GetBucketVersioning"@,
        "s3:GetBucketWebsite"@ == "s3:"@ + "GetBucketWebsite"@,
        "s3:GetEncryptionConfiguration"@ == "s3:"@ + "GetEncryptionConfiguration"@,
        "s3:GetLifecycleConfiguration"@ == "s3:"@ + "GetLifecycleConfiguration"@,
        "s3:GetObject"@ == "s3:"@ + "GetObject"@,
        "s3:GetObjectAcl"@ == "s3:"@ + "GetObjectAcl"@,
        "s3:GetObjectTagging"@ == "s3:"@ + "GetObjectTagging"@,
        "s3:GetObjectVersion"@ == "s3:"@ + "GetObjectVersion"@,
        "s3:GetReplicationConfiguration"@ == "s3:"@ + "GetReplicationConfiguration"@,
        "s3:ListAllMyBuckets"@ == "s3:"@ + "ListAllMyBuckets"@,
        "s3:ListBucket"@ == "s3:"@ + "ListBucket"@,
        "s3:ListBucketMultipartUploads"@ == "s3:"@ + "ListBucketMultipartUploads"@,
        "s3:ListBucketVersions"@ == "s3:"@ + "ListBucketVersions"@,
        "s3:ListMultipartUploadParts"@ == "s3:"@ + "ListMultipartUploadParts"@,
        "s3:PutBucketAcl"@ == "s3:"@ + "PutBucketAcl"@,
        "s3:PutBucketCORS"@ == "s3:"@ + "PutBucketCORS"@,
        "s3:PutBucketLogging"@ == "s3:"@ + "PutBucketLogging"@,
        "s3:PutBucketNotification"@ == "s3:"@ + "PutBucketNotification"@,
        "s3:PutBucketPolicy"@ == "s3:"@ + "PutBucketPolicy"@,
        "s3:PutBucketRequestPayment"@ == "s3:"@ + "PutBucketRequestPayment"@,
        "s3:PutBucketTagging"@ == "s3:"@ + "PutBucketTagging"@,
        "s3:PutBucketVersioning"@ == "s3:"@ + "PutBucketVersioning"@,
        "s3:PutBucketWebsite"@ == "s3:"@ + "PutBucketWebsite"@,
        "s3:PutEncryptionConfiguration"@ == "s3:"@ + "PutEncryptionConfiguration"@,
        "s3:PutLifecycleConfiguration"@ == "s3:"@ + "PutLifecycleConfiguration"@,
        "s3:PutObject"@ == "s3:"@ + "PutObject"@,
        "s3:PutObjectAcl"@ == "s3:"@ + "PutObjectAcl"@,
        "s3:PutObjectTagging"@ == "s3:"@ + "PutObjectTagging"@,
        "s3:PutReplicationConfiguration"@ == "s3:"@ + "PutReplicationConfiguration"@,
        "s3:RestoreObject"@ == "s3:"@ + "RestoreObject"@,
{
    reveal_strlit("s3:");
    assert("s3:AbortMultipartUpload"@ =~= "s3:"@ + "AbortMultipartUpload"@) by {
        reveal_strlit("s3:AbortMultipartUpload");
        reveal_strlit("AbortMultipartUpload");
    }
    assert("s3:CreateBucket"@ =~= "s3:"@ + "CreateBucket"@) by {
        reveal_strlit("s3:CreateBucket");
        reveal_strlit("CreateBucket");
    }
    assert("s3:DeleteBucket"@ =~= "s3:"@ + "DeleteBucket"@) by {
        reveal_strlit("s3:DeleteBucket");
        reveal_strlit("DeleteBucket");
    }
    assert("s3:DeleteBucketPolicy"@ =~= "s3:"@ + "DeleteBucketPolicy"@) by {
        reveal_strlit("s3:DeleteBucketPolicy");
        reveal_strlit("DeleteBucketPolicy");
    }
    assert("s3:DeleteBucketWebsite"@ =~= "s3:"@ + "DeleteBucketWebsite"@) by {
        reveal_strlit("s3:DeleteBucketWebsite");
        reveal_strlit("DeleteBucketWebsite");
    }
    assert("s3:DeleteObject"@ =~= "s3:"@ + "DeleteObject"@) by {
        reveal_strlit("s3:DeleteObject");
        reveal_strlit("DeleteObject");
    }
    assert("s3:DeleteObjectTagging"@ =~= "s3:"@ + "DeleteObjectTagging"@) by {
        reveal_strlit("s3:DeleteObjectTagging");
        reveal_strlit("DeleteObjectTagging");
    }
    assert("s3:GetBucketAcl"@ =~= "s3:"@ + "GetBucketAcl"@) by {
        reveal_strlit("s3:GetBucketAcl");
        reveal_strlit("GetBucketAcl");
    }
    assert("s3:GetBucketCORS"@ =~= "s3:"@ + "GetBucketCORS"@) by {
        reveal_strlit("s3:GetBucketCORS");
        reveal_strlit("GetBucketCORS");
    }
    assert("s3:GetBucketLocation"@ =~= "s3:"@ + "GetBucketLocation"@) by {
        reveal_strlit("s3:GetBucketLocation");
        reveal_strlit("GetBucketLocation");
    }
    assert("s3:GetBucketLogging"@ =~= "s3:"@ + "GetBucketLogging"@) by {
        reveal_strlit("s3:GetBucketLogging");
        reveal_strlit("GetBucketLogging");
    }
    assert("s3:GetBucketNotification"@ =~= "s3:"@ + "GetBucketNotification"@) by {
        reveal_strlit("s3:GetBucketNotification");
        reveal_strlit("GetBucketNotification");
    }
    assert("s3:GetBucketPolicy"@ =~= "s3:"@ + "GetBucketPolicy"@) by {
        reveal_strlit("s3:GetBucketPolicy");
        reveal_strlit("GetBucketPolicy");
    }
    assert("s3:GetBucketRequestPayment"@ =~= "s3:"@ + "GetBucketRequestPayment"@) by {
        reveal_strlit("s3:GetBucketRequestPayment");
        reveal_strlit("GetBucketRequestPayment");
    }
    assert("s3:GetBucketTagging"@ =~= "s3:"@ + "GetBucketTagging"@) by {
        reveal_strlit("s3:GetBucketTagging");
        reveal_strlit("GetBucketTagging");
    }
    assert("s3:GetBucketVersioning"@ =~= "s3:"@ + "GetBucketVersioning"@) by {
        reveal_strlit("s3:GetBucketVersioning");
        reveal_strlit("GetBucketVersioning");
    }
    assert("s3:GetBucketWebsite"@ =~= "s3:"@ + "GetBucketWebsite"@) by {
        reveal_strlit("s3:GetBucketWebsite");
        reveal_strlit("GetBucketWebsite");
    }
    assert("s3:GetEncryptionConfiguration"@ =~= "s3:"@ + "GetEncryptionConfiguration"@) by {
        reveal_strlit("s3:GetEncryptionConfiguration");
        reveal_strlit("GetEncryptionConfiguration");
    }
    assert("s3:GetLifecycleConfiguration"@ =~= "s3:"@ + "GetLifecycleConfiguration"@) by {
        reveal_strlit("s3:GetLifecycleConfiguration");
        reveal_strlit("GetLifecycleConfiguration");
    }
    assert("s3:GetObject"@ =~= "s3:"@ + "GetObject"@) by {
        reveal_strlit("s3:GetObject");
        reveal_strlit("GetObject");
    }
    assert("s3:GetObjectAcl"@ =~= "s3:"@ + "GetObjectAcl"@) by {
        reveal_strlit("s3:GetObjectAcl");
        reveal_strlit("GetObjectAcl");
    }
    assert("s3:GetObjectTagging"@ =~= "s3:"@ + "GetObjectTagging"@) by {
        reveal_strlit("s3:GetObjectTagging");
        reveal_strlit("GetObjectTagging");
    }
    assert("s3:GetObjectVersion"@ =~= "s3:"@ + "GetObjectVersion"@) by {
        reveal_strlit("s3:GetObjectVersion");
        reveal_strlit("GetObjectVersion");
    }
    assert("s3:GetReplicationConfiguration"@ =~= "s3:"@ + "GetReplicationConfiguration"@) by {
        reveal_strlit("s3:GetReplicationConfiguration");
        reveal_strlit("GetReplicationConfiguration");
    }
    assert("s3:ListAllMyBuckets"@ =~= "s3:"@ + "ListAllMyBuckets"@) by {
        reveal_strlit("s3:ListAllMyBuckets");
        reveal_strlit("ListAllMyBuckets");
    }
    assert("s3:ListBucket"@ =~= "s3:"@ + "ListBucket"@) by {
        reveal_strlit("s3:ListBucket");
        reveal_strlit("ListBucket");
    }
    assert("s3:ListBucketMultipartUploads"@ =~= "s3:"@ + "ListBucketMultipartUploads"@) by {
        reveal_strlit("s3:ListBucketMultipartUploads");
        reveal_strlit("ListBucketMultipartUploads");
    }
    assert("s3:ListBucketVersions"@ =~= "s3:"@ + "ListBucketVersions"@) by {
        reveal_strlit("s3:ListBucketVersions");
        reveal_strlit("ListBucketVersions");
    }
    assert("s3:ListMultipartUploadParts"@ =~= "s3:"@ + "ListMultipartUploadParts"@) by {
        reveal_strlit("s3:ListMultipartUploadParts");
        reveal_strlit("ListMultipartUploadParts");
    }
    assert("s3:PutBucketAcl"@ =~= "s3:"@ + "PutBucketAcl"@) by {
        reveal_strlit("s3:PutBucketAcl");
        reveal_strlit("PutBucketAcl");
    }
    assert("s3:PutBucketCORS"@ =~= "s3:"@ + "PutBucketCORS"@) by {
        reveal_strlit("s3:PutBucketCORS");
        reveal_strlit("PutBucketCORS");
    }
    assert("s3:PutBucketLogging"@ =~= "s3:"@ + "PutBucketLogging"@) by {
        reveal_strlit("s3:PutBucketLogging");
        reveal_strlit("PutBucketLogging");
    }
    assert("s3:PutBucketNotification"@ =~= "s3:"@ + "PutBucketNotification"@) by {
        reveal_strlit("s3:PutBucketNotification");
        reveal_strlit("PutBucketNotification");
    }
    assert("s3:PutBucketPolicy"@ =~= "s3:"@ + "PutBucketPolicy"@) by {
        reveal_strlit("s3:PutBucketPolicy");
        reveal_strlit("PutBucketPolicy");
    }
    assert("s3:PutBucketRequestPayment"@ =~= "s3:"@ + "PutBucketRequestPayment"@) by {
        reveal_strlit("s3:PutBucketRequestPayment");
        reveal_strlit("PutBucketRequestPayment");
    }
    assert("s3:PutBucketTagging"@ =~= "s3:"@ + "PutBucketTagging"@) by {
        reveal_strlit("s3:PutBucketTagging");
        reveal_strlit("PutBucketTagging");
    }
    assert("s3:PutBucketVersioning"@ =~= "s3:"@ + "PutBucketVersioning"@) by {
        reveal_strlit("s3:PutBucketVersioning");
        reveal_strlit("PutBucketVersioning");
    }
    assert("s3:PutBucketWebsite"@ =~= "s3:"@ + "PutBucketWebsite"@) by {
        reveal_strlit("s3:PutBucketWebsite");
        reveal_strlit("PutBucketWebsite");
    }
    assert("s3:PutEncryptionConfiguration"@ =~= "s3:"@ + "PutEncryptionConfiguration"@) by {
        reveal_strlit("s3:PutEncryptionConfiguration");
        reveal_strlit("PutEncryptionConfiguration");
    }
    assert("s3:PutLifecycleConfiguration"@ =~= "s3:"@ + "PutLifecycleConfiguration"@) by {
        reveal_strlit("s3:PutLifecycleConfiguration");
        reveal_strlit("PutLifecycleConfiguration");
    }
    assert("s3:PutObject"@ =~= "s3:"@ + "PutObject"@) by {
        reveal_strlit("s3:PutObject");
        reveal_strlit("PutObject");
    }
    assert("s3:PutObjectAcl"@ =~= "s3:"@ + "PutObjectAcl"@) by {
        reveal_strlit("s3:PutObjectAcl");
        reveal_strlit("PutObjectAcl");
    }
    assert("s3:PutObjectTagging"@ =~= "s3:"@ + "PutObjectTagging"@) by {
        reveal_strlit("s3:PutObjectTagging");
        reveal_strlit("PutObjectTagging");
    }
    assert("s3:PutReplicationConfiguration"@ =~= "s3:"@ + "PutReplicationConfiguration"@) by {
        reveal_strlit("s3:PutReplicationConfiguration");
        reveal_strlit("PutReplicationConfiguration");
    }
    assert("s3:RestoreObject"@ =~= "s3:"@ + "RestoreObject"@) by {
        reveal_strlit("s3:RestoreObject");
        reveal_strlit("RestoreObject");
    }
}

/// An operation needs the action that bears its name, or the name of the operation that it is
/// allowed with; one that is not known needs `s3:*`.
pub proof fn law_action_bears_the_name(op: Seq<char>, other: Seq<char>)
    ensures
        named_alike(op) ==> action::action_of(op) == "s3:"@ + op,
        allowed_with(op, other) ==> action::action_of(op) == "s3:"@ + other,
        action::action_of(op) == "s3:*"@ || named_alike(op) || exists|x: Seq<char>| #[trigger]
            allowed_with(op, x),
{
    lemma_names();
    lemma_actions();
    assert(op == "CompleteMultipartUpload"@ ==> allowed_with(op, "PutObject"@));
    assert(op == "CopyObject"@ ==> allowed_with(op, "PutObject"@));
    assert(op == "CreateMultipartUpload"@ ==> allowed_with(op, "PutObject"@));
    assert(op == "UploadPart"@ ==> allowed_with(op, "PutObject"@));
    assert(op == "UploadPartCopy"@ ==> allowed_with(op, "PutObject"@));
    assert(op == "DeleteBucketCors"@ ==> allowed_with(op, "PutBucketCORS"@));
    assert(op == "PutBucketCors"@ ==> allowed_with(op, "PutBucketCORS"@));
    assert(op == "DeleteBucketEncryption"@ ==> allowed_with(op, "PutEncryptionConfiguration"@));
    assert(op == "PutBucketEncryption"@ ==> allowed_with(op, "PutEncryptionConfiguration"@));
    assert(op == "DeleteBucketLifecycle"@ ==> allowed_with(op, "PutLifecycleConfiguration"@));
    assert(op == "PutBucketLifecycle"@ ==> allowed_with(op, "PutLifecycleConfiguration"@));
    assert(op == "PutBucketLifecycleConfiguration"@ ==> allowed_with(op, "PutLifecycleConfiguration"@));
    assert(op == "DeleteBucketReplication"@ ==> allowed_with(op, "PutReplicationConfiguration"@));
    assert(op == "PutBucketReplication"@ ==> allowed_with(op, "PutReplicationConfiguration"@));
    assert(op == "DeleteBucketTagging"@ ==> allowed_with(op, "PutBucketTagging"@));
    assert(op == "DeleteObjects"@ ==> allowed_with(op, "DeleteObject"@));
    assert(op == "GetBucketCors"@ ==> allowed_with(op, "GetBucketCORS"@));
    assert(op == "GetBucketEncryption"@ ==> allowed_with(op, "GetEncryptionConfiguration"@));
    assert(op == "GetBucketLifecycle"@ ==> allowed_with(op, "GetLifecycleConfiguration"@));
    assert(op == "GetBucketLifecycleConfiguration"@ ==> allowed_with(op, "GetLifecycleConfiguration"@));
    assert(op == "GetBucketNotificationConfiguration"@ ==> allowed_with(op, "GetBucketNotification"@));
    assert(op == "GetBucketReplication"@ ==> allowed_with(op, "GetReplicationConfiguration"@));
    assert(op == "HeadBucket"@ ==> allowed_with(op, "ListBucket"@));
    assert(op == "ListObjects"@ ==> allowed_with(op, "ListBucket"@));
    assert(op == "ListObjectsV2"@ ==> allowed_with(op, "ListBucket"@));
    assert(op == "HeadObject"@ ==> allowed_with(op, "GetObject"@));
    assert(op == "ListBuckets"@ ==> allowed_with(op, "ListAllMyBuckets"@));
    assert(op == "ListMultipartUploads"@ ==> allowed_with(op, "ListBucketMultipartUploads"@));
    assert(op == "ListObjectVersions"@ ==> allowed_with(op, "ListBucketVersions"@));
    assert(op == "ListParts"@ ==> allowed_with(op, "ListMultipartUploadParts"@));
    assert(op == "PutBucketNotificationConfiguration"@ ==> allowed_with(op, "PutBucketNotification"@));
}

/// Where an owner is set, only who holds the owner's key is the owner, and an anonymous caller
/// never is; where none is set, everybody is.
pub proof fn law_owner_holds_the_key(owner: Seq<char>, key: Seq<char>)
    ensures
        owner.len() > 0 ==> (s3_access::owns(owner, key) <==> key == owner),
        owner.len() > 0 && key.len() == 0 ==> !s3_access::owns(owner, key),
        owner.len() == 0 ==> s3_access::owns(owner, key),
{
}

/// A bucket has the policy of its settings, unless that is null.
pub proof fn law_policy_is_that_of_the_settings(settings: BucketSettings, doc: Json)
    ensures
        settings.policy == Some(doc) && !(doc is Null) ==> s3_access::policy_of(Some(settings))
            == Some(doc),
        settings.policy is None || settings.policy == Some(Json::Null) ==> s3_access::policy_of(
            Some(settings),
        ) is None,
        s3_access::policy_of(None) is None,
{
}

/// A request is permitted exactly where the policy that its bucket's document states allows the
/// action of its operation on its own bucket and key to its own caller.
pub proof fn law_policy_is_asked_for_the_request(
    doc: Json,
    p: Policy,
    req: AccessRequest,
    bucket: &str,
    owner: Seq<char>,
    args: Args,
)
    requires
        types::is_reading(p, doc),
        args.bucket@ == bucket@,
        args.key == req.key,
        args.action@ == action::action_of(req.operation@),
        args.access_key@ == req.access_key@,
        args.is_owner <==> owner.len() == 0 || req.access_key@ == owner,
    ensures
        s3_access::permits(doc, req, bucket, owner) <==> eval::allowed(p.statements@, args),
{
    assert(s3_access::asks(args, req, bucket, owner));
    if s3_access::permits(doc, req, bucket, owner) {
        let (q, b) = choose|q: Policy, b: Args| #[trigger]
            types::is_reading(q, doc) && #[trigger] s3_access::asks(b, req, bucket, owner)
                && eval::allowed(q.statements@, b);
        s3_access::law_document_decides(doc, p, q, req, bucket, owner, args, b);
    }
}

} // verus!
