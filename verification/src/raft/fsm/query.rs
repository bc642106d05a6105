//! Read helpers over the state machine. Reads are locally consistent with the latest
//! log entry applied on this node.

use vstd::prelude::*;

use super::ops::{Member, Placement};
use super::AbixioStateMachine;
use crate::storage;
use crate::storage::BucketSettings;

verus! {

/// The settings of a bucket.
pub fn bucket_settings(fsm: &AbixioStateMachine, bucket: &str) -> (r: Option<BucketSettings>)
    ensures
        match r {
            Some(b) => fsm.state().buckets@.contains_key(bucket@) && storage::same_settings(
                fsm.state().buckets@[bucket@],
                b,
            ),
            None => !fsm.state().buckets@.contains_key(bucket@),
        },
{
    fsm.bucket_settings(bucket)
}

/// All members.
pub fn members(fsm: &AbixioStateMachine) -> (r: Vec<Member>)
    ensures
        super::lists_members(r@, fsm.state().members@),
{
    fsm.members()
}

/// The placement topology.
pub fn placement(fsm: &AbixioStateMachine) -> (r: Placement)
    ensures
        r@ == fsm.state().placement@,
{
    fsm.placement()
}

} // verus!
