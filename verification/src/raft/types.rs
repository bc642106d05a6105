//! Types that the Raft layer is instantiated with.

use vstd::prelude::*;

use super::fsm::ops::VoterKind;

verus! {

/// The public view of a member, advertised through Raft.
#[derive(Clone, Debug, PartialEq, Eq)]
pub struct AbixioNode {
    pub advertise_s3: String,
    pub advertise_cluster: String,
    pub voter_kind: VoterKind,
}

impl Default for AbixioNode {
    fn default() -> (r: Self)
        ensures
            r.advertise_s3@ == Seq::<char>::empty(),
            r.advertise_cluster@ == Seq::<char>::empty(),
            r.voter_kind == VoterKind::Voter,
    {
        AbixioNode {
            advertise_s3: String::new(),
            advertise_cluster: String::new(),
            voter_kind: VoterKind::Voter,
        }
    }
}

impl AbixioNode {
    /// The text that names the node in messages: its cluster address.
    pub fn label(&self) -> (r: String)
        ensures
            r@ == self.advertise_cluster@,
    {
        self.advertise_cluster.clone()
    }
}

/// Response to an applied entry: the log index it was applied at.
#[derive(Clone, Copy, Debug, PartialEq, Eq, Structural)]
pub struct AppResponse {
    pub applied_index: u64,
}

/// Identity of a node in the Raft layer.
pub type NodeId = u64;

} // verus!
