//! What a node reports of itself and of the cluster.

use vstd::prelude::*;

use crate::storage;

verus! {

/// Whether a node serves requests.
#[derive(Clone, Copy, Debug, PartialEq, Eq, Structural)]
pub enum ServiceState {
    Joining,
    SyncingEpoch,
    Fenced,
    Ready,
}

/// The state of the cluster as one node sees it.
#[derive(Debug)]
pub struct ClusterSummary {
    pub enabled: bool,
    pub cluster_id: String,
    pub node_id: String,
    pub state: ServiceState,
    pub epoch_id: u64,
    pub leader_id: String,
    pub peer_count: usize,
    pub voter_count: usize,
    pub reachable_voters: usize,
    pub quorum: usize,
    pub fenced_reason: Option<String>,
}

/// `ClusterSummary` as a mathematical value.
pub struct SummaryModel {
    pub enabled: bool,
    pub cluster_id: Seq<char>,
    pub node_id: Seq<char>,
    pub state: ServiceState,
    pub epoch_id: u64,
    pub leader_id: Seq<char>,
    pub peer_count: usize,
    pub voter_count: usize,
    pub reachable_voters: usize,
    pub quorum: usize,
    pub fenced_reason: Option<Seq<char>>,
}

impl View for ClusterSummary {
    type V = SummaryModel;

    open spec fn view(&self) -> SummaryModel {
        SummaryModel {
            enabled: self.enabled,
            cluster_id: self.cluster_id@,
            node_id: self.node_id@,
            state: self.state,
            epoch_id: self.epoch_id,
            leader_id: self.leader_id@,
            peer_count: self.peer_count,
            voter_count: self.voter_count,
            reachable_voters: self.reachable_voters,
            quorum: self.quorum,
            fenced_reason: storage::opt_view(self.fenced_reason),
        }
    }
}

impl Clone for ClusterSummary {
    fn clone(&self) -> (r: Self)
        ensures
            r@ == self@,
    {
        ClusterSummary {
            enabled: self.enabled,
            cluster_id: self.cluster_id.clone(),
            node_id: self.node_id.clone(),
            state: self.state,
            epoch_id: self.epoch_id,
            leader_id: self.leader_id.clone(),
            peer_count: self.peer_count,
            voter_count: self.voter_count,
            reachable_voters: self.reachable_voters,
            quorum: self.quorum,
            fenced_reason: storage::clone_opt(&self.fenced_reason),
        }
    }
}

/// The state of one node.
#[derive(Debug)]
pub struct ClusterNodeStatus {
    pub node_id: String,
    pub advertise_s3: String,
    pub advertise_cluster: String,
    pub state: ServiceState,
    pub voter: bool,
    pub reachable: bool,
    pub total_disks: usize,
    pub last_heartbeat_unix_secs: u64,
}

/// `ClusterNodeStatus` as a mathematical value.
pub struct NodeModel {
    pub node_id: Seq<char>,
    pub advertise_s3: Seq<char>,
    pub advertise_cluster: Seq<char>,
    pub state: ServiceState,
    pub voter: bool,
    pub reachable: bool,
    pub total_disks: usize,
    pub last_heartbeat: u64,
}

impl View for ClusterNodeStatus {
    type V = NodeModel;

    open spec fn view(&self) -> NodeModel {
        NodeModel {
            node_id: self.node_id@,
            advertise_s3: self.advertise_s3@,
            advertise_cluster: self.advertise_cluster@,
            state: self.state,
            voter: self.voter,
            reachable: self.reachable,
            total_disks: self.total_disks,
            last_heartbeat: self.last_heartbeat_unix_secs,
        }
    }
}

impl Clone for ClusterNodeStatus {
    fn clone(&self) -> (r: Self)
        ensures
            r@ == self@,
    {
        ClusterNodeStatus {
            node_id: self.node_id.clone(),
            advertise_s3: self.advertise_s3.clone(),
            advertise_cluster: self.advertise_cluster.clone(),
            state: self.state,
            voter: self.voter,
            reachable: self.reachable,
            total_disks: self.total_disks,
            last_heartbeat_unix_secs: self.last_heartbeat_unix_secs,
        }
    }
}

/// The mathematical values of some nodes.
pub open spec fn node_models(v: Seq<ClusterNodeStatus>) -> Seq<NodeModel> {
    Seq::new(v.len(), |i: int| v[i]@)
}

/// A list with the same nodes.
pub fn clone_nodes(list: &Vec<ClusterNodeStatus>) -> (r: Vec<ClusterNodeStatus>)
    ensures
        node_models(r@) == node_models(list@),
{
    let mut out: Vec<ClusterNodeStatus> = Vec::new();
    while out.len() < list.len()
        invariant
            out@.len() <= list@.len(),
            forall|k: int| 0 <= k < out@.len() ==> (#[trigger] out@[k])@ == list@[k]@,
        decreases list@.len() - out@.len(),
    {
        out.push(list[out.len()].clone());
    }
    assert(node_models(out@) =~= node_models(list@));
    out
}

/// A disk of a node.
#[derive(Debug)]
pub struct ClusterDiskStatus {
    pub disk_id: String,
    pub node_id: String,
    pub path: String,
}

/// `ClusterDiskStatus` as a mathematical value.
pub struct DiskModel {
    pub disk_id: Seq<char>,
    pub node_id: Seq<char>,
    pub path: Seq<char>,
}

impl View for ClusterDiskStatus {
    type V = DiskModel;

    open spec fn view(&self) -> DiskModel {
        DiskModel { disk_id: self.disk_id@, node_id: self.node_id@, path: self.path@ }
    }
}

impl Clone for ClusterDiskStatus {
    fn clone(&self) -> (r: Self)
        ensures
            r@ == self@,
    {
        ClusterDiskStatus {
            disk_id: self.disk_id.clone(),
            node_id: self.node_id.clone(),
            path: self.path.clone(),
        }
    }
}

/// The mathematical values of some disks.
pub open spec fn disk_models(v: Seq<ClusterDiskStatus>) -> Seq<DiskModel> {
    Seq::new(v.len(), |i: int| v[i]@)
}

/// A list with the same disks.
pub fn clone_disks(list: &Vec<ClusterDiskStatus>) -> (r: Vec<ClusterDiskStatus>)
    ensures
        disk_models(r@) == disk_models(list@),
{
    let mut out: Vec<ClusterDiskStatus> = Vec::new();
    while out.len() < list.len()
        invariant
            out@.len() <= list@.len(),
            forall|k: int| 0 <= k < out@.len() ==> (#[trigger] out@[k])@ == list@[k]@,
        decreases list@.len() - out@.len(),
    {
        out.push(list[out.len()].clone());
    }
    assert(disk_models(out@) =~= disk_models(list@));
    out
}

/// A volume of a node in a fixed topology.
#[derive(Clone, Debug, PartialEq, Eq)]
pub struct ClusterVolumeStatus {
    pub volume_id: String,
    pub node_id: String,
    pub path: String,
}

/// An epoch of the cluster.
#[derive(Debug)]
pub struct ClusterEpoch {
    pub epoch_id: u64,
    pub leader_id: String,
    pub committed_at_unix_secs: u64,
    pub voter_count: usize,
    pub reachable_voters: usize,
}

/// `ClusterEpoch` as a mathematical value.
pub struct EpochModel {
    pub epoch_id: u64,
    pub leader_id: Seq<char>,
    pub committed_at: u64,
    pub voter_count: usize,
    pub reachable_voters: usize,
}

impl View for ClusterEpoch {
    type V = EpochModel;

    open spec fn view(&self) -> EpochModel {
        EpochModel {
            epoch_id: self.epoch_id,
            leader_id: self.leader_id@,
            committed_at: self.committed_at_unix_secs,
            voter_count: self.voter_count,
            reachable_voters: self.reachable_voters,
        }
    }
}

impl Clone for ClusterEpoch {
    fn clone(&self) -> (r: Self)
        ensures
            r@ == self@,
    {
        ClusterEpoch {
            epoch_id: self.epoch_id,
            leader_id: self.leader_id.clone(),
            committed_at_unix_secs: self.committed_at_unix_secs,
            voter_count: self.voter_count,
            reachable_voters: self.reachable_voters,
        }
    }
}

/// The mathematical values of some epochs.
pub open spec fn epoch_models(v: Seq<ClusterEpoch>) -> Seq<EpochModel> {
    Seq::new(v.len(), |i: int| v[i]@)
}

/// A list with the same epochs.
pub fn clone_epochs(list: &Vec<ClusterEpoch>) -> (r: Vec<ClusterEpoch>)
    ensures
        epoch_models(r@) == epoch_models(list@),
{
    let mut out: Vec<ClusterEpoch> = Vec::new();
    while out.len() < list.len()
        invariant
            out@.len() <= list@.len(),
            forall|k: int| 0 <= k < out@.len() ==> (#[trigger] out@[k])@ == list@[k]@,
        decreases list@.len() - out@.len(),
    {
        out.push(list[out.len()].clone());
    }
    assert(epoch_models(out@) =~= epoch_models(list@));
    out
}

/// The nodes and disks of the cluster in one epoch.
#[derive(Debug)]
pub struct ClusterTopology {
    pub cluster_id: String,
    pub epoch: ClusterEpoch,
    pub nodes: Vec<ClusterNodeStatus>,
    pub disks: Vec<ClusterDiskStatus>,
}

/// `ClusterTopology` as a mathematical value.
pub struct TopologyModel {
    pub cluster_id: Seq<char>,
    pub epoch: EpochModel,
    pub nodes: Seq<NodeModel>,
    pub disks: Seq<DiskModel>,
}

impl View for ClusterTopology {
    type V = TopologyModel;

    open spec fn view(&self) -> TopologyModel {
        TopologyModel {
            cluster_id: self.cluster_id@,
            epoch: self.epoch@,
            nodes: node_models(self.nodes@),
            disks: disk_models(self.disks@),
        }
    }
}

impl Clone for ClusterTopology {
    fn clone(&self) -> (r: Self)
        ensures
            r@ == self@,
    {
        ClusterTopology {
            cluster_id: self.cluster_id.clone(),
            epoch: self.epoch.clone(),
            nodes: clone_nodes(&self.nodes),
            disks: clone_disks(&self.disks),
        }
    }
}

/// What a node answers when asked for the cluster's state.
#[derive(Debug)]
pub struct ClusterStatusResponse {
    pub summary: ClusterSummary,
    pub topology: ClusterTopology,
}

/// The cluster state that a node keeps across restarts.
#[derive(Debug)]
pub struct PersistedClusterState {
    pub summary: ClusterSummary,
    pub topology: ClusterTopology,
    pub epochs: Vec<ClusterEpoch>,
}

/// `PersistedClusterState` as a mathematical value.
pub struct StateModel {
    pub summary: SummaryModel,
    pub topology: TopologyModel,
    pub epochs: Seq<EpochModel>,
}

impl View for PersistedClusterState {
    type V = StateModel;

    open spec fn view(&self) -> StateModel {
        StateModel {
            summary: self.summary@,
            topology: self.topology@,
            epochs: epoch_models(self.epochs@),
        }
    }
}

} // verus!
