//! Cluster membership, placement and fencing rules.

pub mod identity;
pub mod laws;
pub mod manager;
pub mod placement;
pub mod status;
pub mod topology;

pub use manager::{cluster_probe_header, ClusterConfig, ClusterManager};
pub use status::{
    ClusterDiskStatus, ClusterEpoch, ClusterNodeStatus, ClusterStatusResponse, ClusterSummary,
    ClusterTopology, ClusterVolumeStatus, PersistedClusterState, ServiceState,
};
