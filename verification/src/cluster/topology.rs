//! A fixed cluster topology: its rules, and what placement and status reports take from
//! it.

use vstd::prelude::*;

use super::placement::PlacementVolume;
use super::status::{ClusterNodeStatus, ClusterVolumeStatus, NodeModel, ServiceState};
use crate::order;
use crate::text;

verus! {

/// A fixed topology.
#[derive(Clone, Debug)]
pub struct StaticTopology {
    pub cluster_id: String,
    pub epoch_id: u64,
    pub pool_id: String,
    pub nodes: Vec<TopologyNode>,
}

/// A node of a topology.
#[derive(Clone, Debug)]
pub struct TopologyNode {
    pub node_id: String,
    pub advertise_s3: String,
    pub advertise_cluster: String,
    pub volumes: Vec<TopologyVolume>,
}

/// A volume of a node.
#[derive(Clone, Debug)]
pub struct TopologyVolume {
    pub volume_id: String,
    pub path: String,
}

/// What is wrong with a topology.
#[derive(Debug, PartialEq, Eq)]
pub enum TopologyError {
    EmptyClusterId,
    ZeroEpoch,
    EmptyPoolId,
    NoNodes,
    EmptyNodeId,
    DuplicateNode(String),
    NoDisks(String),
    EmptyVolumeId,
    DuplicateVolume(String),
    DuplicatePath(String),
    /// The node is not in the topology.
    MissingNode(String),
    /// The disks of the node are not those of the topology.
    DiskMismatch { node_id: String, expected: Vec<String>, actual: Vec<String> },
}

/// What is wrong with a topology, as a mathematical value.
pub enum Complaint {
    EmptyClusterId,
    ZeroEpoch,
    EmptyPoolId,
    NoNodes,
    EmptyNodeId,
    DuplicateNode(Seq<char>),
    NoDisks(Seq<char>),
    EmptyVolumeId,
    DuplicateVolume(Seq<char>),
    DuplicatePath(Seq<char>),
    MissingNode(Seq<char>),
    DiskMismatch(Seq<char>, Seq<Seq<char>>, Seq<Seq<char>>),
}

impl View for TopologyError {
    type V = Complaint;

    open spec fn view(&self) -> Complaint {
        match self {
            TopologyError::EmptyClusterId => Complaint::EmptyClusterId,
            TopologyError::ZeroEpoch => Complaint::ZeroEpoch,
            TopologyError::EmptyPoolId => Complaint::EmptyPoolId,
            TopologyError::NoNodes => Complaint::NoNodes,
            TopologyError::EmptyNodeId => Complaint::EmptyNodeId,
            TopologyError::DuplicateNode(s) => Complaint::DuplicateNode(s@),
            TopologyError::NoDisks(s) => Complaint::NoDisks(s@),
            TopologyError::EmptyVolumeId => Complaint::EmptyVolumeId,
            TopologyError::DuplicateVolume(s) => Complaint::DuplicateVolume(s@),
            TopologyError::DuplicatePath(s) => Complaint::DuplicatePath(s@),
            TopologyError::MissingNode(s) => Complaint::MissingNode(s@),
            TopologyError::DiskMismatch { node_id, expected, actual } => Complaint::DiskMismatch(
                node_id@,
                order::views(expected@),
                order::views(actual@),
            ),
        }
    }
}

/// A character of a path in its normal form: forward slashes, lower case.
pub open spec fn path_char(c: char) -> char {
    text::lower(
        if c == '\\' {
            '/'
        } else {
            c
        },
    )
}

/// The normal form of a path, under which paths are compared.
pub open spec fn normal_path(p: Seq<char>) -> Seq<char> {
    Seq::new(p.len(), |i: int| path_char(p[i]))
}

/// Brings a path into its normal form.
pub fn normalize_path(path: &str) -> (r: String)
    ensures
        r@ == normal_path(path@),
{
    let chars = text::chars_of(path);
    let mut out = String::new();
    let mut i: usize = 0;
    while i < chars.len()
        invariant
            i <= chars@.len(),
            chars@ == path@,
            out@.len() == i,
            forall|k: int| 0 <= k < i ==> out@[k] == path_char(path@[k]),
        decreases chars@.len() - i,
    {
        let c: char = if chars[i] == '\\' {
            '/'
        } else {
            chars[i]
        };
        out.push(text::lower_char(c));
        i = i + 1;
    }
    assert(out@ =~= normal_path(path@));
    out
}

/// No text but white space.
pub open spec fn blank(s: Seq<char>) -> bool {
    text::trimmed(s).len() == 0
}

fn is_blank(s: &str) -> (r: bool)
    ensures
        r == blank(s@),
{
    text::trim(s).is_empty()
}

/// The ids of the first `n` volumes.
pub open spec fn volume_ids(v: Seq<TopologyVolume>, n: nat) -> Seq<Seq<char>> {
    Seq::new(n, |i: int| v[i].volume_id@)
}

/// The normal paths of the first `n` volumes.
pub open spec fn volume_paths(v: Seq<TopologyVolume>, n: nat) -> Seq<Seq<char>> {
    Seq::new(n, |i: int| normal_path(v[i].path@))
}

/// The ids of all volumes of the first `n` nodes.
pub open spec fn all_ids(nodes: Seq<TopologyNode>, n: nat) -> Seq<Seq<char>>
    decreases n,
{
    if n == 0 {
        Seq::empty()
    } else {
        all_ids(nodes, (n - 1) as nat) + volume_ids(
            nodes[n - 1].volumes@,
            nodes[n - 1].volumes@.len(),
        )
    }
}

/// The normal paths of all volumes of the first `n` nodes.
pub open spec fn all_paths(nodes: Seq<TopologyNode>, n: nat) -> Seq<Seq<char>>
    decreases n,
{
    if n == 0 {
        Seq::empty()
    } else {
        all_paths(nodes, (n - 1) as nat) + volume_paths(
            nodes[n - 1].volumes@,
            nodes[n - 1].volumes@.len(),
        )
    }
}

/// The first complaint about the volumes of a node from the `k`-th on, given the ids and
/// paths in use before it.
pub open spec fn volumes_complaint(
    v: Seq<TopologyVolume>,
    k: int,
    ids: Seq<Seq<char>>,
    paths: Seq<Seq<char>>,
) -> Option<Complaint>
    decreases v.len() - k,
{
    if k < 0 || k >= v.len() {
        None
    } else if blank(v[k].volume_id@) {
        Some(Complaint::EmptyVolumeId)
    } else if ids.contains(v[k].volume_id@) {
        Some(Complaint::DuplicateVolume(v[k].volume_id@))
    } else if paths.contains(normal_path(v[k].path@)) {
        Some(Complaint::DuplicatePath(normal_path(v[k].path@)))
    } else {
        volumes_complaint(
            v,
            k + 1,
            ids.push(v[k].volume_id@),
            paths.push(normal_path(v[k].path@)),
        )
    }
}

/// The ids of the first `n` nodes.
pub open spec fn node_names(nodes: Seq<TopologyNode>, n: nat) -> Seq<Seq<char>> {
    Seq::new(n, |i: int| nodes[i].node_id@)
}

/// The first complaint about the nodes from the `i`-th on.
pub open spec fn nodes_complaint(nodes: Seq<TopologyNode>, i: int) -> Option<Complaint>
    decreases nodes.len() - i,
{
    if i < 0 || i >= nodes.len() {
        None
    } else if blank(nodes[i].node_id@) {
        Some(Complaint::EmptyNodeId)
    } else if node_names(nodes, i as nat).contains(nodes[i].node_id@) {
        Some(Complaint::DuplicateNode(nodes[i].node_id@))
    } else if nodes[i].volumes@.len() == 0 {
        Some(Complaint::NoDisks(nodes[i].node_id@))
    } else {
        match volumes_complaint(
            nodes[i].volumes@,
            0,
            all_ids(nodes, i as nat),
            all_paths(nodes, i as nat),
        ) {
            Some(c) => Some(c),
            None => nodes_complaint(nodes, i + 1),
        }
    }
}

/// The first complaint about a topology.
pub open spec fn complaint(t: StaticTopology) -> Option<Complaint> {
    if blank(t.cluster_id@) {
        Some(Complaint::EmptyClusterId)
    } else if t.epoch_id == 0 {
        Some(Complaint::ZeroEpoch)
    } else if blank(t.pool_id@) {
        Some(Complaint::EmptyPoolId)
    } else if t.nodes@.len() == 0 {
        Some(Complaint::NoNodes)
    } else {
        nodes_complaint(t.nodes@, 0)
    }
}

/// The first node with the given id, from the `i`-th on.
pub open spec fn node_at(nodes: Seq<TopologyNode>, node_id: Seq<char>, i: int) -> Option<int>
    decreases nodes.len() - i,
{
    if i < 0 || i >= nodes.len() {
        None
    } else if nodes[i].node_id@ == node_id {
        Some(i)
    } else {
        node_at(nodes, node_id, i + 1)
    }
}

/// The cluster addresses of the first `n` nodes, the given one left out.
pub open spec fn peer_addresses(nodes: Seq<TopologyNode>, node_id: Seq<char>, n: nat) -> Seq<
    Seq<char>,
>
    decreases n,
{
    if n == 0 {
        Seq::empty()
    } else {
        let before = peer_addresses(nodes, node_id, (n - 1) as nat);
        if nodes[n - 1].node_id@ != node_id {
            before.push(nodes[n - 1].advertise_cluster@)
        } else {
            before
        }
    }
}

/// Node id, volume id and path of every volume of the first `n` nodes.
pub open spec fn flat_volumes(nodes: Seq<TopologyNode>, n: nat) -> Seq<
    (Seq<char>, Seq<char>, Seq<char>),
>
    decreases n,
{
    if n == 0 {
        Seq::empty()
    } else {
        let node = nodes[n - 1];
        flat_volumes(nodes, (n - 1) as nat) + Seq::new(
            node.volumes@.len(),
            |k: int| (node.node_id@, node.volumes@[k].volume_id@, node.volumes@[k].path@),
        )
    }
}

/// A node as it is reported: this node in its state, the others as joining.
pub open spec fn reported_node(
    node: TopologyNode,
    local_state: ServiceState,
    local_node_id: Seq<char>,
) -> NodeModel {
    let local = node.node_id@ == local_node_id;
    NodeModel {
        node_id: node.node_id@,
        advertise_s3: node.advertise_s3@,
        advertise_cluster: node.advertise_cluster@,
        state: if local {
            local_state
        } else {
            ServiceState::Joining
        },
        voter: true,
        reachable: local,
        total_disks: node.volumes@.len() as usize,
        last_heartbeat: 0,
    }
}

/// The normal forms of some paths.
pub open spec fn normal_paths(paths: Seq<Seq<char>>) -> Seq<Seq<char>> {
    Seq::new(paths.len(), |i: int| normal_path(paths[i]))
}

/// What is wrong with a node's disks, if anything: its paths have to be those of the
/// topology, in whatever order.
pub open spec fn local_complaint(
    nodes: Seq<TopologyNode>,
    node_id: Seq<char>,
    disk_paths: Seq<Seq<char>>,
) -> Option<Complaint> {
    match node_at(nodes, node_id, 0) {
        None => Some(Complaint::MissingNode(node_id)),
        Some(i) => {
            let expected = order::distinct_sorted(
                volume_paths(nodes[i].volumes@, nodes[i].volumes@.len()),
            );
            let actual = order::distinct_sorted(normal_paths(disk_paths));
            if expected == actual {
                None
            } else {
                Some(Complaint::DiskMismatch(node_id, expected, actual))
            }
        },
    }
}

fn lists_eq(a: &Vec<String>, b: &Vec<String>) -> (r: bool)
    ensures
        r == (order::views(a@) == order::views(b@)),
{
    let ghost av = order::views(a@);
    let ghost bv = order::views(b@);
    if a.len() != b.len() {
        assert(av.len() != bv.len());
        return false;
    }
    let mut i: usize = 0;
    while i < a.len()
        invariant
            i <= a@.len(),
            a@.len() == b@.len(),
            av == order::views(a@),
            bv == order::views(b@),
            forall|k: int| 0 <= k < i ==> av[k] == bv[k],
        decreases a@.len() - i,
    {
        if !text::str_eq(a[i].as_str(), b[i].as_str()) {
            assert(av[i as int] != bv[i as int]);
            return false;
        }
        i = i + 1;
    }
    assert(av =~= bv);
    true
}

impl StaticTopology {
    /// Checks the rules of a topology: ids are not empty and occur once, every node has a
    /// volume, and no path is used twice.
    pub fn validate(&self) -> (r: Result<(), TopologyError>)
        ensures
            r is Ok <==> complaint(*self) is None,
            r matches Err(e) ==> complaint(*self) == Some(e@),
    {
        if is_blank(self.cluster_id.as_str()) {
            return Err(TopologyError::EmptyClusterId);
        }
        if self.epoch_id == 0 {
            return Err(TopologyError::ZeroEpoch);
        }
        if is_blank(self.pool_id.as_str()) {
            return Err(TopologyError::EmptyPoolId);
        }
        if self.nodes.is_empty() {
            return Err(TopologyError::NoNodes);
        }
        let ghost goal = nodes_complaint(self.nodes@, 0);
        let mut names: Vec<String> = Vec::new();
        let mut ids: Vec<String> = Vec::new();
        let mut paths: Vec<String> = Vec::new();
        let mut i: usize = 0;
        assert(order::views(names@) =~= node_names(self.nodes@, 0));
        assert(order::views(ids@) =~= all_ids(self.nodes@, 0));
        assert(order::views(paths@) =~= all_paths(self.nodes@, 0));
        while i < self.nodes.len()
            invariant
                i <= self.nodes@.len(),
                complaint(*self) == goal,
                goal == nodes_complaint(self.nodes@, i as int),
                order::views(names@) == node_names(self.nodes@, i as nat),
                order::views(ids@) == all_ids(self.nodes@, i as nat),
                order::views(paths@) == all_paths(self.nodes@, i as nat),
            decreases self.nodes@.len() - i,
        {
            let node = &self.nodes[i];
            if is_blank(node.node_id.as_str()) {
                return Err(TopologyError::EmptyNodeId);
            }
            if order::contains(&names, node.node_id.as_str()) {
                return Err(TopologyError::DuplicateNode(node.node_id.clone()));
            }
            let ghost nv = order::views(names@);
            names.push(node.node_id.clone());
            assert(order::views(names@) =~= nv.push(node.node_id@));
            assert(order::views(names@) =~= node_names(self.nodes@, (i + 1) as nat));
            if node.volumes.is_empty() {
                return Err(TopologyError::NoDisks(node.node_id.clone()));
            }
            let ghost want = volumes_complaint(
                node.volumes@,
                0,
                all_ids(self.nodes@, i as nat),
                all_paths(self.nodes@, i as nat),
            );
            let ghost ids0 = all_ids(self.nodes@, i as nat);
            let ghost paths0 = all_paths(self.nodes@, i as nat);
            assert(order::views(ids@) =~= ids0 + volume_ids(node.volumes@, 0));
            assert(order::views(paths@) =~= paths0 + volume_paths(node.volumes@, 0));
            let mut k: usize = 0;
            while k < node.volumes.len()
                invariant
                    k <= node.volumes@.len(),
                    complaint(*self) == goal,
                    want is Some ==> goal == want,
                    want == volumes_complaint(
                        node.volumes@,
                        k as int,
                        order::views(ids@),
                        order::views(paths@),
                    ),
                    order::views(ids@) == ids0 + volume_ids(node.volumes@, k as nat),
                    order::views(paths@) == paths0 + volume_paths(node.volumes@, k as nat),
                decreases node.volumes@.len() - k,
            {
                let disk = &node.volumes[k];
                if is_blank(disk.volume_id.as_str()) {
                    return Err(TopologyError::EmptyVolumeId);
                }
                if order::contains(&ids, disk.volume_id.as_str()) {
                    return Err(TopologyError::DuplicateVolume(disk.volume_id.clone()));
                }
                let path = normalize_path(disk.path.as_str());
                if order::contains(&paths, path.as_str()) {
                    return Err(TopologyError::DuplicatePath(path));
                }
                let ghost iv = order::views(ids@);
                let ghost pv = order::views(paths@);
                ids.push(disk.volume_id.clone());
                paths.push(path);
                proof {
                    assert(order::views(ids@) =~= iv.push(disk.volume_id@));
                    assert(order::views(paths@) =~= pv.push(normal_path(disk.path@)));
                    assert(volume_ids(node.volumes@, (k + 1) as nat) =~= volume_ids(
                        node.volumes@,
                        k as nat,
                    ).push(disk.volume_id@));
                    assert(volume_paths(node.volumes@, (k + 1) as nat) =~= volume_paths(
                        node.volumes@,
                        k as nat,
                    ).push(normal_path(disk.path@)));
                    assert(order::views(ids@) =~= ids0 + volume_ids(
                        node.volumes@,
                        (k + 1) as nat,
                    ));
                    assert(order::views(paths@) =~= paths0 + volume_paths(
                        node.volumes@,
                        (k + 1) as nat,
                    ));
                }
                k = k + 1;
            }
            i = i + 1;
        }
        Ok(())
    }

    /// The node with the given id.
    pub fn node(&self, node_id: &str) -> (r: Option<&TopologyNode>)
        ensures
            match r {
                Some(n) => node_at(self.nodes@, node_id@, 0) matches Some(i) && 0 <= i
                    < self.nodes@.len() && *n == self.nodes@[i],
                None => node_at(self.nodes@, node_id@, 0) is None,
            },
    {
        let mut i: usize = 0;
        while i < self.nodes.len()
            invariant
                i <= self.nodes@.len(),
                node_at(self.nodes@, node_id@, 0) == node_at(self.nodes@, node_id@, i as int),
            decreases self.nodes@.len() - i,
        {
            if text::str_eq(self.nodes[i].node_id.as_str(), node_id) {
                return Some(&self.nodes[i]);
            }
            i = i + 1;
        }
        None
    }

    /// The cluster addresses of the other nodes.
    pub fn peers_for(&self, node_id: &str) -> (r: Vec<String>)
        ensures
            order::views(r@) == peer_addresses(self.nodes@, node_id@, self.nodes@.len()),
    {
        let mut out: Vec<String> = Vec::new();
        let mut i: usize = 0;
        assert(order::views(out@) =~= Seq::<Seq<char>>::empty());
        while i < self.nodes.len()
            invariant
                i <= self.nodes@.len(),
                order::views(out@) == peer_addresses(self.nodes@, node_id@, i as nat),
            decreases self.nodes@.len() - i,
        {
            if !text::str_eq(self.nodes[i].node_id.as_str(), node_id) {
                let ghost before = order::views(out@);
                out.push(self.nodes[i].advertise_cluster.clone());
                assert(order::views(out@) =~= before.push(
                    self.nodes@[i as int].advertise_cluster@,
                ));
            }
            i = i + 1;
        }
        out
    }

    /// Checks that a node's disks are those that the topology gives it.
    pub fn validate_local_node(&self, node_id: &str, disk_paths: &[String]) -> (r: Result<
        (),
        TopologyError,
    >)
        ensures
            r is Ok <==> local_complaint(self.nodes@, node_id@, order::views(disk_paths@)) is None,
            r matches Err(e) ==> local_complaint(
                self.nodes@,
                node_id@,
                order::views(disk_paths@),
            ) == Some(e@),
    {
        let node = match self.node(node_id) {
            Some(n) => n,
            None => {
                return Err(TopologyError::MissingNode(node_id.to_owned()));
            },
        };
        let mut stated: Vec<String> = Vec::new();
        while stated.len() < node.volumes.len()
            invariant
                stated@.len() <= node.volumes@.len(),
                forall|k: int|
                    0 <= k < stated@.len() ==> (#[trigger] stated@[k])@ == normal_path(
                        node.volumes@[k].path@,
                    ),
            decreases node.volumes@.len() - stated@.len(),
        {
            stated.push(normalize_path(node.volumes[stated.len()].path.as_str()));
        }
        assert(order::views(stated@) =~= volume_paths(node.volumes@, node.volumes@.len()));
        let mut found: Vec<String> = Vec::new();
        while found.len() < disk_paths.len()
            invariant
                found@.len() <= disk_paths@.len(),
                forall|k: int|
                    0 <= k < found@.len() ==> (#[trigger] found@[k])@ == normal_path(
                        disk_paths@[k]@,
                    ),
            decreases disk_paths@.len() - found@.len(),
        {
            found.push(normalize_path(disk_paths[found.len()].as_str()));
        }
        assert(order::views(found@) =~= normal_paths(order::views(disk_paths@)));
        let expected = order::distinct(&stated);
        let actual = order::distinct(&found);
        if !lists_eq(&expected, &actual) {
            return Err(
                TopologyError::DiskMismatch { node_id: node_id.to_owned(), expected, actual },
            );
        }
        Ok(())
    }

    /// The volumes that placement chooses from, numbered through.
    pub fn placement_volumes(&self) -> (r: Vec<PlacementVolume>)
        ensures
            r@.len() == flat_volumes(self.nodes@, self.nodes@.len()).len(),
            forall|i: int|
                0 <= i < r@.len() ==> {
                    let v = flat_volumes(self.nodes@, self.nodes@.len())[i];
                    &&& (#[trigger] r@[i]).backend_index == i
                    &&& r@[i].node_id@ == v.0
                    &&& r@[i].volume_id@ == v.1
                },
    {
        let mut out: Vec<PlacementVolume> = Vec::new();
        let mut i: usize = 0;
        while i < self.nodes.len()
            invariant
                i <= self.nodes@.len(),
                placed(out@, flat_volumes(self.nodes@, i as nat)),
            decreases self.nodes@.len() - i,
        {
            let node = &self.nodes[i];
            let ghost before = flat_volumes(self.nodes@, i as nat);
            let ghost row = Seq::new(
                node.volumes@.len(),
                |k: int| (node.node_id@, node.volumes@[k].volume_id@, node.volumes@[k].path@),
            );
            let mut k: usize = 0;
            assert(before + row.take(0) =~= before);
            while k < node.volumes.len()
                invariant
                    k <= node.volumes@.len(),
                    row == Seq::new(
                        node.volumes@.len(),
                        |k: int|
                            (node.node_id@, node.volumes@[k].volume_id@, node.volumes@[k].path@),
                    ),
                    placed(out@, before + row.take(k as int)),
                decreases node.volumes@.len() - k,
            {
                let ghost was = out@;
                let backend_index: usize = out.len();
                out.push(
                    PlacementVolume {
                        backend_index,
                        node_id: node.node_id.clone(),
                        volume_id: node.volumes[k].volume_id.clone(),
                    },
                );
                proof {
                    let had = before + row.take(k as int);
                    let want = before + row.take(k + 1);
                    assert(want =~= had.push(row[k as int]));
                    assert forall|m: int| 0 <= m < out@.len() implies (
                    #[trigger] out@[m]).backend_index == m && out@[m].node_id@ == want[m].0
                        && out@[m].volume_id@ == want[m].1 by {
                        if m < was.len() {
                            assert(out@[m] == was[m]);
                            assert(want[m] == had[m]);
                        }
                    }
                }
                k = k + 1;
            }
            assert(row.take(k as int) =~= row);
            i = i + 1;
        }
        out
    }

    /// The volumes as they are reported.
    pub fn volume_statuses(&self) -> (r: Vec<ClusterVolumeStatus>)
        ensures
            reported(r@, flat_volumes(self.nodes@, self.nodes@.len())),
    {
        let mut out: Vec<ClusterVolumeStatus> = Vec::new();
        let mut i: usize = 0;
        while i < self.nodes.len()
            invariant
                i <= self.nodes@.len(),
                reported(out@, flat_volumes(self.nodes@, i as nat)),
            decreases self.nodes@.len() - i,
        {
            let node = &self.nodes[i];
            let ghost before = flat_volumes(self.nodes@, i as nat);
            let ghost row = Seq::new(
                node.volumes@.len(),
                |k: int| (node.node_id@, node.volumes@[k].volume_id@, node.volumes@[k].path@),
            );
            let mut k: usize = 0;
            assert(before + row.take(0) =~= before);
            while k < node.volumes.len()
                invariant
                    k <= node.volumes@.len(),
                    row == Seq::new(
                        node.volumes@.len(),
                        |k: int|
                            (node.node_id@, node.volumes@[k].volume_id@, node.volumes@[k].path@),
                    ),
                    reported(out@, before + row.take(k as int)),
                decreases node.volumes@.len() - k,
            {
                let ghost was = out@;
                out.push(
                    ClusterVolumeStatus {
                        volume_id: node.volumes[k].volume_id.clone(),
                        node_id: node.node_id.clone(),
                        path: node.volumes[k].path.clone(),
                    },
                );
                proof {
                    let had = before + row.take(k as int);
                    let want = before + row.take(k + 1);
                    assert(want =~= had.push(row[k as int]));
                    assert forall|m: int| 0 <= m < out@.len() implies (
                    #[trigger] out@[m]).node_id@ == want[m].0 && out@[m].volume_id@ == want[m].1
                        && out@[m].path@ == want[m].2 by {
                        if m < was.len() {
                            assert(out@[m] == was[m]);
                            assert(want[m] == had[m]);
                        }
                    }
                }
                k = k + 1;
            }
            assert(row.take(k as int) =~= row);
            i = i + 1;
        }
        out
    }

    /// The nodes as they are reported.
    pub fn node_statuses(&self, local_state: ServiceState, local_node_id: &str) -> (r: Vec<
        ClusterNodeStatus,
    >)
        ensures
            r@.len() == self.nodes@.len(),
            forall|i: int|
                0 <= i < r@.len() ==> (#[trigger] r@[i])@ == reported_node(
                    self.nodes@[i],
                    local_state,
                    local_node_id@,
                ),
    {
        let mut out: Vec<ClusterNodeStatus> = Vec::new();
        while out.len() < self.nodes.len()
            invariant
                out@.len() <= self.nodes@.len(),
                forall|i: int|
                    0 <= i < out@.len() ==> (#[trigger] out@[i])@ == reported_node(
                        self.nodes@[i],
                        local_state,
                        local_node_id@,
                    ),
            decreases self.nodes@.len() - out@.len(),
        {
            let node = &self.nodes[out.len()];
            let local = text::str_eq(node.node_id.as_str(), local_node_id);
            out.push(
                ClusterNodeStatus {
                    node_id: node.node_id.clone(),
                    advertise_s3: node.advertise_s3.clone(),
                    advertise_cluster: node.advertise_cluster.clone(),
                    state: if local {
                        local_state
                    } else {
                        ServiceState::Joining
                    },
                    voter: true,
                    reachable: local,
                    total_disks: node.volumes.len(),
                    last_heartbeat_unix_secs: 0,
                },
            );
        }
        out
    }
}

/// The placement volumes are the given ones, numbered through.
pub open spec fn placed(
    v: Seq<PlacementVolume>,
    want: Seq<(Seq<char>, Seq<char>, Seq<char>)>,
) -> bool {
    &&& v.len() == want.len()
    &&& forall|m: int|
        0 <= m < v.len() ==> (#[trigger] v[m]).backend_index == m && v[m].node_id@ == want[m].0
            && v[m].volume_id@ == want[m].1
}

/// The reported volumes are the given ones.
pub open spec fn reported(
    v: Seq<ClusterVolumeStatus>,
    want: Seq<(Seq<char>, Seq<char>, Seq<char>)>,
) -> bool {
    &&& v.len() == want.len()
    &&& forall|m: int|
        0 <= m < v.len() ==> (#[trigger] v[m]).node_id@ == want[m].0 && v[m].volume_id@
            == want[m].1 && v[m].path@ == want[m].2
}

// --------------------------------------------------------------------- laws

proof fn lemma_volumes_distinct(
    v: Seq<TopologyVolume>,
    k: int,
    ids: Seq<Seq<char>>,
    paths: Seq<Seq<char>>,
)
    requires
        0 <= k <= v.len(),
        volumes_complaint(v, k, ids, paths) is None,
        ids.no_duplicates(),
        paths.no_duplicates(),
    ensures
        (ids + volume_ids(v, v.len()).skip(k)).no_duplicates(),
        (paths + volume_paths(v, v.len()).skip(k)).no_duplicates(),
    decreases v.len() - k,
{
    let all = volume_ids(v, v.len());
    let allp = volume_paths(v, v.len());
    if k == v.len() {
        assert(ids + all.skip(k) =~= ids);
        assert(paths + allp.skip(k) =~= paths);
    } else {
        let x = v[k].volume_id@;
        let y = normal_path(v[k].path@);
        assert(ids.push(x).no_duplicates());
        assert(paths.push(y).no_duplicates());
        lemma_volumes_distinct(v, k + 1, ids.push(x), paths.push(y));
        assert(ids.push(x) + all.skip(k + 1) =~= ids + all.skip(k));
        assert(paths.push(y) + allp.skip(k + 1) =~= paths + allp.skip(k));
    }
}

proof fn lemma_nodes_distinct(nodes: Seq<TopologyNode>, i: int)
    requires
        0 <= i <= nodes.len(),
        nodes_complaint(nodes, i) is None,
        node_names(nodes, i as nat).no_duplicates(),
        all_ids(nodes, i as nat).no_duplicates(),
        all_paths(nodes, i as nat).no_duplicates(),
    ensures
        node_names(nodes, nodes.len()).no_duplicates(),
        all_ids(nodes, nodes.len()).no_duplicates(),
        all_paths(nodes, nodes.len()).no_duplicates(),
    decreases nodes.len() - i,
{
    if i < nodes.len() {
        let v = nodes[i].volumes@;
        lemma_volumes_distinct(v, 0, all_ids(nodes, i as nat), all_paths(nodes, i as nat));
        assert(volume_ids(v, v.len()).skip(0) =~= volume_ids(v, v.len()));
        assert(volume_paths(v, v.len()).skip(0) =~= volume_paths(v, v.len()));
        assert(node_names(nodes, (i + 1) as nat) =~= node_names(nodes, i as nat).push(
            nodes[i].node_id@,
        ));
        assert(node_names(nodes, (i + 1) as nat).no_duplicates());
        lemma_nodes_distinct(nodes, i + 1);
    }
}

/// In a topology that passes the check no node id, no volume id and no path occurs twice.
pub proof fn law_valid_topology_is_distinct(t: StaticTopology)
    requires
        complaint(t) is None,
    ensures
        node_names(t.nodes@, t.nodes@.len()).no_duplicates(),
        all_ids(t.nodes@, t.nodes@.len()).no_duplicates(),
        all_paths(t.nodes@, t.nodes@.len()).no_duplicates(),
        t.nodes@.len() > 0,
        t.epoch_id > 0,
{
    assert(node_names(t.nodes@, 0) =~= Seq::<Seq<char>>::empty());
    lemma_nodes_distinct(t.nodes@, 0);
}

} // verus!
