//! The cluster as one node sees it: who is reachable, who leads, and whether this node
//! may serve requests.

use vstd::prelude::*;
use vstd::string::*;
use vstd::utf8::*;

use super::status;
use super::status::{
    ClusterDiskStatus, ClusterEpoch, ClusterNodeStatus, ClusterStatusResponse, ClusterSummary,
    ClusterTopology, DiskModel, EpochModel, NodeModel, PersistedClusterState, ServiceState,
    StateModel, SummaryModel, TopologyModel,
};
use crate::digest;
use crate::order;
use crate::storage;
use crate::text;

verus! {

/// How a node takes part in the cluster.
#[derive(Debug)]
pub struct ClusterConfig {
    pub node_id: String,
    pub advertise_s3: String,
    pub advertise_cluster: String,
    pub peers: Vec<String>,
    pub cluster_secret: String,
    pub disk_paths: Vec<String>,
}

/// `ClusterConfig` as a mathematical value.
pub struct ConfigModel {
    pub node_id: Seq<char>,
    pub advertise_s3: Seq<char>,
    pub advertise_cluster: Seq<char>,
    pub peers: Seq<Seq<char>>,
    pub cluster_secret: Seq<char>,
    pub disk_paths: Seq<Seq<char>>,
}

impl View for ClusterConfig {
    type V = ConfigModel;

    open spec fn view(&self) -> ConfigModel {
        ConfigModel {
            node_id: self.node_id@,
            advertise_s3: self.advertise_s3@,
            advertise_cluster: self.advertise_cluster@,
            peers: order::views(self.peers@),
            cluster_secret: self.cluster_secret@,
            disk_paths: order::views(self.disk_paths@),
        }
    }
}

/// The cluster as this node sees it.
#[derive(Debug)]
pub struct ClusterManager {
    config: ClusterConfig,
    state: PersistedClusterState,
}

// ------------------------------------------------------------ normalisation

/// An address without white space and trailing slashes, and with a scheme.
pub open spec fn endpoint(s: Seq<char>) -> Seq<char> {
    let t = text::without_trailing(text::trimmed(s), '/');
    if text::has_prefix(t, "http://"@) || text::has_prefix(t, "https://"@) || t.len() == 0 {
        t
    } else {
        "http://"@ + t
    }
}

/// Brings an address into its normal form.
pub fn normalize_endpoint(s: &str) -> (r: String)
    ensures
        r@ == endpoint(s@),
{
    let t = text::trim_end_char(text::trim(s), '/');
    if text::starts_with(t, "http://") || text::starts_with(t, "https://") || t.is_empty() {
        t.to_owned()
    } else {
        let mut out = "http://".to_owned();
        out.append(t);
        out
    }
}

/// A node id without white space, `local` where nothing is left.
pub open spec fn clean_id(s: Seq<char>) -> Seq<char> {
    if text::trimmed(s).len() == 0 {
        "local"@
    } else {
        text::trimmed(s)
    }
}

/// Brings a node id into its normal form.
pub fn normalize_id(value: &str) -> (r: String)
    ensures
        r@ == clean_id(value@),
{
    let t = text::trim(value);
    if t.is_empty() {
        "local".to_owned()
    } else {
        t.to_owned()
    }
}

/// The normal forms of the first `n` addresses, each once, in order of first occurrence.
pub open spec fn endpoints(peers: Seq<Seq<char>>, n: nat) -> Seq<Seq<char>>
    decreases n,
{
    if n == 0 {
        Seq::empty()
    } else {
        let before = endpoints(peers, (n - 1) as nat);
        let e = endpoint(peers[n - 1]);
        if before.contains(e) {
            before
        } else {
            before.push(e)
        }
    }
}

/// Brings addresses into their normal form and drops repetitions.
pub fn normalize_peers(peers: &[String]) -> (r: Vec<String>)
    ensures
        order::views(r@) == endpoints(order::views(peers@), peers@.len()),
        r@.len() <= peers@.len(),
{
    let mut out: Vec<String> = Vec::new();
    let ghost pv = order::views(peers@);
    let mut i: usize = 0;
    assert(order::views(out@) =~= Seq::<Seq<char>>::empty());
    while i < peers.len()
        invariant
            i <= peers@.len(),
            pv == order::views(peers@),
            order::views(out@) == endpoints(pv, i as nat),
            out@.len() <= i,
        decreases peers@.len() - i,
    {
        let value = normalize_endpoint(peers[i].as_str());
        if !order::contains(&out, value.as_str()) {
            let ghost before = order::views(out@);
            out.push(value);
            assert(order::views(out@) =~= before.push(value@));
        }
        i = i + 1;
    }
    out
}

/// No peer is listed twice, and each peer has a scheme or is empty.
pub proof fn law_peers_are_distinct(peers: Seq<Seq<char>>, n: nat)
    ensures
        endpoints(peers, n).no_duplicates(),
        forall|i: int|
            0 <= i < endpoints(peers, n).len() ==> {
                let e = #[trigger] endpoints(peers, n)[i];
                e.len() == 0 || text::has_prefix(e, "http://"@) || text::has_prefix(
                    e,
                    "https://"@,
                )
            },
    decreases n,
{
    if n > 0 {
        law_peers_are_distinct(peers, (n - 1) as nat);
        let before = endpoints(peers, (n - 1) as nat);
        let e = endpoint(peers[n - 1]);
        let t = text::without_trailing(text::trimmed(peers[n - 1]), '/');
        let with_scheme = "http://"@ + t;
        assert(with_scheme.take("http://"@.len() as int) =~= "http://"@);
        assert forall|i: int| 0 <= i < endpoints(peers, n).len() implies {
            let x = #[trigger] endpoints(peers, n)[i];
            x.len() == 0 || text::has_prefix(x, "http://"@) || text::has_prefix(x, "https://"@)
        } by {
            if i < before.len() {
                assert(endpoints(peers, n)[i] == before[i]);
            } else {
                assert(endpoints(peers, n)[i] == e);
            }
        }
    }
}

// --------------------------------------------------------------- identities

/// The identity of a cluster of a node and its peers.
pub open spec fn cluster_name(node_id: Seq<char>, peers: Seq<Seq<char>>) -> Seq<char> {
    "abixio-"@ + digest::short_hash(
        encode_utf8(node_id) + digest::joined_bytes(peers, Seq::empty(), peers.len()),
    )
}

/// The identity of a cluster of a node and its peers.
pub fn cluster_id_for(node_id: &str, peers: &[String]) -> (r: String)
    ensures
        r@ == cluster_name(node_id@, order::views(peers@)),
{
    let mut message: Vec<u8> = node_id.as_bytes_vec();
    let none: Vec<u8> = Vec::new();
    digest::append_texts(&mut message, peers, none.as_slice());
    assert(none@ =~= Seq::<u8>::empty());
    let mut out = "abixio-".to_owned();
    out.append(digest::short_hex(message.as_slice()).as_str());
    out
}

/// The identity of a disk of a node.
pub open spec fn disk_name(node_id: Seq<char>, path: Seq<char>) -> Seq<char> {
    "disk-"@ + digest::short_hash(encode_utf8(node_id) + encode_utf8(path))
}

/// The identity of a disk of a node.
pub fn disk_id_for(node_id: &str, path: &str) -> (r: String)
    ensures
        r@ == disk_name(node_id@, path@),
{
    let mut message: Vec<u8> = node_id.as_bytes_vec();
    message.extend_from_slice(path.as_bytes());
    assert(message@ =~= encode_utf8(node_id@) + encode_utf8(path@));
    let mut out = "disk-".to_owned();
    out.append(digest::short_hex(message.as_slice()).as_str());
    out
}

/// The disks of a node.
pub open spec fn disks_of(c: ConfigModel) -> Seq<DiskModel> {
    Seq::new(
        c.disk_paths.len(),
        |i: int|
            DiskModel {
                disk_id: disk_name(c.node_id, c.disk_paths[i]),
                node_id: c.node_id,
                path: c.disk_paths[i],
            },
    )
}

fn list_disks(config: &ClusterConfig) -> (r: Vec<ClusterDiskStatus>)
    ensures
        status::disk_models(r@) == disks_of(config@),
{
    let mut out: Vec<ClusterDiskStatus> = Vec::new();
    while out.len() < config.disk_paths.len()
        invariant
            out@.len() <= config.disk_paths@.len(),
            forall|k: int| 0 <= k < out@.len() ==> (#[trigger] out@[k])@ == disks_of(config@)[k],
        decreases config.disk_paths@.len() - out@.len(),
    {
        let path = &config.disk_paths[out.len()];
        out.push(
            ClusterDiskStatus {
                disk_id: disk_id_for(config.node_id.as_str(), path.as_str()),
                node_id: config.node_id.clone(),
                path: path.clone(),
            },
        );
    }
    assert(status::disk_models(out@) =~= disks_of(config@));
    out
}

// ------------------------------------------------------------------- quorum

/// How many of `voters` have to be reachable.
pub open spec fn majority(voters: int) -> int {
    voters / 2 + 1
}

/// Two groups that both hold a majority of the same voters have one in common, so that
/// never two separated parts of a cluster serve requests.
pub proof fn law_majorities_overlap(voters: int, a: int, b: int)
    requires
        voters >= 0,
        a >= majority(voters),
        b >= majority(voters),
    ensures
        a + b > voters,
{
}

/// The node id that sorts before all others, of the local one and those of the peers.
pub fn elect_leader(local_node_id: &str, peer_summaries: &[(String, ClusterSummary)]) -> (r:
    String)
    ensures
        leads(r@, local_node_id@, peer_summaries@),
{
    let mut best = local_node_id.to_owned();
    let mut i: usize = 0;
    proof {
        text::lemma_lex_irreflexive(encode_utf8(local_node_id@));
    }
    while i < peer_summaries.len()
        invariant
            i <= peer_summaries@.len(),
            leads(best@, local_node_id@, peer_summaries@.take(i as int)),
        decreases peer_summaries@.len() - i,
    {
        let ghost part = peer_summaries@.take(i as int);
        let ghost next = peer_summaries@.take(i + 1);
        let ghost was = best@;
        let id = &peer_summaries[i].1.node_id;
        let smaller = text::str_less(id.as_str(), best.as_str());
        if smaller {
            best = id.clone();
        }
        proof {
            assert(next[i as int].1.node_id@ == id@);
            text::lemma_lex_irreflexive(encode_utf8(id@));
            if smaller {
                if text::str_less_spec(local_node_id@, id@) {
                    text::lemma_lex_transitive(
                        encode_utf8(local_node_id@),
                        encode_utf8(id@),
                        encode_utf8(was),
                    );
                }
            } else if was != local_node_id@ {
                let k = choose|k: int|
                    0 <= k < part.len() && (#[trigger] part[k]).1.node_id@ == was;
                assert(next[k].1.node_id@ == was);
            }
            assert forall|k: int| 0 <= k < next.len() implies !text::str_less_spec(
                (#[trigger] next[k]).1.node_id@,
                best@,
            ) by {
                if k < i {
                    assert(part[k] == next[k]);
                    assert(!text::str_less_spec(part[k].1.node_id@, was));
                    if smaller && text::str_less_spec(next[k].1.node_id@, id@) {
                        text::lemma_lex_transitive(
                            encode_utf8(next[k].1.node_id@),
                            encode_utf8(id@),
                            encode_utf8(was),
                        );
                    }
                }
            }
        }
        i = i + 1;
    }
    assert(peer_summaries@.take(i as int) =~= peer_summaries@);
    best
}

/// `id` is one of the node ids, and none sorts before it.
pub open spec fn leads(
    id: Seq<char>,
    local: Seq<char>,
    peers: Seq<(String, ClusterSummary)>,
) -> bool {
    &&& id == local || exists|k: int| 0 <= k < peers.len() && (#[trigger] peers[k]).1.node_id@ == id
    &&& !text::str_less_spec(local, id)
    &&& forall|k: int|
        0 <= k < peers.len() ==> !text::str_less_spec((#[trigger] peers[k]).1.node_id@, id)
}

/// There is one leader: nodes that see the same node ids agree on it.
pub proof fn law_one_leader(
    a: Seq<char>,
    b: Seq<char>,
    local: Seq<char>,
    peers: Seq<(String, ClusterSummary)>,
)
    requires
        leads(a, local, peers),
        leads(b, local, peers),
    ensures
        a == b,
{
    text::lemma_lex_total(encode_utf8(a), encode_utf8(b));
    if a != local {
        let k = choose|k: int| 0 <= k < peers.len() && (#[trigger] peers[k]).1.node_id@ == a;
        assert(!text::str_less_spec(peers[k].1.node_id@, b));
    }
    if b != local {
        let k = choose|k: int| 0 <= k < peers.len() && (#[trigger] peers[k]).1.node_id@ == b;
        assert(!text::str_less_spec(peers[k].1.node_id@, a));
    }
    text::lemma_same_bytes_same_chars(a, b);
}

// -------------------------------------------------------------------- nodes

/// The answers of peers: the address and the summary.
pub open spec fn answer_models(v: Seq<(String, ClusterSummary)>) -> Seq<(Seq<char>, SummaryModel)> {
    Seq::new(v.len(), |i: int| (v[i].0@, v[i].1@))
}

/// The first answer from an address.
pub open spec fn answer_from(answers: Seq<(Seq<char>, SummaryModel)>, peer: Seq<char>) -> Option<
    SummaryModel,
>
    decreases answers.len(),
{
    if answers.len() == 0 {
        None
    } else if answers[0].0 == peer {
        Some(answers[0].1)
    } else {
        answer_from(answers.drop_first(), peer)
    }
}

/// This node.
pub open spec fn local_node(c: ConfigModel, state: ServiceState, now: u64) -> NodeModel {
    NodeModel {
        node_id: c.node_id,
        advertise_s3: c.advertise_s3,
        advertise_cluster: c.advertise_cluster,
        state,
        voter: true,
        reachable: true,
        total_disks: c.disk_paths.len() as usize,
        last_heartbeat: now,
    }
}

/// A peer, by what it answered. A peer that did not answer is joining, and is known by
/// its address alone.
pub open spec fn peer_node(peer: Seq<char>, answer: Option<SummaryModel>, now: u64) -> NodeModel {
    NodeModel {
        node_id: match answer {
            Some(s) => s.node_id,
            None => peer,
        },
        advertise_s3: match answer {
            Some(s) => s.node_id,
            None => Seq::empty(),
        },
        advertise_cluster: peer,
        state: match answer {
            Some(s) => s.state,
            None => ServiceState::Joining,
        },
        voter: true,
        reachable: answer is Some,
        total_disks: 0,
        last_heartbeat: now,
    }
}

/// This node, followed by its peers.
pub open spec fn all_nodes(
    c: ConfigModel,
    state: ServiceState,
    answers: Seq<(Seq<char>, SummaryModel)>,
    now: u64,
) -> Seq<NodeModel> {
    seq![local_node(c, state, now)] + Seq::new(
        c.peers.len(),
        |i: int| peer_node(c.peers[i], answer_from(answers, c.peers[i]), now),
    )
}

fn find_answer<'a>(answers: &'a [(String, ClusterSummary)], peer: &str) -> (r: Option<
    &'a ClusterSummary,
>)
    ensures
        match r {
            Some(s) => answer_from(answer_models(answers@), peer@) == Some(s@),
            None => answer_from(answer_models(answers@), peer@) is None,
        },
{
    let ghost av = answer_models(answers@);
    let mut i: usize = 0;
    assert(av.skip(0) =~= av);
    while i < answers.len()
        invariant
            i <= answers@.len(),
            av == answer_models(answers@),
            answer_from(av, peer@) == answer_from(av.skip(i as int), peer@),
        decreases answers@.len() - i,
    {
        assert(av.skip(i as int)[0] == av[i as int]);
        if text::str_eq(answers[i].0.as_str(), peer) {
            return Some(&answers[i].1);
        }
        assert(av.skip(i as int).drop_first() =~= av.skip(i + 1));
        i = i + 1;
    }
    None
}

fn build_nodes(
    config: &ClusterConfig,
    local_state: ServiceState,
    answers: &[(String, ClusterSummary)],
    now: u64,
) -> (r: Vec<ClusterNodeStatus>)
    ensures
        status::node_models(r@) == all_nodes(config@, local_state, answer_models(answers@), now),
{
    let ghost want = all_nodes(config@, local_state, answer_models(answers@), now);
    let mut out: Vec<ClusterNodeStatus> = Vec::new();
    out.push(
        ClusterNodeStatus {
            node_id: config.node_id.clone(),
            advertise_s3: config.advertise_s3.clone(),
            advertise_cluster: config.advertise_cluster.clone(),
            state: local_state,
            voter: true,
            reachable: true,
            total_disks: config.disk_paths.len(),
            last_heartbeat_unix_secs: now,
        },
    );
    let mut i: usize = 0;
    while i < config.peers.len()
        invariant
            i <= config.peers@.len(),
            out@.len() == i + 1,
            want == all_nodes(config@, local_state, answer_models(answers@), now),
            forall|k: int| 0 <= k < out@.len() ==> (#[trigger] out@[k])@ == want[k],
        decreases config.peers@.len() - i,
    {
        let peer = &config.peers[i];
        let node = match find_answer(answers, peer.as_str()) {
            Some(s) => ClusterNodeStatus {
                node_id: s.node_id.clone(),
                advertise_s3: s.node_id.clone(),
                advertise_cluster: peer.clone(),
                state: s.state,
                voter: true,
                reachable: true,
                total_disks: 0,
                last_heartbeat_unix_secs: now,
            },
            None => ClusterNodeStatus {
                node_id: peer.clone(),
                advertise_s3: String::new(),
                advertise_cluster: peer.clone(),
                state: ServiceState::Joining,
                voter: true,
                reachable: false,
                total_disks: 0,
                last_heartbeat_unix_secs: now,
            },
        };
        assert(want[i + 1] == peer_node(
            config@.peers[i as int],
            answer_from(answer_models(answers@), config@.peers[i as int]),
            now,
        ));
        assert(node@ == want[i + 1]);
        out.push(node);
        i = i + 1;
    }
    assert(status::node_models(out@) =~= want);
    out
}

// -------------------------------------------------------------------- state

/// The epochs with the present one in front.
pub open spec fn with_epoch(epochs: Seq<EpochModel>, e: EpochModel) -> Seq<EpochModel> {
    if epochs.len() == 0 {
        seq![e]
    } else {
        epochs.update(0, e)
    }
}

/// The state of a node that has just started.
pub open spec fn first_state(c: ConfigModel, cluster_id: Seq<char>, now: u64) -> StateModel {
    let state = if c.peers.len() == 0 {
        ServiceState::Ready
    } else {
        ServiceState::SyncingEpoch
    };
    let epoch = EpochModel {
        epoch_id: 1,
        leader_id: c.node_id,
        committed_at: now,
        voter_count: (c.peers.len() + 1) as usize,
        reachable_voters: 1,
    };
    StateModel {
        summary: SummaryModel {
            enabled: c.peers.len() > 0,
            cluster_id,
            node_id: c.node_id,
            state,
            epoch_id: 1,
            leader_id: c.node_id,
            peer_count: c.peers.len() as usize,
            voter_count: (c.peers.len() + 1) as usize,
            reachable_voters: 1,
            quorum: majority(c.peers.len() as int + 1) as usize,
            fenced_reason: None,
        },
        topology: TopologyModel {
            cluster_id,
            epoch,
            nodes: seq![local_node(c, state, now)],
            disks: disks_of(c),
        },
        epochs: seq![epoch],
    }
}

/// The state with this node's identity brought up to date.
pub open spec fn with_identity(s: StateModel, c: ConfigModel) -> StateModel {
    let cluster_id = cluster_name(c.node_id, c.peers);
    StateModel {
        summary: SummaryModel {
            node_id: c.node_id,
            cluster_id,
            peer_count: c.peers.len() as usize,
            ..s.summary
        },
        topology: TopologyModel { cluster_id, disks: disks_of(c), ..s.topology },
        ..s
    }
}

/// The state once enough voters are reachable.
pub open spec fn ready_state(
    s: StateModel,
    c: ConfigModel,
    epoch_id: u64,
    leader_id: Seq<char>,
    reachable: usize,
    answers: Seq<(Seq<char>, SummaryModel)>,
    now: u64,
) -> StateModel {
    let voters = (c.peers.len() + 1) as usize;
    let epoch = EpochModel {
        epoch_id,
        leader_id,
        committed_at: now,
        voter_count: voters,
        reachable_voters: reachable,
    };
    StateModel {
        summary: SummaryModel {
            state: ServiceState::Ready,
            epoch_id,
            leader_id,
            voter_count: voters,
            reachable_voters: reachable,
            quorum: majority(c.peers.len() as int + 1) as usize,
            fenced_reason: None,
            ..s.summary
        },
        topology: TopologyModel {
            epoch,
            nodes: all_nodes(c, ServiceState::Ready, answers, now),
            ..s.topology
        },
        epochs: with_epoch(s.epochs, epoch),
    }
}

/// The state once too few voters are reachable.
pub open spec fn fenced_state(
    s: StateModel,
    c: ConfigModel,
    epoch_id: u64,
    leader_id: Seq<char>,
    reachable: usize,
    reason: Option<Seq<char>>,
    now: u64,
) -> StateModel {
    StateModel {
        summary: SummaryModel {
            state: ServiceState::Fenced,
            epoch_id,
            leader_id,
            voter_count: (c.peers.len() + 1) as usize,
            reachable_voters: reachable,
            quorum: majority(c.peers.len() as int + 1) as usize,
            fenced_reason: reason,
            ..s.summary
        },
        topology: TopologyModel {
            nodes: all_nodes(c, ServiceState::Fenced, Seq::empty(), now),
            ..s.topology
        },
        ..s
    }
}

/// Why a node is fenced when it loses the quorum.
pub open spec fn lost_quorum(reachable: int, quorum: int) -> Seq<char> {
    "cluster quorum lost: reachable_voters="@ + text::decimal(reachable as nat) + " quorum="@
        + text::decimal(quorum as nat)
}

fn lost_quorum_text(reachable: usize, quorum: usize) -> (r: String)
    ensures
        r@ == lost_quorum(reachable as int, quorum as int),
{
    let mut out = "cluster quorum lost: reachable_voters=".to_owned();
    out.append(text::decimal_u64(reachable as u64).as_str());
    out.append(" quorum=");
    out.append(text::decimal_u64(quorum as u64).as_str());
    out
}

/// The state after the peers were asked: ready where a majority of the voters is
/// reachable, and fenced otherwise.
pub open spec fn refreshed_state(
    s: StateModel,
    c: ConfigModel,
    leader: Seq<char>,
    answers: Seq<(Seq<char>, SummaryModel)>,
    now: u64,
) -> StateModel {
    let reachable = answers.len() as int + 1;
    let quorum = majority(c.peers.len() as int + 1);
    if reachable < quorum {
        fenced_state(
            s,
            c,
            1,
            leader,
            reachable as usize,
            Some(lost_quorum(reachable, quorum)),
            now,
        )
    } else {
        ready_state(s, c, 1, leader, reachable as usize, answers, now)
    }
}

/// The nodes with the given one's state set, where it is among them.
pub open spec fn with_state_of(nodes: Seq<NodeModel>, node_id: Seq<char>, state: ServiceState) -> Seq<
    NodeModel,
>
    decreases nodes.len(),
{
    if nodes.len() == 0 {
        nodes
    } else if nodes[0].node_id == node_id {
        seq![NodeModel { state, ..nodes[0] }] + nodes.drop_first()
    } else {
        seq![nodes[0]] + with_state_of(nodes.drop_first(), node_id, state)
    }
}

proof fn lemma_with_state_of(nodes: Seq<NodeModel>, node_id: Seq<char>, state: ServiceState, p: int)
    requires
        0 <= p <= nodes.len(),
        forall|i: int| 0 <= i < p ==> (#[trigger] nodes[i]).node_id != node_id,
        p < nodes.len() ==> nodes[p].node_id == node_id,
    ensures
        with_state_of(nodes, node_id, state) == (if p < nodes.len() {
            nodes.update(p, NodeModel { state, ..nodes[p] })
        } else {
            nodes
        }),
    decreases nodes.len(),
{
    if nodes.len() > 0 {
        if p == 0 {
            assert(nodes.update(0, NodeModel { state, ..nodes[0] }) =~= seq![
                NodeModel { state, ..nodes[0] },
            ] + nodes.drop_first());
        } else {
            let t = nodes.drop_first();
            assert(nodes[0].node_id != node_id);
            assert forall|i: int| 0 <= i < p - 1 implies (#[trigger] t[i]).node_id != node_id by {
                assert(t[i] == nodes[i + 1]);
            }
            lemma_with_state_of(t, node_id, state, p - 1);
            if p < nodes.len() {
                assert(seq![nodes[0]] + t.update(p - 1, NodeModel { state, ..t[p - 1] })
                    =~= nodes.update(p, NodeModel { state, ..nodes[p] }));
            } else {
                assert(seq![nodes[0]] + t =~= nodes);
            }
        }
    }
}

/// How many nodes may vote; at least one.
pub open spec fn voters_among(nodes: Seq<NodeModel>, n: nat) -> nat
    decreases n,
{
    if n == 0 {
        0
    } else {
        voters_among(nodes, (n - 1) as nat) + (if nodes[n - 1].voter {
            1nat
        } else {
            0nat
        })
    }
}

/// How many nodes may vote and are reachable.
pub open spec fn reachable_among(nodes: Seq<NodeModel>, n: nat) -> nat
    decreases n,
{
    if n == 0 {
        0
    } else {
        reachable_among(nodes, (n - 1) as nat) + (if nodes[n - 1].voter && nodes[n - 1].reachable {
            1nat
        } else {
            0nat
        })
    }
}

/// At least one.
pub open spec fn at_least_one(n: nat) -> nat {
    if n == 0 {
        1
    } else {
        n
    }
}

/// The state with a topology that was installed from outside.
pub open spec fn installed_state(
    s: StateModel,
    epoch_id: u64,
    leader_id: Seq<char>,
    nodes: Seq<NodeModel>,
    disks: Seq<DiskModel>,
    now: u64,
) -> StateModel {
    let voters = at_least_one(voters_among(nodes, nodes.len())) as int;
    let reachable = at_least_one(reachable_among(nodes, nodes.len())) as int;
    let quorum = majority(voters);
    let epoch = EpochModel {
        epoch_id,
        leader_id,
        committed_at: now,
        voter_count: voters as usize,
        reachable_voters: reachable as usize,
    };
    StateModel {
        summary: SummaryModel {
            state: if reachable >= quorum {
                ServiceState::Ready
            } else {
                ServiceState::Fenced
            },
            epoch_id,
            leader_id,
            peer_count: if nodes.len() == 0 {
                0
            } else {
                (nodes.len() - 1) as usize
            },
            voter_count: voters as usize,
            reachable_voters: reachable as usize,
            quorum: quorum as usize,
            fenced_reason: if reachable >= quorum {
                None
            } else {
                Some(lost_quorum(reachable, quorum))
            },
            ..s.summary
        },
        topology: TopologyModel { cluster_id: s.summary.cluster_id, epoch, nodes, disks },
        epochs: with_epoch(s.epochs, epoch),
    }
}

fn set_epoch(epochs: &mut Vec<ClusterEpoch>, epoch: ClusterEpoch)
    ensures
        status::epoch_models(final(epochs)@) == with_epoch(
            status::epoch_models(old(epochs)@),
            epoch@,
        ),
{
    if epochs.len() == 0 {
        epochs.push(epoch);
        assert(status::epoch_models(epochs@) =~= seq![epoch@]);
    } else {
        let ghost before = status::epoch_models(epochs@);
        epochs.set(0, epoch);
        assert(status::epoch_models(epochs@) =~= before.update(0, epoch@));
    }
}

/// The state of a node that has just started.
fn initial_state(config: &ClusterConfig, cluster_id: &str, now: u64) -> (r: PersistedClusterState)
    requires
        config.peers@.len() < usize::MAX,
    ensures
        r@ == first_state(config@, cluster_id@, now),
{
    let alone = config.peers.is_empty();
    let state = if alone {
        ServiceState::Ready
    } else {
        ServiceState::SyncingEpoch
    };
    let voters: usize = config.peers.len() + 1;
    let epoch = ClusterEpoch {
        epoch_id: 1,
        leader_id: config.node_id.clone(),
        committed_at_unix_secs: now,
        voter_count: voters,
        reachable_voters: 1,
    };
    let mut nodes: Vec<ClusterNodeStatus> = Vec::new();
    nodes.push(
        ClusterNodeStatus {
            node_id: config.node_id.clone(),
            advertise_s3: config.advertise_s3.clone(),
            advertise_cluster: config.advertise_cluster.clone(),
            state,
            voter: true,
            reachable: true,
            total_disks: config.disk_paths.len(),
            last_heartbeat_unix_secs: now,
        },
    );
    let mut epochs: Vec<ClusterEpoch> = Vec::new();
    epochs.push(epoch.clone());
    let r = PersistedClusterState {
        summary: ClusterSummary {
            enabled: !alone,
            cluster_id: cluster_id.to_owned(),
            node_id: config.node_id.clone(),
            state,
            epoch_id: 1,
            leader_id: config.node_id.clone(),
            peer_count: config.peers.len(),
            voter_count: voters,
            reachable_voters: 1,
            quorum: voters / 2 + 1,
            fenced_reason: None,
        },
        topology: ClusterTopology {
            cluster_id: cluster_id.to_owned(),
            epoch,
            nodes,
            disks: list_disks(config),
        },
        epochs,
    };
    proof {
        let want = first_state(config@, cluster_id@, now);
        assert(status::node_models(nodes@) =~= want.topology.nodes);
        assert(status::epoch_models(epochs@) =~= want.epochs);
        assert(r@.summary == want.summary);
        assert(r@.topology == want.topology);
    }
    r
}

/// A configuration with its addresses and ids in normal form.
pub open spec fn normal_config(c: ConfigModel) -> ConfigModel {
    ConfigModel {
        node_id: clean_id(c.node_id),
        advertise_s3: endpoint(c.advertise_s3),
        advertise_cluster: endpoint(c.advertise_cluster),
        peers: endpoints(c.peers, c.peers.len()),
        ..c
    }
}

/// The state that a node starts with: the stored one where it is of the same cluster, and
/// a fresh one otherwise. A node without peers is ready at once.
pub open spec fn start_state(c: ConfigModel, stored: Option<StateModel>, now: u64) -> StateModel {
    let cluster_id = cluster_name(c.node_id, c.peers);
    let base = match stored {
        Some(s) => if s.summary.cluster_id == cluster_id {
            s
        } else {
            first_state(c, cluster_id, now)
        },
        None => first_state(c, cluster_id, now),
    };
    let named = with_identity(base, c);
    if c.peers.len() == 0 {
        ready_state(named, c, 1, c.node_id, 1, Seq::empty(), now)
    } else {
        named
    }
}

impl ClusterManager {
    /// The configuration.
    pub closed spec fn cfg(&self) -> ConfigModel {
        self.config@
    }

    /// The state.
    pub closed spec fn model(&self) -> StateModel {
        self.state@
    }

    #[verifier::type_invariant]
    spec fn well_formed(&self) -> bool {
        self.config.peers@.len() < usize::MAX
    }

    /// The cluster as seen by a node that has just started.
    pub fn new(
        config: ClusterConfig,
        persisted: Option<PersistedClusterState>,
        now: u64,
    ) -> (r: Self)
        requires
            config.peers@.len() < usize::MAX,
        ensures
            r.cfg() == normal_config(config@),
            r.model() == start_state(
                normal_config(config@),
                (match persisted {
                    Some(s) => Some(s@),
                    None => None,
                }),
                now,
            ),
    {
        let config = ClusterConfig {
            node_id: normalize_id(config.node_id.as_str()),
            advertise_s3: normalize_endpoint(config.advertise_s3.as_str()),
            advertise_cluster: normalize_endpoint(config.advertise_cluster.as_str()),
            peers: normalize_peers(config.peers.as_slice()),
            cluster_secret: config.cluster_secret,
            disk_paths: config.disk_paths,
        };
        let cluster_id = cluster_id_for(config.node_id.as_str(), config.peers.as_slice());
        let mut state = match persisted {
            Some(s) => if text::str_eq(s.summary.cluster_id.as_str(), cluster_id.as_str()) {
                s
            } else {
                initial_state(&config, cluster_id.as_str(), now)
            },
            None => initial_state(&config, cluster_id.as_str(), now),
        };
        refresh_local_identity(&config, &mut state);
        let mut manager = ClusterManager { config, state };
        if !manager.cluster_enabled() {
            let leader = manager.config.node_id.clone();
            let none: Vec<(String, ClusterSummary)> = Vec::new();
            assert(answer_models(none@) =~= Seq::<(Seq<char>, SummaryModel)>::empty());
            manager.mark_ready(1, leader, 1, none.as_slice(), now);
        }
        manager
    }

    /// Whether there are peers.
    pub fn cluster_enabled(&self) -> (r: bool)
        ensures
            r == (self.cfg().peers.len() > 0),
    {
        !self.config.peers.is_empty()
    }

    /// The secret that peers have to present.
    pub fn cluster_secret(&self) -> (r: &str)
        ensures
            r@ == self.cfg().cluster_secret,
    {
        self.config.cluster_secret.as_str()
    }

    /// The id of this node.
    pub fn local_node_id(&self) -> (r: &str)
        ensures
            r@ == self.cfg().node_id,
    {
        self.config.node_id.as_str()
    }

    /// The addresses of the peers.
    pub fn peers(&self) -> (r: Vec<String>)
        ensures
            order::views(r@) == self.cfg().peers,
    {
        storage::clone_strings(&self.config.peers)
    }

    /// Whether requests for data are refused: the node is not ready.
    pub fn blocks_data_plane(&self) -> (r: bool)
        ensures
            r == (self.model().summary.state != ServiceState::Ready),
    {
        self.state.summary.state != ServiceState::Ready
    }

    /// Whether changes are accepted: the node is ready.
    pub fn allows_mutation(&self) -> (r: bool)
        ensures
            r == (self.model().summary.state == ServiceState::Ready),
    {
        self.state.summary.state == ServiceState::Ready
    }

    /// The state of the cluster in short.
    pub fn summary(&self) -> (r: ClusterSummary)
        ensures
            r@ == self.model().summary,
    {
        self.state.summary.clone()
    }

    /// The state of the cluster in full.
    pub fn status_response(&self) -> (r: ClusterStatusResponse)
        ensures
            r.summary@ == self.model().summary,
            r.topology@ == self.model().topology,
    {
        ClusterStatusResponse {
            summary: self.state.summary.clone(),
            topology: self.state.topology.clone(),
        }
    }

    /// The nodes of the cluster.
    pub fn nodes(&self) -> (r: Vec<ClusterNodeStatus>)
        ensures
            status::node_models(r@) == self.model().topology.nodes,
    {
        status::clone_nodes(&self.state.topology.nodes)
    }

    /// The topology of the cluster.
    pub fn topology(&self) -> (r: ClusterTopology)
        ensures
            r@ == self.model().topology,
    {
        self.state.topology.clone()
    }

    /// The epochs of the cluster.
    pub fn epochs(&self) -> (r: Vec<ClusterEpoch>)
        ensures
            status::epoch_models(r@) == self.model().epochs,
    {
        status::clone_epochs(&self.state.epochs)
    }

    /// The state to be kept across restarts.
    pub fn persisted(&self) -> (r: &PersistedClusterState)
        ensures
            r@ == self.model(),
    {
        &self.state
    }

    /// Fences this node for a reason of the operator.
    pub fn force_fence(&mut self, reason: &str)
        ensures
            final(self).cfg() == old(self).cfg(),
            final(self).model() == (StateModel {
                summary: SummaryModel {
                    state: ServiceState::Fenced,
                    fenced_reason: Some(reason@),
                    ..old(self).model().summary
                },
                topology: TopologyModel {
                    nodes: with_state_of(
                        old(self).model().topology.nodes,
                        old(self).cfg().node_id,
                        ServiceState::Fenced,
                    ),
                    ..old(self).model().topology
                },
                ..old(self).model()
            }),
    {
        proof {
            use_type_invariant(&*self);
        }
        let ghost nodes = status::node_models(self.state.topology.nodes@);
        let ghost id = self.config.node_id@;
        let mut p: usize = 0;
        while p < self.state.topology.nodes.len() && !text::str_eq(
            self.state.topology.nodes[p].node_id.as_str(),
            self.config.node_id.as_str(),
        )
            invariant
                *self == *old(self),
                p <= self.state.topology.nodes@.len(),
                nodes == status::node_models(self.state.topology.nodes@),
                id == self.config.node_id@,
                forall|i: int| 0 <= i < p ==> (#[trigger] nodes[i]).node_id != id,
            ensures
                *self == *old(self),
                p <= self.state.topology.nodes@.len(),
                forall|i: int| 0 <= i < p ==> (#[trigger] nodes[i]).node_id != id,
                p < self.state.topology.nodes@.len() ==> nodes[p as int].node_id == id,
            decreases self.state.topology.nodes@.len() - p,
        {
            p = p + 1;
        }
        proof {
            lemma_with_state_of(nodes, id, ServiceState::Fenced, p as int);
        }
        self.state.summary.state = ServiceState::Fenced;
        self.state.summary.fenced_reason = Some(reason.to_owned());
        if p < self.state.topology.nodes.len() {
            let fenced = ClusterNodeStatus {
                state: ServiceState::Fenced,
                ..self.state.topology.nodes[p].clone()
            };
            let mut list = status::clone_nodes(&self.state.topology.nodes);
            list.set(p, fenced);
            assert(status::node_models(list@) =~= nodes.update(
                p as int,
                NodeModel { state: ServiceState::Fenced, ..nodes[p as int] },
            ));
            self.state.topology.nodes = list;
        }
    }

    /// Installs a topology from outside. The node is ready where a majority of its voters
    /// is reachable.
    pub fn install_topology(
        &mut self,
        epoch_id: u64,
        leader_id: &str,
        nodes: Vec<ClusterNodeStatus>,
        disks: Vec<ClusterDiskStatus>,
        now: u64,
    )
        ensures
            final(self).cfg() == old(self).cfg(),
            final(self).model() == installed_state(
                old(self).model(),
                epoch_id,
                leader_id@,
                status::node_models(nodes@),
                status::disk_models(disks@),
                now,
            ),
    {
        proof {
            use_type_invariant(&*self);
        }
        let ghost nv = status::node_models(nodes@);
        let mut voters: usize = 0;
        let mut reachable: usize = 0;
        let mut i: usize = 0;
        while i < nodes.len()
            invariant
                i <= nodes@.len(),
                nv == status::node_models(nodes@),
                voters <= i,
                reachable <= i,
                voters == voters_among(nv, i as nat),
                reachable == reachable_among(nv, i as nat),
            decreases nodes@.len() - i,
        {
            assert(nv[i as int] == nodes@[i as int]@);
            if nodes[i].voter {
                voters = voters + 1;
                if nodes[i].reachable {
                    reachable = reachable + 1;
                }
            }
            i = i + 1;
        }
        if voters == 0 {
            voters = 1;
        }
        if reachable == 0 {
            reachable = 1;
        }
        let quorum: usize = voters / 2 + 1;
        let ready = reachable >= quorum;
        self.state.summary.state = if ready {
            ServiceState::Ready
        } else {
            ServiceState::Fenced
        };
        self.state.summary.epoch_id = epoch_id;
        self.state.summary.leader_id = leader_id.to_owned();
        self.state.summary.peer_count = nodes.len().saturating_sub(1);
        self.state.summary.voter_count = voters;
        self.state.summary.reachable_voters = reachable;
        self.state.summary.quorum = quorum;
        self.state.summary.fenced_reason = if ready {
            None
        } else {
            Some(lost_quorum_text(reachable, quorum))
        };
        let epoch = ClusterEpoch {
            epoch_id,
            leader_id: leader_id.to_owned(),
            committed_at_unix_secs: now,
            voter_count: voters,
            reachable_voters: reachable,
        };
        self.state.topology = ClusterTopology {
            cluster_id: self.state.summary.cluster_id.clone(),
            epoch: epoch.clone(),
            nodes,
            disks,
        };
        let mut epochs = status::clone_epochs(&self.state.epochs);
        set_epoch(&mut epochs, epoch);
        self.state.epochs = epochs;
    }

    /// Whether a peer's answer counts: it is of the same cluster.
    pub fn accepts_answer(&self, summary: &ClusterSummary) -> (r: bool)
        ensures
            r == (summary.cluster_id@ == self.model().summary.cluster_id),
    {
        text::str_eq(summary.cluster_id.as_str(), self.state.summary.cluster_id.as_str())
    }

    /// Takes note of the answers of the peers. Where a majority of the voters is reachable
    /// the node is ready, otherwise it is fenced.
    pub fn refresh_from_peers(&mut self, answers: &[(String, ClusterSummary)], now: u64)
        requires
            answers@.len() < usize::MAX,
        ensures
            final(self).cfg() == old(self).cfg(),
            exists|leader: Seq<char>| #[trigger]
                leads(leader, old(self).cfg().node_id, answers@) && final(self).model()
                    == refreshed_state(
                    old(self).model(),
                    old(self).cfg(),
                    leader,
                    answer_models(answers@),
                    now,
                ),
    {
        proof {
            use_type_invariant(&*self);
        }
        let reachable: usize = answers.len() + 1;
        let voters: usize = self.config.peers.len() + 1;
        let quorum: usize = voters / 2 + 1;
        let leader = elect_leader(self.config.node_id.as_str(), answers);
        let ghost l = leader@;
        if reachable < quorum {
            let reason = lost_quorum_text(reachable, quorum);
            self.mark_fenced(1, leader, reachable, Some(reason), now);
        } else {
            self.mark_ready(1, leader, reachable, answers, now);
        }
        assert(leads(l, old(self).cfg().node_id, answers@));
    }

    fn mark_ready(
        &mut self,
        epoch_id: u64,
        leader_id: String,
        reachable_voters: usize,
        answers: &[(String, ClusterSummary)],
        now: u64,
    )
        ensures
            final(self).cfg() == old(self).cfg(),
            final(self).model() == ready_state(
                old(self).model(),
                old(self).cfg(),
                epoch_id,
                leader_id@,
                reachable_voters,
                answer_models(answers@),
                now,
            ),
    {
        proof {
            use_type_invariant(&*self);
        }
        let voters: usize = self.config.peers.len() + 1;
        self.state.summary.state = ServiceState::Ready;
        self.state.summary.epoch_id = epoch_id;
        self.state.summary.leader_id = leader_id.clone();
        self.state.summary.voter_count = voters;
        self.state.summary.reachable_voters = reachable_voters;
        self.state.summary.quorum = voters / 2 + 1;
        self.state.summary.fenced_reason = None;
        let epoch = ClusterEpoch {
            epoch_id,
            leader_id,
            committed_at_unix_secs: now,
            voter_count: voters,
            reachable_voters,
        };
        let mut epochs = status::clone_epochs(&self.state.epochs);
        set_epoch(&mut epochs, epoch.clone());
        self.state.epochs = epochs;
        self.state.topology.epoch = epoch;
        let nodes = build_nodes(&self.config, ServiceState::Ready, answers, now);
        self.state.topology.nodes = nodes;
    }

    fn mark_fenced(
        &mut self,
        epoch_id: u64,
        leader_id: String,
        reachable_voters: usize,
        reason: Option<String>,
        now: u64,
    )
        ensures
            final(self).cfg() == old(self).cfg(),
            final(self).model() == fenced_state(
                old(self).model(),
                old(self).cfg(),
                epoch_id,
                leader_id@,
                reachable_voters,
                storage::opt_view(reason),
                now,
            ),
    {
        proof {
            use_type_invariant(&*self);
        }
        let voters: usize = self.config.peers.len() + 1;
        self.state.summary.state = ServiceState::Fenced;
        self.state.summary.epoch_id = epoch_id;
        self.state.summary.leader_id = leader_id;
        self.state.summary.voter_count = voters;
        self.state.summary.reachable_voters = reachable_voters;
        self.state.summary.quorum = voters / 2 + 1;
        self.state.summary.fenced_reason = reason;
        let none: Vec<(String, ClusterSummary)> = Vec::new();
        let nodes = build_nodes(&self.config, ServiceState::Fenced, none.as_slice(), now);
        assert(answer_models(none@) =~= Seq::<(Seq<char>, SummaryModel)>::empty());
        self.state.topology.nodes = nodes;
    }
}

fn refresh_local_identity(config: &ClusterConfig, state: &mut PersistedClusterState)
    ensures
        final(state)@ == with_identity(old(state)@, config@),
{
    let cluster_id = cluster_id_for(config.node_id.as_str(), config.peers.as_slice());
    state.summary.node_id = config.node_id.clone();
    state.summary.cluster_id = cluster_id.clone();
    state.summary.peer_count = config.peers.len();
    state.topology.cluster_id = cluster_id;
    state.topology.disks = list_disks(config);
}

/// Where a peer is asked for its state.
pub fn status_url(peer: &str) -> (r: String)
    ensures
        r@ == text::without_trailing(peer@, '/') + "/_admin/cluster/status"@,
{
    let mut out = text::trim_end_char(peer, '/').to_owned();
    out.append("/_admin/cluster/status");
    out
}

/// The header that carries the cluster secret.
pub fn cluster_probe_header() -> (r: &'static str)
    ensures
        r@ == "x-abixio-cluster-secret"@,
{
    "x-abixio-cluster-secret"
}

// --------------------------------------------------------------------- laws

/// After the peers were asked, a node serves requests exactly where a majority of the
/// voters was reachable. It names a reason exactly where it is fenced.
pub proof fn law_ready_with_majority_only(
    s: StateModel,
    c: ConfigModel,
    leader: Seq<char>,
    answers: Seq<(Seq<char>, SummaryModel)>,
    now: u64,
)
    ensures
        ({
            let t = refreshed_state(s, c, leader, answers, now).summary;
            let enough = answers.len() + 1 >= majority(c.peers.len() as int + 1);
            &&& t.state == ServiceState::Ready <==> enough
            &&& t.state == ServiceState::Fenced <==> !enough
            &&& t.fenced_reason is None <==> enough
        }),
{
}

/// A node without peers starts ready; a node with peers and no stored state starts
/// blocked.
pub proof fn law_start(c: ConfigModel, now: u64)
    ensures
        c.peers.len() == 0 ==> start_state(c, None, now).summary.state == ServiceState::Ready,
        c.peers.len() > 0 ==> start_state(c, None, now).summary.state
            == ServiceState::SyncingEpoch,
{
}

/// A fence survives a restart: a node of the same cluster that has peers starts with the
/// state that was stored.
pub proof fn law_fence_survives_restart(c: ConfigModel, stored: StateModel, now: u64)
    requires
        c.peers.len() > 0,
        stored.summary.cluster_id == cluster_name(c.node_id, c.peers),
    ensures
        start_state(c, Some(stored), now).summary.state == stored.summary.state,
        start_state(c, Some(stored), now).summary.fenced_reason == stored.summary.fenced_reason,
{
}

} // verus!
