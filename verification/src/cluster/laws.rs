//! What holds of the state of a cluster and of its fixed topology.

use vstd::prelude::*;
use vstd::string::*;
use vstd::utf8::*;

use super::manager;
use super::manager::ConfigModel;
use super::placement::PlacementVolume;
use super::status::{
    ClusterEpoch, ClusterNodeStatus, ClusterVolumeStatus, DiskModel, EpochModel, NodeModel,
    PersistedClusterState, ServiceState, StateModel, SummaryModel,
};
use super::topology;
use super::topology::{Complaint, StaticTopology, TopologyNode, TopologyVolume};
use crate::digest;
use crate::order;
use crate::text;
use crate::text_laws;

verus! {

// -------------------------------------------------------------------- models

/// The model of a state tells all that the state tells.
pub proof fn law_model_tells_all(s: PersistedClusterState, i: int, j: int, k: int)
    requires
        0 <= i < s.topology.nodes@.len(),
        0 <= j < s.topology.disks@.len(),
        0 <= k < s.epochs@.len(),
    ensures
        s@.summary.enabled == s.summary.enabled,
        s@.summary.cluster_id == s.summary.cluster_id@,
        s@.summary.node_id == s.summary.node_id@,
        s@.summary.state == s.summary.state,
        s@.summary.epoch_id == s.summary.epoch_id,
        s@.summary.leader_id == s.summary.leader_id@,
        s@.summary.peer_count == s.summary.peer_count,
        s@.summary.voter_count == s.summary.voter_count,
        s@.summary.reachable_voters == s.summary.reachable_voters,
        s@.summary.quorum == s.summary.quorum,
        s@.summary.fenced_reason is Some <==> s.summary.fenced_reason is Some,
        s.summary.fenced_reason is Some ==> s@.summary.fenced_reason->0
            == s.summary.fenced_reason->0@,
        s@.topology.cluster_id == s.topology.cluster_id@,
        s@.topology.nodes.len() == s.topology.nodes@.len(),
        s@.topology.disks.len() == s.topology.disks@.len(),
        s@.epochs.len() == s.epochs@.len(),
        tells_node(s@.topology.nodes[i], s.topology.nodes@[i]),
        s@.topology.disks[j].disk_id == s.topology.disks@[j].disk_id@,
        s@.topology.disks[j].node_id == s.topology.disks@[j].node_id@,
        s@.topology.disks[j].path == s.topology.disks@[j].path@,
        tells_epoch(s@.topology.epoch, s.topology.epoch),
        tells_epoch(s@.epochs[k], s.epochs@[k]),
{
}

/// The model of a node tells all of it.
pub open spec fn tells_node(m: NodeModel, n: ClusterNodeStatus) -> bool {
    &&& m.node_id == n.node_id@
    &&& m.advertise_s3 == n.advertise_s3@
    &&& m.advertise_cluster == n.advertise_cluster@
    &&& m.state == n.state
    &&& m.voter == n.voter
    &&& m.reachable == n.reachable
    &&& m.total_disks == n.total_disks
    &&& m.last_heartbeat == n.last_heartbeat_unix_secs
}

/// The model of an epoch tells all of it.
pub open spec fn tells_epoch(m: EpochModel, e: ClusterEpoch) -> bool {
    &&& m.epoch_id == e.epoch_id
    &&& m.leader_id == e.leader_id@
    &&& m.committed_at == e.committed_at_unix_secs
    &&& m.voter_count == e.voter_count
    &&& m.reachable_voters == e.reachable_voters
}

// ----------------------------------------------------------------- addresses

/// Nothing but slashes.
pub open spec fn slashes(s: Seq<char>) -> bool {
    forall|i: int| 0 <= i < s.len() ==> #[trigger] s[i] == '/'
}

/// Slashes behind a text are cut off.
pub proof fn lemma_slashes(s: Seq<char>, tail: Seq<char>)
    requires
        slashes(tail),
        s.len() > 0,
        s[s.len() - 1] != '/',
    ensures
        text::without_trailing(s + tail, '/') == s,
    decreases tail.len(),
{
    if tail.len() == 0 {
        assert(s + tail =~= s);
        assert(s.last() == s[s.len() - 1]);
    } else {
        let t = tail.drop_last();
        assert(tail[tail.len() - 1] == '/');
        assert forall|i: int| 0 <= i < t.len() implies #[trigger] t[i] == '/' by {
            assert(t[i] == tail[i]);
        }
        assert((s + tail).drop_last() =~= s + t);
        assert((s + tail).last() == '/');
        lemma_slashes(s, t);
    }
}

/// An address is freed of the blanks around it and of the slashes behind it, and gets a scheme
/// where it has none.
pub proof fn law_address_gets_a_scheme(
    before: Seq<char>,
    host: Seq<char>,
    tail: Seq<char>,
    after: Seq<char>,
)
    requires
        text_laws::blank(before),
        text_laws::blank(after),
        slashes(tail),
        host.len() > 0,
        '!' <= host[0] <= '~',
        '!' <= host[host.len() - 1] <= '~',
        host[host.len() - 1] != '/',
    ensures
        text::has_prefix(host, "http://"@) || text::has_prefix(host, "https://"@)
            ==> manager::endpoint(before + (host + tail) + after) == host,
        !text::has_prefix(host, "http://"@) && !text::has_prefix(host, "https://"@)
            ==> manager::endpoint(before + (host + tail) + after) == "http://"@ + host,
{
    let s = host + tail;
    assert(s[0] == host[0]);
    if tail.len() > 0 {
        assert(s[s.len() - 1] == tail[tail.len() - 1]);
    } else {
        assert(s =~= host);
    }
    assert(text_laws::tight(s));
    text_laws::law_blanks_are_cut_off(before, s, after);
    lemma_slashes(host, tail);
}

/// A node goes by its own id, freed of the blanks around it, and by `local` where nothing is
/// left of it.
pub proof fn law_node_keeps_its_id(before: Seq<char>, id: Seq<char>, after: Seq<char>)
    requires
        text_laws::blank(before),
        text_laws::blank(after),
        text_laws::tight(id),
    ensures
        id.len() > 0 ==> manager::clean_id(before + id + after) == id,
        id.len() == 0 ==> manager::clean_id(before + id + after) == "local"@,
{
    text_laws::law_blanks_are_cut_off(before, id, after);
}

/// Every peer is kept under its address, nobody else is, and the order is that of the list.
pub proof fn law_every_peer_is_kept(peers: Seq<Seq<char>>, n: nat, i: int, j: int)
    requires
        n <= peers.len(),
        0 <= i < n,
    ensures
        manager::endpoints(peers, n).contains(manager::endpoint(peers[i])),
        0 <= j < manager::endpoints(peers, n).len() ==> exists|k: int|
            0 <= k < n && manager::endpoint(#[trigger] peers[k]) == manager::endpoints(
                peers,
                n,
            )[j],
        0 <= j < manager::endpoints(peers, (n - 1) as nat).len() ==> manager::endpoints(
            peers,
            n,
        )[j] == manager::endpoints(peers, (n - 1) as nat)[j],
    decreases n,
{
    let before = manager::endpoints(peers, (n - 1) as nat);
    let all = manager::endpoints(peers, n);
    let e = manager::endpoint(peers[n - 1]);
    if i < n - 1 {
        law_every_peer_is_kept(peers, (n - 1) as nat, i, j);
        let x = manager::endpoint(peers[i]);
        let k = choose|k: int| 0 <= k < before.len() && before[k] == x;
        assert(all[k] == x);
    } else if !before.contains(e) {
        assert(all[all.len() - 1] == e);
    }
    if 0 <= j < all.len() {
        lemma_peer(peers, n, j);
    }
}

proof fn lemma_peer(peers: Seq<Seq<char>>, n: nat, j: int)
    requires
        n <= peers.len(),
        0 <= j < manager::endpoints(peers, n).len(),
    ensures
        exists|k: int|
            0 <= k < n && manager::endpoint(#[trigger] peers[k]) == manager::endpoints(
                peers,
                n,
            )[j],
    decreases n,
{
    let before = manager::endpoints(peers, (n - 1) as nat);
    if j < before.len() {
        lemma_peer(peers, (n - 1) as nat, j);
        let k = choose|k: int|
            0 <= k < n - 1 && manager::endpoint(#[trigger] peers[k]) == before[j];
        assert(manager::endpoint(peers[k]) == manager::endpoints(peers, n)[j]);
    } else {
        assert(manager::endpoint(peers[n - 1]) == manager::endpoints(peers, n)[j]);
    }
}

/// The name of a cluster is made of the node's id and the address of every peer, that of a disk
/// of the node's id and the path.
pub proof fn law_names_are_made_of_their_parts(node: Seq<char>, a: Seq<char>, b: Seq<char>)
    ensures
        manager::cluster_name(node, seq![a, b]) == "abixio-"@ + digest::hex_chars(
            digest::sha256_digest(encode_utf8(node) + encode_utf8(a) + encode_utf8(b)).take(8),
        ),
        manager::cluster_name(node, Seq::empty()) == "abixio-"@ + digest::hex_chars(
            digest::sha256_digest(encode_utf8(node)).take(8),
        ),
        manager::disk_name(node, a) == "disk-"@ + digest::hex_chars(
            digest::sha256_digest(encode_utf8(node) + encode_utf8(a)).take(8),
        ),
{
    let p = seq![a, b];
    let none = Seq::<u8>::empty();
    assert(digest::joined_bytes(p, none, 0) =~= none);
    assert(digest::joined_bytes(p, none, 1) =~= encode_utf8(a));
    assert(digest::joined_bytes(p, none, 2) =~= encode_utf8(a) + encode_utf8(b));
    assert(encode_utf8(node) + (encode_utf8(a) + encode_utf8(b)) =~= encode_utf8(node)
        + encode_utf8(a) + encode_utf8(b));
    assert(digest::joined_bytes(Seq::<Seq<char>>::empty(), none, 0) =~= none);
    assert(encode_utf8(node) + none =~= encode_utf8(node));
}

// --------------------------------------------------------------------- nodes

/// A majority is the least number of voters that is more than half of them.
pub proof fn law_majority_is_more_than_half(voters: int, n: int)
    requires
        voters >= 0,
    ensures
        n >= manager::majority(voters) <==> 2 * n > voters,
{
}

/// The answer of a peer is the first that came from its address.
pub proof fn law_first_answer_counts(
    answers: Seq<(Seq<char>, SummaryModel)>,
    peer: Seq<char>,
    i: int,
)
    requires
        0 <= i <= answers.len(),
        forall|j: int| 0 <= j < i ==> (#[trigger] answers[j]).0 != peer,
    ensures
        i < answers.len() && answers[i].0 == peer ==> manager::answer_from(answers, peer) == Some(
            answers[i].1,
        ),
        i == answers.len() ==> manager::answer_from(answers, peer) is None,
    decreases answers.len(),
{
    if i > 0 {
        assert(answers[0].0 != peer);
        let rest = answers.drop_first();
        assert forall|j: int| 0 <= j < i - 1 implies (#[trigger] rest[j]).0 != peer by {
            assert(rest[j] == answers[j + 1]);
        }
        law_first_answer_counts(rest, peer, i - 1);
    }
}

/// The nodes are this one, as configured, and every peer: one that answered is reachable, and
/// goes by the id and the state of its answer; one that did not is not, and is joining.
pub proof fn law_every_node_is_told(
    c: ConfigModel,
    state: ServiceState,
    answers: Seq<(Seq<char>, SummaryModel)>,
    now: u64,
    i: int,
)
    requires
        0 <= i < c.peers.len(),
        c.disk_paths.len() <= usize::MAX,
    ensures
        ({
            let all = manager::all_nodes(c, state, answers, now);
            let peer = all[i + 1];
            let a = manager::answer_from(answers, c.peers[i]);
            &&& all.len() == c.peers.len() + 1
            &&& all[0].node_id == c.node_id
            &&& all[0].advertise_s3 == c.advertise_s3
            &&& all[0].advertise_cluster == c.advertise_cluster
            &&& all[0].state == state
            &&& all[0].voter && all[0].reachable
            &&& all[0].total_disks == c.disk_paths.len()
            &&& all[0].last_heartbeat == now
            &&& peer.advertise_cluster == c.peers[i]
            &&& peer.voter
            &&& peer.reachable <==> a is Some
            &&& a is Some ==> peer.node_id == a->0.node_id && peer.state == a->0.state
            &&& a is Some ==> peer.advertise_s3 == a->0.node_id
            &&& a is None ==> peer.node_id == c.peers[i] && peer.state == ServiceState::Joining
            &&& a is None ==> peer.advertise_s3.len() == 0
            &&& peer.total_disks == 0
            &&& peer.last_heartbeat == now
        }),
{
}

/// The disks of a node are told by their paths, one for one.
pub proof fn law_every_disk_is_told(c: ConfigModel, i: int)
    requires
        0 <= i < c.disk_paths.len(),
    ensures
        manager::disks_of(c).len() == c.disk_paths.len(),
        manager::disks_of(c)[i].path == c.disk_paths[i],
        manager::disks_of(c)[i].node_id == c.node_id,
        manager::disks_of(c)[i].disk_id == manager::disk_name(c.node_id, c.disk_paths[i]),
{
}

// --------------------------------------------------------------------- state

/// A state that begins is one of a cluster of this node and its peers, of which only this node
/// is known to be reachable; it needs more than half of them.
pub proof fn law_first_state_counts_the_voters(c: ConfigModel, cluster_id: Seq<char>, now: u64)
    requires
        c.peers.len() < usize::MAX,
    ensures
        ({
            let s = manager::first_state(c, cluster_id, now);
            &&& s.summary.enabled <==> c.peers.len() > 0
            &&& s.summary.cluster_id == cluster_id && s.topology.cluster_id == cluster_id
            &&& s.summary.node_id == c.node_id && s.summary.leader_id == c.node_id
            &&& s.summary.voter_count == c.peers.len() + 1
            &&& s.summary.peer_count == c.peers.len()
            &&& s.summary.reachable_voters == 1
            &&& 2 * s.summary.quorum > s.summary.voter_count
            &&& 2 * (s.summary.quorum - 1) <= s.summary.voter_count
            &&& s.summary.epoch_id == 1 && s.topology.epoch.epoch_id == 1
            &&& s.topology.epoch.committed_at == now
            &&& s.summary.fenced_reason is None
            &&& s.epochs.len() == 1 && s.epochs[0] == s.topology.epoch
            &&& s.topology.nodes.len() == 1 && s.topology.nodes[0].node_id == c.node_id
            &&& s.topology.nodes[0].state == s.summary.state
            &&& s.topology.disks == manager::disks_of(c)
        }),
{
}

/// After the peers were asked, the state counts this node and those that answered, and tells
/// the leader, every node, and the epoch; what is not asked for stays.
pub proof fn law_refreshed_state_counts_the_answers(
    s: StateModel,
    c: ConfigModel,
    leader: Seq<char>,
    answers: Seq<(Seq<char>, SummaryModel)>,
    now: u64,
)
    requires
        c.peers.len() < usize::MAX,
        answers.len() < usize::MAX,
    ensures
        ({
            let t = manager::refreshed_state(s, c, leader, answers, now);
            let enough = 2 * (answers.len() + 1) > c.peers.len() + 1;
            &&& t.summary.state == (if enough {
                ServiceState::Ready
            } else {
                ServiceState::Fenced
            })
            &&& t.summary.reachable_voters == answers.len() + 1
            &&& t.summary.voter_count == c.peers.len() + 1
            &&& 2 * t.summary.quorum > t.summary.voter_count
            &&& 2 * (t.summary.quorum - 1) <= t.summary.voter_count
            &&& t.summary.leader_id == leader
            &&& t.summary.epoch_id == 1
            &&& t.summary.cluster_id == s.summary.cluster_id
            &&& t.summary.node_id == s.summary.node_id
            &&& t.summary.enabled == s.summary.enabled
            &&& t.summary.peer_count == s.summary.peer_count
            &&& t.topology.disks == s.topology.disks
            &&& t.topology.cluster_id == s.topology.cluster_id
            &&& enough ==> t.summary.fenced_reason is None && t.topology.nodes
                == manager::all_nodes(c, ServiceState::Ready, answers, now)
                && t.topology.epoch.leader_id == leader && t.topology.epoch.committed_at == now
                && t.topology.epoch.voter_count == c.peers.len() + 1
                && t.topology.epoch.reachable_voters == answers.len() + 1 && t.epochs.len() > 0
                && t.epochs[0] == t.topology.epoch
            &&& !enough ==> t.summary.fenced_reason == Some(
                "cluster quorum lost: reachable_voters="@ + text::decimal(answers.len() + 1)
                    + " quorum="@ + text::decimal(t.summary.quorum as nat),
            ) && t.topology.nodes == manager::all_nodes(
                c,
                ServiceState::Fenced,
                Seq::empty(),
                now,
            ) && t.epochs == s.epochs && t.topology.epoch == s.topology.epoch
        }),
{
}

/// The present epoch takes the place of the one before; older ones stay.
pub proof fn law_present_epoch_stands_first(epochs: Seq<EpochModel>, e: EpochModel, i: int)
    ensures
        manager::with_epoch(epochs, e)[0] == e,
        0 < i < epochs.len() ==> manager::with_epoch(epochs, e)[i] == epochs[i],
        epochs.len() > 0 ==> manager::with_epoch(epochs, e).len() == epochs.len(),
        epochs.len() == 0 ==> manager::with_epoch(epochs, e).len() == 1,
{
}

/// Only the state of the first node with the id is set; nothing else changes.
pub proof fn law_state_of_one_node_is_set(
    nodes: Seq<NodeModel>,
    node_id: Seq<char>,
    state: ServiceState,
    p: int,
    i: int,
)
    requires
        0 <= p < nodes.len(),
        nodes[p].node_id == node_id,
        forall|j: int| 0 <= j < p ==> (#[trigger] nodes[j]).node_id != node_id,
        0 <= i < nodes.len(),
    ensures
        ({
            let t = manager::with_state_of(nodes, node_id, state);
            &&& t.len() == nodes.len()
            &&& i != p ==> t[i] == nodes[i]
            &&& t[p].state == state
            &&& t[p].node_id == nodes[p].node_id
            &&& t[p].advertise_s3 == nodes[p].advertise_s3
            &&& t[p].advertise_cluster == nodes[p].advertise_cluster
            &&& t[p].voter == nodes[p].voter
            &&& t[p].reachable == nodes[p].reachable
            &&& t[p].total_disks == nodes[p].total_disks
            &&& t[p].last_heartbeat == nodes[p].last_heartbeat
        }),
    decreases nodes.len(),
{
    let rest = nodes.drop_first();
    if p > 0 {
        assert(nodes[0].node_id != node_id);
        assert forall|j: int| 0 <= j < p - 1 implies (#[trigger] rest[j]).node_id != node_id by {
            assert(rest[j] == nodes[j + 1]);
        }
        law_state_of_one_node_is_set(rest, node_id, state, p - 1, if i > 0 {
            i - 1
        } else {
            0
        });
    }
}

/// Voters are counted one by one: each that may vote counts, and each of those that is reachable
/// counts as reachable.
pub proof fn law_voters_are_counted(nodes: Seq<NodeModel>, n: nat)
    requires
        n <= nodes.len(),
    ensures
        manager::voters_among(nodes, n) == nodes.take(n as int).filter(
            |x: NodeModel| x.voter,
        ).len(),
        manager::reachable_among(nodes, n) == nodes.take(n as int).filter(
            |x: NodeModel| x.voter && x.reachable,
        ).len(),
    decreases n,
{
    reveal(Seq::filter);
    if n > 0 {
        law_voters_are_counted(nodes, (n - 1) as nat);
        assert(nodes.take(n as int).drop_last() =~= nodes.take(n - 1));
        assert(nodes.take(n as int).last() == nodes[n - 1]);
    }
}

/// An installed topology is taken as it is; the node is ready exactly where more than half of
/// the voters in it are reachable.
pub proof fn law_installed_topology_is_taken(
    s: StateModel,
    epoch_id: u64,
    leader_id: Seq<char>,
    nodes: Seq<NodeModel>,
    disks: Seq<DiskModel>,
    now: u64,
)
    requires
        0 < manager::reachable_among(nodes, nodes.len()),
        0 < manager::voters_among(nodes, nodes.len()) <= usize::MAX,
        manager::reachable_among(nodes, nodes.len()) <= usize::MAX,
        0 < nodes.len() <= usize::MAX,
    ensures
        ({
            let t = manager::installed_state(s, epoch_id, leader_id, nodes, disks, now);
            let voters = manager::voters_among(nodes, nodes.len());
            let reachable = manager::reachable_among(nodes, nodes.len());
            &&& t.summary.state == (if 2 * reachable > voters {
                ServiceState::Ready
            } else {
                ServiceState::Fenced
            })
            &&& t.summary.fenced_reason is None <==> 2 * reachable > voters
            &&& t.summary.voter_count == voters
            &&& t.summary.reachable_voters == reachable
            &&& t.summary.peer_count == nodes.len() - 1
            &&& t.summary.epoch_id == epoch_id && t.summary.leader_id == leader_id
            &&& t.summary.node_id == s.summary.node_id
            &&& t.summary.cluster_id == s.summary.cluster_id
            &&& t.topology.cluster_id == s.summary.cluster_id
            &&& t.topology.nodes == nodes
            &&& t.topology.disks == disks
            &&& t.topology.epoch.epoch_id == epoch_id
            &&& t.topology.epoch.leader_id == leader_id
            &&& t.topology.epoch.committed_at == now
            &&& t.topology.epoch.voter_count == voters
            &&& t.topology.epoch.reachable_voters == reachable
            &&& t.epochs[0] == t.topology.epoch
        }),
{
}

/// A configuration is brought into its normal form field by field; secret and disks stay.
pub proof fn law_configuration_is_normal(c: ConfigModel)
    ensures
        ({
            let n = manager::normal_config(c);
            &&& n.node_id == manager::clean_id(c.node_id)
            &&& n.advertise_s3 == manager::endpoint(c.advertise_s3)
            &&& n.advertise_cluster == manager::endpoint(c.advertise_cluster)
            &&& n.peers == manager::endpoints(c.peers, c.peers.len())
            &&& n.cluster_secret == c.cluster_secret
            &&& n.disk_paths == c.disk_paths
        }),
{
}

/// A stored state is taken up only by a node of the same cluster, and then as it was stored, but
/// for what the configuration says.
pub proof fn law_stored_state_is_taken_up(c: ConfigModel, stored: StateModel, now: u64)
    requires
        0 < c.peers.len() < usize::MAX,
    ensures
        ({
            let t = manager::start_state(c, Some(stored), now);
            let own = manager::cluster_name(c.node_id, c.peers);
            &&& t.summary.node_id == c.node_id
            &&& t.summary.cluster_id == own && t.topology.cluster_id == own
            &&& t.summary.peer_count == c.peers.len()
            &&& t.topology.disks == manager::disks_of(c)
            &&& stored.summary.cluster_id == own ==> t.summary.epoch_id == stored.summary.epoch_id
                && t.summary.leader_id == stored.summary.leader_id && t.summary.voter_count
                == stored.summary.voter_count && t.topology.nodes == stored.topology.nodes
                && t.topology.epoch == stored.topology.epoch && t.epochs == stored.epochs
            &&& stored.summary.cluster_id != own ==> t.summary.state
                == ServiceState::SyncingEpoch && t.summary.leader_id == c.node_id
                && t.summary.epoch_id == 1 && t.epochs.len() == 1
        }),
{
}

// ------------------------------------------------------------------ topology

/// A volume in a topology.
pub open spec fn is_volume(nodes: Seq<TopologyNode>, i: int, k: int) -> bool {
    0 <= i < nodes.len() && 0 <= k < nodes[i].volumes@.len()
}

/// Some volume of the first `n` nodes has the id.
pub open spec fn has_id(nodes: Seq<TopologyNode>, n: int, id: Seq<char>) -> bool {
    exists|i: int, k: int|
        i < n && #[trigger] is_volume(nodes, i, k) && nodes[i].volumes@[k].volume_id@ == id
}

/// Some volume of the first `n` nodes has the path.
pub open spec fn has_path(nodes: Seq<TopologyNode>, n: int, path: Seq<char>) -> bool {
    exists|i: int, k: int|
        i < n && #[trigger] is_volume(nodes, i, k) && topology::normal_path(
            nodes[i].volumes@[k].path@,
        ) == path
}

proof fn lemma_all_ids(nodes: Seq<TopologyNode>, n: nat, x: Seq<char>)
    requires
        n <= nodes.len(),
    ensures
        topology::all_ids(nodes, n).contains(x) <==> has_id(nodes, n as int, x),
        topology::all_paths(nodes, n).contains(x) <==> has_path(nodes, n as int, x),
    decreases n,
{
    if n > 0 {
        let m = (n - 1) as nat;
        lemma_all_ids(nodes, m, x);
        let v = nodes[m as int].volumes@;
        let ids = topology::volume_ids(v, v.len());
        let paths = topology::volume_paths(v, v.len());
        let a = topology::all_ids(nodes, m);
        let b = topology::all_paths(nodes, m);
        let all = topology::all_ids(nodes, n);
        let allp = topology::all_paths(nodes, n);
        if all.contains(x) {
            let j = choose|j: int| 0 <= j < all.len() && all[j] == x;
            if j < a.len() {
                assert(a[j] == x);
            } else {
                assert(is_volume(nodes, m as int, j - a.len()));
            }
        }
        if has_id(nodes, n as int, x) {
            let (i, k) = choose|i: int, k: int|
                i < n && #[trigger] is_volume(nodes, i, k) && nodes[i].volumes@[k].volume_id@ == x;
            if i < m {
                assert(has_id(nodes, m as int, x));
                let j = choose|j: int| 0 <= j < a.len() && a[j] == x;
                assert(all[j] == x);
            } else {
                assert(all[a.len() as int + k] == x);
            }
        }
        if allp.contains(x) {
            let j = choose|j: int| 0 <= j < allp.len() && allp[j] == x;
            if j < b.len() {
                assert(b[j] == x);
            } else {
                assert(is_volume(nodes, m as int, j - b.len()));
            }
        }
        if has_path(nodes, n as int, x) {
            let (i, k) = choose|i: int, k: int|
                i < n && #[trigger] is_volume(nodes, i, k) && topology::normal_path(
                    nodes[i].volumes@[k].path@,
                ) == x;
            if i < m {
                assert(has_path(nodes, m as int, x));
                let j = choose|j: int| 0 <= j < b.len() && b[j] == x;
                assert(allp[j] == x);
            } else {
                assert(allp[b.len() as int + k] == x);
            }
        }
    }
}

/// The complaint about volumes is a true one: what it names is blank, or was there before.
proof fn lemma_volume_fault(
    v: Seq<TopologyVolume>,
    k: int,
    ids: Seq<Seq<char>>,
    paths: Seq<Seq<char>>,
) -> (m: int)
    requires
        0 <= k <= v.len(),
        topology::volumes_complaint(v, k, ids, paths) is Some,
    ensures
        k <= m < v.len(),
        ({
            let c = topology::volumes_complaint(v, k, ids, paths)->0;
            ||| c == Complaint::EmptyVolumeId && topology::blank(v[m].volume_id@)
            ||| c == Complaint::DuplicateVolume(v[m].volume_id@) && (ids.contains(v[m].volume_id@)
                || exists|j: int| k <= j < m && (#[trigger] v[j]).volume_id@ == v[m].volume_id@)
            ||| c == Complaint::DuplicatePath(topology::normal_path(v[m].path@)) && (
            paths.contains(topology::normal_path(v[m].path@)) || exists|j: int|
                k <= j < m && topology::normal_path((#[trigger] v[j]).path@)
                    == topology::normal_path(v[m].path@))
        }),
    decreases v.len() - k,
{
    let id = v[k].volume_id@;
    let path = topology::normal_path(v[k].path@);
    if topology::blank(id) || ids.contains(id) || paths.contains(path) {
        k
    } else {
        let m = lemma_volume_fault(v, k + 1, ids.push(id), paths.push(path));
        let x = v[m].volume_id@;
        let y = topology::normal_path(v[m].path@);
        if ids.push(id).contains(x) && !ids.contains(x) {
            let j = choose|j: int| 0 <= j < ids.push(id).len() && ids.push(id)[j] == x;
            if j < ids.len() {
                assert(ids[j] == x);
            }
            assert(v[k].volume_id@ == x);
        }
        if paths.push(path).contains(y) && !paths.contains(y) {
            let j = choose|j: int| 0 <= j < paths.push(path).len() && paths.push(path)[j] == y;
            if j < paths.len() {
                assert(paths[j] == y);
            }
            assert(topology::normal_path(v[k].path@) == y);
        }
        m
    }
}

/// Two volumes of a topology, at different places, have this id.
pub open spec fn id_twice(nodes: Seq<TopologyNode>, id: Seq<char>) -> bool {
    exists|i: int, k: int, j: int, l: int|
        (i != j || k != l) && #[trigger] is_volume(nodes, i, k) && #[trigger] is_volume(
            nodes,
            j,
            l,
        ) && nodes[i].volumes@[k].volume_id@ == id && nodes[j].volumes@[l].volume_id@ == id
}

/// Two volumes of a topology, at different places, have this path.
pub open spec fn path_twice(nodes: Seq<TopologyNode>, path: Seq<char>) -> bool {
    exists|i: int, k: int, j: int, l: int|
        (i != j || k != l) && #[trigger] is_volume(nodes, i, k) && #[trigger] is_volume(
            nodes,
            j,
            l,
        ) && topology::normal_path(nodes[i].volumes@[k].path@) == path && topology::normal_path(
            nodes[j].volumes@[l].path@,
        ) == path
}

/// Two nodes of a topology have this id.
pub open spec fn node_twice(nodes: Seq<TopologyNode>, id: Seq<char>) -> bool {
    exists|i: int, j: int|
        0 <= i < j < nodes.len() && (#[trigger] nodes[i]).node_id@ == id && (
        #[trigger] nodes[j]).node_id@ == id
}

/// What a complaint says is so.
pub open spec fn is_true_of(c: Complaint, t: StaticTopology) -> bool {
    let nodes = t.nodes@;
    match c {
        Complaint::EmptyClusterId => topology::blank(t.cluster_id@),
        Complaint::ZeroEpoch => t.epoch_id == 0,
        Complaint::EmptyPoolId => topology::blank(t.pool_id@),
        Complaint::NoNodes => nodes.len() == 0,
        Complaint::EmptyNodeId => exists|i: int|
            0 <= i < nodes.len() && topology::blank((#[trigger] nodes[i]).node_id@),
        Complaint::DuplicateNode(x) => node_twice(nodes, x),
        Complaint::NoDisks(x) => exists|i: int|
            0 <= i < nodes.len() && (#[trigger] nodes[i]).node_id@ == x && nodes[i].volumes@.len()
                == 0,
        Complaint::EmptyVolumeId => exists|i: int, k: int| #[trigger]
            is_volume(nodes, i, k) && topology::blank(nodes[i].volumes@[k].volume_id@),
        Complaint::DuplicateVolume(x) => id_twice(nodes, x),
        Complaint::DuplicatePath(x) => path_twice(nodes, x),
        _ => false,
    }
}

proof fn lemma_node_fault(t: StaticTopology, i: int)
    requires
        0 <= i <= t.nodes@.len(),
        topology::nodes_complaint(t.nodes@, i) is Some,
    ensures
        is_true_of(topology::nodes_complaint(t.nodes@, i)->0, t),
    decreases t.nodes@.len() - i,
{
    let nodes = t.nodes@;
    let names = topology::node_names(nodes, i as nat);
    let id = nodes[i].node_id@;
    let v = nodes[i].volumes@;
    let ids = topology::all_ids(nodes, i as nat);
    let paths = topology::all_paths(nodes, i as nat);
    if topology::blank(id) {
    } else if names.contains(id) {
        let j = choose|j: int| 0 <= j < names.len() && names[j] == id;
        assert(nodes[j].node_id@ == id && nodes[i].node_id@ == id);
        assert(node_twice(nodes, id));
    } else if v.len() == 0 {
        assert(nodes[i].volumes@.len() == 0);
    } else if topology::volumes_complaint(v, 0, ids, paths) is Some {
        let m = lemma_volume_fault(v, 0, ids, paths);
        let x = v[m].volume_id@;
        let y = topology::normal_path(v[m].path@);
        lemma_all_ids(nodes, i as nat, x);
        lemma_all_ids(nodes, i as nat, y);
        assert(is_volume(nodes, i, m));
        let c = topology::volumes_complaint(v, 0, ids, paths)->0;
        if c is DuplicateVolume {
            if ids.contains(x) {
                let (a, b) = choose|a: int, b: int|
                    a < i && #[trigger] is_volume(nodes, a, b) && nodes[a].volumes@[b].volume_id@
                        == x;
                assert(is_volume(nodes, a, b) && is_volume(nodes, i, m));
            } else {
                let j = choose|j: int| 0 <= j < m && (#[trigger] v[j]).volume_id@ == x;
                assert(is_volume(nodes, i, j) && is_volume(nodes, i, m));
            }
            assert(id_twice(nodes, x));
        } else if c is DuplicatePath {
            if paths.contains(y) {
                let (a, b) = choose|a: int, b: int|
                    a < i && #[trigger] is_volume(nodes, a, b) && topology::normal_path(
                        nodes[a].volumes@[b].path@,
                    ) == y;
                assert(is_volume(nodes, a, b) && is_volume(nodes, i, m));
            } else {
                let j = choose|j: int|
                    0 <= j < m && topology::normal_path((#[trigger] v[j]).path@) == y;
                assert(is_volume(nodes, i, j) && is_volume(nodes, i, m));
            }
            assert(path_twice(nodes, y));
        }
    } else {
        lemma_node_fault(t, i + 1);
    }
}

/// A topology is refused only for something that is wrong with it, and the complaint says what.
pub proof fn law_complaint_is_true(t: StaticTopology)
    requires
        topology::complaint(t) is Some,
    ensures
        is_true_of(topology::complaint(t)->0, t),
{
    if !topology::blank(t.cluster_id@) && t.epoch_id != 0 && !topology::blank(t.pool_id@)
        && t.nodes@.len() > 0 {
        lemma_node_fault(t, 0);
    }
}

proof fn lemma_nodes_in_order(nodes: Seq<TopologyNode>, i: int, a: int)
    requires
        0 <= i <= a < nodes.len(),
        topology::nodes_complaint(nodes, i) is None,
    ensures
        !topology::blank(nodes[a].node_id@),
        nodes[a].volumes@.len() > 0,
        topology::volumes_complaint(
            nodes[a].volumes@,
            0,
            topology::all_ids(nodes, a as nat),
            topology::all_paths(nodes, a as nat),
        ) is None,
        !topology::node_names(nodes, a as nat).contains(nodes[a].node_id@),
    decreases a - i,
{
    if i < a {
        lemma_nodes_in_order(nodes, i + 1, a);
    }
}

proof fn lemma_volumes_in_order(
    v: Seq<TopologyVolume>,
    k: int,
    ids: Seq<Seq<char>>,
    paths: Seq<Seq<char>>,
    m: int,
)
    requires
        0 <= k <= m < v.len(),
        topology::volumes_complaint(v, k, ids, paths) is None,
    ensures
        !topology::blank(v[m].volume_id@),
        !ids.contains(v[m].volume_id@),
        !paths.contains(topology::normal_path(v[m].path@)),
        forall|j: int|
            k <= j < m ==> (#[trigger] v[j]).volume_id@ != v[m].volume_id@
                && topology::normal_path(v[j].path@) != topology::normal_path(v[m].path@),
    decreases m - k,
{
    if k < m {
        let a = ids.push(v[k].volume_id@);
        let b = paths.push(topology::normal_path(v[k].path@));
        lemma_volumes_in_order(v, k + 1, a, b, m);
        assert(a[ids.len() as int] == v[k].volume_id@);
        assert(b[paths.len() as int] == topology::normal_path(v[k].path@));
        if ids.contains(v[m].volume_id@) {
            let j = choose|j: int| 0 <= j < ids.len() && ids[j] == v[m].volume_id@;
            assert(a[j] == v[m].volume_id@);
        }
        let y = topology::normal_path(v[m].path@);
        if paths.contains(y) {
            let j = choose|j: int| 0 <= j < paths.len() && paths[j] == y;
            assert(b[j] == y);
        }
    }
}

/// A topology that is accepted has nothing wrong with it: no id is blank, every node has a
/// volume, and no node, no volume and no path is there twice.
pub proof fn law_accepted_topology_is_sound(t: StaticTopology, i: int, k: int, j: int, l: int)
    requires
        topology::complaint(t) is None,
        is_volume(t.nodes@, i, k),
        is_volume(t.nodes@, j, l),
        i < j || (i == j && k < l),
    ensures
        !topology::blank(t.cluster_id@),
        !topology::blank(t.pool_id@),
        t.epoch_id > 0,
        !topology::blank(t.nodes@[j].node_id@),
        i < j ==> t.nodes@[i].node_id@ != t.nodes@[j].node_id@,
        !topology::blank(t.nodes@[j].volumes@[l].volume_id@),
        t.nodes@[i].volumes@[k].volume_id@ != t.nodes@[j].volumes@[l].volume_id@,
        topology::normal_path(t.nodes@[i].volumes@[k].path@) != topology::normal_path(
            t.nodes@[j].volumes@[l].path@,
        ),
{
    let nodes = t.nodes@;
    lemma_nodes_in_order(nodes, 0, j);
    let ids = topology::all_ids(nodes, j as nat);
    let paths = topology::all_paths(nodes, j as nat);
    lemma_volumes_in_order(nodes[j].volumes@, 0, ids, paths, l);
    if i < j {
        let x = nodes[i].volumes@[k].volume_id@;
        let y = topology::normal_path(nodes[i].volumes@[k].path@);
        lemma_all_ids(nodes, j as nat, x);
        lemma_all_ids(nodes, j as nat, y);
        assert(is_volume(nodes, i, k));
        assert(has_id(nodes, j, x));
        assert(has_path(nodes, j, y));
        let names = topology::node_names(nodes, j as nat);
        assert(names[i] == nodes[i].node_id@);
    }
}

/// Every node of an accepted topology has a volume.
pub proof fn law_every_node_has_a_volume(t: StaticTopology, i: int)
    requires
        topology::complaint(t) is None,
        0 <= i < t.nodes@.len(),
    ensures
        t.nodes@[i].volumes@.len() > 0,
        !topology::blank(t.nodes@[i].node_id@),
{
    lemma_nodes_in_order(t.nodes@, 0, i);
}

/// Paths are compared letter by letter: a slash is a slash either way, and capital letters are
/// small ones.
pub proof fn law_paths_are_compared_loosely(p: Seq<char>, i: int)
    requires
        0 <= i < p.len(),
    ensures
        topology::normal_path(p).len() == p.len(),
        p[i] == '\\' || p[i] == '/' ==> topology::normal_path(p)[i] == '/',
        'a' <= p[i] <= 'z' || '0' <= p[i] <= '9' || p[i] == ':' || p[i] == '.'
            ==> topology::normal_path(p)[i] == p[i],
        'A' <= p[i] <= 'Z' ==> topology::normal_path(p)[i] == (p[i] as int + 32) as char,
{
}

/// The node with an id is the first that has it.
pub proof fn law_first_node_is_found(nodes: Seq<TopologyNode>, id: Seq<char>, i: int, p: int)
    requires
        0 <= i <= p <= nodes.len(),
        forall|j: int| i <= j < p ==> (#[trigger] nodes[j]).node_id@ != id,
    ensures
        p < nodes.len() && nodes[p].node_id@ == id ==> topology::node_at(nodes, id, i) == Some(p),
        p == nodes.len() ==> topology::node_at(nodes, id, i) is None,
    decreases p - i,
{
    if i < p {
        assert(nodes[i].node_id@ != id);
        law_first_node_is_found(nodes, id, i + 1, p);
    }
}

/// The peers of a node are all the other nodes, by their cluster addresses.
pub proof fn law_peers_are_the_other_nodes(nodes: Seq<TopologyNode>, id: Seq<char>, n: nat, i: int)
    requires
        0 <= i < n <= nodes.len(),
    ensures
        nodes[i].node_id@ != id ==> topology::peer_addresses(nodes, id, n).contains(
            nodes[i].advertise_cluster@,
        ),
        topology::peer_addresses(nodes, id, n).len() == nodes.take(n as int).filter(
            |x: TopologyNode| x.node_id@ != id,
        ).len(),
    decreases n,
{
    reveal(Seq::filter);
    let before = topology::peer_addresses(nodes, id, (n - 1) as nat);
    let all = topology::peer_addresses(nodes, id, n);
    assert(nodes.take(n as int).drop_last() =~= nodes.take(n - 1));
    assert(nodes.take(n as int).last() == nodes[n - 1]);
    if n > 1 {
        law_peers_are_the_other_nodes(nodes, id, (n - 1) as nat, if i < n - 1 {
            i
        } else {
            0
        });
    } else {
        assert(nodes.take(0).filter(|x: TopologyNode| x.node_id@ != id).len() == 0);
    }
    if nodes[i].node_id@ != id {
        if i < n - 1 {
            let a = nodes[i].advertise_cluster@;
            let j = choose|j: int| 0 <= j < before.len() && before[j] == a;
            assert(all[j] == a);
        } else {
            assert(all[all.len() - 1] == nodes[i].advertise_cluster@);
        }
    }
}

/// Where the volumes of the `i`-th node begin, when all are counted through.
pub open spec fn first_volume(nodes: Seq<TopologyNode>, i: nat) -> int
    decreases i,
{
    if i == 0 {
        0
    } else {
        first_volume(nodes, (i - 1) as nat) + nodes[i - 1].volumes@.len()
    }
}

proof fn lemma_flat(nodes: Seq<TopologyNode>, n: nat, i: int, k: int)
    requires
        n <= nodes.len(),
        i < n,
        is_volume(nodes, i, k),
    ensures
        topology::flat_volumes(nodes, n).len() == first_volume(nodes, n),
        first_volume(nodes, i as nat) + k < first_volume(nodes, n),
        topology::flat_volumes(nodes, n)[first_volume(nodes, i as nat) + k] == (
            nodes[i].node_id@,
            nodes[i].volumes@[k].volume_id@,
            nodes[i].volumes@[k].path@,
        ),
        first_volume(nodes, i as nat) >= 0,
    decreases n,
{
    lemma_flat_len(nodes, (n - 1) as nat);
    lemma_flat_len(nodes, i as nat);
    if i < n - 1 {
        lemma_flat(nodes, (n - 1) as nat, i, k);
    }
}

proof fn lemma_flat_len(nodes: Seq<TopologyNode>, n: nat)
    requires
        n <= nodes.len(),
    ensures
        topology::flat_volumes(nodes, n).len() == first_volume(nodes, n),
    decreases n,
{
    if n > 0 {
        lemma_flat_len(nodes, (n - 1) as nat);
    }
}

/// The volumes of a topology are counted through node by node; each is placed and reported under
/// its own id, with its own node and path.
pub proof fn law_every_volume_has_its_number(
    nodes: Seq<TopologyNode>,
    placed: Seq<PlacementVolume>,
    told: Seq<ClusterVolumeStatus>,
    i: int,
    k: int,
)
    requires
        topology::placed(placed, topology::flat_volumes(nodes, nodes.len())),
        topology::reported(told, topology::flat_volumes(nodes, nodes.len())),
        is_volume(nodes, i, k),
    ensures
        ({
            let m = first_volume(nodes, i as nat) + k;
            &&& 0 <= m < placed.len()
            &&& placed.len() == told.len()
            &&& placed[m].backend_index == m
            &&& placed[m].node_id@ == nodes[i].node_id@
            &&& placed[m].volume_id@ == nodes[i].volumes@[k].volume_id@
            &&& told[m].node_id@ == nodes[i].node_id@
            &&& told[m].volume_id@ == nodes[i].volumes@[k].volume_id@
            &&& told[m].path@ == nodes[i].volumes@[k].path@
        }),
{
    lemma_flat(nodes, nodes.len(), i, k);
    let m = first_volume(nodes, i as nat) + k;
    assert(placed[m] == placed[m]);
    assert(told[m] == told[m]);
}

/// This node is reported in its own state and as reachable, the others as joining.
pub proof fn law_only_the_local_node_is_up(
    node: TopologyNode,
    state: ServiceState,
    local: Seq<char>,
)
    requires
        node.volumes@.len() <= usize::MAX,
    ensures
        ({
            let m = topology::reported_node(node, state, local);
            &&& m.node_id == node.node_id@
            &&& m.advertise_s3 == node.advertise_s3@
            &&& m.advertise_cluster == node.advertise_cluster@
            &&& m.voter
            &&& m.total_disks == node.volumes@.len()
            &&& m.reachable <==> node.node_id@ == local
            &&& node.node_id@ == local ==> m.state == state
            &&& node.node_id@ != local ==> m.state == ServiceState::Joining
        }),
{
}

/// A node may start exactly where it is in the topology and its disks have the paths that the
/// topology gives it, in whatever order and however often.
pub proof fn law_disks_fit_the_topology(
    nodes: Seq<TopologyNode>,
    id: Seq<char>,
    disks: Seq<Seq<char>>,
    i: int,
    x: Seq<char>,
)
    requires
        topology::node_at(nodes, id, 0) == Some(i),
        topology::local_complaint(nodes, id, disks) is None,
    ensures
        topology::volume_paths(nodes[i].volumes@, nodes[i].volumes@.len()).contains(x)
            <==> topology::normal_paths(disks).contains(x),
{
    let want = topology::volume_paths(nodes[i].volumes@, nodes[i].volumes@.len());
    let have = topology::normal_paths(disks);
    order::lemma_distinct_sorted(want);
    order::lemma_distinct_sorted(have);
    assert(order::distinct_sorted(want).contains(x) <==> want.contains(x));
    assert(order::distinct_sorted(have).contains(x) <==> have.contains(x));
}

/// Disks with the same paths are not complained of.
pub proof fn law_fitting_disks_are_accepted(
    nodes: Seq<TopologyNode>,
    id: Seq<char>,
    disks: Seq<Seq<char>>,
    i: int,
)
    requires
        topology::node_at(nodes, id, 0) == Some(i),
        forall|x: Seq<char>| #[trigger]
            topology::volume_paths(nodes[i].volumes@, nodes[i].volumes@.len()).contains(x)
                <==> topology::normal_paths(disks).contains(x),
    ensures
        topology::local_complaint(nodes, id, disks) is None,
{
    let want = topology::volume_paths(nodes[i].volumes@, nodes[i].volumes@.len());
    let have = topology::normal_paths(disks);
    order::lemma_distinct_sorted(want);
    order::lemma_distinct_sorted(have);
    let a = order::distinct_sorted(want);
    let b = order::distinct_sorted(have);
    assert forall|x: Seq<char>| #[trigger] a.contains(x) <==> b.contains(x) by {
        assert(a.contains(x) <==> want.contains(x));
        assert(b.contains(x) <==> have.contains(x));
    }
    order::lemma_ascending_unique(a, b);
}

/// A node that is not in the topology may not start.
pub proof fn law_stranger_is_not_accepted(
    nodes: Seq<TopologyNode>,
    id: Seq<char>,
    disks: Seq<Seq<char>>,
)
    requires
        topology::node_at(nodes, id, 0) is None,
    ensures
        topology::local_complaint(nodes, id, disks) == Some(Complaint::MissingNode(id)),
{
}

} // verus!
