//! Identity of a node and of the cluster: what a node tells its peers, when the exchange
//! is complete, and the identities that follow from it.

use vstd::prelude::*;
use vstd::string::*;
use vstd::utf8::*;

use crate::digest;
use crate::order;
use crate::storage;
use crate::text;

verus! {

/// What a node tells its peers about itself.
#[derive(Clone, Debug, PartialEq, Eq)]
pub struct NodeIdentity {
    pub node_id: String,
    pub advertise: String,
    pub volumes: Vec<VolumeEntry>,
}

/// A volume of a node.
#[derive(Clone, Debug, PartialEq, Eq)]
pub struct VolumeEntry {
    pub volume_id: String,
    pub index: u32,
}

/// A volume of the erasure set.
#[derive(Clone, Debug, PartialEq, Eq)]
pub struct SetMember {
    pub volume_id: String,
    pub node_id: String,
    pub index: u32,
}

/// Cluster identity after the boot and the exchange with the peers.
#[derive(Clone, Debug)]
pub struct ResolvedIdentity {
    pub node_id: String,
    pub deployment_id: String,
    pub set_id: String,
    pub advertise: String,
    pub peers: Vec<String>,
    pub disk_paths: Vec<String>,
    pub all_members: Vec<SetMember>,
}

/// How a node comes to its identity.
#[derive(Clone, Copy, Debug, PartialEq, Eq, Structural)]
pub enum BootPath {
    /// No peers: the identity is made on the spot.
    Standalone,
    /// The identity was stored by an earlier boot.
    Stored,
    /// First boot in a cluster: the peers have to be asked.
    Exchange,
}

/// What a volume stores of itself and of the erasure set that it belongs to.
#[derive(Clone, Debug)]
pub struct VolumeFormat {
    pub node_id: String,
    pub volume_id: String,
    pub volume_index: u32,
    pub deployment_id: Option<String>,
    pub set_id: Option<String>,
    pub members: Option<Vec<SetMember>>,
}

/// Decides how a node comes to its identity, by what its first volume stores.
pub fn boot_path(peers: &Vec<String>, format: &VolumeFormat) -> (r: BootPath)
    ensures
        r == (if peers@.len() == 0 {
            BootPath::Standalone
        } else if format.deployment_id is Some && format.members is Some {
            BootPath::Stored
        } else {
            BootPath::Exchange
        }),
{
    if peers.is_empty() {
        BootPath::Standalone
    } else if format.deployment_id.is_some() && format.members.is_some() {
        BootPath::Stored
    } else {
        BootPath::Exchange
    }
}

/// What a node with the given volumes tells its peers about itself.
pub fn local_identity(formats: &Vec<VolumeFormat>, advertise: String) -> (r: NodeIdentity)
    requires
        formats@.len() > 0,
    ensures
        r.node_id@ == formats@[0].node_id@,
        r.advertise == advertise,
        r.volumes@.len() == formats@.len(),
        forall|k: int|
            0 <= k < r.volumes@.len() ==> (#[trigger] r.volumes@[k]).volume_id@
                == formats@[k].volume_id@ && r.volumes@[k].index == formats@[k].volume_index,
{
    let mut volumes: Vec<VolumeEntry> = Vec::new();
    while volumes.len() < formats.len()
        invariant
            volumes@.len() <= formats@.len(),
            forall|k: int|
                0 <= k < volumes@.len() ==> (#[trigger] volumes@[k]).volume_id@
                    == formats@[k].volume_id@ && volumes@[k].index == formats@[k].volume_index,
        decreases formats@.len() - volumes@.len(),
    {
        let k: usize = volumes.len();
        volumes.push(
            VolumeEntry {
                volume_id: formats[k].volume_id.clone(),
                index: formats[k].volume_index,
            },
        );
    }
    NodeIdentity { node_id: formats[0].node_id.clone(), advertise, volumes }
}

// ------------------------------------------------------------------ members

/// The node ids of some identities.
pub open spec fn node_ids(ids: Seq<NodeIdentity>) -> Seq<Seq<char>> {
    Seq::new(ids.len(), |i: int| ids[i].node_id@)
}

/// Positions of the identities, ascending by node id.
pub open spec fn by_node_id(ids: Seq<NodeIdentity>) -> Seq<int> {
    order::stable_sorted(node_ids(ids), Seq::new(ids.len(), |i: int| i))
}

/// The volumes of the first `n` identities of a ranking, node by node: node id and
/// volume id.
pub open spec fn ranked_volumes(ids: Seq<NodeIdentity>, ranks: Seq<int>, n: nat) -> Seq<
    (Seq<char>, Seq<char>),
>
    decreases n,
{
    if n == 0 {
        Seq::empty()
    } else {
        let id = ids[ranks[n - 1]];
        ranked_volumes(ids, ranks, (n - 1) as nat) + Seq::new(
            id.volumes@.len(),
            |k: int| (id.node_id@, id.volumes@[k].volume_id@),
        )
    }
}

/// All volumes, ascending by node id.
pub open spec fn all_volumes(ids: Seq<NodeIdentity>) -> Seq<(Seq<char>, Seq<char>)> {
    ranked_volumes(ids, by_node_id(ids), ids.len())
}

/// The members are the given volumes, numbered through.
pub open spec fn numbered(members: Seq<SetMember>, volumes: Seq<(Seq<char>, Seq<char>)>) -> bool {
    &&& members.len() == volumes.len()
    &&& forall|i: int|
        0 <= i < members.len() ==> (#[trigger] members[i]).index == i && members[i].node_id@
            == volumes[i].0 && members[i].volume_id@ == volumes[i].1
}

proof fn lemma_by_node_id(ids: Seq<NodeIdentity>)
    ensures
        by_node_id(ids).len() == ids.len(),
        forall|k: int| 0 <= k < ids.len() ==> 0 <= #[trigger] by_node_id(ids)[k] < ids.len(),
{
    let all = Seq::new(ids.len(), |i: int| i);
    order::lemma_sorted_same_items(node_ids(ids), all);
    assert forall|k: int| 0 <= k < ids.len() implies 0 <= #[trigger] by_node_id(ids)[k]
        < ids.len() by {
        assert(by_node_id(ids).contains(by_node_id(ids)[k]));
        assert(all.contains(by_node_id(ids)[k]));
    }
}

proof fn lemma_volumes_prefix(ids: Seq<NodeIdentity>, ranks: Seq<int>, a: nat, b: nat)
    requires
        a <= b,
    ensures
        ranked_volumes(ids, ranks, a).len() <= ranked_volumes(ids, ranks, b).len(),
    decreases b,
{
    if a < b {
        lemma_volumes_prefix(ids, ranks, a, (b - 1) as nat);
    }
}

/// The volumes of all nodes as one erasure set: ascending by node id, and numbered
/// through.
pub fn build_members(identities: &[NodeIdentity]) -> (r: Vec<SetMember>)
    requires
        all_volumes(identities@).len() <= u32::MAX,
    ensures
        numbered(r@, all_volumes(identities@)),
{
    let mut keys: Vec<String> = Vec::new();
    let mut positions: Vec<usize> = Vec::new();
    while keys.len() < identities.len()
        invariant
            keys@.len() <= identities@.len(),
            positions@.len() == keys@.len(),
            forall|i: int|
                0 <= i < keys@.len() ==> (#[trigger] keys@[i])@ == identities@[i].node_id@,
            forall|i: int| 0 <= i < positions@.len() ==> #[trigger] positions@[i] == i,
        decreases identities@.len() - keys@.len(),
    {
        let i: usize = keys.len();
        keys.push(identities[i].node_id.clone());
        positions.push(i);
    }
    assert(order::views(keys@) =~= node_ids(identities@));
    assert(order::as_ints(positions@) =~= Seq::new(identities@.len(), |i: int| i));
    let ranks = order::sort_by_key(&keys, &positions);
    let ghost rv = by_node_id(identities@);
    assert(order::as_ints(ranks@) == rv);
    proof {
        lemma_by_node_id(identities@);
        assert(ranks@.len() == rv.len());
    }
    let mut members: Vec<SetMember> = Vec::new();
    let mut n: usize = 0;
    while n < ranks.len()
        invariant
            n <= ranks@.len(),
            ranks@.len() == identities@.len(),
            order::as_ints(ranks@) == rv,
            rv == by_node_id(identities@),
            forall|i: int| 0 <= i < ranks@.len() ==> (#[trigger] ranks@[i]) < identities@.len(),
            all_volumes(identities@).len() <= u32::MAX,
            numbered(members@, ranked_volumes(identities@, rv, n as nat)),
        decreases ranks@.len() - n,
    {
        let id = &identities[ranks[n]];
        let ghost before = ranked_volumes(identities@, rv, n as nat);
        let ghost row = Seq::new(
            id.volumes@.len(),
            |k: int| (id.node_id@, id.volumes@[k].volume_id@),
        );
        proof {
            assert(order::as_ints(ranks@)[n as int] == ranks@[n as int] as int);
            assert(ranked_volumes(identities@, rv, (n + 1) as nat) == before + row);
            lemma_volumes_prefix(identities@, rv, (n + 1) as nat, identities@.len());
        }
        let mut k: usize = 0;
        assert(before + row.take(0) =~= before);
        while k < id.volumes.len()
            invariant
                k <= id.volumes@.len(),
                row == Seq::new(
                    id.volumes@.len(),
                    |k: int| (id.node_id@, id.volumes@[k].volume_id@),
                ),
                before.len() + row.len() <= u32::MAX,
                numbered(members@, before + row.take(k as int)),
            decreases id.volumes@.len() - k,
        {
            let index: u32 = members.len() as u32;
            let ghost was = members@;
            members.push(
                SetMember {
                    volume_id: id.volumes[k].volume_id.clone(),
                    node_id: id.node_id.clone(),
                    index,
                },
            );
            proof {
                let want = before + row.take(k + 1);
                let had = before + row.take(k as int);
                assert(want =~= had.push(row[k as int]));
                assert forall|i: int| 0 <= i < members@.len() implies (
                #[trigger] members@[i]).index == i && members@[i].node_id@ == want[i].0
                    && members@[i].volume_id@ == want[i].1 by {
                    if i < was.len() {
                        assert(members@[i] == was[i]);
                        assert(want[i] == had[i]);
                    }
                }
            }
            k = k + 1;
        }
        assert(row.take(k as int) =~= row);
        n = n + 1;
    }
    members
}

/// The nodes stand in ascending order of their ids in the member list.
pub proof fn law_members_ascend(ids: Seq<NodeIdentity>, i: int, j: int)
    requires
        0 <= i <= j < all_volumes(ids).len(),
    ensures
        !text::str_less_spec(all_volumes(ids)[j].0, all_volumes(ids)[i].0),
{
    lemma_by_node_id(ids);
    order::lemma_sorted_is_ascending(node_ids(ids), Seq::new(ids.len(), |i: int| i));
    let ranks = by_node_id(ids);
    let (a, _x) = lemma_volume_owner(ids, ranks, ids.len(), i);
    let (b, _y) = lemma_volume_owner(ids, ranks, ids.len(), j);
    lemma_owner_order(ids, ranks, ids.len(), i, j, a, b);
    if a == b {
        text::lemma_lex_irreflexive(encode_utf8(ids[ranks[a]].node_id@));
    } else {
        assert(!order::key_less(node_ids(ids), ranks[b], ranks[a]));
    }
}

/// Which node of the ranking a volume belongs to.
proof fn lemma_volume_owner(ids: Seq<NodeIdentity>, ranks: Seq<int>, n: nat, i: int) -> (r: (
    int,
    int,
))
    requires
        0 <= i < ranked_volumes(ids, ranks, n).len(),
    ensures
        0 <= r.0 < n,
        r.1 == ranked_volumes(ids, ranks, r.0 as nat).len(),
        r.1 <= i < ranked_volumes(ids, ranks, (r.0 + 1) as nat).len(),
        ranked_volumes(ids, ranks, n)[i].0 == ids[ranks[r.0]].node_id@,
    decreases n,
{
    let m = (n - 1) as nat;
    let before = ranked_volumes(ids, ranks, m);
    if i < before.len() {
        assert(ranked_volumes(ids, ranks, n)[i] == before[i]);
        lemma_volume_owner(ids, ranks, m, i)
    } else {
        (n - 1, before.len() as int)
    }
}

proof fn lemma_owner_order(
    ids: Seq<NodeIdentity>,
    ranks: Seq<int>,
    n: nat,
    i: int,
    j: int,
    a: int,
    b: int,
)
    requires
        i <= j,
        0 <= a < n,
        0 <= b < n,
        ranked_volumes(ids, ranks, a as nat).len() <= i,
        j < ranked_volumes(ids, ranks, (b + 1) as nat).len(),
    ensures
        a <= b,
{
    if b < a {
        lemma_volumes_prefix(ids, ranks, (b + 1) as nat, a as nat);
    }
}

// ---------------------------------------------------------------------- ids

/// The identity of a deployment with the given nodes.
pub open spec fn deployment_name(ids: Seq<Seq<char>>) -> Seq<char> {
    "abixio-"@ + digest::short_hash(
        encode_utf8("deployment:"@) + digest::joined_bytes(ids, encode_utf8(":"@), ids.len()),
    )
}

/// The identity of an erasure set over the given nodes.
pub open spec fn set_name(ids: Seq<Seq<char>>) -> Seq<char> {
    "set-"@ + digest::short_hash(
        encode_utf8("set:"@) + digest::joined_bytes(ids, encode_utf8(":"@), ids.len()),
    )
}

/// The identity of a deployment with the given nodes, which stand in ascending order.
pub fn deployment_id_for(sorted_node_ids: &[String]) -> (r: String)
    ensures
        r@ == deployment_name(order::views(sorted_node_ids@)),
{
    let mut message: Vec<u8> = "deployment:".as_bytes_vec();
    digest::append_texts(&mut message, sorted_node_ids, ":".as_bytes());
    let mut out = "abixio-".to_owned();
    out.append(digest::short_hex(message.as_slice()).as_str());
    out
}

/// The identity of an erasure set over the given nodes, which stand in ascending order.
pub fn set_id_for(sorted_node_ids: &[String]) -> (r: String)
    ensures
        r@ == set_name(order::views(sorted_node_ids@)),
{
    let mut message: Vec<u8> = "set:".as_bytes_vec();
    digest::append_texts(&mut message, sorted_node_ids, ":".as_bytes());
    let mut out = "set-".to_owned();
    out.append(digest::short_hex(message.as_slice()).as_str());
    out
}

// ---------------------------------------------------------------- advertise

/// The address under which a node is reached.
pub open spec fn advertised(listen: Seq<char>, host: Option<Seq<char>>) -> Seq<char> {
    "http://"@ + (match host {
        Some(h) => h,
        None => "127.0.0.1"@,
    }) + ":"@ + text::after_last(listen, ':')
}

/// The address under which a node is reached, given its host name: the port is what
/// follows the last colon of the listen address.
pub fn advertise_for(listen: &str, host: Option<String>) -> (r: String)
    ensures
        r@ == advertised(listen@, storage::opt_view(host)),
{
    let mut out = "http://".to_owned();
    match host {
        Some(h) => out.append(h.as_str()),
        None => out.append("127.0.0.1"),
    }
    out.append(":");
    out.append(text::tail_after_last(listen, ':'));
    out
}

/// `hostname::get`: the name of the machine, where it is valid text. Nothing is claimed
/// of it.
#[verifier::external_body]
fn host_name() -> Option<String> {
    hostname::get().ok().and_then(|h| h.into_string().ok())
}

/// The address under which this node is reached: its host name, as far as the machine
/// tells it, and the port of the listen address.
pub fn derive_advertise(listen: &str) -> (r: String)
    ensures
        exists|host: Option<Seq<char>>| r@ == #[trigger] advertised(listen@, host),
{
    let host = host_name();
    let ghost h = storage::opt_view(host);
    let r = advertise_for(listen, host);
    assert(r@ == advertised(listen@, h));
    r
}

// --------------------------------------------------------------- standalone

/// The hyphenated form of a random identity: groups of 8, 4, 4, 4 and 12 hex digits in
/// lower case, of which the third group starts with a 4.
pub open spec fn is_random_id(s: Seq<char>) -> bool {
    &&& s.len() == 36
    &&& s[14] == '4'
    &&& forall|i: int|
        0 <= i < 36 ==> if i == 8 || i == 13 || i == 18 || i == 23 {
            (#[trigger] s[i]) == '-'
        } else {
            '0' <= s[i] <= '9' || 'a' <= s[i] <= 'f'
        }
}

/// `uuid::Uuid::new_v4`: a random identity in its hyphenated form. Its digits are random, so
/// only the form is claimed.
#[verifier::external_body]
fn random_id() -> (r: String)
    ensures
        is_random_id(r@),
{
    uuid::Uuid::new_v4().to_string()
}

/// The local part of an identity is that of the node.
pub open spec fn is_identity_of(r: ResolvedIdentity, local: NodeIdentity, disks: Seq<String>) -> bool {
    &&& r.node_id@ == local.node_id@
    &&& r.advertise@ == local.advertise@
    &&& order::views(r.disk_paths@) == order::views(disks)
}

/// The identity of a node without peers, given the identity of its erasure set.
pub fn standalone_identity(local: NodeIdentity, set_id: String, disk_paths: &Vec<String>) -> (r:
    ResolvedIdentity)
    requires
        local.volumes@.len() <= u32::MAX,
    ensures
        is_identity_of(r, local, disk_paths@),
        r.deployment_id@ == deployment_name(seq![local.node_id@]),
        r.set_id == set_id,
        r.peers@.len() == 0,
        numbered(r.all_members@, all_volumes(seq![local])),
{
    let node_id = local.node_id.clone();
    let advertise = local.advertise.clone();
    let mut ids: Vec<String> = Vec::new();
    ids.push(local.node_id.clone());
    assert(order::views(ids@) =~= seq![local.node_id@]);
    proof {
        lemma_one_identity(local);
    }
    let mut one: Vec<NodeIdentity> = Vec::new();
    one.push(local);
    assert(one@ =~= seq![local]);
    let all_members = build_members(one.as_slice());
    ResolvedIdentity {
        node_id,
        deployment_id: deployment_id_for(ids.as_slice()),
        set_id,
        advertise,
        peers: Vec::new(),
        disk_paths: storage::clone_strings(disk_paths),
        all_members,
    }
}

proof fn lemma_one_identity(local: NodeIdentity)
    ensures
        all_volumes(seq![local]).len() == local.volumes@.len(),
{
    let ids = seq![local];
    lemma_by_node_id(ids);
    let ranks = by_node_id(ids);
    assert(ranks[0] == 0);
    reveal_with_fuel(ranked_volumes, 2);
}

/// The identity of a node without peers. Its erasure set gets a random identity.
pub fn resolve_standalone(local: NodeIdentity, disk_paths: &Vec<String>) -> (r: ResolvedIdentity)
    requires
        local.volumes@.len() <= u32::MAX,
    ensures
        is_identity_of(r, local, disk_paths@),
        r.deployment_id@ == deployment_name(seq![local.node_id@]),
        is_random_id(r.set_id@),
        r.peers@.len() == 0,
        numbered(r.all_members@, all_volumes(seq![local])),
{
    standalone_identity(local, random_id(), disk_paths)
}

// ------------------------------------------------------------------- stored

/// Two lists name the same members in the same order.
pub open spec fn same_members(a: Seq<SetMember>, b: Seq<SetMember>) -> bool {
    &&& a.len() == b.len()
    &&& forall|k: int|
        #![trigger a[k]]
        #![trigger b[k]]
        0 <= k < a.len() ==> a[k].volume_id@ == b[k].volume_id@ && a[k].node_id@ == b[k].node_id@
            && a[k].index == b[k].index
}

/// The volume stores the deployment, the erasure set and the members of the identity.
pub open spec fn stores(format: VolumeFormat, r: ResolvedIdentity) -> bool {
    &&& format.deployment_id matches Some(d) && d@ == r.deployment_id@
    &&& format.set_id matches Some(s) && s@ == r.set_id@
    &&& format.members matches Some(m) && same_members(m@, r.all_members@)
}

fn copy_members(members: &Vec<SetMember>) -> (r: Vec<SetMember>)
    ensures
        same_members(members@, r@),
{
    let mut out: Vec<SetMember> = Vec::new();
    while out.len() < members.len()
        invariant
            out@.len() <= members@.len(),
            same_members(members@.take(out@.len() as int), out@),
        decreases members@.len() - out@.len(),
    {
        let m = &members[out.len()];
        out.push(
            SetMember {
                volume_id: m.volume_id.clone(),
                node_id: m.node_id.clone(),
                index: m.index,
            },
        );
    }
    assert(members@.take(out@.len() as int) =~= members@);
    out
}

/// What a volume stores once the identity is known.
pub fn finalized(format: &VolumeFormat, identity: &ResolvedIdentity) -> (r: VolumeFormat)
    ensures
        stores(r, *identity),
        r.node_id@ == format.node_id@,
        r.volume_id@ == format.volume_id@,
        r.volume_index == format.volume_index,
{
    VolumeFormat {
        node_id: format.node_id.clone(),
        volume_id: format.volume_id.clone(),
        volume_index: format.volume_index,
        deployment_id: Some(identity.deployment_id.clone()),
        set_id: Some(identity.set_id.clone()),
        members: Some(copy_members(&identity.all_members)),
    }
}

/// The identity of a node whose volumes store it.
pub fn stored_identity(
    local: NodeIdentity,
    format: &VolumeFormat,
    peers: &Vec<String>,
    disk_paths: &Vec<String>,
) -> (r: ResolvedIdentity)
    requires
        format.deployment_id is Some,
        format.set_id is Some,
        format.members is Some,
    ensures
        is_identity_of(r, local, disk_paths@),
        stores(*format, r),
        order::views(r.peers@) == order::views(peers@),
{
    ResolvedIdentity {
        node_id: local.node_id,
        deployment_id: format.deployment_id.as_ref().unwrap().clone(),
        set_id: format.set_id.as_ref().unwrap().clone(),
        advertise: local.advertise,
        peers: storage::clone_strings(peers),
        disk_paths: storage::clone_strings(disk_paths),
        all_members: copy_members(format.members.as_ref().unwrap()),
    }
}

/// A restart does not change the cluster that a node belongs to: what the volumes store of
/// an identity is what a later boot takes from them.
pub proof fn law_identity_survives_restart(
    format: VolumeFormat,
    before: ResolvedIdentity,
    after: ResolvedIdentity,
)
    requires
        stores(format, before),
        stores(format, after),
    ensures
        before.deployment_id@ == after.deployment_id@,
        before.set_id@ == after.set_id@,
        same_members(before.all_members@, after.all_members@),
{
}

// ----------------------------------------------------------------- exchange

/// The exchange of identities with the peers at the first boot.
pub struct Exchange {
    /// This node.
    pub local: NodeIdentity,
    /// The addresses of the peers.
    pub peers: Vec<String>,
    /// The identities known so far, that of this node first.
    pub known: Vec<NodeIdentity>,
}

/// Some known identity is reached under the address.
pub open spec fn reached(known: Seq<NodeIdentity>, peer: Seq<char>) -> bool {
    exists|i: int|
        0 <= i < known.len() && text::without_trailing((#[trigger] known[i]).advertise@, '/')
            == text::without_trailing(peer, '/')
}

/// Some known identity has the node id.
pub open spec fn node_known(known: Seq<NodeIdentity>, node_id: Seq<char>) -> bool {
    exists|i: int| 0 <= i < known.len() && (#[trigger] known[i]).node_id@ == node_id
}

/// No node id is known twice, and the first one is that of this node.
pub open spec fn exchange_ok(local: NodeIdentity, known: Seq<NodeIdentity>) -> bool {
    &&& known.len() > 0
    &&& known[0].node_id@ == local.node_id@
    &&& forall|i: int, j: int|
        #![trigger known[i], known[j]]
        0 <= i < j < known.len() ==> known[i].node_id@ != known[j].node_id@
}

fn copy_identity(id: &NodeIdentity) -> (r: NodeIdentity)
    ensures
        r.node_id@ == id.node_id@,
        r.advertise@ == id.advertise@,
        r.volumes@.len() == id.volumes@.len(),
        forall|k: int|
            0 <= k < r.volumes@.len() ==> (#[trigger] r.volumes@[k]).volume_id@
                == id.volumes@[k].volume_id@ && r.volumes@[k].index == id.volumes@[k].index,
{
    let mut volumes: Vec<VolumeEntry> = Vec::new();
    while volumes.len() < id.volumes.len()
        invariant
            volumes@.len() <= id.volumes@.len(),
            forall|k: int|
                0 <= k < volumes@.len() ==> (#[trigger] volumes@[k]).volume_id@
                    == id.volumes@[k].volume_id@ && volumes@[k].index == id.volumes@[k].index,
        decreases id.volumes@.len() - volumes@.len(),
    {
        let k: usize = volumes.len();
        volumes.push(
            VolumeEntry {
                volume_id: id.volumes[k].volume_id.clone(),
                index: id.volumes[k].index,
            },
        );
    }
    NodeIdentity { node_id: id.node_id.clone(), advertise: id.advertise.clone(), volumes }
}

impl Exchange {
    /// An exchange in which only this node is known.
    pub fn new(local: NodeIdentity, peers: Vec<String>) -> (r: Self)
        ensures
            r.local == local,
            r.peers == peers,
            r.known@.len() == 1,
            r.known@[0].advertise@ == local.advertise@,
            same_volumes(r.known@[0], local),
            forall|k: int|
                0 <= k < local.volumes@.len() ==> (#[trigger] r.known@[0].volumes@[k]).index
                    == local.volumes@[k].index,
            exchange_ok(local, r.known@),
    {
        let mut known: Vec<NodeIdentity> = Vec::new();
        known.push(copy_identity(&local));
        Exchange { local, peers, known }
    }

    /// Whether a peer still has to be asked. It is known by its address, since its node id
    /// may not be known yet.
    pub fn needs_contact(&self, peer: &str) -> (r: bool)
        ensures
            r == !reached(self.known@, peer@),
    {
        let base = text::trim_end_char(peer, '/');
        let mut i: usize = 0;
        while i < self.known.len()
            invariant
                i <= self.known@.len(),
                base@ == text::without_trailing(peer@, '/'),
                forall|k: int|
                    0 <= k < i ==> text::without_trailing(
                        (#[trigger] self.known@[k]).advertise@,
                        '/',
                    ) != base@,
            decreases self.known@.len() - i,
        {
            let have = text::trim_end_char(self.known[i].advertise.as_str(), '/');
            if text::str_eq(have, base) {
                return false;
            }
            i = i + 1;
        }
        true
    }

    /// Takes note of an identity that a peer answered with, unless the node is known.
    pub fn learned(&mut self, identity: NodeIdentity)
        requires
            exchange_ok(old(self).local, old(self).known@),
        ensures
            exchange_ok(final(self).local, final(self).known@),
            final(self).local == old(self).local,
            final(self).peers == old(self).peers,
            final(self).known@ == (if node_known(old(self).known@, identity.node_id@) {
                old(self).known@
            } else {
                old(self).known@.push(identity)
            }),
    {
        let mut i: usize = 0;
        while i < self.known.len()
            invariant
                i <= self.known@.len(),
                *self == *old(self),
                exchange_ok(self.local, self.known@),
                forall|k: int|
                    0 <= k < i ==> (#[trigger] self.known@[k]).node_id@ != identity.node_id@,
            decreases self.known@.len() - i,
        {
            if text::str_eq(self.known[i].node_id.as_str(), identity.node_id.as_str()) {
                return;
            }
            i = i + 1;
        }
        self.known.push(identity);
    }

    /// Whether as many nodes are known as there are peers, and this one.
    pub fn complete(&self) -> (r: bool)
        ensures
            r == (self.known@.len() >= self.peers@.len() + 1),
    {
        self.known.len() > self.peers.len()
    }

    /// The identity that follows once the exchange is complete. Every node that knows the
    /// same nodes comes to the same deployment, erasure set and members.
    pub fn resolve(&self, disk_paths: &Vec<String>) -> (r: ResolvedIdentity)
        requires
            exchange_ok(self.local, self.known@),
            all_volumes(self.known@).len() <= u32::MAX,
        ensures
            is_identity_of(r, self.local, disk_paths@),
            r.deployment_id@ == deployment_name(order::distinct_sorted(node_ids(self.known@))),
            r.set_id@ == set_name(order::distinct_sorted(node_ids(self.known@))),
            order::views(r.peers@) == other_addresses(
                self.known@,
                self.local.node_id@,
                self.known@.len(),
            ),
            numbered(r.all_members@, all_volumes(self.known@)),
    {
        let mut names: Vec<String> = Vec::new();
        let mut peers: Vec<String> = Vec::new();
        let mut i: usize = 0;
        assert(order::views(peers@) =~= Seq::<Seq<char>>::empty());
        while i < self.known.len()
            invariant
                i <= self.known@.len(),
                names@.len() == i,
                forall|k: int|
                    0 <= k < i ==> (#[trigger] names@[k])@ == self.known@[k].node_id@,
                order::views(peers@) == other_addresses(
                    self.known@,
                    self.local.node_id@,
                    i as nat,
                ),
            decreases self.known@.len() - i,
        {
            let id = &self.known[i];
            names.push(id.node_id.clone());
            if !text::str_eq(id.node_id.as_str(), self.local.node_id.as_str()) {
                let ghost before = order::views(peers@);
                peers.push(id.advertise.clone());
                assert(order::views(peers@) =~= before.push(id.advertise@));
            }
            i = i + 1;
        }
        assert(order::views(names@) =~= node_ids(self.known@));
        let sorted = order::distinct(&names);
        ResolvedIdentity {
            node_id: self.local.node_id.clone(),
            deployment_id: deployment_id_for(sorted.as_slice()),
            set_id: set_id_for(sorted.as_slice()),
            advertise: self.local.advertise.clone(),
            peers,
            disk_paths: storage::clone_strings(disk_paths),
            all_members: build_members(self.known.as_slice()),
        }
    }
}

/// The addresses of the first `n` nodes, this node left out.
pub open spec fn other_addresses(known: Seq<NodeIdentity>, node_id: Seq<char>, n: nat) -> Seq<
    Seq<char>,
>
    decreases n,
{
    if n == 0 {
        Seq::empty()
    } else {
        let before = other_addresses(known, node_id, (n - 1) as nat);
        if known[n - 1].node_id@ != node_id {
            before.push(known[n - 1].advertise@)
        } else {
            before
        }
    }
}

/// Where a peer is asked to join.
pub fn join_url(peer: &str) -> (r: String)
    ensures
        r@ == text::without_trailing(peer@, '/') + "/_admin/cluster/join"@,
{
    let mut out = text::trim_end_char(peer, '/').to_owned();
    out.append("/_admin/cluster/join");
    out
}

/// Nodes that know the same node ids, in whatever order they learned them, come to the
/// same deployment and erasure set.
pub proof fn law_same_nodes_same_deployment(a: Seq<Seq<char>>, b: Seq<Seq<char>>)
    requires
        forall|x: Seq<char>| #[trigger] a.contains(x) <==> b.contains(x),
    ensures
        deployment_name(order::distinct_sorted(a)) == deployment_name(order::distinct_sorted(b)),
        set_name(order::distinct_sorted(a)) == set_name(order::distinct_sorted(b)),
{
    order::lemma_distinct_sorted(a);
    order::lemma_distinct_sorted(b);
    let s = order::distinct_sorted(a);
    let t = order::distinct_sorted(b);
    assert forall|x: Seq<char>| #[trigger] s.contains(x) <==> t.contains(x) by {
        assert(s.contains(x) <==> a.contains(x));
        assert(t.contains(x) <==> b.contains(x));
    }
    order::lemma_ascending_unique(s, t);
}

/// Two identities name the same volumes in the same order.
pub open spec fn same_volumes(a: NodeIdentity, b: NodeIdentity) -> bool {
    &&& a.volumes@.len() == b.volumes@.len()
    &&& forall|k: int|
        0 <= k < a.volumes@.len() ==> (#[trigger] a.volumes@[k]).volume_id@
            == b.volumes@[k].volume_id@
}

/// No node id occurs twice.
pub open spec fn distinct_nodes(ids: Seq<NodeIdentity>) -> bool {
    forall|i: int, j: int|
        #![trigger ids[i], ids[j]]
        0 <= i < j < ids.len() ==> ids[i].node_id@ != ids[j].node_id@
}

/// The node ids in ranking order.
spec fn ranked_ids(ids: Seq<NodeIdentity>) -> Seq<Seq<char>> {
    Seq::new(ids.len(), |k: int| ids[by_node_id(ids)[k]].node_id@)
}

proof fn lemma_ranked_ids(ids: Seq<NodeIdentity>)
    requires
        distinct_nodes(ids),
    ensures
        order::strictly_ascending(ranked_ids(ids)),
        forall|x: Seq<char>| #[trigger]
            ranked_ids(ids).contains(x) <==> node_ids(ids).contains(x),
{
    let all = Seq::new(ids.len(), |i: int| i);
    let ranks = by_node_id(ids);
    let names = ranked_ids(ids);
    lemma_by_node_id(ids);
    order::lemma_sorted_same_items(node_ids(ids), all);
    order::lemma_sorted_is_ascending(node_ids(ids), all);
    assert(all.no_duplicates());
    assert forall|i: int, j: int|
        #![trigger names[i], names[j]]
        0 <= i < j < names.len() implies text::str_less_spec(names[i], names[j]) by {
        assert(!order::key_less(node_ids(ids), ranks[j], ranks[i]));
        assert(ranks[i] != ranks[j]);
        if ranks[i] < ranks[j] {
            assert(ids[ranks[i]].node_id@ != ids[ranks[j]].node_id@);
        } else {
            assert(ids[ranks[j]].node_id@ != ids[ranks[i]].node_id@);
        }
        text::lemma_lex_total(encode_utf8(names[i]), encode_utf8(names[j]));
        if encode_utf8(names[i]) == encode_utf8(names[j]) {
            text::lemma_same_bytes_same_chars(names[i], names[j]);
        }
    }
    assert forall|x: Seq<char>| #[trigger] names.contains(x) <==> node_ids(ids).contains(x) by {
        if names.contains(x) {
            let k = choose|k: int| 0 <= k < names.len() && names[k] == x;
            assert(node_ids(ids)[ranks[k]] == x);
        }
        if node_ids(ids).contains(x) {
            let i = choose|i: int| 0 <= i < ids.len() && node_ids(ids)[i] == x;
            assert(all[i] == i);
            assert(all.contains(i));
            assert(ranks.contains(i));
            let k = choose|k: int| 0 <= k < ranks.len() && ranks[k] == i;
            assert(names[k] == x);
        }
    }
}

/// Nodes that know the same identities, in whatever order they learned them, build the
/// same member list.
pub proof fn law_same_nodes_same_members(a: Seq<NodeIdentity>, b: Seq<NodeIdentity>)
    requires
        distinct_nodes(a),
        distinct_nodes(b),
        forall|x: Seq<char>| #[trigger] node_ids(a).contains(x) <==> node_ids(b).contains(x),
        forall|i: int, j: int|
            #![trigger a[i], b[j]]
            0 <= i < a.len() && 0 <= j < b.len() && a[i].node_id@ == b[j].node_id@
                ==> same_volumes(a[i], b[j]),
    ensures
        all_volumes(a) == all_volumes(b),
{
    lemma_ranked_ids(a);
    lemma_ranked_ids(b);
    let s = ranked_ids(a);
    let t = ranked_ids(b);
    assert forall|x: Seq<char>| #[trigger] s.contains(x) <==> t.contains(x) by {
        assert(s.contains(x) <==> node_ids(a).contains(x));
        assert(t.contains(x) <==> node_ids(b).contains(x));
    }
    order::lemma_ascending_unique(s, t);
    assert(s.len() == a.len() && t.len() == b.len());
    lemma_same_ranked_volumes(a, b, a.len());
}

proof fn lemma_same_ranked_volumes(a: Seq<NodeIdentity>, b: Seq<NodeIdentity>, n: nat)
    requires
        a.len() == b.len(),
        n <= a.len(),
        ranked_ids(a) == ranked_ids(b),
        forall|i: int, j: int|
            #![trigger a[i], b[j]]
            0 <= i < a.len() && 0 <= j < b.len() && a[i].node_id@ == b[j].node_id@
                ==> same_volumes(a[i], b[j]),
    ensures
        ranked_volumes(a, by_node_id(a), n) == ranked_volumes(b, by_node_id(b), n),
    decreases n,
{
    if n > 0 {
        lemma_same_ranked_volumes(a, b, (n - 1) as nat);
        lemma_by_node_id(a);
        lemma_by_node_id(b);
        let x = a[by_node_id(a)[n - 1]];
        let y = b[by_node_id(b)[n - 1]];
        assert(ranked_ids(a)[n - 1] == x.node_id@);
        assert(ranked_ids(b)[n - 1] == y.node_id@);
        assert(same_volumes(x, y));
        assert(Seq::new(x.volumes@.len(), |k: int| (x.node_id@, x.volumes@[k].volume_id@))
            =~= Seq::new(y.volumes@.len(), |k: int| (y.node_id@, y.volumes@[k].volume_id@)));
    }
}

// ---------------------------------------------------------------------- laws

/// How many volumes the first `n` identities of a ranking have.
pub open spec fn volume_count(ids: Seq<NodeIdentity>, ranks: Seq<int>, n: nat) -> nat
    decreases n,
{
    if n == 0 {
        0
    } else {
        volume_count(ids, ranks, (n - 1) as nat) + ids[ranks[n - 1]].volumes@.len()
    }
}

proof fn lemma_ranked(ids: Seq<NodeIdentity>, ranks: Seq<int>, n: nat, r: int, k: int)
    requires
        0 <= r < n <= ranks.len(),
        0 <= k < ids[ranks[r]].volumes@.len(),
    ensures
        ranked_volumes(ids, ranks, n).len() == volume_count(ids, ranks, n),
        volume_count(ids, ranks, r as nat) + k < volume_count(ids, ranks, n),
        ranked_volumes(ids, ranks, n)[volume_count(ids, ranks, r as nat) as int + k] == (
            ids[ranks[r]].node_id@,
            ids[ranks[r]].volumes@[k].volume_id@,
        ),
    decreases n,
{
    lemma_ranked_len(ids, ranks, (n - 1) as nat);
    if r < n - 1 {
        lemma_ranked(ids, ranks, (n - 1) as nat, r, k);
    }
}

proof fn lemma_ranked_len(ids: Seq<NodeIdentity>, ranks: Seq<int>, n: nat)
    ensures
        ranked_volumes(ids, ranks, n).len() == volume_count(ids, ranks, n),
    decreases n,
{
    if n > 0 {
        lemma_ranked_len(ids, ranks, (n - 1) as nat);
    }
}

/// Every volume of every node is a member of the set, under its own id and node, and the
/// members are counted through: those of one node stand together, in the node's order.
pub proof fn law_every_volume_is_a_member(
    members: Seq<SetMember>,
    ids: Seq<NodeIdentity>,
    i: int,
    k: int,
)
    requires
        numbered(members, all_volumes(ids)),
        0 <= i < ids.len(),
        0 <= k < ids[i].volumes@.len(),
    ensures
        members.len() == volume_count(ids, by_node_id(ids), ids.len()),
        exists|r: int|
            0 <= r < ids.len() && by_node_id(ids)[r] == i && ({
                let m = #[trigger] volume_count(ids, by_node_id(ids), r as nat) + k;
                &&& 0 <= m < members.len()
                &&& members[m].index == m
                &&& members[m].node_id@ == ids[i].node_id@
                &&& members[m].volume_id@ == ids[i].volumes@[k].volume_id@
            }),
{
    let ranks = by_node_id(ids);
    let all = Seq::new(ids.len(), |i: int| i);
    lemma_by_node_id(ids);
    order::lemma_sorted_same_items(node_ids(ids), all);
    assert(all[i] == i);
    assert(all.contains(i));
    assert(ranks.contains(i));
    let r = choose|r: int| 0 <= r < ranks.len() && ranks[r] == i;
    lemma_ranked(ids, ranks, ids.len(), r, k);
    let m = volume_count(ids, ranks, r as nat) + k;
    assert(members[m].index == m);
}

/// Names are made of the ids of all nodes, each with a colon behind it; deployments and sets
/// have different ones.
pub proof fn law_names_are_made_of_the_nodes(a: Seq<char>, b: Seq<char>)
    ensures
        deployment_name(seq![a, b]) == "abixio-"@ + digest::hex_chars(
            digest::sha256_digest(
                encode_utf8("deployment:"@) + (encode_utf8(a) + encode_utf8(":"@) + encode_utf8(b)
                    + encode_utf8(":"@)),
            ).take(8),
        ),
        set_name(seq![a, b]) == "set-"@ + digest::hex_chars(
            digest::sha256_digest(
                encode_utf8("set:"@) + (encode_utf8(a) + encode_utf8(":"@) + encode_utf8(b)
                    + encode_utf8(":"@)),
            ).take(8),
        ),
{
    let p = seq![a, b];
    let end = encode_utf8(":"@);
    assert(digest::joined_bytes(p, end, 0) =~= Seq::empty());
    assert(digest::joined_bytes(p, end, 1) =~= encode_utf8(a) + end);
    assert(digest::joined_bytes(p, end, 2) =~= encode_utf8(a) + end + encode_utf8(b) + end);
}

proof fn lemma_port(lead: Seq<char>, port: Seq<char>)
    requires
        forall|i: int| 0 <= i < port.len() ==> #[trigger] port[i] != ':',
    ensures
        text::after_last(lead + seq![':'] + port, ':') == port,
    decreases port.len(),
{
    let s = lead + seq![':'] + port;
    if port.len() == 0 {
        assert(s.last() == ':');
        assert(port =~= Seq::empty());
    } else {
        let rest = port.drop_last();
        assert(port[port.len() - 1] != ':');
        assert(s.last() == port[port.len() - 1]);
        assert forall|i: int| 0 <= i < rest.len() implies #[trigger] rest[i] != ':' by {
            assert(rest[i] == port[i]);
        }
        assert(s.drop_last() =~= lead + seq![':'] + rest);
        lemma_port(lead, rest);
        assert(rest.push(port.last()) =~= port);
    }
}

/// A node is reached under its host name, or the local address where it has none, and the port
/// on which it listens, whatever address that port is bound to.
pub proof fn law_node_is_reached_at_its_port(lead: Seq<char>, port: Seq<char>, host: Seq<char>)
    requires
        forall|i: int| 0 <= i < port.len() ==> #[trigger] port[i] != ':',
    ensures
        advertised(lead + seq![':'] + port, Some(host)) == "http://"@ + host + ":"@ + port,
        advertised(lead + seq![':'] + port, None) == "http://"@ + "127.0.0.1"@ + ":"@ + port,
{
    lemma_port(lead, port);
}

/// What a volume stores is the deployment, the set and every member, as the identity has them.
pub proof fn law_volume_stores_all(format: VolumeFormat, r: ResolvedIdentity, k: int)
    requires
        stores(format, r),
        0 <= k < r.all_members@.len(),
    ensures
        format.deployment_id is Some && format.deployment_id->0@ == r.deployment_id@,
        format.set_id is Some && format.set_id->0@ == r.set_id@,
        format.members is Some && format.members->0@.len() == r.all_members@.len(),
        format.members->0@[k].volume_id@ == r.all_members@[k].volume_id@,
        format.members->0@[k].node_id@ == r.all_members@[k].node_id@,
        format.members->0@[k].index == r.all_members@[k].index,
{
    assert(r.all_members@[k] == r.all_members@[k]);
}

/// An identity is that of the node itself: its id, its address and its disks in their order.
pub proof fn law_identity_is_the_nodes_own(
    r: ResolvedIdentity,
    local: NodeIdentity,
    disks: Seq<String>,
    k: int,
)
    requires
        is_identity_of(r, local, disks),
        0 <= k < disks.len(),
    ensures
        r.node_id@ == local.node_id@,
        r.advertise@ == local.advertise@,
        r.disk_paths@.len() == disks.len(),
        r.disk_paths@[k]@ == disks[k]@,
{
    let a = order::views(r.disk_paths@);
    let b = order::views(disks);
    assert(a.len() == r.disk_paths@.len() && b.len() == disks.len());
    assert(a[k] == b[k]);
}

/// A peer that answered is known by its address, with or without a slash behind it.
pub proof fn law_slash_does_not_hide_a_peer(known: Seq<NodeIdentity>, peer: Seq<char>, i: int)
    requires
        0 <= i < known.len(),
        known[i].advertise@ == peer,
    ensures
        reached(known, peer),
        reached(known, peer.push('/')),
{
    assert(peer.push('/').drop_last() =~= peer);
    assert(peer.push('/').last() == '/');
    assert(text::without_trailing(known[i].advertise@, '/') == text::without_trailing(peer, '/'));
}

/// The peers of a node are all the nodes but itself, by their addresses, in the order in which
/// they became known.
pub proof fn law_peers_are_all_the_others(known: Seq<NodeIdentity>, id: Seq<char>, n: nat, i: int)
    requires
        0 <= i < n <= known.len(),
    ensures
        known[i].node_id@ != id ==> other_addresses(known, id, n).contains(known[i].advertise@),
        other_addresses(known, id, n).len() == known.take(n as int).filter(
            |x: NodeIdentity| x.node_id@ != id,
        ).len(),
    decreases n,
{
    reveal(Seq::filter);
    let before = other_addresses(known, id, (n - 1) as nat);
    let all = other_addresses(known, id, n);
    assert(known.take(n as int).drop_last() =~= known.take(n - 1));
    assert(known.take(n as int).last() == known[n - 1]);
    if n > 1 {
        law_peers_are_all_the_others(known, id, (n - 1) as nat, if i < n - 1 {
            i
        } else {
            0
        });
    } else {
        assert(known.take(0).filter(|x: NodeIdentity| x.node_id@ != id).len() == 0);
    }
    if known[i].node_id@ != id {
        if i < n - 1 {
            let a = known[i].advertise@;
            let j = choose|j: int| 0 <= j < before.len() && before[j] == a;
            assert(all[j] == a);
        } else {
            assert(all[all.len() - 1] == known[i].advertise@);
        }
    }
}

} // verus!
