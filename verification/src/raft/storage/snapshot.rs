//! Snapshot files. Each snapshot is one file named `snap-<index>.msgpack`:
//! ```text
//! +-------------------+----------------+--------------+
//! | header length u32 | header         | state        |
//! +-------------------+----------------+--------------+
//! ```
//! After a successful write older snapshots are removed, keeping only the last two.

use vstd::bytes::*;
use vstd::prelude::*;
use vstd::string::*;

use crate::text;

verus! {

/// Header of a snapshot.
#[derive(Clone, Copy, Debug, PartialEq, Eq, Structural)]
pub struct SnapshotMeta {
    pub last_applied_index: u64,
    pub last_applied_term: u64,
    pub created_at_unix_secs: u64,
}

/// The header of a snapshot that is written now.
pub fn snapshot_meta(index: u64, term: u64, now: u64) -> (r: SnapshotMeta)
    ensures
        r == (SnapshotMeta {
            last_applied_index: index,
            last_applied_term: term,
            created_at_unix_secs: now,
        }),
{
    SnapshotMeta { last_applied_index: index, last_applied_term: term, created_at_unix_secs: now }
}

/// How many snapshots are kept. On a crash during an install the previous snapshot is
/// still readable.
pub const MAX_KEPT: usize = 2;

// ------------------------------------------------------------------- header

/// The bytes of three numbers: eight for each, the lowest first.
pub open spec fn number_bytes(a: u64, b: u64, c: u64) -> Seq<u8> {
    spec_u64_to_le_bytes(a) + spec_u64_to_le_bytes(b) + spec_u64_to_le_bytes(c)
}

/// The three numbers at the start of bytes, where these are long enough to hold them.
pub open spec fn numbers_in(bytes: Seq<u8>) -> Option<(u64, u64, u64)> {
    if bytes.len() < 24 {
        None
    } else {
        Some(
            (
                spec_u64_from_le_bytes(bytes.subrange(0, 8)),
                spec_u64_from_le_bytes(bytes.subrange(8, 16)),
                spec_u64_from_le_bytes(bytes.subrange(16, 24)),
            ),
        )
    }
}

/// Calls `bincode::serialize` on three numbers. It writes each of them in eight bytes, the
/// lowest first, with nothing before, between or behind them. Into a vector and without a
/// limit on the size that does not fail.
#[verifier::external_body]
fn write_numbers(a: u64, b: u64, c: u64) -> (r: Result<Vec<u8>, String>)
    ensures
        r is Ok,
        r->Ok_0@ == number_bytes(a, b, c),
{
    bincode::serialize(&(a, b, c)).map_err(|e| e.to_string())
}

/// Calls `bincode::deserialize` for three numbers. It takes each of them from eight bytes,
/// the lowest first. It fails where the bytes end too soon, and does not look at what is
/// behind the numbers.
#[verifier::external_body]
fn read_numbers(bytes: &[u8]) -> (r: Option<(u64, u64, u64)>)
    ensures
        r == numbers_in(bytes@),
{
    bincode::deserialize::<(u64, u64, u64)>(bytes).ok()
}

/// The bytes of a header.
pub open spec fn meta_bytes(meta: SnapshotMeta) -> Seq<u8> {
    number_bytes(meta.last_applied_index, meta.last_applied_term, meta.created_at_unix_secs)
}

/// The header that bytes hold, where these are long enough.
pub open spec fn meta_in(bytes: Seq<u8>) -> Option<SnapshotMeta> {
    match numbers_in(bytes) {
        Some(n) => Some(
            SnapshotMeta {
                last_applied_index: n.0,
                last_applied_term: n.1,
                created_at_unix_secs: n.2,
            },
        ),
        None => None,
    }
}

/// Writes a header.
pub fn encode_meta(meta: &SnapshotMeta) -> (r: Result<Vec<u8>, String>)
    ensures
        r matches Ok(bytes) && bytes@ == meta_bytes(*meta),
{
    write_numbers(meta.last_applied_index, meta.last_applied_term, meta.created_at_unix_secs)
}

/// Reads a header. Bytes that are too short for one are refused.
pub fn decode_meta(bytes: &[u8]) -> (r: Result<SnapshotMeta, String>)
    ensures
        match r {
            Ok(meta) => meta_in(bytes@) == Some(meta),
            Err(e) => meta_in(bytes@) is None && e@ == "io error: unexpected end of file"@,
        },
{
    match read_numbers(bytes) {
        Some(n) => Ok(snapshot_meta(n.0, n.1, n.2)),
        None => Err("io error: unexpected end of file".to_owned()),
    }
}

/// A header is read back as it was written.
pub proof fn law_meta_round_trip(meta: SnapshotMeta)
    ensures
        meta_in(meta_bytes(meta)) == Some(meta),
        meta_bytes(meta).len() == 24,
{
    lemma_auto_spec_u64_to_from_le_bytes();
    let bytes = meta_bytes(meta);
    assert(bytes.subrange(0, 8) =~= spec_u64_to_le_bytes(meta.last_applied_index));
    assert(bytes.subrange(8, 16) =~= spec_u64_to_le_bytes(meta.last_applied_term));
    assert(bytes.subrange(16, 24) =~= spec_u64_to_le_bytes(meta.created_at_unix_secs));
}

// -------------------------------------------------------------------- frame

/// The bytes of a snapshot file.
pub open spec fn frame(header: Seq<u8>, body: Seq<u8>) -> Seq<u8> {
    spec_u32_to_le_bytes(header.len() as u32) + header + body
}

/// The header and the state of a snapshot file, where it is long enough to hold them.
pub open spec fn unframed(file: Seq<u8>) -> Option<(Seq<u8>, Seq<u8>)> {
    let n = spec_u32_from_le_bytes(file.take(4)) as int;
    if file.len() < 4 || file.len() - 4 < n {
        None
    } else {
        Some((file.subrange(4, 4 + n), file.skip(4 + n)))
    }
}

/// Puts a snapshot file together. A header that is too long is refused.
pub fn encode_snapshot(header: &[u8], body: &[u8]) -> (r: Result<Vec<u8>, String>)
    ensures
        r is Ok <==> header@.len() <= u32::MAX,
        r matches Ok(file) ==> file@ == frame(header@, body@),
        r matches Err(e) ==> e@ == "meta too large"@,
{
    if header.len() > 0xffff_ffff {
        return Err("meta too large".to_owned());
    }
    let mut out = u32_to_le_bytes(header.len() as u32);
    out.extend_from_slice(header);
    out.extend_from_slice(body);
    assert(out@ =~= frame(header@, body@));
    Ok(out)
}

/// Takes a snapshot file apart. A file that is too short is refused.
pub fn decode_snapshot(file: &[u8]) -> (r: Result<(Vec<u8>, Vec<u8>), String>)
    ensures
        r is Ok <==> unframed(file@) is Some,
        r matches Ok(parts) ==> unframed(file@) == Some((parts.0@, parts.1@)),
        r matches Err(e) ==> e@ == "failed to fill whole buffer"@,
{
    if file.len() < 4 {
        return Err("failed to fill whole buffer".to_owned());
    }
    let lead = vstd::slice::slice_subrange(file, 0, 4);
    assert(lead@ =~= file@.take(4));
    let n: usize = u32_from_le_bytes(lead) as usize;
    if file.len() - 4 < n {
        return Err("failed to fill whole buffer".to_owned());
    }
    let header = vstd::slice::slice_to_vec(vstd::slice::slice_subrange(file, 4, 4 + n));
    let body = vstd::slice::slice_to_vec(vstd::slice::slice_subrange(file, 4 + n, file.len()));
    assert(file@.subrange(4 + n, file@.len() as int) =~= file@.skip(4 + n));
    Ok((header, body))
}

/// A snapshot file is taken apart into what it was put together from.
pub proof fn law_snapshot_round_trip(header: Seq<u8>, body: Seq<u8>)
    requires
        header.len() <= u32::MAX,
    ensures
        unframed(frame(header, body)) == Some((header, body)),
{
    lemma_auto_spec_u32_to_from_le_bytes();
    let file = frame(header, body);
    let lead = spec_u32_to_le_bytes(header.len() as u32);
    assert(lead.len() == 4);
    assert(file.take(4) =~= lead);
    let n = header.len() as int;
    assert(file.subrange(4, 4 + n) =~= header);
    assert(file.skip(4 + n) =~= body);
}

// -------------------------------------------------------------------- names

/// The file name of a snapshot.
pub open spec fn snapshot_name(index: u64) -> Seq<char> {
    "snap-"@ + text::decimal(index as nat) + ".msgpack"@
}

/// The index that a file name states, where it is the name of a snapshot.
pub open spec fn name_index(name: Seq<char>) -> Option<u64> {
    if !text::has_prefix(name, "snap-"@) {
        None
    } else {
        let rest = name.skip("snap-"@.len() as int);
        if !text::has_suffix(rest, ".msgpack"@) {
            None
        } else {
            text::u64_value(rest.take(rest.len() - ".msgpack"@.len()))
        }
    }
}

/// The file name of a snapshot.
pub fn file_name(index: u64) -> (r: String)
    ensures
        r@ == snapshot_name(index),
{
    let mut out = "snap-".to_owned();
    out.append(text::decimal_u64(index).as_str());
    out.append(".msgpack");
    out
}

/// The index that a file name states, where it is the name of a snapshot.
pub fn index_of_name(name: &str) -> (r: Option<u64>)
    ensures
        r == name_index(name@),
{
    match text::strip_prefix(name, "snap-") {
        None => None,
        Some(rest) => match text::strip_suffix(rest, ".msgpack") {
            None => None,
            Some(digits) => text::parse_u64(digits),
        },
    }
}

/// A snapshot's file name states its index.
pub proof fn law_name_states_index(index: u64)
    ensures
        name_index(snapshot_name(index)) == Some(index),
{
    let name = snapshot_name(index);
    let digits = text::decimal(index as nat);
    let lead = "snap-"@;
    let tail = ".msgpack"@;
    assert(name.take(lead.len() as int) =~= lead);
    let rest = name.skip(lead.len() as int);
    assert(rest =~= digits + tail);
    assert(rest.skip(rest.len() - tail.len()) =~= tail);
    assert(rest.take(rest.len() - tail.len()) =~= digits);
    text::lemma_u64_round_trip(index);
}

/// The snapshot indexes among the first `n` file names, in order.
pub open spec fn indexes_in(names: Seq<Seq<char>>, n: nat) -> Seq<u64>
    decreases n,
{
    if n == 0 {
        Seq::empty()
    } else {
        let before = indexes_in(names, (n - 1) as nat);
        match name_index(names[n - 1]) {
            Some(i) => before.push(i),
            None => before,
        }
    }
}

/// The snapshot indexes among the names of a directory.
pub fn list_indexes(names: &Vec<String>) -> (r: Vec<u64>)
    ensures
        r@ == indexes_in(crate::order::views(names@), names@.len()),
{
    let mut out: Vec<u64> = Vec::new();
    let ghost nv = crate::order::views(names@);
    let mut i: usize = 0;
    while i < names.len()
        invariant
            i <= names@.len(),
            nv == crate::order::views(names@),
            out@ == indexes_in(nv, i as nat),
        decreases names@.len() - i,
    {
        if let Some(n) = index_of_name(names[i].as_str()) {
            out.push(n);
        }
        i = i + 1;
    }
    out
}

// ------------------------------------------------------------------ pruning

/// Inserts a number behind every leading number that is not greater.
pub open spec fn insert_number(s: Seq<u64>, x: u64) -> Seq<u64>
    decreases s.len(),
{
    if s.len() == 0 {
        seq![x]
    } else if x < s[0] {
        seq![x] + s
    } else {
        seq![s[0]] + insert_number(s.drop_first(), x)
    }
}

/// The numbers in ascending order.
pub open spec fn in_order(s: Seq<u64>) -> Seq<u64>
    decreases s.len(),
{
    if s.len() == 0 {
        Seq::empty()
    } else {
        insert_number(in_order(s.drop_last()), s.last())
    }
}

proof fn lemma_insert_number(s: Seq<u64>, x: u64, p: int)
    requires
        0 <= p <= s.len(),
        forall|i: int| 0 <= i < p ==> (#[trigger] s[i]) <= x,
        p < s.len() ==> x < s[p],
    ensures
        insert_number(s, x) == s.insert(p, x),
    decreases s.len(),
{
    if s.len() == 0 {
        assert(s.insert(p, x) =~= seq![x]);
    } else if p == 0 {
        assert(s.insert(p, x) =~= seq![x] + s);
    } else {
        let t = s.drop_first();
        assert(s[0] <= x);
        assert forall|i: int| 0 <= i < p - 1 implies (#[trigger] t[i]) <= x by {
            assert(t[i] == s[i + 1]);
        }
        lemma_insert_number(t, x, p - 1);
        assert(s.insert(p, x) =~= seq![s[0]] + t.insert(p - 1, x));
    }
}

/// The ordered numbers are the same numbers, in ascending order.
pub proof fn lemma_in_order(s: Seq<u64>)
    ensures
        in_order(s).to_multiset() =~= s.to_multiset(),
        in_order(s).len() == s.len(),
        forall|i: int, j: int|
            #![trigger in_order(s)[i], in_order(s)[j]]
            0 <= i <= j < s.len() ==> in_order(s)[i] <= in_order(s)[j],
    decreases s.len(),
{
    broadcast use vstd::seq_lib::group_to_multiset_ensures;

    if s.len() > 0 {
        let before = in_order(s.drop_last());
        let x = s.last();
        lemma_in_order(s.drop_last());
        let p = lemma_number_place(before, x, 0);
        lemma_insert_number(before, x, p);
        assert(s =~= s.drop_last().push(x));
        assert(before.insert(p, x).to_multiset() =~= before.to_multiset().insert(x)) by {
            let a = before.take(p);
            let b = before.skip(p);
            assert(before =~= a + b);
            assert(before.insert(p, x) =~= a.push(x) + b);
            vstd::seq_lib::lemma_multiset_commutative(a.push(x), b);
            vstd::seq_lib::lemma_multiset_commutative(a, b);
        }
        let r = in_order(s);
        assert forall|i: int, j: int|
            #![trigger r[i], r[j]]
            0 <= i <= j < r.len() implies r[i] <= r[j] by {
            if i < p && j < p {
                assert(before[i] <= before[j]);
            } else if i < p && j == p {
            } else if i < p && j > p {
                assert(before[i] <= before[j - 1]);
            } else if i == p && j > p {
                assert(before[p] <= before[j - 1]);
            } else if i > p {
                assert(before[i - 1] <= before[j - 1]);
            }
        }
    } else {
        assert(s =~= Seq::<u64>::empty());
    }
}

proof fn lemma_number_place(s: Seq<u64>, x: u64, from: int) -> (p: int)
    requires
        0 <= from <= s.len(),
        forall|i: int| 0 <= i < from ==> (#[trigger] s[i]) <= x,
    ensures
        from <= p <= s.len(),
        forall|i: int| 0 <= i < p ==> (#[trigger] s[i]) <= x,
        p < s.len() ==> x < s[p],
    decreases s.len() - from,
{
    if from == s.len() || x < s[from] {
        from
    } else {
        lemma_number_place(s, x, from + 1)
    }
}

/// Sorts numbers in ascending order.
pub fn sort_numbers(v: &Vec<u64>) -> (r: Vec<u64>)
    ensures
        r@ == in_order(v@),
{
    let mut out: Vec<u64> = Vec::new();
    let mut n: usize = 0;
    assert(v@.take(0) =~= Seq::<u64>::empty());
    while n < v.len()
        invariant
            n <= v@.len(),
            out@ == in_order(v@.take(n as int)),
        decreases v@.len() - n,
    {
        let x: u64 = v[n];
        let mut p: usize = 0;
        while p < out.len() && out[p] <= x
            invariant
                p <= out@.len(),
                forall|i: int| 0 <= i < p ==> (#[trigger] out@[i]) <= x,
            ensures
                p <= out@.len(),
                forall|i: int| 0 <= i < p ==> (#[trigger] out@[i]) <= x,
                p < out@.len() ==> x < out@[p as int],
            decreases out@.len() - p,
        {
            p = p + 1;
        }
        proof {
            lemma_insert_number(out@, x, p as int);
            assert(v@.take(n + 1).drop_last() =~= v@.take(n as int));
            assert(v@.take(n + 1).last() == x);
        }
        out.insert(p, x);
        n = n + 1;
    }
    assert(v@.take(n as int) =~= v@);
    out
}

/// The newest snapshot: the greatest index.
pub open spec fn newest(indexes: Seq<u64>) -> Option<u64> {
    if indexes.len() == 0 {
        None
    } else {
        Some(in_order(indexes).last())
    }
}

/// The newest snapshot, if there is one.
pub fn latest_index(indexes: &Vec<u64>) -> (r: Option<u64>)
    ensures
        r == newest(indexes@),
{
    let sorted = sort_numbers(indexes);
    proof {
        lemma_in_order(indexes@);
    }
    if sorted.len() == 0 {
        None
    } else {
        Some(sorted[sorted.len() - 1])
    }
}

/// The snapshots to be removed once `latest` was written: all but the last two, and
/// never `latest` itself or a newer one.
pub open spec fn obsolete(indexes: Seq<u64>, latest: u64) -> Seq<u64> {
    let cut = if indexes.len() > MAX_KEPT {
        indexes.len() - MAX_KEPT
    } else {
        0
    };
    in_order(indexes).take(cut).filter(|i: u64| i < latest)
}

/// The snapshots to be removed once `latest` was written.
pub fn prune_older_than(indexes: &Vec<u64>, latest: u64) -> (r: Vec<u64>)
    ensures
        r@ == obsolete(indexes@, latest),
{
    let sorted = sort_numbers(indexes);
    proof {
        lemma_in_order(indexes@);
        reveal(Seq::filter);
    }
    let mut out: Vec<u64> = Vec::new();
    let ghost older = |i: u64| i < latest;
    if sorted.len() <= MAX_KEPT {
        assert(sorted@.take(0) =~= Seq::<u64>::empty());
        return out;
    }
    let cut: usize = sorted.len() - MAX_KEPT;
    let mut n: usize = 0;
    assert(sorted@.take(0).filter(older) =~= Seq::<u64>::empty());
    while n < cut
        invariant
            n <= cut <= sorted@.len(),
            out@ == sorted@.take(n as int).filter(older),
            older == (|i: u64| i < latest),
        decreases cut - n,
    {
        proof {
            reveal(Seq::filter);
            assert(sorted@.take(n + 1).drop_last() =~= sorted@.take(n as int));
            assert(sorted@.take(n + 1).last() == sorted@[n as int]);
        }
        if sorted[n] < latest {
            out.push(sorted[n]);
        }
        n = n + 1;
    }
    out
}

proof fn lemma_filter_from(s: Seq<u64>, keep: spec_fn(u64) -> bool, i: int)
    requires
        0 <= i < s.filter(keep).len(),
    ensures
        keep(s.filter(keep)[i]),
        s.contains(s.filter(keep)[i]),
    decreases s.len(),
{
    reveal(Seq::filter);
    if s.len() > 0 {
        let d = s.drop_last();
        if i < d.filter(keep).len() {
            lemma_filter_from(d, keep, i);
            let x = d.filter(keep)[i];
            let k = choose|k: int| 0 <= k < d.len() && d[k] == x;
            assert(s[k] == x);
        } else {
            assert(s[s.len() - 1] == s.last());
        }
    }
}

/// Pruning never removes the snapshot just written or a newer one. What it removes is
/// not newer than the second newest, and at least two snapshots stay.
pub proof fn law_prune_keeps_the_newest(indexes: Seq<u64>, latest: u64, i: int)
    requires
        0 <= i < obsolete(indexes, latest).len(),
    ensures
        obsolete(indexes, latest)[i] < latest,
        indexes.len() > MAX_KEPT,
        obsolete(indexes, latest)[i] <= in_order(indexes)[indexes.len() - MAX_KEPT],
        obsolete(indexes, latest).len() <= indexes.len() - MAX_KEPT,
{
    lemma_in_order(indexes);
    reveal(Seq::filter);
    let older = |i: u64| i < latest;
    let cut = if indexes.len() > MAX_KEPT {
        indexes.len() - MAX_KEPT
    } else {
        0
    };
    let part = in_order(indexes).take(cut);
    part.lemma_filter_len(older);
    if cut == 0 {
        assert(part =~= Seq::<u64>::empty());
    }
    let gone = part.filter(older);
    lemma_filter_from(part, older, i);
    let k = choose|k: int| 0 <= k < part.len() && part[k] == gone[i];
    assert(in_order(indexes)[k] <= in_order(indexes)[indexes.len() - MAX_KEPT]);
}

proof fn lemma_filter_all(s: Seq<u64>, keep: spec_fn(u64) -> bool)
    requires
        forall|i: int| 0 <= i < s.len() ==> keep(#[trigger] s[i]),
    ensures
        s.filter(keep) == s,
    decreases s.len(),
{
    reveal(Seq::filter);
    if s.len() > 0 {
        let d = s.drop_last();
        assert forall|i: int| 0 <= i < d.len() implies keep(#[trigger] d[i]) by {
            assert(d[i] == s[i]);
        }
        lemma_filter_all(d, keep);
        assert(keep(s[s.len() - 1]));
        assert(d.push(s.last()) =~= s);
    }
}

/// Where the snapshot just written is the newest, exactly the two newest stay.
pub proof fn law_prune_keeps_two(indexes: Seq<u64>, latest: u64)
    requires
        indexes.no_duplicates(),
        newest(indexes) == Some(latest),
        indexes.len() > MAX_KEPT,
    ensures
        obsolete(indexes, latest) == in_order(indexes).take(indexes.len() - MAX_KEPT),
{
    lemma_in_order(indexes);
    let sorted = in_order(indexes);
    indexes.lemma_multiset_has_no_duplicates();
    sorted.lemma_multiset_has_no_duplicates_conv();
    let cut = indexes.len() - MAX_KEPT;
    let part = sorted.take(cut);
    let older = |i: u64| i < latest;
    assert forall|i: int| 0 <= i < part.len() implies older(#[trigger] part[i]) by {
        assert(sorted[i] <= sorted[sorted.len() - 1]);
        assert(sorted[i] != sorted[sorted.len() - 1]);
    }
    lemma_filter_all(part, older);
}

} // verus!
