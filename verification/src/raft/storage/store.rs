//! The snapshots of a directory: what is written, what is read back, and what is removed.

use vstd::prelude::*;
use vstd::string::*;

use super::snapshot;
use super::snapshot::SnapshotMeta;
use crate::order;
use crate::text;

verus! {

/// The files of a directory that holds snapshots: their names and their bytes.
pub struct SnapshotStore {
    files: Vec<(String, Vec<u8>)>,
}

// --------------------------------------------------------------------- model

/// Files as mathematical values.
pub open spec fn file_models(v: Seq<(String, Vec<u8>)>) -> Seq<(Seq<char>, Seq<u8>)> {
    Seq::new(v.len(), |i: int| (v[i].0@, v[i].1@))
}

/// The names of files.
pub open spec fn names_in(files: Seq<(Seq<char>, Seq<u8>)>) -> Seq<Seq<char>> {
    Seq::new(files.len(), |i: int| files[i].0)
}

/// The indexes that the names state.
pub open spec fn indexes_of(files: Seq<(Seq<char>, Seq<u8>)>) -> Seq<u64> {
    snapshot::indexes_in(names_in(files), files.len())
}

/// The bytes of the file with a name, if there is one.
pub open spec fn bytes_of(files: Seq<(Seq<char>, Seq<u8>)>, name: Seq<char>) -> Option<Seq<u8>>
    decreases files.len(),
{
    if files.len() == 0 {
        None
    } else if files.last().0 == name {
        Some(files.last().1)
    } else {
        bytes_of(files.drop_last(), name)
    }
}

/// The files without the one that has a name.
pub open spec fn without(files: Seq<(Seq<char>, Seq<u8>)>, name: Seq<char>) -> Seq<
    (Seq<char>, Seq<u8>),
>
    decreases files.len(),
{
    if files.len() == 0 {
        files
    } else if files.last().0 == name {
        without(files.drop_last(), name)
    } else {
        without(files.drop_last(), name).push(files.last())
    }
}

/// The files once a snapshot was written under its name.
pub open spec fn written(
    files: Seq<(Seq<char>, Seq<u8>)>,
    index: u64,
    bytes: Seq<u8>,
) -> Seq<(Seq<char>, Seq<u8>)> {
    let name = snapshot::snapshot_name(index);
    without(files, name).push((name, bytes))
}

/// The files without the first `n` of the given snapshots.
pub open spec fn without_all(files: Seq<(Seq<char>, Seq<u8>)>, gone: Seq<u64>, n: nat) -> Seq<
    (Seq<char>, Seq<u8>),
>
    decreases n,
{
    if n == 0 {
        files
    } else {
        without(without_all(files, gone, (n - 1) as nat), snapshot::snapshot_name(gone[n - 1]))
    }
}

/// The files once the snapshots that `latest` makes obsolete are removed.
pub open spec fn pruned(files: Seq<(Seq<char>, Seq<u8>)>, latest: u64) -> Seq<
    (Seq<char>, Seq<u8>),
> {
    let gone = snapshot::obsolete(indexes_of(files), latest);
    without_all(files, gone, gone.len())
}

/// The bytes of a snapshot's file.
pub open spec fn snapshot_file(meta: SnapshotMeta, body: Seq<u8>) -> Seq<u8> {
    snapshot::frame(snapshot::meta_bytes(meta), body)
}

/// The files once a snapshot was stored.
pub open spec fn stored(
    files: Seq<(Seq<char>, Seq<u8>)>,
    meta: SnapshotMeta,
    body: Seq<u8>,
) -> Seq<(Seq<char>, Seq<u8>)> {
    pruned(
        written(files, meta.last_applied_index, snapshot_file(meta, body)),
        meta.last_applied_index,
    )
}

/// What is read of the newest snapshot: nothing where there is none, and its header and
/// state where its file is whole.
pub open spec fn loaded(files: Seq<(Seq<char>, Seq<u8>)>) -> Result<
    Option<(SnapshotMeta, Seq<u8>)>,
    Seq<char>,
> {
    match snapshot::newest(indexes_of(files)) {
        None => Ok(None),
        Some(i) => match bytes_of(files, snapshot::snapshot_name(i)) {
            None => Err("no such file"@),
            Some(file) => match snapshot::unframed(file) {
                None => Err("failed to fill whole buffer"@),
                Some(parts) => match snapshot::meta_in(parts.0) {
                    None => Err("io error: unexpected end of file"@),
                    Some(meta) => Ok(Some((meta, parts.1))),
                },
            },
        },
    }
}

// ---------------------------------------------------------------------- store

fn find<'a>(files: &'a Vec<(String, Vec<u8>)>, name: &str) -> (r: Option<&'a Vec<u8>>)
    ensures
        match r {
            Some(b) => bytes_of(file_models(files@), name@) == Some(b@),
            None => bytes_of(file_models(files@), name@) is None,
        },
{
    let mut i: usize = files.len();
    let ghost all = file_models(files@);
    assert(all.take(i as int) =~= all);
    while i > 0
        invariant
            i <= files@.len(),
            all == file_models(files@),
            bytes_of(all, name@) == bytes_of(all.take(i as int), name@),
        decreases i,
    {
        i = i - 1;
        assert(all.take(i + 1).drop_last() =~= all.take(i as int));
        assert(all.take(i + 1).last() == all[i as int]);
        if text::str_eq(files[i].0.as_str(), name) {
            return Some(&files[i].1);
        }
    }
    None
}

fn remove(files: &mut Vec<(String, Vec<u8>)>, name: &str)
    ensures
        file_models(final(files)@) == without(file_models(old(files)@), name@),
{
    let ghost all = file_models(files@);
    let mut from: Vec<(String, Vec<u8>)> = Vec::new();
    std::mem::swap(files, &mut from);
    let ghost mut i: int = 0;
    assert(all.take(0) =~= Seq::empty());
    assert(file_models(files@) =~= without(all.take(0), name@));
    while from.len() > 0
        invariant
            0 <= i,
            i + from@.len() == all.len(),
            file_models(from@) == all.skip(i),
            file_models(files@) == without(all.take(i), name@),
        decreases from@.len(),
    {
        let ghost before = from@;
        let ghost kept = files@;
        let next = from.remove(0);
        proof {
            assert(all.skip(i)[0] == all[i]);
            assert((next.0@, next.1@) == file_models(before)[0]);
            assert(all.take(i + 1).drop_last() =~= all.take(i));
            assert(all.take(i + 1).last() == all[i]);
            assert(file_models(from@) =~= file_models(before).skip(1));
            assert(all.skip(i).skip(1) =~= all.skip(i + 1));
        }
        if !text::str_eq(next.0.as_str(), name) {
            files.push(next);
            assert(file_models(files@) =~= file_models(kept).push((next.0@, next.1@)));
        }
        proof {
            i = i + 1;
        }
    }
    assert(all.take(i) =~= all);
}

impl SnapshotStore {
    /// The files of the directory.
    pub closed spec fn files(&self) -> Seq<(Seq<char>, Seq<u8>)> {
        file_models(self.files@)
    }

    /// Takes over the files of a directory.
    pub fn open(files: Vec<(String, Vec<u8>)>) -> (r: Self)
        ensures
            r.files() == file_models(files@),
    {
        SnapshotStore { files }
    }

    /// The indexes of the snapshots.
    pub fn list_indexes(&self) -> (r: Vec<u64>)
        ensures
            r@ == indexes_of(self.files()),
    {
        let mut names: Vec<String> = Vec::new();
        while names.len() < self.files.len()
            invariant
                names@.len() <= self.files@.len(),
                forall|i: int|
                    0 <= i < names@.len() ==> (#[trigger] names@[i])@ == self.files@[i].0@,
            decreases self.files@.len() - names@.len(),
        {
            names.push(self.files[names.len()].0.clone());
        }
        assert(order::views(names@) =~= names_in(self.files()));
        snapshot::list_indexes(&names)
    }

    /// Writes a snapshot and removes those that it makes obsolete. Returns its header, and
    /// the indexes of the removed ones.
    pub fn store(&mut self, index: u64, term: u64, now: u64, body: &[u8]) -> (r: Result<
        (SnapshotMeta, Vec<u64>),
        String,
    >)
        ensures
            r matches Ok(done) && done.0 == (SnapshotMeta {
                last_applied_index: index,
                last_applied_term: term,
                created_at_unix_secs: now,
            }) && done.1@ == snapshot::obsolete(
                indexes_of(written(old(self).files(), index, snapshot_file(done.0, body@))),
                index,
            ) && final(self).files() == stored(old(self).files(), done.0, body@),
    {
        let meta = snapshot::snapshot_meta(index, term, now);
        let header = match snapshot::encode_meta(&meta) {
            Ok(h) => h,
            Err(e) => {
                return Err(e);
            },
        };
        proof {
            snapshot::law_meta_round_trip(meta);
        }
        let file = match snapshot::encode_snapshot(header.as_slice(), body) {
            Ok(f) => f,
            Err(e) => {
                return Err(e);
            },
        };
        let ghost bytes = file@;
        let name = snapshot::file_name(index);
        remove(&mut self.files, name.as_str());
        let ghost rest = file_models(self.files@);
        self.files.push((name, file));
        assert(file_models(self.files@) =~= rest.push((snapshot::snapshot_name(index), bytes)));
        let ghost all = self.files();
        let listed = self.list_indexes();
        let gone = snapshot::prune_older_than(&listed, index);
        let mut i: usize = 0;
        while i < gone.len()
            invariant
                i <= gone@.len(),
                file_models(self.files@) == without_all(all, gone@, i as nat),
            decreases gone@.len() - i,
        {
            let old_name = snapshot::file_name(gone[i]);
            remove(&mut self.files, old_name.as_str());
            i = i + 1;
        }
        Ok((meta, gone))
    }

    /// Reads the newest snapshot, if there is one: its header and its state.
    pub fn load_latest(&self) -> (r: Result<Option<(SnapshotMeta, Vec<u8>)>, String>)
        ensures
            match r {
                Ok(None) => loaded(self.files()) == Ok::<_, Seq<char>>(
                    None::<(SnapshotMeta, Seq<u8>)>,
                ),
                Ok(Some(p)) => loaded(self.files()) == Ok::<_, Seq<char>>(Some((p.0, p.1@))),
                Err(e) => loaded(self.files()) == Err::<Option<(SnapshotMeta, Seq<u8>)>, _>(e@),
            },
    {
        let listed = self.list_indexes();
        let index: u64 = match snapshot::latest_index(&listed) {
            Some(i) => i,
            None => {
                return Ok(None);
            },
        };
        let name = snapshot::file_name(index);
        match find(&self.files, name.as_str()) {
            Some(file) => match snapshot::decode_snapshot(file.as_slice()) {
                Ok(parts) => match snapshot::decode_meta(parts.0.as_slice()) {
                    Ok(meta) => Ok(Some((meta, parts.1))),
                    Err(e) => Err(e),
                },
                Err(e) => Err(e),
            },
            None => Err("no such file".to_owned()),
        }
    }
}

// --------------------------------------------------------------------- lemmas

proof fn lemma_indexes(names: Seq<Seq<char>>, n: nat, x: u64)
    requires
        n <= names.len(),
    ensures
        snapshot::indexes_in(names, n).contains(x) <==> (exists|i: int|
            0 <= i < n && #[trigger] snapshot::name_index(names[i]) == Some(x)),
    decreases n,
{
    if n > 0 {
        let m = (n - 1) as nat;
        lemma_indexes(names, m, x);
        let before = snapshot::indexes_in(names, m);
        let after = snapshot::indexes_in(names, n);
        if after.contains(x) {
            let k = choose|k: int| 0 <= k < after.len() && after[k] == x;
            if k < before.len() {
                assert(before[k] == x);
                assert(before.contains(x));
            } else {
                assert(snapshot::name_index(names[n - 1]) == Some(x));
            }
        }
        if before.contains(x) {
            let k = choose|k: int| 0 <= k < before.len() && before[k] == x;
            assert(after[k] == x);
        }
        if snapshot::name_index(names[n - 1]) == Some(x) {
            assert(after[before.len() as int] == x);
        }
    }
}

/// An index is listed where a file has a name that states it.
proof fn lemma_listed(files: Seq<(Seq<char>, Seq<u8>)>, x: u64)
    ensures
        indexes_of(files).contains(x) <==> (exists|i: int|
            0 <= i < files.len() && snapshot::name_index((#[trigger] files[i]).0) == Some(x)),
{
    let names = names_in(files);
    lemma_indexes(names, files.len(), x);
    if indexes_of(files).contains(x) {
        let i = choose|i: int|
            0 <= i < names.len() && #[trigger] snapshot::name_index(names[i]) == Some(x);
        assert(snapshot::name_index(files[i].0) == Some(x));
    }
    if exists|i: int|
        0 <= i < files.len() && snapshot::name_index((#[trigger] files[i]).0) == Some(x) {
        let i = choose|i: int|
            0 <= i < files.len() && snapshot::name_index((#[trigger] files[i]).0) == Some(x);
        assert(snapshot::name_index(names[i]) == Some(x));
    }
}

/// A file that is found has its name in the list.
proof fn lemma_found(files: Seq<(Seq<char>, Seq<u8>)>, name: Seq<char>)
    requires
        bytes_of(files, name) is Some,
    ensures
        exists|i: int| 0 <= i < files.len() && (#[trigger] files[i]).0 == name,
    decreases files.len(),
{
    if files.last().0 == name {
        assert(files[files.len() - 1].0 == name);
    } else {
        let d = files.drop_last();
        lemma_found(d, name);
        let i = choose|i: int| 0 <= i < d.len() && (#[trigger] d[i]).0 == name;
        assert(files[i].0 == name);
    }
}

/// Removing a file leaves the others as they are.
proof fn lemma_without(files: Seq<(Seq<char>, Seq<u8>)>, name: Seq<char>, other: Seq<char>)
    ensures
        other != name ==> bytes_of(without(files, name), other) == bytes_of(files, other),
        forall|i: int|
            0 <= i < without(files, name).len() ==> exists|j: int|
                0 <= j < files.len() && (#[trigger] files[j]) == #[trigger] without(files, name)[i],
    decreases files.len(),
{
    if files.len() > 0 {
        let d = files.drop_last();
        lemma_without(d, name, other);
        let kept = without(files, name);
        assert forall|i: int| 0 <= i < kept.len() implies exists|j: int|
            0 <= j < files.len() && (#[trigger] files[j]) == #[trigger] kept[i] by {
            if i < without(d, name).len() {
                assert(kept[i] == without(d, name)[i]);
                let j = choose|j: int|
                    0 <= j < d.len() && (#[trigger] d[j]) == without(d, name)[i];
                assert(files[j] == kept[i]);
            } else {
                assert(files[files.len() - 1] == kept[i]);
            }
        }
        if files.last().0 != name {
            assert(kept.drop_last() =~= without(d, name));
        }
    }
}

proof fn lemma_without_all(
    files: Seq<(Seq<char>, Seq<u8>)>,
    gone: Seq<u64>,
    n: nat,
    other: Seq<char>,
)
    requires
        n <= gone.len(),
        forall|k: int| 0 <= k < n ==> other != snapshot::snapshot_name(#[trigger] gone[k]),
    ensures
        bytes_of(without_all(files, gone, n), other) == bytes_of(files, other),
        forall|i: int|
            0 <= i < without_all(files, gone, n).len() ==> exists|j: int|
                0 <= j < files.len() && (#[trigger] files[j]) == #[trigger] without_all(
                    files,
                    gone,
                    n,
                )[i],
    decreases n,
{
    if n > 0 {
        let m = (n - 1) as nat;
        lemma_without_all(files, gone, m, other);
        let part = without_all(files, gone, m);
        let name = snapshot::snapshot_name(gone[n - 1]);
        lemma_without(part, name, other);
        let kept = without_all(files, gone, n);
        assert forall|i: int| 0 <= i < kept.len() implies exists|j: int|
            0 <= j < files.len() && (#[trigger] files[j]) == #[trigger] kept[i] by {
            let k = choose|k: int| 0 <= k < part.len() && (#[trigger] part[k]) == kept[i];
            let j = choose|j: int| 0 <= j < files.len() && (#[trigger] files[j]) == part[k];
            assert(files[j] == kept[i]);
        }
    }
}

proof fn lemma_newest(s: Seq<u64>, x: u64)
    requires
        s.contains(x),
        forall|i: int| 0 <= i < s.len() ==> (#[trigger] s[i]) <= x,
    ensures
        snapshot::newest(s) == Some(x),
{
    snapshot::lemma_in_order(s);
    let sorted = snapshot::in_order(s);
    assert(s.to_multiset().count(x) > 0) by {
        s.to_multiset_ensures();
    }
    sorted.to_multiset_ensures();
    assert(sorted.contains(x));
    let k = choose|k: int| 0 <= k < sorted.len() && sorted[k] == x;
    assert(sorted[k] <= sorted[sorted.len() - 1]);
    let last = sorted.last();
    assert(sorted.contains(last));
    assert(sorted.to_multiset().count(last) > 0);
    s.to_multiset_ensures();
    assert(s.contains(last));
    let j = choose|j: int| 0 <= j < s.len() && s[j] == last;
    assert(s[j] <= x);
}

// ----------------------------------------------------------------------- laws

/// What was stored is loaded: the header and the state of the newest snapshot are read back
/// as they were written, where no snapshot in the directory has a greater index.
pub proof fn law_stored_snapshot_is_loaded(
    files: Seq<(Seq<char>, Seq<u8>)>,
    meta: SnapshotMeta,
    body: Seq<u8>,
)
    requires
        forall|i: int|
            0 <= i < indexes_of(files).len() ==> (#[trigger] indexes_of(files)[i])
                <= meta.last_applied_index,
    ensures
        loaded(stored(files, meta, body)) == Ok::<_, Seq<char>>(Some((meta, body))),
{
    let index = meta.last_applied_index;
    let file = snapshot_file(meta, body);
    let name = snapshot::snapshot_name(index);
    let now = written(files, index, file);
    let gone = snapshot::obsolete(indexes_of(now), index);
    let left = pruned(now, index);
    snapshot::law_name_states_index(index);
    assert forall|k: int| 0 <= k < gone.len() implies name != snapshot::snapshot_name(
        #[trigger] gone[k],
    ) by {
        snapshot::law_prune_keeps_the_newest(indexes_of(now), index, k);
        snapshot::law_name_states_index(gone[k]);
    }
    lemma_without_all(now, gone, gone.len(), name);
    assert(now.last() == (name, file));
    assert(bytes_of(now, name) == Some(file));
    assert(bytes_of(left, name) == Some(file));
    lemma_found(left, name);
    lemma_listed(left, index);
    assert(indexes_of(left).contains(index)) by {
        let i = choose|i: int| 0 <= i < left.len() && (#[trigger] left[i]).0 == name;
        assert(snapshot::name_index(left[i].0) == Some(index));
    }
    lemma_without(files, name, name);
    assert forall|i: int| 0 <= i < indexes_of(left).len() implies (#[trigger] indexes_of(left)[i])
        <= index by {
        let x = indexes_of(left)[i];
        assert(indexes_of(left).contains(x));
        lemma_listed(left, x);
        let a = choose|a: int|
            0 <= a < left.len() && snapshot::name_index((#[trigger] left[a]).0) == Some(x);
        let b = choose|b: int| 0 <= b < now.len() && (#[trigger] now[b]) == left[a];
        if b < now.len() - 1 {
            assert(now[b] == without(files, name)[b]);
            let c = choose|c: int|
                0 <= c < files.len() && (#[trigger] files[c]) == without(files, name)[b];
            assert(snapshot::name_index(files[c].0) == Some(x));
            lemma_listed(files, x);
            let k = choose|k: int| 0 <= k < indexes_of(files).len() && indexes_of(files)[k] == x;
            assert(indexes_of(files)[k] <= index);
        }
    }
    lemma_newest(indexes_of(left), index);
    snapshot::law_meta_round_trip(meta);
    snapshot::law_snapshot_round_trip(snapshot::meta_bytes(meta), body);
}

/// Storing a snapshot leaves files that are none as they are.
pub proof fn law_other_files_are_left_alone(
    files: Seq<(Seq<char>, Seq<u8>)>,
    meta: SnapshotMeta,
    body: Seq<u8>,
    other: Seq<char>,
)
    requires
        snapshot::name_index(other) is None,
    ensures
        bytes_of(stored(files, meta, body), other) == bytes_of(files, other),
{
    let index = meta.last_applied_index;
    let file = snapshot_file(meta, body);
    let name = snapshot::snapshot_name(index);
    let now = written(files, index, file);
    let gone = snapshot::obsolete(indexes_of(now), index);
    snapshot::law_name_states_index(index);
    assert forall|k: int| 0 <= k < gone.len() implies other != snapshot::snapshot_name(
        #[trigger] gone[k],
    ) by {
        snapshot::law_name_states_index(gone[k]);
    }
    lemma_without_all(now, gone, gone.len(), other);
    lemma_without(files, name, other);
    assert(now.drop_last() =~= without(files, name));
}

} // verus!
