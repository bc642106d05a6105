//! Append-only Raft log.
//!
//! Record layout (little-endian, fixed-size header):
//! ```text
//! +------------+------------+------------+-----------+
//! | index u64  | term  u64  | len u32    | op bytes  |
//! +------------+------------+------------+-----------+
//! ```
//! The log is agnostic to the payload: it stores opaque bytes. It works on the
//! image of the log file; a table of positions is rebuilt by scanning the image
//! from its start. `truncate_after` and `purge_before` rewrite the image and are
//! expected to be rare (conflict resolution and compaction behind a snapshot).

use vstd::bytes::*;
use vstd::prelude::*;

use crate::text;

verus! {

/// Length of the fixed-size record header.
pub const HEADER_LEN: usize = 20;

/// The greatest payload length that a header can state.
pub const MAX_BODY: usize = 0xffff_ffff;

/// One log entry with its raw payload.
#[derive(Debug, PartialEq, Eq)]
pub struct LogEntry {
    pub index: u64,
    pub term: u64,
    pub op_bytes: Vec<u8>,
}

/// A log entry as a mathematical value.
pub struct EntryModel {
    pub index: u64,
    pub term: u64,
    pub body: Seq<u8>,
}

impl View for LogEntry {
    type V = EntryModel;

    open spec fn view(&self) -> EntryModel {
        EntryModel { index: self.index, term: self.term, body: self.op_bytes@ }
    }
}

impl Clone for LogEntry {
    fn clone(&self) -> (r: Self)
        ensures
            r@ == self@,
    {
        let mut op_bytes: Vec<u8> = Vec::new();
        op_bytes.extend_from_slice(self.op_bytes.as_slice());
        assert(op_bytes@ =~= self.op_bytes@);
        LogEntry { index: self.index, term: self.term, op_bytes }
    }
}

/// Why a log operation failed.
#[derive(Debug, PartialEq, Eq)]
pub enum LogError {
    Io(String),
    Corruption(String),
    NotFound(u64),
    NonMonotonic { prev: u64, got: u64 },
}

/// Where a record stands in the image.
#[derive(Debug, Clone, Copy, PartialEq, Eq, Structural)]
pub struct Row {
    pub index: u64,
    pub term: u64,
    pub offset: usize,
}

/// The log: the file image and the table of record positions.
pub struct LogStore {
    image: Vec<u8>,
    /// Ascending by log index.
    rows: Vec<Row>,
    /// The image is a sequence of complete records with ascending indexes.
    intact: bool,
}

// ------------------------------------------------------------------- format

/// The bytes of one record.
pub open spec fn record(e: EntryModel) -> Seq<u8> {
    spec_u64_to_le_bytes(e.index) + spec_u64_to_le_bytes(e.term) + spec_u32_to_le_bytes(
        e.body.len() as u32,
    ) + e.body
}

/// The bytes of a sequence of records.
pub open spec fn file_bytes(entries: Seq<EntryModel>) -> Seq<u8>
    decreases entries.len(),
{
    if entries.len() == 0 {
        Seq::empty()
    } else {
        file_bytes(entries.drop_last()) + record(entries.last())
    }
}

/// Every entry can be stored and the indexes strictly increase.
pub open spec fn storable(entries: Seq<EntryModel>) -> bool {
    &&& forall|i: int| 0 <= i < entries.len() ==> (#[trigger] entries[i]).body.len() <= MAX_BODY
    &&& forall|i: int, j: int|
        #![trigger entries[i], entries[j]]
        0 <= i < j < entries.len() ==> entries[i].index < entries[j].index
}

/// The index that the header at `o` states.
pub open spec fn index_at(image: Seq<u8>, o: int) -> u64 {
    spec_u64_from_le_bytes(image.subrange(o, o + 8))
}

/// The term that the header at `o` states.
pub open spec fn term_at(image: Seq<u8>, o: int) -> u64 {
    spec_u64_from_le_bytes(image.subrange(o + 8, o + 16))
}

/// The payload length that the header at `o` states.
pub open spec fn len_at(image: Seq<u8>, o: int) -> int {
    spec_u32_from_le_bytes(image.subrange(o + 16, o + 20)) as int
}

/// Where the record at `o` ends.
pub open spec fn end_at(image: Seq<u8>, o: int) -> int {
    o + HEADER_LEN + len_at(image, o)
}

/// The entry stored at `o`.
pub open spec fn entry_at(image: Seq<u8>, o: int) -> EntryModel {
    EntryModel {
        index: index_at(image, o),
        term: term_at(image, o),
        body: image.subrange(o + HEADER_LEN, end_at(image, o)),
    }
}

/// The position row of the record at `o`.
pub open spec fn row_at(image: Seq<u8>, o: int) -> Row {
    Row { index: index_at(image, o), term: term_at(image, o), offset: o as usize }
}

/// Adds a row to an ascending table; a row with the same index is replaced.
pub open spec fn put_row(rows: Seq<Row>, r: Row) -> Seq<Row>
    decreases rows.len(),
{
    if rows.len() == 0 {
        seq![r]
    } else if r.index < rows[0].index {
        seq![r] + rows
    } else if r.index == rows[0].index {
        seq![r] + rows.drop_first()
    } else {
        seq![rows[0]] + put_row(rows.drop_first(), r)
    }
}

/// The table that a scan of the image from `o` on completes. The scan ends where
/// no complete header follows, or behind a record whose payload is cut off.
pub open spec fn scan(image: Seq<u8>, o: int, rows: Seq<Row>) -> Seq<Row>
    decreases image.len() - o,
{
    if o < 0 || o + HEADER_LEN > image.len() {
        rows
    } else if end_at(image, o) > image.len() {
        put_row(rows, row_at(image, o))
    } else {
        scan(image, end_at(image, o), put_row(rows, row_at(image, o)))
    }
}

/// From `o` on the image consists of complete records with indexes that strictly
/// increase and exceed `last`.
pub open spec fn whole(image: Seq<u8>, o: int, last: Option<u64>) -> bool
    decreases image.len() - o,
{
    if o == image.len() {
        true
    } else if o < 0 || o + HEADER_LEN > image.len() {
        false
    } else {
        &&& last matches Some(p) ==> p < index_at(image, o)
        &&& end_at(image, o) <= image.len()
        &&& whole(image, end_at(image, o), Some(index_at(image, o)))
    }
}

/// The entries stored from `o` on.
pub open spec fn decode(image: Seq<u8>, o: int) -> Seq<EntryModel>
    decreases image.len() - o,
{
    if o < 0 || o + HEADER_LEN > image.len() || end_at(image, o) > image.len() {
        Seq::empty()
    } else {
        seq![entry_at(image, o)] + decode(image, end_at(image, o))
    }
}

/// The position table of a sequence of records.
pub open spec fn rows_of(entries: Seq<EntryModel>) -> Seq<Row> {
    Seq::new(
        entries.len(),
        |i: int|
            Row {
                index: entries[i].index,
                term: entries[i].term,
                offset: file_bytes(entries.take(i)).len() as usize,
            },
    )
}

/// The index of the last of some entries.
pub open spec fn last_index(entries: Seq<EntryModel>) -> Option<u64> {
    if entries.len() == 0 {
        None
    } else {
        Some(entries.last().index)
    }
}

proof fn lemma_record(e: EntryModel)
    requires
        e.body.len() <= MAX_BODY,
    ensures
        record(e).len() == HEADER_LEN + e.body.len(),
        record(e).subrange(0, 8) == spec_u64_to_le_bytes(e.index),
        record(e).subrange(8, 16) == spec_u64_to_le_bytes(e.term),
        record(e).subrange(16, 20) == spec_u32_to_le_bytes(e.body.len() as u32),
        record(e).skip(20) == e.body,
{
    lemma_auto_spec_u64_to_from_le_bytes();
    lemma_auto_spec_u32_to_from_le_bytes();
    let a = spec_u64_to_le_bytes(e.index);
    let b = spec_u64_to_le_bytes(e.term);
    let c = spec_u32_to_le_bytes(e.body.len() as u32);
    assert(a.len() == 8 && b.len() == 8 && c.len() == 4);
    assert(record(e).subrange(0, 8) =~= a);
    assert(record(e).subrange(8, 16) =~= b);
    assert(record(e).subrange(16, 20) =~= c);
    assert(record(e).skip(20) =~= e.body);
}

/// A record that stands at `o` in an image is read back as it was written.
proof fn lemma_read_record(image: Seq<u8>, o: int, e: EntryModel)
    requires
        e.body.len() <= MAX_BODY,
        0 <= o,
        o + record(e).len() <= image.len(),
        image.subrange(o, o + record(e).len()) == record(e),
    ensures
        o + HEADER_LEN <= image.len(),
        end_at(image, o) == o + record(e).len(),
        entry_at(image, o) == e,
{
    lemma_record(e);
    lemma_auto_spec_u64_to_from_le_bytes();
    lemma_auto_spec_u32_to_from_le_bytes();
    let r = record(e);
    assert(image.subrange(o, o + 8) =~= image.subrange(o, o + r.len()).subrange(0, 8));
    assert(image.subrange(o + 8, o + 16) =~= image.subrange(o, o + r.len()).subrange(8, 16));
    assert(image.subrange(o + 16, o + 20) =~= image.subrange(o, o + r.len()).subrange(16, 20));
    assert(image.subrange(o + 20, o + r.len()) =~= image.subrange(o, o + r.len()).skip(20));
}

/// What is read at `o` is what the bytes there encode.
proof fn lemma_write_record(image: Seq<u8>, o: int)
    requires
        0 <= o,
        o + HEADER_LEN <= image.len(),
        end_at(image, o) <= image.len(),
    ensures
        record(entry_at(image, o)) == image.subrange(o, end_at(image, o)),
        entry_at(image, o).body.len() <= MAX_BODY,
{
    lemma_auto_spec_u64_to_from_le_bytes();
    lemma_auto_spec_u32_to_from_le_bytes();
    let a = image.subrange(o, o + 8);
    let b = image.subrange(o + 8, o + 16);
    let c = image.subrange(o + 16, o + 20);
    assert(a.len() == 8 && b.len() == 8 && c.len() == 4);
    assert(spec_u64_to_le_bytes(spec_u64_from_le_bytes(a)) == a);
    assert(spec_u64_to_le_bytes(spec_u64_from_le_bytes(b)) == b);
    assert(spec_u32_to_le_bytes(spec_u32_from_le_bytes(c)) == c);
    assert(record(entry_at(image, o)) =~= image.subrange(o, end_at(image, o)));
}

/// The first records of a file stand at its front.
proof fn lemma_file_prefix(entries: Seq<EntryModel>, i: int)
    requires
        0 <= i <= entries.len(),
    ensures
        file_bytes(entries.take(i)).len() <= file_bytes(entries).len(),
        file_bytes(entries).take(file_bytes(entries.take(i)).len() as int) == file_bytes(
            entries.take(i),
        ),
    decreases entries.len(),
{
    if i == entries.len() {
        assert(entries.take(i) =~= entries);
        assert(file_bytes(entries).take(file_bytes(entries).len() as int) =~= file_bytes(entries));
    } else {
        let d = entries.drop_last();
        lemma_file_prefix(d, i);
        assert(d.take(i) =~= entries.take(i));
        let n = file_bytes(entries.take(i)).len() as int;
        assert(file_bytes(entries).take(n) =~= file_bytes(d).take(n));
    }
}

/// Where the `i`-th record of a file stands.
proof fn lemma_file_record(entries: Seq<EntryModel>, i: int)
    requires
        0 <= i < entries.len(),
        storable(entries),
    ensures
        ({
            let o = file_bytes(entries.take(i)).len() as int;
            let image = file_bytes(entries);
            &&& file_bytes(entries.take(i + 1)).len() == o + record(entries[i]).len()
            &&& o + record(entries[i]).len() <= image.len()
            &&& image.subrange(o, o + record(entries[i]).len()) == record(entries[i])
            &&& o + HEADER_LEN <= image.len()
            &&& end_at(image, o) == o + record(entries[i]).len()
            &&& entry_at(image, o) == entries[i]
        }),
{
    let image = file_bytes(entries);
    let a = entries.take(i);
    let b = entries.take(i + 1);
    let o = file_bytes(a).len() as int;
    lemma_file_prefix(entries, i + 1);
    assert(b.drop_last() =~= a);
    assert(b.last() == entries[i]);
    let n = file_bytes(b).len() as int;
    assert(image.subrange(o, n) =~= image.take(n).skip(o));
    assert(file_bytes(b).skip(o) =~= record(entries[i]));
    lemma_read_record(image, o, entries[i]);
}

proof fn lemma_put_last(rows: Seq<Row>, r: Row)
    requires
        forall|i: int| 0 <= i < rows.len() ==> (#[trigger] rows[i]).index < r.index,
    ensures
        put_row(rows, r) == rows.push(r),
    decreases rows.len(),
{
    if rows.len() > 0 {
        let t = rows.drop_first();
        assert forall|i: int| 0 <= i < t.len() implies (#[trigger] t[i]).index < r.index by {
            assert(t[i] == rows[i + 1]);
        }
        assert(rows[0].index < r.index);
        lemma_put_last(t, r);
        assert(seq![rows[0]] + t.push(r) =~= rows.push(r));
    } else {
        assert(rows.push(r) =~= seq![r]);
    }
}

/// A file of storable entries is scanned back into exactly those entries.
proof fn lemma_scan_file(entries: Seq<EntryModel>, i: int)
    requires
        storable(entries),
        0 <= i <= entries.len(),
        file_bytes(entries).len() <= usize::MAX,
    ensures
        ({
            let image = file_bytes(entries);
            let o = file_bytes(entries.take(i)).len() as int;
            &&& whole(image, o, last_index(entries.take(i)))
            &&& decode(image, o) == entries.skip(i)
            &&& scan(image, o, rows_of(entries).take(i)) == rows_of(entries)
        }),
    decreases entries.len() - i,
{
    let image = file_bytes(entries);
    let o = file_bytes(entries.take(i)).len() as int;
    let rows = rows_of(entries);
    if i == entries.len() {
        assert(entries.take(i) =~= entries);
        assert(entries.skip(i) =~= Seq::<EntryModel>::empty());
        assert(rows.take(i) =~= rows);
    } else {
        lemma_file_record(entries, i);
        lemma_scan_file(entries, i + 1);
        assert(entries.take(i + 1).last() == entries[i]);
        if i > 0 {
            assert(entries.take(i).last() == entries[i - 1]);
        }
        assert(whole(image, o, last_index(entries.take(i))));
        assert(entries.skip(i) =~= seq![entries[i]] + entries.skip(i + 1));
        let before = rows.take(i);
        let r = row_at(image, o);
        assert(entry_at(image, o) == entries[i]);
        assert(r == rows[i]);
        assert forall|k: int| 0 <= k < before.len() implies (#[trigger] before[k]).index
            < r.index by {
            assert(before[k] == rows[k]);
            assert(entries[k].index < entries[i].index);
        }
        lemma_put_last(before, r);
        assert(before.push(r) =~= rows.take(i + 1));
    }
}

/// A whole image is the file of the entries that it holds.
proof fn lemma_whole_is_file(image: Seq<u8>, o: int, done: Seq<EntryModel>)
    requires
        0 <= o <= image.len(),
        storable(done),
        image.take(o) == file_bytes(done),
        whole(image, o, last_index(done)),
    ensures
        storable(done + decode(image, o)),
        image == file_bytes(done + decode(image, o)),
    decreases image.len() - o,
{
    if o == image.len() {
        assert(decode(image, o) =~= Seq::<EntryModel>::empty());
        assert(done + decode(image, o) =~= done);
        assert(image.take(o) =~= image);
    } else {
        let e = entry_at(image, o);
        let next = end_at(image, o);
        lemma_write_record(image, o);
        let more = done.push(e);
        assert(more.drop_last() =~= done);
        assert(image.take(next) =~= image.take(o) + image.subrange(o, next));
        assert(storable(more)) by {
            assert forall|i: int, j: int|
                #![trigger more[i], more[j]]
                0 <= i < j < more.len() implies more[i].index < more[j].index by {
                if j == done.len() {
                    if i < done.len() - 1 {
                        assert(done[i].index < done[done.len() - 1].index);
                    }
                }
            }
        }
        lemma_whole_is_file(image, next, more);
        assert(done + decode(image, o) =~= more + decode(image, next));
    }
}

// -------------------------------------------------------------------- store

/// The state of a log that holds exactly the given entries.
spec fn holds(image: Seq<u8>, rows: Seq<Row>, entries: Seq<EntryModel>) -> bool {
    &&& storable(entries)
    &&& image == file_bytes(entries)
    &&& rows == rows_of(entries)
}

proof fn lemma_holds(image: Seq<u8>, rows: Seq<Row>, entries: Seq<EntryModel>)
    requires
        holds(image, rows, entries),
        image.len() <= usize::MAX,
    ensures
        whole(image, 0, None),
        decode(image, 0) == entries,
        scan(image, 0, Seq::empty()) == rows,
{
    lemma_scan_file(entries, 0);
    assert(entries.take(0) =~= Seq::<EntryModel>::empty());
    assert(entries.skip(0) =~= entries);
    assert(rows_of(entries).take(0) =~= Seq::<Row>::empty());
}

proof fn lemma_whole_holds(image: Seq<u8>)
    requires
        whole(image, 0, None),
        image.len() <= usize::MAX,
    ensures
        holds(image, scan(image, 0, Seq::empty()), decode(image, 0)),
{
    let none = Seq::<EntryModel>::empty();
    assert(image.take(0) =~= file_bytes(none));
    lemma_whole_is_file(image, 0, none);
    assert(none + decode(image, 0) =~= decode(image, 0));
    let entries = decode(image, 0);
    lemma_holds(image, rows_of(entries), entries);
}

/// The table is ascending and each row points at a header that states it.
spec fn sound_rows(image: Seq<u8>, rows: Seq<Row>) -> bool {
    &&& forall|i: int|
        0 <= i < rows.len() ==> (#[trigger] rows[i]).offset + HEADER_LEN <= image.len()
            && rows[i] == row_at(image, rows[i].offset as int)
    &&& forall|i: int, j: int|
        #![trigger rows[i], rows[j]]
        0 <= i < j < rows.len() ==> rows[i].index < rows[j].index
}

/// Where a row belongs in an ascending table.
proof fn lemma_put_at(rows: Seq<Row>, r: Row, p: int)
    requires
        0 <= p <= rows.len(),
        forall|i: int| 0 <= i < p ==> (#[trigger] rows[i]).index < r.index,
        p < rows.len() ==> r.index <= rows[p].index,
    ensures
        put_row(rows, r) == (if p < rows.len() && rows[p].index == r.index {
            rows.update(p, r)
        } else {
            rows.insert(p, r)
        }),
    decreases rows.len(),
{
    if rows.len() == 0 {
        assert(rows.insert(p, r) =~= seq![r]);
    } else if p == 0 {
        if rows[0].index == r.index {
            assert(rows.update(p, r) =~= seq![r] + rows.drop_first());
        } else {
            assert(rows.insert(p, r) =~= seq![r] + rows);
        }
    } else {
        let t = rows.drop_first();
        assert(rows[0].index < r.index);
        assert forall|i: int| 0 <= i < p - 1 implies (#[trigger] t[i]).index < r.index by {
            assert(t[i] == rows[i + 1]);
        }
        lemma_put_at(t, r, p - 1);
        if p < rows.len() && rows[p].index == r.index {
            assert(seq![rows[0]] + t.update(p - 1, r) =~= rows.update(p, r));
        } else {
            assert(seq![rows[0]] + t.insert(p - 1, r) =~= rows.insert(p, r));
        }
    }
}

/// Adds a row to an ascending table; a row with the same index is replaced.
fn put(rows: &mut Vec<Row>, r: Row)
    requires
        forall|i: int, j: int|
            #![trigger old(rows)@[i], old(rows)@[j]]
            0 <= i < j < old(rows)@.len() ==> old(rows)@[i].index < old(rows)@[j].index,
    ensures
        final(rows)@ == put_row(old(rows)@, r),
        forall|i: int, j: int|
            #![trigger final(rows)@[i], final(rows)@[j]]
            0 <= i < j < final(rows)@.len() ==> final(rows)@[i].index < final(rows)@[j].index,
        forall|i: int|
            0 <= i < final(rows)@.len() ==> #[trigger] final(rows)@[i] == r || exists|k: int|
                0 <= k < old(rows)@.len() && old(rows)@[k] == final(rows)@[i],
{
    let ghost before = rows@;
    let mut p: usize = 0;
    while p < rows.len() && rows[p].index < r.index
        invariant
            p <= rows@.len(),
            rows@ == before,
            forall|i: int| 0 <= i < p ==> (#[trigger] before[i]).index < r.index,
        ensures
            p <= rows@.len(),
            rows@ == before,
            forall|i: int| 0 <= i < p ==> (#[trigger] before[i]).index < r.index,
            p < rows@.len() ==> r.index <= before[p as int].index,
        decreases rows@.len() - p,
    {
        p = p + 1;
    }
    proof {
        lemma_put_at(before, r, p as int);
    }
    if p < rows.len() && rows[p].index == r.index {
        rows.set(p, r);
        proof {
            assert forall|i: int| 0 <= i < rows@.len() implies #[trigger] rows@[i] == r
                || exists|k: int| 0 <= k < before.len() && before[k] == rows@[i] by {
                if i != p {
                    assert(before[i] == rows@[i]);
                }
            }
        }
    } else {
        rows.insert(p, r);
        proof {
            assert forall|i: int| 0 <= i < rows@.len() implies #[trigger] rows@[i] == r
                || exists|k: int| 0 <= k < before.len() && before[k] == rows@[i] by {
                if i < p {
                    assert(before[i] == rows@[i]);
                } else if i > p {
                    assert(before[i - 1] == rows@[i]);
                }
            }
            assert forall|i: int, j: int|
                #![trigger rows@[i], rows@[j]]
                0 <= i < j < rows@.len() implies rows@[i].index < rows@[j].index by {
                if j > p && i <= p {
                    assert(rows@[j] == before[j - 1]);
                    if p < before.len() {
                        if j - 1 > p {
                            assert(before[p as int].index < before[j - 1].index);
                        }
                    }
                }
            }
        }
    }
}

/// The row with the given index.
pub open spec fn row_with(rows: Seq<Row>, index: u64) -> Option<Row>
    decreases rows.len(),
{
    if rows.len() == 0 {
        None
    } else if rows[0].index == index {
        Some(rows[0])
    } else {
        row_with(rows.drop_first(), index)
    }
}

/// The entry with the given index.
pub open spec fn entry_with(entries: Seq<EntryModel>, index: u64) -> Option<EntryModel>
    decreases entries.len(),
{
    if entries.len() == 0 {
        None
    } else if entries[0].index == index {
        Some(entries[0])
    } else {
        entry_with(entries.drop_first(), index)
    }
}

fn header_u64(image: &Vec<u8>, o: usize) -> (r: u64)
    requires
        o + 8 <= image@.len(),
    ensures
        r == spec_u64_from_le_bytes(image@.subrange(o as int, o + 8)),
{
    assert(image.len() == image@.len());
    u64_from_le_bytes(vstd::slice::slice_subrange(image.as_slice(), o, o + 8))
}

fn header_len(image: &Vec<u8>, o: usize) -> (r: usize)
    requires
        o + HEADER_LEN <= image@.len(),
    ensures
        r == len_at(image@, o as int),
{
    assert(image.len() == image@.len());
    u32_from_le_bytes(vstd::slice::slice_subrange(image.as_slice(), o + 16, o + 20)) as usize
}

impl LogStore {
    /// The bytes of the log file.
    pub closed spec fn file(&self) -> Seq<u8> {
        self.image@
    }

    /// The table of record positions: what a scan of the file gives.
    pub open spec fn table(&self) -> Seq<Row> {
        scan(self.file(), 0, Seq::empty())
    }

    /// The rows are the table.
    #[verifier::type_invariant]
    spec fn well_formed(&self) -> bool {
        &&& self.rows@ == scan(self.image@, 0, Seq::empty())
        &&& sound_rows(self.image@, self.rows@)
        &&& self.intact == whole(self.image@, 0, None)
    }

    /// The file consists of complete records with ascending indexes.
    pub open spec fn is_intact(&self) -> bool {
        whole(self.file(), 0, None)
    }

    /// The entries of an intact log.
    pub open spec fn entries(&self) -> Seq<EntryModel> {
        decode(self.file(), 0)
    }

    /// Opens a log file: builds the table of positions by scanning the records.
    pub fn open(image: Vec<u8>) -> (r: LogStore)
        ensures
            r.file() == image@,
    {
        let mut rows: Vec<Row> = Vec::new();
        let mut intact = true;
        let mut last: Option<u64> = None;
        let mut o: usize = 0;
        let mut torn = false;
        let ghost goal = scan(image@, 0, Seq::empty());
        while !torn && o <= image.len() && image.len() - o >= HEADER_LEN
            invariant
                o <= image@.len(),
                sound_rows(image@, rows@),
                torn ==> !intact && rows@ == goal,
                !torn ==> goal == scan(image@, o as int, rows@),
                !torn ==> whole(image@, 0, None) == (intact && whole(image@, o as int, last)),
                torn ==> !whole(image@, 0, None),
                goal == scan(image@, 0, Seq::empty()),
            decreases image@.len() - o,
                      (if torn {
                          0int
                      } else {
                          1int
                      }),
        {
            let index: u64 = header_u64(&image, o);
            let term: u64 = header_u64(&image, o + 8);
            let len: usize = header_len(&image, o);
            let ghost was = rows@;
            put(&mut rows, Row { index, term, offset: o });
            proof {
                assert forall|i: int| 0 <= i < rows@.len() implies (#[trigger] rows@[i]).offset
                    + HEADER_LEN <= image@.len() && rows@[i] == row_at(
                    image@,
                    rows@[i].offset as int,
                ) by {
                    if rows@[i] != (Row { index, term, offset: o }) {
                        let k = choose|k: int| 0 <= k < was.len() && was[k] == rows@[i];
                        assert(was[k].offset + HEADER_LEN <= image@.len());
                    }
                }
            }
            if image.len() - o - HEADER_LEN < len {
                torn = true;
                intact = false;
            } else {
                if let Some(p) = last {
                    if p >= index {
                        intact = false;
                    }
                }
                last = Some(index);
                o = o + HEADER_LEN + len;
            }
        }
        if o != image.len() {
            intact = false;
        }
        LogStore { image, rows, intact }
    }

    /// The position of the row with the given index, if there is one.
    fn find(&self, index: u64) -> (r: Option<usize>)
        ensures
            match r {
                Some(i) => i < self.table().len() && self.table()[i as int].index == index
                    && row_with(self.table(), index) == Some(self.table()[i as int]),
                None => row_with(self.table(), index) is None,
            },
    {
        proof {
            use_type_invariant(self);
        }
        let mut i: usize = 0;
        assert(self.rows@.skip(0) =~= self.rows@);
        while i < self.rows.len()
            invariant
                i <= self.rows@.len(),
                self.rows@ == self.table(),
                row_with(self.rows@, index) == row_with(self.rows@.skip(i as int), index),
            decreases self.rows@.len() - i,
        {
            if self.rows[i].index == index {
                return Some(i);
            }
            assert(self.rows@.skip(i as int).drop_first() =~= self.rows@.skip(i + 1));
            i = i + 1;
        }
        None
    }

    /// The entry at a row of the table.
    fn load(&self, i: usize) -> (r: Result<LogEntry, LogError>)
        requires
            i < self.table().len(),
        ensures
            ({
                let o = self.table()[i as int].offset as int;
                &&& r is Ok <==> end_at(self.file(), o) <= self.file().len()
                &&& r matches Ok(e) ==> e@ == entry_at(self.file(), o)
                &&& r matches Err(e) ==> e matches LogError::Io(m) && m@
                    == "failed to fill whole buffer"@
            }),
    {
        proof {
            use_type_invariant(&*self);
            assert(self.rows@[i as int].offset + HEADER_LEN <= self.image@.len());
        }
        let row = self.rows[i];
        let o: usize = row.offset;
        let len: usize = header_len(&self.image, o);
        if self.image.len() - o - HEADER_LEN < len {
            return Err(LogError::Io("failed to fill whole buffer".to_owned()));
        }
        let body = vstd::slice::slice_subrange(
            self.image.as_slice(),
            o + HEADER_LEN,
            o + HEADER_LEN + len,
        );
        let op_bytes = vstd::slice::slice_to_vec(body);
        Ok(LogEntry { index: row.index, term: row.term, op_bytes })
    }

    /// Reads one entry.
    pub fn read(&self, index: u64) -> (r: Result<LogEntry, LogError>)
        ensures
            match row_with(self.table(), index) {
                None => r == Err::<LogEntry, LogError>(LogError::NotFound(index)),
                Some(row) => {
                    &&& r is Ok <==> end_at(self.file(), row.offset as int) <= self.file().len()
                    &&& r matches Ok(e) ==> e@ == entry_at(self.file(), row.offset as int)
                    &&& r matches Err(e) ==> e is Io
                },
            },
            self.is_intact() ==> {
                &&& r matches Ok(e) ==> entry_with(self.entries(), index) == Some(e@)
                &&& r matches Err(e) ==> e == LogError::NotFound(index) && entry_with(
                    self.entries(),
                    index,
                ) is None
            },
    {
        proof {
            use_type_invariant(&*self);
            assert(self.image.len() == self.image@.len());
            if self.is_intact() {
                lemma_whole_holds(self.image@);
                assert(self.entries().skip(0) =~= self.entries());
                lemma_find_entry(self.entries(), self.entries(), 0, index);
                assert(self.rows@.skip(0) =~= self.rows@);
            }
        }
        match self.find(index) {
            None => Err(LogError::NotFound(index)),
            Some(i) => self.load(i),
        }
    }
}

/// Looking an entry up by its row gives the entry with that index.
proof fn lemma_find_entry(entries: Seq<EntryModel>, rest: Seq<EntryModel>, i: int, index: u64)
    requires
        storable(entries),
        0 <= i <= entries.len(),
        rest == entries.skip(i),
        file_bytes(entries).len() <= usize::MAX,
    ensures
        ({
            let found = row_with(rows_of(entries).skip(i), index);
            &&& found is Some <==> entry_with(rest, index) is Some
            &&& found matches Some(row) ==> {
                &&& end_at(file_bytes(entries), row.offset as int) <= file_bytes(entries).len()
                &&& entry_with(rest, index) == Some(
                    entry_at(file_bytes(entries), row.offset as int),
                )
            }
        }),
    decreases entries.len() - i,
{
    let rows = rows_of(entries);
    if i < entries.len() {
        lemma_file_record(entries, i);
        lemma_file_prefix(entries, i);
        assert(rest[0] == entries[i]);
        assert(rows.skip(i)[0] == rows[i]);
        assert(rest.drop_first() =~= entries.skip(i + 1));
        assert(rows.skip(i).drop_first() =~= rows.skip(i + 1));
        lemma_find_entry(entries, entries.skip(i + 1), i + 1, index);
    }
}

// ------------------------------------------------------------------ changes

/// The mathematical values of some entries.
pub open spec fn models(entries: Seq<LogEntry>) -> Seq<EntryModel> {
    Seq::new(entries.len(), |i: int| entries[i]@)
}

/// An entry can follow the index `last`.
pub open spec fn can_follow(last: Option<u64>, e: EntryModel) -> bool {
    &&& last matches Some(p) ==> p < e.index
    &&& e.body.len() <= MAX_BODY
}

/// How many of the new entries, from the `i`-th on, are accepted before one is refused.
pub open spec fn accepted(last: Option<u64>, new: Seq<EntryModel>, i: int) -> int
    decreases new.len() - i,
{
    if i >= new.len() || !can_follow(last, new[i]) {
        i
    } else {
        accepted(Some(new[i].index), new, i + 1)
    }
}

/// The index that stands before the `k`-th new entry.
pub open spec fn index_before(last: Option<u64>, new: Seq<EntryModel>, k: int) -> Option<u64> {
    if k == 0 {
        last
    } else {
        Some(new[k - 1].index)
    }
}

/// Files of entry sequences are put together by concatenation.
proof fn lemma_file_concat(a: Seq<EntryModel>, b: Seq<EntryModel>)
    ensures
        file_bytes(a + b) == file_bytes(a) + file_bytes(b),
    decreases b.len(),
{
    if b.len() == 0 {
        assert(a + b =~= a);
        assert(file_bytes(a) + file_bytes(b) =~= file_bytes(a));
    } else {
        lemma_file_concat(a, b.drop_last());
        assert((a + b).drop_last() =~= a + b.drop_last());
        assert(file_bytes(a + b) =~= file_bytes(a) + file_bytes(b));
    }
}

proof fn lemma_rows_push(entries: Seq<EntryModel>, e: EntryModel)
    ensures
        rows_of(entries.push(e)) == rows_of(entries).push(
            Row {
                index: e.index,
                term: e.term,
                offset: file_bytes(entries).len() as usize,
            },
        ),
{
    let more = entries.push(e);
    assert forall|i: int| 0 <= i <= entries.len() implies #[trigger] more.take(i) =~= entries.take(
        i,
    ) by {}
    assert(entries.take(entries.len() as int) =~= entries);
    assert(rows_of(more) =~= rows_of(entries).push(
        Row { index: e.index, term: e.term, offset: file_bytes(entries).len() as usize },
    ));
}

/// In an ascending log the entries up to an index are a leading part.
proof fn lemma_filter_is_prefix(entries: Seq<EntryModel>, keep: spec_fn(EntryModel) -> bool, k: int)
    requires
        0 <= k <= entries.len(),
        forall|i: int| 0 <= i < k ==> keep(#[trigger] entries[i]),
        forall|i: int| k <= i < entries.len() ==> !keep(#[trigger] entries[i]),
    ensures
        entries.filter(keep) == entries.take(k),
    decreases entries.len(),
{
    reveal(Seq::filter);
    if entries.len() == 0 {
        assert(entries.filter(keep) =~= entries.take(k));
    } else {
        let d = entries.drop_last();
        if k == entries.len() {
            lemma_filter_is_prefix(d, keep, k - 1);
            assert(keep(entries[k - 1]));
            assert(d.take(k - 1).push(entries.last()) =~= entries.take(k));
        } else {
            lemma_filter_is_prefix(d, keep, k);
            assert(!keep(entries[entries.len() - 1]));
            assert(d.take(k) =~= entries.take(k));
        }
    }
}

/// In an ascending log the entries from an index on are a trailing part.
proof fn lemma_filter_is_suffix(entries: Seq<EntryModel>, keep: spec_fn(EntryModel) -> bool, k: int)
    requires
        0 <= k <= entries.len(),
        forall|i: int| 0 <= i < k ==> !keep(#[trigger] entries[i]),
        forall|i: int| k <= i < entries.len() ==> keep(#[trigger] entries[i]),
    ensures
        entries.filter(keep) == entries.skip(k),
    decreases entries.len(),
{
    reveal(Seq::filter);
    if entries.len() == 0 {
        assert(entries.filter(keep) =~= entries.skip(k));
    } else {
        let d = entries.drop_last();
        if k == entries.len() {
            lemma_filter_is_suffix(d, keep, k - 1);
            assert(!keep(entries[k - 1]));
            assert(d.skip(k - 1) =~= entries.skip(k));
        } else {
            lemma_filter_is_suffix(d, keep, k);
            assert(keep(entries[entries.len() - 1]));
            assert(d.skip(k).push(entries.last()) =~= entries.skip(k));
        }
    }
}

proof fn lemma_filter_same(
    entries: Seq<EntryModel>,
    p: spec_fn(EntryModel) -> bool,
    q: spec_fn(EntryModel) -> bool,
)
    requires
        forall|e: EntryModel| #[trigger] p(e) == q(e),
    ensures
        entries.filter(p) == entries.filter(q),
    decreases entries.len(),
{
    reveal(Seq::filter);
    if entries.len() > 0 {
        lemma_filter_same(entries.drop_last(), p, q);
        assert(p(entries.last()) == q(entries.last()));
    }
}

/// Part of a storable log is storable.
proof fn lemma_storable_part(entries: Seq<EntryModel>, a: int, b: int)
    requires
        storable(entries),
        0 <= a <= b <= entries.len(),
    ensures
        storable(entries.subrange(a, b)),
{
    let part = entries.subrange(a, b);
    assert forall|i: int| 0 <= i < part.len() implies (#[trigger] part[i]).body.len()
        <= MAX_BODY by {
        assert(part[i] == entries[a + i]);
    }
    assert forall|i: int, j: int|
        #![trigger part[i], part[j]]
        0 <= i < j < part.len() implies part[i].index < part[j].index by {
        assert(part[i] == entries[a + i] && part[j] == entries[a + j]);
    }
}

/// Adds one record behind the image.
fn append_record(image: &mut Vec<u8>, e: &LogEntry)
    requires
        e.op_bytes@.len() <= MAX_BODY,
    ensures
        final(image)@ == old(image)@ + record(e@),
{
    let mut index = u64_to_le_bytes(e.index);
    let mut term = u64_to_le_bytes(e.term);
    let mut len = u32_to_le_bytes(e.op_bytes.len() as u32);
    image.append(&mut index);
    image.append(&mut term);
    image.append(&mut len);
    image.extend_from_slice(e.op_bytes.as_slice());
    assert(image@ =~= old(image)@ + record(e@));
}

/// The greatest index of an ascending table.
pub open spec fn last_row(rows: Seq<Row>) -> Option<u64> {
    if rows.len() == 0 {
        None
    } else {
        Some(rows.last().index)
    }
}

/// The error says why the `k`-th new entry is refused.
pub open spec fn refuses(e: LogError, last: Option<u64>, new: Seq<EntryModel>, k: int) -> bool {
    match index_before(last, new, k) {
        Some(prev) => if new[k].index <= prev {
            e == LogError::NonMonotonic { prev, got: new[k].index }
        } else {
            e matches LogError::Corruption(m) && m@ == "entry too large"@
        },
        None => e matches LogError::Corruption(m) && m@ == "entry too large"@,
    }
}

/// Where the leading complete records of the image end, from the record at `o` on.
pub open spec fn complete_end(image: Seq<u8>, o: int) -> int
    decreases image.len() - o,
{
    if o < 0 || o + HEADER_LEN > image.len() || end_at(image, o) > image.len() {
        o
    } else {
        complete_end(image, end_at(image, o))
    }
}

/// The table ends before an index.
pub open spec fn ends_before(rows: Seq<Row>, index: u64) -> bool {
    rows.len() == 0 || rows.last().index < index
}

/// The table does not begin before an index.
pub open spec fn begins_at(rows: Seq<Row>, index: u64) -> bool {
    rows.len() == 0 || rows[0].index >= index
}

/// The records of all these rows are complete.
pub open spec fn all_complete(image: Seq<u8>, rows: Seq<Row>) -> bool {
    forall|i: int|
        0 <= i < rows.len() ==> end_at(image, (#[trigger] rows[i]).offset as int) <= image.len()
}

/// The entries that the rows point at.
pub open spec fn entries_at(image: Seq<u8>, rows: Seq<Row>) -> Seq<EntryModel> {
    Seq::new(rows.len(), |i: int| entry_at(image, rows[i].offset as int))
}

proof fn lemma_complete_end(image: Seq<u8>, o: int, last: Option<u64>)
    requires
        0 <= o <= image.len(),
        whole(image, o, last),
    ensures
        complete_end(image, o) == image.len(),
    decreases image.len() - o,
{
    if o < image.len() {
        lemma_complete_end(image, end_at(image, o), Some(index_at(image, o)));
    }
}

/// Where the leading complete records of the image end.
fn find_end(image: &Vec<u8>) -> (r: usize)
    ensures
        r == complete_end(image@, 0),
        r <= image@.len(),
{
    let mut o: usize = 0;
    let mut done = false;
    assert(image.len() == image@.len());
    while !done
        invariant
            o <= image@.len() <= usize::MAX,
            complete_end(image@, 0) == complete_end(image@, o as int),
            done ==> o == complete_end(image@, 0),
        decreases
                image@.len() - o,
                (if done {
                    0int
                } else {
                    1int
                }),
    {
        if image.len() - o < HEADER_LEN {
            done = true;
        } else {
            let len: usize = header_len(image, o);
            if image.len() - o - HEADER_LEN < len {
                done = true;
            } else {
                o = o + HEADER_LEN + len;
            }
        }
    }
    o
}

/// How many of the new entries are accepted, and why the next one is not.
fn admissible(last: Option<u64>, entries: &[LogEntry]) -> (r: (usize, Option<LogError>))
    ensures
        ({
            let new = models(entries@);
            &&& r.0 == accepted(last, new, 0)
            &&& r.0 <= new.len()
            &&& r.1 is None <==> r.0 == new.len()
            &&& r.1 matches Some(e) ==> refuses(e, last, new, r.0 as int)
            &&& forall|j: int|
                0 <= j < r.0 ==> can_follow(#[trigger] index_before(last, new, j), new[j])
        }),
{
    let ghost new = models(entries@);
    let mut before: Option<u64> = last;
    let mut i: usize = 0;
    while i < entries.len()
        invariant
            i <= entries@.len(),
            new == models(entries@),
            before == index_before(last, new, i as int),
            accepted(last, new, 0) == accepted(before, new, i as int),
            forall|j: int|
                0 <= j < i ==> can_follow(#[trigger] index_before(last, new, j), new[j]),
        decreases entries@.len() - i,
    {
        let e = &entries[i];
        assert(new[i as int] == e@);
        if let Some(prev) = before {
            if e.index <= prev {
                return (i, Some(LogError::NonMonotonic { prev, got: e.index }));
            }
        }
        if e.op_bytes.len() > MAX_BODY {
            return (i, Some(LogError::Corruption("entry too large".to_owned())));
        }
        before = Some(e.index);
        i = i + 1;
    }
    (i, None)
}

/// The entries of selected rows can be stored: their indexes ascend, and each payload fits.
proof fn lemma_kept_storable(image: Seq<u8>, rows: Seq<Row>, start: u64, end: u64)
    requires
        sound_rows(image, rows),
        all_complete(image, rows_between(rows, start, end)),
    ensures
        storable(entries_at(image, rows_between(rows, start, end))),
{
    let kept = rows_between(rows, start, end);
    let all = entries_at(image, kept);
    lemma_between_places(rows, start, end);
    assert forall|i: int| 0 <= i < all.len() implies (#[trigger] all[i]).body.len()
        <= MAX_BODY by {
        assert(rows.contains(kept[i]));
        let k = choose|k: int| 0 <= k < rows.len() && rows[k] == kept[i];
        assert(rows[k].offset + HEADER_LEN <= image.len());
        lemma_write_record(image, kept[i].offset as int);
    }
    assert forall|i: int, j: int|
        #![trigger all[i], all[j]]
        0 <= i < j < all.len() implies all[i].index < all[j].index by {
        assert(kept[i].index < kept[j].index);
        assert(rows.contains(kept[i]));
        assert(rows.contains(kept[j]));
        let a = choose|k: int| 0 <= k < rows.len() && rows[k] == kept[i];
        let b = choose|k: int| 0 <= k < rows.len() && rows[k] == kept[j];
        assert(rows[a] == row_at(image, rows[a].offset as int));
        assert(rows[b] == row_at(image, rows[b].offset as int));
    }
}

proof fn lemma_between_places(rows: Seq<Row>, start: u64, end: u64)
    requires
        forall|i: int, j: int|
            #![trigger rows[i], rows[j]]
            0 <= i < j < rows.len() ==> rows[i].index < rows[j].index,
    ensures
        forall|i: int|
            0 <= i < rows_between(rows, start, end).len() ==> rows.contains(
                #[trigger] rows_between(rows, start, end)[i],
            ),
        forall|i: int, j: int|
            #![trigger rows_between(rows, start, end)[i], rows_between(rows, start, end)[j]]
            0 <= i < j < rows_between(rows, start, end).len() ==> rows_between(
                rows,
                start,
                end,
            )[i].index < rows_between(rows, start, end)[j].index,
    decreases rows.len(),
{
    reveal(Seq::filter);
    if rows.len() > 0 {
        let d = rows.drop_last();
        lemma_between_places(d, start, end);
        let part = rows_between(d, start, end);
        let all = rows_between(rows, start, end);
        assert forall|i: int| 0 <= i < all.len() implies rows.contains(#[trigger] all[i]) by {
            if i < part.len() {
                assert(all[i] == part[i]);
                assert(d.contains(part[i]));
                let k = choose|k: int| 0 <= k < d.len() && d[k] == part[i];
                assert(rows[k] == all[i]);
            } else {
                assert(all[i] == rows[rows.len() - 1]);
            }
        }
        assert forall|i: int, j: int|
            #![trigger all[i], all[j]]
            0 <= i < j < all.len() implies all[i].index < all[j].index by {
            assert(all[i] == part[i]);
            if j < part.len() {
                assert(all[j] == part[j]);
            } else {
                assert(d.contains(part[i]));
                let k = choose|k: int| 0 <= k < d.len() && d[k] == part[i];
                assert(rows[k] == all[i]);
                assert(all[j] == rows[rows.len() - 1]);
            }
        }
    }
}

impl LogStore {
    /// Appends entries. Their indexes must strictly increase and exceed every index
    /// in the log; the entries in front of the first one that does not are kept. What
    /// stands behind the last complete record gives way to them.
    pub fn append(&mut self, entries: &[LogEntry]) -> (r: Result<(), LogError>)
        ensures
            ({
                let new = models(entries@);
                let last = last_row(old(self).table());
                let k = accepted(last, new, 0);
                &&& 0 <= k <= new.len()
                &&& final(self).file() == (if k == 0 {
                    old(self).file()
                } else {
                    old(self).file().take(complete_end(old(self).file(), 0)) + file_bytes(
                        new.take(k),
                    )
                })
                &&& r is Ok <==> k == new.len()
                &&& r matches Err(e) ==> refuses(e, last, new, k)
                &&& old(self).is_intact() ==> last == last_index(old(self).entries())
                    && final(self).is_intact() && final(self).entries() == old(self).entries()
                    + new.take(k)
            }),
    {
        proof {
            use_type_invariant(&*self);
            assert(self.image.len() == self.image@.len());
        }
        let ghost new = models(entries@);
        let ghost before = self.entries();
        let ghost old_file = self.image@;
        let last: Option<u64> = if self.rows.len() == 0 {
            None
        } else {
            Some(self.rows[self.rows.len() - 1].index)
        };
        proof {
            if self.intact {
                lemma_whole_holds(self.image@);
                lemma_complete_end(self.image@, 0, None);
            }
        }
        let (k, failed) = admissible(last, entries);
        if k == 0 {
            assert(before + new.take(0) =~= before);
            return match failed {
                Some(e) => Err(e),
                None => Ok(()),
            };
        }
        let intact = self.intact;
        let end: usize = if intact {
            self.image.len()
        } else {
            find_end(&self.image)
        };
        let mut fresh = LogStore::open(Vec::new());
        std::mem::swap(self, &mut fresh);
        let LogStore { mut image, mut rows, intact: _ } = fresh;
        if !intact {
            image = vstd::slice::slice_to_vec(
                vstd::slice::slice_subrange(image.as_slice(), 0, end),
            );
        }
        let ghost base = image@;
        assert(base =~= old_file.take(complete_end(old_file, 0)));
        let mut i: usize = 0;
        let ghost mut all = before;
        assert(before + new.take(0) =~= before);
        assert(base + file_bytes(new.take(0)) =~= base);
        while i < k
            invariant
                i <= k <= entries@.len(),
                new == models(entries@),
                forall|j: int|
                    0 <= j < k ==> can_follow(#[trigger] index_before(last, new, j), new[j]),
                image@ == base + file_bytes(new.take(i as int)),
                intact ==> all == before + new.take(i as int) && holds(image@, rows@, all)
                    && index_before(last, new, i as int) == last_index(all),
            decreases k - i,
        {
            let e = &entries[i];
            assert(new[i as int] == e@);
            let offset: usize = image.len();
            append_record(&mut image, e);
            proof {
                assert(new.take(i + 1) =~= new.take(i as int).push(e@));
                assert(new.take(i + 1).drop_last() =~= new.take(i as int));
                assert(image@ =~= base + file_bytes(new.take(i + 1)));
            }
            if intact {
                rows.push(Row { index: e.index, term: e.term, offset });
                proof {
                    let more = all.push(e@);
                    lemma_rows_push(all, e@);
                    assert(more.drop_last() =~= all);
                    assert(can_follow(index_before(last, new, i as int), new[i as int]));
                    assert(storable(more)) by {
                        assert forall|a: int, b: int|
                            #![trigger more[a], more[b]]
                            0 <= a < b < more.len() implies more[a].index < more[b].index by {
                            if b == all.len() {
                                if a < all.len() - 1 {
                                    assert(all[a].index < all[all.len() - 1].index);
                                }
                            }
                        }
                    }
                    assert(before + new.take(i + 1) =~= more);
                    all = more;
                }
            }
            i = i + 1;
        }
        if intact {
            proof {
                assert(image.len() == image@.len());
                lemma_holds(image@, rows@, all);
                assert(sound_rows(image@, rows@)) by {
                    lemma_sound(all);
                }
            }
            *self = LogStore { image, rows, intact: true };
        } else {
            *self = LogStore::open(image);
        }
        match failed {
            Some(e) => Err(e),
            None => Ok(()),
        }
    }

    /// Replaces the log by one that holds the entries that were read of it.
    fn rewrite(&mut self, entries: Vec<LogEntry>)
        requires
            storable(models(entries@)),
        ensures
            final(self).file() == file_bytes(models(entries@)),
            final(self).is_intact(),
            final(self).entries() == models(entries@),
    {
        let ghost all = models(entries@);
        let mut image: Vec<u8> = Vec::new();
        let mut i: usize = 0;
        assert(file_bytes(all.take(0)) =~= Seq::<u8>::empty());
        while i < entries.len()
            invariant
                i <= entries@.len(),
                all == models(entries@),
                storable(all),
                image@ == file_bytes(all.take(i as int)),
            decreases entries@.len() - i,
        {
            assert(all[i as int] == entries@[i as int]@);
            append_record(&mut image, &entries[i]);
            assert(all.take(i + 1).drop_last() =~= all.take(i as int));
            i = i + 1;
        }
        assert(all.take(i as int) =~= all);
        proof {
            assert(image.len() == image@.len());
            lemma_holds(image@, rows_of(all), all);
        }
        *self = LogStore::open(image);
    }

    /// Removes the entries with an index greater than `last_kept`. A log that ends before
    /// that index stays as it is; otherwise nothing is left of what stands behind the last
    /// entry that is kept. An entry that has to be kept and cannot be read is an error.
    pub fn truncate_after(&mut self, last_kept: u64) -> (r: Result<(), LogError>)
        ensures
            ({
                let rows = rows_between(old(self).table(), 0, last_kept);
                if ends_before(old(self).table(), last_kept) {
                    r is Ok && final(self).file() == old(self).file()
                } else {
                    &&& r is Ok <==> all_complete(old(self).file(), rows)
                    &&& r is Ok ==> final(self).is_intact() && final(self).entries() == entries_at(
                        old(self).file(),
                        rows,
                    )
                    &&& r matches Err(e) ==> e is Io && final(self).file() == old(self).file()
                }
            }),
            old(self).is_intact() ==> r is Ok && final(self).is_intact() && final(self).entries()
                == entries_between(old(self).entries(), 0, last_kept),
    {
        proof {
            use_type_invariant(&*self);
            assert(self.image.len() == self.image@.len());
        }
        if self.rows.len() == 0 || self.rows[self.rows.len() - 1].index < last_kept {
            proof {
                if self.is_intact() {
                    lemma_whole_holds(self.image@);
                    let all = self.entries();
                    assert forall|i: int| 0 <= i < all.len() implies (#[trigger] all[i]).index
                        <= last_kept by {
                        assert(self.rows@[i].index == all[i].index);
                        if i < all.len() - 1 {
                            assert(all[i].index < all[all.len() - 1].index);
                        }
                        assert(self.rows@[all.len() - 1].index == all[all.len() - 1].index);
                    }
                    lemma_filter_is_prefix(
                        all,
                        |e: EntryModel| 0 <= e.index <= last_kept,
                        all.len() as int,
                    );
                    assert(all.take(all.len() as int) =~= all);
                }
            }
            return Ok(());
        }
        match self.read_range(0, last_kept) {
            Ok(kept) => {
                proof {
                    lemma_kept_storable(self.image@, self.rows@, 0, last_kept);
                    assert(models(kept@) =~= entries_at(
                        self.image@,
                        rows_between(self.rows@, 0, last_kept),
                    ));
                }
                self.rewrite(kept);
                Ok(())
            },
            Err(e) => Err(e),
        }
    }

    /// Removes the entries with an index smaller than `first_kept`. A log that does not
    /// begin before that index stays as it is. An entry that has to be kept and cannot be read
    /// is an error.
    pub fn purge_before(&mut self, first_kept: u64) -> (r: Result<(), LogError>)
        ensures
            ({
                let rows = rows_between(old(self).table(), first_kept, u64::MAX);
                if begins_at(old(self).table(), first_kept) {
                    r is Ok && final(self).file() == old(self).file()
                } else {
                    &&& r is Ok <==> all_complete(old(self).file(), rows)
                    &&& r is Ok ==> final(self).is_intact() && final(self).entries() == entries_at(
                        old(self).file(),
                        rows,
                    )
                    &&& r matches Err(e) ==> e is Io && final(self).file() == old(self).file()
                }
            }),
            old(self).is_intact() ==> r is Ok && final(self).is_intact() && final(self).entries()
                == entries_between(old(self).entries(), first_kept, u64::MAX),
    {
        proof {
            use_type_invariant(&*self);
            assert(self.image.len() == self.image@.len());
        }
        if self.rows.len() == 0 || self.rows[0].index >= first_kept {
            proof {
                if self.is_intact() {
                    lemma_whole_holds(self.image@);
                    let all = self.entries();
                    assert forall|i: int| 0 <= i < all.len() implies (#[trigger] all[i]).index
                        >= first_kept by {
                        assert(self.rows@[0].index == all[0].index);
                        if i > 0 {
                            assert(all[0].index < all[i].index);
                        }
                    }
                    lemma_filter_is_suffix(
                        all,
                        |e: EntryModel| first_kept <= e.index <= u64::MAX,
                        0,
                    );
                    assert(all.skip(0) =~= all);
                }
            }
            return Ok(());
        }
        match self.read_range(first_kept, u64::MAX) {
            Ok(kept) => {
                proof {
                    lemma_kept_storable(self.image@, self.rows@, first_kept, u64::MAX);
                    assert(models(kept@) =~= entries_at(
                        self.image@,
                        rows_between(self.rows@, first_kept, u64::MAX),
                    ));
                }
                self.rewrite(kept);
                Ok(())
            },
            Err(e) => Err(e),
        }
    }

    /// Removes every entry.
    fn clear(&mut self)
        ensures
            final(self).file() == Seq::<u8>::empty(),
            final(self).is_intact(),
            final(self).entries() == Seq::<EntryModel>::empty(),
    {
        *self = LogStore::open(Vec::new());
        assert(self.image@ =~= Seq::<u8>::empty());
    }

    /// Removes the entries with an index of at least `from`.
    pub fn truncate_from(&mut self, from: u64) -> (r: Result<(), LogError>)
        ensures
            ({
                let rows = rows_between(old(self).table(), 0, (from - 1) as u64);
                if from == 0 {
                    r is Ok && final(self).file() == Seq::<u8>::empty()
                } else if ends_before(old(self).table(), (from - 1) as u64) {
                    r is Ok && final(self).file() == old(self).file()
                } else {
                    &&& r is Ok <==> all_complete(old(self).file(), rows)
                    &&& r is Ok ==> final(self).is_intact() && final(self).entries() == entries_at(
                        old(self).file(),
                        rows,
                    )
                    &&& r matches Err(e) ==> e is Io && final(self).file() == old(self).file()
                }
            }),
            old(self).is_intact() ==> r is Ok && final(self).is_intact() && final(self).entries()
                == old(self).entries().filter(|e: EntryModel| e.index < from),
    {
        let ghost all = self.entries();
        if from == 0 {
            proof {
                lemma_filter_is_prefix(all, |e: EntryModel| e.index < from, 0);
                assert(all.take(0) =~= Seq::<EntryModel>::empty());
            }
            self.clear();
            Ok(())
        } else {
            proof {
                lemma_filter_same(
                    all,
                    |e: EntryModel| 0 <= e.index <= (from - 1) as u64,
                    |e: EntryModel| e.index < from,
                );
            }
            self.truncate_after(from - 1)
        }
    }

    /// Removes the entries with an index of at most `upto`.
    pub fn purge_upto(&mut self, upto: u64) -> (r: Result<(), LogError>)
        ensures
            ({
                let rows = rows_between(old(self).table(), (upto + 1) as u64, u64::MAX);
                if upto == u64::MAX {
                    r is Ok && final(self).file() == Seq::<u8>::empty()
                } else if begins_at(old(self).table(), (upto + 1) as u64) {
                    r is Ok && final(self).file() == old(self).file()
                } else {
                    &&& r is Ok <==> all_complete(old(self).file(), rows)
                    &&& r is Ok ==> final(self).is_intact() && final(self).entries() == entries_at(
                        old(self).file(),
                        rows,
                    )
                    &&& r matches Err(e) ==> e is Io && final(self).file() == old(self).file()
                }
            }),
            old(self).is_intact() ==> r is Ok && final(self).is_intact() && final(self).entries()
                == old(self).entries().filter(|e: EntryModel| e.index > upto),
    {
        let ghost all = self.entries();
        if upto == u64::MAX {
            proof {
                lemma_filter_is_prefix(all, |e: EntryModel| e.index > upto, 0);
                assert(all.take(0) =~= Seq::<EntryModel>::empty());
            }
            self.clear();
            Ok(())
        } else {
            proof {
                lemma_filter_same(
                    all,
                    |e: EntryModel| (upto + 1) as u64 <= e.index <= u64::MAX,
                    |e: EntryModel| e.index > upto,
                );
            }
            self.purge_before(upto + 1)
        }
    }

    /// The greatest index in the log.
    pub fn last_log_index(&self) -> (r: Option<u64>)
        ensures
            r == (if self.table().len() == 0 {
                None
            } else {
                Some(self.table().last().index)
            }),
            self.is_intact() ==> r == last_index(self.entries()),
    {
        proof {
            use_type_invariant(self);
            assert(self.image.len() == self.image@.len());
            if self.is_intact() {
                lemma_whole_holds(self.image@);
            }
        }
        if self.rows.len() == 0 {
            None
        } else {
            Some(self.rows[self.rows.len() - 1].index)
        }
    }

    /// The term of the entry with the greatest index.
    pub fn last_log_term(&self) -> (r: Option<u64>)
        ensures
            r == (if self.table().len() == 0 {
                None
            } else {
                Some(self.table().last().term)
            }),
            self.is_intact() ==> r == (if self.entries().len() == 0 {
                None
            } else {
                Some(self.entries().last().term)
            }),
    {
        proof {
            use_type_invariant(self);
            assert(self.image.len() == self.image@.len());
            if self.is_intact() {
                lemma_whole_holds(self.image@);
            }
        }
        if self.rows.len() == 0 {
            None
        } else {
            Some(self.rows[self.rows.len() - 1].term)
        }
    }

    /// The smallest index in the log.
    pub fn first_log_index(&self) -> (r: Option<u64>)
        ensures
            r == (if self.table().len() == 0 {
                None
            } else {
                Some(self.table()[0].index)
            }),
            self.is_intact() ==> r == (if self.entries().len() == 0 {
                None
            } else {
                Some(self.entries()[0].index)
            }),
    {
        proof {
            use_type_invariant(self);
            assert(self.image.len() == self.image@.len());
            if self.is_intact() {
                lemma_whole_holds(self.image@);
            }
        }
        if self.rows.len() == 0 {
            None
        } else {
            Some(self.rows[0].index)
        }
    }

    /// How many entries the log holds.
    pub fn entry_count(&self) -> (r: usize)
        ensures
            r == self.table().len(),
            self.is_intact() ==> r == self.entries().len(),
    {
        proof {
            use_type_invariant(self);
            assert(self.image.len() == self.image@.len());
            if self.is_intact() {
                lemma_whole_holds(self.image@);
            }
        }
        self.rows.len()
    }

    /// Whether the file consists of complete records with ascending indexes.
    pub fn intact(&self) -> (r: bool)
        ensures
            r == self.is_intact(),
    {
        proof {
            use_type_invariant(self);
        }
        self.intact
    }

    /// The bytes of the log file.
    pub fn bytes(&self) -> (r: &[u8])
        ensures
            r@ == self.file(),
    {
        self.image.as_slice()
    }
}

proof fn lemma_sound(entries: Seq<EntryModel>)
    requires
        storable(entries),
        file_bytes(entries).len() <= usize::MAX,
    ensures
        sound_rows(file_bytes(entries), rows_of(entries)),
{
    let image = file_bytes(entries);
    let rows = rows_of(entries);
    assert forall|i: int| 0 <= i < rows.len() implies (#[trigger] rows[i]).offset + HEADER_LEN
        <= image.len() && rows[i] == row_at(image, rows[i].offset as int) by {
        lemma_file_record(entries, i);
        lemma_file_prefix(entries, i);
        assert(entry_at(image, rows[i].offset as int) == entries[i]);
    }
    assert forall|i: int, j: int|
        #![trigger rows[i], rows[j]]
        0 <= i < j < rows.len() implies rows[i].index < rows[j].index by {
        assert(entries[i].index < entries[j].index);
    }
}

/// The rows with an index in `[start, end]`.
pub open spec fn rows_between(rows: Seq<Row>, start: u64, end: u64) -> Seq<Row> {
    rows.filter(|r: Row| start <= r.index <= end)
}

/// The entries with an index in `[start, end]`.
pub open spec fn entries_between(entries: Seq<EntryModel>, start: u64, end: u64) -> Seq<
    EntryModel,
> {
    entries.filter(|e: EntryModel| start <= e.index <= end)
}

/// Reading the selected rows of an intact log gives the selected entries.
proof fn lemma_between(entries: Seq<EntryModel>, n: int, start: u64, end: u64)
    requires
        storable(entries),
        0 <= n <= entries.len(),
        file_bytes(entries).len() <= usize::MAX,
    ensures
        ({
            let rows = rows_between(rows_of(entries).take(n), start, end);
            let want = entries_between(entries.take(n), start, end);
            &&& rows.len() == want.len()
            &&& forall|i: int|
                0 <= i < rows.len() ==> end_at(
                    file_bytes(entries),
                    (#[trigger] rows[i]).offset as int,
                ) <= file_bytes(entries).len() && entry_at(
                    file_bytes(entries),
                    rows[i].offset as int,
                ) == want[i]
        }),
    decreases n,
{
    reveal(Seq::filter);
    if n > 0 {
        lemma_between(entries, n - 1, start, end);
        let rows = rows_of(entries);
        assert(rows.take(n).drop_last() =~= rows.take(n - 1));
        assert(entries.take(n).drop_last() =~= entries.take(n - 1));
        assert(rows.take(n).last() == rows[n - 1]);
        assert(entries.take(n).last() == entries[n - 1]);
        lemma_file_record(entries, n - 1);
        lemma_file_prefix(entries, n - 1);
    }
}

impl LogStore {
    /// Reads every entry with an index in `[start, end]`.
    pub fn read_range(&self, start: u64, end: u64) -> (r: Result<Vec<LogEntry>, LogError>)
        ensures
            ({
                let rows = rows_between(self.table(), start, end);
                &&& r is Ok <==> forall|i: int|
                    0 <= i < rows.len() ==> end_at(
                        self.file(),
                        (#[trigger] rows[i]).offset as int,
                    ) <= self.file().len()
                &&& r matches Ok(v) ==> {
                    &&& v@.len() == rows.len()
                    &&& forall|i: int|
                        0 <= i < rows.len() ==> (#[trigger] v@[i])@ == entry_at(
                            self.file(),
                            rows[i].offset as int,
                        )
                }
                &&& r matches Err(e) ==> e is Io
            }),
            self.is_intact() ==> {
                &&& r matches Ok(v) && models(v@) == entries_between(self.entries(), start, end)
            },
    {
        let mut out: Vec<LogEntry> = Vec::new();
        let mut i: usize = 0;
        let ghost want = rows_between(self.table(), start, end);
        proof {
            use_type_invariant(self);
            reveal(Seq::filter);
            assert(rows_between(self.rows@.take(0), start, end) =~= Seq::<Row>::empty());
        }
        while i < self.rows.len()
            invariant
                i <= self.rows@.len(),
                self.rows@ == self.table(),
                want == rows_between(self.rows@, start, end),
                out@.len() == rows_between(self.rows@.take(i as int), start, end).len(),
                forall|k: int|
                    0 <= k < out@.len() ==> (#[trigger] out@[k])@ == entry_at(
                        self.image@,
                        rows_between(self.rows@.take(i as int), start, end)[k].offset as int,
                    ),
                forall|k: int|
                    0 <= k < out@.len() ==> end_at(
                        self.image@,
                        (#[trigger] rows_between(
                            self.rows@.take(i as int),
                            start,
                            end,
                        )[k]).offset as int,
                    ) <= self.image@.len(),
            decreases self.rows@.len() - i,
        {
            let row = self.rows[i];
            let ghost before = rows_between(self.rows@.take(i as int), start, end);
            let ghost after = rows_between(self.rows@.take(i + 1), start, end);
            proof {
                reveal(Seq::filter);
                assert(self.rows@.take(i + 1).drop_last() =~= self.rows@.take(i as int));
                assert(self.rows@.take(i + 1).last() == row);
            }
            if start <= row.index && row.index <= end {
                assert(after == before.push(row));
                match self.load(i) {
                    Ok(e) => {
                        out.push(e);
                        assert forall|k: int| 0 <= k < out@.len() implies end_at(
                            self.image@,
                            (#[trigger] after[k]).offset as int,
                        ) <= self.image@.len() by {
                            if k < before.len() {
                                assert(after[k] == before[k]);
                            }
                        }
                    },
                    Err(e) => {
                        proof {
                            lemma_between_prefix(self.rows@, i + 1, start, end);
                            assert(after[before.len() as int] == row);
                            assert(want[before.len() as int] == row);
                            use_type_invariant(self);
                            assert(self.image.len() == self.image@.len());
                            if self.is_intact() {
                                lemma_whole_holds(self.image@);
                                let all = self.entries();
                                lemma_between(all, all.len() as int, start, end);
                                assert(rows_of(all).take(all.len() as int) =~= rows_of(all));
                                assert(false);
                            }
                        }
                        return Err(e);
                    },
                }
            } else {
                assert(after == before);
            }
            i = i + 1;
        }
        proof {
            use_type_invariant(self);
            assert(self.rows@.take(i as int) =~= self.rows@);
            assert(self.image.len() == self.image@.len());
            if self.is_intact() {
                lemma_whole_holds(self.image@);
                let all = self.entries();
                lemma_between(all, all.len() as int, start, end);
                assert(all.take(all.len() as int) =~= all);
                assert(rows_of(all).take(all.len() as int) =~= rows_of(all));
                assert(models(out@) =~= entries_between(all, start, end));
            }
        }
        Ok(out)
    }
}

/// The selected rows of a leading part come first among all selected rows.
proof fn lemma_between_prefix(rows: Seq<Row>, n: int, start: u64, end: u64)
    requires
        0 <= n <= rows.len(),
    ensures
        ({
            let part = rows_between(rows.take(n), start, end);
            let all = rows_between(rows, start, end);
            &&& part.len() <= all.len()
            &&& forall|i: int| 0 <= i < part.len() ==> #[trigger] part[i] == all[i]
        }),
    decreases rows.len(),
{
    reveal(Seq::filter);
    if n == rows.len() {
        assert(rows.take(n) =~= rows);
    } else {
        lemma_between_prefix(rows.drop_last(), n, start, end);
        assert(rows.drop_last().take(n) =~= rows.take(n));
    }
}

// --------------------------------------------------------------------- laws

/// What is written is what a scan finds: a file of storable entries is whole and
/// holds exactly those entries.
pub proof fn law_file_round_trip(entries: Seq<EntryModel>)
    requires
        storable(entries),
        file_bytes(entries).len() <= usize::MAX,
    ensures
        whole(file_bytes(entries), 0, None),
        decode(file_bytes(entries), 0) == entries,
        scan(file_bytes(entries), 0, Seq::empty()) == rows_of(entries),
{
    lemma_holds(file_bytes(entries), rows_of(entries), entries);
}

/// A whole file is determined by its entries, whose indexes strictly increase.
pub proof fn law_whole_file_is_its_entries(image: Seq<u8>)
    requires
        whole(image, 0, None),
        image.len() <= usize::MAX,
    ensures
        storable(decode(image, 0)),
        file_bytes(decode(image, 0)) == image,
{
    lemma_whole_holds(image);
}

/// One successful change of a log: entries were appended, the entries behind an index were
/// removed, or those before one.
pub open spec fn changed(a: LogStore, b: LogStore) -> bool {
    ||| exists|new: Seq<EntryModel>| #[trigger]
        accepted(last_index(a.entries()), new, 0) == new.len() && b.is_intact() && b.entries()
            == a.entries() + new
    ||| exists|k: u64|
        b.is_intact() && b.entries() == #[trigger] entries_between(a.entries(), 0, k)
    ||| exists|k: u64|
        b.is_intact() && b.entries() == #[trigger] entries_between(a.entries(), k, u64::MAX)
}

/// A log that is opened again reads as it did before. Here a log that was opened on an intact
/// file has gone through any number of successful changes, and is then opened again on the
/// bytes that it holds: every index is found or missing as before, with the same term and
/// payload, and so are the first and the last entry and how many there are.
pub proof fn law_reopened_log_reads_as_before(history: Seq<LogStore>, reopened: LogStore)
    requires
        history.len() > 0,
        history[0].is_intact(),
        forall|i: int|
            #![trigger history[i]]
            0 <= i < history.len() - 1 ==> changed(history[i], history[i + 1]),
        reopened.file() == history.last().file(),
    ensures
        history.last().is_intact(),
        reopened.is_intact(),
        reopened.entries() == history.last().entries(),
        reopened.table() == history.last().table(),
        forall|index: u64| #[trigger]
            entry_with(reopened.entries(), index) == entry_with(history.last().entries(), index),
{
    if history.len() > 1 {
        assert(changed(history[history.len() - 2], history[history.len() - 1]));
    }
}

/// An entry of a log is found under its index.
pub proof fn law_entry_is_found(entries: Seq<EntryModel>, i: int)
    requires
        storable(entries),
        0 <= i < entries.len(),
    ensures
        entry_with(entries, entries[i].index) == Some(entries[i]),
    decreases entries.len(),
{
    if i > 0 {
        assert(entries[0].index < entries[i].index);
        let t = entries.drop_first();
        lemma_storable_part(entries, 1, entries.len() as int);
        assert(t =~= entries.subrange(1, entries.len() as int));
        law_entry_is_found(t, i - 1);
        assert(t[i - 1] == entries[i]);
    }
}

/// A batch is accepted whole exactly where its indexes strictly increase, exceed
/// those of the log, and every payload fits a record.
pub proof fn law_batch_accepted(last: Option<u64>, new: Seq<EntryModel>, i: int)
    requires
        0 <= i <= new.len(),
    ensures
        accepted(last, new, i) == new.len() <==> (forall|k: int|
            i <= k < new.len() ==> can_follow(
                if k == i {
                    last
                } else {
                    Some(new[k - 1].index)
                },
                #[trigger] new[k],
            )),
        i <= accepted(last, new, i) <= new.len(),
    decreases new.len() - i,
{
    if i < new.len() {
        if can_follow(last, new[i]) {
            law_batch_accepted(Some(new[i].index), new, i + 1);
            if accepted(last, new, i) == new.len() {
                assert forall|k: int| i <= k < new.len() implies can_follow(
                    if k == i {
                        last
                    } else {
                        Some(new[k - 1].index)
                    },
                    #[trigger] new[k],
                ) by {}
            }
        } else {
            assert(accepted(last, new, i) == i);
        }
    }
}

} // verus!
