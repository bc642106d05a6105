//! Cutting data into shards of one length, and joining them again.

use vstd::prelude::*;

use crate::erasure;

verus! {

/// The length of each of `n` shards of some data: the data divided evenly, at least a byte.
pub open spec fn shard_size(len: int, n: int) -> int {
    if len == 0 {
        1
    } else if len % n == 0 {
        len / n
    } else {
        len / n + 1
    }
}

/// The shards of some data, one stretch after the other, filled up with zeros.
pub open spec fn cut(data: Seq<u8>, n: nat) -> Seq<Seq<u8>> {
    let size = shard_size(data.len() as int, n as int);
    Seq::new(
        n,
        |i: int|
            Seq::new(
                size as nat,
                |j: int|
                    if i * size + j < data.len() {
                        data[i * size + j]
                    } else {
                        0u8
                    },
            ),
    )
}

/// Shards joined.
pub open spec fn joined(shards: Seq<Seq<u8>>) -> Seq<u8>
    decreases shards.len(),
{
    if shards.len() == 0 {
        Seq::empty()
    } else {
        joined(shards.drop_last()) + shards.last()
    }
}

/// The first bytes, as far as there are any.
pub open spec fn first_bytes(data: Seq<u8>, size: int) -> Seq<u8> {
    if size < data.len() {
        data.take(size)
    } else {
        data
    }
}

proof fn lemma_size_covers(len: int, n: int)
    requires
        len >= 0,
        n > 0,
    ensures
        shard_size(len, n) > 0,
        n * shard_size(len, n) >= len,
{
    assert(n * (len / n) + len % n == len && 0 <= len % n < n && len / n >= 0) by (nonlinear_arith)
        requires
            len >= 0,
            n > 0,
    ;
    if len == 0 {
        assert(n * 1 >= 0);
    } else if len % n == 0 {
        assert(len / n > 0) by (nonlinear_arith)
            requires
                n * (len / n) == len,
                len > 0,
                n > 0,
        ;
    } else {
        assert(n * (len / n + 1) == n * (len / n) + n) by (nonlinear_arith);
    }
}

/// Shards of one length, joined, hold the bytes of each in its place.
pub proof fn lemma_joined(shards: Seq<Seq<u8>>, size: int)
    requires
        size >= 0,
        forall|i: int| 0 <= i < shards.len() ==> (#[trigger] shards[i]).len() == size,
    ensures
        joined(shards).len() == shards.len() * size,
        forall|i: int, j: int|
            0 <= i < shards.len() && 0 <= j < size ==> joined(shards)[i * size + j]
                == #[trigger] shards[i][j],
    decreases shards.len(),
{
    if shards.len() > 0 {
        let head = shards.drop_last();
        let n = head.len() as int;
        lemma_joined(head, size);
        assert((n + 1) * size == n * size + size) by (nonlinear_arith);
        assert(joined(shards) == joined(head) + shards.last());
        assert forall|i: int, j: int| 0 <= i < shards.len() && 0 <= j < size implies joined(
            shards,
        )[i * size + j] == #[trigger] shards[i][j] by {
            if i < n {
                assert(i * size + j < n * size) by (nonlinear_arith)
                    requires
                        0 <= i < n,
                        0 <= j < size,
                ;
                assert(i * size >= 0) by (nonlinear_arith)
                    requires
                        0 <= i,
                        0 <= size,
                ;
                assert(head[i][j] == shards[i][j]);
            }
        }
    } else {
        assert(0 * size == 0) by (nonlinear_arith);
    }
}

/// Data that was cut and joined again is the same data, with zeros behind it.
pub proof fn law_cut_and_joined(data: Seq<u8>, n: nat)
    requires
        n > 0,
    ensures
        joined(cut(data, n)).len() >= data.len(),
        first_bytes(joined(cut(data, n)), data.len() as int) == data,
{
    let len = data.len() as int;
    let size = shard_size(len, n as int);
    let parts = cut(data, n);
    lemma_size_covers(len, n as int);
    lemma_joined(parts, size);
    let all = joined(parts);
    assert forall|k: int| 0 <= k < len implies all[k] == data[k] by {
        let i = k / size;
        let j = k % size;
        assert(i * size + j == k && 0 <= j < size && i >= 0) by (nonlinear_arith)
            requires
                i == k / size,
                j == k % size,
                k >= 0,
                size > 0,
        ;
        assert(i < n) by (nonlinear_arith)
            requires
                i * size + j == k,
                0 <= j,
                k < n * size,
                size > 0,
        ;
        assert(parts[i][j] == data[k]);
    }
    assert(first_bytes(all, len) =~= data);
}

/// The shards have one length, and it is not zero.
pub proof fn lemma_cut_is_uniform(data: Seq<u8>, n: nat)
    requires
        n > 0,
    ensures
        erasure::uniform(cut(data, n)),
        cut(data, n).len() == n,
{
    lemma_size_covers(data.len() as int, n as int);
    let parts = cut(data, n);
    assert(parts[0].len() == shard_size(data.len() as int, n as int));
}

/// Cuts data into shards.
pub fn split_data(data: &[u8], n: usize) -> (r: Vec<Vec<u8>>)
    requires
        n > 0,
    ensures
        erasure::shard_views(r@) == cut(data@, n as nat),
{
    assert(data.len() == data@.len());
    let len: usize = data.len();
    proof {
        lemma_size_covers(len as int, n as int);
    }
    let size: usize = if len == 0 {
        1
    } else if len % n == 0 {
        len / n
    } else {
        assert(len / n < len) by (nonlinear_arith)
            requires
                n > 0,
                len > 0,
                len % n != 0,
        ;
        len / n + 1
    };
    let ghost want = cut(data@, n as nat);
    let mut out: Vec<Vec<u8>> = Vec::new();
    let mut at: usize = 0;
    assert(0 * size == 0) by (nonlinear_arith);
    while out.len() < n
        invariant
            out@.len() <= n,
            n > 0,
            size > 0,
            size == shard_size(data@.len() as int, n as int),
            want == cut(data@, n as nat),
            data@.len() == len,
            data.len() == len,
            at <= len,
            at == len ==> out@.len() * size >= len,
            at < len ==> at == out@.len() * size,
            forall|k: int| 0 <= k < out@.len() ==> (#[trigger] out@[k])@ == want[k],
        decreases n - out@.len(),
    {
        let ghost i = out@.len() as int;
        let mut shard: Vec<u8> = Vec::new();
        while shard.len() < size
            invariant
                shard@.len() <= size,
                0 <= i < n,
                size == shard_size(data@.len() as int, n as int),
                want == cut(data@, n as nat),
                data@.len() == len,
                data.len() == len,
                at <= len,
                at == len ==> i * size + shard@.len() >= len,
                at < len ==> at == i * size + shard@.len(),
                forall|j: int| 0 <= j < shard@.len() ==> #[trigger] shard@[j] == want[i][j],
            decreases size - shard@.len(),
        {
            if at < len {
                shard.push(data[at]);
                at = at + 1;
            } else {
                shard.push(0);
            }
        }
        assert(shard@ =~= want[i]);
        assert((i + 1) * size == i * size + size) by (nonlinear_arith);
        out.push(shard);
    }
    assert(erasure::shard_views(out@) =~= want);
    out
}

} // verus!
