//! Reed-Solomon coding of shards.

use reed_solomon_erasure::galois_8::ReedSolomon;
use vstd::prelude::*;

verus! {

/// Why shards could not be coded.
#[derive(Debug, PartialEq, Eq)]
pub enum CodecError {
    /// There is no code with these shard counts.
    Config(String),
    /// The shards do not fit the code.
    Shards(String),
}

/// There is a code with these shard counts.
pub open spec fn codec_exists(data: int, parity: int) -> bool {
    data > 0 && parity > 0 && data + parity <= 256
}

/// Why there is no code with these shard counts.
pub open spec fn config_complaint(data: int, parity: int) -> Seq<char> {
    if data == 0 {
        "The number of provided data shards is smaller than the one in codec"@
    } else if parity == 0 {
        "The number of provided parity shards is smaller than the one in codec"@
    } else {
        "The number of provided shards is greater than the one in codec"@
    }
}

/// Why shards cannot be encoded.
pub open spec fn encode_complaint(total: int, shards: Seq<Seq<u8>>) -> Seq<char> {
    if shards.len() < total {
        "The number of provided shards is smaller than the one in codec"@
    } else if shards.len() > total {
        "The number of provided shards is greater than the one in codec"@
    } else if shards[0].len() == 0 {
        "The first shard provided is of zero length"@
    } else {
        "At least one of the provided shards is not of the correct size"@
    }
}

/// The bytes of each shard.
pub open spec fn shard_views(shards: Seq<Vec<u8>>) -> Seq<Seq<u8>> {
    Seq::new(shards.len(), |i: int| shards[i]@)
}

/// The bytes of each shard that is there.
pub open spec fn slot_views(shards: Seq<Option<Vec<u8>>>) -> Seq<Option<Seq<u8>>> {
    Seq::new(
        shards.len(),
        |i: int|
            match shards[i] {
                Some(s) => Some(s@),
                None => None,
            },
    )
}

/// All shards, each there.
pub open spec fn filled(shards: Seq<Seq<u8>>) -> Seq<Option<Seq<u8>>> {
    Seq::new(shards.len(), |i: int| Some(shards[i]))
}

/// All shards have the same length, and it is not zero.
pub open spec fn uniform(shards: Seq<Seq<u8>>) -> bool {
    &&& shards.len() > 0
    &&& shards[0].len() > 0
    &&& forall|i: int| 0 <= i < shards.len() ==> (#[trigger] shards[i]).len() == shards[0].len()
}

/// The shards that are there have one length, and it is not zero.
pub open spec fn uniform_slots(shards: Seq<Option<Seq<u8>>>) -> bool {
    &&& forall|i: int| 0 <= i < shards.len() && (#[trigger] shards[i]) is Some ==> shards[i]->0.len() > 0
    &&& forall|i: int, j: int|
        #![trigger shards[i], shards[j]]
        0 <= i < shards.len() && 0 <= j < shards.len() && shards[i] is Some && shards[j] is Some
            ==> shards[i]->0.len() == shards[j]->0.len()
}

/// How many of the first `n` shards are there.
pub open spec fn present(shards: Seq<Option<Seq<u8>>>, n: nat) -> nat
    decreases n,
{
    if n == 0 {
        0
    } else {
        present(shards, (n - 1) as nat) + (if shards[n - 1] is Some {
            1nat
        } else {
            0nat
        })
    }
}

/// Every shard that is there is the one of the code word.
pub open spec fn agrees(shards: Seq<Option<Seq<u8>>>, word: Seq<Seq<u8>>) -> bool {
    shards.len() == word.len() && forall|i: int|
        0 <= i < shards.len() && (#[trigger] shards[i]) is Some ==> shards[i]->0 == word[i]
}

/// The shards that `ReedSolomon::encode` makes of the data shards: these, followed
/// by the parity shards.
pub uninterp spec fn code_word(data: nat, parity: nat, shards: Seq<Seq<u8>>) -> Seq<Seq<u8>>;

/// `ReedSolomon::new` and `ReedSolomon::encode` over GF(2^8). There is a code for at
/// least one data and one parity shard and at most 256 in all. Encoding needs exactly
/// that many shards, all of one length that is not zero. It leaves the data shards as
/// they are and overwrites the parity shards, which depend on the data shards alone.
#[verifier::external_body]
pub(crate) fn encode(data: usize, parity: usize, shards: Vec<Vec<u8>>) -> (r: Result<
    Vec<Vec<u8>>,
    CodecError,
>)
    requires
        data + parity <= usize::MAX,
    ensures
        (r is Ok) == (codec_exists(data as int, parity as int) && shards@.len() == data + parity
            && uniform(shard_views(shards@))),
        r matches Err(e) ==> (e is Config) == !codec_exists(data as int, parity as int),
        r matches Err(CodecError::Config(m)) ==> m@ == config_complaint(
            data as int,
            parity as int,
        ),
        r matches Err(CodecError::Shards(m)) ==> m@ == encode_complaint(
            data + parity,
            shard_views(shards@),
        ),
        r matches Ok(out) ==> shard_views(out@) == code_word(
            data as nat,
            parity as nat,
            shard_views(shards@).take(data as int),
        ),
        r matches Ok(out) ==> out@.len() == data + parity && shard_views(out@).take(data as int)
            == shard_views(shards@).take(data as int),
        r matches Ok(out) ==> uniform(shard_views(out@)) && out@[0]@.len() == shards@[0]@.len(),
{
    let codec = match ReedSolomon::new(data, parity) {
        Ok(c) => c,
        Err(e) => return Err(CodecError::Config(e.to_string())),
    };
    let mut shards = shards;
    match codec.encode(&mut shards) {
        Ok(()) => Ok(shards),
        Err(e) => Err(CodecError::Shards(e.to_string())),
    }
}

/// The shards to which `ReedSolomon::reconstruct` completes the given ones.
pub uninterp spec fn completed(
    data: nat,
    parity: nat,
    shards: Seq<Option<Seq<u8>>>,
) -> Seq<Seq<u8>>;

/// `ReedSolomon::new` and `ReedSolomon::reconstruct` over GF(2^8). Reconstruction
/// needs one slot for each shard; the shards that are there have one length that is
/// not zero, and at least as many as there are data shards. It keeps the shards that
/// are there and fills in the others. Shards of a code word are completed to that
/// code word. Left unsaid is the wording of an error about the shards.
#[verifier::external_body]
pub(crate) fn reconstruct(data: usize, parity: usize, shards: Vec<Option<Vec<u8>>>) -> (r: Result<
    Vec<Option<Vec<u8>>>,
    CodecError,
>)
    requires
        data + parity <= usize::MAX,
    ensures
        (r is Ok) == (codec_exists(data as int, parity as int) && shards@.len() == data + parity
            && uniform_slots(slot_views(shards@)) && present(slot_views(shards@), shards@.len())
            >= data),
        r matches Err(e) ==> (e is Config) == !codec_exists(data as int, parity as int),
        r matches Err(CodecError::Config(m)) ==> m@ == config_complaint(
            data as int,
            parity as int,
        ),
        r matches Ok(out) ==> slot_views(out@) == filled(
            completed(data as nat, parity as nat, slot_views(shards@)),
        ),
        r matches Ok(out) ==> out@.len() == data + parity && uniform_slots(slot_views(out@)),
        r matches Ok(out) ==> forall|i: int|
            0 <= i < shards@.len() && shards@[i] is Some ==> #[trigger] slot_views(out@)[i]
                == slot_views(shards@)[i],
        r matches Ok(out) ==> forall|x: Seq<Seq<u8>>|
            x.len() == data && uniform(x) && agrees(
                slot_views(shards@),
                #[trigger] code_word(data as nat, parity as nat, x),
            ) ==> slot_views(out@) == filled(code_word(data as nat, parity as nat, x)),
{
    let codec = match ReedSolomon::new(data, parity) {
        Ok(c) => c,
        Err(e) => return Err(CodecError::Config(e.to_string())),
    };
    let mut slots = shards;
    match codec.reconstruct(&mut slots) {
        Ok(()) => Ok(slots),
        Err(e) => Err(CodecError::Shards(e.to_string())),
    }
}

} // verus!
