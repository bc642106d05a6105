//! Hashing and hex notation.

use md5::Md5;
use sha2::Digest;
use sha2::Sha256;
use vstd::prelude::*;
use vstd::utf8::*;

verus! {

/// What `sha2::Sha256` computes for a message.
pub uninterp spec fn sha256_digest(message: Seq<u8>) -> Seq<u8>;

/// `sha2::Sha256::digest`: the 32-byte SHA-256 digest of the message, which
/// depends on the message alone.
#[verifier::external_body]
pub(crate) fn sha256(message: &[u8]) -> (r: Vec<u8>)
    ensures
        r@ == sha256_digest(message@),
        r@.len() == 32,
{
    Sha256::digest(message).to_vec()
}

/// What `md5::Md5` computes for a message.
pub uninterp spec fn md5_digest(message: Seq<u8>) -> Seq<u8>;

/// `md5::Md5::digest`: the 16-byte MD5 digest of the message, which depends on the message
/// alone.
#[verifier::external_body]
pub(crate) fn md5(message: &[u8]) -> (r: Vec<u8>)
    ensures
        r@ == md5_digest(message@),
        r@.len() == 16,
{
    Md5::digest(message).to_vec()
}

/// The lower-case hex digit with value `n`.
pub open spec fn hex_digit(n: int) -> char {
    if n < 10 {
        (48 + n) as char
    } else {
        (87 + n) as char
    }
}

/// Lower-case hex notation: two digits for each byte, high digit first.
pub open spec fn hex_chars(bytes: Seq<u8>) -> Seq<char> {
    Seq::new(
        bytes.len() * 2,
        |i: int|
            if i % 2 == 0 {
                hex_digit(bytes[i / 2] as int / 16)
            } else {
                hex_digit(bytes[i / 2] as int % 16)
            },
    )
}

/// `hex::encode`: the lower-case hex notation of the bytes.
#[verifier::external_body]
pub(crate) fn hex_encode(bytes: &[u8]) -> (r: String)
    ensures
        r@ == hex_chars(bytes@),
{
    hex::encode(bytes)
}

/// Hex notation of the SHA-256 digest of a text's UTF-8 bytes.
pub open spec fn text_hash(text: Seq<char>) -> Seq<char> {
    hex_chars(sha256_digest(encode_utf8(text)))
}

/// Hex notation of the SHA-256 digest of `text`.
pub fn hash_hex(text: &str) -> (r: String)
    ensures
        r@ == text_hash(text@),
{
    let digest = sha256(text.as_bytes());
    hex_encode(digest.as_slice())
}

/// Hex notation of the SHA-256 digest of some bytes.
pub fn sha256_hex(data: &[u8]) -> (r: String)
    ensures
        r@ == hex_chars(sha256_digest(data@)),
{
    let digest = sha256(data);
    hex_encode(digest.as_slice())
}

/// Hex notation of the MD5 digest of some bytes.
pub fn md5_hex(data: &[u8]) -> (r: String)
    ensures
        r@ == hex_chars(md5_digest(data@)),
{
    let digest = md5(data);
    hex_encode(digest.as_slice())
}

/// Hex notation of the first eight bytes of a SHA-256 digest.
pub open spec fn short_hash(message: Seq<u8>) -> Seq<char> {
    hex_chars(sha256_digest(message).take(8))
}

/// Hex notation of the first eight bytes of the SHA-256 digest of a message.
pub fn short_hex(message: &[u8]) -> (r: String)
    ensures
        r@ == short_hash(message@),
{
    let digest = sha256(message);
    let head = vstd::slice::slice_subrange(digest.as_slice(), 0, 8);
    assert(head@ =~= sha256_digest(message@).take(8));
    hex_encode(head)
}

/// The UTF-8 bytes of the first `n` texts, each followed by `end`.
pub open spec fn joined_bytes(texts: Seq<Seq<char>>, end: Seq<u8>, n: nat) -> Seq<u8>
    decreases n,
{
    if n == 0 {
        Seq::empty()
    } else {
        joined_bytes(texts, end, (n - 1) as nat) + encode_utf8(texts[n - 1]) + end
    }
}

/// Adds the UTF-8 bytes of texts to a message, each followed by `end`.
pub fn append_texts(message: &mut Vec<u8>, texts: &[String], end: &[u8])
    ensures
        final(message)@ == old(message)@ + joined_bytes(
            crate::order::views(texts@),
            end@,
            texts@.len(),
        ),
{
    let ghost tv = crate::order::views(texts@);
    let mut i: usize = 0;
    assert(message@ =~= old(message)@ + joined_bytes(tv, end@, 0));
    while i < texts.len()
        invariant
            i <= texts@.len(),
            tv == crate::order::views(texts@),
            message@ == old(message)@ + joined_bytes(tv, end@, i as nat),
        decreases texts@.len() - i,
    {
        message.extend_from_slice(texts[i].as_str().as_bytes());
        message.extend_from_slice(end);
        assert(message@ =~= old(message)@ + joined_bytes(tv, end@, (i + 1) as nat));
        i = i + 1;
    }
}

} // verus!
