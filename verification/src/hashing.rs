//! Digest primitives: the two hash widths used by the library, behind trusted
//! wrappers, and the verified tagged-hash combinators built on them.
//!
//! A "tagged hash" hashes each message on its own and then hashes the
//! concatenation of those digests.

use sha2::Digest;
use vstd::prelude::*;

verus! {

/// The 32-byte SHA-256 digest of a byte run, named so contracts can speak of
/// it; its value comes only from the trusted wrappers below.
pub uninterp spec fn sha256_of(m: Seq<u8>) -> Seq<u8>;

/// The 48-byte SHA-384 digest of a byte run.
pub uninterp spec fn sha384_of(m: Seq<u8>) -> Seq<u8>;

/// Relies on `sha2::Sha256`: the FIPS 180-4 SHA-256 digest, 32 bytes, a
/// function of the message alone.
#[verifier::external_body]
pub fn hash_sha256(message: &[u8]) -> (r: Vec<u8>)
    ensures
        r@ == sha256_of(message@),
        r@.len() == 32,
{
    sha2::Sha256::digest(message).to_vec()
}

/// Relies on `ring::digest` with the SHA256 algorithm: the same FIPS 180-4
/// SHA-256 digest as [`hash_sha256`], 32 bytes, a function of the message
/// alone.
#[verifier::external_body]
pub fn hash_sha256_old(message: &[u8]) -> (r: Vec<u8>)
    ensures
        r@ == sha256_of(message@),
        r@.len() == 32,
{
    let mut context = ring::digest::Context::new(&ring::digest::SHA256);
    context.update(message);
    context.finish().as_ref().to_vec()
}

/// Relies on `ring::digest` with the SHA384 algorithm: the FIPS 180-4 SHA-384
/// digest, 48 bytes, a function of the message alone.
#[verifier::external_body]
pub fn hash_sha384(message: &[u8]) -> (r: Vec<u8>)
    ensures
        r@ == sha384_of(message@),
        r@.len() == 48,
{
    let mut context = ring::digest::Context::new(&ring::digest::SHA384);
    context.update(message);
    context.finish().as_ref().to_vec()
}

/// The concatenation of the SHA-256 digests of each message.
pub open spec fn concat_sha256(msgs: Seq<Seq<u8>>) -> Seq<u8>
    decreases msgs.len(),
{
    if msgs.len() == 0 {
        Seq::empty()
    } else {
        sha256_of(msgs[0]) + concat_sha256(msgs.drop_first())
    }
}

/// The 256-bit tagged hash: hash each message, then hash the concatenation of
/// the digests.
pub open spec fn tagged_hash256(msgs: Seq<Seq<u8>>) -> Seq<u8> {
    sha256_of(concat_sha256(msgs))
}

/// The concatenation of the SHA-384 digests of each message.
pub open spec fn concat_sha384(msgs: Seq<Seq<u8>>) -> Seq<u8>
    decreases msgs.len(),
{
    if msgs.len() == 0 {
        Seq::empty()
    } else {
        sha384_of(msgs[0]) + concat_sha384(msgs.drop_first())
    }
}

/// The 384-bit tagged hash.
pub open spec fn tagged_hash384(msgs: Seq<Seq<u8>>) -> Seq<u8> {
    sha384_of(concat_sha384(msgs))
}

/// The views of a vector of byte slices.
pub open spec fn slice_views(msgs: Seq<&[u8]>) -> Seq<Seq<u8>> {
    msgs.map_values(|m: &[u8]| m@)
}

/// The 256-bit tagged hash of the messages: a SHA-256 hash of the
/// concatenated SHA-256 hashes.
pub fn hash_all_sha256(messages: Vec<&[u8]>) -> (r: Vec<u8>)
    ensures
        r@ == tagged_hash256(slice_views(messages@)),
        r@.len() == 32,
{
    let mut acc: Vec<u8> = Vec::new();
    let mut i: usize = 0;
    while i < messages.len()
        invariant
            i <= messages@.len(),
            acc@ == concat_sha256(slice_views(messages@).take(i as int)),
        decreases messages@.len() - i,
    {
        let h = hash_sha256(messages[i]);
        acc.extend_from_slice(h.as_slice());
        proof {
            lemma_concat_sha256_snoc(slice_views(messages@), i as int);
        }
        i = i + 1;
    }
    proof {
        assert(slice_views(messages@).take(messages@.len() as int) =~= slice_views(messages@));
    }
    hash_sha256(acc.as_slice())
}

/// The 384-bit tagged hash of the messages: a SHA-384 hash of the
/// concatenated SHA-384 hashes.
pub fn hash_all_sha384(messages: Vec<&[u8]>) -> (r: Vec<u8>)
    ensures
        r@ == tagged_hash384(slice_views(messages@)),
        r@.len() == 48,
{
    let mut acc: Vec<u8> = Vec::new();
    let mut i: usize = 0;
    while i < messages.len()
        invariant
            i <= messages@.len(),
            acc@ == concat_sha384(slice_views(messages@).take(i as int)),
        decreases messages@.len() - i,
    {
        let h = hash_sha384(messages[i]);
        acc.extend_from_slice(h.as_slice());
        proof {
            lemma_concat_sha384_snoc(slice_views(messages@), i as int);
        }
        i = i + 1;
    }
    proof {
        assert(slice_views(messages@).take(messages@.len() as int) =~= slice_views(messages@));
    }
    hash_sha384(acc.as_slice())
}

/// Extending the hashed prefix by one message appends that message's digest.
proof fn lemma_concat_sha256_snoc(msgs: Seq<Seq<u8>>, i: int)
    requires
        0 <= i < msgs.len(),
    ensures
        concat_sha256(msgs.take(i + 1)) == concat_sha256(msgs.take(i)) + sha256_of(msgs[i]),
    decreases i,
{
    let pre = msgs.take(i + 1);
    if i == 0 {
        assert(pre.drop_first() =~= msgs.take(0));
        assert(concat_sha256(msgs.take(0)) + sha256_of(msgs[0]) =~= sha256_of(msgs[0]));
        assert(concat_sha256(pre) =~= sha256_of(msgs[0]));
    } else {
        lemma_concat_sha256_snoc(msgs.drop_first(), i - 1);
        assert(pre.drop_first() =~= msgs.drop_first().take(i));
        assert(msgs.take(i).drop_first() =~= msgs.drop_first().take(i - 1));
        assert(msgs.drop_first()[i - 1] == msgs[i]);
        assert(concat_sha256(pre) =~= concat_sha256(msgs.take(i)) + sha256_of(msgs[i]));
    }
}

/// Extending the hashed prefix by one message appends that message's digest.
proof fn lemma_concat_sha384_snoc(msgs: Seq<Seq<u8>>, i: int)
    requires
        0 <= i < msgs.len(),
    ensures
        concat_sha384(msgs.take(i + 1)) == concat_sha384(msgs.take(i)) + sha384_of(msgs[i]),
    decreases i,
{
    let pre = msgs.take(i + 1);
    if i == 0 {
        assert(pre.drop_first() =~= msgs.take(0));
        assert(concat_sha384(msgs.take(0)) + sha384_of(msgs[0]) =~= sha384_of(msgs[0]));
        assert(concat_sha384(pre) =~= sha384_of(msgs[0]));
    } else {
        lemma_concat_sha384_snoc(msgs.drop_first(), i - 1);
        assert(pre.drop_first() =~= msgs.drop_first().take(i));
        assert(msgs.take(i).drop_first() =~= msgs.drop_first().take(i - 1));
        assert(msgs.drop_first()[i - 1] == msgs[i]);
        assert(concat_sha384(pre) =~= concat_sha384(msgs.take(i)) + sha384_of(msgs[i]));
    }
}

/// Concatenates two 48-byte digests into one 96-byte run.
pub fn concat_u8_48(left: &Vec<u8>, right: &Vec<u8>) -> (r: Vec<u8>)
    requires
        left@.len() == 48,
        right@.len() == 48,
    ensures
        r@ == left@ + right@,
        r@.len() == 96,
{
    let mut v: Vec<u8> = Vec::new();
    v.extend_from_slice(left.as_slice());
    v.extend_from_slice(right.as_slice());
    proof {
        assert(v@ =~= left@ + right@);
    }
    v
}

} // verus!
