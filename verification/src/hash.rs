//! Byte hashing and deterministic sampling, through outside crates.
//!
//! The digests of SHA3-256 and BLAKE3, and the output stream of the
//! standard seeded generator, are functions of their inputs alone; each is
//! given an uninterpreted name, and the wrappers below relate the outside
//! calls to those names.  Everything that interprets the digests (words,
//! field elements) is verified code.

use vstd::prelude::*;
use vstd::bytes::{spec_u64_from_le_bytes, spec_u64_to_le_bytes, u64_from_le_bytes, u64_to_le_bytes};
use rand::SeedableRng;
use rand::RngCore;
use crate::field::{field_p, Goldilocks};

verus! {

/// The SHA3-256 digest of a byte string.
pub uninterp spec fn sha3_256_of(data: Seq<u8>) -> Seq<u8>;

/// The BLAKE3 digest of a byte string.
pub uninterp spec fn blake3_of(data: Seq<u8>) -> Seq<u8>;

/// The leading draws of the standard seeded generator for a 32-byte seed.
pub uninterp spec fn stdrng_stream_of(seed: Seq<u8>, count: nat) -> Seq<u64>;

/// Relies on sha3::Sha3_256 through the Digest trait: the 32-byte SHA3-256
/// digest of the input bytes, a function of the bytes alone.
#[verifier::external_body]
pub fn sha3_256_digest(data: &Vec<u8>) -> (r: Vec<u8>)
    ensures
        r@ == sha3_256_of(data@),
        r@.len() == 32,
{
    let out = <sha3::Sha3_256 as sha3::Digest>::digest(data.as_slice());
    out.to_vec()
}

/// Relies on blake3::hash: the 32-byte BLAKE3 digest of the input bytes, a
/// function of the bytes alone.
#[verifier::external_body]
pub fn blake3_digest(data: &Vec<u8>) -> (r: Vec<u8>)
    ensures
        r@ == blake3_of(data@),
        r@.len() == 32,
{
    blake3::hash(data.as_slice()).as_bytes().to_vec()
}

/// Relies on rand::rngs::StdRng: seeded from fixed bytes the generator is
/// deterministic, so its leading draws are a function of the seed alone.
#[verifier::external_body]
pub fn stdrng_u64_stream(seed: &Vec<u8>, count: usize) -> (r: Vec<u64>)
    requires
        seed@.len() == 32,
    ensures
        r@ == stdrng_stream_of(seed@, count as nat),
        r@.len() == count,
{
    let mut s = [0u8; 32];
    s.copy_from_slice(&seed[..32]);
    let mut rng = rand::rngs::StdRng::from_seed(s);
    let mut out = Vec::with_capacity(count);
    for _ in 0..count {
        out.push(rng.next_u64());
    }
    out
}

/// A byte string padded or cut to exactly eight bytes.
pub open spec fn le_word_bytes(s: Seq<u8>) -> Seq<u8> {
    if s.len() >= 8 {
        s.subrange(0, 8)
    } else {
        s + Seq::new((8 - s.len()) as nat, |i: int| 0u8)
    }
}

/// The machine word read from the first eight bytes, little-endian, with
/// short inputs padded by zeros.
pub open spec fn le_word(s: Seq<u8>) -> u64 {
    spec_u64_from_le_bytes(le_word_bytes(s))
}

/// The field element carried by the first eight bytes of a byte string.
pub open spec fn field_of_bytes(s: Seq<u8>) -> int {
    (le_word(s) as int) % field_p()
}

/// Reads eight bytes (zero-padded) at an offset as a little-endian word.
pub fn word_at(bytes: &Vec<u8>, off: usize) -> (r: u64)
    requires
        off <= bytes@.len(),
    ensures
        r == le_word(bytes@.skip(off as int)),
{
    let rest = bytes.len() - off;
    let take = if rest >= 8 { 8 } else { rest };
    let mut buf: Vec<u8> = Vec::new();
    let mut i: usize = 0;
    while i < take
        invariant
            i <= take,
            bytes@.len() <= usize::MAX,
            off + take <= bytes@.len(),
            take == if bytes@.len() - off >= 8 { 8int } else { bytes@.len() - off },
            buf@.len() == i,
            forall|j: int| 0 <= j < i as int ==> buf@[j] == bytes@[off as int + j],
        decreases take - i,
    {
        let b = bytes[off + i];
        buf.push(b);
        i = i + 1;
    }
    while i < 8
        invariant
            take <= i <= 8,
            bytes@.len() <= usize::MAX,
            off + take <= bytes@.len(),
            take == if bytes@.len() - off >= 8 { 8int } else { bytes@.len() - off },
            buf@.len() == i,
            forall|j: int| 0 <= j < take ==> buf@[j] == bytes@[off as int + j],
            forall|j: int| take <= j < i as int ==> buf@[j] == 0u8,
        decreases 8 - i,
    {
        buf.push(0u8);
        i = i + 1;
    }
    proof {
        assert(buf@ =~= le_word_bytes(bytes@.skip(off as int)));
    }
    u64_from_le_bytes(buf.as_slice())
}

/// Reads the first eight bytes (zero-padded) as a little-endian word.
pub fn word_from_bytes(bytes: &Vec<u8>) -> (r: u64)
    ensures
        r == le_word(bytes@),
{
    let r = word_at(bytes, 0);
    proof {
        assert(bytes@.skip(0) =~= bytes@);
    }
    r
}

/// The field element carried by the first eight bytes of a byte string.
pub fn field_from_bytes(bytes: &Vec<u8>) -> (r: Goldilocks)
    ensures
        r.wf(),
        r@ == field_of_bytes(bytes@),
{
    let w = word_from_bytes(bytes);
    Goldilocks::from_u64(w)
}

/// A field element as a 32-byte seed: its canonical bytes, zero-padded.
pub open spec fn seed32_of(x: Goldilocks) -> Seq<u8> {
    spec_u64_to_le_bytes(x.v) + Seq::new(24nat, |i: int| 0u8)
}

/// The canonical eight-byte little-endian serialization of a field element.
pub fn field_to_bytes(x: Goldilocks) -> (r: Vec<u8>)
    ensures
        r@ == spec_u64_to_le_bytes(x.v),
        r@.len() == 8,
{
    u64_to_le_bytes(x.v)
}

/// Appends the canonical serialization of a field element to a byte buffer.
pub fn push_field_bytes(buf: &mut Vec<u8>, x: Goldilocks)
    ensures
        final(buf)@ == old(buf)@ + spec_u64_to_le_bytes(x.v),
        final(buf)@.len() == old(buf)@.len() + 8,
{
    let b = field_to_bytes(x);
    let mut i: usize = 0;
    while i < 8
        invariant
            i <= 8,
            b@ == spec_u64_to_le_bytes(x.v),
            b@.len() == 8,
            buf@ == old(buf)@ + b@.subrange(0, i as int),
        decreases 8 - i,
    {
        let c = b[i];
        buf.push(c);
        proof {
            assert(old(buf)@ + b@.subrange(0, i as int) + seq![b@[i as int]] =~= old(buf)@
                + b@.subrange(0, i as int + 1));
        }
        i = i + 1;
    }
    proof {
        assert(b@.subrange(0, 8) =~= b@);
    }
}

/// Appends the little-endian serialization of a word to a byte buffer.
pub fn push_u64_bytes(buf: &mut Vec<u8>, x: u64)
    ensures
        final(buf)@ == old(buf)@ + spec_u64_to_le_bytes(x),
        final(buf)@.len() == old(buf)@.len() + 8,
{
    let b = u64_to_le_bytes(x);
    let mut i: usize = 0;
    while i < 8
        invariant
            i <= 8,
            b@ == spec_u64_to_le_bytes(x),
            b@.len() == 8,
            buf@ == old(buf)@ + b@.subrange(0, i as int),
        decreases 8 - i,
    {
        let c = b[i];
        buf.push(c);
        proof {
            assert(old(buf)@ + b@.subrange(0, i as int) + seq![b@[i as int]] =~= old(buf)@
                + b@.subrange(0, i as int + 1));
        }
        i = i + 1;
    }
    proof {
        assert(b@.subrange(0, 8) =~= b@);
    }
}

/// Appends a byte string to a byte buffer.
pub fn push_bytes(buf: &mut Vec<u8>, data: &Vec<u8>)
    ensures
        final(buf)@ == old(buf)@ + data@,
{
    let n = data.len();
    let mut i: usize = 0;
    while i < n
        invariant
            i <= n,
            n == data@.len(),
            buf@ == old(buf)@ + data@.subrange(0, i as int),
        decreases n - i,
    {
        let c = data[i];
        buf.push(c);
        proof {
            assert(old(buf)@ + data@.subrange(0, i as int) + seq![data@[i as int]] =~= old(buf)@
                + data@.subrange(0, i as int + 1));
        }
        i = i + 1;
    }
    proof {
        assert(data@.subrange(0, n as int) =~= data@);
    }
}

} // verus!

