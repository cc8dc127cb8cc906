//! The canonical byte encoding of a block's content, and the hash taken
//! over it.
//!
//! Encoding, version 1. The fields follow one another in this order, every
//! integer big-endian:
//!
//! | field            | bytes                                   |
//! |------------------|-----------------------------------------|
//! | timestamp        | 16                                      |
//! | payload length   | 8                                       |
//! | payload          | as many as the length says              |
//! | parent length    | 8, the length of the parent hash, UTF-8 |
//! | parent hash      | as many as the length says, UTF-8       |
//! | height           | 8                                       |
//! | nonce            | 4, two's complement                     |
//!
//! The nonce comes last, so that a search over nonces hashes the fields
//! before it once.

use vstd::prelude::*;
use vstd::utf8::{encode_utf8, encode_utf8_decode_utf8};
use crate::encoding::{
    be_array, be_bytes, hex_string, lemma_be_bytes_injective, lemma_be_bytes_len,
    lemma_radix_pow_values, to_hex,
};
use crate::sha256::{sha256, Sha256};

verus! {

/// The encoding of every field but the nonce.
pub open spec fn header_bytes(
    timestamp: u128,
    payload: Seq<u8>,
    prev_hash: Seq<char>,
    height: usize,
) -> Seq<u8> {
    be_bytes(timestamp as nat, 16) + be_bytes(payload.len(), 8) + payload + be_bytes(
        encode_utf8(prev_hash).len(),
        8,
    ) + encode_utf8(prev_hash) + be_bytes(height as nat, 8)
}

/// The encoding of the nonce.
pub open spec fn nonce_bytes(nonce: i32) -> Seq<u8> {
    be_bytes((nonce as u32) as nat, 4)
}

/// The canonical encoding of a block's content.
pub open spec fn canonical_bytes(
    timestamp: u128,
    payload: Seq<u8>,
    prev_hash: Seq<char>,
    height: usize,
    nonce: i32,
) -> Seq<u8> {
    header_bytes(timestamp, payload, prev_hash, height) + nonce_bytes(nonce)
}

/// The SHA-256 digest of the canonical encoding.
pub open spec fn block_digest(
    timestamp: u128,
    payload: Seq<u8>,
    prev_hash: Seq<char>,
    height: usize,
    nonce: i32,
) -> Seq<u8> {
    sha256(canonical_bytes(timestamp, payload, prev_hash, height, nonce))
}

/// The hash by which a block is known: its digest as sixty-four lower-case
/// hexadecimal digits.
pub open spec fn block_hash(
    timestamp: u128,
    payload: Seq<u8>,
    prev_hash: Seq<char>,
    height: usize,
    nonce: i32,
) -> Seq<char> {
    hex_string(block_digest(timestamp, payload, prev_hash, height, nonce))
}

proof fn lemma_split_concat(a: Seq<u8>, rest_a: Seq<u8>, b: Seq<u8>, rest_b: Seq<u8>)
    requires
        a + rest_a == b + rest_b,
        a.len() == b.len(),
    ensures
        a == b,
        rest_a == rest_b,
{
    let whole = a + rest_a;
    assert(a =~= whole.subrange(0, a.len() as int));
    assert(b =~= whole.subrange(0, b.len() as int));
    assert(rest_a =~= whole.subrange(a.len() as int, whole.len() as int));
    assert(rest_b =~= whole.subrange(b.len() as int, whole.len() as int));
}

/// The encoding is unambiguous: two contents with the same canonical bytes
/// are the same content, as long as the payload and the parent hash are
/// short enough for their eight-byte length fields, as everything that
/// fits in memory is.
pub proof fn lemma_canonical_bytes_injective(
    timestamp: u128,
    payload: Seq<u8>,
    prev_hash: Seq<char>,
    height: usize,
    nonce: i32,
    timestamp2: u128,
    payload2: Seq<u8>,
    prev_hash2: Seq<char>,
    height2: usize,
    nonce2: i32,
)
    requires
        payload.len() <= u64::MAX,
        payload2.len() <= u64::MAX,
        encode_utf8(prev_hash).len() <= u64::MAX,
        encode_utf8(prev_hash2).len() <= u64::MAX,
        canonical_bytes(timestamp, payload, prev_hash, height, nonce) == canonical_bytes(
            timestamp2,
            payload2,
            prev_hash2,
            height2,
            nonce2,
        ),
    ensures
        timestamp == timestamp2,
        payload == payload2,
        prev_hash == prev_hash2,
        height == height2,
        nonce == nonce2,
{
    let parent = encode_utf8(prev_hash);
    let parent2 = encode_utf8(prev_hash2);
    let f1 = be_bytes(timestamp as nat, 16);
    let g1 = be_bytes(timestamp2 as nat, 16);
    let f2 = be_bytes(payload.len(), 8);
    let g2 = be_bytes(payload2.len(), 8);
    let f3 = be_bytes(parent.len(), 8);
    let g3 = be_bytes(parent2.len(), 8);
    let f4 = be_bytes(height as nat, 8);
    let g4 = be_bytes(height2 as nat, 8);
    let f5 = be_bytes((nonce as u32) as nat, 4);
    let g5 = be_bytes((nonce2 as u32) as nat, 4);
    lemma_radix_pow_values();
    lemma_be_bytes_len(timestamp as nat, 16);
    lemma_be_bytes_len(timestamp2 as nat, 16);
    lemma_be_bytes_len(payload.len(), 8);
    lemma_be_bytes_len(payload2.len(), 8);
    lemma_be_bytes_len(parent.len(), 8);
    lemma_be_bytes_len(parent2.len(), 8);
    lemma_be_bytes_len(height as nat, 8);
    lemma_be_bytes_len(height2 as nat, 8);
    let r4 = f4 + f5;
    let s4 = g4 + g5;
    let r3 = parent + r4;
    let s3 = parent2 + s4;
    let r2 = f3 + r3;
    let s2 = g3 + s3;
    let r1 = payload + r2;
    let s1 = payload2 + s2;
    let r0 = f2 + r1;
    let s0 = g2 + s1;
    assert(canonical_bytes(timestamp, payload, prev_hash, height, nonce) =~= f1 + r0);
    assert(canonical_bytes(timestamp2, payload2, prev_hash2, height2, nonce2) =~= g1 + s0);
    lemma_split_concat(f1, r0, g1, s0);
    lemma_be_bytes_injective(timestamp as nat, timestamp2 as nat, 16);
    lemma_split_concat(f2, r1, g2, s1);
    lemma_be_bytes_injective(payload.len(), payload2.len(), 8);
    lemma_split_concat(payload, r2, payload2, s2);
    lemma_split_concat(f3, r3, g3, s3);
    lemma_be_bytes_injective(parent.len(), parent2.len(), 8);
    lemma_split_concat(parent, r4, parent2, s4);
    encode_utf8_decode_utf8(prev_hash);
    encode_utf8_decode_utf8(prev_hash2);
    lemma_split_concat(f4, f5, g4, g5);
    lemma_be_bytes_injective(height as nat, height2 as nat, 8);
    lemma_be_bytes_injective((nonce as u32) as nat, (nonce2 as u32) as nat, 4);
    assert((nonce as u32) == (nonce2 as u32) ==> nonce == nonce2) by (bit_vector);
}

fn append_bytes(out: &mut Vec<u8>, data: &[u8])
    ensures
        final(out)@ == old(out)@ + data@,
{
    let ghost before = out@;
    let mut i: usize = 0;
    while i < data.len()
        invariant
            i <= data@.len(),
            out@ == before + data@.take(i as int),
        decreases data@.len() - i,
    {
        out.push(data[i]);
        assert(before + data@.take(i + 1) =~= (before + data@.take(i as int)).push(
            data@[i as int],
        ));
        i = i + 1;
    }
    assert(data@.take(i as int) =~= data@);
}

/// Encodes a block's content.
pub fn canonicalize(
    timestamp: u128,
    payload: &[u8],
    prev_hash: &str,
    height: usize,
    nonce: i32,
) -> (bytes: Vec<u8>)
    ensures
        bytes@ == canonical_bytes(timestamp, payload@, prev_hash@, height, nonce),
{
    let parent = prev_hash.as_bytes();
    let timestamp_field: [u8; 16] = be_array::<16>(timestamp);
    let payload_length: [u8; 8] = be_array::<8>(payload.len() as u128);
    let parent_length: [u8; 8] = be_array::<8>(parent.len() as u128);
    let height_field: [u8; 8] = be_array::<8>(height as u128);
    let nonce_field: [u8; 4] = be_array::<4>((nonce as u32) as u128);
    let mut bytes: Vec<u8> = Vec::new();
    append_bytes(&mut bytes, timestamp_field.as_slice());
    append_bytes(&mut bytes, payload_length.as_slice());
    append_bytes(&mut bytes, payload);
    append_bytes(&mut bytes, parent_length.as_slice());
    append_bytes(&mut bytes, parent);
    append_bytes(&mut bytes, height_field.as_slice());
    append_bytes(&mut bytes, nonce_field.as_slice());
    assert(bytes@ =~= canonical_bytes(timestamp, payload@, prev_hash@, height, nonce));
    bytes
}

/// A hasher that has absorbed every field but the nonce.
pub fn absorb_header(timestamp: u128, payload: &[u8], prev_hash: &str, height: usize) -> (hasher:
    Sha256)
    ensures
        hasher.wf(),
        hasher@ == header_bytes(timestamp, payload@, prev_hash@, height),
{
    let parent = prev_hash.as_bytes();
    let timestamp_field: [u8; 16] = be_array::<16>(timestamp);
    let payload_length: [u8; 8] = be_array::<8>(payload.len() as u128);
    let parent_length: [u8; 8] = be_array::<8>(parent.len() as u128);
    let height_field: [u8; 8] = be_array::<8>(height as u128);
    let mut hasher = Sha256::new();
    hasher.update(timestamp_field.as_slice());
    hasher.update(payload_length.as_slice());
    hasher.update(payload);
    hasher.update(parent_length.as_slice());
    hasher.update(parent);
    hasher.update(height_field.as_slice());
    assert(hasher@ =~= header_bytes(timestamp, payload@, prev_hash@, height));
    hasher
}

/// The digest of the header that `header` has absorbed, completed by
/// `nonce`. The hasher itself is left as it was.
pub fn digest_with_nonce(header: &Sha256, nonce: i32) -> (digest: [u8; 32])
    requires
        header.wf(),
    ensures
        digest@ == sha256(header@ + nonce_bytes(nonce)),
{
    let nonce_field: [u8; 4] = be_array::<4>((nonce as u32) as u128);
    let mut hasher = header.duplicate();
    hasher.update(nonce_field.as_slice());
    hasher.finish()
}

/// Computes the hash of a block's content.
pub fn hash_block(timestamp: u128, payload: &[u8], prev_hash: &str, height: usize, nonce: i32) -> (hash:
    String)
    ensures
        hash@ == block_hash(timestamp, payload@, prev_hash@, height, nonce),
{
    let header = absorb_header(timestamp, payload, prev_hash, height);
    let digest = digest_with_nonce(&header, nonce);
    to_hex(digest.as_slice())
}

} // verus!
