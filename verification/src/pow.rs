//! Proof of work: the difficulty predicate and the search for a nonce.
//!
//! A hash meets a difficulty of `k` bits when its digest starts with at
//! least `k` zero bits. The search tries the nonces `0, 1, 2, ...` in that
//! order up to a last nonce and stops at the first one whose hash meets the
//! difficulty. The ledger itself works at `DIFFICULTY_BITS` and searches up
//! to `LAST_NONCE`; when no nonce of that range will do, sealing fails and
//! the caller may try again with another timestamp.

use vstd::prelude::*;
use crate::canonical::{absorb_header, block_digest, block_hash, digest_with_nonce, header_bytes};
use crate::encoding::to_hex;

verus! {

/// The number of leading zero bits that the ledger asks of a block's hash.
pub const DIFFICULTY_BITS: u32 = 16;

/// The last nonce that the ledger tries.
pub const LAST_NONCE: i32 = 0x7fff_ffff;

/// The number of zero bits before the first one bit of a byte; eight for
/// the zero byte.
pub open spec fn byte_leading_zeros(byte: u8) -> nat {
    if byte >= 128 {
        0
    } else if byte >= 64 {
        1
    } else if byte >= 32 {
        2
    } else if byte >= 16 {
        3
    } else if byte >= 8 {
        4
    } else if byte >= 4 {
        5
    } else if byte >= 2 {
        6
    } else if byte >= 1 {
        7
    } else {
        8
    }
}

/// The number of zero bits before the first one bit of a byte string.
pub open spec fn leading_zero_bits(bytes: Seq<u8>) -> nat
    decreases bytes.len(),
{
    if bytes.len() == 0 {
        0
    } else if bytes[0] == 0 {
        8 + leading_zero_bits(bytes.skip(1))
    } else {
        byte_leading_zeros(bytes[0])
    }
}

/// Whether a digest starts with at least `bits` zero bits.
pub open spec fn meets_difficulty(digest: Seq<u8>, bits: u32) -> bool {
    leading_zero_bits(digest) >= bits
}

/// Counts the leading zero bits of a digest.
pub fn count_leading_zero_bits(digest: &[u8; 32]) -> (count: u32)
    ensures
        count == leading_zero_bits(digest@),
{
    let mut i: usize = 0;
    assert(digest@.skip(0) =~= digest@);
    while i < 32
        invariant
            i <= 32,
            leading_zero_bits(digest@) == 8 * i + leading_zero_bits(digest@.skip(i as int)),
        decreases 32 - i,
    {
        let byte: u8 = digest[i];
        proof {
            assert(digest@.skip(i as int)[0] == byte);
            assert(digest@.skip(i as int).skip(1) =~= digest@.skip(i + 1));
        }
        if byte != 0 {
            let within: u32 = if byte >= 128 {
                0
            } else if byte >= 64 {
                1
            } else if byte >= 32 {
                2
            } else if byte >= 16 {
                3
            } else if byte >= 8 {
                4
            } else if byte >= 4 {
                5
            } else if byte >= 2 {
                6
            } else {
                7
            };
            return 8 * (i as u32) + within;
        }
        i = i + 1;
    }
    256
}

/// Whether `nonce` gives the block content a hash that meets `bits`.
pub open spec fn solves(
    timestamp: u128,
    payload: Seq<u8>,
    prev_hash: Seq<char>,
    height: usize,
    bits: u32,
    nonce: i32,
) -> bool {
    meets_difficulty(block_digest(timestamp, payload, prev_hash, height, nonce), bits)
}

/// The first nonce from `from` up to `last` that solves, if there is one.
pub open spec fn first_solution(
    timestamp: u128,
    payload: Seq<u8>,
    prev_hash: Seq<char>,
    height: usize,
    bits: u32,
    from: int,
    last: i32,
) -> Option<i32>
    decreases last - from + 1,
{
    if from > last {
        None
    } else if solves(timestamp, payload, prev_hash, height, bits, from as i32) {
        Some(from as i32)
    } else {
        first_solution(timestamp, payload, prev_hash, height, bits, from + 1, last)
    }
}

/// What a search over the nonces `0..=last` finds.
pub open spec fn search_result(
    timestamp: u128,
    payload: Seq<u8>,
    prev_hash: Seq<char>,
    height: usize,
    bits: u32,
    last: i32,
) -> Option<i32> {
    first_solution(timestamp, payload, prev_hash, height, bits, 0, last)
}

/// The nonce that a search finds lies in the range, solves, and no nonce
/// of the range before it does; a search finds nothing only when no nonce
/// of the range solves.
pub proof fn lemma_first_solution_is_least(
    timestamp: u128,
    payload: Seq<u8>,
    prev_hash: Seq<char>,
    height: usize,
    bits: u32,
    from: int,
    last: i32,
)
    requires
        0 <= from,
    ensures
        match first_solution(timestamp, payload, prev_hash, height, bits, from, last) {
            Some(nonce) => {
                &&& from <= nonce <= last
                &&& solves(timestamp, payload, prev_hash, height, bits, nonce)
                &&& forall|m: i32|
                    from <= m < nonce ==> !solves(timestamp, payload, prev_hash, height, bits, m)
            },
            None => forall|m: i32|
                from <= m <= last ==> !solves(timestamp, payload, prev_hash, height, bits, m),
        },
    decreases last - from + 1,
{
    if from <= last && !solves(timestamp, payload, prev_hash, height, bits, from as i32) {
        lemma_first_solution_is_least(timestamp, payload, prev_hash, height, bits, from + 1, last);
    }
}

/// Searches the nonces `0..=last_nonce` in increasing order for the first
/// one whose hash meets `bits`, and returns it with that hash.
pub fn search(
    timestamp: u128,
    payload: &[u8],
    prev_hash: &str,
    height: usize,
    bits: u32,
    last_nonce: i32,
) -> (found: Option<(i32, String)>)
    ensures
        match found {
            Some((nonce, hash)) => {
                &&& search_result(timestamp, payload@, prev_hash@, height, bits, last_nonce)
                    == Some(nonce)
                &&& hash@ == block_hash(timestamp, payload@, prev_hash@, height, nonce)
            },
            None => search_result(timestamp, payload@, prev_hash@, height, bits, last_nonce)
                is None,
        },
{
    if last_nonce < 0 {
        return None;
    }
    let header = absorb_header(timestamp, payload, prev_hash, height);
    let mut nonce: i32 = 0;
    loop
        invariant
            0 <= nonce <= last_nonce,
            header.wf(),
            header@ == header_bytes(timestamp, payload@, prev_hash@, height),
            search_result(timestamp, payload@, prev_hash@, height, bits, last_nonce)
                == first_solution(
                timestamp,
                payload@,
                prev_hash@,
                height,
                bits,
                nonce as int,
                last_nonce,
            ),
        decreases last_nonce - nonce,
    {
        let digest = digest_with_nonce(&header, nonce);
        if count_leading_zero_bits(&digest) >= bits {
            return Some((nonce, to_hex(digest.as_slice())));
        }
        if nonce == last_nonce {
            assert(first_solution(
                timestamp,
                payload@,
                prev_hash@,
                height,
                bits,
                nonce + 1,
                last_nonce,
            ) is None);
            return None;
        }
        nonce = nonce + 1;
    }
}

} // verus!
