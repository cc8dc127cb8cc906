//! SHA-256 as FIPS 180-4 defines it, and an incremental hasher proved to
//! compute it.

use vstd::prelude::*;
use crate::encoding::{be_array, be_bytes, lemma_be_bytes_len};

verus! {

/// Addition modulo 2^32.
#[verifier::opaque]
pub open spec fn add32(a: u32, b: u32) -> u32 {
    ((a as int + b as int) % 0x1_0000_0000) as u32
}

/// `x` rotated right by `n` bits, for `0 < n < 32`.
pub open spec fn rotr(x: u32, n: u32) -> u32 {
    (x >> n) | (x << ((32 - n) as u32))
}

/// The choice function: each bit of `y` or of `z`, as the bit of `x` says.
pub open spec fn ch(x: u32, y: u32, z: u32) -> u32 {
    (x & y) ^ (!x & z)
}

/// The majority function: each bit is the one that two of the three share.
pub open spec fn maj(x: u32, y: u32, z: u32) -> u32 {
    (x & y) ^ (x & z) ^ (y & z)
}

/// The function written as capital sigma, index zero.
pub open spec fn big_sigma0(x: u32) -> u32 {
    rotr(x, 2) ^ rotr(x, 13) ^ rotr(x, 22)
}

/// The function written as capital sigma, index one.
pub open spec fn big_sigma1(x: u32) -> u32 {
    rotr(x, 6) ^ rotr(x, 11) ^ rotr(x, 25)
}

/// The function written as small sigma, index zero.
pub open spec fn small_sigma0(x: u32) -> u32 {
    rotr(x, 7) ^ rotr(x, 18) ^ (x >> 3u32)
}

/// The function written as small sigma, index one.
pub open spec fn small_sigma1(x: u32) -> u32 {
    rotr(x, 17) ^ rotr(x, 19) ^ (x >> 10u32)
}

/// The sixty-four round constants.
#[verifier::opaque]
pub open spec fn round_constants() -> Seq<u32> {
    seq![
        0x428a2f98u32, 0x71374491u32, 0xb5c0fbcfu32, 0xe9b5dba5u32,
        0x3956c25bu32, 0x59f111f1u32, 0x923f82a4u32, 0xab1c5ed5u32,
        0xd807aa98u32, 0x12835b01u32, 0x243185beu32, 0x550c7dc3u32,
        0x72be5d74u32, 0x80deb1feu32, 0x9bdc06a7u32, 0xc19bf174u32,
        0xe49b69c1u32, 0xefbe4786u32, 0x0fc19dc6u32, 0x240ca1ccu32,
        0x2de92c6fu32, 0x4a7484aau32, 0x5cb0a9dcu32, 0x76f988dau32,
        0x983e5152u32, 0xa831c66du32, 0xb00327c8u32, 0xbf597fc7u32,
        0xc6e00bf3u32, 0xd5a79147u32, 0x06ca6351u32, 0x14292967u32,
        0x27b70a85u32, 0x2e1b2138u32, 0x4d2c6dfcu32, 0x53380d13u32,
        0x650a7354u32, 0x766a0abbu32, 0x81c2c92eu32, 0x92722c85u32,
        0xa2bfe8a1u32, 0xa81a664bu32, 0xc24b8b70u32, 0xc76c51a3u32,
        0xd192e819u32, 0xd6990624u32, 0xf40e3585u32, 0x106aa070u32,
        0x19a4c116u32, 0x1e376c08u32, 0x2748774cu32, 0x34b0bcb5u32,
        0x391c0cb3u32, 0x4ed8aa4au32, 0x5b9cca4fu32, 0x682e6ff3u32,
        0x748f82eeu32, 0x78a5636fu32, 0x84c87814u32, 0x8cc70208u32,
        0x90befffau32, 0xa4506cebu32, 0xbef9a3f7u32, 0xc67178f2u32,
    ]
}

/// The hash value before any block has been absorbed.
pub open spec fn initial_state() -> Seq<u32> {
    seq![
        0x6a09e667u32, 0xbb67ae85u32, 0x3c6ef372u32, 0xa54ff53au32,
        0x510e527fu32, 0x9b05688cu32, 0x1f83d9abu32, 0x5be0cd19u32,
    ]
}

/// Word `j` of a block: four bytes, most significant first.
pub open spec fn block_word(block: Seq<u8>, j: int) -> u32 {
    (((block[4 * j] as int * 256 + block[4 * j + 1] as int) * 256 + block[4 * j + 2] as int) * 256
        + block[4 * j + 3] as int) as u32
}

/// Word `t` of the message schedule of a sixty-four byte block.
#[verifier::opaque]
pub open spec fn schedule(block: Seq<u8>, t: int) -> u32
    decreases t,
{
    if t < 16 {
        block_word(block, t)
    } else {
        add32(
            add32(
                add32(small_sigma1(schedule(block, t - 2)), schedule(block, t - 7)),
                small_sigma0(schedule(block, t - 15)),
            ),
            schedule(block, t - 16),
        )
    }
}

/// The eight working variables of the compression function.
#[derive(Clone, Copy)]
pub struct Working {
    pub a: u32,
    pub b: u32,
    pub c: u32,
    pub d: u32,
    pub e: u32,
    pub f: u32,
    pub g: u32,
    pub h: u32,
}

/// One round: the working variables after mixing in constant `k` and
/// schedule word `w`.
pub open spec fn round(s: Working, k: u32, w: u32) -> Working {
    let t1 = add32(add32(add32(add32(s.h, big_sigma1(s.e)), ch(s.e, s.f, s.g)), k), w);
    let t2 = add32(big_sigma0(s.a), maj(s.a, s.b, s.c));
    Working {
        a: add32(t1, t2),
        b: s.a,
        c: s.b,
        d: s.c,
        e: add32(s.d, t1),
        f: s.e,
        g: s.f,
        h: s.g,
    }
}

/// The working variables after the first `t` rounds on `block`.
#[verifier::opaque]
pub open spec fn rounds(start: Working, block: Seq<u8>, t: int) -> Working
    decreases t,
{
    if t <= 0 {
        start
    } else {
        round(rounds(start, block, t - 1), round_constants()[t - 1], schedule(block, t - 1))
    }
}

/// The hash value after one more sixty-four byte block.
pub open spec fn compress(state: Seq<u32>, block: Seq<u8>) -> Seq<u32> {
    let start = Working {
        a: state[0],
        b: state[1],
        c: state[2],
        d: state[3],
        e: state[4],
        f: state[5],
        g: state[6],
        h: state[7],
    };
    let end = rounds(start, block, 64);
    seq![
        add32(state[0], end.a),
        add32(state[1], end.b),
        add32(state[2], end.c),
        add32(state[3], end.d),
        add32(state[4], end.e),
        add32(state[5], end.f),
        add32(state[6], end.g),
        add32(state[7], end.h),
    ]
}

/// The hash value after the first `n` whole blocks of `bytes`.
pub open spec fn absorb(bytes: Seq<u8>, n: int) -> Seq<u32>
    decreases n,
{
    if n <= 0 {
        initial_state()
    } else {
        compress(absorb(bytes, n - 1), bytes.subrange(64 * (n - 1), 64 * n))
    }
}

/// How many zero bytes the padding of a message of `len` bytes holds.
pub open spec fn zero_count(len: nat) -> nat {
    ((55 - len) % 64) as nat
}

/// What is appended to a message of `len` bytes: a one bit, zero bits up to
/// eight bytes short of a block boundary, and the length in bits, modulo
/// 2^64, as eight big-endian bytes.
pub open spec fn padding(len: nat) -> Seq<u8> {
    seq![0x80u8] + Seq::new(zero_count(len), |i: int| 0u8) + be_bytes(
        ((8 * len) % 0x1_0000_0000_0000_0000) as nat,
        8,
    )
}

/// The eight words of a hash value as thirty-two big-endian bytes.
pub open spec fn state_bytes(state: Seq<u32>) -> Seq<u8> {
    Seq::new(32, |i: int| be_bytes(state[i / 4] as nat, 4)[i % 4])
}

/// The SHA-256 digest of `message`.
#[verifier::opaque]
pub open spec fn sha256(message: Seq<u8>) -> Seq<u8> {
    let padded = message + padding(message.len());
    state_bytes(absorb(padded, padded.len() as int / 64))
}

/// The digest is thirty-two bytes long.
pub proof fn lemma_sha256_len(message: Seq<u8>)
    ensures
        sha256(message).len() == 32,
{
    reveal(sha256);
}

/// What the first `n` blocks give depends on the first `64 * n` bytes only.
pub proof fn lemma_absorb_prefix(a: Seq<u8>, b: Seq<u8>, n: int)
    requires
        64 * n <= a.len(),
        64 * n <= b.len(),
        forall|i: int| 0 <= i < 64 * n ==> a[i] == b[i],
    ensures
        absorb(a, n) == absorb(b, n),
    decreases n,
{
    if n > 0 {
        lemma_absorb_prefix(a, b, n - 1);
        assert(a.subrange(64 * (n - 1), 64 * n) =~= b.subrange(64 * (n - 1), 64 * n));
    }
}

fn rotate_right(x: u32, n: u32) -> (r: u32)
    requires
        0 < n < 32,
    ensures
        r == rotr(x, n),
{
    (x >> n) | (x << (32 - n))
}

fn add_wrapping(a: u32, b: u32) -> (r: u32)
    ensures
        r == add32(a, b),
{
    reveal(add32);
    a.wrapping_add(b)
}

fn round_constant_table() -> (table: [u32; 64])
    ensures
        table@ == round_constants(),
{
    let table: [u32; 64] = [
        0x428a2f98, 0x71374491, 0xb5c0fbcf, 0xe9b5dba5, 0x3956c25b, 0x59f111f1, 0x923f82a4,
        0xab1c5ed5, 0xd807aa98, 0x12835b01, 0x243185be, 0x550c7dc3, 0x72be5d74, 0x80deb1fe,
        0x9bdc06a7, 0xc19bf174, 0xe49b69c1, 0xefbe4786, 0x0fc19dc6, 0x240ca1cc, 0x2de92c6f,
        0x4a7484aa, 0x5cb0a9dc, 0x76f988da, 0x983e5152, 0xa831c66d, 0xb00327c8, 0xbf597fc7,
        0xc6e00bf3, 0xd5a79147, 0x06ca6351, 0x14292967, 0x27b70a85, 0x2e1b2138, 0x4d2c6dfc,
        0x53380d13, 0x650a7354, 0x766a0abb, 0x81c2c92e, 0x92722c85, 0xa2bfe8a1, 0xa81a664b,
        0xc24b8b70, 0xc76c51a3, 0xd192e819, 0xd6990624, 0xf40e3585, 0x106aa070, 0x19a4c116,
        0x1e376c08, 0x2748774c, 0x34b0bcb5, 0x391c0cb3, 0x4ed8aa4a, 0x5b9cca4f, 0x682e6ff3,
        0x748f82ee, 0x78a5636f, 0x84c87814, 0x8cc70208, 0x90befffa, 0xa4506ceb, 0xbef9a3f7,
        0xc67178f2,
    ];
    proof {
        reveal(round_constants);
        assert(table@ =~= round_constants());
    }
    table
}

proof fn lemma_schedule_head(block: Seq<u8>, t: int)
    requires
        t < 16,
    ensures
        schedule(block, t) == block_word(block, t),
{
    reveal(schedule);
}

proof fn lemma_schedule_tail(block: Seq<u8>, t: int)
    requires
        t >= 16,
    ensures
        schedule(block, t) == add32(
            add32(
                add32(small_sigma1(schedule(block, t - 2)), schedule(block, t - 7)),
                small_sigma0(schedule(block, t - 15)),
            ),
            schedule(block, t - 16),
        ),
{
    reveal(schedule);
}

proof fn lemma_rounds_step(start: Working, block: Seq<u8>, t: int)
    requires
        t >= 0,
    ensures
        rounds(start, block, 0) == start,
        rounds(start, block, t + 1) == round(
            rounds(start, block, t),
            round_constants()[t],
            schedule(block, t),
        ),
{
    reveal_with_fuel(rounds, 2);
}

fn block_word_at(block: &[u8; 64], t: usize) -> (word: u32)
    requires
        t < 16,
    ensures
        word == schedule(block@, t as int),
{
    proof {
        lemma_schedule_head(block@, t as int);
    }
    let hi: u32 = block[4 * t] as u32 * 256 + block[4 * t + 1] as u32;
    let mid: u32 = hi * 256 + block[4 * t + 2] as u32;
    mid * 256 + block[4 * t + 3] as u32
}

fn schedule_word(w2: u32, w7: u32, w15: u32, w16: u32) -> (word: u32)
    ensures
        word == add32(add32(add32(small_sigma1(w2), w7), small_sigma0(w15)), w16),
{
    let s1: u32 = rotate_right(w2, 17) ^ rotate_right(w2, 19) ^ (w2 >> 10u32);
    let s0: u32 = rotate_right(w15, 7) ^ rotate_right(w15, 18) ^ (w15 >> 3u32);
    add_wrapping(add_wrapping(add_wrapping(s1, w7), s0), w16)
}

fn expand(block: &[u8; 64]) -> (w: [u32; 64])
    ensures
        forall|t: int| 0 <= t < 64 ==> w@[t] == schedule(block@, t),
{
    let mut w: [u32; 64] = [0u32; 64];
    let mut t: usize = 0;
    while t < 16
        invariant
            t <= 16,
            forall|j: int| 0 <= j < t ==> w@[j] == schedule(block@, j),
        decreases 16 - t,
    {
        w[t] = block_word_at(block, t);
        t = t + 1;
    }
    while t < 64
        invariant
            16 <= t <= 64,
            forall|j: int| 0 <= j < t ==> w@[j] == schedule(block@, j),
        decreases 64 - t,
    {
        proof {
            lemma_schedule_tail(block@, t as int);
        }
        w[t] = schedule_word(w[t - 2], w[t - 7], w[t - 15], w[t - 16]);
        t = t + 1;
    }
    w
}

fn one_round(s: Working, k: u32, w: u32) -> (next: Working)
    ensures
        next == round(s, k, w),
{
    let s1: u32 = rotate_right(s.e, 6) ^ rotate_right(s.e, 11) ^ rotate_right(s.e, 25);
    let choice: u32 = (s.e & s.f) ^ (!s.e & s.g);
    let t1: u32 = add_wrapping(add_wrapping(add_wrapping(add_wrapping(s.h, s1), choice), k), w);
    let s0: u32 = rotate_right(s.a, 2) ^ rotate_right(s.a, 13) ^ rotate_right(s.a, 22);
    let majority: u32 = (s.a & s.b) ^ (s.a & s.c) ^ (s.b & s.c);
    let t2: u32 = add_wrapping(s0, majority);
    Working {
        a: add_wrapping(t1, t2),
        b: s.a,
        c: s.b,
        d: s.c,
        e: add_wrapping(s.d, t1),
        f: s.e,
        g: s.f,
        h: s.g,
    }
}

fn compress_block(state: &mut [u32; 8], block: &[u8; 64])
    ensures
        final(state)@ == compress(old(state)@, block@),
{
    let w = expand(block);
    let k = round_constant_table();
    let start = Working {
        a: state[0],
        b: state[1],
        c: state[2],
        d: state[3],
        e: state[4],
        f: state[5],
        g: state[6],
        h: state[7],
    };
    let mut s = start;
    let mut t: usize = 0;
    proof {
        lemma_rounds_step(start, block@, 0);
    }
    while t < 64
        invariant
            t <= 64,
            k@ == round_constants(),
            forall|j: int| 0 <= j < 64 ==> w@[j] == schedule(block@, j),
            s == rounds(start, block@, t as int),
        decreases 64 - t,
    {
        proof {
            lemma_rounds_step(start, block@, t as int);
        }
        s = one_round(s, k[t], w[t]);
        t = t + 1;
    }
    let next: [u32; 8] = [
        add_wrapping(state[0], s.a),
        add_wrapping(state[1], s.b),
        add_wrapping(state[2], s.c),
        add_wrapping(state[3], s.d),
        add_wrapping(state[4], s.e),
        add_wrapping(state[5], s.f),
        add_wrapping(state[6], s.g),
        add_wrapping(state[7], s.h),
    ];
    assert(next@ =~= compress(state@, block@));
    *state = next;
}

/// A SHA-256 computation over the bytes given to it so far.
pub struct Sha256 {
    state: [u32; 8],
    block: [u8; 64],
    filled: usize,
    bit_length: u64,
    message: Ghost<Seq<u8>>,
}

impl View for Sha256 {
    type V = Seq<u8>;

    /// All the bytes absorbed so far, in order.
    closed spec fn view(&self) -> Seq<u8> {
        self.message@
    }
}

impl Sha256 {
    /// The hash value covers the whole blocks of the message, the buffer
    /// holds the bytes after them, and the counter is the length in bits
    /// modulo 2^64.
    pub closed spec fn wf(&self) -> bool {
        let m = self.message@;
        &&& self.filled < 64
        &&& self.filled == m.len() % 64
        &&& self.bit_length == (8 * m.len()) % 0x1_0000_0000_0000_0000
        &&& self.state@ == absorb(m, m.len() as int / 64)
        &&& forall|i: int|
            0 <= i < self.filled ==> self.block@[i] == m[m.len() - self.filled + i]
    }

    /// A hasher that has absorbed nothing.
    pub fn new() -> (hasher: Sha256)
        ensures
            hasher.wf(),
            hasher@ == Seq::<u8>::empty(),
    {
        let state: [u32; 8] = [
            0x6a09e667, 0xbb67ae85, 0x3c6ef372, 0xa54ff53a, 0x510e527f, 0x9b05688c, 0x1f83d9ab,
            0x5be0cd19,
        ];
        assert(state@ =~= initial_state());
        Sha256 { state, block: [0u8; 64], filled: 0, bit_length: 0, message: Ghost(Seq::empty()) }
    }

    /// A second hasher in the same state, so that one prefix can be
    /// continued in several ways.
    pub fn duplicate(&self) -> (copy: Sha256)
        requires
            self.wf(),
        ensures
            copy.wf(),
            copy@ == self@,
    {
        Sha256 {
            state: self.state,
            block: self.block,
            filled: self.filled,
            bit_length: self.bit_length,
            message: self.message,
        }
    }

    /// Absorbs one byte.
    pub fn push(&mut self, byte: u8)
        requires
            old(self).wf(),
        ensures
            final(self).wf(),
            final(self)@ == old(self)@.push(byte),
    {
        let ghost before = self.message@;
        let ghost after = before.push(byte);
        let ghost whole = before.len() as int / 64;
        self.block[self.filled] = byte;
        self.filled = self.filled + 1;
        self.bit_length = self.bit_length.wrapping_add(8);
        self.message = Ghost(after);
        proof {
            lemma_absorb_prefix(before, after, whole);
        }
        if self.filled == 64 {
            assert(self.block@ =~= after.subrange(64 * whole, 64 * (whole + 1)));
            compress_block(&mut self.state, &self.block);
            self.filled = 0;
        }
    }

    /// Absorbs `data`, byte by byte.
    pub fn update(&mut self, data: &[u8])
        requires
            old(self).wf(),
        ensures
            final(self).wf(),
            final(self)@ == old(self)@ + data@,
    {
        let ghost before = self.message@;
        let mut i: usize = 0;
        while i < data.len()
            invariant
                i <= data@.len(),
                self.wf(),
                self@ == before + data@.take(i as int),
            decreases data@.len() - i,
        {
            self.push(data[i]);
            assert(before + data@.take(i + 1) =~= (before + data@.take(i as int)).push(
                data@[i as int],
            ));
            i = i + 1;
        }
        assert(data@.take(i as int) =~= data@);
    }

    /// Pads what was absorbed and returns its digest.
    pub fn finish(self) -> (digest: [u8; 32])
        requires
            self.wf(),
        ensures
            digest@ == sha256(self@),
    {
        reveal(sha256);
        let mut hasher = self;
        let ghost message = hasher@;
        let ghost zeros = zero_count(message.len());
        let length_field: [u8; 8] = be_array::<8>(hasher.bit_length as u128);
        hasher.push(0x80);
        let ghost mut pushed: nat = 0;
        assert(message.push(0x80u8) =~= message + seq![0x80u8] + Seq::new(pushed, |i: int| 0u8));
        while hasher.filled != 56
            invariant
                hasher.wf(),
                pushed <= zeros,
                zeros == zero_count(message.len()),
                hasher@ == message + seq![0x80u8] + Seq::new(pushed, |i: int| 0u8),
            decreases zeros - pushed,
        {
            hasher.push(0);
            proof {
                assert(hasher@ =~= message + seq![0x80u8] + Seq::new(pushed + 1, |i: int| 0u8));
                pushed = pushed + 1;
            }
        }
        let ghost stem = hasher@;
        let mut i: usize = 0;
        while i < 8
            invariant
                i <= 8,
                hasher.wf(),
                hasher@ == stem + length_field@.take(i as int),
            decreases 8 - i,
        {
            hasher.push(length_field[i]);
            assert(stem + length_field@.take(i + 1) =~= (stem + length_field@.take(i as int)).push(
                length_field@[i as int],
            ));
            i = i + 1;
        }
        proof {
            lemma_be_bytes_len(((8 * message.len()) % 0x1_0000_0000_0000_0000) as nat, 8);
            assert(length_field@.take(8) =~= length_field@);
            assert(hasher@ =~= message + padding(message.len()));
        }
        let mut digest: [u8; 32] = [0u8; 32];
        let mut word: usize = 0;
        while word < 8
            invariant
                word <= 8,
                forall|k: int|
                    0 <= k < 4 * word ==> digest@[k] == state_bytes(hasher.state@)[k],
            decreases 8 - word,
        {
            let bytes: [u8; 4] = be_array::<4>(hasher.state[word] as u128);
            digest[4 * word] = bytes[0];
            digest[4 * word + 1] = bytes[1];
            digest[4 * word + 2] = bytes[2];
            digest[4 * word + 3] = bytes[3];
            word = word + 1;
        }
        assert(digest@ =~= state_bytes(hasher.state@));
        digest
    }
}

/// The SHA-256 digest of `data`.
pub fn digest(data: &[u8]) -> (digest: [u8; 32])
    ensures
        digest@ == sha256(data@),
{
    let mut hasher = Sha256::new();
    hasher.update(data);
    hasher.finish()
}

} // verus!
