//! SHA-256 (FIPS 180-4) with an incremental interface, proved against a
//! mathematical definition of the hash over byte sequences.

use vstd::prelude::*;

verus! {

/// Initial hash value: the first 32 bits of the fractional parts of the square
/// roots of the first eight primes.
pub const H: [u32; 8] = [
    0x6A09E667, 0xBB67AE85, 0x3C6EF372, 0xA54FF53A, 0x510E527F, 0x9B05688C, 0x1F83D9AB, 0x5BE0CD19,
];

/// Round constants: the first 32 bits of the fractional parts of the cube roots
/// of the first sixty-four primes.
pub const K: [u32; 64] = [
    0x428A2F98, 0x71374491, 0xB5C0FBCF, 0xE9B5DBA5, 0x3956C25B, 0x59F111F1, 0x923F82A4, 0xAB1C5ED5,
    0xD807AA98, 0x12835B01, 0x243185BE, 0x550C7DC3, 0x72BE5D74, 0x80DEB1FE, 0x9BDC06A7, 0xC19BF174,
    0xE49B69C1, 0xEFBE4786, 0x0FC19DC6, 0x240CA1CC, 0x2DE92C6F, 0x4A7484AA, 0x5CB0A9DC, 0x76F988DA,
    0x983E5152, 0xA831C66D, 0xB00327C8, 0xBF597FC7, 0xC6E00BF3, 0xD5A79147, 0x06CA6351, 0x14292967,
    0x27B70A85, 0x2E1B2138, 0x4D2C6DFC, 0x53380D13, 0x650A7354, 0x766A0ABB, 0x81C2C92E, 0x92722C85,
    0xA2BFE8A1, 0xA81A664B, 0xC24B8B70, 0xC76C51A3, 0xD192E819, 0xD6990624, 0xF40E3585, 0x106AA070,
    0x19A4C116, 0x1E376C08, 0x2748774C, 0x34B0BCB5, 0x391C0CB3, 0x4ED8AA4A, 0x5B9CCA4F, 0x682E6FF3,
    0x748F82EE, 0x78A5636F, 0x84C87814, 0x8CC70208, 0x90BEFFFA, 0xA4506CEB, 0xBEF9A3F7, 0xC67178F2,
];

// ---------------------------------------------------------------------------
// Mathematical definition
// ---------------------------------------------------------------------------

/// Rotation of a 32-bit word to the right by `n` bits, `0 < n < 32`.
pub open spec fn rotr(x: u32, n: u32) -> u32 {
    (x >> n) | (x << ((32 - n) as u32))
}

pub open spec fn ch(x: u32, y: u32, z: u32) -> u32 {
    (x & y) ^ ((!x) & z)
}

pub open spec fn maj(x: u32, y: u32, z: u32) -> u32 {
    (x & y) ^ (x & z) ^ (y & z)
}

pub open spec fn big_sigma0(x: u32) -> u32 {
    rotr(x, 2) ^ rotr(x, 13) ^ rotr(x, 22)
}

pub open spec fn big_sigma1(x: u32) -> u32 {
    rotr(x, 6) ^ rotr(x, 11) ^ rotr(x, 25)
}

pub open spec fn small_sigma0(x: u32) -> u32 {
    rotr(x, 7) ^ rotr(x, 18) ^ (x >> 3)
}

pub open spec fn small_sigma1(x: u32) -> u32 {
    rotr(x, 17) ^ rotr(x, 19) ^ (x >> 10)
}

/// The big-endian 32-bit word made of four bytes.
pub open spec fn be_word(b0: u8, b1: u8, b2: u8, b3: u8) -> u32 {
    ((b0 as u32) << 24) | ((b1 as u32) << 16) | ((b2 as u32) << 8) | (b3 as u32)
}

/// Byte `k` (0 is the most significant) of a 32-bit word.
pub open spec fn be_byte(w: u32, k: int) -> u8 {
    ((w >> ((8 * (3 - k)) as u32)) & 0xFF) as u8
}

/// Word `t` of the message schedule of a 64-byte block.
pub open spec fn schedule(block: Seq<u8>, t: int) -> u32
    decreases t,
{
    if t < 16 {
        be_word(block[4 * t], block[4 * t + 1], block[4 * t + 2], block[4 * t + 3])
    } else {
        schedule(block, t - 16).wrapping_add(small_sigma0(schedule(block, t - 15))).wrapping_add(
            schedule(block, t - 7),
        ).wrapping_add(small_sigma1(schedule(block, t - 2)))
    }
}

/// One round of the compression function on the eight working variables.
pub open spec fn round(s: Seq<u32>, k: u32, w: u32) -> Seq<u32> {
    let t1 = s[7].wrapping_add(big_sigma1(s[4])).wrapping_add(ch(s[4], s[5], s[6])).wrapping_add(
        k,
    ).wrapping_add(w);
    let t2 = big_sigma0(s[0]).wrapping_add(maj(s[0], s[1], s[2]));
    seq![t1.wrapping_add(t2), s[0], s[1], s[2], s[3].wrapping_add(t1), s[4], s[5], s[6]]
}

/// The working variables after the first `t` rounds on `block`, starting from `init`.
pub open spec fn rounds(init: Seq<u32>, block: Seq<u8>, t: nat) -> Seq<u32>
    decreases t,
{
    if t == 0 {
        init
    } else {
        round(rounds(init, block, (t - 1) as nat), K[t - 1], schedule(block, t - 1))
    }
}

/// The compression function: the chaining value that follows `state` after `block`.
pub open spec fn compress(state: Seq<u32>, block: Seq<u8>) -> Seq<u32> {
    let fin = rounds(state, block, 64);
    Seq::new(8, |i: int| state[i].wrapping_add(fin[i]))
}

/// The chaining value after all complete 64-byte blocks of `bytes`, taken in order.
pub open spec fn absorb(bytes: Seq<u8>) -> Seq<u32>
    decreases bytes.len(),
{
    if bytes.len() < 64 {
        H@
    } else {
        let cut = bytes.len() - 64;
        compress(absorb(bytes.subrange(0, cut)), bytes.subrange(cut, bytes.len() as int))
    }
}

/// The message length in bits, reduced modulo 2^64.
pub open spec fn bit_length(n: nat) -> u64 {
    ((8 * n) % 0x1_0000_0000_0000_0000) as u64
}

/// Byte `k` (0 is the most significant) of a 64-bit word.
pub open spec fn be_byte64(w: u64, k: int) -> u8 {
    ((w >> ((8 * (7 - k)) as u64)) & 0xFF) as u8
}

/// Number of zero bytes between the `0x80` marker and the length field.
pub open spec fn zero_padding(n: nat) -> nat {
    ((119 - n % 64) % 64) as nat
}

/// The padding that follows a message of `n` bytes: `0x80`, zeros up to eight
/// bytes short of a block boundary, then the bit length in big-endian order.
pub open spec fn padding(n: nat) -> Seq<u8> {
    seq![0x80u8] + Seq::new(zero_padding(n), |i: int| 0u8) + Seq::new(
        8,
        |k: int| be_byte64(bit_length(n), k),
    )
}

/// The 32 digest bytes of a chaining value: its words in big-endian order.
pub open spec fn digest(state: Seq<u32>) -> Seq<u8> {
    Seq::new(32, |i: int| be_byte(state[i / 4], i % 4))
}

/// SHA-256 of a byte sequence.
pub open spec fn sha256_of(msg: Seq<u8>) -> Seq<u8> {
    digest(absorb(msg + padding(msg.len())))
}

/// Double SHA-256, as Bitcoin-family chains apply it to block headers.
pub open spec fn double_sha256_of(msg: Seq<u8>) -> Seq<u8> {
    sha256_of(sha256_of(msg))
}


// ---------------------------------------------------------------------------
// Implementation
// ---------------------------------------------------------------------------

fn rotate_right(x: u32, n: u32) -> (r: u32)
    requires
        0 < n < 32,
    ensures
        r == rotr(x, n),
{
    (x >> n) | (x << (32 - n))
}

fn load_word(block: &[u8; 64], i: usize) -> (r: u32)
    requires
        i < 16,
    ensures
        r == schedule(block@, i as int),
{
    let b0: u32 = block[4 * i] as u32;
    let b1: u32 = block[4 * i + 1] as u32;
    let b2: u32 = block[4 * i + 2] as u32;
    let b3: u32 = block[4 * i + 3] as u32;
    (b0 << 24) | (b1 << 16) | (b2 << 8) | b3
}

/// Incremental SHA-256 hasher.
///
/// Its view is the sequence of all bytes fed to it so far.
pub struct Sha256 {
    state: [u32; 8],
    buffer: [u8; 64],
    buffer_len: usize,
    total_len: u64,
    fed: Ghost<Seq<u8>>,
}

impl View for Sha256 {
    type V = Seq<u8>;

    closed spec fn view(&self) -> Seq<u8> {
        self.fed@
    }
}

/// Whether the parts of a hasher fit the bytes fed: the chaining value is
/// that of the complete blocks, the buffer holds the bytes of the incomplete
/// block, and the count is the byte count modulo 2^64.
pub open spec fn holds(
    state: Seq<u32>,
    buffer: Seq<u8>,
    buffer_len: usize,
    total_len: u64,
    fed: Seq<u8>,
) -> bool {
    let n = fed.len() as int;
    &&& buffer_len == n % 64
    &&& total_len == n % 0x1_0000_0000_0000_0000
    &&& state == absorb(settled(fed))
    &&& buffer.subrange(0, n % 64) == pending(fed)
}

impl Sha256 {
    /// The parts of the hasher fit the bytes fed so far.
    #[verifier::type_invariant]
    spec fn consistent(&self) -> bool {
        holds(self.state@, self.buffer@, self.buffer_len, self.total_len, self.fed@)
    }

    /// A hasher that has been fed nothing.
    pub fn new() -> (r: Self)
        ensures
            r@ == Seq::<u8>::empty(),
    {
        let ghost none = Seq::<u8>::empty();
        let buffer = [0u8; 64];
        assert(settled(none) =~= none);
        assert(buffer@.subrange(0, 0) =~= pending(none));
        Sha256 { state: H, buffer, buffer_len: 0, total_len: 0, fed: Ghost(none) }
    }

    /// The chaining value that follows `state` after one 64-byte block.
    fn process_block(state: [u32; 8], block: &[u8; 64]) -> (r: [u32; 8])
        ensures
            r@ == compress(state@, block@),
    {
        let mut w = [0u32; 64];
        let mut i: usize = 0;
        while i < 16
            invariant
                i <= 16,
                forall|j: int| 0 <= j < i ==> w[j] == schedule(block@, j),
            decreases 16 - i,
        {
            w[i] = load_word(block, i);
            i += 1;
        }
        while i < 64
            invariant
                16 <= i <= 64,
                forall|j: int| 0 <= j < i ==> w[j] == schedule(block@, j),
            decreases 64 - i,
        {
            let x15: u32 = w[i - 15];
            let x2: u32 = w[i - 2];
            let sigma0: u32 = rotate_right(x15, 7) ^ rotate_right(x15, 18) ^ (x15 >> 3);
            let sigma1: u32 = rotate_right(x2, 17) ^ rotate_right(x2, 19) ^ (x2 >> 10);
            w[i] = w[i - 16].wrapping_add(sigma0).wrapping_add(w[i - 7]).wrapping_add(sigma1);
            i += 1;
        }

        let mut a: u32 = state[0];
        let mut b: u32 = state[1];
        let mut c: u32 = state[2];
        let mut d: u32 = state[3];
        let mut e: u32 = state[4];
        let mut f: u32 = state[5];
        let mut g: u32 = state[6];
        let mut h: u32 = state[7];
        let ghost init = state@;
        assert(seq![a, b, c, d, e, f, g, h] =~= init);

        let mut t: usize = 0;
        while t < 64
            invariant
                t <= 64,
                forall|j: int| 0 <= j < 64 ==> w[j] == schedule(block@, j),
                seq![a, b, c, d, e, f, g, h] == rounds(init, block@, t as nat),
            decreases 64 - t,
        {
            let sigma1: u32 = rotate_right(e, 6) ^ rotate_right(e, 11) ^ rotate_right(e, 25);
            let choice: u32 = (e & f) ^ ((!e) & g);
            let temp1: u32 = h.wrapping_add(sigma1).wrapping_add(choice).wrapping_add(K[t]).wrapping_add(
                w[t],
            );
            let sigma0: u32 = rotate_right(a, 2) ^ rotate_right(a, 13) ^ rotate_right(a, 22);
            let majority: u32 = (a & b) ^ (a & c) ^ (b & c);
            let temp2: u32 = sigma0.wrapping_add(majority);
            proof {
                let prev = seq![a, b, c, d, e, f, g, h];
                assert(round(prev, K[t as int], w[t as int]) =~= seq![
                    temp1.wrapping_add(temp2),
                    a,
                    b,
                    c,
                    d.wrapping_add(temp1),
                    e,
                    f,
                    g,
                ]);
            }
            h = g;
            g = f;
            f = e;
            e = d.wrapping_add(temp1);
            d = c;
            c = b;
            b = a;
            a = temp1.wrapping_add(temp2);
            t += 1;
        }

        let mut next = state;
        next[0] = state[0].wrapping_add(a);
        next[1] = state[1].wrapping_add(b);
        next[2] = state[2].wrapping_add(c);
        next[3] = state[3].wrapping_add(d);
        next[4] = state[4].wrapping_add(e);
        next[5] = state[5].wrapping_add(f);
        next[6] = state[6].wrapping_add(g);
        next[7] = state[7].wrapping_add(h);
        assert(next@ =~= compress(init, block@));
        next
    }

    /// Feeds `data` to the hasher.
    pub fn update(&mut self, data: &[u8])
        ensures
            final(self)@ == old(self)@ + data@,
    {
        proof {
            use_type_invariant(&*self);
        }
        let mut state = self.state;
        let mut buffer = self.buffer;
        let mut buffer_len: usize = self.buffer_len;
        let mut total_len: u64 = self.total_len;
        let ghost mut fed = self.fed@;
        let mut i: usize = 0;
        assert(fed + data@.subrange(0, 0) =~= fed);
        while i < data.len()
            invariant
                i <= data.len(),
                holds(state@, buffer@, buffer_len, total_len, fed),
                fed == old(self)@ + data@.subrange(0, i as int),
            decreases data.len() - i,
        {
            let byte = data[i];
            let ghost before = fed;
            let ghost filled = buffer@;
            let ghost r = before.len() as int % 64;
            proof {
                lemma_push(before, byte);
                fed = before.push(byte);
            }
            buffer[buffer_len] = byte;
            buffer_len += 1;
            total_len = total_len.wrapping_add(1);
            assert(buffer@.subrange(0, r + 1) =~= filled.subrange(0, r).push(byte));
            if buffer_len == 64 {
                assert(buffer@ =~= buffer@.subrange(0, 64));
                state = Self::process_block(state, &buffer);
                buffer_len = 0;
                assert(buffer@.subrange(0, 0) =~= Seq::<u8>::empty());
            }
            assert((old(self)@ + data@.subrange(0, i as int)).push(byte) =~= old(self)@
                + data@.subrange(0, i + 1));
            i += 1;
        }
        assert(data@.subrange(0, data@.len() as int) =~= data@);
        *self = Sha256 { state, buffer, buffer_len, total_len, fed: Ghost(fed) };
    }

    /// Pads the message and returns its 32-byte digest.
    pub fn finalize(self) -> (r: [u8; 32])
        ensures
            r@ == sha256_of(self@),
    {
        proof {
            use_type_invariant(&self);
        }
        let mut state = self.state;
        let ghost msg = self.fed@;
        let ghost tail = pending(msg);
        let ghost r0 = tail.len() as int;
        let bit_len: u64 = self.total_len.wrapping_mul(8);
        proof {
            lemma_bit_length(msg.len(), self.total_len);
        }

        let mut block = self.buffer;
        let mut len: usize = self.buffer_len;
        assert forall|j: int| 0 <= j < r0 implies block@[j] == tail[j] by {
            assert(block@.subrange(0, r0)[j] == block@[j]);
        }
        block[len] = 0x80;
        len += 1;
        let mut i: usize = len;
        let ghost first = block@;
        if len > 56 {
            while i < 64
                invariant
                    len <= i <= 64,
                    len == r0 + 1,
                    r0 == tail.len(),
                    forall|j: int| 0 <= j < r0 ==> block@[j] == tail[j],
                    block@[r0] == 0x80u8,
                    forall|j: int| r0 < j < i ==> block@[j] == 0u8,
                decreases 64 - i,
            {
                block[i] = 0;
                i += 1;
            }
            proof {
                first = block@;
            }
            state = Self::process_block(state, &block);
            i = 0;
            while i < 56
                invariant
                    i <= 56,
                    forall|j: int| 0 <= j < i ==> block@[j] == 0u8,
                decreases 56 - i,
            {
                block[i] = 0;
                i += 1;
            }
        } else {
            while i < 56
                invariant
                    len <= i <= 56,
                    len == r0 + 1,
                    r0 == tail.len(),
                    forall|j: int| 0 <= j < r0 ==> block@[j] == tail[j],
                    block@[r0] == 0x80u8,
                    forall|j: int| r0 < j < i ==> block@[j] == 0u8,
                decreases 56 - i,
            {
                block[i] = 0;
                i += 1;
            }
        }
        block[56] = byte_of_u64(bit_len, 56);
        block[57] = byte_of_u64(bit_len, 48);
        block[58] = byte_of_u64(bit_len, 40);
        block[59] = byte_of_u64(bit_len, 32);
        block[60] = byte_of_u64(bit_len, 24);
        block[61] = byte_of_u64(bit_len, 16);
        block[62] = byte_of_u64(bit_len, 8);
        block[63] = byte_of_u64(bit_len, 0);
        proof {
            if r0 <= 55 {
                lemma_padding_one_block(msg, block@);
            } else {
                lemma_padding_two_blocks(msg, first, block@);
            }
        }
        state = Self::process_block(state, &block);

        let mut out = [0u8; 32];
        let mut w: usize = 0;
        while w < 8
            invariant
                w <= 8,
                forall|j: int| 0 <= j < 4 * w ==> out@[j] == be_byte(state@[j / 4], j % 4),
            decreases 8 - w,
        {
            let word: u32 = state[w];
            let ghost prev = out@;
            out[4 * w] = byte_of_u32(word, 24);
            out[4 * w + 1] = byte_of_u32(word, 16);
            out[4 * w + 2] = byte_of_u32(word, 8);
            out[4 * w + 3] = byte_of_u32(word, 0);
            assert forall|j: int| 0 <= j < 4 * (w + 1) implies out@[j] == be_byte(
                state@[j / 4],
                j % 4,
            ) by {
                if j >= 4 * w {
                    assert(j / 4 == w && j % 4 == j - 4 * w);
                } else {
                    assert(out@[j] == prev[j]);
                }
            }
            w += 1;
        }
        assert(out@ =~= digest(state@));
        out
    }
}

/// The bytes of `fed` that lie in complete 64-byte blocks.
pub open spec fn settled(fed: Seq<u8>) -> Seq<u8> {
    fed.subrange(0, fed.len() - fed.len() % 64)
}

/// The bytes of `fed` after its last complete 64-byte block.
pub open spec fn pending(fed: Seq<u8>) -> Seq<u8> {
    fed.subrange(fed.len() - fed.len() % 64, fed.len() as int)
}

/// A padded message is a whole number of blocks, and a digest is 32 bytes.
pub proof fn lemma_lengths(msg: Seq<u8>)
    ensures
        (msg + padding(msg.len())).len() % 64 == 0,
        sha256_of(msg).len() == 32,
        double_sha256_of(msg).len() == 32,
{
}

proof fn lemma_absorb_block(bytes: Seq<u8>, block: Seq<u8>)
    requires
        block.len() == 64,
    ensures
        absorb(bytes + block) == compress(absorb(bytes), block),
{
    let all = bytes + block;
    assert(all.subrange(0, all.len() - 64) =~= bytes);
    assert(all.subrange(all.len() - 64, all.len() as int) =~= block);
}

proof fn lemma_push(fed: Seq<u8>, byte: u8)
    ensures
        fed.len() % 64 < 63 ==> settled(fed.push(byte)) == settled(fed) && pending(fed.push(byte))
            == pending(fed).push(byte),
        fed.len() % 64 == 63 ==> settled(fed.push(byte)) == fed.push(byte) && pending(
            fed.push(byte),
        ) == Seq::<u8>::empty() && absorb(fed.push(byte)) == compress(
            absorb(settled(fed)),
            pending(fed).push(byte),
        ),
{
    let next = fed.push(byte);
    let n = fed.len() as int;
    let r = n % 64;
    if r < 63 {
        assert((n + 1) % 64 == r + 1);
        assert(settled(next) =~= settled(fed));
        assert(pending(next) =~= pending(fed).push(byte));
    } else {
        assert((n + 1) % 64 == 0);
        assert(settled(next) =~= next);
        assert(pending(next) =~= Seq::<u8>::empty());
        assert(next =~= settled(fed) + pending(fed).push(byte));
        lemma_absorb_block(settled(fed), pending(fed).push(byte));
    }
}

proof fn lemma_padding_one_block(msg: Seq<u8>, block: Seq<u8>)
    requires
        msg.len() % 64 <= 55,
        block.len() == 64,
        forall|j: int| 0 <= j < pending(msg).len() ==> block[j] == pending(msg)[j],
        block[pending(msg).len() as int] == 0x80u8,
        forall|j: int| pending(msg).len() < j < 56 ==> block[j] == 0u8,
        forall|k: int| 0 <= k < 8 ==> block[56 + k] == be_byte64(bit_length(msg.len()), k),
    ensures
        absorb(msg + padding(msg.len())) == compress(absorb(settled(msg)), block),
{
    let r = msg.len() as int % 64;
    assert(zero_padding(msg.len()) == 55 - r);
    assert(msg + padding(msg.len()) =~= settled(msg) + block);
    lemma_absorb_block(settled(msg), block);
}

proof fn lemma_padding_two_blocks(msg: Seq<u8>, first: Seq<u8>, second: Seq<u8>)
    requires
        msg.len() % 64 > 55,
        first.len() == 64,
        second.len() == 64,
        forall|j: int| 0 <= j < pending(msg).len() ==> first[j] == pending(msg)[j],
        first[pending(msg).len() as int] == 0x80u8,
        forall|j: int| pending(msg).len() < j < 64 ==> first[j] == 0u8,
        forall|j: int| 0 <= j < 56 ==> second[j] == 0u8,
        forall|k: int| 0 <= k < 8 ==> second[56 + k] == be_byte64(bit_length(msg.len()), k),
    ensures
        absorb(msg + padding(msg.len())) == compress(
            compress(absorb(settled(msg)), first),
            second,
        ),
{
    let r = msg.len() as int % 64;
    assert(zero_padding(msg.len()) == 119 - r);
    assert(msg + padding(msg.len()) =~= (settled(msg) + first) + second);
    lemma_absorb_block(settled(msg) + first, second);
    lemma_absorb_block(settled(msg), first);
}

pub(crate) fn byte_of_u32(w: u32, shift: u32) -> (b: u8)
    requires
        shift < 32,
    ensures
        b == ((w >> shift) & 0xFF) as u8,
{
    assert((w >> shift) & 0xFF <= 0xFF) by (bit_vector);
    ((w >> shift) & 0xFF) as u8
}

fn byte_of_u64(w: u64, shift: u64) -> (b: u8)
    requires
        shift < 64,
    ensures
        b == ((w >> shift) & 0xFF) as u8,
{
    assert((w >> shift) & 0xFF <= 0xFF) by (bit_vector);
    ((w >> shift) & 0xFF) as u8
}

proof fn lemma_bit_length(n: nat, total: u64)
    requires
        total == n % 0x1_0000_0000_0000_0000,
    ensures
        total.wrapping_mul(8) == bit_length(n),
{
    vstd::arithmetic::div_mod::lemma_mul_mod_noop_right(8, n as int, 0x1_0000_0000_0000_0000);
}

impl Default for Sha256 {
    fn default() -> (r: Self)
        ensures
            r@ == Seq::<u8>::empty(),
    {
        Sha256::new()
    }
}

/// SHA-256 of `data`.
pub fn sha256(data: &[u8]) -> (r: [u8; 32])
    ensures
        r@ == sha256_of(data@),
{
    let mut hasher = Sha256::new();
    hasher.update(data);
    assert(Seq::<u8>::empty() + data@ =~= data@);
    hasher.finalize()
}

/// Double SHA-256 of `data`: the hash of its hash.
pub fn double_sha256(data: &[u8]) -> (r: [u8; 32])
    ensures
        r@ == double_sha256_of(data@),
        r@ == sha256_of(sha256_of(data@)),
{
    let inner = sha256(data);
    sha256(&inner)
}

} // verus!
