//! Core value types shared by the mining subsystems: block headers, targets,
//! nonces, jobs and counters.

use crate::sha256::byte_of_u32;
use vstd::prelude::*;

verus! {

/// A point on the caller's monotonic clock, in nanoseconds since an origin of
/// the caller's choosing.
pub type Timestamp = u64;

/// A span of time in nanoseconds.
pub type Nanos = u64;

/// Nanoseconds in one second.
pub const NANOS_PER_SEC: u64 = 1_000_000_000;

/// The time from `earlier` to `later`, zero if `later` does not lie after `earlier`.
pub open spec fn elapsed_between(earlier: Timestamp, later: Timestamp) -> Nanos {
    if later >= earlier {
        (later - earlier) as u64
    } else {
        0
    }
}

/// The time from `earlier` to `later`, zero if `later` does not lie after `earlier`.
pub fn elapsed(earlier: Timestamp, later: Timestamp) -> (r: Nanos)
    ensures
        r == elapsed_between(earlier, later),
{
    if later >= earlier {
        later - earlier
    } else {
        0
    }
}

/// Cumulative counters of a mining run.
#[derive(Debug, Clone, Copy)]
pub struct MiningStats {
    /// Total hashes computed.
    pub total_hashes: u64,
    /// Hashes per second.
    pub hashrate: u64,
    /// Number of valid shares found.
    pub shares_found: u64,
    /// Number of shares accepted by the pool.
    pub shares_accepted: u64,
    /// Number of shares rejected by the pool.
    pub shares_rejected: u64,
    /// Current difficulty.
    pub difficulty: u64,
    /// Estimated time to find a block, in seconds.
    pub estimated_time_to_block: Option<u64>,
}

impl Default for MiningStats {
    fn default() -> (r: Self)
        ensures
            r == (MiningStats {
                total_hashes: 0,
                hashrate: 0,
                shares_found: 0,
                shares_accepted: 0,
                shares_rejected: 0,
                difficulty: 0,
                estimated_time_to_block: None,
            }),
    {
        MiningStats {
            total_hashes: 0,
            hashrate: 0,
            shares_found: 0,
            shares_accepted: 0,
            shares_rejected: 0,
            difficulty: 0,
            estimated_time_to_block: None,
        }
    }
}

/// Byte `k` (0 is the least significant) of a 32-bit word.
pub open spec fn le_byte(w: u32, k: int) -> u8 {
    ((w >> ((8 * k) as u32)) & 0xFF) as u8
}

/// The little-endian 32-bit word made of four bytes.
pub open spec fn le_word(b0: u8, b1: u8, b2: u8, b3: u8) -> u32 {
    (b0 as u32) | ((b1 as u32) << 8) | ((b2 as u32) << 16) | ((b3 as u32) << 24)
}

/// The four bytes of a 32-bit word, least significant first.
pub open spec fn le_bytes(w: u32) -> Seq<u8> {
    seq![le_byte(w, 0), le_byte(w, 1), le_byte(w, 2), le_byte(w, 3)]
}

/// Block header of a Bitcoin-family chain.
#[derive(Debug, Clone, Copy)]
pub struct BlockHeader {
    /// Block version.
    pub version: u32,
    /// Hash of the previous block.
    pub prev_block_hash: [u8; 32],
    /// Merkle root of the block's transactions.
    pub merkle_root: [u8; 32],
    /// Block timestamp.
    pub timestamp: u32,
    /// Compact encoding of the target.
    pub bits: u32,
    /// Nonce being searched.
    pub nonce: u32,
}

/// The 80-byte wire form of a header: version, previous hash, merkle root,
/// timestamp, bits and nonce, the integers little-endian and the hashes as stored.
pub open spec fn header_bytes(h: BlockHeader) -> Seq<u8> {
    le_bytes(h.version) + h.prev_block_hash@ + h.merkle_root@ + le_bytes(h.timestamp) + le_bytes(
        h.bits,
    ) + le_bytes(h.nonce)
}

/// The 32-bit word stored little-endian at offset `at` of `bytes`.
pub open spec fn le_word_at(bytes: Seq<u8>, at: int) -> u32 {
    le_word(bytes[at], bytes[at + 1], bytes[at + 2], bytes[at + 3])
}

/// Field-by-field reading of an 80-byte wire form: the value of each header field.
pub struct HeaderFields {
    pub version: u32,
    pub prev_block_hash: Seq<u8>,
    pub merkle_root: Seq<u8>,
    pub timestamp: u32,
    pub bits: u32,
    pub nonce: u32,
}

/// Reads the six header fields from their fixed offsets.
pub open spec fn parse_header(bytes: Seq<u8>) -> HeaderFields {
    HeaderFields {
        version: le_word_at(bytes, 0),
        prev_block_hash: bytes.subrange(4, 36),
        merkle_root: bytes.subrange(36, 68),
        timestamp: le_word_at(bytes, 68),
        bits: le_word_at(bytes, 72),
        nonce: le_word_at(bytes, 76),
    }
}

/// The fields of a header as plain values.
pub open spec fn header_fields(h: BlockHeader) -> HeaderFields {
    HeaderFields {
        version: h.version,
        prev_block_hash: h.prev_block_hash@,
        merkle_root: h.merkle_root@,
        timestamp: h.timestamp,
        bits: h.bits,
        nonce: h.nonce,
    }
}

/// Reading a word back from its little-endian bytes gives the word.
pub proof fn lemma_le_word_round_trip(w: u32)
    ensures
        le_word(le_byte(w, 0), le_byte(w, 1), le_byte(w, 2), le_byte(w, 3)) == w,
{
    assert((((w >> 0u32) & 0xFF) as u8 as u32) | ((((w >> 8u32) & 0xFF) as u8 as u32) << 8) | ((((w
        >> 16u32) & 0xFF) as u8 as u32) << 16) | ((((w >> 24u32) & 0xFF) as u8 as u32) << 24) == w)
        by (bit_vector);
}

/// Writing the little-endian bytes of a word read from four bytes gives those bytes.
pub proof fn lemma_le_bytes_of_word(b0: u8, b1: u8, b2: u8, b3: u8)
    ensures
        le_bytes(le_word(b0, b1, b2, b3)) == seq![b0, b1, b2, b3],
{
    let w = le_word(b0, b1, b2, b3);
    assert(((((b0 as u32) | ((b1 as u32) << 8) | ((b2 as u32) << 16) | ((b3 as u32) << 24)) >> 0u32)
        & 0xFF) as u8 == b0) by (bit_vector);
    assert(((((b0 as u32) | ((b1 as u32) << 8) | ((b2 as u32) << 16) | ((b3 as u32) << 24)) >> 8u32)
        & 0xFF) as u8 == b1) by (bit_vector);
    assert(((((b0 as u32) | ((b1 as u32) << 8) | ((b2 as u32) << 16) | ((b3 as u32) << 24))
        >> 16u32) & 0xFF) as u8 == b2) by (bit_vector);
    assert(((((b0 as u32) | ((b1 as u32) << 8) | ((b2 as u32) << 16) | ((b3 as u32) << 24))
        >> 24u32) & 0xFF) as u8 == b3) by (bit_vector);
    assert(le_bytes(w) =~= seq![b0, b1, b2, b3]);
}

/// The wire form is 80 bytes long, and reading it field by field gives the header back.
pub proof fn lemma_parse_of_serialize(h: BlockHeader)
    ensures
        header_bytes(h).len() == 80,
        parse_header(header_bytes(h)) == header_fields(h),
{
    let b = header_bytes(h);
    lemma_le_word_round_trip(h.version);
    lemma_le_word_round_trip(h.timestamp);
    lemma_le_word_round_trip(h.bits);
    lemma_le_word_round_trip(h.nonce);
    assert(b.subrange(4, 36) =~= h.prev_block_hash@);
    assert(b.subrange(36, 68) =~= h.merkle_root@);
}

/// The wire form is injective: headers with the same 80 bytes have the same fields.
pub proof fn lemma_serialize_injective(a: BlockHeader, b: BlockHeader)
    requires
        header_bytes(a) == header_bytes(b),
    ensures
        header_fields(a) == header_fields(b),
{
    lemma_parse_of_serialize(a);
    lemma_parse_of_serialize(b);
}

/// Writing the fields read from any 80 bytes gives those bytes back.
pub proof fn lemma_serialize_of_parse(bytes: Seq<u8>, h: BlockHeader)
    requires
        bytes.len() == 80,
        header_fields(h) == parse_header(bytes),
    ensures
        header_bytes(h) == bytes,
{
    lemma_le_bytes_of_word(bytes[0], bytes[1], bytes[2], bytes[3]);
    lemma_le_bytes_of_word(bytes[68], bytes[69], bytes[70], bytes[71]);
    lemma_le_bytes_of_word(bytes[72], bytes[73], bytes[74], bytes[75]);
    lemma_le_bytes_of_word(bytes[76], bytes[77], bytes[78], bytes[79]);
    assert(header_bytes(h) =~= bytes);
}

impl BlockHeader {
    /// Serializes the header for hashing: exactly 80 bytes.
    pub fn serialize(&self) -> (r: [u8; 80])
        ensures
            r@ == header_bytes(*self),
    {
        let mut out = [0u8; 80];
        out[0] = byte_of_u32(self.version, 0);
        out[1] = byte_of_u32(self.version, 8);
        out[2] = byte_of_u32(self.version, 16);
        out[3] = byte_of_u32(self.version, 24);
        let mut i: usize = 0;
        while i < 32
            invariant
                i <= 32,
                forall|j: int| 0 <= j < 4 ==> out@[j] == le_byte(self.version, j),
                forall|j: int| 0 <= j < i ==> out@[4 + j] == self.prev_block_hash@[j],
                forall|j: int| 0 <= j < i ==> out@[36 + j] == self.merkle_root@[j],
            decreases 32 - i,
        {
            out[4 + i] = self.prev_block_hash[i];
            out[36 + i] = self.merkle_root[i];
            i += 1;
        }
        out[68] = byte_of_u32(self.timestamp, 0);
        out[69] = byte_of_u32(self.timestamp, 8);
        out[70] = byte_of_u32(self.timestamp, 16);
        out[71] = byte_of_u32(self.timestamp, 24);
        out[72] = byte_of_u32(self.bits, 0);
        out[73] = byte_of_u32(self.bits, 8);
        out[74] = byte_of_u32(self.bits, 16);
        out[75] = byte_of_u32(self.bits, 24);
        out[76] = byte_of_u32(self.nonce, 0);
        out[77] = byte_of_u32(self.nonce, 8);
        out[78] = byte_of_u32(self.nonce, 16);
        out[79] = byte_of_u32(self.nonce, 24);
        assert(out@ =~= header_bytes(*self));
        out
    }
}

/// The unsigned integer that a byte sequence denotes in big-endian order.
pub open spec fn be_value(bytes: Seq<u8>) -> nat
    decreases bytes.len(),
{
    if bytes.len() == 0 {
        0
    } else {
        be_value(bytes.drop_last()) * 256 + bytes.last() as nat
    }
}

/// The exponent byte of a compact target encoding.
pub open spec fn compact_exponent(bits: u32) -> int {
    (bits >> 24u32) as int
}

/// The three mantissa bytes of a compact target encoding.
pub open spec fn compact_mantissa(bits: u32) -> u32 {
    bits & 0x00FF_FFFF
}

/// The 32-byte big-endian target that compact `bits` denote: for an exponent
/// `e` from 3 to 32 the three mantissa bytes, most significant first, at
/// offsets `32 - e` to `34 - e`, every other byte zero; all zero for any other
/// exponent.
pub open spec fn compact_target(bits: u32) -> Seq<u8> {
    let e = compact_exponent(bits);
    let m = compact_mantissa(bits);
    Seq::new(
        32,
        |i: int|
            if 3 <= e <= 32 && 32 - e <= i < 35 - e {
                crate::sha256::be_byte(m, i - (32 - e) + 1)
            } else {
                0u8
            },
    )
}

/// A sequence of zero bytes denotes zero.
pub proof fn lemma_be_value_zeros(bytes: Seq<u8>)
    requires
        forall|i: int| 0 <= i < bytes.len() ==> bytes[i] == 0,
    ensures
        be_value(bytes) == 0,
    decreases bytes.len(),
{
    if bytes.len() > 0 {
        assert(bytes.last() == 0);
        lemma_be_value_zeros(bytes.drop_last());
    }
}

/// Zero bytes at the end multiply the value by 256 each.
pub proof fn lemma_be_value_trailing_zeros(bytes: Seq<u8>, zeros: nat)
    requires
        zeros <= bytes.len(),
        forall|i: int| bytes.len() - zeros <= i < bytes.len() ==> bytes[i] == 0,
    ensures
        be_value(bytes) == be_value(bytes.subrange(0, bytes.len() - zeros)) * vstd::arithmetic::power::pow(
            256,
            zeros,
        ),
    decreases zeros,
{
    vstd::arithmetic::power::lemma_pow0(256);
    if zeros == 0 {
        assert(bytes.subrange(0, bytes.len() as int) =~= bytes);
    } else {
        let shorter = bytes.drop_last();
        assert(bytes.last() == 0);
        lemma_be_value_trailing_zeros(shorter, (zeros - 1) as nat);
        assert(shorter.subrange(0, shorter.len() - (zeros - 1)) =~= bytes.subrange(
            0,
            bytes.len() - zeros,
        ));
        vstd::arithmetic::power::lemma_pow_adds(256, 1, (zeros - 1) as nat);
        vstd::arithmetic::power::lemma_pow1(256);
        let head = be_value(bytes.subrange(0, bytes.len() - zeros)) as int;
        let rest = vstd::arithmetic::power::pow(256, (zeros - 1) as nat);
        assert(head * rest * 256 == head * (256 * rest)) by (nonlinear_arith);
    }
}

/// For an exponent from 3 to 32 the decoded target denotes the mantissa
/// times 256 to the power of the exponent less three.
pub proof fn lemma_compact_target_value(bits: u32)
    requires
        3 <= compact_exponent(bits) <= 32,
    ensures
        be_value(compact_target(bits)) == compact_mantissa(bits) * vstd::arithmetic::power::pow(
            256,
            (compact_exponent(bits) - 3) as nat,
        ),
{
    let e = compact_exponent(bits);
    let m = compact_mantissa(bits);
    let target = compact_target(bits);
    let zeros = (e - 3) as nat;
    lemma_be_value_trailing_zeros(target, zeros);
    let head = target.subrange(0, 35 - e);
    let lead = head.subrange(0, 32 - e);
    lemma_be_value_zeros(lead);
    let h1 = head.drop_last();
    let h2 = h1.drop_last();
    assert(h2.drop_last() =~= lead);
    let (b2, b1, b0) = (h2.last(), h1.last(), head.last());
    assert(b2 == crate::sha256::be_byte(m, 1));
    assert(b1 == crate::sha256::be_byte(m, 2));
    assert(b0 == crate::sha256::be_byte(m, 3));
    assert(be_value(h2) == be_value(lead) * 256 + b2);
    assert(be_value(h1) == be_value(h2) * 256 + b1);
    assert(be_value(head) == be_value(h1) * 256 + b0);
    assert(be_value(head) == b2 * 65536 + b1 * 256 + b0);
    assert(m == bits & 0x00FF_FFFF);
    assert((((((bits & 0x00FF_FFFF) >> 16u32) & 0xFF) as u8) as u32) * 65536 + (((((bits
        & 0x00FF_FFFF) >> 8u32) & 0xFF) as u8) as u32) * 256 + (((((bits & 0x00FF_FFFF) >> 0u32)
        & 0xFF) as u8) as u32) == bits & 0x00FF_FFFF) by (bit_vector);
}

/// For any other exponent the decoded target denotes zero.
pub proof fn lemma_compact_target_zero(bits: u32)
    requires
        !(3 <= compact_exponent(bits) <= 32),
    ensures
        be_value(compact_target(bits)) == 0,
{
    lemma_be_value_zeros(compact_target(bits));
}

/// Whether `hash` meets `target`: as unsigned big-endian integers, `hash <= target`.
pub open spec fn meets_target(hash: Seq<u8>, target: Seq<u8>) -> bool {
    be_value(hash) <= be_value(target)
}

/// Sequences that agree up to a position where the first is smaller denote
/// values in the same order.
pub proof fn lemma_be_value_first_difference(a: Seq<u8>, b: Seq<u8>, i: int)
    requires
        a.len() == b.len(),
        0 <= i < a.len(),
        a.subrange(0, i) == b.subrange(0, i),
        a[i] < b[i],
    ensures
        be_value(a) < be_value(b),
    decreases a.len(),
{
    if i == a.len() - 1 {
        assert(a.drop_last() =~= a.subrange(0, i));
        assert(b.drop_last() =~= b.subrange(0, i));
    } else {
        assert(a.drop_last().subrange(0, i) =~= a.subrange(0, i));
        assert(b.drop_last().subrange(0, i) =~= b.subrange(0, i));
        lemma_be_value_first_difference(a.drop_last(), b.drop_last(), i);
    }
}

/// A hash that is no larger than a valid hash is valid.
pub proof fn lemma_meets_target_monotone(target: Seq<u8>, lower: Seq<u8>, higher: Seq<u8>)
    requires
        be_value(lower) <= be_value(higher),
        meets_target(higher, target),
    ensures
        meets_target(lower, target),
{
}

/// Target threshold for valid hashes, as a 32-byte big-endian value.
#[derive(Debug, Clone, Copy)]
pub struct HashTarget {
    /// The threshold, most significant byte first.
    pub target: [u8; 32],
}

impl HashTarget {
    /// Decodes compact difficulty bits.
    pub fn from_bits(bits: u32) -> (r: Self)
        ensures
            r.target@ == compact_target(bits),
    {
        let mut target = [0u8; 32];
        let exponent: u32 = bits >> 24;
        let mantissa: u32 = bits & 0x00FF_FFFF;
        assert(bits >> 24 <= 255) by (bit_vector);
        if exponent >= 3 && exponent <= 32 {
            let start: usize = (32 - exponent) as usize;
            target[start] = byte_of_u32(mantissa, 16);
            target[start + 1] = byte_of_u32(mantissa, 8);
            target[start + 2] = byte_of_u32(mantissa, 0);
        }
        assert(target@ =~= compact_target(bits));
        HashTarget { target }
    }

    /// Whether `hash` is valid for this target: `hash <= target` as unsigned
    /// big-endian integers, equality included.
    pub fn is_valid_hash(&self, hash: &[u8; 32]) -> (r: bool)
        ensures
            r == meets_target(hash@, self.target@),
    {
        let mut i: usize = 0;
        while i < 32
            invariant
                i <= 32,
                hash@.subrange(0, i as int) == self.target@.subrange(0, i as int),
            decreases 32 - i,
        {
            if hash[i] < self.target[i] {
                proof {
                    lemma_be_value_first_difference(hash@, self.target@, i as int);
                }
                return true;
            }
            if hash[i] > self.target[i] {
                proof {
                    lemma_be_value_first_difference(self.target@, hash@, i as int);
                }
                return false;
            }
            assert(hash@.subrange(0, i + 1) =~= hash@.subrange(0, i as int).push(hash@[i as int]));
            assert(self.target@.subrange(0, i + 1) =~= self.target@.subrange(0, i as int).push(
                self.target@[i as int],
            ));
            i += 1;
        }
        assert(hash@ =~= hash@.subrange(0, 32));
        assert(self.target@ =~= self.target@.subrange(0, 32));
        true
    }
}

/// Work handed out by a pool.
#[derive(Debug)]
pub struct MiningJob {
    /// Job identifier.
    pub job_id: String,
    /// Block header template.
    pub header: BlockHeader,
    /// Target for this job.
    pub target: HashTarget,
    /// Extra nonce 1, assigned by the pool.
    pub extranonce1: Vec<u8>,
    /// Size of extra nonce 2 in bytes.
    pub extranonce2_size: usize,
}

impl Clone for MiningJob {
    fn clone(&self) -> (r: Self)
        ensures
            r.job_id == self.job_id,
            r.header == self.header,
            r.target == self.target,
            r.extranonce1@ == self.extranonce1@,
            r.extranonce2_size == self.extranonce2_size,
    {
        MiningJob {
            job_id: self.job_id.clone(),
            header: self.header,
            target: self.target,
            extranonce1: self.extranonce1.clone(),
            extranonce2_size: self.extranonce2_size,
        }
    }
}

/// State of the connection to a pool.
#[derive(Debug)]
pub enum PoolConnection {
    /// Not connected.
    Disconnected,
    /// Connecting to the pool.
    Connecting { url: String },
    /// Connected and authenticated.
    Connected { url: String, worker: String },
    /// Connection error.
    Error { url: String, reason: String },
}

impl Clone for PoolConnection {
    fn clone(&self) -> (r: Self)
        ensures
            r == *self,
    {
        match self {
            PoolConnection::Disconnected => PoolConnection::Disconnected,
            PoolConnection::Connecting { url } => PoolConnection::Connecting { url: url.clone() },
            PoolConnection::Connected { url, worker } => PoolConnection::Connected {
                url: url.clone(),
                worker: worker.clone(),
            },
            PoolConnection::Error { url, reason } => PoolConnection::Error {
                url: url.clone(),
                reason: reason.clone(),
            },
        }
    }
}

impl Default for PoolConnection {
    fn default() -> (r: Self)
        ensures
            r is Disconnected,
    {
        PoolConnection::Disconnected
    }
}

/// A 32-bit header nonce.
#[derive(Debug, Clone, Copy)]
pub struct Nonce(pub u32);

impl Default for Nonce {
    fn default() -> (r: Self)
        ensures
            r.0 == 0,
    {
        Nonce(0)
    }
}

impl Nonce {
    /// Advances the nonce by one and returns the new value; at `u32::MAX` the
    /// nonce stays as it is and nothing is returned.
    pub fn increment(&mut self) -> (r: Option<u32>)
        ensures
            old(self).0 < u32::MAX ==> final(self).0 == old(self).0 + 1 && r == Some(final(self).0),
            old(self).0 == u32::MAX ==> final(self).0 == u32::MAX && r.is_none(),
    {
        if self.0 == u32::MAX {
            None
        } else {
            self.0 = self.0 + 1;
            Some(self.0)
        }
    }
}

} // verus!
