//! A Bloom filter: a fixed-size bit array answering approximate
//! membership queries.
//!
//! Construction derives the hash count `k` from the bit length and the
//! capacity; insertion sets `k` bits chosen by an enhanced double-hashing
//! scheme over two base digests of the key; a query reports a key present
//! exactly when all `k` of its bits are set.  Bits are never cleared, so
//! an inserted key is always reported present (no false negatives), while
//! a bounded rate of false positives is accepted by design.
//!
//! The binary operations (`union`, `intersection`, `difference`) combine
//! the byte buffers of two filters with the same descriptor.  Bitwise
//! intersection and difference are approximations over the bit
//! representation: they can report keys that were never common to (or
//! exclusive to) the operands.  That inflated false-positive rate is an
//! accepted characteristic of the representation, not a defect.

use vstd::prelude::*;
use vstd::string::StringExecFns;
use crate::Error;
use crate::decimal::{dec_spec, pad5_spec, u64_to_pad5, u64_to_string};

verus! {

/// A probability written as an exact ratio `num / den`.
///
/// The filter requires a target false-positive probability strictly
/// between zero and one, i.e. `0 < num < den`.
#[derive(Clone, Copy, Debug, PartialEq, Eq, Structural)]
pub struct Probability {
    pub num: u64,
    pub den: u64,
}

impl Probability {
    /// Strictly between zero and one.
    pub open spec fn valid(self) -> bool {
        0 < self.num < self.den
    }

    /// The two ratios denote the same real number.
    pub open spec fn same_ratio(self, other: Probability) -> bool {
        self.num * other.den == other.num * self.den
    }

    /// Wraps the two integers, without judging them.
    pub fn new(num: u64, den: u64) -> (r: Probability)
        ensures
            r.num == num,
            r.den == den,
    {
        Probability { num, den }
    }

    /// Whether the ratio lies strictly between zero and one.
    pub fn is_valid(&self) -> (r: bool)
        ensures
            r == self.valid(),
    {
        0 < self.num && self.num < self.den
    }

    /// Exact comparison of the two ratios as real numbers.
    pub fn eq_ratio(&self, other: &Probability) -> (r: bool)
        ensures
            r == self.same_ratio(*other),
    {
        proof {
            assert(self.num * other.den <= 0xffff_ffff_ffff_ffffu64 * 0xffff_ffff_ffff_ffffu64
                && other.num * self.den <= 0xffff_ffff_ffff_ffffu64 * 0xffff_ffff_ffff_ffffu64)
                by (nonlinear_arith)
                requires
                    self.num <= 0xffff_ffff_ffff_ffffu64,
                    self.den <= 0xffff_ffff_ffff_ffffu64,
                    other.num <= 0xffff_ffff_ffff_ffffu64,
                    other.den <= 0xffff_ffff_ffff_ffffu64,
            ;
        }
        let a: u128 = (self.num as u128) * (other.den as u128);
        let b: u128 = (other.num as u128) * (self.den as u128);
        a == b
    }
}

/// How many bytes hold `m` bits.
pub open spec fn byte_len(m: int) -> int {
    (m + 7) / 8
}

/// Whether bit `off` of the byte `b` is one.
pub open spec fn nth_bit(b: u8, off: u8) -> bool {
    (b >> off) & 1u8 == 1u8
}

/// Whether bit `idx` of the buffer is one, addressing the byte `idx / 8`
/// at offset `idx % 8`, least significant bit first.
pub open spec fn bit_set(bytes: Seq<u8>, idx: int) -> bool {
    nth_bit(bytes[idx / 8], (idx % 8) as u8)
}

/// The spec-level state of a filter: its descriptor and its byte buffer.
pub ghost struct FilterModel {
    pub capacity: int,
    pub p: Probability,
    pub num_bits: int,
    pub k: int,
    pub bytes: Seq<u8>,
}

impl FilterModel {
    /// Well-formedness: positive capacity, a probability strictly inside
    /// `(0, 1)`, a positive bit length that the 32-bit index scheme can
    /// address, the derived hash count `k = num_bits / capacity` of at
    /// least one, and a buffer of exactly `ceil(num_bits / 8)` bytes.
    pub open spec fn wf(self) -> bool {
        &&& 0 < self.capacity
        &&& self.p.valid()
        &&& 0 < self.num_bits <= u32::MAX
        &&& self.k == self.num_bits / self.capacity
        &&& 1 <= self.k <= self.num_bits
        &&& self.bytes.len() == byte_len(self.num_bits)
    }

    /// Whether bit `idx` of the filter's buffer is one.
    pub open spec fn bit(self, idx: int) -> bool {
        bit_set(self.bytes, idx)
    }

    /// Whether slot `i` of `key` addresses bit `j`.
    pub open spec fn hits(self, key: Seq<char>, j: int) -> bool {
        exists|i: int| 0 <= i < self.k && index_spec(key, i, self.num_bits) == j
    }

    /// A key is reported present exactly when every one of its `k`
    /// addressed bits is one.
    pub open spec fn key_present(self, key: Seq<char>) -> bool {
        forall|i: int|
            0 <= i < self.k ==> self.bit(#[trigger] index_spec(key, i, self.num_bits))
    }

    /// Compatibility: the shared precondition of every binary operation.
    /// The capacities, bit lengths and hash counts are equal and the two
    /// probabilities denote the same real number.
    pub open spec fn compatible(self, other: FilterModel) -> bool {
        &&& self.num_bits == other.num_bits
        &&& self.p.same_ratio(other.p)
        &&& self.capacity == other.capacity
        &&& self.k == other.k
    }

    /// The descriptors agree field for field.
    pub open spec fn same_descriptor(self, other: FilterModel) -> bool {
        &&& self.capacity == other.capacity
        &&& self.p == other.p
        &&& self.num_bits == other.num_bits
        &&& self.k == other.k
    }
}

/// The 32-bit digest that `fasthash::murmur3::hash32` computes from the
/// key's bytes; a pure function of the key.
pub uninterp spec fn murmur3_of(key: Seq<char>) -> u32;

/// The 32-bit digest that `fasthash::spooky::hash32` computes from the
/// key's bytes; a pure function of the key.
pub uninterp spec fn spooky_of(key: Seq<char>) -> u32;

/// The value `x` reduced modulo two to the thirty-second.
pub open spec fn wrap32(x: int) -> u32 {
    (x % 0x1_0000_0000) as u32
}

/// The enhanced double-hashing combinator on the two base digests: for
/// slot `i`, the bit index is `((h1 + i) xor (h2 + i*i)) mod m`, every
/// intermediate sum and product wrapping modulo two to the thirty-second.
pub open spec fn slot_index(h1: u32, h2: u32, i: int, m: int) -> int {
    ((wrap32(h1 + i) ^ wrap32(h2 + wrap32(i * i))) as int) % m
}

/// The bit index that slot `i` assigns to `key` in a filter of `m` bits.
/// A pure function of `(key, i, m)`: no filter state enters into it.
pub open spec fn index_spec(key: Seq<char>, i: int, m: int) -> int {
    slot_index(murmur3_of(key), spooky_of(key), i, m)
}

/// The longest key, in characters, that the hashing scheme accepts.
///
/// The murmur digest below hands the key's byte length to foreign code
/// as a 32-bit signed integer, so the byte length must stay below two to
/// the thirty-first; a character encodes to at most four bytes.
pub const MAX_KEY_CHARS: usize = 0x2000_0000;

/// Relies on `fasthash::murmur3::hash32`: a deterministic 32-bit digest
/// of the key's bytes, depending on nothing but the key.  The length
/// bound keeps the byte count below two to the thirty-first, which the
/// call passes to foreign code as a 32-bit signed integer; a longer key
/// would make that cast go negative and the call read out of bounds.
#[verifier::external_body]
fn murmur3_32(key: &str) -> (r: u32)
    requires
        key@.len() < MAX_KEY_CHARS,
    ensures
        r == murmur3_of(key@),
{
    fasthash::murmur3::hash32(key)
}

/// Relies on `fasthash::spooky::hash32`: a deterministic 32-bit digest
/// of the key's bytes, depending on nothing but the key.
#[verifier::external_body]
fn spooky_32(key: &str) -> (r: u32)
    ensures
        r == spooky_of(key@),
{
    fasthash::spooky::hash32(key)
}

/// Setting bit `o` of a byte leaves every bit one exactly when it was
/// one before or is the bit being set.
proof fn lemma_set_bit(b: u8, o: u8, o2: u8)
    by (bit_vector)
    requires
        o < 8,
        o2 < 8,
    ensures
        ((b | (1u8 << o)) >> o2) & 1u8 == 1u8 <==> (((b >> o2) & 1u8 == 1u8) || o == o2),
{
}

/// Masking a byte down to bit `o` and shifting it back yields that bit.
proof fn lemma_mask_shift(b: u8, o: u8)
    by (bit_vector)
    requires
        o < 8,
    ensures
        (b & (1u8 << o)) >> o == (if (b >> o) & 1u8 == 1u8 {
            1u8
        } else {
            0u8
        }),
{
}

/// A bit of the or of two bytes is one exactly when that bit is one in
/// either byte.
proof fn lemma_or_bit(a: u8, b: u8, o: u8)
    by (bit_vector)
    requires
        o < 8,
    ensures
        ((a | b) >> o) & 1u8 == 1u8 <==> (((a >> o) & 1u8 == 1u8) || ((b >> o) & 1u8
            == 1u8)),
{
}

/// A bit of the and of two bytes is one exactly when that bit is one in
/// both bytes.
proof fn lemma_and_bit(a: u8, b: u8, o: u8)
    by (bit_vector)
    requires
        o < 8,
    ensures
        ((a & b) >> o) & 1u8 == 1u8 <==> (((a >> o) & 1u8 == 1u8) && ((b >> o) & 1u8
            == 1u8)),
{
}

/// A bit of `a & (a ^ b)` is one exactly when it is one in `a` and zero
/// in `b`.
proof fn lemma_diff_bit(a: u8, b: u8, o: u8)
    by (bit_vector)
    requires
        o < 8,
    ensures
        ((a & (a ^ b)) >> o) & 1u8 == 1u8 <==> (((a >> o) & 1u8 == 1u8) && !((b >> o) & 1u8
            == 1u8)),
{
}

/// Two bytes exclusive-or to zero exactly when they are equal.
proof fn lemma_xor_eq(a: u8, b: u8)
    by (bit_vector)
    ensures
        (a ^ b == 0u8) <==> a == b,
{
}

/// Every bit of the zero byte is zero.
proof fn lemma_zero_bit(o: u8)
    by (bit_vector)
    requires
        o < 8,
    ensures
        (0u8 >> o) & 1u8 != 1u8,
{
}

/// The executable double-hashing combinator; equal to `slot_index` on
/// the same arguments, and always below `m`.
fn slot_index_exec(h1: u32, h2: u32, i: u32, m: usize) -> (r: usize)
    requires
        0 < m,
    ensures
        r as int == slot_index(h1, h2, i as int, m as int),
        r < m,
{
    let ia: u64 = i as u64;
    proof {
        assert(ia * ia <= 0xffff_ffffu64 * 0xffff_ffffu64) by (nonlinear_arith)
            requires
                ia <= 0xffff_ffffu64,
        ;
    }
    let sq: u64 = (ia * ia) % 0x1_0000_0000;
    let a64: u64 = (h1 as u64 + ia) % 0x1_0000_0000;
    let b64: u64 = (h2 as u64 + sq) % 0x1_0000_0000;
    let x: u32 = (a64 as u32) ^ (b64 as u32);
    let r: usize = (x as usize) % m;
    proof {
        assert(a64 as u32 == wrap32(h1 + i as int));
        assert(sq as u32 == wrap32(i as int * i as int));
        assert(b64 as u32 == wrap32(h2 + wrap32(i as int * i as int)));
        assert(r as int == slot_index(h1, h2, i as int, m as int));
    }
    r
}

/// After an insertion the inserted key is reported present, and every
/// key reported present before stays reported present: bits are only
/// ever set, never cleared, so the filter admits no false negatives.
pub proof fn lemma_insert_effect(pre: FilterModel, post: FilterModel, x: Seq<char>)
    requires
        pre.wf(),
        post.same_descriptor(pre),
        forall|j: int|
            0 <= j < pre.num_bits ==> (#[trigger] post.bit(j) <==> (pre.bit(j) || pre.hits(
                x,
                j,
            ))),
    ensures
        post.key_present(x),
        forall|y: Seq<char>| pre.key_present(y) ==> #[trigger] post.key_present(y),
{
    assert forall|i: int|
        0 <= i < post.k implies post.bit(#[trigger] index_spec(x, i, post.num_bits)) by {
        let j = index_spec(x, i, post.num_bits);
        assert(0 <= j < pre.num_bits);
        assert(pre.hits(x, j));
    }
    assert forall|y: Seq<char>|
        pre.key_present(y) implies #[trigger] post.key_present(y) by {
        lemma_presence_monotone(pre, post, y);
    }
}

/// Presence is monotone in the set of one bits: a filter whose one bits
/// include those of another filter with the same shape reports present
/// every key that the other reports present.
pub proof fn lemma_presence_monotone(a: FilterModel, b: FilterModel, y: Seq<char>)
    requires
        0 < a.num_bits,
        b.num_bits == a.num_bits,
        b.k == a.k,
        forall|j: int| 0 <= j < a.num_bits ==> (#[trigger] a.bit(j) ==> b.bit(j)),
        a.key_present(y),
    ensures
        b.key_present(y),
{
    assert forall|i: int|
        0 <= i < b.k implies b.bit(#[trigger] index_spec(y, i, b.num_bits)) by {
        let j = index_spec(y, i, b.num_bits);
        assert(0 <= j < a.num_bits);
        assert(a.bit(j));
    }
}

/// A filter: its immutable descriptor and its mutable byte buffer.
#[derive(Debug)]
pub struct BloomFilter {
    capacity: usize,
    p: Probability,
    num_bits: usize,
    k: usize,
    bytes: Vec<u8>,
}

impl View for BloomFilter {
    type V = FilterModel;

    closed spec fn view(&self) -> FilterModel {
        FilterModel {
            capacity: self.capacity as int,
            p: self.p,
            num_bits: self.num_bits as int,
            k: self.k as int,
            bytes: self.bytes@,
        }
    }
}

impl BloomFilter {
    /// Builds a filter of `num_bits` bits sized for `capacity` expected
    /// elements at target false-positive probability `p`, every bit
    /// initially zero, deriving the hash count `k = num_bits / capacity`.
    ///
    /// Rejects with [`Error::InvalidConfiguration`] exactly when the
    /// capacity is zero, `p` lies outside `(0, 1)`, or the derived hash
    /// count would be zero; nothing is allocated in that case.
    pub fn new(capacity: usize, p: Probability, num_bits: usize) -> (r: Result<
        BloomFilter,
        Error,
    >)
        requires
            num_bits <= u32::MAX as usize,
        ensures
            (r matches Ok(f) ==> {
                &&& f@.wf()
                &&& f@.capacity == capacity
                &&& f@.p == p
                &&& f@.num_bits == num_bits
                &&& f@.k == num_bits as int / capacity as int
                &&& forall|j: int| 0 <= j < f@.bytes.len() ==> f@.bytes[j] == 0u8
                &&& forall|j: int| 0 <= j < f@.num_bits ==> !f@.bit(j)
                &&& forall|y: Seq<char>| !f@.key_present(y)
            }),
            (r matches Err(e) ==> e == Error::InvalidConfiguration),
            (r is Ok <==> (capacity > 0 && p.valid() && num_bits as int / capacity as int
                >= 1)),
    {
        if capacity == 0 {
            return Err(Error::InvalidConfiguration);
        }
        if !p.is_valid() {
            return Err(Error::InvalidConfiguration);
        }
        let k: usize = num_bits / capacity;
        if k == 0 {
            return Err(Error::InvalidConfiguration);
        }
        proof {
            assert(num_bits as int / capacity as int <= num_bits as int) by (nonlinear_arith)
                requires
                    capacity >= 1,
                    num_bits >= 0,
            ;
        }
        let num_bytes: usize = num_bits / 8 + (if num_bits % 8 == 0 {
            0
        } else {
            1
        });
        let bytes: Vec<u8> = vec![0u8; num_bytes];
        let f = BloomFilter { capacity, p, num_bits, k, bytes };
        proof {
            assert(num_bytes == byte_len(num_bits as int));
            assert forall|j: int| 0 <= j < f@.num_bits implies !f@.bit(j) by {
                lemma_zero_bit((j % 8) as u8);
            }
            assert forall|y: Seq<char>| !f@.key_present(y) by {
                let j = index_spec(y, 0, f@.num_bits);
                assert(0 <= j < f@.num_bits);
                assert(!f@.bit(j));
            }
        }
        Ok(f)
    }

    /// The byte index and bit offset addressing bit `index`.
    fn bit_coordinates(index: usize) -> (r: (usize, usize))
        ensures
            r.0 == index as int / 8,
            r.1 == index as int % 8,
            r.1 < 8,
    {
        let byte_index: usize = index / 8;
        let bit_offset: usize = index % 8;
        (byte_index, bit_offset)
    }

    /// Reads bit `index`: one if it is set, zero otherwise.
    fn read_bit(&self, index: usize) -> (r: u8)
        requires
            self@.wf(),
            index < self@.num_bits,
        ensures
            r == (if self@.bit(index as int) {
                1u8
            } else {
                0u8
            }),
    {
        let (byte_index, bit_offset) = BloomFilter::bit_coordinates(index);
        let byte: u8 = self.bytes[byte_index];
        let bitmask: u8 = 1u8 << bit_offset;
        proof {
            lemma_mask_shift(byte, bit_offset as u8);
        }
        (byte & bitmask) >> bit_offset
    }

    /// Computes bit indices for slots `0 .. k`: slot `i` of `key` maps
    /// to `((h1 + i) xor (h2 + i*i)) mod num_bits`, wrapping modulo two
    /// to the thirty-second, where `h1` and `h2` are the two base
    /// digests of the key.
    fn key_to_bit_indicies(&self, key: &str) -> (v: Vec<usize>)
        requires
            self@.wf(),
            key@.len() < MAX_KEY_CHARS,
        ensures
            v@.len() == self@.k,
            forall|j: int|
                0 <= j < self@.k ==> #[trigger] v@[j] as int == index_spec(
                    key@,
                    j,
                    self@.num_bits,
                ) && v@[j] < self@.num_bits,
    {
        let h1: u32 = murmur3_32(key);
        let h2: u32 = spooky_32(key);
        let mut v: Vec<usize> = Vec::new();
        let mut i: usize = 0;
        while i < self.k
            invariant
                self@.wf(),
                i <= self@.k,
                h1 == murmur3_of(key@),
                h2 == spooky_of(key@),
                v@.len() == i,
                forall|j: int|
                    0 <= j < i ==> #[trigger] v@[j] as int == index_spec(
                        key@,
                        j,
                        self@.num_bits,
                    ) && v@[j] < self@.num_bits,
            decreases self@.k - i,
        {
            let idx: usize = slot_index_exec(h1, h2, i as u32, self.num_bits);
            v.push(idx);
            i = i + 1;
        }
        v
    }

    /// Adds `key`: computes its `k` bit indices and sets each bit.
    ///
    /// Afterwards the key is reported present, every bit that was one
    /// stays one (so every key already reported present stays reported
    /// present), and exactly the addressed bits are newly set.
    pub fn insert(&mut self, value: String)
        requires
            old(self)@.wf(),
            value@.len() < MAX_KEY_CHARS,
        ensures
            final(self)@.wf(),
            final(self)@.same_descriptor(old(self)@),
            forall|j: int|
                0 <= j < 8 * old(self)@.bytes.len() ==> (final(self)@.bit(j) <==> (old(
                self,
                )@.bit(j) || old(self)@.hits(value@, j))),
            final(self)@.key_present(value@),
            forall|y: Seq<char>|
                old(self)@.key_present(y) ==> #[trigger] final(self)@.key_present(y),
    {
        let indicies: Vec<usize> = self.key_to_bit_indicies(value.as_str());
        let mut t: usize = 0;
        while t < indicies.len()
            invariant
                self@.wf(),
                self@.same_descriptor(old(self)@),
                self@.bytes.len() == old(self)@.bytes.len(),
                t <= indicies@.len(),
                indicies@.len() == old(self)@.k,
                forall|j: int|
                    0 <= j < old(self)@.k ==> #[trigger] indicies@[j] as int == index_spec(
                        value@,
                        j,
                        old(self)@.num_bits,
                    ) && indicies@[j] < old(self)@.num_bits,
                forall|j: int|
                    0 <= j < 8 * old(self)@.bytes.len() ==> (self@.bit(j) <==> (old(
                    self,
                    )@.bit(j) || exists|q: int|
                        0 <= q < t && #[trigger] indicies@[q] as int == j)),
            decreases indicies@.len() - t,
        {
            let idx: usize = indicies[t];
            self.write_bit(idx);
            t = t + 1;
        }
        proof {
            assert forall|j: int|
                0 <= j < 8 * old(self)@.bytes.len() implies (final(self)@.bit(j) <==> (old(
                self,
            )@.bit(j) || old(self)@.hits(value@, j))) by {
                if final(self)@.bit(j) && !old(self)@.bit(j) {
                    let q = choose|q: int|
                        0 <= q < indicies@.len() && #[trigger] indicies@[q] as int == j;
                    assert(index_spec(value@, q, old(self)@.num_bits) == j);
                }
                if old(self)@.hits(value@, j) {
                    let i = choose|i: int|
                        0 <= i < old(self)@.k && index_spec(value@, i, old(self)@.num_bits)
                            == j;
                    assert(indicies@[i] as int == j);
                }
            }
            lemma_insert_effect(old(self)@, final(self)@, value@);
        }
    }

    /// Asks whether `key` was (possibly) inserted: true exactly when all
    /// `k` of its addressed bits are set.  The answer is a pure function
    /// of the filter's state and the key, so repeated queries with no
    /// intervening insertion agree.
    pub fn contains(&self, value: String) -> (r: bool)
        requires
            self@.wf(),
            value@.len() < MAX_KEY_CHARS,
        ensures
            r == self@.key_present(value@),
    {
        let indicies: Vec<usize> = self.key_to_bit_indicies(value.as_str());
        let mut set_bits: usize = 0;
        let mut t: usize = 0;
        while t < indicies.len()
            invariant
                self@.wf(),
                t <= indicies@.len(),
                indicies@.len() == self@.k,
                forall|j: int|
                    0 <= j < self@.k ==> #[trigger] indicies@[j] as int == index_spec(
                        value@,
                        j,
                        self@.num_bits,
                    ) && indicies@[j] < self@.num_bits,
                set_bits <= t,
                (set_bits == t) <==> (forall|q: int|
                    0 <= q < t ==> self@.bit(#[trigger] indicies@[q] as int)),
            decreases indicies@.len() - t,
        {
            let bit: u8 = self.read_bit(indicies[t]);
            set_bits = set_bits + bit as usize;
            t = t + 1;
        }
        let r: bool = set_bits == self.k;
        proof {
            if r {
                assert forall|i: int|
                    0 <= i < self@.k implies self@.bit(#[trigger] index_spec(
                    value@,
                    i,
                    self@.num_bits,
                )) by {
                    assert(indicies@[i] as int == index_spec(value@, i, self@.num_bits));
                    assert(self@.bit(indicies@[i] as int));
                }
            } else {
                let q = choose|q: int|
                    0 <= q < indicies@.len() && !self@.bit(#[trigger] indicies@[q] as int);
                assert(index_spec(value@, q, self@.num_bits) == indicies@[q] as int);
            }
        }
        r
    }

    /// Sets bit `index` by a bitwise or on its byte: idempotent, and no
    /// bit is ever cleared.
    fn write_bit(&mut self, index: usize)
        requires
            old(self)@.wf(),
            index < old(self)@.num_bits,
        ensures
            final(self)@.wf(),
            final(self)@.same_descriptor(old(self)@),
            final(self)@.bytes.len() == old(self)@.bytes.len(),
            forall|j: int|
                0 <= j < 8 * old(self)@.bytes.len() ==> (final(self)@.bit(j) <==> (old(
                self,
                )@.bit(j) || j == index)),
    {
        let (byte_index, bit_offset) = BloomFilter::bit_coordinates(index);
        let byte: u8 = self.bytes[byte_index];
        let updated: u8 = byte | (1u8 << bit_offset);
        self.bytes[byte_index] = updated;
        proof {
            assert forall|j: int|
                0 <= j < 8 * old(self)@.bytes.len() implies (final(self)@.bit(j) <==> (old(
                self,
            )@.bit(j) || j == index)) by {
                if j / 8 == byte_index as int {
                    lemma_set_bit(byte, bit_offset as u8, (j % 8) as u8);
                }
            }
        }
    }

    /// Whether the two filters' descriptors agree, the precondition of
    /// every binary operation and of meaningful equality.
    pub fn can_compare(&self, rhs: &BloomFilter) -> (r: bool)
        ensures
            r == self@.compatible(rhs@),
    {
        self.num_bits == rhs.num_bits && self.p.eq_ratio(&rhs.p) && self.capacity
            == rhs.capacity && self.k == rhs.k
    }

    /// The configured target false-positive probability, as constructed;
    /// not a measured rate.
    pub fn false_positive_probability(&self) -> (r: Probability)
        ensures
            r == self@.p,
    {
        self.p
    }

    /// Structural equality: false for incompatible descriptors, else
    /// true exactly when the two byte buffers agree byte for byte.
    pub fn equals(&self, other: Self) -> (r: bool)
        requires
            self@.wf(),
            other@.wf(),
        ensures
            r == (self@.compatible(other@) && self@.bytes == other@.bytes),
    {
        if !self.can_compare(&other) {
            return false;
        }
        let len: usize = self.bytes.len();
        let mut i: usize = 0;
        while i < len
            invariant
                self@.wf(),
                other@.wf(),
                self@.compatible(other@),
                len == self@.bytes.len(),
                other@.bytes.len() == len,
                i <= len,
                forall|j: int| 0 <= j < i ==> self@.bytes[j] == other@.bytes[j],
            decreases len - i,
        {
            let a: u8 = self.bytes[i];
            let b: u8 = other.bytes[i];
            proof {
                lemma_xor_eq(a, b);
            }
            if a ^ b != 0 {
                return false;
            }
            i = i + 1;
        }
        proof {
            assert(self@.bytes =~= other@.bytes);
        }
        true
    }

    /// The union of the two filters: a fresh filter with the same
    /// descriptor whose buffer is the byte-wise or of the operands', so
    /// a bit is one exactly when it is one in either operand.  Every key
    /// reported present by either operand is reported present by the
    /// union.  Fails with [`Error::ParameterMismatch`], touching
    /// neither operand, exactly when the descriptors are incompatible.
    pub fn union(&self, other: Self) -> (r: Result<BloomFilter, Error>)
        requires
            self@.wf(),
            other@.wf(),
        ensures
            (r matches Ok(u) ==> {
                &&& self@.compatible(other@)
                &&& u@.wf()
                &&& u@.same_descriptor(self@)
                &&& forall|j: int|
                    0 <= j < u@.bytes.len() ==> #[trigger] u@.bytes[j] == (self@.bytes[j]
                        | other@.bytes[j])
                &&& forall|j: int|
                    0 <= j < u@.num_bits ==> (#[trigger] u@.bit(j) <==> (self@.bit(j)
                        || other@.bit(j)))
                &&& forall|y: Seq<char>|
                    self@.key_present(y) ==> #[trigger] u@.key_present(y)
                &&& forall|y: Seq<char>|
                    other@.key_present(y) ==> #[trigger] u@.key_present(y)
            }),
            (r matches Err(e) ==> e == Error::ParameterMismatch),
            (r is Ok <==> self@.compatible(other@)),
    {
        if !self.can_compare(&other) {
            return Err(Error::ParameterMismatch);
        }
        let len: usize = self.bytes.len();
        let mut bytes: Vec<u8> = Vec::new();
        let mut i: usize = 0;
        while i < len
            invariant
                self@.wf(),
                other@.wf(),
                self@.compatible(other@),
                len == self@.bytes.len(),
                other@.bytes.len() == len,
                i <= len,
                bytes@.len() == i,
                forall|j: int|
                    0 <= j < i ==> #[trigger] bytes@[j] == (self@.bytes[j] | other@.bytes[j]),
            decreases len - i,
        {
            bytes.push(self.bytes[i] | other.bytes[i]);
            i = i + 1;
        }
        let u = BloomFilter {
            capacity: self.capacity,
            p: self.p,
            num_bits: self.num_bits,
            k: self.k,
            bytes,
        };
        proof {
            assert forall|j: int|
                0 <= j < u@.num_bits implies (#[trigger] u@.bit(j) <==> (self@.bit(j)
                || other@.bit(j))) by {
                assert(u@.bytes[j / 8] == (self@.bytes[j / 8] | other@.bytes[j / 8]));
                lemma_or_bit(self@.bytes[j / 8], other@.bytes[j / 8], (j % 8) as u8);
            }
            assert forall|y: Seq<char>|
                self@.key_present(y) implies #[trigger] u@.key_present(y) by {
                lemma_presence_monotone(self@, u@, y);
            }
            assert forall|y: Seq<char>|
                other@.key_present(y) implies #[trigger] u@.key_present(y) by {
                lemma_presence_monotone(other@, u@, y);
            }
        }
        Ok(u)
    }

    /// The bitwise intersection of the two filters: a fresh filter with
    /// the same descriptor whose buffer is the byte-wise and of the
    /// operands', so a bit is one exactly when it is one in both.  Every
    /// key reported present by both operands is reported present by the
    /// intersection; the converse does not hold, since the bit overlap
    /// of two sets can exceed their true intersection — an accepted
    /// approximation of the representation.  Fails with
    /// [`Error::ParameterMismatch`], touching neither operand, exactly
    /// when the descriptors are incompatible.
    pub fn intersection(&self, other: Self) -> (r: Result<BloomFilter, Error>)
        requires
            self@.wf(),
            other@.wf(),
        ensures
            (r matches Ok(u) ==> {
                &&& self@.compatible(other@)
                &&& u@.wf()
                &&& u@.same_descriptor(self@)
                &&& forall|j: int|
                    0 <= j < u@.bytes.len() ==> #[trigger] u@.bytes[j] == (self@.bytes[j]
                        & other@.bytes[j])
                &&& forall|j: int|
                    0 <= j < u@.num_bits ==> (#[trigger] u@.bit(j) <==> (self@.bit(j)
                        && other@.bit(j)))
                &&& forall|y: Seq<char>|
                    (self@.key_present(y) && other@.key_present(y))
                        ==> #[trigger] u@.key_present(y)
            }),
            (r matches Err(e) ==> e == Error::ParameterMismatch),
            (r is Ok <==> self@.compatible(other@)),
    {
        if !self.can_compare(&other) {
            return Err(Error::ParameterMismatch);
        }
        let len: usize = self.bytes.len();
        let mut bytes: Vec<u8> = Vec::new();
        let mut i: usize = 0;
        while i < len
            invariant
                self@.wf(),
                other@.wf(),
                self@.compatible(other@),
                len == self@.bytes.len(),
                other@.bytes.len() == len,
                i <= len,
                bytes@.len() == i,
                forall|j: int|
                    0 <= j < i ==> #[trigger] bytes@[j] == (self@.bytes[j] & other@.bytes[j]),
            decreases len - i,
        {
            bytes.push(self.bytes[i] & other.bytes[i]);
            i = i + 1;
        }
        let u = BloomFilter {
            capacity: self.capacity,
            p: self.p,
            num_bits: self.num_bits,
            k: self.k,
            bytes,
        };
        proof {
            assert forall|j: int|
                0 <= j < u@.num_bits implies (#[trigger] u@.bit(j) <==> (self@.bit(j)
                && other@.bit(j))) by {
                assert(u@.bytes[j / 8] == (self@.bytes[j / 8] & other@.bytes[j / 8]));
                lemma_and_bit(self@.bytes[j / 8], other@.bytes[j / 8], (j % 8) as u8);
            }
            assert forall|y: Seq<char>|
                (self@.key_present(y) && other@.key_present(y))
                    implies #[trigger] u@.key_present(y) by {
                assert forall|i2: int|
                    0 <= i2 < u@.k implies u@.bit(#[trigger] index_spec(y, i2, u@.num_bits)) by {
                    let j = index_spec(y, i2, u@.num_bits);
                    assert(0 <= j < u@.num_bits);
                    assert(self@.bit(j));
                    assert(other@.bit(j));
                }
            }
        }
        Ok(u)
    }

    /// The bitwise difference of the two filters: a fresh filter with
    /// the same descriptor whose bytes are `a & (a ^ b)`, so a bit is
    /// one exactly when it is one in `self` and zero in `other`.  Every
    /// key the difference reports present, `self` reports present; as
    /// with intersection, the bit formula is an approximation of true
    /// set difference and can leak false positives — an accepted
    /// characteristic.  Fails with [`Error::ParameterMismatch`],
    /// touching neither operand, exactly when the descriptors are
    /// incompatible.
    pub fn difference(&self, other: Self) -> (r: Result<BloomFilter, Error>)
        requires
            self@.wf(),
            other@.wf(),
        ensures
            (r matches Ok(u) ==> {
                &&& self@.compatible(other@)
                &&& u@.wf()
                &&& u@.same_descriptor(self@)
                &&& forall|j: int|
                    0 <= j < u@.bytes.len() ==> #[trigger] u@.bytes[j] == (self@.bytes[j]
                        & (self@.bytes[j] ^ other@.bytes[j]))
                &&& forall|j: int|
                    0 <= j < u@.num_bits ==> (#[trigger] u@.bit(j) <==> (self@.bit(j)
                        && !other@.bit(j)))
                &&& forall|y: Seq<char>|
                    u@.key_present(y) ==> #[trigger] self@.key_present(y)
            }),
            (r matches Err(e) ==> e == Error::ParameterMismatch),
            (r is Ok <==> self@.compatible(other@)),
    {
        if !self.can_compare(&other) {
            return Err(Error::ParameterMismatch);
        }
        let len: usize = self.bytes.len();
        let mut bytes: Vec<u8> = Vec::new();
        let mut i: usize = 0;
        while i < len
            invariant
                self@.wf(),
                other@.wf(),
                self@.compatible(other@),
                len == self@.bytes.len(),
                other@.bytes.len() == len,
                i <= len,
                bytes@.len() == i,
                forall|j: int|
                    0 <= j < i ==> #[trigger] bytes@[j] == (self@.bytes[j] & (self@.bytes[j]
                        ^ other@.bytes[j])),
            decreases len - i,
        {
            bytes.push(self.bytes[i] & (self.bytes[i] ^ other.bytes[i]));
            i = i + 1;
        }
        let u = BloomFilter {
            capacity: self.capacity,
            p: self.p,
            num_bits: self.num_bits,
            k: self.k,
            bytes,
        };
        proof {
            assert forall|j: int|
                0 <= j < u@.num_bits implies (#[trigger] u@.bit(j) <==> (self@.bit(j)
                && !other@.bit(j))) by {
                assert(u@.bytes[j / 8] == (self@.bytes[j / 8] & (self@.bytes[j / 8]
                    ^ other@.bytes[j / 8])));
                lemma_diff_bit(self@.bytes[j / 8], other@.bytes[j / 8], (j % 8) as u8);
            }
            assert forall|y: Seq<char>|
                u@.key_present(y) implies #[trigger] self@.key_present(y) by {
                assert forall|i2: int|
                    0 <= i2 < self@.k implies self@.bit(#[trigger] index_spec(
                    y,
                    i2,
                    self@.num_bits,
                )) by {
                    let j = index_spec(y, i2, self@.num_bits);
                    assert(0 <= j < u@.num_bits);
                    assert(u@.bit(j));
                }
            }
        }
        Ok(u)
    }
}

/// The target probability rounded (half up) to five decimal places,
/// scaled by ten to the fifth.
pub open spec fn p_scaled(p: Probability) -> int {
    (p.num * 100000 + p.den as int / 2) / p.den as int
}

/// The diagnostic text for a filter: its capacity `n`, its target
/// probability `p` to five decimal places, its bit length `m` and its
/// hash count `k`, one line each.
pub open spec fn describe_spec(m: FilterModel) -> Seq<char> {
    "n:\t"@ + dec_spec(m.capacity) + "\np:\t"@ + dec_spec(p_scaled(m.p) / 100000) + "."@
        + pad5_spec(p_scaled(m.p) % 100000) + "\nm:\t"@ + dec_spec(m.num_bits) + "\nk:\t"@
        + dec_spec(m.k) + "\n\n"@
}

impl BloomFilter {
    /// Renders the descriptor for diagnostics.
    pub fn describe(&self) -> (s: String)
        requires
            self@.wf(),
        ensures
            s@ == describe_spec(self@),
    {
        let num: u64 = self.p.num;
        let den: u64 = self.p.den;
        proof {
            assert(num * 100000 <= (den - 1) * 100000) by (nonlinear_arith)
                requires
                    num <= den - 1,
                    den >= 1,
            ;
            assert(((num * 100000 + den as int / 2) / (den as int)) < 100001) by (nonlinear_arith)
                requires
                    num * 100000 + den as int / 2 < den * 100001,
                    den > 0,
            ;
        }
        let scaled128: u128 = ((num as u128) * 100000 + (den as u128) / 2) / (den as u128);
        let scaled: u64 = scaled128 as u64;
        proof {
            assert(scaled as int == p_scaled(self@.p));
        }
        let mut s: String = String::from_str("n:\t");
        let part_n: String = u64_to_string(self.capacity as u64);
        s.append(part_n.as_str());
        s.append("\np:\t");
        let part_w: String = u64_to_string(scaled / 100000);
        s.append(part_w.as_str());
        s.append(".");
        let part_f: String = u64_to_pad5(scaled % 100000);
        s.append(part_f.as_str());
        s.append("\nm:\t");
        let part_m: String = u64_to_string(self.num_bits as u64);
        s.append(part_m.as_str());
        s.append("\nk:\t");
        let part_k: String = u64_to_string(self.k as u64);
        s.append(part_k.as_str());
        s.append("\n\n");
        s
    }
}

/// Two bytes agreeing on each of their eight bits are equal.
proof fn lemma_byte_from_bits(a: u8, b: u8)
    by (bit_vector)
    requires
        nth_bit(a, 0u8) == nth_bit(b, 0u8),
        nth_bit(a, 1u8) == nth_bit(b, 1u8),
        nth_bit(a, 2u8) == nth_bit(b, 2u8),
        nth_bit(a, 3u8) == nth_bit(b, 3u8),
        nth_bit(a, 4u8) == nth_bit(b, 4u8),
        nth_bit(a, 5u8) == nth_bit(b, 5u8),
        nth_bit(a, 6u8) == nth_bit(b, 6u8),
        nth_bit(a, 7u8) == nth_bit(b, 7u8),
    ensures
        a == b,
{
}

/// Two buffers of equal length agreeing on every bit agree byte for
/// byte: the bit level determines the byte level.
pub proof fn lemma_bits_determine_bytes(a: Seq<u8>, b: Seq<u8>)
    requires
        a.len() == b.len(),
        forall|j: int| 0 <= j < 8 * a.len() ==> (#[trigger] bit_set(a, j) <==> bit_set(b, j)),
    ensures
        a == b,
{
    assert forall|i: int| 0 <= i < a.len() implies a[i] == b[i] by {
        assert forall|o: u8| o < 8 implies #[trigger] nth_bit(a[i], o) == nth_bit(b[i], o) by {
            let j = 8 * i + o as int;
            assert(j / 8 == i && j % 8 == o as int);
            assert(bit_set(a, j) <==> bit_set(b, j));
        }
        assert(nth_bit(a[i], 0u8) == nth_bit(b[i], 0u8));
        assert(nth_bit(a[i], 1u8) == nth_bit(b[i], 1u8));
        assert(nth_bit(a[i], 2u8) == nth_bit(b[i], 2u8));
        assert(nth_bit(a[i], 3u8) == nth_bit(b[i], 3u8));
        assert(nth_bit(a[i], 4u8) == nth_bit(b[i], 4u8));
        assert(nth_bit(a[i], 5u8) == nth_bit(b[i], 5u8));
        assert(nth_bit(a[i], 6u8) == nth_bit(b[i], 6u8));
        assert(nth_bit(a[i], 7u8) == nth_bit(b[i], 7u8));
        lemma_byte_from_bits(a[i], b[i]);
    }
    assert(a =~= b);
}

/// Inserting a key that is already reported present leaves the buffer
/// unchanged: every addressed bit is already one, and setting a set
/// bit is a no-op.
pub proof fn lemma_reinsert_noop(pre: FilterModel, post: FilterModel, x: Seq<char>)
    requires
        pre.wf(),
        post.bytes.len() == pre.bytes.len(),
        forall|j: int|
            0 <= j < 8 * pre.bytes.len() ==> (#[trigger] post.bit(j) <==> (pre.bit(j)
                || pre.hits(x, j))),
        pre.key_present(x),
    ensures
        post.bytes == pre.bytes,
{
    assert forall|j: int|
        0 <= j < 8 * pre.bytes.len() implies (#[trigger] bit_set(pre.bytes, j) <==> bit_set(
        post.bytes,
        j,
    )) by {
        if pre.hits(x, j) {
            let i = choose|i: int| 0 <= i < pre.k && index_spec(x, i, pre.num_bits) == j;
            assert(pre.bit(index_spec(x, i, pre.num_bits)));
        }
        assert(post.bit(j) <==> pre.bit(j));
    }
    lemma_bits_determine_bytes(pre.bytes, post.bytes);
}

/// Insertion is deterministic: two filters with the same bit length and
/// hash count and equal buffers, each receiving the same key, have
/// equal buffers afterwards.  Hence filters built alike and given
/// identical insert sequences stay equal.
pub proof fn lemma_insert_deterministic(
    pre1: FilterModel,
    post1: FilterModel,
    pre2: FilterModel,
    post2: FilterModel,
    x: Seq<char>,
)
    requires
        pre1.wf(),
        pre2.num_bits == pre1.num_bits,
        pre2.k == pre1.k,
        pre1.bytes == pre2.bytes,
        post1.bytes.len() == pre1.bytes.len(),
        post2.bytes.len() == pre2.bytes.len(),
        forall|j: int|
            0 <= j < 8 * pre1.bytes.len() ==> (#[trigger] post1.bit(j) <==> (pre1.bit(j)
                || pre1.hits(x, j))),
        forall|j: int|
            0 <= j < 8 * pre2.bytes.len() ==> (#[trigger] post2.bit(j) <==> (pre2.bit(j)
                || pre2.hits(x, j))),
    ensures
        post1.bytes == post2.bytes,
{
    assert forall|j: int|
        0 <= j < 8 * post1.bytes.len() implies (#[trigger] bit_set(post1.bytes, j)
        <==> bit_set(post2.bytes, j)) by {
        if pre1.hits(x, j) {
            let i = choose|i: int| 0 <= i < pre1.k && index_spec(x, i, pre1.num_bits) == j;
            assert(0 <= i < pre2.k && index_spec(x, i, pre2.num_bits) == j);
            assert(pre2.hits(x, j));
        }
        if pre2.hits(x, j) {
            let i = choose|i: int| 0 <= i < pre2.k && index_spec(x, i, pre2.num_bits) == j;
            assert(0 <= i < pre1.k && index_spec(x, i, pre1.num_bits) == j);
            assert(pre1.hits(x, j));
        }
        assert(post1.bit(j) <==> post2.bit(j));
    }
    lemma_bits_determine_bytes(post1.bytes, post2.bytes);
}

/// Two freshly constructed filters with the same capacity, probability
/// and bit length hold no one bits and compare equal: they are
/// compatible and their buffers agree byte for byte.
pub proof fn lemma_fresh_filters_equal(a: FilterModel, b: FilterModel)
    requires
        a.wf(),
        b.wf(),
        a.capacity == b.capacity,
        a.p == b.p,
        a.num_bits == b.num_bits,
        forall|j: int| 0 <= j < a.bytes.len() ==> #[trigger] a.bytes[j] == 0u8,
        forall|j: int| 0 <= j < b.bytes.len() ==> #[trigger] b.bytes[j] == 0u8,
    ensures
        a.compatible(b),
        a.bytes == b.bytes,
{
    assert(a.p.same_ratio(b.p));
    assert(a.bytes =~= b.bytes);
}

impl crate::set_ops::SetOps for BloomFilter {
    type T = String;

    open spec fn inv(&self) -> bool {
        self@.wf()
    }

    open spec fn admits(e: &String) -> bool {
        e@.len() < MAX_KEY_CHARS
    }

    fn insert(&mut self, e: String) {
        self.insert(e)
    }

    fn contains(&self, e: String) -> bool {
        self.contains(e)
    }

    fn equals(&self, other: Self) -> bool {
        self.equals(other)
    }

    fn union(&self, other: Self) -> Result<Self, Error> {
        self.union(other)
    }

    fn intersection(&self, other: Self) -> Result<Self, Error> {
        self.intersection(other)
    }

    fn difference(&self, other: Self) -> Result<Self, Error> {
        self.difference(other)
    }
}

} // verus!
