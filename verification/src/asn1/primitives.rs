use vstd::prelude::*;

use super::{is_bad_value, prim, Element, Error, Result, Tag};
use crate::octets::{be_bytes, be_value, lemma_be_bytes_len, lemma_be_round_trip,
    lemma_be_value_round_trip, lemma_pow256_small, lemma_signed_value_bound, pow256, push_be,
    read_be, signed_value};
use vstd::arithmetic::power2::pow2;
use vstd::slice::{slice_subrange, slice_to_vec};

verus! {

/// The minimal two's-complement octets of `v`, most significant first.
pub open spec fn int_octets(v: int) -> Seq<u8>
    decreases (if v < 0 { -v } else { v }),
{
    if -128 <= v <= 127 {
        seq![(v % 256) as u8]
    } else {
        int_octets(v / 256).push((v % 256) as u8)
    }
}

/// The number of octets of the unsigned `v`: as many as leave the high bit of
/// the first octet clear.
pub open spec fn uint_octet_count(v: nat) -> nat
    decreases v,
{
    if v <= 0x7f {
        1
    } else {
        1 + uint_octet_count(v / 256)
    }
}

/// The unsigned content octets of `v`.
pub open spec fn uint_octets(v: nat) -> Seq<u8> {
    be_bytes(v, uint_octet_count(v))
}

/// The quotient and remainder of `v` by 256, rounding down.
fn split_low_octet(v: i64) -> (r: (i64, u8))
    ensures
        r.0 == v as int / 256,
        r.1 == v as int % 256,
{
    assert((v >> 8) == v / 256) by (bit_vector);
    assert((v & 0xff) == v % 256) by (bit_vector);
    (v >> 8, (v & 0xff) as u8)
}

/// Appends the minimal two's-complement content octets for `v` (no tag or
/// length).
pub fn append_int(dst: &mut Vec<u8>, v: i64)
    ensures
        final(dst)@ == old(dst)@ + int_octets(v as int),
    decreases (if v < 0 { -(v as int) } else { v as int }),
{
    let (high, low) = split_low_octet(v);
    if -0x80 <= v && v <= 0x7f {
        dst.push(low);
    } else {
        append_int(dst, high);
        dst.push(low);
    }
    assert(dst@ =~= old(dst)@ + int_octets(v as int));
}

/// Returns the minimal two's-complement octet count for `v`.
pub fn int_size(v: i64) -> (n: usize)
    ensures
        n == int_octets(v as int).len(),
        1 <= n <= 8,
{
    let mut n: usize = 1;
    let mut w: i64 = v;
    proof {
        int_round_trip(v);
    }
    while !(-0x80 <= w && w <= 0x7f)
        invariant
            1 <= n,
            n - 1 + int_octets(w as int).len() == int_octets(v as int).len(),
            int_octets(v as int).len() <= 8,
        decreases (if w < 0 { -(w as int) } else { w as int }),
    {
        let (high, low) = split_low_octet(w);
        w = high;
        proof {
            lemma_int_octets_nonempty(w as int);
        }
        n = n + 1;
    }
    n
}

proof fn lemma_int_octets_nonempty(v: int)
    ensures
        int_octets(v).len() >= 1,
    decreases (if v < 0 { -v } else { v }),
{
}

/// Decodes two's-complement content octets.
pub fn decode_int(content: &[u8]) -> (r: Result<i64>)
    ensures
        match r {
            Ok(v) => 1 <= content@.len() <= 8 && v == signed_value(content@),
            Err(e) => !(1 <= content@.len() <= 8) && is_bad_value(
                e,
                "integer of "@ + crate::text::decimal(content@.len()) + " octets"@,
            ),
        },
{
    if content.is_empty() || content.len() > 8 {
        return Err(Error::bad_count("integer of ", content.len(), " octets"));
    }
    let first: u8 = content[0];
    let mut v: i64 = if first < 128 {
        first as i64
    } else {
        first as i64 - 256
    };
    let mut i: usize = 1;
    while i < content.len()
        invariant
            1 <= i <= content@.len() <= 8,
            v == signed_value(content@.take(i as int)),
        decreases content@.len() - i,
    {
        proof {
            let next = content@.take(i + 1);
            assert(next.drop_last() =~= content@.take(i as int));
            lemma_signed_value_bound(next);
            lemma_pow256_small();
            lemma_pow256_mono(i as nat, 7);
            lemma_signed_value_bound(content@.take(i as int));
            lemma_pow256_mono((i - 1) as nat, 6);
            reveal_with_fuel(pow256, 9);
        }
        v = v * 256 + content[i] as i64;
        i = i + 1;
    }
    assert(content@.take(i as int) =~= content@);
    Ok(v)
}

/// The powers of 256 grow.
pub proof fn lemma_pow256_mono(a: nat, b: nat)
    requires
        a <= b,
    ensures
        pow256(a) <= pow256(b),
        pow256(a) >= 1,
    decreases b,
{
    if a < b {
        lemma_pow256_mono(a, (b - 1) as nat);
    } else if a > 0 {
        lemma_pow256_mono((a - 1) as nat, (b - 1) as nat);
    }
}

/// Appends minimal unsigned content octets for `v`, adding a leading zero
/// octet when the high bit would otherwise read as a sign.
pub fn append_uint(dst: &mut Vec<u8>, v: u64)
    ensures
        final(dst)@ == old(dst)@ + uint_octets(v as nat),
{
    let n: usize = uint_size(v);
    push_be(dst, v, n);
}

/// Returns the octet count [`append_uint`] produces for `v`.
pub fn uint_size(v: u64) -> (n: usize)
    ensures
        n == uint_octet_count(v as nat),
        n == uint_octets(v as nat).len(),
        1 <= n <= 9,
{
    let mut n: usize = 1;
    let mut w: u64 = v;
    proof {
        lemma_be_bytes_len(v as nat, uint_octet_count(v as nat));
        assert(uint_octet_count(v as nat) <= 9) by {
            reveal_with_fuel(uint_octet_count, 10);
        }
    }
    while w > 0x7f
        invariant
            1 <= n <= 9,
            n - 1 + uint_octet_count(w as nat) == uint_octet_count(v as nat),
            uint_octet_count(v as nat) <= 9,
        decreases w,
    {
        w = w / 256;
        n = n + 1;
        assert(uint_octet_count(w as nat) >= 1);
    }
    n
}

/// Whether unsigned content has a length that the decoder takes.
pub open spec fn uint_length_ok(content: Seq<u8>) -> bool {
    1 <= content.len() <= 8 || (content.len() == 9 && content[0] == 0)
}

/// Decodes unsigned content octets.
///
/// A leading zero octet is permitted, as produced for values with the top
/// bit set.
pub fn decode_uint(content: &[u8]) -> (r: Result<u64>)
    ensures
        match r {
            Ok(v) => uint_length_ok(content@) && v == be_value(content@),
            Err(e) => !uint_length_ok(content@) && is_bad_value(
                e,
                if content@.len() == 0 {
                    "empty unsigned"@
                } else {
                    "unsigned of "@ + crate::text::decimal(content@.len()) + " octets"@
                },
            ),
        },
{
    if content.is_empty() {
        return Err(Error::bad_value("empty unsigned"));
    }
    if content.len() > 9 || (content.len() == 9 && content[0] != 0) {
        return Err(Error::bad_count("unsigned of ", content.len(), " octets"));
    }
    proof {
        lemma_uint_fits(content@);
    }
    Ok(read_be(content))
}

proof fn lemma_uint_fits(s: Seq<u8>)
    requires
        uint_length_ok(s),
    ensures
        be_value(s) <= u64::MAX,
{
    lemma_pow256_small();
    if s.len() == 9 {
        lemma_be_value_skip_zero(s);
        lemma_be_value_round_trip(s.skip(1));
    } else {
        lemma_be_value_round_trip(s);
        lemma_pow256_mono(s.len(), 8);
    }
}

/// A leading zero octet adds nothing.
pub proof fn lemma_be_value_skip_zero(s: Seq<u8>)
    requires
        s.len() > 0,
        s[0] == 0,
    ensures
        be_value(s) == be_value(s.skip(1)),
    decreases s.len(),
{
    if s.len() > 1 {
        lemma_be_value_skip_zero(s.drop_last());
        assert(s.drop_last().skip(1) =~= s.skip(1).drop_last());
    } else {
        assert(s.drop_last() =~= Seq::<u8>::empty());
        assert(s.skip(1) =~= Seq::<u8>::empty());
    }
}

/// Returns an INTEGER-content primitive element with tag `t`.
pub fn int_elem(t: Tag, v: i64) -> (e: Element)
    ensures
        e matches Element::Primitive { tag, value } && tag == t && value@ == int_octets(v as int),
{
    let mut buf: Vec<u8> = Vec::with_capacity(int_size(v));
    append_int(&mut buf, v);
    assert(buf@ =~= int_octets(v as int));
    prim(t, buf)
}

/// Returns an unsigned-content primitive element with tag `t`.
pub fn uint_elem(t: Tag, v: u64) -> (e: Element)
    ensures
        e matches Element::Primitive { tag, value } && tag == t && value@ == uint_octets(v as nat),
{
    let mut buf: Vec<u8> = Vec::with_capacity(uint_size(v));
    append_uint(&mut buf, v);
    assert(buf@ =~= uint_octets(v as nat));
    prim(t, buf)
}

/// The content octet of a boolean.
pub open spec fn bool_octets(v: bool) -> Seq<u8> {
    if v {
        seq![0xffu8]
    } else {
        seq![0u8]
    }
}

/// Returns a BOOLEAN-content primitive element with tag `t`.
pub fn bool_elem(t: Tag, v: bool) -> (e: Element)
    ensures
        e matches Element::Primitive { tag, value } && tag == t && value@ == bool_octets(v),
{
    let mut buf: Vec<u8> = Vec::new();
    buf.push(if v { 0xff } else { 0x00 });
    assert(buf@ =~= bool_octets(v));
    prim(t, buf)
}

/// Decodes BOOLEAN content octets.
pub fn decode_bool(content: &[u8]) -> (r: Result<bool>)
    ensures
        match r {
            Ok(v) => content@.len() == 1 && v == (content@[0] != 0),
            Err(e) => content@.len() != 1 && is_bad_value(
                e,
                "boolean of "@ + crate::text::decimal(content@.len()) + " octets"@,
            ),
        },
{
    if content.len() != 1 {
        return Err(Error::bad_count("boolean of ", content.len(), " octets"));
    }
    Ok(content[0] != 0)
}

/// The octet with bit `k` set alone, counted from the most significant.
pub open spec fn mask(k: int) -> u8 {
    0x80u8 >> (k as u8)
}

/// Bit `i` of `bits`, counted from the most significant bit of the first
/// octet.
pub open spec fn bit_at(bits: Seq<u8>, i: int) -> bool {
    bits[i / 8] & mask(i % 8) != 0
}

/// A BER bit string: `bits` holds the packed bits MSB-first, `length` is the
/// number of valid bits.
#[derive(Debug, Clone, PartialEq, Eq)]
pub struct BitString {
    pub bits: Vec<u8>,
    pub length: usize,
}

impl Default for BitString {
    fn default() -> (b: BitString)
        ensures
            b.bits@.len() == 0,
            b.length == 0,
            b.wf(),
    {
        BitString { bits: Vec::new(), length: 0 }
    }
}

/// Setting a bit of an octet sets that bit alone.
proof fn lemma_mask_set(b: u8, k: u8, j: u8)
    by (bit_vector)
    requires
        k < 8,
        j < 8,
    ensures
        ((b | (0x80u8 >> k)) & (0x80u8 >> j) != 0) == (k == j || b & (0x80u8 >> j) != 0),
        ((b & !(0x80u8 >> k)) & (0x80u8 >> j) != 0) == (k != j && b & (0x80u8 >> j) != 0),
{
}

/// An octet of zero has no bit set.
pub proof fn lemma_zero_bits(j: u8)
    by (bit_vector)
    ensures
        0u8 & (0x80u8 >> j) == 0,
{
}

impl BitString {
    /// The octets hold the valid bits.
    pub open spec fn wf(&self) -> bool {
        self.length <= self.bits@.len() * 8
    }

    /// Bit `i`; bits out of range read as false.
    pub open spec fn spec_bit(&self, i: int) -> bool {
        0 <= i < self.length && bit_at(self.bits@, i)
    }

    /// The first `n` bits as an integer, bit 0 weighing 1.
    pub open spec fn low_bits(&self, n: nat) -> nat
        decreases n,
    {
        if n == 0 {
            0
        } else {
            self.low_bits((n - 1) as nat) + if self.spec_bit(n - 1) {
                pow2((n - 1) as nat)
            } else {
                0
            }
        }
    }

    /// Returns an all-zero bit string of `n` bits.
    pub fn new(n: usize) -> (b: BitString)
        ensures
            b.length == n,
            b.bits@ == Seq::new(((n + 7) / 8) as nat, |i: int| 0u8),
            b.wf(),
            forall|i: int| !b.spec_bit(i),
    {
        let count: usize = n / 8 + if n % 8 == 0 {
            0
        } else {
            1
        };
        let mut bits: Vec<u8> = Vec::with_capacity(count);
        while bits.len() < count
            invariant
                bits@.len() <= count,
                forall|i: int| 0 <= i < bits@.len() ==> bits@[i] == 0,
            decreases count - bits@.len(),
        {
            bits.push(0);
        }
        let b = BitString { bits, length: n };
        proof {
            assert(b.bits@ =~= Seq::new(((n + 7) / 8) as nat, |i: int| 0u8));
            assert forall|i: int| !b.spec_bit(i) by {
                if 0 <= i < n {
                    lemma_zero_bits((i % 8) as u8);
                }
            }
        }
        b
    }

    /// Returns bit `i` (0 = MSB of the first octet), false when out of range.
    pub fn bit(&self, i: usize) -> (b: bool)
        requires
            i < self.length ==> i < self.bits@.len() * 8,
        ensures
            b == self.spec_bit(i as int),
    {
        if i >= self.length {
            return false;
        }
        let k: u8 = (i % 8) as u8;
        self.bits[i / 8] & (0x80u8 >> k) != 0
    }

    /// Sets bit `i` to `v`; out-of-range indices are ignored.
    pub fn set_bit(&mut self, i: usize, v: bool)
        requires
            i < old(self).length ==> i < old(self).bits@.len() * 8,
        ensures
            final(self).length == old(self).length,
            final(self).bits@ == (if i >= old(self).length {
                old(self).bits@
            } else {
                old(self).bits@.update(
                    i as int / 8,
                    if v {
                        old(self).bits@[i as int / 8] | mask(i as int % 8)
                    } else {
                        old(self).bits@[i as int / 8] & !mask(i as int % 8)
                    },
                )
            }),
            forall|j: int|
                0 <= j < old(self).length && old(self).wf() ==> #[trigger] final(self).spec_bit(j)
                    == (if j == i {
                    v
                } else {
                    old(self).spec_bit(j)
                }),
            forall|j: int|
                0 <= j < old(self).bits@.len() * 8 ==> #[trigger] bit_at(final(self).bits@, j) == (
                if j == i && i < old(self).length {
                    v
                } else {
                    bit_at(old(self).bits@, j)
                }),
    {
        if i >= self.length {
            return;
        }
        let k: u8 = (i % 8) as u8;
        let b: u8 = self.bits[i / 8];
        if v {
            self.bits.set(i / 8, b | (0x80u8 >> k));
        } else {
            self.bits.set(i / 8, b & !(0x80u8 >> k));
        }
        proof {
            assert forall|j: int| 0 <= j < old(self).bits@.len() * 8 implies #[trigger] bit_at(
                self.bits@,
                j,
            ) == (if j == i {
                v
            } else {
                bit_at(old(self).bits@, j)
            }) by {
                if j / 8 == i as int / 8 {
                    lemma_mask_set(b, k, (j % 8) as u8);
                }
            }
        }
    }

    /// Returns the bit string as a `u32`, bit 0 being the most significant
    /// bit of the first octet. Used by the fixed-width IEC 61850 bit strings
    /// (Quality, TrgOps, OptFlds).
    pub fn to_u32(&self) -> (v: u32)
        requires
            self.wf(),
        ensures
            v == self.low_bits(if self.length < 32 { self.length as nat } else { 32 }),
    {
        let n: usize = if self.length < 32 {
            self.length
        } else {
            32
        };
        let mut v: u64 = 0;
        let mut w: u64 = 1;
        let mut i: usize = 0;
        proof {
            vstd::arithmetic::power2::lemma2_to64();
        }
        while i < n
            invariant
                i <= n <= 32,
                n <= self.length,
                self.wf(),
                w == pow2(i as nat),
                v == self.low_bits(i as nat),
                v < pow2(i as nat),
                pow2(32) == 0x1_0000_0000,
            decreases n - i,
        {
            proof {
                vstd::arithmetic::power2::lemma_pow2_unfold(i as nat + 1);
                lemma_pow2_mono(i as nat, 32);
            }
            if self.bit(i) {
                v = v + w;
            }
            w = w * 2;
            i = i + 1;
        }
        proof {
            lemma_pow2_mono(n as nat, 32);
        }
        v as u32
    }

    /// Returns an `n`-bit string built from `v`, bit 0 being the most
    /// significant bit of the first octet; the padding is clear.
    pub fn from_u32(v: u32, n: usize) -> (b: BitString)
        ensures
            b.length == n,
            b.bits@.len() == (n + 7) / 8,
            b.wf(),
            forall|i: int|
                #![trigger b.spec_bit(i)]
                0 <= i < n ==> b.spec_bit(i) == (i < 32 && (v as nat / pow2(i as nat)) % 2 == 1),
            forall|i: int| n <= i < b.bits@.len() * 8 ==> !#[trigger] bit_at(b.bits@, i),
    {
        let m: usize = if n < 32 {
            n
        } else {
            32
        };
        let mut bs = BitString::new(n);
        let mut rest: u32 = v;
        let mut i: usize = 0;
        proof {
            vstd::arithmetic::power2::lemma2_to64();
            assert forall|j: int| n <= j < bs.bits@.len() * 8 implies !#[trigger] bit_at(
                bs.bits@,
                j,
            ) by {
                lemma_zero_bits((j % 8) as u8);
            }
        }
        while i < m
            invariant
                i <= m <= 32,
                m <= n,
                m < 32 ==> m == n,
                bs.length == n,
                bs.bits@.len() == (n + 7) / 8,
                bs.wf(),
                rest == v as nat / pow2(i as nat),
                forall|j: int|
                    #![trigger bs.spec_bit(j)]
                    0 <= j < n ==> bs.spec_bit(j) == (j < i && (v as nat / pow2(j as nat)) % 2
                        == 1),
                forall|j: int| n <= j < bs.bits@.len() * 8 ==> !#[trigger] bit_at(bs.bits@, j),
            decreases m - i,
        {
            let ghost before = bs;
            bs.set_bit(i, rest % 2 == 1);
            proof {
                vstd::arithmetic::power2::lemma_pow2_unfold(i as nat + 1);
                vstd::arithmetic::power2::lemma_pow2_pos(i as nat);
                vstd::arithmetic::div_mod::lemma_div_denominator(
                    v as int,
                    pow2(i as nat) as int,
                    2,
                );
                assert(pow2(i as nat) * 2 == 2 * pow2(i as nat));
            }
            rest = rest / 2;
            i = i + 1;
        }
        bs
    }
}

/// The powers of two grow.
pub proof fn lemma_pow2_mono(a: nat, b: nat)
    requires
        a <= b,
    ensures
        pow2(a) <= pow2(b),
{
    if a < b {
        vstd::arithmetic::power2::lemma_pow2_strictly_increases(a, b);
    }
}

/// The content octets of a bit string: the padding count, then the packed
/// bits.
pub open spec fn bit_string_octets(bits: Seq<u8>, length: nat) -> Seq<u8> {
    seq![((bits.len() * 8 - length) % 256) as u8] + bits
}

/// Appends bit string content octets (padding count prefix then packed bits).
pub fn append_bit_string(dst: &mut Vec<u8>, bs: &BitString)
    requires
        bs.wf(),
        bs.bits@.len() * 8 <= usize::MAX,
    ensures
        final(dst)@ == old(dst)@ + bit_string_octets(bs.bits@, bs.length as nat),
{
    let pad: usize = bs.bits.len() * 8 - bs.length;
    dst.push((pad % 256) as u8);
    dst.extend_from_slice(bs.bits.as_slice());
    assert(dst@ =~= old(dst)@ + bit_string_octets(bs.bits@, bs.length as nat));
}

/// Whether bit string content is well formed.
pub open spec fn bit_string_ok(content: Seq<u8>) -> bool {
    content.len() > 0 && content[0] <= 7 && (content.len() == 1 ==> content[0] == 0)
}

/// Decodes bit string content octets.
pub fn decode_bit_string(content: &[u8]) -> (r: Result<BitString>)
    requires
        content@.len() * 8 <= usize::MAX,
    ensures
        match r {
            Ok(bs) => {
                &&& bit_string_ok(content@)
                &&& bs.bits@ == content@.skip(1)
                &&& bs.length == (content@.len() - 1) * 8 - content@[0]
                &&& bs.wf()
            },
            Err(e) => !bit_string_ok(content@) && is_bad_value(
                e,
                if content@.len() == 0 {
                    "empty bit string"@
                } else {
                    "bit string padding "@ + crate::text::decimal(content@[0] as nat) + ""@
                },
            ),
        },
{
    if content.is_empty() {
        return Err(Error::bad_value("empty bit string"));
    }
    let pad: usize = content[0] as usize;
    let bits = slice_subrange(content, 1, content.len());
    if pad > 7 || (bits.is_empty() && pad != 0) {
        return Err(Error::bad_count("bit string padding ", pad, ""));
    }
    Ok(BitString { bits: slice_to_vec(bits), length: bits.len() * 8 - pad })
}

/// Returns a bit-string-content primitive element with tag `t`.
pub fn bit_string_elem(t: Tag, bs: &BitString) -> (e: Element)
    requires
        bs.wf(),
        bs.bits@.len() * 8 <= usize::MAX,
    ensures
        e matches Element::Primitive { tag, value } && tag == t && value@ == bit_string_octets(
            bs.bits@,
            bs.length as nat,
        ),
{
    let mut buf: Vec<u8> = Vec::new();
    append_bit_string(&mut buf, bs);
    assert(buf@ =~= bit_string_octets(bs.bits@, bs.length as nat));
    prim(t, buf)
}

/// The IEEE 754 bit pattern of an MMS floating-point value, at the width it
/// was sent with.
#[derive(Debug, Clone, Copy, PartialEq, Eq, Structural)]
pub enum FloatBits {
    Single(u32),
    Double(u64),
}

/// MMS FloatingPoint content octets: the exponent width, then the big-endian
/// bit pattern.
pub open spec fn float_octets(v: FloatBits) -> Seq<u8> {
    match v {
        FloatBits::Single(bits) => seq![8u8] + be_bytes(bits as nat, 4),
        FloatBits::Double(bits) => seq![11u8] + be_bytes(bits as nat, 8),
    }
}

/// Appends MMS FloatingPoint content octets for the bit pattern of a 32-bit
/// IEEE 754 value: one exponent-width octet (8) then the big-endian value.
///
/// MMS floats are not ASN.1 REALs; this format is shared by MMS, GOOSE and
/// SV, so it lives here.
pub fn append_float32(dst: &mut Vec<u8>, bits: u32)
    ensures
        final(dst)@ == old(dst)@ + float_octets(FloatBits::Single(bits)),
{
    dst.push(8);
    push_be(dst, bits as u64, 4);
    assert(dst@ =~= old(dst)@ + float_octets(FloatBits::Single(bits)));
}

/// Appends MMS FloatingPoint content octets for the bit pattern of a 64-bit
/// IEEE 754 value (exponent width 11).
pub fn append_float64(dst: &mut Vec<u8>, bits: u64)
    ensures
        final(dst)@ == old(dst)@ + float_octets(FloatBits::Double(bits)),
{
    dst.push(11);
    push_be(dst, bits, 8);
    assert(dst@ =~= old(dst)@ + float_octets(FloatBits::Double(bits)));
}

/// Decodes MMS FloatingPoint content octets into the bit pattern they carry.
pub fn decode_float(content: &[u8]) -> (r: Result<FloatBits>)
    ensures
        match r {
            Ok(FloatBits::Single(bits)) => content@.len() == 5 && bits == be_value(content@.skip(1)),
            Ok(FloatBits::Double(bits)) => content@.len() == 9 && bits == be_value(content@.skip(1)),
            Err(e) => content@.len() != 5 && content@.len() != 9 && is_bad_value(
                e,
                "floating point of "@ + crate::text::decimal(content@.len()) + " octets"@,
            ),
        },
{
    if content.len() != 5 && content.len() != 9 {
        return Err(Error::bad_count("floating point of ", content.len(), " octets"));
    }
    let rest = slice_subrange(content, 1, content.len());
    proof {
        lemma_be_value_round_trip(rest@);
        lemma_pow256_small();
    }
    let bits: u64 = read_be(rest);
    if content.len() == 5 {
        Ok(FloatBits::Single(bits as u32))
    } else {
        Ok(FloatBits::Double(bits))
    }
}

/// An integer that was written reads back, in one to eight octets.
pub proof fn int_round_trip(v: i64)
    ensures
        1 <= int_octets(v as int).len() <= 8,
        signed_value(int_octets(v as int)) == v,
{
    lemma_pow256_small();
    lemma_int_round_trip(v as int, 7);
}

proof fn lemma_int_round_trip(v: int, n: nat)
    requires
        -128 * pow256(n) <= v < 128 * pow256(n),
    ensures
        1 <= int_octets(v).len() <= n + 1,
        signed_value(int_octets(v)) == v,
    decreases n,
{
    if !(-128 <= v <= 127) {
        if n == 0 {
            assert(pow256(0) == 1);
        } else {
            lemma_int_round_trip(v / 256, (n - 1) as nat);
            assert(int_octets(v).drop_last() =~= int_octets(v / 256));
        }
    }
}

/// No octet string that stands for `v` is shorter than the one written.
pub proof fn int_octets_minimal(v: int, s: Seq<u8>)
    requires
        s.len() > 0,
        signed_value(s) == v,
    ensures
        int_octets(v).len() <= s.len(),
    decreases s.len(),
{
    if !(-128 <= v <= 127) {
        lemma_signed_value_bound(s);
        if s.len() == 1 {
            assert(pow256(0) == 1);
        } else {
            assert(signed_value(s.drop_last()) == v / 256);
            int_octets_minimal(v / 256, s.drop_last());
        }
    }
}

/// An unsigned integer that was written reads back, and never with the high
/// bit of its first octet set, so it does not read as negative.
pub proof fn uint_round_trip(v: u64)
    ensures
        uint_length_ok(uint_octets(v as nat)),
        be_value(uint_octets(v as nat)) == v,
        uint_octets(v as nat)[0] < 0x80,
{
    let n = uint_octet_count(v as nat);
    lemma_pow256_small();
    lemma_uint_count(v as nat, 8);
    lemma_be_round_trip(v as nat, n);
    if n == 9 {
        lemma_uint_first(v as nat);
        lemma_first_octet(v as nat, 9);
        reveal_with_fuel(pow256, 10);
    } else {
        lemma_uint_first(v as nat);
    }
}

proof fn lemma_uint_count(v: nat, n: nat)
    requires
        v < pow256(n),
    ensures
        1 <= uint_octet_count(v) <= n + 1,
        v < pow256(uint_octet_count(v)),
    decreases n,
{
    if v > 0x7f {
        if n == 0 {
            assert(pow256(0) == 1);
        } else {
            lemma_uint_count(v / 256, (n - 1) as nat);
        }
    } else {
        assert(pow256(1) == 256 * pow256(0));
    }
}

proof fn lemma_uint_first(v: nat)
    ensures
        uint_octets(v).len() >= 1,
        uint_octets(v)[0] < 0x80,
    decreases v,
{
    if v > 0x7f {
        lemma_uint_first(v / 256);
        lemma_be_bytes_len(v / 256, uint_octet_count(v / 256));
    } else {
        assert(be_bytes(v, 1) =~= seq![v as u8]) by {
            reveal_with_fuel(be_bytes, 2);
        }
    }
}

/// The first octet of a value that fits one octet less is zero.
proof fn lemma_first_octet(v: nat, n: nat)
    requires
        n > 0,
        v < pow256((n - 1) as nat),
    ensures
        be_bytes(v, n).len() == n,
        be_bytes(v, n)[0] == 0,
    decreases n,
{
    lemma_be_bytes_len(v, n);
    if n > 1 {
        lemma_first_octet(v / 256, (n - 1) as nat);
    } else {
        assert(pow256(0) == 1);
        reveal_with_fuel(be_bytes, 2);
    }
}

/// A well-formed bit string with less than an octet of padding reads back.
pub proof fn bit_string_round_trip(bits: Seq<u8>, length: nat)
    requires
        length <= bits.len() * 8 < length + 8,
    ensures
        ({
            let s = bit_string_octets(bits, length);
            &&& bit_string_ok(s)
            &&& s.skip(1) == bits
            &&& (s.len() - 1) * 8 - s[0] == length
        }),
{
    assert(bit_string_octets(bits, length).skip(1) =~= bits);
}

/// The integer made of a bit string built from `v` is `v` cut to its width.
pub proof fn bit_string_u32_symmetric(v: u32, b: BitString, n: nat)
    requires
        n <= 32,
        n <= b.length,
        forall|i: int|
            #![trigger b.spec_bit(i)]
            0 <= i < b.length ==> b.spec_bit(i) == (i < 32 && (v as nat / pow2(i as nat)) % 2 == 1),
    ensures
        b.low_bits(n) == v as nat % pow2(n),
    decreases n,
{
    vstd::arithmetic::power2::lemma2_to64();
    if n == 0 {
        assert(v as nat % 1 == 0);
    } else {
        let m = (n - 1) as nat;
        bit_string_u32_symmetric(v, b, m);
        vstd::arithmetic::power2::lemma_pow2_unfold(n);
        vstd::arithmetic::power2::lemma_pow2_pos(m);
        vstd::arithmetic::div_mod::lemma_mod_breakdown(v as int, pow2(m) as int, 2);
        assert(pow2(m) * 2 == 2 * pow2(m));
        let bit = (v as nat / pow2(m)) % 2;
        assert(b.spec_bit(m as int) == (bit == 1));
        assert(pow2(m) * bit == if bit == 1 { pow2(m) } else { 0 }) by (nonlinear_arith)
            requires
                bit == 0 || bit == 1,
        ;
    }
}

/// A floating-point bit pattern that was written reads back.
pub proof fn float_round_trip(v: FloatBits)
    ensures
        match v {
            FloatBits::Single(bits) => float_octets(v).len() == 5 && be_value(
                float_octets(v).skip(1),
            ) == bits,
            FloatBits::Double(bits) => float_octets(v).len() == 9 && be_value(
                float_octets(v).skip(1),
            ) == bits,
        },
{
    lemma_pow256_small();
    match v {
        FloatBits::Single(bits) => {
            lemma_be_round_trip(bits as nat, 4);
            assert(float_octets(v).skip(1) =~= be_bytes(bits as nat, 4));
        },
        FloatBits::Double(bits) => {
            lemma_be_round_trip(bits as nat, 8);
            assert(float_octets(v).skip(1) =~= be_bytes(bits as nat, 8));
        },
    }
}

/// The bits of an octet are counted from its most significant one.
pub proof fn the_first_bit_is_the_most_significant(bits: Seq<u8>, i: int)
    requires
        0 <= i < bits.len() * 8,
    ensures
        bit_at(bits, i) <==> bits[i / 8] / seq![128u8, 64, 32, 16, 8, 4, 2, 1][i % 8] % 2 == 1,
{
    let b = bits[i / 8];
    assert((b & (0x80u8 >> 0u8) != 0) == (b / 128 % 2 == 1) && (b & (0x80u8 >> 1u8) != 0) == (b / 64
        % 2 == 1) && (b & (0x80u8 >> 2u8) != 0) == (b / 32 % 2 == 1) && (b & (0x80u8 >> 3u8) != 0)
        == (b / 16 % 2 == 1) && (b & (0x80u8 >> 4u8) != 0) == (b / 8 % 2 == 1) && (b & (0x80u8
        >> 5u8) != 0) == (b / 4 % 2 == 1) && (b & (0x80u8 >> 6u8) != 0) == (b / 2 % 2 == 1) && (b
        & (0x80u8 >> 7u8) != 0) == (b / 1 % 2 == 1)) by (bit_vector);
}

/// A number that fits in seven bits is its own octet, and no other number's
/// octets start with nine equal bits: none can be left out.
pub proof fn an_integer_has_no_spare_octet(v: int)
    ensures
        0 <= v < 128 ==> int_octets(v) == seq![v as u8],
        -128 <= v < 0 ==> int_octets(v) == seq![(256 + v) as u8],
        int_octets(v).len() > 1 ==> !(int_octets(v)[0] == 0 && int_octets(v)[1] < 128) && !(
        int_octets(v)[0] == 255 && int_octets(v)[1] >= 128),
    decreases (if v < 0 { -v } else { v }),
{
    if !(-128 <= v <= 127) {
        an_integer_has_no_spare_octet(v / 256);
        if -128 <= v / 256 <= 127 {
            assert(int_octets(v / 256) == seq![((v / 256) % 256) as u8]);
        } else {
            assert(int_octets(v / 256).len() > 1) by {
                reveal_with_fuel(int_octets, 3);
            }
        }
    }
}

/// A boolean that is set is an octet of ones, and one that is not of zeros.
pub proof fn a_boolean_fills_its_octet(v: bool)
    ensures
        bool_octets(v).len() == 1,
        bool_octets(v)[0] == if v { 255u8 } else { 0 },
{
}

/// A floating-point value is led by the width of its exponent, which tells
/// the two formats apart, and stands most significant octet first.
pub proof fn a_float_is_led_by_its_exponent_width(v: FloatBits)
    ensures
        match v {
            FloatBits::Single(bits) => {
                &&& float_octets(v)[0] == 8
                &&& float_octets(v)[1] == bits / 0x100_0000
            },
            FloatBits::Double(bits) => {
                &&& float_octets(v)[0] == 11
                &&& float_octets(v)[1] == bits / 0x100_0000_0000_0000
            },
        },
{
    reveal_with_fuel(be_bytes, 9);
}

} // verus!
