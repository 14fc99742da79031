//! Base-128 numbers, as used by high tag numbers and object identifiers.

use vstd::prelude::*;

verus! {

/// The octets of `v` in base 128, each with its high bit set: the part of a
/// number in front of its final octet.
pub open spec fn base128_more(v: nat) -> Seq<u8>
    decreases v,
{
    if v < 128 {
        seq![(128 + v) as u8]
    } else {
        base128_more(v / 128).push((128 + v % 128) as u8)
    }
}

/// The minimal base-128 notation of `v`, most significant octet first, high
/// bit set on all but the last octet.
pub open spec fn base128(v: nat) -> Seq<u8> {
    if v < 128 {
        seq![v as u8]
    } else {
        base128_more(v / 128).push((v % 128) as u8)
    }
}

/// What reading one base-128 number can come to.
pub enum Base128Read {
    /// A number, and the offset behind its last octet.
    Value { v: u32, off: usize },
    /// The octets end, at `off`, before the number does.
    End { off: usize },
    /// The number has more than five octets; the sixth is at `off`.
    Long { off: usize },
}

/// Reads on in a base-128 number of which `n` octets, worth `acc`, lie before
/// `off`. Bits beyond the low 32 are dropped.
pub open spec fn base128_at(s: Seq<u8>, off: int, acc: u32, n: nat) -> Base128Read
    decreases s.len() - off,
{
    if off >= s.len() {
        Base128Read::End { off: off as usize }
    } else if n >= 5 {
        Base128Read::Long { off: off as usize }
    } else {
        let v = ((acc % 0x200_0000) * 128 + s[off] % 128) as u32;
        if s[off] < 128 {
            Base128Read::Value { v, off: (off + 1) as usize }
        } else {
            base128_at(s, off + 1, v, n + 1)
        }
    }
}

/// The offset at which a read stopped, and how it lies to the start.
pub proof fn lemma_base128_at_off(s: Seq<u8>, off: int, acc: u32, n: nat)
    requires
        0 <= off <= s.len() <= usize::MAX,
    ensures
        match base128_at(s, off, acc, n) {
            Base128Read::Value { v, off: o } => off < o <= s.len(),
            Base128Read::End { off: o } => off <= o && o == s.len(),
            Base128Read::Long { off: o } => off <= o < s.len(),
        },
    decreases s.len() - off,
{
    if off < s.len() && n < 5 && s[off] >= 128 {
        let v = ((acc % 0x200_0000) * 128 + s[off] % 128) as u32;
        lemma_base128_at_off(s, off + 1, v, n + 1);
    }
}

/// The number of octets of a 32-bit number.
pub proof fn lemma_base128_len(v: nat)
    ensures
        v < 0x80 ==> base128(v).len() == 1,
        0x80 <= v < 0x4000 ==> base128(v).len() == 2,
        0x4000 <= v < 0x20_0000 ==> base128(v).len() == 3,
        0x20_0000 <= v < 0x1000_0000 ==> base128(v).len() == 4,
        0x1000_0000 <= v < 0x8_0000_0000 ==> base128(v).len() == 5,
{
    reveal_with_fuel(base128_more, 5);
}

/// Reading over the octets in front of the last one collects their value.
proof fn lemma_read_more(p: Seq<u8>, v: nat, r: Seq<u8>)
    requires
        v < 0x200_0000,
        p.len() + base128_more(v).len() + r.len() <= usize::MAX,
    ensures
        1 <= base128_more(v).len() <= 4,
        base128_at(p + base128_more(v) + r, p.len() as int, 0, 0) == base128_at(
            p + base128_more(v) + r,
            (p.len() + base128_more(v).len()) as int,
            v as u32,
            base128_more(v).len(),
        ),
    decreases v,
{
    let s = p + base128_more(v) + r;
    assert(base128_more(v).len() <= 4) by {
        reveal_with_fuel(base128_more, 5);
    }
    if v < 128 {
        assert(s[p.len() as int] == (128 + v) as u8);
    } else {
        let m = base128_more(v / 128);
        let last = (128 + v % 128) as u8;
        let r2 = seq![last] + r;
        assert(base128_more(v) =~= m + seq![last]);
        assert(s =~= p + m + r2);
        lemma_read_more(p, v / 128, r2);
        let o = (p.len() + m.len()) as int;
        assert(s[o] == last);
        assert(((v / 128) % 0x200_0000) * 128 + last as nat % 128 == v);
    }
}

/// Reading a number that was written gives it back, and stops behind it.
pub proof fn lemma_base128_round_trip(p: Seq<u8>, v: u32, r: Seq<u8>)
    requires
        p.len() + base128(v as nat).len() + r.len() <= usize::MAX,
    ensures
        1 <= base128(v as nat).len() <= 5,
        base128_at(p + base128(v as nat) + r, p.len() as int, 0, 0) == (Base128Read::Value {
            v,
            off: (p.len() + base128(v as nat).len()) as usize,
        }),
{
    let n = v as nat;
    lemma_base128_len(n);
    let s = p + base128(n) + r;
    if n < 128 {
        assert(s[p.len() as int] == v as u8);
    } else {
        let m = base128_more(n / 128);
        let last = (n % 128) as u8;
        let r2 = seq![last] + r;
        assert(s =~= p + m + r2);
        lemma_read_more(p, n / 128, r2);
        assert(s[(p.len() + m.len()) as int] == last);
        assert(((n / 128) % 0x200_0000) * 128 + last as nat % 128 == n);
    }
}

/// The octets in front of the last one have their high bit set.
proof fn lemma_more_is_high(v: nat)
    ensures
        forall|i: int| 0 <= i < base128_more(v).len() ==> #[trigger] base128_more(v)[i] >= 128,
    decreases v,
{
    if v >= 128 {
        let front = base128_more(v / 128);
        lemma_more_is_high(v / 128);
        assert forall|i: int| 0 <= i < base128_more(v).len() implies #[trigger] base128_more(v)[i]
            >= 128 by {
            if i < front.len() {
                assert(base128_more(v)[i] == front[i]);
            } else {
                assert(base128_more(v)[i] == (128 + v % 128) as u8);
            }
        }
    }
}

/// Octets with their high bit set are no number: they want another one.
proof fn lemma_high_octets_want_more(s: Seq<u8>, off: int, acc: u32, n: nat)
    requires
        0 <= off <= s.len(),
        forall|i: int| off <= i < s.len() ==> #[trigger] s[i] >= 128,
    ensures
        !(base128_at(s, off, acc, n) is Value),
    decreases s.len() - off,
{
    if off < s.len() && n < 5 {
        let v = ((acc % 0x200_0000) * 128 + s[off] % 128) as u32;
        lemma_high_octets_want_more(s, off + 1, v, n + 1);
    }
}

/// A number that was cut off does not read as one.
pub proof fn lemma_base128_cut(p: Seq<u8>, v: nat, k: int)
    requires
        0 <= k < base128(v).len(),
    ensures
        !(base128_at(p + base128(v).take(k), p.len() as int, 0, 0) is Value),
{
    if v >= 128 {
        lemma_more_is_high(v / 128);
        let s = p + base128(v).take(k);
        assert forall|i: int| p.len() <= i < s.len() implies #[trigger] s[i] >= 128 by {
            assert(s[i] == base128_more(v / 128)[i - p.len()]);
        }
    }
    lemma_high_octets_want_more(p + base128(v).take(k), p.len() as int, 0, 0);
}

/// Appends the base-128 notation of `v`, all octets with the high bit set.
fn append_base128_more(dst: &mut Vec<u8>, v: u32)
    ensures
        final(dst)@ == old(dst)@ + base128_more(v as nat),
    decreases v,
{
    if v < 128 {
        dst.push(128 + v as u8);
    } else {
        append_base128_more(dst, v / 128);
        dst.push(128 + (v % 128) as u8);
    }
    assert(dst@ =~= old(dst)@ + base128_more(v as nat));
}

/// Appends the minimal base-128 notation of `v`.
pub fn append_base128(dst: &mut Vec<u8>, v: u32)
    ensures
        final(dst)@ == old(dst)@ + base128(v as nat),
{
    if v < 128 {
        dst.push(v as u8);
    } else {
        append_base128_more(dst, v / 128);
        dst.push((v % 128) as u8);
    }
    assert(dst@ =~= old(dst)@ + base128(v as nat));
}

/// Reads one base-128 number of at most five octets, starting at `start`.
pub fn read_base128(s: &[u8], start: usize) -> (r: Base128Read)
    requires
        start <= s@.len(),
    ensures
        r == base128_at(s@, start as int, 0, 0),
{
    let mut off: usize = start;
    let mut acc: u32 = 0;
    let mut n: usize = 0;
    loop
        invariant
            start <= off <= s@.len(),
            n <= 5,
            base128_at(s@, start as int, 0, 0) == base128_at(s@, off as int, acc, n as nat),
        decreases s@.len() - off,
    {
        if off >= s.len() {
            return Base128Read::End { off };
        }
        if n >= 5 {
            return Base128Read::Long { off };
        }
        let c: u8 = s[off];
        let v: u32 = (acc % 0x200_0000) * 128 + (c % 128) as u32;
        off = off + 1;
        if c < 128 {
            return Base128Read::Value { v, off };
        }
        acc = v;
        n = n + 1;
    }
}

/// A number in base 128 grows by one octet for each further seven bits: the
/// octet that was last gets its high bit set, and the new one stands behind it.
pub proof fn a_septet_more_follows(v: nat, d: nat)
    requires
        v > 0,
        d < 128,
    ensures
        base128(d) == seq![d as u8],
        base128(v * 128 + d) == base128(v).drop_last().push(
            (128 + base128(v).last()) as u8,
        ).push(d as u8),
{
    assert((v * 128 + d) / 128 == v && (v * 128 + d) % 128 == d);
    if v >= 128 {
        assert(base128(v).drop_last() =~= base128_more(v / 128));
    } else {
        assert(base128(v).drop_last() =~= Seq::<u8>::empty());
        assert(base128_more(v) =~= Seq::<u8>::empty().push((128 + v) as u8));
    }
}

} // verus!
