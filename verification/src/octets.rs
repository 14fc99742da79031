//! Big-endian octet strings and the integers they stand for.

use vstd::prelude::*;

verus! {

/// `256` to the power `n`.
pub open spec fn pow256(n: nat) -> nat
    decreases n,
{
    if n == 0 {
        1
    } else {
        256 * pow256((n - 1) as nat)
    }
}

/// The `n` low octets of `v`, most significant first.
pub open spec fn be_bytes(v: nat, n: nat) -> Seq<u8>
    decreases n,
{
    if n == 0 {
        Seq::empty()
    } else {
        be_bytes(v / 256, (n - 1) as nat).push((v % 256) as u8)
    }
}

/// The unsigned integer that `s` stands for, most significant octet first.
pub open spec fn be_value(s: Seq<u8>) -> nat
    decreases s.len(),
{
    if s.len() == 0 {
        0
    } else {
        be_value(s.drop_last()) * 256 + s.last() as nat
    }
}

/// The two's-complement integer that `s` stands for, most significant octet
/// first.
pub open spec fn signed_value(s: Seq<u8>) -> int
    decreases s.len(),
{
    if s.len() == 0 {
        0
    } else if s.len() == 1 {
        if s[0] < 128 {
            s[0] as int
        } else {
            s[0] as int - 256
        }
    } else {
        signed_value(s.drop_last()) * 256 + s.last() as int
    }
}

/// Writing `v` in `n` octets gives `n` octets.
pub proof fn lemma_be_bytes_len(v: nat, n: nat)
    ensures
        be_bytes(v, n).len() == n,
    decreases n,
{
    if n > 0 {
        lemma_be_bytes_len(v / 256, (n - 1) as nat);
    }
}

/// Reading back what was written in `n` octets gives the value, where it fits.
pub proof fn lemma_be_round_trip(v: nat, n: nat)
    requires
        v < pow256(n),
    ensures
        be_bytes(v, n).len() == n,
        be_value(be_bytes(v, n)) == v,
    decreases n,
{
    if n > 0 {
        assert(v / 256 < pow256((n - 1) as nat));
        lemma_be_round_trip(v / 256, (n - 1) as nat);
        assert(be_bytes(v, n).drop_last() =~= be_bytes(v / 256, (n - 1) as nat));
    }
}

/// Writing back what `s` stands for gives `s`, and the value fits its width.
pub proof fn lemma_be_value_round_trip(s: Seq<u8>)
    ensures
        be_value(s) < pow256(s.len()),
        be_bytes(be_value(s), s.len()) == s,
    decreases s.len(),
{
    if s.len() > 0 {
        lemma_be_value_round_trip(s.drop_last());
        assert(be_bytes(be_value(s), s.len()) =~= s);
    }
}

/// The powers of 256 that occur in machine integers.
pub proof fn lemma_pow256_small()
    ensures
        pow256(0) == 1,
        pow256(1) == 0x100,
        pow256(2) == 0x1_0000,
        pow256(3) == 0x100_0000,
        pow256(4) == 0x1_0000_0000,
        pow256(7) == 0x100_0000_0000_0000,
        pow256(8) == 0x1_0000_0000_0000_0000,
{
    reveal_with_fuel(pow256, 9);
}

/// A two's-complement octet string lies in the range of its width.
pub proof fn lemma_signed_value_bound(s: Seq<u8>)
    requires
        s.len() > 0,
    ensures
        -128 * pow256((s.len() - 1) as nat) <= signed_value(s) < 128 * pow256(
            (s.len() - 1) as nat,
        ),
    decreases s.len(),
{
    if s.len() > 1 {
        lemma_signed_value_bound(s.drop_last());
    }
}

/// Appends the `n` low octets of `v`, most significant first.
pub fn push_be(dst: &mut Vec<u8>, v: u64, n: usize)
    ensures
        final(dst)@ == old(dst)@ + be_bytes(v as nat, n as nat),
    decreases n,
{
    if n > 0 {
        push_be(dst, v / 256, n - 1);
        dst.push((v % 256) as u8);
    }
    assert(dst@ =~= old(dst)@ + be_bytes(v as nat, n as nat));
}

/// Reads up to eight octets as an unsigned integer.
pub fn read_be(s: &[u8]) -> (v: u64)
    requires
        be_value(s@) <= u64::MAX,
    ensures
        v == be_value(s@),
{
    let mut v: u64 = 0;
    let mut i: usize = 0;
    while i < s.len()
        invariant
            i <= s@.len(),
            v == be_value(s@.take(i as int)),
            be_value(s@) <= u64::MAX,
        decreases s@.len() - i,
    {
        proof {
            assert(s@.take(i + 1).drop_last() =~= s@.take(i as int));
            lemma_be_value_prefix(s@, i + 1);
        }
        v = v * 256 + s[i] as u64;
        i = i + 1;
    }
    assert(s@.take(i as int) =~= s@);
    v
}

/// A prefix stands for no more than the whole.
pub proof fn lemma_be_value_prefix(s: Seq<u8>, i: int)
    requires
        0 <= i <= s.len(),
    ensures
        be_value(s.take(i)) <= be_value(s),
    decreases s.len(),
{
    if i < s.len() {
        lemma_be_value_prefix(s.drop_last(), i);
        assert(s.drop_last().take(i) =~= s.take(i));
    } else {
        assert(s.take(i) =~= s);
    }
}

/// Of two octets the first weighs 256 times the second.
pub proof fn the_first_octet_weighs_most(hi: u8, lo: u8)
    ensures
        be_value(seq![hi, lo]) == hi * 256 + lo,
        be_bytes((hi * 256 + lo) as nat, 2) == seq![hi, lo],
{
    let s = seq![hi, lo];
    reveal_with_fuel(be_value, 3);
    reveal_with_fuel(be_bytes, 3);
    assert(s.drop_last() =~= seq![hi]);
    assert(seq![hi].drop_last() =~= Seq::<u8>::empty());
    assert(be_bytes((hi * 256 + lo) as nat, 2) =~= s);
}

/// An octet behind a number shifts it up by eight bits.
pub proof fn an_octet_more_shifts_up(s: Seq<u8>, b: u8)
    ensures
        be_value(s.push(b)) == 256 * be_value(s) + b,
        s.len() > 0 ==> signed_value(s.push(b)) == 256 * signed_value(s) + b,
{
    assert(s.push(b).drop_last() =~= s);
}

/// A signed number is the unsigned one of the same octets, less the weight of
/// one octet more where the top bit is set.
pub proof fn the_top_bit_is_the_sign(s: Seq<u8>)
    requires
        s.len() > 0,
    ensures
        s[0] < 128 ==> signed_value(s) == be_value(s),
        s[0] >= 128 ==> signed_value(s) == be_value(s) - pow256(s.len()),
    decreases s.len(),
{
    if s.len() > 1 {
        the_top_bit_is_the_sign(s.drop_last());
    } else {
        reveal_with_fuel(pow256, 2);
        reveal_with_fuel(be_value, 2);
        assert(s.drop_last() =~= Seq::<u8>::empty());
    }
}

} // verus!
