use vstd::prelude::*;

use super::{append_base128, base128, is_bad_value, prim, read_base128, Base128Read, Element, Error,
    Result, Tag};
use crate::text::{push_decimal, push_str};

verus! {

/// An object identifier as a sequence of arcs.
#[derive(Debug, Clone, PartialEq, Eq, Hash, PartialOrd, Ord)]
pub struct Oid(pub Vec<u32>);

impl View for Oid {
    type V = Seq<u32>;

    open spec fn view(&self) -> Seq<u32> {
        self.0@
    }
}

impl Default for Oid {
    fn default() -> (o: Oid)
        ensures
            o@.len() == 0,
    {
        Oid(Vec::new())
    }
}

/// The arcs joined by dots.
pub open spec fn dotted(arcs: Seq<u32>) -> Seq<char>
    decreases arcs.len(),
{
    if arcs.len() == 0 {
        Seq::empty()
    } else if arcs.len() == 1 {
        crate::text::decimal(arcs[0] as nat)
    } else {
        dotted(arcs.drop_last()) + "."@ + crate::text::decimal(arcs.last() as nat)
    }
}

impl Oid {
    pub fn new(arcs: Vec<u32>) -> (o: Oid)
        ensures
            o@ == arcs@,
    {
        Oid(arcs)
    }

    pub fn arcs(&self) -> (a: &[u32])
        ensures
            a@ == self@,
    {
        self.0.as_slice()
    }

    /// Writes the identifier in dotted notation.
    pub fn to_text(&self) -> (s: String)
        ensures
            s@ == dotted(self@),
    {
        let mut s = String::new();
        let mut i: usize = 0;
        while i < self.0.len()
            invariant
                i <= self@.len(),
                s@ == dotted(self@.take(i as int)),
            decreases self@.len() - i,
        {
            if i > 0 {
                push_str(&mut s, ".");
            }
            push_decimal(&mut s, self.0[i] as u64);
            proof {
                assert(self@.take(i + 1).drop_last() =~= self@.take(i as int));
                if i == 0 {
                    assert(s@ =~= dotted(self@.take(1)));
                } else {
                    assert(s@ =~= dotted(self@.take(i + 1)));
                }
            }
            i = i + 1;
        }
        assert(self@.take(i as int) =~= self@);
        s
    }
}

impl From<Vec<u32>> for Oid {
    fn from(v: Vec<u32>) -> (o: Oid) {
        Oid(v)
    }
}

impl vstd::std_specs::convert::FromSpecImpl<Vec<u32>> for Oid {
    open spec fn obeys_from_spec() -> bool {
        true
    }

    open spec fn from_spec(v: Vec<u32>) -> Oid {
        Oid(v)
    }
}

/// The base-128 notations of `arcs`, one after another.
pub open spec fn arc_octets(arcs: Seq<u32>) -> Seq<u8>
    decreases arcs.len(),
{
    if arcs.len() == 0 {
        Seq::empty()
    } else {
        base128::base128(arcs[0] as nat) + arc_octets(arcs.skip(1))
    }
}

/// The content octets of an identifier: the first two arcs combined, then
/// base-128. An identifier of fewer than two arcs has none.
pub open spec fn oid_octets(arcs: Seq<u32>) -> Seq<u8> {
    if arcs.len() < 2 {
        Seq::empty()
    } else {
        base128::base128((arcs[0] * 40 + arcs[1]) as nat) + arc_octets(arcs.skip(2))
    }
}

/// Why object identifier content is refused.
pub enum OidFault {
    Empty,
    ArcTooLarge,
    Truncated,
}

impl OidFault {
    pub open spec fn text(self) -> Seq<char> {
        match self {
            OidFault::Empty => "empty OID"@,
            OidFault::ArcTooLarge => "OID arc too large"@,
            OidFault::Truncated => "truncated OID arc"@,
        }
    }
}

/// The base-128 numbers from `off` on, or what is wrong with the first bad
/// one.
pub open spec fn arcs_at(s: Seq<u8>, off: int) -> std::result::Result<Seq<u32>, OidFault>
    decreases s.len() - off,
{
    if off >= s.len() {
        Ok(Seq::empty())
    } else {
        match base128::base128_at(s, off, 0, 0) {
            Base128Read::End { .. } => Err(OidFault::Truncated),
            Base128Read::Long { .. } => Err(OidFault::ArcTooLarge),
            Base128Read::Value { v, off: o } => if o <= off || o > s.len() {
                arbitrary()
            } else {
                match arcs_at(s, o as int) {
                    Err(e) => Err(e),
                    Ok(rest) => Ok(seq![v] + rest),
                }
            },
        }
    }
}

/// The first two arcs that a combined number stands for.
pub open spec fn split_first(v: u32) -> Seq<u32> {
    let first: u32 = if v / 40 > 2 {
        2
    } else {
        v / 40
    };
    seq![first, (v - first * 40) as u32]
}

/// What object identifier content stands for.
pub open spec fn oid_of(s: Seq<u8>) -> std::result::Result<Seq<u32>, OidFault> {
    if s.len() == 0 {
        Err(OidFault::Empty)
    } else {
        match arcs_at(s, 0) {
            Err(e) => Err(e),
            Ok(numbers) => Ok(split_first(numbers[0]) + numbers.skip(1)),
        }
    }
}

/// Appends OID content octets (first two arcs combined, then base-128).
pub fn append_oid(dst: &mut Vec<u8>, o: &Oid)
    requires
        o@.len() >= 2 ==> o@[0] * 40 + o@[1] <= u32::MAX,
    ensures
        final(dst)@ == old(dst)@ + oid_octets(o@),
{
    if o.0.len() < 2 {
        assert(dst@ =~= old(dst)@ + oid_octets(o@));
        return;
    }
    append_base128(dst, o.0[0] * 40 + o.0[1]);
    let mut i: usize = 2;
    while i < o.0.len()
        invariant
            2 <= i <= o@.len(),
            dst@ + arc_octets(o@.skip(i as int)) == old(dst)@ + oid_octets(o@),
        decreases o@.len() - i,
    {
        let ghost prev = dst@;
        append_base128(dst, o.0[i]);
        proof {
            assert(o@.skip(i as int).skip(1) =~= o@.skip(i + 1));
            let b = base128::base128(o@[i as int] as nat);
            assert(dst@ + arc_octets(o@.skip(i + 1)) =~= prev + (b + arc_octets(o@.skip(i + 1))));
        }
        i = i + 1;
    }
    proof {
        assert(o@.skip(i as int) =~= Seq::<u32>::empty());
        assert(dst@ =~= dst@ + Seq::<u8>::empty());
    }
}

/// Decodes OID content octets.
pub fn decode_oid(content: &[u8]) -> (r: Result<Oid>)
    ensures
        match (r, oid_of(content@)) {
            (Ok(o), Ok(arcs)) => o@ == arcs,
            (Err(e), Err(fault)) => is_bad_value(e, fault.text()),
            _ => false,
        },
{
    if content.is_empty() {
        return Err(Error::bad_value("empty OID"));
    }
    let mut arcs: Vec<u32> = Vec::new();
    let mut off: usize = 0;
    let ghost mut numbers: Seq<u32> = Seq::empty();
    while off < content.len()
        invariant
            off <= content@.len(),
            off == 0 <==> numbers.len() == 0,
            numbers.len() == 0 ==> arcs@.len() == 0,
            numbers.len() > 0 ==> arcs@ == split_first(numbers[0]) + numbers.skip(1),
            match (arcs_at(content@, 0), arcs_at(content@, off as int)) {
                (Ok(all), Ok(rest)) => all == numbers + rest,
                (Err(e), Err(e2)) => e == e2,
                _ => false,
            },
        decreases content@.len() - off,
    {
        proof {
            base128::lemma_base128_at_off(content@, off as int, 0, 0);
        }
        match read_base128(content, off) {
            Base128Read::End { .. } => {
                return Err(Error::bad_value("truncated OID arc"));
            },
            Base128Read::Long { .. } => {
                return Err(Error::bad_value("OID arc too large"));
            },
            Base128Read::Value { v, off: next } => {
                let ghost before = numbers;
                proof {
                    numbers = numbers.push(v);
                    if let Ok(rest) = arcs_at(content@, next as int) {
                        assert(before + (seq![v] + rest) =~= numbers + rest);
                    }
                }
                if arcs.is_empty() {
                    let first: u32 = if v / 40 > 2 {
                        2
                    } else {
                        v / 40
                    };
                    arcs.push(first);
                    arcs.push(v - first * 40);
                    assert(arcs@ =~= split_first(numbers[0]) + numbers.skip(1));
                } else {
                    arcs.push(v);
                    assert(arcs@ =~= split_first(numbers[0]) + numbers.skip(1));
                }
                off = next;
            },
        }
    }
    proof {
        assert(numbers + Seq::<u32>::empty() =~= numbers);
    }
    Ok(Oid(arcs))
}

/// Returns an OBJECT IDENTIFIER-content primitive element with tag `t`.
pub fn oid_elem(t: Tag, o: &Oid) -> (e: Element)
    requires
        o@.len() >= 2 ==> o@[0] * 40 + o@[1] <= u32::MAX,
    ensures
        e matches Element::Primitive { tag, value } && tag == t && value@ == oid_octets(o@),
{
    let mut buf: Vec<u8> = Vec::new();
    append_oid(&mut buf, o);
    assert(buf@ =~= oid_octets(o@));
    prim(t, buf)
}

/// Numbers that were written one after another read back.
proof fn lemma_arcs_at(p: Seq<u8>, arcs: Seq<u32>)
    requires
        (p + arc_octets(arcs)).len() <= usize::MAX,
    ensures
        arcs_at(p + arc_octets(arcs), p.len() as int) == Ok::<Seq<u32>, OidFault>(arcs),
    decreases arcs.len(),
{
    let s = p + arc_octets(arcs);
    if arcs.len() > 0 {
        let b = base128::base128(arcs[0] as nat);
        let rest = arc_octets(arcs.skip(1));
        base128::lemma_base128_round_trip(p, arcs[0], rest);
        assert(s =~= p + b + rest);
        assert(s =~= (p + b) + rest);
        lemma_arcs_at(p + b, arcs.skip(1));
        assert(seq![arcs[0]] + arcs.skip(1) =~= arcs);
    } else {
        assert(arcs =~= Seq::<u32>::empty());
    }
}

/// An identifier with a valid first arc that was written reads back.
pub proof fn oid_round_trip(arcs: Seq<u32>)
    requires
        arcs.len() >= 2,
        arcs[0] <= 2,
        arcs[0] < 2 ==> arcs[1] < 40,
        arcs[0] * 40 + arcs[1] <= u32::MAX,
        oid_octets(arcs).len() <= usize::MAX,
    ensures
        oid_of(oid_octets(arcs)) == Ok::<Seq<u32>, OidFault>(arcs),
{
    let first = (arcs[0] * 40 + arcs[1]) as u32;
    let numbers = seq![first] + arcs.skip(2);
    assert(numbers.skip(1) =~= arcs.skip(2));
    assert(oid_octets(arcs) =~= Seq::<u8>::empty() + arc_octets(numbers));
    base128::lemma_base128_len(first as nat);
    lemma_arcs_at(Seq::empty(), numbers);
    assert(split_first(first) + numbers.skip(1) =~= arcs);
}

/// The first two arcs share a number, the first counting forty; each further
/// arc follows as a number of its own.
pub proof fn arcs_follow_one_another(arcs: Seq<u32>, next: u32)
    requires
        arcs.len() >= 2,
    ensures
        arcs.len() == 2 ==> oid_octets(arcs) == base128::base128((40 * arcs[0] + arcs[1]) as nat),
        oid_octets(arcs.push(next)) == oid_octets(arcs) + base128::base128(next as nat),
{
    lemma_arc_behind(arcs.skip(2), next);
    assert(arcs.push(next).skip(2) =~= arcs.skip(2).push(next));
    assert(oid_octets(arcs.push(next)) =~= oid_octets(arcs) + base128::base128(next as nat));
}

proof fn lemma_arc_behind(arcs: Seq<u32>, next: u32)
    ensures
        arc_octets(arcs.push(next)) == arc_octets(arcs) + base128::base128(next as nat),
    decreases arcs.len(),
{
    if arcs.len() == 0 {
        reveal_with_fuel(arc_octets, 3);
        assert(arcs.push(next).skip(1) =~= Seq::<u32>::empty());
        assert(arc_octets(arcs.push(next)) =~= base128::base128(next as nat));
    } else {
        lemma_arc_behind(arcs.skip(1), next);
        assert(arcs.push(next).skip(1) =~= arcs.skip(1).push(next));
        assert(arc_octets(arcs.push(next)) =~= arc_octets(arcs) + base128::base128(next as nat));
    }
}

} // verus!
