//! The BER encoding of MMS data.

use vstd::prelude::*;

use super::value::{all_views, lemma_views, lemma_views_of};
use super::{Data, Value};
use crate::asn1::decoder::element_at;
use crate::asn1::primitives::{bit_string_octets, bit_string_ok, bool_octets, float_octets,
    int_octets, uint_length_ok, uint_octets};
use crate::asn1::{
    bool_elem, cons, context_constructed, context_primitive, decode_bit_string, decode_bool,
    decode_float, decode_int, decode_uint, int_elem, prim, tlv, uint_elem, Decoder, Element, Error,
    FloatBits, Result, Tag,
};
use crate::octets::{be_value, signed_value};
use crate::text::{decimal, from_utf8_lossy, utf8_lossy};
use vstd::slice::slice_to_vec;
use vstd::utf8::{decode_utf8, encode_utf8, valid_utf8};

verus! {

/// The tag of data that has an encoding.
pub open spec fn data_tag(d: Data) -> Tag {
    match d {
        Data::Array(_) => context_constructed(1),
        Data::Structure(_) => context_constructed(2),
        Data::Boolean(_) => context_primitive(3),
        Data::BitString { .. } => context_primitive(4),
        Data::Integer(_) => context_primitive(5),
        Data::Unsigned(_) => context_primitive(6),
        Data::Float32(_) => context_primitive(7),
        Data::Float64(_) => context_primitive(7),
        Data::OctetString(_) => context_primitive(9),
        Data::VisibleString(_) => context_primitive(10),
        Data::MmsString(_) => context_primitive(16),
        Data::UtcTime(_) => context_primitive(17),
        Data::Empty => arbitrary(),
        Data::AccessError(_) => arbitrary(),
    }
}

/// Whether there is an encoding at all.
pub open spec fn has_encoding(d: Data) -> bool {
    !(d is Empty) && !(d is AccessError)
}

/// The content octets of data.
pub open spec fn data_content(d: Data) -> Seq<u8>
    decreases d, 0nat,
{
    match d {
        Data::Array(items) => data_octets_all(items, items.len()),
        Data::Structure(items) => data_octets_all(items, items.len()),
        Data::Boolean(b) => bool_octets(b),
        Data::BitString { bits, length } => bit_string_octets(bits, length),
        Data::Integer(v) => int_octets(v as int),
        Data::Unsigned(v) => uint_octets(v as nat),
        Data::Float32(v) => float_octets(FloatBits::Single(v)),
        Data::Float64(v) => float_octets(FloatBits::Double(v)),
        Data::OctetString(b) => b,
        Data::VisibleString(s) => encode_utf8(s),
        Data::MmsString(s) => encode_utf8(s),
        Data::UtcTime(b) => b,
        Data::Empty => Seq::empty(),
        Data::AccessError(_) => Seq::empty(),
    }
}

/// The encoding of data; nothing for what has none.
pub open spec fn data_octets(d: Data) -> Seq<u8>
    decreases d, 1nat,
{
    if has_encoding(d) {
        tlv(data_tag(d), data_content(d))
    } else {
        Seq::empty()
    }
}

/// The encodings of the first `n` of `items`, one after another.
pub open spec fn data_octets_all(items: Seq<Data>, n: nat) -> Seq<u8>
    decreases items, n,
{
    if n == 0 || n > items.len() {
        Seq::empty()
    } else {
        data_octets_all(items, (n - 1) as nat) + data_octets(items[n - 1])
    }
}

/// Why content of a kind is refused.
pub open spec fn count_fault(what: Seq<char>, n: nat) -> Seq<char> {
    "asn1: malformed value ("@ + (what + decimal(n) + " octets"@) + ")"@
}

/// What an element of data stands for, or the message of the error that
/// refuses it.
pub open spec fn data_of(t: Tag, content: Seq<u8>) -> std::result::Result<Data, Seq<char>>
    decreases content.len(), 1nat, 0nat,
{
    if t == context_constructed(1) {
        match items_at(content, 0) {
            Ok(items) => Ok(Data::Array(items)),
            Err(e) => Err(e),
        }
    } else if t == context_constructed(2) {
        match items_at(content, 0) {
            Ok(items) => Ok(Data::Structure(items)),
            Err(e) => Err(e),
        }
    } else if t == context_primitive(3) {
        if content.len() == 1 {
            Ok(Data::Boolean(content[0] != 0))
        } else {
            Err(count_fault("boolean of "@, content.len()))
        }
    } else if t == context_primitive(4) {
        if bit_string_ok(content) {
            Ok(
                Data::BitString {
                    bits: content.skip(1),
                    length: ((content.len() - 1) * 8 - content[0]) as nat,
                },
            )
        } else if content.len() == 0 {
            Err("asn1: malformed value ("@ + "empty bit string"@ + ")"@)
        } else {
            Err(
                "asn1: malformed value ("@ + ("bit string padding "@ + decimal(content[0] as nat)
                    + ""@) + ")"@,
            )
        }
    } else if t == context_primitive(5) {
        if 1 <= content.len() <= 8 {
            Ok(Data::Integer(signed_value(content) as i64))
        } else {
            Err(count_fault("integer of "@, content.len()))
        }
    } else if t == context_primitive(6) {
        if uint_length_ok(content) {
            Ok(Data::Unsigned(be_value(content) as u64))
        } else if content.len() == 0 {
            Err("asn1: malformed value ("@ + "empty unsigned"@ + ")"@)
        } else {
            Err(count_fault("unsigned of "@, content.len()))
        }
    } else if t == context_primitive(7) {
        if content.len() == 5 {
            Ok(Data::Float32(be_value(content.skip(1)) as u32))
        } else if content.len() == 9 {
            Ok(Data::Float64(be_value(content.skip(1)) as u64))
        } else {
            Err(count_fault("floating point of "@, content.len()))
        }
    } else if t == context_primitive(9) {
        Ok(Data::OctetString(content))
    } else if t == context_primitive(10) {
        Ok(Data::VisibleString(lossy_text(content)))
    } else if t == context_primitive(16) {
        Ok(Data::MmsString(lossy_text(content)))
    } else if t == context_primitive(17) {
        if content.len() == 8 {
            Ok(Data::UtcTime(content))
        } else {
            Err(count_fault("UTC time of "@, content.len()))
        }
    } else {
        Err("asn1: malformed value ("@ + "unsupported data type"@ + ")"@)
    }
}

/// The text of string octets: the characters that they encode, and what a
/// lossy decoding makes of octets that are no UTF-8.
pub open spec fn lossy_text(b: Seq<u8>) -> Seq<char> {
    if valid_utf8(b) {
        decode_utf8(b)
    } else {
        utf8_lossy(b)
    }
}

/// The value at `off`, or the message of the error.
pub open spec fn data_at(bytes: Seq<u8>, off: int) -> std::result::Result<Data, Seq<char>> {
    match element_at(bytes, off, 0).result {
        Err(e) => Err(e.text()),
        Ok((t, a, b)) => data_of(t, bytes.subrange(a, b)),
    }
}

/// The values from `off` on, or the message of the first error.
pub open spec fn items_at(bytes: Seq<u8>, off: int) -> std::result::Result<Seq<Data>, Seq<char>>
    decreases bytes.len(), 0nat, bytes.len() - off,
{
    if off >= bytes.len() {
        Ok(Seq::empty())
    } else {
        let s = element_at(bytes, off, 0);
        match s.result {
            Err(e) => Err(e.text()),
            Ok((t, a, b)) => if !(off < s.off <= bytes.len() && 0 < a <= b <= bytes.len()) {
                arbitrary()
            } else {
                match data_of(t, bytes.subrange(a, b)) {
                    Err(e) => Err(e),
                    Ok(d) => match items_at(bytes, s.off) {
                        Err(e) => Err(e),
                        Ok(rest) => Ok(seq![d] + rest),
                    },
                }
            },
        }
    }
}

/// The elements of those of `items` that have an encoding.
fn data_elements(items: &Vec<Value>) -> (els: Vec<Element>)
    ensures
        Element::encoded_all(els@, els@.len()) == data_octets_all(
            all_views(items@),
            items@.len(),
        ),
    decreases items,
{
    let mut els: Vec<Element> = Vec::new();
    let mut i: usize = 0;
    proof {
        lemma_views(items@, items@.len());
    }
    while i < items.len()
        invariant
            i <= items@.len(),
            all_views(items@).len() == items@.len(),
            forall|j: int| 0 <= j < items@.len() ==> #[trigger] all_views(items@)[j] == items@[j]@,
            Element::encoded_all(els@, els@.len()) == data_octets_all(all_views(items@), i as nat),
        decreases items@.len() - i,
    {
        let ghost before = els@;
        assert(data_octets_all(all_views(items@), i as nat + 1) == data_octets_all(
            all_views(items@),
            i as nat,
        ) + data_octets(all_views(items@)[i as int]));
        match data_element(&items[i]) {
            Some(e) => {
                els.push(e);
                proof {
                    assert(before.take(before.len() as int) =~= els@.take(before.len() as int));
                    crate::asn1::element::lemma_encoded_all_same(before, els@, before.len());
                    assert(Element::encoded_all(els@, els@.len()) == Element::encoded_all(
                        els@,
                        before.len(),
                    ) + els@[before.len() as int].encoded());
                }
            },
            None => {
                assert(data_octets_all(all_views(items@), i as nat) + Seq::<u8>::empty()
                    =~= data_octets_all(all_views(items@), i as nat));
            },
        }
        i = i + 1;
    }
    els
}

/// Returns the element that encodes a value, or `None` for what has no
/// encoding.
pub fn data_element(v: &Value) -> (r: Option<Element>)
    ensures
        match r {
            Some(e) => has_encoding(v@) && e.encoded() == data_octets(v@) && e.tag_of() == Some(
                data_tag(v@),
            ),
            None => !has_encoding(v@),
        },
    decreases v,
{
    match v {
        Value::Empty => None,
        Value::AccessError(_) => None,
        Value::Boolean(b) => Some(bool_elem(context_primitive(3), *b)),
        Value::BitString(b) => {
            let mut buf: Vec<u8> = Vec::new();
            buf.push(padding(b.bits.len(), b.length));
            buf.extend_from_slice(b.bits.as_slice());
            assert(buf@ =~= bit_string_octets(b.bits@, b.length as nat));
            Some(prim(context_primitive(4), buf))
        },
        Value::Integer(n) => Some(int_elem(context_primitive(5), *n)),
        Value::Unsigned(n) => Some(uint_elem(context_primitive(6), *n)),
        Value::Float32(bits) => {
            let mut buf: Vec<u8> = Vec::new();
            crate::asn1::append_float32(&mut buf, *bits);
            assert(buf@ =~= float_octets(FloatBits::Single(*bits)));
            Some(prim(context_primitive(7), buf))
        },
        Value::Float64(bits) => {
            let mut buf: Vec<u8> = Vec::new();
            crate::asn1::append_float64(&mut buf, *bits);
            assert(buf@ =~= float_octets(FloatBits::Double(*bits)));
            Some(prim(context_primitive(7), buf))
        },
        Value::OctetString(b) => Some(prim(context_primitive(9), slice_to_vec(b.as_slice()))),
        Value::VisibleString(s) => Some(
            prim(context_primitive(10), slice_to_vec(s.as_str().as_bytes())),
        ),
        Value::MmsString(s) => Some(
            prim(context_primitive(16), slice_to_vec(s.as_str().as_bytes())),
        ),
        Value::UtcTime(b) => Some(prim(context_primitive(17), slice_to_vec(b.as_slice()))),
        Value::Structure(items) => {
            proof {
                lemma_views(items@, items@.len());
            }
            let els = data_elements(items);
            Some(cons(context_constructed(2), els))
        },
        Value::Array(items) => {
            proof {
                lemma_views(items@, items@.len());
            }
            let els = data_elements(items);
            Some(cons(context_constructed(1), els))
        },
    }
}

/// The padding count of `length` bits in `n` octets, cut to an octet.
fn padding(n: usize, length: usize) -> (p: u8)
    ensures
        p == (n * 8 - length) % 256,
{
    let a: usize = (n % 32) * 8;
    let b: usize = length % 256;
    ((a + 256 - b) % 256) as u8
}

/// A structure or an array whose members are being read.
struct Level<'a> {
    array: bool,
    d: Decoder<'a>,
    items: Vec<Value>,
}

/// The model of a level: the octets of the members, how far they were read, and
/// the members that were.
struct LevelView {
    array: bool,
    bytes: Seq<u8>,
    pos: int,
    done: Seq<Data>,
}

impl LevelView {
    /// The level with one more member.
    spec fn with(self, d: Data) -> LevelView {
        LevelView { done: self.done.push(d), ..self }
    }

    /// What the members that were read make up.
    spec fn whole(self) -> Data {
        if self.array {
            Data::Array(self.done)
        } else {
            Data::Structure(self.done)
        }
    }

    /// What the level comes to once the rest of its members is read.
    spec fn outcome(self) -> std::result::Result<Data, Seq<char>> {
        match items_at(self.bytes, self.pos) {
            Ok(rest) => Ok((LevelView { done: self.done + rest, ..self }).whole()),
            Err(e) => Err(e),
        }
    }

    /// How many octets are still to be read.
    spec fn left(self) -> nat {
        if self.pos < self.bytes.len() {
            (self.bytes.len() - self.pos) as nat
        } else {
            0
        }
    }
}

impl<'a> Level<'a> {
    spec fn view(&self) -> LevelView {
        LevelView {
            array: self.array,
            bytes: self.d.bytes(),
            pos: self.d.pos(),
            done: all_views(self.items@),
        }
    }

    spec fn wf(&self) -> bool {
        &&& self.d.wf()
        &&& 0 <= self.d.pos() <= self.d.bytes().len()
        &&& self.d.bytes().len() * 8 <= usize::MAX
    }

    fn new(array: bool, content: &'a [u8]) -> (l: Level<'a>)
        requires
            content@.len() * 8 <= usize::MAX,
        ensures
            l.wf(),
            l.view() == (LevelView { array, bytes: content@, pos: 0, done: Seq::empty() }),
    {
        Level { array, d: Decoder::new(content), items: Vec::new() }
    }

    fn add(&mut self, v: Value)
        requires
            old(self).wf(),
        ensures
            final(self).wf(),
            final(self).view() == old(self).view().with(v@),
    {
        self.items.push(v);
        proof {
            lemma_views(old(self).items@, old(self).items@.len());
            lemma_views_of(self.items@, all_views(old(self).items@).push(v@));
        }
    }

    fn finish(self) -> (v: Value)
        ensures
            v@ == self.view().whole(),
    {
        if self.array {
            Value::Array(self.items)
        } else {
            Value::Structure(self.items)
        }
    }
}

/// The models of the levels around the current one, the outermost first.
spec fn levels(stack: Seq<Level<'_>>) -> Seq<LevelView> {
    Seq::new(stack.len(), |i: int| stack[i].view())
}

/// What the outermost of `around` comes to once the level inside them has come
/// to `inner`.
spec fn climbed(
    around: Seq<LevelView>,
    inner: std::result::Result<Data, Seq<char>>,
) -> std::result::Result<Data, Seq<char>>
    decreases around.len(),
{
    match inner {
        Err(e) => Err(e),
        Ok(d) => if around.len() == 0 {
            Ok(d)
        } else {
            climbed(around.drop_last(), around.last().with(d).outcome())
        },
    }
}

/// How many octets are still to be read in all of `around`.
spec fn left_in(around: Seq<LevelView>) -> nat
    decreases around.len(),
{
    if around.len() == 0 {
        0
    } else {
        left_in(around.drop_last()) + around.last().left()
    }
}

/// A member that was read in front of the rest changes nothing of what the
/// level comes to.
proof fn lemma_member(before: LevelView, after: LevelView, d: Data)
    requires
        0 <= before.pos < before.bytes.len() <= usize::MAX,
        element_at(before.bytes, before.pos, 0).result matches Ok((t, a, b)) && data_of(
            t,
            before.bytes.subrange(a, b),
        ) == Ok::<Data, Seq<char>>(d),
        after == (LevelView {
            pos: element_at(before.bytes, before.pos, 0).off,
            ..before
        }),
    ensures
        after.with(d).outcome() == before.outcome(),
        after.with(d).left() < before.left(),
{
    crate::asn1::decoder::lemma_element_at_off(before.bytes, before.pos, 0);
    if let Ok(rest) = items_at(after.bytes, after.pos) {
        assert(before.done + (seq![d] + rest) =~= before.done.push(d) + rest);
    }
}

/// Going into a member leaves what the outermost level comes to.
proof fn lemma_nested(
    around: Seq<LevelView>,
    before: LevelView,
    after: LevelView,
    inner: LevelView,
    t: Tag,
)
    requires
        0 <= before.pos < before.bytes.len() <= usize::MAX,
        t == context_constructed(1) || t == context_constructed(2),
        element_at(before.bytes, before.pos, 0).result matches Ok((u, a, b)) && u == t
            && inner.bytes == before.bytes.subrange(a, b),
        inner.pos == 0,
        inner.done == Seq::<Data>::empty(),
        inner.array == (t == context_constructed(1)),
        after == (LevelView {
            pos: element_at(before.bytes, before.pos, 0).off,
            ..before
        }),
    ensures
        climbed(around.push(after), inner.outcome()) == climbed(around, before.outcome()),
        left_in(around.push(after)) + inner.left() < left_in(around) + before.left(),
{
    crate::asn1::decoder::lemma_element_at_off(before.bytes, before.pos, 0);
    assert(around.push(after).drop_last() =~= around);
    if let Ok(items) = items_at(inner.bytes, 0) {
        assert(Seq::<Data>::empty() + items =~= items);
    }
    assert(data_of(t, inner.bytes) == inner.outcome());
    if let Ok(d) = inner.outcome() {
        lemma_member(before, after, d);
    }
}

/// Decodes the next element as a value. However deep its structures nest, they
/// are read without recursion.
pub fn decode_data<'a>(d: &mut Decoder<'a>) -> (r: Result<Value>)
    requires
        old(d).wf(),
        old(d).bytes().len() * 8 <= usize::MAX,
    ensures
        final(d).wf(),
        final(d).bytes() == old(d).bytes(),
        final(d).pos() == element_at(old(d).bytes(), old(d).pos(), 0).off,
        match (r, data_at(old(d).bytes(), old(d).pos())) {
            (Ok(v), Ok(x)) => v@ == x,
            (Err(e), Err(t)) => e.text() == t,
            _ => false,
        },
{
    proof {
        crate::asn1::decoder::lemma_element_at_off(d.bytes(), d.pos(), 0);
    }
    let (t, content) = match d.read_tlv() {
        Ok(p) => p,
        Err(e) => return Err(e),
    };
    if t == context_constructed(1) {
        return decode_members(true, content);
    }
    if t == context_constructed(2) {
        return decode_members(false, content);
    }
    decode_simple(t, content)
}

/// The tag of an array or of a structure.
spec fn members_tag(array: bool) -> Tag {
    if array {
        context_constructed(1)
    } else {
        context_constructed(2)
    }
}

/// Decodes the content of an array or of a structure.
fn decode_members(array: bool, content: &[u8]) -> (r: Result<Value>)
    requires
        content@.len() * 8 <= usize::MAX,
    ensures
        match (r, data_of(members_tag(array), content@)) {
            (Ok(v), Ok(x)) => v@ == x,
            (Err(e), Err(m)) => e.text() == m,
            _ => false,
        },
{
    let mut stack: Vec<Level<'_>> = Vec::new();
    let mut level = Level::new(array, content);
    let ghost whole = data_of(members_tag(array), content@);
    proof {
        if let Ok(items) = items_at(content@, 0) {
            assert(Seq::<Data>::empty() + items =~= items);
        }
    }
    loop
        invariant
            level.wf(),
            forall|i: int| 0 <= i < stack@.len() ==> (#[trigger] stack@[i]).wf(),
            climbed(levels(stack@), level.view().outcome()) == whole,
            whole == data_of(members_tag(array), content@),
        decreases
            2 * (left_in(levels(stack@)) + level.view().left()) + stack@.len(),
    {
        let ghost around = levels(stack@);
        let ghost before = level.view();
        if level.d.more() {
            proof {
                crate::asn1::decoder::lemma_element_at_off(before.bytes, before.pos, 0);
            }
            let (t, inside) = match level.d.read_tlv() {
                Ok(p) => p,
                Err(e) => return Err(e),
            };
            if t == context_constructed(1) || t == context_constructed(2) {
                let inner = Level::new(t == context_constructed(1), inside);
                let ghost outer = level.view();
                proof {
                    lemma_nested(around, before, outer, inner.view(), t);
                }
                stack.push(level);
                level = inner;
                proof {
                    assert(levels(stack@) =~= around.push(outer));
                }
            } else {
                match decode_simple(t, inside) {
                    Ok(v) => {
                        proof {
                            lemma_member(before, level.view(), v@);
                        }
                        level.add(v);
                    },
                    Err(e) => return Err(e),
                }
            }
        } else {
            proof {
                assert(before.done + Seq::<Data>::empty() =~= before.done);
            }
            let v = level.finish();
            match stack.pop() {
                None => return Ok(v),
                Some(up) => {
                    level = up;
                    proof {
                        assert(levels(stack@) =~= around.drop_last());
                        assert(around.last() == level.view());
                    }
                    level.add(v);
                },
            }
        }
    }
}

/// Decodes the content of an element that holds no others.
fn decode_simple(t: Tag, content: &[u8]) -> (r: Result<Value>)
    requires
        t != context_constructed(1),
        t != context_constructed(2),
        content@.len() * 8 <= usize::MAX,
    ensures
        match (r, data_of(t, content@)) {
            (Ok(v), Ok(x)) => v@ == x,
            (Err(e), Err(m)) => e.text() == m,
            _ => false,
        },
{
    if t == context_primitive(3) {
        return match decode_bool(content) {
            Ok(b) => Ok(Value::Boolean(b)),
            Err(e) => Err(e),
        };
    }
    if t == context_primitive(4) {
        return match decode_bit_string(content) {
            Ok(b) => Ok(Value::BitString(b)),
            Err(e) => Err(e),
        };
    }
    if t == context_primitive(5) {
        return match decode_int(content) {
            Ok(v) => Ok(Value::Integer(v)),
            Err(e) => Err(e),
        };
    }
    if t == context_primitive(6) {
        return match decode_uint(content) {
            Ok(v) => Ok(Value::Unsigned(v)),
            Err(e) => Err(e),
        };
    }
    if t == context_primitive(7) {
        return match decode_float(content) {
            Ok(FloatBits::Single(bits)) => Ok(Value::Float32(bits)),
            Ok(FloatBits::Double(bits)) => Ok(Value::Float64(bits)),
            Err(e) => Err(e),
        };
    }
    if t == context_primitive(9) {
        return Ok(Value::OctetString(slice_to_vec(content)));
    }
    if t == context_primitive(10) {
        return Ok(Value::VisibleString(from_utf8_lossy(content)));
    }
    if t == context_primitive(16) {
        return Ok(Value::MmsString(from_utf8_lossy(content)));
    }
    if t == context_primitive(17) {
        return Value::utc_time_raw(content);
    }
    Err(Error::bad_value("unsupported data type"))
}

/// Whether data can be encoded and read back: it holds nothing that has no
/// encoding, its bit strings have less than an octet of padding, and its times
/// eight octets.
pub open spec fn encodable(d: Data) -> bool
    decreases d,
{
    match d {
        Data::Structure(items) => forall|i: int|
            0 <= i < items.len() ==> encodable(#[trigger] items[i]),
        Data::Array(items) => forall|i: int|
            0 <= i < items.len() ==> encodable(#[trigger] items[i]),
        Data::BitString { bits, length } => length <= bits.len() * 8 < length + 8,
        Data::UtcTime(b) => b.len() == 8,
        Data::Empty => false,
        Data::AccessError(_) => false,
        _ => true,
    }
}

/// The encodings of fewer items are a part of those of more.
pub proof fn lemma_octets_all_part(items: Seq<Data>, i: nat, n: nat)
    requires
        i <= n <= items.len(),
    ensures
        data_octets_all(items, i).len() <= data_octets_all(items, n).len(),
    decreases n,
{
    if i < n {
        lemma_octets_all_part(items, i, (n - 1) as nat);
    }
}

/// Data that was encoded reads back from its content octets.
proof fn lemma_content_round_trip(d: Data)
    requires
        encodable(d),
        data_content(d).len() <= u32::MAX,
    ensures
        data_of(data_tag(d), data_content(d)) == Ok::<Data, Seq<char>>(d),
    decreases d, 0nat,
{
    let c = data_content(d);
    match d {
        Data::Structure(items) => {
            lemma_items_round_trip(items, items.len());
            assert(items.skip(0) =~= items);
        },
        Data::Array(items) => {
            lemma_items_round_trip(items, items.len());
            assert(items.skip(0) =~= items);
        },
        Data::Boolean(b) => {},
        Data::BitString { bits, length } => {
            crate::asn1::primitives::bit_string_round_trip(bits, length);
        },
        Data::Integer(v) => {
            crate::asn1::primitives::int_round_trip(v);
        },
        Data::Unsigned(v) => {
            crate::asn1::primitives::uint_round_trip(v);
        },
        Data::Float32(v) => {
            crate::asn1::primitives::float_round_trip(FloatBits::Single(v));
        },
        Data::Float64(v) => {
            crate::asn1::primitives::float_round_trip(FloatBits::Double(v));
        },
        Data::VisibleString(s) => {
            vstd::utf8::encode_utf8_valid_utf8(s);
            vstd::utf8::encode_utf8_decode_utf8(s);
        },
        Data::MmsString(s) => {
            vstd::utf8::encode_utf8_valid_utf8(s);
            vstd::utf8::encode_utf8_decode_utf8(s);
        },
        _ => {},
    }
}

/// One item read in front of the rest.
proof fn lemma_items_step(bytes: Seq<u8>, off: int, d: Data, rest: Seq<Data>)
    requires
        0 <= off < bytes.len() <= usize::MAX,
        element_at(bytes, off, 0).result matches Ok((t, a, b)) && data_of(
            t,
            bytes.subrange(a, b),
        ) == Ok::<Data, Seq<char>>(d),
        items_at(bytes, element_at(bytes, off, 0).off) == Ok::<Seq<Data>, Seq<char>>(rest),
    ensures
        items_at(bytes, off) == Ok::<Seq<Data>, Seq<char>>(seq![d] + rest),
{
    crate::asn1::decoder::lemma_element_at_off(bytes, off, 0);
}

/// Data that was encoded between other octets reads back from there.
proof fn lemma_item_reads(p: Seq<u8>, d: Data, r: Seq<u8>)
    requires
        has_encoding(d),
        data_of(data_tag(d), data_content(d)) == Ok::<Data, Seq<char>>(d),
        (p + data_octets(d) + r).len() <= u32::MAX,
    ensures
        data_octets(d).len() > 0,
        element_at(p + data_octets(d) + r, p.len() as int, 0).off == p.len() + data_octets(d).len(),
        element_at(p + data_octets(d) + r, p.len() as int, 0).result matches Ok((t, a, b))
            && data_of(t, (p + data_octets(d) + r).subrange(a, b)) == Ok::<Data, Seq<char>>(d),
{
    assert(data_octets(d) == tlv(data_tag(d), data_content(d)));
    assert(data_tag(d).octets().len() >= 1);
    crate::asn1::decoder::element_round_trip(p, data_tag(d), data_content(d), r);
}

/// Items that were encoded one after another read back from where the last
/// `k` of them begin.
proof fn lemma_items_round_trip(items: Seq<Data>, k: nat)
    requires
        k <= items.len(),
        forall|i: int| 0 <= i < items.len() ==> encodable(#[trigger] items[i]),
        data_octets_all(items, items.len()).len() <= u32::MAX,
    ensures
        items_at(
            data_octets_all(items, items.len()),
            data_octets_all(items, (items.len() - k) as nat).len() as int,
        ) == Ok::<Seq<Data>, Seq<char>>(items.skip(items.len() - k)),
    decreases items, k,
{
    let all = data_octets_all(items, items.len());
    let i = (items.len() - k) as nat;
    let p = data_octets_all(items, i);
    if k == 0 {
        assert(items.skip(items.len() as int) =~= Seq::<Data>::empty());
    } else {
        let d = items[i as int];
        let o = data_octets(d);
        let q = data_octets_all(items, i + 1);
        let r = all.skip(q.len() as int);
        assert(q == p + o);
        assert(all == p + o + r) by {
            lemma_octets_all_prefix(items, i + 1, items.len());
            assert(all =~= all.take(q.len() as int) + r);
        }
        assert(encodable(d));
        assert(has_encoding(d) && data_content(d).len() <= o.len());
        lemma_content_round_trip(d);
        lemma_item_reads(p, d, r);
        lemma_items_round_trip(items, (k - 1) as nat);
        lemma_items_step(all, p.len() as int, d, items.skip((i + 1) as int));
        assert(seq![d] + items.skip((i + 1) as int) =~= items.skip(i as int));
    }
}

/// The encodings of the first items begin those of all.
proof fn lemma_octets_all_prefix(items: Seq<Data>, i: nat, n: nat)
    requires
        i <= n <= items.len(),
    ensures
        data_octets_all(items, i).len() <= data_octets_all(items, n).len(),
        data_octets_all(items, n).take(data_octets_all(items, i).len() as int) == data_octets_all(
            items,
            i,
        ),
    decreases n,
{
    if i < n {
        lemma_octets_all_prefix(items, i, (n - 1) as nat);
        assert(data_octets_all(items, n).take(data_octets_all(items, i).len() as int)
            =~= data_octets_all(items, (n - 1) as nat).take(
            data_octets_all(items, i).len() as int,
        ));
    } else {
        assert(data_octets_all(items, n).take(data_octets_all(items, n).len() as int)
            =~= data_octets_all(items, n));
    }
}

/// Data that was encoded decodes to itself, whatever stands around it, and
/// nothing beyond it is read.
pub proof fn data_round_trip(before: Seq<u8>, d: Data, after: Seq<u8>)
    requires
        encodable(d),
        data_content(d).len() <= u32::MAX,
        before.len() + data_octets(d).len() + after.len() <= usize::MAX,
    ensures
        data_at(before + data_octets(d) + after, before.len() as int) == Ok::<Data, Seq<char>>(d),
        element_at(before + data_octets(d) + after, before.len() as int, 0).off == before.len()
            + data_octets(d).len(),
{
    crate::asn1::decoder::element_round_trip(before, data_tag(d), data_content(d), after);
    lemma_content_round_trip(d);
}

/// Data that was encoded one after another decodes to the same list.
pub proof fn data_list_round_trip(items: Seq<Data>)
    requires
        forall|i: int| 0 <= i < items.len() ==> encodable(#[trigger] items[i]),
        data_octets_all(items, items.len()).len() <= u32::MAX,
    ensures
        items_at(data_octets_all(items, items.len()), 0) == Ok::<Seq<Data>, Seq<char>>(items),
{
    lemma_items_round_trip(items, items.len());
    assert(items.skip(0) =~= items);
}

/// Each kind of data is led by an identifier octet of its own; the two widths
/// of floating-point values share one.
pub proof fn data_is_led_by_its_kind(d: Data)
    requires
        !(d is Empty),
        !(d is AccessError),
    ensures
        data_octets(d)[0] == match d {
            Data::Array(_) => 0xa1u8,
            Data::Structure(_) => 0xa2,
            Data::Boolean(_) => 0x83,
            Data::BitString { .. } => 0x84,
            Data::Integer(_) => 0x85,
            Data::Unsigned(_) => 0x86,
            Data::Float32(_) => 0x87,
            Data::Float64(_) => 0x87,
            Data::OctetString(_) => 0x89,
            Data::VisibleString(_) => 0x8a,
            Data::MmsString(_) => 0x90,
            Data::UtcTime(_) => 0x91,
            _ => 0,
        },
{
    let t = data_tag(d);
    assert(t.octets().len() == 1);
    assert(data_octets(d)[0] == t.octets()[0]);
}

/// Members stand one behind another, and one without an encoding leaves no
/// trace.
pub proof fn members_stand_one_behind_another(items: Seq<Data>, last: Data)
    ensures
        data_octets(Data::Empty).len() == 0,
        last is AccessError ==> data_octets(last).len() == 0,
        data_octets_all(items.push(last), items.len() + 1) == data_octets_all(items, items.len())
            + data_octets(last),
{
    lemma_all_before(items, last, items.len());
}

proof fn lemma_all_before(items: Seq<Data>, last: Data, n: nat)
    requires
        n <= items.len(),
    ensures
        data_octets_all(items.push(last), n) == data_octets_all(items, n),
    decreases n,
{
    if n > 0 {
        lemma_all_before(items, last, (n - 1) as nat);
        assert(items.push(last)[n - 1] == items[n - 1]);
    }
}

/// Content of a length that its kind cannot have is refused, and so is a kind
/// that is none of data.
pub proof fn content_of_a_wrong_length_is_refused(n: u32, c: Seq<u8>)
    ensures
        data_of(context_primitive(3), c) is Ok <==> c.len() == 1,
        data_of(context_primitive(4), c) is Ok <==> c.len() > 0 && c[0] < 8 && (c.len() == 1 ==>
            c[0] == 0),
        data_of(context_primitive(5), c) is Ok <==> 1 <= c.len() <= 8,
        data_of(context_primitive(6), c) is Ok <==> 1 <= c.len() <= 8 || (c.len() == 9 && c[0]
            == 0),
        data_of(context_primitive(7), c) is Ok <==> c.len() == 5 || c.len() == 9,
        data_of(context_primitive(9), c) is Ok,
        data_of(context_primitive(10), c) is Ok,
        data_of(context_primitive(16), c) is Ok,
        data_of(context_primitive(17), c) is Ok <==> c.len() == 8,
        n != 3 && n != 4 && n != 5 && n != 6 && n != 7 && n != 9 && n != 10 && n != 16 && n != 17
            ==> data_of(context_primitive(n), c) is Err,
        n != 1 && n != 2 ==> data_of(context_constructed(n), c) is Err,
{
}

/// Content reads as its kind says: any octet but zero is true, numbers weigh
/// their first octet most, and a floating-point value is what stands behind the
/// width of its exponent.
pub proof fn content_is_read_as_its_kind(c: Seq<u8>)
    ensures
        c.len() == 1 ==> data_of(context_primitive(3), c) == Ok::<Data, Seq<char>>(
            Data::Boolean(c[0] != 0),
        ),
        c.len() == 1 ==> data_of(context_primitive(5), c) == Ok::<Data, Seq<char>>(
            Data::Integer(if c[0] < 128 { c[0] as i64 } else { (c[0] - 256) as i64 }),
        ),
        c.len() == 1 ==> data_of(context_primitive(6), c) == Ok::<Data, Seq<char>>(
            Data::Unsigned(c[0] as u64),
        ),
        c.len() == 5 ==> data_of(context_primitive(7), c) == Ok::<Data, Seq<char>>(
            Data::Float32(
                (c[1] * 0x100_0000 + c[2] * 0x1_0000 + c[3] * 0x100 + c[4]) as u32,
            ),
        ),
        data_of(context_primitive(9), c) == Ok::<Data, Seq<char>>(Data::OctetString(c)),
        c.len() == 8 ==> data_of(context_primitive(17), c) == Ok::<Data, Seq<char>>(
            Data::UtcTime(c),
        ),
{
    if c.len() == 1 {
        reveal_with_fuel(be_value, 2);
        assert(c.drop_last() =~= Seq::<u8>::empty());
    }
    if c.len() == 5 {
        let s = c.skip(1);
        reveal_with_fuel(be_value, 5);
        assert(s.drop_last() =~= seq![c[1], c[2], c[3]]);
        assert(s.drop_last().drop_last() =~= seq![c[1], c[2]]);
        assert(s.drop_last().drop_last().drop_last() =~= seq![c[1]]);
        assert(s.drop_last().drop_last().drop_last().drop_last() =~= Seq::<u8>::empty());
    }
}

} // verus!
