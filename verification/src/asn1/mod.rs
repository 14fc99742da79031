//! Minimal BER (ISO 8825-1) runtime used by the MMS, ACSE, presentation,
//! GOOSE and SV codecs in this crate.
//!
//! It is deliberately small: tag/length/value framing, bounds-checked
//! decoding of untrusted input, and primitive value helpers. Typed PDU
//! grammars live in the modules that own them.
//!
//! Two encoding styles are offered:
//!
//! * [`Element`] builders ([`cons`], [`prim`], [`int_elem`], ...) for the
//!   control-plane PDUs where clarity beats allocation counts.
//! * `append_*` helpers ([`append_tag`], [`append_length`], [`append_int`],
//!   ...) for the GOOSE and SV hot paths.

use vstd::prelude::*;

use crate::octets::push_be;
use crate::text::{push_decimal, push_str};

pub mod base128;
pub mod decoder;
pub mod element;
pub mod oid;
pub mod primitives;

pub use base128::{append_base128, read_base128, Base128Read};
pub use decoder::Decoder;
pub use element::{cons, prim, raw_content, raw_tlv, Element};
pub use oid::{append_oid, decode_oid, oid_elem, Oid};
pub use primitives::{
    append_bit_string, append_float32, append_float64, append_int, append_uint, bit_string_elem,
    bool_elem, decode_bit_string, decode_bool, decode_float, decode_int, decode_uint, int_elem,
    int_size, uint_elem, uint_size, BitString, FloatBits,
};

verus! {

/// Tag class of a BER element.
#[derive(Debug, Clone, Copy, PartialEq, Eq, Structural, Hash, PartialOrd, Ord)]
pub enum Class {
    Universal,
    Application,
    ContextSpecific,
    Private,
}

impl Class {
    /// The two class bits of the identifier octet.
    pub open spec fn bits(self) -> nat {
        match self {
            Class::Universal => 0,
            Class::Application => 1,
            Class::ContextSpecific => 2,
            Class::Private => 3,
        }
    }

    /// The class with the given two bits.
    pub open spec fn of_bits(b: int) -> Class {
        if b == 0 {
            Class::Universal
        } else if b == 1 {
            Class::Application
        } else if b == 2 {
            Class::ContextSpecific
        } else {
            Class::Private
        }
    }

    pub(crate) fn from_bits(b: u8) -> (c: Class)
        ensures
            c == Class::of_bits(b as int % 4),
    {
        match b % 4 {
            0 => Class::Universal,
            1 => Class::Application,
            2 => Class::ContextSpecific,
            _ => Class::Private,
        }
    }

    pub(crate) fn to_bits(self) -> (b: u8)
        ensures
            b == self.bits(),
            b < 4,
    {
        match self {
            Class::Universal => 0,
            Class::Application => 1,
            Class::ContextSpecific => 2,
            Class::Private => 3,
        }
    }
}

/// Identifies a BER element.
#[derive(Debug, Clone, Copy, PartialEq, Eq, Structural, Hash, PartialOrd, Ord)]
pub struct Tag {
    pub class: Class,
    pub constructed: bool,
    pub number: u32,
}

impl Tag {
    #[verifier::allow_in_spec]
    pub fn new(class: Class, constructed: bool, number: u32) -> Tag
        returns
            (Tag { class, constructed, number }),
    {
        Tag { class, constructed, number }
    }

    /// The identifier octet without the tag number.
    pub open spec fn lead(self) -> nat {
        self.class.bits() * 64 + if self.constructed {
            32nat
        } else {
            0
        }
    }

    /// The identifier octets.
    pub open spec fn octets(self) -> Seq<u8> {
        if self.number < 31 {
            seq![(self.lead() + self.number) as u8]
        } else {
            seq![(self.lead() + 31) as u8] + base128::base128(self.number as nat)
        }
    }

    /// The notation used in messages, such as `[CONTEXT 3 primitive]`.
    pub open spec fn text(self) -> Seq<char> {
        "["@ + self.class.name() + " "@ + crate::text::decimal(self.number as nat) + " "@ + (
        if self.constructed {
            "constructed"@
        } else {
            "primitive"@
        }) + "]"@
    }

    /// Writes the tag in the notation used in messages.
    pub fn to_text(&self) -> (s: String)
        ensures
            s@ == self.text(),
    {
        let mut s = String::new();
        push_str(&mut s, "[");
        push_str(&mut s, self.class.label());
        push_str(&mut s, " ");
        push_decimal(&mut s, self.number as u64);
        push_str(&mut s, " ");
        push_str(&mut s, if self.constructed { "constructed" } else { "primitive" });
        push_str(&mut s, "]");
        assert(s@ =~= self.text());
        s
    }
}

impl Class {
    /// The class as written in messages.
    pub open spec fn name(self) -> Seq<char> {
        match self {
            Class::Universal => "UNIVERSAL"@,
            Class::Application => "APPLICATION"@,
            Class::ContextSpecific => "CONTEXT"@,
            Class::Private => "PRIVATE"@,
        }
    }

    fn label(self) -> (s: &'static str)
        ensures
            s@ == self.name(),
    {
        match self {
            Class::Universal => "UNIVERSAL",
            Class::Application => "APPLICATION",
            Class::ContextSpecific => "CONTEXT",
            Class::Private => "PRIVATE",
        }
    }
}

/// The universal BOOLEAN tag.
#[allow(non_snake_case)]
#[verifier::allow_in_spec]
pub fn TAG_BOOLEAN() -> Tag
    returns
        (Tag { class: Class::Universal, constructed: false, number: 1 }),
{
    Tag { class: Class::Universal, constructed: false, number: 1 }
}

/// The universal INTEGER tag.
#[allow(non_snake_case)]
#[verifier::allow_in_spec]
pub fn TAG_INTEGER() -> Tag
    returns
        (Tag { class: Class::Universal, constructed: false, number: 2 }),
{
    Tag { class: Class::Universal, constructed: false, number: 2 }
}

/// The universal BIT STRING tag.
#[allow(non_snake_case)]
#[verifier::allow_in_spec]
pub fn TAG_BIT_STRING() -> Tag
    returns
        (Tag { class: Class::Universal, constructed: false, number: 3 }),
{
    Tag { class: Class::Universal, constructed: false, number: 3 }
}

/// The universal OCTET STRING tag.
#[allow(non_snake_case)]
#[verifier::allow_in_spec]
pub fn TAG_OCTET_STRING() -> Tag
    returns
        (Tag { class: Class::Universal, constructed: false, number: 4 }),
{
    Tag { class: Class::Universal, constructed: false, number: 4 }
}

/// The universal NULL tag.
#[allow(non_snake_case)]
#[verifier::allow_in_spec]
pub fn TAG_NULL() -> Tag
    returns
        (Tag { class: Class::Universal, constructed: false, number: 5 }),
{
    Tag { class: Class::Universal, constructed: false, number: 5 }
}

/// The universal OID tag.
#[allow(non_snake_case)]
#[verifier::allow_in_spec]
pub fn TAG_OID() -> Tag
    returns
        (Tag { class: Class::Universal, constructed: false, number: 6 }),
{
    Tag { class: Class::Universal, constructed: false, number: 6 }
}

/// The universal UTF8 STRING tag.
#[allow(non_snake_case)]
#[verifier::allow_in_spec]
pub fn TAG_UTF8_STRING() -> Tag
    returns
        (Tag { class: Class::Universal, constructed: false, number: 12 }),
{
    Tag { class: Class::Universal, constructed: false, number: 12 }
}

/// The universal SEQUENCE tag.
#[allow(non_snake_case)]
#[verifier::allow_in_spec]
pub fn TAG_SEQUENCE() -> Tag
    returns
        (Tag { class: Class::Universal, constructed: true, number: 16 }),
{
    Tag { class: Class::Universal, constructed: true, number: 16 }
}

/// The universal SET tag.
#[allow(non_snake_case)]
#[verifier::allow_in_spec]
pub fn TAG_SET() -> Tag
    returns
        (Tag { class: Class::Universal, constructed: true, number: 17 }),
{
    Tag { class: Class::Universal, constructed: true, number: 17 }
}

/// The universal GENERAL TIME tag.
#[allow(non_snake_case)]
#[verifier::allow_in_spec]
pub fn TAG_GENERAL_TIME() -> Tag
    returns
        (Tag { class: Class::Universal, constructed: false, number: 24 }),
{
    Tag { class: Class::Universal, constructed: false, number: 24 }
}

/// The universal GRAPHIC STRING tag.
#[allow(non_snake_case)]
#[verifier::allow_in_spec]
pub fn TAG_GRAPHIC_STRING() -> Tag
    returns
        (Tag { class: Class::Universal, constructed: false, number: 25 }),
{
    Tag { class: Class::Universal, constructed: false, number: 25 }
}

/// The universal VISIBLE STRING tag.
#[allow(non_snake_case)]
#[verifier::allow_in_spec]
pub fn TAG_VISIBLE_STRING() -> Tag
    returns
        (Tag { class: Class::Universal, constructed: false, number: 26 }),
{
    Tag { class: Class::Universal, constructed: false, number: 26 }
}

/// Returns a primitive context-specific tag `[n]`.
#[verifier::allow_in_spec]
pub fn context_primitive(n: u32) -> Tag
    returns
        (Tag { class: Class::ContextSpecific, constructed: false, number: n }),
{
    Tag { class: Class::ContextSpecific, constructed: false, number: n }
}

/// Returns a constructed context-specific tag `[n]`.
#[verifier::allow_in_spec]
pub fn context_constructed(n: u32) -> Tag
    returns
        (Tag { class: Class::ContextSpecific, constructed: true, number: n }),
{
    Tag { class: Class::ContextSpecific, constructed: true, number: n }
}

/// Returns a constructed application-class tag.
#[verifier::allow_in_spec]
pub fn application_constructed(n: u32) -> Tag
    returns
        (Tag { class: Class::Application, constructed: true, number: n }),
{
    Tag { class: Class::Application, constructed: true, number: n }
}

/// Returns a primitive application-class tag.
#[verifier::allow_in_spec]
pub fn application_primitive(n: u32) -> Tag
    returns
        (Tag { class: Class::Application, constructed: false, number: n }),
{
    Tag { class: Class::Application, constructed: false, number: n }
}

/// Nesting limit enforced by the depth-aware decoder helpers.
pub const MAX_DEPTH: usize = 64;

/// Errors produced by the BER decoder.
///
/// Every framing variant carries the byte offset at which the fault was
/// detected.
#[derive(Debug, Clone, PartialEq, Eq)]
#[allow(inconsistent_fields)]
pub enum Error {
    Truncated { what: &'static str, offset: usize },
    BadTag { what: &'static str, offset: usize },
    BadLength { what: &'static str, offset: usize },
    TooDeep { offset: usize },
    Unexpected { expected: Tag, got: Tag, offset: usize },
    BadValue { what: String },
}

impl Error {
    /// The error for a malformed value.
    pub(crate) fn bad_value(what: &str) -> (e: Error)
        ensures
            is_bad_value(e, what@),
    {
        Error::BadValue { what: what.to_owned() }
    }

    /// The error `"<before><n><after>"` for a malformed value.
    pub(crate) fn bad_count(before: &str, n: usize, after: &str) -> (e: Error)
        ensures
            is_bad_value(e, before@ + crate::text::decimal(n as nat) + after@),
    {
        let mut s = String::new();
        push_str(&mut s, before);
        push_decimal(&mut s, n as u64);
        push_str(&mut s, after);
        assert(s@ =~= before@ + crate::text::decimal(n as nat) + after@);
        Error::BadValue { what: s }
    }

    /// The message of the error.
    pub open spec fn text(self) -> Seq<char> {
        match self {
            Error::Truncated { what, offset } => "asn1: truncated element while "@ + what@
                + " at offset "@ + crate::text::decimal(offset as nat),
            Error::BadTag { what, offset } => "asn1: malformed tag ("@ + what@ + ") at offset "@
                + crate::text::decimal(offset as nat),
            Error::BadLength { what, offset } => "asn1: malformed length ("@ + what@
                + ") at offset "@ + crate::text::decimal(offset as nat),
            Error::TooDeep { offset } => "asn1: nesting too deep at offset "@
                + crate::text::decimal(offset as nat),
            Error::Unexpected { expected, got, offset } => "asn1: expected "@ + expected.text()
                + ", got "@ + got.text() + " at offset "@ + crate::text::decimal(offset as nat),
            Error::BadValue { what } => "asn1: malformed value ("@ + what@ + ")"@,
        }
    }

    /// Writes the message of the error.
    pub fn to_text(&self) -> (s: String)
        ensures
            s@ == self.text(),
    {
        let mut s = String::new();
        match self {
            Error::Truncated { what, offset } => {
                push_str(&mut s, "asn1: truncated element while ");
                push_str(&mut s, what);
                push_str(&mut s, " at offset ");
                push_decimal(&mut s, *offset as u64);
            },
            Error::BadTag { what, offset } => {
                push_str(&mut s, "asn1: malformed tag (");
                push_str(&mut s, what);
                push_str(&mut s, ") at offset ");
                push_decimal(&mut s, *offset as u64);
            },
            Error::BadLength { what, offset } => {
                push_str(&mut s, "asn1: malformed length (");
                push_str(&mut s, what);
                push_str(&mut s, ") at offset ");
                push_decimal(&mut s, *offset as u64);
            },
            Error::TooDeep { offset } => {
                push_str(&mut s, "asn1: nesting too deep at offset ");
                push_decimal(&mut s, *offset as u64);
            },
            Error::Unexpected { expected, got, offset } => {
                push_str(&mut s, "asn1: expected ");
                push_str(&mut s, expected.to_text().as_str());
                push_str(&mut s, ", got ");
                push_str(&mut s, got.to_text().as_str());
                push_str(&mut s, " at offset ");
                push_decimal(&mut s, *offset as u64);
            },
            Error::BadValue { what } => {
                push_str(&mut s, "asn1: malformed value (");
                push_str(&mut s, what.as_str());
                push_str(&mut s, ")");
            },
        }
        assert(s@ =~= self.text());
        s
    }
}

/// Whether `e` reports a malformed value with the given description.
pub open spec fn is_bad_value(e: Error, text: Seq<char>) -> bool {
    e matches Error::BadValue { what } && what@ == text
}

/// Result alias for the BER runtime.
pub type Result<T> = std::result::Result<T, Error>;

/// The number of octets that hold a content length of 128 or more.
pub open spec fn length_octet_count(n: nat) -> nat {
    if n <= 0xff {
        1
    } else if n <= 0xffff {
        2
    } else if n <= 0xff_ffff {
        3
    } else {
        4
    }
}

/// The definite-form length octets for content length `n`. A length that
/// needs more than four octets is cut to its low four.
pub open spec fn length_octets(n: nat) -> Seq<u8> {
    if n < 0x80 {
        seq![n as u8]
    } else {
        seq![(0x80 + length_octet_count(n)) as u8] + crate::octets::be_bytes(
            n,
            length_octet_count(n),
        )
    }
}

/// A complete element: identifier, length and content octets.
pub open spec fn tlv(t: Tag, content: Seq<u8>) -> Seq<u8> {
    t.octets() + length_octets(content.len()) + content
}

/// Appends the identifier octets of `t` to `dst`.
pub fn append_tag(dst: &mut Vec<u8>, t: Tag)
    ensures
        final(dst)@ == old(dst)@ + t.octets(),
{
    let mut b: u8 = t.class.to_bits() * 64;
    if t.constructed {
        b = b + 0x20;
    }
    if t.number < 31 {
        dst.push(b + t.number as u8);
        assert(dst@ =~= old(dst)@ + t.octets());
        return;
    }
    dst.push(b + 0x1f);
    append_base128(dst, t.number);
    assert(dst@ =~= old(dst)@ + t.octets());
}

/// Appends definite-form length octets for content length `n`.
pub fn append_length(dst: &mut Vec<u8>, n: usize)
    ensures
        final(dst)@ == old(dst)@ + length_octets(n as nat),
{
    if n < 0x80 {
        dst.push(n as u8);
    } else if n <= 0xff {
        dst.push(0x81);
        push_be(dst, n as u64, 1);
    } else if n <= 0xffff {
        dst.push(0x82);
        push_be(dst, n as u64, 2);
    } else if n <= 0xff_ffff {
        dst.push(0x83);
        push_be(dst, n as u64, 3);
    } else {
        dst.push(0x84);
        push_be(dst, n as u64, 4);
    }
    assert(dst@ =~= old(dst)@ + length_octets(n as nat));
}

/// Returns the encoded size of the identifier octets of `t`.
pub fn tag_size(t: Tag) -> (n: usize)
    ensures
        n == t.octets().len(),
        1 <= n <= 6,
{
    proof {
        base128::lemma_base128_len(t.number as nat);
    }
    if t.number < 31 {
        1
    } else if t.number < 0x80 {
        2
    } else if t.number < 0x4000 {
        3
    } else if t.number < 0x20_0000 {
        4
    } else if t.number < 0x1000_0000 {
        5
    } else {
        6
    }
}

/// Returns the encoded size of the length octets for content length `n`.
pub fn length_size(n: usize) -> (k: usize)
    ensures
        k == length_octets(n as nat).len(),
        1 <= k <= 5,
{
    proof {
        crate::octets::lemma_be_bytes_len(n as nat, length_octet_count(n as nat));
    }
    if n < 0x80 {
        1
    } else if n <= 0xff {
        2
    } else if n <= 0xffff {
        3
    } else if n <= 0xff_ffff {
        4
    } else {
        5
    }
}

/// Returns the total encoded size of an element with tag `t` and content
/// length `n`.
pub fn tlv_size(t: Tag, n: usize) -> (k: usize)
    requires
        t.octets().len() + length_octets(n as nat).len() + n <= usize::MAX,
    ensures
        k == t.octets().len() + length_octets(n as nat).len() + n,
        forall|content: Seq<u8>| content.len() == n ==> k == #[trigger] tlv(t, content).len(),
{
    tag_size(t) + length_size(n) + n
}

/// Appends a complete element with the given content.
pub fn append_tlv(dst: &mut Vec<u8>, t: Tag, content: &[u8])
    ensures
        final(dst)@ == old(dst)@ + tlv(t, content@),
{
    append_tag(dst, t);
    append_length(dst, content.len());
    dst.extend_from_slice(content);
    assert(dst@ =~= old(dst)@ + tlv(t, content@));
}

/// The identifier octet holds the class in its top two bits, whether the
/// element is constructed in the next, and the number in the low five, which
/// are all set where the number follows in octets of its own.
pub proof fn an_identifier_is_laid_out(t: Tag)
    ensures
        t.octets()[0] / 64 == match t.class {
            Class::Universal => 0u8,
            Class::Application => 1,
            Class::ContextSpecific => 2,
            Class::Private => 3,
        },
        t.octets()[0] / 32 % 2 == 1 <==> t.constructed,
        t.number < 31 ==> t.octets().len() == 1 && t.octets()[0] % 32 == t.number,
        t.number >= 31 ==> t.octets()[0] % 32 == 31 && t.octets().len() > 1,
{
    if t.number >= 31 {
        base128::lemma_base128_len(t.number as nat);
    }
}

/// A length below 128 is one octet; any other is led by how many octets
/// follow, which are the fewest that hold it.
pub proof fn a_length_takes_the_fewest_octets(n: nat)
    requires
        n <= u32::MAX,
    ensures
        n < 128 ==> length_octets(n) == seq![n as u8],
        n >= 128 ==> {
            let k = length_octets(n)[0] - 128;
            &&& length_octets(n).len() == 1 + k
            &&& crate::octets::be_value(length_octets(n).skip(1)) == n
            &&& length_octets(n)[1] != 0
        },
{
    if n >= 128 {
        let k = length_octet_count(n);
        crate::octets::lemma_pow256_small();
        crate::octets::lemma_be_round_trip(n, k);
        assert(length_octets(n).skip(1) =~= crate::octets::be_bytes(n, k));
        reveal_with_fuel(crate::octets::be_bytes, 5);
    }
}

/// Each class of tags is called by its own name.
pub proof fn a_tag_class_has_its_name(x: Class)
    ensures
        x == Class::Universal ==> x.name() == "UNIVERSAL"@,
        x == Class::Application ==> x.name() == "APPLICATION"@,
        x == Class::ContextSpecific ==> x.name() == "CONTEXT"@,
        x == Class::Private ==> x.name() == "PRIVATE"@,
{
}

} // verus!
