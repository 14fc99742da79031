use vstd::prelude::*;

use super::{base128, read_base128, Base128Read, Class, Error, Result, Tag, MAX_DEPTH};
use vstd::slice::slice_subrange;

verus! {

/// What a step of the decoder comes to, and the offset at which it leaves the
/// cursor.
pub struct Step<T> {
    pub result: std::result::Result<T, Error>,
    pub off: int,
}

/// Reads identifier octets at `off`.
pub open spec fn tag_at(data: Seq<u8>, off: int) -> Step<Tag> {
    if off >= data.len() {
        Step { result: Err(Error::Truncated { what: "reading tag", offset: off as usize }), off }
    } else {
        let class = Class::of_bits(data[off] as int / 64);
        let constructed = data[off] as int / 32 % 2 == 1;
        if data[off] % 32 != 31 {
            Step {
                result: Ok(Tag { class, constructed, number: (data[off] % 32) as u32 }),
                off: off + 1,
            }
        } else {
            match base128::base128_at(data, off + 1, 0, 0) {
                Base128Read::Value { v, off: o } => Step {
                    result: Ok(Tag { class, constructed, number: v }),
                    off: o as int,
                },
                Base128Read::End { off: o } => Step {
                    result: Err(Error::Truncated { what: "reading tag", offset: o }),
                    off: o as int,
                },
                Base128Read::Long { off: o } => Step {
                    result: Err(Error::BadTag { what: "tag number too large", offset: o }),
                    off: o as int,
                },
            }
        }
    }
}

/// Reads length octets at `off`; `None` is the indefinite form.
pub open spec fn length_at(data: Seq<u8>, off: int) -> Step<Option<nat>> {
    if off >= data.len() {
        Step { result: Err(Error::Truncated { what: "reading length", offset: off as usize }), off }
    } else if data[off] < 0x80 {
        Step { result: Ok(Some(data[off] as nat)), off: off + 1 }
    } else if data[off] == 0x80 {
        Step { result: Ok(None), off: off + 1 }
    } else {
        let k = data[off] - 0x80;
        if k > 4 {
            Step {
                result: Err(
                    Error::BadLength { what: "length overflows", offset: (off + 1) as usize },
                ),
                off: off + 1,
            }
        } else if off + 1 + k > data.len() {
            Step {
                result: Err(
                    Error::Truncated { what: "reading length", offset: (off + 1) as usize },
                ),
                off: off + 1,
            }
        } else {
            Step {
                result: Ok(
                    Some(crate::octets::be_value(data.subrange(off + 1, off + 1 + k))),
                ),
                off: off + 1 + k,
            }
        }
    }
}

/// Whether end-of-contents octets stand at `off`.
pub open spec fn eoc_at(data: Seq<u8>, off: int) -> bool {
    off + 2 <= data.len() && data[off] == 0 && data[off + 1] == 0
}

/// Reads one element at `off`, `depth` elements of indefinite length around
/// it: its tag and the bounds of its content.
pub open spec fn element_at(data: Seq<u8>, off: int, depth: nat) -> Step<(Tag, int, int)>
    decreases MAX_DEPTH + 2 - depth, data.len() - off,
{
    if depth > MAX_DEPTH {
        Step { result: Err(Error::TooDeep { offset: off as usize }), off }
    } else {
        let t = tag_at(data, off);
        match t.result {
            Err(e) => Step { result: Err(e), off: t.off },
            Ok(tag) => {
                let n = length_at(data, t.off);
                match n.result {
                    Err(e) => Step { result: Err(e), off: n.off },
                    Ok(Some(len)) => if len > data.len() - n.off {
                        Step {
                            result: Err(
                                Error::Truncated {
                                    what: "reading content",
                                    offset: n.off as usize,
                                },
                            ),
                            off: n.off,
                        }
                    } else {
                        Step { result: Ok((tag, n.off, n.off + len)), off: n.off + len }
                    },
                    Ok(None) => if !tag.constructed {
                        Step {
                            result: Err(
                                Error::BadLength {
                                    what: "indefinite length on primitive",
                                    offset: n.off as usize,
                                },
                            ),
                            off: n.off,
                        }
                    } else if n.off <= off {
                        arbitrary()
                    } else {
                        let s = contents_end_at(data, n.off, depth);
                        match s.result {
                            Err(e) => Step { result: Err(e), off: s.off },
                            Ok(end) => Step { result: Ok((tag, n.off, end)), off: s.off },
                        }
                    },
                }
            },
        }
    }
}

/// Skips elements from `off` to the end-of-contents octets: where they stand.
pub open spec fn contents_end_at(data: Seq<u8>, off: int, depth: nat) -> Step<int>
    decreases MAX_DEPTH + 2 - depth, data.len() - off,
{
    if depth > MAX_DEPTH {
        arbitrary()
    } else if eoc_at(data, off) {
        Step { result: Ok(off), off: off + 2 }
    } else {
        let s = element_at(data, off, depth + 1);
        match s.result {
            Err(e) => Step { result: Err(e), off: s.off },
            Ok(_) => if s.off <= off || s.off > data.len() {
                arbitrary()
            } else {
                contents_end_at(data, s.off, depth)
            },
        }
    }
}

/// Reading a tag stays within the data, and a tag that was read has octets.
pub proof fn lemma_tag_at_off(data: Seq<u8>, off: int)
    requires
        0 <= off <= data.len() <= usize::MAX,
    ensures
        off <= tag_at(data, off).off <= data.len(),
        tag_at(data, off).result is Ok ==> off < tag_at(data, off).off,
{
    if off < data.len() {
        base128::lemma_base128_at_off(data, off + 1, 0, 0);
    }
}

/// Reading a length stays within the data, and a length that was read has
/// octets.
pub proof fn lemma_length_at_off(data: Seq<u8>, off: int)
    requires
        0 <= off <= data.len() <= usize::MAX,
    ensures
        off <= length_at(data, off).off <= data.len(),
        length_at(data, off).result is Ok ==> off < length_at(data, off).off,
{
}

/// Reading an element never moves the cursor backwards or past the end of the
/// data, and an element that was read has at least two octets. Its content
/// lies within what was consumed.
pub proof fn lemma_element_at_off(data: Seq<u8>, off: int, depth: nat)
    requires
        0 <= off <= data.len() <= usize::MAX,
    ensures
        off <= element_at(data, off, depth).off <= data.len(),
        match element_at(data, off, depth).result {
            Ok((t, a, b)) => {
                &&& off + 2 <= a <= b <= element_at(data, off, depth).off
                &&& depth <= MAX_DEPTH
            },
            Err(_) => true,
        },
    decreases MAX_DEPTH + 2 - depth, data.len() - off,
{
    if depth <= MAX_DEPTH {
        lemma_tag_at_off(data, off);
        let t = tag_at(data, off);
        if t.result is Ok {
            lemma_length_at_off(data, t.off);
            let n = length_at(data, t.off);
            if n.result matches Ok(None) && t.result->Ok_0.constructed {
                lemma_contents_end_at_off(data, n.off, depth);
            }
        }
    }
}

/// Skipping to end-of-contents octets stays within the data.
pub proof fn lemma_contents_end_at_off(data: Seq<u8>, off: int, depth: nat)
    requires
        0 <= off <= data.len() <= usize::MAX,
        depth <= MAX_DEPTH,
    ensures
        off <= contents_end_at(data, off, depth).off <= data.len(),
        match contents_end_at(data, off, depth).result {
            Ok(end) => off <= end && end + 2 == contents_end_at(data, off, depth).off,
            Err(_) => true,
        },
    decreases MAX_DEPTH + 2 - depth, data.len() - off,
{
    if !eoc_at(data, off) {
        lemma_element_at_off(data, off, depth + 1);
        let s = element_at(data, off, depth + 1);
        if s.result is Ok {
            lemma_contents_end_at_off(data, s.off, depth);
        }
    }
}

/// A bounds-checked cursor over BER-encoded bytes.
///
/// The content slices it returns borrow from the input buffer, so the
/// decoder never copies. Indefinite lengths are accepted (the matching
/// end-of-contents octets are located by structural scanning) since BER
/// permits them, although all known IEC 61850 stacks emit definite lengths.
#[derive(Debug, Clone)]
pub struct Decoder<'a> {
    data: &'a [u8],
    off: usize,
}

impl<'a> Decoder<'a> {
    /// The bytes under the cursor.
    pub closed spec fn bytes(&self) -> Seq<u8> {
        self.data@
    }

    /// The offset of the next unread byte.
    pub closed spec fn pos(&self) -> int {
        self.off as int
    }

    /// The cursor stands within the data.
    pub open spec fn wf(&self) -> bool {
        0 <= self.pos() <= self.bytes().len() <= usize::MAX
    }

    /// Returns a decoder over `data`.
    pub fn new(data: &'a [u8]) -> (d: Decoder<'a>)
        ensures
            d.wf(),
            d.bytes() == data@,
            d.pos() == 0,
    {
        let n: usize = data.len();
        Decoder { data, off: 0 }
    }

    /// Reports whether unread bytes remain.
    pub fn more(&self) -> (b: bool)
        ensures
            b == (self.pos() < self.bytes().len()),
    {
        self.off < self.data.len()
    }

    /// Returns the current byte offset, for error reporting.
    pub fn offset(&self) -> (o: usize)
        ensures
            o == self.pos(),
    {
        self.off
    }

    /// Returns the unread remainder without consuming it.
    pub fn rest(&self) -> (r: &'a [u8])
        requires
            self.wf(),
        ensures
            r@ == self.bytes().skip(self.pos()),
    {
        slice_subrange(self.data, self.off, self.data.len())
    }

    /// Consumes and returns the identifier octets.
    fn read_tag(&mut self) -> (r: Result<Tag>)
        requires
            old(self).wf(),
        ensures
            final(self).wf(),
            final(self).bytes() == old(self).bytes(),
            r == tag_at(old(self).bytes(), old(self).pos()).result,
            final(self).pos() == tag_at(old(self).bytes(), old(self).pos()).off,
    {
        proof {
            lemma_tag_at_off(self.data@, self.off as int);
        }
        if self.off >= self.data.len() {
            return Err(Error::Truncated { what: "reading tag", offset: self.off });
        }
        let b: u8 = self.data[self.off];
        self.off = self.off + 1;
        let class = Class::from_bits(b / 64);
        let constructed = b / 32 % 2 == 1;
        if b % 32 != 0x1f {
            return Ok(Tag { class, constructed, number: (b % 32) as u32 });
        }
        // High tag number form.
        match read_base128(self.data, self.off) {
            Base128Read::Value { v, off } => {
                self.off = off;
                Ok(Tag { class, constructed, number: v })
            },
            Base128Read::End { off } => {
                self.off = off;
                Err(Error::Truncated { what: "reading tag", offset: off })
            },
            Base128Read::Long { off } => {
                self.off = off;
                Err(Error::BadTag { what: "tag number too large", offset: off })
            },
        }
    }

    /// Consumes the length octets. The boolean is true for the indefinite
    /// form (`0x80`).
    fn read_length(&mut self) -> (r: Result<(usize, bool)>)
        requires
            old(self).wf(),
        ensures
            final(self).wf(),
            final(self).bytes() == old(self).bytes(),
            final(self).pos() == length_at(old(self).bytes(), old(self).pos()).off,
            match (r, length_at(old(self).bytes(), old(self).pos()).result) {
                (Ok((n, indefinite)), Ok(Some(len))) => !indefinite && n == len,
                (Ok((n, indefinite)), Ok(None)) => indefinite && n == 0,
                (Err(e), Err(e2)) => e == e2,
                _ => false,
            },
    {
        if self.off >= self.data.len() {
            return Err(Error::Truncated { what: "reading length", offset: self.off });
        }
        let b: u8 = self.data[self.off];
        self.off = self.off + 1;
        if b < 0x80 {
            return Ok((b as usize, false));
        }
        if b == 0x80 {
            return Ok((0, true));
        }
        let num_octets: usize = (b - 0x80) as usize;
        if num_octets > 4 {
            return Err(Error::BadLength { what: "length overflows", offset: self.off });
        }
        if num_octets > self.data.len() - self.off {
            return Err(Error::Truncated { what: "reading length", offset: self.off });
        }
        let octets = slice_subrange(self.data, self.off, self.off + num_octets);
        proof {
            crate::octets::lemma_be_value_round_trip(octets@);
            crate::octets::lemma_pow256_small();
        }
        let n: usize = crate::octets::read_be(octets) as usize;
        self.off = self.off + num_octets;
        Ok((n, false))
    }

    /// Returns the tag of the next element without consuming anything.
    pub fn peek(&self) -> (r: Result<Tag>)
        requires
            self.wf(),
        ensures
            r == tag_at(self.bytes(), self.pos()).result,
    {
        let mut probe = Decoder { data: self.data, off: self.off };
        probe.read_tag()
    }

    /// Reports whether the next element has tag `t`. False when no element
    /// remains or the tag is malformed.
    pub fn peek_is(&self, t: Tag) -> (b: bool)
        requires
            self.wf(),
        ensures
            b == (tag_at(self.bytes(), self.pos()).result == Ok::<Tag, Error>(t)),
    {
        match self.peek() {
            Ok(got) => got == t,
            Err(_) => false,
        }
    }

    /// Whether `r` and the cursor `after` are what reading the next element
    /// of `before` comes to.
    pub open spec fn read_one(before: Self, after: Self, r: Result<(Tag, &'a [u8])>) -> bool {
        let s = element_at(before.bytes(), before.pos(), 0);
        &&& after.wf()
        &&& after.bytes() == before.bytes()
        &&& after.pos() == s.off
        &&& match (r, s.result) {
            (Ok((t, content)), Ok((t2, a, b))) => t == t2 && content@ == before.bytes().subrange(
                a,
                b,
            ),
            (Err(e), Err(e2)) => e == e2,
            _ => false,
        }
    }

    /// Consumes the next element and returns its tag and content octets.
    ///
    /// For indefinite-length elements the content excludes the
    /// end-of-contents octets.
    pub fn read_tlv(&mut self) -> (r: Result<(Tag, &'a [u8])>)
        requires
            old(self).wf(),
        ensures
            Self::read_one(*old(self), *final(self), r),
    {
        self.read_tlv_at(0)
    }

    fn read_tlv_at(&mut self, depth: usize) -> (r: Result<(Tag, &'a [u8])>)
        requires
            old(self).wf(),
            depth <= MAX_DEPTH + 1,
        ensures
            final(self).wf(),
            final(self).bytes() == old(self).bytes(),
            final(self).pos() == element_at(old(self).bytes(), old(self).pos(), depth as nat).off,
            match (r, element_at(old(self).bytes(), old(self).pos(), depth as nat).result) {
                (Ok((t, content)), Ok((t2, a, b))) => t == t2 && content@
                    == old(self).bytes().subrange(a, b),
                (Err(e), Err(e2)) => e == e2,
                _ => false,
            },
        decreases MAX_DEPTH + 1 - depth,
    {
        let ghost data = self.data@;
        let ghost at = self.off as int;
        proof {
            lemma_element_at_off(data, at, depth as nat);
            lemma_tag_at_off(data, at);
            lemma_length_at_off(data, tag_at(data, at).off);
        }
        if depth > MAX_DEPTH {
            return Err(Error::TooDeep { offset: self.off });
        }
        let t = match self.read_tag() {
            Ok(t) => t,
            Err(e) => return Err(e),
        };
        let (n, indefinite) = match self.read_length() {
            Ok(p) => p,
            Err(e) => return Err(e),
        };
        if !indefinite {
            if n > self.data.len() - self.off {
                return Err(Error::Truncated { what: "reading content", offset: self.off });
            }
            let content = slice_subrange(self.data, self.off, self.off + n);
            self.off = self.off + n;
            return Ok((t, content));
        }
        if !t.constructed {
            return Err(
                Error::BadLength { what: "indefinite length on primitive", offset: self.off },
            );
        }
        // Indefinite: scan children until end-of-contents (00 00).
        let start: usize = self.off;
        loop
            invariant
                depth <= MAX_DEPTH,
                self.data@ == data,
                start <= self.off <= data.len() <= usize::MAX,
                data == old(self).bytes(),
                at == old(self).pos(),
                contents_end_at(data, start as int, depth as nat) == contents_end_at(
                    data,
                    self.off as int,
                    depth as nat,
                ),
                element_at(data, at, depth as nat).result == (match contents_end_at(
                    data,
                    start as int,
                    depth as nat,
                ).result {
                    Err(e) => Err::<(Tag, int, int), Error>(e),
                    Ok(end) => Ok((t, start as int, end)),
                }),
                element_at(data, at, depth as nat).off == contents_end_at(
                    data,
                    start as int,
                    depth as nat,
                ).off,
            decreases data.len() - self.off,
        {
            proof {
                lemma_element_at_off(data, self.off as int, depth as nat + 1);
            }
            if self.data.len() - self.off >= 2 && self.data[self.off] == 0 && self.data[self.off
                + 1] == 0 {
                let content = slice_subrange(self.data, start, self.off);
                self.off = self.off + 2;
                return Ok((t, content));
            }
            match self.read_tlv_at(depth + 1) {
                Ok(_) => {},
                Err(e) => return Err(e),
            }
        }
    }

    /// Consumes the next element, requiring tag `t`, and returns its content.
    pub fn expect(&mut self, t: Tag) -> (r: Result<&'a [u8]>)
        requires
            old(self).wf(),
        ensures
            final(self).wf(),
            final(self).bytes() == old(self).bytes(),
            final(self).pos() == element_at(old(self).bytes(), old(self).pos(), 0).off,
            match (r, element_at(old(self).bytes(), old(self).pos(), 0).result) {
                (Ok(content), Ok((got, a, b))) => got == t && content@
                    == old(self).bytes().subrange(a, b),
                (Err(e), Ok((got, a, b))) => got != t && e == (Error::Unexpected {
                    expected: t,
                    got,
                    offset: old(self).pos() as usize,
                }),
                (Err(e), Err(e2)) => e == e2,
                _ => false,
            },
    {
        let offset: usize = self.off;
        match self.read_tlv() {
            Ok((got, content)) => {
                if got != t {
                    return Err(Error::Unexpected { expected: t, got, offset });
                }
                Ok(content)
            },
            Err(e) => Err(e),
        }
    }

    /// Consumes the next element only if it has tag `t`, returning its
    /// content. Nothing is consumed when the tag does not match.
    pub fn optional(&mut self, t: Tag) -> (r: Result<Option<&'a [u8]>>)
        requires
            old(self).wf(),
        ensures
            final(self).wf(),
            final(self).bytes() == old(self).bytes(),
            ({
                let data = old(self).bytes();
                let at = old(self).pos();
                if at >= data.len() {
                    r == Ok::<Option<&'a [u8]>, Error>(None) && final(self).pos() == at
                } else {
                    match tag_at(data, at).result {
                        Err(e) => r == Err::<Option<&'a [u8]>, Error>(e) && final(self).pos() == at,
                        Ok(got) => if got != t {
                            r == Ok::<Option<&'a [u8]>, Error>(None) && final(self).pos() == at
                        } else {
                            &&& final(self).pos() == element_at(data, at, 0).off
                            &&& match (r, element_at(data, at, 0).result) {
                                (Ok(Some(content)), Ok((_, a, b))) => content@ == data.subrange(
                                    a,
                                    b,
                                ),
                                (Err(e), Err(e2)) => e == e2,
                                _ => false,
                            }
                        },
                    }
                }
            }),
    {
        if !self.more() {
            return Ok(None);
        }
        match self.peek() {
            Ok(got) => {
                if got != t {
                    return Ok(None);
                }
            },
            Err(e) => return Err(e),
        }
        match self.read_tlv() {
            Ok((_, content)) => Ok(Some(content)),
            Err(e) => Err(e),
        }
    }

    /// Consumes and discards the next element.
    pub fn skip(&mut self) -> (r: Result<()>)
        requires
            old(self).wf(),
        ensures
            final(self).wf(),
            final(self).bytes() == old(self).bytes(),
            final(self).pos() == element_at(old(self).bytes(), old(self).pos(), 0).off,
            match (r, element_at(old(self).bytes(), old(self).pos(), 0).result) {
                (Ok(_), Ok(_)) => true,
                (Err(e), Err(e2)) => e == e2,
                _ => false,
            },
    {
        match self.read_tlv() {
            Ok(_) => Ok(()),
            Err(e) => Err(e),
        }
    }
}

/// A tag that was written reads back as itself, whatever stands around it.
pub proof fn tag_round_trip(before: Seq<u8>, t: Tag, after: Seq<u8>)
    requires
        before.len() + t.octets().len() + after.len() <= usize::MAX,
    ensures
        tag_at(before + t.octets() + after, before.len() as int) == (Step {
            result: Ok::<Tag, Error>(t),
            off: (before.len() + t.octets().len()) as int,
        }),
{
    let s = before + t.octets() + after;
    let o = before.len() as int;
    assert(s[o] == t.octets()[0]);
    let lead = s[o] as int;
    if t.number >= 31 {
        base128::lemma_base128_round_trip(before.push(s[o]), t.number, after);
        assert(s =~= before.push(s[o]) + base128::base128(t.number as nat) + after);
    }
}

/// A definite length below 2^32 that was written reads back as itself.
pub proof fn length_round_trip(before: Seq<u8>, n: nat, after: Seq<u8>)
    requires
        n <= u32::MAX,
        before.len() + super::length_octets(n).len() + after.len() <= usize::MAX,
    ensures
        length_at(before + super::length_octets(n) + after, before.len() as int) == (Step {
            result: Ok::<Option<nat>, Error>(Some(n)),
            off: (before.len() + super::length_octets(n).len()) as int,
        }),
{
    let s = before + super::length_octets(n) + after;
    let o = before.len() as int;
    if n < 0x80 {
        assert(s[o] == n as u8);
    } else {
        let k = super::length_octet_count(n);
        crate::octets::lemma_pow256_small();
        crate::octets::lemma_be_round_trip(n, k);
        assert(s[o] == (0x80 + k) as u8);
        assert(s.subrange(o + 1, o + 1 + k) =~= crate::octets::be_bytes(n, k));
    }
}

/// An element that was written reads back as its tag and its content, whatever
/// stands around it, and the cursor stops behind it.
pub proof fn element_round_trip(before: Seq<u8>, t: Tag, content: Seq<u8>, after: Seq<u8>)
    requires
        content.len() <= u32::MAX,
        before.len() + super::tlv(t, content).len() + after.len() <= usize::MAX,
    ensures
        ({
            let data = before + super::tlv(t, content) + after;
            let s = element_at(data, before.len() as int, 0);
            &&& s.off == before.len() + super::tlv(t, content).len()
            &&& s.result matches Ok((t2, a, b)) && t2 == t && data.subrange(a, b) == content
        }),
{
    let data = before + super::tlv(t, content) + after;
    let l = super::length_octets(content.len());
    tag_round_trip(before, t, l + content + after);
    assert(data =~= before + t.octets() + (l + content + after));
    length_round_trip(before + t.octets(), content.len(), content + after);
    assert(data =~= (before + t.octets()) + l + (content + after));
    let a = (before.len() + t.octets().len() + l.len()) as int;
    assert(data.subrange(a, a + content.len()) =~= content);
}

/// An element that was cut off anywhere is refused, never misread.
pub proof fn a_truncated_element_is_refused(t: Tag, content: Seq<u8>, k: int)
    requires
        content.len() <= u32::MAX,
        super::tlv(t, content).len() <= usize::MAX,
        0 <= k < super::tlv(t, content).len(),
    ensures
        element_at(super::tlv(t, content).take(k), 0, 0).result is Err,
{
    let whole = super::tlv(t, content);
    let data = whole.take(k);
    let tag = t.octets();
    let l = super::length_octets(content.len());
    let nothing = Seq::<u8>::empty();
    if k < tag.len() {
        if k > 0 {
            let rest = base128::base128(t.number as nat);
            base128::lemma_base128_cut(seq![tag[0]], t.number as nat, k - 1);
            assert(data =~= seq![tag[0]] + rest.take(k - 1));
            assert(tag[0] % 32 == 31);
        }
    } else {
        tag_round_trip(nothing, t, data.skip(tag.len() as int));
        assert(data =~= nothing + tag + data.skip(tag.len() as int));
        let o = tag.len() as int;
        if k < o + l.len() {
            if k > o {
                assert(data[o] == l[0]);
                if content.len() >= 0x80 {
                    assert(l.len() == 1 + super::length_octet_count(content.len())) by {
                        crate::octets::lemma_be_bytes_len(
                            content.len(),
                            super::length_octet_count(content.len()),
                        );
                    }
                }
            }
        } else {
            let after = data.skip(o + l.len());
            length_round_trip(tag, content.len(), after);
            assert(data =~= tag + l + after);
        }
    }
}

/// An element of indefinite length holds what stands before the two zero octets
/// that end it.
pub proof fn an_indefinite_length_ends_at_two_zeros(t: Tag, inner: Tag, c: Seq<u8>, after: Seq<u8>)
    requires
        t.constructed,
        inner.octets()[0] != 0,
        c.len() <= u32::MAX,
        t.octets().len() + super::tlv(inner, c).len() + after.len() + 3 <= usize::MAX,
    ensures
        ({
            let data = t.octets() + seq![0x80u8] + super::tlv(inner, c) + seq![0u8, 0] + after;
            let s = element_at(data, 0, 0);
            &&& s.off == data.len() - after.len()
            &&& s.result matches Ok((got, a, b)) && got == t && data.subrange(a, b) == super::tlv(
                inner,
                c,
            )
        }),
{
    let head = t.octets();
    let one = super::tlv(inner, c);
    let front = head + seq![0x80u8];
    let rest = seq![0u8, 0] + after;
    let data = head + seq![0x80u8] + one + seq![0u8, 0] + after;
    let nothing = Seq::<u8>::empty();
    let o = head.len() as int;
    let end = o + 1 + one.len();
    tag_round_trip(nothing, t, seq![0x80u8] + one + rest);
    assert(data =~= nothing + head + (seq![0x80u8] + one + rest));
    assert(data[o] == 0x80u8);
    lemma_element_at_depth(front, inner, c, rest, 1);
    assert(data =~= front + one + rest);
    assert(data[o + 1] == inner.octets()[0]);
    assert(data[end] == 0 && data[end + 1] == 0);
    lemma_contents_of_one(data, o + 1, end);
    assert(data.subrange(o + 1, end) =~= one);
}

/// An element of definite length reads the same at any depth.
proof fn lemma_element_at_depth(
    before: Seq<u8>,
    t: Tag,
    content: Seq<u8>,
    after: Seq<u8>,
    depth: nat,
)
    requires
        depth <= MAX_DEPTH,
        content.len() <= u32::MAX,
        before.len() + super::tlv(t, content).len() + after.len() <= usize::MAX,
    ensures
        ({
            let data = before + super::tlv(t, content) + after;
            let s = element_at(data, before.len() as int, depth);
            &&& s.off == before.len() + super::tlv(t, content).len()
            &&& s.result is Ok
        }),
{
    let data = before + super::tlv(t, content) + after;
    let l = super::length_octets(content.len());
    tag_round_trip(before, t, l + content + after);
    assert(data =~= before + t.octets() + (l + content + after));
    length_round_trip(before + t.octets(), content.len(), content + after);
    assert(data =~= (before + t.octets()) + l + (content + after));
}

/// Contents of one element end behind it.
proof fn lemma_contents_of_one(data: Seq<u8>, from: int, end: int)
    requires
        0 <= from < end,
        end + 2 <= data.len(),
        !eoc_at(data, from),
        element_at(data, from, 1).result is Ok,
        element_at(data, from, 1).off == end,
        eoc_at(data, end),
    ensures
        contents_end_at(data, from, 0) == (Step { result: Ok::<int, Error>(end), off: end + 2 }),
{
    assert(contents_end_at(data, end, 0) == (Step { result: Ok::<int, Error>(end), off: end + 2 }));
}

/// A length that cannot be told is refused: one of more than four octets, and
/// an indefinite one of an element that is not constructed.
pub proof fn a_length_that_cannot_be_told_is_refused(t: Tag, n: u8, rest: Seq<u8>)
    requires
        t.octets().len() + rest.len() + 1 <= usize::MAX,
    ensures
        n > 0x84 ==> element_at(t.octets() + seq![n] + rest, 0, 0).result is Err,
        n == 0x80 && !t.constructed ==> element_at(
            t.octets() + seq![n] + rest,
            0,
            0,
        ).result is Err,
        0 < n < 0x80 && n > rest.len() ==> element_at(
            t.octets() + seq![n] + rest,
            0,
            0,
        ).result is Err,
{
    let data = t.octets() + seq![n] + rest;
    let nothing = Seq::<u8>::empty();
    tag_round_trip(nothing, t, seq![n] + rest);
    assert(data =~= nothing + t.octets() + (seq![n] + rest));
    assert(data[t.octets().len() as int] == n);
}

} // verus!
