use vstd::prelude::*;

use super::{append_length, append_tag, length_octets, length_size, tag_size, tlv, Tag};
use vstd::slice::slice_to_vec;

verus! {

/// A build-time representation of a BER element.
///
/// It exists for the control-plane codecs (MMS, ACSE, presentation) where
/// clarity beats allocation counts; the GOOSE and SV hot paths use the
/// `append_*` helpers directly instead.
#[derive(Debug, PartialEq, Eq)]
#[allow(inconsistent_fields)]
pub enum Element {
    /// A primitive element carrying content octets.
    Primitive { tag: Tag, value: Vec<u8> },
    /// A constructed element carrying child elements.
    Constructed { tag: Tag, children: Vec<Element> },
    /// A constructed element whose content is already-encoded octets.
    ///
    /// This embeds a nested PDU encoded elsewhere without re-parsing it,
    /// for example an ACSE APDU inside a presentation single-ASN1-type.
    Raw { tag: Tag, content: Vec<u8> },
    /// Pre-encoded complete TLV(s) appended verbatim, with no tag or length
    /// of their own. Use it to place an element encoded elsewhere as a child
    /// of a constructed element.
    Verbatim(Vec<u8>),
}

impl Clone for Element {
    fn clone(&self) -> (e: Element)
        ensures
            e.tag_of() == self.tag_of(),
            e.encoded() == self.encoded(),
        decreases self,
    {
        match self {
            Element::Primitive { tag, value } => Element::Primitive {
                tag: *tag,
                value: slice_to_vec(value.as_slice()),
            },
            Element::Constructed { tag, children } => {
                let mut copy: Vec<Element> = Vec::new();
                let mut i: usize = 0;
                while i < children.len()
                    invariant
                        i <= children@.len(),
                        copy@.len() == i,
                        Element::encoded_all(copy@, i as nat) == Element::encoded_all(
                            children@,
                            i as nat,
                        ),
                        self matches Element::Constructed { children: c, .. } && c == children,
                    decreases children@.len() - i,
                {
                    proof {
                        assert(decreases_to!(self => children@));
                    }
                    let ghost before = copy@;
                    copy.push(children[i].clone());
                    proof {
                        assert(before.take(i as int) =~= copy@.take(i as int));
                        lemma_encoded_all_same(before, copy@, i as nat);
                    }
                    i = i + 1;
                }
                Element::Constructed { tag: *tag, children: copy }
            },
            Element::Raw { tag, content } => Element::Raw {
                tag: *tag,
                content: slice_to_vec(content.as_slice()),
            },
            Element::Verbatim(v) => Element::Verbatim(slice_to_vec(v.as_slice())),
        }
    }
}

/// `tag` with the constructed bit set.
pub open spec fn constructed(tag: Tag) -> Tag {
    Tag { constructed: true, ..tag }
}

/// Returns a primitive element.
pub fn prim(tag: Tag, value: Vec<u8>) -> (e: Element)
    ensures
        e == (Element::Primitive { tag, value }),
{
    Element::Primitive { tag, value }
}

/// Returns a constructed element, whatever the constructed bit of `tag` says.
pub fn cons(tag: Tag, children: Vec<Element>) -> (e: Element)
    ensures
        e == (Element::Constructed { tag: constructed(tag), children }),
{
    Element::Constructed { tag: Tag { class: tag.class, constructed: true, number: tag.number }, children }
}

/// Returns a constructed element with tag `t` whose content is the
/// already-encoded octets in `content` (one or more complete TLVs).
pub fn raw_content(tag: Tag, content: Vec<u8>) -> (e: Element)
    ensures
        e == (Element::Raw { tag: constructed(tag), content }),
{
    Element::Raw { tag: Tag { class: tag.class, constructed: true, number: tag.number }, content }
}

/// Returns an element that appends the pre-encoded complete TLV(s) in `tlv`
/// verbatim, with no tag or length of its own.
pub fn raw_tlv(tlv: Vec<u8>) -> (e: Element)
    ensures
        e == Element::Verbatim(tlv),
{
    Element::Verbatim(tlv)
}

impl Element {
    /// The tag, where the element has one.
    pub open spec fn tag_of(self) -> Option<Tag> {
        match self {
            Element::Primitive { tag, .. } => Some(tag),
            Element::Constructed { tag, .. } => Some(tag),
            Element::Raw { tag, .. } => Some(tag),
            Element::Verbatim(_) => None,
        }
    }

    /// The content octets.
    pub open spec fn content(self) -> Seq<u8>
        decreases self, 0nat,
    {
        match self {
            Element::Primitive { value, .. } => value@,
            Element::Constructed { children, .. } => Element::encoded_all(children@, children@.len()),
            Element::Raw { content, .. } => content@,
            Element::Verbatim(v) => v@,
        }
    }

    /// The encoded element.
    pub open spec fn encoded(self) -> Seq<u8>
        decreases self, 1nat,
    {
        match self.tag_of() {
            Some(tag) => tlv(tag, self.content()),
            None => self.content(),
        }
    }

    /// The encodings of the first `n` of `children`, one after another.
    pub open spec fn encoded_all(children: Seq<Element>, n: nat) -> Seq<u8>
        decreases children, n,
    {
        if n == 0 || n > children.len() {
            Seq::empty()
        } else {
            Element::encoded_all(children, (n - 1) as nat) + children[n - 1].encoded()
        }
    }

    /// The children that a constructed element has after `more` were added;
    /// other elements stay as they are.
    pub open spec fn grown(self, more: Seq<Element>, after: Element) -> bool {
        match self {
            Element::Constructed { tag, children } => after matches Element::Constructed {
                tag: t2,
                children: c2,
            } && t2 == tag && c2@ == children@ + more,
            _ => after == self,
        }
    }

    /// Returns an empty constructed element with tag `t`, ready for
    /// [`add`](Element::add) / [`push`](Element::push).
    pub fn seq(tag: Tag) -> (e: Element)
        ensures
            e matches Element::Constructed { tag: t, children } && t == constructed(tag)
                && children@.len() == 0,
    {
        cons(tag, Vec::new())
    }

    /// Appends a child and returns `self`, for chained construction.
    ///
    /// Has no effect on primitive, raw or verbatim elements.
    #[must_use]
    pub fn add(self, child: Element) -> (e: Element)
        ensures
            self.grown(seq![child], e),
    {
        let mut e = self;
        e.push(child);
        e
    }

    /// Appends `child` when it is `Some`, and returns `self`.
    ///
    /// This is how optional PDU fields are expressed inline.
    #[must_use]
    pub fn add_opt(self, child: Option<Element>) -> (e: Element)
        ensures
            match child {
                Some(c) => self.grown(seq![c], e),
                None => e == self,
            },
    {
        let mut e = self;
        if let Some(c) = child {
            e.push(c);
        }
        e
    }

    /// Appends every element of `children` and returns `self`.
    #[must_use]
    pub fn add_all(self, children: Vec<Element>) -> (e: Element)
        ensures
            self.grown(children@, e),
    {
        match self {
            Element::Constructed { tag, children: mut own } => {
                let mut children = children;
                own.append(&mut children);
                Element::Constructed { tag, children: own }
            },
            other => other,
        }
    }

    /// Appends a child in place.
    pub fn push(&mut self, child: Element)
        ensures
            old(self).grown(seq![child], *final(self)),
    {
        if let Element::Constructed { children, .. } = self {
            children.push(child);
        }
        proof {
            if let Element::Constructed { children, .. } = *old(self) {
                assert(children@.push(child) =~= children@ + seq![child]);
            }
        }
    }

    /// Returns the element's tag, or `None` for a verbatim element.
    pub fn tag(&self) -> (t: Option<Tag>)
        ensures
            t == self.tag_of(),
    {
        match self {
            Element::Primitive { tag, .. } => Some(*tag),
            Element::Constructed { tag, .. } => Some(*tag),
            Element::Raw { tag, .. } => Some(*tag),
            Element::Verbatim(_) => None,
        }
    }

    /// Returns the encoded size of the element's content octets.
    pub fn content_size(&self) -> (n: usize)
        requires
            self.encoded().len() <= usize::MAX,
        ensures
            n == self.content().len(),
        decreases self, 0nat,
    {
        proof {
            if let Some(t) = self.tag_of() {
                assert(self.content().len() <= self.encoded().len());
            }
        }
        match self {
            Element::Primitive { value, .. } => value.len(),
            Element::Constructed { children, .. } => {
                let mut n: usize = 0;
                let mut i: usize = 0;
                while i < children.len()
                    invariant
                        i <= children@.len(),
                        n == Element::encoded_all(children@, i as nat).len(),
                        self matches Element::Constructed { children: c, .. } && c == children,
                        Element::encoded_all(children@, children@.len()).len() <= usize::MAX,
                    decreases children@.len() - i,
                {
                    proof {
                        lemma_encoded_all_prefix(children@, i as nat + 1, children@.len());
                        assert(decreases_to!(self => children@));
                    }
                    n = n + children[i].size();
                    i = i + 1;
                }
                n
            },
            Element::Raw { content, .. } => content.len(),
            Element::Verbatim(v) => v.len(),
        }
    }

    /// Returns the total encoded size of the element.
    pub fn size(&self) -> (n: usize)
        requires
            self.encoded().len() <= usize::MAX,
        ensures
            n == self.encoded().len(),
        decreases self, 1nat,
    {
        match self.tag() {
            None => self.content_size(),
            Some(tag) => {
                let n: usize = self.content_size();
                assert(self.encoded().len() == tag.octets().len() + length_octets(n as nat).len()
                    + n);
                tag_size(tag) + length_size(n) + n
            },
        }
    }

    /// Encodes the element onto `dst`.
    pub fn append(&self, dst: &mut Vec<u8>)
        requires
            self.encoded().len() <= usize::MAX,
        ensures
            final(dst)@ == old(dst)@ + self.encoded(),
        decreases self,
    {
        match self {
            Element::Verbatim(v) => dst.extend_from_slice(v.as_slice()),
            Element::Primitive { tag, value } => super::append_tlv(dst, *tag, value.as_slice()),
            Element::Raw { tag, content } => super::append_tlv(dst, *tag, content.as_slice()),
            Element::Constructed { tag, children } => {
                let n: usize = self.content_size();
                append_tag(dst, *tag);
                append_length(dst, n);
                let ghost lead = dst@;
                let mut i: usize = 0;
                while i < children.len()
                    invariant
                        i <= children@.len(),
                        dst@ == lead + Element::encoded_all(children@, i as nat),
                        self matches Element::Constructed { children: c, .. } && c == children,
                        Element::encoded_all(children@, children@.len()).len() <= usize::MAX,
                    decreases children@.len() - i,
                {
                    proof {
                        lemma_encoded_all_prefix(children@, i as nat + 1, children@.len());
                        assert(decreases_to!(self => children@));
                    }
                    children[i].append(dst);
                    i = i + 1;
                    assert(dst@ =~= lead + Element::encoded_all(children@, i as nat));
                }
            },
        }
        assert(dst@ =~= old(dst)@ + self.encoded());
    }

    /// Returns the encoded element as a fresh buffer.
    pub fn encode(&self) -> (out: Vec<u8>)
        requires
            self.encoded().len() <= usize::MAX,
        ensures
            out@ == self.encoded(),
    {
        let mut out: Vec<u8> = Vec::with_capacity(self.size());
        self.append(&mut out);
        assert(out@ =~= self.encoded());
        out
    }
}

/// The encoding of some children is no longer than that of more of them.
pub proof fn lemma_encoded_all_prefix(children: Seq<Element>, i: nat, n: nat)
    requires
        i <= n <= children.len(),
    ensures
        Element::encoded_all(children, i).len() <= Element::encoded_all(children, n).len(),
    decreases n,
{
    if i < n {
        lemma_encoded_all_prefix(children, i, (n - 1) as nat);
    }
}

/// The encoding of the first children depends on those alone.
pub proof fn lemma_encoded_all_same(a: Seq<Element>, b: Seq<Element>, n: nat)
    requires
        n <= a.len(),
        n <= b.len(),
        a.take(n as int) == b.take(n as int),
    ensures
        Element::encoded_all(a, n) == Element::encoded_all(b, n),
    decreases n,
{
    if n > 0 {
        assert(a[n - 1] == a.take(n as int)[n - 1]);
        assert(b[n - 1] == b.take(n as int)[n - 1]);
        assert(a.take(n - 1) =~= a.take(n as int).take(n - 1));
        assert(b.take(n - 1) =~= b.take(n as int).take(n - 1));
        lemma_encoded_all_same(a, b, (n - 1) as nat);
    }
}

/// An encoded element that has a tag reads back as that tag and the element's
/// content, whatever stands around it.
pub proof fn encoded_element_reads_back(before: Seq<u8>, e: Element, after: Seq<u8>)
    requires
        e.tag_of() is Some,
        e.content().len() <= u32::MAX,
        before.len() + e.encoded().len() + after.len() <= usize::MAX,
    ensures
        ({
            let data = before + e.encoded() + after;
            let s = super::decoder::element_at(data, before.len() as int, 0);
            &&& s.off == before.len() + e.encoded().len()
            &&& s.result matches Ok((t, a, b)) && Some(t) == e.tag_of() && data.subrange(a, b)
                == e.content()
        }),
{
    super::decoder::element_round_trip(before, e.tag_of()->0, e.content(), after);
}

} // verus!
