use vstd::prelude::*;

use super::{fc_named, Fc};
use crate::text::{
    first_of, join, joined, joining_undoes_splitting, lemma_first_of, lemma_joined_front,
    parts_hold_no_separator, push_str, same, split, split_first, split_on, split_once,
    splitting_undoes_joining, texts,
};

verus! {

/// A reference to an object of the model: `LD/LN.DO.DA...`.
#[derive(Debug, PartialEq, Eq, Hash)]
pub struct ObjectReference(String);

impl View for ObjectReference {
    type V = Seq<char>;

    closed spec fn view(&self) -> Seq<char> {
        self.0@
    }
}

impl Clone for ObjectReference {
    fn clone(&self) -> (r: ObjectReference)
        ensures
            r@ == self@,
    {
        ObjectReference(self.0.clone())
    }
}

impl Default for ObjectReference {
    fn default() -> (r: ObjectReference)
        ensures
            r@.len() == 0,
    {
        ObjectReference(String::new())
    }
}

/// The logical device of a reference: what stands before the slash.
pub open spec fn ld_of(r: Seq<char>) -> Seq<char> {
    match split_first(r, '/') {
        Some((ld, _)) => ld,
        None => Seq::empty(),
    }
}

/// The names behind the slash, from the logical node on.
pub open spec fn path_of(r: Seq<char>) -> Seq<Seq<char>> {
    match split_first(r, '/') {
        Some((_, rest)) => if rest.len() == 0 {
            Seq::empty()
        } else {
            split_on(rest, '.')
        },
        None => Seq::empty(),
    }
}

/// The MMS item of a reference under a constraint: the logical node, the
/// constraint where it is one, and the rest of the path.
pub open spec fn item_of(path: Seq<Seq<char>>, fc: Fc) -> Seq<char> {
    if path.len() == 0 {
        Seq::empty()
    } else if !fc.is_code() {
        joined(path, "$"@)
    } else if path.len() == 1 {
        path[0] + "$"@ + fc.text()
    } else {
        path[0] + "$"@ + fc.text() + "$"@ + joined(path.skip(1), "$"@)
    }
}

/// The reference that an MMS name stands for: the constraint is no part of it.
pub open spec fn reference_of(domain: Seq<char>, parts: Seq<Seq<char>>) -> Seq<char> {
    if parts.len() >= 2 && Fc::is_named(parts[1]) {
        if parts.len() == 2 {
            domain + "/"@ + parts[0]
        } else {
            domain + "/"@ + parts[0] + "."@ + joined(parts.skip(2), "."@)
        }
    } else {
        domain + "/"@ + joined(parts, "."@)
    }
}

/// The constraint that an MMS name carries.
pub open spec fn constraint_of(parts: Seq<Seq<char>>) -> Fc {
    if parts.len() >= 2 && Fc::is_named(parts[1]) {
        fc_named(parts[1])
    } else {
        Fc::Unset
    }
}

impl ObjectReference {
    pub fn new(s: String) -> (r: ObjectReference)
        ensures
            r@ == s@,
    {
        ObjectReference(s)
    }

    /// Makes a reference of a text.
    pub fn from_text(s: &str) -> (r: ObjectReference)
        ensures
            r@ == s@,
    {
        ObjectReference(s.to_owned())
    }

    pub fn as_str(&self) -> (s: &str)
        ensures
            s@ == self@,
    {
        self.0.as_str()
    }

    /// Reports whether two references are the same text.
    pub fn same(&self, other: &ObjectReference) -> (b: bool)
        ensures
            b == (self@ == other@),
    {
        same(self.0.as_str(), other.0.as_str())
    }

    /// Returns the logical device, empty where the reference has none.
    pub fn ld(&self) -> (s: String)
        ensures
            s@ == ld_of(self@),
    {
        match split_once(self.0.as_str(), '/') {
            Some((ld, _)) => ld,
            None => String::new(),
        }
    }

    /// Returns the names behind the logical device.
    pub fn path(&self) -> (p: Vec<String>)
        ensures
            texts(p@) == path_of(self@),
    {
        match split_once(self.0.as_str(), '/') {
            Some((_, rest)) => {
                if rest.as_str().is_empty() {
                    let p: Vec<String> = Vec::new();
                    assert(texts(p@) =~= Seq::empty());
                    return p;
                }
                split(rest.as_str(), '.')
            },
            None => {
                let p: Vec<String> = Vec::new();
                assert(texts(p@) =~= Seq::empty());
                p
            },
        }
    }

    /// Returns the logical node, empty where the reference has none.
    pub fn ln(&self) -> (s: String)
        ensures
            s@ == (if path_of(self@).len() > 0 {
                path_of(self@)[0]
            } else {
                Seq::empty()
            }),
    {
        let p = self.path();
        assert(texts(p@).len() == p@.len());
        if p.len() > 0 {
            assert(texts(p@)[0] == p@[0]@);
            p[0].clone()
        } else {
            String::new()
        }
    }

    /// Returns the reference of a child.
    pub fn child(&self, name: &str) -> (r: ObjectReference)
        ensures
            r@ == self@ + "."@ + name@,
    {
        let mut s = self.0.clone();
        push_str(&mut s, ".");
        push_str(&mut s, name);
        ObjectReference(s)
    }

    /// Returns the MMS domain and item of the object under a constraint.
    pub fn to_mms(&self, fc: Fc) -> (r: (String, String))
        ensures
            r.0@ == ld_of(self@),
            r.1@ == item_of(path_of(self@), fc),
    {
        let domain = self.ld();
        let p = self.path();
        let ghost path = texts(p@);
        assert(path.len() == p@.len());
        if p.len() == 0 {
            return (domain, String::new());
        }
        assert(path[0] == p@[0]@);
        if fc == Fc::Unset || fc == Fc::All {
            let item = join(&p, 0, "$");
            assert(path.skip(0) =~= path);
            return (domain, item);
        }
        let mut item = p[0].clone();
        push_str(&mut item, "$");
        push_str(&mut item, fc.as_str());
        if p.len() > 1 {
            push_str(&mut item, "$");
            push_str(&mut item, join(&p, 1, "$").as_str());
        }
        (domain, item)
    }
}

/// Returns the reference and the constraint that an MMS name stands for.
pub fn from_mms(domain: &str, item: &str) -> (r: (ObjectReference, Fc))
    ensures
        r.0@ == reference_of(domain@, split_on(item@, '$')),
        r.1 == constraint_of(split_on(item@, '$')),
{
    let parts = split(item, '$');
    let ghost ps = texts(parts@);
    assert(ps.len() == parts@.len());
    let mut s = domain.to_owned();
    push_str(&mut s, "/");
    if parts.len() >= 2 {
        assert(ps[0] == parts@[0]@ && ps[1] == parts@[1]@);
        if let Some(fc) = Fc::parse(parts[1].as_str()) {
            proof {
                assert(fc.text() == ps[1]);
                super::codes_are_distinct(fc, fc_named(ps[1]));
            }
            push_str(&mut s, parts[0].as_str());
            if parts.len() > 2 {
                push_str(&mut s, ".");
                push_str(&mut s, join(&parts, 2, ".").as_str());
            }
            return (ObjectReference(s), fc);
        }
    }
    push_str(&mut s, join(&parts, 0, ".").as_str());
    assert(ps.skip(0) =~= ps);
    (ObjectReference(s), Fc::Unset)
}

/// A reference survives the way through its MMS name: what the name stands for
/// is the object under the constraint that it was written with. The reference
/// names a logical node, and has no `$` in it, which is what separates the
/// parts of an MMS name.
pub proof fn reference_round_trip(r: Seq<char>, fc: Fc)
    requires
        fc.is_code(),
        path_of(r).len() > 0,
        !r.contains('$'),
    ensures
        reference_of(ld_of(r), split_on(item_of(path_of(r), fc), '$')) == r,
        constraint_of(split_on(item_of(path_of(r), fc), '$')) == fc,
{
    reveal_strlit("$");
    reveal_strlit(".");
    reveal_strlit("/");
    let dollar = seq!['$'];
    let dot = seq!['.'];
    assert("$"@ =~= dollar);
    assert("."@ =~= dot);
    assert("/"@ =~= seq!['/']);
    lemma_first_of(r, '/');
    let k = first_of(r, '/') as int;
    let rest = r.skip(k + 1);
    let path = path_of(r);
    let code = fc.text();
    assert(!rest.contains('$')) by {
        assert forall|j: int| 0 <= j < rest.len() implies rest[j] != '$' by {
            assert(rest[j] == r[k + 1 + j]);
        }
    }
    assert(path == split_on(rest, '.'));
    parts_hold_no_separator(rest, '.', '$');
    joining_undoes_splitting(rest, '.');
    lemma_no_dollar_in_code(fc);
    // The item is the path with the code behind its first part.
    let parts = seq![path[0], code] + path.skip(1);
    let item = item_of(path, fc);
    assert(item == joined(parts, dollar)) by {
        if path.len() == 1 {
            assert(parts =~= seq![path[0]] + seq![code]);
            lemma_joined_front(path[0], seq![code], dollar);
        } else {
            let tail = seq![code] + path.skip(1);
            assert(parts =~= seq![path[0]] + tail);
            lemma_joined_front(path[0], tail, dollar);
            lemma_joined_front(code, path.skip(1), dollar);
            assert(item =~= joined(parts, dollar));
        }
    }
    assert forall|i: int| 0 <= i < parts.len() implies !(#[trigger] parts[i]).contains('$') by {
        if i >= 2 {
            assert(parts[i] == path[i - 1]);
        }
    }
    splitting_undoes_joining(parts, '$');
    assert(split_on(item, '$') == parts);
    assert(parts[1] == code);
    assert(Fc::is_named(code));
    super::codes_are_distinct(fc, fc_named(code));
    assert(parts.skip(2) =~= path.skip(1));
    assert(ld_of(r) + "/"@ + joined(path, dot) =~= r);
    if path.len() > 1 {
        assert(path =~= seq![path[0]] + path.skip(1));
        lemma_joined_front(path[0], path.skip(1), dot);
        assert(ld_of(r) + "/"@ + path[0] + dot + joined(path.skip(1), dot) =~= ld_of(r) + "/"@
            + joined(path, dot));
    } else {
        assert(joined(path, dot) == path[0]);
    }
}

/// The code of a constraint is made of letters.
pub proof fn lemma_no_dollar_in_code(fc: Fc)
    requires
        fc.is_code(),
    ensures
        !fc.text().contains('$'),
        !fc.text().contains('.'),
{
    reveal_strlit("ST");
    reveal_strlit("MX");
    reveal_strlit("SP");
    reveal_strlit("SV");
    reveal_strlit("CF");
    reveal_strlit("DC");
    reveal_strlit("SG");
    reveal_strlit("SE");
    reveal_strlit("SR");
    reveal_strlit("OR");
    reveal_strlit("BL");
    reveal_strlit("EX");
    reveal_strlit("CO");
    reveal_strlit("US");
    reveal_strlit("MS");
    reveal_strlit("RP");
    reveal_strlit("BR");
    reveal_strlit("LG");
    reveal_strlit("GO");
    reveal_strlit("GS");
    let t = fc.text();
    assert(t.len() == 2);
    assert(t[0] != '$' && t[1] != '$');
    assert(t[0] != '.' && t[1] != '.');
}

/// A reference names its device and its path, and is written as its variable:
/// the node, the constraint and the rest of the path, or the path alone where
/// no constraint is given. No part of it holds a separator.
pub proof fn a_reference_is_written_as_its_variable(
    ld: Seq<char>,
    path: Seq<Seq<char>>,
    fc: Fc,
)
    requires
        !ld.contains('/'),
        path.len() > 0,
        path[0].len() > 0,
        forall|i: int| 0 <= i < path.len() ==> !(#[trigger] path[i]).contains('.'),
    ensures
        ld_of(ld + "/"@ + joined(path, "."@)) == ld,
        path_of(ld + "/"@ + joined(path, "."@)) == path,
        fc != Fc::Unset && fc != Fc::All ==> item_of(path, fc) == joined(
            seq![path[0], fc.text()] + path.skip(1),
            "$"@,
        ),
        fc == Fc::Unset || fc == Fc::All ==> item_of(path, fc) == joined(path, "$"@),
{
    reveal_strlit("/");
    reveal_strlit(".");
    assert("/"@ =~= seq!['/']);
    assert("."@ =~= seq!['.']);
    let r = ld + "/"@ + joined(path, "."@);
    assert forall|i: int| 0 <= i < ld.len() implies r[i] != '/' by {
        assert(r[i] == ld[i]);
    }
    crate::text::lemma_first_of_is(r, '/', ld.len() as int);
    assert(r.take(ld.len() as int) =~= ld);
    let rest = joined(path, "."@);
    assert(r.skip(ld.len() as int + 1) =~= rest);
    splitting_undoes_joining(path, '.');
    if rest.len() == 0 {
        assert(split_on(rest, '.') =~= seq![rest]);
        assert(path[0] == rest);
    }
    let parts = seq![path[0], fc.text()] + path.skip(1);
    if path.len() == 1 {
        assert(parts =~= seq![path[0]] + seq![fc.text()]);
        lemma_joined_front(path[0], seq![fc.text()], "$"@);
    } else {
        assert(parts =~= seq![path[0]] + (seq![fc.text()] + path.skip(1)));
        lemma_joined_front(path[0], seq![fc.text()] + path.skip(1), "$"@);
        lemma_joined_front(fc.text(), path.skip(1), "$"@);
        if fc.is_code() {
            assert(joined(parts, "$"@) =~= item_of(path, fc));
        }
    }
}

/// A variable stands for the object that its parts name: its constraint is told
/// apart, and what is left of it is the path of the reference. A name without a
/// constraint is all path.
pub proof fn a_variable_stands_for_its_object(
    domain: Seq<char>,
    ln: Seq<char>,
    fc: Fc,
    below: Seq<Seq<char>>,
    bare: Seq<Seq<char>>,
)
    requires
        fc != Fc::Unset && fc != Fc::All,
        bare.len() > 0,
        bare.len() >= 2 ==> forall|f: Fc| f != Fc::Unset && f != Fc::All ==> #[trigger] f.text()
            != bare[1],
    ensures
        constraint_of(seq![ln, fc.text()] + below) == fc,
        reference_of(domain, seq![ln, fc.text()] + below) == domain + "/"@ + joined(
            seq![ln] + below,
            "."@,
        ),
        constraint_of(bare) == Fc::Unset,
        reference_of(domain, bare) == domain + "/"@ + joined(bare, "."@),
{
    let parts = seq![ln, fc.text()] + below;
    assert(parts[1] == fc.text() && Fc::is_named(parts[1]));
    super::codes_are_distinct(fc, fc_named(parts[1]));
    assert(parts.skip(2) =~= below);
    if below.len() == 0 {
        assert(seq![ln] + below =~= seq![ln]);
    } else {
        lemma_joined_front(ln, below, "."@);
        assert(reference_of(domain, parts) =~= domain + "/"@ + joined(seq![ln] + below, "."@));
    }
}

} // verus!
