//! The IEC 61850 information model as a client sees it: functional
//! constraints, object references, the coded enumerations of reporting and
//! control, and the tree of devices, nodes, objects and attributes.

use vstd::prelude::*;

pub mod codes;
pub mod reference;
pub mod tree;

pub use codes::{AddCause, CtlModel, OptFlds, OrCat, ReasonCode, TrgOps};
pub use reference::{from_mms, ObjectReference};
pub use tree::{DataAttribute, DataObject, LogicalDevice, LogicalNode, Model};

verus! {

/// A functional constraint.
#[derive(Debug, Clone, Copy, PartialEq, Eq, Structural, Hash)]
pub enum Fc {
    /// No constraint is known.
    Unset,
    /// Every constraint.
    All,
    St,
    Mx,
    Sp,
    Sv,
    Cf,
    Dc,
    Sg,
    Se,
    Sr,
    Or,
    Bl,
    Ex,
    Co,
    Us,
    Ms,
    Rp,
    Br,
    Lg,
    Go,
    Gs,
}

impl Fc {
    /// The constraint stands for one two-letter code.
    pub open spec fn is_code(self) -> bool {
        self != Fc::Unset && self != Fc::All
    }

    /// The two-letter code; a constraint that stands for none has no text.
    pub open spec fn text(self) -> Seq<char> {
        match self {
            Fc::Unset => ""@,
            Fc::All => ""@,
            Fc::St => "ST"@,
            Fc::Mx => "MX"@,
            Fc::Sp => "SP"@,
            Fc::Sv => "SV"@,
            Fc::Cf => "CF"@,
            Fc::Dc => "DC"@,
            Fc::Sg => "SG"@,
            Fc::Se => "SE"@,
            Fc::Sr => "SR"@,
            Fc::Or => "OR"@,
            Fc::Bl => "BL"@,
            Fc::Ex => "EX"@,
            Fc::Co => "CO"@,
            Fc::Us => "US"@,
            Fc::Ms => "MS"@,
            Fc::Rp => "RP"@,
            Fc::Br => "BR"@,
            Fc::Lg => "LG"@,
            Fc::Go => "GO"@,
            Fc::Gs => "GS"@,
        }
    }

    /// Returns the two-letter code; a constraint that stands for none has no
    /// text.
    pub fn as_str(self) -> (s: &'static str)
        ensures
            s@ == self.text(),
    {
        match self {
            Fc::Unset => "",
            Fc::All => "",
            Fc::St => "ST",
            Fc::Mx => "MX",
            Fc::Sp => "SP",
            Fc::Sv => "SV",
            Fc::Cf => "CF",
            Fc::Dc => "DC",
            Fc::Sg => "SG",
            Fc::Se => "SE",
            Fc::Sr => "SR",
            Fc::Or => "OR",
            Fc::Bl => "BL",
            Fc::Ex => "EX",
            Fc::Co => "CO",
            Fc::Us => "US",
            Fc::Ms => "MS",
            Fc::Rp => "RP",
            Fc::Br => "BR",
            Fc::Lg => "LG",
            Fc::Go => "GO",
            Fc::Gs => "GS",
        }
    }

    /// Whether a text is the code of a constraint.
    pub open spec fn is_named(s: Seq<char>) -> bool {
        exists|f: Fc| f.is_code() && #[trigger] f.text() == s
    }

    /// Reads a two-letter code.
    pub fn parse(s: &str) -> (r: Option<Fc>)
        ensures
            match r {
                Some(f) => f.is_code() && f.text() == s@,
                None => !Fc::is_named(s@),
            },
    {
        if crate::text::same(s, "ST") {
            return Some(Fc::St);
        }
        if crate::text::same(s, "MX") {
            return Some(Fc::Mx);
        }
        if crate::text::same(s, "SP") {
            return Some(Fc::Sp);
        }
        if crate::text::same(s, "SV") {
            return Some(Fc::Sv);
        }
        if crate::text::same(s, "CF") {
            return Some(Fc::Cf);
        }
        if crate::text::same(s, "DC") {
            return Some(Fc::Dc);
        }
        if crate::text::same(s, "SG") {
            return Some(Fc::Sg);
        }
        if crate::text::same(s, "SE") {
            return Some(Fc::Se);
        }
        if crate::text::same(s, "SR") {
            return Some(Fc::Sr);
        }
        if crate::text::same(s, "OR") {
            return Some(Fc::Or);
        }
        if crate::text::same(s, "BL") {
            return Some(Fc::Bl);
        }
        if crate::text::same(s, "EX") {
            return Some(Fc::Ex);
        }
        if crate::text::same(s, "CO") {
            return Some(Fc::Co);
        }
        if crate::text::same(s, "US") {
            return Some(Fc::Us);
        }
        if crate::text::same(s, "MS") {
            return Some(Fc::Ms);
        }
        if crate::text::same(s, "RP") {
            return Some(Fc::Rp);
        }
        if crate::text::same(s, "BR") {
            return Some(Fc::Br);
        }
        if crate::text::same(s, "LG") {
            return Some(Fc::Lg);
        }
        if crate::text::same(s, "GO") {
            return Some(Fc::Go);
        }
        if crate::text::same(s, "GS") {
            return Some(Fc::Gs);
        }
        assert forall|f: Fc| f.is_code() implies #[trigger] f.text() != s@ by {
            match f {
                Fc::St => {},
                Fc::Mx => {},
                Fc::Sp => {},
                Fc::Sv => {},
                Fc::Cf => {},
                Fc::Dc => {},
                Fc::Sg => {},
                Fc::Se => {},
                Fc::Sr => {},
                Fc::Or => {},
                Fc::Bl => {},
                Fc::Ex => {},
                Fc::Co => {},
                Fc::Us => {},
                Fc::Ms => {},
                Fc::Rp => {},
                Fc::Br => {},
                Fc::Lg => {},
                Fc::Go => {},
                Fc::Gs => {},
                Fc::Unset => {},
                Fc::All => {},
            }
        }
        None
    }
}

/// The constraint with the given code, for a text that is one.
pub open spec fn fc_named(s: Seq<char>) -> Fc {
    choose|f: Fc| f.is_code() && #[trigger] f.text() == s
}

/// Different constraints have different codes.
pub proof fn codes_are_distinct(a: Fc, b: Fc)
    requires
        a.is_code(),
        b.is_code(),
        a.text() == b.text(),
    ensures
        a == b,
{
    reveal_strlit("ST");
    reveal_strlit("MX");
    reveal_strlit("SP");
    reveal_strlit("SV");
    reveal_strlit("CF");
    reveal_strlit("DC");
    reveal_strlit("SG");
    reveal_strlit("SE");
    reveal_strlit("SR");
    reveal_strlit("OR");
    reveal_strlit("BL");
    reveal_strlit("EX");
    reveal_strlit("CO");
    reveal_strlit("US");
    reveal_strlit("MS");
    reveal_strlit("RP");
    reveal_strlit("BR");
    reveal_strlit("LG");
    reveal_strlit("GO");
    reveal_strlit("GS");
    assert("ST"@ =~= seq!['S', 'T']);
    assert("MX"@ =~= seq!['M', 'X']);
    assert("SP"@ =~= seq!['S', 'P']);
    assert("SV"@ =~= seq!['S', 'V']);
    assert("CF"@ =~= seq!['C', 'F']);
    assert("DC"@ =~= seq!['D', 'C']);
    assert("SG"@ =~= seq!['S', 'G']);
    assert("SE"@ =~= seq!['S', 'E']);
    assert("SR"@ =~= seq!['S', 'R']);
    assert("OR"@ =~= seq!['O', 'R']);
    assert("BL"@ =~= seq!['B', 'L']);
    assert("EX"@ =~= seq!['E', 'X']);
    assert("CO"@ =~= seq!['C', 'O']);
    assert("US"@ =~= seq!['U', 'S']);
    assert("MS"@ =~= seq!['M', 'S']);
    assert("RP"@ =~= seq!['R', 'P']);
    assert("BR"@ =~= seq!['B', 'R']);
    assert("LG"@ =~= seq!['L', 'G']);
    assert("GO"@ =~= seq!['G', 'O']);
    assert("GS"@ =~= seq!['G', 'S']);
    assert(a.text()[0] == b.text()[0]);
    assert(a.text()[1] == b.text()[1]);
}

/// Each constraint has the two letters that it is known by.
pub proof fn a_constraint_has_its_letters(fc: Fc)
    ensures
        fc == Fc::St ==> fc.text() == seq!['S', 'T'],
        fc == Fc::Mx ==> fc.text() == seq!['M', 'X'],
        fc == Fc::Sp ==> fc.text() == seq!['S', 'P'],
        fc == Fc::Sv ==> fc.text() == seq!['S', 'V'],
        fc == Fc::Cf ==> fc.text() == seq!['C', 'F'],
        fc == Fc::Dc ==> fc.text() == seq!['D', 'C'],
        fc == Fc::Sg ==> fc.text() == seq!['S', 'G'],
        fc == Fc::Se ==> fc.text() == seq!['S', 'E'],
        fc == Fc::Sr ==> fc.text() == seq!['S', 'R'],
        fc == Fc::Or ==> fc.text() == seq!['O', 'R'],
        fc == Fc::Bl ==> fc.text() == seq!['B', 'L'],
        fc == Fc::Ex ==> fc.text() == seq!['E', 'X'],
        fc == Fc::Co ==> fc.text() == seq!['C', 'O'],
        fc == Fc::Us ==> fc.text() == seq!['U', 'S'],
        fc == Fc::Ms ==> fc.text() == seq!['M', 'S'],
        fc == Fc::Rp ==> fc.text() == seq!['R', 'P'],
        fc == Fc::Br ==> fc.text() == seq!['B', 'R'],
        fc == Fc::Lg ==> fc.text() == seq!['L', 'G'],
        fc == Fc::Go ==> fc.text() == seq!['G', 'O'],
        fc == Fc::Gs ==> fc.text() == seq!['G', 'S'],
{
    reveal_strlit("ST");
    reveal_strlit("MX");
    reveal_strlit("SP");
    reveal_strlit("SV");
    reveal_strlit("CF");
    reveal_strlit("DC");
    reveal_strlit("SG");
    reveal_strlit("SE");
    reveal_strlit("SR");
    reveal_strlit("OR");
    reveal_strlit("BL");
    reveal_strlit("EX");
    reveal_strlit("CO");
    reveal_strlit("US");
    reveal_strlit("MS");
    reveal_strlit("RP");
    reveal_strlit("BR");
    reveal_strlit("LG");
    reveal_strlit("GO");
    reveal_strlit("GS");
    assert("ST"@ =~= seq!['S', 'T']);
    assert("MX"@ =~= seq!['M', 'X']);
    assert("SP"@ =~= seq!['S', 'P']);
    assert("SV"@ =~= seq!['S', 'V']);
    assert("CF"@ =~= seq!['C', 'F']);
    assert("DC"@ =~= seq!['D', 'C']);
    assert("SG"@ =~= seq!['S', 'G']);
    assert("SE"@ =~= seq!['S', 'E']);
    assert("SR"@ =~= seq!['S', 'R']);
    assert("OR"@ =~= seq!['O', 'R']);
    assert("BL"@ =~= seq!['B', 'L']);
    assert("EX"@ =~= seq!['E', 'X']);
    assert("CO"@ =~= seq!['C', 'O']);
    assert("US"@ =~= seq!['U', 'S']);
    assert("MS"@ =~= seq!['M', 'S']);
    assert("RP"@ =~= seq!['R', 'P']);
    assert("BR"@ =~= seq!['B', 'R']);
    assert("LG"@ =~= seq!['L', 'G']);
    assert("GO"@ =~= seq!['G', 'O']);
    assert("GS"@ =~= seq!['G', 'S']);
}

} // verus!
