use vstd::prelude::*;

use super::{concat3, is_client_error, Error, Result};
use crate::model::reference::{item_of, ld_of, lemma_no_dollar_in_code, path_of};
use crate::model::{fc_named, Fc, ObjectReference};
use crate::text::{first_of, holds, joined, lemma_first_of, lemma_first_of_is, lemma_joined_front,
    push_str, quote, quoted, same, split, split_first, split_on, split_once,
    splitting_undoes_joining, texts};

verus! {

/// Names a class of ACSI objects that can live inside a logical node.
///
/// It selects what a directory request browses for.
#[derive(Debug, Clone, Copy, PartialEq, Eq, Structural, Hash)]
pub enum AcsiClass {
    /// A data object (IEC 61850-7-2 DATA), the default content of a logical
    /// node.
    DataObject,
    /// A data set (DATA-SET).
    DataSet,
    /// A buffered report control block.
    Brcb,
    /// An unbuffered report control block.
    Urcb,
    /// A log control block.
    Lcb,
    /// A log.
    Log,
    /// The setting group control block.
    Sgcb,
    /// A GOOSE control block.
    GoCb,
    /// A GSSE control block (legacy).
    GsCb,
    /// A multicast sampled value control block.
    Msvcb,
    /// A unicast sampled value control block.
    Usvcb,
}

/// Every class.
pub open spec fn every_class() -> Seq<AcsiClass> {
    seq![
        AcsiClass::DataObject,
        AcsiClass::DataSet,
        AcsiClass::Brcb,
        AcsiClass::Urcb,
        AcsiClass::Lcb,
        AcsiClass::Log,
        AcsiClass::Sgcb,
        AcsiClass::GoCb,
        AcsiClass::GsCb,
        AcsiClass::Msvcb,
        AcsiClass::Usvcb,
    ]
}

/// Whether objects of a constraint are control blocks rather than data.
pub open spec fn carries_control_blocks(fc: Fc) -> bool {
    fc == Fc::Br || fc == Fc::Rp || fc == Fc::Lg || fc == Fc::Go || fc == Fc::Gs || fc == Fc::Ms
        || fc == Fc::Us
}

impl AcsiClass {
    /// Returns every class a browse looks for when the caller names none.
    #[allow(non_snake_case)]
    pub fn ALL() -> (v: Vec<AcsiClass>)
        ensures
            v@ == every_class(),
    {
        let mut v: Vec<AcsiClass> = Vec::new();
        v.push(AcsiClass::DataObject);
        v.push(AcsiClass::DataSet);
        v.push(AcsiClass::Brcb);
        v.push(AcsiClass::Urcb);
        v.push(AcsiClass::Lcb);
        v.push(AcsiClass::Log);
        v.push(AcsiClass::Sgcb);
        v.push(AcsiClass::GoCb);
        v.push(AcsiClass::GsCb);
        v.push(AcsiClass::Msvcb);
        v.push(AcsiClass::Usvcb);
        assert(v@ =~= every_class());
        v
    }

    /// The ACSI name of the class.
    pub open spec fn text(self) -> Seq<char> {
        match self {
            AcsiClass::DataObject => "DATA"@,
            AcsiClass::DataSet => "DATA-SET"@,
            AcsiClass::Brcb => "BRCB"@,
            AcsiClass::Urcb => "URCB"@,
            AcsiClass::Lcb => "LCB"@,
            AcsiClass::Log => "LOG"@,
            AcsiClass::Sgcb => "SGCB"@,
            AcsiClass::GoCb => "GoCB"@,
            AcsiClass::GsCb => "GsCB"@,
            AcsiClass::Msvcb => "MSVCB"@,
            AcsiClass::Usvcb => "USVCB"@,
        }
    }

    pub fn as_str(self) -> (s: &'static str)
        ensures
            s@ == self.text(),
    {
        match self {
            AcsiClass::DataObject => "DATA",
            AcsiClass::DataSet => "DATA-SET",
            AcsiClass::Brcb => "BRCB",
            AcsiClass::Urcb => "URCB",
            AcsiClass::Lcb => "LCB",
            AcsiClass::Log => "LOG",
            AcsiClass::Sgcb => "SGCB",
            AcsiClass::GoCb => "GoCB",
            AcsiClass::GsCb => "GsCB",
            AcsiClass::Msvcb => "MSVCB",
            AcsiClass::Usvcb => "USVCB",
        }
    }

    /// The functional constraint that carries a class of control blocks.
    pub open spec fn carrier(self) -> Option<Fc> {
        match self {
            AcsiClass::Brcb => Some(Fc::Br),
            AcsiClass::Urcb => Some(Fc::Rp),
            AcsiClass::Lcb => Some(Fc::Lg),
            AcsiClass::Sgcb => Some(Fc::Sp),
            AcsiClass::GoCb => Some(Fc::Go),
            AcsiClass::GsCb => Some(Fc::Gs),
            AcsiClass::Msvcb => Some(Fc::Ms),
            AcsiClass::Usvcb => Some(Fc::Us),
            _ => None,
        }
    }

    /// The functional constraint that carries this control-block class in its
    /// MMS name (IEC 61850-8-1).
    ///
    /// The classes that are not named variables at all (data sets and logs)
    /// have none, as does [`AcsiClass::DataObject`], which is defined by
    /// exclusion.
    pub fn constraint(self) -> (r: Option<Fc>)
        ensures
            r == self.carrier(),
    {
        match self {
            AcsiClass::Brcb => Some(Fc::Br),
            AcsiClass::Urcb => Some(Fc::Rp),
            AcsiClass::Lcb => Some(Fc::Lg),
            // The SGCB lives under SP, as "LN$SP$SGCB"; other SP names are
            // ordinary set points, so the name has to be checked too.
            AcsiClass::Sgcb => Some(Fc::Sp),
            AcsiClass::GoCb => Some(Fc::Go),
            AcsiClass::GsCb => Some(Fc::Gs),
            AcsiClass::Msvcb => Some(Fc::Ms),
            AcsiClass::Usvcb => Some(Fc::Us),
            _ => None,
        }
    }

    /// Whether an object named under `fc` belongs to this class. Data is
    /// everything that is not a control block; the SGCB shares its constraint
    /// with ordinary set points and is told apart by its name.
    pub open spec fn includes(self, fc: Fc, name: Seq<char>) -> bool {
        let sgcb = fc == Fc::Sp && name == "SGCB"@;
        match self {
            AcsiClass::DataObject => !carries_control_blocks(fc) && !sgcb,
            AcsiClass::Sgcb => sgcb,
            _ => self.carrier() == Some(fc),
        }
    }

    /// Reports whether an object named under `fc` belongs to this class.
    pub fn holds(self, fc: Fc, name: &str) -> (b: bool)
        ensures
            b == self.includes(fc, name@),
    {
        match self {
            AcsiClass::DataObject => !is_control_block_fc(fc) && !(fc == Fc::Sp && same(
                name,
                "SGCB",
            )),
            AcsiClass::Sgcb => fc == Fc::Sp && same(name, "SGCB"),
            other => match other.constraint() {
                Some(c) => c == fc,
                None => false,
            },
        }
    }

    /// Whether the objects of the class are lists or journals rather than
    /// named variables.
    pub open spec fn listed(self) -> bool {
        self == AcsiClass::DataSet || self == AcsiClass::Log
    }

    fn is_listed(self) -> (b: bool)
        ensures
            b == self.listed(),
    {
        match self {
            AcsiClass::DataSet => true,
            AcsiClass::Log => true,
            _ => false,
        }
    }
}

/// The functional constraints that carry control blocks rather than data.
pub fn is_control_block_fc(fc: Fc) -> (b: bool)
    ensures
        b == carries_control_blocks(fc),
{
    match fc {
        Fc::Br => true,
        Fc::Rp => true,
        Fc::Lg => true,
        Fc::Go => true,
        Fc::Gs => true,
        Fc::Ms => true,
        Fc::Us => true,
        _ => false,
    }
}

/// The classes of named variables partition what a device names: an object
/// belongs to exactly one of them, or a browse would report it twice or not at
/// all.
pub proof fn classes_partition_the_objects(fc: Fc, name: Seq<char>) -> (class: AcsiClass)
    ensures
        !class.listed(),
        class.includes(fc, name),
        forall|other: AcsiClass| !other.listed() && #[trigger] other.includes(fc, name) ==> other == class,
{
    match fc {
        Fc::Br => AcsiClass::Brcb,
        Fc::Rp => AcsiClass::Urcb,
        Fc::Lg => AcsiClass::Lcb,
        Fc::Go => AcsiClass::GoCb,
        Fc::Gs => AcsiClass::GsCb,
        Fc::Ms => AcsiClass::Msvcb,
        Fc::Us => AcsiClass::Usvcb,
        _ => if fc == Fc::Sp && name == "SGCB"@ {
            AcsiClass::Sgcb
        } else {
            AcsiClass::DataObject
        },
    }
}

/// What `pick` makes of the first `n` of `names`, each result once and in the
/// order in which it first occurs.
pub open spec fn distinct(
    names: Seq<Seq<char>>,
    n: nat,
    pick: spec_fn(Seq<char>) -> Option<Seq<char>>,
) -> Seq<Seq<char>>
    decreases n,
{
    if n == 0 || n > names.len() {
        Seq::empty()
    } else {
        let before = distinct(names, (n - 1) as nat, pick);
        match pick(names[n - 1]) {
            Some(x) => if before.contains(x) {
                before
            } else {
                before.push(x)
            },
            None => before,
        }
    }
}

/// A listing reports every object once.
pub proof fn listings_have_no_duplicates(
    names: Seq<Seq<char>>,
    n: nat,
    pick: spec_fn(Seq<char>) -> Option<Seq<char>>,
)
    ensures
        distinct(names, n, pick).no_duplicates(),
    decreases n,
{
    if n != 0 && n <= names.len() {
        listings_have_no_duplicates(names, (n - 1) as nat, pick);
    }
}

/// A listing holds exactly what was picked.
pub proof fn listings_are_complete(
    names: Seq<Seq<char>>,
    n: nat,
    pick: spec_fn(Seq<char>) -> Option<Seq<char>>,
    x: Seq<char>,
)
    requires
        n <= names.len(),
    ensures
        distinct(names, n, pick).contains(x) <==> exists|i: int|
            0 <= i < n && pick(#[trigger] names[i]) == Some(x),
    decreases n,
{
    if n > 0 {
        let m = (n - 1) as nat;
        listings_are_complete(names, m, pick, x);
        let before = distinct(names, m, pick);
        let now = distinct(names, n, pick);
        if now.contains(x) {
            if !before.contains(x) {
                let k = choose|k: int| 0 <= k < now.len() && now[k] == x;
                assert(k >= before.len());
                assert(pick(names[n - 1]) == Some(x));
            } else {
                let i = choose|i: int| 0 <= i < m && pick(#[trigger] names[i]) == Some(x);
                assert(0 <= i < n && pick(names[i]) == Some(x));
            }
        }
        if exists|i: int| 0 <= i < n && pick(#[trigger] names[i]) == Some(x) {
            let i = choose|i: int| 0 <= i < n && pick(#[trigger] names[i]) == Some(x);
            if i < m {
                assert(before.contains(x));
            }
            if before.contains(x) {
                let k = choose|k: int| 0 <= k < before.len() && before[k] == x;
                assert(now[k] == x);
            } else {
                assert(now == before.push(x));
                assert(now[before.len() as int] == x);
            }
        }
    }
}

/// Adds a text to a list that does not hold it yet.
pub(crate) fn add_once(out: &mut Vec<String>, s: String)
    ensures
        texts(final(out)@) == (if texts(old(out)@).contains(s@) {
            texts(old(out)@)
        } else {
            texts(old(out)@).push(s@)
        }),
{
    if !holds(out, s.as_str()) {
        out.push(s);
        assert(texts(out@) =~= texts(old(out)@).push(s@));
    }
}

/// The object of a class in a logical node that a variable name belongs to.
///
/// `LN` and `LN$FC` are the bare node and constraint entries; objects start at
/// `LN$FC$Name`, and members (`LN$RP$urcb01$RptID`) name the same object
/// again.
pub open spec fn object_of(name: Seq<char>, ln: Seq<char>, class: AcsiClass) -> Option<Seq<char>> {
    let parts = split_on(name, '$');
    if parts.len() >= 3 && parts[0] == ln && Fc::is_named(parts[1]) && parts[2].len() > 0
        && class.includes(fc_named(parts[1]), parts[2]) {
        Some(parts[2])
    } else {
        None
    }
}

fn pick_object(name: &str, ln: &str, class: AcsiClass) -> (r: Option<String>)
    ensures
        match (r, object_of(name@, ln@, class)) {
            (Some(a), Some(b)) => a@ == b,
            (None, None) => true,
            _ => false,
        },
{
    let parts = split(name, '$');
    let ghost ps = texts(parts@);
    assert(ps.len() == parts@.len());
    if parts.len() < 3 {
        return None;
    }
    assert(ps[0] == parts@[0]@ && ps[1] == parts@[1]@ && ps[2] == parts@[2]@);
    if !same(parts[0].as_str(), ln) {
        return None;
    }
    let fc = match Fc::parse(parts[1].as_str()) {
        Some(fc) => fc,
        None => return None,
    };
    proof {
        assert(fc.text() == ps[1]);
        crate::model::codes_are_distinct(fc, fc_named(ps[1]));
    }
    if parts[2].as_str().is_empty() || !class.holds(fc, parts[2].as_str()) {
        return None;
    }
    Some(parts[2].clone())
}

/// Picks the objects of one class out of a domain's variable name list.
pub fn objects_of_class(names: &Vec<String>, ln: &str, class: AcsiClass) -> (out: Vec<String>)
    ensures
        texts(out@) == distinct(
            texts(names@),
            names@.len(),
            |n: Seq<char>| object_of(n, ln@, class),
        ),
{
    let ghost pick = |n: Seq<char>| object_of(n, ln@, class);
    let ghost all = texts(names@);
    let mut out: Vec<String> = Vec::new();
    let mut i: usize = 0;
    assert(texts(out@) =~= distinct(all, 0, pick));
    while i < names.len()
        invariant
            i <= names@.len(),
            all == texts(names@),
            pick == (|n: Seq<char>| object_of(n, ln@, class)),
            texts(out@) == distinct(all, i as nat, pick),
        decreases names@.len() - i,
    {
        assert(all[i as int] == names@[i as int]@);
        if let Some(x) = pick_object(names[i].as_str(), ln, class) {
            add_once(&mut out, x);
        }
        i = i + 1;
    }
    out
}

/// The name of a list entry `LN$Name` of a logical node.
pub open spec fn name_under(name: Seq<char>, ln: Seq<char>) -> Option<Seq<char>> {
    match split_first(name, '$') {
        Some((node, rest)) => if node == ln && rest.len() > 0 {
            Some(rest)
        } else {
            None
        },
        None => None,
    }
}

/// Returns the entries of an `LN$Name` list that belong to `ln`, stripped of
/// the logical node prefix.
pub fn names_under(names: &Vec<String>, ln: &str) -> (out: Vec<String>)
    ensures
        texts(out@) == distinct(
            texts(names@),
            names@.len(),
            |n: Seq<char>| name_under(n, ln@),
        ),
{
    let ghost pick = |n: Seq<char>| name_under(n, ln@);
    let ghost all = texts(names@);
    let mut out: Vec<String> = Vec::new();
    let mut i: usize = 0;
    assert(texts(out@) =~= distinct(all, 0, pick));
    while i < names.len()
        invariant
            i <= names@.len(),
            all == texts(names@),
            pick == (|n: Seq<char>| name_under(n, ln@)),
            texts(out@) == distinct(all, i as nat, pick),
        decreases names@.len() - i,
    {
        assert(all[i as int] == names@[i as int]@);
        if let Some((node, rest)) = split_once(names[i].as_str(), '$') {
            if same(node.as_str(), ln) && !rest.as_str().is_empty() {
                add_once(&mut out, rest);
            }
        }
        i = i + 1;
    }
    out
}

/// The logical node of a variable name: the part before the first separator,
/// and a bare entry is the node itself.
pub open spec fn node_of(name: Seq<char>) -> Option<Seq<char>> {
    let ln = match split_first(name, '$') {
        Some((ln, _)) => ln,
        None => name,
    };
    if ln.len() == 0 {
        None
    } else {
        Some(ln)
    }
}

/// Returns the logical node names in a device's variable name list.
pub fn logical_nodes(names: &Vec<String>) -> (out: Vec<String>)
    ensures
        texts(out@) == distinct(texts(names@), names@.len(), |n: Seq<char>| node_of(n)),
{
    let ghost pick = |n: Seq<char>| node_of(n);
    let ghost all = texts(names@);
    let mut out: Vec<String> = Vec::new();
    let mut i: usize = 0;
    assert(texts(out@) =~= distinct(all, 0, pick));
    while i < names.len()
        invariant
            i <= names@.len(),
            all == texts(names@),
            pick == (|n: Seq<char>| node_of(n)),
            texts(out@) == distinct(all, i as nat, pick),
        decreases names@.len() - i,
    {
        assert(all[i as int] == names@[i as int]@);
        let ln = match split_once(names[i].as_str(), '$') {
            Some((ln, _)) => ln,
            None => names[i].clone(),
        };
        if !ln.as_str().is_empty() {
            add_once(&mut out, ln);
        }
        i = i + 1;
    }
    out
}

/// Where the names of a class are listed.
#[derive(Debug, Clone, Copy, PartialEq, Eq, Structural)]
pub enum NameList {
    Variables,
    VariableLists,
    Journals,
}

/// Which name list a directory request for a class reads: data sets are MMS
/// named variable lists and logs are MMS journals; everything else is a named
/// variable distinguished by its constraint.
pub open spec fn list_of(class: AcsiClass) -> NameList {
    match class {
        AcsiClass::DataSet => NameList::VariableLists,
        AcsiClass::Log => NameList::Journals,
        _ => NameList::Variables,
    }
}

/// Plans the directory of a logical node, addressed as `LD/LN`: the device and
/// node, and the name list to read.
pub fn logical_node_directory(ln: &ObjectReference, class: AcsiClass) -> (r: Result<
    (String, String, NameList),
>)
    ensures
        ({
            let domain = ld_of(ln@);
            let path = path_of(ln@);
            let node = if path.len() > 0 {
                path[0]
            } else {
                Seq::empty()
            };
            match r {
                Ok((d, n, list)) => {
                    &&& domain.len() > 0 && node.len() > 0
                    &&& d@ == domain && n@ == node && list == list_of(class)
                },
                Err(e) => {
                    &&& domain.len() == 0 || node.len() == 0
                    &&& is_client_error(
                        e,
                        "logical node reference "@ + quoted(ln@) + " must be LD/LN"@,
                    )
                },
            }
        }),
{
    let domain = ln.ld();
    let node = ln.ln();
    if domain.as_str().is_empty() || node.as_str().is_empty() {
        return Err(
            Error::Client(
                concat3(
                    "logical node reference ",
                    quote(ln.as_str()).as_str(),
                    " must be LD/LN",
                ),
            ),
        );
    }
    let list = match class {
        AcsiClass::DataSet => NameList::VariableLists,
        AcsiClass::Log => NameList::Journals,
        _ => NameList::Variables,
    };
    Ok((domain, node, list))
}

/// The names that a name list holds of a class in a logical node.
pub fn directory_names(names: &Vec<String>, ln: &str, class: AcsiClass) -> (out: Vec<String>)
    ensures
        texts(out@) == (if class.listed() {
            distinct(texts(names@), names@.len(), |n: Seq<char>| name_under(n, ln@))
        } else {
            distinct(texts(names@), names@.len(), |n: Seq<char>| object_of(n, ln@, class))
        }),
{
    if class.is_listed() {
        names_under(names, ln)
    } else {
        objects_of_class(names, ln, class)
    }
}

/// One object found by a browse.
#[derive(Debug, PartialEq, Eq)]
pub struct DirectoryEntry {
    /// Addresses the object.
    ///
    /// It is the MMS item ID with `$` written as `.`, so a control block keeps
    /// its functional constraint (`LD/LLN0.RP.urcb01`) and a data object does
    /// not (`LD/GGIO1.SPCSO1`), the constraint being a separate argument
    /// there.
    pub reference: ObjectReference,
    /// The ACSI class the object was matched as.
    pub class: AcsiClass,
}

/// What entries say.
pub open spec fn entries_view(v: Seq<DirectoryEntry>) -> Seq<(Seq<char>, AcsiClass)> {
    Seq::new(v.len(), |i: int| (v[i].reference@, v[i].class))
}

/// Whether entries hold a reference.
pub open spec fn has_reference(v: Seq<(Seq<char>, AcsiClass)>, r: Seq<char>) -> bool {
    exists|i: int| 0 <= i < v.len() && (#[trigger] v[i]).0 == r
}

/// What `pick` makes of the first `n` of `names`, put behind `found`, each
/// reference once.
pub open spec fn found_in(
    found: Seq<(Seq<char>, AcsiClass)>,
    names: Seq<Seq<char>>,
    n: nat,
    pick: spec_fn(Seq<char>) -> Option<(Seq<char>, AcsiClass)>,
) -> Seq<(Seq<char>, AcsiClass)>
    decreases n,
{
    if n == 0 || n > names.len() {
        found
    } else {
        let before = found_in(found, names, (n - 1) as nat, pick);
        match pick(names[n - 1]) {
            Some(e) => if has_reference(before, e.0) {
                before
            } else {
                before.push(e)
            },
            None => before,
        }
    }
}

/// The first of `classes` from `k` on that a variable belongs to.
pub open spec fn class_of(classes: Seq<AcsiClass>, k: int, fc: Fc, name: Seq<char>) -> Option<
    AcsiClass,
>
    decreases classes.len() - k,
{
    if k < 0 || k >= classes.len() {
        None
    } else if !classes[k].listed() && classes[k].includes(fc, name) {
        Some(classes[k])
    } else {
        class_of(classes, k + 1, fc, name)
    }
}

/// The object that a variable name belongs to, if it is of one of `classes`.
pub open spec fn variable_entry(
    ld: Seq<char>,
    classes: Seq<AcsiClass>,
    name: Seq<char>,
) -> Option<(Seq<char>, AcsiClass)> {
    let parts = split_on(name, '$');
    if parts.len() < 3 || parts[0].len() == 0 || parts[2].len() == 0 || !Fc::is_named(parts[1]) {
        None
    } else {
        let fc = fc_named(parts[1]);
        match class_of(classes, 0, fc, parts[2]) {
            None => None,
            Some(AcsiClass::DataObject) => Some(
                (ld + "/"@ + parts[0] + "."@ + parts[2], AcsiClass::DataObject),
            ),
            Some(c) => Some(
                (ld + "/"@ + parts[0] + "."@ + fc.text() + "."@ + parts[2], c),
            ),
        }
    }
}

/// The object that a list entry `LN$Name` stands for.
pub open spec fn list_entry(ld: Seq<char>, class: AcsiClass, name: Seq<char>) -> Option<
    (Seq<char>, AcsiClass),
> {
    match split_first(name, '$') {
        Some((ln, rest)) => if ln.len() > 0 && rest.len() > 0 {
            Some((ld + "/"@ + ln + "."@ + rest, class))
        } else {
            None
        },
        None => None,
    }
}

/// Adds an entry unless its reference is there already.
fn add_entry(out: &mut Vec<DirectoryEntry>, reference: String, class: AcsiClass)
    ensures
        entries_view(final(out)@) == (if has_reference(entries_view(old(out)@), reference@) {
            entries_view(old(out)@)
        } else {
            entries_view(old(out)@).push((reference@, class))
        }),
{
    let ghost v = entries_view(out@);
    let mut i: usize = 0;
    while i < out.len()
        invariant
            i <= out@.len(),
            *out == *old(out),
            v == entries_view(out@),
            forall|j: int| 0 <= j < i ==> (#[trigger] v[j]).0 != reference@,
        decreases out@.len() - i,
    {
        if same(out[i].reference.as_str(), reference.as_str()) {
            assert(v[i as int].0 == reference@);
            return;
        }
        assert(v[i as int].0 == out@[i as int].reference@);
        i = i + 1;
    }
    let reference = ObjectReference::new(reference);
    out.push(DirectoryEntry { reference, class });
    assert(entries_view(out@) =~= v.push((reference@, class)));
}

/// `ld/ln.name`
fn object_name(ld: &str, ln: &str, name: &str) -> (s: String)
    ensures
        s@ == ld@ + "/"@ + ln@ + "."@ + name@,
{
    let mut s = concat3(ld, "/", ln);
    push_str(&mut s, ".");
    push_str(&mut s, name);
    s
}

fn find_class(classes: &Vec<AcsiClass>, fc: Fc, name: &str) -> (r: Option<AcsiClass>)
    ensures
        r == class_of(classes@, 0, fc, name@),
{
    let mut k: usize = 0;
    while k < classes.len()
        invariant
            k <= classes@.len(),
            class_of(classes@, 0, fc, name@) == class_of(classes@, k as int, fc, name@),
        decreases classes@.len() - k,
    {
        let c = classes[k];
        if !c.is_listed() && c.holds(fc, name) {
            return Some(c);
        }
        k = k + 1;
    }
    None
}

fn pick_variable(ld: &str, classes: &Vec<AcsiClass>, name: &str) -> (r: Option<
    (String, AcsiClass),
>)
    ensures
        match (r, variable_entry(ld@, classes@, name@)) {
            (Some((s, c)), Some((t, d))) => s@ == t && c == d,
            (None, None) => true,
            _ => false,
        },
{
    let parts = split(name, '$');
    let ghost ps = texts(parts@);
    assert(ps.len() == parts@.len());
    if parts.len() < 3 {
        return None;
    }
    assert(ps[0] == parts@[0]@ && ps[1] == parts@[1]@ && ps[2] == parts@[2]@);
    if parts[0].as_str().is_empty() || parts[2].as_str().is_empty() {
        return None;
    }
    let fc = match Fc::parse(parts[1].as_str()) {
        Some(fc) => fc,
        None => return None,
    };
    proof {
        assert(fc.text() == ps[1]);
        crate::model::codes_are_distinct(fc, fc_named(ps[1]));
    }
    match find_class(classes, fc, parts[2].as_str()) {
        None => None,
        Some(c) => {
            if c == AcsiClass::DataObject {
                return Some((object_name(ld, parts[0].as_str(), parts[2].as_str()), c));
            }
            let mut s = object_name(ld, parts[0].as_str(), fc.as_str());
            push_str(&mut s, ".");
            push_str(&mut s, parts[2].as_str());
            Some((s, c))
        },
    }
}

/// Which name lists a browse reads.
#[derive(Debug, Clone, Copy, PartialEq, Eq, Structural)]
pub struct BrowseLists {
    pub variables: bool,
    pub sets: bool,
    pub logs: bool,
}

/// The classes that a browse looks for: with none named, every class.
pub open spec fn browsed(classes: Seq<AcsiClass>) -> Seq<AcsiClass> {
    if classes.len() == 0 {
        every_class()
    } else {
        classes
    }
}

/// Whether a browse reads the variable names.
pub open spec fn wants_variables(classes: Seq<AcsiClass>) -> bool {
    exists|i: int| 0 <= i < classes.len() && !(#[trigger] classes[i]).listed()
}

/// Plans a browse: which of a device's name lists are read.
pub fn browse_plan(ld: &str, classes: &Vec<AcsiClass>) -> (r: Result<BrowseLists>)
    ensures
        match r {
            Err(e) => ld@.len() == 0 && is_client_error(e, "browse needs a logical device name"@),
            Ok(l) => {
                &&& ld@.len() > 0
                &&& l.variables == wants_variables(browsed(classes@))
                &&& l.sets == browsed(classes@).contains(AcsiClass::DataSet)
                &&& l.logs == browsed(classes@).contains(AcsiClass::Log)
            },
        },
{
    if ld.is_empty() {
        return Err(Error::client("browse needs a logical device name"));
    }
    if classes.len() == 0 {
        proof {
            assert(!every_class()[0].listed());
            assert(every_class()[1] == AcsiClass::DataSet);
            assert(every_class()[5] == AcsiClass::Log);
        }
        return Ok(BrowseLists { variables: true, sets: true, logs: true });
    }
    let mut l = BrowseLists { variables: false, sets: false, logs: false };
    let mut i: usize = 0;
    while i < classes.len()
        invariant
            i <= classes@.len(),
            l.variables == (exists|j: int| 0 <= j < i && !(#[trigger] classes@[j]).listed()),
            l.sets == (exists|j: int| 0 <= j < i && (#[trigger] classes@[j]) == AcsiClass::DataSet),
            l.logs == (exists|j: int| 0 <= j < i && (#[trigger] classes@[j]) == AcsiClass::Log),
        decreases classes@.len() - i,
    {
        let ghost before = l;
        match classes[i] {
            AcsiClass::DataSet => l.sets = true,
            AcsiClass::Log => l.logs = true,
            _ => l.variables = true,
        }
        i = i + 1;
    }
    Ok(l)
}

/// The entries of a browse, given the name lists that it read: grouped by the
/// list they were found in (variables, then data sets, then logs), in the
/// server's order, each reference once.
pub open spec fn browse_of(
    ld: Seq<char>,
    classes: Seq<AcsiClass>,
    variables: Seq<Seq<char>>,
    sets: Seq<Seq<char>>,
    logs: Seq<Seq<char>>,
) -> Seq<(Seq<char>, AcsiClass)> {
    let a = found_in(
        Seq::empty(),
        variables,
        variables.len(),
        |n: Seq<char>| variable_entry(ld, classes, n),
    );
    let b = found_in(a, sets, sets.len(), |n: Seq<char>| list_entry(ld, AcsiClass::DataSet, n));
    found_in(b, logs, logs.len(), |n: Seq<char>| list_entry(ld, AcsiClass::Log, n))
}

fn add_list(out: &mut Vec<DirectoryEntry>, ld: &str, class: AcsiClass, names: &Vec<String>)
    ensures
        entries_view(final(out)@) == found_in(
            entries_view(old(out)@),
            texts(names@),
            names@.len(),
            |n: Seq<char>| list_entry(ld@, class, n),
        ),
{
    let ghost pick = |n: Seq<char>| list_entry(ld@, class, n);
    let ghost all = texts(names@);
    let ghost start = entries_view(out@);
    let mut i: usize = 0;
    while i < names.len()
        invariant
            i <= names@.len(),
            all == texts(names@),
            pick == (|n: Seq<char>| list_entry(ld@, class, n)),
            entries_view(out@) == found_in(start, all, i as nat, pick),
        decreases names@.len() - i,
    {
        assert(all[i as int] == names@[i as int]@);
        if let Some((ln, rest)) = split_once(names[i].as_str(), '$') {
            if !ln.as_str().is_empty() && !rest.as_str().is_empty() {
                add_entry(out, object_name(ld, ln.as_str(), rest.as_str()), class);
            }
        }
        i = i + 1;
    }
}

/// Returns every object of the given ACSI classes in a logical device, as
/// references, given the name lists that [`browse_plan`] asks for; a list that
/// was not asked for is empty.
///
/// One pass over the device's name list covers all the logical nodes and all
/// the classes asked for. With no class named, it looks for every class.
pub fn browse(
    ld: &str,
    classes: &Vec<AcsiClass>,
    variables: &Vec<String>,
    sets: &Vec<String>,
    logs: &Vec<String>,
) -> (out: Vec<DirectoryEntry>)
    ensures
        entries_view(out@) == browse_of(
            ld@,
            browsed(classes@),
            texts(variables@),
            texts(sets@),
            texts(logs@),
        ),
{
    let mut wanted: Vec<AcsiClass> = AcsiClass::ALL();
    if classes.len() > 0 {
        wanted = vstd::slice::slice_to_vec(classes.as_slice());
    }
    let ghost cs = browsed(classes@);
    let ghost pick = |n: Seq<char>| variable_entry(ld@, cs, n);
    let ghost all = texts(variables@);
    let mut out: Vec<DirectoryEntry> = Vec::new();
    let mut i: usize = 0;
    assert(entries_view(out@) =~= Seq::empty());
    while i < variables.len()
        invariant
            i <= variables@.len(),
            all == texts(variables@),
            wanted@ == cs,
            pick == (|n: Seq<char>| variable_entry(ld@, cs, n)),
            entries_view(out@) == found_in(Seq::empty(), all, i as nat, pick),
        decreases variables@.len() - i,
    {
        assert(all[i as int] == variables@[i as int]@);
        if let Some((reference, class)) = pick_variable(ld, &wanted, variables[i].as_str()) {
            add_entry(&mut out, reference, class);
        }
        i = i + 1;
    }
    add_list(&mut out, ld, AcsiClass::DataSet, sets);
    add_list(&mut out, ld, AcsiClass::Log, logs);
    out
}

/// A browse reports every object once.
pub proof fn browsing_finds_each_reference_once(
    found: Seq<(Seq<char>, AcsiClass)>,
    names: Seq<Seq<char>>,
    n: nat,
    pick: spec_fn(Seq<char>) -> Option<(Seq<char>, AcsiClass)>,
    i: int,
    j: int,
)
    requires
        forall|a: int, b: int|
            0 <= a < b < found.len() ==> (#[trigger] found[a]).0 != (#[trigger] found[b]).0,
        0 <= i < j < found_in(found, names, n, pick).len(),
    ensures
        found_in(found, names, n, pick)[i].0 != found_in(found, names, n, pick)[j].0,
    decreases n,
{
    if n != 0 && n <= names.len() {
        let before = found_in(found, names, (n - 1) as nat, pick);
        if j < before.len() {
            browsing_finds_each_reference_once(found, names, (n - 1) as nat, pick, i, j);
        } else {
            assert(i < before.len());
            assert(!has_reference(before, found_in(found, names, n, pick)[j].0));
        }
    }
}

/// The child of a data object or attribute that a variable name leads to: the
/// name has to be exactly one component deeper than the path, below it, and
/// under the constraint asked for.
pub open spec fn child_of(name: Seq<char>, path: Seq<Seq<char>>, fc: Fc) -> Option<Seq<char>> {
    let parts = split_on(name, '$');
    if parts.len() < 3 || parts[0] != path[0] || !Fc::is_named(parts[1]) {
        None
    } else if fc.is_code() && fc_named(parts[1]) != fc {
        None
    } else if parts.len() != path.len() + 2 || parts.subrange(2, parts.len() - 1) != path.skip(1) {
        None
    } else {
        Some(parts.last())
    }
}

fn pick_child(name: &str, path: &Vec<String>, fc: Fc) -> (r: Option<String>)
    requires
        path@.len() >= 2,
    ensures
        match (r, child_of(name@, texts(path@), fc)) {
            (Some(a), Some(b)) => a@ == b,
            (None, None) => true,
            _ => false,
        },
{
    let parts = split(name, '$');
    let ghost ps = texts(parts@);
    let ghost pp = texts(path@);
    assert(ps.len() == parts@.len() && pp.len() == path@.len());
    if parts.len() < 3 {
        return None;
    }
    assert(ps[0] == parts@[0]@ && ps[1] == parts@[1]@ && pp[0] == path@[0]@);
    if !same(parts[0].as_str(), path[0].as_str()) {
        return None;
    }
    let efc = match Fc::parse(parts[1].as_str()) {
        Some(efc) => efc,
        None => return None,
    };
    proof {
        assert(efc.text() == ps[1]);
        crate::model::codes_are_distinct(efc, fc_named(ps[1]));
    }
    if fc != Fc::All && fc != Fc::Unset && efc != fc {
        return None;
    }
    if parts.len() - 2 != path.len() {
        return None;
    }
    let mut i: usize = 1;
    while i < path.len()
        invariant
            1 <= i <= path@.len(),
            parts@.len() == path@.len() + 2,
            ps == texts(parts@),
            ps == split_on(name@, '$'),
            pp == texts(path@),
            forall|j: int| 1 <= j < i ==> ps[j + 1] == #[trigger] pp[j],
        decreases path@.len() - i,
    {
        assert(ps[i + 1] == parts@[i + 1]@ && pp[i as int] == path@[i as int]@);
        if !same(parts[i + 1].as_str(), path[i].as_str()) {
            proof {
                let a = ps.subrange(2, ps.len() - 1);
                let b = pp.skip(1);
                assert(a[i - 1] == ps[i + 1] && b[i - 1] == pp[i as int]);
            }
            return None;
        }
        i = i + 1;
    }
    assert(ps.subrange(2, ps.len() - 1) =~= pp.skip(1));
    Some(parts[parts.len() - 1].clone())
}

/// Checks the reference of a data directory, `LD/LN.DO[.DA...]`, and returns
/// its device and its path.
pub fn data_directory_plan(reference: &ObjectReference) -> (r: Result<(String, Vec<String>)>)
    ensures
        match r {
            Ok((d, p)) => ld_of(reference@).len() > 0 && path_of(reference@).len() >= 2 && d@
                == ld_of(reference@) && texts(p@) == path_of(reference@),
            Err(e) => (ld_of(reference@).len() == 0 || path_of(reference@).len() < 2)
                && is_client_error(
                e,
                "data reference "@ + quoted(reference@) + " must be LD/LN.DO[.DA...]"@,
            ),
        },
{
    let domain = reference.ld();
    let path = reference.path();
    assert(texts(path@).len() == path@.len());
    if domain.as_str().is_empty() || path.len() < 2 {
        return Err(
            Error::Client(
                concat3(
                    "data reference ",
                    quote(reference.as_str()).as_str(),
                    " must be LD/LN.DO[.DA...]",
                ),
            ),
        );
    }
    Ok((domain, path))
}

/// Returns the names of the immediate children of a data object or data
/// attribute, given the variable names of its device.
///
/// An IED lists everything under its functionally-constrained objects, so one
/// level of the tree is the set of distinct names exactly one component deeper
/// than the path. `fc` restricts the browse to one functional constraint;
/// [`Fc::All`] (or [`Fc::Unset`]) unions the children seen under every
/// constraint, which is how a data object exposes both its status attributes
/// and its control ones.
pub fn data_directory(names: &Vec<String>, path: &Vec<String>, fc: Fc) -> (out: Vec<String>)
    requires
        path@.len() >= 2,
    ensures
        texts(out@) == distinct(
            texts(names@),
            names@.len(),
            |n: Seq<char>| child_of(n, texts(path@), fc),
        ),
{
    let ghost pick = |n: Seq<char>| child_of(n, texts(path@), fc);
    let ghost all = texts(names@);
    let mut out: Vec<String> = Vec::new();
    let mut i: usize = 0;
    assert(texts(out@) =~= distinct(all, 0, pick));
    while i < names.len()
        invariant
            i <= names@.len(),
            path@.len() >= 2,
            all == texts(names@),
            pick == (|n: Seq<char>| child_of(n, texts(path@), fc)),
            texts(out@) == distinct(all, i as nat, pick),
        decreases names@.len() - i,
    {
        assert(all[i as int] == names@[i as int]@);
        if let Some(x) = pick_child(names[i].as_str(), path, fc) {
            add_once(&mut out, x);
        }
        i = i + 1;
    }
    out
}

/// The parts of a name that was put together of three, or of three and more
/// behind them.
proof fn lemma_name_parts(name: Seq<char>, ln: Seq<char>, code: Seq<char>, object: Seq<char>, below: Seq<Seq<char>>)
    requires
        !ln.contains('$'),
        !code.contains('$'),
        !object.contains('$'),
        forall|i: int| 0 <= i < below.len() ==> !(#[trigger] below[i]).contains('$'),
        name == ln + "$"@ + code + "$"@ + object + (if below.len() == 0 {
            Seq::empty()
        } else {
            "$"@ + joined(below, "$"@)
        }),
    ensures
        split_on(name, '$') == seq![ln, code, object] + below,
{
    reveal_strlit("$");
    let d = seq!['$'];
    assert("$"@ =~= d);
    let parts = seq![ln, code, object] + below;
    let tail = seq![object] + below;
    assert(parts =~= seq![ln] + (seq![code] + tail));
    lemma_joined_front(ln, seq![code] + tail, d);
    lemma_joined_front(code, tail, d);
    if below.len() == 0 {
        assert(tail =~= seq![object]);
    } else {
        lemma_joined_front(object, below, d);
    }
    assert(name =~= joined(parts, d));
    assert forall|i: int| 0 <= i < parts.len() implies !(#[trigger] parts[i]).contains('$') by {
        if i >= 3 {
            assert(parts[i] == below[i - 3]);
        }
    }
    splitting_undoes_joining(parts, '$');
}

/// The device and the path of a reference that was put together.
proof fn lemma_reference_parts(r: Seq<char>, ld: Seq<char>, path: Seq<Seq<char>>)
    requires
        !ld.contains('/'),
        path.len() > 0,
        path[0].len() > 0,
        forall|i: int| 0 <= i < path.len() ==> !(#[trigger] path[i]).contains('.'),
        r == ld + "/"@ + joined(path, "."@),
    ensures
        ld_of(r) == ld,
        path_of(r) == path,
{
    reveal_strlit("/");
    reveal_strlit(".");
    assert("/"@ =~= seq!['/']);
    assert("."@ =~= seq!['.']);
    assert forall|i: int| 0 <= i < ld.len() implies r[i] != '/' by {
        assert(r[i] == ld[i]);
    }
    lemma_first_of_is(r, '/', ld.len() as int);
    assert(r.take(ld.len() as int) =~= ld);
    let rest = joined(path, "."@);
    assert(r.skip(ld.len() as int + 1) =~= rest);
    splitting_undoes_joining(path, '.');
    if rest.len() == 0 {
        assert(split_on(rest, '.') =~= seq![rest]);
        assert(path[0] == rest);
    }
}

/// A browsed data object is addressable. Whatever of it a variable names, under
/// whatever constraint of data, it is found as one and the same reference: that
/// of the object in its device, which is written back as the object's own
/// variable under each constraint. A set point called `SGCB` is no data.
pub proof fn a_browsed_object_is_addressable(
    ld: Seq<char>,
    classes: Seq<AcsiClass>,
    name: Seq<char>,
    ln: Seq<char>,
    fc: Fc,
    object: Seq<char>,
    below: Seq<Seq<char>>,
    other: Fc,
)
    requires
        classes.contains(AcsiClass::DataObject),
        fc.is_code(),
        fc != Fc::Br && fc != Fc::Rp && fc != Fc::Lg && fc != Fc::Go && fc != Fc::Gs && fc != Fc::Ms
            && fc != Fc::Us,
        !(fc == Fc::Sp && object == "SGCB"@),
        ln.len() > 0 && !ln.contains('$') && !ln.contains('.'),
        object.len() > 0 && !object.contains('$') && !object.contains('.'),
        !ld.contains('/'),
        forall|i: int| 0 <= i < below.len() ==> !(#[trigger] below[i]).contains('$'),
        name == ln + "$"@ + fc.text() + "$"@ + object + (if below.len() == 0 {
            Seq::empty()
        } else {
            "$"@ + joined(below, "$"@)
        }),
        other.is_code(),
    ensures
        variable_entry(ld, classes, name) == Some(
            (ld + "/"@ + ln + "."@ + object, AcsiClass::DataObject),
        ),
        ld_of(ld + "/"@ + ln + "."@ + object) == ld,
        path_of(ld + "/"@ + ln + "."@ + object) == seq![ln, object],
        item_of(path_of(ld + "/"@ + ln + "."@ + object), other) == ln + "$"@ + other.text() + "$"@
            + object,
{
    lemma_no_dollar_in_code(fc);
    lemma_name_parts(name, ln, fc.text(), object, below);
    let parts = split_on(name, '$');
    assert(parts[0] == ln && parts[1] == fc.text() && parts[2] == object);
    assert(Fc::is_named(parts[1]));
    crate::model::codes_are_distinct(fc, fc_named(parts[1]));
    let c = classes_partition_the_objects(fc, object);
    assert(AcsiClass::DataObject.includes(fc, object));
    let k = choose|k: int| 0 <= k < classes.len() && classes[k] == AcsiClass::DataObject;
    lemma_class_found(classes, 0, fc, object, k);
    let r = ld + "/"@ + ln + "."@ + object;
    let path = seq![ln, object];
    reveal_strlit(".");
    assert("."@ =~= seq!['.']);
    assert(path =~= seq![ln] + seq![object]);
    lemma_joined_front(ln, seq![object], "."@);
    assert(r =~= ld + "/"@ + joined(path, "."@));
    lemma_reference_parts(r, ld, path);
    assert(path.skip(1) =~= seq![object]);
}

/// A browsed control block is addressable: its reference keeps the constraint
/// that carries it, and is written back as the block's own variable. Every
/// member of it names the same block, and its class is the one of its
/// constraint.
pub proof fn a_browsed_control_block_is_addressable(
    ld: Seq<char>,
    classes: Seq<AcsiClass>,
    name: Seq<char>,
    ln: Seq<char>,
    fc: Fc,
    block: Seq<char>,
    below: Seq<Seq<char>>,
    class: AcsiClass,
)
    requires
        classes.contains(class),
        ({
            ||| class == AcsiClass::Brcb && fc == Fc::Br
            ||| class == AcsiClass::Urcb && fc == Fc::Rp
            ||| class == AcsiClass::Lcb && fc == Fc::Lg
            ||| class == AcsiClass::GoCb && fc == Fc::Go
            ||| class == AcsiClass::GsCb && fc == Fc::Gs
            ||| class == AcsiClass::Msvcb && fc == Fc::Ms
            ||| class == AcsiClass::Usvcb && fc == Fc::Us
            ||| class == AcsiClass::Sgcb && fc == Fc::Sp && block == "SGCB"@
        }),
        ln.len() > 0 && !ln.contains('$') && !ln.contains('.'),
        block.len() > 0 && !block.contains('$') && !block.contains('.'),
        !ld.contains('/'),
        forall|i: int| 0 <= i < below.len() ==> !(#[trigger] below[i]).contains('$'),
        name == ln + "$"@ + fc.text() + "$"@ + block + (if below.len() == 0 {
            Seq::empty()
        } else {
            "$"@ + joined(below, "$"@)
        }),
    ensures
        variable_entry(ld, classes, name) == Some(
            (ld + "/"@ + ln + "."@ + fc.text() + "."@ + block, class),
        ),
        ld_of(ld + "/"@ + ln + "."@ + fc.text() + "."@ + block) == ld,
        path_of(ld + "/"@ + ln + "."@ + fc.text() + "."@ + block) == seq![ln, fc.text(), block],
        item_of(path_of(ld + "/"@ + ln + "."@ + fc.text() + "."@ + block), Fc::Unset) == ln + "$"@
            + fc.text() + "$"@ + block,
{
    lemma_no_dollar_in_code(fc);
    lemma_name_parts(name, ln, fc.text(), block, below);
    let parts = split_on(name, '$');
    assert(parts[0] == ln && parts[1] == fc.text() && parts[2] == block);
    assert(Fc::is_named(parts[1]));
    crate::model::codes_are_distinct(fc, fc_named(parts[1]));
    let c = classes_partition_the_objects(fc, block);
    assert(class.includes(fc, block) && !class.listed());
    let k = choose|k: int| 0 <= k < classes.len() && classes[k] == class;
    lemma_class_found(classes, 0, fc, block, k);
    let r = ld + "/"@ + ln + "."@ + fc.text() + "."@ + block;
    let path = seq![ln, fc.text(), block];
    let tail = seq![fc.text(), block];
    reveal_strlit(".");
    reveal_strlit("$");
    assert("."@ =~= seq!['.']);
    assert("$"@ =~= seq!['$']);
    assert(path =~= seq![ln] + tail);
    assert(tail =~= seq![fc.text()] + seq![block]);
    lemma_joined_front(ln, tail, "."@);
    lemma_joined_front(fc.text(), seq![block], "."@);
    lemma_joined_front(ln, tail, "$"@);
    lemma_joined_front(fc.text(), seq![block], "$"@);
    assert(r =~= ld + "/"@ + joined(path, "."@));
    assert(joined(path, "$"@) =~= ln + "$"@ + fc.text() + "$"@ + block);
    lemma_reference_parts(r, ld, path);
}

/// The class of a variable is found wherever it stands among the classes asked
/// for.
proof fn lemma_class_found(classes: Seq<AcsiClass>, from: int, fc: Fc, name: Seq<char>, k: int)
    requires
        0 <= from <= k < classes.len(),
        !classes[k].listed(),
        classes[k].includes(fc, name),
    ensures
        class_of(classes, from, fc, name) == Some(classes[k]),
    decreases k - from,
{
    let c = classes_partition_the_objects(fc, name);
    if !(!classes[from].listed() && classes[from].includes(fc, name)) {
        lemma_class_found(classes, from + 1, fc, name, k);
    }
}

/// A variable of a class that was not asked for is not found.
proof fn lemma_class_missed(classes: Seq<AcsiClass>, from: int, fc: Fc, name: Seq<char>)
    requires
        0 <= from,
        forall|k: int|
            0 <= k < classes.len() ==> (#[trigger] classes[k]).listed() || !classes[k].includes(
                fc,
                name,
            ),
    ensures
        class_of(classes, from, fc, name) is None,
    decreases classes.len() - from,
{
    if from < classes.len() {
        lemma_class_missed(classes, from + 1, fc, name);
    }
}

/// A browse finds nothing but objects of the classes asked for: an entry names
/// the class of the constraint that its variable carries, and that class is
/// among them.
pub proof fn a_browse_finds_only_what_was_asked_for(
    ld: Seq<char>,
    classes: Seq<AcsiClass>,
    name: Seq<char>,
)
    ensures
        variable_entry(ld, classes, name) matches Some(e) ==> {
            let fc = fc_named(split_on(name, '$')[1]);
            let object = split_on(name, '$')[2];
            &&& classes.contains(e.1)
            &&& e.1 != AcsiClass::DataSet && e.1 != AcsiClass::Log
            &&& split_on(name, '$').len() >= 3
            &&& split_on(name, '$')[0].len() > 0 && object.len() > 0
            &&& fc.is_code() && fc.text() == split_on(name, '$')[1]
            &&& (e.1 == AcsiClass::Brcb) == (fc == Fc::Br)
            &&& (e.1 == AcsiClass::Urcb) == (fc == Fc::Rp)
            &&& (e.1 == AcsiClass::Lcb) == (fc == Fc::Lg)
            &&& (e.1 == AcsiClass::GoCb) == (fc == Fc::Go)
            &&& (e.1 == AcsiClass::GsCb) == (fc == Fc::Gs)
            &&& (e.1 == AcsiClass::Msvcb) == (fc == Fc::Ms)
            &&& (e.1 == AcsiClass::Usvcb) == (fc == Fc::Us)
            &&& (e.1 == AcsiClass::Sgcb) == (fc == Fc::Sp && object == "SGCB"@)
        },
{
    if let Some(e) = variable_entry(ld, classes, name) {
        let parts = split_on(name, '$');
        let fc = fc_named(parts[1]);
        assert(fc.is_code() && fc.text() == parts[1]);
        let c = classes_partition_the_objects(fc, parts[2]);
        if exists|k: int|
            0 <= k < classes.len() && !(#[trigger] classes[k]).listed() && classes[k].includes(
                fc,
                parts[2],
            ) {
            let k = choose|k: int|
                0 <= k < classes.len() && !(#[trigger] classes[k]).listed() && classes[k].includes(
                    fc,
                    parts[2],
                );
            lemma_class_found(classes, 0, fc, parts[2], k);
            assert(e.1 == classes[k]);
        } else {
            lemma_class_missed(classes, 0, fc, parts[2]);
        }
    }
}

/// A data set or a log is addressable: the entry `LN$Name` of its list is found
/// as `LD/LN.Name`, and written back as that entry.
pub proof fn a_browsed_list_is_addressable(
    ld: Seq<char>,
    class: AcsiClass,
    ln: Seq<char>,
    list: Seq<char>,
)
    requires
        ln.len() > 0 && !ln.contains('$') && !ln.contains('.'),
        list.len() > 0 && !list.contains('.'),
        !ld.contains('/'),
    ensures
        list_entry(ld, class, ln + "$"@ + list) == Some((ld + "/"@ + ln + "."@ + list, class)),
        ld_of(ld + "/"@ + ln + "."@ + list) == ld,
        path_of(ld + "/"@ + ln + "."@ + list) == seq![ln, list],
        item_of(path_of(ld + "/"@ + ln + "."@ + list), Fc::Unset) == ln + "$"@ + list,
        name_under(ln + "$"@ + list, ln) == Some(list),
        node_of(ln + "$"@ + list) == Some(ln),
        node_of(ln) == Some(ln),
        list_entry(ld, class, ln) is None,
        name_under(ln, ln) is None,
{
    reveal_strlit("$");
    reveal_strlit(".");
    assert("$"@ =~= seq!['$']);
    assert("."@ =~= seq!['.']);
    let name = ln + "$"@ + list;
    assert forall|i: int| 0 <= i < ln.len() implies name[i] != '$' by {
        assert(name[i] == ln[i]);
    }
    lemma_first_of_is(name, '$', ln.len() as int);
    assert forall|i: int| 0 <= i < ln.len() implies ln[i] != '$' by {
        assert(ln.contains(ln[i]));
    }
    lemma_first_of_is(ln, '$', ln.len() as int);
    assert(name.take(ln.len() as int) =~= ln);
    assert(name.skip(ln.len() as int + 1) =~= list);
    let r = ld + "/"@ + ln + "."@ + list;
    let path = seq![ln, list];
    assert(path =~= seq![ln] + seq![list]);
    lemma_joined_front(ln, seq![list], "."@);
    lemma_joined_front(ln, seq![list], "$"@);
    assert(r =~= ld + "/"@ + joined(path, "."@));
    lemma_reference_parts(r, ld, path);
}

/// A name that belongs to another node is not listed under this one.
pub proof fn a_node_lists_its_own_names_only(
    name: Seq<char>,
    ln: Seq<char>,
    class: AcsiClass,
)
    requires
        ln.len() > 0,
        node_of(name) != Some(ln),
    ensures
        object_of(name, ln, class) is None,
        name_under(name, ln) is None,
{
    lemma_first_of(name, '$');
    let k = first_of(name, '$') as int;
    let parts = split_on(name, '$');
    if k < name.len() {
        assert(parts[0] == name.take(k));
    }
}

/// The directory of a node names an object of a class by the third part of its
/// variables, whatever stands below it, and only where the class is that of the
/// constraint in the second.
pub proof fn a_node_lists_an_object_under_its_class(
    name: Seq<char>,
    ln: Seq<char>,
    fc: Fc,
    object: Seq<char>,
    below: Seq<Seq<char>>,
    class: AcsiClass,
)
    requires
        fc.is_code(),
        !ln.contains('$'),
        object.len() > 0 && !object.contains('$'),
        forall|i: int| 0 <= i < below.len() ==> !(#[trigger] below[i]).contains('$'),
        name == ln + "$"@ + fc.text() + "$"@ + object + (if below.len() == 0 {
            Seq::empty()
        } else {
            "$"@ + joined(below, "$"@)
        }),
    ensures
        object_of(name, ln, class) == (if match class {
            AcsiClass::Brcb => fc == Fc::Br,
            AcsiClass::Urcb => fc == Fc::Rp,
            AcsiClass::Lcb => fc == Fc::Lg,
            AcsiClass::GoCb => fc == Fc::Go,
            AcsiClass::GsCb => fc == Fc::Gs,
            AcsiClass::Msvcb => fc == Fc::Ms,
            AcsiClass::Usvcb => fc == Fc::Us,
            AcsiClass::Sgcb => fc == Fc::Sp && object == "SGCB"@,
            AcsiClass::DataObject => fc != Fc::Br && fc != Fc::Rp && fc != Fc::Lg && fc != Fc::Go
                && fc != Fc::Gs && fc != Fc::Ms && fc != Fc::Us && !(fc == Fc::Sp && object
                == "SGCB"@),
            AcsiClass::DataSet => false,
            AcsiClass::Log => false,
        } {
            Some(object)
        } else {
            None
        }),
{
    lemma_no_dollar_in_code(fc);
    lemma_name_parts(name, ln, fc.text(), object, below);
    let parts = split_on(name, '$');
    assert(parts[0] == ln && parts[1] == fc.text() && parts[2] == object);
    assert(Fc::is_named(parts[1]));
    crate::model::codes_are_distinct(fc, fc_named(parts[1]));
}

/// A browse finds every object that a name stands for, and nothing else.
pub proof fn a_browse_is_complete(
    found: Seq<(Seq<char>, AcsiClass)>,
    names: Seq<Seq<char>>,
    n: nat,
    pick: spec_fn(Seq<char>) -> Option<(Seq<char>, AcsiClass)>,
    e: (Seq<char>, AcsiClass),
)
    requires
        n <= names.len(),
    ensures
        found_in(found, names, n, pick).contains(e) ==> found.contains(e) || exists|i: int|
            0 <= i < n && pick(#[trigger] names[i]) == Some(e),
        forall|i: int|
            0 <= i < n && (pick(#[trigger] names[i]) matches Some(x)) ==> exists|k: int|
                0 <= k < found_in(found, names, n, pick).len() && (#[trigger] found_in(
                    found,
                    names,
                    n,
                    pick,
                )[k]).0 == pick(names[i]).unwrap().0,
        found.len() <= found_in(found, names, n, pick).len(),
        found_in(found, names, n, pick).take(found.len() as int) == found,
    decreases n,
{
    let now = found_in(found, names, n, pick);
    if n == 0 {
        assert(now.take(found.len() as int) =~= found);
    } else {
        let m = (n - 1) as nat;
        let before = found_in(found, names, m, pick);
        a_browse_is_complete(found, names, m, pick, e);
        assert(now.take(found.len() as int) =~= before.take(found.len() as int));
        assert forall|k: int| 0 <= k < before.len() implies #[trigger] now[k] == before[k] by {}
        if now.contains(e) {
            let k = choose|k: int| 0 <= k < now.len() && now[k] == e;
            if k < before.len() {
                assert(before[k] == e);
                if !found.contains(e) {
                    let i = choose|i: int| 0 <= i < m && pick(#[trigger] names[i]) == Some(e);
                    assert(0 <= i < n && pick(names[i]) == Some(e));
                }
            } else {
                assert(pick(names[n - 1]) == Some(e));
            }
        }
        assert forall|i: int|
            0 <= i < n && (pick(#[trigger] names[i]) matches Some(x)) implies exists|k: int|
            0 <= k < now.len() && (#[trigger] now[k]).0 == pick(names[i]).unwrap().0 by {
            if i < m {
                let k = choose|k: int|
                    0 <= k < before.len() && (#[trigger] before[k]).0 == pick(names[i]).unwrap().0;
                assert(now[k].0 == pick(names[i]).unwrap().0);
            } else if has_reference(before, pick(names[i]).unwrap().0) {
                let k = choose|k: int|
                    0 <= k < before.len() && (#[trigger] before[k]).0 == pick(names[i]).unwrap().0;
                assert(now[k].0 == pick(names[i]).unwrap().0);
            } else {
                assert(now[before.len() as int].0 == pick(names[i]).unwrap().0);
            }
        }
    }
}

/// A listing keeps the order in which the server names things: what fewer names
/// come to begins what more of them come to.
pub proof fn a_listing_keeps_the_order(
    names: Seq<Seq<char>>,
    m: nat,
    n: nat,
    pick: spec_fn(Seq<char>) -> Option<Seq<char>>,
)
    requires
        m <= n <= names.len(),
    ensures
        distinct(names, m, pick).len() <= distinct(names, n, pick).len(),
        distinct(names, n, pick).take(distinct(names, m, pick).len() as int) == distinct(
            names,
            m,
            pick,
        ),
    decreases n,
{
    let a = distinct(names, m, pick);
    let c = distinct(names, n, pick);
    if m < n {
        a_listing_keeps_the_order(names, m, (n - 1) as nat, pick);
        let b = distinct(names, (n - 1) as nat, pick);
        assert(c.take(a.len() as int) =~= b.take(a.len() as int));
    } else {
        assert(c.take(a.len() as int) =~= a);
    }
}

/// The order of a browse is the server's, too.
pub proof fn a_browse_keeps_the_order(
    found: Seq<(Seq<char>, AcsiClass)>,
    names: Seq<Seq<char>>,
    m: nat,
    n: nat,
    pick: spec_fn(Seq<char>) -> Option<(Seq<char>, AcsiClass)>,
)
    requires
        m <= n <= names.len(),
    ensures
        found_in(found, names, m, pick).len() <= found_in(found, names, n, pick).len(),
        found_in(found, names, n, pick).take(found_in(found, names, m, pick).len() as int)
            == found_in(found, names, m, pick),
    decreases n,
{
    let a = found_in(found, names, m, pick);
    let c = found_in(found, names, n, pick);
    if m < n {
        a_browse_keeps_the_order(found, names, m, (n - 1) as nat, pick);
        let b = found_in(found, names, (n - 1) as nat, pick);
        assert(c.take(a.len() as int) =~= b.take(a.len() as int));
    } else {
        assert(c.take(a.len() as int) =~= a);
    }
}

/// What a device's name lists hold comes out of a browse: a variable that
/// stands for an object of the classes asked for, an entry of the lists of data
/// sets, and one of the lists of logs are each found.
pub proof fn a_browse_reads_all_three_lists(
    ld: Seq<char>,
    classes: Seq<AcsiClass>,
    variables: Seq<Seq<char>>,
    sets: Seq<Seq<char>>,
    logs: Seq<Seq<char>>,
    i: int,
)
    ensures
        0 <= i < variables.len() && variable_entry(ld, classes, variables[i]) is Some
            ==> has_reference(
            browse_of(ld, classes, variables, sets, logs),
            variable_entry(ld, classes, variables[i]).unwrap().0,
        ),
        0 <= i < sets.len() && list_entry(ld, AcsiClass::DataSet, sets[i]) is Some
            ==> has_reference(
            browse_of(ld, classes, variables, sets, logs),
            list_entry(ld, AcsiClass::DataSet, sets[i]).unwrap().0,
        ),
        0 <= i < logs.len() && list_entry(ld, AcsiClass::Log, logs[i]) is Some ==> has_reference(
            browse_of(ld, classes, variables, sets, logs),
            list_entry(ld, AcsiClass::Log, logs[i]).unwrap().0,
        ),
{
    let pv = |n: Seq<char>| variable_entry(ld, classes, n);
    let ps = |n: Seq<char>| list_entry(ld, AcsiClass::DataSet, n);
    let pl = |n: Seq<char>| list_entry(ld, AcsiClass::Log, n);
    let none = Seq::<(Seq<char>, AcsiClass)>::empty();
    let a = found_in(none, variables, variables.len(), pv);
    let b = found_in(a, sets, sets.len(), ps);
    let c = found_in(b, logs, logs.len(), pl);
    let e = arbitrary::<(Seq<char>, AcsiClass)>();
    a_browse_is_complete(none, variables, variables.len(), pv, e);
    a_browse_is_complete(a, sets, sets.len(), ps, e);
    a_browse_is_complete(b, logs, logs.len(), pl, e);
    assert(c == browse_of(ld, classes, variables, sets, logs));
    assert forall|k: int| 0 <= k < b.len() implies #[trigger] c[k] == b[k] by {
        assert(c.take(b.len() as int)[k] == c[k]);
    }
    assert forall|k: int| 0 <= k < a.len() implies #[trigger] c[k] == a[k] by {
        assert(b.take(a.len() as int)[k] == b[k]);
        assert(c[k] == b[k]);
    }
    if 0 <= i < variables.len() && pv(variables[i]) is Some {
        let k = choose|k: int| 0 <= k < a.len() && (#[trigger] a[k]).0 == pv(variables[i]).unwrap().0;
        assert(c[k].0 == pv(variables[i]).unwrap().0);
    }
    if 0 <= i < sets.len() && ps(sets[i]) is Some {
        let k = choose|k: int| 0 <= k < b.len() && (#[trigger] b[k]).0 == ps(sets[i]).unwrap().0;
        assert(c[k].0 == ps(sets[i]).unwrap().0);
    }
    if 0 <= i < logs.len() && pl(logs[i]) is Some {
        let k = choose|k: int| 0 <= k < c.len() && (#[trigger] c[k]).0 == pl(logs[i]).unwrap().0;
        assert(c[k].0 == pl(logs[i]).unwrap().0);
    }
}

/// A browse that names no class looks for every one, and one that names some
/// for those alone; each of the three name lists is read exactly where a class
/// asked for is kept in it.
pub proof fn a_browse_asks_for_what_it_needs(classes: Seq<AcsiClass>, class: AcsiClass)
    ensures
        classes.len() == 0 ==> browsed(classes).contains(class),
        classes.len() > 0 ==> browsed(classes) == classes,
        browsed(classes).contains(class) && class != AcsiClass::DataSet && class != AcsiClass::Log
            ==> wants_variables(browsed(classes)),
        wants_variables(classes) ==> exists|i: int|
            0 <= i < classes.len() && (#[trigger] classes[i]) != AcsiClass::DataSet && classes[i]
                != AcsiClass::Log,
        (list_of(class) == NameList::VariableLists) == (class == AcsiClass::DataSet),
        (list_of(class) == NameList::Journals) == (class == AcsiClass::Log),
{
    let all = every_class();
    assert(all[0] == AcsiClass::DataObject && all[1] == AcsiClass::DataSet && all[2]
        == AcsiClass::Brcb && all[3] == AcsiClass::Urcb && all[4] == AcsiClass::Lcb && all[5]
        == AcsiClass::Log && all[6] == AcsiClass::Sgcb && all[7] == AcsiClass::GoCb && all[8]
        == AcsiClass::GsCb && all[9] == AcsiClass::Msvcb && all[10] == AcsiClass::Usvcb);
    if browsed(classes).contains(class) && !class.listed() {
        let cs = browsed(classes);
        let i = choose|i: int| 0 <= i < cs.len() && cs[i] == class;
        assert(!cs[i].listed());
    }
    if wants_variables(classes) {
        let i = choose|i: int| 0 <= i < classes.len() && !(#[trigger] classes[i]).listed();
        assert(classes[i] != AcsiClass::DataSet && classes[i] != AcsiClass::Log);
    }
}

/// The directory of a data object holds what stands one step below it, and
/// nothing else: a variable leads to a child exactly where it is made of the
/// object's path, under the constraint asked for, and the child's name.
pub proof fn a_child_stands_one_step_below(
    name: Seq<char>,
    path: Seq<Seq<char>>,
    fc: Fc,
    under: Fc,
    child: Seq<char>,
)
    requires
        path.len() >= 2,
        fc.is_code(),
        forall|i: int| 0 <= i < path.len() ==> !(#[trigger] path[i]).contains('$'),
        !child.contains('$'),
        name == path[0] + "$"@ + fc.text() + "$"@ + joined(path.skip(1), "$"@) + "$"@ + child,
    ensures
        child_of(name, path, under) == (if under == Fc::All || under == Fc::Unset || under == fc {
            Some(child)
        } else {
            None
        }),
        forall|below: Seq<char>|
            !below.contains('$') ==> #[trigger] child_of(name + "$"@ + below, path, under) is None,
        child_of(
            path[0] + "$"@ + fc.text() + "$"@ + joined(path.skip(1), "$"@),
            path,
            under,
        ) is None,
{
    reveal_strlit("$");
    let d = seq!['$'];
    assert("$"@ =~= d);
    lemma_no_dollar_in_code(fc);
    let tail = path.skip(1);
    let bare = seq![path[0], fc.text()] + tail;
    assert(bare =~= seq![path[0]] + (seq![fc.text()] + tail));
    lemma_joined_front(path[0], seq![fc.text()] + tail, d);
    lemma_joined_front(fc.text(), tail, d);
    let own = path[0] + "$"@ + fc.text() + "$"@ + joined(tail, "$"@);
    assert(own =~= joined(bare, d));
    assert forall|i: int| 0 <= i < bare.len() implies !(#[trigger] bare[i]).contains('$') by {
        if i >= 2 {
            assert(bare[i] == path[i - 1]);
        }
    }
    splitting_undoes_joining(bare, '$');
    assert(split_on(own, '$') == bare);
    let parts = bare.push(child);
    assert(parts.drop_last() =~= bare);
    assert(name =~= joined(parts, d));
    splitting_undoes_joining(parts, '$');
    assert(split_on(name, '$') == parts);
    assert(parts[1] == fc.text() && Fc::is_named(parts[1]));
    crate::model::codes_are_distinct(fc, fc_named(parts[1]));
    assert(parts.subrange(2, parts.len() - 1) =~= tail);
    assert forall|below: Seq<char>| !below.contains('$') implies #[trigger] child_of(
        name + "$"@ + below,
        path,
        under,
    ) is None by {
        let more = parts.push(below);
        assert(more.drop_last() =~= parts);
        assert(name + "$"@ + below =~= joined(more, d));
        assert forall|i: int| 0 <= i < more.len() implies !(#[trigger] more[i]).contains('$') by {
            if i < parts.len() {
                assert(more[i] == parts[i]);
            }
        }
        splitting_undoes_joining(more, '$');
        assert(split_on(name + "$"@ + below, '$').len() == parts.len() + 1);
    }
}

/// A variable that leads to a child has the object's path in it: it begins with
/// the node, goes on with a constraint, and ends with the rest of the path and
/// the child.
pub proof fn a_child_is_named_by_its_variable(name: Seq<char>, path: Seq<Seq<char>>, under: Fc)
    requires
        path.len() >= 2,
    ensures
        child_of(name, path, under) matches Some(child) ==> exists|fc: Fc|
            fc.is_code() && (under.is_code() ==> fc == under) && #[trigger] fc.text() == split_on(
                name,
                '$',
            )[1] && split_on(name, '$') == seq![path[0], fc.text()] + path.skip(1).push(child),
{
    if let Some(child) = child_of(name, path, under) {
        let parts = split_on(name, '$');
        let fc = fc_named(parts[1]);
        assert(fc.is_code() && fc.text() == parts[1]);
        let mid = parts.subrange(2, parts.len() - 1);
        assert forall|i: int| 0 <= i < parts.len() implies parts[i] == (seq![path[0], fc.text()]
            + path.skip(1).push(child))[i] by {
            if 2 <= i < parts.len() - 1 {
                assert(mid[i - 2] == parts[i]);
            }
        }
        assert(parts =~= seq![path[0], fc.text()] + path.skip(1).push(child));
    }
}

/// Each class is listed under its own name.
pub proof fn a_class_has_its_name(x: AcsiClass)
    ensures
        x == AcsiClass::DataObject ==> x.text() == "DATA"@,
        x == AcsiClass::DataSet ==> x.text() == "DATA-SET"@,
        x == AcsiClass::Brcb ==> x.text() == "BRCB"@,
        x == AcsiClass::Urcb ==> x.text() == "URCB"@,
        x == AcsiClass::Lcb ==> x.text() == "LCB"@,
        x == AcsiClass::Log ==> x.text() == "LOG"@,
        x == AcsiClass::Sgcb ==> x.text() == "SGCB"@,
        x == AcsiClass::GoCb ==> x.text() == "GoCB"@,
        x == AcsiClass::GsCb ==> x.text() == "GsCB"@,
        x == AcsiClass::Msvcb ==> x.text() == "MSVCB"@,
        x == AcsiClass::Usvcb ==> x.text() == "USVCB"@,
{
}

} // verus!
