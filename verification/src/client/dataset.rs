use vstd::prelude::*;

use crate::mms::{Data, Value, VarRef};
use crate::model::reference::{constraint_of, item_of, ld_of, path_of, reference_of};
use crate::model::{from_mms, Fc, ObjectReference};
use crate::text::{join, joined, split_on, texts};

verus! {

/// The result of reading a named dataset.
#[derive(Debug)]
pub struct DataSet {
    pub reference: ObjectReference,
    pub members: Vec<DataSetEntry>,
}

/// One dataset member with its value.
#[derive(Debug)]
pub struct DataSetEntry {
    pub reference: ObjectReference,
    pub fc: Fc,
    pub value: Option<Value>,
}

impl DataSetEntry {
    /// Names a member without a value, for creating a dataset.
    pub fn new(reference: ObjectReference, fc: Fc) -> (e: DataSetEntry)
        ensures
            e.reference == reference,
            e.fc == fc,
            e.value is None,
    {
        DataSetEntry { reference, fc, value: None }
    }
}

/// Converts an IEC 61850 dataset reference `LD/LN.DataSet` to the MMS
/// `(domain, listName)` pair `LD` and `LN$DataSet`.
pub fn dataset_ref_to_mms(reference: &ObjectReference) -> (r: (String, String))
    ensures
        r.0@ == ld_of(reference@),
        r.1@ == joined(path_of(reference@), "$"@),
{
    let path = reference.path();
    let item = join(&path, 0, "$");
    assert(texts(path@).skip(0) =~= texts(path@));
    (reference.ld(), item)
}

/// Whether an entry is the member that an MMS name stands for, with the given
/// value.
pub open spec fn is_member(e: DataSetEntry, name: VarRef, value: Option<Data>) -> bool {
    &&& e.reference@ == reference_of(name.domain@, split_on(name.item@, '$'))
    &&& e.fc == constraint_of(split_on(name.item@, '$'))
    &&& match (e.value, value) {
        (Some(v), Some(d)) => v@ == d,
        (None, None) => true,
        _ => false,
    }
}

/// Puts the names of a dataset's members and their values together.
///
/// The member references come from the server's own definition of the list, so
/// the values are labelled with what they actually are rather than with what
/// the caller assumed. A member without a value has none.
pub fn label_members(refs: &Vec<VarRef>, values: &Vec<Value>) -> (r: Vec<DataSetEntry>)
    ensures
        r@.len() == refs@.len(),
        forall|i: int|
            0 <= i < r@.len() ==> is_member(
                #[trigger] r@[i],
                refs@[i],
                if i < values@.len() {
                    Some(values@[i]@)
                } else {
                    None
                },
            ),
{
    let mut r: Vec<DataSetEntry> = Vec::new();
    let mut i: usize = 0;
    while i < refs.len()
        invariant
            i <= refs@.len(),
            r@.len() == i,
            forall|j: int|
                0 <= j < i ==> is_member(
                    #[trigger] r@[j],
                    refs@[j],
                    if j < values@.len() {
                        Some(values@[j]@)
                    } else {
                        None
                    },
                ),
        decreases refs@.len() - i,
    {
        let (reference, fc) = from_mms(refs[i].domain.as_str(), refs[i].item.as_str());
        let value = if i < values.len() {
            Some(values[i].clone())
        } else {
            None
        };
        r.push(DataSetEntry { reference, fc, value });
        i = i + 1;
    }
    r
}

/// Names the members of a dataset without reading their values.
pub fn data_set_members(refs: &Vec<VarRef>) -> (r: Vec<DataSetEntry>)
    ensures
        r@.len() == refs@.len(),
        forall|i: int| 0 <= i < r@.len() ==> is_member(#[trigger] r@[i], refs@[i], None),
{
    let none: Vec<Value> = Vec::new();
    label_members(refs, &none)
}

/// Whether an MMS name is that of a member.
pub open spec fn is_name_of(name: VarRef, m: DataSetEntry) -> bool {
    &&& name.domain@ == ld_of(m.reference@)
    &&& name.item@ == item_of(path_of(m.reference@), m.fc)
}

/// The MMS names of the members of a dataset to create.
pub fn member_refs(members: &Vec<DataSetEntry>) -> (r: Vec<VarRef>)
    ensures
        r@.len() == members@.len(),
        forall|i: int|
            0 <= i < r@.len() ==> is_name_of(#[trigger] r@[i], members@[i]),
{
    let mut r: Vec<VarRef> = Vec::new();
    let mut i: usize = 0;
    while i < members.len()
        invariant
            i <= members@.len(),
            r@.len() == i,
            forall|j: int|
                0 <= j < i ==> is_name_of(#[trigger] r@[j], members@[j]),
        decreases members@.len() - i,
    {
        let (domain, item) = members[i].reference.to_mms(members[i].fc);
        r.push(VarRef { domain, item });
        i = i + 1;
    }
    r
}

/// A dataset that was created has the members that it was created with: the
/// names sent to the server stand for the same references and constraints. A
/// reference names a logical node and has no `$` in it, which is what separates
/// the parts of an MMS name.
pub proof fn a_created_set_has_its_members(m: DataSetEntry, name: VarRef, back: DataSetEntry)
    requires
        m.fc.is_code(),
        path_of(m.reference@).len() > 0,
        !m.reference@.contains('$'),
        is_name_of(name, m),
        is_member(back, name, None),
    ensures
        back.reference@ == m.reference@,
        back.fc == m.fc,
{
    crate::model::reference::reference_round_trip(m.reference@, m.fc);
}

/// A member of a dataset is labelled with what its variable stands for, and
/// carries the value that was read for it, if one was.
pub proof fn a_member_is_labelled_as_its_variable(
    e: DataSetEntry,
    name: VarRef,
    value: Option<Data>,
    reference: Seq<char>,
    fc: Fc,
)
    requires
        is_member(e, name, value),
        fc.is_code(),
        path_of(reference).len() > 0,
        !reference.contains('$'),
        name.domain@ == ld_of(reference),
        name.item@ == item_of(path_of(reference), fc),
    ensures
        e.reference@ == reference,
        e.fc == fc,
        e.value is Some <==> value is Some,
        e.value is Some ==> e.value->0@ == value->0,
{
    crate::model::reference::reference_round_trip(reference, fc);
}

/// The name of a member that is sent to the server is that of its variable in
/// its own device.
pub proof fn a_member_is_named_in_its_device(
    m: DataSetEntry,
    name: VarRef,
    ld: Seq<char>,
    path: Seq<Seq<char>>,
)
    requires
        is_name_of(name, m),
        m.fc.is_code(),
        !ld.contains('/'),
        path.len() > 0,
        path[0].len() > 0,
        forall|i: int| 0 <= i < path.len() ==> !(#[trigger] path[i]).contains('.'),
        m.reference@ == ld + "/"@ + joined(path, "."@),
    ensures
        name.domain@ == ld,
        name.item@ == joined(seq![path[0], m.fc.text()] + path.skip(1), "$"@),
{
    crate::model::reference::a_reference_is_written_as_its_variable(ld, path, m.fc);
}

} // verus!
