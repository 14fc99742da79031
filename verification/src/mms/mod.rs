//! The MMS (ISO 9506) vocabulary that the IEC 61850 mapping is written in:
//! data values and their BER encoding, type specifications, variable names and
//! information reports.

use vstd::prelude::*;

pub mod codec;
pub mod typespec;
pub mod value;

pub use codec::{data_element, decode_data};
pub use typespec::{Component, TypeSpec};
pub use value::{Data, DataAccessError, TimeQuality, Timestamp, Type, Value};

verus! {

/// The name of an MMS variable: a domain, empty for one of the whole device,
/// and an item.
#[derive(Debug, PartialEq, Eq)]
pub struct VarRef {
    pub domain: String,
    pub item: String,
}

impl VarRef {
    pub fn new(domain: &str, item: &str) -> (r: VarRef)
        ensures
            r.domain@ == domain@,
            r.item@ == item@,
    {
        VarRef { domain: domain.to_owned(), item: item.to_owned() }
    }

    /// `domain/item`, or the item alone where there is no domain.
    pub open spec fn text(&self) -> Seq<char> {
        if self.domain@.len() == 0 {
            self.item@
        } else {
            self.domain@ + "/"@ + self.item@
        }
    }

    /// Writes `domain/item`, or the item alone where there is no domain.
    pub fn to_text(&self) -> (s: String)
        ensures
            s@ == self.text(),
    {
        if self.domain.as_str().is_empty() {
            return self.item.clone();
        }
        let mut s = self.domain.clone();
        crate::text::push_str(&mut s, "/");
        crate::text::push_str(&mut s, self.item.as_str());
        assert(s@ =~= self.text());
        s
    }
}

impl Clone for VarRef {
    fn clone(&self) -> (r: VarRef)
        ensures
            r.domain@ == self.domain@,
            r.item@ == self.item@,
    {
        VarRef { domain: self.domain.clone(), item: self.item.clone() }
    }
}

/// An unsolicited report: a list of values, and the names of the variables or
/// of the list that they belong to.
#[derive(Debug)]
pub struct InformationReport {
    /// The report names a variable list of the whole device.
    pub is_vmd_named: bool,
    pub var_refs: Vec<VarRef>,
    pub values: Vec<Value>,
}

impl Default for InformationReport {
    fn default() -> (r: InformationReport)
        ensures
            !r.is_vmd_named,
            r.var_refs@.len() == 0,
            r.values@.len() == 0,
    {
        InformationReport { is_vmd_named: false, var_refs: Vec::new(), values: Vec::new() }
    }
}

} // verus!
