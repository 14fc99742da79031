//! Reads that cover several references.

use vstd::prelude::*;

use super::{is_client_error, Error, Result};
use crate::model::reference::{item_of, ld_of, path_of};
use crate::model::{Fc, ObjectReference};
use crate::text::{push_str, quote, quoted, same};

verus! {

/// How many requests a client keeps outstanding on an association: as many as
/// were negotiated, and one at least.
pub fn permits(max_serv_outstanding: i64) -> (n: i64)
    ensures
        n == (if max_serv_outstanding < 1 {
            1
        } else {
            max_serv_outstanding as int
        }),
{
    if max_serv_outstanding < 1 {
        1
    } else {
        max_serv_outstanding
    }
}

/// One MMS read of several items of a domain.
#[derive(Debug)]
pub struct ReadRequest {
    pub domain: String,
    pub items: Vec<String>,
}

/// Whether reference `i` is the first on another logical device than the
/// first reference.
pub open spec fn odd_one(references: Seq<ObjectReference>, i: int) -> bool {
    &&& 0 < i < references.len()
    &&& ld_of(references[i]@) != ld_of(references[0]@)
    &&& forall|j: int| 0 <= j < i ==> ld_of((#[trigger] references[j])@) == ld_of(references[0]@)
}

/// Whether all references are on one logical device.
pub open spec fn one_device(references: Seq<ObjectReference>) -> bool {
    forall|j: int|
        0 <= j < references.len() ==> ld_of((#[trigger] references[j])@) == ld_of(
            references[0]@,
        )
}

/// The message of a read across logical devices.
pub open spec fn two_devices_text(a: Seq<char>, b: Seq<char>) -> Seq<char> {
    "read_values needs one logical device, got "@ + quoted(a) + " and "@ + quoted(b)
}

/// The request that reads several references at once, values in order; none
/// where there is nothing to read.
///
/// All references must share a logical device, since one request names one
/// domain.
pub fn read_values(fc: Fc, references: &Vec<ObjectReference>) -> (r: Result<Option<ReadRequest>>)
    ensures
        match r {
            Ok(None) => references@.len() == 0,
            Ok(Some(q)) => {
                &&& references@.len() > 0
                &&& one_device(references@)
                &&& q.domain@ == ld_of(references@[0]@)
                &&& q.items@.len() == references@.len()
                &&& forall|i: int|
                    0 <= i < q.items@.len() ==> (#[trigger] q.items@[i])@ == item_of(
                        path_of(references@[i]@),
                        fc,
                    )
            },
            Err(e) => exists|i: int| #[trigger]
                odd_one(references@, i) && is_client_error(
                    e,
                    two_devices_text(ld_of(references@[0]@), ld_of(references@[i]@)),
                ),
        },
{
    if references.len() == 0 {
        return Ok(None);
    }
    let domain = references[0].ld();
    let mut items: Vec<String> = Vec::new();
    let mut i: usize = 0;
    while i < references.len()
        invariant
            i <= references@.len(),
            references@.len() > 0,
            domain@ == ld_of(references@[0]@),
            items@.len() == i,
            forall|j: int|
                0 <= j < i ==> ld_of((#[trigger] references@[j])@) == ld_of(references@[0]@),
            forall|j: int|
                0 <= j < i ==> (#[trigger] items@[j])@ == item_of(path_of(references@[j]@), fc),
        decreases references@.len() - i,
    {
        let (ld, item) = references[i].to_mms(fc);
        if !same(ld.as_str(), domain.as_str()) {
            let mut msg = "read_values needs one logical device, got ".to_owned();
            push_str(&mut msg, quote(domain.as_str()).as_str());
            push_str(&mut msg, " and ");
            push_str(&mut msg, quote(ld.as_str()).as_str());
            assert(odd_one(references@, i as int));
            return Err(Error::client(msg.as_str()));
        }
        items.push(item);
        i = i + 1;
    }
    Ok(Some(ReadRequest { domain, items }))
}

/// Several references are read at once exactly where they are on one device;
/// otherwise there is one that is told as the odd one: the first that is not
/// where the first of all is.
pub proof fn references_of_two_devices_are_told(references: Seq<ObjectReference>, i: int, j: int)
    requires
        0 <= i < references.len(),
        0 <= j < references.len(),
    ensures
        one_device(references) ==> ld_of(references[i]@) == ld_of(references[j]@)
            && !odd_one(references, i),
        ld_of(references[i]@) != ld_of(references[j]@) ==> !one_device(references) && exists|k: int|
            odd_one(references, k),
        odd_one(references, i) && odd_one(references, j) ==> i == j,
        odd_one(references, i) ==> ld_of(references[i]@) != ld_of(references[0]@),
{
    if ld_of(references[i]@) != ld_of(references[j]@) {
        let m = if ld_of(references[i]@) != ld_of(references[0]@) {
            i
        } else {
            j
        };
        lemma_first_odd_one(references, m);
    }
    if odd_one(references, i) && odd_one(references, j) {
        if i < j {
            assert(ld_of(references[i]@) == ld_of(references[0]@));
        } else if j < i {
            assert(ld_of(references[j]@) == ld_of(references[0]@));
        }
    }
}

proof fn lemma_first_odd_one(references: Seq<ObjectReference>, m: int)
    requires
        0 <= m < references.len(),
        ld_of(references[m]@) != ld_of(references[0]@),
    ensures
        exists|k: int| odd_one(references, k),
    decreases m,
{
    if exists|j: int|
        0 <= j < m && ld_of((#[trigger] references[j])@) != ld_of(references[0]@) {
        let j = choose|j: int|
            0 <= j < m && ld_of((#[trigger] references[j])@) != ld_of(references[0]@);
        lemma_first_odd_one(references, j);
    } else {
        assert(odd_one(references, m));
    }
}

} // verus!
