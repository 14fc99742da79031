use vstd::prelude::*;

use crate::model::reference::{ld_of, path_of};
use crate::model::ObjectReference;
use crate::text::{join, joined, texts};

verus! {

/// Converts `LD/LN.LG.LogName` to the domain and MMS item `LN$LG$LogName`.
pub fn log_ref_to_mms(reference: &ObjectReference) -> (r: (String, String))
    ensures
        r.0@ == ld_of(reference@),
        r.1@ == joined(path_of(reference@), "$"@),
{
    let path = reference.path();
    let item = join(&path, 0, "$");
    assert(texts(path@).skip(0) =~= texts(path@));
    (reference.ld(), item)
}

} // verus!
