use vstd::prelude::*;

use super::{concat3, is_client_error, sub_item, Error, Result};
use crate::mms::{Data, Value};
use crate::model::reference::{ld_of, path_of};
use crate::model::ObjectReference;
use crate::text::{decimal, join, joined, push_decimal, push_str, texts};

verus! {

/// A setting group control block (`LD/LN.SP.SGCB`).
///
/// This is the ACSI mechanism for switching between and editing alternative
/// parameter sets, which protection IEDs use to hold one set of settings per
/// operating configuration.
#[derive(Debug)]
pub struct SettingGroups {
    pub reference: ObjectReference,
    pub num_of_sg: u8,
    pub act_sg: u8,
    pub edit_sg: u8,
    pub domain: String,
    /// `LN$SP$SGCB`.
    pub item: String,
}

/// The attributes of the block that hold group numbers.
#[derive(Debug, Clone, Copy, PartialEq, Eq, Structural)]
pub enum GroupAttr {
    NumOfSg,
    ActSg,
    EditSg,
}

impl GroupAttr {
    /// The MMS name of the attribute.
    pub open spec fn text(self) -> Seq<char> {
        match self {
            GroupAttr::NumOfSg => "NumOfSG"@,
            GroupAttr::ActSg => "ActSG"@,
            GroupAttr::EditSg => "EditSG"@,
        }
    }

    /// Returns the MMS name of the attribute.
    pub fn name(self) -> (s: &'static str)
        ensures
            s@ == self.text(),
    {
        match self {
            GroupAttr::NumOfSg => "NumOfSG",
            GroupAttr::ActSg => "ActSG",
            GroupAttr::EditSg => "EditSG",
        }
    }
}

/// The low octet of a group number that was read.
pub open spec fn group_of(d: Data) -> u8 {
    (d.unsigned() % 256) as u8
}

impl SettingGroups {
    /// The block at `reference`, given what reading its attributes brought.
    ///
    /// `NumOfSG` is mandatory: a block without it is not a setting group
    /// control block, and reporting one would let a caller select groups the
    /// device does not have. The other two are left at zero where they could
    /// not be read.
    pub fn new(
        reference: ObjectReference,
        num_of_sg: Result<Value>,
        act_sg: Option<Value>,
        edit_sg: Option<Value>,
    ) -> (r: Result<SettingGroups>)
        ensures
            match (r, num_of_sg) {
                (Ok(sg), Ok(n)) => {
                    &&& sg.reference == reference
                    &&& sg.num_of_sg == group_of(n@)
                    &&& sg.act_sg == (match act_sg {
                        Some(v) => group_of(v@),
                        None => 0,
                    })
                    &&& sg.edit_sg == (match edit_sg {
                        Some(v) => group_of(v@),
                        None => 0,
                    })
                    &&& sg.domain@ == ld_of(reference@)
                    &&& sg.item@ == joined(path_of(reference@), "$"@)
                },
                (Err(e), Err(e2)) => e == e2,
                _ => false,
            },
    {
        let num_of_sg: u8 = match num_of_sg {
            Ok(v) => (v.as_u64() % 256) as u8,
            Err(e) => return Err(e),
        };
        let act_sg: u8 = match act_sg {
            Some(v) => (v.as_u64() % 256) as u8,
            None => 0,
        };
        let edit_sg: u8 = match edit_sg {
            Some(v) => (v.as_u64() % 256) as u8,
            None => 0,
        };
        let path = reference.path();
        let item = join(&path, 0, "$");
        assert(texts(path@).skip(0) =~= texts(path@));
        let domain = reference.ld();
        Ok(SettingGroups { reference, num_of_sg, act_sg, edit_sg, domain, item })
    }

    /// Returns the MMS item of an attribute of the block.
    pub fn attr_item(&self, attr: &str) -> (s: String)
        ensures
            s@ == sub_item(self.item@, attr@),
    {
        concat3(self.item.as_str(), "$", attr)
    }

    /// The write that activates setting group `group` (1..=`num_of_sg`),
    /// making its `SG`-scoped values the ones in effect.
    pub fn select_active_sg(&self, group: u8) -> (r: Result<(GroupAttr, Value)>)
        ensures
            self.selection(GroupAttr::ActSg, group, r),
    {
        match self.check_group(group) {
            Ok(_) => Ok((GroupAttr::ActSg, Value::uint8(group))),
            Err(e) => Err(e),
        }
    }

    /// The write that selects the setting group to edit; subsequent reads and
    /// writes of `SE`-scoped attributes address that group.
    pub fn select_edit_sg(&self, group: u8) -> (r: Result<(GroupAttr, Value)>)
        ensures
            self.selection(GroupAttr::EditSg, group, r),
    {
        match self.check_group(group) {
            Ok(_) => Ok((GroupAttr::EditSg, Value::uint8(group))),
            Err(e) => Err(e),
        }
    }

    /// Whether `r` is what selecting a group comes to.
    pub open spec fn selection(
        &self,
        attr: GroupAttr,
        group: u8,
        r: Result<(GroupAttr, Value)>,
    ) -> bool {
        match r {
            Ok((a, v)) => in_range(group, self.num_of_sg) && a == attr && v@ == Data::Unsigned(
                group as u64,
            ),
            Err(e) => !in_range(group, self.num_of_sg) && is_client_error(
                e,
                out_of_range_text(group, self.num_of_sg),
            ),
        }
    }

    /// Takes over a selection that the server accepted.
    pub fn selected(&mut self, attr: GroupAttr, group: u8)
        ensures
            *final(self) == (match attr {
                GroupAttr::NumOfSg => *old(self),
                GroupAttr::ActSg => SettingGroups { act_sg: group, ..*old(self) },
                GroupAttr::EditSg => SettingGroups { edit_sg: group, ..*old(self) },
            }),
    {
        match attr {
            GroupAttr::NumOfSg => {},
            GroupAttr::ActSg => self.act_sg = group,
            GroupAttr::EditSg => self.edit_sg = group,
        }
    }

    /// The write that commits the edited values to the edit setting group.
    pub fn confirm_edit() -> (r: (&'static str, Value))
        ensures
            r.0@ == "CnfEdit"@,
            r.1@ == Data::Boolean(true),
    {
        ("CnfEdit", Value::boolean(true))
    }

    /// Rejects a group number the device cannot have.
    fn check_group(&self, group: u8) -> (r: Result<()>)
        ensures
            match r {
                Ok(_) => in_range(group, self.num_of_sg),
                Err(e) => !in_range(group, self.num_of_sg) && is_client_error(
                    e,
                    out_of_range_text(group, self.num_of_sg),
                ),
            },
    {
        if !group_in_range(group, self.num_of_sg) {
            let mut s = "setting group ".to_owned();
            push_decimal(&mut s, group as u64);
            push_str(&mut s, " is outside 1..=");
            push_decimal(&mut s, self.num_of_sg as u64);
            return Err(Error::Client(s));
        }
        Ok(())
    }
}

/// The message for a group number that the device cannot have.
pub open spec fn out_of_range_text(group: u8, num_of_sg: u8) -> Seq<char> {
    "setting group "@ + decimal(group as nat) + " is outside 1..="@ + decimal(num_of_sg as nat)
}

/// Whether `group` is one the device can have.
pub open spec fn in_range(group: u8, num_of_sg: u8) -> bool {
    group >= 1 && (num_of_sg == 0 || group <= num_of_sg)
}

/// Reports whether `group` is one the device can have.
///
/// Groups are numbered from one, so zero is never valid: a device that
/// accepted it would leave the active group undefined. A device that reports
/// no count bounds nothing, so any positive group is passed through to it.
pub fn group_in_range(group: u8, num_of_sg: u8) -> (b: bool)
    ensures
        b == in_range(group, num_of_sg),
{
    group != 0 && (num_of_sg == 0 || group <= num_of_sg)
}

/// A group can be selected exactly where the device can have it: groups are
/// numbered from one up to the device's count, and a device that tells no count
/// bounds nothing.
pub proof fn a_group_is_numbered_from_one(group: u8, num_of_sg: u8)
    ensures
        !in_range(0, num_of_sg),
        group > 0 && num_of_sg == 0 ==> in_range(group, num_of_sg),
        num_of_sg > 0 ==> (in_range(group, num_of_sg) <==> 1 <= group <= num_of_sg),
{
}

/// Selecting a group writes its number to the attribute that was asked for,
/// where the device can have the group, and is refused where it cannot.
pub proof fn a_selection_writes_its_group(
    sg: SettingGroups,
    attr: GroupAttr,
    group: u8,
    r: Result<(GroupAttr, Value)>,
)
    requires
        sg.selection(attr, group, r),
    ensures
        group >= 1 && (sg.num_of_sg == 0 || group <= sg.num_of_sg) ==> (r matches Ok((a, v)) && a
            == attr && v@ == Data::Unsigned(group as u64)),
        group == 0 || 0 < sg.num_of_sg < group ==> (r matches Err(e) && e.text() == "client: "@ + (
        "setting group "@ + decimal(group as nat) + " is outside 1..="@ + decimal(
            sg.num_of_sg as nat,
        ))),
{
}

/// A group number that was read is taken as it is, as far as it fits in an
/// octet.
pub proof fn a_group_number_is_taken_as_it_is(n: u64, i: i64)
    ensures
        n < 256 ==> group_of(Data::Unsigned(n)) == n,
        0 <= i < 256 ==> group_of(Data::Integer(i)) == i,
        i < 0 ==> group_of(Data::Integer(i)) == 0,
{
}

} // verus!
