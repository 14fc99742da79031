use vstd::prelude::*;

use crate::mms::{Data, Value};
use crate::text::{join, joined, texts};

verus! {

/// The optional fields of a report.
#[derive(Debug, Clone, Copy, PartialEq, Eq, Structural)]
pub struct OptFlds {
    pub seq_num: bool,
    pub time_of_entry: bool,
    pub reason_code: bool,
    pub data_set_name: bool,
    pub data_ref: bool,
    pub buf_ovfl: bool,
    pub entry_id: bool,
    pub conf_rev: bool,
    pub segmentation: bool,
}

impl Default for OptFlds {
    fn default() -> (o: OptFlds)
        ensures
            o == OptFlds::nothing(),
    {
        OptFlds {
            seq_num: false,
            time_of_entry: false,
            reason_code: false,
            data_set_name: false,
            data_ref: false,
            buf_ovfl: false,
            entry_id: false,
            conf_rev: false,
            segmentation: false,
        }
    }
}

impl OptFlds {
    /// No optional field.
    pub open spec fn nothing() -> OptFlds {
        OptFlds {
            seq_num: false,
            time_of_entry: false,
            reason_code: false,
            data_set_name: false,
            data_ref: false,
            buf_ovfl: false,
            entry_id: false,
            conf_rev: false,
            segmentation: false,
        }
    }

    /// The fields that a client usually asks for: the sequence number, the
    /// time, the reasons, the dataset name and the configuration revision.
    pub fn usual() -> (o: OptFlds)
        ensures
            o == (OptFlds {
                seq_num: true,
                time_of_entry: true,
                reason_code: true,
                data_set_name: true,
                conf_rev: true,
                ..OptFlds::nothing()
            }),
    {
        OptFlds {
            seq_num: true,
            time_of_entry: true,
            reason_code: true,
            data_set_name: true,
            data_ref: false,
            buf_ovfl: false,
            entry_id: false,
            conf_rev: true,
            segmentation: false,
        }
    }

    /// The fields that the bits of a bit string select.
    pub open spec fn of_data(d: Data) -> OptFlds {
        OptFlds {
            seq_num: d.bit(1),
            time_of_entry: d.bit(2),
            reason_code: d.bit(3),
            data_set_name: d.bit(4),
            data_ref: d.bit(5),
            buf_ovfl: d.bit(6),
            entry_id: d.bit(7),
            conf_rev: d.bit(8),
            segmentation: d.bit(9),
        }
    }

    pub fn from_value(v: &Value) -> (o: OptFlds)
        ensures
            o == OptFlds::of_data(v@),
    {
        OptFlds {
            seq_num: v.bit(1),
            time_of_entry: v.bit(2),
            reason_code: v.bit(3),
            data_set_name: v.bit(4),
            data_ref: v.bit(5),
            buf_ovfl: v.bit(6),
            entry_id: v.bit(7),
            conf_rev: v.bit(8),
            segmentation: v.bit(9),
        }
    }

    /// Whether `d` is the ten-bit bit string that selects the fields.
    pub open spec fn spelled_by(self, d: Data) -> bool {
        &&& d is BitString
        &&& d.bit_len() == 10
        &&& d.bits_ok()
        &&& d.bits_tight()
        &&& !d.bit(0)
        &&& OptFlds::of_data(d) == self
    }

    /// Returns the ten-bit bit string that selects the fields.
    pub fn value(self) -> (v: Value)
        ensures
            self.spelled_by(v@),
    {
        let mut v = Value::bit_string(10);
        v.set_bit(1, self.seq_num);
        v.set_bit(2, self.time_of_entry);
        v.set_bit(3, self.reason_code);
        v.set_bit(4, self.data_set_name);
        v.set_bit(5, self.data_ref);
        v.set_bit(6, self.buf_ovfl);
        v.set_bit(7, self.entry_id);
        v.set_bit(8, self.conf_rev);
        v.set_bit(9, self.segmentation);
        v
    }
}

/// The trigger options of a report control block.
#[derive(Debug, Clone, Copy, PartialEq, Eq, Structural)]
pub struct TrgOps {
    pub data_change: bool,
    pub quality_change: bool,
    pub data_update: bool,
    pub integrity: bool,
    pub gi: bool,
}

impl Default for TrgOps {
    fn default() -> (t: TrgOps)
        ensures
            t == TrgOps::nothing(),
    {
        TrgOps {
            data_change: false,
            quality_change: false,
            data_update: false,
            integrity: false,
            gi: false,
        }
    }
}

impl TrgOps {
    /// No trigger.
    pub open spec fn nothing() -> TrgOps {
        TrgOps {
            data_change: false,
            quality_change: false,
            data_update: false,
            integrity: false,
            gi: false,
        }
    }

    /// The triggers that the bits of a bit string select.
    pub open spec fn of_data(d: Data) -> TrgOps {
        TrgOps {
            data_change: d.bit(1),
            quality_change: d.bit(2),
            data_update: d.bit(3),
            integrity: d.bit(4),
            gi: d.bit(5),
        }
    }

    pub fn from_value(v: &Value) -> (t: TrgOps)
        ensures
            t == TrgOps::of_data(v@),
    {
        TrgOps {
            data_change: v.bit(1),
            quality_change: v.bit(2),
            data_update: v.bit(3),
            integrity: v.bit(4),
            gi: v.bit(5),
        }
    }

    /// Whether `d` is the six-bit bit string that selects the triggers.
    pub open spec fn spelled_by(self, d: Data) -> bool {
        &&& d is BitString
        &&& d.bit_len() == 6
        &&& d.bits_ok()
        &&& d.bits_tight()
        &&& !d.bit(0)
        &&& TrgOps::of_data(d) == self
    }

    /// Returns the six-bit bit string that selects the triggers.
    pub fn value(self) -> (v: Value)
        ensures
            self.spelled_by(v@),
    {
        let mut v = Value::bit_string(6);
        v.set_bit(1, self.data_change);
        v.set_bit(2, self.quality_change);
        v.set_bit(3, self.data_update);
        v.set_bit(4, self.integrity);
        v.set_bit(5, self.gi);
        v
    }
}

/// Why a member is included in a report.
#[derive(Debug, Clone, Copy, PartialEq, Eq, Structural)]
pub struct ReasonCode {
    pub data_change: bool,
    pub quality_change: bool,
    pub data_update: bool,
    pub integrity: bool,
    pub gi: bool,
    pub application_trigger: bool,
}

impl Default for ReasonCode {
    fn default() -> (r: ReasonCode)
        ensures
            r == ReasonCode::nothing(),
    {
        ReasonCode {
            data_change: false,
            quality_change: false,
            data_update: false,
            integrity: false,
            gi: false,
            application_trigger: false,
        }
    }
}

/// A name where it is given.
pub open spec fn named(given: bool, name: Seq<char>) -> Seq<Seq<char>> {
    if given {
        seq![name]
    } else {
        Seq::empty()
    }
}

/// Adds a name to others, where it is given.
fn add_name(names: &mut Vec<String>, given: bool, name: &str)
    ensures
        texts(final(names)@) == texts(old(names)@) + named(given, name@),
{
    if given {
        names.push(name.to_owned());
    }
    assert(texts(names@) =~= texts(old(names)@) + named(given, name@));
}

impl ReasonCode {
    /// No reason is given.
    pub open spec fn nothing() -> ReasonCode {
        ReasonCode {
            data_change: false,
            quality_change: false,
            data_update: false,
            integrity: false,
            gi: false,
            application_trigger: false,
        }
    }

    /// The reasons that the bits of a bit string give.
    pub open spec fn of_data(d: Data) -> ReasonCode {
        ReasonCode {
            data_change: d.bit(1),
            quality_change: d.bit(2),
            data_update: d.bit(3),
            integrity: d.bit(4),
            gi: d.bit(5),
            application_trigger: d.bit(6),
        }
    }

    /// The names of the reasons given, with a plus sign between each two.
    pub open spec fn text(self) -> Seq<char> {
        let names = Seq::<Seq<char>>::empty() + named(self.data_change, "data-change"@) + named(
            self.quality_change,
            "quality-change"@,
        ) + named(self.data_update, "data-update"@) + named(self.integrity, "integrity"@) + named(
            self.gi,
            "general-interrogation"@,
        ) + named(self.application_trigger, "application-trigger"@);
        if names.len() == 0 {
            "none"@
        } else {
            joined(names, "+"@)
        }
    }

    /// Returns the names of the reasons given, `none` where there are none.
    pub fn to_text(self) -> (s: String)
        ensures
            s@ == self.text(),
    {
        let mut names: Vec<String> = Vec::new();
        assert(texts(names@) =~= Seq::<Seq<char>>::empty());
        add_name(&mut names, self.data_change, "data-change");
        add_name(&mut names, self.quality_change, "quality-change");
        add_name(&mut names, self.data_update, "data-update");
        add_name(&mut names, self.integrity, "integrity");
        add_name(&mut names, self.gi, "general-interrogation");
        add_name(&mut names, self.application_trigger, "application-trigger");
        if names.len() == 0 {
            return "none".to_owned();
        }
        assert(texts(names@).skip(0) =~= texts(names@));
        join(&names, 0, "+")
    }

    pub fn from_value(v: &Value) -> (r: ReasonCode)
        ensures
            r == ReasonCode::of_data(v@),
    {
        ReasonCode {
            data_change: v.bit(1),
            quality_change: v.bit(2),
            data_update: v.bit(3),
            integrity: v.bit(4),
            gi: v.bit(5),
            application_trigger: v.bit(6),
        }
    }

    /// Whether `d` is the seven-bit bit string that gives the reasons.
    pub open spec fn spelled_by(self, d: Data) -> bool {
        &&& d is BitString
        &&& d.bit_len() == 7
        &&& d.bits_ok()
        &&& d.bits_tight()
        &&& !d.bit(0)
        &&& ReasonCode::of_data(d) == self
    }

    /// Returns the seven-bit bit string that gives the reasons.
    pub fn value(self) -> (v: Value)
        ensures
            self.spelled_by(v@),
    {
        let mut v = Value::bit_string(7);
        v.set_bit(1, self.data_change);
        v.set_bit(2, self.quality_change);
        v.set_bit(3, self.data_update);
        v.set_bit(4, self.integrity);
        v.set_bit(5, self.gi);
        v.set_bit(6, self.application_trigger);
        v
    }
}

/// How an object is controlled.
#[derive(Debug, Clone, Copy, PartialEq, Eq, Structural)]
pub enum CtlModel {
    StatusOnly,
    DirectNormal,
    SboNormal,
    DirectEnhanced,
    SboEnhanced,
}

impl CtlModel {
    /// The model with a code; a code that is none is a status-only object.
    pub open spec fn of_code(code: int) -> CtlModel {
        if code == 1 {
            CtlModel::DirectNormal
        } else if code == 2 {
            CtlModel::SboNormal
        } else if code == 3 {
            CtlModel::DirectEnhanced
        } else if code == 4 {
            CtlModel::SboEnhanced
        } else {
            CtlModel::StatusOnly
        }
    }

    /// Whether the object has to be selected before it is operated.
    pub open spec fn selects(self) -> bool {
        self == CtlModel::SboNormal || self == CtlModel::SboEnhanced
    }

    pub fn from_code(code: u8) -> (m: CtlModel)
        ensures
            m == CtlModel::of_code(code as int),
    {
        match code {
            1 => CtlModel::DirectNormal,
            2 => CtlModel::SboNormal,
            3 => CtlModel::DirectEnhanced,
            4 => CtlModel::SboEnhanced,
            _ => CtlModel::StatusOnly,
        }
    }

    /// The name of the model.
    pub open spec fn text(self) -> Seq<char> {
        match self {
            CtlModel::StatusOnly => "status-only"@,
            CtlModel::DirectNormal => "direct-with-normal-security"@,
            CtlModel::SboNormal => "sbo-with-normal-security"@,
            CtlModel::DirectEnhanced => "direct-with-enhanced-security"@,
            CtlModel::SboEnhanced => "sbo-with-enhanced-security"@,
        }
    }

    /// Returns the name of the model.
    pub fn to_text(self) -> (s: &'static str)
        ensures
            s@ == self.text(),
    {
        match self {
            CtlModel::StatusOnly => "status-only",
            CtlModel::DirectNormal => "direct-with-normal-security",
            CtlModel::SboNormal => "sbo-with-normal-security",
            CtlModel::DirectEnhanced => "direct-with-enhanced-security",
            CtlModel::SboEnhanced => "sbo-with-enhanced-security",
        }
    }

    /// Reports whether the object can be operated at all.
    pub fn is_controllable(self) -> (b: bool)
        ensures
            b == (self != CtlModel::StatusOnly),
    {
        match self {
            CtlModel::StatusOnly => false,
            _ => true,
        }
    }

    /// Reports whether the object has to be selected before it is operated.
    pub fn has_select(self) -> (b: bool)
        ensures
            b == self.selects(),
    {
        match self {
            CtlModel::SboNormal => true,
            CtlModel::SboEnhanced => true,
            _ => false,
        }
    }
}

/// The category of the originator of a control.
#[derive(Debug, Clone, Copy, PartialEq, Eq, Structural)]
pub enum OrCat {
    NotSupported,
    BayControl,
    StationControl,
    RemoteControl,
    AutomaticBay,
    AutomaticStation,
    AutomaticRemote,
    Maintenance,
    Process,
}

impl OrCat {
    /// The code of the category.
    pub open spec fn number(self) -> u8 {
        match self {
            OrCat::NotSupported => 0,
            OrCat::BayControl => 1,
            OrCat::StationControl => 2,
            OrCat::RemoteControl => 3,
            OrCat::AutomaticBay => 4,
            OrCat::AutomaticStation => 5,
            OrCat::AutomaticRemote => 6,
            OrCat::Maintenance => 7,
            OrCat::Process => 8,
        }
    }

    /// Returns the code of the category.
    pub fn code(self) -> (c: u8)
        ensures
            c == self.number(),
    {
        match self {
            OrCat::NotSupported => 0,
            OrCat::BayControl => 1,
            OrCat::StationControl => 2,
            OrCat::RemoteControl => 3,
            OrCat::AutomaticBay => 4,
            OrCat::AutomaticStation => 5,
            OrCat::AutomaticRemote => 6,
            OrCat::Maintenance => 7,
            OrCat::Process => 8,
        }
    }

    /// The category with a code; a code that is none is not supported.
    pub fn from_code(code: u8) -> (c: OrCat)
        ensures
            code <= 8 ==> c.number() == code,
            code > 8 ==> c == OrCat::NotSupported,
    {
        match code {
            1 => OrCat::BayControl,
            2 => OrCat::StationControl,
            3 => OrCat::RemoteControl,
            4 => OrCat::AutomaticBay,
            5 => OrCat::AutomaticStation,
            6 => OrCat::AutomaticRemote,
            7 => OrCat::Maintenance,
            8 => OrCat::Process,
            _ => OrCat::NotSupported,
        }
    }
}

/// The additional cause of a refused control, by its code.
#[derive(Debug, Clone, Copy, PartialEq, Eq, Structural)]
pub struct AddCause(pub u8);

impl AddCause {
    /// The device gave no cause.
    #[allow(non_snake_case)]
    #[verifier::allow_in_spec]
    pub fn UNKNOWN() -> AddCause
        returns
            AddCause(0),
    {
        AddCause(0)
    }

    /// The selection was refused.
    #[allow(non_snake_case)]
    #[verifier::allow_in_spec]
    pub fn SELECT_FAILED() -> AddCause
        returns
            AddCause(3),
    {
        AddCause(3)
    }

    /// The interlock check failed.
    #[allow(non_snake_case)]
    #[verifier::allow_in_spec]
    pub fn BLOCKED_BY_INTERLOCKING() -> AddCause
        returns
            AddCause(10),
    {
        AddCause(10)
    }

    /// The command did not finish in time.
    #[allow(non_snake_case)]
    #[verifier::allow_in_spec]
    pub fn TIME_LIMIT_OVER() -> AddCause
        returns
            AddCause(16),
    {
        AddCause(16)
    }

    /// Nothing went wrong.
    #[allow(non_snake_case)]
    #[verifier::allow_in_spec]
    pub fn NONE() -> AddCause
        returns
            AddCause(25),
    {
        AddCause(25)
    }

    /// The name of the cause.
    pub open spec fn text(self) -> Seq<char> {
        if self.0 == 0 {
            "unknown"@
        } else if self.0 == 1 {
            "not-supported"@
        } else if self.0 == 2 {
            "blocked-by-switching-hierarchy"@
        } else if self.0 == 3 {
            "select-failed"@
        } else if self.0 == 4 {
            "invalid-position"@
        } else if self.0 == 5 {
            "position-reached"@
        } else if self.0 == 6 {
            "parameter-change-in-execution"@
        } else if self.0 == 7 {
            "step-limit"@
        } else if self.0 == 8 {
            "blocked-by-mode"@
        } else if self.0 == 9 {
            "blocked-by-process"@
        } else if self.0 == 10 {
            "blocked-by-interlocking"@
        } else if self.0 == 11 {
            "blocked-by-synchrocheck"@
        } else if self.0 == 12 {
            "command-already-in-execution"@
        } else if self.0 == 13 {
            "blocked-by-health"@
        } else if self.0 == 14 {
            "one-of-n-control"@
        } else if self.0 == 15 {
            "abortion-by-cancel"@
        } else if self.0 == 16 {
            "time-limit-over"@
        } else if self.0 == 17 {
            "abortion-by-trip"@
        } else if self.0 == 18 {
            "object-not-selected"@
        } else if self.0 == 19 {
            "object-already-selected"@
        } else if self.0 == 20 {
            "no-access-authority"@
        } else if self.0 == 21 {
            "ended-with-overshoot"@
        } else if self.0 == 22 {
            "abortion-due-to-deviation"@
        } else if self.0 == 23 {
            "abortion-by-communication-loss"@
        } else if self.0 == 24 {
            "blocked-by-command"@
        } else if self.0 == 25 {
            "none"@
        } else if self.0 == 26 {
            "inconsistent-parameters"@
        } else if self.0 == 27 {
            "locked-by-other-client"@
        } else {
            "unknown"@
        }
    }

    /// Returns the name of the cause.
    pub fn to_text(self) -> (s: &'static str)
        ensures
            s@ == self.text(),
    {
        match self.0 {
            0 => "unknown",
            1 => "not-supported",
            2 => "blocked-by-switching-hierarchy",
            3 => "select-failed",
            4 => "invalid-position",
            5 => "position-reached",
            6 => "parameter-change-in-execution",
            7 => "step-limit",
            8 => "blocked-by-mode",
            9 => "blocked-by-process",
            10 => "blocked-by-interlocking",
            11 => "blocked-by-synchrocheck",
            12 => "command-already-in-execution",
            13 => "blocked-by-health",
            14 => "one-of-n-control",
            15 => "abortion-by-cancel",
            16 => "time-limit-over",
            17 => "abortion-by-trip",
            18 => "object-not-selected",
            19 => "object-already-selected",
            20 => "no-access-authority",
            21 => "ended-with-overshoot",
            22 => "abortion-due-to-deviation",
            23 => "abortion-by-communication-loss",
            24 => "blocked-by-command",
            25 => "none",
            26 => "inconsistent-parameters",
            27 => "locked-by-other-client",
            _ => "unknown",
        }
    }
}

/// The codes of the categories are counted from zero in their order, and each
/// category is found by its own.
pub proof fn a_category_has_its_own_code(a: OrCat, b: OrCat)
    ensures
        a.number() == b.number() ==> a == b,
        a.number() <= 8,
        OrCat::NotSupported.number() == 0,
        OrCat::BayControl.number() == OrCat::NotSupported.number() + 1,
        OrCat::StationControl.number() == OrCat::BayControl.number() + 1,
        OrCat::RemoteControl.number() == OrCat::StationControl.number() + 1,
        OrCat::AutomaticBay.number() == OrCat::RemoteControl.number() + 1,
        OrCat::AutomaticStation.number() == OrCat::AutomaticBay.number() + 1,
        OrCat::AutomaticRemote.number() == OrCat::AutomaticStation.number() + 1,
        OrCat::Maintenance.number() == OrCat::AutomaticRemote.number() + 1,
        OrCat::Process.number() == OrCat::Maintenance.number() + 1,
{
}

/// The models of control are counted from the status-only one on, direct before
/// select-before-operate and normal before enhanced; only those that are
/// selected before they are operated say so. A code that is none stands for an
/// object that cannot be controlled.
pub proof fn a_control_model_has_its_own_code(code: int)
    ensures
        CtlModel::of_code(code) == CtlModel::DirectNormal <==> code == 1,
        CtlModel::of_code(code) == CtlModel::SboNormal <==> code == 2,
        CtlModel::of_code(code) == CtlModel::DirectEnhanced <==> code == 3,
        CtlModel::of_code(code) == CtlModel::SboEnhanced <==> code == 4,
        CtlModel::of_code(code).selects() <==> code == 2 || code == 4,
{
}

/// Flags that were written as a bit string are read back from it, whichever are
/// set: each one has a bit of its own.
pub proof fn flags_read_back(o: OptFlds, t: TrgOps, r: ReasonCode, d: Data)
    ensures
        o.spelled_by(d) ==> OptFlds::of_data(d) == o && d.bit_len() == 10,
        t.spelled_by(d) ==> TrgOps::of_data(d) == t && d.bit_len() == 6,
        r.spelled_by(d) ==> ReasonCode::of_data(d) == r && d.bit_len() == 7,
        OptFlds::of_data(d).seq_num <==> d.bit(1),
        OptFlds::of_data(d).time_of_entry <==> d.bit(2),
        OptFlds::of_data(d).reason_code <==> d.bit(3),
        OptFlds::of_data(d).data_set_name <==> d.bit(4),
        OptFlds::of_data(d).data_ref <==> d.bit(5),
        OptFlds::of_data(d).buf_ovfl <==> d.bit(6),
        OptFlds::of_data(d).entry_id <==> d.bit(7),
        OptFlds::of_data(d).conf_rev <==> d.bit(8),
        OptFlds::of_data(d).segmentation <==> d.bit(9),
        TrgOps::of_data(d).data_change <==> d.bit(1),
        TrgOps::of_data(d).quality_change <==> d.bit(2),
        TrgOps::of_data(d).data_update <==> d.bit(3),
        TrgOps::of_data(d).integrity <==> d.bit(4),
        TrgOps::of_data(d).gi <==> d.bit(5),
        ReasonCode::of_data(d).data_change <==> d.bit(1),
        ReasonCode::of_data(d).quality_change <==> d.bit(2),
        ReasonCode::of_data(d).data_update <==> d.bit(3),
        ReasonCode::of_data(d).integrity <==> d.bit(4),
        ReasonCode::of_data(d).gi <==> d.bit(5),
        ReasonCode::of_data(d).application_trigger <==> d.bit(6),
{
}

/// The first bit of a set of flags is reserved and stays clear, and nothing
/// stands behind the last flag.
pub proof fn the_reserved_bit_stays_clear(o: OptFlds, t: TrgOps, r: ReasonCode, d: Data, i: int)
    requires
        o.spelled_by(d) || t.spelled_by(d) || r.spelled_by(d),
    ensures
        d is BitString,
        !d.bit(0),
        o.spelled_by(d) && i >= 10 ==> !d.bit(i),
        t.spelled_by(d) && i >= 6 ==> !d.bit(i),
        r.spelled_by(d) && i >= 7 ==> !d.bit(i),
        d matches Data::BitString { bits, length } ==> bits.len() == if length <= 8 {
            1nat
        } else {
            2
        },
{
}

/// The reasons that are given are named one after another, with a plus sign
/// between each two.
pub proof fn a_single_reason_is_named(r: ReasonCode)
    ensures
        r == (ReasonCode { data_change: true, ..ReasonCode::nothing() }) ==> r.text()
            == "data-change"@,
        r == (ReasonCode { quality_change: true, ..ReasonCode::nothing() }) ==> r.text()
            == "quality-change"@,
        r == (ReasonCode { data_update: true, ..ReasonCode::nothing() }) ==> r.text()
            == "data-update"@,
        r == (ReasonCode { integrity: true, ..ReasonCode::nothing() }) ==> r.text() == "integrity"@,
        r == (ReasonCode { data_change: true, integrity: true, ..ReasonCode::nothing() })
            ==> r.text() == "data-change"@ + "+"@ + "integrity"@,
{
    let none = Seq::<Seq<char>>::empty();
    let a = seq!["data-change"@];
    let b = seq!["quality-change"@];
    let c = seq!["data-update"@];
    let d = seq!["integrity"@];
    assert(none + none =~= none);
    assert(none + a =~= a && a + none =~= a);
    assert(none + b =~= b && b + none =~= b);
    assert(none + c =~= c && c + none =~= c);
    assert(none + d =~= d && d + none =~= d);
    let ad = a + d;
    assert(ad + none =~= ad);
    assert(ad.drop_last() =~= a && ad.last() == "integrity"@);
    reveal_with_fuel(crate::text::joined, 3);
}

/// Each control model is named by how it is commanded and how it is secured.
pub proof fn a_control_model_has_its_name(x: CtlModel)
    ensures
        x == CtlModel::StatusOnly ==> x.text() == "status-only"@,
        x == CtlModel::DirectNormal ==> x.text() == "direct-with-normal-security"@,
        x == CtlModel::SboNormal ==> x.text() == "sbo-with-normal-security"@,
        x == CtlModel::DirectEnhanced ==> x.text() == "direct-with-enhanced-security"@,
        x == CtlModel::SboEnhanced ==> x.text() == "sbo-with-enhanced-security"@,
{
}

/// Each additional cause is told by the name that belongs to its number.
pub proof fn a_cause_has_its_name(c: AddCause)
    ensures
        c.0 == 0 ==> c.text() == "unknown"@,
        c.0 == 1 ==> c.text() == "not-supported"@,
        c.0 == 2 ==> c.text() == "blocked-by-switching-hierarchy"@,
        c.0 == 3 ==> c.text() == "select-failed"@,
        c.0 == 4 ==> c.text() == "invalid-position"@,
        c.0 == 5 ==> c.text() == "position-reached"@,
        c.0 == 6 ==> c.text() == "parameter-change-in-execution"@,
        c.0 == 7 ==> c.text() == "step-limit"@,
        c.0 == 8 ==> c.text() == "blocked-by-mode"@,
        c.0 == 9 ==> c.text() == "blocked-by-process"@,
        c.0 == 10 ==> c.text() == "blocked-by-interlocking"@,
        c.0 == 11 ==> c.text() == "blocked-by-synchrocheck"@,
        c.0 == 12 ==> c.text() == "command-already-in-execution"@,
        c.0 == 13 ==> c.text() == "blocked-by-health"@,
        c.0 == 14 ==> c.text() == "one-of-n-control"@,
        c.0 == 15 ==> c.text() == "abortion-by-cancel"@,
        c.0 == 16 ==> c.text() == "time-limit-over"@,
        c.0 == 17 ==> c.text() == "abortion-by-trip"@,
        c.0 == 18 ==> c.text() == "object-not-selected"@,
        c.0 == 19 ==> c.text() == "object-already-selected"@,
        c.0 == 20 ==> c.text() == "no-access-authority"@,
        c.0 == 21 ==> c.text() == "ended-with-overshoot"@,
        c.0 == 22 ==> c.text() == "abortion-due-to-deviation"@,
        c.0 == 23 ==> c.text() == "abortion-by-communication-loss"@,
        c.0 == 24 ==> c.text() == "blocked-by-command"@,
        c.0 == 25 ==> c.text() == "none"@,
        c.0 == 26 ==> c.text() == "inconsistent-parameters"@,
        c.0 == 27 ==> c.text() == "locked-by-other-client"@,
{
}

} // verus!
