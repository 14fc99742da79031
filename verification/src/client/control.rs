use vstd::prelude::*;

use super::{concat3, is_client_error, sub_item, Error, Result};
use crate::asn1::primitives::bit_at;
use crate::mms::typespec::same_type;
use crate::mms::value::lemma_views_of;
use crate::mms::{Data, DataAccessError, TimeQuality, Timestamp, Type, TypeSpec, Value};
use crate::model::reference::{ld_of, path_of};
use crate::model::{AddCause, CtlModel, ObjectReference, OrCat};
use crate::text::{join, joined, push_str, quote, quoted, same, texts};
use vstd::slice::slice_to_vec;

verus! {

/// Which step of a control sequence failed.
#[derive(Debug, Clone, Copy, PartialEq, Eq, Structural)]
pub enum Stage {
    Select,
    Operate,
    Cancel,
}

impl Stage {
    /// The name of the step.
    pub open spec fn text(self) -> Seq<char> {
        match self {
            Stage::Select => "select"@,
            Stage::Operate => "operate"@,
            Stage::Cancel => "cancel"@,
        }
    }

    /// Returns the name of the step.
    pub fn to_text(self) -> (s: &'static str)
        ensures
            s@ == self.text(),
    {
        match self {
            Stage::Select => "select",
            Stage::Operate => "operate",
            Stage::Cancel => "cancel",
        }
    }
}

/// Carries the additional cause of a failed control.
#[derive(Debug, Clone, PartialEq, Eq)]
pub struct ControlError {
    pub stage: Stage,
    pub add_cause: AddCause,
    /// The message of the underlying error.
    pub source: Option<String>,
}

impl ControlError {
    /// Whether the error says which stage failed, with which cause and which
    /// underlying message.
    pub open spec fn says(&self, stage: Stage, cause: AddCause, source: Option<Seq<char>>) -> bool {
        &&& self.stage == stage
        &&& self.add_cause == cause
        &&& match (self.source, source) {
            (Some(a), Some(b)) => a@ == b,
            (None, None) => true,
            _ => false,
        }
    }

    /// Whether the device supplied a diagnosis of its own.
    pub open spec fn diagnosed(&self) -> bool {
        self.add_cause != AddCause::NONE() && self.add_cause != AddCause::UNKNOWN()
    }

    /// The message of the error. The additional cause is the device's own
    /// diagnosis and says far more than the underlying error, so it wins when
    /// the device supplied one.
    pub open spec fn text(&self) -> Seq<char> {
        let head = "client: control "@ + self.stage.text() + " failed"@;
        if self.diagnosed() {
            head + ": "@ + self.add_cause.text()
        } else {
            match self.source {
                Some(e) => head + ": "@ + e@,
                None => head,
            }
        }
    }

    /// Writes the message of the error.
    pub fn to_text(&self) -> (s: String)
        ensures
            s@ == self.text(),
    {
        let mut s = concat3("client: control ", self.stage.to_text(), " failed");
        if self.add_cause != AddCause::NONE() && self.add_cause != AddCause::UNKNOWN() {
            push_str(&mut s, ": ");
            push_str(&mut s, self.add_cause.to_text());
            return s;
        }
        if let Some(e) = &self.source {
            push_str(&mut s, ": ");
            push_str(&mut s, e.as_str());
        }
        s
    }

    pub fn new(stage: Stage, add_cause: AddCause) -> (e: ControlError)
        ensures
            e.stage == stage,
            e.add_cause == add_cause,
            e.source is None,
    {
        ControlError { stage, add_cause, source: None }
    }

    pub fn with_source(stage: Stage, add_cause: AddCause, source: &str) -> (e: ControlError)
        ensures
            e.stage == stage,
            e.add_cause == add_cause,
            e.source matches Some(s) && s@ == source@,
    {
        ControlError { stage, add_cause, source: Some(source.to_owned()) }
    }
}

/// Configures a control operation.
#[derive(Debug)]
pub struct ControlOptions {
    pub or_cat: OrCat,
    pub or_ident: Vec<u8>,
    pub test: bool,
    pub interlock_check: bool,
    pub synchro_check: bool,
    /// Overrides the control model instead of using the one read from
    /// `ctlModel`.
    pub model: Option<CtlModel>,
}

impl Default for ControlOptions {
    fn default() -> (o: ControlOptions)
        ensures
            o.or_cat == OrCat::StationControl,
            o.or_ident@.len() == 0,
            !o.test,
            !o.interlock_check,
            !o.synchro_check,
            o.model is None,
    {
        ControlOptions {
            or_cat: OrCat::StationControl,
            or_ident: Vec::new(),
            test: false,
            interlock_check: false,
            synchro_check: false,
            model: None,
        }
    }
}

impl ControlOptions {
    pub fn new() -> (o: ControlOptions)
        ensures
            o.or_cat == OrCat::StationControl,
            o.or_ident@.len() == 0,
            !o.test,
            !o.interlock_check,
            !o.synchro_check,
            o.model is None,
    {
        ControlOptions::default()
    }

    /// Sets the originator category and identifier.
    #[must_use]
    pub fn with_originator(self, cat: OrCat, ident: &str) -> (o: ControlOptions)
        ensures
            o.or_cat == cat,
            o.or_ident@ == vstd::utf8::encode_utf8(ident@),
            o == (ControlOptions { or_cat: cat, or_ident: o.or_ident, ..self }),
    {
        let mut o = self;
        o.or_cat = cat;
        o.or_ident = slice_to_vec(ident.as_bytes());
        o
    }

    /// Marks the command as a test.
    #[must_use]
    pub fn with_test(self, test: bool) -> (o: ControlOptions)
        ensures
            o == (ControlOptions { test, ..self }),
    {
        let mut o = self;
        o.test = test;
        o
    }

    /// Requests the interlock check.
    #[must_use]
    pub fn with_interlock_check(self, on: bool) -> (o: ControlOptions)
        ensures
            o == (ControlOptions { interlock_check: on, ..self }),
    {
        let mut o = self;
        o.interlock_check = on;
        o
    }

    /// Requests the synchronisation check.
    #[must_use]
    pub fn with_synchro_check(self, on: bool) -> (o: ControlOptions)
        ensures
            o == (ControlOptions { synchro_check: on, ..self }),
    {
        let mut o = self;
        o.synchro_check = on;
        o
    }

    /// Overrides the control model instead of reading `ctlModel`.
    #[must_use]
    pub fn with_model(self, m: CtlModel) -> (o: ControlOptions)
        ensures
            o == (ControlOptions { model: Some(m), ..self }),
    {
        let mut o = self;
        o.model = Some(m);
        o
    }
}

/// Tracks the control number of the sequence in progress.
///
/// A control sequence (select, operate, cancel) carries one control number
/// throughout: IEC 61850-7-2 has the client increment `ctlNum` once per new
/// sequence, and a server that compares the operate's number against the
/// selected one rejects the operate as inconsistent-parameters otherwise.
#[derive(Debug, Clone, Copy, PartialEq, Eq, Structural)]
pub struct Sequence {
    pub ctl_num: u8,
    /// A sequence is open, so the control number must be reused.
    pub in_sequence: bool,
}

/// The control number after `n`; it wraps at 255 by design.
pub open spec fn next_ctl_num(n: u8) -> u8 {
    if n == u8::MAX {
        0
    } else {
        (n + 1) as u8
    }
}

impl Sequence {
    /// The state after a request: an open sequence goes on, otherwise a new
    /// one takes the next number.
    pub open spec fn begun(self) -> Sequence {
        if self.in_sequence {
            self
        } else {
            Sequence { ctl_num: next_ctl_num(self.ctl_num), in_sequence: true }
        }
    }

    /// The state after the sequence ended.
    pub open spec fn ended(self) -> Sequence {
        Sequence { in_sequence: false, ..self }
    }
}

/// A request that a control makes of the server.
#[derive(Debug)]
pub enum ControlRequest {
    /// Read the item.
    Read { item: String },
    /// Write a value to the item.
    Write { item: String, value: Value },
}

/// What the answer to a write comes to.
#[derive(Debug, PartialEq, Eq)]
pub enum ControlOutcome {
    /// The server accepted.
    Done,
    /// The control failed.
    Failed(ControlError),
    /// The server refused with this code: its additional cause is to be read
    /// from `LastApplError` and handed to [`refused`].
    Refused(DataAccessError),
}

/// The item that a refused control's additional cause is read from.
pub fn last_appl_error_item() -> (s: &'static str)
    ensures
        s@ == "LLN0$ST$LastApplError$AddCause"@,
{
    "LLN0$ST$LastApplError$AddCause"
}

/// The low octet of a number.
pub open spec fn low_octet(v: int) -> u8 {
    (v % 256) as u8
}

fn octet_of(v: i64) -> (b: u8)
    ensures
        b == low_octet(v as int),
{
    assert((v & 0xff) == v % 256) by (bit_vector);
    (v & 0xff) as u8
}

/// The additional cause that a read of `LastApplError` brought, best effort.
pub fn add_cause_of(vals: Option<Vec<Value>>) -> (c: AddCause)
    ensures
        c == (match vals {
            Some(v) => if v@.len() > 0 && !(v@[0]@ is AccessError) {
                AddCause(low_octet(v@[0]@.signed() as int))
            } else {
                AddCause::UNKNOWN()
            },
            None => AddCause::UNKNOWN(),
        }),
{
    if let Some(v) = vals {
        if v.len() > 0 {
            if v[0].as_access_error().is_none() {
                return AddCause(octet_of(v[0].as_i64()));
            }
        }
    }
    AddCause::UNKNOWN()
}

/// The error of a refused control, with the additional cause that was found.
pub fn refused(stage: Stage, cause: AddCause, code: DataAccessError) -> (e: ControlError)
    ensures
        e.stage == stage,
        e.add_cause == cause,
        e.source matches Some(s) && s@ == code.text(),
{
    ControlError::with_source(stage, cause, code.to_text())
}

/// A controllable data object (an SPC, DPC, INC, APC and so on).
///
/// It runs one control sequence at a time.
#[derive(Debug)]
pub struct ControlObject {
    reference: ObjectReference,
    model: CtlModel,
    domain: String,
    /// `LN$CO$DO`.
    object: String,
    sequence: Sequence,
    ctl_val_spec: Option<TypeSpec>,
}

/// `LN$CO$DO` of a reference with at least two names.
pub open spec fn control_item(path: Seq<Seq<char>>) -> Seq<char> {
    path[0] + "$CO$"@ + joined(path.skip(1), "$"@)
}

/// The operate structure:
/// `{ ctlVal, origin{orCat, orIdent}, ctlNum, T, Test, Check }`.
pub open spec fn is_oper(
    d: Data,
    value: Data,
    opts: ControlOptions,
    ctl_num: u8,
    now: Timestamp,
) -> bool {
    &&& d matches Data::Structure(f)
    &&& f.len() == 6
    &&& f[0] == value
    &&& f[1] == Data::Structure(
        seq![Data::Integer(opts.or_cat.number() as i64), Data::OctetString(opts.or_ident@)],
    )
    &&& f[2] == Data::Unsigned(ctl_num as u64)
    &&& f[3] == Data::UtcTime(now.octets(TimeQuality(10)))
    &&& f[4] == Data::Boolean(opts.test)
    &&& f[5] is BitString
    &&& f[5].bit_len() == 2
    &&& f[5].bits_tight()
    &&& f[5].bit(0) == opts.interlock_check
    &&& f[5].bit(1) == opts.synchro_check
}

/// Constructs the operate structure.
pub fn build_oper(value: Value, opts: &ControlOptions, ctl_num: u8, now: Timestamp) -> (v: Value)
    ensures
        is_oper(v@, value@, *opts, ctl_num, now),
{
    let mut origin: Vec<Value> = Vec::new();
    origin.push(Value::int8(opts.or_cat.code() as i8));
    origin.push(Value::octet_string(slice_to_vec(opts.or_ident.as_slice())));
    proof {
        lemma_views_of(
            origin@,
            seq![Data::Integer(opts.or_cat.number() as i64), Data::OctetString(opts.or_ident@)],
        );
    }
    let mut check = Value::bit_string(2);
    check.set_bit(0, opts.interlock_check);
    check.set_bit(1, opts.synchro_check);
    let mut fields: Vec<Value> = Vec::new();
    fields.push(value);
    fields.push(Value::structure(origin));
    fields.push(Value::uint8(ctl_num));
    fields.push(Value::utc_time(now, TimeQuality(10)));
    fields.push(Value::boolean(opts.test));
    fields.push(check);
    proof {
        crate::mms::value::lemma_views(fields@, fields@.len());
    }
    Value::structure(fields)
}

/// Returns the type of a named member of a structure type.
pub fn component_spec(ts: &TypeSpec, name: &str) -> (r: Option<TypeSpec>)
    ensures
        match r {
            Some(spec) => ts.kind == Some(Type::Structure) && exists|i: int|
                first_component(*ts, name@, i) && same_type(
                    spec,
                    (#[trigger] ts.components@[i]).spec,
                ),
            None => ts.kind != Some(Type::Structure) || forall|i: int|
                0 <= i < ts.components@.len() ==> (#[trigger] ts.components@[i]).name@ != name@,
        },
{
    match ts.kind {
        Some(Type::Structure) => {},
        _ => return None,
    }
    let mut i: usize = 0;
    while i < ts.components.len()
        invariant
            i <= ts.components@.len(),
            ts.kind == Some(Type::Structure),
            forall|j: int| 0 <= j < i ==> (#[trigger] ts.components@[j]).name@ != name@,
        decreases ts.components@.len() - i,
    {
        if same(ts.components[i].name.as_str(), name) {
            assert(first_component(*ts, name@, i as int));
            return Some(ts.components[i].spec.clone());
        }
        i = i + 1;
    }
    None
}

/// Whether component `i` is the first one of a name.
pub open spec fn first_component(ts: TypeSpec, name: Seq<char>, i: int) -> bool {
    &&& 0 <= i < ts.components@.len()
    &&& ts.components@[i].name@ == name
    &&& forall|j: int| 0 <= j < i ==> (#[trigger] ts.components@[j]).name@ != name
}

impl ControlObject {
    /// The reference of the controlled object.
    pub closed spec fn object_reference(&self) -> Seq<char> {
        self.reference@
    }

    /// The control model in effect.
    pub closed spec fn control_model(&self) -> CtlModel {
        self.model
    }

    /// The MMS domain of the object.
    pub closed spec fn mms_domain(&self) -> Seq<char> {
        self.domain@
    }

    /// The MMS item of the object, `LN$CO$DO`.
    pub closed spec fn mms_item(&self) -> Seq<char> {
        self.object@
    }

    /// The sequence in progress.
    pub closed spec fn sequence(&self) -> Sequence {
        self.sequence
    }

    /// The type of the control value, once it is known.
    pub closed spec fn known_type(&self) -> Option<TypeSpec> {
        self.ctl_val_spec
    }

    /// Nothing but the sequence differs.
    pub open spec fn same_but_sequence(&self, other: Self) -> bool {
        &&& self.object_reference() == other.object_reference()
        &&& self.control_model() == other.control_model()
        &&& self.mms_domain() == other.mms_domain()
        &&& self.mms_item() == other.mms_item()
        &&& self.known_type() == other.known_type()
    }

    /// Returns a control for the object at `reference`, given what reading its
    /// `ctlModel` brought.
    ///
    /// A device that does not expose `ctlModel` is assumed to be
    /// direct-with-normal-security, which is what a status-only object would
    /// reject anyway.
    pub fn new(reference: ObjectReference, ctl_model: Option<Value>) -> (r: Result<ControlObject>)
        ensures
            match r {
                Ok(c) => {
                    &&& path_of(reference@).len() >= 2
                    &&& c.object_reference() == reference@
                    &&& c.control_model() == (match ctl_model {
                        Some(v) => CtlModel::of_code(low_octet(v@.signed() as int) as int),
                        None => CtlModel::DirectNormal,
                    })
                    &&& c.mms_domain() == ld_of(reference@)
                    &&& c.mms_item() == control_item(path_of(reference@))
                    &&& c.sequence() == (Sequence { ctl_num: 0, in_sequence: false })
                    &&& c.known_type() is None
                },
                Err(e) => path_of(reference@).len() < 2 && is_client_error(
                    e,
                    "control reference "@ + quoted(reference@) + " must be LD/LN.DO"@,
                ),
            },
    {
        let path = reference.path();
        let ghost p = texts(path@);
        assert(p.len() == path@.len());
        if path.len() < 2 {
            let s = concat3(
                "control reference ",
                quote(reference.as_str()).as_str(),
                " must be LD/LN.DO",
            );
            return Err(Error::Client(s));
        }
        assert(p[0] == path@[0]@);
        let mut object = path[0].clone();
        push_str(&mut object, "$CO$");
        push_str(&mut object, join(&path, 1, "$").as_str());
        let model = match ctl_model {
            Some(v) => CtlModel::from_code(octet_of(v.as_i64())),
            None => CtlModel::DirectNormal,
        };
        let domain = reference.ld();
        Ok(
            ControlObject {
                reference,
                model,
                domain,
                object,
                sequence: Sequence { ctl_num: 0, in_sequence: false },
                ctl_val_spec: None,
            },
        )
    }

    /// Returns the control model in effect.
    pub fn model(&self) -> (m: CtlModel)
        ensures
            m == self.control_model(),
    {
        self.model
    }

    /// Returns the reference of the controlled object.
    pub fn reference(&self) -> (r: &ObjectReference)
        ensures
            r@ == self.object_reference(),
    {
        &self.reference
    }

    /// Returns the MMS domain of the object.
    pub fn domain(&self) -> (s: &str)
        ensures
            s@ == self.mms_domain(),
    {
        self.domain.as_str()
    }

    /// Returns the control number of the current or most recent sequence.
    ///
    /// It is the `ctlNum` carried by that sequence's select and operate, which
    /// is what identifies the matching CommandTermination.
    pub fn ctl_num(&self) -> (n: u8)
        ensures
            n == self.sequence().ctl_num,
    {
        self.sequence.ctl_num
    }

    /// The model in effect for a request.
    pub open spec fn model_for(&self, opts: ControlOptions) -> CtlModel {
        match opts.model {
            Some(m) => m,
            None => self.control_model(),
        }
    }

    /// Reports whether an operate is to be preceded by a select.
    pub fn needs_select(&self, opts: &ControlOptions) -> (b: bool)
        ensures
            b == self.model_for(*opts).selects(),
    {
        match opts.model {
            Some(m) => m.has_select(),
            None => self.model.has_select(),
        }
    }

    fn begin_sequence(&mut self) -> (n: u8)
        ensures
            final(self).same_but_sequence(*old(self)),
            final(self).sequence() == old(self).sequence().begun(),
            n == final(self).sequence().ctl_num,
    {
        if !self.sequence.in_sequence {
            self.sequence.ctl_num = self.sequence.ctl_num.wrapping_add(1);
            self.sequence.in_sequence = true;
        }
        self.sequence.ctl_num
    }

    /// Closes the current sequence, so the next one takes a fresh number.
    fn end_sequence(&mut self)
        ensures
            final(self).same_but_sequence(*old(self)),
            final(self).sequence() == old(self).sequence().ended(),
    {
        self.sequence.in_sequence = false;
    }

    /// The request of the select step for SBO-with-normal-security controls.
    ///
    /// The read carries no control number, but it still opens the sequence
    /// whose number the following operate must use.
    pub fn select(&mut self) -> (r: ControlRequest)
        ensures
            final(self).same_but_sequence(*old(self)),
            final(self).sequence() == old(self).sequence().begun(),
            r matches ControlRequest::Read { item } && item@ == sub_item(
                old(self).mms_item(),
                "SBO"@,
            ),
    {
        self.begin_sequence();
        ControlRequest::Read { item: concat3(self.object.as_str(), "$", "SBO") }
    }

    /// What the answer to a select read comes to. Success returns a non-empty
    /// object name; an empty one is a refusal. A failed select ends the
    /// sequence.
    pub fn on_selected(&mut self, reply: std::result::Result<Vec<Value>, String>) -> (r:
        std::result::Result<(), ControlError>)
        ensures
            final(self).same_but_sequence(*old(self)),
            match reply {
                Err(m) => {
                    &&& final(self).sequence() == old(self).sequence().ended()
                    &&& r matches Err(e) && e.says(Stage::Select, AddCause::UNKNOWN(), Some(m@))
                },
                Ok(vals) => if vals@.len() == 0 || vals@[0]@.text().len() == 0 {
                    &&& final(self).sequence() == old(self).sequence().ended()
                    &&& r matches Err(e) && e.says(Stage::Select, AddCause::SELECT_FAILED(), None)
                } else {
                    &&& final(self).sequence() == old(self).sequence()
                    &&& r is Ok
                },
            },
    {
        match reply {
            Err(m) => {
                self.end_sequence();
                Err(ControlError::with_source(Stage::Select, AddCause::UNKNOWN(), m.as_str()))
            },
            Ok(vals) => {
                if vals.len() == 0 || vals[0].text().as_str().is_empty() {
                    self.end_sequence();
                    return Err(ControlError::new(Stage::Select, AddCause::SELECT_FAILED()));
                }
                Ok(())
            },
        }
    }

    /// The request of the select step appropriate to the model: a read of
    /// `SBO` for normal security, otherwise a write of the operate structure
    /// to `SBOw`. Either opens the sequence, and the operate that follows
    /// repeats its control number.
    pub fn select_with_value(
        &mut self,
        value: Value,
        opts: &ControlOptions,
        now: Timestamp,
    ) -> (r: ControlRequest)
        ensures
            final(self).same_but_sequence(*old(self)),
            final(self).sequence() == old(self).sequence().begun(),
            if old(self).model_for(*opts) == CtlModel::SboNormal {
                r matches ControlRequest::Read { item } && item@ == sub_item(
                    old(self).mms_item(),
                    "SBO"@,
                )
            } else {
                r matches ControlRequest::Write { item, value: v } && item@ == sub_item(
                    old(self).mms_item(),
                    "SBOw"@,
                ) && is_oper(v@, value@, *opts, final(self).sequence().ctl_num, now)
            },
    {
        let model = match opts.model {
            Some(m) => m,
            None => self.model,
        };
        if model == CtlModel::SboNormal {
            return self.select();
        }
        let ctl_num: u8 = self.begin_sequence();
        let oper = build_oper(value, opts, ctl_num, now);
        ControlRequest::Write { item: concat3(self.object.as_str(), "$", "SBOw"), value: oper }
    }

    /// The request of the operate step. It reuses the select's control number
    /// when a sequence is open.
    pub fn operate(&mut self, value: Value, opts: &ControlOptions, now: Timestamp) -> (r:
        ControlRequest)
        ensures
            final(self).same_but_sequence(*old(self)),
            final(self).sequence() == old(self).sequence().begun(),
            r matches ControlRequest::Write { item, value: v } && item@ == sub_item(
                old(self).mms_item(),
                "Oper"@,
            ) && is_oper(v@, value@, *opts, final(self).sequence().ctl_num, now),
    {
        let ctl_num: u8 = self.begin_sequence();
        let oper = build_oper(value, opts, ctl_num, now);
        ControlRequest::Write { item: concat3(self.object.as_str(), "$", "Oper"), value: oper }
    }

    /// The request that aborts a selection or operation. It carries the
    /// control number of the sequence being cancelled, which is how the server
    /// identifies it.
    pub fn cancel(&mut self, opts: &ControlOptions, now: Timestamp) -> (r: ControlRequest)
        ensures
            final(self).same_but_sequence(*old(self)),
            final(self).sequence() == old(self).sequence().begun(),
            r matches ControlRequest::Write { item, value: v } && item@ == sub_item(
                old(self).mms_item(),
                "Cancel"@,
            ) && is_oper(
                v@,
                Data::Boolean(false),
                *opts,
                final(self).sequence().ctl_num,
                now,
            ),
    {
        let ctl_num: u8 = self.begin_sequence();
        let oper = build_oper(Value::boolean(false), opts, ctl_num, now);
        ControlRequest::Write { item: concat3(self.object.as_str(), "$", "Cancel"), value: oper }
    }

    /// Whether the answer to a write of a stage ends the sequence: an operate
    /// and a cancel end it either way, since a retry is a new sequence; a
    /// select ends it where it failed.
    pub open spec fn ends(
        stage: Stage,
        reply: std::result::Result<Vec<Option<DataAccessError>>, String>,
    ) -> bool {
        match stage {
            Stage::Select => match reply {
                Err(_) => true,
                Ok(results) => results@.len() > 0 && results@[0] is Some,
            },
            _ => true,
        }
    }

    /// What the answer to a write comes to. A refused cancel has no additional
    /// cause to read.
    pub fn on_written(
        &mut self,
        stage: Stage,
        reply: std::result::Result<Vec<Option<DataAccessError>>, String>,
    ) -> (r: ControlOutcome)
        ensures
            final(self).same_but_sequence(*old(self)),
            final(self).sequence() == (if Self::ends(stage, reply) {
                old(self).sequence().ended()
            } else {
                old(self).sequence()
            }),
            match reply {
                Err(m) => r matches ControlOutcome::Failed(e) && e.says(
                    stage,
                    AddCause::UNKNOWN(),
                    Some(m@),
                ),
                Ok(results) => if results@.len() > 0 && results@[0] is Some {
                    if stage == Stage::Cancel {
                        r matches ControlOutcome::Failed(e) && e.says(
                            stage,
                            AddCause::UNKNOWN(),
                            Some(results@[0]->0.text()),
                        )
                    } else {
                        r == ControlOutcome::Refused(results@[0]->0)
                    }
                } else {
                    r == ControlOutcome::Done
                },
            },
    {
        if stage != Stage::Select {
            self.end_sequence();
        }
        match reply {
            Err(m) => {
                self.end_sequence();
                ControlOutcome::Failed(
                    ControlError::with_source(stage, AddCause::UNKNOWN(), m.as_str()),
                )
            },
            Ok(results) => {
                if results.len() > 0 {
                    if let Some(code) = results[0] {
                        self.end_sequence();
                        if stage == Stage::Cancel {
                            return ControlOutcome::Failed(
                                refused(stage, AddCause::UNKNOWN(), code),
                            );
                        }
                        return ControlOutcome::Refused(code);
                    }
                }
                ControlOutcome::Done
            },
        }
    }

    /// The items whose types may hold the control value's type.
    pub open spec fn type_items(&self) -> Seq<Seq<char>> {
        if self.control_model().selects() {
            seq![sub_item(self.mms_item(), "Oper"@), sub_item(self.mms_item(), "SBOw"@)]
        } else {
            seq![sub_item(self.mms_item(), "Oper"@)]
        }
    }

    /// The items whose types are asked for the control value's type, in order.
    /// `Oper` carries `ctlVal` under every control model; `SBOw` is the
    /// fallback for SBO objects whose `Oper` the server will not describe.
    pub fn ctl_val_items(&self) -> (v: Vec<String>)
        ensures
            texts(v@) == self.type_items(),
    {
        let mut v: Vec<String> = Vec::new();
        v.push(concat3(self.object.as_str(), "$", "Oper"));
        if self.model.has_select() {
            v.push(concat3(self.object.as_str(), "$", "SBOw"));
        }
        assert(texts(v@) =~= self.type_items());
        v
    }

    /// Returns the control value's type where it is already known. The type of
    /// a control object is static, so an answer is kept and later calls cost
    /// no round trip.
    pub fn cached_ctl_val_spec(&self) -> (r: Option<TypeSpec>)
        ensures
            match (r, self.known_type()) {
                (Some(a), Some(b)) => same_type(a, b),
                (None, None) => true,
                _ => false,
            },
    {
        match &self.ctl_val_spec {
            Some(t) => Some(t.clone()),
            None => None,
        }
    }

    /// Takes the control value's type out of the type of `item`, and keeps it.
    pub fn take_ctl_val_spec(&mut self, item: &str, ts: &TypeSpec) -> (r: Result<TypeSpec>)
        ensures
            final(self).object_reference() == old(self).object_reference(),
            final(self).control_model() == old(self).control_model(),
            final(self).mms_domain() == old(self).mms_domain(),
            final(self).mms_item() == old(self).mms_item(),
            final(self).sequence() == old(self).sequence(),
            match r {
                Ok(spec) => {
                    &&& ts.kind == Some(Type::Structure)
                    &&& exists|i: int|
                        first_component(*ts, "ctlVal"@, i) && same_type(
                            spec,
                            (#[trigger] ts.components@[i]).spec,
                        )
                    &&& final(self).known_type() matches Some(kept) && same_type(kept, spec)
                },
                Err(e) => {
                    &&& ts.kind != Some(Type::Structure) || forall|i: int|
                        0 <= i < ts.components@.len() ==> (#[trigger] ts.components@[i]).name@
                            != "ctlVal"@
                    &&& final(self).known_type() == old(self).known_type()
                    &&& is_client_error(
                        e,
                        old(self).object_reference() + ": "@ + item@ + " has no ctlVal component"@,
                    )
                },
            },
    {
        match component_spec(ts, "ctlVal") {
            Some(spec) => {
                self.ctl_val_spec = Some(spec.clone());
                Ok(spec)
            },
            None => {
                let mut s = concat3(self.reference.as_str(), ": ", item);
                push_str(&mut s, " has no ctlVal component");
                Err(Error::Client(s))
            },
        }
    }

    /// Begins to look for the control value's type.
    pub fn type_search(&self) -> (s: TypeSearch)
        ensures
            s.valid(),
            match self.known_type() {
                Some(t) => s matches TypeSearch::Found(spec) && same_type(spec, t),
                None => s matches TypeSearch::Ask { items, at } && texts(items@)
                    == self.type_items() && at == 0,
            },
    {
        match self.cached_ctl_val_spec() {
            Some(t) => TypeSearch::Found(t),
            None => {
                let items = self.ctl_val_items();
                assert(texts(items@).len() == items@.len());
                TypeSearch::Ask { items, at: 0 }
            },
        }
    }

    /// Takes the type of the item that was asked for, and returns where the
    /// search goes on. A type that was found is kept.
    pub fn on_type(&mut self, s: TypeSearch, reply: Result<TypeSpec>) -> (after: TypeSearch)
        requires
            s.valid(),
        ensures
            after.valid(),
            s.leads(old(self).object_reference(), reply, after),
            final(self).object_reference() == old(self).object_reference(),
            final(self).control_model() == old(self).control_model(),
            final(self).mms_domain() == old(self).mms_domain(),
            final(self).mms_item() == old(self).mms_item(),
            final(self).sequence() == old(self).sequence(),
            if s is Ask && after is Found {
                final(self).known_type() matches Some(kept) && same_type(kept, after->Found_0)
            } else {
                final(self).known_type() == old(self).known_type()
            },
    {
        let (items, at) = match s {
            TypeSearch::Ask { items, at } => (items, at),
            other => return other,
        };
        let found = match reply {
            Ok(ts) => self.take_ctl_val_spec(items[at].as_str(), &ts),
            Err(e) => Err(e),
        };
        match found {
            Ok(spec) => TypeSearch::Found(spec),
            Err(e) => if at < items.len() - 1 {
                TypeSearch::Ask { items, at: at + 1 }
            } else {
                TypeSearch::Failed(e)
            },
        }
    }
}

/// Where the search for the type of a control value stands.
#[derive(Debug)]
pub enum TypeSearch {
    /// The types of items are to be asked for: those from `at` on.
    Ask { items: Vec<String>, at: usize },
    Found(TypeSpec),
    Failed(Error),
}

impl TypeSearch {
    /// Whether there is something at the place where the search stands.
    pub open spec fn valid(self) -> bool {
        self matches TypeSearch::Ask { items, at } ==> at < items@.len()
    }

    /// Whether `after` is where the search for the type of an object's control
    /// value stands once a type was asked for. The first type that has the
    /// value ends it; otherwise what was said of the last item does.
    pub open spec fn leads(
        self,
        reference: Seq<char>,
        reply: Result<TypeSpec>,
        after: TypeSearch,
    ) -> bool {
        match self {
            TypeSearch::Ask { items, at } => {
                if reply matches Ok(ts) && has_component(ts, "ctlVal"@) {
                    after matches TypeSearch::Found(spec) && exists|i: int|
                        first_component(reply->Ok_0, "ctlVal"@, i) && same_type(
                            spec,
                            (#[trigger] reply->Ok_0.components@[i]).spec,
                        )
                } else if at + 1 < items@.len() {
                    after == (TypeSearch::Ask { items, at: (at + 1) as usize })
                } else {
                    match reply {
                        Ok(_) => after matches TypeSearch::Failed(e) && is_client_error(
                            e,
                            reference + ": "@ + items@[at as int]@ + " has no ctlVal component"@,
                        ),
                        Err(e) => after == TypeSearch::Failed(e),
                    }
                }
            },
            _ => after == self,
        }
    }

    /// The item whose type is to be asked for, none once the search has ended.
    pub fn wanted(&self) -> (r: Option<String>)
        requires
            self.valid(),
        ensures
            match (r, self) {
                (Some(item), TypeSearch::Ask { items, at }) => item@ == items@[*at as int]@,
                (None, TypeSearch::Ask { items, at }) => false,
                (None, _) => true,
                _ => false,
            },
    {
        match self {
            TypeSearch::Ask { items, at } => Some(items[*at].clone()),
            _ => None,
        }
    }
}

/// Whether a type is a structure with a component of a name.
pub open spec fn has_component(ts: TypeSpec, name: Seq<char>) -> bool {
    ts.kind == Some(Type::Structure) && exists|i: int|
        0 <= i < ts.components@.len() && (#[trigger] ts.components@[i]).name@ == name
}

/// Where an operation stands.
#[derive(Debug)]
pub enum Operating {
    /// The object is to be selected, and nothing more.
    SelectOnly,
    /// The object is to be selected, and operated then.
    Select,
    /// The object is to be operated.
    Operate,
    /// A selection or an operation is to be aborted.
    Cancel,
    /// The server refused a step: its additional cause is to be read.
    Explain(Stage, DataAccessError),
    Done,
    Failed(ControlError),
}

/// What a request came to.
#[derive(Debug)]
pub enum ControlReply {
    Read(std::result::Result<Vec<Value>, String>),
    Written(std::result::Result<Vec<Option<DataAccessError>>, String>),
}

impl ControlReply {
    /// The answer to a write; one to a read counts as a failure without a
    /// message.
    pub open spec fn refusal(self) -> std::result::Result<Option<DataAccessError>, Seq<char>> {
        match self {
            ControlReply::Written(Ok(results)) => if results@.len() > 0 {
                Ok(results@[0])
            } else {
                Ok(None)
            },
            ControlReply::Written(Err(m)) => Err(m@),
            ControlReply::Read(_) => Err(Seq::empty()),
        }
    }

    /// The additional cause in the answer, if it holds one.
    pub open spec fn cause(self) -> AddCause {
        match self {
            ControlReply::Read(Ok(v)) => if v@.len() > 0 && !(v@[0]@ is AccessError) {
                AddCause(low_octet(v@[0]@.signed() as int))
            } else {
                AddCause::UNKNOWN()
            },
            _ => AddCause::UNKNOWN(),
        }
    }

    fn into_results(self) -> (r: std::result::Result<Vec<Option<DataAccessError>>, String>)
        ensures
            match (r, self.refusal()) {
                (Ok(results), Ok(first)) => first == (if results@.len() > 0 {
                    results@[0]
                } else {
                    None
                }),
                (Err(m), Err(e)) => m@ == e,
                _ => false,
            },
    {
        match self {
            ControlReply::Written(r) => r,
            ControlReply::Read(_) => Err(String::new()),
        }
    }

    fn into_values(self) -> (r: Option<Vec<Value>>)
        ensures
            match r {
                Some(v) => self == ControlReply::Read(Ok(v)),
                None => !(self matches ControlReply::Read(Ok(_))),
            },
    {
        match self {
            ControlReply::Read(Ok(v)) => Some(v),
            _ => None,
        }
    }
}

impl Operating {
    /// The stage of a step that selects, operates or cancels.
    pub open spec fn stage(self) -> Option<Stage> {
        match self {
            Operating::SelectOnly | Operating::Select => Some(Stage::Select),
            Operating::Operate => Some(Stage::Operate),
            Operating::Cancel => Some(Stage::Cancel),
            _ => None,
        }
    }

    /// Where an operation goes on once a step was accepted.
    pub open spec fn accepted(self) -> Operating {
        match self {
            Operating::Select => Operating::Operate,
            _ => Operating::Done,
        }
    }

    /// Whether `after` is where the operation stands once a step was answered.
    pub open spec fn leads(self, reply: ControlReply, after: Operating) -> bool {
        match (self.stage(), self) {
            (Some(Stage::Select), _) if reply is Read => match reply->Read_0 {
                Err(m) => after matches Operating::Failed(e) && e.says(
                    Stage::Select,
                    AddCause::UNKNOWN(),
                    Some(m@),
                ),
                Ok(vals) => if vals@.len() == 0 || vals@[0]@.text().len() == 0 {
                    after matches Operating::Failed(e) && e.says(
                        Stage::Select,
                        AddCause::SELECT_FAILED(),
                        None,
                    )
                } else {
                    after == self.accepted()
                },
            },
            (Some(stage), _) => match reply.refusal() {
                Ok(None) => after == self.accepted(),
                Ok(Some(code)) => if stage == Stage::Cancel {
                    after matches Operating::Failed(e) && e.says(
                        stage,
                        AddCause::UNKNOWN(),
                        Some(code.text()),
                    )
                } else {
                    after == Operating::Explain(stage, code)
                },
                Err(m) => after matches Operating::Failed(e) && e.says(
                    stage,
                    AddCause::UNKNOWN(),
                    Some(m),
                ),
            },
            (None, Operating::Explain(stage, code)) => after matches Operating::Failed(e) && e.says(
                stage,
                reply.cause(),
                Some(code.text()),
            ),
            _ => after == self,
        }
    }
}

impl ControlObject {
    /// Where a complete control operation begins, as the model asks for it: for
    /// SBO models with a select.
    pub fn begin(&self, opts: &ControlOptions) -> (at: Operating)
        ensures
            at == (if self.model_for(*opts).selects() {
                Operating::Select
            } else {
                Operating::Operate
            }),
    {
        if self.needs_select(opts) {
            Operating::Select
        } else {
            Operating::Operate
        }
    }

    /// Whether a request is the one to make, by an object whose sequence is the
    /// given one once it is made.
    pub open spec fn asks(
        &self,
        at: Operating,
        value: Data,
        opts: ControlOptions,
        now: Timestamp,
        sequence: Sequence,
        r: Option<ControlRequest>,
    ) -> bool {
        match at.stage() {
            Some(stage) => {
                &&& sequence == self.sequence().begun()
                &&& if stage == Stage::Select && self.model_for(opts) == CtlModel::SboNormal {
                    r matches Some(ControlRequest::Read { item }) && item@ == sub_item(
                        self.mms_item(),
                        "SBO"@,
                    )
                } else {
                    r matches Some(ControlRequest::Write { item, value: v }) && item@ == sub_item(
                        self.mms_item(),
                        match stage {
                            Stage::Select => "SBOw"@,
                            Stage::Operate => "Oper"@,
                            Stage::Cancel => "Cancel"@,
                        },
                    ) && is_oper(
                        v@,
                        if stage == Stage::Cancel {
                            Data::Boolean(false)
                        } else {
                            value
                        },
                        opts,
                        sequence.ctl_num,
                        now,
                    )
                }
            },
            None => {
                &&& sequence == self.sequence()
                &&& match at {
                    Operating::Explain(_, _) => r matches Some(ControlRequest::Read { item })
                        && item@ == "LLN0$ST$LastApplError$AddCause"@,
                    _ => r is None,
                }
            },
        }
    }

    /// The request of the step at which an operation stands, none once it has
    /// ended.
    pub fn ask(
        &mut self,
        at: &Operating,
        value: Value,
        opts: &ControlOptions,
        now: Timestamp,
    ) -> (r: Option<ControlRequest>)
        ensures
            final(self).same_but_sequence(*old(self)),
            old(self).asks(*at, value@, *opts, now, final(self).sequence(), r),
    {
        match at {
            Operating::SelectOnly | Operating::Select => Some(
                self.select_with_value(value, opts, now),
            ),
            Operating::Operate => Some(self.operate(value, opts, now)),
            Operating::Cancel => Some(self.cancel(opts, now)),
            Operating::Explain(_, _) => Some(
                ControlRequest::Read { item: last_appl_error_item().to_owned() },
            ),
            Operating::Done | Operating::Failed(_) => None,
        }
    }

    /// The sequence once a step was answered: it stays open behind a select
    /// that was accepted, and ends with everything else.
    pub open spec fn sequence_after(&self, at: Operating, after: Operating) -> Sequence {
        match at.stage() {
            Some(Stage::Select) => if after == at.accepted() {
                self.sequence()
            } else {
                self.sequence().ended()
            },
            Some(_) => self.sequence().ended(),
            None => self.sequence(),
        }
    }

    /// Takes the answer to the request of a step, and returns where the
    /// operation goes on.
    pub fn on_reply(&mut self, at: Operating, reply: ControlReply) -> (after: Operating)
        ensures
            final(self).same_but_sequence(*old(self)),
            at.leads(reply, after),
            final(self).sequence() == old(self).sequence_after(at, after),
    {
        match at {
            Operating::SelectOnly => self.on_step(Stage::Select, Operating::Done, reply),
            Operating::Select => self.on_step(Stage::Select, Operating::Operate, reply),
            Operating::Operate => self.on_step(Stage::Operate, Operating::Done, reply),
            Operating::Cancel => self.on_step(Stage::Cancel, Operating::Done, reply),
            Operating::Explain(stage, code) => {
                let cause = add_cause_of(reply.into_values());
                Operating::Failed(refused(stage, cause, code))
            },
            other => other,
        }
    }

    fn on_step(&mut self, stage: Stage, accepted: Operating, reply: ControlReply) -> (after:
        Operating)
        requires
            accepted == Operating::Done || accepted == Operating::Operate,
        ensures
            final(self).same_but_sequence(*old(self)),
            match (stage, reply) {
                (Stage::Select, ControlReply::Read(_)) => (if accepted == Operating::Done {
                    Operating::SelectOnly
                } else {
                    Operating::Select
                }).leads(reply, after),
                _ => match reply.refusal() {
                    Ok(None) => after == accepted,
                    Ok(Some(code)) => if stage == Stage::Cancel {
                        after matches Operating::Failed(e) && e.says(
                            stage,
                            AddCause::UNKNOWN(),
                            Some(code.text()),
                        )
                    } else {
                        after == Operating::Explain(stage, code)
                    },
                    Err(m) => after matches Operating::Failed(e) && e.says(
                        stage,
                        AddCause::UNKNOWN(),
                        Some(m),
                    ),
                },
            },
            final(self).sequence() == (if stage == Stage::Select && after == accepted {
                old(self).sequence()
            } else {
                old(self).sequence().ended()
            }),
    {
        match (stage, reply) {
            (Stage::Select, ControlReply::Read(vals)) => match self.on_selected(vals) {
                Ok(()) => accepted,
                Err(e) => Operating::Failed(e),
            },
            (stage, reply) => match self.on_written(stage, reply.into_results()) {
                ControlOutcome::Done => accepted,
                ControlOutcome::Failed(e) => Operating::Failed(e),
                ControlOutcome::Refused(code) => Operating::Explain(stage, code),
            },
        }
    }
}

/// The operate of a sequence repeats the number of its select: an accepted
/// select leaves the sequence open, so the operate that follows carries the
/// number that the select carried.
pub proof fn an_operate_repeats_the_selected_number(
    before: ControlObject,
    selected: ControlObject,
    accepted: ControlObject,
)
    requires
        selected.sequence() == before.sequence().begun(),
        accepted.sequence() == selected.sequence_after(Operating::Select, Operating::Operate),
    ensures
        accepted.sequence().begun().ctl_num == selected.sequence().ctl_num,
{
}

/// A sequence carries one control number throughout: while it is open, every
/// request carries the number that opened it.
pub proof fn one_number_per_sequence(s: Sequence)
    ensures
        s.begun().in_sequence,
        s.begun().begun() == s.begun(),
        s.begun().begun().ctl_num == s.begun().ctl_num,
{
}

/// A new sequence takes the next number: once one has ended, the next request
/// carries the number after it, which is another one.
pub proof fn a_new_sequence_takes_the_next_number(s: Sequence)
    ensures
        s.begun().ended().begun().ctl_num == next_ctl_num(s.begun().ctl_num),
        s.begun().ended().begun().ctl_num != s.begun().ctl_num,
{
}

/// Two octets with the same bits are the same.
proof fn lemma_same_bits(a: u8, b: u8)
    by (bit_vector)
    requires
        (a & 0x80u8 != 0) == (b & 0x80u8 != 0),
        (a & 0x40u8 != 0) == (b & 0x40u8 != 0),
        (a & 0x20u8 != 0) == (b & 0x20u8 != 0),
        (a & 0x10u8 != 0) == (b & 0x10u8 != 0),
        (a & 0x08u8 != 0) == (b & 0x08u8 != 0),
        (a & 0x04u8 != 0) == (b & 0x04u8 != 0),
        (a & 0x02u8 != 0) == (b & 0x02u8 != 0),
        (a & 0x01u8 != 0) == (b & 0x01u8 != 0),
    ensures
        a == b,
{
}

proof fn lemma_masks()
    by (bit_vector)
    ensures
        0x80u8 >> 0u8 == 0x80u8,
        0x80u8 >> 1u8 == 0x40u8,
        0x80u8 >> 2u8 == 0x20u8,
        0x80u8 >> 3u8 == 0x10u8,
        0x80u8 >> 4u8 == 0x08u8,
        0x80u8 >> 5u8 == 0x04u8,
        0x80u8 >> 6u8 == 0x02u8,
        0x80u8 >> 7u8 == 0x01u8,
{
}

/// The octet of a check field is the two checks alone.
proof fn lemma_check_octets(a: Data, b: Data)
    requires
        a is BitString,
        b is BitString,
        a.bit_len() == 2,
        b.bit_len() == 2,
        a.bits_tight(),
        b.bits_tight(),
        a.bit(0) == b.bit(0),
        a.bit(1) == b.bit(1),
    ensures
        a == b,
{
    let x = a->BitString_bits;
    let y = b->BitString_bits;
    assert(x.len() == 1 && y.len() == 1);
    lemma_masks();
    assert(bit_at(x, 0) == a.bit(0) && bit_at(y, 0) == b.bit(0));
    assert(bit_at(x, 1) == a.bit(1) && bit_at(y, 1) == b.bit(1));
    assert(!bit_at(x, 2) && !bit_at(y, 2));
    assert(!bit_at(x, 3) && !bit_at(y, 3));
    assert(!bit_at(x, 4) && !bit_at(y, 4));
    assert(!bit_at(x, 5) && !bit_at(y, 5));
    assert(!bit_at(x, 6) && !bit_at(y, 6));
    assert(!bit_at(x, 7) && !bit_at(y, 7));
    lemma_same_bits(x[0], y[0]);
    assert(x =~= y);
}

/// A command says what it was asked to say: the value, who gives it, the number
/// of its sequence and the moment, whether it is a test, and which checks the
/// device is to make. A command is marked as a test exactly where the options
/// are, and each check is asked for exactly where the options ask for it.
pub proof fn a_command_says_what_was_asked(
    d: Data,
    value: Data,
    opts: ControlOptions,
    ctl_num: u8,
    now: Timestamp,
)
    requires
        is_oper(d, value, opts, ctl_num, now),
        now.wf(),
    ensures
        d is Structure,
        d.items().len() == 6,
        d.items()[0] == value,
        d.items()[1].items() == seq![
            Data::Integer(opts.or_cat.number() as i64),
            Data::OctetString(opts.or_ident@),
        ],
        d.items()[2] == Data::Unsigned(ctl_num as u64),
        d.items()[3].time() == Some(now),
        d.items()[3].octets().last() == 10,
        opts.test ==> d.items()[4] == Data::Boolean(true),
        !opts.test ==> d.items()[4] == Data::Boolean(false),
        d.items()[5].bit_len() == 2,
        d.items()[5].bit(0) <==> opts.interlock_check,
        d.items()[5].bit(1) <==> opts.synchro_check,
{
    crate::mms::value::timestamp_round_trip(now, TimeQuality(10));
}

/// Options that differ in one point make commands that differ in that point
/// alone: marking a command as a test changes its test field and nothing else,
/// and a check that is asked for changes the check field and nothing else.
pub proof fn an_option_changes_its_own_field_alone(
    plain: Data,
    other: Data,
    value: Data,
    opts: ControlOptions,
    ctl_num: u8,
    now: Timestamp,
    test: bool,
    interlock: bool,
    synchro: bool,
)
    requires
        is_oper(plain, value, opts, ctl_num, now),
        is_oper(
            other,
            value,
            (ControlOptions { test, interlock_check: interlock, synchro_check: synchro, ..opts }),
            ctl_num,
            now,
        ),
    ensures
        plain.items().len() == other.items().len(),
        forall|i: int| 0 <= i < 4 ==> #[trigger] plain.items()[i] == other.items()[i],
        (plain.items()[4] == other.items()[4]) <==> test == opts.test,
        (plain.items()[5] == other.items()[5]) <==> interlock == opts.interlock_check && synchro
            == opts.synchro_check,
{
    if interlock == opts.interlock_check && synchro == opts.synchro_check {
        lemma_check_octets(plain.items()[5], other.items()[5]);
    }
}

/// What a step asks for goes to its own place below the object: a select of
/// normal security is a read of `SBO`, and any other step a write of the command
/// to `SBOw`, `Oper` or `Cancel`. The command carries the number of the sequence
/// that the step stands in, and whatever the options say of a test.
pub proof fn a_step_goes_to_its_own_item(
    c: ControlObject,
    at: Operating,
    value: Data,
    opts: ControlOptions,
    now: Timestamp,
    sequence: Sequence,
    r: Option<ControlRequest>,
)
    requires
        c.asks(at, value, opts, now, sequence, r),
    ensures
        at is Operate ==> {
            &&& r matches Some(ControlRequest::Write { item, value: v }) && item@ == c.mms_item()
                + "$"@ + "Oper"@ && v@.items().len() == 6 && v@.items()[0] == value
                && v@.items()[2] == Data::Unsigned(sequence.ctl_num as u64) && v@.items()[4]
                == Data::Boolean(opts.test)
        },
        at is Cancel ==> {
            &&& r matches Some(ControlRequest::Write { item, value: v }) && item@ == c.mms_item()
                + "$"@ + "Cancel"@ && v@.items().len() == 6 && v@.items()[2] == Data::Unsigned(
                sequence.ctl_num as u64,
            ) && v@.items()[4] == Data::Boolean(opts.test)
        },
        (at is Select || at is SelectOnly) && (match opts.model {
            Some(m) => m,
            None => c.control_model(),
        }) == CtlModel::SboNormal ==> {
            &&& r matches Some(ControlRequest::Read { item }) && item@ == c.mms_item() + "$"@
                + "SBO"@
        },
        (at is Select || at is SelectOnly) && (match opts.model {
            Some(m) => m,
            None => c.control_model(),
        }) != CtlModel::SboNormal ==> {
            &&& r matches Some(ControlRequest::Write { item, value: v }) && item@ == c.mms_item()
                + "$"@ + "SBOw"@ && v@.items().len() == 6 && v@.items()[0] == value
                && v@.items()[2] == Data::Unsigned(sequence.ctl_num as u64) && v@.items()[4]
                == Data::Boolean(opts.test)
        },
        at is Done || at is Failed ==> r is None && sequence == c.sequence(),
        at is Operate || at is Cancel || at is Select || at is SelectOnly ==> sequence.in_sequence
            && sequence.ctl_num as int == (if c.sequence().in_sequence {
            c.sequence().ctl_num as int
        } else {
            (c.sequence().ctl_num + 1) % 256
        }),
{
}

/// The control number counts the sequences, modulo 256: a request within a
/// sequence keeps it, and the first of a new one adds one to it.
pub proof fn the_control_number_counts_sequences(s: Sequence)
    ensures
        s.in_sequence ==> s.begun().ctl_num == s.ctl_num,
        !s.in_sequence ==> s.begun().ctl_num as int == (s.ctl_num + 1) % 256,
        s.begun().in_sequence,
        !s.ended().in_sequence,
        s.ended().ctl_num == s.ctl_num,
        next_ctl_num(s.ctl_num) as int == (s.ctl_num + 1) % 256,
{
}

/// The item of a controllable object is the one that its reference has under
/// the constraint of control.
pub proof fn a_control_is_written_under_its_constraint(path: Seq<Seq<char>>)
    requires
        path.len() >= 2,
    ensures
        control_item(path) == crate::model::reference::item_of(path, crate::model::Fc::Co),
{
    reveal_strlit("$CO$");
    reveal_strlit("$");
    reveal_strlit("CO");
    assert("$CO$"@ =~= "$"@ + "CO"@ + "$"@);
    assert(control_item(path) =~= crate::model::reference::item_of(path, crate::model::Fc::Co));
}

/// An operation takes the steps that the model of the object asks for: a select
/// that was accepted is followed by the operate, and an operate or a cancel that
/// was accepted is the end.
pub proof fn an_accepted_step_leads_on(at: Operating, reply: ControlReply, after: Operating)
    requires
        at.leads(reply, after),
    ensures
        (reply matches ControlReply::Written(Ok(results)) && (results@.len() == 0 || results@[0]
            is None)) ==> {
            &&& at is Select ==> after is Operate
            &&& at is SelectOnly ==> after is Done
            &&& at is Operate ==> after is Done
            &&& at is Cancel ==> after is Done
        },
        (reply matches ControlReply::Read(Ok(vals)) && vals@.len() > 0 && vals@[0]@.text().len()
            > 0) ==> {
            &&& at is Select ==> after is Operate
            &&& at is SelectOnly ==> after is Done
        },
        (reply matches ControlReply::Read(Ok(vals)) && (vals@.len() == 0 || vals@[0]@.text().len()
            == 0)) && (at is Select || at is SelectOnly) ==> after is Failed,
        after is Operate ==> at is Select || at is Operate,
        at is Done ==> after is Done,
        at is Failed ==> after == at,
{
}

/// A step that the server refuses ends in an error that says which step it was,
/// what the server refused it with and, once it was read, the cause that the
/// device gives. A cancel has no cause to read.
pub proof fn a_refused_step_is_told(
    at: Operating,
    reply: ControlReply,
    asked: Operating,
    cause: ControlReply,
    after: Operating,
    code: DataAccessError,
)
    requires
        reply matches ControlReply::Written(Ok(results)) && results@.len() > 0 && results@[0]
            == Some(code),
        at.leads(reply, asked),
        asked.leads(cause, after),
    ensures
        at is Select || at is SelectOnly ==> asked == Operating::Explain(Stage::Select, code),
        at is Operate ==> asked == Operating::Explain(Stage::Operate, code),
        at is Select || at is SelectOnly || at is Operate ==> {
            &&& after matches Operating::Failed(e) && e.stage == (if at is Operate {
                Stage::Operate
            } else {
                Stage::Select
            }) && (e.source matches Some(s) && s@ == code.text()) && e.add_cause.0 as int == (
            match cause {
                ControlReply::Read(Ok(v)) => if v@.len() > 0 && !(v@[0]@ is AccessError) {
                    v@[0]@.signed() as int % 256
                } else {
                    AddCause::UNKNOWN().0 as int
                },
                _ => AddCause::UNKNOWN().0 as int,
            })
        },
        at is Cancel ==> {
            &&& after matches Operating::Failed(e) && e.stage == Stage::Cancel && e.add_cause
                == AddCause::UNKNOWN() && (e.source matches Some(s) && s@ == code.text())
        },
{
}

/// A step that got no answer ends in an error that says which step it was and
/// what the transport said.
pub proof fn an_unanswered_step_is_told(at: Operating, m: String, after: Operating)
    requires
        at is Select || at is SelectOnly || at is Operate || at is Cancel,
        at.leads(ControlReply::Written(Err(m)), after),
    ensures
        after matches Operating::Failed(e) && e.stage == (match at {
            Operating::Operate => Stage::Operate,
            Operating::Cancel => Stage::Cancel,
            _ => Stage::Select,
        }) && (e.source matches Some(s) && s@ == m@),
{
}

/// A sequence stays open behind a select that was accepted and behind nothing
/// else.
pub proof fn a_sequence_ends_with_its_operate(c: ControlObject, at: Operating, after: Operating)
    ensures
        at is Operate || at is Cancel ==> !c.sequence_after(at, after).in_sequence,
        at is Select && !(after is Operate) ==> !c.sequence_after(at, after).in_sequence,
        at is SelectOnly && !(after is Done) ==> !c.sequence_after(at, after).in_sequence,
        at is Select && after is Operate ==> c.sequence_after(at, after) == c.sequence(),
        at is SelectOnly && after is Done ==> c.sequence_after(at, after) == c.sequence(),
        c.sequence_after(at, after).ctl_num == c.sequence().ctl_num,
{
}

/// The message of a failed control names the step and, where the device gave a
/// diagnosis, that diagnosis; otherwise what the server or the transport said.
pub proof fn a_failed_control_is_explained(e: ControlError)
    ensures
        e.add_cause.0 != AddCause::NONE().0 && e.add_cause.0 != AddCause::UNKNOWN().0 ==> e.text()
            == "client: control "@ + e.stage.text() + " failed"@ + ": "@ + e.add_cause.text(),
        (e.add_cause.0 == AddCause::NONE().0 || e.add_cause.0 == AddCause::UNKNOWN().0) && (
        e.source is Some) ==> e.text() == "client: control "@ + e.stage.text() + " failed"@ + ": "@
            + e.source->0@,
        (e.add_cause.0 == AddCause::NONE().0 || e.add_cause.0 == AddCause::UNKNOWN().0) && (
        e.source is None) ==> e.text() == "client: control "@ + e.stage.text() + " failed"@,
{
}

/// A refused or unanswered step ends its sequence, and so does every operate
/// and every cancel; a select that was taken does not.
pub proof fn only_a_select_that_was_taken_goes_on(
    stage: Stage,
    results: Vec<Option<DataAccessError>>,
    e: String,
)
    ensures
        ControlObject::ends(stage, Err(e)),
        stage != Stage::Select ==> ControlObject::ends(stage, Ok(results)),
        stage == Stage::Select && results@.len() > 0 ==> (ControlObject::ends(stage, Ok(results))
            <==> results@[0] is Some),
        stage == Stage::Select && results@.len() == 0 ==> !ControlObject::ends(stage, Ok(results)),
{
}

/// The type of a command is looked for in the operate component first, and, of
/// an object that is selected with a value, in that of the select next.
pub proof fn the_type_is_looked_for_in_the_operate(c: ControlObject)
    ensures
        c.type_items()[0] == c.mms_item() + "$"@ + "Oper"@,
        c.control_model() == CtlModel::SboNormal || c.control_model() == CtlModel::SboEnhanced
            ==> c.type_items().len() == 2 && c.type_items()[1] == c.mms_item() + "$"@ + "SBOw"@,
        c.control_model() == CtlModel::DirectNormal || c.control_model()
            == CtlModel::DirectEnhanced || c.control_model() == CtlModel::StatusOnly
            ==> c.type_items().len() == 1,
{
}

/// The types are asked for one after another until one has the control value;
/// what was said of the last one is told where none has.
pub proof fn every_type_is_asked_for_until_one_has_the_value(
    items: Vec<String>,
    at: usize,
    reference: Seq<char>,
    ts: TypeSpec,
    e: Error,
    after: TypeSearch,
)
    requires
        at < items@.len(),
        ts.kind == Some(Type::Structure),
    ensures
        (exists|i: int|
            0 <= i < ts.components@.len() && (#[trigger] ts.components@[i]).name@ == "ctlVal"@) && (
        TypeSearch::Ask { items, at }).leads(reference, Ok(ts), after) ==> after is Found,
        !(exists|i: int|
            0 <= i < ts.components@.len() && (#[trigger] ts.components@[i]).name@ == "ctlVal"@) && (
        TypeSearch::Ask { items, at }).leads(reference, Ok(ts), after) && at + 1 < items@.len()
            ==> after == (TypeSearch::Ask { items, at: (at + 1) as usize }),
        (TypeSearch::Ask { items, at }).leads(reference, Err(e), after) && at + 1 < items@.len()
            ==> after == (TypeSearch::Ask { items, at: (at + 1) as usize }),
        (TypeSearch::Ask { items, at }).leads(reference, Err(e), after) && at + 1 == items@.len()
            ==> after == TypeSearch::Failed(e),
{
    if exists|i: int|
        0 <= i < ts.components@.len() && (#[trigger] ts.components@[i]).name@ == "ctlVal"@ {
        assert(has_component(ts, "ctlVal"@));
    }
    if has_component(ts, "ctlVal"@) {
        assert(exists|i: int|
            0 <= i < ts.components@.len() && (#[trigger] ts.components@[i]).name@ == "ctlVal"@);
    }
}

/// Each step is named by what it does.
pub proof fn a_step_has_its_name(x: Stage)
    ensures
        x == Stage::Select ==> x.text() == "select"@,
        x == Stage::Operate ==> x.text() == "operate"@,
        x == Stage::Cancel ==> x.text() == "cancel"@,
{
}

} // verus!
