//! Follows the control-related reports of an association: the LastApplError
//! that precedes a negative control response, and the CommandTermination that
//! concludes an enhanced-security operate.

use vstd::prelude::*;

use super::control::low_octet;
use crate::mms::{Data, InformationReport, Type, Value};
use crate::model::{AddCause, OrCat};
use crate::text::{ends_with, same};
use vstd::hash_map::StringHashMap;
use vstd::slice::slice_to_vec;

verus! {

/// The diagnosis a server reports when it refuses a control, ahead of the
/// negative response (IEC 61850-8-1).
#[derive(Debug, PartialEq, Eq)]
pub struct LastApplError {
    /// The control variable, `LD/LN$CO$DO$Oper`.
    pub cntrl_obj: String,
    /// 0 no error, 1 unknown, 2 timeout test not ok, 3 operator test not ok.
    /// The reason for a refusal is in [`add_cause`](LastApplError::add_cause).
    pub error: i64,
    pub origin: OrCat,
    pub or_ident: Vec<u8>,
    pub ctl_num: u8,
    pub add_cause: AddCause,
}

/// What a diagnosis says.
pub struct LastApplErrorView {
    pub cntrl_obj: Seq<char>,
    pub error: i64,
    pub origin: OrCat,
    pub or_ident: Seq<u8>,
    pub ctl_num: u8,
    pub add_cause: AddCause,
}

impl View for LastApplError {
    type V = LastApplErrorView;

    open spec fn view(&self) -> LastApplErrorView {
        LastApplErrorView {
            cntrl_obj: self.cntrl_obj@,
            error: self.error,
            origin: self.origin,
            or_ident: self.or_ident@,
            ctl_num: self.ctl_num,
            add_cause: self.add_cause,
        }
    }
}

impl Clone for LastApplError {
    fn clone(&self) -> (e: LastApplError)
        ensures
            e@ == self@,
    {
        LastApplError {
            cntrl_obj: self.cntrl_obj.clone(),
            error: self.error,
            origin: self.origin,
            or_ident: slice_to_vec(self.or_ident.as_slice()),
            ctl_num: self.ctl_num,
            add_cause: self.add_cause,
        }
    }
}

/// The category with a code; a code that is none is not supported.
pub open spec fn or_cat_of(code: u8) -> OrCat {
    if code == 1 {
        OrCat::BayControl
    } else if code == 2 {
        OrCat::StationControl
    } else if code == 3 {
        OrCat::RemoteControl
    } else if code == 4 {
        OrCat::AutomaticBay
    } else if code == 5 {
        OrCat::AutomaticStation
    } else if code == 6 {
        OrCat::AutomaticRemote
    } else if code == 7 {
        OrCat::Maintenance
    } else if code == 8 {
        OrCat::Process
    } else {
        OrCat::NotSupported
    }
}

/// What `{ CntrlObj, Error, Origin { orCat, orIdent }, ctlNum, AddCause }`
/// says; nothing where the data is no such structure.
pub open spec fn diagnosis_of(d: Data) -> Option<LastApplErrorView> {
    if d.kind() != Type::Structure || d.items().len() < 5 {
        None
    } else {
        let origin = d.items()[2];
        let known = origin.kind() == Type::Structure && origin.items().len() >= 2;
        Some(
            LastApplErrorView {
                cntrl_obj: d.items()[0].text(),
                error: d.items()[1].signed(),
                origin: if known {
                    or_cat_of(low_octet(origin.items()[0].signed() as int))
                } else {
                    OrCat::NotSupported
                },
                or_ident: if known {
                    origin.items()[1].octets()
                } else {
                    Seq::empty()
                },
                ctl_num: low_octet(d.items()[3].unsigned() as int),
                add_cause: AddCause(low_octet(d.items()[4].signed() as int)),
            },
        )
    }
}

fn octet_of_signed(v: i64) -> (b: u8)
    ensures
        b == low_octet(v as int),
{
    assert((v & 0xff) == v % 256) by (bit_vector);
    (v & 0xff) as u8
}

impl LastApplError {
    /// Decodes `{ CntrlObj, Error, Origin { orCat, orIdent }, ctlNum,
    /// AddCause }`.
    pub fn parse(v: &Value) -> (r: Option<LastApplError>)
        ensures
            match (r, diagnosis_of(v@)) {
                (Some(e), Some(w)) => e@ == w,
                (None, None) => true,
                _ => false,
            },
    {
        if v.type_of() != Type::Structure || v.len() < 5 {
            return None;
        }
        let cntrl_obj = match v.index(0) {
            Some(x) => x.text(),
            None => return None,
        };
        let error: i64 = match v.index(1) {
            Some(x) => x.as_i64(),
            None => return None,
        };
        let ctl_num: u8 = match v.index(3) {
            Some(x) => (x.as_u64() % 256) as u8,
            None => return None,
        };
        let add_cause = match v.index(4) {
            Some(x) => AddCause(octet_of_signed(x.as_i64())),
            None => return None,
        };
        let mut origin = OrCat::NotSupported;
        let mut or_ident: Vec<u8> = Vec::new();
        if let Some(o) = v.index(2) {
            if o.type_of() == Type::Structure && o.len() >= 2 {
                if let Some(c) = o.index(0) {
                    let code: u8 = octet_of_signed(c.as_i64());
                    origin = OrCat::from_code(code);
                    assert(origin == or_cat_of(code)) by {
                        assert(code <= 8 ==> origin.number() == code);
                    }
                }
                if let Some(b) = o.index(1) {
                    or_ident = b.bytes();
                }
            }
        }
        Some(LastApplError { cntrl_obj, error, origin, or_ident, ctl_num, add_cause })
    }
}

/// Names one operate: the `Oper` variable and its control number.
#[derive(Debug, PartialEq, Eq)]
pub struct TerminationKey {
    pub oper: String,
    pub ctl_num: u8,
}

/// A CommandTermination that was awaited: whose, and how the command ended.
#[derive(Debug, PartialEq, Eq)]
pub struct Termination {
    pub key: TerminationKey,
    pub cause: AddCause,
}

/// Tracks the control reports of one association.
///
/// Reports are handled in the order the server sent them, and a server sends a
/// LastApplError before the negative response it explains, so the diagnosis is
/// recorded by the time that response is returned to the caller.
pub struct ControlReports {
    /// The most recent LastApplError of each control variable.
    last: StringHashMap<LastApplError>,
    /// The most recent LastApplError of any object.
    latest: Option<LastApplError>,
    /// The CommandTerminations awaited.
    waiters: Vec<TerminationKey>,
}

/// The model of the reports seen.
pub struct ControlReportsView {
    pub last: Map<Seq<char>, LastApplErrorView>,
    pub latest: Option<LastApplErrorView>,
    pub waiters: Set<(Seq<char>, u8)>,
}

/// The awaited terminations in a list.
pub open spec fn awaited(w: Seq<TerminationKey>) -> Set<(Seq<char>, u8)> {
    Set::new(|k: (Seq<char>, u8)| exists|i: int| 0 <= i < w.len() && key_is(#[trigger] w[i], k))
}

/// Whether a key names an operate.
pub open spec fn key_is(key: TerminationKey, k: (Seq<char>, u8)) -> bool {
    key.oper@ == k.0 && key.ctl_num == k.1
}

impl View for ControlReports {
    type V = ControlReportsView;

    closed spec fn view(&self) -> ControlReportsView {
        ControlReportsView {
            last: self.last@.map_values(|e: LastApplError| e@),
            latest: match self.latest {
                Some(e) => Some(e@),
                None => None,
            },
            waiters: awaited(self.waiters@),
        }
    }
}

/// Whether a variable name is that of a LastApplError.
pub open spec fn is_lae(domain: Seq<char>, item: Seq<char>) -> bool {
    domain.len() == 0 && item == "LastApplError"@
}

/// Whether a variable name is that of an operate.
pub open spec fn is_oper_name(domain: Seq<char>, item: Seq<char>) -> bool {
    domain.len() > 0 && "$Oper"@.is_suffix_of(item)
}

/// Whether a report lists variables with a value each.
pub open spec fn lists_variables(ir: InformationReport) -> bool {
    !ir.is_vmd_named && ir.var_refs@.len() > 0 && ir.var_refs@.len() == ir.values@.len()
}

/// The diagnosis among the first `n` variables of a report: the last of them
/// counts.
pub open spec fn diagnosis_in(ir: InformationReport, n: nat) -> Option<LastApplErrorView>
    decreases n,
{
    if n == 0 {
        None
    } else {
        let r = ir.var_refs@[n - 1];
        if is_lae(r.domain@, r.item@) {
            diagnosis_of(ir.values@[n - 1]@)
        } else {
            diagnosis_in(ir, (n - 1) as nat)
        }
    }
}

/// The operate among the first `n` variables of a report: the last of them
/// counts.
pub open spec fn operate_in(ir: InformationReport, n: nat) -> Option<nat>
    decreases n,
{
    if n == 0 {
        None
    } else {
        let r = ir.var_refs@[n - 1];
        if is_oper_name(r.domain@, r.item@) {
            Some((n - 1) as nat)
        } else {
            operate_in(ir, (n - 1) as nat)
        }
    }
}

/// What a report says of why a control was refused, if anything.
pub open spec fn diagnosis(ir: InformationReport) -> Option<LastApplErrorView> {
    if lists_variables(ir) {
        diagnosis_in(ir, ir.var_refs@.len())
    } else {
        None
    }
}

/// The operate that a report concludes, if any.
pub open spec fn concluded(ir: InformationReport) -> Option<(Seq<char>, u8)> {
    match operate_in(ir, ir.var_refs@.len()) {
        Some(i) if lists_variables(ir) => {
            let d = ir.values@[i as int]@;
            if d.kind() != Type::Structure || d.items().len() < 3 {
                None
            } else {
                Some(
                    (ir.var_refs@[i as int].text(), low_octet(d.items()[2].unsigned() as int)),
                )
            }
        },
        _ => None,
    }
}

impl ControlReportsView {
    /// The state after the diagnosis in a report was recorded.
    pub open spec fn recorded(self, ir: InformationReport) -> ControlReportsView {
        match diagnosis(ir) {
            None => self,
            Some(e) => ControlReportsView {
                last: self.last.insert(e.cntrl_obj, e),
                latest: Some(e),
                ..self
            },
        }
    }

    /// The state in which a termination is awaited.
    pub open spec fn awaiting(self, k: (Seq<char>, u8)) -> ControlReportsView {
        ControlReportsView { waiters: self.waiters.insert(k), ..self }
    }

    /// The state in which a termination is not awaited.
    pub open spec fn released(self, k: (Seq<char>, u8)) -> ControlReportsView {
        ControlReportsView { waiters: self.waiters.remove(k), ..self }
    }

    /// The state after a report was handled.
    pub open spec fn after(self, ir: InformationReport) -> ControlReportsView {
        match concluded(ir) {
            None => self.recorded(ir),
            Some(k) => self.recorded(ir).released(k),
        }
    }

    /// The operate whose awaited termination a report brings, and the cause.
    pub open spec fn terminated(self, ir: InformationReport) -> Option<((Seq<char>, u8), AddCause)> {
        match concluded(ir) {
            Some(k) if self.waiters.contains(k) => Some(
                (
                    k,
                    match diagnosis(ir) {
                        Some(e) => e.add_cause,
                        None => AddCause::NONE(),
                    },
                ),
            ),
            _ => None,
        }
    }

    /// The cause that a server gave for refusing a control variable.
    pub open spec fn cause(self, cntrl_obj: Seq<char>, ctl_num: u8) -> AddCause {
        if self.last.contains_key(cntrl_obj) && self.last[cntrl_obj].ctl_num == ctl_num {
            self.last[cntrl_obj].add_cause
        } else {
            AddCause::UNKNOWN()
        }
    }
}

proof fn lemma_awaited_remove(w: Seq<TerminationKey>, i: int, k: (Seq<char>, u8))
    requires
        0 <= i < w.len(),
        key_is(w[i], k),
        forall|a: int, b: int|
            0 <= a < w.len() && 0 <= b < w.len() && key_is(#[trigger] w[a], k) && key_is(
                #[trigger] w[b],
                k,
            ) ==> a == b,
    ensures
        awaited(w.remove(i)) == awaited(w).remove(k),
{
    let after = w.remove(i);
    assert forall|x: (Seq<char>, u8)| awaited(after).contains(x) == awaited(w).remove(k).contains(
        x,
    ) by {
        if awaited(after).contains(x) {
            let j = choose|j: int| 0 <= j < after.len() && key_is(#[trigger] after[j], x);
            if j < i {
                assert(key_is(w[j], x));
            } else {
                assert(key_is(w[j + 1], x));
            }
        }
        if awaited(w).remove(k).contains(x) {
            let j = choose|j: int| 0 <= j < w.len() && key_is(#[trigger] w[j], x);
            assert(j != i);
            if j < i {
                assert(key_is(after[j], x));
            } else {
                assert(key_is(after[j - 1], x));
            }
        }
    }
    assert(awaited(after) =~= awaited(w).remove(k));
}

impl ControlReports {
    /// No termination is awaited twice.
    pub closed spec fn wf(&self) -> bool {
        forall|k: (Seq<char>, u8), a: int, b: int|
            0 <= a < self.waiters@.len() && 0 <= b < self.waiters@.len() && #[trigger] key_is(
                self.waiters@[a],
                k,
            ) && #[trigger] key_is(self.waiters@[b], k) ==> a == b
    }

    pub fn new() -> (c: ControlReports)
        ensures
            c.wf(),
            c@.last == Map::<Seq<char>, LastApplErrorView>::empty(),
            c@.latest is None,
            c@.waiters == Set::<(Seq<char>, u8)>::empty(),
    {
        let c = ControlReports { last: StringHashMap::new(), latest: None, waiters: Vec::new() };
        assert(c@.last =~= Map::<Seq<char>, LastApplErrorView>::empty());
        assert(c@.waiters =~= Set::<(Seq<char>, u8)>::empty());
        c
    }

    /// Inspects an information report for control reports:
    ///
    /// ```text
    /// LastApplError              a refused select, operate or cancel
    /// Oper                       CommandTermination+
    /// LastApplError, Oper        CommandTermination-
    /// ```
    ///
    /// The termination is returned where it was awaited, and is then awaited
    /// no longer.
    pub fn handle(&mut self, ir: &InformationReport) -> (r: Option<Termination>)
        requires
            old(self).wf(),
        ensures
            final(self).wf(),
            final(self)@ == old(self)@.after(*ir),
            match (r, old(self)@.terminated(*ir)) {
                (Some(t), Some((k, cause))) => key_is(t.key, k) && t.cause == cause,
                (None, None) => true,
                _ => false,
            },
    {
        if ir.is_vmd_named || ir.var_refs.len() == 0 || ir.var_refs.len() != ir.values.len() {
            return None;
        }
        let mut lae: Option<LastApplError> = None;
        let mut oper_at: Option<usize> = None;
        let mut i: usize = 0;
        while i < ir.var_refs.len()
            invariant
                i <= ir.var_refs@.len() == ir.values@.len(),
                match (lae, diagnosis_in(*ir, i as nat)) {
                    (Some(e), Some(w)) => e@ == w,
                    (None, None) => true,
                    _ => false,
                },
                match (oper_at, operate_in(*ir, i as nat)) {
                    (Some(a), Some(b)) => a == b && b < i,
                    (None, None) => true,
                    _ => false,
                },
            decreases ir.var_refs@.len() - i,
        {
            let r = &ir.var_refs[i];
            if r.domain.as_str().is_empty() && same(r.item.as_str(), "LastApplError") {
                lae = LastApplError::parse(&ir.values[i]);
            } else if !r.domain.as_str().is_empty() && ends_with(r.item.as_str(), "$Oper") {
                oper_at = Some(i);
            }
            i = i + 1;
        }
        let mut cause = AddCause::NONE();
        if let Some(e) = &lae {
            cause = e.add_cause;
            self.last.insert(e.cntrl_obj.clone(), e.clone());
            self.latest = Some(e.clone());
        }
        proof {
            let want = old(self)@.recorded(*ir);
            assert(self@.last =~= want.last);
            assert(self@.waiters =~= want.waiters);
        }
        let at: usize = match oper_at {
            Some(at) => at,
            None => return None,
        };
        let oper = &ir.values[at];
        if oper.type_of() != Type::Structure || oper.len() < 3 {
            return None;
        }
        let ctl_num: u8 = match oper.index(2) {
            Some(x) => (x.as_u64() % 256) as u8,
            None => 0,
        };
        let name = ir.var_refs[at].to_text();
        if self.drop_waiter(name.as_str(), ctl_num) {
            return Some(Termination { key: TerminationKey { oper: name, ctl_num }, cause });
        }
        assert(old(self)@.waiters.remove((name@, ctl_num)) =~= old(self)@.waiters);
        None
    }

    /// Drops an awaited termination, and reports whether there was one.
    fn drop_waiter(&mut self, oper: &str, ctl_num: u8) -> (b: bool)
        requires
            old(self).wf(),
        ensures
            final(self).wf(),
            b == old(self)@.waiters.contains((oper@, ctl_num)),
            final(self)@ == old(self)@.released((oper@, ctl_num)),
    {
        let ghost k = (oper@, ctl_num);
        let ghost before = self.waiters@;
        let mut i: usize = 0;
        while i < self.waiters.len()
            invariant
                i <= self.waiters@.len(),
                before == self.waiters@,
                *self == *old(self),
                k == (oper@, ctl_num),
                self.wf(),
                forall|j: int| 0 <= j < i ==> !key_is(#[trigger] self.waiters@[j], k),
            decreases self.waiters@.len() - i,
        {
            if self.waiters[i].ctl_num == ctl_num && same(self.waiters[i].oper.as_str(), oper) {
                proof {
                    assert(key_is(self.waiters@[i as int], k));
                    assert forall|a: int, b: int|
                        0 <= a < before.len() && 0 <= b < before.len() && key_is(
                            #[trigger] before[a],
                            k,
                        ) && key_is(#[trigger] before[b], k) implies a == b by {}
                    lemma_awaited_remove(before, i as int, k);
                }
                self.waiters.remove(i);
                proof {
                    assert forall|x: (Seq<char>, u8), a: int, b: int|
                        0 <= a < self.waiters@.len() && 0 <= b < self.waiters@.len()
                            && #[trigger] key_is(self.waiters@[a], x) && #[trigger] key_is(
                            self.waiters@[b],
                            x,
                        ) implies a == b by {
                        let a2 = if a < i {
                            a
                        } else {
                            a + 1
                        };
                        let b2 = if b < i {
                            b
                        } else {
                            b + 1
                        };
                        assert(key_is(before[a2], x) && key_is(before[b2], x));
                    }
                }
                return true;
            }
            i = i + 1;
        }
        assert(awaited(before).remove(k) =~= awaited(before));
        false
    }

    /// Returns the cause a server gave for refusing the control variable
    /// `cntrl_obj` (`LD/LN$CO$DO$Oper`) with `ctl_num`, or
    /// [`AddCause::UNKNOWN`] when it gave none.
    pub fn cause_for(&self, cntrl_obj: &str, ctl_num: u8) -> (c: AddCause)
        ensures
            c == self@.cause(cntrl_obj@, ctl_num),
    {
        if let Some(e) = self.last.get(cntrl_obj) {
            if e.ctl_num == ctl_num {
                return e.add_cause;
            }
        }
        AddCause::UNKNOWN()
    }

    /// Returns the most recent diagnosis.
    pub fn latest(&self) -> (r: Option<LastApplError>)
        ensures
            match (r, self@.latest) {
                (Some(e), Some(w)) => e@ == w,
                (None, None) => true,
                _ => false,
            },
    {
        match &self.latest {
            Some(e) => Some(e.clone()),
            None => None,
        }
    }

    /// Registers interest in the CommandTermination of the operate of `oper`
    /// (`LD/LN$CO$DO$Oper`) with `ctl_num`. It must be called before the
    /// operate is sent.
    pub fn await_termination(&mut self, oper: &str, ctl_num: u8)
        requires
            old(self).wf(),
        ensures
            final(self).wf(),
            final(self)@ == old(self)@.awaiting((oper@, ctl_num)),
    {
        let ghost k = (oper@, ctl_num);
        let ghost all = self@.waiters;
        self.drop_waiter(oper, ctl_num);
        let ghost before = self.waiters@;
        self.waiters.push(TerminationKey { oper: oper.to_owned(), ctl_num });
        proof {
            let now = self.waiters@;
            assert(!awaited(before).contains(k));
            assert forall|x: (Seq<char>, u8)| awaited(now).contains(x) == all.insert(k).contains(
                x,
            ) by {
                if awaited(now).contains(x) {
                    let j = choose|j: int| 0 <= j < now.len() && key_is(#[trigger] now[j], x);
                    if j < before.len() {
                        assert(key_is(before[j], x));
                        assert(awaited(before).contains(x));
                    }
                }
                if all.insert(k).contains(x) {
                    if x == k {
                        assert(key_is(now[before.len() as int], x));
                    } else {
                        assert(awaited(before).contains(x));
                        let j = choose|j: int|
                            0 <= j < before.len() && key_is(#[trigger] before[j], x);
                        assert(key_is(now[j], x));
                    }
                }
            }
            assert(awaited(now) =~= all.insert(k));
            assert forall|x: (Seq<char>, u8), a: int, b: int|
                0 <= a < now.len() && 0 <= b < now.len() && #[trigger] key_is(now[a], x)
                    && #[trigger] key_is(now[b], x) implies a == b by {
                let n = before.len() as int;
                if a < n && b < n {
                    assert(key_is(before[a], x) && key_is(before[b], x));
                } else if a < n {
                    assert(key_is(before[a], k));
                    assert(awaited(before).contains(k));
                } else if b < n {
                    assert(key_is(before[b], k));
                    assert(awaited(before).contains(k));
                }
            }
        }
    }

    /// Releases the registration of a termination that is awaited no longer.
    pub fn release(&mut self, oper: &str, ctl_num: u8)
        requires
            old(self).wf(),
        ensures
            final(self).wf(),
            final(self)@ == old(self)@.released((oper@, ctl_num)),
    {
        self.drop_waiter(oper, ctl_num);
    }
}

/// Terminations resolve their own waiter only: a report leaves every operate
/// awaited that it does not conclude, and the one that it does conclude is not
/// awaited any longer.
pub proof fn a_termination_resolves_its_own_waiter_only(
    c: ControlReportsView,
    ir: InformationReport,
    other: (Seq<char>, u8),
)
    ensures
        c.after(ir).waiters.contains(other) == (c.waiters.contains(other) && concluded(ir) != Some(
            other,
        )),
        c.terminated(ir) matches Some((k, _)) ==> concluded(ir) == Some(k) && c.waiters.contains(k),
{
}

/// A registration that is released leaves no trace.
pub proof fn a_released_registration_leaves_no_trace(c: ControlReportsView, k: (Seq<char>, u8))
    requires
        !c.waiters.contains(k),
    ensures
        c.awaiting(k).released(k) == c,
{
    assert(c.waiters.insert(k).remove(k) =~= c.waiters);
}

/// A refusal is explained: once a report with a diagnosis has been handled, the
/// cause is found for the object and the control number that it names, and
/// what was known of other objects stays known.
pub proof fn a_refusal_is_explained(
    c: ControlReportsView,
    ir: InformationReport,
    e: LastApplErrorView,
    other: Seq<char>,
    ctl_num: u8,
)
    requires
        diagnosis(ir) == Some(e),
    ensures
        c.after(ir).latest == Some(e),
        c.after(ir).cause(e.cntrl_obj, e.ctl_num) == e.add_cause,
        other != e.cntrl_obj ==> c.after(ir).cause(other, ctl_num) == c.cause(other, ctl_num),
{
}

/// A diagnosis says what its structure holds, each part in its place: the
/// control variable, the error, who gave the command, its control number, and
/// the cause.
pub proof fn a_diagnosis_reads_as_it_was_sent(
    cntrl_obj: Data,
    error: i64,
    or_cat: OrCat,
    or_ident: Seq<u8>,
    ctl_num: u8,
    cause: u8,
    more: Seq<Data>,
)
    ensures
        diagnosis_of(
            Data::Structure(
                seq![
                    cntrl_obj,
                    Data::Integer(error),
                    Data::Structure(
                        seq![Data::Integer(or_cat.number() as i64), Data::OctetString(or_ident)],
                    ),
                    Data::Unsigned(ctl_num as u64),
                    Data::Integer(cause as i64),
                ] + more,
            ),
        ) == Some(
            LastApplErrorView {
                cntrl_obj: cntrl_obj.text(),
                error,
                origin: or_cat,
                or_ident,
                ctl_num,
                add_cause: AddCause(cause),
            },
        ),
{
}

/// A structure of fewer than five members is no diagnosis, and neither is
/// anything that is no structure.
pub proof fn a_short_structure_is_no_diagnosis(d: Data)
    ensures
        diagnosis_of(d) is Some <==> d is Structure && d.items().len() >= 5,
        diagnosis_of(d) matches Some(e) ==> e.cntrl_obj == d.items()[0].text() && e.error
            == d.items()[1].signed() && e.ctl_num as int == d.items()[3].unsigned() % 256
            && e.add_cause.0 as int == d.items()[4].signed() as int % 256,
{
}

/// A report brings the diagnosis of the last `LastApplError` that it lists, and
/// none where it lists none. A report that is no list of variables brings none.
pub proof fn a_report_brings_its_last_diagnosis(ir: InformationReport, i: int)
    ensures
        diagnosis(ir) is Some ==> !ir.is_vmd_named && ir.var_refs@.len() == ir.values@.len(),
        !ir.is_vmd_named && ir.var_refs@.len() == ir.values@.len() && 0 <= i < ir.var_refs@.len()
            && ir.var_refs@[i].domain@ == ""@ && ir.var_refs@[i].item@ == "LastApplError"@ && (
        forall|j: int|
            i < j < ir.var_refs@.len() ==> !((#[trigger] ir.var_refs@[j]).domain@ == ""@
                && ir.var_refs@[j].item@ == "LastApplError"@)) ==> diagnosis(ir) == diagnosis_of(
            ir.values@[i]@,
        ),
        (forall|j: int|
            0 <= j < ir.var_refs@.len() ==> !((#[trigger] ir.var_refs@[j]).domain@ == ""@
                && ir.var_refs@[j].item@ == "LastApplError"@)) ==> diagnosis(ir) is None,
{
    reveal_strlit("");
    lemma_diagnosis_in(ir, ir.var_refs@.len(), i);
}

proof fn lemma_diagnosis_in(ir: InformationReport, n: nat, i: int)
    requires
        n <= ir.var_refs@.len(),
    ensures
        0 <= i < n && ir.var_refs@[i].domain@ == ""@ && ir.var_refs@[i].item@ == "LastApplError"@
            && (forall|j: int|
            i < j < n ==> !((#[trigger] ir.var_refs@[j]).domain@ == ""@ && ir.var_refs@[j].item@
                == "LastApplError"@)) ==> diagnosis_in(ir, n) == diagnosis_of(ir.values@[i]@),
        (forall|j: int|
            0 <= j < n ==> !((#[trigger] ir.var_refs@[j]).domain@ == ""@ && ir.var_refs@[j].item@
                == "LastApplError"@)) ==> diagnosis_in(ir, n) is None,
    decreases n,
{
    reveal_strlit("");
    if n > 0 {
        lemma_diagnosis_in(ir, (n - 1) as nat, i);
        let d = ir.var_refs@[n - 1].domain@;
        if d.len() == 0 {
            assert(d =~= ""@);
        }
    }
}

/// A report concludes the operate of the last `Oper` variable that it lists,
/// with the control number that the command carried.
pub proof fn a_report_concludes_its_last_operate(ir: InformationReport, i: int)
    requires
        !ir.is_vmd_named,
        ir.var_refs@.len() == ir.values@.len(),
        0 <= i < ir.var_refs@.len(),
        ir.var_refs@[i].domain@.len() > 0,
        "$Oper"@.is_suffix_of(ir.var_refs@[i].item@),
        forall|j: int|
            i < j < ir.var_refs@.len() ==> (#[trigger] ir.var_refs@[j]).domain@.len() == 0
                || !"$Oper"@.is_suffix_of(ir.var_refs@[j].item@),
    ensures
        concluded(ir) is Some <==> ir.values@[i]@ is Structure && ir.values@[i]@.items().len() >= 3,
        concluded(ir) matches Some((name, n)) ==> name == ir.var_refs@[i].text() && n as int
            == ir.values@[i]@.items()[2].unsigned() % 256,
{
    lemma_operate_in(ir, ir.var_refs@.len(), i);
}

proof fn lemma_operate_in(ir: InformationReport, n: nat, i: int)
    requires
        0 <= i < n <= ir.var_refs@.len(),
        ir.var_refs@[i].domain@.len() > 0,
        "$Oper"@.is_suffix_of(ir.var_refs@[i].item@),
        forall|j: int|
            i < j < n ==> (#[trigger] ir.var_refs@[j]).domain@.len() == 0
                || !"$Oper"@.is_suffix_of(ir.var_refs@[j].item@),
    ensures
        operate_in(ir, n) == Some(i as nat),
    decreases n,
{
    if i < n - 1 {
        assert(ir.var_refs@[n - 1].domain@.len() == 0 || !"$Oper"@.is_suffix_of(
            ir.var_refs@[n - 1].item@,
        ));
        lemma_operate_in(ir, (n - 1) as nat, i);
    }
}

/// A command that is awaited ends with the cause that came with its
/// termination, or with none where none came; one that is not awaited ends
/// unheard.
pub proof fn a_termination_carries_its_cause(
    c: ControlReportsView,
    ir: InformationReport,
    k: (Seq<char>, u8),
)
    requires
        concluded(ir) == Some(k),
    ensures
        c.awaiting(k).terminated(ir) is Some,
        c.awaiting(k).terminated(ir).unwrap().0 == k,
        diagnosis(ir) is None ==> c.awaiting(k).terminated(ir).unwrap().1.0 == AddCause::NONE().0,
        diagnosis(ir) is Some ==> c.awaiting(k).terminated(ir).unwrap().1 == diagnosis(
            ir,
        ).unwrap().add_cause,
        c.released(k).terminated(ir) is None,
{
}

/// The cause of a refusal is found for the control variable and the number that
/// it was given for, and for no other number.
pub proof fn a_cause_belongs_to_its_command(
    c: ControlReportsView,
    cntrl_obj: Seq<char>,
    ctl_num: u8,
)
    ensures
        c.last.contains_key(cntrl_obj) && c.last[cntrl_obj].ctl_num == ctl_num ==> c.cause(
            cntrl_obj,
            ctl_num,
        ) == c.last[cntrl_obj].add_cause,
        c.last.contains_key(cntrl_obj) && c.last[cntrl_obj].ctl_num != ctl_num ==> c.cause(
            cntrl_obj,
            ctl_num,
        ) == AddCause::UNKNOWN(),
        !c.last.contains_key(cntrl_obj) ==> c.cause(cntrl_obj, ctl_num) == AddCause::UNKNOWN(),
{
}

/// An operate that is awaited is found under its own variable and number, and
/// no other is.
pub proof fn an_awaited_operate_is_found(
    w: Seq<TerminationKey>,
    key: TerminationKey,
    oper: Seq<char>,
    ctl_num: u8,
)
    ensures
        !awaited(Seq::empty()).contains((oper, ctl_num)),
        awaited(w.push(key)).contains((oper, ctl_num)) <==> awaited(w).contains((oper, ctl_num))
            || (key.oper@ == oper && key.ctl_num == ctl_num),
{
    let k = (oper, ctl_num);
    let all = w.push(key);
    if awaited(w).contains(k) {
        let i = choose|i: int| 0 <= i < w.len() && key_is(#[trigger] w[i], k);
        assert(key_is(all[i], k));
    }
    if key_is(key, k) {
        assert(key_is(all[w.len() as int], k));
    }
    if awaited(all).contains(k) {
        let i = choose|i: int| 0 <= i < all.len() && key_is(#[trigger] all[i], k);
        if i < w.len() {
            assert(key_is(w[i], k));
        }
    }
}

} // verus!
