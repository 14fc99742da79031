//! Exercising every feature a server exposes, with a PASS/FAIL/SKIP report.
//!
//! This is the interop oracle: a difference between two reports is a difference
//! in wire behaviour worth investigating.
//!
//! A feature the server does not implement is a SKIP, not a FAIL: no device
//! implements everything, and a sweep that failed on absent optional services
//! would tell you nothing about the ones that matter.

use vstd::prelude::*;

use crate::client::Rcb;
use crate::mms::Value;
use crate::model::{LogicalDevice, LogicalNode, Model, ObjectReference, OptFlds, TrgOps};
use crate::text::{
    chars, decimal, holds, push_char, push_decimal, push_str, string_between, texts,
};
use crate::ui::files::{is_dir, marks_dir, FileEntry};

verus! {

/// What came of a step.
#[derive(Debug, Clone, Copy, PartialEq, Eq, Structural)]
pub enum Outcome {
    Pass,
    Fail,
    Skip,
}

impl Outcome {
    /// The word for an outcome.
    pub open spec fn text(self) -> Seq<char> {
        match self {
            Outcome::Pass => "PASS"@,
            Outcome::Fail => "FAIL"@,
            Outcome::Skip => "SKIP"@,
        }
    }

    pub fn tag(self) -> (s: &'static str)
        ensures
            s@ == self.text(),
    {
        match self {
            Outcome::Pass => "PASS",
            Outcome::Fail => "FAIL",
            Outcome::Skip => "SKIP",
        }
    }
}

/// One step and what came of it.
#[derive(Debug)]
pub struct Record {
    pub outcome: Outcome,
    pub name: String,
    pub detail: String,
}

/// What a record holds.
pub struct RecordView {
    pub outcome: Outcome,
    pub name: Seq<char>,
    pub detail: Seq<char>,
}

impl View for Record {
    type V = RecordView;

    open spec fn view(&self) -> RecordView {
        RecordView { outcome: self.outcome, name: self.name@, detail: self.detail@ }
    }
}

/// A step that passed.
pub open spec fn passed(name: Seq<char>, detail: Seq<char>) -> RecordView {
    RecordView { outcome: Outcome::Pass, name, detail }
}

/// A step that failed.
pub open spec fn failed(name: Seq<char>, detail: Seq<char>) -> RecordView {
    RecordView { outcome: Outcome::Fail, name, detail }
}

/// A step that was skipped.
pub open spec fn skipped(name: Seq<char>, detail: Seq<char>) -> RecordView {
    RecordView { outcome: Outcome::Skip, name, detail }
}

impl Record {
    /// The line that shows a record.
    pub fn line(&self) -> (s: String)
        ensures
            s@ == self.outcome.text() + "  "@ + self.name@ + (if self.detail@.len() == 0 {
                Seq::empty()
            } else {
                "  ("@ + self.detail@ + ")"@
            }),
    {
        // The tags are four letters in a column of five, with a blank behind.
        let mut s = self.outcome.tag().to_owned();
        push_str(&mut s, "  ");
        push_str(&mut s, self.name.as_str());
        let ghost head = s@;
        if !self.detail.as_str().is_empty() {
            push_str(&mut s, "  (");
            push_str(&mut s, self.detail.as_str());
            push_str(&mut s, ")");
            assert(s@ =~= head + ("  ("@ + self.detail@ + ")"@));
        } else {
            assert(head + Seq::<char>::empty() =~= head);
        }
        s
    }
}

/// The records of a sweep, in order.
#[derive(Debug)]
pub struct Report {
    pub lines: Vec<Record>,
}

impl View for Report {
    type V = Seq<RecordView>;

    open spec fn view(&self) -> Seq<RecordView> {
        self.lines@.map_values(|r: Record| r@)
    }
}

impl Default for Report {
    fn default() -> (r: Report)
        ensures
            r@ == Seq::<RecordView>::empty(),
    {
        let r = Report { lines: Vec::new() };
        assert(r@ =~= Seq::<RecordView>::empty());
        r
    }
}

/// How many of the records have an outcome.
pub open spec fn tally(records: Seq<RecordView>, want: Outcome) -> nat
    decreases records.len(),
{
    if records.len() == 0 {
        0
    } else {
        tally(records.drop_last(), want) + (if records.last().outcome == want {
            1nat
        } else {
            0nat
        })
    }
}

/// The three outcomes are all there are: every record is counted once.
pub proof fn every_record_is_counted_once(records: Seq<RecordView>)
    ensures
        tally(records, Outcome::Pass) + tally(records, Outcome::Fail) + tally(
            records,
            Outcome::Skip,
        ) == records.len(),
    decreases records.len(),
{
    if records.len() > 0 {
        every_record_is_counted_once(records.drop_last());
    }
}

/// The totals of a sweep.
pub open spec fn summary_text(records: Seq<RecordView>) -> Seq<char> {
    decimal(tally(records, Outcome::Pass)) + " passed, "@ + decimal(
        tally(records, Outcome::Fail),
    ) + " failed, "@ + decimal(tally(records, Outcome::Skip)) + " skipped"@
}

impl Report {
    pub fn record(&mut self, outcome: Outcome, name: &str, detail: &str)
        ensures
            final(self)@ == old(self)@.push(
                (RecordView { outcome, name: name@, detail: detail@ }),
            ),
    {
        self.lines.push(Record { outcome, name: name.to_owned(), detail: detail.to_owned() });
        assert(self@ =~= old(self)@.push((RecordView { outcome, name: name@, detail: detail@ })));
    }

    pub fn pass(&mut self, name: &str, detail: &str)
        ensures
            final(self)@ == old(self)@.push(passed(name@, detail@)),
    {
        self.record(Outcome::Pass, name, detail);
    }

    pub fn fail(&mut self, name: &str, detail: &str)
        ensures
            final(self)@ == old(self)@.push(failed(name@, detail@)),
    {
        self.record(Outcome::Fail, name, detail);
    }

    pub fn skip(&mut self, name: &str, detail: &str)
        ensures
            final(self)@ == old(self)@.push(skipped(name@, detail@)),
    {
        self.record(Outcome::Skip, name, detail);
    }

    /// Records the outcome of a fallible step, treating an error as a failure.
    pub fn check<T>(&mut self, name: &str, result: Result<T, String>) -> (r: Option<T>)
        ensures
            final(self)@ == old(self)@.push(check_note(name@, told(result))),
            match result {
                Ok(v) => r == Some(v),
                Err(_) => r is None,
            },
    {
        assert(""@ =~= Seq::<char>::empty()) by {
            reveal_strlit("");
        }
        match result {
            Ok(v) => {
                self.pass(name, "");
                Some(v)
            },
            Err(e) => {
                self.fail(name, e.as_str());
                None
            },
        }
    }

    pub fn count(&self, want: Outcome) -> (n: usize)
        ensures
            n == tally(self@, want),
    {
        let mut n: usize = 0;
        let mut i: usize = 0;
        assert(self@.take(0) =~= Seq::<RecordView>::empty());
        while i < self.lines.len()
            invariant
                i <= self.lines@.len(),
                n <= i,
                n == tally(self@.take(i as int), want),
            decreases self.lines@.len() - i,
        {
            assert(self@.take(i + 1).drop_last() =~= self@.take(i as int));
            assert(self@[i as int] == self.lines@[i as int]@);
            if self.lines[i].outcome == want {
                n = n + 1;
            }
            i = i + 1;
        }
        assert(self@.take(i as int) =~= self@);
        n
    }

    pub fn summary(&self) -> (s: String)
        ensures
            s@ == summary_text(self@),
    {
        let mut s = String::new();
        push_decimal(&mut s, self.count(Outcome::Pass) as u64);
        push_str(&mut s, " passed, ");
        push_decimal(&mut s, self.count(Outcome::Fail) as u64);
        push_str(&mut s, " failed, ");
        push_decimal(&mut s, self.count(Outcome::Skip) as u64);
        push_str(&mut s, " skipped");
        assert(s@ =~= summary_text(self@));
        s
    }

    /// The exit code of the process: a failure anywhere is one.
    pub fn exit_code(&self) -> (code: i32)
        ensures
            code == (if tally(self@, Outcome::Fail) > 0 {
                1int
            } else {
                0int
            }),
    {
        if self.count(Outcome::Fail) > 0 {
            1
        } else {
            0
        }
    }
}

/// A result with its error as a text.
pub open spec fn told<T>(r: Result<T, String>) -> Result<T, Seq<char>> {
    match r {
        Ok(v) => Ok(v),
        Err(e) => Err(e@),
    }
}

/// A text or an error, as texts.
pub open spec fn told_text(r: Result<String, String>) -> Result<Seq<char>, Seq<char>> {
    match r {
        Ok(v) => Ok(v@),
        Err(e) => Err(e@),
    }
}

/// The record of a fallible step.
pub open spec fn check_note<T>(name: Seq<char>, r: Result<T, Seq<char>>) -> RecordView {
    match r {
        Ok(_) => passed(name, Seq::empty()),
        Err(e) => failed(name, e),
    }
}

/// `label` in the brackets behind a name.
pub open spec fn labelled(name: Seq<char>, label: Seq<char>) -> Seq<char> {
    name + "("@ + label + ")"@
}

fn with_label(name: &str, label: &str) -> (s: String)
    ensures
        s@ == labelled(name@, label@),
{
    let mut s = name.to_owned();
    push_str(&mut s, "(");
    push_str(&mut s, label);
    push_str(&mut s, ")");
    s
}

/// A number in front of a text.
pub open spec fn counted(n: int, what: Seq<char>) -> Seq<char> {
    decimal(n as nat) + what
}

fn count_text(n: usize, what: &str) -> (s: String)
    ensures
        s@ == counted(n as int, what@),
{
    let mut s = String::new();
    push_decimal(&mut s, n as u64);
    push_str(&mut s, what);
    assert(s@ =~= counted(n as int, what@));
    s
}

fn two(a: &str, b: &str) -> (s: String)
    ensures
        s@ == a@ + b@,
{
    let mut s = a.to_owned();
    push_str(&mut s, b);
    s
}

// ---- browsing ----
impl Report {
    /// Records what asking for the logical devices came to, and returns the one
    /// to work with; without one there is nothing to sweep.
    pub fn on_devices(&mut self, devices: Result<Vec<String>, String>) -> (r: Option<String>)
        ensures
            match devices {
                Ok(names) => {
                    let listed = old(self)@.push(
                        passed("getNameList(domain)"@, Seq::empty()),
                    );
                    if names@.len() == 0 {
                        &&& r is None
                        &&& final(self)@ == listed.push(
                            failed("logical devices"@, "the server reports none"@),
                        )
                    } else {
                        &&& r matches Some(ld) && ld@ == names@[0]@
                        &&& final(self)@ == listed
                    }
                },
                Err(e) => r is None && final(self)@ == old(self)@.push(
                    failed("getNameList(domain)"@, e@),
                ),
            },
    {
        match self.check("getNameList(domain)", devices) {
            None => None,
            Some(names) => {
                if names.len() == 0 {
                    self.fail("logical devices", "the server reports none");
                    None
                } else {
                    Some(names[0].clone())
                }
            },
        }
    }

    /// Records what asking for the logical nodes came to: their number.
    pub fn on_nodes(&mut self, nodes: Result<usize, String>)
        ensures
            ({
                let listed = old(self)@.push(
                    match nodes {
                        Ok(_) => passed("getNameList(namedVariable)"@, Seq::empty()),
                        Err(e) => failed("getNameList(namedVariable)"@, e@),
                    },
                );
                final(self)@ == (if nodes is Err || nodes->Ok_0 == 0 {
                    listed.push(failed("logical nodes"@, "the device reports none"@))
                } else {
                    listed
                })
            }),
    {
        let n: usize = match self.check("getNameList(namedVariable)", nodes) {
            Some(n) => n,
            None => 0,
        };
        if n == 0 {
            self.fail("logical nodes", "the device reports none");
        }
    }
}

// ---- model retrieval ----
/// The number of objects of the first `n` logical nodes.
pub open spec fn objects_in(nodes: Seq<LogicalNode>, n: nat) -> nat
    decreases n,
{
    if n == 0 || n > nodes.len() {
        0
    } else {
        objects_in(nodes, (n - 1) as nat) + nodes[n - 1].objects@.len()
    }
}

/// The number of objects of the first `n` devices.
pub open spec fn objects_of(devices: Seq<LogicalDevice>, n: nat) -> nat
    decreases n,
{
    if n == 0 || n > devices.len() {
        0
    } else {
        objects_of(devices, (n - 1) as nat) + objects_in(
            devices[n - 1].nodes@,
            devices[n - 1].nodes@.len(),
        )
    }
}

proof fn lemma_objects_in_grow(nodes: Seq<LogicalNode>, n: nat, m: nat)
    requires
        n <= m <= nodes.len(),
    ensures
        objects_in(nodes, n) <= objects_in(nodes, m),
    decreases m - n,
{
    if n < m {
        lemma_objects_in_grow(nodes, n, (m - 1) as nat);
    }
}

proof fn lemma_objects_of_grow(devices: Seq<LogicalDevice>, n: nat, m: nat)
    requires
        n <= m <= devices.len(),
    ensures
        objects_of(devices, n) <= objects_of(devices, m),
    decreases m - n,
{
    if n < m {
        lemma_objects_of_grow(devices, n, (m - 1) as nat);
    }
}

/// Counts the data objects of a model.
pub fn count_objects(m: &Model) -> (n: usize)
    requires
        objects_of(m.devices@, m.devices@.len()) <= usize::MAX,
    ensures
        n == objects_of(m.devices@, m.devices@.len()),
{
    let mut n: usize = 0;
    let mut i: usize = 0;
    while i < m.devices.len()
        invariant
            i <= m.devices@.len(),
            objects_of(m.devices@, m.devices@.len()) <= usize::MAX,
            n == objects_of(m.devices@, i as nat),
        decreases m.devices@.len() - i,
    {
        let nodes = &m.devices[i].nodes;
        let ghost before = n as nat;
        proof {
            lemma_objects_of_grow(m.devices@, (i + 1) as nat, m.devices@.len());
        }
        let mut k: usize = 0;
        while k < nodes.len()
            invariant
                k <= nodes@.len(),
                n == before + objects_in(nodes@, k as nat),
                before + objects_in(nodes@, nodes@.len()) <= usize::MAX,
            decreases nodes@.len() - k,
        {
            proof {
                lemma_objects_in_grow(nodes@, (k + 1) as nat, nodes@.len());
            }
            n = n + nodes[k].objects.len();
            k = k + 1;
        }
        i = i + 1;
    }
    n
}

/// The record of retrieving the model.
pub open spec fn model_note(objects: Result<usize, Seq<char>>) -> RecordView {
    match objects {
        Ok(n) => if n == 0 {
            failed("retrieveModel"@, "no data objects were reconstructed"@)
        } else {
            passed("retrieveModel"@, counted(n as int, " data objects"@))
        },
        Err(e) => failed("retrieveModel"@, e),
    }
}

/// The record of browsing by class.
pub open spec fn browse_note(entries: Result<usize, Seq<char>>) -> RecordView {
    match entries {
        Ok(n) => if n == 0 {
            failed("browse(DATA)"@, "no data objects"@)
        } else {
            passed("browse(DATA)"@, counted(n as int, " objects"@))
        },
        Err(e) => failed("browse(DATA)"@, e),
    }
}

impl Report {
    /// Records what retrieving the model came to: its number of objects.
    pub fn on_model(&mut self, objects: Result<usize, String>)
        ensures
            final(self)@ == old(self)@.push(model_note(told(objects))),
    {
        match objects {
            Ok(n) => {
                if n == 0 {
                    self.fail("retrieveModel", "no data objects were reconstructed");
                } else {
                    self.pass("retrieveModel", count_text(n, " data objects").as_str());
                }
            },
            Err(e) => self.fail("retrieveModel", e.as_str()),
        }
    }

    /// Records what browsing by class came to. An empty result for data objects
    /// means the name list could not be interpreted.
    pub fn on_browse(&mut self, entries: Result<usize, String>)
        ensures
            final(self)@ == old(self)@.push(browse_note(told(entries))),
    {
        match entries {
            Ok(n) => {
                if n == 0 {
                    self.fail("browse(DATA)", "no data objects");
                } else {
                    self.pass("browse(DATA)", count_text(n, " objects").as_str());
                }
            },
            Err(e) => self.fail("browse(DATA)", e.as_str()),
        }
    }
}

// ---- reading and writing ----
/// The leaves of an object that a sweep can safely read and write, in the order
/// in which they are tried: a measurand magnitude.
pub fn measurands(reference: &ObjectReference) -> (v: Vec<ObjectReference>)
    ensures
        v@.len() == 2,
        v@[0]@ == reference@ + ".mag.f"@,
        v@[1]@ == reference@ + ".mag.i"@,
{
    let mut v: Vec<ObjectReference> = Vec::new();
    v.push(ObjectReference::new(two(reference.as_str(), ".mag.f")));
    v.push(ObjectReference::new(two(reference.as_str(), ".mag.i")));
    v
}

/// The reference of something that cannot exist on a device.
pub fn no_such_reference(ld: &str) -> (r: ObjectReference)
    ensures
        r@ == ld@ + "/NOSUCHLN.NoSuchDO.stVal"@,
{
    ObjectReference::new(two(ld, "/NOSUCHLN.NoSuchDO.stVal"))
}

/// Records with those of a device without a measurand.
pub open spec fn without_measurand(r: Seq<RecordView>) -> Seq<RecordView> {
    r.push(skipped("read(MX)"@, "the device exposes no readable measurand"@)).push(
        skipped("write(MX)"@, "no measurand to write"@),
    ).push(skipped("readValues(batch)"@, "no measurand to batch"@))
}

/// The record of reading a measurand.
pub open spec fn read_note(
    reference: Seq<char>,
    value: Result<Seq<char>, Seq<char>>,
) -> RecordView {
    match value {
        Ok(v) => passed("read(MX)"@, reference + " = "@ + v),
        Err(e) => failed("read(MX)"@, e),
    }
}

/// The record of a batch read of the same point twice.
pub open spec fn batch_note(values: Result<usize, Seq<char>>) -> RecordView {
    match values {
        Ok(n) => if n == 2 {
            passed("readValues(batch)"@, "2 items"@)
        } else {
            failed("readValues(batch)"@, counted(n as int, " items, want 2"@))
        },
        Err(e) => failed("readValues(batch)"@, e),
    }
}

/// The record of writing a value back that was readable.
pub open spec fn written_note(written: Result<(), Seq<char>>) -> RecordView {
    match written {
        Ok(_) => passed("write(MX)"@, "value written back unchanged"@),
        Err(e) => skipped("write(MX)"@, "refused: "@ + e),
    }
}

/// The record of a value that could not be read to be written back.
pub open spec fn unread_note(e: Seq<char>) -> RecordView {
    failed("write(MX)"@, "could not read it back first: "@ + e)
}

/// The record of reading something that cannot exist.
pub open spec fn absent_note(answered: bool) -> RecordView {
    if answered {
        failed("read(non-existent)"@, "the server answered with a value"@)
    } else {
        passed("read(non-existent)"@, "refused, as it should be"@)
    }
}

impl Report {
    /// Records that there is no measurand to work with.
    pub fn on_no_measurand(&mut self)
        ensures
            final(self)@ == without_measurand(old(self)@),
    {
        self.skip("read(MX)", "the device exposes no readable measurand");
        self.skip("write(MX)", "no measurand to write");
        self.skip("readValues(batch)", "no measurand to batch");
    }

    /// Records what reading a measurand came to; a value is given as it reads.
    pub fn on_read(&mut self, reference: &str, value: Result<String, String>)
        ensures
            final(self)@ == old(self)@.push(read_note(reference@, told_text(value))),
    {
        match value {
            Ok(v) => {
                let mut detail = two(reference, " = ");
                push_str(&mut detail, v.as_str());
                self.pass("read(MX)", detail.as_str());
            },
            Err(e) => self.fail("read(MX)", e.as_str()),
        }
    }

    /// Records what a batch read of the same point twice came to, which is safe
    /// on any device and proves the multi-item path.
    pub fn on_batch(&mut self, values: Result<usize, String>)
        ensures
            final(self)@ == old(self)@.push(batch_note(told(values))),
    {
        match values {
            Ok(n) => {
                if n == 2 {
                    self.pass("readValues(batch)", "2 items");
                } else {
                    self.fail("readValues(batch)", count_text(n, " items, want 2").as_str());
                }
            },
            Err(e) => self.fail("readValues(batch)", e.as_str()),
        }
    }

    /// Records what writing a value back unchanged came to, which changes
    /// nothing on the device but exercises the whole write path. The value may
    /// not have been readable in the first place.
    pub fn on_write_back(&mut self, written: Result<Result<(), String>, String>)
        ensures
            final(self)@ == old(self)@.push(
                match written {
                    Ok(w) => written_note(told(w)),
                    Err(e) => unread_note(e@),
                },
            ),
    {
        match written {
            Ok(Ok(_)) => self.pass("write(MX)", "value written back unchanged"),
            Ok(Err(e)) => self.skip("write(MX)", two("refused: ", e.as_str()).as_str()),
            Err(e) => self.fail(
                "write(MX)",
                two("could not read it back first: ", e.as_str()).as_str(),
            ),
        }
    }

    /// Records whether reading something that cannot exist was answered with a
    /// value, which it must not be.
    pub fn on_absent(&mut self, answered: bool)
        ensures
            final(self)@ == old(self)@.push(absent_note(answered)),
    {
        if answered {
            self.fail("read(non-existent)", "the server answered with a value");
        } else {
            self.pass("read(non-existent)", "refused, as it should be");
        }
    }
}

// ---- datasets ----
/// The reference of the dataset that a sweep creates and deletes again.
pub fn dynamic_dataset(ld: &str) -> (r: ObjectReference)
    ensures
        r@ == ld@ + "/LLN0.rsIec61850Sweep"@,
{
    ObjectReference::new(two(ld, "/LLN0.rsIec61850Sweep"))
}

/// The record of a device without datasets.
pub open spec fn no_dataset_note() -> RecordView {
    skipped("readDataSet"@, "the device configures none"@)
}

/// The record of reading a dataset.
pub open spec fn dataset_note(
    reference: Seq<char>,
    members: Result<usize, Seq<char>>,
) -> RecordView {
    match members {
        Ok(n) => if n == 0 {
            failed("readDataSet"@, reference + " reported no members"@)
        } else {
            passed("readDataSet"@, reference + (": "@ + counted(n as int, " members"@)))
        },
        Err(e) => failed("readDataSet"@, e),
    }
}

/// The record of having nothing to put in a dataset.
pub open spec fn no_member_note() -> RecordView {
    skipped("createDataSet"@, "no member to put in one"@)
}

/// The record of creating a dataset.
pub open spec fn created_note(reference: Seq<char>, created: Result<(), Seq<char>>) -> RecordView {
    match created {
        Ok(_) => passed("createDataSet"@, reference),
        Err(e) => skipped("createDataSet"@, "refused: "@ + e),
    }
}

/// The record of asking for the members of a dataset of one member.
pub open spec fn members_note(members: Result<usize, Seq<char>>) -> RecordView {
    match members {
        Ok(n) => if n == 1 {
            passed("getNamedVariableListAttributes"@, "1 member"@)
        } else {
            failed("getNamedVariableListAttributes"@, counted(n as int, " members, want 1"@))
        },
        Err(e) => failed("getNamedVariableListAttributes"@, e),
    }
}

impl Report {
    /// Picks the dataset to read, and records where there is none.
    pub fn pick_dataset(&mut self, sets: &Vec<ObjectReference>) -> (r: Option<ObjectReference>)
        ensures
            match r {
                Some(reference) => sets@.len() > 0 && reference@ == sets@[0]@ && final(self)@
                    == old(self)@,
                None => sets@.len() == 0 && final(self)@ == old(self)@.push(no_dataset_note()),
            },
    {
        if sets.len() == 0 {
            self.skip("readDataSet", "the device configures none");
            None
        } else {
            Some(sets[0].clone())
        }
    }

    /// Records what reading a dataset came to: its number of members.
    pub fn on_dataset(&mut self, reference: &str, members: Result<usize, String>)
        ensures
            final(self)@ == old(self)@.push(dataset_note(reference@, told(members))),
    {
        match members {
            Ok(n) => {
                if n == 0 {
                    self.fail("readDataSet", two(reference, " reported no members").as_str());
                } else {
                    let tail = two(": ", count_text(n, " members").as_str());
                    self.pass("readDataSet", two(reference, tail.as_str()).as_str());
                }
            },
            Err(e) => self.fail("readDataSet", e.as_str()),
        }
    }

    /// Records that there is nothing to put in a dataset.
    pub fn on_no_member(&mut self)
        ensures
            final(self)@ == old(self)@.push(no_member_note()),
    {
        self.skip("createDataSet", "no member to put in one");
    }

    /// Records what creating a dataset came to, and returns whether to go on. A
    /// dynamic dataset is optional; a device that refuses to create one is not
    /// broken.
    pub fn on_created(&mut self, reference: &str, created: Result<(), String>) -> (go_on: bool)
        ensures
            go_on == (created is Ok),
            final(self)@ == old(self)@.push(created_note(reference@, told(created))),
    {
        match created {
            Ok(_) => {
                self.pass("createDataSet", reference);
                true
            },
            Err(e) => {
                self.skip("createDataSet", two("refused: ", e.as_str()).as_str());
                false
            },
        }
    }

    /// Records how many members a dataset of one member has.
    pub fn on_members(&mut self, members: Result<usize, String>)
        ensures
            final(self)@ == old(self)@.push(members_note(told(members))),
    {
        match members {
            Ok(n) => {
                if n == 1 {
                    self.pass("getNamedVariableListAttributes", "1 member");
                } else {
                    self.fail(
                        "getNamedVariableListAttributes",
                        count_text(n, " members, want 1").as_str(),
                    );
                }
            },
            Err(e) => self.fail("getNamedVariableListAttributes", e.as_str()),
        }
    }
}

// ---- reporting ----
/// A control block that answers a general interrogation and nothing else.
pub open spec fn prepared(rcb: Rcb) -> Rcb {
    Rcb {
        opt_flds: OptFlds {
            seq_num: true,
            time_of_entry: true,
            reason_code: true,
            data_set_name: true,
            conf_rev: true,
            ..OptFlds::nothing()
        },
        trg_ops: TrgOps { data_change: true, quality_change: true, gi: true, ..TrgOps::nothing() },
        intg_pd: 0,
        ..rcb
    }
}

/// The record of a device without control blocks of a kind.
pub open spec fn no_block_note(label: Seq<char>) -> RecordView {
    skipped(labelled("report"@, label), "the device configures none"@)
}

/// The record of a control block that cannot be told by its reports.
pub open spec fn no_id_note(label: Seq<char>) -> RecordView {
    failed(labelled("report"@, label), "the block reports no RptID"@)
}

/// The record of enabling a control block.
pub open spec fn enabled_note(
    label: Seq<char>,
    reference: Seq<char>,
    enabled: Result<(), Seq<char>>,
) -> RecordView {
    match enabled {
        Ok(_) => passed(labelled("enableReporting"@, label), reference),
        Err(e) => failed(labelled("enableReporting"@, label), e),
    }
}

/// The record of a general interrogation.
pub open spec fn interrogation_note(
    label: Seq<char>,
    reports: Result<usize, Seq<char>>,
) -> RecordView {
    match reports {
        Ok(n) => if n > 0 {
            passed(labelled("generalInterrogation"@, label), counted(n as int, " report(s)"@))
        } else {
            failed(labelled("generalInterrogation"@, label), "no report arrived within 750ms"@)
        },
        Err(e) => failed(labelled("generalInterrogation"@, label), e),
    }
}

/// Has a control block answer a general interrogation. There is no integrity
/// period: a general interrogation is what is being measured, and a periodic
/// report would confuse the count.
pub fn prepare(rcb: &mut Rcb)
    ensures
        *final(rcb) == prepared(*old(rcb)),
{
    rcb.opt_flds = OptFlds::usual();
    rcb.trg_ops = TrgOps {
        data_change: true,
        quality_change: true,
        data_update: false,
        integrity: false,
        gi: true,
    };
    rcb.intg_pd = 0;
}

impl Report {
    /// Picks the report control block to try, and records where there is none.
    pub fn pick_block(&mut self, label: &str, blocks: &Vec<ObjectReference>) -> (r: Option<
        ObjectReference,
    >)
        ensures
            match r {
                Some(reference) => blocks@.len() > 0 && reference@ == blocks@[0]@ && final(self)@
                    == old(self)@,
                None => blocks@.len() == 0 && final(self)@ == old(self)@.push(
                    no_block_note(label@),
                ),
            },
    {
        if blocks.len() == 0 {
            self.skip(with_label("report", label).as_str(), "the device configures none");
            None
        } else {
            Some(blocks[0].clone())
        }
    }

    /// Records what reading a control block came to, and returns it, ready to be
    /// enabled, where it can be used.
    pub fn on_rcb(&mut self, label: &str, got: Result<Rcb, String>) -> (r: Option<Rcb>)
        ensures
            ({
                let read = old(self)@.push(check_note(labelled("getRCB"@, label@), told(got)));
                match got {
                    Err(e) => r is None && final(self)@ == read,
                    Ok(rcb) => if rcb.rpt_id@.len() == 0 {
                        r is None && final(self)@ == read.push(no_id_note(label@))
                    } else {
                        r == Some(prepared(rcb)) && final(self)@ == read
                    },
                }
            }),
    {
        match self.check(with_label("getRCB", label).as_str(), got) {
            None => None,
            Some(rcb) => {
                let mut rcb = rcb;
                if rcb.rpt_id.as_str().is_empty() {
                    self.fail(with_label("report", label).as_str(), "the block reports no RptID");
                    None
                } else {
                    prepare(&mut rcb);
                    Some(rcb)
                }
            },
        }
    }

    /// Records what enabling a control block came to, and returns whether to go
    /// on.
    pub fn on_reporting(&mut self, label: &str, reference: &str, enabled: Result<(), String>) -> (
    go_on: bool)
        ensures
            go_on == (enabled is Ok),
            final(self)@ == old(self)@.push(enabled_note(label@, reference@, told(enabled))),
    {
        let name = with_label("enableReporting", label);
        match enabled {
            Ok(_) => {
                self.pass(name.as_str(), reference);
                true
            },
            Err(e) => {
                self.fail(name.as_str(), e.as_str());
                false
            },
        }
    }

    /// Records what a general interrogation came to: how many reports arrived
    /// once the device was given a moment to answer.
    pub fn on_interrogation(&mut self, label: &str, reports: Result<usize, String>)
        ensures
            final(self)@ == old(self)@.push(interrogation_note(label@, told(reports))),
    {
        let name = with_label("generalInterrogation", label);
        match reports {
            Ok(n) => {
                if n > 0 {
                    self.pass(name.as_str(), count_text(n, " report(s)").as_str());
                } else {
                    self.fail(name.as_str(), "no report arrived within 750ms");
                }
            },
            Err(e) => self.fail(name.as_str(), e.as_str()),
        }
    }

    /// Records what disabling a control block came to.
    pub fn on_disabled(&mut self, label: &str, disabled: Result<(), String>)
        ensures
            final(self)@ == old(self)@.push(
                check_note(labelled("disableReporting"@, label@), told(disabled)),
            ),
    {
        self.check(with_label("disableReporting", label).as_str(), disabled);
    }
}

// ---- control ----
/// Whether the control constraint of an object exposes an `Oper`, which is what
/// makes it controllable.
pub fn is_operable(children: &Result<Vec<String>, String>) -> (b: bool)
    ensures
        b == (children matches Ok(names) && texts(names@).contains("Oper"@)),
{
    match children {
        Ok(names) => holds(names, "Oper"),
        Err(_) => false,
    }
}

/// The state to command: the opposite of the present one, so that the change
/// shows, or on where the present one is not known.
pub fn opposite(before: &Option<Value>) -> (on: bool)
    ensures
        on == (match before {
            Some(v) => !v@.truth(),
            None => true,
        }),
{
    match before {
        Some(v) => !v.as_bool(),
        None => true,
    }
}

/// How a switch position reads.
pub open spec fn truth_text(b: bool) -> Seq<char> {
    if b {
        "true"@
    } else {
        "false"@
    }
}

fn bool_text(b: bool) -> (s: &'static str)
    ensures
        s@ == truth_text(b),
{
    if b {
        "true"
    } else {
        "false"
    }
}

/// The record of a device without a controllable object.
pub open spec fn no_control_note() -> RecordView {
    skipped("control"@, "the device exposes no controllable object"@)
}

/// The record of asking for the type of the control value.
pub open spec fn kind_note(kind: Result<Seq<char>, Seq<char>>) -> RecordView {
    match kind {
        Ok(k) => passed("ctlValSpec"@, k),
        Err(e) => skipped("ctlValSpec"@, "not reported: "@ + e),
    }
}

/// The record of an object that takes no commands.
pub open spec fn status_only_note() -> RecordView {
    skipped("operate"@, "the object is status-only"@)
}

/// The record of operating an object.
pub open spec fn operated_note(want: bool, operated: Result<(), Seq<char>>) -> RecordView {
    match operated {
        Ok(_) => passed("operate"@, "set to "@ + truth_text(want)),
        Err(e) => failed("operate"@, e),
    }
}

/// The record of reading the status behind a command: its position and how it
/// reads.
pub open spec fn status_note(
    want: bool,
    status: Result<(bool, Seq<char>), Seq<char>>,
) -> RecordView {
    match status {
        Ok((on, shown)) => if on == want {
            passed("operate(stVal follows)"@, Seq::empty())
        } else {
            failed(
                "operate(stVal follows)"@,
                "stVal is "@ + shown + ", want "@ + truth_text(want),
            )
        },
        Err(e) => skipped("operate(stVal follows)"@, "not readable: "@ + e),
    }
}

impl Report {
    /// Records that there is no object to control.
    pub fn on_no_control(&mut self)
        ensures
            final(self)@ == old(self)@.push(no_control_note()),
    {
        self.skip("control", "the device exposes no controllable object");
    }

    /// Records what asking for the type of the control value came to.
    pub fn on_ctl_val_spec(&mut self, kind: Result<String, String>)
        ensures
            final(self)@ == old(self)@.push(kind_note(told_text(kind))),
    {
        match kind {
            Ok(k) => self.pass("ctlValSpec", k.as_str()),
            Err(e) => self.skip("ctlValSpec", two("not reported: ", e.as_str()).as_str()),
        }
    }

    /// Records that an object reports its status and takes no commands.
    pub fn on_status_only(&mut self)
        ensures
            final(self)@ == old(self)@.push(status_only_note()),
    {
        self.skip("operate", "the object is status-only");
    }

    /// Records what operating an object came to, and returns whether to go on.
    pub fn on_operated(&mut self, want: bool, operated: Result<(), String>) -> (go_on: bool)
        ensures
            go_on == (operated is Ok),
            final(self)@ == old(self)@.push(operated_note(want, told(operated))),
    {
        match operated {
            Ok(_) => {
                self.pass("operate", two("set to ", bool_text(want)).as_str());
                true
            },
            Err(e) => {
                self.fail("operate", e.as_str());
                false
            },
        }
    }

    /// Records whether the status value followed the command; the value that
    /// was read is given with how it reads.
    pub fn on_status(&mut self, want: bool, status: Result<(Value, String), String>)
        ensures
            final(self)@ == old(self)@.push(
                status_note(
                    want,
                    match status {
                        Ok((v, shown)) => Ok((v@.truth(), shown@)),
                        Err(e) => Err(e@),
                    },
                ),
            ),
    {
        match status {
            Ok((v, shown)) => {
                if v.as_bool() == want {
                    assert(""@ =~= Seq::<char>::empty()) by {
                        reveal_strlit("");
                    }
                    self.pass("operate(stVal follows)", "");
                } else {
                    let mut detail = two("stVal is ", shown.as_str());
                    push_str(&mut detail, ", want ");
                    push_str(&mut detail, bool_text(want));
                    self.fail("operate(stVal follows)", detail.as_str());
                }
            },
            Err(e) => self.skip(
                "operate(stVal follows)",
                two("not readable: ", e.as_str()).as_str(),
            ),
        }
    }
}

// ---- setting groups ----
/// The record of a device without setting groups.
pub open spec fn no_groups_note() -> RecordView {
    skipped("settingGroups"@, "the device has no SGCB"@)
}

/// The record of reading a setting group control block.
pub open spec fn groups_note(groups: Result<(u8, u8, u8), Seq<char>>) -> RecordView {
    match groups {
        Ok((num, act, edit)) => passed(
            "settingGroups"@,
            "NumOfSG="@ + decimal(num as nat) + " ActSG="@ + decimal(act as nat) + " EditSG="@
                + decimal(edit as nat),
        ),
        Err(e) => failed("settingGroups"@, e),
    }
}

impl Report {
    /// Records that there are no setting groups.
    pub fn on_no_sgcb(&mut self)
        ensures
            final(self)@ == old(self)@.push(no_groups_note()),
    {
        self.skip("settingGroups", "the device has no SGCB");
    }

    /// Records what reading a setting group control block came to: the number of
    /// groups, the active one and the edited one.
    pub fn on_setting_groups(&mut self, groups: Result<(u8, u8, u8), String>)
        ensures
            final(self)@ == old(self)@.push(groups_note(told(groups))),
    {
        match groups {
            Ok((num, act, edit)) => {
                let mut detail = "NumOfSG=".to_owned();
                push_decimal(&mut detail, num as u64);
                push_str(&mut detail, " ActSG=");
                push_decimal(&mut detail, act as u64);
                push_str(&mut detail, " EditSG=");
                push_decimal(&mut detail, edit as u64);
                self.pass("settingGroups", detail.as_str());
            },
            Err(e) => self.fail("settingGroups", e.as_str()),
        }
    }
}

// ---- files ----
/// A name without the separators it ends with.
pub open spec fn without_separators(name: Seq<char>) -> Seq<char>
    decreases name.len(),
{
    if is_dir(name) {
        without_separators(name.drop_last())
    } else {
        name
    }
}

/// Cuts the separators at the end of a name.
pub fn trim_separators(name: &str) -> (r: String)
    ensures
        r@ == without_separators(name@),
{
    let cs = chars(name);
    let mut n: usize = cs.len();
    assert(name@.take(n as int) =~= name@);
    while n > 0 && cs[n - 1] == '/'
        invariant
            n <= cs@.len(),
            cs@ == name@,
            without_separators(name@) == without_separators(name@.take(n as int)),
        decreases n,
    {
        assert(name@.take(n as int).last() == name@[n - 1]);
        assert(name@.take(n as int).drop_last() =~= name@.take(n - 1));
        n = n - 1;
    }
    let r = string_between(cs.as_slice(), 0, n);
    assert(r@ =~= name@.take(n as int));
    assert(!is_dir(r@)) by {
        if n > 0 {
            assert(r@.last() == name@[n - 1]);
        }
    }
    r
}

/// The names of the first `n` entries that are no directories.
pub open spec fn regular_files(entries: Seq<FileEntry>, n: nat) -> Seq<Seq<char>>
    decreases n,
{
    if n == 0 || n > entries.len() {
        Seq::empty()
    } else {
        let before = regular_files(entries, (n - 1) as nat);
        if is_dir(entries[n - 1].name@) {
            before
        } else {
            before.push(entries[n - 1].name@)
        }
    }
}

/// The directories of the first `n` entries, without the separators that mark
/// them.
pub open spec fn directories(entries: Seq<FileEntry>, n: nat) -> Seq<Seq<char>>
    decreases n,
{
    if n == 0 || n > entries.len() {
        Seq::empty()
    } else {
        let before = directories(entries, (n - 1) as nat);
        if is_dir(entries[n - 1].name@) {
            before.push(without_separators(entries[n - 1].name@))
        } else {
            before
        }
    }
}

/// The files of a listing that may be readable as they are named.
pub fn file_candidates(entries: &Vec<FileEntry>) -> (v: Vec<String>)
    ensures
        texts(v@) == regular_files(entries@, entries@.len()),
{
    let mut v: Vec<String> = Vec::new();
    let mut i: usize = 0;
    assert(texts(v@) =~= regular_files(entries@, 0));
    while i < entries.len()
        invariant
            i <= entries@.len(),
            texts(v@) == regular_files(entries@, i as nat),
        decreases entries@.len() - i,
    {
        let ghost before = texts(v@);
        if !marks_dir(entries[i].name.as_str()) {
            v.push(entries[i].name.clone());
            assert(texts(v@) =~= before.push(entries@[i as int].name@));
        }
        i = i + 1;
    }
    v
}

/// The directories of a listing, which are listed in turn: one level down is
/// where a store of recordings keeps them.
pub fn subdirectories(entries: &Vec<FileEntry>) -> (v: Vec<String>)
    ensures
        texts(v@) == directories(entries@, entries@.len()),
{
    let mut v: Vec<String> = Vec::new();
    let mut i: usize = 0;
    assert(texts(v@) =~= directories(entries@, 0));
    while i < entries.len()
        invariant
            i <= entries@.len(),
            texts(v@) == directories(entries@, i as nat),
        decreases entries@.len() - i,
    {
        let ghost before = texts(v@);
        if marks_dir(entries[i].name.as_str()) {
            let d = trim_separators(entries[i].name.as_str());
            v.push(d);
            assert(texts(v@) =~= before.push(d@));
        }
        i = i + 1;
    }
    v
}

/// The path of an entry of a directory. A server that lists bare names needs
/// the path rejoining.
pub open spec fn path_of_entry(dir: Seq<char>, name: Seq<char>) -> Seq<char> {
    if name.contains('/') {
        name
    } else {
        dir + "/"@ + name
    }
}

/// The paths of the first `n` entries of a directory that are no directories.
pub open spec fn nested_files(dir: Seq<char>, entries: Seq<FileEntry>, n: nat) -> Seq<Seq<char>>
    decreases n,
{
    if n == 0 || n > entries.len() {
        Seq::empty()
    } else {
        let before = nested_files(dir, entries, (n - 1) as nat);
        if is_dir(entries[n - 1].name@) {
            before
        } else {
            before.push(path_of_entry(dir, entries[n - 1].name@))
        }
    }
}

fn has_separator(name: &str) -> (b: bool)
    ensures
        b == name@.contains('/'),
{
    let cs = chars(name);
    let mut i: usize = 0;
    while i < cs.len()
        invariant
            i <= cs@.len(),
            cs@ == name@,
            forall|j: int| 0 <= j < i ==> name@[j] != '/',
        decreases cs@.len() - i,
    {
        if cs[i] == '/' {
            assert(name@[i as int] == '/');
            return true;
        }
        i = i + 1;
    }
    false
}

/// Adds the files of a directory to those that may be readable.
pub fn add_candidates(candidates: &mut Vec<String>, dir: &str, entries: &Vec<FileEntry>)
    ensures
        texts(final(candidates)@) == texts(old(candidates)@) + nested_files(
            dir@,
            entries@,
            entries@.len(),
        ),
{
    let ghost start = texts(candidates@);
    let mut i: usize = 0;
    assert(start + nested_files(dir@, entries@, 0) =~= start);
    while i < entries.len()
        invariant
            i <= entries@.len(),
            texts(candidates@) == start + nested_files(dir@, entries@, i as nat),
        decreases entries@.len() - i,
    {
        let ghost before = texts(candidates@);
        let name = entries[i].name.as_str();
        if !marks_dir(name) {
            let path = if has_separator(name) {
                name.to_owned()
            } else {
                let mut p = two(dir, "/");
                push_str(&mut p, name);
                p
            };
            candidates.push(path);
            assert(texts(candidates@) =~= before.push(path@));
            assert(texts(candidates@) =~= start + nested_files(dir@, entries@, (i + 1) as nat));
        }
        i = i + 1;
    }
}

/// The record of listing the filestore: its number of entries.
pub open spec fn listing_note(entries: Result<int, Seq<char>>) -> RecordView {
    match entries {
        Ok(n) => passed("fileDirectory"@, counted(n, " entries"@)),
        Err(e) => skipped("fileDirectory"@, "not supported: "@ + e),
    }
}

/// The record of reading the candidates one after the other: the name and the
/// size of the first that opened, or what was said of the last.
pub open spec fn opened_note(
    candidates: nat,
    opened: Option<(Seq<char>, usize)>,
    last_error: Seq<char>,
) -> RecordView {
    match opened {
        Some((name, len)) => passed("readFile"@, name + " ("@ + decimal(len as nat) + " octets)"@),
        None => if candidates == 0 {
            skipped("readFile"@, "the filestore holds no regular file"@)
        } else {
            failed(
                "readFile"@,
                "none of "@ + decimal(candidates) + " candidates opened; last: "@ + last_error,
            )
        },
    }
}

impl Report {
    /// Records what listing the filestore came to, and returns its entries.
    pub fn on_files(&mut self, listed: Result<Vec<FileEntry>, String>) -> (r: Option<
        Vec<FileEntry>,
    >)
        ensures
            match listed {
                Ok(entries) => r == Some(entries) && final(self)@ == old(self)@.push(
                    listing_note(Ok(entries@.len() as int)),
                ),
                Err(e) => r is None && final(self)@ == old(self)@.push(listing_note(Err(e@))),
            },
    {
        match listed {
            Ok(entries) => {
                self.pass("fileDirectory", count_text(entries.len(), " entries").as_str());
                Some(entries)
            },
            Err(e) => {
                self.skip("fileDirectory", two("not supported: ", e.as_str()).as_str());
                None
            },
        }
    }

    /// Records what reading the candidates one after the other came to: the name
    /// and the size of the first that opened, or what was said of the last.
    pub fn on_file_read(
        &mut self,
        candidates: usize,
        opened: Option<(String, usize)>,
        last_error: &str,
    )
        ensures
            final(self)@ == old(self)@.push(
                opened_note(
                    candidates as nat,
                    match opened {
                        Some((name, len)) => Some((name@, len)),
                        None => None,
                    },
                    last_error@,
                ),
            ),
    {
        match opened {
            Some((name, len)) => {
                let mut detail = two(name.as_str(), " (");
                push_decimal(&mut detail, len as u64);
                push_str(&mut detail, " octets)");
                self.pass("readFile", detail.as_str());
            },
            None => {
                if candidates == 0 {
                    self.skip("readFile", "the filestore holds no regular file");
                } else {
                    let mut detail = "none of ".to_owned();
                    push_decimal(&mut detail, candidates as u64);
                    push_str(&mut detail, " candidates opened; last: ");
                    push_str(&mut detail, last_error);
                    self.fail("readFile", detail.as_str());
                }
            },
        }
    }
}

// ---- logs ----
/// A name with each `$` written as `.`.
pub open spec fn dotted(name: Seq<char>) -> Seq<char> {
    Seq::new(
        name.len(),
        |i: int|
            if name[i] == '$' {
                '.'
            } else {
                name[i]
            },
    )
}

/// The reference of a journal of a device.
pub fn journal_ref(ld: &str, name: &str) -> (r: ObjectReference)
    ensures
        r@ == journal_text(ld@, name@),
{
    let cs = chars(name);
    let mut s = two(ld, "/");
    let ghost head = s@;
    let mut i: usize = 0;
    assert(s@ =~= head + dotted(name@).take(0));
    while i < cs.len()
        invariant
            i <= cs@.len(),
            cs@ == name@,
            s@ == head + dotted(name@).take(i as int),
        decreases cs@.len() - i,
    {
        push_char(
            &mut s,
            if cs[i] == '$' {
                '.'
            } else {
                cs[i]
            },
        );
        assert(s@ =~= head + dotted(name@).take(i + 1));
        i = i + 1;
    }
    assert(dotted(name@).take(i as int) =~= dotted(name@));
    ObjectReference::new(s)
}

/// The record of a device without a journal.
pub open spec fn no_journal_note() -> RecordView {
    skipped("readJournal"@, "the device has no journal"@)
}

/// The record of a device without journal services.
pub open spec fn no_journals_note(e: Seq<char>) -> RecordView {
    skipped("readJournal"@, "not supported: "@ + e)
}

/// The record of querying a journal.
pub open spec fn journal_note(entries: Result<usize, Seq<char>>) -> RecordView {
    match entries {
        Ok(n) => passed("readJournal"@, counted(n as int, " entries"@)),
        Err(e) => failed("readJournal"@, e),
    }
}

/// What the reference of a journal of a device reads.
pub open spec fn journal_text(ld: Seq<char>, name: Seq<char>) -> Seq<char> {
    ld + "/"@ + dotted(name)
}

impl Report {
    /// Picks the journal to query, and records where there is none. The journal
    /// name list is what a device without logging refuses.
    pub fn pick_journal(&mut self, ld: &str, names: Result<Vec<String>, String>) -> (r: Option<
        ObjectReference,
    >)
        ensures
            match names {
                Ok(names) => if names@.len() == 0 {
                    &&& r is None
                    &&& final(self)@ == old(self)@.push(no_journal_note())
                } else {
                    &&& final(self)@ == old(self)@
                    &&& r matches Some(reference) && reference@ == journal_text(ld@, names@[0]@)
                },
                Err(e) => r is None && final(self)@ == old(self)@.push(no_journals_note(e@)),
            },
    {
        match names {
            Ok(names) => {
                if names.len() == 0 {
                    self.skip("readJournal", "the device has no journal");
                    None
                } else {
                    Some(journal_ref(ld, names[0].as_str()))
                }
            },
            Err(e) => {
                self.skip("readJournal", two("not supported: ", e.as_str()).as_str());
                None
            },
        }
    }

    /// Records what querying a journal came to: its number of entries.
    pub fn on_journal(&mut self, entries: Result<usize, String>)
        ensures
            final(self)@ == old(self)@.push(journal_note(told(entries))),
    {
        match entries {
            Ok(n) => self.pass("readJournal", count_text(n, " entries").as_str()),
            Err(e) => self.fail("readJournal", e.as_str()),
        }
    }
}

/// What an empty or a wrong answer comes to: a list that should not be empty, a
/// batch of another size, a status that does not follow, a value that cannot
/// exist are failures, and nothing else that was answered is.
pub proof fn an_answer_that_will_not_do_fails(
    n: usize,
    name: Seq<char>,
    want: bool,
    on: bool,
    shown: Seq<char>,
)
    ensures
        model_note(Ok(n)).outcome == if n > 0 { Outcome::Pass } else { Outcome::Fail },
        browse_note(Ok(n)).outcome == if n > 0 { Outcome::Pass } else { Outcome::Fail },
        batch_note(Ok(n)).outcome == if n == 2 { Outcome::Pass } else { Outcome::Fail },
        dataset_note(name, Ok(n)).outcome == if n > 0 { Outcome::Pass } else { Outcome::Fail },
        members_note(Ok(n)).outcome == if n == 1 { Outcome::Pass } else { Outcome::Fail },
        interrogation_note(name, Ok(n)).outcome == if n > 0 {
            Outcome::Pass
        } else {
            Outcome::Fail
        },
        status_note(want, Ok((on, shown))).outcome == if on == want {
            Outcome::Pass
        } else {
            Outcome::Fail
        },
        absent_note(on).outcome == if on { Outcome::Fail } else { Outcome::Pass },
        journal_note(Ok(n)).outcome == Outcome::Pass,
        listing_note(Ok(n as int)).outcome == Outcome::Pass,
        read_note(name, Ok(shown)).outcome == Outcome::Pass,
        read_note(name, Ok(shown)).detail == name + " = "@ + shown,
        n > 0 ==> model_note(Ok(n)).detail == decimal(n as nat) + " data objects"@,
        n > 0 ==> browse_note(Ok(n)).detail == decimal(n as nat) + " objects"@,
        n != 2 ==> batch_note(Ok(n)).detail == decimal(n as nat) + " items, want 2"@,
        n > 0 ==> dataset_note(name, Ok(n)).detail == name + (": "@ + (decimal(n as nat)
            + " members"@)),
{
}

/// What a refusal comes to: a service that every device has fails, with what
/// was said of it; one that a device may lack is skipped, with what was said of
/// it behind the reason.
pub proof fn a_refusal_fails_or_is_skipped(name: Seq<char>, want: bool, e: Seq<char>)
    ensures
        check_note::<()>(name, Err(e)) == (RecordView { outcome: Outcome::Fail, name, detail: e }),
        model_note(Err(e)).outcome == Outcome::Fail && model_note(Err(e)).detail == e,
        browse_note(Err(e)).outcome == Outcome::Fail && browse_note(Err(e)).detail == e,
        batch_note(Err(e)).outcome == Outcome::Fail && batch_note(Err(e)).detail == e,
        read_note(name, Err(e)).outcome == Outcome::Fail && read_note(name, Err(e)).detail == e,
        dataset_note(name, Err(e)).outcome == Outcome::Fail && dataset_note(name, Err(e)).detail
            == e,
        members_note(Err(e)).outcome == Outcome::Fail && members_note(Err(e)).detail == e,
        enabled_note(name, name, Err(e)).outcome == Outcome::Fail && enabled_note(
            name,
            name,
            Err(e),
        ).detail == e,
        interrogation_note(name, Err(e)).outcome == Outcome::Fail && interrogation_note(
            name,
            Err(e),
        ).detail == e,
        operated_note(want, Err(e)).outcome == Outcome::Fail && operated_note(want, Err(e)).detail
            == e,
        groups_note(Err(e)).outcome == Outcome::Fail && groups_note(Err(e)).detail == e,
        journal_note(Err(e)).outcome == Outcome::Fail && journal_note(Err(e)).detail == e,
        unread_note(e).outcome == Outcome::Fail && e.is_suffix_of(unread_note(e).detail),
        written_note(Err(e)).outcome == Outcome::Skip && e.is_suffix_of(written_note(Err(e)).detail),
        created_note(name, Err(e)).outcome == Outcome::Skip && e.is_suffix_of(
            created_note(name, Err(e)).detail,
        ),
        kind_note(Err(e)).outcome == Outcome::Skip && e.is_suffix_of(kind_note(Err(e)).detail),
        status_note(want, Err(e)).outcome == Outcome::Skip && e.is_suffix_of(
            status_note(want, Err(e)).detail,
        ),
        listing_note(Err(e)).outcome == Outcome::Skip && e.is_suffix_of(
            listing_note(Err(e)).detail,
        ),
        no_journals_note(e).outcome == Outcome::Skip && e.is_suffix_of(no_journals_note(e).detail),
{
}

/// What a device simply lacks is skipped, but for what it must have.
pub proof fn what_is_lacking_is_skipped(label: Seq<char>, r: Seq<RecordView>)
    ensures
        no_dataset_note().outcome == Outcome::Skip,
        no_member_note().outcome == Outcome::Skip,
        no_block_note(label).outcome == Outcome::Skip,
        no_control_note().outcome == Outcome::Skip,
        status_only_note().outcome == Outcome::Skip,
        no_groups_note().outcome == Outcome::Skip,
        no_journal_note().outcome == Outcome::Skip,
        no_id_note(label).outcome == Outcome::Fail,
        opened_note(0, None, label).outcome == Outcome::Skip,
        without_measurand(r).len() == r.len() + 3,
        without_measurand(r).take(r.len() as int) == r,
        forall|i: int|
            r.len() <= i < r.len() + 3 ==> (#[trigger] without_measurand(r)[i]).outcome
                == Outcome::Skip,
{
    assert(without_measurand(r).take(r.len() as int) =~= r);
}

/// A file that opened is named with its size; where none did, that fails.
pub proof fn an_opened_file_is_named(candidates: nat, name: Seq<char>, len: usize, e: Seq<char>)
    requires
        candidates > 0,
    ensures
        opened_note(candidates, Some((name, len)), e).outcome == Outcome::Pass,
        opened_note(candidates, Some((name, len)), e).detail == name + " ("@ + decimal(len as nat)
            + " octets)"@,
        opened_note(candidates, None, e).outcome == Outcome::Fail,
        e.is_suffix_of(opened_note(candidates, None, e).detail),
{
}

/// A record more is counted under its own outcome and no other, wherever it
/// stands.
pub proof fn records_are_counted_by_outcome(
    front: Seq<RecordView>,
    r: RecordView,
    rest: Seq<RecordView>,
    want: Outcome,
)
    ensures
        tally(front + seq![r] + rest, want) == tally(front, want) + tally(rest, want) + if r.outcome
            == want {
            1nat
        } else {
            0
        },
    decreases rest.len(),
{
    let all = front + seq![r] + rest;
    if rest.len() == 0 {
        assert(all.drop_last() =~= front);
        assert(all.last() == r);
    } else {
        records_are_counted_by_outcome(front, r, rest.drop_last(), want);
        assert(all.drop_last() =~= front + seq![r] + rest.drop_last());
        assert(all.last() == rest.last());
    }
}

/// The separators at the end of a name are cut, and nothing else.
pub proof fn separators_are_cut_at_the_end(name: Seq<char>)
    ensures
        without_separators(name).is_prefix_of(name),
        without_separators(name).len() > 0 ==> without_separators(name).last() != '/',
        forall|i: int| without_separators(name).len() <= i < name.len() ==> name[i] == '/',
    decreases name.len(),
{
    if name.len() > 0 && name.last() == '/' {
        separators_are_cut_at_the_end(name.drop_last());
        let w = without_separators(name);
        assert(w =~= name.take(w.len() as int)) by {
            assert(w =~= name.drop_last().take(w.len() as int));
        }
        assert forall|i: int| w.len() <= i < name.len() implies name[i] == '/' by {
            if i < name.len() - 1 {
                assert(name.drop_last()[i] == '/');
            }
        }
    }
}

/// Every entry of a listing is either a file or, by the separator at its end, a
/// directory; the files keep their names and their order.
pub proof fn a_listing_is_told_apart(entries: Seq<FileEntry>, n: nat)
    requires
        n < entries.len(),
    ensures
        entries[n as int].name@.len() > 0 && entries[n as int].name@.last() == '/'
            ==> regular_files(entries, n + 1) == regular_files(entries, n) && directories(
            entries,
            n + 1,
        ) == directories(entries, n).push(without_separators(entries[n as int].name@)),
        !(entries[n as int].name@.len() > 0 && entries[n as int].name@.last() == '/')
            ==> regular_files(entries, n + 1) == regular_files(entries, n).push(
            entries[n as int].name@,
        ) && directories(entries, n + 1) == directories(entries, n),
        regular_files(entries, 0).len() == 0,
        directories(entries, 0).len() == 0,
{
}

/// The path of a file below a directory starts with the directory, unless the
/// server gave the whole path; the files below are those of its listing.
pub proof fn a_nested_file_has_its_path(dir: Seq<char>, entries: Seq<FileEntry>, n: nat)
    requires
        n < entries.len(),
    ensures
        nested_files(dir, entries, 0).len() == 0,
        regular_files(entries, n + 1) == regular_files(entries, n) ==> nested_files(
            dir,
            entries,
            n + 1,
        ) == nested_files(dir, entries, n),
        ({
            let name = entries[n as int].name@;
            !(name.len() > 0 && name.last() == '/') ==> nested_files(dir, entries, n + 1)
                == nested_files(dir, entries, n).push(
                if exists|i: int| 0 <= i < name.len() && name[i] == '/' {
                    name
                } else {
                    dir + "/"@ + name
                },
            )
        }),
{
    let name = entries[n as int].name@;
    if regular_files(entries, n + 1) == regular_files(entries, n) {
        assert(regular_files(entries, n).push(name).len() == regular_files(entries, n).len() + 1);
    }
}

/// A dollar sign is written as a dot, and every other character as it is.
pub proof fn dollars_become_dots(ld: Seq<char>, name: Seq<char>, i: int)
    requires
        0 <= i < name.len(),
    ensures
        dotted(name).len() == name.len(),
        name[i] == '$' ==> dotted(name)[i] == '.',
        name[i] != '$' ==> dotted(name)[i] == name[i],
        journal_text(ld, name) == ld + "/"@ + dotted(name),
{
}

/// The objects of a model are counted node by node and device by device.
pub proof fn objects_are_counted_node_by_node(
    nodes: Seq<LogicalNode>,
    devices: Seq<LogicalDevice>,
    n: nat,
)
    ensures
        objects_in(nodes, 0) == 0,
        n < nodes.len() ==> objects_in(nodes, n + 1) - objects_in(nodes, n)
            == nodes[n as int].objects@.len(),
        objects_of(devices, 0) == 0,
        n < devices.len() ==> objects_of(devices, n + 1) - objects_of(devices, n) == objects_in(
            devices[n as int].nodes@,
            devices[n as int].nodes@.len(),
        ),
{
}

/// The totals count the records of each outcome.
pub proof fn the_totals_count_each_outcome(records: Seq<RecordView>)
    ensures
        ({
            let passes = records.filter(|r: RecordView| r.outcome == Outcome::Pass).len();
            let fails = records.filter(|r: RecordView| r.outcome == Outcome::Fail).len();
            let skips = records.filter(|r: RecordView| r.outcome == Outcome::Skip).len();
            summary_text(records) == decimal(passes) + " passed, "@ + decimal(fails) + " failed, "@
                + decimal(skips) + " skipped"@
        }),
{
    lemma_tally_is_filter(records, Outcome::Pass, |r: RecordView| r.outcome == Outcome::Pass);
    lemma_tally_is_filter(records, Outcome::Fail, |r: RecordView| r.outcome == Outcome::Fail);
    lemma_tally_is_filter(records, Outcome::Skip, |r: RecordView| r.outcome == Outcome::Skip);
}

proof fn lemma_tally_is_filter(
    records: Seq<RecordView>,
    want: Outcome,
    f: spec_fn(RecordView) -> bool,
)
    requires
        forall|r: RecordView| #[trigger] f(r) <==> r.outcome == want,
    ensures
        tally(records, want) == records.filter(f).len(),
    decreases records.len(),
{
    reveal(Seq::filter);
    if records.len() > 0 {
        lemma_tally_is_filter(records.drop_last(), want, f);
        assert(f(records.last()) <==> records.last().outcome == want);
    }
}

/// A record says which step it is of, and what is lacking or wrong.
pub proof fn a_record_says_what_it_is_of(
    name: Seq<char>,
    want: bool,
    n: usize,
    e: Seq<char>,
    r: Seq<RecordView>,
)
    ensures
        model_note(Ok(n)).name == "retrieveModel"@ && model_note(Err(e)).name == "retrieveModel"@,
        browse_note(Ok(n)).name == "browse(DATA)"@ && browse_note(Err(e)).name == "browse(DATA)"@,
        read_note(name, Err(e)).name == "read(MX)"@,
        batch_note(Ok(n)).name == "readValues(batch)"@,
        written_note(Ok(())) == (RecordView {
            outcome: Outcome::Pass,
            name: "write(MX)"@,
            detail: "value written back unchanged"@,
        }),
        absent_note(true).detail == "the server answered with a value"@,
        absent_note(false).detail == "refused, as it should be"@,
        absent_note(want).name == "read(non-existent)"@,
        dataset_note(name, Ok(n)).name == "readDataSet"@ && no_dataset_note().name
            == "readDataSet"@,
        created_note(name, Ok(())).name == "createDataSet"@ && created_note(name, Ok(())).detail
            == name,
        members_note(Ok(n)).name == "getNamedVariableListAttributes"@,
        enabled_note(name, e, Ok(())).name == "enableReporting"@ + "("@ + name + ")"@ && enabled_note(
            name,
            e,
            Ok(()),
        ).detail == e,
        interrogation_note(name, Ok(n)).name == "generalInterrogation"@ + "("@ + name + ")"@,
        no_block_note(name).name == "report"@ + "("@ + name + ")"@,
        operated_note(true, Ok(())).detail == "set to "@ + "true"@,
        operated_note(false, Ok(())).detail == "set to "@ + "false"@,
        operated_note(want, Err(e)).name == "operate"@,
        status_note(want, Err(e)).name == "operate(stVal follows)"@,
        kind_note(Ok(name)) == (RecordView {
            outcome: Outcome::Pass,
            name: "ctlValSpec"@,
            detail: name,
        }),
        groups_note(Err(e)).name == "settingGroups"@,
        listing_note(Ok(n as int)).name == "fileDirectory"@,
        journal_note(Ok(n)).name == "readJournal"@,
        without_measurand(r)[r.len() as int].name == "read(MX)"@,
        without_measurand(r)[r.len() as int + 1].name == "write(MX)"@,
        without_measurand(r)[r.len() as int + 2].name == "readValues(batch)"@,
{
}

/// The setting groups are told by their number, the active one and the edited
/// one, in that order.
pub proof fn the_groups_are_told_in_order(num: u8, act: u8, edit: u8)
    ensures
        groups_note(Ok((num, act, edit))).outcome == Outcome::Pass,
        groups_note(Ok((num, act, edit))).detail == "NumOfSG="@ + decimal(num as nat) + " ActSG="@
            + decimal(act as nat) + " EditSG="@ + decimal(edit as nat),
{
}

} // verus!
