//! The course of a sweep: what is asked of the server next, section by section.
//!
//! Each section says which call is to be made, and takes the answer. A call
//! that fails is answered like any other, and an answer that does not fit the
//! call counts as a failure without a message.

use vstd::prelude::*;

use super::sweep::{
    absent_note, add_candidates, batch_note, browse_note, check_note, created_note, dataset_note,
    directories, dynamic_dataset, enabled_note, failed, file_candidates, groups_note, interrogation_note,
    is_operable, journal_note, journal_text, kind_note, labelled, listing_note, measurands,
    members_note, model_note, nested_files, no_block_note, no_control_note, no_dataset_note,
    no_groups_note, no_id_note, no_journal_note, no_journals_note, no_member_note,
    no_such_reference, opened_note, operated_note, opposite, prepared, read_note, regular_files,
    skipped, status_note, status_only_note, subdirectories, summary_text, told, told_text, unread_note, tally,
    without_measurand, written_note, Outcome, RecordView, Report,
};
use crate::client::{AcsiClass, Rcb};
use crate::mms::{Data, Value};
use crate::model::{CtlModel, Fc, ObjectReference};
use crate::text::{decimal, push_decimal, push_str, texts};
use crate::ui::files::FileEntry;

verus! {

/// A call to make.
#[derive(Debug)]
pub enum Call {
    /// Ask the server for its identity.
    Identify,
    /// List the logical devices.
    Devices,
    /// List the logical nodes of the device.
    Nodes,
    /// Retrieve the model, and count its data objects.
    CountObjects,
    /// List the objects of a class in the device.
    Browse(AcsiClass),
    /// Read a value.
    Read(ObjectReference, Fc),
    /// Read a value twice in one request.
    ReadTwice(ObjectReference, Fc),
    /// Write a value.
    Write(ObjectReference, Fc, Value),
    /// Read a dataset.
    ReadDataSet(ObjectReference),
    /// Create a dataset with one member.
    CreateDataSet(ObjectReference, ObjectReference, Fc),
    /// Ask for the members of a dataset.
    DataSetMembers(ObjectReference),
    /// Delete a dataset.
    DeleteDataSet(ObjectReference),
    /// Read a report control block.
    GetRcb(ObjectReference),
    /// Enable a report control block.
    Enable(Rcb),
    /// Interrogate the enabled control block, and count the reports that
    /// arrive within a moment.
    Interrogate,
    /// Disable the enabled control block.
    Disable,
    /// List what is below an object.
    Directory(ObjectReference, Fc),
    /// Take hold of an object to control.
    ControlFor(ObjectReference),
    /// Ask for the type of the control value.
    CtlValSpec,
    /// Operate the object in hand.
    Operate(Value),
    /// Read a setting group control block.
    SettingGroups(ObjectReference),
    /// List a directory of the filestore.
    ListFiles(String),
    /// Read a file.
    ReadFile(String),
    /// List the journals of the device.
    Journals,
    /// Query a journal over the last hour.
    QueryLog(ObjectReference),
    /// Nothing is left to do.
    Finish,
}

/// What a call came to.
#[derive(Debug)]
pub enum Answer {
    /// It failed, and this is what was said of it.
    Failed(String),
    /// It was done.
    Done,
    /// The vendor, the model and the revision of a server.
    Identity(String, String, String),
    /// How many there are.
    Count(usize),
    Names(Vec<String>),
    References(Vec<ObjectReference>),
    /// A value, and how it reads.
    Reading(Value, String),
    Files(Vec<FileEntry>),
    Block(Rcb),
    /// How a type reads.
    Kind(String),
    Model(CtlModel),
    /// The number of setting groups, the active one and the edited one.
    Groups(u8, u8, u8),
}

/// What references read.
pub open spec fn reference_texts(v: Seq<ObjectReference>) -> Seq<Seq<char>> {
    Seq::new(v.len(), |i: int| v[i]@)
}

impl Answer {
    /// What was said of a failure, nothing where the answer does not fit.
    pub open spec fn complaint(self) -> Seq<char> {
        match self {
            Answer::Failed(e) => e@,
            _ => Seq::empty(),
        }
    }

    /// Whether the call was done.
    pub open spec fn outcome(self) -> Result<(), Seq<char>> {
        match self {
            Answer::Done => Ok(()),
            _ => Err(self.complaint()),
        }
    }

    /// The number in the answer.
    pub open spec fn number(self) -> Result<usize, Seq<char>> {
        match self {
            Answer::Count(n) => Ok(n),
            _ => Err(self.complaint()),
        }
    }

    /// The references in the answer; a failure has none.
    pub open spec fn references(self) -> Seq<Seq<char>> {
        match self {
            Answer::References(v) => reference_texts(v@),
            _ => Seq::empty(),
        }
    }

    /// How many references there are.
    pub open spec fn reference_count(self) -> Result<usize, Seq<char>> {
        match self {
            Answer::References(v) => Ok(v@.len() as usize),
            _ => Err(self.complaint()),
        }
    }

    /// How the value in the answer reads.
    pub open spec fn shown(self) -> Result<Seq<char>, Seq<char>> {
        match self {
            Answer::Reading(_, s) => Ok(s@),
            _ => Err(self.complaint()),
        }
    }

    /// The position that the value in the answer is in, and how it reads.
    pub open spec fn position(self) -> Result<(bool, Seq<char>), Seq<char>> {
        match self {
            Answer::Reading(v, s) => Ok((v@.truth(), s@)),
            _ => Err(self.complaint()),
        }
    }

    fn into_complaint(self) -> (s: String)
        ensures
            s@ == self.complaint(),
    {
        match self {
            Answer::Failed(e) => e,
            _ => String::new(),
        }
    }

    fn into_outcome(self) -> (r: Result<(), String>)
        ensures
            told(r) == self.outcome(),
    {
        match self {
            Answer::Done => Ok(()),
            other => Err(other.into_complaint()),
        }
    }

    fn into_number(self) -> (r: Result<usize, String>)
        ensures
            told(r) == self.number(),
    {
        match self {
            Answer::Count(n) => Ok(n),
            other => Err(other.into_complaint()),
        }
    }

    fn into_references(self) -> (v: Vec<ObjectReference>)
        ensures
            reference_texts(v@) == self.references(),
    {
        match self {
            Answer::References(v) => v,
            _ => {
                let v: Vec<ObjectReference> = Vec::new();
                assert(reference_texts(v@) =~= Seq::<Seq<char>>::empty());
                v
            },
        }
    }

    fn into_shown(self) -> (r: Result<String, String>)
        ensures
            told_text(r) == self.shown(),
    {
        match self {
            Answer::Reading(_, s) => Ok(s),
            other => Err(other.into_complaint()),
        }
    }
}

// ---- files ----
/// Where the files section stands.
#[derive(Debug)]
pub enum Files {
    /// The filestore is to be listed.
    Start,
    /// Directories are to be listed in turn: those from `at` on.
    Descend { candidates: Vec<String>, dirs: Vec<String>, at: usize },
    /// Candidates are to be read in turn: those from `at` on.
    Open { candidates: Vec<String>, at: usize },
    End,
}

impl Files {
    /// Whether there is something at the place where the section stands.
    pub open spec fn valid(self) -> bool {
        match self {
            Files::Descend { candidates, dirs, at } => at < dirs@.len(),
            Files::Open { candidates, at } => at < candidates@.len(),
            _ => true,
        }
    }

    /// Whether the section goes on with reading the candidates.
    pub open spec fn opens(self, candidates: Seq<Seq<char>>) -> bool {
        if candidates.len() == 0 {
            self is End
        } else {
            self matches Files::Open { candidates: c, at } && texts(c@) == candidates && at == 0
        }
    }

    /// Whether the section goes on with listing the directories from `at` on.
    pub open spec fn descends(
        self,
        candidates: Seq<Seq<char>>,
        dirs: Seq<Seq<char>>,
        at: int,
    ) -> bool {
        if at < dirs.len() {
            self matches Files::Descend { candidates: c, dirs: d, at: i } && texts(c@)
                == candidates && texts(d@) == dirs && i == at
        } else {
            self.opens(candidates)
        }
    }

    /// Whether `after` is where the section stands once a call is answered.
    ///
    /// Servers differ on how they report a directory: some mark it with a
    /// trailing separator, some give a bare name that looks exactly like a
    /// file, and some report names relative to the directory asked for.
    /// Trying candidates until one opens copes with all of them.
    pub open spec fn leads(self, a: Answer, after: Files) -> bool {
        match self {
            Files::Start => match a {
                Answer::Files(entries) => after.descends(
                    regular_files(entries@, entries@.len()),
                    directories(entries@, entries@.len()),
                    0,
                ),
                _ => after is End,
            },
            Files::Descend { candidates, dirs, at } => after.descends(
                texts(candidates@) + (match a {
                    Answer::Files(entries) => nested_files(
                        dirs@[at as int]@,
                        entries@,
                        entries@.len(),
                    ),
                    _ => Seq::empty(),
                }),
                texts(dirs@),
                at + 1,
            ),
            Files::Open { candidates, at } => if a is Count || at + 1
                >= candidates@.len() {
                after is End
            } else {
                after matches Files::Open { candidates: c, at: i } && texts(c@) == texts(
                    candidates@,
                ) && i == at + 1
            },
            Files::End => after is End,
        }
    }

    /// The records once a call is answered.
    pub open spec fn records(self, a: Answer, after: Files, r: Seq<RecordView>) -> Seq<RecordView> {
        let listed = match self {
            Files::Start => r.push(
                listing_note(
                    match a {
                        Answer::Files(entries) => Ok(entries@.len() as int),
                        _ => Err(a.complaint()),
                    },
                ),
            ),
            _ => r,
        };
        match (self, a) {
            (Files::End, _) => listed,
            (Files::Open { candidates, at }, Answer::Count(n)) => listed.push(
                opened_note(candidates@.len(), Some((candidates@[at as int]@, n)), Seq::empty()),
            ),
            (Files::Open { candidates, at }, _) => if after is End {
                listed.push(opened_note(candidates@.len(), None, a.complaint()))
            } else {
                listed
            },
            (Files::Start, Answer::Files(_)) | (Files::Descend { .. }, _) => if after is End {
                listed.push(opened_note(0, None, Seq::empty()))
            } else {
                listed
            },
            _ => listed,
        }
    }

    /// Whether a call is the one to make.
    pub open spec fn asks(self, c: Call) -> bool {
        match self {
            Files::Start => c matches Call::ListFiles(path) && path@.len() == 0,
            Files::Descend { candidates, dirs, at } => c matches Call::ListFiles(path) && path@
                == dirs@[at as int]@,
            Files::Open { candidates, at } => c matches Call::ReadFile(name)
                && name@ == candidates@[at as int]@,
            Files::End => c is Finish,
        }
    }

    /// What is to be done next.
    pub fn call(&self) -> (c: Call)
        requires
            self.valid(),
        ensures
            self.asks(c),
    {
        match self {
            Files::Start => Call::ListFiles(String::new()),
            Files::Descend { candidates: _, dirs, at } => Call::ListFiles(dirs[*at].clone()),
            Files::Open { candidates, at } => Call::ReadFile(
                candidates[*at].clone(),
            ),
            Files::End => Call::Finish,
        }
    }

    /// Goes on to the candidates, or records that there are none.
    fn open(candidates: Vec<String>, report: &mut Report) -> (s: Files)
        ensures
            s.valid(),
            s.opens(texts(candidates@)),
            final(report)@ == (if candidates@.len() == 0 {
                old(report)@.push(opened_note(0, None, Seq::empty()))
            } else {
                old(report)@
            }),
    {
        assert(""@ =~= Seq::<char>::empty()) by {
            reveal_strlit("");
        }
        if candidates.len() == 0 {
            report.on_file_read(0, None, "");
            Files::End
        } else {
            Files::Open { candidates, at: 0 }
        }
    }

    /// Takes the answer to the call.
    pub fn step(self, a: Answer, report: &mut Report) -> (s: Files)
        requires
            self.valid(),
        ensures
            s.valid(),
            self.leads(a, s),
            final(report)@ == self.records(a, s, old(report)@),
    {
        assert(""@ =~= Seq::<char>::empty()) by {
            reveal_strlit("");
        }
        match self {
            Files::Start => {
                let listed = match a {
                    Answer::Files(entries) => Ok(entries),
                    other => Err(other.into_complaint()),
                };
                match report.on_files(listed) {
                    None => Files::End,
                    Some(entries) => {
                        let candidates = file_candidates(&entries);
                        let dirs = subdirectories(&entries);
                        if dirs.len() > 0 {
                            Files::Descend { candidates, dirs, at: 0 }
                        } else {
                            Files::open(candidates, report)
                        }
                    },
                }
            },
            Files::Descend { candidates, dirs, at } => {
                let mut candidates = candidates;
                let ghost before = texts(candidates@);
                match a {
                    Answer::Files(entries) => {
                        add_candidates(&mut candidates, dirs[at].as_str(), &entries);
                    },
                    _ => {
                        assert(before + Seq::<Seq<char>>::empty() =~= before);
                    },
                }
                if at < dirs.len() - 1 {
                    Files::Descend { candidates, dirs, at: at + 1 }
                } else {
                    Files::open(candidates, report)
                }
            },
            Files::Open { candidates, at } => match a {
                Answer::Count(n) => {
                    let name = candidates[at].clone();
                    report.on_file_read(candidates.len(), Some((name, n)), "");
                    Files::End
                },
                other => {
                    if at < candidates.len() - 1 {
                        Files::Open { candidates, at: at + 1 }
                    } else {
                        let e = other.into_complaint();
                        report.on_file_read(candidates.len(), None, e.as_str());
                        Files::End
                    }
                },
            },
            Files::End => Files::End,
        }
    }
}

// ---- measurands ----
/// The leaves that are tried, in order: the magnitudes of each object.
pub open spec fn magnitudes(objects: Seq<Seq<char>>) -> Seq<Seq<char>> {
    Seq::new(
        2 * objects.len(),
        |i: int|
            objects[i / 2] + (if i % 2 == 0 {
                ".mag.f"@
            } else {
                ".mag.i"@
            }),
    )
}

/// The leaves of objects that can safely be read and written, in the order in
/// which they are tried.
pub fn magnitudes_of(objects: &Vec<ObjectReference>) -> (v: Vec<ObjectReference>)
    ensures
        reference_texts(v@) == magnitudes(reference_texts(objects@)),
{
    let ghost all = magnitudes(reference_texts(objects@));
    let mut v: Vec<ObjectReference> = Vec::new();
    let mut i: usize = 0;
    while i < objects.len()
        invariant
            i <= objects@.len(),
            all == magnitudes(reference_texts(objects@)),
            v@.len() == 2 * i,
            forall|j: int| 0 <= j < v@.len() ==> (#[trigger] v@[j])@ == all[j],
        decreases objects@.len() - i,
    {
        let mut two = measurands(&objects[i]);
        proof {
            assert(reference_texts(objects@)[i as int] == objects@[i as int]@);
            assert((2 * i) / 2 == i && (2 * i) % 2 == 0);
            assert((2 * i + 1) / 2 == i && (2 * i + 1) % 2 == 1);
            assert(all[2 * i] == two@[0]@);
            assert(all[2 * i + 1] == two@[1]@);
        }
        v.append(&mut two);
        i = i + 1;
    }
    assert(reference_texts(v@) =~= all);
    v
}

/// The next place in a list of candidates, none where it was the last one.
fn next_place(at: usize, len: usize) -> (r: Option<usize>)
    requires
        at < len,
    ensures
        r == (if at + 1 < len {
            Some((at + 1) as usize)
        } else {
            None
        }),
{
    if at < len - 1 {
        Some(at + 1)
    } else {
        None
    }
}

// ---- reading and writing ----
/// Where the section on reading and writing stands.
#[derive(Debug)]
pub enum ReadWrite {
    /// The data objects are to be listed.
    Start,
    /// A measurand is looked for among candidates: those from `at` on.
    Seek { candidates: Vec<ObjectReference>, at: usize },
    /// The measurand is to be read.
    Read(ObjectReference),
    /// The measurand is to be read twice in one request.
    Batch(ObjectReference),
    /// The measurand is to be read, to be written back.
    ReadBack(ObjectReference),
    /// The value is to be written back.
    WriteBack(ObjectReference, Value),
    /// Something that cannot exist is to be read.
    Absent,
    End,
}

impl ReadWrite {
    /// Whether there is something at the place where the section stands.
    pub open spec fn valid(self) -> bool {
        self matches ReadWrite::Seek { candidates, at } ==> at < candidates@.len()
    }

    /// Whether `after` is where the section stands once a call is answered.
    pub open spec fn leads(self, a: Answer, after: ReadWrite) -> bool {
        match self {
            ReadWrite::Start => {
                let found = magnitudes(a.references());
                if found.len() == 0 {
                    after is End
                } else {
                    after matches ReadWrite::Seek { candidates, at } && reference_texts(candidates@)
                        == found && at == 0
                }
            },
            ReadWrite::Seek { candidates, at } => if a is Reading {
                after matches ReadWrite::Read(r) && r@ == candidates@[at as int]@
            } else if at + 1 >= candidates@.len() {
                after is End
            } else {
                after matches ReadWrite::Seek { candidates: c, at: i } && c == candidates && i == at
                    + 1
            },
            ReadWrite::Read(r) => after == ReadWrite::Batch(r),
            ReadWrite::Batch(r) => after == ReadWrite::ReadBack(r),
            ReadWrite::ReadBack(r) => match a {
                Answer::Reading(v, _) => after == ReadWrite::WriteBack(r, v),
                _ => after is Absent,
            },
            ReadWrite::WriteBack(_, _) => after is Absent,
            ReadWrite::Absent => after is End,
            ReadWrite::End => after is End,
        }
    }

    /// The records once a call is answered.
    pub open spec fn records(self, a: Answer, after: ReadWrite, r: Seq<RecordView>) -> Seq<
        RecordView,
    > {
        match self {
            ReadWrite::Start | ReadWrite::Seek { .. } => if after is End {
                without_measurand(r)
            } else {
                r
            },
            ReadWrite::Read(reference) => r.push(read_note(reference@, a.shown())),
            ReadWrite::Batch(_) => r.push(batch_note(a.number())),
            ReadWrite::ReadBack(_) => if a is Reading {
                r
            } else {
                r.push(unread_note(a.complaint()))
            },
            ReadWrite::WriteBack(_, _) => r.push(written_note(a.outcome())),
            ReadWrite::Absent => r.push(absent_note(a is Reading)),
            ReadWrite::End => r,
        }
    }

    /// Whether a call is the one to make.
    pub open spec fn asks(self, ld: Seq<char>, c: Call) -> bool {
        match self {
            ReadWrite::Start => c == Call::Browse(AcsiClass::DataObject),
            ReadWrite::Seek { candidates, at } => c matches Call::Read(r, fc) && r@
                == candidates@[at as int]@ && fc == Fc::Mx,
            ReadWrite::Read(reference) => c matches Call::Read(r, fc) && r@ == reference@ && fc
                == Fc::Mx,
            ReadWrite::Batch(reference) => c matches Call::ReadTwice(r, fc) && r@ == reference@
                && fc == Fc::Mx,
            ReadWrite::ReadBack(reference) => c matches Call::Read(r, fc) && r@ == reference@
                && fc == Fc::Mx,
            ReadWrite::WriteBack(reference, value) => c matches Call::Write(r, fc, v) && r@
                == reference@ && fc == Fc::Mx && v@ == value@,
            ReadWrite::Absent => c matches Call::Read(r, fc) && r@ == ld
                + "/NOSUCHLN.NoSuchDO.stVal"@ && fc == Fc::St,
            ReadWrite::End => c is Finish,
        }
    }

    /// What is to be done next in a device.
    pub fn call(&self, ld: &str) -> (c: Call)
        requires
            self.valid(),
        ensures
            self.asks(ld@, c),
    {
        match self {
            ReadWrite::Start => Call::Browse(AcsiClass::DataObject),
            ReadWrite::Seek { candidates, at } => Call::Read(candidates[*at].clone(), Fc::Mx),
            ReadWrite::Read(r) => Call::Read(r.clone(), Fc::Mx),
            ReadWrite::Batch(r) => Call::ReadTwice(r.clone(), Fc::Mx),
            ReadWrite::ReadBack(r) => Call::Read(r.clone(), Fc::Mx),
            ReadWrite::WriteBack(r, v) => Call::Write(r.clone(), Fc::Mx, v.clone()),
            ReadWrite::Absent => Call::Read(no_such_reference(ld), Fc::St),
            ReadWrite::End => Call::Finish,
        }
    }

    /// Takes the answer to the call.
    pub fn step(self, a: Answer, report: &mut Report) -> (s: ReadWrite)
        requires
            self.valid(),
        ensures
            s.valid(),
            self.leads(a, s),
            final(report)@ == self.records(a, s, old(report)@),
    {
        match self {
            ReadWrite::Start => {
                let objects = a.into_references();
                let candidates = magnitudes_of(&objects);
                assert(reference_texts(candidates@).len() == candidates@.len());
                if candidates.len() == 0 {
                    report.on_no_measurand();
                    ReadWrite::End
                } else {
                    ReadWrite::Seek { candidates, at: 0 }
                }
            },
            ReadWrite::Seek { candidates, at } => match a {
                Answer::Reading(_, _) => ReadWrite::Read(candidates[at].clone()),
                _ => match next_place(at, candidates.len()) {
                    Some(at) => ReadWrite::Seek { candidates, at },
                    None => {
                        report.on_no_measurand();
                        ReadWrite::End
                    },
                },
            },
            ReadWrite::Read(r) => {
                report.on_read(r.as_str(), a.into_shown());
                ReadWrite::Batch(r)
            },
            ReadWrite::Batch(r) => {
                report.on_batch(a.into_number());
                ReadWrite::ReadBack(r)
            },
            ReadWrite::ReadBack(r) => match a {
                Answer::Reading(v, _) => ReadWrite::WriteBack(r, v),
                other => {
                    report.on_write_back(Err(other.into_complaint()));
                    ReadWrite::Absent
                },
            },
            ReadWrite::WriteBack(_, _) => {
                report.on_write_back(Ok(a.into_outcome()));
                ReadWrite::Absent
            },
            ReadWrite::Absent => {
                let answered = match a {
                    Answer::Reading(_, _) => true,
                    _ => false,
                };
                report.on_absent(answered);
                ReadWrite::End
            },
            ReadWrite::End => ReadWrite::End,
        }
    }
}

// ---- datasets ----
/// Where the section on datasets stands.
#[derive(Debug)]
pub enum DataSets {
    /// The datasets are to be listed.
    Start,
    /// A dataset is to be read.
    ReadSet(ObjectReference),
    /// The data objects are to be listed.
    Objects,
    /// A member is looked for among candidates: those from `at` on.
    Seek { candidates: Vec<ObjectReference>, at: usize },
    /// Anything that a previous run left behind is to be deleted.
    CleanUp(ObjectReference),
    /// A dataset of one member is to be created.
    Create(ObjectReference),
    /// Its members are to be listed.
    Members,
    /// It is to be deleted.
    Delete,
    End,
}

/// What the reference of the dataset reads that a sweep creates and deletes.
pub open spec fn dynamic_text(ld: Seq<char>) -> Seq<char> {
    ld + "/LLN0.rsIec61850Sweep"@
}

impl DataSets {
    /// Whether there is something at the place where the section stands.
    pub open spec fn valid(self) -> bool {
        self matches DataSets::Seek { candidates, at } ==> at < candidates@.len()
    }

    /// Whether `after` is where the section stands once a call is answered. A
    /// device that refuses to create a dataset is not broken.
    pub open spec fn leads(self, a: Answer, after: DataSets) -> bool {
        match self {
            DataSets::Start => if a.references().len() == 0 {
                after is Objects
            } else {
                after matches DataSets::ReadSet(r) && r@ == a.references()[0]
            },
            DataSets::ReadSet(_) => after is Objects,
            DataSets::Objects => {
                let found = magnitudes(a.references());
                if found.len() == 0 {
                    after is End
                } else {
                    after matches DataSets::Seek { candidates, at } && reference_texts(candidates@)
                        == found && at == 0
                }
            },
            DataSets::Seek { candidates, at } => if a is Reading {
                after matches DataSets::CleanUp(m) && m@ == candidates@[at as int]@
            } else if at + 1 >= candidates@.len() {
                after is End
            } else {
                after matches DataSets::Seek { candidates: c, at: i } && c == candidates && i == at
                    + 1
            },
            DataSets::CleanUp(m) => after == DataSets::Create(m),
            DataSets::Create(_) => if a is Done {
                after is Members
            } else {
                after is End
            },
            DataSets::Members => after is Delete,
            DataSets::Delete => after is End,
            DataSets::End => after is End,
        }
    }

    /// The records once a call is answered.
    pub open spec fn records(
        self,
        ld: Seq<char>,
        a: Answer,
        after: DataSets,
        r: Seq<RecordView>,
    ) -> Seq<RecordView> {
        match self {
            DataSets::Start => if after is Objects {
                r.push(no_dataset_note())
            } else {
                r
            },
            DataSets::ReadSet(reference) => r.push(dataset_note(reference@, a.number())),
            DataSets::Objects | DataSets::Seek { .. } => if after is End {
                r.push(no_member_note())
            } else {
                r
            },
            DataSets::Create(_) => r.push(created_note(dynamic_text(ld), a.outcome())),
            DataSets::Members => r.push(members_note(a.number())),
            DataSets::Delete => r.push(check_note("deleteDataSet"@, a.outcome())),
            _ => r,
        }
    }

    /// Whether a call is the one to make.
    pub open spec fn asks(self, ld: Seq<char>, c: Call) -> bool {
        match self {
            DataSets::Start => c == Call::Browse(AcsiClass::DataSet),
            DataSets::ReadSet(reference) => c matches Call::ReadDataSet(r) && r@ == reference@,
            DataSets::Objects => c == Call::Browse(AcsiClass::DataObject),
            DataSets::Seek { candidates, at } => c matches Call::Read(r, fc) && r@
                == candidates@[at as int]@ && fc == Fc::Mx,
            DataSets::CleanUp(_) => c matches Call::DeleteDataSet(r) && r@ == dynamic_text(ld),
            DataSets::Create(member) => c matches Call::CreateDataSet(r, m, fc) && r@
                == dynamic_text(ld) && m@ == member@ && fc == Fc::Mx,
            DataSets::Members => c matches Call::DataSetMembers(r) && r@ == dynamic_text(ld),
            DataSets::Delete => c matches Call::DeleteDataSet(r) && r@ == dynamic_text(ld),
            DataSets::End => c is Finish,
        }
    }

    /// What is to be done next in a device.
    pub fn call(&self, ld: &str) -> (c: Call)
        requires
            self.valid(),
        ensures
            self.asks(ld@, c),
    {
        match self {
            DataSets::Start => Call::Browse(AcsiClass::DataSet),
            DataSets::ReadSet(r) => Call::ReadDataSet(r.clone()),
            DataSets::Objects => Call::Browse(AcsiClass::DataObject),
            DataSets::Seek { candidates, at } => Call::Read(candidates[*at].clone(), Fc::Mx),
            DataSets::CleanUp(_) => Call::DeleteDataSet(dynamic_dataset(ld)),
            DataSets::Create(m) => Call::CreateDataSet(dynamic_dataset(ld), m.clone(), Fc::Mx),
            DataSets::Members => Call::DataSetMembers(dynamic_dataset(ld)),
            DataSets::Delete => Call::DeleteDataSet(dynamic_dataset(ld)),
            DataSets::End => Call::Finish,
        }
    }

    /// Takes the answer to the call.
    pub fn step(self, ld: &str, a: Answer, report: &mut Report) -> (s: DataSets)
        requires
            self.valid(),
        ensures
            s.valid(),
            self.leads(a, s),
            final(report)@ == self.records(ld@, a, s, old(report)@),
    {
        match self {
            DataSets::Start => {
                let sets = a.into_references();
                assert(reference_texts(sets@).len() == sets@.len());
                match report.pick_dataset(&sets) {
                    Some(r) => DataSets::ReadSet(r),
                    None => DataSets::Objects,
                }
            },
            DataSets::ReadSet(r) => {
                report.on_dataset(r.as_str(), a.into_number());
                DataSets::Objects
            },
            DataSets::Objects => {
                let objects = a.into_references();
                let candidates = magnitudes_of(&objects);
                assert(reference_texts(candidates@).len() == candidates@.len());
                if candidates.len() == 0 {
                    report.on_no_member();
                    DataSets::End
                } else {
                    DataSets::Seek { candidates, at: 0 }
                }
            },
            DataSets::Seek { candidates, at } => match a {
                Answer::Reading(_, _) => DataSets::CleanUp(candidates[at].clone()),
                _ => match next_place(at, candidates.len()) {
                    Some(at) => DataSets::Seek { candidates, at },
                    None => {
                        report.on_no_member();
                        DataSets::End
                    },
                },
            },
            DataSets::CleanUp(m) => DataSets::Create(m),
            DataSets::Create(_) => {
                let dynamic = dynamic_dataset(ld);
                if report.on_created(dynamic.as_str(), a.into_outcome()) {
                    DataSets::Members
                } else {
                    DataSets::End
                }
            },
            DataSets::Members => {
                report.on_members(a.into_number());
                DataSets::Delete
            },
            DataSets::Delete => {
                report.check("deleteDataSet", a.into_outcome());
                DataSets::End
            },
            DataSets::End => DataSets::End,
        }
    }
}

// ---- reporting ----
/// The two kinds of report control blocks, in the order in which they are tried.
#[derive(Debug, Clone, Copy, PartialEq, Eq, Structural)]
pub enum BlockKind {
    Unbuffered,
    Buffered,
}

impl BlockKind {
    /// What the records call a kind.
    pub open spec fn text(self) -> Seq<char> {
        match self {
            BlockKind::Unbuffered => "URCB"@,
            BlockKind::Buffered => "BRCB"@,
        }
    }

    /// The class of a kind.
    pub open spec fn class_of(self) -> AcsiClass {
        match self {
            BlockKind::Unbuffered => AcsiClass::Urcb,
            BlockKind::Buffered => AcsiClass::Brcb,
        }
    }

    pub fn label(self) -> (s: &'static str)
        ensures
            s@ == self.text(),
    {
        match self {
            BlockKind::Unbuffered => "URCB",
            BlockKind::Buffered => "BRCB",
        }
    }

    pub fn class(self) -> (c: AcsiClass)
        ensures
            c == self.class_of(),
    {
        match self {
            BlockKind::Unbuffered => AcsiClass::Urcb,
            BlockKind::Buffered => AcsiClass::Brcb,
        }
    }
}

/// Where the section on reporting stands.
#[derive(Debug)]
pub enum Reporting {
    /// The control blocks of a kind are to be listed.
    Blocks(BlockKind),
    /// A control block is to be read.
    Get(BlockKind, ObjectReference),
    /// It is to be enabled.
    Enable(BlockKind, ObjectReference, Rcb),
    /// It is to be interrogated.
    Interrogate(BlockKind),
    /// It is to be disabled.
    Disable(BlockKind),
    End,
}

impl Reporting {
    /// Where the section stands once a kind is done with.
    pub open spec fn behind(kind: BlockKind) -> Reporting {
        match kind {
            BlockKind::Unbuffered => Reporting::Blocks(BlockKind::Buffered),
            BlockKind::Buffered => Reporting::End,
        }
    }

    /// Whether `after` is where the section stands once a call is answered.
    pub open spec fn leads(self, a: Answer, after: Reporting) -> bool {
        match self {
            Reporting::Blocks(kind) => if a.references().len() == 0 {
                after == Reporting::behind(kind)
            } else {
                after matches Reporting::Get(k, r) && k == kind && r@ == a.references()[0]
            },
            Reporting::Get(kind, r) => match a {
                Answer::Block(rcb) => if rcb.rpt_id@.len() == 0 {
                    after == Reporting::behind(kind)
                } else {
                    after == Reporting::Enable(kind, r, prepared(rcb))
                },
                _ => after == Reporting::behind(kind),
            },
            Reporting::Enable(kind, _, _) => if a is Done {
                after == Reporting::Interrogate(kind)
            } else {
                after == Reporting::behind(kind)
            },
            Reporting::Interrogate(kind) => after == Reporting::Disable(kind),
            Reporting::Disable(kind) => after == Reporting::behind(kind),
            Reporting::End => after is End,
        }
    }

    /// The records once a call is answered.
    pub open spec fn records(self, a: Answer, r: Seq<RecordView>) -> Seq<RecordView> {
        match self {
            Reporting::Blocks(kind) => if a.references().len() == 0 {
                r.push(no_block_note(kind.text()))
            } else {
                r
            },
            Reporting::Get(kind, _) => {
                let name = labelled("getRCB"@, kind.text());
                match a {
                    Answer::Block(rcb) => {
                        let read = r.push(check_note(name, Ok::<(), Seq<char>>(())));
                        if rcb.rpt_id@.len() == 0 {
                            read.push(no_id_note(kind.text()))
                        } else {
                            read
                        }
                    },
                    _ => r.push(check_note(name, Err::<(), Seq<char>>(a.complaint()))),
                }
            },
            Reporting::Enable(kind, reference, _) => r.push(
                enabled_note(kind.text(), reference@, a.outcome()),
            ),
            Reporting::Interrogate(kind) => r.push(interrogation_note(kind.text(), a.number())),
            Reporting::Disable(kind) => r.push(
                check_note(labelled("disableReporting"@, kind.text()), a.outcome()),
            ),
            Reporting::End => r,
        }
    }

    /// Whether a call is the one to make.
    pub open spec fn asks(self, c: Call) -> bool {
        match self {
            Reporting::Blocks(kind) => c == Call::Browse(kind.class_of()),
            Reporting::Get(_, reference) => c matches Call::GetRcb(r) && r@ == reference@,
            Reporting::Enable(_, _, rcb) => c matches Call::Enable(b) && b.same_block(rcb),
            Reporting::Interrogate(_) => c is Interrogate,
            Reporting::Disable(_) => c is Disable,
            Reporting::End => c is Finish,
        }
    }

    /// What is to be done next. The block to enable is handed over whole.
    pub fn call(&self) -> (c: Call)
        ensures
            self.asks(c),
    {
        match self {
            Reporting::Blocks(kind) => Call::Browse(kind.class()),
            Reporting::Get(_, r) => Call::GetRcb(r.clone()),
            Reporting::Enable(_, _, rcb) => Call::Enable(rcb.clone()),
            Reporting::Interrogate(_) => Call::Interrogate,
            Reporting::Disable(_) => Call::Disable,
            Reporting::End => Call::Finish,
        }
    }

    fn next_kind(kind: BlockKind) -> (s: Reporting)
        ensures
            s == Reporting::behind(kind),
    {
        match kind {
            BlockKind::Unbuffered => Reporting::Blocks(BlockKind::Buffered),
            BlockKind::Buffered => Reporting::End,
        }
    }

    /// Takes the answer to the call.
    pub fn step(self, a: Answer, report: &mut Report) -> (s: Reporting)
        ensures
            self.leads(a, s),
            final(report)@ == self.records(a, old(report)@),
    {
        match self {
            Reporting::Blocks(kind) => {
                let blocks = a.into_references();
                assert(reference_texts(blocks@).len() == blocks@.len());
                match report.pick_block(kind.label(), &blocks) {
                    Some(r) => Reporting::Get(kind, r),
                    None => Reporting::next_kind(kind),
                }
            },
            Reporting::Get(kind, r) => {
                let got = match a {
                    Answer::Block(rcb) => Ok(rcb),
                    other => Err(other.into_complaint()),
                };
                match report.on_rcb(kind.label(), got) {
                    Some(rcb) => Reporting::Enable(kind, r, rcb),
                    None => Reporting::next_kind(kind),
                }
            },
            Reporting::Enable(kind, r, _) => {
                if report.on_reporting(kind.label(), r.as_str(), a.into_outcome()) {
                    Reporting::Interrogate(kind)
                } else {
                    Reporting::next_kind(kind)
                }
            },
            Reporting::Interrogate(kind) => {
                report.on_interrogation(kind.label(), a.into_number());
                Reporting::Disable(kind)
            },
            Reporting::Disable(kind) => {
                report.on_disabled(kind.label(), a.into_outcome());
                Reporting::next_kind(kind)
            },
            Reporting::End => Reporting::End,
        }
    }
}

// ---- control ----
/// Where the section on control stands.
#[derive(Debug)]
pub enum Control {
    /// The data objects are to be listed.
    Start,
    /// A controllable object is looked for: those from `at` on.
    Seek { objects: Vec<ObjectReference>, at: usize },
    /// The object is to be taken hold of.
    Handle(ObjectReference),
    /// The type of its control value is to be asked for.
    Spec(ObjectReference, CtlModel),
    /// Its present state is to be read, so that it can be put back.
    Before(ObjectReference),
    /// It is to be operated.
    Operate { object: ObjectReference, before: Option<Value>, want: bool },
    /// Its status is to be read, which should follow the command.
    Status { object: ObjectReference, before: Option<Value>, want: bool },
    /// It is to be put back where it was.
    Restore(Value),
    End,
}

/// The value that was read, if it was.
pub open spec fn value_read(a: Answer) -> Option<Data> {
    match a {
        Answer::Reading(v, _) => Some(v@),
        _ => None,
    }
}

/// What is known of a state before a command.
pub open spec fn state_view(before: Option<Value>) -> Option<Data> {
    match before {
        Some(v) => Some(v@),
        None => None,
    }
}

impl Control {
    /// Whether there is something at the place where the section stands.
    pub open spec fn valid(self) -> bool {
        self matches Control::Seek { objects, at } ==> at < objects@.len()
    }

    /// Whether `after` is where the section stands once a call is answered. The
    /// command is the opposite of the present state, and the present state is
    /// what is put back.
    pub open spec fn leads(self, a: Answer, after: Control) -> bool {
        match self {
            Control::Start => if a.references().len() == 0 {
                after is End
            } else {
                after matches Control::Seek { objects, at } && reference_texts(objects@)
                    == a.references() && at == 0
            },
            Control::Seek { objects, at } => if a matches Answer::Names(names) && texts(
                names@,
            ).contains("Oper"@) {
                after matches Control::Handle(r) && r@ == objects@[at as int]@
            } else if at + 1 >= objects@.len() {
                after is End
            } else {
                after matches Control::Seek { objects: o, at: i } && o == objects && i == at + 1
            },
            Control::Handle(r) => match a {
                Answer::Model(m) => after == Control::Spec(r, m),
                _ => after is End,
            },
            Control::Spec(r, m) => if m == CtlModel::StatusOnly {
                after is End
            } else {
                after == Control::Before(r)
            },
            Control::Before(r) => {
                after matches Control::Operate { object, before, want } && object == r
                    && state_view(before) == value_read(a) && want == (match value_read(a) {
                    Some(d) => !d.truth(),
                    None => true,
                })
            },
            Control::Operate { object, before, want } => if a is Done {
                after == (Control::Status { object, before, want })
            } else {
                after is End
            },
            Control::Status { object, before, want } => match before {
                Some(v) => after == Control::Restore(v),
                None => after is End,
            },
            Control::Restore(_) => after is End,
            Control::End => after is End,
        }
    }

    /// The records once a call is answered.
    pub open spec fn records(self, a: Answer, after: Control, r: Seq<RecordView>) -> Seq<
        RecordView,
    > {
        match self {
            Control::Start | Control::Seek { .. } => if after is End {
                r.push(no_control_note())
            } else {
                r
            },
            Control::Handle(_) => r.push(
                check_note(
                    "controlFor"@,
                    match a {
                        Answer::Model(m) => Ok(m),
                        _ => Err(a.complaint()),
                    },
                ),
            ),
            Control::Spec(_, m) => {
                let asked = r.push(
                    kind_note(
                        match a {
                            Answer::Kind(k) => Ok(k@),
                            _ => Err(a.complaint()),
                        },
                    ),
                );
                if m == CtlModel::StatusOnly {
                    asked.push(status_only_note())
                } else {
                    asked
                }
            },
            Control::Operate { object, before, want } => r.push(
                operated_note(want, a.outcome()),
            ),
            Control::Status { object, before, want } => r.push(status_note(want, a.position())),
            _ => r,
        }
    }

    /// Whether a call is the one to make.
    pub open spec fn asks(self, c: Call) -> bool {
        match self {
            Control::Start => c == Call::Browse(AcsiClass::DataObject),
            Control::Seek { objects, at } => c matches Call::Directory(r, fc) && r@
                == objects@[at as int]@ && fc == Fc::Co,
            Control::Handle(object) => c matches Call::ControlFor(r) && r@ == object@,
            Control::Spec(_, _) => c is CtlValSpec,
            Control::Before(object) => c matches Call::Read(r, fc) && r@ == object@ + "."@
                + "stVal"@ && fc == Fc::St,
            Control::Operate { object, before, want } => c matches Call::Operate(v) && v@
                == Data::Boolean(want),
            Control::Status { object, before, want } => c matches Call::Read(r, fc) && r@
                == object@ + "."@ + "stVal"@ && fc == Fc::St,
            Control::Restore(value) => c matches Call::Operate(v) && v@ == value@,
            Control::End => c is Finish,
        }
    }

    /// What is to be done next.
    pub fn call(&self) -> (c: Call)
        requires
            self.valid(),
        ensures
            self.asks(c),
    {
        match self {
            Control::Start => Call::Browse(AcsiClass::DataObject),
            Control::Seek { objects, at } => Call::Directory(objects[*at].clone(), Fc::Co),
            Control::Handle(r) => Call::ControlFor(r.clone()),
            Control::Spec(_, _) => Call::CtlValSpec,
            Control::Before(r) => Call::Read(r.child("stVal"), Fc::St),
            Control::Operate { object: _, before: _, want } => Call::Operate(
                Value::boolean(*want),
            ),
            Control::Status { object, before: _, want: _ } => Call::Read(
                object.child("stVal"),
                Fc::St,
            ),
            Control::Restore(v) => Call::Operate(v.clone()),
            Control::End => Call::Finish,
        }
    }

    /// Takes the answer to the call.
    pub fn step(self, a: Answer, report: &mut Report) -> (s: Control)
        requires
            self.valid(),
        ensures
            s.valid(),
            self.leads(a, s),
            final(report)@ == self.records(a, s, old(report)@),
    {
        match self {
            Control::Start => {
                let objects = a.into_references();
                assert(reference_texts(objects@).len() == objects@.len());
                if objects.len() == 0 {
                    report.on_no_control();
                    Control::End
                } else {
                    Control::Seek { objects, at: 0 }
                }
            },
            Control::Seek { objects, at } => {
                let children = match a {
                    Answer::Names(names) => Ok(names),
                    other => Err(other.into_complaint()),
                };
                if is_operable(&children) {
                    return Control::Handle(objects[at].clone());
                }
                match next_place(at, objects.len()) {
                    Some(at) => Control::Seek { objects, at },
                    None => {
                        report.on_no_control();
                        Control::End
                    },
                }
            },
            Control::Handle(r) => {
                let handle = match a {
                    Answer::Model(m) => Ok(m),
                    other => Err(other.into_complaint()),
                };
                match report.check("controlFor", handle) {
                    Some(m) => Control::Spec(r, m),
                    None => Control::End,
                }
            },
            Control::Spec(r, m) => {
                let kind = match a {
                    Answer::Kind(k) => Ok(k),
                    other => Err(other.into_complaint()),
                };
                report.on_ctl_val_spec(kind);
                if m.is_controllable() {
                    Control::Before(r)
                } else {
                    report.on_status_only();
                    Control::End
                }
            },
            Control::Before(object) => {
                let before = match a {
                    Answer::Reading(v, _) => Some(v),
                    _ => None,
                };
                let want = opposite(&before);
                Control::Operate { object, before, want }
            },
            Control::Operate { object, before, want } => {
                if report.on_operated(want, a.into_outcome()) {
                    Control::Status { object, before, want }
                } else {
                    Control::End
                }
            },
            Control::Status { object: _, before, want } => {
                let status = match a {
                    Answer::Reading(v, shown) => Ok((v, shown)),
                    other => Err(other.into_complaint()),
                };
                report.on_status(want, status);
                match before {
                    Some(v) => Control::Restore(v),
                    None => Control::End,
                }
            },
            Control::Restore(_) => Control::End,
            Control::End => Control::End,
        }
    }
}

// ---- model, setting groups and logs ----
/// Where a section of two calls stands. The second call may need what the first
/// one brought.
#[derive(Debug)]
pub enum Inquiry {
    /// The model is to be retrieved.
    Model,
    /// The data objects are to be listed.
    Objects,
    /// The setting group control blocks are to be listed.
    Groups,
    /// A setting group control block is to be read.
    ReadGroups(ObjectReference),
    /// The journals are to be listed.
    Journals,
    /// A journal is to be queried.
    Query(ObjectReference),
    End,
}

impl Inquiry {
    /// Whether `after` is where the section stands once a call is answered.
    pub open spec fn leads(self, ld: Seq<char>, a: Answer, after: Inquiry) -> bool {
        match self {
            Inquiry::Model => after is Objects,
            Inquiry::Groups => if a.references().len() == 0 {
                after is End
            } else {
                after matches Inquiry::ReadGroups(r) && r@ == a.references()[0]
            },
            Inquiry::Journals => match a {
                Answer::Names(names) => if names@.len() == 0 {
                    after is End
                } else {
                    after matches Inquiry::Query(r) && r@ == journal_text(ld, names@[0]@)
                },
                _ => after is End,
            },
            _ => after is End,
        }
    }

    /// The records once a call is answered.
    pub open spec fn records(self, a: Answer, r: Seq<RecordView>) -> Seq<RecordView> {
        match self {
            Inquiry::Model => r.push(model_note(a.number())),
            Inquiry::Objects => r.push(browse_note(a.reference_count())),
            Inquiry::Groups => if a.references().len() == 0 {
                r.push(no_groups_note())
            } else {
                r
            },
            Inquiry::ReadGroups(_) => r.push(
                groups_note(
                    match a {
                        Answer::Groups(num, act, edit) => Ok((num, act, edit)),
                        _ => Err(a.complaint()),
                    },
                ),
            ),
            Inquiry::Journals => match a {
                Answer::Names(names) => if names@.len() == 0 {
                    r.push(no_journal_note())
                } else {
                    r
                },
                _ => r.push(no_journals_note(a.complaint())),
            },
            Inquiry::Query(_) => r.push(journal_note(a.number())),
            Inquiry::End => r,
        }
    }

    /// Whether a call is the one to make.
    pub open spec fn asks(self, c: Call) -> bool {
        match self {
            Inquiry::Model => c is CountObjects,
            Inquiry::Objects => c == Call::Browse(AcsiClass::DataObject),
            Inquiry::Groups => c == Call::Browse(AcsiClass::Sgcb),
            Inquiry::ReadGroups(reference) => c matches Call::SettingGroups(r) && r@
                == reference@,
            Inquiry::Journals => c is Journals,
            Inquiry::Query(reference) => c matches Call::QueryLog(r) && r@ == reference@,
            Inquiry::End => c is Finish,
        }
    }

    /// What is to be done next.
    pub fn call(&self) -> (c: Call)
        ensures
            self.asks(c),
    {
        match self {
            Inquiry::Model => Call::CountObjects,
            Inquiry::Objects => Call::Browse(AcsiClass::DataObject),
            Inquiry::Groups => Call::Browse(AcsiClass::Sgcb),
            Inquiry::ReadGroups(r) => Call::SettingGroups(r.clone()),
            Inquiry::Journals => Call::Journals,
            Inquiry::Query(r) => Call::QueryLog(r.clone()),
            Inquiry::End => Call::Finish,
        }
    }

    /// Takes the answer to the call.
    pub fn step(self, ld: &str, a: Answer, report: &mut Report) -> (s: Inquiry)
        ensures
            self.leads(ld@, a, s),
            final(report)@ == self.records(a, old(report)@),
    {
        match self {
            Inquiry::Model => {
                report.on_model(a.into_number());
                Inquiry::Objects
            },
            Inquiry::Objects => {
                let entries = match a {
                    Answer::References(v) => Ok(v.len()),
                    other => Err(other.into_complaint()),
                };
                report.on_browse(entries);
                Inquiry::End
            },
            Inquiry::Groups => {
                let blocks = a.into_references();
                assert(reference_texts(blocks@).len() == blocks@.len());
                if blocks.len() == 0 {
                    report.on_no_sgcb();
                    Inquiry::End
                } else {
                    Inquiry::ReadGroups(blocks[0].clone())
                }
            },
            Inquiry::ReadGroups(_) => {
                let groups = match a {
                    Answer::Groups(num, act, edit) => Ok((num, act, edit)),
                    other => Err(other.into_complaint()),
                };
                report.on_setting_groups(groups);
                Inquiry::End
            },
            Inquiry::Journals => {
                let names = match a {
                    Answer::Names(names) => Ok(names),
                    other => Err(other.into_complaint()),
                };
                match report.pick_journal(ld, names) {
                    Some(r) => Inquiry::Query(r),
                    None => Inquiry::End,
                }
            },
            Inquiry::Query(_) => {
                report.on_journal(a.into_number());
                Inquiry::End
            },
            Inquiry::End => Inquiry::End,
        }
    }
}

// ---- the whole sweep ----
/// Where a sweep stands.
#[derive(Debug)]
pub enum Place {
    Identify,
    Devices,
    Nodes,
    Model(Inquiry),
    ReadWrite(ReadWrite),
    DataSets(DataSets),
    Reporting(Reporting),
    Control(Control),
    Groups(Inquiry),
    Files(Files),
    Logs(Inquiry),
    End,
}

impl Place {
    /// The beginning of the section behind one that has come to its end, and
    /// otherwise the place itself.
    pub open spec fn settled(self) -> Place {
        match self {
            Place::Model(Inquiry::End) => Place::ReadWrite(ReadWrite::Start),
            Place::ReadWrite(ReadWrite::End) => Place::DataSets(DataSets::Start),
            Place::DataSets(DataSets::End) => Place::Reporting(
                Reporting::Blocks(BlockKind::Unbuffered),
            ),
            Place::Reporting(Reporting::End) => Place::Control(Control::Start),
            Place::Control(Control::End) => Place::Groups(Inquiry::Groups),
            Place::Groups(Inquiry::End) => Place::Files(Files::Start),
            Place::Files(Files::End) => Place::Logs(Inquiry::Journals),
            Place::Logs(Inquiry::End) => Place::End,
            other => other,
        }
    }

    /// Whether there is something at the place.
    pub open spec fn valid(self) -> bool {
        match self {
            Place::ReadWrite(s) => s.valid(),
            Place::DataSets(s) => s.valid(),
            Place::Control(s) => s.valid(),
            Place::Files(s) => s.valid(),
            _ => true,
        }
    }

    /// The heading of the section that begins at the place.
    pub open spec fn heading(self) -> Option<Seq<char>> {
        match self {
            Place::Identify => Some("== association =="@),
            Place::Devices => Some("\n== browse =="@),
            Place::Model(Inquiry::Model) => Some("\n== model retrieval =="@),
            Place::ReadWrite(ReadWrite::Start) => Some("\n== read and write =="@),
            Place::DataSets(DataSets::Start) => Some("\n== datasets =="@),
            Place::Reporting(Reporting::Blocks(BlockKind::Unbuffered)) => Some(
                "\n== reporting =="@,
            ),
            Place::Control(Control::Start) => Some("\n== control =="@),
            Place::Groups(Inquiry::Groups) => Some("\n== setting groups =="@),
            Place::Files(Files::Start) => Some("\n== file services =="@),
            Place::Logs(Inquiry::Journals) => Some("\n== logs =="@),
            _ => None,
        }
    }

    fn settle(self) -> (p: Place)
        ensures
            p == self.settled(),
    {
        match self {
            Place::Model(Inquiry::End) => Place::ReadWrite(ReadWrite::Start),
            Place::ReadWrite(ReadWrite::End) => Place::DataSets(DataSets::Start),
            Place::DataSets(DataSets::End) => Place::Reporting(
                Reporting::Blocks(BlockKind::Unbuffered),
            ),
            Place::Reporting(Reporting::End) => Place::Control(Control::Start),
            Place::Control(Control::End) => Place::Groups(Inquiry::Groups),
            Place::Groups(Inquiry::End) => Place::Files(Files::Start),
            Place::Files(Files::End) => Place::Logs(Inquiry::Journals),
            Place::Logs(Inquiry::End) => Place::End,
            other => other,
        }
    }

    fn title(&self) -> (r: Option<&'static str>)
        ensures
            match (r, self.heading()) {
                (Some(t), Some(want)) => t@ == want,
                (None, None) => true,
                _ => false,
            },
    {
        match self {
            Place::Identify => Some("== association =="),
            Place::Devices => Some("\n== browse =="),
            Place::Model(Inquiry::Model) => Some("\n== model retrieval =="),
            Place::ReadWrite(ReadWrite::Start) => Some("\n== read and write =="),
            Place::DataSets(DataSets::Start) => Some("\n== datasets =="),
            Place::Reporting(Reporting::Blocks(BlockKind::Unbuffered)) => Some(
                "\n== reporting ==",
            ),
            Place::Control(Control::Start) => Some("\n== control =="),
            Place::Groups(Inquiry::Groups) => Some("\n== setting groups =="),
            Place::Files(Files::Start) => Some("\n== file services =="),
            Place::Logs(Inquiry::Journals) => Some("\n== logs =="),
            _ => None,
        }
    }
}

/// A sweep: where it stands, the device that it works with, and what was
/// recorded.
#[derive(Debug)]
pub struct Sweep {
    pub at: Place,
    pub ld: String,
    pub report: Report,
}

/// The names in an answer.
pub open spec fn names_in(a: Answer) -> Result<Seq<Seq<char>>, Seq<char>> {
    match a {
        Answer::Names(v) => Ok(texts(v@)),
        _ => Err(a.complaint()),
    }
}

/// The records once the logical nodes were asked for.
pub open spec fn nodes_recorded(a: Answer, r: Seq<RecordView>) -> Seq<RecordView> {
    let listed = r.push(check_note("getNameList(namedVariable)"@, names_in(a)));
    if names_in(a) is Err || names_in(a)->Ok_0.len() == 0 {
        listed.push(failed("logical nodes"@, "the device reports none"@))
    } else {
        listed
    }
}

/// The records once the logical devices were asked for.
pub open spec fn devices_recorded(a: Answer, r: Seq<RecordView>) -> Seq<RecordView> {
    let listed = r.push(check_note("getNameList(domain)"@, names_in(a)));
    if names_in(a) is Ok && names_in(a)->Ok_0.len() == 0 {
        listed.push(failed("logical devices"@, "the server reports none"@))
    } else {
        listed
    }
}

impl Sweep {
    /// Whether there is something at the place where the sweep stands.
    pub open spec fn valid(self) -> bool {
        self.at.valid()
    }

    /// Whether `after` is this sweep at a place with the records.
    pub open spec fn moves(self, to: Place, records: Seq<RecordView>, after: Sweep) -> bool {
        &&& after.at == to
        &&& after.ld == self.ld
        &&& after.report@ == records
    }

    /// Whether `after` is the sweep once a call is answered. Without a device
    /// there is nothing to sweep; everything else is tried in turn, whatever
    /// came of what was tried before.
    pub open spec fn leads(self, a: Answer, after: Sweep) -> bool {
        let r = self.report@;
        match self.at {
            Place::Identify => self.moves(
                Place::Devices,
                r.push(
                    check_note(
                        "identify"@,
                        match a {
                            Answer::Identity(_, _, _) => Ok(()),
                            _ => Err(a.complaint()),
                        },
                    ),
                ),
                after,
            ),
            Place::Devices => {
                &&& after.report@ == devices_recorded(a, r)
                &&& match names_in(a) {
                    Ok(names) => if names.len() == 0 {
                        after.at is End && after.ld == self.ld
                    } else {
                        after.at is Nodes && after.ld@ == names[0]
                    },
                    Err(_) => after.at is End && after.ld == self.ld,
                }
            },
            Place::Nodes => self.moves(Place::Model(Inquiry::Model), nodes_recorded(a, r), after),
            Place::Model(s) => exists|t: Inquiry| #[trigger]
                s.leads(self.ld@, a, t) && self.moves(
                    Place::Model(t).settled(),
                    s.records(a, r),
                    after,
                ),
            Place::ReadWrite(s) => exists|t: ReadWrite| #[trigger]
                s.leads(a, t) && self.moves(
                    Place::ReadWrite(t).settled(),
                    s.records(a, t, r),
                    after,
                ),
            Place::DataSets(s) => exists|t: DataSets| #[trigger]
                s.leads(a, t) && self.moves(
                    Place::DataSets(t).settled(),
                    s.records(self.ld@, a, t, r),
                    after,
                ),
            Place::Reporting(s) => exists|t: Reporting| #[trigger]
                s.leads(a, t) && self.moves(Place::Reporting(t).settled(), s.records(a, r), after),
            Place::Control(s) => exists|t: Control| #[trigger]
                s.leads(a, t) && self.moves(Place::Control(t).settled(), s.records(a, t, r), after),
            Place::Groups(s) => exists|t: Inquiry| #[trigger]
                s.leads(self.ld@, a, t) && self.moves(
                    Place::Groups(t).settled(),
                    s.records(a, r),
                    after,
                ),
            Place::Files(s) => exists|t: Files| #[trigger]
                s.leads(a, t) && self.moves(Place::Files(t).settled(), s.records(a, t, r), after),
            Place::Logs(s) => exists|t: Inquiry| #[trigger]
                s.leads(self.ld@, a, t) && self.moves(
                    Place::Logs(t).settled(),
                    s.records(a, r),
                    after,
                ),
            Place::End => self.moves(Place::End, r, after),
        }
    }

    /// What is remarked on an answer, if anything.
    pub open spec fn remark(self, a: Answer) -> Option<Seq<char>> {
        match (self.at, a) {
            (Place::Identify, Answer::Identity(vendor, model, revision)) => Some(
                "      "@ + vendor@ + " / "@ + model@ + " / "@ + revision@,
            ),
            (Place::Devices, Answer::Names(names)) => if names@.len() == 0 {
                None
            } else {
                Some(
                    "      "@ + decimal(names@.len()) + " logical device(s), using "@ + names@[0]@,
                )
            },
            (Place::Control(Control::Handle(object)), Answer::Model(m)) => Some(
                "      "@ + object@ + ": "@ + m.text(),
            ),
            _ => None,
        }
    }

    /// A sweep that is to begin.
    pub fn new() -> (s: Sweep)
        ensures
            s.valid(),
            s.at == Place::Identify,
            s.ld@.len() == 0,
            s.report@ == Seq::<RecordView>::empty(),
    {
        Sweep { at: Place::Identify, ld: String::new(), report: Report::default() }
    }

    /// The heading of the section that begins where the sweep stands; behind
    /// the last one come the totals.
    pub fn heading(&self) -> (r: Option<String>)
        ensures
            match (r, self.at.heading()) {
                (Some(s), Some(want)) => s@ == want,
                (Some(s), None) => self.at is End && s@ == "\n"@ + summary_text(self.report@),
                (None, None) => !(self.at is End),
                _ => false,
            },
    {
        match self.at.title() {
            Some(t) => Some(t.to_owned()),
            None => match self.at {
                Place::End => {
                    let mut s = "\n".to_owned();
                    push_str(&mut s, self.report.summary().as_str());
                    Some(s)
                },
                _ => None,
            },
        }
    }

    /// Remarks on the answer to the call.
    pub fn on_answer(&self, a: &Answer) -> (r: Option<String>)
        ensures
            match (r, self.remark(*a)) {
                (Some(s), Some(want)) => s@ == want,
                (None, None) => true,
                _ => false,
            },
    {
        let mut s = "      ".to_owned();
        match (&self.at, a) {
            (Place::Identify, Answer::Identity(vendor, model, revision)) => {
                push_str(&mut s, vendor.as_str());
                push_str(&mut s, " / ");
                push_str(&mut s, model.as_str());
                push_str(&mut s, " / ");
                push_str(&mut s, revision.as_str());
                Some(s)
            },
            (Place::Devices, Answer::Names(names)) => {
                if names.len() == 0 {
                    return None;
                }
                push_decimal(&mut s, names.len() as u64);
                push_str(&mut s, " logical device(s), using ");
                push_str(&mut s, names[0].as_str());
                Some(s)
            },
            (Place::Control(Control::Handle(object)), Answer::Model(m)) => {
                push_str(&mut s, object.as_str());
                push_str(&mut s, ": ");
                push_str(&mut s, m.to_text());
                Some(s)
            },
            _ => None,
        }
    }

    /// Whether a call is the one to make.
    pub open spec fn asks(self, c: Call) -> bool {
        match self.at {
            Place::Identify => c is Identify,
            Place::Devices => c is Devices,
            Place::Nodes => c is Nodes,
            Place::Model(s) => s.asks(c),
            Place::ReadWrite(s) => s.asks(self.ld@, c),
            Place::DataSets(s) => s.asks(self.ld@, c),
            Place::Reporting(s) => s.asks(c),
            Place::Control(s) => s.asks(c),
            Place::Groups(s) => s.asks(c),
            Place::Files(s) => s.asks(c),
            Place::Logs(s) => s.asks(c),
            Place::End => c is Finish,
        }
    }

    /// What is to be done next.
    pub fn call(&self) -> (c: Call)
        requires
            self.valid(),
        ensures
            self.asks(c),
    {
        match &self.at {
            Place::Identify => Call::Identify,
            Place::Devices => Call::Devices,
            Place::Nodes => Call::Nodes,
            Place::Model(s) => s.call(),
            Place::ReadWrite(s) => s.call(self.ld.as_str()),
            Place::DataSets(s) => s.call(self.ld.as_str()),
            Place::Reporting(s) => s.call(),
            Place::Control(s) => s.call(),
            Place::Groups(s) => s.call(),
            Place::Files(s) => s.call(),
            Place::Logs(s) => s.call(),
            Place::End => Call::Finish,
        }
    }

    /// Takes the answer to the call.
    pub fn step(self, a: Answer) -> (s: Sweep)
        requires
            self.valid(),
        ensures
            s.valid(),
            self.leads(a, s),
    {
        let Sweep { at, ld, report } = self;
        let mut report = report;
        match at {
            Place::Identify => {
                let identity = match a {
                    Answer::Identity(_, _, _) => Ok(()),
                    other => Err(other.into_complaint()),
                };
                report.check("identify", identity);
                Sweep { at: Place::Devices, ld, report }
            },
            Place::Devices => {
                let names = match a {
                    Answer::Names(names) => Ok(names),
                    other => Err(other.into_complaint()),
                };
                match report.on_devices(names) {
                    Some(ld) => Sweep { at: Place::Nodes, ld, report },
                    None => Sweep { at: Place::End, ld, report },
                }
            },
            Place::Nodes => {
                let nodes = match a {
                    Answer::Names(names) => Ok(names.len()),
                    other => Err(other.into_complaint()),
                };
                report.on_nodes(nodes);
                Sweep { at: Place::Model(Inquiry::Model), ld, report }
            },
            Place::Model(s) => {
                let t = s.step(ld.as_str(), a, &mut report);
                Sweep { at: Place::Model(t).settle(), ld, report }
            },
            Place::ReadWrite(s) => {
                let t = s.step(a, &mut report);
                Sweep { at: Place::ReadWrite(t).settle(), ld, report }
            },
            Place::DataSets(s) => {
                let t = s.step(ld.as_str(), a, &mut report);
                Sweep { at: Place::DataSets(t).settle(), ld, report }
            },
            Place::Reporting(s) => {
                let t = s.step(a, &mut report);
                Sweep { at: Place::Reporting(t).settle(), ld, report }
            },
            Place::Control(s) => {
                let t = s.step(a, &mut report);
                Sweep { at: Place::Control(t).settle(), ld, report }
            },
            Place::Groups(s) => {
                let t = s.step(ld.as_str(), a, &mut report);
                Sweep { at: Place::Groups(t).settle(), ld, report }
            },
            Place::Files(s) => {
                let t = s.step(a, &mut report);
                Sweep { at: Place::Files(t).settle(), ld, report }
            },
            Place::Logs(s) => {
                let t = s.step(ld.as_str(), a, &mut report);
                Sweep { at: Place::Logs(t).settle(), ld, report }
            },
            Place::End => Sweep { at: Place::End, ld, report },
        }
    }
}

/// How much is ahead of a place: the kinds of steps, and what is left to be
/// tried in the present one.
pub open spec fn ahead(p: Place) -> (int, int) {
    match p {
        Place::Identify => (99, 0),
        Place::Devices => (98, 0),
        Place::Nodes => (97, 0),
        Place::Model(s) => (80 + inquiry_ahead(s), 0),
        Place::ReadWrite(s) => match s {
            ReadWrite::Start => (77, 0),
            ReadWrite::Seek { candidates, at } => (76, candidates@.len() - at),
            ReadWrite::Read(_) => (75, 0),
            ReadWrite::Batch(_) => (74, 0),
            ReadWrite::ReadBack(_) => (73, 0),
            ReadWrite::WriteBack(_, _) => (72, 0),
            ReadWrite::Absent => (71, 0),
            ReadWrite::End => (70, 0),
        },
        Place::DataSets(s) => match s {
            DataSets::Start => (68, 0),
            DataSets::ReadSet(_) => (67, 0),
            DataSets::Objects => (66, 0),
            DataSets::Seek { candidates, at } => (65, candidates@.len() - at),
            DataSets::CleanUp(_) => (64, 0),
            DataSets::Create(_) => (63, 0),
            DataSets::Members => (62, 0),
            DataSets::Delete => (61, 0),
            DataSets::End => (60, 0),
        },
        Place::Reporting(s) => match s {
            Reporting::Blocks(k) => (45 + kind_ahead(k), 0),
            Reporting::Get(k, _) => (44 + kind_ahead(k), 0),
            Reporting::Enable(k, _, _) => (43 + kind_ahead(k), 0),
            Reporting::Interrogate(k) => (42 + kind_ahead(k), 0),
            Reporting::Disable(k) => (41 + kind_ahead(k), 0),
            Reporting::End => (40, 0),
        },
        Place::Control(s) => match s {
            Control::Start => (38, 0),
            Control::Seek { objects, at } => (37, objects@.len() - at),
            Control::Handle(_) => (36, 0),
            Control::Spec(_, _) => (35, 0),
            Control::Before(_) => (34, 0),
            Control::Operate { .. } => (33, 0),
            Control::Status { .. } => (32, 0),
            Control::Restore(_) => (31, 0),
            Control::End => (30, 0),
        },
        Place::Groups(s) => (20 + inquiry_ahead(s), 0),
        Place::Files(s) => match s {
            Files::Start => (13, 0),
            Files::Descend { candidates, dirs, at } => (12, dirs@.len() - at),
            Files::Open { candidates, at } => (11, candidates@.len() - at),
            Files::End => (10, 0),
        },
        Place::Logs(s) => (1 + inquiry_ahead(s), 0),
        Place::End => (0, 0),
    }
}

/// How many kinds of steps are ahead in a section of two calls.
pub open spec fn inquiry_ahead(s: Inquiry) -> int {
    match s {
        Inquiry::Model | Inquiry::Groups | Inquiry::Journals => 2,
        Inquiry::Objects | Inquiry::ReadGroups(_) | Inquiry::Query(_) => 1,
        Inquiry::End => 0,
    }
}

/// What the kind of a control block adds to what is ahead.
pub open spec fn kind_ahead(k: BlockKind) -> int {
    match k {
        BlockKind::Unbuffered => 5,
        BlockKind::Buffered => 0,
    }
}

/// Whether less is ahead of a place than of another one: a kind of step less, or
/// as many and a candidate less.
pub open spec fn nearer(p: Place, q: Place) -> bool {
    ||| ahead(p).0 < ahead(q).0
    ||| ahead(p).0 == ahead(q).0 && ahead(p).1 < ahead(q).1
}

proof fn lemma_read_write_leads_on(s: ReadWrite, a: Answer, t: ReadWrite)
    requires
        s.leads(a, t),
    ensures
        nearer(Place::ReadWrite(t).settled(), Place::ReadWrite(s)),
{
}

proof fn lemma_data_sets_leads_on(s: DataSets, a: Answer, t: DataSets)
    requires
        s.leads(a, t),
    ensures
        nearer(Place::DataSets(t).settled(), Place::DataSets(s)),
{
}

proof fn lemma_reporting_leads_on(s: Reporting, a: Answer, t: Reporting)
    requires
        s.leads(a, t),
    ensures
        nearer(Place::Reporting(t).settled(), Place::Reporting(s)),
{
}

proof fn lemma_control_leads_on(s: Control, a: Answer, t: Control)
    requires
        s.leads(a, t),
    ensures
        nearer(Place::Control(t).settled(), Place::Control(s)),
{
}

proof fn lemma_files_leads_on(s: Files, a: Answer, t: Files)
    requires
        s.valid(),
        s.leads(a, t),
    ensures
        nearer(Place::Files(t).settled(), Place::Files(s)),
{
    match (s, t) {
        (
            Files::Descend { candidates, dirs, at },
            Files::Descend { candidates: c, dirs: d, at: i },
        ) => {
            assert(texts(dirs@).len() == texts(d@).len());
        },
        (Files::Open { candidates, at }, Files::Open { candidates: c, at: i }) => {
            assert(texts(candidates@).len() == texts(c@).len());
        },
        _ => {},
    }
}

proof fn lemma_inquiry_leads_on(s: Inquiry, ld: Seq<char>, a: Answer, t: Inquiry)
    requires
        s.leads(ld, a, t),
    ensures
        t is End || inquiry_ahead(t) < inquiry_ahead(s),
{
}

/// A sweep comes to its end, whatever the server answers: every step leaves
/// less ahead, a kind of step less or a candidate less, and never less than
/// nothing.
pub proof fn a_sweep_comes_to_its_end(b: Sweep, a: Answer, after: Sweep)
    requires
        b.valid(),
        after.valid(),
        !(b.at is End),
        b.leads(a, after),
    ensures
        ahead(after.at).0 >= 0 && ahead(after.at).1 >= 0,
        nearer(after.at, b.at),
{
    match b.at {
        Place::Model(s) => {
            let t = choose|t: Inquiry| #[trigger]
                s.leads(b.ld@, a, t) && b.moves(
                    Place::Model(t).settled(),
                    s.records(a, b.report@),
                    after,
                );
            lemma_inquiry_leads_on(s, b.ld@, a, t);
        },
        Place::ReadWrite(s) => {
            let t = choose|t: ReadWrite| #[trigger]
                s.leads(a, t) && b.moves(
                    Place::ReadWrite(t).settled(),
                    s.records(a, t, b.report@),
                    after,
                );
            lemma_read_write_leads_on(s, a, t);
        },
        Place::DataSets(s) => {
            let t = choose|t: DataSets| #[trigger]
                s.leads(a, t) && b.moves(
                    Place::DataSets(t).settled(),
                    s.records(b.ld@, a, t, b.report@),
                    after,
                );
            lemma_data_sets_leads_on(s, a, t);
        },
        Place::Reporting(s) => {
            let t = choose|t: Reporting| #[trigger]
                s.leads(a, t) && b.moves(
                    Place::Reporting(t).settled(),
                    s.records(a, b.report@),
                    after,
                );
            lemma_reporting_leads_on(s, a, t);
        },
        Place::Control(s) => {
            let t = choose|t: Control| #[trigger]
                s.leads(a, t) && b.moves(
                    Place::Control(t).settled(),
                    s.records(a, t, b.report@),
                    after,
                );
            lemma_control_leads_on(s, a, t);
        },
        Place::Groups(s) => {
            let t = choose|t: Inquiry| #[trigger]
                s.leads(b.ld@, a, t) && b.moves(
                    Place::Groups(t).settled(),
                    s.records(a, b.report@),
                    after,
                );
            lemma_inquiry_leads_on(s, b.ld@, a, t);
        },
        Place::Files(s) => {
            let t = choose|t: Files| #[trigger]
                s.leads(a, t) && b.moves(
                    Place::Files(t).settled(),
                    s.records(a, t, b.report@),
                    after,
                );
            lemma_files_leads_on(s, a, t);
        },
        Place::Logs(s) => {
            let t = choose|t: Inquiry| #[trigger]
                s.leads(b.ld@, a, t) && b.moves(
                    Place::Logs(t).settled(),
                    s.records(a, b.report@),
                    after,
                );
            lemma_inquiry_leads_on(s, b.ld@, a, t);
        },
        _ => {},
    }
}

/// One record more counts where it has the outcome.
proof fn lemma_tally_push(r: Seq<RecordView>, x: RecordView, want: Outcome)
    ensures
        tally(r.push(x), want) == tally(r, want) + (if x.outcome == want {
            1nat
        } else {
            0nat
        }),
{
    assert(r.push(x).drop_last() =~= r);
}

/// A sweep passes over nothing because something else failed: once there is a
/// device, an answer that fails leaves every later section to be tried.
pub proof fn a_failure_passes_over_no_section(b: Sweep, e: String, after: Sweep)
    requires
        b.valid(),
        !(b.at is End) && !(b.at is Devices),
        b.leads(Answer::Failed(e), after),
    ensures
        match b.at {
            Place::Identify => after.at is Devices,
            Place::Nodes => after.at is Model,
            Place::Model(_) => after.at is Model || after.at is ReadWrite,
            Place::ReadWrite(_) => after.at is ReadWrite || after.at is DataSets,
            Place::DataSets(_) => after.at is DataSets || after.at is Reporting,
            Place::Reporting(_) => after.at is Reporting || after.at is Control,
            Place::Control(_) => after.at is Control || after.at is Groups,
            Place::Groups(_) => after.at is Groups || after.at is Files,
            Place::Files(_) => after.at is Files || after.at is Logs,
            _ => after.at is Logs || after.at is End,
        },
{
}

/// Whether a place is one of an optional service that the server refused
/// altogether: its listings and its control blocks.
pub open spec fn is_optional(p: Place) -> bool {
    match p {
        Place::ReadWrite(ReadWrite::Start) => true,
        Place::DataSets(DataSets::Start) | Place::DataSets(DataSets::Objects) => true,
        Place::DataSets(DataSets::Create(_)) => true,
        Place::Reporting(Reporting::Blocks(_)) => true,
        Place::Control(Control::Start) => true,
        Place::Groups(Inquiry::Groups) => true,
        Place::Files(Files::Start) => true,
        Place::Logs(Inquiry::Journals) => true,
        _ => false,
    }
}

/// A feature that the server does not implement is skipped, and fails nothing:
/// where an optional service is refused, no failure is recorded.
pub proof fn an_absent_feature_fails_nothing(b: Sweep, e: String, after: Sweep)
    requires
        is_optional(b.at),
        b.leads(Answer::Failed(e), after),
    ensures
        tally(after.report@, Outcome::Fail) == tally(b.report@, Outcome::Fail),
        tally(after.report@, Outcome::Skip) > tally(b.report@, Outcome::Skip),
{
    let r = b.report@;
    assert forall|x: RecordView, want: Outcome| #[trigger]
        tally(r.push(x), want) == tally(r, want) + (if x.outcome == want {
            1nat
        } else {
            0nat
        }) by {
        lemma_tally_push(r, x, want);
    }
    if let Place::ReadWrite(_) = b.at {
        let first = skipped("read(MX)"@, "the device exposes no readable measurand"@);
        let second = skipped("write(MX)"@, "no measurand to write"@);
        let third = skipped("readValues(batch)"@, "no measurand to batch"@);
        lemma_tally_push(r.push(first), second, Outcome::Fail);
        lemma_tally_push(r.push(first), second, Outcome::Skip);
        lemma_tally_push(r.push(first).push(second), third, Outcome::Fail);
        lemma_tally_push(r.push(first).push(second), third, Outcome::Skip);
    }
}

/// A value is written back where it was read and as it was read: the point that
/// answers is the one that is read, batched, read again and written to.
pub proof fn a_value_is_written_back_as_it_was_read(
    candidates: Vec<ObjectReference>,
    at: usize,
    r: ObjectReference,
    v: Value,
    shown: String,
    a: Answer,
    ld: Seq<char>,
    after: ReadWrite,
    c: Call,
)
    requires
        after.asks(ld, c),
        at < candidates@.len(),
    ensures
        (ReadWrite::Seek { candidates, at }).leads(Answer::Reading(v, shown), after)
            ==> (c matches Call::Read(x, fc) && x@ == candidates@[at as int]@ && fc == Fc::Mx),
        ReadWrite::Read(r).leads(a, after) ==> (c matches Call::ReadTwice(x, fc) && x@ == r@ && fc
            == Fc::Mx),
        ReadWrite::Batch(r).leads(a, after) ==> (c matches Call::Read(x, fc) && x@ == r@ && fc
            == Fc::Mx),
        ReadWrite::ReadBack(r).leads(Answer::Reading(v, shown), after) ==> (c matches Call::Write(
            x,
            fc,
            w,
        ) && x@ == r@ && fc == Fc::Mx && w@ == v@),
        ReadWrite::WriteBack(r, v).leads(a, after) ==> (c matches Call::Read(x, fc) && x@ == ld
            + "/NOSUCHLN.NoSuchDO.stVal"@ && fc == Fc::St),
{
}

/// What cannot be read is passed over for the next candidate, and what cannot
/// be read back is not written.
pub proof fn what_cannot_be_read_is_not_written(
    candidates: Vec<ObjectReference>,
    at: usize,
    r: ObjectReference,
    e: String,
    ld: Seq<char>,
    after: ReadWrite,
    c: Call,
)
    requires
        after.asks(ld, c),
        at < candidates@.len(),
    ensures
        (ReadWrite::Seek { candidates, at }).leads(Answer::Failed(e), after) && at + 1
            < candidates@.len() ==> (c matches Call::Read(x, fc) && x@ == candidates@[at + 1]@),
        (ReadWrite::Seek { candidates, at }).leads(Answer::Failed(e), after) && at + 1
            == candidates@.len() ==> c is Finish,
        ReadWrite::ReadBack(r).leads(Answer::Failed(e), after) ==> !(c is Write),
{
}

/// Two leaves are tried of each object, the floating-point magnitude first.
pub proof fn both_magnitudes_are_tried(objects: Seq<Seq<char>>, i: int)
    requires
        0 <= i < objects.len(),
    ensures
        magnitudes(objects).len() == 2 * objects.len(),
        magnitudes(objects)[2 * i] == objects[i] + ".mag.f"@,
        magnitudes(objects)[2 * i + 1] == objects[i] + ".mag.i"@,
{
    assert((2 * i) / 2 == i && (2 * i) % 2 == 0);
    assert((2 * i + 1) / 2 == i && (2 * i + 1) % 2 == 1);
}

/// A dataset that was created is listed and deleted again, under the name under
/// which it was created, whatever the listing came to; one that a previous run
/// left is deleted first; and where creating is refused nothing is deleted.
pub proof fn a_created_dataset_is_deleted_again(
    m: ObjectReference,
    e: String,
    a: Answer,
    ld: Seq<char>,
    after: DataSets,
    c: Call,
)
    requires
        after.asks(ld, c),
    ensures
        DataSets::CleanUp(m).leads(a, after) ==> (c matches Call::CreateDataSet(r, x, fc) && r@ == ld
            + "/LLN0.rsIec61850Sweep"@ && x@ == m@ && fc == Fc::Mx),
        DataSets::Create(m).leads(Answer::Done, after) ==> (c matches Call::DataSetMembers(r) && r@
            == ld + "/LLN0.rsIec61850Sweep"@),
        DataSets::Members.leads(a, after) ==> (c matches Call::DeleteDataSet(r) && r@ == ld
            + "/LLN0.rsIec61850Sweep"@),
        DataSets::Create(m).leads(Answer::Failed(e), after) ==> c is Finish,
        DataSets::Delete.leads(a, after) ==> c is Finish,
        DataSets::ReadSet(m).leads(a, after) ==> c == Call::Browse(AcsiClass::DataObject),
{
}

/// The dataset that is read is the first that the device lists, and the member
/// of the new one is the first leaf that can be read.
pub proof fn the_first_that_answers_is_taken(
    found: Vec<ObjectReference>,
    candidates: Vec<ObjectReference>,
    at: usize,
    v: Value,
    shown: String,
    ld: Seq<char>,
    after: DataSets,
    c: Call,
)
    requires
        after.asks(ld, c),
        at < candidates@.len(),
    ensures
        DataSets::Start.leads(Answer::References(found), after) && found@.len() > 0
            ==> (c matches Call::ReadDataSet(r) && r@ == found@[0]@),
        DataSets::Start.leads(Answer::References(found), after) && found@.len() == 0 ==> c
            == Call::Browse(AcsiClass::DataObject),
        (DataSets::Seek { candidates, at }).leads(Answer::Reading(v, shown), after) ==> (after
            matches DataSets::CleanUp(m) && m@ == candidates@[at as int]@ && (
        c matches Call::DeleteDataSet(r) && r@ == ld + "/LLN0.rsIec61850Sweep"@)),
{
    if found@.len() > 0 {
        assert(reference_texts(found@)[0] == found@[0]@);
    }
}

/// The block that is enabled is the first of its kind and the one that was
/// read, with the usual fields and triggers, no period, and all else as it was;
/// it is interrogated and disabled again, whatever the interrogation came to.
pub proof fn a_block_is_enabled_as_it_was_read(
    kind: BlockKind,
    found: Vec<ObjectReference>,
    r: ObjectReference,
    rcb: Rcb,
    a: Answer,
    after: Reporting,
)
    ensures
        Reporting::Blocks(kind).leads(Answer::References(found), after) && found@.len() > 0
            ==> (after matches Reporting::Get(k, x) && k == kind && x@ == found@[0]@),
        Reporting::Get(kind, r).leads(Answer::Block(rcb), after) && rcb.rpt_id@.len() > 0
            ==> (after matches Reporting::Enable(k, x, b) && k == kind && x == r && {
            &&& b.intg_pd == 0
            &&& b.trg_ops.data_change && b.trg_ops.quality_change && b.trg_ops.gi
            &&& !b.trg_ops.data_update && !b.trg_ops.integrity
            &&& b.opt_flds.seq_num && b.opt_flds.time_of_entry && b.opt_flds.reason_code
            &&& b.opt_flds.data_set_name && b.opt_flds.conf_rev
            &&& b == (Rcb { opt_flds: b.opt_flds, trg_ops: b.trg_ops, intg_pd: 0, ..rcb })
        }),
        Reporting::Get(kind, r).leads(Answer::Block(rcb), after) && rcb.rpt_id@.len() == 0 ==> !(
        after is Enable),
        Reporting::Enable(kind, r, rcb).leads(Answer::Done, after) ==> after
            == Reporting::Interrogate(kind),
        Reporting::Interrogate(kind).leads(a, after) ==> after == Reporting::Disable(kind),
{
    if found@.len() > 0 {
        assert(reference_texts(found@)[0] == found@[0]@);
    }
}

/// The unbuffered blocks are tried first, then the buffered ones, whatever came
/// of the first.
pub proof fn both_kinds_of_blocks_are_tried(
    r: ObjectReference,
    rcb: Rcb,
    e: String,
    a: Answer,
    after: Reporting,
    c: Call,
)
    requires
        after.asks(c),
    ensures
        Reporting::Disable(BlockKind::Unbuffered).leads(a, after) ==> c == Call::Browse(
            AcsiClass::Brcb,
        ),
        Reporting::Blocks(BlockKind::Unbuffered).leads(Answer::Failed(e), after) ==> c
            == Call::Browse(AcsiClass::Brcb),
        Reporting::Get(BlockKind::Unbuffered, r).leads(Answer::Failed(e), after) ==> c
            == Call::Browse(AcsiClass::Brcb),
        Reporting::Enable(BlockKind::Unbuffered, r, rcb).leads(Answer::Failed(e), after) ==> c
            == Call::Browse(AcsiClass::Brcb),
        Reporting::Disable(BlockKind::Buffered).leads(a, after) ==> c is Finish,
        Reporting::Blocks(BlockKind::Unbuffered).asks(Call::Browse(AcsiClass::Urcb)),
{
}

/// A control is moved to the opposite of where it was, and put back to where it
/// was; where that is not known it is switched on and left there.
pub proof fn a_control_is_moved_and_put_back(
    object: ObjectReference,
    v: Value,
    shown: String,
    e: String,
    a: Answer,
    before: Option<Value>,
    want: bool,
    after: Control,
    c: Call,
)
    requires
        after.asks(c),
    ensures
        Control::Before(object).leads(Answer::Reading(v, shown), after) ==> (c matches Call::Operate(
            x,
        ) && x@ == Data::Boolean(v@ != Data::Boolean(true)) && (after matches Control::Operate {
            object: o,
            before: b,
            want: w,
        } && o == object && b is Some && b->0@ == v@)),
        Control::Before(object).leads(Answer::Failed(e), after) ==> (c matches Call::Operate(x)
            && x@ == Data::Boolean(true) && (after matches Control::Operate {
            object: o,
            before: b,
            want: w,
        } && o == object && b is None)),
        (Control::Operate { object, before, want }).leads(Answer::Done, after)
            ==> (c matches Call::Read(x, fc) && x@ == object@ + "."@ + "stVal"@ && fc == Fc::St && (
        after matches Control::Status { object: o, before: b, want: w } && b == before && w
            == want)),
        (Control::Operate { object, before, want }).leads(Answer::Failed(e), after) ==> c is Finish,
        (Control::Status { object, before, want }).leads(a, after) && before is Some
            ==> (c matches Call::Operate(x) && x@ == before->0@),
        (Control::Status { object, before, want }).leads(a, after) && before is None ==> c
            is Finish,
        Control::Restore(v).leads(a, after) ==> c is Finish,
{
}

/// Only an object that can be operated is: it lists the component for it, and
/// its model takes commands.
pub proof fn only_what_can_be_operated_is(
    objects: Vec<ObjectReference>,
    at: usize,
    names: Vec<String>,
    r: ObjectReference,
    m: CtlModel,
    a: Answer,
    after: Control,
)
    requires
        at < objects@.len(),
    ensures
        (Control::Seek { objects, at }).leads(Answer::Names(names), after) ==> (after is Handle
            <==> exists|i: int| 0 <= i < names@.len() && #[trigger] names@[i]@ == "Oper"@),
        (Control::Seek { objects, at }).leads(a, after) && after is Handle ==> (after
            matches Control::Handle(x) && x@ == objects@[at as int]@),
        (Control::Seek { objects, at }).leads(a, after) && !(a is Names) ==> !(after is Handle),
        Control::Handle(r).leads(Answer::Model(m), after) ==> after == Control::Spec(r, m),
        Control::Spec(r, CtlModel::StatusOnly).leads(a, after) ==> after is End,
        m != CtlModel::StatusOnly && Control::Spec(r, m).leads(a, after) ==> after
            == Control::Before(r),
{
    let all = texts(names@);
    if all.contains("Oper"@) {
        let i = choose|i: int| 0 <= i < all.len() && all[i] == "Oper"@;
        assert(names@[i]@ == "Oper"@);
    }
    if exists|i: int| 0 <= i < names@.len() && #[trigger] names@[i]@ == "Oper"@ {
        let i = choose|i: int| 0 <= i < names@.len() && #[trigger] names@[i]@ == "Oper"@;
        assert(all[i] == "Oper"@);
    }
}

/// Candidates are read one after another until one opens.
pub proof fn files_are_tried_until_one_opens(
    candidates: Vec<String>,
    at: usize,
    n: usize,
    e: String,
    after: Files,
    c: Call,
    r: Seq<RecordView>,
)
    requires
        after.asks(c),
        at < candidates@.len(),
    ensures
        (Files::Open { candidates, at }).leads(Answer::Count(n), after) ==> c is Finish && (
        Files::Open { candidates, at }).records(Answer::Count(n), after, r).last().outcome
            == Outcome::Pass,
        (Files::Open { candidates, at }).leads(Answer::Failed(e), after) && at + 1
            < candidates@.len() ==> (c matches Call::ReadFile(name) && name@ == candidates@[at
            + 1]@ && (Files::Open { candidates, at }).records(Answer::Failed(e), after, r) == r),
        (Files::Open { candidates, at }).leads(Answer::Failed(e), after) && at + 1
            == candidates@.len() ==> c is Finish && (Files::Open { candidates, at }).records(
            Answer::Failed(e),
            after,
            r,
        ).last().outcome == Outcome::Fail,
{
    if let Files::Open { candidates: other, at: i } = after {
        if texts(other@) == texts(candidates@) && i < candidates@.len() {
            assert(texts(other@).len() == other@.len());
            assert(texts(candidates@).len() == candidates@.len());
            assert(texts(other@)[i as int] == other@[i as int]@);
            assert(texts(candidates@)[i as int] == candidates@[i as int]@);
        }
    }
}

/// The directories of the filestore are listed in turn, and what each holds is
/// added to what is tried.
pub proof fn directories_are_listed_in_turn(
    candidates: Vec<String>,
    dirs: Vec<String>,
    at: usize,
    entries: Vec<FileEntry>,
    after: Files,
)
    requires
        at + 1 < dirs@.len(),
        (Files::Descend { candidates, dirs, at }).leads(Answer::Files(entries), after),
    ensures
        after matches Files::Descend { candidates: c, dirs: d, at: i } && texts(d@) == texts(dirs@)
            && i == at + 1 && texts(c@) == texts(candidates@) + nested_files(
            dirs@[at as int]@,
            entries@,
            entries@.len(),
        ),
{
    assert(texts(dirs@).len() == dirs@.len());
}

/// The sections follow one another: each begins where the one before it ends,
/// and under a heading of its own.
pub proof fn the_sections_follow_one_another(p: Place)
    ensures
        Place::Model(Inquiry::End).settled() == Place::ReadWrite(ReadWrite::Start),
        Place::ReadWrite(ReadWrite::End).settled() == Place::DataSets(DataSets::Start),
        Place::DataSets(DataSets::End).settled() == Place::Reporting(
            Reporting::Blocks(BlockKind::Unbuffered),
        ),
        Place::Reporting(Reporting::End).settled() == Place::Control(Control::Start),
        Place::Control(Control::End).settled() == Place::Groups(Inquiry::Groups),
        Place::Groups(Inquiry::End).settled() == Place::Files(Files::Start),
        Place::Files(Files::End).settled() == Place::Logs(Inquiry::Journals),
        Place::Logs(Inquiry::End).settled() == Place::End,
        p.settled() != p ==> p.settled().heading() is Some || p.settled() is End,
        p.settled() != p ==> p.heading() is None,
        p.settled().settled() == p.settled(),
{
}

/// A sweep works in the first device that the server lists, and ends where it
/// lists none.
pub proof fn a_sweep_works_in_the_first_device(
    s: Sweep,
    names: Vec<String>,
    e: String,
    after: Sweep,
)
    requires
        s.at is Devices,
    ensures
        s.leads(Answer::Names(names), after) && names@.len() > 0 ==> after.at is Nodes && after.ld@
            == names@[0]@,
        s.leads(Answer::Names(names), after) && names@.len() == 0 ==> after.at is End,
        s.leads(Answer::Failed(e), after) ==> after.at is End,
{
    if names@.len() > 0 {
        assert(texts(names@)[0] == names@[0]@);
    }
    assert(texts(names@).len() == names@.len());
}

/// The setting groups and the journal that are read are the first that the
/// device lists.
pub proof fn an_inquiry_reads_the_first(
    found: Vec<ObjectReference>,
    names: Vec<String>,
    ld: Seq<char>,
    after: Inquiry,
    c: Call,
)
    requires
        after.asks(c),
    ensures
        found@.len() > 0 && Inquiry::Groups.leads(ld, Answer::References(found), after)
            ==> (c matches Call::SettingGroups(r) && r@ == found@[0]@),
        found@.len() == 0 && Inquiry::Groups.leads(ld, Answer::References(found), after) ==> c
            is Finish,
        names@.len() > 0 && Inquiry::Journals.leads(ld, Answer::Names(names), after)
            ==> (c matches Call::QueryLog(r) && r@ == journal_text(ld, names@[0]@)),
        names@.len() == 0 && Inquiry::Journals.leads(ld, Answer::Names(names), after) ==> c
            is Finish,
{
    if found@.len() > 0 {
        assert(reference_texts(found@)[0] == found@[0]@);
    }
}

} // verus!
