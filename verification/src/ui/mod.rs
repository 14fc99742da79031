//! The state of the interactive client: tabs, panels, dialogs and what a key,
//! a click or an answer from the device does to them.
//!
//! Nothing here talks to a terminal or a device. What is to be done is queued
//! as an [`Effect`], and what is to be shown is handed out as lines of text
//! with a [`Paint`]; the program around it performs the one and draws the
//! other.

use vstd::prelude::*;

use crate::mms::{Data, Value};
use crate::model::{Fc, ObjectReference};
use crate::time::WallTime;

pub mod address;
pub mod app;
pub mod browse;
pub mod controls;
pub mod datasets;
pub mod dialogs;
pub mod files;
pub mod layout;
pub mod logs;
pub mod replies;
pub mod reports;
pub mod settings;
pub mod tree;
pub mod widgets;

verus! {

/// A key of the keyboard.
#[derive(Debug, Clone, Copy, PartialEq, Eq, Structural)]
pub enum KeyCode {
    Char(char),
    Enter,
    Esc,
    Tab,
    BackTab,
    Backspace,
    Delete,
    Left,
    Right,
    Up,
    Down,
    Home,
    End,
    PageUp,
    PageDown,
    /// Any other key.
    Other,
}

/// A key press.
#[derive(Debug, Clone, Copy, PartialEq, Eq, Structural)]
pub struct KeyEvent {
    pub code: KeyCode,
    /// Whether the control key was held.
    pub control: bool,
}

impl KeyEvent {
    /// A press of a key alone.
    pub fn plain(code: KeyCode) -> (k: KeyEvent)
        ensures
            k == (KeyEvent { code, control: false }),
    {
        KeyEvent { code, control: false }
    }

    /// A press of a key with the control key.
    pub fn control(code: KeyCode) -> (k: KeyEvent)
        ensures
            k == (KeyEvent { code, control: true }),
    {
        KeyEvent { code, control: true }
    }
}

/// How a status line is coloured.
#[derive(Debug, Clone, Copy, PartialEq, Eq, Structural)]
pub enum StatusKind {
    Info,
    Success,
    Failure,
}

impl StatusKind {
    /// The paint of a status line.
    pub open spec fn paint(self) -> Paint {
        match self {
            StatusKind::Info => Paint::Muted,
            StatusKind::Success => Paint::Value,
            StatusKind::Failure => Paint::Error,
        }
    }

    /// Returns the paint of a status line.
    pub fn style(self) -> (p: Paint)
        ensures
            p == self.paint(),
    {
        match self {
            StatusKind::Info => Paint::Muted,
            StatusKind::Success => Paint::Value,
            StatusKind::Failure => Paint::Error,
        }
    }
}

/// The styles that text is drawn in.
#[derive(Debug, Clone, Copy, PartialEq, Eq, Structural)]
pub enum Paint {
    Plain,
    Header,
    Tab,
    TabActive,
    Label,
    Value,
    Muted,
    Accent,
    Error,
    Warn,
    Help,
}

/// A stretch of text in one style.
#[derive(Debug)]
pub struct Span {
    pub text: String,
    pub paint: Paint,
}

/// What a span shows.
pub struct Ink {
    pub text: Seq<char>,
    pub paint: Paint,
}

impl View for Span {
    type V = Ink;

    open spec fn view(&self) -> Ink {
        Ink { text: self.text@, paint: self.paint }
    }
}

impl Span {
    pub fn new(text: &str, paint: Paint) -> (s: Span)
        ensures
            s@ == ink(text@, paint),
    {
        Span { text: text.to_owned(), paint }
    }
}

/// A stretch of text in one style.
pub open spec fn ink(text: Seq<char>, paint: Paint) -> Ink {
    Ink { text, paint }
}

/// A row of text.
#[derive(Debug)]
pub struct Line {
    pub spans: Vec<Span>,
    /// Whether the cursor is on the row, which is then drawn as a solid bar.
    pub selected: bool,
}

/// What a row of text shows.
pub struct Row {
    pub inks: Seq<Ink>,
    pub selected: bool,
}

/// What spans show.
pub open spec fn inks(spans: Seq<Span>) -> Seq<Ink> {
    spans.map_values(|s: Span| s@)
}

impl View for Line {
    type V = Row;

    open spec fn view(&self) -> Row {
        Row { inks: inks(self.spans@), selected: self.selected }
    }
}

/// What rows of text show.
pub open spec fn rows_of(lines: Seq<Line>) -> Seq<Row> {
    lines.map_values(|l: Line| l@)
}

/// A row in one style.
pub open spec fn row(text: Seq<char>, paint: Paint) -> Row {
    Row { inks: seq![ink(text, paint)], selected: false }
}

impl Line {
    /// A row in one style.
    pub fn styled(text: &str, paint: Paint) -> (l: Line)
        ensures
            l@ == row(text@, paint),
    {
        let mut spans: Vec<Span> = Vec::new();
        spans.push(Span::new(text, paint));
        let l = Line { spans, selected: false };
        assert(inks(l.spans@) =~= seq![ink(text@, paint)]);
        l
    }
}

/// Appends a row in one style.
pub(crate) fn push_line(lines: &mut Vec<Line>, text: &str, paint: Paint)
    ensures
        rows_of(final(lines)@) == rows_of(old(lines)@).push(row(text@, paint)),
{
    lines.push(Line::styled(text, paint));
    assert(rows_of(lines@) =~= rows_of(old(lines)@).push(row(text@, paint)));
}

/// Appends a stretch of text.
pub(crate) fn push_span(spans: &mut Vec<Span>, text: &str, paint: Paint)
    ensures
        inks(final(spans)@) == inks(old(spans)@).push(ink(text@, paint)),
{
    spans.push(Span::new(text, paint));
    assert(inks(spans@) =~= inks(old(spans)@).push(ink(text@, paint)));
}

/// Appends a row of several stretches.
pub(crate) fn push_spans(lines: &mut Vec<Line>, spans: Vec<Span>, selected: bool)
    ensures
        rows_of(final(lines)@) == rows_of(old(lines)@).push(
            (Row { inks: inks(spans@), selected }),
        ),
{
    lines.push(Line { spans, selected });
    assert(rows_of(lines@) =~= rows_of(old(lines)@).push((Row { inks: inks(spans@), selected })));
}

/// A part of the screen, in character cells.
#[derive(Debug, Clone, Copy, PartialEq, Eq, Structural)]
pub struct Rect {
    pub x: u16,
    pub y: u16,
    pub width: u16,
    pub height: u16,
}

impl Rect {
    pub fn new(x: u16, y: u16, width: u16, height: u16) -> (r: Rect)
        ensures
            r == (Rect { x, y, width, height }),
    {
        Rect { x, y, width, height }
    }
}

/// A framed part of the screen with its title and the rows inside the frame.
#[derive(Debug)]
pub struct Pane {
    pub area: Rect,
    pub title: String,
    pub lines: Vec<Line>,
}

/// Whether a pane shows the given rows in the given place.
pub open spec fn shows(p: Pane, area: Rect, title: Seq<char>, rows: Seq<Row>) -> bool {
    &&& p.area == area
    &&& p.title@ == title
    &&& rows_of(p.lines@) == rows
}

/// What a panel shows: one pane or two, and a line of hints.
#[derive(Debug)]
pub struct PanelFrame {
    pub body: Rect,
    pub panes: Vec<Pane>,
    pub hint_area: Rect,
    pub hint: Line,
}

/// What references read.
pub open spec fn refs_of(refs: Seq<ObjectReference>) -> Seq<Seq<char>> {
    refs.map_values(|r: ObjectReference| r@)
}

/// Something for the program to do. Answers come back as messages.
#[derive(Debug)]
pub enum Effect {
    /// Shows a status line.
    Status(String, StatusKind),
    /// Connects to a device.
    Connect { addr: String, password: String, tls: bool },
    /// Retrieves the model.
    LoadModel,
    /// Looks for report control blocks.
    LoadReports,
    /// Looks for data sets.
    LoadDatasets,
    /// Looks for controllable objects.
    LoadControls,
    /// Looks for setting group control blocks.
    LoadSettings,
    /// Looks for logs.
    LoadLogs,
    /// Reads a value for a node of the model tree.
    Read { node: usize, reference: ObjectReference, fc: Fc },
    /// Reads a value for a node of the model tree once a second, as long as the
    /// panel says that the generation is the present one.
    Refresh { generation: u64, node: usize, reference: ObjectReference, fc: Fc },
    /// Writes a value.
    Write { reference: ObjectReference, fc: Fc, value: Value },
    /// Reads a floating-point number out of a text, for a write.
    ParseFloat { text: String },
    /// Operates a control.
    Operate {
        reference: ObjectReference,
        on: bool,
        test: bool,
        interlock: bool,
        synchro: bool,
        originator: String,
    },
    /// Enables a report control block and interrogates it.
    EnableReport(ObjectReference),
    /// Asks a report control block for a general interrogation.
    Interrogate(ObjectReference),
    /// Disables the report control block that was enabled last.
    DisableReport,
    /// Reads a data set.
    ReadDataset(ObjectReference),
    /// Reads a setting group control block.
    ReadSettings(ObjectReference),
    /// Activates a setting group.
    Activate { reference: ObjectReference, group: u8 },
    /// Lists a directory of the filestore.
    ListFiles(String),
    /// Fetches a file and saves it.
    Download { name: String, out: String },
    /// Queries a log over the last `window` seconds and `nanos` nanoseconds.
    QueryLog { reference: ObjectReference, window: u64, nanos: u32 },
    /// Queries a log for what came after an entry.
    QueryLogAfter { reference: ObjectReference, after: WallTime, entry_id: Vec<u8> },
}

/// What an effect asks for.
pub enum Deed {
    Status(Seq<char>, StatusKind),
    Connect { addr: Seq<char>, password: Seq<char>, tls: bool },
    LoadModel,
    LoadReports,
    LoadDatasets,
    LoadControls,
    LoadSettings,
    LoadLogs,
    Read { node: usize, reference: Seq<char>, fc: Fc },
    Refresh { generation: u64, node: usize, reference: Seq<char>, fc: Fc },
    Write { reference: Seq<char>, fc: Fc, value: Data },
    ParseFloat { text: Seq<char> },
    Operate {
        reference: Seq<char>,
        on: bool,
        test: bool,
        interlock: bool,
        synchro: bool,
        originator: Seq<char>,
    },
    EnableReport(Seq<char>),
    Interrogate(Seq<char>),
    DisableReport,
    ReadDataset(Seq<char>),
    ReadSettings(Seq<char>),
    Activate { reference: Seq<char>, group: u8 },
    ListFiles(Seq<char>),
    Download { name: Seq<char>, out: Seq<char> },
    QueryLog { reference: Seq<char>, window: u64, nanos: u32 },
    QueryLogAfter { reference: Seq<char>, after: WallTime, entry_id: Seq<u8> },
}

impl View for Effect {
    type V = Deed;

    open spec fn view(&self) -> Deed {
        match *self {
            Effect::Status(text, kind) => Deed::Status(text@, kind),
            Effect::Connect { addr, password, tls } => Deed::Connect {
                addr: addr@,
                password: password@,
                tls,
            },
            Effect::LoadModel => Deed::LoadModel,
            Effect::LoadReports => Deed::LoadReports,
            Effect::LoadDatasets => Deed::LoadDatasets,
            Effect::LoadControls => Deed::LoadControls,
            Effect::LoadSettings => Deed::LoadSettings,
            Effect::LoadLogs => Deed::LoadLogs,
            Effect::Read { node, reference, fc } => Deed::Read { node, reference: reference@, fc },
            Effect::Refresh { generation, node, reference, fc } => Deed::Refresh {
                generation,
                node,
                reference: reference@,
                fc,
            },
            Effect::Write { reference, fc, value } => Deed::Write {
                reference: reference@,
                fc,
                value: value@,
            },
            Effect::ParseFloat { text } => Deed::ParseFloat { text: text@ },
            Effect::Operate { reference, on, test, interlock, synchro, originator } => {
                Deed::Operate {
                    reference: reference@,
                    on,
                    test,
                    interlock,
                    synchro,
                    originator: originator@,
                }
            },
            Effect::EnableReport(reference) => Deed::EnableReport(reference@),
            Effect::Interrogate(reference) => Deed::Interrogate(reference@),
            Effect::DisableReport => Deed::DisableReport,
            Effect::ReadDataset(reference) => Deed::ReadDataset(reference@),
            Effect::ReadSettings(reference) => Deed::ReadSettings(reference@),
            Effect::Activate { reference, group } => Deed::Activate { reference: reference@, group },
            Effect::ListFiles(path) => Deed::ListFiles(path@),
            Effect::Download { name, out } => Deed::Download { name: name@, out: out@ },
            Effect::QueryLog { reference, window, nanos } => Deed::QueryLog {
                reference: reference@,
                window,
                nanos,
            },
            Effect::QueryLogAfter { reference, after, entry_id } => Deed::QueryLogAfter {
                reference: reference@,
                after,
                entry_id: entry_id@,
            },
        }
    }
}

/// What a panel needs to do its work: whether there is a connection, and a
/// queue for what is to be done.
#[derive(Debug)]
pub struct Ctx {
    pub online: bool,
    pub effects: Vec<Effect>,
}

/// What effects ask for.
pub open spec fn deeds(effects: Seq<Effect>) -> Seq<Deed> {
    effects.map_values(|e: Effect| e@)
}

/// The status line that answers a request made without a connection.
pub open spec fn not_connected() -> Deed {
    Deed::Status("not connected"@, StatusKind::Failure)
}

impl Ctx {
    /// What has been queued.
    pub open spec fn queued(self) -> Seq<Deed> {
        deeds(self.effects@)
    }

    /// Whether `after` is this with `done` queued behind the rest.
    pub open spec fn then_queued(self, after: Ctx, done: Seq<Deed>) -> bool {
        after.online == self.online && after.queued() == self.queued() + done
    }

    pub fn new(online: bool) -> (c: Ctx)
        ensures
            c.online == online,
            c.queued() == Seq::<Deed>::empty(),
    {
        let c = Ctx { online, effects: Vec::new() };
        assert(c.queued() =~= Seq::<Deed>::empty());
        c
    }

    /// Queues an effect.
    pub fn send(&mut self, e: Effect)
        ensures
            old(self).then_queued(*final(self), seq![e@]),
    {
        self.effects.push(e);
        assert(self.queued() =~= old(self).queued() + seq![e@]);
    }

    /// Reports whether there is a connection, and says so if there is none.
    pub fn client(&mut self) -> (online: bool)
        ensures
            online == old(self).online,
            if online {
                *final(self) == *old(self)
            } else {
                old(self).then_queued(*final(self), seq![not_connected()])
            },
    {
        if !self.online {
            self.status("not connected", StatusKind::Failure);
        }
        self.online
    }

    pub fn status(&mut self, text: &str, kind: StatusKind)
        ensures
            old(self).then_queued(*final(self), seq![Deed::Status(text@, kind)]),
    {
        self.send(Effect::Status(text.to_owned(), kind));
    }

    pub fn ok(&mut self, text: &str)
        ensures
            old(self).then_queued(*final(self), seq![Deed::Status(text@, StatusKind::Success)]),
    {
        self.status(text, StatusKind::Success);
    }

    pub fn err(&mut self, text: &str)
        ensures
            old(self).then_queued(*final(self), seq![Deed::Status(text@, StatusKind::Failure)]),
    {
        self.status(text, StatusKind::Failure);
    }

    /// Queues an effect that needs a connection.
    pub(crate) fn ask(&mut self, e: Effect)
        ensures
            old(self).then_queued(*final(self), asked(old(self).online, e@)),
    {
        if self.client() {
            self.send(e);
        }
        assert(self.queued() =~= old(self).queued() + asked(old(self).online, e@));
    }
}

/// What comes of an effect that needs a connection.
pub open spec fn asked(online: bool, d: Deed) -> Seq<Deed> {
    if online {
        seq![d]
    } else {
        seq![not_connected()]
    }
}

/// What needs a connection is asked for only with one; without, the user is
/// told, and nothing else is done.
pub proof fn nothing_is_asked_without_a_connection(d: Deed)
    ensures
        asked(true, d) == seq![d],
        asked(false, d) == seq![Deed::Status("not connected"@, StatusKind::Failure)],
{
}

/// A failure is told in another style than a success and than a remark.
pub proof fn a_failure_is_told_as_one(k: StatusKind)
    ensures
        k.paint() == Paint::Error <==> k == StatusKind::Failure,
        k.paint() == Paint::Value <==> k == StatusKind::Success,
        k.paint() == Paint::Muted <==> k == StatusKind::Info,
{
}

} // verus!
