//! The application: tabs, the state behind them, and the frame layout.

use vstd::prelude::*;

use super::address::{normalise_addr, with_port};
use super::browse::{Browse, BrowsePanel};
use super::controls::ControlsPanel;
use super::datasets::{DataSetInfo, DatasetsPanel};
use super::dialogs::{form_of, overlay, ConnectForm, Dialog, FloatReading, Form, FormAction, Overlay, Popup};
use super::files::{FileEntry, FilesPanel, Place};
use super::layout::{frame_areas, in_place, is_divided, panel_areas, FrameAreas};
use super::logs::{LogEntry, LogsPanel, DEFAULT_WINDOW};
use super::reports::{kept, RcbItem, ReportsPanel};
use super::settings::{SettingsPanel, SgInfo};
use super::tree::{is_arena, node_views, Node};
use super::widgets::{clip, clipped, left_part, ListBox};
use super::{
    asked, ink, inks, not_connected, push_span, row, Ctx, Deed, Effect, Ink, KeyCode, KeyEvent,
    Line, Paint, PanelFrame, Rect, Row, Span, StatusKind,
};
use crate::model::ObjectReference;
use crate::notation::trimmed;
use crate::text::{chars, decimal, push_decimal, push_str};

verus! {

/// The tabs, in the order they appear.
#[derive(Debug, Clone, Copy, PartialEq, Eq, Structural)]
pub enum Tab {
    Browse,
    Reports,
    Datasets,
    Controls,
    SettingGroups,
    Files,
    Logs,
}

/// The number of tabs.
pub const TABS: usize = 7;

impl Tab {
    /// Where a tab stands.
    pub open spec fn place(self) -> int {
        match self {
            Tab::Browse => 0,
            Tab::Reports => 1,
            Tab::Datasets => 2,
            Tab::Controls => 3,
            Tab::SettingGroups => 4,
            Tab::Files => 5,
            Tab::Logs => 6,
        }
    }

    /// The tab that stands at a place.
    pub open spec fn of_place(i: int) -> Tab {
        if i == 0 {
            Tab::Browse
        } else if i == 1 {
            Tab::Reports
        } else if i == 2 {
            Tab::Datasets
        } else if i == 3 {
            Tab::Controls
        } else if i == 4 {
            Tab::SettingGroups
        } else if i == 5 {
            Tab::Files
        } else {
            Tab::Logs
        }
    }

    /// The title of a tab.
    pub open spec fn text(self) -> Seq<char> {
        match self {
            Tab::Browse => "Browse"@,
            Tab::Reports => "Reports"@,
            Tab::Datasets => "Datasets"@,
            Tab::Controls => "Controls"@,
            Tab::SettingGroups => "SetGroups"@,
            Tab::Files => "Files"@,
            Tab::Logs => "Logs"@,
        }
    }

    pub fn title(self) -> (s: &'static str)
        ensures
            s@ == self.text(),
    {
        match self {
            Tab::Browse => "Browse",
            Tab::Reports => "Reports",
            Tab::Datasets => "Datasets",
            Tab::Controls => "Controls",
            Tab::SettingGroups => "SetGroups",
            Tab::Files => "Files",
            Tab::Logs => "Logs",
        }
    }

    pub fn index(self) -> (i: usize)
        ensures
            i == self.place(),
    {
        match self {
            Tab::Browse => 0,
            Tab::Reports => 1,
            Tab::Datasets => 2,
            Tab::Controls => 3,
            Tab::SettingGroups => 4,
            Tab::Files => 5,
            Tab::Logs => 6,
        }
    }

    /// Returns the tab that stands at a place.
    pub fn at(i: usize) -> (t: Tab)
        requires
            i < TABS,
        ensures
            t == Tab::of_place(i as int),
    {
        if i == 0 {
            Tab::Browse
        } else if i == 1 {
            Tab::Reports
        } else if i == 2 {
            Tab::Datasets
        } else if i == 3 {
            Tab::Controls
        } else if i == 4 {
            Tab::SettingGroups
        } else if i == 5 {
            Tab::Files
        } else {
            Tab::Logs
        }
    }

    /// The tab behind this one; behind the last is the first.
    pub open spec fn next(self) -> Tab {
        Tab::of_place((self.place() + 1) % (TABS as int))
    }

    /// The tab in front of this one; in front of the first is the last.
    pub open spec fn previous(self) -> Tab {
        Tab::of_place((self.place() + TABS - 1) % (TABS as int))
    }
}

/// Each tab stands at one place, and stepping forward and back leads to where
/// one was.
pub proof fn the_tabs_are_a_ring(t: Tab, i: int)
    requires
        0 <= i < TABS,
    ensures
        0 <= t.place() < TABS,
        Tab::of_place(t.place()) == t,
        Tab::of_place(i).place() == i,
        t.next().previous() == t,
        t.previous().next() == t,
{
}

/// Everything that comes back to the application.
#[derive(Debug)]
pub enum Msg {
    Connected { ident: String },
    ConnectFailed(String),
    Status(String, StatusKind),
    ModelLoaded(Vec<Node>),
    /// A value read for one node of the browse tree, addressed by its index in
    /// the arena.
    Value { node: usize, text: String, is_err: bool },
    RcbsLoaded(Vec<RcbItem>),
    ReportEnabled(ObjectReference),
    ReportLine(String),
    DatasetsLoaded(Vec<ObjectReference>),
    DatasetRead(DataSetInfo),
    ControlsLoaded(Vec<ObjectReference>),
    SgcbsLoaded(Vec<ObjectReference>),
    SgLoaded(SgInfo),
    FilesLoaded(Vec<FileEntry>),
    LogsLoaded(Vec<ObjectReference>),
    LogQueried(Vec<LogEntry>),
}

#[derive(Debug)]
pub struct App {
    pub addr: String,
    pub password: String,
    pub tls: bool,
    pub ctx: Ctx,
    pub ident: String,
    pub connected: bool,
    /// Which tabs have fetched their data, so switching back is instant.
    pub loaded: [bool; 7],
    pub active: Tab,
    pub dialog: Option<Dialog>,
    pub connect_form: Option<ConnectForm>,
    pub status: String,
    pub status_kind: StatusKind,
    pub should_quit: bool,
    pub browse: BrowsePanel,
    pub reports: ReportsPanel,
    pub datasets: DatasetsPanel,
    pub controls: ControlsPanel,
    pub settings: SettingsPanel,
    pub files: FilesPanel,
    pub logs: LogsPanel,
    /// The content area of the last frame, so a mouse click can be mapped back
    /// to it without the panels having to know the chrome's height.
    pub content: Rect,
    pub tab_spans: Vec<(u16, u16)>,
}

/// What a form that may be there holds.
pub open spec fn form(f: Option<ConnectForm>) -> Option<Form> {
    match f {
        Some(f) => Some(f@),
        None => None,
    }
}

/// What loading a tab asks for.
pub open spec fn load_deeds(t: Tab, online: bool) -> Seq<Deed> {
    match t {
        Tab::Browse => if online {
            seq![Deed::Status("retrieving model..."@, StatusKind::Info), Deed::LoadModel]
        } else {
            seq![not_connected()]
        },
        Tab::Reports => asked(online, Deed::LoadReports),
        Tab::Datasets => asked(online, Deed::LoadDatasets),
        Tab::Controls => asked(online, Deed::LoadControls),
        Tab::SettingGroups => asked(online, Deed::LoadSettings),
        Tab::Files => asked(online, Deed::ListFiles(Seq::empty())),
        Tab::Logs => asked(online, Deed::LoadLogs),
    }
}

impl App {
    /// Whether the parts of the application are sound.
    pub open spec fn valid(self) -> bool {
        &&& self.browse@.valid()
        &&& self.logs.valid()
        &&& self.dialog matches Some(d) ==> d@.valid()
        &&& self.connect_form matches Some(f) ==> f@.valid()
        &&& self.tab_spans@.len() <= TABS
    }

    /// Whether `after` is this with another status line.
    pub open spec fn then_status(self, after: App, text: Seq<char>, kind: StatusKind) -> bool {
        &&& after.status@ == text
        &&& after == (App { status: after.status, status_kind: kind, ..self })
    }

    /// Whether `after` is this with the active tab's data asked for anew. The
    /// filestore is shown from its root again.
    pub open spec fn then_reloaded(self, after: App) -> bool {
        &&& after == (App { ctx: after.ctx, files: after.files, ..self })
        &&& self.ctx.then_queued(after.ctx, load_deeds(self.active, self.ctx.online))
        &&& if self.active == Tab::Files {
            &&& after.files.entries == self.files.entries
            &&& after.files.place() == (Place { list: ListBox::start(), path: Seq::empty() })
        } else {
            after.files == self.files
        }
    }

    /// Whether `after` is this with the active tab's data asked for, unless it
    /// has been before.
    pub open spec fn then_loaded(self, after: App) -> bool {
        let i = self.active.place();
        if self.loaded@[i] {
            after == self
        } else {
            &&& after.loaded@ == self.loaded@.update(i, true)
            &&& App { loaded: after.loaded, ..self }.then_reloaded(after)
        }
    }

    /// Whether `after` is this on another tab.
    pub open spec fn then_on_tab(self, t: Tab, after: App) -> bool {
        App { active: t, ..self }.then_loaded(after)
    }

    /// Whether `after` is this with a connection being made.
    pub open spec fn then_connecting(self, after: App) -> bool {
        &&& after.status@ == "connecting to "@ + self.addr@ + " ..."@
        &&& after == (App {
            status: after.status,
            status_kind: StatusKind::Info,
            ctx: after.ctx,
            ..self
        })
        &&& self.ctx.then_queued(
            after.ctx,
            seq![
                Deed::Connect { addr: self.addr@, password: self.password@, tls: self.tls },
            ],
        )
    }

    pub fn new(addr: String, password: String, tls: bool) -> (a: App)
        ensures
            a.valid(),
            a.addr == addr,
            a.password == password,
            a.tls == tls,
            !a.ctx.online,
            a.ctx.queued() == Seq::<Deed>::empty(),
            a.ident@.len() == 0,
            !a.connected,
            forall|i: int| 0 <= i < TABS ==> !(#[trigger] a.loaded@[i]),
            a.active == Tab::Browse,
            a.dialog is None,
            a.connect_form is None,
            a.status@.len() == 0,
            a.status_kind == StatusKind::Info,
            !a.should_quit,
            a.browse@ == Browse::nothing(),
            a.content == (Rect { x: 0, y: 0, width: 0, height: 0 }),
            a.tab_spans@.len() == 0,
            a.reports.list == ListBox::start(),
            a.reports.rcbs@.len() == 0,
            a.reports.feed@.len() == 0,
            a.reports.enabled is None,
            !a.reports.subscribed,
            a.datasets.list == ListBox::start(),
            a.datasets.refs@.len() == 0,
            a.datasets.current is None,
            a.controls.list == ListBox::start(),
            a.controls.refs@.len() == 0,
            a.settings.list == ListBox::start(),
            a.settings.refs@.len() == 0,
            a.settings.current is None,
            a.files.list == ListBox::start(),
            a.files.entries@.len() == 0,
            a.files.path@.len() == 0,
            a.logs.list == ListBox::start(),
            a.logs.entries_view == ListBox::start(),
            a.logs.refs@.len() == 0,
            a.logs.entries@.len() == 0,
            a.logs.window == DEFAULT_WINDOW,
            a.logs.window_nanos == 0,
    {
        App {
            addr,
            password,
            tls,
            ctx: Ctx::new(false),
            ident: String::new(),
            connected: false,
            loaded: [false, false, false, false, false, false, false],
            active: Tab::Browse,
            dialog: None,
            connect_form: None,
            status: String::new(),
            status_kind: StatusKind::Info,
            should_quit: false,
            browse: BrowsePanel::default(),
            reports: ReportsPanel::default(),
            datasets: DatasetsPanel::default(),
            controls: ControlsPanel::default(),
            settings: SettingsPanel::default(),
            files: FilesPanel::default(),
            logs: LogsPanel::default(),
            content: Rect { x: 0, y: 0, width: 0, height: 0 },
            tab_spans: Vec::new(),
        }
    }

    /// Starts the first connection, or opens the form when no address was
    /// given on the command line.
    pub fn start(&mut self)
        requires
            old(self).valid(),
        ensures
            final(self).valid(),
            if old(self).addr@.len() == 0 {
                &&& *final(self) == (App { connect_form: final(self).connect_form, ..*old(self) })
                &&& form(final(self).connect_form) == Some(
                    form_of(old(self).addr@, old(self).password@, old(self).tls),
                )
            } else {
                old(self).then_connecting(*final(self))
            },
    {
        if self.addr.as_str().is_empty() {
            self.connect_form = Some(
                ConnectForm::new(self.addr.as_str(), self.password.as_str(), self.tls),
            );
        } else {
            self.connect();
        }
    }

    /// Starts to connect.
    pub fn connect(&mut self)
        ensures
            old(self).then_connecting(*final(self)),
    {
        let mut text = "connecting to ".to_owned();
        push_str(&mut text, self.addr.as_str());
        push_str(&mut text, " ...");
        self.set_status(text.as_str(), StatusKind::Info);
        self.ctx.send(
            Effect::Connect {
                addr: self.addr.clone(),
                password: self.password.clone(),
                tls: self.tls,
            },
        );
    }

    pub fn set_status(&mut self, text: &str, kind: StatusKind)
        ensures
            old(self).then_status(*final(self), text@, kind),
    {
        self.status = text.to_owned();
        self.status_kind = kind;
    }

    /// Loads the active tab's data, once.
    pub fn load_active(&mut self)
        ensures
            old(self).then_loaded(*final(self)),
    {
        let i: usize = self.active.index();
        if self.loaded[i] {
            return;
        }
        self.loaded[i] = true;
        self.reload_active();
    }

    /// Loads the active tab's data anew.
    pub fn reload_active(&mut self)
        ensures
            old(self).then_reloaded(*final(self)),
    {
        match self.active {
            Tab::Browse => self.browse.load(&mut self.ctx),
            Tab::Reports => self.reports.load(&mut self.ctx),
            Tab::Datasets => self.datasets.load(&mut self.ctx),
            Tab::Controls => self.controls.load(&mut self.ctx),
            Tab::SettingGroups => self.settings.load(&mut self.ctx),
            Tab::Files => self.files.load(&mut self.ctx),
            Tab::Logs => self.logs.load(&mut self.ctx),
        }
    }

    /// Hands out what is to be done.
    pub fn take_effects(&mut self) -> (effects: Vec<Effect>)
        ensures
            effects@ == old(self).ctx.effects@,
            final(self).ctx.online == old(self).ctx.online,
            final(self).ctx.effects@.len() == 0,
            *final(self) == (App { ctx: final(self).ctx, ..*old(self) }),
    {
        let mut effects: Vec<Effect> = Vec::new();
        std::mem::swap(&mut effects, &mut self.ctx.effects);
        effects
    }
}

/// Why a connection is not even tried.
///
/// The TLS path needs a trust configuration that the screen has no way to ask
/// for; saying so is better than silently connecting in the clear.
pub fn connect_refusal(tls: bool) -> (r: Option<&'static str>)
    ensures
        match r {
            Some(why) => tls && why@
                == "TLS needs a certificate configuration; use the library API"@,
            None => !tls,
        },
{
    if tls {
        Some("TLS needs a certificate configuration; use the library API")
    } else {
        None
    }
}

// ---- messages ----
/// Whether a message can be taken: the rows of a model are an arena.
pub open spec fn is_sound(msg: Msg) -> bool {
    msg matches Msg::ModelLoaded(nodes) ==> is_arena(node_views(nodes@))
}

/// The rows of the browse tree with a value on one of them.
pub open spec fn with_value(b: Browse, node: usize, text: Seq<char>, is_err: bool) -> Browse {
    if node < b.nodes.len() {
        Browse {
            nodes: b.nodes.update(
                node as int,
                super::tree::NodeView {
                    value: Some(text),
                    value_is_err: is_err,
                    ..b.nodes[node as int]
                },
            ),
            ..b
        }
    } else {
        b
    }
}

/// Whether `a` is `b` after a message.
pub open spec fn takes(b: App, msg: Msg, a: App) -> bool {
    match msg {
        Msg::Connected { ident } => {
            &&& a.status@ == "connected to "@ + b.addr@
            &&& App {
                ctx: Ctx { online: true, ..b.ctx },
                ident,
                connected: true,
                connect_form: None,
                status: a.status,
                status_kind: StatusKind::Success,
                ..b
            }.then_loaded(a)
        },
        Msg::ConnectFailed(e) => {
            &&& App { connect_form: a.connect_form, ..b }.then_status(
                a,
                "connect failed: "@ + e@,
                StatusKind::Failure,
            )
            &&& if b.connect_form is Some {
                a.connect_form == b.connect_form
            } else {
                form(a.connect_form) == Some(form_of(b.addr@, b.password@, b.tls))
            }
        },
        Msg::Status(text, kind) => b.then_status(a, text@, kind),
        Msg::ModelLoaded(nodes) => {
            &&& App { browse: a.browse, ..b }.then_status(
                a,
                "model loaded: "@ + decimal(
                    super::browse::roots_of(node_views(nodes@), nodes@.len()).len(),
                ) + " logical devices"@,
                StatusKind::Success,
            )
            &&& a.browse@ == b.browse@.with_model(node_views(nodes@))
        },
        Msg::Value { node, text, is_err } => {
            &&& a == (App { browse: a.browse, ..b })
            &&& a.browse@ == with_value(b.browse@, node, text@, is_err)
        },
        Msg::RcbsLoaded(rcbs) => App {
            reports: ReportsPanel { rcbs, ..b.reports },
            ..b
        }.then_status(
            a,
            decimal(rcbs@.len()) + " report control blocks"@,
            StatusKind::Success,
        ),
        Msg::ReportEnabled(reference) => {
            &&& a == (App { reports: a.reports, ..b })
            &&& b.reports.then_enabled(reference, a.reports)
        },
        Msg::ReportLine(line) => {
            &&& a == (App { reports: a.reports, ..b })
            &&& a.reports == (ReportsPanel { feed: a.reports.feed, ..b.reports })
            &&& a.reports.feed@ == kept(b.reports.feed@.push(line))
        },
        Msg::DatasetsLoaded(refs) => App {
            datasets: DatasetsPanel { refs, ..b.datasets },
            ..b
        }.then_status(a, decimal(refs@.len()) + " datasets"@, StatusKind::Success),
        Msg::DatasetRead(ds) => App {
            datasets: DatasetsPanel { current: Some(ds), ..b.datasets },
            ..b
        }.then_status(
            a,
            ds.reference@ + ": "@ + decimal(ds.members@.len()) + " members"@,
            StatusKind::Success,
        ),
        Msg::ControlsLoaded(refs) => App {
            controls: ControlsPanel { refs, ..b.controls },
            ..b
        }.then_status(a, decimal(refs@.len()) + " controllable objects"@, StatusKind::Success),
        Msg::SgcbsLoaded(refs) => {
            let settings = SettingsPanel { refs, ..b.settings };
            &&& a == (App {
                settings,
                ctx: a.ctx,
                status: a.status,
                status_kind: a.status_kind,
                ..b
            })
            &&& a.status@ == (if refs@.len() == 0 {
                "no setting group control blocks"@
            } else {
                decimal(refs@.len()) + " setting group control blocks"@
            })
            &&& a.status_kind == (if refs@.len() == 0 {
                StatusKind::Info
            } else {
                StatusKind::Success
            })
            &&& b.ctx.then_queued(
                a.ctx,
                super::settings::read_deeds(refs@, b.settings.list.cursor as int, b.ctx.online),
            )
        },
        Msg::SgLoaded(info) => a == (App {
            settings: SettingsPanel { current: Some(info), ..b.settings },
            ..b
        }),
        Msg::FilesLoaded(entries) => App {
            files: FilesPanel { entries, ..b.files },
            ..b
        }.then_status(a, decimal(entries@.len()) + " entries"@, StatusKind::Success),
        Msg::LogsLoaded(refs) => App {
            logs: LogsPanel { refs, ..b.logs },
            ..b
        }.then_status(a, decimal(refs@.len()) + " logs"@, StatusKind::Success),
        Msg::LogQueried(entries) => App {
            logs: LogsPanel { entries, ..b.logs },
            ..b
        }.then_status(a, decimal(entries@.len()) + " log entries"@, StatusKind::Success),
    }
}

impl App {
    /// Shows a count.
    fn set_count(&mut self, n: usize, what: &str)
        ensures
            old(self).then_status(*final(self), decimal(n as nat) + what@, StatusKind::Success),
    {
        let mut text = String::new();
        push_decimal(&mut text, n as u64);
        push_str(&mut text, what);
        assert(text@ =~= decimal(n as nat) + what@);
        self.set_status(text.as_str(), StatusKind::Success);
    }

    /// Takes what came back from the program.
    pub fn on_msg(&mut self, msg: Msg)
        requires
            old(self).valid(),
            is_sound(msg),
        ensures
            takes(*old(self), msg, *final(self)),
            final(self).valid(),
    {
        match msg {
            Msg::Connected { ident } => {
                self.ctx.online = true;
                self.ident = ident;
                self.connected = true;
                self.connect_form = None;
                let mut text = "connected to ".to_owned();
                push_str(&mut text, self.addr.as_str());
                self.set_status(text.as_str(), StatusKind::Success);
                self.load_active();
            },
            Msg::ConnectFailed(e) => {
                let mut text = "connect failed: ".to_owned();
                push_str(&mut text, e.as_str());
                self.set_status(text.as_str(), StatusKind::Failure);
                if self.connect_form.is_none() {
                    self.connect_form = Some(
                        ConnectForm::new(self.addr.as_str(), self.password.as_str(), self.tls),
                    );
                }
            },
            Msg::Status(text, kind) => self.set_status(text.as_str(), kind),
            Msg::ModelLoaded(nodes) => {
                let ghost views = node_views(nodes@);
                assert(views.len() == nodes@.len());
                let n: usize = self.browse.set_model(nodes);
                let mut text = "model loaded: ".to_owned();
                push_decimal(&mut text, n as u64);
                push_str(&mut text, " logical devices");
                self.set_status(text.as_str(), StatusKind::Success);
            },
            Msg::Value { node, text, is_err } => self.browse.set_value(node, text, is_err),
            Msg::RcbsLoaded(rcbs) => {
                self.set_count(rcbs.len(), " report control blocks");
                self.reports.rcbs = rcbs;
            },
            Msg::ReportEnabled(reference) => self.reports.on_enabled(reference),
            Msg::ReportLine(line) => self.reports.push_line(line),
            Msg::DatasetsLoaded(refs) => {
                self.set_count(refs.len(), " datasets");
                self.datasets.refs = refs;
            },
            Msg::DatasetRead(ds) => {
                let mut text = ds.reference.as_str().to_owned();
                push_str(&mut text, ": ");
                push_decimal(&mut text, ds.members.len() as u64);
                push_str(&mut text, " members");
                self.set_status(text.as_str(), StatusKind::Success);
                self.datasets.current = Some(ds);
            },
            Msg::ControlsLoaded(refs) => {
                self.set_count(refs.len(), " controllable objects");
                self.controls.refs = refs;
            },
            Msg::SgcbsLoaded(refs) => {
                if refs.len() == 0 {
                    self.set_status("no setting group control blocks", StatusKind::Info);
                } else {
                    self.set_count(refs.len(), " setting group control blocks");
                }
                self.settings.refs = refs;
                self.settings.read_selected(&mut self.ctx);
            },
            Msg::SgLoaded(info) => {
                self.settings.current = Some(info);
            },
            Msg::FilesLoaded(entries) => {
                self.set_count(entries.len(), " entries");
                self.files.entries = entries;
            },
            Msg::LogsLoaded(refs) => {
                self.set_count(refs.len(), " logs");
                self.logs.refs = refs;
            },
            Msg::LogQueried(entries) => {
                self.set_count(entries.len(), " log entries");
                self.logs.entries = entries;
            },
        }
    }
}

// ---- keys ----
/// Whether `a` is `b` after a key that a dialog captured: a modal dialog
/// captures everything while it is open.
pub open spec fn dialog_takes(b: App, d: Dialog, key: KeyCode, a: App) -> bool {
    &&& a == (App { dialog: a.dialog, ctx: a.ctx, ..b })
    &&& overlay(a.dialog) == (if d@.closes(key) {
        None
    } else {
        Some(d@.after(key))
    })
    &&& b.ctx.then_queued(a.ctx, d@.asks(key, b.ctx.online))
}

/// Whether `a` is `b` after a key before there is a connection.
pub open spec fn form_takes(b: App, key: KeyCode, a: App) -> bool {
    match b.connect_form {
        None => a == b,
        Some(f) => match f@.wants(key) {
            FormAction::Stay => {
                &&& a == (App { connect_form: a.connect_form, ..b })
                &&& form(a.connect_form) == Some(f@.after(key))
            },
            FormAction::Quit => a == (App { connect_form: None, should_quit: true, ..b }),
            FormAction::Submit => {
                let typed = App {
                    addr: a.addr,
                    password: a.password,
                    tls: f@.tls,
                    connect_form: a.connect_form,
                    ..b
                };
                &&& a.addr@ == with_port(trimmed(f@.address.value))
                &&& a.password@ == f@.password.value
                &&& form(a.connect_form) == Some(f@.after(key))
                &&& if a.addr@.len() == 0 {
                    typed.then_status(a, "enter an address"@, StatusKind::Failure)
                } else {
                    typed.then_connecting(a)
                }
            },
        },
    }
}

/// The tab that a key leads to. The setting-groups panel keeps the digits for
/// itself while it has a block to act on.
pub open spec fn tab_of_key(b: App, key: KeyCode) -> Option<Tab> {
    match key {
        KeyCode::Tab => Some(b.active.next()),
        KeyCode::BackTab => Some(b.active.previous()),
        KeyCode::Char(c) => if c == ']' {
            Some(b.active.next())
        } else if c == '[' {
            Some(b.active.previous())
        } else if '1' <= c <= '7' && (b.active != Tab::SettingGroups || b.settings.current is None) {
            Some(Tab::of_place(c as u32 - '1' as u32))
        } else {
            None
        },
        _ => None,
    }
}

/// Whether `a` is `b` with a dialog, where one was opened.
pub open spec fn dialog_opened(b: App, opened: Option<Overlay>, a: App) -> bool {
    match opened {
        Some(o) => overlay(a.dialog) == Some(o),
        None => a.dialog == b.dialog,
    }
}

/// Whether `a` is `b` after a key that went to the active panel.
pub open spec fn panel_takes(b: App, key: KeyCode, a: App) -> bool {
    let online = b.ctx.online;
    match b.active {
        Tab::Browse => {
            &&& a == (App { browse: a.browse, ctx: a.ctx, dialog: a.dialog, ..b })
            &&& a.browse@ == b.browse@.after(key)
            &&& b.ctx.then_queued(a.ctx, b.browse@.asks(key, online))
            &&& dialog_opened(b, b.browse@.opens(key), a)
        },
        Tab::Reports => {
            &&& a == (App { reports: a.reports, ctx: a.ctx, ..b })
            &&& b.reports.then_after(key, a.reports)
            &&& b.ctx.then_queued(a.ctx, b.reports.asks(key, online))
        },
        Tab::Datasets => {
            let p = b.datasets;
            &&& a == (App {
                datasets: DatasetsPanel {
                    list: p.list.steered(key, p.refs@.len() as int),
                    ..p
                },
                ctx: a.ctx,
                ..b
            })
            &&& b.ctx.then_queued(
                a.ctx,
                if DatasetsPanel::reads(key) {
                    super::datasets::read_deeds(p.refs@, p.list.cursor as int, online)
                } else {
                    Seq::empty()
                },
            )
        },
        Tab::Controls => {
            let p = b.controls;
            &&& a == (App {
                controls: ControlsPanel {
                    list: p.list.steered(key, p.refs@.len() as int),
                    ..p
                },
                dialog: a.dialog,
                ..b
            })
            &&& dialog_opened(
                b,
                if ControlsPanel::opens(key) {
                    super::controls::operate_selected(p.refs@, p.list.cursor as int)
                } else {
                    None
                },
                a,
            )
        },
        Tab::SettingGroups => {
            let p = b.settings;
            &&& a == (App {
                settings: SettingsPanel {
                    list: p.list.steered(key, p.refs@.len() as int),
                    ..p
                },
                ctx: a.ctx,
                ..b
            })
            &&& b.ctx.then_queued(a.ctx, p.asks(key, online))
        },
        Tab::Files => {
            &&& a == (App { files: a.files, ctx: a.ctx, ..b })
            &&& a.files.entries == b.files.entries
            &&& a.files.place() == b.files.after(key)
            &&& b.ctx.then_queued(a.ctx, b.files.asks(key, online))
        },
        Tab::Logs => {
            &&& a == (App { logs: b.logs.after(key), ctx: a.ctx, ..b })
            &&& b.ctx.then_queued(a.ctx, b.logs.asks(key, online))
        },
    }
}

/// Whether the active panel is taking text, so that every key is its own: a
/// browse filter has to be able to contain a 'q' or a digit.
pub open spec fn captures(b: App) -> bool {
    b.active == Tab::Browse && b.browse@.filtering
}

/// Whether `a` is `b` after a key.
pub open spec fn key_takes(b: App, key: KeyEvent, a: App) -> bool {
    if key.code == KeyCode::Char('c') && key.control {
        a == (App { should_quit: true, ..b })
    } else if b.dialog is Some {
        dialog_takes(b, b.dialog->0, key.code, a)
    } else if !b.connected {
        form_takes(b, key.code, a)
    } else if captures(b) {
        panel_takes(b, key.code, a)
    } else if key.code == KeyCode::Char('q') {
        a == (App { should_quit: true, ..b })
    } else if tab_of_key(b, key.code) is Some {
        b.then_on_tab(tab_of_key(b, key.code)->0, a)
    } else if key.code == KeyCode::Char('R') {
        b.then_reloaded(a)
    } else if key.code == KeyCode::Char('?') {
        &&& a == (App { dialog: a.dialog, ..b })
        &&& overlay(a.dialog) == Some(Overlay::Help)
    } else {
        panel_takes(b, key.code, a)
    }
}

impl App {
    fn on_dialog_key(&mut self, key: KeyEvent)
        requires
            old(self).valid(),
            old(self).dialog is Some,
        ensures
            dialog_takes(*old(self), old(self).dialog->0, key.code, *final(self)),
            final(self).valid(),
    {
        if let Some(d) = self.dialog.take() {
            let mut d = d;
            if !d.on_key(key, &mut self.ctx) {
                self.dialog = Some(d);
            }
        }
    }

    fn on_form_key(&mut self, key: KeyEvent)
        requires
            old(self).valid(),
        ensures
            form_takes(*old(self), key.code, *final(self)),
            final(self).valid(),
    {
        if let Some(f) = self.connect_form.take() {
            let mut f = f;
            match f.on_key(key) {
                FormAction::Stay => {
                    self.connect_form = Some(f);
                },
                FormAction::Quit => {
                    self.should_quit = true;
                },
                FormAction::Submit => {
                    // An address typed here gets the default port just as one
                    // given on the command line does.
                    self.addr = normalise_addr(f.address().as_str());
                    self.password = f.password();
                    self.tls = f.tls();
                    self.connect_form = Some(f);
                    if self.addr.as_str().is_empty() {
                        self.set_status("enter an address", StatusKind::Failure);
                    } else {
                        self.connect();
                    }
                },
            }
        }
    }

    /// Shows another tab.
    fn switch_to(&mut self, t: Tab)
        ensures
            old(self).then_on_tab(t, *final(self)),
    {
        self.active = t;
        self.load_active();
    }

    /// The tab that a key leads to.
    fn tab_for(&self, key: KeyEvent) -> (t: Option<Tab>)
        ensures
            t == tab_of_key(*self, key.code),
    {
        let i: usize = self.active.index();
        match key.code {
            KeyCode::Tab => Some(Tab::at((i + 1) % TABS)),
            KeyCode::BackTab => Some(Tab::at((i + TABS - 1) % TABS)),
            KeyCode::Char(c) => {
                if c == ']' {
                    Some(Tab::at((i + 1) % TABS))
                } else if c == '[' {
                    Some(Tab::at((i + TABS - 1) % TABS))
                } else if '1' <= c && c <= '7' {
                    // The setting-groups panel uses the digits to activate a
                    // group, so it keeps them for itself while it has a block
                    // to act on.
                    let kept_here = match self.active {
                        Tab::SettingGroups => self.settings.takes_digits(),
                        _ => false,
                    };
                    if kept_here {
                        None
                    } else {
                        Some(Tab::at((c as u32 - 49) as usize))
                    }
                } else {
                    None
                }
            },
            _ => None,
        }
    }

    fn on_panel_key(&mut self, key: KeyEvent)
        requires
            old(self).valid(),
        ensures
            panel_takes(*old(self), key.code, *final(self)),
            final(self).valid(),
    {
        match self.active {
            Tab::Browse => {
                let opened = self.browse.on_key(key, &mut self.ctx);
                if opened.is_some() {
                    self.dialog = opened;
                }
            },
            Tab::Reports => self.reports.on_key(key, &mut self.ctx),
            Tab::Datasets => self.datasets.on_key(key, &mut self.ctx),
            Tab::Controls => {
                let opened = self.controls.on_key(key);
                if opened.is_some() {
                    self.dialog = opened;
                }
            },
            Tab::SettingGroups => self.settings.on_key(key, &mut self.ctx),
            Tab::Files => self.files.on_key(key, &mut self.ctx),
            Tab::Logs => self.logs.on_key(key, &mut self.ctx),
        }
    }

    /// Handles a key.
    pub fn on_key(&mut self, key: KeyEvent)
        requires
            old(self).valid(),
        ensures
            key_takes(*old(self), key, *final(self)),
            final(self).valid(),
    {
        let typed: Option<char> = match key.code {
            KeyCode::Char(c) => Some(c),
            _ => None,
        };
        // Ctrl-C always quits, whatever has focus.
        if let Some(c) = typed {
            if c == 'c' && key.control {
                self.should_quit = true;
                return;
            }
        }
        // A modal dialog captures everything while it is open.
        if self.dialog.is_some() {
            self.on_dialog_key(key);
            return;
        }
        if !self.connected {
            self.on_form_key(key);
            return;
        }
        // Global keys, then the active panel, unless the panel is taking text.
        let capturing = match self.active {
            Tab::Browse => self.browse.is_capturing(),
            _ => false,
        };
        if capturing {
            self.on_panel_key(key);
            return;
        }
        if let Some(c) = typed {
            if c == 'q' {
                self.should_quit = true;
                return;
            }
        }
        if let Some(t) = self.tab_for(key) {
            self.switch_to(t);
            return;
        }
        if let Some(c) = typed {
            if c == 'R' {
                self.reload_active();
                return;
            }
            if c == '?' {
                self.dialog = Some(Dialog::help());
                return;
            }
        }
        self.on_panel_key(key);
    }

    /// Takes the reading of a floating-point number that a dialog asked for.
    pub fn on_float(&mut self, float: &FloatReading)
        requires
            old(self).valid(),
        ensures
            final(self).valid(),
            match old(self).dialog {
                None => *final(self) == *old(self),
                Some(d) => {
                    &&& *final(self) == (App {
                        dialog: if d@.closes_on_float(*float) {
                            None
                        } else {
                            old(self).dialog
                        },
                        ctx: final(self).ctx,
                        ..*old(self)
                    })
                    &&& old(self).ctx.then_queued(
                        final(self).ctx,
                        d@.asks_on_float(*float, old(self).ctx.online),
                    )
                },
            },
    {
        if let Some(d) = self.dialog.take() {
            let mut d = d;
            if !d.on_float(float, &mut self.ctx) {
                self.dialog = Some(d);
            }
        }
    }
}

/// A tab asks for its data once: coming back to it changes nothing.
pub proof fn a_tab_is_loaded_once(b: App, shown: App, again: App)
    requires
        b.then_loaded(shown),
        shown.then_loaded(again),
    ensures
        again == shown,
{
}

/// Ctrl-C quits from anywhere.
pub proof fn ctrl_c_quits_from_anywhere(b: App, a: App)
    requires
        key_takes(b, KeyEvent { code: KeyCode::Char('c'), control: true }, a),
    ensures
        a.should_quit,
{
}

/// While a dialog is open no key reaches the tab bar or the panel behind it, and
/// none but ctrl-C quits.
pub proof fn a_dialog_captures_keys(b: App, key: KeyEvent, a: App)
    requires
        b.dialog is Some,
        !(key.code == KeyCode::Char('c') && key.control),
        key_takes(b, key, a),
    ensures
        a.active == b.active,
        a.should_quit == b.should_quit,
        a == (App { dialog: a.dialog, ctx: a.ctx, ..b }),
{
}

/// Every character typed into the browse filter goes into it: the tab stays,
/// nothing is opened and nothing quits.
pub proof fn the_filter_keeps_every_character(b: App, c: char, a: App)
    requires
        b.connected,
        b.dialog is None,
        captures(b),
        key_takes(b, KeyEvent { code: KeyCode::Char(c), control: false }, a),
    ensures
        a.active == b.active,
        a.should_quit == b.should_quit,
        a.dialog is None,
        a.browse@.filter == b.browse@.filter.push(c),
{
}

// ---- the mouse ----
/// What the mouse did.
#[derive(Debug, Clone, Copy, PartialEq, Eq, Structural)]
pub enum MouseEventKind {
    ScrollUp,
    ScrollDown,
    /// The left button was pressed.
    Left,
    /// Another button was pressed.
    Button,
    Other,
}

/// Something that the mouse did at a cell.
#[derive(Debug, Clone, Copy, PartialEq, Eq, Structural)]
pub struct MouseEvent {
    pub kind: MouseEventKind,
    pub column: u16,
    pub row: u16,
}

/// Whether a cell is in an area; the far edges are not.
pub open spec fn is_inside(r: Rect, x: int, y: int) -> bool {
    r.x <= x < r.x + r.width && r.y <= y < r.y + r.height
}

/// Reports whether a cell is in an area.
pub fn rect_contains(r: Rect, x: u16, y: u16) -> (b: bool)
    ensures
        b == is_inside(r, x as int, y as int),
{
    x >= r.x && x - r.x < r.width && y >= r.y && y - r.y < r.height
}

/// Whether the tab at a place is the first one whose part of the tab bar holds
/// a column.
pub open spec fn tab_hit(spans: Seq<(u16, u16)>, column: int, i: int) -> bool {
    &&& 0 <= i < spans.len()
    &&& spans[i].0 <= column < spans[i].1
    &&& forall|j: int| 0 <= j < i ==> !((#[trigger] spans[j]).0 <= column < spans[j].1)
}

/// Whether `a` is `b` after a turn of the wheel.
pub open spec fn wheel_takes(b: App, up: bool, a: App) -> bool {
    match b.active {
        Tab::Browse => {
            &&& a == (App { browse: a.browse, ..b })
            &&& a.browse@ == (if up {
                b.browse@.raised()
            } else {
                b.browse@.lowered()
            })
        },
        Tab::Reports => a == (App {
            reports: ReportsPanel {
                list: b.reports.list.wheeled(up, b.reports.rcbs@.len() as int),
                ..b.reports
            },
            ..b
        }),
        Tab::Datasets => a == (App {
            datasets: DatasetsPanel {
                list: b.datasets.list.wheeled(up, b.datasets.refs@.len() as int),
                ..b.datasets
            },
            ..b
        }),
        Tab::Controls => a == (App {
            controls: ControlsPanel {
                list: b.controls.list.wheeled(up, b.controls.refs@.len() as int),
                ..b.controls
            },
            ..b
        }),
        Tab::SettingGroups => {
            let list = b.settings.list.wheeled(up, b.settings.refs@.len() as int);
            &&& a == (App { settings: SettingsPanel { list, ..b.settings }, ctx: a.ctx, ..b })
            &&& b.ctx.then_queued(
                a.ctx,
                super::settings::read_deeds(
                    b.settings.refs@,
                    list.cursor as int,
                    b.ctx.online,
                ),
            )
        },
        Tab::Files => a == (App {
            files: FilesPanel {
                list: b.files.list.wheeled(up, b.files.entries@.len() as int),
                ..b.files
            },
            ..b
        }),
        Tab::Logs => a == (App {
            logs: LogsPanel {
                entries_view: b.logs.entries_view.wheeled(up, b.logs.entries@.len() as int),
                ..b.logs
            },
            ..b
        }),
    }
}

/// The list after a click on a row of it, the first row being a border.
pub open spec fn list_clicked(list: ListBox, on_list: bool, y: int, count: int) -> ListBox {
    if on_list && y > 0 {
        list.clicked(y - 1, count)
    } else {
        list
    }
}

/// Whether `a` is `b` after a click at a cell of the active panel.
pub open spec fn click_takes(b: App, x: int, y: int, a: App) -> bool {
    let width = b.content.width as int;
    let online = b.ctx.online;
    match b.active {
        Tab::Browse => {
            let moved = Browse { cursor: b.browse@.top + y - 1, ..b.browse@ };
            let hit = b.browse@.on_row(x, y, width);
            &&& a == (App { browse: a.browse, ctx: a.ctx, ..b })
            &&& a.browse@ == (if hit {
                moved.activated()
            } else {
                b.browse@
            })
            &&& b.ctx.then_queued(
                a.ctx,
                if hit {
                    moved.activate_deeds(online)
                } else {
                    Seq::empty()
                },
            )
        },
        Tab::Reports => {
            let p = b.reports;
            let on_list = x < left_part(width, super::reports::MIN_LEFT as int);
            let count = p.rcbs@.len() as int;
            &&& a == (App {
                reports: ReportsPanel { list: list_clicked(p.list, on_list, y, count), ..p },
                ctx: a.ctx,
                ..b
            })
            &&& b.ctx.then_queued(
                a.ctx,
                if on_list && y > 0 && p.list.hits(y - 1, count) {
                    super::reports::enable_deeds(p.rcbs@, p.list.top + y - 1, online)
                } else {
                    Seq::empty()
                },
            )
        },
        Tab::Datasets => {
            let p = b.datasets;
            let on_list = x < left_part(width, super::datasets::MIN_LEFT as int);
            let count = p.refs@.len() as int;
            &&& a == (App {
                datasets: DatasetsPanel { list: list_clicked(p.list, on_list, y, count), ..p },
                ctx: a.ctx,
                ..b
            })
            &&& b.ctx.then_queued(
                a.ctx,
                if on_list && y > 0 && p.list.hits(y - 1, count) {
                    super::datasets::read_deeds(p.refs@, p.list.top + y - 1, online)
                } else {
                    Seq::empty()
                },
            )
        },
        Tab::Controls => {
            let p = b.controls;
            let count = p.refs@.len() as int;
            &&& a == (App {
                controls: ControlsPanel { list: list_clicked(p.list, true, y, count), ..p },
                dialog: a.dialog,
                ..b
            })
            &&& dialog_opened(
                b,
                if y > 0 && p.list.hits(y - 1, count) {
                    super::controls::operate_selected(p.refs@, p.list.top + y - 1)
                } else {
                    None
                },
                a,
            )
        },
        Tab::SettingGroups => {
            let p = b.settings;
            let on_list = x < left_part(width, super::settings::MIN_LEFT as int);
            let count = p.refs@.len() as int;
            &&& a == (App {
                settings: SettingsPanel { list: list_clicked(p.list, on_list, y, count), ..p },
                ctx: a.ctx,
                ..b
            })
            &&& b.ctx.then_queued(
                a.ctx,
                if on_list && y > 0 && p.list.hits(y - 1, count) {
                    super::settings::read_deeds(p.refs@, p.list.top + y - 1, online)
                } else {
                    Seq::empty()
                },
            )
        },
        Tab::Files => a == (App {
            files: FilesPanel {
                list: list_clicked(b.files.list, true, y, b.files.entries@.len() as int),
                ..b.files
            },
            ..b
        }),
        Tab::Logs => {
            &&& a == (App { logs: b.logs.clicked(x, y, width), ctx: a.ctx, ..b })
            &&& b.ctx.then_queued(a.ctx, b.logs.click_deeds(x, y, width, online))
        },
    }
}

/// Whether `a` is `b` after something that the mouse did.
pub open spec fn mouse_takes(b: App, m: MouseEvent, a: App) -> bool {
    if b.dialog is Some {
        // A click anywhere dismisses the help; the other dialogs are
        // keyboard-driven and ignore the mouse.
        if (m.kind == MouseEventKind::Left || m.kind == MouseEventKind::Button) && overlay(b.dialog)
            == Some(Overlay::Help) {
            a == (App { dialog: None, ..b })
        } else {
            a == b
        }
    } else if !b.connected {
        a == b
    } else {
        match m.kind {
            MouseEventKind::ScrollUp => wheel_takes(b, true, a),
            MouseEventKind::ScrollDown => wheel_takes(b, false, a),
            MouseEventKind::Left => if m.row == 1 {
                // The tab bar is the second row.
                ||| exists|i: int| #[trigger]
                    tab_hit(b.tab_spans@, m.column as int, i) && b.then_on_tab(Tab::of_place(i), a)
                ||| a == b && forall|i: int| !#[trigger] tab_hit(b.tab_spans@, m.column as int, i)
            } else if is_inside(b.content, m.column as int, m.row as int) {
                click_takes(b, m.column - b.content.x, m.row - b.content.y, a)
            } else {
                a == b
            },
            _ => a == b,
        }
    }
}

impl App {
    fn on_wheel(&mut self, up: bool)
        requires
            old(self).valid(),
        ensures
            wheel_takes(*old(self), up, *final(self)),
            final(self).valid(),
    {
        match self.active {
            Tab::Browse => self.browse.scroll(up),
            Tab::Reports => self.reports.scroll(up),
            Tab::Datasets => self.datasets.scroll(up),
            Tab::Controls => self.controls.scroll(up),
            Tab::SettingGroups => {
                self.settings.scroll(up);
                self.settings.read_selected(&mut self.ctx);
            },
            Tab::Files => self.files.scroll(up),
            Tab::Logs => self.logs.scroll(up),
        }
    }

    fn on_panel_click(&mut self, x: u16, y: u16)
        requires
            old(self).valid(),
        ensures
            click_takes(*old(self), x as int, y as int, *final(self)),
            final(self).valid(),
    {
        let width: u16 = self.content.width;
        match self.active {
            Tab::Browse => self.browse.on_click(x, y, width, &mut self.ctx),
            Tab::Reports => self.reports.on_click(x, y, width, &mut self.ctx),
            Tab::Datasets => self.datasets.on_click(x, y, width, &mut self.ctx),
            Tab::Controls => {
                let opened = self.controls.on_click(y);
                if opened.is_some() {
                    self.dialog = opened;
                }
            },
            Tab::SettingGroups => self.settings.on_click(x, y, width, &mut self.ctx),
            Tab::Files => self.files.on_click(y),
            Tab::Logs => self.logs.on_click(x, y, width, &mut self.ctx),
        }
    }

    /// The tab whose part of the tab bar holds a column.
    fn tab_under(&self, column: u16) -> (t: Option<usize>)
        ensures
            match t {
                Some(i) => tab_hit(self.tab_spans@, column as int, i as int),
                None => forall|i: int| !#[trigger] tab_hit(self.tab_spans@, column as int, i),
            },
    {
        let mut i: usize = 0;
        while i < self.tab_spans.len()
            invariant
                i <= self.tab_spans@.len(),
                forall|j: int|
                    0 <= j < i ==> !((#[trigger] self.tab_spans@[j]).0 <= column
                        < self.tab_spans@[j].1),
            decreases self.tab_spans@.len() - i,
        {
            let (start, end) = self.tab_spans[i];
            if column >= start && column < end {
                return Some(i);
            }
            i = i + 1;
        }
        None
    }

    /// Handles something that the mouse did.
    pub fn on_mouse(&mut self, m: MouseEvent)
        requires
            old(self).valid(),
        ensures
            mouse_takes(*old(self), m, *final(self)),
            final(self).valid(),
    {
        if let Some(d) = &self.dialog {
            let down = match m.kind {
                MouseEventKind::Left | MouseEventKind::Button => true,
                _ => false,
            };
            if down && d.dismissable_by_click() {
                self.dialog = None;
            }
            return;
        }
        if !self.connected {
            return;
        }
        match m.kind {
            MouseEventKind::ScrollUp => self.on_wheel(true),
            MouseEventKind::ScrollDown => self.on_wheel(false),
            MouseEventKind::Left => {
                if m.row == 1 {
                    if let Some(i) = self.tab_under(m.column) {
                        self.switch_to(Tab::at(i));
                    }
                    return;
                }
                if rect_contains(self.content, m.column, m.row) {
                    self.on_panel_click(m.column - self.content.x, m.row - self.content.y);
                }
            },
            _ => {},
        }
    }
}

/// Whatever the mouse does while a dialog other than the help is open changes
/// nothing, so a stray click can neither confirm nor dismiss one.
pub proof fn a_stray_click_changes_nothing(b: App, m: MouseEvent, a: App)
    requires
        overlay(b.dialog) matches Some(o) && o != Overlay::Help,
        mouse_takes(b, m, a),
    ensures
        a == b,
{
}

// ---- drawing ----
/// The label of a tab.
pub open spec fn tab_label(i: int) -> Seq<char> {
    " "@ + decimal((i + 1) as nat) + " "@ + Tab::of_place(i).text() + " "@
}

/// Where the part of the tab bar begins that belongs to a tab, in a bar that
/// begins at `x`.
pub open spec fn tab_start(x: int, i: int) -> int
    decreases i,
{
    if i <= 0 {
        x
    } else {
        tab_start(x, i - 1) + tab_label(i - 1).len()
    }
}

/// The number of columns that the labels of the tabs take.
pub const TAB_BAR: u16 = 75;

/// The parts of the tab bar.
pub open spec fn tab_parts(x: int) -> Seq<(u16, u16)> {
    Seq::new(TABS as nat, |i: int| (tab_start(x, i) as u16, tab_start(x, i + 1) as u16))
}

/// What the tab bar shows.
pub open spec fn tab_inks(active: Tab) -> Seq<Ink> {
    Seq::new(
        TABS as nat,
        |i: int|
            ink(
                tab_label(i),
                if Tab::of_place(i) == active {
                    Paint::TabActive
                } else {
                    Paint::Tab
                },
            ),
    )
}

proof fn lemma_tab_label(i: int)
    requires
        0 <= i < TABS,
    ensures
        tab_label(i).len() == (if i == 0 {
            10int
        } else if i == 1 {
            11
        } else if i == 2 || i == 3 {
            12
        } else if i == 4 {
            13
        } else if i == 5 {
            9
        } else {
            8
        }),
{
    reveal_strlit(" ");
    reveal_strlit("Browse");
    reveal_strlit("Reports");
    reveal_strlit("Datasets");
    reveal_strlit("Controls");
    reveal_strlit("SetGroups");
    reveal_strlit("Files");
    reveal_strlit("Logs");
}

proof fn lemma_tab_bar(x: int)
    ensures
        tab_start(x, 0) == x,
        tab_start(x, 1) == x + 10,
        tab_start(x, 2) == x + 21,
        tab_start(x, 3) == x + 33,
        tab_start(x, 4) == x + 45,
        tab_start(x, 5) == x + 58,
        tab_start(x, 6) == x + 67,
        tab_start(x, 7) == x + TAB_BAR,
{
    lemma_tab_label(0);
    lemma_tab_label(1);
    lemma_tab_label(2);
    lemma_tab_label(3);
    lemma_tab_label(4);
    lemma_tab_label(5);
    lemma_tab_label(6);
    reveal_with_fuel(tab_start, 8);
}

/// Every column of the tab bar belongs to exactly one tab.
pub proof fn every_column_of_the_tab_bar_belongs_to_a_tab(x: int, column: int)
    requires
        0 <= x,
        x + TAB_BAR <= u16::MAX,
        x <= column < x + TAB_BAR,
    ensures
        exists|i: int| #[trigger] tab_hit(tab_parts(x), column, i),
        forall|i: int, j: int|
            #![trigger tab_parts(x)[i], tab_parts(x)[j]]
            0 <= i < TABS && 0 <= j < TABS && tab_parts(x)[i].0 <= column < tab_parts(x)[i].1
                && tab_parts(x)[j].0 <= column < tab_parts(x)[j].1 ==> i == j,
{
    lemma_tab_bar(x);
    let parts = tab_parts(x);
    assert(parts[0] == (x as u16, (x + 10) as u16));
    assert(parts[1] == ((x + 10) as u16, (x + 21) as u16));
    assert(parts[2] == ((x + 21) as u16, (x + 33) as u16));
    assert(parts[3] == ((x + 33) as u16, (x + 45) as u16));
    assert(parts[4] == ((x + 45) as u16, (x + 58) as u16));
    assert(parts[5] == ((x + 58) as u16, (x + 67) as u16));
    assert(parts[6] == ((x + 67) as u16, (x + TAB_BAR) as u16));
    let i = if column < x + 10 {
        0int
    } else if column < x + 21 {
        1
    } else if column < x + 33 {
        2
    } else if column < x + 45 {
        3
    } else if column < x + 58 {
        4
    } else if column < x + 67 {
        5
    } else {
        6
    };
    assert(tab_hit(parts, column, i));
}

/// What the screen shows while there is a connection.
#[derive(Debug)]
pub struct Screen {
    pub areas: FrameAreas,
    pub header: Line,
    pub tabs: Line,
    pub panel: PanelFrame,
    pub status: Line,
    pub help: Line,
    pub popup: Option<Popup>,
}

/// What the screen shows before there is a connection.
#[derive(Debug)]
pub struct Waiting {
    pub body: Rect,
    /// The connection form, or a line in its place.
    pub form: Option<Popup>,
    pub line: Line,
    pub status_area: Rect,
    pub status: Line,
    pub popup: Option<Popup>,
}

/// What the screen shows.
#[derive(Debug)]
pub enum Shown {
    Connected(Screen),
    Waiting(Waiting),
}

/// The title of the screen.
pub open spec fn header_text(a: App) -> Seq<char> {
    if a.ident@.len() == 0 {
        " iedx  ·  "@ + a.addr@ + " "@
    } else {
        " iedx  ·  "@ + a.ident@ + "  ·  "@ + a.addr@ + " "@
    }
}

/// The line of hints.
pub open spec fn help_text() -> Seq<char> {
    "tab/1-7 switch · R refresh · ? help · q quit · mouse: click tabs & rows, wheel scrolls"@
}

/// Whether the active panel was shown, and the others were left alone.
pub open spec fn panel_draws(b: App, area: Rect, a: App, f: PanelFrame) -> bool {
    match b.active {
        Tab::Browse => {
            &&& a == (App {
                browse: a.browse,
                content: a.content,
                tab_spans: a.tab_spans,
                ..b
            })
            &&& b.browse.draws(area, a.browse, f)
        },
        Tab::Reports => {
            &&& a == (App {
                reports: a.reports,
                content: a.content,
                tab_spans: a.tab_spans,
                ..b
            })
            &&& b.reports.draws(area, a.reports, f)
        },
        Tab::Datasets => {
            &&& a == (App {
                datasets: a.datasets,
                content: a.content,
                tab_spans: a.tab_spans,
                ..b
            })
            &&& b.datasets.draws(area, a.datasets, f)
        },
        Tab::Controls => {
            &&& a == (App {
                controls: a.controls,
                content: a.content,
                tab_spans: a.tab_spans,
                ..b
            })
            &&& b.controls.draws(area, a.controls, f)
        },
        Tab::SettingGroups => {
            &&& a == (App {
                settings: a.settings,
                content: a.content,
                tab_spans: a.tab_spans,
                ..b
            })
            &&& b.settings.draws(area, a.settings, f)
        },
        Tab::Files => {
            &&& a == (App { files: a.files, content: a.content, tab_spans: a.tab_spans, ..b })
            &&& b.files.draws(area, a.files, f)
        },
        Tab::Logs => {
            &&& a == (App { logs: a.logs, content: a.content, tab_spans: a.tab_spans, ..b })
            &&& b.logs.draws(area, a.logs, f)
        },
    }
}

/// Whether the overlay of a dialog is there exactly where the dialog is.
pub open spec fn popup_of(d: Option<Dialog>, p: Option<Popup>) -> bool {
    match (d, p) {
        (Some(d), Some(p)) => d.popped_up(p),
        (None, None) => true,
        _ => false,
    }
}

/// Whether `a` is `b` after it was shown as `s` in an area with a connection.
pub open spec fn screen_draws(b: App, area: Rect, a: App, s: Screen) -> bool {
    let width = area.width as int;
    &&& s.areas.header.x == area.x && s.areas.header.width == area.width
    &&& s.areas.tabs.x == area.x && s.areas.tabs.width == area.width
    &&& s.areas.content.x == area.x && s.areas.content.width == area.width
    &&& s.areas.status.x == area.x && s.areas.status.width == area.width
    &&& s.areas.help.x == area.x && s.areas.help.width == area.width
    &&& 7 <= area.height && area.y + area.height <= u16::MAX ==> in_place(s.areas, area)
    &&& s.header@ == row(clipped(header_text(b), width), Paint::Header)
    &&& s.tabs@ == (Row { inks: tab_inks(b.active), selected: false })
    &&& a.tab_spans@ == tab_parts(area.x as int)
    &&& a.content == s.areas.content
    &&& panel_draws(b, s.areas.content, a, s.panel)
    &&& s.status@ == row(clipped(b.status@, width), b.status_kind.paint())
    &&& s.help@ == row(clipped(help_text(), width), Paint::Help)
    &&& popup_of(b.dialog, s.popup)
}

/// Whether an application is shown as `w` in an area without a connection.
pub open spec fn waiting_draws(b: App, area: Rect, w: Waiting) -> bool {
    &&& is_divided(area, w.body, w.status_area)
    &&& match (b.connect_form, w.form) {
        (Some(f), Some(p)) => super::dialogs::is_popup(
            p,
            64,
            13,
            "Connect to an IED"@,
            Paint::Accent,
            f@.shown(),
        ),
        (None, None) => true,
        _ => false,
    }
    &&& w.line@ == row("iedx: connecting..."@, Paint::Muted)
    &&& w.status@ == row(clipped(b.status@, area.width as int), b.status_kind.paint())
    &&& popup_of(b.dialog, w.popup)
}

impl App {
    /// Writes the tab bar, and notes where each tab is.
    fn draw_tabs(&mut self, area: Rect) -> (l: Line)
        requires
            area.x + TAB_BAR <= u16::MAX,
        ensures
            l@ == (Row { inks: tab_inks(old(self).active), selected: false }),
            final(self).tab_spans@ == tab_parts(area.x as int),
            *final(self) == (App { tab_spans: final(self).tab_spans, ..*old(self) }),
    {
        proof {
            lemma_tab_bar(area.x as int);
        }
        let mut spans: Vec<Span> = Vec::new();
        let mut parts: Vec<(u16, u16)> = Vec::new();
        let mut x: u16 = area.x;
        let mut i: usize = 0;
        let ghost all = tab_inks(self.active);
        let ghost whole = tab_parts(area.x as int);
        assert(inks(spans@) =~= all.take(0));
        assert(parts@ =~= whole.take(0));
        while i < TABS
            invariant
                i <= TABS,
                all == tab_inks(self.active),
                whole == tab_parts(area.x as int),
                area.x + TAB_BAR <= u16::MAX,
                x == tab_start(area.x as int, i as int),
                tab_start(area.x as int, 7) == area.x + TAB_BAR,
                inks(spans@) == all.take(i as int),
                parts@ == whole.take(i as int),
                *self == *old(self),
            decreases TABS - i,
        {
            let t = Tab::at(i);
            let mut label = " ".to_owned();
            push_decimal(&mut label, (i + 1) as u64);
            push_str(&mut label, " ");
            push_str(&mut label, t.title());
            push_str(&mut label, " ");
            assert(label@ == tab_label(i as int));
            let w: usize = chars(label.as_str()).len();
            proof {
                lemma_tab_label(i as int);
                lemma_tab_bar(area.x as int);
                assert(tab_start(area.x as int, i + 1) == x + w);
            }
            let end: u16 = x + w as u16;
            parts.push((x, end));
            x = end;
            let active = self.active.index() == i;
            proof {
                the_tabs_are_a_ring(self.active, i as int);
            }
            push_span(
                &mut spans,
                label.as_str(),
                if active {
                    Paint::TabActive
                } else {
                    Paint::Tab
                },
            );
            assert(inks(spans@) =~= all.take(i + 1));
            assert(parts@ =~= whole.take(i + 1));
            i = i + 1;
        }
        assert(all.take(i as int) =~= all);
        assert(whole.take(i as int) =~= whole);
        self.tab_spans = parts;
        Line { spans, selected: false }
    }

    fn draw_panel(&mut self, area: Rect) -> (f: PanelFrame)
        requires
            old(self).valid(),
        ensures
            panel_draws(*old(self), area, *final(self), f),
            final(self).content == old(self).content,
            final(self).tab_spans == old(self).tab_spans,
            final(self).valid(),
    {
        match self.active {
            Tab::Browse => self.browse.draw(area),
            Tab::Reports => self.reports.draw(area),
            Tab::Datasets => self.datasets.draw(area),
            Tab::Controls => self.controls.draw(area),
            Tab::SettingGroups => self.settings.draw(area),
            Tab::Files => self.files.draw(area),
            Tab::Logs => self.logs.draw(area),
        }
    }

    fn popup(&self) -> (p: Option<Popup>)
        requires
            self.valid(),
        ensures
            popup_of(self.dialog, p),
    {
        match &self.dialog {
            Some(d) => Some(d.draw()),
            None => None,
        }
    }

    fn status_line(&self, width: u16) -> (l: Line)
        ensures
            l@ == row(clipped(self.status@, width as int), self.status_kind.paint()),
    {
        Line::styled(
            clip(self.status.as_str(), width as usize).as_str(),
            self.status_kind.style(),
        )
    }

    fn header(&self) -> (s: String)
        ensures
            s@ == header_text(*self),
    {
        let mut title = " iedx  ·  ".to_owned();
        if !self.ident.as_str().is_empty() {
            push_str(&mut title, self.ident.as_str());
            push_str(&mut title, "  ·  ");
        }
        push_str(&mut title, self.addr.as_str());
        push_str(&mut title, " ");
        title
    }

    /// What the screen shows in an area.
    pub fn draw(&mut self, area: Rect) -> (s: Shown)
        requires
            old(self).valid(),
            area.x + TAB_BAR <= u16::MAX,
        ensures
            final(self).valid(),
            match s {
                Shown::Connected(screen) => old(self).connected && screen_draws(
                    *old(self),
                    area,
                    *final(self),
                    screen,
                ),
                Shown::Waiting(w) => !old(self).connected && waiting_draws(*old(self), area, w)
                    && *final(self) == *old(self),
            },
    {
        if !self.connected {
            return Shown::Waiting(self.draw_disconnected(area));
        }
        let areas = frame_areas(area);
        let width: usize = area.width as usize;
        let header = Line::styled(
            clip(self.header().as_str(), width).as_str(),
            Paint::Header,
        );
        let status = self.status_line(area.width);
        let help = Line::styled(
            clip(
                "tab/1-7 switch · R refresh · ? help · q quit · mouse: click tabs & rows, wheel scrolls",
                width,
            ).as_str(),
            Paint::Help,
        );
        let popup = self.popup();
        let tabs = self.draw_tabs(areas.tabs);
        self.content = areas.content;
        let panel = self.draw_panel(areas.content);
        Shown::Connected(Screen { areas, header, tabs, panel, status, help, popup })
    }

    fn draw_disconnected(&self, area: Rect) -> (w: Waiting)
        requires
            self.valid(),
        ensures
            waiting_draws(*self, area, w),
    {
        let rows = panel_areas(area);
        let form = match &self.connect_form {
            Some(f) => Some(f.draw()),
            None => None,
        };
        Waiting {
            body: rows.body,
            form,
            line: Line::styled("iedx: connecting...", Paint::Muted),
            status_area: rows.hint,
            status: self.status_line(area.width),
            popup: self.popup(),
        }
    }
}

/// Each tab asks for its own data, and for nothing without a connection.
pub proof fn a_tab_asks_for_its_own_data(t: Tab)
    ensures
        load_deeds(t, true).last() == match t {
            Tab::Browse => Deed::LoadModel,
            Tab::Reports => Deed::LoadReports,
            Tab::Datasets => Deed::LoadDatasets,
            Tab::Controls => Deed::LoadControls,
            Tab::SettingGroups => Deed::LoadSettings,
            Tab::Files => Deed::ListFiles(Seq::empty()),
            Tab::Logs => Deed::LoadLogs,
        },
        load_deeds(t, false) == seq![Deed::Status("not connected"@, StatusKind::Failure)],
{
}

/// A digit leads to the tab of its number, the tab key to the next, and its
/// opposite to the one before; where the setting groups have a block to act on
/// the digits are theirs.
pub proof fn a_digit_leads_to_its_tab(b: App, n: u8)
    ensures
        1 <= n <= 7 && (b.active != Tab::SettingGroups || b.settings.current is None)
            ==> (tab_of_key(b, KeyCode::Char(crate::text::digit(n as nat))) matches Some(t)
            && t.place() == n - 1),
        1 <= n <= 7 && b.active == Tab::SettingGroups && b.settings.current is Some ==> tab_of_key(
            b,
            KeyCode::Char(crate::text::digit(n as nat)),
        ) is None,
        tab_of_key(b, KeyCode::Tab) matches Some(t) && t.place() == (if b.active.place() == 6 {
            0
        } else {
            b.active.place() + 1
        }),
        tab_of_key(b, KeyCode::BackTab) matches Some(t) && t.place() == (if b.active.place() == 0 {
            6
        } else {
            b.active.place() - 1
        }),
        tab_of_key(b, KeyCode::Char(']')) == tab_of_key(b, KeyCode::Tab),
        tab_of_key(b, KeyCode::Char('[')) == tab_of_key(b, KeyCode::BackTab),
        tab_of_key(b, KeyCode::Char('8')) is None,
        tab_of_key(b, KeyCode::Char('0')) is None,
        tab_of_key(b, KeyCode::Enter) is None,
{
}

/// A value goes to the row that it was read for, and to no other.
pub proof fn a_value_goes_to_its_row(b: Browse, node: usize, text: Seq<char>, is_err: bool, i: int)
    requires
        0 <= i < b.nodes.len(),
    ensures
        ({
            let a = with_value(b, node, text, is_err);
            &&& a.nodes.len() == b.nodes.len()
            &&& i == node ==> a.nodes[i].value == Some(text) && a.nodes[i].value_is_err == is_err
                && a.nodes[i].reference == b.nodes[i].reference && a.nodes[i].label
                == b.nodes[i].label && a.nodes[i].children == b.nodes[i].children
            &&& i != node ==> a.nodes[i] == b.nodes[i]
            &&& a.visible == b.visible
            &&& a.cursor == b.cursor
        }),
{
}

/// A message changes the panel that it is for and leaves the others, the tab
/// and the dialog alone.
pub proof fn a_message_changes_one_panel(b: App, msg: Msg, a: App)
    requires
        takes(b, msg, a),
        !(msg is Connected),
        !(msg is ConnectFailed),
    ensures
        a.active == b.active,
        overlay(a.dialog) == overlay(b.dialog),
        a.connected == b.connected,
        a.should_quit == b.should_quit,
        !(msg is ModelLoaded || msg is Value) ==> a.browse == b.browse,
        !(msg is RcbsLoaded || msg is ReportEnabled || msg is ReportLine) ==> a.reports
            == b.reports,
        !(msg is DatasetsLoaded || msg is DatasetRead) ==> a.datasets == b.datasets,
        !(msg is ControlsLoaded) ==> a.controls == b.controls,
        !(msg is SgcbsLoaded || msg is SgLoaded) ==> a.settings == b.settings,
        !(msg is FilesLoaded) ==> a.files == b.files,
        !(msg is LogsLoaded || msg is LogQueried) ==> a.logs == b.logs,
{
}

/// What came back is what the panel holds afterwards.
pub proof fn a_panel_holds_what_came_back(b: App, a: App, msg: Msg)
    requires
        takes(b, msg, a),
    ensures
        msg matches Msg::RcbsLoaded(rcbs) ==> a.reports.rcbs == rcbs,
        msg matches Msg::ReportEnabled(r) ==> a.reports.enabled == Some(r) && a.reports.subscribed,
        msg matches Msg::ReportLine(line) ==> a.reports.feed@.last() == line,
        msg matches Msg::DatasetsLoaded(refs) ==> a.datasets.refs == refs,
        msg matches Msg::DatasetRead(ds) ==> a.datasets.current == Some(ds),
        msg matches Msg::ControlsLoaded(refs) ==> a.controls.refs == refs,
        msg matches Msg::SgcbsLoaded(refs) ==> a.settings.refs == refs,
        msg matches Msg::SgLoaded(info) ==> a.settings.current == Some(info),
        msg matches Msg::FilesLoaded(entries) ==> a.files.entries == entries,
        msg matches Msg::LogsLoaded(refs) ==> a.logs.refs == refs,
        msg matches Msg::LogQueried(entries) ==> a.logs.entries == entries,
        msg matches Msg::ModelLoaded(nodes) ==> a.browse@.nodes == node_views(nodes@),
        msg matches Msg::Status(text, kind) ==> a.status@ == text@ && a.status_kind == kind,
        msg matches Msg::Connected { ident } ==> a.connected && a.ctx.online && a.ident == ident
            && a.connect_form is None,
        msg matches Msg::ConnectFailed(e) ==> a.connected == b.connected && a.connect_form is Some
            && a.status_kind == StatusKind::Failure && e@.is_suffix_of(a.status@),
{
    if let Msg::ReportLine(line) = msg {
        super::reports::the_feed_keeps_its_tail(b.reports.feed@, line);
    }
    if let Msg::ConnectFailed(e) = msg {
        let t = "connect failed: "@ + e@;
        assert(t.skip(t.len() - e@.len()) =~= e@);
    }
}

/// With a connection and nothing in the way, `q` quits, a question mark opens
/// the help, `R` asks for the data of the tab anew, and a key for a tab leads
/// there.
pub proof fn a_key_is_taken_by_the_application_first(b: App, code: KeyCode, a: App)
    requires
        b.connected,
        b.dialog is None,
        !(b.active == Tab::Browse && b.browse@.filtering),
        key_takes(b, KeyEvent { code, control: false }, a),
    ensures
        code == KeyCode::Char('q') ==> a.should_quit && a.active == b.active,
        code == KeyCode::Char('?') ==> overlay(a.dialog) == Some(Overlay::Help) && a.active
            == b.active && a.ctx == b.ctx,
        code == KeyCode::Char('R') ==> b.ctx.then_queued(
            a.ctx,
            load_deeds(b.active, b.ctx.online),
        ) && a.active == b.active,
        code == KeyCode::Tab ==> a.active == b.active.next(),
        code == KeyCode::BackTab ==> a.active == b.active.previous(),
        code != KeyCode::Char('q') ==> a.should_quit == b.should_quit,
        (code == KeyCode::Enter || code == KeyCode::Up || code == KeyCode::Down) ==> a.active
            == b.active,
{
}

/// Submitting the form connects to the address that was typed, completed by the
/// usual port, with the password as it was typed.
pub proof fn the_form_connects_to_what_was_typed(b: App, a: App, f: ConnectForm)
    requires
        b.connect_form == Some(f),
        f@.focus != 2,
        form_takes(b, KeyCode::Enter, a),
    ensures
        a.addr@ == with_port(trimmed(f@.address.value)),
        a.password@ == f@.password.value,
        a.tls == f@.tls,
        a.addr@.len() > 0 ==> b.ctx.then_queued(
            a.ctx,
            seq![
                Deed::Connect {
                    addr: with_port(trimmed(f@.address.value)),
                    password: f@.password.value,
                    tls: f@.tls,
                },
            ],
        ),
        a.addr@.len() == 0 ==> a.ctx == b.ctx && a.status_kind == StatusKind::Failure,
{
}

/// The wheel moves the list of the active tab by one and changes nothing else;
/// among the setting groups the block that it comes to is read.
pub proof fn the_wheel_moves_the_active_list(b: App, up: bool, a: App)
    requires
        wheel_takes(b, up, a),
        b.valid(),
    ensures
        a.active == b.active && a.dialog == b.dialog,
        b.active != Tab::SettingGroups ==> a.ctx == b.ctx,
        b.active == Tab::SettingGroups ==> a.settings.list == b.settings.list.moved(
            if up { -1 } else { 1 },
            b.settings.refs@.len() as int,
        ) && b.ctx.then_queued(
            a.ctx,
            if a.settings.list.cursor < b.settings.refs@.len() {
                asked(
                    b.ctx.online,
                    Deed::ReadSettings(b.settings.refs@[a.settings.list.cursor as int]@),
                )
            } else {
                Seq::empty()
            },
        ),
        b.active == Tab::Logs ==> a.logs.entries_view == b.logs.entries_view.moved(
            if up { -1 } else { 1 },
            b.logs.entries@.len() as int,
        ),
        b.active != Tab::Browse ==> a.browse == b.browse,
        b.active != Tab::Reports ==> a.reports == b.reports,
        b.active != Tab::Datasets ==> a.datasets == b.datasets,
        b.active != Tab::Controls ==> a.controls == b.controls,
        b.active != Tab::SettingGroups ==> a.settings == b.settings,
        b.active != Tab::Files ==> a.files == b.files,
        b.active != Tab::Logs ==> a.logs == b.logs,
        b.active == Tab::Browse && up && b.browse@.cursor > 0 ==> a.browse@.cursor
            == b.browse@.cursor - 1,
        b.active == Tab::Browse && !up && b.browse@.cursor + 1 < b.browse@.visible.len()
            ==> a.browse@.cursor == b.browse@.cursor + 1,
        b.active == Tab::Files ==> a.files.list == b.files.list.moved(
            if up { -1 } else { 1 },
            b.files.entries@.len() as int,
        ),
        b.active == Tab::Datasets ==> a.datasets.list == b.datasets.list.moved(
            if up { -1 } else { 1 },
            b.datasets.refs@.len() as int,
        ),
        b.active == Tab::Controls ==> a.controls.list == b.controls.list.moved(
            if up { -1 } else { 1 },
            b.controls.refs@.len() as int,
        ),
        b.active == Tab::Reports ==> a.reports.list == b.reports.list.moved(
            if up { -1 } else { 1 },
            b.reports.rcbs@.len() as int,
        ),
{
}

/// A click on an item of the active list picks that item and does with it what
/// the enter key does: a block is enabled, a dataset or a group block read, a
/// control asked about.
pub proof fn a_click_uses_what_it_hits(b: App, y: int, a: App)
    requires
        click_takes(b, 0, y, a),
        b.ctx.online,
        b.content.width > 40,
        0 < y <= u16::MAX,
    ensures
        b.active == Tab::Reports && b.reports.list.top + y - 1 < b.reports.rcbs@.len() ==> {
            let i = b.reports.list.top + y - 1;
            &&& a.reports.list.cursor == i
            &&& a.ctx.queued().last() == Deed::EnableReport(b.reports.rcbs@[i].reference@)
        },
        b.active == Tab::Datasets && b.datasets.list.top + y - 1 < b.datasets.refs@.len() ==> {
            let i = b.datasets.list.top + y - 1;
            &&& a.datasets.list.cursor == i
            &&& a.ctx.queued().last() == Deed::ReadDataset(b.datasets.refs@[i]@)
        },
        b.active == Tab::SettingGroups && b.settings.list.top + y - 1 < b.settings.refs@.len()
            ==> {
            let i = b.settings.list.top + y - 1;
            &&& a.settings.list.cursor == i
            &&& a.ctx.queued().last() == Deed::ReadSettings(b.settings.refs@[i]@)
        },
        b.active == Tab::Controls && b.controls.list.top + y - 1 < b.controls.refs@.len() ==> {
            let i = b.controls.list.top + y - 1;
            &&& a.controls.list.cursor == i
            &&& overlay(a.dialog) == Some(
                super::dialogs::control_overlay(b.controls.refs@[i]@),
            )
        },
        b.active == Tab::Files && b.files.list.top + y - 1 < b.files.entries@.len()
            ==> a.files.list.cursor == b.files.list.top + y - 1 && a.ctx == b.ctx,
        a.active == b.active,
{
    assert(b.reports.rcbs.len() == b.reports.rcbs@.len());
    assert(b.datasets.refs.len() == b.datasets.refs@.len());
    assert(b.settings.refs.len() == b.settings.refs@.len());
    assert(b.controls.refs.len() == b.controls.refs@.len());
    assert(b.files.entries.len() == b.files.entries@.len());
}

/// A cell is in an area from its near edges up to, and not including, its far
/// edges.
pub proof fn the_far_edges_are_outside(r: Rect)
    requires
        r.width > 0,
        r.height > 0,
    ensures
        is_inside(r, r.x as int, r.y as int),
        is_inside(r, r.x + r.width - 1, r.y + r.height - 1),
        !is_inside(r, r.x + r.width, r.y as int),
        !is_inside(r, r.x as int, r.y + r.height),
        !is_inside(r, r.x - 1, r.y as int),
        !is_inside(r, r.x as int, r.y - 1),
{
}

/// The labels of the tabs stand side by side from the start of the bar on, each
/// with its number and its title, and the active one is marked.
pub proof fn the_tabs_stand_side_by_side(x: int, i: int, active: Tab)
    requires
        0 <= x,
        x + TAB_BAR <= u16::MAX,
        0 <= i < 7,
    ensures
        tab_parts(x)[0].0 == x,
        i < 6 ==> tab_parts(x)[i + 1].0 == tab_parts(x)[i].1,
        tab_parts(x)[i].1 - tab_parts(x)[i].0 == tab_inks(active)[i].text.len(),
        tab_inks(active)[i].text == " "@ + decimal((i + 1) as nat) + " "@ + Tab::of_place(i).text()
            + " "@,
        tab_inks(active)[i].paint == Paint::TabActive <==> active.place() == i,
{
    lemma_tab_bar(x);
    lemma_tab_label(i);
}

/// The header names the device, once it is known, and its address.
pub proof fn the_header_names_the_device(a: App)
    ensures
        a.ident@.len() > 0 ==> header_text(a) == " iedx  ·  "@ + a.ident@ + "  ·  "@ + a.addr@
            + " "@,
        a.ident@.len() == 0 ==> header_text(a) == " iedx  ·  "@ + a.addr@ + " "@,
{
}

/// A click on the border above a list changes nothing and asks for nothing.
pub proof fn the_border_takes_no_click(b: App, x: int, a: App)
    requires
        click_takes(b, x, 0, a),
        0 <= x,
    ensures
        a.browse@ == b.browse@,
        a.reports == b.reports && a.datasets == b.datasets && a.controls == b.controls,
        a.settings == b.settings && a.files == b.files && a.logs == b.logs,
        overlay(a.dialog) == overlay(b.dialog),
        a.ctx.queued() == b.ctx.queued(),
{
    assert(b.ctx.queued() + Seq::<Deed>::empty() =~= b.ctx.queued());
}

} // verus!
