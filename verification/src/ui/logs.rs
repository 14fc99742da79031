//! Logs: pick a log and query its entries.

use vstd::prelude::*;

use super::layout::{inside, is_divided, is_paned, pane_areas, panel_areas};
use super::widgets::{left_part, left_width, ListBox, RefRows, RowSource};
use super::{
    asked, ink, inks, not_connected, push_span, row, shows, Ctx, Deed, Effect, Ink, KeyCode,
    KeyEvent, Line, Paint, Pane, PanelFrame, Rect, Span, StatusKind,
};
use crate::model::ObjectReference;
use crate::notation::{hex, hex_text};
use crate::text::{decimal, push_decimal, push_str};
use crate::time::{fmt_time, time_text, WallTime};

verus! {

/// How far back a query reaches when no range has been asked for, in seconds.
pub const DEFAULT_WINDOW: u64 = 86_400;

/// The narrowest and widest the window can be stepped to: an hour is the
/// smallest span worth a round trip, and a month is as far back as a device
/// keeps entries in practice.
pub const MIN_WINDOW: u64 = 3_600;

pub const MAX_WINDOW: u64 = 2_592_000;

/// Nanoseconds in a second.
pub const NANOS_PER_SEC: u64 = 1_000_000_000;

/// The least width of the list of logs.
pub const MIN_LEFT: u16 = 28;

/// A variable of a log entry as the panel shows it.
#[derive(Debug)]
pub struct JournalVariable {
    pub tag: String,
    /// How the value reads.
    pub value: Option<String>,
}

/// A log entry as the panel shows it.
#[derive(Debug)]
pub struct LogEntry {
    pub entry_id: Vec<u8>,
    pub occurrence_time: Option<WallTime>,
    pub variables: Vec<JournalVariable>,
}

/// How a variable reads.
pub open spec fn variable_text(v: JournalVariable) -> Seq<char> {
    match v.value {
        Some(value) => v.tag@ + "="@ + value@,
        None => v.tag@,
    }
}

/// How variables read, with a blank between each two.
pub open spec fn variables_text(vs: Seq<JournalVariable>) -> Seq<char>
    decreases vs.len(),
{
    if vs.len() == 0 {
        Seq::empty()
    } else if vs.len() == 1 {
        variable_text(vs[0])
    } else {
        variables_text(vs.drop_last()) + " "@ + variable_text(vs.last())
    }
}

fn write_variables(vs: &Vec<JournalVariable>) -> (s: String)
    ensures
        s@ == variables_text(vs@),
{
    let mut s = String::new();
    let mut i: usize = 0;
    assert(vs@.take(0) =~= Seq::<JournalVariable>::empty());
    while i < vs.len()
        invariant
            i <= vs@.len(),
            s@ == variables_text(vs@.take(i as int)),
        decreases vs@.len() - i,
    {
        let ghost before = s@;
        let ghost next = vs@.take(i + 1);
        if i > 0 {
            push_str(&mut s, " ");
        }
        let v = &vs[i];
        let ghost head = s@;
        push_str(&mut s, v.tag.as_str());
        if let Some(value) = &v.value {
            push_str(&mut s, "=");
            push_str(&mut s, value.as_str());
        }
        proof {
            assert(next.drop_last() =~= vs@.take(i as int));
            assert(next.last() == *v);
            assert(s@ =~= head + variable_text(*v));
            if i == 0 {
                assert(head =~= Seq::<char>::empty());
                assert(s@ =~= variable_text(*v));
            }
        }
        i = i + 1;
    }
    assert(vs@.take(i as int) =~= vs@);
    s
}

/// The rows of the entries.
pub struct EntryRows<'a> {
    pub entries: &'a Vec<LogEntry>,
}

impl<'a> RowSource for EntryRows<'a> {
    open spec fn rows(&self) -> nat {
        self.entries@.len()
    }

    open spec fn inks_at(&self, i: int) -> Seq<Ink> {
        let e = self.entries@[i];
        seq![
            ink(time_text(e.occurrence_time), Paint::Muted),
            ink("  "@, Paint::Plain),
            ink(hex_text(e.entry_id@), Paint::Accent),
            ink("  "@, Paint::Plain),
            ink(variables_text(e.variables@), Paint::Value),
        ]
    }

    fn count(&self) -> usize {
        self.entries.len()
    }

    fn spans(&self, i: usize) -> Vec<Span> {
        let e = &self.entries[i];
        let mut spans: Vec<Span> = Vec::new();
        assert(inks(spans@) =~= Seq::<Ink>::empty());
        push_span(&mut spans, fmt_time(e.occurrence_time).as_str(), Paint::Muted);
        push_span(&mut spans, "  ", Paint::Plain);
        push_span(&mut spans, hex(e.entry_id.as_slice()).as_str(), Paint::Accent);
        push_span(&mut spans, "  ", Paint::Plain);
        push_span(&mut spans, write_variables(&e.variables).as_str(), Paint::Value);
        assert(inks(spans@) =~= self.inks_at(i as int));
        spans
    }
}

/// A window in hours or days, whichever reads better.
pub open spec fn window_text(secs: int) -> Seq<char> {
    let hours = secs / 3600;
    if hours % 24 == 0 && hours > 24 {
        decimal((hours / 24) as nat) + " d"@
    } else {
        decimal(hours as nat) + " h"@
    }
}

/// Renders the window as hours or days, whichever reads better.
pub fn fmt_window(secs: u64) -> (s: String)
    ensures
        s@ == window_text(secs as int),
{
    let hours: u64 = secs / 3600;
    let mut s = String::new();
    if hours % 24 == 0 && hours > 24 {
        push_decimal(&mut s, hours / 24);
        push_str(&mut s, " d");
    } else {
        push_decimal(&mut s, hours);
        push_str(&mut s, " h");
    }
    assert(s@ =~= window_text(secs as int));
    s
}

#[derive(Debug)]
pub struct LogsPanel {
    pub list: ListBox,
    pub entries_view: ListBox,
    pub refs: Vec<ObjectReference>,
    pub entries: Vec<LogEntry>,
    /// How far back the next range query reaches, in whole seconds.
    pub window: u64,
    /// What the window has beyond them, in nanoseconds.
    pub window_nanos: u32,
}

impl Default for LogsPanel {
    fn default() -> (p: LogsPanel)
        ensures
            p.list == ListBox::start(),
            p.entries_view == ListBox::start(),
            p.refs@.len() == 0,
            p.entries@.len() == 0,
            p.window == DEFAULT_WINDOW,
            p.window_nanos == 0,
            p.valid(),
    {
        LogsPanel {
            list: ListBox::default(),
            entries_view: ListBox::default(),
            refs: Vec::new(),
            entries: Vec::new(),
            window: DEFAULT_WINDOW,
            window_nanos: 0,
        }
    }
}

/// A window within the bounds, in nanoseconds.
pub open spec fn clamped(span: int) -> int {
    if span < MIN_WINDOW * NANOS_PER_SEC {
        MIN_WINDOW * NANOS_PER_SEC
    } else if span > MAX_WINDOW * NANOS_PER_SEC {
        MAX_WINDOW * NANOS_PER_SEC
    } else {
        span
    }
}

impl LogsPanel {
    /// How far back the next range query reaches, in nanoseconds.
    pub open spec fn span(self) -> int {
        self.window * NANOS_PER_SEC + self.window_nanos
    }

    /// Whether the window is within its bounds.
    pub open spec fn valid(self) -> bool {
        &&& MIN_WINDOW * NANOS_PER_SEC <= self.span() <= MAX_WINDOW * NANOS_PER_SEC
        &&& self.window_nanos < NANOS_PER_SEC
    }

    /// Whether there is a log under the cursor.
    pub open spec fn has_selected(self) -> bool {
        self.list.cursor < self.refs@.len()
    }

    /// The log under the cursor.
    pub open spec fn selected_ref(self) -> Seq<char> {
        self.refs@[self.list.cursor as int]@
    }

    /// The panel with another window, given in nanoseconds.
    pub open spec fn windowed(self, span: int) -> LogsPanel {
        LogsPanel {
            window: (clamped(span) / NANOS_PER_SEC as int) as u64,
            window_nanos: (clamped(span) % NANOS_PER_SEC as int) as u32,
            ..self
        }
    }

    /// What setting a window asks for.
    pub open spec fn window_deeds(span: int) -> Seq<Deed> {
        seq![
            Deed::Status(
                "query window: "@ + window_text(clamped(span) / NANOS_PER_SEC as int),
                StatusKind::Info,
            ),
        ]
    }

    /// The panel after a range query.
    pub open spec fn queried(self) -> LogsPanel {
        if self.has_selected() {
            LogsPanel { entries_view: ListBox::start(), ..self }
        } else {
            self
        }
    }

    /// What a range query asks for.
    pub open spec fn query_deeds(self, online: bool) -> Seq<Deed> {
        if !self.has_selected() {
            Seq::empty()
        } else if online {
            seq![
                Deed::Status(
                    "querying "@ + self.selected_ref() + " over the last "@ + window_text(
                        self.window as int,
                    ) + " ..."@,
                    StatusKind::Info,
                ),
                Deed::QueryLog {
                    reference: self.selected_ref(),
                    window: self.window,
                    nanos: self.window_nanos,
                },
            ]
        } else {
            seq![not_connected()]
        }
    }

    /// The panel after a query that continues from the newest entry.
    pub open spec fn continued(self) -> LogsPanel {
        if self.entries@.len() == 0 {
            self.queried()
        } else {
            self
        }
    }

    /// What a query that continues from the newest entry asks for.
    pub open spec fn continue_deeds(self, online: bool) -> Seq<Deed> {
        if !self.has_selected() {
            Seq::empty()
        } else if self.entries@.len() == 0 {
            self.query_deeds(online)
        } else {
            let last = self.entries@.last();
            asked(
                online,
                Deed::QueryLogAfter {
                    reference: self.selected_ref(),
                    after: match last.occurrence_time {
                        Some(t) => t,
                        None => WallTime { secs: 0, nanos: 0 },
                    },
                    entry_id: last.entry_id@,
                },
            )
        }
    }

    /// The panel after a key.
    pub open spec fn after(self, key: KeyCode) -> LogsPanel {
        let refs = self.refs@.len() as int;
        let entries = self.entries@.len() as int;
        match key {
            KeyCode::Up => LogsPanel { list: self.list.moved(-1, refs), ..self },
            KeyCode::Down => LogsPanel { list: self.list.moved(1, refs), ..self },
            KeyCode::Home => LogsPanel { entries_view: self.entries_view.at_first(), ..self },
            KeyCode::End => LogsPanel { entries_view: self.entries_view.at_last(entries), ..self },
            KeyCode::PageUp => LogsPanel {
                entries_view: self.entries_view.moved(-10, entries),
                ..self
            },
            KeyCode::PageDown => LogsPanel {
                entries_view: self.entries_view.moved(10, entries),
                ..self
            },
            KeyCode::Enter => self.queried(),
            KeyCode::Char(c) => if c == 'k' {
                LogsPanel { list: self.list.moved(-1, refs), ..self }
            } else if c == 'j' {
                LogsPanel { list: self.list.moved(1, refs), ..self }
            } else if c == 'g' {
                LogsPanel { entries_view: self.entries_view.at_first(), ..self }
            } else if c == 'G' {
                LogsPanel { entries_view: self.entries_view.at_last(entries), ..self }
            } else if c == 'r' {
                self.queried()
            } else if c == 'a' {
                self.continued()
            } else if c == '+' || c == '=' {
                self.windowed(self.span() * 2)
            } else if c == '-' {
                self.windowed(self.span() / 2)
            } else {
                self
            },
            _ => self,
        }
    }

    /// What a key asks for.
    pub open spec fn asks(self, key: KeyCode, online: bool) -> Seq<Deed> {
        match key {
            KeyCode::Enter => self.query_deeds(online),
            KeyCode::Char(c) => if c == 'r' {
                self.query_deeds(online)
            } else if c == 'a' {
                self.continue_deeds(online)
            } else if c == '+' || c == '=' {
                LogsPanel::window_deeds(self.span() * 2)
            } else if c == '-' {
                LogsPanel::window_deeds(self.span() / 2)
            } else {
                Seq::empty()
            },
            _ => Seq::empty(),
        }
    }

    /// Looks for logs.
    pub fn load(&mut self, ctx: &mut Ctx)
        ensures
            *final(self) == *old(self),
            old(ctx).then_queued(*final(ctx), asked(old(ctx).online, Deed::LoadLogs)),
    {
        ctx.ask(Effect::LoadLogs);
    }

    pub fn on_key(&mut self, key: KeyEvent, ctx: &mut Ctx)
        requires
            old(self).valid(),
        ensures
            *final(self) == old(self).after(key.code),
            final(self).valid(),
            old(ctx).then_queued(*final(ctx), old(self).asks(key.code, old(ctx).online)),
    {
        assert(ctx.queued() + Seq::<Deed>::empty() =~= ctx.queued());
        match key.code {
            KeyCode::Up => self.list.move_by(-1, self.refs.len()),
            KeyCode::Down => self.list.move_by(1, self.refs.len()),
            KeyCode::Home => self.entries_view.first(),
            KeyCode::End => self.entries_view.last(self.entries.len()),
            KeyCode::PageUp => self.entries_view.move_by(-10, self.entries.len()),
            KeyCode::PageDown => self.entries_view.move_by(10, self.entries.len()),
            KeyCode::Enter => self.query(ctx),
            KeyCode::Char(c) => {
                if c == 'k' {
                    self.list.move_by(-1, self.refs.len());
                } else if c == 'j' {
                    self.list.move_by(1, self.refs.len());
                } else if c == 'g' {
                    self.entries_view.first();
                } else if c == 'G' {
                    self.entries_view.last(self.entries.len());
                } else if c == 'r' {
                    self.query(ctx);
                } else if c == 'a' {
                    self.query_after(ctx);
                } else if c == '+' || c == '=' {
                    // `=` is `+` without the shift, which is what the key is
                    // usually pressed as.
                    self.widen(ctx);
                } else if c == '-' {
                    self.narrow(ctx);
                }
            },
            _ => {},
        }
    }

    /// Doubles the window, within its bounds.
    pub fn widen(&mut self, ctx: &mut Ctx)
        requires
            old(self).valid(),
        ensures
            *final(self) == old(self).windowed(old(self).span() * 2),
            final(self).valid(),
            old(ctx).then_queued(*final(ctx), LogsPanel::window_deeds(old(self).span() * 2)),
    {
        self.set_window((self.window * NANOS_PER_SEC + self.window_nanos as u64) * 2, ctx);
    }

    /// Halves the window, within its bounds.
    pub fn narrow(&mut self, ctx: &mut Ctx)
        requires
            old(self).valid(),
        ensures
            *final(self) == old(self).windowed(old(self).span() / 2),
            final(self).valid(),
            old(ctx).then_queued(*final(ctx), LogsPanel::window_deeds(old(self).span() / 2)),
    {
        self.set_window((self.window * NANOS_PER_SEC + self.window_nanos as u64) / 2, ctx);
    }

    /// Sets the window, given in nanoseconds, to the nearest within its bounds.
    fn set_window(&mut self, span: u64, ctx: &mut Ctx)
        ensures
            *final(self) == old(self).windowed(span as int),
            final(self).valid(),
            old(ctx).then_queued(*final(ctx), LogsPanel::window_deeds(span as int)),
    {
        let span: u64 = if span < MIN_WINDOW * NANOS_PER_SEC {
            MIN_WINDOW * NANOS_PER_SEC
        } else if span > MAX_WINDOW * NANOS_PER_SEC {
            MAX_WINDOW * NANOS_PER_SEC
        } else {
            span
        };
        self.window = span / NANOS_PER_SEC;
        self.window_nanos = (span % NANOS_PER_SEC) as u32;
        let mut text = "query window: ".to_owned();
        push_str(&mut text, fmt_window(self.window).as_str());
        ctx.status(text.as_str(), StatusKind::Info);
    }

    /// Queries the entries of the window, replacing what is shown.
    pub fn query(&mut self, ctx: &mut Ctx)
        ensures
            *final(self) == old(self).queried(),
            old(ctx).then_queued(*final(ctx), old(self).query_deeds(old(ctx).online)),
    {
        assert(ctx.queued() + Seq::<Deed>::empty() =~= ctx.queued());
        if self.list.cursor >= self.refs.len() {
            return;
        }
        let reference = self.refs[self.list.cursor].clone();
        // The entries are about to be replaced, so the view goes back to the
        // top before anything is sent; a cursor left deep in the old list would
        // point at an unrelated record.
        self.entries_view = ListBox::default();
        if ctx.client() {
            let mut text = "querying ".to_owned();
            push_str(&mut text, reference.as_str());
            push_str(&mut text, " over the last ");
            push_str(&mut text, fmt_window(self.window).as_str());
            push_str(&mut text, " ...");
            ctx.status(text.as_str(), StatusKind::Info);
            ctx.send(
                Effect::QueryLog { reference, window: self.window, nanos: self.window_nanos },
            );
        }
        assert(ctx.queued() =~= old(ctx).queued() + old(self).query_deeds(old(ctx).online));
    }

    /// Continues from the newest entry already shown, so a repeated query does
    /// not fetch the same records again.
    pub fn query_after(&mut self, ctx: &mut Ctx)
        ensures
            *final(self) == old(self).continued(),
            old(ctx).then_queued(*final(ctx), old(self).continue_deeds(old(ctx).online)),
    {
        assert(ctx.queued() + Seq::<Deed>::empty() =~= ctx.queued());
        if self.list.cursor >= self.refs.len() {
            return;
        }
        let n: usize = self.entries.len();
        if n == 0 {
            // With nothing to continue from, the range query is the only thing
            // that can produce a starting point.
            self.query(ctx);
            return;
        }
        let reference = self.refs[self.list.cursor].clone();
        let last = &self.entries[n - 1];
        let after = match last.occurrence_time {
            Some(t) => t,
            None => WallTime { secs: 0, nanos: 0 },
        };
        let entry_id = vstd::slice::slice_to_vec(last.entry_id.as_slice());
        ctx.ask(Effect::QueryLogAfter { reference, after, entry_id });
    }

    pub fn scroll(&mut self, up: bool)
        ensures
            *final(self) == (LogsPanel {
                entries_view: old(self).entries_view.wheeled(up, old(self).entries@.len() as int),
                ..*old(self)
            }),
    {
        self.entries_view.wheel(up, self.entries.len());
    }

    /// The panel after a click at a cell of a panel `width` wide.
    pub open spec fn clicked(self, x: int, y: int, width: int) -> LogsPanel {
        if y == 0 {
            self
        } else if x < left_part(width, MIN_LEFT as int) {
            if self.list.hits(y - 1, self.refs@.len() as int) {
                LogsPanel {
                    list: self.list.clicked(y - 1, self.refs@.len() as int),
                    ..self
                }.queried()
            } else {
                self
            }
        } else {
            LogsPanel {
                entries_view: self.entries_view.clicked(y - 1, self.entries@.len() as int),
                ..self
            }
        }
    }

    /// What a click asks for.
    pub open spec fn click_deeds(self, x: int, y: int, width: int, online: bool) -> Seq<Deed> {
        if y > 0 && x < left_part(width, MIN_LEFT as int) && self.list.hits(
            y - 1,
            self.refs@.len() as int,
        ) {
            LogsPanel {
                list: self.list.clicked(y - 1, self.refs@.len() as int),
                ..self
            }.query_deeds(online)
        } else {
            Seq::empty()
        }
    }

    /// Handles a click at a cell of a panel `width` wide, its top border being
    /// the first row.
    pub fn on_click(&mut self, x: u16, y: u16, width: u16, ctx: &mut Ctx)
        ensures
            *final(self) == old(self).clicked(x as int, y as int, width as int),
            final(self).span() == old(self).span(),
            final(self).window_nanos == old(self).window_nanos,
            old(ctx).then_queued(
                *final(ctx),
                old(self).click_deeds(x as int, y as int, width as int, old(ctx).online),
            ),
    {
        assert(ctx.queued() + Seq::<Deed>::empty() =~= ctx.queued());
        if y == 0 {
            return;
        }
        if x < left_width(width, MIN_LEFT) {
            if self.list.click_row((y - 1) as usize, self.refs.len()) {
                self.query(ctx);
            }
        } else {
            self.entries_view.click_row((y - 1) as usize, self.entries.len());
        }
    }

    /// Whether `after` is the panel after it was shown in an area as `f`.
    pub open spec fn draws(self, area: Rect, after: LogsPanel, f: PanelFrame) -> bool {
        &&& is_divided(area, f.body, f.hint_area)
        &&& f.panes@.len() == 2
        &&& is_paned(
            f.body,
            left_part(f.body.width as int, MIN_LEFT as int),
            f.panes@[0].area,
            f.panes@[1].area,
        )
        &&& {
            let logs = RefRows { refs: &self.refs };
            let entries = EntryRows { entries: &self.entries };
            let (a, b) = (f.panes@[0].area, f.panes@[1].area);
            let (h, k) = (inside(a).height as int, inside(b).height as int);
            &&& after == (LogsPanel {
                list: self.list.shown(logs.rows() as int, h),
                entries_view: self.entries_view.shown(entries.rows() as int, k),
                ..self
            })
            &&& shows(f.panes@[0], a, "Logs"@, after.list.visible(logs, h))
            &&& shows(f.panes@[1], b, "Entries"@, after.entries_view.visible(entries, k))
        }
        &&& f.hint@ == row(
            "↑↓ select log · enter/r query the last "@ + window_text(self.window as int)
                + " · +/- window · a continue after the last entry"@,
            Paint::Help,
        )
    }

    /// What the panel shows in an area.
    pub fn draw(&mut self, area: Rect) -> (f: PanelFrame)
        ensures
            old(self).draws(area, *final(self), f),
    {
        let areas = panel_areas(area);
        let cols = pane_areas(areas.body, left_width(areas.body.width, MIN_LEFT));
        let logs = RefRows { refs: &self.refs };
        let left = self.list.render(cols.left, "Logs", &logs);
        let entries = EntryRows { entries: &self.entries };
        let right = self.entries_view.render(cols.right, "Entries", &entries);
        let mut panes: Vec<Pane> = Vec::new();
        panes.push(left);
        panes.push(right);
        let mut hint = "↑↓ select log · enter/r query the last ".to_owned();
        push_str(&mut hint, fmt_window(self.window).as_str());
        push_str(&mut hint, " · +/- window · a continue after the last entry");
        PanelFrame {
            body: areas.body,
            panes,
            hint_area: areas.hint,
            hint: Line::styled(hint.as_str(), Paint::Help),
        }
    }
}

/// The window never leaves its bounds, and a step that does not meet one is
/// taken back by the opposite step. Halving goes down to the nanosecond, so a
/// window is taken back from there where it is an even number of them.
pub proof fn the_window_steps_within_bounds(p: LogsPanel)
    requires
        p.valid(),
    ensures
        p.after(KeyCode::Char('+')).valid(),
        p.after(KeyCode::Char('-')).valid(),
        p.span() * 2 <= MAX_WINDOW * NANOS_PER_SEC ==> p.after(KeyCode::Char('+')).after(
            KeyCode::Char('-'),
        ) == p,
        p.span() / 2 >= MIN_WINDOW * NANOS_PER_SEC && p.span() % 2 == 0 ==> p.after(
            KeyCode::Char('-'),
        ).after(KeyCode::Char('+')) == p,
        p.span() == MAX_WINDOW * NANOS_PER_SEC ==> p.after(KeyCode::Char('+')) == p,
        p.span() == MIN_WINDOW * NANOS_PER_SEC ==> p.after(KeyCode::Char('-')) == p,
{
}

/// A window of whole days beyond the first is told in days, and any other in
/// hours.
pub proof fn a_window_reads_in_days_or_hours(n: int)
    requires
        0 <= n,
    ensures
        n > 1 ==> window_text(n * 86_400) == decimal(n as nat) + " d"@,
        n <= 24 ==> window_text(n * 3600) == decimal(n as nat) + " h"@,
        n % 24 != 0 ==> window_text(n * 3600) == decimal(n as nat) + " h"@,
{
    assert((n * 86_400) / 3600 == n * 24);
    assert((n * 24) % 24 == 0 && (n * 24) / 24 == n);
    assert((n * 3600) / 3600 == n);
}

/// A window is kept between an hour and thirty days, and is not moved where it
/// is between them.
pub proof fn a_window_is_kept_within_bounds(span: int)
    ensures
        3_600_000_000_000 <= clamped(span) <= 2_592_000_000_000_000,
        3_600_000_000_000 <= span <= 2_592_000_000_000_000 ==> clamped(span) == span,
        span < 3_600_000_000_000 ==> clamped(span) == 3_600_000_000_000,
        span > 2_592_000_000_000_000 ==> clamped(span) == 2_592_000_000_000_000,
{
}

/// The plus key doubles the window and the minus key halves it.
pub proof fn the_window_is_doubled_or_halved(p: LogsPanel)
    requires
        p.valid(),
    ensures
        p.span() * 2 <= 2_592_000_000_000_000 ==> p.after(KeyCode::Char('+')).span() == p.span() * 2,
        p.span() / 2 >= 3_600_000_000_000 ==> p.after(KeyCode::Char('-')).span() == p.span() / 2,
        p.after(KeyCode::Char('=')) == p.after(KeyCode::Char('+')),
        p.span() == p.window * 1_000_000_000 + p.window_nanos,
{
}

/// A query asks for the log under the cursor over the window that is set; a
/// further one for what came behind the last entry that was found.
pub proof fn a_query_asks_for_the_log_under_the_cursor(p: LogsPanel)
    requires
        p.list.cursor < p.refs@.len(),
    ensures
        ({
            let reference = p.refs@[p.list.cursor as int]@;
            let query = Deed::QueryLog { reference, window: p.window, nanos: p.window_nanos };
            &&& p.asks(KeyCode::Enter, true).last() == query
            &&& p.asks(KeyCode::Char('r'), true).last() == query
            &&& p.entries@.len() == 0 ==> p.asks(KeyCode::Char('a'), true).last() == query
            &&& p.entries@.len() > 0 ==> p.asks(KeyCode::Char('a'), true) == seq![
                Deed::QueryLogAfter {
                    reference,
                    after: match p.entries@.last().occurrence_time {
                        Some(t) => t,
                        None => WallTime { secs: 0, nanos: 0 },
                    },
                    entry_id: p.entries@.last().entry_id@,
                },
            ]
            &&& p.asks(KeyCode::Enter, false) == seq![
                Deed::Status("not connected"@, StatusKind::Failure),
            ]
            &&& p.after(KeyCode::Enter).entries_view == (ListBox { cursor: 0, top: 0 })
            &&& p.after(KeyCode::Enter).list == p.list
        }),
{
}

/// The arrows move among the logs, and the other keys among the entries, a page
/// by ten.
pub proof fn the_keys_move_among_logs_and_entries(p: LogsPanel)
    ensures
        p.after(KeyCode::Up).list == p.list.moved(-1, p.refs@.len() as int),
        p.after(KeyCode::Down).list == p.list.moved(1, p.refs@.len() as int),
        p.after(KeyCode::Char('k')) == p.after(KeyCode::Up),
        p.after(KeyCode::Char('j')) == p.after(KeyCode::Down),
        p.after(KeyCode::Up).entries_view == p.entries_view,
        p.after(KeyCode::Down).entries_view == p.entries_view,
        p.after(KeyCode::PageUp).entries_view == p.entries_view.moved(-10, p.entries@.len() as int),
        p.after(KeyCode::PageDown).entries_view == p.entries_view.moved(
            10,
            p.entries@.len() as int,
        ),
        p.after(KeyCode::PageUp).list == p.list && p.after(KeyCode::PageDown).list == p.list,
        p.after(KeyCode::Home).entries_view.cursor == 0,
        p.entries@.len() > 0 ==> p.after(KeyCode::End).entries_view.cursor == p.entries@.len() - 1,
        p.after(KeyCode::Char('g')) == p.after(KeyCode::Home),
        p.after(KeyCode::Char('G')) == p.after(KeyCode::End),
{
    assert(p.entries.len() == p.entries@.len());
}

/// A click on a log picks and queries it; one on an entry picks that; and one
/// on the border does nothing.
pub proof fn a_click_picks_a_log_or_an_entry(p: LogsPanel, x: int, y: int, width: int)
    requires
        0 <= x,
        0 <= y,
    ensures
        y == 0 ==> p.clicked(x, y, width) == p && p.click_deeds(x, y, width, true).len() == 0,
        y > 0 && x < left_part(width, MIN_LEFT as int) && p.list.top + y - 1 < p.refs@.len() ==> {
            &&& p.clicked(x, y, width).list.cursor == p.list.top + y - 1
            &&& p.click_deeds(x, y, width, true).last() == (Deed::QueryLog {
                reference: p.refs@[p.list.top + y - 1]@,
                window: p.window,
                nanos: p.window_nanos,
            })
        },
        y > 0 && x < left_part(width, MIN_LEFT as int) && p.list.top + y - 1 >= p.refs@.len()
            ==> p.clicked(x, y, width) == p && p.click_deeds(x, y, width, true).len() == 0,
        y > 0 && x >= left_part(width, MIN_LEFT as int) ==> {
            &&& p.clicked(x, y, width).list == p.list
            &&& p.click_deeds(x, y, width, true).len() == 0
            &&& p.entries_view.top + y - 1 < p.entries@.len() ==> p.clicked(
                x,
                y,
                width,
            ).entries_view.cursor == p.entries_view.top + y - 1
        },
{
    assert(p.refs.len() == p.refs@.len());
    assert(p.entries.len() == p.entries@.len());
}

/// Variables read one after another, with a blank between them; one with a
/// value shows it behind its name.
pub proof fn variables_read_one_after_another(vs: Seq<JournalVariable>, v: JournalVariable)
    ensures
        variables_text(Seq::empty()).len() == 0,
        vs.len() == 0 ==> variables_text(vs.push(v)) == variable_text(v),
        vs.len() > 0 ==> variables_text(vs.push(v)) == variables_text(vs) + " "@ + variable_text(v),
        v.value matches Some(x) ==> variable_text(v) == v.tag@ + "="@ + x@,
        v.value is None ==> variable_text(v) == v.tag@,
{
    assert(vs.push(v).drop_last() =~= vs);
}

} // verus!
