//! Report control blocks: enable, general interrogation, and a live feed.

use vstd::prelude::*;

use super::layout::{inner, inside, is_divided, is_paned, pane_areas, panel_areas};
use super::widgets::{left_part, left_width, ListBox, RowSource};
use super::{
    asked, ink, inks, not_connected, push_line, push_span, row, rows_of, shows, Ctx, Deed, Effect,
    Ink, KeyCode, KeyEvent, Line, Paint, Pane, PanelFrame, Rect, Row, Span, StatusKind,
};
use crate::client::Rcb;
use crate::model::{ObjectReference, OptFlds, TrgOps};
use crate::text::{decimal, push_decimal, push_str, starts_with};

verus! {

/// How many feed lines are kept. A busy dataset would otherwise grow the
/// buffer without bound over a long session.
pub const FEED_LIMIT: usize = 500;

/// The least width of the list of control blocks.
pub const MIN_LEFT: u16 = 30;

#[derive(Debug)]
pub struct RcbItem {
    pub reference: ObjectReference,
    pub buffered: bool,
}

/// The rows of the control blocks.
pub struct RcbRows<'a> {
    pub rcbs: &'a Vec<RcbItem>,
    pub enabled: &'a Option<ObjectReference>,
}

/// Whether a control block is the one that is enabled.
pub open spec fn is_live(enabled: Option<ObjectReference>, reference: Seq<char>) -> bool {
    enabled matches Some(r) && r@ == reference
}

impl<'a> RowSource for RcbRows<'a> {
    open spec fn rows(&self) -> nat {
        self.rcbs@.len()
    }

    open spec fn inks_at(&self, i: int) -> Seq<Ink> {
        let it = self.rcbs@[i];
        seq![
            ink(
                if is_live(*self.enabled, it.reference@) {
                    "● "@
                } else {
                    "  "@
                },
                Paint::Value,
            ),
            ink(it.reference@, Paint::Plain),
            ink(
                if it.buffered {
                    "  BRCB"@
                } else {
                    "  URCB"@
                },
                Paint::Muted,
            ),
        ]
    }

    fn count(&self) -> usize {
        self.rcbs.len()
    }

    fn spans(&self, i: usize) -> Vec<Span> {
        let it = &self.rcbs[i];
        let live = match self.enabled {
            Some(r) => r.same(&it.reference),
            None => false,
        };
        let mut spans: Vec<Span> = Vec::new();
        assert(inks(spans@) =~= Seq::<Ink>::empty());
        push_span(
            &mut spans,
            if live {
                "● "
            } else {
                "  "
            },
            Paint::Value,
        );
        push_span(&mut spans, it.reference.as_str(), Paint::Plain);
        push_span(
            &mut spans,
            if it.buffered {
                "  BRCB"
            } else {
                "  URCB"
            },
            Paint::Muted,
        );
        assert(inks(spans@) =~= self.inks_at(i as int));
        spans
    }
}

#[derive(Debug)]
pub struct ReportsPanel {
    pub list: ListBox,
    pub rcbs: Vec<RcbItem>,
    pub feed: Vec<String>,
    pub enabled: Option<ObjectReference>,
    /// Whether the program holds a subscription, which lives as long as the
    /// panel wants it.
    pub subscribed: bool,
}

impl Default for ReportsPanel {
    fn default() -> (p: ReportsPanel)
        ensures
            p.list == ListBox::start(),
            p.rcbs@.len() == 0,
            p.feed@.len() == 0,
            p.enabled is None,
            !p.subscribed,
    {
        ReportsPanel {
            list: ListBox::default(),
            rcbs: Vec::new(),
            feed: Vec::new(),
            enabled: None,
            subscribed: false,
        }
    }
}

/// The last lines of a feed, as many as are kept.
pub open spec fn kept<T>(feed: Seq<T>) -> Seq<T> {
    if feed.len() > FEED_LIMIT {
        feed.skip(feed.len() - FEED_LIMIT)
    } else {
        feed
    }
}

/// How a line of the feed is drawn.
pub open spec fn feed_row(line: Seq<char>) -> Row {
    if "    "@.is_prefix_of(line) {
        row(line, Paint::Value)
    } else if "●"@.is_prefix_of(line) {
        row(line, Paint::Accent)
    } else {
        row(line, Paint::Plain)
    }
}

/// The feed in a pane `height` rows high: its tail, since the newest report is
/// the interesting one.
pub open spec fn feed_rows(feed: Seq<String>, height: int) -> Seq<Row> {
    if feed.len() == 0 {
        seq![row("select a control block and press e to enable reporting"@, Paint::Muted)]
    } else {
        let start = if feed.len() > height {
            feed.len() - height
        } else {
            0
        };
        feed.skip(start).map_values(|l: String| feed_row(l@))
    }
}

/// What enabling the selected control block asks for.
pub open spec fn enable_deeds(rcbs: Seq<RcbItem>, cursor: int, online: bool) -> Seq<Deed> {
    if cursor >= rcbs.len() {
        Seq::empty()
    } else if online {
        let reference = rcbs[cursor].reference@;
        seq![
            Deed::Status("enabling "@ + reference + " ..."@, StatusKind::Info),
            Deed::EnableReport(reference),
        ]
    } else {
        seq![not_connected()]
    }
}

/// What a general interrogation asks for.
pub open spec fn interrogate_deeds(enabled: Option<ObjectReference>, online: bool) -> Seq<Deed> {
    match enabled {
        Some(reference) => asked(online, Deed::Interrogate(reference@)),
        None => seq![Deed::Status("enable a report first"@, StatusKind::Failure)],
    }
}

/// What disabling the enabled control block asks for.
pub open spec fn disable_deeds(enabled: Option<ObjectReference>, subscribed: bool) -> Seq<Deed> {
    if enabled is Some && subscribed {
        seq![Deed::DisableReport]
    } else {
        Seq::empty()
    }
}

impl ReportsPanel {
    /// Looks for report control blocks.
    pub fn load(&mut self, ctx: &mut Ctx)
        ensures
            *final(self) == *old(self),
            old(ctx).then_queued(*final(ctx), asked(old(ctx).online, Deed::LoadReports)),
    {
        ctx.ask(Effect::LoadReports);
    }

    /// Whether `after` is the panel after a control block was enabled.
    pub open spec fn then_enabled(self, reference: ObjectReference, after: ReportsPanel) -> bool {
        &&& after.list == self.list
        &&& after.rcbs == self.rcbs
        &&& after.feed@.len() == self.feed@.len() + 1
        &&& after.feed@.drop_last() == self.feed@
        &&& after.feed@.last()@ == "● enabled "@ + reference@
        &&& after.enabled == Some(reference)
        &&& after.subscribed
    }

    /// Notes that a control block was enabled.
    pub fn on_enabled(&mut self, reference: ObjectReference)
        ensures
            old(self).then_enabled(reference, *final(self)),
    {
        let mut line = "● enabled ".to_owned();
        push_str(&mut line, reference.as_str());
        self.feed.push(line);
        assert(self.feed@.drop_last() =~= old(self).feed@);
        self.enabled = Some(reference);
        self.subscribed = true;
    }

    /// Adds a line to the feed, which keeps only its tail.
    pub fn push_line(&mut self, line: String)
        ensures
            *final(self) == (ReportsPanel { feed: final(self).feed, ..*old(self) }),
            final(self).feed@ == kept(old(self).feed@.push(line)),
    {
        self.feed.push(line);
        let ghost all = self.feed@;
        let n: usize = self.feed.len();
        let mut gone: usize = 0;
        assert(all.skip(0) =~= all);
        while self.feed.len() > FEED_LIMIT
            invariant
                self.list == old(self).list,
                self.rcbs == old(self).rcbs,
                self.enabled == old(self).enabled,
                self.subscribed == old(self).subscribed,
                gone <= all.len() == n,
                gone > 0 ==> self.feed@.len() >= FEED_LIMIT,
                self.feed@ == all.skip(gone as int),
            decreases self.feed@.len(),
        {
            self.feed.remove(0);
            assert(self.feed@ =~= all.skip(gone + 1));
            gone = gone + 1;
        }
    }

    /// The control block under the cursor.
    pub fn selected(&self) -> (it: Option<&RcbItem>)
        ensures
            match it {
                Some(it) => self.list.cursor < self.rcbs@.len() && *it
                    == self.rcbs@[self.list.cursor as int],
                None => self.list.cursor >= self.rcbs@.len(),
            },
    {
        if self.list.cursor < self.rcbs.len() {
            Some(&self.rcbs[self.list.cursor])
        } else {
            None
        }
    }

    fn enable(&self, ctx: &mut Ctx)
        ensures
            old(ctx).then_queued(
                *final(ctx),
                enable_deeds(self.rcbs@, self.list.cursor as int, old(ctx).online),
            ),
    {
        assert(ctx.queued() + Seq::<Deed>::empty() =~= ctx.queued());
        if let Some(item) = self.selected() {
            if ctx.client() {
                let mut text = "enabling ".to_owned();
                push_str(&mut text, item.reference.as_str());
                push_str(&mut text, " ...");
                ctx.status(text.as_str(), StatusKind::Info);
                ctx.send(Effect::EnableReport(item.reference.clone()));
            }
            assert(ctx.queued() =~= old(ctx).queued() + enable_deeds(
                self.rcbs@,
                self.list.cursor as int,
                old(ctx).online,
            ));
        }
    }

    fn trigger_gi(&self, ctx: &mut Ctx)
        ensures
            old(ctx).then_queued(*final(ctx), interrogate_deeds(self.enabled, old(ctx).online)),
    {
        match &self.enabled {
            Some(reference) => ctx.ask(Effect::Interrogate(reference.clone())),
            None => ctx.err("enable a report first"),
        }
    }

    fn disable(&mut self, ctx: &mut Ctx)
        ensures
            final(self).list == old(self).list,
            final(self).rcbs == old(self).rcbs,
            final(self).feed == old(self).feed,
            final(self).enabled is None,
            final(self).subscribed == (old(self).subscribed && old(self).enabled is None),
            old(ctx).then_queued(
                *final(ctx),
                disable_deeds(old(self).enabled, old(self).subscribed),
            ),
    {
        assert(ctx.queued() + Seq::<Deed>::empty() =~= ctx.queued());
        let was = self.enabled.is_some();
        self.enabled = None;
        if !was {
            return;
        }
        if self.subscribed {
            self.subscribed = false;
            ctx.send(Effect::DisableReport);
        }
    }

    /// The list after a key.
    pub open spec fn list_after(self, key: KeyCode) -> ListBox {
        if key == KeyCode::Up || key == KeyCode::Char('k') {
            self.list.moved(-1, self.rcbs@.len() as int)
        } else if key == KeyCode::Down || key == KeyCode::Char('j') {
            self.list.moved(1, self.rcbs@.len() as int)
        } else {
            self.list
        }
    }

    /// What a key asks for.
    pub open spec fn asks(self, key: KeyCode, online: bool) -> Seq<Deed> {
        if key == KeyCode::Enter || key == KeyCode::Char('e') {
            enable_deeds(self.rcbs@, self.list.cursor as int, online)
        } else if key == KeyCode::Char('g') {
            interrogate_deeds(self.enabled, online)
        } else if key == KeyCode::Char('x') {
            disable_deeds(self.enabled, self.subscribed)
        } else {
            Seq::empty()
        }
    }

    /// Whether `after` is the panel after a key.
    pub open spec fn then_after(self, key: KeyCode, after: ReportsPanel) -> bool {
        &&& after.rcbs == self.rcbs
        &&& after.list == self.list_after(key)
        &&& after.feed@ == (if key == KeyCode::Char('c') {
            Seq::empty()
        } else {
            self.feed@
        })
        &&& after.enabled == (if key == KeyCode::Char('x') {
            None
        } else {
            self.enabled
        })
        &&& after.subscribed == (if key == KeyCode::Char('x') && self.enabled is Some {
            false
        } else {
            self.subscribed
        })
    }

    pub fn on_key(&mut self, key: KeyEvent, ctx: &mut Ctx)
        ensures
            old(self).then_after(key.code, *final(self)),
            old(ctx).then_queued(*final(ctx), old(self).asks(key.code, old(ctx).online)),
    {
        assert(ctx.queued() + Seq::<Deed>::empty() =~= ctx.queued());
        let count: usize = self.rcbs.len();
        match key.code {
            KeyCode::Up => self.list.move_by(-1, count),
            KeyCode::Down => self.list.move_by(1, count),
            KeyCode::Enter => self.enable(ctx),
            KeyCode::Char(c) => {
                if c == 'k' {
                    self.list.move_by(-1, count);
                } else if c == 'j' {
                    self.list.move_by(1, count);
                } else if c == 'e' {
                    self.enable(ctx);
                } else if c == 'g' {
                    self.trigger_gi(ctx);
                } else if c == 'x' {
                    self.disable(ctx);
                } else if c == 'c' {
                    self.feed.clear();
                }
            },
            _ => {},
        }
    }

    pub fn scroll(&mut self, up: bool)
        ensures
            *final(self) == (ReportsPanel {
                list: old(self).list.wheeled(up, old(self).rcbs@.len() as int),
                ..*old(self)
            }),
    {
        self.list.wheel(up, self.rcbs.len());
    }

    /// Handles a click at a cell of a panel `width` wide, its top border being
    /// the first row.
    pub fn on_click(&mut self, x: u16, y: u16, width: u16, ctx: &mut Ctx)
        ensures
            ({
                let on_list = x < left_part(width as int, MIN_LEFT as int) && y > 0;
                let count = old(self).rcbs@.len() as int;
                &&& *final(self) == (ReportsPanel {
                    list: if on_list {
                        old(self).list.clicked(y - 1, count)
                    } else {
                        old(self).list
                    },
                    ..*old(self)
                })
                &&& old(ctx).then_queued(
                    *final(ctx),
                    if on_list && old(self).list.hits(y - 1, count) {
                        enable_deeds(old(self).rcbs@, old(self).list.top + y - 1, old(ctx).online)
                    } else {
                        Seq::empty()
                    },
                )
            }),
    {
        assert(ctx.queued() + Seq::<Deed>::empty() =~= ctx.queued());
        if x < left_width(width, MIN_LEFT) && y > 0 {
            if self.list.click_row((y - 1) as usize, self.rcbs.len()) {
                self.enable(ctx);
            }
        }
    }

    fn feed_lines(&self, height: usize) -> (lines: Vec<Line>)
        ensures
            rows_of(lines@) == feed_rows(self.feed@, height as int),
    {
        let mut lines: Vec<Line> = Vec::new();
        assert(rows_of(lines@) =~= Seq::<Row>::empty());
        if self.feed.len() == 0 {
            push_line(
                &mut lines,
                "select a control block and press e to enable reporting",
                Paint::Muted,
            );
            assert(rows_of(lines@) =~= feed_rows(self.feed@, height as int));
            return lines;
        }
        let start: usize = self.feed.len().saturating_sub(height);
        let ghost all = feed_rows(self.feed@, height as int);
        let mut i: usize = start;
        while i < self.feed.len()
            invariant
                start <= i <= self.feed@.len(),
                all == self.feed@.skip(start as int).map_values(|l: String| feed_row(l@)),
                rows_of(lines@) == all.take(i - start),
            decreases self.feed@.len() - i,
        {
            let l = self.feed[i].as_str();
            let paint = if starts_with(l, "    ") {
                Paint::Value
            } else if starts_with(l, "●") {
                Paint::Accent
            } else {
                Paint::Plain
            };
            push_line(&mut lines, l, paint);
            assert(all[i - start] == feed_row(l@));
            assert(rows_of(lines@) =~= all.take(i + 1 - start));
            i = i + 1;
        }
        assert(all.take(i - start) =~= all);
        lines
    }

    /// Whether `after` is the panel after it was shown in an area as `f`.
    pub open spec fn draws(self, area: Rect, after: ReportsPanel, f: PanelFrame) -> bool {
        &&& is_divided(area, f.body, f.hint_area)
        &&& f.panes@.len() == 2
        &&& is_paned(
            f.body,
            left_part(f.body.width as int, MIN_LEFT as int),
            f.panes@[0].area,
            f.panes@[1].area,
        )
        &&& {
            let rows = RcbRows { rcbs: &self.rcbs, enabled: &self.enabled };
            let a = f.panes@[0].area;
            let height = inside(a).height as int;
            &&& after == (ReportsPanel {
                list: self.list.shown(rows.rows() as int, height),
                ..self
            })
            &&& shows(f.panes@[0], a, "Control blocks"@, after.list.visible(rows, height))
        }
        &&& shows(
            f.panes@[1],
            f.panes@[1].area,
            "Feed"@,
            feed_rows(self.feed@, inside(f.panes@[1].area).height as int),
        )
        &&& f.hint@ == row(
            "↑↓ select · e enable+GI · g GI · x disable · c clear feed"@,
            Paint::Help,
        )
    }

    /// What the panel shows in an area.
    pub fn draw(&mut self, area: Rect) -> (f: PanelFrame)
        ensures
            old(self).draws(area, *final(self), f),
    {
        let areas = panel_areas(area);
        let cols = pane_areas(areas.body, left_width(areas.body.width, MIN_LEFT));
        let lines = self.feed_lines(inner(cols.right).height as usize);
        let rows = RcbRows { rcbs: &self.rcbs, enabled: &self.enabled };
        let list = self.list.render(cols.left, "Control blocks", &rows);
        let mut panes: Vec<Pane> = Vec::new();
        panes.push(list);
        panes.push(Pane { area: cols.right, title: "Feed".to_owned(), lines });
        PanelFrame {
            body: areas.body,
            panes,
            hint_area: areas.hint,
            hint: Line::styled(
                "↑↓ select · e enable+GI · g GI · x disable · c clear feed",
                Paint::Help,
            ),
        }
    }
}

/// The feed never holds more than its limit once a line was added to one that
/// did not, and the newest line is always kept.
pub proof fn the_feed_keeps_its_tail(feed: Seq<String>, line: String)
    ensures
        kept(feed.push(line)).len() <= FEED_LIMIT,
        kept(feed.push(line)).last() == line,
        feed.len() < FEED_LIMIT ==> kept(feed.push(line)) == feed.push(line),
{
}

/// The fields that a monitored report carries.
pub open spec fn monitored_fields() -> OptFlds {
    OptFlds {
        seq_num: true,
        reason_code: true,
        data_set_name: true,
        conf_rev: true,
        ..OptFlds::nothing()
    }
}

/// What triggers a monitored report.
pub open spec fn monitored_triggers() -> TrgOps {
    TrgOps { data_change: true, quality_change: true, gi: true, ..TrgOps::nothing() }
}

/// Has a control block report changes of data and quality and answer a general
/// interrogation, with what the feed shows of a report.
pub fn monitor(rcb: &mut Rcb)
    ensures
        *final(rcb) == (Rcb {
            opt_flds: monitored_fields(),
            trg_ops: monitored_triggers(),
            ..*old(rcb)
        }),
{
    rcb.opt_flds = OptFlds {
        seq_num: true,
        time_of_entry: false,
        reason_code: true,
        data_set_name: true,
        data_ref: false,
        buf_ovfl: false,
        entry_id: false,
        conf_rev: true,
        segmentation: false,
    };
    rcb.trg_ops = TrgOps {
        data_change: true,
        quality_change: true,
        data_update: false,
        integrity: false,
        gi: true,
    };
}

/// The line of the feed that announces a report.
pub fn report_line(rpt_id: &str, seq_num: u64, entries: usize) -> (s: String)
    ensures
        s@ == rpt_id@ + " seq="@ + decimal(seq_num as nat) + " entries="@ + decimal(entries as nat),
{
    let mut s = rpt_id.to_owned();
    push_str(&mut s, " seq=");
    push_decimal(&mut s, seq_num);
    push_str(&mut s, " entries=");
    push_decimal(&mut s, entries as u64);
    s
}

/// The line of the feed for an entry of a report.
pub fn entry_line(reference: &str, value: &str, reason: &str) -> (s: String)
    ensures
        s@ == "    "@ + reference@ + " = "@ + value@ + " ("@ + reason@ + ")"@,
{
    let mut s = "    ".to_owned();
    push_str(&mut s, reference);
    push_str(&mut s, " = ");
    push_str(&mut s, value);
    push_str(&mut s, " (");
    push_str(&mut s, reason);
    push_str(&mut s, ")");
    s
}

/// The feed shows its newest lines, as many as fit, in order.
pub proof fn the_feed_shows_its_newest_lines(feed: Seq<String>, height: int, i: int)
    requires
        feed.len() > 0,
        0 <= height,
    ensures
        ({
            let n = if feed.len() < height { feed.len() as int } else { height };
            &&& feed_rows(feed, height).len() == n
            &&& 0 <= i < n ==> feed_rows(feed, height)[i].inks[0].text == feed[feed.len() - n + i]@
        }),
        feed_rows(Seq::empty(), height).len() == 1,
{
}

/// A line of the feed is drawn as what it is: an entry, a heading, or anything
/// else, and always as it reads.
pub proof fn a_line_is_drawn_as_what_it_is(rest: Seq<char>)
    ensures
        feed_row("    "@ + rest).inks[0] == ink("    "@ + rest, Paint::Value),
        feed_row("●"@ + rest).inks[0] == ink("●"@ + rest, Paint::Accent),
        rest.len() > 0 && rest[0] != ' ' && rest[0] != '●' ==> feed_row(rest).inks[0] == ink(
            rest,
            Paint::Plain,
        ),
{
    reveal_strlit("    ");
    reveal_strlit("●");
    assert(("    "@ + rest).take(4) =~= "    "@);
    assert(("●"@ + rest).take(1) =~= "●"@);
    assert(("●"@ + rest)[0] == '●');
    if "    "@.is_prefix_of("●"@ + rest) {
        assert(("●"@ + rest).take(4)[0] == ' ');
    }
    if rest.len() > 0 {
        if "    "@.is_prefix_of(rest) {
            assert(rest.take(4)[0] == ' ');
        }
        if "●"@.is_prefix_of(rest) {
            assert(rest.take(1)[0] == '●');
        }
    }
}

/// What is enabled is the block under the cursor; what is interrogated and
/// disabled is the one that was enabled, and only where there is one.
pub proof fn reports_are_asked_of_the_right_block(p: ReportsPanel, i: int)
    ensures
        p.list.cursor < p.rcbs@.len() ==> {
            let reference = p.rcbs@[p.list.cursor as int].reference@;
            &&& p.asks(KeyCode::Enter, true).last() == Deed::EnableReport(reference)
            &&& p.asks(KeyCode::Char('e'), true) == p.asks(KeyCode::Enter, true)
            &&& p.asks(KeyCode::Enter, false) == seq![
                Deed::Status("not connected"@, StatusKind::Failure),
            ]
        },
        p.list.cursor >= p.rcbs@.len() ==> p.asks(KeyCode::Enter, true).len() == 0,
        p.enabled matches Some(r) ==> p.asks(KeyCode::Char('g'), true) == seq![
            Deed::Interrogate(r@),
        ],
        p.enabled is None ==> p.asks(KeyCode::Char('g'), true) == seq![
            Deed::Status("enable a report first"@, StatusKind::Failure),
        ],
        p.enabled is Some && p.subscribed ==> p.asks(KeyCode::Char('x'), true) == seq![
            Deed::DisableReport,
        ],
        p.enabled is None || !p.subscribed ==> p.asks(KeyCode::Char('x'), true).len() == 0,
{
}

/// Disabling forgets what was enabled, clearing empties the feed, the arrows
/// move, and no other key changes anything.
pub proof fn a_key_changes_one_thing(p: ReportsPanel, after: ReportsPanel, key: KeyCode)
    requires
        p.then_after(key, after),
    ensures
        key == KeyCode::Char('x') ==> after.enabled is None && after.feed@ == p.feed@ && after.list
            == p.list && (p.enabled is Some ==> !after.subscribed),
        key == KeyCode::Char('c') ==> after.feed@.len() == 0 && after.enabled == p.enabled
            && after.list == p.list,
        key == KeyCode::Up || key == KeyCode::Char('k') ==> after.list == p.list.moved(
            -1,
            p.rcbs@.len() as int,
        ) && after.feed@ == p.feed@,
        key == KeyCode::Down || key == KeyCode::Char('j') ==> after.list == p.list.moved(
            1,
            p.rcbs@.len() as int,
        ) && after.feed@ == p.feed@,
        key == KeyCode::Enter || key == KeyCode::Char('e') || key == KeyCode::Char('g')
            ==> after.list == p.list && after.feed@ == p.feed@ && after.enabled == p.enabled,
        after.rcbs == p.rcbs,
{
}

/// A block is shown under its reference and kind, and marked where it is the
/// one that is enabled.
pub proof fn the_enabled_block_is_marked(r: RcbRows<'_>, i: int)
    requires
        0 <= i < r.rcbs@.len(),
    ensures
        r.inks_at(i)[1].text == r.rcbs@[i].reference@,
        r.rcbs@[i].buffered ==> r.inks_at(i)[2].text == "  BRCB"@,
        !r.rcbs@[i].buffered ==> r.inks_at(i)[2].text == "  URCB"@,
        (*r.enabled matches Some(e) && e@ == r.rcbs@[i].reference@) ==> r.inks_at(i)[0].text
            == "● "@,
        *r.enabled is None ==> r.inks_at(i)[0].text == "  "@,
        (*r.enabled matches Some(e) && e@ != r.rcbs@[i].reference@) ==> r.inks_at(i)[0].text
            == "  "@,
{
}

/// A monitored block reports changes of data and of quality and answers an
/// interrogation, with what the feed shows of a report and nothing more.
pub proof fn a_monitored_block_reports_what_is_shown()
    ensures
        monitored_fields() == (OptFlds {
            seq_num: true,
            time_of_entry: false,
            reason_code: true,
            data_set_name: true,
            data_ref: false,
            buf_ovfl: false,
            entry_id: false,
            conf_rev: true,
            segmentation: false,
        }),
        monitored_triggers() == (TrgOps {
            data_change: true,
            quality_change: true,
            data_update: false,
            integrity: false,
            gi: true,
        }),
{
}

} // verus!
