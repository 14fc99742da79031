//! Setting group control blocks: read them and activate a group.

use vstd::prelude::*;

use super::layout::{inside, is_divided, is_paned, pane_areas, panel_areas};
use super::widgets::{left_part, left_width, ListBox, RefRows, RowSource};
use super::{
    asked, ink, inks, push_line, push_span, push_spans, row, rows_of, shows, Ctx, Deed, Effect,
    Ink, KeyCode, KeyEvent, Line, Paint, Pane, PanelFrame, Rect, Row, Span, StatusKind,
};
use crate::model::ObjectReference;
use crate::notation::{missing, push_repeated, repeated};
use crate::text::{chars, decimal, push_decimal, push_str};

verus! {

/// The least width of the list of control blocks.
pub const MIN_LEFT: u16 = 30;

/// A setting group control block as the panel shows it.
#[derive(Debug)]
pub struct SgInfo {
    pub reference: ObjectReference,
    pub num_of_sg: u8,
    pub act_sg: u8,
    pub edit_sg: u8,
}

#[derive(Debug)]
pub struct SettingsPanel {
    pub list: ListBox,
    pub refs: Vec<ObjectReference>,
    pub current: Option<SgInfo>,
}

impl Default for SettingsPanel {
    fn default() -> (p: SettingsPanel)
        ensures
            p.list == ListBox::start(),
            p.refs@.len() == 0,
            p.current is None,
    {
        SettingsPanel { list: ListBox::default(), refs: Vec::new(), current: None }
    }
}

/// A named number.
pub open spec fn field_row(name: Seq<char>, value: u8) -> Row {
    Row {
        inks: seq![
            ink(name + repeated(' ', missing(18, name.len())) + ": "@, Paint::Plain),
            ink(decimal(value as nat), Paint::Value),
        ],
        selected: false,
    }
}

/// What the panel shows of a control block.
pub open spec fn info_rows(current: Option<SgInfo>) -> Seq<Row> {
    match current {
        None => seq![row("select a setting group control block"@, Paint::Muted)],
        Some(sg) => seq![
            row(sg.reference@, Paint::Label),
            row(""@, Paint::Plain),
            field_row("Number of groups"@, sg.num_of_sg),
            field_row("Active group"@, sg.act_sg),
            field_row("Edit group"@, sg.edit_sg),
            row(""@, Paint::Plain),
            row("press 1-9 to activate that group"@, Paint::Muted),
        ],
    }
}

fn push_field(lines: &mut Vec<Line>, name: &str, value: u8)
    ensures
        rows_of(final(lines)@) == rows_of(old(lines)@).push(field_row(name@, value)),
{
    let mut label = name.to_owned();
    let len: usize = chars(name).len();
    if len < 18 {
        push_repeated(&mut label, ' ', 18 - len);
    } else {
        assert(name@ + repeated(' ', 0) =~= name@);
    }
    push_str(&mut label, ": ");
    let mut number = String::new();
    push_decimal(&mut number, value as u64);
    assert(number@ =~= decimal(value as nat));
    let mut spans: Vec<Span> = Vec::new();
    assert(inks(spans@) =~= Seq::<Ink>::empty());
    push_span(&mut spans, label.as_str(), Paint::Plain);
    push_span(&mut spans, number.as_str(), Paint::Value);
    assert(inks(spans@) =~= field_row(name@, value).inks);
    push_spans(lines, spans, false);
}

/// What reading the selected control block asks for.
pub open spec fn read_deeds(refs: Seq<ObjectReference>, cursor: int, online: bool) -> Seq<Deed> {
    if cursor < refs.len() {
        asked(online, Deed::ReadSettings(refs[cursor]@))
    } else {
        Seq::empty()
    }
}

/// What activating a group asks for: a group that the device does not have is
/// refused here, where the reason can be given.
pub open spec fn activate_deeds(current: Option<SgInfo>, group: u8, online: bool) -> Seq<Deed> {
    match current {
        None => seq![
            Deed::Status("no setting group control block selected"@, StatusKind::Failure),
        ],
        Some(info) => if group > info.num_of_sg {
            seq![
                Deed::Status(
                    "only "@ + decimal(info.num_of_sg as nat) + " setting groups"@,
                    StatusKind::Failure,
                ),
            ]
        } else {
            asked(online, Deed::Activate { reference: info.reference@, group })
        },
    }
}

/// The group that a digit stands for.
pub open spec fn group_of(key: KeyCode) -> Option<u8> {
    match key {
        KeyCode::Char(c) => if '1' <= c <= '9' {
            Some((c as u32 - '0' as u32) as u8)
        } else {
            None
        },
        _ => None,
    }
}

impl SettingsPanel {
    /// Looks for setting group control blocks.
    pub fn load(&mut self, ctx: &mut Ctx)
        ensures
            *final(self) == *old(self),
            old(ctx).then_queued(*final(ctx), asked(old(ctx).online, Deed::LoadSettings)),
    {
        ctx.ask(Effect::LoadSettings);
    }

    /// Reads the selected control block.
    pub fn read_selected(&self, ctx: &mut Ctx)
        ensures
            old(ctx).then_queued(
                *final(ctx),
                read_deeds(self.refs@, self.list.cursor as int, old(ctx).online),
            ),
    {
        assert(ctx.queued() + Seq::<Deed>::empty() =~= ctx.queued());
        if self.list.cursor < self.refs.len() {
            ctx.ask(Effect::ReadSettings(self.refs[self.list.cursor].clone()));
        }
    }

    /// Whether the digits mean "activate this group" here.
    ///
    /// They only do once a control block has been read; with nothing to act on
    /// they belong to the tab bar, or a device without setting groups would
    /// leave this tab with no way out but the tab key.
    pub fn takes_digits(&self) -> (b: bool)
        ensures
            b == (self.current is Some),
    {
        self.current.is_some()
    }

    /// What a key asks for.
    pub open spec fn asks(self, key: KeyCode, online: bool) -> Seq<Deed> {
        if ListBox::steers(key) {
            read_deeds(
                self.refs@,
                self.list.steered(key, self.refs@.len() as int).cursor as int,
                online,
            )
        } else {
            match group_of(key) {
                Some(group) => activate_deeds(self.current, group, online),
                None => Seq::empty(),
            }
        }
    }

    pub fn on_key(&mut self, key: KeyEvent, ctx: &mut Ctx)
        ensures
            *final(self) == (SettingsPanel {
                list: old(self).list.steered(key.code, old(self).refs@.len() as int),
                ..*old(self)
            }),
            old(ctx).then_queued(*final(ctx), old(self).asks(key.code, old(ctx).online)),
    {
        assert(ctx.queued() + Seq::<Deed>::empty() =~= ctx.queued());
        if self.list.steer(key, self.refs.len()) {
            self.read_selected(ctx);
            return;
        }
        if let KeyCode::Char(c) = key.code {
            // The digits activate a group here rather than switching tabs.
            if '1' <= c && c <= '9' {
                let group: u8 = (c as u32 - 48) as u8;
                self.activate(group, ctx);
            }
        }
    }

    /// Activates a group of the control block that was read.
    pub fn activate(&self, group: u8, ctx: &mut Ctx)
        ensures
            old(ctx).then_queued(
                *final(ctx),
                activate_deeds(self.current, group, old(ctx).online),
            ),
    {
        match &self.current {
            None => ctx.err("no setting group control block selected"),
            Some(info) => {
                if group > info.num_of_sg {
                    let mut text = "only ".to_owned();
                    push_decimal(&mut text, info.num_of_sg as u64);
                    push_str(&mut text, " setting groups");
                    ctx.err(text.as_str());
                } else {
                    ctx.ask(Effect::Activate { reference: info.reference.clone(), group });
                }
            },
        }
    }

    pub fn scroll(&mut self, up: bool)
        ensures
            *final(self) == (SettingsPanel {
                list: old(self).list.wheeled(up, old(self).refs@.len() as int),
                ..*old(self)
            }),
    {
        self.list.wheel(up, self.refs.len());
    }

    /// Handles a click at a cell of a panel `width` wide, its top border being
    /// the first row.
    pub fn on_click(&mut self, x: u16, y: u16, width: u16, ctx: &mut Ctx)
        ensures
            ({
                let on_list = x < left_part(width as int, MIN_LEFT as int) && y > 0;
                let count = old(self).refs@.len() as int;
                &&& *final(self) == (SettingsPanel {
                    list: if on_list {
                        old(self).list.clicked(y - 1, count)
                    } else {
                        old(self).list
                    },
                    ..*old(self)
                })
                &&& old(ctx).then_queued(
                    *final(ctx),
                    if on_list && old(self).list.hits(y - 1, count) {
                        read_deeds(old(self).refs@, old(self).list.top + y - 1, old(ctx).online)
                    } else {
                        Seq::empty()
                    },
                )
            }),
    {
        assert(ctx.queued() + Seq::<Deed>::empty() =~= ctx.queued());
        if x < left_width(width, MIN_LEFT) && y > 0 {
            if self.list.click_row((y - 1) as usize, self.refs.len()) {
                self.read_selected(ctx);
            }
        }
    }

    fn info_lines(&self) -> (lines: Vec<Line>)
        ensures
            rows_of(lines@) == info_rows(self.current),
    {
        let mut lines: Vec<Line> = Vec::new();
        assert(rows_of(lines@) =~= Seq::<Row>::empty());
        match &self.current {
            None => {
                push_line(&mut lines, "select a setting group control block", Paint::Muted);
            },
            Some(sg) => {
                push_line(&mut lines, sg.reference.as_str(), Paint::Label);
                push_line(&mut lines, "", Paint::Plain);
                push_field(&mut lines, "Number of groups", sg.num_of_sg);
                push_field(&mut lines, "Active group", sg.act_sg);
                push_field(&mut lines, "Edit group", sg.edit_sg);
                push_line(&mut lines, "", Paint::Plain);
                push_line(&mut lines, "press 1-9 to activate that group", Paint::Muted);
            },
        }
        assert(rows_of(lines@) =~= info_rows(self.current));
        lines
    }

    /// Whether `after` is the panel after it was shown in an area as `f`.
    pub open spec fn draws(self, area: Rect, after: SettingsPanel, f: PanelFrame) -> bool {
        &&& is_divided(area, f.body, f.hint_area)
        &&& f.panes@.len() == 2
        &&& is_paned(
            f.body,
            left_part(f.body.width as int, MIN_LEFT as int),
            f.panes@[0].area,
            f.panes@[1].area,
        )
        &&& {
            let rows = RefRows { refs: &self.refs };
            let a = f.panes@[0].area;
            let height = inside(a).height as int;
            &&& after == (SettingsPanel {
                list: self.list.shown(rows.rows() as int, height),
                ..self
            })
            &&& shows(f.panes@[0], a, "Control blocks"@, after.list.visible(rows, height))
        }
        &&& shows(f.panes@[1], f.panes@[1].area, "Setting groups"@, info_rows(self.current))
        &&& f.hint@ == row("↑↓ select block · 1-9 activate a group"@, Paint::Help)
    }

    /// What the panel shows in an area.
    pub fn draw(&mut self, area: Rect) -> (f: PanelFrame)
        ensures
            old(self).draws(area, *final(self), f),
    {
        let areas = panel_areas(area);
        let cols = pane_areas(areas.body, left_width(areas.body.width, MIN_LEFT));
        let lines = self.info_lines();
        let rows = RefRows { refs: &self.refs };
        let list = self.list.render(cols.left, "Control blocks", &rows);
        let mut panes: Vec<Pane> = Vec::new();
        panes.push(list);
        panes.push(Pane { area: cols.right, title: "Setting groups".to_owned(), lines });
        PanelFrame {
            body: areas.body,
            panes,
            hint_area: areas.hint,
            hint: Line::styled("↑↓ select block · 1-9 activate a group", Paint::Help),
        }
    }
}

/// A group beyond the declared count is never asked of the device.
pub proof fn a_group_beyond_the_count_is_refused(info: SgInfo, group: u8, online: bool)
    requires
        group > info.num_of_sg,
    ensures
        activate_deeds(Some(info), group, online) == seq![
            Deed::Status(
                "only "@ + decimal(info.num_of_sg as nat) + " setting groups"@,
                StatusKind::Failure,
            ),
        ],
{
}

/// A digit from 1 on stands for the group of its number, and nothing else
/// stands for one.
pub proof fn a_digit_stands_for_its_group(n: u8, key: KeyCode)
    ensures
        1 <= n <= 9 ==> group_of(KeyCode::Char(crate::text::digit(n as nat))) == Some(n),
        group_of(KeyCode::Char('0')) is None,
        group_of(key) matches Some(g) ==> 1 <= g <= 9 && key == KeyCode::Char(
            crate::text::digit(g as nat),
        ),
{
}

/// A group that the device has is activated in the block that is shown; without
/// a block none is.
pub proof fn a_group_is_activated_in_its_block(info: SgInfo, group: u8)
    requires
        group <= info.num_of_sg,
    ensures
        activate_deeds(Some(info), group, true) == seq![
            Deed::Activate { reference: info.reference@, group },
        ],
        activate_deeds(Some(info), group, false) == seq![
            Deed::Status("not connected"@, StatusKind::Failure),
        ],
        activate_deeds(None, group, true).len() == 1,
        !(activate_deeds(None, group, true)[0] is Activate),
{
}

/// Moving the cursor reads the block that it comes to.
pub proof fn the_block_under_the_cursor_is_read(p: SettingsPanel, key: KeyCode)
    requires
        ListBox::steers(key),
        p.refs@.len() > 0,
    ensures
        p.asks(key, true) == seq![
            Deed::ReadSettings(
                p.refs@[p.list.steered(key, p.refs@.len() as int).cursor as int]@,
            ),
        ],
{
    assert(p.refs.len() == p.refs@.len());
    crate::ui::widgets::the_cursor_stays_inside(p.list, 1, 0, p.refs@.len() as int, 0);
    crate::ui::widgets::the_cursor_stays_inside(p.list, -1, 0, p.refs@.len() as int, 0);
}

/// A block is shown with the number of its groups, the active one and the one
/// being edited, each under its name.
pub proof fn a_block_is_shown_with_its_groups(sg: SgInfo)
    ensures
        ({
            let rows = info_rows(Some(sg));
            &&& rows[0].inks[0].text == sg.reference@
            &&& "Number of groups"@.is_prefix_of(rows[2].inks[0].text)
            &&& rows[2].inks[1].text == decimal(sg.num_of_sg as nat)
            &&& "Active group"@.is_prefix_of(rows[3].inks[0].text)
            &&& rows[3].inks[1].text == decimal(sg.act_sg as nat)
            &&& "Edit group"@.is_prefix_of(rows[4].inks[0].text)
            &&& rows[4].inks[1].text == decimal(sg.edit_sg as nat)
        }),
        info_rows(None).len() == 1,
{
    let rows = info_rows(Some(sg));
    let a = "Number of groups"@;
    let b = "Active group"@;
    let c = "Edit group"@;
    assert(rows[2] == field_row(a, sg.num_of_sg));
    assert(rows[3] == field_row(b, sg.act_sg));
    assert(rows[4] == field_row(c, sg.edit_sg));
    assert(rows[2].inks[0].text.take(a.len() as int) =~= a);
    assert(rows[3].inks[0].text.take(b.len() as int) =~= b);
    assert(rows[4].inks[0].text.take(c.len() as int) =~= c);
}

} // verus!
