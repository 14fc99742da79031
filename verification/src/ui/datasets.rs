//! Datasets: list them and read their members.

use vstd::prelude::*;

use super::layout::{inside, is_divided, is_paned, pane_areas, panel_areas};
use super::widgets::{left_part, left_width, ListBox, RefRows, RowSource};
use super::{
    asked, ink, inks, push_line, push_span, push_spans, row, rows_of, shows, Ctx, Deed, Effect,
    Ink, KeyCode, KeyEvent, Line, Paint, Pane, PanelFrame, Rect, Row, Span,
};
use crate::model::{Fc, ObjectReference};
use crate::text::push_str;

verus! {

/// The least width of the list of references.
pub const MIN_LEFT: u16 = 32;

/// A member of a dataset as the panel shows it.
#[derive(Debug)]
pub struct Member {
    pub reference: ObjectReference,
    pub fc: Fc,
    /// How the value reads.
    pub value: Option<String>,
}

/// A dataset as the panel shows it.
#[derive(Debug)]
pub struct DataSetInfo {
    pub reference: ObjectReference,
    pub members: Vec<Member>,
}

impl Member {
    /// What the panel shows of a member.
    pub open spec fn shown(self) -> Row {
        Row {
            inks: seq![
                ink(self.reference@, Paint::Plain),
                ink(" ["@ + self.fc.text() + "] = "@, Paint::Muted),
                ink(
                    match self.value {
                        Some(v) => v@,
                        None => "(none)"@,
                    },
                    Paint::Value,
                ),
            ],
            selected: false,
        }
    }
}

/// What the panel shows of a dataset.
pub open spec fn member_rows(current: Option<DataSetInfo>) -> Seq<Row> {
    match current {
        None => seq![row("select a dataset and press enter"@, Paint::Muted)],
        Some(ds) => seq![row(ds.reference@, Paint::Label), row(""@, Paint::Plain)]
            + ds.members@.map_values(|m: Member| m.shown()),
    }
}

#[derive(Debug)]
pub struct DatasetsPanel {
    pub list: ListBox,
    pub refs: Vec<ObjectReference>,
    pub current: Option<DataSetInfo>,
}

impl Default for DatasetsPanel {
    fn default() -> (p: DatasetsPanel)
        ensures
            p.list == ListBox::start(),
            p.refs@.len() == 0,
            p.current is None,
    {
        DatasetsPanel { list: ListBox::default(), refs: Vec::new(), current: None }
    }
}

/// What reading the selected dataset asks for.
pub open spec fn read_deeds(refs: Seq<ObjectReference>, cursor: int, online: bool) -> Seq<Deed> {
    if cursor < refs.len() {
        asked(online, Deed::ReadDataset(refs[cursor]@))
    } else {
        Seq::empty()
    }
}

impl DatasetsPanel {
    /// Looks for datasets.
    pub fn load(&mut self, ctx: &mut Ctx)
        ensures
            *final(self) == *old(self),
            old(ctx).then_queued(*final(ctx), asked(old(ctx).online, Deed::LoadDatasets)),
    {
        ctx.ask(Effect::LoadDatasets);
    }

    fn read(&self, ctx: &mut Ctx)
        ensures
            old(ctx).then_queued(
                *final(ctx),
                read_deeds(self.refs@, self.list.cursor as int, old(ctx).online),
            ),
    {
        assert(ctx.queued() + Seq::<Deed>::empty() =~= ctx.queued());
        if self.list.cursor < self.refs.len() {
            ctx.ask(Effect::ReadDataset(self.refs[self.list.cursor].clone()));
        }
    }

    /// Whether a key reads the selected dataset.
    pub open spec fn reads(key: KeyCode) -> bool {
        key == KeyCode::Enter || key == KeyCode::Char('r')
    }

    pub fn on_key(&mut self, key: KeyEvent, ctx: &mut Ctx)
        ensures
            final(self).refs == old(self).refs,
            final(self).current == old(self).current,
            final(self).list == old(self).list.steered(key.code, old(self).refs@.len() as int),
            old(ctx).then_queued(
                *final(ctx),
                if DatasetsPanel::reads(key.code) {
                    read_deeds(old(self).refs@, old(self).list.cursor as int, old(ctx).online)
                } else {
                    Seq::empty()
                },
            ),
    {
        assert(ctx.queued() + Seq::<Deed>::empty() =~= ctx.queued());
        if self.list.steer(key, self.refs.len()) {
            return;
        }
        let reads = match key.code {
            KeyCode::Enter => true,
            KeyCode::Char(c) => c == 'r',
            _ => false,
        };
        if reads {
            self.read(ctx);
        }
    }

    pub fn scroll(&mut self, up: bool)
        ensures
            final(self).refs == old(self).refs,
            final(self).current == old(self).current,
            final(self).list == old(self).list.wheeled(up, old(self).refs@.len() as int),
    {
        self.list.wheel(up, self.refs.len());
    }

    /// Handles a click at a cell of a panel `width` wide, its top border being
    /// the first row.
    pub fn on_click(&mut self, x: u16, y: u16, width: u16, ctx: &mut Ctx)
        ensures
            final(self).refs == old(self).refs,
            final(self).current == old(self).current,
            ({
                let on_list = x < left_part(width as int, MIN_LEFT as int) && y > 0;
                let count = old(self).refs@.len() as int;
                &&& final(self).list == (if on_list {
                    old(self).list.clicked(y - 1, count)
                } else {
                    old(self).list
                })
                &&& old(ctx).then_queued(
                    *final(ctx),
                    if on_list && old(self).list.hits(y - 1, count) {
                        read_deeds(old(self).refs@, old(self).list.top + y - 1, old(ctx).online)
                    } else {
                        Seq::empty()
                    },
                )
            }),
    {
        assert(ctx.queued() + Seq::<Deed>::empty() =~= ctx.queued());
        if x < left_width(width, MIN_LEFT) && y > 0 {
            if self.list.click_row((y - 1) as usize, self.refs.len()) {
                self.read(ctx);
            }
        }
    }

    fn member_lines(&self) -> (lines: Vec<Line>)
        ensures
            rows_of(lines@) == member_rows(self.current),
    {
        let mut lines: Vec<Line> = Vec::new();
        assert(rows_of(lines@) =~= Seq::<Row>::empty());
        match &self.current {
            None => {
                push_line(&mut lines, "select a dataset and press enter", Paint::Muted);
            },
            Some(ds) => {
                push_line(&mut lines, ds.reference.as_str(), Paint::Label);
                push_line(&mut lines, "", Paint::Plain);
                let ghost head = rows_of(lines@);
                assert(head =~= seq![row(ds.reference@, Paint::Label), row(""@, Paint::Plain)]);
                let ghost tail = ds.members@.map_values(|m: Member| m.shown());
                let mut i: usize = 0;
                assert(rows_of(lines@) =~= head + tail.take(0));
                while i < ds.members.len()
                    invariant
                        i <= ds.members@.len(),
                        tail == ds.members@.map_values(|m: Member| m.shown()),
                        rows_of(lines@) == head + tail.take(i as int),
                    decreases ds.members@.len() - i,
                {
                    let m = &ds.members[i];
                    let mut spans: Vec<Span> = Vec::new();
                    assert(inks(spans@) =~= Seq::<Ink>::empty());
                    push_span(&mut spans, m.reference.as_str(), Paint::Plain);
                    let mut fc = " [".to_owned();
                    push_str(&mut fc, m.fc.as_str());
                    push_str(&mut fc, "] = ");
                    push_span(&mut spans, fc.as_str(), Paint::Muted);
                    match &m.value {
                        Some(v) => push_span(&mut spans, v.as_str(), Paint::Value),
                        None => push_span(&mut spans, "(none)", Paint::Value),
                    }
                    assert(inks(spans@) =~= m.shown().inks);
                    push_spans(&mut lines, spans, false);
                    assert(tail[i as int] == m.shown());
                    assert(rows_of(lines@) =~= head + tail.take(i + 1));
                    i = i + 1;
                }
                assert(tail.take(i as int) =~= tail);
            },
        }
        assert(rows_of(lines@) =~= member_rows(self.current));
        lines
    }

    /// Whether `after` is the panel after it was shown in an area as `f`.
    pub open spec fn draws(self, area: Rect, after: DatasetsPanel, f: PanelFrame) -> bool {
        &&& after.refs == self.refs
        &&& after.current == self.current
        &&& is_divided(area, f.body, f.hint_area)
        &&& f.panes@.len() == 2
        &&& is_paned(
            f.body,
            left_part(f.body.width as int, MIN_LEFT as int),
            f.panes@[0].area,
            f.panes@[1].area,
        )
        &&& {
            let rows = RefRows { refs: &self.refs };
            let a = f.panes@[0].area;
            let height = inside(a).height as int;
            &&& after.list == self.list.shown(rows.rows() as int, height)
            &&& shows(f.panes@[0], a, "Datasets"@, after.list.visible(rows, height))
        }
        &&& shows(f.panes@[1], f.panes@[1].area, "Members"@, member_rows(self.current))
        &&& f.hint@ == row("↑↓ select · enter/r read the dataset"@, Paint::Help)
    }

    /// What the panel shows in an area.
    pub fn draw(&mut self, area: Rect) -> (f: PanelFrame)
        ensures
            old(self).draws(area, *final(self), f),
    {
        let areas = panel_areas(area);
        let cols = pane_areas(areas.body, left_width(areas.body.width, MIN_LEFT));
        let lines = self.member_lines();
        let rows = RefRows { refs: &self.refs };
        let list = self.list.render(cols.left, "Datasets", &rows);
        let mut panes: Vec<Pane> = Vec::new();
        panes.push(list);
        panes.push(Pane { area: cols.right, title: "Members".to_owned(), lines });
        PanelFrame {
            body: areas.body,
            panes,
            hint_area: areas.hint,
            hint: Line::styled("↑↓ select · enter/r read the dataset", Paint::Help),
        }
    }
}

/// A dataset is shown with each of its members in order, its reference, its
/// constraint and its value; a member without one says so.
pub proof fn each_member_is_shown(ds: DataSetInfo, i: int)
    requires
        0 <= i < ds.members@.len(),
    ensures
        member_rows(Some(ds)).len() == ds.members@.len() + 2,
        member_rows(Some(ds))[0].inks[0].text == ds.reference@,
        ({
            let m = ds.members@[i];
            let inks = member_rows(Some(ds))[i + 2].inks;
            &&& inks[0].text == m.reference@
            &&& inks[1].text == " ["@ + m.fc.text() + "] = "@
            &&& m.value matches Some(v) ==> inks[2].text == v@
            &&& m.value is None ==> inks[2].text == "(none)"@
        }),
        member_rows(None).len() == 1,
{
}

/// Reading asks for the dataset under the cursor and no other.
pub proof fn the_selected_dataset_is_read(refs: Seq<ObjectReference>, cursor: int, online: bool)
    ensures
        0 <= cursor < refs.len() && online ==> read_deeds(refs, cursor, online) == seq![
            Deed::ReadDataset(refs[cursor]@),
        ],
        cursor >= refs.len() ==> read_deeds(refs, cursor, online).len() == 0,
        0 <= cursor < refs.len() && !online ==> read_deeds(refs, cursor, online) == seq![
            Deed::Status("not connected"@, super::StatusKind::Failure),
        ],
        DatasetsPanel::reads(KeyCode::Enter),
        DatasetsPanel::reads(KeyCode::Char('r')),
{
}

} // verus!
