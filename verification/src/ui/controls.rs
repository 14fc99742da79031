//! Controllable objects: find them and open the operate dialog.

use vstd::prelude::*;

use super::dialogs::{control_overlay, overlay, Dialog, Overlay};
use super::layout::{inside, is_divided, panel_areas};
use super::widgets::{ListBox, RowSource};
use super::{
    asked, ink, inks, push_span, refs_of, row, shows, Ctx, Deed, Effect, Ink, KeyCode, KeyEvent,
    Line, Paint, Pane, PanelFrame, Rect, Span,
};
use crate::model::ObjectReference;
use crate::text::{
    join, joined, push_str, same, split, split_on, splitting_undoes_joining, texts,
};

verus! {

/// The controllable object that an MMS variable name tells of.
pub open spec fn controllable(ld: Seq<char>, name: Seq<char>) -> Option<Seq<char>> {
    let parts = split_on(name, '$');
    if parts.len() < 4 || parts[1] != "CO"@ || parts.last() != "Oper"@ {
        None
    } else {
        Some(ld + "/"@ + parts[0] + "."@ + joined(parts.subrange(2, parts.len() - 1), "."@))
    }
}

/// Recognises a controllable object from an MMS variable name.
///
/// `LN$CO$DO[$SDO]$Oper` is what marks one: the control constraint plus an
/// operate attribute. The reference drops the constraint, since a control
/// object is addressed without it.
pub fn controllable_ref(ld: &str, name: &str) -> (r: Option<ObjectReference>)
    ensures
        match r {
            Some(reference) => controllable(ld@, name@) == Some(reference@),
            None => controllable(ld@, name@) is None,
        },
{
    let mut parts = split(name, '$');
    let ghost ps = texts(parts@);
    let n: usize = parts.len();
    if n < 4 {
        return None;
    }
    assert(ps[1] == parts@[1]@ && ps[n - 1] == parts@[n - 1]@ && ps[0] == parts@[0]@);
    if !same(parts[1].as_str(), "CO") || !same(parts[n - 1].as_str(), "Oper") {
        return None;
    }
    parts.pop();
    let object = join(&parts, 2, ".");
    assert(texts(parts@).skip(2) =~= ps.subrange(2, ps.len() - 1));
    let mut s = ld.to_owned();
    push_str(&mut s, "/");
    push_str(&mut s, parts[0].as_str());
    push_str(&mut s, ".");
    push_str(&mut s, object.as_str());
    Some(ObjectReference::new(s))
}

/// References with the controllable objects behind them that the first `n`
/// names of a device tell of, each once.
pub open spec fn with_controllable(
    known: Seq<Seq<char>>,
    ld: Seq<char>,
    names: Seq<Seq<char>>,
    n: nat,
) -> Seq<Seq<char>>
    decreases n,
{
    if n == 0 || n > names.len() {
        known
    } else {
        let before = with_controllable(known, ld, names, (n - 1) as nat);
        match controllable(ld, names[n - 1]) {
            Some(r) => if before.contains(r) {
                before
            } else {
                before.push(r)
            },
            None => before,
        }
    }
}

/// Adds the controllable objects of a device to those of others, each once.
pub fn add_controllable(refs: &mut Vec<ObjectReference>, ld: &str, names: &Vec<String>)
    ensures
        refs_of(final(refs)@) == with_controllable(
            refs_of(old(refs)@),
            ld@,
            texts(names@),
            names@.len(),
        ),
{
    let ghost known = refs_of(refs@);
    let ghost all = texts(names@);
    let mut i: usize = 0;
    while i < names.len()
        invariant
            i <= names@.len(),
            all == texts(names@),
            refs_of(refs@) == with_controllable(known, ld@, all, i as nat),
        decreases names@.len() - i,
    {
        assert(all[i as int] == names@[i as int]@);
        if let Some(r) = controllable_ref(ld, names[i].as_str()) {
            let ghost before = refs_of(refs@);
            let mut found = false;
            let mut j: usize = 0;
            while j < refs.len()
                invariant
                    j <= refs@.len(),
                    before == refs_of(refs@),
                    found == before.take(j as int).contains(r@),
                decreases refs@.len() - j,
            {
                proof {
                    let next = before.take(j + 1);
                    assert(next =~= before.take(j as int).push(before[j as int]));
                    assert(before[j as int] == refs@[j as int]@);
                    assert(next[j as int] == before[j as int]);
                    if before.take(j as int).contains(r@) {
                        let k = choose|k: int|
                            0 <= k < j && before.take(j as int)[k] == r@;
                        assert(next[k] == r@);
                    }
                    if next.contains(r@) && before[j as int] != r@ {
                        let k = choose|k: int| 0 <= k < next.len() && next[k] == r@;
                        assert(before.take(j as int)[k] == r@);
                    }
                }
                if refs[j].same(&r) {
                    found = true;
                }
                j = j + 1;
            }
            assert(before.take(j as int) =~= before);
            if !found {
                refs.push(r);
                assert(refs_of(refs@) =~= before.push(r@));
            }
        }
        i = i + 1;
    }
}

/// The rows of the panel.
pub struct ControlRows<'a> {
    pub refs: &'a Vec<ObjectReference>,
}

impl<'a> RowSource for ControlRows<'a> {
    open spec fn rows(&self) -> nat {
        self.refs@.len()
    }

    open spec fn inks_at(&self, i: int) -> Seq<Ink> {
        seq![ink("⚡ "@, Paint::Accent), ink(self.refs@[i]@, Paint::Plain)]
    }

    fn count(&self) -> usize {
        self.refs.len()
    }

    fn spans(&self, i: usize) -> Vec<Span> {
        let mut spans: Vec<Span> = Vec::new();
        assert(inks(spans@) =~= Seq::<Ink>::empty());
        push_span(&mut spans, "⚡ ", Paint::Accent);
        push_span(&mut spans, self.refs[i].as_str(), Paint::Plain);
        assert(inks(spans@) =~= self.inks_at(i as int));
        spans
    }
}

#[derive(Debug)]
pub struct ControlsPanel {
    pub list: ListBox,
    pub refs: Vec<ObjectReference>,
}

impl Default for ControlsPanel {
    fn default() -> (p: ControlsPanel)
        ensures
            p.list == ListBox::start(),
            p.refs@.len() == 0,
    {
        ControlsPanel { list: ListBox::default(), refs: Vec::new() }
    }
}

/// The overlay that operates the selected object.
pub open spec fn operate_selected(refs: Seq<ObjectReference>, cursor: int) -> Option<Overlay> {
    if cursor < refs.len() {
        Some(control_overlay(refs[cursor]@))
    } else {
        None
    }
}

impl ControlsPanel {
    /// Looks for the controllable objects.
    pub fn load(&mut self, ctx: &mut Ctx)
        ensures
            *final(self) == *old(self),
            old(ctx).then_queued(*final(ctx), asked(old(ctx).online, Deed::LoadControls)),
    {
        ctx.ask(Effect::LoadControls);
    }

    fn selected(&self) -> (d: Option<Dialog>)
        ensures
            overlay(d) == operate_selected(self.refs@, self.list.cursor as int),
            d matches Some(x) ==> x@.valid(),
    {
        if self.list.cursor < self.refs.len() {
            Some(Dialog::control(self.refs[self.list.cursor].clone()))
        } else {
            None
        }
    }

    /// Whether a key opens the operate dialog.
    pub open spec fn opens(key: KeyCode) -> bool {
        key == KeyCode::Enter || key == KeyCode::Char('o')
    }

    pub fn on_key(&mut self, key: KeyEvent) -> (d: Option<Dialog>)
        ensures
            final(self).refs == old(self).refs,
            final(self).list == old(self).list.steered(key.code, old(self).refs@.len() as int),
            overlay(d) == (if ControlsPanel::opens(key.code) {
                operate_selected(old(self).refs@, old(self).list.cursor as int)
            } else {
                None
            }),
            d matches Some(x) ==> x@.valid(),
    {
        if self.list.steer(key, self.refs.len()) {
            return None;
        }
        let opens = match key.code {
            KeyCode::Enter => true,
            KeyCode::Char(c) => c == 'o',
            _ => false,
        };
        if opens {
            self.selected()
        } else {
            None
        }
    }

    pub fn scroll(&mut self, up: bool)
        ensures
            final(self).refs == old(self).refs,
            final(self).list == old(self).list.wheeled(up, old(self).refs@.len() as int),
    {
        self.list.wheel(up, self.refs.len());
    }

    /// Handles a click at a row of the panel, its top border being the first.
    pub fn on_click(&mut self, y: u16) -> (d: Option<Dialog>)
        ensures
            final(self).refs == old(self).refs,
            final(self).list == (if y == 0 {
                old(self).list
            } else {
                old(self).list.clicked(y - 1, old(self).refs@.len() as int)
            }),
            overlay(d) == (if y > 0 && old(self).list.hits(y - 1, old(self).refs@.len() as int) {
                operate_selected(old(self).refs@, old(self).list.top + y - 1)
            } else {
                None
            }),
            d matches Some(x) ==> x@.valid(),
    {
        if y == 0 {
            return None;
        }
        if self.list.click_row((y - 1) as usize, self.refs.len()) {
            self.selected()
        } else {
            None
        }
    }

    /// Whether `after` is the panel after it was shown in an area as `f`.
    pub open spec fn draws(self, area: Rect, after: ControlsPanel, f: PanelFrame) -> bool {
        &&& after.refs == self.refs
        &&& is_divided(area, f.body, f.hint_area)
        &&& f.panes@.len() == 1
        &&& {
            let rows = ControlRows { refs: &self.refs };
            let height = inside(f.body).height as int;
            &&& after.list == self.list.shown(rows.rows() as int, height)
            &&& shows(
                f.panes@[0],
                f.body,
                "Controllable objects"@,
                after.list.visible(rows, height),
            )
        }
        &&& f.hint@ == row("↑↓ select · enter/o operate (opens the operate dialog)"@, Paint::Help)
    }

    /// What the panel shows in an area.
    pub fn draw(&mut self, area: Rect) -> (f: PanelFrame)
        ensures
            old(self).draws(area, *final(self), f),
    {
        let areas = panel_areas(area);
        let rows = ControlRows { refs: &self.refs };
        let pane = self.list.render(areas.body, "Controllable objects", &rows);
        let mut panes: Vec<Pane> = Vec::new();
        panes.push(pane);
        PanelFrame {
            body: areas.body,
            panes,
            hint_area: areas.hint,
            hint: Line::styled(
                "↑↓ select · enter/o operate (opens the operate dialog)",
                Paint::Help,
            ),
        }
    }
}

/// What can be operated is told by a variable of a control constraint that ends
/// in the operate component, and is addressed without either.
pub proof fn a_control_is_addressed_without_its_constraint(
    ld: Seq<char>,
    ln: Seq<char>,
    fc: Seq<char>,
    objects: Seq<Seq<char>>,
    last: Seq<char>,
)
    requires
        objects.len() > 0,
        !ln.contains('$'),
        !fc.contains('$'),
        !last.contains('$'),
        forall|i: int| 0 <= i < objects.len() ==> !(#[trigger] objects[i]).contains('$'),
    ensures
        ({
            let name = joined(seq![ln, fc] + objects + seq![last], seq!['$']);
            &&& fc == "CO"@ && last == "Oper"@ ==> controllable(ld, name) == Some(
                ld + "/"@ + ln + "."@ + joined(objects, "."@),
            )
            &&& fc != "CO"@ || last != "Oper"@ ==> controllable(ld, name) is None
            &&& controllable(ld, joined(seq![ln, fc, last], seq!['$'])) is None
        }),
{
    let parts = seq![ln, fc] + objects + seq![last];
    assert forall|i: int| 0 <= i < parts.len() implies !(#[trigger] parts[i]).contains('$') by {
        if 2 <= i < 2 + objects.len() {
            assert(parts[i] == objects[i - 2]);
        }
    }
    splitting_undoes_joining(parts, '$');
    splitting_undoes_joining(seq![ln, fc, last], '$');
    assert(parts.subrange(2, parts.len() - 1) =~= objects);
    assert(parts.last() == last);
}

/// The objects that a device is found to have stand behind those that were
/// known, each once; none that was known is lost.
pub proof fn each_control_is_listed_once(
    known: Seq<Seq<char>>,
    ld: Seq<char>,
    names: Seq<Seq<char>>,
    n: nat,
    r: Seq<char>,
)
    requires
        n <= names.len(),
        known.no_duplicates(),
    ensures
        with_controllable(known, ld, names, n).no_duplicates(),
        known.is_prefix_of(with_controllable(known, ld, names, n)),
        with_controllable(known, ld, names, n).contains(r) <==> known.contains(r) || exists|i: int|
            0 <= i < n && controllable(ld, #[trigger] names[i]) == Some(r),
    decreases n,
{
    if n == 0 {
        assert(known =~= known.take(known.len() as int));
    } else {
        let m = (n - 1) as nat;
        each_control_is_listed_once(known, ld, names, m, r);
        let before = with_controllable(known, ld, names, m);
        let all = with_controllable(known, ld, names, n);
        match controllable(ld, names[n - 1]) {
            Some(x) => {
                if before.contains(x) {
                    assert(all == before);
                    if x == r {
                        assert(controllable(ld, names[n - 1]) == Some(r));
                    }
                } else {
                    assert(all == before.push(x));
                    assert(all.take(known.len() as int) =~= before.take(known.len() as int));
                    assert(all[before.len() as int] == x);
                    if before.contains(r) {
                        let k = choose|k: int| 0 <= k < before.len() && before[k] == r;
                        assert(all[k] == r);
                    }
                    if all.contains(r) && r != x {
                        let k = choose|k: int| 0 <= k < all.len() && all[k] == r;
                        assert(before[k] == r);
                    }
                    if r == x {
                        assert(controllable(ld, names[n - 1]) == Some(r));
                    }
                }
            },
            None => {},
        }
    }
}

} // verus!
