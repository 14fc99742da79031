//! The model tree: expand, read, write, operate, filter and auto-refresh.

use vstd::prelude::*;

use super::dialogs::{control_overlay, kind_name, kind_text, overlay, write_overlay, Dialog, Overlay};
use super::layout::{inner, inside, is_divided, is_paned, pane_areas, panel_areas};
use super::tree::{is_arena, node_views, Node, NodeView};
use super::widgets::{clip, clipped, left_part, ListBox, RowSource};
use super::{
    asked, ink, inks, not_connected, push_line, push_span, push_spans, row, rows_of, shows, Ctx,
    Deed, Effect, Ink, KeyCode, KeyEvent, Line, Paint, Pane, PanelFrame, Rect, Row, Span,
    StatusKind,
};
use crate::model::Fc;
use crate::notation::{lowercase, push_repeated, repeated, to_lowercase};
use crate::text::{
    chars, contains, join, joined, occurs, push_char, push_str, string_between, texts,
};

verus! {

/// The least width of the tree.
pub const MIN_LEFT: u16 = 28;

// ---- what is visible ----
/// Whether a row itself holds the text of a filter, which is in lower case.
pub open spec fn holds_text(n: NodeView, f: Seq<char>) -> bool {
    occurs(f, lowercase(n.reference)) || occurs(f, lowercase(n.label))
}

/// Whether a row or anything below it holds the text of a filter.
pub open spec fn matches_at(nodes: Seq<NodeView>, f: Seq<char>, id: int) -> bool
    decreases nodes.len() - id, 1nat, 0nat,
{
    0 <= id < nodes.len() && (holds_text(nodes[id], f) || child_matches(
        nodes,
        f,
        id,
        nodes[id].children.len(),
    ))
}

/// Whether one of the first `n` children of a row, or anything below it, holds
/// the text of a filter.
pub open spec fn child_matches(nodes: Seq<NodeView>, f: Seq<char>, id: int, n: nat) -> bool
    decreases nodes.len() - id, 0nat, n,
{
    if n == 0 || !(0 <= id < nodes.len()) || n > nodes[id].children.len() {
        false
    } else {
        let c = nodes[id].children[n - 1] as int;
        child_matches(nodes, f, id, (n - 1) as nat) || (id < c < nodes.len() && matches_at(
            nodes,
            f,
            c,
        ))
    }
}

/// The rows that show of a row and of what is below it. A filter opens the
/// tree, so a match deep down is reachable without expanding every level by
/// hand.
pub open spec fn shown_at(nodes: Seq<NodeView>, filter: Seq<char>, id: int) -> Seq<usize>
    decreases nodes.len() - id, 1nat, 0nat,
{
    if !(0 <= id < nodes.len()) {
        Seq::empty()
    } else {
        let n = nodes[id];
        let own = if filter.len() == 0 || matches_at(nodes, lowercase(filter), id) {
            seq![id as usize]
        } else {
            Seq::empty()
        };
        if n.expanded || (filter.len() > 0 && n.children.len() > 0) {
            own + shown_below(nodes, filter, id, n.children.len())
        } else {
            own
        }
    }
}

/// The rows that show of the first `n` children of a row and of what is below
/// them.
pub open spec fn shown_below(nodes: Seq<NodeView>, filter: Seq<char>, id: int, n: nat) -> Seq<
    usize,
>
    decreases nodes.len() - id, 0nat, n,
{
    if n == 0 || !(0 <= id < nodes.len()) || n > nodes[id].children.len() {
        Seq::empty()
    } else {
        let c = nodes[id].children[n - 1] as int;
        shown_below(nodes, filter, id, (n - 1) as nat) + if id < c < nodes.len() {
            shown_at(nodes, filter, c)
        } else {
            Seq::empty()
        }
    }
}

/// The rows that show of the first `n` roots and of what is below them.
pub open spec fn shown_roots(
    nodes: Seq<NodeView>,
    filter: Seq<char>,
    roots: Seq<usize>,
    n: nat,
) -> Seq<usize>
    decreases n,
{
    if n == 0 || n > roots.len() {
        Seq::empty()
    } else {
        shown_roots(nodes, filter, roots, (n - 1) as nat) + shown_at(
            nodes,
            filter,
            roots[n - 1] as int,
        )
    }
}

/// Whether indices are rows of the arena.
pub open spec fn all_within(ids: Seq<usize>, n: int) -> bool {
    forall|k: int| 0 <= k < ids.len() ==> #[trigger] ids[k] < n
}

proof fn lemma_shown_at_within(nodes: Seq<NodeView>, filter: Seq<char>, id: int)
    requires
        nodes.len() <= usize::MAX,
    ensures
        all_within(shown_at(nodes, filter, id), nodes.len() as int),
    decreases nodes.len() - id, 1nat, 0nat,
{
    if 0 <= id < nodes.len() {
        lemma_shown_below_within(nodes, filter, id, nodes[id].children.len());
    }
}

proof fn lemma_shown_below_within(nodes: Seq<NodeView>, filter: Seq<char>, id: int, n: nat)
    requires
        nodes.len() <= usize::MAX,
    ensures
        all_within(shown_below(nodes, filter, id, n), nodes.len() as int),
    decreases nodes.len() - id, 0nat, n,
{
    if n == 0 || !(0 <= id < nodes.len()) || n > nodes[id].children.len() {
    } else {
        let c = nodes[id].children[n - 1] as int;
        lemma_shown_below_within(nodes, filter, id, (n - 1) as nat);
        if id < c < nodes.len() {
            lemma_shown_at_within(nodes, filter, c);
        }
    }
}

proof fn lemma_shown_roots_within(
    nodes: Seq<NodeView>,
    filter: Seq<char>,
    roots: Seq<usize>,
    n: nat,
)
    requires
        nodes.len() <= usize::MAX,
    ensures
        all_within(shown_roots(nodes, filter, roots, n), nodes.len() as int),
    decreases n,
{
    if n == 0 || n > roots.len() {
    } else {
        lemma_shown_roots_within(nodes, filter, roots, (n - 1) as nat);
        lemma_shown_at_within(nodes, filter, roots[n - 1] as int);
    }
}

/// Whether a row is another row or below it.
pub open spec fn is_under(nodes: Seq<NodeView>, id: int, x: int) -> bool
    decreases nodes.len() - id, 1nat, 0nat,
{
    0 <= id < nodes.len() && (x == id || is_under_child(
        nodes,
        id,
        nodes[id].children.len(),
        x,
    ))
}

/// Whether a row is one of the first `n` children of another row or below one.
pub open spec fn is_under_child(nodes: Seq<NodeView>, id: int, n: nat, x: int) -> bool
    decreases nodes.len() - id, 0nat, n,
{
    if n == 0 || !(0 <= id < nodes.len()) || n > nodes[id].children.len() {
        false
    } else {
        let c = nodes[id].children[n - 1] as int;
        is_under_child(nodes, id, (n - 1) as nat, x) || (id < c < nodes.len() && is_under(
            nodes,
            c,
            x,
        ))
    }
}

/// A filter shows, of a row and of what is below it, exactly what matches it,
/// however deep it is and whatever is expanded.
pub proof fn a_filter_shows_what_matches(
    nodes: Seq<NodeView>,
    filter: Seq<char>,
    id: int,
    x: usize,
)
    requires
        filter.len() > 0,
        nodes.len() <= usize::MAX,
    ensures
        shown_at(nodes, filter, id).contains(x) <==> is_under(nodes, id, x as int) && matches_at(
            nodes,
            lowercase(filter),
            x as int,
        ),
    decreases nodes.len() - id, 1nat, 0nat,
{
    if 0 <= id < nodes.len() {
        let n = nodes[id];
        let own = if matches_at(nodes, lowercase(filter), id) {
            seq![id as usize]
        } else {
            Seq::empty()
        };
        assert(own.contains(x) <==> x == id && matches_at(nodes, lowercase(filter), id)) by {
            if matches_at(nodes, lowercase(filter), id) {
                assert(own[0] == id);
            }
        }
        lemma_filter_shows_below(nodes, filter, id, n.children.len(), x);
        if n.expanded || n.children.len() > 0 {
            lemma_contains_concat(
                own,
                shown_below(nodes, filter, id, n.children.len()),
                x,
            );
        }
    }
}

proof fn lemma_filter_shows_below(
    nodes: Seq<NodeView>,
    filter: Seq<char>,
    id: int,
    n: nat,
    x: usize,
)
    requires
        filter.len() > 0,
        nodes.len() <= usize::MAX,
    ensures
        shown_below(nodes, filter, id, n).contains(x) <==> is_under_child(nodes, id, n, x as int)
            && matches_at(nodes, lowercase(filter), x as int),
    decreases nodes.len() - id, 0nat, n,
{
    if n == 0 || !(0 <= id < nodes.len()) || n > nodes[id].children.len() {
    } else {
        let c = nodes[id].children[n - 1] as int;
        let before = shown_below(nodes, filter, id, (n - 1) as nat);
        lemma_filter_shows_below(nodes, filter, id, (n - 1) as nat, x);
        let here = if id < c < nodes.len() {
            shown_at(nodes, filter, c)
        } else {
            Seq::empty()
        };
        if id < c < nodes.len() {
            a_filter_shows_what_matches(nodes, filter, c, x);
        }
        lemma_contains_concat(before, here, x);
    }
}

proof fn lemma_contains_concat(a: Seq<usize>, b: Seq<usize>, x: usize)
    ensures
        (a + b).contains(x) <==> a.contains(x) || b.contains(x),
{
    let all = a + b;
    if a.contains(x) {
        let i = choose|i: int| 0 <= i < a.len() && a[i] == x;
        assert(all[i] == x);
    }
    if b.contains(x) {
        let i = choose|i: int| 0 <= i < b.len() && b[i] == x;
        assert(all[a.len() + i] == x);
    }
    if all.contains(x) {
        let i = choose|i: int| 0 <= i < all.len() && all[i] == x;
        if i < a.len() {
            assert(a[i] == x);
        } else {
            assert(b[i - a.len()] == x);
        }
    }
}

fn matches_node(nodes: &Vec<Node>, f: &str, id: usize) -> (b: bool)
    requires
        is_arena(node_views(nodes@)),
        id < nodes@.len(),
    ensures
        b == matches_at(node_views(nodes@), f@, id as int),
    decreases nodes@.len() - id,
{
    let ghost views = node_views(nodes@);
    let n = &nodes[id];
    assert(views[id as int] == n@);
    if contains(to_lowercase(n.reference.as_str()).as_str(), f) || contains(
        to_lowercase(n.label.as_str()).as_str(),
        f,
    ) {
        return true;
    }
    let mut i: usize = 0;
    while i < n.children.len()
        invariant
            i <= n.children@.len(),
            id < nodes@.len(),
            views == node_views(nodes@),
            is_arena(views),
            views[id as int] == n@,
            !child_matches(views, f@, id as int, i as nat),
            !holds_text(n@, f@),
        decreases n.children@.len() - i,
    {
        let c: usize = n.children[i];
        assert(views[id as int].children[i as int] == c);
        if matches_node(nodes, f, c) {
            assert(child_matches(views, f@, id as int, (i + 1) as nat));
            proof {
                lemma_child_matches_grows(
                    views,
                    f@,
                    id as int,
                    (i + 1) as nat,
                    n.children@.len(),
                );
            }
            return true;
        }
        i = i + 1;
    }
    false
}

proof fn lemma_child_matches_grows(nodes: Seq<NodeView>, f: Seq<char>, id: int, n: nat, m: nat)
    requires
        0 <= id < nodes.len(),
        n <= m <= nodes[id].children.len(),
        child_matches(nodes, f, id, n),
    ensures
        child_matches(nodes, f, id, m),
    decreases m - n,
{
    if n < m {
        lemma_child_matches_grows(nodes, f, id, n, (m - 1) as nat);
    }
}

/// Appends the rows that show of a row and of what is below it. `lower` is the
/// filter in lower case.
fn walk(nodes: &Vec<Node>, filter: &str, lower: &str, id: usize, out: &mut Vec<usize>)
    requires
        is_arena(node_views(nodes@)),
        id < nodes@.len(),
        lower@ == lowercase(filter@),
    ensures
        final(out)@ == old(out)@ + shown_at(node_views(nodes@), filter@, id as int),
    decreases nodes@.len() - id,
{
    let ghost views = node_views(nodes@);
    let n = &nodes[id];
    assert(views[id as int] == n@);
    let plain = filter.is_empty();
    if plain || matches_node(nodes, lower, id) {
        out.push(id);
    }
    let ghost own = out@;
    if n.expanded || (!plain && n.children.len() > 0) {
        let mut i: usize = 0;
        assert(out@ =~= own + shown_below(views, filter@, id as int, 0));
        while i < n.children.len()
            invariant
                i <= n.children@.len(),
                id < nodes@.len(),
                lower@ == lowercase(filter@),
                views == node_views(nodes@),
                is_arena(views),
                views[id as int] == n@,
                out@ == own + shown_below(views, filter@, id as int, i as nat),
            decreases n.children@.len() - i,
        {
            let c: usize = n.children[i];
            assert(views[id as int].children[i as int] == c);
            walk(nodes, filter, lower, c, out);
            assert(out@ =~= own + shown_below(views, filter@, id as int, (i + 1) as nat));
            i = i + 1;
        }
    }
    assert(out@ =~= old(out)@ + shown_at(views, filter@, id as int));
}

/// The rows without anything above them, among the first `n`.
pub open spec fn roots_of(nodes: Seq<NodeView>, n: nat) -> Seq<usize>
    decreases n,
{
    if n == 0 || n > nodes.len() {
        Seq::empty()
    } else {
        let before = roots_of(nodes, (n - 1) as nat);
        if nodes[n - 1].depth == 0 {
            before.push((n - 1) as usize)
        } else {
            before
        }
    }
}

proof fn lemma_roots_within(nodes: Seq<NodeView>, n: nat)
    requires
        n <= nodes.len() <= usize::MAX,
    ensures
        all_within(roots_of(nodes, n), nodes.len() as int),
    decreases n,
{
    if n > 0 {
        lemma_roots_within(nodes, (n - 1) as nat);
    }
}

// ---- the panel ----
#[derive(Debug)]
pub struct BrowsePanel {
    pub nodes: Vec<Node>,
    pub roots: Vec<usize>,
    pub visible: Vec<usize>,
    pub cursor: usize,
    pub top: usize,
    pub filtering: bool,
    pub filter: String,
    pub auto: bool,
    /// Changes whenever auto-refresh is toggled, so a refresh from a previous
    /// activation stops instead of doubling the read rate.
    pub auto_gen: u64,
}

/// What the panel holds.
pub struct Browse {
    pub nodes: Seq<NodeView>,
    pub roots: Seq<usize>,
    pub visible: Seq<usize>,
    pub cursor: int,
    pub top: int,
    pub filtering: bool,
    pub filter: Seq<char>,
    pub auto: bool,
    pub generation: u64,
}

impl View for BrowsePanel {
    type V = Browse;

    open spec fn view(&self) -> Browse {
        Browse {
            nodes: node_views(self.nodes@),
            roots: self.roots@,
            visible: self.visible@,
            cursor: self.cursor as int,
            top: self.top as int,
            filtering: self.filtering,
            filter: self.filter@,
            auto: self.auto,
            generation: self.auto_gen,
        }
    }
}

impl Default for BrowsePanel {
    fn default() -> (p: BrowsePanel)
        ensures
            p@ == Browse::nothing(),
            p@.valid(),
    {
        let p = BrowsePanel {
            nodes: Vec::new(),
            roots: Vec::new(),
            visible: Vec::new(),
            cursor: 0,
            top: 0,
            filtering: false,
            filter: String::new(),
            auto: false,
            auto_gen: 0,
        };
        assert(node_views(p.nodes@) =~= Seq::<NodeView>::empty());
        assert(p.filter@ =~= Seq::<char>::empty());
        p
    }
}

/// The number after a number, starting again after the last.
pub open spec fn next_generation(g: u64) -> u64 {
    if g == u64::MAX {
        0
    } else {
        (g + 1) as u64
    }
}

impl Browse {
    /// A panel without a model.
    pub open spec fn nothing() -> Browse {
        Browse {
            nodes: Seq::empty(),
            roots: Seq::empty(),
            visible: Seq::empty(),
            cursor: 0,
            top: 0,
            filtering: false,
            filter: Seq::empty(),
            auto: false,
            generation: 0,
        }
    }

    /// Whether the rows are an arena, and the roots are among them.
    pub open spec fn rooted(self) -> bool {
        &&& is_arena(self.nodes)
        &&& self.nodes.len() <= usize::MAX
        &&& all_within(self.roots, self.nodes.len() as int)
    }

    /// Whether, besides, the visible rows are among the rows, and the cursor is
    /// on one of them where there are any.
    pub open spec fn valid(self) -> bool {
        &&& self.rooted()
        &&& all_within(self.visible, self.nodes.len() as int)
        &&& 0 <= self.cursor
        &&& self.cursor < self.visible.len() || self.cursor == 0
        &&& 0 <= self.top
    }

    /// The panel with its visible rows computed anew.
    pub open spec fn rebuilt(self) -> Browse {
        let visible = shown_roots(self.nodes, self.filter, self.roots, self.roots.len());
        Browse {
            visible,
            cursor: if self.cursor < visible.len() {
                self.cursor
            } else if visible.len() > 0 {
                visible.len() - 1
            } else {
                0
            },
            ..self
        }
    }

    /// The panel with a freshly retrieved model.
    pub open spec fn with_model(self, nodes: Seq<NodeView>) -> Browse {
        Browse {
            nodes,
            roots: roots_of(nodes, nodes.len()),
            cursor: 0,
            top: 0,
            ..self
        }.rebuilt()
    }

    /// Whether there is a row under the cursor.
    pub open spec fn has_current(self) -> bool {
        self.cursor < self.visible.len()
    }

    /// The index of the row under the cursor.
    pub open spec fn current_id(self) -> int {
        self.visible[self.cursor] as int
    }

    /// The row under the cursor.
    pub open spec fn current_node(self) -> NodeView {
        self.nodes[self.current_id()]
    }

    /// The panel with the row under the cursor expanded or not.
    pub open spec fn with_expanded(self, expanded: bool) -> Browse {
        Browse {
            nodes: self.nodes.update(
                self.current_id(),
                NodeView { expanded, ..self.current_node() },
            ),
            ..self
        }.rebuilt()
    }

    /// The panel after the row under the cursor was activated: a branch is
    /// expanded or collapsed.
    pub open spec fn activated(self) -> Browse {
        if self.has_current() && self.current_node().children.len() > 0 {
            self.with_expanded(!self.current_node().expanded)
        } else {
            self
        }
    }

    /// What reading the row under the cursor asks for.
    pub open spec fn read_deeds(self, online: bool) -> Seq<Deed> {
        let n = self.current_node();
        asked(
            online,
            Deed::Read {
                node: self.current_id() as usize,
                reference: n.reference,
                fc: n.fc,
            },
        )
    }

    /// What activating the row under the cursor asks for: a leaf is read.
    pub open spec fn activate_deeds(self, online: bool) -> Seq<Deed> {
        if self.has_current() && self.current_node().children.len() == 0
            && self.current_node().readable {
            self.read_deeds(online)
        } else {
            Seq::empty()
        }
    }

    /// The cursor one row up.
    pub open spec fn raised(self) -> Browse {
        Browse {
            cursor: if self.cursor > 0 {
                self.cursor - 1
            } else {
                0
            },
            ..self
        }
    }

    /// The cursor one row down.
    pub open spec fn lowered(self) -> Browse {
        Browse {
            cursor: if self.cursor + 1 < self.visible.len() {
                self.cursor + 1
            } else {
                self.cursor
            },
            ..self
        }
    }

    /// The cursor on the last row.
    pub open spec fn at_last(self) -> Browse {
        Browse {
            cursor: if self.visible.len() > 0 {
                self.visible.len() - 1
            } else {
                0
            },
            ..self
        }
    }

    /// The panel with auto-refresh toggled.
    pub open spec fn toggled(self) -> Browse {
        Browse { auto: !self.auto, generation: next_generation(self.generation), ..self }
    }

    /// What toggling auto-refresh asks for.
    pub open spec fn toggle_deeds(self, online: bool) -> Seq<Deed> {
        if self.auto {
            seq![Deed::Status("auto-refresh off"@, StatusKind::Info)]
        } else {
            seq![Deed::Status("auto-refresh on"@, StatusKind::Success)] + if !online {
                seq![not_connected()]
            } else if self.has_current() && self.current_node().readable {
                seq![
                    Deed::Refresh {
                        generation: next_generation(self.generation),
                        node: self.current_id() as usize,
                        reference: self.current_node().reference,
                        fc: self.current_node().fc,
                    },
                ]
            } else {
                Seq::empty()
            }
        }
    }

    /// The panel after a key while a filter is being typed.
    pub open spec fn after_text(self, key: KeyCode) -> Browse {
        match key {
            KeyCode::Enter | KeyCode::Esc => Browse { filtering: false, ..self },
            KeyCode::Backspace => Browse {
                filter: if self.filter.len() > 0 {
                    self.filter.drop_last()
                } else {
                    self.filter
                },
                ..self
            }.rebuilt(),
            KeyCode::Char(c) => Browse { filter: self.filter.push(c), ..self }.rebuilt(),
            _ => self,
        }
    }

    /// The panel after a key.
    pub open spec fn after(self, key: KeyCode) -> Browse {
        if self.filtering {
            self.after_text(key)
        } else {
            match key {
                KeyCode::Up => self.raised(),
                KeyCode::Down => self.lowered(),
                KeyCode::Home => Browse { cursor: 0, ..self },
                KeyCode::End => self.at_last(),
                KeyCode::Enter | KeyCode::Right => self.activated(),
                KeyCode::Left => self.collapsed(),
                KeyCode::Char(c) => if c == 'k' {
                    self.raised()
                } else if c == 'j' {
                    self.lowered()
                } else if c == 'g' {
                    Browse { cursor: 0, ..self }
                } else if c == 'G' {
                    self.at_last()
                } else if c == ' ' || c == 'l' {
                    self.activated()
                } else if c == 'h' {
                    self.collapsed()
                } else if c == 'a' {
                    self.toggled()
                } else if c == '/' {
                    Browse { filtering: true, ..self }
                } else {
                    self
                },
                _ => self,
            }
        }
    }

    /// The panel with the row under the cursor collapsed.
    pub open spec fn collapsed(self) -> Browse {
        if self.has_current() && self.current_node().expanded {
            self.with_expanded(false)
        } else {
            self
        }
    }

    /// What a key asks for.
    pub open spec fn asks(self, key: KeyCode, online: bool) -> Seq<Deed> {
        if self.filtering {
            Seq::empty()
        } else {
            match key {
                KeyCode::Enter | KeyCode::Right => self.activate_deeds(online),
                KeyCode::Char(c) => if c == ' ' || c == 'l' {
                    self.activate_deeds(online)
                } else if c == 'r' {
                    if self.has_current() && self.current_node().readable {
                        self.read_deeds(online)
                    } else {
                        seq![Deed::Status("not a readable attribute"@, StatusKind::Failure)]
                    }
                } else if c == 'w' {
                    if self.has_current() && self.current_node().writable {
                        Seq::empty()
                    } else {
                        seq![Deed::Status("not a writable attribute"@, StatusKind::Failure)]
                    }
                } else if c == 'o' {
                    if self.has_current() && self.current_node().controllable {
                        Seq::empty()
                    } else {
                        seq![Deed::Status("not a controllable object"@, StatusKind::Failure)]
                    }
                } else if c == 'a' {
                    self.toggle_deeds(online)
                } else {
                    Seq::empty()
                },
                _ => Seq::empty(),
            }
        }
    }

    /// The dialog that a key opens.
    pub open spec fn opens(self, key: KeyCode) -> Option<Overlay> {
        let n = self.current_node();
        if self.filtering || !self.has_current() {
            None
        } else if key == KeyCode::Char('w') && n.writable {
            Some(
                write_overlay(n.reference, n.fc, n.kind).prefilled(
                    if n.value_is_err {
                        None
                    } else {
                        n.value
                    },
                ),
            )
        } else if key == KeyCode::Char('o') && n.controllable {
            Some(control_overlay(n.reference))
        } else {
            None
        }
    }

    /// Whether a click at a cell of a panel `width` wide is on a visible row.
    pub open spec fn on_row(self, x: int, y: int, width: int) -> bool {
        &&& x < left_part(width, MIN_LEFT as int)
        &&& 0 < y
        &&& self.top + y - 1 < self.visible.len()
    }
}

proof fn lemma_rebuilt_valid(b: Browse)
    requires
        b.rooted(),
        0 <= b.cursor,
        0 <= b.top,
    ensures
        b.rebuilt().valid(),
{
    lemma_shown_roots_within(b.nodes, b.filter, b.roots, b.roots.len());
}

/// The panel stays sound, whatever key is pressed: the visible rows are rows of
/// the model, and the cursor is on one of them where there are any.
pub proof fn the_panel_stays_sound(b: Browse, key: KeyCode)
    requires
        b.valid(),
    ensures
        b.after(key).valid(),
{
    if b.filtering {
        lemma_rebuilt_valid(
            Browse {
                filter: if b.filter.len() > 0 {
                    b.filter.drop_last()
                } else {
                    b.filter
                },
                ..b
            },
        );
        if let KeyCode::Char(c) = key {
            lemma_rebuilt_valid(Browse { filter: b.filter.push(c), ..b });
        }
    } else if b.has_current() {
        lemma_expanded_valid(b, true);
        lemma_expanded_valid(b, false);
    }
}

proof fn lemma_expanded_valid(b: Browse, expanded: bool)
    requires
        b.valid(),
        b.has_current(),
    ensures
        b.with_expanded(expanded).valid(),
{
    let id = b.current_id();
    assert(b.visible[b.cursor] < b.nodes.len());
    let nodes = b.nodes.update(id, NodeView { expanded, ..b.current_node() });
    let next = Browse { nodes, ..b };
    assert(is_arena(nodes)) by {
        assert forall|i: int, k: int|
            #![trigger nodes[i].children[k]]
            0 <= i < nodes.len() && 0 <= k < nodes[i].children.len() implies i
            < nodes[i].children[k] < nodes.len() by {
            assert(nodes[i].children == b.nodes[i].children);
            assert(b.nodes[i].children[k] == nodes[i].children[k]);
        }
    }
    lemma_rebuilt_valid(next);
}

impl BrowsePanel {
    /// Retrieves the model.
    pub fn load(&mut self, ctx: &mut Ctx)
        ensures
            *final(self) == *old(self),
            old(ctx).then_queued(
                *final(ctx),
                if old(ctx).online {
                    seq![
                        Deed::Status("retrieving model..."@, StatusKind::Info),
                        Deed::LoadModel,
                    ]
                } else {
                    seq![not_connected()]
                },
            ),
    {
        if ctx.client() {
            ctx.status("retrieving model...", StatusKind::Info);
            ctx.send(Effect::LoadModel);
            assert(ctx.queued() =~= old(ctx).queued() + seq![
                Deed::Status("retrieving model..."@, StatusKind::Info),
                Deed::LoadModel,
            ]);
        }
    }

    /// Installs a freshly retrieved model and returns how many devices it has.
    pub fn set_model(&mut self, nodes: Vec<Node>) -> (devices: usize)
        requires
            is_arena(node_views(nodes@)),
        ensures
            final(self)@ == old(self)@.with_model(node_views(nodes@)),
            final(self)@.valid(),
            devices == roots_of(node_views(nodes@), nodes@.len()).len(),
    {
        let ghost views = node_views(nodes@);
        let mut roots: Vec<usize> = Vec::new();
        let mut i: usize = 0;
        while i < nodes.len()
            invariant
                i <= nodes@.len(),
                views == node_views(nodes@),
                roots@ == roots_of(views, i as nat),
            decreases nodes@.len() - i,
        {
            assert(views[i as int] == nodes@[i as int]@);
            if nodes[i].depth == 0 {
                roots.push(i);
            }
            i = i + 1;
        }
        proof {
            assert(views.len() == i);
            lemma_roots_within(views, views.len());
        }
        let count: usize = roots.len();
        self.roots = roots;
        self.nodes = nodes;
        self.cursor = 0;
        self.top = 0;
        self.rebuild();
        count
    }

    /// Puts a value on the row that asked for it. An index of a model that is
    /// not shown any more is ignored.
    pub fn set_value(&mut self, node: usize, text: String, is_err: bool)
        ensures
            final(self)@ == (if node < old(self)@.nodes.len() {
                Browse {
                    nodes: old(self)@.nodes.update(
                        node as int,
                        NodeView {
                            value: Some(text@),
                            value_is_err: is_err,
                            ..old(self)@.nodes[node as int]
                        },
                    ),
                    ..old(self)@
                }
            } else {
                old(self)@
            }),
            old(self)@.valid() ==> final(self)@.valid(),
    {
        if node < self.nodes.len() {
            let ghost before = self.nodes@;
            self.nodes[node].value = Some(text);
            self.nodes[node].value_is_err = is_err;
            proof {
                let next = NodeView {
                    value: Some(text@),
                    value_is_err: is_err,
                    ..old(self)@.nodes[node as int]
                };
                assert(self.nodes@[node as int]@ == next);
                assert(self.nodes@ =~= before.update(node as int, self.nodes@[node as int]));
                assert(node_views(self.nodes@) =~= old(self)@.nodes.update(node as int, next));
                if old(self)@.valid() {
                    let (a, b) = (old(self)@.nodes, self@.nodes);
                    assert forall|i: int, k: int|
                        #![trigger b[i].children[k]]
                        0 <= i < b.len() && 0 <= k < b[i].children.len() implies i
                        < b[i].children[k] < b.len() by {
                        assert(b[i].children == a[i].children);
                        assert(a[i].children[k] == b[i].children[k]);
                    }
                }
            }
        }
    }

    /// Recomputes the visible rows from the expansion state and the filter.
    pub fn rebuild(&mut self)
        requires
            is_arena(old(self)@.nodes),
            all_within(old(self)@.roots, old(self)@.nodes.len() as int),
        ensures
            final(self)@ == old(self)@.rebuilt(),
            final(self)@.valid(),
            final(self).nodes == old(self).nodes,
    {
        let lower = to_lowercase(self.filter.as_str());
        let mut visible: Vec<usize> = Vec::new();
        let ghost views = node_views(self.nodes@);
        let mut i: usize = 0;
        assert(visible@ =~= shown_roots(views, self.filter@, self.roots@, 0));
        while i < self.roots.len()
            invariant
                i <= self.roots@.len(),
                *self == *old(self),
                views == node_views(self.nodes@),
                is_arena(views),
                all_within(self.roots@, views.len() as int),
                lower@ == lowercase(self.filter@),
                visible@ == shown_roots(views, self.filter@, self.roots@, i as nat),
            decreases self.roots@.len() - i,
        {
            let id: usize = self.roots[i];
            assert(self.roots@[i as int] < views.len());
            walk(&self.nodes, self.filter.as_str(), lower.as_str(), id, &mut visible);
            i = i + 1;
        }
        let count: usize = self.nodes.len();
        proof {
            assert(views.len() == count);
            lemma_rebuilt_valid(old(self)@);
        }
        self.visible = visible;
        if self.cursor >= self.visible.len() {
            self.cursor = self.visible.len().saturating_sub(1);
        }
    }

    /// The index of the row under the cursor.
    pub fn current(&self) -> (id: Option<usize>)
        ensures
            match id {
                Some(id) => self@.has_current() && id == self@.current_id(),
                None => !self@.has_current(),
            },
    {
        if self.cursor < self.visible.len() {
            Some(self.visible[self.cursor])
        } else {
            None
        }
    }

    /// Whether the panel is taking text, so every key belongs to it.
    ///
    /// A filter has to be able to contain a `q` or a digit without the key
    /// reaching the tab bar and quitting or switching tab.
    pub fn is_capturing(&self) -> (b: bool)
        ensures
            b == self@.filtering,
    {
        self.filtering
    }

    /// The filter text as it is shown.
    pub fn filter(&self) -> (s: &str)
        ensures
            s@ == self@.filter,
    {
        self.filter.as_str()
    }

    /// Expands or collapses the row under the cursor.
    fn set_expanded(&mut self, id: usize, expanded: bool)
        requires
            old(self)@.valid(),
            old(self)@.has_current(),
            id == old(self)@.current_id(),
        ensures
            final(self)@ == old(self)@.with_expanded(expanded),
            final(self)@.valid(),
    {
        let ghost before = self.nodes@;
        assert(self.visible@[self.cursor as int] < node_views(self.nodes@).len());
        self.nodes[id].expanded = expanded;
        proof {
            let next = NodeView { expanded, ..old(self)@.current_node() };
            assert(self.nodes@[id as int]@ == next);
            assert(self.nodes@ =~= before.update(id as int, self.nodes@[id as int]));
            assert(node_views(self.nodes@) =~= old(self)@.nodes.update(id as int, next));
            lemma_expanded_valid(old(self)@, expanded);
        }
        self.rebuild();
    }

    /// Expands a branch, or reads a leaf.
    fn activate(&mut self, ctx: &mut Ctx)
        requires
            old(self)@.valid(),
        ensures
            final(self)@ == old(self)@.activated(),
            final(self)@.valid(),
            old(ctx).then_queued(*final(ctx), old(self)@.activate_deeds(old(ctx).online)),
    {
        assert(ctx.queued() + Seq::<Deed>::empty() =~= ctx.queued());
        if let Some(id) = self.current() {
            assert(self.visible@[self.cursor as int] < node_views(self.nodes@).len());
            assert(self@.nodes[id as int] == self.nodes@[id as int]@);
            if self.nodes[id].children.len() > 0 {
                let expanded = self.nodes[id].expanded;
                self.set_expanded(id, !expanded);
            } else if self.nodes[id].readable {
                self.read(id, ctx);
            }
        }
    }

    fn read(&self, id: usize, ctx: &mut Ctx)
        requires
            id < self.nodes@.len(),
        ensures
            old(ctx).then_queued(
                *final(ctx),
                asked(
                    old(ctx).online,
                    Deed::Read {
                        node: id,
                        reference: self.nodes@[id as int].reference@,
                        fc: self.nodes@[id as int].fc,
                    },
                ),
            ),
    {
        let n = &self.nodes[id];
        ctx.ask(Effect::Read { node: id, reference: n.reference.clone(), fc: n.fc });
    }

    /// Toggles auto-refresh of the selected leaf.
    fn toggle_auto(&mut self, ctx: &mut Ctx)
        requires
            old(self)@.valid(),
        ensures
            final(self)@ == old(self)@.toggled(),
            old(ctx).then_queued(*final(ctx), old(self)@.toggle_deeds(old(ctx).online)),
    {
        self.auto = !self.auto;
        self.auto_gen = if self.auto_gen == u64::MAX {
            0
        } else {
            self.auto_gen + 1
        };
        if self.auto {
            ctx.ok("auto-refresh on");
            if ctx.client() {
                if let Some(id) = self.current() {
                    assert(self.visible@[self.cursor as int] < node_views(self.nodes@).len());
                    assert(self@.nodes[id as int] == self.nodes@[id as int]@);
                    let n = &self.nodes[id];
                    if n.readable {
                        ctx.send(
                            Effect::Refresh {
                                generation: self.auto_gen,
                                node: id,
                                reference: n.reference.clone(),
                                fc: n.fc,
                            },
                        );
                    }
                }
            }
        } else {
            ctx.status("auto-refresh off", StatusKind::Info);
        }
        assert(ctx.queued() =~= old(ctx).queued() + old(self)@.toggle_deeds(old(ctx).online));
    }

    /// Handles a key while a filter is being typed.
    fn on_text(&mut self, key: KeyEvent)
        requires
            old(self)@.valid(),
        ensures
            final(self)@ == old(self)@.after_text(key.code),
            final(self)@.valid(),
    {
        match key.code {
            KeyCode::Enter | KeyCode::Esc => {
                self.filtering = false;
            },
            KeyCode::Backspace => {
                let cs = chars(self.filter.as_str());
                let n: usize = cs.len();
                if n > 0 {
                    self.filter = string_between(cs.as_slice(), 0, n - 1);
                    assert(self.filter@ =~= old(self).filter@.drop_last());
                }
                self.rebuild();
            },
            KeyCode::Char(c) => {
                push_char(&mut self.filter, c);
                self.rebuild();
            },
            _ => {},
        }
    }

    pub fn on_key(&mut self, key: KeyEvent, ctx: &mut Ctx) -> (d: Option<Dialog>)
        requires
            old(self)@.valid(),
        ensures
            final(self)@ == old(self)@.after(key.code),
            final(self)@.valid(),
            old(ctx).then_queued(*final(ctx), old(self)@.asks(key.code, old(ctx).online)),
            overlay(d) == old(self)@.opens(key.code),
            d matches Some(x) ==> x@.valid(),
    {
        assert(ctx.queued() + Seq::<Deed>::empty() =~= ctx.queued());
        if self.filtering {
            self.on_text(key);
            return None;
        }
        match key.code {
            KeyCode::Up => self.move_up(),
            KeyCode::Down => self.move_down(),
            KeyCode::Home => {
                self.cursor = 0;
            },
            KeyCode::End => {
                self.cursor = self.visible.len().saturating_sub(1);
            },
            KeyCode::Enter | KeyCode::Right => self.activate(ctx),
            KeyCode::Left => self.collapse(),
            KeyCode::Char(c) => {
                if c == 'k' {
                    self.move_up();
                } else if c == 'j' {
                    self.move_down();
                } else if c == 'g' {
                    self.cursor = 0;
                } else if c == 'G' {
                    self.cursor = self.visible.len().saturating_sub(1);
                } else if c == ' ' || c == 'l' {
                    self.activate(ctx);
                } else if c == 'h' {
                    self.collapse();
                } else if c == 'r' {
                    self.read_current(ctx);
                } else if c == 'w' {
                    return self.open_write(ctx);
                } else if c == 'o' {
                    return self.open_control(ctx);
                } else if c == 'a' {
                    self.toggle_auto(ctx);
                } else if c == '/' {
                    self.filtering = true;
                }
            },
            _ => {},
        }
        None
    }

    fn move_up(&mut self)
        ensures
            final(self)@ == old(self)@.raised(),
    {
        self.cursor = self.cursor.saturating_sub(1);
    }

    fn move_down(&mut self)
        ensures
            final(self)@ == old(self)@.lowered(),
    {
        if self.cursor < self.visible.len() && self.visible.len() - self.cursor > 1 {
            self.cursor = self.cursor + 1;
        }
    }

    fn collapse(&mut self)
        requires
            old(self)@.valid(),
        ensures
            final(self)@ == old(self)@.collapsed(),
            final(self)@.valid(),
    {
        if let Some(id) = self.current() {
            assert(self.visible@[self.cursor as int] < node_views(self.nodes@).len());
            assert(self@.nodes[id as int] == self.nodes@[id as int]@);
            if self.nodes[id].expanded {
                self.set_expanded(id, false);
            }
        }
    }

    fn read_current(&self, ctx: &mut Ctx)
        requires
            self@.valid(),
        ensures
            old(ctx).then_queued(
                *final(ctx),
                if self@.has_current() && self@.current_node().readable {
                    self@.read_deeds(old(ctx).online)
                } else {
                    seq![Deed::Status("not a readable attribute"@, StatusKind::Failure)]
                },
            ),
    {
        if let Some(id) = self.current() {
            assert(self.visible@[self.cursor as int] < node_views(self.nodes@).len());
            assert(self@.nodes[id as int] == self.nodes@[id as int]@);
            if self.nodes[id].readable {
                self.read(id, ctx);
                return;
            }
        }
        // Silence here would look like a read that never answered.
        ctx.err("not a readable attribute");
    }

    fn open_write(&self, ctx: &mut Ctx) -> (d: Option<Dialog>)
        requires
            self@.valid(),
            !self@.filtering,
        ensures
            old(ctx).then_queued(
                *final(ctx),
                self@.asks(KeyCode::Char('w'), old(ctx).online),
            ),
            overlay(d) == self@.opens(KeyCode::Char('w')),
            d matches Some(x) ==> x@.valid(),
    {
        assert(ctx.queued() + Seq::<Deed>::empty() =~= ctx.queued());
        if let Some(id) = self.current() {
            assert(self.visible@[self.cursor as int] < node_views(self.nodes@).len());
            assert(self@.nodes[id as int] == self.nodes@[id as int]@);
            let n = &self.nodes[id];
            if n.writable {
                let d = Dialog::write(n.reference.clone(), n.fc, n.kind);
                let current: Option<&str> = match &n.value {
                    Some(v) => if n.value_is_err {
                        None
                    } else {
                        Some(v.as_str())
                    },
                    None => None,
                };
                return Some(d.prefilled(current));
            }
        }
        ctx.err("not a writable attribute");
        None
    }

    fn open_control(&self, ctx: &mut Ctx) -> (d: Option<Dialog>)
        requires
            self@.valid(),
            !self@.filtering,
        ensures
            old(ctx).then_queued(
                *final(ctx),
                self@.asks(KeyCode::Char('o'), old(ctx).online),
            ),
            overlay(d) == self@.opens(KeyCode::Char('o')),
            d matches Some(x) ==> x@.valid(),
    {
        assert(ctx.queued() + Seq::<Deed>::empty() =~= ctx.queued());
        if let Some(id) = self.current() {
            assert(self.visible@[self.cursor as int] < node_views(self.nodes@).len());
            assert(self@.nodes[id as int] == self.nodes@[id as int]@);
            let n = &self.nodes[id];
            if n.controllable {
                return Some(Dialog::control(n.reference.clone()));
            }
        }
        ctx.err("not a controllable object");
        None
    }

    pub fn scroll(&mut self, up: bool)
        ensures
            final(self)@ == (if up {
                old(self)@.raised()
            } else {
                old(self)@.lowered()
            }),
            old(self)@.valid() ==> final(self)@.valid(),
    {
        if up {
            self.move_up();
        } else {
            self.move_down();
        }
    }

    /// Handles a click at a cell of a panel `width` wide, its top border being
    /// the first row. The detail pane has no hit targets.
    pub fn on_click(&mut self, x: u16, y: u16, width: u16, ctx: &mut Ctx)
        requires
            old(self)@.valid(),
        ensures
            ({
                let before = old(self)@;
                let hit = before.on_row(x as int, y as int, width as int);
                let moved = Browse { cursor: before.top + y - 1, ..before };
                &&& final(self)@ == (if hit {
                    moved.activated()
                } else {
                    before
                })
                &&& old(ctx).then_queued(
                    *final(ctx),
                    if hit {
                        moved.activate_deeds(old(ctx).online)
                    } else {
                        Seq::empty()
                    },
                )
            }),
            final(self)@.valid(),
    {
        assert(ctx.queued() + Seq::<Deed>::empty() =~= ctx.queued());
        if x >= self.left_width(width) || y == 0 {
            return;
        }
        // Account for the pane's top border.
        let at: usize = (y - 1) as usize;
        if self.top >= self.visible.len() || at >= self.visible.len() - self.top {
            return;
        }
        self.cursor = self.top + at;
        self.activate(ctx);
    }

    pub fn left_width(&self, width: u16) -> (w: u16)
        ensures
            w == left_part(width as int, MIN_LEFT as int),
    {
        super::widgets::left_width(width, MIN_LEFT)
    }

    /// Whether a refresh that was started with a generation goes on: auto-refresh
    /// is on, and it has not been toggled since.
    pub fn refreshes(&self, generation: u64) -> (b: bool)
        ensures
            b == (self@.auto && self@.generation == generation),
    {
        self.auto && self.auto_gen == generation
    }
}

/// Toggling auto-refresh stops what was refreshed before: its generation is not
/// the present one any more, neither once auto-refresh is off nor once it is on
/// again.
pub proof fn toggling_stops_earlier_refreshes(b: Browse)
    ensures
        b.toggled().generation != b.generation,
        b.toggled().toggled().generation != b.generation,
        b.toggled().auto != b.auto,
{
}

// ---- drawing ----
/// What a row of the tree shows. A filter shows what is below a branch whether
/// or not it was expanded, so the marker follows what is on screen rather than
/// the expansion behind it.
pub open spec fn tree_inks(n: NodeView, filtered: bool) -> Seq<Ink> {
    let marker = if n.children.len() == 0 {
        "  "@
    } else if n.expanded || filtered {
        "▾ "@
    } else {
        "▸ "@
    };
    let name = ink(repeated(' ', (2 * n.depth) as nat) + marker + n.label, Paint::Plain);
    match n.value {
        None => seq![name],
        Some(v) => seq![
            name,
            ink(" = "@, Paint::Plain),
            ink(
                clipped(v, 16),
                if n.value_is_err {
                    Paint::Error
                } else {
                    Paint::Value
                },
            ),
        ],
    }
}

/// The visible rows of the tree.
pub struct TreeRows<'a> {
    pub nodes: &'a Vec<Node>,
    pub visible: &'a Vec<usize>,
    pub filtered: bool,
}

impl<'a> RowSource for TreeRows<'a> {
    open spec fn rows(&self) -> nat {
        self.visible@.len()
    }

    open spec fn inks_at(&self, i: int) -> Seq<Ink> {
        let id = self.visible@[i] as int;
        if id < self.nodes@.len() {
            tree_inks(self.nodes@[id]@, self.filtered)
        } else {
            Seq::empty()
        }
    }

    fn count(&self) -> usize {
        self.visible.len()
    }

    fn spans(&self, i: usize) -> Vec<Span> {
        let mut spans: Vec<Span> = Vec::new();
        assert(inks(spans@) =~= Seq::<Ink>::empty());
        let id: usize = self.visible[i];
        if id >= self.nodes.len() {
            return spans;
        }
        let n = &self.nodes[id];
        let mut text = String::new();
        push_repeated(&mut text, ' ', n.depth);
        push_repeated(&mut text, ' ', n.depth);
        assert(text@ =~= repeated(' ', (2 * n.depth) as nat));
        if n.children.len() == 0 {
            push_str(&mut text, "  ");
        } else if n.expanded || self.filtered {
            push_str(&mut text, "▾ ");
        } else {
            push_str(&mut text, "▸ ");
        }
        push_str(&mut text, n.label.as_str());
        push_span(&mut spans, text.as_str(), Paint::Plain);
        if let Some(v) = &n.value {
            push_span(&mut spans, " = ", Paint::Plain);
            push_span(
                &mut spans,
                clip(v.as_str(), 16).as_str(),
                if n.value_is_err {
                    Paint::Error
                } else {
                    Paint::Value
                },
            );
        }
        assert(inks(spans@) =~= self.inks_at(i as int));
        spans
    }
}

/// The rows that a pane shows of a tree.
pub open spec fn tree_rows(p: BrowsePanel, list: ListBox, height: int) -> Seq<Row> {
    if height == 0 {
        Seq::empty()
    } else if p.visible@.len() == 0 {
        seq![row("(no model; press R to retrieve)"@, Paint::Muted)]
    } else {
        list.visible(
            TreeRows { nodes: &p.nodes, visible: &p.visible, filtered: p.filter@.len() > 0 },
            height,
        )
    }
}

/// What can be done with a row.
pub open spec fn actions(n: NodeView) -> Seq<Seq<char>> {
    let none = Seq::<Seq<char>>::empty();
    (if n.readable {
        none.push("r read"@)
    } else {
        none
    }) + (if n.writable {
        none.push("w write"@)
    } else {
        none
    }) + (if n.controllable {
        none.push("o operate"@)
    } else {
        none
    }) + (if n.children.len() > 0 {
        none.push("enter expand"@)
    } else {
        none
    })
}

/// What the detail pane shows.
pub open spec fn detail_rows(b: Browse) -> Seq<Row> {
    if !b.has_current() {
        seq![row("no selection"@, Paint::Muted)]
    } else {
        let n = b.current_node();
        let none = Seq::<Row>::empty();
        seq![
            row("Reference"@, Paint::Label),
            row("  "@ + n.reference, Paint::Plain),
            row(""@, Paint::Plain),
        ] + (if n.fc != Fc::Unset {
            seq![
                Row {
                    inks: seq![
                        ink("FC"@, Paint::Label),
                        ink("  "@ + n.fc.text() + "    "@, Paint::Plain),
                        ink("Type"@, Paint::Label),
                        ink("  "@ + kind_text(n.kind), Paint::Plain),
                    ],
                    selected: false,
                },
                row(""@, Paint::Plain),
            ]
        } else {
            none
        }) + (if n.readable {
            seq![
                row("Value"@, Paint::Label),
                match n.value {
                    None => row("  (press r to read)"@, Paint::Muted),
                    Some(v) => row(
                        "  "@ + v,
                        if n.value_is_err {
                            Paint::Error
                        } else {
                            Paint::Value
                        },
                    ),
                },
                row(""@, Paint::Plain),
            ]
        } else {
            none
        }) + (if actions(n).len() > 0 {
            seq![row("actions: "@ + joined(actions(n), " · "@), Paint::Muted)]
        } else {
            none
        }) + (if b.auto {
            seq![row(""@, Paint::Plain), row("● auto-refresh"@, Paint::Value)]
        } else {
            none
        })
    }
}

/// The line of hints.
pub open spec fn hint_row(b: Browse) -> Row {
    if b.filtering {
        row("filter: "@ + b.filter + "▏  (enter/esc to finish)"@, Paint::Accent)
    } else if b.filter.len() > 0 {
        row("filter: "@ + b.filter + "  (/ to edit)"@, Paint::Muted)
    } else {
        row(
            "↑↓ move · enter expand/read · r read · w write · o operate · a auto · / filter"@,
            Paint::Help,
        )
    }
}

/// Writes what can be done with a row.
fn list_actions(n: &Node) -> (v: Vec<String>)
    ensures
        texts(v@) == actions(n@),
{
    let mut v: Vec<String> = Vec::new();
    assert(texts(v@) =~= Seq::<Seq<char>>::empty());
    if n.readable {
        v.push("r read".to_owned());
    }
    if n.writable {
        v.push("w write".to_owned());
    }
    if n.controllable {
        v.push("o operate".to_owned());
    }
    if n.children.len() > 0 {
        v.push("enter expand".to_owned());
    }
    assert(texts(v@) =~= actions(n@));
    v
}

impl BrowsePanel {
    fn draw_tree(&mut self, area: Rect) -> (p: Pane)
        requires
            old(self)@.valid(),
        ensures
            ({
                let height = inside(area).height as int;
                let list = ListBox { cursor: old(self).cursor, top: old(self).top };
                let after = list.shown(old(self).visible@.len() as int, height);
                &&& *final(self) == (BrowsePanel { top: after.top, ..*old(self) })
                &&& shows(p, area, "Model"@, tree_rows(*old(self), after, height))
            }),
    {
        let mut list = ListBox { cursor: self.cursor, top: self.top };
        if self.visible.len() == 0 {
            let mut lines: Vec<Line> = Vec::new();
            assert(rows_of(lines@) =~= Seq::<Row>::empty());
            if inner(area).height > 0 {
                list.scroll_into_view(0, inner(area).height as usize);
                push_line(&mut lines, "(no model; press R to retrieve)", Paint::Muted);
                assert(rows_of(lines@) =~= seq![
                    row("(no model; press R to retrieve)"@, Paint::Muted),
                ]);
            }
            self.top = list.top;
            return Pane { area, title: "Model".to_owned(), lines };
        }
        let rows = TreeRows {
            nodes: &self.nodes,
            visible: &self.visible,
            filtered: !self.filter.as_str().is_empty(),
        };
        let pane = list.render(area, "Model", &rows);
        self.top = list.top;
        pane
    }

    fn draw_detail(&self, area: Rect) -> (p: Pane)
        requires
            self@.valid(),
        ensures
            shows(p, area, "Detail"@, detail_rows(self@)),
    {
        let mut lines: Vec<Line> = Vec::new();
        assert(rows_of(lines@) =~= Seq::<Row>::empty());
        match self.current() {
            None => {
                push_line(&mut lines, "no selection", Paint::Muted);
            },
            Some(id) => {
                assert(self.visible@[self.cursor as int] < node_views(self.nodes@).len());
                assert(self@.nodes[id as int] == self.nodes@[id as int]@);
                let n = &self.nodes[id];
                push_line(&mut lines, "Reference", Paint::Label);
                let mut reference = "  ".to_owned();
                push_str(&mut reference, n.reference.as_str());
                push_line(&mut lines, reference.as_str(), Paint::Plain);
                push_line(&mut lines, "", Paint::Plain);
                if n.fc != Fc::Unset {
                    let mut spans: Vec<Span> = Vec::new();
                    assert(inks(spans@) =~= Seq::<Ink>::empty());
                    push_span(&mut spans, "FC", Paint::Label);
                    let mut fc = "  ".to_owned();
                    push_str(&mut fc, n.fc.as_str());
                    push_str(&mut fc, "    ");
                    push_span(&mut spans, fc.as_str(), Paint::Plain);
                    push_span(&mut spans, "Type", Paint::Label);
                    let mut kind = "  ".to_owned();
                    push_str(&mut kind, kind_name(n.kind));
                    push_span(&mut spans, kind.as_str(), Paint::Plain);
                    assert(inks(spans@) =~= seq![
                        ink("FC"@, Paint::Label),
                        ink("  "@ + n.fc.text() + "    "@, Paint::Plain),
                        ink("Type"@, Paint::Label),
                        ink("  "@ + kind_text(n.kind), Paint::Plain),
                    ]);
                    push_spans(&mut lines, spans, false);
                    push_line(&mut lines, "", Paint::Plain);
                }
                if n.readable {
                    push_line(&mut lines, "Value", Paint::Label);
                    match &n.value {
                        None => push_line(&mut lines, "  (press r to read)", Paint::Muted),
                        Some(v) => {
                            let mut text = "  ".to_owned();
                            push_str(&mut text, v.as_str());
                            push_line(
                                &mut lines,
                                text.as_str(),
                                if n.value_is_err {
                                    Paint::Error
                                } else {
                                    Paint::Value
                                },
                            );
                        },
                    }
                    push_line(&mut lines, "", Paint::Plain);
                }
                let acts = list_actions(n);
                assert(texts(acts@).len() == acts@.len());
                if acts.len() > 0 {
                    let mut text = "actions: ".to_owned();
                    push_str(&mut text, join(&acts, 0, " · ").as_str());
                    assert(texts(acts@).skip(0) =~= texts(acts@));
                    push_line(&mut lines, text.as_str(), Paint::Muted);
                }
                if self.auto {
                    push_line(&mut lines, "", Paint::Plain);
                    push_line(&mut lines, "● auto-refresh", Paint::Value);
                }
            },
        }
        assert(rows_of(lines@) =~= detail_rows(self@));
        Pane { area, title: "Detail".to_owned(), lines }
    }

    fn hint(&self) -> (l: Line)
        ensures
            l@ == hint_row(self@),
    {
        if self.filtering {
            let mut text = "filter: ".to_owned();
            push_str(&mut text, self.filter());
            push_str(&mut text, "▏  (enter/esc to finish)");
            Line::styled(text.as_str(), Paint::Accent)
        } else if !self.filter.as_str().is_empty() {
            let mut text = "filter: ".to_owned();
            push_str(&mut text, self.filter());
            push_str(&mut text, "  (/ to edit)");
            Line::styled(text.as_str(), Paint::Muted)
        } else {
            Line::styled(
                "↑↓ move · enter expand/read · r read · w write · o operate · a auto · / filter",
                Paint::Help,
            )
        }
    }

    /// Whether `after` is the panel after it was shown in an area as `f`.
    pub open spec fn draws(self, area: Rect, after: BrowsePanel, f: PanelFrame) -> bool {
        &&& is_divided(area, f.body, f.hint_area)
        &&& f.panes@.len() == 2
        &&& is_paned(
            f.body,
            left_part(f.body.width as int, MIN_LEFT as int),
            f.panes@[0].area,
            f.panes@[1].area,
        )
        &&& {
            let a = f.panes@[0].area;
            let height = inside(a).height as int;
            let list = ListBox { cursor: self.cursor, top: self.top };
            let scrolled = list.shown(self.visible@.len() as int, height);
            &&& after == (BrowsePanel { top: scrolled.top, ..self })
            &&& shows(f.panes@[0], a, "Model"@, tree_rows(self, scrolled, height))
        }
        &&& shows(f.panes@[1], f.panes@[1].area, "Detail"@, detail_rows(self@))
        &&& f.hint@ == hint_row(self@)
    }

    /// What the panel shows in an area.
    pub fn draw(&mut self, area: Rect) -> (f: PanelFrame)
        requires
            old(self)@.valid(),
        ensures
            old(self).draws(area, *final(self), f),
            final(self)@.valid(),
    {
        let areas = panel_areas(area);
        let cols = pane_areas(areas.body, self.left_width(areas.body.width));
        let detail = self.draw_detail(cols.right);
        let hint = self.hint();
        let tree = self.draw_tree(cols.left);
        let mut panes: Vec<Pane> = Vec::new();
        panes.push(tree);
        panes.push(detail);
        PanelFrame { body: areas.body, panes, hint_area: areas.hint, hint }
    }
}

/// The rows without anything above them are the roots, in order.
pub proof fn the_roots_have_nothing_above(nodes: Seq<NodeView>, n: nat, i: usize)
    requires
        n <= nodes.len() <= usize::MAX,
    ensures
        roots_of(nodes, n).contains(i) <==> i < n && nodes[i as int].depth == 0,
    decreases n,
{
    if n > 0 {
        let m = (n - 1) as nat;
        the_roots_have_nothing_above(nodes, m, i);
        let before = roots_of(nodes, m);
        let all = roots_of(nodes, n);
        if nodes[n - 1].depth == 0 {
            assert(all == before.push(m as usize));
            assert(all[before.len() as int] == m as usize);
            if before.contains(i) {
                let k = choose|k: int| 0 <= k < before.len() && before[k] == i;
                assert(all[k] == i);
            }
            if all.contains(i) && i != m as usize {
                let k = choose|k: int| 0 <= k < all.len() && all[k] == i;
                assert(before[k] == i);
            }
        }
    }
}

/// Without a filter a row shows, and what is below it as long as it is
/// expanded.
pub proof fn a_collapsed_row_hides_what_is_below(nodes: Seq<NodeView>, id: int, k: int)
    requires
        0 <= id < nodes.len() <= usize::MAX,
        is_arena(nodes),
        0 <= k < nodes[id].children.len(),
    ensures
        shown_at(nodes, Seq::empty(), id)[0] == id,
        !nodes[id].expanded ==> shown_at(nodes, Seq::empty(), id) == seq![id as usize],
        nodes[id].expanded ==> shown_at(nodes, Seq::empty(), id).contains(nodes[id].children[k]),
{
    if nodes[id].expanded {
        lemma_child_shows(nodes, id, nodes[id].children.len(), k);
        let below = shown_below(nodes, Seq::empty(), id, nodes[id].children.len());
        let c = nodes[id].children[k];
        let j = choose|j: int| 0 <= j < below.len() && below[j] == c;
        assert((seq![id as usize] + below)[j + 1] == c);
    }
}

proof fn lemma_child_shows(nodes: Seq<NodeView>, id: int, n: nat, k: int)
    requires
        0 <= id < nodes.len() <= usize::MAX,
        is_arena(nodes),
        0 <= k < n <= nodes[id].children.len(),
    ensures
        shown_below(nodes, Seq::empty(), id, n).contains(nodes[id].children[k]),
    decreases n,
{
    let c = nodes[id].children[n - 1] as int;
    assert(id < c < nodes.len());
    let before = shown_below(nodes, Seq::empty(), id, (n - 1) as nat);
    let own = shown_at(nodes, Seq::empty(), c);
    let all = before + own;
    if k < n - 1 {
        lemma_child_shows(nodes, id, (n - 1) as nat, k);
        let j = choose|j: int| 0 <= j < before.len() && before[j] == nodes[id].children[k];
        assert(all[j] == nodes[id].children[k]);
    } else {
        assert(own[0] == c as usize);
        assert(all[before.len() as int] == c as usize);
    }
}

/// Activating a branch turns its own expansion round and changes no other row;
/// a leaf stays as it is.
pub proof fn activating_turns_one_row_round(b: Browse, i: int)
    requires
        b.valid(),
        b.cursor < b.visible.len(),
        0 <= i < b.nodes.len(),
    ensures
        ({
            let at = b.visible[b.cursor] as int;
            let after = b.activated();
            &&& b.nodes[at].children.len() == 0 ==> after == b
            &&& b.nodes[at].children.len() > 0 ==> {
                &&& after.nodes[at] == (NodeView {
                    expanded: !b.nodes[at].expanded,
                    ..b.nodes[at]
                })
                &&& i != at ==> after.nodes[i] == b.nodes[i]
                &&& after.nodes.len() == b.nodes.len()
                &&& after.roots == b.roots
                &&& after.filter == b.filter
                &&& after.visible == shown_roots(after.nodes, b.filter, b.roots, b.roots.len())
            }
            &&& b.nodes[at].expanded ==> !b.collapsed().nodes[at].expanded
            &&& !b.nodes[at].expanded ==> b.collapsed() == b
        }),
{
}

/// A new model is shown from its top, with the rows that show now.
pub proof fn a_new_model_is_shown_from_its_top(b: Browse, nodes: Seq<NodeView>)
    ensures
        b.with_model(nodes).nodes == nodes,
        b.with_model(nodes).cursor == 0,
        b.with_model(nodes).top == 0,
        b.with_model(nodes).roots == roots_of(nodes, nodes.len()),
        b.with_model(nodes).visible == shown_roots(
            nodes,
            b.filter,
            roots_of(nodes, nodes.len()),
            roots_of(nodes, nodes.len()).len(),
        ),
        b.with_model(nodes).filter == b.filter,
        b.with_model(nodes).auto == b.auto,
{
}

/// The letters do what the arrows do, and the cursor moves by one row within
/// what shows.
pub proof fn a_key_moves_by_a_row(b: Browse)
    requires
        b.valid(),
        !b.filtering,
    ensures
        b.after(KeyCode::Char('k')) == b.after(KeyCode::Up),
        b.after(KeyCode::Char('j')) == b.after(KeyCode::Down),
        b.after(KeyCode::Char('g')) == b.after(KeyCode::Home),
        b.after(KeyCode::Char('G')) == b.after(KeyCode::End),
        b.after(KeyCode::Char('l')) == b.after(KeyCode::Enter),
        b.after(KeyCode::Char(' ')) == b.after(KeyCode::Enter),
        b.after(KeyCode::Right) == b.after(KeyCode::Enter),
        b.after(KeyCode::Char('h')) == b.after(KeyCode::Left),
        b.after(KeyCode::Up).cursor == if b.cursor > 0 { b.cursor - 1 } else { 0 },
        b.after(KeyCode::Down).cursor == if b.cursor + 1 < b.visible.len() {
            b.cursor + 1
        } else {
            b.cursor
        },
        b.after(KeyCode::Home).cursor == 0,
        b.visible.len() > 0 ==> b.after(KeyCode::End).cursor == b.visible.len() - 1,
        b.after(KeyCode::Up).visible == b.visible && b.after(KeyCode::Down).visible == b.visible,
        b.after(KeyCode::Up).nodes == b.nodes && b.after(KeyCode::Down).nodes == b.nodes,
        b.after(KeyCode::Char('/')).filtering,
{
}

/// A filter grows by what is typed and shrinks by what is taken back, and what
/// shows follows it; closing it keeps it.
pub proof fn a_filter_is_typed(b: Browse, c: char)
    requires
        b.filtering,
    ensures
        b.after(KeyCode::Char(c)).filter == b.filter.push(c),
        b.after(KeyCode::Char(c)).visible == shown_roots(
            b.nodes,
            b.filter.push(c),
            b.roots,
            b.roots.len(),
        ),
        b.after(KeyCode::Char(c)).filtering,
        b.after(KeyCode::Char(c)).after(KeyCode::Backspace).filter == b.filter,
        b.filter.len() == 0 ==> b.after(KeyCode::Backspace).filter == b.filter,
        !b.after(KeyCode::Enter).filtering && b.after(KeyCode::Enter).filter == b.filter,
        !b.after(KeyCode::Esc).filtering && b.after(KeyCode::Esc).filter == b.filter,
        b.asks(KeyCode::Char(c), true).len() == 0,
{
    assert(b.filter.push(c).drop_last() =~= b.filter);
}

/// What is read is the row under the cursor, and only one that can be read;
/// what is written to or operated likewise.
pub proof fn a_row_is_used_as_it_can_be(b: Browse)
    requires
        b.valid(),
        !b.filtering,
        b.cursor < b.visible.len(),
    ensures
        ({
            let at = b.visible[b.cursor];
            let n = b.nodes[at as int];
            let read = Deed::Read { node: at, reference: n.reference, fc: n.fc };
            &&& n.readable ==> b.asks(KeyCode::Char('r'), true) == seq![read]
            &&& !n.readable ==> b.asks(KeyCode::Char('r'), true) == seq![
                Deed::Status("not a readable attribute"@, StatusKind::Failure),
            ]
            &&& n.readable && n.children.len() == 0 ==> b.asks(KeyCode::Enter, true) == seq![read]
            &&& n.children.len() > 0 ==> b.asks(KeyCode::Enter, true).len() == 0
            &&& n.writable ==> b.opens(KeyCode::Char('w')) is Some && b.asks(
                KeyCode::Char('w'),
                true,
            ).len() == 0
            &&& !n.writable ==> b.opens(KeyCode::Char('w')) is None && b.asks(
                KeyCode::Char('w'),
                true,
            ) == seq![Deed::Status("not a writable attribute"@, StatusKind::Failure)]
            &&& n.controllable ==> b.opens(KeyCode::Char('o')) == Some(
                control_overlay(n.reference),
            ) && b.asks(KeyCode::Char('o'), true).len() == 0
            &&& !n.controllable ==> b.opens(KeyCode::Char('o')) is None && b.asks(
                KeyCode::Char('o'),
                true,
            ) == seq![Deed::Status("not a controllable object"@, StatusKind::Failure)]
        }),
{
}

/// Turning the refreshing on asks for the row under the cursor at once, under a
/// number that no earlier request had; turning it off asks for nothing.
pub proof fn refreshing_starts_with_the_row_under_the_cursor(b: Browse)
    requires
        b.valid(),
        !b.filtering,
    ensures
        b.after(KeyCode::Char('a')).auto == !b.auto,
        b.auto ==> b.asks(KeyCode::Char('a'), true) == seq![
            Deed::Status("auto-refresh off"@, StatusKind::Info),
        ],
        !b.auto && b.cursor < b.visible.len() && b.nodes[b.visible[b.cursor] as int].readable
            ==> b.asks(KeyCode::Char('a'), true).last() == (Deed::Refresh {
            generation: b.after(KeyCode::Char('a')).generation,
            node: b.visible[b.cursor],
            reference: b.nodes[b.visible[b.cursor] as int].reference,
            fc: b.nodes[b.visible[b.cursor] as int].fc,
        }),
        !b.auto && b.cursor < b.visible.len() && !b.nodes[b.visible[b.cursor] as int].readable
            ==> b.asks(KeyCode::Char('a'), true).len() == 1,
        b.generation < u64::MAX ==> b.after(KeyCode::Char('a')).generation == b.generation + 1,
{
}

/// A row of the tree is moved in by two cells for each step down, marked as a
/// branch that is open or closed, and followed by its value where it has one.
pub proof fn a_row_shows_where_it_stands(n: NodeView, filtered: bool)
    requires
        n.depth >= 0,
    ensures
        ({
            let name = tree_inks(n, filtered)[0].text;
            &&& n.children.len() == 0 ==> name == repeated(' ', (2 * n.depth) as nat) + "  "@
                + n.label
            &&& n.children.len() > 0 && (n.expanded || filtered) ==> name == repeated(
                ' ',
                (2 * n.depth) as nat,
            ) + "▾ "@ + n.label
            &&& n.children.len() > 0 && !n.expanded && !filtered ==> name == repeated(
                ' ',
                (2 * n.depth) as nat,
            ) + "▸ "@ + n.label
            &&& n.value is None <==> tree_inks(n, filtered).len() == 1
            &&& n.value matches Some(v) ==> tree_inks(n, filtered)[2].text == clipped(v, 16) && (
            tree_inks(n, filtered)[2].paint == Paint::Error <==> n.value_is_err)
        }),
{
}

/// What can be done with a row is offered, and nothing else.
pub proof fn what_can_be_done_is_offered(n: NodeView)
    ensures
        n.readable ==> actions(n)[0] == "r read"@,
        actions(n).len() == (if n.readable { 1int } else { 0 }) + (if n.writable {
            1int
        } else {
            0
        }) + (if n.controllable { 1int } else { 0 }) + (if n.children.len() > 0 { 1int } else { 0 }),
        n.children.len() > 0 ==> actions(n).last() == "enter expand"@,
        !n.readable && n.writable ==> actions(n)[0] == "w write"@,
        n.readable && n.writable ==> actions(n)[1] == "w write"@,
        !n.readable && !n.writable && n.controllable ==> actions(n)[0] == "o operate"@,
{
}

/// The hint tells the filter while there is one.
pub proof fn the_hint_tells_the_filter(b: Browse)
    ensures
        b.filtering ==> hint_row(b).inks[0].text == "filter: "@ + b.filter
            + "▏  (enter/esc to finish)"@,
        !b.filtering && b.filter.len() > 0 ==> hint_row(b).inks[0].text == "filter: "@ + b.filter
            + "  (/ to edit)"@,
        !b.filtering && b.filter.len() == 0 ==> hint_row(b).inks[0].paint == Paint::Help,
{
}

/// The detail shows the reference of the row under the cursor and, of one that
/// can be read, its value.
pub proof fn the_detail_is_of_the_row_under_the_cursor(b: Browse)
    requires
        b.valid(),
        b.cursor < b.visible.len(),
    ensures
        ({
            let n = b.nodes[b.visible[b.cursor] as int];
            &&& detail_rows(b)[1].inks[0].text == "  "@ + n.reference
            &&& n.fc == Fc::Unset && n.readable ==> detail_rows(b)[4].inks[0].text == (
            match n.value {
                Some(v) => "  "@ + v,
                None => "  (press r to read)"@,
            })
            &&& n.fc != Fc::Unset ==> detail_rows(b)[3].inks[1].text == "  "@ + n.fc.text()
                + "    "@
            &&& n.fc != Fc::Unset && n.readable ==> detail_rows(b)[6].inks[0].text == (
            match n.value {
                Some(v) => "  "@ + v,
                None => "  (press r to read)"@,
            })
        }),
        detail_rows(Browse { visible: Seq::empty(), cursor: 0, ..b }).len() == 1,
{
}

} // verus!
