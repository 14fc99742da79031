//! How the screen is divided.

use vstd::prelude::*;

use super::Rect;

verus! {

/// The sum of heights.
pub open spec fn total(heights: Seq<u16>) -> int
    decreases heights.len(),
{
    if heights.len() == 0 {
        0
    } else {
        total(heights.drop_last()) + heights.last()
    }
}

/// Whether rows lie below one another from `y` on, with the given heights.
pub open spec fn stacked(rows: Seq<Rect>, heights: Seq<u16>, y: int) -> bool {
    &&& rows.len() == heights.len()
    &&& forall|i: int|
        0 <= i < rows.len() ==> (#[trigger] rows[i]).y == y + total(heights.take(i))
            && rows[i].height == heights[i]
}

/// The heights of rows in an area that has room for all of them.
pub open spec fn row_heights(height: int, head: Seq<u16>, tail: Seq<u16>) -> Seq<u16> {
    head + seq![(height - total(head) - total(tail)) as u16] + tail
}

/// Divides an area into rows: `ratatui::layout::Layout::vertical` and its
/// `split`. The rows are, from the top, one of each height in `head`, one that
/// is at least `least` high, and one of each height in `tail`. There is one
/// row for each of them, and each is as wide as the area and begins where it
/// begins. Where the area has room for all, they lie below one another with
/// the heights that were asked for, and the one in the middle takes the rest.
/// How the height is shared out where it is too little is left to the solver
/// behind the call, and nothing is said of it here.
#[verifier::external_body]
pub(crate) fn split_rows(area: Rect, head: &Vec<u16>, least: u16, tail: &Vec<u16>) -> (r: Vec<Rect>)
    ensures
        r@.len() == head@.len() + 1 + tail@.len(),
        forall|i: int|
            0 <= i < r@.len() ==> (#[trigger] r@[i]).x == area.x && r@[i].width == area.width,
        total(head@) + least + total(tail@) <= area.height && area.y + area.height <= u16::MAX
            && least <= i16::MAX ==> stacked(
            r@,
            row_heights(area.height as int, head@, tail@),
            area.y as int,
        ),
{
    let constraints = head
        .iter()
        .map(|n| ratatui::layout::Constraint::Length(*n))
        .chain([ratatui::layout::Constraint::Min(least)])
        .chain(tail.iter().map(|n| ratatui::layout::Constraint::Length(*n)));
    let whole = ratatui::layout::Rect { x: area.x, y: area.y, width: area.width, height: area.height };
    let parts = ratatui::layout::Layout::vertical(constraints).split(whole);
    parts.iter().map(|p| Rect { x: p.x, y: p.y, width: p.width, height: p.height }).collect()
}

/// Divides an area into two columns: `ratatui::layout::Layout::horizontal` and
/// its `split`. The left one asks for `left` cells and the right one for `least`
/// at least. Both are as high as the area and begin where it begins. Where the
/// area has room for both, they lie side by side, the left one with the width
/// that was asked for and the right one with the rest. How the width is shared
/// out where it is too little is left to the solver behind the call, and
/// nothing is said of it here.
#[verifier::external_body]
pub(crate) fn split_columns(area: Rect, left: u16, least: u16) -> (r: (Rect, Rect))
    ensures
        r.0.y == area.y && r.0.height == area.height,
        r.1.y == area.y && r.1.height == area.height,
        left + least <= area.width && area.x + area.width <= u16::MAX && least <= i16::MAX ==> {
            &&& r.0.x == area.x
            &&& r.0.width == left
            &&& r.1.x == area.x + left
            &&& r.1.width == area.width - left
        },
{
    let constraints = [
        ratatui::layout::Constraint::Length(left),
        ratatui::layout::Constraint::Min(least),
    ];
    let whole = ratatui::layout::Rect { x: area.x, y: area.y, width: area.width, height: area.height };
    let parts = ratatui::layout::Layout::horizontal(constraints).split(whole);
    let (l, r) = (parts[0], parts[1]);
    (
        Rect { x: l.x, y: l.y, width: l.width, height: l.height },
        Rect { x: r.x, y: r.y, width: r.width, height: r.height },
    )
}

/// The two parts of a panel: what it shows, and a line of hints below.
#[derive(Debug, Clone, Copy)]
pub struct PanelAreas {
    pub body: Rect,
    pub hint: Rect,
}

/// Whether the parts of a panel are as wide as its area, and lie where they
/// belong where there is room: one line of hints at the bottom, with the body
/// above it.
pub open spec fn is_divided(area: Rect, body: Rect, hint: Rect) -> bool {
    &&& body.x == area.x && body.width == area.width
    &&& hint.x == area.x && hint.width == area.width
    &&& 4 <= area.height && area.y + area.height <= u16::MAX ==> {
        &&& body.y == area.y
        &&& body.height == area.height - 1
        &&& hint.y == area.y + area.height - 1
        &&& hint.height == 1
    }
}

/// Divides the area of a panel into its body and the line of hints below it.
pub fn panel_areas(area: Rect) -> (p: PanelAreas)
    ensures
        is_divided(area, p.body, p.hint),
{
    let head: Vec<u16> = Vec::new();
    let mut tail: Vec<u16> = Vec::new();
    tail.push(1);
    let rows = split_rows(area, &head, 3, &tail);
    proof {
        reveal_with_fuel(total, 6);
        let heights = row_heights(area.height as int, head@, tail@);
        assert(tail@ =~= seq![1u16]);
        assert(heights =~= seq![(area.height - 1) as u16, 1u16]);
        assert(heights.take(0) =~= Seq::<u16>::empty());
        assert(heights.take(1) =~= seq![(area.height - 1) as u16]);
        assert(rows@[0].x == area.x && rows@[1].x == area.x);
    }
    PanelAreas { body: rows[0], hint: rows[1] }
}

/// The two panes of a panel.
#[derive(Debug, Clone, Copy)]
pub struct PaneAreas {
    pub left: Rect,
    pub right: Rect,
}

/// Whether two panes are as high as the body of a panel, and lie side by side
/// where there is room: the left one with the given width, and the right one
/// with the rest.
pub open spec fn is_paned(body: Rect, wanted: int, left: Rect, right: Rect) -> bool {
    &&& left.y == body.y && left.height == body.height
    &&& right.y == body.y && right.height == body.height
    &&& wanted + 10 <= body.width && body.x + body.width <= u16::MAX ==> {
        &&& left.x == body.x
        &&& left.width == wanted
        &&& right.x == body.x + wanted
        &&& right.width == body.width - wanted
    }
}

/// Divides the body of a panel into a left pane of the given width and the
/// detail pane beside it.
pub fn pane_areas(body: Rect, left: u16) -> (p: PaneAreas)
    ensures
        is_paned(body, left as int, p.left, p.right),
{
    let (left, right) = split_columns(body, left, 10);
    PaneAreas { left, right }
}

/// The rows of the whole screen.
#[derive(Debug, Clone, Copy)]
pub struct FrameAreas {
    pub header: Rect,
    pub tabs: Rect,
    pub content: Rect,
    pub status: Rect,
    pub help: Rect,
}

/// Whether the parts of a screen with room for all lie where they belong: one
/// line each for the header and the tab bar at the top, and for the status and
/// the hints at the bottom, with the content in between.
pub open spec fn in_place(f: FrameAreas, area: Rect) -> bool {
    &&& f.header.y == area.y && f.header.height == 1
    &&& f.tabs.y == area.y + 1 && f.tabs.height == 1
    &&& f.content.y == area.y + 2 && f.content.height == area.height - 4
    &&& f.status.y == area.y + area.height - 2 && f.status.height == 1
    &&& f.help.y == area.y + area.height - 1 && f.help.height == 1
}

/// Divides the screen into the header, the tab bar, the content, the status
/// line and the line of hints.
pub fn frame_areas(area: Rect) -> (f: FrameAreas)
    ensures
        f.header.x == area.x && f.header.width == area.width,
        f.tabs.x == area.x && f.tabs.width == area.width,
        f.content.x == area.x && f.content.width == area.width,
        f.status.x == area.x && f.status.width == area.width,
        f.help.x == area.x && f.help.width == area.width,
        7 <= area.height && area.y + area.height <= u16::MAX ==> in_place(f, area),
{
    let mut head: Vec<u16> = Vec::new();
    head.push(1);
    head.push(1);
    let mut tail: Vec<u16> = Vec::new();
    tail.push(1);
    tail.push(1);
    let rows = split_rows(area, &head, 3, &tail);
    proof {
        reveal_with_fuel(total, 6);
        let h = (area.height - 4) as u16;
        let heights = row_heights(area.height as int, head@, tail@);
        assert(head@ =~= seq![1u16, 1u16]);
        assert(tail@ =~= seq![1u16, 1u16]);
        assert(head@.drop_last() =~= seq![1u16]);
        assert(heights =~= seq![1u16, 1u16, h, 1u16, 1u16]);
        assert(heights.take(0) =~= Seq::<u16>::empty());
        assert(heights.take(1).drop_last() =~= heights.take(0));
        assert(heights.take(2).drop_last() =~= heights.take(1));
        assert(heights.take(3).drop_last() =~= heights.take(2));
        assert(heights.take(4).drop_last() =~= heights.take(3));
        assert(rows@[0].x == area.x && rows@[1].x == area.x && rows@[2].x == area.x && rows@[3].x
            == area.x && rows@[4].x == area.x);
    }
    FrameAreas { header: rows[0], tabs: rows[1], content: rows[2], status: rows[3], help: rows[4] }
}

/// What is inside the frame around an area: one cell less on each side.
pub open spec fn inside(area: Rect) -> Rect {
    let right = if area.x + area.width > u16::MAX {
        u16::MAX as int
    } else {
        area.x + area.width
    };
    let bottom = if area.y + area.height > u16::MAX {
        u16::MAX as int
    } else {
        area.y + area.height
    };
    Rect {
        x: (if area.x + 1 < right {
            area.x + 1
        } else {
            right
        }) as u16,
        y: (if area.y + 1 < bottom {
            area.y + 1
        } else {
            bottom
        }) as u16,
        width: (if area.width < 2 {
            0
        } else {
            area.width - 2
        }) as u16,
        height: (if area.height < 2 {
            0
        } else {
            area.height - 2
        }) as u16,
    }
}

/// Returns what is inside the frame around an area.
pub fn inner(area: Rect) -> (r: Rect)
    ensures
        r == inside(area),
{
    let right: u16 = area.x.saturating_add(area.width);
    let bottom: u16 = area.y.saturating_add(area.height);
    Rect {
        x: if area.x < right {
            area.x + 1
        } else {
            right
        },
        y: if area.y < bottom {
            area.y + 1
        } else {
            bottom
        },
        width: area.width.saturating_sub(2),
        height: area.height.saturating_sub(2),
    }
}

/// Heights add up, one after another.
pub proof fn heights_add_up(a: Seq<u16>, h: u16)
    ensures
        total(Seq::empty()) == 0,
        total(a.push(h)) == total(a) + h,
{
    assert(a.push(h).drop_last() =~= a);
}

/// The frame around an area takes one cell on each side.
pub proof fn a_frame_takes_one_cell_on_each_side(area: Rect)
    requires
        area.x + area.width <= u16::MAX,
        area.y + area.height <= u16::MAX,
    ensures
        area.width >= 2 ==> inside(area).x == area.x + 1 && inside(area).width + 2 == area.width,
        area.height >= 2 ==> inside(area).y == area.y + 1 && inside(area).height + 2
            == area.height,
        area.width < 2 ==> inside(area).width == 0,
        area.height < 2 ==> inside(area).height == 0,
        inside(area).x + inside(area).width <= area.x + area.width,
        inside(area).y + inside(area).height <= area.y + area.height,
{
}

/// The parts of a screen leave no gap and do not overlap: each begins where the
/// one above it ends, the first at the top, and the last ends at the bottom.
pub proof fn the_parts_fill_the_screen(f: FrameAreas, area: Rect)
    requires
        in_place(f, area),
    ensures
        f.header.y == area.y,
        f.tabs.y == f.header.y + f.header.height,
        f.content.y == f.tabs.y + f.tabs.height,
        f.status.y == f.content.y + f.content.height,
        f.help.y == f.status.y + f.status.height,
        f.help.y + f.help.height == area.y + area.height,
        f.header.height == 1 && f.tabs.height == 1 && f.status.height == 1 && f.help.height == 1,
{
}

/// The parts of a panel leave no gap and do not overlap: the hints have the last
/// line, and the two panes stand side by side.
pub proof fn the_parts_fill_the_panel(
    area: Rect,
    body: Rect,
    hint: Rect,
    wanted: int,
    left: Rect,
    right: Rect,
)
    requires
        is_divided(area, body, hint),
        is_paned(body, wanted, left, right),
        4 <= area.height,
        area.y + area.height <= u16::MAX,
        area.x + area.width <= u16::MAX,
        0 <= wanted,
        wanted + 10 <= area.width,
    ensures
        body.y == area.y,
        hint.y == body.y + body.height,
        hint.height == 1,
        hint.y + hint.height == area.y + area.height,
        left.x == area.x,
        left.width == wanted,
        right.x == left.x + left.width,
        right.x + right.width == area.x + area.width,
        left.height == body.height && right.height == body.height,
        left.y == area.y && right.y == area.y,
{
}

} // verus!
