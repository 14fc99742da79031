//! Small reusable pieces: a scrolling selection list and a text field.
//!
//! Both types hold only the state that has to survive between frames: where
//! the cursor is and how far the view has scrolled.

use vstd::prelude::*;

use super::layout::{inner, inside};
use super::{
    ink, inks, push_line, push_span, push_spans, row, rows_of, shows, Ink, KeyCode, KeyEvent, Line,
    Paint, Pane, Rect, Row, Span,
};
use crate::model::ObjectReference;
use crate::notation::{push_repeated, repeated};
use crate::text::{chars, push_char, push_str, string_between};

verus! {

/// The least of two numbers.
pub open spec fn least(a: int, b: int) -> int {
    if a < b {
        a
    } else {
        b
    }
}

/// The greater of two numbers.
pub open spec fn greatest(a: int, b: int) -> int {
    if a > b {
        a
    } else {
        b
    }
}

/// The width of the left pane in a frame `width` wide.
pub open spec fn left_part(width: int, min: int) -> int {
    let max = greatest(width - 20, 1);
    let preferred = width * 2 / 5;
    let floor = least(min, max);
    if preferred < floor {
        floor
    } else if preferred > max {
        max
    } else {
        preferred
    }
}

/// The width of the left pane in a two-pane panel.
///
/// Two fifths of the frame, widened to `min` columns where there is room, but
/// the detail pane always keeps twenty: on a narrow terminal a reference list
/// with nothing beside it is of no use, so the detail pane wins.
pub fn left_width(width: u16, min: u16) -> (w: u16)
    ensures
        w == left_part(width as int, min as int),
{
    let room: u16 = width.saturating_sub(20);
    let max: u16 = if room < 1 {
        1
    } else {
        room
    };
    // Wider numbers, because a wide frame doubled would not fit.
    let preferred: u16 = (width as u32 * 2 / 5) as u16;
    let floor: u16 = if min < max {
        min
    } else {
        max
    };
    if preferred < floor {
        floor
    } else if preferred > max {
        max
    } else {
        preferred
    }
}

/// The detail pane keeps twenty columns of any frame that has them to spare.
/// The left pane is at least as wide as asked for where there is room, and two
/// fifths of the frame where that is enough for both.
pub proof fn the_detail_pane_keeps_its_room(width: int, min: int)
    requires
        0 <= width,
        0 < min,
    ensures
        1 <= left_part(width, min),
        width > 20 ==> left_part(width, min) <= width - 20,
        min <= width - 20 ==> min <= left_part(width, min),
        min <= width * 2 / 5 <= width - 20 ==> left_part(width, min) == width * 2 / 5,
{
}

/// A vertical selection list with scrolling.
#[derive(Debug, Clone, Copy, PartialEq, Eq, Structural)]
pub struct ListBox {
    pub cursor: usize,
    pub top: usize,
}

impl Default for ListBox {
    fn default() -> (l: ListBox)
        ensures
            l == ListBox::start(),
    {
        ListBox { cursor: 0, top: 0 }
    }
}

impl ListBox {
    /// A list at its top.
    pub open spec fn start() -> ListBox {
        ListBox { cursor: 0, top: 0 }
    }

    /// The list with its cursor moved by `delta`, kept within `count`.
    pub open spec fn moved(self, delta: int, count: int) -> ListBox {
        let next = self.cursor + delta;
        let cursor = if count == 0 || next < 0 {
            0
        } else {
            least(next, count - 1)
        };
        ListBox { cursor: cursor as usize, ..self }
    }

    /// The list with its cursor on the first item.
    pub open spec fn at_first(self) -> ListBox {
        ListBox { cursor: 0, ..self }
    }

    /// The list with its cursor on the last item.
    pub open spec fn at_last(self, count: int) -> ListBox {
        ListBox { cursor: greatest(count - 1, 0) as usize, ..self }
    }

    /// Whether a row of the viewport shows an item.
    pub open spec fn hits(self, row: int, count: int) -> bool {
        self.top + row < count
    }

    /// The list after a click on a row of the viewport.
    pub open spec fn clicked(self, row: int, count: int) -> ListBox {
        if self.hits(row, count) {
            ListBox { cursor: (self.top + row) as usize, ..self }
        } else {
            self
        }
    }

    /// The list scrolled so that its cursor shows in a viewport.
    pub open spec fn scrolled(self, count: int, height: int) -> ListBox {
        if count == 0 || height == 0 {
            ListBox { top: 0, ..self }
        } else {
            let cursor = least(self.cursor as int, count - 1);
            let near = if cursor < self.top {
                cursor
            } else if cursor >= self.top + height {
                cursor + 1 - height
            } else {
                self.top as int
            };
            ListBox { cursor: cursor as usize, top: least(near, greatest(count - height, 0)) as usize }
        }
    }

    /// Moves the cursor by `delta`, clamped to `count`.
    pub fn move_by(&mut self, delta: isize, count: usize)
        ensures
            *final(self) == old(self).moved(delta as int, count as int),
    {
        if count == 0 {
            self.cursor = 0;
        } else if delta < 0 {
            // The magnitude of the step, which always fits.
            let back: usize = (-(delta + 1)) as usize;
            self.cursor = if self.cursor > back {
                self.cursor - back - 1
            } else {
                0
            };
            if self.cursor > count - 1 {
                self.cursor = count - 1;
            }
        } else {
            let ahead: usize = delta as usize;
            self.cursor = if self.cursor < count && ahead < count - self.cursor {
                self.cursor + ahead
            } else {
                count - 1
            };
        }
    }

    pub fn first(&mut self)
        ensures
            *final(self) == old(self).at_first(),
    {
        self.cursor = 0;
    }

    pub fn last(&mut self, count: usize)
        ensures
            *final(self) == old(self).at_last(count as int),
    {
        self.cursor = count.saturating_sub(1);
    }

    /// Maps a row within the list's viewport to an index, selecting it.
    ///
    /// Returns whether a row was actually hit; a click below the last item
    /// should leave the selection alone rather than jumping to the end.
    pub fn click_row(&mut self, row: usize, count: usize) -> (hit: bool)
        ensures
            hit == old(self).hits(row as int, count as int),
            *final(self) == old(self).clicked(row as int, count as int),
    {
        if self.top < count && row < count - self.top {
            self.cursor = self.top + row;
            true
        } else {
            false
        }
    }

    /// Scrolls so the cursor is visible in a viewport `height` rows tall.
    pub fn scroll_into_view(&mut self, count: usize, height: usize)
        ensures
            *final(self) == old(self).scrolled(count as int, height as int),
    {
        if count == 0 || height == 0 {
            self.top = 0;
            return;
        }
        if self.cursor > count - 1 {
            self.cursor = count - 1;
        }
        if self.cursor < self.top {
            self.top = self.cursor;
        } else if self.cursor - self.top >= height {
            self.top = self.cursor - height + 1;
        }
        // A shrinking list must not leave the view past its end.
        let limit: usize = count.saturating_sub(height);
        if self.top > limit {
            self.top = limit;
        }
    }

    /// Whether a key moves the cursor.
    pub open spec fn steers(key: KeyCode) -> bool {
        match key {
            KeyCode::Up | KeyCode::Down | KeyCode::Home | KeyCode::End => true,
            KeyCode::Char(c) => c == 'k' || c == 'j' || c == 'g' || c == 'G',
            _ => false,
        }
    }

    /// The list after a key that moves the cursor.
    pub open spec fn steered(self, key: KeyCode, count: int) -> ListBox {
        match key {
            KeyCode::Up => self.moved(-1, count),
            KeyCode::Down => self.moved(1, count),
            KeyCode::Home => self.at_first(),
            KeyCode::End => self.at_last(count),
            KeyCode::Char(c) => if c == 'k' {
                self.moved(-1, count)
            } else if c == 'j' {
                self.moved(1, count)
            } else if c == 'g' {
                self.at_first()
            } else if c == 'G' {
                self.at_last(count)
            } else {
                self
            },
            _ => self,
        }
    }

    /// Moves the cursor where a key says so, and returns whether it does.
    pub fn steer(&mut self, key: KeyEvent, count: usize) -> (moved: bool)
        ensures
            moved == ListBox::steers(key.code),
            *final(self) == old(self).steered(key.code, count as int),
    {
        match key.code {
            KeyCode::Up => self.move_by(-1, count),
            KeyCode::Down => self.move_by(1, count),
            KeyCode::Home => self.first(),
            KeyCode::End => self.last(count),
            KeyCode::Char(c) => {
                if c == 'k' {
                    self.move_by(-1, count);
                } else if c == 'j' {
                    self.move_by(1, count);
                } else if c == 'g' {
                    self.first();
                } else if c == 'G' {
                    self.last(count);
                } else {
                    return false;
                }
            },
            _ => {
                return false;
            },
        }
        true
    }

    /// The list after a turn of the wheel.
    pub open spec fn wheeled(self, up: bool, count: int) -> ListBox {
        if up {
            self.moved(-1, count)
        } else {
            self.moved(1, count)
        }
    }

    /// Moves the cursor by a turn of the wheel.
    pub fn wheel(&mut self, up: bool, count: usize)
        ensures
            *final(self) == old(self).wheeled(up, count as int),
    {
        if up {
            self.move_by(-1, count);
        } else {
            self.move_by(1, count);
        }
    }

    /// The first item that a viewport does not show any more.
    pub open spec fn end(self, count: int, height: int) -> int {
        least(self.top + height, count)
    }

    /// Scrolls so the cursor is visible, and returns the range of items that
    /// show.
    pub fn window(&mut self, count: usize, height: usize) -> (r: (usize, usize))
        ensures
            *final(self) == old(self).scrolled(count as int, height as int),
            r.0 == final(self).top,
            r.1 == final(self).end(count as int, height as int),
            r.0 <= r.1 <= count,
    {
        self.scroll_into_view(count, height);
        let end: usize = if count - self.top < height {
            count
        } else {
            self.top + height
        };
        (self.top, end)
    }
}

/// Where the rows of a list come from.
pub trait RowSource {
    /// How many rows there are.
    spec fn rows(&self) -> nat;

    /// What a row shows.
    spec fn inks_at(&self, i: int) -> Seq<Ink>;

    fn count(&self) -> (n: usize)
        ensures
            n == self.rows(),
    ;

    fn spans(&self, i: usize) -> (v: Vec<Span>)
        requires
            i < self.rows(),
        ensures
            inks(v@) == self.inks_at(i as int),
    ;
}

impl ListBox {
    /// The list after it was shown in a viewport; one without any height leaves
    /// it alone.
    pub open spec fn shown(self, count: int, height: int) -> ListBox {
        if height == 0 {
            self
        } else {
            self.scrolled(count, height)
        }
    }

    /// The rows that a viewport shows of a list, once it was scrolled.
    pub open spec fn visible<R: RowSource>(self, source: R, height: int) -> Seq<Row> {
        let count = source.rows() as int;
        if height == 0 {
            Seq::empty()
        } else if count == 0 {
            seq![row("(nothing here)"@, Paint::Muted)]
        } else {
            Seq::new(
                (self.end(count, height) - self.top) as nat,
                |i: int|
                    Row {
                        inks: source.inks_at(self.top + i),
                        selected: self.top + i == self.cursor,
                    },
            )
        }
    }

    /// Renders the rows of `source` inside `area`.
    pub fn render<R: RowSource>(&mut self, area: Rect, title: &str, source: &R) -> (p: Pane)
        ensures
            *final(self) == old(self).shown(source.rows() as int, inside(area).height as int),
            shows(p, area, title@, final(self).visible(*source, inside(area).height as int)),
    {
        let height: usize = inner(area).height as usize;
        let mut lines: Vec<Line> = Vec::new();
        assert(rows_of(lines@) =~= Seq::<Row>::empty());
        if height > 0 {
            let count: usize = source.count();
            let (top, end) = self.window(count, height);
            if count == 0 {
                push_line(&mut lines, "(nothing here)", Paint::Muted);
                assert(rows_of(lines@) =~= seq![row("(nothing here)"@, Paint::Muted)]);
            } else {
                let mut i: usize = top;
                while i < end
                    invariant
                        self.top == top <= i <= end <= count == source.rows(),
                        rows_of(lines@).len() == i - top,
                        forall|j: int|
                            0 <= j < i - top ==> (#[trigger] rows_of(lines@)[j]) == (Row {
                                inks: source.inks_at(top + j),
                                selected: top + j == self.cursor,
                            }),
                    decreases end - i,
                {
                    push_spans(&mut lines, source.spans(i), i == self.cursor);
                    i = i + 1;
                }
                assert(rows_of(lines@) =~= self.visible(*source, height as int));
            }
        }
        Pane { area, title: title.to_owned(), lines }
    }
}

/// Rows of bare references.
pub struct RefRows<'a> {
    pub refs: &'a Vec<ObjectReference>,
}

impl<'a> RowSource for RefRows<'a> {
    open spec fn rows(&self) -> nat {
        self.refs@.len()
    }

    open spec fn inks_at(&self, i: int) -> Seq<Ink> {
        seq![ink(self.refs@[i]@, Paint::Plain)]
    }

    fn count(&self) -> usize {
        self.refs.len()
    }

    fn spans(&self, i: usize) -> Vec<Span> {
        let mut spans: Vec<Span> = Vec::new();
        assert(inks(spans@) =~= Seq::<Ink>::empty());
        push_span(&mut spans, self.refs[i].as_str(), Paint::Plain);
        assert(inks(spans@) =~= self.inks_at(i as int));
        spans
    }
}

/// The cursor stays inside the list, wherever it is moved.
pub proof fn the_cursor_stays_inside(l: ListBox, delta: int, row: int, count: int, height: int)
    requires
        0 < count <= usize::MAX,
        0 <= row,
        0 <= height,
    ensures
        l.moved(delta, count).cursor < count,
        l.at_first().cursor < count,
        l.at_last(count).cursor < count,
        l.cursor < count ==> l.clicked(row, count).cursor < count,
        0 < height ==> l.scrolled(count, height).cursor < count,
{
}

/// After scrolling, the cursor shows, and the view does not reach past the end
/// of the list any further than a short list makes it.
pub proof fn the_view_follows_the_cursor(l: ListBox, count: int, height: int)
    requires
        0 < count <= usize::MAX,
        0 < height <= usize::MAX,
    ensures
        ({
            let s = l.scrolled(count, height);
            &&& s.top <= s.cursor < s.top + height
            &&& s.top == 0 || s.top + height <= count
        }),
{
}

/// A single-line text field.
#[derive(Debug)]
pub struct TextField {
    pub value: String,
    /// Where the next character goes, counted in characters.
    pub cursor: usize,
    pub masked: bool,
    pub placeholder: String,
}

/// What a text field holds.
pub struct Field {
    pub value: Seq<char>,
    pub cursor: int,
    pub masked: bool,
    pub placeholder: Seq<char>,
}

impl View for TextField {
    type V = Field;

    open spec fn view(&self) -> Field {
        Field {
            value: self.value@,
            cursor: self.cursor as int,
            masked: self.masked,
            placeholder: self.placeholder@,
        }
    }
}

/// A field that holds a text, with the cursor behind it.
pub open spec fn field_of(value: Seq<char>) -> Field {
    Field { value, cursor: value.len() as int, masked: false, placeholder: Seq::empty() }
}

impl Field {
    /// Whether the cursor is within the text.
    pub open spec fn valid(self) -> bool {
        0 <= self.cursor <= self.value.len()
    }

    /// Whether the field uses a key.
    pub open spec fn takes(self, key: KeyCode) -> bool {
        match key {
            KeyCode::Char(_) => true,
            KeyCode::Backspace => self.cursor > 0,
            KeyCode::Delete => self.cursor < self.value.len(),
            KeyCode::Left => self.cursor > 0,
            KeyCode::Right => self.cursor < self.value.len(),
            KeyCode::Home => true,
            KeyCode::End => true,
            _ => false,
        }
    }

    /// The field after a key.
    pub open spec fn after(self, key: KeyCode) -> Field {
        if !self.takes(key) {
            self
        } else {
            match key {
                KeyCode::Char(c) => Field {
                    value: self.value.insert(self.cursor, c),
                    cursor: self.cursor + 1,
                    ..self
                },
                KeyCode::Backspace => Field {
                    value: self.value.remove(self.cursor - 1),
                    cursor: self.cursor - 1,
                    ..self
                },
                KeyCode::Delete => Field { value: self.value.remove(self.cursor), ..self },
                KeyCode::Left => Field { cursor: self.cursor - 1, ..self },
                KeyCode::Right => Field { cursor: self.cursor + 1, ..self },
                KeyCode::Home => Field { cursor: 0, ..self },
                KeyCode::End => Field { cursor: self.value.len() as int, ..self },
                _ => self,
            }
        }
    }

    /// The row that shows the field.
    pub open spec fn shown(self, focused: bool) -> Row {
        if self.value.len() == 0 && !focused {
            super::row("  "@ + self.placeholder, Paint::Help)
        } else {
            let visible = if self.masked {
                repeated('•', self.value.len())
            } else {
                self.value
            };
            if focused {
                super::row(
                    "  "@ + visible.take(self.cursor).push('▏') + visible.skip(self.cursor),
                    Paint::Accent,
                )
            } else {
                super::row("  "@ + visible, Paint::Plain)
            }
        }
    }
}

impl TextField {
    pub fn new(value: &str) -> (f: TextField)
        ensures
            f@ == field_of(value@),
    {
        let n: usize = chars(value).len();
        TextField {
            value: value.to_owned(),
            cursor: n,
            masked: false,
            placeholder: String::new(),
        }
    }

    pub fn with_placeholder(self, s: &str) -> (f: TextField)
        ensures
            f@ == (Field { placeholder: s@, ..self@ }),
    {
        TextField {
            value: self.value,
            cursor: self.cursor,
            masked: self.masked,
            placeholder: s.to_owned(),
        }
    }

    pub fn masked(self) -> (f: TextField)
        ensures
            f@ == (Field { masked: true, ..self@ }),
    {
        TextField {
            value: self.value,
            cursor: self.cursor,
            masked: true,
            placeholder: self.placeholder,
        }
    }

    /// Replaces the contents, leaving the cursor at the end.
    pub fn set(&mut self, value: &str)
        ensures
            final(self)@ == (Field { value: value@, cursor: value@.len() as int, ..old(self)@ }),
    {
        self.cursor = chars(value).len();
        self.value = value.to_owned();
    }

    /// Handles a key, returning whether it was consumed.
    ///
    /// Keys the field does not use are handed back so the surrounding form can
    /// act on them; otherwise a dialog could never be dismissed while a field
    /// has focus.
    pub fn on_key(&mut self, key: KeyEvent) -> (taken: bool)
        requires
            old(self)@.valid(),
        ensures
            taken == old(self)@.takes(key.code),
            final(self)@ == old(self)@.after(key.code),
            final(self)@.valid(),
    {
        let mut cs = chars(self.value.as_str());
        match key.code {
            KeyCode::Char(c) => {
                cs.insert(self.cursor, c);
                self.value = string_between(cs.as_slice(), 0, cs.len());
                assert(self.value@ =~= old(self)@.value.insert(self.cursor as int, c));
                self.cursor = self.cursor + 1;
                true
            },
            KeyCode::Backspace => {
                if self.cursor == 0 {
                    return false;
                }
                let c: char = cs.remove(self.cursor - 1);
                self.value = string_between(cs.as_slice(), 0, cs.len());
                assert(self.value@ =~= old(self)@.value.remove(self.cursor - 1));
                self.cursor = self.cursor - 1;
                true
            },
            KeyCode::Delete => {
                if self.cursor >= cs.len() {
                    return false;
                }
                let c: char = cs.remove(self.cursor);
                self.value = string_between(cs.as_slice(), 0, cs.len());
                assert(self.value@ =~= old(self)@.value.remove(self.cursor as int));
                true
            },
            KeyCode::Left => {
                if self.cursor == 0 {
                    return false;
                }
                self.cursor = self.cursor - 1;
                true
            },
            KeyCode::Right => {
                if self.cursor >= cs.len() {
                    return false;
                }
                self.cursor = self.cursor + 1;
                true
            },
            KeyCode::Home => {
                self.cursor = 0;
                true
            },
            KeyCode::End => {
                self.cursor = cs.len();
                true
            },
            _ => false,
        }
    }

    /// Renders the field as a line, showing a cursor when focused.
    pub fn line(&self, focused: bool) -> (l: Line)
        requires
            self@.valid(),
        ensures
            l@ == self@.shown(focused),
    {
        let mut text = "  ".to_owned();
        if self.value.as_str().is_empty() && !focused {
            push_str(&mut text, self.placeholder.as_str());
            return Line::styled(text.as_str(), Paint::Help);
        }
        let mut shown = String::new();
        if self.masked {
            let n: usize = chars(self.value.as_str()).len();
            push_repeated(&mut shown, '•', n);
            assert(shown@ =~= repeated('•', self@.value.len()));
        } else {
            shown = self.value.clone();
        }
        if focused {
            // A bar at the insertion point, so the caret is visible without
            // the terminal's own cursor having to be moved.
            let cs = chars(shown.as_str());
            push_str(&mut text, string_between(cs.as_slice(), 0, self.cursor).as_str());
            push_char(&mut text, '▏');
            push_str(&mut text, string_between(cs.as_slice(), self.cursor, cs.len()).as_str());
            proof {
                assert(shown@.subrange(0, self.cursor as int) =~= shown@.take(self.cursor as int));
                assert(shown@.subrange(self.cursor as int, shown@.len() as int) =~= shown@.skip(
                    self.cursor as int,
                ));
                assert(text@ =~= "  "@ + shown@.take(self.cursor as int).push('▏') + shown@.skip(
                    self.cursor as int,
                ));
            }
            Line::styled(text.as_str(), Paint::Accent)
        } else {
            push_str(&mut text, shown.as_str());
            Line::styled(text.as_str(), Paint::Plain)
        }
    }
}

/// A masked field shows as many bullets as it has characters, and none of the
/// characters themselves.
pub proof fn a_masked_field_shows_nothing_of_its_value(f: Field, g: Field, focused: bool)
    requires
        f.masked,
        g.masked,
        f.value.len() == g.value.len(),
        f.cursor == g.cursor,
        f.placeholder == g.placeholder,
    ensures
        f.shown(focused) == g.shown(focused),
{
}

/// A character that is typed and then taken back leaves the field as it was.
pub proof fn backspace_takes_back_a_character(f: Field, c: char)
    requires
        f.valid(),
    ensures
        f.after(KeyCode::Char(c)).after(KeyCode::Backspace) == f,
{
    assert(f.value.insert(f.cursor, c).remove(f.cursor) =~= f.value);
}

/// A text cut to a number of columns, with a mark where something was cut.
pub open spec fn clipped(s: Seq<char>, width: int) -> Seq<char> {
    if s.len() <= width {
        s
    } else if width <= 1 {
        Seq::empty()
    } else {
        s.take(width - 1).push('…')
    }
}

/// Truncates a string to `width` display columns, with an ellipsis.
pub fn clip(s: &str, width: usize) -> (r: String)
    ensures
        r@ == clipped(s@, width as int),
{
    let cs = chars(s);
    if cs.len() <= width {
        return s.to_owned();
    }
    if width <= 1 {
        return String::new();
    }
    let mut out = string_between(cs.as_slice(), 0, width - 1);
    push_char(&mut out, '…');
    assert(s@.subrange(0, width - 1) =~= s@.take(width - 1));
    out
}

/// A rectangle of a size in the middle of another.
pub open spec fn middle(area: Rect, width: int, height: int) -> Rect {
    let w = least(width, area.width as int);
    let h = least(height, area.height as int);
    Rect {
        x: (area.x + (area.width - w) / 2) as u16,
        y: (area.y + (area.height - h) / 2) as u16,
        width: w as u16,
        height: h as u16,
    }
}

/// Centres a rectangle of the given size inside `area`.
pub fn centred(area: Rect, width: u16, height: u16) -> (r: Rect)
    requires
        area.x + area.width <= u16::MAX,
        area.y + area.height <= u16::MAX,
    ensures
        r == middle(area, width as int, height as int),
{
    let w: u16 = if width < area.width {
        width
    } else {
        area.width
    };
    let h: u16 = if height < area.height {
        height
    } else {
        area.height
    };
    Rect {
        x: area.x + (area.width - w) / 2,
        y: area.y + (area.height - h) / 2,
        width: w,
        height: h,
    }
}

/// A centred rectangle lies inside the area that it is given.
pub proof fn centring_fits_inside(area: Rect, width: int, height: int)
    requires
        area.x + area.width <= u16::MAX,
        area.y + area.height <= u16::MAX,
        0 <= width,
        0 <= height,
    ensures
        ({
            let r = middle(area, width, height);
            &&& area.x <= r.x
            &&& r.x + r.width <= area.x + area.width
            &&& area.y <= r.y
            &&& r.y + r.height <= area.y + area.height
        }),
{
}

/// The left pane has two fifths of the width wherever that leaves both panes
/// their room, and its own least width where only that fits.
pub proof fn the_left_pane_has_two_fifths(width: int, min: int)
    requires
        0 <= width,
        0 <= min,
    ensures
        min <= width * 2 / 5 <= width - 20 ==> left_part(width, min) == width * 2 / 5,
        width * 2 / 5 < min <= width - 20 ==> left_part(width, min) == min,
        left_part(width, min) >= 1 || min == 0,
{
}

/// A step moves the cursor by as much as it says, and stops at the ends; the
/// view stays where it is until the list is shown.
pub proof fn a_step_stops_at_the_ends(l: ListBox, delta: int, count: int)
    requires
        0 < count <= usize::MAX,
    ensures
        l.moved(delta, count).top == l.top,
        0 <= l.cursor + delta < count ==> l.moved(delta, count).cursor == l.cursor + delta,
        l.cursor + delta < 0 ==> l.moved(delta, count).cursor == 0,
        l.cursor + delta >= count ==> l.moved(delta, count).cursor == count - 1,
        l.moved(delta, 0).cursor == 0,
{
}

/// The keys move as they read: one up, one down, to the first and to the last,
/// the letters as the arrows; the wheel moves by one; and nothing else moves.
pub proof fn a_key_moves_as_it_reads(l: ListBox, key: KeyCode, count: int)
    requires
        0 < count <= usize::MAX,
        l.cursor < count,
    ensures
        key == KeyCode::Up || key == KeyCode::Char('k') ==> l.steered(key, count).cursor == if l.cursor
            > 0 {
            l.cursor - 1
        } else {
            0
        },
        key == KeyCode::Down || key == KeyCode::Char('j') ==> l.steered(key, count).cursor == if l.cursor
            + 1 < count {
            l.cursor + 1
        } else {
            l.cursor as int
        },
        key == KeyCode::Home || key == KeyCode::Char('g') ==> l.steered(key, count).cursor == 0,
        key == KeyCode::End || key == KeyCode::Char('G') ==> l.steered(key, count).cursor == count
            - 1,
        l.steered(key, count) != l ==> ListBox::steers(key),
        !ListBox::steers(key) ==> l.steered(key, count) == l,
        l.steered(key, count).top == l.top,
        l.wheeled(true, count) == l.steered(KeyCode::Up, count),
        l.wheeled(false, count) == l.steered(KeyCode::Down, count),
{
}

/// A click on a row that shows an item puts the cursor on that item, and any
/// other does nothing.
pub proof fn a_click_picks_what_it_hits(l: ListBox, row: int, count: int)
    requires
        0 <= row,
        0 <= count <= usize::MAX,
    ensures
        l.top + row < count ==> l.clicked(row, count).cursor == l.top + row && l.clicked(
            row,
            count,
        ).top == l.top,
        l.top + row >= count ==> l.clicked(row, count) == l,
        l.hits(row, count) <==> l.top + row < count,
{
}

/// Showing a list moves it no more than needed: one whose cursor shows, and
/// which fills the view, stays as it is.
pub proof fn a_view_moves_no_more_than_needed(l: ListBox, count: int, height: int)
    requires
        0 < count <= usize::MAX,
        0 < height,
        l.cursor < count,
    ensures
        l.top <= l.cursor < l.top + height && l.top + height <= count ==> l.shown(count, height)
            == l,
        l.cursor < l.top && l.cursor + height <= count ==> l.shown(count, height).top == l.cursor,
        l.cursor >= l.top + height ==> l.shown(count, height).top + height == l.cursor + 1,
        count <= height ==> l.shown(count, height).top == 0,
        l.shown(count, height).cursor == l.cursor,
        l.shown(count, 0) == l,
{
}

/// A view shows the items from its top on, each as its source has it, as many
/// as fit and as there are, and marks the one under the cursor.
pub proof fn a_view_shows_its_items<R: RowSource>(l: ListBox, source: R, height: int, i: int)
    requires
        0 < height,
        l.top < source.rows(),
        0 <= i < height,
        l.top + i < source.rows(),
    ensures
        l.visible(source, height).len() == if source.rows() - l.top < height {
            source.rows() - l.top
        } else {
            height
        },
        l.visible(source, height)[i].inks == source.inks_at(l.top + i),
        l.visible(source, height)[i].selected <==> l.top + i == l.cursor,
{
}

/// A key edits a field where its cursor is.
pub proof fn a_key_edits_at_the_cursor(f: Field, c: char)
    requires
        f.valid(),
    ensures
        ({
            let before = f.value.take(f.cursor);
            let behind = f.value.skip(f.cursor);
            let typed = f.after(KeyCode::Char(c));
            &&& typed.value == before + seq![c] + behind
            &&& typed.cursor == f.cursor + 1
            &&& f.cursor > 0 ==> f.after(KeyCode::Backspace).value == before.drop_last() + behind
            &&& f.cursor > 0 ==> f.after(KeyCode::Backspace).cursor == f.cursor - 1
            &&& f.cursor < f.value.len() ==> f.after(KeyCode::Delete).value == before
                + behind.drop_first()
            &&& f.after(KeyCode::Delete).cursor == f.cursor
            &&& f.cursor == 0 ==> f.after(KeyCode::Backspace) == f
            &&& f.cursor == f.value.len() ==> f.after(KeyCode::Delete) == f
        }),
{
    let before = f.value.take(f.cursor);
    let behind = f.value.skip(f.cursor);
    assert(f.value.insert(f.cursor, c) =~= before + seq![c] + behind);
    if f.cursor > 0 {
        assert(f.value.remove(f.cursor - 1) =~= before.drop_last() + behind);
    }
    if f.cursor < f.value.len() {
        assert(f.value.remove(f.cursor) =~= before + behind.drop_first());
    }
}

/// The arrows move the cursor of a field within its text and change none of it.
pub proof fn an_arrow_changes_no_text(f: Field)
    requires
        f.valid(),
    ensures
        f.after(KeyCode::Left).cursor == if f.cursor > 0 { f.cursor - 1 } else { 0 },
        f.after(KeyCode::Right).cursor == if f.cursor < f.value.len() {
            f.cursor + 1
        } else {
            f.cursor
        },
        f.after(KeyCode::Home).cursor == 0,
        f.after(KeyCode::End).cursor == f.value.len(),
        f.after(KeyCode::Left).value == f.value,
        f.after(KeyCode::Right).value == f.value,
        f.after(KeyCode::Home).value == f.value,
        f.after(KeyCode::End).value == f.value,
        field_of(f.value).value == f.value,
        field_of(f.value).cursor == f.value.len(),
        !field_of(f.value).masked,
{
}

/// A field shows its text, with the cursor in it while it is edited; an empty
/// one that is not shows what it is for; and a masked one as many bullets as it
/// has characters.
pub proof fn a_field_shows_its_text(f: Field, i: int)
    requires
        f.valid(),
        0 <= i < f.value.len(),
    ensures
        !f.masked ==> f.shown(false).inks[0].text == "  "@ + f.value,
        !f.masked ==> f.shown(true).inks[0].text == "  "@ + f.value.take(f.cursor).push('▏')
            + f.value.skip(f.cursor),
        f.masked ==> f.shown(false).inks[0].text.len() == 2 + f.value.len(),
        f.masked ==> f.shown(false).inks[0].text[2 + i] == '•',
        ({
            let empty = Field { value: Seq::empty(), cursor: 0, ..f };
            empty.shown(false).inks[0].text == "  "@ + f.placeholder
        }),
{
    reveal_strlit("  ");
}

/// A text that fits is shown whole; of one that does not as much as leaves room
/// for the mark behind it.
pub proof fn a_clipped_text_fits(s: Seq<char>, width: int)
    requires
        0 <= width,
    ensures
        s.len() <= width ==> clipped(s, width) == s,
        clipped(s, width).len() <= width,
        s.len() > width && width > 1 ==> {
            &&& clipped(s, width).len() == width
            &&& clipped(s, width).last() == '…'
            &&& clipped(s, width).drop_last() == s.take(width - 1)
        },
        s.len() > width && width <= 1 ==> clipped(s, width).len() == 0,
{
    if s.len() > width && width > 1 {
        assert(clipped(s, width).drop_last() =~= s.take(width - 1));
    }
}

/// A centred rectangle has the size that was asked for where that fits, and the
/// same room on both sides, up to the odd column.
pub proof fn centring_leaves_the_same_room(area: Rect, width: int, height: int)
    requires
        area.x + area.width <= u16::MAX,
        area.y + area.height <= u16::MAX,
        0 <= width,
        0 <= height,
    ensures
        ({
            let r = middle(area, width, height);
            &&& width <= area.width ==> r.width == width
            &&& height <= area.height ==> r.height == height
            &&& width > area.width ==> r.width == area.width
            &&& height > area.height ==> r.height == area.height
            &&& 0 <= (area.x + area.width - r.x - r.width) - (r.x - area.x) <= 1
            &&& 0 <= (area.y + area.height - r.y - r.height) - (r.y - area.y) <= 1
        }),
{
}

} // verus!
