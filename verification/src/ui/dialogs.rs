//! Modal overlays: writing a value, operating a control, help, and the
//! connection form.

use vstd::prelude::*;

use super::widgets::{centred, field_of, middle, Field, TextField};
use super::{
    asked, ink, inks, push_line, push_span, push_spans, row, rows_of, Ctx, Deed, Effect, Ink,
    KeyCode, KeyEvent, Line, Paint, Rect, Row, Span, StatusKind,
};
use crate::mms::{Data, Type, Value};
use crate::model::{Fc, ObjectReference};
use crate::notation::{
    a_decimal_reads_back, i64_complaint, is_digits, number, parse_i64, parse_u32, trim, trimmed,
    u32_complaint, white_space,
};
use crate::text::{decimal, push_str, same};

verus! {

/// How a text reads as a floating-point number of each width, as its bit
/// pattern or as the message of the failure.
#[derive(Debug)]
pub struct FloatReading {
    pub single: Result<u32, String>,
    pub double: Result<u64, String>,
}

/// What an attempt to read a value came to.
pub open spec fn outcome(r: Result<Value, String>) -> Result<Data, Seq<char>> {
    match r {
        Ok(v) => Ok(v@),
        Err(e) => Err(e@),
    }
}

/// What a text is as a value of a declared type that is no floating-point
/// type.
pub open spec fn exact_reading(kind: Option<Type>, s: Seq<char>) -> Result<Data, Seq<char>> {
    let t = trimmed(s);
    match kind {
        Some(Type::Boolean) => if t == "true"@ || t == "1"@ || t == "on"@ {
            Ok(Data::Boolean(true))
        } else if t == "false"@ || t == "0"@ || t == "off"@ {
            Ok(Data::Boolean(false))
        } else {
            Err("expected true or false"@)
        },
        Some(Type::Integer) => match number(t, true) {
            Some(n) => if i64::MIN <= n <= i64::MAX {
                Ok(Data::Integer(n as i64))
            } else {
                Err(i64_complaint(t))
            },
            None => Err(i64_complaint(t)),
        },
        Some(Type::Unsigned) => match number(t, false) {
            Some(n) => if n <= u32::MAX {
                Ok(Data::Unsigned(n as u64))
            } else {
                Err(u32_complaint(t))
            },
            None => Err(u32_complaint(t)),
        },
        Some(Type::VisibleString) => Ok(Data::VisibleString(t)),
        Some(Type::MmsString) => Ok(Data::MmsString(t)),
        Some(k) => Err("unsupported type "@ + k.text()),
        None => Err("unknown type"@),
    }
}

/// A boolean or a number as it is shown.
pub open spec fn rendering(d: Data) -> Seq<char> {
    match d {
        Data::Boolean(b) => if b {
            "true"@
        } else {
            "false"@
        },
        Data::Integer(n) => if n < 0 {
            seq!['-'] + decimal((-n) as nat)
        } else {
            decimal(n as nat)
        },
        Data::Unsigned(n) => decimal(n as nat),
        _ => Seq::empty(),
    }
}

/// A text without white space at its ends is not trimmed.
proof fn lemma_trimmed_same(s: Seq<char>)
    requires
        s.len() > 0,
        !white_space(s[0]),
        !white_space(s.last()),
    ensures
        trimmed(s) == s,
{
}

/// What a field is started from reads back unchanged: a boolean or a number, as
/// it is shown, is the same value again. An unsigned number must fit in 32 bits.
pub proof fn a_prefilled_value_reads_back(d: Data)
    requires
        d is Boolean || d is Integer || d is Unsigned,
        d matches Data::Unsigned(n) ==> n <= u32::MAX,
    ensures
        round_trips(Some(d.kind())),
        exact_reading(Some(d.kind()), rendering(d)) == Ok::<Data, Seq<char>>(d),
{
    let s = rendering(d);
    match d {
        Data::Boolean(b) => {
            reveal_strlit("true");
            reveal_strlit("false");
            reveal_strlit("1");
            reveal_strlit("on");
            lemma_trimmed_same(s);
        },
        Data::Integer(n) => {
            if n < 0 {
                a_decimal_reads_back((-n) as nat);
                assert(s.skip(1) =~= decimal((-n) as nat));
                assert(s.last() == decimal((-n) as nat).last());
                assert(!is_digits(s)) by {
                    assert(s[0] == '-');
                }
            } else {
                a_decimal_reads_back(n as nat);
            }
            lemma_trimmed_same(s);
        },
        Data::Unsigned(n) => {
            a_decimal_reads_back(n as nat);
            lemma_trimmed_same(s);
        },
        _ => {},
    }
}

/// What a text is as a value of a declared type.
pub open spec fn reading(kind: Option<Type>, s: Seq<char>, float: FloatReading) -> Result<
    Data,
    Seq<char>,
> {
    match kind {
        Some(Type::Float32) => match float.single {
            Ok(bits) => Ok(Data::Float32(bits)),
            Err(e) => Err(e@),
        },
        Some(Type::Float64) => match float.double {
            Ok(bits) => Ok(Data::Float64(bits)),
            Err(e) => Err(e@),
        },
        _ => exact_reading(kind, s),
    }
}

/// Parses a value for the attribute's declared type.
///
/// A device rejects a write whose type does not match, so the text is parsed
/// as the type the model reports rather than guessed from its spelling. How
/// the text reads as a floating-point number is given.
pub fn parse_value(kind: Option<Type>, s: &str, float: &FloatReading) -> (r: Result<Value, String>)
    ensures
        outcome(r) == reading(kind, s@, *float),
{
    let t = trim(s);
    match kind {
        Some(Type::Boolean) => {
            if same(t.as_str(), "true") || same(t.as_str(), "1") || same(t.as_str(), "on") {
                Ok(Value::boolean(true))
            } else if same(t.as_str(), "false") || same(t.as_str(), "0") || same(
                t.as_str(),
                "off",
            ) {
                Ok(Value::boolean(false))
            } else {
                Err("expected true or false".to_owned())
            }
        },
        Some(Type::Integer) => match parse_i64(t.as_str()) {
            Ok(n) => Ok(Value::int64(n)),
            Err(e) => Err(e),
        },
        Some(Type::Unsigned) => match parse_u32(t.as_str()) {
            Ok(n) => Ok(Value::uint32(n)),
            Err(e) => Err(e),
        },
        Some(Type::Float32) => match &float.single {
            Ok(bits) => Ok(Value::float32(*bits)),
            Err(e) => Err(e.clone()),
        },
        Some(Type::Float64) => match &float.double {
            Ok(bits) => Ok(Value::float64(*bits)),
            Err(e) => Err(e.clone()),
        },
        Some(Type::VisibleString) => Ok(Value::visible_string(t.as_str())),
        Some(Type::MmsString) => Ok(Value::mms_string(t.as_str())),
        Some(k) => {
            let mut e = "unsupported type ".to_owned();
            push_str(&mut e, k.to_text());
            Err(e)
        },
        None => Err("unknown type".to_owned()),
    }
}

/// Whether a type is a floating-point type.
pub open spec fn is_float(kind: Option<Type>) -> bool {
    kind == Some(Type::Float32) || kind == Some(Type::Float64)
}

/// The name of a declared type, a dash where there is none.
pub open spec fn kind_text(kind: Option<Type>) -> Seq<char> {
    match kind {
        Some(k) => k.text(),
        None => "-"@,
    }
}

/// Returns the name of a declared type, a dash where there is none.
pub fn kind_name(kind: Option<Type>) -> (s: &'static str)
    ensures
        s@ == kind_text(kind),
{
    match kind {
        Some(k) => k.to_text(),
        None => "-",
    }
}

// ---- the operate dialog ----
/// The operate dialog, with a confirmation step.
#[derive(Debug)]
pub struct ControlDialog {
    pub reference: ObjectReference,
    pub on: bool,
    pub test: bool,
    pub interlock: bool,
    pub synchro: bool,
    pub originator: TextField,
    pub focus: usize,
    pub confirm: bool,
}

/// The number of rows the dialog can focus.
pub const FIELD_COUNT: usize = 6;

pub const F_VALUE: usize = 0;

pub const F_TEST: usize = 1;

pub const F_INTERLOCK: usize = 2;

pub const F_SYNCHRO: usize = 3;

pub const F_ORIGINATOR: usize = 4;

pub const F_OPERATE: usize = 5;

/// What the operate dialog holds.
pub struct Operating {
    pub reference: Seq<char>,
    pub on: bool,
    pub test: bool,
    pub interlock: bool,
    pub synchro: bool,
    pub originator: Field,
    pub focus: int,
    pub confirm: bool,
}

impl View for ControlDialog {
    type V = Operating;

    open spec fn view(&self) -> Operating {
        Operating {
            reference: self.reference@,
            on: self.on,
            test: self.test,
            interlock: self.interlock,
            synchro: self.synchro,
            originator: self.originator@,
            focus: self.focus as int,
            confirm: self.confirm,
        }
    }
}

/// A mark in front of the row that has the focus.
pub open spec fn focused_row(focused: bool, text: Seq<char>, otherwise: Paint) -> Row {
    if focused {
        row("▸ "@ + text, Paint::Label)
    } else {
        row("  "@ + text, otherwise)
    }
}

/// A box with or without a tick.
pub open spec fn tick(b: bool) -> Seq<char> {
    if b {
        "[x]"@
    } else {
        "[ ]"@
    }
}

/// The position of a switch.
pub open spec fn position(on: bool) -> Seq<char> {
    if on {
        "ON"@
    } else {
        "OFF"@
    }
}

impl Operating {
    /// Whether the focus is on one of the rows and the originator is sound.
    pub open spec fn valid(self) -> bool {
        0 <= self.focus < FIELD_COUNT && self.originator.valid()
    }

    /// Whether a key closes the dialog.
    pub open spec fn closes(self, key: KeyCode) -> bool {
        if self.confirm {
            key == KeyCode::Char('y') || key == KeyCode::Enter
        } else {
            key == KeyCode::Esc
        }
    }

    /// The dialog after a key.
    pub open spec fn after(self, key: KeyCode) -> Operating {
        if self.confirm {
            // Anything but an explicit yes backs out.
            Operating { confirm: self.closes(key), ..self }
        } else {
            match key {
                KeyCode::Esc => self,
                KeyCode::Tab | KeyCode::Down => Operating {
                    focus: (self.focus + 1) % (FIELD_COUNT as int),
                    ..self
                },
                KeyCode::BackTab | KeyCode::Up => Operating {
                    focus: (self.focus + FIELD_COUNT - 1) % (FIELD_COUNT as int),
                    ..self
                },
                KeyCode::Enter => Operating { confirm: self.focus == F_OPERATE, ..self },
                _ => if self.focus == F_ORIGINATOR {
                    Operating { originator: self.originator.after(key), ..self }
                } else if key != KeyCode::Char(' ') {
                    self
                } else if self.focus == F_VALUE {
                    Operating { on: !self.on, ..self }
                } else if self.focus == F_TEST {
                    Operating { test: !self.test, ..self }
                } else if self.focus == F_INTERLOCK {
                    Operating { interlock: !self.interlock, ..self }
                } else if self.focus == F_SYNCHRO {
                    Operating { synchro: !self.synchro, ..self }
                } else {
                    self
                },
            }
        }
    }

    /// What a key makes the dialog ask for: the control is operated on an
    /// explicit yes, and on nothing else.
    pub open spec fn asks(self, key: KeyCode, online: bool) -> Seq<Deed> {
        if self.confirm && self.closes(key) {
            asked(
                online,
                Deed::Operate {
                    reference: self.reference,
                    on: self.on,
                    test: self.test,
                    interlock: self.interlock,
                    synchro: self.synchro,
                    originator: self.originator.value,
                },
            )
        } else {
            Seq::empty()
        }
    }

    /// The rows that the dialog shows.
    pub open spec fn shown(self) -> Seq<Row> {
        if self.confirm {
            seq![
                Row {
                    inks: seq![
                        ink("Operate "@, Paint::Plain),
                        ink(self.reference, Paint::Accent),
                        ink(" = "@, Paint::Plain),
                        ink(position(self.on), Paint::Accent),
                        ink("?"@, Paint::Plain),
                    ],
                    selected: false,
                },
                row("Real switchgear may be attached."@, Paint::Warn),
                row(""@, Paint::Plain),
                row("y / enter confirm · any other key cancels"@, Paint::Help),
            ]
        } else {
            seq![
                row(self.reference, Paint::Muted),
                row(""@, Paint::Plain),
                focused_row(
                    self.focus == F_VALUE,
                    "Value       "@ + position(self.on) + "  (space toggles)"@,
                    Paint::Plain,
                ),
                focused_row(
                    self.focus == F_TEST,
                    "Test        "@ + tick(self.test),
                    Paint::Plain,
                ),
                focused_row(
                    self.focus == F_INTERLOCK,
                    "Interlock   "@ + tick(self.interlock),
                    Paint::Plain,
                ),
                focused_row(
                    self.focus == F_SYNCHRO,
                    "Synchro     "@ + tick(self.synchro),
                    Paint::Plain,
                ),
                focused_row(
                    self.focus == F_ORIGINATOR,
                    "Originator  "@ + self.originator.value,
                    Paint::Plain,
                ),
                row(""@, Paint::Plain),
                row(
                    "  [ Operate ]"@,
                    if self.focus == F_OPERATE {
                        Paint::TabActive
                    } else {
                        Paint::Muted
                    },
                ),
                row(""@, Paint::Plain),
                row("tab move · space toggle · enter operate · esc cancel"@, Paint::Help),
            ]
        }
    }
}

/// Appends a row with a mark in front of it where it has the focus.
fn push_focused(lines: &mut Vec<Line>, focused: bool, label: &str, value: &str, otherwise: Paint)
    ensures
        rows_of(final(lines)@) == rows_of(old(lines)@).push(
            focused_row(focused, label@ + value@, otherwise),
        ),
{
    let mut text = if focused {
        "▸ ".to_owned()
    } else {
        "  ".to_owned()
    };
    let ghost mark = text@;
    push_str(&mut text, label);
    push_str(&mut text, value);
    assert(text@ =~= mark + (label@ + value@));
    push_line(
        lines,
        text.as_str(),
        if focused {
            Paint::Label
        } else {
            otherwise
        },
    );
}

fn tick_text(b: bool) -> (s: &'static str)
    ensures
        s@ == tick(b),
{
    if b {
        "[x]"
    } else {
        "[ ]"
    }
}

fn position_text(on: bool) -> (s: &'static str)
    ensures
        s@ == position(on),
{
    if on {
        "ON"
    } else {
        "OFF"
    }
}

impl ControlDialog {
    pub fn new(reference: ObjectReference) -> (d: ControlDialog)
        ensures
            d@ == (Operating {
                reference: reference@,
                on: true,
                test: false,
                interlock: false,
                synchro: false,
                originator: field_of("iedx"@),
                focus: F_VALUE as int,
                confirm: false,
            }),
            d@.valid(),
    {
        ControlDialog {
            reference,
            on: true,
            test: false,
            interlock: false,
            synchro: false,
            originator: TextField::new("iedx"),
            focus: F_VALUE,
            confirm: false,
        }
    }

    /// Handles a key. Returns whether the dialog is finished.
    pub fn on_key(&mut self, key: KeyEvent, ctx: &mut Ctx) -> (done: bool)
        requires
            old(self)@.valid(),
        ensures
            done == old(self)@.closes(key.code),
            final(self)@ == old(self)@.after(key.code),
            final(self)@.valid(),
            old(ctx).then_queued(*final(ctx), old(self)@.asks(key.code, old(ctx).online)),
    {
        let ghost was = ctx.queued();
        if self.confirm {
            // Only an explicit yes proceeds; anything else backs out, because
            // the thing on the other end may be real switchgear.
            let yes = match key.code {
                KeyCode::Char(c) => c == 'y',
                KeyCode::Enter => true,
                _ => false,
            };
            if yes {
                ctx.ask(
                    Effect::Operate {
                        reference: self.reference.clone(),
                        on: self.on,
                        test: self.test,
                        interlock: self.interlock,
                        synchro: self.synchro,
                        originator: self.originator.value.clone(),
                    },
                );
                return true;
            }
            self.confirm = false;
            assert(ctx.queued() =~= was + Seq::<Deed>::empty());
            return false;
        }
        assert(ctx.queued() =~= was + Seq::<Deed>::empty());
        match key.code {
            KeyCode::Esc => {
                return true;
            },
            KeyCode::Tab | KeyCode::Down => {
                self.focus = (self.focus + 1) % FIELD_COUNT;
            },
            KeyCode::BackTab | KeyCode::Up => {
                self.focus = (self.focus + FIELD_COUNT - 1) % FIELD_COUNT;
            },
            KeyCode::Enter => {
                if self.focus == F_OPERATE {
                    self.confirm = true;
                }
            },
            _ => {
                if self.focus == F_ORIGINATOR {
                    self.originator.on_key(key);
                } else {
                    let space = match key.code {
                        KeyCode::Char(c) => c == ' ',
                        _ => false,
                    };
                    if space {
                        if self.focus == F_VALUE {
                            self.on = !self.on;
                        } else if self.focus == F_TEST {
                            self.test = !self.test;
                        } else if self.focus == F_INTERLOCK {
                            self.interlock = !self.interlock;
                        } else if self.focus == F_SYNCHRO {
                            self.synchro = !self.synchro;
                        }
                    }
                }
            },
        }
        false
    }

    /// The box that shows the dialog.
    pub fn draw(&self) -> (p: Popup)
        ensures
            is_popup(
                p,
                64,
                if self.confirm {
                    8
                } else {
                    14
                },
                if self.confirm {
                    "⚠ Confirm operate"@
                } else {
                    "Operate control"@
                },
                if self.confirm {
                    Paint::Warn
                } else {
                    Paint::Accent
                },
                self@.shown(),
            ),
    {
        let mut lines: Vec<Line> = Vec::new();
        assert(rows_of(lines@) =~= Seq::<Row>::empty());
        if self.confirm {
            let mut spans: Vec<Span> = Vec::new();
            assert(inks(spans@) =~= Seq::<Ink>::empty());
            push_span(&mut spans, "Operate ", Paint::Plain);
            push_span(&mut spans, self.reference.as_str(), Paint::Accent);
            push_span(&mut spans, " = ", Paint::Plain);
            push_span(&mut spans, position_text(self.on), Paint::Accent);
            push_span(&mut spans, "?", Paint::Plain);
            push_spans(&mut lines, spans, false);
            push_line(&mut lines, "Real switchgear may be attached.", Paint::Warn);
            push_line(&mut lines, "", Paint::Plain);
            push_line(&mut lines, "y / enter confirm · any other key cancels", Paint::Help);
            assert(rows_of(lines@)[0].inks =~= self@.shown()[0].inks);
            assert(rows_of(lines@) =~= self@.shown());
            return Popup::new(64, 8, "⚠ Confirm operate", Paint::Warn, lines);
        }
        push_line(&mut lines, self.reference.as_str(), Paint::Muted);
        push_line(&mut lines, "", Paint::Plain);
        let mut value = position_text(self.on).to_owned();
        push_str(&mut value, "  (space toggles)");
        push_focused(
            &mut lines,
            self.focus == F_VALUE,
            "Value       ",
            value.as_str(),
            Paint::Plain,
        );
        assert("Value       "@ + value@ =~= "Value       "@ + position(self.on)
            + "  (space toggles)"@);
        push_focused(
            &mut lines,
            self.focus == F_TEST,
            "Test        ",
            tick_text(self.test),
            Paint::Plain,
        );
        push_focused(
            &mut lines,
            self.focus == F_INTERLOCK,
            "Interlock   ",
            tick_text(self.interlock),
            Paint::Plain,
        );
        push_focused(
            &mut lines,
            self.focus == F_SYNCHRO,
            "Synchro     ",
            tick_text(self.synchro),
            Paint::Plain,
        );
        push_focused(
            &mut lines,
            self.focus == F_ORIGINATOR,
            "Originator  ",
            self.originator.value.as_str(),
            Paint::Plain,
        );
        push_line(&mut lines, "", Paint::Plain);
        push_line(
            &mut lines,
            "  [ Operate ]",
            if self.focus == F_OPERATE {
                Paint::TabActive
            } else {
                Paint::Muted
            },
        );
        push_line(&mut lines, "", Paint::Plain);
        push_line(
            &mut lines,
            "tab move · space toggle · enter operate · esc cancel",
            Paint::Help,
        );
        assert(rows_of(lines@) =~= self@.shown());
        Popup::new(64, 14, "Operate control", Paint::Accent, lines)
    }
}

/// Operating takes a deliberate confirmation: a dialog that has not been armed
/// asks for nothing, whatever key is pressed, and only the button arms it.
pub proof fn operating_takes_a_confirmation(d: Operating, key: KeyCode, online: bool)
    requires
        d.valid(),
        !d.confirm,
    ensures
        d.asks(key, online) == Seq::<Deed>::empty(),
        d.after(key).confirm ==> d.focus == F_OPERATE && key == KeyCode::Enter,
{
}

/// Any key but yes backs out of the confirmation, and nothing is asked for.
pub proof fn anything_but_yes_backs_out(d: Operating, key: KeyCode, online: bool)
    requires
        d.confirm,
        key != KeyCode::Char('y'),
        key != KeyCode::Enter,
    ensures
        !d.closes(key),
        !d.after(key).confirm,
        d.asks(key, online) == Seq::<Deed>::empty(),
{
}

// ---- boxes ----
/// A box in the middle of the screen, over whatever is behind it.
#[derive(Debug)]
pub struct Popup {
    pub width: u16,
    pub height: u16,
    pub title: String,
    pub border: Paint,
    pub lines: Vec<Line>,
}

/// Whether a box is the given one.
pub open spec fn is_popup(
    p: Popup,
    width: int,
    height: int,
    title: Seq<char>,
    border: Paint,
    rows: Seq<Row>,
) -> bool {
    &&& p.width == width
    &&& p.height == height
    &&& p.title@ == title
    &&& p.border == border
    &&& rows_of(p.lines@) == rows
}

impl Popup {
    fn new(width: u16, height: u16, title: &str, border: Paint, lines: Vec<Line>) -> (p: Popup)
        ensures
            is_popup(p, width as int, height as int, title@, border, rows_of(lines@)),
    {
        Popup { width, height, title: title.to_owned(), border, lines }
    }

    /// Where the box is drawn.
    pub fn place(&self, area: Rect) -> (r: Rect)
        requires
            area.x + area.width <= u16::MAX,
            area.y + area.height <= u16::MAX,
        ensures
            r == middle(area, self.width as int, self.height as int),
    {
        centred(area, self.width, self.height)
    }
}

// ---- the overlays ----
/// A modal overlay.
#[derive(Debug)]
pub enum Dialog {
    Write { reference: ObjectReference, fc: Fc, kind: Option<Type>, field: TextField },
    Control(Box<ControlDialog>),
    Help,
}

/// What an overlay holds.
pub enum Overlay {
    Write { reference: Seq<char>, fc: Fc, kind: Option<Type>, field: Field },
    Control(Operating),
    Help,
}

impl View for Dialog {
    type V = Overlay;

    open spec fn view(&self) -> Overlay {
        match self {
            Dialog::Write { reference, fc, kind, field } => Overlay::Write {
                reference: reference@,
                fc: *fc,
                kind: *kind,
                field: field@,
            },
            Dialog::Control(d) => Overlay::Control(d@),
            Dialog::Help => Overlay::Help,
        }
    }
}

/// What an overlay that may be there holds.
pub open spec fn overlay(d: Option<Dialog>) -> Option<Overlay> {
    match d {
        Some(d) => Some(d@),
        None => None,
    }
}

/// What to type for a value of a declared type.
pub open spec fn prompt(kind: Option<Type>) -> Seq<char> {
    match kind {
        Some(Type::Boolean) => "true / false"@,
        Some(Type::Float32) | Some(Type::Float64) => "number"@,
        Some(Type::Integer) | Some(Type::Unsigned) => "integer"@,
        _ => "value"@,
    }
}

/// The overlay that asks for a value to write.
pub open spec fn write_overlay(reference: Seq<char>, fc: Fc, kind: Option<Type>) -> Overlay {
    Overlay::Write {
        reference,
        fc,
        kind,
        field: Field { placeholder: prompt(kind), ..field_of(Seq::empty()) },
    }
}

/// The overlay that operates a control.
pub open spec fn control_overlay(reference: Seq<char>) -> Overlay {
    Overlay::Control(
        Operating {
            reference,
            on: true,
            test: false,
            interlock: false,
            synchro: false,
            originator: field_of("iedx"@),
            focus: F_VALUE as int,
            confirm: false,
        },
    )
}

/// Whether the rendering of a type parses back unchanged.
pub open spec fn round_trips(kind: Option<Type>) -> bool {
    match kind {
        Some(Type::Boolean)
        | Some(Type::Integer)
        | Some(Type::Unsigned)
        | Some(Type::Float32)
        | Some(Type::Float64) => true,
        _ => false,
    }
}

/// The lines of the help.
pub open spec fn help_rows() -> Seq<Row> {
    seq![
        row("tab / shift+tab / 1-7   switch tab"@, Paint::Plain),
        row("R                       refresh the current tab"@, Paint::Plain),
        row("↑ ↓ j k / wheel         move / scroll"@, Paint::Plain),
        row("enter / space / click   expand or read"@, Paint::Plain),
        row(""@, Paint::Plain),
        row("r  read       w  write       o  operate"@, Paint::Plain),
        row("a  auto-refresh            /  filter (Browse)"@, Paint::Plain),
        row("e  enable report + GI   g  GI   x  disable   c  clear"@, Paint::Plain),
        row("d  download (Files)        +/- window (Logs)"@, Paint::Plain),
        row("1-9 activate setting group (SetGroups)"@, Paint::Plain),
        row(""@, Paint::Plain),
        row("mouse: click tabs and rows, wheel to scroll"@, Paint::Help),
        row("press any key to close"@, Paint::Help),
    ]
}

/// What a value that is ready to be written makes of a write overlay: the
/// value is written and the overlay closes, or the problem is shown and the
/// overlay stays.
pub open spec fn settled(
    reference: Seq<char>,
    fc: Fc,
    value: Result<Data, Seq<char>>,
    online: bool,
) -> Seq<Deed> {
    match value {
        Ok(v) => asked(online, Deed::Write { reference, fc, value: v }),
        Err(e) => seq![Deed::Status("bad value: "@ + e, StatusKind::Failure)],
    }
}

impl Overlay {
    /// Whether the fields of the overlay are sound.
    pub open spec fn valid(self) -> bool {
        match self {
            Overlay::Write { reference, fc, kind, field } => field.valid(),
            Overlay::Control(d) => d.valid(),
            Overlay::Help => true,
        }
    }

    /// The overlay with its field started from the value last read.
    pub open spec fn prefilled(self, current: Option<Seq<char>>) -> Overlay {
        match (self, current) {
            (Overlay::Write { reference, fc, kind, field }, Some(v)) => if round_trips(kind) {
                Overlay::Write {
                    reference,
                    fc,
                    kind,
                    field: Field {
                        value: trimmed(v),
                        cursor: trimmed(v).len() as int,
                        ..field
                    },
                }
            } else {
                self
            },
            _ => self,
        }
    }

    /// Whether a key closes the overlay.
    pub open spec fn closes(self, key: KeyCode) -> bool {
        match self {
            Overlay::Help => true,
            Overlay::Write { reference, fc, kind, field } => {
                ||| key == KeyCode::Esc
                ||| key == KeyCode::Enter && !is_float(kind) && exact_reading(
                    kind,
                    field.value,
                ) is Ok
            },
            Overlay::Control(d) => d.closes(key),
        }
    }

    /// The overlay after a key.
    pub open spec fn after(self, key: KeyCode) -> Overlay {
        match self {
            Overlay::Help => self,
            Overlay::Write { reference, fc, kind, field } => if key == KeyCode::Esc || key
                == KeyCode::Enter {
                self
            } else {
                Overlay::Write { reference, fc, kind, field: field.after(key) }
            },
            Overlay::Control(d) => Overlay::Control(d.after(key)),
        }
    }

    /// What a key makes the overlay ask for.
    pub open spec fn asks(self, key: KeyCode, online: bool) -> Seq<Deed> {
        match self {
            Overlay::Help => Seq::empty(),
            Overlay::Write { reference, fc, kind, field } => if key != KeyCode::Enter {
                Seq::empty()
            } else if is_float(kind) {
                seq![Deed::ParseFloat { text: trimmed(field.value) }]
            } else {
                settled(reference, fc, exact_reading(kind, field.value), online)
            },
            Overlay::Control(d) => d.asks(key, online),
        }
    }

    /// Whether the reading of a floating-point number closes the overlay.
    pub open spec fn closes_on_float(self, float: FloatReading) -> bool {
        self matches Overlay::Write { reference, fc, kind, field } && is_float(kind) && reading(
            kind,
            field.value,
            float,
        ) is Ok
    }

    /// What the reading of a floating-point number makes the overlay ask for.
    pub open spec fn asks_on_float(self, float: FloatReading, online: bool) -> Seq<Deed> {
        match self {
            Overlay::Write { reference, fc, kind, field } => if is_float(kind) {
                settled(reference, fc, reading(kind, field.value, float), online)
            } else {
                Seq::empty()
            },
            _ => Seq::empty(),
        }
    }
}

/// Queues what a value that is ready to be written makes of a write overlay.
/// Returns whether the overlay closes.
fn settle(
    reference: &ObjectReference,
    fc: Fc,
    value: Result<Value, String>,
    ctx: &mut Ctx,
) -> (done: bool)
    ensures
        done == (value is Ok),
        old(ctx).then_queued(
            *final(ctx),
            settled(reference@, fc, outcome(value), old(ctx).online),
        ),
{
    match value {
        Ok(v) => {
            ctx.ask(Effect::Write { reference: reference.clone(), fc, value: v });
            true
        },
        Err(e) => {
            let mut text = "bad value: ".to_owned();
            push_str(&mut text, e.as_str());
            ctx.err(text.as_str());
            false
        },
    }
}

impl Dialog {
    pub fn write(reference: ObjectReference, fc: Fc, kind: Option<Type>) -> (d: Dialog)
        ensures
            d@ == write_overlay(reference@, fc, kind),
            d@.valid(),
    {
        let placeholder = match kind {
            Some(Type::Boolean) => "true / false",
            Some(Type::Float32) | Some(Type::Float64) => "number",
            Some(Type::Integer) | Some(Type::Unsigned) => "integer",
            _ => "value",
        };
        assert(""@ =~= Seq::<char>::empty()) by {
            reveal_strlit("");
        }
        Dialog::Write {
            reference,
            fc,
            kind,
            field: TextField::new("").with_placeholder(placeholder),
        }
    }

    /// Starts the field from the value last read, so an edit begins at the
    /// present setting rather than an empty line.
    ///
    /// Only the types whose rendering parses back unchanged are prefilled; a
    /// string is shown quoted and a timestamp formatted, and either would be
    /// written back as something else.
    pub fn prefilled(self, current: Option<&str>) -> (d: Dialog)
        ensures
            d@ == self@.prefilled(
                match current {
                    Some(v) => Some(v@),
                    None => None,
                },
            ),
            self@.valid() ==> d@.valid(),
    {
        match self {
            Dialog::Write { reference, fc, kind, field } => {
                let mut field = field;
                let keeps = match kind {
                    Some(Type::Boolean)
                    | Some(Type::Integer)
                    | Some(Type::Unsigned)
                    | Some(Type::Float32)
                    | Some(Type::Float64) => true,
                    _ => false,
                };
                if keeps {
                    if let Some(v) = current {
                        field.set(trim(v).as_str());
                    }
                }
                Dialog::Write { reference, fc, kind, field }
            },
            Dialog::Control(d) => Dialog::Control(d),
            Dialog::Help => Dialog::Help,
        }
    }

    pub fn control(reference: ObjectReference) -> (d: Dialog)
        ensures
            d@ == control_overlay(reference@),
            d@.valid(),
    {
        Dialog::Control(Box::new(ControlDialog::new(reference)))
    }

    pub fn help() -> (d: Dialog)
        ensures
            d@ == Overlay::Help,
    {
        Dialog::Help
    }

    /// Reports whether a stray click should close it.
    ///
    /// The help closes on anything; a confirm prompt must not, or a misplaced
    /// click could operate switchgear.
    pub fn dismissable_by_click(&self) -> (b: bool)
        ensures
            b == (self@ == Overlay::Help),
    {
        match self {
            Dialog::Help => true,
            _ => false,
        }
    }

    /// Handles a key. Returns whether the dialog is finished.
    pub fn on_key(&mut self, key: KeyEvent, ctx: &mut Ctx) -> (done: bool)
        requires
            old(self)@.valid(),
        ensures
            done == old(self)@.closes(key.code),
            final(self)@ == old(self)@.after(key.code),
            final(self)@.valid(),
            old(ctx).then_queued(*final(ctx), old(self)@.asks(key.code, old(ctx).online)),
    {
        assert(ctx.queued() + Seq::<Deed>::empty() =~= ctx.queued());
        match self {
            Dialog::Help => true,  // any key closes it
            Dialog::Write { reference, fc, kind, field } => match key.code {
                KeyCode::Esc => true,
                KeyCode::Enter => {
                    let float = match *kind {
                        Some(Type::Float32) | Some(Type::Float64) => true,
                        _ => false,
                    };
                    if float {
                        ctx.send(Effect::ParseFloat { text: trim(field.value.as_str()) });
                        false
                    } else {
                        let none = FloatReading { single: Err(String::new()), double: Err(
                            String::new(),
                        ) };
                        let value = parse_value(*kind, field.value.as_str(), &none);
                        settle(reference, *fc, value, ctx)
                    }
                },
                _ => {
                    field.on_key(key);
                    false
                },
            },
            Dialog::Control(d) => d.on_key(key, ctx),
        }
    }

    /// Takes the reading of a floating-point number that was asked for.
    /// Returns whether the dialog is finished.
    pub fn on_float(&mut self, float: &FloatReading, ctx: &mut Ctx) -> (done: bool)
        ensures
            done == old(self)@.closes_on_float(*float),
            *final(self) == *old(self),
            old(ctx).then_queued(*final(ctx), old(self)@.asks_on_float(*float, old(ctx).online)),
    {
        assert(ctx.queued() + Seq::<Deed>::empty() =~= ctx.queued());
        match &*self {
            Dialog::Write { reference, fc, kind, field } => {
                let wanted = match *kind {
                    Some(Type::Float32) | Some(Type::Float64) => true,
                    _ => false,
                };
                if wanted {
                    let value = parse_value(*kind, field.value.as_str(), float);
                    settle(reference, *fc, value, ctx)
                } else {
                    false
                }
            },
            _ => false,
        }
    }

    /// Whether a box shows the overlay.
    pub open spec fn popped_up(self, p: Popup) -> bool {
        match self@ {
            Overlay::Help => is_popup(p, 60, 18, "iedx — keys"@, Paint::Accent, help_rows()),
            Overlay::Write { reference, fc, kind, field } => is_popup(
                p,
                64,
                9,
                "Write value"@,
                Paint::Accent,
                seq![
                    row(
                        reference + "  ["@ + fc.text() + "]  "@ + kind_text(kind),
                        Paint::Muted,
                    ),
                    row(""@, Paint::Plain),
                    field.shown(true),
                    row(""@, Paint::Plain),
                    row("enter write · esc cancel"@, Paint::Help),
                ],
            ),
            Overlay::Control(d) => is_popup(
                p,
                64,
                if d.confirm {
                    8
                } else {
                    14
                },
                if d.confirm {
                    "⚠ Confirm operate"@
                } else {
                    "Operate control"@
                },
                if d.confirm {
                    Paint::Warn
                } else {
                    Paint::Accent
                },
                d.shown(),
            ),
        }
    }

    /// The box that shows the overlay.
    pub fn draw(&self) -> (p: Popup)
        requires
            self@.valid(),
        ensures
            self.popped_up(p),
    {
        let mut lines: Vec<Line> = Vec::new();
        assert(rows_of(lines@) =~= Seq::<Row>::empty());
        match self {
            Dialog::Help => {
                push_line(&mut lines, "tab / shift+tab / 1-7   switch tab", Paint::Plain);
                push_line(
                    &mut lines,
                    "R                       refresh the current tab",
                    Paint::Plain,
                );
                push_line(&mut lines, "↑ ↓ j k / wheel         move / scroll", Paint::Plain);
                push_line(&mut lines, "enter / space / click   expand or read", Paint::Plain);
                push_line(&mut lines, "", Paint::Plain);
                push_line(&mut lines, "r  read       w  write       o  operate", Paint::Plain);
                push_line(
                    &mut lines,
                    "a  auto-refresh            /  filter (Browse)",
                    Paint::Plain,
                );
                push_line(
                    &mut lines,
                    "e  enable report + GI   g  GI   x  disable   c  clear",
                    Paint::Plain,
                );
                push_line(
                    &mut lines,
                    "d  download (Files)        +/- window (Logs)",
                    Paint::Plain,
                );
                push_line(&mut lines, "1-9 activate setting group (SetGroups)", Paint::Plain);
                push_line(&mut lines, "", Paint::Plain);
                push_line(&mut lines, "mouse: click tabs and rows, wheel to scroll", Paint::Help);
                push_line(&mut lines, "press any key to close", Paint::Help);
                assert(rows_of(lines@) =~= help_rows());
                Popup::new(60, 18, "iedx — keys", Paint::Accent, lines)
            },
            Dialog::Write { reference, fc, kind, field } => {
                let mut what = reference.as_str().to_owned();
                push_str(&mut what, "  [");
                push_str(&mut what, fc.as_str());
                push_str(&mut what, "]  ");
                push_str(&mut what, kind_name(*kind));
                push_line(&mut lines, what.as_str(), Paint::Muted);
                push_line(&mut lines, "", Paint::Plain);
                let ghost before = rows_of(lines@);
                lines.push(field.line(true));
                assert(rows_of(lines@) =~= before.push(field@.shown(true)));
                push_line(&mut lines, "", Paint::Plain);
                push_line(&mut lines, "enter write · esc cancel", Paint::Help);
                assert(rows_of(lines@) =~= seq![
                    row(
                        reference@ + "  ["@ + fc.text() + "]  "@ + kind_text(*kind),
                        Paint::Muted,
                    ),
                    row(""@, Paint::Plain),
                    field@.shown(true),
                    row(""@, Paint::Plain),
                    row("enter write · esc cancel"@, Paint::Help),
                ]);
                Popup::new(64, 9, "Write value", Paint::Accent, lines)
            },
            Dialog::Control(d) => d.draw(),
        }
    }
}

// ---- the connection form ----
/// What the connection form wants the app to do next.
#[derive(Debug, Clone, Copy, PartialEq, Eq, Structural)]
pub enum FormAction {
    Stay,
    Submit,
    Quit,
}

/// The initial connection screen.
#[derive(Debug)]
pub struct ConnectForm {
    pub address: TextField,
    pub password: TextField,
    pub tls: bool,
    pub focus: usize,
}

pub const CF_FIELDS: usize = 4;

pub const CF_ADDRESS: usize = 0;

pub const CF_PASSWORD: usize = 1;

pub const CF_TLS: usize = 2;

pub const CF_CONNECT: usize = 3;

/// What the connection form holds.
pub struct Form {
    pub address: Field,
    pub password: Field,
    pub tls: bool,
    pub focus: int,
}

impl View for ConnectForm {
    type V = Form;

    open spec fn view(&self) -> Form {
        Form {
            address: self.address@,
            password: self.password@,
            tls: self.tls,
            focus: self.focus as int,
        }
    }
}

/// The form with the given contents, the focus on its first field.
pub open spec fn form_of(address: Seq<char>, password: Seq<char>, tls: bool) -> Form {
    Form {
        address: Field { placeholder: "host:port"@, ..field_of(address) },
        password: Field { placeholder: "(optional)"@, masked: true, ..field_of(password) },
        tls,
        focus: CF_ADDRESS as int,
    }
}

impl Form {
    /// Whether the focus is on one of the rows and the fields are sound.
    pub open spec fn valid(self) -> bool {
        0 <= self.focus < CF_FIELDS && self.address.valid() && self.password.valid()
    }

    /// What a key makes the form want.
    pub open spec fn wants(self, key: KeyCode) -> FormAction {
        if key == KeyCode::Esc {
            FormAction::Quit
        } else if key == KeyCode::Enter && self.focus != CF_TLS {
            FormAction::Submit
        } else {
            FormAction::Stay
        }
    }

    /// The form after a key.
    pub open spec fn after(self, key: KeyCode) -> Form {
        match key {
            KeyCode::Esc => self,
            KeyCode::Tab | KeyCode::Down => Form {
                focus: (self.focus + 1) % (CF_FIELDS as int),
                ..self
            },
            KeyCode::BackTab | KeyCode::Up => Form {
                focus: (self.focus + CF_FIELDS - 1) % (CF_FIELDS as int),
                ..self
            },
            KeyCode::Enter => if self.focus == CF_TLS {
                Form { tls: !self.tls, ..self }
            } else {
                self
            },
            _ => if self.focus == CF_TLS {
                if key == KeyCode::Char(' ') {
                    Form { tls: !self.tls, ..self }
                } else {
                    self
                }
            } else if self.focus == CF_ADDRESS {
                Form { address: self.address.after(key), ..self }
            } else if self.focus == CF_PASSWORD {
                Form { password: self.password.after(key), ..self }
            } else {
                self
            },
        }
    }

    /// The rows that the form shows.
    pub open spec fn shown(self) -> Seq<Row> {
        seq![
            focused_row(self.focus == CF_ADDRESS, "Address"@, Paint::Muted),
            self.address.shown(self.focus == CF_ADDRESS),
            focused_row(self.focus == CF_PASSWORD, "Password"@, Paint::Muted),
            self.password.shown(self.focus == CF_PASSWORD),
            Row {
                inks: seq![
                    if self.focus == CF_TLS {
                        ink("▸ TLS (62351-3)  "@, Paint::Label)
                    } else {
                        ink("  TLS (62351-3)  "@, Paint::Muted)
                    },
                    ink(
                        if self.tls {
                            "[x] on"@
                        } else {
                            "[ ] off"@
                        },
                        Paint::Value,
                    ),
                ],
                selected: false,
            },
            row(""@, Paint::Plain),
            row(
                "  [ Connect ]"@,
                if self.focus == CF_CONNECT {
                    Paint::TabActive
                } else {
                    Paint::Muted
                },
            ),
            row(""@, Paint::Plain),
            row("tab/↑↓ move · enter connect · space toggles TLS · esc quit"@, Paint::Help),
        ]
    }
}

impl ConnectForm {
    pub fn new(address: &str, password: &str, tls: bool) -> (f: ConnectForm)
        ensures
            f@ == form_of(address@, password@, tls),
            f@.valid(),
    {
        ConnectForm {
            address: TextField::new(address).with_placeholder("host:port"),
            password: TextField::new(password).with_placeholder("(optional)").masked(),
            tls,
            focus: CF_ADDRESS,
        }
    }

    pub fn address(&self) -> (s: String)
        ensures
            s@ == trimmed(self@.address.value),
    {
        trim(self.address.value.as_str())
    }

    pub fn password(&self) -> (s: String)
        ensures
            s@ == self@.password.value,
    {
        self.password.value.clone()
    }

    pub fn tls(&self) -> (b: bool)
        ensures
            b == self@.tls,
    {
        self.tls
    }

    pub fn on_key(&mut self, key: KeyEvent) -> (a: FormAction)
        requires
            old(self)@.valid(),
        ensures
            a == old(self)@.wants(key.code),
            final(self)@ == old(self)@.after(key.code),
            final(self)@.valid(),
    {
        match key.code {
            KeyCode::Esc => {
                return FormAction::Quit;
            },
            KeyCode::Tab | KeyCode::Down => {
                self.focus = (self.focus + 1) % CF_FIELDS;
            },
            KeyCode::BackTab | KeyCode::Up => {
                self.focus = (self.focus + CF_FIELDS - 1) % CF_FIELDS;
            },
            KeyCode::Enter => {
                if self.focus == CF_TLS {
                    self.tls = !self.tls;
                } else {
                    return FormAction::Submit;
                }
            },
            _ => {
                if self.focus == CF_TLS {
                    let space = match key.code {
                        KeyCode::Char(c) => c == ' ',
                        _ => false,
                    };
                    if space {
                        self.tls = !self.tls;
                    }
                } else if self.focus == CF_ADDRESS {
                    self.address.on_key(key);
                } else if self.focus == CF_PASSWORD {
                    self.password.on_key(key);
                }
            },
        }
        FormAction::Stay
    }

    /// The box that shows the form.
    pub fn draw(&self) -> (p: Popup)
        requires
            self@.valid(),
        ensures
            is_popup(p, 64, 13, "Connect to an IED"@, Paint::Accent, self@.shown()),
    {
        let mut lines: Vec<Line> = Vec::new();
        assert(rows_of(lines@) =~= Seq::<Row>::empty());
        assert(""@ =~= Seq::<char>::empty()) by {
            reveal_strlit("");
        }
        push_focused(&mut lines, self.focus == CF_ADDRESS, "Address", "", Paint::Muted);
        assert("Address"@ + ""@ =~= "Address"@);
        let ghost first = rows_of(lines@);
        lines.push(self.address.line(self.focus == CF_ADDRESS));
        assert(rows_of(lines@) =~= first.push(self@.address.shown(self.focus == CF_ADDRESS)));
        push_focused(&mut lines, self.focus == CF_PASSWORD, "Password", "", Paint::Muted);
        assert("Password"@ + ""@ =~= "Password"@);
        let ghost third = rows_of(lines@);
        lines.push(self.password.line(self.focus == CF_PASSWORD));
        assert(rows_of(lines@) =~= third.push(self@.password.shown(self.focus == CF_PASSWORD)));
        let mut spans: Vec<Span> = Vec::new();
        assert(inks(spans@) =~= Seq::<Ink>::empty());
        if self.focus == CF_TLS {
            push_span(&mut spans, "▸ TLS (62351-3)  ", Paint::Label);
        } else {
            push_span(&mut spans, "  TLS (62351-3)  ", Paint::Muted);
        }
        push_span(
            &mut spans,
            if self.tls {
                "[x] on"
            } else {
                "[ ] off"
            },
            Paint::Value,
        );
        let ghost last = inks(spans@);
        push_spans(&mut lines, spans, false);
        push_line(&mut lines, "", Paint::Plain);
        push_line(
            &mut lines,
            "  [ Connect ]",
            if self.focus == CF_CONNECT {
                Paint::TabActive
            } else {
                Paint::Muted
            },
        );
        push_line(&mut lines, "", Paint::Plain);
        push_line(
            &mut lines,
            "tab/↑↓ move · enter connect · space toggles TLS · esc quit",
            Paint::Help,
        );
        assert(rows_of(lines@)[4].inks =~= self@.shown()[4].inks);
        assert(rows_of(lines@) =~= self@.shown());
        Popup::new(64, 13, "Connect to an IED", Paint::Accent, lines)
    }
}

/// Typing goes into the field that has the focus and into no other.
pub proof fn typing_goes_into_the_focused_field(f: Form, c: char)
    requires
        f.valid(),
    ensures
        f.focus != CF_ADDRESS ==> f.after(KeyCode::Char(c)).address == f.address,
        f.focus != CF_PASSWORD ==> f.after(KeyCode::Char(c)).password == f.password,
        f.focus != CF_TLS ==> f.after(KeyCode::Char(c)).tls == f.tls,
        f.after(KeyCode::Char(c)).focus == f.focus,
{
}

/// Moving the focus forward and back again leaves a form, and a dialog that
/// is not asking for a confirmation, as it was.
pub proof fn the_focus_moves_back(f: Form, d: Operating)
    requires
        f.valid(),
        d.valid(),
        !d.confirm,
    ensures
        f.after(KeyCode::Tab).after(KeyCode::BackTab) == f,
        f.after(KeyCode::BackTab).after(KeyCode::Tab) == f,
        d.after(KeyCode::Tab).after(KeyCode::BackTab) == d,
        d.after(KeyCode::BackTab).after(KeyCode::Tab) == d,
{
}

/// A confirmed command is sent as the dialog shows it, and the dialog closes.
pub proof fn a_confirmed_command_is_sent_as_shown(d: Operating, key: KeyCode)
    requires
        d.confirm,
        key == KeyCode::Char('y') || key == KeyCode::Enter,
    ensures
        d.closes(key),
        d.asks(key, true) == seq![
            Deed::Operate {
                reference: d.reference,
                on: d.on,
                test: d.test,
                interlock: d.interlock,
                synchro: d.synchro,
                originator: d.originator.value,
            },
        ],
        d.asks(key, false) == seq![Deed::Status("not connected"@, StatusKind::Failure)],
{
}

/// The blank turns the option that has the focus round, and no other; in the
/// originator it is a character.
pub proof fn the_blank_turns_one_option_round(d: Operating)
    requires
        d.valid(),
        !d.confirm,
    ensures
        ({
            let a = d.after(KeyCode::Char(' '));
            &&& a.on == if d.focus == 0 { !d.on } else { d.on }
            &&& a.test == if d.focus == 1 { !d.test } else { d.test }
            &&& a.interlock == if d.focus == 2 { !d.interlock } else { d.interlock }
            &&& a.synchro == if d.focus == 3 { !d.synchro } else { d.synchro }
            &&& a.originator == if d.focus == 4 {
                d.originator.after(KeyCode::Char(' '))
            } else {
                d.originator
            }
            &&& a.focus == d.focus
            &&& a.reference == d.reference
            &&& !a.confirm
        }),
        d.focus == 5 ==> d.after(KeyCode::Enter).confirm,
        d.focus != 5 ==> d.after(KeyCode::Enter) == d,
        d.focus < 5 ==> d.after(KeyCode::Tab).focus == d.focus + 1,
        d.focus == 5 ==> d.after(KeyCode::Tab).focus == 0,
        d.after(KeyCode::Down) == d.after(KeyCode::Tab),
        d.after(KeyCode::Up) == d.after(KeyCode::BackTab),
{
}

/// A control starts out as an ordinary command to switch on: no test, and
/// neither check.
pub proof fn a_control_starts_out_plain(reference: Seq<char>)
    ensures
        control_overlay(reference) matches Overlay::Control(d) && d.valid() && d.reference
            == reference && d.on && !d.test && !d.interlock && !d.synchro && d.focus == 0
            && !d.confirm && d.originator.value == "iedx"@,
{
}

/// The words for a switch position are read as it, and nothing else is.
pub proof fn a_position_is_read_by_its_words(s: Seq<char>)
    ensures
        ({
            let t = trimmed(s);
            let on = t == seq!['t', 'r', 'u', 'e'] || t == seq!['1'] || t == seq!['o', 'n'];
            let off = t == seq!['f', 'a', 'l', 's', 'e'] || t == seq!['0'] || t == seq![
                'o',
                'f',
                'f',
            ];
            let r = exact_reading(Some(Type::Boolean), s);
            &&& on ==> r == Ok::<Data, Seq<char>>(Data::Boolean(true))
            &&& off ==> r == Ok::<Data, Seq<char>>(Data::Boolean(false))
            &&& !on && !off ==> r is Err
        }),
{
    reveal_strlit("true");
    reveal_strlit("1");
    reveal_strlit("on");
    reveal_strlit("false");
    reveal_strlit("0");
    reveal_strlit("off");
    assert("true"@ =~= seq!['t', 'r', 'u', 'e']);
    assert("1"@ =~= seq!['1']);
    assert("on"@ =~= seq!['o', 'n']);
    assert("false"@ =~= seq!['f', 'a', 'l', 's', 'e']);
    assert("0"@ =~= seq!['0']);
    assert("off"@ =~= seq!['o', 'f', 'f']);
}

/// A number is read where it fits its type, text as it is but for the white
/// space around it, and a value of a type that cannot be typed not at all.
pub proof fn a_typed_value_is_read_as_its_type(n: nat, s: Seq<char>, k: Type, float: FloatReading)
    ensures
        n <= i64::MAX ==> exact_reading(Some(Type::Integer), decimal(n)) == Ok::<Data, Seq<char>>(
            Data::Integer(n as i64),
        ),
        n > i64::MAX ==> exact_reading(Some(Type::Integer), decimal(n)) is Err,
        n <= u32::MAX ==> exact_reading(Some(Type::Unsigned), decimal(n)) == Ok::<Data, Seq<char>>(
            Data::Unsigned(n as u64),
        ),
        n > u32::MAX ==> exact_reading(Some(Type::Unsigned), decimal(n)) is Err,
        exact_reading(Some(Type::VisibleString), s) == Ok::<Data, Seq<char>>(
            Data::VisibleString(trimmed(s)),
        ),
        exact_reading(Some(Type::MmsString), s) == Ok::<Data, Seq<char>>(
            Data::MmsString(trimmed(s)),
        ),
        k != Type::Boolean && k != Type::Integer && k != Type::Unsigned && k != Type::VisibleString
            && k != Type::MmsString ==> exact_reading(Some(k), s) is Err,
        exact_reading(None, s) is Err,
        float.single matches Ok(bits) ==> reading(Some(Type::Float32), s, float) == Ok::<
            Data,
            Seq<char>,
        >(Data::Float32(bits)),
        float.double matches Ok(bits) ==> reading(Some(Type::Float64), s, float) == Ok::<
            Data,
            Seq<char>,
        >(Data::Float64(bits)),
        float.single is Err ==> reading(Some(Type::Float32), s, float) is Err,
        float.double is Err ==> reading(Some(Type::Float64), s, float) is Err,
        k != Type::Float32 && k != Type::Float64 ==> reading(Some(k), s, float) == exact_reading(
            Some(k),
            s,
        ),
{
    crate::notation::a_number_reads_back_with_its_sign(n, true);
    crate::notation::a_number_reads_back_with_its_sign(n, false);
    crate::notation::a_decimal_reads_back(n);
    let d = decimal(n);
    assert('0' <= d[0] <= '9' && '0' <= d[d.len() - 1] <= '9');
    lemma_trimmed_same(d);
}

/// What is written is what was read of the text, where the attribute stands; a
/// text that does not read is not written, and the dialog stays.
pub proof fn only_what_reads_is_written(
    reference: Seq<char>,
    fc: Fc,
    kind: Option<Type>,
    field: Field,
)
    requires
        kind != Some(Type::Float32),
        kind != Some(Type::Float64),
    ensures
        ({
            let o = Overlay::Write { reference, fc, kind, field };
            &&& exact_reading(kind, field.value) matches Ok(value) ==> o.asks(KeyCode::Enter, true)
                == seq![Deed::Write { reference, fc, value }] && o.closes(KeyCode::Enter)
            &&& exact_reading(kind, field.value) is Err ==> !o.closes(KeyCode::Enter) && o.asks(
                KeyCode::Enter,
                true,
            ).len() == 1 && (o.asks(KeyCode::Enter, true)[0] matches Deed::Status(t, k) && k
                == StatusKind::Failure)
            &&& o.closes(KeyCode::Esc)
            &&& o.asks(KeyCode::Esc, true).len() == 0
            &&& Overlay::Help.closes(KeyCode::Esc)
        }),
{
}

/// A floating-point number is read by the program, and written once it came
/// back, in the width of the attribute.
pub proof fn a_floating_point_number_is_written_once_read(
    reference: Seq<char>,
    fc: Fc,
    field: Field,
    float: FloatReading,
)
    ensures
        ({
            let o = Overlay::Write { reference, fc, kind: Some(Type::Float32), field };
            let w = Overlay::Write { reference, fc, kind: Some(Type::Float64), field };
            &&& o.asks(KeyCode::Enter, true) == seq![
                Deed::ParseFloat { text: trimmed(field.value) },
            ]
            &&& !o.closes(KeyCode::Enter)
            &&& float.single matches Ok(bits) ==> o.asks_on_float(float, true) == seq![
                Deed::Write { reference, fc, value: Data::Float32(bits) },
            ] && o.closes_on_float(float)
            &&& float.double matches Ok(bits) ==> w.asks_on_float(float, true) == seq![
                Deed::Write { reference, fc, value: Data::Float64(bits) },
            ] && w.closes_on_float(float)
            &&& float.single is Err ==> !o.closes_on_float(float)
        }),
{
}

/// A field is started from the value last read where that reads back, with the
/// cursor behind it, and is empty otherwise.
pub proof fn a_field_starts_from_what_was_read(
    reference: Seq<char>,
    fc: Fc,
    kind: Option<Type>,
    v: Seq<char>,
)
    ensures
        ({
            let o = write_overlay(reference, fc, kind).prefilled(Some(v));
            let number = kind == Some(Type::Boolean) || kind == Some(Type::Integer) || kind == Some(
                Type::Unsigned,
            ) || kind == Some(Type::Float32) || kind == Some(Type::Float64);
            &&& o matches Overlay::Write { reference: r, fc: f, kind: k, field } && r == reference
                && f == fc && k == kind && field.value == (if number {
                trimmed(v)
            } else {
                Seq::empty()
            }) && field.cursor == field.value.len()
        }),
        write_overlay(reference, fc, kind).prefilled(None) == write_overlay(reference, fc, kind),
{
}

/// The form is submitted from any field but the one for encryption, which the
/// blank and the enter key turn round; escape leaves it.
pub proof fn a_form_is_submitted(f: Form)
    requires
        f.valid(),
    ensures
        f.wants(KeyCode::Esc) == FormAction::Quit,
        f.focus != 2 ==> f.wants(KeyCode::Enter) == FormAction::Submit && f.after(KeyCode::Enter)
            == f,
        f.focus == 2 ==> f.wants(KeyCode::Enter) == FormAction::Stay && f.after(KeyCode::Enter)
            == (Form { tls: !f.tls, ..f }),
        f.focus == 2 ==> f.after(KeyCode::Char(' ')) == (Form { tls: !f.tls, ..f }),
        f.wants(KeyCode::Tab) == FormAction::Stay,
        f.focus < 3 ==> f.after(KeyCode::Tab).focus == f.focus + 1,
        f.focus == 3 ==> f.after(KeyCode::Tab).focus == 0,
        f.focus == 0 ==> f.after(KeyCode::Char('x')).address == f.address.after(KeyCode::Char('x')),
        f.focus == 1 ==> f.after(KeyCode::Char('x')).password == f.password.after(
            KeyCode::Char('x'),
        ),
{
}

/// A form starts with what it is given, on its first field, and hides the
/// password.
pub proof fn a_form_starts_with_what_it_is_given(
    address: Seq<char>,
    password: Seq<char>,
    tls: bool,
)
    ensures
        form_of(address, password, tls).address.value == address,
        form_of(address, password, tls).password.value == password,
        form_of(address, password, tls).tls == tls,
        form_of(address, password, tls).focus == 0,
        form_of(address, password, tls).password.masked,
        !form_of(address, password, tls).address.masked,
        form_of(address, password, tls).valid(),
{
}

/// What the dialog shows of an option is what is sent: a tick where it is set,
/// and the position in words; the row that has the focus is marked.
pub proof fn an_option_is_shown_as_it_is(b: bool, text: Seq<char>, p: Paint)
    ensures
        tick(true) == "[x]"@,
        tick(false) == "[ ]"@,
        position(true) == "ON"@,
        position(false) == "OFF"@,
        focused_row(b, text, p).inks[0].text == (if b { "▸ "@ } else { "  "@ }) + text,
{
}

} // verus!
