//! The widgets, the layout and the dialogs of the terminal client.

use iec61850::mms::{Type, Value};
use iec61850::model::{Fc, ObjectReference};
use iec61850::ui::dialogs::{
    parse_value, ConnectForm, ControlDialog, Dialog, FloatReading, FormAction, CF_PASSWORD, CF_TLS,
    F_INTERLOCK, F_OPERATE, F_ORIGINATOR, F_SYNCHRO, F_VALUE,
};
use iec61850::ui::layout::{frame_areas, inner, pane_areas, panel_areas};
use iec61850::ui::widgets::{centred, clip, left_width, ListBox, RefRows, TextField};
use iec61850::ui::{Ctx, Effect, KeyCode, KeyEvent, Line, Paint, Rect, StatusKind};

fn key(code: KeyCode) -> KeyEvent {
    KeyEvent::plain(code)
}

fn ctx() -> Ctx {
    Ctx::new(false)
}

fn reference(s: &str) -> ObjectReference {
    ObjectReference::from_text(s)
}

fn text(l: &Line) -> String {
    l.spans.iter().map(|s| s.text.as_str()).collect()
}

/// The split has to hold on a narrow terminal too: a left pane as wide as
/// the frame would leave the detail pane nothing, and the arithmetic must
/// not fold over on a very wide one.
#[test]
fn the_left_pane_leaves_room_for_the_detail_pane_at_any_width() {
    for width in [20u16, 30, 40, 60, 80, 120, 200, 400, u16::MAX] {
        let left = left_width(width, 32);
        assert!(left > 0, "width={width} left={left}");
        assert!(left < width, "width={width} left={left}");
    }
}

#[test]
fn a_roomy_frame_gets_two_fifths_but_never_less_than_the_minimum() {
    assert_eq!(left_width(200, 32), 80);
    // Two fifths of 60 is 24, which is below the minimum asked for.
    assert_eq!(left_width(60, 32), 32);
}

#[test]
fn the_cursor_stays_inside_the_list() {
    let mut l = ListBox::default();
    l.move_by(-1, 5);
    assert_eq!(l.cursor, 0, "moving up from the top stays at the top");
    l.move_by(10, 5);
    assert_eq!(l.cursor, 4, "moving past the end stops at the last item");
    l.last(5);
    assert_eq!(l.cursor, 4);
    l.first();
    assert_eq!(l.cursor, 0);
}

#[test]
fn an_empty_list_has_no_cursor_to_move() {
    let mut l = ListBox::default();
    l.move_by(1, 0);
    assert_eq!(l.cursor, 0);
    l.last(0);
    assert_eq!(l.cursor, 0);
}

#[test]
fn scrolling_follows_the_cursor_in_both_directions() {
    let mut l = ListBox {
        cursor: 20,
        ..Default::default()
    };
    l.scroll_into_view(50, 10);
    assert!(l.top <= 20 && 20 < l.top + 10, "top={}", l.top);

    l.cursor = 0;
    l.scroll_into_view(50, 10);
    assert_eq!(l.top, 0);
}

/// A list that shrinks under the cursor must not leave the view pointing
/// past the end, or the panel renders blank.
#[test]
fn a_shrinking_list_pulls_the_view_back() {
    let mut l = ListBox {
        cursor: 40,
        ..Default::default()
    };
    l.scroll_into_view(50, 10);
    assert!(l.top > 0);

    l.scroll_into_view(3, 10);
    assert_eq!(l.top, 0);
    assert_eq!(l.cursor, 2);
}

/// A click below the last row should leave the selection alone rather than
/// jumping to the end.
#[test]
fn clicking_past_the_last_row_selects_nothing() {
    let mut l = ListBox {
        cursor: 1,
        ..Default::default()
    };
    assert!(!l.click_row(9, 3));
    assert_eq!(l.cursor, 1, "the selection is unchanged");
    assert!(l.click_row(2, 3));
    assert_eq!(l.cursor, 2);
}

#[test]
fn clicking_accounts_for_the_scroll_offset() {
    let mut l = ListBox {
        top: 10,
        ..Default::default()
    };
    assert!(l.click_row(3, 50));
    assert_eq!(l.cursor, 13);
}

#[test]
fn the_movement_keys_steer_a_list() {
    let mut l = ListBox::default();
    for code in [KeyCode::Down, KeyCode::Char('j'), KeyCode::End, KeyCode::Char('G')] {
        assert!(l.steer(key(code), 5), "{code:?} moves");
    }
    assert_eq!(l.cursor, 4);
    assert!(l.steer(key(KeyCode::Up), 5));
    assert_eq!(l.cursor, 3);
    assert!(l.steer(key(KeyCode::Char('g')), 5));
    assert_eq!(l.cursor, 0);
    assert!(!l.steer(key(KeyCode::Enter), 5));
    l.wheel(false, 5);
    assert_eq!(l.cursor, 1);
}

#[test]
fn a_list_shows_its_rows_and_marks_the_selected_one() {
    let refs = vec![reference("LD/A"), reference("LD/B")];
    let mut l = ListBox { cursor: 1, top: 0 };
    let p = l.render(Rect::new(0, 0, 20, 6), "blocks", &RefRows { refs: &refs });
    assert_eq!(p.title, "blocks");
    assert_eq!(p.lines.len(), 2);
    assert!(text(&p.lines[0]).contains("LD/A"));
    assert!(!p.lines[0].selected);
    assert!(p.lines[1].selected);
}

#[test]
fn a_text_field_edits_at_the_cursor() {
    let mut f = TextField::new("");
    for c in "hello".chars() {
        f.on_key(key(KeyCode::Char(c)));
    }
    assert_eq!(f.value, "hello");
    assert_eq!(f.cursor, 5);

    f.on_key(key(KeyCode::Home));
    f.on_key(key(KeyCode::Char('>')));
    assert_eq!(f.value, ">hello");
    assert_eq!(f.cursor, 1);

    f.on_key(key(KeyCode::End));
    f.on_key(key(KeyCode::Backspace));
    assert_eq!(f.value, ">hell");
}

#[test]
fn a_text_field_edits_multi_byte_text_by_character() {
    let mut f = TextField::new("héllo");
    assert_eq!(f.cursor, 5);
    f.on_key(key(KeyCode::Home));
    f.on_key(key(KeyCode::Right));
    f.on_key(key(KeyCode::Backspace));
    assert_eq!(f.value, "héllo".chars().skip(1).collect::<String>());
}

/// Keys the field does not use have to reach the surrounding form, or a
/// dialog with a focused field could never be dismissed.
#[test]
fn unhandled_keys_are_passed_back() {
    let mut f = TextField::new("x");
    assert!(f.on_key(key(KeyCode::Char('y'))));
    assert!(!f.on_key(key(KeyCode::Enter)));
    assert!(!f.on_key(key(KeyCode::Esc)));
    assert!(!f.on_key(key(KeyCode::Tab)));
}

#[test]
fn edits_at_the_ends_are_refused_rather_than_wrapping() {
    let mut f = TextField::new("");
    assert!(!f.on_key(key(KeyCode::Backspace)));
    assert!(!f.on_key(key(KeyCode::Left)));
    assert!(!f.on_key(key(KeyCode::Delete)));
    assert!(!f.on_key(key(KeyCode::Right)));
    assert_eq!(f.value, "");
}

#[test]
fn a_masked_field_hides_its_value_but_keeps_it() {
    let f = TextField::new("secret").masked();
    let text = text(&f.line(false));
    assert!(!text.contains("secret"));
    assert!(text.contains('•'));
    assert_eq!(f.value, "secret", "the value is still readable in code");
}

#[test]
fn an_empty_field_shows_its_placeholder_until_it_is_focused() {
    let f = TextField::new("").with_placeholder("host:port");
    assert!(text(&f.line(false)).contains("host:port"));
}

#[test]
fn clipping_marks_what_it_cut() {
    assert_eq!(clip("short", 10), "short");
    assert_eq!(clip("truncate me", 5), "trun…");
    assert_eq!(clip("abc", 3), "abc");
    assert_eq!(clip("abc", 1), "");
}

#[test]
fn centring_fits_inside_the_area_it_is_given() {
    let area = Rect::new(0, 0, 100, 40);
    let r = centred(area, 60, 20);
    assert_eq!((r.width, r.height), (60, 20));
    assert_eq!((r.x, r.y), (20, 10));

    // A dialog larger than the screen is clamped, not drawn off-screen.
    let r = centred(Rect::new(0, 0, 20, 10), 60, 20);
    assert_eq!((r.width, r.height), (20, 10));
    assert_eq!((r.x, r.y), (0, 0));
}

#[test]
fn a_panel_keeps_its_last_row_for_the_hint() {
    let p = panel_areas(Rect::new(3, 5, 80, 20));
    assert_eq!(p.body, Rect::new(3, 5, 80, 19));
    assert_eq!(p.hint, Rect::new(3, 24, 80, 1));
}

#[test]
fn two_panes_stand_side_by_side() {
    let p = pane_areas(Rect::new(0, 2, 100, 20), 40);
    assert_eq!(p.left, Rect::new(0, 2, 40, 20));
    assert_eq!(p.right, Rect::new(40, 2, 60, 20));
}

#[test]
fn a_frame_has_its_chrome_around_the_content() {
    let f = frame_areas(Rect::new(0, 0, 80, 24));
    assert_eq!(f.header, Rect::new(0, 0, 80, 1));
    assert_eq!(f.tabs, Rect::new(0, 1, 80, 1));
    assert_eq!(f.content, Rect::new(0, 2, 80, 20));
    assert_eq!(f.status, Rect::new(0, 22, 80, 1));
    assert_eq!(f.help, Rect::new(0, 23, 80, 1));
    assert_eq!(inner(f.content), Rect::new(1, 3, 78, 18));
}

/// How a text reads as a floating-point number of either width.
fn floats(s: &str) -> FloatReading {
    FloatReading {
        single: s.trim().parse::<f32>().map(f32::to_bits).map_err(|e| e.to_string()),
        double: s.trim().parse::<f64>().map(f64::to_bits).map_err(|e| e.to_string()),
    }
}

fn parse(kind: Option<Type>, s: &str) -> Result<Value, String> {
    parse_value(kind, s, &floats(s))
}

#[test]
fn a_value_is_parsed_as_the_type_the_model_declares() {
    assert_eq!(
        parse(Some(Type::Boolean), "true").unwrap(),
        Value::boolean(true)
    );
    assert_eq!(
        parse(Some(Type::Boolean), "off").unwrap(),
        Value::boolean(false)
    );
    assert_eq!(
        parse(Some(Type::Integer), "-5").unwrap(),
        Value::int64(-5)
    );
    assert_eq!(
        parse(Some(Type::Unsigned), "230").unwrap(),
        Value::uint32(230)
    );
    assert_eq!(
        parse(Some(Type::Float32), "230.4").unwrap(),
        Value::float32(230.4f32.to_bits())
    );
    assert_eq!(
        parse(Some(Type::VisibleString), " text ").unwrap(),
        Value::visible_string("text")
    );
    assert_eq!(
        parse(Some(Type::Float64), "-1.5").unwrap(),
        Value::float64((-1.5f64).to_bits())
    );
    assert_eq!(parse(Some(Type::MmsString), "é").unwrap(), Value::mms_string("é"));
}

/// A device rejects a mistyped write anyway; catching it here says what is
/// wrong instead of showing a bare access error.
#[test]
fn a_value_of_the_wrong_shape_is_refused_before_it_is_sent() {
    assert!(parse(Some(Type::Boolean), "yes").is_err());
    assert!(parse(Some(Type::Integer), "1.5").is_err());
    assert!(parse(Some(Type::Unsigned), "-1").is_err());
    assert!(parse(Some(Type::Float32), "abc").is_err());
    assert!(parse(Some(Type::UtcTime), "now").is_err());
    assert!(parse(None, "x").is_err());
}

#[test]
fn a_refusal_says_what_is_wrong() {
    assert_eq!(parse(Some(Type::Boolean), "yes").unwrap_err(), "expected true or false");
    let said = |s: &str| s.parse::<i64>().unwrap_err().to_string();
    assert_eq!(parse(Some(Type::Integer), " 1.5 ").unwrap_err(), said("1.5"));
    assert_eq!(parse(Some(Type::Integer), "").unwrap_err(), said(""));
    assert_eq!(
        parse(Some(Type::Unsigned), "4294967296").unwrap_err(),
        "4294967296".parse::<u32>().unwrap_err().to_string()
    );
    assert_eq!(parse(Some(Type::Unsigned), "+7").unwrap(), Value::uint32(7));
    assert_eq!(parse(None, "x").unwrap_err(), "unknown type");
}

/// Editing a setpoint starts from what is there now; a string is rendered
/// quoted, so prefilling it would write the quotes back into the device.
#[test]
fn the_write_dialog_prefills_only_what_parses_back() {
    let d = Dialog::write(reference("LD/LN.DO.da"), Fc::Sp, Some(Type::Float32))
        .prefilled(Some("230.4"));
    let Dialog::Write { field, .. } = &d else {
        panic!("expected a write dialog");
    };
    assert_eq!(field.value, "230.4");
    assert_eq!(field.cursor, 5, "the cursor sits at the end, ready to edit");

    let d = Dialog::write(reference("LD/LN.DO.da"), Fc::Sp, Some(Type::VisibleString))
        .prefilled(Some("\"text\""));
    let Dialog::Write { field, .. } = &d else {
        panic!("expected a write dialog");
    };
    assert!(field.value.is_empty());

    // A read that failed leaves an error message, not a value.
    let d = Dialog::write(reference("LD/LN.DO.da"), Fc::Sp, Some(Type::Integer)).prefilled(None);
    let Dialog::Write { field, .. } = &d else {
        panic!("expected a write dialog");
    };
    assert!(field.value.is_empty());
}

#[test]
fn the_write_dialog_closes_on_escape_and_stays_on_a_bad_value() {
    let mut d = Dialog::write(reference("LD/LN.DO.da"), Fc::Cf, Some(Type::Integer));
    // A bad value keeps the dialog open so it can be corrected.
    if let Dialog::Write { field, .. } = &mut d {
        field.set("not a number");
    }
    assert!(!d.on_key(key(KeyCode::Enter), &mut ctx()));
    assert!(d.on_key(key(KeyCode::Esc), &mut ctx()));
}

#[test]
fn a_good_value_is_written_and_closes_the_dialog() {
    let mut c = Ctx::new(true);
    let mut d = Dialog::write(reference("LD/LN.DO.da"), Fc::Cf, Some(Type::Integer));
    for ch in "-5".chars() {
        assert!(!d.on_key(key(KeyCode::Char(ch)), &mut c));
    }
    assert!(d.on_key(key(KeyCode::Enter), &mut c));
    assert!(c.effects.iter().any(|e| matches!(
        e,
        Effect::Write { reference, fc: Fc::Cf, value }
            if reference.as_str() == "LD/LN.DO.da" && *value == Value::int64(-5)
    )));
}

/// The program reads a floating-point number and hands the reading back.
#[test]
fn a_floating_point_value_is_read_before_it_is_written() {
    let mut c = Ctx::new(true);
    let mut d = Dialog::write(reference("LD/LN.DO.da"), Fc::Sp, Some(Type::Float32));
    for ch in "1.5".chars() {
        d.on_key(key(KeyCode::Char(ch)), &mut c);
    }
    assert!(!d.on_key(key(KeyCode::Enter), &mut c));
    let Some(Effect::ParseFloat { text }) = c.effects.pop() else {
        panic!("the reading is asked for");
    };
    assert!(d.on_float(&floats(&text), &mut c));
    assert!(c
        .effects
        .iter()
        .any(|e| matches!(e, Effect::Write { value, .. } if *value == Value::float32(1.5f32.to_bits()))));
    // A text that is no number keeps the dialog open.
    let mut d = Dialog::write(reference("LD/LN.DO.da"), Fc::Sp, Some(Type::Float32));
    assert!(!d.on_float(&floats("abc"), &mut c));
}

/// Operating switchgear should take a deliberate confirmation, not a
/// single keystroke.
#[test]
fn operating_requires_reaching_the_button_and_confirming() {
    let mut d = ControlDialog::new(reference("LD/GGIO1.SPCSO1"));
    assert_eq!(d.focus, F_VALUE);
    assert!(!d.confirm);

    // Enter anywhere but the button does not arm it.
    assert!(!d.on_key(key(KeyCode::Enter), &mut ctx()));
    assert!(!d.confirm);

    for _ in 0..F_OPERATE {
        d.on_key(key(KeyCode::Tab), &mut ctx());
    }
    assert_eq!(d.focus, F_OPERATE);
    assert!(!d.on_key(key(KeyCode::Enter), &mut ctx()));
    assert!(d.confirm, "the button arms the confirmation");

    // Any key but yes backs out, leaving the dialog open.
    assert!(!d.on_key(key(KeyCode::Char('n')), &mut ctx()));
    assert!(!d.confirm);
}

#[test]
fn a_confirmed_control_is_operated_once() {
    let mut c = Ctx::new(true);
    let mut d = ControlDialog::new(reference("LD/GGIO1.SPCSO1"));
    d.focus = F_OPERATE;
    d.on_key(key(KeyCode::Enter), &mut c);
    let before = c.effects.len();
    assert!(d.on_key(key(KeyCode::Char('y')), &mut c));
    let operated = c.effects[before..]
        .iter()
        .filter(|e| matches!(e, Effect::Operate { on: true, test: false, .. }))
        .count();
    assert_eq!(operated, 1);
}

#[test]
fn a_confirm_prompt_is_not_dismissed_by_a_stray_click() {
    assert!(Dialog::help().dismissable_by_click());
    assert!(!Dialog::control(reference("LD/GGIO1.SPCSO1")).dismissable_by_click());
    assert!(!Dialog::write(reference("LD/LN.DO.da"), Fc::Cf, None).dismissable_by_click());
}

#[test]
fn the_control_dialog_toggles_its_checks_with_space() {
    let mut d = ControlDialog::new(reference("LD/GGIO1.SPCSO1"));
    assert!(d.on, "a control defaults to ON");
    d.on_key(key(KeyCode::Char(' ')), &mut ctx());
    assert!(!d.on);

    d.focus = F_INTERLOCK;
    d.on_key(key(KeyCode::Char(' ')), &mut ctx());
    assert!(d.interlock);
    d.focus = F_SYNCHRO;
    d.on_key(key(KeyCode::Char(' ')), &mut ctx());
    assert!(d.synchro);
    assert!(!d.test, "the other flags are untouched");
}

/// A space in the originator has to be text, not a toggle.
#[test]
fn the_originator_field_takes_spaces_as_text() {
    let mut d = ControlDialog::new(reference("LD/GGIO1.SPCSO1"));
    d.focus = F_ORIGINATOR;
    d.originator.set("");
    for c in "bay 1".chars() {
        d.on_key(key(KeyCode::Char(c)), &mut ctx());
    }
    assert_eq!(d.originator.value, "bay 1");
    assert!(d.on, "typing must not have toggled the value");
}

#[test]
fn focus_wraps_in_both_directions() {
    let mut d = ControlDialog::new(reference("LD/GGIO1.SPCSO1"));
    d.on_key(key(KeyCode::BackTab), &mut ctx());
    assert_eq!(d.focus, F_OPERATE, "back from the first row wraps to the last");
    d.on_key(key(KeyCode::Tab), &mut ctx());
    assert_eq!(d.focus, F_VALUE);
}

#[test]
fn the_control_dialog_draws_its_prompt_when_it_is_armed() {
    let mut d = ControlDialog::new(reference("LD/GGIO1.SPCSO1"));
    let calm = d.draw();
    d.focus = F_OPERATE;
    d.on_key(key(KeyCode::Enter), &mut ctx());
    let armed = d.draw();
    let all = |p: &iec61850::ui::dialogs::Popup| -> String { p.lines.iter().map(text).collect() };
    assert_ne!(all(&calm), all(&armed));
    assert_eq!(armed.place(Rect::new(0, 0, 200, 100)).width, armed.width);
}

#[test]
fn the_connect_form_submits_and_quits() {
    let mut f = ConnectForm::new("", "", false);
    for c in "127.0.0.1:102".chars() {
        f.on_key(key(KeyCode::Char(c)));
    }
    assert_eq!(f.address(), "127.0.0.1:102");
    assert_eq!(f.on_key(key(KeyCode::Enter)), FormAction::Submit);
    assert_eq!(f.on_key(key(KeyCode::Esc)), FormAction::Quit);
}

#[test]
fn the_connect_form_toggles_tls_rather_than_submitting() {
    let mut f = ConnectForm::new("host:102", "", false);
    f.focus = CF_TLS;
    assert_eq!(f.on_key(key(KeyCode::Enter)), FormAction::Stay);
    assert!(f.tls(), "enter on the toggle flips it instead of connecting");
    f.on_key(key(KeyCode::Char(' ')));
    assert!(!f.tls());
}

#[test]
fn the_password_is_typed_into_the_focused_field_only() {
    let mut f = ConnectForm::new("host:102", "", false);
    f.focus = CF_PASSWORD;
    for c in "secret".chars() {
        f.on_key(key(KeyCode::Char(c)));
    }
    assert_eq!(f.password(), "secret");
    assert_eq!(f.address(), "host:102", "the address is untouched");
    let drawn: String = f.draw().lines.iter().map(text).collect();
    assert!(!drawn.contains("secret"));
}

#[test]
fn the_address_is_trimmed_so_a_stray_space_does_not_break_the_dial() {
    let f = ConnectForm::new("  host:102  ", "", false);
    assert_eq!(f.address(), "host:102");
}

#[test]
fn a_status_is_painted_by_its_kind() {
    assert_eq!(StatusKind::Failure.style(), Paint::Error);
    let mut c = ctx();
    c.ok("saved");
    c.err("refused");
    assert!(matches!(&c.effects[0], Effect::Status(s, StatusKind::Success) if s == "saved"));
    assert!(matches!(&c.effects[1], Effect::Status(s, StatusKind::Failure) if s == "refused"));
    assert!(!c.client(), "there is no connection");
    assert!(matches!(&c.effects[2], Effect::Status(_, StatusKind::Failure)));
}

#[test]
fn a_prefilled_boolean_or_number_reads_back() {
    for (kind, shown, bits) in [
        (Type::Boolean, "true", 1i64),
        (Type::Boolean, "false", 0),
        (Type::Integer, "-9223372036854775808", i64::MIN),
        (Type::Integer, "42", 42),
        (Type::Unsigned, "4294967295", 4_294_967_295),
    ] {
        let d = Dialog::write(reference("LD/LN.DO.da"), Fc::Sp, Some(kind)).prefilled(Some(shown));
        let Dialog::Write { field, .. } = &d else {
            panic!("expected a write dialog");
        };
        let v = parse(Some(kind), &field.value).expect(shown);
        assert_eq!(v.type_of(), kind);
        match kind {
            Type::Boolean => assert_eq!(i64::from(v.as_bool()), bits),
            Type::Unsigned => assert_eq!(v.as_u64() as i64, bits),
            _ => assert_eq!(v.as_i64(), bits),
        }
    }
}
