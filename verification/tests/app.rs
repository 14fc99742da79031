//! The terminal client as a whole.

use iec61850::mms::Type;
use iec61850::model::{Fc, ObjectReference};
use iec61850::ui::app::{
    connect_refusal, rect_contains, App, MouseEvent, MouseEventKind, Msg, Shown, Tab, TABS,
};
use iec61850::ui::dialogs::Dialog;
use iec61850::ui::settings::SgInfo;
use iec61850::ui::{Effect, KeyCode, KeyEvent, Rect, StatusKind};

fn app() -> App {
    App::new("127.0.0.1:102".into(), String::new(), false)
}

fn key(code: KeyCode) -> KeyEvent {
    KeyEvent::plain(code)
}

fn tabs() -> Vec<Tab> {
    (0..TABS).map(Tab::at).collect()
}

#[test]
fn every_tab_has_a_distinct_title_and_index() {
    let mut titles: Vec<&str> = tabs().iter().map(|t| t.title()).collect();
    titles.sort_unstable();
    titles.dedup();
    assert_eq!(titles.len(), tabs().len());
    for (i, t) in tabs().iter().enumerate() {
        assert_eq!(t.index(), i);
    }
}

#[test]
fn tab_keys_cycle_in_both_directions_and_wrap() {
    let mut a = app();
    a.connected = true;
    assert_eq!(a.active, Tab::Browse);

    a.on_key(key(KeyCode::Tab));
    assert_eq!(a.active, Tab::Reports);

    a.on_key(key(KeyCode::BackTab));
    assert_eq!(a.active, Tab::Browse);

    // Wrapping backwards from the first tab lands on the last.
    a.on_key(key(KeyCode::BackTab));
    assert_eq!(a.active, Tab::Logs);
    a.on_key(key(KeyCode::Tab));
    assert_eq!(a.active, Tab::Browse);
}

#[test]
fn number_keys_select_a_tab_directly() {
    let mut a = app();
    a.connected = true;
    a.on_key(key(KeyCode::Char('4')));
    assert_eq!(a.active, Tab::Controls);
    a.on_key(key(KeyCode::Char('1')));
    assert_eq!(a.active, Tab::Browse);
}

/// The setting-groups panel uses the digits to activate a group, so it has
/// to keep them rather than have the tab bar swallow them.
#[test]
fn the_setting_groups_panel_keeps_the_number_keys() {
    let mut a = app();
    a.connected = true;
    a.active = Tab::SettingGroups;
    a.settings.current = Some(SgInfo {
        reference: ObjectReference::from_text("LD/LLN0.SP.SGCB"),
        num_of_sg: 4,
        act_sg: 1,
        edit_sg: 0,
    });
    a.on_key(key(KeyCode::Char('2')));
    assert_eq!(a.active, Tab::SettingGroups, "the tab must not change");
}

/// A device without setting groups has nothing for the digits to do, and
/// swallowing them there would leave the tab with no way out.
#[test]
fn the_digits_switch_tabs_again_when_there_is_no_group_to_activate() {
    let mut a = app();
    a.connected = true;
    a.active = Tab::SettingGroups;
    assert!(a.settings.current.is_none());
    a.on_key(key(KeyCode::Char('1')));
    assert_eq!(a.active, Tab::Browse);
}

/// `q` and the digits are ordinary characters while the filter is open;
/// letting the tab bar have them would quit on a reference containing a q.
#[test]
fn the_browse_filter_keeps_every_key_it_is_typed() {
    let mut a = app();
    a.connected = true;
    a.on_key(key(KeyCode::Char('/')));
    for c in "q1R?".chars() {
        a.on_key(key(KeyCode::Char(c)));
    }
    assert!(!a.should_quit, "the q was text");
    assert_eq!(a.active, Tab::Browse, "the 1 was text");
    assert!(a.dialog.is_none(), "the ? was text");
    assert_eq!(a.browse.filter(), "q1R?");

    // Ctrl-C still gets out, whatever is being typed.
    a.on_key(KeyEvent::control(KeyCode::Char('c')));
    assert!(a.should_quit);
}

#[test]
fn ctrl_c_quits_from_anywhere() {
    for connected in [false, true] {
        let mut a = app();
        a.connected = connected;
        a.dialog = Some(Dialog::help());
        a.on_key(KeyEvent::control(KeyCode::Char('c')));
        assert!(a.should_quit, "connected={connected}");
    }
}

/// A dialog is modal: keys must not reach the tab bar behind it, or a
/// confirm prompt could be navigated away from mid-decision.
#[test]
fn a_dialog_captures_keys() {
    let mut a = app();
    a.connected = true;
    a.dialog = Some(Dialog::help());
    a.on_key(key(KeyCode::Tab));
    assert_eq!(a.active, Tab::Browse, "the tab must not have changed");
    assert!(a.dialog.is_none(), "any key closes the help");
}

#[test]
fn q_does_not_quit_while_a_dialog_is_open() {
    let mut a = app();
    a.connected = true;
    a.dialog = Some(Dialog::write(
        ObjectReference::from_text("LD/LN.DO.da"),
        Fc::Cf,
        Some(Type::Boolean),
    ));
    a.on_key(key(KeyCode::Char('q')));
    assert!(!a.should_quit, "q is text for the dialog's field");
}

#[test]
fn a_tab_loads_once_and_reload_forces_it_again() {
    let mut a = app();
    a.connected = true;
    assert!(!a.loaded[Tab::Browse.index()]);
    a.load_active();
    assert!(a.loaded[Tab::Browse.index()]);
    // Loading again is a no-op; only R re-fetches, which is what keeps
    // switching back to a tab instant.
    let before = a.take_effects().len();
    a.load_active();
    assert!(a.take_effects().is_empty());
    a.reload_active();
    assert_eq!(a.take_effects().len(), before);
}

#[test]
fn a_status_message_updates_the_line_and_its_colour() {
    let mut a = app();
    a.on_msg(Msg::Status("hello".into(), StatusKind::Success));
    assert_eq!(a.status, "hello");
    assert_eq!(a.status_kind, StatusKind::Success);
}

/// The form takes a bare host just as the command line does, or the
/// connection would be attempted against an address with no port.
#[test]
fn an_address_typed_into_the_form_gets_the_default_port() {
    let mut a = App::new(String::new(), String::new(), false);
    a.start();
    for c in "192.0.2.7".chars() {
        a.on_key(key(KeyCode::Char(c)));
    }
    a.on_key(key(KeyCode::Enter));
    assert_eq!(a.addr, "192.0.2.7:102");
    assert!(a
        .take_effects()
        .iter()
        .any(|e| matches!(e, Effect::Connect { addr, .. } if addr == "192.0.2.7:102")));
}

#[test]
fn a_failed_connection_reopens_the_form() {
    let mut a = app();
    assert!(a.connect_form.is_none());
    a.on_msg(Msg::ConnectFailed("refused".into()));
    assert!(a.connect_form.is_some(), "the user needs a way to retry");
    assert_eq!(a.status_kind, StatusKind::Failure);
    assert!(a.status.contains("refused"));
}

#[test]
fn a_connection_loads_the_tab_that_is_shown() {
    let mut a = app();
    a.start();
    assert!(a.take_effects().iter().any(|e| matches!(e, Effect::Connect { .. })));
    a.on_msg(Msg::Connected { ident: "DSC model 1".into() });
    assert!(a.connected && a.ctx.online);
    assert!(a.take_effects().iter().any(|e| matches!(e, Effect::LoadModel)));
}

#[test]
fn rect_containment_excludes_the_far_edges() {
    let r = Rect::new(2, 3, 10, 5);
    assert!(rect_contains(r, 2, 3));
    assert!(rect_contains(r, 11, 7));
    assert!(!rect_contains(r, 12, 7), "x is exclusive at the right edge");
    assert!(!rect_contains(r, 11, 8), "y is exclusive at the bottom");
    assert!(!rect_contains(r, 1, 3));
}

#[test]
fn a_click_on_the_tab_bar_switches_tabs() {
    let mut a = app();
    a.connected = true;
    assert!(matches!(a.draw(Rect::new(0, 0, 100, 30)), Shown::Connected(_)));
    let (from, _) = a.tab_spans[Tab::Files.index()];
    a.on_mouse(MouseEvent { kind: MouseEventKind::Left, column: from, row: 1 });
    assert_eq!(a.active, Tab::Files);
}

#[test]
fn nothing_but_the_form_is_shown_before_a_connection() {
    let mut a = App::new(String::new(), String::new(), false);
    a.start();
    match a.draw(Rect::new(0, 0, 100, 30)) {
        Shown::Waiting(w) => assert!(w.form.is_some()),
        Shown::Connected(_) => panic!("there is no connection"),
    }
}

#[test]
fn an_encrypted_connection_is_refused_with_a_reason() {
    assert!(connect_refusal(false).is_none());
    assert!(connect_refusal(true).is_some());
}

#[test]
fn the_panels_start_empty() {
    let a = app();
    assert!(a.reports.rcbs.is_empty() && a.reports.feed.is_empty());
    assert!(a.reports.enabled.is_none() && !a.reports.subscribed);
    assert!(a.datasets.refs.is_empty() && a.datasets.current.is_none());
    assert!(a.controls.refs.is_empty());
    assert!(a.settings.refs.is_empty() && a.settings.current.is_none());
    assert!(a.files.entries.is_empty() && a.files.path.is_empty());
    assert!(a.logs.refs.is_empty() && a.logs.entries.is_empty());
    assert_eq!(a.logs.window, 86_400);
}
