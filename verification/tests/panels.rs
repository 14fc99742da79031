//! The panels of the terminal client.

use iec61850::client::{ControlError, Rcb, Stage};
use iec61850::mms::Type;
use iec61850::model::{
    AddCause, CtlModel, DataAttribute, DataObject, Fc, LogicalDevice, LogicalNode, Model, ObjectReference,
};
use iec61850::notation::hex;
use iec61850::time::{civil_from_days, fmt_time, WallTime};
use iec61850::ui::address::{identity_text, normalise_addr, parse_args, Parsed};
use iec61850::ui::browse::BrowsePanel;
use iec61850::ui::controls::{add_controllable, controllable_ref, ControlsPanel};
use iec61850::ui::datasets::{DatasetsPanel, MIN_LEFT};
use iec61850::ui::dialogs::Dialog;
use iec61850::ui::files::{saved_line, FileEntry, FilesPanel};
use iec61850::ui::logs::{
    fmt_window, JournalVariable, LogEntry, LogsPanel, DEFAULT_WINDOW, MAX_WINDOW, MIN_WINDOW,
};
use iec61850::ui::replies::{
    activated, disabled, enabled, interrogated, operated, rejected, wrote, Task,
};
use iec61850::ui::reports::{
    entry_line, monitor, report_line, RcbItem, ReportsPanel, FEED_LIMIT,
};
use iec61850::ui::settings::{SettingsPanel, SgInfo};
use iec61850::ui::tree::{build_tree, is_writable, Node};
use iec61850::ui::widgets::left_width;
use iec61850::ui::{Ctx, Effect, KeyCode, KeyEvent, Rect, StatusKind};

fn key(code: KeyCode) -> KeyEvent {
    KeyEvent::plain(code)
}

fn ctx() -> Ctx {
    Ctx::new(false)
}

fn reference(s: &str) -> ObjectReference {
    ObjectReference::from_text(s)
}

// ---- browse ----

fn leaf(name: &str, fc: Fc, kind: Type) -> DataAttribute {
    DataAttribute {
        name: name.into(),
        fc,
        kind: Some(kind),
        ..Default::default()
    }
}

fn branch(name: &str, fc: Fc, children: Vec<DataAttribute>) -> DataAttribute {
    DataAttribute {
        name: name.into(),
        fc,
        kind: Some(Type::Structure),
        children,
        ..Default::default()
    }
}

fn object(name: String, attributes: Vec<DataAttribute>) -> DataObject {
    DataObject {
        name,
        attributes,
        ..Default::default()
    }
}

/// A device with four measurands, four controls and four status points.
fn reference_model() -> Model {
    let mut ggio = Vec::new();
    for i in 1..=4 {
        ggio.push(object(
            format!("AnIn{i}"),
            vec![
                branch("mag", Fc::Mx, vec![leaf("f", Fc::Mx, Type::Float32)]),
                leaf("q", Fc::Mx, Type::BitString),
                leaf("t", Fc::Mx, Type::UtcTime),
            ],
        ));
        ggio.push(object(
            format!("SPCSO{i}"),
            vec![
                leaf("stVal", Fc::St, Type::Boolean),
                branch("Oper", Fc::Co, vec![leaf("ctlVal", Fc::Co, Type::Boolean)]),
                leaf("ctlModel", Fc::Cf, Type::Integer),
            ],
        ));
        ggio.push(object(
            format!("Ind{i}"),
            vec![
                leaf("stVal", Fc::St, Type::Boolean),
                leaf("q", Fc::St, Type::BitString),
            ],
        ));
    }
    Model {
        name: "simpleIO".into(),
        devices: vec![LogicalDevice {
            name: "simpleIOGenericIO".into(),
            nodes: vec![
                LogicalNode {
                    name: "LLN0".into(),
                    class: "LLN0".into(),
                    objects: vec![object("Mod".into(), vec![leaf("ctlModel", Fc::Cf, Type::Integer)])],
                },
                LogicalNode {
                    name: "GGIO1".into(),
                    class: "GGIO".into(),
                    objects: ggio,
                },
            ],
        }],
    }
}

fn panel() -> BrowsePanel {
    let mut p = BrowsePanel::default();
    p.set_model(build_tree(&reference_model()));
    p
}

#[test]
fn the_tree_mirrors_the_model_hierarchy() {
    let m = reference_model();
    let mut p = BrowsePanel::default();
    assert_eq!(p.set_model(build_tree(&m)), m.devices.len());

    // A device starts expanded, so its logical nodes are visible at once.
    assert!(p.visible.len() > 1);
    assert!(p.nodes[p.roots[0]].expanded);
    assert!(p.nodes[p.roots[0]].label.starts_with("LD "));
}

#[test]
fn expanding_and_collapsing_changes_what_is_visible() {
    let mut p = panel();
    let before = p.visible.len();

    // The first logical node, one row below the device.
    p.cursor = 1;
    let id = p.current().unwrap();
    assert!(!p.nodes[id].children.is_empty());

    p.nodes[id].expanded = true;
    p.rebuild();
    assert!(p.visible.len() > before, "expanding reveals children");

    p.nodes[id].expanded = false;
    p.rebuild();
    assert_eq!(p.visible.len(), before);
}

/// A filter has to reach matches deep in the tree without the user
/// expanding every level by hand.
#[test]
fn a_filter_opens_the_tree_to_reach_matches() {
    let mut p = panel();
    p.filter = "AnIn1".into();
    p.rebuild();

    assert!(!p.visible.is_empty());
    let labels: Vec<&str> = p
        .visible
        .iter()
        .map(|i| p.nodes[*i].label.as_str())
        .collect();
    assert!(
        labels.iter().any(|l| l.contains("AnIn1")),
        "the match itself is visible: {labels:?}"
    );

    // Clearing it goes back to the collapsed view.
    p.filter.clear();
    p.rebuild();
    assert!(p.visible.iter().all(|i| p.nodes[*i].depth <= 1));
}

#[test]
fn a_filter_matches_whatever_the_case() {
    let mut p = panel();
    p.filter = "anin1".into();
    p.rebuild();
    assert!(p.visible.iter().any(|i| p.nodes[*i].label.contains("AnIn1")));
}

#[test]
fn a_filter_that_matches_nothing_shows_nothing() {
    let mut p = panel();
    p.filter = "definitely-not-in-the-model".into();
    p.rebuild();
    assert!(p.visible.is_empty());
    assert_eq!(p.cursor, 0, "the cursor must not point past the end");
}

/// The arena is what lets an async read name its node; the index has to
/// stay valid and select the right row.
#[test]
fn a_value_lands_on_the_node_that_asked_for_it() {
    let mut p = panel();
    let leaf = p
        .nodes
        .iter()
        .position(|n| n.readable)
        .expect("the model has readable leaves");

    p.set_value(leaf, "230.4".into(), false);
    assert_eq!(p.nodes[leaf].value.as_deref(), Some("230.4"));
    assert!(!p.nodes[leaf].value_is_err);

    p.set_value(leaf, "boom".into(), true);
    assert!(p.nodes[leaf].value_is_err);

    // An index from a stale model must not panic.
    p.set_value(usize::MAX, "x".into(), false);
}

#[test]
fn only_configuration_and_setting_attributes_are_offered_for_writing() {
    for fc in [Fc::Cf, Fc::Sp, Fc::Se, Fc::Sv, Fc::Dc] {
        assert!(is_writable(fc), "{fc:?} should be writable");
    }
    // The device's own view of the process is not ours to write.
    for fc in [Fc::St, Fc::Mx, Fc::Co, Fc::Br, Fc::Rp] {
        assert!(!is_writable(fc), "{fc:?} should not be writable");
    }
}

#[test]
fn a_controllable_object_is_marked_and_offers_the_operate_action() {
    let p = panel();
    let controllable: Vec<&Node> = p.nodes.iter().filter(|n| n.controllable).collect();
    assert!(
        !controllable.is_empty(),
        "the reference model has controllable objects"
    );
    for n in controllable {
        assert!(n.label.contains('⚡'), "{} is not marked", n.label);
        assert!(n.reference.as_str().contains("SPCSO"));
    }
}

#[test]
fn leaves_are_readable_and_structures_are_not() {
    let p = panel();
    for n in &p.nodes {
        if n.fc == Fc::Unset {
            continue; // a device, node or object row
        }
        assert_eq!(
            n.readable,
            n.children.is_empty(),
            "{} readable={} children={}",
            n.label,
            n.readable,
            n.children.len()
        );
    }
}

#[test]
fn the_cursor_cannot_leave_the_visible_rows() {
    let mut p = panel();
    let mut ctx = ctx();
    for _ in 0..100 {
        p.on_key(key(KeyCode::Down), &mut ctx);
    }
    assert!(p.cursor < p.visible.len());
    for _ in 0..200 {
        p.on_key(key(KeyCode::Up), &mut ctx);
    }
    assert_eq!(p.cursor, 0);
}

#[test]
fn typing_into_the_filter_does_not_move_the_cursor() {
    let mut p = panel();
    let mut ctx = ctx();
    p.on_key(key(KeyCode::Char('/')), &mut ctx);
    assert!(p.filtering);
    // 'j' and 'k' are movement keys outside the filter, and text inside it.
    p.on_key(key(KeyCode::Char('j')), &mut ctx);
    p.on_key(key(KeyCode::Char('k')), &mut ctx);
    assert_eq!(p.filter, "jk");

    p.on_key(key(KeyCode::Enter), &mut ctx);
    assert!(!p.filtering);
    p.on_key(key(KeyCode::Char('j')), &mut ctx);
    assert_eq!(p.filter, "jk", "movement no longer edits the filter");
}

#[test]
fn the_left_pane_stays_within_the_frame() {
    let p = BrowsePanel::default();
    for width in [40u16, 80, 120, 200] {
        let left = p.left_width(width);
        assert!(left > 0 && left < width, "width={width} left={left}");
    }
}

/// Moves the cursor to the row of a node.
fn select(p: &mut BrowsePanel, reference: &str, fc: Fc) -> usize {
    for n in &mut p.nodes {
        n.expanded = true;
    }
    p.rebuild();
    p.cursor = p
        .visible
        .iter()
        .position(|i| p.nodes[*i].reference.as_str() == reference && p.nodes[*i].fc == fc)
        .expect("the row is there");
    p.visible[p.cursor]
}

#[test]
fn reading_a_leaf_asks_for_its_value() {
    let mut p = panel();
    let mut c = Ctx::new(true);
    let id = select(&mut p, "simpleIOGenericIO/GGIO1.AnIn1.mag.f", Fc::Mx);
    p.on_key(key(KeyCode::Char('r')), &mut c);
    assert!(c.effects.iter().any(|e| matches!(
        e,
        Effect::Read { node, fc: Fc::Mx, reference }
            if *node == id && reference.as_str() == "simpleIOGenericIO/GGIO1.AnIn1.mag.f"
    )));
}

#[test]
fn a_dialog_opens_for_what_can_be_written_or_operated() {
    let mut p = panel();
    let mut c = Ctx::new(true);
    select(&mut p, "simpleIOGenericIO/GGIO1.SPCSO1.ctlModel", Fc::Cf);
    assert!(matches!(
        p.on_key(key(KeyCode::Char('w')), &mut c),
        Some(Dialog::Write { fc: Fc::Cf, .. })
    ));
    select(&mut p, "simpleIOGenericIO/GGIO1.SPCSO1", Fc::Unset);
    assert!(matches!(
        p.on_key(key(KeyCode::Char('o')), &mut c),
        Some(Dialog::Control(_))
    ));
    select(&mut p, "simpleIOGenericIO/GGIO1.AnIn1.q", Fc::Mx);
    assert!(p.on_key(key(KeyCode::Char('w')), &mut c).is_none());
    assert!(p.on_key(key(KeyCode::Char('o')), &mut c).is_none());
}

/// A refresh that was started before is over once the refreshing was toggled.
#[test]
fn toggling_the_refresh_ends_the_ones_before() {
    let mut p = panel();
    let mut c = Ctx::new(true);
    select(&mut p, "simpleIOGenericIO/GGIO1.AnIn1.mag.f", Fc::Mx);
    p.on_key(key(KeyCode::Char('a')), &mut c);
    let first = p.auto_gen;
    assert!(p.refreshes(first));
    p.on_key(key(KeyCode::Char('a')), &mut c);
    assert!(!p.refreshes(first));
    p.on_key(key(KeyCode::Char('a')), &mut c);
    assert!(!p.refreshes(first), "a new refresh has a generation of its own");
    assert!(p.refreshes(p.auto_gen));
}

#[test]
fn the_browse_panel_draws_a_tree_beside_the_details() {
    let mut p = panel();
    let f = p.draw(Rect::new(0, 2, 100, 20));
    assert_eq!(f.panes.len(), 2);
    assert_eq!(f.panes[0].area.width + f.panes[1].area.width, 100);
    assert_eq!(f.panes[0].lines.len(), p.visible.len());
    assert!(f.panes[0].lines[0].selected);
    assert_eq!(f.hint_area, Rect::new(0, 21, 100, 1));
}

// ---- controls ----

#[test]
fn an_operate_attribute_marks_a_controllable_object() {
    assert_eq!(
        controllable_ref("LD", "GGIO1$CO$SPCSO1$Oper"),
        Some(reference("LD/GGIO1.SPCSO1"))
    );
    // A sub-object path is kept.
    assert_eq!(
        controllable_ref("LD", "XCBR1$CO$Pos$Oper"),
        Some(reference("LD/XCBR1.Pos"))
    );
}

#[test]
fn other_names_are_not_controllable_objects() {
    assert!(controllable_ref("LD", "GGIO1$ST$Ind1$stVal").is_none());
    assert!(controllable_ref("LD", "GGIO1$CO$SPCSO1$SBOw").is_none());
    assert!(
        controllable_ref("LD", "GGIO1$CO$SPCSO1$Oper$ctlVal").is_none(),
        "a member inside Oper names the same object; one entry is enough"
    );
    assert!(controllable_ref("LD", "GGIO1").is_none());
    assert!(controllable_ref("LD", "").is_none());
}

#[test]
fn the_controllable_objects_of_a_device_are_collected_in_order() {
    let mut refs = Vec::new();
    let names: Vec<String> = ["GGIO1$CO$SPCSO1$Oper", "GGIO1$ST$Ind1", "GGIO1$CO$SPCSO2$Oper"]
        .iter()
        .map(|s| s.to_string())
        .collect();
    add_controllable(&mut refs, "LD", &names);
    assert_eq!(refs, [reference("LD/GGIO1.SPCSO1"), reference("LD/GGIO1.SPCSO2")]);
}

#[test]
fn enter_opens_the_operate_dialog_for_the_selected_object() {
    let mut p = ControlsPanel {
        refs: vec![reference("LD/GGIO1.SPCSO1")],
        ..Default::default()
    };
    let d = p.on_key(key(KeyCode::Enter));
    assert!(matches!(d, Some(Dialog::Control(_))));
}

#[test]
fn an_empty_panel_opens_nothing() {
    let mut p = ControlsPanel::default();
    assert!(p.on_key(key(KeyCode::Enter)).is_none());
}

// ---- datasets ----

#[test]
fn datasets_selection_stays_within_the_list() {
    let mut p = DatasetsPanel {
        refs: (0..3).map(|i| reference(&format!("LD/LLN0.DS{i}"))).collect(),
        ..Default::default()
    };
    let mut ctx = ctx();
    for _ in 0..10 {
        p.on_key(key(KeyCode::Down), &mut ctx);
    }
    assert_eq!(p.list.cursor, 2);
    p.scroll(true);
    assert_eq!(p.list.cursor, 1);
}

#[test]
fn the_panes_split_sensibly_at_any_width() {
    for width in [40u16, 80, 200] {
        let left = left_width(width, MIN_LEFT);
        assert!(left > 0 && left < width, "width={width}");
    }
}

#[test]
fn a_chosen_data_set_is_read() {
    let mut p = DatasetsPanel {
        refs: vec![reference("LD/LLN0.Events")],
        ..Default::default()
    };
    let mut c = Ctx::new(true);
    p.on_key(key(KeyCode::Enter), &mut c);
    assert!(matches!(
        c.effects.last(),
        Some(Effect::ReadDataset(r)) if r.as_str() == "LD/LLN0.Events"
    ));
}

// ---- reports ----

fn panel_with(n: usize) -> ReportsPanel {
    ReportsPanel {
        rcbs: (0..n)
            .map(|i| RcbItem {
                reference: reference(&format!("LD/LLN0.RP.urcb{i:02}")),
                buffered: i % 2 == 1,
            })
            .collect(),
        ..Default::default()
    }
}

/// A long session on a busy dataset would otherwise grow without bound.
#[test]
fn the_feed_keeps_only_its_tail() {
    let mut p = ReportsPanel::default();
    for i in 0..FEED_LIMIT + 250 {
        p.push_line(format!("line {i}"));
    }
    assert_eq!(p.feed.len(), FEED_LIMIT);
    assert_eq!(
        p.feed.last().unwrap(),
        &format!("line {}", FEED_LIMIT + 249),
        "the newest lines are the ones kept"
    );
    assert!(!p.feed.contains(&"line 0".to_string()));
}

#[test]
fn enabling_marks_the_block_and_notes_it_in_the_feed() {
    let mut p = panel_with(3);
    let r = reference("LD/LLN0.RP.urcb01");
    p.on_enabled(r.clone());
    assert_eq!(p.enabled.as_ref(), Some(&r));
    assert!(p.feed[0].contains("enabled"));
    assert_eq!(p.feed[0], "● enabled LD/LLN0.RP.urcb01");
}

#[test]
fn reports_selection_stays_within_the_list() {
    let mut p = panel_with(3);
    let mut ctx = ctx();
    for _ in 0..10 {
        p.on_key(key(KeyCode::Down), &mut ctx);
    }
    assert_eq!(p.list.cursor, 2);
    assert!(p.selected().is_some());
    for _ in 0..10 {
        p.on_key(key(KeyCode::Up), &mut ctx);
    }
    assert_eq!(p.list.cursor, 0);
}

#[test]
fn an_empty_panel_has_nothing_selected() {
    let p = ReportsPanel::default();
    assert!(p.selected().is_none());
}

#[test]
fn clearing_the_feed_leaves_the_selection_alone() {
    let mut p = panel_with(2);
    p.list.cursor = 1;
    p.push_line("something".into());
    p.on_key(key(KeyCode::Char('c')), &mut ctx());
    assert!(p.feed.is_empty());
    assert_eq!(p.list.cursor, 1);
}

#[test]
fn a_report_reads_as_lines_of_the_feed() {
    assert_eq!(report_line("events", 7, 2), "events seq=7 entries=2");
    assert_eq!(
        entry_line("LD/GGIO1.Ind1.stVal", "true", "data-change"),
        "    LD/GGIO1.Ind1.stVal = true (data-change)"
    );
    let mut rcb = Rcb::new(reference("LD/LLN0.RP.urcb01"));
    monitor(&mut rcb);
    assert!(rcb.trg_ops.gi && rcb.trg_ops.data_change && rcb.opt_flds.reason_code);
}

// ---- setting groups ----

fn groups() -> SgInfo {
    SgInfo {
        reference: reference("LD/LLN0.SP.SGCB"),
        num_of_sg: 4,
        act_sg: 1,
        edit_sg: 0,
    }
}

/// Asking for a group the device does not have would be refused on the
/// wire; saying so here explains why rather than showing an access error.
#[test]
fn a_group_beyond_the_declared_count_is_refused_locally() {
    let p = SettingsPanel {
        current: Some(groups()),
        ..Default::default()
    };
    let mut c = ctx();
    p.activate(9, &mut c);
    match c.effects.first().expect("the user is told why") {
        Effect::Status(text, StatusKind::Failure) => assert!(text.contains("only 4")),
        other => panic!("unexpected {other:?}"),
    }
}

#[test]
fn activating_without_a_selection_says_so() {
    let p = SettingsPanel::default();
    let mut c = ctx();
    p.activate(1, &mut c);
    assert!(matches!(c.effects.first(), Some(Effect::Status(_, StatusKind::Failure))));
}

#[test]
fn the_digits_activate_a_group_rather_than_moving_the_selection() {
    let mut p = SettingsPanel {
        refs: vec![reference("LD/LLN0.SP.SGCB")],
        current: Some(groups()),
        ..Default::default()
    };
    let mut c = ctx();
    p.on_key(key(KeyCode::Char('2')), &mut c);
    assert_eq!(p.list.cursor, 0, "the selection is unchanged");
    let mut c = Ctx::new(true);
    p.on_key(key(KeyCode::Char('2')), &mut c);
    assert!(c.effects.iter().any(|e| matches!(e, Effect::Activate { group: 2, .. })));
}

// ---- files ----

fn entry(name: &str, size: u32) -> FileEntry {
    FileEntry {
        name: name.into(),
        size,
        last_modified: None,
    }
}

#[test]
fn entering_a_directory_descends_and_backspace_returns() {
    let mut p = FilesPanel {
        entries: vec![entry("COMTRADE/", 0), entry("readme.txt", 7)],
        ..Default::default()
    };
    let mut c = ctx();

    p.list.cursor = 0;
    p.open(&mut c);
    assert_eq!(p.path, "COMTRADE");
    assert_eq!(p.list.cursor, 0, "a new directory starts at the top");

    p.up(&mut c);
    assert_eq!(p.path, "");
    // At the root there is nowhere further up.
    p.up(&mut c);
    assert_eq!(p.path, "");
}

#[test]
fn a_nested_path_goes_up_one_level_at_a_time() {
    let mut p = FilesPanel {
        path: "a/b/c".into(),
        ..Default::default()
    };
    let mut c = ctx();
    p.up(&mut c);
    assert_eq!(p.path, "a/b");
    p.up(&mut c);
    assert_eq!(p.path, "a");
    p.up(&mut c);
    assert_eq!(p.path, "");
}

/// Downloading a directory would fail on the wire; saying so points at the
/// key that does work.
#[test]
fn downloading_a_directory_is_refused_with_advice() {
    let p = FilesPanel {
        entries: vec![entry("COMTRADE/", 0)],
        ..Default::default()
    };
    let mut c = ctx();
    p.download(&mut c);
    match c.effects.first().expect("the user is told") {
        Effect::Status(text, StatusKind::Failure) => assert!(text.contains("directory")),
        other => panic!("unexpected {other:?}"),
    }
}

#[test]
fn an_empty_listing_has_nothing_to_open() {
    let mut p = FilesPanel::default();
    let mut c = ctx();
    p.open(&mut c);
    p.download(&mut c);
    assert!(p.selected().is_none());
}

#[test]
fn a_file_is_saved_under_its_own_name() {
    let p = FilesPanel {
        path: "COMTRADE".into(),
        entries: vec![entry("COMTRADE/fault.cfg", 9)],
        ..Default::default()
    };
    let mut c = Ctx::new(true);
    p.download(&mut c);
    let Some(Effect::Download { name, out }) = c.effects.last() else {
        panic!("the file is fetched: {:?}", c.effects);
    };
    assert_eq!(name, "COMTRADE/fault.cfg");
    assert_eq!(out, "fault.cfg");
    assert!(saved_line("fault.cfg", 9, "fault.cfg").contains("9"));
}

// ---- logs ----

#[test]
fn timestamps_render_as_utc_civil_time() {
    // 2026-08-16T00:00:00Z
    let t = WallTime { secs: 1_786_838_400, nanos: 0 };
    assert_eq!(fmt_time(Some(t)), "2026-08-16 00:00:00");
    assert_eq!(fmt_time(Some(WallTime { secs: 0, nanos: 0 })), "1970-01-01 00:00:00");
    // A missing time keeps the column width, so the entries stay aligned.
    assert_eq!(fmt_time(None).len(), "1970-01-01 00:00:00".len());
}

#[test]
fn the_calendar_knows_its_leap_years() {
    assert_eq!(civil_from_days(0), (1970, 1, 1));
    assert_eq!(civil_from_days(-1), (1969, 12, 31));
    assert_eq!(civil_from_days(11_016), (2000, 2, 29));
    assert_eq!(civil_from_days(11_017), (2000, 3, 1));
    // 2100 is no leap year.
    assert_eq!(civil_from_days(47_540), (2100, 2, 28));
    assert_eq!(civil_from_days(47_541), (2100, 3, 1));
    assert_eq!(
        fmt_time(Some(WallTime { secs: -1, nanos: 0 })),
        "1969-12-31 23:59:59"
    );
}

/// The window steps by doubling, and stops rather than running away to a
/// query no device would answer.
#[test]
fn the_query_window_doubles_and_halves_within_bounds() {
    let mut p = LogsPanel::default();
    let mut c = ctx();
    assert_eq!(p.window, DEFAULT_WINDOW);

    p.narrow(&mut c);
    assert_eq!(p.window, 12 * 3600);
    p.widen(&mut c);
    assert_eq!(p.window, DEFAULT_WINDOW);

    for _ in 0..20 {
        p.widen(&mut c);
    }
    assert_eq!(p.window, MAX_WINDOW);
    for _ in 0..20 {
        p.narrow(&mut c);
    }
    assert_eq!(p.window, MIN_WINDOW);
}

/// Halving keeps the half second, so that doubling leads back.
#[test]
fn the_query_window_comes_back_from_half_a_second() {
    let mut c = Ctx::new(true);
    let mut p = LogsPanel { window: MAX_WINDOW, ..Default::default() };
    for _ in 0..9 {
        p.narrow(&mut c);
    }
    assert_eq!((p.window, p.window_nanos), (5062, 500_000_000));
    p.refs = vec![ObjectReference::from_text("LD/LLN0.LG.EventLog")];
    p.query(&mut c);
    assert!(matches!(
        c.effects.last(),
        Some(Effect::QueryLog { window: 5062, nanos: 500_000_000, .. })
    ));
    p.widen(&mut c);
    assert_eq!((p.window, p.window_nanos), (10_125, 0));
    for _ in 0..8 {
        p.widen(&mut c);
    }
    assert_eq!((p.window, p.window_nanos), (MAX_WINDOW, 0));
    assert_eq!(fmt_window(p.window), "30 d");
}

#[test]
fn the_window_reads_as_hours_or_days() {
    assert_eq!(fmt_window(3600), "1 h");
    assert_eq!(fmt_window(DEFAULT_WINDOW), "24 h");
    assert_eq!(fmt_window(48 * 3600), "2 d");
    assert_eq!(fmt_window(MAX_WINDOW), "30 d");
}

#[test]
fn entry_ids_render_as_hex() {
    assert_eq!(hex(&[0x00, 0x0f, 0xff]), "000fff");
    assert_eq!(hex(&[]), "");
}

/// Continuing with nothing to continue from would query after the epoch and
/// look like a hang, so it falls back to the range query.
#[test]
fn continuing_an_empty_view_runs_the_range_query_instead() {
    let mut p = LogsPanel {
        refs: vec![reference("LD/LLN0.LG.EventLog")],
        ..Default::default()
    };
    let mut c = ctx();
    p.query_after(&mut c);
    // Without a connection the range query reports that; the point is that
    // it was the range query that ran.
    assert!(matches!(c.effects.first(), Some(Effect::Status(_, _))));
    let mut c = Ctx::new(true);
    p.query_after(&mut c);
    assert!(c.effects.iter().any(|e| matches!(e, Effect::QueryLog { .. })));
}

fn log_entry(secs: i64) -> LogEntry {
    LogEntry {
        entry_id: vec![1, 2],
        occurrence_time: Some(WallTime { secs, nanos: 0 }),
        variables: Vec::new(),
    }
}

#[test]
fn a_new_query_resets_the_entry_view_to_the_top() {
    let mut p = LogsPanel {
        refs: vec![reference("LD/LLN0.LG.EventLog")],
        entries: (0..20).map(log_entry).collect(),
        ..Default::default()
    };
    p.entries_view.cursor = 15;
    let mut c = ctx();
    p.query(&mut c);
    assert_eq!(p.entries_view.cursor, 0);
}

#[test]
fn continuing_asks_for_what_came_after_the_last_entry() {
    let mut p = LogsPanel {
        refs: vec![reference("LD/LLN0.LG.EventLog")],
        entries: (0..3).map(log_entry).collect(),
        ..Default::default()
    };
    let mut c = Ctx::new(true);
    p.query_after(&mut c);
    assert!(c.effects.iter().any(|e| matches!(
        e,
        Effect::QueryLogAfter { after: WallTime { secs: 2, nanos: 0 }, entry_id, .. }
            if *entry_id == [1, 2]
    )));
}

#[test]
fn an_entry_shows_its_logged_variables() {
    let e = LogEntry {
        entry_id: vec![1, 2],
        occurrence_time: Some(WallTime { secs: 0, nanos: 0 }),
        variables: vec![JournalVariable {
            tag: "stVal".into(),
            value: None,
        }],
    };
    assert_eq!(e.variables.len(), 1);
    assert_eq!(hex(&e.entry_id), "0102");
    let mut p = LogsPanel {
        entries: vec![e],
        ..Default::default()
    };
    let f = p.draw(Rect::new(0, 0, 120, 20));
    let shown: String = f.panes[1]
        .lines
        .iter()
        .flat_map(|l| l.spans.iter().map(|s| s.text.as_str()))
        .collect();
    assert!(shown.contains("stVal"), "{shown}");
}

// ---- addresses ----

#[test]
fn an_address_without_a_port_gets_the_default() {
    assert_eq!(normalise_addr("192.0.2.1"), "192.0.2.1:102");
    assert_eq!(normalise_addr("ied.example"), "ied.example:102");
}

#[test]
fn an_explicit_port_is_kept() {
    assert_eq!(normalise_addr("192.0.2.1:10102"), "192.0.2.1:10102");
    assert_eq!(normalise_addr("[::1]:10102"), "[::1]:10102");
}

/// A bare IPv6 address has colons of its own, so it has to be bracketed
/// before a port can be appended.
#[test]
fn a_bare_ipv6_address_is_bracketed() {
    assert_eq!(normalise_addr("::1"), "[::1]:102");
    assert_eq!(normalise_addr("[::1]"), "[::1]:102");
    assert_eq!(normalise_addr("fe80::1"), "[fe80::1]:102");
}

#[test]
fn an_empty_address_stays_empty_so_the_form_opens() {
    assert_eq!(normalise_addr(""), "");
}

#[test]
fn a_completed_address_is_left_alone() {
    for a in ["192.0.2.1", "::1", "[::1]", "host:1", ""] {
        let once = normalise_addr(a);
        assert_eq!(normalise_addr(&once), once);
    }
}

#[test]
fn a_device_is_named_by_its_words() {
    assert_eq!(identity_text("DSC  Systems", "", "1.0"), "DSC Systems 1.0");
    assert_eq!(identity_text("", "", ""), "");
}

#[test]
fn the_command_line_takes_an_address_and_options() {
    let words = |w: &[&str]| w.iter().map(|s| s.to_string()).collect::<Vec<_>>();
    match parse_args(&words(&["--tls", "192.0.2.1", "-p", "pw"])) {
        Parsed::Run(a) => {
            assert_eq!((a.addr.as_str(), a.password.as_str(), a.tls), ("192.0.2.1:102", "pw", true));
        }
        other => panic!("{other:?}"),
    }
    assert!(matches!(parse_args(&words(&["-h"])), Parsed::Help));
    assert!(matches!(
        parse_args(&words(&["-x"])),
        Parsed::Bad(e) if e == "unknown option -x"
    ));
    assert!(matches!(
        parse_args(&words(&["--password"])),
        Parsed::Bad(e) if e == "--password needs a value"
    ));
}

#[test]
fn the_status_line_says_what_was_done() {
    assert_eq!(wrote("LD/LN.DO.da", "5"), "wrote LD/LN.DO.da = 5");
    assert_eq!(
        operated("LD/GGIO1.SPCSO1", true, CtlModel::DirectNormal),
        "operated LD/GGIO1.SPCSO1 = true (direct-with-normal-security)"
    );
    let e = ControlError::new(Stage::Operate, AddCause::BLOCKED_BY_INTERLOCKING());
    assert_eq!(rejected(&e), "operate rejected (operate): blocked-by-interlocking");
    assert_eq!(enabled("LD/LLN0.RP.u"), "reporting enabled on LD/LLN0.RP.u");
    assert_eq!(interrogated(), "general interrogation sent");
    assert_eq!(disabled(), "reporting disabled");
    assert_eq!(activated(3), "active setting group = 3");
    assert_eq!(Task::LoadModel.complaint("gone"), "model load failed: gone");
    assert_eq!(Task::Interrogate.complaint("gone"), "GI failed: gone");
    assert_eq!(Task::Activate.complaint("gone"), "select active SG: gone");
}
