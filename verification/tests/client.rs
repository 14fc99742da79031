//! The decisions of the ACSI client.

use iec61850::client::access::{permits, read_values};
use iec61850::client::control::{
    add_cause_of, build_oper, component_spec, last_appl_error_item, refused, TypeSearch,
};
use iec61850::client::dataset::{data_set_members, dataset_ref_to_mms, label_members, member_refs};
use iec61850::client::directory::{
    browse, browse_plan, data_directory, data_directory_plan, directory_names, logical_node_directory,
    logical_nodes, names_under, objects_of_class, BrowseLists, NameList,
};
use iec61850::client::file::Next;
use iec61850::client::log::log_ref_to_mms;
use iec61850::client::report::{rcb_ref_to_mms, RcbAttr};
use iec61850::client::retrieve::{
    attr_from_spec, ensure_do, ensure_ln, expand_type_spec, finish_device, graft, item_parts,
    ln_class, retrieve_model, retrieve_plan,
};
use iec61850::client::settinggroup::{group_in_range, GroupAttr};
use iec61850::client::{
    attribute_outcome, attribute_write_outcome, decode_report, read_outcome, write_outcome,
    AcsiClass, ControlError, ControlObject, ControlOptions, ControlOutcome, ControlReply,
    ControlReports, ControlRequest, EnableCall, EnableReply, Enabling, DataSetEntry, Error, FileReader, Operating, Rcb, ReportSubscription, SettingGroups, Stage,
    Termination, TerminationKey,
};
use iec61850::mms::{
    Component, DataAccessError, InformationReport, TimeQuality, Timestamp, Type, TypeSpec, Value,
    VarRef,
};
use iec61850::model::{
    AddCause, CtlModel, DataObject, Fc, LogicalDevice, ObjectReference, OptFlds, OrCat, ReasonCode,
    TrgOps,
};

fn reference(s: &str) -> ObjectReference {
    ObjectReference::from_text(s)
}

fn strings(names: &[&str]) -> Vec<String> {
    names.iter().map(|s| s.to_string()).collect()
}

fn now() -> Timestamp {
    Timestamp::new(1_786_838_400, 0)
}

// ---- control ----

#[test]
fn control_errors_prefer_the_devices_own_diagnosis() {
    let e = ControlError::new(Stage::Operate, AddCause::BLOCKED_BY_INTERLOCKING());
    assert_eq!(
        e.to_text(),
        "client: control operate failed: blocked-by-interlocking"
    );

    // With no diagnosis, the underlying error is what there is to say.
    let e = ControlError::with_source(
        Stage::Select,
        AddCause::UNKNOWN(),
        DataAccessError::ObjectAccessDenied.to_text(),
    );
    assert!(e.to_text().contains("select"));
    assert!(e.to_text().contains("object-access-denied"));
}

#[test]
fn stages_render_their_names() {
    assert_eq!(Stage::Select.to_text(), "select");
    assert_eq!(Stage::Operate.to_text(), "operate");
    assert_eq!(Stage::Cancel.to_text(), "cancel");
}

#[test]
fn the_control_value_type_is_found_inside_the_operate_structure() {
    let oper = TypeSpec::structure(vec![
        Component {
            name: "ctlVal".into(),
            spec: TypeSpec::scalar(Type::Boolean),
        },
        Component {
            name: "origin".into(),
            spec: TypeSpec::structure(vec![]),
        },
        Component {
            name: "ctlNum".into(),
            spec: TypeSpec::sized(Type::Unsigned, 8),
        },
    ]);
    assert_eq!(
        component_spec(&oper, "ctlVal").unwrap().kind,
        Some(Type::Boolean)
    );
    assert!(component_spec(&oper, "nope").is_none());
    // A scalar has no components to look inside.
    assert!(component_spec(&TypeSpec::scalar(Type::Boolean), "ctlVal").is_none());
}

#[test]
fn options_default_to_station_control_with_no_checks() {
    let o = ControlOptions::new();
    assert_eq!(o.or_cat, OrCat::StationControl);
    assert!(!o.test && !o.interlock_check && !o.synchro_check);
    assert!(o.model.is_none());

    let o = ControlOptions::new()
        .with_originator(OrCat::RemoteControl, "scada-1")
        .with_interlock_check(true)
        .with_test(true);
    assert_eq!(o.or_cat, OrCat::RemoteControl);
    assert_eq!(o.or_ident, b"scada-1");
    assert!(o.interlock_check && o.test);
    assert!(!o.synchro_check);
}

const SPCSO1: &str = "LD/GGIO1.SPCSO1";

fn control(model: i64) -> ControlObject {
    ControlObject::new(reference(SPCSO1), Some(Value::int64(model))).unwrap()
}

#[test]
fn a_direct_control_writes_its_operate_structure() {
    let mut co = control(1);
    assert_eq!(co.model(), CtlModel::DirectNormal);
    assert!(!co.needs_select(&ControlOptions::new()));
    let opts = ControlOptions::new().with_originator(OrCat::StationControl, "me");
    let n = co.ctl_num();
    match co.operate(Value::boolean(true), &opts, now()) {
        ControlRequest::Write { item, value } => {
            assert_eq!(item, "GGIO1$CO$SPCSO1$Oper");
            assert_eq!(value, build_oper(Value::boolean(true), &opts, co.ctl_num(), now()));
            assert_eq!(value.len(), 6);
            assert!(value.index(0).unwrap().as_bool());
            assert_eq!(value.index(1).unwrap().index(1).unwrap().bytes(), b"me");
        }
        other => panic!("{other:?}"),
    }
    assert_ne!(co.ctl_num(), n, "each sequence has a number of its own");
    assert_eq!(
        co.on_written(Stage::Operate, Ok(vec![None])),
        ControlOutcome::Done
    );
    assert_eq!(co.domain(), "LD");
    assert_eq!(co.reference().as_str(), SPCSO1);
}

/// Select, operate and cancel of one sequence carry one control number.
#[test]
fn a_selected_sequence_keeps_its_number() {
    let mut co = control(2);
    assert!(co.needs_select(&ControlOptions::new()));
    assert!(matches!(co.select(), ControlRequest::Read { item } if item == "GGIO1$CO$SPCSO1$SBO"));
    let n = co.ctl_num();
    assert!(co
        .on_selected(Ok(vec![Value::visible_string("LD/GGIO1$CO$SPCSO1")]))
        .is_ok());
    let opts = ControlOptions::new();
    co.operate(Value::boolean(true), &opts, now());
    assert_eq!(co.ctl_num(), n);
    co.on_written(Stage::Operate, Ok(vec![None]));
    co.operate(Value::boolean(true), &opts, now());
    assert_eq!(co.ctl_num(), n.wrapping_add(1), "the sequence had ended");
}

#[test]
fn a_refused_select_ends_the_sequence() {
    let mut co = control(2);
    co.select();
    let n = co.ctl_num();
    let e = co.on_selected(Ok(vec![Value::visible_string("")])).unwrap_err();
    assert_eq!(e.add_cause, AddCause::SELECT_FAILED());
    let e = co.on_selected(Err("timeout".into())).unwrap_err();
    assert!(e.to_text().contains("timeout"));
    co.select();
    assert_eq!(co.ctl_num(), n.wrapping_add(1));
}

#[test]
fn a_refused_control_is_explained_by_its_additional_cause() {
    let mut co = control(1);
    co.operate(Value::boolean(true), &ControlOptions::new(), now());
    let denied = DataAccessError::ObjectAccessDenied;
    assert_eq!(
        co.on_written(Stage::Operate, Ok(vec![Some(denied)])),
        ControlOutcome::Refused(denied)
    );
    assert_eq!(last_appl_error_item(), "LLN0$ST$LastApplError$AddCause");
    let cause = add_cause_of(Some(vec![Value::int8(10)]));
    assert_eq!(cause, AddCause::BLOCKED_BY_INTERLOCKING());
    assert!(refused(Stage::Operate, cause, denied).to_text().contains("blocked-by-interlocking"));
    assert_eq!(add_cause_of(None), AddCause::UNKNOWN());
    assert!(matches!(
        co.on_written(Stage::Cancel, Ok(vec![Some(denied)])),
        ControlOutcome::Failed(e) if e.to_text().contains("object-access-denied")
    ));
    assert!(matches!(
        co.on_written(Stage::Operate, Err("gone".into())),
        ControlOutcome::Failed(e) if e.to_text().contains("gone")
    ));
}

#[test]
fn a_control_model_override_wins() {
    let co = control(1);
    let o = ControlOptions::new().with_model(CtlModel::SboEnhanced).with_synchro_check(true);
    assert!(co.needs_select(&o));
    assert!(o.synchro_check);
    let mut co = control(4);
    assert!(matches!(
        co.select_with_value(Value::boolean(true), &o, now()),
        ControlRequest::Write { item, .. } if item == "GGIO1$CO$SPCSO1$SBOw"
    ));
    assert!(matches!(
        co.cancel(&o, now()),
        ControlRequest::Write { item, .. } if item == "GGIO1$CO$SPCSO1$Cancel"
    ));
}

#[test]
fn the_control_value_type_is_asked_for_once() {
    let mut co = control(2);
    assert_eq!(co.ctl_val_items(), ["GGIO1$CO$SPCSO1$Oper", "GGIO1$CO$SPCSO1$SBOw"]);
    assert!(co.cached_ctl_val_spec().is_none());
    let oper = TypeSpec::structure(vec![Component {
        name: "ctlVal".into(),
        spec: TypeSpec::scalar(Type::Boolean),
    }]);
    let spec = co.take_ctl_val_spec("GGIO1$CO$SPCSO1$Oper", &oper).unwrap();
    assert_eq!(spec, TypeSpec::scalar(Type::Boolean));
    assert_eq!(co.cached_ctl_val_spec(), Some(TypeSpec::scalar(Type::Boolean)));
    assert!(control(1).take_ctl_val_spec("x", &TypeSpec::scalar(Type::Boolean)).is_err());
}

#[test]
fn the_control_value_type_is_looked_for_in_turn() {
    let oper = TypeSpec::structure(vec![Component {
        name: "ctlVal".into(),
        spec: TypeSpec::scalar(Type::Boolean),
    }]);
    let mut co = control(2);
    let s = co.type_search();
    assert_eq!(s.wanted().as_deref(), Some("GGIO1$CO$SPCSO1$Oper"));
    let s = co.on_type(s, Err(Error::Mms("gone".into())));
    assert_eq!(s.wanted().as_deref(), Some("GGIO1$CO$SPCSO1$SBOw"));
    let s = co.on_type(s, Ok(oper));
    assert!(s.wanted().is_none());
    assert!(matches!(s, TypeSearch::Found(spec) if spec == TypeSpec::scalar(Type::Boolean)));
    assert!(matches!(co.type_search(), TypeSearch::Found(_)), "the answer is kept");

    // What was said of the last item is what there is to say.
    let mut co = control(1);
    let s = co.type_search();
    let s = co.on_type(s, Ok(TypeSpec::scalar(Type::Boolean)));
    let TypeSearch::Failed(e) = s else { panic!("there is no control value") };
    assert_eq!(
        e.to_text(),
        "client: LD/GGIO1.SPCSO1: GGIO1$CO$SPCSO1$Oper has no ctlVal component"
    );
}

// ---- control reports ----

fn lae_value(obj: &str, ctl_num: u8, cause: AddCause) -> Value {
    Value::structure(vec![
        Value::visible_string(obj),
        Value::int8(0),
        Value::structure(vec![Value::int8(2), Value::octet_string(b"scada".to_vec())]),
        Value::uint8(ctl_num),
        Value::int8(cause.0 as i8),
    ])
}

fn oper_value(ctl_num: u8) -> Value {
    Value::structure(vec![
        Value::boolean(true),
        Value::structure(vec![Value::int8(2), Value::octet_string(Vec::new())]),
        Value::uint8(ctl_num),
    ])
}

fn report(entries: Vec<(VarRef, Value)>) -> InformationReport {
    let (refs, values): (Vec<_>, Vec<_>) = entries.into_iter().unzip();
    InformationReport {
        var_refs: refs,
        values,
        ..Default::default()
    }
}

const OBJ: &str = "LD/GGIO1$CO$SPCSO1$Oper";

#[test]
fn a_last_appl_error_is_recorded_by_control_variable_and_number() {
    let mut cr = ControlReports::new();
    cr.handle(&report(vec![(
        VarRef::new("", "LastApplError"),
        lae_value(OBJ, 7, AddCause::BLOCKED_BY_INTERLOCKING()),
    )]));
    assert_eq!(cr.cause_for(OBJ, 7), AddCause::BLOCKED_BY_INTERLOCKING());
    assert_eq!(cr.cause_for(OBJ, 8), AddCause::UNKNOWN(), "another sequence");
    let latest = cr.latest().expect("recorded");
    assert_eq!(latest.or_ident, b"scada");
    assert_eq!(latest.origin, OrCat::StationControl);
}

fn resolved(ctl_num: u8, cause: AddCause) -> Option<Termination> {
    Some(Termination {
        key: TerminationKey { oper: OBJ.into(), ctl_num },
        cause,
    })
}

#[test]
fn terminations_resolve_their_own_waiter_only() {
    let mut cr = ControlReports::new();
    cr.await_termination(OBJ, 1);
    cr.await_termination(OBJ, 2);

    let t = cr.handle(&report(vec![(
        VarRef::new("LD", "GGIO1$CO$SPCSO1$Oper"),
        oper_value(1),
    )]));
    assert_eq!(t, resolved(1, AddCause::NONE()), "CommandTermination+");

    let t = cr.handle(&report(vec![
        (
            VarRef::new("", "LastApplError"),
            lae_value(OBJ, 2, AddCause::TIME_LIMIT_OVER()),
        ),
        (VarRef::new("LD", "GGIO1$CO$SPCSO1$Oper"), oper_value(2)),
    ]));
    assert_eq!(t, resolved(2, AddCause::TIME_LIMIT_OVER()), "CommandTermination-");
}

#[test]
fn a_dropped_guard_releases_the_registration() {
    let mut cr = ControlReports::new();
    cr.await_termination(OBJ, 1);
    cr.release(OBJ, 1);
    let t = cr.handle(&report(vec![(
        VarRef::new("LD", "GGIO1$CO$SPCSO1$Oper"),
        oper_value(1),
    )]));
    assert_eq!(t, None, "nobody waits any more");
}

// ---- datasets ----

/// A dataset lives at "LD/LN.Name" but is addressed on the wire as the
/// domain "LD" plus the list "LN$Name"; getting the split wrong addresses
/// a variable rather than a list.
#[test]
fn dataset_references_convert_to_the_mms_list_form() {
    let (domain, list) = dataset_ref_to_mms(&reference("ied1LD0/LLN0.Events"));
    assert_eq!(domain, "ied1LD0");
    assert_eq!(list, "LLN0$Events");
}

#[test]
fn a_deeper_dataset_path_joins_every_component() {
    let (domain, list) = dataset_ref_to_mms(&reference("LD/LLN0.Sub.Events"));
    assert_eq!(domain, "LD");
    assert_eq!(list, "LLN0$Sub$Events");
}

#[test]
fn a_member_entry_carries_its_reference_and_constraint() {
    let e = DataSetEntry::new(reference("ied1LD0/GGIO1.AnIn1"), Fc::Mx);
    assert_eq!(e.reference.as_str(), "ied1LD0/GGIO1.AnIn1");
    assert_eq!(e.fc, Fc::Mx);
    assert!(e.value.is_none());
    // And converts back to the MMS form a define request needs.
    let (d, item) = e.reference.to_mms(e.fc);
    assert_eq!((d.as_str(), item.as_str()), ("ied1LD0", "GGIO1$MX$AnIn1"));
}

#[test]
fn members_convert_to_references_and_back() {
    let refs = members();
    let entries = data_set_members(&refs);
    assert_eq!(entries[2].reference.as_str(), "ied1LD0/GGIO1.AnIn1.mag.f");
    assert_eq!(entries[2].fc, Fc::Mx);
    assert_eq!(member_refs(&entries), refs);
    let labelled = label_members(&refs, &vec![Value::boolean(true)]);
    assert_eq!(labelled[0].reference.as_str(), "ied1LD0/GGIO1.Ind1.stVal");
    assert_eq!(labelled[0].value, Some(Value::boolean(true)));
}

// ---- directories ----

/// The variable name list a typical IED reports for one logical device.
fn sample_names() -> Vec<String> {
    strings(&[
        "LLN0",
        "LLN0$ST",
        "LLN0$ST$Beh$stVal",
        "LLN0$CF$Beh$ctlModel",
        "LLN0$RP$urcb01",
        "LLN0$RP$urcb01$RptID",
        "LLN0$RP$urcb01$RptEna",
        "LLN0$BR$brcb01",
        "LLN0$BR$brcb01$EntryID",
        "LLN0$LG$lcb01",
        "LLN0$GO$gcb01",
        "LLN0$MS$msvcb01",
        "LLN0$SP$SGCB",
        "LLN0$SP$SGCB$NumOfSG",
        "LLN0$SP$SomeSetpoint",
        "GGIO1$ST$Ind1$stVal",
        "GGIO1$ST$Ind1$q",
        "GGIO1$ST$Ind1$t",
        "GGIO1$MX$AnIn1$mag$f",
        "GGIO1$MX$AnIn1$q",
        "GGIO1$CO$SPCSO1$Oper$ctlVal",
        "GGIO1$CF$SPCSO1$ctlModel",
    ])
}

#[test]
fn control_blocks_are_matched_by_their_functional_constraint() {
    let names = sample_names();
    assert_eq!(
        objects_of_class(&names, "LLN0", AcsiClass::Urcb),
        ["urcb01"]
    );
    assert_eq!(
        objects_of_class(&names, "LLN0", AcsiClass::Brcb),
        ["brcb01"]
    );
    assert_eq!(objects_of_class(&names, "LLN0", AcsiClass::Lcb), ["lcb01"]);
    assert_eq!(objects_of_class(&names, "LLN0", AcsiClass::GoCb), ["gcb01"]);
    assert_eq!(
        objects_of_class(&names, "LLN0", AcsiClass::Msvcb),
        ["msvcb01"]
    );
    // A class the node has none of yields nothing, not an error.
    assert!(objects_of_class(&names, "LLN0", AcsiClass::Usvcb).is_empty());
}

/// The SGCB shares functional constraint SP with ordinary set points, so
/// only its name tells them apart. Getting this wrong reports every set
/// point as a setting group control block, or loses the SGCB entirely.
#[test]
fn the_setting_group_control_block_is_told_apart_by_name() {
    let names = sample_names();
    assert_eq!(objects_of_class(&names, "LLN0", AcsiClass::Sgcb), ["SGCB"]);
    let data = objects_of_class(&names, "LLN0", AcsiClass::DataObject);
    assert!(
        data.contains(&"SomeSetpoint".to_string()),
        "an SP set point is data"
    );
    assert!(!data.contains(&"SGCB".to_string()), "the SGCB is not data");
}

#[test]
fn data_objects_exclude_every_control_block() {
    let data = objects_of_class(&sample_names(), "LLN0", AcsiClass::DataObject);
    assert_eq!(data, ["Beh", "SomeSetpoint"]);
    for cb in ["urcb01", "brcb01", "lcb01", "gcb01", "msvcb01"] {
        assert!(!data.contains(&cb.to_string()), "{cb} is a control block");
    }
}

#[test]
fn an_object_seen_under_several_names_is_reported_once() {
    // urcb01 appears three times in the name list, as the block and two
    // of its members.
    assert_eq!(
        objects_of_class(&sample_names(), "LLN0", AcsiClass::Urcb).len(),
        1
    );
}

#[test]
fn data_set_and_journal_lists_are_stripped_of_their_node_prefix() {
    let names: Vec<String> = ["LLN0$Events", "LLN0$Measurements", "GGIO1$Other"]
        .iter()
        .map(|s| s.to_string())
        .collect();
    assert_eq!(names_under(&names, "LLN0"), ["Events", "Measurements"]);
    assert_eq!(names_under(&names, "GGIO1"), ["Other"]);
    assert!(names_under(&names, "NOPE").is_empty());
    // An entry with no separator belongs to no node.
    assert!(names_under(&vec!["bare".to_string()], "bare").is_empty());
}

#[test]
fn classes_render_their_acsi_names() {
    assert_eq!(AcsiClass::DataObject.as_str(), "DATA");
    assert_eq!(AcsiClass::DataSet.as_str(), "DATA-SET");
    assert_eq!(AcsiClass::Brcb.as_str(), "BRCB");
    assert_eq!(AcsiClass::Sgcb.as_str(), "SGCB");
    // Every class is distinct.
    let mut seen: Vec<&str> = AcsiClass::ALL().iter().map(|c| c.as_str()).collect();
    seen.sort_unstable();
    seen.dedup();
    assert_eq!(seen.len(), AcsiClass::ALL().len());
}

#[test]
fn the_classes_partition_the_name_list() {
    // Every object in the sample belongs to exactly one class, or the
    // browse would report it twice or not at all.
    let names = sample_names();
    for n in &names {
        let parts: Vec<&str> = n.split('$').collect();
        if parts.len() < 3 {
            continue;
        }
        let Some(fc) = Fc::parse(parts[1]) else {
            continue;
        };
        let matches: Vec<AcsiClass> = AcsiClass::ALL()
            .into_iter()
            .filter(|c| {
                !matches!(c, AcsiClass::DataSet | AcsiClass::Log) && c.holds(fc, parts[2])
            })
            .collect();
        assert_eq!(matches.len(), 1, "{n} matched {matches:?}");
    }
}

#[test]
fn browsing_names_what_each_node_holds() {
    let classes = vec![AcsiClass::Urcb, AcsiClass::DataSet];
    assert_eq!(
        browse_plan("LD", &classes).unwrap(),
        BrowseLists { variables: true, sets: true, logs: false }
    );
    let found = browse(
        "LD",
        &classes,
        &sample_names(),
        &strings(&["LLN0$Events"]),
        &Vec::new(),
    );
    let found: Vec<(&str, AcsiClass)> =
        found.iter().map(|e| (e.reference.as_str(), e.class)).collect();
    assert_eq!(
        found,
        [
            ("LD/LLN0.RP.urcb01", AcsiClass::Urcb),
            ("LD/LLN0.Events", AcsiClass::DataSet)
        ]
    );
    assert!(browse_plan("", &classes).is_err());
}

#[test]
fn the_children_of_an_object_are_the_distinct_next_components() {
    let (domain, path) = data_directory_plan(&reference("LD/GGIO1.Ind1")).unwrap();
    assert_eq!(domain, "LD");
    assert_eq!(path, ["GGIO1", "Ind1"]);
    assert_eq!(data_directory(&sample_names(), &path, Fc::St), ["stVal", "q", "t"]);
    assert!(data_directory(&sample_names(), &path, Fc::Mx).is_empty());
    let path = strings(&["GGIO1", "SPCSO1"]);
    let mut names = sample_names();
    assert_eq!(data_directory(&names, &path, Fc::All), ["ctlModel"]);
    names.push("GGIO1$CO$SPCSO1$Oper".into());
    assert_eq!(data_directory(&names, &path, Fc::All), ["ctlModel", "Oper"]);
    assert_eq!(data_directory(&names, &path, Fc::Co), ["Oper"]);
    let err = data_directory_plan(&reference("LD/GGIO1")).unwrap_err();
    assert_eq!(
        err.to_text(),
        "client: data reference \"LD/GGIO1\" must be LD/LN.DO[.DA...]"
    );
}

#[test]
fn a_node_directory_asks_for_the_list_its_class_lives_in() {
    let ln = reference("LD/LLN0");
    let (d, n, list) = logical_node_directory(&ln, AcsiClass::DataSet).unwrap();
    assert_eq!((d.as_str(), n.as_str(), list), ("LD", "LLN0", NameList::VariableLists));
    let (_, _, list) = logical_node_directory(&ln, AcsiClass::Log).unwrap();
    assert_eq!(list, NameList::Journals);
    let (_, _, list) = logical_node_directory(&ln, AcsiClass::Urcb).unwrap();
    assert_eq!(list, NameList::Variables);
    assert!(logical_node_directory(&reference("bare"), AcsiClass::Urcb).is_err());
    assert_eq!(directory_names(&sample_names(), "LLN0", AcsiClass::Urcb), ["urcb01"]);
    assert_eq!(logical_nodes(&sample_names()), ["LLN0", "GGIO1"]);
}

// ---- logs ----

#[test]
fn log_references_convert_to_the_mms_item_form() {
    let (domain, item) = log_ref_to_mms(&reference("ied1LD0/LLN0.LG.EventLog"));
    assert_eq!(domain, "ied1LD0");
    assert_eq!(item, "LLN0$LG$EventLog");
}

// ---- reports ----

fn usual_with(change: impl Fn(&mut OptFlds)) -> OptFlds {
    let mut opt = OptFlds::usual();
    change(&mut opt);
    opt
}

fn data_change() -> ReasonCode {
    let mut r = ReasonCode::default();
    r.data_change = true;
    r
}

/// Builds an InformationReport whose values are the flat field list a
/// server sends for the given optional fields.
fn report_values(opt: OptFlds, included: &[usize], values: Vec<Value>) -> InformationReport {
    let mut v = vec![Value::visible_string("EventsRCB01"), opt.value()];
    if opt.seq_num {
        v.push(Value::uint32(7));
    }
    if opt.time_of_entry {
        v.push(Value::utc_time_parts(
            1_786_838_400,
            0,
            TimeQuality::accuracy(10),
        ));
    }
    if opt.data_set_name {
        v.push(Value::visible_string("ied1LD0/LLN0$Events"));
    }
    if opt.buf_ovfl {
        v.push(Value::boolean(true));
    }
    if opt.entry_id {
        v.push(Value::octet_string(vec![0xde, 0xad, 0xbe, 0xef]));
    }
    if opt.conf_rev {
        v.push(Value::uint32(3));
    }
    if opt.segmentation {
        v.push(Value::uint32(1));
        v.push(Value::boolean(true));
    }
    // The inclusion bit string covers the whole dataset.
    let mut inclusion = Value::bit_string(4);
    for i in included {
        inclusion.set_bit(*i, true);
    }
    v.push(inclusion);
    if opt.data_ref {
        for i in included {
            v.push(Value::visible_string(&format!("ref{i}")));
        }
    }
    v.extend(values);
    if opt.reason_code {
        for _ in included {
            v.push(data_change().value());
        }
    }
    InformationReport {
        values: v,
        ..Default::default()
    }
}

fn members() -> Vec<VarRef> {
    vec![
        VarRef::new("ied1LD0", "GGIO1$ST$Ind1$stVal"),
        VarRef::new("ied1LD0", "GGIO1$ST$Ind2$stVal"),
        VarRef::new("ied1LD0", "GGIO1$MX$AnIn1$mag$f"),
        VarRef::new("ied1LD0", "GGIO1$MX$AnIn2$mag$f"),
    ]
}

fn float(f: f32) -> Value {
    Value::float32(f.to_bits())
}

#[test]
fn a_report_with_the_default_fields_decodes() {
    let opt = OptFlds::usual();
    let ir = report_values(
        opt,
        &[0, 2],
        vec![Value::boolean(true), float(230.4)],
    );
    let rep = decode_report(&ir, &members()).expect("decodes");

    assert_eq!(rep.rpt_id, "EventsRCB01");
    assert_eq!(rep.seq_num, 7);
    assert_eq!(rep.data_set, "ied1LD0/LLN0$Events");
    assert_eq!(rep.conf_rev, 3);
    assert!(rep.time_of_entry.is_some());

    assert_eq!(rep.entries.len(), 2);
    assert_eq!(rep.entries[0].index, 0);
    assert_eq!(
        rep.entries[0].reference.as_str(),
        "ied1LD0/GGIO1.Ind1.stVal"
    );
    assert_eq!(rep.entries[0].fc, Fc::St);
    assert!(rep.entries[0].value.as_bool());
    assert_eq!(rep.entries[0].reason, data_change());

    assert_eq!(rep.entries[1].index, 2, "the second included member is #2");
    assert_eq!(
        rep.entries[1].reference.as_str(),
        "ied1LD0/GGIO1.AnIn1.mag.f"
    );
    assert_eq!(rep.entries[1].fc, Fc::Mx);
    assert_eq!(f32::from_bits(rep.entries[1].value.as_f32()), 230.4);
}

/// Every optional field shifts the ones after it, so a decoder that reads
/// a field the flags did not select misattributes the whole rest of the
/// report. Each combination has to line up.
#[test]
fn the_field_layout_follows_the_optional_fields_bit_string() {
    let combinations = [
        OptFlds::default(),
        OptFlds { seq_num: true, ..OptFlds::default() },
        OptFlds { seq_num: true, conf_rev: true, ..OptFlds::default() },
        OptFlds::usual(),
        usual_with(|o| {
            o.entry_id = true;
            o.buf_ovfl = true;
        }),
        usual_with(|o| o.data_ref = true),
        usual_with(|o| {
            o.segmentation = true;
            o.entry_id = true;
        }),
    ];
    for opt in combinations {
        let ir = report_values(opt, &[1, 3], vec![Value::boolean(true), float(1.5)]);
        let rep = decode_report(&ir, &members())
            .unwrap_or_else(|| panic!("failed to decode with {opt:?}"));

        assert_eq!(rep.rpt_id, "EventsRCB01", "with {opt:?}");
        assert_eq!(rep.entries.len(), 2, "with {opt:?}");
        // The values must still land on the right members whatever the
        // preceding fields were.
        assert!(rep.entries[0].value.as_bool(), "with {opt:?}");
        assert_eq!(f32::from_bits(rep.entries[1].value.as_f32()), 1.5, "with {opt:?}");
        assert_eq!(
            rep.entries[1].reference.as_str(),
            "ied1LD0/GGIO1.AnIn2.mag.f",
            "with {opt:?}"
        );

        assert_eq!(rep.seq_num, if opt.seq_num { 7 } else { 0 });
        assert_eq!(rep.conf_rev, if opt.conf_rev { 3 } else { 0 });
        assert_eq!(rep.buf_ovfl, opt.buf_ovfl);
        assert_eq!(rep.more_follows, opt.segmentation);
        if opt.entry_id {
            assert_eq!(rep.entry_id, [0xde, 0xad, 0xbe, 0xef], "with {opt:?}");
        } else {
            assert!(rep.entry_id.is_empty(), "with {opt:?}");
        }
        if opt.reason_code {
            assert_eq!(rep.entries[0].reason, data_change());
        } else {
            assert_eq!(rep.entries[0].reason, ReasonCode::default());
        }
    }
}

#[test]
fn a_general_interrogation_report_includes_every_member() {
    let ir = report_values(
        OptFlds::usual(),
        &[0, 1, 2, 3],
        vec![
            Value::boolean(true),
            Value::boolean(false),
            float(1.0),
            float(2.0),
        ],
    );
    let rep = decode_report(&ir, &members()).unwrap();
    assert_eq!(rep.entries.len(), 4);
    assert_eq!(
        rep.entries.iter().map(|e| e.index).collect::<Vec<_>>(),
        [0, 1, 2, 3]
    );
}

/// A server may report a dataset the client could not describe; the values
/// must still arrive, just unlabelled.
#[test]
fn entries_beyond_the_known_members_carry_no_reference() {
    let ir = report_values(
        OptFlds::usual(),
        &[0, 3],
        vec![Value::boolean(true), Value::int32(9)],
    );
    let rep = decode_report(&ir, &Vec::new()).unwrap();
    assert_eq!(rep.entries.len(), 2);
    assert_eq!(rep.entries[0].index, 0);
    assert!(rep.entries[0].reference.as_str().is_empty());
    assert_eq!(rep.entries[0].fc, Fc::Unset);
    assert!(rep.entries[0].value.as_bool());
    assert_eq!(rep.entries[1].value.as_i64(), 9);
}

#[test]
fn a_report_with_no_included_members_is_still_a_report() {
    let ir = report_values(OptFlds::usual(), &[], vec![]);
    let rep = decode_report(&ir, &members()).unwrap();
    assert_eq!(rep.rpt_id, "EventsRCB01");
    assert!(rep.entries.is_empty());
}

#[test]
fn a_truncated_report_is_rejected_rather_than_misread() {
    // Fewer than the mandatory RptID, OptFlds and inclusion fields.
    let ir = InformationReport {
        values: vec![Value::visible_string("x"), OptFlds::usual().value()],
        ..Default::default()
    };
    assert!(decode_report(&ir, &members()).is_none());

    // The flags promise a sequence number that is not there.
    let ir = InformationReport {
        values: vec![
            Value::visible_string("x"),
            OptFlds::usual().value(),
            Value::uint32(1),
        ],
        ..Default::default()
    };
    assert!(decode_report(&ir, &members()).is_none());
}

#[test]
fn rcb_references_convert_to_the_mms_item_form() {
    let (domain, item) = rcb_ref_to_mms(&reference("ied1LD0/LLN0.RP.urcb01"));
    assert_eq!(domain, "ied1LD0");
    assert_eq!(item, "LLN0$RP$urcb01");
    assert!(!item.contains("$BR$"), "this one is unbuffered");

    let (_, item) = rcb_ref_to_mms(&reference("ied1LD0/LLN0.BR.brcb01"));
    assert_eq!(item, "LLN0$BR$brcb01");
    assert!(item.contains("$BR$"), "buffered blocks are detected by name");
}

#[test]
fn a_control_block_is_filled_attribute_by_attribute() {
    let mut rcb = Rcb::new(reference("ied1LD0/LLN0.BR.brcb01"));
    assert!(rcb.buffered);
    assert_eq!(rcb.attr_item("RptID"), "LLN0$BR$brcb01$RptID");
    let names: Vec<&str> = RcbAttr::all().iter().map(|a| a.name()).collect();
    assert_eq!(names, ["RptID", "DatSet", "ConfRev", "OptFlds", "TrgOps", "BufTm", "IntgPd"]);
    rcb.set_attribute(RcbAttr::RptId, &Value::visible_string("events"));
    rcb.set_attribute(RcbAttr::ConfRev, &Value::uint32(4));
    rcb.set_attribute(RcbAttr::OptFlds, &OptFlds::usual().value());
    rcb.set_attribute(RcbAttr::IntgPd, &Value::uint32(5000));
    assert_eq!(rcb.rpt_id, "events");
    assert_eq!(rcb.conf_rev, 4);
    assert_eq!(rcb.opt_flds, OptFlds::usual());
    assert_eq!(rcb.intg_pd, 5000);
}

/// Zero is a meaningful integrity period, so it is always written; flags of
/// zero mean to leave them alone.
#[test]
fn enabling_writes_what_is_set_and_always_the_period() {
    let mut rcb = Rcb::new(reference("ied1LD0/LLN0.BR.brcb01"));
    let attrs = |r: &Rcb| r.enable_writes().iter().map(|w| w.attr).collect::<Vec<_>>();
    assert_eq!(attrs(&rcb), ["IntgPd"]);
    rcb.opt_flds = OptFlds::usual();
    rcb.trg_ops = TrgOps { gi: true, ..TrgOps::default() };
    rcb.resync_entry_id = Some(vec![1]);
    rcb.intg_pd = u64::MAX;
    assert_eq!(attrs(&rcb), ["OptFlds", "TrgOps", "IntgPd", "EntryID"]);
    assert_eq!(rcb.enable_writes()[2].value, Value::uint32(u32::MAX));
    assert_eq!(Rcb::enable_write(true).attr, "RptEna");
    assert!(Rcb::enable_write(true).value.as_bool());
    assert_eq!(Rcb::gi_write().attr, "GI");
    assert_eq!(Rcb::dataset_list("ied1LD0/LLN0$Events").unwrap(), "LLN0$Events");
    assert_eq!(
        Rcb::dataset_list("bare").unwrap_err().to_text(),
        "client: RCB dataset reference \"bare\""
    );
}

#[test]
fn optional_fields_and_triggers_survive_their_bit_strings() {
    for opt in [OptFlds::default(), OptFlds::usual(), usual_with(|o| o.segmentation = true)] {
        assert_eq!(OptFlds::from_value(&opt.value()), opt);
    }
    let trg = TrgOps { data_change: true, gi: true, ..TrgOps::default() };
    assert_eq!(TrgOps::from_value(&trg.value()), trg);
    assert_eq!(ReasonCode::from_value(&data_change().value()), data_change());
}

// ---- retrieving a model ----

#[test]
fn logical_node_classes_are_recovered_from_instance_names() {
    assert_eq!(ln_class("LLN0"), "LLN0");
    assert_eq!(ln_class("GGIO1"), "GGIO");
    assert_eq!(ln_class("Q0XCBR1"), "XCBR");
    assert_eq!(ln_class("XCBR"), "XCBR");
    assert_eq!(ln_class("PTOC12"), "PTOC");
    // Too short to carry a four-letter class; kept as-is rather than
    // panicking on the slice.
    assert_eq!(ln_class("AB1"), "AB");
}

#[test]
fn a_structure_spec_becomes_one_attribute_per_component() {
    // The shape a server reports for an MV under MX.
    let ts = TypeSpec::structure(vec![
        Component {
            name: "mag".into(),
            spec: TypeSpec::structure(vec![Component {
                name: "f".into(),
                spec: TypeSpec::scalar(Type::Float32),
            }]),
        },
        Component {
            name: "q".into(),
            spec: TypeSpec::sized(Type::BitString, 13),
        },
        Component {
            name: "t".into(),
            spec: TypeSpec::scalar(Type::UtcTime),
        },
    ]);
    let mut object = DataObject {
        name: "AnIn1".into(),
        ..Default::default()
    };
    expand_type_spec(&mut object, &ts, Fc::Mx);

    let names: Vec<&str> = object.attributes.iter().map(|a| a.name.as_str()).collect();
    assert_eq!(names, ["mag", "q", "t"]);
    assert!(object.attributes.iter().all(|a| a.fc == Fc::Mx));
    let mag = object.attribute("mag").unwrap();
    assert_eq!(mag.children.len(), 1);
    assert_eq!(mag.children[0].name, "f");
    assert_eq!(mag.children[0].kind, Some(Type::Float32));
}

/// Some objects present a bare value under a constraint rather than a
/// structure; dropping those loses the attribute entirely.
#[test]
fn a_scalar_spec_becomes_one_attribute_named_after_the_object() {
    let mut object = DataObject {
        name: "Beh".into(),
        ..Default::default()
    };
    expand_type_spec(&mut object, &TypeSpec::sized(Type::Integer, 32), Fc::St);
    assert_eq!(object.attributes.len(), 1);
    assert_eq!(object.attributes[0].name, "Beh");
    assert_eq!(object.attributes[0].kind, Some(Type::Integer));
    assert_eq!(object.attributes[0].fc, Fc::St);
}

#[test]
fn an_array_spec_keeps_its_element_count() {
    let da = attr_from_spec(
        "arr",
        &TypeSpec::array(4, TypeSpec::scalar(Type::Boolean)),
        Fc::St,
    );
    assert_eq!(da.count, 4);
    assert_eq!(da.value.as_ref().unwrap().len(), 4);
}

#[test]
fn expanding_two_constraints_onto_one_object_keeps_both() {
    // A controllable object is reported under CO, ST and CF separately,
    // and all three views belong on the same data object.
    let mut object = DataObject {
        name: "SPCSO1".into(),
        ..Default::default()
    };
    expand_type_spec(
        &mut object,
        &TypeSpec::structure(vec![Component {
            name: "stVal".into(),
            spec: TypeSpec::scalar(Type::Boolean),
        }]),
        Fc::St,
    );
    expand_type_spec(
        &mut object,
        &TypeSpec::structure(vec![Component {
            name: "ctlModel".into(),
            spec: TypeSpec::sized(Type::Integer, 8),
        }]),
        Fc::Cf,
    );
    assert_eq!(object.attributes.len(), 2);
    assert_eq!(object.fcs(), [Fc::St, Fc::Cf]);
}

#[test]
fn a_device_is_retrieved_object_by_object_and_its_nodes_are_sorted() {
    let plan = retrieve_plan(&strings(&[
        "XCBR1$ST$Pos$stVal",
        "XCBR1$ST$Pos$q",
        "XCBR1",
        "GGIO1$ST$Ind1$stVal",
        "LLN0",
    ]));
    assert_eq!(plan.items, ["XCBR1$ST$Pos", "GGIO1$ST$Ind1"]);
    assert_eq!(plan.nodes, ["XCBR1", "GGIO1", "LLN0"]);
    let mut ld = LogicalDevice {
        name: "LD".into(),
        ..Default::default()
    };
    let spec = TypeSpec::structure(vec![Component {
        name: "stVal".into(),
        spec: TypeSpec::scalar(Type::Boolean),
    }]);
    graft(&mut ld, "XCBR1", "Pos", &spec, Fc::St);
    graft(&mut ld, "GGIO1", "Ind1", &spec, Fc::St);
    finish_device(&mut ld, &plan.nodes);
    let model = retrieve_model(vec![ld]);
    let nodes = &model.devices[0].nodes;
    let names: Vec<(&str, &str)> =
        nodes.iter().map(|n| (n.name.as_str(), n.class.as_str())).collect();
    assert_eq!(names, [("GGIO1", "GGIO"), ("LLN0", "LLN0"), ("XCBR1", "XCBR")]);
    assert_eq!(nodes[2].objects[0].attributes[0].name, "stVal");
}

#[test]
fn a_node_and_an_object_are_made_once() {
    let mut ld = LogicalDevice::default();
    let a = ensure_ln(&mut ld, "GGIO1");
    assert_eq!(ensure_ln(&mut ld, "GGIO1"), a);
    assert_eq!(ld.nodes.len(), 1);
    let ln = &mut ld.nodes[a];
    let o = ensure_do(ln, "Ind1");
    assert_eq!(ensure_do(ln, "Ind1"), o);
    assert_eq!(ensure_do(ln, "Ind2"), 1);
}

// ---- setting groups ----

#[test]
fn group_numbers_outside_the_devices_range_are_rejected() {
    assert!(!group_in_range(0, 4), "groups are numbered from one");
    assert!(group_in_range(1, 4));
    assert!(group_in_range(4, 4));
    assert!(!group_in_range(5, 4), "beyond NumOfSG");
}

#[test]
fn a_device_that_does_not_report_a_count_accepts_any_positive_group() {
    assert!(!group_in_range(0, 0));
    assert!(group_in_range(9, 0), "with no declared count, nothing bounds it");
    assert!(group_in_range(255, 0));
}

#[test]
fn selecting_a_group_writes_its_number() {
    let mut sg = SettingGroups::new(
        reference("LD/LLN0.SP.SGCB"),
        Ok(Value::uint8(4)),
        Some(Value::uint8(1)),
        None,
    )
    .unwrap();
    assert_eq!((sg.num_of_sg, sg.act_sg, sg.edit_sg), (4, 1, 0));
    assert_eq!(sg.attr_item("ActSG"), "LLN0$SP$SGCB$ActSG");
    assert_eq!(sg.select_active_sg(2).unwrap(), (GroupAttr::ActSg, Value::uint8(2)));
    assert_eq!(sg.select_edit_sg(3).unwrap(), (GroupAttr::EditSg, Value::uint8(3)));
    assert!(sg.select_active_sg(5).is_err());
    sg.selected(GroupAttr::ActSg, 2);
    assert_eq!(sg.act_sg, 2);
    assert_eq!(SettingGroups::confirm_edit().0, "CnfEdit");
    let missing = SettingGroups::new(reference("LD/LLN0.SP.SGCB"), Err(Error::Mms("x".into())), None, None);
    assert_eq!(missing.unwrap_err(), Error::Mms("x".into()));
}

// ---- reading and writing ----

#[test]
fn one_read_names_one_device() {
    let q = read_values(
        Fc::Mx,
        &vec![reference("LD/GGIO1.AnIn1.mag.f"), reference("LD/GGIO1.AnIn2.mag.f")],
    )
    .unwrap()
    .unwrap();
    assert_eq!(q.domain, "LD");
    assert_eq!(q.items, ["GGIO1$MX$AnIn1$mag$f", "GGIO1$MX$AnIn2$mag$f"]);
    assert!(read_values(Fc::Mx, &Vec::new()).unwrap().is_none());
    let err = read_values(Fc::Mx, &vec![reference("A/X.y"), reference("B/X.y")]).unwrap_err();
    assert_eq!(
        err.to_text(),
        "client: read_values needs one logical device, got \"A\" and \"B\""
    );
    assert_eq!(permits(0), 1);
    assert_eq!(permits(-3), 1);
    assert_eq!(permits(10), 10);
}

#[test]
fn an_access_failure_in_place_of_a_value_is_that_failure() {
    let denied = DataAccessError::ObjectAccessDenied;
    assert_eq!(read_outcome(vec![Value::int32(3)]).unwrap(), Value::int32(3));
    assert_eq!(read_outcome(vec![Value::AccessError(denied)]), Err(Error::Access(denied)));
    assert_eq!(
        read_outcome(Vec::new()),
        Err(Error::Access(DataAccessError::ObjectNonExistent))
    );
    assert_eq!(write_outcome(&vec![None]), Ok(()));
    assert_eq!(write_outcome(&vec![Some(denied)]), Err(Error::Access(denied)));
    assert_eq!(
        attribute_outcome("RCB", "RptID", Vec::new()).unwrap_err().to_text(),
        "client: RCB attribute RptID missing"
    );
    assert_eq!(
        attribute_write_outcome("RCB", "RptEna", &vec![Some(denied)]).unwrap_err().to_text(),
        "client: RCB write RptEna: object-access-denied"
    );
    assert!(attribute_write_outcome("RCB", "RptEna", &vec![None]).is_ok());
    assert_eq!(Error::Io("broken".into()).to_text(), "io: broken");
    assert_eq!(Error::Access(denied).to_text(), "object-access-denied");
}

// ---- files ----

/// Whatever the chunks and the sizes asked for, a read gives the bytes of the
/// file in order.
#[test]
fn a_file_is_read_in_the_pieces_asked_for() {
    let mut r = FileReader::new(9, 7);
    assert_eq!((r.frsm(), r.size()), (9, 7));
    assert_eq!(r.read(3), Next::Ask);
    assert!(!r.accept(b"abcd".to_vec(), true));
    assert_eq!(r.read(3), Next::Data(b"abc".to_vec()));
    assert_eq!(r.read(3), Next::Data(b"d".to_vec()));
    assert_eq!(r.next_chunk(), Next::Ask);
    assert!(!r.accept(b"efg".to_vec(), false));
    assert_eq!(r.next_chunk(), Next::Data(b"efg".to_vec()));
    assert_eq!(r.next_chunk(), Next::End);
    assert!(r.close(), "the handle is released");
    assert!(!r.close(), "once");
    let mut r = FileReader::new(1, 0);
    assert!(r.accept(Vec::new(), false), "an empty last chunk holds nothing");
}

// ---- report subscriptions ----

fn subscription(rpt_id: &str) -> ReportSubscription {
    let mut rcb = Rcb::new(reference("ied1LD0/LLN0.RP.EventsRCB01"));
    rcb.rpt_id = rpt_id.to_string();
    ReportSubscription::new(&rcb, members())
}

/// Every registered handler sees every report, so each has to pick out its
/// own.
#[test]
fn a_subscription_takes_the_reports_of_its_own_block_only() {
    let ir = report_values(OptFlds::usual(), &[1], vec![Value::boolean(true)]);
    let own = subscription("EventsRCB01").deliver(&ir).expect("its own report");
    assert_eq!(own.rpt_id, "EventsRCB01");
    assert_eq!(own.entries.len(), 1);
    assert_eq!(own.entries[0].reference.as_str(), "ied1LD0/GGIO1.Ind2.stVal");

    assert!(subscription("EventsRCB02").deliver(&ir).is_none());
    let empty = InformationReport::default();
    assert!(subscription("EventsRCB01").deliver(&empty).is_none());
}

#[test]
fn disabling_a_subscription_turns_the_block_off_once_and_silences_it() {
    let mut sub = subscription("EventsRCB01");
    let w = sub.disable().expect("the block has to be turned off");
    assert_eq!(w.domain, "ied1LD0");
    assert_eq!(w.item, "LLN0$RP$EventsRCB01$RptEna");
    assert_eq!(w.value.type_of(), Type::Boolean);
    assert!(!w.value.as_bool());

    assert!(sub.disable().is_none(), "there is nothing left to write");
    let ir = report_values(OptFlds::usual(), &[1], vec![Value::boolean(true)]);
    assert!(sub.deliver(&ir).is_none());
}

#[test]
fn an_item_of_the_plan_has_three_parts() {
    let (ln, fc, object) = item_parts("GGIO1$MX$AnIn1").expect("three parts");
    assert_eq!((ln.as_str(), fc, object.as_str()), ("GGIO1", Fc::Mx, "AnIn1"));
    assert!(item_parts("GGIO1$MX").is_none());
    assert!(item_parts("GGIO1$MX$AnIn1$mag").is_none());
    assert!(item_parts("GGIO1$ZZ$AnIn1").is_none());

    let names = strings(&["GGIO1", "GGIO1$MX", "GGIO1$MX$AnIn1", "GGIO1$MX$AnIn1$mag"]);
    for item in retrieve_plan(&names).items {
        assert!(item_parts(&item).is_some(), "{item}");
    }
}

#[test]
fn a_created_dataset_has_the_members_it_was_created_with() {
    let members = vec![
        DataSetEntry::new(reference("ied1LD0/GGIO1.AnIn1.mag.f"), Fc::Mx),
        DataSetEntry::new(reference("ied1LD0/GGIO1.Ind1"), Fc::St),
    ];
    let back = data_set_members(&member_refs(&members));
    assert_eq!(back.len(), 2);
    for (m, b) in members.iter().zip(&back) {
        assert_eq!(b.reference.as_str(), m.reference.as_str());
        assert_eq!(b.fc, m.fc);
    }
}

// ---- whole operations ----

/// Runs an operation against a server, and returns the items asked for, the
/// control numbers carried, and how it ended.
fn operation(
    code: u8,
    at: Option<Operating>,
    mut reply: impl FnMut(&str) -> ControlReply,
) -> (Vec<String>, Vec<u64>, Operating) {
    let model = Some(Value::int8(code as i8));
    let mut co = ControlObject::new(reference("LD/GGIO1.SPCSO1"), model).unwrap();
    let opts = ControlOptions::new();
    let mut at = at.unwrap_or_else(|| co.begin(&opts));
    let (mut items, mut numbers) = (Vec::new(), Vec::new());
    while let Some(request) = co.ask(&at, Value::boolean(true), &opts, now()) {
        let item = match request {
            ControlRequest::Read { item } => item,
            ControlRequest::Write { item, value } => {
                numbers.push(value.index(2).unwrap().as_u64());
                item
            }
        };
        let r = reply(&item);
        items.push(item);
        at = co.on_reply(at, r);
    }
    (items, numbers, at)
}

fn accepts(item: &str) -> ControlReply {
    match item.ends_with("$SBO") {
        true => ControlReply::Read(Ok(vec![Value::visible_string("GGIO1$CO$SPCSO1")])),
        false => ControlReply::Written(Ok(vec![None])),
    }
}

#[test]
fn an_operation_selects_first_where_the_model_asks_for_it() {
    let (items, numbers, at) = operation(1, None, accepts);
    assert_eq!(items, ["GGIO1$CO$SPCSO1$Oper"]);
    assert_eq!(numbers, [1]);
    assert!(matches!(at, Operating::Done));

    let (items, _, at) = operation(2, None, accepts);
    assert_eq!(items, ["GGIO1$CO$SPCSO1$SBO", "GGIO1$CO$SPCSO1$Oper"]);
    assert!(matches!(at, Operating::Done));

    let (items, numbers, _) = operation(4, None, accepts);
    assert_eq!(items, ["GGIO1$CO$SPCSO1$SBOw", "GGIO1$CO$SPCSO1$Oper"]);
    assert_eq!(numbers, [1, 1], "the operate repeats the number of its select");
}

#[test]
fn a_refused_step_ends_the_operation_with_the_servers_diagnosis() {
    let denied = || ControlReply::Written(Ok(vec![Some(DataAccessError::ObjectAccessDenied)]));
    let (items, _, at) = operation(4, None, |item| match item.ends_with("AddCause") {
        true => ControlReply::Read(Ok(vec![Value::int8(10)])),
        false => denied(),
    });
    assert_eq!(items, ["GGIO1$CO$SPCSO1$SBOw", "LLN0$ST$LastApplError$AddCause"]);
    let Operating::Failed(e) = at else { panic!("the select was refused") };
    assert_eq!((e.stage, e.add_cause), (Stage::Select, AddCause::BLOCKED_BY_INTERLOCKING()));

    // A refused cancel has no cause to read.
    let (items, _, at) = operation(1, Some(Operating::Cancel), |_| denied());
    assert_eq!(items, ["GGIO1$CO$SPCSO1$Cancel"]);
    let Operating::Failed(e) = at else { panic!("the cancel was refused") };
    assert_eq!((e.stage, e.add_cause), (Stage::Cancel, AddCause::UNKNOWN()));

    // An empty name is a refusal of a select read.
    let (_, _, at) = operation(2, None, |_| ControlReply::Read(Ok(vec![Value::visible_string("")])));
    let Operating::Failed(e) = at else { panic!("the select was refused") };
    assert_eq!(e.add_cause, AddCause::SELECT_FAILED());
}

// ---- enabling reports ----

/// Enables a block against a server, and returns what was asked of it, in
/// order, the subscription, and how it ended.
fn enabling(
    rcb: &Rcb,
    refuse: Option<&str>,
) -> (Vec<String>, Option<ReportSubscription>, Enabling) {
    let (mut asked, mut sub) = (Vec::new(), None);
    let mut at = Enabling::new(rcb);
    loop {
        let reply = match at.call(rcb) {
            EnableCall::Read(item) => {
                asked.push(format!("read {item}"));
                EnableReply::Value(Some(Value::visible_string("ied1LD0/LLN0$Events")))
            }
            EnableCall::Members(list) => {
                asked.push(format!("list {list}"));
                EnableReply::Members(Some(members()))
            }
            EnableCall::Register => {
                asked.push("register".into());
                let (next, s) = at.register();
                at = next;
                sub = s;
                continue;
            }
            EnableCall::Write(item, _) => {
                let refused = refuse.is_some_and(|r| item.ends_with(r));
                asked.push(format!("write {item}"));
                EnableReply::Written(Ok(vec![
                    refused.then_some(DataAccessError::ObjectAccessDenied),
                ]))
            }
            EnableCall::Finish => return (asked, sub, at),
        };
        at = at.step(rcb, reply);
    }
}

#[test]
fn the_receiver_is_in_place_before_the_block_is_enabled() {
    let mut rcb = Rcb::new(reference("ied1LD0/LLN0.BR.b"));
    rcb.rpt_id = "EventsRCB01".into();
    rcb.opt_flds = OptFlds::usual();
    rcb.resync_entry_id = Some(vec![1, 2]);
    let (asked, sub, at) = enabling(&rcb, None);
    assert_eq!(
        asked,
        [
            "read LLN0$BR$b$DatSet",
            "list LLN0$Events",
            "write LLN0$BR$b$OptFlds",
            "write LLN0$BR$b$IntgPd",
            "write LLN0$BR$b$EntryID",
            "register",
            "write LLN0$BR$b$RptEna",
        ]
    );
    assert!(matches!(at, Enabling::Enabled));
    let ir = report_values(OptFlds::usual(), &[0], vec![Value::boolean(true)]);
    let report = sub.expect("a subscription").deliver(&ir).expect("its own report");
    assert_eq!(report.entries[0].reference.as_str(), "ied1LD0/GGIO1.Ind1.stVal");
}

#[test]
fn a_refused_configuration_ends_enabling() {
    let mut rcb = Rcb::new(reference("ied1LD0/LLN0.RP.u"));
    rcb.data_set = "no device".into();
    let (asked, sub, at) = enabling(&rcb, Some("$IntgPd"));
    assert_eq!(asked, ["write LLN0$RP$u$IntgPd"]);
    assert!(sub.is_none());
    let Enabling::Failed(e) = at else { panic!("the write was refused") };
    assert_eq!(e.to_text(), "client: RCB write IntgPd: object-access-denied");

    // A refused enable leaves no block enabled.
    let (asked, _, at) = enabling(&rcb, Some("$RptEna"));
    assert_eq!(asked.len(), 3);
    assert!(matches!(at, Enabling::Failed(_)));
}

#[test]
fn an_untouched_integrity_period_is_written_back() {
    let mut rcb = Rcb::new(reference("ied1LD0/LLN0.RP.u"));
    rcb.set_attribute(RcbAttr::IntgPd, &Value::uint32(5000));
    let writes = rcb.enable_writes();
    assert_eq!(writes.len(), 1);
    assert_eq!((writes[0].attr, writes[0].value.as_u32()), ("IntgPd", 5000));
}
