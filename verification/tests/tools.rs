//! The command-line tools.

use iec61850::client::{AcsiClass, Rcb};
use iec61850::goose::{Anomalies, Message};
use iec61850::mms::Value;
use iec61850::model::{
    CtlModel, DataObject, Fc, LogicalDevice, LogicalNode, Model, ObjectReference, OptFlds,
};
use iec61850::tools::client::{
    browsed_classes, class_line, command, entry_line, launch, member_line, parse_value, report_line,
    Command, Launch,
};
use iec61850::tools::course::{Answer, Call, Sweep};
use iec61850::tools::server::{banner, point, status_point};
use iec61850::tools::sniff::{message_line, parse_app_id, value_line};
use iec61850::tools::sweep::{
    add_candidates, count_objects, dynamic_dataset, file_candidates, is_operable, journal_ref,
    measurands, no_such_reference, opposite, subdirectories, trim_separators, Outcome, Report,
};
use iec61850::tools::{server, sniff};
use iec61850::ui::files::FileEntry;

fn words(w: &[&str]) -> Vec<String> {
    w.iter().map(|s| s.to_string()).collect()
}

fn reference(s: &str) -> ObjectReference {
    ObjectReference::from_text(s)
}

// ---- ied-client ----

#[test]
fn the_options_end_where_the_command_starts() {
    match launch(&words(&["--addr", "ied:102", "--password", "pw", "read", "--help"])) {
        Launch::Run { addr, password, words } => {
            assert_eq!(addr, "ied:102");
            assert_eq!(password.as_deref(), Some("pw"));
            assert_eq!(words, ["read", "--help"]);
        }
        Launch::Usage => panic!("there is a command"),
    }
    match launch(&words(&["test"])) {
        Launch::Run { addr, password, .. } => {
            assert_eq!(addr, "127.0.0.1:10102");
            assert_eq!(password, None);
        }
        Launch::Usage => panic!("there is a command"),
    }
    for w in [&["--addr"][..], &["-h"], &[], &["--password", "pw"]] {
        assert!(matches!(launch(&words(w)), Launch::Usage), "{w:?}");
    }
}

#[test]
fn each_command_takes_its_arguments() {
    assert!(matches!(command(&words(&["identify"])), Command::Identify));
    assert!(matches!(command(&words(&["browse"])), Command::Browse));
    assert!(matches!(command(&words(&["model"])), Command::Model));
    assert!(matches!(command(&words(&["test"])), Command::Test));
    assert!(matches!(
        command(&words(&["read", "LD/A.b"])),
        Command::Read { reference, fc: Fc::Mx } if reference == "LD/A.b"
    ));
    assert!(matches!(
        command(&words(&["read", "LD/A.b", "ST"])),
        Command::Read { fc: Fc::St, .. }
    ));
    assert!(matches!(
        command(&words(&["write", "LD/A.b", "CF", "5"])),
        Command::Write { fc: Fc::Cf, value, .. } if value == "5"
    ));
    assert!(matches!(
        command(&words(&["dataset", "LD/LLN0.E"])),
        Command::Dataset { reference } if reference == "LD/LLN0.E"
    ));
    assert!(matches!(
        command(&words(&["report", "LD/LLN0.RP.u"])),
        Command::Report { reference } if reference == "LD/LLN0.RP.u"
    ));
    for (w, want) in [("on", true), ("true", true), ("1", true), ("off", false), ("ON", false)] {
        assert!(matches!(
            command(&words(&["control", "LD/A", w])),
            Command::Control { on, .. } if on == want
        ));
    }
}

#[test]
fn a_command_that_lacks_something_says_what() {
    for (w, what) in [
        (&["read"][..], "read needs a reference"),
        (&["write", "LD/A", "CF"], "write needs REF FC VALUE"),
        (&["dataset"], "dataset needs a reference"),
        (&["control", "LD/A"], "control needs REF on|off"),
        (&["report"], "report needs an RCB reference"),
    ] {
        assert!(matches!(command(&words(w)), Command::Lacking(s) if s == what));
    }
    assert!(matches!(command(&words(&["fly"])), Command::Unknown(s) if s == "fly"));
    assert!(matches!(
        command(&words(&["read", "LD/A", "??"])),
        Command::NoConstraint(s) if s == "??"
    ));
}

fn guess(s: &str) -> Value {
    parse_value(s, s.parse::<f32>().ok().map(f32::to_bits))
}

#[test]
fn a_value_is_guessed_from_its_spelling() {
    assert_eq!(guess("true"), Value::boolean(true));
    assert_eq!(guess("false"), Value::boolean(false));
    assert_eq!(guess("-7"), Value::int32(-7));
    assert_eq!(guess("+7"), Value::int32(7));
    assert_eq!(guess("230.4"), Value::float32(230.4f32.to_bits()));
    assert_eq!(guess("2147483648"), Value::float32(2147483648.0f32.to_bits()));
    assert_eq!(guess("text"), Value::visible_string("text"));
}

#[test]
fn what_a_device_exposes_is_listed_by_class() {
    assert_eq!(browsed_classes().len(), 8);
    assert_eq!(
        class_line(AcsiClass::Urcb, &words(&["urcb01", "urcb02"])).unwrap(),
        "    URCB urcb01, urcb02"
    );
    assert_eq!(
        class_line(AcsiClass::DataSet, &words(&["Events"])).unwrap(),
        "    DATA-SET Events"
    );
    assert!(class_line(AcsiClass::Urcb, &Vec::new()).is_none());
    assert_eq!(member_line("LD/A.b", Fc::Mx, &Some("1".into())), "LD/A.b [MX] = 1");
    assert_eq!(member_line("LD/A.b", Fc::Mx, &None), "LD/A.b [MX] = <none>");
    assert_eq!(report_line(7, 2), "report seq=7 entries=2");
    assert_eq!(entry_line("LD/A.b", "gi", "1"), "  LD/A.b (gi) = 1");
}

// ---- ied-server ----

#[test]
fn a_port_alone_stands_for_every_interface() {
    match server::parse_args(&words(&["--addr", ":10102", "--setting-groups", "4", "--quiet"])) {
        server::Parsed::Run(a) => {
            assert_eq!(a.addr, "0.0.0.0:10102");
            assert_eq!(a.setting_groups, 4);
            assert!(a.quiet);
            assert_eq!(a.scl, "testdata/simpleIO_direct_control.cid");
            assert_eq!(a.files, None);
            assert_eq!(a.ied, "");
        }
        other => panic!("{other:?}"),
    }
    match server::parse_args(&words(&["--scl", "a.cid", "--files", "/tmp", "--ied", "X"])) {
        server::Parsed::Run(a) => {
            assert_eq!((a.scl.as_str(), a.ied.as_str()), ("a.cid", "X"));
            assert_eq!(a.files.as_deref(), Some("/tmp"));
            assert_eq!(a.addr, "0.0.0.0:10102");
        }
        other => panic!("{other:?}"),
    }
    for w in [&["--setting-groups", "256"][..], &["--setting-groups", "x"], &["--scl"], &["-h"]] {
        assert!(matches!(server::parse_args(&words(w)), server::Parsed::Usage), "{w:?}");
    }
    assert!(matches!(
        server::parse_args(&words(&["--fly"])),
        server::Parsed::Unknown(s) if s == "--fly"
    ));
}

#[test]
fn the_server_names_what_it_serves() {
    assert_eq!(
        banner("simpleIO", "a.cid", 1),
        "ied-server: simpleIO from a.cid (1 logical device)"
    );
    assert_eq!(
        banner("simpleIO", "a.cid", 2),
        "ied-server: simpleIO from a.cid (2 logical devices)"
    );
    assert_eq!(point("LD", "AnIn", 3, ".mag.f"), "LD/GGIO1.AnIn3.mag.f");
}

/// Over any four ticks in a row each of the four status points toggles once.
#[test]
fn the_status_points_take_turns() {
    let mut seen: Vec<u32> = (7..11).map(status_point).collect();
    seen.sort_unstable();
    assert_eq!(seen, [1, 2, 3, 4]);
}

// ---- goose-sniff ----

#[test]
fn an_appid_is_read_in_hexadecimal() {
    assert_eq!(parse_app_id("0x1000"), Some(0x1000));
    assert_eq!(parse_app_id("3fFf"), Some(0x3fff));
    assert_eq!(parse_app_id("0x+1"), Some(1));
    assert_eq!(parse_app_id("000000ffff"), Some(0xffff));
    for bad in ["", "0x", "10000", "0xg", "-1", "+"] {
        assert_eq!(parse_app_id(bad), None, "{bad}");
    }
}

#[test]
fn the_sniffer_takes_an_interface_and_a_filter() {
    match sniff::parse_args(&words(&["--iface", "eth1", "--appid", "0x1000", "--gocbref", "g"])) {
        sniff::Parsed::Run { iface, filter, quiet } => {
            assert_eq!(iface, "eth1");
            assert_eq!(filter.app_id, 0x1000);
            assert_eq!(filter.go_cb_ref, "g");
            assert!(!quiet);
        }
        other => panic!("{other:?}"),
    }
    assert!(matches!(
        sniff::parse_args(&words(&["--quiet"])),
        sniff::Parsed::Run { iface, quiet: true, .. } if iface == "eth0"
    ));
    for w in [&["--appid", "zz"][..], &["--iface"], &["--help"]] {
        assert!(matches!(sniff::parse_args(&words(w)), sniff::Parsed::Usage), "{w:?}");
    }
    assert!(matches!(
        sniff::parse_args(&words(&["x"])),
        sniff::Parsed::Unknown(s) if s == "x"
    ));
}

#[test]
fn a_message_is_shown_with_its_anomalies() {
    let mut m = Message {
        go_cb_ref: "gcb01".into(),
        app_id: 0x3a,
        st_num: 7,
        sq_num: 3,
        conf_rev: 1,
        time_allowed_to_live: 2000,
        values: vec![Value::boolean(true)],
        ..Default::default()
    };
    assert_eq!(
        message_line(1, &m),
        "#1 appid=0x003a gcb01 stNum=7 sqNum=3 confRev=1 ttl=2000ms entries=1"
    );
    m.test = true;
    m.nds_com = true;
    m.anomalies = Anomalies { sq_num_gap: true, stale: true, ..Anomalies::default() };
    assert_eq!(
        message_line(2, &m),
        "#2 appid=0x003a gcb01 stNum=7 sqNum=3 confRev=1 ttl=2000ms entries=1 TEST NDSCOM ANOMALY: sqNum-gap stale"
    );
    assert_eq!(value_line(0, "true"), "    [0] true");
}

// ---- the sweep ----

fn last(r: &Report) -> String {
    r.lines.last().expect("something was recorded").line()
}

#[test]
fn a_record_reads_as_a_line_and_every_record_counts_once() {
    let mut r = Report::default();
    r.pass("identify", "");
    assert_eq!(last(&r), "PASS  identify");
    r.fail("browse(DATA)", "no data objects");
    assert_eq!(last(&r), "FAIL  browse(DATA)  (no data objects)");
    r.skip("readFile", "none");
    assert_eq!(r.check("x", Ok::<u8, String>(3)), Some(3));
    assert_eq!(r.check("y", Err::<u8, String>("gone".into())), None);
    assert_eq!(r.summary(), "2 passed, 2 failed, 1 skipped");
    assert_eq!(r.count(Outcome::Fail), 2);
    assert_eq!(r.exit_code(), 1);
    assert_eq!(Report::default().exit_code(), 0);
}

#[test]
fn browsing_needs_a_device() {
    let mut r = Report::default();
    assert_eq!(r.on_devices(Ok(words(&["A", "B"]))), Some("A".into()));
    assert_eq!(r.on_devices(Ok(Vec::new())), None);
    assert_eq!(last(&r), "FAIL  logical devices  (the server reports none)");
    assert_eq!(r.on_devices(Err("gone".into())), None);
    assert_eq!(last(&r), "FAIL  getNameList(domain)  (gone)");
    r.on_nodes(Ok(3));
    assert_eq!(last(&r), "PASS  getNameList(namedVariable)");
    r.on_nodes(Ok(0));
    assert_eq!(last(&r), "FAIL  logical nodes  (the device reports none)");
}

#[test]
fn the_objects_of_a_model_are_counted() {
    let node = |n: usize| LogicalNode {
        name: "GGIO1".into(),
        class: "GGIO".into(),
        objects: (0..n).map(|_| DataObject::default()).collect(),
    };
    let m = Model {
        name: "m".into(),
        devices: vec![
            LogicalDevice { name: "A".into(), nodes: vec![node(2), node(3)] },
            LogicalDevice { name: "B".into(), nodes: vec![node(4)] },
        ],
    };
    assert_eq!(count_objects(&m), 9);
    let mut r = Report::default();
    r.on_model(Ok(9));
    assert_eq!(last(&r), "PASS  retrieveModel  (9 data objects)");
    r.on_model(Ok(0));
    assert_eq!(last(&r), "FAIL  retrieveModel  (no data objects were reconstructed)");
    r.on_browse(Ok(2));
    assert_eq!(last(&r), "PASS  browse(DATA)  (2 objects)");
}

#[test]
fn reading_and_writing_are_judged() {
    let mut r = Report::default();
    let tried = measurands(&reference("LD/GGIO1.AnIn1"));
    assert_eq!(tried, [reference("LD/GGIO1.AnIn1.mag.f"), reference("LD/GGIO1.AnIn1.mag.i")]);
    assert_eq!(no_such_reference("LD").as_str(), "LD/NOSUCHLN.NoSuchDO.stVal");
    r.on_no_measurand();
    assert_eq!(r.count(Outcome::Skip), 3);
    r.on_read("LD/A", Ok("230.4".into()));
    assert_eq!(last(&r), "PASS  read(MX)  (LD/A = 230.4)");
    r.on_batch(Ok(1));
    assert_eq!(last(&r), "FAIL  readValues(batch)  (1 items, want 2)");
    r.on_write_back(Ok(Err("denied".into())));
    assert_eq!(last(&r), "SKIP  write(MX)  (refused: denied)");
    r.on_write_back(Err("gone".into()));
    assert_eq!(last(&r), "FAIL  write(MX)  (could not read it back first: gone)");
    r.on_absent(false);
    assert_eq!(last(&r), "PASS  read(non-existent)  (refused, as it should be)");
    r.on_absent(true);
    assert_eq!(r.lines.last().unwrap().outcome, Outcome::Fail);
}

#[test]
fn datasets_are_judged() {
    let mut r = Report::default();
    assert_eq!(dynamic_dataset("LD").as_str(), "LD/LLN0.rsIec61850Sweep");
    assert!(r.pick_dataset(&Vec::new()).is_none());
    assert_eq!(last(&r), "SKIP  readDataSet  (the device configures none)");
    assert_eq!(r.pick_dataset(&vec![reference("LD/LLN0.E")]), Some(reference("LD/LLN0.E")));
    r.on_dataset("LD/LLN0.E", Ok(4));
    assert_eq!(last(&r), "PASS  readDataSet  (LD/LLN0.E: 4 members)");
    r.on_dataset("LD/LLN0.E", Ok(0));
    assert_eq!(last(&r), "FAIL  readDataSet  (LD/LLN0.E reported no members)");
    r.on_no_member();
    assert!(!r.on_created("LD/LLN0.S", Err("denied".into())));
    assert_eq!(last(&r), "SKIP  createDataSet  (refused: denied)");
    assert!(r.on_created("LD/LLN0.S", Ok(())));
    r.on_members(Ok(1));
    assert_eq!(last(&r), "PASS  getNamedVariableListAttributes  (1 member)");
    r.on_members(Ok(2));
    assert_eq!(last(&r), "FAIL  getNamedVariableListAttributes  (2 members, want 1)");
}

#[test]
fn reporting_is_judged() {
    let mut r = Report::default();
    assert!(r.pick_block("URCB", &Vec::new()).is_none());
    assert_eq!(last(&r), "SKIP  report(URCB)  (the device configures none)");
    let mut rcb = Rcb::new(reference("LD/LLN0.RP.u"));
    rcb.intg_pd = 5;
    assert!(r.on_rcb("URCB", Ok(rcb)).is_none());
    assert_eq!(last(&r), "FAIL  report(URCB)  (the block reports no RptID)");
    let mut rcb = Rcb::new(reference("LD/LLN0.RP.u"));
    rcb.rpt_id = "u".into();
    rcb.intg_pd = 5;
    let ready = r.on_rcb("URCB", Ok(rcb)).unwrap();
    assert_eq!(ready.intg_pd, 0);
    assert_eq!(ready.opt_flds, OptFlds::usual());
    assert!(ready.trg_ops.gi && ready.trg_ops.quality_change && !ready.trg_ops.integrity);
    assert_eq!(last(&r), "PASS  getRCB(URCB)");
    assert!(r.on_reporting("URCB", "LD/LLN0.RP.u", Ok(())));
    r.on_interrogation("URCB", Ok(2));
    assert_eq!(last(&r), "PASS  generalInterrogation(URCB)  (2 report(s))");
    r.on_interrogation("URCB", Ok(0));
    assert_eq!(
        last(&r),
        "FAIL  generalInterrogation(URCB)  (no report arrived within 750ms)"
    );
    r.on_disabled("URCB", Ok(()));
    assert_eq!(last(&r), "PASS  disableReporting(URCB)");
}

#[test]
fn control_is_judged() {
    let mut r = Report::default();
    assert!(is_operable(&Ok(words(&["SBO", "Oper"]))));
    assert!(!is_operable(&Ok(words(&["SBO"]))));
    assert!(!is_operable(&Err("gone".into())));
    assert!(opposite(&None));
    assert!(opposite(&Some(Value::boolean(false))));
    assert!(!opposite(&Some(Value::boolean(true))));
    r.on_no_control();
    r.on_ctl_val_spec(Ok("boolean".into()));
    assert_eq!(last(&r), "PASS  ctlValSpec  (boolean)");
    r.on_status_only();
    assert_eq!(last(&r), "SKIP  operate  (the object is status-only)");
    assert!(r.on_operated(true, Ok(())));
    assert_eq!(last(&r), "PASS  operate  (set to true)");
    r.on_status(true, Ok((Value::boolean(true), "true".into())));
    assert_eq!(last(&r), "PASS  operate(stVal follows)");
    r.on_status(true, Ok((Value::boolean(false), "false".into())));
    assert_eq!(last(&r), "FAIL  operate(stVal follows)  (stVal is false, want true)");
    r.on_status(true, Err("gone".into()));
    assert_eq!(last(&r), "SKIP  operate(stVal follows)  (not readable: gone)");
}

fn entry(name: &str) -> FileEntry {
    FileEntry { name: name.into(), size: 1, last_modified: None }
}

#[test]
fn files_are_looked_for_one_level_down() {
    let listing = vec![entry("readme.txt"), entry("COMTRADE//"), entry("log.txt")];
    let mut names = file_candidates(&listing);
    assert_eq!(names, ["readme.txt", "log.txt"]);
    assert_eq!(subdirectories(&listing), ["COMTRADE"]);
    add_candidates(
        &mut names,
        "COMTRADE",
        &vec![entry("a.cfg"), entry("sub/"), entry("COMTRADE/b.cfg")],
    );
    assert_eq!(names, ["readme.txt", "log.txt", "COMTRADE/a.cfg", "COMTRADE/b.cfg"]);
    assert_eq!(trim_separators("a/b//"), "a/b");
    assert_eq!(trim_separators("/"), "");
}

#[test]
fn files_setting_groups_and_logs_are_judged() {
    let mut r = Report::default();
    assert!(r.on_files(Err("no".into())).is_none());
    assert_eq!(last(&r), "SKIP  fileDirectory  (not supported: no)");
    assert_eq!(r.on_files(Ok(vec![entry("a")])).unwrap().len(), 1);
    r.on_file_read(2, Some(("a".into(), 7)), "");
    assert_eq!(last(&r), "PASS  readFile  (a (7 octets))");
    r.on_file_read(0, None, "");
    assert_eq!(last(&r), "SKIP  readFile  (the filestore holds no regular file)");
    r.on_file_read(2, None, "denied");
    assert_eq!(last(&r), "FAIL  readFile  (none of 2 candidates opened; last: denied)");
    r.on_no_sgcb();
    r.on_setting_groups(Ok((4, 1, 0)));
    assert_eq!(last(&r), "PASS  settingGroups  (NumOfSG=4 ActSG=1 EditSG=0)");
    assert_eq!(journal_ref("LD", "LLN0$EventLog").as_str(), "LD/LLN0.EventLog");
    assert_eq!(
        r.pick_journal("LD", Ok(words(&["LLN0$EventLog"]))),
        Some(reference("LD/LLN0.EventLog"))
    );
    assert!(r.pick_journal("LD", Ok(Vec::new())).is_none());
    assert_eq!(last(&r), "SKIP  readJournal  (the device has no journal)");
    r.on_journal(Ok(3));
    assert_eq!(last(&r), "PASS  readJournal  (3 entries)");
}

// ---- the course of a sweep ----

/// A device that implements everything, with the state of one switch.
struct Device {
    on: bool,
    calls: Vec<String>,
}

fn reading(v: Value, shown: &str) -> Answer {
    Answer::Reading(v, shown.into())
}

impl Device {
    fn answer(&mut self, ld: &str, call: Call) -> Answer {
        self.calls.push(format!("{call:?}"));
        let refused = || Answer::Failed("object-non-existent".into());
        match call {
            Call::Identify => Answer::Identity("V".into(), "M".into(), "1".into()),
            Call::Devices => Answer::Names(words(&["LD0", "LD1"])),
            Call::Nodes => Answer::Names(words(&["GGIO1", "LLN0"])),
            Call::CountObjects => Answer::Count(7),
            Call::Browse(class) => {
                let name = match class.as_str() {
                    "DATA-SET" => "LLN0.Events",
                    "URCB" => "LLN0.RP.u",
                    "BRCB" => "LLN0.BR.b",
                    "SGCB" => "LLN0.SP.SGCB",
                    _ => "GGIO1.AnIn1",
                };
                let mut found = vec![reference(&format!("{ld}/{name}"))];
                if name == "GGIO1.AnIn1" {
                    found.insert(0, reference(&format!("{ld}/GGIO1.Mod")));
                    found.push(reference(&format!("{ld}/GGIO1.SPCSO1")));
                }
                Answer::References(found)
            }
            Call::Read(r, _) => match r.as_str() {
                "LD0/GGIO1.AnIn1.mag.f" => reading(Value::float32(0), "0"),
                "LD0/GGIO1.SPCSO1.stVal" => reading(Value::boolean(self.on), "switch"),
                _ => refused(),
            },
            Call::ReadTwice(_, _) => Answer::Count(2),
            Call::GetRcb(r) => {
                let mut rcb = Rcb::new(r);
                rcb.rpt_id = "id".into();
                Answer::Block(rcb)
            }
            Call::Interrogate => Answer::Count(1),
            Call::Directory(r, _) => Answer::Names(if r.as_str().ends_with("SPCSO1") {
                words(&["Oper"])
            } else {
                Vec::new()
            }),
            Call::ControlFor(_) => Answer::Model(CtlModel::DirectNormal),
            Call::CtlValSpec => Answer::Kind("Some(Boolean)".into()),
            Call::Operate(v) => {
                self.on = v.as_bool();
                Answer::Done
            }
            Call::ReadDataSet(_) => Answer::Count(4),
            Call::DataSetMembers(_) => Answer::Count(1),
            Call::SettingGroups(_) => Answer::Groups(4, 1, 0),
            Call::ListFiles(path) => Answer::Files(match path.as_str() {
                "" => vec![entry("notes"), entry("COMTRADE/")],
                _ => vec![entry("a.cfg")],
            }),
            Call::ReadFile(name) => match name.as_str() {
                "COMTRADE/a.cfg" => Answer::Count(12),
                _ => refused(),
            },
            Call::Journals => Answer::Names(words(&["LLN0$Log"])),
            Call::QueryLog(_) => Answer::Count(3),
            _ => Answer::Done,
        }
    }
}

/// Runs a sweep, and returns everything it shows and the exit code.
fn run(mut answer: impl FnMut(&str, Call) -> Answer) -> (Vec<String>, i32) {
    let mut sweep = Sweep::new();
    let mut shown = Vec::new();
    for _ in 0..1000 {
        shown.extend(sweep.heading());
        let call = sweep.call();
        if matches!(call, Call::Finish) {
            return (shown, sweep.report.exit_code());
        }
        let a = answer(&sweep.ld, call);
        let remark = sweep.on_answer(&a);
        let seen = sweep.report.lines.len();
        sweep = sweep.step(a);
        shown.extend(sweep.report.lines[seen..].iter().map(|l| l.line()));
        shown.extend(remark);
    }
    panic!("the sweep does not end");
}

#[test]
fn a_device_that_implements_everything_passes_throughout() {
    let mut device = Device { on: true, calls: Vec::new() };
    let (shown, code) = run(|ld, call| device.answer(ld, call));
    assert_eq!(code, 0);
    assert_eq!(
        shown,
        [
            "== association ==",
            "PASS  identify",
            "      V / M / 1",
            "\n== browse ==",
            "PASS  getNameList(domain)",
            "      2 logical device(s), using LD0",
            "PASS  getNameList(namedVariable)",
            "\n== model retrieval ==",
            "PASS  retrieveModel  (7 data objects)",
            "PASS  browse(DATA)  (3 objects)",
            "\n== read and write ==",
            "PASS  read(MX)  (LD0/GGIO1.AnIn1.mag.f = 0)",
            "PASS  readValues(batch)  (2 items)",
            "PASS  write(MX)  (value written back unchanged)",
            "PASS  read(non-existent)  (refused, as it should be)",
            "\n== datasets ==",
            "PASS  readDataSet  (LD0/LLN0.Events: 4 members)",
            "PASS  createDataSet  (LD0/LLN0.rsIec61850Sweep)",
            "PASS  getNamedVariableListAttributes  (1 member)",
            "PASS  deleteDataSet",
            "\n== reporting ==",
            "PASS  getRCB(URCB)",
            "PASS  enableReporting(URCB)  (LD0/LLN0.RP.u)",
            "PASS  generalInterrogation(URCB)  (1 report(s))",
            "PASS  disableReporting(URCB)",
            "PASS  getRCB(BRCB)",
            "PASS  enableReporting(BRCB)  (LD0/LLN0.BR.b)",
            "PASS  generalInterrogation(BRCB)  (1 report(s))",
            "PASS  disableReporting(BRCB)",
            "\n== control ==",
            "PASS  controlFor",
            "      LD0/GGIO1.SPCSO1: direct-with-normal-security",
            "PASS  ctlValSpec  (Some(Boolean))",
            "PASS  operate  (set to false)",
            "PASS  operate(stVal follows)",
            "\n== setting groups ==",
            "PASS  settingGroups  (NumOfSG=4 ActSG=1 EditSG=0)",
            "\n== file services ==",
            "PASS  fileDirectory  (2 entries)",
            "PASS  readFile  (COMTRADE/a.cfg (12 octets))",
            "\n== logs ==",
            "PASS  readJournal  (3 entries)",
            "\n29 passed, 0 failed, 0 skipped",
        ]
    );
    assert!(device.on, "the switch is put back where it was");
    let cleaned = device.calls.iter().filter(|c| c.starts_with("DeleteDataSet")).count();
    assert_eq!(cleaned, 2, "what a previous run left behind is deleted first");
}

#[test]
fn a_server_that_refuses_everything_is_swept_to_the_end() {
    let mut calls = 0;
    let (shown, code) = run(|_, call| {
        calls += 1;
        match call {
            Call::Devices => Answer::Names(words(&["LD0"])),
            _ => Answer::Failed("no".into()),
        }
    });
    assert_eq!(code, 1);
    assert_eq!(shown.iter().filter(|l| l.contains("== ")).count(), 10);
    assert_eq!(shown.last().unwrap(), "\n1 passed, 5 failed, 11 skipped");
    assert!(calls < 30);

    // Without a device there is nothing to sweep.
    let (shown, code) = run(|_, _| Answer::Failed("no".into()));
    assert_eq!(code, 1);
    assert_eq!(shown.last().unwrap(), "\n0 passed, 2 failed, 0 skipped");
}

/// Setting groups and logs are optional; a server without them is not broken.
#[test]
fn a_server_without_optional_services_skips_them() {
    let mut device = Device { on: false, calls: Vec::new() };
    let (shown, code) = run(|ld, call| match call {
        Call::Browse(AcsiClass::Sgcb) => Answer::References(Vec::new()),
        Call::Journals => Answer::Names(Vec::new()),
        call => device.answer(ld, call),
    });
    assert_eq!(code, 0);
    assert_eq!(shown.last().unwrap(), "\n27 passed, 0 failed, 2 skipped");
}
