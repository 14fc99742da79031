//! Names: splitting, joining and the two forms of a reference.

use iec61850::model::{from_mms, CtlModel, Fc, ObjectReference, ReasonCode};
use iec61850::text::{join, split};

fn parts(s: &str) -> Vec<String> {
    split(s, '$')
}

#[test]
fn joining_and_splitting_undo_each_other() {
    for s in ["", "$", "GGIO1", "GGIO1$MX$AnIn1", "$$", "a$", "$b"] {
        assert_eq!(join(&parts(s), 0, "$"), s);
    }
    let names = vec!["LLN0".to_string(), String::new(), "Events".to_string()];
    let joined = join(&names, 0, "$");
    assert_eq!(joined, "LLN0$$Events");
    assert_eq!(parts(&joined), names);
}

#[test]
fn no_part_holds_the_separator() {
    assert_eq!(parts("GGIO1$MX$AnIn1"), ["GGIO1", "MX", "AnIn1"]);
    assert!(parts("a$b$$c").iter().all(|p| !p.contains('$')));
}

#[test]
fn a_reference_survives_the_way_over_mms() {
    for (text, fc, item) in [
        ("ied1LD0/GGIO1.AnIn1.mag.f", Fc::Mx, "GGIO1$MX$AnIn1$mag$f"),
        ("ied1LD0/LLN0.Mod", Fc::St, "LLN0$ST$Mod"),
    ] {
        let reference = ObjectReference::from_text(text);
        let (domain, got) = reference.to_mms(fc);
        assert_eq!(domain, "ied1LD0");
        assert_eq!(got, item);
        let (back, constraint) = from_mms(&domain, &got);
        assert_eq!(back.as_str(), text);
        assert_eq!(constraint, fc);
    }
}

#[test]
fn reasons_and_control_models_have_names() {
    assert_eq!(ReasonCode::default().to_text(), "none");
    let mut r = ReasonCode::default();
    r.gi = true;
    assert_eq!(r.to_text(), "general-interrogation");
    r.data_change = true;
    r.integrity = true;
    assert_eq!(r.to_text(), "data-change+integrity+general-interrogation");

    assert_eq!(CtlModel::SboEnhanced.to_text(), "sbo-with-enhanced-security");
    assert!(!CtlModel::StatusOnly.is_controllable());
    assert!(CtlModel::DirectNormal.is_controllable());
}
