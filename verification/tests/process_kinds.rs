use kernel_model::process::{profile_name_ok, profiles_path, NotImplemented, ProcessKind};

#[test]
fn processes_have_stable_names() {
    let names: Vec<&str> =
        [ProcessKind::Fdm, ProcessKind::SheetMetal, ProcessKind::Casting, ProcessKind::Cnc].iter().map(|p| p.name()).collect();
    assert_eq!(names, vec!["fdm", "sheet_metal", "casting", "cnc"]);
}

#[test]
fn only_fdm_is_implemented_and_casting_points_at_draft_analysis() {
    assert_eq!(ProcessKind::Fdm.refusal(), None);
    assert_eq!(ProcessKind::Cnc.refusal(), Some(NotImplemented { process: "cnc", note: "" }));
    assert_eq!(ProcessKind::SheetMetal.refusal(), Some(NotImplemented { process: "sheet_metal", note: "" }));
    let casting = ProcessKind::Casting.refusal().expect("casting refuses");
    assert_eq!(casting.process, "casting");
    assert!(casting.note.contains("draft_analysis"));
}

#[test]
fn blank_or_placeholder_profile_names_are_refused() {
    assert!(profile_name_ok("conservative_default"));
    assert!(profile_name_ok(" prusa mk4 "));
    assert!(profile_name_ok("placeholder"));
    assert!(!profile_name_ok(""));
    assert!(!profile_name_ok(" \t\n"));
    assert!(!profile_name_ok("\u{3000}\u{00A0}"));
    assert!(!profile_name_ok("PLACEHOLDER"));
    assert!(!profile_name_ok("my_PLACEHOLDER_printer"));
}

#[test]
fn profiles_live_under_profiles_as_json() {
    assert_eq!(profiles_path("conservative_default"), "profiles/conservative_default.json");
    assert_eq!(profiles_path(""), "profiles/.json");
}
