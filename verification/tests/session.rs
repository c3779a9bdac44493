use whogoesthere::checkers::display_manager::{session_file, system_script_entry, user_file_entry};
use whogoesthere::checkers::network_manager::{dispatcher_script, phase_dir, phase_entry};
use whogoesthere::finding::{Finding, Scope};
use whogoesthere::path::{file_name_text, is_visible_name};

/// What a dispatcher directory holding `files` (name, size, executable)
/// yields, the directory walk aside.
fn dispatch(dir: &str, files: &[(&str, u64, bool)], phase: Option<&str>, when: &str) -> Vec<Finding> {
    files
        .iter()
        .filter(|(name, _, _)| is_visible_name(name))
        .map(|(name, size, exec)| {
            let mode = if *exec { 0o755 } else { 0o644 };
            dispatcher_script(&format!("{dir}/{name}"), phase, when, *size, mode, true)
        })
        .collect()
}

#[test]
fn picks_up_executable_dispatcher_scripts_and_records_metadata() {
    let findings = dispatch(
        "/tmp/nm-basic",
        &[("10-foo", 19, true), ("20-bar", 19, true)],
        None,
        "runs on every network event",
    );
    assert_eq!(findings.len(), 2);
    let names: Vec<String> = findings
        .iter()
        .map(|f| file_name_text(&f.source).unwrap())
        .collect();
    assert!(names.contains(&"10-foo".to_string()));
    assert!(names.contains(&"20-bar".to_string()));
    for f in &findings {
        assert_eq!(f.metadata.get("executable").map(String::as_str), Some("true"));
        assert!(f.metadata.contains_key("size_bytes"));
    }
}

#[test]
fn flags_non_executable_scripts_with_note_but_still_surfaces_them() {
    let findings = dispatch(
        "/tmp/nm-nonexec",
        &[("10-dormant", 23, false)],
        None,
        "runs on every network event",
    );
    assert_eq!(findings.len(), 1);
    assert_eq!(findings[0].metadata.get("executable").map(String::as_str), Some("false"));
    assert!(
        findings[0].metadata.contains_key("note"),
        "non-executable script should have a 'note' explaining it won't run"
    );
}

#[test]
fn skips_dotfiles_and_editor_backup_tilde_files() {
    let findings = dispatch(
        "/tmp/nm-skips",
        &[(".hidden", 10, true), ("10-real", 10, true), ("10-real~", 10, true)],
        None,
        "runs on every network event",
    );
    assert_eq!(findings.len(), 1);
    assert_eq!(file_name_text(&findings[0].source).unwrap(), "10-real");
}

#[test]
fn phase_sub_dir_surfaces_phase_metadata_and_distinct_mechanism() {
    let findings = dispatch(
        "/tmp/nm-phase",
        &[("10-preup", 10, true)],
        Some("pre-up.d"),
        "runs before an interface comes up",
    );
    assert_eq!(findings.len(), 1);
    let f = &findings[0];
    assert_eq!(f.metadata.get("phase").map(String::as_str), Some("pre-up.d"));
    assert!(f.mechanism.contains("pre-up.d"));
    assert!(f.mechanism.contains("before an interface comes up"));
}

#[test]
fn dispatcher_phases_and_unreadable_scripts() {
    let (phase, when) = phase_entry(1);
    assert_eq!(phase, Some("pre-up.d"));
    assert_eq!(when, "runs before an interface comes up");
    assert_eq!(phase_dir(phase), "/etc/NetworkManager/dispatcher.d/pre-up.d");
    assert_eq!(phase_dir(None), "/etc/NetworkManager/dispatcher.d");
    let g = dispatcher_script("/etc/NetworkManager/dispatcher.d/10-x", None, "runs on every network event", 7, 0o644, false);
    assert_eq!(g.mechanism, "NetworkManager dispatcher script — runs on every network event");
    assert!(g.metadata.contains_key("unreadable"));
}

#[test]
fn check_file_emits_finding_with_size_exec_and_dm_metadata() {
    let f = session_file(
        "/tmp/dm-checkfile/xinitrc",
        "system xinit script — runs on startx",
        Some("xinit"),
        Scope::System,
        26,
        0o755,
        true,
    )
    .expect("has finding");
    assert_eq!(f.category, "display_manager");
    assert!(f.mechanism.contains("xinit"));
    assert_eq!(f.metadata.get("dm").map(String::as_str), Some("xinit"));
    assert_eq!(f.metadata.get("executable").map(String::as_str), Some("true"));
    assert!(f.metadata.contains_key("size_bytes"));
}

#[test]
fn check_file_omits_dm_when_none_given_for_per_user_dotfiles() {
    let f = session_file("/tmp/dm-nodm/.xprofile", "X profile", None, Scope::System, 8, 0o644, true)
        .expect("has finding");
    assert!(!f.metadata.contains_key("dm"));
    assert_eq!(f.metadata.get("executable").map(String::as_str), Some("false"));
}

#[test]
fn check_file_returns_none_for_zero_byte_or_missing() {
    assert!(session_file("/tmp/dm-empty/empty.xprofile", "x", None, Scope::System, 0, 0o644, true).is_none());
}

#[test]
fn scan_script_dir_picks_up_real_scripts_and_skips_backups_and_dotfiles() {
    let files = ["50-something", "90-other", "50-something~", ".hidden"];
    let findings: Vec<Finding> = files
        .iter()
        .filter(|n| is_visible_name(n))
        .filter_map(|n| {
            session_file(
                &format!("/tmp/dm-xsessiond/{n}"),
                "Debian X session fragment — sourced by /etc/X11/Xsession",
                Some("xsession"),
                Scope::System,
                10,
                0o755,
                true,
            )
        })
        .collect();
    assert_eq!(findings.len(), 2);
    for f in &findings {
        assert_eq!(f.metadata.get("dm").map(String::as_str), Some("xsession"));
    }
}

#[test]
fn session_tables_name_paths_and_display_managers() {
    let (path, mech, dm) = system_script_entry(3);
    assert_eq!(path, "/etc/gdm/PostLogin/Default");
    assert_eq!(mech, "GDM PostLogin hook — runs after login");
    assert_eq!(dm, "gdm");
    let (rel, umech) = user_file_entry(2);
    assert_eq!(rel, ".xinitrc");
    assert_eq!(umech, "startx/xinit user init script");
    let f = session_file("/home/u/.xinitrc", umech, None, Scope::User { uid: 1000, name: "u".into() }, 5, 0o600, false)
        .expect("finding");
    assert_eq!(f.metadata.get("unreadable").map(String::as_str), Some("rerun as root to inspect"));
}
