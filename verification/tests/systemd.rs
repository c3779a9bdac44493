use whogoesthere::checkers::systemd::{
    activated_unit_name, base_metadata, collect_keys, dropin_findings, dropin_target,
    emit_findings, is_dropin_dir, parse_ini, unit_extension, Section, Unit,
};
use whogoesthere::finding::Scope;

#[test]
fn dropin_dirs_match_known_unit_extensions() {
    assert!(is_dropin_dir("/etc/systemd/system/sshd.service.d"));
    assert!(is_dropin_dir("/etc/systemd/system/foo.timer.d"));
    assert!(is_dropin_dir("/etc/systemd/system/foo.path.d"));
    assert!(is_dropin_dir("/etc/systemd/system/foo.socket.d"));
}

#[test]
fn parse_ini_captures_sections_and_repeated_keys() {
    let content = "\
[Unit]
Description=My Service

[Service]
Type=simple
ExecStart=/usr/bin/foo
ExecStart=/usr/bin/bar
";
    let unit = parse_ini(content);
    assert_eq!(
        unit.get("Unit").unwrap().get("Description").unwrap(),
        &vec!["My Service".to_string()]
    );
    assert_eq!(
        unit.get("Service").unwrap().get("Type").unwrap(),
        &vec!["simple".to_string()]
    );
    assert_eq!(
        unit.get("Service").unwrap().get("ExecStart").unwrap(),
        &vec!["/usr/bin/foo".to_string(), "/usr/bin/bar".to_string()]
    );
}

#[test]
fn parse_ini_skips_comments_blanks_and_pre_section_lines() {
    let content = "\
# hash comment outside any section
; semicolon comment outside any section
OrphanKeyBeforeSection=ignored

[Service]
# in-section hash comment
; in-section semicolon comment

ExecStart=/usr/bin/foo
";
    let unit = parse_ini(content);
    assert!(!unit.contains_key(""));
    assert_eq!(unit.len(), 1);
    assert_eq!(
        unit.get("Service").unwrap().get("ExecStart").unwrap(),
        &vec!["/usr/bin/foo".to_string()]
    );
}

#[test]
fn parse_ini_trims_whitespace_around_key_and_value() {
    let content = "[Service]\n  ExecStart =   /usr/bin/foo  \n";
    let unit = parse_ini(content);
    assert_eq!(
        unit.get("Service").unwrap().get("ExecStart").unwrap(),
        &vec!["/usr/bin/foo".to_string()]
    );
}

#[test]
fn activated_unit_name_defaults_to_filename_with_dot_service() {
    let unit = Unit::new();
    let path = "/etc/systemd/system/foo.timer";
    assert_eq!(
        activated_unit_name(&unit, path, "Timer", "Unit"),
        Some("foo.service".to_string())
    );
}

#[test]
fn activated_unit_name_honors_explicit_override() {
    let mut unit = Unit::new();
    let mut sec = Section::new();
    sec.insert("Unit".to_string(), vec!["bar.service".to_string()]);
    unit.insert("Timer".to_string(), sec);
    let path = "/etc/systemd/system/foo.timer";
    assert_eq!(
        activated_unit_name(&unit, path, "Timer", "Unit"),
        Some("bar.service".to_string())
    );
}

#[test]
fn activated_unit_name_picks_last_when_key_repeats() {
    let mut unit = Unit::new();
    let mut sec = Section::new();
    sec.insert(
        "Service".to_string(),
        vec!["first.service".to_string(), "last.service".to_string()],
    );
    unit.insert("Socket".to_string(), sec);
    let path = "/etc/systemd/system/foo.socket";
    assert_eq!(
        activated_unit_name(&unit, path, "Socket", "Service"),
        Some("last.service".to_string())
    );
}

#[test]
fn rejects_wants_requires_and_unsurveyed_unit_types() {
    assert!(!is_dropin_dir("/etc/systemd/system/multi-user.target.wants"));
    assert!(!is_dropin_dir("/etc/systemd/system/sshd.service.wants"));
    assert!(!is_dropin_dir("/etc/systemd/system/multi-user.target.d"));
    assert!(!is_dropin_dir("/usr/lib/systemd/system/system.slice.d"));
    assert!(!is_dropin_dir("/etc/systemd/system/foo.d"));
}

#[test]
fn service_emits_one_finding_per_non_empty_exec_value() {
    let unit = parse_ini(
        "[Unit]\nDescription=Demo\n[Service]\nType=oneshot\nUser=svc\nExecStartPre=/bin/pre\nExecStart=\nExecStart=/bin/main --x\n[Install]\nWantedBy=multi-user.target\nWantedBy=graphical.target\n",
    );
    let f = emit_findings(&unit, "/etc/systemd/system/demo.service", "service", &Scope::System, "system");
    assert_eq!(f.len(), 2);
    assert_eq!(f[0].mechanism, "systemd service ExecStartPre= (system)");
    assert_eq!(f[1].target.as_deref(), Some("/bin/main --x"));
    assert_eq!(f[1].metadata.get("directive").map(String::as_str), Some("ExecStart"));
    assert_eq!(f[1].metadata.get("service_type").map(String::as_str), Some("oneshot"));
    assert_eq!(f[1].metadata.get("run_as").map(String::as_str), Some("svc"));
    assert_eq!(f[1].metadata.get("description").map(String::as_str), Some("Demo"));
    assert_eq!(
        f[1].metadata.get("wanted_by").map(String::as_str),
        Some("multi-user.target, graphical.target")
    );
    assert_eq!(f[1].metadata.get("location").map(String::as_str), Some("system"));
}

#[test]
fn timer_path_and_socket_join_their_triggers() {
    let timer = parse_ini("[Timer]\nOnBootSec=5min\nOnCalendar=daily\nPersistent=true\n");
    let f = emit_findings(&timer, "/etc/systemd/system/backup.timer", "timer", &Scope::System, "system");
    assert_eq!(f.len(), 1);
    assert_eq!(f[0].target.as_deref(), Some("OnCalendar=daily; OnBootSec=5min"));
    assert_eq!(f[0].mechanism, "systemd timer (system)");
    assert_eq!(f[0].metadata.get("activates").map(String::as_str), Some("backup.service"));
    assert_eq!(f[0].metadata.get("persistent").map(String::as_str), Some("true"));

    let path = parse_ini("[Path]\nPathChanged=/etc/x\nUnit=other.service\n");
    let p = emit_findings(&path, "/etc/systemd/user/w.path", "path", &Scope::System, "user-global");
    assert_eq!(p[0].mechanism, "systemd path watcher (user-global)");
    assert_eq!(p[0].metadata.get("activates").map(String::as_str), Some("other.service"));

    let socket = parse_ini("[Socket]\nListenStream=0.0.0.0:4444\n");
    let s = emit_findings(&socket, "/etc/systemd/system/bd.socket", "socket", &Scope::System, "system");
    assert_eq!(s[0].target.as_deref(), Some("ListenStream=0.0.0.0:4444"));
    assert_eq!(s[0].mechanism, "systemd socket activation (system)");

    let empty = parse_ini("[Timer]\nPersistent=true\n");
    assert!(emit_findings(&empty, "/x.timer", "timer", &Scope::System, "system").is_empty());
    assert!(emit_findings(&socket, "/x.target", "target", &Scope::System, "system").is_empty());
}

#[test]
fn dropin_findings_are_marked_as_overrides() {
    assert_eq!(
        dropin_target("/etc/systemd/system/sshd.service.d"),
        Some(("sshd.service".to_string(), "service".to_string()))
    );
    let unit = parse_ini("[Service]\nExecStart=\nExecStart=/tmp/evil\n");
    let f = dropin_findings(
        &unit,
        "/etc/systemd/system/sshd.service.d/override.conf",
        "sshd.service",
        "service",
        &Scope::System,
        "system",
    );
    assert_eq!(f.len(), 1);
    assert_eq!(f[0].mechanism, "systemd service ExecStart= override (system)");
    assert_eq!(f[0].metadata.get("overrides").map(String::as_str), Some("sshd.service"));
    assert_eq!(f[0].target.as_deref(), Some("/tmp/evil"));
}

#[test]
fn collect_keys_orders_by_key_list_then_source() {
    let unit = parse_ini("[Socket]\nListenDatagram=/run/b\nListenStream=/run/a\nListenStream=/run/c\n");
    let s = unit.get("Socket").unwrap();
    assert_eq!(
        collect_keys(s, &["ListenStream", "ListenDatagram"]),
        vec![
            "ListenStream=/run/a".to_string(),
            "ListenStream=/run/c".to_string(),
            "ListenDatagram=/run/b".to_string()
        ]
    );
    let m = base_metadata(&Unit::new(), "user-personal");
    assert_eq!(m.len(), 1);
    assert_eq!(unit_extension("/etc/systemd/system/a.socket"), Some("socket".to_string()));
    assert_eq!(unit_extension("/etc/systemd/system/a.target"), None);
}
