use whogoesthere::checkers::init::{
    init_script, is_init_script_name, parse_runlevel_link, rc_local, record_runlevel_link,
    runlevel_dir, scan_inittab, RunlevelMap,
};

#[test]
fn runlevel_links_name_script_and_action() {
    assert_eq!(
        parse_runlevel_link("S99rc.local"),
        Some(("rc.local".to_string(), "start".to_string()))
    );
    assert_eq!(
        parse_runlevel_link("K01apache2"),
        Some(("apache2".to_string(), "stop".to_string()))
    );
    assert_eq!(parse_runlevel_link("S01"), None);
    assert_eq!(parse_runlevel_link("README"), None);
    assert_eq!(runlevel_dir(3), "/etc/rc3.d");
}

#[test]
fn init_script_lists_enabling_runlevels() {
    let mut levels = RunlevelMap::new();
    record_runlevel_link(&mut levels, 2, "S01ssh");
    record_runlevel_link(&mut levels, 3, "S01ssh");
    record_runlevel_link(&mut levels, 0, "K01ssh");
    record_runlevel_link(&mut levels, 3, "README");
    let f = init_script("/etc/init.d/ssh", "ssh", 4096, 0o755, &levels);
    assert_eq!(f.metadata.get("enabled").map(String::as_str), Some("rc2 start, rc3 start, rc0 stop"));
    assert_eq!(f.metadata.get("executable").map(String::as_str), Some("true"));
    assert_eq!(f.metadata.get("size_bytes").map(String::as_str), Some("4096"));
    let g = init_script("/etc/init.d/other", "other", 10, 0o644, &levels);
    assert!(!g.metadata.contains_key("enabled"));
    assert_eq!(g.metadata.get("executable").map(String::as_str), Some("false"));
    assert!(is_init_script_name("ssh"));
    assert!(!is_init_script_name("skeleton"));
    assert!(!is_init_script_name(".depend.boot"));
}

#[test]
fn rc_local_needs_content_and_notes_non_executable() {
    assert!(rc_local(0, 0o755).is_none());
    let f = rc_local(120, 0o644).expect("finding");
    assert_eq!(f.mechanism, "/etc/rc.local — runs on boot if executable");
    assert_eq!(
        f.metadata.get("note").map(String::as_str),
        Some("non-executable — present but won't run at boot")
    );
    let g = rc_local(120, 0o700).expect("finding");
    assert!(!g.metadata.contains_key("note"));
}

#[test]
fn inittab_rows_need_a_process() {
    let content = "id:3:initdefault:\n# comment\nsi::sysinit:/etc/rc.d/rc.sysinit\n1:2345:respawn:/sbin/mingetty tty1 : x\nbad:line\n";
    let f = scan_inittab("/etc/inittab", content);
    assert_eq!(f.len(), 2);
    assert_eq!(f[0].target.as_deref(), Some("/etc/rc.d/rc.sysinit"));
    assert_eq!(f[0].mechanism, "inittab `sysinit`");
    assert_eq!(f[0].metadata.get("runlevels").map(String::as_str), Some(""));
    assert_eq!(f[0].metadata.get("line").map(String::as_str), Some("3"));
    assert_eq!(f[1].target.as_deref(), Some("/sbin/mingetty tty1 : x"));
    assert_eq!(f[1].metadata.get("id").map(String::as_str), Some("1"));
}
