use whogoesthere::checkers::modules::{
    load_dir_mechanism, parse_install_directive, parse_module_list, scan_probe_content,
    strip_comment,
};

#[test]
fn strip_comment_cuts_at_hash_and_trims() {
    assert_eq!(strip_comment("  loop  # for images"), "loop");
    assert_eq!(strip_comment("# all comment"), "");
    assert_eq!(strip_comment(" dm_mod "), "dm_mod");
}

#[test]
fn module_list_skips_semicolon_and_hash_comments() {
    let mech = load_dir_mechanism("/etc/modules-load.d");
    assert_eq!(mech, "auto-loaded at boot (/etc/modules-load.d)");
    let f = parse_module_list("; comment\n  ;indented\nloop\n\nbr_netfilter # bridge\n#x\n", "/etc/modules-load.d/a.conf", &mech);
    let targets: Vec<&str> = f.iter().filter_map(|x| x.target.as_deref()).collect();
    assert_eq!(targets, vec!["loop", "br_netfilter"]);
    assert_eq!(f[0].category, "modules");
}

#[test]
fn install_directive_runs_a_command() {
    let f = parse_install_directive("install usb-storage /bin/sh -c 'evil'", "/etc/modprobe.d/x.conf")
        .expect("finding");
    assert_eq!(f.target.as_deref(), Some("/bin/sh -c 'evil'"));
    assert_eq!(
        f.mechanism,
        "modprobe `install usb-storage` — runs command instead of loading the module"
    );
    assert_eq!(f.metadata.get("module").map(String::as_str), Some("usb-storage"));
    assert!(parse_install_directive("install usb-storage", "/x").is_none());
    assert!(parse_install_directive("options snd index=1", "/x").is_none());
}

#[test]
fn probe_scan_reads_uncommented_install_lines() {
    let c = "# install a /bin/false\nblacklist b\ninstall c /bin/true # note\n";
    let f = scan_probe_content("/etc/modprobe.d/y.conf", c);
    assert_eq!(f.len(), 1);
    assert_eq!(f[0].target.as_deref(), Some("/bin/true"));
}
