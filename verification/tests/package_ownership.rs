use whogoesthere::finding::{Finding, Metadata, PackageOrigin, Scope};
use whogoesthere::package_ownership::{
    benign_alias_pattern, dpkg_list_pairs, dpkg_pkg_from_stem, extract_snap_name,
    is_profile_d_symlink_candidate, is_snap_dir_name, is_systemd_enable_symlink_candidate,
    merged_usr_rewrite, pacman_pairs, parse_dpkg_list_content, parse_pacman_files_content,
    parse_rpm_qf_output, snap_blob_name, OwnershipIndex,
};

#[test]
fn rewrites_merged_usr_dirs() {
    assert_eq!(
        merged_usr_rewrite("/lib/systemd/system/rsyslog.service"),
        Some("/usr/lib/systemd/system/rsyslog.service".to_string())
    );
    assert_eq!(merged_usr_rewrite("/bin/ls"), Some("/usr/bin/ls".to_string()));
    assert_eq!(merged_usr_rewrite("/sbin/init"), Some("/usr/sbin/init".to_string()));
}

#[test]
fn leaves_non_merged_paths_alone() {
    assert_eq!(merged_usr_rewrite("/etc/crontab"), None);
    assert_eq!(merged_usr_rewrite("/usr/lib/foo"), None);
    assert_eq!(merged_usr_rewrite("/var/spool/cron"), None);
    assert_eq!(merged_usr_rewrite("/lib"), None);
}

#[test]
fn recognizes_systemd_enable_symlinks_at_both_scopes() {
    assert!(is_systemd_enable_symlink_candidate("/etc/systemd/system/dbus-org.bluez.service"));
    assert!(is_systemd_enable_symlink_candidate("/etc/systemd/user/dbus-org.bluez.obex.service"));
    assert!(is_systemd_enable_symlink_candidate("/etc/systemd/system/sshd.service"));
    assert!(is_systemd_enable_symlink_candidate("/etc/systemd/system/display-manager.service"));
    assert!(is_systemd_enable_symlink_candidate("/etc/systemd/system/iscsi.service"));
    assert!(is_systemd_enable_symlink_candidate("/etc/systemd/system/logrotate.timer"));
    assert!(is_systemd_enable_symlink_candidate("/etc/systemd/system/systemd-journald.socket"));
    assert!(is_systemd_enable_symlink_candidate("/etc/systemd/system/foo.path"));
}

#[test]
fn rpm_parser_pairs_each_line_on_tab() {
    let stdout = "\
bluez-5.86-4.fc44.x86_64\t/usr/lib/systemd/system/bluetooth.service
coreutils-9.5-9.fc44.x86_64\t/usr/bin/ls
coreutils-9.5-9.fc44.x86_64\t/usr/bin/cat
";
    let pairs = parse_rpm_qf_output(stdout);
    assert_eq!(pairs.len(), 3);
    assert!(pairs.contains(&(
        "/usr/bin/ls".to_string(),
        "coreutils-9.5-9.fc44.x86_64".to_string()
    )));
    assert!(pairs.contains(&(
        "/usr/lib/systemd/system/bluetooth.service".to_string(),
        "bluez-5.86-4.fc44.x86_64".to_string()
    )));
}

#[test]
fn rpm_parser_skips_lines_without_tab_and_handles_empty_input() {
    let stdout = "no-tab-here\n\nfoo-1\t/bin/foo\n";
    let pairs = parse_rpm_qf_output(stdout);
    assert_eq!(pairs, vec![("/bin/foo".to_string(), "foo-1".to_string())]);
    assert!(parse_rpm_qf_output("").is_empty());
}

#[test]
fn dpkg_pkg_from_stem_strips_arch_suffix() {
    assert_eq!(dpkg_pkg_from_stem("bash"), "bash");
    assert_eq!(dpkg_pkg_from_stem("libfoo:amd64"), "libfoo");
    assert_eq!(dpkg_pkg_from_stem("weird:any:thing"), "weird");
    assert_eq!(dpkg_pkg_from_stem(""), "");
}

#[test]
fn dpkg_list_parser_one_path_per_line() {
    let content = "/usr/bin/foo\n/etc/foo/config\n\n  /var/lib/foo  \n";
    let paths = parse_dpkg_list_content(content);
    assert_eq!(
        paths,
        vec![
            "/usr/bin/foo".to_string(),
            "/etc/foo/config".to_string(),
            "/var/lib/foo".to_string(),
        ]
    );
    assert!(parse_dpkg_list_content("").is_empty());
}

#[test]
fn pacman_files_parser_only_picks_files_section_and_prepends_slash() {
    let content = "%NAME%
bluez

%VERSION%
5.86-4

%FILES%
usr/bin/bluetoothctl
usr/lib/systemd/system/bluetooth.service

%BACKUP%
etc/bluetooth/main.conf\t<hash>

%FILES%
usr/share/man/man1/bluetoothctl.1.gz
";
    let paths = parse_pacman_files_content(content);
    assert_eq!(
        paths,
        vec![
            "/usr/bin/bluetoothctl".to_string(),
            "/usr/lib/systemd/system/bluetooth.service".to_string(),
            "/usr/share/man/man1/bluetoothctl.1.gz".to_string(),
        ]
    );
}

#[test]
fn pacman_files_parser_empty_when_no_files_section() {
    let content = "%NAME%\nfoo\n\n%VERSION%\n1.0-1\n";
    assert!(parse_pacman_files_content(content).is_empty());
}

#[test]
fn profile_d_symlink_candidate_matches_sh_under_etc_profile_d() {
    assert!(is_profile_d_symlink_candidate("/etc/profile.d/debuginfod.sh"));
    assert!(is_profile_d_symlink_candidate("/etc/profile.d/01-locale-fix.sh"));
}

#[test]
fn profile_d_symlink_candidate_rejects_other_dirs_and_extensions() {
    assert!(!is_profile_d_symlink_candidate("/etc/bash.bashrc"));
    assert!(!is_profile_d_symlink_candidate("/etc/profile.d/README"));
    assert!(!is_profile_d_symlink_candidate("/etc/profile.d/debuginfod.csh"));
    assert!(!is_profile_d_symlink_candidate("/usr/share/libdebuginfod-common/debuginfod.sh"));
}

fn idx_with_backend() -> OwnershipIndex {
    OwnershipIndex::build(
        Some(vec![("/usr/bin/true".to_string(), "coreutils".to_string())]),
        None,
    )
}

#[test]
fn postinst_allowlist_returns_owning_package_for_known_paths() {
    let idx = idx_with_backend();
    assert_eq!(idx.resolve_postinst_allowlist("/etc/profile"), Some("base-files"));
    for name in [
        "common-auth",
        "common-account",
        "common-password",
        "common-session",
        "common-session-noninteractive",
    ] {
        assert_eq!(
            idx.resolve_postinst_allowlist(&format!("/etc/pam.d/{name}")),
            Some("libpam-runtime"),
            "expected {name} → libpam-runtime"
        );
    }
    assert_eq!(idx.resolve_postinst_allowlist("/etc/modules"), Some("kmod"));
}

#[test]
fn postinst_allowlist_returns_none_for_unrelated_paths() {
    let idx = idx_with_backend();
    assert!(idx.resolve_postinst_allowlist("/etc/bash.bashrc").is_none());
    assert!(idx.resolve_postinst_allowlist("/etc/pam.d/sshd").is_none());
    assert!(idx.resolve_postinst_allowlist("/etc/passwd").is_none());
}

#[test]
fn postinst_allowlist_does_not_fire_without_a_package_backend() {
    let idx = OwnershipIndex::build(None, None);
    assert!(idx.resolve_postinst_allowlist("/etc/profile").is_none());
    assert!(idx.resolve_postinst_allowlist("/etc/pam.d/common-auth").is_none());
}

#[test]
fn benign_alias_pattern_dispatches_to_the_right_tag() {
    assert_eq!(
        benign_alias_pattern("/etc/systemd/system/sshd.service"),
        Some("systemd-enable-symlink")
    );
    assert_eq!(
        benign_alias_pattern("/etc/profile.d/debuginfod.sh"),
        Some("shell-profile-symlink")
    );
    assert_eq!(benign_alias_pattern("/etc/passwd"), None);
}

#[test]
fn extracts_snap_name_from_systemd_unit_paths() {
    assert_eq!(
        extract_snap_name("/etc/systemd/system/snap.cups.cupsd.service"),
        Some("cups".to_string())
    );
    assert_eq!(
        extract_snap_name("/etc/systemd/system/snap.mesa-2404.component-monitor.service"),
        Some("mesa-2404".to_string())
    );
    assert_eq!(
        extract_snap_name("/etc/systemd/user/snap.firmware-updater.firmware-notifier.timer"),
        Some("firmware-updater".to_string())
    );
    assert_eq!(
        extract_snap_name(
            "/etc/systemd/user/snap.snapd-desktop-integration.snapd-desktop-integration.service"
        ),
        Some("snapd-desktop-integration".to_string())
    );
}

#[test]
fn extracts_snap_name_from_udev_rule_paths() {
    assert_eq!(
        extract_snap_name("/etc/udev/rules.d/70-snap.chromium.rules"),
        Some("chromium".to_string())
    );
    assert_eq!(
        extract_snap_name("/etc/udev/rules.d/70-snap.snap-store.rules"),
        Some("snap-store".to_string())
    );
}

#[test]
fn extract_snap_name_rejects_non_snap_paths() {
    assert!(extract_snap_name("/usr/lib/systemd/system/snap.cups.cupsd.service").is_none());
    assert!(extract_snap_name("/etc/systemd/system/sshd.service").is_none());
    assert!(extract_snap_name("/etc/systemd/system/snap.cups.target").is_none());
    assert!(extract_snap_name("/etc/udev/rules.d/99-foo.rules").is_none());
    assert!(extract_snap_name("/etc/udev/rules.d/70-snap.cups.conf").is_none());
}

#[test]
fn rejects_wrong_extension_and_wrong_directories() {
    assert!(!is_systemd_enable_symlink_candidate("/etc/systemd/system/foo.conf"));
    assert!(!is_systemd_enable_symlink_candidate("/etc/systemd/system/foo.target"));
    assert!(!is_systemd_enable_symlink_candidate("/etc/systemd/system/foo"));
    assert!(!is_systemd_enable_symlink_candidate("/usr/lib/systemd/system/sshd.service"));
    assert!(!is_systemd_enable_symlink_candidate("/lib/systemd/system/sshd.service"));
    assert!(!is_systemd_enable_symlink_candidate("/run/systemd/system/foo.service"));
    assert!(!is_systemd_enable_symlink_candidate(
        "/etc/systemd/system/sshd.service.d/override.conf"
    ));
}

fn untracked(source: &str) -> Finding {
    Finding {
        category: "systemd".to_string(),
        mechanism: "m".to_string(),
        source: source.to_string(),
        target: None,
        scope: Scope::System,
        package: PackageOrigin::Unknown,
        metadata: Metadata::new(),
    }
}

#[test]
fn owner_matches_paths_component_by_component() {
    let idx = OwnershipIndex::build(
        Some(vec![("/usr/lib/systemd/system/a.service".to_string(), "pkg-a".to_string())]),
        None,
    );
    assert!(matches!(
        idx.owner("/usr/lib/systemd//system/a.service"),
        PackageOrigin::Owned { package } if package == "pkg-a"
    ));
    assert!(matches!(idx.owner("/etc/systemd/system/a.service"), PackageOrigin::Untracked));
    let none = OwnershipIndex::build(None, None);
    assert!(matches!(none.owner("/usr/lib/systemd/system/a.service"), PackageOrigin::Unknown));
}

#[test]
fn attribution_follows_only_owned_alias_targets() {
    let idx = OwnershipIndex::build(
        Some(vec![("/usr/lib/systemd/system/sshd.service".to_string(), "openssh".to_string())]),
        Some(vec!["cups".to_string()]),
    );
    let f = idx.attribute(
        untracked("/etc/systemd/system/sshd.service"),
        Some("/usr/lib/systemd/system/sshd.service"),
    );
    assert!(matches!(&f.package, PackageOrigin::Owned { package } if package == "openssh"));
    assert_eq!(f.metadata.get("benign_pattern").map(String::as_str), Some("systemd-enable-symlink"));
    assert_eq!(
        f.metadata.get("alias_target").map(String::as_str),
        Some("/usr/lib/systemd/system/sshd.service")
    );
    let evil = idx.attribute(untracked("/etc/systemd/system/evil.service"), Some("/tmp/evil"));
    assert!(matches!(evil.package, PackageOrigin::Untracked));
    let snap = idx.attribute(untracked("/etc/systemd/system/snap.cups.cupsd.service"), None);
    assert!(matches!(&snap.package, PackageOrigin::Owned { package } if package == "snap:cups"));
    assert_eq!(snap.metadata.get("installer").map(String::as_str), Some("snapd"));
    let fake = idx.attribute(untracked("/etc/systemd/system/snap.evil.payload.service"), None);
    assert!(matches!(fake.package, PackageOrigin::Untracked));
    let pam = idx.attribute(untracked("/etc/pam.d/common-auth"), None);
    assert!(matches!(&pam.package, PackageOrigin::Owned { package } if package == "libpam-runtime"));
    assert_eq!(
        pam.metadata.get("installer").map(String::as_str),
        Some("postinst-libpam-runtime")
    );
}

#[test]
fn attribution_leaves_owned_and_unknown_alone() {
    let none = OwnershipIndex::build(None, Some(vec!["cups".to_string()]));
    let f = none.attribute(untracked("/etc/systemd/system/snap.cups.cupsd.service"), None);
    assert!(matches!(f.package, PackageOrigin::Unknown));
    let mut owned = untracked("/etc/pam.d/common-auth");
    owned.package = PackageOrigin::Owned { package: "x".to_string() };
    let idx = idx_with_backend();
    let g = idx.attribute(owned, None);
    assert!(matches!(&g.package, PackageOrigin::Owned { package } if package == "x"));
    assert_eq!(g.metadata.len(), 0);
}

#[test]
fn merged_usr_list_answers_for_both_spellings() {
    let pairs = dpkg_list_pairs("rsyslog:amd64", "/lib/systemd/system/rsyslog.service\n/etc/rsyslog.conf\n", true);
    assert_eq!(
        pairs,
        vec![
            ("/usr/lib/systemd/system/rsyslog.service".to_string(), "rsyslog".to_string()),
            ("/lib/systemd/system/rsyslog.service".to_string(), "rsyslog".to_string()),
            ("/etc/rsyslog.conf".to_string(), "rsyslog".to_string()),
        ]
    );
    let idx = OwnershipIndex::build(Some(pairs), None);
    assert!(matches!(idx.owner("/usr/lib/systemd/system/rsyslog.service"), PackageOrigin::Owned { .. }));
    assert!(matches!(idx.owner("/lib/systemd/system/rsyslog.service"), PackageOrigin::Owned { .. }));
    let unmerged = dpkg_list_pairs("rsyslog", "/lib/systemd/system/rsyslog.service\n", false);
    assert_eq!(unmerged.len(), 1);
}

#[test]
fn pacman_pairs_and_snap_name_helpers() {
    let p = pacman_pairs("bluez-5.86-4", "%FILES%\nusr/bin/bluetoothctl\n");
    assert_eq!(p, vec![("/usr/bin/bluetoothctl".to_string(), "bluez-5.86-4".to_string())]);
    assert!(is_snap_dir_name("core22"));
    assert!(!is_snap_dir_name("bin"));
    assert!(!is_snap_dir_name(".hidden"));
    assert_eq!(snap_blob_name("core22_1380.snap"), Some("core22".to_string()));
    assert_eq!(snap_blob_name("core22.snap"), None);
    assert_eq!(snap_blob_name("core22_1380.img"), None);
}

#[test]
fn empty_backend_list_and_snap_list_give_no_index() {
    let idx = OwnershipIndex::build(Some(Vec::new()), Some(Vec::new()));
    assert!(matches!(idx.owner("/etc/passwd"), PackageOrigin::Unknown));
    assert!(idx.resolve_postinst_allowlist("/etc/profile").is_none());
    let f = idx.attribute(untracked("/etc/systemd/system/snap.cups.cupsd.service"), None);
    assert!(matches!(f.package, PackageOrigin::Unknown));
    assert_eq!(f.metadata.len(), 0);
    let full = idx_with_backend();
    assert!(matches!(full.owner("/etc/passwd"), PackageOrigin::Untracked));
}
