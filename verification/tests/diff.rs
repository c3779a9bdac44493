use whogoesthere::diff::{diff_key, diff_snapshots};
use whogoesthere::finding::{Finding, Metadata, PackageOrigin, Scope};

fn finding(category: &str, source: &str, target: Option<&str>, mech: &str) -> Finding {
    Finding {
        category: category.to_string(),
        mechanism: mech.to_string(),
        source: source.to_string(),
        target: target.map(str::to_string),
        scope: Scope::System,
        package: PackageOrigin::Untracked,
        metadata: Metadata::new(),
    }
}

#[test]
fn identical_snapshots_produce_empty_diff() {
    let a = vec![
        finding(
            "systemd",
            "/etc/systemd/system/foo.service",
            Some("/usr/bin/foo"),
            "service",
        ),
        finding(
            "cron",
            "/etc/crontab",
            Some("@reboot /bin/bar"),
            "cron @reboot",
        ),
    ];
    let b = vec![
        finding(
            "systemd",
            "/etc/systemd/system/foo.service",
            Some("/usr/bin/foo"),
            "service",
        ),
        finding(
            "cron",
            "/etc/crontab",
            Some("@reboot /bin/bar"),
            "cron @reboot",
        ),
    ];
    let diff = diff_snapshots(a, b);
    assert!(diff.added.is_empty());
    assert!(diff.removed.is_empty());
}

#[test]
fn added_finding_appears_only_in_added() {
    let old = vec![finding(
        "systemd",
        "/a.service",
        Some("/usr/bin/a"),
        "service",
    )];
    let new = vec![
        finding("systemd", "/a.service", Some("/usr/bin/a"), "service"),
        finding("systemd", "/evil.service", Some("/tmp/evil"), "service"),
    ];
    let diff = diff_snapshots(old, new);
    assert_eq!(diff.added.len(), 1);
    assert_eq!(diff.added[0].source, "/evil.service");
    assert!(diff.removed.is_empty());
}

#[test]
fn removed_finding_appears_only_in_removed() {
    let old = vec![
        finding(
            "ssh",
            "/home/u/.ssh/authorized_keys",
            Some("revoked@host"),
            "key",
        ),
        finding(
            "ssh",
            "/home/u/.ssh/authorized_keys",
            Some("kept@host"),
            "key",
        ),
    ];
    let new = vec![finding(
        "ssh",
        "/home/u/.ssh/authorized_keys",
        Some("kept@host"),
        "key",
    )];
    let diff = diff_snapshots(old, new);
    assert!(diff.added.is_empty());
    assert_eq!(diff.removed.len(), 1);
    assert_eq!(diff.removed[0].target.as_deref(), Some("revoked@host"));
}

#[test]
fn metadata_only_change_is_not_a_diff() {
    let mut old_f = finding("pam", "/etc/pam.d/common-auth", Some("pam_unix.so"), "rule");
    old_f.metadata.insert("line".into(), "17".into());
    let mut new_f = finding("pam", "/etc/pam.d/common-auth", Some("pam_unix.so"), "rule");
    new_f.metadata.insert("line".into(), "18".into());
    let diff = diff_snapshots(vec![old_f], vec![new_f]);
    assert!(
        diff.added.is_empty(),
        "metadata-only delta must not register as added"
    );
    assert!(
        diff.removed.is_empty(),
        "metadata-only delta must not register as removed"
    );
}

#[test]
fn package_status_change_is_not_a_diff() {
    let mut old_f = finding(
        "systemd",
        "/etc/systemd/system/foo.service",
        Some("/usr/bin/foo"),
        "service",
    );
    old_f.package = PackageOrigin::Untracked;
    let mut new_f = finding(
        "systemd",
        "/etc/systemd/system/foo.service",
        Some("/usr/bin/foo"),
        "service",
    );
    new_f.package = PackageOrigin::Owned {
        package: "foo-1.0".into(),
    };
    let diff = diff_snapshots(vec![old_f], vec![new_f]);
    assert!(diff.added.is_empty());
    assert!(diff.removed.is_empty());
}

#[test]
fn scope_difference_separates_findings() {
    let old = vec![Finding {
        scope: Scope::User {
            uid: 1000,
            name: "alice".into(),
        },
        ..finding("shell", "/home/alice/.bashrc", None, "bash")
    }];
    let new = vec![
        Finding {
            scope: Scope::User {
                uid: 1000,
                name: "alice".into(),
            },
            ..finding("shell", "/home/alice/.bashrc", None, "bash")
        },
        Finding {
            scope: Scope::User {
                uid: 1001,
                name: "bob".into(),
            },
            ..finding("shell", "/home/bob/.bashrc", None, "bash")
        },
    ];
    let diff = diff_snapshots(old, new);
    assert_eq!(diff.added.len(), 1);
    assert_eq!(diff.added[0].source, "/home/bob/.bashrc");
}

#[test]
fn identity_string_lists_the_vector_fields() {
    let f = Finding {
        scope: Scope::User { uid: 1000, name: "alice".into() },
        ..finding("ssh", "/home/alice/.ssh/rc", None, "rc")
    };
    assert_eq!(diff_key(&f), "ssh|/home/alice/.ssh/rc||rc|user:1000:alice");
    let g = finding("cron", "/etc/crontab", Some("x"), "m");
    assert_eq!(diff_key(&g), "cron|/etc/crontab|x|m|system");
}

#[test]
fn same_file_in_two_scopes_is_two_vectors() {
    let a = Finding {
        scope: Scope::User { uid: 1000, name: "alice".into() },
        ..finding("shell", "/etc/profile", None, "bash")
    };
    let b = Finding {
        scope: Scope::User { uid: 1001, name: "alice".into() },
        ..finding("shell", "/etc/profile", None, "bash")
    };
    assert_ne!(diff_key(&a), diff_key(&b));
    let diff = diff_snapshots(vec![a], vec![b]);
    assert_eq!(diff.added.len(), 1);
    assert_eq!(diff.removed.len(), 1);
}

#[test]
fn diff_keeps_input_order_and_repeats() {
    let old = vec![finding("c", "/k", None, "m")];
    let new = vec![
        finding("c", "/n2", None, "m"),
        finding("c", "/k", None, "m"),
        finding("c", "/n1", None, "m"),
        finding("c", "/n2", None, "m"),
    ];
    let diff = diff_snapshots(old, new);
    let sources: Vec<&str> = diff.added.iter().map(|f| f.source.as_str()).collect();
    assert_eq!(sources, vec!["/n2", "/n1", "/n2"]);
}

#[test]
fn fields_are_compared_one_by_one_not_as_joined_text() {
    let old = vec![finding("a|b", "c", None, "m")];
    let new = vec![finding("a", "b|c", None, "m")];
    assert_eq!(diff_key(&old[0]), diff_key(&new[0]));
    let diff = diff_snapshots(old, new);
    assert_eq!(diff.added.len(), 1);
    assert_eq!(diff.added[0].category, "a");
    assert_eq!(diff.removed.len(), 1);
    assert_eq!(diff.removed[0].category, "a|b");
}

#[test]
fn absent_target_and_empty_target_are_one_vector() {
    let old = vec![finding("c", "/s", None, "m")];
    let new = vec![finding("c", "/s", Some(""), "m")];
    let diff = diff_snapshots(old, new);
    assert!(diff.added.is_empty());
    assert!(diff.removed.is_empty());
}
