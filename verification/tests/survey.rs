use whogoesthere::checker::Checker;
use whogoesthere::checkers::ssh::SshChecker;
use whogoesthere::checkers::systemd::SystemdChecker;
use whogoesthere::diff::diff_snapshots;
use whogoesthere::finding::{Finding, Metadata, PackageOrigin, Scope};
use whogoesthere::survey::{keep_untracked, render_diff, render_report, select_checker};

fn finding(source: &str, package: PackageOrigin) -> Finding {
    Finding {
        category: "ssh".to_string(),
        mechanism: "authorized_keys entry — grants passwordless SSH login".to_string(),
        source: source.to_string(),
        target: Some("madden@old-laptop".to_string()),
        scope: Scope::User { uid: 1000, name: "madden".to_string() },
        package,
        metadata: Metadata::new(),
    }
}

#[test]
fn checker_selection_defaults_to_all() {
    assert!(select_checker(&Vec::new(), "ssh"));
    let only = vec!["systemd".to_string(), "cron".to_string()];
    assert!(select_checker(&only, "cron"));
    assert!(!select_checker(&only, "ssh"));
    assert_eq!(SshChecker.name(), "ssh");
    assert_eq!(SystemdChecker.name(), "systemd");
}

#[test]
fn untracked_filter_keeps_order() {
    let v = vec![
        finding("/a", PackageOrigin::Untracked),
        finding("/b", PackageOrigin::Owned { package: "p".to_string() }),
        finding("/c", PackageOrigin::Unknown),
        finding("/d", PackageOrigin::Untracked),
    ];
    let kept = keep_untracked(v);
    let sources: Vec<&str> = kept.iter().map(|f| f.source.as_str()).collect();
    assert_eq!(sources, vec!["/a", "/d"]);
}

#[test]
fn report_shows_each_finding_with_sorted_metadata() {
    let mut f = finding("/home/madden/.ssh/authorized_keys", PackageOrigin::Untracked);
    f.metadata.insert("line".to_string(), "3".to_string());
    f.metadata.insert("keytype".to_string(), "ssh-ed25519".to_string());
    let text = render_report(&vec![f]);
    assert_eq!(
        text,
        "[ssh] authorized_keys entry — grants passwordless SSH login\n  source:  /home/madden/.ssh/authorized_keys\n  target:  madden@old-laptop\n  scope:   user madden (uid 1000)\n  package: UNTRACKED\n  keytype: ssh-ed25519\n  line: 3\n\n"
    );
    assert_eq!(render_report(&Vec::new()), "no findings\n");
}

#[test]
fn diff_report_marks_added_and_removed() {
    let old = vec![finding("/old", PackageOrigin::Unknown)];
    let mut new_f = finding("/new", PackageOrigin::Owned { package: "pkg".to_string() });
    new_f.target = None;
    new_f.scope = Scope::System;
    let d = diff_snapshots(old, vec![new_f]);
    let text = render_diff(&d);
    assert!(text.starts_with("+ [ssh] authorized_keys entry"));
    assert!(text.contains("+   scope:   system\n+   package: pkg\n\n- [ssh]"));
    assert!(text.contains("-   package: unknown\n"));
    assert!(!text.contains("+   target:"));
    let same = diff_snapshots(Vec::new(), Vec::new());
    assert_eq!(render_diff(&same), "no changes\n");
}
