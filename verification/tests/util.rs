use whogoesthere::util::{canonical_unique, fold_line_continuations, is_real_user, parse_ini};

#[test]
fn fold_passes_uninterrupted_content_through_unchanged() {
    let c = "[Unit]\nDescription=Foo\n[Service]\nExecStart=/bin/foo\n";
    assert_eq!(fold_line_continuations(c), c);
}

#[test]
fn fold_joins_a_single_continuation_pair() {
    let c = "ExecStart=/bin/foo \\\n    --arg1 --arg2\n";
    assert_eq!(
        fold_line_continuations(c),
        "ExecStart=/bin/foo --arg1 --arg2\n"
    );
}

#[test]
fn fold_joins_multiple_consecutive_continuations() {
    let c = "ExecStart=/bin/foo \\\n    --a \\\n    --b \\\n    --c\n";
    assert_eq!(
        fold_line_continuations(c),
        "ExecStart=/bin/foo --a --b --c\n"
    );
}

#[test]
fn fold_tolerates_dangling_continuation_at_end_of_file() {
    let c = "ExecStart=/bin/foo \\";
    let r = fold_line_continuations(c);
    assert!(r.starts_with("ExecStart=/bin/foo"));
}

#[test]
fn fold_flushes_dangling_continuation_as_a_line() {
    assert_eq!(fold_line_continuations("a \\\n  b \\"), "a b\n");
    assert_eq!(fold_line_continuations(""), "");
    assert_eq!(fold_line_continuations("x\r\ny"), "x\ny\n");
}

#[test]
fn parse_ini_folds_continued_values() {
    let doc = parse_ini("[Service]\nExecStart=/bin/foo \\\n  --bar\nExecStart = /bin/baz\n");
    assert_eq!(
        doc.get("Service").unwrap().get("ExecStart").unwrap(),
        &vec!["/bin/foo --bar".to_string(), "/bin/baz".to_string()]
    );
}

#[test]
fn canonical_unique_keeps_first_of_each_path() {
    let resolved = vec![
        "/usr/lib/udev/rules.d".to_string(),
        "/etc/udev/rules.d".to_string(),
        "/usr/lib/udev/rules.d/".to_string(),
        "/usr//lib/udev/rules.d".to_string(),
        "/run/udev/rules.d".to_string(),
    ];
    assert_eq!(
        canonical_unique(&resolved),
        vec![
            "/usr/lib/udev/rules.d".to_string(),
            "/etc/udev/rules.d".to_string(),
            "/run/udev/rules.d".to_string()
        ]
    );
}

#[test]
fn real_users_are_root_and_human_uids_with_login_shells() {
    assert!(is_real_user(0, "/bin/bash"));
    assert!(is_real_user(1000, "/usr/bin/zsh"));
    assert!(!is_real_user(999, "/bin/bash"));
    assert!(!is_real_user(65534, "/bin/bash"));
    assert!(!is_real_user(1001, "/usr/sbin/nologin"));
    assert!(!is_real_user(1001, "/bin/false"));
    assert!(!is_real_user(1001, ""));
}
