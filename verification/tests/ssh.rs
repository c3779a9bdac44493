use whogoesthere::checkers::ssh::{
    authorized_keys_unreadable, extract_forced_command, find_whole_token, login_script_findings,
    parse_authorized_key, scan_authorized_keys_content, scan_sshd_config_content,
    sshd_config_unreadable, strip_directive,
};
use whogoesthere::finding::Scope;

#[test]
fn parse_key_without_options() {
    let line = "ssh-ed25519 AAAAC3Nzaaaa madden@host";
    let k = parse_authorized_key(line).expect("parses");
    assert!(k.options.is_none());
    assert_eq!(k.keytype, "ssh-ed25519");
    assert_eq!(k.comment.as_deref(), Some("madden@host"));
}

#[test]
fn parse_key_with_options_including_forced_command() {
    let line = r#"command="/usr/bin/rsync --server",no-pty,no-port-forwarding ssh-rsa AAAAB3NzaC1yc2EAAAAB backup@host"#;
    let k = parse_authorized_key(line).expect("parses");
    let opts = k.options.as_deref().expect("has options");
    assert!(opts.starts_with(r#"command="/usr/bin/rsync --server""#));
    assert!(opts.ends_with("no-port-forwarding"));
    assert_eq!(k.keytype, "ssh-rsa");
    assert_eq!(k.comment.as_deref(), Some("backup@host"));
}

#[test]
fn parse_key_no_comment() {
    let line = "ssh-rsa AAAA";
    let k = parse_authorized_key(line).expect("parses");
    assert!(k.options.is_none());
    assert!(k.comment.is_none());
}

#[test]
fn parse_key_skips_blank_and_comment() {
    assert!(parse_authorized_key("").is_none());
    assert!(parse_authorized_key("   ").is_none());
    assert!(parse_authorized_key("# disabled key").is_none());
}

#[test]
fn parse_key_rejects_unknown_keytype() {
    assert!(parse_authorized_key("not-a-real-keytype AAAA comment").is_none());
}

#[test]
fn parse_key_with_sk_fido_keytype() {
    let line = "sk-ssh-ed25519@openssh.com AAAA fido-key";
    let k = parse_authorized_key(line).expect("parses");
    assert_eq!(k.keytype, "sk-ssh-ed25519@openssh.com");
    assert_eq!(k.comment.as_deref(), Some("fido-key"));
}

#[test]
fn extract_forced_command_basic() {
    let opts = r#"command="/tmp/evil",no-pty"#;
    assert_eq!(extract_forced_command(opts), Some("/tmp/evil".to_string()));
}

#[test]
fn extract_forced_command_case_insensitive_key_and_quoted_escape() {
    let opts = r#"COMMAND="echo \"hi\"",no-pty"#;
    assert_eq!(
        extract_forced_command(opts),
        Some(r#"echo \"hi\""#.to_string())
    );
}

#[test]
fn extract_forced_command_none_when_absent() {
    assert!(extract_forced_command("no-pty,no-port-forwarding").is_none());
}

#[test]
fn find_whole_token_rejects_substring_in_non_whitespace_span() {
    assert!(find_whole_token("xxssh-rsayy AAAA", "ssh-rsa").is_none());
    assert_eq!(find_whole_token("opts ssh-rsa AAAA", "ssh-rsa"), Some(5));
}

#[test]
fn strip_directive_handles_both_separator_forms() {
    assert_eq!(
        strip_directive("ForceCommand /tmp/evil", "ForceCommand").as_deref(),
        Some("/tmp/evil")
    );
    assert_eq!(
        strip_directive("ForceCommand=/tmp/evil", "ForceCommand").as_deref(),
        Some("/tmp/evil")
    );
    assert_eq!(
        strip_directive("forcecommand /tmp/evil", "ForceCommand").as_deref(),
        Some("/tmp/evil")
    );
    assert_eq!(strip_directive("Port 22", "ForceCommand"), None);
    assert_eq!(strip_directive("ForceCommand", "ForceCommand"), None);
}

#[test]
fn multiple_comment_words_are_joined_with_single_spaces() {
    let k = parse_authorized_key("ssh-ed25519 AAAA  first   second\tthird").expect("parses");
    assert_eq!(k.comment.as_deref(), Some("first second third"));
}

#[test]
fn earliest_key_type_marks_the_end_of_the_options() {
    let k = parse_authorized_key("from=\"10.0.0.1\"  ecdsa-sha2-nistp256 AAAA c").expect("parses");
    assert_eq!(k.options.as_deref(), Some("from=\"10.0.0.1\""));
    assert_eq!(k.keytype, "ecdsa-sha2-nistp256");
    assert!(parse_authorized_key("ssh-rsa").is_none());
}

#[test]
fn sshd_config_records_match_block_context() {
    let content = "# main\nForceCommand /usr/bin/global\nMatch User backup\n  ForceCommand=internal-sftp\n\tAuthorizedKeysCommand /usr/bin/keys %u\nAuthorizedKeysCommandUser nobody\n";
    let f = scan_sshd_config_content("/etc/ssh/sshd_config", content);
    assert_eq!(f.len(), 3);
    assert_eq!(f[0].target.as_deref(), Some("/usr/bin/global"));
    assert!(!f[0].metadata.contains_key("match_block"));
    assert_eq!(f[0].mechanism, "sshd_config ForceCommand= — runs on every SSH login");
    assert_eq!(f[1].target.as_deref(), Some("internal-sftp"));
    assert_eq!(f[1].metadata.get("match_block").map(String::as_str), Some("User backup"));
    assert_eq!(f[1].metadata.get("line").map(String::as_str), Some("4"));
    assert_eq!(
        f[2].metadata.get("directive").map(String::as_str),
        Some("AuthorizedKeysCommand")
    );
    assert_eq!(f[2].target.as_deref(), Some("/usr/bin/keys %u"));
}

#[test]
fn authorized_keys_scan_surfaces_forced_command() {
    let scope = Scope::User { uid: 1000, name: "madden".to_string() };
    let content = "# keys\ncommand=\"/tmp/evil\",no-pty ssh-rsa AAAA backup@host\nssh-ed25519 BBBB\n";
    let f = scan_authorized_keys_content("/home/madden/.ssh/authorized_keys", &scope, content);
    assert_eq!(f.len(), 2);
    assert_eq!(f[0].target.as_deref(), Some("backup@host"));
    assert_eq!(f[0].metadata.get("forced_command").map(String::as_str), Some("/tmp/evil"));
    assert_eq!(f[0].metadata.get("line").map(String::as_str), Some("2"));
    assert_eq!(f[1].target, None);
    assert_eq!(f[1].metadata.get("keytype").map(String::as_str), Some("ssh-ed25519"));
    assert!(!f[1].metadata.contains_key("options"));
}

#[test]
fn unreadable_markers_and_login_scripts() {
    let m = sshd_config_unreadable("/etc/ssh/sshd_config", 3282);
    assert_eq!(m.mechanism, "sshd_config (unreadable — likely 0600 root)");
    assert_eq!(m.metadata.get("size_bytes").map(String::as_str), Some("3282"));
    let scope = Scope::User { uid: 1001, name: "bob".to_string() };
    let a = authorized_keys_unreadable("/home/bob/.ssh/authorized_keys", &scope, 0);
    assert_eq!(a.metadata.get("size_bytes").map(String::as_str), Some("0"));
    assert!(login_script_findings("/etc/ssh/sshrc", &Scope::System, "system", 0, true).is_empty());
    let s = login_script_findings("/etc/ssh/sshrc", &Scope::System, "system", 12, false);
    assert_eq!(s[0].mechanism, "/etc/ssh/sshrc — runs on every SSH login, system-wide");
    assert!(s[0].metadata.contains_key("unreadable"));
    let u = login_script_findings("/home/bob/.ssh/rc", &scope, "user", 12, true);
    assert_eq!(u[0].mechanism, "~/.ssh/rc — runs on every SSH login as this user");
    assert!(!u[0].metadata.contains_key("unreadable"));
}

#[test]
fn whole_token_position_is_a_byte_index() {
    assert_eq!(find_whole_token("é ssh-ed25519 AAAA", "ssh-ed25519"), Some(3));
    let line = "ünï ssh-rsa AAAA";
    let p = find_whole_token(line, "ssh-rsa").expect("found");
    assert_eq!(&line[p..p + 7], "ssh-rsa");
}
