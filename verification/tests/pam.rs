use whogoesthere::checkers::pam::{parse_pam_line, scan_pam_file, PamRule};

fn parse_unwrap(line: &str) -> PamRule {
    parse_pam_line(line).expect("parses")
}

#[test]
fn parses_minimal_three_field_line() {
    let r = parse_unwrap("auth required pam_env.so");
    assert_eq!(r.kind, "auth");
    assert_eq!(r.control, "required");
    assert_eq!(r.module, "pam_env.so");
    assert_eq!(r.args, "");
}

#[test]
fn parses_line_with_module_arguments() {
    let r = parse_unwrap("auth required pam_faillock.so preauth silent deny=4 unlock_time=120");
    assert_eq!(r.module, "pam_faillock.so");
    assert_eq!(r.args, "preauth silent deny=4 unlock_time=120");
}

#[test]
fn parses_leading_dash_type_variant() {
    let r = parse_unwrap("-session optional pam_systemd.so");
    assert_eq!(r.kind, "-session");
    assert_eq!(r.module, "pam_systemd.so");
}

#[test]
fn parses_bracketed_complex_control() {
    let r = parse_unwrap(
        "auth [success=done new_authtok_reqd=done default=ignore] pam_unix.so try_first_pass",
    );
    assert_eq!(r.kind, "auth");
    assert_eq!(
        r.control,
        "[success=done new_authtok_reqd=done default=ignore]"
    );
    assert_eq!(r.module, "pam_unix.so");
    assert_eq!(r.args, "try_first_pass");
}

#[test]
fn parses_include_directive_with_sibling_file_as_module() {
    let r = parse_unwrap("account include password-auth");
    assert_eq!(r.control, "include");
    assert_eq!(r.module, "password-auth");
}

#[test]
fn tolerates_tabs_and_runs_of_spaces() {
    let r = parse_unwrap("auth\trequired\t\t  \tpam_env.so");
    assert_eq!(r.kind, "auth");
    assert_eq!(r.control, "required");
    assert_eq!(r.module, "pam_env.so");
}

#[test]
fn skips_blank_and_comment_lines() {
    assert!(parse_pam_line("").is_none());
    assert!(parse_pam_line("   ").is_none());
    assert!(parse_pam_line("# generated by authselect").is_none());
    assert!(parse_pam_line("   # indented comment").is_none());
}

#[test]
fn rejects_unknown_type_token() {
    assert!(parse_pam_line("@include common-auth").is_none());
    assert!(parse_pam_line("garbage line").is_none());
}

#[test]
fn rejects_truncated_lines() {
    assert!(parse_pam_line("auth").is_none());
    assert!(parse_pam_line("auth required").is_none());
    assert!(parse_pam_line("auth required ").is_none());
}

#[test]
fn unterminated_bracket_control_is_rejected() {
    assert!(parse_pam_line("auth [success=done pam_unix.so").is_none());
}

#[test]
fn scan_yields_one_finding_per_rule_with_service_metadata() {
    let content = "#%PAM-1.0\nauth required pam_env.so\n\nsession optional pam_motd.so motd=/run/motd\n";
    let f = scan_pam_file(content, "/etc/pam.d/sshd");
    assert_eq!(f.len(), 2);
    assert_eq!(f[0].mechanism, "PAM rule (sshd/auth) — runs at authentication time");
    assert_eq!(f[0].target.as_deref(), Some("pam_env.so"));
    assert_eq!(f[0].metadata.get("line").map(String::as_str), Some("2"));
    assert_eq!(f[0].metadata.get("service").map(String::as_str), Some("sshd"));
    assert!(!f[0].metadata.contains_key("module_args"));
    assert_eq!(
        f[1].metadata.get("module_args").map(String::as_str),
        Some("motd=/run/motd")
    );
    assert_eq!(f[1].metadata.get("control").map(String::as_str), Some("optional"));
}
