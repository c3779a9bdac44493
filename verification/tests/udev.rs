use whogoesthere::checkers::udev::{
    extract_directives, extract_with_prefixes, import_program_prefixes, run_prefixes,
    scan_rules_file,
};

fn extract_run(line: &str) -> Vec<(&'static str, String)> {
    let mut out = Vec::new();
    extract_with_prefixes(line, &run_prefixes(), "RUN", &mut out);
    out
}

fn extract_import(line: &str) -> Vec<(&'static str, String)> {
    let mut out = Vec::new();
    extract_with_prefixes(line, &import_program_prefixes(), "IMPORT{program}", &mut out);
    out
}

#[test]
fn extracts_basic_run_directive() {
    assert_eq!(
        extract_run(r#"RUN+="/usr/bin/foo""#),
        vec![("RUN", "/usr/bin/foo".to_string())]
    );
}

#[test]
fn extracts_each_assignment_operator_variant() {
    assert_eq!(extract_run(r#"RUN+="/a""#), vec![("RUN", "/a".to_string())]);
    assert_eq!(extract_run(r#"RUN:="/b""#), vec![("RUN", "/b".to_string())]);
    assert_eq!(extract_run(r#"RUN="/c""#), vec![("RUN", "/c".to_string())]);
}

#[test]
fn extracts_multiple_directives_on_the_same_line() {
    let r = extract_run(r#"KERNEL=="usb*", RUN+="/usr/bin/a", RUN+="/usr/bin/b""#);
    assert_eq!(
        r,
        vec![
            ("RUN", "/usr/bin/a".to_string()),
            ("RUN", "/usr/bin/b".to_string()),
        ]
    );
}

#[test]
fn skips_directive_when_value_is_not_quoted() {
    assert!(extract_run("RUN+=/usr/bin/foo").is_empty());
}

#[test]
fn does_not_false_positive_on_run_substring_inside_a_value() {
    let r = extract_run(r#"RUN+="echo RUN+=fake_inside_value""#);
    assert_eq!(r, vec![("RUN", "echo RUN+=fake_inside_value".to_string())]);
}

#[test]
fn returns_early_on_unterminated_value_but_keeps_prior_extracts() {
    let r = extract_run(r#"RUN+="/usr/bin/foo", RUN+="unterminated"#);
    assert_eq!(r, vec![("RUN", "/usr/bin/foo".to_string())]);
}

#[test]
fn import_program_only_matches_the_program_variant() {
    assert_eq!(
        extract_import(r#"IMPORT{program}+="/usr/bin/foo""#),
        vec![("IMPORT{program}", "/usr/bin/foo".to_string())]
    );
    assert!(extract_import(r#"IMPORT{file}="/etc/something""#).is_empty());
    assert!(extract_import(r#"IMPORT{db}="ID_FOO""#).is_empty());
}

#[test]
fn program_variant_of_run_is_preferred_at_the_same_position() {
    assert_eq!(
        extract_run(r#"RUN{program}+="/bin/p""#),
        vec![("RUN", "/bin/p".to_string())]
    );
}

#[test]
fn directives_list_run_values_before_import_values() {
    let d = extract_directives(r#"IMPORT{program}="/bin/i", RUN+="/bin/r""#);
    assert_eq!(
        d,
        vec![
            ("RUN", "/bin/r".to_string()),
            ("IMPORT{program}", "/bin/i".to_string())
        ]
    );
}

#[test]
fn rules_file_folds_continuations_and_skips_comments() {
    let content = "# RUN+=\"/bin/commented\"\nACTION==\"add\", \\\n  RUN+=\"/bin/folded\"\nKERNEL==\"x\", IMPORT{program}=\"/bin/imp\"\n";
    let f = scan_rules_file(content, "/etc/udev/rules.d/99-x.rules");
    assert_eq!(f.len(), 2);
    assert_eq!(f[0].target.as_deref(), Some("/bin/folded"));
    assert_eq!(f[0].metadata.get("line").map(String::as_str), Some("2"));
    assert_eq!(f[0].mechanism, "udev rule RUN — runs command on matching device event");
    assert_eq!(f[1].metadata.get("directive").map(String::as_str), Some("IMPORT{program}"));
    assert_eq!(f[1].metadata.get("line").map(String::as_str), Some("3"));
}
