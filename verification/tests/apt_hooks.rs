use whogoesthere::checkers::apt_hooks::{
    extract_directive_values, scan_apt_conf_content, strip_apt_conf_comments,
};

fn extract(content: &str, directive: &str) -> Vec<String> {
    let stripped = strip_apt_conf_comments(content);
    extract_directive_values(&stripped, directive)
}

#[test]
fn single_value_form() {
    let c = r#"DPkg::Pre-Invoke "/usr/sbin/dpkg-preconfigure --apt || true";"#;
    assert_eq!(
        extract(c, "DPkg::Pre-Invoke"),
        vec!["/usr/sbin/dpkg-preconfigure --apt || true".to_string()]
    );
}

#[test]
fn append_list_double_colon_form() {
    let c = r#"APT::Update::Post-Invoke-Success:: "/usr/lib/cnf-update-db";"#;
    assert_eq!(
        extract(c, "APT::Update::Post-Invoke-Success"),
        vec!["/usr/lib/cnf-update-db".to_string()]
    );
}

#[test]
fn block_form_yields_one_value_per_string() {
    let c = r#"DPkg::Post-Invoke {
            "/bin/touch /var/lib/foo/dirty";
            "/usr/bin/notify-foo || true";
        };"#;
    assert_eq!(
        extract(c, "DPkg::Post-Invoke"),
        vec![
            "/bin/touch /var/lib/foo/dirty".to_string(),
            "/usr/bin/notify-foo || true".to_string(),
        ]
    );
}

#[test]
fn comments_do_not_shadow_directives() {
    let c = r#"// a leading comment
/* and a block
   comment */
# and a hash one
DPkg::Pre-Invoke "/bin/echo hi";"#;
    assert_eq!(
        extract(c, "DPkg::Pre-Invoke"),
        vec!["/bin/echo hi".to_string()]
    );
}

#[test]
fn comment_marker_inside_quoted_string_is_preserved() {
    let c = r#"DPkg::Pre-Invoke "/bin/echo http://example.com/path";"#;
    assert_eq!(
        extract(c, "DPkg::Pre-Invoke"),
        vec!["/bin/echo http://example.com/path".to_string()]
    );
}

#[test]
fn similar_named_directive_does_not_partial_match() {
    let c = r#"DPkg::Pre-Invoke-Foo "decoy";"#;
    assert!(extract(c, "DPkg::Pre-Invoke").is_empty());
}

#[test]
fn namespace_continuation_does_not_match() {
    let c = r#"DPkg::Pre-Invoke::SomeSub "decoy";"#;
    assert!(extract(c, "DPkg::Pre-Invoke").is_empty());
    assert_eq!(
        extract(c, "DPkg::Pre-Invoke::SomeSub"),
        vec!["decoy".to_string()]
    );
}

#[test]
fn escaped_quote_inside_value_does_not_terminate() {
    let c = r#"DPkg::Pre-Invoke "/bin/echo \"hello world\"";"#;
    assert_eq!(
        extract(c, "DPkg::Pre-Invoke"),
        vec![r#"/bin/echo \"hello world\""#.to_string()]
    );
}

#[test]
fn nested_braces_in_value_do_not_terminate_block() {
    let c = r#"DPkg::Post-Invoke {
            "if [ -d /foo ]; then echo {nested}; fi";
            "/bin/true";
        };"#;
    let r = extract(c, "DPkg::Post-Invoke");
    assert_eq!(r.len(), 2);
    assert_eq!(r[0], "if [ -d /foo ]; then echo {nested}; fi");
    assert_eq!(r[1], "/bin/true");
}

#[test]
fn directive_repeated_in_one_file_emits_each_occurrence() {
    let c = r#"DPkg::Pre-Invoke "/usr/bin/first";
DPkg::Pre-Invoke "/usr/bin/second";"#;
    let r = extract(c, "DPkg::Pre-Invoke");
    assert_eq!(
        r,
        vec!["/usr/bin/first".to_string(), "/usr/bin/second".to_string()]
    );
}

#[test]
fn no_match_returns_empty() {
    let c = r#"APT::Architecture "amd64";
APT::Default-Release "stable";"#;
    assert!(extract(c, "DPkg::Pre-Invoke").is_empty());
    assert!(extract(c, "APT::Update::Pre-Invoke").is_empty());
}

#[test]
fn scan_emits_one_finding_per_hook_command() {
    let c = "// vendor hooks\nDPkg::Post-Invoke { \"/bin/a\"; \"/bin/b\"; };\nAPT::Update::Pre-Invoke \"/bin/c\";\n";
    let f = scan_apt_conf_content("/etc/apt/apt.conf.d/99test", c);
    let targets: Vec<&str> = f.iter().filter_map(|x| x.target.as_deref()).collect();
    assert_eq!(targets, vec!["/bin/a", "/bin/b", "/bin/c"]);
    assert_eq!(f[0].category, "apt_hooks");
    assert_eq!(
        f[0].mechanism,
        "apt hook DPkg::Post-Invoke — runs on package operation"
    );
    assert_eq!(
        f[2].metadata.get("directive").map(String::as_str),
        Some("APT::Update::Pre-Invoke")
    );
    assert_eq!(f[0].source, "/etc/apt/apt.conf.d/99test");
}

#[test]
fn hash_comment_is_stripped_but_not_inside_quotes() {
    assert_eq!(
        strip_apt_conf_comments("A \"x # y\"; # gone\n"),
        "A \"x # y\"; \n"
    );
}

#[test]
fn non_ascii_text_is_copied_verbatim() {
    assert_eq!(strip_apt_conf_comments("P \"é\";"), "P \"é\";");
    assert_eq!(
        strip_apt_conf_comments("Ünïcode \"naïve — ok\"; // ça\n"),
        "Ünïcode \"naïve — ok\"; \n"
    );
}

#[test]
fn text_without_comment_markers_is_unchanged() {
    let text = "DPkg::Post-Invoke { \"echo hi\"; };\nAPT::Get::Assume-Yes \"true\";\n";
    assert_eq!(strip_apt_conf_comments(text), text);
}

#[test]
fn unterminated_block_comment_keeps_the_last_character() {
    assert_eq!(strip_apt_conf_comments("a /* b c"), "a c");
}
