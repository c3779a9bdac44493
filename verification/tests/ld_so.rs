use whogoesthere::checkers::ld_so::{
    parse_conf_line, scan_conf_content, scan_environment, scan_preload, unquote_env_value,
};
use whogoesthere::finding::Finding;

fn parse(line: &str) -> Vec<Finding> {
    parse_conf_line(line, "/etc/ld.so.conf.d/test.conf", 0)
}

#[test]
fn unquote_strips_one_matching_pair_of_outer_quotes() {
    assert_eq!(unquote_env_value(r#""/lib/foo.so""#), "/lib/foo.so");
    assert_eq!(unquote_env_value("'/lib/foo.so'"), "/lib/foo.so");
    assert_eq!(unquote_env_value(r#""'inner'""#), "'inner'");
    assert_eq!(unquote_env_value(r#""mismatched'"#), r#""mismatched'"#);
    assert_eq!(unquote_env_value("/lib/foo.so"), "/lib/foo.so");
    assert_eq!(unquote_env_value(""), "");
    assert_eq!(unquote_env_value("\""), "\"");
}

#[test]
fn bare_path_line_yields_one_search_path_finding() {
    let f = parse("/usr/lib64/llvm21/lib64");
    assert_eq!(f.len(), 1);
    assert_eq!(f[0].target.as_deref(), Some("/usr/lib64/llvm21/lib64"));
    assert!(f[0].mechanism.contains("search-path entry"));
}

#[test]
fn include_directive_with_single_glob() {
    let f = parse("include ld.so.conf.d/*.conf");
    assert_eq!(f.len(), 1);
    assert_eq!(f[0].target.as_deref(), Some("ld.so.conf.d/*.conf"));
    assert!(f[0].mechanism.contains("include directive"));
}

#[test]
fn include_directive_with_multiple_globs_emits_per_glob() {
    let f = parse("include /etc/a.conf /etc/b.conf /etc/c.conf");
    assert_eq!(f.len(), 3);
    let targets: Vec<&str> = f.iter().filter_map(|x| x.target.as_deref()).collect();
    assert_eq!(targets, vec!["/etc/a.conf", "/etc/b.conf", "/etc/c.conf"]);
}

#[test]
fn scan_conf_file_skips_blank_and_comment_lines() {
    let content = "# leading comment\n\n/opt/real/lib\n# mid comment\n/opt/another/lib\n";
    let f = scan_conf_content("/etc/ld.so.conf.d/x.conf", content);
    assert_eq!(f.len(), 2);
    assert_eq!(f[0].target.as_deref(), Some("/opt/real/lib"));
    assert_eq!(f[1].target.as_deref(), Some("/opt/another/lib"));
    assert_eq!(f[1].metadata.get("line").map(String::as_str), Some("5"));
}

#[test]
fn preload_lists_each_library() {
    let f = scan_preload("/etc/ld.so.preload", "  /lib/evil.so  \n# off\n\n/lib/other.so\n");
    let targets: Vec<&str> = f.iter().filter_map(|x| x.target.as_deref()).collect();
    assert_eq!(targets, vec!["/lib/evil.so", "/lib/other.so"]);
    assert_eq!(f[0].category, "ld_so");
    assert_eq!(f[0].metadata.len(), 0);
}

#[test]
fn environment_reports_ld_preload_unquoted() {
    let f = scan_environment(
        "/etc/environment",
        "PATH=\"/usr/bin\"\n  LD_PRELOAD=\"/lib/hook.so\"\nLD_PRELOAD_X=1\n",
    );
    assert_eq!(f.len(), 1);
    assert_eq!(f[0].target.as_deref(), Some("/lib/hook.so"));
    assert_eq!(f[0].mechanism, "LD_PRELOAD set in /etc/environment");
}
