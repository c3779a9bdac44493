use whogoesthere::checkers::cron::{
    interval_dir, interval_script, is_at_job_name, mechanism_for, metadata_for, parse_cron_line,
    scan_anacrontab, scan_system_crontab, scan_user_crontab,
};
use whogoesthere::finding::Scope;

#[test]
fn five_field_with_user_field() {
    let c = parse_cron_line("0 * * * * root /usr/bin/foo --arg", true).expect("parses");
    assert_eq!(c.schedule, "0 * * * *");
    assert_eq!(c.user.as_deref(), Some("root"));
    assert_eq!(c.command, "/usr/bin/foo --arg");
}

#[test]
fn five_field_user_field_absent_for_user_crontab() {
    let c = parse_cron_line("*/5 * * * * /usr/bin/foo", false).expect("parses");
    assert_eq!(c.schedule, "*/5 * * * *");
    assert!(c.user.is_none());
    assert_eq!(c.command, "/usr/bin/foo");
}

#[test]
fn at_reboot_schedule_single_token() {
    let c = parse_cron_line("@reboot root /usr/bin/persist", true).expect("parses");
    assert_eq!(c.schedule, "@reboot");
    assert_eq!(c.user.as_deref(), Some("root"));
    assert_eq!(c.command, "/usr/bin/persist");
}

#[test]
fn skip_blank_and_comment_lines() {
    assert!(parse_cron_line("", true).is_none());
    assert!(parse_cron_line("   ", true).is_none());
    assert!(parse_cron_line("# comment", true).is_none());
    assert!(parse_cron_line("   # indented comment", true).is_none());
}

#[test]
fn skip_env_var_assignment_lines() {
    assert!(parse_cron_line("SHELL=/bin/bash", true).is_none());
    assert!(parse_cron_line("PATH=/usr/bin:/bin", true).is_none());
    assert!(parse_cron_line("MAILTO=root", false).is_none());
}

#[test]
fn require_complete_schedule_user_and_command() {
    assert!(parse_cron_line("0 * * * /usr/bin/foo", false).is_none());
    assert!(parse_cron_line("0 * * * *", false).is_none());
    assert!(parse_cron_line("@reboot root", true).is_none());
}

#[test]
fn command_keeps_its_spacing() {
    let c = parse_cron_line("  @daily\troot  /bin/a   b\tc  ", true).expect("parses");
    assert_eq!(c.schedule, "@daily");
    assert_eq!(c.command, "/bin/a   b\tc");
    let d = parse_cron_line("* * * * * echo  \"hello  world\"", false).expect("parses");
    assert_eq!(d.schedule, "* * * * *");
    assert_eq!(d.command, "echo  \"hello  world\"");
    let e = parse_cron_line("0  1\t* * *   root   run  it", true).expect("parses");
    assert_eq!(e.schedule, "0 1 * * *");
    assert_eq!(e.command, "run  it");
}

#[test]
fn anacron_command_keeps_its_spacing() {
    let f = scan_anacrontab("/etc/anacrontab", "1\t5  job   echo  \"a  b\"\n");
    assert_eq!(f.len(), 1);
    assert_eq!(f[0].target.as_deref(), Some("echo  \"a  b\""));
}

#[test]
fn reboot_mechanism_and_persistence_note() {
    assert_eq!(mechanism_for("@reboot", "cron "), "cron @reboot — runs at every boot");
    assert_eq!(mechanism_for("0 * * * *", "cron "), "cron schedule `0 * * * *`");
    let m = metadata_for("@reboot", Some("root"), 4);
    assert_eq!(m.get("line").map(String::as_str), Some("5"));
    assert_eq!(m.get("run_as").map(String::as_str), Some("root"));
    assert_eq!(
        m.get("persistence").map(String::as_str),
        Some("runs at every boot — classic persistence vector")
    );
    let n = metadata_for("0 * * * *", None, 0);
    assert!(!n.contains_key("persistence"));
    assert!(!n.contains_key("run_as"));
    assert_eq!(n.len(), 2);
}

#[test]
fn system_crontab_scan_numbers_lines_and_skips_env() {
    let content = "SHELL=/bin/sh\n# comment\n17 * * * * root cd / && run-parts /etc/cron.hourly\n@reboot root /opt/x\n";
    let f = scan_system_crontab("/etc/crontab", content);
    assert_eq!(f.len(), 2);
    assert_eq!(f[0].target.as_deref(), Some("cd / && run-parts /etc/cron.hourly"));
    assert_eq!(f[0].metadata.get("line").map(String::as_str), Some("3"));
    assert_eq!(f[1].mechanism, "cron @reboot — runs at every boot");
    assert_eq!(f[1].metadata.get("line").map(String::as_str), Some("4"));
    assert_eq!(f[1].category, "cron");
}

#[test]
fn user_crontab_scan_uses_the_user_scope() {
    let scope = Scope::User { uid: 1000, name: "alice".to_string() };
    let f = scan_user_crontab("/var/spool/cron/alice", &scope, "*/5 * * * * /home/alice/x\n");
    assert_eq!(f.len(), 1);
    assert_eq!(f[0].mechanism, "user crontab — schedule `*/5 * * * *`");
    assert!(matches!(&f[0].scope, Scope::User { uid: 1000, name } if name == "alice"));
    assert!(!f[0].metadata.contains_key("run_as"));
}

#[test]
fn anacron_lines_need_four_words() {
    let content = "SHELL=/bin/sh\n1 5 cron.daily run-parts --report /etc/cron.daily\n@monthly 15 cron.monthly nice run-parts /etc/cron.monthly\n7 25\n";
    let f = scan_anacrontab("/etc/anacrontab", content);
    assert_eq!(f.len(), 2);
    assert_eq!(f[0].mechanism, "anacron job `cron.daily` — runs every 1 days");
    assert_eq!(f[0].target.as_deref(), Some("run-parts --report /etc/cron.daily"));
    assert_eq!(f[0].metadata.get("delay_min").map(String::as_str), Some("5"));
    assert_eq!(f[1].mechanism, "anacron job `cron.monthly` — @monthly");
    assert_eq!(f[1].metadata.get("line").map(String::as_str), Some("3"));
}

#[test]
fn interval_and_at_spool_filters() {
    assert_eq!(interval_dir("daily"), "/etc/cron.daily");
    assert!(interval_script("logrotate", 0o755));
    assert!(!interval_script("logrotate", 0o644));
    assert!(!interval_script("README", 0o755));
    assert!(!interval_script("0anacron", 0o755));
    assert!(!interval_script(".placeholder", 0o755));
    assert!(is_at_job_name("a0000101a2b3c"));
    assert!(!is_at_job_name(".SEQ"));
    assert!(!is_at_job_name(".lockfile"));
}
