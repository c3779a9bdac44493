use whogoesthere::checkers::dbus::build_finding;
use whogoesthere::finding::{Finding, Scope};
use whogoesthere::util::parse_ini;

fn parse(content: &str) -> Option<Finding> {
    build_finding(
        &parse_ini(content),
        "/usr/share/dbus-1/services/test.service",
        "session",
        &Scope::System,
    )
}

#[test]
fn exec_directive_yields_one_finding_with_target() {
    let content = "[D-BUS Service]
Name=org.gnome.SomeApp
Exec=/usr/libexec/some-app --gapplication-service
";
    let f = parse(content).expect("parses");
    assert_eq!(
        f.target.as_deref(),
        Some("/usr/libexec/some-app --gapplication-service")
    );
    assert_eq!(
        f.metadata.get("bus_name").map(String::as_str),
        Some("org.gnome.SomeApp")
    );
    assert_eq!(f.metadata.get("bus").map(String::as_str), Some("session"));
}

#[test]
fn systemd_service_alone_activates_via_systemd_unit() {
    let content = "[D-BUS Service]
Name=org.freedesktop.NetworkManager
SystemdService=NetworkManager.service
";
    let f = parse(content).expect("parses");
    assert_eq!(
        f.target.as_deref(),
        Some("(activates systemd unit) NetworkManager.service")
    );
}

#[test]
fn user_directive_surfaces_run_as_metadata() {
    let content = "[D-BUS Service]
Name=org.example.PrivilegedThing
Exec=/usr/sbin/privileged-thing
User=root
";
    let f = parse(content).expect("parses");
    assert_eq!(f.metadata.get("run_as").map(String::as_str), Some("root"));
}

#[test]
fn both_exec_and_systemd_service_emits_exec_as_target_and_records_alternate() {
    let content = "[D-BUS Service]
Name=org.foo.Bar
Exec=/usr/bin/foo-bar
SystemdService=foo-bar.service
";
    let f = parse(content).expect("parses");
    assert_eq!(f.target.as_deref(), Some("/usr/bin/foo-bar"));
    assert_eq!(
        f.metadata.get("systemd_service").map(String::as_str),
        Some("foo-bar.service")
    );
}

#[test]
fn missing_section_returns_no_finding() {
    let content = "[Some Other Section]
Exec=/usr/bin/whatever
";
    assert!(parse(content).is_none());
}

#[test]
fn neither_exec_nor_systemd_service_returns_no_finding() {
    let content = "[D-BUS Service]
Name=org.empty.NoActivation
";
    assert!(parse(content).is_none());
}

#[test]
fn mechanism_names_the_bus_and_last_exec_wins() {
    let content = "[D-BUS Service]\nExec=/bin/first\nExec=/bin/second\n";
    let f = build_finding(&parse_ini(content), "/x.service", "system", &Scope::System).unwrap();
    assert_eq!(f.mechanism, "D-Bus system-bus auto-activation");
    assert_eq!(f.target.as_deref(), Some("/bin/second"));
    assert!(!f.metadata.contains_key("systemd_service"));
    assert_eq!(f.category, "dbus");
}
