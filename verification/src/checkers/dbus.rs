use vstd::prelude::*;

use crate::checker::Checker;

use crate::finding::{unattributed, Finding, FindingView, Metadata, PackageOrigin, Scope, ScopeView, StrMap};
use crate::text::owned;
use crate::util::{last_value, last_value_exec, DocView, IniDoc};

verus! {

/// The checker that surveys D-Bus service activation files.
pub struct DbusChecker;

impl Checker for DbusChecker {
    fn name(&self) -> (r: &'static str)
        ensures
            r@ == "dbus"@,
    {
        "dbus"
    }
}

/// How many directories `system_bus_dir` lists.
pub const SYSTEM_BUS_DIR_COUNT: usize = 3;

/// The system-bus service directories: the system bus daemon starts these
/// services, almost always as root, when a client asks for their name.
pub open spec fn system_bus_dir(i: int) -> Seq<char> {
    if i == 0 {
        "/usr/share/dbus-1/system-services"@
    } else if i == 1 {
        "/etc/dbus-1/system-services"@
    } else {
        "/usr/local/share/dbus-1/system-services"@
    }
}

/// The `i`-th system-bus service directory.
pub fn system_bus_dir_name(i: usize) -> (r: &'static str)
    requires
        i < SYSTEM_BUS_DIR_COUNT,
    ensures
        r@ == system_bus_dir(i as int),
{
    if i == 0 {
        "/usr/share/dbus-1/system-services"
    } else if i == 1 {
        "/etc/dbus-1/system-services"
    } else {
        "/usr/local/share/dbus-1/system-services"
    }
}

/// How many directories `session_bus_dir` lists.
pub const SESSION_BUS_DIR_COUNT: usize = 3;

/// The session-bus service directories: a user's session bus starts these
/// services, as that user, on request.
pub open spec fn session_bus_dir(i: int) -> Seq<char> {
    if i == 0 {
        "/usr/share/dbus-1/services"@
    } else if i == 1 {
        "/etc/dbus-1/services"@
    } else {
        "/usr/local/share/dbus-1/services"@
    }
}

/// The `i`-th session-bus service directory.
pub fn session_bus_dir_name(i: usize) -> (r: &'static str)
    requires
        i < SESSION_BUS_DIR_COUNT,
    ensures
        r@ == session_bus_dir(i as int),
{
    if i == 0 {
        "/usr/share/dbus-1/services"
    } else if i == 1 {
        "/etc/dbus-1/services"
    } else {
        "/usr/local/share/dbus-1/services"
    }
}

/// A user's own session-bus service directory, below the home directory.
pub const PERSONAL_BUS_DIR: &'static str = ".local/share/dbus-1/services";

/// The finding a D-Bus service file yields. Its `[D-BUS Service]` section
/// starts the last `Exec=` command, or else defers to the last
/// `SystemdService=` unit; a file with neither activates nothing. The bus,
/// the bus name, the user to run as and, when both are set, the deferred
/// unit go to the metadata.
pub open spec fn dbus_finding(
    doc: DocView,
    source: Seq<char>,
    bus: Seq<char>,
    scope: ScopeView,
) -> Option<FindingView> {
    let exec = last_value(doc, "D-BUS Service"@, "Exec"@);
    let unit = last_value(doc, "D-BUS Service"@, "SystemdService"@);
    let target = match exec {
        Some(e) => Some(e),
        None => match unit {
            Some(s) => Some("(activates systemd unit) "@ + s),
            None => None,
        },
    };
    if !doc.contains_key("D-BUS Service"@) {
        None
    } else {
        match target {
            None => None,
            Some(t) => {
                let m = Map::empty().insert("bus"@, bus);
                let m = match last_value(doc, "D-BUS Service"@, "Name"@) {
                    Some(n) => m.insert("bus_name"@, n),
                    None => m,
                };
                let m = match last_value(doc, "D-BUS Service"@, "User"@) {
                    Some(u) => m.insert("run_as"@, u),
                    None => m,
                };
                let m = if exec is Some && unit is Some {
                    m.insert("systemd_service"@, unit->0)
                } else {
                    m
                };
                Some(
                    unattributed(
                        "dbus"@,
                        "D-Bus "@ + bus + "-bus auto-activation"@,
                        source,
                        Some(t),
                        scope,
                        m,
                    ),
                )
            },
        }
    }
}

/// The finding for the D-Bus service file at `source`, parsed as `doc`, on
/// the `bus` ("system" or "session") of `scope`.
pub fn build_finding(doc: &IniDoc, source: &str, bus: &str, scope: &Scope) -> (r: Option<Finding>)
    ensures
        match r {
            Some(f) => dbus_finding(doc@, source@, bus@, scope@) == Some(f@),
            None => dbus_finding(doc@, source@, bus@, scope@) is None,
        },
{
    if !doc.contains_key("D-BUS Service") {
        return None;
    }
    let exec = last_value_exec(doc, "D-BUS Service", "Exec");
    let unit = last_value_exec(doc, "D-BUS Service", "SystemdService");
    let target = match &exec {
        Some(e) => e.clone(),
        None => match &unit {
            Some(s) => {
                let mut t = owned("(activates systemd unit) ");
                t.append(s.as_str());
                t
            },
            None => return None,
        },
    };
    let mut metadata: Metadata = StrMap::new();
    metadata.insert(owned("bus"), owned(bus));
    match last_value_exec(doc, "D-BUS Service", "Name") {
        Some(n) => {
            metadata.insert(owned("bus_name"), n);
        },
        None => {},
    }
    match last_value_exec(doc, "D-BUS Service", "User") {
        Some(u) => {
            metadata.insert(owned("run_as"), u);
        },
        None => {},
    }
    if exec.is_some() {
        match unit {
            Some(s) => {
                metadata.insert(owned("systemd_service"), s);
            },
            None => {},
        }
    }
    let mut mechanism = owned("D-Bus ");
    mechanism.append(bus);
    mechanism.append("-bus auto-activation");
    Some(
        Finding {
            category: owned("dbus"),
            mechanism,
            source: owned(source),
            target: Some(target),
            scope: scope.duplicate(),
            package: PackageOrigin::Unknown,
            metadata,
        },
    )
}

} // verus!
