use vstd::prelude::*;

use crate::checker::Checker;

use crate::checkers::init::{bool_text, bool_string};
use crate::finding::{unattributed, Finding, FindingView, Metadata, PackageOrigin, Scope, ScopeView, StrMap};
use crate::text::{decimal, decimal_string, owned};

verus! {

/// The checker that surveys NetworkManager dispatcher scripts.
pub struct NetworkManagerChecker;

impl Checker for NetworkManagerChecker {
    fn name(&self) -> (r: &'static str)
        ensures
            r@ == "network_manager"@,
    {
        "network_manager"
    }
}

/// NetworkManager runs every executable here on every connectivity event;
/// its phase sub-directories scope scripts to points of the up/down cycle.
pub const DISPATCHER_DIR: &'static str = "/etc/NetworkManager/dispatcher.d";

/// How many dispatcher phases `phase` lists.
pub const PHASE_COUNT: usize = 4;

/// The dispatcher phases: the sub-directory (none for the main directory)
/// and when its scripts run.
pub open spec fn phase(i: int) -> (Option<Seq<char>>, Seq<char>) {
    if i == 0 {
        (None, "runs on every network event"@)
    } else if i == 1 {
        (Some("pre-up.d"@), "runs before an interface comes up"@)
    } else if i == 2 {
        (Some("pre-down.d"@), "runs before an interface goes down"@)
    } else {
        (Some("no-wait.d"@), "runs on every network event, in parallel"@)
    }
}

/// The `i`-th dispatcher phase.
pub fn phase_entry(i: usize) -> (r: (Option<&'static str>, &'static str))
    requires
        i < PHASE_COUNT,
    ensures
        phase(i as int) == (
            match r.0 {
                Some(s) => Some(s@),
                None => None,
            },
            r.1@,
        ),
{
    if i == 0 {
        (None, "runs on every network event")
    } else if i == 1 {
        (Some("pre-up.d"), "runs before an interface comes up")
    } else if i == 2 {
        (Some("pre-down.d"), "runs before an interface goes down")
    } else {
        (Some("no-wait.d"), "runs on every network event, in parallel")
    }
}

/// The directory of the scripts of a phase.
pub fn phase_dir(phase: Option<&str>) -> (r: String)
    ensures
        r@ == match phase {
            Some(sub) => "/etc/NetworkManager/dispatcher.d"@ + "/"@ + sub@,
            None => "/etc/NetworkManager/dispatcher.d"@,
        },
{
    let mut s = owned(DISPATCHER_DIR);
    match phase {
        Some(sub) => {
            s.append("/");
            s.append(sub);
        },
        None => {},
    }
    s
}

/// The finding for a dispatcher script at `source` of `size` bytes with
/// permission bits `mode`, in `phase`, whose scripts run `when`. A script
/// that is not executable is still reported, with a note that it does not
/// run; one that could not be opened is marked.
pub open spec fn dispatcher_finding(
    source: Seq<char>,
    phase: Option<Seq<char>>,
    when: Seq<char>,
    size: nat,
    mode: u32,
    readable: bool,
) -> FindingView {
    let executable = mode & 0o111u32 != 0;
    let m = Map::empty().insert("size_bytes"@, decimal(size)).insert(
        "executable"@,
        bool_text(executable),
    );
    let m = match phase {
        Some(p) => m.insert("phase"@, p),
        None => m,
    };
    let m = if executable {
        m
    } else {
        m.insert("note"@, "non-executable — present but won't run on dispatch"@)
    };
    let m = if readable {
        m
    } else {
        m.insert("unreadable"@, "rerun as root to inspect"@)
    };
    let mechanism = match phase {
        Some(p) => "NetworkManager "@ + p + " dispatcher script — "@ + when,
        None => "NetworkManager dispatcher script — "@ + when,
    };
    unattributed("network_manager"@, mechanism, source, None, ScopeView::System, m)
}

/// The finding for a dispatcher script.
pub fn dispatcher_script(
    source: &str,
    phase: Option<&str>,
    when: &str,
    size: u64,
    mode: u32,
    readable: bool,
) -> (r: Finding)
    ensures
        r@ == dispatcher_finding(
            source@,
            match phase {
                Some(p) => Some(p@),
                None => None,
            },
            when@,
            size as nat,
            mode,
            readable,
        ),
{
    let executable = mode & 0o111u32 != 0;
    let mut metadata: Metadata = StrMap::new();
    metadata.insert(owned("size_bytes"), decimal_string(size));
    metadata.insert(owned("executable"), bool_string(executable));
    match phase {
        Some(p) => {
            metadata.insert(owned("phase"), owned(p));
        },
        None => {},
    }
    if !executable {
        metadata.insert(owned("note"), owned("non-executable — present but won't run on dispatch"));
    }
    if !readable {
        metadata.insert(owned("unreadable"), owned("rerun as root to inspect"));
    }
    let mechanism = match phase {
        Some(p) => {
            let mut s = owned("NetworkManager ");
            s.append(p);
            s.append(" dispatcher script — ");
            s.append(when);
            s
        },
        None => {
            let mut s = owned("NetworkManager dispatcher script — ");
            s.append(when);
            s
        },
    };
    Finding {
        category: owned("network_manager"),
        mechanism,
        source: owned(source),
        target: None,
        scope: Scope::System,
        package: PackageOrigin::Unknown,
        metadata,
    }
}

} // verus!
