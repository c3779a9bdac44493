use vstd::prelude::*;

use crate::checker::Checker;

use crate::checkers::init::{bool_text, bool_string};
use crate::finding::{unattributed, Finding, FindingView, Metadata, PackageOrigin, Scope, ScopeView, StrMap};
use crate::text::{decimal, decimal_string, owned};

verus! {

/// The checker that surveys X session scripts and display-manager hooks.
pub struct DisplayManagerChecker;

impl Checker for DisplayManagerChecker {
    fn name(&self) -> (r: &'static str)
        ensures
            r@ == "display_manager"@,
    {
        "display_manager"
    }
}

/// How many per-user files `user_file` lists.
pub const USER_FILE_COUNT: usize = 4;

/// The per-user X session dotfiles, below the home directory, with what
/// runs them: all run at login when present.
pub open spec fn user_file(i: int) -> (Seq<char>, Seq<char>) {
    if i == 0 {
        (".xprofile"@, "X profile — sourced at login by most display managers"@)
    } else if i == 1 {
        (".xsession"@, "X session script — runs at custom-session login"@)
    } else if i == 2 {
        (".xinitrc"@, "startx/xinit user init script"@)
    } else {
        (".xsessionrc"@, "Debian-family X session resource script"@)
    }
}

/// The `i`-th per-user X session dotfile and its mechanism.
pub fn user_file_entry(i: usize) -> (r: (&'static str, &'static str))
    requires
        i < USER_FILE_COUNT,
    ensures
        user_file(i as int) == (r.0@, r.1@),
{
    if i == 0 {
        (".xprofile", "X profile — sourced at login by most display managers")
    } else if i == 1 {
        (".xsession", "X session script — runs at custom-session login")
    } else if i == 2 {
        (".xinitrc", "startx/xinit user init script")
    } else {
        (".xsessionrc", "Debian-family X session resource script")
    }
}

/// How many system files `system_script` lists.
pub const SYSTEM_SCRIPT_COUNT: usize = 5;

/// The system-wide X session and display-manager hook files: path,
/// mechanism, and the display manager (or session path) that runs them.
pub open spec fn system_script(i: int) -> (Seq<char>, Seq<char>, Seq<char>) {
    if i == 0 {
        ("/etc/X11/xinit/xinitrc"@, "system xinit script — runs on startx"@, "xinit"@)
    } else if i == 1 {
        ("/etc/X11/Xsession"@, "Debian/Ubuntu X session entry point"@, "xsession"@)
    } else if i == 2 {
        ("/etc/lightdm/Xsession"@, "LightDM X session script"@, "lightdm"@)
    } else if i == 3 {
        ("/etc/gdm/PostLogin/Default"@, "GDM PostLogin hook — runs after login"@, "gdm"@)
    } else {
        ("/etc/gdm/PreSession/Default"@, "GDM PreSession hook — runs before session start"@, "gdm"@)
    }
}

/// The `i`-th system-wide session file.
pub fn system_script_entry(i: usize) -> (r: (&'static str, &'static str, &'static str))
    requires
        i < SYSTEM_SCRIPT_COUNT,
    ensures
        system_script(i as int) == (r.0@, r.1@, r.2@),
{
    if i == 0 {
        ("/etc/X11/xinit/xinitrc", "system xinit script — runs on startx", "xinit")
    } else if i == 1 {
        ("/etc/X11/Xsession", "Debian/Ubuntu X session entry point", "xsession")
    } else if i == 2 {
        ("/etc/lightdm/Xsession", "LightDM X session script", "lightdm")
    } else if i == 3 {
        ("/etc/gdm/PostLogin/Default", "GDM PostLogin hook — runs after login", "gdm")
    } else {
        ("/etc/gdm/PreSession/Default", "GDM PreSession hook — runs before session start", "gdm")
    }
}

/// The directory whose every script is sourced at session start, in
/// lexical order, by `/etc/X11/Xsession`.
pub const XSESSION_D: &'static str = "/etc/X11/Xsession.d";

/// How the fragments of `XSESSION_D` run.
pub const XSESSION_D_MECHANISM: &'static str = "Debian X session fragment — sourced by /etc/X11/Xsession";

/// The session path that sources `XSESSION_D`.
pub const XSESSION_D_DM: &'static str = "xsession";

/// The finding for a session file at `source` of `size` bytes with
/// permission bits `mode`, run as `mechanism` by the display manager `dm`
/// when one is named: none when the file is empty; marked when it could not
/// be opened.
pub open spec fn session_file_findings(
    source: Seq<char>,
    mechanism: Seq<char>,
    dm: Option<Seq<char>>,
    scope: ScopeView,
    size: nat,
    mode: u32,
    readable: bool,
) -> Seq<FindingView> {
    let m = Map::empty().insert("size_bytes"@, decimal(size)).insert(
        "executable"@,
        bool_text(mode & 0o111u32 != 0),
    );
    let m = match dm {
        Some(d) => m.insert("dm"@, d),
        None => m,
    };
    let m = if readable {
        m
    } else {
        m.insert("unreadable"@, "rerun as root to inspect"@)
    };
    if size == 0 {
        Seq::empty()
    } else {
        seq![unattributed("display_manager"@, mechanism, source, None, scope, m)]
    }
}

/// The finding for a session file at `source` of `size` bytes.
pub fn session_file(
    source: &str,
    mechanism: &str,
    dm: Option<&str>,
    scope: Scope,
    size: u64,
    mode: u32,
    readable: bool,
) -> (r: Option<Finding>)
    ensures
        match r {
            Some(f) => session_file_findings(
                source@,
                mechanism@,
                match dm {
                    Some(d) => Some(d@),
                    None => None,
                },
                scope@,
                size as nat,
                mode,
                readable,
            ) == seq![f@],
            None => session_file_findings(
                source@,
                mechanism@,
                match dm {
                    Some(d) => Some(d@),
                    None => None,
                },
                scope@,
                size as nat,
                mode,
                readable,
            ) == Seq::<FindingView>::empty(),
        },
{
    if size == 0 {
        return None;
    }
    let mut metadata: Metadata = StrMap::new();
    metadata.insert(owned("size_bytes"), decimal_string(size));
    metadata.insert(owned("executable"), bool_string(mode & 0o111u32 != 0));
    match dm {
        Some(d) => {
            metadata.insert(owned("dm"), owned(d));
        },
        None => {},
    }
    if !readable {
        metadata.insert(owned("unreadable"), owned("rerun as root to inspect"));
    }
    let f = Finding {
        category: owned("display_manager"),
        mechanism: owned(mechanism),
        source: owned(source),
        target: None,
        scope,
        package: PackageOrigin::Unknown,
        metadata,
    };
    Some(f)
}

} // verus!
