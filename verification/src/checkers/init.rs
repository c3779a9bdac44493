use vstd::prelude::*;

use crate::checker::Checker;
use vstd::string::StringSliceAdditionalSpecFns;
use vstd::utf8::{decode_utf8, encode_utf8, encode_utf8_decode_utf8, is_char_boundary};

use crate::finding::{
    findings_view, per_line, unattributed, Finding, FindingView, Metadata, PackageOrigin, Scope,
    ScopeView, StrMap,
};
use crate::text::{
    chars_of, decimal, decimal_string, first_char, first_char_exec, join, join_strings,
    lemma_first_char, lines, lines_of, owned, slice_chars, str_eq, string_of, string_views, trim,
    trim_chars, views,
};

verus! {

/// The checker that surveys SysV init: `/etc/init.d`, `/etc/rc.local` and
/// `/etc/inittab`.
pub struct InitChecker;

impl Checker for InitChecker {
    fn name(&self) -> (r: &'static str)
        ensures
            r@ == "init"@,
    {
        "init"
    }
}

/// The directory of SysV init scripts (a link to `/etc/rc.d/init.d` on some
/// systems).
pub const INIT_D: &'static str = "/etc/init.d";

/// The script run at the end of boot.
pub const RC_LOCAL: &'static str = "/etc/rc.local";

/// The SysV init table.
pub const INITTAB: &'static str = "/etc/inittab";

/// The highest SysV runlevel.
pub const MAX_RUNLEVEL: u32 = 6;

/// Script name → the runlevel actions that enable it, such as `rc3 start`.
pub type RunlevelMap = StrMap<Vec<String>>;

/// `true` or `false`, as `bool::to_string` writes it.
pub open spec fn bool_text(b: bool) -> Seq<char> {
    if b {
        "true"@
    } else {
        "false"@
    }
}

pub fn bool_string(b: bool) -> (r: String)
    ensures
        r@ == bool_text(b),
{
    if b {
        owned("true")
    } else {
        owned("false")
    }
}

/// The directory of the links for runlevel `level`.
pub fn runlevel_dir(level: u32) -> (r: String)
    ensures
        r@ == "/etc/rc"@ + decimal(level as nat) + ".d"@,
{
    let mut s = owned("/etc/rc");
    s.append(decimal_string(level as u64).as_str());
    s.append(".d");
    s
}

// ─── runlevel links ──────────────────────────────────────────────────────────

/// The script and action an `rc<level>.d` link named `name` stands for:
/// `S<nn><script>` starts and `K<nn><script>` stops the script, whose name
/// is what follows the first three bytes. Names shorter than four bytes and
/// other names are not links.
pub open spec fn runlevel_link(name: Seq<char>) -> Option<(Seq<char>, Seq<char>)> {
    let b = encode_utf8(name);
    if b.len() < 4 {
        None
    } else if name[0] == 'S' {
        Some((decode_utf8(b.subrange(3, b.len() as int)), "start"@))
    } else if name[0] == 'K' {
        Some((decode_utf8(b.subrange(3, b.len() as int)), "stop"@))
    } else {
        None
    }
}

/// The script name of a link starts on a character boundary; names for
/// which it would not are not accepted.
pub open spec fn link_name_ok(name: Seq<char>) -> bool {
    let b = encode_utf8(name);
    b.len() < 4 || (name[0] != 'S' && name[0] != 'K') || is_char_boundary(b, 3)
}

/// The script and action the runlevel link `name` stands for.
pub fn parse_runlevel_link(name: &str) -> (r: Option<(String, String)>)
    requires
        link_name_ok(name@),
    ensures
        match r {
            Some(p) => runlevel_link(name@) == Some((p.0@, p.1@)),
            None => runlevel_link(name@) is None,
        },
{
    if name.as_bytes().len() < 4 {
        return None;
    }
    let c = chars_of(name);
    if c.len() == 0 {
        assert(encode_utf8(name@) =~= Seq::<u8>::empty());
        return None;
    }
    let action = if c[0] == 'S' {
        owned("start")
    } else if c[0] == 'K' {
        owned("stop")
    } else {
        return None;
    };
    let (_, rest) = name.split_at(3);
    proof {
        encode_utf8_decode_utf8(rest@);
        assert(rest.spec_bytes() =~= encode_utf8(name@).subrange(3, encode_utf8(name@).len() as int));
    }
    Some((owned(rest), action))
}

/// `levels` once the link `name` of runlevel `level` is recorded: its
/// action `rc<level> <action>` is appended to the script's list.
pub open spec fn with_link(levels: Map<Seq<char>, Seq<Seq<char>>>, level: nat, name: Seq<char>) -> Map<
    Seq<char>,
    Seq<Seq<char>>,
> {
    match runlevel_link(name) {
        None => levels,
        Some(link) => {
            let prev = if levels.contains_key(link.0) {
                levels[link.0]
            } else {
                Seq::empty()
            };
            levels.insert(link.0, prev.push("rc"@ + decimal(level) + " "@ + link.1))
        },
    }
}

/// Records the link `name` found in the directory of runlevel `level`.
pub fn record_runlevel_link(levels: &mut RunlevelMap, level: u32, name: &str)
    requires
        link_name_ok(name@),
    ensures
        final(levels)@ == with_link(old(levels)@, level as nat, name@),
{
    let (script, action) = match parse_runlevel_link(name) {
        Some(p) => p,
        None => return,
    };
    let ghost before = levels@;
    let mut list: Vec<String> = match levels.remove(script.as_str()) {
        Some(v) => v,
        None => Vec::new(),
    };
    let ghost prev = list.deep_view();
    assert(prev =~= (if before.contains_key(script@) {
        before[script@]
    } else {
        Seq::empty()
    }));
    let mut entry = owned("rc");
    entry.append(decimal_string(level as u64).as_str());
    entry.append(" ");
    entry.append(action.as_str());
    list.push(entry);
    assert(list.deep_view() =~= prev.push("rc"@ + decimal(level as nat) + " "@ + action@));
    levels.insert(script, list);
    assert(levels@ =~= with_link(before, level as nat, name@));
}

// ─── /etc/init.d ─────────────────────────────────────────────────────────────

/// A regular file named `name` in `/etc/init.d` is a service script unless
/// it is the `README`, the `skeleton` template or hidden.
pub fn is_init_script_name(name: &str) -> (b: bool)
    ensures
        b == !(name@ == "README"@ || name@ == "skeleton"@ || (name@.len() > 0 && name@[0] == '.')),
{
    let c = chars_of(name);
    !(str_eq(name, "README") || str_eq(name, "skeleton") || (c.len() > 0 && c[0] == '.'))
}

/// The finding for the init script `name` at `source`, of `size` bytes with
/// permission bits `mode`, and the runlevels that enable it.
pub open spec fn init_script_finding(
    source: Seq<char>,
    name: Seq<char>,
    size: nat,
    mode: u32,
    levels: Map<Seq<char>, Seq<Seq<char>>>,
) -> FindingView {
    let m = Map::empty().insert("size_bytes"@, decimal(size)).insert(
        "executable"@,
        bool_text(mode & 0o111u32 != 0),
    );
    let m = if levels.contains_key(name) {
        m.insert("enabled"@, join(levels[name], ", "@))
    } else {
        m
    };
    unattributed("init"@, "SysV init script"@, source, None, ScopeView::System, m)
}

/// The finding for the init script `name` at `source`.
pub fn init_script(source: &str, name: &str, size: u64, mode: u32, levels: &RunlevelMap) -> (r: Finding)
    ensures
        r@ == init_script_finding(source@, name@, size as nat, mode, levels@),
{
    let mut metadata: Metadata = StrMap::new();
    metadata.insert(owned("size_bytes"), decimal_string(size));
    metadata.insert(owned("executable"), bool_string(mode & 0o111u32 != 0));
    match levels.get(name) {
        Some(rls) => {
            assert(rls.deep_view() =~= string_views(rls@));
            metadata.insert(owned("enabled"), join_strings(rls, ", "));
        },
        None => {},
    }
    Finding {
        category: owned("init"),
        mechanism: owned("SysV init script"),
        source: owned(source),
        target: None,
        scope: Scope::System,
        package: PackageOrigin::Unknown,
        metadata,
    }
}

// ─── /etc/rc.local ───────────────────────────────────────────────────────────

/// The finding for an `rc.local` of `size` bytes with permission bits
/// `mode`: none when empty; one noting when it is not executable.
pub open spec fn rc_local_findings(size: nat, mode: u32) -> Seq<FindingView> {
    let executable = mode & 0o111u32 != 0;
    let m = Map::empty().insert("size_bytes"@, decimal(size)).insert(
        "executable"@,
        bool_text(executable),
    );
    let m = if executable {
        m
    } else {
        m.insert("note"@, "non-executable — present but won't run at boot"@)
    };
    if size == 0 {
        Seq::empty()
    } else {
        seq![
            unattributed(
                "init"@,
                "/etc/rc.local — runs on boot if executable"@,
                "/etc/rc.local"@,
                None,
                ScopeView::System,
                m,
            ),
        ]
    }
}

/// The finding for an `rc.local` of `size` bytes with permission bits
/// `mode`.
pub fn rc_local(size: u64, mode: u32) -> (r: Option<Finding>)
    ensures
        match r {
            Some(f) => rc_local_findings(size as nat, mode) == seq![f@],
            None => rc_local_findings(size as nat, mode) == Seq::<FindingView>::empty(),
        },
{
    if size == 0 {
        return None;
    }
    let executable = mode & 0o111u32 != 0;
    let mut metadata: Metadata = StrMap::new();
    metadata.insert(owned("size_bytes"), decimal_string(size));
    metadata.insert(owned("executable"), bool_string(executable));
    if !executable {
        metadata.insert(owned("note"), owned("non-executable — present but won't run at boot"));
    }
    let f = Finding {
        category: owned("init"),
        mechanism: owned("/etc/rc.local — runs on boot if executable"),
        source: owned("/etc/rc.local"),
        target: None,
        scope: Scope::System,
        package: PackageOrigin::Unknown,
        metadata,
    };
    assert(rc_local_findings(size as nat, mode) =~= seq![f@]);
    Some(f)
}

// ─── /etc/inittab ────────────────────────────────────────────────────────────

/// The finding for line `i` of the init table: `id:runlevels:action:process`
/// (split at the first three colons), skipping blank lines, comments, lines
/// of fewer fields and rows without a process.
pub open spec fn inittab_findings(source: Seq<char>, i: int, raw: Seq<char>) -> Seq<FindingView> {
    let t = trim(raw);
    if t.len() == 0 || t[0] == '#' {
        Seq::empty()
    } else {
        match first_char(t, ':', 0) {
            None => Seq::empty(),
            Some(c1) => match first_char(t, ':', c1 + 1) {
                None => Seq::empty(),
                Some(c2) => match first_char(t, ':', c2 + 1) {
                    None => Seq::empty(),
                    Some(c3) => {
                        let process = trim(t.subrange(c3 + 1, t.len() as int));
                        let action = t.subrange(c2 + 1, c3);
                        if process.len() == 0 {
                            Seq::empty()
                        } else {
                            seq![
                                unattributed(
                                    "init"@,
                                    "inittab `"@ + action + "`"@,
                                    source,
                                    Some(process),
                                    ScopeView::System,
                                    Map::empty().insert("id"@, t.subrange(0, c1)).insert(
                                        "runlevels"@,
                                        t.subrange(c1 + 1, c2),
                                    ).insert("action"@, action).insert(
                                        "line"@,
                                        decimal((i + 1) as nat),
                                    ),
                                ),
                            ]
                        }
                    },
                },
            },
        }
    }
}

fn inittab_line(source: &str, i: usize, raw: &Vec<char>) -> (r: Option<Finding>)
    requires
        i < usize::MAX,
    ensures
        match r {
            Some(f) => inittab_findings(source@, i as int, raw@) == seq![f@],
            None => inittab_findings(source@, i as int, raw@) == Seq::<FindingView>::empty(),
        },
{
    let t = trim_chars(raw.as_slice());
    let n = t.len();
    if n == 0 || t[0] == '#' {
        return None;
    }
    let c1 = match first_char_exec(t.as_slice(), ':', 0) {
        Some(c) => c,
        None => return None,
    };
    proof {
        lemma_first_char(t@, ':', 0);
    }
    let c2 = match first_char_exec(t.as_slice(), ':', c1 + 1) {
        Some(c) => c,
        None => return None,
    };
    proof {
        lemma_first_char(t@, ':', c1 + 1);
    }
    let c3 = match first_char_exec(t.as_slice(), ':', c2 + 1) {
        Some(c) => c,
        None => return None,
    };
    proof {
        lemma_first_char(t@, ':', c2 + 1);
    }
    let rest = slice_chars(t.as_slice(), c3 + 1, n);
    let process = trim_chars(rest.as_slice());
    if process.len() == 0 {
        return None;
    }
    let action = string_of(slice_chars(t.as_slice(), c2 + 1, c3).as_slice());
    let mut metadata: Metadata = StrMap::new();
    metadata.insert(owned("id"), string_of(slice_chars(t.as_slice(), 0, c1).as_slice()));
    metadata.insert(owned("runlevels"), string_of(slice_chars(t.as_slice(), c1 + 1, c2).as_slice()));
    metadata.insert(owned("action"), action.clone());
    metadata.insert(owned("line"), decimal_string((i + 1) as u64));
    let mut mechanism = owned("inittab `");
    mechanism.append(action.as_str());
    mechanism.append("`");
    let f = Finding {
        category: owned("init"),
        mechanism,
        source: owned(source),
        target: Some(string_of(process.as_slice())),
        scope: Scope::System,
        package: PackageOrigin::Unknown,
        metadata,
    };
    assert(inittab_findings(source@, i as int, raw@) =~= seq![f@]);
    Some(f)
}

/// The findings of the init table at `source` holding `content`.
pub fn scan_inittab(source: &str, content: &str) -> (r: Vec<Finding>)
    ensures
        findings_view(r@) == per_line(
            lines(content@),
            |i: int, raw: Seq<char>| inittab_findings(source@, i, raw),
        ),
{
    let chars = chars_of(content);
    let ls = lines_of(chars.as_slice());
    let ghost f = |i: int, raw: Seq<char>| inittab_findings(source@, i, raw);
    let mut findings: Vec<Finding> = Vec::new();
    let mut i: usize = 0;
    while i < ls.len()
        invariant
            i <= ls@.len(),
            views(ls@) == lines(content@),
            f == (|i: int, raw: Seq<char>| inittab_findings(source@, i, raw)),
            findings_view(findings@) == per_line(views(ls@).take(i as int), f),
        decreases ls@.len() - i,
    {
        let ghost prev = findings_view(findings@);
        assert(views(ls@).take(i + 1).drop_last() =~= views(ls@).take(i as int));
        assert(views(ls@)[i as int] == ls@[i as int]@);
        match inittab_line(source, i, &ls[i]) {
            None => {},
            Some(found) => {
                findings.push(found);
            },
        }
        assert(findings_view(findings@) =~= prev + f(i as int, ls@[i as int]@));
        i = i + 1;
    }
    assert(views(ls@).take(ls@.len() as int) =~= views(ls@));
    findings
}

} // verus!
