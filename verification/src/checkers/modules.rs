use vstd::prelude::*;

use crate::checker::Checker;

use crate::finding::{
    findings_view, per_line, unattributed, Finding, FindingView, Metadata, PackageOrigin, Scope,
    ScopeView, StrMap,
};
use crate::text::{
    cat3, chars_eq_str, chars_of, first_char, first_char_exec, join, join_chars, lemma_first_char,
    lines, lines_of, owned, slice_chars, split_ws, string_of, trim, trim_chars, trim_start,
    trim_start_index, views, words,
};

verus! {

/// The checker that surveys kernel modules loaded at boot and modprobe
/// `install` hooks.
pub struct ModulesChecker;

impl Checker for ModulesChecker {
    fn name(&self) -> (r: &'static str)
        ensures
            r@ == "modules"@,
    {
        "modules"
    }
}

/// Debian and Ubuntu's legacy list of modules loaded at boot.
pub const ETC_MODULES: &'static str = "/etc/modules";

/// How the legacy module list loads its modules.
pub const ETC_MODULES_MECHANISM: &'static str = "auto-loaded at boot (Debian/Ubuntu /etc/modules)";

/// How many directories `load_dir` lists.
pub const LOAD_DIR_COUNT: usize = 3;

/// The systemd `modules-load.d` directories.
pub open spec fn load_dir(i: int) -> Seq<char> {
    if i == 0 {
        "/etc/modules-load.d"@
    } else if i == 1 {
        "/usr/lib/modules-load.d"@
    } else {
        "/run/modules-load.d"@
    }
}

/// The `i`-th `modules-load.d` directory.
pub fn load_dir_name(i: usize) -> (r: &'static str)
    requires
        i < LOAD_DIR_COUNT,
    ensures
        r@ == load_dir(i as int),
{
    if i == 0 {
        "/etc/modules-load.d"
    } else if i == 1 {
        "/usr/lib/modules-load.d"
    } else {
        "/run/modules-load.d"
    }
}

/// How many directories `probe_dir` lists.
pub const PROBE_DIR_COUNT: usize = 4;

/// The `modprobe.d` directories.
pub open spec fn probe_dir(i: int) -> Seq<char> {
    if i == 0 {
        "/etc/modprobe.d"@
    } else if i == 1 {
        "/usr/lib/modprobe.d"@
    } else if i == 2 {
        "/lib/modprobe.d"@
    } else {
        "/run/modprobe.d"@
    }
}

/// The `i`-th `modprobe.d` directory.
pub fn probe_dir_name(i: usize) -> (r: &'static str)
    requires
        i < PROBE_DIR_COUNT,
    ensures
        r@ == probe_dir(i as int),
{
    if i == 0 {
        "/etc/modprobe.d"
    } else if i == 1 {
        "/usr/lib/modprobe.d"
    } else if i == 2 {
        "/lib/modprobe.d"
    } else {
        "/run/modprobe.d"
    }
}

/// How the modules listed in the `modules-load.d` directory `dir` load.
pub fn load_dir_mechanism(dir: &str) -> (r: String)
    ensures
        r@ == "auto-loaded at boot ("@ + dir@ + ")"@,
{
    cat3("auto-loaded at boot (", dir, ")")
}

// ─── comments ────────────────────────────────────────────────────────────────

/// The text before the first `#`, trimmed: `#` is the only mid-line comment
/// marker modprobe and modules-load recognize.
pub open spec fn uncommented(line: Seq<char>) -> Seq<char> {
    match first_char(line, '#', 0) {
        Some(k) => trim(line.subrange(0, k)),
        None => trim(line),
    }
}

fn uncommented_chars(line: &[char]) -> (r: Vec<char>)
    ensures
        r@ == uncommented(line@),
{
    match first_char_exec(line, '#', 0) {
        Some(k) => {
            proof {
                lemma_first_char(line@, '#', 0);
            }
            let head = slice_chars(line, 0, k);
            trim_chars(head.as_slice())
        },
        None => trim_chars(line),
    }
}

/// The text of `line` before the first `#`, trimmed.
pub fn strip_comment(line: &str) -> (r: String)
    ensures
        r@ == uncommented(line@),
{
    let l = chars_of(line);
    string_of(uncommented_chars(l.as_slice()).as_slice())
}

// ─── module lists ────────────────────────────────────────────────────────────

/// The finding for line `i` of a module list: one module per line, with `;`
/// as the first non-whitespace character marking a comment besides `#`.
pub open spec fn module_list_findings(
    source: Seq<char>,
    mechanism: Seq<char>,
    i: int,
    raw: Seq<char>,
) -> Seq<FindingView> {
    let t = trim_start(raw);
    let m = uncommented(raw);
    if (t.len() > 0 && t[0] == ';') || m.len() == 0 {
        Seq::empty()
    } else {
        seq![
            unattributed("modules"@, mechanism, source, Some(m), ScopeView::System, Map::empty()),
        ]
    }
}

/// The findings of a module list (`/etc/modules`, `modules-load.d/*.conf`)
/// at `source` holding `content`, each described by `mechanism`.
pub fn parse_module_list(content: &str, source: &str, mechanism: &str) -> (r: Vec<Finding>)
    ensures
        findings_view(r@) == per_line(
            lines(content@),
            |i: int, raw: Seq<char>| module_list_findings(source@, mechanism@, i, raw),
        ),
{
    let chars = chars_of(content);
    let ls = lines_of(chars.as_slice());
    let ghost f = |i: int, raw: Seq<char>| module_list_findings(source@, mechanism@, i, raw);
    let mut findings: Vec<Finding> = Vec::new();
    let mut i: usize = 0;
    while i < ls.len()
        invariant
            i <= ls@.len(),
            views(ls@) == lines(content@),
            f == (|i: int, raw: Seq<char>| module_list_findings(source@, mechanism@, i, raw)),
            findings_view(findings@) == per_line(views(ls@).take(i as int), f),
        decreases ls@.len() - i,
    {
        let ghost prev = findings_view(findings@);
        assert(views(ls@).take(i + 1).drop_last() =~= views(ls@).take(i as int));
        assert(views(ls@)[i as int] == ls@[i as int]@);
        let s = trim_start_index(ls[i].as_slice());
        let m = uncommented_chars(ls[i].as_slice());
        if !(s < ls[i].len() && ls[i][s] == ';') && m.len() > 0 {
            let metadata: Metadata = StrMap::new();
            findings.push(
                Finding {
                    category: owned("modules"),
                    mechanism: owned(mechanism),
                    source: owned(source),
                    target: Some(string_of(m.as_slice())),
                    scope: Scope::System,
                    package: PackageOrigin::Unknown,
                    metadata,
                },
            );
        }
        assert(findings_view(findings@) =~= prev + f(i as int, ls@[i as int]@));
        i = i + 1;
    }
    assert(views(ls@).take(ls@.len() as int) =~= views(ls@));
    findings
}

// ─── modprobe install hooks ──────────────────────────────────────────────────

/// The finding an uncommented modprobe line yields: `install <module>
/// <command...>` runs the command in place of loading the module.
pub open spec fn install_finding(source: Seq<char>, line: Seq<char>) -> Option<FindingView> {
    let ws = words(line);
    if ws.len() < 3 || ws[0] != "install"@ {
        None
    } else {
        Some(
            unattributed(
                "modules"@,
                "modprobe `install "@ + ws[1] + "` — runs command instead of loading the module"@,
                source,
                Some(join(ws.skip(2), " "@)),
                ScopeView::System,
                Map::empty().insert("module"@, ws[1]).insert("directive"@, "install"@),
            ),
        )
    }
}

/// The finding for a modprobe `install` directive in `line`, if it is one.
pub fn parse_install_directive(line: &str, source: &str) -> (r: Option<Finding>)
    ensures
        match r {
            Some(f) => install_finding(source@, line@) == Some(f@),
            None => install_finding(source@, line@) is None,
        },
{
    let l = chars_of(line);
    let ws = split_ws(l.as_slice());
    if ws.len() < 3 {
        return None;
    }
    assert(views(ws@)[0] == ws@[0]@);
    assert(views(ws@)[1] == ws@[1]@);
    if !chars_eq_str(ws[0].as_slice(), "install") {
        return None;
    }
    let module = string_of(ws[1].as_slice());
    let sep = chars_of(" ");
    let command = string_of(join_chars(&ws, 2, sep.as_slice()).as_slice());
    let mut metadata: Metadata = StrMap::new();
    metadata.insert(owned("module"), module.clone());
    metadata.insert(owned("directive"), owned("install"));
    let mut mechanism = owned("modprobe `install ");
    mechanism.append(module.as_str());
    mechanism.append("` — runs command instead of loading the module");
    Some(
        Finding {
            category: owned("modules"),
            mechanism,
            source: owned(source),
            target: Some(command),
            scope: Scope::System,
            package: PackageOrigin::Unknown,
            metadata,
        },
    )
}

/// The finding for line `i` of a modprobe configuration file.
pub open spec fn probe_findings(source: Seq<char>, i: int, raw: Seq<char>) -> Seq<FindingView> {
    let m = uncommented(raw);
    if m.len() == 0 {
        Seq::empty()
    } else {
        match install_finding(source, m) {
            Some(f) => seq![f],
            None => Seq::empty(),
        }
    }
}

/// The findings of a modprobe configuration file at `source` holding
/// `content`: its `install` directives.
pub fn scan_probe_content(source: &str, content: &str) -> (r: Vec<Finding>)
    ensures
        findings_view(r@) == per_line(
            lines(content@),
            |i: int, raw: Seq<char>| probe_findings(source@, i, raw),
        ),
{
    let chars = chars_of(content);
    let ls = lines_of(chars.as_slice());
    let ghost f = |i: int, raw: Seq<char>| probe_findings(source@, i, raw);
    let mut findings: Vec<Finding> = Vec::new();
    let mut i: usize = 0;
    while i < ls.len()
        invariant
            i <= ls@.len(),
            views(ls@) == lines(content@),
            f == (|i: int, raw: Seq<char>| probe_findings(source@, i, raw)),
            findings_view(findings@) == per_line(views(ls@).take(i as int), f),
        decreases ls@.len() - i,
    {
        let ghost prev = findings_view(findings@);
        assert(views(ls@).take(i + 1).drop_last() =~= views(ls@).take(i as int));
        assert(views(ls@)[i as int] == ls@[i as int]@);
        let m = uncommented_chars(ls[i].as_slice());
        if m.len() > 0 {
            let line = string_of(m.as_slice());
            match parse_install_directive(line.as_str(), source) {
                Some(found) => {
                    findings.push(found);
                },
                None => {},
            }
        }
        assert(findings_view(findings@) =~= prev + f(i as int, ls@[i as int]@));
        i = i + 1;
    }
    assert(views(ls@).take(ls@.len() as int) =~= views(ls@));
    findings
}

} // verus!
