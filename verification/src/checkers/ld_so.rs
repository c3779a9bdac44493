use vstd::prelude::*;

use crate::checker::Checker;

use crate::finding::{
    findings_view, per_line, unattributed, Finding, FindingView, Metadata, PackageOrigin, Scope,
    ScopeView, StrMap,
};
use crate::text::{
    chars_eq_str, chars_of, decimal, decimal_string, lines, lines_of, matches_at_exec, owned,
    slice_chars, split_ws, starts_with, string_of, trim, trim_chars, views, words,
};

verus! {

/// The checker that surveys the dynamic loader's preload and search-path
/// configuration.
pub struct LdSoChecker;

impl Checker for LdSoChecker {
    fn name(&self) -> (r: &'static str)
        ensures
            r@ == "ld_so"@,
    {
        "ld_so"
    }
}

/// The file of libraries preloaded into every dynamically linked process.
pub const LD_SO_PRELOAD: &'static str = "/etc/ld.so.preload";

/// The system-wide environment file.
pub const ETC_ENVIRONMENT: &'static str = "/etc/environment";

/// The loader's search-path configuration.
pub const LD_SO_CONF: &'static str = "/etc/ld.so.conf";

/// The drop-in directory of search-path configuration.
pub const LD_SO_CONF_DIR: &'static str = "/etc/ld.so.conf.d";

// ─── /etc/ld.so.preload ──────────────────────────────────────────────────────

/// The finding for line `i` of the preload file: each trimmed line that is
/// neither blank nor a comment names a library.
pub open spec fn preload_findings(source: Seq<char>, i: int, raw: Seq<char>) -> Seq<FindingView> {
    let t = trim(raw);
    if t.len() == 0 || t[0] == '#' {
        Seq::empty()
    } else {
        seq![
            unattributed(
                "ld_so"@,
                "ld.so preload (loaded into every dynamically-linked process)"@,
                source,
                Some(t),
                ScopeView::System,
                Map::empty(),
            ),
        ]
    }
}

/// The findings of the preload file at `source` holding `content`.
pub fn scan_preload(source: &str, content: &str) -> (r: Vec<Finding>)
    ensures
        findings_view(r@) == per_line(
            lines(content@),
            |i: int, raw: Seq<char>| preload_findings(source@, i, raw),
        ),
{
    let chars = chars_of(content);
    let ls = lines_of(chars.as_slice());
    let ghost f = |i: int, raw: Seq<char>| preload_findings(source@, i, raw);
    let mut findings: Vec<Finding> = Vec::new();
    let mut i: usize = 0;
    while i < ls.len()
        invariant
            i <= ls@.len(),
            views(ls@) == lines(content@),
            f == (|i: int, raw: Seq<char>| preload_findings(source@, i, raw)),
            findings_view(findings@) == per_line(views(ls@).take(i as int), f),
        decreases ls@.len() - i,
    {
        let ghost prev = findings_view(findings@);
        assert(views(ls@).take(i + 1).drop_last() =~= views(ls@).take(i as int));
        assert(views(ls@)[i as int] == ls@[i as int]@);
        let t = trim_chars(ls[i].as_slice());
        if t.len() > 0 && t[0] != '#' {
            let metadata: Metadata = StrMap::new();
            findings.push(
                Finding {
                    category: owned("ld_so"),
                    mechanism: owned(
                        "ld.so preload (loaded into every dynamically-linked process)",
                    ),
                    source: owned(source),
                    target: Some(string_of(t.as_slice())),
                    scope: Scope::System,
                    package: PackageOrigin::Unknown,
                    metadata,
                },
            );
        }
        assert(findings_view(findings@) =~= prev + f(i as int, ls@[i as int]@));
        i = i + 1;
    }
    assert(views(ls@).take(ls@.len() as int) =~= views(ls@));
    findings
}

// ─── /etc/environment ────────────────────────────────────────────────────────

/// One matching pair of outer quotes (`"` or `'`) removed; anything else,
/// mismatched or nested quotes included, is kept as it is.
pub open spec fn unquote(v: Seq<char>) -> Seq<char> {
    if v.len() >= 2 && (v[0] == '"' || v[0] == '\'') && v[v.len() - 1] == v[0] {
        v.subrange(1, v.len() - 1)
    } else {
        v
    }
}

fn unquote_chars(v: &[char]) -> (r: Vec<char>)
    ensures
        r@ == unquote(v@),
{
    let n = v.len();
    if n >= 2 && (v[0] == '"' || v[0] == '\'') && v[n - 1] == v[0] {
        slice_chars(v, 1, n - 1)
    } else {
        slice_chars(v, 0, n)
    }
}

/// Strip one matching pair of outer quotes from an `/etc/environment` value.
pub fn unquote_env_value(value: &str) -> (r: String)
    ensures
        r@ == unquote(value@),
{
    let v = chars_of(value);
    string_of(unquote_chars(v.as_slice()).as_slice())
}

/// The finding for line `i` of the environment file: a trimmed line
/// starting `LD_PRELOAD=` preloads the (unquoted) rest.
pub open spec fn environment_findings(source: Seq<char>, i: int, raw: Seq<char>) -> Seq<
    FindingView,
> {
    let t = trim(raw);
    if starts_with(t, "LD_PRELOAD="@) {
        seq![
            unattributed(
                "ld_so"@,
                "LD_PRELOAD set in /etc/environment"@,
                source,
                Some(unquote(t.subrange("LD_PRELOAD="@.len() as int, t.len() as int))),
                ScopeView::System,
                Map::empty(),
            ),
        ]
    } else {
        Seq::empty()
    }
}

/// The findings of the environment file at `source` holding `content`.
pub fn scan_environment(source: &str, content: &str) -> (r: Vec<Finding>)
    ensures
        findings_view(r@) == per_line(
            lines(content@),
            |i: int, raw: Seq<char>| environment_findings(source@, i, raw),
        ),
{
    let chars = chars_of(content);
    let ls = lines_of(chars.as_slice());
    let prefix = chars_of("LD_PRELOAD=");
    let ghost f = |i: int, raw: Seq<char>| environment_findings(source@, i, raw);
    let mut findings: Vec<Finding> = Vec::new();
    let mut i: usize = 0;
    while i < ls.len()
        invariant
            i <= ls@.len(),
            views(ls@) == lines(content@),
            prefix@ == "LD_PRELOAD="@,
            f == (|i: int, raw: Seq<char>| environment_findings(source@, i, raw)),
            findings_view(findings@) == per_line(views(ls@).take(i as int), f),
        decreases ls@.len() - i,
    {
        let ghost prev = findings_view(findings@);
        assert(views(ls@).take(i + 1).drop_last() =~= views(ls@).take(i as int));
        assert(views(ls@)[i as int] == ls@[i as int]@);
        let t = trim_chars(ls[i].as_slice());
        if matches_at_exec(t.as_slice(), prefix.as_slice(), 0) {
            let rest = slice_chars(t.as_slice(), prefix.len(), t.len());
            let metadata: Metadata = StrMap::new();
            findings.push(
                Finding {
                    category: owned("ld_so"),
                    mechanism: owned("LD_PRELOAD set in /etc/environment"),
                    source: owned(source),
                    target: Some(string_of(unquote_chars(rest.as_slice()).as_slice())),
                    scope: Scope::System,
                    package: PackageOrigin::Unknown,
                    metadata,
                },
            );
        }
        assert(findings_view(findings@) =~= prev + f(i as int, ls@[i as int]@));
        i = i + 1;
    }
    assert(views(ls@).take(ls@.len() as int) =~= views(ls@));
    findings
}

// ─── ld.so.conf ──────────────────────────────────────────────────────────────

/// The findings of one trimmed, non-comment line on line `i` of an
/// ld.so.conf-format file: `include <glob>...` yields one finding per glob,
/// any other line one search-path finding for the whole line.
pub open spec fn conf_line_findings(source: Seq<char>, i: int, line: Seq<char>) -> Seq<FindingView> {
    let ws = words(line);
    let metadata = Map::empty().insert("line"@, decimal((i + 1) as nat));
    if ws.len() == 0 {
        Seq::empty()
    } else if ws[0] == "include"@ {
        ws.skip(1).map_values(
            |g: Seq<char>|
                unattributed(
                    "ld_so"@,
                    "ld.so include directive (pulls in additional search-path config)"@,
                    source,
                    Some(g),
                    ScopeView::System,
                    metadata,
                ),
        )
    } else {
        seq![
            unattributed(
                "ld_so"@,
                "ld.so search-path entry (adds directory to library lookup)"@,
                source,
                Some(line),
                ScopeView::System,
                metadata,
            ),
        ]
    }
}

fn conf_finding(mechanism: &str, source: &str, lineno: usize, target: String) -> (r: Finding)
    requires
        lineno < usize::MAX,
    ensures
        r@ == unattributed(
            "ld_so"@,
            mechanism@,
            source@,
            Some(target@),
            ScopeView::System,
            Map::empty().insert("line"@, decimal((lineno + 1) as nat)),
        ),
{
    let mut metadata: Metadata = StrMap::new();
    metadata.insert(owned("line"), decimal_string((lineno + 1) as u64));
    Finding {
        category: owned("ld_so"),
        mechanism: owned(mechanism),
        source: owned(source),
        target: Some(target),
        scope: Scope::System,
        package: PackageOrigin::Unknown,
        metadata,
    }
}

/// The findings of one line (`lineno` counted from 0) of an ld.so.conf-format
/// file at `source`.
pub fn parse_conf_line(line: &str, source: &str, lineno: usize) -> (r: Vec<Finding>)
    requires
        lineno < usize::MAX,
    ensures
        findings_view(r@) == conf_line_findings(source@, lineno as int, line@),
{
    let l = chars_of(line);
    let ws = split_ws(l.as_slice());
    let mut out: Vec<Finding> = Vec::new();
    if ws.len() == 0 {
        assert(findings_view(out@) =~= conf_line_findings(source@, lineno as int, line@));
        return out;
    }
    assert(views(ws@)[0] == ws@[0]@);
    if chars_eq_str(ws[0].as_slice(), "include") {
        let ghost g = |g: Seq<char>|
            unattributed(
                "ld_so"@,
                "ld.so include directive (pulls in additional search-path config)"@,
                source@,
                Some(g),
                ScopeView::System,
                Map::empty().insert("line"@, decimal((lineno + 1) as nat)),
            );
        let mut k: usize = 1;
        while k < ws.len()
            invariant
                1 <= k <= ws@.len(),
                lineno < usize::MAX,
                g == (|g: Seq<char>|
                    unattributed(
                        "ld_so"@,
                        "ld.so include directive (pulls in additional search-path config)"@,
                        source@,
                        Some(g),
                        ScopeView::System,
                        Map::empty().insert("line"@, decimal((lineno + 1) as nat)),
                    )),
                findings_view(out@) == views(ws@).subrange(1, k as int).map_values(g),
            decreases ws@.len() - k,
        {
            let ghost prev = findings_view(out@);
            out.push(
                conf_finding(
                    "ld.so include directive (pulls in additional search-path config)",
                    source,
                    lineno,
                    string_of(ws[k].as_slice()),
                ),
            );
            assert(views(ws@)[k as int] == ws@[k as int]@);
            assert(views(ws@).subrange(1, k + 1).map_values(g) =~= views(ws@).subrange(
                1,
                k as int,
            ).map_values(g).push(g(views(ws@)[k as int])));
            assert(findings_view(out@) =~= prev.push(g(views(ws@)[k as int])));
            k = k + 1;
        }
        assert(views(ws@).subrange(1, ws@.len() as int) =~= views(ws@).skip(1));
        return out;
    }
    out.push(
        conf_finding(
            "ld.so search-path entry (adds directory to library lookup)",
            source,
            lineno,
            owned(line),
        ),
    );
    assert(findings_view(out@) =~= conf_line_findings(source@, lineno as int, line@));
    out
}

/// The findings for line `i` of an ld.so.conf-format file, blank lines and
/// comments skipped.
pub open spec fn conf_findings(source: Seq<char>, i: int, raw: Seq<char>) -> Seq<FindingView> {
    let t = trim(raw);
    if t.len() == 0 || t[0] == '#' {
        Seq::empty()
    } else {
        conf_line_findings(source, i, t)
    }
}

/// The findings of an ld.so.conf-format file at `source` holding `content`:
/// `/etc/ld.so.conf` and each `/etc/ld.so.conf.d/*.conf`.
pub fn scan_conf_content(source: &str, content: &str) -> (r: Vec<Finding>)
    ensures
        findings_view(r@) == per_line(
            lines(content@),
            |i: int, raw: Seq<char>| conf_findings(source@, i, raw),
        ),
{
    let chars = chars_of(content);
    let ls = lines_of(chars.as_slice());
    let ghost f = |i: int, raw: Seq<char>| conf_findings(source@, i, raw);
    let mut findings: Vec<Finding> = Vec::new();
    let mut i: usize = 0;
    while i < ls.len()
        invariant
            i <= ls@.len(),
            views(ls@) == lines(content@),
            f == (|i: int, raw: Seq<char>| conf_findings(source@, i, raw)),
            findings_view(findings@) == per_line(views(ls@).take(i as int), f),
        decreases ls@.len() - i,
    {
        let ghost prev = findings_view(findings@);
        assert(views(ls@).take(i + 1).drop_last() =~= views(ls@).take(i as int));
        assert(views(ls@)[i as int] == ls@[i as int]@);
        let t = trim_chars(ls[i].as_slice());
        if t.len() > 0 && t[0] != '#' {
            let line = string_of(t.as_slice());
            let mut more = parse_conf_line(line.as_str(), source, i);
            let ghost add = findings_view(more@);
            findings.append(&mut more);
            assert(findings_view(findings@) =~= prev + add);
        }
        assert(findings_view(findings@) =~= prev + f(i as int, ls@[i as int]@));
        i = i + 1;
    }
    assert(views(ls@).take(ls@.len() as int) =~= views(ls@));
    findings
}

} // verus!
