use vstd::prelude::*;

use crate::checker::Checker;

use crate::finding::{
    findings_view, per_line, unattributed, Finding, FindingView, Metadata, PackageOrigin, Scope,
    ScopeView, StrMap,
};
use crate::text::{
    chars_of, decimal, decimal_string, find_chars, find_from, first_char, first_char_exec,
    lemma_find_from_bounds, lemma_first_char, lines, lines_of, owned, slice_chars, string_of, strs,
    trim_start, trim_start_index, views,
};
use crate::util::{fold_chars, folded};

verus! {

/// The checker that surveys udev rules.
pub struct UdevChecker;

impl Checker for UdevChecker {
    fn name(&self) -> (r: &'static str)
        ensures
            r@ == "udev"@,
    {
        "udev"
    }
}

/// How many rule directories `rule_dir` lists.
pub const RULE_DIR_COUNT: usize = 4;

/// The directories udev reads `*.rules` files from.
pub open spec fn rule_dir(i: int) -> Seq<char> {
    if i == 0 {
        "/etc/udev/rules.d"@
    } else if i == 1 {
        "/run/udev/rules.d"@
    } else if i == 2 {
        "/lib/udev/rules.d"@
    } else {
        "/usr/lib/udev/rules.d"@
    }
}

/// The `i`-th udev rule directory.
pub fn rule_dir_name(i: usize) -> (r: &'static str)
    requires
        i < RULE_DIR_COUNT,
    ensures
        r@ == rule_dir(i as int),
{
    if i == 0 {
        "/etc/udev/rules.d"
    } else if i == 1 {
        "/run/udev/rules.d"
    } else if i == 2 {
        "/lib/udev/rules.d"
    } else {
        "/usr/lib/udev/rules.d"
    }
}

/// The assignment prefixes of a `RUN` directive, in the order they are
/// tried.
pub fn run_prefixes() -> (r: Vec<&'static str>)
    ensures
        strs(r@) == seq![
            "RUN{program}+="@,
            "RUN{program}:="@,
            "RUN{program}="@,
            "RUN+="@,
            "RUN:="@,
            "RUN="@,
        ],
        forall|i: int| 0 <= i < r@.len() ==> (#[trigger] r@[i])@.len() > 0,
{
    proof {
        reveal_strlit("RUN{program}+=");
        reveal_strlit("RUN{program}:=");
        reveal_strlit("RUN{program}=");
        reveal_strlit("RUN+=");
        reveal_strlit("RUN:=");
        reveal_strlit("RUN=");
    }
    let r = vec![
        "RUN{program}+=",
        "RUN{program}:=",
        "RUN{program}=",
        "RUN+=",
        "RUN:=",
        "RUN=",
    ];
    assert(strs(r@) =~= seq![
        "RUN{program}+="@,
        "RUN{program}:="@,
        "RUN{program}="@,
        "RUN+="@,
        "RUN:="@,
        "RUN="@,
    ]);
    r
}

/// The assignment prefixes of an `IMPORT{program}` directive; the other
/// `IMPORT{...}` kinds run no program.
pub fn import_program_prefixes() -> (r: Vec<&'static str>)
    ensures
        strs(r@) == seq!["IMPORT{program}+="@, "IMPORT{program}:="@, "IMPORT{program}="@],
        forall|i: int| 0 <= i < r@.len() ==> (#[trigger] r@[i])@.len() > 0,
{
    proof {
        reveal_strlit("IMPORT{program}+=");
        reveal_strlit("IMPORT{program}:=");
        reveal_strlit("IMPORT{program}=");
    }
    let r = vec!["IMPORT{program}+=", "IMPORT{program}:=", "IMPORT{program}="];
    assert(strs(r@) =~= seq!["IMPORT{program}+="@, "IMPORT{program}:="@, "IMPORT{program}="@]);
    r
}

/// The views of (directive, value) pairs.
pub open spec fn pair_views(v: Seq<(&str, String)>) -> Seq<(Seq<char>, Seq<char>)> {
    v.map_values(|p: (&str, String)| (p.0@, p.1@))
}

/// Each value paired with the directive `tag`.
pub open spec fn tagged(tag: Seq<char>, values: Seq<Seq<char>>) -> Seq<(Seq<char>, Seq<char>)> {
    values.map_values(|v: Seq<char>| (tag, v))
}

// ─── directive extraction ────────────────────────────────────────────────────

/// Among the first `n` prefixes, the earliest occurrence in `line` at or
/// after `pos`, as (start, prefix length); at equal starts the prefix listed
/// first wins.
pub open spec fn earliest_prefix(line: Seq<char>, ps: Seq<Seq<char>>, pos: int, n: nat) -> Option<
    (int, int),
>
    decreases n,
{
    if n == 0 {
        None
    } else {
        let prev = earliest_prefix(line, ps, pos, (n - 1) as nat);
        match find_from(line, ps[n - 1], pos) {
            None => prev,
            Some(abs) => match prev {
                Some(best) => if abs < best.0 {
                    Some((abs, ps[n - 1].len() as int))
                } else {
                    prev
                },
                None => Some((abs, ps[n - 1].len() as int)),
            },
        }
    }
}

/// The quoted values assigned with one of the prefixes `ps` in `line`,
/// scanning from `pos`: at the earliest prefix occurrence, a value is the
/// text between the `"` right after the prefix and the next `"`; a prefix
/// not followed by `"` is skipped, and an unterminated value ends the scan.
/// Scanning resumes after each closing quote, so text inside a value is
/// never read as a directive.
pub open spec fn extracted(line: Seq<char>, ps: Seq<Seq<char>>, pos: int) -> Seq<Seq<char>>
    decreases line.len() - pos,
{
    if pos < 0 || pos >= line.len() {
        Seq::empty()
    } else {
        match earliest_prefix(line, ps, pos, ps.len()) {
            None => Seq::empty(),
            Some(best) => {
                let after = best.0 + best.1;
                if after <= pos || after >= line.len() {
                    Seq::empty()
                } else if line[after] != '"' {
                    extracted(line, ps, after)
                } else {
                    match first_char(line, '"', after + 1) {
                        None => Seq::empty(),
                        Some(close) => if close < after + 1 || close >= line.len() {
                            Seq::empty()
                        } else {
                            seq![line.subrange(after + 1, close)] + extracted(line, ps, close + 1)
                        },
                    }
                }
            },
        }
    }
}

proof fn lemma_earliest_prefix(line: Seq<char>, ps: Seq<Seq<char>>, pos: int, n: nat)
    requires
        0 <= pos,
        n <= ps.len(),
        forall|i: int| 0 <= i < ps.len() ==> #[trigger] ps[i].len() > 0,
    ensures
        earliest_prefix(line, ps, pos, n) matches Some(b) ==> pos <= b.0 && b.1 > 0 && b.0 + b.1
            <= line.len(),
    decreases n,
{
    if n > 0 {
        lemma_earliest_prefix(line, ps, pos, (n - 1) as nat);
        lemma_find_from_bounds(line, ps[n - 1], pos);
    }
}

/// The earliest prefix occurrence at or after `pos`.
fn earliest_prefix_exec(line: &[char], prefixes: &[&str], pos: usize) -> (r: Option<(usize, usize)>)
    ensures
        match r {
            Some(b) => earliest_prefix(line@, strs(prefixes@), pos as int, prefixes@.len())
                == Some((b.0 as int, b.1 as int)),
            None => earliest_prefix(line@, strs(prefixes@), pos as int, prefixes@.len()) is None,
        },
{
    let ghost ps = strs(prefixes@);
    let mut best: Option<(usize, usize)> = None;
    let mut i: usize = 0;
    while i < prefixes.len()
        invariant
            i <= prefixes@.len(),
            ps == strs(prefixes@),
            match best {
                Some(b) => earliest_prefix(line@, ps, pos as int, i as nat) == Some(
                    (b.0 as int, b.1 as int),
                ),
                None => earliest_prefix(line@, ps, pos as int, i as nat) is None,
            },
        decreases prefixes@.len() - i,
    {
        let p = chars_of(prefixes[i]);
        assert(ps[i as int] == prefixes@[i as int]@);
        match find_chars(line, p.as_slice(), pos) {
            None => {},
            Some(abs) => {
                match best {
                    None => {
                        best = Some((abs, p.len()));
                    },
                    Some(b) => {
                        if abs < b.0 {
                            best = Some((abs, p.len()));
                        }
                    },
                }
            },
        }
        i = i + 1;
    }
    best
}

/// Appends to `out`, tagged `canonical`, each quoted value that `line`
/// assigns with one of `prefixes`.
pub fn extract_with_prefixes(
    line: &str,
    prefixes: &[&str],
    canonical: &'static str,
    out: &mut Vec<(&'static str, String)>,
)
    requires
        forall|i: int| 0 <= i < prefixes@.len() ==> (#[trigger] prefixes@[i])@.len() > 0,
    ensures
        pair_views(final(out)@) == pair_views(old(out)@) + tagged(
            canonical@,
            extracted(line@, strs(prefixes@), 0),
        ),
{
    let l = chars_of(line);
    let ghost ps = strs(prefixes@);
    assert forall|i: int| 0 <= i < ps.len() implies #[trigger] ps[i].len() > 0 by {
        assert(ps[i] == prefixes@[i]@);
    }
    let mut pos: usize = 0;
    while pos < l.len()
        invariant
            pos <= l@.len(),
            l@ == line@,
            ps == strs(prefixes@),
            forall|i: int| 0 <= i < ps.len() ==> #[trigger] ps[i].len() > 0,
            pair_views(old(out)@) + tagged(canonical@, extracted(line@, ps, 0)) == pair_views(out@)
                + tagged(canonical@, extracted(line@, ps, pos as int)),
        decreases l@.len() - pos,
    {
        proof {
            lemma_earliest_prefix(l@, ps, pos as int, ps.len());
        }
        let (start, plen) = match earliest_prefix_exec(l.as_slice(), prefixes, pos) {
            Some(b) => b,
            None => {
                assert(extracted(line@, ps, pos as int) =~= Seq::<Seq<char>>::empty());
                assert(pair_views(out@) + tagged(canonical@, Seq::<Seq<char>>::empty())
                    =~= pair_views(out@));
                return;
            },
        };
        let after = start + plen;
        if after >= l.len() || l[after] != '"' {
            pos = after;
            continue;
        }
        let val_start = after + 1;
        let close = match first_char_exec(l.as_slice(), '"', val_start) {
            Some(c) => c,
            None => {
                assert(extracted(line@, ps, pos as int) =~= Seq::<Seq<char>>::empty());
                assert(pair_views(out@) + tagged(canonical@, Seq::<Seq<char>>::empty())
                    =~= pair_views(out@));
                return;
            },
        };
        proof {
            lemma_first_char(l@, '"', val_start as int);
        }
        let ghost before = pair_views(out@);
        let value = string_of(slice_chars(l.as_slice(), val_start, close).as_slice());
        out.push((canonical, value));
        let ghost v = l@.subrange(val_start as int, close as int);
        assert(extracted(line@, ps, pos as int) == seq![v] + extracted(line@, ps, close + 1));
        assert(tagged(canonical@, seq![v] + extracted(line@, ps, close + 1)) =~= seq![
            (canonical@, v),
        ] + tagged(canonical@, extracted(line@, ps, close + 1)));
        assert(pair_views(out@) =~= before + seq![(canonical@, v)]);
        pos = close + 1;
    }
    assert(extracted(line@, ps, pos as int) =~= Seq::<Seq<char>>::empty());
    assert(pair_views(out@) + tagged(canonical@, Seq::<Seq<char>>::empty()) =~= pair_views(out@));
}

/// The program-running directives of one rule line: the `RUN` values, then
/// the `IMPORT{program}` values.
pub open spec fn directives(line: Seq<char>) -> Seq<(Seq<char>, Seq<char>)> {
    tagged(
        "RUN"@,
        extracted(
            line,
            seq![
                "RUN{program}+="@,
                "RUN{program}:="@,
                "RUN{program}="@,
                "RUN+="@,
                "RUN:="@,
                "RUN="@,
            ],
            0,
        ),
    ) + tagged(
        "IMPORT{program}"@,
        extracted(line, seq!["IMPORT{program}+="@, "IMPORT{program}:="@, "IMPORT{program}="@], 0),
    )
}

/// The program-running directives of one rule line, as (directive, value).
pub fn extract_directives(line: &str) -> (r: Vec<(&'static str, String)>)
    ensures
        pair_views(r@) == directives(line@),
{
    let mut out: Vec<(&'static str, String)> = Vec::new();
    let run = run_prefixes();
    let import = import_program_prefixes();
    assert(pair_views(out@) =~= Seq::<(Seq<char>, Seq<char>)>::empty());
    extract_with_prefixes(line, run.as_slice(), "RUN", &mut out);
    extract_with_prefixes(line, import.as_slice(), "IMPORT{program}", &mut out);
    out
}

// ─── rule files ──────────────────────────────────────────────────────────────

/// The finding for one program-running directive on line `i`.
pub open spec fn udev_finding(source: Seq<char>, i: int, d: (Seq<char>, Seq<char>)) -> FindingView {
    unattributed(
        "udev"@,
        "udev rule "@ + d.0 + " — runs command on matching device event"@,
        source,
        Some(d.1),
        ScopeView::System,
        Map::empty().insert("directive"@, d.0).insert("line"@, decimal((i + 1) as nat)),
    )
}

/// The findings of logical line `i` of a rule file: none for blank lines and
/// comments, else one per program-running directive.
pub open spec fn udev_line_findings(source: Seq<char>, i: int, line: Seq<char>) -> Seq<
    FindingView,
> {
    let t = trim_start(line);
    if t.len() == 0 || t[0] == '#' {
        Seq::empty()
    } else {
        directives(line).map_values(|d: (Seq<char>, Seq<char>)| udev_finding(source, i, d))
    }
}

fn udev_line(source: &str, i: usize, line: &Vec<char>, out: &mut Vec<Finding>)
    requires
        i < usize::MAX,
    ensures
        findings_view(final(out)@) == findings_view(old(out)@) + udev_line_findings(
            source@,
            i as int,
            line@,
        ),
{
    let s = trim_start_index(line.as_slice());
    if s == line.len() || line[s] == '#' {
        assert(findings_view(out@) + udev_line_findings(source@, i as int, line@) =~= findings_view(
            out@,
        ));
        return;
    }
    let text = string_of(line.as_slice());
    let ds = extract_directives(text.as_str());
    let ghost start = findings_view(out@);
    let ghost f = |d: (Seq<char>, Seq<char>)| udev_finding(source@, i as int, d);
    let mut k: usize = 0;
    while k < ds.len()
        invariant
            k <= ds@.len(),
            i < usize::MAX,
            pair_views(ds@) == directives(line@),
            f == (|d: (Seq<char>, Seq<char>)| udev_finding(source@, i as int, d)),
            findings_view(out@) == start + pair_views(ds@).take(k as int).map_values(f),
        decreases ds@.len() - k,
    {
        let (directive, value) = (ds[k].0, ds[k].1.clone());
        let mut metadata: Metadata = StrMap::new();
        metadata.insert(owned("directive"), owned(directive));
        metadata.insert(owned("line"), decimal_string((i + 1) as u64));
        let mut mechanism = owned("udev rule ");
        mechanism.append(directive);
        mechanism.append(" — runs command on matching device event");
        let ghost prev = findings_view(out@);
        out.push(
            Finding {
                category: owned("udev"),
                mechanism,
                source: owned(source),
                target: Some(value),
                scope: Scope::System,
                package: PackageOrigin::Unknown,
                metadata,
            },
        );
        assert(pair_views(ds@)[k as int] == (ds@[k as int].0@, ds@[k as int].1@));
        assert(pair_views(ds@).take(k + 1).map_values(f) =~= pair_views(ds@).take(
            k as int,
        ).map_values(f).push(f(pair_views(ds@)[k as int])));
        assert(findings_view(out@) =~= prev.push(f(pair_views(ds@)[k as int])));
        k = k + 1;
    }
    assert(pair_views(ds@).take(ds@.len() as int) =~= pair_views(ds@));
}

/// The findings of a rule file at `source` holding `content`. Lines ending
/// in `\` are first joined with the next, as udev does, so a directive
/// spread over several physical lines reads as one.
pub fn scan_rules_file(content: &str, source: &str) -> (r: Vec<Finding>)
    ensures
        findings_view(r@) == per_line(
            lines(folded(content@)),
            |i: int, line: Seq<char>| udev_line_findings(source@, i, line),
        ),
{
    let raw = chars_of(content);
    let f = fold_chars(raw.as_slice());
    let ls = lines_of(f.as_slice());
    let ghost g = |i: int, line: Seq<char>| udev_line_findings(source@, i, line);
    let mut findings: Vec<Finding> = Vec::new();
    let mut i: usize = 0;
    while i < ls.len()
        invariant
            i <= ls@.len(),
            views(ls@) == lines(folded(content@)),
            g == (|i: int, line: Seq<char>| udev_line_findings(source@, i, line)),
            findings_view(findings@) == per_line(views(ls@).take(i as int), g),
        decreases ls@.len() - i,
    {
        assert(views(ls@).take(i + 1).drop_last() =~= views(ls@).take(i as int));
        assert(views(ls@)[i as int] == ls@[i as int]@);
        udev_line(source, i, &ls[i], &mut findings);
        i = i + 1;
    }
    assert(views(ls@).take(ls@.len() as int) =~= views(ls@));
    findings
}

} // verus!
