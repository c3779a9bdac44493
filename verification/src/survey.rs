use vstd::prelude::*;

use crate::diff::Diff;
use crate::finding::{
    findings_view, Finding, FindingView, Metadata, OriginView, PackageOrigin, Scope, ScopeView,
};
use crate::text::{decimal, decimal_string, str_eq, string_views};

verus! {

// ─── selecting checkers and findings ─────────────────────────────────────────

/// Whether the checker `name` runs when `--checker` named `only`: every
/// checker runs when none is named.
pub fn select_checker(only: &Vec<String>, name: &str) -> (b: bool)
    ensures
        b == (only@.len() == 0 || string_views(only@).contains(name@)),
{
    if only.len() == 0 {
        return true;
    }
    let mut i: usize = 0;
    while i < only.len()
        invariant
            i <= only@.len(),
            forall|j: int| 0 <= j < i ==> string_views(only@)[j] != name@,
        decreases only@.len() - i,
    {
        assert(string_views(only@)[i as int] == only@[i as int]@);
        if str_eq(only[i].as_str(), name) {
            return true;
        }
        i = i + 1;
    }
    false
}

/// The findings that no package owns: the malware-triage signal.
pub open spec fn untracked(v: Seq<FindingView>) -> Seq<FindingView> {
    v.filter(|f: FindingView| f.package is Untracked)
}

/// The findings that no package owns, in order.
pub fn keep_untracked(findings: Vec<Finding>) -> (r: Vec<Finding>)
    ensures
        findings_view(r@) == untracked(findings_view(findings@)),
{
    let ghost all = findings_view(findings@);
    let ghost pred = |f: FindingView| f.package is Untracked;
    let ghost n = findings@.len();
    let mut rest = findings;
    let mut out: Vec<Finding> = Vec::new();
    while rest.len() > 0
        invariant
            rest@.len() <= n,
            all.len() == n,
            pred == (|f: FindingView| f.package is Untracked),
            findings_view(rest@) == all.skip(n - rest@.len()),
            findings_view(out@) == all.take(n - rest@.len()).filter(pred),
        decreases rest@.len(),
    {
        let ghost k = n - rest@.len();
        let ghost before = rest@;
        assert(findings_view(before)[0] == before[0]@);
        assert(all.skip(k)[0] == all[k]);
        let f = rest.remove(0);
        assert(findings_view(rest@) =~= findings_view(before).skip(1));
        assert(all.skip(k).skip(1) =~= all.skip(k + 1));
        let ghost t1 = all.take(k + 1);
        assert(t1.drop_last() =~= all.take(k));
        assert(t1.last() == all[k]);
        assert(t1.filter(pred) == if pred(all[k]) {
            all.take(k).filter(pred).push(all[k])
        } else {
            all.take(k).filter(pred)
        }) by {
            reveal(Seq::filter);
        }
        let ghost prev = findings_view(out@);
        if matches!(f.package, PackageOrigin::Untracked) {
            out.push(f);
            assert(findings_view(out@) =~= prev.push(all[k]));
        }
    }
    assert(all.take(n as int) =~= all);
    out
}

// ─── ordering keys ───────────────────────────────────────────────────────────

/// Lexicographic order on character sequences, by code point: the order of
/// `String` (whose UTF-8 bytes compare the same way), so of a `BTreeMap`'s
/// keys.
pub open spec fn text_lt(a: Seq<char>, b: Seq<char>) -> bool
    decreases a.len(),
{
    if a.len() == 0 {
        b.len() > 0
    } else if b.len() == 0 {
        false
    } else if a[0] != b[0] {
        (a[0] as u32) < (b[0] as u32)
    } else {
        text_lt(a.drop_first(), b.drop_first())
    }
}

/// `text_lt` is a strict total order.
pub proof fn text_order_is_strict_total(a: Seq<char>, b: Seq<char>, c: Seq<char>)
    ensures
        !text_lt(a, a),
        text_lt(a, b) ==> !text_lt(b, a),
        a != b ==> text_lt(a, b) || text_lt(b, a),
        text_lt(a, b) && text_lt(b, c) ==> text_lt(a, c),
    decreases a.len(),
{
    if a.len() == 0 {
        if a != b {
            assert(b.len() > 0) by {
                if b.len() == 0 {
                    assert(a =~= b);
                }
            }
        }
    } else if b.len() == 0 {
        text_order_is_strict_total(a.drop_first(), a.drop_first(), a.drop_first());
    } else {
        text_order_is_strict_total(a.drop_first(), a.drop_first(), a.drop_first());
        text_order_is_strict_total(a.drop_first(), b.drop_first(), b.drop_first());
        if c.len() > 0 {
            text_order_is_strict_total(a.drop_first(), b.drop_first(), c.drop_first());
        }
        if a[0] != b[0] {
            vstd::utf8::char_u32_cast(a[0], a[0] as u32);
            vstd::utf8::char_u32_cast(b[0], b[0] as u32);
            assert(a[0] as u32 != b[0] as u32);
        } else if a != b {
            assert(a.drop_first() != b.drop_first()) by {
                if a.drop_first() == b.drop_first() {
                    assert(a =~= seq![a[0]] + a.drop_first());
                    assert(b =~= seq![b[0]] + b.drop_first());
                }
            }
        }
    }
}

fn text_lt_exec(a: &[char], b: &[char]) -> (r: bool)
    ensures
        r == text_lt(a@, b@),
{
    let mut i: usize = 0;
    assert(a@.skip(0) =~= a@);
    assert(b@.skip(0) =~= b@);
    while i < a.len() && i < b.len() && a[i] == b[i]
        invariant
            i <= a@.len(),
            i <= b@.len(),
            text_lt(a@, b@) == text_lt(a@.skip(i as int), b@.skip(i as int)),
        decreases a@.len() - i,
    {
        assert(a@.skip(i as int).drop_first() =~= a@.skip(i + 1));
        assert(b@.skip(i as int).drop_first() =~= b@.skip(i + 1));
        i = i + 1;
    }
    if i == a.len() {
        i < b.len()
    } else if i == b.len() {
        false
    } else {
        (a[i] as u32) < (b[i] as u32)
    }
}

// ─── metadata in key order ───────────────────────────────────────────────────

/// `s` lists the entries of `m` in strictly increasing key order.
pub open spec fn lists(s: Seq<(Seq<char>, Seq<char>)>, m: Map<Seq<char>, Seq<char>>) -> bool {
    &&& forall|i: int, j: int| 0 <= i < j < s.len() ==> text_lt(#[trigger] s[i].0, #[trigger] s[j].0)
    &&& forall|i: int| 0 <= i < s.len() ==> #[trigger] m.contains_key(s[i].0) && m[s[i].0] == s[i].1
    &&& forall|k: Seq<char>| #[trigger] m.contains_key(k) ==> exists|i: int| 0 <= i < s.len() && s[i].0 == k
}

/// The entries of `m` in key order, as a `BTreeMap` walks them.
pub open spec fn in_key_order(m: Map<Seq<char>, Seq<char>>) -> Seq<(Seq<char>, Seq<char>)> {
    choose|s: Seq<(Seq<char>, Seq<char>)>| lists(s, m)
}

proof fn lemma_lists_unique(s: Seq<(Seq<char>, Seq<char>)>, t: Seq<(Seq<char>, Seq<char>)>, m: Map<Seq<char>, Seq<char>>)
    requires
        lists(s, m),
        lists(t, m),
    ensures
        s == t,
    decreases s.len() + t.len(),
{
    if s.len() == 0 && t.len() == 0 {
        assert(s =~= t);
    } else if s.len() == 0 {
        assert(m.contains_key(t[0].0));
    } else if t.len() == 0 {
        assert(m.contains_key(s[0].0));
    } else {
        let k = s[0].0;
        assert(m.contains_key(k));
        assert(m.contains_key(t[0].0));
        let a = choose|i: int| 0 <= i < t.len() && t[i].0 == k;
        let b = choose|i: int| 0 <= i < s.len() && s[i].0 == t[0].0;
        if a > 0 {
            assert(text_lt(t[0].0, t[a].0));
            if b > 0 {
                assert(text_lt(s[0].0, s[b].0));
                text_order_is_strict_total(t[0].0, k, t[0].0);
            } else {
                text_order_is_strict_total(k, k, k);
            }
        }
        assert(t[0].0 == k);
        assert(s[0] == t[0]);
        let m2 = m.remove(k);
        let s2 = s.drop_first();
        let t2 = t.drop_first();
        assert forall|i: int| 0 <= i < s2.len() implies #[trigger] m2.contains_key(s2[i].0) && m2[s2[i].0] == s2[i].1 by {
            assert(s2[i] == s[i + 1]);
            assert(text_lt(s[0].0, s[i + 1].0));
            text_order_is_strict_total(k, k, k);
        }
        assert forall|i: int| 0 <= i < t2.len() implies #[trigger] m2.contains_key(t2[i].0) && m2[t2[i].0] == t2[i].1 by {
            assert(t2[i] == t[i + 1]);
            assert(text_lt(t[0].0, t[i + 1].0));
            text_order_is_strict_total(k, k, k);
        }
        assert forall|x: Seq<char>| #[trigger] m2.contains_key(x) implies exists|i: int| 0 <= i < s2.len() && s2[i].0 == x by {
            let i = choose|i: int| 0 <= i < s.len() && s[i].0 == x;
            assert(i > 0);
            assert(s2[i - 1] == s[i]);
        }
        assert forall|x: Seq<char>| #[trigger] m2.contains_key(x) implies exists|i: int| 0 <= i < t2.len() && t2[i].0 == x by {
            let i = choose|i: int| 0 <= i < t.len() && t[i].0 == x;
            assert(i > 0);
            assert(t2[i - 1] == t[i]);
        }
        assert forall|i: int, j: int| 0 <= i < j < s2.len() implies text_lt(#[trigger] s2[i].0, #[trigger] s2[j].0) by {
            assert(s2[i] == s[i + 1] && s2[j] == s[j + 1]);
        }
        assert forall|i: int, j: int| 0 <= i < j < t2.len() implies text_lt(#[trigger] t2[i].0, #[trigger] t2[j].0) by {
            assert(t2[i] == t[i + 1] && t2[j] == t[j + 1]);
        }
        lemma_lists_unique(s2, t2, m2);
        assert(s =~= seq![s[0]] + s2);
        assert(t =~= seq![t[0]] + t2);
    }
}

/// The views of (key, value) pairs.
pub open spec fn entry_views(v: Seq<(String, String)>) -> Seq<(Seq<char>, Seq<char>)> {
    v.map_values(|e: (String, String)| (e.0@, e.1@))
}

/// Keys strictly increasing.
pub open spec fn sorted_keys(s: Seq<(Seq<char>, Seq<char>)>) -> bool {
    forall|i: int, j: int| 0 <= i < j < s.len() ==> text_lt(#[trigger] s[i].0, #[trigger] s[j].0)
}

proof fn lemma_insert_sorted(s: Seq<(Seq<char>, Seq<char>)>, pos: int, x: (Seq<char>, Seq<char>))
    requires
        sorted_keys(s),
        0 <= pos <= s.len(),
        forall|a: int| 0 <= a < pos ==> text_lt(#[trigger] s[a].0, x.0),
        pos < s.len() ==> text_lt(x.0, s[pos].0),
    ensures
        sorted_keys(s.insert(pos, x)),
{
    let t = s.insert(pos, x);
    assert forall|a: int, b: int| 0 <= a < b < t.len() implies text_lt(#[trigger] t[a].0, #[trigger] t[b].0) by {
        if b < pos {
            assert(t[a] == s[a] && t[b] == s[b]);
        } else if b == pos {
            assert(t[a] == s[a]);
        } else if a < pos {
            assert(t[a] == s[a] && t[b] == s[b - 1]);
            text_order_is_strict_total(s[a].0, x.0, s[pos].0);
            if b - 1 > pos {
                text_order_is_strict_total(s[a].0, s[pos].0, s[b - 1].0);
            }
        } else if a == pos {
            assert(t[b] == s[b - 1]);
            if b - 1 > pos {
                text_order_is_strict_total(x.0, s[pos].0, s[b - 1].0);
            }
        } else {
            assert(t[a] == s[a - 1] && t[b] == s[b - 1]);
        }
    }
}

proof fn lemma_insert_members(
    s: Seq<(Seq<char>, Seq<char>)>,
    e: Seq<(Seq<char>, Seq<char>)>,
    i: int,
    pos: int,
)
    requires
        0 <= i < e.len(),
        0 <= pos <= s.len(),
        forall|a: int| 0 <= a < s.len() ==> e.take(i).contains(#[trigger] s[a]),
        forall|b: int| 0 <= b < i ==> s.contains(#[trigger] e[b]),
    ensures
        forall|a: int| 0 <= a < s.len() + 1 ==> e.take(i + 1).contains(#[trigger] s.insert(pos, e[i])[a]),
        forall|b: int| 0 <= b < i + 1 ==> s.insert(pos, e[i]).contains(#[trigger] e[b]),
{
    let t = s.insert(pos, e[i]);
    assert forall|a: int| 0 <= a < s.len() + 1 implies e.take(i + 1).contains(#[trigger] t[a]) by {
        if a == pos {
            assert(e.take(i + 1)[i] == e[i]);
        } else {
            let sa = if a < pos { a } else { a - 1 };
            assert(t[a] == s[sa]);
            let k = choose|k: int| 0 <= k < i && e.take(i)[k] == s[sa];
            assert(e.take(i + 1)[k] == e.take(i)[k]);
        }
    }
    assert forall|b: int| 0 <= b < i + 1 implies t.contains(#[trigger] e[b]) by {
        if b == i {
            assert(t[pos] == e[i]);
        } else {
            let k = choose|k: int| 0 <= k < s.len() && s[k] == e[b];
            if k < pos {
                assert(t[k] == s[k]);
            } else {
                assert(t[k + 1] == s[k]);
            }
        }
    }
}

/// The metadata entries in key order.
pub fn sorted_entries(m: &Metadata) -> (r: Vec<(String, String)>)
    ensures
        entry_views(r@) == in_key_order(m@),
{
    let es = m.entries();
    let ghost e = entry_views(es@);
    proof {
        assert forall|a: int, b: int| 0 <= a < e.len() && 0 <= b < e.len() && a != b implies #[trigger] e[a].0 != #[trigger] e[b].0 by {
            assert(e[a].0 == es@[a].0@ && e[b].0 == es@[b].0@);
        }
    }
    let mut out: Vec<(String, String)> = Vec::new();
    let mut i: usize = 0;
    while i < es.len()
        invariant
            i <= es@.len(),
            e == entry_views(es@),
            forall|a: int, b: int| 0 <= a < e.len() && 0 <= b < e.len() && a != b ==> #[trigger] e[a].0 != #[trigger] e[b].0,
            sorted_keys(entry_views(out@)),
            forall|a: int| 0 <= a < out@.len() ==> e.take(i as int).contains(#[trigger] entry_views(out@)[a]),
            forall|b: int| 0 <= b < i ==> entry_views(out@).contains(#[trigger] e[b]),
        decreases es@.len() - i,
    {
        let ghost s = entry_views(out@);
        let kc = crate::text::chars_of(es[i].0.as_str());
        assert(e[i as int].0 == kc@);
        let mut pos: usize = 0;
        while pos < out.len()
            invariant
                pos <= out@.len(),
                s == entry_views(out@),
                forall|a: int| 0 <= a < pos ==> text_lt(#[trigger] s[a].0, kc@),
            ensures
                pos <= out@.len(),
                forall|a: int| 0 <= a < pos ==> text_lt(#[trigger] s[a].0, kc@),
                pos < out@.len() ==> !text_lt(s[pos as int].0, kc@),
            decreases out@.len() - pos,
        {
            let oc = crate::text::chars_of(out[pos].0.as_str());
            assert(s[pos as int].0 == oc@);
            if !text_lt_exec(oc.as_slice(), kc.as_slice()) {
                break;
            }
            pos = pos + 1;
        }
        proof {
            if pos < s.len() {
                let k = choose|k: int| 0 <= k < i && e.take(i as int)[k] == s[pos as int];
                assert(e.take(i as int)[k] == e[k]);
                assert(k != i);
                text_order_is_strict_total(s[pos as int].0, kc@, kc@);
            }
            lemma_insert_sorted(s, pos as int, e[i as int]);
            lemma_insert_members(s, e, i as int, pos as int);
        }
        out.insert(pos, (es[i].0.clone(), es[i].1.clone()));
        assert(entry_views(out@) =~= s.insert(pos as int, e[i as int]));
        i = i + 1;
    }
    proof {
        let s = entry_views(out@);
        assert(e.take(es@.len() as int) =~= e);
        assert forall|a: int| 0 <= a < s.len() implies #[trigger] m@.contains_key(s[a].0) && m@[s[a].0] == s[a].1 by {
            let b = choose|b: int| 0 <= b < e.len() && e[b] == s[a];
            assert(e[b] == (es@[b].0@, es@[b].1@));
        }
        assert forall|k: Seq<char>| #[trigger] m@.contains_key(k) implies exists|a: int| 0 <= a < s.len() && s[a].0 == k by {
            let b = choose|b: int| 0 <= b < es@.len() && es@[b].0@ == k;
            assert(e[b].0 == k);
            let a = choose|a: int| 0 <= a < s.len() && s[a] == e[b];
        }
        assert(lists(s, m@));
        lemma_lists_unique(s, in_key_order(m@), m@);
    }
    out
}

// ─── text output ─────────────────────────────────────────────────────────────

/// How a finding's scope is shown.
pub open spec fn scope_line(s: ScopeView) -> Seq<char> {
    match s {
        ScopeView::System => "  scope:   system"@,
        ScopeView::User { uid, name } => "  scope:   user "@ + name + " (uid "@ + decimal(uid as nat)
            + ")"@,
    }
}

/// How a finding's package status is shown.
pub open spec fn package_line(p: OriginView) -> Seq<char> {
    match p {
        OriginView::Owned { package } => "  package: "@ + package,
        OriginView::Untracked => "  package: UNTRACKED"@,
        OriginView::Unknown => "  package: unknown"@,
    }
}

/// The lines that show a finding: category and mechanism, source, target
/// when there is one, scope, package, then each metadata entry in key
/// order.
pub open spec fn finding_lines(f: FindingView) -> Seq<Seq<char>> {
    seq!["["@ + f.category + "] "@ + f.mechanism, "  source:  "@ + f.source] + match f.target {
        Some(t) => seq!["  target:  "@ + t],
        None => Seq::<Seq<char>>::empty(),
    } + seq![scope_line(f.scope), package_line(f.package)] + in_key_order(f.metadata).map_values(
        |e: (Seq<char>, Seq<char>)| "  "@ + e.0 + ": "@ + e.1,
    )
}

/// Each line after `prefix` and followed by a newline.
pub open spec fn prefixed(ls: Seq<Seq<char>>, prefix: Seq<char>) -> Seq<char>
    decreases ls.len(),
{
    if ls.len() == 0 {
        Seq::empty()
    } else {
        prefixed(ls.drop_last(), prefix) + prefix + ls.last() + "\n"@
    }
}

/// The block that shows each finding of `v`, its lines after `prefix`,
/// each block ended by an empty line.
pub open spec fn blocks(v: Seq<FindingView>, prefix: Seq<char>) -> Seq<char>
    decreases v.len(),
{
    if v.len() == 0 {
        Seq::empty()
    } else {
        blocks(v.drop_last(), prefix) + prefixed(finding_lines(v.last()), prefix) + "\n"@
    }
}

/// The text report of a scan.
pub open spec fn report(v: Seq<FindingView>) -> Seq<char> {
    if v.len() == 0 {
        "no findings\n"@
    } else {
        blocks(v, Seq::empty())
    }
}

/// The text report of a comparison: added findings marked `+ `, then
/// removed ones marked `- `.
pub open spec fn diff_report(added: Seq<FindingView>, removed: Seq<FindingView>) -> Seq<char> {
    if added.len() == 0 && removed.len() == 0 {
        "no changes\n"@
    } else {
        blocks(added, "+ "@) + blocks(removed, "- "@)
    }
}

fn push_line(out: &mut String, prefix: &str, line: &str)
    ensures
        final(out)@ == old(out)@ + prefix@ + line@ + "\n"@,
{
    out.append(prefix);
    out.append(line);
    out.append("\n");
}

fn append_finding(out: &mut String, f: &Finding, prefix: &str)
    ensures
        final(out)@ == old(out)@ + prefixed(finding_lines(f@), prefix@) + "\n"@,
{
    let ghost ls = finding_lines(f@);
    let ghost start = out@;
    let mut lines: Vec<String> = Vec::new();
    let mut head = String::from_str("[");
    head.append(f.category.as_str());
    head.append("] ");
    head.append(f.mechanism.as_str());
    lines.push(head);
    let mut src = String::from_str("  source:  ");
    src.append(f.source.as_str());
    lines.push(src);
    match &f.target {
        Some(t) => {
            let mut l = String::from_str("  target:  ");
            l.append(t.as_str());
            lines.push(l);
        },
        None => {},
    }
    let scope = match &f.scope {
        Scope::System => String::from_str("  scope:   system"),
        Scope::User { uid, name } => {
            let mut l = String::from_str("  scope:   user ");
            l.append(name.as_str());
            l.append(" (uid ");
            l.append(decimal_string(*uid as u64).as_str());
            l.append(")");
            l
        },
    };
    lines.push(scope);
    let package = match &f.package {
        PackageOrigin::Owned { package } => {
            let mut l = String::from_str("  package: ");
            l.append(package.as_str());
            l
        },
        PackageOrigin::Untracked => String::from_str("  package: UNTRACKED"),
        PackageOrigin::Unknown => String::from_str("  package: unknown"),
    };
    lines.push(package);
    let entries = sorted_entries(&f.metadata);
    let ghost fixed = string_views(lines@);
    let ghost g = |e: (Seq<char>, Seq<char>)| "  "@ + e.0 + ": "@ + e.1;
    let mut j: usize = 0;
    while j < entries.len()
        invariant
            j <= entries@.len(),
            g == (|e: (Seq<char>, Seq<char>)| "  "@ + e.0 + ": "@ + e.1),
            string_views(lines@) == fixed + entry_views(entries@).take(j as int).map_values(g),
        decreases entries@.len() - j,
    {
        let mut l = String::from_str("  ");
        l.append(entries[j].0.as_str());
        l.append(": ");
        l.append(entries[j].1.as_str());
        let ghost prev = string_views(lines@);
        lines.push(l);
        assert(entry_views(entries@)[j as int] == (entries@[j as int].0@, entries@[j as int].1@));
        assert(entry_views(entries@).take(j + 1).map_values(g) =~= entry_views(entries@).take(
            j as int,
        ).map_values(g).push(g(entry_views(entries@)[j as int])));
        assert(string_views(lines@) =~= prev.push(l@));
        j = j + 1;
    }
    assert(entry_views(entries@).take(entries@.len() as int) =~= entry_views(entries@));
    assert(string_views(lines@) =~= ls);
    let mut i: usize = 0;
    while i < lines.len()
        invariant
            i <= lines@.len(),
            string_views(lines@) == ls,
            out@ == start + prefixed(ls.take(i as int), prefix@),
        decreases lines@.len() - i,
    {
        assert(ls.take(i + 1).drop_last() =~= ls.take(i as int));
        assert(ls[i as int] == lines@[i as int]@);
        push_line(out, prefix, lines[i].as_str());
        assert(out@ =~= start + prefixed(ls.take(i + 1), prefix@));
        i = i + 1;
    }
    assert(ls.take(lines@.len() as int) =~= ls);
    out.append("\n");
}

fn append_blocks(out: &mut String, v: &Vec<Finding>, prefix: &str)
    ensures
        final(out)@ == old(out)@ + blocks(findings_view(v@), prefix@),
{
    let ghost start = out@;
    let mut i: usize = 0;
    while i < v.len()
        invariant
            i <= v@.len(),
            out@ == start + blocks(findings_view(v@).take(i as int), prefix@),
        decreases v@.len() - i,
    {
        assert(findings_view(v@).take(i + 1).drop_last() =~= findings_view(v@).take(i as int));
        assert(findings_view(v@)[i as int] == v@[i as int]@);
        append_finding(out, &v[i], prefix);
        assert(out@ =~= start + blocks(findings_view(v@).take(i + 1), prefix@));
        i = i + 1;
    }
    assert(findings_view(v@).take(v@.len() as int) =~= findings_view(v@));
}

/// The text report of a scan: each finding's block, or `no findings`.
pub fn render_report(findings: &Vec<Finding>) -> (r: String)
    ensures
        r@ == report(findings_view(findings@)),
{
    if findings.len() == 0 {
        return String::from_str("no findings\n");
    }
    let mut out = String::new();
    proof {
        reveal_strlit("");
        assert(""@ =~= Seq::<char>::empty());
    }
    append_blocks(&mut out, findings, "");
    assert(out@ =~= report(findings_view(findings@)));
    out
}

/// The text report of a comparison, or `no changes`.
pub fn render_diff(d: &Diff) -> (r: String)
    ensures
        r@ == diff_report(findings_view(d.added@), findings_view(d.removed@)),
{
    if d.added.len() == 0 && d.removed.len() == 0 {
        return String::from_str("no changes\n");
    }
    let mut out = String::new();
    append_blocks(&mut out, &d.added, "+ ");
    append_blocks(&mut out, &d.removed, "- ");
    out
}

} // verus!
