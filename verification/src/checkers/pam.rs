use vstd::prelude::*;

use crate::checker::Checker;

use crate::finding::{
    findings_view, per_line, unattributed, Finding, FindingView, Metadata, PackageOrigin, Scope,
    ScopeView, StrMap,
};
use crate::path::{file_name, file_name_of};
use crate::text::{
    chars_eq_str, chars_of, decimal, decimal_string, first_char, first_char_exec, first_ws,
    first_ws_exec, lemma_first_char, lemma_first_ws, lemma_skip_ascii_ws, lines, lines_of, owned,
    skip_ascii_ws, skip_whitespace, slice_chars, string_of, trim, trim_chars, views, is_ws,
    lemma_trim_parts,
};

verus! {

/// The checker that surveys `/etc/pam.d`.
pub struct PamChecker;

impl Checker for PamChecker {
    fn name(&self) -> (r: &'static str)
        ensures
            r@ == "pam"@,
    {
        "pam"
    }
}

/// The directory of PAM service files.
pub const PAM_DIR: &'static str = "/etc/pam.d";

/// One PAM rule: `type control module-path [args...]`.
#[derive(Debug)]
pub struct PamRule {
    pub kind: String,
    pub control: String,
    pub module: String,
    pub args: String,
}

pub struct PamRuleView {
    pub kind: Seq<char>,
    pub control: Seq<char>,
    pub module: Seq<char>,
    pub args: Seq<char>,
}

impl View for PamRule {
    type V = PamRuleView;

    open spec fn view(&self) -> PamRuleView {
        PamRuleView {
            kind: self.kind@,
            control: self.control@,
            module: self.module@,
            args: self.args@,
        }
    }
}

/// The recognized PAM rule types; the leading-dash forms skip a missing
/// module silently.
pub open spec fn is_pam_type(k: Seq<char>) -> bool {
    ||| k == "auth"@
    ||| k == "account"@
    ||| k == "password"@
    ||| k == "session"@
    ||| k == "-auth"@
    ||| k == "-account"@
    ||| k == "-password"@
    ||| k == "-session"@
}

fn is_pam_type_exec(k: &[char]) -> (b: bool)
    ensures
        b == is_pam_type(k@),
{
    chars_eq_str(k, "auth") || chars_eq_str(k, "account") || chars_eq_str(k, "password")
        || chars_eq_str(k, "session") || chars_eq_str(k, "-auth") || chars_eq_str(k, "-account")
        || chars_eq_str(k, "-password") || chars_eq_str(k, "-session")
}

/// The rule a PAM line holds, if any. The trimmed line splits into a type
/// (up to the first whitespace; one of the recognized types), a control
/// (a bracketed `[...]` expression or a single token), a module path (up to
/// the next whitespace) and the trimmed rest as arguments. Blank lines,
/// comments, unknown types and lines without a module are not rules.
pub open spec fn pam_rule(line: Seq<char>) -> Option<PamRuleView> {
    let t = trim(line);
    if t.len() == 0 || t[0] == '#' {
        None
    } else {
        match first_ws(t, 0) {
            None => None,
            Some(te) => {
                let kind = t.subrange(0, te);
                if !is_pam_type(kind) {
                    None
                } else {
                    let p = skip_ascii_ws(t, te);
                    let ce = if p < t.len() && t[p] == '[' {
                        match first_char(t, ']', p) {
                            Some(r) => Some(r + 1),
                            None => None,
                        }
                    } else {
                        first_ws(t, p)
                    };
                    match ce {
                        None => None,
                        Some(ce) => {
                            let q = skip_ascii_ws(t, ce);
                            if q >= t.len() {
                                None
                            } else {
                                let me = match first_ws(t, q) {
                                    Some(m) => m,
                                    None => t.len() as int,
                                };
                                Some(
                                    PamRuleView {
                                        kind,
                                        control: t.subrange(p, ce),
                                        module: t.subrange(q, me),
                                        args: trim(t.subrange(me, t.len() as int)),
                                    },
                                )
                            }
                        },
                    }
                }
            },
        }
    }
}

proof fn lemma_first_ws_is(s: Seq<char>, i: int, k: int)
    requires
        0 <= i <= k <= s.len(),
        forall|j: int| i <= j < k ==> !is_ws(#[trigger] s[j]),
        k < s.len() ==> is_ws(s[k]),
    ensures
        first_ws(s, i) == if k < s.len() {
            Some(k)
        } else {
            None::<int>
        },
{
    lemma_first_ws(s, i);
    match first_ws(s, i) {
        Some(x) => {
            if x < k {
                assert(!is_ws(s[x]));
            }
            if x > k {
                assert(!is_ws(s[k]));
            }
        },
        None => {
            if k < s.len() {
                assert(!is_ws(s[k]));
            }
        },
    }
}

proof fn lemma_rule_of_parts(
    kind: Seq<char>,
    control: Seq<char>,
    module: Seq<char>,
    args: Seq<char>,
)
    requires
        kind.len() > 0,
        kind[0] != '#',
        forall|j: int| 0 <= j < kind.len() ==> !is_ws(#[trigger] kind[j]),
        is_pam_type(kind),
        control.len() > 0,
        control[0] != '[',
        forall|j: int| 0 <= j < control.len() ==> !is_ws(#[trigger] control[j]),
        module.len() > 0,
        forall|j: int| 0 <= j < module.len() ==> !is_ws(#[trigger] module[j]),
        args.len() == 0 || (!is_ws(args[0]) && !is_ws(args.last())),
    ensures
        pam_rule(
            kind + seq![' '] + control + seq![' '] + module + if args.len() == 0 {
                Seq::<char>::empty()
            } else {
                seq![' '] + args
            },
        ) == Some(PamRuleView { kind, control, module, args }),
{
    let tail: Seq<char> = if args.len() == 0 {
        Seq::<char>::empty()
    } else {
        seq![' '] + args
    };
    let line = kind + seq![' '] + control + seq![' '] + module + tail;
    let nk = kind.len() as int;
    let nc = control.len() as int;
    let nm = module.len() as int;
    assert(line.len() == nk + nc + nm + 2 + tail.len());
    // The line is already trimmed.
    assert(line[0] == kind[0]);
    if args.len() == 0 {
        assert(line.last() == module.last());
    } else {
        assert(line.last() == args.last());
    }
    lemma_trim_parts(Seq::<char>::empty(), line, Seq::<char>::empty());
    assert(Seq::<char>::empty() + line + Seq::<char>::empty() =~= line);
    let t = trim(line);
    assert(t == line);
    // The type ends at the first space.
    assert forall|j: int| 0 <= j < nk implies !is_ws(#[trigger] t[j]) by {
        assert(t[j] == kind[j]);
    }
    assert(t[nk] == ' ');
    lemma_first_ws_is(t, 0, nk);
    assert(t.subrange(0, nk) =~= kind);
    // The control starts after that space.
    let p = nk + 1;
    assert(t[p] == control[0]);
    assert(skip_ascii_ws(t, p) == p);
    assert(skip_ascii_ws(t, nk) == p);
    let ce = p + nc;
    assert forall|j: int| p <= j < ce implies !is_ws(#[trigger] t[j]) by {
        assert(t[j] == control[j - p]);
    }
    assert(t[ce] == ' ');
    lemma_first_ws_is(t, p, ce);
    assert(t.subrange(p, ce) =~= control);
    // The module starts after the next space.
    let q = ce + 1;
    assert(t[q] == module[0]);
    assert(skip_ascii_ws(t, q) == q);
    assert(skip_ascii_ws(t, ce) == q);
    let me = q + nm;
    assert forall|j: int| q <= j < me implies !is_ws(#[trigger] t[j]) by {
        assert(t[j] == module[j - q]);
    }
    assert(t.subrange(q, me) =~= module);
    if args.len() == 0 {
        lemma_first_ws_is(t, q, me);
        assert(t.subrange(me, t.len() as int) =~= Seq::<char>::empty());
        lemma_trim_parts(Seq::<char>::empty(), Seq::<char>::empty(), Seq::<char>::empty());
        assert(Seq::<char>::empty() + Seq::<char>::empty() + Seq::<char>::empty() =~= Seq::<
            char,
        >::empty());
        assert(trim(t.subrange(me, t.len() as int)) == args);
    } else {
        assert(t[me] == ' ');
        lemma_first_ws_is(t, q, me);
        assert(t.subrange(me, t.len() as int) =~= seq![' '] + args + Seq::<char>::empty());
        assert forall|j: int| 0 <= j < 1 implies is_ws(#[trigger] seq![' '][j]) by {}
        lemma_trim_parts(seq![' '], args, Seq::<char>::empty());
        assert(trim(t.subrange(me, t.len() as int)) == args);
    }
}

/// A line `type control module [args]` whose type is one of `auth`,
/// `account`, `password` and `session` or their dash forms, whose control
/// is a single token and whose module is a word, parses to the rule of that
/// type, control, module and arguments.
pub proof fn typed_line_parses_to_its_rule(
    kind: Seq<char>,
    control: Seq<char>,
    module: Seq<char>,
    args: Seq<char>,
)
    requires
        kind == "auth"@ || kind == "account"@ || kind == "password"@ || kind == "session"@
            || kind == "-auth"@ || kind == "-account"@ || kind == "-password"@ || kind
            == "-session"@,
        control.len() > 0,
        control[0] != '[',
        forall|j: int| 0 <= j < control.len() ==> !is_ws(#[trigger] control[j]),
        module.len() > 0,
        forall|j: int| 0 <= j < module.len() ==> !is_ws(#[trigger] module[j]),
        args.len() == 0 || (!is_ws(args[0]) && !is_ws(args.last())),
    ensures
        pam_rule(
            kind + seq![' '] + control + seq![' '] + module + if args.len() == 0 {
                Seq::<char>::empty()
            } else {
                seq![' '] + args
            },
        ) == Some(PamRuleView { kind, control, module, args }),
{
    assert(kind.len() > 0 && kind[0] != '#' && forall|j: int|
        0 <= j < kind.len() ==> !is_ws(#[trigger] kind[j])) by {
        reveal_strlit("auth");
        reveal_strlit("account");
        reveal_strlit("password");
        reveal_strlit("session");
        reveal_strlit("-auth");
        reveal_strlit("-account");
        reveal_strlit("-password");
        reveal_strlit("-session");
    }
    assert(is_pam_type(kind));
    lemma_rule_of_parts(kind, control, module, args);
}

/// Parse one PAM line into `type control module-path [args...]`.
pub fn parse_pam_line(line: &str) -> (r: Option<PamRule>)
    ensures
        match r {
            Some(rule) => pam_rule(line@) == Some(rule@),
            None => pam_rule(line@) is None,
        },
{
    let raw = chars_of(line);
    let t = trim_chars(raw.as_slice());
    let n = t.len();
    if n == 0 || t[0] == '#' {
        return None;
    }
    let te = match first_ws_exec(t.as_slice(), 0) {
        Some(k) => k,
        None => return None,
    };
    proof {
        lemma_first_ws(t@, 0);
    }
    let kind = slice_chars(t.as_slice(), 0, te);
    if !is_pam_type_exec(kind.as_slice()) {
        return None;
    }
    let p = skip_whitespace(t.as_slice(), te);
    let ce = if p < n && t[p] == '[' {
        match first_char_exec(t.as_slice(), ']', p) {
            Some(r) => {
                proof {
                    lemma_first_char(t@, ']', p as int);
                }
                r + 1
            },
            None => return None,
        }
    } else {
        match first_ws_exec(t.as_slice(), p) {
            Some(r) => {
                proof {
                    lemma_first_ws(t@, p as int);
                }
                r
            },
            None => return None,
        }
    };
    let control = slice_chars(t.as_slice(), p, ce);
    let q = skip_whitespace(t.as_slice(), ce);
    if q >= n {
        return None;
    }
    let me = match first_ws_exec(t.as_slice(), q) {
        Some(m) => {
            proof {
                lemma_first_ws(t@, q as int);
            }
            m
        },
        None => n,
    };
    let module = slice_chars(t.as_slice(), q, me);
    let rest = slice_chars(t.as_slice(), me, n);
    let args = trim_chars(rest.as_slice());
    Some(
        PamRule {
            kind: string_of(kind.as_slice()),
            control: string_of(control.as_slice()),
            module: string_of(module.as_slice()),
            args: string_of(args.as_slice()),
        },
    )
}

/// The service a PAM file defines: its file name, or `?`.
pub open spec fn pam_service(source: Seq<char>) -> Seq<char> {
    match file_name(source) {
        Some(n) => n,
        None => "?"@,
    }
}

/// The finding for line `i` of a PAM file, if it holds a rule.
pub open spec fn pam_line_finding(source: Seq<char>, i: int, line: Seq<char>) -> Seq<FindingView> {
    match pam_rule(line) {
        None => Seq::empty(),
        Some(rule) => {
            let service = pam_service(source);
            let base = Map::empty().insert("service"@, service).insert("type"@, rule.kind).insert(
                "control"@,
                rule.control,
            ).insert("line"@, decimal((i + 1) as nat));
            let metadata = if rule.args.len() > 0 {
                base.insert("module_args"@, rule.args)
            } else {
                base
            };
            seq![
                unattributed(
                    "pam"@,
                    "PAM rule ("@ + service + "/"@ + rule.kind + ") — runs at authentication time"@,
                    source,
                    Some(rule.module),
                    ScopeView::System,
                    metadata,
                ),
            ]
        },
    }
}

/// The findings for a PAM service file at `source` holding `content`: one
/// per rule line.
pub fn scan_pam_file(content: &str, source: &str) -> (r: Vec<Finding>)
    ensures
        findings_view(r@) == per_line(
            lines(content@),
            |i: int, line: Seq<char>| pam_line_finding(source@, i, line),
        ),
{
    let src = chars_of(source);
    let service: String = match file_name_of(src.as_slice()) {
        Some(n) => string_of(n.as_slice()),
        None => owned("?"),
    };
    proof {
        reveal_strlit("?");
    }
    assert(service@ == pam_service(source@));
    let chars = chars_of(content);
    let ls = lines_of(chars.as_slice());
    let ghost f = |i: int, line: Seq<char>| pam_line_finding(source@, i, line);
    let mut findings: Vec<Finding> = Vec::new();
    let mut i: usize = 0;
    while i < ls.len()
        invariant
            i <= ls@.len(),
            views(ls@) == lines(content@),
            service@ == pam_service(source@),
            f == (|i: int, line: Seq<char>| pam_line_finding(source@, i, line)),
            findings_view(findings@) == per_line(views(ls@).take(i as int), f),
        decreases ls@.len() - i,
    {
        let ghost prev = findings_view(findings@);
        assert(views(ls@).take(i + 1).drop_last() =~= views(ls@).take(i as int));
        assert(views(ls@)[i as int] == ls@[i as int]@);
        let line = string_of(ls[i].as_slice());
        match parse_pam_line(line.as_str()) {
            None => {
                assert(findings_view(findings@) =~= prev + f(i as int, ls@[i as int]@));
            },
            Some(rule) => {
                let mut metadata: Metadata = StrMap::new();
                metadata.insert(owned("service"), service.clone());
                metadata.insert(owned("type"), rule.kind.clone());
                metadata.insert(owned("control"), rule.control.clone());
                metadata.insert(owned("line"), decimal_string((i + 1) as u64));
                if !rule.args.as_str().is_empty() {
                    metadata.insert(owned("module_args"), rule.args.clone());
                }
                let mut mechanism = owned("PAM rule (");
                mechanism.append(service.as_str());
                mechanism.append("/");
                mechanism.append(rule.kind.as_str());
                mechanism.append(") — runs at authentication time");
                let finding = Finding {
                    category: owned("pam"),
                    mechanism,
                    source: owned(source),
                    target: Some(rule.module),
                    scope: Scope::System,
                    package: PackageOrigin::Unknown,
                    metadata,
                };
                findings.push(finding);
                proof {
                    let rv = pam_rule(ls@[i as int]@).unwrap();
                    assert(rule.args@.len() > 0 <==> rv.args.len() > 0);
                    assert(findings_view(findings@) =~= prev + f(i as int, ls@[i as int]@));
                }
            },
        }
        i = i + 1;
    }
    assert(views(ls@).take(ls@.len() as int) =~= views(ls@));
    findings
}

} // verus!
