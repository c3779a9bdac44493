use vstd::prelude::*;

use crate::finding::{findings_view, Finding, FindingView, Scope, ScopeView};
use crate::text::{decimal, decimal_string, owned, str_eq};

verus! {

/// The result of comparing two snapshots: findings only in the new one are
/// `added`, findings only in the old one are `removed`, each list in input
/// order.
pub struct Diff {
    pub added: Vec<Finding>,
    pub removed: Vec<Finding>,
}

/// How a scope is written in a finding's identity label.
pub open spec fn scope_key(s: ScopeView) -> Seq<char> {
    match s {
        ScopeView::System => "system"@,
        ScopeView::User { uid, name } => "user:"@ + decimal(uid as nat) + ":"@ + name,
    }
}

/// A finding's target as its identity holds it: an absent target counts
/// as empty.
pub open spec fn target_text(t: Option<Seq<char>>) -> Seq<char> {
    match t {
        Some(t) => t,
        None => Seq::<char>::empty(),
    }
}

/// The identity of a finding across runs: the fields that name a
/// persistence vector, `(category, source, target, mechanism, scope)`.
/// The package owner and the metadata (line numbers among them) are left
/// out, so a change of attribution or a renumbered rule is no difference.
pub open spec fn identity(f: FindingView) -> (
    Seq<char>,
    Seq<char>,
    Seq<char>,
    Seq<char>,
    ScopeView,
) {
    (f.category, f.source, target_text(f.target), f.mechanism, f.scope)
}

/// The identities of a sequence of findings.
pub open spec fn identities(v: Seq<FindingView>) -> Seq<
    (Seq<char>, Seq<char>, Seq<char>, Seq<char>, ScopeView),
> {
    v.map_values(|f: FindingView| identity(f))
}

/// The findings of `v` whose identity occurs nowhere in `other`, in order.
pub open spec fn only_in(v: Seq<FindingView>, other: Seq<FindingView>) -> Seq<FindingView> {
    v.filter(|f: FindingView| !identities(other).contains(identity(f)))
}

/// The identity label of a finding, as it is shown:
/// `category|source|target|mechanism|scope`.
pub open spec fn key_text(f: FindingView) -> Seq<char> {
    f.category + "|"@ + f.source + "|"@ + target_text(f.target) + "|"@ + f.mechanism + "|"@
        + scope_key(f.scope)
}

/// The identity of a finding written out as one line of text. Two
/// findings are matched by their identity fields, not by this label.
pub fn diff_key(f: &Finding) -> (r: String)
    ensures
        r@ == key_text(f@),
{
    let mut s = owned(f.category.as_str());
    s.append("|");
    s.append(f.source.as_str());
    s.append("|");
    match &f.target {
        Some(t) => {
            s.append(t.as_str());
        },
        None => {},
    }
    s.append("|");
    s.append(f.mechanism.as_str());
    s.append("|");
    match &f.scope {
        Scope::System => {
            s.append("system");
        },
        Scope::User { uid, name } => {
            s.append("user:");
            s.append(decimal_string(*uid as u64).as_str());
            s.append(":");
            s.append(name.as_str());
        },
    }
    assert(s@ =~= key_text(f@));
    s
}

fn same_target(a: &Option<String>, b: &Option<String>) -> (r: bool)
    ensures
        r == (target_text(
            match a {
                Some(t) => Some(t@),
                None => None,
            },
        ) == target_text(
            match b {
                Some(t) => Some(t@),
                None => None,
            },
        )),
{
    let x: &str = match a {
        Some(t) => t.as_str(),
        None => "",
    };
    let y: &str = match b {
        Some(t) => t.as_str(),
        None => "",
    };
    proof {
        reveal_strlit("");
        assert(""@ =~= Seq::<char>::empty());
    }
    str_eq(x, y)
}

fn same_scope(a: &Scope, b: &Scope) -> (r: bool)
    ensures
        r == (a@ == b@),
{
    match (a, b) {
        (Scope::System, Scope::System) => true,
        (Scope::User { uid: u1, name: n1 }, Scope::User { uid: u2, name: n2 }) => {
            *u1 == *u2 && str_eq(n1.as_str(), n2.as_str())
        },
        _ => false,
    }
}

/// Whether two findings name the same persistence vector.
pub fn same_identity(a: &Finding, b: &Finding) -> (r: bool)
    ensures
        r == (identity(a@) == identity(b@)),
{
    str_eq(a.category.as_str(), b.category.as_str()) && str_eq(
        a.source.as_str(),
        b.source.as_str(),
    ) && same_target(&a.target, &b.target) && str_eq(a.mechanism.as_str(), b.mechanism.as_str())
        && same_scope(&a.scope, &b.scope)
}

fn occurs_in(f: &Finding, other: &Vec<Finding>) -> (b: bool)
    ensures
        b == identities(findings_view(other@)).contains(identity(f@)),
{
    let ghost ids = identities(findings_view(other@));
    let mut i: usize = 0;
    while i < other.len()
        invariant
            i <= other@.len(),
            ids == identities(findings_view(other@)),
            ids.len() == other@.len(),
            forall|j: int| 0 <= j < i ==> ids[j] != identity(f@),
        decreases other@.len() - i,
    {
        assert(ids[i as int] == identity(other@[i as int]@));
        if same_identity(&other[i], f) {
            return true;
        }
        i = i + 1;
    }
    false
}

/// For each finding of `v`, whether its identity is absent from `other`.
fn unmatched_flags(v: &Vec<Finding>, other: &Vec<Finding>) -> (r: Vec<bool>)
    ensures
        r@.len() == v@.len(),
        forall|i: int|
            0 <= i < v@.len() ==> r@[i] == !identities(findings_view(other@)).contains(
                identity(#[trigger] v@[i]@),
            ),
{
    let mut out: Vec<bool> = Vec::new();
    let mut i: usize = 0;
    while i < v.len()
        invariant
            i <= v@.len(),
            out@.len() == i,
            forall|j: int|
                0 <= j < i ==> out@[j] == !identities(findings_view(other@)).contains(
                    identity(#[trigger] v@[j]@),
                ),
        decreases v@.len() - i,
    {
        let b = occurs_in(&v[i], other);
        out.push(!b);
        i = i + 1;
    }
    out
}

/// The findings of `v` whose identity is not among `other`, in order.
fn keep_unmatched(v: Vec<Finding>, keep: &Vec<bool>, Ghost(other): Ghost<Seq<FindingView>>) -> (r:
    Vec<Finding>)
    requires
        keep@.len() == v@.len(),
        forall|i: int|
            0 <= i < v@.len() ==> keep@[i] == !identities(other).contains(
                identity(#[trigger] v@[i]@),
            ),
    ensures
        findings_view(r@) == only_in(findings_view(v@), other),
{
    let ghost all = findings_view(v@);
    let ghost pred = |f: FindingView| !identities(other).contains(identity(f));
    let ghost n = v@.len();
    let ghost orig = v@;
    let total: usize = keep.len();
    assert(n == total);
    let mut rest = v;
    let mut out: Vec<Finding> = Vec::new();
    let mut k: usize = 0;
    while rest.len() > 0
        invariant
            rest@.len() <= n,
            n <= usize::MAX,
            k == n - rest@.len(),
            all.len() == n,
            orig.len() == n,
            keep@.len() == n,
            all == findings_view(orig),
            pred == (|f: FindingView| !identities(other).contains(identity(f))),
            forall|i: int| 0 <= i < n ==> keep@[i] == pred(#[trigger] all[i]),
            findings_view(rest@) == all.skip(k as int),
            findings_view(out@) == all.take(k as int).filter(pred),
        decreases rest@.len(),
    {
        let ghost before = rest@;
        assert(findings_view(before)[0] == before[0]@);
        assert(all.skip(k as int)[0] == all[k as int]);
        let f = rest.remove(0);
        assert(f@ == all[k as int]);
        assert(findings_view(rest@) =~= findings_view(before).skip(1));
        assert(all.skip(k as int).skip(1) =~= all.skip(k + 1));
        let ghost t1 = all.take(k + 1);
        assert(t1.drop_last() =~= all.take(k as int));
        assert(t1.last() == all[k as int]);
        assert(t1.filter(pred) == if pred(all[k as int]) {
            all.take(k as int).filter(pred).push(all[k as int])
        } else {
            all.take(k as int).filter(pred)
        }) by {
            reveal(Seq::filter);
        }
        let ghost prev = findings_view(out@);
        if keep[k] {
            out.push(f);
            assert(findings_view(out@) =~= prev.push(all[k as int]));
        }
        k = k + 1;
    }
    assert(all.take(n as int) =~= all);
    out
}

/// Compare two snapshots: `added` holds the findings of `new` whose
/// identity occurs nowhere in `old`, `removed` those of `old` whose
/// identity occurs nowhere in `new`, both in input order.
pub fn diff_snapshots(old: Vec<Finding>, new: Vec<Finding>) -> (d: Diff)
    ensures
        findings_view(d.added@) == only_in(findings_view(new@), findings_view(old@)),
        findings_view(d.removed@) == only_in(findings_view(old@), findings_view(new@)),
{
    let new_flags = unmatched_flags(&new, &old);
    let old_flags = unmatched_flags(&old, &new);
    let ghost old_view = findings_view(old@);
    let ghost new_view = findings_view(new@);
    let added = keep_unmatched(new, &new_flags, Ghost(old_view));
    let removed = keep_unmatched(old, &old_flags, Ghost(new_view));
    Diff { added, removed }
}

// ─── laws ────────────────────────────────────────────────────────────────────

proof fn lemma_no_unmatched(v: Seq<FindingView>, other: Seq<FindingView>)
    requires
        forall|i: int| 0 <= i < v.len() ==> identities(other).contains(#[trigger] identity(v[i])),
    ensures
        only_in(v, other) == Seq::<FindingView>::empty(),
{
    let pred = |f: FindingView| !identities(other).contains(identity(f));
    assert(v.all(|x: FindingView| !pred(x)));
    v.lemma_all_neg_filter_empty(pred);
    assert(only_in(v, other) =~= Seq::<FindingView>::empty());
}

/// Comparing a snapshot with itself shows nothing added and nothing
/// removed.
pub proof fn identical_snapshots_have_no_diff(v: Seq<FindingView>)
    ensures
        only_in(v, v) == Seq::<FindingView>::empty(),
{
    assert forall|i: int| 0 <= i < v.len() implies identities(v).contains(
        #[trigger] identity(v[i]),
    ) by {
        assert(identities(v)[i] == identity(v[i]));
    }
    lemma_no_unmatched(v, v);
}

/// Two findings that name the same persistence vector (category, source,
/// target, mechanism, scope) have the same identity, whatever their package
/// status and metadata.
pub proof fn identity_ignores_package_and_metadata(f: FindingView, g: FindingView)
    requires
        f.category == g.category,
        f.source == g.source,
        f.target == g.target,
        f.mechanism == g.mechanism,
        f.scope == g.scope,
    ensures
        identity(f) == identity(g),
{
}

/// Snapshots whose findings, taken in order, differ at most in package
/// status and metadata (a renumbered rule, a file that became owned) show
/// no difference either way.
pub proof fn attribution_and_metadata_changes_are_no_diff(
    old: Seq<FindingView>,
    new: Seq<FindingView>,
)
    requires
        old.len() == new.len(),
        forall|i: int|
            0 <= i < old.len() ==> (#[trigger] old[i]).category == new[i].category
                && old[i].source == new[i].source && old[i].target == new[i].target
                && old[i].mechanism == new[i].mechanism && old[i].scope == new[i].scope,
    ensures
        only_in(new, old) == Seq::<FindingView>::empty(),
        only_in(old, new) == Seq::<FindingView>::empty(),
{
    assert forall|i: int| 0 <= i < new.len() implies identities(old).contains(
        #[trigger] identity(new[i]),
    ) by {
        assert(old[i].category == new[i].category);
        assert(identities(old)[i] == identity(old[i]));
    }
    lemma_no_unmatched(new, old);
    assert forall|i: int| 0 <= i < old.len() implies identities(new).contains(
        #[trigger] identity(old[i]),
    ) by {
        assert(old[i].category == new[i].category);
        assert(identities(new)[i] == identity(new[i]));
    }
    lemma_no_unmatched(old, new);
}

/// Findings alike in all but scope (the same file in two users' scopes)
/// have different identities, so each shows up in a diff on its own.
pub proof fn scope_separates_identity(f: FindingView, g: FindingView)
    requires
        f.category == g.category,
        f.source == g.source,
        f.target == g.target,
        f.mechanism == g.mechanism,
        f.scope != g.scope,
    ensures
        identity(f) != identity(g),
{
}

/// A finding of the new snapshot whose identity fields match those of no
/// finding of the old one is reported as added, and one of the old
/// snapshot matched by no new finding is reported as removed: the fields
/// are compared one by one, so no two different vectors can stand for
/// each other.
pub proof fn unmatched_vectors_are_reported(
    old: Seq<FindingView>,
    new: Seq<FindingView>,
    f: FindingView,
)
    ensures
        new.contains(f) && (forall|j: int| 0 <= j < old.len() ==> identity(#[trigger] old[j]) != identity(f))
            ==> only_in(new, old).contains(f),
        old.contains(f) && (forall|j: int| 0 <= j < new.len() ==> identity(#[trigger] new[j]) != identity(f))
            ==> only_in(old, new).contains(f),
{
    let p1 = |x: FindingView| !identities(old).contains(identity(x));
    let p2 = |x: FindingView| !identities(new).contains(identity(x));
    broadcast use vstd::seq_lib::group_filter_ensures;

    if new.contains(f) && (forall|j: int| 0 <= j < old.len() ==> identity(#[trigger] old[j]) != identity(f)) {
        let i = choose|i: int| 0 <= i < new.len() && new[i] == f;
        if identities(old).contains(identity(f)) {
            let j = choose|j: int| 0 <= j < identities(old).len() && identities(old)[j] == identity(f);
            assert(identities(old)[j] == identity(old[j]));
        }
        assert(p1(new[i]));
    }
    if old.contains(f) && (forall|j: int| 0 <= j < new.len() ==> identity(#[trigger] new[j]) != identity(f)) {
        let i = choose|i: int| 0 <= i < old.len() && old[i] == f;
        if identities(new).contains(identity(f)) {
            let j = choose|j: int| 0 <= j < identities(new).len() && identities(new)[j] == identity(f);
            assert(identities(new)[j] == identity(new[j]));
        }
        assert(p2(old[i]));
    }
}

/// Two findings have the same identity exactly when they agree on
/// category, source, target (an absent target counting as empty),
/// mechanism and scope.
pub proof fn identity_is_the_vector_fields(f: FindingView, g: FindingView)
    ensures
        identity(f) == identity(g) <==> (f.category == g.category && f.source == g.source
            && (match f.target {
            Some(t) => t,
            None => Seq::<char>::empty(),
        }) == (match g.target {
            Some(t) => t,
            None => Seq::<char>::empty(),
        }) && f.mechanism == g.mechanism && f.scope == g.scope),
{
}

/// A finding is reported as added exactly when it is a finding of `new`
/// and no finding of `old` agrees with it on category, source, target (an
/// absent target counting as empty), mechanism and scope. With the
/// snapshots swapped, the same holds of the removed findings.
pub proof fn added_iff_no_old_finding_alike(
    old: Seq<FindingView>,
    new: Seq<FindingView>,
    f: FindingView,
)
    ensures
        only_in(new, old).contains(f) <==> (new.contains(f) && forall|j: int|
            0 <= j < old.len() ==> !((#[trigger] old[j]).category == f.category && old[j].source
                == f.source && (match old[j].target {
                Some(t) => t,
                None => Seq::<char>::empty(),
            }) == (match f.target {
                Some(t) => t,
                None => Seq::<char>::empty(),
            }) && old[j].mechanism == f.mechanism && old[j].scope == f.scope)),
{
    broadcast use vstd::seq_lib::group_filter_ensures;

    let pred = |x: FindingView| !identities(old).contains(identity(x));
    if only_in(new, old).contains(f) {
        new.lemma_filter_contains_rev(pred, f);
        let i = choose|i: int| 0 <= i < only_in(new, old).len() && only_in(new, old)[i] == f;
        assert(pred(only_in(new, old)[i]));
        assert forall|j: int| 0 <= j < old.len() implies !((#[trigger] old[j]).category
            == f.category && old[j].source == f.source && (match old[j].target {
            Some(t) => t,
            None => Seq::<char>::empty(),
        }) == (match f.target {
            Some(t) => t,
            None => Seq::<char>::empty(),
        }) && old[j].mechanism == f.mechanism && old[j].scope == f.scope) by {
            assert(identities(old)[j] == identity(old[j]));
            if identity(old[j]) == identity(f) {
                assert(identities(old).contains(identity(f)));
            }
        }
    }
    if new.contains(f) && (forall|j: int|
        0 <= j < old.len() ==> !((#[trigger] old[j]).category == f.category && old[j].source
            == f.source && (match old[j].target {
            Some(t) => t,
            None => Seq::<char>::empty(),
        }) == (match f.target {
            Some(t) => t,
            None => Seq::<char>::empty(),
        }) && old[j].mechanism == f.mechanism && old[j].scope == f.scope)) {
        let i = choose|i: int| 0 <= i < new.len() && new[i] == f;
        if identities(old).contains(identity(f)) {
            let j = choose|j: int|
                0 <= j < identities(old).len() && identities(old)[j] == identity(f);
            assert(identities(old)[j] == identity(old[j]));
            assert(old[j].category == f.category);
        }
        assert(pred(new[i]));
    }
}

} // verus!
