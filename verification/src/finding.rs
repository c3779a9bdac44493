use vstd::prelude::*;

use crate::text::str_eq;

verus! {

// ─── string-keyed maps ───────────────────────────────────────────────────────

/// A map from strings to values, keys unique. Serves as a finding's metadata
/// (`StrMap<String>`) and as the sections and documents of INI-like files.
#[derive(Debug)]
pub struct StrMap<V> {
    entries: Vec<(String, V)>,
}

impl<V> StrMap<V> {
    #[verifier::type_invariant]
    spec fn keys_unique(&self) -> bool {
        forall|i: int, j: int|
            0 <= i < self.entries@.len() && 0 <= j < self.entries@.len() && i != j
                ==> #[trigger] self.entries@[i].0@ != #[trigger] self.entries@[j].0@
    }

    spec fn has_at(&self, k: Seq<char>, i: int) -> bool {
        0 <= i < self.entries@.len() && self.entries@[i].0@ == k
    }
}

impl<V: DeepView> StrMap<V> {

    /// The keys with their values, each value taken deeply.
    pub closed spec fn map(&self) -> Map<Seq<char>, V::V> {
        Map::new(
            |k: Seq<char>| exists|i: int| self.has_at(k, i),
            |k: Seq<char>| self.entries@[choose|i: int| self.has_at(k, i)].1.deep_view(),
        )
    }

    proof fn lemma_at(&self, i: int)
        requires
            self.keys_unique(),
            0 <= i < self.entries@.len(),
        ensures
            self.map().contains_key(self.entries@[i].0@),
            self.map()[self.entries@[i].0@] == self.entries@[i].1.deep_view(),
    {
        let k = self.entries@[i].0@;
        assert(self.has_at(k, i));
        let j = choose|j: int| self.has_at(k, j);
        assert(j == i);
    }

    /// An empty map.
    pub fn new() -> (r: Self)
        ensures
            r@ == Map::<Seq<char>, V::V>::empty(),
    {
        let r = StrMap { entries: Vec::new() };
        assert(r.map() =~= Map::<Seq<char>, V::V>::empty());
        r
    }

    /// The index of `k`, if present.
    fn index_of(&self, k: &str) -> (r: Option<usize>)
        ensures
            match r {
                Some(i) => self.has_at(k@, i as int),
                None => forall|i: int| !self.has_at(k@, i),
            },
    {
        let mut i: usize = 0;
        while i < self.entries.len()
            invariant
                i <= self.entries@.len(),
                forall|j: int| 0 <= j < i ==> !self.has_at(k@, j),
            decreases self.entries@.len() - i,
        {
            if str_eq(self.entries[i].0.as_str(), k) {
                return Some(i);
            }
            i = i + 1;
        }
        None
    }

    /// Whether `k` is a key.
    pub fn contains_key(&self, k: &str) -> (r: bool)
        ensures
            r == self@.contains_key(k@),
    {
        proof {
            use_type_invariant(self);
        }
        match self.index_of(k) {
            Some(i) => {
                proof {
                    self.lemma_at(i as int);
                }
                true
            },
            None => false,
        }
    }

    /// The value under `k`, if present.
    pub fn get(&self, k: &str) -> (r: Option<&V>)
        ensures
            match r {
                Some(v) => self@.contains_key(k@) && self@[k@] == v.deep_view(),
                None => !self@.contains_key(k@),
            },
    {
        proof {
            use_type_invariant(self);
        }
        match self.index_of(k) {
            Some(i) => {
                proof {
                    self.lemma_at(i as int);
                }
                Some(&self.entries[i].1)
            },
            None => None,
        }
    }

    /// Sets the value under `k`, replacing any earlier one.
    pub fn insert(&mut self, k: String, v: V)
        ensures
            final(self)@ == old(self)@.insert(k@, v.deep_view()),
    {
        proof {
            use_type_invariant(&*self);
        }
        let ghost old_self = *self;
        match self.index_of(k.as_str()) {
            Some(i) => {
                let ghost kk = k@;
                let ghost vv = v.deep_view();
                let mut entries: Vec<(String, V)> = Vec::new();
                std::mem::swap(&mut entries, &mut self.entries);
                entries.set(i, (k, v));
                self.entries = entries;
                proof {
                    assert forall|key: Seq<char>| #![auto]
                        self.map().contains_key(key) == old_self.map().insert(
                            kk,
                            vv,
                        ).contains_key(key) by {
                        if exists|j: int| old_self.has_at(key, j) {
                            let j = choose|j: int| old_self.has_at(key, j);
                            if j == i {
                                assert(self.has_at(key, j));
                            } else {
                                assert(self.has_at(key, j));
                            }
                        }
                        if exists|j: int| self.has_at(key, j) {
                            let j = choose|j: int| self.has_at(key, j);
                            if j != i {
                                assert(old_self.has_at(key, j));
                            }
                        }
                    }
                    assert forall|key: Seq<char>| #[trigger]
                        self.map().contains_key(key) implies self.map()[key] == old_self.map().insert(
                            kk,
                            vv,
                        )[key] by {
                        let j = choose|j: int| self.has_at(key, j);
                        self.lemma_at(j);
                        if j != i {
                            old_self.lemma_at(j);
                        }
                    }
                    assert(self.map() =~= old_self.map().insert(kk, vv));
                }
            },
            None => {
                let ghost kk = k@;
                let ghost vv = v.deep_view();
                let mut entries: Vec<(String, V)> = Vec::new();
                std::mem::swap(&mut entries, &mut self.entries);
                entries.push((k, v));
                proof {
                    let n = old_self.entries@.len() as int;
                    assert forall|a: int, b: int|
                        0 <= a < entries@.len() && 0 <= b < entries@.len() && a != b
                            implies #[trigger] entries@[a].0@ != #[trigger] entries@[b].0@ by {
                        if a == n {
                            assert(!old_self.has_at(kk, b));
                        } else if b == n {
                            assert(!old_self.has_at(kk, a));
                        } else {
                            assert(old_self.entries@[a] == entries@[a]);
                            assert(old_self.entries@[b] == entries@[b]);
                        }
                    }
                }
                self.entries = entries;
                proof {
                    let n = old_self.entries@.len() as int;
                    assert forall|key: Seq<char>| #![auto]
                        self.map().contains_key(key) == old_self.map().insert(
                            kk,
                            vv,
                        ).contains_key(key) by {
                        if exists|j: int| old_self.has_at(key, j) {
                            let j = choose|j: int| old_self.has_at(key, j);
                            assert(self.has_at(key, j));
                        }
                        if key == kk {
                            assert(self.has_at(key, n));
                        }
                        if exists|j: int| self.has_at(key, j) {
                            let j = choose|j: int| self.has_at(key, j);
                            if j != n {
                                assert(old_self.has_at(key, j));
                            }
                        }
                    }
                    assert forall|key: Seq<char>| #[trigger]
                        self.map().contains_key(key) implies self.map()[key] == old_self.map().insert(
                            kk,
                            vv,
                        )[key] by {
                        let j = choose|j: int| self.has_at(key, j);
                        self.lemma_at(j);
                        if j != n {
                            old_self.lemma_at(j);
                        }
                    }
                    assert(self.map() =~= old_self.map().insert(kk, vv));
                }
            },
        }
    }
}

impl<V: DeepView> StrMap<V> {
    /// Removes `k`, handing back its value.
    pub fn remove(&mut self, k: &str) -> (r: Option<V>)
        ensures
            final(self)@ == old(self)@.remove(k@),
            match r {
                Some(v) => old(self)@.contains_key(k@) && old(self)@[k@] == v.deep_view(),
                None => !old(self)@.contains_key(k@),
            },
    {
        proof {
            use_type_invariant(&*self);
        }
        let ghost old_self = *self;
        match self.index_of(k) {
            Some(i) => {
                proof {
                    old_self.lemma_at(i as int);
                }
                let mut entries: Vec<(String, V)> = Vec::new();
                std::mem::swap(&mut entries, &mut self.entries);
                let (_key, v) = entries.remove(i);
                proof {
                    assert forall|a: int, b: int|
                        0 <= a < entries@.len() && 0 <= b < entries@.len() && a != b
                            implies #[trigger] entries@[a].0@ != #[trigger] entries@[b].0@ by {
                        let oa = if a < i { a } else { a + 1 };
                        let ob = if b < i { b } else { b + 1 };
                        assert(entries@[a] == old_self.entries@[oa]);
                        assert(entries@[b] == old_self.entries@[ob]);
                    }
                }
                self.entries = entries;
                proof {
                    assert forall|key: Seq<char>| #![auto]
                        self.map().contains_key(key) == old_self.map().remove(
                            k@,
                        ).contains_key(key) by {
                        if exists|j: int| old_self.has_at(key, j) {
                            let j = choose|j: int| old_self.has_at(key, j);
                            if j < i {
                                assert(self.has_at(key, j));
                            } else if j > i {
                                assert(self.has_at(key, j - 1));
                            }
                        }
                        if exists|j: int| self.has_at(key, j) {
                            let j = choose|j: int| self.has_at(key, j);
                            let oj = if j < i { j } else { j + 1 };
                            assert(old_self.has_at(key, oj));
                            assert(oj != i);
                        }
                    }
                    assert forall|key: Seq<char>| #[trigger]
                        self.map().contains_key(key) implies self.map()[key] == old_self.map().remove(
                            k@,
                        )[key] by {
                        let j = choose|j: int| self.has_at(key, j);
                        self.lemma_at(j);
                        let oj = if j < i { j } else { j + 1 };
                        assert(old_self.entries@[oj] == self.entries@[j]);
                        old_self.lemma_at(oj);
                    }
                    assert(self.map() =~= old_self.map().remove(k@));
                }
                Some(v)
            },
            None => {
                proof {
                    assert(old_self.map() =~= old_self.map().remove(k@));
                }
                None
            },
        }
    }

    /// The number of keys.
    pub fn len(&self) -> (n: usize)
        ensures
            n == self@.len(),
    {
        proof {
            use_type_invariant(self);
            let keys = self.entries@.map_values(|e: (String, V)| e.0@);
            assert(keys.no_duplicates()) by {
                assert forall|a: int, b: int|
                    0 <= a < keys.len() && 0 <= b < keys.len() && a != b implies keys[a]
                    != keys[b] by {
                    assert(keys[a] == self.entries@[a].0@);
                    assert(keys[b] == self.entries@[b].0@);
                }
            }
            keys.unique_seq_to_set();
            assert forall|key: Seq<char>| #[trigger]
                keys.to_set().contains(key) == self.map().dom().contains(key) by {
                if keys.to_set().contains(key) {
                    let j = choose|j: int| 0 <= j < keys.len() && keys[j] == key;
                    assert(self.has_at(key, j));
                }
                if self.map().dom().contains(key) {
                    let j = choose|j: int| self.has_at(key, j);
                    assert(keys[j] == key);
                }
            }
            assert(keys.to_set() =~= self.map().dom());
        }
        self.entries.len()
    }

    /// The entries, in the order their keys were first inserted.
    pub fn entries(&self) -> (r: &Vec<(String, V)>)
        ensures
            forall|i: int|
                0 <= i < r@.len() ==> self@.contains_key(#[trigger] r@[i].0@) && self@[r@[i].0@]
                    == r@[i].1.deep_view(),
            forall|k: Seq<char>|
                #[trigger] self@.contains_key(k) ==> exists|i: int|
                    0 <= i < r@.len() && r@[i].0@ == k,
            forall|i: int, j: int|
                0 <= i < r@.len() && 0 <= j < r@.len() && i != j ==> #[trigger] r@[i].0@
                    != #[trigger] r@[j].0@,
    {
        proof {
            use_type_invariant(self);
            assert forall|i: int| 0 <= i < self.entries@.len() implies self.map().contains_key(
                #[trigger] self.entries@[i].0@,
            ) && self.map()[self.entries@[i].0@] == self.entries@[i].1.deep_view() by {
                self.lemma_at(i);
            }
            assert forall|k: Seq<char>| #[trigger] self.map().contains_key(k) implies exists|i: int|
                0 <= i < self.entries@.len() && self.entries@[i].0@ == k by {
                let j = choose|j: int| self.has_at(k, j);
                assert(self.has_at(k, j));
            }
        }
        &self.entries
    }
}

impl<V: DeepView> DeepView for StrMap<V> {
    type V = Map<Seq<char>, V::V>;

    open spec fn deep_view(&self) -> Map<Seq<char>, V::V> {
        self.map()
    }
}

impl<V: DeepView> View for StrMap<V> {
    type V = Map<Seq<char>, V::V>;

    open spec fn view(&self) -> Map<Seq<char>, V::V> {
        self.map()
    }
}

/// A finding's checker-specific extras: key → value.
pub type Metadata = StrMap<String>;

// ─── findings ────────────────────────────────────────────────────────────────

/// One persistence entry found on the host.
#[derive(Debug)]
pub struct Finding {
    pub category: String,
    pub mechanism: String,
    /// The file that defines the persistence.
    pub source: String,
    /// What runs: a command, schedule, listen address, and the like.
    pub target: Option<String>,
    pub scope: Scope,
    pub package: PackageOrigin,
    pub metadata: Metadata,
}

/// Whether a finding applies to the whole system or to one user.
#[derive(Debug)]
pub enum Scope {
    System,
    User { uid: u32, name: String },
}

/// Which package, if any, owns a finding's source.
#[derive(Debug)]
pub enum PackageOrigin {
    Owned { package: String },
    Untracked,
    Unknown,
}

pub enum ScopeView {
    System,
    User { uid: u32, name: Seq<char> },
}

pub enum OriginView {
    Owned { package: Seq<char> },
    Untracked,
    Unknown,
}

pub struct FindingView {
    pub category: Seq<char>,
    pub mechanism: Seq<char>,
    pub source: Seq<char>,
    pub target: Option<Seq<char>>,
    pub scope: ScopeView,
    pub package: OriginView,
    pub metadata: Map<Seq<char>, Seq<char>>,
}

impl View for Scope {
    type V = ScopeView;

    open spec fn view(&self) -> ScopeView {
        match self {
            Scope::System => ScopeView::System,
            Scope::User { uid, name } => ScopeView::User { uid: *uid, name: name@ },
        }
    }
}

impl View for PackageOrigin {
    type V = OriginView;

    open spec fn view(&self) -> OriginView {
        match self {
            PackageOrigin::Owned { package } => OriginView::Owned { package: package@ },
            PackageOrigin::Untracked => OriginView::Untracked,
            PackageOrigin::Unknown => OriginView::Unknown,
        }
    }
}

pub open spec fn opt_view(o: Option<String>) -> Option<Seq<char>> {
    match o {
        Some(s) => Some(s@),
        None => None,
    }
}

impl View for Finding {
    type V = FindingView;

    open spec fn view(&self) -> FindingView {
        FindingView {
            category: self.category@,
            mechanism: self.mechanism@,
            source: self.source@,
            target: opt_view(self.target),
            scope: self.scope@,
            package: self.package@,
            metadata: self.metadata@,
        }
    }
}

/// The views of a sequence of findings.
pub open spec fn findings_view(v: Seq<Finding>) -> Seq<FindingView> {
    v.map_values(|f: Finding| f@)
}

/// A finding whose package owner is not yet looked up.
pub open spec fn unattributed(
    category: Seq<char>,
    mechanism: Seq<char>,
    source: Seq<char>,
    target: Option<Seq<char>>,
    scope: ScopeView,
    metadata: Map<Seq<char>, Seq<char>>,
) -> FindingView {
    FindingView {
        category,
        mechanism,
        source,
        target,
        scope,
        package: OriginView::Unknown,
        metadata,
    }
}

/// The findings a line-oriented file yields: `f(i, line)` for each line
/// `i` (counted from 0), in order.
pub open spec fn per_line(
    ls: Seq<Seq<char>>,
    f: spec_fn(int, Seq<char>) -> Seq<FindingView>,
) -> Seq<FindingView>
    decreases ls.len(),
{
    if ls.len() == 0 {
        Seq::empty()
    } else {
        per_line(ls.drop_last(), f) + f(ls.len() - 1, ls.last())
    }
}

impl Scope {
    /// A copy of this scope.
    pub fn duplicate(&self) -> (r: Scope)
        ensures
            r@ == self@,
    {
        match self {
            Scope::System => Scope::System,
            Scope::User { uid, name } => Scope::User { uid: *uid, name: name.clone() },
        }
    }
}

} // verus!
