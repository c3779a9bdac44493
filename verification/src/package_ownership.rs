use vstd::hash_map::StringHashMap;
use vstd::hash_set::StringHashSet;
use vstd::prelude::*;

use crate::checkers::systemd::is_unit_ext;
use crate::finding::{Finding, FindingView, OriginView, PackageOrigin};
use crate::path::{
    extension, extension_of, file_name, file_name_of, normal_form, normal_form_of, parent_is,
    parent_is_exec, same_path, same_path_exec,
};
use crate::text::{
    cat, chars_eq_str, chars_of, ends_with, ends_with_chars, first_char, first_char_exec,
    lemma_first_char, lines, lines_of, owned, slice_chars, starts_with,
    starts_with_chars, string_of, string_views, trim, trim_chars, views,
};

verus! {

/// Path and package, as a pair of views.
pub open spec fn string_pairs(v: Seq<(String, String)>) -> Seq<(Seq<char>, Seq<char>)> {
    v.map_values(|p: (String, String)| (p.0@, p.1@))
}

/// The file index that a list of (path, package) pairs builds: each path,
/// in normal form, maps to its package; a later pair for the same path
/// wins.
pub open spec fn index_of_pairs(p: Seq<(Seq<char>, Seq<char>)>) -> Map<Seq<char>, Seq<char>>
    decreases p.len(),
{
    if p.len() == 0 {
        Map::empty()
    } else {
        index_of_pairs(p.drop_last()).insert(normal_form(p.last().0), p.last().1)
    }
}

/// What the index says of `path`: `Unknown` without a package backend,
/// else the owning package of a path with the same components, or
/// `Untracked`. Symlinks are not followed.
pub open spec fn owner_of(files: Option<Map<Seq<char>, Seq<char>>>, path: Seq<char>) -> OriginView {
    match files {
        None => OriginView::Unknown,
        Some(m) => if m.contains_key(normal_form(path)) {
            OriginView::Owned { package: m[normal_form(path)] }
        } else {
            OriginView::Untracked
        },
    }
}

/// One-shot index of every package-owned file on the system, and of the
/// installed snaps, built once so that each finding's lookup is a hash hit.
pub struct OwnershipIndex {
    files: Option<StringHashMap<String>>,
    snaps: Option<StringHashSet>,
}

impl OwnershipIndex {
    /// The owned files: normal form of each path → owning package; none
    /// when no package backend was found.
    pub closed spec fn files(&self) -> Option<Map<Seq<char>, Seq<char>>> {
        match self.files {
            Some(m) => Some(m@.map_values(|s: String| s@)),
            None => None,
        }
    }

    /// The installed snaps; none when the host runs no snapd.
    pub closed spec fn snaps(&self) -> Option<Set<Seq<char>>> {
        match self.snaps {
            Some(s) => Some(s@),
            None => None,
        }
    }

    /// An index over the (path, package) pairs of the detected package
    /// backend and the installed snap names. A backend that was not found
    /// or lists no file gives no file index, so every lookup answers
    /// `Unknown`; a host with no snap gives no snap set, and the snap pass
    /// does nothing.
    pub fn build(files: Option<Vec<(String, String)>>, snaps: Option<Vec<String>>) -> (idx: Self)
        ensures
            idx.files() == match files {
                Some(p) => if p@.len() == 0 {
                    None::<Map<Seq<char>, Seq<char>>>
                } else {
                    Some(index_of_pairs(string_pairs(p@)))
                },
                None => None::<Map<Seq<char>, Seq<char>>>,
            },
            idx.snaps() == match snaps {
                Some(s) => if s@.len() == 0 {
                    None::<Set<Seq<char>>>
                } else {
                    Some(string_views(s@).to_set())
                },
                None => None::<Set<Seq<char>>>,
            },
            idx.files() is Some ==> idx.files().unwrap() != Map::<Seq<char>, Seq<char>>::empty(),
            idx.snaps() is Some ==> idx.snaps().unwrap() != Set::<Seq<char>>::empty(),
    {
        let f = match &files {
            None => None,
            Some(pairs) if pairs.len() == 0 => None,
            Some(pairs) => {
                let mut m: StringHashMap<String> = StringHashMap::new();
                let mut i: usize = 0;
                while i < pairs.len()
                    invariant
                        i <= pairs@.len(),
                        m@.map_values(|s: String| s@) == index_of_pairs(
                            string_pairs(pairs@).take(i as int),
                        ),
                    decreases pairs@.len() - i,
                {
                    let p = chars_of(pairs[i].0.as_str());
                    let key = string_of(normal_form_of(p.as_slice()).as_slice());
                    let ghost before = m@;
                    m.insert(key, pairs[i].1.clone());
                    let ghost sp = string_pairs(pairs@).take(i + 1);
                    assert(sp.drop_last() =~= string_pairs(pairs@).take(i as int));
                    assert(sp.last() == (pairs@[i as int].0@, pairs@[i as int].1@));
                    assert(m@.map_values(|s: String| s@) =~= before.map_values(|s: String| s@).insert(
                        key@,
                        pairs@[i as int].1@,
                    ));
                    i = i + 1;
                }
                assert(string_pairs(pairs@).take(pairs@.len() as int) =~= string_pairs(pairs@));
                let ghost sp = string_pairs(pairs@);
                assert(index_of_pairs(sp).dom().contains(normal_form(sp.last().0)));
                assert(!Map::<Seq<char>, Seq<char>>::empty().dom().contains(normal_form(sp.last().0)));
                Some(m)
            },
        };
        let s = match &snaps {
            None => None,
            Some(names) if names.len() == 0 => None,
            Some(names) => {
                let mut set = StringHashSet::new();
                let mut i: usize = 0;
                while i < names.len()
                    invariant
                        i <= names@.len(),
                        set@ == string_views(names@).take(i as int).to_set(),
                    decreases names@.len() - i,
                {
                    let ghost before = set@;
                    set.insert(names[i].clone());
                    let ghost t = string_views(names@).take(i + 1);
                    assert(t =~= string_views(names@).take(i as int).push(names@[i as int]@));
                    assert(t.to_set() =~= before.insert(names@[i as int]@)) by {
                        assert forall|x: Seq<char>| t.to_set().contains(x) == before.insert(
                            names@[i as int]@,
                        ).contains(x) by {
                            if t.contains(x) {
                                let j = choose|j: int| 0 <= j < t.len() && t[j] == x;
                                if j < i {
                                    assert(string_views(names@).take(i as int)[j] == x);
                                }
                            }
                            if string_views(names@).take(i as int).contains(x) {
                                let j = choose|j: int|
                                    0 <= j < i && string_views(names@).take(i as int)[j] == x;
                                assert(t[j] == x);
                            }
                            if x == names@[i as int]@ {
                                assert(t[i as int] == x);
                            }
                        }
                    }
                    i = i + 1;
                }
                assert(string_views(names@).take(names@.len() as int) =~= string_views(names@));
                assert(string_views(names@)[0] == names@[0]@);
                assert(string_views(names@).to_set().contains(names@[0]@));
                assert(!Set::<Seq<char>>::empty().contains(names@[0]@));
                Some(set)
            },
        };
        OwnershipIndex { files: f, snaps: s }
    }

    /// The package that owns `path`, or `Untracked` if none claims it, or
    /// `Unknown` without a package backend. The lookup is literal: a symlink
    /// at `/etc/...` pointing into a package's files is itself untracked.
    pub fn owner(&self, path: &str) -> (r: PackageOrigin)
        ensures
            r@ == owner_of(self.files(), path@),
    {
        match &self.files {
            None => PackageOrigin::Unknown,
            Some(m) => {
                let p = chars_of(path);
                let key = string_of(normal_form_of(p.as_slice()).as_slice());
                match m.get(key.as_str()) {
                    Some(pkg) => PackageOrigin::Owned { package: pkg.clone() },
                    None => PackageOrigin::Untracked,
                }
            },
        }
    }

    /// For a path of a known benign-symlink shape whose symlink resolves
    /// (to `canonical`; none when resolving failed) onto a package-owned
    /// file: the owning package, the resolved target and the shape's tag. A
    /// link into `/tmp` resolves onto no owned file and stays untracked.
    pub fn resolve_benign_alias(&self, path: &str, canonical: Option<&str>) -> (r: Option<
        (String, String, &'static str),
    >)
        ensures
            match r {
                Some(a) => benign_alias(
                    self.files(),
                    path@,
                    match canonical {
                        Some(c) => Some(c@),
                        None => None,
                    },
                ) == Some((a.0@, a.1@, a.2@)),
                None => benign_alias(
                    self.files(),
                    path@,
                    match canonical {
                        Some(c) => Some(c@),
                        None => None,
                    },
                ) is None,
            },
    {
        let m = match &self.files {
            Some(m) => m,
            None => return None,
        };
        let pattern = match benign_alias_pattern(path) {
            Some(p) => p,
            None => return None,
        };
        let target = match canonical {
            Some(t) => t,
            None => return None,
        };
        let t = chars_of(target);
        let key = string_of(normal_form_of(t.as_slice()).as_slice());
        match m.get(key.as_str()) {
            Some(pkg) => Some((pkg.clone(), owned(target), pattern)),
            None => None,
        }
    }

    /// For a file that snapd writes at install time, `snap:<name>` when the
    /// snap its name points to is installed; a made-up snap name stays
    /// untracked.
    pub fn resolve_snap_attribution(&self, path: &str) -> (r: Option<String>)
        ensures
            match r {
                Some(s) => snap_attribution(self.snaps(), path@) == Some(s@),
                None => snap_attribution(self.snaps(), path@) is None,
            },
    {
        let snaps = match &self.snaps {
            Some(s) => s,
            None => return None,
        };
        let name = match extract_snap_name(path) {
            Some(n) => n,
            None => return None,
        };
        if snaps.contains(name.as_str()) {
            Some(cat("snap:", name.as_str()))
        } else {
            None
        }
    }

    /// For a file that a Debian package's postinst script creates, the
    /// package the allowlist names; never without a package backend.
    pub fn resolve_postinst_allowlist(&self, path: &str) -> (r: Option<&'static str>)
        ensures
            match r {
                Some(p) => self.files() is Some && postinst_owner(path@) == Some(p@),
                None => self.files() is None || postinst_owner(path@) is None,
            },
    {
        if self.files.is_none() {
            return None;
        }
        let p = chars_of(path);
        let mut i: usize = 0;
        while i < POSTINST_COUNT
            invariant
                i <= POSTINST_COUNT,
                self.files() is Some,
                p@ == path@,
                postinst_owner(path@) == postinst_from(path@, i as int),
            decreases POSTINST_COUNT - i,
        {
            let (known, pkg) = postinst_entry_exec(i);
            let k = chars_of(known);
            assert(postinst_entry(i as int).0 == k@);
            if same_path_exec(k.as_slice(), p.as_slice()) {
                return Some(pkg);
            }
            i = i + 1;
        }
        None
    }
}

// ─── the attribution pass ────────────────────────────────────────────────────

/// `f` now owned by `package`, with `extra` added to its metadata.
pub open spec fn reattributed(
    f: FindingView,
    package: Seq<char>,
    extra: Map<Seq<char>, Seq<char>>,
) -> FindingView {
    FindingView {
        package: OriginView::Owned { package },
        metadata: f.metadata.union_prefer_right(extra),
        ..f
    }
}

/// A finding after the attribution pass, its source resolving to
/// `canonical` (none when resolving failed). A finding not yet looked up
/// gets the index's answer. One still untracked is then owned, in turn, by
/// the package owning its benign symlink's target, by the installed snap
/// its name points to, or by the package whose postinst creates it (with a
/// package backend only); each step records how in the metadata. Owned and
/// unknown findings are left as they are.
pub open spec fn attributed(
    files: Option<Map<Seq<char>, Seq<char>>>,
    snaps: Option<Set<Seq<char>>>,
    f: FindingView,
    canonical: Option<Seq<char>>,
) -> FindingView {
    let f1 = if f.package is Unknown {
        FindingView { package: owner_of(files, f.source), ..f }
    } else {
        f
    };
    let f2 = if f1.package is Untracked {
        match benign_alias(files, f1.source, canonical) {
            Some(a) => reattributed(
                f1,
                a.0,
                map!["benign_pattern"@ => a.2, "alias_target"@ => a.1],
            ),
            None => f1,
        }
    } else {
        f1
    };
    let f3 = if f2.package is Untracked {
        match snap_attribution(snaps, f2.source) {
            Some(p) => reattributed(f2, p, map!["installer"@ => "snapd"@]),
            None => f2,
        }
    } else {
        f2
    };
    if f3.package is Untracked && files is Some {
        match postinst_owner(f3.source) {
            Some(p) => reattributed(f3, p, map!["installer"@ => "postinst-"@ + p]),
            None => f3,
        }
    } else {
        f3
    }
}

impl OwnershipIndex {
    /// The attribution pass over one finding whose source resolves to
    /// `canonical` (none when resolving failed).
    pub fn attribute(&self, f: Finding, canonical: Option<&str>) -> (r: Finding)
        ensures
            r@ == attributed(
                self.files(),
                self.snaps(),
                f@,
                match canonical {
                    Some(c) => Some(c@),
                    None => None,
                },
            ),
    {
        let ghost cv = match canonical {
            Some(c) => Some(c@),
            None => None::<Seq<char>>,
        };
        let mut f = f;
        let ghost f0 = f@;
        if matches!(f.package, PackageOrigin::Unknown) {
            f.package = self.owner(f.source.as_str());
        }
        let ghost f1 = f@;
        assert(f1 == if f0.package is Unknown {
            FindingView { package: owner_of(self.files(), f0.source), ..f0 }
        } else {
            f0
        });
        if matches!(f.package, PackageOrigin::Untracked) {
            match self.resolve_benign_alias(f.source.as_str(), canonical) {
                Some((pkg, target, pattern)) => {
                    let ghost before = f.metadata@;
                    f.package = PackageOrigin::Owned { package: pkg };
                    f.metadata.insert(owned("benign_pattern"), owned(pattern));
                    f.metadata.insert(owned("alias_target"), target);
                    assert(f.metadata@ =~= before.union_prefer_right(
                        map!["benign_pattern"@ => pattern@, "alias_target"@ => target@],
                    ));
                },
                None => {},
            }
        }
        let ghost f2 = f@;
        assert(f2 == if f1.package is Untracked {
            match benign_alias(self.files(), f1.source, cv) {
                Some(a) => reattributed(
                    f1,
                    a.0,
                    map!["benign_pattern"@ => a.2, "alias_target"@ => a.1],
                ),
                None => f1,
            }
        } else {
            f1
        });
        if matches!(f.package, PackageOrigin::Untracked) {
            match self.resolve_snap_attribution(f.source.as_str()) {
                Some(pkg) => {
                    let ghost before = f.metadata@;
                    f.package = PackageOrigin::Owned { package: pkg };
                    f.metadata.insert(owned("installer"), owned("snapd"));
                    assert(f.metadata@ =~= before.union_prefer_right(
                        map!["installer"@ => "snapd"@],
                    ));
                },
                None => {},
            }
        }
        let ghost f3 = f@;
        assert(f3 == if f2.package is Untracked {
            match snap_attribution(self.snaps(), f2.source) {
                Some(p) => reattributed(f2, p, map!["installer"@ => "snapd"@]),
                None => f2,
            }
        } else {
            f2
        });
        if matches!(f.package, PackageOrigin::Untracked) {
            match self.resolve_postinst_allowlist(f.source.as_str()) {
                Some(pkg) => {
                    let ghost before = f.metadata@;
                    f.package = PackageOrigin::Owned { package: owned(pkg) };
                    f.metadata.insert(owned("installer"), cat("postinst-", pkg));
                    assert(f.metadata@ =~= before.union_prefer_right(
                        map!["installer"@ => "postinst-"@ + pkg@],
                    ));
                },
                None => {},
            }
        }
        f
    }
}

// ─── postinst allowlist ──────────────────────────────────────────────────────

/// How many entries `postinst_entry` lists.
pub const POSTINST_COUNT: usize = 7;

/// Files that Debian postinst scripts create (so that dpkg's `.list` files
/// do not record them), with the package whose postinst does.
pub open spec fn postinst_entry(i: int) -> (Seq<char>, Seq<char>) {
    if i == 0 {
        ("/etc/profile"@, "base-files"@)
    } else if i == 1 {
        ("/etc/pam.d/common-auth"@, "libpam-runtime"@)
    } else if i == 2 {
        ("/etc/pam.d/common-account"@, "libpam-runtime"@)
    } else if i == 3 {
        ("/etc/pam.d/common-password"@, "libpam-runtime"@)
    } else if i == 4 {
        ("/etc/pam.d/common-session"@, "libpam-runtime"@)
    } else if i == 5 {
        ("/etc/pam.d/common-session-noninteractive"@, "libpam-runtime"@)
    } else {
        ("/etc/modules"@, "kmod"@)
    }
}

fn postinst_entry_exec(i: usize) -> (r: (&'static str, &'static str))
    requires
        i < POSTINST_COUNT,
    ensures
        postinst_entry(i as int) == (r.0@, r.1@),
{
    if i == 0 {
        ("/etc/profile", "base-files")
    } else if i == 1 {
        ("/etc/pam.d/common-auth", "libpam-runtime")
    } else if i == 2 {
        ("/etc/pam.d/common-account", "libpam-runtime")
    } else if i == 3 {
        ("/etc/pam.d/common-password", "libpam-runtime")
    } else if i == 4 {
        ("/etc/pam.d/common-session", "libpam-runtime")
    } else if i == 5 {
        ("/etc/pam.d/common-session-noninteractive", "libpam-runtime")
    } else {
        ("/etc/modules", "kmod")
    }
}

/// The package of the first allowlist entry from `i` on naming `path`.
pub open spec fn postinst_from(path: Seq<char>, i: int) -> Option<Seq<char>>
    decreases POSTINST_COUNT - i,
{
    if i < 0 || i >= POSTINST_COUNT {
        None
    } else if same_path(postinst_entry(i).0, path) {
        Some(postinst_entry(i).1)
    } else {
        postinst_from(path, i + 1)
    }
}

/// The package the postinst allowlist names for `path` (compared as paths,
/// component by component).
pub open spec fn postinst_owner(path: Seq<char>) -> Option<Seq<char>> {
    postinst_from(path, 0)
}

// ─── benign symlinks ─────────────────────────────────────────────────────────

/// `/etc/systemd/{system,user}/<name>.{service,timer,path,socket}`: the
/// shape of a unit alias that `systemctl enable` or D-Bus activation
/// creates. The package-owned `/usr/lib/systemd` side and the generated
/// `/run/systemd` side are excluded.
pub open spec fn systemd_enable_candidate(p: Seq<char>) -> bool {
    &&& (parent_is(p, "/etc/systemd/system"@) || parent_is(p, "/etc/systemd/user"@))
    &&& match extension(p) {
        Some(e) => is_unit_ext(e),
        None => false,
    }
}

/// `/etc/profile.d/<name>.sh`: shell snippets that postinst scripts link
/// back into `/usr/share/<pkg>/`.
pub open spec fn profile_d_candidate(p: Seq<char>) -> bool {
    parent_is(p, "/etc/profile.d"@) && extension(p) == Some("sh"@)
}

/// The tag of the benign-symlink shape `p` has, if any.
pub open spec fn alias_pattern(p: Seq<char>) -> Option<Seq<char>> {
    if systemd_enable_candidate(p) {
        Some("systemd-enable-symlink"@)
    } else if profile_d_candidate(p) {
        Some("shell-profile-symlink"@)
    } else {
        None
    }
}

/// What `resolve_benign_alias` gives for `path`, resolved to `canonical`:
/// (package, target, tag) when a backend exists, the path has a benign
/// shape, it resolved, and the target is owned.
pub open spec fn benign_alias(
    files: Option<Map<Seq<char>, Seq<char>>>,
    path: Seq<char>,
    canonical: Option<Seq<char>>,
) -> Option<(Seq<char>, Seq<char>, Seq<char>)> {
    match files {
        None => None,
        Some(m) => match alias_pattern(path) {
            None => None,
            Some(tag) => match canonical {
                None => None,
                Some(t) => if m.contains_key(normal_form(t)) {
                    Some((m[normal_form(t)], t, tag))
                } else {
                    None
                },
            },
        },
    }
}

fn unit_ext_of(p: &[char]) -> (b: bool)
    ensures
        b == match extension(p@) {
            Some(e) => is_unit_ext(e),
            None => false,
        },
{
    match extension_of(p) {
        Some(e) => chars_eq_str(e.as_slice(), "service") || chars_eq_str(e.as_slice(), "timer")
            || chars_eq_str(e.as_slice(), "path") || chars_eq_str(e.as_slice(), "socket"),
        None => false,
    }
}

/// Whether `path` has the shape of a `systemctl enable` unit alias.
pub fn is_systemd_enable_symlink_candidate(path: &str) -> (b: bool)
    ensures
        b == systemd_enable_candidate(path@),
{
    let p = chars_of(path);
    let sys = chars_of("/etc/systemd/system");
    let usr = chars_of("/etc/systemd/user");
    (parent_is_exec(p.as_slice(), sys.as_slice()) || parent_is_exec(p.as_slice(), usr.as_slice()))
        && unit_ext_of(p.as_slice())
}

/// Whether `path` is a `.sh` snippet directly under `/etc/profile.d`.
pub fn is_profile_d_symlink_candidate(path: &str) -> (b: bool)
    ensures
        b == profile_d_candidate(path@),
{
    let p = chars_of(path);
    let dir = chars_of("/etc/profile.d");
    if !parent_is_exec(p.as_slice(), dir.as_slice()) {
        return false;
    }
    match extension_of(p.as_slice()) {
        Some(e) => chars_eq_str(e.as_slice(), "sh"),
        None => false,
    }
}

/// The tag of the benign-symlink shape `path` has, if any.
pub fn benign_alias_pattern(path: &str) -> (r: Option<&'static str>)
    ensures
        match r {
            Some(t) => alias_pattern(path@) == Some(t@),
            None => alias_pattern(path@) is None,
        },
{
    if is_systemd_enable_symlink_candidate(path) {
        return Some("systemd-enable-symlink");
    }
    if is_profile_d_symlink_candidate(path) {
        return Some("shell-profile-symlink");
    }
    None
}

// ─── snaps ───────────────────────────────────────────────────────────────────

/// The snap a snapd-written file belongs to, read from its name:
/// `/etc/systemd/{system,user}/snap.<snap>.<app>.<ext>` for a surveyed unit
/// type (the text up to the next `.`), or `/etc/udev/rules.d/70-snap.<snap>.rules`.
pub open spec fn snap_name(p: Seq<char>) -> Option<Seq<char>> {
    match file_name(p) {
        None => None,
        Some(name) => if (parent_is(p, "/etc/systemd/system"@) || parent_is(
            p,
            "/etc/systemd/user"@,
        )) && starts_with(name, "snap."@) && match extension(p) {
            Some(e) => is_unit_ext(e),
            None => false,
        } {
            let rest = name.subrange(5, name.len() as int);
            match first_char(rest, '.', 0) {
                Some(k) => Some(rest.subrange(0, k)),
                None => Some(rest),
            }
        } else if parent_is(p, "/etc/udev/rules.d"@) && starts_with(name, "70-snap."@) && ends_with(
            name.subrange(8, name.len() as int),
            ".rules"@,
        ) {
            Some(name.subrange(8, name.len() - 6))
        } else {
            None
        },
    }
}

/// `snap:<name>` for a file of an installed snap.
pub open spec fn snap_attribution(snaps: Option<Set<Seq<char>>>, path: Seq<char>) -> Option<
    Seq<char>,
> {
    match snaps {
        None => None,
        Some(s) => match snap_name(path) {
            Some(n) => if s.contains(n) {
                Some("snap:"@ + n)
            } else {
                None
            },
            None => None,
        },
    }
}

/// The snap a snapd-written file belongs to, read from its path.
pub fn extract_snap_name(path: &str) -> (r: Option<String>)
    ensures
        match r {
            Some(n) => snap_name(path@) == Some(n@),
            None => snap_name(path@) is None,
        },
{
    let p = chars_of(path);
    let name = match file_name_of(p.as_slice()) {
        Some(n) => n,
        None => return None,
    };
    let sys = chars_of("/etc/systemd/system");
    let usr = chars_of("/etc/systemd/user");
    let udev = chars_of("/etc/udev/rules.d");
    let unit_prefix = chars_of("snap.");
    let rule_prefix = chars_of("70-snap.");
    let rule_suffix = chars_of(".rules");
    proof {
        reveal_strlit("snap.");
        reveal_strlit("70-snap.");
        reveal_strlit(".rules");
    }
    if (parent_is_exec(p.as_slice(), sys.as_slice()) || parent_is_exec(p.as_slice(), usr.as_slice()))
        && starts_with_chars(name.as_slice(), unit_prefix.as_slice()) && unit_ext_of(p.as_slice()) {
        let rest = slice_chars(name.as_slice(), 5, name.len());
        match first_char_exec(rest.as_slice(), '.', 0) {
            Some(k) => {
                proof {
                    lemma_first_char(rest@, '.', 0);
                }
                return Some(string_of(slice_chars(rest.as_slice(), 0, k).as_slice()));
            },
            None => {
                return Some(string_of(rest.as_slice()));
            },
        }
    }
    if parent_is_exec(p.as_slice(), udev.as_slice()) && starts_with_chars(
        name.as_slice(),
        rule_prefix.as_slice(),
    ) {
        let rest = slice_chars(name.as_slice(), 8, name.len());
        if ends_with_chars(rest.as_slice(), rule_suffix.as_slice()) {
            return Some(string_of(slice_chars(name.as_slice(), 8, name.len() - 6).as_slice()));
        }
    }
    None
}

/// A directory under `/snap` named `name` is an installed snap unless it is
/// the `bin` shim directory or hidden.
pub fn is_snap_dir_name(name: &str) -> (b: bool)
    ensures
        b == !(name@ == "bin"@ || (name@.len() > 0 && name@[0] == '.')),
{
    let c = chars_of(name);
    !(crate::text::str_eq(name, "bin") || (c.len() > 0 && c[0] == '.'))
}

/// The snap a blob `<name>_<revision>.snap` in `/var/lib/snapd/snaps` holds.
pub open spec fn snap_blob(fname: Seq<char>) -> Option<Seq<char>> {
    if ends_with(fname, ".snap"@) {
        let stem = fname.subrange(0, fname.len() - 5);
        match first_char(stem, '_', 0) {
            Some(k) => Some(stem.subrange(0, k)),
            None => None,
        }
    } else {
        None
    }
}

/// The snap a blob file name names, if it has the blob shape.
pub fn snap_blob_name(fname: &str) -> (r: Option<String>)
    ensures
        match r {
            Some(n) => snap_blob(fname@) == Some(n@),
            None => snap_blob(fname@) is None,
        },
{
    let c = chars_of(fname);
    let suffix = chars_of(".snap");
    proof {
        reveal_strlit(".snap");
    }
    if !ends_with_chars(c.as_slice(), suffix.as_slice()) {
        return None;
    }
    let stem = slice_chars(c.as_slice(), 0, c.len() - 5);
    match first_char_exec(stem.as_slice(), '_', 0) {
        Some(k) => {
            proof {
                lemma_first_char(stem@, '_', 0);
            }
            Some(string_of(slice_chars(stem.as_slice(), 0, k).as_slice()))
        },
        None => None,
    }
}

// ─── package backends ────────────────────────────────────────────────────────

/// The (path, package) pairs of `rpm -qa --qf "<NVRA>\t<file>\n"` output:
/// each line splits at its first tab; lines without one are skipped.
pub open spec fn rpm_pairs(ls: Seq<Seq<char>>) -> Seq<(Seq<char>, Seq<char>)>
    decreases ls.len(),
{
    if ls.len() == 0 {
        Seq::empty()
    } else {
        let l = ls.last();
        rpm_pairs(ls.drop_last()) + match first_char(l, '\t', 0) {
            Some(k) => seq![(l.subrange(k + 1, l.len() as int), l.subrange(0, k))],
            None => Seq::empty(),
        }
    }
}

/// Parse `rpm -qa --qf` output into (path, package) pairs.
pub fn parse_rpm_qf_output(stdout: &str) -> (r: Vec<(String, String)>)
    ensures
        string_pairs(r@) == rpm_pairs(lines(stdout@)),
{
    let chars = chars_of(stdout);
    let ls = lines_of(chars.as_slice());
    let mut out: Vec<(String, String)> = Vec::new();
    let mut i: usize = 0;
    while i < ls.len()
        invariant
            i <= ls@.len(),
            views(ls@) == lines(stdout@),
            string_pairs(out@) == rpm_pairs(views(ls@).take(i as int)),
        decreases ls@.len() - i,
    {
        let l = &ls[i];
        let n = l.len();
        assert(views(ls@).take(i + 1).drop_last() =~= views(ls@).take(i as int));
        assert(views(ls@)[i as int] == l@);
        let ghost prev = string_pairs(out@);
        match first_char_exec(l.as_slice(), '\t', 0) {
            Some(k) => {
                proof {
                    lemma_first_char(l@, '\t', 0);
                }
                let path = string_of(slice_chars(l.as_slice(), k + 1, n).as_slice());
                let pkg = string_of(slice_chars(l.as_slice(), 0, k).as_slice());
                out.push((path, pkg));
                assert(string_pairs(out@) =~= prev + seq![
                    (l@.subrange(k + 1, l@.len() as int), l@.subrange(0, k as int)),
                ]);
            },
            None => {
                assert(string_pairs(out@) =~= prev + Seq::<(Seq<char>, Seq<char>)>::empty());
            },
        }
        i = i + 1;
    }
    assert(views(ls@).take(ls@.len() as int) =~= views(ls@));
    out
}

/// The package a dpkg `.list` file stem names: the stem up to its first
/// `:` (`foo:amd64` → `foo`).
pub open spec fn dpkg_pkg(stem: Seq<char>) -> Seq<char> {
    match first_char(stem, ':', 0) {
        Some(k) => stem.subrange(0, k),
        None => stem,
    }
}

/// Strip `:arch` from a dpkg `.list` file stem.
pub fn dpkg_pkg_from_stem(stem: &str) -> (r: String)
    ensures
        r@ == dpkg_pkg(stem@),
{
    let c = chars_of(stem);
    match first_char_exec(c.as_slice(), ':', 0) {
        Some(k) => {
            proof {
                lemma_first_char(c@, ':', 0);
            }
            string_of(slice_chars(c.as_slice(), 0, k).as_slice())
        },
        None => owned(stem),
    }
}

/// The trimmed non-blank lines of `ls`.
pub open spec fn listed_paths(ls: Seq<Seq<char>>) -> Seq<Seq<char>>
    decreases ls.len(),
{
    if ls.len() == 0 {
        Seq::empty()
    } else {
        let t = trim(ls.last());
        listed_paths(ls.drop_last()) + if t.len() == 0 {
            Seq::empty()
        } else {
            seq![t]
        }
    }
}

/// The paths of a dpkg `.list` file: one per line, trimmed, blank lines
/// skipped.
pub fn parse_dpkg_list_content(content: &str) -> (r: Vec<String>)
    ensures
        string_views(r@) == listed_paths(lines(content@)),
{
    let chars = chars_of(content);
    let ls = lines_of(chars.as_slice());
    let mut out: Vec<String> = Vec::new();
    let mut i: usize = 0;
    while i < ls.len()
        invariant
            i <= ls@.len(),
            views(ls@) == lines(content@),
            string_views(out@) == listed_paths(views(ls@).take(i as int)),
        decreases ls@.len() - i,
    {
        assert(views(ls@).take(i + 1).drop_last() =~= views(ls@).take(i as int));
        assert(views(ls@)[i as int] == ls@[i as int]@);
        let ghost prev = string_views(out@);
        let t = trim_chars(ls[i].as_slice());
        if t.len() > 0 {
            out.push(string_of(t.as_slice()));
            assert(string_views(out@) =~= prev + seq![t@]);
        } else {
            assert(string_views(out@) =~= prev + Seq::<Seq<char>>::empty());
        }
        i = i + 1;
    }
    assert(views(ls@).take(ls@.len() as int) =~= views(ls@));
    out
}

/// The merged-`/usr` spelling of a path under `/lib/`, `/bin/` or `/sbin/`
/// (`/lib/x` → `/usr/lib/x`), as canonicalizing gives on a merged system;
/// none for other paths, the bare directories included.
pub open spec fn merged_usr(p: Seq<char>) -> Option<Seq<char>> {
    if starts_with(p, "/lib/"@) || starts_with(p, "/bin/"@) || starts_with(p, "/sbin/"@) {
        Some("/usr"@ + p)
    } else {
        None
    }
}

/// Rewrite an unmerged path to its merged-`/usr` spelling.
pub fn merged_usr_rewrite(path: &str) -> (r: Option<String>)
    ensures
        match r {
            Some(m) => merged_usr(path@) == Some(m@),
            None => merged_usr(path@) is None,
        },
{
    let p = chars_of(path);
    let lib = chars_of("/lib/");
    let bin = chars_of("/bin/");
    let sbin = chars_of("/sbin/");
    if starts_with_chars(p.as_slice(), lib.as_slice()) || starts_with_chars(
        p.as_slice(),
        bin.as_slice(),
    ) || starts_with_chars(p.as_slice(), sbin.as_slice()) {
        Some(cat("/usr", path))
    } else {
        None
    }
}

/// The (path, package) pairs one dpkg `.list` file contributes: each listed
/// path, preceded on a merged-`/usr` system by its merged spelling when it
/// has one, so that lookups hit whichever spelling a finding carries.
pub open spec fn dpkg_pairs(paths: Seq<Seq<char>>, pkg: Seq<char>, merged: bool) -> Seq<
    (Seq<char>, Seq<char>),
>
    decreases paths.len(),
{
    if paths.len() == 0 {
        Seq::empty()
    } else {
        let p = paths.last();
        dpkg_pairs(paths.drop_last(), pkg, merged) + match merged_usr(p) {
            Some(m) => if merged {
                seq![(m, pkg), (p, pkg)]
            } else {
                seq![(p, pkg)]
            },
            None => seq![(p, pkg)],
        }
    }
}

/// The (path, package) pairs of the dpkg `.list` file with stem `stem`
/// holding `content`.
pub fn dpkg_list_pairs(stem: &str, content: &str, merged: bool) -> (r: Vec<(String, String)>)
    ensures
        string_pairs(r@) == dpkg_pairs(listed_paths(lines(content@)), dpkg_pkg(stem@), merged),
{
    let pkg = dpkg_pkg_from_stem(stem);
    let paths = parse_dpkg_list_content(content);
    let mut out: Vec<(String, String)> = Vec::new();
    let mut i: usize = 0;
    while i < paths.len()
        invariant
            i <= paths@.len(),
            string_pairs(out@) == dpkg_pairs(string_views(paths@).take(i as int), pkg@, merged),
        decreases paths@.len() - i,
    {
        let ghost t = string_views(paths@).take(i + 1);
        assert(t.drop_last() =~= string_views(paths@).take(i as int));
        assert(t.last() == paths@[i as int]@);
        let ghost prev = string_pairs(out@);
        let rewritten = merged_usr_rewrite(paths[i].as_str());
        match rewritten {
            Some(m) => {
                if merged {
                    out.push((m, pkg.clone()));
                }
            },
            None => {},
        }
        out.push((paths[i].clone(), pkg.clone()));
        assert(string_pairs(out@) =~= dpkg_pairs(t, pkg@, merged));
        i = i + 1;
    }
    assert(string_views(paths@).take(paths@.len() as int) =~= string_views(paths@));
    out
}

/// A `%SECTION%` header line, once trimmed.
pub open spec fn pacman_header(t: Seq<char>) -> bool {
    t.len() > 0 && t[0] == '%' && t.last() == '%'
}

/// The state after the lines `ls` of a pacman `files` file: the paths so
/// far and whether the open section is `%FILES%`.
pub open spec fn pacman_fold(ls: Seq<Seq<char>>) -> (Seq<Seq<char>>, bool)
    decreases ls.len(),
{
    if ls.len() == 0 {
        (Seq::empty(), false)
    } else {
        let st = pacman_fold(ls.drop_last());
        let t = trim(ls.last());
        if t.len() == 0 {
            st
        } else if pacman_header(t) {
            (st.0, t == "%FILES%"@)
        } else if st.1 {
            (st.0.push("/"@ + t), st.1)
        } else {
            st
        }
    }
}

/// The paths of a pacman `files` file: each line of its `%FILES%`
/// sections, trimmed and made absolute.
pub fn parse_pacman_files_content(content: &str) -> (r: Vec<String>)
    ensures
        string_views(r@) == pacman_fold(lines(content@)).0,
{
    let chars = chars_of(content);
    let ls = lines_of(chars.as_slice());
    let mut out: Vec<String> = Vec::new();
    let mut in_files = false;
    let mut i: usize = 0;
    while i < ls.len()
        invariant
            i <= ls@.len(),
            views(ls@) == lines(content@),
            pacman_fold(views(ls@).take(i as int)) == (string_views(out@), in_files),
        decreases ls@.len() - i,
    {
        assert(views(ls@).take(i + 1).drop_last() =~= views(ls@).take(i as int));
        assert(views(ls@)[i as int] == ls@[i as int]@);
        let ghost prev = string_views(out@);
        let t = trim_chars(ls[i].as_slice());
        let n = t.len();
        if n == 0 {
        } else if t[0] == '%' && t[n - 1] == '%' {
            in_files = chars_eq_str(t.as_slice(), "%FILES%");
        } else if in_files {
            let s = cat("/", string_of(t.as_slice()).as_str());
            out.push(s);
            assert(string_views(out@) =~= prev.push("/"@ + t@));
        }
        i = i + 1;
    }
    assert(views(ls@).take(ls@.len() as int) =~= views(ls@));
    out
}

/// The (path, package) pairs of the pacman package directory `pkg` whose
/// `files` file holds `content`.
pub fn pacman_pairs(pkg: &str, content: &str) -> (r: Vec<(String, String)>)
    ensures
        string_pairs(r@) == pacman_fold(lines(content@)).0.map_values(
            |p: Seq<char>| (p, pkg@),
        ),
{
    let paths = parse_pacman_files_content(content);
    let ghost f = |p: Seq<char>| (p, pkg@);
    let mut out: Vec<(String, String)> = Vec::new();
    let mut i: usize = 0;
    while i < paths.len()
        invariant
            i <= paths@.len(),
            f == (|p: Seq<char>| (p, pkg@)),
            string_pairs(out@) == string_views(paths@).take(i as int).map_values(f),
        decreases paths@.len() - i,
    {
        let ghost prev = string_pairs(out@);
        out.push((paths[i].clone(), owned(pkg)));
        assert(string_views(paths@).take(i + 1).map_values(f) =~= string_views(paths@).take(
            i as int,
        ).map_values(f).push(f(paths@[i as int]@)));
        assert(string_pairs(out@) =~= prev.push((paths@[i as int]@, pkg@)));
        i = i + 1;
    }
    assert(string_views(paths@).take(paths@.len() as int) =~= string_views(paths@));
    out
}

// ─── laws ────────────────────────────────────────────────────────────────────

/// A benign-symlink reattribution needs a package backend, a recognized
/// shape, a resolved target, and a target the index says is owned by the
/// package given: a link pointing at an unowned file (`/tmp/evil`) is never
/// reattributed.
pub proof fn benign_alias_needs_owned_target(
    files: Option<Map<Seq<char>, Seq<char>>>,
    path: Seq<char>,
    canonical: Option<Seq<char>>,
)
    ensures
        benign_alias(files, path, canonical) matches Some(a) ==> {
            &&& files matches Some(m)
            &&& canonical == Some(a.1)
            &&& m.contains_key(normal_form(a.1))
            &&& m[normal_form(a.1)] == a.0
            &&& alias_pattern(path) == Some(a.2)
        },
{
}

/// A snap reattribution names a snap that is installed: a file shaped like
/// snapd's output but naming no installed snap is never reattributed.
pub proof fn snap_attribution_needs_installed_snap(snaps: Option<Set<Seq<char>>>, path: Seq<char>)
    ensures
        snap_attribution(snaps, path) matches Some(p) ==> {
            &&& snaps matches Some(s)
            &&& snap_name(path) matches Some(n)
            &&& s.contains(n)
            &&& p == "snap:"@ + n
        },
{
}

/// The attribution pass leaves an owned finding as it is, and never
/// attributes a finding that no package backend could look up.
pub proof fn attribution_keeps_owned_and_unknown(
    files: Option<Map<Seq<char>, Seq<char>>>,
    snaps: Option<Set<Seq<char>>>,
    f: FindingView,
    canonical: Option<Seq<char>>,
)
    ensures
        f.package is Owned ==> attributed(files, snaps, f, canonical) == f,
        files is None && f.package is Unknown ==> attributed(files, snaps, f, canonical).package is Unknown,
{
}

/// Every package the attribution pass gives a finding it did not already
/// have is backed by evidence: the index's own entry for the source, an
/// owned benign-symlink target, an installed snap, or the postinst
/// allowlist with a package backend present.
pub proof fn attribution_needs_evidence(
    files: Option<Map<Seq<char>, Seq<char>>>,
    snaps: Option<Set<Seq<char>>>,
    f: FindingView,
    canonical: Option<Seq<char>>,
    p: Seq<char>,
)
    requires
        !(f.package is Owned),
        attributed(files, snaps, f, canonical).package == (OriginView::Owned { package: p }),
    ensures
        (f.package is Unknown && owner_of(files, f.source) == (OriginView::Owned { package: p }))
            || (benign_alias(files, f.source, canonical) matches Some(a) && a.0 == p)
            || snap_attribution(snaps, f.source) == Some(p) || (files is Some && postinst_owner(
            f.source,
        ) == Some(p)),
{
}

proof fn lemma_index_covers(p: Seq<(Seq<char>, Seq<char>)>, pkg: Seq<char>)
    requires
        forall|i: int| 0 <= i < p.len() ==> (#[trigger] p[i]).1 == pkg,
    ensures
        forall|i: int|
            0 <= i < p.len() ==> index_of_pairs(p).contains_key(normal_form((#[trigger] p[i]).0))
                && index_of_pairs(p)[normal_form(p[i].0)] == pkg,
    decreases p.len(),
{
    if p.len() > 0 {
        let init = p.drop_last();
        assert forall|i: int| 0 <= i < init.len() implies (#[trigger] init[i]).1 == pkg by {
            assert(init[i] == p[i]);
        }
        lemma_index_covers(init, pkg);
        assert forall|i: int| 0 <= i < p.len() implies index_of_pairs(p).contains_key(
            normal_form((#[trigger] p[i]).0),
        ) && index_of_pairs(p)[normal_form(p[i].0)] == pkg by {
            if i < p.len() - 1 {
                assert(init[i] == p[i]);
            }
        }
    }
}

proof fn lemma_dpkg_pairs(paths: Seq<Seq<char>>, pkg: Seq<char>)
    ensures
        forall|j: int|
            0 <= j < dpkg_pairs(paths, pkg, true).len() ==> (#[trigger] dpkg_pairs(
                paths,
                pkg,
                true,
            )[j]).1 == pkg,
        forall|i: int|
            0 <= i < paths.len() ==> dpkg_pairs(paths, pkg, true).contains((#[trigger] paths[i], pkg)),
        forall|i: int|
            0 <= i < paths.len() && merged_usr(#[trigger] paths[i]) is Some ==> dpkg_pairs(
                paths,
                pkg,
                true,
            ).contains((merged_usr(paths[i])->0, pkg)),
    decreases paths.len(),
{
    if paths.len() > 0 {
        let init = paths.drop_last();
        lemma_dpkg_pairs(init, pkg);
        let d = dpkg_pairs(paths, pkg, true);
        let di = dpkg_pairs(init, pkg, true);
        let last = paths.last();
        let tail = match merged_usr(last) {
            Some(m) => seq![(m, pkg), (last, pkg)],
            None => seq![(last, pkg)],
        };
        assert(d == di + tail);
        assert forall|j: int| 0 <= j < d.len() implies (#[trigger] d[j]).1 == pkg by {
            if j < di.len() {
                assert(d[j] == di[j]);
            } else {
                assert(d[j] == tail[j - di.len()]);
            }
        }
        assert forall|i: int| 0 <= i < paths.len() implies d.contains((#[trigger] paths[i], pkg)) by {
            if i < paths.len() - 1 {
                assert(init[i] == paths[i]);
                let j = choose|j: int| 0 <= j < di.len() && di[j] == (init[i], pkg);
                assert(d[j] == di[j]);
            } else {
                let j = d.len() - 1;
                assert(d[j] == tail[tail.len() - 1]);
            }
        }
        assert forall|i: int| 0 <= i < paths.len() && merged_usr(#[trigger] paths[i]) is Some implies d.contains(
            (merged_usr(paths[i])->0, pkg),
        ) by {
            if i < paths.len() - 1 {
                assert(init[i] == paths[i]);
                let j = choose|j: int| 0 <= j < di.len() && di[j] == (merged_usr(init[i])->0, pkg);
                assert(d[j] == di[j]);
            } else {
                assert(d[di.len() as int] == tail[0]);
            }
        }
    }
}

/// On a merged-`/usr` system the index built from a dpkg `.list` file
/// answers for each listed path under both its spelling and its merged
/// `/usr` spelling, so a finding carrying either is attributed.
pub proof fn merged_list_owns_both_spellings(paths: Seq<Seq<char>>, pkg: Seq<char>, i: int)
    requires
        0 <= i < paths.len(),
    ensures
        owner_of(Some(index_of_pairs(dpkg_pairs(paths, pkg, true))), paths[i])
            == (OriginView::Owned { package: pkg }),
        merged_usr(paths[i]) matches Some(m) ==> owner_of(
            Some(index_of_pairs(dpkg_pairs(paths, pkg, true))),
            m,
        ) == (OriginView::Owned { package: pkg }),
{
    let d = dpkg_pairs(paths, pkg, true);
    lemma_dpkg_pairs(paths, pkg);
    lemma_index_covers(d, pkg);
    assert(d.contains((paths[i], pkg)));
    let j = choose|j: int| 0 <= j < d.len() && d[j] == (paths[i], pkg);
    assert(d[j].0 == paths[i]);
    if merged_usr(paths[i]) is Some {
        let m = merged_usr(paths[i])->0;
        assert(d.contains((m, pkg)));
        let k = choose|k: int| 0 <= k < d.len() && d[k] == (m, pkg);
        assert(d[k].0 == m);
    }
}

} // verus!
