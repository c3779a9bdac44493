use vstd::prelude::*;

use crate::checker::Checker;

use crate::finding::{
    findings_view, per_line, unattributed, Finding, FindingView, Metadata, PackageOrigin, Scope,
    ScopeView, StrMap,
};
use crate::path::{extension, extension_of, file_name, file_name_of, file_stem, file_stem_of};
use crate::text::{
    chars_eq_str, chars_of, ends_with, ends_with_chars, join, join_strings, lines, lines_of,
    lemma_rfind_from_bounds, owned, rfind, rfind_chars, slice_chars, string_of, string_views, strs,
    trim, trim_chars,
};
use crate::util::{
    ini_of, last_value, last_value_exec, parse_ini_lines, DocView, IniDoc, IniSection, SectionView,
};

verus! {

/// The checker that surveys systemd services, timers, path watchers and
/// sockets, with their drop-in overrides.
pub struct SystemdChecker;

impl Checker for SystemdChecker {
    fn name(&self) -> (r: &'static str)
        ensures
            r@ == "systemd"@,
    {
        "systemd"
    }
}

/// A parsed unit file: section name → section.
pub type Unit = IniDoc;

/// One section of a unit file: key → values, repeats in source order.
pub type Section = IniSection;

/// How many directories `system_unit_dir` lists.
pub const SYSTEM_UNIT_DIR_COUNT: usize = 4;

/// The system unit directories, in the order systemd prefers them.
pub open spec fn system_unit_dir(i: int) -> Seq<char> {
    if i == 0 {
        "/etc/systemd/system"@
    } else if i == 1 {
        "/run/systemd/system"@
    } else if i == 2 {
        "/lib/systemd/system"@
    } else {
        "/usr/lib/systemd/system"@
    }
}

/// The `i`-th system unit directory.
pub fn system_unit_dir_name(i: usize) -> (r: &'static str)
    requires
        i < SYSTEM_UNIT_DIR_COUNT,
    ensures
        r@ == system_unit_dir(i as int),
{
    if i == 0 {
        "/etc/systemd/system"
    } else if i == 1 {
        "/run/systemd/system"
    } else if i == 2 {
        "/lib/systemd/system"
    } else {
        "/usr/lib/systemd/system"
    }
}

/// How many directories `global_user_unit_dir` lists.
pub const GLOBAL_USER_UNIT_DIR_COUNT: usize = 4;

/// The user unit directories shared by every user.
pub open spec fn global_user_unit_dir(i: int) -> Seq<char> {
    if i == 0 {
        "/etc/systemd/user"@
    } else if i == 1 {
        "/run/systemd/user"@
    } else if i == 2 {
        "/lib/systemd/user"@
    } else {
        "/usr/lib/systemd/user"@
    }
}

/// The `i`-th shared user unit directory.
pub fn global_user_unit_dir_name(i: usize) -> (r: &'static str)
    requires
        i < GLOBAL_USER_UNIT_DIR_COUNT,
    ensures
        r@ == global_user_unit_dir(i as int),
{
    if i == 0 {
        "/etc/systemd/user"
    } else if i == 1 {
        "/run/systemd/user"
    } else if i == 2 {
        "/lib/systemd/user"
    } else {
        "/usr/lib/systemd/user"
    }
}

/// A user's own unit directory, below the home directory.
pub const PERSONAL_UNIT_DIR: &'static str = ".config/systemd/user";

// ─── unit kinds ──────────────────────────────────────────────────────────────

/// The unit types surveyed: services, timers, path watchers, sockets.
pub open spec fn is_unit_ext(e: Seq<char>) -> bool {
    e == "service"@ || e == "timer"@ || e == "path"@ || e == "socket"@
}

fn is_unit_ext_exec(e: &[char]) -> (b: bool)
    ensures
        b == is_unit_ext(e@),
{
    chars_eq_str(e, "service") || chars_eq_str(e, "timer") || chars_eq_str(e, "path")
        || chars_eq_str(e, "socket")
}

/// The extension of the unit file at `path`, when it is a surveyed type.
pub open spec fn unit_ext(path: Seq<char>) -> Option<Seq<char>> {
    match extension(path) {
        Some(e) => if is_unit_ext(e) {
            Some(e)
        } else {
            None
        },
        None => None,
    }
}

/// The extension of the unit file at `path`, when it is a surveyed type.
pub fn unit_extension(path: &str) -> (r: Option<String>)
    ensures
        match r {
            Some(e) => unit_ext(path@) == Some(e@),
            None => unit_ext(path@) is None,
        },
{
    let p = chars_of(path);
    match extension_of(p.as_slice()) {
        Some(e) => {
            if is_unit_ext_exec(e.as_slice()) {
                Some(string_of(e.as_slice()))
            } else {
                None
            }
        },
        None => None,
    }
}

/// The unit that the directory at `path` overrides, with the unit's
/// extension, when the directory is a drop-in `<unit>.<ext>.d` of a
/// surveyed type.
pub open spec fn dropin_unit(path: Seq<char>) -> Option<(Seq<char>, Seq<char>)> {
    match file_name(path) {
        None => None,
        Some(name) => if ends_with(name, ".d"@) {
            let unit = name.subrange(0, name.len() - 2);
            match extension(unit) {
                Some(e) => if is_unit_ext(e) {
                    Some((unit, e))
                } else {
                    None
                },
                None => None,
            }
        } else {
            None
        },
    }
}

/// The unit a drop-in directory overrides and its extension.
pub fn dropin_target(path: &str) -> (r: Option<(String, String)>)
    ensures
        match r {
            Some(u) => dropin_unit(path@) == Some((u.0@, u.1@)),
            None => dropin_unit(path@) is None,
        },
{
    let p = chars_of(path);
    let name = match file_name_of(p.as_slice()) {
        Some(n) => n,
        None => return None,
    };
    let suffix = chars_of(".d");
    proof {
        reveal_strlit(".d");
    }
    if !ends_with_chars(name.as_slice(), suffix.as_slice()) {
        return None;
    }
    let unit = slice_chars(name.as_slice(), 0, name.len() - 2);
    match extension_of(unit.as_slice()) {
        Some(e) => {
            if is_unit_ext_exec(e.as_slice()) {
                Some((string_of(unit.as_slice()), string_of(e.as_slice())))
            } else {
                None
            }
        },
        None => None,
    }
}

/// True for `<unit>.<ext>.d` where `<ext>` is a surveyed unit type; the
/// `*.wants/` and `*.requires/` symlink farms beside them are not drop-ins.
pub fn is_dropin_dir(path: &str) -> (b: bool)
    ensures
        b == dropin_unit(path@) is Some,
{
    dropin_target(path).is_some()
}

// ─── unit files ──────────────────────────────────────────────────────────────

/// Parse a unit file: `[Section]` headers, `key = value` lines (trimmed,
/// repeats accumulating in order), blank lines and `#`/`;` comments
/// skipped, lines outside any section ignored. Continuations are not folded.
pub fn parse_ini(content: &str) -> (unit: Unit)
    ensures
        unit@ == ini_of(content@),
{
    let chars = chars_of(content);
    let ls = lines_of(chars.as_slice());
    parse_ini_lines(&ls)
}

/// Each value of each key of `keys` present in `sec`, as `key=value`, keys
/// in the order given and values in source order.
pub open spec fn collected(sec: SectionView, keys: Seq<Seq<char>>) -> Seq<Seq<char>>
    decreases keys.len(),
{
    if keys.len() == 0 {
        Seq::empty()
    } else {
        let k = keys.last();
        collected(sec, keys.drop_last()) + if sec.contains_key(k) {
            sec[k].map_values(|v: Seq<char>| k + "="@ + v)
        } else {
            Seq::empty()
        }
    }
}

/// Each value of each of `keys` in `section`, as `key=value`.
pub fn collect_keys(section: &Section, keys: &[&str]) -> (r: Vec<String>)
    ensures
        string_views(r@) == collected(section@, strs(keys@)),
{
    let mut out: Vec<String> = Vec::new();
    let mut j: usize = 0;
    while j < keys.len()
        invariant
            j <= keys@.len(),
            string_views(out@) == collected(section@, strs(keys@).take(j as int)),
        decreases keys@.len() - j,
    {
        let k = keys[j];
        let ghost ks = strs(keys@).take(j + 1);
        assert(ks.drop_last() =~= strs(keys@).take(j as int));
        assert(ks.last() == k@);
        let ghost start = string_views(out@);
        match section.get(k) {
            None => {
                assert(string_views(out@) =~= collected(section@, ks));
            },
            Some(vals) => {
                let ghost f = |v: Seq<char>| k@ + "="@ + v;
                let mut i: usize = 0;
                while i < vals.len()
                    invariant
                        i <= vals@.len(),
                        f == (|v: Seq<char>| k@ + "="@ + v),
                        string_views(out@) == start + vals.deep_view().take(i as int).map_values(f),
                    decreases vals@.len() - i,
                {
                    let mut s = owned(k);
                    s.append("=");
                    s.append(vals[i].as_str());
                    let ghost prev = string_views(out@);
                    out.push(s);
                    assert(string_views(out@) =~= prev.push(s@));
                    assert(vals.deep_view()[i as int] == vals@[i as int]@);
                    assert(vals.deep_view().take(i + 1).map_values(f) =~= vals.deep_view().take(
                        i as int,
                    ).map_values(f).push(f(vals.deep_view()[i as int])));
                    assert(string_views(out@) =~= start + vals.deep_view().take(i + 1).map_values(
                        f,
                    ));
                    i = i + 1;
                }
                assert(vals.deep_view().take(vals@.len() as int) =~= vals.deep_view());
                assert(string_views(out@) =~= collected(section@, ks));
            },
        }
        j = j + 1;
    }
    assert(strs(keys@).take(keys@.len() as int) =~= strs(keys@));
    out
}

/// The metadata every unit finding carries: where the unit lives, its
/// description, and what wants or requires it.
pub open spec fn base_meta(doc: DocView, location: Seq<char>) -> Map<Seq<char>, Seq<char>> {
    let m = Map::empty().insert("location"@, location);
    let m = match last_value(doc, "Unit"@, "Description"@) {
        Some(d) => m.insert("description"@, d),
        None => m,
    };
    let m = if doc.contains_key("Install"@) && doc["Install"@].contains_key("WantedBy"@)
        && doc["Install"@]["WantedBy"@].len() > 0 {
        m.insert("wanted_by"@, join(doc["Install"@]["WantedBy"@], ", "@))
    } else {
        m
    };
    if doc.contains_key("Install"@) && doc["Install"@].contains_key("RequiredBy"@)
        && doc["Install"@]["RequiredBy"@].len() > 0 {
        m.insert("required_by"@, join(doc["Install"@]["RequiredBy"@], ", "@))
    } else {
        m
    }
}

/// The metadata every finding of `unit` carries.
pub fn base_metadata(unit: &Unit, location: &str) -> (r: Metadata)
    ensures
        r@ == base_meta(unit@, location@),
{
    let mut m: Metadata = StrMap::new();
    m.insert(owned("location"), owned(location));
    match last_value_exec(unit, "Unit", "Description") {
        Some(d) => {
            m.insert(owned("description"), d);
        },
        None => {},
    }
    match unit.get("Install") {
        None => {},
        Some(install) => {
            match install.get("WantedBy") {
                Some(vals) => {
                    if vals.len() > 0 {
                        assert(vals.deep_view() =~= string_views(vals@));
                        m.insert(owned("wanted_by"), join_strings(vals, ", "));
                    }
                },
                None => {},
            }
            match install.get("RequiredBy") {
                Some(vals) => {
                    if vals.len() > 0 {
                        assert(vals.deep_view() =~= string_views(vals@));
                        m.insert(owned("required_by"), join_strings(vals, ", "));
                    }
                },
                None => {},
            }
        },
    }
    m
}

/// Which unit a timer, path watcher or socket at `source` activates: the
/// last `key` of section `sec` when set, else the unit of the same stem
/// with the `.service` extension.
pub open spec fn activated(doc: DocView, source: Seq<char>, sec: Seq<char>, key: Seq<char>) -> Option<
    Seq<char>,
> {
    match last_value(doc, sec, key) {
        Some(v) => Some(v),
        None => match file_stem(source) {
            Some(stem) => Some(stem + ".service"@),
            None => None,
        },
    }
}

/// Which unit a timer, path watcher or socket activates: `[Timer]Unit=`,
/// `[Path]Unit=` or `[Socket]Service=` when set (the last one when
/// repeated), else the unit of the same name with `.service`.
pub fn activated_unit_name(unit: &Unit, source: &str, section: &str, key: &str) -> (r: Option<
    String,
>)
    ensures
        match r {
            Some(a) => activated(unit@, source@, section@, key@) == Some(a@),
            None => activated(unit@, source@, section@, key@) is None,
        },
{
    match last_value_exec(unit, section, key) {
        Some(v) => Some(v),
        None => {
            let p = chars_of(source);
            match file_stem_of(p.as_slice()) {
                Some(stem) => {
                    let mut s = string_of(stem.as_slice());
                    s.append(".service");
                    Some(s)
                },
                None => None,
            }
        },
    }
}

// ─── services ────────────────────────────────────────────────────────────────

/// The command directives of a service, in lifecycle order.
pub open spec fn service_keys() -> Seq<Seq<char>> {
    seq![
        "ExecCondition"@,
        "ExecStartPre"@,
        "ExecStart"@,
        "ExecStartPost"@,
        "ExecReload"@,
        "ExecStop"@,
        "ExecStopPost"@,
    ]
}

/// The metadata of a service command found under `key`.
pub open spec fn service_meta(doc: DocView, location: Seq<char>, key: Seq<char>) -> Map<
    Seq<char>,
    Seq<char>,
> {
    let m = base_meta(doc, location).insert("directive"@, key);
    let m = match last_value(doc, "Service"@, "Type"@) {
        Some(t) => m.insert("service_type"@, t),
        None => m,
    };
    match last_value(doc, "Service"@, "User"@) {
        Some(u) => m.insert("run_as"@, u),
        None => m,
    }
}

/// The finding for one value of a command directive; an empty value resets
/// the directive and is no finding.
pub open spec fn service_value_findings(
    doc: DocView,
    source: Seq<char>,
    scope: ScopeView,
    location: Seq<char>,
    key: Seq<char>,
    v: Seq<char>,
) -> Seq<FindingView> {
    let t = trim(v);
    if t.len() == 0 {
        Seq::empty()
    } else {
        seq![
            unattributed(
                "systemd"@,
                "systemd service "@ + key + "= ("@ + location + ")"@,
                source,
                Some(t),
                scope,
                service_meta(doc, location, key),
            ),
        ]
    }
}

/// The findings for every value of the command directive `key`.
pub open spec fn service_key_findings(
    doc: DocView,
    source: Seq<char>,
    scope: ScopeView,
    location: Seq<char>,
    key: Seq<char>,
) -> Seq<FindingView> {
    let svc = doc["Service"@];
    if svc.contains_key(key) {
        per_line(
            svc[key],
            |k: int, v: Seq<char>| service_value_findings(doc, source, scope, location, key, v),
        )
    } else {
        Seq::empty()
    }
}

/// The findings of a service unit: one per non-empty command value.
pub open spec fn service_findings(
    doc: DocView,
    source: Seq<char>,
    scope: ScopeView,
    location: Seq<char>,
) -> Seq<FindingView> {
    if !doc.contains_key("Service"@) {
        Seq::empty()
    } else {
        per_line(
            service_keys(),
            |j: int, key: Seq<char>| service_key_findings(doc, source, scope, location, key),
        )
    }
}

fn service_finding(unit: &Unit, source: &str, scope: &Scope, location: &str, key: &str, value: String) -> (r: Finding)
    ensures
        r@ == unattributed(
            "systemd"@,
            "systemd service "@ + key@ + "= ("@ + location@ + ")"@,
            source@,
            Some(value@),
            scope@,
            service_meta(unit@, location@, key@),
        ),
{
    let mut metadata = base_metadata(unit, location);
    metadata.insert(owned("directive"), owned(key));
    match last_value_exec(unit, "Service", "Type") {
        Some(t) => {
            metadata.insert(owned("service_type"), t);
        },
        None => {},
    }
    match last_value_exec(unit, "Service", "User") {
        Some(u) => {
            metadata.insert(owned("run_as"), u);
        },
        None => {},
    }
    let mut mechanism = owned("systemd service ");
    mechanism.append(key);
    mechanism.append("= (");
    mechanism.append(location);
    mechanism.append(")");
    Finding {
        category: owned("systemd"),
        mechanism,
        source: owned(source),
        target: Some(value),
        scope: scope.duplicate(),
        package: PackageOrigin::Unknown,
        metadata,
    }
}

fn service_key(
    unit: &Unit,
    svc: &Section,
    source: &str,
    scope: &Scope,
    location: &str,
    key: &str,
    out: &mut Vec<Finding>,
)
    requires
        unit@.contains_key("Service"@),
        unit@["Service"@] == svc@,
    ensures
        findings_view(final(out)@) == findings_view(old(out)@) + service_key_findings(
            unit@,
            source@,
            scope@,
            location@,
            key@,
        ),
{
    match svc.get(key) {
        None => {
            assert(findings_view(out@) + service_key_findings(
                unit@,
                source@,
                scope@,
                location@,
                key@,
            ) =~= findings_view(out@));
        },
        Some(values) => {
            let ghost g = |k: int, v: Seq<char>|
                service_value_findings(unit@, source@, scope@, location@, key@, v);
            let ghost start = findings_view(out@);
            let mut k: usize = 0;
            while k < values.len()
                invariant
                    k <= values@.len(),
                    unit@.contains_key("Service"@),
                    unit@["Service"@] == svc@,
                    svc@.contains_key(key@),
                    svc@[key@] == values.deep_view(),
                    g == (|k: int, v: Seq<char>|
                        service_value_findings(unit@, source@, scope@, location@, key@, v)),
                    findings_view(out@) == start + per_line(values.deep_view().take(k as int), g),
                decreases values@.len() - k,
            {
                let ghost prev = findings_view(out@);
                assert(values.deep_view().take(k + 1).drop_last() =~= values.deep_view().take(
                    k as int,
                ));
                assert(values.deep_view()[k as int] == values@[k as int]@);
                let raw = chars_of(values[k].as_str());
                let t = trim_chars(raw.as_slice());
                if t.len() > 0 {
                    let f = service_finding(unit, source, scope, location, key, string_of(t.as_slice()));
                    out.push(f);
                }
                assert(findings_view(out@) =~= prev + g(k as int, values@[k as int]@));
                k = k + 1;
            }
            assert(values.deep_view().take(values@.len() as int) =~= values.deep_view());
        },
    }
}

/// The findings of a service unit at `source`.
pub fn emit_service(unit: &Unit, source: &str, scope: &Scope, location: &str) -> (r: Vec<Finding>)
    ensures
        findings_view(r@) == service_findings(unit@, source@, scope@, location@),
{
    let mut out: Vec<Finding> = Vec::new();
    let svc = match unit.get("Service") {
        Some(s) => s,
        None => {
            assert(findings_view(out@) =~= Seq::<FindingView>::empty());
            return out;
        },
    };
    let keys = vec![
        "ExecCondition",
        "ExecStartPre",
        "ExecStart",
        "ExecStartPost",
        "ExecReload",
        "ExecStop",
        "ExecStopPost",
    ];
    assert(strs(keys@) =~= service_keys());
    let ghost f = |j: int, key: Seq<char>|
        service_key_findings(unit@, source@, scope@, location@, key);
    let mut j: usize = 0;
    while j < keys.len()
        invariant
            j <= keys@.len(),
            strs(keys@) == service_keys(),
            unit@.contains_key("Service"@),
            unit@["Service"@] == svc@,
            f == (|j: int, key: Seq<char>|
                service_key_findings(unit@, source@, scope@, location@, key)),
            findings_view(out@) == per_line(strs(keys@).take(j as int), f),
        decreases keys@.len() - j,
    {
        assert(strs(keys@).take(j + 1).drop_last() =~= strs(keys@).take(j as int));
        assert(strs(keys@)[j as int] == keys@[j as int]@);
        service_key(unit, svc, source, scope, location, keys[j], &mut out);
        j = j + 1;
    }
    assert(strs(keys@).take(keys@.len() as int) =~= strs(keys@));
    out
}

// ─── timers, path watchers, sockets ──────────────────────────────────────────

/// The trigger directives of a timer.
pub open spec fn timer_keys() -> Seq<Seq<char>> {
    seq![
        "OnCalendar"@,
        "OnBootSec"@,
        "OnStartupSec"@,
        "OnActiveSec"@,
        "OnUnitActiveSec"@,
        "OnUnitInactiveSec"@,
    ]
}

/// The trigger directives of a path watcher.
pub open spec fn path_keys() -> Seq<Seq<char>> {
    seq!["PathExists"@, "PathExistsGlob"@, "PathChanged"@, "PathModified"@, "DirectoryNotEmpty"@]
}

/// The listening directives of a socket.
pub open spec fn socket_keys() -> Seq<Seq<char>> {
    seq![
        "ListenStream"@,
        "ListenDatagram"@,
        "ListenSequentialPacket"@,
        "ListenFIFO"@,
        "ListenSpecial"@,
        "ListenNetlink"@,
        "ListenMessageQueue"@,
        "ListenUSBFunction"@,
    ]
}

/// The one finding of a triggered unit whose section `sec` sets any of
/// `keys`: the `key=value` triggers joined by `; ` are its target.
pub open spec fn trigger_findings(
    doc: DocView,
    source: Seq<char>,
    scope: ScopeView,
    location: Seq<char>,
    sec: Seq<char>,
    keys: Seq<Seq<char>>,
    what: Seq<char>,
    metadata: Map<Seq<char>, Seq<char>>,
) -> Seq<FindingView> {
    if !doc.contains_key(sec) {
        Seq::empty()
    } else {
        let bits = collected(doc[sec], keys);
        if bits.len() == 0 {
            Seq::empty()
        } else {
            seq![
                unattributed(
                    "systemd"@,
                    "systemd "@ + what + " ("@ + location + ")"@,
                    source,
                    Some(join(bits, "; "@)),
                    scope,
                    metadata,
                ),
            ]
        }
    }
}

fn trigger_unit(
    unit: &Unit,
    source: &str,
    scope: &Scope,
    location: &str,
    sec: &str,
    keys: &[&str],
    what: &str,
    metadata: Metadata,
) -> (r: Vec<Finding>)
    ensures
        findings_view(r@) == trigger_findings(
            unit@,
            source@,
            scope@,
            location@,
            sec@,
            strs(keys@),
            what@,
            metadata@,
        ),
{
    let mut out: Vec<Finding> = Vec::new();
    let s = match unit.get(sec) {
        Some(s) => s,
        None => {
            assert(findings_view(out@) =~= Seq::<FindingView>::empty());
            return out;
        },
    };
    let bits = collect_keys(s, keys);
    if bits.len() == 0 {
        assert(findings_view(out@) =~= Seq::<FindingView>::empty());
        return out;
    }
    let mut mechanism = owned("systemd ");
    mechanism.append(what);
    mechanism.append(" (");
    mechanism.append(location);
    mechanism.append(")");
    out.push(
        Finding {
            category: owned("systemd"),
            mechanism,
            source: owned(source),
            target: Some(join_strings(&bits, "; ")),
            scope: scope.duplicate(),
            package: PackageOrigin::Unknown,
            metadata,
        },
    );
    assert(findings_view(out@) =~= trigger_findings(
        unit@,
        source@,
        scope@,
        location@,
        sec@,
        strs(keys@),
        what@,
        metadata@,
    ));
    out
}

/// The metadata of a timer: the base, `Persistent=` and the unit it
/// activates.
pub open spec fn timer_meta(doc: DocView, source: Seq<char>, location: Seq<char>) -> Map<
    Seq<char>,
    Seq<char>,
> {
    let m = base_meta(doc, location);
    let m = match last_value(doc, "Timer"@, "Persistent"@) {
        Some(p) => m.insert("persistent"@, p),
        None => m,
    };
    match activated(doc, source, "Timer"@, "Unit"@) {
        Some(a) => m.insert("activates"@, a),
        None => m,
    }
}

/// The metadata of a path watcher or socket: the base and the unit it
/// activates, named by `key` in section `sec`.
pub open spec fn activation_meta(
    doc: DocView,
    source: Seq<char>,
    location: Seq<char>,
    sec: Seq<char>,
    key: Seq<char>,
) -> Map<Seq<char>, Seq<char>> {
    match activated(doc, source, sec, key) {
        Some(a) => base_meta(doc, location).insert("activates"@, a),
        None => base_meta(doc, location),
    }
}

/// The findings of a timer unit at `source`.
pub fn emit_timer(unit: &Unit, source: &str, scope: &Scope, location: &str) -> (r: Vec<Finding>)
    ensures
        findings_view(r@) == trigger_findings(
            unit@,
            source@,
            scope@,
            location@,
            "Timer"@,
            timer_keys(),
            "timer"@,
            timer_meta(unit@, source@, location@),
        ),
{
    let keys = vec![
        "OnCalendar",
        "OnBootSec",
        "OnStartupSec",
        "OnActiveSec",
        "OnUnitActiveSec",
        "OnUnitInactiveSec",
    ];
    assert(strs(keys@) =~= timer_keys());
    let mut metadata = base_metadata(unit, location);
    match last_value_exec(unit, "Timer", "Persistent") {
        Some(p) => {
            metadata.insert(owned("persistent"), p);
        },
        None => {},
    }
    match activated_unit_name(unit, source, "Timer", "Unit") {
        Some(a) => {
            metadata.insert(owned("activates"), a);
        },
        None => {},
    }
    trigger_unit(unit, source, scope, location, "Timer", keys.as_slice(), "timer", metadata)
}

/// The findings of a path-watcher unit at `source`.
pub fn emit_path(unit: &Unit, source: &str, scope: &Scope, location: &str) -> (r: Vec<Finding>)
    ensures
        findings_view(r@) == trigger_findings(
            unit@,
            source@,
            scope@,
            location@,
            "Path"@,
            path_keys(),
            "path watcher"@,
            activation_meta(unit@, source@, location@, "Path"@, "Unit"@),
        ),
{
    let keys = vec!["PathExists", "PathExistsGlob", "PathChanged", "PathModified", "DirectoryNotEmpty"];
    assert(strs(keys@) =~= path_keys());
    let mut metadata = base_metadata(unit, location);
    match activated_unit_name(unit, source, "Path", "Unit") {
        Some(a) => {
            metadata.insert(owned("activates"), a);
        },
        None => {},
    }
    trigger_unit(unit, source, scope, location, "Path", keys.as_slice(), "path watcher", metadata)
}

/// The findings of a socket unit at `source`.
pub fn emit_socket(unit: &Unit, source: &str, scope: &Scope, location: &str) -> (r: Vec<Finding>)
    ensures
        findings_view(r@) == trigger_findings(
            unit@,
            source@,
            scope@,
            location@,
            "Socket"@,
            socket_keys(),
            "socket activation"@,
            activation_meta(unit@, source@, location@, "Socket"@, "Service"@),
        ),
{
    let keys = vec![
        "ListenStream",
        "ListenDatagram",
        "ListenSequentialPacket",
        "ListenFIFO",
        "ListenSpecial",
        "ListenNetlink",
        "ListenMessageQueue",
        "ListenUSBFunction",
    ];
    assert(strs(keys@) =~= socket_keys());
    let mut metadata = base_metadata(unit, location);
    match activated_unit_name(unit, source, "Socket", "Service") {
        Some(a) => {
            metadata.insert(owned("activates"), a);
        },
        None => {},
    }
    trigger_unit(
        unit,
        source,
        scope,
        location,
        "Socket",
        keys.as_slice(),
        "socket activation",
        metadata,
    )
}

/// The findings of a unit of type `ext` at `source`.
pub open spec fn unit_findings(
    doc: DocView,
    source: Seq<char>,
    ext: Seq<char>,
    scope: ScopeView,
    location: Seq<char>,
) -> Seq<FindingView> {
    if ext == "service"@ {
        service_findings(doc, source, scope, location)
    } else if ext == "timer"@ {
        trigger_findings(
            doc,
            source,
            scope,
            location,
            "Timer"@,
            timer_keys(),
            "timer"@,
            timer_meta(doc, source, location),
        )
    } else if ext == "path"@ {
        trigger_findings(
            doc,
            source,
            scope,
            location,
            "Path"@,
            path_keys(),
            "path watcher"@,
            activation_meta(doc, source, location, "Path"@, "Unit"@),
        )
    } else if ext == "socket"@ {
        trigger_findings(
            doc,
            source,
            scope,
            location,
            "Socket"@,
            socket_keys(),
            "socket activation"@,
            activation_meta(doc, source, location, "Socket"@, "Service"@),
        )
    } else {
        Seq::empty()
    }
}

/// The findings of a unit of type `ext` at `source`.
pub fn emit_findings(unit: &Unit, source: &str, ext: &str, scope: &Scope, location: &str) -> (r: Vec<
    Finding,
>)
    ensures
        findings_view(r@) == unit_findings(unit@, source@, ext@, scope@, location@),
{
    if crate::text::str_eq(ext, "service") {
        emit_service(unit, source, scope, location)
    } else if crate::text::str_eq(ext, "timer") {
        emit_timer(unit, source, scope, location)
    } else if crate::text::str_eq(ext, "path") {
        emit_path(unit, source, scope, location)
    } else if crate::text::str_eq(ext, "socket") {
        emit_socket(unit, source, scope, location)
    } else {
        let out: Vec<Finding> = Vec::new();
        assert(findings_view(out@) =~= Seq::<FindingView>::empty());
        out
    }
}

// ─── drop-in overrides ───────────────────────────────────────────────────────

/// A mechanism marked as an override: ` override` inserted before its last
/// ` (`.
pub open spec fn override_mechanism(m: Seq<char>) -> Seq<char> {
    match rfind(m, " ("@) {
        Some(i) => m.subrange(0, i) + " override"@ + m.subrange(i, m.len() as int),
        None => m,
    }
}

/// A finding from a drop-in fragment overriding `unit`.
pub open spec fn as_override(f: FindingView, unit: Seq<char>) -> FindingView {
    FindingView {
        mechanism: override_mechanism(f.mechanism),
        metadata: f.metadata.insert("overrides"@, unit),
        ..f
    }
}

fn override_mechanism_exec(m: &str) -> (r: String)
    ensures
        r@ == override_mechanism(m@),
{
    let c = chars_of(m);
    let needle = chars_of(" (");
    match rfind_chars(c.as_slice(), needle.as_slice()) {
        Some(i) => {
            proof {
                lemma_rfind_from_bounds(c@, needle@, c@.len() - needle@.len());
            }
            let mut s = string_of(slice_chars(c.as_slice(), 0, i).as_slice());
            s.append(" override");
            s.append(string_of(slice_chars(c.as_slice(), i, c.len()).as_slice()).as_str());
            s
        },
        None => owned(m),
    }
}

/// The findings of a drop-in fragment at `source`, parsed as `unit`, that
/// overrides the unit `unit_name` of type `ext`: the unit's findings, each
/// marked as an override of it.
pub fn dropin_findings(
    unit: &Unit,
    source: &str,
    unit_name: &str,
    ext: &str,
    scope: &Scope,
    location: &str,
) -> (r: Vec<Finding>)
    ensures
        findings_view(r@) == unit_findings(unit@, source@, ext@, scope@, location@).map_values(
            |f: FindingView| as_override(f, unit_name@),
        ),
{
    let mut emitted = emit_findings(unit, source, ext, scope, location);
    let ghost all = findings_view(emitted@);
    let ghost g = |f: FindingView| as_override(f, unit_name@);
    let mut out: Vec<Finding> = Vec::new();
    let ghost n = emitted@.len();
    while emitted.len() > 0
        invariant
            emitted@.len() <= n,
            all.len() == n,
            g == (|f: FindingView| as_override(f, unit_name@)),
            findings_view(emitted@) == all.skip(n - emitted@.len()),
            findings_view(out@) == all.take(n - emitted@.len()).map_values(g),
        decreases emitted@.len(),
    {
        let ghost k = n - emitted@.len();
        let ghost old_e = emitted@;
        assert(findings_view(old_e)[0] == old_e[0]@);
        assert(all.skip(k)[0] == all[k]);
        let f = emitted.remove(0);
        assert(f@ == all[k]);
        assert(findings_view(emitted@) =~= findings_view(old_e).skip(1));
        assert(all.skip(k).skip(1) =~= all.skip(k + 1));
        let mut metadata = f.metadata;
        metadata.insert(owned("overrides"), owned(unit_name));
        let mechanism = override_mechanism_exec(f.mechanism.as_str());
        out.push(
            Finding {
                category: f.category,
                mechanism,
                source: f.source,
                target: f.target,
                scope: f.scope,
                package: f.package,
                metadata,
            },
        );
        assert(all.take(k + 1).map_values(g) =~= all.take(k).map_values(g).push(g(all[k])));
        assert(findings_view(out@) =~= all.take(k + 1).map_values(g));
    }
    assert(all.take(n as int) =~= all);
    out
}

} // verus!
