use vstd::prelude::*;

use crate::checker::Checker;

use crate::finding::{
    findings_view, per_line, unattributed, Finding, FindingView, Metadata, PackageOrigin, Scope,
    ScopeView, StrMap,
};
use crate::text::{
    cat, chars_of, contains_char, decimal, decimal_string, join, join_range, lines, lines_of,
    owned, rest_after_words, rest_from_word, split_ws, str_eq, string_of, trim, trim_chars, views,
    words,
};

verus! {

/// The checker that surveys cron, anacron and at.
pub struct CronChecker;

impl Checker for CronChecker {
    fn name(&self) -> (r: &'static str)
        ensures
            r@ == "cron"@,
    {
        "cron"
    }
}

/// The system crontab.
pub const SYSTEM_CRONTAB: &'static str = "/etc/crontab";

/// The directory of crontab fragments in the system format.
pub const CRON_D: &'static str = "/etc/cron.d";

/// The anacron table.
pub const ANACRONTAB: &'static str = "/etc/anacrontab";

/// The spool of pending at jobs.
pub const AT_SPOOL: &'static str = "/var/spool/at";

/// The per-user crontab spools: RHEL and Fedora keep the files directly in
/// the first, Debian and Ubuntu in the second.
pub const USER_SPOOL: &'static str = "/var/spool/cron";

pub const USER_SPOOL_DEBIAN: &'static str = "/var/spool/cron/crontabs";

/// How many run-parts intervals `interval` lists.
pub const INTERVAL_COUNT: usize = 4;

/// The run-parts intervals, each with a directory `/etc/cron.<interval>`.
pub open spec fn interval(i: int) -> Seq<char> {
    if i == 0 {
        "hourly"@
    } else if i == 1 {
        "daily"@
    } else if i == 2 {
        "weekly"@
    } else {
        "monthly"@
    }
}

/// The `i`-th run-parts interval.
pub fn interval_name(i: usize) -> (r: &'static str)
    requires
        i < INTERVAL_COUNT,
    ensures
        r@ == interval(i as int),
{
    if i == 0 {
        "hourly"
    } else if i == 1 {
        "daily"
    } else if i == 2 {
        "weekly"
    } else {
        "monthly"
    }
}

/// The directory of scripts run once per `interval`.
pub fn interval_dir(interval: &str) -> (r: String)
    ensures
        r@ == "/etc/cron."@ + interval@,
{
    cat("/etc/cron.", interval)
}

// ─── line parser ─────────────────────────────────────────────────────────────

/// One crontab entry.
#[derive(Debug)]
pub struct CronLine {
    pub schedule: String,
    pub user: Option<String>,
    pub command: String,
}

pub struct CronLineView {
    pub schedule: Seq<char>,
    pub user: Option<Seq<char>>,
    pub command: Seq<char>,
}

impl View for CronLine {
    type V = CronLineView;

    open spec fn view(&self) -> CronLineView {
        CronLineView {
            schedule: self.schedule@,
            user: match self.user {
                Some(u) => Some(u@),
                None => None,
            },
            command: self.command@,
        }
    }
}

/// The entry a crontab line holds. The words of the line are a schedule (one
/// `@`-word such as `@reboot`, or five fields, rejoined with single spaces),
/// then, where `has_user`, the user to run as, then a non-empty command: the
/// rest of the trimmed line as cron runs it, its spacing kept. Blank lines,
/// comments and environment assignments (a first word holding `=`) hold no
/// entry, nor do lines short of words.
pub open spec fn cron_line(line: Seq<char>, has_user: bool) -> Option<CronLineView> {
    let t = trim(line);
    let ws = words(t);
    if t.len() == 0 || t[0] == '#' || ws.len() == 0 || ws[0].contains('=') {
        None
    } else {
        let ns: int = if ws[0].len() > 0 && ws[0][0] == '@' {
            1
        } else {
            5
        };
        let nu: int = if has_user {
            1
        } else {
            0
        };
        if ws.len() <= ns + nu {
            None
        } else {
            Some(
                CronLineView {
                    schedule: join(ws.subrange(0, ns), " "@),
                    user: if has_user {
                        Some(ws[ns])
                    } else {
                        None
                    },
                    command: rest_after_words(t, (ns + nu) as nat),
                },
            )
        }
    }
}

/// Parse one cron line. `has_user` is true for `/etc/crontab` and
/// `/etc/cron.d/*`, false for per-user crontabs, where the user is the
/// file's name.
pub fn parse_cron_line(line: &str, has_user: bool) -> (r: Option<CronLine>)
    ensures
        match r {
            Some(c) => cron_line(line@, has_user) == Some(c@),
            None => cron_line(line@, has_user) is None,
        },
{
    let raw = chars_of(line);
    let t = trim_chars(raw.as_slice());
    if t.len() == 0 || t[0] == '#' {
        return None;
    }
    let ws = split_ws(t.as_slice());
    if ws.len() == 0 {
        return None;
    }
    assert(views(ws@)[0] == ws@[0]@);
    if contains_char(ws[0].as_slice(), '=') {
        return None;
    }
    let ns: usize = if ws[0].len() > 0 && ws[0][0] == '@' {
        1
    } else {
        5
    };
    let nu: usize = if has_user {
        1
    } else {
        0
    };
    if ws.len() <= ns + nu {
        return None;
    }
    let sep = chars_of(" ");
    let schedule = string_of(join_range(&ws, 0, ns, sep.as_slice()).as_slice());
    let user = if has_user {
        assert(views(ws@)[ns as int] == ws@[ns as int]@);
        Some(string_of(ws[ns].as_slice()))
    } else {
        None
    };
    let command = string_of(rest_from_word(t.as_slice(), ns + nu).as_slice());
    assert(views(ws@).subrange(0, ns as int) == views(ws@).subrange(0, ns as int));
    Some(CronLine { schedule, user, command })
}

/// How a crontab entry with `schedule` is described, after `prefix`.
pub open spec fn cron_mechanism(schedule: Seq<char>, prefix: Seq<char>) -> Seq<char> {
    if schedule == "@reboot"@ {
        prefix + "@reboot — runs at every boot"@
    } else {
        prefix + "schedule `"@ + schedule + "`"@
    }
}

/// The metadata of a crontab entry on line `i`: schedule, line number, the
/// user to run as if the table names one, and a persistence note for
/// `@reboot`.
pub open spec fn cron_metadata(schedule: Seq<char>, user: Option<Seq<char>>, i: int) -> Map<
    Seq<char>,
    Seq<char>,
> {
    let m = Map::empty().insert("schedule"@, schedule).insert("line"@, decimal((i + 1) as nat));
    let m = match user {
        Some(u) => m.insert("run_as"@, u),
        None => m,
    };
    if schedule == "@reboot"@ {
        m.insert("persistence"@, "runs at every boot — classic persistence vector"@)
    } else {
        m
    }
}

/// How a crontab entry with `schedule` is described, after `prefix`.
pub fn mechanism_for(schedule: &str, prefix: &str) -> (r: String)
    ensures
        r@ == cron_mechanism(schedule@, prefix@),
{
    if str_eq(schedule, "@reboot") {
        let mut s = owned(prefix);
        s.append("@reboot — runs at every boot");
        s
    } else {
        let mut s = owned(prefix);
        s.append("schedule `");
        s.append(schedule);
        s.append("`");
        s
    }
}

/// The metadata of a crontab entry on line `lineno` (counted from 0).
pub fn metadata_for(schedule: &str, user: Option<&str>, lineno: usize) -> (r: Metadata)
    requires
        lineno < usize::MAX,
    ensures
        r@ == cron_metadata(
            schedule@,
            match user {
                Some(u) => Some(u@),
                None => None,
            },
            lineno as int,
        ),
{
    let mut m: Metadata = StrMap::new();
    m.insert(owned("schedule"), owned(schedule));
    m.insert(owned("line"), decimal_string((lineno + 1) as u64));
    match user {
        Some(u) => {
            m.insert(owned("run_as"), owned(u));
        },
        None => {},
    }
    if str_eq(schedule, "@reboot") {
        m.insert(owned("persistence"), owned("runs at every boot — classic persistence vector"));
    }
    m
}

// ─── system crontab + cron.d ─────────────────────────────────────────────────

/// The finding for line `i` of a system-format crontab, if it holds an
/// entry.
pub open spec fn system_cron_findings(source: Seq<char>, i: int, raw: Seq<char>) -> Seq<
    FindingView,
> {
    match cron_line(raw, true) {
        None => Seq::empty(),
        Some(c) => seq![
            unattributed(
                "cron"@,
                cron_mechanism(c.schedule, "cron "@),
                source,
                Some(c.command),
                ScopeView::System,
                cron_metadata(c.schedule, c.user, i),
            ),
        ],
    }
}

/// The findings of a system-format crontab (`/etc/crontab`,
/// `/etc/cron.d/*`) at `source` holding `content`.
pub fn scan_system_crontab(source: &str, content: &str) -> (r: Vec<Finding>)
    ensures
        findings_view(r@) == per_line(
            lines(content@),
            |i: int, raw: Seq<char>| system_cron_findings(source@, i, raw),
        ),
{
    let chars = chars_of(content);
    let ls = lines_of(chars.as_slice());
    let ghost f = |i: int, raw: Seq<char>| system_cron_findings(source@, i, raw);
    let mut findings: Vec<Finding> = Vec::new();
    let mut i: usize = 0;
    while i < ls.len()
        invariant
            i <= ls@.len(),
            views(ls@) == lines(content@),
            f == (|i: int, raw: Seq<char>| system_cron_findings(source@, i, raw)),
            findings_view(findings@) == per_line(views(ls@).take(i as int), f),
        decreases ls@.len() - i,
    {
        let ghost prev = findings_view(findings@);
        assert(views(ls@).take(i + 1).drop_last() =~= views(ls@).take(i as int));
        assert(views(ls@)[i as int] == ls@[i as int]@);
        let line = string_of(ls[i].as_slice());
        match parse_cron_line(line.as_str(), true) {
            None => {
                assert(findings_view(findings@) =~= prev + f(i as int, ls@[i as int]@));
            },
            Some(parsed) => {
                let metadata = match &parsed.user {
                    Some(u) => metadata_for(parsed.schedule.as_str(), Some(u.as_str()), i),
                    None => metadata_for(parsed.schedule.as_str(), None, i),
                };
                let finding = Finding {
                    category: owned("cron"),
                    mechanism: mechanism_for(parsed.schedule.as_str(), "cron "),
                    source: owned(source),
                    target: Some(parsed.command),
                    scope: Scope::System,
                    package: PackageOrigin::Unknown,
                    metadata,
                };
                findings.push(finding);
                assert(findings_view(findings@) =~= prev + f(i as int, ls@[i as int]@));
            },
        }
        i = i + 1;
    }
    assert(views(ls@).take(ls@.len() as int) =~= views(ls@));
    findings
}

// ─── per-user crontabs ───────────────────────────────────────────────────────

/// A spool entry named `name` is a user's crontab unless it is hidden.
pub fn is_user_crontab_name(name: &str) -> (b: bool)
    ensures
        b == !(name@.len() > 0 && name@[0] == '.'),
{
    let c = chars_of(name);
    !(c.len() > 0 && c[0] == '.')
}

/// The finding for line `i` of the crontab of the user `scope`, if it holds
/// an entry.
pub open spec fn user_cron_findings(source: Seq<char>, scope: ScopeView, i: int, raw: Seq<char>) -> Seq<
    FindingView,
> {
    match cron_line(raw, false) {
        None => Seq::empty(),
        Some(c) => seq![
            unattributed(
                "cron"@,
                cron_mechanism(c.schedule, "user crontab — "@),
                source,
                Some(c.command),
                scope,
                cron_metadata(c.schedule, None, i),
            ),
        ],
    }
}

/// The findings of the crontab at `source` of the user `scope`, holding
/// `content`.
pub fn scan_user_crontab(source: &str, scope: &Scope, content: &str) -> (r: Vec<Finding>)
    ensures
        findings_view(r@) == per_line(
            lines(content@),
            |i: int, raw: Seq<char>| user_cron_findings(source@, scope@, i, raw),
        ),
{
    let chars = chars_of(content);
    let ls = lines_of(chars.as_slice());
    let ghost f = |i: int, raw: Seq<char>| user_cron_findings(source@, scope@, i, raw);
    let mut findings: Vec<Finding> = Vec::new();
    let mut i: usize = 0;
    while i < ls.len()
        invariant
            i <= ls@.len(),
            views(ls@) == lines(content@),
            f == (|i: int, raw: Seq<char>| user_cron_findings(source@, scope@, i, raw)),
            findings_view(findings@) == per_line(views(ls@).take(i as int), f),
        decreases ls@.len() - i,
    {
        let ghost prev = findings_view(findings@);
        assert(views(ls@).take(i + 1).drop_last() =~= views(ls@).take(i as int));
        assert(views(ls@)[i as int] == ls@[i as int]@);
        let line = string_of(ls[i].as_slice());
        match parse_cron_line(line.as_str(), false) {
            None => {
                assert(findings_view(findings@) =~= prev + f(i as int, ls@[i as int]@));
            },
            Some(parsed) => {
                let metadata = metadata_for(parsed.schedule.as_str(), None, i);
                let finding = Finding {
                    category: owned("cron"),
                    mechanism: mechanism_for(parsed.schedule.as_str(), "user crontab — "),
                    source: owned(source),
                    target: Some(parsed.command),
                    scope: scope.duplicate(),
                    package: PackageOrigin::Unknown,
                    metadata,
                };
                findings.push(finding);
                assert(findings_view(findings@) =~= prev + f(i as int, ls@[i as int]@));
            },
        }
        i = i + 1;
    }
    assert(views(ls@).take(ls@.len() as int) =~= views(ls@));
    findings
}

// ─── /etc/cron.{interval}/ ───────────────────────────────────────────────────

/// A regular file named `name` with permission bits `mode` in an interval
/// directory is a script that run-parts runs: not `README`, not the
/// `0anacron` hook, not hidden, and executable by someone.
pub open spec fn is_interval_script(name: Seq<char>, mode: u32) -> bool {
    &&& name != "README"@
    &&& name != "0anacron"@
    &&& !(name.len() > 0 && name[0] == '.')
    &&& mode & 0o111u32 != 0
}

/// Whether run-parts runs the file `name` with permission bits `mode`.
pub fn interval_script(name: &str, mode: u32) -> (b: bool)
    ensures
        b == is_interval_script(name@, mode),
{
    let c = chars_of(name);
    !str_eq(name, "README") && !str_eq(name, "0anacron") && !(c.len() > 0 && c[0] == '.') && mode
        & 0o111u32 != 0
}

/// The finding for an interval script at `source` of `size` bytes.
pub open spec fn interval_finding(interval: Seq<char>, source: Seq<char>, size: nat) -> FindingView {
    unattributed(
        "cron"@,
        "/etc/cron."@ + interval + "/ — runs once "@ + interval + " via run-parts"@,
        source,
        None,
        ScopeView::System,
        Map::empty().insert("interval"@, interval).insert("size_bytes"@, decimal(size)),
    )
}

/// The finding for an interval script at `source` of `size` bytes.
pub fn interval_script_finding(interval: &str, source: &str, size: u64) -> (r: Finding)
    ensures
        r@ == interval_finding(interval@, source@, size as nat),
{
    let mut metadata: Metadata = StrMap::new();
    metadata.insert(owned("interval"), owned(interval));
    metadata.insert(owned("size_bytes"), decimal_string(size));
    let mut mechanism = owned("/etc/cron.");
    mechanism.append(interval);
    mechanism.append("/ — runs once ");
    mechanism.append(interval);
    mechanism.append(" via run-parts");
    Finding {
        category: owned("cron"),
        mechanism,
        source: owned(source),
        target: None,
        scope: Scope::System,
        package: PackageOrigin::Unknown,
        metadata,
    }
}

// ─── anacrontab ──────────────────────────────────────────────────────────────

/// The finding for line `i` of the anacron table: `period delay job-id
/// command...`, skipping blank lines, comments, environment assignments and
/// lines of fewer than four words. The command is the rest of the trimmed
/// line from its fourth word on, its spacing kept.
pub open spec fn anacron_findings(source: Seq<char>, i: int, raw: Seq<char>) -> Seq<FindingView> {
    let t = trim(raw);
    let ws = words(t);
    if t.len() == 0 || t[0] == '#' || ws.len() == 0 || ws[0].contains('=') || ws.len() < 4 {
        Seq::empty()
    } else {
        let period = ws[0];
        let job = ws[2];
        let mechanism = if period.len() > 0 && period[0] == '@' {
            "anacron job `"@ + job + "` — "@ + period
        } else {
            "anacron job `"@ + job + "` — runs every "@ + period + " days"@
        };
        seq![
            unattributed(
                "cron"@,
                mechanism,
                source,
                Some(rest_after_words(t, 3)),
                ScopeView::System,
                Map::empty().insert("period_days"@, period).insert("delay_min"@, ws[1]).insert(
                    "job_id"@,
                    job,
                ).insert("line"@, decimal((i + 1) as nat)),
            ),
        ]
    }
}

fn anacron_line(source: &str, i: usize, raw: &Vec<char>) -> (r: Option<Finding>)
    requires
        i < usize::MAX,
    ensures
        match r {
            Some(f) => anacron_findings(source@, i as int, raw@) == seq![f@],
            None => anacron_findings(source@, i as int, raw@) == Seq::<FindingView>::empty(),
        },
{
    let t = trim_chars(raw.as_slice());
    if t.len() == 0 || t[0] == '#' {
        return None;
    }
    let ws = split_ws(t.as_slice());
    if ws.len() == 0 {
        return None;
    }
    assert(views(ws@)[0] == ws@[0]@);
    if contains_char(ws[0].as_slice(), '=') || ws.len() < 4 {
        return None;
    }
    assert(views(ws@)[1] == ws@[1]@);
    assert(views(ws@)[2] == ws@[2]@);
    let period = string_of(ws[0].as_slice());
    let job = string_of(ws[2].as_slice());
    let mut metadata: Metadata = StrMap::new();
    metadata.insert(owned("period_days"), period.clone());
    metadata.insert(owned("delay_min"), string_of(ws[1].as_slice()));
    metadata.insert(owned("job_id"), job.clone());
    metadata.insert(owned("line"), decimal_string((i + 1) as u64));
    let mut mechanism = owned("anacron job `");
    mechanism.append(job.as_str());
    if ws[0].len() > 0 && ws[0][0] == '@' {
        mechanism.append("` — ");
        mechanism.append(period.as_str());
    } else {
        mechanism.append("` — runs every ");
        mechanism.append(period.as_str());
        mechanism.append(" days");
    }
    let command = string_of(rest_from_word(t.as_slice(), 3).as_slice());
    let f = Finding {
        category: owned("cron"),
        mechanism,
        source: owned(source),
        target: Some(command),
        scope: Scope::System,
        package: PackageOrigin::Unknown,
        metadata,
    };
    assert(seq![f@] =~= anacron_findings(source@, i as int, raw@));
    Some(f)
}

/// The findings of the anacron table at `source` holding `content`.
pub fn scan_anacrontab(source: &str, content: &str) -> (r: Vec<Finding>)
    ensures
        findings_view(r@) == per_line(
            lines(content@),
            |i: int, raw: Seq<char>| anacron_findings(source@, i, raw),
        ),
{
    let chars = chars_of(content);
    let ls = lines_of(chars.as_slice());
    let ghost f = |i: int, raw: Seq<char>| anacron_findings(source@, i, raw);
    let mut findings: Vec<Finding> = Vec::new();
    let mut i: usize = 0;
    while i < ls.len()
        invariant
            i <= ls@.len(),
            views(ls@) == lines(content@),
            f == (|i: int, raw: Seq<char>| anacron_findings(source@, i, raw)),
            findings_view(findings@) == per_line(views(ls@).take(i as int), f),
        decreases ls@.len() - i,
    {
        let ghost prev = findings_view(findings@);
        assert(views(ls@).take(i + 1).drop_last() =~= views(ls@).take(i as int));
        assert(views(ls@)[i as int] == ls@[i as int]@);
        match anacron_line(source, i, &ls[i]) {
            None => {
                assert(findings_view(findings@) =~= prev + f(i as int, ls@[i as int]@));
            },
            Some(finding) => {
                findings.push(finding);
                assert(findings_view(findings@) =~= prev + f(i as int, ls@[i as int]@));
            },
        }
        i = i + 1;
    }
    assert(views(ls@).take(ls@.len() as int) =~= views(ls@));
    findings
}

// ─── at jobs ─────────────────────────────────────────────────────────────────

/// A file named `name` in the at spool is a job unless it is the `.SEQ`
/// counter or otherwise hidden.
pub fn is_at_job_name(name: &str) -> (b: bool)
    ensures
        b == !(name@ == ".SEQ"@ || (name@.len() > 0 && name@[0] == '.')),
{
    let c = chars_of(name);
    !(str_eq(name, ".SEQ") || (c.len() > 0 && c[0] == '.'))
}

/// The finding for a pending at job at `source` of `size` bytes; the job
/// script itself is not parsed.
pub open spec fn at_finding(source: Seq<char>, size: nat) -> FindingView {
    unattributed(
        "cron"@,
        "at job (one-shot scheduled command)"@,
        source,
        None,
        ScopeView::System,
        Map::empty().insert("size_bytes"@, decimal(size)),
    )
}

/// The finding for a pending at job at `source` of `size` bytes.
pub fn at_job_finding(source: &str, size: u64) -> (r: Finding)
    ensures
        r@ == at_finding(source@, size as nat),
{
    let mut metadata: Metadata = StrMap::new();
    metadata.insert(owned("size_bytes"), decimal_string(size));
    Finding {
        category: owned("cron"),
        mechanism: owned("at job (one-shot scheduled command)"),
        source: owned(source),
        target: None,
        scope: Scope::System,
        package: PackageOrigin::Unknown,
        metadata,
    }
}

} // verus!
