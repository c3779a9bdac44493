use vstd::prelude::*;

use crate::checker::Checker;

use crate::finding::{
    findings_view, opt_view, per_line, unattributed, Finding, FindingView, Metadata, PackageOrigin, Scope,
    ScopeView, StrMap,
};
use crate::text::{
    byte_offset, byte_offset_of, chars_of, decimal, decimal_string, find_chars, find_from, find_unescaped_quote, is_ascii_whitespace,
    is_ascii_ws, join, join_chars, lemma_find_from_bounds, lemma_unescaped_quote, lines, lines_of,
    lower, lower_chars, matches_at, matches_at_exec, owned, slice_chars, split_ws, string_of,
    trim, trim_chars, trim_end, trim_end_index, unescaped_quote, views, words,
};

verus! {

/// The checker that surveys sshd configuration, login scripts and
/// `authorized_keys` files.
pub struct SshChecker;

impl Checker for SshChecker {
    fn name(&self) -> (r: &'static str)
        ensures
            r@ == "ssh"@,
    {
        "ssh"
    }
}

/// The main sshd configuration file.
pub const SSHD_CONFIG: &'static str = "/etc/ssh/sshd_config";

/// The drop-in directory of sshd configuration fragments.
pub const SSHD_CONFIG_DIR: &'static str = "/etc/ssh/sshd_config.d";

/// The system-wide login script.
pub const SYSTEM_SSHRC: &'static str = "/etc/ssh/sshrc";

// ─── key types ───────────────────────────────────────────────────────────────

/// How many key types `key_type` lists.
pub const KEY_TYPE_COUNT: usize = 8;

/// The OpenSSH key types recognized as the `keytype` token of an
/// `authorized_keys` line, in order; the `sk-*@openssh.com` forms are
/// FIDO/U2F-backed keys.
pub open spec fn key_type(i: int) -> Seq<char> {
    if i == 0 {
        "ssh-rsa"@
    } else if i == 1 {
        "ssh-dss"@
    } else if i == 2 {
        "ssh-ed25519"@
    } else if i == 3 {
        "ecdsa-sha2-nistp256"@
    } else if i == 4 {
        "ecdsa-sha2-nistp384"@
    } else if i == 5 {
        "ecdsa-sha2-nistp521"@
    } else if i == 6 {
        "sk-ssh-ed25519@openssh.com"@
    } else {
        "sk-ecdsa-sha2-nistp256@openssh.com"@
    }
}

fn key_type_exec(i: usize) -> (r: &'static str)
    requires
        i < KEY_TYPE_COUNT,
    ensures
        r@ == key_type(i as int),
{
    if i == 0 {
        "ssh-rsa"
    } else if i == 1 {
        "ssh-dss"
    } else if i == 2 {
        "ssh-ed25519"
    } else if i == 3 {
        "ecdsa-sha2-nistp256"
    } else if i == 4 {
        "ecdsa-sha2-nistp384"
    } else if i == 5 {
        "ecdsa-sha2-nistp521"
    } else if i == 6 {
        "sk-ssh-ed25519@openssh.com"
    } else {
        "sk-ecdsa-sha2-nistp256@openssh.com"
    }
}

// ─── whole tokens ────────────────────────────────────────────────────────────

/// `token` occurs in `line` at `p`, bounded on both sides by ASCII
/// whitespace or the ends of the line.
pub open spec fn whole_at(line: Seq<char>, token: Seq<char>, p: int) -> bool {
    &&& matches_at(line, token, p)
    &&& (p == 0 || is_ascii_ws(line[p - 1]))
    &&& (p + token.len() == line.len() || is_ascii_ws(line[p + token.len()]))
}

/// `p` is the first position where `token` occurs as a whole token.
pub open spec fn first_whole_at(line: Seq<char>, token: Seq<char>, p: int) -> bool {
    &&& whole_at(line, token, p)
    &&& forall|q: int| 0 <= q < p ==> !whole_at(line, token, q)
}

/// The first position where `token` occurs in `line` as a whole token.
pub open spec fn whole_token_pos(line: Seq<char>, token: Seq<char>) -> Option<int> {
    if exists|p: int| first_whole_at(line, token, p) {
        Some(choose|p: int| first_whole_at(line, token, p))
    } else {
        None
    }
}

proof fn lemma_first_whole_unique(line: Seq<char>, token: Seq<char>, p: int)
    requires
        first_whole_at(line, token, p),
    ensures
        whole_token_pos(line, token) == Some(p),
{
    let q = choose|q: int| first_whole_at(line, token, q);
    assert(first_whole_at(line, token, q));
    if q < p {
        assert(!whole_at(line, token, q));
    } else if q > p {
        assert(!whole_at(line, token, p));
    }
}

fn whole_at_exec(line: &[char], token: &[char], p: usize) -> (b: bool)
    ensures
        b == whole_at(line@, token@, p as int),
{
    if !matches_at_exec(line, token, p) {
        return false;
    }
    let prev_ok = p == 0 || is_ascii_whitespace(line[p - 1]);
    let after = p + token.len();
    let next_ok = after == line.len() || is_ascii_whitespace(line[after]);
    prev_ok && next_ok
}

fn whole_token_in(line: &[char], token: &[char]) -> (r: Option<usize>)
    ensures
        match r {
            Some(p) => whole_token_pos(line@, token@) == Some(p as int) && whole_at(
                line@,
                token@,
                p as int,
            ),
            None => whole_token_pos(line@, token@) is None,
        },
{
    let n = line.len();
    let m = token.len();
    if m > n {
        assert forall|q: int| !first_whole_at(line@, token@, q) by {
            assert(!matches_at(line@, token@, q));
        }
        return None;
    }
    let mut p: usize = 0;
    while p < n - m
        invariant
            m <= n,
            n == line@.len(),
            m == token@.len(),
            p <= n - m,
            forall|q: int| 0 <= q < p ==> !whole_at(line@, token@, q),
        decreases n - m - p,
    {
        if whole_at_exec(line, token, p) {
            proof {
                assert(first_whole_at(line@, token@, p as int));
                lemma_first_whole_unique(line@, token@, p as int);
            }
            return Some(p);
        }
        p = p + 1;
    }
    if whole_at_exec(line, token, p) {
        proof {
            assert(first_whole_at(line@, token@, p as int));
            lemma_first_whole_unique(line@, token@, p as int);
        }
        return Some(p);
    }
    assert forall|q: int| !first_whole_at(line@, token@, q) by {
        if 0 <= q <= p {
        } else {
            assert(!matches_at(line@, token@, q));
        }
    }
    None
}

/// Where `token` occurs in `line` as a whole token, bounded by ASCII
/// whitespace or the ends of the line: a `ssh-rsa` inside a longer run such
/// as `someoldssh-rsakey` does not count. The position is a byte index, as
/// `str` indices are.
pub fn find_whole_token(line: &str, token: &str) -> (r: Option<usize>)
    ensures
        match r {
            Some(p) => whole_token_pos(line@, token@) matches Some(k) && p == byte_offset(
                line@,
                k,
            ),
            None => whole_token_pos(line@, token@) is None,
        },
{
    let l = chars_of(line);
    let t = chars_of(token);
    match whole_token_in(l.as_slice(), t.as_slice()) {
        Some(k) => Some(byte_offset_of(line, k)),
        None => None,
    }
}

/// The earliest whole-token occurrence in `line` of one of the first `n`
/// key types, as (position, key type index); at equal positions the type
/// listed first wins.
pub open spec fn earliest_key(line: Seq<char>, n: nat) -> Option<(int, int)>
    decreases n,
{
    if n == 0 {
        None
    } else {
        let prev = earliest_key(line, (n - 1) as nat);
        match whole_token_pos(line, key_type(n - 1)) {
            None => prev,
            Some(p) => match prev {
                Some(best) => if p < best.0 {
                    Some((p, n - 1))
                } else {
                    prev
                },
                None => Some((p, (n - 1) as int)),
            },
        }
    }
}

// ─── authorized_keys lines ───────────────────────────────────────────────────

/// One `authorized_keys` entry: `[options] keytype keydata [comment]`.
#[derive(Debug)]
pub struct AuthKey {
    pub options: Option<String>,
    pub keytype: String,
    pub comment: Option<String>,
}

pub struct AuthKeyView {
    pub options: Option<Seq<char>>,
    pub keytype: Seq<char>,
    pub comment: Option<Seq<char>>,
}

impl View for AuthKey {
    type V = AuthKeyView;

    open spec fn view(&self) -> AuthKeyView {
        AuthKeyView {
            options: match self.options {
                Some(o) => Some(o@),
                None => None,
            },
            keytype: self.keytype@,
            comment: match self.comment {
                Some(c) => Some(c@),
                None => None,
            },
        }
    }
}

/// The entry an `authorized_keys` line holds. The key type is the earliest
/// whole-token occurrence of a recognized type in the trimmed line; what
/// precedes it (right-trimmed) is the options field, the first word after
/// it is the key data, and the remaining words joined by single spaces are
/// the comment. Blank lines, comments, lines without a recognized type and
/// lines without key data hold no entry.
pub open spec fn auth_key(raw: Seq<char>) -> Option<AuthKeyView> {
    let line = trim(raw);
    if line.len() == 0 || line[0] == '#' {
        None
    } else {
        match earliest_key(line, KEY_TYPE_COUNT as nat) {
            None => None,
            Some(best) => {
                let kt = key_type(best.1);
                let ws = words(line.subrange(best.0 + kt.len(), line.len() as int));
                if ws.len() == 0 {
                    None
                } else {
                    Some(
                        AuthKeyView {
                            options: if best.0 == 0 {
                                None
                            } else {
                                Some(trim_end(line.subrange(0, best.0)))
                            },
                            keytype: kt,
                            comment: if ws.len() == 1 {
                                None
                            } else {
                                Some(join(ws.skip(1), " "@))
                            },
                        },
                    )
                }
            },
        }
    }
}

fn earliest_key_exec(t: &[char]) -> (r: Option<(usize, usize)>)
    ensures
        match r {
            Some(b) => earliest_key(t@, KEY_TYPE_COUNT as nat) == Some((b.0 as int, b.1 as int))
                && b.1 < KEY_TYPE_COUNT && whole_at(t@, key_type(b.1 as int), b.0 as int),
            None => earliest_key(t@, KEY_TYPE_COUNT as nat) is None,
        },
{
    let mut best: Option<(usize, usize)> = None;
    let mut i: usize = 0;
    while i < KEY_TYPE_COUNT
        invariant
            i <= KEY_TYPE_COUNT,
            match best {
                Some(b) => earliest_key(t@, i as nat) == Some((b.0 as int, b.1 as int)) && b.1
                    < KEY_TYPE_COUNT && whole_at(t@, key_type(b.1 as int), b.0 as int),
                None => earliest_key(t@, i as nat) is None,
            },
        decreases KEY_TYPE_COUNT - i,
    {
        let kt = chars_of(key_type_exec(i));
        match whole_token_in(t, kt.as_slice()) {
            None => {},
            Some(p) => {
                match best {
                    None => {
                        best = Some((p, i));
                    },
                    Some(b) => {
                        if p < b.0 {
                            best = Some((p, i));
                        }
                    },
                }
            },
        }
        i = i + 1;
    }
    best
}

/// Parse one `authorized_keys` line into `[options] keytype keydata
/// [comment]`.
pub fn parse_authorized_key(line: &str) -> (r: Option<AuthKey>)
    ensures
        match r {
            Some(k) => auth_key(line@) == Some(k@),
            None => auth_key(line@) is None,
        },
{
    let raw = chars_of(line);
    let t = trim_chars(raw.as_slice());
    let n = t.len();
    if n == 0 || t[0] == '#' {
        return None;
    }
    let (pos, ki) = match earliest_key_exec(t.as_slice()) {
        Some(b) => b,
        None => return None,
    };
    let kt = chars_of(key_type_exec(ki));
    let after = slice_chars(t.as_slice(), pos + kt.len(), n);
    let ws = split_ws(after.as_slice());
    if ws.len() == 0 {
        return None;
    }
    let options = if pos == 0 {
        None
    } else {
        let e = trim_end_index(t.as_slice(), 0, pos);
        Some(string_of(slice_chars(t.as_slice(), 0, e).as_slice()))
    };
    let comment = if ws.len() == 1 {
        None
    } else {
        let sep = chars_of(" ");
        Some(string_of(join_chars(&ws, 1, sep.as_slice()).as_slice()))
    };
    Some(AuthKey { options, keytype: string_of(kt.as_slice()), comment })
}

// ─── forced commands ─────────────────────────────────────────────────────────

/// The value of `command="..."` in an `authorized_keys` options field: the
/// key is found case-insensitively (ASCII), and the value runs to the first
/// `"` that no backslash escapes; an unterminated value gives nothing.
pub open spec fn forced_command(options: Seq<char>) -> Option<Seq<char>> {
    match find_from(lower(options), "command=\""@, 0) {
        None => None,
        Some(start) => {
            let vs = start + "command=\""@.len();
            match unescaped_quote(options, vs) {
                Some(q) => Some(options.subrange(vs, q)),
                None => None,
            }
        },
    }
}

/// Extract the value of `command="..."` from an `authorized_keys` options
/// field. Case-insensitive on the key; respects `\"` inside the value.
pub fn extract_forced_command(options: &str) -> (r: Option<String>)
    ensures
        match r {
            Some(c) => forced_command(options@) == Some(c@),
            None => forced_command(options@) is None,
        },
{
    let opts = chars_of(options);
    let low = lower_chars(opts.as_slice());
    let needle = chars_of("command=\"");
    let start = match find_chars(low.as_slice(), needle.as_slice(), 0) {
        Some(s) => s,
        None => return None,
    };
    proof {
        lemma_find_from_bounds(low@, needle@, 0);
        assert(low@.len() == opts@.len());
    }
    assert(start + needle@.len() <= low@.len());
    assert(low@.len() == low.len());
    let vs = start + needle.len();
    match find_unescaped_quote(opts.as_slice(), vs) {
        Some(q) => {
            proof {
                lemma_unescaped_quote(opts@, vs as int);
            }
            Some(string_of(slice_chars(opts.as_slice(), vs, q).as_slice()))
        },
        None => None,
    }
}

// ─── sshd_config ─────────────────────────────────────────────────────────────

/// If `line` starts with `key` (ASCII case-insensitively) followed by `=`
/// or ASCII whitespace, the trimmed rest: the `Key value` and `Key=value`
/// shapes of `sshd_config`.
pub open spec fn directive_rest(line: Seq<char>, key: Seq<char>) -> Option<Seq<char>> {
    let k = key.len() as int;
    if line.len() <= k || lower(line.subrange(0, k)) != lower(key) {
        None
    } else if !(is_ascii_ws(line[k]) || line[k] == '=') {
        None
    } else {
        Some(trim(line.subrange(k + 1, line.len() as int)))
    }
}

fn directive_rest_in(line: &[char], key: &[char]) -> (r: Option<Vec<char>>)
    ensures
        match r {
            Some(v) => directive_rest(line@, key@) == Some(v@),
            None => directive_rest(line@, key@) is None,
        },
{
    let k = key.len();
    if line.len() <= k {
        return None;
    }
    let head = slice_chars(line, 0, k);
    let a = lower_chars(head.as_slice());
    let b = lower_chars(key);
    if a.len() != b.len() || !matches_at_exec(a.as_slice(), b.as_slice(), 0) {
        proof {
            if a@.len() == b@.len() {
                assert(a@.subrange(0, b@.len() as int) =~= a@);
            }
        }
        return None;
    }
    assert(a@.subrange(0, b@.len() as int) =~= a@);
    let sep = line[k];
    if !is_ascii_whitespace(sep) && sep != '=' {
        return None;
    }
    let rest = slice_chars(line, k + 1, line.len());
    Some(trim_chars(rest.as_slice()))
}

/// If `line` starts with `key` followed by `=` or whitespace (ASCII
/// case-insensitively on the key), the trimmed value.
pub fn strip_directive(line: &str, key: &str) -> (r: Option<String>)
    ensures
        match r {
            Some(v) => directive_rest(line@, key@) == Some(v@),
            None => directive_rest(line@, key@) is None,
        },
{
    let l = chars_of(line);
    let k = chars_of(key);
    match directive_rest_in(l.as_slice(), k.as_slice()) {
        Some(v) => Some(string_of(v.as_slice())),
        None => None,
    }
}

/// The finding for `directive value` on line `i` of an sshd configuration
/// file, inside the `Match` block `current`, if any.
pub open spec fn sshd_finding(
    source: Seq<char>,
    current: Option<Seq<char>>,
    i: int,
    directive: Seq<char>,
    value: Seq<char>,
) -> FindingView {
    let base = Map::empty().insert("directive"@, directive).insert("line"@, decimal((i + 1) as nat));
    let metadata = match current {
        Some(m) => base.insert("match_block"@, m),
        None => base,
    };
    unattributed(
        "ssh"@,
        "sshd_config "@ + directive + "= — runs on every SSH login"@,
        source,
        Some(value),
        ScopeView::System,
        metadata,
    )
}

/// The finding a trimmed, non-`Match` sshd line yields: `ForceCommand`
/// first, then `AuthorizedKeysCommand`.
pub open spec fn sshd_line_findings(
    source: Seq<char>,
    current: Option<Seq<char>>,
    i: int,
    line: Seq<char>,
) -> Seq<FindingView> {
    match directive_rest(line, "ForceCommand"@) {
        Some(v) => seq![sshd_finding(source, current, i, "ForceCommand"@, v)],
        None => match directive_rest(line, "AuthorizedKeysCommand"@) {
            Some(v) => seq![sshd_finding(source, current, i, "AuthorizedKeysCommand"@, v)],
            None => Seq::empty(),
        },
    }
}

/// One line of an sshd configuration file acting on (findings so far,
/// current `Match` block): a `Match` line opens a block, a directive line
/// adds its finding, blank lines and comments change nothing.
pub open spec fn sshd_step(
    source: Seq<char>,
    st: (Seq<FindingView>, Option<Seq<char>>),
    i: int,
    raw: Seq<char>,
) -> (Seq<FindingView>, Option<Seq<char>>) {
    let line = trim(raw);
    if line.len() == 0 || line[0] == '#' {
        st
    } else {
        match directive_rest(line, "Match"@) {
            Some(rest) => (st.0, Some(rest)),
            None => (st.0 + sshd_line_findings(source, st.1, i, line), st.1),
        }
    }
}

/// The state after the lines `ls`.
pub open spec fn sshd_fold(source: Seq<char>, ls: Seq<Seq<char>>) -> (
    Seq<FindingView>,
    Option<Seq<char>>,
)
    decreases ls.len(),
{
    if ls.len() == 0 {
        (Seq::empty(), None)
    } else {
        sshd_step(source, sshd_fold(source, ls.drop_last()), ls.len() - 1, ls.last())
    }
}

/// The findings of an sshd configuration file at `source` holding `content`.
pub open spec fn sshd_config_findings(source: Seq<char>, content: Seq<char>) -> Seq<FindingView> {
    sshd_fold(source, lines(content)).0
}

fn sshd_directive_finding(source: &str, current: &Option<String>, i: usize, directive: &str, value: Vec<char>) -> (r: Finding)
    requires
        i < usize::MAX,
    ensures
        r@ == sshd_finding(
            source@,
            opt_view(*current),
            i as int,
            directive@,
            value@,
        ),
{
    let mut metadata: Metadata = StrMap::new();
    metadata.insert(owned("directive"), owned(directive));
    metadata.insert(owned("line"), decimal_string((i + 1) as u64));
    match current {
        Some(m) => {
            metadata.insert(owned("match_block"), m.clone());
        },
        None => {},
    }
    let mut mechanism = owned("sshd_config ");
    mechanism.append(directive);
    mechanism.append("= — runs on every SSH login");
    Finding {
        category: owned("ssh"),
        mechanism,
        source: owned(source),
        target: Some(string_of(value.as_slice())),
        scope: Scope::System,
        package: PackageOrigin::Unknown,
        metadata,
    }
}

/// The state of an sshd scan after lines `ls` names the criteria of the
/// last `Match` line among them: a later `Match` line replaces an earlier
/// one, and other lines leave it alone.
pub proof fn current_block_is_nearest_match(
    source: Seq<char>,
    ls: Seq<Seq<char>>,
    m: int,
    r: Seq<char>,
)
    requires
        0 <= m < ls.len(),
        trim(ls[m]).len() > 0,
        trim(ls[m])[0] != '#',
        directive_rest(trim(ls[m]), "Match"@) == Some(r),
        forall|j: int|
            m < j < ls.len() ==> !(trim(#[trigger] ls[j]).len() > 0 && trim(ls[j])[0] != '#'
                && directive_rest(trim(ls[j]), "Match"@) is Some),
    ensures
        sshd_fold(source, ls).1 == Some(r),
    decreases ls.len(),
{
    let n = ls.len() - 1;
    if m < n {
        let init = ls.drop_last();
        assert forall|j: int| m < j < init.len() implies !(trim(#[trigger] init[j]).len() > 0
            && trim(init[j])[0] != '#' && directive_rest(trim(init[j]), "Match"@) is Some) by {
            assert(init[j] == ls[j]);
        }
        assert(init[m] == ls[m]);
        current_block_is_nearest_match(source, init, m, r);
        assert(ls.last() == ls[n]);
    }
}

/// Before any `Match` line, the scan is in no block.
pub proof fn no_block_before_any_match(source: Seq<char>, ls: Seq<Seq<char>>)
    requires
        forall|j: int|
            0 <= j < ls.len() ==> !(trim(#[trigger] ls[j]).len() > 0 && trim(ls[j])[0] != '#'
                && directive_rest(trim(ls[j]), "Match"@) is Some),
    ensures
        sshd_fold(source, ls).1 is None,
    decreases ls.len(),
{
    if ls.len() > 0 {
        let init = ls.drop_last();
        assert forall|j: int| 0 <= j < init.len() implies !(trim(#[trigger] init[j]).len() > 0
            && trim(init[j])[0] != '#' && directive_rest(trim(init[j]), "Match"@) is Some) by {
            assert(init[j] == ls[j]);
        }
        no_block_before_any_match(source, init);
        assert(ls.last() == ls[ls.len() - 1]);
    }
}

/// A `ForceCommand` line adds one finding whose target is its command and
/// whose `match_block` is the criteria of the nearest `Match` line above
/// it; the findings before it are kept.
pub proof fn force_command_carries_nearest_match(
    source: Seq<char>,
    ls: Seq<Seq<char>>,
    m: int,
    r: Seq<char>,
    cmd: Seq<char>,
)
    requires
        0 <= m < ls.len() - 1,
        trim(ls[m]).len() > 0,
        trim(ls[m])[0] != '#',
        directive_rest(trim(ls[m]), "Match"@) == Some(r),
        forall|j: int|
            m < j < ls.len() - 1 ==> !(trim(#[trigger] ls[j]).len() > 0 && trim(ls[j])[0] != '#'
                && directive_rest(trim(ls[j]), "Match"@) is Some),
        trim(ls.last()).len() > 0,
        trim(ls.last())[0] != '#',
        directive_rest(trim(ls.last()), "Match"@) is None,
        directive_rest(trim(ls.last()), "ForceCommand"@) == Some(cmd),
    ensures
        ({
            let before = sshd_fold(source, ls.drop_last()).0;
            let after = sshd_fold(source, ls).0;
            &&& after.len() == before.len() + 1
            &&& after.subrange(0, before.len() as int) == before
            &&& after.last().target == Some(cmd)
            &&& after.last().metadata.contains_key("match_block"@)
            &&& after.last().metadata["match_block"@] == r
        }),
{
    let init = ls.drop_last();
    assert forall|j: int| m < j < init.len() implies !(trim(#[trigger] init[j]).len() > 0
        && trim(init[j])[0] != '#' && directive_rest(trim(init[j]), "Match"@) is Some) by {
        assert(init[j] == ls[j]);
    }
    assert(init[m] == ls[m]);
    current_block_is_nearest_match(source, init, m, r);
    let before = sshd_fold(source, init).0;
    let after = sshd_fold(source, ls).0;
    assert(after.subrange(0, before.len() as int) =~= before);
}

/// The findings of an sshd configuration file at `source` holding
/// `content`: each `ForceCommand` or `AuthorizedKeysCommand`, with the
/// `Match` block it sits in.
pub fn scan_sshd_config_content(source: &str, content: &str) -> (r: Vec<Finding>)
    ensures
        findings_view(r@) == sshd_config_findings(source@, content@),
{
    let chars = chars_of(content);
    let ls = lines_of(chars.as_slice());
    let force = chars_of("ForceCommand");
    let akc = chars_of("AuthorizedKeysCommand");
    let mat = chars_of("Match");
    let mut findings: Vec<Finding> = Vec::new();
    let mut current: Option<String> = None;
    let mut i: usize = 0;
    while i < ls.len()
        invariant
            i <= ls@.len(),
            views(ls@) == lines(content@),
            force@ == "ForceCommand"@,
            akc@ == "AuthorizedKeysCommand"@,
            mat@ == "Match"@,
            sshd_fold(source@, views(ls@).take(i as int)) == (
                findings_view(findings@),
                opt_view(current),
            ),
        decreases ls@.len() - i,
    {
        let ghost prev = findings_view(findings@);
        let ghost cur = opt_view(current);
        assert(views(ls@).take(i + 1).drop_last() =~= views(ls@).take(i as int));
        assert(views(ls@)[i as int] == ls@[i as int]@);
        let line = trim_chars(ls[i].as_slice());
        if line.len() == 0 || line[0] == '#' {
            i = i + 1;
            continue;
        }
        match directive_rest_in(line.as_slice(), mat.as_slice()) {
            Some(rest) => {
                current = Some(string_of(rest.as_slice()));
            },
            None => {
                match directive_rest_in(line.as_slice(), force.as_slice()) {
                    Some(v) => {
                        let f = sshd_directive_finding(source, &current, i, "ForceCommand", v);
                        findings.push(f);
                        assert(findings_view(findings@) =~= prev + sshd_line_findings(
                            source@,
                            cur,
                            i as int,
                            line@,
                        ));
                    },
                    None => {
                        match directive_rest_in(line.as_slice(), akc.as_slice()) {
                            Some(v) => {
                                let f = sshd_directive_finding(
                                    source,
                                    &current,
                                    i,
                                    "AuthorizedKeysCommand",
                                    v,
                                );
                                findings.push(f);
                                assert(findings_view(findings@) =~= prev + sshd_line_findings(
                                    source@,
                                    cur,
                                    i as int,
                                    line@,
                                ));
                            },
                            None => {
                                assert(findings_view(findings@) =~= prev + sshd_line_findings(
                                    source@,
                                    cur,
                                    i as int,
                                    line@,
                                ));
                            },
                        }
                    },
                }
            },
        }
        i = i + 1;
    }
    assert(views(ls@).take(ls@.len() as int) =~= views(ls@));
    findings
}

/// The marker finding for a file that exists but could not be read: the
/// scan has not cleared it.
pub open spec fn unreadable_finding(
    mechanism: Seq<char>,
    source: Seq<char>,
    scope: ScopeView,
    size: nat,
) -> FindingView {
    unattributed(
        "ssh"@,
        mechanism,
        source,
        None,
        scope,
        Map::empty().insert("unreadable"@, "rerun as root to inspect"@).insert(
            "size_bytes"@,
            decimal(size),
        ),
    )
}

fn unreadable_marker(mechanism: &str, source: &str, scope: Scope, size: u64) -> (r: Finding)
    ensures
        r@ == unreadable_finding(mechanism@, source@, scope@, size as nat),
{
    let mut metadata: Metadata = StrMap::new();
    metadata.insert(owned("unreadable"), owned("rerun as root to inspect"));
    metadata.insert(owned("size_bytes"), decimal_string(size));
    Finding {
        category: owned("ssh"),
        mechanism: owned(mechanism),
        source: owned(source),
        target: None,
        scope,
        package: PackageOrigin::Unknown,
        metadata,
    }
}

/// The marker for an sshd configuration file of `size` bytes that could not
/// be read (likely mode 0600, owned by root).
pub fn sshd_config_unreadable(source: &str, size: u64) -> (r: Finding)
    ensures
        r@ == unreadable_finding(
            "sshd_config (unreadable — likely 0600 root)"@,
            source@,
            ScopeView::System,
            size as nat,
        ),
{
    unreadable_marker("sshd_config (unreadable — likely 0600 root)", source, Scope::System, size)
}

/// The marker for an `authorized_keys` file of `size` bytes that the
/// current user could not read.
pub fn authorized_keys_unreadable(source: &str, scope: &Scope, size: u64) -> (r: Finding)
    ensures
        r@ == unreadable_finding(
            "authorized_keys (unreadable to current user)"@,
            source@,
            scope@,
            size as nat,
        ),
{
    unreadable_marker(
        "authorized_keys (unreadable to current user)",
        source,
        scope.duplicate(),
        size,
    )
}

// ─── authorized_keys files ───────────────────────────────────────────────────

/// The finding for line `i` of an `authorized_keys` file, if it holds an
/// entry: its comment is the target; line, key type, options and any forced
/// command go to the metadata.
pub open spec fn authorized_key_findings(
    source: Seq<char>,
    scope: ScopeView,
    i: int,
    raw: Seq<char>,
) -> Seq<FindingView> {
    match auth_key(raw) {
        None => Seq::empty(),
        Some(k) => {
            let base = Map::empty().insert("line"@, decimal((i + 1) as nat)).insert(
                "keytype"@,
                k.keytype,
            );
            let metadata = match k.options {
                None => base,
                Some(o) => {
                    let with_opts = base.insert("options"@, o);
                    match forced_command(o) {
                        Some(c) => with_opts.insert("forced_command"@, c),
                        None => with_opts,
                    }
                },
            };
            seq![
                unattributed(
                    "ssh"@,
                    "authorized_keys entry — grants passwordless SSH login"@,
                    source,
                    k.comment,
                    scope,
                    metadata,
                ),
            ]
        },
    }
}

/// The findings of an `authorized_keys` file at `source` holding `content`,
/// for the user `scope`: one per entry.
pub fn scan_authorized_keys_content(source: &str, scope: &Scope, content: &str) -> (r: Vec<
    Finding,
>)
    ensures
        findings_view(r@) == per_line(
            lines(content@),
            |i: int, raw: Seq<char>| authorized_key_findings(source@, scope@, i, raw),
        ),
{
    let chars = chars_of(content);
    let ls = lines_of(chars.as_slice());
    let ghost f = |i: int, raw: Seq<char>| authorized_key_findings(source@, scope@, i, raw);
    let mut findings: Vec<Finding> = Vec::new();
    let mut i: usize = 0;
    while i < ls.len()
        invariant
            i <= ls@.len(),
            views(ls@) == lines(content@),
            f == (|i: int, raw: Seq<char>| authorized_key_findings(source@, scope@, i, raw)),
            findings_view(findings@) == per_line(views(ls@).take(i as int), f),
        decreases ls@.len() - i,
    {
        let ghost prev = findings_view(findings@);
        assert(views(ls@).take(i + 1).drop_last() =~= views(ls@).take(i as int));
        assert(views(ls@)[i as int] == ls@[i as int]@);
        let line = string_of(ls[i].as_slice());
        match parse_authorized_key(line.as_str()) {
            None => {
                assert(findings_view(findings@) =~= prev + f(i as int, ls@[i as int]@));
            },
            Some(key) => {
                let mut metadata: Metadata = StrMap::new();
                metadata.insert(owned("line"), decimal_string((i + 1) as u64));
                metadata.insert(owned("keytype"), key.keytype);
                match key.options {
                    Some(opts) => {
                        let cmd = extract_forced_command(opts.as_str());
                        metadata.insert(owned("options"), opts);
                        match cmd {
                            Some(c) => {
                                metadata.insert(owned("forced_command"), c);
                            },
                            None => {},
                        }
                    },
                    None => {},
                }
                let finding = Finding {
                    category: owned("ssh"),
                    mechanism: owned("authorized_keys entry — grants passwordless SSH login"),
                    source: owned(source),
                    target: key.comment,
                    scope: scope.duplicate(),
                    package: PackageOrigin::Unknown,
                    metadata,
                };
                findings.push(finding);
                assert(findings_view(findings@) =~= prev + f(i as int, ls@[i as int]@));
            },
        }
        i = i + 1;
    }
    assert(views(ls@).take(ls@.len() as int) =~= views(ls@));
    findings
}

// ─── login scripts ───────────────────────────────────────────────────────────

/// The finding for a non-empty login script (`/etc/ssh/sshrc` for the
/// `system` location, `~/.ssh/rc` otherwise) of `size` bytes.
pub open spec fn login_script_finding(
    source: Seq<char>,
    scope: ScopeView,
    location: Seq<char>,
    size: nat,
    readable: bool,
) -> FindingView {
    let base = Map::empty().insert("size_bytes"@, decimal(size)).insert("location"@, location);
    let metadata = if readable {
        base
    } else {
        base.insert("unreadable"@, "rerun as root to inspect"@)
    };
    let mechanism = if location == "system"@ {
        "/etc/ssh/sshrc — runs on every SSH login, system-wide"@
    } else {
        "~/.ssh/rc — runs on every SSH login as this user"@
    };
    unattributed("ssh"@, mechanism, source, None, scope, metadata)
}

/// The findings for a login script file of `size` bytes at `source`: none
/// when it is empty, else one, marked when it could not be opened.
pub fn login_script_findings(
    source: &str,
    scope: &Scope,
    location: &str,
    size: u64,
    readable: bool,
) -> (r: Vec<Finding>)
    ensures
        findings_view(r@) == if size == 0 {
            Seq::empty()
        } else {
            seq![login_script_finding(source@, scope@, location@, size as nat, readable)]
        },
{
    let mut out: Vec<Finding> = Vec::new();
    if size == 0 {
        assert(findings_view(out@) =~= Seq::<FindingView>::empty());
        return out;
    }
    let mut metadata: Metadata = StrMap::new();
    metadata.insert(owned("size_bytes"), decimal_string(size));
    metadata.insert(owned("location"), owned(location));
    if !readable {
        metadata.insert(owned("unreadable"), owned("rerun as root to inspect"));
    }
    let mechanism = if crate::text::str_eq(location, "system") {
        owned("/etc/ssh/sshrc — runs on every SSH login, system-wide")
    } else {
        owned("~/.ssh/rc — runs on every SSH login as this user")
    };
    out.push(
        Finding {
            category: owned("ssh"),
            mechanism,
            source: owned(source),
            target: None,
            scope: scope.duplicate(),
            package: PackageOrigin::Unknown,
            metadata,
        },
    );
    assert(findings_view(out@) =~= seq![
        login_script_finding(source@, scope@, location@, size as nat, readable),
    ]);
    out
}

} // verus!
