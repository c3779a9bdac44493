use vstd::prelude::*;

use crate::checker::Checker;

use crate::finding::{
    findings_view, unattributed, Finding, FindingView, Metadata, PackageOrigin, Scope, ScopeView,
    StrMap,
};
use crate::text::{
    cat3, chars_of, find_chars, owned, find_from, is_ascii_alnum, is_ascii_alphanumeric, lemma_find_from_bounds,
    matches_at, slice_chars, starts_with, string_of, string_views, trim_start, trim_start_index_in,
    unescaped_quote, lemma_unescaped_quote, find_unescaped_quote,
};

verus! {

// ─── comment stripping ───────────────────────────────────────────────────────

/// End of a quoted string whose body starts at `j`: the index of the closing
/// `"`, or the length when it is unterminated. A backslash escapes the
/// character after it.
pub open spec fn quote_end(b: Seq<char>, j: int) -> int
    decreases b.len() - j,
{
    if j < 0 || j >= b.len() {
        b.len() as int
    } else if b[j] == '"' {
        j
    } else if b[j] == '\\' && j + 1 < b.len() {
        quote_end(b, j + 2)
    } else {
        quote_end(b, j + 1)
    }
}

/// The index of the next `\n` at or after `j`, or the length.
pub open spec fn line_end(b: Seq<char>, j: int) -> int
    decreases b.len() - j,
{
    if j < 0 || j >= b.len() {
        b.len() as int
    } else if b[j] == '\n' {
        j
    } else {
        line_end(b, j + 1)
    }
}

/// Where scanning resumes after a block comment whose body starts at `j`:
/// just past the closing `*/`, or the last character when it is
/// unterminated.
pub open spec fn block_end(b: Seq<char>, j: int) -> int
    decreases b.len() - j,
{
    if j < 0 {
        j
    } else if j + 1 < b.len() {
        if b[j] == '*' && b[j + 1] == '/' {
            j + 2
        } else {
            block_end(b, j + 1)
        }
    } else {
        j
    }
}

proof fn lemma_quote_end(b: Seq<char>, j: int)
    requires
        0 <= j,
    ensures
        j <= quote_end(b, j) <= b.len() || (j > b.len() && quote_end(b, j) == b.len()),
        quote_end(b, j) < b.len() ==> b[quote_end(b, j)] == '"',
    decreases b.len() - j,
{
    if j < b.len() && b[j] != '"' {
        if b[j] == '\\' && j + 1 < b.len() {
            lemma_quote_end(b, j + 2);
        } else {
            lemma_quote_end(b, j + 1);
        }
    }
}

proof fn lemma_line_end(b: Seq<char>, j: int)
    requires
        0 <= j <= b.len(),
    ensures
        j <= line_end(b, j) <= b.len(),
    decreases b.len() - j,
{
    if j < b.len() && b[j] != '\n' {
        lemma_line_end(b, j + 1);
    }
}

proof fn lemma_block_end(b: Seq<char>, j: int)
    requires
        0 <= j <= b.len(),
    ensures
        j <= block_end(b, j) <= b.len(),
    decreases b.len() - j,
{
    if j + 1 < b.len() && !(b[j] == '*' && b[j + 1] == '/') {
        lemma_block_end(b, j + 1);
    }
}

/// The text from index `i` on with apt.conf comments removed: `//` and `#`
/// comments run to the end of the line (the newline is kept), `/* */`
/// comments are dropped, and quoted strings are copied verbatim with their
/// escapes.
pub open spec fn strip_from(b: Seq<char>, i: int) -> Seq<char>
    decreases b.len() - i,
{
    if i < 0 || i >= b.len() {
        Seq::empty()
    } else if b[i] == '"' {
        let e = quote_end(b, i + 1);
        if e < b.len() && e > i {
            b.subrange(i, e + 1) + strip_from(b, e + 1)
        } else {
            b.subrange(i, b.len() as int)
        }
    } else if b[i] == '/' && i + 1 < b.len() && b[i + 1] == '/' {
        let e = line_end(b, i);
        if i < e <= b.len() {
            strip_from(b, e)
        } else {
            Seq::empty()
        }
    } else if b[i] == '/' && i + 1 < b.len() && b[i + 1] == '*' {
        let e = block_end(b, i + 2);
        if i < e <= b.len() {
            strip_from(b, e)
        } else {
            Seq::empty()
        }
    } else if b[i] == '#' {
        let e = line_end(b, i);
        if i < e <= b.len() {
            strip_from(b, e)
        } else {
            Seq::empty()
        }
    } else {
        seq![b[i]] + strip_from(b, i + 1)
    }
}

/// Strip apt.conf comments while leaving quoted strings intact. Recognizes
/// `//` line comments, `/* ... */` block comments, and `#` line comments.
/// Quoted strings copy through verbatim, so a `"//"` literal in a command
/// body is not cut short.
pub fn strip_apt_conf_comments(content: &str) -> (r: String)
    ensures
        r@ == strip_from(content@, 0),
{
    let b = chars_of(content);
    let n = b.len();
    let ghost bs = b@;
    let mut out: Vec<char> = Vec::new();
    let mut i: usize = 0;
    while i < n
        invariant
            n == bs.len(),
            bs == b@,
            i <= n,
            strip_from(bs, 0) == out@ + strip_from(bs, i as int),
        decreases n - i,
    {
        let c = b[i];
        let ghost out0 = out@;
        if c == '"' {
            out.push('"');
            let mut j = i + 1;
            proof {
                lemma_quote_end(bs, i + 1);
            }
            while j < n && b[j] != '"'
                invariant
                    n == bs.len(),
                    bs == b@,
                    i < j <= n,
                    quote_end(bs, j as int) == quote_end(bs, i + 1),
                    out@ == out0 + bs.subrange(i as int, j as int),
                decreases n - j,
            {
                if b[j] == '\\' && j + 1 < n {
                    out.push(b[j]);
                    out.push(b[j + 1]);
                    assert(bs.subrange(i as int, j + 2) =~= bs.subrange(i as int, j as int).push(
                        bs[j as int],
                    ).push(bs[j + 1]));
                    j = j + 2;
                } else {
                    out.push(b[j]);
                    assert(bs.subrange(i as int, j + 1) =~= bs.subrange(i as int, j as int).push(
                        bs[j as int],
                    ));
                    j = j + 1;
                }
            }
            if j < n {
                out.push('"');
                assert(bs.subrange(i as int, j + 1) =~= bs.subrange(i as int, j as int).push(
                    bs[j as int],
                ));
                i = j + 1;
            } else {
                assert(strip_from(bs, n as int) =~= Seq::<char>::empty());
                i = n;
            }
        } else if (c == '/' && i + 1 < n && (b[i + 1] == '/' || b[i + 1] == '*')) || c == '#' {
            let ghost i0 = i as int;
            if c == '/' && b[i + 1] == '*' {
                let mut j = i + 2;
                proof {
                    lemma_block_end(bs, i0 + 2);
                }
                while j < n - 1 && !(b[j] == '*' && b[j + 1] == '/')
                    invariant
                        n == bs.len(),
                        bs == b@,
                        1 <= n,
                        i0 + 2 <= j <= n,
                        block_end(bs, j as int) == block_end(bs, i0 + 2),
                    decreases n - j,
                {
                    j = j + 1;
                }
                if j < n - 1 {
                    j = j + 2;
                }
                assert(j == block_end(bs, i0 + 2));
                i = j;
            } else {
                let mut j = i;
                proof {
                    lemma_line_end(bs, i0);
                }
                while j < n && b[j] != '\n'
                    invariant
                        n == bs.len(),
                        bs == b@,
                        i0 <= j <= n,
                        line_end(bs, j as int) == line_end(bs, i0),
                    decreases n - j,
                {
                    j = j + 1;
                }
                assert(j == line_end(bs, i0));
                assert(j > i0);
                i = j;
            }
        } else {
            out.push(c);
            i = i + 1;
        }
    }
    string_of(out.as_slice())
}

/// No comment marker (`#`, `/`) from index `i` on.
pub open spec fn plain_from(b: Seq<char>, i: int) -> bool {
    forall|k: int| i <= k < b.len() ==> #[trigger] b[k] != '#' && b[k] != '/'
}

proof fn lemma_plain_strip(b: Seq<char>, i: int)
    requires
        0 <= i <= b.len(),
        plain_from(b, i),
    ensures
        strip_from(b, i) == b.subrange(i, b.len() as int),
    decreases b.len() - i,
{
    if i < b.len() {
        if b[i] == '"' {
            lemma_quote_end(b, i + 1);
            let e = quote_end(b, i + 1);
            if e < b.len() {
                lemma_plain_strip(b, e + 1);
                assert(b.subrange(i, b.len() as int) =~= b.subrange(i, e + 1) + b.subrange(
                    e + 1,
                    b.len() as int,
                ));
            }
        } else {
            lemma_plain_strip(b, i + 1);
            assert(b.subrange(i, b.len() as int) =~= seq![b[i]] + b.subrange(i + 1, b.len() as int));
        }
    } else {
        assert(b.subrange(i, b.len() as int) =~= Seq::<char>::empty());
    }
}

/// Text with no comment marker (`#`, `/`) comes through comment stripping
/// unchanged, quoted strings and all.
pub proof fn text_without_comments_is_unchanged(content: Seq<char>)
    requires
        forall|k: int| 0 <= k < content.len() ==> #[trigger] content[k] != '#' && content[k] != '/',
    ensures
        strip_from(content, 0) == content,
{
    lemma_plain_strip(content, 0);
    assert(content.subrange(0, content.len() as int) =~= content);
}

/// Quoted strings are copied verbatim: a string that opens at `i` and
/// closes at `e` comes out whole, whatever characters it holds.
pub proof fn quoted_strings_are_copied_verbatim(b: Seq<char>, i: int)
    requires
        0 <= i < b.len(),
        b[i] == '"',
        quote_end(b, i + 1) < b.len(),
    ensures
        strip_from(b, i) == b.subrange(i, quote_end(b, i + 1) + 1) + strip_from(
            b,
            quote_end(b, i + 1) + 1,
        ),
{
    lemma_quote_end(b, i + 1);
}

// ─── directive values ────────────────────────────────────────────────────────

/// A character that continues an apt.conf identifier.
pub open spec fn is_ident(c: char) -> bool {
    is_ascii_alnum(c) || c == '_' || c == '-'
}

/// A character that may precede a top-level directive name.
pub open spec fn is_directive_boundary(c: char) -> bool {
    c == ' ' || c == '\t' || c == '\n' || c == '\r' || c == '{' || c == '}' || c == ';'
}

/// The quoted strings of a block body from index `i` on, at brace depth
/// `depth`, up to the `}` that closes the block. An unterminated string ends
/// the scan.
pub open spec fn block_values(body: Seq<char>, i: int, depth: int) -> Seq<Seq<char>>
    decreases body.len() - i,
{
    if i < 0 || i >= body.len() || depth <= 0 {
        Seq::empty()
    } else if body[i] == '"' {
        match unescaped_quote(body, i + 1) {
            Some(q) => if i < q < body.len() {
                seq![body.subrange(i + 1, q)] + block_values(body, q + 1, depth)
            } else {
                Seq::empty()
            },
            None => Seq::empty(),
        }
    } else if body[i] == '{' {
        block_values(body, i + 1, depth + 1)
    } else if body[i] == '}' {
        block_values(body, i + 1, depth - 1)
    } else {
        block_values(body, i + 1, depth)
    }
}

/// The values written after a directive whose name ends just before `next`:
/// optional whitespace and `::`, then one quoted string or a `{ ... }` block
/// of them.
pub open spec fn directive_value(c: Seq<char>, next: int) -> Seq<Seq<char>> {
    let rest = trim_start(c.subrange(next, c.len() as int));
    let r2 = if starts_with(rest, seq![':', ':']) {
        trim_start(rest.subrange(2, rest.len() as int))
    } else {
        rest
    };
    if r2.len() > 0 && r2[0] == '"' {
        match unescaped_quote(r2, 1) {
            Some(q) => seq![r2.subrange(1, q)],
            None => Seq::empty(),
        }
    } else if r2.len() > 0 && r2[0] == '{' {
        block_values(r2.subrange(1, r2.len() as int), 0, 1)
    } else {
        Seq::empty()
    }
}

/// The name occurring at `abs` and ending before `next` is a whole
/// top-level identifier: preceded by the start of text, whitespace, a brace
/// or `;`, and not continued by identifier characters or a `::Sub` suffix.
pub open spec fn standalone(c: Seq<char>, abs: int, next: int) -> bool {
    &&& (abs == 0 || is_directive_boundary(c[abs - 1]))
    &&& if next >= c.len() {
        true
    } else if c[next] == ':' && next + 1 < c.len() && c[next + 1] == ':' {
        !(next + 2 < c.len() && is_ident(c[next + 2]))
    } else {
        !is_ident(c[next])
    }
}

/// The values of every standalone occurrence of `d` in `c` at or after
/// `start`, in order.
pub open spec fn values_from(c: Seq<char>, d: Seq<char>, start: int) -> Seq<Seq<char>>
    decreases c.len() - start,
{
    if d.len() == 0 {
        Seq::empty()
    } else {
        match find_from(c, d, start) {
            None => Seq::empty(),
            Some(abs) => {
                let next = abs + d.len();
                if start <= abs && next <= c.len() {
                    let here = if standalone(c, abs, next) {
                        directive_value(c, next)
                    } else {
                        Seq::empty()
                    };
                    here + values_from(c, d, next)
                } else {
                    Seq::empty()
                }
            },
        }
    }
}

/// Every standalone occurrence of `d` at or after `start` contributes its
/// values, whatever occurrences come before it: the values from `start` on
/// end with the values of that occurrence followed by the values after it. (An occurrence overlapping an earlier one is not scanned, and is
/// left out.)
pub proof fn standalone_occurrence_contributes(c: Seq<char>, d: Seq<char>, start: int, abs: int)
    requires
        d.len() > 0,
        0 <= start <= abs,
        matches_at(c, d, abs),
        standalone(c, abs, abs + d.len()),
        forall|j: int| start <= j < abs && abs < j + d.len() ==> !matches_at(c, d, j),
    ensures
        ({
            let all = values_from(c, d, start);
            let tail = directive_value(c, abs + d.len()) + values_from(c, d, abs + d.len());
            all.len() >= tail.len() && all.subrange(all.len() - tail.len(), all.len() as int)
                == tail
        }),
    decreases abs - start,
{
    lemma_find_from_bounds(c, d, start);
    let next = abs + d.len();
    match find_from(c, d, start) {
        Some(a) => {
            if a > abs {
                assert(!matches_at(c, d, abs));
            }
            let tail = directive_value(c, next) + values_from(c, d, next);
            if a == abs {
                let all = values_from(c, d, start);
                assert(all == tail);
                assert(all.subrange(0, all.len() as int) =~= all);
            } else {
                let an = a + d.len();
                assert(an <= abs);
                assert(an <= c.len());
                standalone_occurrence_contributes(c, d, an, abs);
                let rest = values_from(c, d, an);
                let here = if standalone(c, a, an) {
                    directive_value(c, an)
                } else {
                    Seq::<Seq<char>>::empty()
                };
                let all = values_from(c, d, start);
                assert(all == here + rest);
                assert(all.subrange(all.len() - tail.len(), all.len() as int) =~= rest.subrange(
                    rest.len() - tail.len(),
                    rest.len() as int,
                ));
            }
        },
        None => {
            assert(!matches_at(c, d, abs));
        },
    }
}

/// Appends each quoted string of a block body (the text after `{`) to
/// `out`, up to the matching `}`; a brace inside a quoted string does not
/// count.
fn collect_quoted_in_block(body: &[char], out: &mut Vec<String>)
    ensures
        string_views(final(out)@) == string_views(old(out)@) + block_values(body@, 0, 1),
{
    let mut depth: u128 = 1;
    let mut i: usize = 0;
    while i < body.len() && depth > 0
        invariant
            i <= body@.len(),
            depth <= i + 1,
            string_views(old(out)@) + block_values(body@, 0, 1) == string_views(out@)
                + block_values(body@, i as int, depth as int),
        decreases body@.len() - i,
    {
        if body[i] == '"' {
            match find_unescaped_quote(body, i + 1) {
                Some(q) => {
                    proof {
                        lemma_unescaped_quote(body@, i + 1);
                    }
                    let v = slice_chars(body, i + 1, q);
                    let ghost prev = string_views(out@);
                    out.push(string_of(v.as_slice()));
                    assert(string_views(out@) =~= prev.push(body@.subrange(i + 1, q as int)));
                    assert(string_views(out@) + block_values(body@, q + 1, depth as int)
                        =~= prev + (seq![body@.subrange(i + 1, q as int)] + block_values(
                        body@,
                        q + 1,
                        depth as int,
                    )));
                    i = q + 1;
                    continue ;
                },
                None => {
                    assert(string_views(out@) =~= string_views(out@) + Seq::<Seq<char>>::empty());
                    return ;
                },
            }
        } else if body[i] == '{' {
            depth = depth + 1;
        } else if body[i] == '}' {
            depth = depth - 1;
        }
        i = i + 1;
    }
    assert(block_values(body@, i as int, depth as int) =~= Seq::<Seq<char>>::empty());
    assert(string_views(out@) + Seq::<Seq<char>>::empty() =~= string_views(out@));
}

/// Extract every command value given for `directive` in (comment-stripped)
/// apt.conf text. Handles `<directive> "cmd";`, the append form
/// `<directive>:: "cmd";`, and the block form `<directive> { "cmd1"; "cmd2"; };`.
/// Only standalone occurrences count: `DPkg::Pre-Invoke` does not match
/// inside `DPkg::Pre-Invoke-Foo` or `DPkg::Pre-Invoke::Sub`.
pub fn extract_directive_values(content: &str, directive: &str) -> (r: Vec<String>)
    requires
        directive@.len() > 0,
    ensures
        string_views(r@) == values_from(content@, directive@, 0),
{
    let c = chars_of(content);
    let d = chars_of(directive);
    let n = c.len();
    let mut out: Vec<String> = Vec::new();
    let mut start: usize = 0;
    loop
        invariant
            c@ == content@,
            d@ == directive@,
            n == c@.len(),
            d@.len() > 0,
            start <= n,
            values_from(c@, d@, 0) == string_views(out@) + values_from(c@, d@, start as int),
        decreases n - start,
    {
        match find_chars(c.as_slice(), d.as_slice(), start) {
            None => {
                assert(string_views(out@) + Seq::<Seq<char>>::empty() =~= string_views(out@));
                return out;
            },
            Some(abs) => {
                proof {
                    lemma_find_from_bounds(c@, d@, start as int);
                }
                let next = abs + d.len();
                let ghost prev = string_views(out@);
                let prev_ok = abs == 0 || {
                    let p = c[abs - 1];
                    p == ' ' || p == '\t' || p == '\n' || p == '\r' || p == '{' || p == '}' || p
                        == ';'
                };
                let next_ok = if next >= n {
                    true
                } else if c[next] == ':' && next + 1 < n && c[next + 1] == ':' {
                    !(next + 2 < n && is_ident_exec(c[next + 2]))
                } else {
                    !is_ident_exec(c[next])
                };
                if prev_ok && next_ok {
                    directive_value_exec(c.as_slice(), next, &mut out);
                    assert(string_views(out@) + values_from(c@, d@, next as int) =~= prev + (
                    directive_value(c@, next as int) + values_from(c@, d@, next as int)));
                } else {
                    assert(prev + values_from(c@, d@, next as int) =~= prev + (Seq::<
                        Seq<char>,
                    >::empty() + values_from(c@, d@, next as int)));
                }
                start = next;
            },
        }
    }
}

fn is_ident_exec(c: char) -> (b: bool)
    ensures
        b == is_ident(c),
{
    is_ascii_alphanumeric(c) || c == '_' || c == '-'
}

/// Appends the values written after a directive ending before `next`.
fn directive_value_exec(c: &[char], next: usize, out: &mut Vec<String>)
    requires
        next <= c@.len(),
    ensures
        string_views(final(out)@) == string_views(old(out)@) + directive_value(c@, next as int),
{
    let n = c.len();
    let s1 = trim_start_index_in(c, next, n);
    let colons = s1 < n && n - s1 >= 2 && c[s1] == ':' && c[s1 + 1] == ':';
    let ghost rest = c@.subrange(next as int, n as int);
    let ghost tr = trim_start(rest);
    assert(starts_with(tr, seq![':', ':']) == colons) by {
        if colons {
            assert(tr.subrange(0, 2) =~= seq![':', ':']);
        }
        if starts_with(tr, seq![':', ':']) {
            assert(tr[0] == c@[s1 as int]);
            assert(tr[1] == c@[s1 + 1]);
        }
    }
    let s2 = if colons {
        let s = trim_start_index_in(c, s1 + 2, n);
        assert(tr.subrange(2, tr.len() as int) =~= c@.subrange(s1 + 2, n as int));
        s
    } else {
        s1
    };
    let ghost r2 = c@.subrange(s2 as int, n as int);
    assert(r2 == (if colons { trim_start(tr.subrange(2, tr.len() as int)) } else { tr }));
    if s2 < n && c[s2] == '"' {
        match find_unescaped_quote(c, s2 + 1) {
            Some(q) => {
                proof {
                    lemma_unescaped_quote(c@, s2 + 1);
                    lemma_unescaped_shift(c@, s2 as int, 1);
                }
                let v = slice_chars(c, s2 + 1, q);
                let ghost prev = string_views(out@);
                out.push(string_of(v.as_slice()));
                assert(r2.subrange(1, q - s2) =~= c@.subrange(s2 + 1, q as int));
                assert(string_views(out@) =~= prev + seq![c@.subrange(s2 + 1, q as int)]);
            },
            None => {
                proof {
                    lemma_unescaped_shift(c@, s2 as int, 1);
                }
                assert(string_views(out@) =~= string_views(out@) + Seq::<Seq<char>>::empty());
            },
        }
    } else if s2 < n && c[s2] == '{' {
        let body = slice_chars(c, s2 + 1, n);
        assert(body@ =~= r2.subrange(1, r2.len() as int));
        collect_quoted_in_block(body.as_slice(), out);
    } else {
        assert(string_views(out@) =~= string_views(out@) + Seq::<Seq<char>>::empty());
    }
}

/// Scanning a suffix for an unescaped quote finds the same quote, shifted.
proof fn lemma_unescaped_shift(c: Seq<char>, s: int, i: int)
    requires
        0 <= s <= c.len(),
        0 <= i,
    ensures
        unescaped_quote(c.subrange(s, c.len() as int), i) == (match unescaped_quote(c, s + i) {
            Some(q) => Some(q - s),
            None => None::<int>,
        }),
    decreases c.len() - s - i,
{
    let t = c.subrange(s, c.len() as int);
    if i < t.len() {
        assert(t[i] == c[s + i]);
        if t[i] == '\\' && i + 1 < t.len() {
            lemma_unescaped_shift(c, s, i + 2);
        } else if t[i] != '"' {
            lemma_unescaped_shift(c, s, i + 1);
        }
    }
}


// ─── findings ────────────────────────────────────────────────────────────────

/// The checker that surveys apt configuration hooks.
pub struct AptHooksChecker;

impl Checker for AptHooksChecker {
    fn name(&self) -> (r: &'static str)
        ensures
            r@ == "apt_hooks"@,
    {
        "apt_hooks"
    }
}

/// The apt.conf directive surveyed `i`-th: each holds shell commands that apt
/// runs at a fixed point of a package operation.
pub open spec fn hook_directive(i: int) -> Seq<char> {
    if i == 0 {
        "DPkg::Pre-Install-Pkgs"@
    } else if i == 1 {
        "DPkg::Pre-Invoke"@
    } else if i == 2 {
        "DPkg::Post-Invoke"@
    } else if i == 3 {
        "DPkg::Post-Invoke-Success"@
    } else if i == 4 {
        "APT::Update::Pre-Invoke"@
    } else if i == 5 {
        "APT::Update::Post-Invoke"@
    } else {
        "APT::Update::Post-Invoke-Success"@
    }
}

/// The number of surveyed directives.
pub const HOOK_DIRECTIVE_COUNT: usize = 7;

/// The drop-in directory of apt configuration.
pub const APT_CONF_DIR: &'static str = "/etc/apt/apt.conf.d";

/// The top-level apt configuration file.
pub const APT_CONF_TOPLEVEL: &'static str = "/etc/apt/apt.conf";

fn hook_directive_exec(i: usize) -> (d: &'static str)
    requires
        i < HOOK_DIRECTIVE_COUNT,
    ensures
        d@ == hook_directive(i as int),
        d@.len() > 0,
{
    let d = if i == 0 {
        "DPkg::Pre-Install-Pkgs"
    } else if i == 1 {
        "DPkg::Pre-Invoke"
    } else if i == 2 {
        "DPkg::Post-Invoke"
    } else if i == 3 {
        "DPkg::Post-Invoke-Success"
    } else if i == 4 {
        "APT::Update::Pre-Invoke"
    } else if i == 5 {
        "APT::Update::Post-Invoke"
    } else {
        "APT::Update::Post-Invoke-Success"
    };
    proof {
        reveal_strlit("DPkg::Pre-Install-Pkgs");
        reveal_strlit("DPkg::Pre-Invoke");
        reveal_strlit("DPkg::Post-Invoke");
        reveal_strlit("DPkg::Post-Invoke-Success");
        reveal_strlit("APT::Update::Pre-Invoke");
        reveal_strlit("APT::Update::Post-Invoke");
        reveal_strlit("APT::Update::Post-Invoke-Success");
    }
    d
}

/// The finding for one hook command.
pub open spec fn apt_finding(path: Seq<char>, directive: Seq<char>, cmd: Seq<char>) -> FindingView {
    unattributed(
        "apt_hooks"@,
        "apt hook "@ + directive + " — runs on package operation"@,
        path,
        Some(cmd),
        ScopeView::System,
        Map::empty().insert("directive"@, directive),
    )
}

/// The findings for the first `k` surveyed directives, in directive order,
/// each directive's commands in file order.
pub open spec fn apt_findings_upto(path: Seq<char>, stripped: Seq<char>, k: int) -> Seq<FindingView>
    decreases k,
{
    if k <= 0 {
        Seq::empty()
    } else {
        apt_findings_upto(path, stripped, k - 1) + values_from(stripped, hook_directive(k - 1), 0).map_values(
            |cmd: Seq<char>| apt_finding(path, hook_directive(k - 1), cmd),
        )
    }
}

/// The findings for an apt.conf file at `path` holding `content`: one per
/// command of each surveyed hook directive, once comments are stripped.
pub fn scan_apt_conf_content(path: &str, content: &str) -> (r: Vec<Finding>)
    ensures
        findings_view(r@) == apt_findings_upto(
            path@,
            strip_from(content@, 0),
            HOOK_DIRECTIVE_COUNT as int,
        ),
{
    let stripped = strip_apt_conf_comments(content);
    let mut findings: Vec<Finding> = Vec::new();
    let mut i: usize = 0;
    while i < HOOK_DIRECTIVE_COUNT
        invariant
            i <= HOOK_DIRECTIVE_COUNT,
            stripped@ == strip_from(content@, 0),
            findings_view(findings@) == apt_findings_upto(path@, stripped@, i as int),
        decreases HOOK_DIRECTIVE_COUNT - i,
    {
        let directive = hook_directive_exec(i);
        let cmds = extract_directive_values(stripped.as_str(), directive);
        let ghost before = findings_view(findings@);
        let mut k: usize = 0;
        while k < cmds.len()
            invariant
                k <= cmds@.len(),
                directive@ == hook_directive(i as int),
                string_views(cmds@) == values_from(stripped@, directive@, 0),
                findings_view(findings@) == before + string_views(cmds@).take(k as int).map_values(
                    |cmd: Seq<char>| apt_finding(path@, directive@, cmd),
                ),
            decreases cmds@.len() - k,
        {
            let mut metadata: Metadata = StrMap::new();
            metadata.insert(owned("directive"), owned(directive));
            let f = Finding {
                category: owned("apt_hooks"),
                mechanism: cat3("apt hook ", directive, " — runs on package operation"),
                source: owned(path),
                target: Some(cmds[k].clone()),
                scope: Scope::System,
                package: PackageOrigin::Unknown,
                metadata,
            };
            let ghost prev = findings_view(findings@);
            findings.push(f);
            proof {
                assert(string_views(cmds@)[k as int] == cmds@[k as int]@);
                assert(metadata@ =~= Map::empty().insert("directive"@, directive@));
                assert(findings_view(findings@) =~= prev.push(apt_finding(path@, directive@, cmds@[k as int]@)));
                assert(string_views(cmds@).take(k + 1).drop_last() =~= string_views(cmds@).take(k as int));
                assert(findings_view(findings@) =~= before + string_views(cmds@).take(k + 1).map_values(
                    |cmd: Seq<char>| apt_finding(path@, directive@, cmd),
                ));
            }
            k = k + 1;
        }
        assert(string_views(cmds@).take(cmds@.len() as int) =~= string_views(cmds@));
        i = i + 1;
    }
    findings
}

} // verus!
