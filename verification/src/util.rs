use vstd::prelude::*;

use crate::finding::StrMap;
use crate::path::{same_path, same_path_exec};
use crate::text::{
    matches_at, matches_at_exec, string_views,
    find_chars, find_from, lemma_find_from_bounds, slice_chars, trim, trim_chars,
    chars_of, is_ws, lines, lines_of, push_range, string_of, trim_end, trim_end_index, trim_start,
    trim_start_index_in, views, lemma_trim_parts, lemma_trim_split,
};

verus! {

// ─── line continuations ──────────────────────────────────────────────────────

/// `line` ends, before any trailing whitespace, in a backslash.
pub open spec fn continues(line: Seq<char>) -> bool {
    let r = trim_end(line);
    r.len() > 0 && r.last() == '\\'
}

/// One line of the continuation fold. The state is the text emitted so far
/// and the pending joined line; a continued line adds its body (without the
/// backslash) to the pending line, any other line ends it.
pub open spec fn fold_step(state: (Seq<char>, Seq<char>), line: Seq<char>) -> (
    Seq<char>,
    Seq<char>,
) {
    let out = state.0;
    let buf = state.1;
    if continues(line) {
        let body = trim_end(trim_end(line).drop_last());
        if buf.len() == 0 {
            (out, body)
        } else {
            (out, buf + seq![' '] + trim_start(body))
        }
    } else if buf.len() == 0 {
        (out + line + seq!['\n'], buf)
    } else {
        (out + buf + seq![' '] + trim_start(line) + seq!['\n'], Seq::empty())
    }
}

/// The fold over a sequence of lines, first to last.
pub open spec fn fold_lines(ls: Seq<Seq<char>>) -> (Seq<char>, Seq<char>)
    decreases ls.len(),
{
    if ls.len() == 0 {
        (Seq::empty(), Seq::empty())
    } else {
        fold_step(fold_lines(ls.drop_last()), ls.last())
    }
}

/// `content` with every backslash continuation joined into one line; each
/// output line ends in `\n`, and a dangling continuation at the end of the
/// input is flushed as the last line.
pub open spec fn folded(content: Seq<char>) -> Seq<char> {
    let st = fold_lines(lines(content));
    if st.1.len() == 0 {
        st.0
    } else {
        st.0 + st.1 + seq!['\n']
    }
}

/// Each line followed by `\n`, concatenated.
pub open spec fn terminated(ls: Seq<Seq<char>>) -> Seq<char>
    decreases ls.len(),
{
    if ls.len() == 0 {
        Seq::empty()
    } else {
        terminated(ls.drop_last()) + ls.last() + seq!['\n']
    }
}

/// Fold backslash-at-EOL line continuations into single logical lines. A
/// continued line loses the backslash and the whitespace around it, the
/// next line loses its indentation, and the two are joined with one space.
/// Every output line ends in `\n`.
pub fn fold_line_continuations(content: &str) -> (r: String)
    ensures
        r@ == folded(content@),
{
    let chars = chars_of(content);
    let out = fold_chars(chars.as_slice());
    string_of(out.as_slice())
}

/// `fold_line_continuations` on characters.
pub fn fold_chars(content: &[char]) -> (out: Vec<char>)
    ensures
        out@ == folded(content@),
{
    let ls = lines_of(content);
    let mut out: Vec<char> = Vec::new();
    let mut buf: Vec<char> = Vec::new();
    let mut i: usize = 0;
    while i < ls.len()
        invariant
            i <= ls@.len(),
            views(ls@) == lines(content@),
            fold_lines(views(ls@).take(i as int)) == (out@, buf@),
        decreases ls@.len() - i,
    {
        let line = ls[i].as_slice();
        let ghost l = line@;
        assert(views(ls@)[i as int] == l);
        assert(views(ls@).take(i + 1).drop_last() =~= views(ls@).take(i as int));
        let e = trim_end_index(line, 0, line.len());
        assert(line@.subrange(0, line@.len() as int) =~= line@);
        if e > 0 && line[e - 1] == '\\' {
            let be = trim_end_index(line, 0, e - 1);
            assert(line@.subrange(0, e as int).drop_last() =~= line@.subrange(0, e - 1));
            if buf.len() == 0 {
                push_range(&mut buf, line, 0, be);
            } else {
                buf.push(' ');
                let bs = trim_start_index_in(line, 0, be);
                push_range(&mut buf, line, bs, be);
            }
        } else if buf.len() == 0 {
            push_range(&mut out, line, 0, line.len());
            out.push('\n');
        } else {
            out.append(&mut buf);
            out.push(' ');
            let ts = trim_start_index_in(line, 0, line.len());
            push_range(&mut out, line, ts, line.len());
            out.push('\n');
        }
        i = i + 1;
    }
    assert(views(ls@).take(ls@.len() as int) =~= views(ls@));
    if buf.len() > 0 {
        out.append(&mut buf);
        out.push('\n');
    }
    out
}

// ─── INI-like documents ──────────────────────────────────────────────────────

/// One section of an INI-like document: each key maps to its values, repeats
/// kept in source order.
pub type IniSection = StrMap<Vec<String>>;

/// An INI-like document: section name → section.
pub type IniDoc = StrMap<IniSection>;

/// The model of a section: key → values.
pub type SectionView = Map<Seq<char>, Seq<Seq<char>>>;

/// The model of a document: section name → section.
pub type DocView = Map<Seq<char>, SectionView>;

/// `doc` with `value` appended to the values of `key` in section `sec`, the
/// section and the key created when absent.
pub open spec fn ini_add(doc: DocView, sec: Seq<char>, key: Seq<char>, value: Seq<char>) -> DocView {
    let section = if doc.contains_key(sec) {
        doc[sec]
    } else {
        Map::empty()
    };
    let values = if section.contains_key(key) {
        section[key]
    } else {
        Seq::empty()
    };
    doc.insert(sec, section.insert(key, values.push(value)))
}

/// A full-line comment or blank line, once trimmed.
pub open spec fn ini_skipped(t: Seq<char>) -> bool {
    t.len() == 0 || t[0] == '#' || t[0] == ';'
}

/// A `[name]` header, once trimmed.
pub open spec fn ini_header(t: Seq<char>) -> bool {
    t.len() > 0 && t[0] == '[' && t.last() == ']'
}

/// One line of an INI-like document. The state is the document so far and
/// the open section, if any. Blank lines and `#`/`;` comments are skipped; a
/// `[name]` header opens a section; `key = value` (split at the first `=`,
/// both sides trimmed) adds to the open section; anything else is ignored.
pub open spec fn ini_step(state: (DocView, Option<Seq<char>>), line: Seq<char>) -> (
    DocView,
    Option<Seq<char>>,
) {
    let t = trim(line);
    if ini_skipped(t) {
        state
    } else if ini_header(t) {
        (state.0, Some(t.subrange(1, t.len() - 1)))
    } else {
        match state.1 {
            None => state,
            Some(sec) => match find_from(t, seq!['='], 0) {
                None => state,
                Some(i) => (
                    ini_add(state.0, sec, trim(t.subrange(0, i)), trim(t.subrange(i + 1, t.len() as int))),
                    state.1,
                ),
            },
        }
    }
}

/// The fold of `ini_step` over lines, first to last.
pub open spec fn ini_fold(ls: Seq<Seq<char>>) -> (DocView, Option<Seq<char>>)
    decreases ls.len(),
{
    if ls.len() == 0 {
        (Map::empty(), None)
    } else {
        ini_step(ini_fold(ls.drop_last()), ls.last())
    }
}

/// The document the lines of `content` describe, continuations not folded.
pub open spec fn ini_of(content: Seq<char>) -> DocView {
    ini_fold(lines(content)).0
}

/// In an open section, a line `k=v` whose key part `k` holds no `=` appends
/// the trimmed `v` to the values of the trimmed `k`, every other key and
/// section unchanged, and the section stays open: the line splits at its
/// first `=`, so the value may hold `=` itself. (A key part that trims to a
/// comment or header opener, `#`, `;` or `[`, makes another kind of line.)
pub proof fn key_value_line_splits_at_first_equals(
    state: (DocView, Option<Seq<char>>),
    sec: Seq<char>,
    k: Seq<char>,
    v: Seq<char>,
)
    requires
        state.1 == Some(sec),
        forall|j: int| 0 <= j < k.len() ==> k[j] != '=',
        trim(k).len() == 0 || (trim(k)[0] != '#' && trim(k)[0] != ';' && trim(k)[0] != '['),
    ensures
        ({
            let r = ini_step(state, k + seq!['='] + v);
            let section: Map<Seq<char>, Seq<Seq<char>>> = if state.0.contains_key(sec) {
                state.0[sec]
            } else {
                Map::empty()
            };
            let values: Seq<Seq<char>> = if section.contains_key(trim(k)) {
                section[trim(k)]
            } else {
                Seq::empty()
            };
            &&& r.1 == Some(sec)
            &&& r.0 == state.0.insert(sec, section.insert(trim(k), values.push(trim(v))))
        }),
{
    let line = k + seq!['='] + v;
    let (ak, ek) = lemma_trim_split(k);
    let (av, ev) = lemma_trim_split(v);
    let a: int = if ak < ek {
        ak
    } else {
        k.len() as int
    };
    let e: int = if av < ev {
        ev
    } else {
        0
    };
    let p = k.subrange(0, a);
    let kr = k.subrange(a, k.len() as int);
    let vl = v.subrange(0, e);
    let q = v.subrange(e, v.len() as int);
    let m = kr + seq!['='] + vl;
    assert(line =~= p + m + q);
    assert forall|j: int| 0 <= j < p.len() implies is_ws(#[trigger] p[j]) by {
        assert(p[j] == k[j]);
    }
    assert forall|j: int| 0 <= j < q.len() implies is_ws(#[trigger] q[j]) by {
        assert(q[j] == v[e + j]);
    }
    if ak < ek {
        assert(m[0] == k[ak]);
    } else {
        assert(m[0] == '=');
    }
    if av < ev {
        assert(m.last() == v[ev - 1]);
    } else {
        assert(m.last() == '=');
    }
    lemma_trim_parts(p, m, q);
    let t = trim(line);
    assert(t == m);
    let i0 = kr.len() as int;
    assert(m.subrange(i0, i0 + 1) =~= seq!['=']);
    assert(matches_at(m, seq!['='], i0));
    lemma_find_from_bounds(m, seq!['='], 0);
    match find_from(m, seq!['='], 0) {
        Some(i) => {
            if i < i0 {
                assert(m.subrange(i, i + 1)[0] == m[i]);
                assert(m[i] == k[a + i]);
            }
            assert(i == i0);
        },
        None => {
            assert(false);
        },
    }
    // The key part trims to trim(k).
    assert(m.subrange(0, i0) =~= kr);
    let kk = k.subrange(ak, ek);
    if ak < ek {
        let kq = k.subrange(ek, k.len() as int);
        assert(kr =~= Seq::<char>::empty() + kk + kq);
        assert forall|j: int| 0 <= j < kq.len() implies is_ws(#[trigger] kq[j]) by {
            assert(kq[j] == k[ek + j]);
        }
        assert(kk[0] == k[ak]);
        assert(kk.last() == k[ek - 1]);
        lemma_trim_parts(Seq::<char>::empty(), kk, kq);
        assert(trim(k) == kk);
        assert(trim(kr) == trim(k));
    } else {
        assert(kr =~= Seq::<char>::empty() + Seq::<char>::empty() + Seq::<char>::empty());
        lemma_trim_parts(Seq::<char>::empty(), Seq::<char>::empty(), Seq::<char>::empty());
        assert(trim(k) =~= Seq::<char>::empty());
    }
    // The value part trims to trim(v).
    assert(m.subrange(i0 + 1, m.len() as int) =~= vl);
    let vv = v.subrange(av, ev);
    if av < ev {
        let vp = v.subrange(0, av);
        assert(vl =~= vp + vv + Seq::<char>::empty());
        assert forall|j: int| 0 <= j < vp.len() implies is_ws(#[trigger] vp[j]) by {
            assert(vp[j] == v[j]);
        }
        assert(vv[0] == v[av]);
        assert(vv.last() == v[ev - 1]);
        lemma_trim_parts(vp, vv, Seq::<char>::empty());
    } else {
        assert(vl =~= Seq::<char>::empty() + Seq::<char>::empty() + Seq::<char>::empty());
        lemma_trim_parts(Seq::<char>::empty(), Seq::<char>::empty(), Seq::<char>::empty());
        assert(trim(v) =~= Seq::<char>::empty());
    }
    if ak < ek {
        assert(t[0] == trim(k)[0]);
    }
}

/// Appends `value` to the values of `key` in section `sec`.
fn ini_push(doc: &mut IniDoc, sec: &Vec<char>, key: Vec<char>, value: Vec<char>)
    ensures
        final(doc)@ == ini_add(old(doc)@, sec@, key@, value@),
{
    let sec_name = string_of(sec.as_slice());
    let key_name = string_of(key.as_slice());
    let ghost d = doc@;
    let mut section: IniSection = match doc.remove(sec_name.as_str()) {
        Some(m) => m,
        None => StrMap::new(),
    };
    let ghost sec0 = section@;
    assert(sec0 == (if d.contains_key(sec@) { d[sec@] } else { Map::empty() }));
    let mut values: Vec<String> = match section.remove(key_name.as_str()) {
        Some(v) => v,
        None => Vec::new(),
    };
    let ghost before = values.deep_view();
    assert(before =~= (if sec0.contains_key(key@) { sec0[key@] } else { Seq::empty() }));
    let v = string_of(value.as_slice());
    values.push(v);
    assert(values.deep_view() =~= before.push(value@));
    section.insert(key_name, values);
    assert(section@ =~= sec0.insert(key@, before.push(value@)));
    doc.insert(sec_name, section);
    assert(doc@ =~= ini_add(d, sec@, key@, value@));
}

/// Parses already-split lines of an INI-like document.
pub fn parse_ini_lines(ls: &Vec<Vec<char>>) -> (doc: IniDoc)
    ensures
        doc@ == ini_fold(views(ls@)).0,
{
    let mut doc: IniDoc = StrMap::new();
    let mut current: Option<Vec<char>> = None;
    let mut i: usize = 0;
    while i < ls.len()
        invariant
            i <= ls@.len(),
            ini_fold(views(ls@).take(i as int)) == (doc@, match current {
                Some(c) => Some(c@),
                None => None::<Seq<char>>,
            }),
        decreases ls@.len() - i,
    {
        assert(views(ls@).take(i + 1).drop_last() =~= views(ls@).take(i as int));
        assert(views(ls@)[i as int] == ls@[i as int]@);
        let t = trim_chars(ls[i].as_slice());
        let n = t.len();
        if n == 0 || t[0] == '#' || t[0] == ';' {
        } else if t[0] == '[' && t[n - 1] == ']' {
            current = Some(slice_chars(t.as_slice(), 1, n - 1));
        } else {
            match &current {
                None => {},
                Some(sec) => {
                    let eq: [char; 1] = ['='];
                    assert(eq@ =~= seq!['=']);
                    match find_chars(t.as_slice(), eq.as_slice(), 0) {
                        None => {},
                        Some(k) => {
                            proof {
                                lemma_find_from_bounds(t@, seq!['='], 0);
                            }
                            let key_raw = slice_chars(t.as_slice(), 0, k);
                            let val_raw = slice_chars(t.as_slice(), k + 1, n);
                            let key = trim_chars(key_raw.as_slice());
                            let value = trim_chars(val_raw.as_slice());
                            ini_push(&mut doc, sec, key, value);
                        },
                    }
                },
            }
        }
        i = i + 1;
    }
    assert(views(ls@).take(ls@.len() as int) =~= views(ls@));
    doc
}

/// Parse an INI-like document after folding backslash continuations.
/// Blank lines and `#`/`;` full-line comments are skipped; `[name]` opens a
/// section; `key = value` lines land in it, trimmed, repeats accumulating in
/// source order; lines outside any section and lines without `=` are ignored.
pub fn parse_ini(content: &str) -> (doc: IniDoc)
    ensures
        doc@ == ini_of(folded(content@)),
{
    let chars = chars_of(content);
    let f = fold_chars(chars.as_slice());
    let ls = lines_of(f.as_slice());
    parse_ini_lines(&ls)
}

/// The last value of `key` in section `sec`, if any.
pub open spec fn last_value(doc: DocView, sec: Seq<char>, key: Seq<char>) -> Option<Seq<char>> {
    if doc.contains_key(sec) && doc[sec].contains_key(key) && doc[sec][key].len() > 0 {
        Some(doc[sec][key].last())
    } else {
        None
    }
}

pub fn last_value_exec(unit: &IniDoc, sec: &str, key: &str) -> (r: Option<String>)
    ensures
        match r {
            Some(v) => last_value(unit@, sec@, key@) == Some(v@),
            None => last_value(unit@, sec@, key@) is None,
        },
{
    match unit.get(sec) {
        None => None,
        Some(s) => match s.get(key) {
            None => None,
            Some(vals) => {
                if vals.len() == 0 {
                    None
                } else {
                    let n = vals.len();
                    assert(vals.deep_view()[n - 1] == vals@[n - 1]@);
                    Some(vals[n - 1].clone())
                }
            },
        },
    }
}

// ─── directories and users ───────────────────────────────────────────────────

/// The paths of `s` not naming, component by component, the same path as an
/// earlier one: the first occurrence of each, in order.
pub open spec fn first_occurrences(s: Seq<Seq<char>>) -> Seq<Seq<char>>
    decreases s.len(),
{
    if s.len() == 0 {
        Seq::empty()
    } else {
        let r = first_occurrences(s.drop_last());
        if exists|j: int| 0 <= j < s.len() - 1 && same_path(s[j], s.last()) {
            r
        } else {
            r.push(s.last())
        }
    }
}

/// The unique paths among `resolved`, in input order. Each entry is a
/// directory with its symlinks already resolved (`/lib` → `/usr/lib`), or
/// the path as given where resolving failed; paths are compared component
/// by component.
pub fn canonical_unique(resolved: &[String]) -> (r: Vec<String>)
    ensures
        string_views(r@) == first_occurrences(string_views(resolved@)),
{
    let mut out: Vec<String> = Vec::new();
    let mut i: usize = 0;
    while i < resolved.len()
        invariant
            i <= resolved@.len(),
            string_views(out@) == first_occurrences(string_views(resolved@).take(i as int)),
        decreases resolved@.len() - i,
    {
        let ghost t = string_views(resolved@).take(i + 1);
        assert(t.drop_last() =~= string_views(resolved@).take(i as int));
        assert(t.last() == resolved@[i as int]@);
        let p = chars_of(resolved[i].as_str());
        let mut seen = false;
        let mut j: usize = 0;
        while j < i
            invariant
                j <= i < resolved@.len(),
                p@ == resolved@[i as int]@,
                t == string_views(resolved@).take(i + 1),
                seen == exists|k: int| 0 <= k < j && same_path(t[k], t.last()),
            decreases i - j,
        {
            let q = chars_of(resolved[j].as_str());
            assert(t[j as int] == q@);
            if same_path_exec(q.as_slice(), p.as_slice()) {
                seen = true;
            }
            j = j + 1;
        }
        let ghost prev = string_views(out@);
        if !seen {
            out.push(resolved[i].clone());
            assert(string_views(out@) =~= prev.push(resolved@[i as int]@));
        }
        i = i + 1;
    }
    assert(string_views(resolved@).take(resolved@.len() as int) =~= string_views(resolved@));
    out
}

/// The unique paths name pairwise different paths, and every input path
/// has one among them naming the same path.
pub proof fn unique_paths_are_unique_and_complete(s: Seq<Seq<char>>)
    ensures
        forall|i: int, j: int|
            0 <= i < j < first_occurrences(s).len() ==> !same_path(
                #[trigger] first_occurrences(s)[i],
                #[trigger] first_occurrences(s)[j],
            ),
        forall|i: int|
            0 <= i < s.len() ==> exists|j: int|
                0 <= j < first_occurrences(s).len() && same_path(
                    #[trigger] s[i],
                    first_occurrences(s)[j],
                ),
        forall|j: int|
            0 <= j < first_occurrences(s).len() ==> s.contains(#[trigger] first_occurrences(s)[j]),
    decreases s.len(),
{
    if s.len() > 0 {
        let init = s.drop_last();
        unique_paths_are_unique_and_complete(init);
        let r0 = first_occurrences(init);
        let r = first_occurrences(s);
        let x = s.last();
        assert forall|j: int| 0 <= j < r.len() implies s.contains(#[trigger] r[j]) by {
            if j < r0.len() {
                assert(r[j] == r0[j]);
                let k = choose|k: int| 0 <= k < init.len() && init[k] == r0[j];
                assert(s[k] == init[k]);
            } else {
                assert(r[j] == x);
                assert(s[s.len() - 1] == x);
            }
        }
        if exists|j: int| 0 <= j < s.len() - 1 && same_path(s[j], x) {
            assert(r == r0);
            let w = choose|j: int| 0 <= j < s.len() - 1 && same_path(s[j], x);
            assert(init[w] == s[w]);
            assert forall|i: int| 0 <= i < s.len() implies exists|j: int|
                0 <= j < r.len() && same_path(#[trigger] s[i], r[j]) by {
                if i < s.len() - 1 {
                    assert(init[i] == s[i]);
                } else {
                    let j = choose|j: int| 0 <= j < r0.len() && same_path(init[w], r0[j]);
                    assert(same_path(s[i], r[j]));
                }
            }
        } else {
            assert(r == r0.push(x));
            assert forall|i: int, j: int| 0 <= i < j < r.len() implies !same_path(
                #[trigger] r[i],
                #[trigger] r[j],
            ) by {
                if j < r0.len() {
                    assert(r[i] == r0[i] && r[j] == r0[j]);
                } else {
                    assert(r[i] == r0[i]);
                    assert(r[j] == x);
                    assert(s.contains(r[i]));
                    let k = choose|k: int| 0 <= k < init.len() && init[k] == r0[i];
                    assert(s[k] == r0[i]);
                }
            }
            assert forall|i: int| 0 <= i < s.len() implies exists|j: int|
                0 <= j < r.len() && same_path(#[trigger] s[i], r[j]) by {
                if i < s.len() - 1 {
                    assert(init[i] == s[i]);
                    let j = choose|j: int| 0 <= j < r0.len() && same_path(init[i], r0[j]);
                    assert(r[j] == r0[j]);
                } else {
                    assert(r[r.len() - 1] == x);
                }
            }
        }
    }
}

/// A login account surveyed for per-user persistence.
#[derive(Debug)]
pub struct RealUser {
    pub uid: u32,
    pub name: String,
    pub home: String,
}

/// `needle` occurs somewhere in `s`.
pub open spec fn contains_text(s: Seq<char>, needle: Seq<char>) -> bool {
    exists|i: int| matches_at(s, needle, i)
}

fn contains_text_exec(s: &[char], needle: &[char]) -> (b: bool)
    ensures
        b == contains_text(s@, needle@),
{
    if needle.len() > s.len() {
        assert forall|i: int| !matches_at(s@, needle@, i) by {}
        return false;
    }
    let mut i: usize = 0;
    while i <= s.len() - needle.len()
        invariant
            needle@.len() <= s@.len(),
            i <= s@.len() - needle@.len() + 1,
            forall|k: int| 0 <= k < i ==> !matches_at(s@, needle@, k),
        decreases s@.len() - needle@.len() + 1 - i,
    {
        if matches_at_exec(s, needle, i) {
            return true;
        }
        if i == s.len() - needle.len() {
            assert forall|k: int| !matches_at(s@, needle@, k) by {
                if k > i {
                    assert(!matches_at(s@, needle@, k));
                }
            }
            return false;
        }
        i = i + 1;
    }
    false
}

/// A "real" user: root or a UID in 1000..65534 (1–999 are daemons' system
/// accounts, 65534 is `nobody`), with a login shell that is neither empty
/// nor a `nologin` or `false` stub.
pub open spec fn real_user(uid: u32, shell: Seq<char>) -> bool {
    &&& (uid == 0 || (1000 <= uid && uid < 65534))
    &&& shell.len() > 0
    &&& !contains_text(shell, "nologin"@)
    &&& !contains_text(shell, "false"@)
}

/// Whether an account with `uid` and login `shell` is surveyed.
pub fn is_real_user(uid: u32, shell: &str) -> (b: bool)
    ensures
        b == real_user(uid, shell@),
{
    if !(uid == 0 || (1000 <= uid && uid < 65534)) {
        return false;
    }
    let s = chars_of(shell);
    let nologin = chars_of("nologin");
    let f = chars_of("false");
    s.len() > 0 && !contains_text_exec(s.as_slice(), nologin.as_slice()) && !contains_text_exec(
        s.as_slice(),
        f.as_slice(),
    )
}

proof fn lemma_fold_plain(ls: Seq<Seq<char>>)
    requires
        forall|i: int| 0 <= i < ls.len() ==> !continues(#[trigger] ls[i]),
    ensures
        fold_lines(ls) == (terminated(ls), Seq::<char>::empty()),
    decreases ls.len(),
{
    if ls.len() > 0 {
        let init = ls.drop_last();
        assert forall|i: int| 0 <= i < init.len() implies !continues(#[trigger] init[i]) by {
            assert(init[i] == ls[i]);
        }
        lemma_fold_plain(init);
    }
}

/// Content with no continued line folds to its lines, each ended by `\n`:
/// lines without a trailing backslash pass through unchanged.
pub proof fn fold_passes_plain_content_through(content: Seq<char>)
    requires
        forall|i: int| 0 <= i < lines(content).len() ==> !continues(#[trigger] lines(content)[i]),
    ensures
        folded(content) == terminated(lines(content)),
{
    lemma_fold_plain(lines(content));
}

} // verus!
