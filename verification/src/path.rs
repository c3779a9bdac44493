use vstd::prelude::*;

use crate::text::{eq_chars, join, lemma_split_on_nonempty, slice_chars, split_chars, split_on, views};

verus! {

/// One component of a Unix path, as `std::path::Component` parses it.
pub enum Component {
    Root,
    CurDir,
    ParentDir,
    Normal(Seq<char>),
}

/// The component that segment number `i` (between `/`s) contributes: empty
/// segments and `.` vanish, except a leading `.` of a relative path.
pub open spec fn seg_component(i: int, seg: Seq<char>) -> Option<Component> {
    if seg.len() == 0 {
        None
    } else if seg == seq!['.'] {
        if i == 0 {
            Some(Component::CurDir)
        } else {
            None
        }
    } else if seg == seq!['.', '.'] {
        Some(Component::ParentDir)
    } else {
        Some(Component::Normal(seg))
    }
}

pub open spec fn seg_components(segs: Seq<Seq<char>>) -> Seq<Component>
    decreases segs.len(),
{
    if segs.len() == 0 {
        Seq::empty()
    } else {
        let r = seg_components(segs.drop_last());
        match seg_component(segs.len() - 1, segs.last()) {
            Some(c) => r.push(c),
            None => r,
        }
    }
}

/// `Path::components`: a leading `/` is the root, then the segments between
/// slashes, empty ones and `.` dropped (bar a leading `.`).
pub open spec fn components(p: Seq<char>) -> Seq<Component> {
    let rest = seg_components(split_on(p, '/'));
    if p.len() > 0 && p[0] == '/' {
        seq![Component::Root] + rest
    } else {
        rest
    }
}

/// `Path::file_name`: the last component when it is a normal name.
pub open spec fn file_name(p: Seq<char>) -> Option<Seq<char>> {
    let cs = components(p);
    if cs.len() > 0 && cs.last() is Normal {
        Some(cs.last()->Normal_0)
    } else {
        None
    }
}

/// `Path::parent`, as components: all but the last component, unless the
/// path is empty or only the root.
pub open spec fn parent(p: Seq<char>) -> Option<Seq<Component>> {
    let cs = components(p);
    if cs.len() > 0 && !(cs.last() is Root) {
        Some(cs.drop_last())
    } else {
        None
    }
}

/// The index of the last `c` in `s`.
pub open spec fn last_index_of(s: Seq<char>, c: char) -> Option<int>
    decreases s.len(),
{
    if s.len() == 0 {
        None
    } else if s.last() == c {
        Some(s.len() - 1)
    } else {
        last_index_of(s.drop_last(), c)
    }
}

/// The extension of a file name: what follows its last `.`, when that dot
/// is not the name's first character.
pub open spec fn name_extension(name: Seq<char>) -> Option<Seq<char>> {
    match last_index_of(name, '.') {
        Some(i) => if i > 0 {
            Some(name.subrange(i + 1, name.len() as int))
        } else {
            None
        },
        None => None,
    }
}

/// The stem of a file name: what precedes its last `.`, or the whole name
/// when it has no dot or only a leading one.
pub open spec fn name_stem(name: Seq<char>) -> Seq<char> {
    match last_index_of(name, '.') {
        Some(i) => if i > 0 {
            name.subrange(0, i)
        } else {
            name
        },
        None => name,
    }
}

/// `Path::extension`.
pub open spec fn extension(p: Seq<char>) -> Option<Seq<char>> {
    match file_name(p) {
        Some(n) => name_extension(n),
        None => None,
    }
}

/// `Path::file_stem`.
pub open spec fn file_stem(p: Seq<char>) -> Option<Seq<char>> {
    match file_name(p) {
        Some(n) => Some(name_stem(n)),
        None => None,
    }
}

/// `Path == Path`: the same components.
pub open spec fn same_path(a: Seq<char>, b: Seq<char>) -> bool {
    components(a) == components(b)
}

/// `path.parent() == Some(Path::new(dir))`.
pub open spec fn parent_is(p: Seq<char>, dir: Seq<char>) -> bool {
    parent(p) == Some(components(dir))
}

/// The text of one component.
pub open spec fn component_text(c: Component) -> Seq<char> {
    match c {
        Component::Root => seq!['/'],
        Component::CurDir => seq!['.'],
        Component::ParentDir => seq!['.', '.'],
        Component::Normal(n) => n,
    }
}

/// A path's components written back out: the root as a leading `/`, the
/// rest joined by `/`. Paths with the same components have the same normal
/// form.
pub open spec fn normal_form(p: Seq<char>) -> Seq<char> {
    let cs = components(p);
    if cs.len() > 0 && cs[0] is Root {
        seq!['/'] + join(cs.skip(1).map_values(|c: Component| component_text(c)), seq!['/'])
    } else {
        join(cs.map_values(|c: Component| component_text(c)), seq!['/'])
    }
}

// ─── executable side ─────────────────────────────────────────────────────────

/// A path component in executable form.
pub enum Part {
    Root,
    CurDir,
    ParentDir,
    Normal(Vec<char>),
}

impl View for Part {
    type V = Component;

    open spec fn view(&self) -> Component {
        match self {
            Part::Root => Component::Root,
            Part::CurDir => Component::CurDir,
            Part::ParentDir => Component::ParentDir,
            Part::Normal(n) => Component::Normal(n@),
        }
    }
}

pub open spec fn part_views(v: Seq<Part>) -> Seq<Component> {
    v.map_values(|x: Part| x@)
}

/// The components of `p`.
pub fn components_of(p: &[char]) -> (r: Vec<Part>)
    ensures
        part_views(r@) == components(p@),
{
    let segs = split_chars(p, '/');
    let mut out: Vec<Part> = Vec::new();
    let rooted = p.len() > 0 && p[0] == '/';
    if rooted {
        out.push(Part::Root);
    }
    let ghost pre = if rooted { seq![Component::Root] } else { Seq::<Component>::empty() };
    let mut i: usize = 0;
    while i < segs.len()
        invariant
            i <= segs@.len(),
            views(segs@) == split_on(p@, '/'),
            part_views(out@) == pre + seg_components(views(segs@).take(i as int)),
        decreases segs@.len() - i,
    {
        let seg = &segs[i];
        let ghost sv = views(segs@).take(i + 1);
        assert(sv.drop_last() =~= views(segs@).take(i as int));
        assert(sv.last() == seg@);
        let ghost prev = part_views(out@);
        let n = seg.len();
        if n == 0 {
        } else if n == 1 && seg[0] == '.' {
            assert(seg@ =~= seq!['.']);
            if i == 0 {
                out.push(Part::CurDir);
                assert(part_views(out@) =~= prev.push(Component::CurDir));
            }
        } else if n == 2 && seg[0] == '.' && seg[1] == '.' {
            assert(seg@ =~= seq!['.', '.']);
            out.push(Part::ParentDir);
            assert(part_views(out@) =~= prev.push(Component::ParentDir));
        } else {
            assert(seg@ != seq!['.']) by {
                if n == 1 {
                    assert(seg@[0] != '.');
                }
            }
            assert(seg@ != seq!['.', '.']) by {
                if n == 2 {
                    assert(seg@[0] != '.' || seg@[1] != '.');
                }
            }
            let name = slice_chars(seg.as_slice(), 0, n);
            assert(name@ =~= seg@);
            out.push(Part::Normal(name));
            assert(part_views(out@) =~= prev.push(Component::Normal(seg@)));
        }
        i = i + 1;
    }
    assert(views(segs@).take(segs@.len() as int) =~= views(segs@));
    proof {
        if rooted {
            assert(part_views(out@) =~= components(p@));
        } else {
            assert(part_views(out@) =~= components(p@));
        }
    }
    out
}

/// Whether two components are equal.
fn part_eq(a: &Part, b: &Part) -> (r: bool)
    ensures
        r == (a@ == b@),
{
    match (a, b) {
        (Part::Root, Part::Root) => true,
        (Part::CurDir, Part::CurDir) => true,
        (Part::ParentDir, Part::ParentDir) => true,
        (Part::Normal(x), Part::Normal(y)) => eq_chars(x.as_slice(), y.as_slice()),
        _ => false,
    }
}

/// Whether `a[..n]` and `b` hold equal components.
fn parts_prefix_eq(a: &Vec<Part>, n: usize, b: &Vec<Part>) -> (r: bool)
    requires
        n <= a@.len(),
    ensures
        r == (part_views(a@).take(n as int) == part_views(b@)),
{
    if n != b.len() {
        proof {
            assert(part_views(a@).take(n as int).len() != part_views(b@).len());
        }
        return false;
    }
    let mut i: usize = 0;
    while i < n
        invariant
            n == b@.len(),
            n <= a@.len(),
            i <= n,
            forall|j: int| 0 <= j < i ==> a@[j]@ == b@[j]@,
        decreases n - i,
    {
        if !part_eq(&a[i], &b[i]) {
            proof {
                assert(part_views(a@).take(n as int)[i as int] != part_views(b@)[i as int]);
            }
            return false;
        }
        i = i + 1;
    }
    assert(part_views(a@).take(n as int) =~= part_views(b@));
    true
}

/// `Path::new(a) == Path::new(b)`.
pub fn same_path_exec(a: &[char], b: &[char]) -> (r: bool)
    ensures
        r == same_path(a@, b@),
{
    let ca = components_of(a);
    let cb = components_of(b);
    let r = parts_prefix_eq(&ca, ca.len(), &cb);
    assert(part_views(ca@).take(ca@.len() as int) =~= part_views(ca@));
    r
}

/// `path.parent() == Some(Path::new(dir))`.
pub fn parent_is_exec(p: &[char], dir: &[char]) -> (r: bool)
    ensures
        r == parent_is(p@, dir@),
{
    let cp = components_of(p);
    let n = cp.len();
    if n == 0 {
        return false;
    }
    if let Part::Root = &cp[n - 1] {
        return false;
    }
    let cd = components_of(dir);
    let r = parts_prefix_eq(&cp, n - 1, &cd);
    assert(part_views(cp@).take(n - 1) =~= part_views(cp@).drop_last());
    r
}

/// `Path::file_name`.
pub fn file_name_of(p: &[char]) -> (r: Option<Vec<char>>)
    ensures
        match r {
            Some(n) => file_name(p@) == Some(n@),
            None => file_name(p@) is None,
        },
{
    let cp = components_of(p);
    let n = cp.len();
    if n == 0 {
        return None;
    }
    assert(part_views(cp@).last() == cp@[n - 1]@);
    match &cp[n - 1] {
        Part::Normal(name) => {
            let r = slice_chars(name.as_slice(), 0, name.len());
            assert(r@ =~= name@);
            Some(r)
        },
        _ => None,
    }
}

/// The index of the last `c` in `s`.
pub fn last_index_exec(s: &[char], c: char) -> (r: Option<usize>)
    ensures
        match r {
            Some(i) => last_index_of(s@, c) == Some(i as int),
            None => last_index_of(s@, c) is None,
        },
{
    let mut i = s.len();
    assert(s@.take(s@.len() as int) =~= s@);
    while i > 0
        invariant
            i <= s@.len(),
            last_index_of(s@, c) == last_index_of(s@.take(i as int), c),
        decreases i,
    {
        assert(s@.take(i as int).drop_last() =~= s@.take(i - 1));
        if s[i - 1] == c {
            return Some(i - 1);
        }
        i = i - 1;
    }
    None
}

/// The extension of a file name.
pub fn name_extension_exec(name: &[char]) -> (r: Option<Vec<char>>)
    ensures
        match r {
            Some(e) => name_extension(name@) == Some(e@),
            None => name_extension(name@) is None,
        },
{
    match last_index_exec(name, '.') {
        Some(i) => {
            if i > 0 {
                proof {
                    lemma_last_index_bound(name@, '.');
                }
                assert(i < name@.len());
                assert(name@.len() == name.len());
                Some(slice_chars(name, i + 1, name.len()))
            } else {
                None
            }
        },
        None => None,
    }
}

/// The stem of a file name.
pub fn name_stem_exec(name: &[char]) -> (r: Vec<char>)
    ensures
        r@ == name_stem(name@),
{
    proof {
        lemma_last_index_bound(name@, '.');
    }
    match last_index_exec(name, '.') {
        Some(i) => {
            if i > 0 {
                slice_chars(name, 0, i)
            } else {
                let r = slice_chars(name, 0, name.len());
                assert(r@ =~= name@);
                r
            }
        },
        None => {
            let r = slice_chars(name, 0, name.len());
            assert(r@ =~= name@);
            r
        },
    }
}

pub proof fn lemma_last_index_bound(s: Seq<char>, c: char)
    ensures
        last_index_of(s, c) matches Some(i) ==> 0 <= i < s.len() && s[i] == c,
    decreases s.len(),
{
    if s.len() > 0 && s.last() != c {
        lemma_last_index_bound(s.drop_last(), c);
    }
}

/// `Path::extension`.
pub fn extension_of(p: &[char]) -> (r: Option<Vec<char>>)
    ensures
        match r {
            Some(e) => extension(p@) == Some(e@),
            None => extension(p@) is None,
        },
{
    match file_name_of(p) {
        Some(n) => name_extension_exec(n.as_slice()),
        None => None,
    }
}

/// `Path::file_stem`.
pub fn file_stem_of(p: &[char]) -> (r: Option<Vec<char>>)
    ensures
        match r {
            Some(e) => file_stem(p@) == Some(e@),
            None => file_stem(p@) is None,
        },
{
    match file_name_of(p) {
        Some(n) => Some(name_stem_exec(n.as_slice())),
        None => None,
    }
}

/// Whether the path's extension is `ext`
/// (`path.extension().and_then(|e| e.to_str()) == Some(ext)`).
pub fn has_extension(path: &str, ext: &str) -> (b: bool)
    ensures
        b == (extension(path@) == Some(ext@)),
{
    let p = crate::text::chars_of(path);
    let e = crate::text::chars_of(ext);
    match extension_of(p.as_slice()) {
        Some(x) => eq_chars(x.as_slice(), e.as_slice()),
        None => false,
    }
}

/// A directory entry named `name` is neither hidden (a dotfile) nor an
/// editor backup (ending in `~`); such entries are not read, sourced or
/// dispatched.
pub open spec fn visible_name(name: Seq<char>) -> bool {
    !(name.len() > 0 && name[0] == '.') && !(name.len() > 0 && name.last() == '~')
}

/// Whether a directory entry named `name` is neither hidden nor a backup.
pub fn is_visible_name(name: &str) -> (b: bool)
    ensures
        b == visible_name(name@),
{
    let c = crate::text::chars_of(name);
    let n = c.len();
    !(n > 0 && c[0] == '.') && !(n > 0 && c[n - 1] == '~')
}

fn part_text(c: &Part) -> (r: Vec<char>)
    ensures
        r@ == component_text(c@),
{
    match c {
        Part::Root => {
            let r = vec!['/'];
            assert(r@ =~= seq!['/']);
            r
        },
        Part::CurDir => {
            let r = vec!['.'];
            assert(r@ =~= seq!['.']);
            r
        },
        Part::ParentDir => {
            let r = vec!['.', '.'];
            assert(r@ =~= seq!['.', '.']);
            r
        },
        Part::Normal(n) => slice_chars(n.as_slice(), 0, n.len()),
    }
}

/// The normal form of a path: its components written back out.
pub fn normal_form_of(p: &[char]) -> (r: Vec<char>)
    ensures
        r@ == normal_form(p@),
{
    let cp = components_of(p);
    let n = cp.len();
    let ghost cs = part_views(cp@);
    let ghost texts = cs.map_values(|c: Component| component_text(c));
    let rooted = n > 0 && match &cp[0] {
        Part::Root => true,
        _ => false,
    };
    assert(n > 0 ==> cs[0] == cp@[0]@);
    let start: usize = if rooted {
        1
    } else {
        0
    };
    let mut out: Vec<char> = Vec::new();
    if rooted {
        out.push('/');
    }
    let ghost pre = out@;
    let mut i = start;
    while i < n
        invariant
            start <= i <= n,
            n == cp@.len(),
            cs == part_views(cp@),
            texts == cs.map_values(|c: Component| component_text(c)),
            out@ == pre + join(texts.subrange(start as int, i as int), seq!['/']),
        decreases n - i,
    {
        let ghost before = out@;
        if i > start {
            out.push('/');
        }
        let t = part_text(&cp[i]);
        out.extend_from_slice(t.as_slice());
        assert(texts[i as int] == t@);
        let ghost post = texts.subrange(start as int, i + 1);
        assert(post.drop_last() =~= texts.subrange(start as int, i as int));
        if i == start {
            assert(out@ =~= pre + post[0]);
        } else {
            assert(out@ =~= before + seq!['/'] + t@);
        }
        i = i + 1;
    }
    proof {
        if rooted {
            assert(cs[0] is Root);
            assert(texts.subrange(1, n as int) =~= cs.skip(1).map_values(
                |c: Component| component_text(c),
            ));
            assert(pre =~= seq!['/']);
        } else {
            assert(!(cs.len() > 0 && cs[0] is Root));
            assert(texts.subrange(0, n as int) =~= texts);
            assert(pre =~= Seq::<char>::empty());
            assert(out@ =~= join(texts, seq!['/']));
        }
    }
    out
}

/// The file name of `path`, if it has one (`Path::file_name`).
pub fn file_name_text(path: &str) -> (r: Option<String>)
    ensures
        match r {
            Some(n) => file_name(path@) == Some(n@),
            None => file_name(path@) is None,
        },
{
    let p = crate::text::chars_of(path);
    match file_name_of(p.as_slice()) {
        Some(n) => Some(crate::text::string_of(n.as_slice())),
        None => None,
    }
}

} // verus!
