//! A model of Unix paths held as strings.
//!
//! A path is read as a sequence of components, the way `std::path::Path`
//! reads it on Unix: a leading `/` is the root, `/`-separated segments follow,
//! empty segments and `.` segments vanish (except a leading `.` of a relative
//! path), and `..` is kept. Two paths are equal as paths when their
//! components are equal.

use vstd::prelude::*;
use crate::text::{chars_of, string_from_chars, string_from_range, string_push, str_eq};

verus! {

/// One component of a path.
#[derive(Debug, Clone, PartialEq, Eq)]
pub enum Component {
    RootDir,
    CurDir,
    ParentDir,
    Normal(String),
}

/// The mathematical form of a component.
pub enum Comp {
    RootDir,
    CurDir,
    ParentDir,
    Normal(Seq<char>),
}

impl View for Component {
    type V = Comp;

    open spec fn view(&self) -> Comp {
        match self {
            Component::RootDir => Comp::RootDir,
            Component::CurDir => Comp::CurDir,
            Component::ParentDir => Comp::ParentDir,
            Component::Normal(s) => Comp::Normal(s@),
        }
    }
}

// ---------------------------------------------------------------------------
// Parsing
// ---------------------------------------------------------------------------

/// The `/`-separated segments of `s`, empty ones included.
pub open spec fn segments(s: Seq<char>) -> Seq<Seq<char>>
    decreases s.len(),
{
    if s.len() == 0 {
        seq![Seq::empty()]
    } else {
        let r = segments(s.drop_last());
        if s.last() == '/' {
            r.push(Seq::empty())
        } else {
            r.update(r.len() - 1, r.last().push(s.last()))
        }
    }
}

/// There is always at least one segment.
pub proof fn lemma_segments_nonempty(s: Seq<char>)
    ensures
        segments(s).len() >= 1,
    decreases s.len(),
{
    if s.len() > 0 {
        lemma_segments_nonempty(s.drop_last());
    }
}

/// What a segment contributes: nothing for an empty segment or a `.` that is
/// not the very first segment of a relative path.
pub open spec fn segment_comp(seg: Seq<char>, first: bool) -> Option<Comp> {
    if seg.len() == 0 {
        None
    } else if seg == seq!['.'] {
        if first {
            Some(Comp::CurDir)
        } else {
            None
        }
    } else if seg == seq!['.', '.'] {
        Some(Comp::ParentDir)
    } else {
        Some(Comp::Normal(seg))
    }
}

/// Components contributed by a list of segments.
pub open spec fn comps_of_segments(segs: Seq<Seq<char>>, rooted: bool) -> Seq<Comp>
    decreases segs.len(),
{
    if segs.len() == 0 {
        Seq::empty()
    } else {
        let prev = comps_of_segments(segs.drop_last(), rooted);
        match segment_comp(segs.last(), segs.len() == 1 && !rooted) {
            Some(c) => prev.push(c),
            None => prev,
        }
    }
}

/// The path starts at the root.
pub open spec fn is_absolute(s: Seq<char>) -> bool {
    s.len() > 0 && s[0] == '/'
}

/// The components of a path.
pub open spec fn components(s: Seq<char>) -> Seq<Comp> {
    let rest = comps_of_segments(segments(s), is_absolute(s));
    if is_absolute(s) {
        seq![Comp::RootDir] + rest
    } else {
        rest
    }
}

/// Two strings name the same path.
pub open spec fn same_path(a: Seq<char>, b: Seq<char>) -> bool {
    components(a) == components(b)
}

// ---------------------------------------------------------------------------
// Rendering
// ---------------------------------------------------------------------------

/// The text of a single component.
pub open spec fn comp_text(c: Comp) -> Seq<char> {
    match c {
        Comp::RootDir => seq!['/'],
        Comp::CurDir => seq!['.'],
        Comp::ParentDir => seq!['.', '.'],
        Comp::Normal(s) => s,
    }
}

/// `PathBuf::push` of one component onto a path string.
pub open spec fn push_comp(buf: Seq<char>, c: Comp) -> Seq<char> {
    match c {
        Comp::RootDir => seq!['/'],
        _ => if buf.len() > 0 && buf.last() != '/' {
            buf.push('/') + comp_text(c)
        } else {
            buf + comp_text(c)
        },
    }
}

/// The path string built by pushing the components in order
/// (what collecting components into a `PathBuf` yields).
pub open spec fn render(cs: Seq<Comp>) -> Seq<char>
    decreases cs.len(),
{
    if cs.len() == 0 {
        Seq::empty()
    } else {
        push_comp(render(cs.drop_last()), cs.last())
    }
}

/// `Path::join`: `b` when `b` is absolute, otherwise `b` appended to `a` with a
/// separator when `a` is non-empty and does not already end in one.
pub open spec fn join(a: Seq<char>, b: Seq<char>) -> Seq<char> {
    if is_absolute(b) {
        b
    } else if a.len() > 0 && a.last() != '/' {
        a.push('/') + b
    } else {
        a + b
    }
}

/// `Path::parent`: the path without its last component, when that component
/// is not the root.
pub open spec fn parent(s: Seq<char>) -> Option<Seq<char>> {
    let cs = components(s);
    if cs.len() == 0 || cs.last() == Comp::RootDir {
        None
    } else {
        Some(render(cs.drop_last()))
    }
}

/// `Path::file_name`: the last component when it is a normal one.
pub open spec fn file_name(s: Seq<char>) -> Option<Seq<char>> {
    let cs = components(s);
    if cs.len() > 0 && cs.last() is Normal {
        Some(cs.last()->Normal_0)
    } else {
        None
    }
}

/// Index of the last `.` in `s`, if any.
pub open spec fn last_dot(s: Seq<char>) -> Option<int>
    decreases s.len(),
{
    if s.len() == 0 {
        None
    } else if s.last() == '.' {
        Some(s.len() - 1)
    } else {
        last_dot(s.drop_last())
    }
}

/// `Path::extension`: what follows the last `.` of the file name, unless that
/// `.` is the name's first character.
pub open spec fn extension(s: Seq<char>) -> Option<Seq<char>> {
    match file_name(s) {
        Some(name) => match last_dot(name) {
            Some(i) => if i > 0 {
                Some(name.subrange(i + 1, name.len() as int))
            } else {
                None
            },
            None => None,
        },
        None => None,
    }
}

/// The last dot, when there is one, is a `.` inside the string.
pub proof fn lemma_last_dot(s: Seq<char>)
    ensures
        last_dot(s) matches Some(i) ==> 0 <= i < s.len() && s[i] == '.',
    decreases s.len(),
{
    if s.len() > 0 && s.last() != '.' {
        lemma_last_dot(s.drop_last());
    }
}

proof fn lemma_segments_push(s: Seq<char>, c: char)
    requires
        c != '/',
    ensures
        segments(s.push(c)) == segments(s).update(segments(s).len() - 1, segments(s).last().push(c)),
{
    assert(s.push(c).drop_last() =~= s);
}

proof fn lemma_last_segment_nonempty(s: Seq<char>)
    requires
        s.len() > 0,
        s.last() != '/',
    ensures
        segments(s).len() >= 1,
        segments(s).last().len() > 0,
{
    lemma_segments_nonempty(s.drop_last());
    lemma_segments_nonempty(s);
}

proof fn lemma_last_dot_git(x: Seq<char>)
    ensures
        last_dot(x + seq!['.', 'g', 'i', 't']) == Some(x.len() as int),
{
    let a = x + seq!['.', 'g', 'i', 't'];
    let b = x + seq!['.', 'g', 'i'];
    let c = x + seq!['.', 'g'];
    let d = x + seq!['.'];
    assert(a.drop_last() =~= b);
    assert(b.drop_last() =~= c);
    assert(c.drop_last() =~= d);
    assert(a.last() == 't' && b.last() == 'i' && c.last() == 'g' && d.last() == '.');
    assert(last_dot(d) == Some(x.len() as int));
    assert(last_dot(c) == last_dot(d));
    assert(last_dot(b) == last_dot(c));
    assert(last_dot(a) == last_dot(b));
}

/// A path that does not end with `/`, with `.git` appended, has the
/// extension `git`.
pub proof fn lemma_extension_git(s: Seq<char>)
    requires
        s.len() > 0,
        s.last() != '/',
    ensures
        extension(s + seq!['.', 'g', 'i', 't']) == Some(seq!['g', 'i', 't']),
{
    let t = s + seq!['.', 'g', 'i', 't'];
    lemma_last_segment_nonempty(s);
    let segs = segments(s);
    let l = segs.last();
    let s1 = s.push('.');
    let s2 = s1.push('g');
    let s3 = s2.push('i');
    assert(s3.push('t') =~= t);
    let n = segs.len() - 1;
    lemma_segments_push(s, '.');
    let g1 = segs.update(n, l.push('.'));
    assert(segments(s1) == g1 && g1.len() == segs.len() && g1.last() == l.push('.'));
    lemma_segments_push(s1, 'g');
    let g2 = segs.update(n, l.push('.').push('g'));
    assert(segments(s2) =~= g2 && g2.last() == l.push('.').push('g'));
    lemma_segments_push(s2, 'i');
    let g3 = segs.update(n, l.push('.').push('g').push('i'));
    assert(segments(s3) =~= g3 && g3.last() == l.push('.').push('g').push('i'));
    lemma_segments_push(s3, 't');
    let lt = l + seq!['.', 'g', 'i', 't'];
    assert(l.push('.').push('g').push('i').push('t') =~= lt);
    assert(segments(t) =~= segs.update(n, lt));
    assert(segments(t).last() == lt);
    assert(segments(t).len() == segs.len());
    assert(is_absolute(t) == is_absolute(s));
    assert(lt.len() >= 5);
    assert(lt != seq!['.']);
    assert(lt != seq!['.', '.']);
    let st = segments(t);
    assert(segment_comp(lt, st.len() == 1 && !is_absolute(t)) == Some(Comp::Normal(lt)));
    let rest = comps_of_segments(st, is_absolute(t));
    assert(rest.last() == Comp::Normal(lt) && rest.len() > 0);
    assert(components(t).last() == Comp::Normal(lt));
    assert(file_name(t) == Some(lt));
    lemma_last_dot_git(l);
    assert(lt.subrange(l.len() as int + 1, lt.len() as int) =~= seq!['g', 'i', 't']);
}

/// `Path::file_stem`: the file name without its extension.
pub open spec fn file_stem(s: Seq<char>) -> Option<Seq<char>> {
    match file_name(s) {
        Some(name) => match last_dot(name) {
            Some(i) => if i > 0 {
                Some(name.subrange(0, i))
            } else {
                Some(name)
            },
            None => Some(name),
        },
        None => None,
    }
}

/// `a` is a component-wise prefix of `b` (`Path::starts_with`).
pub open spec fn comps_prefix(a: Seq<Comp>, b: Seq<Comp>) -> bool {
    a.len() <= b.len() && b.subrange(0, a.len() as int) == a
}

// ---------------------------------------------------------------------------
// Executable functions
// ---------------------------------------------------------------------------

/// Is this segment `.`?
fn is_dot(seg: &Vec<char>) -> (r: bool)
    ensures
        r == (seg@ == seq!['.']),
{
    if seg.len() == 1 && seg[0] == '.' {
        assert(seg@ =~= seq!['.']);
        true
    } else {
        false
    }
}

/// Is this segment `..`?
fn is_dot_dot(seg: &Vec<char>) -> (r: bool)
    ensures
        r == (seg@ == seq!['.', '.']),
{
    if seg.len() == 2 && seg[0] == '.' && seg[1] == '.' {
        assert(seg@ =~= seq!['.', '.']);
        true
    } else {
        false
    }
}

/// The component of a segment.
fn segment_component(seg: &Vec<char>, first: bool) -> (r: Option<Component>)
    ensures
        match r {
            Some(c) => segment_comp(seg@, first) == Some(c@),
            None => segment_comp(seg@, first) is None,
        },
{
    if seg.len() == 0 {
        None
    } else if is_dot(seg) {
        if first {
            Some(Component::CurDir)
        } else {
            None
        }
    } else if is_dot_dot(seg) {
        Some(Component::ParentDir)
    } else {
        Some(Component::Normal(string_from_chars(seg.as_slice())))
    }
}

/// Does the path start at the root?
pub fn path_is_absolute(path: &str) -> (r: bool)
    ensures
        r == is_absolute(path@),
{
    let v = chars_of(path);
    v.len() > 0 && v[0] == '/'
}

/// The components of a path.
pub fn path_components(path: &str) -> (r: Vec<Component>)
    ensures
        r@.map_values(|c: Component| c@) == components(path@),
{
    let v = chars_of(path);
    let rooted = v.len() > 0 && v[0] == '/';
    let mut out: Vec<Component> = Vec::new();
    if rooted {
        out.push(Component::RootDir);
    }
    let ghost prefix: Seq<Comp> = if rooted { seq![Comp::RootDir] } else { Seq::empty() };
    let ghost mut done: Seq<Seq<char>> = Seq::empty();
    let mut seg: Vec<char> = Vec::new();
    let mut seg_count: usize = 0;
    let mut i: usize = 0;
    assert(v@.take(0) =~= Seq::<char>::empty());
    assert(segments(Seq::<char>::empty()) =~= done.push(seg@));
    assert(out@.map_values(|c: Component| c@) =~= prefix + comps_of_segments(done, rooted));
    while i < v.len()
        invariant
            i <= v.len(),
            v@ == path@,
            rooted == is_absolute(path@),
            prefix == (if rooted { seq![Comp::RootDir] } else { Seq::<Comp>::empty() }),
            segments(v@.take(i as int)) == done.push(seg@),
            seg_count == done.len(),
            seg_count <= i,
            out@.map_values(|c: Component| c@) == prefix + comps_of_segments(done, rooted),
        decreases v.len() - i,
    {
        let c = v[i];
        assert(v@.take(i as int + 1).drop_last() =~= v@.take(i as int));
        assert(v@.take(i as int + 1).last() == c);
        if c == '/' {
            let sc = segment_component(&seg, i_is_first(seg_count == 0, rooted));
            let ghost old_mapped = out@.map_values(|c: Component| c@);
            let ghost nd = done.push(seg@);
            assert(nd.drop_last() =~= done);
            assert(nd.last() == seg@);
            match sc {
                Some(comp) => {
                    out.push(comp);
                    assert(out@.map_values(|c: Component| c@) =~= old_mapped.push(comp@));
                    assert(out@.map_values(|c: Component| c@) =~= prefix + comps_of_segments(nd, rooted));
                },
                None => {
                    assert(out@.map_values(|c: Component| c@) =~= prefix + comps_of_segments(nd, rooted));
                },
            }
            proof {
                done = nd;
            }
            seg = Vec::new();
            seg_count = seg_count + 1;
            assert(segments(v@.take(i as int + 1)) =~= done.push(seg@));
        } else {
            let ghost old_seg = seg@;
            seg.push(c);
            assert(seg@ =~= old_seg.push(c));
            assert(segments(v@.take(i as int + 1)) =~= done.push(old_seg).update(
                done.len() as int,
                old_seg.push(c),
            ));
            assert(done.push(seg@) =~= done.push(old_seg).update(
                done.len() as int,
                old_seg.push(c),
            ));
        }
        i = i + 1;
    }
    assert(v@.take(v.len() as int) =~= v@);
    let sc = segment_component(&seg, i_is_first(seg_count == 0, rooted));
    let ghost nd = done.push(seg@);
    assert(nd.drop_last() =~= done);
    assert(nd.last() == seg@);
    let ghost old_mapped = out@.map_values(|c: Component| c@);
    match sc {
        Some(comp) => {
            out.push(comp);
            assert(out@.map_values(|c: Component| c@) =~= old_mapped.push(comp@));
        },
        None => {},
    }
    assert(out@.map_values(|c: Component| c@) =~= prefix + comps_of_segments(nd, rooted));
    out
}

/// Is a segment at this position the first segment of a relative path?
fn i_is_first(no_segments_before: bool, rooted: bool) -> (r: bool)
    ensures
        r == (no_segments_before && !rooted),
{
    no_segments_before && !rooted
}

/// The views of a list of components.
pub open spec fn views(cs: Seq<Component>) -> Seq<Comp> {
    cs.map_values(|c: Component| c@)
}

impl Component {
    /// A copy of this component.
    pub fn clone_component(&self) -> (r: Component)
        ensures
            r@ == self@,
    {
        match self {
            Component::RootDir => Component::RootDir,
            Component::CurDir => Component::CurDir,
            Component::ParentDir => Component::ParentDir,
            Component::Normal(s) => Component::Normal(s.clone()),
        }
    }
}

/// Component equality.
pub fn comp_eq(a: &Component, b: &Component) -> (r: bool)
    ensures
        r == (a@ == b@),
{
    match (a, b) {
        (Component::RootDir, Component::RootDir) => true,
        (Component::CurDir, Component::CurDir) => true,
        (Component::ParentDir, Component::ParentDir) => true,
        (Component::Normal(x), Component::Normal(y)) => str_eq(x.as_str(), y.as_str()),
        _ => false,
    }
}

/// Appends the text of a component to a character buffer.
fn push_text(buf: &mut Vec<char>, c: &Component)
    ensures
        final(buf)@ == old(buf)@ + comp_text(c@),
{
    match c {
        Component::RootDir => {
            buf.push('/');
            assert(final(buf)@ =~= old(buf)@ + seq!['/']);
        },
        Component::CurDir => {
            buf.push('.');
            assert(final(buf)@ =~= old(buf)@ + seq!['.']);
        },
        Component::ParentDir => {
            buf.push('.');
            buf.push('.');
            assert(final(buf)@ =~= old(buf)@ + seq!['.', '.']);
        },
        Component::Normal(s) => {
            let v = chars_of(s.as_str());
            let mut i: usize = 0;
            while i < v.len()
                invariant
                    i <= v.len(),
                    v@ == s@,
                    buf@ == old(buf)@ + v@.take(i as int),
                decreases v.len() - i,
            {
                buf.push(v[i]);
                assert(v@.take(i as int + 1) =~= v@.take(i as int).push(v@[i as int]));
                i = i + 1;
            }
            assert(v@.take(v.len() as int) =~= v@);
        },
    }
}

/// The path string that the components make (`PathBuf::from_iter`).
pub fn render_components(cs: &[Component]) -> (r: String)
    ensures
        r@ == render(views(cs@)),
{
    let mut buf: Vec<char> = Vec::new();
    let mut i: usize = 0;
    assert(views(cs@).take(0) =~= Seq::<Comp>::empty());
    while i < cs.len()
        invariant
            i <= cs.len(),
            buf@ == render(views(cs@).take(i as int)),
        decreases cs.len() - i,
    {
        let ghost before = buf@;
        assert(views(cs@).take(i as int + 1).drop_last() =~= views(cs@).take(i as int));
        assert(views(cs@).take(i as int + 1).last() == cs@[i as int]@);
        match &cs[i] {
            Component::RootDir => {
                buf = Vec::new();
                buf.push('/');
                assert(buf@ =~= seq!['/']);
            },
            c => {
                if buf.len() > 0 && buf[buf.len() - 1] != '/' {
                    buf.push('/');
                }
                push_text(&mut buf, c);
            },
        }
        i = i + 1;
    }
    assert(views(cs@).take(cs.len() as int) =~= views(cs@));
    string_from_chars(buf.as_slice())
}

/// `Path::join`.
pub fn path_join(a: &str, b: &str) -> (r: String)
    ensures
        r@ == join(a@, b@),
{
    let bv = chars_of(b);
    if bv.len() > 0 && bv[0] == '/' {
        return b.to_owned();
    }
    let av = chars_of(a);
    let mut out = a.to_owned();
    if av.len() > 0 && av[av.len() - 1] != '/' {
        string_push(&mut out, '/');
    }
    out.append(b);
    out
}

/// `Path::parent`.
pub fn path_parent(s: &str) -> (r: Option<String>)
    ensures
        match r {
            Some(p) => parent(s@) == Some(p@),
            None => parent(s@) is None,
        },
{
    let mut cs = path_components(s);
    if cs.len() == 0 {
        return None;
    }
    if let Component::RootDir = &cs[cs.len() - 1] {
        return None;
    }
    let ghost all = views(cs@);
    cs.pop();
    assert(views(cs@) =~= all.drop_last());
    Some(render_components(cs.as_slice()))
}

/// `Path::file_name`.
pub fn path_file_name(s: &str) -> (r: Option<String>)
    ensures
        match r {
            Some(n) => file_name(s@) == Some(n@),
            None => file_name(s@) is None,
        },
{
    let cs = path_components(s);
    if cs.len() == 0 {
        return None;
    }
    assert(views(cs@).last() == cs@[cs.len() - 1]@);
    match &cs[cs.len() - 1] {
        Component::Normal(n) => Some(n.clone()),
        _ => None,
    }
}

/// Index of the last `.`.
pub fn last_dot_exec(s: &[char]) -> (r: Option<usize>)
    ensures
        match r {
            Some(i) => last_dot(s@) == Some(i as int),
            None => last_dot(s@) is None,
        },
{
    let mut i: usize = s.len();
    assert(s@.take(s.len() as int) =~= s@);
    while i > 0
        invariant
            i <= s.len(),
            last_dot(s@) == last_dot(s@.take(i as int)),
        decreases i,
    {
        assert(s@.take(i as int).drop_last() =~= s@.take(i as int - 1));
        if s[i - 1] == '.' {
            return Some(i - 1);
        }
        i = i - 1;
    }
    assert(s@.take(0) =~= Seq::<char>::empty());
    None
}

/// `Path::extension`.
pub fn path_extension(s: &str) -> (r: Option<String>)
    ensures
        match r {
            Some(e) => extension(s@) == Some(e@),
            None => extension(s@) is None,
        },
{
    match path_file_name(s) {
        Some(name) => {
            let v = chars_of(name.as_str());
            match last_dot_exec(v.as_slice()) {
                Some(i) => {
                    if i > 0 {
                        proof {
                            lemma_last_dot(v@);
                        }
                        assert(last_dot(v@) == Some(i as int));
                        assert(i < v.len());
                        let ext = string_from_range(v.as_slice(), i + 1, v.len());
                        Some(ext)
                    } else {
                        None
                    }
                },
                None => None,
            }
        },
        None => None,
    }
}

/// `Path::file_stem`.
pub fn path_file_stem(s: &str) -> (r: Option<String>)
    ensures
        match r {
            Some(e) => file_stem(s@) == Some(e@),
            None => file_stem(s@) is None,
        },
{
    match path_file_name(s) {
        Some(name) => {
            let v = chars_of(name.as_str());
            match last_dot_exec(v.as_slice()) {
                Some(i) => {
                    proof {
                        lemma_last_dot(v@);
                    }
                    if i > 0 {
                        Some(string_from_range(v.as_slice(), 0, i))
                    } else {
                        assert(v@ == name@);
                        Some(name)
                    }
                },
                None => Some(name),
            }
        },
        None => None,
    }
}


// ---------------------------------------------------------------------------
// Ordering
// ---------------------------------------------------------------------------

/// Lexicographic order of texts by code point (the order of their UTF-8
/// bytes).
pub open spec fn chars_lt(a: Seq<char>, b: Seq<char>) -> bool
    decreases a.len(),
{
    if a.len() == 0 {
        b.len() > 0
    } else if b.len() == 0 {
        false
    } else if a[0] != b[0] {
        a[0] < b[0]
    } else {
        chars_lt(a.drop_first(), b.drop_first())
    }
}

/// The rank of a component's kind in the order of `std::path::Component`.
pub open spec fn comp_rank(c: Comp) -> int {
    match c {
        Comp::RootDir => 1,
        Comp::CurDir => 2,
        Comp::ParentDir => 3,
        Comp::Normal(_) => 4,
    }
}

/// Order of components: by kind, then normal ones by their text.
pub open spec fn comp_lt(a: Comp, b: Comp) -> bool {
    comp_rank(a) < comp_rank(b) || (a is Normal && b is Normal && chars_lt(
        a->Normal_0,
        b->Normal_0,
    ))
}

/// Order of paths (`Ord for Path`): lexicographic by components.
pub open spec fn comps_lt(a: Seq<Comp>, b: Seq<Comp>) -> bool
    decreases a.len(),
{
    if a.len() == 0 {
        b.len() > 0
    } else if b.len() == 0 {
        false
    } else if a[0] != b[0] {
        comp_lt(a[0], b[0])
    } else {
        comps_lt(a.drop_first(), b.drop_first())
    }
}

/// No text comes before itself.
pub proof fn lemma_chars_lt_irreflexive(a: Seq<char>)
    ensures
        !chars_lt(a, a),
    decreases a.len(),
{
    if a.len() > 0 {
        lemma_chars_lt_irreflexive(a.drop_first());
    }
}

/// The order of texts is transitive.
pub proof fn lemma_chars_lt_transitive(a: Seq<char>, b: Seq<char>, c: Seq<char>)
    requires
        chars_lt(a, b),
        chars_lt(b, c),
    ensures
        chars_lt(a, c),
    decreases a.len(),
{
    if a.len() > 0 && a[0] == b[0] && b[0] == c[0] {
        lemma_chars_lt_transitive(a.drop_first(), b.drop_first(), c.drop_first());
    }
}

/// Of two different texts, one comes before the other.
pub proof fn lemma_chars_lt_total(a: Seq<char>, b: Seq<char>)
    requires
        a != b,
    ensures
        chars_lt(a, b) || chars_lt(b, a),
    decreases a.len(),
{
    if a.len() > 0 && b.len() > 0 && a[0] == b[0] {
        if a.drop_first() == b.drop_first() {
            assert(a =~= seq![a[0]] + a.drop_first());
            assert(b =~= seq![b[0]] + b.drop_first());
        }
        lemma_chars_lt_total(a.drop_first(), b.drop_first());
    } else if a.len() == 0 && b.len() == 0 {
        assert(a =~= b);
    }
}

/// The order of components is transitive.
pub proof fn lemma_comp_lt_transitive(a: Comp, b: Comp, c: Comp)
    requires
        comp_lt(a, b),
        comp_lt(b, c),
    ensures
        comp_lt(a, c),
{
    if a is Normal && b is Normal && c is Normal {
        if chars_lt(a->Normal_0, b->Normal_0) && chars_lt(b->Normal_0, c->Normal_0) {
            lemma_chars_lt_transitive(a->Normal_0, b->Normal_0, c->Normal_0);
        }
    }
}

/// No component comes before itself.
pub proof fn lemma_comp_lt_irreflexive(a: Comp)
    ensures
        !comp_lt(a, a),
{
    if a is Normal {
        lemma_chars_lt_irreflexive(a->Normal_0);
    }
}

/// Of two different components, one comes before the other.
pub proof fn lemma_comp_lt_total(a: Comp, b: Comp)
    requires
        a != b,
    ensures
        comp_lt(a, b) || comp_lt(b, a),
{
    if a is Normal && b is Normal {
        lemma_chars_lt_total(a->Normal_0, b->Normal_0);
    }
}

/// No path comes before itself.
pub proof fn lemma_comps_lt_irreflexive(a: Seq<Comp>)
    ensures
        !comps_lt(a, a),
    decreases a.len(),
{
    if a.len() > 0 {
        lemma_comps_lt_irreflexive(a.drop_first());
    }
}

/// The order of paths is transitive.
pub proof fn lemma_comps_lt_transitive(a: Seq<Comp>, b: Seq<Comp>, c: Seq<Comp>)
    requires
        comps_lt(a, b),
        comps_lt(b, c),
    ensures
        comps_lt(a, c),
    decreases a.len(),
{
    if a.len() > 0 && b.len() > 0 && c.len() > 0 {
        if a[0] == b[0] && b[0] == c[0] {
            lemma_comps_lt_transitive(a.drop_first(), b.drop_first(), c.drop_first());
        } else if a[0] != b[0] && b[0] != c[0] {
            lemma_comp_lt_transitive(a[0], b[0], c[0]);
            if a[0] == c[0] {
                lemma_comp_lt_irreflexive(a[0]);
            }
        }
    }
}

/// Of two different paths, one comes before the other.
pub proof fn lemma_comps_lt_total(a: Seq<Comp>, b: Seq<Comp>)
    requires
        a != b,
    ensures
        comps_lt(a, b) || comps_lt(b, a),
    decreases a.len(),
{
    if a.len() > 0 && b.len() > 0 {
        if a[0] == b[0] {
            if a.drop_first() == b.drop_first() {
                assert(a =~= seq![a[0]] + a.drop_first());
                assert(b =~= seq![b[0]] + b.drop_first());
            }
            lemma_comps_lt_total(a.drop_first(), b.drop_first());
        } else {
            lemma_comp_lt_total(a[0], b[0]);
        }
    } else if a.len() == 0 && b.len() == 0 {
        assert(a =~= b);
    }
}

/// A path that comes before another does not also come after it.
pub proof fn lemma_comps_lt_asymmetric(a: Seq<Comp>, b: Seq<Comp>)
    requires
        comps_lt(a, b),
    ensures
        !comps_lt(b, a),
{
    if comps_lt(b, a) {
        lemma_comps_lt_transitive(a, b, a);
        lemma_comps_lt_irreflexive(a);
    }
}

/// Does text `a` come before text `b`?
pub fn chars_less(a: &[char], b: &[char]) -> (r: bool)
    ensures
        r == chars_lt(a@, b@),
{
    let mut i: usize = 0;
    assert(a@.skip(0) =~= a@);
    assert(b@.skip(0) =~= b@);
    while i < a.len() && i < b.len()
        invariant
            i <= a.len(),
            i <= b.len(),
            chars_lt(a@, b@) == chars_lt(a@.skip(i as int), b@.skip(i as int)),
        decreases a.len() - i,
    {
        if a[i] != b[i] {
            assert(a@.skip(i as int)[0] == a@[i as int]);
            assert(b@.skip(i as int)[0] == b@[i as int]);
            return a[i] < b[i];
        }
        assert(a@.skip(i as int).drop_first() =~= a@.skip(i as int + 1));
        assert(b@.skip(i as int).drop_first() =~= b@.skip(i as int + 1));
        i = i + 1;
    }
    i < b.len()
}

/// The rank of a component's kind.
fn rank_of(c: &Component) -> (r: u8)
    ensures
        r == comp_rank(c@),
{
    match c {
        Component::RootDir => 1,
        Component::CurDir => 2,
        Component::ParentDir => 3,
        Component::Normal(_) => 4,
    }
}

/// Does component `a` come before component `b`?
pub fn comp_less(a: &Component, b: &Component) -> (r: bool)
    ensures
        r == comp_lt(a@, b@),
{
    match (a, b) {
        (Component::Normal(x), Component::Normal(y)) => {
            let xs = chars_of(x.as_str());
            let ys = chars_of(y.as_str());
            chars_less(xs.as_slice(), ys.as_slice())
        },
        _ => rank_of(a) < rank_of(b),
    }
}

/// Does path `a` come before path `b`, both given by components?
pub fn comps_less(a: &[Component], b: &[Component]) -> (r: bool)
    ensures
        r == comps_lt(views(a@), views(b@)),
{
    let ghost va = views(a@);
    let ghost vb = views(b@);
    let mut i: usize = 0;
    assert(va.skip(0) =~= va);
    assert(vb.skip(0) =~= vb);
    while i < a.len() && i < b.len()
        invariant
            i <= a.len(),
            i <= b.len(),
            va == views(a@),
            vb == views(b@),
            comps_lt(va, vb) == comps_lt(va.skip(i as int), vb.skip(i as int)),
        decreases a.len() - i,
    {
        assert(va.skip(i as int)[0] == a@[i as int]@);
        assert(vb.skip(i as int)[0] == b@[i as int]@);
        if !comp_eq(&a[i], &b[i]) {
            return comp_less(&a[i], &b[i]);
        }
        assert(va.skip(i as int).drop_first() =~= va.skip(i as int + 1));
        assert(vb.skip(i as int).drop_first() =~= vb.skip(i as int + 1));
        i = i + 1;
    }
    i < b.len()
}

} // verus!
