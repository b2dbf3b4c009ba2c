//! Path manipulation and validation utilities.

use vstd::prelude::*;
use crate::error::{ErrorKind, GraftError};
use crate::path::{
    comp_eq, components, comps_prefix, extension, file_stem, is_absolute, join, parent,
    path_components, path_extension, path_file_stem, path_is_absolute, path_join, path_parent, render,
    render_components, views, Comp, Component,
};
use crate::patterns::{regex_is_match, regex_match};
use crate::system::{present, System};
use crate::text::{
    chars_of, concat, concat3, decimal, has_char, has_char_exec, is_blank, lowercase, owned,
    replace_char, replace_char_exec, seq_contains, seq_starts_with, str_contains, str_starts_with,
    to_lowercase, usize_to_decimal,
};

verus! {

// ---------------------------------------------------------------------------
// Specifications
// ---------------------------------------------------------------------------

/// Message of the traversal refusal.
pub open spec fn traversal_message(path: Seq<char>, normalized: Seq<char>) -> Seq<char> {
    "Path contains unsafe directory traversal: '"@ + path + "' -> '"@ + normalized + "'"@
}

/// Message of the absolute-path refusal.
pub open spec fn absolute_message(path: Seq<char>) -> Seq<char> {
    "Absolute paths are not allowed for security reasons: '"@ + path + "'"@
}

/// One step of normalization: drop `.`, let `..` remove the previous
/// component unless there is none or it is itself a `..`, in which case the
/// `..` stays (leading `..` components are kept); keep everything else.
pub open spec fn norm_step(acc: Seq<Comp>, c: Comp) -> Seq<Comp> {
    match c {
        Comp::CurDir => acc,
        Comp::ParentDir => if acc.len() == 0 || acc.last() == Comp::ParentDir {
            acc.push(Comp::ParentDir)
        } else {
            acc.drop_last()
        },
        _ => acc.push(c),
    }
}

/// The normalized components: `.` and `..` resolved, every leading `..`
/// kept.
pub open spec fn normalize_comps(cs: Seq<Comp>) -> Seq<Comp>
    decreases cs.len(),
{
    if cs.len() == 0 {
        Seq::empty()
    } else {
        norm_step(normalize_comps(cs.drop_last()), cs.last())
    }
}

/// The normalized form of a path string.
pub open spec fn normalized(p: Seq<char>) -> Seq<char> {
    render(normalize_comps(components(p)))
}

/// The path escapes upwards: it mentions `..` and its normalized form still
/// begins with `..`.
pub open spec fn escapes_upwards(p: Seq<char>) -> bool {
    seq_contains(p, ".."@) && seq_starts_with(normalized(p), ".."@)
}

/// Number of equal leading components.
pub open spec fn common_len(a: Seq<Comp>, b: Seq<Comp>) -> nat
    decreases a.len(),
{
    if a.len() == 0 || b.len() == 0 || a[0] != b[0] {
        0
    } else {
        1 + common_len(a.drop_first(), b.drop_first())
    }
}

/// Number of normal components.
pub open spec fn normal_count(cs: Seq<Comp>) -> nat
    decreases cs.len(),
{
    if cs.len() == 0 {
        0
    } else {
        normal_count(cs.drop_last()) + if cs.last() is Normal { 1nat } else { 0nat }
    }
}

/// Separators turned into `/`.
pub open spec fn unix_form(p: Seq<char>) -> Seq<char> {
    replace_char(p, '\\', "/"@)
}

/// Separators turned into `\`.
pub open spec fn windows_form(p: Seq<char>) -> Seq<char> {
    replace_char(p, '/', "\\"@)
}

/// The components that remain after a component prefix.
pub open spec fn strip_comps(p: Seq<Comp>, prefix: Seq<Comp>) -> Option<Seq<Comp>> {
    if comps_prefix(prefix, p) {
        Some(p.skip(prefix.len() as int))
    } else {
        None
    }
}

/// The directory in which `get_unique_filename` looks for a free name.
pub open spec fn unique_dir(p: Seq<char>) -> Seq<char> {
    match parent(p) {
        Some(d) => d,
        None => Seq::empty(),
    }
}

/// The stem that `get_unique_filename` numbers.
pub open spec fn unique_stem(p: Seq<char>) -> Seq<char> {
    match file_stem(p) {
        Some(s) => s,
        None => "file"@,
    }
}

/// The `k`-th candidate name of `get_unique_filename`.
pub open spec fn unique_candidate(stem: Seq<char>, ext: Option<Seq<char>>, k: nat) -> Seq<char> {
    match ext {
        Some(e) => stem + "-"@ + decimal(k) + "."@ + e,
        None => stem + "-"@ + decimal(k),
    }
}

// ---------------------------------------------------------------------------
// Functions
// ---------------------------------------------------------------------------

/// Normalize a path by resolving `.` and `..` components, keeping leading
/// `..` components.
pub fn normalize(path: &str) -> (r: String)
    ensures
        r@ == normalized(path@),
{
    let cs = path_components(path);
    let mut acc: Vec<Component> = Vec::new();
    let mut i: usize = 0;
    assert(views(cs@).take(0) =~= Seq::<Comp>::empty());
    assert(views(acc@) =~= Seq::<Comp>::empty());
    while i < cs.len()
        invariant
            i <= cs.len(),
            views(cs@) == components(path@),
            views(acc@) == normalize_comps(views(cs@).take(i as int)),
        decreases cs.len() - i,
    {
        let ghost before = views(acc@);
        assert(views(cs@).take(i as int + 1).drop_last() =~= views(cs@).take(i as int));
        assert(views(cs@).take(i as int + 1).last() == cs@[i as int]@);
        match &cs[i] {
            Component::CurDir => {},
            Component::ParentDir => {
                let keep = acc.len() == 0 || matches!(acc[acc.len() - 1], Component::ParentDir);
                proof {
                    if acc.len() > 0 {
                        assert(before.last() == acc@[acc.len() - 1]@);
                    }
                }
                if keep {
                    acc.push(Component::ParentDir);
                    assert(views(acc@) =~= before.push(Comp::ParentDir));
                } else {
                    acc.pop();
                    assert(views(acc@) =~= before.drop_last());
                }
            },
            c => {
                acc.push(c.clone_component());
                assert(views(acc@) =~= before.push(cs@[i as int]@));
            },
        }
        i = i + 1;
    }
    assert(views(cs@).take(cs.len() as int) =~= views(cs@));
    render_components(acc.as_slice())
}

/// Validate that a path is safe (no directory traversal).
pub fn validate_path_safety(path: &str) -> (r: Result<(), GraftError>)
    ensures
        r is Ok <==> !escapes_upwards(path@) && !is_absolute(path@),
        r matches Err(e) ==> e.kind_of() == ErrorKind::Configuration,
        r matches Err(e) ==> (if escapes_upwards(path@) {
            e.message_of() == traversal_message(path@, normalized(path@))
        } else {
            e.message_of() == absolute_message(path@)
        }),
{
    if str_contains(path, "..") {
        let normalized_str = normalize(path);
        if str_starts_with(normalized_str.as_str(), "..") {
            let mut m = owned("Path contains unsafe directory traversal: '");
            m.append(path);
            m.append("' -> '");
            m.append(normalized_str.as_str());
            m.append("'");
            return Err(GraftError::configuration(m));
        }
    }
    if path_is_absolute(path) && !str_starts_with(path, "./") {
        let m = concat3("Absolute paths are not allowed for security reasons: '", path, "'");
        return Err(GraftError::configuration(m));
    }
    proof {
        if is_absolute(path@) {
            assert(!seq_starts_with(path@, "./"@)) by {
                reveal_strlit("./");
                if seq_starts_with(path@, "./"@) {
                    assert(path@.subrange(0, 2)[0] == path@[0]);
                }
            }
        }
    }
    Ok(())
}

/// The path relative to a base, given both in canonical (absolute) form.
pub fn relative_from_canonical(path: &str, base: &str, canonical_path: &str, canonical_base: &str) -> (r:
    Result<String, GraftError>)
    ensures
        match strip_comps(components(canonical_path@), components(canonical_base@)) {
            Some(rest) => r matches Ok(s) && s@ == render(rest),
            None => r matches Err(e) && e.is(
                ErrorKind::Other,
                "Path '"@ + path@ + "' is not within base directory '"@ + base@
                    + "'. Error: prefix not found"@,
            ),
        },
{
    let pc = path_components(canonical_path);
    let bc = path_components(canonical_base);
    if bc.len() <= pc.len() {
        let mut i: usize = 0;
        let mut same = true;
        while i < bc.len()
            invariant
                bc.len() <= pc.len(),
                i <= bc.len(),
                same ==> forall|j: int| 0 <= j < i ==> views(pc@)[j] == views(bc@)[j],
                !same ==> !comps_prefix(views(bc@), views(pc@)),
            decreases bc.len() - i,
        {
            if same && !comp_eq(&pc[i], &bc[i]) {
                same = false;
                assert(views(pc@).subrange(0, views(bc@).len() as int)[i as int] != views(bc@)[i as int]);
            }
            i = i + 1;
        }
        if same {
            assert(views(pc@).subrange(0, views(bc@).len() as int) =~= views(bc@));
            let mut rest: Vec<Component> = Vec::new();
            let mut k: usize = bc.len();
            while k < pc.len()
                invariant
                    bc.len() <= k <= pc.len(),
                    views(rest@) == views(pc@).subrange(bc.len() as int, k as int),
                decreases pc.len() - k,
            {
                let ghost before = views(rest@);
                let c = pc[k].clone_component();
                rest.push(c);
                assert(views(rest@) =~= before.push(c@));
                assert(views(rest@) =~= views(pc@).subrange(bc.len() as int, k as int + 1));
                k = k + 1;
            }
            assert(views(rest@) =~= views(pc@).skip(views(bc@).len() as int));
            return Ok(render_components(rest.as_slice()));
        }
    }
    let mut m = owned("Path '");
    m.append(path);
    m.append("' is not within base directory '");
    m.append(base);
    m.append("'. Error: prefix not found");
    Err(GraftError::other(m))
}

/// Convert a path to be relative to a base directory.
pub fn make_relative_to<S: System>(system: &S, path: &str, base: &str) -> (r: Result<
    String,
    GraftError,
>)
    ensures
        r matches Ok(s) ==> exists|cp: Seq<char>, cb: Seq<char>|
            #[trigger] strip_comps(components(cp), components(cb)) matches Some(rest) && s@
                == render(rest),
{
    let canonical_path = match system.canonicalize(path) {
        Ok(p) => p,
        Err(err) => {
            let mut m = owned("Path does not exist: ");
            m.append(path);
            m.append(". Error: ");
            m.append(err.message.as_str());
            return Err(GraftError::other(m));
        },
    };
    let canonical_base = match system.canonicalize(base) {
        Ok(p) => p,
        Err(err) => {
            let mut m = owned("Base path does not exist: ");
            m.append(base);
            m.append(". Error: ");
            m.append(err.message.as_str());
            return Err(GraftError::other(m));
        },
    };
    relative_from_canonical(path, base, canonical_path.as_str(), canonical_base.as_str())
}

/// Is `prefix` a component-wise prefix of `path`?
pub fn path_starts_with(path: &str, prefix: &str) -> (r: bool)
    ensures
        r == comps_prefix(components(prefix@), components(path@)),
{
    let pc = path_components(path);
    let bc = path_components(prefix);
    if bc.len() > pc.len() {
        return false;
    }
    let mut i: usize = 0;
    while i < bc.len()
        invariant
            bc.len() <= pc.len(),
            views(pc@) == components(path@),
            views(bc@) == components(prefix@),
            i <= bc.len(),
            forall|j: int| 0 <= j < i ==> views(pc@)[j] == views(bc@)[j],
        decreases bc.len() - i,
    {
        if !comp_eq(&pc[i], &bc[i]) {
            assert(views(pc@).subrange(0, views(bc@).len() as int)[i as int] != views(bc@)[i as int]);
            return false;
        }
        i = i + 1;
    }
    assert(views(pc@).subrange(0, views(bc@).len() as int) =~= views(bc@));
    true
}

/// Check if a path would escape the given base directory.
pub fn escapes_from_base<S: System>(system: &S, path: &str, base: &str) -> (r: bool) {
    match (system.canonicalize(path), system.canonicalize(base)) {
        (Ok(cp), Ok(cb)) => {
            return !path_starts_with(cp.as_str(), cb.as_str());
        },
        _ => {},
    }
    escapes_normalized(path, base)
}

/// The fallback of `escapes_from_base`: compare the normalized forms.
pub fn escapes_normalized(path: &str, base: &str) -> (r: bool)
    ensures
        r == !comps_prefix(components(normalized(base@)), components(normalized(path@))),
{
    let np = normalize(path);
    let nb = normalize(base);
    !path_starts_with(np.as_str(), nb.as_str())
}

/// Get the common prefix of two paths.
pub fn common_path_prefix(path1: &str, path2: &str) -> (r: String)
    ensures
        r@ == render(components(path1@).take(common_len(components(path1@), components(path2@)) as int)),
{
    let c1 = path_components(path1);
    let c2 = path_components(path2);
    let mut common: Vec<Component> = Vec::new();
    let mut i: usize = 0;
    let ghost a = views(c1@);
    let ghost b = views(c2@);
    assert(a.skip(0) =~= a);
    assert(b.skip(0) =~= b);
    while i < c1.len() && i < c2.len() && comp_eq(&c1[i], &c2[i])
        invariant
            a == views(c1@),
            b == views(c2@),
            i <= c1.len(),
            i <= c2.len(),
            common_len(a, b) == i + common_len(a.skip(i as int), b.skip(i as int)),
            views(common@) == a.take(i as int),
        decreases c1.len() - i,
    {
        assert(a.skip(i as int).drop_first() =~= a.skip(i as int + 1));
        assert(b.skip(i as int).drop_first() =~= b.skip(i as int + 1));
        assert(a.skip(i as int)[0] == a[i as int]);
        assert(b.skip(i as int)[0] == b[i as int]);
        let ghost before = views(common@);
        let c = c1[i].clone_component();
        common.push(c);
        assert(views(common@) =~= before.push(c@));
        assert(views(common@) =~= a.take(i as int + 1));
        i = i + 1;
    }
    assert(common_len(a.skip(i as int), b.skip(i as int)) == 0) by {
        if i < c1.len() && i < c2.len() {
            assert(a.skip(i as int)[0] == a[i as int]);
            assert(b.skip(i as int)[0] == b[i as int]);
        }
    }
    render_components(common.as_slice())
}

proof fn lemma_common_len(a: Seq<Comp>, b: Seq<Comp>)
    ensures
        common_len(a, b) == common_len(b, a),
        common_len(a, b) <= a.len(),
        common_len(a, b) <= b.len(),
        forall|i: int| 0 <= i < common_len(a, b) ==> a[i] == b[i],
        common_len(a, b) < a.len() && common_len(a, b) < b.len() ==> a[common_len(a, b) as int] != b[common_len(
            a,
            b,
        ) as int],
    decreases a.len(),
{
    if a.len() > 0 && b.len() > 0 && a[0] == b[0] {
        lemma_common_len(a.drop_first(), b.drop_first());
        assert forall|i: int| 0 <= i < common_len(a, b) implies a[i] == b[i] by {
            if i > 0 {
                assert(a[i] == a.drop_first()[i - 1]);
                assert(b[i] == b.drop_first()[i - 1]);
            }
        }
        let n = common_len(a, b);
        if n < a.len() && n < b.len() {
            assert(a[n as int] == a.drop_first()[n - 1]);
            assert(b[n as int] == b.drop_first()[n - 1]);
        }
    }
}

/// Law: the common prefix of two paths does not depend on their order, and
/// it is the longest run of whole components with which both begin (so
/// `/ab` and `/a` share only `/`).
pub proof fn common_prefix_symmetric(p1: Seq<char>, p2: Seq<char>)
    ensures
        render(components(p1).take(common_len(components(p1), components(p2)) as int)) == render(
            components(p2).take(common_len(components(p2), components(p1)) as int),
        ),
        common_len(components(p1), components(p2)) <= components(p1).len(),
        common_len(components(p1), components(p2)) <= components(p2).len(),
        components(p1).take(common_len(components(p1), components(p2)) as int) == components(p2).take(
            common_len(components(p1), components(p2)) as int,
        ),
        common_len(components(p1), components(p2)) < components(p1).len() && common_len(
            components(p1),
            components(p2),
        ) < components(p2).len() ==> components(p1)[common_len(components(p1), components(p2)) as int]
            != components(p2)[common_len(components(p1), components(p2)) as int],
{
    let a = components(p1);
    let b = components(p2);
    lemma_common_len(a, b);
    let n = common_len(a, b) as int;
    assert(a.take(n) =~= b.take(n));
}

proof fn lemma_replace_char_shape(p: Seq<char>, from: char, to: char)
    ensures
        replace_char(p, from, seq![to]).len() == p.len(),
        forall|i: int| 0 <= i < p.len() ==> replace_char(p, from, seq![to])[i] == (if p[i] == from {
            to
        } else {
            p[i]
        }),
    decreases p.len(),
{
    if p.len() > 0 {
        lemma_replace_char_shape(p.drop_last(), from, to);
        let q = replace_char(p.drop_last(), from, seq![to]);
        assert forall|i: int| 0 <= i < p.len() implies replace_char(p, from, seq![to])[i] == (if p[i] == from {
            to
        } else {
            p[i]
        }) by {
            if i < p.len() - 1 {
                assert(p.drop_last()[i] == p[i]);
            }
        }
    }
}

/// Law: the Unix form of a path has no backslash and as many characters as
/// the path; the Windows form has no slash and as many characters.
pub proof fn separator_forms_shape(p: Seq<char>)
    ensures
        !unix_form(p).contains('\\'),
        unix_form(p).len() == p.len(),
        !windows_form(p).contains('/'),
        windows_form(p).len() == p.len(),
{
    reveal_strlit("/");
    reveal_strlit("\\");
    assert("/"@ =~= seq!['/']);
    assert("\\"@ =~= seq!['\\']);
    lemma_replace_char_shape(p, '\\', '/');
    lemma_replace_char_shape(p, '/', '\\');
    assert(!unix_form(p).contains('\\')) by {
        if unix_form(p).contains('\\') {
            let i = choose|i: int| 0 <= i < unix_form(p).len() && unix_form(p)[i] == '\\';
            assert(unix_form(p)[i] == (if p[i] == '\\' { '/' } else { p[i] }));
        }
    }
    assert(!windows_form(p).contains('/')) by {
        if windows_form(p).contains('/') {
            let i = choose|i: int| 0 <= i < windows_form(p).len() && windows_form(p)[i] == '/';
            assert(windows_form(p)[i] == (if p[i] == '/' { '\\' } else { p[i] }));
        }
    }
}

/// Convert backslashes to forward slashes.
pub fn normalize_separators(path: &str) -> (r: String)
    ensures
        r@ == unix_form(path@),
{
    replace_char_exec(path, '\\', "/")
}

/// Join path components safely.
pub fn join_path_safe(base: &str, component: &str) -> (r: Result<String, GraftError>)
    ensures
        r is Ok <==> !escapes_upwards(component@) && !is_absolute(component@),
        r matches Ok(s) ==> s@ == unix_form(join(base@, component@)),
        r matches Err(e) ==> e.kind_of() == ErrorKind::Configuration,
{
    validate_path_safety(component)?;
    let joined = path_join(base, component);
    Ok(normalize_separators(joined.as_str()))
}

/// Extract the file extension in lowercase.
pub fn get_file_extension(path: &str) -> (r: Option<String>)
    ensures
        match extension(path@) {
            Some(e) => r matches Some(x) && x@ == lowercase(e),
            None => r is None,
        },
{
    match path_extension(path) {
        Some(e) => Some(to_lowercase(e.as_str())),
        None => None,
    }
}

/// Check if a path has a specific extension (case-insensitive).
pub fn has_extension(path: &str, ext: &str) -> (r: bool)
    ensures
        r == (extension(path@) matches Some(e) && lowercase(e) == lowercase(ext@)),
{
    match get_file_extension(path) {
        Some(e) => {
            let want = to_lowercase(ext);
            e == want
        },
        None => false,
    }
}

/// Does the system report that the path exists? (Errors count as absent.)
fn exists_or_false<S: System>(system: &S, path: &str) -> (r: bool)
    ensures
        S::keeps_model() ==> (r ==> present(system, path@)),
{
    match system.path_exists(path) {
        Ok(b) => b,
        Err(_) => false,
    }
}

/// The `k`-th numbered name that `get_unique_filename` tries for a path.
pub open spec fn unique_numbered(p: Seq<char>, k: nat) -> Seq<char> {
    join(unique_dir(p), unique_candidate(unique_stem(p), extension(p), k))
}

/// The name `get_unique_filename` falls back to when every numbered one is
/// taken.
pub open spec fn unique_final(p: Seq<char>) -> Seq<char> {
    join(unique_dir(p), unique_stem(p) + "-final"@)
}

/// Asked about the path `p`, `taken` answered `b`.
pub open spec fn answered<F: Fn(&str) -> bool>(taken: F, p: Seq<char>, b: bool) -> bool {
    exists|s: &str| #![trigger call_ensures(taken, (s,), b)] s@ == p && call_ensures(taken, (s,), b)
}

/// The name chosen for `p` given the answers of `taken`: `p` itself when it
/// is free; else the least numbered name (1 to 10000) that is free; else the
/// `-final` name when all of those are taken.
pub open spec fn unique_choice<F: Fn(&str) -> bool>(taken: F, p: Seq<char>, r: Seq<char>) -> bool {
    ||| answered(taken, p, false) && r == p
    ||| answered(taken, p, true) && exists|k: nat|
        1 <= k <= 10000 && r == #[trigger] unique_numbered(p, k) && answered(taken, unique_numbered(p, k), false)
            && forall|j: nat| 1 <= j < k ==> answered(taken, #[trigger] unique_numbered(p, j), true)
    ||| answered(taken, p, true) && (forall|j: nat|
        1 <= j <= 10000 ==> answered(taken, #[trigger] unique_numbered(p, j), true)) && r == unique_final(p)
}

/// A free name for a path, asking `taken` whether a name is taken: the path
/// itself, else the first free one of `STEM-1.EXT` to `STEM-10000.EXT`, else
/// `STEM-final`.
pub fn first_free_name<F: Fn(&str) -> bool>(path: &str, taken: &F) -> (r: String)
    requires
        forall|s: &str| #[trigger] taken.requires((s,)),
    ensures
        unique_choice(*taken, path@, r@),
{
    let path_taken = taken(path);
    assert(answered(*taken, path@, path_taken));
    if !path_taken {
        return owned(path);
    }
    let stem = match path_file_stem(path) {
        Some(s) => s,
        None => owned("file"),
    };
    let ext = path_extension(path);
    let par = match path_parent(path) {
        Some(p) => p,
        None => String::new(),
    };
    let ghost pv = match parent(path@) {
        Some(p) => p,
        None => Seq::<char>::empty(),
    };
    assert(par@ == pv);
    assert(pv == unique_dir(path@));
    assert(stem@ == unique_stem(path@));
    assert(ext_view(ext) == extension(path@));
    let mut counter: usize = 1;
    loop
        invariant
            1 <= counter <= 10000,
            par@ == pv,
            pv == unique_dir(path@),
            stem@ == unique_stem(path@),
            ext_view(ext) == extension(path@),
            answered(*taken, path@, true),
            forall|s: &str| #[trigger] taken.requires((s,)),
            forall|j: nat| 1 <= j < counter ==> answered(*taken, #[trigger] unique_numbered(path@, j), true),
        decreases 10001 - counter,
    {
        let mut filename = concat(stem.as_str(), "-");
        let num = usize_to_decimal(counter);
        filename.append(num.as_str());
        match &ext {
            Some(e) => {
                filename.append(".");
                filename.append(e.as_str());
            },
            None => {},
        }
        assert(filename@ == unique_candidate(stem@, ext_view(ext), counter as nat));
        let new_path = path_join(par.as_str(), filename.as_str());
        assert(new_path@ == unique_numbered(path@, counter as nat));
        let new_taken = taken(new_path.as_str());
        assert(answered(*taken, new_path@, new_taken));
        if !new_taken {
            assert(unique_choice(*taken, path@, new_path@));
            return new_path;
        }
        counter = counter + 1;
        if counter > 10000 {
            let last = concat(stem.as_str(), "-final");
            let r = path_join(par.as_str(), last.as_str());
            assert(r@ == unique_final(path@));
            assert(unique_choice(*taken, path@, r@));
            return r;
        }
    }
}

/// Get a unique filename by appending a number while the name is taken
/// (see [`first_free_name`], asked of the system's `path_exists`): the path
/// itself when the system does not hold it; else the least numbered name
/// that is not found taken, every earlier one being held by the system; else
/// the `-final` name when all of them are held.
pub fn get_unique_filename<S: System>(system: &S, path: &str) -> (r: String)
    ensures
        S::keeps_model() && !present(system, path@) ==> r@ == path@,
        S::keeps_model() ==> r@ == path@ || (present(system, path@) && ((exists|k: nat|
            1 <= k <= 10000 && r@ == #[trigger] unique_numbered(path@, k) && forall|j: nat|
                1 <= j < k ==> present(system, #[trigger] unique_numbered(path@, j))) || ((forall|j: nat|
            1 <= j <= 10000 ==> present(system, #[trigger] unique_numbered(path@, j))) && r@ == unique_final(
            path@,
        )))),
{
    let taken = |p: &str| -> (b: bool)
        ensures
            S::keeps_model() ==> (b ==> present(system, p@)),
        { exists_or_false(system, p) };
    let r = first_free_name(path, &taken);
    proof {
        assert forall|q: Seq<char>| S::keeps_model() && answered(taken, q, true) implies present(system, q) by {
            let s = choose|s: &str| s@ == q && call_ensures(taken, (s,), true);
        }
        if answered(taken, path@, true) && !(r@ == unique_final(path@)) && r@ != path@ {
            let k = choose|k: nat|
                1 <= k <= 10000 && r@ == #[trigger] unique_numbered(path@, k) && answered(
                    taken,
                    unique_numbered(path@, k),
                    false,
                ) && forall|j: nat| 1 <= j < k ==> answered(taken, #[trigger] unique_numbered(path@, j), true);
            assert(S::keeps_model() ==> forall|j: nat| 1 <= j < k ==> present(system, #[trigger] unique_numbered(path@, j)));
        }
        if S::keeps_model() && !present(system, path@) {
            assert(!answered(taken, path@, true));
        }
    }
    r
}

/// The view of an optional string.
pub open spec fn ext_view(e: Option<String>) -> Option<Seq<char>> {
    match e {
        Some(s) => Some(s@),
        None => None,
    }
}

proof fn lemma_replace_char_append(a: Seq<char>, b: Seq<char>, from: char, to: Seq<char>)
    ensures
        replace_char(a + b, from, to) == replace_char(a, from, to) + replace_char(b, from, to),
    decreases b.len(),
{
    if b.len() == 0 {
        assert(a + b =~= a);
        assert(replace_char(a, from, to) + replace_char(b, from, to) =~= replace_char(a, from, to));
    } else {
        lemma_replace_char_append(a, b.drop_last(), from, to);
        assert((a + b).drop_last() =~= a + b.drop_last());
        assert((a + b).last() == b.last());
        let tail = if b.last() == from { to } else { seq![b.last()] };
        assert(replace_char(a + b, from, to) =~= replace_char(a, from, to) + replace_char(b.drop_last(), from, to)
            + tail);
        assert(replace_char(a, from, to) + replace_char(b, from, to) =~= replace_char(a, from, to) + (
        replace_char(b.drop_last(), from, to) + tail));
    }
}

/// Law: converting to Windows separators and back to Unix ones gives the
/// Unix form of the path, and the other way round; so a path without
/// backslashes comes back unchanged from the Windows form, and a path
/// without slashes from the Unix form.
pub proof fn separator_round_trip(p: Seq<char>)
    ensures
        unix_form(windows_form(p)) == unix_form(p),
        windows_form(unix_form(p)) == windows_form(p),
        !p.contains('\\') ==> unix_form(windows_form(p)) == p,
        !p.contains('/') ==> windows_form(unix_form(p)) == p,
    decreases p.len(),
{
    reveal_strlit("/");
    reveal_strlit("\\");
    if p.len() > 0 {
        let q = p.drop_last();
        let c = p.last();
        separator_round_trip(q);
        assert(q + seq![c] =~= p);
        if !p.contains('\\') {
            assert forall|x: char| q.contains(x) implies p.contains(x) by {
                let i = choose|i: int| 0 <= i < q.len() && q[i] == x;
                assert(p[i] == x);
            }
            assert(p[p.len() - 1] == c);
        }
        if !p.contains('/') {
            assert forall|x: char| q.contains(x) implies p.contains(x) by {
                let i = choose|i: int| 0 <= i < q.len() && q[i] == x;
                assert(p[i] == x);
            }
            assert(p[p.len() - 1] == c);
        }
        assert("/"@ =~= seq!['/']);
        assert("\\"@ =~= seq!['\\']);
        let wc: Seq<char> = if c == '/' { seq!['\\'] } else { seq![c] };
        let uc: Seq<char> = if c == '\\' { seq!['/'] } else { seq![c] };
        assert(windows_form(p) == windows_form(q) + wc);
        assert(unix_form(p) == unix_form(q) + uc);
        let slash: Seq<char> = if c == '/' || c == '\\' { seq!['/'] } else { seq![c] };
        let back: Seq<char> = if c == '/' || c == '\\' { seq!['\\'] } else { seq![c] };
        assert(wc.drop_last() =~= Seq::<char>::empty());
        assert(uc.drop_last() =~= Seq::<char>::empty());
        reveal_with_fuel(replace_char, 2);
        assert(replace_char(wc, '\\', "/"@) =~= slash);
        assert(replace_char(uc, '/', "\\"@) =~= back);
        assert(replace_char(uc, '\\', "/"@) =~= slash);
        assert(replace_char(wc, '/', "\\"@) =~= back);
        lemma_replace_char_append(windows_form(q), wc, '\\', "/"@);
        lemma_replace_char_append(unix_form(q), uc, '/', "\\"@);
        lemma_replace_char_append(unix_form(q), uc, '\\', "/"@);
        lemma_replace_char_append(windows_form(q), wc, '/', "\\"@);
    }
}

/// Convert a Windows path to a Unix-style path.
pub fn to_unix(path: &str) -> (r: String)
    ensures
        r@ == unix_form(path@),
{
    replace_char_exec(path, '\\', "/")
}

/// Convert a Unix path to a Windows-style path.
pub fn to_windows(path: &str) -> (r: String)
    ensures
        r@ == windows_form(path@),
{
    replace_char_exec(path, '/', "\\")
}

/// Get the depth of a path (number of normal components).
pub fn depth(path: &str) -> (r: usize)
    ensures
        r == normal_count(components(path@)),
{
    let cs = path_components(path);
    let mut n: usize = 0;
    let mut i: usize = 0;
    assert(views(cs@).take(0) =~= Seq::<Comp>::empty());
    while i < cs.len()
        invariant
            i <= cs.len(),
            n <= i,
            views(cs@) == components(path@),
            n == normal_count(views(cs@).take(i as int)),
        decreases cs.len() - i,
    {
        assert(views(cs@).take(i as int + 1).drop_last() =~= views(cs@).take(i as int));
        assert(views(cs@).take(i as int + 1).last() == cs@[i as int]@);
        if let Component::Normal(_) = &cs[i] {
            n = n + 1;
        }
        i = i + 1;
    }
    assert(views(cs@).take(cs.len() as int) =~= views(cs@));
    n
}


/// A pattern allows a path when the path's text contains it, or when the
/// pattern holds `*` and, each `*` read as `.*`, matches the path as a
/// regular expression.
pub open spec fn pattern_allows(pattern: Seq<char>, path: Seq<char>) -> bool {
    seq_contains(path, pattern) || (has_char(pattern, '*') && regex_match(
        replace_char(pattern, '*', ".*"@),
        path,
    ) == Ok::<bool, Seq<char>>(true))
}

/// Is the path allowed by one of the patterns?
pub fn is_path_allowed(path: &str, allowed_patterns: &[&str]) -> (r: bool)
    ensures
        r == exists|i: int|
            0 <= i < allowed_patterns.len() && pattern_allows(#[trigger] allowed_patterns[i]@, path@),
{
    let mut i: usize = 0;
    while i < allowed_patterns.len()
        invariant
            i <= allowed_patterns.len(),
            forall|j: int| 0 <= j < i ==> !pattern_allows(#[trigger] allowed_patterns[j]@, path@),
        decreases allowed_patterns.len() - i,
    {
        let pattern = allowed_patterns[i];
        if str_contains(path, pattern) {
            return true;
        }
        let pv = chars_of(pattern);
        if has_char_exec(pv.as_slice(), '*') {
            let regex_pattern = replace_char_exec(pattern, '*', ".*");
            if let Ok(true) = regex_is_match(regex_pattern.as_str(), path) {
                return true;
            }
        }
        i = i + 1;
    }
    false
}

} // verus!
