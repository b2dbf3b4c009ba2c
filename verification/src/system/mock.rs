//! In-memory implementation of [`System`] for fast, isolated tests.
//!
//! Paths are kept as their components, so two spellings of one path (such as
//! `/a/b` and `/a//b/`) name the same file, as they do for `std::path`.

use vstd::prelude::*;
use crate::error::{EnvVarError, IoError, IoErrorKind};
use crate::path::{
    comp_eq, comps_of_segments, components, comps_less, segments, comps_lt, comps_prefix, lemma_comps_lt_asymmetric, lemma_comps_lt_total,
    lemma_comps_lt_transitive, is_absolute, join, path_components,
    path_is_absolute, path_join, render, render_components, views, Comp, Component,
};
use crate::system::{System, TempDirHandle, WalkEntry};
use crate::json::u64_to_decimal;
use crate::text::{ascii_chars, concat, decimal, is_ascii_bytes, owned, str_eq};
use crate::utils::fs::valid_utf8;

verus! {

/// The files that a list of entries holds: a later entry for a path
/// replaces an earlier one.
pub open spec fn files_map(s: Seq<(Vec<Component>, Vec<u8>)>) -> Map<Seq<Comp>, Seq<u8>>
    decreases s.len(),
{
    if s.len() == 0 {
        Map::empty()
    } else {
        files_map(s.drop_last()).insert(views(s.last().0@), s.last().1@)
    }
}

/// The directories that a list holds.
pub open spec fn dirs_set(s: Seq<Vec<Component>>) -> Set<Seq<Comp>>
    decreases s.len(),
{
    if s.len() == 0 {
        Set::empty()
    } else {
        dirs_set(s.drop_last()).insert(views(s.last()@))
    }
}

/// The environment that a list of entries holds.
pub open spec fn env_map(s: Seq<(String, String)>) -> Map<Seq<char>, Seq<char>>
    decreases s.len(),
{
    if s.len() == 0 {
        Map::empty()
    } else {
        env_map(s.drop_last()).insert(s.last().0@, s.last().1@)
    }
}

/// A path and the directories above it that `create_dir_all` makes: every
/// prefix of its components, down to the root (or to nothing for a relative
/// path).
pub open spec fn with_ancestors(cs: Seq<Comp>) -> Set<Seq<Comp>> {
    Set::new(
        |k: Seq<Comp>|
            comps_prefix(k, cs) && (cs.len() > 0 && cs[0] == Comp::RootDir ==> k.len() >= 1),
    )
}

/// The parent of a path given by its components.
pub open spec fn parent_key(cs: Seq<Comp>) -> Option<Seq<Comp>> {
    if cs.len() == 0 || cs.last() == Comp::RootDir {
        None
    } else {
        Some(cs.drop_last())
    }
}

/// In-memory implementation of [`System`].
#[derive(Debug)]
pub struct MockSystem {
    env_vars: Vec<(String, String)>,
    current_dir: String,
    files: Vec<(Vec<Component>, Vec<u8>)>,
    dirs: Vec<Vec<Component>>,
    temp_counter: u64,
}

/// Temporary directory handle of a [`MockSystem`].
#[derive(Debug)]
pub struct MockTempDir {
    path: String,
}

impl TempDirHandle for MockTempDir {
    fn path(&self) -> (r: &str)
        ensures
            r@ == self.dir(),
    {
        self.path.as_str()
    }
}

impl MockTempDir {
    /// The path of the directory.
    pub closed spec fn dir(&self) -> Seq<char> {
        self.path@
    }
}

/// Equality of component lists.
pub fn comps_equal(a: &[Component], b: &[Component]) -> (r: bool)
    ensures
        r == (views(a@) == views(b@)),
{
    if a.len() != b.len() {
        return false;
    }
    let mut i: usize = 0;
    while i < a.len()
        invariant
            i <= a.len(),
            a.len() == b.len(),
            forall|k: int| 0 <= k < i ==> a@[k]@ == b@[k]@,
        decreases a.len() - i,
    {
        if !comp_eq(&a[i], &b[i]) {
            assert(views(a@)[i as int] != views(b@)[i as int]);
            return false;
        }
        i = i + 1;
    }
    assert(views(a@) =~= views(b@));
    true
}

/// Is `a` a component prefix of `b`?
fn comps_start_with(b: &[Component], a: &[Component]) -> (r: bool)
    ensures
        r == comps_prefix(views(a@), views(b@)),
{
    if a.len() > b.len() {
        return false;
    }
    let mut i: usize = 0;
    while i < a.len()
        invariant
            i <= a.len(),
            a.len() <= b.len(),
            forall|k: int| 0 <= k < i ==> a@[k]@ == b@[k]@,
        decreases a.len() - i,
    {
        if !comp_eq(&a[i], &b[i]) {
            assert(views(b@).subrange(0, views(a@).len() as int)[i as int] != views(a@)[i as int]);
            return false;
        }
        i = i + 1;
    }
    assert(views(b@).subrange(0, views(a@).len() as int) =~= views(a@));
    true
}

/// A copy of a component list.
fn clone_comps(v: &[Component]) -> (r: Vec<Component>)
    ensures
        views(r@) == views(v@),
{
    let mut out: Vec<Component> = Vec::new();
    let mut i: usize = 0;
    while i < v.len()
        invariant
            i <= v.len(),
            views(out@) == views(v@).take(i as int),
        decreases v.len() - i,
    {
        let c = v[i].clone_component();
        let ghost before = out@;
        out.push(c);
        assert(views(out@) =~= views(before).push(c@));
        assert(views(v@).take(i as int + 1) =~= views(v@).take(i as int).push(v@[i as int]@));
        i = i + 1;
    }
    assert(views(v@).take(i as int) =~= views(v@));
    out
}

/// The first `n` components.
fn prefix_comps(v: &[Component], n: usize) -> (r: Vec<Component>)
    requires
        n <= v.len(),
    ensures
        views(r@) == views(v@).take(n as int),
{
    let mut out: Vec<Component> = Vec::new();
    let mut i: usize = 0;
    while i < n
        invariant
            i <= n,
            n <= v.len(),
            views(out@) == views(v@).take(i as int),
        decreases n - i,
    {
        let c = v[i].clone_component();
        let ghost before = out@;
        out.push(c);
        assert(views(out@) =~= views(before).push(c@));
        assert(views(v@).take(i as int + 1) =~= views(v@).take(i as int).push(v@[i as int]@));
        i = i + 1;
    }
    out
}

/// The index of the entry holding a file, when there is one.
fn find_file(files: &Vec<(Vec<Component>, Vec<u8>)>, key: &[Component]) -> (r: Option<usize>)
    ensures
        match r {
            Some(i) => i < files@.len() && files_map(files@).contains_key(views(key@))
                && files_map(files@)[views(key@)] == files@[i as int].1@,
            None => !files_map(files@).contains_key(views(key@)),
        },
{
    let mut found: Option<usize> = None;
    let mut i: usize = 0;
    while i < files.len()
        invariant
            i <= files.len(),
            match found {
                Some(j) => j < i && files_map(files@.take(i as int)).contains_key(views(key@))
                    && files_map(files@.take(i as int))[views(key@)] == files@[j as int].1@,
                None => !files_map(files@.take(i as int)).contains_key(views(key@)),
            },
        decreases files.len() - i,
    {
        assert(files@.take(i as int + 1).drop_last() =~= files@.take(i as int));
        if comps_equal(files[i].0.as_slice(), key) {
            found = Some(i);
        }
        i = i + 1;
    }
    assert(files@.take(i as int) =~= files@);
    found
}

/// Remove a file's entries.
fn remove_file_entry(files: &mut Vec<(Vec<Component>, Vec<u8>)>, key: &[Component])
    ensures
        files_map(final(files)@) == files_map(old(files)@).remove(views(key@)),
{
    let mut out: Vec<(Vec<Component>, Vec<u8>)> = Vec::new();
    let mut i: usize = 0;
    while i < files.len()
        invariant
            i <= files.len(),
            files_map(out@) == files_map(files@.take(i as int)).remove(views(key@)),
        decreases files.len() - i,
    {
        assert(files@.take(i as int + 1).drop_last() =~= files@.take(i as int));
        let ghost prev = files_map(files@.take(i as int));
        let ghost k = views(files@[i as int].0@);
        let ghost v = files@[i as int].1@;
        if !comps_equal(files[i].0.as_slice(), key) {
            let entry = (clone_comps(files[i].0.as_slice()), files[i].1.clone());
            let ghost before = out@;
            out.push(entry);
            assert(out@.drop_last() =~= before);
            assert(prev.remove(views(key@)).insert(k, v) =~= prev.insert(k, v).remove(views(key@)));
        } else {
            assert(prev.insert(k, v).remove(views(key@)) =~= prev.remove(views(key@)));
        }
        i = i + 1;
    }
    assert(files@.take(i as int) =~= files@);
    *files = out;
}

/// Set a file's contents.
fn insert_file_entry(files: &mut Vec<(Vec<Component>, Vec<u8>)>, key: Vec<Component>, contents: Vec<u8>)
    ensures
        files_map(final(files)@) == files_map(old(files)@).insert(views(key@), contents@),
{
    remove_file_entry(files, key.as_slice());
    let ghost mid = files@;
    let ghost k = views(key@);
    let ghost c = contents@;
    files.push((key, contents));
    assert(files@.drop_last() =~= mid);
    assert(files_map(old(files)@).remove(k).insert(k, c) =~= files_map(old(files)@).insert(k, c));
}

/// Does the list hold the directory?
fn contains_dir(dirs: &Vec<Vec<Component>>, key: &[Component]) -> (r: bool)
    ensures
        r == dirs_set(dirs@).contains(views(key@)),
{
    let mut i: usize = 0;
    while i < dirs.len()
        invariant
            i <= dirs.len(),
            !dirs_set(dirs@.take(i as int)).contains(views(key@)),
        decreases dirs.len() - i,
    {
        assert(dirs@.take(i as int + 1).drop_last() =~= dirs@.take(i as int));
        if comps_equal(dirs[i].as_slice(), key) {
            proof {
                lemma_dirs_prefix(dirs@, i as int + 1);
            }
            return true;
        }
        i = i + 1;
    }
    assert(dirs@.take(i as int) =~= dirs@);
    false
}

proof fn lemma_dirs_prefix(s: Seq<Vec<Component>>, n: int)
    requires
        0 <= n <= s.len(),
    ensures
        dirs_set(s.take(n)).subset_of(dirs_set(s)),
    decreases s.len() - n,
{
    if n < s.len() {
        lemma_dirs_prefix(s, n + 1);
        assert(s.take(n + 1).drop_last() =~= s.take(n));
    } else {
        assert(s.take(n) =~= s);
    }
}

/// Add a directory.
fn insert_dir(dirs: &mut Vec<Vec<Component>>, key: Vec<Component>)
    ensures
        dirs_set(final(dirs)@) == dirs_set(old(dirs)@).insert(views(key@)),
{
    if !contains_dir(dirs, key.as_slice()) {
        let ghost before = dirs@;
        dirs.push(key);
        assert(dirs@.drop_last() =~= before);
    } else {
        assert(dirs_set(dirs@).insert(views(key@)) =~= dirs_set(dirs@));
    }
}

/// Add a path and every directory above it.
fn ensure_parent_dirs(dirs: &mut Vec<Vec<Component>>, key: &[Component])
    ensures
        dirs_set(final(dirs)@) == dirs_set(old(dirs)@).union(with_ancestors(views(key@))),
{
    let rooted = key.len() > 0 && match &key[0] {
        Component::RootDir => true,
        _ => false,
    };
    let lo: usize = if rooted { 1 } else { 0 };
    let ghost cs = views(key@);
    let mut n: usize = lo;
    assert(rooted == (cs.len() > 0 && cs[0] == Comp::RootDir));
    if lo > key.len() {
        return;
    }
    loop
        invariant_except_break
            lo <= n <= key.len(),
            dirs_set(dirs@) == dirs_set(old(dirs)@).union(
                Set::new(|k: Seq<Comp>| comps_prefix(k, cs) && lo <= k.len() < n),
            ),
        invariant
            lo == (if cs.len() > 0 && cs[0] == Comp::RootDir { 1usize } else { 0usize }),
            lo <= key.len(),
            cs == views(key@),
        ensures
            dirs_set(dirs@) == dirs_set(old(dirs)@).union(
                Set::new(|k: Seq<Comp>| comps_prefix(k, cs) && lo <= k.len() <= key.len()),
            ),
        decreases key.len() - n,
    {
        let p = prefix_comps(key, n);
        insert_dir(dirs, p);
        proof {
            assert(comps_prefix(cs.take(n as int), cs)) by {
                assert(cs.subrange(0, n as int) =~= cs.take(n as int));
            }
            assert(dirs_set(dirs@) =~= dirs_set(old(dirs)@).union(
                Set::new(|k: Seq<Comp>| comps_prefix(k, cs) && lo <= k.len() < n + 1),
            )) by {
                assert forall|k: Seq<Comp>| comps_prefix(k, cs) && k.len() == n implies k == cs.take(n as int) by {
                    assert(k =~= cs.subrange(0, k.len() as int));
                }
            }
        }
        if n == key.len() {
            proof {
                assert(Set::new(|k: Seq<Comp>| comps_prefix(k, cs) && lo <= k.len() < n + 1) =~=
                    Set::new(|k: Seq<Comp>| comps_prefix(k, cs) && lo <= k.len() <= key.len()));
            }
            break;
        }
        n = n + 1;
    }
    proof {
        assert(dirs_set(dirs@) =~= dirs_set(old(dirs)@).union(with_ancestors(cs)));
    }
}

impl MockSystem {
    /// The files, by path components.
    pub closed spec fn files(&self) -> Map<Seq<Comp>, Seq<u8>> {
        files_map(self.files@)
    }

    /// The directories, by path components.
    pub closed spec fn dirs(&self) -> Set<Seq<Comp>> {
        dirs_set(self.dirs@)
    }

    /// The environment variables.
    pub closed spec fn env(&self) -> Map<Seq<char>, Seq<char>> {
        env_map(self.env_vars@)
    }

    /// The current directory.
    pub closed spec fn cwd(&self) -> Seq<char> {
        self.current_dir@
    }

    /// A system with no files, only the root directory, no environment
    /// variables, and `/` as the current directory.
    pub fn new() -> (r: MockSystem)
        ensures
            r.files() == Map::<Seq<Comp>, Seq<u8>>::empty(),
            r.dirs() == Set::<Seq<Comp>>::empty().insert(seq![Comp::RootDir]),
            r.env() == Map::<Seq<char>, Seq<char>>::empty(),
            r.cwd() == "/"@,
    {
        let mut dirs: Vec<Vec<Component>> = Vec::new();
        let mut root: Vec<Component> = Vec::new();
        root.push(Component::RootDir);
        assert(views(root@) =~= seq![Comp::RootDir]);
        dirs.push(root);
        let r = MockSystem {
            env_vars: Vec::new(),
            current_dir: owned("/"),
            files: Vec::new(),
            dirs,
            temp_counter: 0,
        };
        assert(dirs_set(r.dirs@) =~= Set::<Seq<Comp>>::empty().insert(seq![Comp::RootDir])) by {
            reveal_with_fuel(dirs_set, 2);
            assert(r.dirs@.drop_last() =~= Seq::<Vec<Component>>::empty());
        }
        r
    }

    /// Set an environment variable (builder style).
    pub fn with_env(self, key: &str, value: &str) -> (r: Result<MockSystem, IoError>)
        ensures
            r matches Ok(s) && s.env() == self.env().insert(key@, value@) && s.files() == self.files()
                && s.dirs() == self.dirs() && s.cwd() == self.cwd(),
    {
        let mut s = self;
        let ghost before = s.env_vars@;
        s.env_vars.push((owned(key), owned(value)));
        assert(s.env_vars@.drop_last() =~= before);
        Ok(s)
    }

    /// Set the current working directory (builder style).
    pub fn with_current_dir(self, dir: &str) -> (r: Result<MockSystem, IoError>)
        ensures
            r matches Ok(s) && s.cwd() == dir@ && s.files() == self.files() && s.dirs() == self.dirs()
                && s.env() == self.env(),
    {
        let mut s = self;
        s.current_dir = owned(dir);
        Ok(s)
    }

    /// Add a file with its contents, and the directories above it (builder
    /// style).
    pub fn with_file(self, path: &str, contents: &[u8]) -> (r: Result<MockSystem, IoError>)
        ensures
            r matches Ok(s) && s.files() == self.files().insert(components(path@), contents@) && s.env()
                == self.env() && s.cwd() == self.cwd() && match parent_key(components(path@)) {
                Some(p) => s.dirs() == self.dirs().union(with_ancestors(p)),
                None => s.dirs() == self.dirs(),
            },
    {
        let mut s = self;
        let key = path_components(path);
        let n = key.len();
        if n > 0 && !matches!(&key[n - 1], Component::RootDir) {
            let p = prefix_comps(key.as_slice(), n - 1);
            assert(views(key@).drop_last() =~= views(key@).take(n - 1));
            ensure_parent_dirs(&mut s.dirs, p.as_slice());
        }
        let mut bytes: Vec<u8> = Vec::new();
        let mut i: usize = 0;
        while i < contents.len()
            invariant
                i <= contents.len(),
                bytes@ == contents@.take(i as int),
            decreases contents.len() - i,
        {
            bytes.push(contents[i]);
            assert(bytes@ =~= contents@.take(i as int + 1));
            i = i + 1;
        }
        assert(contents@.take(i as int) =~= contents@);
        insert_file_entry(&mut s.files, key, bytes);
        Ok(s)
    }

    /// Add a directory and the directories above it (builder style).
    pub fn with_dir(self, path: &str) -> (r: Result<MockSystem, IoError>)
        ensures
            r matches Ok(s) && s.dirs() == self.dirs().union(with_ancestors(components(path@)))
                && s.files() == self.files() && s.env() == self.env() && s.cwd() == self.cwd(),
    {
        let mut s = self;
        let key = path_components(path);
        ensure_parent_dirs(&mut s.dirs, key.as_slice());
        Ok(s)
    }
}


/// `k` lies strictly below `root`.
pub open spec fn strictly_below(root: Seq<Comp>, k: Seq<Comp>) -> bool {
    comps_prefix(root, k) && k.len() > root.len()
}

/// A file is reached by a walk from `root`: its parent is `root` or a
/// directory strictly below it.
pub open spec fn file_reached(dirs: Set<Seq<Comp>>, root: Seq<Comp>, f: Seq<Comp>) -> bool {
    match parent_key(f) {
        Some(p) => p == root || (dirs.contains(p) && strictly_below(root, p)),
        None => false,
    }
}

/// What a walk from `root` reports, by components: every directory strictly
/// below `root` (marked as a file too when a file has its path), and every
/// file whose parent the walk reaches.
pub open spec fn walk_items(files: Map<Seq<Comp>, Seq<u8>>, dirs: Set<Seq<Comp>>, root: Seq<Comp>) -> Set<
    (Seq<Comp>, bool, bool),
> {
    Set::new(
        |x: (Seq<Comp>, bool, bool)|
            (dirs.contains(x.0) && strictly_below(root, x.0) && x.1 == files.contains_key(x.0)
                && x.2) || (files.contains_key(x.0) && file_reached(dirs, root, x.0) && x.1
                && !x.2),
    )
}

/// The walk items with their paths rendered as strings.
pub open spec fn walk_rendered(files: Map<Seq<Comp>, Seq<u8>>, dirs: Set<Seq<Comp>>, root: Seq<Comp>) -> Set<
    (Seq<char>, bool, bool),
> {
    walk_items(files, dirs, root).map(|x: (Seq<Comp>, bool, bool)| (render(x.0), x.1, x.2))
}

/// What a directory listing of `root` holds, by components: the files and
/// directories whose parent is `root`.
pub open spec fn children(files: Map<Seq<Comp>, Seq<u8>>, dirs: Set<Seq<Comp>>, root: Seq<Comp>) -> Set<
    Seq<Comp>,
> {
    Set::new(
        |k: Seq<Comp>|
            (files.contains_key(k) || (dirs.contains(k) && k != root)) && parent_key(k) == Some(
                root,
            ),
    )
}

/// The paths of a directory listing of `root`, rendered as strings.
pub open spec fn children_rendered(files: Map<Seq<Comp>, Seq<u8>>, dirs: Set<Seq<Comp>>, root: Seq<Comp>) -> Set<
    Seq<char>,
> {
    children(files, dirs, root).map(|k: Seq<Comp>| render(k))
}

/// A list of entries holds exactly the given items, each at least once.
pub open spec fn walk_matches(v: Seq<WalkEntry>, items: Set<(Seq<char>, bool, bool)>) -> bool {
    &&& forall|i: int| 0 <= i < v.len() ==> items.contains(entry_view(#[trigger] v[i]))
    &&& forall|x: (Seq<char>, bool, bool)|
        items.contains(x) ==> exists|i: int| 0 <= i < v.len() && entry_view(#[trigger] v[i]) == x
}

/// The entries are the renderings of the paths `keys`, by components, in
/// path order (`Ord for Path`): none comes before an earlier one.
pub open spec fn rendered_in_order(v: Seq<WalkEntry>, keys: Seq<Seq<Comp>>) -> bool {
    &&& keys.len() == v.len()
    &&& forall|j: int| 0 <= j < v.len() ==> #[trigger] v[j].path@ == render(keys[j])
    &&& forall|a: int, b: int| 0 <= a < b < keys.len() ==> !comps_lt(#[trigger] keys[b], #[trigger] keys[a])
}

/// The entries come in path order.
pub open spec fn walk_sorted(v: Seq<WalkEntry>) -> bool {
    exists|keys: Seq<Seq<Comp>>| #[trigger] rendered_in_order(v, keys)
}

/// The entries are the renderings of the paths `keys`, by components, each
/// path coming strictly after the one before: no path occurs twice.
pub open spec fn rendered_strictly_in_order(v: Seq<WalkEntry>, keys: Seq<Seq<Comp>>) -> bool {
    &&& keys.len() == v.len()
    &&& forall|j: int| 0 <= j < v.len() ==> #[trigger] v[j].path@ == render(keys[j])
    &&& forall|a: int, b: int| 0 <= a < b < keys.len() ==> comps_lt(#[trigger] keys[a], #[trigger] keys[b])
}

/// The entries come in strict path order, none twice.
pub open spec fn walk_strictly_sorted(v: Seq<WalkEntry>) -> bool {
    exists|keys: Seq<Seq<Comp>>| #[trigger] rendered_strictly_in_order(v, keys)
}

/// No path is both a file and a directory.
pub open spec fn files_dirs_disjoint(files: Map<Seq<Comp>, Seq<u8>>, dirs: Set<Seq<Comp>>) -> bool {
    forall|k: Seq<Comp>| !(#[trigger] files.contains_key(k) && dirs.contains(k))
}

/// A list of paths holds exactly the given paths, each at least once.
pub open spec fn listing_matches(v: Seq<String>, paths: Set<Seq<char>>) -> bool {
    &&& forall|i: int| 0 <= i < v.len() ==> paths.contains(#[trigger] v[i]@)
    &&& forall|p: Seq<char>| paths.contains(p) ==> exists|i: int| 0 <= i < v.len() && #[trigger] v[i]@ == p
}

/// A walk entry as plain values.
pub open spec fn entry_view(e: WalkEntry) -> (Seq<char>, bool, bool) {
    (e.path@, e.is_file, e.is_dir)
}

/// What `String::from_utf8` makes of bytes: the text, or the message of its
/// error.
pub uninterp spec fn utf8_decoded(bytes: Seq<u8>) -> Result<Seq<char>, Seq<char>>;

/// `String::from_utf8`, with the error rendered as its message. Of the
/// decoding only that ASCII bytes give the characters they encode is stated.
#[verifier::external_body]
fn decode_utf8(bytes: Vec<u8>) -> (r: Result<String, String>)
    ensures
        match r {
            Ok(s) => utf8_decoded(bytes@) == Ok::<Seq<char>, Seq<char>>(s@) && (is_ascii_bytes(bytes@)
                ==> s@ == ascii_chars(bytes@)),
            Err(m) => utf8_decoded(bytes@) == Err::<Seq<char>, Seq<char>>(m@) && !is_ascii_bytes(bytes@),
        },
        r is Ok == valid_utf8(bytes@),
{
    String::from_utf8(bytes).map_err(|e| e.to_string())
}

/// The position of the last entry for a variable.
fn find_env(vars: &Vec<(String, String)>, key: &str) -> (r: Option<usize>)
    ensures
        match r {
            Some(i) => i < vars@.len() && env_map(vars@).contains_key(key@)
                && env_map(vars@)[key@] == vars@[i as int].1@,
            None => !env_map(vars@).contains_key(key@),
        },
{
    let mut found: Option<usize> = None;
    let mut i: usize = 0;
    while i < vars.len()
        invariant
            i <= vars.len(),
            match found {
                Some(j) => j < i && env_map(vars@.take(i as int)).contains_key(key@)
                    && env_map(vars@.take(i as int))[key@] == vars@[j as int].1@,
                None => !env_map(vars@.take(i as int)).contains_key(key@),
            },
        decreases vars.len() - i,
    {
        assert(vars@.take(i as int + 1).drop_last() =~= vars@.take(i as int));
        if str_eq(vars[i].0.as_str(), key) {
            found = Some(i);
        }
        i = i + 1;
    }
    assert(vars@.take(i as int) =~= vars@);
    found
}

/// A copy of bytes.
fn copy_bytes(v: &[u8]) -> (r: Vec<u8>)
    ensures
        r@ == v@,
{
    let mut out: Vec<u8> = Vec::new();
    let mut i: usize = 0;
    while i < v.len()
        invariant
            i <= v.len(),
            out@ == v@.take(i as int),
        decreases v.len() - i,
    {
        out.push(v[i]);
        assert(out@ =~= v@.take(i as int + 1));
        i = i + 1;
    }
    assert(v@.take(i as int) =~= v@);
    out
}

/// The parent of a path given by its components.
fn parent_comps(key: &[Component]) -> (r: Option<Vec<Component>>)
    ensures
        match r {
            Some(p) => parent_key(views(key@)) == Some(views(p@)),
            None => parent_key(views(key@)) is None,
        },
{
    let n = key.len();
    if n == 0 {
        return None;
    }
    match &key[n - 1] {
        Component::RootDir => None,
        _ => {
            let p = prefix_comps(key, n - 1);
            assert(views(key@).drop_last() =~= views(key@).take(n - 1));
            Some(p)
        },
    }
}

/// Is `root` a strict component prefix of `k`?
fn below(root: &[Component], k: &[Component]) -> (r: bool)
    ensures
        r == strictly_below(views(root@), views(k@)),
{
    k.len() > root.len() && comps_start_with(k, root)
}

impl MockSystem {
    /// The counter that names the next temporary directory.
    pub closed spec fn temp_count(&self) -> u64 {
        self.temp_counter
    }

    /// Does the walk from `root` reach the file `f`?
    fn reaches_file(&self, root: &[Component], f: &[Component]) -> (r: bool)
        ensures
            r == file_reached(self.dirs(), views(root@), views(f@)),
    {
        match parent_comps(f) {
            Some(p) => {
                comps_equal(p.as_slice(), root) || (contains_dir(&self.dirs, p.as_slice()) && below(
                    root,
                    p.as_slice(),
                ))
            },
            None => false,
        }
    }

    /// The walk items, in an unspecified order.
    fn walk_keys(&self, root: &[Component]) -> (r: Vec<(Vec<Component>, bool, bool)>)
        ensures
            forall|i: int|
                0 <= i < r@.len() ==> walk_items(self.files(), self.dirs(), views(root@)).contains(
                    (views(#[trigger] r@[i].0@), r@[i].1, r@[i].2),
                ),
            forall|x: (Seq<Comp>, bool, bool)|
                walk_items(self.files(), self.dirs(), views(root@)).contains(x) ==> exists|i: int|
                    0 <= i < r@.len() && (views(#[trigger] r@[i].0@), r@[i].1, r@[i].2) == x,
    {
        let ghost items = walk_items(self.files(), self.dirs(), views(root@));
        let mut out: Vec<(Vec<Component>, bool, bool)> = Vec::new();
        let mut i: usize = 0;
        while i < self.dirs.len()
            invariant
                i <= self.dirs.len(),
                items == walk_items(self.files(), self.dirs(), views(root@)),
                forall|j: int|
                    0 <= j < out@.len() ==> items.contains(
                        (views(#[trigger] out@[j].0@), out@[j].1, out@[j].2),
                    ),
                forall|x: (Seq<Comp>, bool, bool)|
                    x.2 && dirs_set(self.dirs@.take(i as int)).contains(x.0) && items.contains(x)
                        ==> exists|j: int|
                        0 <= j < out@.len() && (views(#[trigger] out@[j].0@), out@[j].1, out@[j].2)
                            == x,
            decreases self.dirs.len() - i,
        {
            assert(self.dirs@.take(i as int + 1).drop_last() =~= self.dirs@.take(i as int));
            proof {
                lemma_dirs_prefix(self.dirs@, i as int + 1);
            }
            let d = &self.dirs[i];
            if below(root, d.as_slice()) {
                let is_file = find_file(&self.files, d.as_slice()).is_some();
                let ghost before = out@;
                out.push((clone_comps(d.as_slice()), is_file, true));
                proof {
                    let e = (views(d@), is_file, true);
                    assert(dirs_set(self.dirs@).contains(views(d@)));
                    assert((views(out@[out@.len() - 1].0@), out@[out@.len() - 1].1, out@[out@.len() - 1].2) == e);
                    assert forall|j: int| 0 <= j < out@.len() implies items.contains(
                        (views(#[trigger] out@[j].0@), out@[j].1, out@[j].2),
                    ) by {
                        if j < before.len() {
                            assert(out@[j] == before[j]);
                        }
                    }
                    assert forall|x: (Seq<Comp>, bool, bool)|
                        x.2 && dirs_set(self.dirs@.take(i as int + 1)).contains(x.0) && items.contains(x)
                        implies exists|j: int|
                        0 <= j < out@.len() && (views(#[trigger] out@[j].0@), out@[j].1, out@[j].2)
                            == x by {
                        if x.0 == views(d@) {
                            assert((views(out@[out@.len() - 1].0@), out@[out@.len() - 1].1, out@[out@.len() - 1].2) == x);
                        } else {
                            let j = choose|j: int|
                                0 <= j < before.len() && (views(#[trigger] before[j].0@), before[j].1, before[j].2) == x;
                            assert(out@[j] == before[j]);
                        }
                    }
                }
            } else {
                proof {
                    assert forall|x: (Seq<Comp>, bool, bool)|
                        x.2 && dirs_set(self.dirs@.take(i as int + 1)).contains(x.0) && items.contains(x)
                        implies exists|j: int|
                        0 <= j < out@.len() && (views(#[trigger] out@[j].0@), out@[j].1, out@[j].2)
                            == x by {
                        if x.0 == views(d@) {
                            assert(!strictly_below(views(root@), x.0));
                            assert(false);
                        }
                    }
                }
            }
            i = i + 1;
        }
        assert(self.dirs@.take(i as int) =~= self.dirs@);
        let mut i: usize = 0;
        while i < self.files.len()
            invariant
                i <= self.files.len(),
                items == walk_items(self.files(), self.dirs(), views(root@)),
                forall|j: int|
                    0 <= j < out@.len() ==> items.contains(
                        (views(#[trigger] out@[j].0@), out@[j].1, out@[j].2),
                    ),
                forall|x: (Seq<Comp>, bool, bool)|
                    x.2 && dirs_set(self.dirs@).contains(x.0) && items.contains(x) ==> exists|j: int|
                        0 <= j < out@.len() && (views(#[trigger] out@[j].0@), out@[j].1, out@[j].2)
                            == x,
                forall|x: (Seq<Comp>, bool, bool)|
                    !x.2 && files_map(self.files@.take(i as int)).contains_key(x.0) && items.contains(x)
                        ==> exists|j: int|
                        0 <= j < out@.len() && (views(#[trigger] out@[j].0@), out@[j].1, out@[j].2)
                            == x,
            decreases self.files.len() - i,
        {
            assert(self.files@.take(i as int + 1).drop_last() =~= self.files@.take(i as int));
            proof {
                lemma_files_prefix(self.files@, i as int + 1);
            }
            let f = &self.files[i].0;
            let ghost before = out@;
            if self.reaches_file(root, f.as_slice()) {
                out.push((clone_comps(f.as_slice()), true, false));
                proof {
                    assert(files_map(self.files@).contains_key(views(f@)));
                    assert forall|j: int| 0 <= j < out@.len() implies items.contains(
                        (views(#[trigger] out@[j].0@), out@[j].1, out@[j].2),
                    ) by {
                        if j < before.len() {
                            assert(out@[j] == before[j]);
                        }
                    }
                }
            }
            proof {
                assert forall|x: (Seq<Comp>, bool, bool)|
                    x.2 && dirs_set(self.dirs@).contains(x.0) && items.contains(x)
                    implies exists|j: int|
                    0 <= j < out@.len() && (views(#[trigger] out@[j].0@), out@[j].1, out@[j].2)
                        == x by {
                    let j = choose|j: int|
                        0 <= j < before.len() && (views(#[trigger] before[j].0@), before[j].1, before[j].2) == x;
                    assert(out@[j] == before[j]);
                }
                assert forall|x: (Seq<Comp>, bool, bool)|
                    !x.2 && files_map(self.files@.take(i as int + 1)).contains_key(x.0) && items.contains(x)
                    implies exists|j: int|
                    0 <= j < out@.len() && (views(#[trigger] out@[j].0@), out@[j].1, out@[j].2)
                        == x by {
                    if x.0 == views(f@) {
                        assert((views(out@[out@.len() - 1].0@), out@[out@.len() - 1].1, out@[out@.len() - 1].2) == x);
                    } else {
                        let j = choose|j: int|
                            0 <= j < before.len() && (views(#[trigger] before[j].0@), before[j].1, before[j].2) == x;
                        assert(out@[j] == before[j]);
                    }
                }
            }
            i = i + 1;
        }
        assert(self.files@.take(i as int) =~= self.files@);
        out
    }
}

proof fn lemma_files_prefix(s: Seq<(Vec<Component>, Vec<u8>)>, n: int)
    requires
        0 <= n <= s.len(),
    ensures
        files_map(s.take(n)).dom().subset_of(files_map(s).dom()),
    decreases s.len() - n,
{
    if n < s.len() {
        lemma_files_prefix(s, n + 1);
        assert(s.take(n + 1).drop_last() =~= s.take(n));
    } else {
        assert(s.take(n) =~= s);
    }
}


/// A walk item as plain values.
pub open spec fn item_of(e: (Vec<Component>, bool, bool)) -> (Seq<Comp>, bool, bool) {
    (views(e.0@), e.1, e.2)
}

/// The walk items a list holds.
pub open spec fn items_of(s: Seq<(Vec<Component>, bool, bool)>) -> Set<(Seq<Comp>, bool, bool)> {
    Set::new(|x: (Seq<Comp>, bool, bool)| exists|i: int| 0 <= i < s.len() && item_of(s[i]) == x)
}

proof fn lemma_items_insert(s: Seq<(Vec<Component>, bool, bool)>, pos: int, e: (Vec<Component>, bool, bool))
    requires
        0 <= pos <= s.len(),
    ensures
        items_of(s.insert(pos, e)) == items_of(s).insert(item_of(e)),
{
    let t = s.insert(pos, e);
    assert forall|x| items_of(t).contains(x) implies items_of(s).insert(item_of(e)).contains(x) by {
        let i = choose|i: int| 0 <= i < t.len() && item_of(t[i]) == x;
        if i < pos {
            assert(item_of(s[i]) == x);
        } else if i > pos {
            assert(item_of(s[i - 1]) == x);
        }
    }
    assert forall|x| items_of(s).insert(item_of(e)).contains(x) implies items_of(t).contains(x) by {
        if x == item_of(e) {
            assert(item_of(t[pos]) == x);
        } else {
            let i = choose|i: int| 0 <= i < s.len() && item_of(s[i]) == x;
            if i < pos {
                assert(item_of(t[i]) == x);
            } else {
                assert(item_of(t[i + 1]) == x);
            }
        }
    }
    assert(items_of(t) =~= items_of(s).insert(item_of(e)));
}

/// No item occurs twice in the list.
pub open spec fn items_distinct(s: Seq<(Vec<Component>, bool, bool)>) -> bool {
    forall|a: int, b: int|
        0 <= a < s.len() && 0 <= b < s.len() && a != b ==> item_of(#[trigger] s[a]) != item_of(#[trigger] s[b])
}

/// Inserting an item that the list does not hold keeps the items distinct.
proof fn lemma_insert_distinct(s: Seq<(Vec<Component>, bool, bool)>, pos: int, e: (Vec<Component>, bool, bool))
    requires
        items_distinct(s),
        0 <= pos <= s.len(),
        !items_of(s).contains(item_of(e)),
    ensures
        items_distinct(s.insert(pos, e)),
{
    let t = s.insert(pos, e);
    assert forall|a: int, b: int|
        0 <= a < t.len() && 0 <= b < t.len() && a != b implies item_of(#[trigger] t[a]) != item_of(#[trigger] t[b]) by {
        let ia = if a < pos { a } else { a - 1 };
        let ib = if b < pos { b } else { b - 1 };
        if a == pos {
            assert(t[b] == s[ib]);
            assert(items_of(s).contains(item_of(s[ib])));
        } else if b == pos {
            assert(t[a] == s[ia]);
            assert(items_of(s).contains(item_of(s[ia])));
        } else {
            assert(t[a] == s[ia] && t[b] == s[ib]);
        }
    }
}

/// The items with each one kept once, in the order of first occurrence.
fn dedup_items(v: &Vec<(Vec<Component>, bool, bool)>) -> (r: Vec<(Vec<Component>, bool, bool)>)
    ensures
        items_of(r@) == items_of(v@),
        items_distinct(r@),
{
    let mut out: Vec<(Vec<Component>, bool, bool)> = Vec::new();
    let mut i: usize = 0;
    assert(items_of(out@) =~= items_of(v@.take(0)));
    while i < v.len()
        invariant
            i <= v.len(),
            items_of(out@) == items_of(v@.take(i as int)),
            items_distinct(out@),
        decreases v.len() - i,
    {
        let mut k: usize = 0;
        let mut seen = false;
        while k < out.len() && !seen
            invariant
                k <= out.len(),
                i < v.len(),
                !seen ==> forall|j: int| 0 <= j < k ==> item_of(#[trigger] out@[j]) != item_of(v@[i as int]),
                seen ==> items_of(out@).contains(item_of(v@[i as int])),
            decreases out.len() - k, if seen { 0int } else { 1int },
        {
            if comps_equal(out[k].0.as_slice(), v[i].0.as_slice()) && out[k].1 == v[i].1 && out[k].2 == v[i].2 {
                seen = true;
                assert(item_of(out@[k as int]) == item_of(v@[i as int]));
            } else {
                k = k + 1;
            }
        }
        let ghost before = out@;
        let ghost t = v@.take(i as int);
        let ghost u = v@.take(i as int + 1);
        assert(u =~= t.push(v@[i as int]));
        assert(items_of(u) =~= items_of(t).insert(item_of(v@[i as int]))) by {
            assert forall|x| items_of(u).contains(x) implies items_of(t).insert(item_of(v@[i as int])).contains(x) by {
                let k2 = choose|k2: int| 0 <= k2 < u.len() && item_of(u[k2]) == x;
                if k2 < i {
                    assert(item_of(t[k2]) == x);
                }
            }
            assert forall|x| items_of(t).insert(item_of(v@[i as int])).contains(x) implies items_of(u).contains(x) by {
                if x == item_of(v@[i as int]) {
                    assert(item_of(u[i as int]) == x);
                } else {
                    let k2 = choose|k2: int| 0 <= k2 < t.len() && item_of(t[k2]) == x;
                    assert(item_of(u[k2]) == x);
                }
            }
        }
        if !seen {
            let e = (clone_comps(v[i].0.as_slice()), v[i].1, v[i].2);
            assert(item_of(e) == item_of(v@[i as int]));
            assert(!items_of(before).contains(item_of(e))) by {
                if items_of(before).contains(item_of(e)) {
                    let j = choose|j: int| 0 <= j < before.len() && item_of(before[j]) == item_of(e);
                    assert(item_of(out@[j]) != item_of(v@[i as int]));
                }
            }
            out.push(e);
            proof {
                assert(out@ =~= before.insert(before.len() as int, e));
                lemma_insert_distinct(before, before.len() as int, e);
                lemma_items_insert(before, before.len() as int, e);
            }
        } else {
            assert(items_of(t).insert(item_of(v@[i as int])) =~= items_of(t));
        }
        i = i + 1;
    }
    assert(v@.take(i as int) =~= v@);
    out
}

/// Are the items in path order (`Ord for Path`), equal paths side by side?
pub open spec fn keys_sorted(s: Seq<(Vec<Component>, bool, bool)>) -> bool {
    forall|a: int, b: int|
        0 <= a < b < s.len() ==> !comps_lt(views(#[trigger] s[b].0@), views(#[trigger] s[a].0@))
}

/// Inserting an item after every one that does not come after it, and
/// before the first that does, keeps the items in path order.
proof fn lemma_insert_sorted_item(s: Seq<(Vec<Component>, bool, bool)>, pos: int, e: (Vec<Component>, bool, bool))
    requires
        keys_sorted(s),
        0 <= pos <= s.len(),
        forall|k: int| 0 <= k < pos ==> !comps_lt(views(e.0@), views(#[trigger] s[k].0@)),
        pos < s.len() ==> comps_lt(views(e.0@), views(s[pos].0@)),
    ensures
        keys_sorted(s.insert(pos, e)),
{
    let t = s.insert(pos, e);
    assert forall|a: int, b: int| 0 <= a < b < t.len() implies !comps_lt(
        views(#[trigger] t[b].0@),
        views(#[trigger] t[a].0@),
    ) by {
        if b < pos {
            assert(t[a] == s[a] && t[b] == s[b]);
        } else if b == pos {
            assert(t[a] == s[a] && t[b] == e);
        } else if a < pos {
            assert(t[a] == s[a] && t[b] == s[b - 1]);
        } else if a == pos {
            assert(t[a] == e && t[b] == s[b - 1]);
            let x = views(e.0@);
            let p = views(s[pos].0@);
            let q = views(s[b - 1].0@);
            if pos < b - 1 {
                assert(!comps_lt(q, p));
            }
            if p != q {
                lemma_comps_lt_total(p, q);
                lemma_comps_lt_transitive(x, p, q);
            }
            lemma_comps_lt_asymmetric(x, q);
        } else {
            assert(t[a] == s[a - 1] && t[b] == s[b - 1]);
        }
    }
}

/// The items in path order: each is placed before the first one that
/// comes after it, so items with equal paths keep their order.
fn sort_items(v: &Vec<(Vec<Component>, bool, bool)>) -> (r: Vec<(Vec<Component>, bool, bool)>)
    ensures
        items_of(r@) == items_of(v@),
        keys_sorted(r@),
        items_distinct(v@) ==> items_distinct(r@),
{
    let mut out: Vec<(Vec<Component>, bool, bool)> = Vec::new();
    let mut i: usize = 0;
    assert(items_of(out@) =~= items_of(v@.take(0)));
    while i < v.len()
        invariant
            i <= v.len(),
            items_of(out@) == items_of(v@.take(i as int)),
            keys_sorted(out@),
            items_distinct(v@) ==> items_distinct(out@),
        decreases v.len() - i,
    {
        let mut pos: usize = 0;
        let mut stop = false;
        while pos < out.len() && !stop
            invariant
                pos <= out.len(),
                i < v.len(),
                forall|k: int| 0 <= k < pos ==> !comps_lt(views(v@[i as int].0@), views(#[trigger] out@[k].0@)),
                stop ==> pos < out.len() && comps_lt(views(v@[i as int].0@), views(out@[pos as int].0@)),
            decreases out.len() - pos, if stop { 0int } else { 1int },
        {
            if comps_less(v[i].0.as_slice(), out[pos].0.as_slice()) {
                stop = true;
            } else {
                pos = pos + 1;
            }
        }
        let e = (clone_comps(v[i].0.as_slice()), v[i].1, v[i].2);
        let ghost before = out@;
        out.insert(pos, e);
        proof {
            assert(views(e.0@) == views(v@[i as int].0@));
            lemma_insert_sorted_item(before, pos as int, e);
            if items_distinct(v@) {
                assert(!items_of(before).contains(item_of(e))) by {
                    if items_of(before).contains(item_of(e)) {
                        let j = choose|j: int| 0 <= j < i && item_of(v@.take(i as int)[j]) == item_of(e);
                        assert(v@.take(i as int)[j] == v@[j]);
                    }
                }
                lemma_insert_distinct(before, pos as int, e);
            }
            lemma_items_insert(before, pos as int, e);
            assert(item_of(e) == item_of(v@[i as int]));
            assert(v@.take(i as int + 1) =~= v@.take(i as int).push(v@[i as int]));
            let t = v@.take(i as int);
            let u = v@.take(i as int + 1);
            assert(items_of(u) =~= items_of(t).insert(item_of(v@[i as int]))) by {
                assert forall|x| items_of(u).contains(x) implies items_of(t).insert(item_of(v@[i as int])).contains(x) by {
                    let k = choose|k: int| 0 <= k < u.len() && item_of(u[k]) == x;
                    if k < i {
                        assert(item_of(t[k]) == x);
                    }
                }
                assert forall|x| items_of(t).insert(item_of(v@[i as int])).contains(x) implies items_of(u).contains(x) by {
                    if x == item_of(v@[i as int]) {
                        assert(item_of(u[i as int]) == x);
                    } else {
                        let k = choose|k: int| 0 <= k < t.len() && item_of(t[k]) == x;
                        assert(item_of(u[k]) == x);
                    }
                }
            }
        }
        i = i + 1;
    }
    assert(v@.take(i as int) =~= v@);
    out
}

impl MockSystem {
    /// Resolve a path against the current directory.
    fn resolved(&self, path: &str) -> (r: String)
        ensures
            r@ == (if is_absolute(path@) { path@ } else { join(self.cwd(), path@) }),
    {
        if path_is_absolute(path) {
            owned(path)
        } else {
            path_join(self.current_dir.as_str(), path)
        }
    }
}

impl System for MockSystem {
    type TempDir = MockTempDir;

    open spec fn keeps_model() -> bool {
        true
    }

    open spec fn fs_files(&self) -> Map<Seq<Comp>, Seq<u8>> {
        self.files()
    }

    open spec fn fs_dirs(&self) -> Set<Seq<Comp>> {
        self.dirs()
    }

    open spec fn fs_env(&self) -> Map<Seq<char>, Seq<char>> {
        self.env()
    }

    fn env_var(&self, key: &str) -> (r: Result<String, EnvVarError>)
        ensures
            match r {
                Ok(v) => self.env().contains_key(key@) && v@ == self.env()[key@],
                Err(e) => !self.env().contains_key(key@) && e == EnvVarError::NotPresent,
            },
    {
        match find_env(&self.env_vars, key) {
            Some(i) => Ok(self.env_vars[i].1.clone()),
            None => Err(EnvVarError::NotPresent),
        }
    }

    fn current_dir(&self) -> (r: Result<String, IoError>)
        ensures
            r matches Ok(d) && d@ == self.cwd(),
    {
        Ok(self.current_dir.clone())
    }

    fn read_to_string(&self, path: &str) -> (r: Result<String, IoError>)
        ensures
            !self.files().contains_key(components(path@)) ==> (r matches Err(e) && e.kind
                == IoErrorKind::NotFound && e.message@ == "File not found: "@ + path@),
            self.files().contains_key(components(path@)) ==> match utf8_decoded(
                self.files()[components(path@)],
            ) {
                Ok(text) => r matches Ok(s) && s@ == text,
                Err(m) => r matches Err(e) && e.kind == IoErrorKind::InvalidData && e.message@
                    == "Invalid UTF-8: "@ + m,
            },
            self.files().contains_key(components(path@)) && is_ascii_bytes(self.files()[components(path@)])
                ==> (r matches Ok(s) && s@ == ascii_chars(self.files()[components(path@)])),
    {
        let key = path_components(path);
        match find_file(&self.files, key.as_slice()) {
            Some(i) => {
                let bytes = copy_bytes(self.files[i].1.as_slice());
                match decode_utf8(bytes) {
                    Ok(text) => Ok(text),
                    Err(m) => Err(
                        IoError::new(IoErrorKind::InvalidData, concat("Invalid UTF-8: ", m.as_str())),
                    ),
                }
            },
            None => Err(IoError::new(IoErrorKind::NotFound, concat("File not found: ", path))),
        }
    }

    fn read(&self, path: &str) -> (r: Result<Vec<u8>, IoError>)
        ensures
            self.files().contains_key(components(path@)) ==> (r matches Ok(b) && b@
                == self.files()[components(path@)]),
            !self.files().contains_key(components(path@)) ==> (r matches Err(e) && e.kind
                == IoErrorKind::NotFound && e.message@ == "File not found: "@ + path@),
    {
        let key = path_components(path);
        match find_file(&self.files, key.as_slice()) {
            Some(i) => Ok(copy_bytes(self.files[i].1.as_slice())),
            None => Err(IoError::new(IoErrorKind::NotFound, concat("File not found: ", path))),
        }
    }

    fn write(&mut self, path: &str, contents: &[u8]) -> (r: Result<(), IoError>)
        ensures
            match parent_key(components(path@)) {
                Some(p) if !old(self).dirs().contains(p) => r matches Err(e) && e.kind
                    == IoErrorKind::NotFound && e.message@ == "Parent directory does not exist: "@
                    + render(p) && final(self).files() == old(self).files(),
                _ => r is Ok && final(self).files() == old(self).files().insert(
                    components(path@),
                    contents@,
                ),
            },
            final(self).dirs() == old(self).dirs(),
            final(self).env() == old(self).env(),
            final(self).cwd() == old(self).cwd(),
            final(self).temp_count() == old(self).temp_count(),
    {
        let key = path_components(path);
        if let Some(p) = parent_comps(key.as_slice()) {
            if !contains_dir(&self.dirs, p.as_slice()) {
                let shown = render_components(p.as_slice());
                return Err(
                    IoError::new(
                        IoErrorKind::NotFound,
                        concat("Parent directory does not exist: ", shown.as_str()),
                    ),
                );
            }
        }
        let bytes = copy_bytes(contents);
        insert_file_entry(&mut self.files, key, bytes);
        Ok(())
    }

    fn create_dir_all(&mut self, path: &str) -> (r: Result<(), IoError>)
        ensures
            r is Ok,
            final(self).dirs() == old(self).dirs().union(with_ancestors(components(path@))),
            final(self).files() == old(self).files(),
            final(self).env() == old(self).env(),
            final(self).cwd() == old(self).cwd(),
            final(self).temp_count() == old(self).temp_count(),
    {
        let key = path_components(path);
        ensure_parent_dirs(&mut self.dirs, key.as_slice());
        proof {
            let cs = components(path@);
            assert(cs.subrange(0, cs.len() as int) =~= cs);
            assert(with_ancestors(cs).contains(cs));
        }
        Ok(())
    }

    fn remove_dir_all(&mut self, path: &str) -> (r: Result<(), IoError>)
        ensures
            r is Ok,
            final(self).dirs() == old(self).dirs().filter(
                |d: Seq<Comp>| !comps_prefix(components(path@), d),
            ),
            final(self).files().dom() == old(self).files().dom().filter(
                |f: Seq<Comp>| !comps_prefix(components(path@), f),
            ),
            forall|f: Seq<Comp>| #[trigger]
                final(self).files().contains_key(f) ==> final(self).files()[f] == old(
                    self,
                ).files()[f],
            final(self).env() == old(self).env(),
            final(self).cwd() == old(self).cwd(),
            final(self).temp_count() == old(self).temp_count(),
    {
        let key = path_components(path);
        remove_dirs_under(&mut self.dirs, key.as_slice());
        remove_files_under(&mut self.files, key.as_slice());
        Ok(())
    }

    fn remove_file(&mut self, path: &str) -> (r: Result<(), IoError>)
        ensures
            old(self).files().contains_key(components(path@)) ==> r is Ok && final(self).files()
                == old(self).files().remove(components(path@)),
            !old(self).files().contains_key(components(path@)) ==> (r matches Err(e) && e.kind
                == IoErrorKind::NotFound && e.message@ == "File not found: "@ + path@)
                && final(self).files() == old(self).files(),
            final(self).dirs() == old(self).dirs(),
            final(self).env() == old(self).env(),
            final(self).cwd() == old(self).cwd(),
            final(self).temp_count() == old(self).temp_count(),
    {
        let key = path_components(path);
        if find_file(&self.files, key.as_slice()).is_none() {
            return Err(IoError::new(IoErrorKind::NotFound, concat("File not found: ", path)));
        }
        remove_file_entry(&mut self.files, key.as_slice());
        Ok(())
    }

    fn copy(&mut self, from: &str, to: &str) -> (r: Result<u64, IoError>)
        ensures
            !old(self).files().contains_key(components(from@)) ==> (r matches Err(e) && e.kind
                == IoErrorKind::NotFound && e.message@ == "Source file not found: "@ + from@)
                && final(self).files() == old(self).files(),
            old(self).files().contains_key(components(from@)) ==> match parent_key(
                components(to@),
            ) {
                Some(p) if !old(self).dirs().contains(p) => r matches Err(e) && e.kind
                    == IoErrorKind::NotFound && e.message@ == "Parent directory does not exist: "@
                    + render(p) && final(self).files() == old(self).files(),
                _ => r matches Ok(n) && n == old(self).files()[components(from@)].len()
                    && final(self).files() == old(self).files().insert(
                    components(to@),
                    old(self).files()[components(from@)],
                ),
            },
            final(self).dirs() == old(self).dirs(),
            final(self).env() == old(self).env(),
            final(self).cwd() == old(self).cwd(),
            final(self).temp_count() == old(self).temp_count(),
    {
        let key = path_components(from);
        let contents = match find_file(&self.files, key.as_slice()) {
            Some(i) => copy_bytes(self.files[i].1.as_slice()),
            None => {
                return Err(
                    IoError::new(IoErrorKind::NotFound, concat("Source file not found: ", from)),
                );
            },
        };
        let size = contents.len() as u64;
        self.write(to, contents.as_slice())?;
        Ok(size)
    }

    fn path_exists(&self, path: &str) -> (r: Result<bool, IoError>)
        ensures
            r matches Ok(b) && b == (self.files().contains_key(components(path@))
                || self.dirs().contains(components(path@))),
    {
        let key = path_components(path);
        Ok(find_file(&self.files, key.as_slice()).is_some() || contains_dir(&self.dirs, key.as_slice()))
    }

    fn is_file(&self, path: &str) -> (r: Result<bool, IoError>)
        ensures
            r matches Ok(b) && b == self.files().contains_key(components(path@)),
    {
        let key = path_components(path);
        Ok(find_file(&self.files, key.as_slice()).is_some())
    }

    fn is_dir(&self, path: &str) -> (r: Result<bool, IoError>)
        ensures
            r matches Ok(b) && b == self.dirs().contains(components(path@)),
    {
        let key = path_components(path);
        Ok(contains_dir(&self.dirs, key.as_slice()))
    }

    fn file_len(&self, path: &str) -> (r: Result<u64, IoError>)
        ensures
            self.files().contains_key(components(path@)) ==> (r matches Ok(n) && n
                == self.files()[components(path@)].len()),
            !self.files().contains_key(components(path@)) && self.dirs().contains(
                components(path@),
            ) ==> (r matches Ok(n) && n == 0),
            !self.files().contains_key(components(path@)) && !self.dirs().contains(
                components(path@),
            ) ==> (r matches Err(e) && e.kind == IoErrorKind::NotFound && e.message@
                == "Path not found: "@ + path@),
    {
        let key = path_components(path);
        match find_file(&self.files, key.as_slice()) {
            Some(i) => Ok(self.files[i].1.len() as u64),
            None => {
                if contains_dir(&self.dirs, key.as_slice()) {
                    Ok(0)
                } else {
                    Err(IoError::new(IoErrorKind::NotFound, concat("Path not found: ", path)))
                }
            },
        }
    }

    fn canonicalize(&self, path: &str) -> (r: Result<String, IoError>)
        ensures
            r matches Ok(p) && p@ == (if is_absolute(path@) {
                path@
            } else {
                join(self.cwd(), path@)
            }),
    {
        Ok(self.resolved(path))
    }

    fn read_dir(&self, path: &str) -> (r: Result<Vec<String>, IoError>)
        ensures
            !self.dirs().contains(components(path@)) ==> (r matches Err(e) && e.kind
                == IoErrorKind::NotFound && e.message@ == "Directory not found: "@ + path@),
            self.dirs().contains(components(path@)) ==> (r matches Ok(v) && listing_matches(
                v@,
                children_rendered(self.files(), self.dirs(), components(path@)),
            )),
    {
        let key = path_components(path);
        assert(views(key@) =~= components(path@));
        if !contains_dir(&self.dirs, key.as_slice()) {
            return Err(IoError::new(IoErrorKind::NotFound, concat("Directory not found: ", path)));
        }
        let ghost kids = children(self.files(), self.dirs(), views(key@));
        let ghost shown = children_rendered(self.files(), self.dirs(), views(key@));
        let mut out: Vec<String> = Vec::new();
        let mut i: usize = 0;
        while i < self.files.len()
            invariant
                i <= self.files.len(),
                kids == children(self.files(), self.dirs(), views(key@)),
                shown == children_rendered(self.files(), self.dirs(), views(key@)),
                forall|j: int| 0 <= j < out.len() ==> shown.contains(#[trigger] out@[j]@),
                forall|k: Seq<Comp>|
                    kids.contains(k) && files_map(self.files@.take(i as int)).contains_key(k)
                        ==> exists|j: int| 0 <= j < out.len() && #[trigger] out@[j]@ == render(k),
            decreases self.files.len() - i,
        {
            assert(self.files@.take(i as int + 1).drop_last() =~= self.files@.take(i as int));
            proof {
                lemma_files_prefix(self.files@, i as int + 1);
            }
            let f = &self.files[i].0;
            let ghost before = out@;
            let is_child = match parent_comps(f.as_slice()) {
                Some(p) => comps_equal(p.as_slice(), key.as_slice()),
                None => false,
            };
            if is_child {
                out.push(render_components(f.as_slice()));
                proof {
                    assert(files_map(self.files@).contains_key(views(f@)));
                    assert(kids.contains(views(f@)));
                    assert(shown.contains(render(views(f@))));
                }
            }
            proof {
                assert forall|k: Seq<Comp>|
                    kids.contains(k) && files_map(self.files@.take(i as int + 1)).contains_key(k)
                    implies exists|j: int| 0 <= j < out.len() && #[trigger] out@[j]@ == render(k) by {
                    if k == views(f@) {
                        assert(out@[out.len() - 1]@ == render(k));
                    } else {
                        let j = choose|j: int| 0 <= j < before.len() && #[trigger] before[j]@ == render(k);
                        assert(out@[j] == before[j]);
                    }
                }
                assert forall|j: int| 0 <= j < out.len() implies shown.contains(#[trigger] out@[j]@) by {
                    if j < before.len() {
                        assert(out@[j] == before[j]);
                    }
                }
            }
            i = i + 1;
        }
        assert(self.files@.take(i as int) =~= self.files@);
        let mut i: usize = 0;
        while i < self.dirs.len()
            invariant
                i <= self.dirs.len(),
                kids == children(self.files(), self.dirs(), views(key@)),
                shown == children_rendered(self.files(), self.dirs(), views(key@)),
                forall|j: int| 0 <= j < out.len() ==> shown.contains(#[trigger] out@[j]@),
                forall|k: Seq<Comp>|
                    kids.contains(k) && (self.files().contains_key(k) || dirs_set(
                        self.dirs@.take(i as int),
                    ).contains(k)) ==> exists|j: int|
                        0 <= j < out.len() && #[trigger] out@[j]@ == render(k),
            decreases self.dirs.len() - i,
        {
            assert(self.dirs@.take(i as int + 1).drop_last() =~= self.dirs@.take(i as int));
            proof {
                lemma_dirs_prefix(self.dirs@, i as int + 1);
            }
            let d = &self.dirs[i];
            let ghost before = out@;
            let is_child = match parent_comps(d.as_slice()) {
                Some(p) => comps_equal(p.as_slice(), key.as_slice()) && !comps_equal(
                    d.as_slice(),
                    key.as_slice(),
                ),
                None => false,
            };
            if is_child {
                out.push(render_components(d.as_slice()));
                proof {
                    assert(dirs_set(self.dirs@).contains(views(d@)));
                    assert(kids.contains(views(d@)));
                    assert(shown.contains(render(views(d@))));
                }
            }
            proof {
                assert forall|k: Seq<Comp>|
                    kids.contains(k) && (self.files().contains_key(k) || dirs_set(
                        self.dirs@.take(i as int + 1),
                    ).contains(k))
                    implies exists|j: int| 0 <= j < out.len() && #[trigger] out@[j]@ == render(k) by {
                    if k == views(d@) && !self.files().contains_key(k) && !dirs_set(self.dirs@.take(i as int)).contains(k) {
                        assert(out@[out.len() - 1]@ == render(k));
                    } else {
                        let j = choose|j: int| 0 <= j < before.len() && #[trigger] before[j]@ == render(k);
                        assert(out@[j] == before[j]);
                    }
                }
                assert forall|j: int| 0 <= j < out.len() implies shown.contains(#[trigger] out@[j]@) by {
                    if j < before.len() {
                        assert(out@[j] == before[j]);
                    }
                }
            }
            i = i + 1;
        }
        assert(self.dirs@.take(i as int) =~= self.dirs@);
        proof {
            assert forall|p: Seq<char>| shown.contains(p) implies exists|j: int|
                0 <= j < out.len() && #[trigger] out@[j]@ == p by {
                let k = choose|k: Seq<Comp>| kids.contains(k) && p == render(k);
                assert(kids.contains(k) && (self.files().contains_key(k) || dirs_set(self.dirs@).contains(k)));
            }
            assert(listing_matches(out@, shown));
        }
        Ok(out)
    }

    fn walk_dir(&self, path: &str, follow_links: bool, hidden: bool) -> (r: Result<
        Vec<WalkEntry>,
        IoError,
    >)
        ensures
            !self.dirs().contains(components(path@)) ==> (r matches Err(e) && e.kind
                == IoErrorKind::NotFound && e.message@ == "Directory not found: "@ + path@),
            self.dirs().contains(components(path@)) ==> (r matches Ok(v) && walk_matches(
                v@,
                walk_rendered(self.files(), self.dirs(), components(path@)),
            ) && walk_sorted(v@)),
            self.dirs().contains(components(path@)) && files_dirs_disjoint(self.files(), self.dirs()) ==> (r matches Ok(
                v,
            ) && walk_strictly_sorted(v@)),
    {
        self.walk_all(path, follow_links)
    }

    fn walk_all(&self, path: &str, follow_links: bool) -> (r: Result<Vec<WalkEntry>, IoError>)
        ensures
            !self.dirs().contains(components(path@)) ==> (r matches Err(e) && e.kind
                == IoErrorKind::NotFound && e.message@ == "Directory not found: "@ + path@),
            self.dirs().contains(components(path@)) ==> (r matches Ok(v) && walk_matches(
                v@,
                walk_rendered(self.files(), self.dirs(), components(path@)),
            ) && walk_sorted(v@)),
            self.dirs().contains(components(path@)) && files_dirs_disjoint(self.files(), self.dirs()) ==> (r matches Ok(
                v,
            ) && walk_strictly_sorted(v@)),
    {
        let key = path_components(path);
        assert(views(key@) =~= components(path@));
        if !contains_dir(&self.dirs, key.as_slice()) {
            return Err(IoError::new(IoErrorKind::NotFound, concat("Directory not found: ", path)));
        }
        let ghost items = walk_items(self.files(), self.dirs(), views(key@));
        let walked = self.walk_keys(key.as_slice());
        let unsorted = dedup_items(&walked);
        let sorted = sort_items(&unsorted);
        proof {
            assert(items_of(walked@) =~= items) by {
                assert forall|x| items.contains(x) implies items_of(walked@).contains(x) by {
                    let i = choose|i: int| 0 <= i < walked@.len() && (views(#[trigger] walked@[i].0@), walked@[i].1, walked@[i].2) == x;
                    assert(item_of(walked@[i]) == x);
                }
                assert forall|x| items_of(walked@).contains(x) implies items.contains(x) by {
                    let i = choose|i: int| 0 <= i < walked@.len() && item_of(walked@[i]) == x;
                    assert(items.contains((views(walked@[i].0@), walked@[i].1, walked@[i].2)));
                }
            }
        }
        assert(items_of(unsorted@) == items);
        let ghost shown = walk_rendered(self.files(), self.dirs(), views(key@));
        let mut out: Vec<WalkEntry> = Vec::new();
        let mut i: usize = 0;
        while i < sorted.len()
            invariant
                i <= sorted.len(),
                items_of(sorted@) == items,
                items == walk_items(self.files(), self.dirs(), views(key@)),
                shown == walk_rendered(self.files(), self.dirs(), views(key@)),
                out.len() == i,
                forall|j: int|
                    0 <= j < i ==> entry_view(#[trigger] out@[j]) == (
                        render(views(sorted@[j].0@)),
                        sorted@[j].1,
                        sorted@[j].2,
                    ),
            decreases sorted.len() - i,
        {
            let e = WalkEntry {
                path: render_components(sorted[i].0.as_slice()),
                is_file: sorted[i].1,
                is_dir: sorted[i].2,
            };
            out.push(e);
            i = i + 1;
        }
        proof {
            assert forall|j: int| 0 <= j < out.len() implies shown.contains(entry_view(#[trigger] out@[j])) by {
                let y = item_of(sorted@[j]);
                assert(items_of(sorted@).contains(y));
                assert(items.contains(y));
                assert(entry_view(out@[j]) == (render(y.0), y.1, y.2));
            }
            assert forall|x: (Seq<char>, bool, bool)| shown.contains(x) implies exists|j: int|
                0 <= j < out.len() && entry_view(#[trigger] out@[j]) == x by {
                let y = choose|y: (Seq<Comp>, bool, bool)| items.contains(y) && x == (render(y.0), y.1, y.2);
                let j = choose|j: int| 0 <= j < sorted@.len() && item_of(sorted@[j]) == y;
                assert(entry_view(out@[j]) == x);
            }
            assert(walk_matches(out@, shown));
            let keys = sorted@.map_values(|x: (Vec<Component>, bool, bool)| views(x.0@));
            assert forall|a: int, b: int| 0 <= a < b < keys.len() implies !comps_lt(
                #[trigger] keys[b],
                #[trigger] keys[a],
            ) by {
                assert(keys[a] == views(sorted@[a].0@));
                assert(keys[b] == views(sorted@[b].0@));
            }
            assert(keys.len() == out@.len());
            assert forall|j: int| 0 <= j < out@.len() implies #[trigger] out@[j].path@ == render(keys[j]) by {
                assert(entry_view(out@[j]) == (render(views(sorted@[j].0@)), sorted@[j].1, sorted@[j].2));
                assert(keys[j] == views(sorted@[j].0@));
            }
            assert(rendered_in_order(out@, keys));
            if files_dirs_disjoint(self.files(), self.dirs()) {
                assert forall|a: int, b: int| 0 <= a < b < keys.len() implies comps_lt(
                    #[trigger] keys[a],
                    #[trigger] keys[b],
                ) by {
                    let x = item_of(sorted@[a]);
                    let y = item_of(sorted@[b]);
                    assert(keys[a] == x.0 && keys[b] == y.0);
                    assert(items_of(sorted@).contains(x));
                    assert(items_of(sorted@).contains(y));
                    assert(items.contains(x) && items.contains(y));
                    if x.0 == y.0 {
                        assert(!(self.files().contains_key(x.0) && self.dirs().contains(x.0)));
                        assert(x == y);
                        assert(false);
                    }
                    assert(!comps_lt(keys[b], keys[a]));
                    lemma_comps_lt_total(keys[a], keys[b]);
                }
                assert(rendered_strictly_in_order(out@, keys));
            }
        }
        Ok(out)
    }

    fn create_temp_dir(&mut self) -> (r: Result<MockTempDir, IoError>)
        ensures
            r matches Ok(t) && t.dir() == "/tmp/mock_"@ + decimal(old(self).temp_count() as nat)
                && final(self).dirs() == old(self).dirs().union(with_ancestors(components(t.dir())))
                && final(self).temp_count() == old(self).temp_count().wrapping_add(1),
            final(self).files() == old(self).files(),
            final(self).env() == old(self).env(),
            final(self).cwd() == old(self).cwd(),
    {
        let id = self.temp_counter;
        self.temp_counter = self.temp_counter.wrapping_add(1);
        let digits = u64_to_decimal(id);
        let path = concat("/tmp/mock_", digits.as_str());
        let key = path_components(path.as_str());
        ensure_parent_dirs(&mut self.dirs, key.as_slice());
        Ok(MockTempDir { path })
    }
}

/// Remove the directories at or below a path.
fn remove_dirs_under(dirs: &mut Vec<Vec<Component>>, key: &[Component])
    ensures
        dirs_set(final(dirs)@) == dirs_set(old(dirs)@).filter(|d: Seq<Comp>| !comps_prefix(views(key@), d)),
{
    let ghost keep = |d: Seq<Comp>| !comps_prefix(views(key@), d);
    let mut out: Vec<Vec<Component>> = Vec::new();
    let mut i: usize = 0;
    while i < dirs.len()
        invariant
            i <= dirs.len(),
            keep == (|d: Seq<Comp>| !comps_prefix(views(key@), d)),
            dirs_set(out@) == dirs_set(dirs@.take(i as int)).filter(keep),
        decreases dirs.len() - i,
    {
        assert(dirs@.take(i as int + 1).drop_last() =~= dirs@.take(i as int));
        let ghost prev = dirs_set(dirs@.take(i as int));
        let ghost k = views(dirs@[i as int]@);
        if !comps_start_with(dirs[i].as_slice(), key) {
            let d = clone_comps(dirs[i].as_slice());
            let ghost before = out@;
            out.push(d);
            assert(out@.drop_last() =~= before);
            assert(prev.insert(k).filter(keep) =~= prev.filter(keep).insert(k));
        } else {
            assert(prev.insert(k).filter(keep) =~= prev.filter(keep));
        }
        i = i + 1;
    }
    assert(dirs@.take(i as int) =~= dirs@);
    *dirs = out;
}

/// Remove the files at or below a path.
fn remove_files_under(files: &mut Vec<(Vec<Component>, Vec<u8>)>, key: &[Component])
    ensures
        files_map(final(files)@) == files_map(old(files)@).restrict(
            files_map(old(files)@).dom().filter(|f: Seq<Comp>| !comps_prefix(views(key@), f)),
        ),
{
    let ghost keep = |f: Seq<Comp>| !comps_prefix(views(key@), f);
    let mut out: Vec<(Vec<Component>, Vec<u8>)> = Vec::new();
    let mut i: usize = 0;
    while i < files.len()
        invariant
            i <= files.len(),
            keep == (|f: Seq<Comp>| !comps_prefix(views(key@), f)),
            files_map(out@) == files_map(files@.take(i as int)).restrict(
                files_map(files@.take(i as int)).dom().filter(keep),
            ),
        decreases files.len() - i,
    {
        assert(files@.take(i as int + 1).drop_last() =~= files@.take(i as int));
        let ghost prev = files_map(files@.take(i as int));
        let ghost k = views(files@[i as int].0@);
        let ghost v = files@[i as int].1@;
        if !comps_start_with(files[i].0.as_slice(), key) {
            let entry = (clone_comps(files[i].0.as_slice()), files[i].1.clone());
            let ghost before = out@;
            out.push(entry);
            assert(out@.drop_last() =~= before);
            assert(prev.insert(k, v).restrict(prev.insert(k, v).dom().filter(keep)) =~= prev.restrict(
                prev.dom().filter(keep),
            ).insert(k, v));
        } else {
            assert(prev.insert(k, v).restrict(prev.insert(k, v).dom().filter(keep)) =~= prev.restrict(
                prev.dom().filter(keep),
            ));
        }
        i = i + 1;
    }
    assert(files@.take(i as int) =~= files@);
    *files = out;
}

/// Law: after a write that succeeded, reading the path gives back the bytes
/// written, and every other file keeps its contents.
pub proof fn mock_read_after_write(before: MockSystem, after: MockSystem, path: Seq<char>, contents: Seq<u8>)
    requires
        after.files() == before.files().insert(components(path), contents),
    ensures
        after.files().contains_key(components(path)),
        after.files()[components(path)] == contents,
        forall|k: Seq<Comp>|
            #![trigger after.files().contains_key(k)]
            k != components(path) ==> (after.files().contains_key(k) == before.files().contains_key(k))
                && (before.files().contains_key(k) ==> after.files()[k] == before.files()[k]),
{
}

proof fn lemma_segments_not_root(segs: Seq<Seq<char>>, rooted: bool)
    ensures
        forall|i: int|
            0 <= i < comps_of_segments(segs, rooted).len() ==> #[trigger] comps_of_segments(segs, rooted)[i]
                != Comp::RootDir,
    decreases segs.len(),
{
    if segs.len() > 0 {
        lemma_segments_not_root(segs.drop_last(), rooted);
    }
}

/// Law: after `with_file` adds a file, every directory above it exists: each
/// proper leading run of the file's components (not the bare empty run of
/// an absolute path) names a directory.
pub proof fn mock_file_ancestors(before: MockSystem, after: MockSystem, path: Seq<char>, k: Seq<Comp>)
    requires
        match parent_key(components(path)) {
            Some(p) => after.dirs() == before.dirs().union(with_ancestors(p)),
            None => after.dirs() == before.dirs(),
        },
        comps_prefix(k, components(path)),
        k.len() < components(path).len(),
        components(path)[0] == Comp::RootDir ==> k.len() >= 1,
    ensures
        after.dirs().contains(k),
{
    let cs = components(path);
    lemma_segments_not_root(segments(path), is_absolute(path));
    let rest = comps_of_segments(segments(path), is_absolute(path));
    assert(forall|i: int| 1 <= i < cs.len() ==> cs[i] != Comp::RootDir) by {
        if is_absolute(path) {
            assert forall|i: int| 1 <= i < cs.len() implies cs[i] != Comp::RootDir by {
                assert(cs[i] == rest[i - 1]);
            }
        } else {
            assert(cs == rest);
        }
    }
    assert(cs.last() == Comp::RootDir ==> cs.len() == 1);
    let p = cs.drop_last();
    assert(parent_key(cs) == Some(p));
    assert(p.subrange(0, k.len() as int) =~= cs.subrange(0, k.len() as int));
    assert(with_ancestors(p).contains(k));
}

/// Law: removing a directory tree leaves nothing at or below it and keeps
/// everything else.
pub proof fn mock_remove_tree(before: MockSystem, after: MockSystem, path: Seq<char>)
    requires
        after.dirs() == before.dirs().filter(|d: Seq<Comp>| !comps_prefix(components(path), d)),
        after.files().dom() == before.files().dom().filter(|f: Seq<Comp>| !comps_prefix(components(path), f)),
    ensures
        forall|k: Seq<Comp>|
            #![trigger after.dirs().contains(k)]
            comps_prefix(components(path), k) ==> !after.dirs().contains(k),
        forall|k: Seq<Comp>|
            #![trigger after.files().contains_key(k)]
            comps_prefix(components(path), k) ==> !after.files().contains_key(k),
        forall|k: Seq<Comp>|
            #![trigger after.dirs().contains(k)]
            !comps_prefix(components(path), k) ==> after.dirs().contains(k) == before.dirs().contains(k),
        forall|k: Seq<Comp>|
            #![trigger after.files().contains_key(k)]
            !comps_prefix(components(path), k) ==> after.files().contains_key(k) == before.files().contains_key(k),
{
    assert forall|k: Seq<Comp>| comps_prefix(components(path), k) implies !after.files().contains_key(k) by {
        assert(!after.files().dom().contains(k));
    }
    assert forall|k: Seq<Comp>| !comps_prefix(components(path), k) implies after.files().contains_key(k)
        == before.files().contains_key(k) by {
        assert(after.files().dom().contains(k) == before.files().dom().contains(k));
    }
}

impl Default for MockSystem {
    fn default() -> (r: MockSystem)
        ensures
            r.files() == Map::<Seq<Comp>, Seq<u8>>::empty(),
            r.dirs() == Set::<Seq<Comp>>::empty().insert(seq![Comp::RootDir]),
            r.env() == Map::<Seq<char>, Seq<char>>::empty(),
            r.cwd() == "/"@,
    {
        MockSystem::new()
    }
}

} // verus!
