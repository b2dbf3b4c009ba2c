//! Discovery of `.graft.yaml` files in target directories.
//!
//! Every `.graft.yaml` below a target directory is found (the walk follows
//! no symbolic links and includes hidden files); they are ordered by depth,
//! root first, and each knows the closest graft in a directory above it.

use vstd::prelude::*;
use crate::error::{ErrorKind, GraftError, IoError};
use crate::git::repository::io_to_graft;
use crate::path::{components, comps_prefix, file_name, parent, path_components, path_file_name, path_parent, views, Comp};
use crate::system::{System, WalkEntry};
use crate::text::{owned, str_eq};
use crate::utils::path::{path_starts_with, strip_comps};

verus! {

/// A discovered `.graft.yaml` file with its location and hierarchy.
#[derive(Debug)]
pub struct DiscoveredGraft {
    /// Path to the `.graft.yaml` file.
    pub path: String,
    /// Directory containing the file.
    pub directory: String,
    /// Depth below the target directory (0 = the target itself).
    pub depth: usize,
    /// The closest graft in a directory above, for context inheritance.
    pub parent: Option<Box<DiscoveredGraft>>,
}

/// The ancestors of a graft, closest parent first.
pub open spec fn ancestor_chain(g: DiscoveredGraft) -> Seq<DiscoveredGraft>
    decreases g,
{
    match g.parent {
        Some(p) => seq![*p] + ancestor_chain(*p),
        None => Seq::empty(),
    }
}

impl DiscoveredGraft {
    /// A copy of this graft and its ancestors.
    pub fn clone_graft(&self) -> (r: DiscoveredGraft)
        ensures
            r == *self,
        decreases self,
    {
        DiscoveredGraft {
            path: self.path.clone(),
            directory: self.directory.clone(),
            depth: self.depth,
            parent: match &self.parent {
                Some(p) => Some(Box::new(p.clone_graft())),
                None => None,
            },
        }
    }

    /// All ancestors in order (closest parent first).
    pub fn ancestors(&self) -> (r: Vec<&DiscoveredGraft>)
        ensures
            r@.len() == ancestor_chain(*self).len(),
            forall|i: int| 0 <= i < r@.len() ==> *(#[trigger] r@[i]) == ancestor_chain(*self)[i],
        decreases self,
    {
        match &self.parent {
            None => Vec::new(),
            Some(p) => {
                let rest = p.ancestors();
                let mut out: Vec<&DiscoveredGraft> = Vec::new();
                out.push(&**p);
                let mut i: usize = 0;
                while i < rest.len()
                    invariant
                        i <= rest.len(),
                        out@.len() == i + 1,
                        *out@[0] == **p,
                        rest@.len() == ancestor_chain(**p).len(),
                        forall|k: int| 0 <= k < rest@.len() ==> *(#[trigger] rest@[k]) == ancestor_chain(**p)[k],
                        forall|k: int| 1 <= k <= i ==> *(#[trigger] out@[k]) == ancestor_chain(**p)[k - 1],
                    decreases rest.len() - i,
                {
                    out.push(rest[i]);
                    i = i + 1;
                }
                out
            },
        }
    }
}

/// Is `a` a directory strictly above `b` (by components)?
pub open spec fn strictly_above(a: Seq<char>, b: Seq<char>) -> bool {
    comps_prefix(components(a), components(b)) && components(a) != components(b)
}

fn is_strictly_above(a: &str, b: &str) -> (r: bool)
    ensures
        r == strictly_above(a@, b@),
{
    let down = path_starts_with(b, a);
    let up = path_starts_with(a, b);
    proof {
        let ca = components(a@);
        let cb = components(b@);
        if comps_prefix(ca, cb) && comps_prefix(cb, ca) {
            assert(ca =~= cb);
        }
        if ca == cb {
            assert(cb.subrange(0, ca.len() as int) =~= ca);
        }
    }
    down && !up
}

/// The depth of a directory below a base: its components after the base's,
/// or 0 when the base is not above it.
pub open spec fn depth_below(dir: Seq<char>, base: Seq<char>) -> nat {
    match strip_comps(components(dir), components(base)) {
        Some(rest) => rest.len(),
        None => 0,
    }
}

fn depth_below_exec(dir: &str, base: &str) -> (r: usize)
    ensures
        r == depth_below(dir@, base@),
{
    let dc = path_components(dir);
    let bc = path_components(base);
    if path_starts_with(dir, base) {
        dc.len() - bc.len()
    } else {
        0
    }
}

/// A `.graft.yaml` found by the walk: its path, directory and depth.
pub struct Found {
    pub path: String,
    pub directory: String,
    pub depth: usize,
}

/// Insert a found file after every earlier one that is not deeper.
pub open spec fn insert_by_depth(sorted: Seq<Found>, x: Found) -> Seq<Found>
    decreases sorted.len(),
{
    if sorted.len() == 0 {
        seq![x]
    } else if sorted.last().depth <= x.depth {
        sorted.push(x)
    } else {
        insert_by_depth(sorted.drop_last(), x).push(sorted.last())
    }
}

/// The found files ordered by depth, equal depths in walk order.
pub open spec fn sort_by_depth(s: Seq<Found>) -> Seq<Found>
    decreases s.len(),
{
    if s.len() == 0 {
        Seq::empty()
    } else {
        insert_by_depth(sort_by_depth(s.drop_last()), s.last())
    }
}

/// Are the depths non-decreasing?
pub open spec fn depth_sorted(s: Seq<Found>) -> bool {
    forall|i: int, j: int| 0 <= i <= j < s.len() ==> s[i].depth <= s[j].depth
}

proof fn lemma_insert_sorted(sorted: Seq<Found>, x: Found)
    requires
        depth_sorted(sorted),
    ensures
        depth_sorted(insert_by_depth(sorted, x)),
        insert_by_depth(sorted, x).len() == sorted.len() + 1,
        forall|i: int| 0 <= i < insert_by_depth(sorted, x).len() ==> (#[trigger] insert_by_depth(sorted, x)[i]
            == x || sorted.contains(insert_by_depth(sorted, x)[i])),
    decreases sorted.len(),
{
    if sorted.len() > 0 && sorted.last().depth > x.depth {
        let rest = sorted.drop_last();
        assert(depth_sorted(rest));
        lemma_insert_sorted(rest, x);
        let ins = insert_by_depth(rest, x);
        let r = ins.push(sorted.last());
        assert forall|i: int, j: int| 0 <= i <= j < r.len() implies r[i].depth <= r[j].depth by {
            if j == r.len() - 1 && i < j {
                let e = ins[i];
                if e != x {
                    assert(rest.contains(e));
                    let k = choose|k: int| 0 <= k < rest.len() && rest[k] == e;
                    assert(sorted[k] == e);
                }
            }
        }
        assert forall|i: int| 0 <= i < r.len() implies (#[trigger] r[i] == x || sorted.contains(r[i])) by {
            if i < r.len() - 1 {
                if ins[i] != x {
                    let k = choose|k: int| 0 <= k < rest.len() && rest[k] == ins[i];
                    assert(sorted[k] == ins[i]);
                }
            } else {
                assert(sorted[sorted.len() - 1] == r[i]);
            }
        }
    } else if sorted.len() > 0 {
        let r = sorted.push(x);
        assert forall|i: int| 0 <= i < r.len() implies (#[trigger] r[i] == x || sorted.contains(r[i])) by {
            if i < sorted.len() {
                assert(sorted[i] == r[i]);
            }
        }
    }
}

/// Law: the found files come out ordered by depth, root first.
pub proof fn sort_by_depth_sorted(s: Seq<Found>)
    ensures
        depth_sorted(sort_by_depth(s)),
        sort_by_depth(s).len() == s.len(),
    decreases s.len(),
{
    if s.len() > 0 {
        sort_by_depth_sorted(s.drop_last());
        lemma_insert_sorted(sort_by_depth(s.drop_last()), s.last());
    }
}

fn clone_found(f: &Found) -> (r: Found)
    ensures
        r == *f,
{
    Found { path: f.path.clone(), directory: f.directory.clone(), depth: f.depth }
}

/// Insert into a list ordered by depth, after every entry not deeper.
fn insert_found(sorted: &mut Vec<Found>, x: Found)
    ensures
        final(sorted)@ == insert_by_depth(old(sorted)@, x),
    decreases old(sorted)@.len(),
{
    if sorted.len() == 0 {
        sorted.push(x);
        assert(sorted@ =~= seq![x]);
    } else if sorted[sorted.len() - 1].depth <= x.depth {
        sorted.push(x);
    } else {
        let ghost before = sorted@;
        let last = sorted.pop().unwrap();
        assert(sorted@ =~= before.drop_last());
        insert_found(sorted, x);
        sorted.push(last);
    }
}

/// Order found files by depth, keeping walk order among equal depths.
fn sort_found(items: Vec<Found>) -> (r: Vec<Found>)
    ensures
        r@ == sort_by_depth(items@),
{
    let mut out: Vec<Found> = Vec::new();
    let mut i: usize = 0;
    while i < items.len()
        invariant
            i <= items.len(),
            out@ == sort_by_depth(items@.take(i as int)),
        decreases items.len() - i,
    {
        assert(items@.take(i as int + 1).drop_last() =~= items@.take(i as int));
        let x = clone_found(&items[i]);
        insert_found(&mut out, x);
        i = i + 1;
    }
    assert(items@.take(i as int) =~= items@);
    out
}

/// The index of the closest graft (latest first) whose directory is strictly
/// above `dir`, among the first `n`.
pub open spec fn parent_index(fs: Seq<Found>, n: int, dir: Seq<char>) -> Option<int>
    decreases n,
{
    if n <= 0 {
        None
    } else if strictly_above(fs[n - 1].directory@, dir) {
        Some(n - 1)
    } else {
        parent_index(fs, n - 1, dir)
    }
}

/// The grafts built from ordered found files: each one's parent is a copy
/// of the closest earlier graft whose directory is strictly above its own.
pub open spec fn hierarchy_ok(fs: Seq<Found>, gs: Seq<DiscoveredGraft>) -> bool {
    &&& gs.len() == fs.len()
    &&& forall|i: int|
        0 <= i < gs.len() ==> {
            &&& (#[trigger] gs[i]).path == fs[i].path
            &&& gs[i].directory == fs[i].directory
            &&& gs[i].depth == fs[i].depth
            &&& gs[i].parent == match parent_index(fs, i, fs[i].directory@) {
                Some(j) => Some(Box::new(gs[j])),
                None => None::<Box<DiscoveredGraft>>,
            }
        }
}

/// Find the parent graft for a directory: the closest earlier graft whose
/// directory is strictly above it.
fn find_parent_graft(grafts: &Vec<DiscoveredGraft>, fs: Ghost<Seq<Found>>, directory: &str) -> (r: Option<
    Box<DiscoveredGraft>,
>)
    requires
        grafts@.len() <= fs@.len(),
        forall|i: int| 0 <= i < grafts@.len() ==> (#[trigger] grafts@[i]).directory == fs@[i].directory,
    ensures
        r == match parent_index(fs@, grafts@.len() as int, directory@) {
            Some(j) => Some(Box::new(grafts@[j])),
            None => None::<Box<DiscoveredGraft>>,
        },
{
    let mut k: usize = grafts.len();
    while k > 0
        invariant
            k <= grafts@.len(),
            grafts@.len() <= fs@.len(),
            forall|i: int| 0 <= i < grafts@.len() ==> (#[trigger] grafts@[i]).directory == fs@[i].directory,
            parent_index(fs@, grafts@.len() as int, directory@) == parent_index(fs@, k as int, directory@),
        decreases k,
    {
        let g = &grafts[k - 1];
        if is_strictly_above(g.directory.as_str(), directory) {
            return Some(Box::new(g.clone_graft()));
        }
        k = k - 1;
    }
    None
}

/// Build the hierarchy from ordered found files.
fn build_hierarchy(fs: Vec<Found>) -> (r: Vec<DiscoveredGraft>)
    ensures
        hierarchy_ok(fs@, r@),
{
    let mut grafts: Vec<DiscoveredGraft> = Vec::new();
    let mut i: usize = 0;
    while i < fs.len()
        invariant
            i <= fs.len(),
            grafts@.len() == i,
            forall|k: int|
                0 <= k < i ==> {
                    &&& (#[trigger] grafts@[k]).path == fs@[k].path
                    &&& grafts@[k].directory == fs@[k].directory
                    &&& grafts@[k].depth == fs@[k].depth
                    &&& grafts@[k].parent == match parent_index(fs@, k, fs@[k].directory@) {
                        Some(j) => Some(Box::new(grafts@[j])),
                        None => None::<Box<DiscoveredGraft>>,
                    }
                },
        decreases fs.len() - i,
    {
        let parent = find_parent_graft(&grafts, Ghost(fs@), fs[i].directory.as_str());
        let g = DiscoveredGraft {
            path: fs[i].path.clone(),
            directory: fs[i].directory.clone(),
            depth: fs[i].depth,
            parent,
        };
        let ghost before = grafts@;
        grafts.push(g);
        proof {
            assert forall|k: int| 0 <= k < i implies (#[trigger] grafts@[k]).parent == match parent_index(
                fs@,
                k,
                fs@[k].directory@,
            ) {
                Some(j) => Some(Box::new(grafts@[j])),
                None => None::<Box<DiscoveredGraft>>,
            } by {
                lemma_parent_index_below(fs@, k, fs@[k].directory@);
                assert(grafts@[k] == before[k]);
                match parent_index(fs@, k, fs@[k].directory@) {
                    Some(j) => {
                        assert(grafts@[j] == before[j]);
                    },
                    None => {},
                }
            }
            lemma_parent_index_below(fs@, i as int, fs@[i as int].directory@);
            assert(grafts@[i as int] == g);
            match parent_index(fs@, i as int, fs@[i as int].directory@) {
                Some(j) => {
                    assert(grafts@[j] == before[j]);
                },
                None => {},
            }
        }
        i = i + 1;
    }
    grafts
}

proof fn lemma_parent_index_below(fs: Seq<Found>, n: int, dir: Seq<char>)
    ensures
        parent_index(fs, n, dir) matches Some(j) ==> 0 <= j < n && strictly_above(fs[j].directory@, dir),
    decreases n,
{
    if n > 0 {
        lemma_parent_index_below(fs, n - 1, dir);
    }
}

/// Is a walk entry a `.graft.yaml` file?
pub open spec fn is_graft_entry(e: WalkEntry) -> bool {
    e.is_file && file_name(e.path@) == Some(".graft.yaml"@)
}

/// A found file as plain values: path, directory and depth.
pub open spec fn found_views(fs: Seq<Found>) -> Seq<(Seq<char>, Seq<char>, nat)> {
    fs.map_values(|f: Found| (f.path@, f.directory@, f.depth as nat))
}

/// The `.graft.yaml` files of a walk below `base`, in walk order, each with
/// its directory and its depth below `base`; `None` when one of them has no
/// parent directory.
pub open spec fn walk_found(es: Seq<WalkEntry>, base: Seq<char>) -> Option<Seq<(Seq<char>, Seq<char>, nat)>>
    decreases es.len(),
{
    if es.len() == 0 {
        Some(Seq::empty())
    } else {
        match walk_found(es.drop_last(), base) {
            None => None,
            Some(prev) => {
                let e = es.last();
                if is_graft_entry(e) {
                    match parent(e.path@) {
                        Some(d) => Some(prev.push((e.path@, d, depth_below(d, base)))),
                        None => None,
                    }
                } else {
                    Some(prev)
                }
            },
        }
    }
}

/// The grafts made of a walk below `base`: the `.graft.yaml` files found,
/// ordered by depth (equal depths in walk order), each with the closest
/// earlier graft strictly above it as its parent.
pub open spec fn grafts_of_walk(es: Seq<WalkEntry>, base: Seq<char>, gs: Seq<DiscoveredGraft>) -> bool {
    exists|fs: Seq<Found>|
        walk_found(es, base) == Some(#[trigger] found_views(fs)) && hierarchy_ok(sort_by_depth(fs), gs)
}

/// The message of a `.graft.yaml` without a parent directory.
pub open spec fn no_parent_message() -> Seq<char> {
    "Failed to get parent directory of .graft.yaml"@
}

proof fn lemma_walk_found_prefix(es: Seq<WalkEntry>, base: Seq<char>, i: int)
    requires
        0 <= i <= es.len(),
        walk_found(es.take(i), base) is None,
    ensures
        walk_found(es, base) is None,
    decreases es.len() - i,
{
    if i < es.len() {
        let longer = es.take(i + 1);
        assert(longer.drop_last() =~= es.take(i));
        lemma_walk_found_prefix(es, base, i + 1);
    } else {
        assert(es.take(i) =~= es);
    }
}

/// The grafts of a walk below `base` (what `walk_dir` gave for it): every
/// `.graft.yaml` file among the entries, ordered by depth, root first, each
/// with its parent graft.
pub fn grafts_from_walk(entries: &[WalkEntry], base: &str) -> (r: Result<Vec<DiscoveredGraft>, GraftError>)
    ensures
        match walk_found(entries@, base@) {
            None => r matches Err(e) && e.is(ErrorKind::Other, no_parent_message()),
            Some(_) => r matches Ok(gs) && grafts_of_walk(entries@, base@, gs@),
        },
        r matches Ok(gs) ==> forall|i: int, j: int|
            0 <= i <= j < gs@.len() ==> (#[trigger] gs@[i]).depth <= (#[trigger] gs@[j]).depth,
        r matches Ok(gs) ==> forall|i: int|
            0 <= i < gs@.len() ==> file_name((#[trigger] gs@[i]).path@) == Some(".graft.yaml"@),
        r matches Ok(gs) ==> forall|i: int|
            0 <= i < gs@.len() && (#[trigger] gs@[i]).parent is Some ==> strictly_above(
                gs@[i].parent->Some_0.directory@,
                gs@[i].directory@,
            ),
{
    let mut found: Vec<Found> = Vec::new();
    let mut i: usize = 0;
    assert(entries@.take(0) =~= Seq::<WalkEntry>::empty());
    assert(found_views(found@) =~= Seq::<(Seq<char>, Seq<char>, nat)>::empty());
    while i < entries.len()
        invariant
            i <= entries.len(),
            walk_found(entries@.take(i as int), base@) == Some(found_views(found@)),
            forall|k: int| 0 <= k < found@.len() ==> file_name((#[trigger] found@[k]).path@) == Some(".graft.yaml"@),
        decreases entries.len() - i,
    {
        let entry = &entries[i];
        let ghost before = found@;
        proof {
            assert(entries@.take(i as int + 1).drop_last() =~= entries@.take(i as int));
            assert(entries@.take(i as int + 1).last() == entries@[i as int]);
        }
        let mut is_graft = false;
        if entry.is_file {
            if let Some(name) = path_file_name(entry.path.as_str()) {
                if str_eq(name.as_str(), ".graft.yaml") {
                    is_graft = true;
                }
            }
        }
        if is_graft {
            let directory = match path_parent(entry.path.as_str()) {
                Some(d) => d,
                None => {
                    proof {
                        lemma_walk_found_prefix(entries@, base@, i as int + 1);
                    }
                    return Err(GraftError::other(owned("Failed to get parent directory of .graft.yaml")));
                },
            };
            let depth = depth_below_exec(directory.as_str(), base);
            found.push(Found { path: entry.path.clone(), directory, depth });
            assert(found_views(found@) =~= found_views(before).push(
                (entries@[i as int].path@, directory@, depth as nat),
            ));
        }
        i = i + 1;
    }
    assert(entries@.take(i as int) =~= entries@);
    let sorted = sort_found(found);
    proof {
        sort_by_depth_sorted(found@);
        lemma_sort_keeps_names(found@);
    }
    let grafts = build_hierarchy(sorted);
    assert(grafts_of_walk(entries@, base@, grafts@)) by {
        assert(walk_found(entries@, base@) == Some(found_views(found@)));
    }
    assert forall|i: int, j: int| 0 <= i <= j < grafts@.len() implies (#[trigger] grafts@[i]).depth
        <= (#[trigger] grafts@[j]).depth by {
        assert(grafts@[i].depth == sorted@[i].depth);
        assert(grafts@[j].depth == sorted@[j].depth);
    }
    assert forall|i: int| 0 <= i < grafts@.len() implies file_name((#[trigger] grafts@[i]).path@) == Some(
        ".graft.yaml"@,
    ) by {
        assert(grafts@[i].path == sorted@[i].path);
    }
    assert forall|i: int| 0 <= i < grafts@.len() && (#[trigger] grafts@[i]).parent is Some implies strictly_above(
        grafts@[i].parent->Some_0.directory@,
        grafts@[i].directory@,
    ) by {
        lemma_parent_index_below(sorted@, i, sorted@[i].directory@);
    }
    Ok(grafts)
}

/// The message of a discovery target that does not exist.
pub open spec fn missing_target_message(target: Seq<char>) -> Seq<char> {
    "Target directory does not exist: "@ + target
}

/// The message of a discovery target that is not a directory.
pub open spec fn not_dir_target_message(target: Seq<char>) -> Seq<char> {
    "Target path is not a directory: "@ + target
}

/// Check a discovery target, given what the system says of it: whether it
/// exists (`existence`) and whether it is a directory (`kind`); an error of
/// either gives its message, the existence one first.
pub fn check_graft_target(target_dir: &str, existence: Result<bool, IoError>, kind: Result<bool, IoError>) -> (r:
    Result<(), GraftError>)
    ensures
        match existence {
            Err(e) => r matches Err(g) && g.is(ErrorKind::Other, e.message@),
            Ok(false) => r matches Err(g) && g.is(ErrorKind::Other, missing_target_message(target_dir@)),
            Ok(true) => match kind {
                Err(e) => r matches Err(g) && g.is(ErrorKind::Other, e.message@),
                Ok(false) => r matches Err(g) && g.is(ErrorKind::Other, not_dir_target_message(target_dir@)),
                Ok(true) => r is Ok,
            },
        },
{
    let found = match existence {
        Ok(b) => b,
        Err(e) => return Err(io_to_graft(e)),
    };
    if !found {
        let mut m = owned("Target directory does not exist: ");
        m.append(target_dir);
        return Err(GraftError::other(m));
    }
    let dir = match kind {
        Ok(b) => b,
        Err(e) => return Err(io_to_graft(e)),
    };
    if !dir {
        let mut m = owned("Target path is not a directory: ");
        m.append(target_dir);
        return Err(GraftError::other(m));
    }
    Ok(())
}

/// Discover every `.graft.yaml` below a directory, ordered by depth (root
/// first), each with its parent graft: the grafts of the walk of the
/// directory's canonical form, once [`check_graft_target`] accepts the
/// target.
pub fn discover_graft_files<S: System>(system: &S, target_dir: &str) -> (r: Result<
    Vec<DiscoveredGraft>,
    GraftError,
>)
    ensures
        r matches Ok(gs) ==> exists|es: Seq<WalkEntry>, base: Seq<char>|
            #[trigger] grafts_of_walk(es, base, gs@),
        r matches Err(e) ==> e.kind_of() == ErrorKind::Other,
        r matches Ok(gs) ==> forall|i: int, j: int|
            0 <= i <= j < gs@.len() ==> (#[trigger] gs@[i]).depth <= (#[trigger] gs@[j]).depth,
        r matches Ok(gs) ==> forall|i: int|
            0 <= i < gs@.len() ==> file_name((#[trigger] gs@[i]).path@) == Some(".graft.yaml"@),
        r matches Ok(gs) ==> forall|i: int|
            0 <= i < gs@.len() && (#[trigger] gs@[i]).parent is Some ==> strictly_above(
                gs@[i].parent->Some_0.directory@,
                gs@[i].directory@,
            ),
{
    let existence = system.path_exists(target_dir);
    let kind = system.is_dir(target_dir);
    check_graft_target(target_dir, existence, kind)?;
    let base = match system.canonicalize(target_dir) {
        Ok(c) => c,
        Err(e) => {
            let mut m = owned("Failed to canonicalize target directory: ");
            m.append(target_dir);
            m.append(": ");
            m.append(e.message.as_str());
            return Err(GraftError::other(m));
        },
    };
    let entries = match system.walk_dir(base.as_str(), false, false) {
        Ok(es) => es,
        Err(e) => {
            let mut m = owned("Failed to walk directory: ");
            m.append(base.as_str());
            m.append(": ");
            m.append(e.message.as_str());
            return Err(GraftError::other(m));
        },
    };
    let grafts = grafts_from_walk(entries.as_slice(), base.as_str())?;
    assert(grafts_of_walk(entries@, base@, grafts@));
    Ok(grafts)
}

/// Sorting keeps every element's name.
proof fn lemma_sort_keeps_names(s: Seq<Found>)
    requires
        forall|k: int| 0 <= k < s.len() ==> file_name((#[trigger] s[k]).path@) == Some(".graft.yaml"@),
    ensures
        forall|k: int| 0 <= k < sort_by_depth(s).len() ==> file_name((#[trigger] sort_by_depth(s)[k]).path@) == Some(
            ".graft.yaml"@,
        ),
    decreases s.len(),
{
    if s.len() > 0 {
        let rest = s.drop_last();
        lemma_sort_keeps_names(rest);
        sort_by_depth_sorted(rest);
        lemma_insert_sorted(sort_by_depth(rest), s.last());
        let r = sort_by_depth(s);
        assert forall|k: int| 0 <= k < r.len() implies file_name((#[trigger] r[k]).path@) == Some(".graft.yaml"@) by {
            if r[k] != s.last() {
                let q = choose|q: int| 0 <= q < sort_by_depth(rest).len() && sort_by_depth(rest)[q] == r[k];
            }
        }
    }
}

/// The second system is the first without the files of the grafts: the
/// directories are the same, no graft's file is left, and every other file
/// is kept with its contents.
pub open spec fn grafts_removed<S: System>(before: S, after: S, gs: Seq<DiscoveredGraft>) -> bool {
    &&& after.fs_dirs() == before.fs_dirs()
    &&& forall|j: int| 0 <= j < gs.len() ==> !after.fs_files().contains_key(components(#[trigger] gs[j].path@))
    &&& forall|k: Seq<Comp>| #[trigger]
        after.fs_files().contains_key(k) ==> before.fs_files().contains_key(k) && after.fs_files()[k]
            == before.fs_files()[k]
    &&& forall|k: Seq<Comp>|
        #![trigger before.fs_files().contains_key(k)]
        before.fs_files().contains_key(k) && (forall|j: int| 0 <= j < gs.len() ==> k != components(#[trigger] gs[j].path@))
            ==> after.fs_files().contains_key(k)
}

/// The grafts were found by a walk below some directory, and the second
/// system is the first without their files.
pub open spec fn walked_grafts_removed<S: System>(before: S, after: S, gs: Seq<DiscoveredGraft>) -> bool {
    &&& exists|es: Seq<WalkEntry>, base: Seq<char>| #[trigger] grafts_of_walk(es, base, gs)
    &&& grafts_removed(before, after, gs)
}

/// Delete every `.graft.yaml` below a directory; gives how many were deleted.
pub fn cleanup_graft_files<S: System>(system: &mut S, target_dir: &str) -> (r: Result<usize, GraftError>)
    ensures
        S::keeps_model() ==> (r is Ok ==> exists|gs: Seq<DiscoveredGraft>| #[trigger] walked_grafts_removed(
            *old(system),
            *final(system),
            gs,
        )),
{
    let grafts = discover_graft_files(system, target_dir)?;
    let mut deleted: usize = 0;
    let mut i: usize = 0;
    while i < grafts.len()
        invariant
            i <= grafts.len(),
            deleted <= i,
            S::keeps_model() ==> system.fs_dirs() == old(system).fs_dirs(),
            S::keeps_model() ==> forall|j: int| 0 <= j < i ==> !system.fs_files().contains_key(components(#[trigger] grafts@[j].path@)),
            S::keeps_model() ==> forall|k: Seq<Comp>| #[trigger]
                system.fs_files().contains_key(k) ==> old(system).fs_files().contains_key(k) && system.fs_files()[k]
                    == old(system).fs_files()[k],
            S::keeps_model() ==> forall|k: Seq<Comp>|
                #![trigger old(system).fs_files().contains_key(k)]
                old(system).fs_files().contains_key(k) && (forall|j: int|
                    0 <= j < grafts@.len() ==> k != components(#[trigger] grafts@[j].path@)) ==> system.fs_files().contains_key(k),
        decreases grafts.len() - i,
    {
        let path = grafts[i].path.as_str();
        let exists = match system.path_exists(path) {
            Ok(b) => b,
            Err(e) => return Err(io_to_graft(e)),
        };
        if exists {
            if let Err(e) = system.remove_file(path) {
                let mut m = owned("Failed to delete .graft.yaml file: ");
                m.append(path);
                m.append(": ");
                m.append(e.message.as_str());
                return Err(GraftError::other(m));
            }
            deleted = deleted + 1;
        }
        i = i + 1;
    }
    assert(S::keeps_model() ==> grafts_removed(*old(system), *system, grafts@));
    assert(S::keeps_model() ==> walked_grafts_removed(*old(system), *system, grafts@));
    Ok(deleted)
}

} // verus!
