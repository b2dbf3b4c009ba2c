//! File and directory copying.

use vstd::prelude::*;
use crate::error::{ErrorKind, GraftError, IoError};
use crate::git::repository::io_to_graft;
use crate::path::{components, comps_prefix, join, path_join, path_parent, render, Comp};
use crate::system::mock::{walk_matches, walk_rendered};
use crate::system::{present, System, WalkEntry};
use crate::text::{owned, str_eq};
use crate::utils::fs::create_parent_directories;
use crate::utils::path::{relative_from_canonical, strip_comps};

verus! {

/// Does the path exist (an error counts as no)?
fn exists_or_false<S: System>(system: &S, path: &str) -> (r: bool)
    ensures
        S::keeps_model() ==> (r ==> present(system, path@)),
{
    match system.path_exists(path) {
        Ok(b) => b,
        Err(_) => false,
    }
}

fn with_detail(context: &str, subject: &str, e: IoError) -> (r: GraftError)
    ensures
        r.kind_of() == ErrorKind::Other,
{
    let mut m = owned(context);
    m.append(subject);
    m.append(": ");
    m.append(e.message.as_str());
    GraftError::other(m)
}

/// Copy a file or a directory from source to target; for a directory,
/// `reset` removes an existing target first. Gives the number of files
/// copied.
pub fn copy_files<S: System>(
    system: &mut S,
    source: &str,
    target: &str,
    pull_type: &str,
    reset: bool,
) -> (r: Result<usize, GraftError>)
    ensures
        r matches Ok(n) ==> (pull_type@ == "file"@ && n == 1) || (pull_type@ == "directory"@ && n >= 1),
        pull_type@ != "file"@ && pull_type@ != "directory"@ ==> r is Err,
        S::keeps_model() && r is Ok && pull_type@ == "file"@ ==> file_copied(*old(system), *final(system), source@, target@),
        S::keeps_model() && pull_type@ == "directory"@ ==> (r matches Ok(n) ==> walk_copied(
            *final(system),
            source@,
            target@,
            n as nat,
        )),
        S::keeps_model() && pull_type@ == "directory"@ ==> (r matches Ok(n) ==> copied_from(
            *old(system),
            *final(system),
            source@,
            target@,
            n as nat,
        )),
{
    assert("file"@ != "directory"@) by {
        reveal_strlit("file");
        reveal_strlit("directory");
        assert("file"@.len() == 4);
        assert("directory"@.len() == 9);
    }
    if !exists_or_false(system, source) {
        let mut m = owned("Source path does not exist: ");
        m.append(source);
        return Err(GraftError::from_source(m));
    }
    let is_dir_type = str_eq(pull_type, "directory");
    if reset && is_dir_type && exists_or_false(system, target) {
        if let Err(e) = system.remove_dir_all(target) {
            return Err(with_detail("Failed to reset target directory", "", e));
        }
    }
    if str_eq(pull_type, "file") {
        copy_file(system, source, target)
    } else if is_dir_type {
        copy_directory(system, source, target)
    } else {
        let mut m = owned("Invalid pull type: '");
        m.append(pull_type);
        m.append("'. Must be 'file' or 'directory'");
        Err(GraftError::configuration(m))
    }
}

/// The second system holds at `target` the contents that the first held at
/// `source`.
pub open spec fn file_copied<S: System>(before: S, after: S, source: Seq<char>, target: Seq<char>) -> bool {
    &&& before.fs_files().contains_key(components(source))
    &&& after.fs_files().contains_key(components(target))
    &&& after.fs_files()[components(target)] == before.fs_files()[components(source)]
}

/// Copy a single file.
fn copy_file<S: System>(system: &mut S, source: &str, target: &str) -> (r: Result<usize, GraftError>)
    ensures
        r matches Ok(n) ==> n == 1,
        S::keeps_model() ==> (r is Ok ==> file_copied(*old(system), *final(system), source@, target@)),
{
    let is_file = match system.is_file(source) {
        Ok(b) => b,
        Err(_) => false,
    };
    if !is_file {
        let mut m = owned("Source is not a file: ");
        m.append(source);
        return Err(GraftError::from_source(m));
    }
    create_parent_directories(system, target)?;
    if let Err(e) = system.copy(source, target) {
        let mut m = owned("Failed to copy file from ");
        m.append(source);
        m.append(" to ");
        m.append(target);
        m.append(": ");
        m.append(e.message.as_str());
        return Err(GraftError::other(m));
    }
    Ok(1)
}

/// One step of copying a directory: make the directory `to` (when `from`
/// is none), or copy the file `from` to `to`.
#[derive(Debug)]
pub struct CopyAction {
    pub from: Option<String>,
    pub to: String,
}

/// A copy step as plain values.
pub open spec fn action_view(a: CopyAction) -> (Option<Seq<char>>, Seq<char>) {
    (
        match a.from {
            Some(f) => Some(f@),
            None => None,
        },
        a.to@,
    )
}

/// The copy steps as plain values.
pub open spec fn actions_view(s: Seq<CopyAction>) -> Seq<(Option<Seq<char>>, Seq<char>)> {
    s.map_values(|a: CopyAction| action_view(a))
}

/// The message of a walked path that is not below the source.
pub open spec fn outside_message(path: Seq<char>, base: Seq<char>) -> Seq<char> {
    "Path '"@ + path + "' is not within base directory '"@ + base + "'. Error: prefix not found"@
}

/// The steps of copying the walked entries of `source` to `target`, in walk
/// order: each directory is made at the same place below `target`, each
/// file (that is not also a directory) is copied there; the message of the
/// first entry that is not below `source`.
pub open spec fn copy_plan(es: Seq<WalkEntry>, source: Seq<char>, target: Seq<char>) -> Result<
    Seq<(Option<Seq<char>>, Seq<char>)>,
    Seq<char>,
>
    decreases es.len(),
{
    if es.len() == 0 {
        Ok(Seq::empty())
    } else {
        match copy_plan(es.drop_last(), source, target) {
            Err(m) => Err(m),
            Ok(prev) => {
                let e = es.last();
                match strip_comps(components(e.path@), components(source)) {
                    None => Err(outside_message(e.path@, source)),
                    Some(rest) => if e.is_dir {
                        Ok(prev.push((None, join(target, render(rest)))))
                    } else if e.is_file {
                        Ok(prev.push((Some(e.path@), join(target, render(rest)))))
                    } else {
                        Ok(prev)
                    },
                }
            },
        }
    }
}

/// The number of files a plan copies.
pub open spec fn copy_count(p: Seq<(Option<Seq<char>>, Seq<char>)>) -> nat
    decreases p.len(),
{
    if p.len() == 0 {
        0
    } else {
        copy_count(p.drop_last()) + if p.last().0 is Some { 1nat } else { 0nat }
    }
}

/// Some walk of `source` has a plan of copying to `target` that copies `n`
/// files.
pub open spec fn walk_copies_files(source: Seq<char>, target: Seq<char>, n: nat) -> bool {
    exists|es: Seq<WalkEntry>| #[trigger] plan_copies_files(es, source, target, n)
}

/// The plan of copying the entries succeeds and copies `n` files.
pub open spec fn plan_copies_files(es: Seq<WalkEntry>, source: Seq<char>, target: Seq<char>, n: nat) -> bool {
    copy_plan(es, source, target) matches Ok(p) && n == copy_count(p)
}

proof fn lemma_copy_plan_prefix(es: Seq<WalkEntry>, source: Seq<char>, target: Seq<char>, i: int)
    requires
        0 <= i <= es.len(),
        copy_plan(es.take(i), source, target) is Err,
    ensures
        copy_plan(es, source, target) == copy_plan(es.take(i), source, target),
    decreases es.len() - i,
{
    if i < es.len() {
        assert(es.take(i + 1).drop_last() =~= es.take(i));
        lemma_copy_plan_prefix(es, source, target, i + 1);
    } else {
        assert(es.take(i) =~= es);
    }
}

/// The steps of copying walked entries of `source` to `target` (see
/// [`copy_plan`]).
pub fn plan_copies(entries: &[WalkEntry], source: &str, target: &str) -> (r: Result<Vec<CopyAction>, GraftError>)
    ensures
        match copy_plan(entries@, source@, target@) {
            Ok(p) => r matches Ok(v) && actions_view(v@) == p,
            Err(m) => r matches Err(e) && e.is(ErrorKind::Other, m),
        },
{
    let mut out: Vec<CopyAction> = Vec::new();
    let mut i: usize = 0;
    assert(entries@.take(0) =~= Seq::<WalkEntry>::empty());
    assert(actions_view(out@) =~= Seq::<(Option<Seq<char>>, Seq<char>)>::empty());
    while i < entries.len()
        invariant
            i <= entries.len(),
            copy_plan(entries@.take(i as int), source@, target@) == Ok::<Seq<(Option<Seq<char>>, Seq<char>)>, Seq<char>>(
                actions_view(out@),
            ),
        decreases entries.len() - i,
    {
        let entry = &entries[i];
        proof {
            assert(entries@.take(i as int + 1).drop_last() =~= entries@.take(i as int));
            assert(entries@.take(i as int + 1).last() == entries@[i as int]);
        }
        let ghost before = out@;
        let relative = match relative_from_canonical(entry.path.as_str(), source, entry.path.as_str(), source) {
            Ok(rel) => rel,
            Err(e) => {
                proof {
                    lemma_copy_plan_prefix(entries@, source@, target@, i as int + 1);
                }
                return Err(e);
            },
        };
        let to = path_join(target, relative.as_str());
        if entry.is_dir {
            out.push(CopyAction { from: None, to });
            assert(actions_view(out@) =~= actions_view(before).push((None::<Seq<char>>, to@)));
        } else if entry.is_file {
            out.push(CopyAction { from: Some(entry.path.clone()), to });
            assert(actions_view(out@) =~= actions_view(before).push((Some(entries@[i as int].path@), to@)));
        }
        i = i + 1;
    }
    assert(entries@.take(i as int) =~= entries@);
    Ok(out)
}

/// The second system keeps every file and directory of the first.
pub open spec fn grown<S: System>(before: S, after: S) -> bool {
    &&& before.fs_files().dom().subset_of(after.fs_files().dom())
    &&& before.fs_dirs().subset_of(after.fs_dirs())
}

/// The system holds what a copy step makes: the file copied to, or the
/// directory made.
pub open spec fn step_done<S: System>(system: S, step: (Option<Seq<char>>, Seq<char>)) -> bool {
    if step.0 is Some {
        system.fs_files().contains_key(components(step.1))
    } else {
        system.fs_files().contains_key(components(step.1)) || system.fs_dirs().contains(components(step.1))
    }
}

/// The system holds what every step of the plan makes.
pub open spec fn plan_done<S: System>(system: S, plan: Seq<(Option<Seq<char>>, Seq<char>)>) -> bool {
    forall|j: int| 0 <= j < plan.len() ==> step_done(system, #[trigger] plan[j])
}

/// Some walk of `source` has a plan of copying to `target` that copies `n`
/// files, and the system holds what every step of it makes.
pub open spec fn walk_copied<S: System>(system: S, source: Seq<char>, target: Seq<char>, n: nat) -> bool {
    exists|es: Seq<WalkEntry>|
        #[trigger] plan_copies_files(es, source, target, n) && plan_done(system, copy_plan(es, source, target)->Ok_0)
}

/// The walk of `source` in the system `walked` has a plan of copying to
/// `target` that copies `n` files, and `system` holds what every step of it
/// makes.
pub open spec fn walked_and_copied<S: System>(walked: S, system: S, source: Seq<char>, target: Seq<char>, n: nat) -> bool {
    exists|es: Seq<WalkEntry>|
        #[trigger] plan_copies_files(es, source, target, n) && plan_done(system, copy_plan(es, source, target)->Ok_0)
            && walk_matches(es, walk_rendered(walked.fs_files(), walked.fs_dirs(), components(source)))
}

/// Outside `target`, the second system holds the first's files with their
/// contents, and keeps its directories.
pub open spec fn kept_outside<S: System>(before: S, after: S, target: Seq<char>) -> bool {
    forall|k: Seq<Comp>|
        #![trigger after.fs_files().contains_key(k)]
        #![trigger before.fs_dirs().contains(k)]
        !comps_prefix(components(target), k) ==> (after.fs_files().contains_key(k) == before.fs_files().contains_key(k))
            && (before.fs_files().contains_key(k) ==> after.fs_files()[k] == before.fs_files()[k]) && (
        before.fs_dirs().contains(k) ==> after.fs_dirs().contains(k))
}

/// Copying `source` to `target` took the system from `before` to `after`
/// and copied `n` files: the source was walked in a state that kept
/// everything of `before` outside the target, and `after` holds what every
/// step of that walk's plan makes.
pub open spec fn copied_from<S: System>(before: S, after: S, source: Seq<char>, target: Seq<char>, n: nat) -> bool {
    exists|mid: S| #[trigger] walked_and_copied(mid, after, source, target, n) && kept_outside(before, mid, target)
}

/// Carry out one copy step; gives whether a file was copied.
fn apply_copy_action<S: System>(system: &mut S, action: &CopyAction) -> (r: Result<bool, GraftError>)
    ensures
        r matches Ok(copied) ==> copied == (action.from is Some),
        r matches Err(e) ==> e.kind_of() == ErrorKind::Other,
        S::keeps_model() ==> (r is Ok ==> grown(*old(system), *final(system)) && step_done(
            *final(system),
            action_view(*action),
        )),
{
    match &action.from {
        None => {
            let present_now = match system.path_exists(action.to.as_str()) {
                Ok(b) => b,
                Err(_) => false,
            };
            if !present_now {
                if let Err(e) = system.create_dir_all(action.to.as_str()) {
                    return Err(with_detail("Failed to create directory: ", action.to.as_str(), e));
                }
            }
            Ok(false)
        },
        Some(from) => {
            if let Some(p) = path_parent(action.to.as_str()) {
                if !exists_or_false(system, p.as_str()) {
                    if let Err(e) = system.create_dir_all(p.as_str()) {
                        return Err(with_detail("Failed to create parent directory: ", p.as_str(), e));
                    }
                }
            }
            let ghost mid = *system;
            if let Err(e) = system.copy(from.as_str(), action.to.as_str()) {
                let mut m = owned("Failed to copy file from ");
                m.append(from.as_str());
                m.append(" to ");
                m.append(action.to.as_str());
                m.append(": ");
                m.append(e.message.as_str());
                return Err(GraftError::other(m));
            }
            assert(S::keeps_model() ==> mid.fs_files().dom().subset_of(system.fs_files().dom()));
            Ok(true)
        },
    }
}

/// The message of a directory source that is not a directory.
pub open spec fn not_dir_source_message(source: Seq<char>) -> Seq<char> {
    "Source is not a directory: "@ + source
}

/// The message of a directory source without files.
pub open spec fn no_files_message(source: Seq<char>) -> Seq<char> {
    "No files found to copy in directory: "@ + source
}

/// Copy a directory recursively; a directory without files is an error.
/// Its `Source` errors are those two: the source is not a directory, or no
/// file was found below it.
pub fn copy_directory<S: System>(system: &mut S, source: &str, target: &str) -> (r: Result<
    usize,
    GraftError,
>)
    ensures
        r matches Ok(n) ==> n >= 1,
        r matches Ok(n) ==> walk_copies_files(source@, target@, n as nat),
        S::keeps_model() ==> (r matches Ok(n) ==> walk_copied(*final(system), source@, target@, n as nat)),
        S::keeps_model() ==> (r matches Ok(n) ==> copied_from(*old(system), *final(system), source@, target@, n as nat)),
        S::keeps_model() ==> (r is Ok ==> present(final(system), target@)),
        r matches Err(e) ==> (e.kind_of() == ErrorKind::Source ==> e.message_of() == not_dir_source_message(source@)
            || e.message_of() == no_files_message(source@)),
{
    let is_dir = match system.is_dir(source) {
        Ok(b) => b,
        Err(_) => false,
    };
    if !is_dir {
        let mut m = owned("Source is not a directory: ");
        m.append(source);
        return Err(GraftError::from_source(m));
    }
    if !exists_or_false(system, target) {
        if let Err(e) = system.create_dir_all(target) {
            return Err(with_detail("Failed to create target directory: ", target, e));
        }
    }
    let ghost walked = *system;
    assert(S::keeps_model() ==> kept_outside(*old(system), walked, target@));
    let entries = match system.walk_all(source, false) {
        Ok(es) => es,
        Err(e) => return Err(with_detail("Failed to read directory entry", "", e)),
    };
    let plan = plan_copies(entries.as_slice(), source, target)?;
    assert(S::keeps_model() ==> present(system, target@));
    let mut files_copied: usize = 0;
    let mut i: usize = 0;
    while i < plan.len()
        invariant
            i <= plan.len(),
            files_copied == copy_count(actions_view(plan@.take(i as int))),
            files_copied <= i,
            S::keeps_model() ==> plan_done(*system, actions_view(plan@.take(i as int))),
            S::keeps_model() ==> present(system, target@),
        decreases plan.len() - i,
    {
        let ghost p = actions_view(plan@.take(i as int + 1));
        let ghost before = *system;
        assert(p.drop_last() =~= actions_view(plan@.take(i as int)));
        assert(p.last() == action_view(plan@[i as int]));
        if apply_copy_action(system, &plan[i])? {
            files_copied = files_copied + 1;
        }
        proof {
            assert forall|j: int| S::keeps_model() && 0 <= j < p.len() implies step_done(*system, #[trigger] p[j]) by {
                if j < p.len() - 1 {
                    assert(p[j] == actions_view(plan@.take(i as int))[j]);
                    assert(step_done(before, p[j]));
                }
            }
        }
        i = i + 1;
    }
    assert(plan@.take(i as int) =~= plan@);
    assert(plan_copies_files(entries@, source@, target@, files_copied as nat));
    if files_copied == 0 {
        let mut m = owned("No files found to copy in directory: ");
        m.append(source);
        return Err(GraftError::from_source(m));
    }
    assert(walk_copies_files(source@, target@, files_copied as nat));
    assert(S::keeps_model() ==> walk_copied(*system, source@, target@, files_copied as nat));
    assert(S::keeps_model() ==> walked_and_copied(walked, *system, source@, target@, files_copied as nat));
    assert(S::keeps_model() ==> copied_from(*old(system), *system, source@, target@, files_copied as nat));
    Ok(files_copied)
}

/// The total size of the files to be copied (for progress indication);
/// zero for an unknown pull type or a source of the wrong kind.
pub fn calculate_copy_size<S: System>(system: &S, source: &str, pull_type: &str) -> (r: Result<
    u64,
    GraftError,
>)
    ensures
        pull_type@ != "file"@ && pull_type@ != "directory"@ ==> r == Ok::<u64, GraftError>(0),
{
    if str_eq(pull_type, "file") {
        let is_file = match system.is_file(source) {
            Ok(b) => b,
            Err(_) => false,
        };
        if is_file {
            system.file_len(source).map_err(|e: IoError| io_to_graft(e))
        } else {
            Ok(0)
        }
    } else if str_eq(pull_type, "directory") {
        let mut total: u64 = 0;
        let is_dir = match system.is_dir(source) {
            Ok(b) => b,
            Err(_) => false,
        };
        if is_dir {
            let entries = system.walk_all(source, false).map_err(|e: IoError| io_to_graft(e))?;
            let mut i: usize = 0;
            while i < entries.len()
                invariant
                    i <= entries.len(),
                    pull_type@ == "directory"@,
                decreases entries.len() - i,
            {
                if entries[i].is_file {
                    let n = system.file_len(entries[i].path.as_str()).map_err(|e: IoError| io_to_graft(e))?;
                    total = total.saturating_add(n);
                }
                i = i + 1;
            }
        }
        Ok(total)
    } else {
        Ok(0)
    }
}

/// Count the files that will be copied; zero for an unknown pull type or a
/// source of the wrong kind.
pub fn count_files_to_copy<S: System>(system: &S, source: &str, pull_type: &str) -> (r: Result<
    usize,
    GraftError,
>)
    ensures
        pull_type@ != "file"@ && pull_type@ != "directory"@ ==> r == Ok::<usize, GraftError>(0),
        pull_type@ == "file"@ ==> (r matches Ok(n) && n <= 1),
{
    if str_eq(pull_type, "file") {
        let is_file = match system.is_file(source) {
            Ok(b) => b,
            Err(_) => false,
        };
        if is_file {
            Ok(1)
        } else {
            Ok(0)
        }
    } else if str_eq(pull_type, "directory") {
        let mut count: usize = 0;
        let is_dir = match system.is_dir(source) {
            Ok(b) => b,
            Err(_) => false,
        };
        if is_dir {
            let entries = system.walk_all(source, false).map_err(|e: IoError| io_to_graft(e))?;
            let mut i: usize = 0;
            while i < entries.len()
                invariant
                    i <= entries.len(),
                    count <= i,
                decreases entries.len() - i,
            {
                if entries[i].is_file {
                    count = count + 1;
                }
                i = i + 1;
            }
        }
        Ok(count)
    } else {
        Ok(0)
    }
}

} // verus!
