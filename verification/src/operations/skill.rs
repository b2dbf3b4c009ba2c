//! Skill management: installing, uninstalling and checking the tixgraft
//! skill of the coding assistant. The skill's files, and the subdirectory
//! (below the home or current directory) where the assistant looks for it,
//! are handed in by the program.

use vstd::prelude::*;
use crate::error::{ErrorKind, GraftError, IoError};
use crate::path::{components, join, path_join, same_path};
use crate::system::System;
use crate::text::{eq_ignore_ascii_case, owned, str_eq_ignore_ascii_case, trim_str, trimmed};
use crate::utils::path::{path_starts_with, relative_from_canonical};

verus! {

/// One file of the skill: its path relative to the skill directory and its
/// bytes.
#[derive(Debug)]
pub struct SkillFile {
    pub path: String,
    pub contents: Vec<u8>,
}

/// Result of checking the skill installation status.
#[derive(Debug, Clone, Copy, PartialEq, Eq, Structural)]
pub enum SkillStatus {
    /// Skill is not installed at the target location.
    NotInstalled,
    /// Skill is installed but content differs from the embedded version.
    Outdated,
    /// Skill is installed and matches the embedded content exactly.
    UpToDate,
}

/// The user's home directory, as `dirs::home_dir` finds it (`None` when it
/// cannot be found or is not valid UTF-8).
#[verifier::external_body]
fn home_dir() -> (r: Option<String>) {
    match dirs::home_dir() {
        Some(p) => p.into_os_string().into_string().ok(),
        None => None,
    }
}

fn skill_error(context: &str, e: IoError) -> (r: GraftError)
    ensures
        r.kind_of() == ErrorKind::Skill,
{
    let mut m = owned(context);
    m.append(e.message.as_str());
    GraftError::skill(m)
}

/// The skill directory below a base directory.
pub fn skill_path_under(base: &str, subdir: &str) -> (r: String)
    ensures
        r@ == join(base@, subdir@),
{
    path_join(base, subdir)
}

/// Resolve the target directory for skill installation: under the home
/// directory when global, else under the current directory.
pub fn resolve_skill_path<S: System>(system: &S, global: bool, subdir: &str) -> (r: Result<String, GraftError>)
    ensures
        r matches Ok(p) ==> exists|base: Seq<char>| p@ == join(base, subdir@),
        r matches Err(e) ==> e.kind_of() == ErrorKind::Skill,
{
    if global {
        match home_dir() {
            Some(home) => Ok(skill_path_under(home.as_str(), subdir)),
            None => Err(GraftError::skill(owned("Could not determine home directory"))),
        }
    } else {
        match system.current_dir() {
            Ok(cwd) => Ok(skill_path_under(cwd.as_str(), subdir)),
            Err(e) => Err(skill_error("Could not determine current directory: ", e)),
        }
    }
}

/// Install the skill files into the target directory (creating directories,
/// overwriting existing files).
pub fn skill_install<S: System>(system: &mut S, target_dir: &str, files: &[SkillFile]) -> (r: Result<
    (),
    GraftError,
>)
    ensures
        r matches Err(e) ==> e.kind_of() == ErrorKind::Skill,
{
    if let Err(e) = system.create_dir_all(target_dir) {
        return Err(skill_error("Failed to create directory: ", e));
    }
    let mut i: usize = 0;
    while i < files.len()
        invariant
            i <= files.len(),
        decreases files.len() - i,
    {
        let target_path = path_join(target_dir, files[i].path.as_str());
        if let Some(parent) = crate::path::path_parent(target_path.as_str()) {
            if let Err(e) = system.create_dir_all(parent.as_str()) {
                return Err(skill_error("Failed to create directory: ", e));
            }
        }
        if let Err(e) = system.write(target_path.as_str(), files[i].contents.as_slice()) {
            let mut m = owned("Failed to write ");
            m.append(target_path.as_str());
            m.append(": ");
            m.append(e.message.as_str());
            return Err(GraftError::skill(m));
        }
        i = i + 1;
    }
    Ok(())
}

/// Uninstall the skill by removing the target directory; gives whether it
/// was there. Removing a skill that is not installed is not an error.
pub fn skill_uninstall<S: System>(system: &mut S, target_dir: &str) -> (r: Result<bool, GraftError>)
    ensures
        r matches Err(e) ==> e.kind_of() == ErrorKind::Skill,
{
    let exists = match system.path_exists(target_dir) {
        Ok(b) => b,
        Err(e) => return Err(skill_error("Failed to check directory: ", e)),
    };
    if exists {
        if let Err(e) = system.remove_dir_all(target_dir) {
            return Err(skill_error("Failed to remove directory: ", e));
        }
    }
    Ok(exists)
}

/// Byte-wise equality.
fn bytes_equal(a: &[u8], b: &[u8]) -> (r: bool)
    ensures
        r == (a@ == b@),
{
    if a.len() != b.len() {
        return false;
    }
    let mut i: usize = 0;
    while i < a.len()
        invariant
            i <= a.len(),
            a.len() == b.len(),
            forall|k: int| 0 <= k < i ==> a@[k] == b@[k],
        decreases a.len() - i,
    {
        if a[i] != b[i] {
            return false;
        }
        i = i + 1;
    }
    assert(a@ =~= b@);
    true
}

fn is_same_path(a: &str, b: &str) -> (r: bool)
    ensures
        r == same_path(a@, b@),
{
    let down = path_starts_with(a, b);
    let up = path_starts_with(b, a);
    proof {
        let ca = components(a@);
        let cb = components(b@);
        if crate::path::comps_prefix(ca, cb) && crate::path::comps_prefix(cb, ca) {
            assert(ca =~= cb);
        }
        if ca == cb {
            assert(ca.subrange(0, cb.len() as int) =~= cb);
        }
    }
    down && up
}

fn contains_path(paths: &Vec<String>, p: &str) -> (r: bool)
    ensures
        r == exists|i: int| 0 <= i < paths@.len() && same_path(#[trigger] paths@[i]@, p@),
{
    let mut i: usize = 0;
    while i < paths.len()
        invariant
            i <= paths.len(),
            forall|k: int| 0 <= k < i ==> !same_path(#[trigger] paths@[k]@, p@),
        decreases paths.len() - i,
    {
        if is_same_path(paths[i].as_str(), p) {
            return true;
        }
        i = i + 1;
    }
    false
}

/// Check whether the installed skill matches the files exactly: each file
/// is installed with the same bytes, and nothing else is installed.
pub fn skill_check<S: System>(system: &S, target_dir: &str, files: &[SkillFile]) -> (r: Result<
    SkillStatus,
    GraftError,
>)
    ensures
        r matches Err(e) ==> e.kind_of() == ErrorKind::Skill,
{
    let exists = match system.path_exists(target_dir) {
        Ok(b) => b,
        Err(e) => return Err(skill_error("Failed to check directory: ", e)),
    };
    if !exists {
        return Ok(SkillStatus::NotInstalled);
    }
    let mut i: usize = 0;
    while i < files.len()
        invariant
            i <= files.len(),
        decreases files.len() - i,
    {
        let installed_path = path_join(target_dir, files[i].path.as_str());
        let present = match system.path_exists(installed_path.as_str()) {
            Ok(b) => b,
            Err(e) => return Err(skill_error("Failed to check file: ", e)),
        };
        if !present {
            return Ok(SkillStatus::Outdated);
        }
        let bytes = match system.read(installed_path.as_str()) {
            Ok(b) => b,
            Err(e) => {
                let mut m = owned("Failed to read ");
                m.append(installed_path.as_str());
                m.append(": ");
                m.append(e.message.as_str());
                return Err(GraftError::skill(m));
            },
        };
        if !bytes_equal(bytes.as_slice(), files[i].contents.as_slice()) {
            return Ok(SkillStatus::Outdated);
        }
        i = i + 1;
    }
    let entries = match system.walk_all(target_dir, true) {
        Ok(es) => es,
        Err(e) => return Err(skill_error("Failed to read directory: ", e)),
    };
    let mut installed: Vec<String> = Vec::new();
    let mut k: usize = 0;
    while k < entries.len()
        invariant
            k <= entries.len(),
        decreases entries.len() - k,
    {
        if !entries[k].is_dir {
            let relative = match relative_from_canonical(
                entries[k].path.as_str(),
                target_dir,
                entries[k].path.as_str(),
                target_dir,
            ) {
                Ok(rel) => rel,
                Err(e) => {
                    let mut m = owned("Failed to compute relative path: ");
                    m.append(e.message().as_str());
                    return Err(GraftError::skill(m));
                },
            };
            installed.push(relative);
        }
        k = k + 1;
    }
    let mut embedded: Vec<String> = Vec::new();
    let mut j: usize = 0;
    while j < files.len()
        invariant
            j <= files.len(),
        decreases files.len() - j,
    {
        embedded.push(files[j].path.clone());
        j = j + 1;
    }
    let mut q: usize = 0;
    while q < installed.len()
        invariant
            q <= installed.len(),
        decreases installed.len() - q,
    {
        if !contains_path(&embedded, installed[q].as_str()) {
            return Ok(SkillStatus::Outdated);
        }
        q = q + 1;
    }
    let mut w: usize = 0;
    while w < embedded.len()
        invariant
            w <= embedded.len(),
        decreases embedded.len() - w,
    {
        if !contains_path(&installed, embedded[w].as_str()) {
            return Ok(SkillStatus::Outdated);
        }
        w = w + 1;
    }
    Ok(SkillStatus::UpToDate)
}

/// Is an answer to a yes/no question a yes (`y` or `yes`, any case, around
/// whitespace)?
pub open spec fn is_yes(input: Seq<char>) -> bool {
    eq_ignore_ascii_case(trimmed(input), "y"@) || eq_ignore_ascii_case(trimmed(input), "yes"@)
}

/// Read an answer to a yes/no question; anything but a yes is a no.
pub fn answer_is_yes(input: &str) -> (r: bool)
    ensures
        r == is_yes(input@),
{
    let t = trim_str(input);
    str_eq_ignore_ascii_case(t.as_str(), "y") || str_eq_ignore_ascii_case(t.as_str(), "yes")
}

/// The question to ask for a skill status, when one is needed.
pub fn skill_question(status: SkillStatus) -> (r: Option<&'static str>)
    ensures
        status == SkillStatus::UpToDate <==> r is None,
{
    match status {
        SkillStatus::UpToDate => None,
        SkillStatus::NotInstalled => Some("Skill is not installed. Install now?"),
        SkillStatus::Outdated => Some("Skill is outdated. Upgrade now?"),
    }
}

/// The exit code of a skill test when the user declined: 1 when the skill
/// is not installed, 2 when it is outdated, 0 when nothing was needed.
pub fn declined_exit_code(status: SkillStatus) -> (r: i32)
    ensures
        status == SkillStatus::UpToDate ==> r == 0,
        status == SkillStatus::NotInstalled ==> r == 1,
        status == SkillStatus::Outdated ==> r == 2,
{
    match status {
        SkillStatus::UpToDate => 0,
        SkillStatus::NotInstalled => 1,
        SkillStatus::Outdated => 2,
    }
}

} // verus!
