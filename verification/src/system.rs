//! System abstraction for environment and filesystem operations, and for
//! running programs.
//!
//! Every interaction of the library with the operating system goes through
//! [`System`] and [`ProcessRunner`]. A `System` may keep a model of the
//! filesystem: its files (with their contents) and directories, each named by
//! the components of its path; the contracts then state what a successful
//! operation does to that model (a failed one may have done anything). The
//! in-memory [`mock::MockSystem`] keeps it; the program's implementation over
//! the real filesystem does not, and no contract promises anything of it
//! through the model. A `ProcessRunner` keeps the runs asked of it, in order:
//! [`HostRunner`] over the operating system and [`scripted::ScriptedRunner`]
//! for tests. A runner does not see the files, so nothing is claimed of the
//! files once a program has run.

use vstd::prelude::*;
use crate::error::{EnvVarError, IoError};
use crate::path::{components, comps_prefix, Comp};
use crate::system::mock::{utf8_decoded, walk_matches, walk_rendered};
use crate::text::string_views;

pub mod mock;
pub mod scripted;

verus! {

/// Entry from directory walking.
#[derive(Debug, Clone)]
pub struct WalkEntry {
    pub path: String,
    pub is_file: bool,
    pub is_dir: bool,
}

/// Temporary directory handle.
pub trait TempDirHandle {
    /// Get the path to the temporary directory.
    fn path(&self) -> &str;
}

/// Whether the path names a file or a directory of the system's model.
pub open spec fn present<S: System>(system: &S, path: Seq<char>) -> bool {
    system.fs_files().contains_key(components(path)) || system.fs_dirs().contains(components(path))
}

/// Unified trait for system operations (environment + filesystem).
///
/// Paths are strings read the way [`crate::path`] describes, and a path
/// names the model's entry keyed by its components: two paths with different
/// components name different entries, and nothing but these operations
/// changes the model. Operations that change the filesystem take `&mut self`.
pub trait System {
    /// Handle of a temporary directory made by [`System::create_temp_dir`].
    type TempDir: TempDirHandle;

    /// Whether the implementation keeps the model that the contracts below
    /// speak of. One that does not (the default: the program's own
    /// implementation over the real filesystem, which is not verified) makes
    /// no promise through them.
    open spec fn keeps_model() -> bool {
        false
    }

    /// The files, by the components of their paths, with their contents
    /// (none for an implementation that keeps no model).
    open spec fn fs_files(&self) -> Map<Seq<Comp>, Seq<u8>> {
        Map::empty()
    }

    /// The directories, by the components of their paths (none for an
    /// implementation that keeps no model).
    open spec fn fs_dirs(&self) -> Set<Seq<Comp>> {
        Set::empty()
    }

    /// The environment variables (none for an implementation that keeps no
    /// model).
    open spec fn fs_env(&self) -> Map<Seq<char>, Seq<char>> {
        Map::empty()
    }

    /// Get an environment variable.
    fn env_var(&self, key: &str) -> (r: Result<String, EnvVarError>)
        ensures
            Self::keeps_model() ==> (r matches Ok(v) ==> self.fs_env().contains_key(key@) && v@
                == self.fs_env()[key@]),
    ;

    /// Get the current working directory.
    fn current_dir(&self) -> Result<String, IoError>;

    /// Read an entire file as UTF-8 text.
    fn read_to_string(&self, path: &str) -> (r: Result<String, IoError>)
        ensures
            Self::keeps_model() ==> (r matches Ok(text) ==> self.fs_files().contains_key(components(path@))
                && utf8_decoded(self.fs_files()[components(path@)]) == Ok::<Seq<char>, Seq<char>>(text@)),
    ;

    /// Read an entire file as bytes.
    fn read(&self, path: &str) -> (r: Result<Vec<u8>, IoError>)
        ensures
            Self::keeps_model() ==> (r matches Ok(bytes) ==> self.fs_files().contains_key(components(path@))
                && bytes@ == self.fs_files()[components(path@)]),
    ;

    /// Write bytes to a file, creating it if it does not exist.
    fn write(&mut self, path: &str, contents: &[u8]) -> (r: Result<(), IoError>)
        ensures
            Self::keeps_model() ==> (r is Ok ==> final(self).fs_files() == old(self).fs_files().insert(
                components(path@),
                contents@,
            ) && final(self).fs_dirs() == old(self).fs_dirs() && final(self).fs_env() == old(self).fs_env()),
    ;

    /// Recursively create a directory and all its parents.
    fn create_dir_all(&mut self, path: &str) -> (r: Result<(), IoError>)
        ensures
            Self::keeps_model() ==> (r is Ok ==> final(self).fs_files() == old(self).fs_files() && old(
                self,
            ).fs_dirs().subset_of(final(self).fs_dirs()) && final(self).fs_dirs().contains(components(path@))
                && final(self).fs_env() == old(self).fs_env()),
    ;

    /// Remove a directory and everything in it.
    fn remove_dir_all(&mut self, path: &str) -> (r: Result<(), IoError>)
        ensures
            Self::keeps_model() ==> (r is Ok ==> (forall|k: Seq<Comp>|
                #[trigger] final(self).fs_files().contains_key(k) <==> old(self).fs_files().contains_key(k)
                    && !comps_prefix(components(path@), k)) && (forall|k: Seq<Comp>|
                #[trigger] final(self).fs_files().contains_key(k) ==> final(self).fs_files()[k] == old(
                    self,
                ).fs_files()[k]) && (forall|k: Seq<Comp>|
                #[trigger] final(self).fs_dirs().contains(k) <==> old(self).fs_dirs().contains(k) && !comps_prefix(
                    components(path@),
                    k,
                )) && final(self).fs_env() == old(self).fs_env()),
    ;

    /// Remove a file.
    fn remove_file(&mut self, path: &str) -> (r: Result<(), IoError>)
        ensures
            Self::keeps_model() ==> (r is Ok ==> final(self).fs_files() == old(self).fs_files().remove(
                components(path@),
            ) && final(self).fs_dirs() == old(self).fs_dirs() && final(self).fs_env() == old(self).fs_env()),
    ;

    /// Copy a file; returns the number of bytes copied.
    fn copy(&mut self, from: &str, to: &str) -> (r: Result<u64, IoError>)
        ensures
            Self::keeps_model() ==> (r is Ok ==> old(self).fs_files().contains_key(components(from@))
                && final(self).fs_files() == old(self).fs_files().insert(
                components(to@),
                old(self).fs_files()[components(from@)],
            ) && final(self).fs_dirs() == old(self).fs_dirs() && final(self).fs_env() == old(self).fs_env()),
    ;

    /// Does the path exist?
    fn path_exists(&self, path: &str) -> (r: Result<bool, IoError>)
        ensures
            Self::keeps_model() ==> (r matches Ok(b) ==> b == (self.fs_files().contains_key(components(path@))
                || self.fs_dirs().contains(components(path@)))),
    ;

    /// Is the path a file?
    fn is_file(&self, path: &str) -> (r: Result<bool, IoError>)
        ensures
            Self::keeps_model() ==> (r matches Ok(b) ==> b == self.fs_files().contains_key(components(path@))),
    ;

    /// Is the path a directory?
    fn is_dir(&self, path: &str) -> (r: Result<bool, IoError>)
        ensures
            Self::keeps_model() ==> (r matches Ok(b) ==> b == self.fs_dirs().contains(components(path@))),
    ;

    /// Size of the file in bytes, as its metadata reports it.
    fn file_len(&self, path: &str) -> Result<u64, IoError>;

    /// Resolve a path to an absolute one.
    fn canonicalize(&self, path: &str) -> Result<String, IoError>;

    /// The paths of the entries of a directory.
    fn read_dir(&self, path: &str) -> Result<Vec<String>, IoError>;

    /// Every entry below a directory (the root itself excluded), as the
    /// program's walker reports it: entries that ignore files (such as
    /// `.gitignore`) exclude are left out, and so are hidden ones when
    /// `hidden` is set; symbolic links are followed when `follow_links` is.
    fn walk_dir(&self, path: &str, follow_links: bool, hidden: bool) -> Result<
        Vec<WalkEntry>,
        IoError,
    >;

    /// Every entry below a directory (the root itself excluded), with no
    /// ignore rules, a directory before what it holds; symbolic links are
    /// followed when `follow_links` is set.
    fn walk_all(&self, path: &str, follow_links: bool) -> (r: Result<Vec<WalkEntry>, IoError>)
        ensures
            Self::keeps_model() ==> (r matches Ok(v) ==> walk_matches(
                v@,
                walk_rendered(self.fs_files(), self.fs_dirs(), components(path@)),
            )),
    ;

    /// Create a temporary directory.
    fn create_temp_dir(&mut self) -> Result<Self::TempDir, IoError>;
}


/// What a finished process left: whether it succeeded, its exit code (none
/// when a signal ended it), and its output read as UTF-8 (invalid sequences
/// replaced).
#[derive(Debug)]
pub struct ProcessOutput {
    pub success: bool,
    pub code: Option<i32>,
    pub stdout: String,
    pub stderr: String,
}

/// A run that the library asked of a [`ProcessRunner`]: the program, its
/// arguments, the directory it runs in (none: the current one), and whether
/// the terminal was attached.
pub type RunRequest = (Seq<char>, Seq<Seq<char>>, Option<Seq<char>>, bool);

/// The view of an optional directory argument.
pub open spec fn dir_view(cwd: Option<&str>) -> Option<Seq<char>> {
    match cwd {
        Some(d) => Some(d@),
        None => None,
    }
}

/// The request for running `program` with `args` in `cwd`.
pub open spec fn run_request(program: Seq<char>, args: Seq<String>, cwd: Option<&str>, attached: bool) -> RunRequest {
    (program, string_views(args), dir_view(cwd), attached)
}

/// A sequence of runs begins with another one followed by more runs.
pub(crate) proof fn lemma_prefix_append(a: Seq<RunRequest>, b: Seq<RunRequest>)
    ensures
        a.is_prefix_of(a + b),
{
    assert((a + b).subrange(0, a.len() as int) =~= a);
}

/// Beginning with is transitive.
pub(crate) proof fn lemma_prefix_trans(a: Seq<RunRequest>, b: Seq<RunRequest>, c: Seq<RunRequest>)
    requires
        a.is_prefix_of(b),
        b.is_prefix_of(c),
    ensures
        a.is_prefix_of(c),
{
    assert(c.subrange(0, a.len() as int) =~= b.subrange(0, a.len() as int));
}

/// A run added at the end keeps what the runs began with.
pub(crate) proof fn lemma_prefix_push(a: Seq<RunRequest>, b: Seq<RunRequest>, x: RunRequest)
    requires
        a.is_prefix_of(b),
    ensures
        a.is_prefix_of(b.push(x)),
{
    assert(b.push(x).subrange(0, a.len() as int) =~= b.subrange(0, a.len() as int));
}

/// Runs programs for the library. A runner keeps, as its model, the runs
/// asked of it, in order; each call adds its own request, whether or not the
/// program could be started. What a run gives back is the outside world's
/// answer: nothing is promised of it.
pub trait ProcessRunner {
    /// The runs asked of this runner so far, oldest first.
    spec fn requests(&self) -> Seq<RunRequest>;

    /// Whether programs run on Windows.
    spec fn on_windows(&self) -> bool;

    /// Does the program run on Windows?
    fn is_windows(&self) -> (r: bool)
        ensures
            r == self.on_windows(),
    ;

    /// Run a program with arguments, in a directory when one is given (else
    /// in the current one), wait for it, and capture its output.
    fn run(&mut self, program: &str, args: &[String], cwd: Option<&str>) -> (r: Result<
        ProcessOutput,
        IoError,
    >)
        ensures
            final(self).requests() == old(self).requests().push(run_request(program@, args@, cwd, false)),
            final(self).on_windows() == old(self).on_windows(),
    ;

    /// Run a program with arguments in a directory, with the terminal's
    /// input and output, and wait for it (the output is empty).
    fn run_attached(&mut self, program: &str, args: &[String], cwd: Option<&str>) -> (r: Result<
        ProcessOutput,
        IoError,
    >)
        ensures
            final(self).requests() == old(self).requests().push(run_request(program@, args@, cwd, true)),
            final(self).on_windows() == old(self).on_windows(),
    ;
}

/// What runs programs for a [`HostRunner`]: the program implements it over
/// the operating system. It promises nothing.
pub trait RunBackend {
    /// Does the program run on Windows?
    fn is_windows(&self) -> bool;

    /// Run a program with arguments, in a directory when one is given, wait
    /// for it, and capture its output.
    fn run(&mut self, program: &str, args: &[String], cwd: Option<&str>) -> Result<ProcessOutput, IoError>;

    /// Run a program with arguments in a directory, with the terminal's
    /// input and output, and wait for it.
    fn run_attached(&mut self, program: &str, args: &[String], cwd: Option<&str>) -> Result<ProcessOutput, IoError>;
}

/// A [`ProcessRunner`] over a backend: it passes each run on and keeps the
/// runs asked of it as its model. Whether programs run on Windows is asked
/// of the backend once, when the runner is made.
pub struct HostRunner<B: RunBackend> {
    backend: B,
    windows: bool,
    log: Ghost<Seq<RunRequest>>,
}

impl<B: RunBackend> HostRunner<B> {
    /// A runner over the backend that has run nothing yet.
    pub fn new(backend: B) -> (r: HostRunner<B>)
        ensures
            r.requests() == Seq::<RunRequest>::empty(),
    {
        let windows = backend.is_windows();
        HostRunner { backend, windows, log: Ghost(Seq::empty()) }
    }

    /// The backend.
    pub fn backend(&self) -> &B {
        &self.backend
    }
}

impl<B: RunBackend> ProcessRunner for HostRunner<B> {
    closed spec fn requests(&self) -> Seq<RunRequest> {
        self.log@
    }

    closed spec fn on_windows(&self) -> bool {
        self.windows
    }

    fn is_windows(&self) -> (r: bool) {
        self.windows
    }

    fn run(&mut self, program: &str, args: &[String], cwd: Option<&str>) -> (r: Result<ProcessOutput, IoError>) {
        self.log = Ghost(self.log@.push(run_request(program@, args@, cwd, false)));
        self.backend.run(program, args, cwd)
    }

    fn run_attached(&mut self, program: &str, args: &[String], cwd: Option<&str>) -> (r: Result<
        ProcessOutput,
        IoError,
    >) {
        self.log = Ghost(self.log@.push(run_request(program@, args@, cwd, true)));
        self.backend.run_attached(program, args, cwd)
    }
}

} // verus!
