//! Git sparse checkout: fetching one path of a repository at a reference
//! into a temporary directory, and the Git version check.

use vstd::prelude::*;
use crate::error::{ErrorKind, GraftError, IoError};
use crate::git::repository::{Repository, RepositorySource};
use crate::path::{file_name, join, path_file_name, path_join};
use crate::system::{lemma_prefix_push, run_request, ProcessOutput, ProcessRunner, RunRequest, System, TempDirHandle};
use crate::text::{
    all_digits, chars_of, concat, concat3, digits_value, is_whitespace, is_whitespace_exec,
    lines, lines_exec, owned, seq_starts_with, split_char, split_char_exec, split_ws, str_eq,
    string_from_range, string_views, trim_str, trimmed, words,
};

verus! {

/// Why a string is not a `u32` (`core::num::IntErrorKind`).
#[derive(Debug, Clone, Copy, PartialEq, Eq)]
pub enum IntParseError {
    Empty,
    InvalidDigit,
    PosOverflow,
}

/// The outcome of reading decimal digits left to right from `acc`: the first
/// non-digit is an invalid digit, the first step past `u32::MAX` an overflow.
pub open spec fn scan_digits(s: Seq<char>, acc: nat) -> Result<nat, IntParseError>
    decreases s.len(),
{
    if s.len() == 0 {
        Ok(acc)
    } else if !('0' <= s[0] && s[0] <= '9') {
        Err(IntParseError::InvalidDigit)
    } else {
        let next = acc * 10 + ((s[0] as u32) - ('0' as u32)) as nat;
        if next > u32::MAX {
            Err(IntParseError::PosOverflow)
        } else {
            scan_digits(s.drop_first(), next)
        }
    }
}

/// `str::parse::<u32>`: an optional `+` and then decimal digits.
pub open spec fn parse_u32_spec(s: Seq<char>) -> Result<nat, IntParseError> {
    if s.len() == 0 {
        Err(IntParseError::Empty)
    } else if s[0] == '+' {
        if s.len() == 1 {
            Err(IntParseError::InvalidDigit)
        } else {
            scan_digits(s.drop_first(), 0)
        }
    } else {
        scan_digits(s, 0)
    }
}

/// Human-readable form of an integer parse error (`ParseIntError`'s Display).
pub open spec fn int_error_text(e: IntParseError) -> Seq<char> {
    match e {
        IntParseError::Empty => "cannot parse integer from empty string"@,
        IntParseError::InvalidDigit => "invalid digit found in string"@,
        IntParseError::PosOverflow => "number too large to fit in target type"@,
    }
}

/// What `parse_git_version` yields: the first three dot-separated parts read
/// as numbers, or the error of the first part that is not one.
pub open spec fn git_version_spec(v: Seq<char>) -> Result<(nat, nat, nat), Seq<char>> {
    let parts = split_char(v, '.');
    if parts.len() >= 3 {
        match parse_u32_spec(parts[0]) {
            Err(e) => Err("Invalid major version: "@ + int_error_text(e)),
            Ok(major) => match parse_u32_spec(parts[1]) {
                Err(e) => Err("Invalid minor version: "@ + int_error_text(e)),
                Ok(minor) => match parse_u32_spec(parts[2]) {
                    Err(e) => Err("Invalid patch version: "@ + int_error_text(e)),
                    Ok(patch) => Ok((major, minor, patch)),
                },
            },
        }
    } else {
        Err("Invalid version format"@)
    }
}

/// Lexicographic `<` on version triples.
pub open spec fn version_lt(a: (nat, nat, nat), b: (nat, nat, nat)) -> bool {
    a.0 < b.0 || (a.0 == b.0 && (a.1 < b.1 || (a.1 == b.1 && a.2 < b.2)))
}

/// The third whitespace-separated word of `git --version` output, when it
/// parses as a version older than 2.25.0.
pub open spec fn git_too_old(out: Seq<char>) -> bool {
    &&& words(out).len() > 2
    &&& git_version_spec(words(out)[2]) matches Ok(v)
    &&& version_lt(v, (2, 25, 0))
}

/// Read digits left to right from `acc`.
fn scan_digits_exec(v: &[char], start: usize, acc0: u32) -> (r: Result<u32, IntParseError>)
    requires
        start <= v.len(),
    ensures
        match scan_digits(v@.skip(start as int), acc0 as nat) {
            Ok(n) => r matches Ok(x) && x == n,
            Err(e) => r == Err::<u32, IntParseError>(e),
        },
{
    let mut i: usize = start;
    let mut acc: u32 = acc0;
    while i < v.len()
        invariant
            start <= i <= v.len(),
            scan_digits(v@.skip(start as int), acc0 as nat) == scan_digits(v@.skip(i as int), acc as nat),
        decreases v.len() - i,
    {
        let c = v[i];
        assert(v@.skip(i as int)[0] == c);
        assert(v@.skip(i as int).drop_first() =~= v@.skip(i as int + 1));
        if !('0' <= c && c <= '9') {
            return Err(IntParseError::InvalidDigit);
        }
        let d = (c as u32) - ('0' as u32);
        if acc > 429496729 || (acc == 429496729 && d > 5) {
            assert(acc as nat * 10 + d as nat > u32::MAX);
            return Err(IntParseError::PosOverflow);
        }
        acc = acc * 10 + d;
        i = i + 1;
    }
    assert(v@.skip(i as int) =~= Seq::<char>::empty());
    Ok(acc)
}

/// `str::parse::<u32>`.
pub fn parse_u32(s: &str) -> (r: Result<u32, IntParseError>)
    ensures
        match parse_u32_spec(s@) {
            Ok(n) => r matches Ok(x) && x == n,
            Err(e) => r == Err::<u32, IntParseError>(e),
        },
{
    let v = chars_of(s);
    if v.len() == 0 {
        return Err(IntParseError::Empty);
    }
    if v[0] == '+' {
        if v.len() == 1 {
            return Err(IntParseError::InvalidDigit);
        }
        assert(v@.skip(1) =~= s@.drop_first());
        scan_digits_exec(v.as_slice(), 1, 0)
    } else {
        assert(v@.skip(0) =~= s@);
        scan_digits_exec(v.as_slice(), 0, 0)
    }
}

/// Human-readable form of an integer parse error.
pub fn int_error_message(e: IntParseError) -> (r: String)
    ensures
        r@ == int_error_text(e),
{
    match e {
        IntParseError::Empty => owned("cannot parse integer from empty string"),
        IntParseError::InvalidDigit => owned("invalid digit found in string"),
        IntParseError::PosOverflow => owned("number too large to fit in target type"),
    }
}

/// Parse a Git version string into a tuple (major, minor, patch).
pub fn parse_git_version(version: &str) -> (r: Result<(u32, u32, u32), GraftError>)
    ensures
        match git_version_spec(version@) {
            Ok(t) => r matches Ok(x) && x.0 == t.0 && x.1 == t.1 && x.2 == t.2,
            Err(m) => r matches Err(e) && e.is(ErrorKind::Other, m),
        },
{
    let parts = split_char_exec(version, '.');
    let ghost ps = parts@.map_values(|x: String| x@);
    if parts.len() >= 3 {
        assert(parts@[0]@ == ps[0]);
        assert(parts@[1]@ == ps[1]);
        assert(parts@[2]@ == ps[2]);
        let major = match parse_u32(parts[0].as_str()) {
            Ok(x) => x,
            Err(e) => {
                let m = int_error_message(e);
                return Err(GraftError::other(concat("Invalid major version: ", m.as_str())));
            },
        };
        let minor = match parse_u32(parts[1].as_str()) {
            Ok(x) => x,
            Err(e) => {
                let m = int_error_message(e);
                return Err(GraftError::other(concat("Invalid minor version: ", m.as_str())));
            },
        };
        let patch = match parse_u32(parts[2].as_str()) {
            Ok(x) => x,
            Err(e) => {
                let m = int_error_message(e);
                return Err(GraftError::other(concat("Invalid patch version: ", m.as_str())));
            },
        };
        Ok((major, minor, patch))
    } else {
        Err(GraftError::other(owned("Invalid version format")))
    }
}

/// The whitespace-separated words of a string (`str::split_whitespace`).
pub fn words_exec(s: &str) -> (r: Vec<String>)
    ensures
        r@.map_values(|x: String| x@) == words(s@),
{
    let v = chars_of(s);
    let mut out: Vec<String> = Vec::new();
    let mut cur: Vec<char> = Vec::new();
    let mut i: usize = 0;
    let ghost mut done: Seq<Seq<char>> = Seq::empty();
    assert(v@.take(0) =~= Seq::<char>::empty());
    assert(split_ws(Seq::<char>::empty()) =~= done.push(cur@));
    proof {
        reveal_with_fuel(Seq::<Seq<char>>::filter, 1);
    }
    assert(done.filter(|w: Seq<char>| w.len() > 0) =~= Seq::<Seq<char>>::empty());
    while i < v.len()
        invariant
            i <= v.len(),
            v@ == s@,
            split_ws(v@.take(i as int)) == done.push(cur@),
            out@.map_values(|x: String| x@) == done.filter(|w: Seq<char>| w.len() > 0),
        decreases v.len() - i,
    {
        let c = v[i];
        assert(v@.take(i as int + 1).drop_last() =~= v@.take(i as int));
        if is_whitespace_exec(c) {
            let ghost nd = done.push(cur@);
            let ghost before = out@.map_values(|x: String| x@);
            assert(nd.drop_last() =~= done);
            if cur.len() > 0 {
                let w = string_from_range(cur.as_slice(), 0, cur.len());
                assert(cur@.subrange(0, cur@.len() as int) =~= cur@);
                out.push(w);
                assert(out@.map_values(|x: String| x@) =~= before.push(cur@));
            }
            proof {
                reveal_with_fuel(Seq::<Seq<char>>::filter, 1);
            }
            assert(nd.filter(|w: Seq<char>| w.len() > 0) =~= out@.map_values(|x: String| x@));
            proof {
                done = nd;
            }
            cur = Vec::new();
            assert(split_ws(v@.take(i as int + 1)) =~= done.push(cur@));
        } else {
            let ghost old_cur = cur@;
            cur.push(c);
            assert(split_ws(v@.take(i as int + 1)) =~= done.push(old_cur).update(
                done.len() as int,
                old_cur.push(c),
            ));
            assert(done.push(cur@) =~= done.push(old_cur).update(
                done.len() as int,
                old_cur.push(c),
            ));
        }
        i = i + 1;
    }
    assert(v@.take(v.len() as int) =~= v@);
    let ghost nd = done.push(cur@);
    assert(nd.drop_last() =~= done);
    let ghost before = out@.map_values(|x: String| x@);
    if cur.len() > 0 {
        let w = string_from_range(cur.as_slice(), 0, cur.len());
        assert(cur@.subrange(0, cur@.len() as int) =~= cur@);
        out.push(w);
        assert(out@.map_values(|x: String| x@) =~= before.push(cur@));
    }
    proof {
        reveal_with_fuel(Seq::<Seq<char>>::filter, 1);
    }
    assert(nd.filter(|w: Seq<char>| w.len() > 0) =~= out@.map_values(|x: String| x@));
    out
}

/// Decide from the output of `git --version` whether Git is recent enough
/// (2.25.0 or later) for sparse checkout. Output that does not parse is
/// accepted.
pub fn check_git_version_output(version_output: &str) -> (r: Result<(), GraftError>)
    ensures
        r is Ok <==> !git_too_old(version_output@),
        r matches Err(e) ==> e.is(
            ErrorKind::Git,
            "Git version "@ + words(version_output@)[2]
                + " is too old. TixGraft requires Git 2.25.0 or later for sparse checkout support"@,
        ),
{
    let ws = words_exec(version_output);
    if ws.len() > 2 {
        let part = &ws[2];
        assert(part@ == words(version_output@)[2]);
        if let Ok(v) = parse_git_version(part.as_str()) {
            let (a, b, c) = v;
            if a < 2 || (a == 2 && (b < 25 || (b == 25 && c < 0))) {
                let m = concat3(
                    "Git version ",
                    part.as_str(),
                    " is too old. TixGraft requires Git 2.25.0 or later for sparse checkout support",
                );
                return Err(GraftError::git(m));
            }
        }
    }
    Ok(())
}


/// Performs a sparse checkout of a specific path from a Git repository.
pub struct SparseCheckout<T: TempDirHandle> {
    pub repository: Repository,
    pub reference: String,
    pub source_path: String,
    /// The temporary directory the repository is cloned into; it lives as
    /// long as the checkout.
    pub temp_dir: T,
    /// The path of the temporary directory.
    pub temp_path: String,
}

/// Run `git` with the arguments; a failure to start gives `launch_message`,
/// a failure of `git` gives a Git error of `prefix` and its error output.
fn run_git<P: ProcessRunner>(
    runner: &mut P,
    args: &[String],
    cwd: Option<&str>,
    launch_message: &str,
    prefix: String,
) -> (r: Result<(), GraftError>)
    ensures
        r matches Err(e) ==> e.is(ErrorKind::Other, launch_message@) || (e.kind_of() == ErrorKind::Git
            && seq_starts_with(e.message_of(), prefix@)),
        final(runner).requests() == old(runner).requests().push(run_request("git"@, args@, cwd, false)),
        final(runner).on_windows() == old(runner).on_windows(),
{
    let output = match runner.run("git", args, cwd) {
        Ok(o) => o,
        Err(_) => return Err(GraftError::other(owned(launch_message))),
    };
    if !output.success {
        let mut m = prefix;
        let ghost p = m@;
        m.append(trim_str(output.stderr.as_str()).as_str());
        assert(seq_starts_with(m@, p)) by {
            assert(m@.subrange(0, p.len() as int) =~= p);
        }
        return Err(GraftError::git(m));
    }
    Ok(())
}

/// The `git` arguments of the steps of a sparse checkout of `source` at
/// `reference` from `url` into `repo_path`, in order: a clone without
/// checkout, a cone sparse checkout, its pattern, and the checkout.
pub open spec fn git_steps(url: Seq<char>, repo_path: Seq<char>, source: Seq<char>, reference: Seq<char>) -> Seq<
    Seq<Seq<char>>,
> {
    seq![
        seq!["clone"@, "--filter=blob:none"@, "--no-checkout"@, url, repo_path],
        seq!["sparse-checkout"@, "init"@, "--cone"@],
        seq!["sparse-checkout"@, "set"@, source],
        seq!["checkout"@, reference],
    ]
}

/// Append one string.
fn push_string(v: &mut Vec<String>, s: &str)
    ensures
        string_views(final(v)@) == string_views(old(v)@).push(s@),
{
    let ghost before = string_views(v@);
    v.push(owned(s));
    assert(string_views(v@) =~= before.push(s@));
}

/// The runs of a sparse checkout, in order: the clone in the current
/// directory, then the other steps inside the repository path.
pub open spec fn checkout_requests(url: Seq<char>, repo_path: Seq<char>, source: Seq<char>, reference: Seq<char>) -> Seq<
    RunRequest,
> {
    let s = git_steps(url, repo_path, source, reference);
    seq![
        ("git"@, s[0], None::<Seq<char>>, false),
        ("git"@, s[1], Some(repo_path), false),
        ("git"@, s[2], Some(repo_path), false),
        ("git"@, s[3], Some(repo_path), false),
    ]
}

/// The `git` arguments of the steps of a sparse checkout.
pub fn git_step_args(url: &str, repo_path: &str, source: &str, reference: &str) -> (r: Vec<Vec<String>>)
    ensures
        r@.len() == 4,
        forall|i: int| 0 <= i < 4 ==> string_views(#[trigger] r@[i]@) == git_steps(url@, repo_path@, source@, reference@)[i],
{
    let mut clone: Vec<String> = Vec::new();
    push_string(&mut clone, "clone");
    push_string(&mut clone, "--filter=blob:none");
    push_string(&mut clone, "--no-checkout");
    push_string(&mut clone, url);
    push_string(&mut clone, repo_path);
    let mut init: Vec<String> = Vec::new();
    push_string(&mut init, "sparse-checkout");
    push_string(&mut init, "init");
    push_string(&mut init, "--cone");
    let mut set: Vec<String> = Vec::new();
    push_string(&mut set, "sparse-checkout");
    push_string(&mut set, "set");
    push_string(&mut set, source);
    let mut checkout: Vec<String> = Vec::new();
    push_string(&mut checkout, "checkout");
    push_string(&mut checkout, reference);
    let ghost g = git_steps(url@, repo_path@, source@, reference@);
    assert(string_views(clone@) =~= g[0]);
    assert(string_views(init@) =~= g[1]);
    assert(string_views(set@) =~= g[2]);
    assert(string_views(checkout@) =~= g[3]);
    let mut steps: Vec<Vec<String>> = Vec::new();
    steps.push(clone);
    steps.push(init);
    steps.push(set);
    steps.push(checkout);
    steps
}

impl<T: TempDirHandle> SparseCheckout<T> {
    /// Create a new sparse checkout operation with a fresh temporary directory.
    pub fn new<S: System<TempDir = T>>(
        system: &mut S,
        repository: Repository,
        reference: String,
        source_path: String,
    ) -> (r: Result<SparseCheckout<T>, GraftError>)
        ensures
            r matches Ok(c) ==> c.repository == repository && c.reference == reference && c.source_path
                == source_path,
            r matches Err(e) ==> e.is(
                ErrorKind::Other,
                "Failed to create temporary directory for Git operations"@,
            ),
    {
        let temp_dir = match system.create_temp_dir() {
            Ok(t) => t,
            Err(_) => return Err(
                GraftError::other(owned("Failed to create temporary directory for Git operations")),
            ),
        };
        let temp_path = owned(temp_dir.path());
        Ok(SparseCheckout { repository, reference, source_path, temp_dir, temp_path })
    }

    /// Get the path to the temporary directory.
    pub fn temp_path(&self) -> (r: &str)
        ensures
            r@ == self.temp_path@,
    {
        self.temp_path.as_str()
    }

    /// Execute the sparse checkout: clone without checkout, set up a cone
    /// sparse checkout of the source path, and check out the reference.
    /// Gives the path of the source inside the temporary directory.
    pub fn execute<P: ProcessRunner>(&self, runner: &mut P) -> (r: Result<String, GraftError>)
        ensures
            r matches Ok(p) ==> p@ == join(self.temp_path@, self.source_path@),
            old(runner).requests().is_prefix_of(final(runner).requests()),
            final(runner).on_windows() == old(runner).on_windows(),
            r is Ok ==> (self.repository.source matches RepositorySource::Git { normalized_url, .. }
                && final(runner).requests() == old(runner).requests() + checkout_requests(
                normalized_url@,
                self.temp_path@,
                self.source_path@,
                self.reference@,
            )),
            self.repository.source is Local ==> (r matches Err(e) && e.is(
                ErrorKind::Git,
                "git_url() called on Local repository source"@,
            )),
    {
        let repo_path = self.temp_path.as_str();
        let url = self.repository.git_url()?;
        let steps = git_step_args(url, repo_path, self.source_path.as_str(), self.reference.as_str());
        let mut prefix = owned("Failed to clone repository '");
        prefix.append(self.repository.original_url());
        prefix.append("': ");
        let ghost start = runner.requests();
        let ghost s = git_steps(url@, repo_path@, self.source_path@, self.reference@);
        proof {
            assert(start.subrange(0, start.len() as int) =~= start);
        }
        let r0 = run_git(runner, steps[0].as_slice(), None, "Failed to execute git clone command", prefix);
        proof {
            lemma_prefix_push(start, start, run_request("git"@, steps@[0]@, None, false));
        }
        r0?;
        let ghost one = runner.requests();
        let r1 = run_git(
            runner,
            steps[1].as_slice(),
            Some(repo_path),
            "Failed to execute git sparse-checkout init",
            owned("Failed to initialize sparse checkout: "),
        );
        proof {
            lemma_prefix_push(start, one, run_request("git"@, steps@[1]@, Some(repo_path), false));
        }
        r1?;
        let ghost two = runner.requests();
        let r2 = run_git(
            runner,
            steps[2].as_slice(),
            Some(repo_path),
            "Failed to execute git sparse-checkout set",
            owned("Failed to set sparse checkout patterns: "),
        );
        proof {
            lemma_prefix_push(start, two, run_request("git"@, steps@[2]@, Some(repo_path), false));
        }
        r2?;
        let ghost three = runner.requests();
        let mut prefix = owned("Failed to checkout reference '");
        prefix.append(self.reference.as_str());
        prefix.append("': ");
        let r3 = run_git(runner, steps[3].as_slice(), Some(repo_path), "Failed to execute git checkout", prefix);
        proof {
            lemma_prefix_push(start, three, run_request("git"@, steps@[3]@, Some(repo_path), false));
        }
        r3?;
        proof {
            assert(string_views(steps@[0]@) == s[0]);
            assert(string_views(steps@[1]@) == s[1]);
            assert(string_views(steps@[2]@) == s[2]);
            assert(string_views(steps@[3]@) == s[3]);
            assert(runner.requests() =~= start + checkout_requests(
                url@,
                self.temp_path@,
                self.source_path@,
                self.reference@,
            ));
        }
        Ok(path_join(repo_path, self.source_path.as_str()))
    }

    /// Check if the source path exists after checkout.
    pub fn source_exists<S: System>(&self, system: &S) -> (r: bool) {
        let p = path_join(self.temp_path.as_str(), self.source_path.as_str());
        match system.path_exists(p.as_str()) {
            Ok(b) => b,
            Err(_) => false,
        }
    }

    /// The first lines of the diagnostics.
    pub open spec fn diagnostics_header(&self) -> Seq<char> {
        "Sparse checkout diagnostics:\n  Repository: "@ + self.repository.url@ + "\n  Reference: "@
            + self.reference@ + "\n  Requested path: "@ + self.source_path@ + "\n\n  Temp directory: "@
            + self.temp_path@ + "\n  Checked out files:\n"@
    }

    /// Diagnostic information about what was actually checked out: the
    /// request, the entries of the temporary directory (without `.git`), and
    /// the sparse-checkout patterns when they can be read.
    pub fn get_checkout_diagnostics<S: System>(&self, system: &S) -> (r: Result<String, GraftError>)
        ensures
            r matches Ok(d) && seq_starts_with(d@, self.diagnostics_header()),
            r matches Ok(d) && exists|es: Option<Seq<Seq<char>>>, pc: Option<Seq<char>>|
                d@ == self.diagnostics_header() + #[trigger] files_text(es) + #[trigger] patterns_text(pc),
    {
        let mut d = owned("Sparse checkout diagnostics:\n  Repository: ");
        d.append(self.repository.original_url());
        d.append("\n  Reference: ");
        d.append(self.reference.as_str());
        d.append("\n  Requested path: ");
        d.append(self.source_path.as_str());
        d.append("\n\n  Temp directory: ");
        d.append(self.temp_path.as_str());
        d.append("\n  Checked out files:\n");
        let ghost header = d@;
        assert(header =~= self.diagnostics_header());
        let read = system.read_dir(self.temp_path.as_str());
        let ghost es: Option<Seq<Seq<char>>> = match &read {
            Ok(v) => Some(string_views(v@)),
            Err(_) => None,
        };
        let listing = files_listing(read);
        d.append(listing.as_str());
        let config_path = path_join(self.temp_path.as_str(), ".git/info/sparse-checkout");
        let exists = match system.path_exists(config_path.as_str()) {
            Ok(b) => b,
            Err(_) => false,
        };
        let content: Option<String> = if exists {
            match system.read_to_string(config_path.as_str()) {
                Ok(c) => Some(c),
                Err(_) => None,
            }
        } else {
            None
        };
        let ghost pc: Option<Seq<char>> = match &content {
            Some(c) => Some(c@),
            None => None,
        };
        let patterns = patterns_listing(content);
        d.append(patterns.as_str());
        assert(d@ =~= header + files_text(es) + patterns_text(pc));
        assert(d@.subrange(0, header.len() as int) =~= header);
        Ok(d)
    }
}

/// The names that the diagnostics list of a directory's entries: each
/// entry's file name, `.git` left out.
pub open spec fn listed_names(entries: Seq<Seq<char>>) -> Seq<Seq<char>>
    decreases entries.len(),
{
    if entries.len() == 0 {
        Seq::empty()
    } else {
        let prev = listed_names(entries.drop_last());
        match file_name(entries.last()) {
            Some(n) => if n != ".git"@ {
                prev.push(n)
            } else {
                prev
            },
            None => prev,
        }
    }
}

/// Lines of text, each made of a prefix, an item and a line break.
pub open spec fn prefixed_lines(prefix: Seq<char>, items: Seq<Seq<char>>) -> Seq<char>
    decreases items.len(),
{
    if items.len() == 0 {
        Seq::empty()
    } else {
        prefixed_lines(prefix, items.drop_last()) + prefix + items.last() + "\n"@
    }
}

/// What the diagnostics say of the checked-out files, given the entries of
/// the temporary directory (`None` when it could not be read).
pub open spec fn files_text(entries: Option<Seq<Seq<char>>>) -> Seq<char> {
    match entries {
        None => "    (unable to read directory)\n"@,
        Some(es) => if listed_names(es).len() == 0 {
            "    (empty - no files were checked out)\n"@
        } else {
            prefixed_lines("    - "@, listed_names(es))
        },
    }
}

/// What the diagnostics say of the sparse-checkout patterns, given the text
/// of the pattern file when it could be read.
pub open spec fn patterns_text(content: Option<Seq<char>>) -> Seq<char> {
    match content {
        None => Seq::empty(),
        Some(c) => "  Sparse-checkout patterns:\n"@ + prefixed_lines("    "@, lines(c)),
    }
}

/// The diagnostics' listing of the checked-out files, given what reading the
/// temporary directory gave.
pub fn files_listing(entries: Result<Vec<String>, IoError>) -> (r: String)
    ensures
        r@ == files_text(
            match entries {
                Ok(v) => Some(string_views(v@)),
                Err(_) => None,
            },
        ),
{
    match entries {
        Ok(v) => {
            let ghost sv = string_views(v@);
            let mut d = String::new();
            let mut i: usize = 0;
            assert(sv.take(0) =~= Seq::<Seq<char>>::empty());
            while i < v.len()
                invariant
                    i <= v.len(),
                    sv == string_views(v@),
                    d@ == prefixed_lines("    - "@, listed_names(sv.take(i as int))),
                decreases v.len() - i,
            {
                proof {
                    assert(sv.take(i as int + 1).drop_last() =~= sv.take(i as int));
                    assert(sv.take(i as int + 1).last() == v@[i as int]@);
                }
                if let Some(name) = path_file_name(v[i].as_str()) {
                    if !str_eq(name.as_str(), ".git") {
                        let ghost before = d@;
                        let ghost names = listed_names(sv.take(i as int));
                        d.append("    - ");
                        d.append(name.as_str());
                        d.append("\n");
                        assert(names.push(name@).drop_last() =~= names);
                        assert(d@ =~= before + "    - "@ + name@ + "\n"@);
                    }
                }
                i = i + 1;
            }
            assert(sv.take(i as int) =~= sv);
            if d.as_str().is_empty() {
                proof {
                    if listed_names(sv).len() > 0 {
                        let ns = listed_names(sv);
                        assert(prefixed_lines("    - "@, ns).len() >= ns.last().len() + 7) by {
                            reveal_strlit("    - ");
                            reveal_strlit("\n");
                        }
                    }
                }
                return owned("    (empty - no files were checked out)\n");
            }
            proof {
                if listed_names(sv).len() == 0 {
                    assert(d@ =~= Seq::<char>::empty());
                }
            }
            d
        },
        Err(_) => owned("    (unable to read directory)\n"),
    }
}

/// The diagnostics' listing of the sparse-checkout patterns, given the text
/// of the pattern file when it could be read.
pub fn patterns_listing(content: Option<String>) -> (r: String)
    ensures
        r@ == patterns_text(
            match content {
                Some(c) => Some(c@),
                None => None,
            },
        ),
{
    match content {
        None => String::new(),
        Some(c) => {
            let mut d = owned("  Sparse-checkout patterns:\n");
            let ghost head = d@;
            let ls = lines_exec(c.as_str());
            let ghost lv = string_views(ls@);
            let mut k: usize = 0;
            assert(lv.take(0) =~= Seq::<Seq<char>>::empty());
            assert(d@ =~= head + prefixed_lines("    "@, lv.take(0)));
            while k < ls.len()
                invariant
                    k <= ls.len(),
                    lv == string_views(ls@),
                    d@ == head + prefixed_lines("    "@, lv.take(k as int)),
                decreases ls.len() - k,
            {
                let ghost before = d@;
                d.append("    ");
                d.append(ls[k].as_str());
                d.append("\n");
                proof {
                    assert(lv.take(k as int + 1).drop_last() =~= lv.take(k as int));
                    assert(lv.take(k as int + 1).last() == ls@[k as int]@);
                    assert(d@ =~= head + prefixed_lines("    "@, lv.take(k as int + 1)));
                }
                k = k + 1;
            }
            assert(lv.take(k as int) =~= lv);
            d
        },
    }
}

/// Check that Git is available and recent enough (2.25.0 or later) for
/// sparse checkout.
pub fn check_git_availability<P: ProcessRunner>(runner: &mut P) -> (r: Result<(), GraftError>)
    ensures
        r matches Err(e) ==> e.is(
            ErrorKind::Other,
            "Git command not found. Please ensure Git is installed and available in PATH"@,
        ) || e.is(ErrorKind::Git, "Git command failed to execute properly"@) || e.kind_of()
            == ErrorKind::Git,
        final(runner).requests() == old(runner).requests().push(("git"@, seq!["--version"@], None::<Seq<char>>, false)),
        final(runner).on_windows() == old(runner).on_windows(),
{
    let mut args: Vec<String> = Vec::new();
    args.push(owned("--version"));
    assert(string_views(args@) =~= seq!["--version"@]);
    let output = match runner.run("git", args.as_slice(), None) {
        Ok(o) => o,
        Err(_) => return Err(
            GraftError::other(
                owned("Git command not found. Please ensure Git is installed and available in PATH"),
            ),
        ),
    };
    if !output.success {
        return Err(GraftError::git(owned("Git command failed to execute properly")));
    }
    check_git_version_output(output.stdout.as_str())
}

} // verus!
