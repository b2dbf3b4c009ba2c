//! Git repository handling and URL parsing.

use vstd::prelude::*;
use crate::error::{EnvVarError, ErrorKind, GraftError, IoError};
use crate::path::{extension, is_absolute, join, lemma_extension_git, path_extension, path_is_absolute, path_join};
use crate::system::System;
use crate::text::{
    chars_of, concat, concat3, count_char, count_char_exec, eq_ignore_ascii_case, has_char,
    has_char_exec, owned, seq_starts_with, skip_chars, str_eq_ignore_ascii_case,
    str_starts_with,
};

verus! {

/// Represents a repository source - either Git or local filesystem.
#[derive(Debug, Clone)]
pub enum RepositorySource {
    /// Git repository with URL.
    Git {
        /// Original URL as provided by user.
        original_url: String,
        /// Normalized URL for Git operations.
        normalized_url: String,
    },
    /// Local filesystem path.
    Local {
        /// Original path string as provided by user.
        original_path: String,
        /// Resolved absolute path.
        resolved_path: String,
    },
}

/// Represents a repository with URL normalization.
#[derive(Debug, Clone)]
pub struct Repository {
    /// Original URL as provided by user.
    pub url: String,
    /// Repository source.
    pub source: RepositorySource,
}

// ---------------------------------------------------------------------------
// Specifications
// ---------------------------------------------------------------------------

/// The URL is a plain HTTP(S) one.
pub open spec fn is_http_url(url: Seq<char>) -> bool {
    seq_starts_with(url, "https://"@) || seq_starts_with(url, "http://"@)
}

/// The URL already names a `.git` resource (extension `git`, any case).
pub open spec fn has_git_extension(url: Seq<char>) -> bool {
    extension(url) matches Some(e) && eq_ignore_ascii_case(e, "git"@)
}

/// The URL is in the short `org/repo` shape (slashes, no colon).
pub open spec fn is_short_form(url: Seq<char>) -> bool {
    has_char(url, '/') && !has_char(url, ':')
}

/// Message for a short form with more than one slash.
pub open spec fn bad_short_message(url: Seq<char>) -> Seq<char> {
    "Invalid repository format: '"@ + url + "'. Expected format: 'org/repo'"@
}

/// Message for an unsupported URL.
pub open spec fn unsupported_message(url: Seq<char>) -> Seq<char> {
    "Unsupported repository URL format: '"@ + url + unsupported_tail()
}

/// The list of supported formats that ends the unsupported-URL message.
pub open spec fn unsupported_tail() -> Seq<char> {
    "'\nSupported formats:\n- Short: my_organization/repo\n- HTTPS: https://github.com/my_organization/repo.git\n- SSH: git@github.com:my_organization/repo.git\n- Local: file:///path/to/repo or ~/path/to/repo"@
}

/// The URL used for Git operations, or the error that refuses the URL.
pub open spec fn normalized_url(url: Seq<char>) -> Result<Seq<char>, (ErrorKind, Seq<char>)> {
    if is_http_url(url) {
        if has_git_extension(url) {
            Ok(url)
        } else {
            Ok(url + ".git"@)
        }
    } else if seq_starts_with(url, "git@"@) {
        Ok(url)
    } else if is_short_form(url) {
        if count_char(url, '/') == 1 {
            Ok("https://github.com/"@ + url + ".git"@)
        } else {
            Err((ErrorKind::Configuration, bad_short_message(url)))
        }
    } else {
        Err((ErrorKind::Configuration, unsupported_message(url)))
    }
}

/// Law: normalizing a normalized URL changes nothing, for a URL that does
/// not end with `/` (such a URL gains a `/.git` that is itself no `.git`
/// extension).
pub proof fn normalized_url_idempotent(url: Seq<char>)
    requires
        normalized_url(url) is Ok,
        url.len() == 0 || url.last() != '/',
    ensures
        normalized_url(normalized_url(url)->Ok_0) == normalized_url(url),
{
    reveal_strlit(".git");
    reveal_strlit("https://");
    reveal_strlit("http://");
    reveal_strlit("git@");
    reveal_strlit("git");
    reveal_strlit("https://github.com/");
    let dot_git = seq!['.', 'g', 'i', 't'];
    assert(".git"@ =~= dot_git);
    assert("git"@ =~= seq!['g', 'i', 't']);
    assert(eq_ignore_ascii_case(seq!['g', 'i', 't'], "git"@));
    if is_http_url(url) {
        if !has_git_extension(url) {
            let n = url + ".git"@;
            lemma_extension_git(url);
            assert(has_git_extension(n));
            if seq_starts_with(url, "https://"@) {
                assert(n.subrange(0, 8) =~= url.subrange(0, 8));
            } else {
                assert(n.subrange(0, 7) =~= url.subrange(0, 7));
            }
            assert(is_http_url(n));
        }
    } else if seq_starts_with(url, "git@"@) {
    } else {
        let h = "https://github.com/"@;
        let s = h + url;
        let n = s + ".git"@;
        assert(url.len() > 0);
        assert(s.last() == url.last());
        lemma_extension_git(s);
        assert(has_git_extension(n));
        assert(n.subrange(0, 8) =~= h.subrange(0, 8));
        assert(h.subrange(0, 8) =~= "https://"@);
        assert(is_http_url(n));
    }
}

/// The local path of a `file:` URL (after `file://` or `file:`).
pub open spec fn local_path_of(url: Seq<char>) -> Seq<char> {
    if seq_starts_with(url, "file://"@) {
        url.skip(7)
    } else {
        url.skip(5)
    }
}

/// Where a local path resolves, given the home directory and the current
/// directory that the system reported.
pub open spec fn resolve_local(path: Seq<char>, home: Seq<char>, cwd: Seq<char>) -> Seq<char> {
    let expanded = if path.len() > 0 && path[0] == '~' {
        home + path.drop_first()
    } else {
        path
    };
    if is_absolute(expanded) {
        expanded
    } else {
        join(cwd, expanded)
    }
}

/// The message of a local repository path that does not exist.
pub open spec fn missing_local_message(resolved: Seq<char>) -> Seq<char> {
    "Local repository path does not exist: '"@ + resolved + "'"@
}

/// The message of a local repository path that is not a directory.
pub open spec fn not_dir_local_message(resolved: Seq<char>) -> Seq<char> {
    "Local repository path is not a directory: '"@ + resolved + "'"@
}

/// A `Source` error about a local path: its resolved form (for some home
/// and current directory) does not exist or is not a directory.
pub open spec fn local_source_error(e: GraftError, path: Seq<char>) -> bool {
    exists|home: Seq<char>, cwd: Seq<char>|
        e.message_of() == missing_local_message(#[trigger] resolve_local(path, home, cwd))
            || e.message_of() == not_dir_local_message(resolve_local(path, home, cwd))
}

/// Human-readable form of an environment-variable error.
pub open spec fn env_error_text(e: EnvVarError) -> Seq<char> {
    match e {
        EnvVarError::NotPresent => "environment variable not found"@,
        EnvVarError::NotUnicode => "environment variable was not valid unicode"@,
    }
}

// ---------------------------------------------------------------------------
// Functions
// ---------------------------------------------------------------------------

/// Human-readable form of an environment-variable error.
pub fn env_error_message(e: EnvVarError) -> (r: String)
    ensures
        r@ == env_error_text(e),
{
    match e {
        EnvVarError::NotPresent => owned("environment variable not found"),
        EnvVarError::NotUnicode => owned("environment variable was not valid unicode"),
    }
}

/// An error of category `Other` carrying an I/O error's message.
pub fn io_to_graft(e: IoError) -> (r: GraftError)
    ensures
        r.is(ErrorKind::Other, e.message@),
{
    GraftError::other(e.message)
}

impl Repository {
    /// Create a new repository from a URL or local path.
    pub fn new<S: System>(system: &S, url: &str) -> (r: Result<Self, GraftError>)
        ensures
            r matches Ok(repo) ==> repo.url@ == url@,
            !seq_starts_with(url@, "file:"@) ==> match normalized_url(url@) {
                Ok(n) => r matches Ok(repo) && repo.source matches RepositorySource::Git {
                    original_url,
                    normalized_url,
                } && original_url@ == url@ && normalized_url@ == n,
                Err((k, m)) => r matches Err(e) && e.is(k, m),
            },
            seq_starts_with(url@, "file:"@) ==> (r matches Ok(repo) ==> repo.source matches RepositorySource::Local {
                original_path,
                resolved_path,
            } && original_path@ == url@ && exists|home: Seq<char>, cwd: Seq<char>|
                resolved_path@ == #[trigger] resolve_local(local_path_of(url@), home, cwd)),
            seq_starts_with(url@, "file:"@) ==> (r matches Err(e) ==> (e.kind_of() == ErrorKind::Source
                ==> local_source_error(e, local_path_of(url@)))),
    {
        let source = detect_source_type(system, url)?;
        Ok(Repository { url: owned(url), source })
    }

    /// Get the normalized URL for Git operations.
    pub fn git_url(&self) -> (r: Result<&str, GraftError>)
        ensures
            match self.source {
                RepositorySource::Git { normalized_url, .. } => r matches Ok(u) && u@
                    == normalized_url@,
                RepositorySource::Local { .. } => r matches Err(e) && e.is(
                    ErrorKind::Git,
                    "git_url() called on Local repository source"@,
                ),
            },
    {
        match &self.source {
            RepositorySource::Git { normalized_url, .. } => Ok(normalized_url.as_str()),
            RepositorySource::Local { .. } => Err(
                GraftError::git(owned("git_url() called on Local repository source")),
            ),
        }
    }

    /// Get the original URL as provided.
    pub fn original_url(&self) -> (r: &str)
        ensures
            r@ == self.url@,
    {
        self.url.as_str()
    }

    /// Check if this is a Git repository.
    pub fn is_git(&self) -> (r: bool)
        ensures
            r == (self.source is Git),
    {
        match self.source {
            RepositorySource::Git { .. } => true,
            RepositorySource::Local { .. } => false,
        }
    }

    /// Check if this is a local filesystem source.
    pub fn is_local(&self) -> (r: bool)
        ensures
            r == (self.source is Local),
    {
        match self.source {
            RepositorySource::Local { .. } => true,
            RepositorySource::Git { .. } => false,
        }
    }

    /// Get the local path (`None` for a Git source).
    pub fn local_path(&self) -> (r: Option<&String>)
        ensures
            match self.source {
                RepositorySource::Local { resolved_path, .. } => r matches Some(p) && p@
                    == resolved_path@,
                RepositorySource::Git { .. } => r is None,
            },
    {
        match &self.source {
            RepositorySource::Local { resolved_path, .. } => Some(resolved_path),
            RepositorySource::Git { .. } => None,
        }
    }
}

/// Detect whether the source is a Git repository or a local filesystem path.
pub fn detect_source_type<S: System>(system: &S, url: &str) -> (r: Result<RepositorySource, GraftError>)
    ensures
        !seq_starts_with(url@, "file:"@) ==> match normalized_url(url@) {
            Ok(n) => r matches Ok(src) && src matches RepositorySource::Git {
                original_url,
                normalized_url,
            } && original_url@ == url@ && normalized_url@ == n,
            Err((k, m)) => r matches Err(e) && e.is(k, m),
        },
        seq_starts_with(url@, "file:"@) ==> (r matches Ok(src) ==> src matches RepositorySource::Local {
            original_path,
            resolved_path,
        } && original_path@ == url@ && exists|home: Seq<char>, cwd: Seq<char>|
            resolved_path@ == #[trigger] resolve_local(local_path_of(url@), home, cwd)),
        seq_starts_with(url@, "file:"@) ==> (r matches Err(e) ==> (e.kind_of() == ErrorKind::Source
            ==> local_source_error(e, local_path_of(url@)))),
{
    if str_starts_with(url, "file:") {
        let path_str = if str_starts_with(url, "file://") {
            proof {
                reveal_strlit("file://");
            }
            skip_chars(url, 7)
        } else {
            proof {
                reveal_strlit("file:");
            }
            skip_chars(url, 5)
        };
        assert(path_str@ == local_path_of(url@));
        return create_local_source(system, url, path_str.as_str());
    }
    let normalized = normalize_repository_url(url)?;
    Ok(RepositorySource::Git { original_url: owned(url), normalized_url: normalized })
}

/// Create a local repository source, resolving the path.
pub fn create_local_source<S: System>(system: &S, original: &str, path_str: &str) -> (r: Result<
    RepositorySource,
    GraftError,
>)
    ensures
        r matches Ok(src) ==> src matches RepositorySource::Local {
            original_path,
            resolved_path,
        } && original_path@ == original@ && exists|home: Seq<char>, cwd: Seq<char>|
            resolved_path@ == #[trigger] resolve_local(path_str@, home, cwd),
        r matches Err(e) ==> e.kind_of() == ErrorKind::Configuration || e.kind_of()
            == ErrorKind::Filesystem || e.kind_of() == ErrorKind::Source || e.kind_of()
            == ErrorKind::Other,
        r matches Err(e) ==> (e.kind_of() == ErrorKind::Source ==> local_source_error(e, path_str@)),
{
    let pv = chars_of(path_str);
    let mut home_used = String::new();
    let expanded = if pv.len() > 0 && pv[0] == '~' {
        let home = match system.env_var("HOME") {
            Ok(h) => h,
            Err(_) => match system.env_var("USERPROFILE") {
                Ok(h) => h,
                Err(err) => {
                    let msg = env_error_message(err);
                    let m = concat(
                        "Cannot determine home directory for ~ expansion. Error: ",
                        msg.as_str(),
                    );
                    return Err(GraftError::configuration(m));
                },
            },
        };
        let rest = skip_chars(path_str, 1);
        let e = concat(home.as_str(), rest.as_str());
        home_used = home;
        e
    } else {
        owned(path_str)
    };
    let mut cwd_used = String::new();
    let resolved = if path_is_absolute(expanded.as_str()) {
        expanded
    } else {
        let cwd = match system.current_dir() {
            Ok(c) => c,
            Err(e) => {
                let m = concat("Cannot get current directory: ", e.message.as_str());
                return Err(GraftError::filesystem(m));
            },
        };
        let j = path_join(cwd.as_str(), expanded.as_str());
        cwd_used = cwd;
        j
    };
    assert(resolved@ == resolve_local(path_str@, home_used@, cwd_used@));
    let ghost resolved_view = resolved@;
    let existence = system.path_exists(resolved.as_str());
    let kind = system.is_dir(resolved.as_str());
    let r = local_source_checked(original, resolved, existence, kind);
    assert(resolved_view == resolve_local(path_str@, home_used@, cwd_used@));
    r
}

/// The local source at a resolved path, given what the system says of the
/// path: whether it exists (`existence`) and whether it is a directory
/// (`kind`); an error of either gives its message, the existence one first.
pub fn local_source_checked(
    original: &str,
    resolved: String,
    existence: Result<bool, IoError>,
    kind: Result<bool, IoError>,
) -> (r: Result<RepositorySource, GraftError>)
    ensures
        match existence {
            Err(e) => r matches Err(g) && g.is(ErrorKind::Other, e.message@),
            Ok(false) => r matches Err(g) && g.is(ErrorKind::Source, missing_local_message(resolved@)),
            Ok(true) => match kind {
                Err(e) => r matches Err(g) && g.is(ErrorKind::Other, e.message@),
                Ok(false) => r matches Err(g) && g.is(ErrorKind::Source, not_dir_local_message(resolved@)),
                Ok(true) => r matches Ok(src) && src matches RepositorySource::Local {
                    original_path,
                    resolved_path,
                } && original_path@ == original@ && resolved_path@ == resolved@,
            },
        },
{
    let found = match existence {
        Ok(b) => b,
        Err(e) => return Err(io_to_graft(e)),
    };
    if !found {
        let m = concat3("Local repository path does not exist: '", resolved.as_str(), "'");
        return Err(GraftError::from_source(m));
    }
    let dir = match kind {
        Ok(b) => b,
        Err(e) => return Err(io_to_graft(e)),
    };
    if !dir {
        let m = concat3("Local repository path is not a directory: '", resolved.as_str(), "'");
        return Err(GraftError::from_source(m));
    }
    Ok(RepositorySource::Local { original_path: owned(original), resolved_path: resolved })
}

/// Normalize a repository URL to a format suitable for Git operations.
pub fn normalize_repository_url(url: &str) -> (r: Result<String, GraftError>)
    ensures
        match normalized_url(url@) {
            Ok(n) => r matches Ok(s) && s@ == n,
            Err((k, m)) => r matches Err(e) && e.is(k, m),
        },
{
    if str_starts_with(url, "https://") || str_starts_with(url, "http://") {
        let has_git = match path_extension(url) {
            Some(e) => str_eq_ignore_ascii_case(e.as_str(), "git"),
            None => false,
        };
        if has_git {
            Ok(owned(url))
        } else {
            Ok(concat(url, ".git"))
        }
    } else if str_starts_with(url, "git@") {
        Ok(owned(url))
    } else {
        let v = chars_of(url);
        if has_char_exec(v.as_slice(), '/') && !has_char_exec(v.as_slice(), ':') {
            if count_char_exec(v.as_slice(), '/') == 1 {
                Ok(concat3("https://github.com/", url, ".git"))
            } else {
                let m = concat3("Invalid repository format: '", url, "'. Expected format: 'org/repo'");
                Err(GraftError::configuration(m))
            }
        } else {
            let m = concat3(
                "Unsupported repository URL format: '",
                url,
                "'\nSupported formats:\n- Short: my_organization/repo\n- HTTPS: https://github.com/my_organization/repo.git\n- SSH: git@github.com:my_organization/repo.git\n- Local: file:///path/to/repo or ~/path/to/repo",
            );
            Err(GraftError::configuration(m))
        }
    }
}

/// The message of an access check on a local repository.
pub open spec fn local_access_message() -> Seq<char> {
    "Repository is local: access is validated for Git repositories only"@
}

/// Validate that a repository can be accessed with the given reference. It
/// is an error when the repository URL is empty, when the Git reference
/// (tag or branch) is empty, and when the repository is local.
pub fn validate_repository_access(repo: &Repository, tag: &str) -> (r: Result<(), GraftError>)
    ensures
        match repo.source {
            RepositorySource::Local { .. } => r matches Err(e) && e.is(ErrorKind::Git, local_access_message()),
            RepositorySource::Git { normalized_url, .. } => if normalized_url@.len() == 0 {
                r matches Err(e) && e.is(ErrorKind::Git, "Repository URL cannot be empty"@)
            } else if tag@.len() == 0 {
                r matches Err(e) && e.is(
                    ErrorKind::Git,
                    "Git reference (tag/branch) cannot be empty"@,
                )
            } else {
                r is Ok
            },
        },
{
    match &repo.source {
        RepositorySource::Git { normalized_url, .. } => {
            if normalized_url.as_str().is_empty() {
                return Err(GraftError::git(owned("Repository URL cannot be empty")));
            }
            if tag.is_empty() {
                return Err(GraftError::git(owned("Git reference (tag/branch) cannot be empty")));
            }
            Ok(())
        },
        RepositorySource::Local { .. } => Err(
            GraftError::git(owned("Repository is local: access is validated for Git repositories only")),
        ),
    }
}

} // verus!
