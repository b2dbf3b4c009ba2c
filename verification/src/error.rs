//! Error types with exit codes.

use vstd::prelude::*;

verus! {

/// Main error type for tixgraft operations.
#[derive(Debug, Clone)]
pub enum GraftError {
    /// Command Error - one or more commands failed.
    Command { message: String },
    /// Configuration Error - missing or invalid configuration.
    Configuration { message: String },
    /// Filesystem Error - file operation failed.
    Filesystem { message: String },
    /// Git Error - Git operation failed.
    Git { message: String },
    /// Skill Error - skill management operation failed.
    Skill { message: String },
    /// Source Error - source path not found in repository.
    Source { message: String },
    /// Any other failure (no specific category; exits like a configuration error).
    Other { message: String },
}

/// The category of a `GraftError`.
#[derive(Debug, Clone, Copy, PartialEq, Eq)]
pub enum ErrorKind {
    Command,
    Configuration,
    Filesystem,
    Git,
    Skill,
    Source,
    Other,
}

impl GraftError {
    /// The category of this error.
    pub open spec fn kind_of(&self) -> ErrorKind {
        match self {
            GraftError::Command { .. } => ErrorKind::Command,
            GraftError::Configuration { .. } => ErrorKind::Configuration,
            GraftError::Filesystem { .. } => ErrorKind::Filesystem,
            GraftError::Git { .. } => ErrorKind::Git,
            GraftError::Skill { .. } => ErrorKind::Skill,
            GraftError::Source { .. } => ErrorKind::Source,
            GraftError::Other { .. } => ErrorKind::Other,
        }
    }

    /// The message carried by this error.
    pub open spec fn message_of(&self) -> Seq<char> {
        match self {
            GraftError::Command { message } => message@,
            GraftError::Configuration { message } => message@,
            GraftError::Filesystem { message } => message@,
            GraftError::Git { message } => message@,
            GraftError::Skill { message } => message@,
            GraftError::Source { message } => message@,
            GraftError::Other { message } => message@,
        }
    }

    /// An error of category `kind` carrying `message`.
    pub open spec fn is(&self, kind: ErrorKind, message: Seq<char>) -> bool {
        self.kind_of() == kind && self.message_of() == message
    }

    /// Create a command error.
    pub fn command(message: String) -> (e: Self)
        ensures
            e.is(ErrorKind::Command, message@),
    {
        GraftError::Command { message }
    }

    /// Create a configuration error.
    pub fn configuration(message: String) -> (e: Self)
        ensures
            e.is(ErrorKind::Configuration, message@),
    {
        GraftError::Configuration { message }
    }

    /// Create a filesystem error.
    pub fn filesystem(message: String) -> (e: Self)
        ensures
            e.is(ErrorKind::Filesystem, message@),
    {
        GraftError::Filesystem { message }
    }

    /// Create a source error.
    pub fn from_source(message: String) -> (e: Self)
        ensures
            e.is(ErrorKind::Source, message@),
    {
        GraftError::Source { message }
    }

    /// Create a git error.
    pub fn git(message: String) -> (e: Self)
        ensures
            e.is(ErrorKind::Git, message@),
    {
        GraftError::Git { message }
    }

    /// Create a skill error.
    pub fn skill(message: String) -> (e: Self)
        ensures
            e.is(ErrorKind::Skill, message@),
    {
        GraftError::Skill { message }
    }

    /// Create an uncategorised error.
    pub fn other(message: String) -> (e: Self)
        ensures
            e.is(ErrorKind::Other, message@),
    {
        GraftError::Other { message }
    }

    /// The process exit code that belongs to this error.
    pub fn exit_code(&self) -> (code: i32)
        ensures
            code == exit_code_of(self.kind_of()),
    {
        match self {
            GraftError::Configuration { .. } => 1,
            GraftError::Source { .. } => 2,
            GraftError::Command { .. } => 3,
            GraftError::Git { .. } => 4,
            GraftError::Filesystem { .. } => 5,
            GraftError::Skill { .. } => 6,
            GraftError::Other { .. } => 1,
        }
    }

    /// The message carried by this error.
    pub fn message(&self) -> (m: &String)
        ensures
            m@ == self.message_of(),
    {
        match self {
            GraftError::Command { message } => message,
            GraftError::Configuration { message } => message,
            GraftError::Filesystem { message } => message,
            GraftError::Git { message } => message,
            GraftError::Skill { message } => message,
            GraftError::Source { message } => message,
            GraftError::Other { message } => message,
        }
    }

    /// The category of this error.
    pub fn kind(&self) -> (k: ErrorKind)
        ensures
            k == self.kind_of(),
    {
        match self {
            GraftError::Command { .. } => ErrorKind::Command,
            GraftError::Configuration { .. } => ErrorKind::Configuration,
            GraftError::Filesystem { .. } => ErrorKind::Filesystem,
            GraftError::Git { .. } => ErrorKind::Git,
            GraftError::Skill { .. } => ErrorKind::Skill,
            GraftError::Source { .. } => ErrorKind::Source,
            GraftError::Other { .. } => ErrorKind::Other,
        }
    }

    /// The human-readable form: a category prefix followed by the message.
    pub fn display(&self) -> (s: String)
        ensures
            s@ == display_prefix(self.kind_of()) + self.message_of(),
    {
        let prefix: &str = match self {
            GraftError::Command { .. } => "Command error: ",
            GraftError::Configuration { .. } => "Configuration error: ",
            GraftError::Filesystem { .. } => "Filesystem error: ",
            GraftError::Git { .. } => "Git error: ",
            GraftError::Skill { .. } => "Skill error: ",
            GraftError::Source { .. } => "Source error: ",
            GraftError::Other { .. } => "",
        };
        let mut s = prefix.to_owned();
        s.append(self.message().as_str());
        s
    }
}

/// Exit code of each category (the README's table, plus 6 for skills).
pub open spec fn exit_code_of(kind: ErrorKind) -> i32 {
    match kind {
        ErrorKind::Configuration => 1,
        ErrorKind::Source => 2,
        ErrorKind::Command => 3,
        ErrorKind::Git => 4,
        ErrorKind::Filesystem => 5,
        ErrorKind::Skill => 6,
        ErrorKind::Other => 1,
    }
}

/// The prefix that the human-readable form puts before the message.
pub open spec fn display_prefix(kind: ErrorKind) -> Seq<char> {
    match kind {
        ErrorKind::Command => "Command error: "@,
        ErrorKind::Configuration => "Configuration error: "@,
        ErrorKind::Filesystem => "Filesystem error: "@,
        ErrorKind::Git => "Git error: "@,
        ErrorKind::Skill => "Skill error: "@,
        ErrorKind::Source => "Source error: "@,
        ErrorKind::Other => ""@,
    }
}

/// Distinct categories other than the uncategorised one exit with distinct codes,
/// and success (0) is never an error's code.
pub proof fn exit_codes_distinct(a: ErrorKind, b: ErrorKind)
    requires
        a != b,
        a != ErrorKind::Other,
        b != ErrorKind::Other,
    ensures
        exit_code_of(a) != exit_code_of(b),
        exit_code_of(a) != 0,
{
}

/// Kind of an operating-system error.
#[derive(Debug, Clone, Copy, PartialEq, Eq)]
pub enum IoErrorKind {
    NotFound,
    AlreadyExists,
    InvalidData,
    Other,
}

/// An error from a filesystem or process operation of a `System`.
#[derive(Debug, Clone)]
pub struct IoError {
    pub kind: IoErrorKind,
    pub message: String,
}

impl IoError {
    /// A new error of the given kind.
    pub fn new(kind: IoErrorKind, message: String) -> (e: Self)
        ensures
            e.kind == kind,
            e.message@ == message@,
    {
        IoError { kind, message }
    }
}

/// Why an environment variable could not be read.
#[derive(Debug, Clone, Copy, PartialEq, Eq)]
pub enum EnvVarError {
    NotPresent,
    NotUnicode,
}

} // verus!
