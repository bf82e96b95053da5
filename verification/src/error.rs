use vstd::prelude::*;
use crate::text::push_str;

verus! {

/// Library error type. Every variant that touches the filesystem or a
/// user-authored file carries the path involved (as text), so error
/// messages can name exactly what failed.
#[derive(Debug, Clone, PartialEq, Eq)]
pub enum Error {
    Io { path: String, message: String },
    Config(String),
    Template(String),
    VerifyMismatch { src: String, dest: String },
}

/// Exit codes: 0 success (including "nothing to import"), 1 failure
/// during import, 2 configuration/usage error.
#[derive(Debug, Clone, Copy, PartialEq, Eq)]
pub enum ExitCode {
    Success,
    Failure,
    UsageOrConfig,
}

impl ExitCode {
    /// The numeric process exit status.
    pub open spec fn spec_code(self) -> int {
        match self {
            ExitCode::Success => 0,
            ExitCode::Failure => 1,
            ExitCode::UsageOrConfig => 2,
        }
    }

    pub fn code(&self) -> (c: i32)
        ensures
            c == self.spec_code(),
    {
        match self {
            ExitCode::Success => 0,
            ExitCode::Failure => 1,
            ExitCode::UsageOrConfig => 2,
        }
    }
}

/// Which exit code an error maps to: configuration and template
/// mistakes are usage errors, everything else is a runtime failure.
pub open spec fn exit_code_of(e: Error) -> ExitCode {
    match e {
        Error::Config(_) | Error::Template(_) => ExitCode::UsageOrConfig,
        Error::Io { .. } | Error::VerifyMismatch { .. } => ExitCode::Failure,
    }
}

impl Error {
    /// Builds an `Io` error naming the path involved.
    pub fn io(path: &str, message: &str) -> (e: Error)
        ensures
            e matches Error::Io { path: p, message: m } && p@ == path@ && m@ == message@,
    {
        Error::Io { path: path.to_string(), message: message.to_string() }
    }

    /// Classifies this error for the process exit code.
    pub fn exit_code(&self) -> (c: ExitCode)
        ensures
            c == exit_code_of(*self),
    {
        match self {
            Error::Config(_) | Error::Template(_) => ExitCode::UsageOrConfig,
            Error::Io { .. } | Error::VerifyMismatch { .. } => ExitCode::Failure,
        }
    }
}

/// What an error displays as: the path and the I/O error for `Io`, a
/// prefix naming the kind for the others.
pub open spec fn error_text(e: Error) -> Seq<char> {
    match e {
        Error::Io { path, message } => path@ + ": "@ + message@,
        Error::Config(m) => "config error: "@ + m@,
        Error::Template(m) => "template error: "@ + m@,
        Error::VerifyMismatch { src, dest } => "verification failed for "@ + src@ + " -> "@ + dest@
            + ": hashes did not match"@,
    }
}

impl Error {
    /// The error's display text.
    pub fn message(&self) -> (s: String)
        ensures
            s@ == error_text(*self),
    {
        let mut s = String::new();
        match self {
            Error::Io { path, message } => {
                push_str(&mut s, path.as_str());
                push_str(&mut s, ": ");
                push_str(&mut s, message.as_str());
            },
            Error::Config(m) => {
                push_str(&mut s, "config error: ");
                push_str(&mut s, m.as_str());
            },
            Error::Template(m) => {
                push_str(&mut s, "template error: ");
                push_str(&mut s, m.as_str());
            },
            Error::VerifyMismatch { src, dest } => {
                push_str(&mut s, "verification failed for ");
                push_str(&mut s, src.as_str());
                push_str(&mut s, " -> ");
                push_str(&mut s, dest.as_str());
                push_str(&mut s, ": hashes did not match");
            },
        }
        s
    }
}

} // verus!
