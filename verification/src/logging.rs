//! What the process-wide logging setup reports, and which filter it uses.
//! Installing the subscriber happens outside this library.

use vstd::prelude::*;

use crate::text::owned;
use crate::text::trim;
use crate::text::trimmed;

verus! {

broadcast use vstd::string::group_string_axioms;

/// The filter used when `RUST_LOG` is unset, blank or invalid.
pub const DEFAULT_FILTER: &'static str = "warn,cosmictify=info";

/// Where log records go.
#[derive(Debug, Clone, Copy, PartialEq, Eq)]
pub enum LogSink {
    Journald,
    Stderr,
}

impl LogSink {
    /// The sink's name (what `Display` gives).
    pub fn name(&self) -> (s: String)
        ensures
            s@ == match *self {
                LogSink::Journald => "journald"@,
                LogSink::Stderr => "stderr"@,
            },
    {
        match self {
            LogSink::Journald => owned("journald"),
            LogSink::Stderr => owned("stderr"),
        }
    }
}

/// A global logging subscriber was already installed.
#[derive(Debug, Clone, Copy, PartialEq, Eq)]
pub struct InitError;

impl InitError {
    /// The error's text (what `Display` gives).
    pub fn message(&self) -> (s: String)
        ensures
            s@ == "a global logging subscriber is already initialized"@,
    {
        owned("a global logging subscriber is already initialized")
    }
}

/// The filter the user asked for through `RUST_LOG`, unless it is absent
/// or blank.
pub fn requested_filter(requested: Option<&str>) -> (r: Option<&str>)
    ensures
        match requested {
            Some(f) => if trim(f@).len() > 0 {
                r == Some(f)
            } else {
                r is None
            },
            None => r is None,
        },
{
    match requested {
        Some(f) => {
            let t = trimmed(f);
            if t.as_str().is_empty() {
                None
            } else {
                Some(f)
            }
        },
        None => None,
    }
}

/// Whether `tracing_subscriber` reads the directives `s` without error.
pub uninterp spec fn env_filter_accepts(s: Seq<char>) -> bool;

/// `tracing_subscriber::EnvFilter::try_new(s).is_ok()`: whether every
/// directive in `s` parses; the answer depends on `s` alone and is named
/// `env_filter_accepts`.
#[verifier::external_body]
fn env_filter_parses(s: &str) -> (b: bool)
    ensures
        b == env_filter_accepts(s@),
{
    tracing_subscriber::EnvFilter::try_new(s).is_ok()
}

/// The filter directives to log with: those asked for through `RUST_LOG`
/// when they are not blank and parse, else the quiet [`DEFAULT_FILTER`].
pub fn filter_directives<'a>(requested: Option<&'a str>) -> (d: &'a str)
    ensures
        d@ == match requested {
            Some(f) => if trim(f@).len() > 0 && env_filter_accepts(f@) {
                f@
            } else {
                DEFAULT_FILTER@
            },
            None => DEFAULT_FILTER@,
        },
{
    match requested_filter(requested) {
        Some(f) => if env_filter_parses(f) {
            f
        } else {
            DEFAULT_FILTER
        },
        None => DEFAULT_FILTER,
    }
}

} // verus!
