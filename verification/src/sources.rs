//! Source declarations (`sources.yaml`) and the lock file.
use vstd::prelude::*;
use crate::strmap::StrMap;
use crate::text::{concat3, eq_str};

verus! {

/// The declared external sources.
#[derive(Debug)]
pub struct SourcesSpec {
    pub sources: Vec<SourceEntry>,
}

impl Default for SourcesSpec {
    fn default() -> (r: Self)
        ensures
            r.sources@.len() == 0,
    {
        SourcesSpec { sources: Vec::new() }
    }
}

/// One external source.
#[derive(Debug, PartialEq)]
pub struct SourceEntry {
    pub id: String,
    pub source_type: SourceType,
    /// Repository URL (git sources).
    pub url: Option<String>,
    /// Branch, tag or commit to check out (git sources).
    pub source_ref: Option<SourceRef>,
    /// Local directory (path sources).
    pub path: Option<String>,
    /// What the source may provide; absent means nothing.
    pub allow: Option<AllowSpec>,
}

/// How a source is obtained.
#[derive(Debug, Clone, Copy, PartialEq, Eq)]
pub enum SourceType {
    Git,
    Path,
}

/// A git reference.
#[derive(Debug, Clone, PartialEq)]
pub struct SourceRef {
    pub branch: Option<String>,
    pub tag: Option<String>,
    pub commit: Option<String>,
}

/// The lock file: what each source resolved to.
#[derive(Debug)]
pub struct SourcesLock {
    pub sources: StrMap<SourceLockEntry>,
}

/// One locked source.
#[derive(Debug, Clone, PartialEq)]
pub struct SourceLockEntry {
    pub resolved_commit: String,
    pub fetched_at: String,
    pub manifest_hash: String,
}

/// The allow-list of a source.
#[derive(Debug, PartialEq)]
pub enum AllowSpec {
    /// `"*"`: everything.
    All(WildcardAll),
    /// Per-kind lists.
    Detailed(DetailedAllow),
}

/// The wildcard `"*"`.
#[derive(Debug, Clone, Copy, PartialEq)]
pub struct WildcardAll;

/// The message for a string that is not the wildcard.
pub open spec fn wildcard_error(s: Seq<char>) -> Seq<char> {
    "expected \"*\", got \""@ + s + "\""@
}

impl WildcardAll {
    /// Parse the wildcard: only `"*"` is accepted.
    pub fn try_from_str(s: &str) -> (r: Result<WildcardAll, String>)
        ensures
            match r {
                Ok(_) => s@ == "*"@,
                Err(m) => s@ != "*"@ && m@ == wildcard_error(s@),
            },
    {
        if eq_str(s, "*") {
            Ok(WildcardAll)
        } else {
            Err(concat3("expected \"*\", got \"", s, "\""))
        }
    }

    /// The wildcard's text, `*`.
    pub fn as_str(&self) -> (r: &'static str)
        ensures
            r@ == "*"@,
    {
        "*"
    }
}

/// Per-kind allow-lists; an absent list allows nothing of that kind.
#[derive(Debug, PartialEq)]
pub struct DetailedAllow {
    pub features: Option<AllowList>,
    pub backends: Option<AllowList>,
}

/// An allow-list for one kind.
#[derive(Debug, PartialEq)]
pub enum AllowList {
    All(WildcardAll),
    Names(Vec<String>),
}

} // verus!
