//! Filesystem resource types shared across pipeline stages.
//!
//! `ConcreteFsSource` represents a fully resolved source reference. It is produced
//! by the materialize stage and consumed by the planner and executor.
use vstd::prelude::*;
use crate::path::{path_join, path_join_exec, normalized_within, normalized_within_exec, normalize_path, normalize_path_exec};
use crate::text::concat_all;

verus! {

/// Origin kind of a filesystem source.
///
/// Determines validation rules and fingerprint eligibility.
#[derive(Debug, Clone, Copy, PartialEq, Eq)]
pub enum FsSourceKind {
    /// Relative to the component directory (e.g. `files/.gitconfig`).
    ///
    /// Must not escape the component root via `..`.
    ComponentRelative,
    /// Relative to the user's home directory (e.g. `~/.ssh/config`).
    HomeRelative,
    /// An absolute filesystem path.
    Absolute,
}

/// A fully resolved filesystem source reference.
///
/// The `resolved` path is always absolute and ready for direct filesystem access.
#[derive(Debug, PartialEq, Eq)]
pub struct ConcreteFsSource {
    /// Origin kind — determines validation rules and fingerprint eligibility.
    pub kind: FsSourceKind,
    /// Absolute path to the source file or directory.
    pub resolved: String,
}

impl Clone for ConcreteFsSource {
    fn clone(&self) -> (r: Self)
        ensures
            r == *self,
    {
        ConcreteFsSource { kind: self.kind, resolved: self.resolved.clone() }
    }
}

impl ConcreteFsSource {
    /// Create a component-relative source with a pre-resolved absolute path.
    pub fn component_relative(resolved: String) -> (r: Self)
        ensures
            r.kind == FsSourceKind::ComponentRelative,
            r.resolved == resolved,
    {
        ConcreteFsSource { kind: FsSourceKind::ComponentRelative, resolved }
    }

    /// Create a home-relative source with a pre-resolved absolute path.
    pub fn home_relative(resolved: String) -> (r: Self)
        ensures
            r.kind == FsSourceKind::HomeRelative,
            r.resolved == resolved,
    {
        ConcreteFsSource { kind: FsSourceKind::HomeRelative, resolved }
    }

    /// Create an absolute source.
    pub fn absolute(resolved: String) -> (r: Self)
        ensures
            r.kind == FsSourceKind::Absolute,
            r.resolved == resolved,
    {
        ConcreteFsSource { kind: FsSourceKind::Absolute, resolved }
    }

    /// Returns `true` if this source is eligible for content fingerprinting:
    /// only component-relative sources are managed assets under loadout's control.
    pub fn is_fingerprint_eligible(&self) -> (r: bool)
        ensures
            r == (self.kind == FsSourceKind::ComponentRelative),
    {
        matches!(self.kind, FsSourceKind::ComponentRelative)
    }
}

/// The message for a component-relative source that escapes its directory.
pub open spec fn escape_message(source_rel: Seq<char>, component_dir: Seq<char>) -> Seq<char> {
    "component-relative source '"@ + source_rel + "' escapes component directory '"@ + component_dir + "'"@
}

/// Validate that a component-relative source path does not escape the component root.
///
/// Returns the joined path when its normalized form stays at or below the
/// normalized component directory, and an explanatory message otherwise.
pub fn validate_component_relative_source(source_rel: &str, component_dir: &str) -> (r: Result<String, String>)
    ensures
        match r {
            Ok(p) => normalized_within(path_join(component_dir@, source_rel@), component_dir@)
                && p@ == path_join(component_dir@, source_rel@),
            Err(m) => !normalized_within(path_join(component_dir@, source_rel@), component_dir@)
                && m@ == escape_message(source_rel@, component_dir@),
        },
{
    let resolved = path_join_exec(component_dir, source_rel);
    if !normalized_within_exec(resolved.as_str(), component_dir) {
        let parts = vec!["component-relative source '", source_rel, "' escapes component directory '", component_dir, "'"];
        let m = concat_all(&parts);
        proof {
            reveal_with_fuel(crate::text::concat_seq, 6);
            assert(parts@.map_values(|p: &str| p@) =~= seq!["component-relative source '"@, source_rel@, "' escapes component directory '"@, component_dir@, "'"@]);
        }
        return Err(m);
    }
    Ok(resolved)
}

/// Lexical path normalization (resolves `.` and `..` without touching the filesystem).
pub fn normalize_path_pub(path: &str) -> (r: String)
    ensures
        r@ == normalize_path(path@),
{
    normalize_path_exec(path)
}

} // verus!
