//! Tool resource types: verify contracts and observed facts.
use vstd::prelude::*;

verus! {

/// Whether two string vectors hold the same strings.
pub open spec fn same_strings(a: Vec<String>, b: Vec<String>) -> bool {
    a@.map_values(|s: String| s@) == b@.map_values(|s: String| s@)
}

/// A copy of a string vector.
pub fn clone_strings(v: &Vec<String>) -> (r: Vec<String>)
    ensures
        r@ == v@,
        same_strings(*v, r),
{
    let mut out: Vec<String> = Vec::new();
    let mut i: usize = 0;
    while i < v.len()
        invariant
            i <= v.len(),
            out@ == v@.subrange(0, i as int),
        decreases v.len() - i,
    {
        out.push(v[i].clone());
        assert(out@ =~= v@.subrange(0, i + 1));
        i = i + 1;
    }
    assert(out@ =~= v@);
    out
}

/// How a tool's identity is verified, and optionally its version.
#[derive(Debug, Clone, PartialEq)]
pub struct ToolVerifyContract {
    pub identity: ToolIdentityVerify,
    pub version: Option<ToolVersionVerify>,
}

/// The identity check of a tool.
#[derive(Debug, Clone, PartialEq)]
pub enum ToolIdentityVerify {
    /// `command` resolves (through `PATH`) to one of the expected paths.
    ResolvedCommand { command: String, expected_path: OneOf },
    /// A file exists at `path` (and is executable when required).
    File { path: String, executable: bool },
    /// A directory exists at `path`.
    Directory { path: String },
    /// `path` is a symlink pointing at `expected_target`.
    SymlinkTarget { path: String, expected_target: String },
}

/// A set of accepted values.
#[derive(Debug, Clone, PartialEq)]
pub struct OneOf {
    pub one_of: Vec<String>,
}

/// The version check of a tool.
#[derive(Debug, Clone, PartialEq)]
pub struct ToolVersionVerify {
    pub command: String,
    pub args: Vec<String>,
    pub parse: VersionParseRule,
    pub constraint: Option<String>,
}

/// How the version is read from the command's output.
#[derive(Debug, Clone, PartialEq)]
pub struct VersionParseRule {
    pub first_line_regex: String,
}

/// Facts observed when a tool was verified.
#[derive(Debug, Clone, PartialEq)]
pub struct ToolObservedFacts {
    pub resolved_path: Option<String>,
    pub version: Option<String>,
}

/// A tool recorded in state.
#[derive(Debug, Clone, PartialEq)]
pub struct ToolResource {
    pub name: String,
    pub verify: ToolVerifyContract,
    pub observed: ToolObservedFacts,
}

/// Whether two identity checks are the same check.
pub open spec fn same_identity(a: ToolIdentityVerify, b: ToolIdentityVerify) -> bool {
    match (a, b) {
        (ToolIdentityVerify::ResolvedCommand { command: c1, expected_path: e1 },
         ToolIdentityVerify::ResolvedCommand { command: c2, expected_path: e2 }) =>
            c1 == c2 && same_strings(e1.one_of, e2.one_of),
        (ToolIdentityVerify::ResolvedCommand { .. }, _) => false,
        (_, ToolIdentityVerify::ResolvedCommand { .. }) => false,
        _ => a == b,
    }
}

/// Whether two version checks are the same check.
pub open spec fn same_version_check(a: ToolVersionVerify, b: ToolVersionVerify) -> bool {
    a.command == b.command && same_strings(a.args, b.args) && a.parse == b.parse && a.constraint == b.constraint
}

/// Whether two verify contracts are the same contract.
pub open spec fn same_contract(a: ToolVerifyContract, b: ToolVerifyContract) -> bool {
    &&& same_identity(a.identity, b.identity)
    &&& match (a.version, b.version) {
        (Some(x), Some(y)) => same_version_check(x, y),
        (None, None) => true,
        _ => false,
    }
}

impl ToolVerifyContract {
    /// A copy of this contract.
    pub fn duplicate(&self) -> (r: Self)
        ensures
            same_contract(*self, r),
    {
        let identity = match &self.identity {
            ToolIdentityVerify::ResolvedCommand { command, expected_path } => ToolIdentityVerify::ResolvedCommand {
                command: command.clone(),
                expected_path: OneOf { one_of: clone_strings(&expected_path.one_of) },
            },
            ToolIdentityVerify::File { path, executable } => ToolIdentityVerify::File { path: path.clone(), executable: *executable },
            ToolIdentityVerify::Directory { path } => ToolIdentityVerify::Directory { path: path.clone() },
            ToolIdentityVerify::SymlinkTarget { path, expected_target } => ToolIdentityVerify::SymlinkTarget {
                path: path.clone(),
                expected_target: expected_target.clone(),
            },
        };
        let version = match &self.version {
            Some(v) => Some(ToolVersionVerify {
                command: v.command.clone(),
                args: clone_strings(&v.args),
                parse: VersionParseRule { first_line_regex: v.parse.first_line_regex.clone() },
                constraint: v.constraint.clone(),
            }),
            None => None,
        };
        ToolVerifyContract { identity, version }
    }
}

} // verus!
