//! Strategy data type.
//!
//! A strategy declares which backend to use for each resource, via a rule-based
//! selector model. Rules are evaluated against every resource; the most specific
//! matching rule wins, with ties broken by rule order (last wins).
use vstd::prelude::*;
use crate::strmap::StrMap;
use crate::text::eq_str;

verus! {

/// User-declared implementation strategy embedded in a config file.
#[derive(Debug)]
pub struct Strategy {
    /// Optional strategy identifier label (not used by core logic).
    pub strategy: Option<String>,
    /// Named resource groups for use in rule selectors.
    pub groups: StrMap<StrategyGroup>,
    /// Ordered list of backend selection rules.
    pub rules: Vec<StrategyRule>,
    /// Filesystem operation settings (independent of backend selection).
    pub fs: Option<FsStrategy>,
}

impl Strategy {
    /// An empty strategy: no label, groups, rules or fs settings.
    pub fn empty() -> (r: Self)
        ensures
            r.strategy.is_none(),
            r.groups@ == Map::<Seq<char>, StrategyGroup>::empty(),
            r.rules@.len() == 0,
            r.fs.is_none(),
    {
        Strategy { strategy: None, groups: StrMap::new(), rules: Vec::new(), fs: None }
    }
}

/// A named, static set of resources keyed by resource kind (`package` or `runtime`).
#[derive(Debug)]
pub struct StrategyGroup(pub StrMap<Vec<String>>);

impl StrategyGroup {
    /// Returns the resource names registered for the given kind, if any.
    pub fn names_for_kind(&self, kind: &str) -> (r: Option<&Vec<String>>)
        ensures
            match r {
                Some(v) => self.0@.contains_key(kind@) && *v == self.0@[kind@],
                None => !self.0@.contains_key(kind@),
            },
    {
        self.0.get(kind)
    }
}

/// A single backend selection rule.
#[derive(Debug)]
pub struct StrategyRule {
    /// Selector that determines which resources this rule applies to.
    pub selector: MatchSelector,
    /// Backend identifier to use when this rule matches (bare or canonical).
    pub use_backend: String,
}

/// Predicate selector for a strategy rule.
///
/// All non-`None` fields are ANDed. An all-`None` selector matches every resource.
#[derive(Debug, PartialEq)]
pub struct MatchSelector {
    /// Resource kind to match. Required when `component` is specified.
    pub kind: Option<MatchKind>,
    /// Exact resource name to match (e.g. `"git"`, `"node"`).
    pub name: Option<String>,
    /// Canonical component ID to match (e.g. `"core/cli-tools"`).
    pub component: Option<String>,
    /// Group name to match; membership is computed by the caller.
    pub group: Option<String>,
}

impl Default for MatchSelector {
    fn default() -> (r: Self)
        ensures
            r.kind.is_none(),
            r.name.is_none(),
            r.component.is_none(),
            r.group.is_none(),
    {
        MatchSelector { kind: None, name: None, component: None, group: None }
    }
}

/// Fixed-priority specificity vector `(has_component, has_kind, has_name, has_group)`.
pub type Specificity = (u8, u8, u8, u8);

/// 1 when `b`, else 0.
pub open spec fn flag(b: bool) -> u8 {
    if b { 1 } else { 0 }
}

impl MatchSelector {
    /// Whether this selector matches a resource with the given attributes;
    /// `group_member` is whether the resource is in the selector's group.
    pub open spec fn matches_spec(&self, kind: MatchKind, name: Seq<char>, component: Seq<char>, group_member: bool) -> bool {
        &&& (self.kind matches Some(k) ==> k == kind)
        &&& (self.name matches Some(n) ==> n@ == name)
        &&& (self.component matches Some(c) ==> c@ == component)
        &&& (self.group.is_some() ==> group_member)
    }

    /// Returns `true` if this selector matches the given resource attributes.
    ///
    /// `group_member` must be pre-computed by the caller from `Strategy::groups`.
    pub fn matches(&self, resource_kind: &MatchKind, resource_name: &str, resource_component: &str, group_member: bool) -> (r: bool)
        ensures
            r == self.matches_spec(*resource_kind, resource_name@, resource_component@, group_member),
    {
        if let Some(k) = &self.kind {
            if !k.same_as(resource_kind) {
                return false;
            }
        }
        if let Some(n) = &self.name {
            if !eq_str(n.as_str(), resource_name) {
                return false;
            }
        }
        if let Some(c) = &self.component {
            if !eq_str(c.as_str(), resource_component) {
                return false;
            }
        }
        if self.group.is_some() && !group_member {
            return false;
        }
        true
    }

    /// Computes the fixed-priority specificity vector for this selector.
    ///
    /// Returns `(has_component, has_kind, has_name, has_group)`. Tuples compare
    /// lexicographically, so `component` dominates `kind`, which dominates `name`,
    /// which dominates `group`.
    pub fn specificity(&self) -> (r: Specificity)
        ensures
            r == (flag(self.component.is_some()), flag(self.kind.is_some()), flag(self.name.is_some()), flag(self.group.is_some())),
    {
        (
            if self.component.is_some() { 1 } else { 0 },
            if self.kind.is_some() { 1 } else { 0 },
            if self.name.is_some() { 1 } else { 0 },
            if self.group.is_some() { 1 } else { 0 },
        )
    }
}

/// Resource kind discriminant for match selectors.
#[derive(Debug, Clone, Copy, PartialEq, Eq)]
pub enum MatchKind {
    Package,
    Runtime,
}

impl MatchKind {
    /// The kind's name.
    pub open spec fn name_spec(&self) -> Seq<char> {
        match self {
            MatchKind::Package => "package"@,
            MatchKind::Runtime => "runtime"@,
        }
    }

    /// Returns the kind as a static string (`package` or `runtime`).
    pub fn as_str(&self) -> (r: &'static str)
        ensures
            r@ == self.name_spec(),
    {
        match self {
            MatchKind::Package => "package",
            MatchKind::Runtime => "runtime",
        }
    }

    /// Whether two kinds are the same.
    pub fn same_as(&self, other: &MatchKind) -> (r: bool)
        ensures
            r == (*self == *other),
    {
        match (self, other) {
            (MatchKind::Package, MatchKind::Package) => true,
            (MatchKind::Runtime, MatchKind::Runtime) => true,
            _ => false,
        }
    }
}

/// Filesystem operation strategy.
#[derive(Debug, Clone, PartialEq)]
pub struct FsStrategy {
    /// Whether to back up existing files before overwriting.
    pub backup: Option<bool>,
    /// Directory where backups are stored.
    pub backup_dir: Option<String>,
    /// Controls which `copy` sources are fingerprinted for noop detection.
    pub fingerprint_policy: Option<FingerprintPolicy>,
}

/// Policy controlling which `copy` sources the materializer fingerprints.
#[derive(Debug, Clone, Copy, PartialEq, Eq)]
pub enum FingerprintPolicy {
    /// Fingerprint only `component_relative` sources.
    ManagedOnly,
    /// Fingerprint all source kinds when `op = copy` (default).
    AllCopy,
    /// Disable fingerprinting entirely (`none` in configuration files).
    Disabled,
}

impl Default for FingerprintPolicy {
    fn default() -> (r: Self)
        ensures
            r == FingerprintPolicy::AllCopy,
    {
        FingerprintPolicy::AllCopy
    }
}

} // verus!
