//! Plan types: what the executor is asked to do.
use vstd::prelude::*;
use crate::id::CanonicalComponentId;

verus! {

/// The planner's output.
#[derive(Debug)]
pub struct Plan {
    pub actions: Vec<PlanAction>,
    pub noops: Vec<NoopEntry>,
    pub blocked: Vec<BlockedEntry>,
    pub summary: PlanSummary,
}

/// One action on one component.
#[derive(Debug)]
pub struct PlanAction {
    pub component: CanonicalComponentId,
    pub operation: Operation,
    pub details: Option<ActionDetails>,
}

/// The operation of an action.
#[derive(Debug, Clone, Copy, PartialEq, Eq)]
pub enum Operation {
    Create,
    Destroy,
    Replace,
    ReplaceBackend,
    Strengthen,
}

/// Extra data of some actions.
#[derive(Debug, PartialEq)]
pub enum ActionDetails {
    Strengthen(StrengthenDetails),
    Replace(ReplaceDetails),
}

/// Versions involved in a replace.
#[derive(Debug, Clone, PartialEq)]
pub struct ReplaceDetails {
    pub from_version: Option<String>,
    pub to_version: Option<String>,
}

/// Resources a strengthen adds.
#[derive(Debug, PartialEq)]
pub struct StrengthenDetails {
    pub add_resources: Vec<ResourceRef>,
}

/// A resource named by kind and id.
#[derive(Debug, Clone, PartialEq)]
pub struct ResourceRef {
    pub kind: String,
    pub id: String,
}

/// A component that needs nothing done.
#[derive(Debug)]
pub struct NoopEntry {
    pub component: CanonicalComponentId,
}

/// A component that cannot be planned.
#[derive(Debug)]
pub struct BlockedEntry {
    pub component: CanonicalComponentId,
    pub reason: String,
}

/// Counts of the planned operations.
#[derive(Debug, Clone, Copy, PartialEq, Eq)]
pub struct PlanSummary {
    pub create: u32,
    pub destroy: u32,
    pub replace: u32,
    pub replace_backend: u32,
    pub strengthen: u32,
    pub blocked: u32,
}

impl Default for PlanSummary {
    fn default() -> (r: Self)
        ensures
            r.create == 0 && r.destroy == 0 && r.replace == 0 && r.replace_backend == 0 && r.strengthen == 0 && r.blocked == 0,
    {
        PlanSummary { create: 0, destroy: 0, replace: 0, replace_backend: 0, strengthen: 0, blocked: 0 }
    }
}

} // verus!
