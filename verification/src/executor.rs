//! Executor: carries out a plan action by action and keeps state in step.
//!
//! Each action is turned into an [`ActionPlan`]: the outside work to perform
//! in order (component scripts, absence checks, removal of recorded
//! resources, tool verification, resource application) and what becomes of
//! the component's state entry once all of it succeeded. The caller performs
//! the work and stops at the first failure; [`settle_action`] then updates
//! state only when every step succeeded, so a failed component leaves state
//! exactly as it was. [`record_action`] turns the outcome into progress
//! events and report entries.
use vstd::prelude::*;
use crate::component_host::ComponentOp;
use crate::component_index::{ComponentIndex, ComponentMode};
use crate::desired_resource_graph::{DesiredResource, DesiredResourceGraph};
use crate::env::{ExecutionEnvDelta, ExecutionEnvPlan};
use crate::plan::{ActionDetails, Operation, PlanAction, ResourceRef};
use crate::state::{ComponentState, Resource, ResourceKind, State};
use crate::strmap::StrMap;
use crate::text::{concat2, concat3, concat_all, concat_seq, eq_str};

verus! {

// ---------------------------------------------------------------------------
// Events, errors and the report
// ---------------------------------------------------------------------------

/// A progress event emitted during execution.
#[derive(Debug, Clone, PartialEq)]
pub enum Event {
    /// A component is about to be processed.
    ComponentStart { id: String },
    /// A component was processed successfully.
    ComponentDone { id: String },
    /// A component failed; execution continues with the next one.
    ComponentFailed { id: String, error: String },
    /// A single resource failed within a component.
    ResourceFailed { component_id: String, resource_id: String, error: String },
    /// An optional contributor failed; execution continues with a warning.
    ContributorWarning { backend_id: String, reason: String },
}

/// Fatal executor errors: execution stops.
#[derive(Debug, Clone, PartialEq)]
pub enum ExecutorError {
    /// State could not be committed after a successful component.
    StateCommitFailed { reason: String },
    /// A component of the plan is absent from the component index.
    ComponentNotInIndex { id: String },
    /// Desired resources were not found for a component that needs them.
    DesiredResourcesNotFound { id: String },
    /// A required contributor failed.
    RequiredContributorFailed { backend_id: String, reason: String },
}

/// The message of an executor error.
pub open spec fn executor_error_message(e: ExecutorError) -> Seq<char> {
    match e {
        ExecutorError::StateCommitFailed { reason } => "state commit failed: "@ + reason@,
        ExecutorError::ComponentNotInIndex { id } => "component not found in index: "@ + id@,
        ExecutorError::DesiredResourcesNotFound { id } => "desired resources not found for component: "@ + id@,
        ExecutorError::RequiredContributorFailed { backend_id, reason } =>
            "required contributor failed for backend '"@ + backend_id@ + "': "@ + reason@,
    }
}

impl ExecutorError {
    /// The human-readable message.
    pub fn message(&self) -> (r: String)
        ensures
            r@ == executor_error_message(*self),
    {
        match self {
            ExecutorError::StateCommitFailed { reason } => concat2("state commit failed: ", reason.as_str()),
            ExecutorError::ComponentNotInIndex { id } => concat2("component not found in index: ", id.as_str()),
            ExecutorError::DesiredResourcesNotFound { id } => concat2("desired resources not found for component: ", id.as_str()),
            ExecutorError::RequiredContributorFailed { backend_id, reason } => {
                let parts = vec!["required contributor failed for backend '", backend_id.as_str(), "': ", reason.as_str()];
                let r = concat_all(&parts);
                proof {
                    reveal_with_fuel(concat_seq, 5);
                    assert(parts@.map_values(|p: &str| p@) =~= seq!["required contributor failed for backend '"@, backend_id@,
                        "': "@, reason@]);
                }
                r
            },
        }
    }
}

/// Error reported by an execution-environment contributor.
#[derive(Debug, Clone, PartialEq)]
pub struct ContributorError {
    pub reason: String,
}

impl ContributorError {
    /// A contributor error with the given reason.
    pub fn new(reason: &str) -> (r: Self)
        ensures
            r.reason@ == reason@,
    {
        ContributorError { reason: reason.to_owned() }
    }

    /// `contributor error: <reason>`.
    pub fn message(&self) -> (r: String)
        ensures
            r@ == "contributor error: "@ + self.reason@,
    {
        concat2("contributor error: ", self.reason.as_str())
    }
}

/// A component that executed successfully.
#[derive(Debug, Clone, PartialEq)]
pub struct ExecutedComponent {
    pub id: String,
    pub operation: String,
}

/// A component that failed.
#[derive(Debug, Clone, PartialEq)]
pub struct FailedComponent {
    pub id: String,
    pub operation: String,
    pub error: String,
}

/// Per-action record of environment contributions (not written to state).
#[derive(Debug, Clone)]
pub struct EnvArtifact {
    /// Component whose action produced the record.
    pub component_id: String,
    /// `pre` (before the action) or `post` (after it).
    pub phase: String,
    /// Key of the contributor that was evaluated.
    pub contributor_key: String,
    /// The delta returned.
    pub delta: ExecutionEnvDelta,
    /// Variables the delta touched, with their values after merging.
    pub changed_vars: Vec<(String, String)>,
}

/// Summary report of an execution.
#[derive(Debug)]
pub struct ExecutorReport {
    pub executed: Vec<ExecutedComponent>,
    pub failed: Vec<FailedComponent>,
    /// Environment contributor records, for debugging.
    pub env_artifacts: Vec<EnvArtifact>,
    /// Final environment snapshot after all actions.
    pub final_env_plan: ExecutionEnvPlan,
}

impl Default for ExecutorReport {
    fn default() -> (r: Self)
        ensures
            r.executed@.len() == 0,
            r.failed@.len() == 0,
            r.env_artifacts@.len() == 0,
            r.final_env_plan.vars@ == Map::<Seq<char>, String>::empty(),
    {
        ExecutorReport {
            executed: Vec::new(),
            failed: Vec::new(),
            env_artifacts: Vec::new(),
            final_env_plan: ExecutionEnvPlan { vars: StrMap::new() },
        }
    }
}

/// The name of an operation as reports show it.
pub open spec fn operation_name(op: Operation) -> Seq<char> {
    match op {
        Operation::Create => "Create"@,
        Operation::Destroy => "Destroy"@,
        Operation::Replace => "Replace"@,
        Operation::ReplaceBackend => "ReplaceBackend"@,
        Operation::Strengthen => "Strengthen"@,
    }
}

/// The name of an operation (executable).
pub fn operation_label(op: Operation) -> (r: String)
    ensures
        r@ == operation_name(op),
{
    match op {
        Operation::Create => "Create".to_owned(),
        Operation::Destroy => "Destroy".to_owned(),
        Operation::Replace => "Replace".to_owned(),
        Operation::ReplaceBackend => "ReplaceBackend".to_owned(),
        Operation::Strengthen => "Strengthen".to_owned(),
    }
}

// ---------------------------------------------------------------------------
// Contributor registry
// ---------------------------------------------------------------------------

/// Registry of environment contributors: one to run before calls to a
/// backend (keyed by backend id), and named ones for post-action lookup.
pub struct ContributorRegistry<C> {
    pre_action: StrMap<C>,
    named: StrMap<C>,
}

impl<C> ContributorRegistry<C> {
    /// The pre-action contributors by backend id.
    pub closed spec fn pre_view(&self) -> Map<Seq<char>, C> {
        self.pre_action@
    }

    /// The named contributors by key.
    pub closed spec fn named_view(&self) -> Map<Seq<char>, C> {
        self.named@
    }

    /// An empty registry.
    pub fn new() -> (r: Self)
        ensures
            r.pre_view() == Map::<Seq<char>, C>::empty(),
            r.named_view() == Map::<Seq<char>, C>::empty(),
    {
        ContributorRegistry { pre_action: StrMap::new(), named: StrMap::new() }
    }

    /// Register `contributor` to run before calls to `backend_id`, replacing
    /// any earlier one.
    pub fn register_pre_action(&mut self, backend_id: &str, contributor: C)
        ensures
            final(self).pre_view() == old(self).pre_view().insert(backend_id@, contributor),
            final(self).named_view() == old(self).named_view(),
    {
        self.pre_action.insert(backend_id.to_owned(), contributor);
    }

    /// Register a named contributor, replacing any earlier one under `key`.
    pub fn register_named(&mut self, key: &str, contributor: C)
        ensures
            final(self).named_view() == old(self).named_view().insert(key@, contributor),
            final(self).pre_view() == old(self).pre_view(),
    {
        self.named.insert(key.to_owned(), contributor);
    }

    /// The pre-action contributor of `backend_id`, if any.
    pub fn pre_for_backend(&self, backend_id: &str) -> (r: Option<&C>)
        ensures
            match r {
                Some(c) => self.pre_view().contains_key(backend_id@) && *c == self.pre_view()[backend_id@],
                None => !self.pre_view().contains_key(backend_id@),
            },
    {
        self.pre_action.get(backend_id)
    }

    /// The named contributor under `key`, if any.
    pub fn named(&self, key: &str) -> (r: Option<&C>)
        ensures
            match r {
                Some(c) => self.named_view().contains_key(key@) && *c == self.named_view()[key@],
                None => !self.named_view().contains_key(key@),
            },
    {
        self.named.get(key)
    }
}

/// A contributor registered before calls to a backend is the one found for it.
pub proof fn law_registered_contributor_is_found<C>(before: Map<Seq<char>, C>, backend_id: Seq<char>, c: C, other: Seq<char>)
    ensures
        before.insert(backend_id, c).contains_key(backend_id),
        before.insert(backend_id, c)[backend_id] == c,
        other != backend_id ==> before.insert(backend_id, c).contains_key(other) == before.contains_key(other),
{
}

// ---------------------------------------------------------------------------
// Action failures
// ---------------------------------------------------------------------------

/// A non-fatal failure of one component's action.
#[derive(Debug, Clone, PartialEq)]
pub enum ActionError {
    /// A resource failed; the component aborts.
    Resource { resource_id: String, error: String },
    /// The component failed as a whole.
    Component { error: String },
}

/// The mathematical content of an [`ActionError`].
pub enum ActionFailure {
    Resource { resource_id: Seq<char>, error: Seq<char> },
    Component { error: Seq<char> },
}

impl View for ActionError {
    type V = ActionFailure;

    open spec fn view(&self) -> ActionFailure {
        match self {
            ActionError::Resource { resource_id, error } => ActionFailure::Resource { resource_id: resource_id@, error: error@ },
            ActionError::Component { error } => ActionFailure::Component { error: error@ },
        }
    }
}

/// Why an action cannot go on after its steps.
#[derive(Debug, Clone, Copy, PartialEq, Eq)]
pub enum ActionFault {
    /// The component is absent from the component index.
    NotInIndex,
    /// The desired resource graph has no entry for the component.
    DesiredMissing,
    /// A backend replacement was planned for a managed-script component.
    ReplaceBackendOnManagedScript,
    /// A strengthen was planned for a managed-script component.
    StrengthenOnManagedScript,
    /// A strengthen action came without its resource list.
    StrengthenDetailsMissing,
}

/// The message of a fault of the action on component `id`.
pub open spec fn fault_message(f: ActionFault, id: Seq<char>) -> Seq<char> {
    match f {
        ActionFault::NotInIndex => "component not found in index: "@ + id,
        ActionFault::DesiredMissing => "desired resources not found for: "@ + id,
        ActionFault::ReplaceBackendOnManagedScript =>
            "invariant violation: replace_backend must not be generated for managed_script component '"@ + id + "'"@,
        ActionFault::StrengthenOnManagedScript =>
            "invariant violation: strengthen must not be generated for managed_script component '"@ + id + "'"@,
        ActionFault::StrengthenDetailsMissing => "strengthen action missing add_resources details"@,
    }
}

/// The component-level error of a fault (executable).
pub fn fault_error(f: ActionFault, id: &str) -> (r: ActionError)
    ensures
        r@ == (ActionFailure::Component { error: fault_message(f, id@) }),
{
    let error = match f {
        ActionFault::NotInIndex => concat2("component not found in index: ", id),
        ActionFault::DesiredMissing => concat2("desired resources not found for: ", id),
        ActionFault::ReplaceBackendOnManagedScript =>
            concat3("invariant violation: replace_backend must not be generated for managed_script component '", id, "'"),
        ActionFault::StrengthenOnManagedScript =>
            concat3("invariant violation: strengthen must not be generated for managed_script component '", id, "'"),
        ActionFault::StrengthenDetailsMissing => "strengthen action missing add_resources details".to_owned(),
    };
    ActionError::Component { error }
}

// ---------------------------------------------------------------------------
// Action plans
// ---------------------------------------------------------------------------

/// One piece of outside work of an action.
#[derive(Debug, Clone, Copy, PartialEq, Eq)]
pub enum ActionStep {
    /// Run the component's install or uninstall script.
    RunScript(ComponentOp),
    /// Check that the tool recorded at `index` of the component's state is gone.
    CheckAbsence { index: usize, after_uninstall: bool },
    /// Remove every recorded resource, in order, through its recorded backend.
    RemoveRecorded,
    /// Verify every desired tool resource; yields the state resources.
    VerifyTools,
    /// Apply the selected desired resources, in order; yields the state resources.
    ApplyDesired,
}

/// What becomes of the component's state entry once every step succeeded.
#[derive(Debug, Clone, Copy, PartialEq, Eq)]
pub enum Finish {
    /// The entry holds exactly the resources the steps yielded.
    Record,
    /// The entry is removed.
    Forget,
    /// The yielded resources are appended to the entry (created if absent).
    Extend,
    /// State is left as it is.
    Keep,
}

/// The work of one action and its conclusion.
#[derive(Debug)]
pub struct ActionPlan {
    pub steps: Vec<ActionStep>,
    /// Positions in the component's desired resources that `ApplyDesired` applies.
    pub apply: Vec<usize>,
    /// After all steps: the state change, or the fault that fails the action.
    pub conclusion: Result<Finish, ActionFault>,
}

/// The absence checks of the tools among `recorded`, in order.
pub open spec fn tool_checks(recorded: Seq<Resource>, after_uninstall: bool) -> Seq<ActionStep>
    decreases recorded.len(),
{
    if recorded.len() == 0 {
        Seq::empty()
    } else {
        let rest = tool_checks(recorded.drop_last(), after_uninstall);
        if recorded.last().kind is Tool {
            rest.push(ActionStep::CheckAbsence { index: (recorded.len() - 1) as usize, after_uninstall })
        } else {
            rest
        }
    }
}

/// The recorded resources of `id`, if state has an entry for it.
pub open spec fn recorded_of(state: &State, id: Seq<char>) -> Option<Seq<Resource>> {
    if state.components@.contains_key(id) { Some(state.components@[id].resources@) } else { None }
}

/// The checks of the recorded tools, when there is a recorded entry.
pub open spec fn checks_of(recorded: Option<Seq<Resource>>, after_uninstall: bool) -> Seq<ActionStep> {
    match recorded {
        Some(rs) => tool_checks(rs, after_uninstall),
        None => Seq::empty(),
    }
}

/// Removal of the recorded resources, when there is a recorded entry.
pub open spec fn removal_of(recorded: Option<Seq<Resource>>) -> Seq<ActionStep> {
    if recorded is Some { seq![ActionStep::RemoveRecorded] } else { Seq::empty() }
}

/// `steps` followed by `last`, concluding with `conclusion` when the desired
/// resources are present, else with the missing-desired fault.
pub open spec fn with_desired(steps: Seq<ActionStep>, has_desired: bool, last: ActionStep, conclusion: Finish) -> (Seq<ActionStep>, Result<Finish, ActionFault>) {
    if has_desired { (steps.push(last), Ok(conclusion)) } else { (steps, Err(ActionFault::DesiredMissing)) }
}

/// The steps and conclusion of operation `op` on a component of `mode`
/// (`None` when it is absent from the index), given its recorded resources,
/// whether the action carries strengthen details, and whether the desired
/// graph has an entry for it.
pub open spec fn action_shape(
    mode: Option<ComponentMode>,
    op: Operation,
    recorded: Option<Seq<Resource>>,
    has_strengthen_details: bool,
    has_desired: bool,
) -> (Seq<ActionStep>, Result<Finish, ActionFault>) {
    let install = ActionStep::RunScript(ComponentOp::Install);
    let uninstall = ActionStep::RunScript(ComponentOp::Uninstall);
    match mode {
        None => (Seq::empty(), Err(ActionFault::NotInIndex)),
        Some(m) => match op {
            Operation::Create => match m {
                ComponentMode::Script => (seq![install], Ok(Finish::Record)),
                ComponentMode::ManagedScript => with_desired(seq![install], has_desired, ActionStep::VerifyTools, Finish::Record),
                ComponentMode::Declarative => with_desired(Seq::empty(), has_desired, ActionStep::ApplyDesired, Finish::Record),
            },
            Operation::Destroy => match m {
                ComponentMode::Script => (seq![uninstall], Ok(Finish::Forget)),
                ComponentMode::ManagedScript => (seq![uninstall] + checks_of(recorded, false), Ok(Finish::Forget)),
                ComponentMode::Declarative => (removal_of(recorded), Ok(Finish::Forget)),
            },
            Operation::Replace => match m {
                ComponentMode::Script => (seq![uninstall, install], Ok(Finish::Record)),
                ComponentMode::ManagedScript => with_desired(
                    seq![uninstall] + checks_of(recorded, true) + seq![install],
                    has_desired,
                    ActionStep::VerifyTools,
                    Finish::Record,
                ),
                ComponentMode::Declarative => with_desired(removal_of(recorded), has_desired, ActionStep::ApplyDesired, Finish::Record),
            },
            Operation::ReplaceBackend => match m {
                ComponentMode::Script => (seq![uninstall, install], Ok(Finish::Record)),
                ComponentMode::ManagedScript => (Seq::empty(), Err(ActionFault::ReplaceBackendOnManagedScript)),
                ComponentMode::Declarative => with_desired(removal_of(recorded), has_desired, ActionStep::ApplyDesired, Finish::Record),
            },
            Operation::Strengthen => match m {
                ComponentMode::Script => (Seq::empty(), Ok(Finish::Keep)),
                ComponentMode::ManagedScript => (Seq::empty(), Err(ActionFault::StrengthenOnManagedScript)),
                ComponentMode::Declarative => if !has_strengthen_details {
                    (Seq::empty(), Err(ActionFault::StrengthenDetailsMissing))
                } else {
                    with_desired(Seq::empty(), has_desired, ActionStep::ApplyDesired, Finish::Extend)
                },
            },
        },
    }
}

/// Whether the resource id `id` is named by one of `refs`.
pub open spec fn referenced(refs: Seq<ResourceRef>, id: Seq<char>) -> bool {
    exists|j: int| 0 <= j < refs.len() && (#[trigger] refs[j]).id@ == id
}

/// The positions of the desired resources a strengthen adds: those whose id
/// one of `refs` names, in order.
pub open spec fn strengthen_selection(desired: Seq<DesiredResource>, refs: Seq<ResourceRef>) -> Seq<usize>
    decreases desired.len(),
{
    if desired.len() == 0 {
        Seq::empty()
    } else {
        let rest = strengthen_selection(desired.drop_last(), refs);
        if referenced(refs, desired.last().id@) { rest.push((desired.len() - 1) as usize) } else { rest }
    }
}

/// Every position of `n` desired resources, in order.
pub open spec fn every_position(n: nat) -> Seq<usize> {
    Seq::new(n, |i: int| i as usize)
}

/// The strengthen resource list of the details, if they are strengthen details.
pub open spec fn strengthen_refs(details: Option<ActionDetails>) -> Option<Seq<ResourceRef>> {
    match details {
        Some(ActionDetails::Strengthen(d)) => Some(d.add_resources@),
        _ => None,
    }
}

/// The desired resources of `id`, if the graph has an entry for it.
pub open spec fn desired_of(graph: &DesiredResourceGraph, id: Seq<char>) -> Option<Seq<DesiredResource>> {
    if graph.components@.contains_key(id) { Some(graph.components@[id].resources@) } else { None }
}

/// Whether `plan` is the plan of `action`.
pub open spec fn plans_action(plan: &ActionPlan, index: &ComponentIndex, graph: &DesiredResourceGraph, state: &State, action: &PlanAction) -> bool {
    let id = action.component@;
    let mode = if index.components@.contains_key(id) { Some(index.components@[id].mode) } else { None };
    let refs = strengthen_refs(action.details);
    let desired = desired_of(graph, id);
    let shape = action_shape(mode, action.operation, recorded_of(state, id), refs is Some, desired is Some);
    &&& plan.steps@ == shape.0
    &&& plan.conclusion == shape.1
    &&& (desired is Some ==> plan.apply@ == (if action.operation == Operation::Strengthen && refs is Some {
            strengthen_selection(desired->0, refs->0)
        } else {
            every_position(desired->0.len())
        }))
}

/// The absence checks of the tools in `recorded` (executable).
fn tool_checks_exec(recorded: &Vec<Resource>, after_uninstall: bool) -> (r: Vec<ActionStep>)
    ensures
        r@ == tool_checks(recorded@, after_uninstall),
{
    let mut out: Vec<ActionStep> = Vec::new();
    let mut i: usize = 0;
    while i < recorded.len()
        invariant
            i <= recorded.len(),
            out@ == tool_checks(recorded@.subrange(0, i as int), after_uninstall),
        decreases recorded.len() - i,
    {
        assert(recorded@.subrange(0, i + 1).drop_last() =~= recorded@.subrange(0, i as int));
        if let ResourceKind::Tool { .. } = &recorded[i].kind {
            out.push(ActionStep::CheckAbsence { index: i, after_uninstall });
        }
        i = i + 1;
    }
    assert(recorded@.subrange(0, recorded.len() as int) =~= recorded@);
    out
}

/// Whether `id` is named by one of `refs` (executable).
fn is_referenced(refs: &Vec<ResourceRef>, id: &str) -> (r: bool)
    ensures
        r == referenced(refs@, id@),
{
    let mut j: usize = 0;
    while j < refs.len()
        invariant
            j <= refs.len(),
            forall|k: int| 0 <= k < j ==> (#[trigger] refs@[k]).id@ != id@,
        decreases refs.len() - j,
    {
        if eq_str(refs[j].id.as_str(), id) {
            return true;
        }
        j = j + 1;
    }
    false
}

/// The positions a strengthen applies (executable).
fn strengthen_selection_exec(desired: &Vec<DesiredResource>, refs: &Vec<ResourceRef>) -> (r: Vec<usize>)
    ensures
        r@ == strengthen_selection(desired@, refs@),
{
    let mut out: Vec<usize> = Vec::new();
    let mut i: usize = 0;
    while i < desired.len()
        invariant
            i <= desired.len(),
            out@ == strengthen_selection(desired@.subrange(0, i as int), refs@),
        decreases desired.len() - i,
    {
        assert(desired@.subrange(0, i + 1).drop_last() =~= desired@.subrange(0, i as int));
        if is_referenced(refs, desired[i].id.as_str()) {
            out.push(i);
        }
        i = i + 1;
    }
    assert(desired@.subrange(0, desired.len() as int) =~= desired@);
    out
}

/// Every position below `n` (executable).
fn every_position_exec(n: usize) -> (r: Vec<usize>)
    ensures
        r@ == every_position(n as nat),
{
    let mut out: Vec<usize> = Vec::new();
    let mut i: usize = 0;
    while i < n
        invariant
            i <= n,
            out@ == every_position(i as nat),
        decreases n - i,
    {
        out.push(i);
        assert(out@ =~= every_position((i + 1) as nat));
        i = i + 1;
    }
    out
}

/// Plan the work of one action of the plan.
pub fn plan_action(index: &ComponentIndex, graph: &DesiredResourceGraph, state: &State, action: &PlanAction) -> (r: ActionPlan)
    ensures
        plans_action(&r, index, graph, state, action),
{
    let id = action.component.as_str();
    let install = ActionStep::RunScript(ComponentOp::Install);
    let uninstall = ActionStep::RunScript(ComponentOp::Uninstall);
    let desired = graph.components.get(id);
    let refs: Option<&Vec<ResourceRef>> = match &action.details {
        Some(ActionDetails::Strengthen(d)) => Some(&d.add_resources),
        _ => None,
    };
    let apply = match desired {
        Some(d) => match (action.operation, refs) {
            (Operation::Strengthen, Some(rs)) => strengthen_selection_exec(&d.resources, rs),
            _ => every_position_exec(d.resources.len()),
        },
        None => Vec::new(),
    };
    let has_desired = desired.is_some();
    let recorded = state.components.get(id);
    let mode = match index.components.get(id) {
        Some(meta) => meta.mode,
        None => {
            return ActionPlan { steps: Vec::new(), apply, conclusion: Err(ActionFault::NotInIndex) };
        },
    };
    let mut steps: Vec<ActionStep> = Vec::new();
    let conclusion: Result<Finish, ActionFault> = match action.operation {
        Operation::Create => match mode {
            ComponentMode::Script => {
                steps.push(install);
                Ok(Finish::Record)
            },
            ComponentMode::ManagedScript => {
                steps.push(install);
                if has_desired {
                    steps.push(ActionStep::VerifyTools);
                    Ok(Finish::Record)
                } else {
                    Err(ActionFault::DesiredMissing)
                }
            },
            ComponentMode::Declarative => {
                if has_desired {
                    steps.push(ActionStep::ApplyDesired);
                    Ok(Finish::Record)
                } else {
                    Err(ActionFault::DesiredMissing)
                }
            },
        },
        Operation::Destroy => match mode {
            ComponentMode::Script => {
                steps.push(uninstall);
                Ok(Finish::Forget)
            },
            ComponentMode::ManagedScript => {
                steps.push(uninstall);
                if let Some(cs) = recorded {
                    let mut checks = tool_checks_exec(&cs.resources, false);
                    steps.append(&mut checks);
                }
                Ok(Finish::Forget)
            },
            ComponentMode::Declarative => {
                if recorded.is_some() {
                    steps.push(ActionStep::RemoveRecorded);
                }
                Ok(Finish::Forget)
            },
        },
        Operation::Replace | Operation::ReplaceBackend => match mode {
            ComponentMode::Script => {
                steps.push(uninstall);
                steps.push(install);
                Ok(Finish::Record)
            },
            ComponentMode::ManagedScript => {
                if matches!(action.operation, Operation::ReplaceBackend) {
                    Err(ActionFault::ReplaceBackendOnManagedScript)
                } else {
                    steps.push(uninstall);
                    if let Some(cs) = recorded {
                        let mut checks = tool_checks_exec(&cs.resources, true);
                        steps.append(&mut checks);
                    }
                    steps.push(install);
                    if has_desired {
                        steps.push(ActionStep::VerifyTools);
                        Ok(Finish::Record)
                    } else {
                        Err(ActionFault::DesiredMissing)
                    }
                }
            },
            ComponentMode::Declarative => {
                if recorded.is_some() {
                    steps.push(ActionStep::RemoveRecorded);
                }
                if has_desired {
                    steps.push(ActionStep::ApplyDesired);
                    Ok(Finish::Record)
                } else {
                    Err(ActionFault::DesiredMissing)
                }
            },
        },
        Operation::Strengthen => match mode {
            ComponentMode::Script => Ok(Finish::Keep),
            ComponentMode::ManagedScript => Err(ActionFault::StrengthenOnManagedScript),
            ComponentMode::Declarative => {
                if refs.is_none() {
                    Err(ActionFault::StrengthenDetailsMissing)
                } else if has_desired {
                    steps.push(ActionStep::ApplyDesired);
                    Ok(Finish::Extend)
                } else {
                    Err(ActionFault::DesiredMissing)
                }
            },
        },
    };
    proof {
        let shape = action_shape(Some(mode), action.operation, recorded_of(state, id@), refs is Some, has_desired);
        assert(steps@ =~= shape.0);
    }
    ActionPlan { steps, apply, conclusion }
}

// ---------------------------------------------------------------------------
// Settling an action
// ---------------------------------------------------------------------------

/// The resources the successful steps yielded, in order.
pub open spec fn yielded(outcomes: Seq<Result<Vec<Resource>, ActionError>>) -> Seq<Resource>
    decreases outcomes.len(),
{
    if outcomes.len() == 0 {
        Seq::empty()
    } else {
        yielded(outcomes.drop_last()) + match outcomes.last() {
            Ok(v) => v@,
            Err(_) => Seq::empty(),
        }
    }
}

/// Whether the outcomes are those of performing the steps of `plan` in
/// order and stopping at the first failure.
pub open spec fn performed(plan: &ActionPlan, outcomes: Seq<Result<Vec<Resource>, ActionError>>) -> bool {
    &&& outcomes.len() <= plan.steps@.len()
    &&& forall|i: int| 0 <= i < outcomes.len() - 1 ==> (#[trigger] outcomes[i]) is Ok
    &&& outcomes.len() < plan.steps@.len() ==> outcomes.len() > 0 && outcomes.last() is Err
}

/// Whether a step failed.
pub open spec fn step_failed(outcomes: Seq<Result<Vec<Resource>, ActionError>>) -> bool {
    outcomes.len() > 0 && outcomes.last() is Err
}

/// How the component entries change when an action on `id` concludes with
/// `finish` after the steps yielded `produced`.
pub open spec fn settled(
    before: Map<Seq<char>, ComponentState>,
    after: Map<Seq<char>, ComponentState>,
    id: Seq<char>,
    finish: Finish,
    produced: Seq<Resource>,
) -> bool {
    match finish {
        Finish::Record => after.remove(id) == before.remove(id) && after.contains_key(id) && after[id].resources@ == produced,
        Finish::Forget => after == before.remove(id),
        Finish::Extend => after.remove(id) == before.remove(id) && after.contains_key(id)
            && after[id].resources@ == (if before.contains_key(id) { before[id].resources@ } else { Seq::empty() }) + produced,
        Finish::Keep => after == before,
    }
}

/// Settle the action on component `id` after its steps were performed with
/// `outcomes` (each yielding state resources or failing). When a step failed
/// its error is returned; when the plan concludes with a fault, that fault;
/// in both cases state is left unchanged. Otherwise the component's entry
/// changes as the plan's conclusion says.
pub fn settle_action(state: &mut State, id: &str, plan: &ActionPlan, outcomes: Vec<Result<Vec<Resource>, ActionError>>) -> (r: Result<(), ActionError>)
    requires
        performed(plan, outcomes@),
    ensures
        final(state).version == old(state).version,
        step_failed(outcomes@) ==> r is Err && r->Err_0@ == outcomes@.last()->Err_0@ && final(state).components@ == old(state).components@,
        !step_failed(outcomes@) ==> match plan.conclusion {
            Err(f) => r is Err && r->Err_0@ == (ActionFailure::Component { error: fault_message(f, id@) })
                && final(state).components@ == old(state).components@,
            Ok(finish) => r is Ok && settled(old(state).components@, final(state).components@, id@, finish, yielded(outcomes@)),
        },
{
    let ghost all = outcomes@;
    let n = outcomes.len();
    let mut rest = outcomes;
    let mut produced: Vec<Resource> = Vec::new();
    let mut k: usize = 0;
    while k < n
        invariant
            k <= n == all.len(),
            rest@ == all.subrange(k as int, n as int),
            produced@ == yielded(all.subrange(0, k as int)),
            forall|i: int| 0 <= i < k ==> (#[trigger] all[i]) is Ok,
            forall|i: int| 0 <= i < n - 1 ==> (#[trigger] all[i]) is Ok,
            all == outcomes@,
            state.components@ == old(state).components@,
            state.version == old(state).version,
        decreases n - k,
    {
        let o = rest.remove(0);
        assert(o == all[k as int]);
        assert(all.subrange(0, k + 1).drop_last() =~= all.subrange(0, k as int));
        match o {
            Ok(mut v) => {
                produced.append(&mut v);
            },
            Err(e) => {
                proof {
                    if k + 1 < n {
                        assert(all[k as int] is Ok);
                    }
                    assert(k + 1 == n);
                }
                return Err(e);
            },
        }
        assert(rest@ =~= all.subrange(k + 1, n as int));
        k = k + 1;
    }
    assert(all.subrange(0, n as int) =~= all);
    let finish = match plan.conclusion {
        Err(f) => {
            return Err(fault_error(f, id));
        },
        Ok(finish) => finish,
    };
    let ghost before = state.components@;
    match finish {
        Finish::Record => {
            state.components.insert(id.to_owned(), ComponentState { resources: produced });
            assert(state.components@.remove(id@) =~= before.remove(id@));
        },
        Finish::Forget => {
            state.components.remove(id);
        },
        Finish::Extend => {
            match state.components.remove(id) {
                Some(mut cs) => {
                    cs.resources.append(&mut produced);
                    state.components.insert(id.to_owned(), cs);
                },
                None => {
                    state.components.insert(id.to_owned(), ComponentState { resources: produced });
                    assert(Seq::<Resource>::empty() + produced@ =~= produced@);
                },
            }
            assert(state.components@.remove(id@) =~= before.remove(id@));
        },
        Finish::Keep => {},
    }
    Ok(())
}

// ---------------------------------------------------------------------------
// Recording outcomes
// ---------------------------------------------------------------------------

/// Whether `events` are the events of the outcome of the action on `id`:
/// `ComponentDone`; or `ResourceFailed` then `ComponentFailed`; or
/// `ComponentFailed`.
pub open spec fn outcome_events(events: Seq<Event>, id: Seq<char>, outcome: Result<(), ActionFailure>) -> bool {
    match outcome {
        Ok(()) => events.len() == 1 && (events[0] matches Event::ComponentDone { id: x } && x@ == id),
        Err(ActionFailure::Resource { resource_id, error }) => events.len() == 2
            && (events[0] matches Event::ResourceFailed { component_id: c, resource_id: r, error: e }
                && c@ == id && r@ == resource_id && e@ == error)
            && (events[1] matches Event::ComponentFailed { id: x, error: e } && x@ == id && e@ == error),
        Err(ActionFailure::Component { error }) => events.len() == 1
            && (events[0] matches Event::ComponentFailed { id: x, error: e } && x@ == id && e@ == error),
    }
}

/// The view of an action outcome.
pub open spec fn outcome_view(r: Result<(), ActionError>) -> Result<(), ActionFailure> {
    match r {
        Ok(()) => Ok(()),
        Err(e) => Err(e@),
    }
}

/// Record the outcome of the action `op` on `id` in `report`, returning the
/// events to emit: a success is listed as executed, a failure as failed with
/// its error.
pub fn record_action(report: &mut ExecutorReport, id: &str, op: Operation, outcome: Result<(), ActionError>) -> (events: Vec<Event>)
    ensures
        outcome_events(events@, id@, outcome_view(outcome)),
        final(report).env_artifacts@ == old(report).env_artifacts@,
        final(report).final_env_plan == old(report).final_env_plan,
        match outcome {
            Ok(()) => final(report).failed@ == old(report).failed@
                && final(report).executed@.len() == old(report).executed@.len() + 1
                && final(report).executed@.drop_last() == old(report).executed@
                && final(report).executed@.last().id@ == id@
                && final(report).executed@.last().operation@ == operation_name(op),
            Err(e) => final(report).executed@ == old(report).executed@
                && final(report).failed@.len() == old(report).failed@.len() + 1
                && final(report).failed@.drop_last() == old(report).failed@
                && final(report).failed@.last().id@ == id@
                && final(report).failed@.last().operation@ == operation_name(op)
                && final(report).failed@.last().error@ == (match e@ {
                    ActionFailure::Resource { error, .. } => error,
                    ActionFailure::Component { error } => error,
                }),
        },
{
    let mut events: Vec<Event> = Vec::new();
    match outcome {
        Ok(()) => {
            events.push(Event::ComponentDone { id: id.to_owned() });
            report.executed.push(ExecutedComponent { id: id.to_owned(), operation: operation_label(op) });
            assert(report.executed@.drop_last() =~= old(report).executed@);
        },
        Err(ActionError::Resource { resource_id, error }) => {
            events.push(Event::ResourceFailed { component_id: id.to_owned(), resource_id, error: error.clone() });
            events.push(Event::ComponentFailed { id: id.to_owned(), error: error.clone() });
            report.failed.push(FailedComponent { id: id.to_owned(), operation: operation_label(op), error });
            assert(report.failed@.drop_last() =~= old(report).failed@);
        },
        Err(ActionError::Component { error }) => {
            events.push(Event::ComponentFailed { id: id.to_owned(), error: error.clone() });
            report.failed.push(FailedComponent { id: id.to_owned(), operation: operation_label(op), error });
            assert(report.failed@.drop_last() =~= old(report).failed@);
        },
    }
    events
}

/// The tool checks are absence checks only.
proof fn lemma_tool_checks_only_checks(rs: Seq<Resource>, after_uninstall: bool)
    ensures
        forall|k: int| 0 <= k < tool_checks(rs, after_uninstall).len() ==> #[trigger] tool_checks(rs, after_uninstall)[k] is CheckAbsence,
    decreases rs.len(),
{
    if rs.len() > 0 {
        lemma_tool_checks_only_checks(rs.drop_last(), after_uninstall);
    }
}

/// Law: what an action does to a component of the index. For a script-based
/// component (script or managed script), a destroy runs the uninstall script first and then
/// forgets the component; a create runs the install script first; a replace
/// runs the uninstall script first and the install script later. Any destroy
/// forgets the component without installing, applying or verifying anything,
/// and removes a declarative component's recorded resources; a create or
/// replace of a declarative component with desired resources ends by applying
/// them and records the result. An action on a component absent from the
/// index does nothing and fails.
pub proof fn law_script_components_run_their_scripts(plan: &ActionPlan, index: &ComponentIndex, graph: &DesiredResourceGraph, state: &State, action: &PlanAction)
    requires
        plans_action(plan, index, graph, state, action),
    ensures
        !index.components@.contains_key(action.component@) ==> plan.steps@.len() == 0 && plan.conclusion == Err::<Finish, ActionFault>(ActionFault::NotInIndex),
        index.components@.contains_key(action.component@) && (index.components@[action.component@].mode == ComponentMode::Script
            || index.components@[action.component@].mode == ComponentMode::ManagedScript) ==> {
            &&& action.operation == Operation::Destroy ==> plan.steps@.len() > 0
                && plan.steps@[0] == ActionStep::RunScript(ComponentOp::Uninstall)
                && plan.conclusion == Ok::<Finish, ActionFault>(Finish::Forget)
            &&& action.operation == Operation::Create ==> plan.steps@.len() > 0
                && plan.steps@[0] == ActionStep::RunScript(ComponentOp::Install)
            &&& action.operation == Operation::Replace ==> plan.steps@.len() > 0
                && plan.steps@[0] == ActionStep::RunScript(ComponentOp::Uninstall)
                && exists|k: int| 0 < k < plan.steps@.len() && plan.steps@[k] == ActionStep::RunScript(ComponentOp::Install)
        },
        index.components@.contains_key(action.component@) && action.operation == Operation::Destroy ==> {
            &&& plan.conclusion == Ok::<Finish, ActionFault>(Finish::Forget)
            &&& forall|k: int| 0 <= k < plan.steps@.len() ==> #[trigger] plan.steps@[k] != ActionStep::RunScript(ComponentOp::Install)
                && plan.steps@[k] != ActionStep::ApplyDesired && plan.steps@[k] != ActionStep::VerifyTools
            &&& index.components@[action.component@].mode == ComponentMode::Declarative && state.components@.contains_key(action.component@)
                ==> plan.steps@.contains(ActionStep::RemoveRecorded)
        },
        index.components@.contains_key(action.component@) && index.components@[action.component@].mode == ComponentMode::Declarative
            && graph.components@.contains_key(action.component@)
            && (action.operation == Operation::Create || action.operation == Operation::Replace || action.operation == Operation::ReplaceBackend)
            ==> plan.steps@.len() > 0 && plan.steps@.last() == ActionStep::ApplyDesired
                && plan.conclusion == Ok::<Finish, ActionFault>(Finish::Record),
{
    let id = action.component@;
    if index.components@.contains_key(id) {
        let m = index.components@[id].mode;
        let recorded = recorded_of(state, id);
        let install = ActionStep::RunScript(ComponentOp::Install);
        let uninstall = ActionStep::RunScript(ComponentOp::Uninstall);
        if action.operation == Operation::Replace && m == ComponentMode::Script {
            assert(plan.steps@[1] == install);
        }
        if action.operation == Operation::Replace && m == ComponentMode::ManagedScript {
            let body = seq![uninstall] + checks_of(recorded, true) + seq![install];
            assert(body[body.len() - 1] == install);
            if desired_of(graph, id) is Some {
                assert(plan.steps@ == body.push(ActionStep::VerifyTools));
                assert(plan.steps@[body.len() - 1] == install);
            } else {
                assert(plan.steps@ == body);
            }
            assert(plan.steps@[0] == uninstall);
        }
        if action.operation == Operation::Create && m == ComponentMode::ManagedScript {
            assert(plan.steps@[0] == install);
        }
        if action.operation == Operation::Destroy && m == ComponentMode::ManagedScript {
            assert(plan.steps@ == seq![uninstall] + checks_of(recorded, false));
            assert(plan.steps@[0] == uninstall);
            if let Some(rs) = recorded {
                lemma_tool_checks_only_checks(rs, false);
            }
            assert forall|k: int| 0 <= k < plan.steps@.len() implies #[trigger] plan.steps@[k] != install
                && plan.steps@[k] != ActionStep::ApplyDesired && plan.steps@[k] != ActionStep::VerifyTools by {
                if k > 0 {
                    assert(plan.steps@[k] == checks_of(recorded, false)[k - 1]);
                }
            }
        }
        if action.operation == Operation::Destroy && m == ComponentMode::Declarative && state.components@.contains_key(id) {
            assert(plan.steps@[0] == ActionStep::RemoveRecorded);
        }
    }
}

} // verus!
