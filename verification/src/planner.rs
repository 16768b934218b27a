//! Plan generator.
//!
//! The planner is pure: it reads the desired resource graph, the state and the
//! resolved component order, classifies every component, and produces a plan.
//!
//! Components in state but not desired are destroyed first (in descending id
//! order); then every desired component, in resolved order followed by any
//! desired component missing from it (ascending), is created, replaced,
//! strengthened or left alone. Resources are matched by id (the first
//! resource with a given id), and within a component the first incompatible
//! shared resource, in desired order, decides a replacement.
use vstd::prelude::*;
use crate::desired_resource_graph::{ComponentDesiredResources, DesiredResource, DesiredResourceGraph, DesiredResourceKind};
use crate::id::{CanonicalComponentId, is_canonical};
use crate::plan::{ActionDetails, BlockedEntry, NoopEntry, Operation, Plan, PlanAction, PlanSummary, ReplaceDetails, ResourceRef, StrengthenDetails};
use crate::state::{ComponentState, Resource, ResourceKind, State};
use crate::text::{eq_str, first_where, lemma_first_where, lemma_first_where_found, lemma_first_where_none, strictly_sorted, seq_lt, lemma_seq_lt_irreflexive};
use crate::strmap::StrMap;

verus! {

/// Errors produced by the planner.
#[derive(Debug, PartialEq)]
pub enum PlannerError {
    /// A component appears in the resolved order but not in the desired resource graph.
    ComponentOrderMismatch { id: String },
}

impl PlannerError {
    /// The message of the error.
    pub open spec fn message_spec(&self) -> Seq<char> {
        match self {
            PlannerError::ComponentOrderMismatch { id } =>
                "feature '"@ + id@ + "' is in the resolved order but not in the DesiredResourceGraph"@,
        }
    }

    /// The human-readable message.
    pub fn message(&self) -> (r: String)
        ensures
            r@ == self.message_spec(),
    {
        match self {
            PlannerError::ComponentOrderMismatch { id } => crate::text::concat3("feature '", id.as_str(), "' is in the resolved order but not in the DesiredResourceGraph"),
        }
    }
}

// ---------------------------------------------------------------------------
// The meaning of classification
// ---------------------------------------------------------------------------

/// Result of comparing a desired resource with its recorded counterpart.
pub enum Compat {
    Compatible,
    BackendMismatch,
    Incompatible(Option<Seq<char>>, Option<Seq<char>>),
}

/// The compatibility rules: a package must keep its backend and name; a
/// runtime its backend, name and version (a version change reports both
/// versions); a filesystem entry its path, entry type and operation; any
/// other pairing (a kind change, or tools) is incompatible.
pub open spec fn compat(d: DesiredResource, s: Resource) -> Compat {
    match (d.kind, s.kind) {
        (DesiredResourceKind::Package { name, desired_backend }, ResourceKind::Package { backend, package }) =>
            if desired_backend@ != backend@ { Compat::BackendMismatch }
            else if name@ != package.name@ { Compat::Incompatible(None, None) }
            else { Compat::Compatible },
        (DesiredResourceKind::Runtime { name, version, desired_backend }, ResourceKind::Runtime { backend, runtime }) =>
            if desired_backend@ != backend@ { Compat::BackendMismatch }
            else if name@ != runtime.name@ || version@ != runtime.version@ { Compat::Incompatible(Some(runtime.version@), Some(version@)) }
            else { Compat::Compatible },
        (DesiredResourceKind::Fs { path, entry_type, op, .. }, ResourceKind::Fs { fs }) =>
            if path@ != fs.path@ || !same_entry_type(entry_type, fs.entry_type) || !same_op(op, fs.op) { Compat::Incompatible(None, None) }
            else { Compat::Compatible },
        _ => Compat::Incompatible(None, None),
    }
}

/// Whether desired and recorded entry types agree.
pub open spec fn same_entry_type(d: crate::desired_resource_graph::FsEntryType, s: crate::state::FsEntryType) -> bool {
    (d == crate::desired_resource_graph::FsEntryType::File && s == crate::state::FsEntryType::File)
    || (d == crate::desired_resource_graph::FsEntryType::Dir && s == crate::state::FsEntryType::Dir)
}

/// Whether desired and recorded operations agree.
pub open spec fn same_op(d: crate::desired_resource_graph::FsOp, s: crate::state::FsOp) -> bool {
    (d == crate::desired_resource_graph::FsOp::Link && s == crate::state::FsOp::Link)
    || (d == crate::desired_resource_graph::FsOp::Copy && s == crate::state::FsOp::Copy)
}

/// The name of a resource kind.
pub open spec fn kind_name(k: DesiredResourceKind) -> Seq<char> {
    match k {
        DesiredResourceKind::Package { .. } => "package"@,
        DesiredResourceKind::Runtime { .. } => "runtime"@,
        DesiredResourceKind::Fs { .. } => "fs"@,
        DesiredResourceKind::Tool { .. } => "tool"@,
    }
}

/// Whether recorded resource `j` has id `id`.
pub open spec fn state_id_pred(sres: Seq<Resource>, id: Seq<char>) -> spec_fn(int) -> bool {
    |j: int| sres[j].id@ == id
}

/// Whether desired resource `i` has id `id`.
pub open spec fn desired_id_pred(dres: Seq<DesiredResource>, id: Seq<char>) -> spec_fn(int) -> bool {
    |i: int| dres[i].id@ == id
}

/// The greatest index below `n` satisfying `p`, if any.
pub open spec fn last_where(n: nat, p: spec_fn(int) -> bool) -> Option<int>
    decreases n,
{
    if n == 0 {
        None
    } else if p(n - 1) {
        Some(n - 1)
    } else {
        last_where((n - 1) as nat, p)
    }
}

/// An index satisfying `p` with none after it is what `last_where` finds.
proof fn lemma_last_where_found(n: nat, p: spec_fn(int) -> bool, i: int)
    requires
        0 <= i < n,
        p(i),
        forall|j: int| i < j < n ==> !#[trigger] p(j),
    ensures
        last_where(n, p) == Some(i),
    decreases n,
{
    if i < n - 1 {
        assert(!p(n - 1));
        lemma_last_where_found((n - 1) as nat, p, i);
    }
}

/// With no index satisfying `p`, `last_where` finds nothing.
proof fn lemma_last_where_none(n: nat, p: spec_fn(int) -> bool)
    requires
        forall|j: int| 0 <= j < n ==> !#[trigger] p(j),
    ensures
        last_where(n, p) is None,
    decreases n,
{
    if n > 0 {
        assert(!p(n - 1));
        lemma_last_where_none((n - 1) as nat, p);
    }
}

/// The position of the recorded resource with id `id`: the last one, as a
/// later record of the same id replaces an earlier one.
pub open spec fn find_state(sres: Seq<Resource>, id: Seq<char>) -> Option<int> {
    last_where(sres.len(), state_id_pred(sres, id))
}

/// Whether desired resource `i` is the last one with its id (a later
/// declaration of the same id replaces it).
pub open spec fn is_last_desired(dres: Seq<DesiredResource>, i: int) -> bool {
    forall|j: int| i < j < dres.len() ==> #[trigger] dres[j].id@ != dres[i].id@
}

/// The position of the first desired resource with id `id`.
pub open spec fn find_desired(dres: Seq<DesiredResource>, id: Seq<char>) -> Option<int> {
    first_where(dres.len(), desired_id_pred(dres, id))
}

/// Whether desired resource `i` is recorded and not compatible with its record.
pub open spec fn incompat_pred(dres: Seq<DesiredResource>, sres: Seq<Resource>) -> spec_fn(int) -> bool {
    |i: int| is_last_desired(dres, i) && match find_state(sres, dres[i].id@) {
        Some(j) => !(compat(dres[i], sres[j]) is Compatible),
        None => false,
    }
}

/// Whether recorded resource `j` is no longer desired.
pub open spec fn stale_pred(dres: Seq<DesiredResource>, sres: Seq<Resource>) -> spec_fn(int) -> bool {
    |j: int| find_desired(dres, sres[j].id@) is None
}

/// The desired ids not yet recorded among the first `n` desired resources,
/// each once, as (kind, id) of its last declaration, in desired order.
pub open spec fn additions_upto(dres: Seq<DesiredResource>, sres: Seq<Resource>, n: nat) -> Seq<(Seq<char>, Seq<char>)>
    decreases n,
{
    if n == 0 {
        Seq::empty()
    } else {
        let rest = additions_upto(dres, sres, (n - 1) as nat);
        let r = dres[n - 1];
        if find_state(sres, r.id@) is None && is_last_desired(dres, n - 1) {
            rest.push((kind_name(r.kind), r.id@))
        } else {
            rest
        }
    }
}

/// The desired ids not yet recorded, each once, as (kind, id), in desired order.
pub open spec fn additions(dres: Seq<DesiredResource>, sres: Seq<Resource>) -> Seq<(Seq<char>, Seq<char>)> {
    additions_upto(dres, sres, dres.len())
}

/// Classification of a component.
pub enum Class {
    Create,
    Replace(Option<Seq<char>>, Option<Seq<char>>),
    ReplaceBackend,
    Strengthen(Seq<(Seq<char>, Seq<char>)>),
    Noop,
}

/// Classification of a component present in both desired and state (an id
/// declared or recorded twice counts with its last entry): the
/// first incompatible shared resource decides a replacement; else a recorded
/// resource no longer desired forces a replacement; else new resources make a
/// strengthen; else nothing changes.
pub open spec fn classify_existing(dres: Seq<DesiredResource>, sres: Seq<Resource>) -> Class {
    match first_where(dres.len(), incompat_pred(dres, sres)) {
        Some(i) => match compat(dres[i], sres[find_state(sres, dres[i].id@)->0]) {
            Compat::BackendMismatch => Class::ReplaceBackend,
            Compat::Incompatible(f, t) => Class::Replace(f, t),
            Compat::Compatible => Class::Noop,
        },
        None => if first_where(sres.len(), stale_pred(dres, sres)) is Some {
            Class::Replace(None, None)
        } else if additions(dres, sres).len() == 0 {
            Class::Noop
        } else {
            Class::Strengthen(additions(dres, sres))
        },
    }
}

/// Classification of desired component `id`.
pub open spec fn classify(desired: &DesiredResourceGraph, state: &State, id: Seq<char>) -> Class {
    if !state.components@.contains_key(id) {
        Class::Create
    } else {
        classify_existing(desired.components@[id].resources@, state.components@[id].resources@)
    }
}

/// The ids of an order.
pub open spec fn order_ids(order: Seq<CanonicalComponentId>) -> Seq<Seq<char>> {
    order.map_values(|c: CanonicalComponentId| c@)
}

/// The keys of `keys` not in `excluded`, in order.
pub open spec fn keys_not_in(keys: Seq<Seq<char>>, excluded: Seq<Seq<char>>) -> Seq<Seq<char>>
    decreases keys.len(),
{
    if keys.len() == 0 {
        Seq::empty()
    } else {
        let rest = keys_not_in(keys.drop_last(), excluded);
        if excluded.contains(keys.last()) { rest } else { rest.push(keys.last()) }
    }
}

/// The keys of `keys` outside `dom`, in reverse order.
pub open spec fn stale_keys_desc(keys: Seq<Seq<char>>, dom: Map<Seq<char>, ComponentDesiredResources>) -> Seq<Seq<char>>
    decreases keys.len(),
{
    if keys.len() == 0 {
        Seq::empty()
    } else {
        let rest = stale_keys_desc(keys.drop_last(), dom);
        if dom.contains_key(keys.last()) { rest } else { seq![keys.last()] + rest }
    }
}

/// The components to consider, in order: the resolved order, then desired
/// components missing from it in ascending id order.
pub open spec fn ordered_ids(desired: &DesiredResourceGraph, order: Seq<CanonicalComponentId>) -> Seq<Seq<char>> {
    order_ids(order) + keys_not_in(desired.components.keys(), order_ids(order))
}

/// The components to destroy: in state but not desired, in descending id order.
pub open spec fn destroy_ids(desired: &DesiredResourceGraph, state: &State) -> Seq<Seq<char>> {
    stale_keys_desc(state.components.keys(), desired.components@)
}

/// The actions (component and classification) and noops for `ids`, in order.
pub open spec fn plan_fold(desired: &DesiredResourceGraph, state: &State, ids: Seq<Seq<char>>) -> (Seq<(Seq<char>, Class)>, Seq<Seq<char>>)
    decreases ids.len(),
{
    if ids.len() == 0 {
        (Seq::empty(), Seq::empty())
    } else {
        let (a, n) = plan_fold(desired, state, ids.drop_last());
        let id = ids.last();
        match classify(desired, state, id) {
            Class::Noop => (a, n.push(id)),
            c => (a.push((id, c)), n),
        }
    }
}

/// The views of resource references.
pub open spec fn ref_views(refs: Seq<ResourceRef>) -> Seq<(Seq<char>, Seq<char>)> {
    refs.map_values(|r: ResourceRef| (r.kind@, r.id@))
}

/// The views of an optional string.
pub open spec fn opt_view(o: Option<String>) -> Option<Seq<char>> {
    match o {
        Some(s) => Some(s@),
        None => None,
    }
}

/// Whether `a` destroys component `id`.
pub open spec fn destroy_at(a: PlanAction, id: Seq<char>) -> bool {
    a.component@ == id && a.operation == Operation::Destroy && a.details is None
}

/// Whether `a` is the action for component `id` classified `c`.
pub open spec fn action_is(a: PlanAction, id: Seq<char>, c: Class) -> bool {
    &&& a.component@ == id
    &&& match c {
        Class::Create => a.operation == Operation::Create && a.details is None,
        Class::ReplaceBackend => a.operation == Operation::ReplaceBackend && a.details is None,
        Class::Replace(f, t) => a.operation == Operation::Replace && match a.details {
            Some(ActionDetails::Replace(rd)) => opt_view(rd.from_version) == f && opt_view(rd.to_version) == t,
            _ => false,
        },
        Class::Strengthen(adds) => a.operation == Operation::Strengthen && match a.details {
            Some(ActionDetails::Strengthen(sd)) => ref_views(sd.add_resources@) == adds,
            _ => false,
        },
        Class::Noop => false,
    }
}

/// Number of actions with operation `op`.
pub open spec fn count_op(actions: Seq<PlanAction>, op: Operation) -> nat
    decreases actions.len(),
{
    if actions.len() == 0 {
        0
    } else {
        count_op(actions.drop_last(), op) + if actions.last().operation == op { 1nat } else { 0nat }
    }
}

/// Whether `p` is the plan for the inputs: destroys first, then the actions
/// and noops of the considered components, nothing blocked, and a summary
/// that counts the actions by operation (replace-backend counted as replace).
pub open spec fn plan_is(desired: &DesiredResourceGraph, state: &State, order: Seq<CanonicalComponentId>, p: Plan) -> bool {
    let dest = destroy_ids(desired, state);
    let (acts, noops) = plan_fold(desired, state, ordered_ids(desired, order));
    &&& p.actions@.len() == dest.len() + acts.len()
    &&& forall|k: int| 0 <= k < dest.len() ==> destroy_at(#[trigger] p.actions@[k], dest[k])
    &&& forall|k: int| dest.len() <= k < p.actions@.len() ==> action_is(#[trigger] p.actions@[k], acts[k - dest.len()].0, acts[k - dest.len()].1)
    &&& p.noops@.len() == noops.len()
    &&& forall|k: int| 0 <= k < noops.len() ==> #[trigger] p.noops@[k].component@ == noops[k]
    &&& p.blocked@.len() == 0
    &&& p.summary.create == count_op(p.actions@, Operation::Create)
    &&& p.summary.destroy == count_op(p.actions@, Operation::Destroy)
    &&& p.summary.replace == count_op(p.actions@, Operation::Replace) + count_op(p.actions@, Operation::ReplaceBackend)
    &&& p.summary.strengthen == count_op(p.actions@, Operation::Strengthen)
    &&& p.summary.replace_backend == 0
    &&& p.summary.blocked == 0
}

/// Whether desired-graph key `k` is absent for resolved order entry `i`.
pub open spec fn mismatch_pred(desired: &DesiredResourceGraph, order: Seq<CanonicalComponentId>) -> spec_fn(int) -> bool {
    |i: int| !desired.components@.contains_key(order[i]@)
}


// ---------------------------------------------------------------------------
// Executable classification
// ---------------------------------------------------------------------------

/// Result of comparing a desired resource with its record.
enum CompatResult {
    Compatible,
    BackendMismatch,
    Incompatible(Option<String>, Option<String>),
}

spec fn compat_result_is(r: CompatResult, c: Compat) -> bool {
    match (r, c) {
        (CompatResult::Compatible, Compat::Compatible) => true,
        (CompatResult::BackendMismatch, Compat::BackendMismatch) => true,
        (CompatResult::Incompatible(f, t), Compat::Incompatible(f2, t2)) => opt_view(f) == f2 && opt_view(t) == t2,
        _ => false,
    }
}

/// Compare a desired resource against its recorded counterpart.
fn check_compatibility(desired: &DesiredResource, recorded: &Resource) -> (r: CompatResult)
    ensures
        compat_result_is(r, compat(*desired, *recorded)),
{
    match (&desired.kind, &recorded.kind) {
        (DesiredResourceKind::Package { name, desired_backend }, ResourceKind::Package { backend, package }) => {
            if !eq_str(desired_backend.as_str(), backend.as_str()) {
                return CompatResult::BackendMismatch;
            }
            if !eq_str(name.as_str(), package.name.as_str()) {
                return CompatResult::Incompatible(None, None);
            }
            CompatResult::Compatible
        },
        (DesiredResourceKind::Runtime { name, version, desired_backend }, ResourceKind::Runtime { backend, runtime }) => {
            if !eq_str(desired_backend.as_str(), backend.as_str()) {
                return CompatResult::BackendMismatch;
            }
            if !eq_str(name.as_str(), runtime.name.as_str()) || !eq_str(version.as_str(), runtime.version.as_str()) {
                return CompatResult::Incompatible(Some(runtime.version.clone()), Some(version.clone()));
            }
            CompatResult::Compatible
        },
        (DesiredResourceKind::Fs { path, entry_type, op, .. }, ResourceKind::Fs { fs }) => {
            let et_match = match (entry_type, &fs.entry_type) {
                (crate::desired_resource_graph::FsEntryType::File, crate::state::FsEntryType::File) => true,
                (crate::desired_resource_graph::FsEntryType::Dir, crate::state::FsEntryType::Dir) => true,
                _ => false,
            };
            let op_match = match (op, &fs.op) {
                (crate::desired_resource_graph::FsOp::Link, crate::state::FsOp::Link) => true,
                (crate::desired_resource_graph::FsOp::Copy, crate::state::FsOp::Copy) => true,
                _ => false,
            };
            if !eq_str(path.as_str(), fs.path.as_str()) || !et_match || !op_match {
                return CompatResult::Incompatible(None, None);
            }
            CompatResult::Compatible
        },
        _ => CompatResult::Incompatible(None, None),
    }
}

/// The last recorded resource with id `id`.
fn find_state_exec(sres: &Vec<Resource>, id: &str) -> (r: Option<usize>)
    ensures
        match r {
            Some(j) => find_state(sres@, id@) == Some(j as int) && j < sres@.len() && sres@[j as int].id@ == id@,
            None => find_state(sres@, id@) is None,
        },
{
    let mut j: usize = sres.len();
    while j > 0
        invariant
            j <= sres@.len(),
            forall|k: int| j <= k < sres@.len() ==> !#[trigger] state_id_pred(sres@, id@)(k),
        decreases j,
    {
        if eq_str(sres[j - 1].id.as_str(), id) {
            proof { lemma_last_where_found(sres@.len(), state_id_pred(sres@, id@), j - 1); }
            return Some(j - 1);
        }
        j = j - 1;
    }
    proof { lemma_last_where_none(sres@.len(), state_id_pred(sres@, id@)); }
    None
}

/// Whether desired resource `i` is the last one with its id.
fn is_last_desired_exec(dres: &Vec<DesiredResource>, i: usize) -> (r: bool)
    requires
        i < dres@.len(),
    ensures
        r == is_last_desired(dres@, i as int),
{
    let n = dres.len();
    let mut j: usize = i + 1;
    while j < n
        invariant
            i < j <= dres@.len(),
            n == dres@.len(),
            forall|k: int| i < k < j ==> #[trigger] dres@[k].id@ != dres@[i as int].id@,
        decreases n - j,
    {
        if eq_str(dres[j].id.as_str(), dres[i].id.as_str()) {
            return false;
        }
        j = j + 1;
    }
    true
}

/// The first desired resource with id `id`.
fn find_desired_exec(dres: &Vec<DesiredResource>, id: &str) -> (r: Option<usize>)
    ensures
        match r {
            Some(i) => find_desired(dres@, id@) == Some(i as int) && i < dres@.len() && dres@[i as int].id@ == id@,
            None => find_desired(dres@, id@) is None,
        },
{
    let mut i: usize = 0;
    while i < dres.len()
        invariant
            i <= dres@.len(),
            forall|k: int| 0 <= k < i ==> !#[trigger] desired_id_pred(dres@, id@)(k),
        decreases dres@.len() - i,
    {
        if eq_str(dres[i].id.as_str(), id) {
            proof { lemma_first_where_found(dres@.len(), desired_id_pred(dres@, id@), i as int); }
            return Some(i);
        }
        i = i + 1;
    }
    proof { lemma_first_where_none(dres@.len(), desired_id_pred(dres@, id@)); }
    None
}

/// The name of a desired resource's kind.
fn kind_str(kind: &DesiredResourceKind) -> (r: &'static str)
    ensures
        r@ == kind_name(*kind),
{
    match kind {
        DesiredResourceKind::Package { .. } => "package",
        DesiredResourceKind::Runtime { .. } => "runtime",
        DesiredResourceKind::Fs { .. } => "fs",
        DesiredResourceKind::Tool { .. } => "tool",
    }
}

/// Classification of a component (executable form).
enum ClassResult {
    Create,
    Replace(Option<String>, Option<String>),
    ReplaceBackend,
    Strengthen(Vec<ResourceRef>),
    Noop,
}

spec fn class_result_is(r: ClassResult, c: Class) -> bool {
    match (r, c) {
        (ClassResult::Create, Class::Create) => true,
        (ClassResult::Replace(f, t), Class::Replace(f2, t2)) => opt_view(f) == f2 && opt_view(t) == t2,
        (ClassResult::ReplaceBackend, Class::ReplaceBackend) => true,
        (ClassResult::Strengthen(v), Class::Strengthen(a)) => ref_views(v@) == a,
        (ClassResult::Noop, Class::Noop) => true,
        _ => false,
    }
}

/// Classify a component that exists in both desired and state.
fn classify_existing_exec(dres: &Vec<DesiredResource>, sres: &Vec<Resource>) -> (r: ClassResult)
    ensures
        class_result_is(r, classify_existing(dres@, sres@)),
{
    let ghost dv = dres@;
    let ghost sv = sres@;
    // Incompatible shared resources.
    let mut i: usize = 0;
    while i < dres.len()
        invariant
            i <= dres@.len(),
            forall|k: int| 0 <= k < i ==> !#[trigger] incompat_pred(dres@, sres@)(k),
        decreases dres@.len() - i,
    {
        let last = is_last_desired_exec(dres, i);
        match if last { find_state_exec(sres, dres[i].id.as_str()) } else { None } {
            Some(j) => {
                match check_compatibility(&dres[i], &sres[j]) {
                    CompatResult::Compatible => {},
                    CompatResult::BackendMismatch => {
                        proof { lemma_first_where_found(dres@.len(), incompat_pred(dres@, sres@), i as int); }
                        return ClassResult::ReplaceBackend;
                    },
                    CompatResult::Incompatible(f, t) => {
                        proof { lemma_first_where_found(dres@.len(), incompat_pred(dres@, sres@), i as int); }
                        return ClassResult::Replace(f, t);
                    },
                }
            },
            None => {},
        }
        i = i + 1;
    }
    proof { lemma_first_where_none(dres@.len(), incompat_pred(dres@, sres@)); }
    // Recorded resources no longer desired.
    let mut j: usize = 0;
    while j < sres.len()
        invariant
            j <= sres@.len(),
            first_where(dres@.len(), incompat_pred(dres@, sres@)) is None,
            forall|k: int| 0 <= k < j ==> !#[trigger] stale_pred(dres@, sres@)(k),
        decreases sres@.len() - j,
    {
        if find_desired_exec(dres, sres[j].id.as_str()).is_none() {
            proof { lemma_first_where_found(sres@.len(), stale_pred(dres@, sres@), j as int); }
            return ClassResult::Replace(None, None);
        }
        j = j + 1;
    }
    proof { lemma_first_where_none(sres@.len(), stale_pred(dres@, sres@)); }
    // New resources.
    let mut adds: Vec<ResourceRef> = Vec::new();
    let mut i: usize = 0;
    while i < dres.len()
        invariant
            i <= dres@.len(),
            ref_views(adds@) == additions_upto(dres@, sres@, i as nat),
        decreases dres@.len() - i,
    {
        if find_state_exec(sres, dres[i].id.as_str()).is_none() && is_last_desired_exec(dres, i) {
            let k = kind_str(&dres[i].kind);
            let ghost before = adds@;
            adds.push(ResourceRef { kind: k.to_owned(), id: dres[i].id.clone() });
            proof { assert(ref_views(adds@) =~= ref_views(before).push((kind_name(dres@[i as int].kind), dres@[i as int].id@))); }
        }
        i = i + 1;
    }
    if adds.len() == 0 {
        ClassResult::Noop
    } else {
        ClassResult::Strengthen(adds)
    }
}


proof fn lemma_keys_not_in_len(keys: Seq<Seq<char>>, excluded: Seq<Seq<char>>)
    ensures
        keys_not_in(keys, excluded).len() <= keys.len(),
        forall|k: int| 0 <= k < keys_not_in(keys, excluded).len() ==> keys.contains(#[trigger] keys_not_in(keys, excluded)[k]),
    decreases keys.len(),
{
    if keys.len() > 0 {
        lemma_keys_not_in_len(keys.drop_last(), excluded);
        let rest = keys_not_in(keys.drop_last(), excluded);
        assert forall|k: int| 0 <= k < keys_not_in(keys, excluded).len() implies keys.contains(#[trigger] keys_not_in(keys, excluded)[k]) by {
            if k < rest.len() {
                assert(keys_not_in(keys, excluded)[k] == rest[k]);
                let j = choose|j: int| 0 <= j < keys.drop_last().len() && keys.drop_last()[j] == rest[k];
                assert(keys[j] == rest[k]);
            } else {
                assert(keys[keys.len() - 1] == keys.last());
            }
        }
    }
}

proof fn lemma_stale_len(keys: Seq<Seq<char>>, dom: Map<Seq<char>, ComponentDesiredResources>)
    ensures
        stale_keys_desc(keys, dom).len() <= keys.len(),
        forall|k: int| 0 <= k < stale_keys_desc(keys, dom).len() ==> keys.contains(#[trigger] stale_keys_desc(keys, dom)[k]),
    decreases keys.len(),
{
    if keys.len() > 0 {
        lemma_stale_len(keys.drop_last(), dom);
        let rest = stale_keys_desc(keys.drop_last(), dom);
        assert forall|k: int| 0 <= k < stale_keys_desc(keys, dom).len() implies keys.contains(#[trigger] stale_keys_desc(keys, dom)[k]) by {
            let all = stale_keys_desc(keys, dom);
            if dom.contains_key(keys.last()) {
                let j = choose|j: int| 0 <= j < keys.drop_last().len() && keys.drop_last()[j] == rest[k];
                assert(keys[j] == rest[k]);
            } else if k == 0 {
                assert(keys[keys.len() - 1] == keys.last());
            } else {
                assert(all[k] == rest[k - 1]);
                let j = choose|j: int| 0 <= j < keys.drop_last().len() && keys.drop_last()[j] == rest[k - 1];
                assert(keys[j] == rest[k - 1]);
            }
        }
    }
}

proof fn lemma_count_op_le(actions: Seq<PlanAction>, op: Operation)
    ensures
        count_op(actions, op) <= actions.len(),
    decreases actions.len(),
{
    if actions.len() > 0 {
        lemma_count_op_le(actions.drop_last(), op);
    }
}

proof fn lemma_plan_fold_len(desired: &DesiredResourceGraph, state: &State, ids: Seq<Seq<char>>)
    ensures
        plan_fold(desired, state, ids).0.len() + plan_fold(desired, state, ids).1.len() == ids.len(),
    decreases ids.len(),
{
    if ids.len() > 0 {
        lemma_plan_fold_len(desired, state, ids.drop_last());
    }
}

/// Generate a plan from the desired resource graph, the state and the resolved order.
///
/// Fails only when a component of the resolved order is missing from the
/// desired resource graph (a pipeline sequencing error).
pub fn plan(desired: &DesiredResourceGraph, state: &State, resolved_order: &Vec<CanonicalComponentId>) -> (r: Result<Plan, PlannerError>)
    requires
        forall|k: Seq<char>| #[trigger] desired.components@.contains_key(k) ==> is_canonical(k),
        forall|k: Seq<char>| #[trigger] state.components@.contains_key(k) ==> is_canonical(k),
        resolved_order@.len() + desired.components.keys().len() + state.components.keys().len() <= u32::MAX,
    ensures
        match r {
            Ok(p) => first_where(resolved_order@.len(), mismatch_pred(desired, resolved_order@)) is None
                && plan_is(desired, state, resolved_order@, p),
            Err(PlannerError::ComponentOrderMismatch { id }) => first_where(resolved_order@.len(), mismatch_pred(desired, resolved_order@)) is Some
                && id@ == resolved_order@[first_where(resolved_order@.len(), mismatch_pred(desired, resolved_order@))->0]@,
        },
{
    let ghost order = resolved_order@;
    // Every ordered component is desired.
    let mut i: usize = 0;
    while i < resolved_order.len()
        invariant
            i <= resolved_order@.len(),
            forall|k: int| 0 <= k < i ==> !#[trigger] mismatch_pred(desired, resolved_order@)(k),
        decreases resolved_order@.len() - i,
    {
        if !desired.components.contains_key(resolved_order[i].as_str()) {
            proof { lemma_first_where_found(resolved_order@.len(), mismatch_pred(desired, resolved_order@), i as int); }
            return Err(PlannerError::ComponentOrderMismatch { id: resolved_order[i].as_str().to_owned() });
        }
        i = i + 1;
    }
    proof { lemma_first_where_none(resolved_order@.len(), mismatch_pred(desired, resolved_order@)); }
    desired.components.lemma_shape();
    state.components.lemma_shape();

    // Components to consider.
    let ghost ov = order_ids(order);
    let mut ordered: Vec<String> = Vec::new();
    let mut i: usize = 0;
    while i < resolved_order.len()
        invariant
            i <= resolved_order@.len(),
            ov == order_ids(resolved_order@),
            ordered@.map_values(|x: String| x@) == ov.subrange(0, i as int),
        decreases resolved_order@.len() - i,
    {
        let ghost before = ordered@.map_values(|x: String| x@);
        assert(ov[i as int] == resolved_order@[i as int]@);
        ordered.push(resolved_order[i].as_str().to_owned());
        assert(ordered@.map_values(|x: String| x@) =~= before.push(ov[i as int]));
        assert(ordered@.map_values(|x: String| x@) =~= ov.subrange(0, i + 1));
        i = i + 1;
    }
    assert(ov.subrange(0, ov.len() as int) =~= ov);
    let ghost dkeys = desired.components.keys();
    let mut k: usize = 0;
    let n_desired = desired.components.len();
    while k < n_desired
        invariant
            k <= n_desired == dkeys.len(),
            dkeys == desired.components.keys(),
            ov == order_ids(resolved_order@),
            ordered@.map_values(|x: String| x@) == ov + keys_not_in(dkeys.subrange(0, k as int), ov),
        decreases n_desired - k,
    {
        let key = desired.components.key_at(k);
        assert(dkeys.subrange(0, k + 1).drop_last() =~= dkeys.subrange(0, k as int));
        let mut in_order = false;
        let mut j: usize = 0;
        while j < resolved_order.len()
            invariant
                j <= resolved_order@.len(),
                ov == order_ids(resolved_order@),
                in_order == exists|t: int| 0 <= t < j && ov[t] == key@,
            decreases resolved_order@.len() - j,
        {
            assert(ov[j as int] == resolved_order@[j as int]@);
            if eq_str(resolved_order[j].as_str(), key.as_str()) {
                in_order = true;
            }
            j = j + 1;
        }
        let ghost before = ordered@.map_values(|x: String| x@);
        if !in_order {
            ordered.push(key.clone());
            assert(ordered@.map_values(|x: String| x@) =~= before.push(key@));
        }
        proof {
            if in_order {
                let t = choose|t: int| 0 <= t < ov.len() && ov[t] == key@;
                assert(ov.contains(key@));
            }
            assert(ov + keys_not_in(dkeys.subrange(0, k + 1), ov) =~= if in_order { before } else { before.push(key@) });
        }
        k = k + 1;
    }
    assert(dkeys.subrange(0, dkeys.len() as int) =~= dkeys);
    let ghost oids = ordered_ids(desired, order);
    assert(ordered@.map_values(|x: String| x@) == oids);

    // Components to destroy.
    let ghost skeys = state.components.keys();
    let mut dest: Vec<String> = Vec::new();
    let mut k: usize = 0;
    let n_state = state.components.len();
    while k < n_state
        invariant
            k <= n_state == skeys.len(),
            skeys == state.components.keys(),
            dest@.map_values(|x: String| x@) == stale_keys_desc(skeys.subrange(0, k as int), desired.components@),
        decreases n_state - k,
    {
        let key = state.components.key_at(k);
        assert(skeys.subrange(0, k + 1).drop_last() =~= skeys.subrange(0, k as int));
        if !desired.components.contains_key(key.as_str()) {
            let ghost before = dest@.map_values(|x: String| x@);
            dest.insert(0, key.clone());
            assert(dest@.map_values(|x: String| x@) =~= seq![key@] + before);
        }
        k = k + 1;
    }
    assert(skeys.subrange(0, skeys.len() as int) =~= skeys);
    let ghost dids = destroy_ids(desired, state);
    proof {
        lemma_stale_len(skeys, desired.components@);
        lemma_keys_not_in_len(dkeys, ov);
        lemma_plan_fold_len(desired, state, oids);
    }

    proof {
        assert forall|t: int| 0 <= t < oids.len() implies desired.components@.contains_key(#[trigger] oids[t]) by {
            if t < ov.len() {
                assert(!mismatch_pred(desired, resolved_order@)(t));
                assert(oids[t] == ov[t]);
            } else {
                let extras = keys_not_in(dkeys, ov);
                assert(oids[t] == extras[t - ov.len()]);
                assert(dkeys.contains(extras[t - ov.len()]));
                let x = choose|x: int| 0 <= x < dkeys.len() && dkeys[x] == extras[t - ov.len()];
                assert(desired.components@.contains_key(dkeys[x]));
            }
        }
        assert forall|t: int| 0 <= t < skeys.len() implies #[trigger] state.components@.contains_key(skeys[t]) by {}
    }
    let mut actions: Vec<PlanAction> = Vec::new();
    let mut noops: Vec<NoopEntry> = Vec::new();
    let mut summary = PlanSummary::default();
    let mut d: usize = 0;
    while d < dest.len()
        invariant
            d <= dest@.len(),
            dest@.map_values(|x: String| x@) == dids,
            dids == destroy_ids(desired, state),
            dids.len() <= skeys.len(),
            skeys == state.components.keys(),
            forall|t: int| 0 <= t < dids.len() ==> skeys.contains(#[trigger] dids[t]),
            forall|t: int| 0 <= t < skeys.len() ==> #[trigger] state.components@.contains_key(skeys[t]),
            forall|kk: Seq<char>| #[trigger] state.components@.contains_key(kk) ==> is_canonical(kk),
            actions@.len() == d,
            forall|t: int| 0 <= t < d ==> destroy_at(#[trigger] actions@[t], dids[t]),
            summary.destroy == count_op(actions@, Operation::Destroy),
            summary.create == 0 && summary.replace == 0 && summary.replace_backend == 0 && summary.strengthen == 0 && summary.blocked == 0,
            count_op(actions@, Operation::Create) == 0,
            count_op(actions@, Operation::Replace) == 0,
            count_op(actions@, Operation::ReplaceBackend) == 0,
            count_op(actions@, Operation::Strengthen) == 0,
            resolved_order@.len() + desired.components.keys().len() + state.components.keys().len() <= u32::MAX,
        decreases dest@.len() - d,
    {
        let id = dest[d].as_str();
        proof {
            assert(id@ == dids[d as int]);
            assert(skeys.contains(dids[d as int]));
            let t = choose|t: int| 0 <= t < skeys.len() && skeys[t] == dids[d as int];
            assert(state.components@.contains_key(skeys[t]));
            lemma_count_op_le(actions@, Operation::Destroy);
        }
        let component = match CanonicalComponentId::new(id) {
            Ok(c) => c,
            Err(_) => { proof { assert(false); } return Err(PlannerError::ComponentOrderMismatch { id: id.to_owned() }); },
        };
        let ghost before = actions@;
        let ghost cv = component@;
        assert(cv == id@);
        actions.push(PlanAction { component, operation: Operation::Destroy, details: None });
        proof {
            assert(actions@[d as int].component@ == cv);
            assert(actions@[d as int].operation == Operation::Destroy);
            assert(actions@[d as int].details is None);
            assert(cv == dids[d as int]);
            assert(actions@.drop_last() =~= before);
            assert forall|t: int| 0 <= t < d + 1 implies destroy_at(#[trigger] actions@[t], dids[t]) by {
                if t < d {
                    assert(actions@[t] == before[t]);
                    assert(destroy_at(before[t], dids[t]));
                }
            }
        }
        summary.destroy = summary.destroy + 1;
        d = d + 1;
    }

    let mut i: usize = 0;
    while i < ordered.len()
        invariant
            i <= ordered@.len(),
            ordered@.map_values(|x: String| x@) == oids,
            oids == ordered_ids(desired, resolved_order@),
            dids == destroy_ids(desired, state),
            oids.len() <= resolved_order@.len() + desired.components.keys().len(),
            dids.len() <= state.components.keys().len(),
            resolved_order@.len() + desired.components.keys().len() + state.components.keys().len() <= u32::MAX,
            forall|t: int| 0 <= t < oids.len() ==> desired.components@.contains_key(#[trigger] oids[t]),
            forall|kk: Seq<char>| #[trigger] desired.components@.contains_key(kk) ==> is_canonical(kk),
            actions@.len() == dids.len() + plan_fold(desired, state, oids.subrange(0, i as int)).0.len(),
            forall|t: int| 0 <= t < dids.len() ==> destroy_at(#[trigger] actions@[t], dids[t]),
            forall|t: int| dids.len() <= t < actions@.len() ==> action_is(#[trigger] actions@[t],
                plan_fold(desired, state, oids.subrange(0, i as int)).0[t - dids.len()].0,
                plan_fold(desired, state, oids.subrange(0, i as int)).0[t - dids.len()].1),
            noops@.len() == plan_fold(desired, state, oids.subrange(0, i as int)).1.len(),
            forall|t: int| 0 <= t < noops@.len() ==> #[trigger] noops@[t].component@ == plan_fold(desired, state, oids.subrange(0, i as int)).1[t],
            summary.create == count_op(actions@, Operation::Create),
            summary.destroy == count_op(actions@, Operation::Destroy),
            summary.replace == count_op(actions@, Operation::Replace) + count_op(actions@, Operation::ReplaceBackend),
            summary.strengthen == count_op(actions@, Operation::Strengthen),
            summary.replace_backend == 0,
            summary.blocked == 0,
        decreases ordered@.len() - i,
    {
        let id = ordered[i].as_str();
        proof {
            assert(id@ == oids[i as int]);
            lemma_plan_fold_len(desired, state, oids.subrange(0, i as int));
            assert(oids.subrange(0, i + 1).drop_last() =~= oids.subrange(0, i as int));
            lemma_count_op_le(actions@, Operation::Create);
            lemma_count_op_le(actions@, Operation::Destroy);
            lemma_count_op_le(actions@, Operation::Replace);
            lemma_count_op_le(actions@, Operation::ReplaceBackend);
            lemma_count_op_le(actions@, Operation::Strengthen);
            lemma_count_op_sum(actions@);
        }
        let component = match CanonicalComponentId::new(id) {
            Ok(c) => c,
            Err(_) => { proof { assert(desired.components@.contains_key(oids[i as int])); } return Err(PlannerError::ComponentOrderMismatch { id: id.to_owned() }); },
        };
        let class = if !state.components.contains_key(id) {
            ClassResult::Create
        } else {
            let dcomp = match desired.components.get(id) {
                Some(c) => c,
                None => { proof { assert(desired.components@.contains_key(oids[i as int])); } return Err(PlannerError::ComponentOrderMismatch { id: id.to_owned() }); },
            };
            let scomp = match state.components.get(id) {
                Some(c) => c,
                None => { return Err(PlannerError::ComponentOrderMismatch { id: id.to_owned() }); },
            };
            classify_existing_exec(&dcomp.resources, &scomp.resources)
        };
        let ghost before = actions@;
        let ghost before_noops = noops@;
        match class {
            ClassResult::Create => {
                actions.push(PlanAction { component, operation: Operation::Create, details: None });
                summary.create = summary.create + 1;
            },
            ClassResult::Noop => {
                noops.push(NoopEntry { component });
            },
            ClassResult::Replace(f, t) => {
                actions.push(PlanAction { component, operation: Operation::Replace, details: Some(ActionDetails::Replace(ReplaceDetails { from_version: f, to_version: t })) });
                summary.replace = summary.replace + 1;
            },
            ClassResult::ReplaceBackend => {
                actions.push(PlanAction { component, operation: Operation::ReplaceBackend, details: None });
                summary.replace = summary.replace + 1;
            },
            ClassResult::Strengthen(adds) => {
                actions.push(PlanAction { component, operation: Operation::Strengthen, details: Some(ActionDetails::Strengthen(StrengthenDetails { add_resources: adds })) });
                summary.strengthen = summary.strengthen + 1;
            },
        }
        proof {
            if actions@.len() > before.len() {
                assert(actions@.drop_last() =~= before);
            } else {
                assert(actions@ =~= before);
            }
            assert(forall|t: int| 0 <= t < before.len() ==> actions@[t] == before[t]);
            let fold_prev = plan_fold(desired, state, oids.subrange(0, i as int));
            let fold_next = plan_fold(desired, state, oids.subrange(0, i + 1));
            assert forall|t: int| dids.len() <= t < actions@.len() implies action_is(#[trigger] actions@[t],
                fold_next.0[t - dids.len()].0, fold_next.0[t - dids.len()].1) by {
                if t < before.len() {
                    assert(actions@[t] == before[t]);
                }
            }
            assert forall|t: int| 0 <= t < dids.len() implies destroy_at(#[trigger] actions@[t], dids[t]) by {
                assert(actions@[t] == before[t]);
                assert(destroy_at(before[t], dids[t]));
            }
            assert forall|t: int| 0 <= t < noops@.len() implies #[trigger] noops@[t].component@ == fold_next.1[t] by {
                if t < before_noops.len() {
                    assert(noops@[t] == before_noops[t]);
                }
            }
        }
        i = i + 1;
    }
    proof {
        assert(oids.subrange(0, oids.len() as int) =~= oids);
    }
    Ok(Plan { actions, noops, blocked: Vec::new(), summary })
}

proof fn lemma_count_op_sum(actions: Seq<PlanAction>)
    ensures
        count_op(actions, Operation::Create) + count_op(actions, Operation::Destroy) + count_op(actions, Operation::Replace)
            + count_op(actions, Operation::ReplaceBackend) + count_op(actions, Operation::Strengthen) == actions.len(),
    decreases actions.len(),
{
    if actions.len() > 0 {
        lemma_count_op_sum(actions.drop_last());
    }
}

// ---------------------------------------------------------------------------
// Each component planned once
// ---------------------------------------------------------------------------

/// The components of a list of actions.
pub open spec fn action_components(acts: Seq<PlanAction>) -> Seq<Seq<char>> {
    acts.map_values(|a: PlanAction| a.component@)
}

/// The components of a list of noops.
pub open spec fn noop_components(ns: Seq<NoopEntry>) -> Seq<Seq<char>> {
    ns.map_values(|n: NoopEntry| n.component@)
}

/// The ids of a list of classified components.
pub open spec fn class_ids(acts: Seq<(Seq<char>, Class)>) -> Seq<Seq<char>> {
    acts.map_values(|a: (Seq<char>, Class)| a.0)
}

proof fn lemma_strictly_sorted_no_dups(s: Seq<Seq<char>>)
    requires
        strictly_sorted(s),
    ensures
        s.no_duplicates(),
{
    assert forall|i: int, j: int| 0 <= i < s.len() && 0 <= j < s.len() && i != j implies s[i] != s[j] by {
        if s[i] == s[j] {
            lemma_seq_lt_irreflexive(s[i]);
            if i < j {
                assert(seq_lt(s[i], s[j]));
            } else {
                assert(seq_lt(s[j], s[i]));
            }
        }
    }
}

proof fn lemma_keys_not_in_props(keys: Seq<Seq<char>>, excluded: Seq<Seq<char>>)
    ensures
        forall|k: Seq<char>| #[trigger] keys_not_in(keys, excluded).contains(k) <==> keys.contains(k) && !excluded.contains(k),
        keys.no_duplicates() ==> keys_not_in(keys, excluded).no_duplicates(),
    decreases keys.len(),
{
    if keys.len() > 0 {
        let init = keys.drop_last();
        lemma_keys_not_in_props(init, excluded);
        let rest = keys_not_in(init, excluded);
        let r = keys_not_in(keys, excluded);
        assert forall|k: Seq<char>| #[trigger] r.contains(k) <==> keys.contains(k) && !excluded.contains(k) by {
            if keys.contains(k) && k != keys.last() {
                let t = choose|t: int| 0 <= t < keys.len() && keys[t] == k;
                assert(init[t] == k);
            }
            if init.contains(k) {
                let t = choose|t: int| 0 <= t < init.len() && init[t] == k;
                assert(keys[t] == k);
            }
            if !excluded.contains(keys.last()) {
                assert(r == rest.push(keys.last()));
                assert(r[rest.len() as int] == keys.last());
                if r.contains(k) {
                    let t = choose|t: int| 0 <= t < r.len() && r[t] == k;
                    if t < rest.len() {
                        assert(rest[t] == k);
                    }
                }
                if rest.contains(k) {
                    let t = choose|t: int| 0 <= t < rest.len() && rest[t] == k;
                    assert(r[t] == k);
                }
            }
            assert(keys[keys.len() - 1] == keys.last());
        }
        if keys.no_duplicates() {
            assert(init.no_duplicates()) by {
                assert forall|i: int, j: int| 0 <= i < init.len() && 0 <= j < init.len() && i != j implies init[i] != init[j] by {
                    assert(init[i] == keys[i] && init[j] == keys[j]);
                }
            }
            if !excluded.contains(keys.last()) {
                assert(!init.contains(keys.last())) by {
                    if init.contains(keys.last()) {
                        let t = choose|t: int| 0 <= t < init.len() && init[t] == keys.last();
                        assert(keys[t] == keys[keys.len() - 1]);
                    }
                }
                assert(!rest.contains(keys.last()));
                assert(r == rest.push(keys.last()));
                assert forall|i: int, j: int| 0 <= i < r.len() && 0 <= j < r.len() && i != j implies r[i] != r[j] by {
                    if i < rest.len() && j < rest.len() {
                        assert(r[i] == rest[i] && r[j] == rest[j]);
                    } else if i < rest.len() {
                        assert(r[i] == rest[i]);
                    } else if j < rest.len() {
                        assert(r[j] == rest[j]);
                    }
                }
            }
        }
    }
}

proof fn lemma_stale_props(keys: Seq<Seq<char>>, dom: Map<Seq<char>, ComponentDesiredResources>)
    ensures
        forall|k: Seq<char>| #[trigger] stale_keys_desc(keys, dom).contains(k) <==> keys.contains(k) && !dom.contains_key(k),
        keys.no_duplicates() ==> stale_keys_desc(keys, dom).no_duplicates(),
    decreases keys.len(),
{
    if keys.len() > 0 {
        let init = keys.drop_last();
        lemma_stale_props(init, dom);
        let rest = stale_keys_desc(init, dom);
        let r = stale_keys_desc(keys, dom);
        let x = keys.last();
        assert(keys[keys.len() - 1] == x);
        assert forall|k: Seq<char>| #[trigger] r.contains(k) <==> keys.contains(k) && !dom.contains_key(k) by {
            if keys.contains(k) && k != x {
                let t = choose|t: int| 0 <= t < keys.len() && keys[t] == k;
                assert(init[t] == k);
            }
            if init.contains(k) {
                let t = choose|t: int| 0 <= t < init.len() && init[t] == k;
                assert(keys[t] == k);
            }
            if !dom.contains_key(x) {
                assert(r == seq![x] + rest);
                assert(r[0] == x);
                if r.contains(k) {
                    let t = choose|t: int| 0 <= t < r.len() && r[t] == k;
                    if t > 0 {
                        assert(rest[t - 1] == k);
                    }
                }
                if rest.contains(k) {
                    let t = choose|t: int| 0 <= t < rest.len() && rest[t] == k;
                    assert(r[t + 1] == k);
                }
            }
        }
        if keys.no_duplicates() {
            assert(init.no_duplicates()) by {
                assert forall|i: int, j: int| 0 <= i < init.len() && 0 <= j < init.len() && i != j implies init[i] != init[j] by {
                    assert(init[i] == keys[i] && init[j] == keys[j]);
                }
            }
            if !dom.contains_key(x) {
                assert(!init.contains(x)) by {
                    if init.contains(x) {
                        let t = choose|t: int| 0 <= t < init.len() && init[t] == x;
                        assert(keys[t] == keys[keys.len() - 1]);
                    }
                }
                assert(!rest.contains(x));
                assert(r == seq![x] + rest);
                assert forall|i: int, j: int| 0 <= i < r.len() && 0 <= j < r.len() && i != j implies r[i] != r[j] by {
                    if i > 0 && j > 0 {
                        assert(r[i] == rest[i - 1] && r[j] == rest[j - 1]);
                    } else if i > 0 {
                        assert(r[i] == rest[i - 1]);
                    } else if j > 0 {
                        assert(r[j] == rest[j - 1]);
                    }
                }
            }
        }
    }
}

proof fn lemma_fold_parts(desired: &DesiredResourceGraph, state: &State, ids: Seq<Seq<char>>)
    ensures
        forall|k: Seq<char>| (#[trigger] class_ids(plan_fold(desired, state, ids).0).contains(k) || plan_fold(desired, state, ids).1.contains(k)) <==> ids.contains(k),
        ids.no_duplicates() ==> class_ids(plan_fold(desired, state, ids).0).no_duplicates() && plan_fold(desired, state, ids).1.no_duplicates()
            && forall|k: Seq<char>| !(#[trigger] class_ids(plan_fold(desired, state, ids).0).contains(k) && plan_fold(desired, state, ids).1.contains(k)),
        forall|i: int| 0 <= i < plan_fold(desired, state, ids).0.len() ==>
            (#[trigger] plan_fold(desired, state, ids).0[i]).1 == classify(desired, state, plan_fold(desired, state, ids).0[i].0)
            && !(plan_fold(desired, state, ids).0[i].1 is Noop),
    decreases ids.len(),
{
    if ids.len() > 0 {
        let init = ids.drop_last();
        lemma_fold_parts(desired, state, init);
        assert((class_ids(plan_fold(desired, state, init).0).contains(ids.last()) || plan_fold(desired, state, init).1.contains(ids.last()))
            <==> init.contains(ids.last()));
        let (a0, n0) = plan_fold(desired, state, init);
        let (a, n) = plan_fold(desired, state, ids);
        let x = ids.last();
        assert(ids[ids.len() - 1] == x);
        let ca0 = class_ids(a0);
        let ca = class_ids(a);
        let is_noop = classify(desired, state, x) is Noop;
        if is_noop {
            assert(a == a0 && n == n0.push(x));
            assert(ca =~= ca0);
        } else {
            assert(a == a0.push((x, classify(desired, state, x))) && n == n0);
            assert(ca =~= ca0.push(x));
        }
        assert forall|k: Seq<char>| (#[trigger] ca.contains(k) || n.contains(k)) <==> ids.contains(k) by {
            assert((ca0.contains(k) || n0.contains(k)) <==> init.contains(k));
            if ids.contains(k) && k != x {
                let t = choose|t: int| 0 <= t < ids.len() && ids[t] == k;
                assert(init[t] == k);
            }
            if init.contains(k) {
                let t = choose|t: int| 0 <= t < init.len() && init[t] == k;
                assert(ids[t] == k);
            }
            if is_noop {
                assert(n[n0.len() as int] == x);
                if n.contains(k) {
                    let t = choose|t: int| 0 <= t < n.len() && n[t] == k;
                    if t < n0.len() { assert(n0[t] == k); }
                }
                if n0.contains(k) {
                    let t = choose|t: int| 0 <= t < n0.len() && n0[t] == k;
                    assert(n[t] == k);
                }
            } else {
                assert(ca[ca0.len() as int] == x);
                if ca.contains(k) {
                    let t = choose|t: int| 0 <= t < ca.len() && ca[t] == k;
                    if t < ca0.len() { assert(ca0[t] == k); }
                }
                if ca0.contains(k) {
                    let t = choose|t: int| 0 <= t < ca0.len() && ca0[t] == k;
                    assert(ca[t] == k);
                }
            }
        }
        if ids.no_duplicates() {
            assert(init.no_duplicates()) by {
                assert forall|i: int, j: int| 0 <= i < init.len() && 0 <= j < init.len() && i != j implies init[i] != init[j] by {
                    assert(init[i] == ids[i] && init[j] == ids[j]);
                }
            }
            assert(!init.contains(x)) by {
                if init.contains(x) {
                    let t = choose|t: int| 0 <= t < init.len() && init[t] == x;
                    assert(ids[t] == ids[ids.len() - 1]);
                }
            }
            assert(!ca0.contains(x) && !n0.contains(x));
            assert forall|i: int, j: int| 0 <= i < ca.len() && 0 <= j < ca.len() && i != j implies ca[i] != ca[j] by {
                if i < ca0.len() && j < ca0.len() {
                    assert(ca[i] == ca0[i] && ca[j] == ca0[j]);
                } else if i < ca0.len() {
                    assert(ca[i] == ca0[i]);
                } else if j < ca0.len() {
                    assert(ca[j] == ca0[j]);
                }
            }
            assert forall|i: int, j: int| 0 <= i < n.len() && 0 <= j < n.len() && i != j implies n[i] != n[j] by {
                if i < n0.len() && j < n0.len() {
                    assert(n[i] == n0[i] && n[j] == n0[j]);
                } else if i < n0.len() {
                    assert(n[i] == n0[i]);
                } else if j < n0.len() {
                    assert(n[j] == n0[j]);
                }
            }
            assert forall|k: Seq<char>| !(#[trigger] ca.contains(k) && n.contains(k)) by {
                if ca.contains(k) && n.contains(k) {
                    assert(!(ca0.contains(k) && n0.contains(k)));
                    let t1 = choose|t: int| 0 <= t < ca.len() && ca[t] == k;
                    let t2 = choose|t: int| 0 <= t < n.len() && n[t] == k;
                    if is_noop {
                        assert(ca0[t1] == k);
                        if t2 < n0.len() { assert(n0[t2] == k); }
                    } else {
                        assert(n0[t2] == k);
                        if t1 < ca0.len() { assert(ca0[t1] == k); }
                    }
                }
            }
        }
        assert forall|i: int| 0 <= i < a.len() implies
            (#[trigger] a[i]).1 == classify(desired, state, a[i].0) && !(a[i].1 is Noop) by {
            if i < a0.len() {
                assert(a[i] == a0[i]);
            }
        }
    }
}

/// Law: a plan deals with every component once. Each desired component is
/// either the subject of exactly one action other than a destroy, or a noop,
/// never both; it is created exactly when it is not recorded in state; and
/// the plan destroys each recorded component that is no longer desired, once,
/// and nothing else. (Nothing is ever blocked.) It holds of the resolved order
/// the resolver returns: desired components, each listed once.
pub proof fn law_plan_covers_each_component_once(desired: &DesiredResourceGraph, state: &State, order: Seq<CanonicalComponentId>, p: Plan)
    requires
        strictly_sorted(desired.components.keys()),
        strictly_sorted(state.components.keys()),
        order_ids(order).no_duplicates(),
        forall|i: int| 0 <= i < order.len() ==> desired.components@.contains_key(#[trigger] order[i]@),
        plan_is(desired, state, order, p),
    ensures
        ({
            let nd = destroy_ids(desired, state).len() as int;
            let planned = action_components(p.actions@.subrange(nd, p.actions@.len() as int)) + noop_components(p.noops@);
            &&& planned.no_duplicates()
            &&& forall|k: Seq<char>| #[trigger] planned.contains(k) <==> desired.components@.contains_key(k)
            &&& forall|i: int| nd <= i < p.actions@.len() ==> (#[trigger] p.actions@[i]).operation != Operation::Destroy
                && (p.actions@[i].operation == Operation::Create <==> !state.components@.contains_key(p.actions@[i].component@))
            &&& forall|i: int| 0 <= i < nd ==> (#[trigger] p.actions@[i]).operation == Operation::Destroy
            &&& action_components(p.actions@.subrange(0, nd)).no_duplicates()
            &&& forall|k: Seq<char>| #[trigger] action_components(p.actions@.subrange(0, nd)).contains(k)
                <==> state.components@.contains_key(k) && !desired.components@.contains_key(k)
            &&& p.blocked@.len() == 0
        }),
{
    let dest = destroy_ids(desired, state);
    let nd = dest.len() as int;
    let ids = ordered_ids(desired, order);
    let (acts, noops) = plan_fold(desired, state, ids);
    let dkeys = desired.components.keys();
    let skeys = state.components.keys();
    lemma_strictly_sorted_no_dups(dkeys);
    lemma_strictly_sorted_no_dups(skeys);
    // The considered ids: each desired component once.
    let ov = order_ids(order);
    lemma_keys_not_in_props(dkeys, ov);
    let rest = keys_not_in(dkeys, ov);
    assert forall|k: Seq<char>| #[trigger] ids.contains(k) <==> desired.components@.contains_key(k) by {
        if ov.contains(k) {
            let t = choose|t: int| 0 <= t < ov.len() && ov[t] == k;
            assert(ids[t] == k);
            assert(desired.components@.contains_key(order[t]@));
        }
        if rest.contains(k) {
            let t = choose|t: int| 0 <= t < rest.len() && rest[t] == k;
            assert(ids[ov.len() + t] == k);
        }
        if ids.contains(k) {
            let t = choose|t: int| 0 <= t < ids.len() && ids[t] == k;
            if t < ov.len() {
                assert(ov[t] == k);
                assert(desired.components@.contains_key(order[t]@));
            } else {
                assert(rest[t - ov.len()] == k);
            }
        }
    }
    assert(ids.no_duplicates()) by {
        assert forall|i: int, j: int| 0 <= i < ids.len() && 0 <= j < ids.len() && i != j implies ids[i] != ids[j] by {
            if i < ov.len() && j < ov.len() {
                assert(ids[i] == ov[i] && ids[j] == ov[j]);
            } else if i >= ov.len() && j >= ov.len() {
                assert(ids[i] == rest[i - ov.len()] && ids[j] == rest[j - ov.len()]);
            } else if i < ov.len() {
                assert(ids[i] == ov[i] && ids[j] == rest[j - ov.len()]);
                assert(ov.contains(ov[i]));
                assert(rest.contains(rest[j - ov.len()]));
            } else {
                assert(ids[j] == ov[j] && ids[i] == rest[i - ov.len()]);
                assert(ov.contains(ov[j]));
                assert(rest.contains(rest[i - ov.len()]));
            }
        }
    }
    lemma_fold_parts(desired, state, ids);
    // The plan's lists are the fold's.
    let tail = p.actions@.subrange(nd, p.actions@.len() as int);
    assert(action_components(tail) =~= class_ids(acts)) by {
        assert forall|k: int| 0 <= k < acts.len() implies action_components(tail)[k] == class_ids(acts)[k] by {
            assert(action_is(p.actions@[nd + k], acts[k].0, acts[k].1));
        }
    }
    assert(noop_components(p.noops@) =~= noops);
    let ca = class_ids(acts);
    let planned = ca + noops;
    assert forall|k: Seq<char>| #[trigger] planned.contains(k) <==> desired.components@.contains_key(k) by {
        if ca.contains(k) {
            let t = choose|t: int| 0 <= t < ca.len() && ca[t] == k;
            assert(planned[t] == k);
        }
        if noops.contains(k) {
            let t = choose|t: int| 0 <= t < noops.len() && noops[t] == k;
            assert(planned[ca.len() + t] == k);
        }
        if planned.contains(k) {
            let t = choose|t: int| 0 <= t < planned.len() && planned[t] == k;
            if t < ca.len() {
                assert(ca[t] == k);
            } else {
                assert(noops[t - ca.len()] == k);
            }
        }
    }
    assert(planned.no_duplicates()) by {
        assert forall|i: int, j: int| 0 <= i < planned.len() && 0 <= j < planned.len() && i != j implies planned[i] != planned[j] by {
            if i < ca.len() && j < ca.len() {
                assert(planned[i] == ca[i] && planned[j] == ca[j]);
            } else if i >= ca.len() && j >= ca.len() {
                assert(planned[i] == noops[i - ca.len()] && planned[j] == noops[j - ca.len()]);
            } else if i < ca.len() {
                assert(planned[i] == ca[i] && planned[j] == noops[j - ca.len()]);
                assert(ca.contains(ca[i]));
            } else {
                assert(planned[j] == ca[j] && planned[i] == noops[i - ca.len()]);
                assert(ca.contains(ca[j]));
            }
        }
    }
    assert forall|i: int| nd <= i < p.actions@.len() implies (#[trigger] p.actions@[i]).operation != Operation::Destroy
        && (p.actions@[i].operation == Operation::Create <==> !state.components@.contains_key(p.actions@[i].component@)) by {
        let k = i - nd;
        assert(action_is(p.actions@[i], acts[k].0, acts[k].1));
        assert(acts[k].1 == classify(desired, state, acts[k].0));
    }
    // The destroys.
    lemma_stale_props(skeys, desired.components@);
    let head = p.actions@.subrange(0, nd);
    assert(action_components(head) =~= dest) by {
        assert forall|k: int| 0 <= k < nd implies action_components(head)[k] == dest[k] by {
            assert(destroy_at(p.actions@[k], dest[k]));
        }
    }
    assert forall|i: int| 0 <= i < nd implies (#[trigger] p.actions@[i]).operation == Operation::Destroy by {
        assert(destroy_at(p.actions@[i], dest[i]));
    }
}

/// What an action's details say, as plain values: the versions of a
/// replace, or the resources a strengthen adds.
pub open spec fn details_view(d: Option<ActionDetails>) -> Option<Result<(Option<Seq<char>>, Option<Seq<char>>), Seq<(Seq<char>, Seq<char>)>>> {
    match d {
        None => None,
        Some(ActionDetails::Replace(r)) => Some(Ok((opt_view(r.from_version), opt_view(r.to_version)))),
        Some(ActionDetails::Strengthen(sd)) => Some(Err(ref_views(sd.add_resources@))),
    }
}

/// An action as plain values.
pub open spec fn action_view(a: PlanAction) -> (Seq<char>, Operation, Option<Result<(Option<Seq<char>>, Option<Seq<char>>), Seq<(Seq<char>, Seq<char>)>>>) {
    (a.component@, a.operation, details_view(a.details))
}

proof fn lemma_count_op_same(a1: Seq<PlanAction>, a2: Seq<PlanAction>, op: Operation)
    requires
        a1.len() == a2.len(),
        forall|i: int| 0 <= i < a1.len() ==> #[trigger] a1[i].operation == a2[i].operation,
    ensures
        count_op(a1, op) == count_op(a2, op),
    decreases a1.len(),
{
    if a1.len() > 0 {
        assert forall|i: int| 0 <= i < a1.drop_last().len() implies #[trigger] a1.drop_last()[i].operation == a2.drop_last()[i].operation by {
            assert(a1[i].operation == a2[i].operation);
        }
        lemma_count_op_same(a1.drop_last(), a2.drop_last(), op);
        assert(a1.last().operation == a2.last().operation) by {
            assert(a1[a1.len() - 1].operation == a2[a2.len() - 1].operation);
        }
    }
}

/// Law: planning is deterministic. Two plans for the same desired graph,
/// state and resolved order agree on every action (component, operation and
/// details), every noop, the blocked list and the summary.
pub proof fn law_plan_is_deterministic(desired: &DesiredResourceGraph, state: &State, order: Seq<CanonicalComponentId>, p1: Plan, p2: Plan)
    requires
        plan_is(desired, state, order, p1),
        plan_is(desired, state, order, p2),
    ensures
        p1.actions@.map_values(|a: PlanAction| action_view(a)) == p2.actions@.map_values(|a: PlanAction| action_view(a)),
        noop_components(p1.noops@) == noop_components(p2.noops@),
        p1.blocked@.len() == 0 && p2.blocked@.len() == 0,
        p1.summary == p2.summary,
{
    let dest = destroy_ids(desired, state);
    let (acts, noops) = plan_fold(desired, state, ordered_ids(desired, order));
    assert forall|k: int| 0 <= k < p1.actions@.len() implies #[trigger] action_view(p1.actions@[k]) == action_view(p2.actions@[k]) by {
        if k < dest.len() {
            assert(destroy_at(p1.actions@[k], dest[k]) && destroy_at(p2.actions@[k], dest[k]));
        } else {
            assert(action_is(p1.actions@[k], acts[k - dest.len()].0, acts[k - dest.len()].1));
            assert(action_is(p2.actions@[k], acts[k - dest.len()].0, acts[k - dest.len()].1));
        }
    }
    assert(p1.actions@.map_values(|a: PlanAction| action_view(a)) =~= p2.actions@.map_values(|a: PlanAction| action_view(a)));
    assert(noop_components(p1.noops@) =~= noop_components(p2.noops@));
    assert forall|i: int| 0 <= i < p1.actions@.len() implies #[trigger] p1.actions@[i].operation == p2.actions@[i].operation by {
        assert(action_view(p1.actions@[i]) == action_view(p2.actions@[i]));
    }
    lemma_count_op_same(p1.actions@, p2.actions@, Operation::Create);
    lemma_count_op_same(p1.actions@, p2.actions@, Operation::Destroy);
    lemma_count_op_same(p1.actions@, p2.actions@, Operation::Replace);
    lemma_count_op_same(p1.actions@, p2.actions@, Operation::ReplaceBackend);
    lemma_count_op_same(p1.actions@, p2.actions@, Operation::Strengthen);
}

// ---------------------------------------------------------------------------
// When a recorded resource still serves
// ---------------------------------------------------------------------------

/// Whether a desired resource and its record describe the same thing: both
/// packages with the same backend and name; both runtimes with the same
/// backend, name and version; or both filesystem entries at the same path,
/// of the same entry type (file or directory) and made the same way (link or
/// copy).
pub open spec fn records_agree(d: DesiredResource, s: Resource) -> bool {
    match (d.kind, s.kind) {
        (DesiredResourceKind::Package { name, desired_backend }, ResourceKind::Package { backend, package }) =>
            desired_backend@ == backend@ && name@ == package.name@,
        (DesiredResourceKind::Runtime { name, version, desired_backend }, ResourceKind::Runtime { backend, runtime }) =>
            desired_backend@ == backend@ && name@ == runtime.name@ && version@ == runtime.version@,
        (DesiredResourceKind::Fs { path, entry_type, op, .. }, ResourceKind::Fs { fs }) =>
            path@ == fs.path@
            && ((entry_type == crate::desired_resource_graph::FsEntryType::File && fs.entry_type == crate::state::FsEntryType::File)
                || (entry_type == crate::desired_resource_graph::FsEntryType::Dir && fs.entry_type == crate::state::FsEntryType::Dir))
            && ((op == crate::desired_resource_graph::FsOp::Link && fs.op == crate::state::FsOp::Link)
                || (op == crate::desired_resource_graph::FsOp::Copy && fs.op == crate::state::FsOp::Copy)),
        _ => false,
    }
}

/// Law: a record is compatible with the desired resource exactly when they
/// agree (in particular a filesystem entry whose path, entry type or
/// operation changed never is); a backend mismatch is reported only for a
/// package or runtime recorded under another backend; a runtime whose
/// version or name changed reports the recorded and the desired version, and
/// any other disagreement reports no versions.
pub proof fn law_compatible_exactly_when_records_agree(d: DesiredResource, s: Resource)
    ensures
        (compat(d, s) is Compatible) <==> records_agree(d, s),
        (compat(d, s) is BackendMismatch) <==> match (d.kind, s.kind) {
            (DesiredResourceKind::Package { desired_backend, .. }, ResourceKind::Package { backend, .. }) => desired_backend@ != backend@,
            (DesiredResourceKind::Runtime { desired_backend, .. }, ResourceKind::Runtime { backend, .. }) => desired_backend@ != backend@,
            _ => false,
        },
        match (d.kind, s.kind) {
            (DesiredResourceKind::Runtime { name, version, desired_backend }, ResourceKind::Runtime { backend, runtime }) =>
                desired_backend@ == backend@ && (name@ != runtime.name@ || version@ != runtime.version@)
                    ==> compat(d, s) == Compat::Incompatible(Some(runtime.version@), Some(version@)),
            (DesiredResourceKind::Package { desired_backend, .. }, ResourceKind::Package { backend, .. }) =>
                desired_backend@ == backend@ && !records_agree(d, s) ==> compat(d, s) == Compat::Incompatible(None, None),
            _ => !records_agree(d, s) ==> compat(d, s) == Compat::Incompatible(None, None),
        },
{
}

/// Law: when a desired resource that a component keeps (the last one with its
/// id) is recorded and no longer agrees with its record, the component is
/// replaced (with a new backend or not); it is never left as a noop or
/// strengthened.
pub proof fn law_changed_resource_forces_replacement(dres: Seq<DesiredResource>, sres: Seq<Resource>, i: int, j: int)
    requires
        0 <= i < dres.len(),
        is_last_desired(dres, i),
        find_state(sres, dres[i].id@) == Some(j),
        !records_agree(dres[i], sres[j]),
    ensures
        classify_existing(dres, sres) is Replace || classify_existing(dres, sres) is ReplaceBackend,
{
    law_compatible_exactly_when_records_agree(dres[i], sres[j]);
    assert(incompat_pred(dres, sres)(i));
    lemma_first_where(dres.len(), incompat_pred(dres, sres));
    let k = first_where(dres.len(), incompat_pred(dres, sres))->0;
    assert(incompat_pred(dres, sres)(k));
}

} // verus!
