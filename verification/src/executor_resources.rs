//! The executor's per-resource decisions: where a filesystem resource's
//! source lies, what is recorded in state for an applied resource, how a
//! recorded resource is removed, and how the outcomes of the outside work of
//! a step become the step's outcome.
use vstd::prelude::*;
use crate::component_host::{component_result_view, ComponentHostError, ComponentOutput};
use crate::component_index::ComponentIndex;
use crate::desired_resource_graph::{self as drg, DesiredResource, DesiredResourceKind};
use crate::executor::{ActionError, ActionFailure, EnvArtifact, Event};
use crate::env::{merge_spec, str_vals, EnvMutation, ExecutionEnvContext, ExecutionEnvDelta};
use crate::id::CanonicalBackendId;
use crate::path::{path_join, path_join_exec};
use crate::platform::Platform;
use crate::state::{self, FsDetails, PackageDetails, Resource, ResourceKind, RuntimeDetails};
use crate::text::{concat2, concat3, concat_all, concat_seq, eq_str, has_prefix, split_nonempty, split_nonempty_exec, strip_prefix};
use crate::tool::{same_contract, ToolObservedFacts, ToolResource};
use crate::tool_verify::{absence_outcome, check_absence, fault_message, opt_view, ToolFault, ToolVerifyError};

verus! {

// ---------------------------------------------------------------------------
// Filesystem paths
// ---------------------------------------------------------------------------

/// The rest of `path` after a leading `~/` or `~\`, if it has one.
pub open spec fn home_rest(path: Seq<char>) -> Option<Seq<char>> {
    if has_prefix(path, "~/"@) || has_prefix(path, "~\\"@) { Some(path.skip(2)) } else { None }
}

/// `path` with a leading `~/` (or `~\`) replaced by the home directory,
/// when one is known; otherwise `path` itself.
pub open spec fn expand_home_spec(path: Seq<char>, home: Option<Seq<char>>) -> Seq<char> {
    match (home_rest(path), home) {
        (Some(rest), Some(h)) => path_join(h, rest),
        _ => path,
    }
}

/// Expand a leading `~/` (or `~\`) of `path` with `home` (the `HOME` or
/// `USERPROFILE` variable, when set).
pub fn expand_home(path: &str, home: Option<&str>) -> (r: String)
    ensures
        r@ == expand_home_spec(path@, match home { Some(h) => Some(h@), None => None }),
{
    proof {
        reveal_strlit("~/");
        reveal_strlit("~\\");
    }
    let rest = match strip_prefix(path, "~/") {
        Some(r) => Some(r),
        None => strip_prefix(path, "~\\"),
    };
    match (rest, home) {
        (Some(r), Some(h)) => path_join_exec(h, r.as_str()),
        _ => path.to_owned(),
    }
}

/// The last normal component of a path split into `pieces`: trailing `.`
/// pieces are skipped; a trailing `..` has none.
pub open spec fn last_name(pieces: Seq<Seq<char>>) -> Option<Seq<char>>
    decreases pieces.len(),
{
    if pieces.len() == 0 {
        None
    } else if pieces.last() == "."@ {
        last_name(pieces.drop_last())
    } else if pieces.last() == ".."@ {
        None
    } else {
        Some(pieces.last())
    }
}

/// The file name of `p`, as `Path::file_name` gives it.
pub open spec fn file_name_of(p: Seq<char>) -> Option<Seq<char>> {
    last_name(split_nonempty(p, '/'))
}

/// The file name of `p` (executable).
pub fn file_name(p: &str) -> (r: Option<String>)
    ensures
        match r {
            Some(n) => file_name_of(p@) == Some(n@),
            None => file_name_of(p@) is None,
        },
{
    let pieces = split_nonempty_exec(p, '/');
    let ghost views = pieces@.map_values(|x: String| x@);
    let mut k: usize = pieces.len();
    assert(views.subrange(0, pieces.len() as int) =~= views);
    while k > 0
        invariant
            k <= pieces.len(),
            views == pieces@.map_values(|x: String| x@),
            views == split_nonempty(p@, '/'),
            last_name(views) == last_name(views.subrange(0, k as int)),
        decreases k,
    {
        let piece = &pieces[k - 1];
        let ghost sub = views.subrange(0, k as int);
        assert(sub.last() == piece@);
        assert(sub.drop_last() =~= views.subrange(0, k - 1));
        if eq_str(piece.as_str(), ".") {
            k = k - 1;
        } else if eq_str(piece.as_str(), "..") {
            return None;
        } else {
            return Some(piece.clone());
        }
    }
    assert(views.subrange(0, 0) =~= Seq::<Seq<char>>::empty());
    None
}

/// Where the source of a filesystem resource lies: `source` inside the
/// component directory, or by default `files/<file name of the target>`.
pub open spec fn fs_source_spec(source_dir: Seq<char>, source: Option<Seq<char>>, expanded: Seq<char>, path: Seq<char>) -> Result<Seq<char>, Seq<char>> {
    match source {
        Some(rel) => Ok(path_join(source_dir, rel)),
        None => match file_name_of(expanded) {
            Some(b) => Ok(path_join(path_join(source_dir, "files"@), b)),
            None => Err("cannot determine basename of path '"@ + path + "'"@),
        },
    }
}

/// The source path of a filesystem resource whose target is `path`
/// (`expanded` once `~` is expanded), for a component in `source_dir`.
pub fn fs_source_path(source_dir: &str, source: &Option<String>, expanded: &str, path: &str) -> (r: Result<String, String>)
    ensures
        match r {
            Ok(s) => fs_source_spec(source_dir@, opt_view(*source), expanded@, path@) == Ok::<Seq<char>, Seq<char>>(s@),
            Err(e) => fs_source_spec(source_dir@, opt_view(*source), expanded@, path@) == Err::<Seq<char>, Seq<char>>(e@),
        },
{
    match source {
        Some(rel) => Ok(path_join_exec(source_dir, rel.as_str())),
        None => match file_name(expanded) {
            Some(b) => {
                let files = path_join_exec(source_dir, "files");
                Ok(path_join_exec(files.as_str(), b.as_str()))
            },
            None => Err(concat3("cannot determine basename of path '", path, "'")),
        },
    }
}

/// The source path of a filesystem resource of component `component_id`,
/// found through the component index.
pub fn fs_source_in_index(index: &ComponentIndex, component_id: &str, source: &Option<String>, expanded: &str, path: &str) -> (r: Result<String, String>)
    ensures
        !index.components@.contains_key(component_id@) ==> r is Err
            && r->Err_0@ == "component '"@ + component_id@ + "' not found in index"@,
        index.components@.contains_key(component_id@) ==> match r {
            Ok(s) => fs_source_spec(index.components@[component_id@].source_dir@, opt_view(*source), expanded@, path@)
                == Ok::<Seq<char>, Seq<char>>(s@),
            Err(e) => fs_source_spec(index.components@[component_id@].source_dir@, opt_view(*source), expanded@, path@)
                == Err::<Seq<char>, Seq<char>>(e@),
        },
{
    match index.components.get(component_id) {
        None => Err(concat3("component '", component_id, "' not found in index")),
        Some(meta) => fs_source_path(meta.source_dir.as_str(), source, expanded, path),
    }
}

// ---------------------------------------------------------------------------
// What is recorded in state
// ---------------------------------------------------------------------------

/// The entry type recorded for a filesystem resource: a link is recorded as
/// a symlink, a copy by its entry type.
pub open spec fn recorded_entry_type(et: drg::FsEntryType, op: drg::FsOp) -> state::FsEntryType {
    match op {
        drg::FsOp::Link => state::FsEntryType::Symlink,
        drg::FsOp::Copy => match et {
            drg::FsEntryType::File => state::FsEntryType::File,
            drg::FsEntryType::Dir => state::FsEntryType::Dir,
        },
    }
}

/// The operation recorded for a filesystem resource.
pub open spec fn recorded_op(op: drg::FsOp) -> state::FsOp {
    match op {
        drg::FsOp::Link => state::FsOp::Link,
        drg::FsOp::Copy => state::FsOp::Copy,
    }
}

/// The entry type recorded for a filesystem resource (executable).
pub fn map_fs_entry_type(et: &drg::FsEntryType, op: &drg::FsOp) -> (r: state::FsEntryType)
    ensures
        r == recorded_entry_type(*et, *op),
{
    match op {
        drg::FsOp::Link => state::FsEntryType::Symlink,
        drg::FsOp::Copy => match et {
            drg::FsEntryType::File => state::FsEntryType::File,
            drg::FsEntryType::Dir => state::FsEntryType::Dir,
        },
    }
}

/// The operation recorded for a filesystem resource (executable).
pub fn map_fs_op(op: &drg::FsOp) -> (r: state::FsOp)
    ensures
        r == recorded_op(*op),
{
    match op {
        drg::FsOp::Link => state::FsOp::Link,
        drg::FsOp::Copy => state::FsOp::Copy,
    }
}

/// Whether `r` is what state records for the applied desired resource `dr`
/// (`expanded` is the target path of a filesystem resource, `~` expanded).
pub open spec fn records_applied(dr: DesiredResource, expanded: Seq<char>, r: Resource) -> bool {
    &&& r.id@ == dr.id@
    &&& match dr.kind {
        DesiredResourceKind::Package { name, desired_backend } =>
            r.kind matches ResourceKind::Package { backend, package }
                && backend == desired_backend && package.name@ == name@ && package.version is None,
        DesiredResourceKind::Runtime { name, version, desired_backend } =>
            r.kind matches ResourceKind::Runtime { backend, runtime }
                && backend == desired_backend && runtime.name@ == name@ && runtime.version@ == version@,
        DesiredResourceKind::Fs { entry_type, op, .. } =>
            r.kind matches ResourceKind::Fs { fs }
                && fs.path@ == expanded && fs.entry_type == recorded_entry_type(entry_type, op) && fs.op == recorded_op(op),
        DesiredResourceKind::Tool { .. } => false,
    }
}

/// The state record of the applied desired resource `dr` of `component_id`.
/// Tool resources are not applied this way (managed-script components verify
/// them instead).
pub fn applied_resource(component_id: &str, dr: &DesiredResource, expanded: &str) -> (r: Result<Resource, String>)
    ensures
        match r {
            Ok(x) => records_applied(*dr, expanded@, x),
            Err(e) => dr.kind is Tool && e@ == "["@ + component_id@ + "] resource '"@ + dr.id@
                + "': tool resources must be handled by managed_script executor, not apply_one_resource"@,
        },
{
    let id = dr.id.clone();
    match &dr.kind {
        DesiredResourceKind::Package { name, desired_backend } => Ok(Resource {
            id,
            kind: ResourceKind::Package {
                backend: desired_backend.clone(),
                package: PackageDetails { name: name.clone(), version: None },
            },
        }),
        DesiredResourceKind::Runtime { name, version, desired_backend } => Ok(Resource {
            id,
            kind: ResourceKind::Runtime {
                backend: desired_backend.clone(),
                runtime: RuntimeDetails { name: name.clone(), version: version.clone() },
            },
        }),
        DesiredResourceKind::Fs { entry_type, op, .. } => Ok(Resource {
            id,
            kind: ResourceKind::Fs {
                fs: FsDetails { path: expanded.to_owned(), entry_type: map_fs_entry_type(entry_type, op), op: map_fs_op(op) },
            },
        }),
        DesiredResourceKind::Tool { .. } => {
            let parts = vec!["[", component_id, "] resource '", dr.id.as_str(),
                "': tool resources must be handled by managed_script executor, not apply_one_resource"];
            let e = concat_all(&parts);
            proof {
                reveal_with_fuel(concat_seq, 6);
                assert(parts@.map_values(|p: &str| p@) =~= seq!["["@, component_id@, "] resource '"@, dr.id@,
                    "': tool resources must be handled by managed_script executor, not apply_one_resource"@]);
            }
            Err(e)
        },
    }
}

/// How a recorded resource is removed.
#[derive(Debug)]
pub enum Removal {
    /// Through its recorded backend, which receives the same request it
    /// received for applying.
    Backend { backend: CanonicalBackendId, request: DesiredResource },
    /// By removing the recorded filesystem entry.
    Fs { path: String, entry_type: state::FsEntryType },
    /// Not by the executor at all.
    Refused { error: String },
}

/// How the recorded resource `res` is removed.
pub fn removal_of(res: &Resource) -> (r: Removal)
    ensures
        match res.kind {
            ResourceKind::Package { backend, package } => r matches Removal::Backend { backend: b, request }
                && b == backend && request.id@ == res.id@
                && (request.kind matches DesiredResourceKind::Package { name, desired_backend }
                    && name@ == package.name@ && desired_backend == backend),
            ResourceKind::Runtime { backend, runtime } => r matches Removal::Backend { backend: b, request }
                && b == backend && request.id@ == res.id@
                && (request.kind matches DesiredResourceKind::Runtime { name, version, desired_backend }
                    && name@ == runtime.name@ && version@ == runtime.version@ && desired_backend == backend),
            ResourceKind::Fs { fs } => r matches Removal::Fs { path, entry_type } && path@ == fs.path@ && entry_type == fs.entry_type,
            ResourceKind::Tool { .. } => r matches Removal::Refused { error } && error@ == "resource '"@ + res.id@
                + "': tool resources must be handled by managed_script executor, not remove_one_state_resource"@,
        },
{
    match &res.kind {
        ResourceKind::Package { backend, package } => Removal::Backend {
            backend: backend.clone(),
            request: DesiredResource {
                id: res.id.clone(),
                kind: DesiredResourceKind::Package { name: package.name.clone(), desired_backend: backend.clone() },
            },
        },
        ResourceKind::Runtime { backend, runtime } => Removal::Backend {
            backend: backend.clone(),
            request: DesiredResource {
                id: res.id.clone(),
                kind: DesiredResourceKind::Runtime {
                    name: runtime.name.clone(),
                    version: runtime.version.clone(),
                    desired_backend: backend.clone(),
                },
            },
        },
        ResourceKind::Fs { fs } => Removal::Fs { path: fs.path.clone(), entry_type: fs.entry_type },
        ResourceKind::Tool { .. } => Removal::Refused {
            error: concat3("resource '", res.id.as_str(),
                "': tool resources must be handled by managed_script executor, not remove_one_state_resource"),
        },
    }
}

// ---------------------------------------------------------------------------
// Step outcomes
// ---------------------------------------------------------------------------

/// The outcome of a script step: the host's failure message fails the
/// component.
pub fn script_step(result: Result<ComponentOutput, ComponentHostError>) -> (r: Result<Vec<Resource>, ActionError>)
    ensures
        match result {
            Ok(_) => r is Ok && r->Ok_0@.len() == 0,
            Err(e) => r is Err && r->Err_0@ == (ActionFailure::Component { error: crate::component_host::component_host_message(e@) }),
        },
{
    match result {
        Ok(_) => Ok(Vec::new()),
        Err(e) => Err(ActionError::Component { error: e.message() }),
    }
}

/// The message of a failed absence check of tool `rid` of component `cid`.
pub open spec fn absence_message(cid: Seq<char>, rid: Seq<char>, f: ToolFault, after_uninstall: bool) -> Seq<char> {
    "["@ + cid + "] tool '"@ + rid + (if after_uninstall { "' absence check failed after uninstall: "@ } else { "' absence check failed: "@ })
        + fault_message(f)
}

/// The outcome of the absence check of the tool recorded at `index`, given
/// whether its recorded path still exists.
pub fn absence_step(cid: &str, recorded: &Vec<Resource>, index: usize, after_uninstall: bool, path_exists: bool) -> (r: Result<Vec<Resource>, ActionError>)
    requires
        index < recorded@.len(),
        recorded@[index as int].kind is Tool,
    ensures
        ({
            let res = recorded@[index as int];
            let observed = res.kind->Tool_tool.observed;
            match absence_outcome(res.id@, opt_view(observed.resolved_path), path_exists) {
                Ok(()) => r is Ok && r->Ok_0@.len() == 0,
                Err(f) => r is Err && r->Err_0@ == (ActionFailure::Resource {
                    resource_id: res.id@,
                    error: absence_message(cid@, res.id@, f, after_uninstall),
                }),
            }
        }),
{
    let res = &recorded[index];
    match &res.kind {
        ResourceKind::Tool { tool } => match check_absence(res.id.as_str(), &tool.observed, path_exists) {
            Ok(()) => Ok(Vec::new()),
            Err(e) => {
                let msg = e.message();
                let middle = if after_uninstall { "' absence check failed after uninstall: " } else { "' absence check failed: " };
                let parts = vec!["[", cid, "] tool '", res.id.as_str(), middle, msg.as_str()];
                let error = concat_all(&parts);
                proof {
                    reveal_with_fuel(concat_seq, 7);
                    assert(parts@.map_values(|q: &str| q@) =~= seq!["["@, cid@, "] tool '"@, res.id@, middle@, msg@]);
                }
                Err(ActionError::Resource { resource_id: res.id.clone(), error })
            },
        },
        _ => {
            assert(false);
            Ok(Vec::new())
        },
    }
}

/// Whether `r` is what state records for the verified desired tool `dr`,
/// with the observed `facts`.
pub open spec fn records_tool(dr: DesiredResource, facts: ToolObservedFacts, r: Resource) -> bool {
    &&& r.id@ == dr.id@
    &&& match (dr.kind, r.kind) {
        (DesiredResourceKind::Tool { name, verify }, ResourceKind::Tool { tool }) =>
            tool.name@ == name@ && same_contract(tool.verify, verify) && tool.observed == facts,
        _ => false,
    }
}

/// The message of a failed verification of tool `rid` of component `cid`.
pub open spec fn verify_message(cid: Seq<char>, rid: Seq<char>, f: ToolFault) -> Seq<char> {
    "["@ + cid + "] tool '"@ + rid + "' verify failed: "@ + fault_message(f)
}

/// The message for a non-tool resource of managed-script component `cid`.
pub open spec fn non_tool_message(cid: Seq<char>, rid: Seq<char>) -> Seq<char> {
    "["@ + cid + "] managed_script resource '"@ + rid + "' has non-tool kind"@
}

/// Whether `results` are those of verifying the desired tools in order and
/// stopping at the first failure or at the first resource that is no tool.
pub open spec fn verified_in_order(desired: Seq<DesiredResource>, results: Seq<Result<ToolObservedFacts, ToolVerifyError>>) -> bool {
    &&& results.len() <= desired.len()
    &&& forall|i: int| 0 <= i < results.len() ==> (#[trigger] desired[i]).kind is Tool
    &&& forall|i: int| 0 <= i < results.len() - 1 ==> (#[trigger] results[i]) is Ok
    &&& results.len() < desired.len() ==> (results.len() > 0 && results.last() is Err) || !(desired[results.len() as int].kind is Tool)
}

/// The state resources of a managed-script component after its tools were
/// verified with `results` (in desired order, stopping at the first failure
/// or non-tool resource). The first failure fails the action.
pub fn verified_tools(cid: &str, desired: &Vec<DesiredResource>, results: Vec<Result<ToolObservedFacts, ToolVerifyError>>) -> (r: Result<Vec<Resource>, ActionError>)
    requires
        verified_in_order(desired@, results@),
    ensures
        results@.len() > 0 && results@.last() is Err ==> r is Err && r->Err_0@ == (ActionFailure::Resource {
            resource_id: desired@[results@.len() - 1].id@,
            error: verify_message(cid@, desired@[results@.len() - 1].id@, results@.last()->Err_0@),
        }),
        !(results@.len() > 0 && results@.last() is Err) && results@.len() < desired@.len() ==> r is Err
            && r->Err_0@ == (ActionFailure::Component { error: non_tool_message(cid@, desired@[results@.len() as int].id@) }),
        !(results@.len() > 0 && results@.last() is Err) && results@.len() == desired@.len() ==> r is Ok
            && r->Ok_0@.len() == desired@.len()
            && forall|i: int| 0 <= i < desired@.len() ==> records_tool(desired@[i], results@[i]->Ok_0, #[trigger] r->Ok_0@[i]),
{
    let ghost all = results@;
    let n = results.len();
    let mut rest = results;
    let mut out: Vec<Resource> = Vec::new();
    let mut k: usize = 0;
    while k < n
        invariant
            k <= n == all.len() <= desired@.len(),
            all == results@,
            rest@ == all.subrange(k as int, n as int),
            out@.len() == k,
            forall|i: int| 0 <= i < k ==> (#[trigger] all[i]) is Ok,
            forall|i: int| 0 <= i < n - 1 ==> (#[trigger] all[i]) is Ok,
            forall|i: int| 0 <= i < n ==> (#[trigger] desired@[i]).kind is Tool,
            forall|i: int| 0 <= i < k ==> records_tool(desired@[i], all[i]->Ok_0, #[trigger] out@[i]),
        decreases n - k,
    {
        let o = rest.remove(0);
        assert(o == all[k as int]);
        let dr = &desired[k];
        match o {
            Ok(facts) => {
                match &dr.kind {
                    DesiredResourceKind::Tool { name, verify } => {
                        let res = Resource {
                            id: dr.id.clone(),
                            kind: ResourceKind::Tool { tool: ToolResource { name: name.clone(), verify: verify.duplicate(), observed: facts } },
                        };
                        out.push(res);
                    },
                    _ => {
                        assert(false);
                    },
                }
            },
            Err(e) => {
                proof {
                    if k + 1 < n {
                        assert(all[k as int] is Ok);
                    }
                    assert(k + 1 == n);
                }
                let msg = e.message();
                let parts = vec!["[", cid, "] tool '", dr.id.as_str(), "' verify failed: ", msg.as_str()];
                let error = concat_all(&parts);
                proof {
                    reveal_with_fuel(concat_seq, 7);
                    assert(parts@.map_values(|q: &str| q@) =~= seq!["["@, cid@, "] tool '"@, dr.id@, "' verify failed: "@, msg@]);
                }
                return Err(ActionError::Resource { resource_id: dr.id.clone(), error });
            },
        }
        assert(rest@ =~= all.subrange(k + 1, n as int));
        k = k + 1;
    }
    if n < desired.len() {
        let dr = &desired[n];
        let parts = vec!["[", cid, "] managed_script resource '", dr.id.as_str(), "' has non-tool kind"];
        let error = concat_all(&parts);
        proof {
            reveal_with_fuel(concat_seq, 6);
            assert(parts@.map_values(|q: &str| q@) =~= seq!["["@, cid@, "] managed_script resource '"@, dr.id@, "' has non-tool kind"@]);
        }
        return Err(ActionError::Component { error });
    }
    Ok(out)
}

/// Whether `results` are those of performing `n` pieces of work in order
/// and stopping at the first failure.
pub open spec fn in_order<T, E>(n: nat, results: Seq<Result<T, E>>) -> bool {
    &&& results.len() <= n
    &&& forall|i: int| 0 <= i < results.len() - 1 ==> (#[trigger] results[i]) is Ok
    &&& results.len() < n ==> results.len() > 0 && results.last() is Err
}

/// The message of a failed application of resource `rid` of component `cid`.
pub open spec fn apply_message(cid: Seq<char>, rid: Seq<char>, e: Seq<char>) -> Seq<char> {
    "["@ + cid + "] resource '"@ + rid + "' failed: "@ + e
}

/// The state resources of a declarative component after the selected desired
/// resources were applied with `results` (each the state record, or the
/// failure text), in order and stopping at the first failure.
pub fn applied_resources(cid: &str, desired: &Vec<DesiredResource>, selection: &Vec<usize>, results: Vec<Result<Resource, String>>) -> (r: Result<Vec<Resource>, ActionError>)
    requires
        forall|j: int| 0 <= j < selection@.len() ==> (#[trigger] selection@[j]) < desired@.len(),
        in_order(selection@.len(), results@),
    ensures
        results@.len() > 0 && results@.last() is Err ==> r is Err && ({
            let rid = desired@[selection@[results@.len() - 1] as int].id@;
            r->Err_0@ == (ActionFailure::Resource { resource_id: rid, error: apply_message(cid@, rid, results@.last()->Err_0@) })
        }),
        !(results@.len() > 0 && results@.last() is Err) ==> r is Ok && r->Ok_0@.len() == selection@.len()
            && forall|i: int| 0 <= i < selection@.len() ==> #[trigger] r->Ok_0@[i] == results@[i]->Ok_0,
{
    let ghost all = results@;
    let n = results.len();
    let mut rest = results;
    let mut out: Vec<Resource> = Vec::new();
    let mut k: usize = 0;
    while k < n
        invariant
            k <= n == all.len() <= selection@.len(),
            all == results@,
            rest@ == all.subrange(k as int, n as int),
            out@.len() == k,
            forall|j: int| 0 <= j < selection@.len() ==> (#[trigger] selection@[j]) < desired@.len(),
            forall|i: int| 0 <= i < k ==> (#[trigger] all[i]) is Ok,
            forall|i: int| 0 <= i < n - 1 ==> (#[trigger] all[i]) is Ok,
            n < selection@.len() ==> n > 0 && all.last() is Err,
            forall|i: int| 0 <= i < k ==> #[trigger] out@[i] == all[i]->Ok_0,
        decreases n - k,
    {
        let o = rest.remove(0);
        assert(o == all[k as int]);
        match o {
            Ok(res) => {
                out.push(res);
            },
            Err(e) => {
                proof {
                    if k + 1 < n {
                        assert(all[k as int] is Ok);
                    }
                    assert(k + 1 == n);
                }
                let dr = &desired[selection[k]];
                let parts = vec!["[", cid, "] resource '", dr.id.as_str(), "' failed: ", e.as_str()];
                let error = concat_all(&parts);
                proof {
                    reveal_with_fuel(concat_seq, 7);
                    assert(parts@.map_values(|q: &str| q@) =~= seq!["["@, cid@, "] resource '"@, dr.id@, "' failed: "@, e@]);
                }
                return Err(ActionError::Resource { resource_id: dr.id.clone(), error });
            },
        }
        assert(rest@ =~= all.subrange(k + 1, n as int));
        k = k + 1;
    }
    Ok(out)
}

/// The message of a failed removal of resource `rid` of component `cid`.
pub open spec fn removal_message(cid: Seq<char>, rid: Seq<char>, e: Seq<char>) -> Seq<char> {
    "["@ + cid + "] resource '"@ + rid + "' remove failed: "@ + e
}

/// The outcome of removing the recorded resources with `results` (in
/// recorded order, stopping at the first failure).
pub fn removed_resources(cid: &str, recorded: &Vec<Resource>, results: Vec<Result<(), String>>) -> (r: Result<Vec<Resource>, ActionError>)
    requires
        in_order(recorded@.len(), results@),
    ensures
        results@.len() > 0 && results@.last() is Err ==> r is Err && ({
            let rid = recorded@[results@.len() - 1].id@;
            r->Err_0@ == (ActionFailure::Resource { resource_id: rid, error: removal_message(cid@, rid, results@.last()->Err_0@) })
        }),
        !(results@.len() > 0 && results@.last() is Err) ==> r is Ok && r->Ok_0@.len() == 0,
{
    let mut k: usize = 0;
    while k < results.len()
        invariant
            k <= results@.len() <= recorded@.len(),
            forall|i: int| 0 <= i < results@.len() - 1 ==> (#[trigger] results@[i]) is Ok,
            forall|i: int| 0 <= i < k ==> (#[trigger] results@[i]) is Ok,
        decreases results@.len() - k,
    {
        if let Err(e) = &results[k] {
            proof {
                if k + 1 < results@.len() {
                    assert(results@[k as int] is Ok);
                }
                assert(k + 1 == results@.len());
            }
            let res = &recorded[k];
            let parts = vec!["[", cid, "] resource '", res.id.as_str(), "' remove failed: ", e.as_str()];
            let error = concat_all(&parts);
            proof {
                reveal_with_fuel(concat_seq, 7);
                assert(parts@.map_values(|q: &str| q@) =~= seq!["["@, cid@, "] resource '"@, res.id@, "' remove failed: "@, e@]);
            }
            return Err(ActionError::Resource { resource_id: res.id.clone(), error });
        }
        k = k + 1;
    }
    Ok(Vec::new())
}

// ---------------------------------------------------------------------------
// Environment contributions
// ---------------------------------------------------------------------------

/// The variable a mutation touches.
pub open spec fn mutation_key(m: EnvMutation) -> Seq<char> {
    match m {
        EnvMutation::SetVar { key, .. } => key@,
        EnvMutation::Unset { key } => key@,
        EnvMutation::PrependPath { key, .. } => key@,
        EnvMutation::AppendPath { key, .. } => key@,
        EnvMutation::RemovePath { key, .. } => key@,
    }
}

/// Each touched variable with its value in `vars` (empty when unset), in
/// the order of the mutations.
pub open spec fn changed_vars_spec(ms: Seq<EnvMutation>, vars: Map<Seq<char>, Seq<char>>) -> Seq<(Seq<char>, Seq<char>)> {
    Seq::new(ms.len(), |i: int| (mutation_key(ms[i]), if vars.contains_key(mutation_key(ms[i])) { vars[mutation_key(ms[i])] } else { Seq::empty() }))
}

/// Whether `a` records the delta `delta` of contributor `key` for the
/// action of `component_id` in `phase`, with the variables' values `vars`
/// after merging.
pub open spec fn records_delta(a: EnvArtifact, component_id: Seq<char>, phase: Seq<char>, key: Seq<char>, delta: ExecutionEnvDelta, vars: Map<Seq<char>, Seq<char>>) -> bool {
    &&& a.component_id@ == component_id
    &&& a.phase@ == phase
    &&& a.contributor_key@ == key
    &&& a.delta == delta
    &&& a.changed_vars@.map_values(|p: (String, String)| (p.0@, p.1@)) == changed_vars_spec(delta.mutations@, vars)
}

/// The key of a mutation (executable).
fn key_of(m: &EnvMutation) -> (r: &String)
    ensures
        r@ == mutation_key(*m),
{
    match m {
        EnvMutation::SetVar { key, .. } => key,
        EnvMutation::Unset { key } => key,
        EnvMutation::PrependPath { key, .. } => key,
        EnvMutation::AppendPath { key, .. } => key,
        EnvMutation::RemovePath { key, .. } => key,
    }
}

/// Merge the delta a backend hook returned into `env_ctx` and record it in
/// `artifacts`, with the touched variables' values after merging.
pub fn merge_backend_delta(
    delta: ExecutionEnvDelta,
    phase: &str,
    backend_key: &str,
    component_id: &str,
    env_ctx: &mut ExecutionEnvContext,
    platform: Platform,
    artifacts: &mut Vec<EnvArtifact>,
)
    ensures
        str_vals(final(env_ctx).vars@) == merge_spec(str_vals(old(env_ctx).vars@), delta.mutations@, platform),
        final(artifacts)@.len() == old(artifacts)@.len() + 1,
        final(artifacts)@.drop_last() == old(artifacts)@,
        records_delta(final(artifacts)@.last(), component_id@, phase@, backend_key@, delta, str_vals(final(env_ctx).vars@)),
{
    env_ctx.merge(&delta, platform);
    let ghost vars = str_vals(env_ctx.vars@);
    let mut changed: Vec<(String, String)> = Vec::new();
    let mut i: usize = 0;
    while i < delta.mutations.len()
        invariant
            i <= delta.mutations@.len(),
            vars == str_vals(env_ctx.vars@),
            changed@.map_values(|p: (String, String)| (p.0@, p.1@)) == changed_vars_spec(delta.mutations@, vars).subrange(0, i as int),
        decreases delta.mutations@.len() - i,
    {
        let key = key_of(&delta.mutations[i]);
        let value = match env_ctx.vars.get(key.as_str()) {
            Some(v) => v.clone(),
            None => String::new(),
        };
        let ghost before = changed@.map_values(|p: (String, String)| (p.0@, p.1@));
        changed.push((key.clone(), value));
        assert(changed@.map_values(|p: (String, String)| (p.0@, p.1@)) =~= before.push(changed_vars_spec(delta.mutations@, vars)[i as int]));
        assert(changed_vars_spec(delta.mutations@, vars).subrange(0, i + 1) =~= changed_vars_spec(delta.mutations@, vars).subrange(0, i as int).push(
            changed_vars_spec(delta.mutations@, vars)[i as int]));
        i = i + 1;
    }
    assert(changed_vars_spec(delta.mutations@, vars).subrange(0, delta.mutations@.len() as int) =~= changed_vars_spec(delta.mutations@, vars));
    artifacts.push(EnvArtifact {
        component_id: component_id.to_owned(),
        phase: phase.to_owned(),
        contributor_key: backend_key.to_owned(),
        delta,
        changed_vars: changed,
    });
    assert(artifacts@.drop_last() =~= old(artifacts)@);
}

/// The warning emitted when a backend's `hook` (`env_pre` or `env_post`)
/// failed with `error`.
pub fn hook_warning(backend_key: &str, hook: &str, error: &str) -> (r: Event)
    ensures
        r matches Event::ContributorWarning { backend_id, reason } && backend_id@ == backend_key@
            && reason@ == hook@ + " failed: "@ + error@,
{
    Event::ContributorWarning { backend_id: backend_key.to_owned(), reason: concat3(hook, " failed: ", error) }
}

/// Evaluate the result of contributor `key`: a delta is merged and recorded;
/// a failure of a required contributor is fatal
/// (`required contributor '<key>' failed: contributor error: <reason>`),
/// one of an optional contributor yields a warning.
pub fn contributor_outcome(
    key: &str,
    required: bool,
    result: Result<ExecutionEnvDelta, crate::executor::ContributorError>,
    phase: &str,
    component_id: &str,
    env_ctx: &mut ExecutionEnvContext,
    platform: Platform,
    artifacts: &mut Vec<EnvArtifact>,
) -> (r: Result<Option<Event>, String>)
    ensures
        match result {
            Ok(delta) => r is Ok && r->Ok_0 is None
                && str_vals(final(env_ctx).vars@) == merge_spec(str_vals(old(env_ctx).vars@), delta.mutations@, platform)
                && final(artifacts)@.drop_last() == old(artifacts)@
                && final(artifacts)@.len() == old(artifacts)@.len() + 1
                && records_delta(final(artifacts)@.last(), component_id@, phase@, key@, delta, str_vals(final(env_ctx).vars@)),
            Err(e) => final(env_ctx).vars@ == old(env_ctx).vars@ && final(artifacts)@ == old(artifacts)@
                && if required {
                    r is Err && r->Err_0@ == "required contributor '"@ + key@ + "' failed: "@ + ("contributor error: "@ + e.reason@)
                } else {
                    r is Ok && (r->Ok_0 matches Some(Event::ContributorWarning { backend_id, reason })
                        && backend_id@ == key@ && reason@ == "contributor error: "@ + e.reason@)
                },
        },
{
    match result {
        Ok(delta) => {
            merge_backend_delta(delta, phase, key, component_id, env_ctx, platform, artifacts);
            Ok(None)
        },
        Err(e) => {
            let msg = e.message();
            if required {
                let head = concat3("required contributor '", key, "' failed: ");
                Err(crate::text::concat2(head.as_str(), msg.as_str()))
            } else {
                Ok(Some(Event::ContributorWarning { backend_id: key.to_owned(), reason: msg }))
            }
        },
    }
}

} // verus!
