use loadout::component_host::{ComponentHostError, ComponentOp, ComponentOutput};
use loadout::component_index::{ComponentIndex, ComponentMeta, ComponentMode, DepSpec};
use loadout::desired_resource_graph::{self as drg, ComponentDesiredResources, DesiredResource, DesiredResourceGraph, DesiredResourceKind};
use loadout::env::{EnvEvidence, EnvMutation, ExecutionEnvContext, ExecutionEnvDelta, PathEntry};
use loadout::executor::{
    plan_action, record_action, settle_action, ActionError, ActionFault, ActionStep, ContributorError, ContributorRegistry, Event,
    ExecutorError, ExecutorReport, Finish,
};
use loadout::executor_resources::{
    absence_step, applied_resource, applied_resources, contributor_outcome, expand_home, file_name, fs_source_path, hook_warning,
    merge_backend_delta, removal_of, removed_resources, script_step, verified_tools, Removal,
};
use loadout::id::{CanonicalBackendId, CanonicalComponentId};
use loadout::plan::{ActionDetails, Operation, PlanAction, ResourceRef, StrengthenDetails};
use loadout::platform::Platform;
use loadout::state::{self, ComponentState, FsDetails, Resource, ResourceKind, State};
use loadout::strmap::StrMap;
use loadout::tool::{ToolIdentityVerify, ToolObservedFacts, ToolResource, ToolVerifyContract};
use loadout::tool_verify::ToolVerifyError;

fn cid(s: &str) -> CanonicalComponentId {
    CanonicalComponentId::new(s).unwrap()
}

fn bid(s: &str) -> CanonicalBackendId {
    CanonicalBackendId::new(s).unwrap()
}

fn meta(mode: ComponentMode) -> ComponentMeta {
    ComponentMeta {
        spec_version: 1,
        mode,
        description: None,
        source_dir: "/src/comp".to_string(),
        dep: DepSpec { depends: vec![], requires: vec![], provides: vec![] },
        params_schema: None,
        spec: None,
        scripts: None,
    }
}

fn index(entries: Vec<(&str, ComponentMode)>) -> ComponentIndex {
    let mut components = StrMap::new();
    for (id, mode) in entries {
        components.insert(id.to_string(), meta(mode));
    }
    ComponentIndex { schema_version: 1, components }
}

fn package(id: &str, name: &str) -> DesiredResource {
    DesiredResource {
        id: id.to_string(),
        kind: DesiredResourceKind::Package { name: name.to_string(), desired_backend: bid("core/brew") },
    }
}

fn tool_contract() -> ToolVerifyContract {
    ToolVerifyContract { identity: ToolIdentityVerify::File { path: "/opt/t".to_string(), executable: false }, version: None }
}

fn tool_desired(id: &str) -> DesiredResource {
    DesiredResource { id: id.to_string(), kind: DesiredResourceKind::Tool { name: "t".to_string(), verify: tool_contract() } }
}

fn tool_state(id: &str, path: &str) -> Resource {
    Resource {
        id: id.to_string(),
        kind: ResourceKind::Tool {
            tool: ToolResource {
                name: "t".to_string(),
                verify: tool_contract(),
                observed: ToolObservedFacts { resolved_path: Some(path.to_string()), version: None },
            },
        },
    }
}

fn package_state(id: &str, name: &str) -> Resource {
    applied_resource("core/a", &package(id, name), "").unwrap()
}

fn graph(entries: Vec<(&str, Vec<DesiredResource>)>) -> DesiredResourceGraph {
    let mut components = StrMap::new();
    for (id, resources) in entries {
        components.insert(id.to_string(), ComponentDesiredResources { resources });
    }
    DesiredResourceGraph { schema_version: 1, components }
}

fn action(id: &str, operation: Operation) -> PlanAction {
    PlanAction { component: cid(id), operation, details: None }
}

fn state_with(id: &str, resources: Vec<Resource>) -> State {
    let mut s = State::empty();
    s.components.insert(id.to_string(), ComponentState { resources });
    s
}

#[test]
fn create_declarative_plans_apply_and_record() {
    let idx = index(vec![("core/a", ComponentMode::Declarative)]);
    let g = graph(vec![("core/a", vec![package("package:git", "git"), package("package:jq", "jq")])]);
    let st = State::empty();
    let p = plan_action(&idx, &g, &st, &action("core/a", Operation::Create));
    assert_eq!(p.steps, vec![ActionStep::ApplyDesired]);
    assert_eq!(p.apply, vec![0, 1]);
    assert_eq!(p.conclusion, Ok(Finish::Record));
}

#[test]
fn create_declarative_success_updates_state() {
    let idx = index(vec![("core/a", ComponentMode::Declarative)]);
    let desired = vec![package("package:git", "git")];
    let g = graph(vec![("core/a", vec![package("package:git", "git")])]);
    let mut st = State::empty();
    let p = plan_action(&idx, &g, &st, &action("core/a", Operation::Create));
    let applied = applied_resources("core/a", &desired, &p.apply, vec![applied_resource("core/a", &desired[0], "")]);
    let r = settle_action(&mut st, "core/a", &p, vec![applied]);
    assert_eq!(r, Ok(()));
    let cs = st.components.get("core/a").unwrap();
    assert_eq!(cs.resources.len(), 1);
    assert_eq!(cs.resources[0].id, "package:git");
}

#[test]
fn create_declarative_resource_fail_leaves_state() {
    let idx = index(vec![("core/a", ComponentMode::Declarative)]);
    let desired = vec![package("package:git", "git")];
    let g = graph(vec![("core/a", vec![package("package:git", "git")])]);
    let mut st = State::empty();
    let p = plan_action(&idx, &g, &st, &action("core/a", Operation::Create));
    let applied = applied_resources("core/a", &desired, &p.apply, vec![Err("fail".to_string())]);
    assert_eq!(
        applied,
        Err(ActionError::Resource { resource_id: "package:git".to_string(), error: "[core/a] resource 'package:git' failed: fail".to_string() })
    );
    let r = settle_action(&mut st, "core/a", &p, vec![applied]);
    assert!(matches!(r, Err(ActionError::Resource { .. })));
    assert!(st.components.get("core/a").is_none());
    let mut report = ExecutorReport::default();
    let events = record_action(&mut report, "core/a", Operation::Create, r);
    assert_eq!(events.len(), 2);
    assert!(matches!(&events[0], Event::ResourceFailed { component_id, resource_id, .. } if component_id == "core/a" && resource_id == "package:git"));
    assert!(matches!(&events[1], Event::ComponentFailed { id, .. } if id == "core/a"));
    assert_eq!(report.failed.len(), 1);
    assert_eq!(report.failed[0].operation, "Create");
    assert!(report.executed.is_empty());
}

#[test]
fn destroy_declarative_success_removes_state() {
    let idx = index(vec![("core/a", ComponentMode::Declarative)]);
    let g = graph(vec![]);
    let mut st = state_with("core/a", vec![package_state("package:git", "git")]);
    let p = plan_action(&idx, &g, &st, &action("core/a", Operation::Destroy));
    assert_eq!(p.steps, vec![ActionStep::RemoveRecorded]);
    assert_eq!(p.conclusion, Ok(Finish::Forget));
    let recorded = &st.components.get("core/a").unwrap().resources;
    match removal_of(&recorded[0]) {
        Removal::Backend { backend, request } => {
            assert_eq!(backend.as_str(), "core/brew");
            assert_eq!(request.id, "package:git");
        }
        other => panic!("unexpected: {other:?}"),
    }
    let removed = removed_resources("core/a", recorded, vec![Ok(())]);
    let r = settle_action(&mut st, "core/a", &p, vec![removed]);
    assert_eq!(r, Ok(()));
    assert!(st.components.get("core/a").is_none());
}

#[test]
fn destroy_resource_fail_leaves_state_unchanged() {
    let idx = index(vec![("core/a", ComponentMode::Declarative)]);
    let g = graph(vec![]);
    let mut st = state_with("core/a", vec![package_state("package:git", "git")]);
    let p = plan_action(&idx, &g, &st, &action("core/a", Operation::Destroy));
    let recorded = &st.components.get("core/a").unwrap().resources;
    let removed = removed_resources("core/a", recorded, vec![Err("fail".to_string())]);
    let r = settle_action(&mut st, "core/a", &p, vec![removed]);
    assert_eq!(
        r,
        Err(ActionError::Resource {
            resource_id: "package:git".to_string(),
            error: "[core/a] resource 'package:git' remove failed: fail".to_string()
        })
    );
    assert_eq!(st.components.get("core/a").unwrap().resources.len(), 1);
}

#[test]
fn failed_component_does_not_stop_next_component() {
    let idx = index(vec![("core/a", ComponentMode::Script), ("core/b", ComponentMode::Script)]);
    let g = graph(vec![]);
    let mut st = State::empty();
    let mut report = ExecutorReport::default();
    let pa = plan_action(&idx, &g, &st, &action("core/a", Operation::Create));
    let ra = settle_action(
        &mut st,
        "core/a",
        &pa,
        vec![script_step(Err(ComponentHostError::ScriptFailed { exit_code: 1, stderr: "boom".to_string() }))],
    );
    record_action(&mut report, "core/a", Operation::Create, ra);
    let pb = plan_action(&idx, &g, &st, &action("core/b", Operation::Create));
    let rb = settle_action(&mut st, "core/b", &pb, vec![script_step(Ok(ComponentOutput { stdout: String::new(), stderr: String::new() }))]);
    let events = record_action(&mut report, "core/b", Operation::Create, rb);
    assert!(matches!(&events[0], Event::ComponentDone { id } if id == "core/b"));
    assert_eq!(report.failed.len(), 1);
    assert_eq!(report.failed[0].error, "component script failed (exit 1): boom");
    assert_eq!(report.executed.len(), 1);
    assert!(st.components.get("core/a").is_none());
    assert_eq!(st.components.get("core/b").unwrap().resources.len(), 0);
}

#[test]
fn strengthen_adds_resources_to_existing_state() {
    let idx = index(vec![("core/a", ComponentMode::Declarative)]);
    let desired = vec![package("package:git", "git"), package("package:jq", "jq")];
    let g = graph(vec![("core/a", vec![package("package:git", "git"), package("package:jq", "jq")])]);
    let mut st = state_with("core/a", vec![package_state("package:git", "git")]);
    let act = PlanAction {
        component: cid("core/a"),
        operation: Operation::Strengthen,
        details: Some(ActionDetails::Strengthen(StrengthenDetails {
            add_resources: vec![ResourceRef { kind: "package".to_string(), id: "package:jq".to_string() }],
        })),
    };
    let p = plan_action(&idx, &g, &st, &act);
    assert_eq!(p.apply, vec![1]);
    assert_eq!(p.conclusion, Ok(Finish::Extend));
    let applied = applied_resources("core/a", &desired, &p.apply, vec![applied_resource("core/a", &desired[1], "")]);
    assert_eq!(settle_action(&mut st, "core/a", &p, vec![applied]), Ok(()));
    let ids: Vec<&str> = st.components.get("core/a").unwrap().resources.iter().map(|r| r.id.as_str()).collect();
    assert_eq!(ids, vec!["package:git", "package:jq"]);
}

#[test]
fn strengthen_without_details_fails() {
    let idx = index(vec![("core/a", ComponentMode::Declarative)]);
    let g = graph(vec![("core/a", vec![])]);
    let mut st = State::empty();
    let p = plan_action(&idx, &g, &st, &action("core/a", Operation::Strengthen));
    assert_eq!(p.conclusion, Err(ActionFault::StrengthenDetailsMissing));
    assert_eq!(
        settle_action(&mut st, "core/a", &p, vec![]),
        Err(ActionError::Component { error: "strengthen action missing add_resources details".to_string() })
    );
}

#[test]
fn create_script_component_records_empty_resources() {
    let idx = index(vec![("core/s", ComponentMode::Script)]);
    let g = graph(vec![]);
    let mut st = State::empty();
    let p = plan_action(&idx, &g, &st, &action("core/s", Operation::Create));
    assert_eq!(p.steps, vec![ActionStep::RunScript(ComponentOp::Install)]);
    let out = script_step(Ok(ComponentOutput { stdout: "x".to_string(), stderr: String::new() }));
    assert_eq!(settle_action(&mut st, "core/s", &p, vec![out]), Ok(()));
    assert_eq!(st.components.get("core/s").unwrap().resources.len(), 0);
}

#[test]
fn replace_script_runs_uninstall_then_install() {
    let idx = index(vec![("core/s", ComponentMode::Script)]);
    let g = graph(vec![]);
    let st = State::empty();
    let p = plan_action(&idx, &g, &st, &action("core/s", Operation::Replace));
    assert_eq!(p.steps, vec![ActionStep::RunScript(ComponentOp::Uninstall), ActionStep::RunScript(ComponentOp::Install)]);
    let p = plan_action(&idx, &g, &st, &action("core/s", Operation::ReplaceBackend));
    assert_eq!(p.conclusion, Ok(Finish::Record));
}

#[test]
fn missing_component_fails_action() {
    let idx = index(vec![]);
    let g = graph(vec![]);
    let mut st = State::empty();
    let p = plan_action(&idx, &g, &st, &action("core/x", Operation::Create));
    assert!(p.steps.is_empty());
    assert_eq!(
        settle_action(&mut st, "core/x", &p, vec![]),
        Err(ActionError::Component { error: "component not found in index: core/x".to_string() })
    );
}

#[test]
fn managed_script_create_records_tool_resource_on_verify_success() {
    let idx = index(vec![("core/m", ComponentMode::ManagedScript)]);
    let desired = vec![tool_desired("tool:t")];
    let g = graph(vec![("core/m", vec![tool_desired("tool:t")])]);
    let mut st = State::empty();
    let p = plan_action(&idx, &g, &st, &action("core/m", Operation::Create));
    assert_eq!(p.steps, vec![ActionStep::RunScript(ComponentOp::Install), ActionStep::VerifyTools]);
    let facts = ToolObservedFacts { resolved_path: Some("/opt/t".to_string()), version: None };
    let verified = verified_tools("core/m", &desired, vec![Ok(facts.clone())]);
    let ok = script_step(Ok(ComponentOutput { stdout: String::new(), stderr: String::new() }));
    assert_eq!(settle_action(&mut st, "core/m", &p, vec![ok, verified]), Ok(()));
    let rs = &st.components.get("core/m").unwrap().resources;
    match &rs[0].kind {
        ResourceKind::Tool { tool } => assert_eq!(tool.observed, facts),
        other => panic!("unexpected: {other:?}"),
    }
}

#[test]
fn managed_script_create_verify_fail_leaves_state_unchanged() {
    let desired = vec![tool_desired("tool:t")];
    let err = ToolVerifyError::IdentityNotFound { resource_id: "tool:t".to_string(), reason: "gone".to_string() };
    let r = verified_tools("core/m", &desired, vec![Err(err)]);
    assert_eq!(
        r,
        Err(ActionError::Resource {
            resource_id: "tool:t".to_string(),
            error: "[core/m] tool 'tool:t' verify failed: tool 'tool:t' identity check failed: gone".to_string()
        })
    );
    let non_tool = vec![package("package:git", "git")];
    assert_eq!(
        verified_tools("core/m", &non_tool, vec![]),
        Err(ActionError::Component { error: "[core/m] managed_script resource 'package:git' has non-tool kind".to_string() })
    );
}

#[test]
fn managed_script_destroy_checks_absence() {
    let idx = index(vec![("core/m", ComponentMode::ManagedScript)]);
    let g = graph(vec![]);
    let mut st = state_with("core/m", vec![package_state("package:x", "x"), tool_state("tool:t", "/opt/t")]);
    let p = plan_action(&idx, &g, &st, &action("core/m", Operation::Destroy));
    assert_eq!(
        p.steps,
        vec![ActionStep::RunScript(ComponentOp::Uninstall), ActionStep::CheckAbsence { index: 1, after_uninstall: false }]
    );
    let recorded = &st.components.get("core/m").unwrap().resources;
    let failed = absence_step("core/m", recorded, 1, false, true);
    assert_eq!(
        failed,
        Err(ActionError::Resource {
            resource_id: "tool:t".to_string(),
            error: "[core/m] tool 'tool:t' absence check failed: tool 'tool:t' absence check failed: '/opt/t' still exists".to_string()
        })
    );
    let gone = absence_step("core/m", recorded, 1, false, false);
    let ok = script_step(Ok(ComponentOutput { stdout: String::new(), stderr: String::new() }));
    assert_eq!(settle_action(&mut st, "core/m", &p, vec![ok, gone]), Ok(()));
    assert!(st.components.get("core/m").is_none());
}

#[test]
fn managed_script_replace_checks_after_uninstall() {
    let idx = index(vec![("core/m", ComponentMode::ManagedScript)]);
    let g = graph(vec![("core/m", vec![tool_desired("tool:t")])]);
    let st = state_with("core/m", vec![tool_state("tool:t", "/opt/t")]);
    let p = plan_action(&idx, &g, &st, &action("core/m", Operation::Replace));
    assert_eq!(
        p.steps,
        vec![
            ActionStep::RunScript(ComponentOp::Uninstall),
            ActionStep::CheckAbsence { index: 0, after_uninstall: true },
            ActionStep::RunScript(ComponentOp::Install),
            ActionStep::VerifyTools
        ]
    );
    let p = plan_action(&idx, &g, &st, &action("core/m", Operation::ReplaceBackend));
    assert_eq!(p.conclusion, Err(ActionFault::ReplaceBackendOnManagedScript));
    let p = plan_action(&idx, &g, &st, &action("core/m", Operation::Strengthen));
    assert_eq!(p.conclusion, Err(ActionFault::StrengthenOnManagedScript));
}

#[test]
fn applied_fs_and_tool_resources() {
    let fs = DesiredResource {
        id: "fs:rc".to_string(),
        kind: DesiredResourceKind::Fs { source: None, path: "~/.rc".to_string(), entry_type: drg::FsEntryType::File, op: drg::FsOp::Link },
    };
    let r = applied_resource("core/a", &fs, "/home/u/.rc").unwrap();
    assert_eq!(
        r.kind,
        ResourceKind::Fs {
            fs: FsDetails { path: "/home/u/.rc".to_string(), entry_type: state::FsEntryType::Symlink, op: state::FsOp::Link }
        }
    );
    let copy_dir = DesiredResource {
        id: "fs:d".to_string(),
        kind: DesiredResourceKind::Fs { source: None, path: "/x/d".to_string(), entry_type: drg::FsEntryType::Dir, op: drg::FsOp::Copy },
    };
    match applied_resource("core/a", &copy_dir, "/x/d").unwrap().kind {
        ResourceKind::Fs { fs } => assert_eq!(fs.entry_type, state::FsEntryType::Dir),
        other => panic!("unexpected: {other:?}"),
    }
    assert_eq!(
        applied_resource("core/a", &tool_desired("tool:t"), ""),
        Err("[core/a] resource 'tool:t': tool resources must be handled by managed_script executor, not apply_one_resource".to_string())
    );
    match removal_of(&tool_state("tool:t", "/p")) {
        Removal::Refused { error } => assert_eq!(
            error,
            "resource 'tool:t': tool resources must be handled by managed_script executor, not remove_one_state_resource"
        ),
        other => panic!("unexpected: {other:?}"),
    }
}

#[test]
fn home_expansion_and_sources() {
    assert_eq!(expand_home("~/.zshrc", Some("/home/u")), "/home/u/.zshrc");
    assert_eq!(expand_home("~\\x", Some("C:/Users/u")), "C:/Users/u/x");
    assert_eq!(expand_home("~/.zshrc", None), "~/.zshrc");
    assert_eq!(expand_home("/etc/x", Some("/home/u")), "/etc/x");
    assert_eq!(file_name("/home/u/.zshrc"), Some(".zshrc".to_string()));
    assert_eq!(file_name("/a/b/."), Some("b".to_string()));
    assert_eq!(file_name("/a/.."), None);
    assert_eq!(file_name("/"), None);
    assert_eq!(fs_source_path("/src/c", &None, "/home/u/.zshrc", "~/.zshrc"), Ok("/src/c/files/.zshrc".to_string()));
    assert_eq!(fs_source_path("/src/c", &Some("cfg/z".to_string()), "/h/.z", "~/.z"), Ok("/src/c/cfg/z".to_string()));
    assert_eq!(fs_source_path("/src/c", &None, "/", "/"), Err("cannot determine basename of path '/'".to_string()));
}

#[test]
fn backend_delta_merge_records_artifact() {
    let mut ctx = ExecutionEnvContext::new();
    let mut artifacts = Vec::new();
    let delta = ExecutionEnvDelta {
        mutations: vec![
            EnvMutation::SetVar { key: "A".to_string(), value: "1".to_string() },
            EnvMutation::PrependPath { key: "PATH".to_string(), entries: vec![PathEntry::new("/opt/bin")] },
            EnvMutation::Unset { key: "B".to_string() },
        ],
        evidence: EnvEvidence::StaticDefault,
    };
    merge_backend_delta(delta, "pre", "core/brew", "core/a", &mut ctx, Platform::Linux, &mut artifacts);
    assert_eq!(artifacts.len(), 1);
    assert_eq!(artifacts[0].phase, "pre");
    assert_eq!(artifacts[0].contributor_key, "core/brew");
    assert_eq!(
        artifacts[0].changed_vars,
        vec![
            ("A".to_string(), "1".to_string()),
            ("PATH".to_string(), "/opt/bin".to_string()),
            ("B".to_string(), "".to_string())
        ]
    );
    assert_eq!(ctx.vars.get("PATH").unwrap(), "/opt/bin");
}

#[test]
fn contributor_failures_and_warnings() {
    let mut ctx = ExecutionEnvContext::new();
    let mut artifacts = Vec::new();
    let r = contributor_outcome("mise", true, Err(ContributorError::new("x")), "pre", "core/a", &mut ctx, Platform::Linux, &mut artifacts);
    assert_eq!(r, Err("required contributor 'mise' failed: contributor error: x".to_string()));
    let r = contributor_outcome("mise", false, Err(ContributorError::new("x")), "pre", "core/a", &mut ctx, Platform::Linux, &mut artifacts);
    assert_eq!(r, Ok(Some(Event::ContributorWarning { backend_id: "mise".to_string(), reason: "contributor error: x".to_string() })));
    assert!(artifacts.is_empty());
    assert_eq!(
        hook_warning("core/brew", "env_pre", "boom"),
        Event::ContributorWarning { backend_id: "core/brew".to_string(), reason: "env_pre failed: boom".to_string() }
    );
}

#[test]
fn contributor_registry_lookup() {
    let mut reg: ContributorRegistry<u32> = ContributorRegistry::new();
    assert!(reg.pre_for_backend("core/brew").is_none());
    reg.register_pre_action("core/brew", 7);
    reg.register_named("post", 9);
    assert_eq!(reg.pre_for_backend("core/brew"), Some(&7));
    assert_eq!(reg.named("post"), Some(&9));
    assert!(reg.named("core/brew").is_none());
}

#[test]
fn executor_error_messages() {
    assert_eq!(ExecutorError::StateCommitFailed { reason: "disk".to_string() }.message(), "state commit failed: disk");
    assert_eq!(
        ExecutorError::RequiredContributorFailed { backend_id: "b".to_string(), reason: "r".to_string() }.message(),
        "required contributor failed for backend 'b': r"
    );
}

#[test]
fn create_declarative_resource_fail_emits_component_failed() {
    let idx = index(vec![("core/git", ComponentMode::Declarative)]);
    let desired = vec![package("package:git", "git")];
    let g = graph(vec![("core/git", vec![package("package:git", "git")])]);
    let mut st = State::empty();
    let p = plan_action(&idx, &g, &st, &action("core/git", Operation::Create));
    let applied = applied_resources("core/git", &desired, &p.apply, vec![Err("backend failed".to_string())]);
    let r = settle_action(&mut st, "core/git", &p, vec![applied]);
    let mut report = ExecutorReport::default();
    let events = record_action(&mut report, "core/git", Operation::Create, r);
    assert!(report.executed.is_empty());
    assert_eq!(report.failed.len(), 1);
    assert!(!st.components.contains_key("core/git"));
    assert!(events.iter().any(|e| matches!(e, Event::ResourceFailed { .. })), "expected ResourceFailed event");
    assert!(events.iter().any(|e| matches!(e, Event::ComponentFailed { .. })), "expected ComponentFailed event");
}

#[test]
fn replace_declarative_updates_state() {
    let idx = index(vec![("core/git", ComponentMode::Declarative)]);
    let mut st = state_with("core/git", vec![package_state("package:git", "git")]);
    let apt = DesiredResource {
        id: "package:git".to_string(),
        kind: DesiredResourceKind::Package { name: "git".to_string(), desired_backend: bid("core/apt") },
    };
    let desired = vec![DesiredResource { id: apt.id.clone(), kind: DesiredResourceKind::Package { name: "git".to_string(), desired_backend: bid("core/apt") } }];
    let g = graph(vec![("core/git", vec![apt])]);
    let p = plan_action(&idx, &g, &st, &action("core/git", Operation::Replace));
    assert_eq!(p.steps, vec![ActionStep::RemoveRecorded, ActionStep::ApplyDesired]);
    let recorded = &st.components.get("core/git").unwrap().resources;
    let removed = removed_resources("core/git", recorded, vec![Ok(())]);
    let applied = applied_resources("core/git", &desired, &p.apply, vec![applied_resource("core/git", &desired[0], "")]);
    let r = settle_action(&mut st, "core/git", &p, vec![removed, applied]);
    let mut report = ExecutorReport::default();
    record_action(&mut report, "core/git", Operation::Replace, r);
    assert_eq!(report.executed.len(), 1);
    match &st.components.get("core/git").unwrap().resources[0].kind {
        ResourceKind::Package { backend, .. } => assert_eq!(backend.as_str(), "core/apt"),
        _ => panic!("expected package"),
    }
}

#[test]
fn managed_script_destroy_removes_component_from_state() {
    let idx = index(vec![("core/m", ComponentMode::ManagedScript)]);
    let g = graph(vec![]);
    let mut st = state_with("core/m", vec![tool_state("tool:t", "/opt/removed-tool")]);
    let p = plan_action(&idx, &g, &st, &action("core/m", Operation::Destroy));
    let recorded = &st.components.get("core/m").unwrap().resources;
    let gone = absence_step("core/m", recorded, 0, false, false);
    let ok = script_step(Ok(ComponentOutput { stdout: String::new(), stderr: String::new() }));
    let r = settle_action(&mut st, "core/m", &p, vec![ok, gone]);
    let mut report = ExecutorReport::default();
    record_action(&mut report, "core/m", Operation::Destroy, r);
    assert_eq!(report.executed.len(), 1);
    assert!(!st.components.contains_key("core/m"));
}

#[test]
fn managed_script_destroy_absence_check_fail_leaves_state() {
    let idx = index(vec![("core/m", ComponentMode::ManagedScript)]);
    let g = graph(vec![]);
    let mut st = state_with("core/m", vec![tool_state("tool:t", "/opt/still-there")]);
    let p = plan_action(&idx, &g, &st, &action("core/m", Operation::Destroy));
    let recorded = &st.components.get("core/m").unwrap().resources;
    let present = absence_step("core/m", recorded, 0, false, true);
    let ok = script_step(Ok(ComponentOutput { stdout: String::new(), stderr: String::new() }));
    let r = settle_action(&mut st, "core/m", &p, vec![ok, present]);
    let mut report = ExecutorReport::default();
    record_action(&mut report, "core/m", Operation::Destroy, r);
    assert_eq!(report.failed.len(), 1);
    assert!(st.components.contains_key("core/m"), "state must be kept when the tool is still present");
}

#[test]
fn managed_script_replace_reinstalls_and_updates_state() {
    let idx = index(vec![("core/m", ComponentMode::ManagedScript)]);
    let desired = vec![tool_desired("tool:t")];
    let g = graph(vec![("core/m", vec![tool_desired("tool:t")])]);
    let mut st = state_with("core/m", vec![tool_state("tool:t", "/opt/old")]);
    let p = plan_action(&idx, &g, &st, &action("core/m", Operation::Replace));
    let recorded = &st.components.get("core/m").unwrap().resources;
    let gone = absence_step("core/m", recorded, 0, true, false);
    let ok = || script_step(Ok(ComponentOutput { stdout: String::new(), stderr: String::new() }));
    let facts = ToolObservedFacts { resolved_path: Some("/opt/t".to_string()), version: None };
    let verified = verified_tools("core/m", &desired, vec![Ok(facts)]);
    let r = settle_action(&mut st, "core/m", &p, vec![ok(), gone, ok(), verified]);
    let mut report = ExecutorReport::default();
    record_action(&mut report, "core/m", Operation::Replace, r);
    assert_eq!(report.executed.len(), 1);
    let resources = &st.components.get("core/m").unwrap().resources;
    assert_eq!(resources.len(), 1);
    match &resources[0].kind {
        ResourceKind::Tool { tool } => assert_eq!(tool.observed.resolved_path.as_deref(), Some("/opt/t")),
        _ => panic!("expected tool"),
    }
}
