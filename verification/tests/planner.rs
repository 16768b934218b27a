use loadout::desired_resource_graph::{ComponentDesiredResources, DesiredResource, DesiredResourceGraph, DesiredResourceKind, FsEntryType, FsOp};
use loadout::id::{CanonicalBackendId, CanonicalComponentId};
use loadout::plan::{ActionDetails, Operation};
use loadout::planner::{plan, PlannerError};
use loadout::state::{ComponentState, FsDetails, FsEntryType as SFsEntryType, FsOp as SFsOp, PackageDetails, Resource, ResourceKind, RuntimeDetails, State};
use loadout::strmap::StrMap;

fn backend(s: &str) -> CanonicalBackendId {
    CanonicalBackendId::new(s).unwrap()
}

fn cid(s: &str) -> CanonicalComponentId {
    CanonicalComponentId::new(s).unwrap()
}

fn graph(comps: Vec<(&str, Vec<DesiredResource>)>) -> DesiredResourceGraph {
    let mut components = StrMap::new();
    for (id, resources) in comps {
        components.insert(id.to_string(), ComponentDesiredResources { resources });
    }
    DesiredResourceGraph { schema_version: 1, components }
}

fn pkg(p: &str, be: &str) -> DesiredResource {
    DesiredResource {
        id: format!("package:{p}"),
        kind: DesiredResourceKind::Package { name: p.to_string(), desired_backend: backend(be) },
    }
}

fn runtime(rt: &str, ver: &str, be: &str) -> DesiredResource {
    DesiredResource {
        id: format!("runtime:{rt}"),
        kind: DesiredResourceKind::Runtime { name: rt.to_string(), version: ver.to_string(), desired_backend: backend(be) },
    }
}

fn state_pkg(p: &str, be: &str) -> Resource {
    Resource {
        id: format!("package:{p}"),
        kind: ResourceKind::Package { backend: backend(be), package: PackageDetails { name: p.to_string(), version: None } },
    }
}

fn state_of(comps: Vec<(&str, Vec<Resource>)>) -> State {
    let mut s = State::empty();
    for (id, resources) in comps {
        s.components.insert(id.to_string(), ComponentState { resources });
    }
    s
}

#[test]
fn create_when_not_in_state() {
    let desired = graph(vec![("core/git", vec![pkg("git", "core/brew")])]);
    let state = State::empty();
    let p = plan(&desired, &state, &vec![cid("core/git")]).unwrap();
    assert_eq!(p.actions.len(), 1);
    assert_eq!(p.actions[0].operation, Operation::Create);
    assert_eq!(p.summary.create, 1);
}

#[test]
fn noop_when_identical() {
    let desired = graph(vec![("core/git", vec![pkg("git", "core/brew")])]);
    let state = state_of(vec![("core/git", vec![state_pkg("git", "core/brew")])]);
    let p = plan(&desired, &state, &vec![cid("core/git")]).unwrap();
    assert!(p.actions.is_empty());
    assert_eq!(p.noops.len(), 1);
    assert_eq!(p.noops[0].component.as_str(), "core/git");
}

#[test]
fn destroy_when_not_in_desired() {
    let desired = graph(vec![]);
    let state = state_of(vec![("core/old", vec![state_pkg("old-tool", "core/brew")])]);
    let p = plan(&desired, &state, &vec![]).unwrap();
    assert_eq!(p.actions.len(), 1);
    assert_eq!(p.actions[0].operation, Operation::Destroy);
    assert_eq!(p.summary.destroy, 1);
}

#[test]
fn destroys_come_in_descending_id_order() {
    let desired = graph(vec![]);
    let state = state_of(vec![("core/a", vec![]), ("core/c", vec![]), ("core/b", vec![])]);
    let p = plan(&desired, &state, &vec![]).unwrap();
    let ids: Vec<&str> = p.actions.iter().map(|a| a.component.as_str()).collect();
    assert_eq!(ids, vec!["core/c", "core/b", "core/a"]);
}

#[test]
fn replace_on_runtime_version_mismatch() {
    let desired = graph(vec![("core/node", vec![runtime("node", "20", "core/mise")])]);
    let state = state_of(vec![(
        "core/node",
        vec![Resource {
            id: "runtime:node".to_string(),
            kind: ResourceKind::Runtime {
                backend: backend("core/mise"),
                runtime: RuntimeDetails { name: "node".to_string(), version: "18".to_string() },
            },
        }],
    )]);
    let p = plan(&desired, &state, &vec![cid("core/node")]).unwrap();
    assert_eq!(p.actions.len(), 1);
    assert_eq!(p.actions[0].operation, Operation::Replace);
    match &p.actions[0].details {
        Some(ActionDetails::Replace(d)) => {
            assert_eq!(d.from_version.as_deref(), Some("18"));
            assert_eq!(d.to_version.as_deref(), Some("20"));
        }
        _ => panic!("expected replace details"),
    }
    assert_eq!(p.summary.replace, 1);
}

#[test]
fn replace_backend_mismatch() {
    let desired = graph(vec![("core/git", vec![pkg("git", "core/apt")])]);
    let state = state_of(vec![("core/git", vec![state_pkg("git", "core/brew")])]);
    let p = plan(&desired, &state, &vec![cid("core/git")]).unwrap();
    assert_eq!(p.actions[0].operation, Operation::ReplaceBackend);
    assert_eq!(p.summary.replace, 1);
    assert_eq!(p.summary.replace_backend, 0);
}

#[test]
fn replace_when_recorded_resource_no_longer_desired() {
    let desired = graph(vec![("core/git", vec![])]);
    let state = state_of(vec![("core/git", vec![state_pkg("git", "core/brew")])]);
    let p = plan(&desired, &state, &vec![cid("core/git")]).unwrap();
    assert_eq!(p.actions[0].operation, Operation::Replace);
    match &p.actions[0].details {
        Some(ActionDetails::Replace(d)) => {
            assert_eq!(d.from_version, None);
            assert_eq!(d.to_version, None);
        }
        _ => panic!("expected replace details"),
    }
}

#[test]
fn strengthen_when_new_resource_added() {
    let desired = graph(vec![(
        "core/git",
        vec![
            pkg("git", "core/brew"),
            DesiredResource {
                id: "fs:gitconfig".to_string(),
                kind: DesiredResourceKind::Fs {
                    source: None,
                    path: "~/.gitconfig".to_string(),
                    entry_type: FsEntryType::File,
                    op: FsOp::Link,
                },
            },
        ],
    )]);
    let state = state_of(vec![("core/git", vec![state_pkg("git", "core/brew")])]);
    let p = plan(&desired, &state, &vec![cid("core/git")]).unwrap();
    assert_eq!(p.actions[0].operation, Operation::Strengthen);
    match &p.actions[0].details {
        Some(ActionDetails::Strengthen(d)) => {
            assert_eq!(d.add_resources.len(), 1);
            assert_eq!(d.add_resources[0].id, "fs:gitconfig");
            assert_eq!(d.add_resources[0].kind, "fs");
        }
        _ => panic!("expected strengthen details"),
    }
    assert_eq!(p.summary.strengthen, 1);
}

#[test]
fn replace_on_fs_path_change() {
    let desired = graph(vec![(
        "core/git",
        vec![DesiredResource {
            id: "fs:gitconfig".to_string(),
            kind: DesiredResourceKind::Fs {
                source: None,
                path: "~/.gitconfig_new".to_string(),
                entry_type: FsEntryType::File,
                op: FsOp::Link,
            },
        }],
    )]);
    let state = state_of(vec![(
        "core/git",
        vec![Resource {
            id: "fs:gitconfig".to_string(),
            kind: ResourceKind::Fs {
                fs: FsDetails { path: "~/.gitconfig".to_string(), entry_type: SFsEntryType::Symlink, op: SFsOp::Link },
            },
        }],
    )]);
    let p = plan(&desired, &state, &vec![cid("core/git")]).unwrap();
    assert_eq!(p.actions[0].operation, Operation::Replace);
}

#[test]
fn ordering_destroy_then_create() {
    let desired = graph(vec![("core/new", vec![pkg("new-tool", "core/brew")])]);
    let state = state_of(vec![("core/old", vec![state_pkg("old-tool", "core/brew")])]);
    let p = plan(&desired, &state, &vec![cid("core/new")]).unwrap();
    assert_eq!(p.actions[0].operation, Operation::Destroy);
    assert_eq!(p.actions[1].operation, Operation::Create);
}

#[test]
fn summary_counts() {
    let desired = graph(vec![("core/new", vec![pkg("new", "core/brew")]), ("core/keep", vec![pkg("keep", "core/brew")])]);
    let state2 = state_of(vec![
        ("core/old", vec![state_pkg("old", "core/brew")]),
        ("core/keep", vec![state_pkg("keep", "core/brew")]),
    ]);
    let order = vec![cid("core/new"), cid("core/keep")];
    let p = plan(&desired, &state2, &order).unwrap();
    assert_eq!(p.summary.create, 1);
    assert_eq!(p.summary.destroy, 1);
    assert_eq!(p.noops.len(), 1);
}

#[test]
fn desired_components_missing_from_order_come_last_in_ascending_order() {
    let desired = graph(vec![("core/b", vec![]), ("core/a", vec![]), ("core/z", vec![])]);
    let state = State::empty();
    let p = plan(&desired, &state, &vec![cid("core/z")]).unwrap();
    let ids: Vec<&str> = p.actions.iter().map(|a| a.component.as_str()).collect();
    assert_eq!(ids, vec!["core/z", "core/a", "core/b"]);
}

#[test]
fn order_mismatch_error() {
    let desired = graph(vec![]);
    let err = plan(&desired, &State::empty(), &vec![cid("core/x")]).unwrap_err();
    assert_eq!(err, PlannerError::ComponentOrderMismatch { id: "core/x".to_string() });
    assert_eq!(err.message(), "feature 'core/x' is in the resolved order but not in the DesiredResourceGraph");
}

#[test]
fn duplicated_desired_id_counts_with_its_last_entry() {
    // The later declaration of the same id replaces the earlier one.
    let desired = graph(vec![("core/git", vec![pkg("git", "core/apt"), pkg("git", "core/brew")])]);
    let state = state_of(vec![("core/git", vec![state_pkg("git", "core/brew")])]);
    let p = plan(&desired, &state, &vec![cid("core/git")]).unwrap();
    assert!(p.actions.is_empty());
    assert_eq!(p.noops.len(), 1);
}

#[test]
fn duplicated_record_counts_with_its_last_entry() {
    let desired = graph(vec![("core/git", vec![pkg("git", "core/brew")])]);
    let state = state_of(vec![("core/git", vec![state_pkg("git", "core/brew"), state_pkg("git", "core/apt")])]);
    let p = plan(&desired, &state, &vec![cid("core/git")]).unwrap();
    assert_eq!(p.actions.len(), 1);
    assert_eq!(p.actions[0].operation, Operation::ReplaceBackend);
}

#[test]
fn duplicated_new_id_is_added_once() {
    let desired = graph(vec![(
        "core/git",
        vec![pkg("git", "core/brew"), runtime("node", "20", "core/mise"), runtime("node", "22", "core/mise")],
    )]);
    let state = state_of(vec![("core/git", vec![state_pkg("git", "core/brew")])]);
    let p = plan(&desired, &state, &vec![cid("core/git")]).unwrap();
    assert_eq!(p.actions[0].operation, Operation::Strengthen);
    match &p.actions[0].details {
        Some(ActionDetails::Strengthen(d)) => {
            assert_eq!(d.add_resources.len(), 1);
            assert_eq!(d.add_resources[0].id, "runtime:node");
            assert_eq!(d.add_resources[0].kind, "runtime");
        }
        _ => panic!("expected strengthen details"),
    }
}
