use loadout::component_index::{CapabilityRef, ComponentIndex, ComponentMeta, ComponentMode, DepSpec};
use loadout::id::CanonicalComponentId;
use loadout::resolver::{resolve, ResolverError};
use loadout::strmap::StrMap;

type IndexEntry<'a> = (&'a str, &'a [&'a str], &'a [&'a str], &'a [&'a str]);

fn make_index(entries: &[IndexEntry<'_>]) -> ComponentIndex {
    let mut components = StrMap::new();
    for &(id, depends, requires, provides) in entries {
        let meta = ComponentMeta {
            spec_version: 1,
            mode: ComponentMode::Script,
            description: None,
            source_dir: format!("/components/{id}"),
            dep: DepSpec {
                depends: depends.iter().map(|s| s.to_string()).collect(),
                requires: requires.iter().map(|s| CapabilityRef { name: s.to_string() }).collect(),
                provides: provides.iter().map(|s| CapabilityRef { name: s.to_string() }).collect(),
            },
            spec: None,
            scripts: None,
            params_schema: None,
        };
        components.insert(id.to_string(), meta);
    }
    ComponentIndex { schema_version: 1, components }
}

fn ids(raw: &[&str]) -> Vec<CanonicalComponentId> {
    raw.iter().map(|s| CanonicalComponentId::new(s).unwrap()).collect()
}

fn as_strs(order: &[CanonicalComponentId]) -> Vec<&str> {
    order.iter().map(|id| id.as_str()).collect()
}

#[test]
fn no_deps() {
    let index = make_index(&[("core/bash", &[], &[], &[]), ("core/git", &[], &[], &[])]);
    let desired = ids(&["core/bash", "core/git"]);
    let order = resolve(&index, &desired).unwrap();
    assert_eq!(order.len(), 2);
    let strs = as_strs(&order);
    assert!(strs.contains(&"core/bash"));
    assert!(strs.contains(&"core/git"));
}

#[test]
fn simple_dependency() {
    let index = make_index(&[("core/git", &[], &[], &[]), ("core/neovim", &["core/git"], &[], &[])]);
    let desired = ids(&["core/neovim", "core/git"]);
    let order = resolve(&index, &desired).unwrap();
    let strs = as_strs(&order);
    let git_pos = strs.iter().position(|&s| s == "core/git").unwrap();
    let nvim_pos = strs.iter().position(|&s| s == "core/neovim").unwrap();
    assert!(git_pos < nvim_pos, "git must come before neovim");
}

#[test]
fn capability_based_dependency() {
    let index = make_index(&[
        ("core/brew", &[], &[], &["package_manager"]),
        ("core/git", &[], &["package_manager"], &[]),
    ]);
    let desired = ids(&["core/brew", "core/git"]);
    let order = resolve(&index, &desired).unwrap();
    let strs = as_strs(&order);
    let brew_pos = strs.iter().position(|&s| s == "core/brew").unwrap();
    let git_pos = strs.iter().position(|&s| s == "core/git").unwrap();
    assert!(brew_pos < git_pos, "brew (provider) must come before git (requirer)");
}

#[test]
fn capability_dependency_reverses_alphabetical_order() {
    let index = make_index(&[
        ("core/a", &[], &["pm"], &[]),
        ("core/z", &[], &[], &["pm"]),
    ]);
    let order = resolve(&index, &ids(&["core/a", "core/z"])).unwrap();
    assert_eq!(as_strs(&order), vec!["core/z", "core/a"]);
}

#[test]
fn diamond_dependency() {
    let index = make_index(&[
        ("core/d", &[], &[], &[]),
        ("core/b", &["core/d"], &[], &[]),
        ("core/c", &["core/d"], &[], &[]),
        ("core/a", &["core/b", "core/c"], &[], &[]),
    ]);
    let desired = ids(&["core/a", "core/b", "core/c", "core/d"]);
    let order = resolve(&index, &desired).unwrap();
    let strs = as_strs(&order);
    let pos = |s| strs.iter().position(|&x| x == s).unwrap();
    assert!(pos("core/d") < pos("core/b"));
    assert!(pos("core/d") < pos("core/c"));
    assert!(pos("core/b") < pos("core/a"));
    assert!(pos("core/c") < pos("core/a"));
    assert_eq!(strs, vec!["core/d", "core/b", "core/c", "core/a"]);
}

#[test]
fn cycle_detected() {
    let index = make_index(&[("core/a", &["core/b"], &[], &[]), ("core/b", &["core/a"], &[], &[])]);
    let desired = ids(&["core/a", "core/b"]);
    let err = resolve(&index, &desired).unwrap_err();
    assert!(matches!(err, ResolverError::Cycle { .. }));
    assert_eq!(err, ResolverError::Cycle { cycle: "core/a → core/b → core/a".to_string() });
    assert_eq!(err.message(), "dependency cycle detected: core/a → core/b → core/a");
}

#[test]
fn self_dependency_is_a_cycle() {
    let index = make_index(&[("core/a", &["core/a"], &[], &[])]);
    let err = resolve(&index, &ids(&["core/a"])).unwrap_err();
    assert_eq!(err, ResolverError::Cycle { cycle: "core/a → core/a".to_string() });
}

#[test]
fn missing_dependency() {
    let index = make_index(&[("core/git", &[], &[], &[]), ("core/neovim", &["core/git"], &[], &[])]);
    let desired = ids(&["core/neovim"]);
    let err = resolve(&index, &desired).unwrap_err();
    assert!(matches!(err, ResolverError::MissingDependency { .. }));
    assert_eq!(
        err.message(),
        "component 'core/neovim' depends on 'core/git', but 'core/git' is not in the desired set"
    );
}

#[test]
fn requires_without_provider_is_soft() {
    let index = make_index(&[("core/git", &[], &["package_manager"], &[])]);
    let desired = ids(&["core/git"]);
    let order = resolve(&index, &desired).unwrap();
    assert_eq!(order.len(), 1);
    assert_eq!(order[0].as_str(), "core/git");
}

#[test]
fn component_not_in_index() {
    let index = make_index(&[]);
    let desired = ids(&["core/ghost"]);
    let err = resolve(&index, &desired).unwrap_err();
    assert!(matches!(err, ResolverError::ComponentNotFound { .. }));
    assert_eq!(err.message(), "component 'core/ghost' is not present in the Component Index");
}

#[test]
fn deterministic_output() {
    let index = make_index(&[("core/a", &[], &[], &[]), ("core/b", &[], &[], &[]), ("core/c", &[], &[], &[])]);
    let desired = ids(&["core/c", "core/a", "core/b"]);
    let order1 = resolve(&index, &desired).unwrap();
    let order2 = resolve(&index, &desired).unwrap();
    assert_eq!(order1, order2);
    assert_eq!(as_strs(&order1), vec!["core/a", "core/b", "core/c"]);
}

#[test]
fn duplicate_desired_entries_appear_once() {
    let index = make_index(&[("core/a", &[], &[], &[])]);
    let order = resolve(&index, &ids(&["core/a", "core/a"])).unwrap();
    assert_eq!(as_strs(&order), vec!["core/a"]);
}

#[test]
fn diamond_comes_out_in_depth_first_postorder() {
    // Start nodes in ascending id order, successors in `depends` order.
    let index = make_index(&[
        ("core/d", &[], &[], &[]),
        ("core/b", &["core/d"], &[], &[]),
        ("core/c", &["core/d"], &[], &[]),
        ("core/a", &["core/c", "core/b"], &[], &[]),
    ]);
    let desired = ids(&["core/d", "core/b", "core/a", "core/c"]);
    let order = resolve(&index, &desired).unwrap();
    assert_eq!(as_strs(&order), vec!["core/d", "core/c", "core/b", "core/a"]);
}
