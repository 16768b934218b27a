use loadout::error::{SchemaVersionError, ValidationError};
use loadout::fs::{normalize_path_pub, validate_component_relative_source, ConcreteFsSource};
use loadout::id::{CanonicalBackendId, CanonicalComponentId, SourceId};

#[test]
fn canonical_component_id_valid() {
    let id = CanonicalComponentId::new("core/git").unwrap();
    assert_eq!(id.source(), "core");
    assert_eq!(id.name(), "git");
    assert_eq!(id.as_str(), "core/git");
}

#[test]
fn canonical_component_id_no_slash() {
    assert!(CanonicalComponentId::new("git").is_err());
}

#[test]
fn canonical_component_id_multiple_slashes() {
    assert!(CanonicalComponentId::new("core/local/git").is_err());
}

#[test]
fn canonical_component_id_empty_source() {
    assert!(CanonicalComponentId::new("/git").is_err());
}

#[test]
fn canonical_component_id_empty_name() {
    assert!(CanonicalComponentId::new("core/").is_err());
}

#[test]
fn source_id_valid() {
    let id = SourceId::new("core").unwrap();
    assert_eq!(id.as_str(), "core");
}

#[test]
fn source_id_empty() {
    assert!(SourceId::new("").is_err());
}

#[test]
fn source_id_no_slash_allowed() {
    assert!(SourceId::new("core/local").is_err());
}

#[test]
fn id_error_messages_name_the_reason() {
    let e = CanonicalComponentId::new("a/b/c").unwrap_err();
    assert_eq!(e.message(), "invalid id: canonical id must contain exactly one '/': a/b/c");
    let e = CanonicalBackendId::new("/brew").unwrap_err();
    assert_eq!(e.message(), "invalid id: source part must not be empty in: /brew");
    let e = CanonicalBackendId::new("core/").unwrap_err();
    assert_eq!(e.message(), "invalid id: name part must not be empty in: core/");
    let e = SourceId::new("").unwrap_err();
    assert_eq!(e.message(), "invalid id: source id must not be empty");
    let e = SourceId::new("a/b").unwrap_err();
    assert_eq!(e.message(), "invalid id: source id must not contain '/': a/b");
}

#[test]
fn backend_id_parts() {
    let id = CanonicalBackendId::new("core/brew").unwrap();
    assert_eq!(id.source(), "core");
    assert_eq!(id.name(), "brew");
    let c = id.clone();
    assert_eq!(c, id);
}

#[test]
fn schema_version_error_display() {
    let e = SchemaVersionError { expected: 3, found: 2, context: "state" };
    assert_eq!(e.message(), "state: unsupported schema version 2 (expected 3)");
}

#[test]
fn schema_version_error_multi_digit() {
    let e = SchemaVersionError { expected: 120, found: 4294967295, context: "x" };
    assert_eq!(e.message(), "x: unsupported schema version 4294967295 (expected 120)");
}

#[test]
fn validation_error_missing_field() {
    let e = ValidationError::MissingField { field: "resources".into(), context: "core/git".into() };
    assert_eq!(e.message(), "core/git: missing required field 'resources'");
}

#[test]
fn validation_error_other_variants() {
    let e = ValidationError::InvalidField { field: "f".into(), value: "v".into(), reason: "r".into() };
    assert_eq!(e.message(), "invalid value for 'f': v (r)");
    let e = ValidationError::DuplicateId { id: "x".into(), context: "c".into() };
    assert_eq!(e.message(), "c: duplicate id 'x'");
    let e = ValidationError::RelativePath { path: "p".into(), context: "c".into() };
    assert_eq!(e.message(), "c: path must be absolute, got 'p'");
    let e: ValidationError = SchemaVersionError { expected: 1, found: 0, context: "s" }.into();
    assert_eq!(e.message(), "s: unsupported schema version 0 (expected 1)");
}

#[test]
fn component_relative_valid() {
    let dir = "/home/user/loadout/components/git";
    let result = validate_component_relative_source("files/.gitconfig", dir);
    assert!(result.is_ok());
    assert_eq!(result.unwrap(), "/home/user/loadout/components/git/files/.gitconfig");
}

#[test]
fn component_relative_subdir_valid() {
    let dir = "/home/user/loadout/components/git";
    let result = validate_component_relative_source("files/config/init", dir);
    assert!(result.is_ok());
}

#[test]
fn component_relative_escape_rejected() {
    let dir = "/home/user/loadout/components/git";
    let result = validate_component_relative_source("../other/secret", dir);
    assert!(result.is_err());
    assert!(result.unwrap_err().contains("escapes component directory"));
}

#[test]
fn component_relative_deeply_nested_escape_rejected() {
    let dir = "/home/user/loadout/components/git";
    let result = validate_component_relative_source("files/../../other/secret", dir);
    assert!(result.is_err());
}

#[test]
fn component_relative_dot_within_component() {
    let dir = "/home/user/loadout/components/git";
    let result = validate_component_relative_source("files/./config", dir);
    assert!(result.is_ok());
}

#[test]
fn component_relative_absolute_source_outside_rejected() {
    let dir = "/home/user/loadout/components/git";
    let result = validate_component_relative_source("/etc/passwd", dir);
    assert_eq!(
        result.unwrap_err(),
        "component-relative source '/etc/passwd' escapes component directory '/home/user/loadout/components/git'"
    );
}

#[test]
fn normalize_removes_dotdot() {
    assert_eq!(normalize_path_pub("/a/b/../c"), "/a/c");
}

#[test]
fn normalize_removes_dot() {
    assert_eq!(normalize_path_pub("/a/./b/c"), "/a/b/c");
}

#[test]
fn normalize_keeps_leading_parent_of_relative() {
    assert_eq!(normalize_path_pub("../a/../../b"), "../../b");
    assert_eq!(normalize_path_pub("//a//b/"), "/a/b");
}

#[test]
fn concrete_fs_source_fingerprint_eligibility() {
    let comp = ConcreteFsSource::component_relative("/a/b".to_string());
    assert!(comp.is_fingerprint_eligible());

    let home = ConcreteFsSource::home_relative("/home/user/.config".to_string());
    assert!(!home.is_fingerprint_eligible());

    let abs = ConcreteFsSource::absolute("/etc/config".to_string());
    assert!(!abs.is_fingerprint_eligible());
}

#[test]
fn empty_state() {
    let s = loadout::state::State::empty();
    assert_eq!(s.version, loadout::state::STATE_VERSION);
    assert_eq!(s.components.len(), 0);
}
