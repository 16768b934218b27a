use loadout::component_host::{self, script_command, ComponentHostError, ComponentOp};
use loadout::component_index::{ComponentMeta, ComponentMode, DepSpec};
use loadout::feature_host::{self, FeatureHostError, FeatureOp};
use loadout::feature_index::{FeatureMeta, FeatureMode};
use loadout::id::CanonicalComponentId;
use loadout::platform::{Dirs, Platform};
use loadout::script_host::{ProcessExit, ScriptProbe};

fn dep() -> DepSpec {
    DepSpec { depends: vec![], requires: vec![], provides: vec![] }
}

fn component_meta(dir: &str) -> ComponentMeta {
    ComponentMeta {
        spec_version: 1,
        mode: ComponentMode::Script,
        description: None,
        source_dir: dir.to_string(),
        dep: dep(),
        params_schema: None,
        spec: None,
        scripts: None,
    }
}

fn feature_meta(dir: &str) -> FeatureMeta {
    FeatureMeta { spec_version: 1, mode: FeatureMode::Script, description: None, source_dir: dir.to_string(), dep: dep(), spec: None }
}

fn dirs() -> Dirs {
    Dirs {
        config_home: "/c".to_string(),
        data_home: "/d".to_string(),
        state_home: "/s".to_string(),
        cache_home: "/k".to_string(),
    }
}

const PRESENT: ScriptProbe = ScriptProbe { source_dir_is_dir: true, script_is_file: true };

fn exit(success: bool, code: Option<i32>, stdout: &str, stderr: &str) -> Option<Result<ProcessExit, String>> {
    Some(Ok(ProcessExit { success, code, stdout: stdout.to_string(), stderr: stderr.to_string() }))
}

#[test]
fn lib_error_messages_are_nonempty() {
    let errors = [
        ComponentHostError::ScriptNotFound { path: "/tmp/install.sh".to_string() },
        ComponentHostError::SourceDirNotFound { path: "/tmp/feat".to_string() },
        ComponentHostError::SpawnFailed { reason: "no sh".to_string() },
        ComponentHostError::ScriptFailed { exit_code: 1, stderr: "boom".to_string() },
    ];
    for e in &errors {
        assert!(!e.message().is_empty(), "empty message: {e:?}");
    }
    let errors = [
        FeatureHostError::ScriptNotFound { path: "/tmp/install.sh".to_string() },
        FeatureHostError::SourceDirNotFound { path: "/tmp/feat".to_string() },
        FeatureHostError::SpawnFailed { reason: "no sh".to_string() },
        FeatureHostError::ScriptFailed { exit_code: 1, stderr: "boom".to_string() },
    ];
    for e in &errors {
        assert!(!e.message().is_empty(), "empty message: {e:?}");
    }
}

#[test]
fn host_messages_exact() {
    assert_eq!(
        ComponentHostError::ScriptFailed { exit_code: -1, stderr: "boom".to_string() }.message(),
        "component script failed (exit -1): boom"
    );
    assert_eq!(FeatureHostError::ScriptNotFound { path: "/x/install.sh".to_string() }.message(), "feature script not found: /x/install.sh");
    assert_eq!(
        FeatureHostError::ScriptFailed { exit_code: 42, stderr: "e".to_string() }.message(),
        "feature script failed (exit 42): e"
    );
}

#[test]
fn component_script_names_per_platform() {
    assert_eq!(ComponentOp::Install.script_name(&Platform::Linux), "install.sh");
    assert_eq!(ComponentOp::Uninstall.script_name(&Platform::Wsl), "uninstall.sh");
    assert_eq!(ComponentOp::Install.script_name(&Platform::Windows), "install.ps1");
    assert_eq!(FeatureOp::Uninstall.script_name(), "uninstall.sh");
}

#[test]
fn component_run_install_outcomes() {
    let meta = component_meta("/src/git");
    let id = CanonicalComponentId::new("core/git").unwrap();
    let missing_dir = ScriptProbe { source_dir_is_dir: false, script_is_file: false };
    assert_eq!(
        component_host::run_install(&meta, &id, &dirs(), &Platform::Linux, &missing_dir, None),
        Err(ComponentHostError::SourceDirNotFound { path: "/src/git".to_string() })
    );
    let missing_script = ScriptProbe { source_dir_is_dir: true, script_is_file: false };
    assert_eq!(
        component_host::run_uninstall(&meta, &id, &dirs(), &Platform::Linux, &missing_script, None),
        Err(ComponentHostError::ScriptNotFound { path: "/src/git/uninstall.sh".to_string() })
    );
    let ok = component_host::run_install(&meta, &id, &dirs(), &Platform::Linux, &PRESENT, exit(true, Some(0), "hi\n", "warn\n")).unwrap();
    assert_eq!(ok.stdout, "hi\n");
    assert_eq!(ok.stderr, "warn\n");
    assert_eq!(
        component_host::run_install(&meta, &id, &dirs(), &Platform::Linux, &PRESENT, exit(false, Some(3), "", "  bad thing \n")),
        Err(ComponentHostError::ScriptFailed { exit_code: 3, stderr: "bad thing".to_string() })
    );
    assert_eq!(
        component_host::run_install(&meta, &id, &dirs(), &Platform::Linux, &PRESENT, exit(false, None, "", "")),
        Err(ComponentHostError::ScriptFailed { exit_code: -1, stderr: "".to_string() })
    );
    assert_eq!(
        component_host::run_install(&meta, &id, &dirs(), &Platform::Linux, &PRESENT, Some(Err("no bash".to_string()))),
        Err(ComponentHostError::SpawnFailed { reason: "no bash".to_string() })
    );
}

#[test]
fn component_command_lines() {
    let id = CanonicalComponentId::new("core/git").unwrap();
    let c = script_command("/src/git/install.ps1", &id, &dirs(), &Platform::Windows);
    assert_eq!(c.program, "powershell");
    assert_eq!(c.args, vec!["-ExecutionPolicy", "Bypass", "-File", "/src/git/install.ps1"]);
    assert_eq!(c.env[0], ("LOADOUT_COMPONENT_ID".to_string(), "core/git".to_string()));
    assert_eq!(c.env[3], ("LOADOUT_STATE_HOME".to_string(), "/s".to_string()));
    let c = script_command("/src/git/install.sh", &id, &dirs(), &Platform::Linux);
    assert_eq!(c.program, "bash");
    assert_eq!(c.args, vec!["/src/git/install.sh"]);
}

#[test]
fn feature_run_outcomes() {
    let meta = feature_meta("/f/zsh/");
    let id = CanonicalComponentId::new("core/zsh").unwrap();
    let missing_script = ScriptProbe { source_dir_is_dir: true, script_is_file: false };
    assert_eq!(
        feature_host::run_install(&meta, &id, &dirs(), &missing_script, None),
        Err(FeatureHostError::ScriptNotFound { path: "/f/zsh/install.sh".to_string() })
    );
    let ok = feature_host::run_uninstall(&meta, &id, &dirs(), &PRESENT, exit(true, Some(0), "", "")).unwrap();
    assert_eq!(ok.stdout, "");
    let c = feature_host::script_command("/f/zsh/install.sh", &id, &dirs());
    assert_eq!(c.env[0], ("LOADOUT_FEATURE_ID".to_string(), "core/zsh".to_string()));
}
