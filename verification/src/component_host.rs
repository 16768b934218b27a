//! Component host: running the install and uninstall scripts of script-mode
//! components.
//!
//! A script receives its context through environment variables
//! (`LOADOUT_COMPONENT_ID`, `LOADOUT_CONFIG_HOME`, `LOADOUT_DATA_HOME`,
//! `LOADOUT_STATE_HOME`); exit code 0 is success, and standard error is
//! captured. The caller probes the filesystem and runs the process; this
//! module names the script, builds the command line and judges the outcome.
use vstd::prelude::*;
use crate::component_index::ComponentMeta;
use crate::id::CanonicalComponentId;
use crate::path::path_join;
use crate::platform::{Dirs, Platform};
use crate::script_host::{exit_code_of, host_outcome, script_path, will_spawn, HostFault, ProcessExit, ScriptCommand, ScriptProbe};
use crate::text::{concat2, signed_decimal, signed_decimal_string, trim_exec};

verus! {

/// The output of a successfully executed component script.
#[derive(Debug, Clone, PartialEq)]
pub struct ComponentOutput {
    pub stdout: String,
    pub stderr: String,
}

/// The operation to perform on a component.
#[derive(Debug, Clone, Copy, PartialEq, Eq)]
pub enum ComponentOp {
    Install,
    Uninstall,
}

/// The script file name of `op` on `platform`: `install`/`uninstall`, with
/// `.ps1` on Windows and `.sh` elsewhere.
pub open spec fn script_name_spec(op: ComponentOp, platform: Platform) -> Seq<char> {
    let base = match op {
        ComponentOp::Install => "install"@,
        ComponentOp::Uninstall => "uninstall"@,
    };
    let ext = match platform {
        Platform::Windows => ".ps1"@,
        _ => ".sh"@,
    };
    base + ext
}

impl ComponentOp {
    /// The script filename for this operation, platform-appropriate.
    pub fn script_name(&self, platform: &Platform) -> (r: String)
        ensures
            r@ == script_name_spec(*self, *platform),
    {
        let base = match self {
            ComponentOp::Install => "install",
            ComponentOp::Uninstall => "uninstall",
        };
        let ext = match platform {
            Platform::Windows => ".ps1",
            Platform::Linux | Platform::Wsl => ".sh",
        };
        concat2(base, ext)
    }
}

/// Errors produced by the component host.
#[derive(Debug, Clone, PartialEq)]
pub enum ComponentHostError {
    /// The required script is absent.
    ScriptNotFound { path: String },
    /// The component's source directory does not exist.
    SourceDirNotFound { path: String },
    /// The script process could not be spawned.
    SpawnFailed { reason: String },
    /// The script exited unsuccessfully.
    ScriptFailed { exit_code: i32, stderr: String },
}

impl View for ComponentHostError {
    type V = HostFault;

    open spec fn view(&self) -> HostFault {
        match self {
            ComponentHostError::ScriptNotFound { path } => HostFault::ScriptNotFound { path: path@ },
            ComponentHostError::SourceDirNotFound { path } => HostFault::SourceDirNotFound { path: path@ },
            ComponentHostError::SpawnFailed { reason } => HostFault::SpawnFailed { reason: reason@ },
            ComponentHostError::ScriptFailed { exit_code, stderr } => HostFault::ScriptFailed { exit_code: *exit_code, stderr: stderr@ },
        }
    }
}

/// The message of a component host fault.
pub open spec fn component_host_message(f: HostFault) -> Seq<char> {
    match f {
        HostFault::ScriptNotFound { path } => "component script not found: "@ + path,
        HostFault::SourceDirNotFound { path } => "component source directory not found: "@ + path,
        HostFault::SpawnFailed { reason } => "failed to spawn component script: "@ + reason,
        HostFault::ScriptFailed { exit_code, stderr } =>
            "component script failed (exit "@ + signed_decimal(exit_code as int) + "): "@ + stderr,
    }
}

impl ComponentHostError {
    /// The human-readable message.
    pub fn message(&self) -> (r: String)
        ensures
            r@ == component_host_message(self@),
    {
        match self {
            ComponentHostError::ScriptNotFound { path } => concat2("component script not found: ", path.as_str()),
            ComponentHostError::SourceDirNotFound { path } => concat2("component source directory not found: ", path.as_str()),
            ComponentHostError::SpawnFailed { reason } => concat2("failed to spawn component script: ", reason.as_str()),
            ComponentHostError::ScriptFailed { exit_code, stderr } => {
                let code = signed_decimal_string(*exit_code as i64);
                let mut s = concat2("component script failed (exit ", code.as_str());
                s.append("): ");
                s.append(stderr.as_str());
                s
            },
        }
    }
}

/// The view of a component host result.
pub open spec fn component_result_view(r: Result<ComponentOutput, ComponentHostError>) -> Result<(Seq<char>, Seq<char>), HostFault> {
    match r {
        Ok(o) => Ok((o.stdout@, o.stderr@)),
        Err(e) => Err(e@),
    }
}

/// The path of the script of `op` for the component in `meta`.
pub open spec fn component_script_path(meta: &ComponentMeta, op: ComponentOp, platform: Platform) -> Seq<char> {
    path_join(meta.source_dir@, script_name_spec(op, platform))
}

/// The path of the script of `op` for the component in `meta` (executable).
pub fn component_script(meta: &ComponentMeta, op: ComponentOp, platform: &Platform) -> (r: String)
    ensures
        r@ == component_script_path(meta, op, *platform),
{
    let name = op.script_name(platform);
    script_path(meta.source_dir.as_str(), name.as_str())
}

/// The command line that runs `script` on `platform`: `bash <script>`, or on
/// Windows `powershell -ExecutionPolicy Bypass -File <script>`; with the
/// component id and the config, data and state homes injected.
pub fn script_command(script: &str, component_id: &CanonicalComponentId, dirs: &Dirs, platform: &Platform) -> (r: ScriptCommand)
    ensures
        r.program@ == (match *platform { Platform::Windows => "powershell"@, _ => "bash"@ }),
        r.args@.map_values(|a: String| a@) == (match *platform {
            Platform::Windows => seq!["-ExecutionPolicy"@, "Bypass"@, "-File"@, script@],
            _ => seq![script@],
        }),
        r.env@.map_values(|e: (String, String)| (e.0@, e.1@)) == seq![
            ("LOADOUT_COMPONENT_ID"@, component_id@),
            ("LOADOUT_CONFIG_HOME"@, dirs.config_home@),
            ("LOADOUT_DATA_HOME"@, dirs.data_home@),
            ("LOADOUT_STATE_HOME"@, dirs.state_home@),
        ],
{
    let (program, args) = match platform {
        Platform::Windows => (
            "powershell".to_owned(),
            vec!["-ExecutionPolicy".to_owned(), "Bypass".to_owned(), "-File".to_owned(), script.to_owned()],
        ),
        Platform::Linux | Platform::Wsl => ("bash".to_owned(), vec![script.to_owned()]),
    };
    let env = vec![
        ("LOADOUT_COMPONENT_ID".to_owned(), component_id.as_str().to_owned()),
        ("LOADOUT_CONFIG_HOME".to_owned(), dirs.config_home.clone()),
        ("LOADOUT_DATA_HOME".to_owned(), dirs.data_home.clone()),
        ("LOADOUT_STATE_HOME".to_owned(), dirs.state_home.clone()),
    ];
    proof {
        assert(args@.map_values(|a: String| a@) =~= (match *platform {
            Platform::Windows => seq!["-ExecutionPolicy"@, "Bypass"@, "-File"@, script@],
            _ => seq![script@],
        }));
        assert(env@.map_values(|e: (String, String)| (e.0@, e.1@)) =~= seq![
            ("LOADOUT_COMPONENT_ID"@, component_id@),
            ("LOADOUT_CONFIG_HOME"@, dirs.config_home@),
            ("LOADOUT_DATA_HOME"@, dirs.data_home@),
            ("LOADOUT_STATE_HOME"@, dirs.state_home@),
        ]);
    }
    ScriptCommand { program, args, env }
}

/// Judge a script run of `op`: the source directory and the script are
/// checked first (`probe`), then the process's end (`exit`, consulted only
/// when the script was to be spawned).
fn run_op(
    meta: &ComponentMeta,
    platform: &Platform,
    op: ComponentOp,
    probe: &ScriptProbe,
    exit: Option<Result<ProcessExit, String>>,
) -> (r: Result<ComponentOutput, ComponentHostError>)
    requires
        will_spawn(*probe) ==> exit is Some,
    ensures
        component_result_view(r) == host_outcome(meta.source_dir@, component_script_path(meta, op, *platform), *probe, exit),
{
    if !probe.source_dir_is_dir {
        return Err(ComponentHostError::SourceDirNotFound { path: meta.source_dir.clone() });
    }
    let script = component_script(meta, op, platform);
    if !probe.script_is_file {
        return Err(ComponentHostError::ScriptNotFound { path: script });
    }
    match exit {
        Some(Ok(x)) => {
            if x.success {
                Ok(ComponentOutput { stdout: x.stdout, stderr: x.stderr })
            } else {
                Err(ComponentHostError::ScriptFailed { exit_code: exit_code_of(x.code), stderr: trim_exec(x.stderr.as_str()) })
            }
        },
        Some(Err(e)) => Err(ComponentHostError::SpawnFailed { reason: e }),
        None => Err(ComponentHostError::SpawnFailed { reason: String::new() }),
    }
}

/// Judge a run of the install script (`install.sh`, or `install.ps1` on
/// Windows) of a script-mode component. `probe` is what the filesystem showed
/// of its source directory and script; `exit` is how the process spawned with
/// [`script_command`] (for `component_id` and `dirs`) ended.
pub fn run_install(
    meta: &ComponentMeta,
    component_id: &CanonicalComponentId,
    dirs: &Dirs,
    platform: &Platform,
    probe: &ScriptProbe,
    exit: Option<Result<ProcessExit, String>>,
) -> (r: Result<ComponentOutput, ComponentHostError>)
    requires
        will_spawn(*probe) ==> exit is Some,
    ensures
        component_result_view(r) == host_outcome(meta.source_dir@, component_script_path(meta, ComponentOp::Install, *platform), *probe, exit),
{
    run_op(meta, platform, ComponentOp::Install, probe, exit)
}

/// Judge a run of the uninstall script of a script-mode component; same
/// contract as [`run_install`].
pub fn run_uninstall(
    meta: &ComponentMeta,
    component_id: &CanonicalComponentId,
    dirs: &Dirs,
    platform: &Platform,
    probe: &ScriptProbe,
    exit: Option<Result<ProcessExit, String>>,
) -> (r: Result<ComponentOutput, ComponentHostError>)
    requires
        will_spawn(*probe) ==> exit is Some,
    ensures
        component_result_view(r) == host_outcome(meta.source_dir@, component_script_path(meta, ComponentOp::Uninstall, *platform), *probe, exit),
{
    run_op(meta, platform, ComponentOp::Uninstall, probe, exit)
}

} // verus!
