//! Feature host: running the `install.sh` and `uninstall.sh` scripts of
//! script-mode features.
//!
//! A script receives its context through environment variables
//! (`LOADOUT_FEATURE_ID`, `LOADOUT_CONFIG_HOME`, `LOADOUT_DATA_HOME`,
//! `LOADOUT_STATE_HOME`); exit code 0 is success, and standard error is
//! captured. The caller probes the filesystem and runs the process; this
//! module names the script, builds the command line and judges the outcome.
use vstd::prelude::*;
use crate::feature_index::FeatureMeta;
use crate::id::CanonicalFeatureId;
use crate::path::path_join;
use crate::platform::Dirs;
use crate::script_host::{exit_code_of, host_outcome, script_path, will_spawn, HostFault, ProcessExit, ScriptCommand, ScriptProbe};
use crate::text::{concat2, signed_decimal, signed_decimal_string, trim_exec};

verus! {

/// The output of a successfully executed feature script.
#[derive(Debug, Clone, PartialEq)]
pub struct FeatureOutput {
    pub stdout: String,
    pub stderr: String,
}

/// The operation to perform on a feature.
#[derive(Debug, Clone, Copy, PartialEq, Eq)]
pub enum FeatureOp {
    Install,
    Uninstall,
}

/// The script file name of `op`: `install.sh` or `uninstall.sh`.
pub open spec fn feature_script_name(op: FeatureOp) -> Seq<char> {
    match op {
        FeatureOp::Install => "install.sh"@,
        FeatureOp::Uninstall => "uninstall.sh"@,
    }
}

impl FeatureOp {
    /// The script filename for this operation.
    pub fn script_name(&self) -> (r: &'static str)
        ensures
            r@ == feature_script_name(*self),
    {
        match self {
            FeatureOp::Install => "install.sh",
            FeatureOp::Uninstall => "uninstall.sh",
        }
    }
}

/// Errors produced by the feature host.
#[derive(Debug, Clone, PartialEq)]
pub enum FeatureHostError {
    /// The required script is absent.
    ScriptNotFound { path: String },
    /// The feature's source directory does not exist.
    SourceDirNotFound { path: String },
    /// The script process could not be spawned.
    SpawnFailed { reason: String },
    /// The script exited unsuccessfully.
    ScriptFailed { exit_code: i32, stderr: String },
}

impl View for FeatureHostError {
    type V = HostFault;

    open spec fn view(&self) -> HostFault {
        match self {
            FeatureHostError::ScriptNotFound { path } => HostFault::ScriptNotFound { path: path@ },
            FeatureHostError::SourceDirNotFound { path } => HostFault::SourceDirNotFound { path: path@ },
            FeatureHostError::SpawnFailed { reason } => HostFault::SpawnFailed { reason: reason@ },
            FeatureHostError::ScriptFailed { exit_code, stderr } => HostFault::ScriptFailed { exit_code: *exit_code, stderr: stderr@ },
        }
    }
}

/// The message of a feature host fault.
pub open spec fn feature_host_message(f: HostFault) -> Seq<char> {
    match f {
        HostFault::ScriptNotFound { path } => "feature script not found: "@ + path,
        HostFault::SourceDirNotFound { path } => "feature source directory not found: "@ + path,
        HostFault::SpawnFailed { reason } => "failed to spawn feature script: "@ + reason,
        HostFault::ScriptFailed { exit_code, stderr } =>
            "feature script failed (exit "@ + signed_decimal(exit_code as int) + "): "@ + stderr,
    }
}

impl FeatureHostError {
    /// The human-readable message.
    pub fn message(&self) -> (r: String)
        ensures
            r@ == feature_host_message(self@),
    {
        match self {
            FeatureHostError::ScriptNotFound { path } => concat2("feature script not found: ", path.as_str()),
            FeatureHostError::SourceDirNotFound { path } => concat2("feature source directory not found: ", path.as_str()),
            FeatureHostError::SpawnFailed { reason } => concat2("failed to spawn feature script: ", reason.as_str()),
            FeatureHostError::ScriptFailed { exit_code, stderr } => {
                let code = signed_decimal_string(*exit_code as i64);
                let mut s = concat2("feature script failed (exit ", code.as_str());
                s.append("): ");
                s.append(stderr.as_str());
                s
            },
        }
    }
}

/// The view of a feature host result.
pub open spec fn feature_result_view(r: Result<FeatureOutput, FeatureHostError>) -> Result<(Seq<char>, Seq<char>), HostFault> {
    match r {
        Ok(o) => Ok((o.stdout@, o.stderr@)),
        Err(e) => Err(e@),
    }
}

/// The path of the script of `op` for the feature in `meta`.
pub open spec fn feature_script_path(meta: &FeatureMeta, op: FeatureOp) -> Seq<char> {
    path_join(meta.source_dir@, feature_script_name(op))
}

/// The path of the script of `op` for the feature in `meta` (executable).
pub fn feature_script(meta: &FeatureMeta, op: FeatureOp) -> (r: String)
    ensures
        r@ == feature_script_path(meta, op),
{
    script_path(meta.source_dir.as_str(), op.script_name())
}

/// The command line that runs `script`: `bash <script>`, with the feature id
/// and the config, data and state homes injected.
pub fn script_command(script: &str, feature_id: &CanonicalFeatureId, dirs: &Dirs) -> (r: ScriptCommand)
    ensures
        r.program@ == "bash"@,
        r.args@.map_values(|a: String| a@) == seq![script@],
        r.env@.map_values(|e: (String, String)| (e.0@, e.1@)) == seq![
            ("LOADOUT_FEATURE_ID"@, feature_id@),
            ("LOADOUT_CONFIG_HOME"@, dirs.config_home@),
            ("LOADOUT_DATA_HOME"@, dirs.data_home@),
            ("LOADOUT_STATE_HOME"@, dirs.state_home@),
        ],
{
    let args = vec![script.to_owned()];
    let env = vec![
        ("LOADOUT_FEATURE_ID".to_owned(), feature_id.as_str().to_owned()),
        ("LOADOUT_CONFIG_HOME".to_owned(), dirs.config_home.clone()),
        ("LOADOUT_DATA_HOME".to_owned(), dirs.data_home.clone()),
        ("LOADOUT_STATE_HOME".to_owned(), dirs.state_home.clone()),
    ];
    proof {
        assert(args@.map_values(|a: String| a@) =~= seq![script@]);
        assert(env@.map_values(|e: (String, String)| (e.0@, e.1@)) =~= seq![
            ("LOADOUT_FEATURE_ID"@, feature_id@),
            ("LOADOUT_CONFIG_HOME"@, dirs.config_home@),
            ("LOADOUT_DATA_HOME"@, dirs.data_home@),
            ("LOADOUT_STATE_HOME"@, dirs.state_home@),
        ]);
    }
    ScriptCommand { program: "bash".to_owned(), args, env }
}

/// Judge a script run of `op`: the source directory and the script are
/// checked first (`probe`), then the process's end (`exit`, consulted only
/// when the script was to be spawned).
fn run_op(
    meta: &FeatureMeta,
    op: FeatureOp,
    probe: &ScriptProbe,
    exit: Option<Result<ProcessExit, String>>,
) -> (r: Result<FeatureOutput, FeatureHostError>)
    requires
        will_spawn(*probe) ==> exit is Some,
    ensures
        feature_result_view(r) == host_outcome(meta.source_dir@, feature_script_path(meta, op), *probe, exit),
{
    if !probe.source_dir_is_dir {
        return Err(FeatureHostError::SourceDirNotFound { path: meta.source_dir.clone() });
    }
    let script = feature_script(meta, op);
    if !probe.script_is_file {
        return Err(FeatureHostError::ScriptNotFound { path: script });
    }
    match exit {
        Some(Ok(x)) => {
            if x.success {
                Ok(FeatureOutput { stdout: x.stdout, stderr: x.stderr })
            } else {
                Err(FeatureHostError::ScriptFailed { exit_code: exit_code_of(x.code), stderr: trim_exec(x.stderr.as_str()) })
            }
        },
        Some(Err(e)) => Err(FeatureHostError::SpawnFailed { reason: e }),
        None => Err(FeatureHostError::SpawnFailed { reason: String::new() }),
    }
}

/// Judge a run of the `install.sh` script of a script-mode feature. `probe`
/// is what the filesystem showed of its source directory and script; `exit`
/// is how the process spawned with [`script_command`] (for `feature_id` and
/// `dirs`) ended.
pub fn run_install(
    meta: &FeatureMeta,
    feature_id: &CanonicalFeatureId,
    dirs: &Dirs,
    probe: &ScriptProbe,
    exit: Option<Result<ProcessExit, String>>,
) -> (r: Result<FeatureOutput, FeatureHostError>)
    requires
        will_spawn(*probe) ==> exit is Some,
    ensures
        feature_result_view(r) == host_outcome(meta.source_dir@, feature_script_path(meta, FeatureOp::Install), *probe, exit),
{
    run_op(meta, FeatureOp::Install, probe, exit)
}

/// Judge a run of the `uninstall.sh` script of a script-mode feature; same
/// contract as [`run_install`].
pub fn run_uninstall(
    meta: &FeatureMeta,
    feature_id: &CanonicalFeatureId,
    dirs: &Dirs,
    probe: &ScriptProbe,
    exit: Option<Result<ProcessExit, String>>,
) -> (r: Result<FeatureOutput, FeatureHostError>)
    requires
        will_spawn(*probe) ==> exit is Some,
    ensures
        feature_result_view(r) == host_outcome(meta.source_dir@, feature_script_path(meta, FeatureOp::Uninstall), *probe, exit),
{
    run_op(meta, FeatureOp::Uninstall, probe, exit)
}

} // verus!
