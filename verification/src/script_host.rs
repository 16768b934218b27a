//! What the component and feature hosts share: the filesystem probe taken
//! before a script runs, the command line that runs it, and how the finished
//! process is judged.
use vstd::prelude::*;
use crate::path::{path_join, path_join_exec};
use crate::text::trim_ws;

verus! {

/// What the filesystem showed before a script run: whether the source
/// directory is a directory and whether the script is a regular file.
#[derive(Debug, Clone, Copy, PartialEq, Eq)]
pub struct ScriptProbe {
    pub source_dir_is_dir: bool,
    pub script_is_file: bool,
}

/// How a spawned script process ended: whether it exited successfully, its
/// exit code (absent when killed by a signal) and its captured output
/// (decoded as lossy UTF-8).
#[derive(Debug, Clone, PartialEq)]
pub struct ProcessExit {
    pub success: bool,
    pub code: Option<i32>,
    pub stdout: String,
    pub stderr: String,
}

/// A command line to spawn, with the environment variables to inject.
/// Standard input is closed; standard output and error are captured.
#[derive(Debug, Clone, PartialEq)]
pub struct ScriptCommand {
    pub program: String,
    pub args: Vec<String>,
    pub env: Vec<(String, String)>,
}

/// The path of `name` inside `source_dir`.
pub fn script_path(source_dir: &str, name: &str) -> (r: String)
    ensures
        r@ == path_join(source_dir@, name@),
{
    path_join_exec(source_dir, name)
}

/// The exit code reported for a failed script: `-1` when there is none.
pub open spec fn reported_code(code: Option<i32>) -> i32 {
    match code {
        Some(c) => c,
        None => -1i32,
    }
}

/// The exit code reported for a failed script (executable).
pub fn exit_code_of(code: Option<i32>) -> (r: i32)
    ensures
        r == reported_code(code),
{
    match code {
        Some(c) => c,
        None => -1,
    }
}

/// What went wrong running a script, for either host.
pub enum HostFault {
    ScriptNotFound { path: Seq<char> },
    SourceDirNotFound { path: Seq<char> },
    SpawnFailed { reason: Seq<char> },
    ScriptFailed { exit_code: i32, stderr: Seq<char> },
}

/// The outcome of running `script` from `source_dir`: the source directory
/// must be a directory and the script a regular file; then the process must
/// start (`exit` is `Some(Err(..))` when it did not) and exit successfully.
/// On success the captured output; on a failed exit the reported code and
/// the trimmed standard error.
pub open spec fn host_outcome(
    source_dir: Seq<char>,
    script: Seq<char>,
    probe: ScriptProbe,
    exit: Option<Result<ProcessExit, String>>,
) -> Result<(Seq<char>, Seq<char>), HostFault> {
    if !probe.source_dir_is_dir {
        Err(HostFault::SourceDirNotFound { path: source_dir })
    } else if !probe.script_is_file {
        Err(HostFault::ScriptNotFound { path: script })
    } else {
        match exit {
            Some(Ok(x)) => if x.success {
                Ok((x.stdout@, x.stderr@))
            } else {
                Err(HostFault::ScriptFailed { exit_code: reported_code(x.code), stderr: trim_ws(x.stderr@) })
            },
            Some(Err(e)) => Err(HostFault::SpawnFailed { reason: e@ }),
            None => Err(HostFault::SpawnFailed { reason: Seq::empty() }),
        }
    }
}

/// Whether the script is to be spawned after `probe`.
pub open spec fn will_spawn(probe: ScriptProbe) -> bool {
    probe.source_dir_is_dir && probe.script_is_file
}

} // verus!
