//! Process execution: what the engine asks for and what it gets back.
use vstd::prelude::*;

use crate::config::{ExecConfig, SpawnBackend, SpawnFdPolicy};
use crate::error::EngineError;
use crate::ordered;

verus! {

/// A process to run to its end.
#[derive(Debug, PartialEq, Eq)]
pub struct SpawnRequest {
    pub argv: Vec<String>,
    pub backend: SpawnBackend,
    pub fd_policy: SpawnFdPolicy,
    pub capture_stdout: bool,
    pub max_output: usize,
    pub timeout_ms: Option<u32>,
}

/// The model of a request.
pub struct SpawnRequestModel {
    pub argv: Seq<Seq<char>>,
    pub backend: SpawnBackend,
    pub fd_policy: crate::config::FdPolicyModel,
    pub capture_stdout: bool,
    pub max_output: usize,
    pub timeout_ms: Option<u32>,
}

impl View for SpawnRequest {
    type V = SpawnRequestModel;

    open spec fn view(&self) -> SpawnRequestModel {
        SpawnRequestModel {
            argv: ordered::strings(self.argv@),
            backend: self.backend,
            fd_policy: self.fd_policy@,
            capture_stdout: self.capture_stdout,
            max_output: self.max_output,
            timeout_ms: self.timeout_ms,
        }
    }
}

/// How a process ended.
#[derive(Clone, Copy, Debug, PartialEq, Eq, Structural)]
pub enum ExitStatus {
    /// With an exit code.
    Exited(i32),
    /// By a signal.
    Signaled(i32),
}

/// What a process that ran leaves behind.
#[derive(Debug, PartialEq, Eq)]
pub struct ExecOutput {
    pub pid: i32,
    pub status: Option<ExitStatus>,
    pub stdout: Vec<u8>,
    pub stderr: Vec<u8>,
    pub timed_out: bool,
    pub stdout_early_exited: bool,
}

/// The model of what a process leaves behind.
pub struct OutputModel {
    pub pid: i32,
    pub status: Option<ExitStatus>,
    pub stdout: Seq<u8>,
    pub stderr: Seq<u8>,
    pub timed_out: bool,
    pub stdout_early_exited: bool,
}

impl View for ExecOutput {
    type V = OutputModel;

    open spec fn view(&self) -> OutputModel {
        OutputModel {
            pid: self.pid,
            status: self.status,
            stdout: self.stdout@,
            stderr: self.stderr@,
            timed_out: self.timed_out,
            stdout_early_exited: self.stdout_early_exited,
        }
    }
}

/// Whether an argument list holds a NUL character.
pub open spec fn has_nul(argv: Seq<Seq<char>>) -> bool {
    exists|i: int, j: int|
        0 <= i < argv.len() && 0 <= j < argv[i].len() && #[trigger] argv[i][j] == '\0'
}

/// Whether an argument list can be run: it names a program and holds no NUL.
pub open spec fn runnable(argv: Seq<Seq<char>>) -> bool {
    argv.len() > 0 && !has_nul(argv)
}

/// The error that an argument list is refused with.
pub open spec fn argv_fault(argv: Seq<Seq<char>>) -> crate::error::ErrorModel {
    if argv.len() == 0 {
        crate::error::ErrorModel::Core { code: 22, op: "exec argv empty"@ }
    } else {
        crate::error::ErrorModel::Core { code: 22, op: "exec argv contains nul"@ }
    }
}

/// `SpawnOptions::builder` and `SpawnOptionsBuilder::build`: an empty argument
/// list and one with a NUL character are refused, each with `EINVAL` and a name
/// of its own; any other is accepted.
#[verifier::external_body]
fn check_argv(argv: &Vec<String>) -> (r: Result<(), EngineError>)
    ensures
        r is Ok <==> runnable(ordered::strings(argv@)),
        r matches Err(e) ==> e@ == argv_fault(ordered::strings(argv@)),
{
    let builder = coreshift_core::spawn::SpawnOptions::builder(
        argv.clone(),
        coreshift_core::spawn::SpawnBackend::PosixSpawn,
    );
    match builder.build() {
        Ok(_) => Ok(()),
        Err(coreshift_core::CoreError::Syscall { code, op }) => Err(EngineError::Core { code, op }),
    }
}

/// Explicit process execution: turns argument lists into requests.
#[derive(Debug)]
pub struct ExecRunner {
    config: ExecConfig,
}

/// The request for an argument list under given settings.
pub open spec fn request_for(
    config: crate::config::ExecConfigModel,
    argv: Seq<Seq<char>>,
    capture_stdout: bool,
) -> SpawnRequestModel {
    SpawnRequestModel {
        argv,
        backend: config.backend,
        fd_policy: config.fd_policy,
        capture_stdout,
        max_output: config.max_output,
        timeout_ms: config.timeout_ms,
    }
}

/// What asking for a process gives.
pub open spec fn asked(
    config: crate::config::ExecConfigModel,
    argv: Seq<Seq<char>>,
    capture_stdout: bool,
    r: Result<SpawnRequest, EngineError>,
) -> bool {
    match r {
        Ok(request) => runnable(argv) && request@ == request_for(
            config,
            argv,
            capture_stdout,
        ),
        Err(e) => !runnable(argv) && e@ == argv_fault(argv),
    }
}

impl View for ExecRunner {
    type V = crate::config::ExecConfigModel;

    closed spec fn view(&self) -> crate::config::ExecConfigModel {
        self.config@
    }
}

impl ExecRunner {
    /// A runner with the given settings.
    pub fn new(config: ExecConfig) -> (r: Self)
        ensures
            r@ == config@,
    {
        ExecRunner { config }
    }

    fn request(&self, argv: Vec<String>, capture_stdout: bool) -> (r: Result<
        SpawnRequest,
        EngineError,
    >)
        ensures
            asked(self@, ordered::strings(argv@), capture_stdout, r),
    {
        match check_argv(&argv) {
            Ok(()) => Ok(
                SpawnRequest {
                    argv,
                    backend: self.config.backend,
                    fd_policy: self.config.fd_policy.clone(),
                    capture_stdout,
                    max_output: self.config.max_output,
                    timeout_ms: self.config.timeout_ms,
                },
            ),
            Err(e) => Err(e),
        }
    }

    /// The request to run a process.
    pub fn run(&self, argv: Vec<String>) -> (r: Result<SpawnRequest, EngineError>)
        ensures
            asked(self@, ordered::strings(argv@), false, r),
    {
        self.request(argv, false)
    }

    /// The request to run a process and keep what it writes to stdout.
    pub fn run_capture_stdout(&self, argv: Vec<String>) -> (r: Result<SpawnRequest, EngineError>)
        ensures
            asked(self@, ordered::strings(argv@), true, r),
    {
        self.request(argv, true)
    }
}

impl Clone for ExecRunner {
    fn clone(&self) -> (r: Self)
        ensures
            r@ == self@,
    {
        ExecRunner { config: self.config.clone() }
    }
}

/// A process can be asked for exactly if its argument list names a program and no
/// argument holds a NUL character; an empty list is refused as such and any other
/// for its NUL.
pub proof fn law_arguments_are_checked(
    config: crate::config::ExecConfigModel,
    argv: Seq<Seq<char>>,
    capture_stdout: bool,
    r: Result<SpawnRequest, EngineError>,
)
    requires
        asked(config, argv, capture_stdout, r),
    ensures
        r is Ok <==> argv.len() > 0 && forall|i: int, j: int|
            0 <= i < argv.len() && 0 <= j < argv[i].len() ==> #[trigger] argv[i][j] != '\0',
        r matches Err(e) ==> (e@ matches crate::error::ErrorModel::Core { code, op } && code == 22
            && (argv.len() == 0 ==> op == "exec argv empty"@) && (argv.len() > 0 ==> op
            == "exec argv contains nul"@)),
{
}

/// What is asked for is the given argument list under the given settings, with the
/// output kept exactly if that was wanted.
pub proof fn law_request_keeps_settings(
    config: crate::config::ExecConfigModel,
    argv: Seq<Seq<char>>,
    capture_stdout: bool,
    request: SpawnRequest,
)
    requires
        asked(config, argv, capture_stdout, Ok(request)),
    ensures
        request@.argv == argv,
        request@.capture_stdout == capture_stdout,
        request@.backend == config.backend,
        request@.fd_policy == config.fd_policy,
        request@.timeout_ms == config.timeout_ms,
        request@.max_output == config.max_output,
{
}

} // verus!
