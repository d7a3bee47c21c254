//! Requests and results of bounded subprocesses.

use crate::numerals::{decimal, decimal_text};
use crate::policy::cidr_text::str_views;
use crate::text::views;
use vstd::prelude::*;

verus! {

/// Default upper bound for one external command, in milliseconds.
pub const DEFAULT_COMMAND_TIMEOUT: u64 = 30_000;

/// Largest number of output bytes that is collected from one command.
pub const PRODUCTION_COMMAND_OUTPUT_LIMIT: usize = 16_777_216;

/// Program, arguments, and time bound for one subprocess execution.
#[derive(Debug, Clone, PartialEq, Eq)]
pub struct CommandRequest {
    /// Program name or path.
    pub program: String,
    /// Arguments passed without shell interpretation.
    pub args: Vec<String>,
    /// Maximum execution duration, in milliseconds.
    pub timeout: u64,
}

/// Contents of a request.
#[verifier::ext_equal]
pub struct RequestModel {
    pub program: Seq<char>,
    pub args: Seq<Seq<char>>,
    pub timeout: u64,
}

impl View for CommandRequest {
    type V = RequestModel;

    open spec fn view(&self) -> RequestModel {
        RequestModel { program: self.program@, args: views(self.args@), timeout: self.timeout }
    }
}

/// Portable process termination state used by command adapters.
#[derive(Debug, Clone, Copy, PartialEq, Eq, Structural)]
pub enum ProcessStatus {
    /// Process exited normally with this code.
    Exited(i32),
    /// Process terminated after receiving this signal number.
    Signaled(i32),
    /// Platform status was neither a normal exit nor a recognized Unix signal.
    Other,
}

impl ProcessStatus {
    /// The exit code of a normal exit.
    pub open spec fn exit_code(self) -> Option<i32> {
        match self {
            ProcessStatus::Exited(code) => Some(code),
            _ => None,
        }
    }

    /// A normal exit with code zero.
    pub open spec fn succeeded(self) -> bool {
        self == ProcessStatus::Exited(0)
    }

    /// Returns the normal exit code, if available.
    pub fn code(self) -> (code: Option<i32>)
        ensures
            code == self.exit_code(),
    {
        match self {
            ProcessStatus::Exited(code) => Some(code),
            ProcessStatus::Signaled(_) => None,
            ProcessStatus::Other => None,
        }
    }

    /// Returns true only for a normal zero exit.
    pub fn success(self) -> (ok: bool)
        ensures
            ok == self.succeeded(),
    {
        match self {
            ProcessStatus::Exited(code) => code == 0,
            _ => false,
        }
    }

    /// The state of a process of which the platform reports an exit code or a signal.
    pub fn from_parts(code: Option<i32>, signal: Option<i32>) -> (status: ProcessStatus)
        ensures
            status == (match code {
                Some(number) => ProcessStatus::Exited(number),
                None => match signal {
                    Some(number) => ProcessStatus::Signaled(number),
                    None => ProcessStatus::Other,
                },
            }),
    {
        match code {
            Some(number) => ProcessStatus::Exited(number),
            None => match signal {
                Some(number) => ProcessStatus::Signaled(number),
                None => ProcessStatus::Other,
            },
        }
    }
}

/// Bounded subprocess status and lossy UTF-8 output.
#[derive(Debug, Clone, PartialEq, Eq)]
pub struct CommandResult {
    /// Portable process termination state.
    pub status: ProcessStatus,
    /// Bounded standard output.
    pub stdout: String,
    /// Bounded standard error.
    pub stderr: String,
}

/// Failure while starting, supervising, or collecting a bounded subprocess.
#[derive(Debug, Clone, PartialEq, Eq)]
pub enum CommandRunnerError {
    /// The operating system refused to start the process.
    Spawn {
        /// Rendered command.
        command: String,
        /// Operating-system diagnostic.
        reason: String,
    },
    /// Process status polling failed.
    Poll {
        /// Rendered command.
        command: String,
        /// Operating-system diagnostic.
        reason: String,
    },
    /// Bounded output collection failed.
    Output {
        /// Rendered command.
        command: String,
        /// Pipe, size-bound, or reader diagnostic.
        reason: String,
    },
    /// The process exceeded its deadline and was terminated.
    Timeout {
        /// Rendered command.
        command: String,
        /// Configured timeout in milliseconds.
        timeout_ms: u64,
    },
}

/// Operator-facing text of a runner failure.
pub open spec fn runner_error_text(error: CommandRunnerError) -> Seq<char> {
    match error {
        CommandRunnerError::Spawn { command, reason } => "failed to spawn command `"@ + command@
            + "`: "@ + reason@,
        CommandRunnerError::Poll { command, reason } => "failed to poll command `"@ + command@
            + "`: "@ + reason@,
        CommandRunnerError::Output { command, reason } => "failed to read output for command `"@
            + command@ + "`: "@ + reason@,
        CommandRunnerError::Timeout { command, timeout_ms } => "command `"@ + command@
            + "` timed out after "@ + decimal(timeout_ms as nat) + " ms"@,
    }
}

impl CommandRunnerError {
    /// Operator-facing description.
    pub fn message(&self) -> (text: String)
        ensures
            text@ == runner_error_text(*self),
    {
        match self {
            CommandRunnerError::Spawn { command, reason } => {
                let mut text: String = "failed to spawn command `".to_owned();
                text.append(command.as_str());
                text.append("`: ");
                text.append(reason.as_str());
                text
            },
            CommandRunnerError::Poll { command, reason } => {
                let mut text: String = "failed to poll command `".to_owned();
                text.append(command.as_str());
                text.append("`: ");
                text.append(reason.as_str());
                text
            },
            CommandRunnerError::Output { command, reason } => {
                let mut text: String = "failed to read output for command `".to_owned();
                text.append(command.as_str());
                text.append("`: ");
                text.append(reason.as_str());
                text
            },
            CommandRunnerError::Timeout { command, timeout_ms } => {
                let mut text: String = "command `".to_owned();
                text.append(command.as_str());
                text.append("` timed out after ");
                text.append(decimal_text(*timeout_ms as u128).as_str());
                text.append(" ms");
                text
            },
        }
    }
}

/// A program and its arguments with spaces between them.
pub open spec fn command_text(program: Seq<char>, args: Seq<Seq<char>>) -> Seq<char>
    decreases args.len(),
{
    if args.len() == 0 {
        program
    } else {
        command_text(program, args.drop_last()) + " "@ + args.last()
    }
}

/// Renders a command for diagnostics.
pub fn display_command(program: &str, args: &[&str]) -> (text: String)
    ensures
        text@ == command_text(program@, str_views(args@)),
{
    let ghost all = str_views(args@);
    let mut text: String = program.to_owned();
    let mut i: usize = 0;
    while i < args.len()
        invariant
            i <= args@.len(),
            all == str_views(args@),
            text@ == command_text(program@, all.take(i as int)),
        decreases args@.len() - i,
    {
        assert(all.take(i + 1).drop_last() =~= all.take(i as int));
        text.append(" ");
        text.append(args[i]);
        i = i + 1;
    }
    assert(all.take(i as int) =~= all);
    text
}

/// Executes bounded subprocess requests without a shell.
pub trait CommandExecutor {
    /// Executes one bounded command request.
    fn execute(&self, request: &CommandRequest) -> (result: Result<
        CommandResult,
        CommandRunnerError,
    >);
}

/// Command runner that prepends noninteractive `sudo -n` to every request.
#[derive(Debug)]
pub struct SudoCommandRunner<E: CommandExecutor> {
    /// Executor of the wrapped requests.
    pub executor: E,
    /// Time bound of commands without their own, in milliseconds.
    pub default_timeout: u64,
}

/// The request that runs a command through noninteractive sudo.
pub open spec fn sudo_request(command: Seq<char>, args: Seq<Seq<char>>, timeout: u64) -> RequestModel {
    RequestModel { program: "sudo"@, args: seq!["-n"@, command] + args, timeout }
}

impl<E: CommandExecutor + Default> Default for SudoCommandRunner<E> {
    fn default() -> (runner: SudoCommandRunner<E>)
        ensures
            runner.default_timeout == DEFAULT_COMMAND_TIMEOUT,
            call_ensures(E::default, (), runner.executor),
    {
        SudoCommandRunner { executor: E::default(), default_timeout: DEFAULT_COMMAND_TIMEOUT }
    }
}

impl<E: CommandExecutor> SudoCommandRunner<E> {
    /// Wraps an executor with the specified default command timeout.
    pub fn new(executor: E, default_timeout: u64) -> (runner: SudoCommandRunner<E>)
        ensures
            runner.executor == executor,
            runner.default_timeout == default_timeout,
    {
        SudoCommandRunner { executor, default_timeout }
    }

    /// Runs one command through noninteractive sudo using the default timeout.
    pub fn run(&self, command: &str, args: &[&str]) -> (result: Result<
        CommandResult,
        CommandRunnerError,
    >)
        ensures
            exists|request: CommandRequest| #[trigger]
                call_ensures(E::execute, (&self.executor, &request), result) && request@
                    == sudo_request(command@, str_views(args@), self.default_timeout),
    {
        self.run_with_timeout(command, args, self.default_timeout)
    }

    /// Runs one command through noninteractive sudo using an explicit timeout.
    pub fn run_with_timeout(&self, command: &str, args: &[&str], timeout: u64) -> (result: Result<
        CommandResult,
        CommandRunnerError,
    >)
        ensures
            exists|request: CommandRequest| #[trigger]
                call_ensures(E::execute, (&self.executor, &request), result) && request@
                    == sudo_request(command@, str_views(args@), timeout),
    {
        let ghost goal = seq!["-n"@, command@] + str_views(args@);
        let mut sudo_args: Vec<String> = Vec::new();
        sudo_args.push("-n".to_owned());
        sudo_args.push(command.to_owned());
        let mut i: usize = 0;
        assert(views(sudo_args@) =~= goal.take(2));
        while i < args.len()
            invariant
                i <= args@.len(),
                goal == seq!["-n"@, command@] + str_views(args@),
                views(sudo_args@) == goal.take(i + 2),
            decreases args@.len() - i,
        {
            let ghost before = sudo_args@;
            sudo_args.push(args[i].to_owned());
            i = i + 1;
            assert(views(sudo_args@) =~= views(before).push(goal[i + 1]));
            assert(goal.take(i + 2) =~= goal.take(i + 1).push(goal[i + 1]));
        }
        assert(goal.take(i + 2) =~= goal);
        let request: CommandRequest = CommandRequest {
            program: "sudo".to_owned(),
            args: sudo_args,
            timeout,
        };
        assert(request@ =~= sudo_request(command@, str_views(args@), timeout));
        self.executor.execute(&request)
    }
}

/// Milliseconds as 64 bits, at most the largest such number.
pub fn duration_millis_u64(millis: u128) -> (short: u64)
    ensures
        short == if millis <= u64::MAX {
            millis as int
        } else {
            u64::MAX as int
        },
{
    if millis <= u64::MAX as u128 {
        millis as u64
    } else {
        u64::MAX
    }
}

} // verus!
