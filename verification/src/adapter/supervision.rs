//! Supervision of one bounded subprocess: what follows from what is seen of it.

use crate::adapter::command_runner::{
    CommandRequest, CommandResult, CommandRunnerError, ProcessStatus,
};
use crate::adapter::remote_parse::{lossy_text, reads_text, utf8_lossy};
use vstd::prelude::*;

verus! {

/// What a look at a running subprocess shows.
#[derive(Debug)]
pub enum ProcessPoll {
    /// It has ended; the platform reports an exit code or a signal.
    Ended {
        /// Exit code of a normal exit.
        code: Option<i32>,
        /// Signal that ended it.
        signal: Option<i32>,
    },
    /// It is running.
    Running {
        /// Nanoseconds since it was started.
        elapsed: u128,
    },
    /// Its state cannot be told.
    Failed {
        /// Operating-system diagnostic.
        reason: String,
    },
}

/// What to do with the subprocess.
#[derive(Debug)]
pub enum SupervisionStep {
    /// Collect its output.
    Collect(ProcessStatus),
    /// Look again a moment later.
    Pause,
    /// Terminate it with all its descendants, and report the failure.
    Terminate(CommandRunnerError),
}

/// The subprocess has had its time.
pub open spec fn overdue(elapsed: u128, timeout_ms: u64) -> bool {
    elapsed >= timeout_ms * 1_000_000
}

/// What follows from a look.
pub open spec fn supervision_rule(
    command: Seq<char>,
    timeout_ms: u64,
    poll: ProcessPoll,
    step: SupervisionStep,
) -> bool {
    match poll {
        ProcessPoll::Ended { code, signal } => step == SupervisionStep::Collect(
            match (code, signal) {
                (Some(number), _) => ProcessStatus::Exited(number),
                (None, Some(number)) => ProcessStatus::Signaled(number),
                (None, None) => ProcessStatus::Other,
            },
        ),
        ProcessPoll::Running { elapsed } => if overdue(elapsed, timeout_ms) {
            step matches SupervisionStep::Terminate(
                CommandRunnerError::Timeout { command: shown, timeout_ms: told },
            ) && shown@ == command && told == timeout_ms
        } else {
            step is Pause
        },
        ProcessPoll::Failed { reason } => step matches SupervisionStep::Terminate(
            CommandRunnerError::Poll { command: shown, reason: told },
        ) && shown@ == command && told == reason,
    }
}

/// Decides what to do with a subprocess.
pub fn supervise(command: &String, request: &CommandRequest, poll: ProcessPoll) -> (step:
    SupervisionStep)
    ensures
        supervision_rule(command@, request.timeout, poll, step),
{
    match poll {
        ProcessPoll::Ended { code, signal } => SupervisionStep::Collect(
            ProcessStatus::from_parts(code, signal),
        ),
        ProcessPoll::Running { elapsed } => {
            let deadline: u128 = request.timeout as u128 * 1_000_000;
            if elapsed >= deadline {
                SupervisionStep::Terminate(
                    CommandRunnerError::Timeout {
                        command: command.clone(),
                        timeout_ms: request.timeout,
                    },
                )
            } else {
                SupervisionStep::Pause
            }
        },
        ProcessPoll::Failed { reason } => SupervisionStep::Terminate(
            CommandRunnerError::Poll { command: command.clone(), reason },
        ),
    }
}

/// What a reader of an output pipe brought.
#[derive(Debug)]
pub enum OutputReading {
    /// All bytes of the output.
    Bytes(Vec<u8>),
    /// The output could not be read within its bound.
    Failed {
        /// Pipe or size-bound diagnostic.
        reason: String,
    },
    /// The reader did not finish.
    Panicked,
}

/// Why a reading is of no use; none where it is.
pub open spec fn reading_failure(reading: OutputReading) -> Option<Seq<char>> {
    match reading {
        OutputReading::Bytes(_) => None,
        OutputReading::Failed { reason } => Some(reason@),
        OutputReading::Panicked => Some("output reader thread panicked"@),
    }
}

/// Result of an ended subprocess: the first reading that is of no use fails it. Output that encodes
/// a text is that text.
pub open spec fn collection_rule(
    command: Seq<char>,
    status: ProcessStatus,
    stdout: OutputReading,
    stderr: OutputReading,
    result: Result<CommandResult, CommandRunnerError>,
) -> bool {
    let failure = match reading_failure(stdout) {
        Some(reason) => Some(reason),
        None => reading_failure(stderr),
    };
    match failure {
        Some(reason) => result matches Err(
            CommandRunnerError::Output { command: shown, reason: told },
        ) && shown@ == command && told@ == reason,
        None => {
            &&& result matches Ok(found) && found.status == status && found.stdout@ == utf8_lossy(
                stdout->Bytes_0@,
            ) && found.stderr@ == utf8_lossy(stderr->Bytes_0@)
            &&& reads_text(stdout->Bytes_0@)
            &&& reads_text(stderr->Bytes_0@)
        },
    }
}

fn read_output(command: &String, reading: OutputReading) -> (output: Result<
    Vec<u8>,
    CommandRunnerError,
>)
    ensures
        match reading_failure(reading) {
            Some(why) => output matches Err(
                CommandRunnerError::Output { command: shown, reason: told },
            ) && shown@ == command@ && told@ == why,
            None => output matches Ok(bytes) && bytes == reading->Bytes_0,
        },
{
    match reading {
        OutputReading::Bytes(bytes) => Ok(bytes),
        OutputReading::Failed { reason } => Err(
            CommandRunnerError::Output { command: command.clone(), reason },
        ),
        OutputReading::Panicked => Err(
            CommandRunnerError::Output {
                command: command.clone(),
                reason: "output reader thread panicked".to_owned(),
            },
        ),
    }
}

/// Makes the result of an ended subprocess from its status and its output.
pub fn collect_result(
    command: &String,
    status: ProcessStatus,
    stdout: OutputReading,
    stderr: OutputReading,
) -> (result: Result<CommandResult, CommandRunnerError>)
    ensures
        collection_rule(command@, status, stdout, stderr, result),
{
    let out: Vec<u8> = match read_output(command, stdout) {
        Ok(bytes) => bytes,
        Err(error) => {
            return Err(error);
        },
    };
    let err: Vec<u8> = match read_output(command, stderr) {
        Ok(bytes) => bytes,
        Err(error) => {
            return Err(error);
        },
    };
    Ok(
        CommandResult {
            status,
            stdout: lossy_text(out.as_slice()),
            stderr: lossy_text(err.as_slice()),
        },
    )
}

/// A subprocess is left running exactly until it ends, its state cannot be told, or its time is
/// over; only an ended one is collected.
pub proof fn law_supervision_is_bounded(
    command: Seq<char>,
    timeout_ms: u64,
    poll: ProcessPoll,
    step: SupervisionStep,
)
    requires
        supervision_rule(command, timeout_ms, poll, step),
    ensures
        step is Pause <==> (poll matches ProcessPoll::Running { elapsed } && !overdue(
            elapsed,
            timeout_ms,
        )),
        step is Collect <==> poll is Ended,
{
}

} // verus!
