//! Host operations of the flush, init and doctor ports.

use crate::adapter::command_runner::{
    command_text, display_command, runner_error_text, sudo_request, CommandExecutor, CommandRequest,
    CommandResult, CommandRunnerError, SudoCommandRunner,
};
use crate::adapter::enforcement::IpsetCommandRunner;
use crate::adapter::firewall_text::{
    firewall_error_text, status_string, status_text, FirewallError, FirewallFamily,
};
use crate::adapter::iptables::{cleaned, cleanup_firewall_wiring, FirewallCommandRunner};
use crate::policy::cidr_text::str_views;
use crate::text::{
    contains_chars, contains_text, from_chars, lower, lower_chars, to_chars, trim, trim_chars,
    views,
};
use crate::workflow::doctor::{CacheReadiness, ProbeFailure};
use crate::workflow::error::AppError;
use crate::workflow::flush;
use crate::workflow::init::{ProvisionState, KIDOBO_SYNC_SERVICE_FILE, KIDOBO_SYNC_TIMER_FILE};
use vstd::prelude::*;

verus! {

// Flush -----------------------------------------------------------------------------------------

/// The result says that the set does not exist.
pub open spec fn says_missing_set(result: CommandResult) -> bool {
    result.status.exit_code() == Some(1i32) && contains_text(
        lower(result.stderr@),
        "does not exist"@,
    )
}

/// Returns whether a result says that the set does not exist.
pub fn is_missing_ipset_result(result: &CommandResult) -> (missing: bool)
    ensures
        missing == says_missing_set(*result),
{
    if result.status.code() != Some(1i32) {
        return false;
    }
    let stderr: Vec<char> = to_chars(result.stderr.as_str());
    let lowered: Vec<char> = lower_chars(stderr.as_slice());
    let part: Vec<char> = to_chars("does not exist");
    contains_chars(lowered.as_slice(), part.as_slice())
}

/// How a cleanup command ended: a set that does not exist is as good as one destroyed.
pub open spec fn cleanup_rule(
    command: Seq<char>,
    args: Seq<Seq<char>>,
    reply: Result<CommandResult, CommandRunnerError>,
    outcome: Result<(), String>,
) -> bool {
    let rendered = command_text(command, args);
    match reply {
        Ok(result) => if result.status.succeeded() || says_missing_set(result) {
            outcome is Ok
        } else {
            outcome matches Err(reason) && reason@ == rendered + " failed (status="@ + status_text(
                result.status,
            ) + " stderr="@ + result.stderr@ + ")"@
        },
        Err(error) => outcome matches Err(reason) && reason@ == rendered + " execution failed ("@
            + runner_error_text(error) + ")"@,
    }
}

/// Judges the reply to a cleanup command.
pub fn cleanup_outcome(
    command: &str,
    args: &[&str],
    reply: Result<CommandResult, CommandRunnerError>,
) -> (outcome: Result<(), String>)
    ensures
        cleanup_rule(command@, str_views(args@), reply, outcome),
{
    let mut text: String = display_command(command, args);
    match reply {
        Ok(result) => {
            if result.status.success() || is_missing_ipset_result(&result) {
                return Ok(());
            }
            text.append(" failed (status=");
            text.append(status_string(result.status).as_str());
            text.append(" stderr=");
            text.append(result.stderr.as_str());
            text.append(")");
            Err(text)
        },
        Err(error) => {
            text.append(" execution failed (");
            text.append(error.message().as_str());
            text.append(")");
            Err(text)
        },
    }
}

/// Flush backend using injected ipset and firewall command runners.
#[derive(Debug)]
pub struct CommandFlushBackend<R> {
    /// Runner of every command.
    pub runner: R,
}

impl<R> CommandFlushBackend<R> {
    /// Creates a flush backend around the supplied runner.
    pub fn new(runner: R) -> (backend: CommandFlushBackend<R>)
        ensures
            backend.runner == runner,
    {
        CommandFlushBackend { runner }
    }
}

/// Firewall tables of a flush family.
pub open spec fn table_of(family: flush::FirewallFamily) -> FirewallFamily {
    match family {
        flush::FirewallFamily::Ipv4 => FirewallFamily::Ipv4,
        flush::FirewallFamily::Ipv6 => FirewallFamily::Ipv6,
    }
}

impl<R: FirewallCommandRunner + IpsetCommandRunner> CommandFlushBackend<R> {
    /// Removes managed firewall wiring of a family.
    pub fn cleanup_firewall(&self, family: flush::FirewallFamily) -> (outcome: Result<(), String>)
        ensures
            exists|failure: Option<FirewallError>|
                {
                    &&& #[trigger] cleaned(&self.runner, table_of(family), failure)
                    &&& match failure {
                        None => outcome is Ok,
                        Some(error) => outcome matches Err(reason) && reason@
                            == "firewall cleanup failed for "@ + table_of(family).label() + ": "@
                            + firewall_error_text(error),
                    }
                },
    {
        let table: FirewallFamily = match family {
            flush::FirewallFamily::Ipv4 => FirewallFamily::Ipv4,
            flush::FirewallFamily::Ipv6 => FirewallFamily::Ipv6,
        };
        assert(table == table_of(family));
        match cleanup_firewall_wiring(&self.runner, table) {
            Ok(()) => {
                assert(cleaned(&self.runner, table_of(family), None));
                Ok(())
            },
            Err(error) => {
                assert(cleaned(&self.runner, table_of(family), Some(error)));
                let mut text: String = "firewall cleanup failed for ".to_owned();
                text.append(table.name());
                text.append(": ");
                text.append(error.message().as_str());
                Err(text)
            },
        }
    }

    /// Destroys a managed set; one that does not exist is no failure.
    pub fn destroy_ipset(&self, set_name: &str) -> (outcome: Result<(), String>)
        ensures
            exists|args: &[&str], reply: Result<CommandResult, CommandRunnerError>|
                {
                    &&& #[trigger] call_ensures(
                        <R as IpsetCommandRunner>::run,
                        (&self.runner, "ipset", args),
                        reply,
                    )
                    &&& str_views(args@) == seq!["destroy"@, set_name@]
                    &&& cleanup_rule("ipset"@, str_views(args@), reply, outcome)
                },
    {
        let mut args: Vec<&str> = Vec::new();
        args.push("destroy");
        args.push(set_name);
        assert(str_views(args@) =~= seq!["destroy"@, set_name@]);
        let slice: &[&str] = args.as_slice();
        let reply: Result<CommandResult, CommandRunnerError> = IpsetCommandRunner::run(
            &self.runner,
            "ipset",
            slice,
        );
        cleanup_outcome("ipset", slice, reply)
    }
}

// Init ------------------------------------------------------------------------------------------

/// Command boundary used for systemd initialization.
pub trait InitCommandRunner {
    /// Runs one noninteractive system command.
    fn run(&self, command: &str, args: &[&str]) -> (result: Result<
        CommandResult,
        CommandRunnerError,
    >);
}

impl<E: CommandExecutor> InitCommandRunner for SudoCommandRunner<E> {
    fn run(&self, command: &str, args: &[&str]) -> (result: Result<
        CommandResult,
        CommandRunnerError,
    >)
        ensures
            exists|request: CommandRequest| #[trigger]
                call_ensures(E::execute, (&self.executor, &request), result) && request@
                    == sudo_request(command@, str_views(args@), self.default_timeout),
    {
        SudoCommandRunner::run(self, command, args)
    }
}

/// Why a systemd command failed.
pub open spec fn systemd_reason(result: CommandResult) -> Seq<char> {
    let status = "status="@ + status_text(result.status);
    if trim(result.stderr@).len() > 0 {
        status + " stderr="@ + trim(result.stderr@)
    } else if trim(result.stdout@).len() > 0 {
        status + " stdout="@ + trim(result.stdout@)
    } else {
        status
    }
}

/// How a required systemd command ended.
pub open spec fn systemd_rule(
    args: Seq<Seq<char>>,
    reply: Result<CommandResult, CommandRunnerError>,
    outcome: Result<(), AppError>,
) -> bool {
    match reply {
        Ok(result) => if result.status.succeeded() {
            outcome is Ok
        } else {
            outcome matches Err(AppError::InitSystemd { command, reason }) && command@
                == command_text("systemctl"@, args) && reason@ == systemd_reason(result)
        },
        Err(error) => outcome matches Err(AppError::InitSystemd { command, reason }) && command@
            == command_text("systemctl"@, args) && reason@ == runner_error_text(error),
    }
}

/// The systemd command was run.
pub open spec fn systemd_ran<R: InitCommandRunner>(
    runner: &R,
    args: Seq<Seq<char>>,
    outcome: Result<(), AppError>,
) -> bool {
    exists|given: &[&str], reply: Result<CommandResult, CommandRunnerError>| #[trigger]
        call_ensures(R::run, (runner, "systemctl", given), reply) && str_views(given@) == args
            && systemd_rule(args, reply, outcome)
}

/// Runs one systemd command that has to succeed.
pub fn run_required_systemd_command<R: InitCommandRunner>(runner: &R, arguments: &[&str]) -> (
outcome: Result<(), AppError>)
    ensures
        systemd_ran(runner, str_views(arguments@), outcome),
{
    let command: String = display_command("systemctl", arguments);
    let reply: Result<CommandResult, CommandRunnerError> = runner.run("systemctl", arguments);
    match reply {
        Err(error) => Err(AppError::InitSystemd { command, reason: error.message() }),
        Ok(result) => {
            if result.status.success() {
                return Ok(());
            }
            let mut reason: String = "status=".to_owned();
            reason.append(status_string(result.status).as_str());
            let stderr: Vec<char> = to_chars(result.stderr.as_str());
            let stdout: Vec<char> = to_chars(result.stdout.as_str());
            let problem: &[char] = trim_chars(stderr.as_slice());
            let output: &[char] = trim_chars(stdout.as_slice());
            if problem.len() > 0 {
                reason.append(" stderr=");
                reason.append(from_chars(problem).as_str());
            } else if output.len() > 0 {
                reason.append(" stdout=");
                reason.append(from_chars(output).as_str());
            }
            Err(AppError::InitSystemd { command, reason })
        },
    }
}

/// Arguments of the systemd commands that enable the timer, in order.
pub open spec fn timer_commands() -> Seq<Seq<Seq<char>>> {
    seq![
        seq!["daemon-reload"@],
        seq!["reset-failed"@, KIDOBO_SYNC_SERVICE_FILE@],
        seq!["enable"@, "--now"@, KIDOBO_SYNC_TIMER_FILE@],
    ]
}

/// The commands were run in order, up to the first failure.
pub open spec fn commands_ran<R: InitCommandRunner>(
    runner: &R,
    commands: Seq<Seq<Seq<char>>>,
    outcome: Result<(), AppError>,
) -> bool
    decreases commands.len(),
{
    if commands.len() == 0 {
        outcome is Ok
    } else {
        exists|first: Result<(), AppError>|
            {
                &&& #[trigger] systemd_ran(runner, commands[0], first)
                &&& if first is Err {
                    outcome == first
                } else {
                    commands_ran(runner, commands.drop_first(), outcome)
                }
            }
    }
}

/// Filesystem provisioner with an injected runner for live systemd operations.
#[derive(Debug)]
pub struct FileInitProvisioner<R> {
    /// Runner of systemd commands.
    pub runner: R,
}

impl<R> FileInitProvisioner<R> {
    /// Creates an initialization provisioner around the supplied command runner.
    pub fn new(runner: R) -> (provisioner: FileInitProvisioner<R>)
        ensures
            provisioner.runner == runner,
    {
        FileInitProvisioner { runner }
    }
}

impl<R: InitCommandRunner> FileInitProvisioner<R> {
    /// Reloads systemd and enables the managed timer.
    pub fn enable_systemd_timer(&self) -> (outcome: Result<(), AppError>)
        ensures
            commands_ran(&self.runner, timer_commands(), outcome),
    {
        let ghost commands = timer_commands();
        let mut reload: Vec<&str> = Vec::new();
        reload.push("daemon-reload");
        assert(str_views(reload@) =~= commands[0]);
        let mut reset: Vec<&str> = Vec::new();
        reset.push("reset-failed");
        reset.push(KIDOBO_SYNC_SERVICE_FILE);
        assert(str_views(reset@) =~= commands[1]);
        let mut enable: Vec<&str> = Vec::new();
        enable.push("enable");
        enable.push("--now");
        enable.push(KIDOBO_SYNC_TIMER_FILE);
        assert(str_views(enable@) =~= commands[2]);
        let ghost second = commands.drop_first();
        let ghost third = second.drop_first();
        assert(second[0] == commands[1]);
        assert(third[0] == commands[2]);
        let first: Result<(), AppError> = run_required_systemd_command(
            &self.runner,
            reload.as_slice(),
        );
        if first.is_err() {
            assert(systemd_ran(&self.runner, commands[0], first));
            return first;
        }
        let next: Result<(), AppError> = run_required_systemd_command(
            &self.runner,
            reset.as_slice(),
        );
        assert(systemd_ran(&self.runner, commands[0], first));
        assert(systemd_ran(&self.runner, second[0], next));
        if next.is_err() {
            assert(commands_ran(&self.runner, second, next));
            return next;
        }
        let last: Result<(), AppError> = run_required_systemd_command(
            &self.runner,
            enable.as_slice(),
        );
        proof {
            assert(systemd_ran(&self.runner, third[0], last));
            assert(third.drop_first().len() == 0);
            assert(commands_ran(&self.runner, third.drop_first(), last) <==> last is Ok);
            assert(commands_ran(&self.runner, third, last));
            assert(commands_ran(&self.runner, second, last));
        }
        last
    }
}

/// The first candidate that is a file.
pub open spec fn first_present(present: Seq<bool>, i: int) -> bool {
    &&& 0 <= i < present.len()
    &&& present[i]
    &&& forall|k: int| 0 <= k < i ==> !#[trigger] present[k]
}

/// Texts with `, ` between them.
pub open spec fn listed_paths(paths: Seq<Seq<char>>) -> Seq<char>
    decreases paths.len(),
{
    if paths.len() == 0 {
        Seq::empty()
    } else if paths.len() == 1 {
        paths[0]
    } else {
        listed_paths(paths.drop_last()) + ", "@ + paths.last()
    }
}

/// Selects the first candidate that is a file.
///
/// Returns [`AppError::InitBinaryPathUnavailable`] with all candidates when none is.
pub fn select_executable(candidates: &Vec<String>, present: &Vec<bool>) -> (selected: Result<
    String,
    AppError,
>)
    requires
        candidates@.len() == present@.len(),
    ensures
        match selected {
            Ok(path) => exists|i: int| #[trigger]
                first_present(present@, i) && path@ == candidates@[i]@,
            Err(error) => (forall|i: int| 0 <= i < present@.len() ==> !#[trigger] present@[i]) && (
            error matches AppError::InitBinaryPathUnavailable { candidates: shown } && shown@
                == listed_paths(views(candidates@))),
        },
{
    let ghost all = views(candidates@);
    let mut shown: String = "".to_owned();
    let mut i: usize = 0;
    proof {
        reveal_strlit("");
        assert(shown@ =~= listed_paths(all.take(0)));
    }
    while i < candidates.len()
        invariant
            i <= candidates@.len(),
            candidates@.len() == present@.len(),
            all == views(candidates@),
            forall|k: int| 0 <= k < i ==> !#[trigger] present@[k],
            shown@ == listed_paths(all.take(i as int)),
        decreases candidates@.len() - i,
    {
        if present[i] {
            assert(first_present(present@, i as int));
            return Ok(candidates[i].clone());
        }
        proof {
            assert(all.take(i + 1).drop_last() =~= all.take(i as int));
            assert(all.take(i + 1).last() == candidates@[i as int]@);
        }
        let ghost before = shown@;
        if i > 0 {
            shown.append(", ");
        }
        shown.append(candidates[i].as_str());
        proof {
            if i == 0 {
                assert(before =~= Seq::<char>::empty());
                assert(shown@ =~= all[0]);
            }
        }
        i = i + 1;
    }
    assert(all.take(i as int) =~= all);
    Err(AppError::InitBinaryPathUnavailable { candidates: shown })
}

/// State of a directory that was there or was created.
pub fn directory_state(existed: bool) -> (state: ProvisionState)
    ensures
        state == if existed {
            ProvisionState::Preserved
        } else {
            ProvisionState::Created
        },
{
    if existed {
        ProvisionState::Preserved
    } else {
        ProvisionState::Created
    }
}

/// What becomes of a file to provision: an existing file is preserved, anything else at its path
/// is a failure, and where nothing is there the file is still to be written.
pub fn existing_file_state(path: &String, exists_there: bool, is_file: bool) -> (state: Result<
    Option<ProvisionState>,
    AppError,
>)
    ensures
        match state {
            Ok(None) => !exists_there,
            Ok(Some(found)) => exists_there && is_file && found == ProvisionState::Preserved,
            Err(error) => exists_there && !is_file && (error matches AppError::InitIo {
                path: shown,
                reason,
            } && shown@ == path@ && reason@ == "path exists but is not a file"@),
        },
{
    if !exists_there {
        return Ok(None);
    }
    if !is_file {
        return Err(
            AppError::InitIo {
                path: path.clone(),
                reason: "path exists but is not a file".to_owned(),
            },
        );
    }
    Ok(Some(ProvisionState::Preserved))
}

// Doctor ----------------------------------------------------------------------------------------

/// Read-only host probes around a command runner.
#[derive(Debug)]
pub struct SystemDoctorProbe<R> {
    /// Runner of privileged probes.
    pub runner: R,
}

impl<R> SystemDoctorProbe<R> {
    /// Creates probes around the supplied runner.
    pub fn new(runner: R) -> (probe: SystemDoctorProbe<R>)
        ensures
            probe.runner == runner,
    {
        SystemDoctorProbe { runner }
    }
}

/// How a privileged probe ended.
pub open spec fn probe_rule(
    reply: Result<CommandResult, CommandRunnerError>,
    outcome: Result<(), ProbeFailure>,
) -> bool {
    match reply {
        Err(error) => outcome matches Err(ProbeFailure::Execution { reason }) && reason@
            == runner_error_text(error),
        Ok(result) => if result.status.succeeded() {
            outcome is Ok
        } else {
            outcome matches Err(ProbeFailure::Exit { status, stderr }) && status@ == status_text(
                result.status,
            ) && stderr@ == result.stderr@
        },
    }
}

impl<E: CommandExecutor> SystemDoctorProbe<SudoCommandRunner<E>> {
    /// Runs one bounded, read-only privileged probe.
    pub fn run_sudo_probe(&self, command: &str, args: &[&str]) -> (outcome: Result<
        (),
        ProbeFailure,
    >)
        ensures
            exists|request: CommandRequest, reply: Result<CommandResult, CommandRunnerError>|
                {
                    &&& #[trigger] call_ensures(
                        E::execute,
                        (&self.runner.executor, &request),
                        reply,
                    )
                    &&& request@ == sudo_request(
                        command@,
                        str_views(args@),
                        self.runner.default_timeout,
                    )
                    &&& probe_rule(reply, outcome)
                },
    {
        let reply: Result<CommandResult, CommandRunnerError> = self.runner.run(command, args);
        match reply {
            Err(error) => Err(ProbeFailure::Execution { reason: error.message() }),
            Ok(result) => {
                if result.status.success() {
                    Ok(())
                } else {
                    Err(
                        ProbeFailure::Exit {
                            status: status_string(result.status),
                            stderr: result.stderr,
                        },
                    )
                }
            },
        }
    }
}

/// Why a cache location is not usable.
#[derive(Debug)]
pub enum CacheWritableError {
    /// The metadata of the path could not be read.
    Metadata {
        /// Inspected path.
        path: String,
        /// Filesystem diagnostic.
        source: String,
    },
    /// Something other than a directory is at the path.
    NotDirectory {
        /// Inspected path.
        path: String,
    },
    /// The directory cannot be written to or traversed by anybody.
    InsufficientMode {
        /// Inspected path.
        path: String,
    },
    /// No directory above the path exists.
    MissingParent {
        /// Cache path.
        path: String,
    },
}

/// Operator-facing text of a cache location failure.
pub open spec fn cache_error_text(error: CacheWritableError) -> Seq<char> {
    match error {
        CacheWritableError::Metadata { path, source } => "failed to read metadata for "@ + path@
            + ": "@ + source@,
        CacheWritableError::NotDirectory { path } => "path exists but is not a directory: "@ + path@,
        CacheWritableError::InsufficientMode { path } =>
            "path lacks write or directory traversal permission bits: "@ + path@,
        CacheWritableError::MissingParent { path } => "no existing parent directory found for "@
            + path@,
    }
}

fn labelled(label: &str, path: &String) -> (text: String)
    ensures
        text@ == label@ + path@,
{
    let mut text: String = label.to_owned();
    text.append(path.as_str());
    text
}

impl CacheWritableError {
    /// Operator-facing description.
    pub fn message(&self) -> (text: String)
        ensures
            text@ == cache_error_text(*self),
    {
        match self {
            CacheWritableError::Metadata { path, source } => {
                let mut text: String = labelled("failed to read metadata for ", path);
                text.append(": ");
                text.append(source.as_str());
                text
            },
            CacheWritableError::NotDirectory { path } => labelled(
                "path exists but is not a directory: ",
                path,
            ),
            CacheWritableError::InsufficientMode { path } => labelled(
                "path lacks write or directory traversal permission bits: ",
                path,
            ),
            CacheWritableError::MissingParent { path } => labelled(
                "no existing parent directory found for ",
                path,
            ),
        }
    }
}

/// What is known of a path.
pub struct PathFacts {
    /// It is a directory.
    pub is_directory: bool,
    /// Its permission bits.
    pub mode: u32,
}

/// Somebody may write to the directory, and somebody may traverse it.
pub open spec fn mutable_mode(mode: u32) -> bool {
    mode & 0o222u32 != 0 && mode & 0o111u32 != 0
}

/// Returns whether permission bits allow somebody to change a directory.
pub fn directory_has_mutation_permission_bits(mode: u32) -> (allowed: bool)
    ensures
        allowed == mutable_mode(mode),
{
    mode & 0o222u32 != 0 && mode & 0o111u32 != 0
}

/// Whether a directory can plausibly be written to.
pub open spec fn directory_rule(
    path: Seq<char>,
    facts: Result<PathFacts, String>,
    outcome: Result<(), CacheWritableError>,
) -> bool {
    match facts {
        Err(reason) => outcome matches Err(CacheWritableError::Metadata { path: shown, source })
            && shown@ == path && source@ == reason@,
        Ok(found) => if !found.is_directory {
            outcome matches Err(CacheWritableError::NotDirectory { path: shown }) && shown@ == path
        } else if !mutable_mode(found.mode) {
            outcome matches Err(CacheWritableError::InsufficientMode { path: shown }) && shown@
                == path
        } else {
            outcome is Ok
        },
    }
}

/// Judges whether a directory can plausibly be written to.
pub fn ensure_directory_is_writable(path: &String, facts: Result<PathFacts, String>) -> (outcome:
    Result<(), CacheWritableError>)
    ensures
        directory_rule(path@, facts, outcome),
{
    match facts {
        Err(reason) => Err(CacheWritableError::Metadata { path: path.clone(), source: reason }),
        Ok(found) => {
            if !found.is_directory {
                return Err(CacheWritableError::NotDirectory { path: path.clone() });
            }
            if !directory_has_mutation_permission_bits(found.mode) {
                return Err(CacheWritableError::InsufficientMode { path: path.clone() });
            }
            Ok(())
        },
    }
}

/// Where a cache lives, or would: itself or its nearest existing ancestor, with what is known of
/// that path.
pub struct CacheSite {
    /// The cache path itself exists.
    pub cache_exists: bool,
    /// Nearest existing ancestor; looked for where the cache does not exist.
    pub parent: Option<String>,
    /// Facts of the cache path or of that ancestor.
    pub facts: Result<PathFacts, String>,
}

/// Judges a cache location without touching it.
pub fn judge_cache_path(path: &String, site: CacheSite) -> (readiness: Result<
    CacheReadiness,
    CacheWritableError,
>)
    ensures
        if site.cache_exists {
            exists|checked: Result<(), CacheWritableError>|
                {
                    &&& #[trigger] directory_rule(path@, site.facts, checked)
                    &&& match checked {
                        Ok(_) => readiness == Ok::<CacheReadiness, CacheWritableError>(
                            CacheReadiness::ExistingDirectory,
                        ),
                        Err(error) => readiness == Err::<CacheReadiness, CacheWritableError>(error),
                    }
                }
        } else {
            match site.parent {
                None => readiness matches Err(CacheWritableError::MissingParent { path: shown })
                    && shown@ == path@,
                Some(parent) => exists|checked: Result<(), CacheWritableError>|
                    {
                        &&& #[trigger] directory_rule(parent@, site.facts, checked)
                        &&& match checked {
                            Ok(_) => readiness == Ok::<CacheReadiness, CacheWritableError>(
                                CacheReadiness::CreatableFromParent { parent },
                            ),
                            Err(error) => readiness == Err::<CacheReadiness, CacheWritableError>(
                                error,
                            ),
                        }
                    },
            }
        },
{
    let CacheSite { cache_exists, parent, facts } = site;
    if cache_exists {
        return match ensure_directory_is_writable(path, facts) {
            Ok(()) => Ok(CacheReadiness::ExistingDirectory),
            Err(error) => Err(error),
        };
    }
    match parent {
        None => Err(CacheWritableError::MissingParent { path: path.clone() }),
        Some(parent) => match ensure_directory_is_writable(&parent, facts) {
            Ok(()) => Ok(CacheReadiness::CreatableFromParent { parent }),
            Err(error) => Err(error),
        },
    }
}

} // verus!
