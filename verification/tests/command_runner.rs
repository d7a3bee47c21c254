//! Command requests and their diagnostics.

use kidobo::adapter::command_runner::{
    display_command, duration_millis_u64, CommandExecutor, CommandRequest, CommandResult,
    CommandRunnerError, ProcessStatus, SudoCommandRunner, DEFAULT_COMMAND_TIMEOUT,
    PRODUCTION_COMMAND_OUTPUT_LIMIT,
};
use kidobo::adapter::enforcement::IpsetCommandRunner;
use kidobo::adapter::host::InitCommandRunner;
use kidobo::adapter::iptables::FirewallCommandRunner;
use kidobo::adapter::supervision::{
    collect_result, supervise, OutputReading, ProcessPoll, SupervisionStep,
};
use std::cell::RefCell;
use std::collections::VecDeque;
use std::time::Duration;

#[derive(Default)]
struct MockExecutor {
    requests: RefCell<Vec<CommandRequest>>,
    responses: RefCell<VecDeque<Result<CommandResult, CommandRunnerError>>>,
}

impl MockExecutor {
    fn new(responses: Vec<Result<CommandResult, CommandRunnerError>>) -> Self {
        Self {
            requests: RefCell::new(Vec::new()),
            responses: RefCell::new(VecDeque::from(responses)),
        }
    }

    fn requests(&self) -> Vec<CommandRequest> {
        self.requests.borrow().clone()
    }
}

impl CommandExecutor for MockExecutor {
    fn execute(&self, request: &CommandRequest) -> Result<CommandResult, CommandRunnerError> {
        self.requests.borrow_mut().push(request.clone());
        self.responses
            .borrow_mut()
            .pop_front()
            .expect("queued response")
    }
}

#[test]
fn duration_millis_preserves_nontrivial_values() {
    assert_eq!(duration_millis_u64(Duration::from_millis(1_234).as_millis()), 1_234);
}

#[test]
fn wraps_commands_with_sudo_n_and_captures_output() {
    let executor = MockExecutor::new(vec![Ok(CommandResult {
        status: ProcessStatus::Exited(0),
        stdout: "ok".to_string(),
        stderr: String::new(),
    })]);
    let runner = SudoCommandRunner::new(executor, 5_000);

    let result = runner
        .run("ipset", &["list", "kidobo"])
        .expect("command result");
    assert_eq!(result.status.code(), Some(0));
    assert_eq!(result.stdout, "ok");
    assert_eq!(result.stderr, "");

    let requests = runner.executor.requests();
    assert_eq!(requests.len(), 1);
    assert_eq!(requests[0].program, "sudo");
    assert_eq!(requests[0].args, vec!["-n", "ipset", "list", "kidobo"]);
    assert_eq!(requests[0].timeout, 5_000);
}

#[test]
fn custom_timeout_overrides_default() {
    let executor = MockExecutor::new(vec![Ok(CommandResult {
        status: ProcessStatus::Exited(0),
        stdout: String::new(),
        stderr: String::new(),
    })]);
    let runner = SudoCommandRunner::new(executor, 30_000);

    let _ = runner
        .run_with_timeout("iptables", &["-S"], 2_000)
        .expect("command result");

    let requests = runner.executor.requests();
    assert_eq!(requests.len(), 1);
    assert_eq!(requests[0].timeout, 2_000);
}

#[test]
fn normalized_error_mapping_is_preserved() {
    let error = CommandRunnerError::Timeout {
        command: "sudo -n ipset list kidobo".to_string(),
        timeout_ms: 1_000,
    };

    let executor = MockExecutor::new(vec![Err(error.clone())]);
    let runner = SudoCommandRunner::new(executor, 1_000);

    let returned = runner
        .run("ipset", &["list", "kidobo"])
        .expect_err("must fail");
    assert_eq!(returned, error);
}

#[test]
fn default_runner_uses_default_timeout() {
    let runner: SudoCommandRunner<MockExecutor> = SudoCommandRunner::default();
    assert_eq!(runner.default_timeout, DEFAULT_COMMAND_TIMEOUT);
}

#[test]
fn production_command_output_limit_is_16_mib() {
    assert_eq!(PRODUCTION_COMMAND_OUTPUT_LIMIT, 16 * 1024 * 1024);
}


#[test]
fn durations_saturate_and_commands_are_shown_with_their_arguments() {
    assert_eq!(duration_millis_u64(u128::MAX), u64::MAX);
    assert_eq!(display_command("ipset", &["list", "kidobo"]), "ipset list kidobo");
    assert_eq!(display_command("true", &[]), "true");
}

#[test]
fn exit_codes_take_precedence_over_signals() {
    assert_eq!(ProcessStatus::from_parts(Some(3), Some(9)).code(), Some(3));
    assert_eq!(ProcessStatus::from_parts(None, Some(9)).code(), None);
    assert!(!ProcessStatus::from_parts(None, None).success());
    assert!(ProcessStatus::from_parts(Some(0), None).success());
}

fn sleeping_request(timeout: u64) -> CommandRequest {
    CommandRequest {
        program: "sleep".to_string(),
        args: vec!["9".to_string()],
        timeout,
    }
}

#[test]
fn a_running_process_is_left_alone_until_its_time_is_over() {
    let command = "sleep 9".to_string();
    let request = sleeping_request(2);

    assert!(matches!(
        supervise(&command, &request, ProcessPoll::Running { elapsed: 1_999_999 }),
        SupervisionStep::Pause
    ));
    match supervise(&command, &request, ProcessPoll::Running { elapsed: 2_000_000 }) {
        SupervisionStep::Terminate(CommandRunnerError::Timeout {
            command,
            timeout_ms,
        }) => {
            assert_eq!(command, "sleep 9");
            assert_eq!(timeout_ms, 2);
        }
        other => panic!("unexpected step: {other:?}"),
    }
}

#[test]
fn an_ended_process_is_collected_and_an_unknown_state_terminates() {
    let command = "sleep 9".to_string();
    let request = sleeping_request(2);

    let ended = supervise(
        &command,
        &request,
        ProcessPoll::Ended {
            code: None,
            signal: Some(9),
        },
    );
    assert!(matches!(
        ended,
        SupervisionStep::Collect(ProcessStatus::Signaled(9))
    ));

    let failed = supervise(
        &command,
        &request,
        ProcessPoll::Failed {
            reason: "no child".to_string(),
        },
    );
    match failed {
        SupervisionStep::Terminate(CommandRunnerError::Poll { reason, .. }) => {
            assert_eq!(reason, "no child");
        }
        other => panic!("unexpected step: {other:?}"),
    }
}

#[test]
fn collected_output_replaces_bytes_that_are_no_text() {
    let result = collect_result(
        &"cat".to_string(),
        ProcessStatus::Exited(0),
        OutputReading::Bytes(vec![0x61, 0xff, 0x62]),
        OutputReading::Bytes("caf\u{e9}".as_bytes().to_vec()),
    )
    .expect("result");

    assert_eq!(result.status, ProcessStatus::Exited(0));
    assert_eq!(result.stdout, "a\u{fffd}b");
    assert_eq!(result.stderr, "caf\u{e9}");
}

#[test]
fn the_first_output_that_cannot_be_read_fails_the_command() {
    let error = collect_result(
        &"cat".to_string(),
        ProcessStatus::Exited(0),
        OutputReading::Failed {
            reason: "command output exceeds 4 byte limit".to_string(),
        },
        OutputReading::Panicked,
    )
    .expect_err("unreadable stdout");
    match error {
        CommandRunnerError::Output { command, reason } => {
            assert_eq!(command, "cat");
            assert_eq!(reason, "command output exceeds 4 byte limit");
        }
        other => panic!("unexpected error: {other:?}"),
    }

    let error = collect_result(
        &"cat".to_string(),
        ProcessStatus::Exited(0),
        OutputReading::Bytes(Vec::new()),
        OutputReading::Panicked,
    )
    .expect_err("lost reader");
    match error {
        CommandRunnerError::Output { reason, .. } => {
            assert_eq!(reason, "output reader thread panicked");
        }
        other => panic!("unexpected error: {other:?}"),
    }
}

#[test]
fn every_runner_role_prepends_noninteractive_sudo() {
    let reply = || {
        Ok(CommandResult {
            status: ProcessStatus::Exited(0),
            stdout: "done".to_string(),
            stderr: String::new(),
        })
    };
    let executor = MockExecutor::new(vec![reply(), reply(), reply()]);
    let runner = SudoCommandRunner::new(executor, 7_000);

    let firewall = FirewallCommandRunner::run(&runner, "iptables", &["-S", "INPUT"]);
    let ipset = IpsetCommandRunner::run(&runner, "ipset", &["destroy", "kidobo"]);
    let init = InitCommandRunner::run(&runner, "systemctl", &["daemon-reload"]);
    for result in [firewall, ipset, init] {
        assert_eq!(result.expect("reply").stdout, "done");
    }

    let requests = runner.executor.requests();
    let args: Vec<Vec<String>> = requests.iter().map(|request| request.args.clone()).collect();
    assert_eq!(
        args,
        [
            vec!["-n", "iptables", "-S", "INPUT"],
            vec!["-n", "ipset", "destroy", "kidobo"],
            vec!["-n", "systemctl", "daemon-reload"],
        ]
    );
    assert!(requests
        .iter()
        .all(|request| request.program == "sudo" && request.timeout == 7_000));
}
