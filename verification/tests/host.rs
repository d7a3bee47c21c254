//! Enforcement, flush, initialization and probe adapters against fakes.

use std::cell::RefCell;

use kidobo::adapter::command_runner::{
    CommandExecutor, CommandRequest, CommandResult, CommandRunnerError, ProcessStatus,
    SudoCommandRunner,
};
use kidobo::adapter::enforcement::{
    CommandEnforcementBackend, IpsetCommandRunner, IpsetSetSpec, IpsetSets,
};
use kidobo::adapter::errors::{lock_outcome, LockAttempt, LockError};
use kidobo::adapter::host::{
    cleanup_outcome, directory_has_mutation_permission_bits, directory_state, existing_file_state,
    judge_cache_path, select_executable, CacheSite, CommandFlushBackend, FileInitProvisioner,
    InitCommandRunner, PathFacts, SystemDoctorProbe,
};
use kidobo::adapter::iptables::FirewallCommandRunner;
use kidobo::policy::config::FirewallAction;
use kidobo::policy::network_types::{AddressFamily, CanonicalCidr};
use kidobo::workflow::init::ProvisionState;
use kidobo::workflow::source::{Notice, NoticeLevel};
use kidobo::workflow::sync::{EnforcementBackend, EnforcementPlan, ManagedSetSpec};

struct RecordingRunner(RefCell<Vec<(String, Vec<String>)>>);

impl RecordingRunner {
    fn record(&self, command: &str, args: &[&str]) -> CommandResult {
        self.0.borrow_mut().push((
            command.to_string(),
            args.iter().map(|value| (*value).to_string()).collect(),
        ));
        let effective = if args.starts_with(&["-w", "5"]) {
            &args[2..]
        } else {
            args
        };
        if effective.starts_with(&["-D", "INPUT"]) {
            CommandResult {
                status: ProcessStatus::Exited(1),
                stdout: String::new(),
                stderr: "Bad rule (does a matching rule exist in that chain?).".to_string(),
            }
        } else {
            CommandResult {
                status: ProcessStatus::Exited(0),
                stdout: String::new(),
                stderr: String::new(),
            }
        }
    }
}

impl IpsetCommandRunner for RecordingRunner {
    fn run(&self, command: &str, args: &[&str]) -> Result<CommandResult, CommandRunnerError> {
        Ok(self.record(command, args))
    }
}

impl FirewallCommandRunner for RecordingRunner {
    fn run(&self, command: &str, args: &[&str]) -> Result<CommandResult, CommandRunnerError> {
        Ok(self.record(command, args))
    }
}

impl IpsetSets for RecordingRunner {
    fn ensure_ipset_exists(&self, spec: &IpsetSetSpec) -> Result<(), String> {
        let _ = self.record("ipset", &["create", &spec.set_name]);
        Ok(())
    }

    fn atomic_replace_ipset_values(
        &self,
        spec: &IpsetSetSpec,
        _entries: &[CanonicalCidr],
    ) -> Result<(), String> {
        let _ = self.record("ipset", &["restore", &spec.set_name]);
        Ok(())
    }
}

fn managed_set(family: AddressFamily, name: &str) -> ManagedSetSpec {
    ManagedSetSpec {
        family,
        set_name: name.to_string(),
        set_type: "hash:net".to_string(),
        hashsize: 1024,
        maxelem: 100,
        timeout: 0,
    }
}

#[test]
fn disabled_ipv6_cleanup_never_destroys_shared_ipv4_set_name() {
    let backend = CommandEnforcementBackend::new(RecordingRunner(RefCell::new(Vec::new())));
    let notices = backend.cleanup_disabled_ipv6(&EnforcementPlan {
        ipv4: managed_set(AddressFamily::Ipv4, "shared"),
        ipv6: managed_set(AddressFamily::Ipv6, "shared"),
        enable_ipv6: false,
        chain_action: FirewallAction::Drop,
    });

    assert!(notices
        .iter()
        .any(|notice| notice.message.contains("name matches")));
    assert!(backend
        .runner
        .0
        .borrow()
        .iter()
        .all(|(command, _)| command != "ipset"));
}

#[test]
fn disabled_ipv6_cleanup_destroys_its_own_set() {
    let backend = CommandEnforcementBackend::new(RecordingRunner(RefCell::new(Vec::new())));
    let _ = backend.cleanup_disabled_ipv6(&EnforcementPlan {
        ipv4: managed_set(AddressFamily::Ipv4, "kidobo"),
        ipv6: managed_set(AddressFamily::Ipv6, "kidobo-v6"),
        enable_ipv6: false,
        chain_action: FirewallAction::Drop,
    });

    assert!(backend
        .runner
        .0
        .borrow()
        .iter()
        .any(|(command, args)| command == "ipset" && args.contains(&"kidobo-v6".to_string())));
}

/// Firewall commands succeed; the destruction of a set is answered as told.
struct DestroyRunner(CommandResult);

impl IpsetCommandRunner for DestroyRunner {
    fn run(&self, _command: &str, _args: &[&str]) -> Result<CommandResult, CommandRunnerError> {
        Ok(self.0.clone())
    }
}

impl FirewallCommandRunner for DestroyRunner {
    fn run(&self, _command: &str, _args: &[&str]) -> Result<CommandResult, CommandRunnerError> {
        Ok(CommandResult {
            status: ProcessStatus::Exited(0),
            stdout: String::new(),
            stderr: String::new(),
        })
    }
}

impl IpsetSets for DestroyRunner {
    fn ensure_ipset_exists(&self, _spec: &IpsetSetSpec) -> Result<(), String> {
        Ok(())
    }

    fn atomic_replace_ipset_values(
        &self,
        _spec: &IpsetSetSpec,
        _entries: &[CanonicalCidr],
    ) -> Result<(), String> {
        Ok(())
    }
}

fn destruction_notices(status: ProcessStatus, stderr: &str) -> Vec<Notice> {
    CommandEnforcementBackend::new(DestroyRunner(CommandResult {
        status,
        stdout: String::new(),
        stderr: stderr.to_string(),
    }))
    .cleanup_disabled_ipv6(&EnforcementPlan {
        ipv4: managed_set(AddressFamily::Ipv4, "kidobo"),
        ipv6: managed_set(AddressFamily::Ipv6, "kidobo-v6"),
        enable_ipv6: false,
        chain_action: FirewallAction::Drop,
    })
}

#[test]
fn failed_destruction_of_the_disabled_set_is_a_warning() {
    let notices = destruction_notices(
        ProcessStatus::Exited(1),
        "Set cannot be destroyed: it is in use by a kernel component",
    );
    assert_eq!(notices.len(), 1);
    assert_eq!(notices[0].level, NoticeLevel::Warning);
    assert_eq!(
        notices[0].message,
        "disabled IPv6 ipset cleanup failed softly for kidobo-v6: status=Exited(1) stderr=Set cannot be destroyed: it is in use by a kernel component"
    );
    assert_eq!(destruction_notices(ProcessStatus::Signaled(9), "").len(), 1);
}

#[test]
fn destroyed_or_missing_disabled_sets_give_no_notice() {
    assert!(destruction_notices(ProcessStatus::Exited(0), "").is_empty());
    assert!(destruction_notices(
        ProcessStatus::Exited(1),
        "The set with the given name does not exist"
    )
    .is_empty());
}

struct OneReplyRunner {
    response: RefCell<Option<CommandResult>>,
}

impl IpsetCommandRunner for OneReplyRunner {
    fn run(&self, _command: &str, _args: &[&str]) -> Result<CommandResult, CommandRunnerError> {
        Ok(self.response.borrow_mut().take().expect("response"))
    }
}

impl FirewallCommandRunner for OneReplyRunner {
    fn run(&self, _command: &str, _args: &[&str]) -> Result<CommandResult, CommandRunnerError> {
        Ok(self.response.borrow_mut().take().expect("response"))
    }
}

#[test]
fn missing_ipset_is_an_idempotent_success() {
    let result = CommandResult {
        status: ProcessStatus::Exited(1),
        stdout: String::new(),
        stderr: "The set with the given name does not exist".to_string(),
    };

    cleanup_outcome("ipset", &["destroy", "kidobo"], Ok(result)).expect("missing is success");
}

#[test]
fn backend_maps_failed_ipset_cleanup_to_existing_diagnostic() {
    let backend = CommandFlushBackend::new(OneReplyRunner {
        response: RefCell::new(Some(CommandResult {
            status: ProcessStatus::Exited(1),
            stdout: String::new(),
            stderr: "busy".to_string(),
        })),
    });

    let error = backend.destroy_ipset("kidobo").expect_err("must fail");
    assert!(error.contains("ipset destroy kidobo failed"));
    assert!(error.contains("busy"));
}

struct SystemdRunner {
    calls: RefCell<Vec<Vec<String>>>,
    fail_at: Option<usize>,
}

impl InitCommandRunner for SystemdRunner {
    fn run(&self, _command: &str, args: &[&str]) -> Result<CommandResult, CommandRunnerError> {
        self.calls
            .borrow_mut()
            .push(args.iter().map(|value| (*value).to_string()).collect());
        if self.fail_at == Some(self.calls.borrow().len()) {
            return Ok(CommandResult {
                status: ProcessStatus::Exited(9),
                stdout: String::new(),
                stderr: "injected systemd failure".to_string(),
            });
        }
        Ok(CommandResult {
            status: ProcessStatus::Exited(0),
            stdout: String::new(),
            stderr: String::new(),
        })
    }
}

#[test]
fn systemd_enablement_uses_expected_command_sequence() {
    let provisioner = FileInitProvisioner::new(SystemdRunner {
        calls: RefCell::new(Vec::new()),
        fail_at: None,
    });
    provisioner.enable_systemd_timer().expect("enable");
    assert_eq!(
        *provisioner.runner.calls.borrow(),
        [
            vec!["daemon-reload"],
            vec!["reset-failed", "kidobo-sync.service"],
            vec!["enable", "--now", "kidobo-sync.timer"],
        ]
    );
}

#[test]
fn systemd_enablement_maps_nonzero_exit_to_application_error() {
    let provisioner = FileInitProvisioner::new(SystemdRunner {
        calls: RefCell::new(Vec::new()),
        fail_at: Some(1),
    });

    let error = provisioner
        .enable_systemd_timer()
        .expect_err("daemon-reload failure must stop init");

    assert_eq!(provisioner.runner.calls.borrow().len(), 1);
    assert!(error.message().contains("systemctl daemon-reload"));
    assert!(error.message().contains("injected systemd failure"));
}

#[test]
fn existing_files_are_preserved_and_directories_are_not_files() {
    let path = "/etc/kidobo/config.toml".to_string();
    assert_eq!(directory_state(true), ProvisionState::Preserved);
    assert_eq!(directory_state(false), ProvisionState::Created);
    assert_eq!(
        existing_file_state(&path, true, true).expect("file"),
        Some(ProvisionState::Preserved)
    );
    assert_eq!(existing_file_state(&path, false, false).expect("missing"), None);
    assert!(existing_file_state(&path, true, false)
        .expect_err("directory")
        .message()
        .contains(&path));
}

#[test]
fn first_present_executable_is_selected() {
    let candidates = vec!["/usr/bin/kidobo".to_string(), "/usr/local/bin/kidobo".to_string()];
    assert_eq!(
        select_executable(&candidates, &vec![false, true]).expect("selected"),
        "/usr/local/bin/kidobo"
    );
    assert!(select_executable(&candidates, &vec![false, false])
        .expect_err("none")
        .message()
        .contains("/usr/bin/kidobo"));
}

struct ProbeExecutor(RefCell<Option<Result<CommandResult, CommandRunnerError>>>);

impl CommandExecutor for ProbeExecutor {
    fn execute(&self, _request: &CommandRequest) -> Result<CommandResult, CommandRunnerError> {
        self.0.borrow_mut().take().expect("reply")
    }
}

#[test]
fn sudo_probe_reports_failing_commands() {
    let probe = SystemDoctorProbe::new(SudoCommandRunner::new(
        ProbeExecutor(RefCell::new(Some(Ok(CommandResult {
            status: ProcessStatus::Exited(0),
            stdout: String::new(),
            stderr: String::new(),
        })))),
        1_000,
    ));
    assert!(probe.run_sudo_probe("ipset", &["list"]).is_ok());

    let probe = SystemDoctorProbe::new(SudoCommandRunner::new(
        ProbeExecutor(RefCell::new(Some(Err(CommandRunnerError::Timeout {
            command: "sudo -n ipset list".to_string(),
            timeout_ms: 1_000,
        })))),
        1_000,
    ));
    assert!(probe.run_sudo_probe("ipset", &["list"]).is_err());
}

fn cache_site(mode: u32, is_directory: bool) -> CacheSite {
    CacheSite {
        cache_exists: true,
        parent: Some("/var".to_string()),
        facts: Ok(PathFacts { is_directory, mode }),
    }
}

#[test]
fn cache_readiness_needs_write_and_traversal_bits_of_a_directory() {
    let path = "/var/cache".to_string();
    for mode in [0o222, 0o555] {
        assert!(!directory_has_mutation_permission_bits(mode));
        assert!(judge_cache_path(&path, cache_site(mode, true)).is_err());
    }
    assert!(directory_has_mutation_permission_bits(0o700));
    assert!(judge_cache_path(&path, cache_site(0o755, true)).is_ok());
    assert!(judge_cache_path(&path, cache_site(0o755, false)).is_err());
}

#[test]
fn a_held_lock_is_told_from_other_failures() {
    let path = "/run/kidobo.lock".to_string();
    assert!(lock_outcome(&path, LockAttempt::Acquired).is_ok());
    assert!(matches!(
        lock_outcome(&path, LockAttempt::WouldBlock),
        Err(LockError::AlreadyHeld { .. })
    ));
    let failed = lock_outcome(
        &path,
        LockAttempt::Failed {
            reason: "permission denied".to_string(),
        },
    )
    .expect_err("failure");
    assert_eq!(
        failed.message(),
        "failed to acquire lock /run/kidobo.lock: permission denied"
    );
}
