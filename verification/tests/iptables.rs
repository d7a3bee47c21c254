//! Firewall wiring against recorded and stateful command runners.

use kidobo::adapter::command_runner::{CommandResult, CommandRunnerError, ProcessStatus};
use kidobo::adapter::firewall_text::{
    ChainAction, FirewallError, FirewallFamily, KIDOBO_CHAIN_NAME, KIDOBO_STAGING_CHAIN_NAME,
};
use kidobo::adapter::iptables::{
    chain_exists, cleanup_firewall_wiring, ensure_firewall_wiring,
    ensure_firewall_wiring_for_families, remove_all_input_jumps_for_chain, FirewallCommandRunner,
};
use std::cell::RefCell;
use std::collections::{BTreeMap, VecDeque};


struct MockRunner {
    responses: RefCell<VecDeque<Result<CommandResult, CommandRunnerError>>>,
    invocations: RefCell<Vec<(String, Vec<String>)>>,
}

impl MockRunner {
    fn new(responses: Vec<Result<CommandResult, CommandRunnerError>>) -> Self {
        Self {
            responses: RefCell::new(VecDeque::from(responses)),
            invocations: RefCell::new(Vec::new()),
        }
    }

    fn invocations(&self) -> Vec<(String, Vec<String>)> {
        self.invocations.borrow().clone()
    }
}

impl FirewallCommandRunner for MockRunner {
    fn run(&self, command: &str, args: &[&str]) -> Result<CommandResult, CommandRunnerError> {
        self.invocations.borrow_mut().push((
            command.to_string(),
            args.iter().map(|value| (*value).to_string()).collect(),
        ));
        self.responses
            .borrow_mut()
            .pop_front()
            .expect("queued response")
    }
}

#[derive(Default)]
struct FirewallTable {
    chains: BTreeMap<String, Vec<String>>,
    input_rules: Vec<String>,
}

enum UnrelatedInjection {
    Disabled,
    Armed,
    Done,
}

impl Default for UnrelatedInjection {
    fn default() -> Self {
        UnrelatedInjection::Disabled
    }
}

// Keep shared INPUT order and owned-chain targets as state so injected failures can detect a
// fail-open window; an invocation-only fake cannot prove that enforcement remains reachable.
#[derive(Default)]
struct StatefulControl {
    tables: BTreeMap<String, FirewallTable>,
    invocations: Vec<(String, Vec<String>)>,
    unrelated_injection: UnrelatedInjection,
    fail_stage_activation: bool,
    fail_post_stage_command: Option<usize>,
    stage_active: bool,
    post_stage_commands: usize,
}

#[derive(Default)]
struct StatefulRunner {
    control: RefCell<StatefulControl>,
}

impl StatefulRunner {
    fn with_existing_wiring(stable_jump_count: usize) -> Self {
        let runner = Self::default();
        let mut control = runner.control.borrow_mut();
        let table = control.tables.entry("iptables".to_string()).or_default();
        table.chains.insert(
            KIDOBO_CHAIN_NAME.to_string(),
            vec!["-m set --match-set old-set src -j DROP".to_string()],
        );
        table.input_rules.extend(std::iter::repeat_n(
            format!("-j {KIDOBO_CHAIN_NAME}"),
            stable_jump_count,
        ));
        drop(control);
        runner
    }

    fn invocations(&self) -> Vec<(String, Vec<String>)> {
        self.control.borrow().invocations.clone()
    }

    fn input_rules(&self, binary: &str) -> Vec<String> {
        self.control
            .borrow()
            .tables
            .get(binary)
            .map_or_else(Vec::new, |table| table.input_rules.clone())
    }

    fn chain_rules(&self, binary: &str, chain_name: &str) -> Vec<String> {
        self.control
            .borrow()
            .tables
            .get(binary)
            .and_then(|table| table.chains.get(chain_name))
            .cloned()
            .unwrap_or_default()
    }

    fn set_inject_unrelated_on_stable_delete(&self) {
        self.control.borrow_mut().unrelated_injection = UnrelatedInjection::Armed;
    }

    fn set_fail_stage_activation(&self) {
        self.control.borrow_mut().fail_stage_activation = true;
    }

    fn set_fail_post_stage_command(&self, command_number: usize) {
        self.control.borrow_mut().fail_post_stage_command = Some(command_number);
    }

    fn enforcement_active(&self, binary: &str) -> bool {
        let control = self.control.borrow();
        let Some(table) = control.tables.get(binary) else {
            return false;
        };
        let stable_ready = table
            .chains
            .get(KIDOBO_CHAIN_NAME)
            .is_some_and(|rules| !rules.is_empty());
        let stable_active = table
            .input_rules
            .iter()
            .any(|rule| rule == &format!("-j {KIDOBO_CHAIN_NAME}"));
        let staging_active = table
            .input_rules
            .iter()
            .any(|rule| rule == &format!("-j {KIDOBO_STAGING_CHAIN_NAME}"))
            && table
                .chains
                .get(KIDOBO_STAGING_CHAIN_NAME)
                .is_some_and(|rules| rules == &[format!("-j {KIDOBO_CHAIN_NAME}")]);
        stable_ready && (stable_active || staging_active)
    }
}

impl FirewallCommandRunner for StatefulRunner {
    fn run(&self, command: &str, args: &[&str]) -> Result<CommandResult, CommandRunnerError> {
        let mut control = self.control.borrow_mut();
        control.invocations.push((
            command.to_string(),
            args.iter().map(|value| (*value).to_string()).collect(),
        ));
        let operation = args.get(2..).expect("xtables wait prefix");
        let activates_stage =
            operation == ["-I", "INPUT", "1", "-j", KIDOBO_STAGING_CHAIN_NAME];
        if activates_stage && control.fail_stage_activation {
            return Ok(command_failure("injected stage activation failure"));
        }
        if control.stage_active {
            control.post_stage_commands += 1;
            if control.fail_post_stage_command == Some(control.post_stage_commands) {
                return Ok(command_failure("injected post-stage failure"));
            }
        }

        let should_inject = matches!(control.unrelated_injection, UnrelatedInjection::Armed)
            && operation == ["-D", "INPUT", "-j", KIDOBO_CHAIN_NAME];
        if should_inject {
            control
                .tables
                .entry(command.to_string())
                .or_default()
                .input_rules
                .insert(0, "-p tcp --dport 22 -j ACCEPT".to_string());
            control.unrelated_injection = UnrelatedInjection::Done;
        }

        let result = apply_stateful_operation(&mut control, command, operation);
        if activates_stage && result.status.success() {
            control.stage_active = true;
        }
        Ok(result)
    }
}

fn apply_stateful_operation(
    control: &mut StatefulControl,
    command: &str,
    operation: &[&str],
) -> CommandResult {
    let table = control.tables.entry(command.to_string()).or_default();
    match operation {
        ["-S", "INPUT"] => CommandResult {
            status: ProcessStatus::Exited(0),
            stdout: render_rules("INPUT", &table.input_rules),
            stderr: String::new(),
        },
        ["-S", chain_name] => {
            table
                .chains
                .get(*chain_name)
                .map_or_else(missing_chain, |rules| CommandResult {
                    status: ProcessStatus::Exited(0),
                    stdout: render_rules(chain_name, rules),
                    stderr: String::new(),
                })
        }
        ["-N", chain_name] => {
            table.chains.entry((*chain_name).to_string()).or_default();
            ok(0)
        }
        ["-A", chain_name, rule @ ..] => {
            table
                .chains
                .entry((*chain_name).to_string())
                .or_default()
                .push(rule.join(" "));
            ok(0)
        }
        ["-I", "INPUT", "1", "-j", chain_name] => {
            table.input_rules.insert(0, format!("-j {chain_name}"));
            ok(0)
        }
        ["-D", "INPUT", "-j", chain_name] => {
            if !table.chains.contains_key(*chain_name) {
                return missing_target_chain(chain_name);
            }
            let expected = format!("-j {chain_name}");
            table
                .input_rules
                .iter()
                .position(|rule| rule == &expected)
                .map_or_else(missing_rule, |position| {
                    table.input_rules.remove(position);
                    ok(0)
                })
        }
        ["-D", chain_name, "1"] => table
            .chains
            .get_mut(*chain_name)
            .filter(|rules| !rules.is_empty())
            .map_or_else(missing_rule, |rules| {
                rules.remove(0);
                ok(0)
            }),
        ["-F", chain_name] => {
            table
                .chains
                .get_mut(*chain_name)
                .map_or_else(missing_chain, |rules| {
                    rules.clear();
                    ok(0)
                })
        }
        ["-X", chain_name] => {
            if table.chains.get(*chain_name).is_some_and(Vec::is_empty) {
                table.chains.remove(*chain_name);
                ok(0)
            } else {
                missing_chain()
            }
        }
        _ => command_failure("unexpected test command"),
    }
}

fn render_rules(chain_name: &str, rules: &[String]) -> String {
    let mut output = String::new();
    for rule in rules {
        output.push_str(&format!("-A {chain_name} {rule}\n"));
    }
    output
}

fn command_failure(stderr: &str) -> CommandResult {
    CommandResult {
        status: ProcessStatus::Exited(2),
        stdout: String::new(),
        stderr: stderr.to_string(),
    }
}

fn missing_chain() -> CommandResult {
    CommandResult {
        status: ProcessStatus::Exited(1),
        stdout: String::new(),
        stderr: "No chain/target/match by that name".to_string(),
    }
}

fn missing_rule() -> CommandResult {
    CommandResult {
        status: ProcessStatus::Exited(1),
        stdout: String::new(),
        stderr: "Bad rule (does a matching rule exist in that chain?).".to_string(),
    }
}

fn missing_target_chain(chain_name: &str) -> CommandResult {
    CommandResult {
        status: ProcessStatus::Exited(2),
        stdout: String::new(),
        stderr: format!("iptables v1.8.10 (nf_tables): Chain '{chain_name}' does not exist"),
    }
}

fn ok(status: i32) -> CommandResult {
    CommandResult {
        status: ProcessStatus::Exited(status),
        stdout: String::new(),
        stderr: String::new(),
    }
}

#[test]
fn chain_exists_maps_missing_chain_to_false() {
    let runner = MockRunner::new(vec![Ok(CommandResult {
        status: ProcessStatus::Exited(1),
        stdout: String::new(),
        stderr: "iptables: No chain/target/match by that name.".to_string(),
    })]);

    let exists =
        chain_exists(&runner, FirewallFamily::Ipv4, KIDOBO_CHAIN_NAME).expect("exists");
    assert!(!exists);
    assert_eq!(
        runner.invocations()[0].1,
        vec!["-w", "5", "-S", KIDOBO_CHAIN_NAME]
    );
}

#[test]
fn firewall_family_selects_exact_binary() {
    assert_eq!(FirewallFamily::Ipv4.binary(), "iptables");
    assert_eq!(FirewallFamily::Ipv6.binary(), "ip6tables");
}

#[test]
fn jump_cleanup_propagates_nonmissing_delete_failure() {
    let runner = MockRunner::new(vec![
        Ok(CommandResult {
            status: ProcessStatus::Exited(0),
            stdout: format!("-A INPUT -j {KIDOBO_CHAIN_NAME}\n"),
            stderr: String::new(),
        }),
        Ok(CommandResult {
            status: ProcessStatus::Exited(1),
            stdout: String::new(),
            stderr: "permission denied".to_string(),
        }),
    ]);

    let err =
        remove_all_input_jumps_for_chain(&runner, FirewallFamily::Ipv4, KIDOBO_CHAIN_NAME)
            .expect_err("nonmissing delete failure");

    assert!(matches!(err, FirewallError::CommandFailed { .. }));
    assert_eq!(runner.invocations().len(), 2);
    assert_eq!(
        runner.invocations()[1].1,
        vec!["-w", "5", "-D", "INPUT", "-j", KIDOBO_CHAIN_NAME]
    );
}

#[test]
fn ensures_chain_rule_before_input_jump_without_flushing() {
    let runner = StatefulRunner::default();

    ensure_firewall_wiring(
        &runner,
        FirewallFamily::Ipv4,
        "kidobo-set",
        ChainAction::Drop,
    )
    .expect("wiring");

    let invocations = runner.invocations();
    assert_eq!(invocations[0].0, "iptables");
    assert_eq!(invocations[0].1, vec!["-w", "5", "-S", KIDOBO_CHAIN_NAME]);
    assert_eq!(invocations[1].1, vec!["-w", "5", "-N", KIDOBO_CHAIN_NAME]);
    assert_eq!(invocations[2].1, vec!["-w", "5", "-S", KIDOBO_CHAIN_NAME]);
    assert_eq!(
        invocations[3].1,
        vec![
            "-w",
            "5",
            "-A",
            KIDOBO_CHAIN_NAME,
            "-m",
            "set",
            "--match-set",
            "kidobo-set",
            "src",
            "-j",
            "DROP",
        ]
    );
    let first_input_insert = invocations
        .iter()
        .position(|(_, args)| args.get(2).is_some_and(|arg| arg == "-I"))
        .expect("INPUT insertion");
    assert!(first_input_insert > 3);
    assert_eq!(
        runner.input_rules("iptables"),
        [format!("-j {KIDOBO_CHAIN_NAME}")]
    );
    assert_eq!(
        runner.chain_rules("iptables", KIDOBO_CHAIN_NAME),
        ["-m set --match-set kidobo-set src -j DROP"]
    );
    assert!(
        runner
            .chain_rules("iptables", KIDOBO_STAGING_CHAIN_NAME)
            .is_empty()
    );
    assert!(
        invocations
            .iter()
            .all(|(_, args)| args.as_slice() != ["-w", "5", "-F", KIDOBO_CHAIN_NAME])
    );
}

#[test]
fn removes_old_input_jumps_only_after_reinserting() {
    let runner = StatefulRunner::with_existing_wiring(2);
    runner.set_inject_unrelated_on_stable_delete();

    ensure_firewall_wiring(
        &runner,
        FirewallFamily::Ipv4,
        "kidobo-set",
        ChainAction::Drop,
    )
    .expect("wiring");

    assert_eq!(
        runner.input_rules("iptables"),
        [
            format!("-j {KIDOBO_CHAIN_NAME}"),
            "-p tcp --dport 22 -j ACCEPT".to_string()
        ]
    );
    assert!(runner.enforcement_active("iptables"));
}

#[test]
fn input_jump_normalization_never_uses_numeric_deletion() {
    let runner = StatefulRunner::with_existing_wiring(2);

    ensure_firewall_wiring(
        &runner,
        FirewallFamily::Ipv4,
        "kidobo-set",
        ChainAction::Drop,
    )
    .expect("wiring");

    let invocations = runner.invocations();
    assert!(invocations.iter().all(|(_, args)| {
        !(args.get(2).is_some_and(|arg| arg == "-D")
            && args.get(3).is_some_and(|arg| arg == "INPUT")
            && args.get(4).is_some_and(|arg| arg.parse::<usize>().is_ok()))
    }));
    assert!(invocations.iter().any(|(_, args)| {
        args.as_slice() == ["-w", "5", "-D", "INPUT", "-j", KIDOBO_CHAIN_NAME]
    }));
}

#[test]
fn append_failure_leaves_old_chain_rule_and_input_jump_untouched() {
    let runner = MockRunner::new(vec![
        Ok(CommandResult {
            status: ProcessStatus::Exited(0),
            stdout: "-N kidobo-input\n-A kidobo-input -j DROP\n".to_string(),
            stderr: String::new(),
        }), // chain exists
        Ok(CommandResult {
            status: ProcessStatus::Exited(0),
            stdout: "-N kidobo-input\n-A kidobo-input -j DROP\n".to_string(),
            stderr: String::new(),
        }), // query rules
        Ok(CommandResult {
            status: ProcessStatus::Exited(2),
            stdout: String::new(),
            stderr: "append failed".to_string(),
        }), // append fails
    ]);

    let err = ensure_firewall_wiring(
        &runner,
        FirewallFamily::Ipv4,
        "kidobo-set",
        ChainAction::Drop,
    )
    .expect_err("wiring must fail");

    assert!(matches!(err, FirewallError::CommandFailed { .. }));
    let invocations = runner.invocations();
    assert_eq!(invocations.len(), 3);
    assert!(
        invocations
            .iter()
            .all(|(_, args)| !args.contains(&"-D".to_string()))
    );
    assert!(
        invocations
            .iter()
            .all(|(_, args)| !args.contains(&"-I".to_string()))
    );
}

#[test]
fn old_rule_delete_failure_leaves_new_rule_in_place() {
    let runner = MockRunner::new(vec![
        Ok(CommandResult {
            status: ProcessStatus::Exited(0),
            stdout: "-A kidobo-input -j DROP\n".to_string(),
            stderr: String::new(),
        }), // chain exists
        Ok(CommandResult {
            status: ProcessStatus::Exited(0),
            stdout: "-A kidobo-input -j DROP\n".to_string(),
            stderr: String::new(),
        }), // query rules
        Ok(ok(0)), // append desired
        Ok(CommandResult {
            status: ProcessStatus::Exited(2),
            stdout: String::new(),
            stderr: "delete failed".to_string(),
        }), // delete old fails
    ]);

    let err = ensure_firewall_wiring(
        &runner,
        FirewallFamily::Ipv4,
        "kidobo-set",
        ChainAction::Drop,
    )
    .expect_err("wiring must fail");

    assert!(matches!(err, FirewallError::CommandFailed { .. }));
    let invocations = runner.invocations();
    assert_eq!(invocations.len(), 4);
    assert!(invocations[2].1.contains(&"-A".to_string()));
    assert_eq!(
        invocations[3].1,
        vec!["-w", "5", "-D", KIDOBO_CHAIN_NAME, "1"]
    );
}

#[test]
fn supports_ipv6_parallel_wiring() {
    let runner = StatefulRunner::default();

    ensure_firewall_wiring_for_families(
        &runner,
        "kidobo-v4",
        "kidobo-v6",
        true,
        ChainAction::Drop,
    )
    .expect("wiring");

    let invocations = runner.invocations();
    assert!(invocations.iter().any(|(binary, _)| binary == "iptables"));
    assert!(invocations.iter().any(|(binary, _)| binary == "ip6tables"));
    assert!(runner.enforcement_active("iptables"));
    assert!(runner.enforcement_active("ip6tables"));
}

#[test]
fn supports_reject_target_rule() {
    let runner = StatefulRunner::default();

    ensure_firewall_wiring(
        &runner,
        FirewallFamily::Ipv4,
        "kidobo-set",
        ChainAction::Reject,
    )
    .expect("wiring");

    assert_eq!(
        runner.chain_rules("iptables", KIDOBO_CHAIN_NAME),
        ["-m set --match-set kidobo-set src -j REJECT"]
    );
}

#[test]
fn input_jump_insert_failure_does_not_delete_existing_jump() {
    let runner = StatefulRunner::with_existing_wiring(1);
    runner.set_fail_stage_activation();

    let err = ensure_firewall_wiring(
        &runner,
        FirewallFamily::Ipv4,
        "kidobo-set",
        ChainAction::Drop,
    )
    .expect_err("insert must fail");

    assert!(matches!(err, FirewallError::CommandFailed { .. }));
    assert_eq!(
        runner.input_rules("iptables"),
        [format!("-j {KIDOBO_CHAIN_NAME}")]
    );
    assert!(runner.enforcement_active("iptables"));
}

#[test]
fn every_post_activation_failure_keeps_an_enforcement_path() {
    // Exercise every command after the staging jump becomes active, including the probes that
    // confirm deletion and the final state inspection.
    for command_number in 1..=8 {
        let runner = StatefulRunner::with_existing_wiring(1);
        runner.set_fail_post_stage_command(command_number);

        let error = ensure_firewall_wiring(
            &runner,
            FirewallFamily::Ipv4,
            "kidobo-set",
            ChainAction::Drop,
        )
        .expect_err("injected failure must be reported");

        assert!(matches!(error, FirewallError::CommandFailed { .. }));
        assert!(
            runner.enforcement_active("iptables"),
            "lost enforcement after post-stage command {command_number}: {:?}",
            runner.input_rules("iptables")
        );
    }
}

#[test]
fn cleanup_firewall_wiring_removes_jumps_and_deletes_chain() {
    let runner = StatefulRunner::with_existing_wiring(1);
    {
        let mut control = runner.control.borrow_mut();
        let mut table = control.tables.remove("iptables").expect("table");
        table.chains.insert(
            KIDOBO_STAGING_CHAIN_NAME.to_string(),
            vec![format!("-j {KIDOBO_CHAIN_NAME}")],
        );
        table
            .input_rules
            .insert(0, format!("-j {KIDOBO_STAGING_CHAIN_NAME}"));
        control.tables.insert("ip6tables".to_string(), table);
    }

    cleanup_firewall_wiring(&runner, FirewallFamily::Ipv6).expect("cleanup");

    assert!(runner.input_rules("ip6tables").is_empty());
    assert!(
        runner
            .chain_rules("ip6tables", KIDOBO_STAGING_CHAIN_NAME)
            .is_empty()
    );
    assert!(
        runner
            .chain_rules("ip6tables", KIDOBO_CHAIN_NAME)
            .is_empty()
    );
}

#[test]
fn cleanup_firewall_wiring_treats_missing_chain_as_success() {
    let runner = StatefulRunner::default();

    cleanup_firewall_wiring(&runner, FirewallFamily::Ipv6).expect("cleanup");
    assert!(
        runner.invocations().iter().all(|(_, args)| {
            args.get(2..4) != Some(&["-D".to_string(), "INPUT".to_string()])
        })
    );
}

/// A runner whose listing of INPUT shows the jump once more than it is there.
struct VanishingRunner {
    listings: RefCell<usize>,
}

impl FirewallCommandRunner for VanishingRunner {
    fn run(&self, _command: &str, args: &[&str]) -> Result<CommandResult, CommandRunnerError> {
        match &args[2..] {
            ["-S", "INPUT"] => {
                *self.listings.borrow_mut() += 1;
                let mut listed = ok(0);
                if *self.listings.borrow() == 1 {
                    listed.stdout = format!("-A INPUT -j {KIDOBO_STAGING_CHAIN_NAME}\n");
                }
                Ok(listed)
            }
            ["-D", "INPUT", ..] => Ok(missing_rule()),
            _ => Ok(ok(0)),
        }
    }
}

#[test]
fn cleanup_takes_a_vanished_jump_for_removed() {
    let runner = VanishingRunner {
        listings: RefCell::new(0),
    };
    cleanup_firewall_wiring(&runner, FirewallFamily::Ipv4).expect("vanished rule");
    assert_eq!(*runner.listings.borrow(), 3);

    let strict = VanishingRunner {
        listings: RefCell::new(0),
    };
    let error = remove_all_input_jumps_for_chain(
        &strict,
        FirewallFamily::Ipv4,
        KIDOBO_STAGING_CHAIN_NAME,
    )
    .expect_err("failed deletion");
    assert!(matches!(error, FirewallError::CommandFailed { .. }));
}

#[test]
fn wiring_keeps_foreign_rules_in_order_behind_the_jump() {
    let runner = StatefulRunner::with_existing_wiring(1);
    {
        let mut control = runner.control.borrow_mut();
        let table = control.tables.get_mut("iptables").expect("table");
        table.input_rules = vec![
            "-i lo -j ACCEPT".to_string(),
            format!("-j {KIDOBO_CHAIN_NAME}"),
            "-p icmp -j ACCEPT".to_string(),
            format!("-j {KIDOBO_CHAIN_NAME}"),
            "-j LOG".to_string(),
        ];
    }
    ensure_firewall_wiring(
        &runner,
        FirewallFamily::Ipv4,
        "kidobo-set",
        ChainAction::Drop,
    )
    .expect("wiring");
    assert_eq!(
        runner.input_rules("iptables"),
        [
            format!("-j {KIDOBO_CHAIN_NAME}"),
            "-i lo -j ACCEPT".to_string(),
            "-p icmp -j ACCEPT".to_string(),
            "-j LOG".to_string(),
        ]
    );
    assert_eq!(
        runner.chain_rules("iptables", KIDOBO_CHAIN_NAME),
        ["-m set --match-set kidobo-set src -j DROP"]
    );
}

#[test]
fn runner_failures_convert_to_firewall_failures() {
    let error = FirewallError::from(CommandRunnerError::Spawn {
        command: "iptables -S".to_string(),
        reason: "missing".to_string(),
    });
    assert!(matches!(
        error,
        FirewallError::CommandExecution {
            source: CommandRunnerError::Spawn { .. }
        }
    ));
}
