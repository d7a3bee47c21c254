//! Names, listings and diagnostics of the firewall tables.

use crate::adapter::command_runner::{
    runner_error_text, CommandResult, CommandRunnerError, ProcessStatus,
};
use crate::numerals::{decimal, decimal_text};
use crate::text::{
    contains_chars, contains_text, lines, lower, lower_chars, same_chars, split_lines, starts_with,
    starts_with_chars, to_chars, trim, trim_chars, views,
};
use vstd::prelude::*;

verus! {

/// Stable Kidobo-owned enforcement chain name.
pub const KIDOBO_CHAIN_NAME: &'static str = "kidobo-input";

/// Transient chain that keeps enforcement reachable while input jumps are normalized.
pub const KIDOBO_STAGING_CHAIN_NAME: &'static str = "kidobo-input-stage";

/// Seconds to wait for the tables lock.
pub const XTABLES_LOCK_WAIT_SECS: &'static str = "5";

/// Firewall verdict used by the Kidobo-owned chain.
#[derive(Debug, Clone, Copy, PartialEq, Eq, Structural)]
pub enum ChainAction {
    /// Silently discard matching packets.
    Drop,
    /// Reject matching packets.
    Reject,
}

impl ChainAction {
    /// Name of the verdict.
    pub open spec fn target(self) -> Seq<char> {
        match self {
            ChainAction::Drop => "DROP"@,
            ChainAction::Reject => "REJECT"@,
        }
    }

    /// Name of the verdict.
    pub fn as_target(self) -> (target: &'static str)
        ensures
            target@ == self.target(),
    {
        match self {
            ChainAction::Drop => "DROP",
            ChainAction::Reject => "REJECT",
        }
    }
}

/// Firewall command family.
#[derive(Debug, Clone, Copy, PartialEq, Eq, Structural)]
pub enum FirewallFamily {
    /// IPv4 through `iptables`.
    Ipv4,
    /// IPv6 through `ip6tables`.
    Ipv6,
}

impl FirewallFamily {
    /// Name of the family's command.
    pub open spec fn program(self) -> Seq<char> {
        match self {
            FirewallFamily::Ipv4 => "iptables"@,
            FirewallFamily::Ipv6 => "ip6tables"@,
        }
    }

    /// Name of the family's command.
    pub fn binary(self) -> (binary: &'static str)
        ensures
            binary@ == self.program(),
    {
        match self {
            FirewallFamily::Ipv4 => "iptables",
            FirewallFamily::Ipv6 => "ip6tables",
        }
    }

    /// Name of the family.
    pub open spec fn label(self) -> Seq<char> {
        match self {
            FirewallFamily::Ipv4 => "Ipv4"@,
            FirewallFamily::Ipv6 => "Ipv6"@,
        }
    }

    /// Name of the family.
    pub fn name(self) -> (name: &'static str)
        ensures
            name@ == self.label(),
    {
        match self {
            FirewallFamily::Ipv4 => "Ipv4",
            FirewallFamily::Ipv6 => "Ipv6",
        }
    }
}

/// Failure while inspecting, activating, normalizing, or cleaning firewall wiring.
#[derive(Debug)]
pub enum FirewallError {
    /// Bounded command execution failed.
    CommandExecution {
        /// Underlying command-runner failure.
        source: CommandRunnerError,
    },
    /// A firewall command returned an unsuccessful status.
    CommandFailed {
        /// Rendered command.
        command: String,
        /// Process termination state.
        status: ProcessStatus,
        /// Bounded standard error.
        stderr: String,
    },
    /// Final INPUT wiring violated the exact one-stable-jump invariant.
    UnexpectedInputWiring {
        /// Affected firewall family.
        family: FirewallFamily,
        /// One-based INPUT positions jumping to the stable chain.
        stable_positions: Vec<usize>,
        /// One-based INPUT positions jumping to the transient staging chain.
        staging_positions: Vec<usize>,
    },
}

impl From<CommandRunnerError> for FirewallError {
    fn from(source: CommandRunnerError) -> (error: FirewallError) {
        FirewallError::CommandExecution { source }
    }
}

impl vstd::std_specs::convert::FromSpecImpl<CommandRunnerError> for FirewallError {
    open spec fn obeys_from_spec() -> bool {
        true
    }

    open spec fn from_spec(source: CommandRunnerError) -> FirewallError {
        FirewallError::CommandExecution { source }
    }
}

// Diagnostics -----------------------------------------------------------------------------------

/// A signed number in decimal.
pub open spec fn signed_text(n: int) -> Seq<char> {
    if n < 0 {
        "-"@ + decimal((-n) as nat)
    } else {
        decimal(n as nat)
    }
}

fn signed_string(n: i32) -> (text: String)
    ensures
        text@ == signed_text(n as int),
{
    if n < 0 {
        let mut text: String = "-".to_owned();
        text.append(decimal_text((-(n as i128)) as u128).as_str());
        text
    } else {
        decimal_text(n as u128)
    }
}

/// A termination state for diagnostics.
pub open spec fn status_text(status: ProcessStatus) -> Seq<char> {
    match status {
        ProcessStatus::Exited(code) => "Exited("@ + signed_text(code as int) + ")"@,
        ProcessStatus::Signaled(signal) => "Signaled("@ + signed_text(signal as int) + ")"@,
        ProcessStatus::Other => "Other"@,
    }
}

/// Renders a termination state for diagnostics.
pub fn status_string(status: ProcessStatus) -> (text: String)
    ensures
        text@ == status_text(status),
{
    match status {
        ProcessStatus::Exited(code) => {
            let mut text: String = "Exited(".to_owned();
            text.append(signed_string(code).as_str());
            text.append(")");
            text
        },
        ProcessStatus::Signaled(signal) => {
            let mut text: String = "Signaled(".to_owned();
            text.append(signed_string(signal).as_str());
            text.append(")");
            text
        },
        ProcessStatus::Other => "Other".to_owned(),
    }
}

/// Numbers with a comma and a space between them.
pub open spec fn joined_numbers(numbers: Seq<usize>) -> Seq<char>
    decreases numbers.len(),
{
    if numbers.len() == 0 {
        Seq::empty()
    } else if numbers.len() == 1 {
        decimal(numbers[0] as nat)
    } else {
        joined_numbers(numbers.drop_last()) + ", "@ + decimal(numbers.last() as nat)
    }
}

/// A list of numbers for diagnostics.
pub open spec fn list_text(numbers: Seq<usize>) -> Seq<char> {
    "["@ + joined_numbers(numbers) + "]"@
}

fn list_string(numbers: &Vec<usize>) -> (text: String)
    ensures
        text@ == list_text(numbers@),
{
    let mut text: String = "[".to_owned();
    let mut i: usize = 0;
    assert("["@ + joined_numbers(numbers@.take(0)) =~= "["@);
    while i < numbers.len()
        invariant
            i <= numbers@.len(),
            text@ == "["@ + joined_numbers(numbers@.take(i as int)),
        decreases numbers@.len() - i,
    {
        proof {
            assert(numbers@.take(i + 1).drop_last() =~= numbers@.take(i as int));
            assert(numbers@.take(i + 1).last() == numbers@[i as int]);
        }
        if i > 0 {
            text.append(", ");
        }
        text.append(decimal_text(numbers[i] as u128).as_str());
        proof {
            let head = joined_numbers(numbers@.take(i as int));
            let number = decimal(numbers@[i as int] as nat);
            if i > 0 {
                assert(text@ =~= "["@ + (head + ", "@ + number));
            } else {
                assert(head =~= Seq::<char>::empty());
                assert(text@ =~= "["@ + number);
            }
        }
        i = i + 1;
    }
    assert(numbers@.take(i as int) =~= numbers@);
    text.append("]");
    text
}

/// Operator-facing text of a firewall failure.
pub open spec fn firewall_error_text(error: FirewallError) -> Seq<char> {
    match error {
        FirewallError::CommandExecution { source } => "firewall command execution failed: "@
            + runner_error_text(source),
        FirewallError::CommandFailed { command, status, stderr } => "firewall command failed `"@
            + command@ + "` with status "@ + status_text(status) + ": "@ + stderr@,
        FirewallError::UnexpectedInputWiring { family, stable_positions, staging_positions } =>
            "firewall INPUT wiring validation failed for "@ + family.label() + ": stable="@
            + list_text(stable_positions@) + ", staging="@ + list_text(staging_positions@),
    }
}

impl FirewallError {
    /// Operator-facing description.
    pub fn message(&self) -> (text: String)
        ensures
            text@ == firewall_error_text(*self),
    {
        match self {
            FirewallError::CommandExecution { source } => {
                let mut text: String = "firewall command execution failed: ".to_owned();
                text.append(source.message().as_str());
                text
            },
            FirewallError::CommandFailed { command, status, stderr } => {
                let mut text: String = "firewall command failed `".to_owned();
                text.append(command.as_str());
                text.append("` with status ");
                text.append(status_string(*status).as_str());
                text.append(": ");
                text.append(stderr.as_str());
                text
            },
            FirewallError::UnexpectedInputWiring {
                family,
                stable_positions,
                staging_positions,
            } => {
                let mut text: String = "firewall INPUT wiring validation failed for ".to_owned();
                text.append(family.name());
                text.append(": stable=");
                text.append(list_string(stable_positions).as_str());
                text.append(", staging=");
                text.append(list_string(staging_positions).as_str());
                text
            },
        }
    }
}

// Listings --------------------------------------------------------------------------------------

/// Number of lines that start with the head.
pub open spec fn heads(all: Seq<Seq<char>>, head: Seq<char>) -> nat
    decreases all.len(),
{
    if all.len() == 0 {
        0
    } else {
        heads(all.drop_last(), head) + if starts_with(all.last(), head) {
            1nat
        } else {
            0nat
        }
    }
}

/// Number of rules that a listing shows for the chain.
pub open spec fn rule_count(listing: Seq<char>, chain: Seq<char>) -> nat {
    heads(lines(listing), "-A "@ + chain + " "@)
}

/// Counts the rules of a chain in its listing.
pub fn chain_rule_count(stdout: &str, chain_name: &str) -> (count: usize)
    ensures
        count == rule_count(stdout@, chain_name@),
{
    let mut head: String = "-A ".to_owned();
    head.append(chain_name);
    head.append(" ");
    let prefix: Vec<char> = to_chars(head.as_str());
    let all: Vec<String> = split_lines(stdout);
    let ghost texts = views(all@);
    let mut count: usize = 0;
    let mut i: usize = 0;
    while i < all.len()
        invariant
            i <= all@.len(),
            count <= i,
            texts == views(all@),
            count == heads(texts.take(i as int), prefix@),
        decreases all@.len() - i,
    {
        assert(texts.take(i + 1).drop_last() =~= texts.take(i as int));
        assert(texts.take(i + 1).last() == all@[i as int]@);
        let line: Vec<char> = to_chars(all[i].as_str());
        if starts_with_chars(line.as_slice(), prefix.as_slice()) {
            count = count + 1;
        }
        i = i + 1;
    }
    assert(texts.take(i as int) =~= texts);
    count
}

/// Line of a jump from INPUT to the chain.
pub open spec fn jump_line(chain: Seq<char>) -> Seq<char> {
    "-A INPUT -j "@ + chain
}

/// One-based positions, among the INPUT rules of the lines, of jumps to the chain.
pub open spec fn jumps_in(all: Seq<Seq<char>>, chain: Seq<char>) -> Seq<usize>
    decreases all.len(),
{
    if all.len() == 0 {
        Seq::empty()
    } else {
        let before = jumps_in(all.drop_last(), chain);
        if starts_with(all.last(), "-A INPUT "@) && trim(all.last()) == jump_line(chain) {
            before.push(heads(all, "-A INPUT "@) as usize)
        } else {
            before
        }
    }
}

/// One-based positions, among the INPUT rules of a listing, of jumps to the chain.
pub open spec fn jump_positions(listing: Seq<char>, chain: Seq<char>) -> Seq<usize> {
    jumps_in(lines(listing), chain)
}

/// Finds the jumps from INPUT to a chain in a listing of INPUT.
pub fn exact_jump_positions(stdout: &str, chain_name: &str) -> (positions: Vec<usize>)
    ensures
        positions@ == jump_positions(stdout@, chain_name@),
{
    let mut wanted: String = "-A INPUT -j ".to_owned();
    wanted.append(chain_name);
    let expected: Vec<char> = to_chars(wanted.as_str());
    let head: Vec<char> = to_chars("-A INPUT ");
    let all: Vec<String> = split_lines(stdout);
    let ghost texts = views(all@);
    let mut positions: Vec<usize> = Vec::new();
    let mut rules: usize = 0;
    let mut i: usize = 0;
    while i < all.len()
        invariant
            i <= all@.len(),
            rules <= i,
            texts == views(all@),
            head@ == "-A INPUT "@,
            expected@ == jump_line(chain_name@),
            rules == heads(texts.take(i as int), head@),
            positions@ == jumps_in(texts.take(i as int), chain_name@),
        decreases all@.len() - i,
    {
        assert(texts.take(i + 1).drop_last() =~= texts.take(i as int));
        assert(texts.take(i + 1).last() == all@[i as int]@);
        let line: Vec<char> = to_chars(all[i].as_str());
        if starts_with_chars(line.as_slice(), head.as_slice()) {
            rules = rules + 1;
            if same_chars(trim_chars(line.as_slice()), expected.as_slice()) {
                positions.push(rules);
            }
        }
        i = i + 1;
    }
    assert(texts.take(i as int) =~= texts);
    positions
}

/// The result says that the chain does not exist.
pub open spec fn says_missing(result: CommandResult) -> bool {
    result.status.exit_code() == Some(1i32) && contains_text(
        lower(result.stderr@),
        "no chain/target/match by that name"@,
    )
}

/// Returns whether a result says that the chain does not exist.
pub fn is_missing_chain_result(result: &CommandResult) -> (missing: bool)
    ensures
        missing == says_missing(*result),
{
    if result.status.code() != Some(1i32) {
        return false;
    }
    let stderr: Vec<char> = to_chars(result.stderr.as_str());
    let lowered: Vec<char> = lower_chars(stderr.as_slice());
    let part: Vec<char> = to_chars("no chain/target/match by that name");
    contains_chars(lowered.as_slice(), part.as_slice())
}

/// A deletion that ended so found no matching rule.
pub open spec fn says_missing_rule(status: ProcessStatus, stderr: Seq<char>) -> bool {
    status.exit_code() == Some(1i32) && contains_text(
        lower(stderr),
        "does a matching rule exist in that chain"@,
    )
}

/// Returns whether a failure says that the rule to delete does not exist.
pub fn is_missing_rule_failure(error: &FirewallError) -> (missing: bool)
    ensures
        missing == (error matches FirewallError::CommandFailed { status, stderr, .. }
            && says_missing_rule(*status, stderr@)),
{
    match error {
        FirewallError::CommandFailed { status, stderr, .. } => {
            if status.code() != Some(1i32) {
                return false;
            }
            let text: Vec<char> = to_chars(stderr.as_str());
            let lowered: Vec<char> = lower_chars(text.as_slice());
            let part: Vec<char> = to_chars("does a matching rule exist in that chain");
            contains_chars(lowered.as_slice(), part.as_slice())
        },
        _ => false,
    }
}

} // verus!
