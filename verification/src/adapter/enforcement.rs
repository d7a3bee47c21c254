//! The sync enforcement port on top of set and firewall commands.

use crate::adapter::command_runner::{
    runner_error_text, sudo_request, CommandExecutor, CommandRequest, CommandResult,
    CommandRunnerError, SudoCommandRunner,
};
use crate::adapter::firewall_text::{
    firewall_error_text, status_string, status_text, ChainAction, FirewallError, FirewallFamily,
};
use crate::adapter::host::{is_missing_ipset_result, says_missing_set};
use crate::adapter::iptables::{
    cleaned, cleanup_firewall_wiring, ending, ensure_firewall_artifacts_for_families,
    ensure_firewall_wiring_for_families, prepared, wired, FirewallCommandRunner,
};
use crate::policy::cidr_text::str_views;
use crate::policy::config::FirewallAction;
use crate::policy::network_types::{AddressFamily, CanonicalCidr};
use crate::text::same_text;
use crate::workflow::error::AppError;
use crate::workflow::source::{notice_models, warning_model, Notice, NoticeModel};
use crate::workflow::sync::{EnforcementBackend, EnforcementPlan, ManagedSetSpec, SetModel};
use vstd::prelude::*;

verus! {

/// Address family of a kernel set.
#[derive(Debug, Clone, Copy, PartialEq, Eq, Structural)]
pub enum IpsetFamily {
    /// IPv4.
    Inet,
    /// IPv6.
    Inet6,
}

/// Parameters of a kernel set.
#[derive(Debug, Clone, PartialEq, Eq)]
pub struct IpsetSetSpec {
    /// Kernel set name.
    pub set_name: String,
    /// Kernel set type.
    pub set_type: String,
    /// Address family of the entries.
    pub family: IpsetFamily,
    /// Initial hash table size.
    pub hashsize: u32,
    /// Maximum number of entries.
    pub maxelem: u32,
    /// Entry timeout; zero disables expiry.
    pub timeout: u32,
}

/// Command boundary used by set operations.
pub trait IpsetCommandRunner {
    /// Runs one bounded ipset command.
    fn run(&self, command: &str, args: &[&str]) -> (result: Result<
        CommandResult,
        CommandRunnerError,
    >);
}

impl<E: CommandExecutor> IpsetCommandRunner for SudoCommandRunner<E> {
    fn run(&self, command: &str, args: &[&str]) -> (result: Result<
        CommandResult,
        CommandRunnerError,
    >)
        ensures
            exists|request: CommandRequest| #[trigger]
                call_ensures(E::execute, (&self.executor, &request), result) && request@
                    == sudo_request(command@, str_views(args@), self.default_timeout),
    {
        SudoCommandRunner::run(self, command, args)
    }
}

/// Preparation and atomic replacement of kernel sets; failures are diagnostics.
pub trait IpsetSets {
    /// Creates the set unless it exists.
    fn ensure_ipset_exists(&self, spec: &IpsetSetSpec) -> (outcome: Result<(), String>);

    /// Replaces the entries of the set in one step.
    fn atomic_replace_ipset_values(&self, spec: &IpsetSetSpec, entries: &[CanonicalCidr]) -> (
    outcome: Result<(), String>);
}

/// Set parameters for the kernel.
pub open spec fn kernel_spec(spec: SetModel, kernel: IpsetSetSpec) -> bool {
    &&& kernel.set_name@ == spec.set_name
    &&& kernel.set_type@ == spec.set_type
    &&& kernel.family == (match spec.family {
        AddressFamily::Ipv4 => IpsetFamily::Inet,
        AddressFamily::Ipv6 => IpsetFamily::Inet6,
    })
    &&& kernel.hashsize == spec.hashsize
    &&& kernel.maxelem == spec.maxelem
    &&& kernel.timeout == spec.timeout
}

/// Converts managed-set parameters for the kernel.
pub fn to_ipset_spec(spec: &ManagedSetSpec) -> (kernel: IpsetSetSpec)
    ensures
        kernel_spec(spec@, kernel),
{
    IpsetSetSpec {
        set_name: spec.set_name.clone(),
        set_type: spec.set_type.clone(),
        family: match spec.family {
            AddressFamily::Ipv4 => IpsetFamily::Inet,
            AddressFamily::Ipv6 => IpsetFamily::Inet6,
        },
        hashsize: spec.hashsize,
        maxelem: spec.maxelem,
        timeout: spec.timeout,
    }
}

/// The chain verdict of a configured action.
pub open spec fn verdict_of(action: FirewallAction) -> ChainAction {
    match action {
        FirewallAction::Drop => ChainAction::Drop,
        FirewallAction::Reject => ChainAction::Reject,
    }
}

/// Converts a configured action to a chain verdict.
pub fn to_chain_action(action: FirewallAction) -> (verdict: ChainAction)
    ensures
        verdict == verdict_of(action),
{
    match action {
        FirewallAction::Drop => ChainAction::Drop,
        FirewallAction::Reject => ChainAction::Reject,
    }
}

/// Enforcement backend using injected ipset and firewall command runners.
#[derive(Debug)]
pub struct CommandEnforcementBackend<R> {
    /// Runner of every command.
    pub runner: R,
}

impl<R> CommandEnforcementBackend<R> {
    /// Creates an enforcement backend around the supplied runner.
    pub fn new(runner: R) -> (backend: CommandEnforcementBackend<R>)
        ensures
            backend.runner == runner,
    {
        CommandEnforcementBackend { runner }
    }
}

/// A set operation failed or not, and the outcome says so.
pub open spec fn set_outcome(reply: Result<(), String>, outcome: Result<(), AppError>) -> bool {
    match reply {
        Ok(_) => outcome is Ok,
        Err(reason) => outcome == Err::<(), AppError>(AppError::Ipset { reason }),
    }
}

/// A firewall operation failed or not, and the outcome says so.
pub open spec fn firewall_outcome(
    failure: Option<FirewallError>,
    outcome: Result<(), AppError>,
) -> bool {
    match failure {
        None => outcome is Ok,
        Some(error) => outcome matches Err(AppError::Firewall { reason }) && reason@
            == firewall_error_text(error),
    }
}

/// The set with the parameters was made sure of.
pub open spec fn set_ensured<R: IpsetSets>(
    runner: &R,
    spec: SetModel,
    outcome: Result<(), AppError>,
) -> bool {
    exists|kernel: IpsetSetSpec, reply: Result<(), String>| #[trigger]
        call_ensures(R::ensure_ipset_exists, (runner, &kernel), reply) && kernel_spec(spec, kernel)
            && set_outcome(reply, outcome)
}

/// The managed chains were made sure of.
pub open spec fn chains_ensured<R: FirewallCommandRunner>(
    runner: &R,
    enable_ipv6: bool,
    outcome: Result<(), AppError>,
) -> bool {
    exists|first: Option<FirewallError>, last: Option<FirewallError>|
        {
            &&& #[trigger] prepared(runner, FirewallFamily::Ipv4, first)
            &&& #[trigger] firewall_outcome(last, outcome)
            &&& if first is Some || !enable_ipv6 {
                last == first
            } else {
                prepared(runner, FirewallFamily::Ipv6, last)
            }
        }
}

/// The wiring of the enabled families was carried out.
pub open spec fn activated<R: FirewallCommandRunner>(
    runner: &R,
    plan: EnforcementPlan,
    outcome: Result<(), AppError>,
) -> bool {
    let verdict = verdict_of(plan.chain_action);
    exists|first: Option<FirewallError>, last: Option<FirewallError>|
        {
            &&& #[trigger] wired(
                runner,
                FirewallFamily::Ipv4,
                plan.ipv4.set_name@,
                verdict_of(plan.chain_action),
                first,
            )
            &&& #[trigger] firewall_outcome(last, outcome)
            &&& if first is Some || !plan.enable_ipv6 {
                last == first
            } else {
                wired(runner, FirewallFamily::Ipv6, plan.ipv6.set_name@, verdict, last)
            }
        }
}

fn map_set(reply: Result<(), String>) -> (outcome: Result<(), AppError>)
    ensures
        set_outcome(reply, outcome),
{
    match reply {
        Ok(()) => Ok(()),
        Err(reason) => Err(AppError::Ipset { reason }),
    }
}

fn map_firewall(reply: Result<(), FirewallError>) -> (outcome: Result<(), AppError>)
    ensures
        firewall_outcome(ending(reply), outcome),
{
    match reply {
        Ok(()) => Ok(()),
        Err(error) => Err(AppError::Firewall { reason: error.message() }),
    }
}

/// Notice for firewall artifacts that could not be removed.
pub open spec fn firewall_cleanup_text(error: FirewallError) -> Seq<char> {
    "disabled IPv6 firewall cleanup failed softly: "@ + firewall_error_text(error)
}

/// Notice for a set that could not be removed.
pub open spec fn set_cleanup_text(set_name: Seq<char>, reason: Seq<char>) -> Seq<char> {
    "disabled IPv6 ipset cleanup failed softly for "@ + set_name + ": "@ + reason
}

/// What a command says that ran and did not succeed.
pub open spec fn refusal_text(result: CommandResult) -> Seq<char> {
    "status="@ + status_text(result.status) + " stderr="@ + result.stderr@
}

/// Notice of the firewall cleanup, if there is one.
pub open spec fn firewall_notices(failure: Option<FirewallError>) -> Seq<NoticeModel> {
    match failure {
        None => Seq::empty(),
        Some(error) => seq![warning_model(firewall_cleanup_text(error))],
    }
}

/// Notice of the set cleanup: there is none when the set was destroyed or does not exist.
pub open spec fn set_notices(
    set_name: Seq<char>,
    reply: Result<CommandResult, CommandRunnerError>,
) -> Seq<NoticeModel> {
    match reply {
        Ok(result) => if result.status.succeeded() || says_missing_set(result) {
            Seq::empty()
        } else {
            seq![warning_model(set_cleanup_text(set_name, refusal_text(result)))]
        },
        Err(error) => seq![warning_model(set_cleanup_text(set_name, runner_error_text(error)))],
    }
}

/// Judges the reply to the destruction of a set: the reason of the warning it asks for.
fn set_refusal(reply: Result<CommandResult, CommandRunnerError>) -> (reason: Option<String>)
    ensures
        match reply {
            Ok(result) => if result.status.succeeded() || says_missing_set(result) {
                reason is None
            } else {
                reason matches Some(text) && text@ == refusal_text(result)
            },
            Err(error) => reason matches Some(text) && text@ == runner_error_text(error),
        },
{
    match reply {
        Ok(result) => {
            if result.status.success() || is_missing_ipset_result(&result) {
                return None;
            }
            let mut text: String = "status=".to_owned();
            text.append(status_string(result.status).as_str());
            text.append(" stderr=");
            text.append(result.stderr.as_str());
            Some(text)
        },
        Err(error) => Some(error.message()),
    }
}

/// Firewall wiring of IPv6 is removed, and then its set, unless IPv4 uses a set of that name.
pub open spec fn ipv6_cleanup_rule<R: IpsetCommandRunner + FirewallCommandRunner>(
    runner: &R,
    plan: EnforcementPlan,
    notices: Seq<NoticeModel>,
) -> bool {
    exists|failure: Option<FirewallError>|
        {
            &&& #[trigger] cleaned(runner, FirewallFamily::Ipv6, failure)
            &&& if plan.ipv6.set_name@ == plan.ipv4.set_name@ {
                notices == firewall_notices(failure).push(
                    warning_model(
                        "disabled IPv6 ipset cleanup skipped because its name matches the IPv4 set"@,
                    ),
                )
            } else {
                exists|args: &[&str], reply: Result<CommandResult, CommandRunnerError>|
                    {
                        &&& #[trigger] call_ensures(
                            <R as IpsetCommandRunner>::run,
                            (runner, "ipset", args),
                            reply,
                        )
                        &&& str_views(args@) == seq!["destroy"@, plan.ipv6.set_name@]
                        &&& notices == firewall_notices(failure) + set_notices(
                            plan.ipv6.set_name@,
                            reply,
                        )
                    }
            }
        }
}

impl<R: IpsetSets + IpsetCommandRunner + FirewallCommandRunner> EnforcementBackend for CommandEnforcementBackend<
    R,
> {
    fn ensure_artifacts(&self, plan: &EnforcementPlan) -> (outcome: Result<(), AppError>)
        ensures
            exists|ipv4: Result<(), AppError>|
                {
                    &&& #[trigger] set_ensured(&self.runner, plan.ipv4@, ipv4)
                    &&& if ipv4 is Err {
                        outcome == ipv4
                    } else if !plan.enable_ipv6 {
                        chains_ensured(&self.runner, false, outcome)
                    } else {
                        exists|ipv6: Result<(), AppError>|
                            {
                                &&& #[trigger] set_ensured(&self.runner, plan.ipv6@, ipv6)
                                &&& if ipv6 is Err {
                                    outcome == ipv6
                                } else {
                                    chains_ensured(&self.runner, true, outcome)
                                }
                            }
                    }
                },
    {
        let ipv4: Result<(), AppError> = map_set(
            self.runner.ensure_ipset_exists(&to_ipset_spec(&plan.ipv4)),
        );
        assert(set_ensured(&self.runner, plan.ipv4@, ipv4));
        if ipv4.is_err() {
            return ipv4;
        }
        if plan.enable_ipv6 {
            let ipv6: Result<(), AppError> = map_set(
                self.runner.ensure_ipset_exists(&to_ipset_spec(&plan.ipv6)),
            );
            assert(set_ensured(&self.runner, plan.ipv6@, ipv6));
            if ipv6.is_err() {
                return ipv6;
            }
        }
        let reply: Result<(), FirewallError> = ensure_firewall_artifacts_for_families(
            &self.runner,
            plan.enable_ipv6,
        );
        let outcome: Result<(), AppError> = map_firewall(reply);
        assert(chains_ensured(&self.runner, plan.enable_ipv6, outcome));
        outcome
    }

    fn replace_set(&self, spec: &ManagedSetSpec, entries: &[CanonicalCidr]) -> (outcome: Result<
        (),
        AppError,
    >)
        ensures
            exists|kernel: IpsetSetSpec, reply: Result<(), String>| #[trigger]
                call_ensures(
                    R::atomic_replace_ipset_values,
                    (&self.runner, &kernel, entries),
                    reply,
                ) && kernel_spec(spec@, kernel) && set_outcome(reply, outcome),
    {
        let kernel: IpsetSetSpec = to_ipset_spec(spec);
        let reply: Result<(), String> = self.runner.atomic_replace_ipset_values(&kernel, entries);
        map_set(reply)
    }

    fn activate(&self, plan: &EnforcementPlan) -> (outcome: Result<(), AppError>)
        ensures
            activated(&self.runner, *plan, outcome),
    {
        let reply: Result<(), FirewallError> = ensure_firewall_wiring_for_families(
            &self.runner,
            plan.ipv4.set_name.as_str(),
            plan.ipv6.set_name.as_str(),
            plan.enable_ipv6,
            to_chain_action(plan.chain_action),
        );
        map_firewall(reply)
    }

    fn cleanup_disabled_ipv6(&self, plan: &EnforcementPlan) -> (notices: Vec<Notice>)
        ensures
            ipv6_cleanup_rule(&self.runner, *plan, notice_models(notices@)),
    {
        let mut notices: Vec<Notice> = Vec::new();
        let cleanup: Result<(), FirewallError> = cleanup_firewall_wiring(
            &self.runner,
            FirewallFamily::Ipv6,
        );
        let ghost failure = ending(cleanup);
        assert(notice_models(notices@) =~= Seq::empty());
        if let Err(error) = cleanup {
            let mut text: String = "disabled IPv6 firewall cleanup failed softly: ".to_owned();
            text.append(error.message().as_str());
            notices.push(Notice::warning(text.as_str()));
            assert(notice_models(notices@) =~= firewall_notices(failure));
        }
        assert(notice_models(notices@) =~= firewall_notices(failure));
        assert(cleaned(&self.runner, FirewallFamily::Ipv6, failure));
        let ghost shown = notices@;
        if same_text(plan.ipv6.set_name.as_str(), plan.ipv4.set_name.as_str()) {
            notices.push(
                Notice::warning(
                    "disabled IPv6 ipset cleanup skipped because its name matches the IPv4 set",
                ),
            );
            assert(notice_models(notices@) =~= firewall_notices(failure).push(
                warning_model(
                    "disabled IPv6 ipset cleanup skipped because its name matches the IPv4 set"@,
                ),
            ));
            return notices;
        }
        let mut args: Vec<&str> = Vec::new();
        args.push("destroy");
        args.push(plan.ipv6.set_name.as_str());
        assert(str_views(args@) =~= seq!["destroy"@, plan.ipv6.set_name@]);
        let reply: Result<CommandResult, CommandRunnerError> = IpsetCommandRunner::run(
            &self.runner,
            "ipset",
            args.as_slice(),
        );
        let ghost answer = reply;
        if let Some(reason) = set_refusal(reply) {
            let mut text: String = "disabled IPv6 ipset cleanup failed softly for ".to_owned();
            text.append(plan.ipv6.set_name.as_str());
            text.append(": ");
            text.append(reason.as_str());
            notices.push(Notice::warning(text.as_str()));
            assert(notice_models(notices@) =~= notice_models(shown) + set_notices(
                plan.ipv6.set_name@,
                answer,
            ));
        }
        assert(notice_models(notices@) =~= firewall_notices(failure) + set_notices(
            plan.ipv6.set_name@,
            answer,
        ));
        notices
    }
}

} // verus!
