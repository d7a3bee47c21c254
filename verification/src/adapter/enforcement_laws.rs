//! What a successful synchronization leaves in the firewall and in the sets.

use crate::adapter::enforcement::{
    activated, chains_ensured, firewall_outcome, kernel_spec, set_ensured, set_outcome, verdict_of,
    CommandEnforcementBackend, IpsetCommandRunner, IpsetFamily, IpsetSetSpec, IpsetSets,
};
use crate::adapter::firewall_table_laws::{
    law_wiring_leaves_one_first_jump, others, proceeds, InputRule, TableContents,
};
use crate::adapter::firewall_text::{ChainAction, FirewallError, FirewallFamily};
use crate::adapter::iptables::{
    ensure_rule, genuine, missing, passed, prepared, sequence_rule, wired, wiring_stages, Exchange,
    FirewallCommandRunner,
};
use crate::policy::config::{Config, FirewallAction};
use crate::policy::network_types::{AddressFamily, CanonicalCidr};
use crate::workflow::error::AppError;
use crate::workflow::paths::{PathResolutionInput, ResolvedPaths};
use crate::workflow::ports::{ConfigRepository, LockManager, PathResolver};
use crate::workflow::source::SyncSourceProvider;
use crate::workflow::sync::{EnforcementBackend, EnforcementPlan, ManagedSetSpec, SyncObserver};
use crate::workflow::sync_execute::{sync_trace, SyncDependencies, SyncStep};
use crate::workflow::sync_laws::{asks_for, law_successful_run_activates_the_configuration};
use vstd::prelude::*;

verus! {

/// Target word of the configured verdict.
pub open spec fn configured_target(config: Config) -> Seq<char> {
    if config.ipset.chain_action == FirewallAction::Reject {
        "REJECT"@
    } else {
        "DROP"@
    }
}

/// The table sends the sources that are in the set to the target: the jump to the enforcement
/// chain is the first rule of INPUT and Kidobo's only one there, and the chain holds one rule.
pub open spec fn enforces(table: TableContents, set_name: Seq<char>, target: Seq<char>) -> bool {
    &&& table.input == seq![InputRule::StableJump] + others(table.input)
    &&& table.stable == Some(
        seq![seq!["-m"@, "set"@, "--match-set"@, set_name, "src"@, "-j"@, target]],
    )
}

/// The commands came to a table that enforces the set, for all tables that agree with the replies.
pub open spec fn leaves_enforced<R: FirewallCommandRunner>(
    runner: &R,
    family: FirewallFamily,
    set_name: Seq<char>,
    target: Seq<char>,
    log: Seq<Exchange>,
) -> bool {
    &&& genuine(runner, family, log)
    &&& forall|tables: Seq<(TableContents, TableContents)>| #[trigger]
        proceeds(log, tables) ==> enforces(tables.last().1, set_name, target)
}

proof fn lemma_wired_enforces<R: FirewallCommandRunner>(
    runner: &R,
    family: FirewallFamily,
    set_name: Seq<char>,
    action: ChainAction,
) -> (log: Seq<Exchange>)
    requires
        wired(runner, family, set_name, action, None),
    ensures
        leaves_enforced(
            runner,
            family,
            set_name,
            if action == ChainAction::Reject {
                "REJECT"@
            } else {
                "DROP"@
            },
            log,
        ),
{
    let log = choose|log: Seq<Exchange>| #[trigger]
        genuine(runner, family, log) && sequence_rule(
            family,
            wiring_stages(set_name, action),
            log,
            None,
        );
    let target = if action == ChainAction::Reject {
        "REJECT"@
    } else {
        "DROP"@
    };
    assert forall|tables: Seq<(TableContents, TableContents)>| #[trigger]
        proceeds(log, tables) implies enforces(tables.last().1, set_name, target) by {
        law_wiring_leaves_one_first_jump(family, set_name, action, log, None, tables);
    }
    log
}

proof fn lemma_activation_wires<R: IpsetSets + IpsetCommandRunner + FirewallCommandRunner>(
    backend: &CommandEnforcementBackend<R>,
    plan: EnforcementPlan,
    done: Result<(), AppError>,
    config: Config,
) -> (action: ChainAction)
    requires
        asks_for(plan, config),
        call_ensures(
            <CommandEnforcementBackend<R> as EnforcementBackend>::activate,
            (backend, &plan),
            done,
        ),
        done is Ok,
    ensures
        action == ChainAction::Reject <==> config.ipset.chain_action == FirewallAction::Reject,
        wired(&backend.runner, FirewallFamily::Ipv4, config.ipset.set_name@, action, None),
        config.ipset.enable_ipv6 ==> wired(
            &backend.runner,
            FirewallFamily::Ipv6,
            config.ipset.set_name_v6@,
            action,
            None,
        ),
{
    assert(activated(&backend.runner, plan, done));
    let (first, last) = choose|first: Option<FirewallError>, last: Option<FirewallError>|
        {
            &&& #[trigger] wired(
                &backend.runner,
                FirewallFamily::Ipv4,
                plan.ipv4.set_name@,
                verdict_of(plan.chain_action),
                first,
            )
            &&& #[trigger] firewall_outcome(last, done)
            &&& if first is Some || !plan.enable_ipv6 {
                last == first
            } else {
                wired(
                    &backend.runner,
                    FirewallFamily::Ipv6,
                    plan.ipv6.set_name@,
                    verdict_of(plan.chain_action),
                    last,
                )
            }
        };
    assert(last is None);
    verdict_of(plan.chain_action)
}

/// After a successful synchronization the rule in the managed IPv4 chain matches the configured set
/// and its target is REJECT exactly where the configuration says so; where the configuration
/// enables IPv6, the same holds of the IPv6 chain and set.
pub proof fn law_sync_leaves_the_configured_rule<
    P: PathResolver,
    C: ConfigRepository,
    L: LockManager,
    S: SyncSourceProvider,
    R: IpsetSets + IpsetCommandRunner + FirewallCommandRunner,
    O: SyncObserver,
>(
    request: PathResolutionInput,
    dependencies: SyncDependencies<'_, P, C, L, S, CommandEnforcementBackend<R>, O>,
    paths: ResolvedPaths,
    config: Config,
    steps: Seq<SyncStep>,
) -> (logs: (Seq<Exchange>, Seq<Exchange>))
    requires
        sync_trace(request, dependencies, paths, config, steps),
        steps.len() > 0,
        steps.last().turn.ending matches Some(ending) && ending is Ok,
    ensures
        leaves_enforced(
            &dependencies.enforcement.runner,
            FirewallFamily::Ipv4,
            config.ipset.set_name@,
            configured_target(config),
            logs.0,
        ),
        config.ipset.enable_ipv6 ==> leaves_enforced(
            &dependencies.enforcement.runner,
            FirewallFamily::Ipv6,
            config.ipset.set_name_v6@,
            configured_target(config),
            logs.1,
        ),
{
    let (plan, done) = law_successful_run_activates_the_configuration(
        request,
        dependencies,
        paths,
        config,
        steps,
    );
    let runner = &dependencies.enforcement.runner;
    let action = lemma_activation_wires(dependencies.enforcement, plan, done, config);
    let v4 = lemma_wired_enforces(
        runner,
        FirewallFamily::Ipv4,
        config.ipset.set_name@,
        action,
    );
    let v6 = if config.ipset.enable_ipv6 {
        lemma_wired_enforces(
            runner,
            FirewallFamily::Ipv6,
            config.ipset.set_name_v6@,
            action,
        )
    } else {
        Seq::empty()
    };
    (v4, v6)
}

/// A set as the kernel is asked for it: under the fields of the managed set, one by one.
pub open spec fn described_by(kernel: IpsetSetSpec, spec: ManagedSetSpec) -> bool {
    &&& kernel.set_name@ == spec.set_name@
    &&& kernel.set_type@ == spec.set_type@
    &&& kernel.family == IpsetFamily::Inet <==> spec.family == AddressFamily::Ipv4
    &&& kernel.hashsize == spec.hashsize
    &&& kernel.maxelem == spec.maxelem
    &&& kernel.timeout == spec.timeout
}

/// The reply of the set command is passed on: success as success, a reason as a set failure.
pub open spec fn passes_on(reply: Result<(), String>, outcome: Result<(), AppError>) -> bool {
    &&& outcome is Ok <==> reply is Ok
    &&& reply is Err ==> outcome == Err::<(), AppError>(AppError::Ipset { reason: reply->Err_0 })
}

/// A set is replaced under its own description with exactly the entries given, and the reply is
/// passed on.
pub proof fn law_set_is_replaced_by_its_entries<
    R: IpsetSets + IpsetCommandRunner + FirewallCommandRunner,
>(
    backend: &CommandEnforcementBackend<R>,
    spec: ManagedSetSpec,
    entries: &[CanonicalCidr],
    outcome: Result<(), AppError>,
) -> (r: (IpsetSetSpec, Result<(), String>))
    requires
        call_ensures(
            <CommandEnforcementBackend<R> as EnforcementBackend>::replace_set,
            (backend, &spec, entries),
            outcome,
        ),
    ensures
        described_by(r.0, spec),
        call_ensures(R::atomic_replace_ipset_values, (&backend.runner, &r.0, entries), r.1),
        passes_on(r.1, outcome),
{
    choose|kernel: IpsetSetSpec, reply: Result<(), String>| #[trigger]
        call_ensures(R::atomic_replace_ipset_values, (&backend.runner, &kernel, entries), reply)
            && kernel_spec(spec@, kernel) && set_outcome(reply, outcome)
}

/// The set was asked for under its description, and the request succeeded.
pub open spec fn set_there<R: IpsetSets>(runner: &R, spec: ManagedSetSpec) -> bool {
    exists|kernel: IpsetSetSpec, reply: Result<(), String>| #[trigger]
        call_ensures(R::ensure_ipset_exists, (runner, &kernel), reply) && described_by(kernel, spec)
            && reply is Ok
}

/// The enforcement chain was listed, or was missing and was created.
pub open spec fn chain_there<R: FirewallCommandRunner>(runner: &R, family: FirewallFamily) -> bool {
    exists|log: Seq<Exchange>| #[trigger]
        genuine(runner, family, log) && log.len() > 0 && log[0].args == seq![
            "-w"@,
            "5"@,
            "-S"@,
            "kidobo-input"@,
        ] && (passed(log[0]) || missing(log[0]) && log.len() == 2 && log[1].args == seq![
            "-w"@,
            "5"@,
            "-N"@,
            "kidobo-input"@,
        ] && passed(log[1]))
}

proof fn lemma_set_there<R: IpsetSets>(
    runner: &R,
    spec: ManagedSetSpec,
    outcome: Result<(), AppError>,
)
    requires
        set_ensured(runner, spec@, outcome),
        outcome is Ok,
    ensures
        set_there(runner, spec),
{
    let (kernel, reply) = choose|kernel: IpsetSetSpec, reply: Result<(), String>| #[trigger]
        call_ensures(R::ensure_ipset_exists, (runner, &kernel), reply) && kernel_spec(spec@, kernel)
            && set_outcome(reply, outcome);
    assert(described_by(kernel, spec));
}

proof fn lemma_chain_there<R: FirewallCommandRunner>(runner: &R, family: FirewallFamily)
    requires
        prepared(runner, family, None),
    ensures
        chain_there(runner, family),
{
    let log = choose|log: Seq<Exchange>| #[trigger]
        genuine(runner, family, log) && ensure_rule(family, "kidobo-input"@, log, None);
    assert(seq!["-w"@, "5"@] + seq!["-S"@, "kidobo-input"@]
        =~= seq!["-w"@, "5"@, "-S"@, "kidobo-input"@]);
    assert(seq!["-w"@, "5"@] + seq!["-N"@, "kidobo-input"@]
        =~= seq!["-w"@, "5"@, "-N"@, "kidobo-input"@]);
    if !passed(log[0]) {
        assert(log.skip(1)[0] == log[1]);
    }
}

/// Artifacts that were ensured without an error are there: the IPv4 set and chain always, and the
/// IPv6 set and chain where IPv6 is enabled.
pub proof fn law_artifacts_are_there<
    R: IpsetSets + IpsetCommandRunner + FirewallCommandRunner,
>(backend: &CommandEnforcementBackend<R>, plan: EnforcementPlan, outcome: Result<(), AppError>)
    requires
        call_ensures(
            <CommandEnforcementBackend<R> as EnforcementBackend>::ensure_artifacts,
            (backend, &plan),
            outcome,
        ),
        outcome is Ok,
    ensures
        set_there(&backend.runner, plan.ipv4),
        chain_there(&backend.runner, FirewallFamily::Ipv4),
        plan.enable_ipv6 ==> set_there(&backend.runner, plan.ipv6),
        plan.enable_ipv6 ==> chain_there(&backend.runner, FirewallFamily::Ipv6),
{
    let ipv4 = choose|ipv4: Result<(), AppError>|
        {
            &&& #[trigger] set_ensured(&backend.runner, plan.ipv4@, ipv4)
            &&& if ipv4 is Err {
                outcome == ipv4
            } else if !plan.enable_ipv6 {
                chains_ensured(&backend.runner, false, outcome)
            } else {
                exists|ipv6: Result<(), AppError>|
                    {
                        &&& #[trigger] set_ensured(&backend.runner, plan.ipv6@, ipv6)
                        &&& if ipv6 is Err {
                            outcome == ipv6
                        } else {
                            chains_ensured(&backend.runner, true, outcome)
                        }
                    }
            }
        };
    lemma_set_there(&backend.runner, plan.ipv4, ipv4);
    if plan.enable_ipv6 {
        let ipv6 = choose|ipv6: Result<(), AppError>|
            {
                &&& #[trigger] set_ensured(&backend.runner, plan.ipv6@, ipv6)
                &&& if ipv6 is Err {
                    outcome == ipv6
                } else {
                    chains_ensured(&backend.runner, true, outcome)
                }
            };
        lemma_set_there(&backend.runner, plan.ipv6, ipv6);
    }
    assert(chains_ensured(&backend.runner, plan.enable_ipv6, outcome));
    assert(prepared(&backend.runner, FirewallFamily::Ipv4, None));
    lemma_chain_there(&backend.runner, FirewallFamily::Ipv4);
    if plan.enable_ipv6 {
        assert(prepared(&backend.runner, FirewallFamily::Ipv6, None));
        lemma_chain_there(&backend.runner, FirewallFamily::Ipv6);
    }
}

} // verus!
