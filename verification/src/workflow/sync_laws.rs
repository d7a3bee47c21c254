//! Laws of whole synchronization runs.

use crate::policy::config::Config;
use crate::policy::network_types::AddressFamily;
use crate::workflow::error::AppError;
use crate::workflow::paths::{PathResolutionInput, ResolvedPaths};
use crate::workflow::ports::{ConfigRepository, LockManager, PathResolver};
use crate::workflow::source::SyncSourceProvider;
use crate::workflow::sync::{plan_of, EnforcementBackend, EnforcementPlan, SyncObserver};
use crate::workflow::sync_execute::{
    awaited, follows, lemma_awaited, lemma_step_progress, phase_rank, reported, sync_trace,
    SyncDependencies, SyncStep,
};
use crate::workflow::sync_run::{
    law_steps_are_ordered, turn_rule, SyncEvent, SyncPhase, SyncRun, SyncTurn,
};
use vstd::prelude::*;

verus! {

/// A run stays valid when it takes in a report.
proof fn lemma_turn_keeps_valid(before: SyncRun, event: SyncEvent, after: SyncRun, turn: SyncTurn)
    requires
        before.valid(),
        turn_rule(before, event, after, turn),
    ensures
        after.valid(),
{
    reveal(turn_rule);
    assert(before.sources.len() == before.sources@.len());
}

/// A run stays valid when a cache selection is handed out.
proof fn lemma_follows_keeps_valid(after: SyncRun, next: SyncRun, event: SyncEvent)
    requires
        after.valid(),
        follows(after, next, event),
    ensures
        next.valid(),
        next.phase == after.phase,
        next.plan == after.plan,
        next.effective == after.effective,
{
}

/// A set was replaced in the phase by one of the first steps.
pub open spec fn replaced(steps: Seq<SyncStep>, count: int, phase: SyncPhase) -> bool {
    exists|k: int|
        0 <= k < count && (#[trigger] steps[k]).before.phase == phase && (steps[k].event matches
            SyncEvent::SetReplaced(result) && result is Ok)
}

/// The firewall was activated by one of the first steps.
pub open spec fn activated(steps: Seq<SyncStep>, count: int) -> bool {
    exists|k: int|
        0 <= k < count && (#[trigger] steps[k]).before.phase is Activate && (steps[k].event matches
            SyncEvent::Activated(result) && result is Ok)
}

/// What comes before the phase was done by one of the first steps: every set that the plan enables
/// was replaced, and the firewall was activated.
pub open spec fn enforced_before(steps: Seq<SyncStep>, count: int, run: SyncRun) -> bool {
    &&& (run.phase is Activate || run.phase is CleanUpIpv6) ==> replaced(
        steps,
        count,
        SyncPhase::ReplaceIpv4,
    )
    &&& (run.phase is ReplaceIpv4 || run.phase is Activate) && run.plan->0@.enable_ipv6 ==> replaced(
        steps,
        count,
        SyncPhase::ReplaceIpv6,
    )
    &&& run.phase is CleanUpIpv6 ==> activated(steps, count)
}

/// Every step of a run starts from a valid state, so past the capacity check the lists to install
/// are those of the networks collected and fit into their sets. No step comes after one of a later
/// phase, so a failure leaves what later phases would change untouched. The firewall is activated
/// only once every enabled set was replaced, and the IPv4 set is replaced only once an enabled IPv6
/// set was.
pub proof fn law_run_is_fail_closed<
    P: PathResolver,
    C: ConfigRepository,
    L: LockManager,
    S: SyncSourceProvider,
    E: EnforcementBackend,
    O: SyncObserver,
>(
    request: PathResolutionInput,
    dependencies: SyncDependencies<'_, P, C, L, S, E, O>,
    paths: ResolvedPaths,
    config: Config,
    steps: Seq<SyncStep>,
    i: int,
)
    requires
        sync_trace(request, dependencies, paths, config, steps),
        0 <= i < steps.len(),
    ensures
        steps[i].before.valid(),
        forall|k: int|
            0 <= k < i ==> phase_rank((#[trigger] steps[k]).before.phase) >= phase_rank(
                steps[i].before.phase,
            ),
        enforced_before(steps, i, steps[i].before),
    decreases i,
{
    if i > 0 {
        law_run_is_fail_closed(request, dependencies, paths, config, steps, i - 1);
        let step = steps[i - 1];
        assert(awaited(step.before.phase, step.event)) by {
            reveal(reported);
        }
        assert(follows(step.after, steps[i].before, steps[i].event));
        lemma_next_step(steps, i);
        assert forall|k: int| 0 <= k < i implies phase_rank((#[trigger] steps[k]).before.phase)
            >= phase_rank(steps[i].before.phase) by {
            if k < i - 1 {
                assert(phase_rank(steps[k].before.phase) >= phase_rank(step.before.phase));
            }
        }
    }
}

/// What holds of a step holds of the next one.
proof fn lemma_next_step(steps: Seq<SyncStep>, i: int)
    requires
        0 < i < steps.len(),
        steps[i - 1].before.valid(),
        enforced_before(steps, i - 1, steps[i - 1].before),
        turn_rule(steps[i - 1].before, steps[i - 1].event, steps[i - 1].after, steps[i - 1].turn),
        awaited(steps[i - 1].before.phase, steps[i - 1].event),
        steps[i - 1].turn.ending is None,
        follows(steps[i - 1].after, steps[i].before, steps[i].event),
    ensures
        steps[i].before.valid(),
        phase_rank(steps[i - 1].before.phase) >= phase_rank(steps[i].before.phase),
        enforced_before(steps, i, steps[i].before),
{
    let step = steps[i - 1];
    let next = steps[i].before;
    lemma_awaited(step.before, step.event, step.after, step.turn);
    lemma_turn_keeps_valid(step.before, step.event, step.after, step.turn);
    lemma_follows_keeps_valid(step.after, next, steps[i].event);
    lemma_step_progress(step.before, step.event, step.after, step.turn);
    lemma_replaced_grows(steps, i, SyncPhase::ReplaceIpv4);
    lemma_replaced_grows(steps, i, SyncPhase::ReplaceIpv6);
    if step.after.phase != step.before.phase {
        law_steps_are_ordered(step.before, step.event, step.after, step.turn);
        if next.phase is CleanUpIpv6 {
            assert(steps[i - 1].before.phase is Activate);
        }
    }
    if !(step.before.phase is LoadConfig) {
        lemma_plan_stays(step.before, step.event, step.after, step.turn);
    }
}

/// A step keeps the plan past the configuration.
proof fn lemma_plan_stays(before: SyncRun, event: SyncEvent, after: SyncRun, turn: SyncTurn)
    requires
        turn_rule(before, event, after, turn),
        !(before.phase is LoadConfig),
    ensures
        after.plan == before.plan,
{
    reveal(turn_rule);
}

/// A run that succeeds has replaced every set that its plan enables and has activated the firewall.
pub proof fn law_successful_run_is_enforced<
    P: PathResolver,
    C: ConfigRepository,
    L: LockManager,
    S: SyncSourceProvider,
    E: EnforcementBackend,
    O: SyncObserver,
>(
    request: PathResolutionInput,
    dependencies: SyncDependencies<'_, P, C, L, S, E, O>,
    paths: ResolvedPaths,
    config: Config,
    steps: Seq<SyncStep>,
)
    requires
        sync_trace(request, dependencies, paths, config, steps),
        steps.len() > 0,
        steps.last().turn.ending matches Some(ending) && ending is Ok,
    ensures
        activated(steps, steps.len() as int),
        replaced(steps, steps.len() as int, SyncPhase::ReplaceIpv4),
        steps.last().before.plan->0@.enable_ipv6 ==> replaced(
            steps,
            steps.len() as int,
            SyncPhase::ReplaceIpv6,
        ),
{
    let i = steps.len() - 1;
    let step = steps[i];
    law_run_is_fail_closed(request, dependencies, paths, config, steps, i);
    assert(awaited(step.before.phase, step.event)) by {
        reveal(reported);
    }
    lemma_success_follows_activation(step.before, step.event, step.after, step.turn);
    lemma_replaced_widens(steps, i, steps.len() as int, SyncPhase::ReplaceIpv4);
    lemma_replaced_widens(steps, i, steps.len() as int, SyncPhase::ReplaceIpv6);
    if step.before.phase is Activate {
        assert(activated(steps, steps.len() as int)) by {
            assert(steps[i].before.phase is Activate);
        }
    } else {
        let k = choose|k: int|
            0 <= k < i && (#[trigger] steps[k]).before.phase is Activate && (steps[k].event matches
                SyncEvent::Activated(result) && result is Ok);
        assert(steps[k].before.phase is Activate);
    }
}

/// A plan asks for what the configuration says: its sets by name, type, sizes and timeout, IPv6
/// where it is enabled, and the configured verdict.
pub open spec fn asks_for(plan: EnforcementPlan, config: Config) -> bool {
    &&& plan.chain_action == config.ipset.chain_action
    &&& plan.enable_ipv6 == config.ipset.enable_ipv6
    &&& plan.ipv4.family == AddressFamily::Ipv4
    &&& plan.ipv4.set_name@ == config.ipset.set_name@
    &&& plan.ipv4.set_type@ == config.ipset.set_type@
    &&& plan.ipv4.hashsize == config.ipset.hashsize@
    &&& plan.ipv4.maxelem == config.ipset.maxelem@
    &&& plan.ipv4.timeout == config.ipset.timeout
    &&& plan.ipv6.family == AddressFamily::Ipv6
    &&& plan.ipv6.set_name@ == config.ipset.set_name_v6@
    &&& plan.ipv6.set_type@ == config.ipset.set_type@
    &&& plan.ipv6.hashsize == config.ipset.hashsize@
    &&& plan.ipv6.maxelem == config.ipset.maxelem@
    &&& plan.ipv6.timeout == config.ipset.timeout
}

/// Every plan of every configuration has the verdict, the sets and the families that the fields of
/// the configuration say.
pub proof fn law_plan_asks_for_the_configuration(config: Config, plan: EnforcementPlan)
    requires
        plan@ == plan_of(config),
    ensures
        asks_for(plan, config),
{
}

/// Whatever a run hands to the enforcement, it is the plan of the configuration that it loaded.
pub proof fn law_run_enforces_the_configuration<
    P: PathResolver,
    C: ConfigRepository,
    L: LockManager,
    S: SyncSourceProvider,
    E: EnforcementBackend,
    O: SyncObserver,
>(
    request: PathResolutionInput,
    dependencies: SyncDependencies<'_, P, C, L, S, E, O>,
    paths: ResolvedPaths,
    config: Config,
    steps: Seq<SyncStep>,
    i: int,
)
    requires
        sync_trace(request, dependencies, paths, config, steps),
        0 <= i < steps.len(),
    ensures
        steps[i].before.plan matches Some(plan) ==> asks_for(plan, config),
        steps[i].after.plan matches Some(plan) ==> asks_for(plan, config),
    decreases i,
{
    if i > 0 {
        law_run_enforces_the_configuration(request, dependencies, paths, config, steps, i - 1);
        assert(follows(steps[i - 1].after, steps[i].before, steps[i].event));
    }
    let step = steps[i];
    assert(turn_rule(step.before, step.event, step.after, step.turn));
    assert(reported(request, dependencies, paths, config, step.before, step.event));
    if step.before.phase is LoadConfig {
        reveal(reported);
        reveal(turn_rule);
    } else {
        lemma_plan_stays(step.before, step.event, step.after, step.turn);
    }
}

/// A run that succeeds has activated the firewall with the plan of the configuration.
pub proof fn law_successful_run_activates_the_configuration<
    P: PathResolver,
    C: ConfigRepository,
    L: LockManager,
    S: SyncSourceProvider,
    E: EnforcementBackend,
    O: SyncObserver,
>(
    request: PathResolutionInput,
    dependencies: SyncDependencies<'_, P, C, L, S, E, O>,
    paths: ResolvedPaths,
    config: Config,
    steps: Seq<SyncStep>,
) -> (made: (EnforcementPlan, Result<(), AppError>))
    requires
        sync_trace(request, dependencies, paths, config, steps),
        steps.len() > 0,
        steps.last().turn.ending matches Some(ending) && ending is Ok,
    ensures
        asks_for(made.0, config),
        call_ensures(E::activate, (dependencies.enforcement, &made.0), made.1),
        made.1 is Ok,
{
    law_successful_run_is_enforced(request, dependencies, paths, config, steps);
    let k = choose|k: int|
        0 <= k < steps.len() && (#[trigger] steps[k]).before.phase is Activate && (
        steps[k].event matches SyncEvent::Activated(result) && result is Ok);
    lemma_activation_step(request, dependencies, paths, config, steps, k)
}

/// A step that activates does so with the plan of the configuration.
#[verifier::spinoff_prover]
proof fn lemma_activation_step<
    P: PathResolver,
    C: ConfigRepository,
    L: LockManager,
    S: SyncSourceProvider,
    E: EnforcementBackend,
    O: SyncObserver,
>(
    request: PathResolutionInput,
    dependencies: SyncDependencies<'_, P, C, L, S, E, O>,
    paths: ResolvedPaths,
    config: Config,
    steps: Seq<SyncStep>,
    k: int,
) -> (made: (EnforcementPlan, Result<(), AppError>))
    requires
        sync_trace(request, dependencies, paths, config, steps),
        0 <= k < steps.len(),
        steps[k].before.phase is Activate,
        steps[k].event is Activated,
        steps[k].event->Activated_0 is Ok,
    ensures
        asks_for(made.0, config),
        call_ensures(E::activate, (dependencies.enforcement, &made.0), made.1),
        made.1 is Ok,
{
    let step = steps[k];
    assert(step.before.valid()) by {
        law_run_is_fail_closed(request, dependencies, paths, config, steps, k);
    }
    assert(step.before.plan matches Some(plan) ==> asks_for(plan, config)) by {
        law_run_enforces_the_configuration(request, dependencies, paths, config, steps, k);
    }
    assert(reported(request, dependencies, paths, config, step.before, step.event));
    lemma_reported_activation(request, dependencies, paths, config, step.before, step.event);
    (step.before.plan->0, step.event->Activated_0)
}

/// An activation that is reported was made with the plan of the run.
proof fn lemma_reported_activation<
    P: PathResolver,
    C: ConfigRepository,
    L: LockManager,
    S: SyncSourceProvider,
    E: EnforcementBackend,
    O: SyncObserver,
>(
    request: PathResolutionInput,
    dependencies: SyncDependencies<'_, P, C, L, S, E, O>,
    paths: ResolvedPaths,
    config: Config,
    before: SyncRun,
    event: SyncEvent,
)
    requires
        reported(request, dependencies, paths, config, before, event),
        before.phase is Activate,
        event is Activated,
    ensures
        call_ensures(
            E::activate,
            (dependencies.enforcement, &before.plan->0),
            event->Activated_0,
        ),
{
    reveal(reported);
}

/// Only the activation, or the cleanup behind it, ends a run well.
proof fn lemma_success_follows_activation(
    before: SyncRun,
    event: SyncEvent,
    after: SyncRun,
    turn: SyncTurn,
)
    requires
        before.valid(),
        awaited(before.phase, event),
        turn_rule(before, event, after, turn),
        turn.ending matches Some(ending) && ending is Ok,
    ensures
        before.phase is Activate && (event matches SyncEvent::Activated(result) && result is Ok)
            || before.phase is CleanUpIpv6,
{
    reveal(turn_rule);
}

/// More steps keep what the first ones did.
proof fn lemma_replaced_widens(steps: Seq<SyncStep>, fewer: int, more: int, phase: SyncPhase)
    requires
        fewer <= more,
    ensures
        replaced(steps, fewer, phase) ==> replaced(steps, more, phase),
{
}

/// What was replaced stays so.
proof fn lemma_replaced_grows(steps: Seq<SyncStep>, i: int, phase: SyncPhase)
    requires
        0 < i < steps.len(),
    ensures
        replaced(steps, i - 1, phase) ==> replaced(steps, i, phase),
        steps[i - 1].before.phase == phase && (steps[i - 1].event matches SyncEvent::SetReplaced(
            result,
        ) && result is Ok) ==> replaced(steps, i, phase),
{
}

} // verus!
