//! What a synchronization installs, from the loads of its sources to the sets.

use crate::policy::cidr_order::sorted_distinct;
use crate::policy::config::Config;
use crate::policy::network_types::{AddressFamily, CanonicalCidr};
use crate::policy::span_math::block_has;
use crate::workflow::error::AppError;
use crate::workflow::paths::{PathResolutionInput, ResolvedPaths};
use crate::workflow::ports::{ConfigRepository, LockManager, PathResolver};
use crate::workflow::run_laws::{
    adds, ipv4_holds, ipv6_holds, law_effective_lists_hold_unsafe_candidates,
    law_preflight_installs_unsafe_candidates, law_source_adds_to_the_list_of_its_role, some_holds,
};
use crate::workflow::source::{
    NoticeModel, SourceRole, SyncSourceContext, SyncSourceLoad, SyncSourceProvider,
};
use crate::workflow::sync::{
    source_rule, EnforcementBackend, LoadedSources, ManagedSetSpec, PlanModel, SyncObserver,
};
use crate::workflow::sync_execute::{
    awaited, follows, is_start, reported, sync_trace, SyncDependencies, SyncStep,
};
use crate::workflow::sync_laws::{
    asks_for, law_run_enforces_the_configuration, law_run_is_fail_closed,
    law_successful_run_is_enforced,
};
use crate::workflow::sync_run::{
    installed, notice_signals, preflight_rule, stage, turn_rule, SignalModel, SyncEvent, SyncPhase,
    SyncRun, SyncTurn,
};
use vstd::prelude::*;

verus! {

/// The step loaded a source of the role, and its networks hold the network.
pub open spec fn step_loads(step: SyncStep, role: SourceRole, network: CanonicalCidr) -> bool {
    &&& step.before.phase matches SyncPhase::LoadSource { index }
    &&& step.before.sources@[index as int].role == role
    &&& step.event matches SyncEvent::SourceLoaded(result)
    &&& result matches Ok(load)
    &&& load.primary.networks@.contains(network)
}

/// One of the first steps loaded the network from a source of the role.
pub open spec fn loaded_before(
    steps: Seq<SyncStep>,
    count: int,
    role: SourceRole,
    network: CanonicalCidr,
) -> bool {
    exists|k: int| 0 <= k < count && step_loads(#[trigger] steps[k], role, network)
}

/// Preparing the lists keeps the candidates and what the operator safelisted.
proof fn lemma_preflight_keeps(
    loaded: LoadedSources,
    plan: PlanModel,
    after: SyncRun,
    turn: SyncTurn,
    signals: Seq<SignalModel>,
    network: CanonicalCidr,
)
    requires
        preflight_rule(loaded, plan, after, turn, signals),
        turn.ending is None,
    ensures
        after.loaded.candidates@.contains(network) <==> loaded.candidates@.contains(network),
        loaded.safelist@.contains(network) ==> after.loaded.safelist@.contains(network),
{
    law_preflight_installs_unsafe_candidates(loaded, plan, after, turn, signals, 0, network);
    let (candidates, safelist) = choose|
        candidates: Seq<CanonicalCidr>,
        safelist: Seq<CanonicalCidr>,
    |
        #![trigger sorted_distinct(loaded.candidates@, candidates), sorted_distinct(loaded.safelist@, safelist)]
        {
            &&& sorted_distinct(loaded.candidates@, candidates)
            &&& sorted_distinct(loaded.safelist@, safelist)
            &&& after.loaded.candidates@ == candidates
        };
    assert(loaded.candidates@.contains(network) <==> candidates.contains(network));
}

/// The networks that a step adds to the candidates and to the operator's safelist.
#[verifier::spinoff_prover]
#[verifier::rlimit(60)]
proof fn lemma_step_keeps(step: SyncStep, network: CanonicalCidr)
    requires
        step.before.valid(),
        awaited(step.before.phase, step.event),
        turn_rule(step.before, step.event, step.after, step.turn),
        step.turn.ending is None,
    ensures
        step.after.loaded.candidates@.contains(network)
            <==> step.before.loaded.candidates@.contains(network) || step_loads(
            step,
            SourceRole::Candidate,
            network,
        ),
        step.before.loaded.safelist@.contains(network) || step_loads(
            step,
            SourceRole::Safelist,
            network,
        ) ==> step.after.loaded.safelist@.contains(network),
{
    reveal(turn_rule);
    let before = step.before;
    let after = step.after;
    let turn = step.turn;
    match (before.phase, step.event) {
        (SyncPhase::PrepareArtifacts, SyncEvent::ArtifactsPrepared(_)) => {
            if before.sources@.len() == 0 {
                lemma_preflight_keeps(
                    before.loaded,
                    before.plan->0@,
                    after,
                    turn,
                    stage("ensure_ipset_artifacts"),
                    network,
                );
            }
        },
        (SyncPhase::LoadSource { index }, SyncEvent::SourceLoaded(result)) => {
            lemma_load_keeps(before, index, result, after, turn, network);
        },
        _ => {},
    }
}

proof fn lemma_load_keeps(
    before: SyncRun,
    index: usize,
    result: Result<SyncSourceLoad, AppError>,
    after: SyncRun,
    turn: SyncTurn,
    network: CanonicalCidr,
)
    requires
        before.valid(),
        before.phase == (SyncPhase::LoadSource { index }),
        turn_rule(before, SyncEvent::SourceLoaded(result), after, turn),
        turn.ending is None,
    ensures
        after.loaded.candidates@.contains(network) <==> before.loaded.candidates@.contains(network)
            || before.sources@[index as int].role == SourceRole::Candidate && result is Ok
            && result->Ok_0.primary.networks@.contains(network),
        before.loaded.safelist@.contains(network) || before.sources@[index as int].role
            == SourceRole::Safelist && result is Ok && result->Ok_0.primary.networks@.contains(
            network,
        ) ==> after.loaded.safelist@.contains(network),
{
    reveal(turn_rule);
    let descriptor = before.sources@[index as int];
    let (loaded, notices) = choose|
        loaded: LoadedSources,
        notices: Result<Seq<NoticeModel>, AppError>,
    |
        {
            &&& #[trigger] source_rule(before.loaded, descriptor, result, loaded, notices)
            &&& notices is Ok
            &&& if index + 1 < before.sources@.len() {
                after.loaded == loaded
            } else {
                preflight_rule(
                    loaded,
                    before.plan->0@,
                    after,
                    turn,
                    notice_signals(notices->Ok_0),
                )
            }
        };
    law_source_adds_to_the_list_of_its_role(before.loaded, descriptor, result, loaded, notices);
    if result is Ok && descriptor.role == SourceRole::Candidate {
        assert(adds(
            before.loaded.candidates@,
            result->Ok_0.primary.networks@,
            loaded.candidates@,
        ));
        assert(loaded.candidates@.contains(network) <==> before.loaded.candidates@.contains(network)
            || result->Ok_0.primary.networks@.contains(network));
    }
    if result is Ok && descriptor.role == SourceRole::Safelist {
        assert(adds(before.loaded.safelist@, result->Ok_0.primary.networks@, loaded.safelist@));
        assert(loaded.safelist@.contains(network) <==> before.loaded.safelist@.contains(network)
            || result->Ok_0.primary.networks@.contains(network));
    }
    if !(index + 1 < before.sources@.len()) {
        lemma_preflight_keeps(
            loaded,
            before.plan->0@,
            after,
            turn,
            notice_signals(notices->Ok_0),
            network,
        );
    }
}

/// The candidates of a run are the networks that its blocklist sources loaded, and every network
/// that a safelist of the operator loaded is safelisted.
#[verifier::spinoff_prover]
pub proof fn law_run_collects_what_its_sources_load<
    P: PathResolver,
    C: ConfigRepository,
    L: LockManager,
    S: SyncSourceProvider,
    E: EnforcementBackend,
    O: SyncObserver,
>(
    request: PathResolutionInput,
    dependencies: SyncDependencies<'_, P, C, L, S, E, O>,
    paths: ResolvedPaths,
    config: Config,
    steps: Seq<SyncStep>,
    i: int,
    network: CanonicalCidr,
)
    requires
        sync_trace(request, dependencies, paths, config, steps),
        0 <= i < steps.len(),
    ensures
        steps[i].before.loaded.candidates@.contains(network) <==> loaded_before(
            steps,
            i,
            SourceRole::Candidate,
            network,
        ),
        loaded_before(steps, i, SourceRole::Safelist, network)
            ==> steps[i].before.loaded.safelist@.contains(network),
    decreases i,
{
    if i == 0 {
        assert(is_start(steps[0].before, dependencies.sources.descriptor_list()));
        assert(steps[0].before.loaded.candidates@ =~= Seq::empty());
    } else {
        law_run_collects_what_its_sources_load(
            request,
            dependencies,
            paths,
            config,
            steps,
            i - 1,
            network,
        );
        let step = steps[i - 1];
        assert(step.before.valid()) by {
            law_run_is_fail_closed(request, dependencies, paths, config, steps, i - 1);
        }
        assert(turn_rule(step.before, step.event, step.after, step.turn));
        assert(step.turn.ending is None);
        assert(awaited(step.before.phase, step.event)) by {
            assert(reported(request, dependencies, paths, config, step.before, step.event));
            reveal(reported);
        }
        lemma_step_keeps(step, network);
        assert(follows(step.after, steps[i].before, steps[i].event));
        assert(steps[i].before.loaded.candidates == step.after.loaded.candidates);
        assert(steps[i].before.loaded.safelist == step.after.loaded.safelist);
        lemma_loaded_grows(steps, i, SourceRole::Candidate, network);
        lemma_loaded_grows(steps, i, SourceRole::Safelist, network);
    }
}

proof fn lemma_loaded_grows(
    steps: Seq<SyncStep>,
    i: int,
    role: SourceRole,
    network: CanonicalCidr,
)
    requires
        0 < i <= steps.len(),
    ensures
        loaded_before(steps, i, role, network) <==> loaded_before(steps, i - 1, role, network)
            || step_loads(steps[i - 1], role, network),
{
    if loaded_before(steps, i, role, network) {
        let k = choose|k: int| 0 <= k < i && step_loads(#[trigger] steps[k], role, network);
        if k < i - 1 {
            assert(loaded_before(steps, i - 1, role, network));
        }
    }
}

proof fn lemma_installed_ipv4(run: SyncRun, a: int)
    ensures
        some_holds(installed(run.effective, AddressFamily::Ipv4), AddressFamily::Ipv4, a)
            <==> ipv4_holds(run.effective.ipv4@, a),
{
    let entries = installed(run.effective, AddressFamily::Ipv4);
    let networks = run.effective.ipv4@;
    if some_holds(entries, AddressFamily::Ipv4, a) {
        let i = choose|i: int|
            0 <= i < entries.len() && (#[trigger] entries[i]).has(AddressFamily::Ipv4, a);
        assert(entries[i] == CanonicalCidr::V4(networks[i]));
        assert(block_has(32, networks[i]@, a));
    }
    if ipv4_holds(networks, a) {
        let i = choose|i: int|
            0 <= i < networks.len() && block_has(32, (#[trigger] networks[i])@, a);
        assert(entries[i] == CanonicalCidr::V4(networks[i]));
        assert(entries[i].has(AddressFamily::Ipv4, a));
    }
}

proof fn lemma_installed_ipv6(run: SyncRun, a: int)
    ensures
        some_holds(installed(run.effective, AddressFamily::Ipv6), AddressFamily::Ipv6, a)
            <==> ipv6_holds(run.effective.ipv6@, a),
{
    let entries = installed(run.effective, AddressFamily::Ipv6);
    let networks = run.effective.ipv6@;
    if some_holds(entries, AddressFamily::Ipv6, a) {
        let i = choose|i: int|
            0 <= i < entries.len() && (#[trigger] entries[i]).has(AddressFamily::Ipv6, a);
        assert(entries[i] == CanonicalCidr::V6(networks[i]));
        assert(block_has(128, networks[i]@, a));
    }
    if ipv6_holds(networks, a) {
        let i = choose|i: int|
            0 <= i < networks.len() && block_has(128, (#[trigger] networks[i])@, a);
        assert(entries[i] == CanonicalCidr::V6(networks[i]));
        assert(entries[i].has(AddressFamily::Ipv6, a));
    }
}

/// A step that replaces a set hands over the set of the plan for the family of the step, and the
/// addresses of that family that a candidate network holds and no safelisted one does.
#[verifier::spinoff_prover]
pub proof fn law_replacement_installs_unsafe_candidates<
    P: PathResolver,
    C: ConfigRepository,
    L: LockManager,
    S: SyncSourceProvider,
    E: EnforcementBackend,
    O: SyncObserver,
>(
    request: PathResolutionInput,
    dependencies: SyncDependencies<'_, P, C, L, S, E, O>,
    paths: ResolvedPaths,
    config: Config,
    before: SyncRun,
    event: SyncEvent,
    a: int,
) -> (entries: &[CanonicalCidr])
    requires
        before.valid(),
        reported(request, dependencies, paths, config, before, event),
        event is SetReplaced,
        before.phase is ReplaceIpv4 || before.phase is ReplaceIpv6,
    ensures
        before.phase is ReplaceIpv4 ==> call_ensures(
            E::replace_set,
            (dependencies.enforcement, &(before.plan->0).ipv4, entries),
            event->SetReplaced_0,
        ) && (some_holds(entries@, AddressFamily::Ipv4, a) <==> some_holds(
            before.loaded.candidates@,
            AddressFamily::Ipv4,
            a,
        ) && !some_holds(before.loaded.safelist@, AddressFamily::Ipv4, a)),
        before.phase is ReplaceIpv6 ==> call_ensures(
            E::replace_set,
            (dependencies.enforcement, &(before.plan->0).ipv6, entries),
            event->SetReplaced_0,
        ) && (some_holds(entries@, AddressFamily::Ipv6, a) <==> some_holds(
            before.loaded.candidates@,
            AddressFamily::Ipv6,
            a,
        ) && !some_holds(before.loaded.safelist@, AddressFamily::Ipv6, a)),
        entries@.len() <= if before.phase is ReplaceIpv4 {
            before.plan->0.ipv4.maxelem
        } else {
            before.plan->0.ipv6.maxelem
        },
{
    reveal(reported);
    let plan = before.plan->0;
    law_effective_lists_hold_unsafe_candidates(
        before.loaded.candidates@,
        before.loaded.safelist@,
        plan.enable_ipv6,
        before.effective,
        a,
    );
    lemma_installed_ipv4(before, a);
    lemma_installed_ipv6(before, a);
    if before.phase is ReplaceIpv4 {
        choose|entries: &[CanonicalCidr]| #[trigger]
            call_ensures(
                E::replace_set,
                (dependencies.enforcement, &plan.ipv4, entries),
                event->SetReplaced_0,
            ) && entries@ == installed(before.effective, AddressFamily::Ipv4)
    } else {
        choose|entries: &[CanonicalCidr]| #[trigger]
            call_ensures(
                E::replace_set,
                (dependencies.enforcement, &plan.ipv6, entries),
                event->SetReplaced_0,
            ) && entries@ == installed(before.effective, AddressFamily::Ipv6)
    }
}

/// A step that loads a source asks the provider at its position with the configuration of the run.
pub proof fn law_sources_are_asked_in_their_order<
    P: PathResolver,
    C: ConfigRepository,
    L: LockManager,
    S: SyncSourceProvider,
    E: EnforcementBackend,
    O: SyncObserver,
>(
    request: PathResolutionInput,
    dependencies: SyncDependencies<'_, P, C, L, S, E, O>,
    paths: ResolvedPaths,
    config: Config,
    before: SyncRun,
    index: usize,
    event: SyncEvent,
)
    requires
        reported(request, dependencies, paths, config, before, event),
        before.phase == (SyncPhase::LoadSource { index }),
        event is SourceLoaded,
    ensures
        call_ensures(
            S::load,
            (
                &dependencies.sources.provider_list()[index as int],
                &SyncSourceContext {
                    cancellation: dependencies.cancellation,
                    paths: &paths,
                    config: &config,
                    env: &request.env,
                },
            ),
            event->SourceLoaded_0,
        ),
{
    reveal(reported);
}

/// A run that succeeds has replaced the IPv4 set of the configuration, and the IPv6 one where that
/// family is enabled: what it installed last are the addresses of the family that the blocklist
/// sources loaded and that are not safelisted, and no address of a network that a safelist of the
/// operator loaded.
#[verifier::spinoff_prover]
pub proof fn law_successful_run_installs_unsafe_candidates<
    P: PathResolver,
    C: ConfigRepository,
    L: LockManager,
    S: SyncSourceProvider,
    E: EnforcementBackend,
    O: SyncObserver,
>(
    request: PathResolutionInput,
    dependencies: SyncDependencies<'_, P, C, L, S, E, O>,
    paths: ResolvedPaths,
    config: Config,
    steps: Seq<SyncStep>,
    a: int,
    candidate: CanonicalCidr,
    safe: CanonicalCidr,
) -> (found: (int, ManagedSetSpec, &[CanonicalCidr], Result<(), AppError>))
    requires
        sync_trace(request, dependencies, paths, config, steps),
        steps.len() > 0,
        steps.last().turn.ending matches Some(ending) && ending is Ok,
    ensures
        0 <= found.0 < steps.len(),
        steps[found.0].before.phase is ReplaceIpv4,
        call_ensures(E::replace_set, (dependencies.enforcement, &found.1, found.2), found.3),
        found.3 is Ok,
        found.1.family == AddressFamily::Ipv4,
        found.1.set_name@ == config.ipset.set_name@,
        some_holds(found.2@, AddressFamily::Ipv4, a) <==> some_holds(
            steps[found.0].before.loaded.candidates@,
            AddressFamily::Ipv4,
            a,
        ) && !some_holds(steps[found.0].before.loaded.safelist@, AddressFamily::Ipv4, a),
        steps[found.0].before.loaded.candidates@.contains(candidate) <==> loaded_before(
            steps,
            found.0,
            SourceRole::Candidate,
            candidate,
        ),
        loaded_before(steps, found.0, SourceRole::Safelist, safe) && safe.has(
            AddressFamily::Ipv4,
            a,
        ) ==> !some_holds(found.2@, AddressFamily::Ipv4, a),
        found.2@.len() <= config.ipset.maxelem@,
{
    law_successful_run_is_enforced(request, dependencies, paths, config, steps);
    let k = choose|k: int|
        0 <= k < steps.len() && (#[trigger] steps[k]).before.phase == SyncPhase::ReplaceIpv4 && (
        steps[k].event matches SyncEvent::SetReplaced(result) && result is Ok);
    let step = steps[k];
    assert(step.before.valid()) by {
        law_run_is_fail_closed(request, dependencies, paths, config, steps, k);
    }
    assert(step.before.plan matches Some(plan) ==> asks_for(plan, config)) by {
        law_run_enforces_the_configuration(request, dependencies, paths, config, steps, k);
    }
    assert(reported(request, dependencies, paths, config, step.before, step.event));
    let entries = law_replacement_installs_unsafe_candidates(
        request,
        dependencies,
        paths,
        config,
        step.before,
        step.event,
        a,
    );
    assert(step.before.loaded.candidates@.contains(candidate) <==> loaded_before(
        steps,
        k,
        SourceRole::Candidate,
        candidate,
    )) by {
        law_run_collects_what_its_sources_load(
            request,
            dependencies,
            paths,
            config,
            steps,
            k,
            candidate,
        );
    }
    assert(loaded_before(steps, k, SourceRole::Safelist, safe)
        ==> step.before.loaded.safelist@.contains(safe)) by {
        law_run_collects_what_its_sources_load(
            request,
            dependencies,
            paths,
            config,
            steps,
            k,
            safe,
        );
    }
    if step.before.loaded.safelist@.contains(safe) && safe.has(AddressFamily::Ipv4, a) {
        let safelist = step.before.loaded.safelist@;
        let j = choose|j: int| 0 <= j < safelist.len() && safelist[j] == safe;
        assert(safelist[j].has(AddressFamily::Ipv4, a));
    }
    (k, step.before.plan->0.ipv4, entries, step.event->SetReplaced_0)
}

} // verus!
