//! One synchronization against the workflow's ports.

use crate::policy::config::Config;
use crate::policy::network_types::{AddressFamily, CanonicalCidr};
use crate::workflow::error::AppError;
use crate::workflow::paths::{ConfigRequirement, PathResolutionInput, ResolvedPaths};
use crate::workflow::ports::{
    allowed_by, check_cancellation, verdicts, Cancellation, ConfigRepository, LockGuard,
    LockManager, PathResolver,
};
use crate::workflow::source::{
    promote_selection, promoted, Notice, SyncSourceContext, SyncSourceDescriptor, SyncSourceLoad,
    SyncSourceProvider, SyncSourceRegistry,
};
use crate::workflow::sync::{
    plan_of, EnforcementBackend, EnforcementPlan, SyncObserver, SyncOutcome,
};
use crate::workflow::sync_run::{
    installed, promotion_taken, turn_rule, SyncEvent, SyncPhase, SyncRun, SyncSignal, SyncTurn,
};
use vstd::prelude::*;

verus! {

/// Ports and registries required by the synchronization workflow.
pub struct SyncDependencies<
    'a,
    P: PathResolver,
    C: ConfigRepository,
    L: LockManager,
    S: SyncSourceProvider,
    E: EnforcementBackend,
    O: SyncObserver,
> {
    /// Runtime path resolver.
    pub paths: &'a P,
    /// Validated configuration repository.
    pub configs: &'a C,
    /// Nonblocking process lock manager.
    pub locks: &'a L,
    /// Ordered source registry.
    pub sources: &'a SyncSourceRegistry<S>,
    /// Atomic set and fail-closed firewall backend.
    pub enforcement: &'a E,
    /// Workflow event observer.
    pub observer: &'a O,
    /// Cancellation checked before starting another source operation.
    pub cancellation: &'a dyn Cancellation,
}

/// One report and what it led to.
pub struct SyncStep {
    pub before: SyncRun,
    pub event: SyncEvent,
    pub after: SyncRun,
    pub turn: SyncTurn,
}

/// The second result succeeds where the first does, and fails with the same failure.
pub open spec fn same_ending<T>(result: Result<T, AppError>, reported: Result<(), AppError>) -> bool {
    match result {
        Ok(_) => reported is Ok,
        Err(error) => reported == Err::<(), AppError>(error),
    }
}

/// The event is what the port for the run's phase replied, given the paths and the configuration
/// that were resolved and loaded before. What a cache selection came to is told by [`follows`].
#[verifier::opaque]
pub open spec fn reported<
    P: PathResolver,
    C: ConfigRepository,
    L: LockManager,
    S: SyncSourceProvider,
    E: EnforcementBackend,
    O: SyncObserver,
>(
    request: PathResolutionInput,
    dependencies: SyncDependencies<'_, P, C, L, S, E, O>,
    paths: ResolvedPaths,
    config: Config,
    before: SyncRun,
    event: SyncEvent,
) -> bool {
    match (before.phase, event) {
        (SyncPhase::ResolvePaths, SyncEvent::PathsResolved(result)) => exists|
            reply: Result<ResolvedPaths, AppError>,
        | #[trigger]
            call_ensures(
                P::resolve,
                (dependencies.paths, &request, ConfigRequirement::Required),
                reply,
            ) && same_ending(reply, result) && (reply matches Ok(found) ==> found == paths),
        (SyncPhase::LoadConfig, SyncEvent::ConfigLoaded(result)) => exists|
            reply: Result<Config, AppError>,
        |
            {
                &&& #[trigger] call_ensures(
                    C::load,
                    (dependencies.configs, &paths.config_file),
                    reply,
                )
                &&& match reply {
                    Ok(found) => found == config && result is Ok && result->Ok_0@ == plan_of(found),
                    Err(error) => result == Err::<EnforcementPlan, AppError>(error),
                }
            },
        (SyncPhase::AcquireLock, SyncEvent::LockAcquired(result)) => exists|
            reply: Result<Box<dyn LockGuard>, AppError>,
        | #[trigger]
            call_ensures(L::acquire, (dependencies.locks, &paths.lock_file), reply) && same_ending(
                reply,
                result,
            ),
        (SyncPhase::PrepareArtifacts, SyncEvent::ArtifactsPrepared(result)) => call_ensures(
            E::ensure_artifacts,
            (dependencies.enforcement, &before.plan->0),
            result,
        ),
        (SyncPhase::LoadSource { index }, SyncEvent::SourceLoaded(result)) => allowed_by(
            verdicts(dependencies.cancellation),
        ) && call_ensures(
            S::load,
            (
                &dependencies.sources.provider_list()[index as int],
                &SyncSourceContext {
                    cancellation: dependencies.cancellation,
                    paths: &paths,
                    config: &config,
                    env: &request.env,
                },
            ),
            result,
        ),
        (SyncPhase::LoadSource { .. }, SyncEvent::Interrupted(error)) => verdicts(
            dependencies.cancellation,
        )(Err(error)),
        (SyncPhase::PromoteCache { .. }, SyncEvent::CachePromoted(_)) => true,
        (SyncPhase::ReplaceIpv6, SyncEvent::SetReplaced(result)) => exists|
            entries: &[CanonicalCidr],
        | #[trigger]
            call_ensures(
                E::replace_set,
                (dependencies.enforcement, &(before.plan->0).ipv6, entries),
                result,
            ) && entries@ == installed(before.effective, AddressFamily::Ipv6),
        (SyncPhase::ReplaceIpv4, SyncEvent::SetReplaced(result)) => exists|
            entries: &[CanonicalCidr],
        | #[trigger]
            call_ensures(
                E::replace_set,
                (dependencies.enforcement, &(before.plan->0).ipv4, entries),
                result,
            ) && entries@ == installed(before.effective, AddressFamily::Ipv4),
        (SyncPhase::Activate, SyncEvent::Activated(result)) => call_ensures(
            E::activate,
            (dependencies.enforcement, &before.plan->0),
            result,
        ),
        (SyncPhase::CleanUpIpv6, SyncEvent::Ipv6CleanedUp(notices)) => call_ensures(
            E::cleanup_disabled_ipv6,
            (dependencies.enforcement, &before.plan->0),
            notices,
        ),
        _ => false,
    }
}

/// A sequence of steps from the start of a run, each with the reply of a port, none of them the
/// end of the run but possibly the last.
pub open spec fn sync_trace<
    P: PathResolver,
    C: ConfigRepository,
    L: LockManager,
    S: SyncSourceProvider,
    E: EnforcementBackend,
    O: SyncObserver,
>(
    request: PathResolutionInput,
    dependencies: SyncDependencies<'_, P, C, L, S, E, O>,
    paths: ResolvedPaths,
    config: Config,
    steps: Seq<SyncStep>,
) -> bool {
    &&& steps.len() > 0 ==> is_start(steps[0].before, dependencies.sources.descriptor_list())
    &&& forall|i: int|
        0 <= i < steps.len() ==> {
            let step = #[trigger] steps[i];
            &&& turn_rule(step.before, step.event, step.after, step.turn)
            &&& reported(request, dependencies, paths, config, step.before, step.event)
            &&& observed(dependencies.observer, step.turn.signals@)
            &&& i + 1 < steps.len() ==> step.turn.ending is None
        }
    &&& forall|i: int|
        0 < i < steps.len() ==> follows(
            steps[i - 1].after,
            (#[trigger] steps[i]).before,
            steps[i].event,
        )
}

/// The next report is taken in by the run as it was left, but for a selection handed out: the
/// report tells what that selection came to.
pub open spec fn follows(after: SyncRun, next: SyncRun, event: SyncEvent) -> bool {
    match after.phase {
        SyncPhase::PromoteCache { index } => {
            &&& promotion_taken(after, next)
            &&& event matches SyncEvent::CachePromoted(result) && {
                let pending = after.loaded.pending_promotions@[index as int];
                match pending.promotion {
                    Some(staged) => promoted(staged.selection, result),
                    None => result is Ok,
                }
            }
        },
        _ => next == after,
    }
}

/// The observer was told of every signal.
pub open spec fn observed<O: SyncObserver>(observer: &O, signals: Seq<SyncSignal>) -> bool {
    forall|i: int| 0 <= i < signals.len() ==> told(observer, #[trigger] signals[i])
}

/// The observer was told of the signal.
pub open spec fn told<O: SyncObserver>(observer: &O, signal: SyncSignal) -> bool {
    match signal {
        SyncSignal::Stage(name) => call_ensures(O::stage_completed, (observer, name), ()),
        SyncSignal::Notice(notice) => call_ensures(O::notice, (observer, &notice), ()),
    }
}

/// A run that has not done anything.
pub open spec fn is_start(run: SyncRun, sources: Seq<SyncSourceDescriptor>) -> bool {
    &&& run.phase == SyncPhase::ResolvePaths
    &&& run.sources@ == sources
    &&& run.plan is None
    &&& run.loaded.is_empty()
}

/// Order of the phases, from the last to the first.
pub open spec fn phase_rank(phase: SyncPhase) -> int {
    match phase {
        SyncPhase::ResolvePaths => 10,
        SyncPhase::LoadConfig => 9,
        SyncPhase::AcquireLock => 8,
        SyncPhase::PrepareArtifacts => 7,
        SyncPhase::LoadSource { .. } => 6,
        SyncPhase::PromoteCache { .. } => 5,
        SyncPhase::ReplaceIpv6 => 4,
        SyncPhase::ReplaceIpv4 => 3,
        SyncPhase::Activate => 2,
        SyncPhase::CleanUpIpv6 => 1,
        SyncPhase::Ended => 0,
    }
}

/// Steps left within a phase.
pub open spec fn steps_left(run: SyncRun) -> int {
    match run.phase {
        SyncPhase::LoadSource { index } => run.sources@.len() - index,
        SyncPhase::PromoteCache { index } => run.loaded.pending_promotions@.len() - index,
        _ => 0,
    }
}

/// A report that was waited for ends the run or brings it nearer to its end.
pub proof fn lemma_step_progress(before: SyncRun, event: SyncEvent, after: SyncRun, turn: SyncTurn)
    requires
        before.valid(),
        after.valid(),
        turn_rule(before, event, after, turn),
        turn.accepted,
    ensures
        turn.ending is Some || phase_rank(after.phase) < phase_rank(before.phase) || (phase_rank(
            after.phase,
        ) == phase_rank(before.phase) && 0 <= steps_left(after) < steps_left(before)),
        turn.ending is None ==> after.phase != SyncPhase::Ended,
{
    reveal(turn_rule);
    assert(before.sources.len() == before.sources@.len());
    assert(before.loaded.pending_promotions.len() == before.loaded.pending_promotions@.len());
}

fn emit<O: SyncObserver>(observer: &O, signals: &Vec<SyncSignal>)
    ensures
        observed(observer, signals@),
{
    let mut i: usize = 0;
    while i < signals.len()
        invariant
            i <= signals@.len(),
            forall|k: int| 0 <= k < i ==> told(observer, #[trigger] signals@[k]),
        decreases signals@.len() - i,
    {
        match &signals[i] {
            SyncSignal::Stage(name) => {
                observer.stage_completed(name);
            },
            SyncSignal::Notice(notice) => {
                observer.notice(notice);
            },
        }
        assert(told(observer, signals@[i as int]));
        i = i + 1;
    }
}

/// The event belongs to the phase.
pub open spec fn awaited(phase: SyncPhase, event: SyncEvent) -> bool {
    match (phase, event) {
        (SyncPhase::ResolvePaths, SyncEvent::PathsResolved(_)) => true,
        (SyncPhase::LoadConfig, SyncEvent::ConfigLoaded(_)) => true,
        (SyncPhase::AcquireLock, SyncEvent::LockAcquired(_)) => true,
        (SyncPhase::PrepareArtifacts, SyncEvent::ArtifactsPrepared(_)) => true,
        (SyncPhase::LoadSource { .. }, SyncEvent::SourceLoaded(_)) => true,
        (SyncPhase::LoadSource { .. }, SyncEvent::Interrupted(_)) => true,
        (SyncPhase::PromoteCache { .. }, SyncEvent::CachePromoted(_)) => true,
        (SyncPhase::ReplaceIpv6, SyncEvent::SetReplaced(_)) => true,
        (SyncPhase::ReplaceIpv4, SyncEvent::SetReplaced(_)) => true,
        (SyncPhase::Activate, SyncEvent::Activated(_)) => true,
        (SyncPhase::CleanUpIpv6, SyncEvent::Ipv6CleanedUp(_)) => true,
        _ => false,
    }
}

/// Paths and configuration are there for the phases that need them.
spec fn equipped(phase: SyncPhase, paths: Option<ResolvedPaths>, config: Option<Config>) -> bool {
    match phase {
        SyncPhase::ResolvePaths => paths is None && config is None,
        SyncPhase::LoadConfig => paths is Some && config is None,
        _ => paths is Some && config is Some,
    }
}

/// An event that belongs to the phase is taken in, and leads on to the next phase or to the end.
pub proof fn lemma_awaited(before: SyncRun, event: SyncEvent, after: SyncRun, turn: SyncTurn)
    requires
        awaited(before.phase, event),
        turn_rule(before, event, after, turn),
    ensures
        turn.accepted,
        after.sources == before.sources,
        turn.ending is None ==> (after.phase is LoadConfig <==> before.phase is ResolvePaths),
        turn.ending is None ==> !(after.phase is ResolvePaths),
        before.phase is ResolvePaths ==> (turn.ending is None <==> event->PathsResolved_0 is Ok),
        before.phase is LoadConfig ==> (turn.ending is None <==> event->ConfigLoaded_0 is Ok),
{
    reveal(turn_rule);
}

proof fn lemma_trace_step<
    P: PathResolver,
    C: ConfigRepository,
    L: LockManager,
    S: SyncSourceProvider,
    E: EnforcementBackend,
    O: SyncObserver,
>(
    request: PathResolutionInput,
    dependencies: SyncDependencies<'_, P, C, L, S, E, O>,
    paths: ResolvedPaths,
    config: Config,
    steps: Seq<SyncStep>,
    step: SyncStep,
)
    requires
        sync_trace(request, dependencies, paths, config, steps),
        steps.len() == 0 ==> is_start(step.before, dependencies.sources.descriptor_list()),
        steps.len() > 0 ==> follows(steps.last().after, step.before, step.event)
            && steps.last().turn.ending is None,
        observed(dependencies.observer, step.turn.signals@),
        turn_rule(step.before, step.event, step.after, step.turn),
        reported(request, dependencies, paths, config, step.before, step.event),
    ensures
        sync_trace(request, dependencies, paths, config, steps.push(step)),
{
    let all = steps.push(step);
    assert forall|i: int| 0 <= i < all.len() implies {
        let s = #[trigger] all[i];
        &&& turn_rule(s.before, s.event, s.after, s.turn)
        &&& reported(request, dependencies, paths, config, s.before, s.event)
        &&& observed(dependencies.observer, s.turn.signals@)
        &&& i + 1 < all.len() ==> s.turn.ending is None
    } by {
        if i < steps.len() {
            assert(all[i] == steps[i]);
        }
    }
    assert forall|i: int| 0 < i < all.len() implies follows(
        all[i - 1].after,
        (#[trigger] all[i]).before,
        all[i].event,
    ) by {
        if i < steps.len() {
            assert(all[i] == steps[i]);
        }
    }
}

/// Steps before the configuration is loaded do not depend on it; those before the paths are
/// resolved depend on neither.
proof fn lemma_trace_reset<
    P: PathResolver,
    C: ConfigRepository,
    L: LockManager,
    S: SyncSourceProvider,
    E: EnforcementBackend,
    O: SyncObserver,
>(
    request: PathResolutionInput,
    dependencies: SyncDependencies<'_, P, C, L, S, E, O>,
    paths: ResolvedPaths,
    config: Config,
    steps: Seq<SyncStep>,
    new_config: Config,
)
    requires
        sync_trace(request, dependencies, paths, config, steps),
        forall|i: int| 0 <= i < steps.len() ==> (#[trigger] steps[i]).before.phase is ResolvePaths,
    ensures
        sync_trace(request, dependencies, paths, new_config, steps),
{
    reveal(reported);
}

fn load_one_source<
    P: PathResolver,
    C: ConfigRepository,
    L: LockManager,
    S: SyncSourceProvider,
    E: EnforcementBackend,
    O: SyncObserver,
>(
    request: &PathResolutionInput,
    dependencies: &SyncDependencies<'_, P, C, L, S, E, O>,
    paths: &ResolvedPaths,
    config: &Config,
    run: &SyncRun,
    index: usize,
) -> (event: SyncEvent)
    requires
        run.phase == (SyncPhase::LoadSource { index }),
        index < dependencies.sources.provider_list().len(),
    ensures
        reported(*request, *dependencies, *paths, *config, *run, event),
        awaited(run.phase, event),
{
    reveal(reported);
    if let Err(error) = check_cancellation(dependencies.cancellation) {
        return SyncEvent::Interrupted(error);
    }
    let context: SyncSourceContext<'_> = SyncSourceContext {
        cancellation: dependencies.cancellation,
        paths,
        config,
        env: &request.env,
    };
    let providers: &[S] = dependencies.sources.providers();
    let provider: &S = &providers[index];
    let reply: Result<SyncSourceLoad, AppError> = provider.load(&context);
    assert(*provider == dependencies.sources.provider_list()[index as int]);
    SyncEvent::SourceLoaded(reply)
}

fn enforce<
    P: PathResolver,
    C: ConfigRepository,
    L: LockManager,
    S: SyncSourceProvider,
    E: EnforcementBackend,
    O: SyncObserver,
>(
    request: &PathResolutionInput,
    dependencies: &SyncDependencies<'_, P, C, L, S, E, O>,
    paths: &ResolvedPaths,
    config: &Config,
    run: &SyncRun,
    plan: &EnforcementPlan,
) -> (event: SyncEvent)
    requires
        run.plan == Some(*plan),
        run.phase is PrepareArtifacts || run.phase is ReplaceIpv6 || run.phase is ReplaceIpv4
            || run.phase is Activate || run.phase is CleanUpIpv6,
    ensures
        reported(*request, *dependencies, *paths, *config, *run, event),
        awaited(run.phase, event),
{
    reveal(reported);
    match run.phase {
        SyncPhase::PrepareArtifacts => SyncEvent::ArtifactsPrepared(
            dependencies.enforcement.ensure_artifacts(plan),
        ),
        SyncPhase::ReplaceIpv6 => {
            let entries: Vec<CanonicalCidr> = run.entries(AddressFamily::Ipv6);
            SyncEvent::SetReplaced(
                dependencies.enforcement.replace_set(&plan.ipv6, entries.as_slice()),
            )
        },
        SyncPhase::ReplaceIpv4 => {
            let entries: Vec<CanonicalCidr> = run.entries(AddressFamily::Ipv4);
            SyncEvent::SetReplaced(
                dependencies.enforcement.replace_set(&plan.ipv4, entries.as_slice()),
            )
        },
        SyncPhase::Activate => SyncEvent::Activated(dependencies.enforcement.activate(plan)),
        _ => SyncEvent::Ipv6CleanedUp(dependencies.enforcement.cleanup_disabled_ipv6(plan)),
    }
}

/// Runs one complete fail-closed synchronization.
///
/// The steps are those of [`turn_rule`], each with the reply of its port; the result is the
/// ending of the run. Best-effort source failures and disabled-family cleanup failures are
/// reported to the observer as notices.
pub fn execute<
    P: PathResolver,
    C: ConfigRepository,
    L: LockManager,
    S: SyncSourceProvider,
    E: EnforcementBackend,
    O: SyncObserver,
>(
    request: &PathResolutionInput,
    dependencies: &SyncDependencies<'_, P, C, L, S, E, O>,
) -> (outcome: Result<SyncOutcome, AppError>)
    ensures
        exists|steps: Seq<SyncStep>, paths: ResolvedPaths, config: Config|
            {
                &&& #[trigger] sync_trace(*request, *dependencies, paths, config, steps)
                &&& steps.len() > 0
                &&& steps.last().turn.ending == Some(outcome)
            },
{
    let mut run: SyncRun = SyncRun::start(dependencies.sources.descriptors());
    let ghost mut steps: Seq<SyncStep> = Seq::empty();
    let ghost mut paths_used: ResolvedPaths = arbitrary();
    let ghost mut config_used: Config = arbitrary();
    let mut paths: Option<ResolvedPaths> = None;
    let mut config: Option<Config> = None;
    let mut _guard: Option<Box<dyn LockGuard>> = None;
    loop
        invariant
            run.valid(),
            run.phase != SyncPhase::Ended,
            equipped(run.phase, paths, config),
            paths matches Some(found) ==> found == paths_used,
            config matches Some(found) ==> found == config_used,
            run.phase is ResolvePaths <==> steps.len() == 0,
            run.phase is LoadConfig ==> steps.len() == 1 && steps[0].before.phase is ResolvePaths,
            dependencies.sources.descriptor_list() == run.sources@,
            dependencies.sources.provider_list().len() == run.sources@.len(),
            sync_trace(*request, *dependencies, paths_used, config_used, steps),
            steps.len() == 0 ==> is_start(run, dependencies.sources.descriptor_list()),
            steps.len() > 0 ==> steps.last().after == run && steps.last().turn.ending is None,
        decreases phase_rank(run.phase), steps_left(run),
    {
        let event: SyncEvent = match run.phase {
            SyncPhase::ResolvePaths => {
                let reply: Result<ResolvedPaths, AppError> = dependencies.paths.resolve(
                    request,
                    ConfigRequirement::Required,
                );
                let ghost replied = reply;
                let event: SyncEvent = match reply {
                    Ok(found) => {
                        proof {
                            paths_used = found;
                        }
                        paths = Some(found);
                        SyncEvent::PathsResolved(Ok(()))
                    },
                    Err(error) => SyncEvent::PathsResolved(Err(error)),
                };
                assert(reported(*request, *dependencies, paths_used, config_used, run, event)) by {
                    reveal(reported);
                    assert(call_ensures(
                        P::resolve,
                        (dependencies.paths, request, ConfigRequirement::Required),
                        replied,
                    ));
                }
                event
            },
            SyncPhase::LoadConfig => {
                match &paths {
                    Some(found) => {
                        let reply: Result<Config, AppError> = dependencies.configs.load(
                            &found.config_file,
                        );
                        let ghost replied = reply;
                        let event: SyncEvent = match reply {
                            Ok(loaded) => {
                                let plan: EnforcementPlan = EnforcementPlan::from_config(&loaded);
                                proof {
                                    lemma_trace_reset(
                                        *request,
                                        *dependencies,
                                        paths_used,
                                        config_used,
                                        steps,
                                        loaded,
                                    );
                                    config_used = loaded;
                                }
                                config = Some(loaded);
                                SyncEvent::ConfigLoaded(Ok(plan))
                            },
                            Err(error) => SyncEvent::ConfigLoaded(Err(error)),
                        };
                        assert(reported(
                            *request,
                            *dependencies,
                            paths_used,
                            config_used,
                            run,
                            event,
                        )) by {
                            reveal(reported);
                            assert(call_ensures(
                                C::load,
                                (dependencies.configs, &found.config_file),
                                replied,
                            ));
                        }
                        event
                    },
                    None => SyncEvent::Interrupted(AppError::Interrupted),
                }
            },
            SyncPhase::AcquireLock => {
                match &paths {
                    Some(found) => {
                        let reply: Result<Box<dyn LockGuard>, AppError> =
                            dependencies.locks.acquire(&found.lock_file);
                        let ghost replied = reply;
                        let event: SyncEvent = match reply {
                            Ok(guard) => {
                                _guard = Some(guard);
                                SyncEvent::LockAcquired(Ok(()))
                            },
                            Err(error) => SyncEvent::LockAcquired(Err(error)),
                        };
                        assert(reported(
                            *request,
                            *dependencies,
                            paths_used,
                            config_used,
                            run,
                            event,
                        )) by {
                            reveal(reported);
                            assert(call_ensures(
                                L::acquire,
                                (dependencies.locks, &found.lock_file),
                                replied,
                            ));
                        }
                        event
                    },
                    None => SyncEvent::Interrupted(AppError::Interrupted),
                }
            },
            SyncPhase::LoadSource { index } => {
                match (&paths, &config) {
                    (Some(found), Some(loaded)) => load_one_source(
                        request,
                        dependencies,
                        found,
                        loaded,
                        &run,
                        index,
                    ),
                    _ => SyncEvent::Interrupted(AppError::Interrupted),
                }
            },
            SyncPhase::PromoteCache { .. } => {
                let event: SyncEvent = match run.take_promotion() {
                    Some(staged) => SyncEvent::CachePromoted(promote_selection(staged.selection)),
                    None => SyncEvent::CachePromoted(Ok(())),
                };
                assert(reported(*request, *dependencies, paths_used, config_used, run, event)) by {
                    reveal(reported);
                }
                event
            },
            _ => {
                match (&paths, &config, &run.plan) {
                    (Some(found), Some(loaded), Some(plan)) => enforce(
                        request,
                        dependencies,
                        found,
                        loaded,
                        &run,
                        plan,
                    ),
                    _ => SyncEvent::Interrupted(AppError::Interrupted),
                }
            },
        };
        let ghost waiting = run;
        let ghost told = event;
        let turn: SyncTurn = run.advance(event);
        emit(dependencies.observer, &turn.signals);
        proof {
            lemma_awaited(waiting, told, run, turn);
            lemma_step_progress(waiting, told, run, turn);
            let step = SyncStep { before: waiting, event: told, after: run, turn };
            lemma_trace_step(*request, *dependencies, paths_used, config_used, steps, step);
            steps = steps.push(step);
        }
        if let Some(ending) = turn.ending {
            return ending;
        }
    }
}

} // verus!
