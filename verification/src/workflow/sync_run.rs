//! The ordered, fail-closed synchronization run.
//!
//! A [`SyncRun`] says what has to be done next; whoever does it reports the result with
//! [`SyncRun::advance`]. The first failure of a required step ends the run.

use crate::ordering::reversed;
use crate::policy::cidr_order::{sort_distinct, sorted_distinct};
use crate::policy::effective::{compute_effective_blocklists, effective_for, EffectiveBlocklists};
use crate::policy::network_types::{AddressFamily, CanonicalCidr, Ipv4Cidr, Ipv6Cidr};
use crate::workflow::admission::{admit_all, admit_external_safelists, AdmissionModel};
use crate::workflow::error::AppError;
use crate::workflow::source::{
    notice_models, Notice, NoticeModel, StagedPromotion, SyncSourceDescriptor, SyncSourceLoad,
};
use crate::workflow::sync::{
    source_rule, EnforcementPlan, LoadedSources, ManagedSetSpec, PendingPromotion, PlanModel,
    SetModel, SourceSummary, SyncOutcome,
};
use vstd::prelude::*;

verus! {

/// The step that a run waits for.
#[derive(Debug, Clone, Copy, PartialEq, Eq, Structural)]
pub enum SyncPhase {
    /// Resolve the runtime paths; the configuration has to exist.
    ResolvePaths,
    /// Load and validate the configuration.
    LoadConfig,
    /// Acquire the process lock.
    AcquireLock,
    /// Prepare inactive sets and chains.
    PrepareArtifacts,
    /// Load the source at the position.
    LoadSource {
        /// Position among the sources.
        index: usize,
    },
    /// Make the cache selection at the position.
    PromoteCache {
        /// Position among the pending selections.
        index: usize,
    },
    /// Replace the IPv6 set.
    ReplaceIpv6,
    /// Replace the IPv4 set.
    ReplaceIpv4,
    /// Activate the firewall wiring.
    Activate,
    /// Remove IPv6 artifacts.
    CleanUpIpv6,
    /// Nothing is left to do.
    Ended,
}

/// The result of a step.
pub enum SyncEvent {
    /// Paths were resolved, or not.
    PathsResolved(Result<(), AppError>),
    /// The configuration was loaded and asks for the plan, or it was not loaded.
    ConfigLoaded(Result<EnforcementPlan, AppError>),
    /// The lock was acquired, or not.
    LockAcquired(Result<(), AppError>),
    /// Artifacts were prepared, or not.
    ArtifactsPrepared(Result<(), AppError>),
    /// The source was loaded, or not.
    SourceLoaded(Result<SyncSourceLoad, AppError>),
    /// The cache was selected, or not, with a diagnostic.
    CachePromoted(Result<(), String>),
    /// The set was replaced, or not.
    SetReplaced(Result<(), AppError>),
    /// The firewall was activated, or not.
    Activated(Result<(), AppError>),
    /// IPv6 artifacts were removed as far as possible.
    Ipv6CleanedUp(Vec<Notice>),
    /// Cancellation rejected further work before a source was loaded.
    Interrupted(AppError),
}

/// What an observer of the run is told.
pub enum SyncSignal {
    /// A named stage was completed.
    Stage(&'static str),
    /// A notice for the operator.
    Notice(Notice),
}

/// Contents of a signal.
pub enum SignalModel {
    Stage(Seq<char>),
    Notice(NoticeModel),
}

impl View for SyncSignal {
    type V = SignalModel;

    open spec fn view(&self) -> SignalModel {
        match self {
            SyncSignal::Stage(name) => SignalModel::Stage(name@),
            SyncSignal::Notice(notice) => SignalModel::Notice(notice@),
        }
    }
}

/// Contents of signals, in order.
pub open spec fn signal_models(signals: Seq<SyncSignal>) -> Seq<SignalModel> {
    signals.map_values(|s: SyncSignal| s@)
}

/// Notices as signals, in order.
pub open spec fn notice_signals(notices: Seq<NoticeModel>) -> Seq<SignalModel> {
    notices.map_values(|n: NoticeModel| SignalModel::Notice(n))
}

/// The signal that a stage was completed.
pub open spec fn stage(name: &str) -> Seq<SignalModel> {
    seq![SignalModel::Stage(name@)]
}

/// What one report led to.
pub struct SyncTurn {
    /// The report was the one that the run waited for.
    pub accepted: bool,
    /// Signals for the observer, in order.
    pub signals: Vec<SyncSignal>,
    /// The end of the run.
    pub ending: Option<Result<SyncOutcome, AppError>>,
}

/// One synchronization from path resolution to firewall activation.
pub struct SyncRun {
    /// The step that the run waits for.
    pub phase: SyncPhase,
    /// Sources in registry order.
    pub sources: Vec<SyncSourceDescriptor>,
    /// Plan of the loaded configuration.
    pub plan: Option<EnforcementPlan>,
    /// What the sources contributed.
    pub loaded: LoadedSources,
    /// Networks to install.
    pub effective: EffectiveBlocklists,
}

// Rules -----------------------------------------------------------------------------------------

/// Only the phase differs.
pub open spec fn same_data(before: SyncRun, after: SyncRun) -> bool {
    &&& after.sources == before.sources
    &&& after.plan == before.plan
    &&& after.loaded == before.loaded
    &&& after.effective == before.effective
}

/// The run goes on.
pub open spec fn goes_on(
    after: SyncRun,
    phase: SyncPhase,
    turn: SyncTurn,
    signals: Seq<SignalModel>,
) -> bool {
    &&& after.phase == phase
    &&& turn.accepted
    &&& signal_models(turn.signals@) == signals
    &&& turn.ending is None
}

/// The run ends with the failure.
pub open spec fn ends(
    after: SyncRun,
    error: AppError,
    turn: SyncTurn,
    signals: Seq<SignalModel>,
) -> bool {
    &&& after.phase == SyncPhase::Ended
    &&& turn.accepted
    &&& signal_models(turn.signals@) == signals
    &&& turn.ending == Some(Err::<SyncOutcome, AppError>(error))
}

/// A step that only passes or fails: it passes to the phase with the stage.
pub open spec fn plain_step(
    before: SyncRun,
    result: Result<(), AppError>,
    phase: SyncPhase,
    signals: Seq<SignalModel>,
    after: SyncRun,
    turn: SyncTurn,
) -> bool {
    &&& same_data(before, after)
    &&& match result {
        Ok(_) => goes_on(after, phase, turn, signals),
        Err(error) => ends(after, error, turn, Seq::empty()),
    }
}

/// The entries fit into the set.
pub open spec fn fits(spec: SetModel, entries: nat) -> bool {
    entries <= spec.maxelem
}

/// The failure of entries that do not fit.
pub open spec fn is_overflow(spec: SetModel, entries: nat, error: AppError) -> bool {
    error matches AppError::IpsetCapacityExceeded { family, set_name, entries: found, maxelem }
        && family@ == (match spec.family {
        AddressFamily::Ipv4 => "ipv4"@,
        AddressFamily::Ipv6 => "ipv6"@,
    }) && set_name@ == spec.set_name && found == entries && maxelem == spec.maxelem
}

/// The run ends because entries do not fit.
pub open spec fn ends_in_overflow(
    spec: SetModel,
    entries: nat,
    after: SyncRun,
    turn: SyncTurn,
    signals: Seq<SignalModel>,
) -> bool {
    &&& after.phase == SyncPhase::Ended
    &&& turn.accepted
    &&& signal_models(turn.signals@) == signals
    &&& turn.ending matches Some(Err(error)) && is_overflow(spec, entries, error)
}

/// The first phase of enforcement.
pub open spec fn first_replacement(plan: PlanModel) -> SyncPhase {
    if plan.enable_ipv6 {
        SyncPhase::ReplaceIpv6
    } else {
        SyncPhase::ReplaceIpv4
    }
}

/// State of the admission before the first external safelist.
pub open spec fn admission_start(
    safelist: Seq<CanonicalCidr>,
    loaded: LoadedSources,
) -> AdmissionModel {
    AdmissionModel {
        safelist,
        promotions: loaded.pending_promotions@,
        summaries: loaded.summaries@,
        notices: Seq::empty(),
        failure: None,
    }
}

/// What follows once every source has been loaded as `loaded`: admission of external safelists,
/// the effective lists, the capacity of the sets, and the way to the cache selections.
pub open spec fn preflight_rule(
    loaded: LoadedSources,
    plan: PlanModel,
    after: SyncRun,
    turn: SyncTurn,
    signals: Seq<SignalModel>,
) -> bool {
    exists|candidates: Seq<CanonicalCidr>, safelist: Seq<CanonicalCidr>|
        #![trigger sorted_distinct(loaded.candidates@, candidates), sorted_distinct(loaded.safelist@, safelist)]
        {
            let admitted = admit_all(
                candidates,
                safelist,
                plan.enable_ipv6,
                admission_start(safelist, loaded),
                loaded.external_safelists@,
            );
            let shown = signals + stage("load_sources") + notice_signals(admitted.notices);
            let computed = shown + stage("compute_effective_blocklists");
            &&& sorted_distinct(loaded.candidates@, candidates)
            &&& sorted_distinct(loaded.safelist@, safelist)
            &&& match admitted.failure {
                Some(error) => ends(after, error, turn, shown),
                None => {
                    &&& after.loaded.candidates@ == candidates
                    &&& sorted_distinct(admitted.safelist, after.loaded.safelist@)
                    &&& after.loaded.external_safelists@.len() == 0
                    &&& after.loaded.pending_promotions@ == admitted.promotions
                    &&& after.loaded.summaries@ == admitted.summaries
                    &&& effective_for(
                        candidates,
                        after.loaded.safelist@,
                        plan.enable_ipv6,
                        after.effective,
                    )
                    &&& if plan.enable_ipv6 && !fits(plan.ipv6, after.effective.ipv6@.len()) {
                        ends_in_overflow(
                            plan.ipv6,
                            after.effective.ipv6@.len(),
                            after,
                            turn,
                            computed,
                        )
                    } else if !fits(plan.ipv4, after.effective.ipv4@.len()) {
                        ends_in_overflow(
                            plan.ipv4,
                            after.effective.ipv4@.len(),
                            after,
                            turn,
                            computed,
                        )
                    } else if admitted.promotions.len() > 0 {
                        goes_on(after, SyncPhase::PromoteCache { index: 0 }, turn, computed)
                    } else {
                        goes_on(
                            after,
                            first_replacement(plan),
                            turn,
                            computed + stage("promote_source_caches"),
                        )
                    }
                },
            }
        }
}

/// The run ends well.
pub open spec fn succeeds(
    before: SyncRun,
    after: SyncRun,
    turn: SyncTurn,
    signals: Seq<SignalModel>,
) -> bool {
    &&& after.phase == SyncPhase::Ended
    &&& turn.accepted
    &&& signal_models(turn.signals@) == signals
    &&& turn.ending matches Some(Ok(outcome)) && outcome.ipv4_entries
        == before.effective.ipv4@.len() && outcome.ipv6_entries == before.effective.ipv6@.len()
        && outcome.sources@ == before.loaded.summaries@
}

/// The report is not the one that the run waits for.
pub open spec fn ignored(before: SyncRun, after: SyncRun, turn: SyncTurn) -> bool {
    &&& after == before
    &&& !turn.accepted
    &&& turn.signals@.len() == 0
    &&& turn.ending is None
}

/// What a report leads to.
#[verifier::opaque]
pub open spec fn turn_rule(
    before: SyncRun,
    event: SyncEvent,
    after: SyncRun,
    turn: SyncTurn,
) -> bool {
    match (before.phase, event) {
        (SyncPhase::ResolvePaths, SyncEvent::PathsResolved(result)) => plain_step(
            before,
            result,
            SyncPhase::LoadConfig,
            stage("resolve_paths"),
            after,
            turn,
        ),
        (SyncPhase::LoadConfig, SyncEvent::ConfigLoaded(result)) => match result {
            Ok(plan) => {
                &&& after.sources == before.sources
                &&& after.loaded == before.loaded
                &&& after.effective == before.effective
                &&& after.plan == Some(plan)
                &&& goes_on(after, SyncPhase::AcquireLock, turn, stage("load_config"))
            },
            Err(error) => same_data(before, after) && ends(after, error, turn, Seq::empty()),
        },
        (SyncPhase::AcquireLock, SyncEvent::LockAcquired(result)) => plain_step(
            before,
            result,
            SyncPhase::PrepareArtifacts,
            stage("acquire_lock"),
            after,
            turn,
        ),
        (SyncPhase::PrepareArtifacts, SyncEvent::ArtifactsPrepared(result)) => match result {
            Ok(_) => {
                &&& after.sources == before.sources
                &&& after.plan == before.plan
                &&& if before.sources@.len() > 0 {
                    &&& same_data(before, after)
                    &&& goes_on(
                        after,
                        SyncPhase::LoadSource { index: 0 },
                        turn,
                        stage("ensure_ipset_artifacts"),
                    )
                } else {
                    preflight_rule(
                        before.loaded,
                        before.plan->0@,
                        after,
                        turn,
                        stage("ensure_ipset_artifacts"),
                    )
                }
            },
            Err(error) => same_data(before, after) && ends(after, error, turn, Seq::empty()),
        },
        (SyncPhase::LoadSource { index }, SyncEvent::SourceLoaded(result)) => {
            &&& after.sources == before.sources
            &&& after.plan == before.plan
            &&& exists|loaded: LoadedSources, notices: Result<Seq<NoticeModel>, AppError>|
                {
                    &&& #[trigger] source_rule(
                        before.loaded,
                        before.sources@[index as int],
                        result,
                        loaded,
                        notices,
                    )
                    &&& match notices {
                        Err(error) => same_data(before, after) && ends(
                            after,
                            error,
                            turn,
                            Seq::empty(),
                        ),
                        Ok(shown) => if index + 1 < before.sources@.len() {
                            &&& after.loaded == loaded
                            &&& after.effective == before.effective
                            &&& goes_on(
                                after,
                                SyncPhase::LoadSource { index: (index + 1) as usize },
                                turn,
                                notice_signals(shown),
                            )
                        } else {
                            preflight_rule(
                                loaded,
                                before.plan->0@,
                                after,
                                turn,
                                notice_signals(shown),
                            )
                        },
                    }
                }
        },
        (SyncPhase::LoadSource { .. }, SyncEvent::Interrupted(error)) => {
            &&& same_data(before, after)
            &&& ends(after, error, turn, Seq::empty())
        },
        (SyncPhase::PromoteCache { index }, SyncEvent::CachePromoted(result)) => {
            &&& same_data(before, after)
            &&& match result {
                Ok(_) => if index + 1 < before.loaded.pending_promotions@.len() {
                    goes_on(
                        after,
                        SyncPhase::PromoteCache { index: (index + 1) as usize },
                        turn,
                        Seq::empty(),
                    )
                } else {
                    goes_on(
                        after,
                        first_replacement(before.plan->0@),
                        turn,
                        stage("promote_source_caches"),
                    )
                },
                Err(reason) => ends(
                    after,
                    AppError::CachePromotion {
                        provider: before.loaded.pending_promotions@[index as int].provider,
                        reason,
                    },
                    turn,
                    Seq::empty(),
                ),
            }
        },
        (SyncPhase::ReplaceIpv6, SyncEvent::SetReplaced(result)) => plain_step(
            before,
            result,
            SyncPhase::ReplaceIpv4,
            stage("apply_ipv6_ipset"),
            after,
            turn,
        ),
        (SyncPhase::ReplaceIpv4, SyncEvent::SetReplaced(result)) => plain_step(
            before,
            result,
            SyncPhase::Activate,
            stage("apply_ipv4_ipset"),
            after,
            turn,
        ),
        (SyncPhase::Activate, SyncEvent::Activated(result)) => {
            &&& after.sources == before.sources
            &&& after.plan == before.plan
            &&& after.effective == before.effective
            &&& match result {
                Err(error) => same_data(before, after) && ends(after, error, turn, Seq::empty()),
                Ok(_) => if before.plan->0@.enable_ipv6 {
                    succeeds(before, after, turn, stage("ensure_firewall_wiring"))
                } else {
                    same_data(before, after) && goes_on(
                        after,
                        SyncPhase::CleanUpIpv6,
                        turn,
                        Seq::empty(),
                    )
                },
            }
        },
        (SyncPhase::CleanUpIpv6, SyncEvent::Ipv6CleanedUp(notices)) => {
            &&& after.sources == before.sources
            &&& after.plan == before.plan
            &&& after.effective == before.effective
            &&& succeeds(
                before,
                after,
                turn,
                notice_signals(notice_models(notices@)) + stage("ensure_firewall_wiring"),
            )
        },
        _ => ignored(before, after, turn),
    }
}

/// The phase comes after the plan has been made.
pub open spec fn has_plan(phase: SyncPhase) -> bool {
    !(phase is ResolvePaths || phase is LoadConfig || phase is Ended)
}

/// The phase comes after the capacity check: only cache selections and enforcement are left.
pub open spec fn past_preflight(phase: SyncPhase) -> bool {
    phase is PromoteCache || phase is ReplaceIpv6 || phase is ReplaceIpv4 || phase is Activate
        || phase is CleanUpIpv6
}

impl SyncRun {
    /// Positions are in range; what a phase needs is there; and past the capacity check the lists
    /// to install are those of the networks collected, and fit into their sets.
    pub open spec fn valid(self) -> bool {
        &&& has_plan(self.phase) ==> self.plan is Some
        &&& self.phase matches SyncPhase::LoadSource { index } ==> index < self.sources@.len()
        &&& self.phase matches SyncPhase::PromoteCache { index } ==> index
            < self.loaded.pending_promotions@.len()
        &&& self.phase is ReplaceIpv6 ==> self.plan->0@.enable_ipv6
        &&& self.phase is CleanUpIpv6 ==> !self.plan->0@.enable_ipv6
        &&& past_preflight(self.phase) ==> {
            let plan = self.plan->0@;
            &&& effective_for(
                self.loaded.candidates@,
                self.loaded.safelist@,
                plan.enable_ipv6,
                self.effective,
            )
            &&& fits(plan.ipv4, self.effective.ipv4@.len())
            &&& plan.enable_ipv6 ==> fits(plan.ipv6, self.effective.ipv6@.len())
        }
    }
}

// Steps -----------------------------------------------------------------------------------------

/// Rejects entries that exceed the capacity of their set.
pub fn ensure_within_capacity(spec: &ManagedSetSpec, entries: usize) -> (outcome: Result<
    (),
    AppError,
>)
    ensures
        outcome is Ok <==> fits(spec@, entries as nat),
        outcome matches Err(error) ==> is_overflow(spec@, entries as nat, error),
{
    if entries <= spec.maxelem as usize {
        return Ok(());
    }
    let family: &'static str = match spec.family {
        AddressFamily::Ipv4 => "ipv4",
        AddressFamily::Ipv6 => "ipv6",
    };
    Err(
        AppError::IpsetCapacityExceeded {
            family,
            set_name: spec.set_name.clone(),
            entries,
            maxelem: spec.maxelem,
        },
    )
}

fn add_stage(signals: &mut Vec<SyncSignal>, name: &'static str)
    ensures
        signal_models(final(signals)@) == signal_models(old(signals)@) + stage(name),
{
    let ghost before = signal_models(signals@);
    signals.push(SyncSignal::Stage(name));
    assert(signal_models(signals@) =~= before + stage(name));
}

fn add_notices(signals: &mut Vec<SyncSignal>, notices: Vec<Notice>)
    ensures
        signal_models(final(signals)@) == signal_models(old(signals)@) + notice_signals(
            notice_models(notices@),
        ),
{
    let ghost before = signal_models(signals@);
    let ghost all = notices@;
    let mut rest: Vec<Notice> = reversed(notices);
    let ghost mut done: int = 0;
    assert(rest@ =~= all.skip(0).reverse());
    while rest.len() > 0
        invariant
            0 <= done <= all.len(),
            rest@ == all.skip(done).reverse(),
            signal_models(signals@) == before + notice_signals(notice_models(all.take(done))),
        decreases all.len() - done,
    {
        let ghost held = signals@;
        let notice: Notice = rest.pop().unwrap();
        proof {
            assert(notice == all[done]);
            assert(rest@ =~= all.skip(done + 1).reverse());
            assert(all.take(done + 1) =~= all.take(done).push(notice));
            assert(notice_signals(notice_models(all.take(done + 1))) =~= notice_signals(
                notice_models(all.take(done)),
            ).push(SignalModel::Notice(notice@)));
            done = done + 1;
        }
        signals.push(SyncSignal::Notice(notice));
        assert(signal_models(signals@) =~= signal_models(held).push(SignalModel::Notice(notice@)));
    }
    assert(all.take(done) =~= all);
}

fn turn_on(signals: Vec<SyncSignal>) -> (turn: SyncTurn)
    ensures
        turn == (SyncTurn { accepted: true, signals, ending: None }),
{
    SyncTurn { accepted: true, signals, ending: None }
}

fn turn_failed(signals: Vec<SyncSignal>, error: AppError) -> (turn: SyncTurn)
    ensures
        turn == (SyncTurn { accepted: true, signals, ending: Some(Err(error)) }),
{
    SyncTurn { accepted: true, signals, ending: Some(Err(error)) }
}

fn one_stage(name: &'static str) -> (signals: Vec<SyncSignal>)
    ensures
        signal_models(signals@) == stage(name),
{
    let mut signals: Vec<SyncSignal> = Vec::new();
    add_stage(&mut signals, name);
    assert(signal_models(signals@) =~= stage(name));
    signals
}

fn no_signals() -> (signals: Vec<SyncSignal>)
    ensures
        signal_models(signals@) == Seq::<SignalModel>::empty(),
{
    let signals: Vec<SyncSignal> = Vec::new();
    assert(signal_models(signals@) =~= Seq::<SignalModel>::empty());
    signals
}

impl SyncRun {
    /// A run that has not done anything.
    pub fn start(sources: Vec<SyncSourceDescriptor>) -> (run: SyncRun)
        ensures
            run.valid(),
            run.phase == SyncPhase::ResolvePaths,
            run.sources == sources,
            run.plan is None,
            run.loaded.is_empty(),
            run.effective.ipv4@.len() == 0,
            run.effective.ipv6@.len() == 0,
    {
        SyncRun {
            phase: SyncPhase::ResolvePaths,
            sources,
            plan: None,
            loaded: LoadedSources::new(),
            effective: EffectiveBlocklists { ipv4: Vec::new(), ipv6: Vec::new() },
        }
    }

    /// Goes from the collected sources to the cache selections; see [`preflight_rule`].
    fn preflight(&mut self, before: Vec<SyncSignal>) -> (turn: SyncTurn)
        requires
            old(self).plan is Some,
        ensures
            preflight_rule(
                old(self).loaded,
                old(self).plan->0@,
                *final(self),
                turn,
                signal_models(before@),
            ),
            final(self).sources == old(self).sources,
            final(self).plan == old(self).plan,
            final(self).valid(),
    {
        let ghost loaded0 = self.loaded;
        let mut signals: Vec<SyncSignal> = before;
        add_stage(&mut signals, "load_sources");
        let mut loaded: LoadedSources = LoadedSources::new();
        std::mem::swap(&mut loaded, &mut self.loaded);
        let LoadedSources {
            candidates,
            safelist,
            external_safelists,
            mut pending_promotions,
            mut summaries,
        } = loaded;
        let candidates: Vec<CanonicalCidr> = sort_distinct(candidates);
        let mut safelist: Vec<CanonicalCidr> = sort_distinct(safelist);
        let ghost operator = safelist@;
        let mut notices: Vec<Notice> = Vec::new();
        let enable_ipv6: bool = match &self.plan {
            Some(plan) => plan.enable_ipv6,
            None => false,
        };
        let ghost plan = self.plan->0@;
        assert(notice_models(notices@) =~= Seq::empty());
        let admission: Result<(), AppError> = admit_external_safelists(
            candidates.as_slice(),
            &mut safelist,
            external_safelists,
            enable_ipv6,
            &mut pending_promotions,
            &mut summaries,
            &mut notices,
        );
        add_notices(&mut signals, notices);
        if let Err(error) = admission {
            self.phase = SyncPhase::Ended;
            assert(sorted_distinct(loaded0.candidates@, candidates@));
            assert(sorted_distinct(loaded0.safelist@, operator));
            return turn_failed(signals, error);
        }
        let effective: EffectiveBlocklists = compute_effective_blocklists(
            candidates.as_slice(),
            safelist.as_slice(),
            enable_ipv6,
        );
        let ghost chosen = candidates@;
        add_stage(&mut signals, "compute_effective_blocklists");
        let ipv4_entries: usize = effective.ipv4.len();
        let ipv6_entries: usize = effective.ipv6.len();
        let promotions: usize = pending_promotions.len();
        self.loaded = LoadedSources {
            candidates,
            safelist,
            external_safelists: Vec::new(),
            pending_promotions,
            summaries,
        };
        self.effective = effective;
        proof {
            assert(sorted_distinct(loaded0.candidates@, chosen));
            assert(sorted_distinct(loaded0.safelist@, operator));
        }
        let capacity: Result<(), AppError> = match &self.plan {
            Some(plan) => {
                let mut checked: Result<(), AppError> = Ok(());
                if plan.enable_ipv6 {
                    checked = ensure_within_capacity(&plan.ipv6, ipv6_entries);
                }
                if checked.is_ok() {
                    checked = ensure_within_capacity(&plan.ipv4, ipv4_entries);
                }
                checked
            },
            None => Ok(()),
        };
        if let Err(error) = capacity {
            self.phase = SyncPhase::Ended;
            return turn_failed(signals, error);
        }
        if promotions > 0 {
            self.phase = SyncPhase::PromoteCache { index: 0 };
        } else {
            add_stage(&mut signals, "promote_source_caches");
            self.phase = if enable_ipv6 {
                SyncPhase::ReplaceIpv6
            } else {
                SyncPhase::ReplaceIpv4
            };
        }
        turn_on(signals)
    }

    fn plain(
        &mut self,
        result: Result<(), AppError>,
        phase: SyncPhase,
        name: &'static str,
    ) -> (turn: SyncTurn)
        ensures
            plain_step(*old(self), result, phase, stage(name), *final(self), turn),
    {
        match result {
            Ok(()) => {
                self.phase = phase;
                turn_on(one_stage(name))
            },
            Err(error) => {
                self.phase = SyncPhase::Ended;
                turn_failed(no_signals(), error)
            },
        }
    }

    fn succeed(&mut self, before: Vec<SyncSignal>) -> (turn: SyncTurn)
        ensures
            succeeds(
                *old(self),
                *final(self),
                turn,
                signal_models(before@) + stage("ensure_firewall_wiring"),
            ),
            final(self).sources == old(self).sources,
            final(self).plan == old(self).plan,
            final(self).effective == old(self).effective,
    {
        let mut signals: Vec<SyncSignal> = before;
        add_stage(&mut signals, "ensure_firewall_wiring");
        let mut sources: Vec<SourceSummary> = Vec::new();
        std::mem::swap(&mut sources, &mut self.loaded.summaries);
        self.phase = SyncPhase::Ended;
        SyncTurn {
            accepted: true,
            signals,
            ending: Some(
                Ok(
                    SyncOutcome {
                        ipv4_entries: self.effective.ipv4.len(),
                        ipv6_entries: self.effective.ipv6.len(),
                        sources,
                    },
                ),
            ),
        }
    }

    fn load_source(&mut self, index: usize, result: Result<SyncSourceLoad, AppError>) -> (turn:
        SyncTurn)
        requires
            old(self).valid(),
            old(self).phase == (SyncPhase::LoadSource { index }),
        ensures
            turn_rule(*old(self), SyncEvent::SourceLoaded(result), *final(self), turn),
            final(self).valid(),
    {
        reveal(turn_rule);
        let descriptor: SyncSourceDescriptor = self.sources[index];
        let ghost before = self.loaded;
        match self.loaded.absorb_source(descriptor, result) {
            Err(error) => {
                self.phase = SyncPhase::Ended;
                let turn: SyncTurn = turn_failed(no_signals(), error);
                assert(source_rule(
                    before,
                    descriptor,
                    result,
                    self.loaded,
                    Err::<Seq<NoticeModel>, AppError>(error),
                ));
                turn
            },
            Ok(notices) => {
                let ghost shown = notice_models(notices@);
                assert(source_rule(
                    before,
                    descriptor,
                    result,
                    self.loaded,
                    Ok::<Seq<NoticeModel>, AppError>(shown),
                ));
                let mut signals: Vec<SyncSignal> = no_signals();
                add_notices(&mut signals, notices);
                assert(signal_models(signals@) =~= notice_signals(shown));
                if index < self.sources.len() - 1 {
                    self.phase = SyncPhase::LoadSource { index: index + 1 };
                    turn_on(signals)
                } else {
                    self.preflight(signals)
                }
            },
        }
    }

    /// Takes in the report of a step and goes on; see [`turn_rule`].
    ///
    /// A report that the run does not wait for changes nothing.
    pub fn advance(&mut self, event: SyncEvent) -> (turn: SyncTurn)
        requires
            old(self).valid(),
        ensures
            turn_rule(*old(self), event, *final(self), turn),
            final(self).valid(),
    {
        reveal(turn_rule);
        match (self.phase, event) {
            (SyncPhase::ResolvePaths, SyncEvent::PathsResolved(result)) => self.plain(
                result,
                SyncPhase::LoadConfig,
                "resolve_paths",
            ),
            (SyncPhase::LoadConfig, SyncEvent::ConfigLoaded(result)) => match result {
                Ok(plan) => {
                    self.plan = Some(plan);
                    self.phase = SyncPhase::AcquireLock;
                    turn_on(one_stage("load_config"))
                },
                Err(error) => {
                    self.phase = SyncPhase::Ended;
                    turn_failed(no_signals(), error)
                },
            },
            (SyncPhase::AcquireLock, SyncEvent::LockAcquired(result)) => self.plain(
                result,
                SyncPhase::PrepareArtifacts,
                "acquire_lock",
            ),
            (SyncPhase::PrepareArtifacts, SyncEvent::ArtifactsPrepared(result)) => match result {
                Ok(()) => {
                    let signals: Vec<SyncSignal> = one_stage("ensure_ipset_artifacts");
                    if self.sources.len() > 0 {
                        self.phase = SyncPhase::LoadSource { index: 0 };
                        turn_on(signals)
                    } else {
                        self.preflight(signals)
                    }
                },
                Err(error) => {
                    self.phase = SyncPhase::Ended;
                    turn_failed(no_signals(), error)
                },
            },
            (SyncPhase::LoadSource { index }, SyncEvent::SourceLoaded(result)) => self.load_source(
                index,
                result,
            ),
            (SyncPhase::LoadSource { .. }, SyncEvent::Interrupted(error)) => {
                self.phase = SyncPhase::Ended;
                turn_failed(no_signals(), error)
            },
            (SyncPhase::PromoteCache { index }, SyncEvent::CachePromoted(result)) => match result {
                Ok(()) => {
                    if index < self.loaded.pending_promotions.len() - 1 {
                        self.phase = SyncPhase::PromoteCache { index: index + 1 };
                        turn_on(no_signals())
                    } else {
                        let enable_ipv6: bool = match &self.plan {
                            Some(plan) => plan.enable_ipv6,
                            None => false,
                        };
                        self.phase = if enable_ipv6 {
                            SyncPhase::ReplaceIpv6
                        } else {
                            SyncPhase::ReplaceIpv4
                        };
                        turn_on(one_stage("promote_source_caches"))
                    }
                },
                Err(reason) => {
                    let provider: &'static str = self.loaded.pending_promotions[index].provider;
                    self.phase = SyncPhase::Ended;
                    turn_failed(no_signals(), AppError::CachePromotion { provider, reason })
                },
            },
            (SyncPhase::ReplaceIpv6, SyncEvent::SetReplaced(result)) => self.plain(
                result,
                SyncPhase::ReplaceIpv4,
                "apply_ipv6_ipset",
            ),
            (SyncPhase::ReplaceIpv4, SyncEvent::SetReplaced(result)) => self.plain(
                result,
                SyncPhase::Activate,
                "apply_ipv4_ipset",
            ),
            (SyncPhase::Activate, SyncEvent::Activated(result)) => match result {
                Ok(()) => {
                    let enable_ipv6: bool = match &self.plan {
                        Some(plan) => plan.enable_ipv6,
                        None => false,
                    };
                    if enable_ipv6 {
                        let turn: SyncTurn = self.succeed(no_signals());
                        assert(signal_models(turn.signals@) =~= stage("ensure_firewall_wiring"));
                        turn
                    } else {
                        self.phase = SyncPhase::CleanUpIpv6;
                        turn_on(no_signals())
                    }
                },
                Err(error) => {
                    self.phase = SyncPhase::Ended;
                    turn_failed(no_signals(), error)
                },
            },
            (SyncPhase::CleanUpIpv6, SyncEvent::Ipv6CleanedUp(notices)) => {
                let ghost shown = notice_models(notices@);
                let mut signals: Vec<SyncSignal> = no_signals();
                add_notices(&mut signals, notices);
                assert(signal_models(signals@) =~= notice_signals(shown));
                self.succeed(signals)
            },
            _ => SyncTurn { accepted: false, signals: Vec::new(), ending: None },
        }
    }

    /// Hands out the cache selection that the run waits for.
    pub fn take_promotion(&mut self) -> (selection: Option<StagedPromotion>)
        requires
            old(self).valid(),
        ensures
            final(self).valid(),
            promotion_taken(*old(self), *final(self)),
            selection == (match old(self).phase {
                SyncPhase::PromoteCache { index } => old(
                    self,
                ).loaded.pending_promotions@[index as int].promotion,
                _ => None,
            }),
    {
        if let SyncPhase::PromoteCache { index } = self.phase {
            let provider: &'static str = self.loaded.pending_promotions[index].provider;
            let mut slot: PendingPromotion = PendingPromotion { provider, promotion: None };
            self.loaded.pending_promotions.set_and_swap(index, &mut slot);
            slot.promotion
        } else {
            None
        }
    }

    /// Networks to install in the family's set.
    pub fn entries(&self, family: AddressFamily) -> (entries: Vec<CanonicalCidr>)
        ensures
            entries@ == installed(self.effective, family),
    {
        let mut out: Vec<CanonicalCidr> = Vec::new();
        let mut i: usize = 0;
        match family {
            AddressFamily::Ipv4 => {
                while i < self.effective.ipv4.len()
                    invariant
                        i <= self.effective.ipv4@.len(),
                        out@ == installed(self.effective, AddressFamily::Ipv4).take(i as int),
                    decreases self.effective.ipv4@.len() - i,
                {
                    out.push(CanonicalCidr::V4(self.effective.ipv4[i]));
                    i = i + 1;
                    assert(out@ =~= installed(self.effective, AddressFamily::Ipv4).take(i as int));
                }
            },
            AddressFamily::Ipv6 => {
                while i < self.effective.ipv6.len()
                    invariant
                        i <= self.effective.ipv6@.len(),
                        out@ == installed(self.effective, AddressFamily::Ipv6).take(i as int),
                    decreases self.effective.ipv6@.len() - i,
                {
                    out.push(CanonicalCidr::V6(self.effective.ipv6[i]));
                    i = i + 1;
                    assert(out@ =~= installed(self.effective, AddressFamily::Ipv6).take(i as int));
                }
            },
        }
        assert(installed(self.effective, family).take(i as int) =~= installed(
            self.effective,
            family,
        ));
        out
    }
}

/// Only a pending selection may be gone from `after`.
pub open spec fn promotion_taken(before: SyncRun, after: SyncRun) -> bool {
    &&& after.phase == before.phase
    &&& after.sources == before.sources
    &&& after.plan == before.plan
    &&& after.effective == before.effective
    &&& after.loaded.candidates == before.loaded.candidates
    &&& after.loaded.safelist == before.loaded.safelist
    &&& after.loaded.external_safelists == before.loaded.external_safelists
    &&& after.loaded.summaries == before.loaded.summaries
    &&& match before.phase {
        SyncPhase::PromoteCache { index } => after.loaded.pending_promotions@
            == before.loaded.pending_promotions@.update(
            index as int,
            PendingPromotion {
                provider: before.loaded.pending_promotions@[index as int].provider,
                promotion: None,
            },
        ),
        _ => after.loaded.pending_promotions == before.loaded.pending_promotions,
    }
}

/// Networks of the family in the effective lists.
pub open spec fn installed(effective: EffectiveBlocklists, family: AddressFamily) -> Seq<
    CanonicalCidr,
> {
    match family {
        AddressFamily::Ipv4 => effective.ipv4@.map_values(|c: Ipv4Cidr| CanonicalCidr::V4(c)),
        AddressFamily::Ipv6 => effective.ipv6@.map_values(|c: Ipv6Cidr| CanonicalCidr::V6(c)),
    }
}

// Laws ------------------------------------------------------------------------------------------

/// A run moves through its steps in their order: a phase is entered only from the one before it,
/// by the report that that step succeeded. Sets are replaced only past the capacity check and the
/// cache selections, and the firewall is activated only once every enabled set was replaced.
pub proof fn law_steps_are_ordered(
    before: SyncRun,
    event: SyncEvent,
    after: SyncRun,
    turn: SyncTurn,
)
    requires
        before.valid(),
        turn_rule(before, event, after, turn),
        after.phase != before.phase,
    ensures
        match after.phase {
            SyncPhase::ResolvePaths => false,
            SyncPhase::LoadConfig => before.phase is ResolvePaths && (event matches
                SyncEvent::PathsResolved(result) && result is Ok),
            SyncPhase::AcquireLock => before.phase is LoadConfig && (event matches
                SyncEvent::ConfigLoaded(result) && result is Ok),
            SyncPhase::PrepareArtifacts => before.phase is AcquireLock && (event matches
                SyncEvent::LockAcquired(result) && result is Ok),
            SyncPhase::LoadSource { index } => if index == 0 {
                before.phase is PrepareArtifacts && (event matches SyncEvent::ArtifactsPrepared(
                    result,
                ) && result is Ok)
            } else {
                before.phase == (SyncPhase::LoadSource { index: (index - 1) as usize })
            },
            SyncPhase::PromoteCache { index } => if index == 0 {
                before.phase is PrepareArtifacts || before.phase is LoadSource
            } else {
                before.phase == (SyncPhase::PromoteCache { index: (index - 1) as usize }) && (
                event matches SyncEvent::CachePromoted(result) && result is Ok)
            },
            SyncPhase::ReplaceIpv6 => before.plan->0@.enable_ipv6 && follows_promotions(
                before,
                event,
                after,
            ),
            SyncPhase::ReplaceIpv4 => if before.plan->0@.enable_ipv6 {
                before.phase is ReplaceIpv6 && (event matches SyncEvent::SetReplaced(result)
                    && result is Ok)
            } else {
                follows_promotions(before, event, after)
            },
            SyncPhase::Activate => before.phase is ReplaceIpv4 && (event matches
                SyncEvent::SetReplaced(result) && result is Ok),
            SyncPhase::CleanUpIpv6 => before.phase is Activate && (event matches
                SyncEvent::Activated(result) && result is Ok),
            SyncPhase::Ended => turn.ending is Some && (turn.ending->0 is Ok
                ==> if before.plan->0@.enable_ipv6 {
                before.phase is Activate && (event matches SyncEvent::Activated(result)
                    && result is Ok)
            } else {
                before.phase is CleanUpIpv6
            }),
        },
{
    reveal(turn_rule);
    assert(before.sources.len() == before.sources@.len());
    assert(before.loaded.pending_promotions.len() == before.loaded.pending_promotions@.len());
}

/// Every cache selection was made, or there was none to make.
pub open spec fn follows_promotions(before: SyncRun, event: SyncEvent, after: SyncRun) -> bool {
    ||| before.phase matches SyncPhase::PromoteCache { index } && index + 1
        == before.loaded.pending_promotions@.len() && (event matches SyncEvent::CachePromoted(
        result,
    ) && result is Ok)
    ||| (before.phase is PrepareArtifacts || before.phase is LoadSource)
        && after.loaded.pending_promotions@.len() == 0
}

/// The data that enforcement uses does not change once it has been computed.
pub proof fn law_enforced_data_is_fixed(
    before: SyncRun,
    event: SyncEvent,
    after: SyncRun,
    turn: SyncTurn,
)
    requires
        before.valid(),
        past_preflight(before.phase),
        turn_rule(before, event, after, turn),
    ensures
        after.plan == before.plan,
        after.effective == before.effective,
        after.phase != SyncPhase::Ended ==> after.loaded == before.loaded,
{
    reveal(turn_rule);
}

} // verus!
