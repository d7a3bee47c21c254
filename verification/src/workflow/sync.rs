//! Source collection, safelist admission and capacity rules of a synchronization.

use crate::ordering::reversed;
use crate::policy::config::{Config, FirewallAction};
use crate::policy::network_types::{AddressFamily, CanonicalCidr};
use crate::workflow::error::{error_text, AppError};
use crate::workflow::source::{
    notice_models, warning_model, FailurePolicy, Notice, NoticeModel, SourceRole, StagedPromotion,
    SyncSourceBatch, SyncSourceDescriptor, SyncSourceLoad,
};
use vstd::prelude::*;

verus! {

/// Validated kernel-set parameters for one address family.
#[derive(Debug, Clone, PartialEq, Eq)]
pub struct ManagedSetSpec {
    /// Address family owned by the set.
    pub family: AddressFamily,
    /// Compatibility-sensitive kernel set name.
    pub set_name: String,
    /// Kernel set type.
    pub set_type: String,
    /// Initial kernel hash table size.
    pub hashsize: u32,
    /// Maximum permitted entries.
    pub maxelem: u32,
    /// Kernel entry timeout; zero disables expiry.
    pub timeout: u32,
}

/// Contents of a set specification.
pub struct SetModel {
    pub family: AddressFamily,
    pub set_name: Seq<char>,
    pub set_type: Seq<char>,
    pub hashsize: u32,
    pub maxelem: u32,
    pub timeout: u32,
}

impl View for ManagedSetSpec {
    type V = SetModel;

    open spec fn view(&self) -> SetModel {
        SetModel {
            family: self.family,
            set_name: self.set_name@,
            set_type: self.set_type@,
            hashsize: self.hashsize,
            maxelem: self.maxelem,
            timeout: self.timeout,
        }
    }
}

/// Complete family-separated firewall and ipset enforcement plan.
#[derive(Debug, Clone, PartialEq, Eq)]
pub struct EnforcementPlan {
    /// IPv4 managed-set specification.
    pub ipv4: ManagedSetSpec,
    /// IPv6 managed-set specification, used only when enabled.
    pub ipv6: ManagedSetSpec,
    /// Whether IPv6 artifacts should be enforced rather than cleaned up.
    pub enable_ipv6: bool,
    /// Firewall verdict used by each managed chain rule.
    pub chain_action: FirewallAction,
}

/// Contents of an enforcement plan.
pub struct PlanModel {
    pub ipv4: SetModel,
    pub ipv6: SetModel,
    pub enable_ipv6: bool,
    pub chain_action: FirewallAction,
}

impl View for EnforcementPlan {
    type V = PlanModel;

    open spec fn view(&self) -> PlanModel {
        PlanModel {
            ipv4: self.ipv4@,
            ipv6: self.ipv6@,
            enable_ipv6: self.enable_ipv6,
            chain_action: self.chain_action,
        }
    }
}

/// The plan that a configuration asks for.
pub open spec fn plan_of(config: Config) -> PlanModel {
    PlanModel {
        ipv4: SetModel {
            family: AddressFamily::Ipv4,
            set_name: config.ipset.set_name@,
            set_type: config.ipset.set_type@,
            hashsize: config.ipset.hashsize@,
            maxelem: config.ipset.maxelem@,
            timeout: config.ipset.timeout,
        },
        ipv6: SetModel {
            family: AddressFamily::Ipv6,
            set_name: config.ipset.set_name_v6@,
            set_type: config.ipset.set_type@,
            hashsize: config.ipset.hashsize@,
            maxelem: config.ipset.maxelem@,
            timeout: config.ipset.timeout,
        },
        enable_ipv6: config.ipset.enable_ipv6,
        chain_action: config.ipset.chain_action,
    }
}

impl EnforcementPlan {
    /// Builds an enforcement plan from validated configuration.
    pub fn from_config(config: &Config) -> (plan: EnforcementPlan)
        ensures
            plan@ == plan_of(*config),
            plan.chain_action == config.ipset.chain_action,
            plan.enable_ipv6 == config.ipset.enable_ipv6,
            plan.ipv4.set_name@ == config.ipset.set_name@,
            plan.ipv6.set_name@ == config.ipset.set_name_v6@,
    {
        EnforcementPlan {
            ipv4: ManagedSetSpec {
                family: AddressFamily::Ipv4,
                set_name: config.ipset.set_name.clone(),
                set_type: config.ipset.set_type.clone(),
                hashsize: config.ipset.hashsize.get(),
                maxelem: config.ipset.maxelem.get(),
                timeout: config.ipset.timeout,
            },
            ipv6: ManagedSetSpec {
                family: AddressFamily::Ipv6,
                set_name: config.ipset.set_name_v6.clone(),
                set_type: config.ipset.set_type.clone(),
                hashsize: config.ipset.hashsize.get(),
                maxelem: config.ipset.maxelem.get(),
                timeout: config.ipset.timeout,
            },
            enable_ipv6: config.ipset.enable_ipv6,
            chain_action: config.ipset.chain_action,
        }
    }
}

/// Side-effect boundary for atomic set replacement and fail-closed firewall wiring.
pub trait EnforcementBackend {
    /// Ensures inactive managed sets and chains exist without enabling new wiring.
    fn ensure_artifacts(&self, plan: &EnforcementPlan) -> (outcome: Result<(), AppError>);

    /// Atomically replaces one managed set with the supplied family-specific entries.
    fn replace_set(&self, spec: &ManagedSetSpec, entries: &[CanonicalCidr]) -> (outcome: Result<
        (),
        AppError,
    >);

    /// Activates and normalizes firewall wiring for the prepared sets.
    fn activate(&self, plan: &EnforcementPlan) -> (outcome: Result<(), AppError>);

    /// Best-effort removal of managed IPv6 artifacts when IPv6 is disabled.
    ///
    /// All scoped cleanup steps must be attempted; incomplete steps are returned as notices.
    fn cleanup_disabled_ipv6(&self, plan: &EnforcementPlan) -> (notices: Vec<Notice>);
}

/// Observer for stable workflow stage markers and operator notices.
pub trait SyncObserver {
    /// Records completion of a named ordered synchronization stage.
    fn stage_completed(&self, stage: &'static str);

    /// Records a notice without changing workflow error policy.
    fn notice(&self, notice: &Notice);
}

/// Outcome summary for one registered synchronization source.
#[derive(Debug, Clone, Copy, PartialEq, Eq)]
pub struct SourceSummary {
    /// Stable provider identifier.
    pub id: &'static str,
    /// Candidate or safelist role.
    pub role: SourceRole,
    /// Number of networks loaded, or zero after a best-effort failure.
    pub entries: usize,
    /// Whether the provider produced a usable batch.
    pub loaded: bool,
}

/// Successful synchronization result.
#[derive(Debug, Clone, PartialEq, Eq)]
pub struct SyncOutcome {
    /// Number of effective IPv4 CIDRs installed.
    pub ipv4_entries: usize,
    /// Number of effective IPv6 CIDRs installed.
    pub ipv6_entries: usize,
    /// Per-provider load summaries in registry order.
    pub sources: Vec<SourceSummary>,
}

/// A cache selection that waits for the preflight checks.
pub struct PendingPromotion {
    /// Stable identifier of the provider that staged the cache.
    pub provider: &'static str,
    /// The selection, until it is made.
    pub promotion: Option<StagedPromotion>,
}

/// An externally controlled safelist that has not been admitted yet.
pub struct LoadedExternalSafelist {
    /// Stable provider identifier.
    pub provider: &'static str,
    /// Preferred batch.
    pub primary: SyncSourceBatch,
    /// Previously selected batch.
    pub fallback: Option<SyncSourceBatch>,
    /// Staged cache selections.
    pub pending_promotions: Vec<StagedPromotion>,
    /// Failure that aborts where no batch is admitted.
    pub fallback_failure: Option<AppError>,
    /// Position of the provider's summary.
    pub summary_index: usize,
}

/// What the sources loaded so far contribute.
pub struct LoadedSources {
    /// Networks to enforce.
    pub candidates: Vec<CanonicalCidr>,
    /// Networks to carve out.
    pub safelist: Vec<CanonicalCidr>,
    /// Externally controlled safelists, in source order.
    pub external_safelists: Vec<LoadedExternalSafelist>,
    /// Cache selections to make, in order.
    pub pending_promotions: Vec<PendingPromotion>,
    /// One summary for each source, in order.
    pub summaries: Vec<SourceSummary>,
}

/// The selections that a provider staged, in order.
pub open spec fn staged(
    provider: &'static str,
    promotions: Seq<StagedPromotion>,
) -> Seq<PendingPromotion> {
    promotions.map_values(
        |p: StagedPromotion| PendingPromotion { provider, promotion: Some(p) },
    )
}

pub(crate) fn add_promotions(
    promotions: &mut Vec<PendingPromotion>,
    provider: &'static str,
    added: Vec<StagedPromotion>,
)
    ensures
        final(promotions)@ == old(promotions)@ + staged(provider, added@),
{
    let ghost before = promotions@;
    let ghost all = added@;
    let mut rest: Vec<StagedPromotion> = reversed(added);
    let ghost mut done: int = 0;
    assert(rest@ =~= all.skip(0).reverse());
    while rest.len() > 0
        invariant
            0 <= done <= all.len(),
            rest@ == all.skip(done).reverse(),
            promotions@ == before + staged(provider, all.take(done)),
        decreases all.len() - done,
    {
        let promotion: StagedPromotion = rest.pop().unwrap();
        proof {
            assert(promotion == all[done]);
            assert(rest@ =~= all.skip(done + 1).reverse());
            assert(staged(provider, all.take(done + 1)) =~= staged(provider, all.take(done)).push(
                PendingPromotion { provider, promotion: Some(all[done]) },
            ));
            done = done + 1;
        }
        promotions.push(PendingPromotion { provider, promotion: Some(promotion) });
        assert(promotions@ =~= before + staged(provider, all.take(done)));
    }
    assert(all.take(done) =~= all);
}

/// Warning for a source that failed without stopping the run.
pub open spec fn soft_failure_text(id: Seq<char>, reason: Seq<char>) -> Seq<char> {
    "source provider `"@ + id + "` failed softly: "@ + reason
}

/// Warning for an external safelist that was not admitted.
pub open spec fn rejected_text(provider: Seq<char>) -> Seq<char> {
    "externally controlled safelist `"@ + provider
        + "` was rejected because it would empty an enabled address family"@
}

/// Warning for an external safelist without an admissible fallback.
pub open spec fn no_fallback_text(provider: Seq<char>) -> Seq<char> {
    "externally controlled safelist `"@ + provider
        + "` has no admissible fallback; using only operator-controlled safelist entries"@
}

/// The failure does not stop a run whose source has the policy.
pub open spec fn fails_softly(error: AppError, policy: FailurePolicy) -> bool {
    !(error is SourceAggregateBudgetExceeded) && policy == FailurePolicy::BestEffort
}

/// What a loaded source adds.
pub open spec fn absorbed(
    before: LoadedSources,
    descriptor: SyncSourceDescriptor,
    load: SyncSourceLoad,
    after: LoadedSources,
) -> bool {
    let promotions = before.pending_promotions@ + staged(
        descriptor.id,
        load.pending_promotions@,
    );
    &&& after.summaries@ == before.summaries@.push(
        SourceSummary {
            id: descriptor.id,
            role: descriptor.role,
            entries: load.primary.networks.len(),
            loaded: true,
        },
    )
    &&& match descriptor.role {
        SourceRole::Candidate => {
            &&& after.candidates@ == before.candidates@ + load.primary.networks@
            &&& after.safelist@ == before.safelist@
            &&& after.external_safelists@ == before.external_safelists@
            &&& after.pending_promotions@ == promotions
        },
        SourceRole::Safelist => {
            &&& after.candidates@ == before.candidates@
            &&& after.safelist@ == before.safelist@ + load.primary.networks@
            &&& after.external_safelists@ == before.external_safelists@
            &&& after.pending_promotions@ == promotions
        },
        SourceRole::ExternalSafelist => {
            &&& after.candidates@ == before.candidates@
            &&& after.safelist@ == before.safelist@
            &&& after.external_safelists@ == before.external_safelists@.push(
                LoadedExternalSafelist {
                    provider: descriptor.id,
                    primary: load.primary,
                    fallback: load.fallback,
                    pending_promotions: load.pending_promotions,
                    fallback_failure: load.fallback_failure,
                    summary_index: before.summaries.len(),
                },
            )
            &&& after.pending_promotions@ == before.pending_promotions@
        },
    }
}

/// What a source that failed softly adds: only its summary.
pub open spec fn passed_over(
    before: LoadedSources,
    descriptor: SyncSourceDescriptor,
    after: LoadedSources,
) -> bool {
    &&& after.summaries@ == before.summaries@.push(
        SourceSummary { id: descriptor.id, role: descriptor.role, entries: 0, loaded: false },
    )
    &&& after.candidates@ == before.candidates@
    &&& after.safelist@ == before.safelist@
    &&& after.external_safelists@ == before.external_safelists@
    &&& after.pending_promotions@ == before.pending_promotions@
}

/// How the result of loading one source is taken in, with the notices for the operator.
pub open spec fn source_rule(
    before: LoadedSources,
    descriptor: SyncSourceDescriptor,
    result: Result<SyncSourceLoad, AppError>,
    after: LoadedSources,
    notices: Result<Seq<NoticeModel>, AppError>,
) -> bool {
    match result {
        Ok(load) => {
            &&& notices == Ok::<Seq<NoticeModel>, AppError>(notice_models(load.primary.notices@))
            &&& absorbed(before, descriptor, load, after)
        },
        Err(error) => if fails_softly(error, descriptor.failure_policy) {
            &&& notices == Ok::<Seq<NoticeModel>, AppError>(
                seq![warning_model(soft_failure_text(descriptor.id@, error_text(error)))],
            )
            &&& passed_over(before, descriptor, after)
        } else {
            &&& notices == Err::<Seq<NoticeModel>, AppError>(error)
            &&& after == before
        },
    }
}

/// Contents of the notices of a step, or its failure.
pub open spec fn step_notices(notices: Result<Vec<Notice>, AppError>) -> Result<
    Seq<NoticeModel>,
    AppError,
> {
    match notices {
        Ok(list) => Ok(notice_models(list@)),
        Err(error) => Err(error),
    }
}

impl LoadedSources {
    /// Nothing has been loaded.
    pub open spec fn is_empty(self) -> bool {
        &&& self.candidates@.len() == 0
        &&& self.safelist@.len() == 0
        &&& self.external_safelists@.len() == 0
        &&& self.pending_promotions@.len() == 0
        &&& self.summaries@.len() == 0
    }

    /// No source has been loaded yet.
    pub fn new() -> (loaded: LoadedSources)
        ensures
            loaded.is_empty(),
    {
        LoadedSources {
            candidates: Vec::new(),
            safelist: Vec::new(),
            external_safelists: Vec::new(),
            pending_promotions: Vec::new(),
            summaries: Vec::new(),
        }
    }

    /// Takes in the result of loading a source.
    ///
    /// A failure is returned where the source is required, or where the aggregate of remote
    /// networks exceeds its budget; other failures become a warning.
    pub fn absorb_source(
        &mut self,
        descriptor: SyncSourceDescriptor,
        result: Result<SyncSourceLoad, AppError>,
    ) -> (notices: Result<Vec<Notice>, AppError>)
        ensures
            source_rule(
                *old(self),
                descriptor,
                result,
                *final(self),
                step_notices(notices),
            ),
    {
        match result {
            Ok(load) => {
                let SyncSourceLoad { primary, fallback, pending_promotions, fallback_failure } =
                    load;
                let entries: usize = primary.networks.len();
                let summary_index: usize = self.summaries.len();
                let notices: Vec<Notice> = match descriptor.role {
                    SourceRole::Candidate => {
                        let mut networks: Vec<CanonicalCidr> = primary.networks;
                        self.candidates.append(&mut networks);
                        add_promotions(
                            &mut self.pending_promotions,
                            descriptor.id,
                            pending_promotions,
                        );
                        primary.notices
                    },
                    SourceRole::Safelist => {
                        let mut networks: Vec<CanonicalCidr> = primary.networks;
                        self.safelist.append(&mut networks);
                        add_promotions(
                            &mut self.pending_promotions,
                            descriptor.id,
                            pending_promotions,
                        );
                        primary.notices
                    },
                    SourceRole::ExternalSafelist => {
                        let notices: Vec<Notice> = copy_notices(&primary.notices);
                        self.external_safelists.push(
                            LoadedExternalSafelist {
                                provider: descriptor.id,
                                primary,
                                fallback,
                                pending_promotions,
                                fallback_failure,
                                summary_index,
                            },
                        );
                        notices
                    },
                };
                self.summaries.push(
                    SourceSummary {
                        id: descriptor.id,
                        role: descriptor.role,
                        entries,
                        loaded: true,
                    },
                );
                Ok(notices)
            },
            Err(error) => {
                let hard: bool = match &error {
                    AppError::SourceAggregateBudgetExceeded { .. } => true,
                    _ => descriptor.failure_policy == FailurePolicy::Required,
                };
                if hard {
                    return Err(error);
                }
                let mut text: String = "source provider `".to_owned();
                text.append(descriptor.id);
                text.append("` failed softly: ");
                text.append(error.message().as_str());
                self.summaries.push(
                    SourceSummary {
                        id: descriptor.id,
                        role: descriptor.role,
                        entries: 0,
                        loaded: false,
                    },
                );
                let mut notices: Vec<Notice> = Vec::new();
                notices.push(Notice::warning(text.as_str()));
                assert(notice_models(notices@) =~= seq![
                    warning_model(soft_failure_text(descriptor.id@, error_text(error))),
                ]);
                Ok(notices)
            },
        }
    }
}

/// Copies notices.
pub fn copy_notices(notices: &Vec<Notice>) -> (copy: Vec<Notice>)
    ensures
        notice_models(copy@) == notice_models(notices@),
{
    let mut copy: Vec<Notice> = Vec::new();
    let mut i: usize = 0;
    while i < notices.len()
        invariant
            i <= notices@.len(),
            copy@.len() == i,
            forall|k: int| 0 <= k < i ==> (#[trigger] copy@[k])@ == notices@[k]@,
        decreases notices@.len() - i,
    {
        copy.push(Notice { level: notices[i].level, message: notices[i].message.clone() });
        i = i + 1;
    }
    assert(notice_models(copy@) =~= notice_models(notices@));
    copy
}

} // verus!
