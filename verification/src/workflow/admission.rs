//! Admission of externally controlled safelists.

use crate::ordering::reversed;
use crate::policy::cidr_order::{sort_distinct, sorted_distinct};
use crate::policy::effective::{
    any_enforced, compute_effective_blocklists, effective_for, enforced, lemma_effective_emptiness,
    lemma_same_members_listed, listed, EffectiveBlocklists,
};
use crate::policy::network_types::{AddressFamily, CanonicalCidr};
use crate::workflow::error::AppError;
use crate::workflow::source::{notice_models, warning_model, Notice, NoticeModel, SyncSourceBatch};
use crate::workflow::sync::{
    add_promotions, no_fallback_text, rejected_text, staged, LoadedExternalSafelist,
    PendingPromotion, SourceSummary,
};
use vstd::prelude::*;

verus! {

/// The batch, on top of the safelist, leaves an address to enforce in every enabled family that
/// the operator's own safelist leaves one in.
pub open spec fn admissible(
    candidates: Seq<CanonicalCidr>,
    operator: Seq<CanonicalCidr>,
    safelist: Seq<CanonicalCidr>,
    batch: Seq<CanonicalCidr>,
    enable_ipv6: bool,
) -> bool {
    &&& any_enforced(candidates, operator, AddressFamily::Ipv4) ==> any_enforced(
        candidates,
        safelist + batch,
        AddressFamily::Ipv4,
    )
    &&& enable_ipv6 && any_enforced(candidates, operator, AddressFamily::Ipv6) ==> any_enforced(
        candidates,
        safelist + batch,
        AddressFamily::Ipv6,
    )
}

/// Where the admission of external safelists stands.
#[verifier::ext_equal]
pub struct AdmissionModel {
    /// Networks to carve out so far.
    pub safelist: Seq<CanonicalCidr>,
    /// Cache selections so far.
    pub promotions: Seq<PendingPromotion>,
    /// Source summaries.
    pub summaries: Seq<SourceSummary>,
    /// Notices so far.
    pub notices: Seq<NoticeModel>,
    /// Failure that ended the admission.
    pub failure: Option<AppError>,
}

/// Replaces the summary at the position, where there is one.
pub open spec fn with_summary(
    summaries: Seq<SourceSummary>,
    index: int,
    entries: usize,
    loaded: bool,
) -> Seq<SourceSummary> {
    if 0 <= index < summaries.len() {
        summaries.update(
            index,
            SourceSummary { id: summaries[index].id, role: summaries[index].role, entries, loaded },
        )
    } else {
        summaries
    }
}

/// Admission of one external safelist: its primary batch, else its fallback, else nothing.
pub open spec fn admit_one(
    candidates: Seq<CanonicalCidr>,
    operator: Seq<CanonicalCidr>,
    enable_ipv6: bool,
    state: AdmissionModel,
    external: LoadedExternalSafelist,
) -> AdmissionModel {
    let rejected = state.notices.push(warning_model(rejected_text(external.provider@)));
    if admissible(candidates, operator, state.safelist, external.primary.networks@, enable_ipv6) {
        AdmissionModel {
            safelist: state.safelist + external.primary.networks@,
            promotions: state.promotions + staged(
                external.provider,
                external.pending_promotions@,
            ),
            summaries: state.summaries,
            notices: state.notices,
            failure: None,
        }
    } else if external.fallback is Some && admissible(
        candidates,
        operator,
        state.safelist,
        external.fallback->0.networks@,
        enable_ipv6,
    ) {
        let fallback = external.fallback->0;
        AdmissionModel {
            safelist: state.safelist + fallback.networks@,
            promotions: state.promotions,
            summaries: with_summary(
                state.summaries,
                external.summary_index as int,
                fallback.networks.len(),
                state.summaries[external.summary_index as int].loaded,
            ),
            notices: rejected + notice_models(fallback.notices@),
            failure: None,
        }
    } else if external.fallback_failure is Some {
        AdmissionModel { notices: rejected, failure: external.fallback_failure, ..state }
    } else {
        AdmissionModel {
            safelist: state.safelist,
            promotions: state.promotions,
            summaries: with_summary(state.summaries, external.summary_index as int, 0, false),
            notices: rejected.push(warning_model(no_fallback_text(external.provider@))),
            failure: None,
        }
    }
}

/// Admission of external safelists in order, up to the first failure.
pub open spec fn admit_all(
    candidates: Seq<CanonicalCidr>,
    operator: Seq<CanonicalCidr>,
    enable_ipv6: bool,
    state: AdmissionModel,
    externals: Seq<LoadedExternalSafelist>,
) -> AdmissionModel
    decreases externals.len(),
{
    if externals.len() == 0 {
        state
    } else {
        let before = admit_all(candidates, operator, enable_ipv6, state, externals.drop_last());
        if before.failure is Some {
            before
        } else {
            admit_one(candidates, operator, enable_ipv6, before, externals.last())
        }
    }
}

/// Joins two lists of networks.
pub fn joined_networks(a: &[CanonicalCidr], b: &[CanonicalCidr]) -> (all: Vec<CanonicalCidr>)
    ensures
        all@ == a@ + b@,
{
    let mut all: Vec<CanonicalCidr> = Vec::with_capacity(a.len());
    let mut i: usize = 0;
    while i < a.len()
        invariant
            i <= a@.len(),
            all@ == a@.take(i as int),
        decreases a@.len() - i,
    {
        all.push(a[i]);
        i = i + 1;
        assert(a@.take(i as int) =~= a@.take(i - 1).push(a@[i - 1]));
    }
    let mut j: usize = 0;
    assert(a@ + b@.take(0) =~= a@.take(a@.len() as int));
    while j < b.len()
        invariant
            j <= b@.len(),
            all@ == a@ + b@.take(j as int),
        decreases b@.len() - j,
    {
        all.push(b[j]);
        j = j + 1;
        assert(a@ + b@.take(j as int) =~= (a@ + b@.take(j - 1)).push(b@[j - 1]));
    }
    assert(b@.take(j as int) =~= b@);
    all
}

/// Returns whether the external networks, on top of the operator's, empty no enabled family that
/// the baseline holds networks of.
pub fn external_safelist_preserves_baseline(
    candidates: &[CanonicalCidr],
    operator_safelist: &[CanonicalCidr],
    external_safelist: &[CanonicalCidr],
    enable_ipv6: bool,
    baseline: &EffectiveBlocklists,
) -> (preserved: bool)
    ensures
        preserved == ((baseline.ipv4@.len() == 0 || any_enforced(
            candidates@,
            operator_safelist@ + external_safelist@,
            AddressFamily::Ipv4,
        )) && (!enable_ipv6 || baseline.ipv6@.len() == 0 || any_enforced(
            candidates@,
            operator_safelist@ + external_safelist@,
            AddressFamily::Ipv6,
        ))),
{
    let joined: Vec<CanonicalCidr> = joined_networks(operator_safelist, external_safelist);
    let ghost all = joined@;
    let combined: Vec<CanonicalCidr> = sort_distinct(joined);
    let admitted: EffectiveBlocklists = compute_effective_blocklists(
        candidates,
        combined.as_slice(),
        enable_ipv6,
    );
    proof {
        lemma_effective_emptiness(candidates@, combined@, enable_ipv6, admitted);
        lemma_same_members_enforced(candidates@, all, combined@);
    }
    (baseline.ipv4.len() == 0 || admitted.ipv4.len() != 0) && (!enable_ipv6 || baseline.ipv6.len()
        == 0 || admitted.ipv6.len() != 0)
}

/// Safelists with the same members enforce the same addresses.
pub proof fn lemma_same_members_enforced(
    candidates: Seq<CanonicalCidr>,
    a: Seq<CanonicalCidr>,
    b: Seq<CanonicalCidr>,
)
    requires
        forall|c: CanonicalCidr| #[trigger] a.contains(c) <==> b.contains(c),
    ensures
        forall|family: AddressFamily| #[trigger]
            any_enforced(candidates, a, family) == any_enforced(candidates, b, family),
{
    lemma_same_members_listed(a, b);
    assert forall|family: AddressFamily| #[trigger]
        any_enforced(candidates, a, family) == any_enforced(candidates, b, family) by {
        assert forall|x: int| #[trigger]
            enforced(candidates, a, family, x) == enforced(candidates, b, family, x) by {
            assert(listed(a, family, x) == listed(b, family, x));
        }
        if any_enforced(candidates, a, family) {
            let x = choose|x: int| #[trigger] enforced(candidates, a, family, x);
            assert(enforced(candidates, b, family, x));
        }
        if any_enforced(candidates, b, family) {
            let x = choose|x: int| #[trigger] enforced(candidates, b, family, x);
            assert(enforced(candidates, a, family, x));
        }
    }
}

fn set_summary(summaries: &mut Vec<SourceSummary>, index: usize, entries: usize, loaded: bool)
    ensures
        final(summaries)@ == with_summary(old(summaries)@, index as int, entries, loaded),
{
    if index < summaries.len() {
        let current: SourceSummary = summaries[index];
        summaries.set(
            index,
            SourceSummary { id: current.id, role: current.role, entries, loaded },
        );
    }
}

fn provider_warning(head: &str, provider: &str, tail: &str) -> (notice: Notice)
    ensures
        notice@ == warning_model(head@ + provider@ + tail@),
{
    let mut text: String = head.to_owned();
    text.append(provider);
    text.append(tail);
    Notice::warning(text.as_str())
}

/// Admits one external safelist; see [`admit_one`].
fn admit_external_safelist(
    candidates: &[CanonicalCidr],
    operator: Ghost<Seq<CanonicalCidr>>,
    baseline: &EffectiveBlocklists,
    safelist: &mut Vec<CanonicalCidr>,
    external: LoadedExternalSafelist,
    enable_ipv6: bool,
    pending_promotions: &mut Vec<PendingPromotion>,
    summaries: &mut Vec<SourceSummary>,
    notices: &mut Vec<Notice>,
) -> (failure: Option<AppError>)
    requires
        effective_for(candidates@, operator@, enable_ipv6, *baseline),
    ensures
        (AdmissionModel {
            safelist: final(safelist)@,
            promotions: final(pending_promotions)@,
            summaries: final(summaries)@,
            notices: notice_models(final(notices)@),
            failure,
        }) == admit_one(
            candidates@,
            operator@,
            enable_ipv6,
            AdmissionModel {
                safelist: old(safelist)@,
                promotions: old(pending_promotions)@,
                summaries: old(summaries)@,
                notices: notice_models(old(notices)@),
                failure: None,
            },
            external,
        ),
{
    let ghost shown = notice_models(notices@);
    let ghost state = AdmissionModel {
        safelist: safelist@,
        promotions: pending_promotions@,
        summaries: summaries@,
        notices: shown,
        failure: None,
    };
    proof {
        lemma_effective_emptiness(candidates@, operator@, enable_ipv6, *baseline);
    }
    if external_safelist_preserves_baseline(
        candidates,
        safelist.as_slice(),
        external.primary.networks.as_slice(),
        enable_ipv6,
        baseline,
    ) {
        let mut networks: Vec<CanonicalCidr> = external.primary.networks;
        safelist.append(&mut networks);
        add_promotions(
            pending_promotions,
            external.provider,
            external.pending_promotions,
        );
        return None;
    }
    notices.push(
        provider_warning(
            "externally controlled safelist `",
            external.provider,
            "` was rejected because it would empty an enabled address family",
        ),
    );
    let ghost rejected = shown.push(warning_model(rejected_text(external.provider@)));
    assert(notice_models(notices@) =~= rejected);
    if let Some(fallback) = external.fallback {
        if external_safelist_preserves_baseline(
            candidates,
            safelist.as_slice(),
            fallback.networks.as_slice(),
            enable_ipv6,
            baseline,
        ) {
            let SyncSourceBatch { mut networks, notices: mut shown_with } = fallback;
            let ghost extra = shown_with@;
            let entries: usize = networks.len();
            let ghost held = notices@;
            notices.append(&mut shown_with);
            assert(notice_models(held + extra) =~= notice_models(held) + notice_models(extra));
            safelist.append(&mut networks);
            let loaded: bool = external.summary_index < summaries.len()
                && summaries[external.summary_index].loaded;
            set_summary(summaries, external.summary_index, entries, loaded);
            return None;
        }
    }
    if external.fallback_failure.is_some() {
        return external.fallback_failure;
    }
    let ghost held = notices@;
    notices.push(
        provider_warning(
            "externally controlled safelist `",
            external.provider,
            "` has no admissible fallback; using only operator-controlled safelist entries",
        ),
    );
    assert(notice_models(notices@) =~= rejected.push(
        warning_model(no_fallback_text(external.provider@)),
    ));
    set_summary(summaries, external.summary_index, 0, false);
    None
}

/// Admits external safelists in order.
///
/// A batch is admitted where it leaves something to enforce in every enabled family that the
/// operator's own safelist leaves something in. The safelist comes out sorted, without
/// repetitions. Returns the persistence failure of a source that has one and of which neither
/// batch is admitted; later sources are then not considered.
pub fn admit_external_safelists(
    candidates: &[CanonicalCidr],
    safelist: &mut Vec<CanonicalCidr>,
    external_safelists: Vec<LoadedExternalSafelist>,
    enable_ipv6: bool,
    pending_promotions: &mut Vec<PendingPromotion>,
    summaries: &mut Vec<SourceSummary>,
    notices: &mut Vec<Notice>,
) -> (outcome: Result<(), AppError>)
    ensures
        ({
            let admitted = admit_all(
                candidates@,
                old(safelist)@,
                enable_ipv6,
                AdmissionModel {
                    safelist: old(safelist)@,
                    promotions: old(pending_promotions)@,
                    summaries: old(summaries)@,
                    notices: notice_models(old(notices)@),
                    failure: None,
                },
                external_safelists@,
            );
            &&& sorted_distinct(admitted.safelist, final(safelist)@)
            &&& final(pending_promotions)@ == admitted.promotions
            &&& final(summaries)@ == admitted.summaries
            &&& notice_models(final(notices)@) == admitted.notices
            &&& outcome == (match admitted.failure {
                Some(error) => Err::<(), AppError>(error),
                None => Ok::<(), AppError>(()),
            })
        }),
{
    let ghost operator = safelist@;
    let ghost start = AdmissionModel {
        safelist: safelist@,
        promotions: pending_promotions@,
        summaries: summaries@,
        notices: notice_models(notices@),
        failure: None,
    };
    let ghost all = external_safelists@;
    let baseline: EffectiveBlocklists = compute_effective_blocklists(
        candidates,
        safelist.as_slice(),
        enable_ipv6,
    );
    let mut failure: Option<AppError> = None;
    let mut rest: Vec<LoadedExternalSafelist> = reversed(external_safelists);
    let ghost mut done: int = 0;
    assert(rest@ =~= all.skip(0).reverse());
    while rest.len() > 0 && failure.is_none()
        invariant
            0 <= done <= all.len(),
            rest@ == all.skip(done).reverse(),
            effective_for(candidates@, operator, enable_ipv6, baseline),
            (AdmissionModel {
                safelist: safelist@,
                promotions: pending_promotions@,
                summaries: summaries@,
                notices: notice_models(notices@),
                failure,
            }) == admit_all(candidates@, operator, enable_ipv6, start, all.take(done)),
        decreases all.len() - done,
    {
        let external: LoadedExternalSafelist = rest.pop().unwrap();
        proof {
            assert(external == all[done]);
            assert(all.take(done + 1).drop_last() =~= all.take(done));
            assert(rest@ =~= all.skip(done + 1).reverse());
            done = done + 1;
        }
        failure = admit_external_safelist(
            candidates,
            Ghost(operator),
            &baseline,
            safelist,
            external,
            enable_ipv6,
            pending_promotions,
            summaries,
            notices,
        );
    }
    proof {
        if failure is None {
            assert(all.take(done) =~= all);
        } else {
            lemma_admission_stops(candidates@, operator, enable_ipv6, start, all, done);
        }
    }
    let mut admitted: Vec<CanonicalCidr> = Vec::new();
    std::mem::swap(safelist, &mut admitted);
    *safelist = sort_distinct(admitted);
    match failure {
        Some(error) => Err(error),
        None => Ok(()),
    }
}

/// A failed admission is not continued.
proof fn lemma_admission_stops(
    candidates: Seq<CanonicalCidr>,
    operator: Seq<CanonicalCidr>,
    enable_ipv6: bool,
    start: AdmissionModel,
    all: Seq<LoadedExternalSafelist>,
    done: int,
)
    requires
        0 <= done <= all.len(),
        admit_all(candidates, operator, enable_ipv6, start, all.take(done)).failure is Some,
    ensures
        admit_all(candidates, operator, enable_ipv6, start, all) == admit_all(
            candidates,
            operator,
            enable_ipv6,
            start,
            all.take(done),
        ),
    decreases all.len() - done,
{
    if done < all.len() {
        assert(all.take(done + 1).drop_last() =~= all.take(done));
        lemma_admission_stops(candidates, operator, enable_ipv6, start, all, done + 1);
    } else {
        assert(all.take(done) =~= all);
    }
}

/// However external safelists are admitted, every enabled family that the operator's own safelist
/// leaves an address to enforce in keeps one.
pub proof fn law_admission_empties_no_family(
    candidates: Seq<CanonicalCidr>,
    operator: Seq<CanonicalCidr>,
    enable_ipv6: bool,
    start: AdmissionModel,
    externals: Seq<LoadedExternalSafelist>,
)
    requires
        start.safelist == operator,
    ensures
        ({
            let admitted = admit_all(candidates, operator, enable_ipv6, start, externals);
            &&& any_enforced(candidates, operator, AddressFamily::Ipv4) ==> any_enforced(
                candidates,
                admitted.safelist,
                AddressFamily::Ipv4,
            )
            &&& enable_ipv6 && any_enforced(candidates, operator, AddressFamily::Ipv6)
                ==> any_enforced(candidates, admitted.safelist, AddressFamily::Ipv6)
        }),
    decreases externals.len(),
{
    if externals.len() > 0 {
        law_admission_empties_no_family(
            candidates,
            operator,
            enable_ipv6,
            start,
            externals.drop_last(),
        );
    }
}

/// Admission keeps every network that the operator safelisted.
pub proof fn law_admission_keeps_operator_safelist(
    candidates: Seq<CanonicalCidr>,
    operator: Seq<CanonicalCidr>,
    enable_ipv6: bool,
    start: AdmissionModel,
    externals: Seq<LoadedExternalSafelist>,
)
    requires
        start.safelist == operator,
    ensures
        operator.is_prefix_of(
            admit_all(candidates, operator, enable_ipv6, start, externals).safelist,
        ),
    decreases externals.len(),
{
    if externals.len() > 0 {
        law_admission_keeps_operator_safelist(
            candidates,
            operator,
            enable_ipv6,
            start,
            externals.drop_last(),
        );
    }
}

} // verus!
