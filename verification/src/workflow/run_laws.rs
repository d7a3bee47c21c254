//! What the steps of a synchronization collect, admit and install.

use crate::policy::cidr_order::sorted_distinct;
use crate::policy::effective::{
    any_enforced, effective_for, enforced, law_effective_is_candidates_without_safelist, listed,
    EffectiveBlocklists,
};
use crate::policy::intervals::{blocks_v4, blocks_v6};
use crate::policy::network_types::{AddressFamily, CanonicalCidr, Ipv4Cidr, Ipv6Cidr};
use crate::policy::span_math::{block_has, blocks_cover};
use crate::workflow::admission::{admissible, admit_all, admit_one, AdmissionModel};
use crate::workflow::error::{error_text, AppError};
use crate::workflow::source::{
    notice_models, FailurePolicy, NoticeLevel, NoticeModel, SourceRole, SyncSourceDescriptor,
    SyncSourceLoad,
};
use crate::workflow::sync::{
    source_rule, LoadedExternalSafelist, LoadedSources, PendingPromotion, PlanModel,
};
use crate::workflow::sync_run::{
    admission_start, preflight_rule, turn_rule, SignalModel, SyncEvent, SyncPhase, SyncRun,
    SyncTurn,
};
use vstd::prelude::*;

verus! {

// Sources ---------------------------------------------------------------------------------------

/// The list is the earlier one and the networks.
pub open spec fn adds(
    before: Seq<CanonicalCidr>,
    networks: Seq<CanonicalCidr>,
    after: Seq<CanonicalCidr>,
) -> bool {
    forall|n: CanonicalCidr| #[trigger]
        after.contains(n) <==> before.contains(n) || networks.contains(n)
}

proof fn lemma_joined(a: Seq<CanonicalCidr>, b: Seq<CanonicalCidr>)
    ensures
        adds(a, b, a + b),
{
    assert forall|n: CanonicalCidr| #[trigger] (a + b).contains(n) <==> a.contains(n)
        || b.contains(n) by {
        if (a + b).contains(n) {
            let k = choose|k: int| 0 <= k < (a + b).len() && (a + b)[k] == n;
            if k < a.len() {
                assert(a[k] == n);
            } else {
                assert(b[k - a.len()] == n);
            }
        }
        if a.contains(n) {
            let k = choose|k: int| 0 <= k < a.len() && a[k] == n;
            assert((a + b)[k] == n);
        }
        if b.contains(n) {
            let k = choose|k: int| 0 <= k < b.len() && b[k] == n;
            assert((a + b)[a.len() + k] == n);
        }
    }
}

/// A source that loaded adds its networks to what its role says and to nothing else, and is counted
/// as loaded with their number. One that failed ends the run where it is required or over the
/// budget; in every other case it adds nothing, is counted as not loaded, and is announced.
pub proof fn law_source_adds_to_the_list_of_its_role(
    before: LoadedSources,
    descriptor: SyncSourceDescriptor,
    result: Result<SyncSourceLoad, AppError>,
    after: LoadedSources,
    notices: Result<Seq<NoticeModel>, AppError>,
)
    requires
        source_rule(before, descriptor, result, after, notices),
    ensures
        notices is Err <==> result is Err && (descriptor.failure_policy == FailurePolicy::Required
            || result->Err_0 is SourceAggregateBudgetExceeded),
        notices matches Err(error) ==> error == result->Err_0 && after == before,
        result is Ok && descriptor.role == SourceRole::Candidate ==> adds(
            before.candidates@,
            result->Ok_0.primary.networks@,
            after.candidates@,
        ),
        !(result is Ok && descriptor.role == SourceRole::Candidate) ==> after.candidates@
            == before.candidates@,
        result is Ok && descriptor.role == SourceRole::Safelist ==> adds(
            before.safelist@,
            result->Ok_0.primary.networks@,
            after.safelist@,
        ),
        !(result is Ok && descriptor.role == SourceRole::Safelist) ==> after.safelist@
            == before.safelist@,
        result is Ok && descriptor.role == SourceRole::ExternalSafelist
            ==> after.external_safelists@.len() == before.external_safelists@.len() + 1
            && after.external_safelists@.last().primary == result->Ok_0.primary
            && after.external_safelists@.last().fallback == result->Ok_0.fallback
            && after.external_safelists@.last().pending_promotions
            == result->Ok_0.pending_promotions,
        !(result is Ok && descriptor.role == SourceRole::ExternalSafelist)
            ==> after.external_safelists@ == before.external_safelists@,
        result is Ok && descriptor.role != SourceRole::ExternalSafelist
            ==> after.pending_promotions@.len() == before.pending_promotions@.len()
            + result->Ok_0.pending_promotions@.len(),
        result is Ok ==> after.summaries@.last().loaded && after.summaries@.last().entries
            == result->Ok_0.primary.networks@.len() && notices == Ok::<
            Seq<NoticeModel>,
            AppError,
        >(notice_models(result->Ok_0.primary.notices@)),
        result is Err && notices is Ok ==> !after.summaries@.last().loaded
            && after.summaries@.last().entries == 0 && notices->Ok_0 == seq![
            NoticeModel {
                level: NoticeLevel::Warning,
                message: "source provider `"@ + descriptor.id@ + "` failed softly: "@ + error_text(
                    result->Err_0,
                ),
            },
        ],
        notices is Ok ==> after.summaries@.len() == before.summaries@.len() + 1
            && after.summaries@.last().id@ == descriptor.id@ && after.summaries@.last().role
            == descriptor.role,
{
    if let Ok(load) = result {
        lemma_joined(before.candidates@, load.primary.networks@);
        lemma_joined(before.safelist@, load.primary.networks@);
    }
}

// Admission -------------------------------------------------------------------------------------

/// One of the networks holds the address.
pub open spec fn some_holds(
    networks: Seq<CanonicalCidr>,
    family: AddressFamily,
    a: int,
) -> bool {
    exists|i: int| 0 <= i < networks.len() && (#[trigger] networks[i]).has(family, a)
}

/// With the batch added, a candidate address of the family is left out of the safelist wherever
/// the operator's own safelist leaves one.
pub open spec fn leaves_something(
    candidates: Seq<CanonicalCidr>,
    operator: Seq<CanonicalCidr>,
    safelist: Seq<CanonicalCidr>,
    batch: Seq<CanonicalCidr>,
    family: AddressFamily,
) -> bool {
    (exists|a: int|
        #![trigger some_holds(candidates, family, a)]
        some_holds(candidates, family, a) && !some_holds(operator, family, a)) ==> exists|a: int|
        #![trigger some_holds(candidates, family, a)]
        some_holds(candidates, family, a) && !some_holds(safelist, family, a) && !some_holds(
            batch,
            family,
            a,
        )
}

proof fn lemma_any(
    candidates: Seq<CanonicalCidr>,
    safelist: Seq<CanonicalCidr>,
    batch: Seq<CanonicalCidr>,
    family: AddressFamily,
)
    ensures
        any_enforced(candidates, safelist, family) <==> exists|a: int|
            #![trigger some_holds(candidates, family, a)]
            some_holds(candidates, family, a) && !some_holds(safelist, family, a),
        any_enforced(candidates, safelist + batch, family) <==> exists|a: int|
            #![trigger some_holds(candidates, family, a)]
            some_holds(candidates, family, a) && !some_holds(safelist, family, a) && !some_holds(
                batch,
                family,
                a,
            ),
{
    let all = safelist + batch;
    assert forall|a: int| #[trigger] listed(all, family, a) <==> some_holds(safelist, family, a)
        || some_holds(batch, family, a) by {
        if listed(all, family, a) {
            let i = choose|i: int| 0 <= i < all.len() && (#[trigger] all[i]).has(family, a);
            if i < safelist.len() {
                assert(safelist[i].has(family, a));
            } else {
                assert(batch[i - safelist.len()].has(family, a));
            }
        }
        if some_holds(safelist, family, a) {
            let i = choose|i: int|
                0 <= i < safelist.len() && (#[trigger] safelist[i]).has(family, a);
            assert(all[i].has(family, a));
        }
        if some_holds(batch, family, a) {
            let i = choose|i: int| 0 <= i < batch.len() && (#[trigger] batch[i]).has(family, a);
            assert(all[safelist.len() + i].has(family, a));
        }
    }
    if any_enforced(candidates, safelist, family) {
        let a = choose|a: int| #[trigger] enforced(candidates, safelist, family, a);
        assert(some_holds(candidates, family, a));
    }
    if any_enforced(candidates, all, family) {
        let a = choose|a: int| #[trigger] enforced(candidates, all, family, a);
        assert(some_holds(candidates, family, a));
        assert(!listed(all, family, a));
    }
    if exists|a: int|
        #![trigger some_holds(candidates, family, a)]
        some_holds(candidates, family, a) && !some_holds(safelist, family, a) {
        let a = choose|a: int|
            #![trigger some_holds(candidates, family, a)]
            some_holds(candidates, family, a) && !some_holds(safelist, family, a);
        assert(enforced(candidates, safelist, family, a));
    }
    if exists|a: int|
        #![trigger some_holds(candidates, family, a)]
        some_holds(candidates, family, a) && !some_holds(safelist, family, a) && !some_holds(
            batch,
            family,
            a,
        ) {
        let a = choose|a: int|
            #![trigger some_holds(candidates, family, a)]
            some_holds(candidates, family, a) && !some_holds(safelist, family, a) && !some_holds(
                batch,
                family,
                a,
            );
        assert(!listed(all, family, a));
        assert(enforced(candidates, all, family, a));
    }
}

/// A batch may be admitted exactly when it leaves something to enforce in each enabled family in
/// which the operator's own safelist does.
pub proof fn law_admissible_batches_leave_something(
    candidates: Seq<CanonicalCidr>,
    operator: Seq<CanonicalCidr>,
    safelist: Seq<CanonicalCidr>,
    batch: Seq<CanonicalCidr>,
    enable_ipv6: bool,
)
    ensures
        admissible(candidates, operator, safelist, batch, enable_ipv6) <==> leaves_something(
            candidates,
            operator,
            safelist,
            batch,
            AddressFamily::Ipv4,
        ) && (enable_ipv6 ==> leaves_something(
            candidates,
            operator,
            safelist,
            batch,
            AddressFamily::Ipv6,
        )),
{
    lemma_any(candidates, safelist, batch, AddressFamily::Ipv4);
    lemma_any(candidates, operator, batch, AddressFamily::Ipv4);
    lemma_any(candidates, safelist, batch, AddressFamily::Ipv6);
    lemma_any(candidates, operator, batch, AddressFamily::Ipv6);
}

/// The warning that a safelist of a provider was rejected.
pub open spec fn rejection(provider: Seq<char>) -> NoticeModel {
    NoticeModel {
        level: NoticeLevel::Warning,
        message: "externally controlled safelist `"@ + provider
            + "` was rejected because it would empty an enabled address family"@,
    }
}

/// An admissible safelist is admitted as a whole, its caches are promoted, and nothing is said. One
/// that is not is announced; its fallback is admitted in its place where that is admissible,
/// without a promotion; where it is not, a failure of the fallback ends the run, and without one
/// the provider adds nothing and is counted as not loaded.
pub proof fn law_external_safelist_is_admitted_or_rejected(
    candidates: Seq<CanonicalCidr>,
    operator: Seq<CanonicalCidr>,
    enable_ipv6: bool,
    state: AdmissionModel,
    external: LoadedExternalSafelist,
)
    requires
        external.summary_index < state.summaries.len(),
        state.failure is None,
    ensures
        ({
            let next = admit_one(candidates, operator, enable_ipv6, state, external);
            let primary = external.primary.networks@;
            let accepts = |batch: Seq<CanonicalCidr>|
                admissible(candidates, operator, state.safelist, batch, enable_ipv6);
            let falls_back = external.fallback is Some && accepts(external.fallback->0.networks@);
            let summary = next.summaries[external.summary_index as int];
            &&& accepts(primary) ==> {
                &&& adds(state.safelist, primary, next.safelist)
                &&& next.promotions.len() == state.promotions.len()
                    + external.pending_promotions@.len()
                &&& forall|k: int|
                    0 <= k < external.pending_promotions@.len()
                        ==> #[trigger] next.promotions[state.promotions.len() + k] == (
                    PendingPromotion {
                        provider: external.provider,
                        promotion: Some(external.pending_promotions@[k]),
                    })
                &&& next.notices == state.notices
                &&& next.summaries == state.summaries
                &&& next.failure is None
            }
            &&& !accepts(primary) ==> {
                &&& next.promotions == state.promotions
                &&& next.notices.contains(rejection(external.provider@))
            }
            &&& !accepts(primary) && falls_back ==> {
                &&& adds(state.safelist, external.fallback->0.networks@, next.safelist)
                &&& summary.entries == external.fallback->0.networks@.len()
                &&& next.failure is None
            }
            &&& !accepts(primary) && !falls_back ==> {
                &&& next.safelist == state.safelist
                &&& next.failure == external.fallback_failure
                &&& external.fallback_failure is None ==> summary.entries == 0 && !summary.loaded
            }
        }),
{
    let next = admit_one(candidates, operator, enable_ipv6, state, external);
    lemma_joined(state.safelist, external.primary.networks@);
    let warned = state.notices.push(rejection(external.provider@));
    assert(warned[state.notices.len() as int] == rejection(external.provider@));
    if let Some(fallback) = external.fallback {
        lemma_joined(state.safelist, fallback.networks@);
    }
    if !admissible(
        candidates,
        operator,
        state.safelist,
        external.primary.networks@,
        enable_ipv6,
    ) {
        assert(next.notices[state.notices.len() as int] == rejection(external.provider@));
    }
}

/// A network of an external safelist: of its primary list or its fallback.
pub open spec fn offered(external: LoadedExternalSafelist, network: CanonicalCidr) -> bool {
    external.primary.networks@.contains(network) || external.fallback is Some
        && external.fallback->0.networks@.contains(network)
}

proof fn lemma_admitted(
    candidates: Seq<CanonicalCidr>,
    operator: Seq<CanonicalCidr>,
    enable_ipv6: bool,
    start: AdmissionModel,
    externals: Seq<LoadedExternalSafelist>,
    network: CanonicalCidr,
)
    ensures
        ({
            let admitted = admit_all(candidates, operator, enable_ipv6, start, externals).safelist;
            &&& start.safelist.contains(network) ==> admitted.contains(network)
            &&& admitted.contains(network) ==> start.safelist.contains(network) || exists|i: int|
                0 <= i < externals.len() && offered(#[trigger] externals[i], network)
        }),
    decreases externals.len(),
{
    if externals.len() > 0 {
        let front = externals.drop_last();
        let last = externals.last();
        lemma_admitted(candidates, operator, enable_ipv6, start, front, network);
        let before = admit_all(candidates, operator, enable_ipv6, start, front);
        let admitted = admit_all(candidates, operator, enable_ipv6, start, externals).safelist;
        lemma_joined(before.safelist, last.primary.networks@);
        if let Some(fallback) = last.fallback {
            lemma_joined(before.safelist, fallback.networks@);
        }
        if exists|i: int| 0 <= i < front.len() && offered(#[trigger] front[i], network) {
            let i = choose|i: int| 0 <= i < front.len() && offered(#[trigger] front[i], network);
            assert(offered(externals[i], network));
        }
        if offered(last, network) {
            assert(offered(externals[externals.len() - 1], network));
        }
    }
}

// Preflight -------------------------------------------------------------------------------------

/// One of the IPv4 networks holds the address.
pub open spec fn ipv4_holds(networks: Seq<Ipv4Cidr>, a: int) -> bool {
    exists|i: int| 0 <= i < networks.len() && block_has(32, (#[trigger] networks[i])@, a)
}

/// One of the IPv6 networks holds the address.
pub open spec fn ipv6_holds(networks: Seq<Ipv6Cidr>, a: int) -> bool {
    exists|i: int| 0 <= i < networks.len() && block_has(128, (#[trigger] networks[i])@, a)
}

proof fn lemma_ipv4_cover(networks: Seq<Ipv4Cidr>, a: int)
    ensures
        blocks_cover(32, blocks_v4(networks), a) <==> ipv4_holds(networks, a),
{
    let blocks = blocks_v4(networks);
    if blocks_cover(32, blocks, a) {
        let i = choose|i: int| 0 <= i < blocks.len() && block_has(32, #[trigger] blocks[i], a);
        assert(block_has(32, networks[i]@, a));
    }
    if ipv4_holds(networks, a) {
        let i = choose|i: int|
            0 <= i < networks.len() && block_has(32, (#[trigger] networks[i])@, a);
        assert(block_has(32, blocks[i], a));
    }
}

proof fn lemma_ipv6_cover(networks: Seq<Ipv6Cidr>, a: int)
    ensures
        blocks_cover(128, blocks_v6(networks), a) <==> ipv6_holds(networks, a),
{
    let blocks = blocks_v6(networks);
    if blocks_cover(128, blocks, a) {
        let i = choose|i: int| 0 <= i < blocks.len() && block_has(128, #[trigger] blocks[i], a);
        assert(block_has(128, networks[i]@, a));
    }
    if ipv6_holds(networks, a) {
        let i = choose|i: int|
            0 <= i < networks.len() && block_has(128, (#[trigger] networks[i])@, a);
        assert(block_has(128, blocks[i], a));
    }
}

/// The effective lists hold an address exactly when a candidate network holds it and no safelisted
/// one does; IPv6 addresses are left out where the family is disabled.
pub proof fn law_effective_lists_hold_unsafe_candidates(
    candidates: Seq<CanonicalCidr>,
    safelist: Seq<CanonicalCidr>,
    enable_ipv6: bool,
    effective: EffectiveBlocklists,
    a: int,
)
    requires
        effective_for(candidates, safelist, enable_ipv6, effective),
    ensures
        ipv4_holds(effective.ipv4@, a) <==> some_holds(candidates, AddressFamily::Ipv4, a)
            && !some_holds(safelist, AddressFamily::Ipv4, a),
        ipv6_holds(effective.ipv6@, a) <==> enable_ipv6 && some_holds(
            candidates,
            AddressFamily::Ipv6,
            a,
        ) && !some_holds(safelist, AddressFamily::Ipv6, a),
{
    law_effective_is_candidates_without_safelist(candidates, safelist, enable_ipv6, effective);
    lemma_ipv4_cover(effective.ipv4@, a);
    lemma_ipv6_cover(effective.ipv6@, a);
    assert(listed(candidates, AddressFamily::Ipv4, a) <==> some_holds(
        candidates,
        AddressFamily::Ipv4,
        a,
    ));
    assert(listed(safelist, AddressFamily::Ipv4, a) <==> some_holds(
        safelist,
        AddressFamily::Ipv4,
        a,
    ));
    assert(listed(candidates, AddressFamily::Ipv6, a) <==> some_holds(
        candidates,
        AddressFamily::Ipv6,
        a,
    ));
    assert(listed(safelist, AddressFamily::Ipv6, a) <==> some_holds(
        safelist,
        AddressFamily::Ipv6,
        a,
    ));
    assert(blocks_cover(32, blocks_v4(effective.ipv4@), a) <==> enforced(
        candidates,
        safelist,
        AddressFamily::Ipv4,
        a,
    ));
    if enable_ipv6 {
        assert(blocks_cover(128, blocks_v6(effective.ipv6@), a) <==> enforced(
            candidates,
            safelist,
            AddressFamily::Ipv6,
            a,
        ));
    }
}

proof fn lemma_same_holds(
    all: Seq<CanonicalCidr>,
    unique: Seq<CanonicalCidr>,
    family: AddressFamily,
    a: int,
)
    requires
        sorted_distinct(all, unique),
    ensures
        some_holds(all, family, a) <==> some_holds(unique, family, a),
{
    if some_holds(all, family, a) {
        let i = choose|i: int| 0 <= i < all.len() && (#[trigger] all[i]).has(family, a);
        assert(all.contains(all[i]));
        let j = choose|j: int| 0 <= j < unique.len() && unique[j] == all[i];
        assert(unique[j].has(family, a));
    }
    if some_holds(unique, family, a) {
        let j = choose|j: int| 0 <= j < unique.len() && (#[trigger] unique[j]).has(family, a);
        assert(unique.contains(unique[j]));
        assert(all.contains(unique[j]));
        let i = choose|i: int| 0 <= i < all.len() && all[i] == unique[j];
        assert(all[i].has(family, a));
    }
}

/// Once the sources are loaded, a run that goes on is about to install the candidate addresses that
/// are not safelisted and no other; every network that the operator safelisted is safelisted, and
/// what else is comes from an external safelist. The lists fit into their sets. The next step is
/// the promotion of caches where there are any, and the replacement of a set where there are none.
pub proof fn law_preflight_installs_unsafe_candidates(
    loaded: LoadedSources,
    plan: PlanModel,
    after: SyncRun,
    turn: SyncTurn,
    signals: Seq<SignalModel>,
    a: int,
    network: CanonicalCidr,
)
    requires
        preflight_rule(loaded, plan, after, turn, signals),
        turn.ending is None,
    ensures
        ipv4_holds(after.effective.ipv4@, a) <==> some_holds(
            loaded.candidates@,
            AddressFamily::Ipv4,
            a,
        ) && !some_holds(after.loaded.safelist@, AddressFamily::Ipv4, a),
        ipv6_holds(after.effective.ipv6@, a) <==> plan.enable_ipv6 && some_holds(
            loaded.candidates@,
            AddressFamily::Ipv6,
            a,
        ) && !some_holds(after.loaded.safelist@, AddressFamily::Ipv6, a),
        loaded.safelist@.contains(network) ==> after.loaded.safelist@.contains(network),
        after.loaded.safelist@.contains(network) ==> loaded.safelist@.contains(network) || exists|
            i: int,
        |
            0 <= i < loaded.external_safelists@.len() && offered(
                #[trigger] loaded.external_safelists@[i],
                network,
            ),
        after.effective.ipv4@.len() <= plan.ipv4.maxelem,
        plan.enable_ipv6 ==> after.effective.ipv6@.len() <= plan.ipv6.maxelem,
        after.phase == if after.loaded.pending_promotions@.len() > 0 {
            SyncPhase::PromoteCache { index: 0 }
        } else if plan.enable_ipv6 {
            SyncPhase::ReplaceIpv6
        } else {
            SyncPhase::ReplaceIpv4
        },
{
    let (candidates, safelist) = choose|
        candidates: Seq<CanonicalCidr>,
        safelist: Seq<CanonicalCidr>,
    |
        #![trigger sorted_distinct(loaded.candidates@, candidates), sorted_distinct(loaded.safelist@, safelist)]
        {
            let admitted = admit_all(
                candidates,
                safelist,
                plan.enable_ipv6,
                admission_start(safelist, loaded),
                loaded.external_safelists@,
            );
            &&& sorted_distinct(loaded.candidates@, candidates)
            &&& sorted_distinct(loaded.safelist@, safelist)
            &&& sorted_distinct(admitted.safelist, after.loaded.safelist@)
            &&& effective_for(
                candidates,
                after.loaded.safelist@,
                plan.enable_ipv6,
                after.effective,
            )
        };
    let start = admission_start(safelist, loaded);
    law_effective_lists_hold_unsafe_candidates(
        candidates,
        after.loaded.safelist@,
        plan.enable_ipv6,
        after.effective,
        a,
    );
    lemma_same_holds(loaded.candidates@, candidates, AddressFamily::Ipv4, a);
    lemma_same_holds(loaded.candidates@, candidates, AddressFamily::Ipv6, a);
    lemma_admitted(
        candidates,
        safelist,
        plan.enable_ipv6,
        start,
        loaded.external_safelists@,
        network,
    );
    let admitted = admit_all(
        candidates,
        safelist,
        plan.enable_ipv6,
        start,
        loaded.external_safelists@,
    ).safelist;
    assert(admitted.contains(network) <==> after.loaded.safelist@.contains(network));
    assert(loaded.safelist@.contains(network) <==> safelist.contains(network));
}

/// Before a set is replaced nothing but a failure ends a run: one that ends as soon as the sources
/// are loaded ends with an error, and where its lists are too long for their sets with one that
/// names the set, the length and the limit.
pub proof fn law_preflight_ends_only_in_failure(
    loaded: LoadedSources,
    plan: PlanModel,
    after: SyncRun,
    turn: SyncTurn,
    signals: Seq<SignalModel>,
)
    requires
        preflight_rule(loaded, plan, after, turn, signals),
        turn.ending is Some,
    ensures
        turn.ending->0 is Err,
        after.phase == SyncPhase::Ended,
        loaded.external_safelists@.len() == 0 && plan.ipv4.family == AddressFamily::Ipv4
            && plan.ipv6.family == AddressFamily::Ipv6 ==> (turn.ending->0->Err_0
            matches AppError::IpsetCapacityExceeded { family, set_name, entries, maxelem }
            && entries > maxelem && (family@ == "ipv4"@ && set_name@ == plan.ipv4.set_name
            && maxelem == plan.ipv4.maxelem && entries == after.effective.ipv4@.len()
            || plan.enable_ipv6 && family@ == "ipv6"@ && set_name@ == plan.ipv6.set_name && maxelem
            == plan.ipv6.maxelem && entries == after.effective.ipv6@.len())),
{
    if loaded.external_safelists@.len() == 0 {
        assert(loaded.external_safelists@ =~= Seq::empty());
    }
}

/// A successful end reports how many networks of each family were installed, and what became of
/// each source; it comes only behind an activation that succeeded, and behind the cleanup where
/// IPv6 is disabled.
pub proof fn law_success_reports_what_was_installed(
    before: SyncRun,
    event: SyncEvent,
    after: SyncRun,
    turn: SyncTurn,
)
    requires
        before.valid(),
        turn_rule(before, event, after, turn),
        turn.ending is Some,
        turn.ending->0 is Ok,
    ensures
        turn.ending->0->Ok_0.ipv4_entries == before.effective.ipv4@.len(),
        turn.ending->0->Ok_0.ipv6_entries == before.effective.ipv6@.len(),
        turn.ending->0->Ok_0.sources@ == before.loaded.summaries@,
        before.plan->0.enable_ipv6 ==> before.phase is Activate && (event
            matches SyncEvent::Activated(result) && result is Ok),
        !before.plan->0.enable_ipv6 ==> before.phase is CleanUpIpv6,
{
    reveal(turn_rule);
}

} // verus!
