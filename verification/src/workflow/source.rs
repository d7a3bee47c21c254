//! Registries and contracts for synchronization and offline lookup sources.

use crate::ordering::{sort_stable, stably_sorted, Ranked};
use crate::policy::config::Config;
use crate::policy::lookup::LookupSourceEntry;
use crate::policy::network_types::CanonicalCidr;
use crate::text::{
    lemma_text_le_antisymmetric, lemma_text_le_total, lemma_text_le_transitive, same_text, text_le,
    text_le_str,
};
use crate::workflow::error::AppError;
use crate::workflow::paths::ResolvedPaths;
use crate::workflow::ports::{allowed_by, check_cancellation, stopped_by, verdicts, Cancellation};
use vstd::prelude::*;

verus! {

/// How a synchronization source contributes networks to the effective blocklist.
#[derive(Debug, Clone, Copy, PartialEq, Eq, Structural)]
pub enum SourceRole {
    /// Networks are candidates for enforcement.
    Candidate,
    /// Networks are carved out of candidate ranges.
    Safelist,
    /// Externally controlled networks are carved out only after admission checks.
    ExternalSafelist,
}

/// Whether a source failure aborts synchronization.
#[derive(Debug, Clone, Copy, PartialEq, Eq, Structural)]
pub enum FailurePolicy {
    /// A usable result is required for synchronization to continue.
    Required,
    /// A failure becomes an operator-visible warning and synchronization continues.
    BestEffort,
}

/// Stable metadata controlling a synchronization provider's workflow policy.
#[derive(Debug, Clone, Copy, PartialEq, Eq)]
pub struct SyncSourceDescriptor {
    /// Unique stable provider identifier.
    pub id: &'static str,
    /// Whether networks are candidates or safelist entries.
    pub role: SourceRole,
    /// Required or best-effort error policy.
    pub failure_policy: FailurePolicy,
}

/// Operator-visible notice severity.
#[derive(Debug, Clone, Copy, PartialEq, Eq, Structural)]
pub enum NoticeLevel {
    /// Informational status that does not indicate degraded behavior.
    Info,
    /// Warning about degraded or incomplete behavior.
    Warning,
}

/// Structured application notice rendered by the CLI layer.
#[derive(Debug, Clone, PartialEq, Eq)]
pub struct Notice {
    /// Notice severity.
    pub level: NoticeLevel,
    /// Human-readable operator message.
    pub message: String,
}

/// Contents of a notice.
pub struct NoticeModel {
    pub level: NoticeLevel,
    pub message: Seq<char>,
}

impl View for Notice {
    type V = NoticeModel;

    open spec fn view(&self) -> NoticeModel {
        NoticeModel { level: self.level, message: self.message@ }
    }
}

/// Contents of notices, in order.
pub open spec fn notice_models(notices: Seq<Notice>) -> Seq<NoticeModel> {
    notices.map_values(|n: Notice| n@)
}

/// A warning with the text.
pub open spec fn warning_model(message: Seq<char>) -> NoticeModel {
    NoticeModel { level: NoticeLevel::Warning, message }
}

/// An informational notice with the text.
pub open spec fn info_model(message: Seq<char>) -> NoticeModel {
    NoticeModel { level: NoticeLevel::Info, message }
}

impl Notice {
    /// Creates an informational notice.
    pub fn info(message: &str) -> (notice: Notice)
        ensures
            notice@ == info_model(message@),
    {
        Notice { level: NoticeLevel::Info, message: message.to_owned() }
    }

    /// Creates a warning notice.
    pub fn warning(message: &str) -> (notice: Notice)
        ensures
            notice@ == warning_model(message@),
    {
        Notice { level: NoticeLevel::Warning, message: message.to_owned() }
    }
}

/// Networks and notices loaded by one synchronization provider.
#[derive(Debug, Clone, PartialEq, Eq)]
pub struct SyncSourceBatch {
    /// Canonical networks in the provider's declared role.
    pub networks: Vec<CanonicalCidr>,
    /// Operator-visible provider notices.
    pub notices: Vec<Notice>,
}

impl Default for SyncSourceBatch {
    fn default() -> (batch: SyncSourceBatch)
        ensures
            batch.networks@.len() == 0,
            batch.notices@.len() == 0,
    {
        SyncSourceBatch { networks: Vec::new(), notices: Vec::new() }
    }
}

/// Deferred selection of a fully written cache generation.
pub trait PendingCachePromotion {
    /// Atomically selects the staged generation, or returns a diagnostic.
    fn promote(self: Box<Self>) -> (outcome: Result<(), String>);
}

/// The selection, whatever implements it, was made or failed.
#[verifier::opaque]
pub open spec fn promoted<S: PendingCachePromotion + ?Sized>(
    selection: Box<S>,
    outcome: Result<(), String>,
) -> bool {
    call_ensures(S::promote, (selection,), outcome)
}

/// Makes the selection.
pub fn promote_selection<S: PendingCachePromotion + ?Sized>(selection: Box<S>) -> (outcome: Result<
    (),
    String,
>)
    ensures
        promoted(selection, outcome),
{
    reveal(promoted);
    selection.promote()
}

/// One cache selection that a provider staged.
pub struct StagedPromotion {
    /// The selection.
    pub selection: Box<dyn PendingCachePromotion>,
}

/// Primary source data, an optional validated fallback, and deferred cache selections.
pub struct SyncSourceLoad {
    /// Preferred batch for this synchronization attempt.
    pub primary: SyncSourceBatch,
    /// Previously selected compatible batch, when distinct from the primary.
    pub fallback: Option<SyncSourceBatch>,
    /// Cache manifests selected only after semantic and capacity preflight succeeds.
    pub pending_promotions: Vec<StagedPromotion>,
    /// Persistence failure that must abort sync if neither cached batch passes admission.
    pub fallback_failure: Option<AppError>,
}

impl Default for SyncSourceLoad {
    fn default() -> (load: SyncSourceLoad)
        ensures
            load.primary.networks@.len() == 0,
            load.primary.notices@.len() == 0,
            load.fallback is None,
            load.pending_promotions@.len() == 0,
            load.fallback_failure is None,
    {
        SyncSourceLoad::ready(SyncSourceBatch::default())
    }
}

impl SyncSourceLoad {
    /// Wraps a source batch that has no deferred cache work.
    pub fn ready(primary: SyncSourceBatch) -> (load: SyncSourceLoad)
        ensures
            load.primary == primary,
            load.fallback is None,
            load.pending_promotions@.len() == 0,
            load.fallback_failure is None,
    {
        SyncSourceLoad {
            primary,
            fallback: None,
            pending_promotions: Vec::new(),
            fallback_failure: None,
        }
    }
}

/// Read-only context supplied to synchronization providers.
pub struct SyncSourceContext<'a> {
    /// Cancellation checked before starting another source operation.
    pub cancellation: &'a dyn Cancellation,
    /// Pre-resolved runtime paths.
    pub paths: &'a ResolvedPaths,
    /// Validated active configuration.
    pub config: &'a Config,
    /// Recognized Kidobo environment values, as name and value.
    pub env: &'a Vec<(String, String)>,
}

/// Provider of one candidate or safelist batch for synchronization.
pub trait SyncSourceProvider {
    /// Returns stable provider identity and workflow policy.
    fn descriptor(&self) -> (descriptor: SyncSourceDescriptor);

    /// Loads one batch of candidate or safelist networks.
    ///
    /// The registry descriptor determines whether the sync workflow treats a failure as required
    /// or best effort.
    fn load(&self, context: &SyncSourceContext<'_>) -> (load: Result<SyncSourceLoad, AppError>);
}

/// Identifiers of descriptors, in order.
pub open spec fn descriptor_ids(descriptors: Seq<SyncSourceDescriptor>) -> Seq<Seq<char>> {
    descriptors.map_values(|d: SyncSourceDescriptor| d.id@)
}

/// Ordered collection of uniquely identified synchronization providers.
pub struct SyncSourceRegistry<P: SyncSourceProvider> {
    providers: Vec<P>,
    registered: Vec<SyncSourceDescriptor>,
}

impl<P: SyncSourceProvider> Default for SyncSourceRegistry<P> {
    fn default() -> (registry: SyncSourceRegistry<P>)
        ensures
            registry.provider_list().len() == 0,
            registry.descriptor_list().len() == 0,
    {
        SyncSourceRegistry::new()
    }
}

impl<P: SyncSourceProvider> SyncSourceRegistry<P> {
    /// Registered providers, in order.
    pub closed spec fn provider_list(self) -> Seq<P> {
        self.providers@
    }

    /// Descriptors that the providers gave when they were registered.
    pub closed spec fn descriptor_list(self) -> Seq<SyncSourceDescriptor> {
        self.registered@
    }

    /// One descriptor for each provider, and no identifier twice.
    #[verifier::type_invariant]
    spec fn unique_ids(self) -> bool {
        &&& self.providers@.len() == self.registered@.len()
        &&& descriptor_ids(self.registered@).no_duplicates()
    }

    /// Creates an empty registry.
    pub fn new() -> (registry: SyncSourceRegistry<P>)
        ensures
            registry.provider_list().len() == 0,
            registry.descriptor_list().len() == 0,
    {
        SyncSourceRegistry { providers: Vec::new(), registered: Vec::new() }
    }

    /// Registers a synchronization provider by its stable descriptor ID.
    ///
    /// Returns [`AppError::DuplicateSourceProvider`] when the ID is already registered.
    pub fn register(&mut self, provider: P) -> (outcome: Result<(), AppError>)
        ensures
            exists|descriptor: SyncSourceDescriptor|
                {
                    &&& #[trigger] call_ensures(P::descriptor, (&provider,), descriptor)
                    &&& if descriptor_ids(old(self).descriptor_list()).contains(descriptor.id@) {
                        &&& outcome == Err::<(), AppError>(
                            AppError::DuplicateSourceProvider { provider: descriptor.id },
                        )
                        &&& *final(self) == *old(self)
                    } else {
                        &&& outcome is Ok
                        &&& final(self).provider_list() == old(self).provider_list().push(provider)
                        &&& final(self).descriptor_list() == old(self).descriptor_list().push(
                            descriptor,
                        )
                    }
                },
    {
        let descriptor: SyncSourceDescriptor = provider.descriptor();
        let ghost ids = descriptor_ids(self.registered@);
        let mut i: usize = 0;
        while i < self.registered.len()
            invariant
                i <= self.registered@.len(),
                *self == *old(self),
                ids == descriptor_ids(self.registered@),
                forall|k: int| 0 <= k < i ==> #[trigger] ids[k] != descriptor.id@,
                call_ensures(P::descriptor, (&provider,), descriptor),
            decreases self.registered@.len() - i,
        {
            if same_text(self.registered[i].id, descriptor.id) {
                assert(ids[i as int] == descriptor.id@);
                assert(ids.contains(descriptor.id@));
                return Err(AppError::DuplicateSourceProvider { provider: descriptor.id });
            }
            i = i + 1;
        }
        proof {
            use_type_invariant(&*self);
            assert(!ids.contains(descriptor.id@));
            assert(descriptor_ids(self.registered@.push(descriptor)) =~= ids.push(descriptor.id@));
        }
        let mut current: SyncSourceRegistry<P> = SyncSourceRegistry::new();
        std::mem::swap(self, &mut current);
        let SyncSourceRegistry { mut providers, mut registered } = current;
        providers.push(provider);
        registered.push(descriptor);
        *self = SyncSourceRegistry { providers, registered };
        Ok(())
    }

    /// Returns provider descriptors in registration order.
    pub fn descriptors(&self) -> (descriptors: Vec<SyncSourceDescriptor>)
        ensures
            descriptors@ == self.descriptor_list(),
            descriptors@.len() == self.provider_list().len(),
            descriptor_ids(descriptors@).no_duplicates(),
    {
        proof {
            use_type_invariant(self);
        }
        let mut out: Vec<SyncSourceDescriptor> = Vec::new();
        let mut i: usize = 0;
        while i < self.registered.len()
            invariant
                i <= self.registered@.len(),
                out@ == self.registered@.take(i as int),
                descriptor_ids(self.registered@).no_duplicates(),
                self.registered@.len() == self.providers@.len(),
            decreases self.registered@.len() - i,
        {
            out.push(self.registered[i]);
            i = i + 1;
            assert(self.registered@.take(i as int) =~= self.registered@.take(i - 1).push(
                self.registered@[i - 1],
            ));
        }
        assert(self.registered@.take(i as int) =~= self.registered@);
        out
    }

    /// Returns registered providers in order.
    pub fn providers(&self) -> (providers: &[P])
        ensures
            providers@ == self.provider_list(),
    {
        self.providers.as_slice()
    }
}

/// Read-only context supplied to offline lookup providers.
pub struct OfflineLookupContext<'a> {
    /// Cancellation checked between offline providers.
    pub cancellation: &'a dyn Cancellation,
    /// Pre-resolved runtime paths.
    pub paths: &'a ResolvedPaths,
    /// Validated configuration when available; lookup remains usable without it.
    pub config: Option<&'a Config>,
}

/// Provider of local or cached entries for the offline-only lookup workflow.
pub trait OfflineLookupProvider {
    /// Returns the provider's unique stable identifier.
    fn id(&self) -> (id: &'static str);

    /// Returns this provider's offline lookup entries.
    fn offline_entries(&self, context: &OfflineLookupContext<'_>) -> (entries: Result<
        Vec<LookupSourceEntry>,
        AppError,
    >);
}

/// Label and line of the first entry come no later than those of the second.
pub open spec fn source_position_le(a: LookupSourceEntry, b: LookupSourceEntry) -> bool {
    if a.source_label@ != b.source_label@ {
        text_le(a.source_label@, b.source_label@)
    } else {
        text_le(a.source_line@, b.source_line@)
    }
}

impl Ranked for LookupSourceEntry {
    open spec fn ranked_le(self, other: LookupSourceEntry) -> bool {
        source_position_le(self, other)
    }

    proof fn lemma_ranked_total(a: LookupSourceEntry, b: LookupSourceEntry) {
        lemma_text_le_total(a.source_label@, b.source_label@);
        lemma_text_le_total(a.source_line@, b.source_line@);
    }

    proof fn lemma_ranked_transitive(
        a: LookupSourceEntry,
        b: LookupSourceEntry,
        c: LookupSourceEntry,
    ) {
        if a.source_label@ == b.source_label@ && b.source_label@ == c.source_label@ {
            lemma_text_le_transitive(a.source_line@, b.source_line@, c.source_line@);
        } else if a.source_label@ != b.source_label@ && b.source_label@ != c.source_label@ {
            lemma_text_le_transitive(a.source_label@, b.source_label@, c.source_label@);
            if a.source_label@ == c.source_label@ {
                lemma_text_le_antisymmetric(a.source_label@, b.source_label@);
            }
        }
    }

    fn precedes(&self, other: &LookupSourceEntry) -> (before: bool) {
        if same_text(self.source_label.as_str(), other.source_label.as_str()) {
            text_le_str(self.source_line.as_str(), other.source_line.as_str())
        } else {
            text_le_str(self.source_label.as_str(), other.source_label.as_str())
        }
    }
}

/// All entries of the batches, one batch after the other.
pub open spec fn joined_batches(batches: Seq<Vec<LookupSourceEntry>>) -> Seq<LookupSourceEntry>
    decreases batches.len(),
{
    if batches.len() == 0 {
        Seq::empty()
    } else {
        joined_batches(batches.drop_last()) + batches.last()@
    }
}

/// Joins the batches and orders their entries by label and line; entries with the same label and
/// line keep their order.
pub fn merge_offline_entries(batches: Vec<Vec<LookupSourceEntry>>) -> (entries: Vec<
    LookupSourceEntry,
>)
    ensures
        stably_sorted(joined_batches(batches@), entries@),
{
    let ghost all = batches@;
    let mut rest: Vec<Vec<LookupSourceEntry>> = batches;
    let mut entries: Vec<LookupSourceEntry> = Vec::new();
    while rest.len() > 0
        invariant
            joined_batches(all) == joined_batches(rest@) + entries@,
        decreases rest@.len(),
    {
        let ghost before = rest@;
        let ghost tail = entries@;
        if let Some(batch) = rest.pop() {
            assert(before.drop_last() =~= rest@);
            let ghost head = batch@;
            let mut joined: Vec<LookupSourceEntry> = batch;
            joined.append(&mut entries);
            entries = joined;
            assert(joined_batches(rest@) + entries@ =~= joined_batches(rest@) + head + tail);
        }
    }
    assert(joined_batches(rest@) + entries@ =~= entries@);
    sort_stable(entries)
}

/// Batch `i` is what provider `i` returned in the context.
pub open spec fn provided<P: OfflineLookupProvider>(
    providers: Seq<P>,
    context: OfflineLookupContext<'_>,
    batches: Seq<Vec<LookupSourceEntry>>,
) -> bool {
    &&& batches.len() == providers.len()
    &&& forall|i: int|
        0 <= i < providers.len() ==> call_ensures(
            P::offline_entries,
            (&#[trigger] providers[i], &context),
            Ok(batches[i]),
        )
}

/// Entries of all providers in order, or the failure of the first provider that fails or before
/// which a check rejected further work.
pub open spec fn offline_rule<P: OfflineLookupProvider>(
    providers: Seq<P>,
    context: OfflineLookupContext<'_>,
    checks: spec_fn(Result<(), AppError>) -> bool,
    entries: Result<Vec<LookupSourceEntry>, AppError>,
) -> bool {
    exists|batches: Seq<Vec<LookupSourceEntry>>|
        {
            &&& batches.len() <= providers.len()
            &&& #[trigger] provided(providers.take(batches.len() as int), context, batches)
            &&& batches.len() > 0 ==> allowed_by(checks)
            &&& match entries {
                Ok(list) => batches.len() == providers.len() && stably_sorted(
                    joined_batches(batches),
                    list@,
                ),
                Err(error) => batches.len() < providers.len() && (stopped_by(checks, entries)
                    || allowed_by(checks) && call_ensures(
                    P::offline_entries,
                    (&providers[batches.len() as int], &context),
                    Err(error),
                )),
            }
        }
}

/// Ordered collection of uniquely identified offline lookup providers.
pub struct OfflineLookupRegistry<P: OfflineLookupProvider> {
    providers: Vec<P>,
    ids: Vec<&'static str>,
}

impl<P: OfflineLookupProvider> Default for OfflineLookupRegistry<P> {
    fn default() -> (registry: OfflineLookupRegistry<P>)
        ensures
            registry.provider_list().len() == 0,
            registry.id_list().len() == 0,
    {
        OfflineLookupRegistry::new()
    }
}

/// Texts of identifiers, in order.
pub open spec fn id_texts(ids: Seq<&'static str>) -> Seq<Seq<char>> {
    ids.map_values(|id: &'static str| id@)
}

impl<P: OfflineLookupProvider> OfflineLookupRegistry<P> {
    /// Registered providers, in order.
    pub closed spec fn provider_list(self) -> Seq<P> {
        self.providers@
    }

    /// Identifiers that the providers gave when they were registered.
    pub closed spec fn id_list(self) -> Seq<&'static str> {
        self.ids@
    }

    /// One identifier for each provider, and none twice.
    #[verifier::type_invariant]
    spec fn unique_ids(self) -> bool {
        &&& self.providers@.len() == self.ids@.len()
        &&& id_texts(self.ids@).no_duplicates()
    }

    /// Creates an empty registry.
    pub fn new() -> (registry: OfflineLookupRegistry<P>)
        ensures
            registry.provider_list().len() == 0,
            registry.id_list().len() == 0,
    {
        OfflineLookupRegistry { providers: Vec::new(), ids: Vec::new() }
    }

    /// Registers an offline provider by its stable ID.
    ///
    /// Returns [`AppError::DuplicateSourceProvider`] when the ID is already registered.
    pub fn register(&mut self, provider: P) -> (outcome: Result<(), AppError>)
        ensures
            exists|id: &'static str|
                {
                    &&& #[trigger] call_ensures(P::id, (&provider,), id)
                    &&& if id_texts(old(self).id_list()).contains(id@) {
                        &&& outcome == Err::<(), AppError>(
                            AppError::DuplicateSourceProvider { provider: id },
                        )
                        &&& *final(self) == *old(self)
                    } else {
                        &&& outcome is Ok
                        &&& final(self).provider_list() == old(self).provider_list().push(provider)
                        &&& final(self).id_list() == old(self).id_list().push(id)
                    }
                },
    {
        let id: &'static str = provider.id();
        let ghost texts = id_texts(self.ids@);
        let mut i: usize = 0;
        while i < self.ids.len()
            invariant
                i <= self.ids@.len(),
                *self == *old(self),
                texts == id_texts(self.ids@),
                forall|k: int| 0 <= k < i ==> #[trigger] texts[k] != id@,
                call_ensures(P::id, (&provider,), id),
            decreases self.ids@.len() - i,
        {
            if same_text(self.ids[i], id) {
                assert(texts[i as int] == id@);
                assert(texts.contains(id@));
                return Err(AppError::DuplicateSourceProvider { provider: id });
            }
            i = i + 1;
        }
        proof {
            use_type_invariant(&*self);
            assert(!texts.contains(id@));
            assert(id_texts(self.ids@.push(id)) =~= texts.push(id@));
        }
        let mut current: OfflineLookupRegistry<P> = OfflineLookupRegistry::new();
        std::mem::swap(self, &mut current);
        let OfflineLookupRegistry { mut providers, mut ids } = current;
        providers.push(provider);
        ids.push(id);
        *self = OfflineLookupRegistry { providers, ids };
        Ok(())
    }

    /// Loads and deterministically orders entries from every offline provider.
    ///
    /// Stops at the first provider that fails, or before which cancellation rejects further work.
    pub fn load(&self, context: &OfflineLookupContext<'_>) -> (entries: Result<
        Vec<LookupSourceEntry>,
        AppError,
    >)
        ensures
            offline_rule(
                self.provider_list(),
                *context,
                verdicts(context.cancellation),
                entries,
            ),
    {
        let mut batches: Vec<Vec<LookupSourceEntry>> = Vec::new();
        let mut i: usize = 0;
        while i < self.providers.len()
            invariant
                i <= self.providers@.len(),
                i == batches@.len(),
                i > 0 ==> allowed_by(verdicts(context.cancellation)),
                forall|k: int|
                    0 <= k < i ==> call_ensures(
                        P::offline_entries,
                        (&#[trigger] self.providers@[k], context),
                        Ok(batches@[k]),
                    ),
            decreases self.providers@.len() - i,
        {
            assert(provided(self.provider_list().take(i as int), *context, batches@));
            if let Err(error) = check_cancellation(context.cancellation) {
                return Err(error);
            }
            match self.providers[i].offline_entries(context) {
                Ok(batch) => {
                    batches.push(batch);
                },
                Err(error) => {
                    assert(self.provider_list()[i as int] == self.providers@[i as int]);
                    return Err(error);
                },
            }
            i = i + 1;
        }
        assert(provided(self.provider_list().take(i as int), *context, batches@));
        Ok(merge_offline_entries(batches))
    }

    /// Returns provider IDs in registration order.
    pub fn provider_ids(&self) -> (ids: Vec<&'static str>)
        ensures
            ids@ == self.id_list(),
            id_texts(ids@).no_duplicates(),
    {
        proof {
            use_type_invariant(self);
        }
        let mut out: Vec<&'static str> = Vec::new();
        let mut i: usize = 0;
        while i < self.ids.len()
            invariant
                i <= self.ids@.len(),
                out@ == self.ids@.take(i as int),
                id_texts(self.ids@).no_duplicates(),
            decreases self.ids@.len() - i,
        {
            out.push(self.ids[i]);
            i = i + 1;
            assert(self.ids@.take(i as int) =~= self.ids@.take(i - 1).push(self.ids@[i - 1]));
        }
        assert(self.ids@.take(i as int) =~= self.ids@);
        out
    }
}

} // verus!
