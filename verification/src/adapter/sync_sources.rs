//! Providers of the synchronization workflow.

use crate::adapter::blocklist_file::BlocklistNormalizeResult;
use crate::adapter::feed_aggregate::{
    aggregate_limit, chunks_rule, distinct_texts, prepare_remote_networks_in_chunks, FeedFetcher,
    FeedRequest, FeedState, REMOTE_FEEDS_PROVIDER,
};
use crate::adapter::lookup_sources::selected_mode;
use crate::numerals::{decimal, decimal_text};
use crate::policy::blocklist::{entries_of, line_models, BlocklistDocument};
use crate::policy::cidr_order::{sort_distinct, sorted_distinct};
use crate::policy::cidr_text::CidrModel;
use crate::policy::config::{Config, GithubMetaCategoryMode};
use crate::policy::network_types::CanonicalCidr;
use crate::text::views;
use crate::workflow::blocklist_execute::AsnPrefixBatch;
use crate::workflow::error::AppError;
use crate::workflow::paths::{join_path, path_join, ResolvedPaths};
use crate::workflow::ports::{allowed_by, check_cancellation, stopped_by, verdicts};
use crate::workflow::source::{
    descriptor_ids, info_model, notice_models, warning_model, FailurePolicy, Notice, NoticeModel,
    SourceRole, StagedPromotion, SyncSourceBatch, SyncSourceContext, SyncSourceDescriptor,
    SyncSourceLoad, SyncSourceProvider, SyncSourceRegistry,
};
use vstd::prelude::*;

verus! {

/// Marker of the normalized blocklist below the cache directory.
pub const BLOCKLIST_FAST_STATE_FILE: &'static str = "blocklist-normalize.fast-state";

/// Identifier of the GitHub provider.
pub const GITHUB_PROVIDER: &'static str = "github-metadata";

/// A request for the GitHub safelist.
#[derive(Debug, Clone, Copy)]
pub struct GithubRequest<'a> {
    /// User agent to fetch with.
    pub user_agent: &'a String,
    /// Timeout for one request, in seconds.
    pub timeout_secs: u32,
    /// Directory of the remote cache.
    pub cache_dir: &'a String,
    /// Configured endpoint.
    pub url: &'a String,
    /// Configured category selection.
    pub mode: &'a GithubMetaCategoryMode,
    /// Recognized Kidobo environment values, as name and value.
    pub env: &'a Vec<(String, String)>,
}

/// The GitHub safelist, what was cached before it, and the cache selection that was staged.
pub struct GithubPreparation {
    /// Networks to use.
    pub primary: Vec<CanonicalCidr>,
    /// Networks that were selected before.
    pub fallback: Option<Vec<CanonicalCidr>>,
    /// The cache selection.
    pub promotion: Option<StagedPromotion>,
    /// Why the networks could not be staged, where they were taken from the cache instead.
    pub staging_failure: Option<String>,
}

/// Does the outside work of the providers.
pub trait SourceWork: FeedFetcher {
    /// Normalizes the local blocklist unless its marker says that it has not changed.
    fn normalize_blocklist(&self, path: &String, fast_state_path: &String) -> (result: Result<
        BlocklistNormalizeResult,
        AppError,
    >);

    /// Loads the local blocklist.
    fn load_blocklist(&self, path: &String) -> (document: Result<BlocklistDocument, AppError>);

    /// Prepares the GitHub safelist, or tells why its cache could not be staged.
    fn prepare_github(&self, request: GithubRequest<'_>) -> (preparation: Result<
        GithubPreparation,
        String,
    >);

    /// Loads the prefixes of an ASN, or tells why they cannot be had.
    fn asn_prefixes(&self, asn: u32, cache_dir: &String, stale_after_secs: u32) -> (batch: Result<
        AsnPrefixBatch,
        String,
    >);
}

/// Outcome of a provider.
pub type LoadOutcome = Result<SyncSourceLoad, AppError>;

/// The provider gave one batch and nothing else.
pub open spec fn gives_batch(
    load: SyncSourceLoad,
    networks: Seq<CanonicalCidr>,
    notices: Seq<NoticeModel>,
) -> bool {
    &&& load.primary.networks@ == networks
    &&& notice_models(load.primary.notices@) == notices
    &&& load.fallback is None
    &&& load.pending_promotions@.len() == 0
    &&& load.fallback_failure is None
}

// Local blocklist -------------------------------------------------------------------------------

/// Required synchronization provider for the normalized local blocklist.
#[derive(Debug)]
pub struct LocalBlocklistSyncProvider<'a, W: SourceWork> {
    /// Does the outside work.
    pub work: &'a W,
}

/// Notices about a normalization.
pub open spec fn normalization_notices(result: BlocklistNormalizeResult, path: Seq<char>) -> Seq<
    NoticeModel,
> {
    if result is SkippedUnchanged {
        seq![
            info_model("sync blocklist normalization skipped: unchanged path="@ + path),
        ]
    } else {
        Seq::empty()
    }
}

/// What the local blocklist provides once it is normalized.
pub open spec fn document_rule<W: SourceWork>(
    work: &W,
    path: &String,
    normalized: BlocklistNormalizeResult,
    outcome: LoadOutcome,
) -> bool {
    exists|document: Result<BlocklistDocument, AppError>| #[trigger]
        call_ensures(W::load_blocklist, (work, path), document) && match document {
            Ok(loaded) => outcome matches Ok(load) && gives_batch(
                load,
                entries_of(line_models(loaded.lines@)),
                normalization_notices(normalized, path@),
            ),
            Err(error) => outcome == Err::<SyncSourceLoad, AppError>(error),
        }
}

/// What the local blocklist provides.
pub open spec fn local_rule<W: SourceWork>(
    work: &W,
    path: &String,
    cache_dir: Seq<char>,
    outcome: LoadOutcome,
) -> bool {
    exists|state: String, normalized: Result<BlocklistNormalizeResult, AppError>|
        {
            &&& #[trigger] call_ensures(W::normalize_blocklist, (work, path, &state), normalized)
            &&& state@ == path_join(cache_dir, BLOCKLIST_FAST_STATE_FILE@)
            &&& match normalized {
                Ok(result) => document_rule(work, path, result, outcome),
                Err(error) => outcome == Err::<SyncSourceLoad, AppError>(error),
            }
        }
}

/// Lists the networks of a document.
fn document_networks(document: &BlocklistDocument) -> (networks: Vec<CanonicalCidr>)
    ensures
        networks@ == entries_of(line_models(document.lines@)),
{
    let ghost all = line_models(document.lines@);
    let mut networks: Vec<CanonicalCidr> = Vec::new();
    let mut i: usize = 0;
    assert(all.take(0) =~= Seq::empty());
    while i < document.lines.len()
        invariant
            i <= document.lines@.len(),
            all == line_models(document.lines@),
            networks@ == entries_of(all.take(i as int)),
        decreases document.lines@.len() - i,
    {
        proof {
            assert(all.take(i + 1).drop_last() =~= all.take(i as int));
            assert(all.take(i + 1).last() == document.lines@[i as int]@);
        }
        if let Some(cidr) = document.lines[i].canonical {
            networks.push(cidr);
        }
        i += 1;
    }
    assert(all.take(i as int) =~= all);
    networks
}

impl<'a, W: SourceWork> LocalBlocklistSyncProvider<'a, W> {
    /// Loads the normalized local blocklist.
    pub fn batch(&self, context: &SyncSourceContext<'_>) -> (outcome: LoadOutcome)
        ensures
            stopped_by(verdicts(context.cancellation), outcome) || allowed_by(
                verdicts(context.cancellation),
            ) && local_rule(
                self.work,
                &context.paths.blocklist_file,
                context.paths.cache_dir@,
                outcome,
            ),
    {
        if let Err(error) = check_cancellation(context.cancellation) {
            return Err(error);
        }
        let path: &String = &context.paths.blocklist_file;
        let state: String = join_path(context.paths.cache_dir.as_str(), BLOCKLIST_FAST_STATE_FILE);
        let normalized: Result<BlocklistNormalizeResult, AppError> = self.work.normalize_blocklist(
            path,
            &state,
        );
        assert(call_ensures(
            W::normalize_blocklist,
            (self.work, &context.paths.blocklist_file, &state),
            normalized,
        ));
        let result: BlocklistNormalizeResult = match normalized {
            Ok(result) => result,
            Err(error) => {
                return Err(error);
            },
        };
        let mut notices: Vec<Notice> = Vec::new();
        if let BlocklistNormalizeResult::SkippedUnchanged = result {
            let mut text: String =
                "sync blocklist normalization skipped: unchanged path=".to_owned();
            text.append(path.as_str());
            notices.push(Notice::info(text.as_str()));
        }
        assert(notice_models(notices@) =~= normalization_notices(result, path@));
        let document: Result<BlocklistDocument, AppError> = self.work.load_blocklist(path);
        assert(call_ensures(
            W::load_blocklist,
            (self.work, &context.paths.blocklist_file),
            document,
        ));
        match document {
            Ok(loaded) => Ok(
                SyncSourceLoad::ready(
                    SyncSourceBatch { networks: document_networks(&loaded), notices },
                ),
            ),
            Err(error) => Err(error),
        }
    }
}

// Remote feeds ----------------------------------------------------------------------------------

/// Best-effort synchronization provider for configured remote feeds.
#[derive(Debug)]
pub struct RemoteFeedsSyncProvider<'a, W: SourceWork> {
    /// Does the outside work.
    pub work: &'a W,
    /// User agent to fetch with.
    pub user_agent: String,
}

/// What the configured feeds provide.
pub open spec fn feeds_rule<W: SourceWork>(
    work: &W,
    plan: FeedRequest<'_>,
    checks: spec_fn(Result<(), AppError>) -> bool,
    outcome: LoadOutcome,
) -> bool {
    exists|start: FeedState|
        {
            &&& start.networks == Set::<CidrModel>::empty()
            &&& start.notices.len() == 0
            &&& start.promotions.len() == 0
            &&& #[trigger] chunks_rule(
                work,
                plan,
                checks,
                distinct_texts(views(plan.urls@)),
                aggregate_limit(plan.maxelem) as usize,
                start,
                outcome,
            )
        }
}

/// The request that the configuration makes of the feeds.
pub open spec fn feed_plan<'a>(
    user_agent: &'a String,
    config: &'a Config,
    paths: &'a ResolvedPaths,
    env: &'a Vec<(String, String)>,
) -> FeedRequest<'a> {
    FeedRequest {
        urls: &config.remote.urls,
        user_agent,
        timeout_secs: config.remote.timeout_secs@,
        cache_dir: &paths.remote_cache_dir,
        env,
        maxelem: config.ipset.maxelem@,
    }
}

impl<'a, W: SourceWork> RemoteFeedsSyncProvider<'a, W> {
    /// Creates a remote provider with the supplied HTTP user agent.
    pub fn new(work: &'a W, user_agent: &str) -> (provider: RemoteFeedsSyncProvider<'a, W>)
        ensures
            provider.work == work,
            provider.user_agent@ == user_agent@,
    {
        RemoteFeedsSyncProvider { work, user_agent: user_agent.to_owned() }
    }

    /// Loads the configured feeds.
    pub fn batch(&self, context: &SyncSourceContext<'_>) -> (outcome: LoadOutcome)
        ensures
            feeds_rule(
                self.work,
                feed_plan(&self.user_agent, context.config, context.paths, context.env),
                verdicts(context.cancellation),
                outcome,
            ),
    {
        let plan: FeedRequest<'_> = FeedRequest {
            urls: &context.config.remote.urls,
            user_agent: &self.user_agent,
            timeout_secs: context.config.remote.timeout_secs.get(),
            cache_dir: &context.paths.remote_cache_dir,
            env: context.env,
            maxelem: context.config.ipset.maxelem.get(),
        };
        prepare_remote_networks_in_chunks(self.work, plan, context.cancellation)
    }
}

// Configured safelist ---------------------------------------------------------------------------

/// Required synchronization provider for explicit configuration safelist entries.
#[derive(Debug, Default, Clone, Copy)]
pub struct ConfigSafelistSyncProvider;

/// Copies networks.
fn copy_networks(networks: &Vec<CanonicalCidr>) -> (copy: Vec<CanonicalCidr>)
    ensures
        copy@ == networks@,
{
    let mut copy: Vec<CanonicalCidr> = Vec::new();
    let mut i: usize = 0;
    while i < networks.len()
        invariant
            i <= networks@.len(),
            copy@ == networks@.take(i as int),
        decreases networks@.len() - i,
    {
        copy.push(networks[i]);
        i += 1;
        assert(copy@ =~= networks@.take(i as int));
    }
    assert(copy@ =~= networks@);
    copy
}

impl ConfigSafelistSyncProvider {
    /// Lists the configured safelist.
    pub fn batch(&self, context: &SyncSourceContext<'_>) -> (outcome: LoadOutcome)
        ensures
            outcome matches Ok(load) && gives_batch(
                load,
                context.config.safe.ips@,
                Seq::empty(),
            ),
    {
        let load: SyncSourceLoad = SyncSourceLoad::ready(
            SyncSourceBatch {
                networks: copy_networks(&context.config.safe.ips),
                notices: Vec::new(),
            },
        );
        assert(notice_models(load.primary.notices@) =~= Seq::<NoticeModel>::empty());
        Ok(load)
    }
}

// GitHub ----------------------------------------------------------------------------------------

/// Best-effort synchronization provider for GitHub metadata safelist networks.
#[derive(Debug)]
pub struct GithubMetadataSyncProvider<'a, W: SourceWork> {
    /// Does the outside work.
    pub work: &'a W,
    /// User agent to fetch with.
    pub user_agent: String,
}

/// The failure of staging the GitHub cache.
pub open spec fn is_staging_failure(error: AppError, reason: Seq<char>) -> bool {
    error matches AppError::CacheStaging { provider, reason: why } && provider@ == GITHUB_PROVIDER@
        && why@ == reason
}

/// What a prepared GitHub safelist provides.
pub open spec fn preparation_rule(
    preparation: Result<GithubPreparation, String>,
    outcome: LoadOutcome,
) -> bool {
    match preparation {
        Err(reason) => outcome matches Err(error) && is_staging_failure(error, reason@),
        Ok(prepared) => outcome matches Ok(load) && {
            &&& load.primary.networks == prepared.primary
            &&& load.primary.notices@.len() == 0
            &&& match prepared.fallback {
                Some(networks) => load.fallback matches Some(batch) && batch.networks == networks
                    && batch.notices@.len() == 0,
                None => load.fallback is None,
            }
            &&& load.pending_promotions@ == (match prepared.promotion {
                Some(promotion) => seq![promotion],
                None => Seq::empty(),
            })
            &&& match prepared.staging_failure {
                Some(reason) => load.fallback_failure matches Some(error) && is_staging_failure(
                    error,
                    reason@,
                ),
                None => load.fallback_failure is None,
            }
        },
    }
}

/// What the GitHub safelist provides: nothing where it is not configured.
pub open spec fn github_load_rule<W: SourceWork>(
    work: &W,
    user_agent: &String,
    config: &Config,
    paths: &ResolvedPaths,
    env: &Vec<(String, String)>,
    outcome: LoadOutcome,
) -> bool {
    if !config.safe.include_github_meta {
        outcome matches Ok(load) && gives_batch(load, Seq::empty(), Seq::empty())
    } else {
        exists|request: GithubRequest<'_>, preparation: Result<GithubPreparation, String>|
            {
                &&& #[trigger] call_ensures(W::prepare_github, (work, request), preparation)
                &&& request.user_agent == user_agent
                &&& request.timeout_secs == config.remote.timeout_secs@
                &&& request.cache_dir == &paths.remote_cache_dir
                &&& request.url == &config.safe.github_meta_url
                &&& request.mode@ == selected_mode(*config)
                &&& request.env == env
                &&& preparation_rule(preparation, outcome)
            }
    }
}

impl<'a, W: SourceWork> GithubMetadataSyncProvider<'a, W> {
    /// Creates a GitHub metadata provider with the supplied HTTP user agent.
    pub fn new(work: &'a W, user_agent: &str) -> (provider: GithubMetadataSyncProvider<'a, W>)
        ensures
            provider.work == work,
            provider.user_agent@ == user_agent@,
    {
        GithubMetadataSyncProvider { work, user_agent: user_agent.to_owned() }
    }

    /// Loads the GitHub safelist.
    pub fn batch(&self, context: &SyncSourceContext<'_>) -> (outcome: LoadOutcome)
        ensures
            github_load_rule(
                self.work,
                &self.user_agent,
                context.config,
                context.paths,
                context.env,
                outcome,
            ),
    {
        if !context.config.safe.include_github_meta {
            let load: SyncSourceLoad = SyncSourceLoad::ready(
                SyncSourceBatch { networks: Vec::new(), notices: Vec::new() },
            );
            assert(notice_models(load.primary.notices@) =~= Seq::<NoticeModel>::empty());
            assert(load.primary.networks@ =~= Seq::<CanonicalCidr>::empty());
            return Ok(load);
        }
        let mode: GithubMetaCategoryMode = context.config.safe.github_meta_category_mode();
        let request: GithubRequest<'_> = GithubRequest {
            user_agent: &self.user_agent,
            timeout_secs: context.config.remote.timeout_secs.get(),
            cache_dir: &context.paths.remote_cache_dir,
            url: &context.config.safe.github_meta_url,
            mode: &mode,
            env: context.env,
        };
        let preparation: Result<GithubPreparation, String> = self.work.prepare_github(request);
        let ghost came = preparation;
        assert(call_ensures(W::prepare_github, (self.work, request), came));
        match preparation {
            Err(reason) => Err(AppError::CacheStaging { provider: GITHUB_PROVIDER, reason }),
            Ok(prepared) => {
                let fallback: Option<SyncSourceBatch> = match prepared.fallback {
                    Some(networks) => Some(SyncSourceBatch { networks, notices: Vec::new() }),
                    None => None,
                };
                let mut pending_promotions: Vec<StagedPromotion> = Vec::new();
                if let Some(promotion) = prepared.promotion {
                    pending_promotions.push(promotion);
                }
                let fallback_failure: Option<AppError> = match prepared.staging_failure {
                    Some(reason) => Some(
                        AppError::CacheStaging { provider: GITHUB_PROVIDER, reason },
                    ),
                    None => None,
                };
                let load: SyncSourceLoad = SyncSourceLoad {
                    primary: SyncSourceBatch { networks: prepared.primary, notices: Vec::new() },
                    fallback,
                    pending_promotions,
                    fallback_failure,
                };
                proof {
                    assert(load.pending_promotions@ =~= (match came->Ok_0.promotion {
                        Some(promotion) => seq![promotion],
                        None => Seq::empty(),
                    }));
                }
                Ok(load)
            },
        }
    }
}

// ASN bans --------------------------------------------------------------------------------------

/// Required synchronization provider for configured ASN prefix caches and refreshes.
#[derive(Debug)]
pub struct AsnBansSyncProvider<'a, W: SourceWork> {
    /// Does the outside work.
    pub work: &'a W,
}

/// Each ASN was answered with prefixes.
pub open spec fn asn_batches<W: SourceWork>(
    work: &W,
    dir: String,
    stale_after_secs: u32,
    asns: Seq<u32>,
    batches: Seq<AsnPrefixBatch>,
) -> bool {
    &&& batches.len() == asns.len()
    &&& forall|i: int|
        0 <= i < asns.len() ==> call_ensures(
            W::asn_prefixes,
            (work, #[trigger] asns[i], &dir, stale_after_secs),
            Ok(batches[i]),
        )
}

/// Prefixes of the batches, in order.
pub open spec fn batch_networks(batches: Seq<AsnPrefixBatch>) -> Seq<CanonicalCidr>
    decreases batches.len(),
{
    if batches.len() == 0 {
        Seq::empty()
    } else {
        batch_networks(batches.drop_last()) + batches.last().prefixes@
    }
}

/// Warnings about stale prefixes, in order.
pub open spec fn stale_notices(asns: Seq<u32>, batches: Seq<AsnPrefixBatch>) -> Seq<NoticeModel>
    decreases batches.len(),
{
    if batches.len() == 0 {
        Seq::empty()
    } else {
        let before = stale_notices(asns.drop_last(), batches.drop_last());
        if batches.last().stale {
            before.push(
                warning_model(
                    "ASN cache refresh failed; using stale prefixes for AS"@ + decimal(
                        asns.last() as nat,
                    ),
                ),
            )
        } else {
            before
        }
    }
}

/// What the banned ASNs provide: the prefixes of all, or the failure of the first that cannot be
/// had, or before which further work was rejected.
pub open spec fn asn_load_rule<W: SourceWork>(
    work: &W,
    checks: spec_fn(Result<(), AppError>) -> bool,
    cache_dir: Seq<char>,
    stale_after_secs: u32,
    asns: Seq<u32>,
    outcome: LoadOutcome,
) -> bool {
    exists|dir: String, batches: Seq<AsnPrefixBatch>|
        {
            &&& dir@ == path_join(cache_dir, "asn"@)
            &&& batches.len() <= asns.len()
            &&& #[trigger] asn_batches(
                work,
                dir,
                stale_after_secs,
                asns.take(batches.len() as int),
                batches,
            )
            &&& batches.len() > 0 ==> allowed_by(checks)
            &&& match outcome {
                Ok(load) => {
                    &&& batches.len() == asns.len()
                    &&& sorted_distinct(batch_networks(batches), load.primary.networks@)
                    &&& gives_batch(
                        load,
                        load.primary.networks@,
                        stale_notices(asns, batches),
                    )
                },
                Err(error) => batches.len() < asns.len() && (stopped_by(checks, outcome) || allowed_by(checks) && (error matches AppError::Asn { reason } && call_ensures(
                    W::asn_prefixes,
                    (work, asns[batches.len() as int], &dir, stale_after_secs),
                    Err(reason),
                ))),
            }
        }
}

impl<'a, W: SourceWork> AsnBansSyncProvider<'a, W> {
    /// Loads the prefixes of banned ASNs.
    pub fn batch(&self, context: &SyncSourceContext<'_>) -> (outcome: LoadOutcome)
        ensures
            asn_load_rule(
                self.work,
                verdicts(context.cancellation),
                context.paths.cache_dir@,
                context.config.asn.cache_stale_after_secs@,
                context.config.asn.banned@,
                outcome,
            ),
    {
        let stale_after: u32 = context.config.asn.cache_stale_after_secs.get();
        let dir: String = join_path(context.paths.cache_dir.as_str(), "asn");
        let asns: &Vec<u32> = &context.config.asn.banned;
        let mut networks: Vec<CanonicalCidr> = Vec::new();
        let mut notices: Vec<Notice> = Vec::new();
        let ghost mut batches: Seq<AsnPrefixBatch> = Seq::empty();
        let mut i: usize = 0;
        proof {
            assert(asns@.take(0) =~= Seq::<u32>::empty());
            assert(notice_models(notices@) =~= stale_notices(asns@.take(0), batches));
        }
        while i < asns.len()
            invariant
                i <= asns@.len(),
                asns@ == context.config.asn.banned@,
                stale_after == context.config.asn.cache_stale_after_secs@,
                dir@ == path_join(context.paths.cache_dir@, "asn"@),
                batches.len() == i,
                i > 0 ==> allowed_by(
                verdicts(context.cancellation),
            ),
                asn_batches(self.work, dir, stale_after, asns@.take(i as int), batches),
                networks@ == batch_networks(batches),
                notice_models(notices@) == stale_notices(asns@.take(i as int), batches),
            decreases asns@.len() - i,
        {
            if let Err(error) = check_cancellation(context.cancellation) {
                return Err(error);
            }
            let asn: u32 = asns[i];
            let reply: Result<AsnPrefixBatch, String> = self.work.asn_prefixes(
                asn,
                &dir,
                stale_after,
            );
            match reply {
                Err(reason) => {
                    assert(call_ensures(
                        W::asn_prefixes,
                        (self.work, asns@[batches.len() as int], &dir, stale_after),
                        Err(reason),
                    ));
                    return Err(AppError::Asn { reason });
                },
                Ok(batch) => {
                    let ghost came = batch;
                    let ghost before = batches;
                    let ghost told = notices@;
                    let ghost known = networks@;
                    proof {
                        assert(call_ensures(
                            W::asn_prefixes,
                            (self.work, asn, &dir, stale_after),
                            Ok(came),
                        ));
                        batches = batches.push(came);
                        let next = asns@.take(i + 1);
                        assert(next.drop_last() =~= asns@.take(i as int));
                        assert(next.last() == asn);
                        assert(batches.drop_last() =~= before);
                        assert forall|k: int| 0 <= k < next.len() implies call_ensures(
                            W::asn_prefixes,
                            (self.work, #[trigger] next[k], &dir, stale_after),
                            Ok(batches[k]),
                        ) by {
                            if k < i {
                                assert(next[k] == asns@.take(i as int)[k]);
                            }
                        }
                    }
                    if batch.stale {
                        let mut text: String =
                            "ASN cache refresh failed; using stale prefixes for AS".to_owned();
                        text.append(decimal_text(asn as u128).as_str());
                        notices.push(Notice::warning(text.as_str()));
                        assert(notice_models(notices@) =~= notice_models(told).push(
                            warning_model(text@),
                        ));
                    }
                    let mut prefixes: Vec<CanonicalCidr> = batch.prefixes;
                    networks.append(&mut prefixes);
                    assert(networks@ =~= known + came.prefixes@);
                },
            }
            i += 1;
        }
        assert(asns@.take(i as int) =~= asns@);
        let unique: Vec<CanonicalCidr> = sort_distinct(networks);
        let load: SyncSourceLoad = SyncSourceLoad::ready(
            SyncSourceBatch { networks: unique, notices },
        );
        assert(load.pending_promotions@.len() == 0);
        Ok(load)
    }
}

// Registry --------------------------------------------------------------------------------------

/// A built-in synchronization provider.
#[derive(Debug)]
pub enum BuiltinSyncProvider<'a, W: SourceWork> {
    /// The local blocklist.
    LocalBlocklist(LocalBlocklistSyncProvider<'a, W>),
    /// Configured remote feeds.
    RemoteFeeds(RemoteFeedsSyncProvider<'a, W>),
    /// The configured safelist.
    ConfigSafelist(ConfigSafelistSyncProvider),
    /// The GitHub safelist.
    GithubMetadata(GithubMetadataSyncProvider<'a, W>),
    /// Banned ASNs.
    AsnBans(AsnBansSyncProvider<'a, W>),
}

/// Descriptor of a built-in provider.
pub open spec fn is_builtin_descriptor<'a, W: SourceWork>(
    provider: BuiltinSyncProvider<'a, W>,
    descriptor: SyncSourceDescriptor,
) -> bool {
    match provider {
        BuiltinSyncProvider::LocalBlocklist(_) => descriptor.id@ == "local-blocklist"@
            && descriptor.role == SourceRole::Candidate && descriptor.failure_policy
            == FailurePolicy::Required,
        BuiltinSyncProvider::RemoteFeeds(_) => descriptor.id@ == REMOTE_FEEDS_PROVIDER@
            && descriptor.role == SourceRole::Candidate && descriptor.failure_policy
            == FailurePolicy::BestEffort,
        BuiltinSyncProvider::ConfigSafelist(_) => descriptor.id@ == "config-safelist"@
            && descriptor.role == SourceRole::Safelist && descriptor.failure_policy
            == FailurePolicy::Required,
        BuiltinSyncProvider::GithubMetadata(_) => descriptor.id@ == GITHUB_PROVIDER@
            && descriptor.role == SourceRole::ExternalSafelist && descriptor.failure_policy
            == FailurePolicy::BestEffort,
        BuiltinSyncProvider::AsnBans(_) => descriptor.id@ == "asn-bans"@ && descriptor.role
            == SourceRole::Candidate && descriptor.failure_policy == FailurePolicy::Required,
    }
}

/// What a built-in provider gives.
pub open spec fn sync_provides<'a, W: SourceWork>(
    provider: BuiltinSyncProvider<'a, W>,
    checks: spec_fn(Result<(), AppError>) -> bool,
    paths: &ResolvedPaths,
    config: &Config,
    env: &Vec<(String, String)>,
    outcome: LoadOutcome,
) -> bool {
    match provider {
        BuiltinSyncProvider::LocalBlocklist(p) => stopped_by(checks, outcome) || allowed_by(checks) && local_rule(p.work, &paths.blocklist_file, paths.cache_dir@, outcome),
        BuiltinSyncProvider::RemoteFeeds(p) => feeds_rule(
            p.work,
            feed_plan(&p.user_agent, config, paths, env),
            checks,
            outcome,
        ),
        BuiltinSyncProvider::ConfigSafelist(_) => outcome matches Ok(load) && gives_batch(
            load,
            config.safe.ips@,
            Seq::empty(),
        ),
        BuiltinSyncProvider::GithubMetadata(p) => github_load_rule(
            p.work,
            &p.user_agent,
            config,
            paths,
            env,
            outcome,
        ),
        BuiltinSyncProvider::AsnBans(p) => asn_load_rule(
            p.work,
            checks,
            paths.cache_dir@,
            config.asn.cache_stale_after_secs@,
            config.asn.banned@,
            outcome,
        ),
    }
}

impl<'a, W: SourceWork> SyncSourceProvider for BuiltinSyncProvider<'a, W> {
    fn descriptor(&self) -> (descriptor: SyncSourceDescriptor)
        ensures
            is_builtin_descriptor(*self, descriptor),
    {
        match self {
            BuiltinSyncProvider::LocalBlocklist(_) => SyncSourceDescriptor {
                id: "local-blocklist",
                role: SourceRole::Candidate,
                failure_policy: FailurePolicy::Required,
            },
            BuiltinSyncProvider::RemoteFeeds(_) => SyncSourceDescriptor {
                id: REMOTE_FEEDS_PROVIDER,
                role: SourceRole::Candidate,
                failure_policy: FailurePolicy::BestEffort,
            },
            BuiltinSyncProvider::ConfigSafelist(_) => SyncSourceDescriptor {
                id: "config-safelist",
                role: SourceRole::Safelist,
                failure_policy: FailurePolicy::Required,
            },
            BuiltinSyncProvider::GithubMetadata(_) => SyncSourceDescriptor {
                id: GITHUB_PROVIDER,
                role: SourceRole::ExternalSafelist,
                failure_policy: FailurePolicy::BestEffort,
            },
            BuiltinSyncProvider::AsnBans(_) => SyncSourceDescriptor {
                id: "asn-bans",
                role: SourceRole::Candidate,
                failure_policy: FailurePolicy::Required,
            },
        }
    }

    fn load(&self, context: &SyncSourceContext<'_>) -> (load: LoadOutcome)
        ensures
            sync_provides(
                *self,
                verdicts(context.cancellation),
                context.paths,
                context.config,
                context.env,
                load,
            ),
    {
        match self {
            BuiltinSyncProvider::LocalBlocklist(provider) => provider.batch(context),
            BuiltinSyncProvider::RemoteFeeds(provider) => provider.batch(context),
            BuiltinSyncProvider::ConfigSafelist(provider) => provider.batch(context),
            BuiltinSyncProvider::GithubMetadata(provider) => provider.batch(context),
            BuiltinSyncProvider::AsnBans(provider) => provider.batch(context),
        }
    }
}

/// Identifiers of the built-in providers, in order.
pub open spec fn builtin_sync_ids() -> Seq<Seq<char>> {
    seq![
        "local-blocklist"@,
        "remote-feeds"@,
        "config-safelist"@,
        "github-metadata"@,
        "asn-bans"@,
    ]
}

/// Builds the complete registry of synchronization source providers.
pub fn build_sync_source_registry<'a, W: SourceWork>(work: &'a W, product_version: &str) -> (registry:
    Result<SyncSourceRegistry<BuiltinSyncProvider<'a, W>>, AppError>)
    ensures
        registry matches Ok(r) && {
            let providers = r.provider_list();
            let agent = "kidobo/"@ + product_version@;
            &&& descriptor_ids(r.descriptor_list()) == builtin_sync_ids()
            &&& providers.len() == 5
            &&& forall|i: int|
                0 <= i < 5 ==> is_builtin_descriptor(
                    #[trigger] providers[i],
                    r.descriptor_list()[i],
                )
            &&& providers[0] == BuiltinSyncProvider::LocalBlocklist(
                LocalBlocklistSyncProvider { work },
            )
            &&& providers[1] matches BuiltinSyncProvider::RemoteFeeds(p) && p.work == work
                && p.user_agent@ == agent
            &&& providers[2] is ConfigSafelist
            &&& providers[3] matches BuiltinSyncProvider::GithubMetadata(p) && p.work == work
                && p.user_agent@ == agent
            &&& providers[4] == BuiltinSyncProvider::AsnBans(AsnBansSyncProvider { work })
        },
{
    proof {
        reveal_strlit("local-blocklist");
        reveal_strlit("remote-feeds");
        reveal_strlit("config-safelist");
        reveal_strlit("github-metadata");
        reveal_strlit("asn-bans");
        assert("local-blocklist"@[0] == 'l' && "config-safelist"@[0] == 'c');
        assert("github-metadata"@[0] == 'g' && "github-metadata"@.len() == 15);
        assert("local-blocklist"@.len() == 15 && "remote-feeds"@.len() == 12);
        assert("config-safelist"@.len() == 15 && "asn-bans"@.len() == 8);
    }
    let mut user_agent: String = "kidobo/".to_owned();
    user_agent.append(product_version);
    let mut registry: SyncSourceRegistry<BuiltinSyncProvider<'a, W>> = SyncSourceRegistry::new();
    let ghost start = descriptor_ids(registry.descriptor_list());
    assert(start =~= Seq::<Seq<char>>::empty());
    registry.register(BuiltinSyncProvider::LocalBlocklist(LocalBlocklistSyncProvider { work }))?;
    assert(descriptor_ids(registry.descriptor_list()) =~= seq!["local-blocklist"@]);
    registry.register(
        BuiltinSyncProvider::RemoteFeeds(
            RemoteFeedsSyncProvider::new(work, user_agent.as_str()),
        ),
    )?;
    assert(descriptor_ids(registry.descriptor_list()) =~= seq![
        "local-blocklist"@,
        "remote-feeds"@,
    ]);
    registry.register(BuiltinSyncProvider::ConfigSafelist(ConfigSafelistSyncProvider))?;
    assert(descriptor_ids(registry.descriptor_list()) =~= seq![
        "local-blocklist"@,
        "remote-feeds"@,
        "config-safelist"@,
    ]);
    registry.register(
        BuiltinSyncProvider::GithubMetadata(
            GithubMetadataSyncProvider::new(work, user_agent.as_str()),
        ),
    )?;
    assert(descriptor_ids(registry.descriptor_list()) =~= seq![
        "local-blocklist"@,
        "remote-feeds"@,
        "config-safelist"@,
        "github-metadata"@,
    ]);
    registry.register(BuiltinSyncProvider::AsnBans(AsnBansSyncProvider { work }))?;
    assert(descriptor_ids(registry.descriptor_list()) =~= builtin_sync_ids());
    Ok(registry)
}

} // verus!
