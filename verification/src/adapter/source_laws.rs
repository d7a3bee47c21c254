//! What the built-in sources contribute to a synchronization.

use crate::adapter::blocklist_file::BlocklistNormalizeResult;
use crate::adapter::lookup_sources::selected_mode;
use crate::adapter::sync_sources::{
    asn_batches, batch_networks, document_rule, is_builtin_descriptor, preparation_rule,
    stale_notices, sync_provides, BuiltinSyncProvider, GithubPreparation, GithubRequest,
    LoadOutcome, SourceWork,
};
use crate::numerals::decimal;
use crate::policy::blocklist::{entries_of, line_models, BlocklistDocument, LineModel};
use crate::policy::cidr_order::sorted_distinct;
use crate::policy::config::{CategoryModel, Config};
use crate::policy::network_types::CanonicalCidr;
use crate::text::views;
use crate::workflow::blocklist_execute::AsnPrefixBatch;
use crate::workflow::error::AppError;
use crate::workflow::paths::{path_join, ResolvedPaths};
use crate::workflow::source::{FailurePolicy, SourceRole, SyncSourceDescriptor};
use crate::workflow::source::{notice_models, NoticeLevel, NoticeModel};
use vstd::prelude::*;

verus! {

// Banned ASNs -----------------------------------------------------------------------------------

/// One of the replies holds the network.
pub open spec fn some_reply_holds(replies: Seq<AsnPrefixBatch>, network: CanonicalCidr) -> bool {
    exists|i: int| 0 <= i < replies.len() && (#[trigger] replies[i]).prefixes@.contains(network)
}

proof fn lemma_batch_networks(batches: Seq<AsnPrefixBatch>, network: CanonicalCidr)
    ensures
        batch_networks(batches).contains(network) <==> some_reply_holds(batches, network),
    decreases batches.len(),
{
    if batches.len() > 0 {
        let front = batches.drop_last();
        let last = batches.last().prefixes@;
        let before = batch_networks(front);
        let all = batch_networks(batches);
        lemma_batch_networks(front, network);
        if all.contains(network) {
            let k = choose|k: int| 0 <= k < all.len() && all[k] == network;
            if k < before.len() {
                assert(before[k] == network);
                let i = choose|i: int|
                    0 <= i < front.len() && (#[trigger] front[i]).prefixes@.contains(network);
                assert(batches[i].prefixes@.contains(network));
            } else {
                assert(last[k - before.len()] == network);
                assert(batches[batches.len() - 1].prefixes@.contains(network));
            }
        }
        if some_reply_holds(batches, network) {
            let i = choose|i: int|
                0 <= i < batches.len() && (#[trigger] batches[i]).prefixes@.contains(network);
            if i < batches.len() - 1 {
                assert(front[i].prefixes@.contains(network));
                let k = choose|k: int| 0 <= k < before.len() && before[k] == network;
                assert(all[k] == network);
            } else {
                let k = choose|k: int| 0 <= k < last.len() && last[k] == network;
                assert(all[before.len() + k] == network);
            }
        }
    }
}

/// Each banned AS was asked for and answered, from the cache below the cache directory.
pub open spec fn all_answered<W: SourceWork>(
    work: &W,
    cache_dir: Seq<char>,
    stale_after_secs: u32,
    asns: Seq<u32>,
    replies: Seq<AsnPrefixBatch>,
) -> bool {
    exists|dir: String|
        #![trigger dir@]
        dir@ == path_join(cache_dir, "asn"@) && replies.len() == asns.len() && forall|i: int|
            0 <= i < asns.len() ==> call_ensures(
                W::asn_prefixes,
                (work, #[trigger] asns[i], &dir, stale_after_secs),
                Ok::<AsnPrefixBatch, String>(replies[i]),
            )
}

/// Every prefix of every banned AS is blocked, and nothing else is for its sake: when the ASN
/// source loads, each banned AS was answered, and a network is in the batch exactly when it is among
/// the prefixes of the answer for at least one of them.
pub proof fn law_every_prefix_of_every_banned_as_is_loaded<'a, W: SourceWork>(
    provider: BuiltinSyncProvider<'a, W>,
    checks: spec_fn(Result<(), AppError>) -> bool,
    paths: &ResolvedPaths,
    config: &Config,
    env: &Vec<(String, String)>,
    outcome: LoadOutcome,
) -> (replies: Seq<AsnPrefixBatch>)
    requires
        provider is AsnBans,
        sync_provides(provider, checks, paths, config, env, outcome),
        outcome is Ok,
    ensures
        all_answered(
            provider->AsnBans_0.work,
            paths.cache_dir@,
            config.asn.cache_stale_after_secs@,
            config.asn.banned@,
            replies,
        ),
        forall|network: CanonicalCidr| #[trigger]
            outcome->Ok_0.primary.networks@.contains(network) <==> exists|i: int|
                0 <= i < config.asn.banned@.len() && (#[trigger] replies[i]).prefixes@.contains(
                    network,
                ),
{
    let asns = config.asn.banned@;
    let (dir, batches) = choose|dir: String, batches: Seq<AsnPrefixBatch>|
        {
            &&& dir@ == path_join(paths.cache_dir@, "asn"@)
            &&& batches.len() <= asns.len()
            &&& #[trigger] asn_batches(
                provider->AsnBans_0.work,
                dir,
                config.asn.cache_stale_after_secs@,
                asns.take(batches.len() as int),
                batches,
            )
            &&& batches.len() == asns.len()
            &&& sorted_distinct(
                batch_networks(batches),
                outcome->Ok_0.primary.networks@,
            )
        };
    assert(asns.take(asns.len() as int) =~= asns);
    assert(dir@ == path_join(paths.cache_dir@, "asn"@));
    assert forall|network: CanonicalCidr| #[trigger]
        outcome->Ok_0.primary.networks@.contains(network) <==> exists|i: int|
            0 <= i < config.asn.banned@.len() && (#[trigger] batches[i]).prefixes@.contains(
                network,
            ) by {
        lemma_batch_networks(batches, network);
    }
    batches
}

/// A prefix that every answer for one banned AS holds is blocked, whatever the other banned ASes
/// are and wherever among them it stands.
pub proof fn law_other_bans_take_no_prefix_away<'a, W: SourceWork>(
    provider: BuiltinSyncProvider<'a, W>,
    checks: spec_fn(Result<(), AppError>) -> bool,
    paths: &ResolvedPaths,
    config: &Config,
    env: &Vec<(String, String)>,
    outcome: LoadOutcome,
    i: int,
    network: CanonicalCidr,
)
    requires
        provider is AsnBans,
        sync_provides(provider, checks, paths, config, env, outcome),
        outcome is Ok,
        0 <= i < config.asn.banned@.len(),
        forall|dir: String, reply: AsnPrefixBatch|
            #![auto]
            call_ensures(
                W::asn_prefixes,
                (
                    provider->AsnBans_0.work,
                    config.asn.banned@[i],
                    &dir,
                    config.asn.cache_stale_after_secs@,
                ),
                Ok::<AsnPrefixBatch, String>(reply),
            ) ==> reply.prefixes@.contains(network),
    ensures
        outcome->Ok_0.primary.networks@.contains(network),
{
    let replies = law_every_prefix_of_every_banned_as_is_loaded(
        provider,
        checks,
        paths,
        config,
        env,
        outcome,
    );
    let dir = choose|dir: String|
        #![trigger dir@]
        dir@ == path_join(paths.cache_dir@, "asn"@) && replies.len() == config.asn.banned@.len()
            && forall|k: int|
            0 <= k < config.asn.banned@.len() ==> call_ensures(
                W::asn_prefixes,
                (
                    provider->AsnBans_0.work,
                    #[trigger] config.asn.banned@[k],
                    &dir,
                    config.asn.cache_stale_after_secs@,
                ),
                Ok::<AsnPrefixBatch, String>(replies[k]),
            );
    assert(call_ensures(
        W::asn_prefixes,
        (
            provider->AsnBans_0.work,
            config.asn.banned@[i],
            &dir,
            config.asn.cache_stale_after_secs@,
        ),
        Ok::<AsnPrefixBatch, String>(replies[i]),
    ));
    assert(replies[i].prefixes@.contains(network));
}

/// Text of the warning about one AS.
spec fn stale_text(asn: u32) -> Seq<char> {
    "ASN cache refresh failed; using stale prefixes for AS"@ + decimal(asn as nat)
}

proof fn lemma_stale_notices(asns: Seq<u32>, batches: Seq<AsnPrefixBatch>, notice: NoticeModel)
    requires
        asns.len() == batches.len(),
    ensures
        stale_notices(asns, batches).contains(notice) <==> notice.level == NoticeLevel::Warning
            && exists|i: int|
            0 <= i < batches.len() && (#[trigger] batches[i]).stale && notice.message == stale_text(
                asns[i],
            ),
    decreases batches.len(),
{
    if batches.len() > 0 {
        let front = batches.drop_last();
        let before = stale_notices(asns.drop_last(), front);
        let all = stale_notices(asns, batches);
        lemma_stale_notices(asns.drop_last(), front, notice);
        let n = batches.len() - 1;
        if all.contains(notice) {
            let k = choose|k: int| 0 <= k < all.len() && all[k] == notice;
            if k < before.len() {
                assert(before[k] == notice);
                let i = choose|i: int|
                    0 <= i < front.len() && (#[trigger] front[i]).stale && notice.message
                        == stale_text(asns.drop_last()[i]);
                assert(batches[i].stale && notice.message == stale_text(asns[i]));
            } else {
                assert(batches[n].stale && notice.message == stale_text(asns[n]));
            }
        }
        if notice.level == NoticeLevel::Warning && exists|i: int|
            0 <= i < batches.len() && (#[trigger] batches[i]).stale && notice.message == stale_text(
                asns[i],
            ) {
            let i = choose|i: int|
                0 <= i < batches.len() && (#[trigger] batches[i]).stale && notice.message
                    == stale_text(asns[i]);
            if i < n {
                assert(front[i].stale && notice.message == stale_text(asns.drop_last()[i]));
                let k = choose|k: int| 0 <= k < before.len() && before[k] == notice;
                assert(all[k] == notice);
            } else {
                assert(all[all.len() - 1] == notice);
            }
        }
    }
}

/// The ASN source warns about each banned AS whose prefixes are stale, by its number, and about
/// nothing else.
pub proof fn law_stale_prefixes_are_announced<'a, W: SourceWork>(
    provider: BuiltinSyncProvider<'a, W>,
    checks: spec_fn(Result<(), AppError>) -> bool,
    paths: &ResolvedPaths,
    config: &Config,
    env: &Vec<(String, String)>,
    outcome: LoadOutcome,
) -> (replies: Seq<AsnPrefixBatch>)
    requires
        provider is AsnBans,
        sync_provides(provider, checks, paths, config, env, outcome),
        outcome is Ok,
    ensures
        all_answered(
            provider->AsnBans_0.work,
            paths.cache_dir@,
            config.asn.cache_stale_after_secs@,
            config.asn.banned@,
            replies,
        ),
        forall|notice: NoticeModel| #[trigger]
            notice_models(outcome->Ok_0.primary.notices@).contains(notice) <==> notice.level
                == NoticeLevel::Warning && exists|i: int|
                0 <= i < config.asn.banned@.len() && (#[trigger] replies[i]).stale && notice.message
                    == "ASN cache refresh failed; using stale prefixes for AS"@ + decimal(
                    config.asn.banned@[i] as nat,
                ),
{
    let asns = config.asn.banned@;
    let (dir, batches) = choose|dir: String, batches: Seq<AsnPrefixBatch>|
        {
            &&& dir@ == path_join(paths.cache_dir@, "asn"@)
            &&& batches.len() <= asns.len()
            &&& #[trigger] asn_batches(
                provider->AsnBans_0.work,
                dir,
                config.asn.cache_stale_after_secs@,
                asns.take(batches.len() as int),
                batches,
            )
            &&& batches.len() == asns.len()
            &&& notice_models(outcome->Ok_0.primary.notices@) == stale_notices(asns, batches)
        };
    assert(asns.take(asns.len() as int) =~= asns);
    assert(dir@ == path_join(paths.cache_dir@, "asn"@));
    assert forall|notice: NoticeModel| #[trigger]
        notice_models(outcome->Ok_0.primary.notices@).contains(notice) <==> notice.level
            == NoticeLevel::Warning && exists|i: int|
            0 <= i < config.asn.banned@.len() && (#[trigger] batches[i]).stale && notice.message
                == "ASN cache refresh failed; using stale prefixes for AS"@ + decimal(
                config.asn.banned@[i] as nat,
            ) by {
        lemma_stale_notices(asns, batches, notice);
    }
    batches
}

// Local blocklist -------------------------------------------------------------------------------

proof fn lemma_entries(lines: Seq<LineModel>, network: CanonicalCidr)
    ensures
        entries_of(lines).contains(network) <==> exists|i: int|
            0 <= i < lines.len() && (#[trigger] lines[i]).entry == Some(network),
    decreases lines.len(),
{
    if lines.len() > 0 {
        let front = lines.drop_last();
        let before = entries_of(front);
        let all = entries_of(lines);
        lemma_entries(front, network);
        if all.contains(network) {
            let k = choose|k: int| 0 <= k < all.len() && all[k] == network;
            if k < before.len() {
                assert(before[k] == network);
                let i = choose|i: int|
                    0 <= i < front.len() && (#[trigger] front[i]).entry == Some(network);
                assert(lines[i].entry == Some(network));
            } else {
                assert(lines[lines.len() - 1].entry == Some(network));
            }
        }
        if exists|i: int| 0 <= i < lines.len() && (#[trigger] lines[i]).entry == Some(network) {
            let i = choose|i: int|
                0 <= i < lines.len() && (#[trigger] lines[i]).entry == Some(network);
            if i < front.len() {
                assert(front[i].entry == Some(network));
                let k = choose|k: int| 0 <= k < before.len() && before[k] == network;
                assert(all[k] == network);
            } else {
                assert(all[all.len() - 1] == network);
            }
        }
    }
}

/// The entries of a blocklist are those of its lines, and nothing else.
pub proof fn law_blocklist_entries_are_those_of_its_lines(
    document: BlocklistDocument,
    network: CanonicalCidr,
)
    ensures
        entries_of(line_models(document.lines@)).contains(network) <==> exists|i: int|
            0 <= i < document.lines@.len() && (#[trigger] document.lines@[i]).canonical == Some(
                network,
            ),
{
    let models = line_models(document.lines@);
    lemma_entries(models, network);
    if exists|i: int| 0 <= i < models.len() && (#[trigger] models[i]).entry == Some(network) {
        let i = choose|i: int|
            0 <= i < models.len() && (#[trigger] models[i]).entry == Some(network);
        assert(document.lines@[i].canonical == Some(network));
    }
    if exists|i: int|
        0 <= i < document.lines@.len() && (#[trigger] document.lines@[i]).canonical == Some(
            network,
        ) {
        let i = choose|i: int|
            0 <= i < document.lines@.len() && (#[trigger] document.lines@[i]).canonical == Some(
                network,
            );
        assert(models[i].entry == Some(network));
    }
}

/// The local source blocks the networks of the lines of the blocklist, and nothing else: it
/// normalizes the configured file, loads it, and fails where either fails.
pub proof fn law_every_local_entry_is_loaded<'a, W: SourceWork>(
    provider: BuiltinSyncProvider<'a, W>,
    checks: spec_fn(Result<(), AppError>) -> bool,
    paths: &ResolvedPaths,
    config: &Config,
    env: &Vec<(String, String)>,
    outcome: LoadOutcome,
) -> (document: BlocklistDocument)
    requires
        provider is LocalBlocklist,
        sync_provides(provider, checks, paths, config, env, outcome),
        outcome is Ok,
    ensures
        call_ensures(
            W::load_blocklist,
            (provider->LocalBlocklist_0.work, &paths.blocklist_file),
            Ok::<BlocklistDocument, AppError>(document),
        ),
        forall|network: CanonicalCidr| #[trigger]
            outcome->Ok_0.primary.networks@.contains(network) <==> exists|i: int|
                0 <= i < document.lines@.len() && (#[trigger] document.lines@[i]).canonical
                    == Some(network),
        outcome->Ok_0.fallback is None,
        outcome->Ok_0.pending_promotions@.len() == 0,
{
    let work = provider->LocalBlocklist_0.work;
    let path = &paths.blocklist_file;
    let (state, normalized) = choose|
        state: String,
        normalized: Result<BlocklistNormalizeResult, AppError>,
    |
        {
            &&& #[trigger] call_ensures(W::normalize_blocklist, (work, path, &state), normalized)
            &&& normalized is Ok
            &&& document_rule(work, path, normalized->Ok_0, outcome)
        };
    let document = choose|document: Result<BlocklistDocument, AppError>| #[trigger]
        call_ensures(W::load_blocklist, (work, path), document) && document is Ok
            && outcome->Ok_0.primary.networks@ == entries_of(line_models(document->Ok_0.lines@));
    assert forall|network: CanonicalCidr| #[trigger]
        outcome->Ok_0.primary.networks@.contains(network) <==> exists|i: int|
            0 <= i < document->Ok_0.lines@.len() && (#[trigger] document->Ok_0.lines@[i]).canonical
                == Some(network) by {
        law_blocklist_entries_are_those_of_its_lines(document->Ok_0, network);
    }
    document->Ok_0
}

/// A skipped normalization is announced, and nothing else is.
pub proof fn law_skipped_normalization_is_announced<'a, W: SourceWork>(
    provider: BuiltinSyncProvider<'a, W>,
    checks: spec_fn(Result<(), AppError>) -> bool,
    paths: &ResolvedPaths,
    config: &Config,
    env: &Vec<(String, String)>,
    outcome: LoadOutcome,
) -> (normalized: Result<BlocklistNormalizeResult, AppError>)
    requires
        provider is LocalBlocklist,
        sync_provides(provider, checks, paths, config, env, outcome),
        outcome is Ok,
    ensures
        normalized is Ok,
        exists|state: String|
            #[trigger] call_ensures(
                W::normalize_blocklist,
                (provider->LocalBlocklist_0.work, &paths.blocklist_file, &state),
                normalized,
            ) && state@ == path_join(paths.cache_dir@, "blocklist-normalize.fast-state"@),
        notice_models(outcome->Ok_0.primary.notices@) == if normalized->Ok_0 is SkippedUnchanged {
            seq![
                NoticeModel {
                    level: NoticeLevel::Info,
                    message: "sync blocklist normalization skipped: unchanged path="@
                        + paths.blocklist_file@,
                },
            ]
        } else {
            Seq::empty()
        },
{
    let work = provider->LocalBlocklist_0.work;
    let path = &paths.blocklist_file;
    let (state, normalized) = choose|
        state: String,
        normalized: Result<BlocklistNormalizeResult, AppError>,
    |
        {
            &&& #[trigger] call_ensures(W::normalize_blocklist, (work, path, &state), normalized)
            &&& state@ == path_join(paths.cache_dir@, "blocklist-normalize.fast-state"@)
            &&& normalized is Ok
            &&& document_rule(work, path, normalized->Ok_0, outcome)
        };
    normalized
}

// Safelists -------------------------------------------------------------------------------------

/// The configured safe networks are loaded as they stand.
pub proof fn law_configured_safelist_is_loaded<'a, W: SourceWork>(
    provider: BuiltinSyncProvider<'a, W>,
    checks: spec_fn(Result<(), AppError>) -> bool,
    paths: &ResolvedPaths,
    config: &Config,
    env: &Vec<(String, String)>,
    outcome: LoadOutcome,
)
    requires
        provider is ConfigSafelist,
        sync_provides(provider, checks, paths, config, env, outcome),
    ensures
        outcome is Ok,
        outcome->Ok_0.primary.networks@ == config.safe.ips@,
        outcome->Ok_0.primary.notices@.len() == 0,
        outcome->Ok_0.fallback is None,
        outcome->Ok_0.pending_promotions@.len() == 0,
{
    let notices = outcome->Ok_0.primary.notices@;
    assert(notice_models(notices).len() == notices.len());
}

/// Without GitHub metadata in the configuration the source gives nothing; with it, the source
/// asks for the configured address and categories and hands on what was prepared: the networks,
/// the fallback with its failure, and the promotion.
pub proof fn law_github_safelist_follows_the_configuration<'a, W: SourceWork>(
    provider: BuiltinSyncProvider<'a, W>,
    checks: spec_fn(Result<(), AppError>) -> bool,
    paths: &'a ResolvedPaths,
    config: &'a Config,
    env: &'a Vec<(String, String)>,
    outcome: LoadOutcome,
) -> (found: (GithubRequest<'a>, Result<GithubPreparation, String>))
    requires
        provider is GithubMetadata,
        sync_provides(provider, checks, paths, config, env, outcome),
    ensures
        !config.safe.include_github_meta ==> outcome is Ok
            && outcome->Ok_0.primary.networks@.len() == 0
            && outcome->Ok_0.primary.notices@.len() == 0 && outcome->Ok_0.fallback is None
            && outcome->Ok_0.pending_promotions@.len() == 0,
        config.safe.include_github_meta ==> {
            &&& call_ensures(
                W::prepare_github,
                (provider->GithubMetadata_0.work, found.0),
                found.1,
            )
            &&& found.0.url@ == config.safe.github_meta_url@
            &&& found.0.cache_dir@ == paths.remote_cache_dir@
            &&& found.0.timeout_secs == config.remote.timeout_secs@
            &&& found.0.user_agent@ == provider->GithubMetadata_0.user_agent@
            &&& found.0.mode@ == match config.safe.github_meta_categories {
                None => CategoryModel::Default,
                Some(values) => if values@.len() == 0 {
                    CategoryModel::All
                } else {
                    CategoryModel::Explicit(views(values@))
                },
            }
            &&& outcome is Ok <==> found.1 is Ok
            &&& outcome matches Err(error) ==> error matches AppError::CacheStaging {
                provider,
                reason,
            } && provider@ == "github-metadata"@ && reason@ == found.1->Err_0@
            &&& outcome matches Ok(load) ==> {
                &&& load.primary.networks@ == found.1->Ok_0.primary@
                &&& load.fallback is Some <==> found.1->Ok_0.fallback is Some
                &&& load.fallback is Some ==> load.fallback->0.networks@
                    == found.1->Ok_0.fallback->0@
                &&& load.fallback_failure is Some <==> found.1->Ok_0.staging_failure is Some
                &&& forall|promotion|
                    load.pending_promotions@.contains(promotion) <==> found.1->Ok_0.promotion
                        == Some(promotion)
            }
        },
{
    if config.safe.include_github_meta {
        let work = provider->GithubMetadata_0.work;
        let user_agent = &provider->GithubMetadata_0.user_agent;
        let (request, preparation) = choose|
            request: GithubRequest<'_>,
            preparation: Result<GithubPreparation, String>,
        |
            {
                &&& #[trigger] call_ensures(W::prepare_github, (work, request), preparation)
                &&& request.user_agent == user_agent
                &&& request.timeout_secs == config.remote.timeout_secs@
                &&& request.cache_dir == &paths.remote_cache_dir
                &&& request.url == &config.safe.github_meta_url
                &&& request.mode@ == selected_mode(*config)
                &&& request.env == env
                &&& preparation_rule(preparation, outcome)
            };
        if preparation is Ok {
            let promotions = outcome->Ok_0.pending_promotions@;
            assert forall|promotion| #[trigger] promotions.contains(promotion) <==>
                preparation->Ok_0.promotion == Some(promotion) by {
                if preparation->Ok_0.promotion == Some(promotion) {
                    assert(promotions[0] == promotion);
                }
            }
        }
        (request, preparation)
    } else {
        let notices = outcome->Ok_0.primary.notices@;
        assert(notice_models(notices).len() == notices.len());
        arbitrary()
    }
}

/// Blocklists name what is blocked, safelists what is not; the operator's own sources and the
/// bans must load, feeds and GitHub metadata may fail.
pub proof fn law_sources_say_what_they_are<'a, W: SourceWork>(
    provider: BuiltinSyncProvider<'a, W>,
    descriptor: SyncSourceDescriptor,
)
    requires
        is_builtin_descriptor(provider, descriptor),
    ensures
        descriptor.role == SourceRole::Candidate <==> provider is LocalBlocklist
            || provider is RemoteFeeds || provider is AsnBans,
        descriptor.role == SourceRole::Safelist <==> provider is ConfigSafelist,
        descriptor.role == SourceRole::ExternalSafelist <==> provider is GithubMetadata,
        descriptor.failure_policy == FailurePolicy::BestEffort <==> provider is RemoteFeeds
            || provider is GithubMetadata,
        provider is LocalBlocklist ==> descriptor.id@ == "local-blocklist"@,
        provider is RemoteFeeds ==> descriptor.id@ == "remote-feeds"@,
        provider is ConfigSafelist ==> descriptor.id@ == "config-safelist"@,
        provider is GithubMetadata ==> descriptor.id@ == "github-metadata"@,
        provider is AsnBans ==> descriptor.id@ == "asn-bans"@,
{
}

} // verus!
