//! What bans and unbans of autonomous systems do.

use crate::numerals::decimal;
use crate::policy::blocklist::{exactly_matched, line_models, BlocklistDocument, LineModel};
use crate::policy::cidr_order::sorted_distinct;
use crate::policy::config::Config;
use crate::policy::network_types::CanonicalCidr;
use crate::text::views;
use crate::workflow::asn_execute::{
    all_prefixes, cleaned_rule, deleted_count, deleted_rule, deletion_notices, deletions,
    duplicates_rule, loaded_batches, locked_ban_asn_rule, locked_unban_asn_rule, resolution_rule,
    stale_notices, updated_rule, without_duplicates, ResolvedPrefixes,
};
use crate::workflow::blocklist::{kept_texts, line_entries};
use crate::workflow::blocklist_execute::{
    AsnBanOutcome, AsnConfigUpdate, AsnOperations, AsnPrefixBatch, AsnUnbanOutcome,
    BlocklistRepository,
};
use crate::workflow::error::{error_text, AppError};
use crate::workflow::paths::{path_join, ResolvedPaths};
use crate::workflow::ports::ConfigRepository;
use crate::workflow::source::{notice_models, NoticeLevel, NoticeModel};
use vstd::prelude::*;

verus! {

/// The prefixes of one of the systems hold the network.
pub open spec fn some_prefix(batches: Seq<AsnPrefixBatch>, network: CanonicalCidr) -> bool {
    exists|i: int| 0 <= i < batches.len() && (#[trigger] batches[i]).prefixes@.contains(network)
}

proof fn lemma_prefixes(batches: Seq<AsnPrefixBatch>, network: CanonicalCidr)
    ensures
        all_prefixes(batches).contains(network) <==> some_prefix(batches, network),
    decreases batches.len(),
{
    if batches.len() > 0 {
        let front = batches.drop_last();
        let last = batches.last().prefixes@;
        let before = all_prefixes(front);
        let all = all_prefixes(batches);
        lemma_prefixes(front, network);
        if all.contains(network) {
            let k = choose|k: int| 0 <= k < all.len() && all[k] == network;
            if k < before.len() {
                assert(before[k] == network);
                let i = choose|i: int|
                    0 <= i < front.len() && (#[trigger] front[i]).prefixes@.contains(network);
                assert(batches[i].prefixes@.contains(network));
            } else {
                assert(last[k - before.len()] == network);
                assert(batches[batches.len() - 1].prefixes@.contains(network));
            }
        }
        if some_prefix(batches, network) {
            let i = choose|i: int|
                0 <= i < batches.len() && (#[trigger] batches[i]).prefixes@.contains(network);
            if i < front.len() {
                assert(front[i].prefixes@.contains(network));
                let k = choose|k: int| 0 <= k < before.len() && before[k] == network;
                assert(all[k] == network);
            } else {
                let k = choose|k: int| 0 <= k < last.len() && last[k] == network;
                assert(all[before.len() + k] == network);
            }
        }
    }
}

/// The warning that stale prefixes were used.
pub open spec fn stale_warning(asn: u32) -> NoticeModel {
    NoticeModel {
        level: NoticeLevel::Warning,
        message: "ASN cache stale fallback used for AS"@ + decimal(asn as nat),
    }
}

proof fn lemma_stale(asns: Seq<u32>, batches: Seq<AsnPrefixBatch>, i: int)
    requires
        0 <= i < batches.len() <= asns.len(),
        batches[i].stale,
    ensures
        stale_notices(asns, batches).contains(stale_warning(asns[i])),
    decreases batches.len(),
{
    let all = stale_notices(asns, batches);
    if i == batches.len() - 1 {
        assert(all[all.len() - 1] == stale_warning(asns[i]));
    } else {
        let front = batches.drop_last();
        lemma_stale(asns, front, i);
        let before = stale_notices(asns, front);
        let k = choose|k: int| 0 <= k < before.len() && before[k] == stale_warning(asns[i]);
        assert(all[k] == stale_warning(asns[i]));
    }
}

proof fn lemma_without(
    lines: Seq<LineModel>,
    duplicates: Seq<CanonicalCidr>,
    n: nat,
)
    requires
        n <= lines.len(),
    ensures
        ({
            let dropped = |i: int| exactly_matched(line_entries(lines), duplicates, i);
            let kept = kept_texts(lines, dropped, n);
            &&& kept.len() <= n
            &&& kept.len() == n <==> forall|i: int|
                0 <= i < n ==> !((#[trigger] lines[i]).entry is Some && duplicates.contains(
                    lines[i].entry->0,
                ))
            &&& forall|i: int|
                0 <= i < n && !((#[trigger] lines[i]).entry is Some && duplicates.contains(
                    lines[i].entry->0,
                )) ==> kept.contains(lines[i].text)
            &&& forall|text: Seq<char>| #[trigger]
                kept.contains(text) ==> exists|i: int|
                    0 <= i < n && (#[trigger] lines[i]).text == text && !(lines[i].entry is Some
                        && duplicates.contains(lines[i].entry->0))
        }),
    decreases n,
{
    let dropped = |i: int| exactly_matched(line_entries(lines), duplicates, i);
    let kept = kept_texts(lines, dropped, n);
    if n > 0 {
        let m = (n - 1) as nat;
        lemma_without(lines, duplicates, m);
        let before = kept_texts(lines, dropped, m);
        assert(line_entries(lines)[n - 1] == lines[n - 1].entry);
        assert(dropped(n - 1) <==> lines[n - 1].entry is Some && duplicates.contains(
            lines[n - 1].entry->0,
        ));
        assert forall|i: int|
            0 <= i < n && !((#[trigger] lines[i]).entry is Some && duplicates.contains(
                lines[i].entry->0,
            )) implies kept.contains(lines[i].text) by {
            if i < m {
                let k = choose|k: int| 0 <= k < before.len() && before[k] == lines[i].text;
                assert(kept[k] == lines[i].text);
            } else {
                assert(kept[kept.len() - 1] == lines[i].text);
            }
        }
        assert forall|text: Seq<char>| #[trigger] kept.contains(text) implies exists|i: int|
            0 <= i < n && (#[trigger] lines[i]).text == text && !(lines[i].entry is Some
                && duplicates.contains(lines[i].entry->0)) by {
            let k = choose|k: int| 0 <= k < kept.len() && kept[k] == text;
            if k < before.len() {
                assert(before[k] == text);
                assert(before.contains(text));
            } else {
                assert(lines[n - 1].text == text);
            }
        }
    }
}

/// A ban of systems that succeeds loaded the prefixes of each of them with the configured age of
/// the cache, entered all of them into the configuration, removing none, and announces each stale
/// cache. What is left to remove from the blocklist are the prefixes of all of them, and nothing
/// else; where that fails the ban stands, and the failure is announced.
pub proof fn law_asn_ban_covers_every_system<
    C: ConfigRepository,
    R: BlocklistRepository,
    A: AsnOperations,
>(
    configs: &C,
    repository: &R,
    asn: &A,
    paths: ResolvedPaths,
    asns: Vec<u32>,
    outcome: AsnBanOutcome,
) -> (found: (Config, Seq<AsnPrefixBatch>, Seq<CanonicalCidr>, Result<usize, AppError>))
    requires
        locked_ban_asn_rule(configs, repository, asn, paths, asns, Ok(outcome)),
    ensures
        call_ensures(C::load, (configs, &paths.config_file), Ok::<Config, AppError>(found.0)),
        found.1.len() == asns@.len(),
        exists|cache_dir: String|
            #![trigger cache_dir@]
            cache_dir@ == path_join(paths.cache_dir@, "asn"@) && forall|i: int|
                0 <= i < asns@.len() ==> call_ensures(
                    A::load_prefixes,
                    (
                        asn,
                        #[trigger] asns@[i],
                        &cache_dir,
                        found.0.asn.cache_stale_after_secs@ as u64,
                    ),
                    Ok::<AsnPrefixBatch, AppError>(found.1[i]),
                ),
        exists|none: Vec<u32>, update: AsnConfigUpdate|
            none@.len() == 0 && outcome.added == update.added && #[trigger] call_ensures(
                A::update_config,
                (asn, &paths.config_file, &asns, &none),
                Ok::<AsnConfigUpdate, AppError>(update),
            ),
        forall|network: CanonicalCidr| #[trigger]
            found.2.contains(network) <==> some_prefix(found.1, network),
        duplicates_rule(repository, paths.blocklist_file, found.2, found.3),
        forall|i: int|
            0 <= i < asns@.len() && (#[trigger] found.1[i]).stale ==> notice_models(
                outcome.notices@,
            ).contains(stale_warning(asns@[i])),
        found.3 matches Ok(count) ==> outcome.removed_duplicate_entries == count,
        found.3 matches Err(error) ==> outcome.removed_duplicate_entries == 0 && notice_models(
            outcome.notices@,
        ).contains(
            NoticeModel {
                level: NoticeLevel::Warning,
                message: "ASN ban duplicate cleanup failed after config update: "@ + error_text(
                    error,
                ),
            },
        ),
{
    let wanted = Ok::<AsnBanOutcome, AppError>(outcome);
    let loaded = choose|config: Result<Config, AppError>|
        {
            &&& #[trigger] call_ensures(C::load, (configs, &paths.config_file), config)
            &&& config is Ok
            &&& exists|cache_dir: String, resolved: Result<ResolvedPrefixes, AppError>|
                {
                    &&& #[trigger] resolution_rule(
                        asn,
                        asns@,
                        cache_dir,
                        config->Ok_0.asn.cache_stale_after_secs@ as u64,
                        resolved,
                    )
                    &&& cache_dir@ == path_join(paths.cache_dir@, "asn"@)
                    &&& resolved is Ok
                    &&& updated_rule(repository, asn, paths, asns, resolved->Ok_0, wanted)
                }
        };
    let config = loaded->Ok_0;
    let stale_after = config.asn.cache_stale_after_secs@ as u64;
    let (cache_dir, reply) = choose|
        cache_dir: String,
        resolved: Result<ResolvedPrefixes, AppError>,
    |
        {
            &&& #[trigger] resolution_rule(asn, asns@, cache_dir, stale_after, resolved)
            &&& cache_dir@ == path_join(paths.cache_dir@, "asn"@)
            &&& resolved is Ok
            &&& updated_rule(repository, asn, paths, asns, resolved->Ok_0, wanted)
        };
    let resolved = reply->Ok_0;
    let batches = choose|batches: Seq<AsnPrefixBatch>|
        {
            &&& #[trigger] loaded_batches(asn, asns@, cache_dir, stale_after, batches)
            &&& batches.len() == asns@.len()
            &&& resolved.prefixes@ == all_prefixes(batches)
            &&& notice_models(resolved.notices@) == stale_notices(asns@, batches)
        };
    assert(cache_dir@ == path_join(paths.cache_dir@, "asn"@) && forall|i: int|
        0 <= i < asns@.len() ==> call_ensures(
            A::load_prefixes,
            (asn, #[trigger] asns@[i], &cache_dir, stale_after),
            Ok::<AsnPrefixBatch, AppError>(batches[i]),
        ));
    let (none, update) = choose|none: Vec<u32>, update: Result<AsnConfigUpdate, AppError>|
        {
            &&& #[trigger] call_ensures(
                A::update_config,
                (asn, &paths.config_file, &asns, &none),
                update,
            )
            &&& none@.len() == 0
            &&& update is Ok
            &&& outcome.added == update->Ok_0.added
            &&& cleaned_rule(repository, paths.blocklist_file, resolved, outcome)
        };
    assert(call_ensures(
        A::update_config,
        (asn, &paths.config_file, &asns, &none),
        Ok::<AsnConfigUpdate, AppError>(update->Ok_0),
    ));
    let (duplicates, removed) = choose|
        duplicates: Seq<CanonicalCidr>,
        removed: Result<usize, AppError>,
    |
        {
            &&& #[trigger] duplicates_rule(repository, paths.blocklist_file, duplicates, removed)
            &&& sorted_distinct(resolved.prefixes@, duplicates)
            &&& match removed {
                Ok(count) => {
                    &&& outcome.removed_duplicate_entries == count
                    &&& notice_models(outcome.notices@) == notice_models(resolved.notices@)
                },
                Err(error) => {
                    &&& outcome.removed_duplicate_entries == 0
                    &&& notice_models(outcome.notices@) == notice_models(resolved.notices@).push(
                        NoticeModel {
                            level: NoticeLevel::Warning,
                            message: "ASN ban duplicate cleanup failed after config update: "@
                                + error_text(error),
                        },
                    )
                },
            }
        };
    assert forall|network: CanonicalCidr| #[trigger]
        duplicates.contains(network) <==> some_prefix(batches, network) by {
        lemma_prefixes(batches, network);
        assert(resolved.prefixes@.contains(network) <==> duplicates.contains(network));
    }
    let before = notice_models(resolved.notices@);
    let all = notice_models(outcome.notices@);
    assert forall|i: int| 0 <= i < asns@.len() && (#[trigger] batches[i]).stale implies
        all.contains(stale_warning(asns@[i])) by {
        lemma_stale(asns@, batches, i);
        let k = choose|k: int| 0 <= k < before.len() && before[k] == stale_warning(asns@[i]);
        assert(all[k] == stale_warning(asns@[i]));
    }
    if removed is Err {
        assert(all[all.len() - 1].level == NoticeLevel::Warning);
        assert(all.contains(all[all.len() - 1]));
    }
    (config, batches, duplicates, removed)
}

/// Removing duplicates takes out exactly the lines whose entry is one of them, and counts them;
/// nothing is written where there is none.
pub proof fn law_duplicates_are_removed_from_the_blocklist<R: BlocklistRepository>(
    repository: &R,
    path: String,
    duplicates: Seq<CanonicalCidr>,
    removed: usize,
) -> (found: (BlocklistDocument, Seq<Seq<char>>))
    requires
        duplicates.len() > 0,
        duplicates_rule(repository, path, duplicates, Ok(removed)),
    ensures
        call_ensures(
            R::load,
            (repository, &path),
            Ok::<BlocklistDocument, AppError>(found.0),
        ),
        removed + found.1.len() == found.0.lines@.len(),
        forall|i: int|
            0 <= i < found.0.lines@.len() && !((#[trigger] found.0.lines@[i]).canonical is Some
                && duplicates.contains(found.0.lines@[i].canonical->0)) ==> found.1.contains(
                found.0.lines@[i].original@,
            ),
        forall|text: Seq<char>| #[trigger]
            found.1.contains(text) ==> exists|i: int|
                0 <= i < found.0.lines@.len() && (#[trigger] found.0.lines@[i]).original@ == text
                    && !(found.0.lines@[i].canonical is Some && duplicates.contains(
                    found.0.lines@[i].canonical->0,
                )),
        removed == 0 <==> forall|i: int|
            0 <= i < found.0.lines@.len() ==> !((#[trigger] found.0.lines@[i]).canonical is Some
                && duplicates.contains(found.0.lines@[i].canonical->0)),
        removed > 0 ==> exists|written: Vec<String>, reply: Result<(), AppError>|
            views(written@) == found.1 && reply is Ok && #[trigger] call_ensures(
                R::write_lines,
                (repository, &path, &written),
                reply,
            ),
{
    let reply = choose|document: Result<BlocklistDocument, AppError>|
        {
            &&& #[trigger] call_ensures(R::load, (repository, &path), document)
            &&& document is Ok
            &&& ({
                let lines = line_models(document->Ok_0.lines@);
                let kept = without_duplicates(lines, duplicates);
                if kept.len() == lines.len() {
                    removed == 0
                } else {
                    exists|written: Vec<String>, reply: Result<(), AppError>|
                        {
                            &&& #[trigger] call_ensures(
                                R::write_lines,
                                (repository, &path, &written),
                                reply,
                            )
                            &&& views(written@) == kept
                            &&& reply is Ok
                            &&& removed == lines.len() - kept.len()
                        }
                }
            })
        };
    let document = reply->Ok_0;
    let lines = line_models(document.lines@);
    let kept = without_duplicates(lines, duplicates);
    lemma_without(lines, duplicates, lines.len());
    assert forall|i: int|
        0 <= i < document.lines@.len() && !((#[trigger] document.lines@[i]).canonical is Some
            && duplicates.contains(document.lines@[i].canonical->0)) implies kept.contains(
        document.lines@[i].original@,
    ) by {
        assert(lines[i] == document.lines@[i]@);
    }
    assert forall|text: Seq<char>| #[trigger] kept.contains(text) implies exists|i: int|
        0 <= i < document.lines@.len() && (#[trigger] document.lines@[i]).original@ == text && !(
        document.lines@[i].canonical is Some && duplicates.contains(
            document.lines@[i].canonical->0,
        )) by {
        let i = choose|i: int|
            0 <= i < lines.len() && (#[trigger] lines[i]).text == text && !(lines[i].entry is Some
                && duplicates.contains(lines[i].entry->0));
        assert(document.lines@[i].original@ == text);
    }
    if removed == 0 {
        assert forall|i: int| 0 <= i < document.lines@.len() implies !((
        #[trigger] document.lines@[i]).canonical is Some && duplicates.contains(
            document.lines@[i].canonical->0,
        )) by {
            assert(lines[i] == document.lines@[i]@);
            assert(!(lines[i].entry is Some && duplicates.contains(lines[i].entry->0)));
        }
    } else {
        let i = choose|i: int|
            0 <= i < lines.len() && (#[trigger] lines[i]).entry is Some && duplicates.contains(
                lines[i].entry->0,
            );
        assert(document.lines@[i].canonical is Some);
    }
    (document, kept)
}

/// The warning that a cache could not be deleted.
pub open spec fn deletion_warning(asn: u32, error: AppError) -> NoticeModel {
    NoticeModel {
        level: NoticeLevel::Warning,
        message: "ASN cache cleanup failed for AS"@ + decimal(asn as nat) + ": "@ + error_text(
            error,
        ),
    }
}

proof fn lemma_deletions(asns: Seq<u32>, replies: Seq<Result<bool, AppError>>)
    requires
        replies.len() <= asns.len(),
    ensures
        deleted_count(replies) == replies.filter(
            |reply: Result<bool, AppError>| reply is Ok && reply->Ok_0,
        ).len(),
        forall|i: int|
            0 <= i < replies.len() && (#[trigger] replies[i]) is Err ==> deletion_notices(
                asns,
                replies,
            ).contains(deletion_warning(asns[i], replies[i]->Err_0)),
    decreases replies.len(),
{
    reveal(Seq::filter);
    if replies.len() > 0 {
        let front = replies.drop_last();
        lemma_deletions(asns, front);
        let before = deletion_notices(asns, front);
        let all = deletion_notices(asns, replies);
        assert forall|i: int| 0 <= i < replies.len() && (#[trigger] replies[i]) is Err implies
            all.contains(deletion_warning(asns[i], replies[i]->Err_0)) by {
            let warning = deletion_warning(asns[i], replies[i]->Err_0);
            if i < front.len() {
                assert(front[i] is Err);
                let k = choose|k: int| 0 <= k < before.len() && before[k] == warning;
                assert(all[k] == warning);
            } else {
                assert(all[all.len() - 1] == warning);
            }
        }
    }
}

/// An unban of systems that succeeds took all of them out of the configuration, adding none,
/// attempted to delete the cache of each, counts those that were deleted and announces each that
/// could not be.
pub proof fn law_asn_unban_covers_every_system<A: AsnOperations>(
    asn: &A,
    paths: ResolvedPaths,
    asns: Vec<u32>,
    outcome: AsnUnbanOutcome,
) -> (replies: Seq<Result<bool, AppError>>)
    requires
        locked_unban_asn_rule(asn, paths, asns, Ok(outcome)),
    ensures
        exists|none: Vec<u32>, update: AsnConfigUpdate|
            none@.len() == 0 && outcome.removed == update.removed && #[trigger] call_ensures(
                A::update_config,
                (asn, &paths.config_file, &none, &asns),
                Ok::<AsnConfigUpdate, AppError>(update),
            ),
        replies.len() == asns@.len(),
        exists|cache_dir: String|
            #![trigger cache_dir@]
            cache_dir@ == path_join(paths.cache_dir@, "asn"@) && forall|i: int|
                0 <= i < asns@.len() ==> call_ensures(
                    A::delete_cache,
                    (asn, #[trigger] asns@[i], &cache_dir),
                    replies[i],
                ),
        outcome.deleted_cache_files == replies.filter(
            |reply: Result<bool, AppError>| reply is Ok && reply->Ok_0,
        ).len(),
        forall|i: int|
            0 <= i < asns@.len() && (#[trigger] replies[i]) is Err ==> notice_models(
                outcome.notices@,
            ).contains(deletion_warning(asns@[i], replies[i]->Err_0)),
{
    let (none, update) = choose|none: Vec<u32>, update: Result<AsnConfigUpdate, AppError>|
        {
            &&& #[trigger] call_ensures(
                A::update_config,
                (asn, &paths.config_file, &none, &asns),
                update,
            )
            &&& none@.len() == 0
            &&& update is Ok
            &&& outcome.removed == update->Ok_0.removed
            &&& deleted_rule(asn, paths, asns, outcome)
        };
    assert(call_ensures(
        A::update_config,
        (asn, &paths.config_file, &none, &asns),
        Ok::<AsnConfigUpdate, AppError>(update->Ok_0),
    ));
    let (cache_dir, replies) = choose|cache_dir: String, replies: Seq<Result<bool, AppError>>|
        {
            &&& #[trigger] deletions(asn, asns@, cache_dir, replies)
            &&& cache_dir@ == path_join(paths.cache_dir@, "asn"@)
            &&& replies.len() == asns@.len()
            &&& outcome.deleted_cache_files == deleted_count(replies)
            &&& notice_models(outcome.notices@) == deletion_notices(asns@, replies)
        };
    lemma_deletions(asns@, replies);
    assert(cache_dir@ == path_join(paths.cache_dir@, "asn"@) && forall|i: int|
        0 <= i < asns@.len() ==> call_ensures(
            A::delete_cache,
            (asn, #[trigger] asns@[i], &cache_dir),
            replies[i],
        ));
    replies
}

} // verus!
