//! Locked workflows for banning and unbanning autonomous systems.

use crate::numerals::{decimal, decimal_text};
use crate::policy::blocklist::{exactly_matched, line_models, BlocklistDocument, LineModel};
use crate::policy::cidr_order::{sort_distinct, sorted_distinct};
use crate::policy::config::Config;
use crate::policy::network_types::CanonicalCidr;
use crate::text::views;
use crate::workflow::blocklist::{
    kept_texts, line_entries, plan_duplicate_removal, DuplicateRemoval,
};
use crate::workflow::blocklist_execute::{
    AsnBanOutcome, AsnBanRequest, AsnConfigUpdate, AsnOperations, AsnPrefixBatch, AsnUnbanOutcome,
    BlocklistDependencies, BlocklistRepository,
};
use crate::workflow::error::{error_text, AppError};
use crate::workflow::paths::{join_path, path_join, ConfigRequirement, ResolvedPaths};
use crate::workflow::ports::{ConfigRepository, LockGuard, LockManager, PathResolver};
use crate::workflow::source::{notice_models, warning_model, Notice, NoticeModel};
use vstd::prelude::*;

verus! {

// Prefixes --------------------------------------------------------------------------------------

/// Batch `i` was loaded for number `i`.
pub open spec fn loaded_batches<A: AsnOperations>(
    asn: &A,
    asns: Seq<u32>,
    cache_dir: String,
    stale_after_secs: u64,
    batches: Seq<AsnPrefixBatch>,
) -> bool {
    &&& batches.len() <= asns.len()
    &&& forall|i: int|
        0 <= i < batches.len() ==> call_ensures(
            A::load_prefixes,
            (asn, asns[i], &cache_dir, stale_after_secs),
            Ok(#[trigger] batches[i]),
        )
}

/// Prefixes of the batches, in order.
pub open spec fn all_prefixes(batches: Seq<AsnPrefixBatch>) -> Seq<CanonicalCidr>
    decreases batches.len(),
{
    if batches.len() == 0 {
        Seq::empty()
    } else {
        all_prefixes(batches.drop_last()) + batches.last().prefixes@
    }
}

/// Warning for a batch from a stale cache.
pub open spec fn stale_text(asn: u32) -> Seq<char> {
    "ASN cache stale fallback used for AS"@ + decimal(asn as nat)
}

/// One warning for each stale batch, in order.
pub open spec fn stale_notices(asns: Seq<u32>, batches: Seq<AsnPrefixBatch>) -> Seq<NoticeModel>
    decreases batches.len(),
{
    if batches.len() == 0 {
        Seq::empty()
    } else if batches.last().stale {
        stale_notices(asns, batches.drop_last()).push(
            warning_model(stale_text(asns[batches.len() - 1])),
        )
    } else {
        stale_notices(asns, batches.drop_last())
    }
}

/// Prefixes of requested numbers, with notices.
pub struct ResolvedPrefixes {
    /// Prefixes in request order.
    pub prefixes: Vec<CanonicalCidr>,
    /// Stale-cache notices.
    pub notices: Vec<Notice>,
}

/// Prefixes are loaded number by number, up to the first failure.
pub open spec fn resolution_rule<A: AsnOperations>(
    asn: &A,
    asns: Seq<u32>,
    cache_dir: String,
    stale_after_secs: u64,
    resolved: Result<ResolvedPrefixes, AppError>,
) -> bool {
    exists|batches: Seq<AsnPrefixBatch>|
        {
            &&& #[trigger] loaded_batches(asn, asns, cache_dir, stale_after_secs, batches)
            &&& match resolved {
                Ok(found) => {
                    &&& batches.len() == asns.len()
                    &&& found.prefixes@ == all_prefixes(batches)
                    &&& notice_models(found.notices@) == stale_notices(asns, batches)
                },
                Err(error) => {
                    &&& batches.len() < asns.len()
                    &&& call_ensures(
                        A::load_prefixes,
                        (asn, asns[batches.len() as int], &cache_dir, stale_after_secs),
                        Err::<AsnPrefixBatch, AppError>(error),
                    )
                },
            }
        }
}

/// Loads the prefixes of every number.
pub fn resolve_prefixes<A: AsnOperations>(
    asn: &A,
    asns: &Vec<u32>,
    cache_dir: &String,
    stale_after_secs: u64,
) -> (resolved: Result<ResolvedPrefixes, AppError>)
    ensures
        resolution_rule(asn, asns@, *cache_dir, stale_after_secs, resolved),
{
    let mut prefixes: Vec<CanonicalCidr> = Vec::new();
    let mut notices: Vec<Notice> = Vec::new();
    let ghost mut batches: Seq<AsnPrefixBatch> = Seq::empty();
    let mut i: usize = 0;
    assert(notice_models(notices@) =~= stale_notices(asns@, batches));
    while i < asns.len()
        invariant
            i <= asns@.len(),
            batches.len() == i,
            loaded_batches(asn, asns@, *cache_dir, stale_after_secs, batches),
            prefixes@ == all_prefixes(batches),
            notice_models(notices@) == stale_notices(asns@, batches),
        decreases asns@.len() - i,
    {
        let reply: Result<AsnPrefixBatch, AppError> = asn.load_prefixes(
            asns[i],
            cache_dir,
            stale_after_secs,
        );
        match reply {
            Err(error) => {
                return Err(error);
            },
            Ok(batch) => {
                let ghost before = notices@;
                let ghost extended = batches.push(batch);
                assert(extended.drop_last() =~= batches);
                if batch.stale {
                    let mut text: String = "ASN cache stale fallback used for AS".to_owned();
                    text.append(decimal_text(asns[i] as u128).as_str());
                    notices.push(Notice::warning(text.as_str()));
                    assert(notice_models(notices@) =~= notice_models(before).push(
                        warning_model(stale_text(asns@[i as int])),
                    ));
                }
                let mut more: Vec<CanonicalCidr> = batch.prefixes;
                prefixes.append(&mut more);
                proof {
                    batches = extended;
                }
            },
        }
        i = i + 1;
    }
    Ok(ResolvedPrefixes { prefixes, notices })
}

// Duplicates ------------------------------------------------------------------------------------

/// Lines that hold exactly one of the networks are removed from the document; the document is
/// written only where some are.
pub open spec fn duplicates_rule<R: BlocklistRepository>(
    repository: &R,
    path: String,
    duplicates: Seq<CanonicalCidr>,
    removed: Result<usize, AppError>,
) -> bool {
    if duplicates.len() == 0 {
        removed == Ok::<usize, AppError>(0)
    } else {
        exists|document: Result<BlocklistDocument, AppError>|
            {
                &&& #[trigger] call_ensures(R::load, (repository, &path), document)
                &&& match document {
                    Err(error) => removed == Err::<usize, AppError>(error),
                    Ok(found) => {
                        let lines = line_models(found.lines@);
                        let kept = without_duplicates(lines, duplicates);
                        if kept.len() == lines.len() {
                            removed == Ok::<usize, AppError>(0)
                        } else {
                            exists|written: Vec<String>, reply: Result<(), AppError>|
                                {
                                    &&& #[trigger] call_ensures(
                                        R::write_lines,
                                        (repository, &path, &written),
                                        reply,
                                    )
                                    &&& views(written@) == kept
                                    &&& match reply {
                                        Ok(_) => removed is Ok && removed->Ok_0 == lines.len()
                                            - kept.len(),
                                        Err(error) => removed == Err::<usize, AppError>(error),
                                    }
                                }
                        }
                    },
                }
            }
    }
}

/// Texts of the lines that hold none of the networks, in order.
pub open spec fn without_duplicates(lines: Seq<LineModel>, duplicates: Seq<CanonicalCidr>) -> Seq<
    Seq<char>,
> {
    kept_texts(
        lines,
        |i: int| exactly_matched(line_entries(lines), duplicates, i),
        lines.len(),
    )
}

/// Removes lines that hold exactly one of the networks, and returns how many there were.
pub fn remove_exact_duplicates<R: BlocklistRepository>(
    repository: &R,
    path: &String,
    duplicates: &Vec<CanonicalCidr>,
) -> (removed: Result<usize, AppError>)
    ensures
        duplicates_rule(repository, *path, duplicates@, removed),
{
    if duplicates.len() == 0 {
        return Ok(0);
    }
    let document: BlocklistDocument = match repository.load(path) {
        Ok(document) => document,
        Err(error) => {
            return Err(error);
        },
    };
    let plan: DuplicateRemoval = plan_duplicate_removal(&document, duplicates.as_slice());
    proof {
        let lines = line_models(document.lines@);
        assert(views(plan.kept_lines@) == without_duplicates(lines, duplicates@));
        assert(views(plan.kept_lines@).len() == plan.kept_lines@.len());
    }
    if plan.removed > 0 {
        if let Err(error) = repository.write_lines(path, &plan.kept_lines) {
            return Err(error);
        }
    }
    Ok(plan.removed)
}

// Ban -------------------------------------------------------------------------------------------

/// Warning for a cleanup that failed after the configuration was updated.
pub open spec fn cleanup_text(reason: Seq<char>) -> Seq<char> {
    "ASN ban duplicate cleanup failed after config update: "@ + reason
}

/// A ban under the lock: configuration, prefixes, the update, and then the cleanup of local
/// entries, whose failure is only reported.
pub open spec fn locked_ban_asn_rule<C: ConfigRepository, R: BlocklistRepository, A: AsnOperations>(
    configs: &C,
    repository: &R,
    asn: &A,
    paths: ResolvedPaths,
    asns: Vec<u32>,
    outcome: Result<AsnBanOutcome, AppError>,
) -> bool {
    exists|config: Result<Config, AppError>|
        {
            &&& #[trigger] call_ensures(C::load, (configs, &paths.config_file), config)
            &&& match config {
                Err(error) => outcome == Err::<AsnBanOutcome, AppError>(error),
                Ok(found) => exists|
                    cache_dir: String,
                    resolved: Result<ResolvedPrefixes, AppError>,
                |
                    {
                        &&& #[trigger] resolution_rule(
                            asn,
                            asns@,
                            cache_dir,
                            found.asn.cache_stale_after_secs@ as u64,
                            resolved,
                        )
                        &&& cache_dir@ == path_join(paths.cache_dir@, "asn"@)
                        &&& match resolved {
                            Err(error) => outcome == Err::<AsnBanOutcome, AppError>(error),
                            Ok(prefixes) => updated_rule(
                                repository,
                                asn,
                                paths,
                                asns,
                                prefixes,
                                outcome,
                            ),
                        }
                    },
            }
        }
}

/// The update of the configuration and the cleanup of local entries.
pub open spec fn updated_rule<R: BlocklistRepository, A: AsnOperations>(
    repository: &R,
    asn: &A,
    paths: ResolvedPaths,
    asns: Vec<u32>,
    resolved: ResolvedPrefixes,
    outcome: Result<AsnBanOutcome, AppError>,
) -> bool {
    exists|none: Vec<u32>, update: Result<AsnConfigUpdate, AppError>|
        {
            &&& #[trigger] call_ensures(
                A::update_config,
                (asn, &paths.config_file, &asns, &none),
                update,
            )
            &&& none@.len() == 0
            &&& match update {
                Err(error) => outcome == Err::<AsnBanOutcome, AppError>(error),
                Ok(applied) => {
                    &&& outcome is Ok
                    &&& outcome->Ok_0.added == applied.added
                    &&& cleaned_rule(repository, paths.blocklist_file, resolved, outcome->Ok_0)
                },
            }
        }
}

/// The cleanup of local entries.
pub open spec fn cleaned_rule<R: BlocklistRepository>(
    repository: &R,
    path: String,
    resolved: ResolvedPrefixes,
    outcome: AsnBanOutcome,
) -> bool {
    exists|duplicates: Seq<CanonicalCidr>, removed: Result<usize, AppError>|
        {
            &&& #[trigger] duplicates_rule(repository, path, duplicates, removed)
            &&& sorted_distinct(resolved.prefixes@, duplicates)
            &&& match removed {
                Ok(count) => {
                    &&& outcome.removed_duplicate_entries == count
                    &&& notice_models(outcome.notices@) == notice_models(resolved.notices@)
                },
                Err(error) => {
                    &&& outcome.removed_duplicate_entries == 0
                    &&& notice_models(outcome.notices@) == notice_models(resolved.notices@).push(
                        warning_model(cleanup_text(error_text(error))),
                    )
                },
            }
        }
}

fn locked_ban_asn<C: ConfigRepository, R: BlocklistRepository, A: AsnOperations>(
    configs: &C,
    repository: &R,
    asn: &A,
    paths: &ResolvedPaths,
    asns: &Vec<u32>,
) -> (outcome: Result<AsnBanOutcome, AppError>)
    ensures
        locked_ban_asn_rule(configs, repository, asn, *paths, *asns, outcome),
{
    let config: Config = match configs.load(&paths.config_file) {
        Ok(config) => config,
        Err(error) => {
            return Err(error);
        },
    };
    let stale_after_secs: u64 = config.asn.cache_stale_after_secs.get() as u64;
    let cache_dir: String = join_path(paths.cache_dir.as_str(), "asn");
    let resolved: ResolvedPrefixes = match resolve_prefixes(
        asn,
        asns,
        &cache_dir,
        stale_after_secs,
    ) {
        Ok(resolved) => resolved,
        Err(error) => {
            assert(resolution_rule(
                asn,
                asns@,
                cache_dir,
                config.asn.cache_stale_after_secs@ as u64,
                Err::<ResolvedPrefixes, AppError>(error),
            ));
            return Err(error);
        },
    };
    let ghost found = resolved;
    assert(resolution_rule(
        asn,
        asns@,
        cache_dir,
        config.asn.cache_stale_after_secs@ as u64,
        Ok::<ResolvedPrefixes, AppError>(found),
    ));
    let ResolvedPrefixes { prefixes, mut notices } = resolved;
    let duplicates: Vec<CanonicalCidr> = sort_distinct(prefixes);
    let none: Vec<u32> = Vec::new();
    let update: AsnConfigUpdate = match asn.update_config(&paths.config_file, asns, &none) {
        Ok(update) => update,
        Err(error) => {
            return Err(error);
        },
    };
    let ghost applied = update;
    let cleanup: Result<usize, AppError> = remove_exact_duplicates(
        repository,
        &paths.blocklist_file,
        &duplicates,
    );
    let ghost cleaned = cleanup;
    let removed_duplicate_entries: usize = match cleanup {
        Ok(count) => count,
        Err(error) => {
            let ghost before = notices@;
            let mut text: String =
                "ASN ban duplicate cleanup failed after config update: ".to_owned();
            text.append(error.message().as_str());
            notices.push(Notice::warning(text.as_str()));
            assert(notice_models(notices@) =~= notice_models(before).push(
                warning_model(cleanup_text(error_text(error))),
            ));
            0
        },
    };
    let outcome: AsnBanOutcome = AsnBanOutcome {
        added: update.added,
        removed_duplicate_entries,
        notices,
    };
    proof {
        assert(duplicates_rule(repository, paths.blocklist_file, duplicates@, cleaned));
        assert(cleaned_rule(repository, paths.blocklist_file, found, outcome));
        assert(call_ensures(
            A::update_config,
            (asn, &paths.config_file, asns, &none),
            Ok::<AsnConfigUpdate, AppError>(applied),
        ));
        assert(updated_rule(
            repository,
            asn,
            *paths,
            *asns,
            found,
            Ok::<AsnBanOutcome, AppError>(outcome),
        ));
    }
    Ok(outcome)
}

/// An ASN workflow up to the lock: paths, then the numbers, then the lock.
pub open spec fn locked_asn_rule<
    P: PathResolver,
    C: ConfigRepository,
    L: LockManager,
    R: BlocklistRepository,
    A: AsnOperations,
    T,
>(
    request: AsnBanRequest,
    dependencies: BlocklistDependencies<'_, P, C, L, R, A>,
    outcome: Result<T, AppError>,
    locked: spec_fn(ResolvedPaths, Vec<u32>) -> bool,
) -> bool {
    exists|paths: Result<ResolvedPaths, AppError>|
        {
            &&& #[trigger] call_ensures(
                P::resolve,
                (dependencies.paths, &request.paths, ConfigRequirement::Required),
                paths,
            )
            &&& match paths {
                Err(error) => outcome == Err::<T, AppError>(error),
                Ok(found) => exists|asns: Result<Vec<u32>, AppError>|
                    {
                        &&& #[trigger] call_ensures(
                            A::normalize_tokens,
                            (dependencies.asn, &request.tokens),
                            asns,
                        )
                        &&& match asns {
                            Err(error) => outcome == Err::<T, AppError>(error),
                            Ok(numbers) => exists|lock: Result<Box<dyn LockGuard>, AppError>|
                                {
                                    &&& #[trigger] call_ensures(
                                        L::acquire,
                                        (dependencies.locks, &found.lock_file),
                                        lock,
                                    )
                                    &&& match lock {
                                        Err(error) => outcome == Err::<T, AppError>(error),
                                        Ok(_) => locked(found, numbers),
                                    }
                                },
                        }
                    },
            }
        }
}

/// Resolves and records ASN bans, then best-effort removes duplicate local entries.
pub fn execute_ban_asn<
    P: PathResolver,
    C: ConfigRepository,
    L: LockManager,
    R: BlocklistRepository,
    A: AsnOperations,
>(request: &AsnBanRequest, dependencies: &BlocklistDependencies<'_, P, C, L, R, A>) -> (outcome:
    Result<AsnBanOutcome, AppError>)
    ensures
        locked_asn_rule(
            *request,
            *dependencies,
            outcome,
            |paths: ResolvedPaths, asns: Vec<u32>|
                locked_ban_asn_rule(
                    dependencies.configs,
                    dependencies.repository,
                    dependencies.asn,
                    paths,
                    asns,
                    outcome,
                ),
        ),
{
    let paths: ResolvedPaths = match dependencies.paths.resolve(
        &request.paths,
        ConfigRequirement::Required,
    ) {
        Ok(paths) => paths,
        Err(error) => {
            return Err(error);
        },
    };
    let asns: Vec<u32> = match dependencies.asn.normalize_tokens(&request.tokens) {
        Ok(asns) => asns,
        Err(error) => {
            return Err(error);
        },
    };
    let _lock: Box<dyn LockGuard> = match dependencies.locks.acquire(&paths.lock_file) {
        Ok(lock) => lock,
        Err(error) => {
            return Err(error);
        },
    };
    locked_ban_asn(
        dependencies.configs,
        dependencies.repository,
        dependencies.asn,
        &paths,
        &asns,
    )
}

// Unban -----------------------------------------------------------------------------------------

/// Reply `i` is that of deleting the cache of number `i`.
pub open spec fn deletions<A: AsnOperations>(
    asn: &A,
    asns: Seq<u32>,
    cache_dir: String,
    replies: Seq<Result<bool, AppError>>,
) -> bool {
    &&& replies.len() <= asns.len()
    &&& forall|i: int|
        0 <= i < replies.len() ==> call_ensures(
            A::delete_cache,
            (asn, asns[i], &cache_dir),
            #[trigger] replies[i],
        )
}

/// Number of caches that were there and were deleted.
pub open spec fn deleted_count(replies: Seq<Result<bool, AppError>>) -> nat
    decreases replies.len(),
{
    if replies.len() == 0 {
        0
    } else {
        deleted_count(replies.drop_last()) + if replies.last() == Ok::<bool, AppError>(true) {
            1nat
        } else {
            0nat
        }
    }
}

/// Warning for a cache that could not be deleted.
pub open spec fn deletion_text(asn: u32, reason: Seq<char>) -> Seq<char> {
    "ASN cache cleanup failed for AS"@ + decimal(asn as nat) + ": "@ + reason
}

/// One warning for each cache that could not be deleted, in order.
pub open spec fn deletion_notices(asns: Seq<u32>, replies: Seq<Result<bool, AppError>>) -> Seq<
    NoticeModel,
>
    decreases replies.len(),
{
    if replies.len() == 0 {
        Seq::empty()
    } else {
        let before = deletion_notices(asns, replies.drop_last());
        match replies.last() {
            Ok(_) => before,
            Err(error) => before.push(
                warning_model(deletion_text(asns[replies.len() - 1], error_text(error))),
            ),
        }
    }
}

/// An unban under the lock: the update, and then the deletion of caches, whose failures are only
/// reported.
pub open spec fn locked_unban_asn_rule<A: AsnOperations>(
    asn: &A,
    paths: ResolvedPaths,
    asns: Vec<u32>,
    outcome: Result<AsnUnbanOutcome, AppError>,
) -> bool {
    exists|none: Vec<u32>, update: Result<AsnConfigUpdate, AppError>|
        {
            &&& #[trigger] call_ensures(
                A::update_config,
                (asn, &paths.config_file, &none, &asns),
                update,
            )
            &&& none@.len() == 0
            &&& match update {
                Err(error) => outcome == Err::<AsnUnbanOutcome, AppError>(error),
                Ok(applied) => {
                    &&& outcome is Ok
                    &&& outcome->Ok_0.removed == applied.removed
                    &&& deleted_rule(asn, paths, asns, outcome->Ok_0)
                },
            }
        }
}

/// The deletion of caches.
pub open spec fn deleted_rule<A: AsnOperations>(
    asn: &A,
    paths: ResolvedPaths,
    asns: Vec<u32>,
    outcome: AsnUnbanOutcome,
) -> bool {
    exists|cache_dir: String, replies: Seq<Result<bool, AppError>>|
        {
            &&& #[trigger] deletions(asn, asns@, cache_dir, replies)
            &&& cache_dir@ == path_join(paths.cache_dir@, "asn"@)
            &&& replies.len() == asns@.len()
            &&& outcome.deleted_cache_files == deleted_count(replies)
            &&& notice_models(outcome.notices@) == deletion_notices(asns@, replies)
        }
}

fn locked_unban_asn<A: AsnOperations>(asn: &A, paths: &ResolvedPaths, asns: &Vec<u32>) -> (outcome:
    Result<AsnUnbanOutcome, AppError>)
    ensures
        locked_unban_asn_rule(asn, *paths, *asns, outcome),
{
    let none: Vec<u32> = Vec::new();
    let update: AsnConfigUpdate = match asn.update_config(&paths.config_file, &none, asns) {
        Ok(update) => update,
        Err(error) => {
            return Err(error);
        },
    };
    let cache_dir: String = join_path(paths.cache_dir.as_str(), "asn");
    let mut deleted_cache_files: usize = 0;
    let mut notices: Vec<Notice> = Vec::new();
    let ghost mut replies: Seq<Result<bool, AppError>> = Seq::empty();
    let mut i: usize = 0;
    assert(notice_models(notices@) =~= deletion_notices(asns@, replies));
    while i < asns.len()
        invariant
            i <= asns@.len(),
            replies.len() == i,
            deletions(asn, asns@, cache_dir, replies),
            deleted_cache_files == deleted_count(replies),
            deleted_cache_files <= i,
            notice_models(notices@) == deletion_notices(asns@, replies),
        decreases asns@.len() - i,
    {
        let reply: Result<bool, AppError> = asn.delete_cache(asns[i], &cache_dir);
        let ghost extended = replies.push(reply);
        assert(extended.drop_last() =~= replies);
        match reply {
            Ok(true) => {
                deleted_cache_files = deleted_cache_files + 1;
            },
            Ok(false) => {},
            Err(error) => {
                let ghost before = notices@;
                let mut text: String = "ASN cache cleanup failed for AS".to_owned();
                text.append(decimal_text(asns[i] as u128).as_str());
                text.append(": ");
                text.append(error.message().as_str());
                notices.push(Notice::warning(text.as_str()));
                assert(notice_models(notices@) =~= notice_models(before).push(
                    warning_model(deletion_text(asns@[i as int], error_text(error))),
                ));
            },
        }
        proof {
            replies = extended;
        }
        i = i + 1;
    }
    let outcome: AsnUnbanOutcome = AsnUnbanOutcome {
        removed: update.removed,
        deleted_cache_files,
        notices,
    };
    assert(deleted_rule(asn, *paths, *asns, outcome));
    Ok(outcome)
}

/// Removes ASN bans and best-effort deletes their cached prefix data.
///
/// The process lock is held until the caches have been deleted.
pub fn execute_unban_asn<
    P: PathResolver,
    C: ConfigRepository,
    L: LockManager,
    R: BlocklistRepository,
    A: AsnOperations,
>(request: &AsnBanRequest, dependencies: &BlocklistDependencies<'_, P, C, L, R, A>) -> (outcome:
    Result<AsnUnbanOutcome, AppError>)
    ensures
        locked_asn_rule(
            *request,
            *dependencies,
            outcome,
            |paths: ResolvedPaths, asns: Vec<u32>|
                locked_unban_asn_rule(dependencies.asn, paths, asns, outcome),
        ),
{
    let paths: ResolvedPaths = match dependencies.paths.resolve(
        &request.paths,
        ConfigRequirement::Required,
    ) {
        Ok(paths) => paths,
        Err(error) => {
            return Err(error);
        },
    };
    let asns: Vec<u32> = match dependencies.asn.normalize_tokens(&request.tokens) {
        Ok(asns) => asns,
        Err(error) => {
            return Err(error);
        },
    };
    let _lock: Box<dyn LockGuard> = match dependencies.locks.acquire(&paths.lock_file) {
        Ok(lock) => lock,
        Err(error) => {
            return Err(error);
        },
    };
    locked_unban_asn(dependencies.asn, &paths, &asns)
}

} // verus!
