//! Locked workflows for local blocklist and ASN configuration mutation.

use crate::policy::blocklist::{entries_of, line_models, BlocklistDocument};
use crate::policy::cidr_text::{models, parse_strict};
use crate::policy::network_types::CanonicalCidr;
use crate::text::views;
use crate::workflow::blocklist::{
    added_texts, ban_changes, build_preview, change_models, invalid_targets, is_unusable,
    only_comments, parse_single_target, parse_target_lines, plan_approved_unban, plan_ban_input,
    preview_rule, unban_rule, unusable, valid_targets, BanOutcome, BanPlan, BlocklistInput,
    ParsedInput, UnbanDecision, UnbanOutcome, UnbanPlan, UnbanPreparation, UnbanPreview,
};
use crate::workflow::error::AppError;
use crate::workflow::paths::{ConfigRequirement, PathResolutionInput, ResolvedPaths};
use crate::workflow::ports::{ConfigRepository, LockGuard, LockManager, PathResolver};
use crate::workflow::source::Notice;
use vstd::prelude::*;

verus! {

/// Request to add IP or CIDR targets to the local blocklist.
#[derive(Debug, Clone, PartialEq, Eq)]
pub struct BanRequest {
    /// Runtime path inputs.
    pub paths: PathResolutionInput,
    /// Direct or file-based targets.
    pub input: BlocklistInput,
}

/// Request to prepare removal of IP or CIDR targets from the local blocklist.
#[derive(Debug, Clone, PartialEq, Eq)]
pub struct UnbanRequest {
    /// Runtime path inputs.
    pub paths: PathResolutionInput,
    /// Direct or file-based targets.
    pub input: BlocklistInput,
}

/// Request to add autonomous-system numbers to configuration.
#[derive(Debug, Clone, PartialEq, Eq)]
pub struct AsnBanRequest {
    /// Runtime path inputs.
    pub paths: PathResolutionInput,
    /// Operator tokens such as `AS64496` or `64496`.
    pub tokens: Vec<String>,
}

/// Result of an ASN ban configuration update and prefix validation.
#[derive(Debug, Clone, PartialEq, Eq)]
pub struct AsnBanOutcome {
    /// Normalized ASNs newly added to configuration.
    pub added: Vec<u32>,
    /// Local blocklist lines removed because a prefix of the banned ASNs repeats them.
    pub removed_duplicate_entries: usize,
    /// Stale-cache and other best-effort notices.
    pub notices: Vec<Notice>,
}

impl Default for AsnBanOutcome {
    fn default() -> (outcome: AsnBanOutcome)
        ensures
            outcome.added@.len() == 0,
            outcome.removed_duplicate_entries == 0,
            outcome.notices@.len() == 0,
    {
        AsnBanOutcome { added: Vec::new(), removed_duplicate_entries: 0, notices: Vec::new() }
    }
}

/// Result of an ASN unban configuration and cache cleanup.
#[derive(Debug, Clone, PartialEq, Eq)]
pub struct AsnUnbanOutcome {
    /// Normalized ASNs removed from configuration.
    pub removed: Vec<u32>,
    /// Existing ASN cache files successfully deleted before lock release.
    pub deleted_cache_files: usize,
    /// Best-effort cache cleanup notices.
    pub notices: Vec<Notice>,
}

impl Default for AsnUnbanOutcome {
    fn default() -> (outcome: AsnUnbanOutcome)
        ensures
            outcome.removed@.len() == 0,
            outcome.deleted_cache_files == 0,
            outcome.notices@.len() == 0,
    {
        AsnUnbanOutcome { removed: Vec::new(), deleted_cache_files: 0, notices: Vec::new() }
    }
}

/// Usable ASN prefix resolution plus its freshness state.
#[derive(Debug, Clone, PartialEq, Eq)]
pub struct AsnPrefixBatch {
    /// Non-empty canonical prefix set for the ASN.
    pub prefixes: Vec<CanonicalCidr>,
    /// Whether stale cache was used after refresh failure.
    pub stale: bool,
}

/// Exact effect of an atomic ASN configuration mutation.
#[derive(Debug, Clone, PartialEq, Eq)]
pub struct AsnConfigUpdate {
    /// Requested ASNs newly added.
    pub added: Vec<u32>,
    /// Requested ASNs that were present and removed.
    pub removed: Vec<u32>,
}

impl Default for AsnConfigUpdate {
    fn default() -> (update: AsnConfigUpdate)
        ensures
            update.added@.len() == 0,
            update.removed@.len() == 0,
    {
        AsnConfigUpdate { added: Vec::new(), removed: Vec::new() }
    }
}

/// Persistence boundary for the operator-managed local blocklist.
pub trait BlocklistRepository {
    /// Loads and parses the blocklist at `path`.
    fn load(&self, path: &String) -> (document: Result<BlocklistDocument, AppError>);

    /// Appends canonical entries while preserving the document's newline structure.
    fn append_entries(
        &self,
        path: &String,
        entries: &Vec<String>,
        has_content: bool,
        trailing_newline: bool,
    ) -> (outcome: Result<(), AppError>);

    /// Replaces the blocklist with the supplied lines.
    fn write_lines(&self, path: &String, lines: &Vec<String>) -> (outcome: Result<(), AppError>);

    /// Reads operator-supplied blocklist targets from a file.
    fn read_target_lines(&self, path: &String) -> (lines: Result<Vec<String>, AppError>);
}

/// Resolution, cache, and configuration operations for ASN workflows.
pub trait AsnOperations {
    /// Parses, validates, sorts, and deduplicates ASN tokens.
    fn normalize_tokens(&self, tokens: &Vec<String>) -> (asns: Result<Vec<u32>, AppError>);

    /// Loads prefixes for one ASN, using bounded cache fallback where available.
    fn load_prefixes(&self, asn: u32, cache_dir: &String, stale_after_secs: u64) -> (batch: Result<
        AsnPrefixBatch,
        AppError,
    >);

    /// Atomically updates the configured ASN ban set.
    fn update_config(&self, config_path: &String, add: &Vec<u32>, remove: &Vec<u32>) -> (update:
        Result<AsnConfigUpdate, AppError>);

    /// Deletes the cache entry for one ASN.
    fn delete_cache(&self, asn: u32, cache_dir: &String) -> (deleted: Result<bool, AppError>);
}

/// Ports required by local blocklist and ASN workflows.
pub struct BlocklistDependencies<
    'a,
    P: PathResolver,
    C: ConfigRepository,
    L: LockManager,
    R: BlocklistRepository,
    A: AsnOperations,
> {
    /// Runtime path resolver.
    pub paths: &'a P,
    /// Validated configuration repository.
    pub configs: &'a C,
    /// Nonblocking process lock manager.
    pub locks: &'a L,
    /// Local blocklist persistence adapter.
    pub repository: &'a R,
    /// ASN resolution and persistence adapter.
    pub asn: &'a A,
}

/// How the targets of a request are read and parsed.
pub open spec fn input_rule<R: BlocklistRepository>(
    input: BlocklistInput,
    repository: &R,
    parsed: Result<ParsedInput, AppError>,
) -> bool {
    match input {
        BlocklistInput::Single(value) => match parse_strict(value@) {
            Some(model) => parsed is Ok && models(parsed->Ok_0.targets@) == seq![model]
                && parsed->Ok_0.invalid_targets@.len() == 0 && !parsed->Ok_0.empty_file,
            None => parsed matches Err(AppError::BlocklistTargetParse { input: given }) && given@
                == value@,
        },
        BlocklistInput::File(path) => exists|lines: Result<Vec<String>, AppError>|
            {
                &&& #[trigger] call_ensures(R::read_target_lines, (repository, &path), lines)
                &&& match lines {
                    Ok(raw) => {
                        &&& parsed is Ok
                        &&& models(parsed->Ok_0.targets@) == valid_targets(views(raw@))
                        &&& views(parsed->Ok_0.invalid_targets@) == invalid_targets(views(raw@))
                        &&& parsed->Ok_0.empty_file == only_comments(views(raw@))
                    },
                    Err(error) => parsed == Err::<ParsedInput, AppError>(error),
                }
            },
    }
}

/// Reads and parses the targets of a request.
pub fn parse_input<R: BlocklistRepository>(input: &BlocklistInput, repository: &R) -> (parsed:
    Result<ParsedInput, AppError>)
    ensures
        input_rule(*input, repository, parsed),
{
    match input {
        BlocklistInput::Single(value) => parse_single_target(value),
        BlocklistInput::File(path) => match repository.read_target_lines(path) {
            Ok(raw) => Ok(parse_target_lines(raw)),
            Err(error) => Err(error),
        },
    }
}

/// A ban of usable targets: classify them against the document and append the new ones.
pub open spec fn append_rule<R: BlocklistRepository>(
    repository: &R,
    path: String,
    targets: Seq<CanonicalCidr>,
    outcome: Result<BanOutcome, AppError>,
) -> bool {
    exists|document: Result<BlocklistDocument, AppError>|
        {
            &&& #[trigger] call_ensures(R::load, (repository, &path), document)
            &&& match document {
                Err(error) => outcome == Err::<BanOutcome, AppError>(error),
                Ok(found) => {
                    let changes = ban_changes(entries_of(line_models(found.lines@)), targets);
                    let done = outcome is Ok && change_models(outcome->Ok_0.changes@) == changes
                        && outcome->Ok_0.invalid_targets@.len() == 0 && !outcome->Ok_0.empty_file;
                    if added_texts(changes).len() == 0 {
                        done
                    } else {
                        exists|entries: Vec<String>, written: Result<(), AppError>|
                            {
                                &&& #[trigger] call_ensures(
                                    R::append_entries,
                                    (
                                        repository,
                                        &path,
                                        &entries,
                                        found.has_content,
                                        found.trailing_newline,
                                    ),
                                    written,
                                )
                                &&& views(entries@) == added_texts(changes)
                                &&& match written {
                                    Ok(_) => done,
                                    Err(error) => outcome == Err::<BanOutcome, AppError>(error),
                                }
                            }
                    }
                },
            }
        }
}

fn append_targets<R: BlocklistRepository>(
    repository: &R,
    path: &String,
    parsed: &ParsedInput,
) -> (outcome: Result<BanOutcome, AppError>)
    requires
        !unusable(*parsed),
    ensures
        append_rule(repository, *path, parsed.targets@, outcome),
{
    let document: BlocklistDocument = match repository.load(path) {
        Ok(document) => document,
        Err(error) => {
            return Err(error);
        },
    };
    let plan: BanPlan = plan_ban_input(parsed, &document);
    proof {
        assert(views(plan.appended@).len() == plan.appended@.len());
    }
    if plan.appended.len() > 0 {
        if let Err(error) = repository.append_entries(
            path,
            &plan.appended,
            document.has_content,
            document.trailing_newline,
        ) {
            return Err(error);
        }
    }
    Ok(BanOutcome { changes: plan.changes, invalid_targets: Vec::new(), empty_file: false })
}

/// A ban: paths, then the lock, then the targets; unusable targets change nothing.
pub open spec fn ban_rule<
    P: PathResolver,
    C: ConfigRepository,
    L: LockManager,
    R: BlocklistRepository,
    A: AsnOperations,
>(
    request: BanRequest,
    dependencies: BlocklistDependencies<'_, P, C, L, R, A>,
    outcome: Result<BanOutcome, AppError>,
) -> bool {
    exists|paths: Result<ResolvedPaths, AppError>|
        {
            &&& #[trigger] call_ensures(
                P::resolve,
                (dependencies.paths, &request.paths, ConfigRequirement::Required),
                paths,
            )
            &&& match paths {
                Err(error) => outcome == Err::<BanOutcome, AppError>(error),
                Ok(found) => exists|lock: Result<Box<dyn LockGuard>, AppError>|
                    {
                        &&& #[trigger] call_ensures(
                            L::acquire,
                            (dependencies.locks, &found.lock_file),
                            lock,
                        )
                        &&& match lock {
                            Err(error) => outcome == Err::<BanOutcome, AppError>(error),
                            Ok(_) => locked_ban_rule(
                                request.input,
                                dependencies.repository,
                                found,
                                outcome,
                            ),
                        }
                    },
            }
        }
}

/// A ban under the lock.
///
/// The repository is shared, so the rule names the calls that were made and cannot say that there
/// were no others. What a request appends is the plan of
/// [`plan_ban_input`](crate::workflow::blocklist::plan_ban_input): nothing, where the targets
/// cannot be used.
pub open spec fn locked_ban_rule<R: BlocklistRepository>(
    input: BlocklistInput,
    repository: &R,
    paths: ResolvedPaths,
    outcome: Result<BanOutcome, AppError>,
) -> bool {
    exists|parsed: Result<ParsedInput, AppError>|
        {
            &&& #[trigger] input_rule(input, repository, parsed)
            &&& match parsed {
                Err(error) => outcome == Err::<BanOutcome, AppError>(error),
                Ok(targets) => if unusable(targets) {
                    outcome is Ok && outcome->Ok_0.changes@.len() == 0
                        && outcome->Ok_0.invalid_targets == targets.invalid_targets
                        && outcome->Ok_0.empty_file == targets.empty_file
                } else {
                    append_rule(repository, paths.blocklist_file, targets.targets@, outcome)
                },
            }
        }
}

fn locked_ban<R: BlocklistRepository>(
    input: &BlocklistInput,
    repository: &R,
    paths: &ResolvedPaths,
) -> (outcome: Result<BanOutcome, AppError>)
    ensures
        locked_ban_rule(*input, repository, *paths, outcome),
{
    let parsed: ParsedInput = match parse_input(input, repository) {
        Ok(parsed) => parsed,
        Err(error) => {
            return Err(error);
        },
    };
    let ghost given = parsed;
    assert(input_rule(*input, repository, Ok::<ParsedInput, AppError>(given)));
    if is_unusable(&parsed) {
        return Ok(
            BanOutcome {
                changes: Vec::new(),
                invalid_targets: parsed.invalid_targets,
                empty_file: parsed.empty_file,
            },
        );
    }
    append_targets(repository, &paths.blocklist_file, &parsed)
}

/// Applies IP and CIDR additions to the local blocklist under the process lock.
pub fn execute_ban<
    P: PathResolver,
    C: ConfigRepository,
    L: LockManager,
    R: BlocklistRepository,
    A: AsnOperations,
>(request: &BanRequest, dependencies: &BlocklistDependencies<'_, P, C, L, R, A>) -> (outcome:
    Result<BanOutcome, AppError>)
    ensures
        ban_rule(*request, *dependencies, outcome),
{
    let paths: ResolvedPaths = match dependencies.paths.resolve(
        &request.paths,
        ConfigRequirement::Required,
    ) {
        Ok(paths) => paths,
        Err(error) => {
            return Err(error);
        },
    };
    let _lock: Box<dyn LockGuard> = match dependencies.locks.acquire(&paths.lock_file) {
        Ok(lock) => lock,
        Err(error) => {
            return Err(error);
        },
    };
    locked_ban(&request.input, dependencies.repository, &paths)
}

/// Preparation of an unban: paths, then the targets, then a preview on the current document.
pub open spec fn preparation_rule<
    P: PathResolver,
    C: ConfigRepository,
    L: LockManager,
    R: BlocklistRepository,
    A: AsnOperations,
>(
    request: UnbanRequest,
    dependencies: BlocklistDependencies<'_, P, C, L, R, A>,
    preparation: Result<UnbanPreparation, AppError>,
) -> bool {
    exists|paths: Result<ResolvedPaths, AppError>|
        {
            &&& #[trigger] call_ensures(
                P::resolve,
                (dependencies.paths, &request.paths, ConfigRequirement::Required),
                paths,
            )
            &&& match paths {
                Err(error) => preparation == Err::<UnbanPreparation, AppError>(error),
                Ok(found) => exists|parsed: Result<ParsedInput, AppError>|
                    {
                        &&& #[trigger] input_rule(request.input, dependencies.repository, parsed)
                        &&& match parsed {
                            Err(error) => preparation == Err::<UnbanPreparation, AppError>(error),
                            Ok(targets) => if unusable(targets) {
                                preparation is Ok && preparation->Ok_0.preview is None
                                    && preparation->Ok_0.invalid_targets == targets.invalid_targets
                                    && preparation->Ok_0.empty_file == targets.empty_file
                            } else {
                                previewed_rule(
                                    request.input,
                                    dependencies.repository,
                                    found.blocklist_file,
                                    targets.targets@,
                                    preparation,
                                )
                            },
                        }
                    },
            }
        }
}

/// A preview on the current document.
pub open spec fn previewed_rule<R: BlocklistRepository>(
    input: BlocklistInput,
    repository: &R,
    path: String,
    targets: Seq<CanonicalCidr>,
    preparation: Result<UnbanPreparation, AppError>,
) -> bool {
    exists|document: Result<BlocklistDocument, AppError>|
        {
            &&& #[trigger] call_ensures(R::load, (repository, &path), document)
            &&& match document {
                Err(error) => preparation == Err::<UnbanPreparation, AppError>(error),
                Ok(found) => {
                    &&& preparation is Ok
                    &&& preparation->Ok_0.preview is Some
                    &&& preview_rule(
                        input,
                        targets,
                        line_models(found.lines@),
                        preparation->Ok_0.preview->0,
                    )
                    &&& preparation->Ok_0.invalid_targets@.len() == 0
                    &&& !preparation->Ok_0.empty_file
                },
            }
        }
}

/// Builds a read-only unban preview from the current blocklist.
pub fn prepare_unban<
    P: PathResolver,
    C: ConfigRepository,
    L: LockManager,
    R: BlocklistRepository,
    A: AsnOperations,
>(
    request: &UnbanRequest,
    dependencies: &BlocklistDependencies<'_, P, C, L, R, A>,
) -> (preparation: Result<UnbanPreparation, AppError>)
    ensures
        preparation_rule(*request, *dependencies, preparation),
{
    let paths: ResolvedPaths = match dependencies.paths.resolve(
        &request.paths,
        ConfigRequirement::Required,
    ) {
        Ok(paths) => paths,
        Err(error) => {
            return Err(error);
        },
    };
    let parsed: ParsedInput = match parse_input(&request.input, dependencies.repository) {
        Ok(parsed) => parsed,
        Err(error) => {
            return Err(error);
        },
    };
    let ghost given = parsed;
    assert(input_rule(
        request.input,
        dependencies.repository,
        Ok::<ParsedInput, AppError>(given),
    ));
    if is_unusable(&parsed) {
        return Ok(
            UnbanPreparation {
                preview: None,
                invalid_targets: parsed.invalid_targets,
                empty_file: parsed.empty_file,
            },
        );
    }
    let document: BlocklistDocument = match dependencies.repository.load(&paths.blocklist_file) {
        Ok(document) => document,
        Err(error) => {
            return Err(error);
        },
    };
    let preview: UnbanPreview = build_preview(&request.input, parsed.targets, &document);
    Ok(UnbanPreparation { preview: Some(preview), invalid_targets: Vec::new(), empty_file: false })
}

/// An approved unban under the lock: the document is read again and has to match the preview.
pub open spec fn locked_unban_rule<R: BlocklistRepository>(
    input: BlocklistInput,
    preview: UnbanPreview,
    remove_partial: bool,
    repository: &R,
    path: String,
    outcome: Result<UnbanOutcome, AppError>,
) -> bool {
    exists|document: Result<BlocklistDocument, AppError>|
        {
            &&& #[trigger] call_ensures(R::load, (repository, &path), document)
            &&& match document {
                Err(error) => outcome == Err::<UnbanOutcome, AppError>(error),
                Ok(found) => approved_rule(
                    input,
                    preview,
                    remove_partial,
                    repository,
                    path,
                    found,
                    outcome,
                ),
            }
        }
}

/// An approved unban of a document.
pub open spec fn approved_rule<R: BlocklistRepository>(
    input: BlocklistInput,
    preview: UnbanPreview,
    remove_partial: bool,
    repository: &R,
    path: String,
    document: BlocklistDocument,
    outcome: Result<UnbanOutcome, AppError>,
) -> bool {
    let lines = line_models(document.lines@);
    exists|current: UnbanPreview|
        {
            &&& #[trigger] preview_rule(input, preview.targets@, lines, current)
            &&& if current@ != preview@ {
                outcome == Err::<UnbanOutcome, AppError>(AppError::BlocklistChanged)
            } else {
                exists|plan: UnbanPlan|
                    {
                        &&& #[trigger] unban_rule(preview, remove_partial, lines, plan)
                        &&& match plan.kept_lines {
                            None => outcome == Ok::<UnbanOutcome, AppError>(plan.outcome),
                            Some(kept) => exists|written: Result<(), AppError>|
                                {
                                    &&& #[trigger] call_ensures(
                                        R::write_lines,
                                        (repository, &path, &kept),
                                        written,
                                    )
                                    &&& match written {
                                        Ok(_) => outcome == Ok::<UnbanOutcome, AppError>(
                                            plan.outcome,
                                        ),
                                        Err(error) => outcome == Err::<UnbanOutcome, AppError>(
                                            error,
                                        ),
                                    }
                                },
                        }
                    }
            }
        }
}

fn locked_unban<R: BlocklistRepository>(
    input: &BlocklistInput,
    preview: &UnbanPreview,
    decision: &UnbanDecision,
    repository: &R,
    path: &String,
) -> (outcome: Result<UnbanOutcome, AppError>)
    ensures
        locked_unban_rule(*input, *preview, decision.remove_partial, repository, *path, outcome),
{
    let document: BlocklistDocument = match repository.load(path) {
        Ok(document) => document,
        Err(error) => {
            return Err(error);
        },
    };
    match plan_approved_unban(input, preview, decision, &document) {
        Err(error) => Err(error),
        Ok(plan) => {
            let ghost given = plan;
            let UnbanPlan { kept_lines, outcome } = plan;
            if let Some(kept) = kept_lines {
                if let Err(error) = repository.write_lines(path, &kept) {
                    assert(unban_rule(
                        *preview,
                        decision.remove_partial,
                        line_models(document.lines@),
                        given,
                    ));
                    return Err(error);
                }
            }
            assert(unban_rule(
                *preview,
                decision.remove_partial,
                line_models(document.lines@),
                given,
            ));
            Ok(outcome)
        },
    }
}

/// An unban: paths, then the lock, then the document.
pub open spec fn apply_rule<
    P: PathResolver,
    C: ConfigRepository,
    L: LockManager,
    R: BlocklistRepository,
    A: AsnOperations,
>(
    request: UnbanRequest,
    preview: UnbanPreview,
    remove_partial: bool,
    dependencies: BlocklistDependencies<'_, P, C, L, R, A>,
    outcome: Result<UnbanOutcome, AppError>,
) -> bool {
    exists|paths: Result<ResolvedPaths, AppError>|
        {
            &&& #[trigger] call_ensures(
                P::resolve,
                (dependencies.paths, &request.paths, ConfigRequirement::Required),
                paths,
            )
            &&& match paths {
                Err(error) => outcome == Err::<UnbanOutcome, AppError>(error),
                Ok(found) => exists|lock: Result<Box<dyn LockGuard>, AppError>|
                    {
                        &&& #[trigger] call_ensures(
                            L::acquire,
                            (dependencies.locks, &found.lock_file),
                            lock,
                        )
                        &&& match lock {
                            Err(error) => outcome == Err::<UnbanOutcome, AppError>(error),
                            Ok(_) => locked_unban_rule(
                                request.input,
                                preview,
                                remove_partial,
                                dependencies.repository,
                                found.blocklist_file,
                                outcome,
                            ),
                        }
                    },
            }
        }
}

/// Applies an approved unban preview under the process lock.
///
/// Returns [`AppError::BlocklistChanged`] when the blocklist changed after the preview was
/// prepared.
pub fn apply_unban<
    P: PathResolver,
    C: ConfigRepository,
    L: LockManager,
    R: BlocklistRepository,
    A: AsnOperations,
>(
    request: &UnbanRequest,
    preview: &UnbanPreview,
    decision: &UnbanDecision,
    dependencies: &BlocklistDependencies<'_, P, C, L, R, A>,
) -> (outcome: Result<UnbanOutcome, AppError>)
    ensures
        apply_rule(*request, *preview, decision.remove_partial, *dependencies, outcome),
{
    let paths: ResolvedPaths = match dependencies.paths.resolve(
        &request.paths,
        ConfigRequirement::Required,
    ) {
        Ok(paths) => paths,
        Err(error) => {
            return Err(error);
        },
    };
    let _lock: Box<dyn LockGuard> = match dependencies.locks.acquire(&paths.lock_file) {
        Ok(lock) => lock,
        Err(error) => {
            return Err(error);
        },
    };
    locked_unban(&request.input, preview, decision, dependencies.repository, &paths.blocklist_file)
}

} // verus!
