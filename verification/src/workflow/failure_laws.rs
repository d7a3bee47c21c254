//! Where the failures of a workflow come from, and what its success rests on.

use crate::policy::blocklist::{line_models, BlocklistDocument};
use crate::policy::cidr_text::parse_strict;
use crate::policy::config::Config;
use crate::policy::lookup::LookupSourceEntry;
use crate::policy::network_types::CanonicalCidr;
use crate::workflow::asn_execute::{
    execute_ban_asn, execute_unban_asn, locked_ban_asn_rule, locked_unban_asn_rule,
};
use crate::workflow::blocklist::{
    preview_rule, unban_rule, BanOutcome, BlocklistInput, UnbanDecision, UnbanOutcome, UnbanPlan,
    UnbanPreparation, UnbanPreview,
};
use crate::workflow::blocklist_execute::{
    apply_unban, approved_rule, execute_ban, locked_unban_rule, prepare_unban, AsnBanOutcome,
    AsnBanRequest, AsnConfigUpdate, AsnOperations, AsnPrefixBatch, AsnUnbanOutcome, BanRequest,
    BlocklistDependencies, BlocklistRepository, UnbanRequest,
};
use crate::workflow::error::AppError;
use crate::workflow::flush::{FlushBackend, FlushDependencies, FlushOutcome, FlushRequest};
use crate::workflow::init::{
    InitDependencies, InitOutcome, InitProvisioner, InitRequest, ProvisionState,
};
use crate::workflow::lookup::{
    config_rule, resolved_lookup_rule, searched_rule, targets_rule, LookupDependencies, LookupInput,
    LookupOutcome, LookupRequest,
};
use crate::workflow::paths::{ConfigRequirement, PathResolutionInput, ResolvedPaths};
use crate::workflow::ports::{
    allowed_by, stopped_by, verdicts, Cancellation, ConfigRepository, LockGuard, LockManager,
    PathResolver, TargetFileReader,
};
use crate::workflow::source::{
    offline_rule, provided, Notice, OfflineLookupContext, OfflineLookupProvider,
};
use vstd::prelude::*;

verus! {

/// The paths of the request could not be resolved.
pub open spec fn unresolved<P: PathResolver>(
    paths: &P,
    input: PathResolutionInput,
    requirement: ConfigRequirement,
    error: AppError,
) -> bool {
    call_ensures(P::resolve, (paths, &input, requirement), Err::<ResolvedPaths, AppError>(error))
}

/// The lock could not be taken.
pub open spec fn not_locked<L: LockManager>(locks: &L, error: AppError) -> bool {
    exists|paths: ResolvedPaths| #[trigger]
        call_ensures(
            L::acquire,
            (locks, &paths.lock_file),
            Err::<Box<dyn LockGuard>, AppError>(error),
        )
}

/// The lock was taken under the resolved paths.
pub open spec fn holds_lock<P: PathResolver, L: LockManager>(
    resolver: &P,
    locks: &L,
    input: PathResolutionInput,
    requirement: ConfigRequirement,
    paths: ResolvedPaths,
) -> bool {
    &&& call_ensures(
        P::resolve,
        (resolver, &input, requirement),
        Ok::<ResolvedPaths, AppError>(paths),
    )
    &&& exists|lock: Result<Box<dyn LockGuard>, AppError>| #[trigger]
        call_ensures(L::acquire, (locks, &paths.lock_file), lock) && lock is Ok
}

/// The input is no network, or its file could not be read.
pub open spec fn unreadable_input<R: BlocklistRepository>(
    repository: &R,
    input: BlocklistInput,
    error: AppError,
) -> bool {
    match input {
        BlocklistInput::Single(value) => parse_strict(value@) is None && (error
            matches AppError::BlocklistTargetParse { input: given } && given@ == value@),
        BlocklistInput::File(path) => call_ensures(
            R::read_target_lines,
            (repository, &path),
            Err::<Vec<String>, AppError>(error),
        ),
    }
}

/// The blocklist could not be loaded.
pub open spec fn not_loaded<R: BlocklistRepository>(repository: &R, error: AppError) -> bool {
    exists|path: String| #[trigger]
        call_ensures(R::load, (repository, &path), Err::<BlocklistDocument, AppError>(error))
}

/// Entries could not be appended to the blocklist.
pub open spec fn not_appended<R: BlocklistRepository>(repository: &R, error: AppError) -> bool {
    exists|path: String, entries: Vec<String>, has_content: bool, trailing_newline: bool| #[trigger]
        call_ensures(
            R::append_entries,
            (repository, &path, &entries, has_content, trailing_newline),
            Err::<(), AppError>(error),
        )
}

/// The lines of the blocklist could not be written.
pub open spec fn not_written<R: BlocklistRepository>(repository: &R, error: AppError) -> bool {
    exists|path: String, lines: Vec<String>| #[trigger]
        call_ensures(R::write_lines, (repository, &path, &lines), Err::<(), AppError>(error))
}

/// A check of the cancellation refused further work of a lookup.
pub open spec fn work_refused<'a>(context: OfflineLookupContext<'a>, error: AppError) -> bool {
    verdicts(context.cancellation)(Err::<(), AppError>(error))
}

/// A source of a lookup failed.
pub open spec fn source_failed<'a, S: OfflineLookupProvider>(
    source: S,
    context: OfflineLookupContext<'a>,
    error: AppError,
) -> bool {
    call_ensures(
        S::offline_entries,
        (&source, &context),
        Err::<Vec<LookupSourceEntry>, AppError>(error),
    )
}

/// The configuration could not be loaded.
pub open spec fn no_config<C: ConfigRepository>(configs: &C, error: AppError) -> bool {
    exists|path: String| #[trigger]
        call_ensures(C::load, (configs, &path), Err::<Config, AppError>(error))
}

/// A ban that fails does so because its paths, its lock, its input or the blocklist failed.
pub proof fn law_ban_fails_with_a_port<
    'a,
    P: PathResolver,
    C: ConfigRepository,
    L: LockManager,
    R: BlocklistRepository,
    A: AsnOperations,
>(
    request: BanRequest,
    dependencies: BlocklistDependencies<'a, P, C, L, R, A>,
    error: AppError,
)
    requires
        call_ensures(
            execute_ban::<P, C, L, R, A>,
            (&request, &dependencies),
            Err::<BanOutcome, AppError>(error),
        ),
    ensures
        unresolved(dependencies.paths, request.paths, ConfigRequirement::Required, error)
            || not_locked(dependencies.locks, error) || unreadable_input(
            dependencies.repository,
            request.input,
            error,
        ) || not_loaded(dependencies.repository, error) || not_appended(
            dependencies.repository,
            error,
        ),
{
}

/// A ban that succeeds holds the lock of its paths.
pub proof fn law_ban_holds_the_lock<
    'a,
    P: PathResolver,
    C: ConfigRepository,
    L: LockManager,
    R: BlocklistRepository,
    A: AsnOperations,
>(
    request: BanRequest,
    dependencies: BlocklistDependencies<'a, P, C, L, R, A>,
    outcome: BanOutcome,
)
    requires
        call_ensures(
            execute_ban::<P, C, L, R, A>,
            (&request, &dependencies),
            Ok::<BanOutcome, AppError>(outcome),
        ),
    ensures
        exists|paths: ResolvedPaths| #[trigger]
            holds_lock(
                dependencies.paths,
                dependencies.locks,
                request.paths,
                ConfigRequirement::Required,
                paths,
            ),
{
    let outcome = Ok::<BanOutcome, AppError>(outcome);
    let paths = choose|paths: Result<ResolvedPaths, AppError>|
        {
            &&& #[trigger] call_ensures(
                P::resolve,
                (dependencies.paths, &request.paths, ConfigRequirement::Required),
                paths,
            )
            &&& paths is Ok
            &&& exists|lock: Result<Box<dyn LockGuard>, AppError>| #[trigger]
                call_ensures(
                    L::acquire,
                    (dependencies.locks, &paths->Ok_0.lock_file),
                    lock,
                ) && lock is Ok
        };
    assert(holds_lock(
        dependencies.paths,
        dependencies.locks,
        request.paths,
        ConfigRequirement::Required,
        paths->Ok_0,
    ));
}

/// A removal cannot be prepared only where its paths, its input or the blocklist failed.
pub proof fn law_preparation_fails_with_a_port<
    'a,
    P: PathResolver,
    C: ConfigRepository,
    L: LockManager,
    R: BlocklistRepository,
    A: AsnOperations,
>(
    request: UnbanRequest,
    dependencies: BlocklistDependencies<'a, P, C, L, R, A>,
    error: AppError,
)
    requires
        call_ensures(
            prepare_unban::<P, C, L, R, A>,
            (&request, &dependencies),
            Err::<UnbanPreparation, AppError>(error),
        ),
    ensures
        unresolved(dependencies.paths, request.paths, ConfigRequirement::Required, error)
            || unreadable_input(dependencies.repository, request.input, error) || not_loaded(
            dependencies.repository,
            error,
        ),
{
}

/// A prepared removal has a preview of the blocklist exactly where its input could be used, and
/// otherwise says what was wrong with it.
pub proof fn law_preparation_previews_the_blocklist<
    'a,
    P: PathResolver,
    C: ConfigRepository,
    L: LockManager,
    R: BlocklistRepository,
    A: AsnOperations,
>(
    request: UnbanRequest,
    dependencies: BlocklistDependencies<'a, P, C, L, R, A>,
    preparation: UnbanPreparation,
)
    requires
        call_ensures(
            prepare_unban::<P, C, L, R, A>,
            (&request, &dependencies),
            Ok::<UnbanPreparation, AppError>(preparation),
        ),
    ensures
        preparation.preview is Some <==> preparation.invalid_targets@.len() == 0
            && !preparation.empty_file,
        preparation.preview is Some ==> exists|path: String, document: BlocklistDocument|
            {
                &&& #[trigger] call_ensures(
                    R::load,
                    (dependencies.repository, &path),
                    Ok::<BlocklistDocument, AppError>(document),
                )
                &&& exists|targets: Seq<CanonicalCidr>| #[trigger]
                    preview_rule(
                        request.input,
                        targets,
                        line_models(document.lines@),
                        preparation.preview->0,
                    )
            },
{
}

/// A prepared removal that fails does so because its paths, its lock or the blocklist failed, or
/// because the blocklist no longer shows the preview.
pub proof fn law_removal_fails_with_a_port_or_a_change<
    'a,
    P: PathResolver,
    C: ConfigRepository,
    L: LockManager,
    R: BlocklistRepository,
    A: AsnOperations,
>(
    request: UnbanRequest,
    preview: UnbanPreview,
    decision: UnbanDecision,
    dependencies: BlocklistDependencies<'a, P, C, L, R, A>,
    error: AppError,
)
    requires
        call_ensures(
            apply_unban::<P, C, L, R, A>,
            (&request, &preview, &decision, &dependencies),
            Err::<UnbanOutcome, AppError>(error),
        ),
    ensures
        unresolved(dependencies.paths, request.paths, ConfigRequirement::Required, error)
            || not_locked(dependencies.locks, error) || not_loaded(dependencies.repository, error)
            || not_written(dependencies.repository, error) || error is BlocklistChanged && exists|
            current: UnbanPreview,
            document: BlocklistDocument,
        |
            #[trigger] preview_rule(
                request.input,
                preview.targets@,
                line_models(document.lines@),
                current,
            ) && current@ != preview@,
{
}

/// A prepared removal that succeeds holds the lock and removes what the preview shows from the
/// blocklist as it is under the lock.
pub proof fn law_removal_works_under_the_lock<
    'a,
    P: PathResolver,
    C: ConfigRepository,
    L: LockManager,
    R: BlocklistRepository,
    A: AsnOperations,
>(
    request: UnbanRequest,
    preview: UnbanPreview,
    decision: UnbanDecision,
    dependencies: BlocklistDependencies<'a, P, C, L, R, A>,
    outcome: UnbanOutcome,
) -> (r: (ResolvedPaths, BlocklistDocument, UnbanPlan))
    requires
        call_ensures(
            apply_unban::<P, C, L, R, A>,
            (&request, &preview, &decision, &dependencies),
            Ok::<UnbanOutcome, AppError>(outcome),
        ),
    ensures
        holds_lock(
            dependencies.paths,
            dependencies.locks,
            request.paths,
            ConfigRequirement::Required,
            r.0,
        ),
        call_ensures(
            R::load,
            (dependencies.repository, &r.0.blocklist_file),
            Ok::<BlocklistDocument, AppError>(r.1),
        ),
        unban_rule(preview, decision.remove_partial, line_models(r.1.lines@), r.2),
        outcome == r.2.outcome,
        r.2.kept_lines is Some ==> exists|written: Result<(), AppError>| #[trigger]
            call_ensures(
                R::write_lines,
                (dependencies.repository, &r.0.blocklist_file, &r.2.kept_lines->0),
                written,
            ) && written is Ok,
{
    let done = Ok::<UnbanOutcome, AppError>(outcome);
    let resolved = choose|paths: Result<ResolvedPaths, AppError>|
        {
            &&& #[trigger] call_ensures(
                P::resolve,
                (dependencies.paths, &request.paths, ConfigRequirement::Required),
                paths,
            )
            &&& paths is Ok
            &&& exists|lock: Result<Box<dyn LockGuard>, AppError>| #[trigger]
                call_ensures(
                    L::acquire,
                    (dependencies.locks, &paths->Ok_0.lock_file),
                    lock,
                ) && lock is Ok
            &&& locked_unban_rule(
                request.input,
                preview,
                decision.remove_partial,
                dependencies.repository,
                paths->Ok_0.blocklist_file,
                done,
            )
        };
    let paths = resolved->Ok_0;
    let loaded = choose|document: Result<BlocklistDocument, AppError>|
        {
            &&& #[trigger] call_ensures(
                R::load,
                (dependencies.repository, &paths.blocklist_file),
                document,
            )
            &&& document is Ok
            &&& approved_rule(
                request.input,
                preview,
                decision.remove_partial,
                dependencies.repository,
                paths.blocklist_file,
                document->Ok_0,
                done,
            )
        };
    let document = loaded->Ok_0;
    let lines = line_models(document.lines@);
    let plan = choose|plan: UnbanPlan|
        {
            &&& #[trigger] unban_rule(preview, decision.remove_partial, lines, plan)
            &&& done == Ok::<UnbanOutcome, AppError>(plan.outcome)
            &&& plan.kept_lines matches Some(kept) ==> exists|written: Result<(), AppError>|
                #[trigger] call_ensures(
                    R::write_lines,
                    (dependencies.repository, &paths.blocklist_file, &kept),
                    written,
                ) && written is Ok
        };
    (paths, document, plan)
}

/// Systems cannot be banned only where a port of the workflow failed.
pub proof fn law_asn_ban_fails_with_a_port<
    'a,
    P: PathResolver,
    C: ConfigRepository,
    L: LockManager,
    R: BlocklistRepository,
    A: AsnOperations,
>(
    request: AsnBanRequest,
    dependencies: BlocklistDependencies<'a, P, C, L, R, A>,
    error: AppError,
)
    requires
        call_ensures(
            execute_ban_asn::<P, C, L, R, A>,
            (&request, &dependencies),
            Err::<AsnBanOutcome, AppError>(error),
        ),
    ensures
        unresolved(dependencies.paths, request.paths, ConfigRequirement::Required, error)
            || not_locked(dependencies.locks, error) || call_ensures(
            A::normalize_tokens,
            (dependencies.asn, &request.tokens),
            Err::<Vec<u32>, AppError>(error),
        ) || (exists|path: String, add: Vec<u32>, remove: Vec<u32>| #[trigger]
            call_ensures(
                A::update_config,
                (dependencies.asn, &path, &add, &remove),
                Err::<AsnConfigUpdate, AppError>(error),
            )) || no_config(dependencies.configs, error) || exists|
            number: u32,
            cache_dir: String,
            age: u64,
        |
            #[trigger] call_ensures(
                A::load_prefixes,
                (dependencies.asn, number, &cache_dir, age),
                Err::<AsnPrefixBatch, AppError>(error),
            ),
{
}

/// Systems are banned under the lock, as the tokens of the request name them.
pub proof fn law_asn_ban_works_on_its_tokens<
    'a,
    P: PathResolver,
    C: ConfigRepository,
    L: LockManager,
    R: BlocklistRepository,
    A: AsnOperations,
>(
    request: AsnBanRequest,
    dependencies: BlocklistDependencies<'a, P, C, L, R, A>,
    outcome: AsnBanOutcome,
) -> (r: (ResolvedPaths, Vec<u32>))
    requires
        call_ensures(
            execute_ban_asn::<P, C, L, R, A>,
            (&request, &dependencies),
            Ok::<AsnBanOutcome, AppError>(outcome),
        ),
    ensures
        holds_lock(
            dependencies.paths,
            dependencies.locks,
            request.paths,
            ConfigRequirement::Required,
            r.0,
        ),
        call_ensures(
            A::normalize_tokens,
            (dependencies.asn, &request.tokens),
            Ok::<Vec<u32>, AppError>(r.1),
        ),
        locked_ban_asn_rule(
            dependencies.configs,
            dependencies.repository,
            dependencies.asn,
            r.0,
            r.1,
            Ok::<AsnBanOutcome, AppError>(outcome),
        ),
{
    let resolved = choose|paths: Result<ResolvedPaths, AppError>|
        {
            &&& #[trigger] call_ensures(
                P::resolve,
                (dependencies.paths, &request.paths, ConfigRequirement::Required),
                paths,
            )
            &&& paths is Ok
            &&& exists|
                numbers: Result<Vec<u32>, AppError>,
                lock: Result<Box<dyn LockGuard>, AppError>,
            |
                {
                    &&& #[trigger] call_ensures(
                        A::normalize_tokens,
                        (dependencies.asn, &request.tokens),
                        numbers,
                    )
                    &&& #[trigger] call_ensures(
                        L::acquire,
                        (dependencies.locks, &paths->Ok_0.lock_file),
                        lock,
                    )
                    &&& numbers is Ok && lock is Ok
            &&& locked_ban_asn_rule(
            dependencies.configs,
            dependencies.repository,
            dependencies.asn,
            paths->Ok_0,
            numbers->Ok_0,
            Ok::<AsnBanOutcome, AppError>(outcome),
        )
                }
        };
    let paths = resolved->Ok_0;
    let (numbers, _) = choose|
        numbers: Result<Vec<u32>, AppError>,
        lock: Result<Box<dyn LockGuard>, AppError>,
    |
        {
            &&& #[trigger] call_ensures(
                A::normalize_tokens,
                (dependencies.asn, &request.tokens),
                numbers,
            )
            &&& #[trigger] call_ensures(
                L::acquire,
                (dependencies.locks, &paths.lock_file),
                lock,
            )
            &&& numbers is Ok && lock is Ok
            &&& locked_ban_asn_rule(
            dependencies.configs,
            dependencies.repository,
            dependencies.asn,
            paths,
            numbers->Ok_0,
            Ok::<AsnBanOutcome, AppError>(outcome),
        )
        };
    (paths, numbers->Ok_0)
}

/// Systems cannot be unbanned only where a port of the workflow failed.
pub proof fn law_asn_unban_fails_with_a_port<
    'a,
    P: PathResolver,
    C: ConfigRepository,
    L: LockManager,
    R: BlocklistRepository,
    A: AsnOperations,
>(
    request: AsnBanRequest,
    dependencies: BlocklistDependencies<'a, P, C, L, R, A>,
    error: AppError,
)
    requires
        call_ensures(
            execute_unban_asn::<P, C, L, R, A>,
            (&request, &dependencies),
            Err::<AsnUnbanOutcome, AppError>(error),
        ),
    ensures
        unresolved(dependencies.paths, request.paths, ConfigRequirement::Required, error)
            || not_locked(dependencies.locks, error) || call_ensures(
            A::normalize_tokens,
            (dependencies.asn, &request.tokens),
            Err::<Vec<u32>, AppError>(error),
        ) || (exists|path: String, add: Vec<u32>, remove: Vec<u32>| #[trigger]
            call_ensures(
                A::update_config,
                (dependencies.asn, &path, &add, &remove),
                Err::<AsnConfigUpdate, AppError>(error),
            )),
{
}

/// Systems are unbanned under the lock, as the tokens of the request name them.
pub proof fn law_asn_unban_works_on_its_tokens<
    'a,
    P: PathResolver,
    C: ConfigRepository,
    L: LockManager,
    R: BlocklistRepository,
    A: AsnOperations,
>(
    request: AsnBanRequest,
    dependencies: BlocklistDependencies<'a, P, C, L, R, A>,
    outcome: AsnUnbanOutcome,
) -> (r: (ResolvedPaths, Vec<u32>))
    requires
        call_ensures(
            execute_unban_asn::<P, C, L, R, A>,
            (&request, &dependencies),
            Ok::<AsnUnbanOutcome, AppError>(outcome),
        ),
    ensures
        holds_lock(
            dependencies.paths,
            dependencies.locks,
            request.paths,
            ConfigRequirement::Required,
            r.0,
        ),
        call_ensures(
            A::normalize_tokens,
            (dependencies.asn, &request.tokens),
            Ok::<Vec<u32>, AppError>(r.1),
        ),
        locked_unban_asn_rule(
            dependencies.asn,
            r.0,
            r.1,
            Ok::<AsnUnbanOutcome, AppError>(outcome),
        ),
{
    let resolved = choose|paths: Result<ResolvedPaths, AppError>|
        {
            &&& #[trigger] call_ensures(
                P::resolve,
                (dependencies.paths, &request.paths, ConfigRequirement::Required),
                paths,
            )
            &&& paths is Ok
            &&& exists|
                numbers: Result<Vec<u32>, AppError>,
                lock: Result<Box<dyn LockGuard>, AppError>,
            |
                {
                    &&& #[trigger] call_ensures(
                        A::normalize_tokens,
                        (dependencies.asn, &request.tokens),
                        numbers,
                    )
                    &&& #[trigger] call_ensures(
                        L::acquire,
                        (dependencies.locks, &paths->Ok_0.lock_file),
                        lock,
                    )
                    &&& numbers is Ok && lock is Ok
            &&& locked_unban_asn_rule(
            dependencies.asn,
            paths->Ok_0,
            numbers->Ok_0,
            Ok::<AsnUnbanOutcome, AppError>(outcome),
        )
                }
        };
    let paths = resolved->Ok_0;
    let (numbers, _) = choose|
        numbers: Result<Vec<u32>, AppError>,
        lock: Result<Box<dyn LockGuard>, AppError>,
    |
        {
            &&& #[trigger] call_ensures(
                A::normalize_tokens,
                (dependencies.asn, &request.tokens),
                numbers,
            )
            &&& #[trigger] call_ensures(
                L::acquire,
                (dependencies.locks, &paths.lock_file),
                lock,
            )
            &&& numbers is Ok && lock is Ok
            &&& locked_unban_asn_rule(
            dependencies.asn,
            paths,
            numbers->Ok_0,
            Ok::<AsnUnbanOutcome, AppError>(outcome),
        )
        };
    (paths, numbers->Ok_0)
}

/// A flush fails only where its paths, its lock or its configuration failed, or, for the cache
/// alone, where the cache could not be cleared.
pub proof fn law_flush_fails_with_a_port<
    'a,
    P: PathResolver,
    C: ConfigRepository,
    L: LockManager,
    B: FlushBackend,
>(
    request: FlushRequest,
    dependencies: FlushDependencies<'a, P, C, L, B>,
    error: AppError,
)
    requires
        call_ensures(
            crate::workflow::flush::execute::<P, C, L, B>,
            (&request, &dependencies),
            Err::<FlushOutcome, AppError>(error),
        ),
    ensures
        unresolved(
            dependencies.paths,
            request.paths,
            if request.cache_only {
                ConfigRequirement::Optional
            } else {
                ConfigRequirement::Required
            },
            error,
        ) || not_locked(dependencies.locks, error) || (!request.cache_only && no_config(
            dependencies.configs,
            error,
        )) || (request.cache_only && exists|path: String, reason: String| #[trigger]
            call_ensures(
                B::clear_remote_cache,
                (dependencies.backend, &path),
                Err::<(), String>(reason),
            ) && error == (AppError::FlushCacheIo { path, reason })),
{
}

/// An initialization fails only where it was cancelled or a port of it failed.
pub proof fn law_init_fails_with_a_port<
    'a,
    X: Cancellation,
    P: PathResolver,
    I: InitProvisioner,
>(
    request: InitRequest,
    dependencies: InitDependencies<'a, X, P, I>,
    error: AppError,
)
    requires
        call_ensures(
            crate::workflow::init::execute::<X, P, I>,
            (&request, &dependencies),
            Err::<InitOutcome, AppError>(error),
        ),
    ensures
        call_ensures(X::check, (dependencies.cancellation,), Err::<(), AppError>(error))
            || unresolved(dependencies.paths, request.paths, ConfigRequirement::Optional, error)
            || call_ensures(
            I::resolve_installed_executable,
            (dependencies.provisioner, &request.executable_candidates),
            Err::<String, AppError>(error),
        ) || (exists|path: String| #[trigger]
            call_ensures(
                I::ensure_dir,
                (dependencies.provisioner, &path),
                Err::<ProvisionState, AppError>(error),
            )) || (exists|path: String, contents: String| #[trigger]
            call_ensures(
                I::ensure_file,
                (dependencies.provisioner, &path, &contents),
                Err::<ProvisionState, AppError>(error),
            )) || call_ensures(
            I::enable_systemd_timer,
            (dependencies.provisioner,),
            Err::<(), AppError>(error),
        ),
{
    reveal(verdicts);
}

/// A lookup fails only where its paths or its target file failed, where it was cancelled, or where
/// a source failed.
pub proof fn law_lookup_fails_with_a_port<
    'a,
    P: PathResolver,
    C: ConfigRepository,
    F: TargetFileReader,
    S: OfflineLookupProvider,
>(
    request: LookupRequest,
    dependencies: LookupDependencies<'a, P, C, F, S>,
    error: AppError,
) -> (r: (ResolvedPaths, Option<Config>, int))
    requires
        call_ensures(
            crate::workflow::lookup::execute::<P, C, F, S>,
            (&request, &dependencies),
            Err::<LookupOutcome, AppError>(error),
        ),
    ensures
        unresolved(dependencies.paths, request.paths, ConfigRequirement::Optional, error) || (
        request.input matches LookupInput::File(path) && call_ensures(
            F::read_lines,
            (dependencies.target_files, &path),
            Err::<Vec<String>, AppError>(error),
        )) || work_refused(
            (OfflineLookupContext {
                cancellation: dependencies.cancellation,
                paths: &r.0,
                config: match r.1 {
                    Some(config) => Some(&config),
                    None => None,
                },
            }),
            error,
        ) || 0 <= r.2 < dependencies.sources.provider_list().len() && source_failed(
            dependencies.sources.provider_list()[r.2],
            (OfflineLookupContext {
                cancellation: dependencies.cancellation,
                paths: &r.0,
                config: match r.1 {
                    Some(config) => Some(&config),
                    None => None,
                },
            }),
            error,
        ),
{
    let outcome = Err::<LookupOutcome, AppError>(error);
    let paths = choose|paths: Result<ResolvedPaths, AppError>|
        {
            &&& #[trigger] call_ensures(
                P::resolve,
                (dependencies.paths, &request.paths, ConfigRequirement::Optional),
                paths,
            )
            &&& match paths {
                Err(error) => outcome == Err::<LookupOutcome, AppError>(error),
                Ok(found) => resolved_lookup_rule(request.input, dependencies, found, outcome),
            }
        };
    if let Ok(at) = paths {
        let (config, notices, targets) = choose|
            config: Option<Config>,
            notices: Vec<Notice>,
            targets: Result<Seq<Seq<char>>, AppError>,
        |
            {
                &&& #[trigger] config_rule(dependencies.configs, at.config_file, config, notices@)
                &&& #[trigger] targets_rule(request.input, dependencies.target_files, targets)
                &&& match targets {
                    Err(error) => outcome == Err::<LookupOutcome, AppError>(error),
                    Ok(texts) => {
                        let context = OfflineLookupContext {
                            cancellation: dependencies.cancellation,
                            paths: &at,
                            config: match config {
                                Some(found) => Some(&found),
                                None => None,
                            },
                        };
                        searched_rule(
                            request.input,
                            *dependencies.sources,
                            context,
                            texts,
                            notices,
                            outcome,
                        )
                    },
                }
            };
        if let Ok(texts) = targets {
            let context = OfflineLookupContext {
                cancellation: dependencies.cancellation,
                paths: &at,
                config: match config {
                    Some(found) => Some(&found),
                    None => None,
                },
            };
            assert(offline_rule(
                dependencies.sources.provider_list(),
                context,
                verdicts(context.cancellation),
                Err::<Vec<LookupSourceEntry>, AppError>(error),
            ));
            let providers = dependencies.sources.provider_list();
            let checks = verdicts(context.cancellation);
            let entries = Err::<Vec<LookupSourceEntry>, AppError>(error);
            let batches = choose|batches: Seq<Vec<LookupSourceEntry>>|
                {
                    &&& batches.len() <= providers.len()
                    &&& #[trigger] provided(
                        providers.take(batches.len() as int),
                        context,
                        batches,
                    )
                    &&& batches.len() > 0 ==> allowed_by(checks)
                    &&& match entries {
                        Ok(list) => false,
                        Err(error) => batches.len() < providers.len() && (stopped_by(
                            checks,
                            entries,
                        ) || allowed_by(checks) && call_ensures(
                            S::offline_entries,
                            (&providers[batches.len() as int], &context),
                            Err(error),
                        )),
                    }
                };
            if !stopped_by(checks, entries) {
                assert(source_failed(providers[batches.len() as int], context, error));
            }
            (at, config, batches.len() as int)
        } else {
            assert(request.input is File);
            let path = request.input->File_0;
            let lines = choose|lines: Result<Vec<String>, AppError>|
                {
                    &&& #[trigger] call_ensures(F::read_lines, (dependencies.target_files, &path), lines)
                    &&& lines is Err
                    &&& lines->Err_0 == targets->Err_0
                };
            assert(lines == Err::<Vec<String>, AppError>(error));
            (at, config, 0)
        }
    } else {
        (paths->Ok_0, None, 0)
    }
}

} // verus!
