//! Removal of firewall wiring, managed sets and the remote cache.

use crate::policy::config::Config;
use crate::text::{same_text, views};
use crate::workflow::error::AppError;
use crate::workflow::paths::{ConfigRequirement, PathResolutionInput, ResolvedPaths};
use crate::workflow::ports::{ConfigRepository, LockGuard, LockManager, PathResolver};
use vstd::prelude::*;

verus! {

/// Firewall tables that can hold managed wiring.
#[derive(Debug, Clone, Copy, PartialEq, Eq, Structural)]
pub enum FirewallFamily {
    /// `iptables`.
    Ipv4,
    /// `ip6tables`.
    Ipv6,
}

/// Request to remove managed artifacts.
#[derive(Debug, Clone, PartialEq, Eq)]
pub struct FlushRequest {
    /// Runtime path inputs.
    pub paths: PathResolutionInput,
    /// Whether only the remote cache is cleared.
    pub cache_only: bool,
}

/// One cleanup that did not complete.
#[derive(Debug, Clone, PartialEq, Eq)]
pub struct CleanupFailure {
    /// What was attempted.
    pub operation: String,
    /// Why it failed.
    pub reason: String,
}

/// What a flush did and did not do.
#[derive(Debug, Clone, PartialEq, Eq)]
pub struct FlushOutcome {
    /// Completed operations, in order.
    pub completed: Vec<String>,
    /// Failed operations, in order.
    pub failed: Vec<CleanupFailure>,
}

impl Default for FlushOutcome {
    fn default() -> (outcome: FlushOutcome)
        ensures
            outcome.completed@.len() == 0,
            outcome.failed@.len() == 0,
    {
        FlushOutcome { completed: Vec::new(), failed: Vec::new() }
    }
}

/// Contents of a failure.
pub struct FailureModel {
    pub operation: Seq<char>,
    pub reason: Seq<char>,
}

impl View for CleanupFailure {
    type V = FailureModel;

    open spec fn view(&self) -> FailureModel {
        FailureModel { operation: self.operation@, reason: self.reason@ }
    }
}

/// Contents of failures, in order.
pub open spec fn failure_models(failures: Seq<CleanupFailure>) -> Seq<FailureModel> {
    failures.map_values(|f: CleanupFailure| f@)
}

/// Reasons with `; ` between them.
pub open spec fn joined_reasons(failures: Seq<FailureModel>) -> Seq<char>
    decreases failures.len(),
{
    if failures.len() == 0 {
        Seq::empty()
    } else if failures.len() == 1 {
        failures[0].reason
    } else {
        joined_reasons(failures.drop_last()) + "; "@ + failures.last().reason
    }
}

impl FlushOutcome {
    /// Reasons of all failures, in order.
    pub fn failure_details(&self) -> (details: String)
        ensures
            details@ == joined_reasons(failure_models(self.failed@)),
    {
        let ghost all = failure_models(self.failed@);
        let mut details: String = "".to_owned();
        let mut i: usize = 0;
        proof {
            reveal_strlit("");
            assert(details@ =~= joined_reasons(all.take(0)));
        }
        while i < self.failed.len()
            invariant
                i <= self.failed@.len(),
                all == failure_models(self.failed@),
                details@ == joined_reasons(all.take(i as int)),
            decreases self.failed@.len() - i,
        {
            proof {
                assert(all.take(i + 1).drop_last() =~= all.take(i as int));
                assert(all.take(i + 1).last() == all[i as int]);
            }
            if i > 0 {
                details.append("; ");
            }
            let ghost before = details@;
            details.append(self.failed[i].reason.as_str());
            proof {
                if i == 0 {
                    assert(before =~= Seq::<char>::empty());
                    assert(details@ =~= all[0].reason);
                }
            }
            i = i + 1;
        }
        assert(all.take(i as int) =~= all);
        details
    }
}

/// Side-effect boundary of the flush workflow.
pub trait FlushBackend {
    /// Removes managed firewall wiring of a family.
    fn cleanup_firewall(&self, family: FirewallFamily) -> (outcome: Result<(), String>);

    /// Destroys a managed set.
    fn destroy_ipset(&self, set_name: &String) -> (outcome: Result<(), String>);

    /// Clears the remote cache.
    fn clear_remote_cache(&self, path: &String) -> (outcome: Result<(), String>);
}

/// Ports required by the flush workflow.
pub struct FlushDependencies<
    'a,
    P: PathResolver,
    C: ConfigRepository,
    L: LockManager,
    B: FlushBackend,
> {
    /// Runtime path resolver.
    pub paths: &'a P,
    /// Validated configuration repository.
    pub configs: &'a C,
    /// Nonblocking process lock manager.
    pub locks: &'a L,
    /// Cleanup adapter.
    pub backend: &'a B,
}

/// One attempt and why it failed, if it did.
pub struct Attempt {
    pub operation: Seq<char>,
    pub failure: Option<Seq<char>>,
}

/// The attempt with the result.
pub open spec fn attempted(operation: Seq<char>, result: Result<(), String>) -> Attempt {
    Attempt {
        operation,
        failure: match result {
            Ok(_) => None,
            Err(reason) => Some(reason@),
        },
    }
}

/// Operations that completed, in order.
pub open spec fn completed_of(attempts: Seq<Attempt>) -> Seq<Seq<char>>
    decreases attempts.len(),
{
    if attempts.len() == 0 {
        Seq::empty()
    } else if attempts.last().failure is None {
        completed_of(attempts.drop_last()).push(attempts.last().operation)
    } else {
        completed_of(attempts.drop_last())
    }
}

/// Operations that failed, in order.
pub open spec fn failed_of(attempts: Seq<Attempt>) -> Seq<FailureModel>
    decreases attempts.len(),
{
    if attempts.len() == 0 {
        Seq::empty()
    } else {
        let before = failed_of(attempts.drop_last());
        match attempts.last().failure {
            None => before,
            Some(reason) => before.push(
                FailureModel { operation: attempts.last().operation, reason },
            ),
        }
    }
}

/// The outcome that the attempts give.
pub open spec fn outcome_of(attempts: Seq<Attempt>, outcome: FlushOutcome) -> bool {
    &&& views(outcome.completed@) == completed_of(attempts)
    &&& failure_models(outcome.failed@) == failed_of(attempts)
}

fn attempt(
    outcome: &mut FlushOutcome,
    operation: String,
    result: Result<(), String>,
    attempts: Ghost<Seq<Attempt>>,
)
    requires
        outcome_of(attempts@, *old(outcome)),
    ensures
        outcome_of(attempts@.push(attempted(operation@, result)), *final(outcome)),
{
    let ghost all = attempts@.push(attempted(operation@, result));
    let ghost completed = outcome.completed@;
    let ghost failed = outcome.failed@;
    assert(all.drop_last() =~= attempts@);
    match result {
        Ok(()) => {
            outcome.completed.push(operation);
            assert(views(outcome.completed@) =~= views(completed).push(operation@));
        },
        Err(reason) => {
            outcome.failed.push(CleanupFailure { operation, reason });
            assert(failure_models(outcome.failed@) =~= failure_models(failed).push(
                FailureModel { operation: operation@, reason: reason@ },
            ));
        },
    }
}

/// Operation of destroying a set.
pub open spec fn set_operation(name: Seq<char>) -> Seq<char> {
    "ipset `"@ + name + "`"@
}

/// Reason of a cache that could not be cleared.
pub open spec fn cache_reason(path: Seq<char>, reason: Seq<char>) -> Seq<char> {
    "failed to clear remote cache at "@ + path + ": "@ + reason
}

/// The attempt was made at the firewall of the family.
pub open spec fn firewall_attempt<B: FlushBackend>(
    backend: &B,
    family: FirewallFamily,
    attempt: Attempt,
) -> bool {
    exists|result: Result<(), String>| #[trigger]
        call_ensures(B::cleanup_firewall, (backend, family), result) && attempt == attempted(
            match family {
                FirewallFamily::Ipv4 => "IPv4 firewall"@,
                FirewallFamily::Ipv6 => "IPv6 firewall"@,
            },
            result,
        )
}

/// The attempt was made at the set.
pub open spec fn set_attempt<B: FlushBackend>(
    backend: &B,
    set_name: String,
    attempt: Attempt,
) -> bool {
    exists|result: Result<(), String>| #[trigger]
        call_ensures(B::destroy_ipset, (backend, &set_name), result) && attempt == attempted(
            set_operation(set_name@),
            result,
        )
}

/// The attempt was made at the remote cache.
pub open spec fn cache_attempt<B: FlushBackend>(
    backend: &B,
    path: String,
    attempt: Attempt,
) -> bool {
    exists|result: Result<(), String>| #[trigger]
        call_ensures(B::clear_remote_cache, (backend, &path), result) && attempt == (Attempt {
            operation: "remote cache"@,
            failure: match result {
                Ok(_) => None,
                Err(reason) => Some(cache_reason(path@, reason@)),
            },
        })
}

/// Every cleanup is attempted, in order, whatever became of those before it; two families that
/// share a set name share the attempt.
pub open spec fn full_attempts<B: FlushBackend>(
    backend: &B,
    paths: ResolvedPaths,
    config: Config,
    attempts: Seq<Attempt>,
) -> bool {
    let shared = config.ipset.set_name@ == config.ipset.set_name_v6@;
    &&& attempts.len() == if shared {
        4int
    } else {
        5int
    }
    &&& firewall_attempt(backend, FirewallFamily::Ipv4, attempts[0])
    &&& firewall_attempt(backend, FirewallFamily::Ipv6, attempts[1])
    &&& set_attempt(backend, config.ipset.set_name, attempts[2])
    &&& !shared ==> set_attempt(backend, config.ipset.set_name_v6, attempts[3])
    &&& cache_attempt(backend, paths.remote_cache_dir, attempts.last())
}

fn set_label(name: &String) -> (label: String)
    ensures
        label@ == set_operation(name@),
{
    let mut label: String = "ipset `".to_owned();
    label.append(name.as_str());
    label.append("`");
    label
}

/// Attempts every cleanup.
pub fn flush_everything<B: FlushBackend>(backend: &B, paths: &ResolvedPaths, config: &Config) -> (
outcome: FlushOutcome)
    ensures
        exists|attempts: Seq<Attempt>| #[trigger]
            full_attempts(backend, *paths, *config, attempts) && outcome_of(attempts, outcome),
{
    let ghost mut attempts: Seq<Attempt> = Seq::empty();
    let mut outcome: FlushOutcome = FlushOutcome::default();
    proof {
        assert(views(outcome.completed@) =~= completed_of(attempts));
        assert(failure_models(outcome.failed@) =~= failed_of(attempts));
    }
    let ipv4: Result<(), String> = backend.cleanup_firewall(FirewallFamily::Ipv4);
    let ghost a0 = attempted("IPv4 firewall"@, ipv4);
    attempt(&mut outcome, "IPv4 firewall".to_owned(), ipv4, Ghost(attempts));
    let ipv6: Result<(), String> = backend.cleanup_firewall(FirewallFamily::Ipv6);
    let ghost a1 = attempted("IPv6 firewall"@, ipv6);
    attempt(&mut outcome, "IPv6 firewall".to_owned(), ipv6, Ghost(attempts.push(a0)));
    let set: Result<(), String> = backend.destroy_ipset(&config.ipset.set_name);
    let ghost a2 = attempted(set_operation(config.ipset.set_name@), set);
    attempt(
        &mut outcome,
        set_label(&config.ipset.set_name),
        set,
        Ghost(attempts.push(a0).push(a1)),
    );
    proof {
        attempts = attempts.push(a0).push(a1).push(a2);
    }
    if !same_text(config.ipset.set_name_v6.as_str(), config.ipset.set_name.as_str()) {
        let set_v6: Result<(), String> = backend.destroy_ipset(&config.ipset.set_name_v6);
        let ghost a3 = attempted(set_operation(config.ipset.set_name_v6@), set_v6);
        attempt(&mut outcome, set_label(&config.ipset.set_name_v6), set_v6, Ghost(attempts));
        proof {
            attempts = attempts.push(a3);
            assert(set_attempt(backend, config.ipset.set_name_v6, a3));
        }
    }
    let cleared: Result<(), String> = backend.clear_remote_cache(&paths.remote_cache_dir);
    let ghost reply = cleared;
    let cache: Result<(), String> = match cleared {
        Ok(()) => Ok(()),
        Err(reason) => {
            let mut text: String = "failed to clear remote cache at ".to_owned();
            text.append(paths.remote_cache_dir.as_str());
            text.append(": ");
            text.append(reason.as_str());
            Err(text)
        },
    };
    let ghost last = attempted("remote cache"@, cache);
    attempt(&mut outcome, "remote cache".to_owned(), cache, Ghost(attempts));
    proof {
        attempts = attempts.push(last);
        assert(call_ensures(B::clear_remote_cache, (backend, &paths.remote_cache_dir), reply));
        assert(cache_attempt(backend, paths.remote_cache_dir, last));
        assert(firewall_attempt(backend, FirewallFamily::Ipv4, a0));
        assert(firewall_attempt(backend, FirewallFamily::Ipv6, a1));
        assert(set_attempt(backend, config.ipset.set_name, a2));
        assert(full_attempts(backend, *paths, *config, attempts));
    }
    outcome
}

/// A flush under the lock: only the cache, or everything after the configuration was loaded.
pub open spec fn locked_flush_rule<C: ConfigRepository, B: FlushBackend>(
    configs: &C,
    backend: &B,
    paths: ResolvedPaths,
    cache_only: bool,
    outcome: Result<FlushOutcome, AppError>,
) -> bool {
    if cache_only {
        exists|result: Result<(), String>|
            {
                &&& #[trigger] call_ensures(
                    B::clear_remote_cache,
                    (backend, &paths.remote_cache_dir),
                    result,
                )
                &&& match result {
                    Ok(_) => outcome is Ok && views(outcome->Ok_0.completed@) == seq![
                        "remote cache"@,
                    ] && outcome->Ok_0.failed@.len() == 0,
                    Err(reason) => outcome == Err::<FlushOutcome, AppError>(
                        AppError::FlushCacheIo { path: paths.remote_cache_dir, reason },
                    ),
                }
            }
    } else {
        exists|config: Result<Config, AppError>|
            {
                &&& #[trigger] call_ensures(C::load, (configs, &paths.config_file), config)
                &&& match config {
                    Err(error) => outcome == Err::<FlushOutcome, AppError>(error),
                    Ok(found) => outcome is Ok && exists|attempts: Seq<Attempt>| #[trigger]
                        full_attempts(backend, paths, found, attempts) && outcome_of(
                            attempts,
                            outcome->Ok_0,
                        ),
                }
            }
    }
}

/// Only a flush of the cache alone does without a configuration.
pub open spec fn requirement_for(cache_only: bool) -> ConfigRequirement {
    if cache_only {
        ConfigRequirement::Optional
    } else {
        ConfigRequirement::Required
    }
}

/// A flush: paths, then the lock.
pub open spec fn flush_rule<P: PathResolver, C: ConfigRepository, L: LockManager, B: FlushBackend>(
    request: FlushRequest,
    dependencies: FlushDependencies<'_, P, C, L, B>,
    outcome: Result<FlushOutcome, AppError>,
) -> bool {
    exists|paths: Result<ResolvedPaths, AppError>|
        {
            &&& #[trigger] resolved_with(
                dependencies.paths,
                request.paths,
                requirement_for(request.cache_only),
                paths,
            )
            &&& match paths {
                Err(error) => outcome == Err::<FlushOutcome, AppError>(error),
                Ok(found) => exists|lock: Result<Box<dyn LockGuard>, AppError>|
                    {
                        &&& #[trigger] call_ensures(
                            L::acquire,
                            (dependencies.locks, &found.lock_file),
                            lock,
                        )
                        &&& match lock {
                            Err(error) => outcome == Err::<FlushOutcome, AppError>(error),
                            Ok(_) => locked_flush_rule(
                                dependencies.configs,
                                dependencies.backend,
                                found,
                                request.cache_only,
                                outcome,
                            ),
                        }
                    },
            }
        }
}

/// The resolver returned the paths for the requirement.
pub open spec fn resolved_with<P: PathResolver>(
    resolver: &P,
    input: PathResolutionInput,
    requirement: ConfigRequirement,
    paths: Result<ResolvedPaths, AppError>,
) -> bool {
    call_ensures(P::resolve, (resolver, &input, requirement), paths)
}

/// Removes managed artifacts under the process lock.
///
/// Cleanup failures are part of the outcome. A flush of the cache alone loads no configuration
/// and returns [`AppError::FlushCacheIo`] when the cache cannot be cleared.
pub fn execute<P: PathResolver, C: ConfigRepository, L: LockManager, B: FlushBackend>(
    request: &FlushRequest,
    dependencies: &FlushDependencies<'_, P, C, L, B>,
) -> (outcome: Result<FlushOutcome, AppError>)
    ensures
        flush_rule(*request, *dependencies, outcome),
{
    let requirement: ConfigRequirement = if request.cache_only {
        ConfigRequirement::Optional
    } else {
        ConfigRequirement::Required
    };
    assert(requirement == requirement_for(request.cache_only));
    let reply: Result<ResolvedPaths, AppError> = dependencies.paths.resolve(
        &request.paths,
        requirement,
    );
    assert(resolved_with(
        dependencies.paths,
        request.paths,
        requirement_for(request.cache_only),
        reply,
    ));
    let paths: ResolvedPaths = match reply {
        Ok(paths) => paths,
        Err(error) => {
            return Err(error);
        },
    };
    let _lock: Box<dyn LockGuard> = match dependencies.locks.acquire(&paths.lock_file) {
        Ok(lock) => lock,
        Err(error) => {
            return Err(error);
        },
    };
    if request.cache_only {
        return match dependencies.backend.clear_remote_cache(&paths.remote_cache_dir) {
            Ok(()) => {
                let mut completed: Vec<String> = Vec::new();
                completed.push("remote cache".to_owned());
                assert(views(completed@) =~= seq!["remote cache"@]);
                Ok(FlushOutcome { completed, failed: Vec::new() })
            },
            Err(reason) => Err(AppError::FlushCacheIo { path: paths.remote_cache_dir, reason }),
        };
    }
    let config: Config = match dependencies.configs.load(&paths.config_file) {
        Ok(config) => config,
        Err(error) => {
            return Err(error);
        },
    };
    Ok(flush_everything(dependencies.backend, &paths, &config))
}

} // verus!
