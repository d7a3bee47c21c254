//! Application ports implemented by operating-system and network adapters.

use crate::policy::config::Config;
use crate::workflow::error::AppError;
use crate::workflow::paths::{ConfigRequirement, PathResolutionInput, ResolvedPaths};
use vstd::prelude::*;

verus! {

/// Cooperative cancellation checked between operations and outside enforcement commits.
pub trait Cancellation {
    /// Returns whether the caller requested cancellation.
    fn is_cancelled(&self) -> (cancelled: bool);

    /// Rejects further work with [`AppError::Interrupted`] when cancellation is pending.
    fn check(&self) -> (allowed: Result<(), AppError>)
        default_ensures
            call_ensures(Self::is_cancelled, (self,), allowed is Err),
            allowed is Err ==> allowed == Err::<(), AppError>(AppError::Interrupted),
    {
        if self.is_cancelled() {
            Err(AppError::Interrupted)
        } else {
            Ok(())
        }
    }
}

/// What checks of the cancellation, whatever implements it, may bring: further work is allowed, or
/// rejected with a failure.
#[verifier::opaque]
pub open spec fn verdicts<X: Cancellation + ?Sized>(cancellation: &X) -> spec_fn(
    Result<(), AppError>,
) -> bool {
    |allowed: Result<(), AppError>| call_ensures(X::check, (cancellation,), allowed)
}

/// A check allowed further work.
pub open spec fn allowed_by(checks: spec_fn(Result<(), AppError>) -> bool) -> bool {
    exists|allowed: Result<(), AppError>| #[trigger] checks(allowed) && allowed is Ok
}

/// A check rejected further work with the failure of the outcome.
pub open spec fn stopped_by<T>(
    checks: spec_fn(Result<(), AppError>) -> bool,
    outcome: Result<T, AppError>,
) -> bool {
    outcome matches Err(error) && checks(Err(error))
}

/// Checks the cancellation.
pub fn check_cancellation<X: Cancellation + ?Sized>(cancellation: &X) -> (allowed: Result<
    (),
    AppError,
>)
    ensures
        verdicts(cancellation)(allowed),
{
    reveal(verdicts);
    cancellation.check()
}

/// Cancellation policy for callers that do not install an interrupt handler.
#[derive(Debug, Default)]
pub struct NoCancellation;

impl Cancellation for NoCancellation {
    fn is_cancelled(&self) -> (cancelled: bool)
        ensures
            !cancelled,
    {
        false
    }
}

/// Resolves all runtime locations before a command workflow begins.
pub trait PathResolver {
    /// Resolves compatibility-sensitive runtime paths.
    ///
    /// Fails when environment or explicit path inputs are invalid, or when required configuration
    /// is absent.
    fn resolve(&self, input: &PathResolutionInput, requirement: ConfigRequirement) -> (paths: Result<
        ResolvedPaths,
        AppError,
    >);
}

/// Loads validated configuration without exposing filesystem details to workflows.
pub trait ConfigRepository {
    /// Loads validated configuration from `path`.
    fn load(&self, path: &String) -> (config: Result<Config, AppError>);
}

/// Lifetime guard for an acquired Kidobo process lock.
///
/// Implementations release the lock when the guard is dropped.
pub trait LockGuard {

}

/// Acquires the process-wide workflow lock without blocking.
pub trait LockManager {
    /// Acquires the nonblocking process lock at `path`.
    ///
    /// Fails when the lock file cannot be opened securely or the lock is already held.
    fn acquire(&self, path: &String) -> (guard: Result<Box<dyn LockGuard>, AppError>);
}

/// Reads operator-provided line-oriented target files through a bounded adapter.
pub trait TargetFileReader {
    /// Reads bounded line-oriented targets from `path`.
    fn read_lines(&self, path: &String) -> (lines: Result<Vec<String>, AppError>);
}

} // verus!
