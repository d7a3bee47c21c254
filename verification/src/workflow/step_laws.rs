//! How the steps of a run follow each other.

use crate::workflow::error::AppError;
use crate::workflow::sync::SyncOutcome;
use crate::workflow::sync_run::{turn_rule, SyncEvent, SyncPhase, SyncRun, SyncTurn};
use vstd::prelude::*;

verus! {

/// Success leads to the phase, and a failure ends the run as it is.
pub open spec fn leads_to<T>(
    result: Result<T, AppError>,
    phase: SyncPhase,
    after: SyncRun,
    turn: SyncTurn,
) -> bool {
    match result {
        Ok(_) => turn.ending is None && after.phase == phase,
        Err(error) => fails_with(error, after, turn),
    }
}

/// The run ends with the error.
pub open spec fn fails_with(error: AppError, after: SyncRun, turn: SyncTurn) -> bool {
    turn.ending == Some(Err::<SyncOutcome, AppError>(error)) && after.phase is Ended
}

/// A run goes from the paths to the configuration, to the lock, to the artifacts and to its first
/// source, each time exactly where the step before it succeeded; a step that fails ends the run
/// with its own error, and so does a cancellation before a source.
pub proof fn law_run_prepares_in_order(
    before: SyncRun,
    event: SyncEvent,
    after: SyncRun,
    turn: SyncTurn,
)
    requires
        turn_rule(before, event, after, turn),
    ensures
        match (before.phase, event) {
            (SyncPhase::ResolvePaths, SyncEvent::PathsResolved(result)) => leads_to(
                result,
                SyncPhase::LoadConfig,
                after,
                turn,
            ),
            (SyncPhase::LoadConfig, SyncEvent::ConfigLoaded(result)) => leads_to(
                result,
                SyncPhase::AcquireLock,
                after,
                turn,
            ) && (result is Ok ==> after.plan == Some(result->Ok_0)),
            (SyncPhase::AcquireLock, SyncEvent::LockAcquired(result)) => leads_to(
                result,
                SyncPhase::PrepareArtifacts,
                after,
                turn,
            ),
            (SyncPhase::PrepareArtifacts, SyncEvent::ArtifactsPrepared(result)) =>
                before.sources@.len() > 0 || result is Err ==> leads_to(
                result,
                SyncPhase::LoadSource { index: 0 },
                after,
                turn,
            ),
            (SyncPhase::LoadSource { .. }, SyncEvent::Interrupted(error)) => fails_with(
                error,
                after,
                turn,
            ),
            _ => true,
        },
{
    reveal(turn_rule);
}

/// Once the lists are made, a run selects its caches one after the other, replaces the IPv6 set
/// where that family is enabled, then the IPv4 set, activates the firewall, and cleans up where
/// IPv6 is disabled. A step that fails ends the run with its own error.
pub proof fn law_run_enforces_in_order(
    before: SyncRun,
    event: SyncEvent,
    after: SyncRun,
    turn: SyncTurn,
)
    requires
        turn_rule(before, event, after, turn),
    ensures
        match (before.phase, event) {
            (SyncPhase::PromoteCache { index }, SyncEvent::CachePromoted(result)) => match result {
                Ok(_) => turn.ending is None && after.phase == (if index + 1
                    < before.loaded.pending_promotions@.len() {
                    SyncPhase::PromoteCache { index: (index + 1) as usize }
                } else if before.plan->0.enable_ipv6 {
                    SyncPhase::ReplaceIpv6
                } else {
                    SyncPhase::ReplaceIpv4
                }),
                Err(reason) => fails_with(
                    AppError::CachePromotion {
                        provider: before.loaded.pending_promotions@[index as int].provider,
                        reason,
                    },
                    after,
                    turn,
                ),
            },
            (SyncPhase::ReplaceIpv6, SyncEvent::SetReplaced(result)) => leads_to(
                result,
                SyncPhase::ReplaceIpv4,
                after,
                turn,
            ),
            (SyncPhase::ReplaceIpv4, SyncEvent::SetReplaced(result)) => leads_to(
                result,
                SyncPhase::Activate,
                after,
                turn,
            ),
            (SyncPhase::Activate, SyncEvent::Activated(result)) => match result {
                Ok(_) => if before.plan->0.enable_ipv6 {
                    turn.ending is Some && turn.ending->0 is Ok
                } else {
                    turn.ending is None && after.phase is CleanUpIpv6
                },
                Err(error) => fails_with(error, after, turn),
            },
            (SyncPhase::CleanUpIpv6, SyncEvent::Ipv6CleanedUp(_)) => turn.ending is Some
                && turn.ending->0 is Ok,
            _ => true,
        },
{
    reveal(turn_rule);
}

} // verus!
