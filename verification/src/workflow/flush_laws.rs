//! What a flush attempts and reports.

use crate::policy::config::Config;
use crate::text::views;
use crate::workflow::error::AppError;
use crate::workflow::flush::{
    attempted, completed_of, failed_of, failure_models, flush_rule, full_attempts, joined_reasons,
    locked_flush_rule, outcome_of, resolved_with, Attempt, FailureModel, FirewallFamily,
    FlushBackend, FlushDependencies, FlushOutcome, FlushRequest,
};
use crate::workflow::paths::{ConfigRequirement, ResolvedPaths};
use crate::workflow::ports::{ConfigRepository, LockManager, PathResolver};
use vstd::prelude::*;

verus! {

/// The outcome says of the operation what the reply says: that it completed, or why it failed.
pub open spec fn tells(
    outcome: FlushOutcome,
    operation: Seq<char>,
    reply: Result<(), String>,
    note: Seq<char>,
) -> bool {
    match reply {
        Ok(_) => views(outcome.completed@).contains(operation),
        Err(reason) => failure_models(outcome.failed@).contains(
            FailureModel { operation, reason: note + reason@ },
        ),
    }
}

proof fn lemma_counted(attempts: Seq<Attempt>)
    ensures
        completed_of(attempts).len() + failed_of(attempts).len() == attempts.len(),
        forall|i: int|
            0 <= i < attempts.len() && (#[trigger] attempts[i]).failure is None ==> completed_of(
                attempts,
            ).contains(attempts[i].operation),
        forall|i: int|
            0 <= i < attempts.len() && (#[trigger] attempts[i]).failure is Some ==> failed_of(
                attempts,
            ).contains(
                FailureModel {
                    operation: attempts[i].operation,
                    reason: attempts[i].failure->0,
                },
            ),
    decreases attempts.len(),
{
    if attempts.len() > 0 {
        let front = attempts.drop_last();
        let last = attempts.last();
        lemma_counted(front);
        let completed = completed_of(attempts);
        let failed = failed_of(attempts);
        assert forall|i: int|
            0 <= i < attempts.len() && (#[trigger] attempts[i]).failure is None implies
            completed.contains(attempts[i].operation) by {
            if i < front.len() {
                assert(attempts[i] == front[i]);
                let k = choose|k: int|
                    0 <= k < completed_of(front).len() && completed_of(front)[k]
                        == front[i].operation;
                assert(completed[k] == attempts[i].operation);
            } else {
                assert(completed[completed.len() - 1] == last.operation);
            }
        }
        assert forall|i: int|
            0 <= i < attempts.len() && (#[trigger] attempts[i]).failure is Some implies
            failed.contains(
            FailureModel { operation: attempts[i].operation, reason: attempts[i].failure->0 },
        ) by {
            let model = FailureModel {
                operation: attempts[i].operation,
                reason: attempts[i].failure->0,
            };
            if i < front.len() {
                assert(attempts[i] == front[i]);
                let k = choose|k: int|
                    0 <= k < failed_of(front).len() && failed_of(front)[k] == model;
                assert(failed[k] == model);
            } else {
                assert(failed[failed.len() - 1] == model);
            }
        }
    }
}

proof fn lemma_told(
    attempts: Seq<Attempt>,
    outcome: FlushOutcome,
    i: int,
    reply: Result<(), String>,
    note: Seq<char>,
)
    requires
        outcome_of(attempts, outcome),
        0 <= i < attempts.len(),
        attempts[i].failure == match reply {
            Ok(_) => None::<Seq<char>>,
            Err(reason) => Some(note + reason@),
        },
    ensures
        tells(outcome, attempts[i].operation, reply, note),
        outcome.completed@.len() + outcome.failed@.len() == attempts.len(),
{
    lemma_counted(attempts);
    assert(views(outcome.completed@).len() == outcome.completed@.len());
    assert(failure_models(outcome.failed@).len() == outcome.failed@.len());
}

/// Replies of the cleanups of a full flush.
pub struct FlushReplies {
    pub ipv4_firewall: Result<(), String>,
    pub ipv6_firewall: Result<(), String>,
    pub ipv4_set: Result<(), String>,
    pub ipv6_set: Result<(), String>,
    pub cache: Result<(), String>,
}

/// A full flush that loads its configuration attempts to clean up the firewalls of both families,
/// the configured sets of both families and the cache, whatever fails; it says of each what became
/// of it, and lists nothing else.
pub proof fn law_full_flush_attempts_every_cleanup<
    P: PathResolver,
    C: ConfigRepository,
    L: LockManager,
    B: FlushBackend,
>(
    request: FlushRequest,
    dependencies: FlushDependencies<'_, P, C, L, B>,
    outcome: FlushOutcome,
) -> (found: (ResolvedPaths, Config, FlushReplies))
    requires
        !request.cache_only,
        flush_rule(request, dependencies, Ok(outcome)),
    ensures
        call_ensures(
            P::resolve,
            (dependencies.paths, &request.paths, ConfigRequirement::Required),
            Ok::<ResolvedPaths, AppError>(found.0),
        ),
        call_ensures(
            C::load,
            (dependencies.configs, &found.0.config_file),
            Ok::<Config, AppError>(found.1),
        ),
        call_ensures(
            B::cleanup_firewall,
            (dependencies.backend, FirewallFamily::Ipv4),
            found.2.ipv4_firewall,
        ),
        tells(outcome, "IPv4 firewall"@, found.2.ipv4_firewall, Seq::empty()),
        call_ensures(
            B::cleanup_firewall,
            (dependencies.backend, FirewallFamily::Ipv6),
            found.2.ipv6_firewall,
        ),
        tells(outcome, "IPv6 firewall"@, found.2.ipv6_firewall, Seq::empty()),
        call_ensures(
            B::destroy_ipset,
            (dependencies.backend, &found.1.ipset.set_name),
            found.2.ipv4_set,
        ),
        tells(
            outcome,
            "ipset `"@ + found.1.ipset.set_name@ + "`"@,
            found.2.ipv4_set,
            Seq::empty(),
        ),
        found.1.ipset.set_name@ != found.1.ipset.set_name_v6@ ==> call_ensures(
            B::destroy_ipset,
            (dependencies.backend, &found.1.ipset.set_name_v6),
            found.2.ipv6_set,
        ),
        found.1.ipset.set_name@ != found.1.ipset.set_name_v6@ ==> tells(
            outcome,
            "ipset `"@ + found.1.ipset.set_name_v6@ + "`"@,
            found.2.ipv6_set,
            Seq::empty(),
        ),
        call_ensures(
            B::clear_remote_cache,
            (dependencies.backend, &found.0.remote_cache_dir),
            found.2.cache,
        ),
        tells(
            outcome,
            "remote cache"@,
            found.2.cache,
            "failed to clear remote cache at "@ + found.0.remote_cache_dir@ + ": "@,
        ),
        outcome.completed@.len() + outcome.failed@.len() == if found.1.ipset.set_name@
            == found.1.ipset.set_name_v6@ {
            4int
        } else {
            5int
        },
{
    let backend = dependencies.backend;
    let reply = choose|reply: Result<ResolvedPaths, AppError>|
        {
            &&& #[trigger] resolved_with(
                dependencies.paths,
                request.paths,
                ConfigRequirement::Required,
                reply,
            )
            &&& reply is Ok
            &&& locked_flush_rule(
                dependencies.configs,
                backend,
                reply->Ok_0,
                false,
                Ok::<FlushOutcome, AppError>(outcome),
            )
        };
    let paths = reply->Ok_0;
    let loaded = choose|config: Result<Config, AppError>|
        {
            &&& #[trigger] call_ensures(
                C::load,
                (dependencies.configs, &paths.config_file),
                config,
            )
            &&& config is Ok
            &&& exists|attempts: Seq<Attempt>| #[trigger]
                full_attempts(backend, paths, config->Ok_0, attempts) && outcome_of(
                    attempts,
                    outcome,
                )
        };
    let config = loaded->Ok_0;
    let attempts = choose|attempts: Seq<Attempt>| #[trigger]
        full_attempts(backend, paths, config, attempts) && outcome_of(attempts, outcome);
    let ipv4_firewall = choose|result: Result<(), String>| #[trigger]
        call_ensures(B::cleanup_firewall, (backend, FirewallFamily::Ipv4), result) && attempts[0]
            == attempted("IPv4 firewall"@, result);
    let ipv6_firewall = choose|result: Result<(), String>| #[trigger]
        call_ensures(B::cleanup_firewall, (backend, FirewallFamily::Ipv6), result) && attempts[1]
            == attempted("IPv6 firewall"@, result);
    let ipv4_name = "ipset `"@ + config.ipset.set_name@ + "`"@;
    let ipv4_set = choose|result: Result<(), String>| #[trigger]
        call_ensures(B::destroy_ipset, (backend, &config.ipset.set_name), result) && attempts[2]
            == attempted(ipv4_name, result);
    let ipv6_name = "ipset `"@ + config.ipset.set_name_v6@ + "`"@;
    let ipv6_set = choose|result: Result<(), String>| #[trigger]
        call_ensures(B::destroy_ipset, (backend, &config.ipset.set_name_v6), result)
            && attempts[3] == attempted(ipv6_name, result);
    let note = "failed to clear remote cache at "@ + paths.remote_cache_dir@ + ": "@;
    let cache = choose|result: Result<(), String>| #[trigger]
        call_ensures(B::clear_remote_cache, (backend, &paths.remote_cache_dir), result)
            && attempts.last() == (Attempt {
            operation: "remote cache"@,
            failure: match result {
                Ok(_) => None,
                Err(reason) => Some(note + reason@),
            },
        });
    let none = Seq::<char>::empty();
    lemma_reply(attempts, outcome, 0, ipv4_firewall);
    lemma_reply(attempts, outcome, 1, ipv6_firewall);
    lemma_reply(attempts, outcome, 2, ipv4_set);
    if config.ipset.set_name@ != config.ipset.set_name_v6@ {
        lemma_reply(attempts, outcome, 3, ipv6_set);
    }
    lemma_told(attempts, outcome, attempts.len() - 1, cache, note);
    (paths, config, FlushReplies { ipv4_firewall, ipv6_firewall, ipv4_set, ipv6_set, cache })
}

proof fn lemma_reply(
    attempts: Seq<Attempt>,
    outcome: FlushOutcome,
    i: int,
    reply: Result<(), String>,
)
    requires
        outcome_of(attempts, outcome),
        0 <= i < attempts.len(),
        attempts[i].failure == match reply {
            Ok(_) => None::<Seq<char>>,
            Err(reason) => Some(reason@),
        },
    ensures
        tells(outcome, attempts[i].operation, reply, Seq::empty()),
{
    if let Err(reason) = reply {
        assert(Seq::<char>::empty() + reason@ =~= reason@);
    }
    lemma_told(attempts, outcome, i, reply, Seq::empty());
}

/// A flush of the cache alone needs no configuration, reports the one cleanup, and fails where the
/// cache could not be cleared.
pub proof fn law_cache_flush_clears_the_cache<
    P: PathResolver,
    C: ConfigRepository,
    L: LockManager,
    B: FlushBackend,
>(
    request: FlushRequest,
    dependencies: FlushDependencies<'_, P, C, L, B>,
    outcome: FlushOutcome,
) -> (found: (ResolvedPaths, Result<(), String>))
    requires
        request.cache_only,
        flush_rule(request, dependencies, Ok(outcome)),
    ensures
        call_ensures(
            P::resolve,
            (dependencies.paths, &request.paths, ConfigRequirement::Optional),
            Ok::<ResolvedPaths, AppError>(found.0),
        ),
        found.1 is Ok,
        call_ensures(
            B::clear_remote_cache,
            (dependencies.backend, &found.0.remote_cache_dir),
            found.1,
        ),
        views(outcome.completed@) == seq!["remote cache"@],
        outcome.failed@.len() == 0,
{
    let reply = choose|reply: Result<ResolvedPaths, AppError>|
        {
            &&& #[trigger] resolved_with(
                dependencies.paths,
                request.paths,
                ConfigRequirement::Optional,
                reply,
            )
            &&& reply is Ok
            &&& locked_flush_rule(
                dependencies.configs,
                dependencies.backend,
                reply->Ok_0,
                true,
                Ok::<FlushOutcome, AppError>(outcome),
            )
        };
    let paths = reply->Ok_0;
    let cleared = choose|result: Result<(), String>|
        #[trigger] call_ensures(
            B::clear_remote_cache,
            (dependencies.backend, &paths.remote_cache_dir),
            result,
        ) && result is Ok && views(outcome.completed@) == seq!["remote cache"@]
            && outcome.failed@.len() == 0;
    (paths, cleared)
}

/// The details of the failures are their reasons in order, with `; ` between them.
pub proof fn law_failure_details_join_the_reasons(
    failures: Seq<FailureModel>,
    next: FailureModel,
)
    ensures
        joined_reasons(Seq::empty()) == Seq::<char>::empty(),
        joined_reasons(seq![next]) == next.reason,
        failures.len() > 0 ==> joined_reasons(failures.push(next)) == joined_reasons(failures)
            + seq![';', ' '] + next.reason,
{
    reveal_strlit("; ");
    assert(failures.push(next).drop_last() =~= failures);
    assert("; "@ =~= seq![';', ' ']);
}

} // verus!
