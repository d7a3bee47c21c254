//! What a firewall cleanup does to the managed chains and to the jumps to them.

use crate::adapter::command_runner::{CommandResult, CommandRunnerError};
use crate::adapter::enforcement::{
    firewall_notices, ipv6_cleanup_rule, set_notices, CommandEnforcementBackend, IpsetCommandRunner,
    IpsetSets,
};
use crate::adapter::firewall_text::{jump_positions, FirewallError, FirewallFamily};
use crate::adapter::host::says_missing_set;
use crate::adapter::iptables::{
    attempted_rule, attempts_rule, cleaned, cleanup_stages, clear_rule, genuine,
    lemma_attempts_are_attempted, listing, missing, passed, stage_rule, Exchange,
    FirewallCommandRunner, StageModel, CLEAR_ROUNDS,
};
use crate::policy::cidr_text::str_views;
use crate::workflow::source::{notice_models, warning_model, Notice, NoticeLevel};
use crate::workflow::sync::{EnforcementBackend, EnforcementPlan};
use vstd::prelude::*;

verus! {

/// The command lists INPUT and found no jump to the chain.
pub open spec fn lists_no_jump(exchange: Exchange, chain: Seq<char>) -> bool {
    &&& exchange.args == seq!["-w"@, "5"@, "-S"@, "INPUT"@]
    &&& passed(exchange)
    &&& jump_positions(listing(exchange), chain).len() == 0
}

/// The command did its work, or its chain was gone already.
pub open spec fn settled(exchange: Exchange) -> bool {
    passed(exchange) || missing(exchange)
}

/// The last four commands empty and delete the staging chain, then the enforcement chain.
pub open spec fn ends_with_removal(log: Seq<Exchange>) -> bool {
    let n = log.len() as int;
    &&& n >= 6
    &&& log[n - 4].args == seq!["-w"@, "5"@, "-F"@, "kidobo-input-stage"@]
    &&& log[n - 3].args == seq!["-w"@, "5"@, "-X"@, "kidobo-input-stage"@]
    &&& log[n - 2].args == seq!["-w"@, "5"@, "-F"@, "kidobo-input"@]
    &&& log[n - 1].args == seq!["-w"@, "5"@, "-X"@, "kidobo-input"@]
}

proof fn lemma_attempted_head(
    family: FirewallFamily,
    stages: Seq<StageModel>,
    log: Seq<Exchange>,
) -> (r: (int, Option<FirewallError>))
    requires
        stages.len() > 0,
        attempted_rule(family, stages, log),
    ensures
        0 <= r.0 <= log.len(),
        stage_rule(family, stages[0], log.take(r.0), r.1),
        attempted_rule(family, stages.drop_first(), log.skip(r.0)),
{
    choose|n: int, first: Option<FirewallError>|
        {
            &&& 0 <= n <= log.len()
            &&& #[trigger] stage_rule(family, stages[0], log.take(n), first)
            &&& attempted_rule(family, stages.drop_first(), log.skip(n))
        }
}

proof fn lemma_settled_head(
    family: FirewallFamily,
    stages: Seq<StageModel>,
    log: Seq<Exchange>,
) -> (n: int)
    requires
        stages.len() > 0,
        attempts_rule(family, stages, log, None),
    ensures
        0 <= n <= log.len(),
        stage_rule(family, stages[0], log.take(n), None),
        attempts_rule(family, stages.drop_first(), log.skip(n), None),
{
    let (n, first) = choose|n: int, first: Option<FirewallError>|
        {
            &&& 0 <= n <= log.len()
            &&& #[trigger] stage_rule(family, stages[0], log.take(n), first)
            &&& if first is Some {
                None::<FirewallError> == first && attempted_rule(
                    family,
                    stages.drop_first(),
                    log.skip(n),
                )
            } else {
                attempts_rule(family, stages.drop_first(), log.skip(n), None)
            }
        };
    n
}

proof fn lemma_clear_ends(
    family: FirewallFamily,
    chain: Seq<char>,
    rounds: nat,
    log: Seq<Exchange>,
)
    requires
        clear_rule(family, chain, true, rounds, log, None),
    ensures
        log.len() > 0,
        lists_no_jump(log.last(), chain),
    decreases rounds,
{
    assert(seq!["-w"@, "5"@] + seq!["-S"@, "INPUT"@] =~= seq!["-w"@, "5"@, "-S"@, "INPUT"@]);
    if log.len() != 1 {
        lemma_clear_ends(family, chain, (rounds - 1) as nat, log.skip(2));
    }
}

proof fn lemma_clear_starts(
    family: FirewallFamily,
    chain: Seq<char>,
    log: Seq<Exchange>,
    failure: Option<FirewallError>,
)
    requires
        clear_rule(family, chain, true, CLEAR_ROUNDS as nat, log, failure),
    ensures
        log.len() > 0,
        log[0].args == seq!["-w"@, "5"@, "-S"@, "INPUT"@],
{
    assert(seq!["-w"@, "5"@] + seq!["-S"@, "INPUT"@] =~= seq!["-w"@, "5"@, "-S"@, "INPUT"@]);
}

/// The four commands on the chains, once the jumps have been seen to.
spec fn removals() -> Seq<StageModel> {
    seq![
        StageModel::RunOnChain { args: seq!["-F"@, "kidobo-input-stage"@] },
        StageModel::RunOnChain { args: seq!["-X"@, "kidobo-input-stage"@] },
        StageModel::RunOnChain { args: seq!["-F"@, "kidobo-input"@] },
        StageModel::RunOnChain { args: seq!["-X"@, "kidobo-input"@] },
    ]
}

proof fn lemma_removals(family: FirewallFamily, log: Seq<Exchange>)
    requires
        attempted_rule(family, removals(), log),
    ensures
        log.len() == 4,
        log[0].args == seq!["-w"@, "5"@, "-F"@, "kidobo-input-stage"@],
        log[1].args == seq!["-w"@, "5"@, "-X"@, "kidobo-input-stage"@],
        log[2].args == seq!["-w"@, "5"@, "-F"@, "kidobo-input"@],
        log[3].args == seq!["-w"@, "5"@, "-X"@, "kidobo-input"@],
{
    let s0 = removals();
    let s1 = s0.drop_first();
    let s2 = s1.drop_first();
    let s3 = s2.drop_first();
    let (n0, _) = lemma_attempted_head(family, s0, log);
    let l1 = log.skip(n0);
    let (n1, _) = lemma_attempted_head(family, s1, l1);
    let l2 = l1.skip(n1);
    let (n2, _) = lemma_attempted_head(family, s2, l2);
    let l3 = l2.skip(n2);
    let (n3, _) = lemma_attempted_head(family, s3, l3);
    assert(s3.drop_first().len() == 0);
    assert(l3.skip(n3).len() == 0);
    assert(log.take(n0)[0] == log[0]);
    assert(l1.take(n1)[0] == log[1]);
    assert(l2.take(n2)[0] == log[2]);
    assert(l3.take(n3)[0] == log[3]);
    assert(seq!["-w"@, "5"@] + seq!["-F"@, "kidobo-input-stage"@]
        =~= seq!["-w"@, "5"@, "-F"@, "kidobo-input-stage"@]);
    assert(seq!["-w"@, "5"@] + seq!["-X"@, "kidobo-input-stage"@]
        =~= seq!["-w"@, "5"@, "-X"@, "kidobo-input-stage"@]);
    assert(seq!["-w"@, "5"@] + seq!["-F"@, "kidobo-input"@]
        =~= seq!["-w"@, "5"@, "-F"@, "kidobo-input"@]);
    assert(seq!["-w"@, "5"@] + seq!["-X"@, "kidobo-input"@]
        =~= seq!["-w"@, "5"@, "-X"@, "kidobo-input"@]);
}

proof fn lemma_removals_settled(family: FirewallFamily, log: Seq<Exchange>)
    requires
        attempts_rule(family, removals(), log, None),
        log.len() == 4,
    ensures
        forall|i: int| 0 <= i < 4 ==> settled(#[trigger] log[i]),
{
    let s0 = removals();
    let s1 = s0.drop_first();
    let s2 = s1.drop_first();
    let s3 = s2.drop_first();
    let n0 = lemma_settled_head(family, s0, log);
    let l1 = log.skip(n0);
    let n1 = lemma_settled_head(family, s1, l1);
    let l2 = l1.skip(n1);
    let n2 = lemma_settled_head(family, s2, l2);
    let l3 = l2.skip(n2);
    let n3 = lemma_settled_head(family, s3, l3);
    assert(log.take(n0)[0] == log[0]);
    assert(l1.take(n1)[0] == log[1]);
    assert(l2.take(n2)[0] == log[2]);
    assert(l3.take(n3)[0] == log[3]);
}

/// A cleanup lists INPUT first and ends by emptying and deleting both chains, whether or not an
/// earlier step failed. One that fails nowhere has seen INPUT without a jump to either chain
/// before it touched them, and each of the two was emptied and deleted or was gone already.
pub proof fn law_cleanup_removes_jumps_and_chains<R: FirewallCommandRunner>(
    runner: &R,
    family: FirewallFamily,
    failure: Option<FirewallError>,
) -> (r: (Seq<Exchange>, int))
    requires
        cleaned(runner, family, failure),
    ensures
        genuine(runner, family, r.0),
        ends_with_removal(r.0),
        r.0[0].args == seq!["-w"@, "5"@, "-S"@, "INPUT"@],
        failure is None ==> {
            let (log, k) = r;
            &&& 0 <= k < log.len() - 5
            &&& lists_no_jump(log[k], "kidobo-input-stage"@)
            &&& lists_no_jump(log[log.len() - 5], "kidobo-input"@)
            &&& forall|i: int| log.len() - 4 <= i < log.len() ==> settled(#[trigger] log[i])
        },
{
    let log = choose|log: Seq<Exchange>| #[trigger]
        genuine(runner, family, log) && attempts_rule(family, cleanup_stages(), log, failure);
    let stages = cleanup_stages();
    let rest = stages.drop_first();
    assert(rest.drop_first() =~= removals());
    lemma_attempts_are_attempted(family, stages, log, failure);
    let (n, first) = lemma_attempted_head(family, stages, log);
    lemma_clear_starts(family, "kidobo-input-stage"@, log.take(n), first);
    let l1 = log.skip(n);
    let (m, second) = lemma_attempted_head(family, rest, l1);
    lemma_clear_starts(family, "kidobo-input"@, l1.take(m), second);
    lemma_removals(family, l1.skip(m));
    assert(l1.skip(m) =~= log.skip(log.len() - 4));
    let tail = log.skip(log.len() - 4);
    assert(log[log.len() - 4] == tail[0]);
    assert(log[log.len() - 3] == tail[1]);
    assert(log[log.len() - 2] == tail[2]);
    assert(log[log.len() - 1] == tail[3]);
    assert(log[0] == log.take(n)[0]);
    if failure is None {
        let a = lemma_settled_head(family, stages, log);
        lemma_clear_ends(family, "kidobo-input-stage"@, CLEAR_ROUNDS as nat, log.take(a));
        let after = log.skip(a);
        let b = lemma_settled_head(family, rest, after);
        lemma_clear_ends(family, "kidobo-input"@, CLEAR_ROUNDS as nat, after.take(b));
        lemma_attempts_are_attempted(family, removals(), after.skip(b), None);
        lemma_removals(family, after.skip(b));
        lemma_removals_settled(family, after.skip(b));
        assert(after.skip(b) =~= tail);
        assert(log.take(a).last() == log[a - 1]);
        assert(after.take(b).last() == log[log.len() - 5]);
        assert forall|i: int| log.len() - 4 <= i < log.len() implies settled(
            #[trigger] log[i],
        ) by {
            assert(log[i] == tail[i - (log.len() - 4)]);
        }
        (log, a - 1)
    } else {
        (log, 0)
    }
}

/// A set was destroyed, or was gone already.
pub open spec fn set_gone(reply: Result<CommandResult, CommandRunnerError>) -> bool {
    reply matches Ok(result) && (result.status.succeeded() || says_missing_set(result))
}

/// The reply came from the command that destroys the set.
pub open spec fn asked_to_destroy<R: IpsetCommandRunner>(
    runner: &R,
    set_name: Seq<char>,
    reply: Result<CommandResult, CommandRunnerError>,
) -> bool {
    exists|args: &[&str]| #[trigger]
        call_ensures(<R as IpsetCommandRunner>::run, (runner, "ipset", args), reply) && str_views(
            args@,
        ) == seq!["destroy"@, set_name]
}

/// Where IPv6 is disabled, its firewall rules are cleaned up and its set is destroyed, unless the
/// set has the name of the IPv4 set. Each of the two that does not succeed gives a warning, and so
/// does the shared name; where nothing went wrong there is no notice.
pub proof fn law_disabled_ipv6_is_cleaned_up<
    R: IpsetSets + IpsetCommandRunner + FirewallCommandRunner,
>(backend: &CommandEnforcementBackend<R>, plan: EnforcementPlan, notices: Vec<Notice>) -> (r: (
    Option<FirewallError>,
    Result<CommandResult, CommandRunnerError>,
))
    requires
        call_ensures(
            <CommandEnforcementBackend<R> as EnforcementBackend>::cleanup_disabled_ipv6,
            (backend, &plan),
            notices,
        ),
    ensures
        cleaned(&backend.runner, FirewallFamily::Ipv6, r.0),
        plan.ipv6.set_name@ != plan.ipv4.set_name@ ==> asked_to_destroy(
            &backend.runner,
            plan.ipv6.set_name@,
            r.1,
        ),
        notices@.len() == (if r.0 is Some {
            1int
        } else {
            0
        }) + (if plan.ipv6.set_name@ == plan.ipv4.set_name@ || !set_gone(r.1) {
            1int
        } else {
            0
        }),
        forall|i: int| 0 <= i < notices@.len() ==> (#[trigger] notices@[i]).level == NoticeLevel::Warning,
{
    let models = notice_models(notices@);
    assert(models.len() == notices@.len());
    assert(ipv6_cleanup_rule(&backend.runner, plan, models));
    assert forall|i: int| 0 <= i < notices@.len() implies (#[trigger] notices@[i]).level
        == NoticeLevel::Warning by {
        assert(models[i] == notices@[i]@);
    }
    let shared = plan.ipv6.set_name@ == plan.ipv4.set_name@;
    let failure = choose|failure: Option<FirewallError>|
        {
            &&& #[trigger] cleaned(&backend.runner, FirewallFamily::Ipv6, failure)
            &&& if shared {
                models == firewall_notices(failure).push(
                    warning_model(
                        "disabled IPv6 ipset cleanup skipped because its name matches the IPv4 set"@,
                    ),
                )
            } else {
                exists|args: &[&str], reply: Result<CommandResult, CommandRunnerError>|
                    {
                        &&& #[trigger] call_ensures(
                            <R as IpsetCommandRunner>::run,
                            (&backend.runner, "ipset", args),
                            reply,
                        )
                        &&& str_views(args@) == seq!["destroy"@, plan.ipv6.set_name@]
                        &&& models == firewall_notices(failure) + set_notices(
                            plan.ipv6.set_name@,
                            reply,
                        )
                    }
            }
        };
    let (args, reply) = choose|args: &[&str], reply: Result<CommandResult, CommandRunnerError>|
        {
            &&& #[trigger] call_ensures(
                <R as IpsetCommandRunner>::run,
                (&backend.runner, "ipset", args),
                reply,
            )
            &&& str_views(args@) == seq!["destroy"@, plan.ipv6.set_name@]
            &&& models == firewall_notices(failure) + set_notices(plan.ipv6.set_name@, reply)
        };
    if !shared {
        assert(str_views(args@) == seq!["destroy"@, plan.ipv6.set_name@]);
        assert(call_ensures(
            <R as IpsetCommandRunner>::run,
            (&backend.runner, "ipset", args),
            reply,
        ));
        assert(asked_to_destroy(&backend.runner, plan.ipv6.set_name@, reply));
    }
    (failure, reply)
}

} // verus!
