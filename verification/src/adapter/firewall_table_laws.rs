//! What a successful wiring leaves in the firewall table.

use crate::adapter::firewall_laws::{lemma_operation, lemma_operations, operation_of, Operation};
use crate::adapter::firewall_text::{
    jump_positions, rule_count, ChainAction, FirewallError, FirewallFamily, KIDOBO_CHAIN_NAME,
    KIDOBO_STAGING_CHAIN_NAME,
};
use crate::adapter::iptables::{
    clear_rule, delete_rule, insert_jump, listing, missing, passed, sequence_rule, set_rule,
    stage_rule, wiring_stages, Exchange, CLEAR_ROUNDS,
};
use vstd::prelude::*;

verus! {

/// A rule of INPUT.
pub enum InputRule {
    /// The jump to the enforcement chain.
    StableJump,
    /// The jump to the staging chain.
    StagingJump,
    /// A rule that is not Kidobo's, by its words.
    Other(Seq<Seq<char>>),
}

/// Contents of a firewall table.
pub struct TableContents {
    /// Rules of the enforcement chain by their words, where it exists.
    pub stable: Option<Seq<Seq<Seq<char>>>>,
    /// Rules of the staging chain by their words, where it exists.
    pub staging: Option<Seq<Seq<Seq<char>>>>,
    /// Rules of INPUT.
    pub input: Seq<InputRule>,
}

/// The rules that are not Kidobo's, in order.
pub open spec fn others(input: Seq<InputRule>) -> Seq<InputRule>
    decreases input.len(),
{
    if input.len() == 0 {
        Seq::empty()
    } else if input[0] is Other {
        seq![input[0]] + others(input.drop_first())
    } else {
        others(input.drop_first())
    }
}

/// The rules without the first one that equals the rule.
pub open spec fn without_first(input: Seq<InputRule>, rule: InputRule) -> Seq<InputRule>
    decreases input.len(),
{
    if input.len() == 0 {
        Seq::empty()
    } else if input[0] == rule {
        input.drop_first()
    } else {
        seq![input[0]] + without_first(input.drop_first(), rule)
    }
}

/// The one-based positions are those of the rule.
pub open spec fn stands_at(
    input: Seq<InputRule>,
    rule: InputRule,
    positions: Seq<usize>,
) -> bool {
    &&& forall|k: int|
        0 <= k < positions.len() ==> 1 <= #[trigger] positions[k] <= input.len() && input[positions[k]
            - 1] == rule
    &&& forall|i: int|
        0 <= i < input.len() && #[trigger] input[i] == rule ==> exists|k: int|
            0 <= k < positions.len() && #[trigger] positions[k] == i + 1
}

/// Words of the rule that an appending command appends.
pub open spec fn appended(exchange: Exchange) -> Seq<Seq<char>> {
    exchange.args.skip(4)
}

/// The reply to a command describes the table before it, and the table after it is as the command
/// says; a command that did not succeed changes nothing.
pub open spec fn carried_out(
    before: TableContents,
    exchange: Exchange,
    after: TableContents,
) -> bool {
    if !passed(exchange) {
        after == before
    } else {
        match operation_of(exchange) {
            Operation::ListStable => after == before && before.stable is Some
                && before.stable->0.len() == rule_count(listing(exchange), KIDOBO_CHAIN_NAME@),
            Operation::ListStaging => after == before && before.staging is Some
                && before.staging->0.len() == rule_count(
                listing(exchange),
                KIDOBO_STAGING_CHAIN_NAME@,
            ),
            Operation::ListInput => after == before && stands_at(
                before.input,
                InputRule::StableJump,
                jump_positions(listing(exchange), KIDOBO_CHAIN_NAME@),
            ) && stands_at(
                before.input,
                InputRule::StagingJump,
                jump_positions(listing(exchange), KIDOBO_STAGING_CHAIN_NAME@),
            ),
            Operation::CreateStable => before.stable is None && after == (TableContents {
                stable: Some(Seq::empty()),
                ..before
            }),
            Operation::CreateStaging => before.staging is None && after == (TableContents {
                staging: Some(Seq::empty()),
                ..before
            }),
            Operation::AppendStable => before.stable is Some && after == (TableContents {
                stable: Some(before.stable->0.push(appended(exchange))),
                ..before
            }),
            Operation::AppendStagingJump => before.staging is Some && after == (TableContents {
                staging: Some(before.staging->0.push(appended(exchange))),
                ..before
            }),
            Operation::DeleteStableRule => before.stable is Some && before.stable->0.len() > 0
                && after == (TableContents {
                stable: Some(before.stable->0.drop_first()),
                ..before
            }),
            Operation::DeleteStagingRule => before.staging is Some && before.staging->0.len() > 0
                && after == (TableContents {
                staging: Some(before.staging->0.drop_first()),
                ..before
            }),
            Operation::InsertStableJump => after == (TableContents {
                input: seq![InputRule::StableJump] + before.input,
                ..before
            }),
            Operation::InsertStagingJump => after == (TableContents {
                input: seq![InputRule::StagingJump] + before.input,
                ..before
            }),
            Operation::DeleteStableJump => before.input.contains(InputRule::StableJump) && after
                == (TableContents {
                input: without_first(before.input, InputRule::StableJump),
                ..before
            }),
            Operation::DeleteStagingJump => before.input.contains(InputRule::StagingJump) && after
                == (TableContents {
                input: without_first(before.input, InputRule::StagingJump),
                ..before
            }),
            Operation::FlushStaging => before.staging is Some && after == (TableContents {
                staging: Some(Seq::empty()),
                ..before
            }),
            Operation::DropStaging => before.staging is Some && after == (TableContents {
                staging: None,
                ..before
            }),
            Operation::Unknown => true,
        }
    }
}

/// The managed chains are as they were; INPUT may have changed in any way.
pub open spec fn kept(a: TableContents, b: TableContents) -> bool {
    a.stable == b.stable && a.staging == b.staging
}

/// Tables before and after each exchange. Between two commands nobody else changes the managed
/// chains.
pub open spec fn proceeds(
    log: Seq<Exchange>,
    tables: Seq<(TableContents, TableContents)>,
) -> bool {
    &&& tables.len() == log.len()
    &&& forall|i: int|
        0 <= i < log.len() ==> carried_out(tables[i].0, #[trigger] log[i], tables[i].1)
    &&& forall|i: int, j: int|
        0 <= i < tables.len() && j == i + 1 && j < tables.len() ==> kept(
            (#[trigger] tables[i]).1,
            (#[trigger] tables[j]).0,
        )
}

/// Between two commands nobody else changes the table at all.
pub open spec fn undisturbed(tables: Seq<(TableContents, TableContents)>) -> bool {
    forall|i: int, j: int|
        0 <= i < tables.len() && j == i + 1 && j < tables.len() ==> (#[trigger] tables[i]).1 == (
        #[trigger] tables[j]).0
}

/// Operations that the wiring is made of; from its third stage on, none changes the enforcement
/// chain.
spec fn belongs(k: int, exchange: Exchange) -> bool {
    let op = operation_of(exchange);
    op != Operation::Unknown && (k >= 2 ==> op != Operation::CreateStable && op
        != Operation::AppendStable && op != Operation::DeleteStableRule)
}

/// Every exchange is one of the wiring from stage `k` on.
spec fn all_belong(k: int, log: Seq<Exchange>) -> bool {
    forall|i: int| 0 <= i < log.len() ==> belongs(k, #[trigger] log[i])
}

/// A jump in front is not one of the other rules.
proof fn lemma_others_insert(input: Seq<InputRule>, rule: InputRule)
    requires
        !(rule is Other),
    ensures
        others(seq![rule] + input) == others(input),
{
    assert((seq![rule] + input).drop_first() =~= input);
}

/// Deleting a jump keeps the other rules.
proof fn lemma_others_delete(input: Seq<InputRule>, rule: InputRule)
    requires
        !(rule is Other),
    ensures
        others(without_first(input, rule)) == others(input),
    decreases input.len(),
{
    if input.len() > 0 && input[0] != rule {
        let rest = without_first(input.drop_first(), rule);
        lemma_others_delete(input.drop_first(), rule);
        assert((seq![input[0]] + rest).drop_first() =~= rest);
    }
}

/// Rules that are all other rules.
proof fn lemma_all_others(input: Seq<InputRule>)
    requires
        forall|i: int| 0 <= i < input.len() ==> (#[trigger] input[i]) is Other,
    ensures
        others(input) == input,
    decreases input.len(),
{
    if input.len() > 0 {
        let rest = input.drop_first();
        assert forall|i: int| 0 <= i < rest.len() implies (#[trigger] rest[i]) is Other by {
            assert(rest[i] == input[i + 1]);
        }
        lemma_all_others(rest);
        assert(seq![input[0]] + rest =~= input);
    }
}

/// A command of the wiring keeps the other rules, and after the second stage the enforcement chain.
proof fn lemma_step(k: int, before: TableContents, exchange: Exchange, after: TableContents)
    requires
        carried_out(before, exchange, after),
        belongs(k, exchange),
    ensures
        others(after.input) == others(before.input),
        k >= 2 ==> after.stable == before.stable,
{
    lemma_others_insert(before.input, InputRule::StableJump);
    lemma_others_insert(before.input, InputRule::StagingJump);
    lemma_others_delete(before.input, InputRule::StableJump);
    lemma_others_delete(before.input, InputRule::StagingJump);
}

/// After the second stage, commands of the wiring keep the enforcement chain.
proof fn lemma_steps(
    k: int,
    log: Seq<Exchange>,
    tables: Seq<(TableContents, TableContents)>,
    n: int,
)
    requires
        k >= 2,
        proceeds(log, tables),
        all_belong(k, log),
        0 <= n < tables.len(),
    ensures
        tables[n].1.stable == tables[0].0.stable,
    decreases n,
{
    assert(carried_out(tables[n].0, log[n], tables[n].1));
    lemma_step(k, tables[n].0, log[n], tables[n].1);
    if n > 0 {
        lemma_steps(k, log, tables, n - 1);
        assert(kept(tables[n - 1].1, tables[n].0));
    }
}

/// Where nobody else changes the table, the other rules are the first ones throughout.
proof fn lemma_others_stay(
    log: Seq<Exchange>,
    tables: Seq<(TableContents, TableContents)>,
    n: int,
)
    requires
        proceeds(log, tables),
        all_belong(0, log),
        undisturbed(tables),
        0 <= n < tables.len(),
    ensures
        others(tables[n].1.input) == others(tables[0].0.input),
    decreases n,
{
    assert(carried_out(tables[n].0, log[n], tables[n].1));
    lemma_step(0, tables[n].0, log[n], tables[n].1);
    if n > 0 {
        lemma_others_stay(log, tables, n - 1);
        assert(tables[n - 1].1 == tables[n].0);
    }
}

/// The parts of a history.
proof fn lemma_proceeds_split(
    log: Seq<Exchange>,
    tables: Seq<(TableContents, TableContents)>,
    n: int,
)
    requires
        proceeds(log, tables),
        0 <= n <= log.len(),
    ensures
        proceeds(log.skip(n), tables.skip(n)),
        proceeds(log.take(n), tables.take(n)),
{
    let rest = log.skip(n);
    let after = tables.skip(n);
    assert forall|i: int| 0 <= i < rest.len() implies carried_out(
        after[i].0,
        #[trigger] rest[i],
        after[i].1,
    ) by {
        assert(rest[i] == log[n + i]);
        assert(after[i] == tables[n + i]);
    }
    assert forall|i: int, j: int|
        0 <= i < after.len() && j == i + 1 && j < after.len() implies kept(
        (#[trigger] after[i]).1,
        (#[trigger] after[j]).0,
    ) by {
        assert(after[i] == tables[n + i] && after[j] == tables[n + j]);
    }
    let front = log.take(n);
    let until = tables.take(n);
    assert forall|i: int| 0 <= i < front.len() implies carried_out(
        until[i].0,
        #[trigger] front[i],
        until[i].1,
    ) by {
        assert(front[i] == log[i]);
    }
}

/// Commands that delete rules of a chain belong to the wiring.
proof fn lemma_delete_belongs(
    family: FirewallFamily,
    chain: Seq<char>,
    n: nat,
    log: Seq<Exchange>,
    failure: Option<FirewallError>,
)
    requires
        delete_rule(family, chain, n, log, failure),
        chain == KIDOBO_CHAIN_NAME@ || chain == KIDOBO_STAGING_CHAIN_NAME@,
    ensures
        all_belong(0, log),
        chain == KIDOBO_STAGING_CHAIN_NAME@ ==> all_belong(2, log),
    decreases n,
{
    lemma_operations(Seq::empty());
    if n > 0 {
        lemma_operation(log[0], seq!["-D"@, chain, "1"@]);
        if passed(log[0]) {
            let rest = log.skip(1);
            lemma_delete_belongs(family, chain, (n - 1) as nat, rest, failure);
            assert forall|i: int| 0 <= i < log.len() implies belongs(0, #[trigger] log[i]) && (chain
                == KIDOBO_STAGING_CHAIN_NAME@ ==> belongs(2, log[i])) by {
                if i > 0 {
                    assert(rest[i - 1] == log[i]);
                }
            }
        }
    }
}

/// Commands that delete jumps belong to the wiring.
proof fn lemma_clear_belongs(
    family: FirewallFamily,
    chain: Seq<char>,
    rounds: nat,
    log: Seq<Exchange>,
    failure: Option<FirewallError>,
)
    requires
        clear_rule(family, chain, false, rounds, log, failure),
        chain == KIDOBO_CHAIN_NAME@ || chain == KIDOBO_STAGING_CHAIN_NAME@,
    ensures
        all_belong(2, log),
    decreases rounds,
{
    lemma_operations(Seq::empty());
    if rounds > 0 {
        lemma_operation(log[0], seq!["-S"@, "INPUT"@]);
        if passed(log[0]) && jump_positions(listing(log[0]), chain).len() > 0 {
            lemma_operation(log[1], seq!["-D"@, "INPUT"@, "-j"@, chain]);
            if passed(log[1]) {
                let rest = log.skip(2);
                lemma_clear_belongs(family, chain, (rounds - 1) as nat, rest, failure);
                assert forall|i: int| 0 <= i < log.len() implies belongs(2, #[trigger] log[i]) by {
                    if i > 1 {
                        assert(rest[i - 2] == log[i]);
                    }
                }
            }
        }
    }
}

/// Commands of stage `k` belong to the wiring from that stage on.
proof fn lemma_stage_belongs(
    family: FirewallFamily,
    set_name: Seq<char>,
    action: ChainAction,
    k: int,
    log: Seq<Exchange>,
    failure: Option<FirewallError>,
)
    requires
        0 <= k < 11,
        stage_rule(family, wiring_stages(set_name, action)[k], log, failure),
    ensures
        all_belong(k, log),
        log.len() > 0,
{
    let stable = KIDOBO_CHAIN_NAME@;
    let staging = KIDOBO_STAGING_CHAIN_NAME@;
    lemma_operations(set_rule(set_name, action));
    if k == 0 || k == 2 {
        let chain = if k == 0 {
            stable
        } else {
            staging
        };
        lemma_operation(log[0], seq!["-S"@, chain]);
        if !passed(log[0]) && missing(log[0]) {
            assert(log.skip(1)[0] == log[1]);
            lemma_operation(log[1], seq!["-N"@, chain]);
        }
    } else if k == 1 || k == 3 {
        let chain = if k == 1 {
            stable
        } else {
            staging
        };
        let rule = if k == 1 {
            set_rule(set_name, action)
        } else {
            seq!["-j"@, stable]
        };
        lemma_operation(log[0], seq!["-S"@, chain]);
        if passed(log[0]) {
            lemma_operation(log[1], seq!["-A"@, chain] + rule);
            if passed(log[1]) {
                let rest = log.skip(2);
                lemma_delete_belongs(
                    family,
                    chain,
                    rule_count(listing(log[0]), chain),
                    rest,
                    failure,
                );
                assert forall|i: int| 0 <= i < log.len() implies belongs(k, #[trigger] log[i]) by {
                    if i > 1 {
                        assert(rest[i - 2] == log[i]);
                    }
                }
            }
        }
    } else if k == 5 {
        lemma_clear_belongs(family, stable, CLEAR_ROUNDS as nat, log, failure);
    } else if k == 7 {
        lemma_clear_belongs(family, staging, CLEAR_ROUNDS as nat, log, failure);
    } else if k == 4 {
        lemma_operation(log[0], insert_jump(staging));
    } else if k == 6 {
        lemma_operation(log[0], insert_jump(stable));
    } else if k == 8 {
        lemma_operation(log[0], seq!["-F"@, staging]);
    } else if k == 9 {
        lemma_operation(log[0], seq!["-X"@, staging]);
    } else {
        lemma_operation(log[0], seq!["-S"@, "INPUT"@]);
    }
}

/// Deleting the first `n` rules of the enforcement chain leaves the later ones.
proof fn lemma_delete_leaves(
    family: FirewallFamily,
    n: nat,
    log: Seq<Exchange>,
    tables: Seq<(TableContents, TableContents)>,
    rules: Seq<Seq<Seq<char>>>,
)
    requires
        delete_rule(family, KIDOBO_CHAIN_NAME@, n, log, None),
        proceeds(log, tables),
        rules.len() >= n,
        n > 0 ==> tables[0].0.stable == Some(rules),
    ensures
        log.len() == n,
        n > 0 ==> tables.last().1.stable == Some(rules.skip(n as int)),
    decreases n,
{
    lemma_operations(Seq::empty());
    if n > 0 {
        assert(carried_out(tables[0].0, log[0], tables[0].1));
        lemma_operation(log[0], seq!["-D"@, KIDOBO_CHAIN_NAME@, "1"@]);
        lemma_proceeds_split(log, tables, 1);
        let rest = tables.skip(1);
        assert(delete_rule(family, KIDOBO_CHAIN_NAME@, (n - 1) as nat, log.skip(1), None));
        if n > 1 {
            assert(rest[0] == tables[1]);
            assert(kept(tables[0].1, tables[1].0));
        }
        lemma_delete_leaves(family, (n - 1) as nat, log.skip(1), rest, rules.drop_first());
        if n > 1 {
            assert(rest.last() == tables.last());
        }
        assert(rules.drop_first().skip(n - 1) =~= rules.skip(n as int));
    }
}

/// The second stage leaves the set rule, alone, in the enforcement chain.
proof fn lemma_refilled(
    family: FirewallFamily,
    set_name: Seq<char>,
    action: ChainAction,
    log: Seq<Exchange>,
    tables: Seq<(TableContents, TableContents)>,
)
    requires
        stage_rule(family, wiring_stages(set_name, action)[1], log, None),
        proceeds(log, tables),
    ensures
        log.len() > 0,
        tables.last().1.stable == Some(seq![set_rule(set_name, action)]),
{
    let stable = KIDOBO_CHAIN_NAME@;
    let rule = set_rule(set_name, action);
    lemma_operations(rule);
    assert(carried_out(tables[0].0, log[0], tables[0].1));
    lemma_operation(log[0], seq!["-S"@, stable]);
    assert(kept(tables[0].1, tables[1].0));
    assert(carried_out(tables[1].0, log[1], tables[1].1));
    lemma_operation(log[1], seq!["-A"@, stable] + rule);
    assert(appended(log[1]) =~= rule);
    let count = rule_count(listing(log[0]), stable);
    let filled = tables[1].1.stable->0;
    lemma_proceeds_split(log, tables, 2);
    let rest = tables.skip(2);
    if count > 0 {
        assert(log.skip(2).len() > 0);
        assert(rest[0] == tables[2]);
        assert(kept(tables[1].1, tables[2].0));
    }
    lemma_delete_leaves(family, count, log.skip(2), rest, filled);
    if count > 0 {
        assert(rest.last() == tables.last());
    }
    assert(filled.skip(count as int) =~= seq![rule]);
}

/// What the wiring leaves, from stage `k` on.
proof fn lemma_wired_from(
    family: FirewallFamily,
    set_name: Seq<char>,
    action: ChainAction,
    k: int,
    log: Seq<Exchange>,
    failure: Option<FirewallError>,
    tables: Seq<(TableContents, TableContents)>,
)
    requires
        0 <= k <= 11,
        sequence_rule(family, wiring_stages(set_name, action).skip(k), log, failure),
        proceeds(log, tables),
        k >= 2 && log.len() > 0 ==> tables[0].0.stable == Some(seq![set_rule(set_name, action)]),
    ensures
        all_belong(0, log),
        k < 11 ==> log.len() > 0,
        failure is None && k == 11 ==> log.len() == 0,
        failure is None && k < 11 ==> {
            let end = tables.last().1;
            &&& end.stable == Some(seq![set_rule(set_name, action)])
            &&& stands_at(end.input, InputRule::StableJump, seq![1usize])
            &&& stands_at(end.input, InputRule::StagingJump, Seq::empty())
        },
    decreases 11 - k,
{
    let stages = wiring_stages(set_name, action).skip(k);
    if k < 11 {
        let (n, first) = choose|n: int, first: Option<FirewallError>|
            {
                &&& 0 <= n <= log.len()
                &&& #[trigger] stage_rule(family, stages[0], log.take(n), first)
                &&& if first is Some {
                    n == log.len() && failure == first
                } else {
                    sequence_rule(family, stages.drop_first(), log.skip(n), failure)
                }
            };
        assert(stages[0] == wiring_stages(set_name, action)[k]);
        assert(stages.drop_first() =~= wiring_stages(set_name, action).skip(k + 1));
        let front = log.take(n);
        let rest = log.skip(n);
        let until = tables.take(n);
        let after = tables.skip(n);
        lemma_proceeds_split(log, tables, n);
        lemma_stage_belongs(family, set_name, action, k, front, first);
        assert(until[0] == tables[0] && until.last() == tables[n - 1]);
        if first is None {
            if k == 1 {
                lemma_refilled(family, set_name, action, front, until);
            } else if k >= 2 {
                lemma_steps(k, front, until, n - 1);
            }
            if rest.len() > 0 {
                assert(after[0] == tables[n]);
                assert(kept(tables[n - 1].1, tables[n].0));
            }
            lemma_wired_from(family, set_name, action, k + 1, rest, failure, after);
            if k == 10 {
                assert(carried_out(until[0].0, front[0], until[0].1));
                lemma_operations(Seq::empty());
                lemma_operation(front[0], seq!["-S"@, "INPUT"@]);
                let staged = jump_positions(listing(front[0]), KIDOBO_STAGING_CHAIN_NAME@);
                assert(staged =~= Seq::<usize>::empty());
                if failure is None {
                    assert(tables.last() == until[0]);
                }
            } else {
                assert(after.last() == tables.last());
            }
        }
        assert forall|i: int| 0 <= i < log.len() implies belongs(0, #[trigger] log[i]) by {
            if i < n {
                assert(front[i] == log[i]);
            } else {
                assert(rest[i - n] == log[i]);
            }
        }
    }
}

/// What the wiring does to the table. However it ends, every single command leaves the rules of
/// INPUT that are not Kidobo's as they were, in order. When it succeeds, the jump to the
/// enforcement chain is the first rule of INPUT and the only one of Kidobo's, and the enforcement
/// chain holds the set rule and nothing else; where nobody else changed the table meanwhile, the
/// rules behind the jump are those that were there before the wiring.
///
/// The tables are any that agree with the replies: listings show what is there, commands that
/// succeed do what they say, others do nothing. Between two commands, rules of INPUT may come and
/// go.
pub proof fn law_wiring_leaves_one_first_jump(
    family: FirewallFamily,
    set_name: Seq<char>,
    action: ChainAction,
    log: Seq<Exchange>,
    failure: Option<FirewallError>,
    tables: Seq<(TableContents, TableContents)>,
)
    requires
        sequence_rule(family, wiring_stages(set_name, action), log, failure),
        proceeds(log, tables),
    ensures
        forall|i: int|
            0 <= i < tables.len() ==> others((#[trigger] tables[i]).1.input) == others(
                tables[i].0.input,
            ),
        failure is None ==> {
            let end = tables.last().1;
            &&& end.input == seq![InputRule::StableJump] + others(end.input)
            &&& end.stable == Some(seq![set_rule(set_name, action)])
        },
        failure is None && undisturbed(tables) ==> tables.last().1.input
            == seq![InputRule::StableJump] + others(tables[0].0.input),
{
    assert(wiring_stages(set_name, action).skip(0) =~= wiring_stages(set_name, action));
    lemma_wired_from(family, set_name, action, 0, log, failure, tables);
    assert forall|i: int| 0 <= i < tables.len() implies others((#[trigger] tables[i]).1.input)
        == others(tables[i].0.input) by {
        assert(carried_out(tables[i].0, log[i], tables[i].1));
        lemma_step(0, tables[i].0, log[i], tables[i].1);
    }
    if failure is None {
        let input = tables.last().1.input;
        let only = seq![1usize];
        assert(only[0] == 1);
        let rest = input.drop_first();
        assert forall|i: int| 0 <= i < rest.len() implies (#[trigger] rest[i]) is Other by {
            assert(rest[i] == input[i + 1]);
            if input[i + 1] == InputRule::StableJump {
                let k = choose|k: int| 0 <= k < only.len() && #[trigger] only[k] == i + 2;
                assert(false);
            }
            if input[i + 1] == InputRule::StagingJump {
                assert(exists|k: int|
                    0 <= k < Seq::<usize>::empty().len() && #[trigger] Seq::<usize>::empty()[k] == i
                        + 2);
                assert(false);
            }
        }
        lemma_all_others(rest);
        assert(input =~= seq![InputRule::StableJump] + rest);
        lemma_others_insert(rest, InputRule::StableJump);
        if undisturbed(tables) {
            lemma_others_stay(log, tables, tables.len() - 1);
        }
    }
}

} // verus!
