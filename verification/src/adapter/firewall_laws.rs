//! Enforcement stays reachable throughout the wiring procedure.

use crate::adapter::firewall_text::{
    jump_positions, rule_count, ChainAction, FirewallError, FirewallFamily, KIDOBO_CHAIN_NAME,
    KIDOBO_STAGING_CHAIN_NAME,
};
use crate::adapter::iptables::{
    clear_rule, delete_rule, insert_jump, issued, listing, missing, passed, sequence_rule, set_rule,
    stage_rule, waited, wiring_stages, Exchange, CLEAR_ROUNDS,
};
use vstd::prelude::*;

verus! {

/// What matters of a firewall table.
pub struct TableModel {
    /// Number of rules of the enforcement chain, where it exists.
    pub stable: Option<nat>,
    /// Whether each rule of the staging chain jumps to the enforcement chain, where it exists.
    pub staging: Option<Seq<bool>>,
    /// Number of jumps from INPUT to the enforcement chain.
    pub stable_jumps: nat,
    /// Number of jumps from INPUT to the staging chain.
    pub staging_jumps: nat,
}

/// What a command does to the table.
pub enum Operation {
    ListStable,
    ListStaging,
    ListInput,
    CreateStable,
    CreateStaging,
    AppendStable,
    AppendStagingJump,
    DeleteStableRule,
    DeleteStagingRule,
    InsertStableJump,
    InsertStagingJump,
    DeleteStableJump,
    DeleteStagingJump,
    FlushStaging,
    DropStaging,
    Unknown,
}

/// The operation that the arguments ask for.
#[verifier::opaque]
pub open spec fn operation(args: Seq<Seq<char>>) -> Operation {
    let stable = KIDOBO_CHAIN_NAME@;
    let staging = KIDOBO_STAGING_CHAIN_NAME@;
    if args == seq!["-S"@, stable] {
        Operation::ListStable
    } else if args == seq!["-S"@, staging] {
        Operation::ListStaging
    } else if args == seq!["-S"@, "INPUT"@] {
        Operation::ListInput
    } else if args == seq!["-N"@, stable] {
        Operation::CreateStable
    } else if args == seq!["-N"@, staging] {
        Operation::CreateStaging
    } else if args.len() > 1 && args[0] == "-A"@ && args[1] == stable {
        Operation::AppendStable
    } else if args == seq!["-A"@, staging, "-j"@, stable] {
        Operation::AppendStagingJump
    } else if args == seq!["-D"@, stable, "1"@] {
        Operation::DeleteStableRule
    } else if args == seq!["-D"@, staging, "1"@] {
        Operation::DeleteStagingRule
    } else if args == insert_jump(stable) {
        Operation::InsertStableJump
    } else if args == insert_jump(staging) {
        Operation::InsertStagingJump
    } else if args == seq!["-D"@, "INPUT"@, "-j"@, stable] {
        Operation::DeleteStableJump
    } else if args == seq!["-D"@, "INPUT"@, "-j"@, staging] {
        Operation::DeleteStagingJump
    } else if args == seq!["-F"@, staging] {
        Operation::FlushStaging
    } else if args == seq!["-X"@, staging] {
        Operation::DropStaging
    } else {
        Operation::Unknown
    }
}

/// The operation of a command, behind the request to wait.
pub open spec fn operation_of(exchange: Exchange) -> Operation {
    operation(exchange.args.skip(2))
}

/// The reply to a command describes the table before it, and the table after it is as the command
/// says; a command that did not succeed changes nothing.
pub open spec fn world(before: TableModel, exchange: Exchange, after: TableModel) -> bool {
    if !passed(exchange) {
        after == before
    } else {
        match operation_of(exchange) {
            Operation::ListStable => after == before && before.stable == Some(
                rule_count(listing(exchange), KIDOBO_CHAIN_NAME@),
            ),
            Operation::ListStaging => after == before && before.staging is Some
                && before.staging->0.len() == rule_count(
                listing(exchange),
                KIDOBO_STAGING_CHAIN_NAME@,
            ),
            Operation::ListInput => after == before && before.stable_jumps == jump_positions(
                listing(exchange),
                KIDOBO_CHAIN_NAME@,
            ).len() && before.staging_jumps == jump_positions(
                listing(exchange),
                KIDOBO_STAGING_CHAIN_NAME@,
            ).len(),
            Operation::CreateStable => after == (TableModel {
                stable: match before.stable {
                    Some(n) => Some(n),
                    None => Some(0),
                },
                ..before
            }),
            Operation::CreateStaging => after == (TableModel {
                staging: match before.staging {
                    Some(rules) => Some(rules),
                    None => Some(Seq::empty()),
                },
                ..before
            }),
            Operation::AppendStable => before.stable is Some && after == (TableModel {
                stable: Some(before.stable->0 + 1),
                ..before
            }),
            Operation::AppendStagingJump => before.staging is Some && after == (TableModel {
                staging: Some(before.staging->0.push(true)),
                ..before
            }),
            Operation::DeleteStableRule => before.stable is Some && before.stable->0 > 0 && after
                == (TableModel { stable: Some((before.stable->0 - 1) as nat), ..before }),
            Operation::DeleteStagingRule => before.staging is Some && before.staging->0.len() > 0
                && after == (TableModel {
                staging: Some(before.staging->0.drop_first()),
                ..before
            }),
            Operation::InsertStableJump => after == (TableModel {
                stable_jumps: before.stable_jumps + 1,
                ..before
            }),
            Operation::InsertStagingJump => after == (TableModel {
                staging_jumps: before.staging_jumps + 1,
                ..before
            }),
            Operation::DeleteStableJump => before.stable_jumps > 0 && after == (TableModel {
                stable_jumps: (before.stable_jumps - 1) as nat,
                ..before
            }),
            Operation::DeleteStagingJump => before.staging_jumps > 0 && after == (TableModel {
                staging_jumps: (before.staging_jumps - 1) as nat,
                ..before
            }),
            Operation::FlushStaging => before.staging is Some && after == (TableModel {
                staging: Some(Seq::empty()),
                ..before
            }),
            Operation::DropStaging => after == (TableModel { staging: None, ..before }),
            Operation::Unknown => true,
        }
    }
}

/// Tables before, between and after the exchanges.
pub open spec fn unfolds(log: Seq<Exchange>, tables: Seq<TableModel>) -> bool {
    &&& tables.len() == log.len() + 1
    &&& forall|i: int|
        0 <= i < log.len() ==> world(tables[i], #[trigger] log[i], tables[i + 1])
}

/// The staging chain leads to the enforcement chain and nowhere else.
pub open spec fn staging_ready(table: TableModel) -> bool {
    table.staging is Some && table.staging->0.len() > 0 && forall|i: int|
        0 <= i < table.staging->0.len() ==> #[trigger] table.staging->0[i]
}

/// INPUT leads to an enforcement chain that has a rule.
pub open spec fn guarded(table: TableModel) -> bool {
    &&& table.stable is Some
    &&& table.stable->0 > 0
    &&& table.stable_jumps > 0 || (table.staging_jumps > 0 && staging_ready(table))
}

/// The exchange put the jump to the staging chain into INPUT.
pub open spec fn activates(exchange: Exchange) -> bool {
    passed(exchange) && operation_of(exchange) == Operation::InsertStagingJump
}

/// Distinct words of the commands.
proof fn lemma_words()
    ensures
        KIDOBO_CHAIN_NAME@ != KIDOBO_STAGING_CHAIN_NAME@,
        KIDOBO_CHAIN_NAME@ != "INPUT"@,
        KIDOBO_STAGING_CHAIN_NAME@ != "INPUT"@,
        "-S"@ != "-N"@,
        "-S"@ != "-A"@,
        "-S"@ != "-D"@,
        "-S"@ != "-I"@,
        "-S"@ != "-F"@,
        "-S"@ != "-X"@,
        "-N"@ != "-A"@,
        "-N"@ != "-D"@,
        "-N"@ != "-I"@,
        "-N"@ != "-F"@,
        "-N"@ != "-X"@,
        "-A"@ != "-D"@,
        "-A"@ != "-I"@,
        "-A"@ != "-F"@,
        "-A"@ != "-X"@,
        "-D"@ != "-I"@,
        "-D"@ != "-F"@,
        "-D"@ != "-X"@,
        "-I"@ != "-F"@,
        "-I"@ != "-X"@,
        "-F"@ != "-X"@,
{
    reveal_strlit("kidobo-input");
    reveal_strlit("kidobo-input-stage");
    reveal_strlit("INPUT");
    reveal_strlit("-S");
    reveal_strlit("-N");
    reveal_strlit("-A");
    reveal_strlit("-D");
    reveal_strlit("-I");
    reveal_strlit("-F");
    reveal_strlit("-X");
    assert(KIDOBO_CHAIN_NAME@.len() == 12);
    assert(KIDOBO_STAGING_CHAIN_NAME@.len() == 18);
    assert("INPUT"@.len() == 5);
    assert("-S"@[1] == 'S');
    assert("-N"@[1] == 'N');
    assert("-A"@[1] == 'A');
    assert("-D"@[1] == 'D');
    assert("-I"@[1] == 'I');
    assert("-F"@[1] == 'F');
    assert("-X"@[1] == 'X');
}

/// The operation of a command with the arguments.
pub(crate) proof fn lemma_operation(exchange: Exchange, args: Seq<Seq<char>>)
    requires
        issued(exchange, args),
    ensures
        operation_of(exchange) == operation(args),
{
    assert(waited(args).skip(2) =~= args);
}

/// Operations of the commands of the procedure.
pub(crate) proof fn lemma_operations(rule: Seq<Seq<char>>)
    ensures
        ({
            let stable = KIDOBO_CHAIN_NAME@;
            let staging = KIDOBO_STAGING_CHAIN_NAME@;
            &&& operation(seq!["-S"@, stable]) == Operation::ListStable
            &&& operation(seq!["-S"@, staging]) == Operation::ListStaging
            &&& operation(seq!["-S"@, "INPUT"@]) == Operation::ListInput
            &&& operation(seq!["-N"@, stable]) == Operation::CreateStable
            &&& operation(seq!["-N"@, staging]) == Operation::CreateStaging
            &&& operation(seq!["-A"@, stable] + rule) == Operation::AppendStable
            &&& operation(seq!["-A"@, staging] + seq!["-j"@, stable])
                == Operation::AppendStagingJump
            &&& operation(seq!["-D"@, stable, "1"@]) == Operation::DeleteStableRule
            &&& operation(seq!["-D"@, staging, "1"@]) == Operation::DeleteStagingRule
            &&& operation(insert_jump(stable)) == Operation::InsertStableJump
            &&& operation(insert_jump(staging)) == Operation::InsertStagingJump
            &&& operation(seq!["-D"@, "INPUT"@, "-j"@, stable]) == Operation::DeleteStableJump
            &&& operation(seq!["-D"@, "INPUT"@, "-j"@, staging]) == Operation::DeleteStagingJump
            &&& operation(seq!["-F"@, staging]) == Operation::FlushStaging
            &&& operation(seq!["-X"@, staging]) == Operation::DropStaging
        }),
{
    let stable = KIDOBO_CHAIN_NAME@;
    let staging = KIDOBO_STAGING_CHAIN_NAME@;
    lemma_words();
    reveal(operation);
    assert(seq!["-A"@, staging] + seq!["-j"@, stable] =~= seq!["-A"@, staging, "-j"@, stable]);
    let append = seq!["-A"@, stable] + rule;
    assert(append[0] == "-A"@ && append[1] == stable && append.len() >= 2);
    assert(seq!["-S"@, stable][0] == "-S"@ && seq!["-S"@, stable][1] == stable);
    assert(seq!["-S"@, staging][0] == "-S"@ && seq!["-S"@, staging][1] == staging);
    assert(seq!["-S"@, "INPUT"@][0] == "-S"@ && seq!["-S"@, "INPUT"@][1] == "INPUT"@);
    assert(seq!["-N"@, stable][0] == "-N"@ && seq!["-N"@, stable][1] == stable);
    assert(seq!["-N"@, staging][0] == "-N"@ && seq!["-N"@, staging][1] == staging);
    assert(seq!["-A"@, staging, "-j"@, stable][0] == "-A"@);
    assert(seq!["-A"@, staging, "-j"@, stable][1] == staging);
    assert(seq!["-D"@, stable, "1"@][0] == "-D"@ && seq!["-D"@, stable, "1"@][1] == stable);
    assert(seq!["-D"@, staging, "1"@][0] == "-D"@ && seq!["-D"@, staging, "1"@][1] == staging);
    assert(insert_jump(stable)[0] == "-I"@ && insert_jump(stable)[4] == stable);
    assert(insert_jump(staging)[0] == "-I"@ && insert_jump(staging)[4] == staging);
    let a = seq!["-D"@, "INPUT"@, "-j"@, stable];
    let b = seq!["-D"@, "INPUT"@, "-j"@, staging];
    assert(a[0] == "-D"@ && a[1] == "INPUT"@ && a[3] == stable);
    assert(b[0] == "-D"@ && b[1] == "INPUT"@ && b[3] == staging);
    assert(seq!["-F"@, staging][0] == "-F"@);
    assert(seq!["-X"@, staging][0] == "-X"@);
}

/// No exchange activates the staging chain.
spec fn inactive(log: Seq<Exchange>) -> bool {
    forall|i: int| 0 <= i < log.len() ==> !activates(#[trigger] log[i])
}

/// The rest of a history.
proof fn lemma_unfolds_skip(log: Seq<Exchange>, tables: Seq<TableModel>, n: int)
    requires
        unfolds(log, tables),
        0 <= n <= log.len(),
    ensures
        unfolds(log.skip(n), tables.skip(n)),
        unfolds(log.take(n), tables.take(n + 1)),
{
    let rest = log.skip(n);
    let after = tables.skip(n);
    assert forall|i: int| 0 <= i < rest.len() implies world(
        after[i],
        #[trigger] rest[i],
        after[i + 1],
    ) by {
        assert(rest[i] == log[n + i]);
        assert(after[i] == tables[n + i] && after[i + 1] == tables[n + i + 1]);
    }
    let front = log.take(n);
    let until = tables.take(n + 1);
    assert forall|i: int| 0 <= i < front.len() implies world(
        until[i],
        #[trigger] front[i],
        until[i + 1],
    ) by {
        assert(front[i] == log[i]);
    }
}

proof fn lemma_delete_stable(
    family: FirewallFamily,
    n: nat,
    log: Seq<Exchange>,
    failure: Option<FirewallError>,
    tables: Seq<TableModel>,
)
    requires
        delete_rule(family, KIDOBO_CHAIN_NAME@, n, log, failure),
        unfolds(log, tables),
        tables[0].stable is Some,
        tables[0].stable->0 > n,
    ensures
        forall|i: int|
            0 <= i < tables.len() ==> (#[trigger] tables[i]).stable is Some && tables[i].stable->0
                > 0 && tables[i] == (TableModel { stable: tables[i].stable, ..tables[0] }),
        inactive(log),
    decreases n,
{
    lemma_operations(Seq::empty());
    if n > 0 {
        assert(world(tables[0], log[0], tables[1]));
        lemma_operation(log[0], seq!["-D"@, KIDOBO_CHAIN_NAME@, "1"@]);
        if passed(log[0]) {
            lemma_unfolds_skip(log, tables, 1);
            let rest = tables.skip(1);
            assert(rest[0] == tables[1]);
            lemma_delete_stable(family, (n - 1) as nat, log.skip(1), failure, rest);
            assert forall|i: int| 0 <= i < tables.len() implies (
            #[trigger] tables[i]).stable is Some && tables[i].stable->0 > 0 && tables[i] == (
            TableModel { stable: tables[i].stable, ..tables[0] }) by {
                if i > 0 {
                    assert(rest[i - 1] == tables[i]);
                }
            }
            assert forall|i: int| 0 <= i < log.len() implies !activates(#[trigger] log[i]) by {
                if i > 0 {
                    assert(log.skip(1)[i - 1] == log[i]);
                }
            }
        } else {
            assert(tables[1] == tables[0]);
        }
    }
}

proof fn lemma_delete_staging(
    family: FirewallFamily,
    n: nat,
    log: Seq<Exchange>,
    failure: Option<FirewallError>,
    tables: Seq<TableModel>,
)
    requires
        delete_rule(family, KIDOBO_STAGING_CHAIN_NAME@, n, log, failure),
        unfolds(log, tables),
        tables[0].staging is Some,
        tables[0].staging->0.len() > n,
    ensures
        forall|i: int|
            0 <= i < tables.len() ==> (#[trigger] tables[i]) == (TableModel {
                staging: tables[i].staging,
                ..tables[0]
            }) && (staging_ready(tables[0]) ==> staging_ready(tables[i])),
        failure is None ==> tables.last().staging == Some(tables[0].staging->0.skip(n as int)),
        inactive(log),
    decreases n,
{
    lemma_operations(Seq::empty());
    let rules = tables[0].staging->0;
    if n > 0 {
        assert(world(tables[0], log[0], tables[1]));
        lemma_operation(log[0], seq!["-D"@, KIDOBO_STAGING_CHAIN_NAME@, "1"@]);
        if passed(log[0]) {
            lemma_unfolds_skip(log, tables, 1);
            let rest = tables.skip(1);
            assert(rest[0] == tables[1]);
            assert(rules.drop_first().skip(n - 1) =~= rules.skip(n as int));
            if staging_ready(tables[0]) {
                assert forall|i: int| 0 <= i < tables[1].staging->0.len() implies
                    #[trigger] tables[1].staging->0[i] by {
                    assert(rules[i + 1]);
                }
            }
            lemma_delete_staging(family, (n - 1) as nat, log.skip(1), failure, rest);
            assert(rest.last() == tables.last());
            assert forall|i: int| 0 <= i < tables.len() implies (#[trigger] tables[i]) == (
            TableModel { staging: tables[i].staging, ..tables[0] }) && (staging_ready(tables[0])
                ==> staging_ready(tables[i])) by {
                if i > 0 {
                    assert(rest[i - 1] == tables[i]);
                }
            }
            assert forall|i: int| 0 <= i < log.len() implies !activates(#[trigger] log[i]) by {
                if i > 0 {
                    assert(log.skip(1)[i - 1] == log[i]);
                }
            }
        } else {
            assert(tables[1] == tables[0]);
        }
    } else {
        assert(rules.skip(0) =~= rules);
    }
}

proof fn lemma_clear_stable(
    family: FirewallFamily,
    rounds: nat,
    log: Seq<Exchange>,
    failure: Option<FirewallError>,
    tables: Seq<TableModel>,
)
    requires
        clear_rule(family, KIDOBO_CHAIN_NAME@, false, rounds, log, failure),
        unfolds(log, tables),
    ensures
        forall|i: int|
            0 <= i < tables.len() ==> (#[trigger] tables[i]) == (TableModel {
                stable_jumps: tables[i].stable_jumps,
                ..tables[0]
            }),
        failure is None ==> tables.last().stable_jumps == 0,
        inactive(log),
    decreases rounds,
{
    lemma_operations(Seq::empty());
    if rounds > 0 {
        assert(world(tables[0], log[0], tables[1]));
        lemma_operation(log[0], seq!["-S"@, "INPUT"@]);
        if passed(log[0]) && jump_positions(listing(log[0]), KIDOBO_CHAIN_NAME@).len() > 0 {
            assert(world(tables[1], log[1], tables[2]));
            lemma_operation(log[1], seq!["-D"@, "INPUT"@, "-j"@, KIDOBO_CHAIN_NAME@]);
            if passed(log[1]) {
                lemma_unfolds_skip(log, tables, 2);
                let rest = tables.skip(2);
                assert(rest[0] == tables[2]);
                lemma_clear_stable(family, (rounds - 1) as nat, log.skip(2), failure, rest);
                assert(rest.last() == tables.last());
                assert forall|i: int| 0 <= i < tables.len() implies (#[trigger] tables[i]) == (
                TableModel { stable_jumps: tables[i].stable_jumps, ..tables[0] }) by {
                    if i > 1 {
                        assert(rest[i - 2] == tables[i]);
                    }
                }
                assert forall|i: int| 0 <= i < log.len() implies !activates(#[trigger] log[i]) by {
                    if i > 1 {
                        assert(log.skip(2)[i - 2] == log[i]);
                    }
                }
            }
        }
    }
}

proof fn lemma_clear_staging(
    family: FirewallFamily,
    rounds: nat,
    log: Seq<Exchange>,
    failure: Option<FirewallError>,
    tables: Seq<TableModel>,
)
    requires
        clear_rule(family, KIDOBO_STAGING_CHAIN_NAME@, false, rounds, log, failure),
        unfolds(log, tables),
    ensures
        forall|i: int|
            0 <= i < tables.len() ==> (#[trigger] tables[i]) == (TableModel {
                staging_jumps: tables[i].staging_jumps,
                ..tables[0]
            }),
        failure is None ==> tables.last().staging_jumps == 0,
        inactive(log),
    decreases rounds,
{
    lemma_operations(Seq::empty());
    if rounds > 0 {
        assert(world(tables[0], log[0], tables[1]));
        lemma_operation(log[0], seq!["-S"@, "INPUT"@]);
        if passed(log[0]) && jump_positions(listing(log[0]), KIDOBO_STAGING_CHAIN_NAME@).len()
            > 0 {
            assert(world(tables[1], log[1], tables[2]));
            lemma_operation(log[1], seq!["-D"@, "INPUT"@, "-j"@, KIDOBO_STAGING_CHAIN_NAME@]);
            if passed(log[1]) {
                lemma_unfolds_skip(log, tables, 2);
                let rest = tables.skip(2);
                assert(rest[0] == tables[2]);
                lemma_clear_staging(family, (rounds - 1) as nat, log.skip(2), failure, rest);
                assert(rest.last() == tables.last());
                assert forall|i: int| 0 <= i < tables.len() implies (#[trigger] tables[i]) == (
                TableModel { staging_jumps: tables[i].staging_jumps, ..tables[0] }) by {
                    if i > 1 {
                        assert(rest[i - 2] == tables[i]);
                    }
                }
                assert forall|i: int| 0 <= i < log.len() implies !activates(#[trigger] log[i]) by {
                    if i > 1 {
                        assert(log.skip(2)[i - 2] == log[i]);
                    }
                }
            }
        }
    }
}

/// What holds of the table before stage `k` of the wiring.
spec fn ready(k: int, table: TableModel) -> bool {
    if k == 0 {
        true
    } else if k == 1 {
        table.stable is Some
    } else {
        &&& table.stable is Some
        &&& table.stable->0 > 0
        &&& k == 3 ==> table.staging is Some
        &&& k == 4 ==> staging_ready(table)
        &&& k == 5 ==> staging_ready(table) && table.staging_jumps > 0
        &&& k == 6 ==> staging_ready(table) && table.staging_jumps > 0 && table.stable_jumps == 0
        &&& k >= 7 ==> table.stable_jumps == 1
        &&& k >= 8 ==> table.staging_jumps == 0
    }
}

/// What stage `k` does: enforcement is kept, only stage 4 activates the staging chain, and a stage
/// that succeeds prepares the next.
spec fn stage_keeps(
    k: int,
    log: Seq<Exchange>,
    failure: Option<FirewallError>,
    tables: Seq<TableModel>,
) -> bool {
    &&& guarded(tables[0]) ==> forall|i: int| 0 <= i < tables.len() ==> guarded(#[trigger] tables[i])
    &&& k != 4 ==> inactive(log)
    &&& k == 4 ==> log.len() == 1 && (activates(log[0]) ==> guarded(tables[1]))
    &&& failure is None ==> ready(k + 1, tables.last())
}

proof fn lemma_first_stages(
    family: FirewallFamily,
    set_name: Seq<char>,
    action: ChainAction,
    k: int,
    log: Seq<Exchange>,
    failure: Option<FirewallError>,
    tables: Seq<TableModel>,
)
    requires
        0 <= k < 4,
        stage_rule(family, wiring_stages(set_name, action)[k], log, failure),
        unfolds(log, tables),
        ready(k, tables[0]),
    ensures
        stage_keeps(k, log, failure, tables),
{
    let stable = KIDOBO_CHAIN_NAME@;
    let staging = KIDOBO_STAGING_CHAIN_NAME@;
    lemma_operations(set_rule(set_name, action));
    assert(world(tables[0], log[0], tables[1]));
    if k == 0 {
        lemma_operation(log[0], seq!["-S"@, stable]);
        if !passed(log[0]) && missing(log[0]) {
            assert(log.skip(1)[0] == log[1]);
            lemma_operation(log[1], seq!["-N"@, stable]);
            assert(world(tables[1], log[1], tables[2]));
        }
    } else if k == 2 {
        lemma_operation(log[0], seq!["-S"@, staging]);
        if !passed(log[0]) && missing(log[0]) {
            assert(log.skip(1)[0] == log[1]);
            lemma_operation(log[1], seq!["-N"@, staging]);
            assert(world(tables[1], log[1], tables[2]));
        }
    } else if k == 1 {
        lemma_operation(log[0], seq!["-S"@, stable]);
        if passed(log[0]) {
            assert(world(tables[1], log[1], tables[2]));
            lemma_operation(log[1], seq!["-A"@, stable] + set_rule(set_name, action));
            if passed(log[1]) {
                let rest = tables.skip(2);
                lemma_unfolds_skip(log, tables, 2);
                assert(rest[0] == tables[2]);
                lemma_delete_stable(
                    family,
                    rule_count(listing(log[0]), stable),
                    log.skip(2),
                    failure,
                    rest,
                );
                assert(rest.last() == tables.last());
                assert forall|i: int| 2 <= i < tables.len() implies (
                #[trigger] tables[i]).stable is Some && tables[i].stable->0 > 0 && tables[i] == (
                TableModel { stable: tables[i].stable, ..tables[0] }) by {
                    assert(rest[i - 2] == tables[i]);
                }
                assert forall|i: int| 0 <= i < log.len() implies !activates(#[trigger] log[i]) by {
                    if i > 1 {
                        assert(log.skip(2)[i - 2] == log[i]);
                    }
                }
            }
        }
    } else {
        lemma_operation(log[0], seq!["-S"@, staging]);
        if passed(log[0]) {
            assert(world(tables[1], log[1], tables[2]));
            lemma_operation(log[1], seq!["-A"@, staging] + seq!["-j"@, stable]);
            if passed(log[1]) {
                let rest = tables.skip(2);
                let count = rule_count(listing(log[0]), staging);
                lemma_unfolds_skip(log, tables, 2);
                assert(rest[0] == tables[2]);
                lemma_delete_staging(family, count, log.skip(2), failure, rest);
                assert(rest.last() == tables.last());
                let filled = tables[2].staging->0;
                assert(filled.len() == count + 1);
                if failure is None {
                    assert(tables.last().staging == Some(filled.skip(count as int)));
                    assert(filled.skip(count as int) =~= seq![true]);
                }
                if staging_ready(tables[0]) {
                    assert forall|i: int| 0 <= i < filled.len() implies #[trigger] filled[i] by {
                        if i < count {
                            assert(tables[0].staging->0[i]);
                        }
                    }
                    assert(staging_ready(tables[2]));
                }
                assert forall|i: int| 2 <= i < tables.len() implies (#[trigger] tables[i]) == (
                TableModel { staging: tables[i].staging, ..tables[0] }) && (staging_ready(tables[0])
                    ==> staging_ready(tables[i])) by {
                    assert(rest[i - 2] == tables[i]);
                }
                assert forall|i: int| 0 <= i < log.len() implies !activates(#[trigger] log[i]) by {
                    if i > 1 {
                        assert(log.skip(2)[i - 2] == log[i]);
                    }
                }
            }
        }
    }
}

proof fn lemma_last_stages(
    family: FirewallFamily,
    set_name: Seq<char>,
    action: ChainAction,
    k: int,
    log: Seq<Exchange>,
    failure: Option<FirewallError>,
    tables: Seq<TableModel>,
)
    requires
        4 <= k < 11,
        stage_rule(family, wiring_stages(set_name, action)[k], log, failure),
        unfolds(log, tables),
        ready(k, tables[0]),
    ensures
        stage_keeps(k, log, failure, tables),
{
    let stable = KIDOBO_CHAIN_NAME@;
    let staging = KIDOBO_STAGING_CHAIN_NAME@;
    lemma_operations(Seq::empty());
    if k == 5 {
        lemma_clear_stable(family, CLEAR_ROUNDS as nat, log, failure, tables);
        assert forall|i: int| 0 <= i < tables.len() implies guarded(#[trigger] tables[i]) by {
            assert(tables[i] == (TableModel { stable_jumps: tables[i].stable_jumps, ..tables[0] }));
            assert(staging_ready(tables[i]));
        }
    } else if k == 7 {
        lemma_clear_staging(family, CLEAR_ROUNDS as nat, log, failure, tables);
    } else {
        assert(world(tables[0], log[0], tables[1]));
        if k == 4 {
            lemma_operation(log[0], insert_jump(staging));
            if passed(log[0]) {
                assert(staging_ready(tables[1]));
            }
        } else if k == 6 {
            lemma_operation(log[0], insert_jump(stable));
        } else if k == 8 {
            lemma_operation(log[0], seq!["-F"@, staging]);
        } else if k == 9 {
            lemma_operation(log[0], seq!["-X"@, staging]);
        } else {
            lemma_operation(log[0], seq!["-S"@, "INPUT"@]);
        }
    }
}

/// The wiring from stage `k` on.
proof fn lemma_wiring_from(
    family: FirewallFamily,
    set_name: Seq<char>,
    action: ChainAction,
    k: int,
    log: Seq<Exchange>,
    failure: Option<FirewallError>,
    tables: Seq<TableModel>,
)
    requires
        0 <= k <= 11,
        sequence_rule(family, wiring_stages(set_name, action).skip(k), log, failure),
        unfolds(log, tables),
        ready(k, tables[0]),
    ensures
        guarded(tables[0]) ==> forall|i: int|
            0 <= i < tables.len() ==> guarded(#[trigger] tables[i]),
        forall|i: int, j: int|
            0 <= i < j < tables.len() && activates(#[trigger] log[i]) ==> guarded(
                #[trigger] tables[j],
            ),
        failure is None ==> ready(11, tables.last()),
    decreases 11 - k,
{
    let stages = wiring_stages(set_name, action).skip(k);
    if k < 11 {
        let (n, first) = choose|n: int, first: Option<FirewallError>|
            {
                &&& 0 <= n <= log.len()
                &&& #[trigger] stage_rule(family, stages[0], log.take(n), first)
                &&& if first is Some {
                    n == log.len() && failure == first
                } else {
                    sequence_rule(family, stages.drop_first(), log.skip(n), failure)
                }
            };
        assert(stages[0] == wiring_stages(set_name, action)[k]);
        assert(stages.drop_first() =~= wiring_stages(set_name, action).skip(k + 1));
        let front = log.take(n);
        let until = tables.take(n + 1);
        let rest = log.skip(n);
        let after = tables.skip(n);
        lemma_unfolds_skip(log, tables, n);
        assert(until[0] == tables[0]);
        if k < 4 {
            lemma_first_stages(family, set_name, action, k, front, first, until);
        } else {
            lemma_last_stages(family, set_name, action, k, front, first, until);
        }
        assert(until.last() == tables[n]);
        if first is None {
            assert(after[0] == tables[n]);
            lemma_wiring_from(family, set_name, action, k + 1, rest, failure, after);
            assert(after.last() == tables.last());
        }
        assert forall|i: int| 0 <= i < tables.len() && guarded(tables[0]) implies guarded(
            #[trigger] tables[i],
        ) by {
            if i <= n {
                assert(until[i] == tables[i]);
            } else {
                assert(until[n] == tables[n]);
                assert(guarded(until[n]));
                assert(after[i - n] == tables[i]);
            }
        }
        assert forall|i: int, j: int|
            0 <= i < j < tables.len() && activates(#[trigger] log[i]) implies guarded(
            #[trigger] tables[j],
        ) by {
            if i < n {
                assert(front[i] == log[i]);
                assert(k == 4);
                assert(until[1] == tables[1]);
                assert(guarded(tables[n]));
                if j > n {
                    assert(after[j - n] == tables[j]);
                }
            } else {
                assert(rest[i - n] == log[i]);
                assert(after[j - n] == tables[j]);
            }
        }
    }
}

/// The wiring is fail-closed. Whatever command fails, a table that enforced before the wiring
/// enforces after every single command of it; from the moment INPUT leads to the staging chain,
/// every later table enforces, however the table was before; and when the wiring succeeds, INPUT
/// jumps to a filled enforcement chain exactly once and to the staging chain never.
///
/// The tables between commands are any that agree with the replies: listings show what is there,
/// commands that succeed do what they say, others do nothing. Rules of INPUT that are not Kidobo's
/// may come and go at any time. What a success leaves in the table is stated by
/// `law_wiring_leaves_one_first_jump`.
pub proof fn law_wiring_is_fail_closed(
    family: FirewallFamily,
    set_name: Seq<char>,
    action: ChainAction,
    log: Seq<Exchange>,
    failure: Option<FirewallError>,
    tables: Seq<TableModel>,
)
    requires
        sequence_rule(family, wiring_stages(set_name, action), log, failure),
        unfolds(log, tables),
    ensures
        guarded(tables[0]) ==> forall|i: int|
            0 <= i < tables.len() ==> guarded(#[trigger] tables[i]),
        forall|i: int, j: int|
            0 <= i < j < tables.len() && activates(#[trigger] log[i]) ==> guarded(
                #[trigger] tables[j],
            ),
        failure is None ==> guarded(tables.last()) && tables.last().stable_jumps == 1
            && tables.last().staging_jumps == 0,
{
    assert(wiring_stages(set_name, action).skip(0) =~= wiring_stages(set_name, action));
    lemma_wiring_from(family, set_name, action, 0, log, failure, tables);
}

} // verus!
