//! Fail-closed firewall wiring as sequences of commands.

use crate::adapter::command_runner::{
    command_text, display_command, sudo_request, CommandExecutor, CommandRequest, CommandResult,
    CommandRunnerError, SudoCommandRunner,
};
use crate::adapter::firewall_text::{
    chain_rule_count, exact_jump_positions, is_missing_chain_result, is_missing_rule_failure,
    jump_positions, rule_count, says_missing, says_missing_rule, ChainAction, FirewallError,
    FirewallFamily, KIDOBO_CHAIN_NAME, KIDOBO_STAGING_CHAIN_NAME, XTABLES_LOCK_WAIT_SECS,
};
use crate::policy::cidr_text::str_views;
use crate::text::views;
use vstd::prelude::*;

verus! {

/// Command boundary used by fail-closed firewall operations.
pub trait FirewallCommandRunner {
    /// Runs one bounded iptables-family command.
    fn run(&self, command: &str, args: &[&str]) -> (result: Result<
        CommandResult,
        CommandRunnerError,
    >);
}

impl<E: CommandExecutor> FirewallCommandRunner for SudoCommandRunner<E> {
    fn run(&self, command: &str, args: &[&str]) -> (result: Result<
        CommandResult,
        CommandRunnerError,
    >)
        ensures
            exists|request: CommandRequest| #[trigger]
                call_ensures(E::execute, (&self.executor, &request), result) && request@
                    == sudo_request(command@, str_views(args@), self.default_timeout),
    {
        SudoCommandRunner::run(self, command, args)
    }
}

// Exchanges -------------------------------------------------------------------------------------

/// One command and the reply to it.
pub struct Exchange {
    pub args: Seq<Seq<char>>,
    pub reply: Result<CommandResult, CommandRunnerError>,
}

/// Arguments with the request to wait for the tables lock.
pub open spec fn waited(args: Seq<Seq<char>>) -> Seq<Seq<char>> {
    seq!["-w"@, XTABLES_LOCK_WAIT_SECS@] + args
}

/// The command has the arguments.
pub open spec fn issued(exchange: Exchange, args: Seq<Seq<char>>) -> bool {
    exchange.args == waited(args)
}

/// The command succeeded.
pub open spec fn passed(exchange: Exchange) -> bool {
    exchange.reply matches Ok(result) && result.status.succeeded()
}

/// What the command printed.
pub open spec fn listing(exchange: Exchange) -> Seq<char> {
    exchange.reply->Ok_0.stdout@
}

/// The command failed because the chain does not exist.
pub open spec fn missing(exchange: Exchange) -> bool {
    exchange.reply matches Ok(result) && !result.status.succeeded() && says_missing(result)
}

/// The command failed because the rule does not exist.
pub open spec fn vanished(exchange: Exchange) -> bool {
    exchange.reply matches Ok(result) && !result.status.succeeded() && says_missing_rule(
        result.status,
        result.stderr@,
    )
}

/// The failure that the reply stands for.
pub open spec fn failure_of(
    family: FirewallFamily,
    exchange: Exchange,
    error: FirewallError,
) -> bool {
    match exchange.reply {
        Err(source) => error == (FirewallError::CommandExecution { source }),
        Ok(result) => error matches FirewallError::CommandFailed { command, status, stderr }
            && command@ == command_text(family.program(), exchange.args) && status
            == result.status && stderr@ == result.stderr@,
    }
}

/// The runner made the exchange.
pub open spec fn made<R: FirewallCommandRunner>(
    runner: &R,
    family: FirewallFamily,
    exchange: Exchange,
) -> bool {
    exists|command: &str, args: &[&str]| #[trigger]
        call_ensures(R::run, (runner, command, args), exchange.reply) && command@
            == family.program() && str_views(args@) == exchange.args
}

/// The runner made all the exchanges.
pub open spec fn genuine<R: FirewallCommandRunner>(
    runner: &R,
    family: FirewallFamily,
    log: Seq<Exchange>,
) -> bool {
    forall|i: int| 0 <= i < log.len() ==> made(runner, family, #[trigger] log[i])
}

// Stages ----------------------------------------------------------------------------------------

/// One step of a firewall procedure.
pub enum FirewallStage {
    /// Create the chain unless it exists.
    EnsureChain {
        /// Chain name.
        chain: String,
    },
    /// Append the rule to the chain, and then delete the rules that were there before.
    Refill {
        /// Chain name.
        chain: String,
        /// Rule to leave in the chain.
        rule: Vec<String>,
    },
    /// Run the command.
    Run {
        /// Arguments.
        args: Vec<String>,
    },
    /// Run the command; a chain that does not exist is no failure.
    RunOnChain {
        /// Arguments.
        args: Vec<String>,
    },
    /// Delete jumps from INPUT to the chain until none is left.
    ClearJumps {
        /// Chain name.
        chain: String,
    },
    /// Delete jumps from INPUT to the chain until none is left; a jump that vanished after it was
    /// listed is no failure.
    DropJumps {
        /// Chain name.
        chain: String,
    },
    /// Confirm that INPUT jumps to the chain exactly once, first, and never to the staging chain.
    VerifyJump {
        /// Chain name.
        chain: String,
    },
}

/// Contents of a stage.
pub enum StageModel {
    EnsureChain { chain: Seq<char> },
    Refill { chain: Seq<char>, rule: Seq<Seq<char>> },
    Run { args: Seq<Seq<char>> },
    RunOnChain { args: Seq<Seq<char>> },
    ClearJumps { chain: Seq<char> },
    DropJumps { chain: Seq<char> },
    VerifyJump { chain: Seq<char> },
}

impl View for FirewallStage {
    type V = StageModel;

    open spec fn view(&self) -> StageModel {
        match self {
            FirewallStage::EnsureChain { chain } => StageModel::EnsureChain { chain: chain@ },
            FirewallStage::Refill { chain, rule } => StageModel::Refill {
                chain: chain@,
                rule: views(rule@),
            },
            FirewallStage::Run { args } => StageModel::Run { args: views(args@) },
            FirewallStage::RunOnChain { args } => StageModel::RunOnChain { args: views(args@) },
            FirewallStage::ClearJumps { chain } => StageModel::ClearJumps { chain: chain@ },
            FirewallStage::DropJumps { chain } => StageModel::DropJumps { chain: chain@ },
            FirewallStage::VerifyJump { chain } => StageModel::VerifyJump { chain: chain@ },
        }
    }
}

/// Contents of stages, in order.
pub open spec fn stage_models(stages: Seq<FirewallStage>) -> Seq<StageModel> {
    stages.map_values(|s: FirewallStage| s@)
}

/// How a step ended: without a failure, or with one.
pub open spec fn ending<T>(result: Result<T, FirewallError>) -> Option<FirewallError> {
    match result {
        Ok(_) => None,
        Err(error) => Some(error),
    }
}

/// The last exchange failed, and so does the step.
pub open spec fn stopped(
    family: FirewallFamily,
    log: Seq<Exchange>,
    failure: Option<FirewallError>,
) -> bool {
    log.len() > 0 && failure is Some && failure_of(family, log.last(), failure->0)
}

/// One command that has to succeed.
pub open spec fn run_rule(
    family: FirewallFamily,
    args: Seq<Seq<char>>,
    log: Seq<Exchange>,
    failure: Option<FirewallError>,
) -> bool {
    &&& log.len() == 1
    &&& issued(log[0], args)
    &&& if passed(log[0]) {
        failure is None
    } else {
        stopped(family, log, failure)
    }
}

/// One command on a chain that need not exist.
pub open spec fn run_on_chain_rule(
    family: FirewallFamily,
    args: Seq<Seq<char>>,
    log: Seq<Exchange>,
    failure: Option<FirewallError>,
) -> bool {
    &&& log.len() == 1
    &&& issued(log[0], args)
    &&& if passed(log[0]) || missing(log[0]) {
        failure is None
    } else {
        stopped(family, log, failure)
    }
}

/// Listing of a chain, and its creation where the listing says that it does not exist.
pub open spec fn ensure_rule(
    family: FirewallFamily,
    chain: Seq<char>,
    log: Seq<Exchange>,
    failure: Option<FirewallError>,
) -> bool {
    &&& log.len() > 0
    &&& issued(log[0], seq!["-S"@, chain])
    &&& if passed(log[0]) {
        log.len() == 1 && failure is None
    } else if missing(log[0]) {
        run_rule(family, seq!["-N"@, chain], log.skip(1), failure)
    } else {
        log.len() == 1 && stopped(family, log, failure)
    }
}

/// Deletion of the first `n` rules of a chain, one by one.
pub open spec fn delete_rule(
    family: FirewallFamily,
    chain: Seq<char>,
    n: nat,
    log: Seq<Exchange>,
    failure: Option<FirewallError>,
) -> bool
    decreases n,
{
    if n == 0 {
        log.len() == 0 && failure is None
    } else {
        &&& log.len() > 0
        &&& issued(log[0], seq!["-D"@, chain, "1"@])
        &&& if passed(log[0]) {
            delete_rule(family, chain, (n - 1) as nat, log.skip(1), failure)
        } else {
            log.len() == 1 && stopped(family, log, failure)
        }
    }
}

/// Replacement of the rules of a chain by one rule: the new rule comes before the old ones go.
pub open spec fn refill_rule(
    family: FirewallFamily,
    chain: Seq<char>,
    rule: Seq<Seq<char>>,
    log: Seq<Exchange>,
    failure: Option<FirewallError>,
) -> bool {
    &&& log.len() > 0
    &&& issued(log[0], seq!["-S"@, chain])
    &&& if !passed(log[0]) {
        log.len() == 1 && stopped(family, log, failure)
    } else {
        &&& log.len() > 1
        &&& issued(log[1], seq!["-A"@, chain] + rule)
        &&& if !passed(log[1]) {
            log.len() == 2 && stopped(family, log, failure)
        } else {
            delete_rule(family, chain, rule_count(listing(log[0]), chain), log.skip(2), failure)
        }
    }
}

/// Largest number of jumps that are deleted one by one.
pub const CLEAR_ROUNDS: u64 = u64::MAX;

/// Deletion of jumps from INPUT to a chain: list them, and while there is one, delete one. Where
/// `tolerant`, a jump that is no longer there when it is to be deleted is as good as one deleted.
pub open spec fn clear_rule(
    family: FirewallFamily,
    chain: Seq<char>,
    tolerant: bool,
    rounds: nat,
    log: Seq<Exchange>,
    failure: Option<FirewallError>,
) -> bool
    decreases rounds,
{
    if rounds == 0 {
        log.len() == 0 && failure is Some && (failure->0
            matches FirewallError::UnexpectedInputWiring {
            family: affected,
            stable_positions,
            staging_positions,
        } && affected == family && stable_positions@.len() == 0 && staging_positions@.len() == 0)
    } else {
        &&& log.len() > 0
        &&& issued(log[0], seq!["-S"@, "INPUT"@])
        &&& if !passed(log[0]) {
            log.len() == 1 && stopped(family, log, failure)
        } else if jump_positions(listing(log[0]), chain).len() == 0 {
            log.len() == 1 && failure is None
        } else {
            &&& log.len() > 1
            &&& issued(log[1], seq!["-D"@, "INPUT"@, "-j"@, chain])
            &&& if passed(log[1]) || (tolerant && vanished(log[1])) {
                clear_rule(family, chain, tolerant, (rounds - 1) as nat, log.skip(2), failure)
            } else {
                log.len() == 2 && stopped(family, log, failure)
            }
        }
    }
}

/// Confirmation of the final wiring.
pub open spec fn verify_rule(
    family: FirewallFamily,
    chain: Seq<char>,
    log: Seq<Exchange>,
    failure: Option<FirewallError>,
) -> bool {
    &&& log.len() == 1
    &&& issued(log[0], seq!["-S"@, "INPUT"@])
    &&& if !passed(log[0]) {
        stopped(family, log, failure)
    } else {
        let stable = jump_positions(listing(log[0]), chain);
        let staging = jump_positions(listing(log[0]), KIDOBO_STAGING_CHAIN_NAME@);
        if stable == seq![1usize] && staging.len() == 0 {
            failure is None
        } else {
            failure is Some && (failure->0 matches FirewallError::UnexpectedInputWiring {
                family: affected,
                stable_positions,
                staging_positions,
            } && affected == family && stable_positions@ == stable && staging_positions@
                == staging)
        }
    }
}

/// The exchanges of a stage, and how it ended.
pub open spec fn stage_rule(
    family: FirewallFamily,
    stage: StageModel,
    log: Seq<Exchange>,
    failure: Option<FirewallError>,
) -> bool {
    match stage {
        StageModel::EnsureChain { chain } => ensure_rule(family, chain, log, failure),
        StageModel::Refill { chain, rule } => refill_rule(family, chain, rule, log, failure),
        StageModel::Run { args } => run_rule(family, args, log, failure),
        StageModel::RunOnChain { args } => run_on_chain_rule(family, args, log, failure),
        StageModel::ClearJumps { chain } => clear_rule(
            family,
            chain,
            false,
            CLEAR_ROUNDS as nat,
            log,
            failure,
        ),
        StageModel::DropJumps { chain } => clear_rule(
            family,
            chain,
            true,
            CLEAR_ROUNDS as nat,
            log,
            failure,
        ),
        StageModel::VerifyJump { chain } => verify_rule(family, chain, log, failure),
    }
}

/// Stages in order, up to the first failure.
pub open spec fn sequence_rule(
    family: FirewallFamily,
    stages: Seq<StageModel>,
    log: Seq<Exchange>,
    failure: Option<FirewallError>,
) -> bool
    decreases stages.len(),
{
    if stages.len() == 0 {
        log.len() == 0 && failure is None
    } else {
        exists|n: int, first: Option<FirewallError>|
            {
                &&& 0 <= n <= log.len()
                &&& #[trigger] stage_rule(family, stages[0], log.take(n), first)
                &&& if first is Some {
                    n == log.len() && failure == first
                } else {
                    sequence_rule(family, stages.drop_first(), log.skip(n), failure)
                }
            }
    }
}

/// Stages in order, all of them, however they end.
pub open spec fn attempted_rule(
    family: FirewallFamily,
    stages: Seq<StageModel>,
    log: Seq<Exchange>,
) -> bool
    decreases stages.len(),
{
    if stages.len() == 0 {
        log.len() == 0
    } else {
        exists|n: int, first: Option<FirewallError>|
            {
                &&& 0 <= n <= log.len()
                &&& #[trigger] stage_rule(family, stages[0], log.take(n), first)
                &&& attempted_rule(family, stages.drop_first(), log.skip(n))
            }
    }
}

/// Stages in order, all of them, with the first failure.
pub open spec fn attempts_rule(
    family: FirewallFamily,
    stages: Seq<StageModel>,
    log: Seq<Exchange>,
    failure: Option<FirewallError>,
) -> bool
    decreases stages.len(),
{
    if stages.len() == 0 {
        log.len() == 0 && failure is None
    } else {
        exists|n: int, first: Option<FirewallError>|
            {
                &&& 0 <= n <= log.len()
                &&& #[trigger] stage_rule(family, stages[0], log.take(n), first)
                &&& if first is Some {
                    failure == first && attempted_rule(family, stages.drop_first(), log.skip(n))
                } else {
                    attempts_rule(family, stages.drop_first(), log.skip(n), failure)
                }
            }
    }
}

pub(crate) proof fn lemma_attempts_are_attempted(
    family: FirewallFamily,
    stages: Seq<StageModel>,
    log: Seq<Exchange>,
    failure: Option<FirewallError>,
)
    requires
        attempts_rule(family, stages, log, failure),
    ensures
        attempted_rule(family, stages, log),
    decreases stages.len(),
{
    if stages.len() > 0 {
        let (n, first) = choose|n: int, first: Option<FirewallError>|
            {
                &&& 0 <= n <= log.len()
                &&& #[trigger] stage_rule(family, stages[0], log.take(n), first)
                &&& if first is Some {
                    failure == first && attempted_rule(family, stages.drop_first(), log.skip(n))
                } else {
                    attempts_rule(family, stages.drop_first(), log.skip(n), failure)
                }
            };
        if first is None {
            lemma_attempts_are_attempted(family, stages.drop_first(), log.skip(n), failure);
        }
        assert(stage_rule(family, stages[0], log.take(n), first));
    }
}

// Sessions --------------------------------------------------------------------------------------

/// A runner with the exchanges made through it.
pub struct FirewallSession<'a, R: FirewallCommandRunner> {
    runner: &'a R,
    family: FirewallFamily,
    log: Ghost<Seq<Exchange>>,
}

/// Borrows arguments.
fn borrowed(args: &Vec<String>) -> (out: Vec<&str>)
    ensures
        str_views(out@) == views(args@),
{
    let mut out: Vec<&str> = Vec::new();
    let mut i: usize = 0;
    while i < args.len()
        invariant
            i <= args@.len(),
            out@.len() == i,
            forall|k: int| 0 <= k < i ==> (#[trigger] out@[k])@ == args@[k]@,
        decreases args@.len() - i,
    {
        out.push(args[i].as_str());
        i = i + 1;
    }
    assert(str_views(out@) =~= views(args@));
    out
}

/// Puts the request to wait for the tables lock before the arguments.
pub fn with_lock_wait<'a>(args: &[&'a str]) -> (waiting: Vec<&'a str>)
    ensures
        str_views(waiting@) == waited(str_views(args@)),
{
    let ghost goal = waited(str_views(args@));
    let mut waiting: Vec<&'a str> = Vec::new();
    waiting.push("-w");
    waiting.push(XTABLES_LOCK_WAIT_SECS);
    let mut i: usize = 0;
    assert(str_views(waiting@) =~= goal.take(2));
    while i < args.len()
        invariant
            i <= args@.len(),
            goal == waited(str_views(args@)),
            str_views(waiting@) == goal.take(i + 2),
        decreases args@.len() - i,
    {
        let ghost before = waiting@;
        waiting.push(args[i]);
        i = i + 1;
        assert(str_views(waiting@) =~= str_views(before).push(goal[i + 1]));
        assert(goal.take(i + 2) =~= goal.take(i + 1).push(goal[i + 1]));
    }
    assert(goal.take(i + 2) =~= goal);
    waiting
}

impl<'a, R: FirewallCommandRunner> FirewallSession<'a, R> {
    /// Exchanges made so far.
    pub closed spec fn history(self) -> Seq<Exchange> {
        self.log@
    }

    /// Family of the commands.
    pub closed spec fn table(self) -> FirewallFamily {
        self.family
    }

    /// Runner of the commands.
    pub closed spec fn through(self) -> &'a R {
        self.runner
    }

    /// The history is what the runner did.
    pub open spec fn sound(self) -> bool {
        genuine(self.through(), self.table(), self.history())
    }

    /// Only exchanges were added.
    pub open spec fn extends(self, before: Self) -> bool {
        &&& self.table() == before.table()
        &&& self.through() == before.through()
        &&& self.history().len() >= before.history().len()
        &&& self.history().take(before.history().len() as int) == before.history()
    }

    /// The exchanges added since.
    pub open spec fn since(self, before: Self) -> Seq<Exchange> {
        self.history().skip(before.history().len() as int)
    }

    /// A session without exchanges.
    fn new(runner: &'a R, family: FirewallFamily) -> (session: FirewallSession<'a, R>)
        ensures
            session.sound(),
            session.history().len() == 0,
            session.table() == family,
            session.through() == runner,
    {
        FirewallSession { runner, family, log: Ghost(Seq::empty()) }
    }

    /// Runs one command.
    fn issue(&mut self, args: &[&str]) -> (result: Result<CommandResult, CommandRunnerError>)
        requires
            old(self).sound(),
        ensures
            final(self).sound(),
            final(self).extends(*old(self)),
            final(self).history() == old(self).history().push(
                Exchange { args: waited(str_views(args@)), reply: result },
            ),
    {
        let waiting: Vec<&str> = with_lock_wait(args);
        let binary: &'static str = self.family.binary();
        let result: Result<CommandResult, CommandRunnerError> = self.runner.run(
            binary,
            waiting.as_slice(),
        );
        let ghost exchange = Exchange { args: waited(str_views(args@)), reply: result };
        proof {
            assert(made(self.runner, self.family, exchange));
            let log = self.log@;
            self.log@ = log.push(exchange);
            assert(self.log@.take(log.len() as int) =~= log);
            assert forall|i: int| 0 <= i < self.log@.len() implies made(
                self.runner,
                self.family,
                #[trigger] self.log@[i],
            ) by {
                if i < log.len() {
                    assert(self.log@[i] == log[i]);
                }
            }
        }
        result
    }

    /// The failure of a command with the reply.
    fn failure(&self, args: &[&str], result: Result<CommandResult, CommandRunnerError>) -> (error:
        FirewallError)
        ensures
            failure_of(
                self.table(),
                Exchange { args: waited(str_views(args@)), reply: result },
                error,
            ),
    {
        match result {
            Err(source) => FirewallError::from(source),
            Ok(reply) => {
                let waiting: Vec<&str> = with_lock_wait(args);
                FirewallError::CommandFailed {
                    command: display_command(self.family.binary(), waiting.as_slice()),
                    status: reply.status,
                    stderr: reply.stderr,
                }
            },
        }
    }

    /// Runs one command that has to succeed, and returns what it printed.
    fn run_checked(&mut self, args: &[&str]) -> (result: Result<String, FirewallError>)
        requires
            old(self).sound(),
        ensures
            final(self).sound(),
            final(self).extends(*old(self)),
            run_rule(
                old(self).table(),
                str_views(args@),
                final(self).since(*old(self)),
                ending(result),
            ),
            result matches Ok(stdout) ==> stdout@ == listing(final(self).since(*old(self))[0]),
    {
        let reply: Result<CommandResult, CommandRunnerError> = self.issue(args);
        let success: bool = match &reply {
            Ok(result) => result.status.success(),
            Err(_) => false,
        };
        if !success {
            return Err(self.failure(args, reply));
        }
        match reply {
            Ok(result) => Ok(result.stdout),
            Err(source) => Err(FirewallError::from(source)),
        }
    }
}

/// Exchanges of two steps in a row.
proof fn lemma_since<'a, R: FirewallCommandRunner>(
    a: FirewallSession<'a, R>,
    b: FirewallSession<'a, R>,
    c: FirewallSession<'a, R>,
)
    requires
        b.extends(a),
        c.extends(b),
    ensures
        c.extends(a),
        c.since(a) == b.since(a) + c.since(b),
{
    let la = a.history().len() as int;
    assert(c.history().take(la) =~= c.history().take(b.history().len() as int).take(la));
    assert(c.since(a) =~= b.since(a) + c.since(b));
}

impl<'a, R: FirewallCommandRunner> FirewallSession<'a, R> {
    /// Returns whether the chain exists.
    fn has_chain(&mut self, chain: &str) -> (found: Result<bool, FirewallError>)
        requires
            old(self).sound(),
        ensures
            final(self).sound(),
            final(self).extends(*old(self)),
            ({
                let log = final(self).since(*old(self));
                &&& log.len() == 1
                &&& issued(log[0], seq!["-S"@, chain@])
                &&& match found {
                    Ok(there) => if there {
                        passed(log[0])
                    } else {
                        missing(log[0])
                    },
                    Err(error) => !passed(log[0]) && !missing(log[0]) && failure_of(
                        old(self).table(),
                        log[0],
                        error,
                    ),
                }
            }),
    {
        let mut args: Vec<&str> = Vec::new();
        args.push("-S");
        args.push(chain);
        assert(str_views(args@) =~= seq!["-S"@, chain@]);
        let reply: Result<CommandResult, CommandRunnerError> = self.issue(args.as_slice());
        if let Ok(result) = &reply {
            if result.status.success() {
                return Ok(true);
            }
            if is_missing_chain_result(result) {
                return Ok(false);
            }
        }
        Err(self.failure(args.as_slice(), reply))
    }

    fn ensure_chain(&mut self, chain: &str) -> (result: Result<(), FirewallError>)
        requires
            old(self).sound(),
        ensures
            final(self).sound(),
            final(self).extends(*old(self)),
            ensure_rule(
                old(self).table(),
                chain@,
                final(self).since(*old(self)),
                ending(result),
            ),
    {
        let ghost start = *self;
        match self.has_chain(chain) {
            Err(error) => Err(error),
            Ok(true) => Ok(()),
            Ok(false) => {
                let ghost listed = *self;
                let mut args: Vec<&str> = Vec::new();
                args.push("-N");
                args.push(chain);
                assert(str_views(args@) =~= seq!["-N"@, chain@]);
                let created: Result<String, FirewallError> = self.run_checked(args.as_slice());
                proof {
                    lemma_since(start, listed, *self);
                    assert(self.since(start).skip(1) =~= self.since(listed));
                }
                match created {
                    Ok(_) => Ok(()),
                    Err(error) => Err(error),
                }
            },
        }
    }

    fn run_on_chain(&mut self, args: &[&str]) -> (result: Result<(), FirewallError>)
        requires
            old(self).sound(),
        ensures
            final(self).sound(),
            final(self).extends(*old(self)),
            run_on_chain_rule(
                old(self).table(),
                str_views(args@),
                final(self).since(*old(self)),
                ending(result),
            ),
    {
        let reply: Result<CommandResult, CommandRunnerError> = self.issue(args);
        if let Ok(result) = &reply {
            if result.status.success() || is_missing_chain_result(result) {
                return Ok(());
            }
        }
        Err(self.failure(args, reply))
    }

    fn delete_first_rules(&mut self, chain: &str, count: usize) -> (result: Result<
        (),
        FirewallError,
    >)
        requires
            old(self).sound(),
        ensures
            final(self).sound(),
            final(self).extends(*old(self)),
            delete_rule(
                old(self).table(),
                chain@,
                count as nat,
                final(self).since(*old(self)),
                ending(result),
            ),
    {
        let ghost start = *self;
        let ghost family = self.table();
        let mut args: Vec<&str> = Vec::new();
        args.push("-D");
        args.push(chain);
        args.push("1");
        assert(str_views(args@) =~= seq!["-D"@, chain@, "1"@]);
        let mut left: usize = count;
        proof {
            assert(self.history().take(self.history().len() as int) =~= self.history());
            assert forall|rest: Seq<Exchange>, failure: Option<FirewallError>| #[trigger]
                delete_rule(family, chain@, left as nat, rest, failure) implies delete_rule(
                family,
                chain@,
                count as nat,
                self.since(start) + rest,
                failure,
            ) by {
                assert(self.since(start) + rest =~= rest);
            }
        }
        while left > 0
            invariant
                left <= count,
                self.sound(),
                start == *old(self),
                self.extends(start),
                family == start.table(),
                str_views(args@) == seq!["-D"@, chain@, "1"@],
                forall|rest: Seq<Exchange>, failure: Option<FirewallError>| #[trigger]
                    delete_rule(family, chain@, left as nat, rest, failure) ==> delete_rule(
                        family,
                        chain@,
                        count as nat,
                        self.since(start) + rest,
                        failure,
                    ),
            decreases left,
        {
            let ghost before = *self;
            let deleted: Result<String, FirewallError> = self.run_checked(args.as_slice());
            let ghost round = self.since(before);
            proof {
                lemma_since(start, before, *self);
            }
            if let Err(error) = deleted {
                assert(delete_rule(family, chain@, left as nat, round, Some(error)));
                return Err(error);
            }
            left = left - 1;
            proof {
                assert forall|rest: Seq<Exchange>, failure: Option<FirewallError>| #[trigger]
                    delete_rule(
                        family,
                        chain@,
                        left as nat,
                        rest,
                        failure,
                    ) implies delete_rule(
                    family,
                    chain@,
                    count as nat,
                    self.since(start) + rest,
                    failure,
                ) by {
                    assert((round + rest).skip(1) =~= rest);
                    assert(delete_rule(family, chain@, (left + 1) as nat, round + rest, failure));
                    assert(self.since(start) + rest =~= before.since(start) + (round + rest));
                }
            }
        }
        proof {
            let none = Seq::<Exchange>::empty();
            assert(delete_rule(family, chain@, 0, none, None));
            assert(self.since(start) + none =~= self.since(start));
        }
        Ok(())
    }

    fn refill(&mut self, chain: &str, rule: &Vec<String>) -> (result: Result<(), FirewallError>)
        requires
            old(self).sound(),
        ensures
            final(self).sound(),
            final(self).extends(*old(self)),
            refill_rule(
                old(self).table(),
                chain@,
                views(rule@),
                final(self).since(*old(self)),
                ending(result),
            ),
    {
        let ghost start = *self;
        let mut args: Vec<&str> = Vec::new();
        args.push("-S");
        args.push(chain);
        assert(str_views(args@) =~= seq!["-S"@, chain@]);
        let current: String = match self.run_checked(args.as_slice()) {
            Ok(stdout) => stdout,
            Err(error) => {
                return Err(error);
            },
        };
        let ghost listed = *self;
        let count: usize = chain_rule_count(current.as_str(), chain);
        let mut append: Vec<&str> = Vec::new();
        append.push("-A");
        append.push(chain);
        let mut tail: Vec<&str> = borrowed(rule);
        let ghost tail_args = tail@;
        append.append(&mut tail);
        assert(str_views(append@) =~= seq!["-A"@, chain@] + views(rule@)) by {
            assert(str_views(append@) =~= seq!["-A"@, chain@] + str_views(tail_args));
        }
        let appended: Result<String, FirewallError> = self.run_checked(append.as_slice());
        let ghost added = *self;
        proof {
            lemma_since(start, listed, added);
        }
        if let Err(error) = appended {
            return Err(error);
        }
        let result: Result<(), FirewallError> = self.delete_first_rules(chain, count);
        proof {
            lemma_since(start, added, *self);
            assert(self.since(start).skip(2) =~= self.since(added));
        }
        result
    }

    fn clear_jumps(&mut self, chain: &str, tolerant: bool) -> (result: Result<(), FirewallError>)
        requires
            old(self).sound(),
        ensures
            final(self).sound(),
            final(self).extends(*old(self)),
            clear_rule(
                old(self).table(),
                chain@,
                tolerant,
                CLEAR_ROUNDS as nat,
                final(self).since(*old(self)),
                ending(result),
            ),
    {
        let ghost start = *self;
        let family: FirewallFamily = self.family;
        let mut list: Vec<&str> = Vec::new();
        list.push("-S");
        list.push("INPUT");
        assert(str_views(list@) =~= seq!["-S"@, "INPUT"@]);
        let mut delete: Vec<&str> = Vec::new();
        delete.push("-D");
        delete.push("INPUT");
        delete.push("-j");
        delete.push(chain);
        assert(str_views(delete@) =~= seq!["-D"@, "INPUT"@, "-j"@, chain@]);
        let mut left: u64 = CLEAR_ROUNDS;
        proof {
            assert(self.history().take(self.history().len() as int) =~= self.history());
            assert forall|rest: Seq<Exchange>, failure: Option<FirewallError>| #[trigger]
                clear_rule(family, chain@, tolerant, left as nat, rest, failure) implies clear_rule(
                family,
                chain@,
                tolerant,
                CLEAR_ROUNDS as nat,
                self.since(start) + rest,
                failure,
            ) by {
                assert(self.since(start) + rest =~= rest);
            }
        }
        while left > 0
            invariant
                self.sound(),
                start == *old(self),
                self.extends(start),
                family == start.table(),
                str_views(list@) == seq!["-S"@, "INPUT"@],
                str_views(delete@) == seq!["-D"@, "INPUT"@, "-j"@, chain@],
                forall|rest: Seq<Exchange>, failure: Option<FirewallError>| #[trigger]
                    clear_rule(family, chain@, tolerant, left as nat, rest, failure) ==> clear_rule(
                        family,
                        chain@,
                        tolerant,
                        CLEAR_ROUNDS as nat,
                        self.since(start) + rest,
                        failure,
                    ),
            decreases left,
        {
            let ghost before = *self;
            let listed: Result<String, FirewallError> = self.run_checked(list.as_slice());
            let ghost after_list = *self;
            let ghost first = self.since(before);
            proof {
                lemma_since(start, before, after_list);
            }
            let stdout: String = match listed {
                Ok(stdout) => stdout,
                Err(error) => {
                    assert(clear_rule(family, chain@, tolerant, left as nat, first, Some(error)));
                    return Err(error);
                },
            };
            if exact_jump_positions(stdout.as_str(), chain).len() == 0 {
                assert(clear_rule(family, chain@, tolerant, left as nat, first, None));
                return Ok(());
            }
            let deleted: Result<String, FirewallError> = self.run_checked(delete.as_slice());
            let ghost round = self.since(before);
            proof {
                lemma_since(before, after_list, *self);
                lemma_since(start, before, *self);
            }
            if let Err(error) = deleted {
                let gone: bool = is_missing_rule_failure(&error);
                assert(gone == vanished(round[1]));
                if !tolerant || !gone {
                    assert(clear_rule(family, chain@, tolerant, left as nat, round, Some(error)));
                    return Err(error);
                }
            }
            left = left - 1;
            proof {
                assert forall|rest: Seq<Exchange>, failure: Option<FirewallError>| #[trigger]
                    clear_rule(
                        family,
                        chain@,
                        tolerant,
                        left as nat,
                        rest,
                        failure,
                    ) implies clear_rule(
                    family,
                    chain@,
                    tolerant,
                    CLEAR_ROUNDS as nat,
                    self.since(start) + rest,
                    failure,
                ) by {
                    assert((round + rest).skip(2) =~= rest);
                    assert(clear_rule(family, chain@, tolerant, (left + 1) as nat, round + rest, failure));
                    assert(self.since(start) + rest =~= before.since(start) + (round + rest));
                }
            }
        }
        let error: FirewallError = FirewallError::UnexpectedInputWiring {
            family,
            stable_positions: Vec::new(),
            staging_positions: Vec::new(),
        };
        proof {
            let none = Seq::<Exchange>::empty();
            assert(clear_rule(family, chain@, tolerant, 0, none, Some(error)));
            assert(self.since(start) + none =~= self.since(start));
        }
        Err(error)
    }

    fn verify_jump(&mut self, chain: &str) -> (result: Result<(), FirewallError>)
        requires
            old(self).sound(),
        ensures
            final(self).sound(),
            final(self).extends(*old(self)),
            verify_rule(
                old(self).table(),
                chain@,
                final(self).since(*old(self)),
                ending(result),
            ),
    {
        let mut list: Vec<&str> = Vec::new();
        list.push("-S");
        list.push("INPUT");
        assert(str_views(list@) =~= seq!["-S"@, "INPUT"@]);
        let stdout: String = match self.run_checked(list.as_slice()) {
            Ok(stdout) => stdout,
            Err(error) => {
                return Err(error);
            },
        };
        let stable_positions: Vec<usize> = exact_jump_positions(stdout.as_str(), chain);
        let staging_positions: Vec<usize> = exact_jump_positions(
            stdout.as_str(),
            KIDOBO_STAGING_CHAIN_NAME,
        );
        let single: bool = stable_positions.len() == 1 && stable_positions[0] == 1;
        assert(single <==> stable_positions@ =~= seq![1usize]);
        if single && staging_positions.len() == 0 {
            return Ok(());
        }
        Err(
            FirewallError::UnexpectedInputWiring {
                family: self.family,
                stable_positions,
                staging_positions,
            },
        )
    }

    fn run_stage(&mut self, stage: &FirewallStage) -> (result: Result<(), FirewallError>)
        requires
            old(self).sound(),
        ensures
            final(self).sound(),
            final(self).extends(*old(self)),
            stage_rule(old(self).table(), stage@, final(self).since(*old(self)), ending(result)),
    {
        match stage {
            FirewallStage::EnsureChain { chain } => self.ensure_chain(chain.as_str()),
            FirewallStage::Refill { chain, rule } => self.refill(chain.as_str(), rule),
            FirewallStage::Run { args } => {
                let borrowed_args: Vec<&str> = borrowed(args);
                match self.run_checked(borrowed_args.as_slice()) {
                    Ok(_) => Ok(()),
                    Err(error) => Err(error),
                }
            },
            FirewallStage::RunOnChain { args } => {
                let borrowed_args: Vec<&str> = borrowed(args);
                self.run_on_chain(borrowed_args.as_slice())
            },
            FirewallStage::ClearJumps { chain } => self.clear_jumps(chain.as_str(), false),
            FirewallStage::DropJumps { chain } => self.clear_jumps(chain.as_str(), true),
            FirewallStage::VerifyJump { chain } => self.verify_jump(chain.as_str()),
        }
    }

    /// Carries out stages in order, up to the first failure.
    fn run_all(&mut self, stages: &Vec<FirewallStage>) -> (result: Result<(), FirewallError>)
        requires
            old(self).sound(),
        ensures
            final(self).sound(),
            final(self).extends(*old(self)),
            sequence_rule(
                old(self).table(),
                stage_models(stages@),
                final(self).since(*old(self)),
                ending(result),
            ),
    {
        let ghost start = *self;
        let ghost family = self.table();
        let ghost models = stage_models(stages@);
        let mut i: usize = 0;
        proof {
            assert(self.history().take(self.history().len() as int) =~= self.history());
            assert forall|rest: Seq<Exchange>, failure: Option<FirewallError>| #[trigger]
                sequence_rule(family, models.skip(0), rest, failure) implies sequence_rule(
                family,
                models,
                self.since(start) + rest,
                failure,
            ) by {
                assert(self.since(start) + rest =~= rest);
                assert(models.skip(0) =~= models);
            }
        }
        while i < stages.len()
            invariant
                i <= stages@.len(),
                self.sound(),
                start == *old(self),
                self.extends(start),
                family == start.table(),
                models == stage_models(stages@),
                forall|rest: Seq<Exchange>, failure: Option<FirewallError>| #[trigger]
                    sequence_rule(family, models.skip(i as int), rest, failure) ==> sequence_rule(
                        family,
                        models,
                        self.since(start) + rest,
                        failure,
                    ),
            decreases stages@.len() - i,
        {
            let ghost before = *self;
            let done: Result<(), FirewallError> = self.run_stage(&stages[i]);
            let ghost round = self.since(before);
            let ghost left = models.skip(i as int);
            proof {
                lemma_since(start, before, *self);
                assert(left[0] == stages@[i as int]@);
                assert(left.drop_first() =~= models.skip(i + 1));
            }
            if let Err(error) = done {
                proof {
                    assert(round.take(round.len() as int) =~= round);
                    assert(stage_rule(
                        family,
                        left[0],
                        round.take(round.len() as int),
                        Some(error),
                    ));
                    assert(sequence_rule(family, left, round, Some(error)));
                }
                return Err(error);
            }
            proof {
                assert forall|rest: Seq<Exchange>, failure: Option<FirewallError>| #[trigger]
                    sequence_rule(
                        family,
                        models.skip(i + 1),
                        rest,
                        failure,
                    ) implies sequence_rule(
                    family,
                    models,
                    self.since(start) + rest,
                    failure,
                ) by {
                    let n = round.len() as int;
                    assert((round + rest).take(n) =~= round);
                    assert((round + rest).skip(n) =~= rest);
                    assert(stage_rule(family, left[0], (round + rest).take(n), None));
                    assert(sequence_rule(family, left, round + rest, failure));
                    assert(self.since(start) + rest =~= before.since(start) + (round + rest));
                }
            }
            i = i + 1;
        }
        proof {
            let none = Seq::<Exchange>::empty();
            assert(sequence_rule(family, models.skip(i as int), none, None));
            assert(self.since(start) + none =~= self.since(start));
        }
        Ok(())
    }

    /// Carries out all stages in order, and returns the first failure.
    fn attempt_all(&mut self, stages: &Vec<FirewallStage>, from: usize) -> (result: Result<
        (),
        FirewallError,
    >)
        requires
            old(self).sound(),
            from <= stages@.len(),
        ensures
            final(self).sound(),
            final(self).extends(*old(self)),
            attempts_rule(
                old(self).table(),
                stage_models(stages@).skip(from as int),
                final(self).since(*old(self)),
                ending(result),
            ),
        decreases stages@.len() - from,
    {
        let ghost start = *self;
        let ghost left = stage_models(stages@).skip(from as int);
        if from == stages.len() {
            proof {
                assert(self.history().take(self.history().len() as int) =~= self.history());
                assert(self.since(start) =~= Seq::empty());
            }
            return Ok(());
        }
        let first: Result<(), FirewallError> = self.run_stage(&stages[from]);
        let ghost middle = *self;
        let later: Result<(), FirewallError> = self.attempt_all(stages, from + 1);
        proof {
            lemma_since(start, middle, *self);
            let log = self.since(start);
            let n = middle.since(start).len() as int;
            assert(left[0] == stages@[from as int]@);
            assert(left.drop_first() =~= stage_models(stages@).skip(from + 1));
            assert(log.take(n) =~= middle.since(start));
            assert(log.skip(n) =~= self.since(middle));
            assert(stage_rule(start.table(), left[0], log.take(n), ending(first)));
            lemma_attempts_are_attempted(
                start.table(),
                left.drop_first(),
                log.skip(n),
                ending(later),
            );
        }
        match first {
            Err(error) => Err(error),
            Ok(()) => later,
        }
    }
}

// Procedures ------------------------------------------------------------------------------------

/// Texts of an argument list.
fn owned(args: &[&str]) -> (out: Vec<String>)
    ensures
        views(out@) == str_views(args@),
{
    let mut out: Vec<String> = Vec::new();
    let mut i: usize = 0;
    while i < args.len()
        invariant
            i <= args@.len(),
            out@.len() == i,
            forall|k: int| 0 <= k < i ==> (#[trigger] out@[k])@ == args@[k]@,
        decreases args@.len() - i,
    {
        out.push(args[i].to_owned());
        i = i + 1;
    }
    assert(views(out@) =~= str_views(args@));
    out
}

/// Arguments of a rule that applies the verdict to the members of the set.
pub open spec fn set_rule(set_name: Seq<char>, action: ChainAction) -> Seq<Seq<char>> {
    seq!["-m"@, "set"@, "--match-set"@, set_name, "src"@, "-j"@, action.target()]
}

/// Arguments that put a jump to the chain first in INPUT.
pub open spec fn insert_jump(chain: Seq<char>) -> Seq<Seq<char>> {
    seq!["-I"@, "INPUT"@, "1"@, "-j"@, chain]
}

/// Wiring of one family: the enforcement chain is filled before INPUT leads to it; while input
/// jumps to it are removed, INPUT leads to it through the staging chain.
pub open spec fn wiring_stages(set_name: Seq<char>, action: ChainAction) -> Seq<StageModel> {
    let stable = KIDOBO_CHAIN_NAME@;
    let staging = KIDOBO_STAGING_CHAIN_NAME@;
    seq![
        StageModel::EnsureChain { chain: stable },
        StageModel::Refill { chain: stable, rule: set_rule(set_name, action) },
        StageModel::EnsureChain { chain: staging },
        StageModel::Refill { chain: staging, rule: seq!["-j"@, stable] },
        StageModel::Run { args: insert_jump(staging) },
        StageModel::ClearJumps { chain: stable },
        StageModel::Run { args: insert_jump(stable) },
        StageModel::ClearJumps { chain: staging },
        StageModel::RunOnChain { args: seq!["-F"@, staging] },
        StageModel::RunOnChain { args: seq!["-X"@, staging] },
        StageModel::VerifyJump { chain: stable },
    ]
}

/// Cleanup of one family: no jump may be left before a chain is emptied and deleted.
pub open spec fn cleanup_stages() -> Seq<StageModel> {
    let stable = KIDOBO_CHAIN_NAME@;
    let staging = KIDOBO_STAGING_CHAIN_NAME@;
    seq![
        StageModel::DropJumps { chain: staging },
        StageModel::DropJumps { chain: stable },
        StageModel::RunOnChain { args: seq!["-F"@, staging] },
        StageModel::RunOnChain { args: seq!["-X"@, staging] },
        StageModel::RunOnChain { args: seq!["-F"@, stable] },
        StageModel::RunOnChain { args: seq!["-X"@, stable] },
    ]
}

fn jump_insertion(chain: &str) -> (args: Vec<String>)
    ensures
        views(args@) == insert_jump(chain@),
{
    let mut parts: Vec<&str> = Vec::new();
    parts.push("-I");
    parts.push("INPUT");
    parts.push("1");
    parts.push("-j");
    parts.push(chain);
    assert(str_views(parts@) =~= insert_jump(chain@));
    owned(parts.as_slice())
}

fn pair(a: &str, b: &str) -> (args: Vec<String>)
    ensures
        views(args@) == seq![a@, b@],
{
    let mut parts: Vec<&str> = Vec::new();
    parts.push(a);
    parts.push(b);
    assert(str_views(parts@) =~= seq![a@, b@]);
    owned(parts.as_slice())
}

/// Plans the wiring of one family.
pub fn plan_wiring(set_name: &str, chain_action: ChainAction) -> (stages: Vec<FirewallStage>)
    ensures
        stage_models(stages@) == wiring_stages(set_name@, chain_action),
{
    let mut rule: Vec<&str> = Vec::new();
    rule.push("-m");
    rule.push("set");
    rule.push("--match-set");
    rule.push(set_name);
    rule.push("src");
    rule.push("-j");
    rule.push(chain_action.as_target());
    assert(str_views(rule@) =~= set_rule(set_name@, chain_action));
    let mut stages: Vec<FirewallStage> = Vec::new();
    stages.push(FirewallStage::EnsureChain { chain: KIDOBO_CHAIN_NAME.to_owned() });
    stages.push(
        FirewallStage::Refill {
            chain: KIDOBO_CHAIN_NAME.to_owned(),
            rule: owned(rule.as_slice()),
        },
    );
    stages.push(FirewallStage::EnsureChain { chain: KIDOBO_STAGING_CHAIN_NAME.to_owned() });
    stages.push(
        FirewallStage::Refill {
            chain: KIDOBO_STAGING_CHAIN_NAME.to_owned(),
            rule: pair("-j", KIDOBO_CHAIN_NAME),
        },
    );
    stages.push(FirewallStage::Run { args: jump_insertion(KIDOBO_STAGING_CHAIN_NAME) });
    stages.push(FirewallStage::ClearJumps { chain: KIDOBO_CHAIN_NAME.to_owned() });
    stages.push(FirewallStage::Run { args: jump_insertion(KIDOBO_CHAIN_NAME) });
    stages.push(FirewallStage::ClearJumps { chain: KIDOBO_STAGING_CHAIN_NAME.to_owned() });
    stages.push(FirewallStage::RunOnChain { args: pair("-F", KIDOBO_STAGING_CHAIN_NAME) });
    stages.push(FirewallStage::RunOnChain { args: pair("-X", KIDOBO_STAGING_CHAIN_NAME) });
    stages.push(FirewallStage::VerifyJump { chain: KIDOBO_CHAIN_NAME.to_owned() });
    assert(stage_models(stages@) =~= wiring_stages(set_name@, chain_action));
    stages
}

/// Plans the cleanup of one family.
pub fn plan_cleanup() -> (stages: Vec<FirewallStage>)
    ensures
        stage_models(stages@) == cleanup_stages(),
{
    let mut stages: Vec<FirewallStage> = Vec::new();
    stages.push(FirewallStage::DropJumps { chain: KIDOBO_STAGING_CHAIN_NAME.to_owned() });
    stages.push(FirewallStage::DropJumps { chain: KIDOBO_CHAIN_NAME.to_owned() });
    stages.push(FirewallStage::RunOnChain { args: pair("-F", KIDOBO_STAGING_CHAIN_NAME) });
    stages.push(FirewallStage::RunOnChain { args: pair("-X", KIDOBO_STAGING_CHAIN_NAME) });
    stages.push(FirewallStage::RunOnChain { args: pair("-F", KIDOBO_CHAIN_NAME) });
    stages.push(FirewallStage::RunOnChain { args: pair("-X", KIDOBO_CHAIN_NAME) });
    assert(stage_models(stages@) =~= cleanup_stages());
    stages
}

/// Checks whether a named chain exists for one address family.
///
/// Returns [`FirewallError`] when the inspection command cannot execute or fails for a reason
/// other than a missing chain.
pub fn chain_exists<R: FirewallCommandRunner>(
    runner: &R,
    family: FirewallFamily,
    chain_name: &str,
) -> (found: Result<bool, FirewallError>)
    ensures
        exists|exchange: Exchange|
            {
                &&& #[trigger] made(runner, family, exchange)
                &&& issued(exchange, seq!["-S"@, chain_name@])
                &&& match found {
                    Ok(there) => if there {
                        passed(exchange)
                    } else {
                        missing(exchange)
                    },
                    Err(error) => !passed(exchange) && !missing(exchange) && failure_of(
                        family,
                        exchange,
                        error,
                    ),
                }
            },
{
    let mut session: FirewallSession<'_, R> = FirewallSession::new(runner, family);
    let ghost start = session;
    let found: Result<bool, FirewallError> = session.has_chain(chain_name);
    assert(made(runner, family, session.since(start)[0])) by {
        assert(session.history()[0] == session.since(start)[0]);
    }
    found
}

/// Repeatedly inspects and removes exact input jumps to a named chain until none remain.
///
/// Returns [`FirewallError`] when inspection or deletion fails.
pub fn remove_all_input_jumps_for_chain<R: FirewallCommandRunner>(
    runner: &R,
    family: FirewallFamily,
    chain_name: &str,
) -> (result: Result<(), FirewallError>)
    ensures
        exists|log: Seq<Exchange>| #[trigger]
            genuine(runner, family, log) && clear_rule(
                family,
                chain_name@,
                false,
                CLEAR_ROUNDS as nat,
                log,
                ending(result),
            ),
{
    let mut session: FirewallSession<'_, R> = FirewallSession::new(runner, family);
    let ghost start = session;
    let result: Result<(), FirewallError> = session.clear_jumps(chain_name, false);
    assert(session.since(start) =~= session.history());
    result
}

/// The wiring of one family was carried out.
pub open spec fn wired<R: FirewallCommandRunner>(
    runner: &R,
    family: FirewallFamily,
    set_name: Seq<char>,
    action: ChainAction,
    failure: Option<FirewallError>,
) -> bool {
    exists|log: Seq<Exchange>| #[trigger]
        genuine(runner, family, log) && sequence_rule(
            family,
            wiring_stages(set_name, action),
            log,
            failure,
        )
}

/// Establishes and normalizes fail-closed wiring for one family.
///
/// Returns [`FirewallError`] when the chain, set-match action, or position-one input jump cannot be
/// established or normalized.
pub fn ensure_firewall_wiring<R: FirewallCommandRunner>(
    runner: &R,
    family: FirewallFamily,
    set_name: &str,
    chain_action: ChainAction,
) -> (result: Result<(), FirewallError>)
    ensures
        wired(runner, family, set_name@, chain_action, ending(result)),
{
    let stages: Vec<FirewallStage> = plan_wiring(set_name, chain_action);
    let mut session: FirewallSession<'_, R> = FirewallSession::new(runner, family);
    let ghost start = session;
    let result: Result<(), FirewallError> = session.run_all(&stages);
    assert(session.since(start) =~= session.history());
    result
}

/// Establishes IPv4 and optionally IPv6 managed firewall wiring.
///
/// Returns the first [`FirewallError`] encountered while wiring an enabled family.
pub fn ensure_firewall_wiring_for_families<R: FirewallCommandRunner>(
    runner: &R,
    set_name_v4: &str,
    set_name_v6: &str,
    enable_ipv6: bool,
    chain_action: ChainAction,
) -> (result: Result<(), FirewallError>)
    ensures
        exists|first: Option<FirewallError>| #[trigger]
            wired(runner, FirewallFamily::Ipv4, set_name_v4@, chain_action, first) && if first is Some
                || !enable_ipv6 {
                ending(result) == first
            } else {
                wired(runner, FirewallFamily::Ipv6, set_name_v6@, chain_action, ending(result))
            },
{
    let first: Result<(), FirewallError> = ensure_firewall_wiring(
        runner,
        FirewallFamily::Ipv4,
        set_name_v4,
        chain_action,
    );
    if first.is_err() || !enable_ipv6 {
        return first;
    }
    assert(wired(runner, FirewallFamily::Ipv4, set_name_v4@, chain_action, None));
    ensure_firewall_wiring(runner, FirewallFamily::Ipv6, set_name_v6, chain_action)
}

/// The managed chain of one family was made sure of.
pub open spec fn prepared<R: FirewallCommandRunner>(
    runner: &R,
    family: FirewallFamily,
    failure: Option<FirewallError>,
) -> bool {
    exists|log: Seq<Exchange>| #[trigger]
        genuine(runner, family, log) && ensure_rule(family, KIDOBO_CHAIN_NAME@, log, failure)
}

/// Ensures a named chain exists for one family.
pub fn ensure_chain_exists<R: FirewallCommandRunner>(
    runner: &R,
    family: FirewallFamily,
    chain_name: &str,
) -> (result: Result<(), FirewallError>)
    ensures
        exists|log: Seq<Exchange>| #[trigger]
            genuine(runner, family, log) && ensure_rule(family, chain_name@, log, ending(result)),
{
    let mut session: FirewallSession<'_, R> = FirewallSession::new(runner, family);
    let ghost start = session;
    let result: Result<(), FirewallError> = session.ensure_chain(chain_name);
    assert(session.since(start) =~= session.history());
    result
}

/// Ensures managed chains exist without activating new input jumps.
///
/// Returns the first [`FirewallError`] encountered while preparing an enabled family.
pub fn ensure_firewall_artifacts_for_families<R: FirewallCommandRunner>(
    runner: &R,
    enable_ipv6: bool,
) -> (result: Result<(), FirewallError>)
    ensures
        exists|first: Option<FirewallError>| #[trigger]
            prepared(runner, FirewallFamily::Ipv4, first) && if first is Some || !enable_ipv6 {
                ending(result) == first
            } else {
                prepared(runner, FirewallFamily::Ipv6, ending(result))
            },
{
    let first: Result<(), FirewallError> = ensure_chain_exists(
        runner,
        FirewallFamily::Ipv4,
        KIDOBO_CHAIN_NAME,
    );
    assert(prepared(runner, FirewallFamily::Ipv4, ending(first)));
    if first.is_err() || !enable_ipv6 {
        return first;
    }
    assert(prepared(runner, FirewallFamily::Ipv4, None));
    ensure_chain_exists(runner, FirewallFamily::Ipv6, KIDOBO_CHAIN_NAME)
}

/// Every cleanup of one family was attempted.
pub open spec fn cleaned<R: FirewallCommandRunner>(
    runner: &R,
    family: FirewallFamily,
    failure: Option<FirewallError>,
) -> bool {
    exists|log: Seq<Exchange>| #[trigger]
        genuine(runner, family, log) && attempts_rule(family, cleanup_stages(), log, failure)
}

/// Removes every managed input jump, then flushes and deletes the managed chain.
///
/// Every cleanup is attempted; the first failure for a reason other than an already-missing rule or
/// chain is returned. A jump is already missing when INPUT no longer lists it, or when its deletion
/// finds no matching rule.
pub fn cleanup_firewall_wiring<R: FirewallCommandRunner>(runner: &R, family: FirewallFamily) -> (
result: Result<(), FirewallError>)
    ensures
        cleaned(runner, family, ending(result)),
{
    let stages: Vec<FirewallStage> = plan_cleanup();
    let mut session: FirewallSession<'_, R> = FirewallSession::new(runner, family);
    let ghost start = session;
    let result: Result<(), FirewallError> = session.attempt_all(&stages, 0);
    assert(session.since(start) =~= session.history());
    assert(stage_models(stages@).skip(0) =~= stage_models(stages@));
    result
}

} // verus!
