//! What host commands and their listings mean.

use crate::adapter::command_runner::{
    command_text, sudo_request, CommandResult, CommandRunnerError, ProcessStatus,
};
use crate::adapter::firewall_text::{
    heads, jump_positions, jumps_in, rule_count, says_missing, says_missing_rule,
};
use crate::adapter::host::{
    cleanup_rule, commands_ran, directory_rule, listed_paths, mutable_mode, probe_rule, systemd_ran,
    systemd_rule, timer_commands, CacheWritableError, InitCommandRunner, PathFacts,
};
use crate::adapter::remote_parse::utf8_lossy;
use crate::adapter::supervision::{
    collection_rule, supervision_rule, OutputReading, ProcessPoll, SupervisionStep,
};
use crate::text::{contains_text, lines, lower, starts_with, trim};
use crate::workflow::doctor::ProbeFailure;
use crate::workflow::error::AppError;
use vstd::prelude::*;

verus! {

// Commands --------------------------------------------------------------------------------------

/// A command is run through `sudo` without a prompt, with its own arguments behind its name.
pub proof fn law_commands_run_through_sudo(
    command: Seq<char>,
    args: Seq<Seq<char>>,
    timeout: u64,
)
    ensures
        sudo_request(command, args, timeout).program == "sudo"@,
        sudo_request(command, args, timeout).args.len() == args.len() + 2,
        sudo_request(command, args, timeout).args[0] == "-n"@,
        sudo_request(command, args, timeout).args[1] == command,
        forall|i: int|
            0 <= i < args.len() ==> #[trigger] sudo_request(command, args, timeout).args[i + 2]
                == args[i],
        sudo_request(command, args, timeout).timeout == timeout,
{
}

/// A command is shown with its arguments behind it, each behind a space.
pub proof fn law_commands_are_shown_with_their_arguments(
    program: Seq<char>,
    args: Seq<Seq<char>>,
    last: Seq<char>,
)
    ensures
        command_text(program, Seq::empty()) == program,
        command_text(program, args.push(last)) == command_text(program, args) + seq![' '] + last,
{
    reveal_strlit(" ");
    assert(" "@ =~= seq![' ']);
    assert(args.push(last).drop_last() =~= args);
}

/// A process that is seen to have ended gives its exit code, or else the signal that ended it; one
/// that runs is ended once its time in milliseconds is over, and left alone before.
pub proof fn law_processes_are_ended_in_time(
    command: Seq<char>,
    timeout_ms: u64,
    poll: ProcessPoll,
    step: SupervisionStep,
)
    requires
        supervision_rule(command, timeout_ms, poll, step),
    ensures
        poll matches ProcessPoll::Ended { code: Some(number), .. } ==> step
            == SupervisionStep::Collect(ProcessStatus::Exited(number)),
        poll matches ProcessPoll::Ended { code: None, signal: Some(number) } ==> step
            == SupervisionStep::Collect(ProcessStatus::Signaled(number)),
        poll matches ProcessPoll::Running { elapsed } ==> (step is Pause <==> elapsed < timeout_ms
            * 1_000_000) && (step is Terminate <==> elapsed >= timeout_ms * 1_000_000),
        poll is Failed ==> step is Terminate,
{
}

/// The result of a process holds its status and both outputs, and there is one exactly when both
/// could be read.
pub proof fn law_results_hold_both_outputs(
    command: Seq<char>,
    status: ProcessStatus,
    stdout: OutputReading,
    stderr: OutputReading,
    result: Result<CommandResult, CommandRunnerError>,
)
    requires
        collection_rule(command, status, stdout, stderr, result),
    ensures
        result is Ok <==> stdout is Bytes && stderr is Bytes,
        result matches Ok(found) ==> found.status == status && found.stdout@ == utf8_lossy(
            stdout->Bytes_0@,
        ) && found.stderr@ == utf8_lossy(stderr->Bytes_0@),
        result matches Err(error) ==> error is Output,
{
}

// Cleanup and probes ----------------------------------------------------------------------------

/// A cleanup succeeded exactly when its command did, or when there was nothing to clean up: exit
/// code one and, in letters of either case, that the set does not exist.
pub proof fn law_cleanup_of_a_missing_set_succeeds(
    command: Seq<char>,
    args: Seq<Seq<char>>,
    reply: Result<CommandResult, CommandRunnerError>,
    outcome: Result<(), String>,
)
    requires
        cleanup_rule(command, args, reply, outcome),
    ensures
        outcome is Ok <==> reply is Ok && (reply->Ok_0.status == ProcessStatus::Exited(0)
            || reply->Ok_0.status == ProcessStatus::Exited(1) && contains_text(
            lower(reply->Ok_0.stderr@),
            "does not exist"@,
        )),
{
}

/// A chain or a rule is missing exactly when the command says so with exit code one.
pub proof fn law_missing_chains_and_rules_are_told(result: CommandResult)
    ensures
        says_missing(result) <==> result.status == ProcessStatus::Exited(1) && contains_text(
            lower(result.stderr@),
            "no chain/target/match by that name"@,
        ),
        says_missing_rule(result.status, result.stderr@) <==> result.status
            == ProcessStatus::Exited(1) && contains_text(
            lower(result.stderr@),
            "does a matching rule exist in that chain"@,
        ),
{
}

/// A probe succeeds exactly when its command ran and exited with zero; a command that could not be
/// run and one that exited otherwise are told apart.
pub proof fn law_probes_succeed_with_their_command(
    reply: Result<CommandResult, CommandRunnerError>,
    outcome: Result<(), ProbeFailure>,
)
    requires
        probe_rule(reply, outcome),
    ensures
        outcome is Ok <==> reply is Ok && reply->Ok_0.status == ProcessStatus::Exited(0),
        reply is Err ==> outcome->Err_0 is Execution,
        reply is Ok && reply->Ok_0.status != ProcessStatus::Exited(0) ==> outcome->Err_0 is Exit,
{
}

/// Enabling the timer reloads the units, forgets failures of the service and enables the timer at
/// once, in this order; it succeeds exactly when each of these does.
pub proof fn law_timer_is_enabled_in_three_steps<R: InitCommandRunner>(
    runner: &R,
    outcome: Result<(), AppError>,
) -> (replies: (Result<(), AppError>, Result<(), AppError>, Result<(), AppError>))
    requires
        commands_ran(runner, timer_commands(), outcome),
    ensures
        systemd_ran(runner, seq!["daemon-reload"@], replies.0),
        replies.0 is Ok ==> systemd_ran(
            runner,
            seq!["reset-failed"@, "kidobo-sync.service"@],
            replies.1,
        ),
        replies.0 is Ok && replies.1 is Ok ==> systemd_ran(
            runner,
            seq!["enable"@, "--now"@, "kidobo-sync.timer"@],
            replies.2,
        ),
        outcome is Ok <==> replies.0 is Ok && replies.1 is Ok && replies.2 is Ok,
{
    let all = timer_commands();
    let first = choose|first: Result<(), AppError>|
        {
            &&& #[trigger] systemd_ran(runner, all[0], first)
            &&& if first is Err {
                outcome == first
            } else {
                commands_ran(runner, all.drop_first(), outcome)
            }
        };
    if first is Ok {
        let rest = all.drop_first();
        assert(rest[0] == all[1]);
        let second = choose|second: Result<(), AppError>|
            {
                &&& #[trigger] systemd_ran(runner, rest[0], second)
                &&& if second is Err {
                    outcome == second
                } else {
                    commands_ran(runner, rest.drop_first(), outcome)
                }
            };
        if second is Ok {
            let last = rest.drop_first();
            assert(last[0] == all[2]);
            assert(last.len() == 1);
            let third = choose|third: Result<(), AppError>|
                {
                    &&& #[trigger] systemd_ran(runner, last[0], third)
                    &&& if third is Err {
                        outcome == third
                    } else {
                        commands_ran(runner, last.drop_first(), outcome)
                    }
                };
            if third is Ok {
                assert(last.drop_first().len() == 0);
            }
            (first, second, third)
        } else {
            (first, second, first)
        }
    } else {
        (first, first, first)
    }
}

/// A command of the service manager succeeds exactly when it ran and exited with zero.
pub proof fn law_systemd_commands_succeed_with_exit_zero(
    args: Seq<Seq<char>>,
    reply: Result<CommandResult, CommandRunnerError>,
    outcome: Result<(), AppError>,
)
    requires
        systemd_rule(args, reply, outcome),
    ensures
        outcome is Ok <==> reply is Ok && reply->Ok_0.status == ProcessStatus::Exited(0),
        outcome matches Err(error) ==> error is InitSystemd,
{
}

/// A directory can be changed when somebody may write to it and somebody may enter it.
pub proof fn law_writable_directories_can_be_entered(mode: u32)
    ensures
        mutable_mode(mode) <==> (mode & 0o200u32 != 0 || mode & 0o020u32 != 0 || mode & 0o002u32
            != 0) && (mode & 0o100u32 != 0 || mode & 0o010u32 != 0 || mode & 0o001u32 != 0),
{
    assert((mode & 0o222u32 != 0) == (mode & 0o200u32 != 0 || mode & 0o020u32 != 0 || mode
        & 0o002u32 != 0)) by (bit_vector);
    assert((mode & 0o111u32 != 0) == (mode & 0o100u32 != 0 || mode & 0o010u32 != 0 || mode
        & 0o001u32 != 0)) by (bit_vector);
}

/// A cache directory is ready exactly when what is known of it says that it is a directory that can
/// be changed.
pub proof fn law_cache_directories_are_judged_by_their_facts(
    path: Seq<char>,
    facts: Result<PathFacts, String>,
    outcome: Result<(), CacheWritableError>,
)
    requires
        directory_rule(path, facts, outcome),
    ensures
        outcome is Ok <==> facts is Ok && facts->Ok_0.is_directory && mutable_mode(
            facts->Ok_0.mode,
        ),
        facts is Err <==> outcome is Err && outcome->Err_0 is Metadata,
        outcome is Err && outcome->Err_0 is NotDirectory <==> facts is Ok
            && !facts->Ok_0.is_directory,
{
}

/// Paths are listed in their order with a comma and a space between each two.
pub proof fn law_paths_are_listed_in_order(paths: Seq<Seq<char>>, last: Seq<char>)
    ensures
        listed_paths(Seq::empty()) == Seq::<char>::empty(),
        listed_paths(seq![last]) == last,
        paths.len() > 0 ==> listed_paths(paths.push(last)) == listed_paths(paths) + seq![',', ' ']
            + last,
{
    reveal_strlit(", ");
    assert(", "@ =~= seq![',', ' ']);
    assert(paths.push(last).drop_last() =~= paths);
}

// Listings --------------------------------------------------------------------------------------

proof fn lemma_heads(all: Seq<Seq<char>>, head: Seq<char>)
    ensures
        heads(all, head) == all.filter(|line: Seq<char>| starts_with(line, head)).len(),
    decreases all.len(),
{
    reveal(Seq::filter);
    if all.len() > 0 {
        lemma_heads(all.drop_last(), head);
    }
}

/// The rules of a chain are the lines that append to it.
pub proof fn law_rules_are_the_lines_of_their_chain(listing: Seq<char>, chain: Seq<char>)
    ensures
        rule_count(listing, chain) == lines(listing).filter(
            |line: Seq<char>| starts_with(line, "-A "@ + chain + " "@),
        ).len(),
{
    lemma_heads(lines(listing), "-A "@ + chain + " "@);
}

/// The line is a rule of `INPUT` that jumps to the chain and does nothing else.
pub open spec fn is_jump(line: Seq<char>, chain: Seq<char>) -> bool {
    starts_with(line, "-A INPUT "@) && trim(line) == "-A INPUT -j "@ + chain
}

proof fn lemma_jumps(all: Seq<Seq<char>>, chain: Seq<char>, position: usize)
    requires
        all.len() <= usize::MAX,
    ensures
        jumps_in(all, chain).contains(position) <==> exists|i: int|
            0 <= i < all.len() && is_jump(#[trigger] all[i], chain) && position == heads(
                all.take(i + 1),
                "-A INPUT "@,
            ),
        jumps_in(all, chain).len() == all.filter(|line: Seq<char>| is_jump(line, chain)).len(),
        heads(all, "-A INPUT "@) <= all.len(),
    decreases all.len(),
{
    reveal(Seq::filter);
    if all.len() > 0 {
        let front = all.drop_last();
        let n = all.len() - 1;
        let before = jumps_in(front, chain);
        let now = jumps_in(all, chain);
        lemma_jumps(front, chain, position);
        assert(all.take(n + 1) =~= all);
        assert forall|i: int| 0 <= i < n implies #[trigger] all.take(i + 1) == front.take(
            i + 1,
        ) by {
            assert(all.take(i + 1) =~= front.take(i + 1));
        }
        if now.contains(position) {
            let k = choose|k: int| 0 <= k < now.len() && now[k] == position;
            if k < before.len() {
                assert(before[k] == position);
                assert(before.contains(position));
                let i = choose|i: int|
                    0 <= i < front.len() && is_jump(#[trigger] front[i], chain) && position
                        == heads(front.take(i + 1), "-A INPUT "@);
                assert(is_jump(all[i], chain));
                assert(all.take(i + 1) == front.take(i + 1));
            } else {
                assert(is_jump(all[n], chain));
                assert(position == heads(all.take(n + 1), "-A INPUT "@));
            }
        }
        if exists|i: int|
            0 <= i < all.len() && is_jump(#[trigger] all[i], chain) && position == heads(
                all.take(i + 1),
                "-A INPUT "@,
            ) {
            let i = choose|i: int|
                0 <= i < all.len() && is_jump(#[trigger] all[i], chain) && position == heads(
                    all.take(i + 1),
                    "-A INPUT "@,
                );
            if i < n {
                assert(is_jump(front[i], chain));
                assert(all.take(i + 1) == front.take(i + 1));
                assert(before.contains(position));
                let k = choose|k: int| 0 <= k < before.len() && before[k] == position;
                assert(now[k] == position);
            } else {
                assert(now[now.len() - 1] == position);
            }
        }
    }
}

/// The jumps to a chain are the lines of `INPUT` that jump to it and do nothing else; the position
/// of one is the number of rules of `INPUT` up to and with it.
pub proof fn law_jumps_are_numbered_among_the_rules(
    listing: Seq<char>,
    chain: Seq<char>,
    position: usize,
)
    requires
        lines(listing).len() <= usize::MAX,
    ensures
        jump_positions(listing, chain).contains(position) <==> exists|i: int|
            0 <= i < lines(listing).len() && is_jump(#[trigger] lines(listing)[i], chain)
                && position == lines(listing).take(i + 1).filter(
                |line: Seq<char>| starts_with(line, "-A INPUT "@),
            ).len(),
        jump_positions(listing, chain).len() == lines(listing).filter(
            |line: Seq<char>| is_jump(line, chain),
        ).len(),
{
    let all = lines(listing);
    lemma_jumps(all, chain, position);
    assert forall|i: int| 0 <= i < all.len() implies heads(
        #[trigger] all.take(i + 1),
        "-A INPUT "@,
    ) == all.take(i + 1).filter(|line: Seq<char>| starts_with(line, "-A INPUT "@)).len() by {
        lemma_heads(all.take(i + 1), "-A INPUT "@);
    }
    if jump_positions(listing, chain).contains(position) {
        let i = choose|i: int|
            0 <= i < all.len() && is_jump(#[trigger] all[i], chain) && position == heads(
                all.take(i + 1),
                "-A INPUT "@,
            );
        assert(is_jump(lines(listing)[i], chain));
        assert(heads(all.take(i + 1), "-A INPUT "@) == all.take(i + 1).filter(
            |line: Seq<char>| starts_with(line, "-A INPUT "@),
        ).len());
    }
}

} // verus!
