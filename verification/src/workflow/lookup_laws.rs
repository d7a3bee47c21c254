//! What a lookup asks for and what it reports.

use crate::ordering::{lemma_sorted_members, stably_sorted};
use crate::policy::cidr_text::parse_strict;
use crate::policy::config::Config;
use crate::policy::lookup::{entry_models, EntryModel, LookupSourceEntry};
use crate::policy::lookup_laws::{
    law_groups_report_every_shared_address, law_unreadable_targets_are_listed, share_an_address,
};
use crate::text::views;
use crate::workflow::error::AppError;
use crate::workflow::lookup::{
    answered, config_rule, execute, match_entries, outcome_groups, resolved_lookup_rule,
    searched_rule, targets_rule, LookupDependencies, LookupInput, LookupOutcome, LookupRequest,
};
use crate::workflow::paths::{ConfigRequirement, ResolvedPaths};
use crate::workflow::ports::{verdicts, ConfigRepository, PathResolver, TargetFileReader};
use crate::workflow::source::{
    joined_batches, notice_models, offline_rule, provided, Notice, NoticeLevel,
    OfflineLookupContext, OfflineLookupProvider,
};
use vstd::prelude::*;

verus! {

/// Every source was asked under the paths and the configuration, and gave its batch.
pub open spec fn every_source_gave<'a, S: OfflineLookupProvider>(
    sources: Seq<S>,
    context: OfflineLookupContext<'a>,
    batches: Seq<Vec<LookupSourceEntry>>,
) -> bool {
    &&& batches.len() == sources.len()
    &&& forall|i: int|
        0 <= i < sources.len() ==> call_ensures(
            S::offline_entries,
            (&#[trigger] sources[i], &context),
            Ok(batches[i]),
        )
}

/// Some batch has the entry.
pub open spec fn in_a_batch(batches: Seq<Vec<LookupSourceEntry>>, entry: EntryModel) -> bool {
    exists|b: int, k: int|
        0 <= b < batches.len() && 0 <= k < batches[b]@.len() && (#[trigger] batches[b]@[k]).cidr
            == entry.cidr && batches[b]@[k].source_label@ == entry.label
            && batches[b]@[k].source_line@ == entry.line
}

/// The outcome reports the entry for the target.
pub open spec fn reports(outcome: LookupOutcome, target: Seq<char>, entry: EntryModel) -> bool {
    exists|i: int, j: int|
        0 <= i < outcome.targets@.len() && outcome.targets@[i].target@ == target && 0 <= j
            < outcome.targets@[i].matches@.len() && (
        #[trigger] outcome.targets@[i].matches@[j]).matched_cidr == entry.cidr
            && outcome.targets@[i].matches@[j].source_label@ == entry.label
            && outcome.targets@[i].matches@[j].matched_source_entry@ == entry.line
}

proof fn lemma_joined(batches: Seq<Vec<LookupSourceEntry>>, e: LookupSourceEntry)
    ensures
        joined_batches(batches).contains(e) <==> exists|b: int, k: int|
            0 <= b < batches.len() && 0 <= k < batches[b]@.len() && #[trigger] batches[b]@[k] == e,
    decreases batches.len(),
{
    if batches.len() > 0 {
        let front = batches.drop_last();
        let last = batches.last()@;
        lemma_joined(front, e);
        let all = joined_batches(front) + last;
        if joined_batches(front).contains(e) {
            let i = choose|i: int| 0 <= i < joined_batches(front).len() && joined_batches(front)[i]
                == e;
            assert(all[i] == e);
            let (b, k) = choose|b: int, k: int|
                0 <= b < front.len() && 0 <= k < front[b]@.len() && #[trigger] front[b]@[k] == e;
            assert(batches[b]@[k] == e);
        }
        if last.contains(e) {
            let k = choose|k: int| 0 <= k < last.len() && last[k] == e;
            assert(all[joined_batches(front).len() + k] == e);
            assert(batches[batches.len() - 1]@[k] == e);
        }
        if all.contains(e) {
            let i = choose|i: int| 0 <= i < all.len() && all[i] == e;
            if i >= joined_batches(front).len() {
                assert(last[i - joined_batches(front).len()] == e);
            } else {
                assert(joined_batches(front)[i] == e);
            }
        }
        if exists|b: int, k: int|
            0 <= b < batches.len() && 0 <= k < batches[b]@.len() && #[trigger] batches[b]@[k] == e {
            let (b, k) = choose|b: int, k: int|
                0 <= b < batches.len() && 0 <= k < batches[b]@.len() && #[trigger] batches[b]@[k]
                    == e;
            if b < front.len() {
                assert(front[b]@[k] == e);
            } else {
                assert(last[k] == e);
            }
        }
    }
}

proof fn lemma_sources(
    batches: Seq<Vec<LookupSourceEntry>>,
    list: Seq<LookupSourceEntry>,
    entry: EntryModel,
)
    requires
        stably_sorted(joined_batches(batches), list),
    ensures
        entry_models(list).contains(entry) <==> in_a_batch(batches, entry),
{
    let joined = joined_batches(batches);
    lemma_sorted_members(joined, list);
    if entry_models(list).contains(entry) {
        let i = choose|i: int| 0 <= i < list.len() && entry_models(list)[i] == entry;
        let e = list[i];
        assert(e@ == entry);
        assert(joined.contains(e));
        lemma_joined(batches, e);
        let (b, k) = choose|b: int, k: int|
            0 <= b < batches.len() && 0 <= k < batches[b]@.len() && #[trigger] batches[b]@[k] == e;
        assert(batches[b]@[k].cidr == entry.cidr);
    }
    if in_a_batch(batches, entry) {
        let (b, k) = choose|b: int, k: int|
            0 <= b < batches.len() && 0 <= k < batches[b]@.len() && (
            #[trigger] batches[b]@[k]).cidr == entry.cidr && batches[b]@[k].source_label@
                == entry.label && batches[b]@[k].source_line@ == entry.line;
        let e = batches[b]@[k];
        lemma_joined(batches, e);
        assert(list.contains(e));
        let i = choose|i: int| 0 <= i < list.len() && list[i] == e;
        assert(entry_models(list)[i] == entry);
    }
}

proof fn lemma_reports(outcome: LookupOutcome, target: Seq<char>, entry: EntryModel)
    ensures
        reports(outcome, target, entry) <==> exists|i: int|
            0 <= i < outcome_groups(outcome.targets@).len() && (
            #[trigger] outcome_groups(outcome.targets@)[i]).target == target && outcome_groups(
                outcome.targets@,
            )[i].entries.contains(entry),
{
    let groups = outcome_groups(outcome.targets@);
    if reports(outcome, target, entry) {
        let (i, j) = choose|i: int, j: int|
            0 <= i < outcome.targets@.len() && outcome.targets@[i].target@ == target && 0 <= j
                < outcome.targets@[i].matches@.len() && (
            #[trigger] outcome.targets@[i].matches@[j]).matched_cidr == entry.cidr
                && outcome.targets@[i].matches@[j].source_label@ == entry.label
                && outcome.targets@[i].matches@[j].matched_source_entry@ == entry.line;
        assert(groups[i] == outcome.targets@[i]@);
        assert(match_entries(outcome.targets@[i].matches@)[j] == entry);
        assert(groups[i].entries.contains(entry));
    }
    if exists|i: int|
        0 <= i < groups.len() && (#[trigger] groups[i]).target == target
            && groups[i].entries.contains(entry) {
        let i = choose|i: int|
            0 <= i < groups.len() && (#[trigger] groups[i]).target == target
                && groups[i].entries.contains(entry);
        assert(groups[i] == outcome.targets@[i]@);
        let j = choose|j: int| 0 <= j < groups[i].entries.len() && groups[i].entries[j] == entry;
        assert(match_entries(outcome.targets@[i].matches@)[j] == outcome.targets@[i].matches@[j]@);
        assert(outcome.targets@[i].matches@[j].matched_cidr == entry.cidr);
    }
}

/// A lookup that succeeds has asked every source, under the configuration where that could be
/// loaded and without one otherwise, which gives one warning. It reports an entry for a target
/// exactly where the target was asked for, a source gave the entry, and the two have an address in
/// common. Targets that are no networks are listed.
pub proof fn law_lookup_reports_what_its_sources_give<
    'a,
    P: PathResolver,
    C: ConfigRepository,
    F: TargetFileReader,
    S: OfflineLookupProvider,
>(
    request: LookupRequest,
    dependencies: LookupDependencies<'a, P, C, F, S>,
    outcome: Result<LookupOutcome, AppError>,
    target: Seq<char>,
    entry: EntryModel,
) -> (r: (ResolvedPaths, Result<Config, AppError>, Seq<Seq<char>>, Seq<Vec<LookupSourceEntry>>))
    requires
        call_ensures(execute::<P, C, F, S>, (&request, &dependencies), outcome),
        outcome is Ok,
        entry.cidr.valid(),
    ensures
        call_ensures(
            P::resolve,
            (dependencies.paths, &request.paths, ConfigRequirement::Optional),
            Ok(r.0),
        ),
        call_ensures(C::load, (dependencies.configs, &r.0.config_file), r.1),
        outcome->Ok_0.notices@.len() == (if r.1 is Ok {
            0int
        } else {
            1
        }),
        forall|i: int|
            0 <= i < outcome->Ok_0.notices@.len() ==> (
            #[trigger] outcome->Ok_0.notices@[i]).level == NoticeLevel::Warning,
        outcome->Ok_0.file_mode <==> request.input is File,
        match request.input {
            LookupInput::Single(text) => r.2 == seq![text@],
            LookupInput::File(path) => exists|lines: Vec<String>| #[trigger]
                call_ensures(F::read_lines, (dependencies.target_files, &path), Ok(lines)) && r.2
                    == views(lines@),
        },
        every_source_gave(
            dependencies.sources.provider_list(),
            OfflineLookupContext {
                cancellation: dependencies.cancellation,
                paths: &r.0,
                config: match r.1 {
                    Ok(config) => Some(&config),
                    Err(_) => None,
                },
            },
            r.3,
        ),
        reports(outcome->Ok_0, target, entry) <==> {
            &&& r.2.contains(target)
            &&& in_a_batch(r.3, entry)
            &&& parse_strict(target) is Some
            &&& share_an_address(parse_strict(target)->0, entry.cidr)
        },
        views(outcome->Ok_0.invalid_targets@).contains(target) <==> r.2.contains(target)
            && parse_strict(target) is None,
{
    let found = outcome->Ok_0;
    let paths = choose|paths: Result<ResolvedPaths, AppError>|
        {
            &&& #[trigger] call_ensures(
                P::resolve,
                (dependencies.paths, &request.paths, ConfigRequirement::Optional),
                paths,
            )
            &&& match paths {
                Err(error) => outcome == Err::<LookupOutcome, AppError>(error),
                Ok(found) => resolved_lookup_rule(request.input, dependencies, found, outcome),
            }
        };
    let at = paths->Ok_0;
    let (config, notices, targets) = choose|
        config: Option<Config>,
        notices: Vec<Notice>,
        targets: Result<Seq<Seq<char>>, AppError>,
    |
        {
            &&& #[trigger] config_rule(dependencies.configs, at.config_file, config, notices@)
            &&& #[trigger] targets_rule(request.input, dependencies.target_files, targets)
            &&& match targets {
                Err(error) => outcome == Err::<LookupOutcome, AppError>(error),
                Ok(texts) => {
                    let context = OfflineLookupContext {
                        cancellation: dependencies.cancellation,
                        paths: &at,
                        config: match config {
                            Some(found) => Some(&found),
                            None => None,
                        },
                    };
                    searched_rule(
                        request.input,
                        *dependencies.sources,
                        context,
                        texts,
                        notices,
                        outcome,
                    )
                },
            }
        };
    let reply = choose|reply: Result<Config, AppError>|
        {
            &&& #[trigger] call_ensures(C::load, (dependencies.configs, &at.config_file), reply)
            &&& match reply {
                Ok(found) => config == Some(found) && notices@.len() == 0,
                Err(error) => config is None && notice_models(notices@).len() == 1
                    && notice_models(notices@)[0].level == NoticeLevel::Warning,
            }
        };
    assert(notice_models(notices@).len() == notices@.len());
    assert forall|i: int| 0 <= i < found.notices@.len() implies (
    #[trigger] found.notices@[i]).level == NoticeLevel::Warning by {
        assert(notice_models(notices@)[i] == notices@[i]@);
    }
    let texts = targets->Ok_0;
    let context = OfflineLookupContext {
        cancellation: dependencies.cancellation,
        paths: &at,
        config: match config {
            Some(found) => Some(&found),
            None => None,
        },
    };
    let providers = dependencies.sources.provider_list();
    let checks = verdicts(context.cancellation);
    let entries = choose|entries: Result<Vec<LookupSourceEntry>, AppError>|
        {
            &&& #[trigger] offline_rule(providers, context, checks, entries)
            &&& match entries {
                Ok(list) => outcome matches Ok(found) && {
                    &&& found.file_mode == (request.input is File)
                    &&& found.notices == notices
                    &&& answered(texts, list@, found)
                },
                Err(error) => outcome == Err::<LookupOutcome, AppError>(error),
            }
        };
    let list = entries->Ok_0@;
    let batches = choose|batches: Seq<Vec<LookupSourceEntry>>|
        {
            &&& batches.len() <= providers.len()
            &&& #[trigger] provided(providers.take(batches.len() as int), context, batches)
            &&& batches.len() == providers.len()
            &&& stably_sorted(joined_batches(batches), list)
        };
    assert(providers.take(batches.len() as int) =~= providers);
    lemma_sources(batches, list, entry);
    lemma_reports(found, target, entry);
    law_groups_report_every_shared_address(
        texts,
        entry_models(list),
        outcome_groups(found.targets@),
        target,
        entry,
    );
    law_unreadable_targets_are_listed(texts, views(found.invalid_targets@), target);
    (at, reply, texts, batches)
}

} // verus!
