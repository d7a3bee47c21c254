//! Offline lookup of operator targets against local and cached sources.

use crate::policy::config::Config;
use crate::policy::lookup::{
    borrowed_models, distinct_targets, entry_models, group_models, lookup_groups,
    run_lookup_by_target, EntryModel, GroupModel, LookupSourceEntry,
};
use crate::policy::network_types::CanonicalCidr;
use crate::text::views;
use crate::workflow::error::{error_text, AppError};
use crate::workflow::paths::{ConfigRequirement, PathResolutionInput, ResolvedPaths};
use crate::workflow::ports::{
    verdicts, Cancellation, ConfigRepository, PathResolver, TargetFileReader,
};
use crate::workflow::source::{
    notice_models, offline_rule, warning_model, Notice, OfflineLookupContext, OfflineLookupProvider,
    OfflineLookupRegistry,
};
use vstd::prelude::*;

verus! {

/// One lookup target, or a file with one target per line.
#[derive(Debug, Clone, PartialEq, Eq)]
pub enum LookupInput {
    /// One operator-supplied IP address or CIDR.
    Single(String),
    /// File of targets.
    File(String),
}

/// Request to look targets up.
#[derive(Debug, Clone, PartialEq, Eq)]
pub struct LookupRequest {
    /// Runtime path inputs.
    pub paths: PathResolutionInput,
    /// Direct or file-based targets.
    pub input: LookupInput,
}

/// One source entry that overlaps a target.
#[derive(Debug, Clone, PartialEq, Eq)]
pub struct LookupSourceMatch {
    /// Label of the source.
    pub source_label: String,
    /// Entry as written in the source.
    pub matched_source_entry: String,
    /// Network of the entry.
    pub matched_cidr: CanonicalCidr,
}

impl View for LookupSourceMatch {
    type V = EntryModel;

    open spec fn view(&self) -> EntryModel {
        EntryModel {
            label: self.source_label@,
            line: self.matched_source_entry@,
            cidr: self.matched_cidr,
        }
    }
}

/// Entries of matches, in order.
pub open spec fn match_entries(matches: Seq<LookupSourceMatch>) -> Seq<EntryModel> {
    matches.map_values(|m: LookupSourceMatch| m@)
}

/// One valid target with the entries that overlap it.
#[derive(Debug, Clone, PartialEq, Eq)]
pub struct LookupTargetOutcome {
    /// Target as given.
    pub target: String,
    /// Overlapping entries.
    pub matches: Vec<LookupSourceMatch>,
}

impl View for LookupTargetOutcome {
    type V = GroupModel;

    open spec fn view(&self) -> GroupModel {
        GroupModel { target: self.target@, entries: match_entries(self.matches@) }
    }
}

/// Contents of target outcomes, in order.
pub open spec fn outcome_groups(targets: Seq<LookupTargetOutcome>) -> Seq<GroupModel> {
    targets.map_values(|t: LookupTargetOutcome| t@)
}

/// Result of a lookup.
#[derive(Debug, Clone, PartialEq, Eq)]
pub struct LookupOutcome {
    /// Valid targets in ascending order.
    pub targets: Vec<LookupTargetOutcome>,
    /// Invalid targets in ascending order.
    pub invalid_targets: Vec<String>,
    /// Whether targets came from a file.
    pub file_mode: bool,
    /// Operator-visible notices.
    pub notices: Vec<Notice>,
}

/// Ports and sources of a lookup.
pub struct LookupDependencies<
    'a,
    P: PathResolver,
    C: ConfigRepository,
    F: TargetFileReader,
    S: OfflineLookupProvider,
> {
    /// Runtime path resolver.
    pub paths: &'a P,
    /// Validated configuration repository.
    pub configs: &'a C,
    /// Reader of target files.
    pub target_files: &'a F,
    /// Offline sources.
    pub sources: &'a OfflineLookupRegistry<S>,
    /// Cancellation checked between offline providers.
    pub cancellation: &'a dyn Cancellation,
}

/// Notice for a configuration that could not be loaded.
pub open spec fn config_notice_text(reason: Seq<char>) -> Seq<char> {
    "lookup config-backed sources unavailable; checking only local and cached remote sources: "@
        + reason
}

/// Every distinct valid target is reported with the entries that overlap it, and every distinct
/// invalid target as such.
pub open spec fn answered(
    targets: Seq<Seq<char>>,
    entries: Seq<LookupSourceEntry>,
    outcome: LookupOutcome,
) -> bool {
    &&& lookup_groups(targets, entry_models(entries), outcome_groups(outcome.targets@))
    &&& distinct_targets(targets, false, views(outcome.invalid_targets@))
}

/// Looks the targets up in the entries.
pub fn answer(
    targets: &Vec<String>,
    entries: &Vec<LookupSourceEntry>,
    file_mode: bool,
    notices: Vec<Notice>,
) -> (outcome: LookupOutcome)
    ensures
        answered(views(targets@), entries@, outcome),
        outcome.file_mode == file_mode,
        outcome.notices == notices,
{
    let (groups, invalid_targets) = run_lookup_by_target(targets.as_slice(), entries.as_slice());
    let ghost goal = group_models(groups@);
    let mut outcomes: Vec<LookupTargetOutcome> = Vec::new();
    let mut i: usize = 0;
    while i < groups.len()
        invariant
            i <= groups@.len(),
            goal == group_models(groups@),
            outcome_groups(outcomes@) == goal.take(i as int),
        decreases groups@.len() - i,
    {
        let ghost before = outcomes@;
        let mut matches: Vec<LookupSourceMatch> = Vec::new();
        let mut j: usize = 0;
        let ghost sources = borrowed_models(groups@[i as int].sources@);
        assert(match_entries(matches@) =~= sources.take(0));
        while j < groups[i].sources.len()
            invariant
                i < groups@.len(),
                j <= groups@[i as int].sources@.len(),
                sources == borrowed_models(groups@[i as int].sources@),
                match_entries(matches@) == sources.take(j as int),
            decreases groups@[i as int].sources@.len() - j,
        {
            let source: &LookupSourceEntry = groups[i].sources[j];
            let ghost shown = matches@;
            matches.push(
                LookupSourceMatch {
                    source_label: source.source_label.clone(),
                    matched_source_entry: source.source_line.clone(),
                    matched_cidr: source.cidr,
                },
            );
            j = j + 1;
            assert(match_entries(matches@) =~= match_entries(shown).push(sources[j - 1]));
            assert(sources.take(j as int) =~= sources.take(j - 1).push(sources[j - 1]));
        }
        assert(sources.take(j as int) =~= sources);
        outcomes.push(LookupTargetOutcome { target: groups[i].target.clone(), matches });
        i = i + 1;
        assert(outcome_groups(outcomes@) =~= outcome_groups(before).push(goal[i - 1]));
        assert(goal.take(i as int) =~= goal.take(i - 1).push(goal[i - 1]));
    }
    assert(goal.take(i as int) =~= goal);
    LookupOutcome { targets: outcomes, invalid_targets, file_mode, notices }
}

/// The configuration that sources may use, and the notice where there is none.
pub open spec fn config_rule<C: ConfigRepository>(
    configs: &C,
    path: String,
    config: Option<Config>,
    notices: Seq<Notice>,
) -> bool {
    exists|reply: Result<Config, AppError>|
        {
            &&& #[trigger] call_ensures(C::load, (configs, &path), reply)
            &&& match reply {
                Ok(found) => config == Some(found) && notices.len() == 0,
                Err(error) => config is None && notice_models(notices) == seq![
                    warning_model(config_notice_text(error_text(error))),
                ],
            }
        }
}

/// The targets of a request.
pub open spec fn targets_rule<F: TargetFileReader>(
    input: LookupInput,
    target_files: &F,
    targets: Result<Seq<Seq<char>>, AppError>,
) -> bool {
    match input {
        LookupInput::Single(target) => targets == Ok::<Seq<Seq<char>>, AppError>(seq![target@]),
        LookupInput::File(path) => exists|lines: Result<Vec<String>, AppError>|
            {
                &&& #[trigger] call_ensures(F::read_lines, (target_files, &path), lines)
                &&& match lines {
                    Ok(found) => targets == Ok::<Seq<Seq<char>>, AppError>(views(found@)),
                    Err(error) => targets == Err::<Seq<Seq<char>>, AppError>(error),
                }
            },
    }
}

/// Loads the configuration for the sources; a failure becomes a notice.
fn load_config<C: ConfigRepository>(configs: &C, path: &String) -> (loaded: (
    Option<Config>,
    Vec<Notice>,
))
    ensures
        config_rule(configs, *path, loaded.0, loaded.1@),
{
    match configs.load(path) {
        Ok(config) => (Some(config), Vec::new()),
        Err(error) => {
            let mut text: String =
                "lookup config-backed sources unavailable; checking only local and cached remote sources: ".to_owned();
            text.append(error.message().as_str());
            let mut notices: Vec<Notice> = Vec::new();
            notices.push(Notice::warning(text.as_str()));
            assert(notice_models(notices@) =~= seq![
                warning_model(config_notice_text(error_text(error))),
            ]);
            (None, notices)
        },
    }
}

fn read_targets<F: TargetFileReader>(input: &LookupInput, target_files: &F) -> (targets: Result<
    Vec<String>,
    AppError,
>)
    ensures
        targets_rule(
            *input,
            target_files,
            match targets {
                Ok(found) => Ok::<Seq<Seq<char>>, AppError>(views(found@)),
                Err(error) => Err::<Seq<Seq<char>>, AppError>(error),
            },
        ),
{
    match input {
        LookupInput::Single(target) => {
            let mut targets: Vec<String> = Vec::new();
            targets.push(target.clone());
            assert(views(targets@) =~= seq![target@]);
            Ok(targets)
        },
        LookupInput::File(path) => target_files.read_lines(path),
    }
}

/// A lookup after path resolution: the configuration is optional; targets and sources are not.
pub open spec fn resolved_lookup_rule<
    P: PathResolver,
    C: ConfigRepository,
    F: TargetFileReader,
    S: OfflineLookupProvider,
>(
    input: LookupInput,
    dependencies: LookupDependencies<'_, P, C, F, S>,
    paths: ResolvedPaths,
    outcome: Result<LookupOutcome, AppError>,
) -> bool {
    exists|config: Option<Config>, notices: Vec<Notice>, targets: Result<Seq<Seq<char>>, AppError>|
        {
            &&& #[trigger] config_rule(dependencies.configs, paths.config_file, config, notices@)
            &&& #[trigger] targets_rule(input, dependencies.target_files, targets)
            &&& match targets {
                Err(error) => outcome == Err::<LookupOutcome, AppError>(error),
                Ok(texts) => {
                    let context = OfflineLookupContext {
                        cancellation: dependencies.cancellation,
                        paths: &paths,
                        config: match config {
                            Some(found) => Some(&found),
                            None => None,
                        },
                    };
                    searched_rule(input, *dependencies.sources, context, texts, notices, outcome)
                },
            }
        }
}

/// A search of the sources: their entries in order and the answer from them, or why they could not
/// be had.
pub open spec fn searched_rule<S: OfflineLookupProvider>(
    input: LookupInput,
    sources: OfflineLookupRegistry<S>,
    context: OfflineLookupContext<'_>,
    targets: Seq<Seq<char>>,
    notices: Vec<Notice>,
    outcome: Result<LookupOutcome, AppError>,
) -> bool {
    exists|entries: Result<Vec<LookupSourceEntry>, AppError>|
        {
            &&& #[trigger] offline_rule(
                sources.provider_list(),
                context,
                verdicts(context.cancellation),
                entries,
            )
            &&& match entries {
                Ok(list) => outcome matches Ok(found) && {
                    &&& found.file_mode == (input is File)
                    &&& found.notices == notices
                    &&& answered(targets, list@, found)
                },
                Err(error) => outcome == Err::<LookupOutcome, AppError>(error),
            }
        }
}

fn resolved_lookup<
    P: PathResolver,
    C: ConfigRepository,
    F: TargetFileReader,
    S: OfflineLookupProvider,
>(
    input: &LookupInput,
    dependencies: &LookupDependencies<'_, P, C, F, S>,
    paths: &ResolvedPaths,
) -> (outcome: Result<LookupOutcome, AppError>)
    ensures
        resolved_lookup_rule(*input, *dependencies, *paths, outcome),
{
    let (config, notices) = load_config(dependencies.configs, &paths.config_file);
    let ghost shown = notices;
    let file_mode: bool = match input {
        LookupInput::Single(_) => false,
        LookupInput::File(_) => true,
    };
    let targets: Vec<String> = match read_targets(input, dependencies.target_files) {
        Ok(targets) => targets,
        Err(error) => {
            assert(targets_rule(
                *input,
                dependencies.target_files,
                Err::<Seq<Seq<char>>, AppError>(error),
            ));
            assert(config_rule(dependencies.configs, paths.config_file, config, shown@));
            return Err(error);
        },
    };
    assert(targets_rule(
        *input,
        dependencies.target_files,
        Ok::<Seq<Seq<char>>, AppError>(views(targets@)),
    ));
    assert(config_rule(dependencies.configs, paths.config_file, config, shown@));
    let context: OfflineLookupContext<'_> = OfflineLookupContext {
        cancellation: dependencies.cancellation,
        paths,
        config: match &config {
            Some(found) => Some(found),
            None => None,
        },
    };
    let reply: Result<Vec<LookupSourceEntry>, AppError> = dependencies.sources.load(&context);
    assert(offline_rule(
        dependencies.sources.provider_list(),
        context,
        verdicts(context.cancellation),
        reply,
    ));
    let entries: Vec<LookupSourceEntry> = match reply {
        Ok(entries) => entries,
        Err(error) => {
            assert(searched_rule(
                *input,
                *dependencies.sources,
                context,
                views(targets@),
                shown,
                Err::<LookupOutcome, AppError>(error),
            ));
            return Err(error);
        },
    };
    let outcome: LookupOutcome = answer(&targets, &entries, file_mode, notices);
    assert(searched_rule(
        *input,
        *dependencies.sources,
        context,
        views(targets@),
        shown,
        Ok::<LookupOutcome, AppError>(outcome),
    ));
    Ok(outcome)
}

/// Performs deterministic offline lookup against local and cached source registries.
///
/// Fails when paths cannot be resolved, a target file cannot be read, or a required offline source
/// cannot be loaded. Configuration-loading failures remain soft notices; sources then do without
/// the configuration.
pub fn execute<P: PathResolver, C: ConfigRepository, F: TargetFileReader, S: OfflineLookupProvider>(
    request: &LookupRequest,
    dependencies: &LookupDependencies<'_, P, C, F, S>,
) -> (outcome: Result<LookupOutcome, AppError>)
    ensures
        exists|paths: Result<ResolvedPaths, AppError>|
            {
                &&& #[trigger] call_ensures(
                    P::resolve,
                    (dependencies.paths, &request.paths, ConfigRequirement::Optional),
                    paths,
                )
                &&& match paths {
                    Err(error) => outcome == Err::<LookupOutcome, AppError>(error),
                    Ok(found) => resolved_lookup_rule(
                        request.input,
                        *dependencies,
                        found,
                        outcome,
                    ),
                }
            },
{
    let paths: ResolvedPaths = match dependencies.paths.resolve(
        &request.paths,
        ConfigRequirement::Optional,
    ) {
        Ok(paths) => paths,
        Err(error) => {
            return Err(error);
        },
    };
    resolved_lookup(&request.input, dependencies, &paths)
}

} // verus!
