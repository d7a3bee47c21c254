//! What bans and unbans of networks do.

use crate::ordering::selects;
use crate::policy::blocklist::{
    entries_of, exactly_matched, line_models, partially_matched, BlocklistDocument, LineModel,
};
use crate::policy::cidr_text::{cidr_text, models, parse_strict};
use crate::policy::network::networks_overlap;
use crate::policy::network_text_laws::{all_space, lemma_end_bound, lemma_skip_space};
use crate::policy::network_types::CanonicalCidr;
use crate::text::{is_space, lemma_trim_end_shape, trim_end, trim_start, views};
use crate::workflow::blocklist::{
    added_texts, ban_changes, change_models, chosen_texts, invalid_targets, is_comment, kept_texts,
    line_entries, only_comments, preview_rule, sorted_texts, unban_drops, unban_rule, unusable,
    valid_targets, BanOutcome, BlocklistInput, ChangeModel, ParsedInput, UnbanPlan, UnbanPreview,
};
use crate::workflow::blocklist_execute::{
    append_rule, ban_rule, input_rule, locked_ban_rule, AsnOperations, BanRequest,
    BlocklistDependencies, BlocklistRepository,
};
use crate::workflow::error::AppError;
use crate::workflow::paths::{ConfigRequirement, ResolvedPaths};
use crate::workflow::ports::{ConfigRepository, LockManager, PathResolver};
use vstd::prelude::*;

verus! {

// Targets ---------------------------------------------------------------------------------------

/// A line of a target file is a comment exactly when its first character behind white space is a
/// `#`; a blank line is none.
pub proof fn law_comments_start_with_a_hash(lead: Seq<char>, first: char, rest: Seq<char>)
    requires
        all_space(lead),
        !is_space(first),
    ensures
        is_comment(lead + seq![first] + rest) <==> first == '#',
        !is_comment(lead),
{
    let body = seq![first] + rest;
    assert(lead + seq![first] + rest =~= lead + body);
    lemma_skip_space(lead, body);
    assert(trim_start(body) == body);
    lemma_trim_end_shape(body);
    lemma_end_bound(body, 0);
    assert(trim_end(body)[0] == first);
    assert(lead =~= lead + Seq::<char>::empty());
    lemma_skip_space(lead, Seq::empty());
    assert(trim_start(Seq::<char>::empty()) =~= Seq::<char>::empty());
    assert(trim_end(Seq::<char>::empty()) =~= Seq::<char>::empty());
}

/// Lines behind others add their targets behind theirs.
pub proof fn law_targets_follow_the_lines(before: Seq<Seq<char>>, after: Seq<Seq<char>>)
    ensures
        valid_targets(before + after) == valid_targets(before) + valid_targets(after),
        invalid_targets(before + after) == invalid_targets(before) + invalid_targets(after),
    decreases after.len(),
{
    let all = before + after;
    if after.len() == 0 {
        assert(all =~= before);
    } else {
        law_targets_follow_the_lines(before, after.drop_last());
        assert(all.drop_last() =~= before + after.drop_last());
        assert(valid_targets(all) =~= valid_targets(before) + valid_targets(after));
        assert(invalid_targets(all) =~= invalid_targets(before) + invalid_targets(after));
    }
}

/// A line gives nothing where it is a comment, its network where it holds one, and is invalid in
/// every other case, a blank line included.
pub proof fn law_each_line_is_a_target_or_invalid(text: Seq<char>)
    ensures
        is_comment(text) ==> valid_targets(seq![text]).len() == 0 && invalid_targets(
            seq![text],
        ).len() == 0,
        !is_comment(text) && parse_strict(text) is Some ==> valid_targets(seq![text]) == seq![
            parse_strict(text)->0,
        ] && invalid_targets(seq![text]).len() == 0,
        !is_comment(text) && parse_strict(text) is None ==> valid_targets(seq![text]).len() == 0
            && invalid_targets(seq![text]) == seq![text],
        valid_targets(Seq::empty()).len() == 0,
        invalid_targets(Seq::empty()).len() == 0,
{
    let none = Seq::<Seq<char>>::empty();
    assert(seq![text].drop_last() =~= none);
    assert(valid_targets(none) =~= Seq::empty());
    assert(invalid_targets(none) =~= Seq::empty());
    if !is_comment(text) {
        if parse_strict(text) is Some {
            assert(valid_targets(seq![text]) =~= seq![parse_strict(text)->0]);
        } else {
            assert(invalid_targets(seq![text]) =~= seq![text]);
        }
    }
}

// Ban -------------------------------------------------------------------------------------------

/// The network is an entry of a line of the document.
pub open spec fn is_entry(document: BlocklistDocument, network: CanonicalCidr) -> bool {
    exists|i: int|
        0 <= i < document.lines@.len() && (#[trigger] document.lines@[i]).canonical == Some(network)
}

/// The network is among the first targets.
pub open spec fn is_earlier(targets: Seq<CanonicalCidr>, k: int, network: CanonicalCidr) -> bool {
    exists|j: int| 0 <= j < k && #[trigger] targets[j] == network
}

proof fn lemma_entry(lines: Seq<LineModel>, network: CanonicalCidr)
    ensures
        entries_of(lines).contains(network) <==> exists|i: int|
            0 <= i < lines.len() && (#[trigger] lines[i]).entry == Some(network),
    decreases lines.len(),
{
    if lines.len() > 0 {
        let front = lines.drop_last();
        let before = entries_of(front);
        let all = entries_of(lines);
        lemma_entry(front, network);
        if all.contains(network) {
            let k = choose|k: int| 0 <= k < all.len() && all[k] == network;
            if k < before.len() {
                assert(before[k] == network);
                let i = choose|i: int|
                    0 <= i < front.len() && (#[trigger] front[i]).entry == Some(network);
                assert(lines[i].entry == Some(network));
            } else {
                assert(lines[lines.len() - 1].entry == Some(network));
            }
        }
        if exists|i: int| 0 <= i < lines.len() && (#[trigger] lines[i]).entry == Some(network) {
            let i = choose|i: int|
                0 <= i < lines.len() && (#[trigger] lines[i]).entry == Some(network);
            if i < front.len() {
                assert(front[i].entry == Some(network));
                let k = choose|k: int| 0 <= k < before.len() && before[k] == network;
                assert(all[k] == network);
            } else {
                assert(all[all.len() - 1] == network);
            }
        }
    }
}

proof fn lemma_document_entry(document: BlocklistDocument, network: CanonicalCidr)
    ensures
        entries_of(line_models(document.lines@)).contains(network) <==> is_entry(document, network),
{
    let lines = line_models(document.lines@);
    lemma_entry(lines, network);
    if exists|i: int| 0 <= i < lines.len() && (#[trigger] lines[i]).entry == Some(network) {
        let i = choose|i: int| 0 <= i < lines.len() && (#[trigger] lines[i]).entry == Some(network);
        assert(document.lines@[i].canonical == Some(network));
    }
    if is_entry(document, network) {
        let i = choose|i: int|
            0 <= i < document.lines@.len() && (#[trigger] document.lines@[i]).canonical == Some(
                network,
            );
        assert(lines[i].entry == Some(network));
    }
}

proof fn lemma_added_text(changes: Seq<ChangeModel>, text: Seq<char>)
    ensures
        added_texts(changes).contains(text) <==> changes.contains(ChangeModel::Added(text)),
    decreases changes.len(),
{
    if changes.len() > 0 {
        let front = changes.drop_last();
        let before = added_texts(front);
        let all = added_texts(changes);
        lemma_added_text(front, text);
        if all.contains(text) {
            let k = choose|k: int| 0 <= k < all.len() && all[k] == text;
            if k < before.len() {
                assert(before[k] == text);
                let i = choose|i: int|
                    0 <= i < front.len() && front[i] == ChangeModel::Added(text);
                assert(changes[i] == ChangeModel::Added(text));
            } else {
                assert(changes[changes.len() - 1] == ChangeModel::Added(text));
            }
        }
        if changes.contains(ChangeModel::Added(text)) {
            let i = choose|i: int|
                0 <= i < changes.len() && changes[i] == ChangeModel::Added(text);
            if i < front.len() {
                assert(front[i] == ChangeModel::Added(text));
                let k = choose|k: int| 0 <= k < before.len() && before[k] == text;
                assert(all[k] == text);
            } else {
                assert(all[all.len() - 1] == text);
            }
        }
    }
}

/// A ban reports each target in order: as present where it is an entry already or was named before,
/// and as added in every other case, an entry that merely overlaps it included; exactly the added
/// ones are appended, and nothing is where there is none.
pub proof fn law_ban_adds_what_is_missing<R: BlocklistRepository>(
    repository: &R,
    path: String,
    targets: Seq<CanonicalCidr>,
    outcome: BanOutcome,
) -> (found: (BlocklistDocument, Seq<Seq<char>>))
    requires
        append_rule(repository, path, targets, Ok(outcome)),
    ensures
        call_ensures(
            R::load,
            (repository, &path),
            Ok::<BlocklistDocument, AppError>(found.0),
        ),
        outcome.changes@.len() == targets.len(),
        outcome.invalid_targets@.len() == 0,
        forall|k: int|
            #![trigger outcome.changes@[k]]
            0 <= k < targets.len() ==> outcome.changes@[k]@ == if is_entry(found.0, targets[k])
                || is_earlier(targets, k, targets[k]) {
                ChangeModel::AlreadyPresent(cidr_text(targets[k]@))
            } else {
                ChangeModel::Added(cidr_text(targets[k]@))
            },
        forall|text: Seq<char>| #[trigger]
            found.1.contains(text) <==> change_models(outcome.changes@).contains(
                ChangeModel::Added(text),
            ),
        found.1.len() > 0 ==> exists|entries: Vec<String>, written: Result<(), AppError>|
            views(entries@) == found.1 && written is Ok && #[trigger] call_ensures(
                R::append_entries,
                (
                    repository,
                    &path,
                    &entries,
                    found.0.has_content,
                    found.0.trailing_newline,
                ),
                written,
            ),
{
    let reply = choose|document: Result<BlocklistDocument, AppError>|
        {
            &&& #[trigger] call_ensures(R::load, (repository, &path), document)
            &&& document is Ok
            &&& ({
                let changes = ban_changes(
                    entries_of(line_models(document->Ok_0.lines@)),
                    targets,
                );
                &&& change_models(outcome.changes@) == changes
                &&& outcome.invalid_targets@.len() == 0
                &&& added_texts(changes).len() > 0 ==> exists|
                    entries: Vec<String>,
                    written: Result<(), AppError>,
                |
                    {
                        &&& #[trigger] call_ensures(
                            R::append_entries,
                            (
                                repository,
                                &path,
                                &entries,
                                document->Ok_0.has_content,
                                document->Ok_0.trailing_newline,
                            ),
                            written,
                        )
                        &&& views(entries@) == added_texts(changes)
                        &&& written is Ok
                    }
            })
        };
    let document = reply->Ok_0;
    let existing = entries_of(line_models(document.lines@));
    let changes = ban_changes(existing, targets);
    assert(change_models(outcome.changes@).len() == outcome.changes@.len());
    assert forall|k: int|
        #![trigger outcome.changes@[k]]
        0 <= k < targets.len() implies outcome.changes@[k]@ == if is_entry(document, targets[k])
        || is_earlier(targets, k, targets[k]) {
        ChangeModel::AlreadyPresent(cidr_text(targets[k]@))
    } else {
        ChangeModel::Added(cidr_text(targets[k]@))
    } by {
        assert(change_models(outcome.changes@)[k] == outcome.changes@[k]@);
        lemma_document_entry(document, targets[k]);
        let earlier = targets.take(k);
        if is_earlier(targets, k, targets[k]) {
            let j = choose|j: int| 0 <= j < k && #[trigger] targets[j] == targets[k];
            assert(earlier[j] == targets[k]);
        }
        if earlier.contains(targets[k]) {
            let j = choose|j: int| 0 <= j < earlier.len() && earlier[j] == targets[k];
            assert(targets[j] == targets[k]);
        }
    }
    assert forall|text: Seq<char>| #[trigger] added_texts(changes).contains(text) <==>
        change_models(outcome.changes@).contains(ChangeModel::Added(text)) by {
        lemma_added_text(changes, text);
    }
    (document, added_texts(changes))
}

/// A ban that succeeds worked on the targets of its input: those of the file where one is named,
/// the one that was given where not. Where a target is invalid, or the file holds nothing but
/// comments, it changes nothing and says so.
pub proof fn law_ban_works_on_its_input<
    P: PathResolver,
    C: ConfigRepository,
    L: LockManager,
    R: BlocklistRepository,
    A: AsnOperations,
>(
    request: BanRequest,
    dependencies: BlocklistDependencies<'_, P, C, L, R, A>,
    outcome: BanOutcome,
) -> (found: (ResolvedPaths, ParsedInput))
    requires
        ban_rule(request, dependencies, Ok(outcome)),
    ensures
        call_ensures(
            P::resolve,
            (dependencies.paths, &request.paths, ConfigRequirement::Required),
            Ok::<ResolvedPaths, AppError>(found.0),
        ),
        request.input matches BlocklistInput::Single(value) ==> parse_strict(value@) is Some
            && models(found.1.targets@) == seq![parse_strict(value@)->0]
            && found.1.invalid_targets@.len() == 0 && !found.1.empty_file,
        request.input matches BlocklistInput::File(path) ==> exists|raw: Vec<String>|
            {
                &&& #[trigger] call_ensures(
                    R::read_target_lines,
                    (dependencies.repository, &path),
                    Ok::<Vec<String>, AppError>(raw),
                )
                &&& models(found.1.targets@) == valid_targets(views(raw@))
                &&& views(found.1.invalid_targets@) == invalid_targets(views(raw@))
                &&& found.1.empty_file <==> forall|i: int|
                    0 <= i < raw@.len() ==> is_comment((#[trigger] raw@[i])@)
            },
        found.1.invalid_targets@.len() > 0 || found.1.empty_file ==> {
            &&& outcome.changes@.len() == 0
            &&& outcome.invalid_targets@ == found.1.invalid_targets@
            &&& outcome.empty_file == found.1.empty_file
        },
        found.1.invalid_targets@.len() == 0 && !found.1.empty_file ==> append_rule(
            dependencies.repository,
            found.0.blocklist_file,
            found.1.targets@,
            Ok(outcome),
        ),
{
    let wanted = Ok::<BanOutcome, AppError>(outcome);
    let resolved = choose|paths: Result<ResolvedPaths, AppError>|
        {
            &&& #[trigger] call_ensures(
                P::resolve,
                (dependencies.paths, &request.paths, ConfigRequirement::Required),
                paths,
            )
            &&& paths is Ok
            &&& locked_ban_rule(request.input, dependencies.repository, paths->Ok_0, wanted)
        };
    let paths = resolved->Ok_0;
    let reply = choose|parsed: Result<ParsedInput, AppError>|
        {
            &&& #[trigger] input_rule(request.input, dependencies.repository, parsed)
            &&& parsed is Ok
            &&& if unusable(parsed->Ok_0) {
                &&& outcome.changes@.len() == 0
                &&& outcome.invalid_targets == parsed->Ok_0.invalid_targets
                &&& outcome.empty_file == parsed->Ok_0.empty_file
            } else {
                append_rule(
                    dependencies.repository,
                    paths.blocklist_file,
                    parsed->Ok_0.targets@,
                    wanted,
                )
            }
        };
    let parsed = reply->Ok_0;
    if let BlocklistInput::File(path) = request.input {
        let lines = choose|lines: Result<Vec<String>, AppError>|
            {
                &&& #[trigger] call_ensures(
                    R::read_target_lines,
                    (dependencies.repository, &path),
                    lines,
                )
                &&& lines is Ok
                &&& models(parsed.targets@) == valid_targets(views(lines->Ok_0@))
                &&& views(parsed.invalid_targets@) == invalid_targets(views(lines->Ok_0@))
                &&& parsed.empty_file == only_comments(views(lines->Ok_0@))
            };
        let raw = lines->Ok_0;
        if parsed.empty_file {
            assert forall|i: int| 0 <= i < raw@.len() implies is_comment(
                (#[trigger] raw@[i])@,
            ) by {
                assert(is_comment(views(raw@)[i]));
            }
        }
        if forall|i: int| 0 <= i < raw@.len() ==> is_comment((#[trigger] raw@[i])@) {
            assert forall|i: int| 0 <= i < views(raw@).len() implies is_comment(
                #[trigger] views(raw@)[i],
            ) by {
                assert(is_comment(raw@[i]@));
            }
        }
        assert(call_ensures(
            R::read_target_lines,
            (dependencies.repository, &path),
            Ok::<Vec<String>, AppError>(raw),
        ));
    }
    (paths, parsed)
}

// Unban -----------------------------------------------------------------------------------------

/// The line is targeted: its entry is a target.
pub open spec fn is_targeted(line: LineModel, targets: Seq<CanonicalCidr>) -> bool {
    line.entry is Some && targets.contains(line.entry->0)
}

/// The entry of the line is no target, but shares an address with one.
pub open spec fn is_touched(line: LineModel, targets: Seq<CanonicalCidr>) -> bool {
    &&& line.entry is Some
    &&& !targets.contains(line.entry->0)
    &&& exists|t: int|
        0 <= t < targets.len() && networks_overlap(line.entry->0, #[trigger] targets[t])
}

proof fn lemma_matches(lines: Seq<LineModel>, targets: Seq<CanonicalCidr>, i: int)
    requires
        0 <= i < lines.len(),
    ensures
        exactly_matched(line_entries(lines), targets, i) <==> is_targeted(lines[i], targets),
        partially_matched(line_entries(lines), targets, i) <==> is_touched(lines[i], targets),
{
    assert(line_entries(lines)[i] == lines[i].entry);
}

proof fn lemma_chosen(
    entries: Seq<Option<CanonicalCidr>>,
    chosen: spec_fn(int) -> bool,
    n: nat,
    text: Seq<char>,
)
    requires
        n <= entries.len(),
    ensures
        chosen_texts(entries, chosen, n).contains(text) <==> exists|i: int|
            0 <= i < n && chosen(i) && (#[trigger] entries[i]) is Some && cidr_text(entries[i]->0@)
                == text,
    decreases n,
{
    if n > 0 {
        let m = (n - 1) as nat;
        let before = chosen_texts(entries, chosen, m);
        let all = chosen_texts(entries, chosen, n);
        lemma_chosen(entries, chosen, m, text);
        if all.contains(text) {
            let k = choose|k: int| 0 <= k < all.len() && all[k] == text;
            if k < before.len() {
                assert(before[k] == text);
            } else {
                assert(entries[n - 1] is Some);
            }
        }
        if exists|i: int|
            0 <= i < n && chosen(i) && (#[trigger] entries[i]) is Some && cidr_text(entries[i]->0@)
                == text {
            let i = choose|i: int|
                0 <= i < n && chosen(i) && (#[trigger] entries[i]) is Some && cidr_text(
                    entries[i]->0@,
                ) == text;
            if i < m {
                let k = choose|k: int| 0 <= k < before.len() && before[k] == text;
                assert(all[k] == text);
            } else {
                assert(all[all.len() - 1] == text);
            }
        }
    }
}

proof fn lemma_sorted_members(texts: Seq<Seq<char>>, sorted: Seq<String>, text: Seq<char>)
    requires
        sorted_texts(texts, sorted),
    ensures
        views(sorted).contains(text) <==> texts.contains(text),
{
    let unsorted = choose|unsorted: Seq<String>| #[trigger]
        views(unsorted) == texts && crate::ordering::stably_sorted(unsorted, sorted);
    unsorted.to_multiset_ensures();
    sorted.to_multiset_ensures();
    if views(sorted).contains(text) {
        let k = choose|k: int| 0 <= k < views(sorted).len() && views(sorted)[k] == text;
        assert(sorted.contains(sorted[k]));
        assert(sorted.to_multiset().count(sorted[k]) > 0);
        assert(unsorted.contains(sorted[k]));
        let j = choose|j: int| 0 <= j < unsorted.len() && unsorted[j] == sorted[k];
        assert(texts[j] == text);
    }
    if texts.contains(text) {
        let k = choose|k: int| 0 <= k < texts.len() && texts[k] == text;
        assert(unsorted[k]@ == text);
        assert(unsorted.contains(unsorted[k]));
        assert(unsorted.to_multiset().count(unsorted[k]) > 0);
        assert(sorted.contains(unsorted[k]));
        let j = choose|j: int| 0 <= j < sorted.len() && sorted[j] == unsorted[k];
        assert(views(sorted)[j] == text);
    }
}

/// A preview shows the entries that are targets as exact matches, and the others that share an
/// address with a target as partial ones.
pub proof fn law_preview_shows_what_is_touched(
    input: BlocklistInput,
    targets: Seq<CanonicalCidr>,
    lines: Seq<LineModel>,
    preview: UnbanPreview,
)
    requires
        preview_rule(input, targets, lines, preview),
    ensures
        forall|text: Seq<char>| #[trigger]
            views(preview.exact_entries@).contains(text) <==> exists|i: int|
                0 <= i < lines.len() && is_targeted(#[trigger] lines[i], targets) && text
                    == cidr_text(lines[i].entry->0@),
        forall|text: Seq<char>| #[trigger]
            views(preview.partial_entries@).contains(text) <==> exists|i: int|
                0 <= i < lines.len() && is_touched(#[trigger] lines[i], targets) && text
                    == cidr_text(lines[i].entry->0@),
        preview.targets@ == targets,
        preview.requested_target_count == targets.to_set().len(),
{
    let entries = line_entries(lines);
    let exact = |i: int| exactly_matched(entries, targets, i);
    let partial = |i: int| partially_matched(entries, targets, i);
    assert forall|text: Seq<char>| #[trigger]
        views(preview.exact_entries@).contains(text) <==> exists|i: int|
            0 <= i < lines.len() && is_targeted(#[trigger] lines[i], targets) && text == cidr_text(
                lines[i].entry->0@,
            ) by {
        lemma_sorted_members(
            chosen_texts(entries, exact, lines.len()),
            preview.exact_entries@,
            text,
        );
        lemma_chosen(entries, exact, lines.len(), text);
        if exists|i: int|
            0 <= i < lines.len() && exact(i) && (#[trigger] entries[i]) is Some && cidr_text(
                entries[i]->0@,
            ) == text {
            let i = choose|i: int|
                0 <= i < lines.len() && exact(i) && (#[trigger] entries[i]) is Some && cidr_text(
                    entries[i]->0@,
                ) == text;
            lemma_matches(lines, targets, i);
            assert(is_targeted(lines[i], targets));
        }
        if exists|i: int|
            0 <= i < lines.len() && is_targeted(#[trigger] lines[i], targets) && text == cidr_text(
                lines[i].entry->0@,
            ) {
            let i = choose|i: int|
                0 <= i < lines.len() && is_targeted(#[trigger] lines[i], targets) && text
                    == cidr_text(lines[i].entry->0@);
            lemma_matches(lines, targets, i);
            assert(exact(i));
            assert(entries[i] is Some);
        }
    }
    assert forall|text: Seq<char>| #[trigger]
        views(preview.partial_entries@).contains(text) <==> exists|i: int|
            0 <= i < lines.len() && is_touched(#[trigger] lines[i], targets) && text == cidr_text(
                lines[i].entry->0@,
            ) by {
        lemma_sorted_members(
            chosen_texts(entries, partial, lines.len()),
            preview.partial_entries@,
            text,
        );
        lemma_chosen(entries, partial, lines.len(), text);
        if exists|i: int|
            0 <= i < lines.len() && partial(i) && (#[trigger] entries[i]) is Some && cidr_text(
                entries[i]->0@,
            ) == text {
            let i = choose|i: int|
                0 <= i < lines.len() && partial(i) && (#[trigger] entries[i]) is Some && cidr_text(
                    entries[i]->0@,
                ) == text;
            lemma_matches(lines, targets, i);
            assert(is_touched(lines[i], targets));
        }
        if exists|i: int|
            0 <= i < lines.len() && is_touched(#[trigger] lines[i], targets) && text == cidr_text(
                lines[i].entry->0@,
            ) {
            let i = choose|i: int|
                0 <= i < lines.len() && is_touched(#[trigger] lines[i], targets) && text
                    == cidr_text(lines[i].entry->0@);
            lemma_matches(lines, targets, i);
            assert(partial(i));
            assert(entries[i] is Some);
        }
    }
}

/// How many of the first indexes are chosen.
pub open spec fn count_chosen(n: nat, chosen: spec_fn(int) -> bool) -> nat
    decreases n,
{
    if n == 0 {
        0
    } else {
        count_chosen((n - 1) as nat, chosen) + if chosen(n - 1) {
            1nat
        } else {
            0nat
        }
    }
}

proof fn lemma_selected_count(indexes: Seq<usize>, n: nat, chosen: spec_fn(int) -> bool)
    requires
        selects(indexes, n, chosen),
    ensures
        indexes.len() == count_chosen(n, chosen),
    decreases n,
{
    if n == 0 {
        if indexes.len() > 0 {
            assert(indexes[0] < n);
        }
    } else {
        let m = (n - 1) as nat;
        if chosen(m as int) {
            let a = choose|a: int| 0 <= a < indexes.len() && #[trigger] indexes[a] == m;
            if a < indexes.len() - 1 {
                assert(indexes[a] < indexes[indexes.len() - 1]);
                assert(indexes[indexes.len() - 1] < n);
            }
            let front = indexes.drop_last();
            assert forall|i: int|
                #![trigger chosen(i)]
                0 <= i < m && chosen(i) implies exists|b: int|
                0 <= b < front.len() && #[trigger] front[b] == i by {
                let b = choose|b: int| 0 <= b < indexes.len() && #[trigger] indexes[b] == i;
                assert(front[b] == i);
            }
            assert forall|b: int| 0 <= b < front.len() implies (#[trigger] front[b]) < m && chosen(
                front[b] as int,
            ) by {
                assert(indexes[b] < indexes[indexes.len() - 1]);
            }
            lemma_selected_count(front, m, chosen);
        } else {
            assert forall|b: int| 0 <= b < indexes.len() implies (#[trigger] indexes[b]) < m
                && chosen(indexes[b] as int) by {
                assert(indexes[b] < n);
            }
            lemma_selected_count(indexes, m, chosen);
        }
    }
}

proof fn lemma_kept_count(lines: Seq<LineModel>, dropped: spec_fn(int) -> bool, n: nat)
    requires
        n <= lines.len(),
    ensures
        kept_texts(lines, dropped, n).len() + count_chosen(n, dropped) == n,
        forall|i: int|
            0 <= i < n && !dropped(i) ==> kept_texts(lines, dropped, n).contains(
                (#[trigger] lines[i]).text,
            ),
    decreases n,
{
    if n > 0 {
        let m = (n - 1) as nat;
        lemma_kept_count(lines, dropped, m);
        let before = kept_texts(lines, dropped, m);
        let all = kept_texts(lines, dropped, n);
        assert forall|i: int| 0 <= i < n && !dropped(i) implies all.contains(
            (#[trigger] lines[i]).text,
        ) by {
            if i < m {
                let k = choose|k: int| 0 <= k < before.len() && before[k] == lines[i].text;
                assert(all[k] == lines[i].text);
            } else {
                assert(all[all.len() - 1] == lines[i].text);
            }
        }
    }
}

proof fn lemma_split_count(
    n: nat,
    exact: spec_fn(int) -> bool,
    partial: spec_fn(int) -> bool,
    dropped: spec_fn(int) -> bool,
)
    requires
        forall|i: int| 0 <= i < n ==> (#[trigger] dropped(i) <==> exact(i) || partial(i)),
        forall|i: int| 0 <= i < n ==> !(#[trigger] exact(i) && partial(i)),
    ensures
        count_chosen(n, dropped) == count_chosen(n, exact) + count_chosen(n, partial),
    decreases n,
{
    if n > 0 {
        lemma_split_count((n - 1) as nat, exact, partial, dropped);
        assert(dropped(n - 1) <==> exact(n - 1) || partial(n - 1));
        assert(!(exact(n - 1) && partial(n - 1)));
    }
}

proof fn lemma_same_count(n: nat, a: spec_fn(int) -> bool, b: spec_fn(int) -> bool)
    requires
        forall|i: int| 0 <= i < n ==> (#[trigger] a(i) <==> b(i)),
    ensures
        count_chosen(n, a) == count_chosen(n, b),
    decreases n,
{
    if n > 0 {
        lemma_same_count((n - 1) as nat, a, b);
        assert(a(n - 1) <==> b(n - 1));
    }
}

proof fn lemma_none_chosen(n: nat, chosen: spec_fn(int) -> bool)
    requires
        forall|i: int| 0 <= i < n ==> !#[trigger] chosen(i),
    ensures
        count_chosen(n, chosen) == 0,
    decreases n,
{
    if n > 0 {
        lemma_none_chosen((n - 1) as nat, chosen);
        assert(!chosen(n - 1));
    }
}

/// An approved unban removes every line whose entry is a target, and those that merely touch a
/// target exactly when that was decided; every other line is written back. The outcome counts what
/// was removed, and tells whether any entry merely touched a target.
pub proof fn law_unban_counts_what_it_removes(
    preview: UnbanPreview,
    remove_partial: bool,
    lines: Seq<LineModel>,
    plan: UnbanPlan,
)
    requires
        unban_rule(preview, remove_partial, lines, plan),
    ensures
        plan.kept_lines is Some <==> exists|i: int|
            0 <= i < lines.len() && (is_targeted(#[trigger] lines[i], preview.targets@)
                || remove_partial && is_touched(lines[i], preview.targets@)),
        plan.kept_lines matches Some(kept) ==> {
            &&& kept@.len() + plan.outcome.removed_exact + plan.outcome.removed_partial
                == lines.len()
            &&& forall|i: int|
                0 <= i < lines.len() && !is_targeted(#[trigger] lines[i], preview.targets@) && !(
                remove_partial && is_touched(lines[i], preview.targets@)) ==> views(
                    kept@,
                ).contains(lines[i].text)
        },
        plan.outcome.removed_exact == count_chosen(
            lines.len(),
            |i: int| is_targeted(lines[i], preview.targets@),
        ),
        plan.outcome.removed_partial == if remove_partial {
            count_chosen(lines.len(), |i: int| is_touched(lines[i], preview.targets@))
        } else {
            0
        },
        plan.outcome.had_partial_matches <==> exists|i: int|
            0 <= i < lines.len() && is_touched(#[trigger] lines[i], preview.targets@),
        plan.outcome.target_label@ == preview.target_label@,
        plan.outcome.requested_target_count == preview.requested_target_count,
{
    let n = lines.len();
    let entries = line_entries(lines);
    let targets = preview.targets@;
    let dropped = unban_drops(entries, targets, remove_partial);
    let exact = |i: int| exactly_matched(entries, targets, i);
    let partial = |i: int| partially_matched(entries, targets, i);
    let targeted = |i: int| is_targeted(lines[i], targets);
    let touched = |i: int| is_touched(lines[i], targets);
    assert forall|i: int| 0 <= i < n implies (#[trigger] exact(i) <==> targeted(i)) by {
        lemma_matches(lines, targets, i);
    }
    assert forall|i: int| 0 <= i < n implies (#[trigger] partial(i) <==> touched(i)) by {
        lemma_matches(lines, targets, i);
    }
    assert forall|i: int| 0 <= i < n implies (#[trigger] dropped(i) <==> is_targeted(
        lines[i],
        targets,
    ) || remove_partial && is_touched(lines[i], targets)) by {
        lemma_matches(lines, targets, i);
    }
    let exact_indexes = choose|indexes: Seq<usize>| #[trigger]
        selects(indexes, n, exact) && indexes.len() == plan.outcome.removed_exact;
    lemma_selected_count(exact_indexes, n, exact);
    lemma_same_count(n, exact, targeted);
    lemma_same_count(n, partial, touched);
    if remove_partial {
        let partial_indexes = choose|indexes: Seq<usize>| #[trigger]
            selects(indexes, n, partial) && indexes.len() == plan.outcome.removed_partial;
        lemma_selected_count(partial_indexes, n, partial);
        assert forall|i: int| 0 <= i < n implies (#[trigger] dropped(i) <==> exact(i) || partial(
            i,
        )) by {}
        assert forall|i: int| 0 <= i < n implies !(#[trigger] exact(i) && partial(i)) by {}
        lemma_split_count(n, exact, partial, dropped);
    } else {
        lemma_same_count(n, dropped, exact);
    }
    lemma_kept_count(lines, dropped, n);
    if let Some(kept) = plan.kept_lines {
        assert(views(kept@).len() == kept@.len());
        let i = choose|i: int| 0 <= i < lines.len() && #[trigger] dropped(i);
        assert(is_targeted(lines[i], targets) || remove_partial && is_touched(lines[i], targets));
        assert forall|i: int|
            0 <= i < lines.len() && !is_targeted(#[trigger] lines[i], targets) && !(remove_partial
                && is_touched(lines[i], targets)) implies views(kept@).contains(lines[i].text) by {
            assert(!dropped(i));
        }
    } else {
        assert forall|i: int| 0 <= i < lines.len() implies !is_targeted(
            #[trigger] lines[i],
            targets,
        ) && !(remove_partial && is_touched(lines[i], targets)) by {
            assert(!dropped(i));
        }
    }
    if exists|i: int| 0 <= i < n && #[trigger] partial(i) {
        let i = choose|i: int| 0 <= i < n && #[trigger] partial(i);
        assert(is_touched(lines[i], targets));
    }
    if exists|i: int| 0 <= i < n && is_touched(#[trigger] lines[i], targets) {
        let i = choose|i: int| 0 <= i < n && is_touched(#[trigger] lines[i], targets);
        assert(partial(i));
    }
}

} // verus!
