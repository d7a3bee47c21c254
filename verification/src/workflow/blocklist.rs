//! Decisions of local blocklist and ASN configuration mutation.

use crate::numerals::{decimal, decimal_text};
use crate::ordering::{reversed, selects, sort_stable, stably_sorted};
use crate::policy::blocklist::{
    classified, classify_ban_targets, entries_of, exact_match_indexes, exactly_matched, line_models,
    parse_blocklist_target, partially_matched, plan_unban_many, BanClassification,
    BlocklistDocument, LineModel, UnbanIndexPlan,
};
use crate::policy::cidr_order::sort_distinct;
use crate::policy::cidr_text::{cidr_text, models, parse_strict, CidrModel};
use crate::policy::network_types::CanonicalCidr;
use crate::text::{same_text, to_chars, trim, trim_chars, views};
use crate::workflow::error::AppError;
use vstd::prelude::*;

verus! {

/// One target supplied directly or through a bounded line-oriented file.
#[derive(Debug, Clone, PartialEq, Eq)]
pub enum BlocklistInput {
    /// One operator-supplied IP address or CIDR.
    Single(String),
    /// File containing one target per non-comment line.
    File(String),
}

/// Per-target result from a successful ban workflow.
#[derive(Debug, Clone, PartialEq, Eq)]
pub enum BanChange {
    /// Canonical target appended to the blocklist.
    Added(String),
    /// Canonical target already present, including an earlier target in the same request.
    AlreadyPresent(String),
}

/// Contents of a change.
pub enum ChangeModel {
    Added(Seq<char>),
    AlreadyPresent(Seq<char>),
}

impl View for BanChange {
    type V = ChangeModel;

    open spec fn view(&self) -> ChangeModel {
        match self {
            BanChange::Added(text) => ChangeModel::Added(text@),
            BanChange::AlreadyPresent(text) => ChangeModel::AlreadyPresent(text@),
        }
    }
}

/// Contents of changes, in order.
pub open spec fn change_models(changes: Seq<BanChange>) -> Seq<ChangeModel> {
    changes.map_values(|c: BanChange| c@)
}

/// Result of parsing and applying a local blocklist ban request.
#[derive(Debug, Clone, PartialEq, Eq)]
pub struct BanOutcome {
    /// Changes in request order when all targets were valid.
    pub changes: Vec<BanChange>,
    /// Invalid input strings; any invalid target prevents mutation.
    pub invalid_targets: Vec<String>,
    /// Whether file input contained no targets.
    pub empty_file: bool,
}

impl Default for BanOutcome {
    fn default() -> (outcome: BanOutcome)
        ensures
            outcome.changes@.len() == 0,
            outcome.invalid_targets@.len() == 0,
            !outcome.empty_file,
    {
        BanOutcome { changes: Vec::new(), invalid_targets: Vec::new(), empty_file: false }
    }
}

// Targets ---------------------------------------------------------------------------------------

/// Targets of a request.
pub struct ParsedInput {
    /// Networks of the valid targets, in order.
    pub targets: Vec<CanonicalCidr>,
    /// Invalid targets as given, in order.
    pub invalid_targets: Vec<String>,
    /// The target file held no targets.
    pub empty_file: bool,
}

/// A line that is a remark: its trimmed text begins with `#`.
pub open spec fn is_comment(text: Seq<char>) -> bool {
    trim(text).len() > 0 && trim(text)[0] == '#'
}

/// Every line is a remark, so that the lines hold no target at all.
pub open spec fn only_comments(texts: Seq<Seq<char>>) -> bool {
    forall|i: int| 0 <= i < texts.len() ==> is_comment(#[trigger] texts[i])
}

/// Whether a line is a remark.
fn is_comment_line(line: &str) -> (comment: bool)
    ensures
        comment == is_comment(line@),
{
    let chars: Vec<char> = to_chars(line);
    let trimmed = trim_chars(chars.as_slice());
    trimmed.len() > 0 && trimmed[0] == '#'
}

/// Networks of the lines that are exactly one network, in order; remarks hold none.
pub open spec fn valid_targets(texts: Seq<Seq<char>>) -> Seq<CidrModel>
    decreases texts.len(),
{
    if texts.len() == 0 {
        Seq::empty()
    } else if is_comment(texts.last()) {
        valid_targets(texts.drop_last())
    } else {
        match parse_strict(texts.last()) {
            Some(model) => valid_targets(texts.drop_last()).push(model),
            None => valid_targets(texts.drop_last()),
        }
    }
}

/// The lines that are neither remarks nor exactly one network, in order.
pub open spec fn invalid_targets(texts: Seq<Seq<char>>) -> Seq<Seq<char>>
    decreases texts.len(),
{
    if texts.len() == 0 {
        Seq::empty()
    } else if !is_comment(texts.last()) && parse_strict(texts.last()) is None {
        invalid_targets(texts.drop_last()).push(texts.last())
    } else {
        invalid_targets(texts.drop_last())
    }
}

/// Parses the lines of a target file, which holds one target per non-comment line.
pub fn parse_target_lines(raw: Vec<String>) -> (parsed: ParsedInput)
    ensures
        models(parsed.targets@) == valid_targets(views(raw@)),
        views(parsed.invalid_targets@) == invalid_targets(views(raw@)),
        parsed.empty_file == only_comments(views(raw@)),
{
    let mut empty_file: bool = true;
    let ghost texts = views(raw@);
    let ghost all = raw@;
    let mut rest: Vec<String> = reversed(raw);
    let mut targets: Vec<CanonicalCidr> = Vec::new();
    let mut invalid: Vec<String> = Vec::new();
    let ghost mut done: int = 0;
    assert(rest@ =~= all.skip(0).reverse());
    assert(models(targets@) =~= valid_targets(texts.take(0)));
    assert(views(invalid@) =~= invalid_targets(texts.take(0)));
    while rest.len() > 0
        invariant
            0 <= done <= all.len(),
            rest@ == all.skip(done).reverse(),
            texts == views(all),
            models(targets@) == valid_targets(texts.take(done)),
            views(invalid@) == invalid_targets(texts.take(done)),
            empty_file == only_comments(texts.take(done)),
        decreases all.len() - done,
    {
        let value: String = rest.pop().unwrap();
        let ghost targets0 = targets@;
        let ghost invalid0 = invalid@;
        proof {
            assert(value == all[done]);
            assert(rest@ =~= all.skip(done + 1).reverse());
            assert(texts.take(done + 1).drop_last() =~= texts.take(done));
            assert(texts.take(done + 1).last() == value@);
            done = done + 1;
        }
        if is_comment_line(value.as_str()) {
            assert(only_comments(texts.take(done)) == only_comments(texts.take(done - 1))) by {
                let seen = texts.take(done);
                assert(seen.drop_last() =~= texts.take(done - 1));
                assert forall|i: int| 0 <= i < done - 1 implies seen[i]
                    == #[trigger] seen.drop_last()[i] by {}
            }
            continue ;
        }
        empty_file = false;
        assert(!only_comments(texts.take(done))) by {
            assert(!is_comment(texts.take(done)[done - 1]));
        }
        match parse_blocklist_target(value.as_str()) {
            Ok(target) => {
                targets.push(target);
                assert(models(targets@) =~= models(targets0).push(target@));
            },
            Err(_) => {
                invalid.push(value);
                assert(views(invalid@) =~= views(invalid0).push(value@));
            },
        }
    }
    assert(texts.take(done) =~= texts);
    ParsedInput { targets, invalid_targets: invalid, empty_file }
}

/// Parses one direct target.
///
/// Returns [`AppError::BlocklistTargetParse`] when it is not exactly one valid IP or CIDR.
pub fn parse_single_target(value: &String) -> (parsed: Result<ParsedInput, AppError>)
    ensures
        match parse_strict(value@) {
            Some(model) => parsed is Ok && models(parsed->Ok_0.targets@) == seq![model]
                && parsed->Ok_0.invalid_targets@.len() == 0 && !parsed->Ok_0.empty_file,
            None => parsed matches Err(AppError::BlocklistTargetParse { input }) && input@ == value@,
        },
{
    match parse_blocklist_target(value.as_str()) {
        Ok(target) => {
            let mut targets: Vec<CanonicalCidr> = Vec::new();
            targets.push(target);
            assert(models(targets@) =~= seq![target@]);
            Ok(ParsedInput { targets, invalid_targets: Vec::new(), empty_file: false })
        },
        Err(_) => Err(AppError::BlocklistTargetParse { input: value.clone() }),
    }
}

/// The targets cannot be used: one is invalid, or there is none.
pub open spec fn unusable(parsed: ParsedInput) -> bool {
    parsed.invalid_targets@.len() > 0 || parsed.empty_file
}

/// Whether targets cannot be used.
pub fn is_unusable(parsed: &ParsedInput) -> (refused: bool)
    ensures
        refused == unusable(*parsed),
{
    parsed.invalid_targets.len() > 0 || parsed.empty_file
}

// Ban -------------------------------------------------------------------------------------------

/// What a ban does to the document.
pub struct BanPlan {
    /// Canonical entries to append, in order.
    pub appended: Vec<String>,
    /// Changes in request order.
    pub changes: Vec<BanChange>,
}

/// Change that a classification reports.
pub open spec fn change_of(classification: BanClassification) -> ChangeModel {
    match classification {
        BanClassification::Added(cidr) => ChangeModel::Added(cidr_text(cidr@)),
        BanClassification::AlreadyPresent(cidr) => ChangeModel::AlreadyPresent(cidr_text(cidr@)),
    }
}

/// Changes of a ban, in request order.
pub open spec fn ban_changes(
    existing: Seq<CanonicalCidr>,
    targets: Seq<CanonicalCidr>,
) -> Seq<ChangeModel> {
    Seq::new(targets.len(), |i: int| change_of(classified(existing, targets, i)))
}

/// Texts of the added entries, in order.
pub open spec fn added_texts(changes: Seq<ChangeModel>) -> Seq<Seq<char>>
    decreases changes.len(),
{
    if changes.len() == 0 {
        Seq::empty()
    } else {
        match changes.last() {
            ChangeModel::Added(text) => added_texts(changes.drop_last()).push(text),
            ChangeModel::AlreadyPresent(_) => added_texts(changes.drop_last()),
        }
    }
}

/// Entries of a document, in order.
pub fn document_entries(document: &BlocklistDocument) -> (entries: Vec<CanonicalCidr>)
    ensures
        entries@ == entries_of(line_models(document.lines@)),
{
    let ghost lines = line_models(document.lines@);
    let mut entries: Vec<CanonicalCidr> = Vec::new();
    let mut i: usize = 0;
    assert(entries_of(lines.take(0)) =~= Seq::empty());
    while i < document.lines.len()
        invariant
            i <= document.lines@.len(),
            lines == line_models(document.lines@),
            entries@ == entries_of(lines.take(i as int)),
        decreases document.lines@.len() - i,
    {
        proof {
            assert(lines.take(i + 1).drop_last() =~= lines.take(i as int));
            assert(lines.take(i + 1).last() == lines[i as int]);
        }
        if let Some(cidr) = document.lines[i].canonical {
            entries.push(cidr);
        }
        i = i + 1;
    }
    assert(lines.take(i as int) =~= lines);
    entries
}

/// Plans the addition of targets to a document.
pub fn plan_ban(document: &BlocklistDocument, targets: &[CanonicalCidr]) -> (plan: BanPlan)
    ensures
        change_models(plan.changes@) == ban_changes(
            entries_of(line_models(document.lines@)),
            targets@,
        ),
        views(plan.appended@) == added_texts(change_models(plan.changes@)),
{
    let existing: Vec<CanonicalCidr> = document_entries(document);
    let classifications: Vec<BanClassification> = classify_ban_targets(
        existing.as_slice(),
        targets,
    );
    let ghost goal = ban_changes(existing@, targets@);
    let mut appended: Vec<String> = Vec::new();
    let mut changes: Vec<BanChange> = Vec::new();
    let mut i: usize = 0;
    assert(change_models(changes@) =~= goal.take(0));
    assert(views(appended@) =~= added_texts(goal.take(0)));
    while i < classifications.len()
        invariant
            i <= classifications@.len(),
            classifications@ == Seq::new(
                targets@.len(),
                |k: int| classified(existing@, targets@, k),
            ),
            goal == ban_changes(existing@, targets@),
            change_models(changes@) == goal.take(i as int),
            views(appended@) == added_texts(goal.take(i as int)),
        decreases classifications@.len() - i,
    {
        let ghost changes0 = changes@;
        let ghost appended0 = appended@;
        proof {
            assert(goal.take(i + 1).drop_last() =~= goal.take(i as int));
            assert(goal[i as int] == change_of(classifications@[i as int]));
        }
        match classifications[i] {
            BanClassification::Added(cidr) => {
                let text: String = cidr.to_text();
                appended.push(text.clone());
                assert(views(appended@) =~= views(appended0).push(cidr_text(cidr@)));
                changes.push(BanChange::Added(text));
            },
            BanClassification::AlreadyPresent(cidr) => {
                changes.push(BanChange::AlreadyPresent(cidr.to_text()));
            },
        }
        assert(change_models(changes@) =~= change_models(changes0).push(goal[i as int]));
        assert(goal.take(i + 1) =~= goal.take(i as int).push(goal[i as int]));
        i = i + 1;
    }
    assert(goal.take(i as int) =~= goal);
    BanPlan { appended, changes }
}

/// What a request does to the lines of a document: any invalid target prevents every addition;
/// usable targets are classified and the new ones are added.
pub open spec fn ban_plan_rule(
    parsed: ParsedInput,
    lines: Seq<LineModel>,
    plan: BanPlan,
) -> bool {
    if unusable(parsed) {
        plan.appended@.len() == 0 && plan.changes@.len() == 0
    } else {
        &&& change_models(plan.changes@) == ban_changes(entries_of(lines), parsed.targets@)
        &&& views(plan.appended@) == added_texts(change_models(plan.changes@))
    }
}

/// Plans the addition of the targets of a request; targets that cannot be used add nothing.
pub fn plan_ban_input(parsed: &ParsedInput, document: &BlocklistDocument) -> (plan: BanPlan)
    ensures
        ban_plan_rule(*parsed, line_models(document.lines@), plan),
{
    if is_unusable(parsed) {
        return BanPlan { appended: Vec::new(), changes: Vec::new() };
    }
    plan_ban(document, parsed.targets.as_slice())
}

// Unban -----------------------------------------------------------------------------------------

/// Mutation preview used to obtain the operator's partial-overlap decision.
#[derive(Debug, Clone, PartialEq, Eq)]
pub struct UnbanPreview {
    /// Operator-facing label for the direct target or source file.
    pub target_label: String,
    /// Number of valid, unique requested targets.
    pub requested_target_count: usize,
    /// Existing entries exactly matching at least one target.
    pub exact_entries: Vec<String>,
    /// Existing entries that overlap but do not exactly match a target.
    pub partial_entries: Vec<String>,
    /// Networks of the requested targets.
    pub targets: Vec<CanonicalCidr>,
}

/// Contents of a preview.
#[verifier::ext_equal]
pub struct PreviewModel {
    pub target_label: Seq<char>,
    pub requested_target_count: nat,
    pub exact_entries: Seq<Seq<char>>,
    pub partial_entries: Seq<Seq<char>>,
    pub targets: Seq<CanonicalCidr>,
}

impl View for UnbanPreview {
    type V = PreviewModel;

    open spec fn view(&self) -> PreviewModel {
        PreviewModel {
            target_label: self.target_label@,
            requested_target_count: self.requested_target_count as nat,
            exact_entries: views(self.exact_entries@),
            partial_entries: views(self.partial_entries@),
            targets: self.targets@,
        }
    }
}

/// Result of read-only unban preparation.
#[derive(Debug, Clone, PartialEq, Eq)]
pub struct UnbanPreparation {
    /// Preview to apply when input was usable.
    pub preview: Option<UnbanPreview>,
    /// Invalid input strings; any invalid target prevents mutation.
    pub invalid_targets: Vec<String>,
    /// Whether file input contained no targets.
    pub empty_file: bool,
}

impl Default for UnbanPreparation {
    fn default() -> (preparation: UnbanPreparation)
        ensures
            preparation.preview is None,
            preparation.invalid_targets@.len() == 0,
            !preparation.empty_file,
    {
        UnbanPreparation { preview: None, invalid_targets: Vec::new(), empty_file: false }
    }
}

/// Operator decision controlling removal of partially overlapping entries.
#[derive(Debug, Clone, Copy, PartialEq, Eq)]
pub struct UnbanDecision {
    /// Whether partial overlaps should be removed along with exact matches.
    pub remove_partial: bool,
}

/// Result of applying a prepared unban decision.
#[derive(Debug, Clone, PartialEq, Eq)]
pub struct UnbanOutcome {
    /// Operator-facing label from the preview.
    pub target_label: String,
    /// Number of valid, unique requested targets.
    pub requested_target_count: usize,
    /// Number of exact entries removed.
    pub removed_exact: usize,
    /// Number of partial-overlap entries removed.
    pub removed_partial: usize,
    /// Whether the preview contained any partial overlaps.
    pub had_partial_matches: bool,
}

impl UnbanOutcome {
    /// Returns the total number of blocklist entries removed.
    pub fn total_removed(&self) -> (total: usize)
        requires
            self.removed_exact + self.removed_partial <= usize::MAX,
        ensures
            total == self.removed_exact + self.removed_partial,
    {
        self.removed_exact + self.removed_partial
    }
}

/// Entries of lines, in order; notes have none.
pub open spec fn line_entries(lines: Seq<LineModel>) -> Seq<Option<CanonicalCidr>> {
    lines.map_values(|l: LineModel| l.entry)
}

/// Entries of a document's lines.
pub fn document_line_entries(document: &BlocklistDocument) -> (entries: Vec<Option<CanonicalCidr>>)
    ensures
        entries@ == line_entries(line_models(document.lines@)),
{
    let ghost goal = line_entries(line_models(document.lines@));
    let mut entries: Vec<Option<CanonicalCidr>> = Vec::new();
    let mut i: usize = 0;
    while i < document.lines.len()
        invariant
            i <= document.lines@.len(),
            goal == line_entries(line_models(document.lines@)),
            entries@ == goal.take(i as int),
        decreases document.lines@.len() - i,
    {
        entries.push(document.lines[i].canonical);
        i = i + 1;
        assert(entries@ =~= goal.take(i as int));
    }
    assert(goal.take(i as int) =~= goal);
    entries
}

/// Texts of the chosen entries among the first `n`, in order.
pub open spec fn chosen_texts(
    entries: Seq<Option<CanonicalCidr>>,
    chosen: spec_fn(int) -> bool,
    n: nat,
) -> Seq<Seq<char>>
    decreases n,
{
    if n == 0 {
        Seq::empty()
    } else {
        let before = chosen_texts(entries, chosen, (n - 1) as nat);
        match entries[n - 1] {
            Some(cidr) => if chosen(n - 1) {
                before.push(cidr_text(cidr@))
            } else {
                before
            },
            None => before,
        }
    }
}

/// Indexes in strictly ascending order.
spec fn ascending_indexes(indexes: Seq<usize>) -> bool {
    forall|a: int, b: int| 0 <= a < b < indexes.len() ==> #[trigger] indexes[a] < #[trigger] indexes[b]
}

/// The first `next` indexes lie below `i` and the others do not.
spec fn passed(indexes: Seq<usize>, next: int, i: int) -> bool {
    &&& 0 <= next <= indexes.len()
    &&& forall|a: int| 0 <= a < next ==> (#[trigger] indexes[a]) < i
    &&& forall|a: int| next <= a < indexes.len() ==> (#[trigger] indexes[a]) >= i
}

/// Whether ascending indexes hold the index `i`; `next` has passed the indexes below it and then
/// passes it too.
fn take_index(indexes: &Vec<usize>, next: &mut usize, i: usize) -> (found: bool)
    requires
        ascending_indexes(indexes@),
        passed(indexes@, *old(next) as int, i as int),
    ensures
        found == indexes@.contains(i),
        passed(indexes@, *final(next) as int, i + 1),
{
    let at: usize = *next;
    if at < indexes.len() && indexes[at] == i {
        assert(indexes@[at as int] == i);
        *next = at + 1;
        return true;
    }
    assert forall|a: int| at <= a < indexes@.len() implies (#[trigger] indexes@[a]) >= i + 1 by {
        assert(a == at || indexes@[at as int] < indexes@[a]);
    }
    false
}

/// A selection holds an index exactly when it is chosen.
pub proof fn lemma_selects_contains(
    indexes: Seq<usize>,
    n: nat,
    chosen: spec_fn(int) -> bool,
    i: usize,
)
    requires
        selects(indexes, n, chosen),
        i < n,
    ensures
        indexes.contains(i) <==> chosen(i as int),
{
    if indexes.contains(i) {
        let a = choose|a: int| 0 <= a < indexes.len() && indexes[a] == i;
        assert(chosen(indexes[a] as int));
    }
    if chosen(i as int) {
        let a = choose|a: int| 0 <= a < indexes.len() && #[trigger] indexes[a] == i as int;
        assert(indexes[a] == i);
    }
}

fn entries_for_indexes(
    document: &BlocklistDocument,
    indexes: &Vec<usize>,
    chosen: Ghost<spec_fn(int) -> bool>,
) -> (texts: Vec<String>)
    requires
        selects(indexes@, document.lines@.len(), chosen@),
    ensures
        views(texts@) == chosen_texts(
            line_entries(line_models(document.lines@)),
            chosen@,
            document.lines@.len(),
        ),
{
    let ghost entries = line_entries(line_models(document.lines@));
    let mut texts: Vec<String> = Vec::new();
    let mut next: usize = 0;
    let mut i: usize = 0;
    assert(views(texts@) =~= Seq::empty());
    while i < document.lines.len()
        invariant
            i <= document.lines@.len(),
            passed(indexes@, next as int, i as int),
            entries == line_entries(line_models(document.lines@)),
            selects(indexes@, document.lines@.len(), chosen@),
            views(texts@) == chosen_texts(entries, chosen@, i as nat),
        decreases document.lines@.len() - i,
    {
        let ghost before = texts@;
        proof {
            lemma_selects_contains(indexes@, document.lines@.len(), chosen@, i);
            assert(entries[i as int] == document.lines@[i as int].canonical);
        }
        if take_index(indexes, &mut next, i) {
            if let Some(cidr) = document.lines[i].canonical {
                texts.push(cidr.to_text());
                assert(views(texts@) =~= views(before).push(cidr_text(cidr@)));
            }
        }
        i = i + 1;
    }
    texts
}

/// `sorted` holds the texts in ascending order.
pub open spec fn sorted_texts(texts: Seq<Seq<char>>, sorted: Seq<String>) -> bool {
    exists|unsorted: Seq<String>| #[trigger] views(unsorted) == texts && stably_sorted(
        unsorted,
        sorted,
    )
}

/// Label of a request: the canonical target, or the number of targets of a file.
pub open spec fn label_of(input: BlocklistInput, targets: Seq<CanonicalCidr>) -> Seq<char> {
    match input {
        BlocklistInput::Single(value) => if targets.len() > 0 {
            cidr_text(targets[0]@)
        } else {
            value@
        },
        BlocklistInput::File(_) => decimal(targets.len()) + " file target(s)"@,
    }
}

/// The preview of removing the targets from the lines.
pub open spec fn preview_rule(
    input: BlocklistInput,
    targets: Seq<CanonicalCidr>,
    lines: Seq<LineModel>,
    preview: UnbanPreview,
) -> bool {
    let entries = line_entries(lines);
    &&& preview.target_label@ == label_of(input, targets)
    &&& preview.requested_target_count == targets.to_set().len()
    &&& preview.targets@ == targets
    &&& sorted_texts(
        chosen_texts(entries, |i: int| exactly_matched(entries, targets, i), lines.len()),
        preview.exact_entries@,
    )
    &&& sorted_texts(
        chosen_texts(entries, |i: int| partially_matched(entries, targets, i), lines.len()),
        preview.partial_entries@,
    )
}

/// Counts networks, a repeated one once.
fn count_distinct(cidrs: &Vec<CanonicalCidr>) -> (count: usize)
    ensures
        count == cidrs@.to_set().len(),
{
    let unique: Vec<CanonicalCidr> = sort_distinct(copy_cidrs(cidrs));
    proof {
        assert(unique@.no_duplicates()) by {
            assert forall|i: int, j: int|
                0 <= i < unique@.len() && 0 <= j < unique@.len() && i != j implies unique@[i]
                != unique@[j] by {
                if i < j {
                    assert(unique@[i] != unique@[j]);
                } else {
                    assert(unique@[j] != unique@[i]);
                }
            }
        }
        unique@.unique_seq_to_set();
        assert(unique@.to_set() =~= cidrs@.to_set());
    }
    unique.len()
}

/// Builds the preview of removing targets from a document.
pub fn build_preview(
    input: &BlocklistInput,
    targets: Vec<CanonicalCidr>,
    document: &BlocklistDocument,
) -> (preview: UnbanPreview)
    ensures
        preview_rule(*input, targets@, line_models(document.lines@), preview),
{
    let entries: Vec<Option<CanonicalCidr>> = document_line_entries(document);
    let plan: UnbanIndexPlan = plan_unban_many(entries.as_slice(), targets.as_slice());
    let ghost exact = |i: int| exactly_matched(entries@, targets@, i);
    let ghost partial = |i: int| partially_matched(entries@, targets@, i);
    let exact_texts: Vec<String> = entries_for_indexes(
        document,
        &plan.exact_indexes,
        Ghost(exact),
    );
    let partial_texts: Vec<String> = entries_for_indexes(
        document,
        &plan.partial_indexes,
        Ghost(partial),
    );
    let ghost exact_unsorted = exact_texts@;
    let ghost partial_unsorted = partial_texts@;
    let exact_entries: Vec<String> = sort_stable(exact_texts);
    let partial_entries: Vec<String> = sort_stable(partial_texts);
    proof {
        assert(views(exact_unsorted) == chosen_texts(entries@, exact, entries@.len()));
        assert(views(partial_unsorted) == chosen_texts(entries@, partial, entries@.len()));
    }
    let target_label: String = match input {
        BlocklistInput::Single(value) => {
            if targets.len() > 0 {
                targets[0].to_text()
            } else {
                value.clone()
            }
        },
        BlocklistInput::File(_) => {
            let mut label: String = decimal_text(targets.len() as u128);
            label.append(" file target(s)");
            label
        },
    };
    let requested_target_count: usize = count_distinct(&targets);
    UnbanPreview {
        target_label,
        requested_target_count,
        exact_entries,
        partial_entries,
        targets,
    }
}

fn same_texts(a: &Vec<String>, b: &Vec<String>) -> (same: bool)
    ensures
        same == (views(a@) == views(b@)),
{
    if a.len() != b.len() {
        assert(views(a@).len() != views(b@).len());
        return false;
    }
    let mut i: usize = 0;
    while i < a.len()
        invariant
            i <= a@.len(),
            a@.len() == b@.len(),
            forall|k: int| 0 <= k < i ==> (#[trigger] a@[k])@ == b@[k]@,
        decreases a@.len() - i,
    {
        if !same_text(a[i].as_str(), b[i].as_str()) {
            assert(views(a@)[i as int] != views(b@)[i as int]);
            return false;
        }
        i = i + 1;
    }
    assert(views(a@) =~= views(b@));
    true
}

/// Whether two lists hold the same networks in the same order.
pub fn same_cidrs(a: &Vec<CanonicalCidr>, b: &Vec<CanonicalCidr>) -> (same: bool)
    ensures
        same == (a@ == b@),
{
    if a.len() != b.len() {
        return false;
    }
    let mut i: usize = 0;
    while i < a.len()
        invariant
            i <= a@.len(),
            a@.len() == b@.len(),
            forall|k: int| 0 <= k < i ==> #[trigger] a@[k] == b@[k],
        decreases a@.len() - i,
    {
        if a[i] != b[i] {
            assert(a@[i as int] != b@[i as int]);
            return false;
        }
        i = i + 1;
    }
    assert(a@ =~= b@);
    true
}

/// Whether two previews have the same contents.
pub fn same_preview(a: &UnbanPreview, b: &UnbanPreview) -> (same: bool)
    ensures
        same == (a@ == b@),
{
    let same: bool = same_text(a.target_label.as_str(), b.target_label.as_str())
        && a.requested_target_count == b.requested_target_count && same_texts(
        &a.exact_entries,
        &b.exact_entries,
    ) && same_texts(&a.partial_entries, &b.partial_entries) && same_cidrs(&a.targets, &b.targets);
    assert(same ==> a@ =~= b@);
    same
}

/// Texts of the first `n` lines that are not dropped, in order.
pub open spec fn kept_texts(
    lines: Seq<LineModel>,
    dropped: spec_fn(int) -> bool,
    n: nat,
) -> Seq<Seq<char>>
    decreases n,
{
    if n == 0 {
        Seq::empty()
    } else if dropped(n - 1) {
        kept_texts(lines, dropped, (n - 1) as nat)
    } else {
        kept_texts(lines, dropped, (n - 1) as nat).push(lines[n - 1].text)
    }
}

/// The lines that an unban drops: exact matches, and partial ones where that was decided.
pub open spec fn unban_drops(
    entries: Seq<Option<CanonicalCidr>>,
    targets: Seq<CanonicalCidr>,
    remove_partial: bool,
) -> spec_fn(int) -> bool {
    |i: int|
        exactly_matched(entries, targets, i) || (remove_partial && partially_matched(
            entries,
            targets,
            i,
        ))
}

/// `count` of the first `n` indexes are chosen.
pub open spec fn counts(count: nat, n: nat, chosen: spec_fn(int) -> bool) -> bool {
    exists|indexes: Seq<usize>| #[trigger] selects(indexes, n, chosen) && indexes.len() == count
}

/// What an approved unban does to the document.
pub struct UnbanPlan {
    /// Lines to write; none where nothing is removed.
    pub kept_lines: Option<Vec<String>>,
    /// Outcome to report.
    pub outcome: UnbanOutcome,
}

/// The effect of an approved preview on lines that still match it.
pub open spec fn unban_rule(
    preview: UnbanPreview,
    remove_partial: bool,
    lines: Seq<LineModel>,
    plan: UnbanPlan,
) -> bool {
    let entries = line_entries(lines);
    let targets = preview.targets@;
    let dropped = unban_drops(entries, targets, remove_partial);
    let partial = |i: int| partially_matched(entries, targets, i);
    &&& match plan.kept_lines {
        Some(kept) => {
            &&& views(kept@) == kept_texts(lines, dropped, lines.len())
            &&& exists|i: int| 0 <= i < lines.len() && #[trigger] dropped(i)
        },
        None => forall|i: int| 0 <= i < lines.len() ==> !#[trigger] dropped(i),
    }
    &&& plan.outcome.target_label@ == preview.target_label@
    &&& plan.outcome.requested_target_count == preview.requested_target_count
    &&& counts(
        plan.outcome.removed_exact as nat,
        lines.len(),
        |i: int| exactly_matched(entries, targets, i),
    )
    &&& if remove_partial {
        counts(plan.outcome.removed_partial as nat, lines.len(), partial)
    } else {
        plan.outcome.removed_partial == 0
    }
    &&& plan.outcome.had_partial_matches <==> exists|i: int|
        0 <= i < lines.len() && #[trigger] partial(i)
}

fn lines_without(
    document: &BlocklistDocument,
    removed: &Vec<usize>,
    also_removed: &Vec<usize>,
    dropped: Ghost<spec_fn(int) -> bool>,
) -> (kept: Vec<String>)
    requires
        ascending_indexes(removed@),
        ascending_indexes(also_removed@),
        forall|i: usize|
            0 <= i < document.lines@.len() ==> (#[trigger] removed@.contains(i)
                || also_removed@.contains(i) <==> dropped@(i as int)),
    ensures
        views(kept@) == kept_texts(
            line_models(document.lines@),
            dropped@,
            document.lines@.len(),
        ),
{
    let ghost lines = line_models(document.lines@);
    let mut kept: Vec<String> = Vec::new();
    let mut next: usize = 0;
    let mut also_next: usize = 0;
    let mut i: usize = 0;
    assert(views(kept@) =~= Seq::empty());
    while i < document.lines.len()
        invariant
            i <= document.lines@.len(),
            ascending_indexes(removed@),
            ascending_indexes(also_removed@),
            passed(removed@, next as int, i as int),
            passed(also_removed@, also_next as int, i as int),
            lines == line_models(document.lines@),
            forall|i: usize|
                0 <= i < document.lines@.len() ==> (#[trigger] removed@.contains(i)
                    || also_removed@.contains(i) <==> dropped@(i as int)),
            views(kept@) == kept_texts(lines, dropped@, i as nat),
        decreases document.lines@.len() - i,
    {
        let ghost before = kept@;
        let taken: bool = take_index(removed, &mut next, i);
        let also_taken: bool = take_index(also_removed, &mut also_next, i);
        assert(taken == removed@.contains(i));
        assert(taken || also_taken <==> dropped@(i as int));
        if !taken && !also_taken {
            kept.push(document.lines[i].original.clone());
            assert(views(kept@) =~= views(before).push(lines[i as int].text));
        }
        i = i + 1;
    }
    kept
}

/// Plans an approved removal.
///
/// Returns [`AppError::BlocklistChanged`] when the preview of the current document differs from
/// the approved one.
pub fn plan_approved_unban(
    input: &BlocklistInput,
    preview: &UnbanPreview,
    decision: &UnbanDecision,
    document: &BlocklistDocument,
) -> (plan: Result<UnbanPlan, AppError>)
    ensures
        exists|current: UnbanPreview|
            {
                &&& #[trigger] preview_rule(
                    *input,
                    preview.targets@,
                    line_models(document.lines@),
                    current,
                )
                &&& if current@ == preview@ {
                    plan is Ok && unban_rule(
                        *preview,
                        decision.remove_partial,
                        line_models(document.lines@),
                        plan->Ok_0,
                    )
                } else {
                    plan == Err::<UnbanPlan, AppError>(AppError::BlocklistChanged)
                }
            },
{
    let targets: Vec<CanonicalCidr> = copy_cidrs(&preview.targets);
    let current: UnbanPreview = build_preview(input, targets, document);
    if !same_preview(&current, preview) {
        return Err(AppError::BlocklistChanged);
    }
    let ghost lines = line_models(document.lines@);
    let entries: Vec<Option<CanonicalCidr>> = document_line_entries(document);
    let plan: UnbanIndexPlan = plan_unban_many(entries.as_slice(), preview.targets.as_slice());
    let ghost exact = |i: int| exactly_matched(entries@, preview.targets@, i);
    let ghost partial = |i: int| partially_matched(entries@, preview.targets@, i);
    let ghost dropped = unban_drops(entries@, preview.targets@, decision.remove_partial);
    let removed_exact: usize = plan.exact_indexes.len();
    let partial_count: usize = plan.partial_indexes.len();
    let ghost partial_indexes = plan.partial_indexes@;
    let also_removed: Vec<usize> = if decision.remove_partial {
        plan.partial_indexes
    } else {
        Vec::new()
    };
    proof {
        assert forall|i: usize| 0 <= i < document.lines@.len() implies (
        #[trigger] plan.exact_indexes@.contains(i) || also_removed@.contains(i) <==> dropped(
            i as int,
        )) by {
            lemma_selects_contains(plan.exact_indexes@, lines.len(), exact, i);
            lemma_selects_contains(partial_indexes, lines.len(), partial, i);
        }
        if removed_exact > 0 {
            assert(exact(plan.exact_indexes@[0] as int));
            assert(dropped(plan.exact_indexes@[0] as int));
        }
        if partial_count > 0 {
            assert(partial(partial_indexes[0] as int));
            if decision.remove_partial {
                assert(dropped(partial_indexes[0] as int));
            }
        }
        assert forall|i: int| 0 <= i < lines.len() && #[trigger] partial(i) implies partial_count
            > 0 by {
            assert(i <= usize::MAX);
            lemma_selects_contains(partial_indexes, lines.len(), partial, i as usize);
        }
        assert forall|i: int| 0 <= i < lines.len() && #[trigger] dropped(i) implies removed_exact
            > 0 || (decision.remove_partial && partial_count > 0) by {
            lemma_selects_contains(plan.exact_indexes@, lines.len(), exact, i as usize);
            lemma_selects_contains(partial_indexes, lines.len(), partial, i as usize);
            if exact(i) {
                assert(plan.exact_indexes@.contains(i as usize));
            } else {
                assert(partial(i));
            }
        }
    }
    let kept_lines: Option<Vec<String>> = if removed_exact > 0 || also_removed.len() > 0 {
        Some(lines_without(document, &plan.exact_indexes, &also_removed, Ghost(dropped)))
    } else {
        None
    };
    let outcome: UnbanOutcome = UnbanOutcome {
        target_label: preview.target_label.clone(),
        requested_target_count: preview.requested_target_count,
        removed_exact,
        removed_partial: also_removed.len(),
        had_partial_matches: partial_count > 0,
    };
    let result: UnbanPlan = UnbanPlan { kept_lines, outcome };
    proof {
        assert(selects(plan.exact_indexes@, lines.len(), exact));
        assert(selects(partial_indexes, lines.len(), partial));
        assert(unban_rule(*preview, decision.remove_partial, lines, result));
    }
    Ok(result)
}

/// Copies networks.
pub fn copy_cidrs(cidrs: &Vec<CanonicalCidr>) -> (copy: Vec<CanonicalCidr>)
    ensures
        copy@ == cidrs@,
{
    let mut copy: Vec<CanonicalCidr> = Vec::with_capacity(cidrs.len());
    let mut i: usize = 0;
    while i < cidrs.len()
        invariant
            i <= cidrs@.len(),
            copy@ == cidrs@.take(i as int),
        decreases cidrs@.len() - i,
    {
        copy.push(cidrs[i]);
        i = i + 1;
        assert(copy@ =~= cidrs@.take(i as int));
    }
    assert(cidrs@.take(i as int) =~= cidrs@);
    copy
}

/// Lines that remain when the lines equal to a duplicate are dropped, and how many were dropped.
pub struct DuplicateRemoval {
    /// Remaining lines, in order.
    pub kept_lines: Vec<String>,
    /// Number of dropped lines.
    pub removed: usize,
}

/// Drops the lines of a document that hold exactly one of the networks.
pub fn plan_duplicate_removal(document: &BlocklistDocument, duplicates: &[CanonicalCidr]) -> (plan:
    DuplicateRemoval)
    ensures
        ({
            let lines = line_models(document.lines@);
            let entries = line_entries(lines);
            let dropped = |i: int| exactly_matched(entries, duplicates@, i);
            &&& views(plan.kept_lines@) == kept_texts(lines, dropped, lines.len())
            &&& plan.removed == lines.len() - plan.kept_lines@.len()
        }),
{
    let entries: Vec<Option<CanonicalCidr>> = document_line_entries(document);
    let indexes: Vec<usize> = exact_match_indexes(entries.as_slice(), duplicates);
    let ghost dropped = |i: int| exactly_matched(entries@, duplicates@, i);
    let none: Vec<usize> = Vec::new();
    proof {
        assert forall|i: usize| 0 <= i < document.lines@.len() implies (
        #[trigger] indexes@.contains(i) || none@.contains(i) <==> dropped(i as int)) by {
            lemma_selects_contains(indexes@, document.lines@.len(), dropped, i);
        }
    }
    let kept_lines: Vec<String> = lines_without(document, &indexes, &none, Ghost(dropped));
    proof {
        lemma_kept_len(line_models(document.lines@), dropped, document.lines@.len());
        assert(views(kept_lines@).len() == kept_lines@.len());
    }
    let removed: usize = document.lines.len() - kept_lines.len();
    DuplicateRemoval { kept_lines, removed }
}

proof fn lemma_kept_len(lines: Seq<LineModel>, dropped: spec_fn(int) -> bool, n: nat)
    ensures
        kept_texts(lines, dropped, n).len() <= n,
    decreases n,
{
    if n > 0 {
        lemma_kept_len(lines, dropped, (n - 1) as nat);
    }
}

} // verus!
