//! Normalization of the local blocklist with its fast-state marker: what follows from what is seen
//! of the two files.

use crate::adapter::blocklist_file::{
    invalid_line, marker_state, marker_text, plan_normalization, skip_normalization,
    BlocklistFastState, BlocklistNormalizeResult,
};
use crate::adapter::blocklist_laws::law_marker_reads_back;
use crate::adapter::cache_generation::option_text;
use crate::policy::blocklist::{canonical_text, line_valid, parsed_lines, LineModel};
use crate::policy::cidr_text::lemma_model_injective;
use crate::text::lines;
use crate::workflow::error::AppError;
use vstd::prelude::*;

verus! {

/// What a normalization does next.
#[derive(Debug)]
pub enum NormalizeAction {
    /// Look whether the blocklist exists, capture its state, and read the marker.
    Inspect,
    /// Read the blocklist.
    Read,
    /// Replace the contents of the blocklist.
    Write {
        /// Canonical contents.
        contents: String,
    },
    /// Capture the state of the blocklist.
    Capture,
    /// Replace the contents of the marker; a failure does not fail the normalization.
    Mark {
        /// Marker of the captured state.
        contents: String,
    },
    /// The normalization is over.
    Ended(Result<BlocklistNormalizeResult, AppError>),
}

/// What came of an action.
#[derive(Debug)]
pub enum NormalizeEvent {
    /// What there is before a normalization.
    Found {
        /// The blocklist exists.
        exists: bool,
        /// State of the blocklist, where it can be captured.
        current: Option<BlocklistFastState>,
        /// Contents of the marker, where it can be read.
        marker: Option<String>,
    },
    /// Contents of the blocklist; none where it no longer exists.
    Contents(Result<Option<String>, AppError>),
    /// The contents were replaced, or not.
    Written(Result<(), AppError>),
    /// State of the blocklist, where it can be captured.
    Captured(Option<BlocklistFastState>),
    /// Writing the marker was tried.
    Marked,
}

/// Every line can be read.
pub open spec fn readable(contents: Seq<char>) -> bool {
    forall|i: int| 0 <= i < lines(contents).len() ==> line_valid(#[trigger] lines(contents)[i])
}

/// The text is the canonical form of the contents.
pub open spec fn canonical_of(contents: Seq<char>, text: Seq<char>) -> bool {
    exists|parsed: Seq<LineModel>|
        parsed_lines(lines(contents), parsed) && text == #[trigger] canonical_text(parsed)
}

/// The state that a marker holds, where there is one.
pub open spec fn marked_state(marker: Option<Seq<char>>) -> Option<BlocklistFastState> {
    match marker {
        Some(text) => marker_state(text),
        None => None,
    }
}

/// The action after an event.
pub open spec fn action_rule(
    path: Seq<char>,
    event: NormalizeEvent,
    action: NormalizeAction,
) -> bool {
    match event {
        NormalizeEvent::Found { exists, current, marker } => if !exists {
            action == NormalizeAction::Ended(Ok(BlocklistNormalizeResult::MissingBlocklist))
        } else if current is Some && current == marked_state(option_text(marker)) {
            action == NormalizeAction::Ended(Ok(BlocklistNormalizeResult::SkippedUnchanged))
        } else {
            action is Read
        },
        NormalizeEvent::Contents(Err(error)) => action == NormalizeAction::Ended(Err(error)),
        NormalizeEvent::Contents(Ok(None)) => action is Capture,
        NormalizeEvent::Contents(Ok(Some(original))) => if !readable(original@) {
            action matches NormalizeAction::Ended(Err(error)) && invalid_line(
                path,
                original@,
                error,
            )
        } else if canonical_of(original@, original@) {
            action is Capture
        } else {
            action matches NormalizeAction::Write { contents } && canonical_of(
                original@,
                contents@,
            )
        },
        NormalizeEvent::Written(Err(error)) => action == NormalizeAction::Ended(Err(error)),
        NormalizeEvent::Written(Ok(_)) => action is Capture,
        NormalizeEvent::Captured(None) => action == NormalizeAction::Ended(
            Ok(BlocklistNormalizeResult::Checked),
        ),
        NormalizeEvent::Captured(Some(state)) => action matches NormalizeAction::Mark { contents }
            && contents@ == marker_text(state),
        NormalizeEvent::Marked => action == NormalizeAction::Ended(
            Ok(BlocklistNormalizeResult::Checked),
        ),
    }
}

/// Decides the action after an event.
pub fn next_action(path: &String, event: NormalizeEvent) -> (action: NormalizeAction)
    ensures
        action_rule(path@, event, action),
{
    match event {
        NormalizeEvent::Found { exists, current, marker } => {
            let cached: Option<BlocklistFastState> = match &marker {
                Some(text) => BlocklistFastState::parse(text.as_str()),
                None => None,
            };
            match skip_normalization(exists, current, cached) {
                Some(result) => NormalizeAction::Ended(Ok(result)),
                None => NormalizeAction::Read,
            }
        },
        NormalizeEvent::Contents(Err(error)) => NormalizeAction::Ended(Err(error)),
        NormalizeEvent::Contents(Ok(None)) => NormalizeAction::Capture,
        NormalizeEvent::Contents(Ok(Some(original))) => {
            match plan_normalization(path, &original) {
                Err(error) => NormalizeAction::Ended(Err(error)),
                Ok(Some(contents)) => {
                    proof {
                        lemma_canonical_unique(original@, contents@, original@);
                    }
                    NormalizeAction::Write { contents }
                },
                Ok(None) => NormalizeAction::Capture,
            }
        },
        NormalizeEvent::Written(Err(error)) => NormalizeAction::Ended(Err(error)),
        NormalizeEvent::Written(Ok(_)) => NormalizeAction::Capture,
        NormalizeEvent::Captured(None) => NormalizeAction::Ended(
            Ok(BlocklistNormalizeResult::Checked),
        ),
        NormalizeEvent::Captured(Some(state)) => NormalizeAction::Mark {
            contents: state.serialize(),
        },
        NormalizeEvent::Marked => NormalizeAction::Ended(Ok(BlocklistNormalizeResult::Checked)),
    }
}

/// Contents have one canonical form.
proof fn lemma_canonical_unique(contents: Seq<char>, a: Seq<char>, b: Seq<char>)
    ensures
        canonical_of(contents, a) && canonical_of(contents, b) ==> a == b,
{
    if canonical_of(contents, a) && canonical_of(contents, b) {
        let p = choose|p: Seq<LineModel>|
            parsed_lines(lines(contents), p) && a == #[trigger] canonical_text(p);
        let q = choose|q: Seq<LineModel>|
            parsed_lines(lines(contents), q) && b == #[trigger] canonical_text(q);
        assert forall|i: int| 0 <= i < p.len() implies p[i] == q[i] by {
            if let (Some(x), Some(y)) = (p[i].entry, q[i].entry) {
                lemma_model_injective(x, y);
            }
        }
        assert(p =~= q);
    }
}

// Runs ------------------------------------------------------------------------------------------

/// The two files of a normalization.
pub struct BlocklistFiles {
    /// Contents of the blocklist, where it exists.
    pub contents: Option<Seq<char>>,
    /// State of the blocklist, where it can be captured.
    pub state: Option<BlocklistFastState>,
    /// Contents of the marker, where it exists.
    pub marker: Option<Seq<char>>,
}

/// An action that was performed tells of the files before it and changes what it says. Files are
/// replaced whole or not at all; a blocklist that is replaced gets some state.
pub open spec fn performed(
    before: BlocklistFiles,
    action: NormalizeAction,
    event: NormalizeEvent,
    after: BlocklistFiles,
) -> bool {
    match action {
        NormalizeAction::Inspect => after == before && (event matches NormalizeEvent::Found {
            exists,
            current,
            marker,
        } && exists == before.contents is Some && current == before.state && option_text(marker)
            == before.marker),
        NormalizeAction::Read => after == before && (event matches NormalizeEvent::Contents(read)
            && (read matches Ok(contents) ==> option_text(contents) == before.contents)),
        NormalizeAction::Write { contents } => event matches NormalizeEvent::Written(written) && (
        match written {
            Ok(_) => after.contents == Some(contents@) && after.marker == before.marker,
            Err(_) => after == before,
        }),
        NormalizeAction::Capture => after == before && (event matches NormalizeEvent::Captured(
            state,
        ) && state == before.state),
        NormalizeAction::Mark { contents } => event is Marked && (after == before || after == (
        BlocklistFiles { marker: Some(contents@), ..before })),
        NormalizeAction::Ended(_) => false,
    }
}

/// A normalization: from an inspection, each action is performed and decides, by what came of it,
/// the next one, until the normalization is over.
pub open spec fn normalizes(
    path: Seq<char>,
    actions: Seq<NormalizeAction>,
    events: Seq<NormalizeEvent>,
    files: Seq<BlocklistFiles>,
    result: Result<BlocklistNormalizeResult, AppError>,
) -> bool {
    &&& actions.len() == events.len() + 1
    &&& files.len() == events.len() + 1
    &&& actions[0] is Inspect
    &&& actions.last() == NormalizeAction::Ended(result)
    &&& forall|i: int|
        #![trigger events[i]]
        0 <= i < events.len() ==> performed(files[i], actions[i], events[i], files[i + 1])
            && action_rule(path, events[i], actions[i + 1])
}

/// The marker was written in a normalization.
pub open spec fn marker_written(files: Seq<BlocklistFiles>) -> bool {
    files.last().state is Some && files.last().marker == Some(marker_text(files.last().state->0))
}

/// The steps of a normalization that checked the blocklist.
proof fn lemma_checked_run(
    path: Seq<char>,
    actions: Seq<NormalizeAction>,
    events: Seq<NormalizeEvent>,
    files: Seq<BlocklistFiles>,
    k: int,
)
    requires
        normalizes(path, actions, events, files, Ok(BlocklistNormalizeResult::Checked)),
        0 <= k < actions.len(),
    ensures
        ({
            let original = files[0].contents;
            let held = files[k].contents;
            match actions[k] {
                NormalizeAction::Inspect => files[k] == files[0] && k == 0,
                NormalizeAction::Read => original is Some && files[k] == files[0],
                NormalizeAction::Write { contents } => original is Some && held == original
                    && canonical_of(original->0, contents@),
                _ => original is Some && held is Some && canonical_of(original->0, held->0),
            }
        }),
    decreases k,
{
    if k > 0 {
        lemma_checked_run(path, actions, events, files, k - 1);
        let event = events[k - 1];
        assert(performed(files[k - 1], actions[k - 1], event, files[k]));
        assert(action_rule(path, event, actions[k]));
        if k < actions.len() - 1 {
            assert(performed(files[k], actions[k], events[k], files[k + 1]));
        }
    }
}

/// A normalization that checked the blocklist leaves it in its canonical form.
pub proof fn law_checked_blocklist_is_canonical(
    path: Seq<char>,
    actions: Seq<NormalizeAction>,
    events: Seq<NormalizeEvent>,
    files: Seq<BlocklistFiles>,
)
    requires
        normalizes(path, actions, events, files, Ok(BlocklistNormalizeResult::Checked)),
    ensures
        files[0].contents matches Some(original) && (files.last().contents matches Some(text)
            && canonical_of(original, text)),
{
    lemma_checked_run(path, actions, events, files, actions.len() - 1);
}

/// A normalization after one that checked the blocklist and wrote the marker is skipped, as long
/// as neither file has changed: both files stay as they are, and the blocklist holds the canonical
/// form of what it held before the first of the two.
pub proof fn law_second_normalization_is_skipped(
    path: Seq<char>,
    actions: Seq<NormalizeAction>,
    events: Seq<NormalizeEvent>,
    files: Seq<BlocklistFiles>,
    later_actions: Seq<NormalizeAction>,
    later_events: Seq<NormalizeEvent>,
    later_files: Seq<BlocklistFiles>,
    result: Result<BlocklistNormalizeResult, AppError>,
)
    requires
        normalizes(path, actions, events, files, Ok(BlocklistNormalizeResult::Checked)),
        marker_written(files),
        normalizes(path, later_actions, later_events, later_files, result),
        later_files[0] == files.last(),
    ensures
        result == Ok::<BlocklistNormalizeResult, AppError>(
            BlocklistNormalizeResult::SkippedUnchanged,
        ),
        later_files.last() == files.last(),
        files[0].contents matches Some(original) && (later_files.last().contents matches Some(text)
            && canonical_of(original, text)),
{
    law_checked_blocklist_is_canonical(path, actions, events, files);
    law_marker_reads_back(files.last().state->0);
    assert(performed(later_files[0], later_actions[0], later_events[0], later_files[1]));
    assert(action_rule(path, later_events[0], later_actions[1]));
    if later_events.len() > 1 {
        assert(performed(later_files[1], later_actions[1], later_events[1], later_files[2]));
    }
}

/// Without a blocklist there is nothing to normalize: no file is written, the marker neither.
pub proof fn law_missing_blocklist_is_left_alone(
    path: Seq<char>,
    actions: Seq<NormalizeAction>,
    events: Seq<NormalizeEvent>,
    files: Seq<BlocklistFiles>,
    result: Result<BlocklistNormalizeResult, AppError>,
)
    requires
        normalizes(path, actions, events, files, result),
        files[0].contents is None,
    ensures
        result == Ok::<BlocklistNormalizeResult, AppError>(
            BlocklistNormalizeResult::MissingBlocklist,
        ),
        files.last() == files[0],
{
    assert(performed(files[0], actions[0], events[0], files[1]));
    assert(action_rule(path, events[0], actions[1]));
    if events.len() > 1 {
        assert(performed(files[1], actions[1], events[1], files[2]));
    }
}

} // verus!
