//! Contents of the local blocklist file and of its fast-state marker.

use crate::numerals::{decimal, decimal_text, read_signed_decimal, signed_decimal};
use crate::policy::blocklist::{
    canonical_text, canonicalize_blocklist, document_text, line_models, line_valid, parsed_lines,
    reports_line, BlocklistDocument, InvalidBlocklistLine, LineModel,
};
use crate::text::{
    from_chars, is_space, is_space_char, join_strings, lines, same_text, to_chars, views,
};
use crate::workflow::error::AppError;
use vstd::prelude::*;

verus! {

/// Largest blocklist file that is read, in bytes.
pub const BLOCKLIST_READ_LIMIT: usize = 16_777_216;

/// Largest target file that is read, in bytes.
pub const BLOCKLIST_TARGET_FILE_READ_LIMIT: usize = 2_097_152;

/// Version of the fast-state marker.
pub const BLOCKLIST_FAST_STATE_VERSION: &'static str = "v1";

/// Largest fast-state marker that is read, in bytes.
pub const BLOCKLIST_FAST_STATE_READ_LIMIT: usize = 1024;

// Contents --------------------------------------------------------------------------------------

/// Entries with a line feed behind each.
pub open spec fn entry_lines(entries: Seq<Seq<char>>) -> Seq<char>
    decreases entries.len(),
{
    if entries.len() == 0 {
        Seq::empty()
    } else {
        entry_lines(entries.drop_last()) + entries.last().push('\n')
    }
}

/// Contents with entries appended; a last line without a line feed gets one first.
pub open spec fn appended(
    contents: Seq<char>,
    entries: Seq<Seq<char>>,
    has_content: bool,
    trailing_newline: bool,
) -> Seq<char> {
    let base = if has_content && !trailing_newline {
        contents.push('\n')
    } else {
        contents
    };
    base + entry_lines(entries)
}

/// Appends canonical entries while preserving the document's newline structure.
pub fn append_entries(
    contents: String,
    entries: &Vec<String>,
    has_content: bool,
    trailing_newline: bool,
) -> (text: String)
    ensures
        text@ == appended(contents@, views(entries@), has_content, trailing_newline),
{
    let ghost all = views(entries@);
    let mut text: String = contents;
    if has_content && !trailing_newline {
        text.push('\n');
    }
    let ghost base = text@;
    let mut i: usize = 0;
    assert(base + entry_lines(all.take(0)) =~= base);
    while i < entries.len()
        invariant
            i <= entries@.len(),
            all == views(entries@),
            text@ == base + entry_lines(all.take(i as int)),
        decreases entries@.len() - i,
    {
        proof {
            assert(all.take(i + 1).drop_last() =~= all.take(i as int));
            assert(all.take(i + 1).last() == entries@[i as int]@);
        }
        text.append(entries[i].as_str());
        text.push('\n');
        assert(text@ =~= base + entry_lines(all.take(i + 1)));
        i = i + 1;
    }
    assert(all.take(i as int) =~= all);
    text
}

/// Renders lines as the contents of a blocklist file.
pub fn lines_contents(all: &Vec<String>) -> (text: String)
    ensures
        text@ == document_text(views(all@)),
{
    let mut text: String = join_strings(all, '\n');
    if !text.as_str().is_empty() {
        text.push('\n');
    }
    text
}

/// A blocklist line that could not be parsed, as a workflow failure.
pub fn map_invalid_blocklist_line(path: &String, error: InvalidBlocklistLine) -> (mapped: AppError)
    ensures
        mapped matches AppError::BlocklistParseLine { path: shown, line, content } && shown@
            == path@ && line == error.line_number && content@ == error.content@,
{
    AppError::BlocklistParseLine {
        path: path.clone(),
        line: error.line_number,
        content: error.content,
    }
}

/// The failure of contents with an invalid line.
pub open spec fn invalid_line(path: Seq<char>, contents: Seq<char>, error: AppError) -> bool {
    exists|found: InvalidBlocklistLine| #[trigger]
        reports_line(found, lines(contents)) && (error matches AppError::BlocklistParseLine {
            path: shown,
            line,
            content,
        } && shown@ == path && line == found.line_number && content@ == found.content@)
}

/// Parses the contents of a blocklist file; a file that does not exist is an empty document.
pub fn document_from_contents(path: &String, contents: &Option<String>) -> (document: Result<
    BlocklistDocument,
    AppError,
>)
    ensures
        match contents {
            None => document matches Ok(found) && found.lines@.len() == 0 && !found.has_content
                && !found.trailing_newline,
            Some(text) => match document {
                Ok(found) => parsed_lines(lines(text@), line_models(found.lines@))
                    && found.has_content == (text@.len() > 0) && found.trailing_newline == (
                text@.len() > 0 && text@.last() == '\n'),
                Err(error) => invalid_line(path@, text@, error),
            },
        },
        contents matches Some(text) ==> (document is Ok <==> (forall|i: int|
            0 <= i < lines(text@).len() ==> line_valid(#[trigger] lines(text@)[i]))),
{
    match contents {
        None => Ok(
            BlocklistDocument { lines: Vec::new(), has_content: false, trailing_newline: false },
        ),
        Some(text) => match BlocklistDocument::parse(text.as_str()) {
            Ok(document) => Ok(document),
            Err(error) => {
                assert(reports_line(error, lines(text@)));
                Err(map_invalid_blocklist_line(path, error))
            },
        },
    }
}

/// Canonical contents to write, where they differ from those of the file.
pub fn plan_normalization(path: &String, original: &String) -> (normalized: Result<
    Option<String>,
    AppError,
>)
    ensures
        normalized is Ok <==> (forall|i: int|
            0 <= i < lines(original@).len() ==> line_valid(#[trigger] lines(original@)[i])),
        match normalized {
            Err(error) => invalid_line(path@, original@, error),
            Ok(change) => exists|parsed: Seq<LineModel>|
                parsed_lines(lines(original@), parsed) && (match change {
                    Some(text) => text@ == canonical_text(parsed) && text@ != original@,
                    None => original@ == #[trigger] canonical_text(parsed),
                }),
        },
{
    match canonicalize_blocklist(original.as_str()) {
        Err(error) => {
            assert(reports_line(error, lines(original@)));
            Err(map_invalid_blocklist_line(path, error))
        },
        Ok(text) => {
            if same_text(text.as_str(), original.as_str()) {
                Ok(None)
            } else {
                Ok(Some(text))
            }
        },
    }
}

// Fast state ------------------------------------------------------------------------------------

/// Outcome of a normalization that may be skipped.
#[derive(Debug, Clone, Copy, PartialEq, Eq, Structural)]
pub enum BlocklistNormalizeResult {
    /// There is no blocklist.
    MissingBlocklist,
    /// The blocklist is as it was left by the last normalization.
    SkippedUnchanged,
    /// The blocklist was normalized.
    Checked,
}

/// Size and modification time of a normalized blocklist.
#[derive(Debug, Clone, Copy, PartialEq, Eq, Structural)]
pub struct BlocklistFastState {
    /// Size in bytes.
    pub byte_len: u64,
    /// Modification time in nanoseconds since the epoch.
    pub modified_nanos: u128,
}

/// Words of a text: its longest runs of characters that are not white space.
pub open spec fn words(s: Seq<char>) -> Seq<Seq<char>>
    decreases s.len(),
{
    if s.len() == 0 {
        Seq::empty()
    } else if is_space(s.last()) {
        words(s.drop_last())
    } else {
        let before = words(s.drop_last());
        if s.len() > 1 && !is_space(s[s.len() - 2]) {
            before.drop_last().push(before.last().push(s.last()))
        } else {
            before.push(seq![s.last()])
        }
    }
}

/// Splits a text into words.
pub fn split_words(text: &str) -> (out: Vec<String>)
    ensures
        views(out@) == words(text@),
{
    let chars: Vec<char> = to_chars(text);
    let mut out: Vec<String> = Vec::new();
    let mut word: Vec<char> = Vec::new();
    let mut i: usize = 0;
    let ghost s = text@;
    assert(s.take(0) =~= Seq::<char>::empty());
    assert(views(out@) =~= words(s.take(0)));
    while i < chars.len()
        invariant
            i <= chars@.len(),
            chars@ == s,
            word@.len() > 0 <==> (i > 0 && !is_space(s[i - 1])),
            word@.len() > 0 ==> words(s.take(i as int)) == views(out@).push(word@),
            word@.len() == 0 ==> words(s.take(i as int)) == views(out@),
        decreases chars@.len() - i,
    {
        let c: char = chars[i];
        let ghost next = s.take(i + 1);
        let ghost out0 = out@;
        let ghost word0 = word@;
        proof {
            assert(next.drop_last() =~= s.take(i as int));
            assert(next.last() == c);
            if i > 0 {
                assert(next[next.len() - 2] == s[i - 1]);
            }
        }
        if is_space_char(c) {
            if word.len() > 0 {
                out.push(from_chars(word.as_slice()));
                word = Vec::new();
                assert(views(out@) =~= views(out0).push(word0));
            }
        } else {
            word.push(c);
            proof {
                if word0.len() > 0 {
                    let before = views(out0).push(word0);
                    assert(before.drop_last() =~= views(out0));
                    assert(words(next) =~= views(out0).push(word@));
                } else {
                    assert(word@ =~= seq![c]);
                }
            }
        }
        i = i + 1;
    }
    assert(s.take(i as int) =~= s);
    if word.len() > 0 {
        let ghost out0 = out@;
        out.push(from_chars(word.as_slice()));
        assert(views(out@) =~= views(out0).push(word@));
    }
    out
}

/// The state that a marker holds.
pub open spec fn marker_state(contents: Seq<char>) -> Option<BlocklistFastState> {
    let parts = words(contents);
    if parts.len() != 3 || parts[0] != BLOCKLIST_FAST_STATE_VERSION@ {
        None
    } else {
        match (
            signed_decimal(parts[1], u64::MAX as nat),
            signed_decimal(parts[2], u128::MAX as nat),
        ) {
            (Some(size), Some(time)) => Some(
                BlocklistFastState { byte_len: size as u64, modified_nanos: time as u128 },
            ),
            _ => None,
        }
    }
}

/// The marker of a state.
pub open spec fn marker_text(state: BlocklistFastState) -> Seq<char> {
    BLOCKLIST_FAST_STATE_VERSION@ + " "@ + decimal(state.byte_len as nat) + " "@ + decimal(
        state.modified_nanos as nat,
    ) + "\n"@
}

impl BlocklistFastState {
    /// Reads a marker; anything but three words of the current version is no state.
    pub fn parse(contents: &str) -> (state: Option<BlocklistFastState>)
        ensures
            state == marker_state(contents@),
    {
        let parts: Vec<String> = split_words(contents);
        assert(views(parts@).len() == parts@.len());
        if parts.len() != 3 {
            return None;
        }
        if !same_text(parts[0].as_str(), BLOCKLIST_FAST_STATE_VERSION) {
            return None;
        }
        let size: Vec<char> = to_chars(parts[1].as_str());
        let time: Vec<char> = to_chars(parts[2].as_str());
        match (
            read_signed_decimal(size.as_slice(), u64::MAX as u128),
            read_signed_decimal(time.as_slice(), u128::MAX),
        ) {
            (Some(byte_len), Some(modified_nanos)) => Some(
                BlocklistFastState { byte_len: byte_len as u64, modified_nanos },
            ),
            _ => None,
        }
    }

    /// Renders the marker.
    pub fn serialize(self) -> (text: String)
        ensures
            text@ == marker_text(self),
    {
        let mut text: String = BLOCKLIST_FAST_STATE_VERSION.to_owned();
        text.append(" ");
        text.append(decimal_text(self.byte_len as u128).as_str());
        text.append(" ");
        text.append(decimal_text(self.modified_nanos).as_str());
        text.append("\n");
        text
    }
}

/// What is known of a blocklist before it is normalized: whether it exists, its state, and the
/// state that the marker holds.
pub fn skip_normalization(
    blocklist_exists: bool,
    current: Option<BlocklistFastState>,
    cached: Option<BlocklistFastState>,
) -> (skipped: Option<BlocklistNormalizeResult>)
    ensures
        skipped == if !blocklist_exists {
            Some(BlocklistNormalizeResult::MissingBlocklist)
        } else if current is Some && current == cached {
            Some(BlocklistNormalizeResult::SkippedUnchanged)
        } else {
            None
        },
{
    if !blocklist_exists {
        return Some(BlocklistNormalizeResult::MissingBlocklist);
    }
    match (current, cached) {
        (Some(now), Some(then)) => if now == then {
            Some(BlocklistNormalizeResult::SkippedUnchanged)
        } else {
            None
        },
        _ => None,
    }
}

} // verus!
