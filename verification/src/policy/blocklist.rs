//! Deterministic parsing and mutation planning for the local blocklist.

use crate::ordering::selects;
use crate::policy::cidr_order::{ascending_holds, first_occurrences, sort_distinct, sorted_distinct};
use crate::policy::cidr_text::{cidr_text, parse_ip_cidr_strict, parse_strict, reads, CidrModel};
use crate::policy::network::{
    cidr_overlaps, collapse_ipv4, collapse_ipv6, collapse_of_v4, collapse_of_v6, ipv4_members,
    ipv6_members, lemma_collapse_of_v4, lemma_collapse_of_v6, networks_overlap, split_by_family,
};
use crate::policy::network_types::{AddressFamily, CanonicalCidr, FamilyCidrs, Ipv4Cidr, Ipv6Cidr};
use crate::text::{
    from_chars, join_strings, join_with, lines, split_lines, to_chars, trim, trim_chars, trimmed,
    views,
};
use vstd::prelude::*;
use vstd::slice::slice_to_vec;

verus! {

/// Error returned when an operator-supplied ban or unban target is invalid.
#[derive(Debug, Clone, Copy, PartialEq, Eq, Structural)]
pub enum BlocklistTargetParseError {
    /// The target is not exactly one valid IP address or CIDR.
    Invalid,
}

/// A non-comment blocklist line that could not be parsed.
#[derive(Debug, Clone, PartialEq, Eq)]
pub struct InvalidBlocklistLine {
    /// One-based line number in the original document.
    pub line_number: usize,
    /// Original invalid line contents.
    pub content: String,
}

/// One original blocklist line and its optional canonical CIDR.
#[derive(Debug, Clone, PartialEq, Eq)]
pub struct BlocklistLine {
    /// Unmodified line contents.
    pub original: String,
    /// Parsed CIDR, or `None` for a blank or comment line.
    pub canonical: Option<CanonicalCidr>,
}

/// Parsed blocklist contents with enough structure to render canonical output.
#[derive(Debug, Clone, PartialEq, Eq)]
pub struct BlocklistDocument {
    /// Original lines paired with any canonical CIDR they contain.
    pub lines: Vec<BlocklistLine>,
    /// Whether the source document contained any bytes.
    pub has_content: bool,
    /// Whether the source document ended in a newline.
    pub trailing_newline: bool,
}

/// Text and entry of a line.
pub struct LineModel {
    pub text: Seq<char>,
    pub entry: Option<CanonicalCidr>,
}

impl View for BlocklistLine {
    type V = LineModel;

    open spec fn view(&self) -> LineModel {
        LineModel { text: self.original@, entry: self.canonical }
    }
}

/// Models of a sequence of lines.
pub open spec fn line_models(lines: Seq<BlocklistLine>) -> Seq<LineModel> {
    Seq::new(lines.len(), |i: int| lines[i]@)
}

/// A blank line, or a comment.
pub open spec fn is_note(s: Seq<char>) -> bool {
    trim(s).len() == 0 || trim(s)[0] == '#'
}

/// A note, or a single network.
pub open spec fn line_valid(s: Seq<char>) -> bool {
    is_note(s) || parse_strict(s) is Some
}

/// Network on a line; notes hold none.
pub open spec fn line_entry(s: Seq<char>) -> Option<CidrModel> {
    if is_note(s) {
        None
    } else {
        parse_strict(s)
    }
}

/// Entry of a line matches its text.
pub open spec fn entry_matches(entry: Option<CanonicalCidr>, s: Seq<char>) -> bool {
    reads(entry, line_entry(s))
}

/// Number of leading notes.
pub open spec fn header_len(lines: Seq<LineModel>) -> nat
    decreases lines.len(),
{
    if lines.len() > 0 && lines[0].entry is None && is_note(lines[0].text) {
        1 + header_len(lines.drop_first())
    } else {
        0
    }
}

/// Leading notes, trimmed.
pub open spec fn header(lines: Seq<LineModel>) -> Seq<Seq<char>> {
    Seq::new(header_len(lines), |i: int| trim(lines[i].text))
}

/// Entries of the lines, in order.
pub open spec fn entries_of(lines: Seq<LineModel>) -> Seq<CanonicalCidr>
    decreases lines.len(),
{
    if lines.len() == 0 {
        Seq::empty()
    } else {
        match lines.last().entry {
            Some(cidr) => entries_of(lines.drop_last()).push(cidr),
            None => entries_of(lines.drop_last()),
        }
    }
}

/// Written IPv4 networks.
pub open spec fn ipv4_lines(cidrs: Seq<Ipv4Cidr>) -> Seq<Seq<char>> {
    Seq::new(
        cidrs.len(),
        |i: int| cidr_text(CidrModel { family: AddressFamily::Ipv4, block: cidrs[i]@ }),
    )
}

/// Written IPv6 networks.
pub open spec fn ipv6_lines(cidrs: Seq<Ipv6Cidr>) -> Seq<Seq<char>> {
    Seq::new(
        cidrs.len(),
        |i: int| cidr_text(CidrModel { family: AddressFamily::Ipv6, block: cidrs[i]@ }),
    )
}

/// Minimal networks of a list of entries, written, IPv4 first.
pub open spec fn canonical_lines(entries: Seq<CanonicalCidr>) -> Seq<Seq<char>> {
    ipv4_lines(collapse_of_v4(ipv4_members(entries))) + ipv6_lines(
        collapse_of_v6(ipv6_members(entries)),
    )
}

/// Header and entry lines with a blank line between them; a blank line that ends a lone header is
/// dropped.
pub open spec fn arranged(header: Seq<Seq<char>>, body: Seq<Seq<char>>) -> Seq<Seq<char>> {
    if body.len() > 0 {
        if header.len() > 0 && header.last().len() > 0 {
            header.push(Seq::empty()) + body
        } else {
            header + body
        }
    } else if header.len() > 0 && header.last().len() == 0 {
        header.drop_last()
    } else {
        header
    }
}

/// Lines as a document: every line ended by a line feed; no document at all for no text.
pub open spec fn document_text(all: Seq<Seq<char>>) -> Seq<char> {
    let joined = join_with(all, '\n');
    if joined.len() == 0 {
        joined
    } else {
        joined.push('\n')
    }
}

/// Canonical text of parsed lines.
pub open spec fn canonical_text(lines: Seq<LineModel>) -> Seq<char> {
    document_text(arranged(header(lines), canonical_lines(entries_of(lines))))
}

/// First index of a line that is neither a note nor a network.
pub open spec fn first_invalid(texts: Seq<Seq<char>>, i: int) -> bool {
    &&& 0 <= i < texts.len()
    &&& !line_valid(texts[i])
    &&& forall|k: int| 0 <= k < i ==> line_valid(#[trigger] texts[k])
}

/// `lines` are the parsed lines of a text.
pub open spec fn parsed_lines(texts: Seq<Seq<char>>, lines: Seq<LineModel>) -> bool {
    &&& lines.len() == texts.len()
    &&& forall|i: int|
        0 <= i < lines.len() ==> (#[trigger] lines[i]).text == texts[i] && line_valid(texts[i])
            && entry_matches(lines[i].entry, texts[i])
}

/// A line that could not be parsed is reported with its number and text.
pub open spec fn reports_line(error: InvalidBlocklistLine, texts: Seq<Seq<char>>) -> bool {
    exists|i: int| #[trigger]
        first_invalid(texts, i) && error.line_number == i + 1 && error.content@ == texts[i]
}

/// Whether a line is blank or a comment.
pub fn is_note_line(line: &str) -> (note: bool)
    ensures
        note == is_note(line@),
{
    let chars: Vec<char> = to_chars(line);
    let t = trim_chars(chars.as_slice());
    t.len() == 0 || t[0] == '#'
}

/// Reads the network of one line; notes hold none, other text is reported.
pub fn parse_blocklist_entry(line: &str, line_number: usize) -> (entry: Result<
    Option<CanonicalCidr>,
    InvalidBlocklistLine,
>)
    ensures
        entry is Ok <==> line_valid(line@),
        entry matches Ok(e) ==> entry_matches(e, line@),
        entry matches Err(error) ==> error.line_number == line_number && error.content@ == line@,
{
    if is_note_line(line) {
        return Ok(None);
    }
    match parse_ip_cidr_strict(line) {
        Some(cidr) => Ok(Some(cidr)),
        None => {
            let chars: Vec<char> = to_chars(line);
            Err(InvalidBlocklistLine { line_number, content: from_chars(chars.as_slice()) })
        },
    }
}

impl BlocklistLine {
    /// Parses one line; the header ends with the first line that is no note.
    pub fn parse(line: &str, line_number: usize, in_header: &mut bool) -> (parsed: Result<
        BlocklistLine,
        InvalidBlocklistLine,
    >)
        ensures
            *final(in_header) == (*old(in_header) && is_note(line@)),
            parsed is Ok <==> line_valid(line@),
            parsed matches Ok(p) ==> p.original@ == line@ && entry_matches(p.canonical, line@),
            parsed matches Err(error) ==> error.line_number == line_number && error.content@
                == line@,
    {
        if *in_header && !is_note_line(line) {
            *in_header = false;
        }
        match parse_blocklist_entry(line, line_number) {
            Ok(canonical) => {
                let chars: Vec<char> = to_chars(line);
                Ok(BlocklistLine { original: from_chars(chars.as_slice()), canonical })
            },
            Err(error) => Err(error),
        }
    }
}

/// Writes the minimal networks of a list of entries, IPv4 first.
pub fn canonical_entry_lines(entries: &[CanonicalCidr]) -> (out: Vec<String>)
    ensures
        views(out@) == canonical_lines(entries@),
{
    let families: FamilyCidrs = split_by_family(entries);
    let v4: Vec<Ipv4Cidr> = collapse_ipv4(families.ipv4.as_slice());
    let v6: Vec<Ipv6Cidr> = collapse_ipv6(families.ipv6.as_slice());
    proof {
        lemma_collapse_of_v4(families.ipv4@, v4@);
        lemma_collapse_of_v6(families.ipv6@, v6@);
    }
    let mut out: Vec<String> = Vec::new();
    let mut i: usize = 0;
    while i < v4.len()
        invariant
            i <= v4@.len(),
            out@.len() == i,
            forall|k: int| 0 <= k < i ==> (#[trigger] out@[k])@ == ipv4_lines(v4@)[k],
        decreases v4@.len() - i,
    {
        let text: String = CanonicalCidr::V4(v4[i]).to_text();
        out.push(text);
        i += 1;
    }
    let mut j: usize = 0;
    while j < v6.len()
        invariant
            j <= v6@.len(),
            out@.len() == v4@.len() + j,
            forall|k: int| 0 <= k < v4@.len() ==> (#[trigger] out@[k])@ == ipv4_lines(v4@)[k],
            forall|k: int|
                v4@.len() <= k < out@.len() ==> (#[trigger] out@[k])@ == ipv6_lines(v6@)[k
                    - v4@.len()],
        decreases v6@.len() - j,
    {
        let text: String = CanonicalCidr::V6(v6[j]).to_text();
        out.push(text);
        j += 1;
    }
    assert(views(out@) =~= canonical_lines(entries@));
    out
}

/// The header ends at the first line that is no note.
pub proof fn lemma_header_len_split(lines: Seq<LineModel>, i: int)
    requires
        0 <= i <= lines.len(),
        forall|k: int|
            0 <= k < i ==> (#[trigger] lines[k]).entry is None && is_note(lines[k].text),
        i < lines.len() ==> !(lines[i].entry is None && is_note(lines[i].text)),
    ensures
        header_len(lines) == i,
    decreases i,
{
    if i > 0 {
        let rest = lines.drop_first();
        assert forall|k: int| 0 <= k < i - 1 implies (#[trigger] rest[k]).entry is None && is_note(
            rest[k].text,
        ) by {
            assert(rest[k] == lines[k + 1]);
        }
        assert(lines[0].entry is None && is_note(lines[0].text));
        lemma_header_len_split(rest, i - 1);
    }
}

impl BlocklistDocument {
    /// Parses a line-oriented blocklist while preserving its original structure.
    ///
    /// Returns the first [`InvalidBlocklistLine`] when a non-comment entry is not a valid IP or
    /// CIDR.
    pub fn parse(contents: &str) -> (parsed: Result<BlocklistDocument, InvalidBlocklistLine>)
        ensures
            parsed is Ok <==> (forall|i: int|
                0 <= i < lines(contents@).len() ==> line_valid(#[trigger] lines(contents@)[i])),
            parsed matches Ok(document) ==> parsed_lines(
                lines(contents@),
                line_models(document.lines@),
            ) && document.has_content == (contents@.len() > 0) && document.trailing_newline == (
            contents@.len() > 0 && contents@.last() == '\n'),
            parsed matches Err(error) ==> reports_line(error, lines(contents@)),
    {
        let texts: Vec<String> = split_lines(contents);
        let ghost all = lines(contents@);
        let mut parsed: Vec<BlocklistLine> = Vec::new();
        let mut in_header: bool = true;
        let mut i: usize = 0;
        while i < texts.len()
            invariant
                i <= texts@.len(),
                views(texts@) == all,
                parsed@.len() == i,
                forall|k: int|
                    #![trigger parsed@[k]]
                    0 <= k < i ==> parsed@[k].original@ == all[k] && line_valid(all[k])
                        && entry_matches(parsed@[k].canonical, all[k]),
                all == lines(contents@),
            decreases texts@.len() - i,
        {
            assert(all[i as int] == texts@[i as int]@);
            match BlocklistLine::parse(texts[i].as_str(), i + 1, &mut in_header) {
                Ok(line) => parsed.push(line),
                Err(error) => {
                    proof {
                        assert forall|k: int| 0 <= k < i implies line_valid(#[trigger] all[k]) by {
                            assert(parsed@[k].original@ == all[k]);
                        }
                        assert(first_invalid(all, i as int));
                    }
                    return Err(error);
                },
            }
            i += 1;
        }
        let chars: Vec<char> = to_chars(contents);
        let document = BlocklistDocument {
            lines: parsed,
            has_content: chars.len() > 0,
            trailing_newline: chars.len() > 0 && chars[chars.len() - 1] == '\n',
        };
        proof {
            assert(views(texts@).len() == texts@.len());
            assert forall|k: int| 0 <= k < all.len() implies line_valid(#[trigger] all[k]) by {
                assert(parsed@[k].original@ == all[k]);
            }
            let ms = line_models(parsed@);
            assert forall|k: int| 0 <= k < ms.len() implies (#[trigger] ms[k]).text == all[k]
                && line_valid(all[k]) && entry_matches(ms[k].entry, all[k]) by {
                assert(ms[k] == parsed@[k]@);
            }
        }
        Ok(document)
    }

    /// Renders the preserved header followed by sorted, collapsed CIDRs.
    pub fn canonicalized_contents(&self) -> (text: String)
        ensures
            text@ == canonical_text(line_models(self.lines@)),
    {
        let ghost ms = line_models(self.lines@);
        let mut header_lines: Vec<String> = Vec::new();
        let mut entries: Vec<CanonicalCidr> = Vec::new();
        let mut in_header: bool = true;
        let mut i: usize = 0;
        assert(ms.take(0) =~= Seq::<LineModel>::empty());
        while i < self.lines.len()
            invariant
                i <= self.lines@.len(),
                ms == line_models(self.lines@),
                entries@ == entries_of(ms.take(i as int)),
                header_lines@.len() <= i,
                forall|k: int|
                    #![trigger ms[k]]
                    0 <= k < header_lines@.len() ==> ms[k].entry is None && is_note(ms[k].text)
                        && header_lines@[k]@ == trim(ms[k].text),
                in_header ==> header_lines@.len() == i,
                !in_header ==> header_len(ms) == header_lines@.len(),
            decreases self.lines@.len() - i,
        {
            let line = &self.lines[i];
            proof {
                assert(ms[i as int] == self.lines@[i as int]@);
                assert(ms.take(i as int + 1).drop_last() =~= ms.take(i as int));
                assert(ms.take(i as int + 1).last() == ms[i as int]);
            }
            if in_header {
                if line.canonical.is_none() && is_note_line(line.original.as_str()) {
                    header_lines.push(trimmed(line.original.as_str()));
                    i += 1;
                    continue;
                }
                proof {
                    lemma_header_len_split(ms, i as int);
                }
                in_header = false;
            }
            if let Some(cidr) = line.canonical {
                entries.push(cidr);
            }
            i += 1;
        }
        proof {
            assert(ms.take(i as int) =~= ms);
            if in_header {
                lemma_header_len_split(ms, i as int);
            }
            assert(views(header_lines@) =~= header(ms)) by {
                assert forall|k: int| 0 <= k < header_lines@.len() implies header_lines@[k]@
                    == header(ms)[k] by {
                    assert(header_lines@[k]@ == trim(ms[k].text));
                }
            }
        }
        let canonical_entries: Vec<String> = canonical_entry_lines(entries.as_slice());
        let ghost body = canonical_lines(entries@);
        let ghost head = header(ms);
        assert(views(canonical_entries@).len() == canonical_entries@.len());
        assert(views(header_lines@).len() == header_lines@.len());
        if canonical_entries.len() > 0 {
            if header_lines.len() > 0 && !is_blank(&header_lines[header_lines.len() - 1]) {
                let ghost before = header_lines@;
                header_lines.push(String::new());
                assert(views(header_lines@) =~= head.push(Seq::<char>::empty()));
            }
            let ghost before = header_lines@;
            let mut rest: Vec<String> = canonical_entries;
            header_lines.append(&mut rest);
            assert(views(header_lines@) =~= views(before) + body);
            assert(views(header_lines@) =~= arranged(head, body));
        } else if header_lines.len() > 0 && is_blank(&header_lines[header_lines.len() - 1]) {
            let _dropped = header_lines.pop();
            assert(views(header_lines@) =~= arranged(head, body));
        }
        let mut normalized: String = join_strings(&header_lines, '\n');
        if !is_blank(&normalized) {
            normalized.push('\n');
        }
        normalized
    }
}

/// Whether a string is empty.
fn is_blank(text: &String) -> (blank: bool)
    ensures
        blank == (text@.len() == 0),
{
    text.as_str().is_empty()
}

/// Parses, collapses, and renders blocklist contents in canonical order.
///
/// Returns the first [`InvalidBlocklistLine`] when a non-comment entry is not a valid IP or CIDR.
pub fn canonicalize_blocklist(contents: &str) -> (text: Result<String, InvalidBlocklistLine>)
    ensures
        text is Ok <==> (forall|i: int|
            0 <= i < lines(contents@).len() ==> line_valid(#[trigger] lines(contents@)[i])),
        text matches Ok(t) ==> exists|parsed: Seq<LineModel>|
            parsed_lines(lines(contents@), parsed) && t@ == #[trigger] canonical_text(parsed),
        text matches Err(error) ==> reports_line(error, lines(contents@)),
{
    match BlocklistDocument::parse(contents) {
        Ok(document) => Ok(document.canonicalized_contents()),
        Err(error) => Err(error),
    }
}

/// Result of comparing a requested ban target with the current blocklist.
#[derive(Debug, Clone, Copy, PartialEq, Eq, Structural)]
pub enum BanClassification {
    /// The target was not already present and should be added.
    Added(CanonicalCidr),
    /// The target is an exact duplicate of an existing or earlier requested entry.
    AlreadyPresent(CanonicalCidr),
}

/// Exact and overlapping line indexes affected by an unban request.
#[derive(Debug, Clone, PartialEq, Eq)]
pub struct UnbanIndexPlan {
    /// Zero-based indexes that exactly equal a requested target.
    pub exact_indexes: Vec<usize>,
    /// Zero-based indexes that overlap but do not exactly equal a target.
    pub partial_indexes: Vec<usize>,
}

impl Default for UnbanIndexPlan {
    fn default() -> (plan: UnbanIndexPlan)
        ensures
            plan.exact_indexes@.len() == 0,
            plan.partial_indexes@.len() == 0,
    {
        UnbanIndexPlan { exact_indexes: Vec::new(), partial_indexes: Vec::new() }
    }
}

/// Parses one operator-supplied blocklist target using strict token rules.
///
/// Returns [`BlocklistTargetParseError::Invalid`] when the input is not exactly one valid IP or
/// CIDR.
pub fn parse_blocklist_target(input: &str) -> (target: Result<
    CanonicalCidr,
    BlocklistTargetParseError,
>)
    ensures
        target is Ok <==> parse_strict(input@) is Some,
        target matches Ok(cidr) ==> parse_strict(input@) == Some(cidr@),
{
    match parse_ip_cidr_strict(input) {
        Some(cidr) => Ok(cidr),
        None => Err(BlocklistTargetParseError::Invalid),
    }
}

/// Classification of target `i`: present if listed already or requested before.
pub open spec fn classified(
    existing: Seq<CanonicalCidr>,
    targets: Seq<CanonicalCidr>,
    i: int,
) -> BanClassification {
    if existing.contains(targets[i]) || targets.take(i).contains(targets[i]) {
        BanClassification::AlreadyPresent(targets[i])
    } else {
        BanClassification::Added(targets[i])
    }
}

/// Classifies ban targets in input order, treating earlier new targets as present.
pub fn classify_ban_targets(existing: &[CanonicalCidr], targets: &[CanonicalCidr]) -> (outcomes:
    Vec<BanClassification>)
    ensures
        outcomes@ == Seq::new(targets@.len(), |i: int| classified(existing@, targets@, i)),
{
    let present: Vec<CanonicalCidr> = sort_distinct(slice_to_vec(existing));
    let first: Vec<bool> = first_occurrences(targets);
    let mut outcomes: Vec<BanClassification> = Vec::with_capacity(targets.len());
    let mut i: usize = 0;
    while i < targets.len()
        invariant
            i <= targets@.len(),
            sorted_distinct(existing@, present@),
            first@ == Seq::new(targets@.len(), |i: int| !targets@.take(i).contains(targets@[i])),
            outcomes@.len() == i,
            forall|k: int|
                0 <= k < i ==> #[trigger] outcomes@[k] == classified(existing@, targets@, k),
        decreases targets@.len() - i,
    {
        let target: CanonicalCidr = targets[i];
        assert(existing@.contains(target) <==> present@.contains(target));
        if ascending_holds(&present, target) || !first[i] {
            outcomes.push(BanClassification::AlreadyPresent(target));
        } else {
            outcomes.push(BanClassification::Added(target));
        }
        i += 1;
    }
    assert(outcomes@ =~= Seq::new(targets@.len(), |i: int| classified(existing@, targets@, i)));
    outcomes
}

/// Entry `i` equals a target.
pub open spec fn exactly_matched(
    entries: Seq<Option<CanonicalCidr>>,
    targets: Seq<CanonicalCidr>,
    i: int,
) -> bool {
    entries[i] matches Some(entry) && targets.contains(entry)
}

/// Entry `i` shares addresses with a target but equals none.
pub open spec fn partially_matched(
    entries: Seq<Option<CanonicalCidr>>,
    targets: Seq<CanonicalCidr>,
    i: int,
) -> bool {
    &&& !exactly_matched(entries, targets, i)
    &&& entries[i] is Some
    &&& exists|t: int|
        0 <= t < targets.len() && networks_overlap(entries[i]->0, #[trigger] targets[t])
}

/// Whether a network shares an address with one of a list.
fn overlaps_any(entry: CanonicalCidr, targets: &[CanonicalCidr]) -> (found: bool)
    ensures
        found == exists|t: int|
            0 <= t < targets@.len() && networks_overlap(entry, #[trigger] targets@[t]),
{
    let mut t: usize = 0;
    while t < targets.len()
        invariant
            t <= targets@.len(),
            forall|k: int| 0 <= k < t ==> !networks_overlap(entry, #[trigger] targets@[k]),
        decreases targets@.len() - t,
    {
        if cidr_overlaps(entry, targets[t]) {
            assert(networks_overlap(entry, targets@[t as int]));
            return true;
        }
        t += 1;
    }
    false
}

/// Plans removal of one target without mutating the parsed document.
pub fn plan_unban(entries: &[Option<CanonicalCidr>], target: CanonicalCidr) -> (plan:
    UnbanIndexPlan)
    ensures
        selects(
            plan.exact_indexes@,
            entries@.len(),
            |i: int| exactly_matched(entries@, seq![target], i),
        ),
        selects(
            plan.partial_indexes@,
            entries@.len(),
            |i: int| partially_matched(entries@, seq![target], i),
        ),
{
    let mut targets: Vec<CanonicalCidr> = Vec::new();
    targets.push(target);
    assert(targets@ =~= seq![target]);
    plan_unban_many(entries, targets.as_slice())
}

/// Plans exact removals and partial-overlap warnings for multiple targets.
///
/// Returned indexes are sorted and unique; exact matches are excluded from the partial list.
pub fn plan_unban_many(entries: &[Option<CanonicalCidr>], targets: &[CanonicalCidr]) -> (plan:
    UnbanIndexPlan)
    ensures
        selects(
            plan.exact_indexes@,
            entries@.len(),
            |i: int| exactly_matched(entries@, targets@, i),
        ),
        selects(
            plan.partial_indexes@,
            entries@.len(),
            |i: int| partially_matched(entries@, targets@, i),
        ),
{
    let wanted: Vec<CanonicalCidr> = sort_distinct(slice_to_vec(targets));
    let ghost exact = |i: int| exactly_matched(entries@, targets@, i);
    let ghost partial = |i: int| partially_matched(entries@, targets@, i);
    let mut exact_indexes: Vec<usize> = Vec::new();
    let mut partial_indexes: Vec<usize> = Vec::new();
    let mut i: usize = 0;
    while i < entries.len()
        invariant
            i <= entries@.len(),
            sorted_distinct(targets@, wanted@),
            exact == (|i: int| exactly_matched(entries@, targets@, i)),
            partial == (|i: int| partially_matched(entries@, targets@, i)),
            selects(exact_indexes@, i as nat, exact),
            selects(partial_indexes@, i as nat, partial),
        decreases entries@.len() - i,
    {
        let ghost exact_before = exact_indexes@;
        let ghost partial_before = partial_indexes@;
        if let Some(entry) = entries[i] {
            assert(targets@.contains(entry) <==> wanted@.contains(entry));
            if ascending_holds(&wanted, entry) {
                exact_indexes.push(i);
            } else if overlaps_any(entry, targets) {
                partial_indexes.push(i);
            }
        }
        proof {
            lemma_selects_next(exact_before, exact_indexes@, i, exact);
            lemma_selects_next(partial_before, partial_indexes@, i, partial);
        }
        i += 1;
    }
    UnbanIndexPlan { exact_indexes, partial_indexes }
}

/// Extending a selection by one index.
proof fn lemma_selects_next(
    before: Seq<usize>,
    after: Seq<usize>,
    i: usize,
    chosen: spec_fn(int) -> bool,
)
    requires
        selects(before, i as nat, chosen),
        after == (if chosen(i as int) {
            before.push(i)
        } else {
            before
        }),
    ensures
        selects(after, (i + 1) as nat, chosen),
{
    assert forall|a: int, b: int| 0 <= a < b < after.len() implies #[trigger] after[a]
        < #[trigger] after[b] by {
        assert(after[a] == before[a]);
        if b < before.len() {
            assert(after[b] == before[b]);
        }
    }
    assert forall|k: int|
        #![trigger chosen(k)]
        0 <= k < i + 1 && chosen(k) implies exists|a: int|
        0 <= a < after.len() && #[trigger] after[a] == k by {
        if k < i {
            let a = choose|a: int| 0 <= a < before.len() && #[trigger] before[a] == k;
            assert(after[a] == k);
        } else {
            assert(after[before.len() as int] == k);
        }
    }
    assert forall|a: int| 0 <= a < after.len() implies (#[trigger] after[a]) < i + 1 && chosen(
        after[a] as int,
    ) by {
        if a < before.len() {
            assert(after[a] == before[a]);
        }
    }
}

/// Returns sorted zero-based indexes exactly matching any requested target.
pub fn exact_match_indexes(entries: &[Option<CanonicalCidr>], targets: &[CanonicalCidr]) -> (indexes:
    Vec<usize>)
    ensures
        selects(indexes@, entries@.len(), |i: int| exactly_matched(entries@, targets@, i)),
{
    let wanted: Vec<CanonicalCidr> = sort_distinct(slice_to_vec(targets));
    let ghost exact = |i: int| exactly_matched(entries@, targets@, i);
    let mut indexes: Vec<usize> = Vec::new();
    let mut i: usize = 0;
    while i < entries.len()
        invariant
            i <= entries@.len(),
            sorted_distinct(targets@, wanted@),
            exact == (|i: int| exactly_matched(entries@, targets@, i)),
            selects(indexes@, i as nat, exact),
        decreases entries@.len() - i,
    {
        let ghost before = indexes@;
        if let Some(entry) = entries[i] {
            assert(targets@.contains(entry) <==> wanted@.contains(entry));
            if ascending_holds(&wanted, entry) {
                indexes.push(i);
            }
        }
        proof {
            lemma_selects_next(before, indexes@, i, exact);
        }
        i += 1;
    }
    indexes
}

} // verus!
