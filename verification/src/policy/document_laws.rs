//! What the lines of a blocklist mean, and how networks are ordered.

use crate::policy::blocklist::{
    classified, first_invalid, is_note, line_entry, line_valid, parsed_lines, reports_line,
    BanClassification, InvalidBlocklistLine, LineModel,
};
use crate::policy::cidr_order::sorted_distinct;
use crate::policy::cidr_text::{parse_non_strict, parse_strict, parse_texts, parse_token, CidrModel};
use crate::policy::lookup::model_le;
use crate::policy::network_text_laws::{
    all_space, law_strict_reading_takes_the_only_word, lemma_end_bound, lemma_skip_space,
    lemma_token_chars,
};
use crate::policy::network_types::{AddressFamily, CanonicalCidr};
use crate::text::{is_space, lemma_trim_end_shape, trim_end, trim_start};
use vstd::prelude::*;

verus! {

// Lines -----------------------------------------------------------------------------------------

/// A line of a blocklist is a note exactly when it is blank or its first character behind white
/// space is a `#`; every note is accepted and holds no entry.
pub proof fn law_notes_are_blank_or_start_with_a_hash(
    lead: Seq<char>,
    first: char,
    rest: Seq<char>,
)
    requires
        all_space(lead),
        !is_space(first),
    ensures
        is_note(lead),
        line_valid(lead),
        line_entry(lead) is None,
        is_note(lead + seq![first] + rest) <==> first == '#',
        first == '#' ==> line_valid(lead + seq![first] + rest) && line_entry(
            lead + seq![first] + rest,
        ) is None,
{
    let body = seq![first] + rest;
    assert(lead + seq![first] + rest =~= lead + body);
    lemma_skip_space(lead, body);
    assert(trim_start(body) == body);
    lemma_trim_end_shape(body);
    lemma_end_bound(body, 0);
    assert(trim_end(body)[0] == first);
    assert(lead =~= lead + Seq::<char>::empty());
    lemma_skip_space(lead, Seq::empty());
    assert(trim_start(Seq::<char>::empty()) =~= Seq::<char>::empty());
    assert(trim_end(Seq::<char>::empty()) =~= Seq::<char>::empty());
}

/// A line that holds the text of a network and white space around it has that network as entry; a
/// line that is no note and does not read as one network is refused.
pub proof fn law_lines_hold_the_network_they_spell(
    lead: Seq<char>,
    word: Seq<char>,
    tail: Seq<char>,
    model: CidrModel,
)
    requires
        all_space(lead),
        all_space(tail),
        parse_token(word) == Some(model),
    ensures
        line_valid(lead + word + tail),
        line_entry(lead + word + tail) == Some(model),
{
    lemma_token_chars(word);
    let rest = word.drop_first() + tail;
    assert(lead + word + tail =~= lead + seq![word[0]] + rest);
    law_notes_are_blank_or_start_with_a_hash(lead, word[0], rest);
    law_strict_reading_takes_the_only_word(lead, word, tail);
}

/// A line is accepted exactly when it is a note or reads as one network.
pub proof fn law_other_lines_are_refused(line: Seq<char>)
    ensures
        line_valid(line) <==> is_note(line) || parse_strict(line) is Some,
        !is_note(line) ==> line_entry(line) == parse_strict(line),
{
}

/// The line that is reported is the first that is refused, counted from one, with what it holds.
pub proof fn law_first_refused_line_is_reported(
    texts: Seq<Seq<char>>,
    error: InvalidBlocklistLine,
)
    requires
        reports_line(error, texts),
    ensures
        1 <= error.line_number <= texts.len(),
        error.content@ == texts[error.line_number - 1],
        !is_note(error.content@) && parse_strict(error.content@) is None,
        forall|k: int|
            0 <= k < error.line_number - 1 ==> is_note(#[trigger] texts[k]) || parse_strict(
                texts[k],
            ) is Some,
{
    let i = choose|i: int| #[trigger]
        first_invalid(texts, i) && error.line_number == i + 1 && error.content@ == texts[i];
    assert forall|k: int| 0 <= k < error.line_number - 1 implies is_note(#[trigger] texts[k])
        || parse_strict(texts[k]) is Some by {
        assert(line_valid(texts[k]));
    }
}

/// A document has one line for each line of its text, in order.
pub proof fn law_document_lines_are_those_of_the_text(
    texts: Seq<Seq<char>>,
    lines: Seq<LineModel>,
    i: int,
)
    requires
        parsed_lines(texts, lines),
        0 <= i < texts.len(),
    ensures
        lines.len() == texts.len(),
        lines[i].text == texts[i],
        is_note(texts[i]) ==> lines[i].entry is None,
        !is_note(texts[i]) ==> lines[i].entry is Some && parse_strict(texts[i]) == Some(
            lines[i].entry->0@,
        ),
{
    assert(lines[i].text == texts[i]);
}

/// A target is present where it is an entry, or an earlier target is the same network; an entry
/// that merely overlaps it does not make it present.
pub proof fn law_only_equal_networks_are_present(
    existing: Seq<CanonicalCidr>,
    targets: Seq<CanonicalCidr>,
    i: int,
)
    requires
        0 <= i < targets.len(),
    ensures
        classified(existing, targets, i) == BanClassification::AlreadyPresent(targets[i])
            <==> existing.contains(targets[i]) || exists|k: int|
            0 <= k < i && #[trigger] targets[k] == targets[i],
        classified(existing, targets, i) == BanClassification::Added(targets[i]) || classified(
            existing,
            targets,
            i,
        ) == BanClassification::AlreadyPresent(targets[i]),
{
    let earlier = targets.take(i);
    if earlier.contains(targets[i]) {
        let k = choose|k: int| 0 <= k < earlier.len() && earlier[k] == targets[i];
        assert(targets[k] == targets[i]);
    }
    if exists|k: int| 0 <= k < i && #[trigger] targets[k] == targets[i] {
        let k = choose|k: int| 0 <= k < i && #[trigger] targets[k] == targets[i];
        assert(earlier[k] == targets[i]);
    }
}

/// The networks of a list of texts are those that the texts start with, in order; texts without one
/// are passed over.
pub proof fn law_texts_give_their_networks_in_order(texts: Seq<Seq<char>>, last: Seq<char>)
    ensures
        parse_texts(Seq::empty()).len() == 0,
        parse_texts(texts.push(last)) == match parse_non_strict(last) {
            Some(model) => parse_texts(texts).push(model),
            None => parse_texts(texts),
        },
{
    assert(texts.push(last).drop_last() =~= texts);
}

// Order -----------------------------------------------------------------------------------------

/// IPv4 networks come before IPv6 ones, lower addresses before higher ones, and of two networks at
/// one address the wider comes first.
pub proof fn law_networks_are_ordered_by_family_address_and_width(a: CidrModel, b: CidrModel)
    ensures
        a.family == AddressFamily::Ipv4 && b.family == AddressFamily::Ipv6 ==> model_le(a, b)
            && !model_le(b, a),
        a.family == b.family && a.block.base < b.block.base ==> model_le(a, b) && !model_le(b, a),
        a.family == b.family && a.block.base == b.block.base && a.block.prefix < b.block.prefix
            ==> model_le(a, b) && !model_le(b, a),
        model_le(a, a),
{
}

/// A sorted list of distinct networks holds each of them once, and each comes before those that
/// are behind it.
pub proof fn law_sorted_networks_are_distinct(
    all: Seq<CanonicalCidr>,
    unique: Seq<CanonicalCidr>,
    i: int,
    j: int,
)
    requires
        sorted_distinct(all, unique),
        0 <= i < j < unique.len(),
    ensures
        unique[i] != unique[j],
        model_le(unique[i]@, unique[j]@),
        all.contains(unique[i]),
{
    assert(unique.contains(unique[i]));
}

} // verus!
