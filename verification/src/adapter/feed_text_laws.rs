//! What the lines of a feed give.

use crate::adapter::blocklist_lines::{lemma_finished_line, lemma_lines_append};
use crate::adapter::remote_parse::{
    broken_limit, data_count, feed_item, feed_limit, feed_line, feed_networks, feed_outcome,
    feed_token, invalid_count, is_data, lemma_counts, lemma_distinct_step, lemma_limit_within_lines,
    lemma_within_limits, lists_networks, strip_marks, FeedItem, ParsedRemoteCidrs, RemoteFeedLimits,
    RemoteParseBudget,
};
use crate::policy::cidr_text::{models, parse_token, CidrModel};
use crate::policy::network_text_laws::{
    all_space, law_first_word_ends_at_white_space, law_lenient_reading_takes_the_first_word,
    lemma_end_bound, lemma_skip_space, lemma_token_chars,
};
use crate::policy::network_types::CanonicalCidr;
use crate::text::{
    index_of, is_space, lemma_index_of, lemma_index_of_unique, lemma_trim_end_shape, lemma_word_len,
    lines, trim_end, trim_start,
};
use vstd::prelude::*;

verus! {

/// Byte order marks and nothing else.
pub open spec fn all_marks(s: Seq<char>) -> bool {
    forall|i: int| 0 <= i < s.len() ==> #[trigger] s[i] == '\u{feff}'
}

proof fn lemma_strip_marks(marks: Seq<char>, rest: Seq<char>)
    requires
        all_marks(marks),
        rest.len() > 0 ==> rest[0] != '\u{feff}',
    ensures
        strip_marks(marks + rest) == rest,
    decreases marks.len(),
{
    let s = marks + rest;
    if marks.len() == 0 {
        assert(s =~= rest);
    } else {
        assert(s[0] == marks[0]);
        assert(s.drop_first() =~= marks.drop_first() + rest);
        assert forall|i: int| 0 <= i < marks.len() - 1 implies #[trigger] marks.drop_first()[i]
            == '\u{feff}' by {
            assert(marks.drop_first()[i] == marks[i + 1]);
        }
        lemma_strip_marks(marks.drop_first(), rest);
    }
}

/// What is left of a line that starts, behind marks and white space, with a character.
proof fn lemma_feed_line(marks: Seq<char>, lead: Seq<char>, body: Seq<char>, k: int)
    requires
        all_marks(marks),
        all_space(lead),
        0 <= k < body.len(),
        !is_space(body[0]),
        !is_space(body[k]),
        lead.len() > 0 || body[0] != '\u{feff}',
    ensures
        k < feed_line(marks + lead + body).len() <= body.len(),
        feed_line(marks + lead + body) == body.take(feed_line(marks + lead + body).len() as int),
{
    let s = lead + body;
    assert(marks + lead + body =~= marks + s);
    if lead.len() > 0 {
        assert(s[0] == lead[0]);
        assert(!is_space('\u{feff}'));
    } else {
        assert(s[0] == body[0]);
    }
    lemma_strip_marks(marks, s);
    lemma_skip_space(lead, body);
    assert(trim_start(body) == body);
    lemma_trim_end_shape(body);
    lemma_end_bound(body, k);
}

/// What a line gives is told by its first word: where that is a network, the line gives the
/// network, whatever follows it behind white space or a comma, a `#` included. Byte order marks
/// and white space in front make no difference.
pub proof fn law_line_gives_its_first_network(
    marks: Seq<char>,
    lead: Seq<char>,
    word: Seq<char>,
    rest: Seq<char>,
    model: CidrModel,
)
    requires
        all_marks(marks),
        all_space(lead),
        parse_token(word) == Some(model),
        rest.len() > 0 ==> is_space(rest[0]) || rest[0] == ',',
    ensures
        feed_item(marks + lead + word + rest) == FeedItem::Network(model),
        is_data(marks + lead + word + rest),
{
    let line = marks + lead + word + rest;
    let body = word + rest;
    assert(line =~= marks + lead + body);
    lemma_token_chars(word);
    let k = word.len() - 1;
    assert(body[0] == word[0]);
    assert(body[k] == word[k]);
    lemma_feed_line(marks, lead, body, k);
    let t = feed_line(line);
    lemma_index_of(t, ',');
    let n = index_of(t, ',') as int;
    assert(n >= word.len()) by {
        if n < word.len() {
            assert(t[n] == word[n]);
        }
    }
    let column = t.take(n);
    let tail = rest.take(n - word.len());
    assert(column =~= word + tail) by {
        assert(n <= t.len() <= body.len());
    }
    if rest.len() > 0 && rest[0] == ',' && n > word.len() {
        assert(t[word.len() as int] == rest[0]);
    }
    assert(column =~= Seq::<char>::empty() + word + tail);
    law_first_word_ends_at_white_space(Seq::empty(), word, tail);
    assert(word =~= Seq::<char>::empty() + word + Seq::<char>::empty());
    law_lenient_reading_takes_the_first_word(Seq::empty(), word, Seq::empty());
    assert(t[0] == word[0]);
}

/// A line is left out as a note only where its first character, behind marks and white space, is a
/// `#`; every other line that is not blank counts as data, and adds a network or counts as invalid
/// unless its first column is empty.
pub proof fn law_only_lines_that_start_with_a_hash_are_notes(
    marks: Seq<char>,
    lead: Seq<char>,
    first: char,
    rest: Seq<char>,
)
    requires
        all_marks(marks),
        all_space(lead),
        !is_space(first),
        lead.len() > 0 || first != '\u{feff}',
    ensures
        is_data(marks + lead + seq![first] + rest) <==> first != '#',
        first == '#' ==> feed_item(marks + lead + seq![first] + rest) is Nothing,
        first != '#' && first != ',' ==> !(feed_item(marks + lead + seq![first] + rest) is Nothing),
        first == ',' ==> feed_item(marks + lead + seq![first] + rest) is Nothing,
{
    let line = marks + lead + seq![first] + rest;
    let body = seq![first] + rest;
    assert(line =~= marks + lead + body);
    lemma_feed_line(marks, lead, body, 0);
    let t = feed_line(line);
    assert(t[0] == first);
    if first != '#' {
        lemma_index_of(t, ',');
        let n = index_of(t, ',') as int;
        let column = t.take(n);
        if first == ',' {
            lemma_index_of_unique(t, ',', 0);
            assert(column =~= Seq::<char>::empty());
            assert(trim_start(column) =~= column);
            assert(feed_token(line).len() == 0);
        } else {
            assert(n > 0);
            assert(column[0] == first);
            assert(trim_start(column) == column);
            lemma_word_len(column);
            assert(feed_token(line).len() >= 1);
        }
    }
}

/// Blank lines give nothing and count as nothing.
pub proof fn law_blank_lines_give_nothing(marks: Seq<char>, lead: Seq<char>)
    requires
        all_marks(marks),
        all_space(lead),
    ensures
        !is_data(marks + lead),
        feed_item(marks + lead) is Nothing,
{
    if lead.len() > 0 {
        assert(is_space(lead[0]));
        assert(!is_space('\u{feff}'));
    }
    lemma_strip_marks(marks, lead);
    assert(lead =~= lead + Seq::<char>::empty());
    lemma_skip_space(lead, Seq::empty());
    assert(trim_start(Seq::<char>::empty()) =~= Seq::<char>::empty());
    assert(trim_end(Seq::<char>::empty()) =~= Seq::<char>::empty());
}

/// A text has a line for each line feed, without it and without a carriage return in front of it,
/// and one for what follows the last line feed.
pub proof fn law_lines_end_at_line_feeds(line: Seq<char>, rest: Seq<char>)
    requires
        forall|i: int| 0 <= i < line.len() ==> #[trigger] line[i] != '\n',
    ensures
        lines(line + seq!['\n'] + rest) == seq![
            if line.len() > 0 && line.last() == '\r' {
                line.drop_last()
            } else {
                line
            },
        ] + lines(rest),
        lines(line) == (if line.len() == 0 {
            Seq::<Seq<char>>::empty()
        } else {
            seq![line]
        }),
{
    lemma_finished_line(line);
    assert(line + seq!['\n'] + rest =~= line.push('\n') + rest);
    lemma_lines_append(line.push('\n'), rest);
    lemma_index_of_unique(line, '\n', line.len() as int);
}

proof fn lemma_fed(all: Seq<Seq<char>>, model: CidrModel)
    ensures
        feed_networks(all).contains(model) <==> exists|i: int|
            0 <= i < all.len() && feed_item(#[trigger] all[i]) == FeedItem::Network(model),
    decreases all.len(),
{
    if all.len() > 0 {
        let front = all.drop_last();
        let before = feed_networks(front);
        let after = feed_networks(all);
        lemma_fed(front, model);
        if after.contains(model) {
            let k = choose|k: int| 0 <= k < after.len() && after[k] == model;
            if k < before.len() {
                assert(before[k] == model);
                let i = choose|i: int|
                    0 <= i < front.len() && feed_item(#[trigger] front[i]) == FeedItem::Network(
                        model,
                    );
                assert(all[i] == front[i]);
            } else {
                assert(feed_item(all[all.len() - 1]) == FeedItem::Network(model));
            }
        }
        if exists|i: int|
            0 <= i < all.len() && feed_item(#[trigger] all[i]) == FeedItem::Network(model) {
            let i = choose|i: int|
                0 <= i < all.len() && feed_item(#[trigger] all[i]) == FeedItem::Network(model);
            if i < front.len() {
                assert(front[i] == all[i]);
                let k = choose|k: int| 0 <= k < before.len() && before[k] == model;
                assert(after[k] == model);
            } else {
                assert(after[after.len() - 1] == model);
            }
        }
    }
}

/// A feed that is accepted lists a network exactly when one of its lines gives it.
pub proof fn law_feed_lists_what_its_lines_give(
    all: Seq<Seq<char>>,
    limits: RemoteFeedLimits,
    parsed: ParsedRemoteCidrs,
    model: CidrModel,
)
    requires
        feed_outcome(all, limits, Ok(parsed)),
    ensures
        models(parsed.networks@).contains(model) <==> exists|i: int|
            0 <= i < all.len() && feed_item(#[trigger] all[i]) == FeedItem::Network(model),
{
    lemma_fed(all, model);
    let listed = models(parsed.networks@);
    assert(listed.to_set().contains(model) <==> feed_networks(all).to_set().contains(model));
}

/// A list of the networks of a feed holds a network exactly when one of its lines gives it.
pub proof fn law_feed_holds_its_lines(
    all: Seq<Seq<char>>,
    networks: Seq<CanonicalCidr>,
    model: CidrModel,
)
    requires
        lists_networks(networks, feed_networks(all)),
    ensures
        models(networks).contains(model) <==> exists|i: int|
            0 <= i < all.len() && feed_item(#[trigger] all[i]) == FeedItem::Network(model),
{
    lemma_fed(all, model);
    let listed = models(networks);
    assert(listed.to_set().contains(model) <==> feed_networks(all).to_set().contains(model));
}

/// A line anywhere in a feed that starts with the text of a network, followed by nothing, by white
/// space or by a comma and by whatever else the line holds, puts the network on the list of the
/// feed.
pub proof fn law_feed_holds_each_line_that_starts_with_a_network(
    before: Seq<char>,
    marks: Seq<char>,
    lead: Seq<char>,
    word: Seq<char>,
    rest: Seq<char>,
    after: Seq<char>,
    limits: RemoteFeedLimits,
    parsed: ParsedRemoteCidrs,
    model: CidrModel,
)
    requires
        before.len() > 0 ==> before.last() == '\n',
        all_marks(marks),
        all_space(lead),
        forall|i: int| 0 <= i < lead.len() ==> #[trigger] lead[i] != '\n',
        parse_token(word) == Some(model),
        rest.len() > 0 ==> is_space(rest[0]) || rest[0] == ',',
        forall|i: int| 0 <= i < rest.len() ==> #[trigger] rest[i] != '\n',
        feed_outcome(
            lines(before + (marks + lead + word + rest) + seq!['\n'] + after),
            limits,
            Ok(parsed),
        ),
    ensures
        models(parsed.networks@).contains(model),
{
    let line = marks + lead + word + rest;
    let text = before + line + seq!['\n'] + after;
    lemma_token_chars(word);
    assert forall|i: int| 0 <= i < line.len() implies #[trigger] line[i] != '\n' by {
        let (a, b, c) = (
            marks.len() as int,
            (marks.len() + lead.len()) as int,
            (marks.len() + lead.len() + word.len()) as int,
        );
        if i < a {
            assert(line[i] == marks[i]);
        } else if i < b {
            assert(line[i] == lead[i - a]);
        } else if i < c {
            assert(line[i] == word[i - b]);
        } else {
            assert(line[i] == rest[i - c]);
        }
    }
    assert(text =~= before + (line + seq!['\n'] + after));
    lemma_lines_append(before, line + seq!['\n'] + after);
    law_lines_end_at_line_feeds(line, after);
    let kept = if line.last() == '\r' {
        line.drop_last()
    } else {
        line
    };
    let k = lines(before).len() as int;
    assert(lines(text)[k] == kept);
    let short = if rest.len() > 0 && rest.last() == '\r' {
        rest.drop_last()
    } else {
        rest
    };
    assert(line.last() == if rest.len() > 0 {
        rest.last()
    } else {
        word.last()
    });
    assert(word[word.len() - 1] != '\r');
    assert(kept =~= marks + lead + word + short);
    law_line_gives_its_first_network(marks, lead, word, short, model);
    assert(feed_item(lines(text)[k]) == FeedItem::Network(model));
    law_feed_lists_what_its_lines_give(lines(text), limits, parsed, model);
}

proof fn lemma_data_count(all: Seq<Seq<char>>)
    ensures
        data_count(all) == all.filter(|line: Seq<char>| is_data(line)).len(),
        invalid_count(all) == all.filter(|line: Seq<char>| feed_item(line) is Invalid).len(),
    decreases all.len(),
{
    reveal(Seq::filter);
    if all.len() > 0 {
        lemma_data_count(all.drop_last());
    }
}

/// An accepted feed counts its data lines and those that hold no network, and a feed is accepted
/// exactly when its data lines and its distinct networks are within the limits.
pub proof fn law_feed_is_accepted_within_its_limits(
    all: Seq<Seq<char>>,
    limits: RemoteFeedLimits,
    outcome: Result<ParsedRemoteCidrs, RemoteParseBudget>,
)
    requires
        feed_outcome(all, limits, outcome),
        all.len() <= usize::MAX,
    ensures
        outcome is Ok <==> all.filter(|line: Seq<char>| is_data(line)).len() <= limits.data_lines
            && feed_networks(all).to_set().len() <= limits.unique_cidrs,
        outcome matches Ok(parsed) ==> {
            &&& parsed.data_lines == all.filter(|line: Seq<char>| is_data(line)).len()
            &&& parsed.invalid_lines == all.filter(
                |line: Seq<char>| feed_item(line) is Invalid,
            ).len()
        },
        outcome matches Err(RemoteParseBudget::DataLines { observed, limit }) ==> limit
            == limits.data_lines && observed == limit + 1,
        outcome matches Err(RemoteParseBudget::UniqueCidrs { observed, limit }) ==> limit
            == limits.unique_cidrs && observed == limit + 1,
{
    lemma_data_count(all);
    if broken_limit(all, limits) is None {
        lemma_within_limits(all, limits);
    } else {
        lemma_broken(all, limits);
    }
    if data_count(all) <= limits.data_lines {
        lemma_limit_within_lines(all, limits);
    }
}

proof fn lemma_broken(all: Seq<Seq<char>>, limits: RemoteFeedLimits)
    requires
        broken_limit(all, limits) is Some,
        all.len() <= usize::MAX,
    ensures
        match broken_limit(all, limits)->0 {
            RemoteParseBudget::DataLines { observed, limit } => limit == limits.data_lines
                && observed == limit + 1,
            RemoteParseBudget::UniqueCidrs { observed, limit } => limit == limits.unique_cidrs
                && observed == limit + 1,
        },
    decreases all.len(),
{
    lemma_counts(all);
    if broken_limit(all.drop_last(), limits) is Some {
        lemma_broken(all.drop_last(), limits);
    } else {
        lemma_within_limits(all.drop_last(), limits);
        lemma_distinct_step(all);
    }
}

/// A feed may hold twice what the set can, between a floor of its own and one million.
pub proof fn law_limits_follow_the_set_capacity(maxelem: u32, floor: int)
    requires
        0 <= floor <= 1_000_000,
    ensures
        floor <= feed_limit(maxelem, floor) <= 1_000_000,
        floor <= 2 * maxelem <= 1_000_000 ==> feed_limit(maxelem, floor) == 2 * maxelem,
        2 * maxelem <= floor ==> feed_limit(maxelem, floor) == floor,
        2 * maxelem >= 1_000_000 ==> feed_limit(maxelem, floor) == 1_000_000,
{
}

} // verus!
