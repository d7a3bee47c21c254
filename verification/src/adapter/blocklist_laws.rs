//! What writing and reading the local blocklist keep.

use crate::adapter::blocklist_file::{
    appended, marker_state, marker_text, words, BlocklistFastState, BLOCKLIST_FAST_STATE_VERSION,
};
use crate::adapter::blocklist_lines::{
    finished_lines, is_line, law_append_keeps_lines, lemma_entries_append,
    lemma_entries_of_networks, lemma_lines_nonempty, lemma_network_line, lemma_parsed_alike,
    lemma_strip_return_holds,
};
use crate::numerals::{decimal, digit_value, lemma_decimal_reads_back, lemma_numeral};
use crate::policy::blocklist::{
    classified, entries_of, entry_matches, line_entry, line_valid, parsed_lines, BanClassification,
    LineModel,
};
use crate::policy::cidr_text::{cidr_text, lemma_model_injective, model_valid, parse_strict};
use crate::policy::network_types::CanonicalCidr;
use crate::text::{is_space, lines, views};
use crate::workflow::blocklist::{
    added_texts, ban_changes, ban_plan_rule, change_of, invalid_targets, is_comment, unusable,
    BanPlan, ChangeModel, ParsedInput,
};
use vstd::prelude::*;

verus! {

// Fast state ------------------------------------------------------------------------------------

/// A word behind a space is a word of its own.
proof fn lemma_words_push(s: Seq<char>, space: char, word: Seq<char>)
    requires
        is_space(space),
        word.len() > 0,
        forall|i: int| 0 <= i < word.len() ==> !is_space(#[trigger] word[i]),
    ensures
        words(s.push(space) + word) == words(s).push(word),
    decreases word.len(),
{
    let base = s.push(space);
    let all = base + word;
    assert(base.drop_last() =~= s);
    assert(words(base) == words(s));
    let front = word.drop_last();
    assert(all.drop_last() =~= base + front);
    assert(all.last() == word.last());
    if word.len() == 1 {
        assert(base + front =~= base);
        assert(all[all.len() - 2] == space);
        assert(seq![word.last()] =~= word);
    } else {
        assert forall|i: int| 0 <= i < front.len() implies !is_space(#[trigger] front[i]) by {
            assert(front[i] == word[i]);
        }
        lemma_words_push(s, space, front);
        assert(all[all.len() - 2] == word[word.len() - 2]);
        let before = words(s).push(front);
        assert(before.drop_last() =~= words(s));
        assert(front.push(word.last()) =~= word);
    }
}

/// A text without white space is one word.
proof fn lemma_single_word(word: Seq<char>)
    requires
        word.len() > 0,
        forall|i: int| 0 <= i < word.len() ==> !is_space(#[trigger] word[i]),
    ensures
        words(word) == seq![word],
    decreases word.len(),
{
    let front = word.drop_last();
    if word.len() == 1 {
        assert(words(front) =~= Seq::empty());
        assert(seq![word.last()] =~= word);
        assert(words(word) =~= seq![word]);
    } else {
        assert forall|i: int| 0 <= i < front.len() implies !is_space(#[trigger] front[i]) by {
            assert(front[i] == word[i]);
        }
        lemma_single_word(front);
        assert(front.push(word.last()) =~= word);
        assert(words(word) =~= seq![word]);
    }
}

/// Decimal numerals hold no white space.
proof fn lemma_decimal_is_word(n: nat)
    ensures
        decimal(n).len() > 0,
        forall|i: int| 0 <= i < decimal(n).len() ==> !is_space(#[trigger] decimal(n)[i]),
{
    lemma_numeral(n, 10);
    assert forall|i: int| 0 <= i < decimal(n).len() implies !is_space(#[trigger] decimal(n)[i]) by {
        assert(digit_value(decimal(n)[i]) < 10);
    }
}

/// A state is read back from its marker.
pub proof fn law_marker_reads_back(state: BlocklistFastState)
    ensures
        marker_state(marker_text(state)) == Some(state),
{
    reveal_strlit("v1");
    reveal_strlit(" ");
    reveal_strlit("\n");
    let version = BLOCKLIST_FAST_STATE_VERSION@;
    let size = decimal(state.byte_len as nat);
    let time = decimal(state.modified_nanos as nat);
    lemma_decimal_is_word(state.byte_len as nat);
    lemma_decimal_is_word(state.modified_nanos as nat);
    lemma_single_word(version);
    lemma_words_push(version, ' ', size);
    let head = version.push(' ') + size;
    lemma_words_push(head, ' ', time);
    let body = head.push(' ') + time;
    let text = marker_text(state);
    assert(text =~= body.push('\n'));
    assert(text.drop_last() =~= body);
    assert(words(text) == words(body));
    assert(words(text) =~= seq![version, size, time]);
    lemma_decimal_reads_back(state.byte_len as nat, u64::MAX as nat);
    lemma_decimal_reads_back(state.modified_nanos as nat, u128::MAX as nat);
}

// Ban -------------------------------------------------------------------------------------------

/// Networks that a ban adds, in order.
pub open spec fn added_networks(
    existing: Seq<CanonicalCidr>,
    targets: Seq<CanonicalCidr>,
    n: nat,
) -> Seq<CanonicalCidr>
    decreases n,
{
    if n == 0 {
        Seq::empty()
    } else {
        let before = added_networks(existing, targets, (n - 1) as nat);
        match classified(existing, targets, n - 1) {
            BanClassification::Added(cidr) => before.push(cidr),
            BanClassification::AlreadyPresent(_) => before,
        }
    }
}

/// The added texts are those of the added networks, and every target is there afterwards.
proof fn lemma_added(existing: Seq<CanonicalCidr>, targets: Seq<CanonicalCidr>, n: nat)
    requires
        n <= targets.len(),
    ensures
        added_texts(ban_changes(existing, targets).take(n as int)) == added_networks(
            existing,
            targets,
            n,
        ).map_values(|c: CanonicalCidr| cidr_text(c@)),
        forall|k: int|
            0 <= k < n ==> existing.contains(#[trigger] targets[k]) || added_networks(
                existing,
                targets,
                n,
            ).contains(targets[k]),
        forall|c: CanonicalCidr| #[trigger]
            added_networks(existing, targets, n).contains(c) ==> targets.contains(c),
    decreases n,
{
    let changes = ban_changes(existing, targets);
    let text = |c: CanonicalCidr| cidr_text(c@);
    let now = added_networks(existing, targets, n);
    if n == 0 {
        assert(added_texts(changes.take(0)) =~= now.map_values(text));
    } else {
        let m = (n - 1) as nat;
        lemma_added(existing, targets, m);
        let before = added_networks(existing, targets, m);
        assert(changes.take(n as int).drop_last() =~= changes.take(m as int));
        assert(changes.take(n as int).last() == change_of(classified(existing, targets, m as int)));
        assert(added_texts(changes.take(n as int)) =~= now.map_values(text));
        assert forall|k: int| 0 <= k < n implies existing.contains(#[trigger] targets[k])
            || now.contains(targets[k]) by {
            if k < m {
                if before.contains(targets[k]) {
                    let j = choose|j: int| 0 <= j < before.len() && before[j] == targets[k];
                    assert(now[j] == targets[k]);
                }
            } else {
                match classified(existing, targets, m as int) {
                    BanClassification::Added(cidr) => {
                        assert(now[now.len() - 1] == cidr);
                    },
                    BanClassification::AlreadyPresent(cidr) => {
                        if !existing.contains(cidr) {
                            let earlier = targets.take(m as int);
                            assert(earlier.contains(cidr));
                            let j = choose|j: int| 0 <= j < earlier.len() && earlier[j] == cidr;
                            assert(targets[j] == cidr);
                        }
                    },
                }
            }
        }
        assert forall|c: CanonicalCidr| #[trigger] now.contains(c) implies targets.contains(c) by {
            let j = choose|j: int| 0 <= j < now.len() && now[j] == c;
            if j < before.len() {
                assert(before[j] == c);
                assert(before.contains(c));
            } else {
                assert(targets[m as int] == c);
            }
        }
    }
}

/// Finishing the last line keeps what the lines hold.
proof fn lemma_finished_holds(contents: Seq<char>)
    ensures
        finished_lines(contents).len() == lines(contents).len(),
        forall|i: int|
            #![trigger finished_lines(contents)[i]]
            #![trigger lines(contents)[i]]
            0 <= i < lines(contents).len() ==> line_valid(finished_lines(contents)[i])
                == line_valid(lines(contents)[i]) && line_entry(finished_lines(contents)[i])
                == line_entry(lines(contents)[i]),
{
    let all = lines(contents);
    if contents.len() > 0 && contents.last() != '\n' {
        lemma_lines_nonempty(contents);
        lemma_strip_return_holds(all.last());
    }
}

/// A ban makes every target an entry of the blocklist and keeps what was there: the file that it
/// writes parses, its lines are the old ones with one line for each new target behind them, and
/// its entries are the old ones and the new ones, among which is every target.
pub proof fn law_ban_makes_targets_present(
    contents: Seq<char>,
    before: Seq<LineModel>,
    targets: Seq<CanonicalCidr>,
    after: Seq<LineModel>,
)
    requires
        parsed_lines(lines(contents), before),
        forall|k: int| 0 <= k < targets.len() ==> model_valid((#[trigger] targets[k])@),
        ({
            let text = appended(
                contents,
                added_texts(ban_changes(entries_of(before), targets)),
                contents.len() > 0,
                contents.len() > 0 && contents.last() == '\n',
            );
            (forall|i: int| 0 <= i < lines(text).len() ==> line_valid(#[trigger] lines(text)[i]))
                ==> parsed_lines(lines(text), after)
        }),
    ensures
        ({
            let text = appended(
                contents,
                added_texts(ban_changes(entries_of(before), targets)),
                contents.len() > 0,
                contents.len() > 0 && contents.last() == '\n',
            );
            let added = added_networks(entries_of(before), targets, targets.len());
            &&& forall|i: int| 0 <= i < lines(text).len() ==> line_valid(#[trigger] lines(text)[i])
            &&& lines(text) == finished_lines(contents) + added.map_values(
                |c: CanonicalCidr| cidr_text(c@),
            )
            &&& entries_of(after) == entries_of(before) + added
            &&& forall|k: int|
                0 <= k < targets.len() ==> entries_of(after).contains(#[trigger] targets[k])
        }),
{
    let existing = entries_of(before);
    let changes = ban_changes(existing, targets);
    let added = added_networks(existing, targets, targets.len());
    let name = |c: CanonicalCidr| cidr_text(c@);
    lemma_added(existing, targets, targets.len());
    assert(changes.take(targets.len() as int) =~= changes);
    let texts = added_texts(changes);
    assert(texts == added.map_values(name));
    assert forall|i: int| 0 <= i < texts.len() implies is_line(#[trigger] texts[i]) by {
        assert(added.contains(added[i]));
        let k = choose|k: int| 0 <= k < targets.len() && targets[k] == added[i];
        assert(model_valid(targets[k]@));
        lemma_network_line(added[i]@);
    }
    law_append_keeps_lines(contents, texts);
    let text = appended(
        contents,
        texts,
        contents.len() > 0,
        contents.len() > 0 && contents.last() == '\n',
    );
    let old = lines(contents);
    let kept_texts = finished_lines(contents);
    let all = lines(text);
    lemma_finished_holds(contents);
    assert forall|i: int| 0 <= i < all.len() implies line_valid(#[trigger] all[i]) by {
        if i < old.len() {
            assert(all[i] == kept_texts[i]);
            assert(before[i].text == old[i]);
        } else {
            let j = i - old.len();
            assert(all[i] == texts[j]);
            assert(added.contains(added[j]));
            let k = choose|k: int| 0 <= k < targets.len() && targets[k] == added[j];
            assert(model_valid(targets[k]@));
            lemma_network_line(added[j]@);
        }
    }
    assert(parsed_lines(all, after));
    let kept = after.take(old.len() as int);
    let more = after.skip(old.len() as int);
    assert(after =~= kept + more);
    assert forall|i: int| 0 <= i < kept.len() implies (#[trigger] kept[i]).text == kept_texts[i]
        && line_valid(kept_texts[i]) && entry_matches(kept[i].entry, kept_texts[i]) by {
        assert(kept[i] == after[i]);
        assert(all[i] == kept_texts[i]);
    }
    lemma_parsed_alike(old, before, kept_texts, kept);
    assert forall|j: int| 0 <= j < more.len() implies (#[trigger] more[j]).entry == Some(added[j]) by {
        let i = j + old.len();
        assert(after[i].text == all[i] && all[i] == texts[j]);
        assert(added.contains(added[j]));
        let k = choose|k: int| 0 <= k < targets.len() && targets[k] == added[j];
        assert(model_valid(targets[k]@));
        lemma_network_line(added[j]@);
        assert(after[i].entry is Some);
        lemma_model_injective(after[i].entry->0, added[j]);
    }
    lemma_entries_append(kept, more);
    lemma_entries_of_networks(more, added);
    assert forall|k: int| 0 <= k < targets.len() implies entries_of(after).contains(
        #[trigger] targets[k],
    ) by {
        let e = entries_of(after);
        if existing.contains(targets[k]) {
            let j = choose|j: int| 0 <= j < existing.len() && existing[j] == targets[k];
            assert(e[j] == targets[k]);
        } else {
            assert(added.contains(targets[k]));
            let j = choose|j: int| 0 <= j < added.len() && added[j] == targets[k];
            assert(e[existing.len() + j] == targets[k]);
        }
    }
}

/// One line that is neither a remark nor a network is among the invalid targets.
proof fn lemma_invalid_line_counts(texts: Seq<Seq<char>>, i: int)
    requires
        0 <= i < texts.len(),
        !is_comment(texts[i]),
        parse_strict(texts[i]) is None,
    ensures
        invalid_targets(texts).len() > 0,
    decreases texts.len(),
{
    if i < texts.len() - 1 {
        lemma_invalid_line_counts(texts.drop_last(), i);
    }
}

/// Contents of the blocklist after a ban: entries are appended where there are any.
pub open spec fn contents_after_ban(contents: Seq<char>, entries: Seq<Seq<char>>) -> Seq<char> {
    if entries.len() == 0 {
        contents
    } else {
        appended(
            contents,
            entries,
            contents.len() > 0,
            contents.len() > 0 && contents.last() == '\n',
        )
    }
}

/// Any invalid target prevents mutation: where one line of a target file is neither a remark nor
/// exactly one network, the plan of the request adds and reports nothing, whatever the other lines
/// hold and whatever the blocklist holds, and the blocklist keeps its contents.
pub proof fn law_invalid_target_prevents_mutation(
    texts: Seq<Seq<char>>,
    i: int,
    parsed: ParsedInput,
    lines: Seq<LineModel>,
    plan: BanPlan,
    contents: Seq<char>,
)
    requires
        0 <= i < texts.len(),
        !is_comment(texts[i]),
        parse_strict(texts[i]) is None,
        views(parsed.invalid_targets@) == invalid_targets(texts),
        ban_plan_rule(parsed, lines, plan),
    ensures
        unusable(parsed),
        plan.changes@.len() == 0,
        contents_after_ban(contents, views(plan.appended@)) == contents,
{
    lemma_invalid_line_counts(texts, i);
    assert(views(parsed.invalid_targets@).len() == parsed.invalid_targets@.len());
    assert(views(plan.appended@).len() == plan.appended@.len());
}

/// A ban that is repeated adds nothing: once every target is an entry, each is reported as present
/// and nothing is left to append.
pub proof fn law_repeated_ban_adds_nothing(
    existing: Seq<CanonicalCidr>,
    targets: Seq<CanonicalCidr>,
)
    requires
        forall|k: int| 0 <= k < targets.len() ==> existing.contains(#[trigger] targets[k]),
    ensures
        forall|k: int|
            0 <= k < targets.len() ==> #[trigger] ban_changes(existing, targets)[k]
                is AlreadyPresent,
        added_texts(ban_changes(existing, targets)).len() == 0,
{
    let changes = ban_changes(existing, targets);
    assert forall|k: int| 0 <= k < targets.len() implies #[trigger] changes[k] is AlreadyPresent by {
        assert(existing.contains(targets[k]));
    }
    lemma_present_adds_nothing(changes);
}

/// Changes that add nothing leave nothing to append.
proof fn lemma_present_adds_nothing(changes: Seq<ChangeModel>)
    requires
        forall|k: int| 0 <= k < changes.len() ==> #[trigger] changes[k] is AlreadyPresent,
    ensures
        added_texts(changes).len() == 0,
    decreases changes.len(),
{
    if changes.len() > 0 {
        assert(changes[changes.len() - 1] is AlreadyPresent);
        lemma_present_adds_nothing(changes.drop_last());
    }
}

} // verus!
