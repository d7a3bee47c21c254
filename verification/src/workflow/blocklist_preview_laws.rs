//! Previews of an unban are determined by the document.

use crate::ordering::{stably_sorted, Ranked};
use crate::policy::blocklist::{exactly_matched, partially_matched, LineModel};
use crate::policy::network_types::CanonicalCidr;
use crate::text::{
    lemma_text_le_antisymmetric, lemma_text_le_total, lemma_text_le_transitive, text_le, views,
};
use crate::workflow::blocklist::{
    chosen_texts, line_entries, preview_rule, sorted_texts, BlocklistInput, UnbanPreview,
};
use vstd::prelude::*;
use vstd::relations::total_ordering;
use vstd::seq_lib::{group_to_multiset_ensures, lemma_sorted_unique};

verus! {

/// Sequences with the same elements have the same texts.
proof fn lemma_views_multiset(a: Seq<String>, b: Seq<String>)
    requires
        a.to_multiset() == b.to_multiset(),
    ensures
        views(a).to_multiset() == views(b).to_multiset(),
    decreases a.len(),
{
    broadcast use group_to_multiset_ensures;

    assert(a.to_multiset().len() == a.len() && b.to_multiset().len() == b.len());
    if a.len() == 0 {
        assert(views(a) =~= views(b));
    } else {
        let last = a.last();
        assert(a.contains(last));
        assert(a.to_multiset().count(last) > 0);
        assert(b.contains(last));
        let j = choose|j: int| 0 <= j < b.len() && b[j] == last;
        let front = a.remove(a.len() - 1);
        let other = b.remove(j);
        assert(front.to_multiset() == a.to_multiset().remove(last));
        assert(other.to_multiset() == b.to_multiset().remove(last));
        assert(front.len() < a.len());
        lemma_views_multiset(front, other);
        assert(views(a).remove(a.len() - 1) =~= views(front));
        assert(views(b).remove(j) =~= views(other));
        assert(views(a)[a.len() - 1] == last@ && views(b)[j] == last@);
        assert(views(a).to_multiset().remove(last@) == views(b).to_multiset().remove(last@));
        assert(views(a).contains(last@) && views(b).contains(last@));
        assert(views(a).to_multiset().count(last@) > 0 && views(b).to_multiset().count(last@) > 0);
        assert(views(a).to_multiset() =~= views(a).to_multiset().remove(last@).insert(last@));
        assert(views(b).to_multiset() =~= views(b).to_multiset().remove(last@).insert(last@));
    }
}

/// Sorting the same texts gives the same texts.
proof fn lemma_sorted_texts_unique(texts: Seq<Seq<char>>, a: Seq<String>, b: Seq<String>)
    requires
        sorted_texts(texts, a),
        sorted_texts(texts, b),
    ensures
        views(a) == views(b),
{
    let first = choose|unsorted: Seq<String>| #[trigger]
        views(unsorted) == texts && stably_sorted(unsorted, a);
    let second = choose|unsorted: Seq<String>| #[trigger]
        views(unsorted) == texts && stably_sorted(unsorted, b);
    lemma_views_multiset(a, first);
    lemma_views_multiset(b, second);
    let le = |x: Seq<char>, y: Seq<char>| text_le(x, y);
    assert(total_ordering(le)) by {
        assert forall|x: Seq<char>, y: Seq<char>| #[trigger] le(x, y) && #[trigger] le(y, x) implies x
            == y by {
            lemma_text_le_antisymmetric(x, y);
        }
        assert forall|x: Seq<char>, y: Seq<char>, z: Seq<char>| #[trigger]
            le(x, y) && #[trigger] le(y, z) implies le(x, z) by {
            lemma_text_le_transitive(x, y, z);
        }
        assert forall|x: Seq<char>, y: Seq<char>| #[trigger] le(x, y) || #[trigger] le(y, x) by {
            lemma_text_le_total(x, y);
        }
        assert forall|x: Seq<char>| #[trigger] le(x, x) by {
            lemma_text_le_total(x, x);
        }
    }
    assert forall|i: int, j: int| 0 <= i < j < views(a).len() implies #[trigger] le(
        views(a)[i],
        views(a)[j],
    ) by {
        assert(a[i].ranked_le(a[j]));
    }
    assert forall|i: int, j: int| 0 <= i < j < views(b).len() implies #[trigger] le(
        views(b)[i],
        views(b)[j],
    ) by {
        assert(b[i].ranked_le(b[j]));
    }
    lemma_sorted_unique(views(a), views(b), le);
}

/// The preview of an unban is determined by the request and the lines of the blocklist, so a
/// blocklist that has not changed since its preview was prepared is never reported as changed.
pub proof fn law_preview_is_determined(
    input: BlocklistInput,
    targets: Seq<CanonicalCidr>,
    lines: Seq<LineModel>,
    prepared: UnbanPreview,
    current: UnbanPreview,
)
    requires
        preview_rule(input, targets, lines, prepared),
        preview_rule(input, targets, lines, current),
    ensures
        current@ == prepared@,
{
    let entries = line_entries(lines);
    lemma_sorted_texts_unique(
        chosen_texts(
            entries,
            |i: int| exactly_matched(entries, targets, i),
            lines.len(),
        ),
        prepared.exact_entries@,
        current.exact_entries@,
    );
    lemma_sorted_texts_unique(
        chosen_texts(
            entries,
            |i: int| partially_matched(entries, targets, i),
            lines.len(),
        ),
        prepared.partial_entries@,
        current.partial_entries@,
    );
    assert(current@ =~= prepared@);
}

} // verus!
