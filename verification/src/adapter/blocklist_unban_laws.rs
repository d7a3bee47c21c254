//! What an unban leaves in the local blocklist.

use crate::adapter::blocklist_lines::{
    lemma_document_lines, lemma_lines_no_feed, lemma_parsed_alike, lemma_strip_return_holds,
    makes_nothing, no_feed, stripped,
};
use crate::ordering::selects;
use crate::policy::blocklist::{
    document_text, entries_of, entry_matches, exactly_matched, is_note, line_entry, line_valid,
    parsed_lines, partially_matched, LineModel, UnbanIndexPlan,
};
use crate::policy::network::networks_overlap;
use crate::policy::network_types::CanonicalCidr;
use crate::policy::span_math::lemma_block_size;
use crate::text::{lines, trim, views};
use crate::workflow::blocklist::{
    kept_texts, lemma_selects_contains, line_entries, unban_drops, unban_rule, UnbanPlan,
    UnbanPreview,
};
use vstd::prelude::*;

verus! {

// Plans -----------------------------------------------------------------------------------------

/// A plan lists every entry that shares an address with a target exactly once: among the exact
/// matches or among the partial ones, and nothing else.
pub proof fn law_unban_plan_is_complete(
    entries: Seq<Option<CanonicalCidr>>,
    targets: Seq<CanonicalCidr>,
    plan: UnbanIndexPlan,
    i: usize,
)
    requires
        selects(
            plan.exact_indexes@,
            entries.len(),
            |k: int| exactly_matched(entries, targets, k),
        ),
        selects(
            plan.partial_indexes@,
            entries.len(),
            |k: int| partially_matched(entries, targets, k),
        ),
        i < entries.len(),
        entries[i as int] matches Some(entry) ==> entry.valid(),
    ensures
        !(plan.exact_indexes@.contains(i) && plan.partial_indexes@.contains(i)),
        (plan.exact_indexes@.contains(i) || plan.partial_indexes@.contains(i)) <==> (entries[i as int]
            matches Some(entry) && exists|t: int|
            0 <= t < targets.len() && networks_overlap(entry, #[trigger] targets[t])),
{
    let exact = |k: int| exactly_matched(entries, targets, k);
    let partial = |k: int| partially_matched(entries, targets, k);
    lemma_selects_contains(
        plan.exact_indexes@,
        entries.len(),
        exact,
        i,
    );
    lemma_selects_contains(
        plan.partial_indexes@,
        entries.len(),
        partial,
        i,
    );
    if exact(i as int) {
        let entry = entries[i as int]->0;
        let t = choose|t: int| 0 <= t < targets.len() && targets[t] == entry;
        lemma_block_size(
            entry.family_of().width(),
            entry.block().prefix,
        );
        assert(entry.has(entry.family_of(), entry.block().base));
        assert(networks_overlap(entry, targets[t]));
    }
}

// Lines -----------------------------------------------------------------------------------------

/// The first `n` lines that are not dropped, in order.
pub open spec fn kept_lines(
    all: Seq<LineModel>,
    dropped: spec_fn(int) -> bool,
    n: nat,
) -> Seq<LineModel>
    decreases n,
{
    if n == 0 {
        Seq::empty()
    } else if dropped(n - 1) {
        kept_lines(all, dropped, (n - 1) as nat)
    } else {
        kept_lines(all, dropped, (n - 1) as nat).push(all[n - 1])
    }
}

/// Kept lines are lines of the document that are not dropped.
proof fn lemma_kept_lines(
    texts: Seq<Seq<char>>,
    all: Seq<LineModel>,
    dropped: spec_fn(int) -> bool,
    n: nat,
)
    requires
        parsed_lines(texts, all),
        n <= all.len(),
    ensures
        parsed_lines(kept_texts(all, dropped, n), kept_lines(all, dropped, n)),
        forall|k: int|
            0 <= k < kept_lines(all, dropped, n).len() ==> exists|i: int|
                0 <= i < n && !dropped(i) && #[trigger] all[i] == #[trigger] kept_lines(
                    all,
                    dropped,
                    n,
                )[k],
    decreases n,
{
    let kept = kept_lines(all, dropped, n);
    if n > 0 {
        lemma_kept_lines(texts, all, dropped, (n - 1) as nat);
        let before = kept_lines(all, dropped, (n - 1) as nat);
        assert forall|k: int| 0 <= k < kept.len() implies exists|i: int|
            0 <= i < n && !dropped(i) && #[trigger] all[i] == #[trigger] kept[k] by {
            if k < before.len() {
                assert(kept[k] == before[k]);
                let i = choose|i: int|
                    0 <= i < n - 1 && !dropped(i) && #[trigger] all[i] == before[k];
                assert(all[i] == kept[k]);
            } else {
                assert(kept[k] == all[n - 1]);
            }
        }
        let shown = kept_texts(all, dropped, n);
        assert forall|k: int| 0 <= k < kept.len() implies (#[trigger] kept[k]).text == shown[k]
            && line_valid(shown[k]) && entry_matches(
            kept[k].entry,
            shown[k],
        ) by {
            if k < before.len() {
                assert(kept[k] == before[k]);
                assert(shown[k] == kept_texts(all, dropped, (n - 1) as nat)[k]);
            } else {
                assert(kept[k] == all[n - 1]);
            }
        }
    }
}

/// Every entry of a list of lines is on one of them.
proof fn lemma_entry_has_line(all: Seq<LineModel>, cidr: CanonicalCidr)
    requires
        entries_of(all).contains(cidr),
    ensures
        exists|k: int| 0 <= k < all.len() && (#[trigger] all[k]).entry == Some(cidr),
    decreases all.len(),
{
    let entries = entries_of(all);
    let j = choose|j: int| 0 <= j < entries.len() && entries[j] == cidr;
    if all.len() > 0 {
        let front = all.drop_last();
        if all.last().entry == Some(cidr) {
            assert(all[all.len() - 1].entry == Some(cidr));
        } else {
            assert(entries_of(front)[j] == cidr);
            assert(entries_of(front).contains(cidr));
            lemma_entry_has_line(front, cidr);
            let k = choose|k: int| 0 <= k < front.len() && (#[trigger] front[k]).entry == Some(cidr);
            assert(all[k].entry == Some(cidr));
        }
    }
}

/// Where nothing is dropped everything is kept.
proof fn lemma_all_kept(all: Seq<LineModel>, dropped: spec_fn(int) -> bool, n: nat)
    requires
        n <= all.len(),
        forall|i: int| 0 <= i < n ==> !#[trigger] dropped(i),
    ensures
        kept_lines(all, dropped, n) == all.take(n as int),
    decreases n,
{
    if n > 0 {
        lemma_all_kept(all, dropped, (n - 1) as nat);
        assert(!dropped(n - 1));
        assert(all.take(n - 1).push(all[n - 1]) =~= all.take(n as int));
    } else {
        assert(all.take(0) =~= Seq::empty());
    }
}

/// Contents of the file after an unban.
pub open spec fn unbanned_contents(contents: Seq<char>, plan: UnbanPlan) -> Seq<char> {
    match plan.kept_lines {
        Some(kept) => document_text(views(kept@)),
        None => contents,
    }
}

/// Written lines hold what the kept lines held.
proof fn lemma_written_lines(texts: Seq<Seq<char>>, kept: Seq<LineModel>, after: Seq<LineModel>)
    requires
        parsed_lines(texts, kept),
        forall|k: int| 0 <= k < texts.len() ==> no_feed(#[trigger] texts[k]),
        ({
            let found = lines(document_text(texts));
            (forall|i: int| 0 <= i < found.len() ==> line_valid(#[trigger] found[i]))
                ==> parsed_lines(found, after)
        }),
    ensures
        ({
            let found = lines(document_text(texts));
            &&& forall|i: int| 0 <= i < found.len() ==> line_valid(#[trigger] found[i])
            &&& entries_of(after) == entries_of(kept)
        }),
{
    let found = lines(document_text(texts));
    lemma_document_lines(texts);
    if makes_nothing(texts) {
        assert(entries_of(after) =~= Seq::<CanonicalCidr>::empty());
        if texts.len() == 1 {
            assert(kept[0].text == texts[0]);
            assert(trim(texts[0]) =~= Seq::<char>::empty());
            assert(is_note(texts[0]));
            assert(kept[0].entry is None);
            assert(entries_of(kept.drop_last()) =~= Seq::<CanonicalCidr>::empty());
        }
        assert(entries_of(kept) =~= Seq::<CanonicalCidr>::empty());
    } else {
        assert(found == stripped(texts));
        assert forall|i: int| 0 <= i < found.len() implies line_valid(#[trigger] found[i]) by {
            lemma_strip_return_holds(texts[i]);
            assert(kept[i].text == texts[i]);
        }
        assert forall|i: int| 0 <= i < texts.len() implies line_entry(#[trigger] texts[i])
            == line_entry(found[i]) by {
            lemma_strip_return_holds(texts[i]);
        }
        lemma_parsed_alike(texts, kept, found, after);
    }
}

/// An approved unban leaves no targeted entry in the blocklist, and none that overlaps a target
/// where that was decided; every other entry stays, in its order, and the file still parses.
pub proof fn law_unban_removes_targets(
    contents: Seq<char>,
    before: Seq<LineModel>,
    preview: UnbanPreview,
    remove_partial: bool,
    plan: UnbanPlan,
    after: Seq<LineModel>,
)
    requires
        parsed_lines(lines(contents), before),
        unban_rule(preview, remove_partial, before, plan),
        ({
            let found = lines(unbanned_contents(contents, plan));
            (forall|i: int| 0 <= i < found.len() ==> line_valid(#[trigger] found[i]))
                ==> parsed_lines(found, after)
        }),
    ensures
        ({
            let found = lines(unbanned_contents(contents, plan));
            let targets = preview.targets@;
            let dropped = unban_drops(line_entries(before), targets, remove_partial);
            &&& forall|i: int| 0 <= i < found.len() ==> line_valid(#[trigger] found[i])
            &&& entries_of(after) == entries_of(kept_lines(before, dropped, before.len()))
            &&& forall|c: CanonicalCidr| #[trigger]
                entries_of(after).contains(c) ==> !targets.contains(c)
            &&& remove_partial ==> forall|c: CanonicalCidr, t: int|
                #![trigger entries_of(after).contains(c), targets[t]]
                entries_of(after).contains(c) && 0 <= t < targets.len() ==> !networks_overlap(
                    c,
                    targets[t],
                )
        }),
{
    let texts = lines(contents);
    let entries = line_entries(before);
    let targets = preview.targets@;
    let dropped = unban_drops(entries, targets, remove_partial);
    let kept = kept_lines(before, dropped, before.len());
    let found = lines(unbanned_contents(contents, plan));
    lemma_kept_lines(texts, before, dropped, before.len());
    match plan.kept_lines {
        Some(written) => {
            let shown = kept_texts(before, dropped, before.len());
            lemma_lines_no_feed(contents);
            assert forall|k: int| 0 <= k < shown.len() implies no_feed(#[trigger] shown[k]) by {
                assert(kept[k].text == shown[k]);
                let i = choose|i: int|
                    0 <= i < before.len() && !dropped(i) && #[trigger] before[i] == kept[k];
                assert(before[i].text == texts[i]);
            }
            lemma_written_lines(shown, kept, after);
        },
        None => {
            lemma_all_kept(before, dropped, before.len());
            assert(before.take(before.len() as int) =~= before);
            assert forall|i: int| 0 <= i < found.len() implies line_valid(#[trigger] found[i]) by {
                assert(before[i].text == texts[i]);
            }
            lemma_parsed_alike(texts, before, found, after);
        },
    }
    assert forall|c: CanonicalCidr| #[trigger] entries_of(after).contains(c) implies
        !targets.contains(c) && (remove_partial ==> forall|t: int|
        0 <= t < targets.len() ==> !networks_overlap(c, #[trigger] targets[t])) by {
        lemma_entry_has_line(kept, c);
        let k = choose|k: int| 0 <= k < kept.len() && (#[trigger] kept[k]).entry == Some(c);
        let i = choose|i: int|
            0 <= i < before.len() && !dropped(i) && #[trigger] before[i] == kept[k];
        assert(entries[i] == Some(c));
        assert(!exactly_matched(entries, targets, i));
        if remove_partial {
            assert(!partially_matched(entries, targets, i));
        }
    }
}

} // verus!
