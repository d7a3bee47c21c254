//! What a lookup does not depend on.

use crate::policy::cidr_text::{parse_strict, parse_token, CidrModel};
use crate::policy::lookup::{
    all_matches, ascending_entries, ascending_texts, distinct_targets, group_matches, group_targets,
    lemma_entry_le_antisymmetric, lookup_groups, lookup_matches, matched_entries, models_overlap,
    target_hits, EntryModel, GroupModel, MatchModel,
};
use crate::policy::network_types::CanonicalCidr;
use crate::policy::span_math::{block_last, lemma_block_size};
use crate::text::lemma_text_le_antisymmetric;
use vstd::prelude::*;

verus! {

/// The sequences hold the same elements, in any order and number.
pub open spec fn same_elements<T>(a: Seq<T>, b: Seq<T>) -> bool {
    forall|x: T| #[trigger] a.contains(x) <==> b.contains(x)
}

/// Taking the greatest element off both of two ascending sequences keeps their elements the same.
proof fn lemma_same_without_last<T>(a: Seq<T>, b: Seq<T>)
    requires
        same_elements(a, b),
        a.len() > 0,
        b.len() > 0,
        a.last() == b.last(),
        a.no_duplicates(),
        b.no_duplicates(),
    ensures
        same_elements(a.drop_last(), b.drop_last()),
{
    let front = a.drop_last();
    let other = b.drop_last();
    assert forall|x: T| #[trigger] front.contains(x) <==> other.contains(x) by {
        if front.contains(x) {
            let i = choose|i: int| 0 <= i < front.len() && front[i] == x;
            assert(a[i] == x);
            assert(a.contains(x));
            let j = choose|j: int| 0 <= j < b.len() && b[j] == x;
            assert(x != a.last());
            assert(other[j] == x);
        }
        if other.contains(x) {
            let j = choose|j: int| 0 <= j < other.len() && other[j] == x;
            assert(b[j] == x);
            assert(b.contains(x));
            assert(a.contains(x));
            let i = choose|i: int| 0 <= i < a.len() && a[i] == x;
            assert(x != b.last());
            assert(front[i] == x);
        }
    }
}

/// Sequences with the same elements are empty together.
proof fn lemma_same_emptiness<T>(a: Seq<T>, b: Seq<T>)
    requires
        same_elements(a, b),
    ensures
        a.len() == 0 <==> b.len() == 0,
{
    if a.len() > 0 {
        assert(a.contains(a[0]));
        assert(b.contains(a[0]));
    }
    if b.len() > 0 {
        assert(b.contains(b[0]));
        assert(a.contains(b[0]));
    }
}

/// Ascending texts are determined by which texts they are.
pub proof fn lemma_ascending_texts_unique(a: Seq<Seq<char>>, b: Seq<Seq<char>>)
    requires
        ascending_texts(a),
        ascending_texts(b),
        same_elements(a, b),
    ensures
        a == b,
    decreases a.len(),
{
    lemma_same_emptiness(a, b);
    if a.len() == 0 {
        assert(a =~= b);
    } else {
        assert(a.contains(a.last()) && b.contains(b.last()));
        assert(b.contains(a.last()) && a.contains(b.last()));
        let j = choose|j: int| 0 <= j < b.len() && b[j] == a.last();
        let i = choose|i: int| 0 <= i < a.len() && a[i] == b.last();
        if j < b.len() - 1 && i < a.len() - 1 {
            lemma_text_le_antisymmetric(a.last(), b.last());
        }
        assert(a.last() == b.last());
        assert forall|x: int, y: int| 0 <= x < a.len() && 0 <= y < a.len() && x != y implies a[x]
            != a[y] by {}
        assert forall|x: int, y: int| 0 <= x < b.len() && 0 <= y < b.len() && x != y implies b[x]
            != b[y] by {}
        lemma_same_without_last(a, b);
        lemma_ascending_texts_unique(a.drop_last(), b.drop_last());
        assert(a =~= a.drop_last().push(a.last()));
        assert(b =~= b.drop_last().push(b.last()));
    }
}

/// Ascending entries are determined by which entries they are.
pub proof fn lemma_ascending_entries_unique(a: Seq<EntryModel>, b: Seq<EntryModel>)
    requires
        ascending_entries(a),
        ascending_entries(b),
        same_elements(a, b),
    ensures
        a == b,
    decreases a.len(),
{
    lemma_same_emptiness(a, b);
    if a.len() == 0 {
        assert(a =~= b);
    } else {
        assert(a.contains(a.last()) && b.contains(b.last()));
        assert(b.contains(a.last()) && a.contains(b.last()));
        let j = choose|j: int| 0 <= j < b.len() && b[j] == a.last();
        let i = choose|i: int| 0 <= i < a.len() && a[i] == b.last();
        if j < b.len() - 1 && i < a.len() - 1 {
            lemma_entry_le_antisymmetric(a.last(), b.last());
        }
        assert(a.last() == b.last());
        assert forall|x: int, y: int| 0 <= x < a.len() && 0 <= y < a.len() && x != y implies a[x]
            != a[y] by {}
        assert forall|x: int, y: int| 0 <= x < b.len() && 0 <= y < b.len() && x != y implies b[x]
            != b[y] by {}
        lemma_same_without_last(a, b);
        lemma_ascending_entries_unique(a.drop_last(), b.drop_last());
        assert(a =~= a.drop_last().push(a.last()));
        assert(b =~= b.drop_last().push(b.last()));
    }
}

/// A lookup is deterministic: the groups and the invalid targets depend on which targets and
/// source entries there are, and neither on their order nor on how often they are listed.
pub proof fn law_lookup_ignores_order_and_repetition(
    targets: Seq<Seq<char>>,
    sources: Seq<EntryModel>,
    groups: Seq<GroupModel>,
    invalid: Seq<Seq<char>>,
    other_targets: Seq<Seq<char>>,
    other_sources: Seq<EntryModel>,
    other_groups: Seq<GroupModel>,
    other_invalid: Seq<Seq<char>>,
)
    requires
        same_elements(targets, other_targets),
        same_elements(sources, other_sources),
        lookup_groups(targets, sources, groups),
        distinct_targets(targets, false, invalid),
        lookup_groups(other_targets, other_sources, other_groups),
        distinct_targets(other_targets, false, other_invalid),
    ensures
        groups == other_groups,
        invalid == other_invalid,
{
    assert forall|t: Seq<char>| #[trigger] invalid.contains(t) <==> other_invalid.contains(t) by {
        assert(targets.contains(t) <==> other_targets.contains(t));
    }
    lemma_ascending_texts_unique(invalid, other_invalid);
    let listed = group_targets(groups);
    let other_listed = group_targets(other_groups);
    assert forall|t: Seq<char>| #[trigger] listed.contains(t) <==> other_listed.contains(t) by {
        assert(targets.contains(t) <==> other_targets.contains(t));
    }
    lemma_ascending_texts_unique(listed, other_listed);
    assert(groups.len() == listed.len() && other_groups.len() == other_listed.len());
    assert forall|i: int| 0 <= i < groups.len() implies #[trigger] groups[i] == other_groups[i] by {
        let a = groups[i].entries;
        let b = other_groups[i].entries;
        assert(groups[i].target == listed[i] && other_groups[i].target == other_listed[i]);
        assert(matched_entries(groups[i].target, sources, a));
        assert(matched_entries(other_groups[i].target, other_sources, b));
        assert forall|e: EntryModel| #[trigger] a.contains(e) <==> b.contains(e) by {
            assert(sources.contains(e) <==> other_sources.contains(e));
        }
        lemma_ascending_entries_unique(a, b);
    }
    assert(groups =~= other_groups);
}

// Matches ---------------------------------------------------------------------------------------

/// The networks are of one family and have an address in common.
pub open spec fn share_an_address(model: CidrModel, cidr: CanonicalCidr) -> bool {
    &&& model.family == cidr@.family
    &&& exists|x: int|
        #![trigger cidr.has(model.family, x)]
        cidr.has(model.family, x) && model.block.base <= x <= block_last(
            model.family.width(),
            model.block,
        )
}

proof fn lemma_hits(target: Seq<char>, cidr: CanonicalCidr)
    requires
        cidr.valid(),
        parse_strict(target) matches Some(model) ==> 0 <= model.block.prefix
            <= model.family.width(),
    ensures
        target_hits(target, cidr) <==> parse_strict(target) is Some && share_an_address(
            parse_strict(target)->0,
            cidr,
        ),
{
    if let Some(model) = parse_strict(target) {
        let w = model.family.width();
        lemma_block_size(w, model.block.prefix);
        lemma_block_size(cidr.family_of().width(), cidr.block().prefix);
        if models_overlap(model, cidr@) {
            let x = if model.block.base >= cidr@.block.base {
                model.block.base
            } else {
                cidr@.block.base
            };
            assert(cidr.has(model.family, x));
        }
    }
}

/// What reads as a network has a prefix of its family.
proof fn lemma_target_sound(target: Seq<char>)
    ensures
        parse_strict(target) matches Some(model) ==> 0 <= model.block.prefix
            <= model.family.width(),
{
    reveal(parse_token);
}

proof fn lemma_all_matches(groups: Seq<GroupModel>, found: MatchModel)
    ensures
        all_matches(groups).contains(found) <==> exists|i: int|
            0 <= i < groups.len() && (#[trigger] groups[i]).target == found.target
                && groups[i].entries.contains(found.entry),
    decreases groups.len(),
{
    if groups.len() > 0 {
        let front = groups.drop_last();
        let last = groups.last();
        let before = all_matches(front);
        let tail = group_matches(last);
        let all = all_matches(groups);
        lemma_all_matches(front, found);
        if all.contains(found) {
            let k = choose|k: int| 0 <= k < all.len() && all[k] == found;
            if k < before.len() {
                assert(before[k] == found);
                let i = choose|i: int|
                    0 <= i < front.len() && (#[trigger] front[i]).target == found.target
                        && front[i].entries.contains(found.entry);
                assert(groups[i] == front[i]);
            } else {
                assert(tail[k - before.len()] == found);
                assert(last.entries[k - before.len()] == found.entry);
                assert(groups[groups.len() - 1].target == found.target);
            }
        }
        if exists|i: int|
            0 <= i < groups.len() && (#[trigger] groups[i]).target == found.target
                && groups[i].entries.contains(found.entry) {
            let i = choose|i: int|
                0 <= i < groups.len() && (#[trigger] groups[i]).target == found.target
                    && groups[i].entries.contains(found.entry);
            if i < front.len() {
                assert(front[i] == groups[i]);
                let k = choose|k: int| 0 <= k < before.len() && before[k] == found;
                assert(all[k] == found);
            } else {
                let k = choose|k: int| 0 <= k < last.entries.len() && last.entries[k] == found.entry;
                assert(tail[k] == found);
                assert(all[before.len() + k] == found);
            }
        }
    }
}

/// A lookup reports a target and an entry exactly when the target was asked for and reads as a
/// network, and the entry is one of the sources and has an address in common with it.
pub proof fn law_lookup_reports_every_shared_address(
    targets: Seq<Seq<char>>,
    sources: Seq<EntryModel>,
    matches: Seq<MatchModel>,
    target: Seq<char>,
    entry: EntryModel,
)
    requires
        lookup_matches(targets, sources, matches),
        entry.cidr.valid(),
    ensures
        matches.contains(MatchModel { target, entry }) <==> {
            &&& targets.contains(target)
            &&& sources.contains(entry)
            &&& parse_strict(target) is Some
            &&& share_an_address(parse_strict(target)->0, entry.cidr)
        },
{
    let found = MatchModel { target, entry };
    let groups = choose|groups: Seq<GroupModel>| #[trigger]
        lookup_groups(targets, sources, groups) && matches == all_matches(groups);
    lemma_all_matches(groups, found);
    law_groups_report_every_shared_address(targets, sources, groups, target, entry);
}

/// The groups of a lookup are the targets that read as networks, each once, and a group holds
/// exactly the entries that have an address in common with its target.
pub proof fn law_groups_report_every_shared_address(
    targets: Seq<Seq<char>>,
    sources: Seq<EntryModel>,
    groups: Seq<GroupModel>,
    target: Seq<char>,
    entry: EntryModel,
)
    requires
        lookup_groups(targets, sources, groups),
        entry.cidr.valid(),
    ensures
        (exists|i: int| 0 <= i < groups.len() && (#[trigger] groups[i]).target == target)
            <==> targets.contains(target) && parse_strict(target) is Some,
        (exists|i: int|
            0 <= i < groups.len() && (#[trigger] groups[i]).target == target
                && groups[i].entries.contains(entry)) <==> {
            &&& targets.contains(target)
            &&& sources.contains(entry)
            &&& parse_strict(target) is Some
            &&& share_an_address(parse_strict(target)->0, entry.cidr)
        },
        forall|i: int, j: int|
            0 <= i < j < groups.len() ==> (#[trigger] groups[i]).target != (
            #[trigger] groups[j]).target,
{
    let texts = group_targets(groups);
    lemma_target_sound(target);
    lemma_hits(target, entry.cidr);
    assert(texts.contains(target) <==> targets.contains(target) && parse_strict(target) is Some);
    if texts.contains(target) {
        let i = choose|i: int| 0 <= i < texts.len() && texts[i] == target;
        assert(groups[i].target == target);
        assert(matched_entries(groups[i].target, sources, groups[i].entries));
        assert(groups[i].entries.contains(entry) <==> sources.contains(entry) && target_hits(
            target,
            entry.cidr,
        ));
    }
    if exists|i: int| 0 <= i < groups.len() && (#[trigger] groups[i]).target == target {
        let i = choose|i: int| 0 <= i < groups.len() && (#[trigger] groups[i]).target == target;
        assert(texts[i] == target);
    }
    if exists|i: int|
        0 <= i < groups.len() && (#[trigger] groups[i]).target == target
            && groups[i].entries.contains(entry) {
        let i = choose|i: int|
            0 <= i < groups.len() && (#[trigger] groups[i]).target == target
                && groups[i].entries.contains(entry);
        assert(texts[i] == target);
        assert(matched_entries(groups[i].target, sources, groups[i].entries));
    }
    assert forall|i: int, j: int| 0 <= i < j < groups.len() implies (#[trigger] groups[i]).target
        != (#[trigger] groups[j]).target by {
        assert(texts[i] != texts[j]);
    }
}

/// The targets that do not read as networks are listed, each once, and nothing else is.
pub proof fn law_unreadable_targets_are_listed(
    targets: Seq<Seq<char>>,
    invalid: Seq<Seq<char>>,
    target: Seq<char>,
)
    requires
        distinct_targets(targets, false, invalid),
    ensures
        invalid.contains(target) <==> targets.contains(target) && parse_strict(target) is None,
        invalid.no_duplicates(),
{
    assert(invalid.contains(target) <==> targets.contains(target) && parse_strict(target) is None);
}

} // verus!
