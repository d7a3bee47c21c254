//! Stable sorting of owned vectors by a verified total preorder.

use vstd::multiset::Multiset;
use vstd::prelude::*;
use vstd::seq_lib::group_to_multiset_ensures;

verus! {

/// Values with a total preorder; `ranked_le` may tie distinct values.
pub trait Ranked: Sized {
    /// `self` may stand before `other`.
    spec fn ranked_le(self, other: Self) -> bool;

    /// Any two values can be ordered.
    proof fn lemma_ranked_total(a: Self, b: Self)
        ensures
            a.ranked_le(b) || b.ranked_le(a),
    ;

    /// The order is transitive.
    proof fn lemma_ranked_transitive(a: Self, b: Self, c: Self)
        requires
            a.ranked_le(b),
            b.ranked_le(c),
        ensures
            a.ranked_le(c),
    ;

    /// Decides [`Ranked::ranked_le`].
    fn precedes(&self, other: &Self) -> (before: bool)
        ensures
            before == self.ranked_le(*other),
    ;
}

/// Every element may stand before all later ones.
pub open spec fn in_order<T: Ranked>(s: Seq<T>) -> bool {
    forall|i: int, j: int|
        0 <= i < j < s.len() ==> (#[trigger] s[i]).ranked_le(#[trigger] s[j])
}

/// The elements of `s` that tie with `e`, in their order in `s`.
pub open spec fn ties<T: Ranked>(s: Seq<T>, e: T) -> Seq<T> {
    s.filter(|x: T| x.ranked_le(e) && e.ranked_le(x))
}

/// `sorted` holds the elements of `s` in order, and keeps the relative order of ties.
pub open spec fn stably_sorted<T: Ranked>(s: Seq<T>, sorted: Seq<T>) -> bool {
    &&& in_order(sorted)
    &&& sorted.to_multiset() == s.to_multiset()
    &&& forall|e: T| #[trigger] ties(sorted, e) == ties(s, e)
}

proof fn lemma_ties_add<T: Ranked>(a: Seq<T>, b: Seq<T>, e: T)
    ensures
        ties(a + b, e) == ties(a, e) + ties(b, e),
{
    Seq::filter_distributes_over_add(a, b, |x: T| x.ranked_le(e) && e.ranked_le(x));
}

proof fn lemma_ties_empty<T: Ranked>(s: Seq<T>, e: T)
    requires
        forall|i: int|
            0 <= i < s.len() ==> !((#[trigger] s[i]).ranked_le(e) && e.ranked_le(s[i])),
    ensures
        ties(s, e) == Seq::<T>::empty(),
    decreases s.len(),
{
    let p = |x: T| x.ranked_le(e) && e.ranked_le(x);
    reveal(Seq::filter);
    if s.len() > 0 {
        let rest = s.drop_last();
        assert forall|i: int| 0 <= i < rest.len() implies !((#[trigger] rest[i]).ranked_le(e)
            && e.ranked_le(rest[i])) by {
            assert(rest[i] == s[i]);
        }
        lemma_ties_empty(rest, e);
        assert(!p(s[s.len() - 1]));
    }
    assert(ties(s, e) =~= Seq::<T>::empty());
}

/// Moving a value behind elements that rank strictly below it keeps ties in order.
proof fn lemma_ties_swap<T: Ranked>(left: Seq<T>, x: T, right: Seq<T>, tail: Seq<T>, e: T)
    requires
        forall|i: int| 0 <= i < right.len() ==> !x.ranked_le(#[trigger] right[i]),
    ensures
        ties(left + seq![x] + right + tail, e) == ties(left + right + (seq![x] + tail), e),
{
    let one = seq![x];
    lemma_ties_add(left + one + right, tail, e);
    lemma_ties_add(left + one, right, e);
    lemma_ties_add(left, one, e);
    lemma_ties_add(left + right, one + tail, e);
    lemma_ties_add(left, right, e);
    lemma_ties_add(one, tail, e);
    if x.ranked_le(e) && e.ranked_le(x) {
        assert forall|i: int| 0 <= i < right.len() implies !((#[trigger] right[i]).ranked_le(e)
            && e.ranked_le(right[i])) by {
            if e.ranked_le(right[i]) {
                T::lemma_ranked_transitive(x, e, right[i]);
            }
        }
        lemma_ties_empty(right, e);
    } else {
        lemma_ties_empty(one, e);
    }
    assert(ties(left + one + right + tail, e) =~= ties(left + right + (one + tail), e));
}

/// Reverses a vector.
pub(crate) fn reversed<T>(mut items: Vec<T>) -> (out: Vec<T>)
    ensures
        out@ == items@.reverse(),
{
    let ghost original = items@;
    let mut out: Vec<T> = Vec::with_capacity(items.len());
    while items.len() > 0
        invariant
            items@.len() + out@.len() == original.len(),
            items@ == original.take(items@.len() as int),
            forall|i: int|
                0 <= i < out@.len() ==> #[trigger] out@[i] == original[original.len() - 1 - i],
        decreases items@.len(),
    {
        if let Some(item) = items.pop() {
            out.push(item);
        }
        assert(items@ =~= original.take(items@.len() as int));
    }
    assert(out@ =~= original.reverse());
    out
}

/// State of a merge: `left` and `right` are what is left of the inputs, `tail` is the sorted end
/// of the result.
spec fn merging<T: Ranked>(
    left0: Seq<T>,
    right0: Seq<T>,
    left: Seq<T>,
    right: Seq<T>,
    tail: Seq<T>,
) -> bool {
    &&& in_order(left)
    &&& in_order(right)
    &&& in_order(tail)
    &&& forall|i: int, j: int|
        0 <= i < left.len() && 0 <= j < tail.len() ==> (#[trigger] left[i]).ranked_le(
            #[trigger] tail[j],
        )
    &&& forall|i: int, j: int|
        0 <= i < right.len() && 0 <= j < tail.len() ==> (#[trigger] right[i]).ranked_le(
            #[trigger] tail[j],
        )
    &&& left.to_multiset().add(right.to_multiset()).add(tail.to_multiset())
        == left0.to_multiset().add(right0.to_multiset())
    &&& forall|e: T| #[trigger] ties(left + right + tail, e) == ties(left0 + right0, e)
}

proof fn lemma_merge_take_right<T: Ranked>(
    left0: Seq<T>,
    right0: Seq<T>,
    left: Seq<T>,
    right: Seq<T>,
    tail: Seq<T>,
)
    requires
        merging(left0, right0, left, right, tail),
        right.len() > 0,
        left.len() > 0 ==> left.last().ranked_le(right.last()),
    ensures
        merging(left0, right0, left, right.drop_last(), seq![right.last()] + tail),
{
    let x = right.last();
    let rest = right.drop_last();
    let next = seq![x] + tail;
    assert forall|i: int, j: int| 0 <= i < j < next.len() implies (#[trigger] next[i]).ranked_le(
        #[trigger] next[j],
    ) by {
        if i == 0 {
            assert(next[j] == tail[j - 1]);
            assert(right[right.len() - 1].ranked_le(tail[j - 1]));
        } else {
            assert(tail[i - 1].ranked_le(tail[j - 1]));
        }
    }
    assert forall|i: int, j: int|
        0 <= i < left.len() && 0 <= j < next.len() implies (#[trigger] left[i]).ranked_le(
        #[trigger] next[j],
    ) by {
        if j == 0 {
            if i < left.len() - 1 {
                assert(left[i].ranked_le(left[left.len() - 1]));
                T::lemma_ranked_transitive(left[i], left.last(), x);
            }
        } else {
            assert(left[i].ranked_le(tail[j - 1]));
        }
    }
    assert forall|i: int, j: int|
        0 <= i < rest.len() && 0 <= j < next.len() implies (#[trigger] rest[i]).ranked_le(
        #[trigger] next[j],
    ) by {
        assert(rest[i] == right[i]);
        if j == 0 {
            assert(right[i].ranked_le(right[right.len() - 1]));
        } else {
            assert(right[i].ranked_le(tail[j - 1]));
        }
    }
    lemma_move_multiset(right, tail);
    lemma_add_swap(left.to_multiset(), rest.to_multiset(), next.to_multiset(), right.to_multiset(), tail.to_multiset());
    assert(left.to_multiset().add(rest.to_multiset()).add(next.to_multiset())
        =~= left.to_multiset().add(right.to_multiset()).add(tail.to_multiset()));
    assert forall|e: T| #[trigger] ties(left + rest + next, e) == ties(left0 + right0, e) by {
        assert(left + rest + next =~= left + right + tail);
    }
}

proof fn lemma_merge_take_left<T: Ranked>(
    left0: Seq<T>,
    right0: Seq<T>,
    left: Seq<T>,
    right: Seq<T>,
    tail: Seq<T>,
)
    requires
        merging(left0, right0, left, right, tail),
        left.len() > 0,
        right.len() > 0 ==> !left.last().ranked_le(right.last()),
    ensures
        merging(left0, right0, left.drop_last(), right, seq![left.last()] + tail),
{
    let x = left.last();
    let rest = left.drop_last();
    let next = seq![x] + tail;
    assert forall|i: int| 0 <= i < right.len() implies !x.ranked_le(#[trigger] right[i])
        && right[i].ranked_le(x) by {
        if x.ranked_le(right[i]) && i < right.len() - 1 {
            assert(right[i].ranked_le(right[right.len() - 1]));
            T::lemma_ranked_transitive(x, right[i], right.last());
        }
        T::lemma_ranked_total(x, right[i]);
    }
    assert forall|i: int, j: int| 0 <= i < j < next.len() implies (#[trigger] next[i]).ranked_le(
        #[trigger] next[j],
    ) by {
        if i == 0 {
            assert(next[j] == tail[j - 1]);
            assert(left[left.len() - 1].ranked_le(tail[j - 1]));
        } else {
            assert(tail[i - 1].ranked_le(tail[j - 1]));
        }
    }
    assert forall|i: int, j: int|
        0 <= i < rest.len() && 0 <= j < next.len() implies (#[trigger] rest[i]).ranked_le(
        #[trigger] next[j],
    ) by {
        assert(rest[i] == left[i]);
        if j == 0 {
            assert(left[i].ranked_le(left[left.len() - 1]));
        } else {
            assert(left[i].ranked_le(tail[j - 1]));
        }
    }
    assert forall|i: int, j: int|
        0 <= i < right.len() && 0 <= j < next.len() implies (#[trigger] right[i]).ranked_le(
        #[trigger] next[j],
    ) by {
        if j > 0 {
            assert(right[i].ranked_le(tail[j - 1]));
        }
    }
    lemma_move_multiset(left, tail);
    lemma_add_swap(right.to_multiset(), rest.to_multiset(), next.to_multiset(), left.to_multiset(), tail.to_multiset());
    assert(rest.to_multiset().add(right.to_multiset()).add(next.to_multiset())
        =~= left.to_multiset().add(right.to_multiset()).add(tail.to_multiset()));
    assert forall|e: T| #[trigger] ties(rest + right + next, e) == ties(left0 + right0, e) by {
        lemma_ties_swap(rest, x, right, tail, e);
        assert(rest + seq![x] =~= left);
        assert(ties(left + right + tail, e) == ties(left0 + right0, e));
    }
}

/// Joint contents stay equal when a third part is joined to both.
proof fn lemma_add_swap<T>(
    fixed: Multiset<T>,
    a: Multiset<T>,
    b: Multiset<T>,
    c: Multiset<T>,
    d: Multiset<T>,
)
    requires
        a.add(b) == c.add(d),
    ensures
        fixed.add(a).add(b) =~= fixed.add(c).add(d),
        a.add(fixed).add(b) =~= c.add(fixed).add(d),
{
    broadcast use vstd::multiset::group_multiset_axioms;

    assert forall|v: T| #[trigger] fixed.add(a).add(b).count(v) == fixed.add(c).add(d).count(v) by {
        assert(a.add(b).count(v) == a.count(v) + b.count(v));
        assert(c.add(d).count(v) == c.count(v) + d.count(v));
        assert(fixed.add(a).add(b).count(v) == fixed.count(v) + a.count(v) + b.count(v));
        assert(fixed.add(c).add(d).count(v) == fixed.count(v) + c.count(v) + d.count(v));
    }
    assert forall|v: T| #[trigger] a.add(fixed).add(b).count(v) == c.add(fixed).add(d).count(v) by {
        assert(a.add(b).count(v) == a.count(v) + b.count(v));
        assert(c.add(d).count(v) == c.count(v) + d.count(v));
        assert(a.add(fixed).add(b).count(v) == fixed.count(v) + a.count(v) + b.count(v));
        assert(c.add(fixed).add(d).count(v) == fixed.count(v) + c.count(v) + d.count(v));
    }
}

/// Moving the last element of one sequence to the front of another keeps their joint contents.
proof fn lemma_move_multiset<T>(from: Seq<T>, to: Seq<T>)
    requires
        from.len() > 0,
    ensures
        from.drop_last().to_multiset().add((seq![from.last()] + to).to_multiset())
            =~= from.to_multiset().add(to.to_multiset()),
{
    broadcast use group_to_multiset_ensures;

    let x = from.last();
    assert(from =~= from.drop_last().push(x));
    assert((seq![x] + to).remove(0) =~= to);
    assert((seq![x] + to)[0] == x);
    assert((seq![x] + to).to_multiset().count(x) > 0) by {
        assert((seq![x] + to).contains(x));
    }
    assert((seq![x] + to).to_multiset() =~= to.to_multiset().insert(x));
}

proof fn lemma_concat_multiset<T>(a: Seq<T>, b: Seq<T>)
    ensures
        (a + b).to_multiset() =~= a.to_multiset().add(b.to_multiset()),
    decreases a.len(),
{
    broadcast use group_to_multiset_ensures;

    if a.len() == 0 {
        assert(a + b =~= b);
        assert(a.to_multiset() =~= vstd::multiset::Multiset::empty()) by {
            assert(a.to_multiset().len() == 0);
        }
    } else {
        let x = a.last();
        lemma_concat_multiset(a.drop_last(), b);
        lemma_concat_multiset(a.drop_last(), seq![x] + b);
        assert(a + b =~= a.drop_last() + (seq![x] + b));
        lemma_move_multiset(a, b);
    }
}

/// Merges two ordered vectors; of tied values those of `left` come first.
fn merge<T: Ranked>(left: Vec<T>, right: Vec<T>) -> (merged: Vec<T>)
    requires
        in_order(left@),
        in_order(right@),
    ensures
        stably_sorted(left@ + right@, merged@),
{
    let ghost left0 = left@;
    let ghost right0 = right@;
    let mut left = left;
    let mut right = right;
    let mut out: Vec<T> = Vec::new();
    proof {
        broadcast use group_to_multiset_ensures;

        assert(out@.reverse() =~= Seq::<T>::empty());
        assert(Seq::<T>::empty().to_multiset() =~= vstd::multiset::Multiset::empty()) by {
            assert(Seq::<T>::empty().to_multiset().len() == 0);
        }
        assert(left@.to_multiset().add(right@.to_multiset()).add(out@.reverse().to_multiset())
            =~= left0.to_multiset().add(right0.to_multiset()));
        assert(left@ + right@ + out@.reverse() =~= left0 + right0);
    }
    while left.len() > 0 || right.len() > 0
        invariant
            merging(left0, right0, left@, right@, out@.reverse()),
        decreases left@.len() + right@.len(),
    {
        let take_right: bool = if left.len() == 0 {
            true
        } else if right.len() == 0 {
            false
        } else {
            left[left.len() - 1].precedes(&right[right.len() - 1])
        };
        let ghost left1 = left@;
        let ghost right1 = right@;
        let ghost out1 = out@;
        if take_right {
            proof {
                lemma_merge_take_right(left0, right0, left1, right1, out1.reverse());
            }
            if let Some(item) = right.pop() {
                out.push(item);
            }
            assert(out@.reverse() =~= seq![right1.last()] + out1.reverse());
        } else {
            proof {
                lemma_merge_take_left(left0, right0, left1, right1, out1.reverse());
            }
            if let Some(item) = left.pop() {
                out.push(item);
            }
            assert(out@.reverse() =~= seq![left1.last()] + out1.reverse());
        }
    }
    let ghost tail = out@.reverse();
    proof {
        broadcast use group_to_multiset_ensures;

        assert(left@ =~= Seq::<T>::empty());
        assert(right@ =~= Seq::<T>::empty());
        assert(Seq::<T>::empty().to_multiset() =~= vstd::multiset::Multiset::empty()) by {
            assert(Seq::<T>::empty().to_multiset().len() == 0);
        }
        assert(left@ + right@ + tail =~= tail);
        lemma_concat_multiset(left0, right0);
        assert(tail.to_multiset() =~= left@.to_multiset().add(right@.to_multiset()).add(
            tail.to_multiset(),
        ));
        assert forall|e: T| #[trigger] ties(tail, e) == ties(left0 + right0, e) by {
            assert(ties(left@ + right@ + tail, e) == ties(left0 + right0, e));
        }
    }
    reversed(out)
}

/// Sorts a vector, keeping tied values in their original order.
pub fn sort_stable<T: Ranked>(items: Vec<T>) -> (sorted: Vec<T>)
    ensures
        stably_sorted(items@, sorted@),
    decreases items@.len(),
{
    if items.len() < 2 {
        return items;
    }
    let ghost original = items@;
    let mut left = items;
    let mid: usize = left.len() / 2;
    let right = left.split_off(mid);
    let ghost left1 = left@;
    let ghost right1 = right@;
    assert(left1 + right1 =~= original);
    let left = sort_stable(left);
    let right = sort_stable(right);
    let merged = merge(left, right);
    proof {
        lemma_concat_multiset(left1, right1);
        lemma_concat_multiset(left@, right@);
        assert forall|e: T| #[trigger] ties(merged@, e) == ties(original, e) by {
            lemma_ties_add(left1, right1, e);
            lemma_ties_add(left@, right@, e);
            assert(ties(left@, e) == ties(left1, e));
            assert(ties(right@, e) == ties(right1, e));
        }
    }
    merged
}

/// A sorted sequence has the members of the original.
pub proof fn lemma_sorted_members<T: Ranked>(s: Seq<T>, sorted: Seq<T>)
    requires
        stably_sorted(s, sorted),
    ensures
        forall|x: T| #[trigger] s.contains(x) <==> sorted.contains(x),
        forall|i: int| 0 <= i < sorted.len() ==> s.contains(#[trigger] sorted[i]),
        forall|i: int| 0 <= i < s.len() ==> sorted.contains(#[trigger] s[i]),
        s.len() == sorted.len(),
{
    broadcast use group_to_multiset_ensures;

    assert(s.to_multiset().len() == sorted.to_multiset().len());
    assert forall|x: T| #[trigger] s.contains(x) <==> sorted.contains(x) by {
        assert(s.to_multiset().count(x) > 0 <==> s.contains(x));
        assert(sorted.to_multiset().count(x) > 0 <==> sorted.contains(x));
    }
    assert forall|i: int| 0 <= i < sorted.len() implies s.contains(#[trigger] sorted[i]) by {
        assert(sorted.contains(sorted[i]));
    }
    assert forall|i: int| 0 <= i < s.len() implies sorted.contains(#[trigger] s[i]) by {
        assert(s.contains(s[i]));
    }
}

/// No element may stand before an earlier one: ordered without ties.
pub open spec fn strictly_ordered<T: Ranked>(s: Seq<T>) -> bool {
    forall|i: int, j: int|
        0 <= i < j < s.len() ==> !(#[trigger] s[j]).ranked_le(#[trigger] s[i])
}

/// One of the elements ties with `x`.
pub open spec fn has_tie<T: Ranked>(s: Seq<T>, x: T) -> bool {
    exists|k: int| 0 <= k < s.len() && (#[trigger] s[k]).ranked_le(x) && x.ranked_le(s[k])
}

/// `unique` holds one of each group of ties among `all`, in order.
pub open spec fn deduplicated<T: Ranked>(all: Seq<T>, unique: Seq<T>) -> bool {
    &&& strictly_ordered(unique)
    &&& in_order(unique)
    &&& forall|k: int| 0 <= k < unique.len() ==> all.contains(#[trigger] unique[k])
    &&& forall|m: int| 0 <= m < all.len() ==> has_tie(unique, #[trigger] all[m])
}

proof fn lemma_dedup_step<T: Ranked>(all: Seq<T>, unique: Seq<T>, x: T, keep: bool)
    requires
        in_order(all.push(x)),
        deduplicated(all, unique),
        keep == (unique.len() == 0 || !x.ranked_le(unique.last())),
    ensures
        deduplicated(
            all.push(x),
            if keep {
                unique.push(x)
            } else {
                unique
            },
        ),
{
    let more = all.push(x);
    let next = if keep {
        unique.push(x)
    } else {
        unique
    };
    assert forall|k: int| 0 <= k < unique.len() implies (#[trigger] unique[k]).ranked_le(x) by {
        assert(all.contains(unique[k]));
        let m = choose|m: int| 0 <= m < all.len() && all[m] == unique[k];
        assert(more[m].ranked_le(more[all.len() as int]));
    }
    assert forall|k: int| 0 <= k < next.len() implies more.contains(#[trigger] next[k]) by {
        if k < unique.len() {
            let m = choose|m: int| 0 <= m < all.len() && all[m] == unique[k];
            assert(more[m] == next[k]);
        } else {
            assert(more[all.len() as int] == next[k]);
        }
    }
    if keep {
        assert forall|i: int, j: int| 0 <= i < j < next.len() implies !(#[trigger] next[j]).ranked_le(
            #[trigger] next[i],
        ) && next[i].ranked_le(next[j]) by {
            assert(next[i] == unique[i]);
            if j < unique.len() {
                assert(next[j] == unique[j]);
            } else if x.ranked_le(unique[i]) && i < unique.len() - 1 {
                assert(unique[i].ranked_le(unique[unique.len() - 1]));
                T::lemma_ranked_transitive(x, unique[i], unique.last());
            }
        }
    }
    assert forall|m: int| 0 <= m < more.len() implies has_tie(next, #[trigger] more[m]) by {
        if m < all.len() {
            assert(has_tie(unique, all[m]));
            let k = choose|k: int|
                0 <= k < unique.len() && (#[trigger] unique[k]).ranked_le(all[m])
                    && all[m].ranked_le(unique[k]);
            assert(next[k] == unique[k]);
        } else if keep {
            T::lemma_ranked_total(x, x);
            assert(next[unique.len() as int] == x);
        } else {
            assert(next[unique.len() - 1].ranked_le(x));
        }
    }
}

/// Drops every element that ties with its predecessor.
pub fn dedup_sorted<T: Ranked>(items: Vec<T>) -> (unique: Vec<T>)
    requires
        in_order(items@),
    ensures
        deduplicated(items@, unique@),
{
    let ghost all = items@;
    let mut rest: Vec<T> = reversed(items);
    let mut unique: Vec<T> = Vec::new();
    let ghost mut i: int = 0;
    while rest.len() > 0
        invariant
            0 <= i <= all.len(),
            in_order(all),
            rest@.len() == all.len() - i,
            forall|k: int| 0 <= k < rest@.len() ==> #[trigger] rest@[k] == all[all.len() - 1 - k],
            deduplicated(all.take(i), unique@),
        decreases rest@.len(),
    {
        let ghost before = unique@;
        assert(rest@[rest@.len() - 1] == all[i]);
        if let Some(item) = rest.pop() {
            let keep: bool = unique.len() == 0 || !item.precedes(&unique[unique.len() - 1]);
            proof {
                assert(all.take(i + 1) =~= all.take(i).push(item));
                lemma_dedup_step(all.take(i), before, item, keep);
                i = i + 1;
            }
            if keep {
                unique.push(item);
            }
        }
    }
    assert(all.take(i) =~= all);
    unique
}

/// Strictly ascending list of exactly the indexes below `n` that satisfy `chosen`.
pub open spec fn selects(indexes: Seq<usize>, n: nat, chosen: spec_fn(int) -> bool) -> bool {
    &&& forall|a: int, b: int|
        0 <= a < b < indexes.len() ==> #[trigger] indexes[a] < #[trigger] indexes[b]
    &&& forall|a: int| 0 <= a < indexes.len() ==> (#[trigger] indexes[a]) < n && chosen(
        indexes[a] as int,
    )
    &&& forall|i: int|
        #![trigger chosen(i)]
        0 <= i < n && chosen(i) ==> exists|a: int| 0 <= a < indexes.len() && #[trigger] indexes[a] == i
}

} // verus!
