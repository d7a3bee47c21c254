//! Two-pass radix sort of IPv4 intervals by their first address.

use crate::policy::intervals::IntervalU32;
use vstd::prelude::*;
use vstd::seq_lib::group_to_multiset_ensures;

verus! {

/// Number of buckets of one pass: one per value of 16 bits.
pub const RADIX_BUCKETS_U16: usize = 65536;

/// Half of the first address that a pass sorts by.
spec fn radix_key(x: IntervalU32, high: bool) -> int {
    if high {
        x.start as int / 65536
    } else {
        x.start as int % 65536
    }
}

/// Number of elements with the given key.
spec fn count_key(s: Seq<IntervalU32>, high: bool, key: int) -> nat
    decreases s.len(),
{
    if s.len() == 0 {
        0
    } else {
        count_key(s.drop_last(), high, key) + (if radix_key(s.last(), high) == key {
            1nat
        } else {
            0nat
        })
    }
}

/// Number of elements with a smaller key.
spec fn count_below(s: Seq<IntervalU32>, high: bool, key: int) -> nat
    decreases s.len(),
{
    if s.len() == 0 {
        0
    } else {
        count_below(s.drop_last(), high, key) + (if radix_key(s.last(), high) < key {
            1nat
        } else {
            0nat
        })
    }
}

proof fn lemma_count_bounds(s: Seq<IntervalU32>, high: bool, key: int)
    ensures
        count_below(s, high, key + 1) == count_below(s, high, key) + count_key(s, high, key),
        count_below(s, high, key) <= s.len(),
    decreases s.len(),
{
    if s.len() > 0 {
        lemma_count_bounds(s.drop_last(), high, key);
    }
}

proof fn lemma_below_mono(s: Seq<IntervalU32>, high: bool, a: int, b: int)
    requires
        a <= b,
    ensures
        count_below(s, high, a) <= count_below(s, high, b),
    decreases s.len(),
{
    if s.len() > 0 {
        lemma_below_mono(s.drop_last(), high, a, b);
    }
}

proof fn lemma_below_zero(s: Seq<IntervalU32>, high: bool)
    ensures
        count_below(s, high, 0) == 0,
    decreases s.len(),
{
    if s.len() > 0 {
        lemma_below_zero(s.drop_last(), high);
    }
}

proof fn lemma_count_take(s: Seq<IntervalU32>, high: bool, key: int, i: int, j: int)
    requires
        0 <= i <= j <= s.len(),
    ensures
        count_key(s.take(i), high, key) <= count_key(s.take(j), high, key),
        i < j && radix_key(s[i], high) == key ==> count_key(s.take(i), high, key) < count_key(
            s.take(j),
            high,
            key,
        ),
    decreases j - i,
{
    if i < j {
        lemma_count_take(s, high, key, i, j - 1);
        assert(s.take(j).drop_last() =~= s.take(j - 1));
        assert(s.take(j).last() == s[j - 1]);
    }
}

/// Position of element `i` after a pass: behind all smaller keys and earlier equal ones.
spec fn slot(s: Seq<IntervalU32>, high: bool, i: int) -> int {
    let key = radix_key(s[i], high);
    count_below(s, high, key) as int + count_key(s.take(i), high, key) as int
}

proof fn lemma_slot_range(s: Seq<IntervalU32>, high: bool, i: int)
    requires
        0 <= i < s.len(),
    ensures
        0 <= slot(s, high, i) < s.len(),
        slot(s, high, i) < count_below(s, high, radix_key(s[i], high) + 1),
{
    let key = radix_key(s[i], high);
    lemma_count_take(s, high, key, i, s.len() as int);
    assert(s.take(s.len() as int) =~= s);
    lemma_count_bounds(s, high, key);
    lemma_count_bounds(s, high, key + 1);
}

proof fn lemma_slot_order(s: Seq<IntervalU32>, high: bool, i: int, j: int)
    requires
        0 <= i < s.len(),
        0 <= j < s.len(),
        radix_key(s[i], high) < radix_key(s[j], high) || (radix_key(s[i], high) == radix_key(
            s[j],
            high,
        ) && i < j),
    ensures
        slot(s, high, i) < slot(s, high, j),
{
    let ki = radix_key(s[i], high);
    let kj = radix_key(s[j], high);
    if ki < kj {
        lemma_slot_range(s, high, i);
        lemma_below_mono(s, high, ki + 1, kj);
    } else {
        lemma_count_take(s, high, ki, i, j);
    }
}

/// Sequences that correspond under an injection of indices have the same contents.
proof fn lemma_injection_multiset(s: Seq<IntervalU32>, t: Seq<IntervalU32>, f: Seq<int>)
    requires
        s.len() == t.len() == f.len(),
        forall|i: int| 0 <= i < f.len() ==> 0 <= #[trigger] f[i] < t.len() && t[f[i]] == s[i],
        forall|i: int, j: int| 0 <= i < j < f.len() ==> #[trigger] f[i] != #[trigger] f[j],
    ensures
        s.to_multiset() =~= t.to_multiset(),
    decreases s.len(),
{
    broadcast use group_to_multiset_ensures;

    if s.len() == 0 {
        assert(s =~= t);
    } else {
        let n = s.len() - 1;
        let p = f[n];
        let s1 = s.drop_last();
        let t1 = t.remove(p);
        let f1 = Seq::new(
            n as nat,
            |i: int|
                if f[i] < p {
                    f[i]
                } else {
                    f[i] - 1
                },
        );
        assert forall|i: int| 0 <= i < f1.len() implies 0 <= #[trigger] f1[i] < t1.len()
            && t1[f1[i]] == s1[i] by {
            assert(f[i] != f[n]);
            assert(t[f[i]] == s[i]);
        }
        assert forall|i: int, j: int| 0 <= i < j < f1.len() implies #[trigger] f1[i]
            != #[trigger] f1[j] by {
            assert(f[i] != f[j]);
            assert(f[i] != f[n] && f[j] != f[n]);
        }
        lemma_injection_multiset(s1, t1, f1);
        assert(s =~= s1.push(s[n]));
        assert(t[p] == s[n]);
        assert(t.remove(p).to_multiset() =~= t.to_multiset().remove(t[p]));
        assert(t.contains(t[p]));
        assert(t.to_multiset().count(t[p]) > 0);
        assert(s.to_multiset() =~= s1.to_multiset().insert(s[n]));
        assert(t.to_multiset() =~= t1.to_multiset().insert(t[p]));
    }
}

/// Intervals with the first address, in order.
pub open spec fn starting(intervals: Seq<IntervalU32>, start: u32) -> Seq<IntervalU32> {
    intervals.filter(|x: IntervalU32| x.start == start)
}

/// Nothing is kept of a list without members of the kind.
proof fn lemma_filter_none(s: Seq<IntervalU32>, kind: spec_fn(IntervalU32) -> bool)
    requires
        forall|i: int| 0 <= i < s.len() ==> !kind(#[trigger] s[i]),
    ensures
        s.filter(kind) == Seq::<IntervalU32>::empty(),
    decreases s.len(),
{
    reveal(Seq::filter);
    if s.len() > 0 {
        lemma_filter_none(s.drop_last(), kind);
    }
}

/// Sequences that correspond under an injection of indices, which keeps the order of the members of
/// a kind, hold the same members of that kind in the same order.
proof fn lemma_injection_filter(
    s: Seq<IntervalU32>,
    t: Seq<IntervalU32>,
    f: Seq<int>,
    kind: spec_fn(IntervalU32) -> bool,
)
    requires
        s.len() == t.len() == f.len(),
        forall|i: int| 0 <= i < f.len() ==> 0 <= #[trigger] f[i] < t.len() && t[f[i]] == s[i],
        forall|i: int, j: int| 0 <= i < j < f.len() ==> #[trigger] f[i] != #[trigger] f[j],
        forall|i: int, j: int|
            0 <= i < j < f.len() && kind(s[i]) && kind(s[j]) ==> #[trigger] f[i] < #[trigger] f[j],
    ensures
        s.filter(kind) == t.filter(kind),
    decreases s.len(),
{
    if s.len() == 0 {
        assert(s =~= t);
    } else {
        let n = s.len() - 1;
        let p = f[n];
        let s1 = s.drop_last();
        let t1 = t.remove(p);
        let f1 = Seq::new(
            n as nat,
            |i: int|
                if f[i] < p {
                    f[i]
                } else {
                    f[i] - 1
                },
        );
        assert forall|i: int| 0 <= i < f1.len() implies 0 <= #[trigger] f1[i] < t1.len()
            && t1[f1[i]] == s1[i] by {
            assert(f[i] != f[n]);
            assert(t[f[i]] == s[i]);
        }
        assert forall|i: int, j: int| 0 <= i < j < f1.len() implies #[trigger] f1[i]
            != #[trigger] f1[j] by {
            assert(f[i] != f[j]);
            assert(f[i] != f[n] && f[j] != f[n]);
        }
        assert forall|i: int, j: int|
            0 <= i < j < f1.len() && kind(s1[i]) && kind(s1[j]) implies #[trigger] f1[i]
            < #[trigger] f1[j] by {
            assert(f[i] < f[j]);
            assert(f[i] != f[n] && f[j] != f[n]);
        }
        lemma_injection_filter(s1, t1, f1, kind);
        let front = t.take(p);
        let back = t.skip(p + 1);
        let one = seq![t[p]];
        assert(t1 =~= front + back);
        assert(t =~= front + one + back);
        assert(s =~= s1 + one);
        Seq::filter_distributes_over_add(front, back, kind);
        Seq::filter_distributes_over_add(front + one, back, kind);
        Seq::filter_distributes_over_add(front, one, kind);
        Seq::filter_distributes_over_add(s1, one, kind);
        if kind(t[p]) {
            assert forall|m: int| 0 <= m < back.len() implies !kind(#[trigger] back[m]) by {
                lemma_injection_onto(f, p + 1 + m);
                let i = choose|i: int| 0 <= i < f.len() && #[trigger] f[i] == p + 1 + m;
                assert(t[f[i]] == s[i]);
                if kind(back[m]) {
                    assert(f[i] < f[n]);
                }
            }
            lemma_filter_none(back, kind);
            assert(t.filter(kind) =~= s.filter(kind));
        } else {
            lemma_filter_none(one, kind);
            assert(t.filter(kind) =~= s.filter(kind));
        }
    }
}

/// An injection of `0 .. n` into itself reaches every index.
proof fn lemma_injection_onto(f: Seq<int>, p: int)
    requires
        forall|i: int| 0 <= i < f.len() ==> 0 <= #[trigger] f[i] < f.len(),
        forall|i: int, j: int| 0 <= i < j < f.len() ==> #[trigger] f[i] != #[trigger] f[j],
        0 <= p < f.len(),
    ensures
        exists|i: int| 0 <= i < f.len() && #[trigger] f[i] == p,
{
    assert(f.no_duplicates());
    f.unique_seq_to_set();
    let range = vstd::set_lib::set_int_range(0, f.len() as int);
    vstd::set_lib::lemma_int_range(0, f.len() as int);
    assert(f.to_set().subset_of(range)) by {
        assert forall|x: int| f.to_set().contains(x) implies range.contains(x) by {
            let i = choose|i: int| 0 <= i < f.len() && f[i] == x;
            assert(f[i] == x);
        }
    }
    vstd::set_lib::lemma_len_subset(f.to_set(), range);
    vstd::set_lib::lemma_subset_equality(f.to_set(), range);
    assert(range.contains(p));
    assert(f.to_set().contains(p));
}

/// Result of one pass: the same elements, ordered by key, equal keys in their earlier order.
spec fn pass_result(src: Seq<IntervalU32>, dst: Seq<IntervalU32>, high: bool) -> bool {
    &&& src.to_multiset() == dst.to_multiset()
    &&& src.len() == dst.len()
    &&& forall|p: int, q: int|
        0 <= p < q < dst.len() ==> radix_key(#[trigger] dst[p], high) <= radix_key(
            #[trigger] dst[q],
            high,
        )
    &&& forall|p: int, q: int|
        #![trigger dst[p], dst[q]]
        0 <= p < q < dst.len() && radix_key(dst[p], high) == radix_key(dst[q], high)
            ==> exists|i: int, j: int|
            0 <= i < j < src.len() && #[trigger] src[i] == dst[p] && #[trigger] src[j] == dst[q]
    &&& forall|start: u32| #[trigger] starting(dst, start) == starting(src, start)
}

proof fn lemma_pass_result(src: Seq<IntervalU32>, dst: Seq<IntervalU32>, high: bool)
    requires
        src.len() == dst.len(),
        forall|i: int| 0 <= i < src.len() ==> dst[#[trigger] slot(src, high, i)] == src[i],
    ensures
        pass_result(src, dst, high),
{
    let f = Seq::new(src.len(), |i: int| slot(src, high, i));
    assert forall|i: int| 0 <= i < f.len() implies 0 <= #[trigger] f[i] < dst.len() && dst[f[i]]
        == src[i] by {
        lemma_slot_range(src, high, i);
        assert(dst[slot(src, high, i)] == src[i]);
    }
    assert forall|i: int, j: int| 0 <= i < j < f.len() implies #[trigger] f[i]
        != #[trigger] f[j] by {
        if radix_key(src[i], high) <= radix_key(src[j], high) {
            lemma_slot_order(src, high, i, j);
        } else {
            lemma_slot_order(src, high, j, i);
        }
    }
    lemma_injection_multiset(src, dst, f);
    assert forall|start: u32| #[trigger] starting(dst, start) == starting(src, start) by {
        let kind = |x: IntervalU32| x.start == start;
        assert forall|i: int, j: int|
            0 <= i < j < f.len() && kind(src[i]) && kind(src[j]) implies #[trigger] f[i]
            < #[trigger] f[j] by {
            lemma_slot_order(src, high, i, j);
        }
        lemma_injection_filter(src, dst, f, kind);
    }
    assert forall|p: int, q: int| 0 <= p < q < dst.len() implies radix_key(
        #[trigger] dst[p],
        high,
    ) <= radix_key(#[trigger] dst[q], high) && (radix_key(dst[p], high) == radix_key(dst[q], high)
        ==> exists|i: int, j: int|
        0 <= i < j < src.len() && #[trigger] src[i] == dst[p] && #[trigger] src[j] == dst[q]) by {
        lemma_injection_onto(f, p);
        lemma_injection_onto(f, q);
        let i = choose|i: int| 0 <= i < f.len() && #[trigger] f[i] == p;
        let j = choose|j: int| 0 <= j < f.len() && #[trigger] f[j] == q;
        assert(src[i] == dst[p] && src[j] == dst[q]);
        if radix_key(src[j], high) < radix_key(src[i], high) {
            lemma_slot_order(src, high, j, i);
        }
        if radix_key(src[i], high) == radix_key(src[j], high) && j < i {
            lemma_slot_order(src, high, j, i);
        }
    }
}

/// Bucket of an interval in one pass.
fn bucket_of(start: u32, high: bool) -> (bucket: usize)
    ensures
        bucket < RADIX_BUCKETS_U16,
        forall|x: IntervalU32| x.start == start ==> bucket == #[trigger] radix_key(x, high),
{
    if high {
        (start / 65536) as usize
    } else {
        (start % 65536) as usize
    }
}

/// One counting pass: writes `src` to `dst`, stably ordered by one half of the first address.
fn radix_pass(src: &Vec<IntervalU32>, dst: &mut Vec<IntervalU32>, high: bool)
    requires
        old(dst)@.len() == src@.len(),
    ensures
        pass_result(src@, final(dst)@, high),
{
    let n: usize = src.len();
    let mut counts: Vec<usize> = vec![0usize; RADIX_BUCKETS_U16];
    let mut i: usize = 0;
    while i < n
        invariant
            n == src@.len(),
            0 <= i <= n,
            counts@.len() == RADIX_BUCKETS_U16,
            forall|b: int|
                0 <= b < RADIX_BUCKETS_U16 ==> #[trigger] counts@[b] == count_key(
                    src@.take(i as int),
                    high,
                    b,
                ) && counts@[b] <= i,
        decreases n - i,
    {
        let bucket: usize = bucket_of(src[i].start, high);
        proof {
            assert(src@.take(i as int + 1).drop_last() =~= src@.take(i as int));
            assert(src@.take(i as int + 1).last() == src@[i as int]);
            assert(radix_key(src@[i as int], high) == bucket);
        }
        let seen: usize = counts[bucket];
        counts.set(bucket, seen + 1);
        i += 1;
    }
    assert(src@.take(n as int) =~= src@);
    let mut running: usize = 0;
    let mut b: usize = 0;
    proof {
        lemma_below_zero(src@, high);
    }
    while b < RADIX_BUCKETS_U16
        invariant
            n == src@.len(),
            0 <= b <= RADIX_BUCKETS_U16,
            counts@.len() == RADIX_BUCKETS_U16,
            running == count_below(src@, high, b as int),
            forall|k: int|
                0 <= k < b ==> #[trigger] counts@[k] == count_below(src@, high, k),
            forall|k: int|
                b <= k < RADIX_BUCKETS_U16 ==> #[trigger] counts@[k] == count_key(src@, high, k),
        decreases RADIX_BUCKETS_U16 - b,
    {
        let current: usize = counts[b];
        proof {
            lemma_count_bounds(src@, high, b as int);
            lemma_count_bounds(src@, high, b as int + 1);
        }
        counts.set(b, running);
        running = running + current;
        b += 1;
    }
    let mut i: usize = 0;
    while i < n
        invariant
            n == src@.len(),
            0 <= i <= n,
            dst@.len() == n,
            counts@.len() == RADIX_BUCKETS_U16,
            forall|b: int|
                0 <= b < RADIX_BUCKETS_U16 ==> #[trigger] counts@[b] == count_below(src@, high, b)
                    + count_key(src@.take(i as int), high, b),
            forall|k: int| 0 <= k < i ==> dst@[#[trigger] slot(src@, high, k)] == src@[k],
        decreases n - i,
    {
        let item = src[i];
        let bucket: usize = bucket_of(item.start, high);
        let place: usize = counts[bucket];
        proof {
            assert(radix_key(src@[i as int], high) == bucket);
            assert(place == slot(src@, high, i as int));
            lemma_slot_range(src@, high, i as int);
            assert forall|k: int| 0 <= k < i implies 0 <= #[trigger] slot(src@, high, k) < n && slot(
                src@,
                high,
                k,
            ) != place by {
                lemma_slot_range(src@, high, k);
                if radix_key(src@[k], high) <= bucket {
                    lemma_slot_order(src@, high, k, i as int);
                } else {
                    lemma_slot_order(src@, high, i as int, k);
                }
            }
            assert(src@.take(i as int + 1).drop_last() =~= src@.take(i as int));
            assert(src@.take(i as int + 1).last() == src@[i as int]);
        }
        dst.set(place, item);
        counts.set(bucket, place + 1);
        i += 1;
    }
    proof {
        lemma_pass_result(src@, dst@, high);
    }
}

/// Sorts intervals by their first address in two stable passes of 16 bits.
///
/// Always succeeds; intervals with the same first address keep their order.
pub fn radix_sort_intervals_u32_by_start(intervals: &mut Vec<IntervalU32>) -> (sorted: bool)
    ensures
        sorted,
        final(intervals)@.to_multiset() == old(intervals)@.to_multiset(),
        forall|i: int, j: int|
            0 <= i < j < final(intervals)@.len() ==> (#[trigger] final(intervals)@[i]).start <= (
            #[trigger] final(intervals)@[j]).start,
        forall|start: u32| #[trigger]
            starting(final(intervals)@, start) == starting(old(intervals)@, start),
{
    if intervals.len() < 2 {
        return true;
    }
    let mut by_low: Vec<IntervalU32> = vec![IntervalU32 { start: 0, end: 0 }; intervals.len()];
    radix_pass(&*intervals, &mut by_low, false);
    radix_pass(&by_low, intervals, true);
    proof {
        let low = by_low@;
        let out = intervals@;
        assert forall|start: u32| #[trigger] starting(out, start) == starting(
            old(intervals)@,
            start,
        ) by {
            assert(starting(low, start) == starting(old(intervals)@, start));
        }
        assert forall|p: int, q: int| 0 <= p < q < out.len() implies (#[trigger] out[p]).start <= (
        #[trigger] out[q]).start by {
            assert(radix_key(out[p], true) <= radix_key(out[q], true));
            if radix_key(out[p], true) == radix_key(out[q], true) {
                let (i, j) = choose|i: int, j: int|
                    0 <= i < j < low.len() && #[trigger] low[i] == out[p] && #[trigger] low[j]
                        == out[q];
                assert(radix_key(low[i], false) <= radix_key(low[j], false));
            }
        }
    }
    true
}

} // verus!
