//! Inclusive address intervals: merging, subtraction and regeneration of prefix blocks.

use crate::ordering::{in_order, sort_stable, Ranked};
use crate::policy::network_types::{
    enclosing_block, ipv4_host_mask, ipv6_host_mask, lemma_family_sizes, Ipv4Cidr, Ipv6Cidr,
};
use crate::policy::radix::{radix_sort_intervals_u32_by_start, starting};
use crate::policy::span_math::{
    block_fits, block_last, block_size, blocks_cover, blocks_minimal, largest_fit, lemma_block_size,
    lemma_fits_mono, lemma_split_advance, lemma_split_emit, lemma_split_finish, span_has,
    spans_cover, spans_merged, spans_sorted, spans_valid, split_done, split_state, Block, Span,
};
use crate::policy::span_steps::{
    carve_state, carved_prefix, keep_before, lemma_carve_close_full, lemma_carve_close_rest,
    lemma_carve_cut, lemma_carve_open, lemma_carve_skip, lemma_merge_absorb, lemma_merge_next,
    lemma_merge_start, merge_state,
};
use vstd::arithmetic::power2::*;
use vstd::prelude::*;
use vstd::seq_lib::group_to_multiset_ensures;

verus! {

/// Inclusive range of IPv4 addresses.
#[derive(Debug, Clone, Copy, PartialEq, Eq, Structural, PartialOrd, Ord)]
pub struct IntervalU32 {
    pub start: u32,
    pub end: u32,
}

/// Inclusive range of IPv6 addresses.
#[derive(Debug, Clone, Copy, PartialEq, Eq, Structural, PartialOrd, Ord)]
pub struct IntervalU128 {
    pub start: u128,
    pub end: u128,
}

impl View for IntervalU32 {
    type V = Span;

    open spec fn view(&self) -> Span {
        Span { lo: self.start as int, hi: self.end as int }
    }
}

impl View for IntervalU128 {
    type V = Span;

    open spec fn view(&self) -> Span {
        Span { lo: self.start as int, hi: self.end as int }
    }
}

/// Spans of a sequence of IPv4 intervals.
pub open spec fn spans_u32(s: Seq<IntervalU32>) -> Seq<Span> {
    Seq::new(s.len(), |i: int| s[i]@)
}

/// Spans of a sequence of IPv6 intervals.
pub open spec fn spans_u128(s: Seq<IntervalU128>) -> Seq<Span> {
    Seq::new(s.len(), |i: int| s[i]@)
}

/// Blocks of a sequence of IPv4 networks.
pub open spec fn blocks_v4(s: Seq<Ipv4Cidr>) -> Seq<Block> {
    Seq::new(s.len(), |i: int| s[i]@)
}

/// Blocks of a sequence of IPv6 networks.
pub open spec fn blocks_v6(s: Seq<Ipv6Cidr>) -> Seq<Block> {
    Seq::new(s.len(), |i: int| s[i]@)
}

impl Ranked for IntervalU32 {
    open spec fn ranked_le(self, other: IntervalU32) -> bool {
        self.start < other.start || (self.start == other.start && self.end <= other.end)
    }

    proof fn lemma_ranked_total(a: IntervalU32, b: IntervalU32) {
    }

    proof fn lemma_ranked_transitive(a: IntervalU32, b: IntervalU32, c: IntervalU32) {
    }

    fn precedes(&self, other: &IntervalU32) -> (before: bool) {
        self.start < other.start || (self.start == other.start && self.end <= other.end)
    }
}

impl Ranked for IntervalU128 {
    open spec fn ranked_le(self, other: IntervalU128) -> bool {
        self.start < other.start || (self.start == other.start && self.end <= other.end)
    }

    proof fn lemma_ranked_total(a: IntervalU128, b: IntervalU128) {
    }

    proof fn lemma_ranked_transitive(a: IntervalU128, b: IntervalU128, c: IntervalU128) {
    }

    fn precedes(&self, other: &IntervalU128) -> (before: bool) {
        self.start < other.start || (self.start == other.start && self.end <= other.end)
    }
}

/// Reordering intervals keeps the addresses they cover.
pub proof fn lemma_cover_u32_permuted(a: Seq<IntervalU32>, b: Seq<IntervalU32>)
    requires
        a.to_multiset() == b.to_multiset(),
    ensures
        forall|x: int| #[trigger] spans_cover(spans_u32(a), x) <==> spans_cover(spans_u32(b), x),
        spans_valid(spans_u32(a)) <==> spans_valid(spans_u32(b)),
{
    lemma_cover_u32_included(a, b);
    lemma_cover_u32_included(b, a);
}

proof fn lemma_cover_u32_included(a: Seq<IntervalU32>, b: Seq<IntervalU32>)
    requires
        a.to_multiset() == b.to_multiset(),
    ensures
        forall|x: int| #[trigger] spans_cover(spans_u32(a), x) ==> spans_cover(spans_u32(b), x),
        spans_valid(spans_u32(b)) ==> spans_valid(spans_u32(a)),
{
    broadcast use group_to_multiset_ensures;

    let sa = spans_u32(a);
    let sb = spans_u32(b);
    assert forall|k: int| 0 <= k < a.len() implies exists|m: int|
        0 <= m < b.len() && #[trigger] sb[m] == #[trigger] sa[k] by {
        assert(a.contains(a[k]));
        assert(b.to_multiset().count(a[k]) > 0);
        assert(b.contains(a[k]));
        let m = choose|m: int| 0 <= m < b.len() && b[m] == a[k];
        assert(sb[m] == sa[k]);
    }
    assert forall|x: int| #[trigger] spans_cover(sa, x) implies spans_cover(sb, x) by {
        let k = choose|k: int| 0 <= k < sa.len() && #[trigger] sa[k].lo <= x <= sa[k].hi;
        let m = choose|m: int| 0 <= m < b.len() && #[trigger] sb[m] == sa[k];
        assert(sb[m].lo <= x <= sb[m].hi);
    }
    if spans_valid(sb) {
        assert forall|k: int| 0 <= k < sa.len() implies (#[trigger] sa[k]).lo <= sa[k].hi by {
            let m = choose|m: int| 0 <= m < b.len() && #[trigger] sb[m] == sa[k];
            assert(sb[m].lo <= sb[m].hi);
        }
    }
}

/// Whether no interval is shorter-sighted than its predecessor: `(start, end)` never decreases.
fn is_sorted_u32(intervals: &Vec<IntervalU32>) -> (sorted: bool)
    ensures
        sorted == in_order(intervals@),
{
    let mut i: usize = 1;
    while i < intervals.len()
        invariant
            1 <= i,
            intervals@.len() > 0 ==> i <= intervals@.len(),
            forall|a: int, b: int|
                0 <= a < b < i && b < intervals@.len() ==> (#[trigger] intervals@[a]).ranked_le(
                    #[trigger] intervals@[b],
                ),
        decreases intervals@.len() - i,
    {
        if !intervals[i - 1].precedes(&intervals[i]) {
            assert(!intervals@[i - 1].ranked_le(intervals@[i as int]));
            return false;
        }
        i += 1;
    }
    true
}


/// Below this length intervals are sorted by comparison, from it on by radix passes.
pub const RADIX_SORT_MIN_LEN: usize = 16384;

/// Orders intervals by their first address; a list that is short or already ordered ends up
/// ordered by both ends, and in a long one intervals with the same first address keep their order.
pub fn sort_intervals_u32_for_merge(intervals: &mut Vec<IntervalU32>)
    ensures
        final(intervals)@.to_multiset() == old(intervals)@.to_multiset(),
        spans_sorted(spans_u32(final(intervals)@)),
        old(intervals)@.len() < RADIX_SORT_MIN_LEN || in_order(old(intervals)@) ==> in_order(
            final(intervals)@,
        ),
        in_order(old(intervals)@) ==> final(intervals)@ == old(intervals)@,
        old(intervals)@.len() >= RADIX_SORT_MIN_LEN ==> forall|start: u32| #[trigger]
            starting(final(intervals)@, start) == starting(old(intervals)@, start),
{
    if is_sorted_u32(&*intervals) {
        return;
    }
    if intervals.len() < RADIX_SORT_MIN_LEN {
        let mut items: Vec<IntervalU32> = Vec::new();
        std::mem::swap(&mut items, intervals);
        *intervals = sort_stable(items);
        return;
    }
    let _sorted: bool = radix_sort_intervals_u32_by_start(intervals);
}


/// Merges overlapping and adjacent intervals into the one ascending list of intervals with gaps
/// that covers the same addresses.
pub fn merge_intervals_u32_owned(intervals: Vec<IntervalU32>) -> (merged: Vec<IntervalU32>)
    requires
        spans_valid(spans_u32(intervals@)),
    ensures
        spans_merged(spans_u32(merged@)),
        forall|a: int| #[trigger]
            spans_cover(spans_u32(merged@), a) <==> spans_cover(spans_u32(intervals@), a),
{
    if intervals.len() == 0 {
        return Vec::new();
    }
    let ghost original = intervals@;
    let mut intervals = intervals;
    sort_intervals_u32_for_merge(&mut intervals);
    let ghost all = spans_u32(intervals@);
    proof {
        broadcast use group_to_multiset_ensures;

        lemma_cover_u32_permuted(original, intervals@);
        assert(intervals@.to_multiset().len() == original.to_multiset().len());
        assert(intervals@.len() == original.len());
        lemma_merge_start(all);
    }
    let mut current: IntervalU32 = intervals[0];
    let mut merged: Vec<IntervalU32> = Vec::new();
    assert(spans_u32(merged@) =~= Seq::<Span>::empty());
    let mut i: usize = 1;
    while i < intervals.len()
        invariant
            1 <= i <= intervals@.len(),
            all == spans_u32(intervals@),
            spans_valid(all),
            spans_sorted(all),
            merge_state(all, i as int, spans_u32(merged@), current@),
        decreases intervals@.len() - i,
    {
        let interval: IntervalU32 = intervals[i];
        assert(all[i as int] == interval@);
        if interval.start <= current.end.saturating_add(1) {
            proof {
                lemma_merge_absorb(all, i as int, spans_u32(merged@), current@);
            }
            if current.end < interval.end {
                current.end = interval.end;
            }
        } else {
            proof {
                lemma_merge_next(all, i as int, spans_u32(merged@), current@);
            }
            let ghost before = merged@;
            merged.push(current);
            assert(spans_u32(merged@) =~= spans_u32(before).push(current@));
            current = interval;
        }
        i += 1;
    }
    let ghost before = merged@;
    merged.push(current);
    proof {
        assert(spans_u32(merged@) =~= spans_u32(before).push(current@));
        assert(all.take(all.len() as int) =~= all);
        assert forall|a: int| #[trigger] spans_cover(spans_u32(merged@), a) <==> spans_cover(
            spans_u32(original),
            a,
        ) by {
            assert(spans_cover(spans_u32(merged@), a) <==> spans_cover(all, a));
        }
    }
    merged
}

/// Merges a slice of intervals.
pub fn merge_intervals_u32(intervals: &[IntervalU32]) -> (merged: Vec<IntervalU32>)
    requires
        spans_valid(spans_u32(intervals@)),
    ensures
        spans_merged(spans_u32(merged@)),
        forall|a: int| #[trigger]
            spans_cover(spans_u32(merged@), a) <==> spans_cover(spans_u32(intervals@), a),
{
    let copy: Vec<IntervalU32> = copy_intervals_u32(intervals);
    merge_intervals_u32_owned(copy)
}

fn copy_intervals_u32(intervals: &[IntervalU32]) -> (copy: Vec<IntervalU32>)
    ensures
        copy@ == intervals@,
{
    let mut copy: Vec<IntervalU32> = Vec::with_capacity(intervals.len());
    let mut i: usize = 0;
    while i < intervals.len()
        invariant
            i <= intervals@.len(),
            copy@ == intervals@.take(i as int),
        decreases intervals@.len() - i,
    {
        copy.push(intervals[i]);
        assert(copy@ =~= intervals@.take(i as int + 1));
        i += 1;
    }
    assert(copy@ =~= intervals@);
    copy
}

/// Removes the addresses of `carve` from `base`; both are merged, and so is the result.
pub fn subtract_intervals_u32_merged(
    base: &[IntervalU32],
    carve: &[IntervalU32],
) -> (kept: Vec<IntervalU32>)
    requires
        spans_merged(spans_u32(base@)),
        spans_merged(spans_u32(carve@)),
    ensures
        spans_merged(spans_u32(kept@)),
        forall|a: int| #[trigger]
            spans_cover(spans_u32(kept@), a) <==> (spans_cover(spans_u32(base@), a)
                && !spans_cover(spans_u32(carve@), a)),
{
    let ghost bs = spans_u32(base@);
    let ghost cs = spans_u32(carve@);
    let mut result: Vec<IntervalU32> = Vec::with_capacity(base.len());
    let mut carve_idx: usize = 0;
    let mut i: usize = 0;
    assert(spans_u32(result@) =~= Seq::<Span>::empty());
    assert(bs.take(0) =~= Seq::<Span>::empty());
    while i < base.len()
        invariant
            bs == spans_u32(base@),
            cs == spans_u32(carve@),
            spans_merged(bs),
            spans_merged(cs),
            carved_prefix(bs, cs, i as int, carve_idx as int, spans_u32(result@)),
        decreases base@.len() - i,
    {
        let base_interval: IntervalU32 = base[i];
        assert(bs[i as int] == base_interval@);
        proof {
            lemma_carve_open(bs, cs, i as int, carve_idx as int, spans_u32(result@));
        }
        let mut next_start: u32 = base_interval.start;
        let mut idx: usize = carve_idx;
        let mut fully_carved: bool = false;
        while idx < carve.len() && carve[idx].start <= base_interval.end && !fully_carved
            invariant
                bs == spans_u32(base@),
                cs == spans_u32(carve@),
                spans_merged(bs),
                spans_merged(cs),
                i < base@.len(),
                bs[i as int] == base_interval@,
                idx <= carve@.len(),
                !fully_carved ==> carve_state(
                    bs,
                    cs,
                    i as int,
                    next_start as int,
                    idx as int,
                    spans_u32(result@),
                ),
                fully_carved ==> carved_prefix(
                    bs,
                    cs,
                    i as int + 1,
                    idx as int,
                    spans_u32(result@),
                ),
            decreases carve@.len() - idx, (if fully_carved { 0int } else { 1int }),
        {
            let carve_interval: IntervalU32 = carve[idx];
            assert(cs[idx as int] == carve_interval@);
            if carve_interval.end < next_start {
                proof {
                    lemma_carve_skip(
                        bs,
                        cs,
                        i as int,
                        next_start as int,
                        idx as int,
                        spans_u32(result@),
                    );
                }
                idx += 1;
                continue;
            }
            let ghost before = result@;
            if carve_interval.start > next_start {
                result.push(IntervalU32 { start: next_start, end: carve_interval.start - 1 });
            }
            assert(spans_u32(result@) =~= keep_before(
                spans_u32(before),
                next_start as int,
                carve_interval.start as int,
            ));
            if carve_interval.end >= base_interval.end {
                proof {
                    lemma_carve_close_full(
                        bs,
                        cs,
                        i as int,
                        next_start as int,
                        idx as int,
                        spans_u32(before),
                    );
                }
                fully_carved = true;
            } else {
                proof {
                    lemma_carve_cut(
                        bs,
                        cs,
                        i as int,
                        next_start as int,
                        idx as int,
                        spans_u32(before),
                    );
                }
                next_start = carve_interval.end + 1;
                idx += 1;
            }
        }
        if !fully_carved {
            proof {
                assert(idx < carve@.len() ==> cs[idx as int] == carve@[idx as int]@);
                lemma_carve_close_rest(
                    bs,
                    cs,
                    i as int,
                    next_start as int,
                    idx as int,
                    spans_u32(result@),
                );
            }
            let ghost before = result@;
            result.push(IntervalU32 { start: next_start, end: base_interval.end });
            assert(spans_u32(result@) =~= spans_u32(before).push(
                Span { lo: next_start as int, hi: base_interval.end as int },
            ));
        }
        carve_idx = idx;
        i += 1;
    }
    assert(bs.take(bs.len() as int) =~= bs);
    result
}

/// Whether `start` has no host bits under `prefix`.
pub fn is_aligned_u32(start: u32, prefix: u8) -> (aligned: bool)
    requires
        prefix <= 32,
    ensures
        aligned <==> start as int % block_size(32, prefix as int) == 0,
{
    let host: u32 = ipv4_host_mask(prefix);
    proof {
        lemma_family_sizes();
        lemma_block_size(32, prefix as int);
    }
    if host == u32::MAX {
        proof {
            vstd::arithmetic::div_mod::lemma_small_mod(start as nat, pow2(32));
        }
        return start == 0;
    }
    start % (host + 1) == 0
}

/// Last address of the block of `prefix` at `start`, capped at the last address of the family.
pub fn block_end_u32(start: u32, prefix: u8) -> (end: u32)
    requires
        prefix <= 32,
    ensures
        start + block_size(32, prefix as int) - 1 <= u32::MAX ==> end == start + block_size(
            32,
            prefix as int,
        ) - 1,
        start + block_size(32, prefix as int) - 1 > u32::MAX ==> end == u32::MAX,
{
    start.saturating_add(ipv4_host_mask(prefix))
}

/// Shortest prefix whose block at `start` is aligned and ends by `end`.
pub fn largest_prefix_u32(start: u32, end: u32) -> (prefix: u8)
    requires
        start <= end,
    ensures
        prefix <= 32,
        largest_fit(32, start as int, end as int, prefix as int),
{
    proof {
        lemma_block_size(32, 32);
    }
    let mut prefix: u8 = 32;
    while prefix > 0
        invariant_except_break
            0 <= prefix <= 32,
            start <= end,
            block_fits(32, start as int, end as int, prefix as int),
        ensures
            0 <= prefix <= 32,
            block_fits(32, start as int, end as int, prefix as int),
            prefix > 0 ==> !block_fits(32, start as int, end as int, prefix as int - 1),
        decreases prefix,
    {
        let shorter: u8 = prefix - 1;
        if !is_aligned_u32(start, shorter) {
            break;
        }
        proof {
            lemma_aligned_end_u32(start, shorter);
        }
        if block_end_u32(start, shorter) > end {
            break;
        }
        prefix = shorter;
    }
    assert forall|q: int| 0 <= q < prefix implies !#[trigger] block_fits(
        32,
        start as int,
        end as int,
        q,
    ) by {
        if block_fits(32, start as int, end as int, q) {
            lemma_fits_mono(32, start as int, end as int, q, prefix as int - 1);
        }
    }
    prefix
}

/// An aligned block ends within the family.
proof fn lemma_aligned_end_u32(start: u32, prefix: u8)
    requires
        prefix <= 32,
        start as int % block_size(32, prefix as int) == 0,
    ensures
        start + block_size(32, prefix as int) - 1 <= u32::MAX,
{
    lemma_family_sizes();
    crate::policy::network_types::lemma_enclosing_block(32, start as int, prefix as int);
    assert(enclosing_block(32, start as int, prefix as int).base == start);
}

/// Splits merged intervals into the minimal list of blocks that covers them.
pub fn intervals_to_ipv4_cidrs_from_merged(intervals: &[IntervalU32]) -> (cidrs: Vec<Ipv4Cidr>)
    requires
        spans_merged(spans_u32(intervals@)),
    ensures
        blocks_minimal(32, blocks_v4(cidrs@)),
        forall|a: int| #[trigger]
            blocks_cover(32, blocks_v4(cidrs@), a) <==> spans_cover(spans_u32(intervals@), a),
{
    let ghost spans = spans_u32(intervals@);
    let mut out: Vec<Ipv4Cidr> = Vec::new();
    let mut i: usize = 0;
    proof {
        lemma_family_sizes();
        assert(blocks_v4(out@) =~= Seq::<Block>::empty());
        assert(spans.take(0) =~= Seq::<Span>::empty());
    }
    while i < intervals.len()
        invariant
            spans == spans_u32(intervals@),
            spans_merged(spans),
            i <= intervals@.len(),
            pow2(32) == u32::MAX + 1,
            i < spans.len() ==> split_state(
                32,
                spans,
                i as int,
                spans[i as int].lo,
                blocks_v4(out@),
            ),
            split_done(32, spans, blocks_v4(out@)),
            forall|a: int| #[trigger]
                blocks_cover(32, blocks_v4(out@), a) <==> spans_cover(spans.take(i as int), a),
        decreases intervals@.len() - i,
    {
        let interval: IntervalU32 = intervals[i];
        assert(spans[i as int] == interval@);
        let mut start: u32 = interval.start;
        let mut open: bool = true;
        while open
            invariant
                spans == spans_u32(intervals@),
                spans_merged(spans),
                i < intervals@.len(),
                spans[i as int] == interval@,
                pow2(32) == u32::MAX + 1,
                open ==> start <= interval.end && split_state(
                    32,
                    spans,
                    i as int,
                    start as int,
                    blocks_v4(out@),
                ),
                !open ==> split_state(
                    32,
                    spans,
                    i as int,
                    interval.end as int + 1,
                    blocks_v4(out@),
                ),
            decreases (if open { 1int } else { 0int }), interval.end - start,
        {
            let prefix: u8 = largest_prefix_u32(start, interval.end);
            let last: u32 = block_end_u32(start, prefix);
            let cidr: Ipv4Cidr = Ipv4Cidr::from_parts(start, prefix);
            let ghost before = blocks_v4(out@);
            out.push(cidr);
            proof {
                lemma_block_size(32, prefix as int);
                lemma_split_emit(32, spans, i as int, start as int, before, prefix as int);
                assert(blocks_v4(out@) =~= before.push(
                    Block { base: start as int, prefix: prefix as int },
                ));
            }
            if last >= interval.end {
                open = false;
            } else {
                start = last + 1;
            }
        }
        proof {
            lemma_split_advance(32, spans, i as int, blocks_v4(out@));
        }
        i += 1;
    }
    proof {
        assert(spans.take(spans.len() as int) =~= spans);
        lemma_split_finish(32, spans, blocks_v4(out@));
    }
    out
}

/// Merges intervals and splits them into the minimal list of blocks that covers them.
pub fn intervals_to_ipv4_cidrs(intervals: &[IntervalU32]) -> (cidrs: Vec<Ipv4Cidr>)
    requires
        spans_valid(spans_u32(intervals@)),
    ensures
        blocks_minimal(32, blocks_v4(cidrs@)),
        forall|a: int| #[trigger]
            blocks_cover(32, blocks_v4(cidrs@), a) <==> spans_cover(spans_u32(intervals@), a),
{
    let merged: Vec<IntervalU32> = merge_intervals_u32(intervals);
    let cidrs: Vec<Ipv4Cidr> = intervals_to_ipv4_cidrs_from_merged(merged.as_slice());
    assert forall|a: int| #[trigger]
        blocks_cover(32, blocks_v4(cidrs@), a) <==> spans_cover(spans_u32(intervals@), a) by {
        assert(blocks_cover(32, blocks_v4(cidrs@), a) <==> spans_cover(spans_u32(merged@), a));
    }
    cidrs
}

/// The addresses of a network as an interval.
pub fn ipv4_to_interval(cidr: Ipv4Cidr) -> (interval: IntervalU32)
    ensures
        interval@.lo == cidr@.base,
        interval@.hi == block_last(32, cidr@),
        interval.start <= interval.end,
{
    proof {
        use_type_invariant(&cidr);
        lemma_family_sizes();
        lemma_block_size(32, cidr@.prefix);
    }
    let start: u32 = cidr.network();
    IntervalU32 { start, end: start.saturating_add(ipv4_host_mask(cidr.prefix())) }
}

/// Whether two intervals share an address.
pub fn intervals_overlap_u32(a: IntervalU32, b: IntervalU32) -> (overlap: bool)
    requires
        a.start <= a.end,
        b.start <= b.end,
    ensures
        overlap <==> exists|x: int| #[trigger] span_has(a@, x) && span_has(b@, x),
{
    let overlap: bool = !(a.end < b.start || b.end < a.start);
    proof {
        if overlap {
            let x: int = if a.start >= b.start {
                a.start as int
            } else {
                b.start as int
            };
            assert(span_has(a@, x) && span_has(b@, x));
        }
    }
    overlap
}

/// Reordering intervals keeps the addresses they cover.
pub proof fn lemma_cover_u128_permuted(a: Seq<IntervalU128>, b: Seq<IntervalU128>)
    requires
        a.to_multiset() == b.to_multiset(),
    ensures
        forall|x: int| #[trigger] spans_cover(spans_u128(a), x) <==> spans_cover(spans_u128(b), x),
        spans_valid(spans_u128(a)) <==> spans_valid(spans_u128(b)),
{
    lemma_cover_u128_included(a, b);
    lemma_cover_u128_included(b, a);
}

proof fn lemma_cover_u128_included(a: Seq<IntervalU128>, b: Seq<IntervalU128>)
    requires
        a.to_multiset() == b.to_multiset(),
    ensures
        forall|x: int| #[trigger] spans_cover(spans_u128(a), x) ==> spans_cover(spans_u128(b), x),
        spans_valid(spans_u128(b)) ==> spans_valid(spans_u128(a)),
{
    broadcast use group_to_multiset_ensures;

    let sa = spans_u128(a);
    let sb = spans_u128(b);
    assert forall|k: int| 0 <= k < a.len() implies exists|m: int|
        0 <= m < b.len() && #[trigger] sb[m] == #[trigger] sa[k] by {
        assert(a.contains(a[k]));
        assert(b.to_multiset().count(a[k]) > 0);
        assert(b.contains(a[k]));
        let m = choose|m: int| 0 <= m < b.len() && b[m] == a[k];
        assert(sb[m] == sa[k]);
    }
    assert forall|x: int| #[trigger] spans_cover(sa, x) implies spans_cover(sb, x) by {
        let k = choose|k: int| 0 <= k < sa.len() && #[trigger] sa[k].lo <= x <= sa[k].hi;
        let m = choose|m: int| 0 <= m < b.len() && #[trigger] sb[m] == sa[k];
        assert(sb[m].lo <= x <= sb[m].hi);
    }
    if spans_valid(sb) {
        assert forall|k: int| 0 <= k < sa.len() implies (#[trigger] sa[k]).lo <= sa[k].hi by {
            let m = choose|m: int| 0 <= m < b.len() && #[trigger] sb[m] == sa[k];
            assert(sb[m].lo <= sb[m].hi);
        }
    }
}


/// Orders intervals by both ends.
pub fn sort_intervals_u128_for_merge(intervals: &mut Vec<IntervalU128>)
    ensures
        final(intervals)@.to_multiset() == old(intervals)@.to_multiset(),
        spans_sorted(spans_u128(final(intervals)@)),
        in_order(final(intervals)@),
{
    let mut items: Vec<IntervalU128> = Vec::new();
    std::mem::swap(&mut items, intervals);
    *intervals = sort_stable(items);
}


/// Merges overlapping and adjacent intervals into the one ascending list of intervals with gaps
/// that covers the same addresses.
pub fn merge_intervals_u128_owned(intervals: Vec<IntervalU128>) -> (merged: Vec<IntervalU128>)
    requires
        spans_valid(spans_u128(intervals@)),
    ensures
        spans_merged(spans_u128(merged@)),
        forall|a: int| #[trigger]
            spans_cover(spans_u128(merged@), a) <==> spans_cover(spans_u128(intervals@), a),
{
    if intervals.len() == 0 {
        return Vec::new();
    }
    let ghost original = intervals@;
    let mut intervals = intervals;
    sort_intervals_u128_for_merge(&mut intervals);
    let ghost all = spans_u128(intervals@);
    proof {
        broadcast use group_to_multiset_ensures;

        lemma_cover_u128_permuted(original, intervals@);
        assert(intervals@.to_multiset().len() == original.to_multiset().len());
        assert(intervals@.len() == original.len());
        lemma_merge_start(all);
    }
    let mut current: IntervalU128 = intervals[0];
    let mut merged: Vec<IntervalU128> = Vec::new();
    assert(spans_u128(merged@) =~= Seq::<Span>::empty());
    let mut i: usize = 1;
    while i < intervals.len()
        invariant
            1 <= i <= intervals@.len(),
            all == spans_u128(intervals@),
            spans_valid(all),
            spans_sorted(all),
            merge_state(all, i as int, spans_u128(merged@), current@),
        decreases intervals@.len() - i,
    {
        let interval: IntervalU128 = intervals[i];
        assert(all[i as int] == interval@);
        if interval.start <= current.end.saturating_add(1) {
            proof {
                lemma_merge_absorb(all, i as int, spans_u128(merged@), current@);
            }
            if current.end < interval.end {
                current.end = interval.end;
            }
        } else {
            proof {
                lemma_merge_next(all, i as int, spans_u128(merged@), current@);
            }
            let ghost before = merged@;
            merged.push(current);
            assert(spans_u128(merged@) =~= spans_u128(before).push(current@));
            current = interval;
        }
        i += 1;
    }
    let ghost before = merged@;
    merged.push(current);
    proof {
        assert(spans_u128(merged@) =~= spans_u128(before).push(current@));
        assert(all.take(all.len() as int) =~= all);
        assert forall|a: int| #[trigger] spans_cover(spans_u128(merged@), a) <==> spans_cover(
            spans_u128(original),
            a,
        ) by {
            assert(spans_cover(spans_u128(merged@), a) <==> spans_cover(all, a));
        }
    }
    merged
}

/// Merges a slice of intervals.
pub fn merge_intervals_u128(intervals: &[IntervalU128]) -> (merged: Vec<IntervalU128>)
    requires
        spans_valid(spans_u128(intervals@)),
    ensures
        spans_merged(spans_u128(merged@)),
        forall|a: int| #[trigger]
            spans_cover(spans_u128(merged@), a) <==> spans_cover(spans_u128(intervals@), a),
{
    let copy: Vec<IntervalU128> = copy_intervals_u128(intervals);
    merge_intervals_u128_owned(copy)
}

fn copy_intervals_u128(intervals: &[IntervalU128]) -> (copy: Vec<IntervalU128>)
    ensures
        copy@ == intervals@,
{
    let mut copy: Vec<IntervalU128> = Vec::with_capacity(intervals.len());
    let mut i: usize = 0;
    while i < intervals.len()
        invariant
            i <= intervals@.len(),
            copy@ == intervals@.take(i as int),
        decreases intervals@.len() - i,
    {
        copy.push(intervals[i]);
        assert(copy@ =~= intervals@.take(i as int + 1));
        i += 1;
    }
    assert(copy@ =~= intervals@);
    copy
}

/// Removes the addresses of `carve` from `base`; both are merged, and so is the result.
pub fn subtract_intervals_u128_merged(
    base: &[IntervalU128],
    carve: &[IntervalU128],
) -> (kept: Vec<IntervalU128>)
    requires
        spans_merged(spans_u128(base@)),
        spans_merged(spans_u128(carve@)),
    ensures
        spans_merged(spans_u128(kept@)),
        forall|a: int| #[trigger]
            spans_cover(spans_u128(kept@), a) <==> (spans_cover(spans_u128(base@), a)
                && !spans_cover(spans_u128(carve@), a)),
{
    let ghost bs = spans_u128(base@);
    let ghost cs = spans_u128(carve@);
    let mut result: Vec<IntervalU128> = Vec::with_capacity(base.len());
    let mut carve_idx: usize = 0;
    let mut i: usize = 0;
    assert(spans_u128(result@) =~= Seq::<Span>::empty());
    assert(bs.take(0) =~= Seq::<Span>::empty());
    while i < base.len()
        invariant
            bs == spans_u128(base@),
            cs == spans_u128(carve@),
            spans_merged(bs),
            spans_merged(cs),
            carved_prefix(bs, cs, i as int, carve_idx as int, spans_u128(result@)),
        decreases base@.len() - i,
    {
        let base_interval: IntervalU128 = base[i];
        assert(bs[i as int] == base_interval@);
        proof {
            lemma_carve_open(bs, cs, i as int, carve_idx as int, spans_u128(result@));
        }
        let mut next_start: u128 = base_interval.start;
        let mut idx: usize = carve_idx;
        let mut fully_carved: bool = false;
        while idx < carve.len() && carve[idx].start <= base_interval.end && !fully_carved
            invariant
                bs == spans_u128(base@),
                cs == spans_u128(carve@),
                spans_merged(bs),
                spans_merged(cs),
                i < base@.len(),
                bs[i as int] == base_interval@,
                idx <= carve@.len(),
                !fully_carved ==> carve_state(
                    bs,
                    cs,
                    i as int,
                    next_start as int,
                    idx as int,
                    spans_u128(result@),
                ),
                fully_carved ==> carved_prefix(
                    bs,
                    cs,
                    i as int + 1,
                    idx as int,
                    spans_u128(result@),
                ),
            decreases carve@.len() - idx, (if fully_carved { 0int } else { 1int }),
        {
            let carve_interval: IntervalU128 = carve[idx];
            assert(cs[idx as int] == carve_interval@);
            if carve_interval.end < next_start {
                proof {
                    lemma_carve_skip(
                        bs,
                        cs,
                        i as int,
                        next_start as int,
                        idx as int,
                        spans_u128(result@),
                    );
                }
                idx += 1;
                continue;
            }
            let ghost before = result@;
            if carve_interval.start > next_start {
                result.push(IntervalU128 { start: next_start, end: carve_interval.start - 1 });
            }
            assert(spans_u128(result@) =~= keep_before(
                spans_u128(before),
                next_start as int,
                carve_interval.start as int,
            ));
            if carve_interval.end >= base_interval.end {
                proof {
                    lemma_carve_close_full(
                        bs,
                        cs,
                        i as int,
                        next_start as int,
                        idx as int,
                        spans_u128(before),
                    );
                }
                fully_carved = true;
            } else {
                proof {
                    lemma_carve_cut(
                        bs,
                        cs,
                        i as int,
                        next_start as int,
                        idx as int,
                        spans_u128(before),
                    );
                }
                next_start = carve_interval.end + 1;
                idx += 1;
            }
        }
        if !fully_carved {
            proof {
                assert(idx < carve@.len() ==> cs[idx as int] == carve@[idx as int]@);
                lemma_carve_close_rest(
                    bs,
                    cs,
                    i as int,
                    next_start as int,
                    idx as int,
                    spans_u128(result@),
                );
            }
            let ghost before = result@;
            result.push(IntervalU128 { start: next_start, end: base_interval.end });
            assert(spans_u128(result@) =~= spans_u128(before).push(
                Span { lo: next_start as int, hi: base_interval.end as int },
            ));
        }
        carve_idx = idx;
        i += 1;
    }
    assert(bs.take(bs.len() as int) =~= bs);
    result
}

/// Whether `start` has no host bits under `prefix`.
pub fn is_aligned_u128(start: u128, prefix: u8) -> (aligned: bool)
    requires
        prefix <= 128,
    ensures
        aligned <==> start as int % block_size(128, prefix as int) == 0,
{
    let host: u128 = ipv6_host_mask(prefix);
    proof {
        lemma_family_sizes();
        lemma_block_size(128, prefix as int);
    }
    if host == u128::MAX {
        proof {
            vstd::arithmetic::div_mod::lemma_small_mod(start as nat, pow2(128));
        }
        return start == 0;
    }
    start % (host + 1) == 0
}

/// Last address of the block of `prefix` at `start`, capped at the last address of the family.
pub fn block_end_u128(start: u128, prefix: u8) -> (end: u128)
    requires
        prefix <= 128,
    ensures
        start + block_size(128, prefix as int) - 1 <= u128::MAX ==> end == start + block_size(
            128,
            prefix as int,
        ) - 1,
        start + block_size(128, prefix as int) - 1 > u128::MAX ==> end == u128::MAX,
{
    start.saturating_add(ipv6_host_mask(prefix))
}

/// Shortest prefix whose block at `start` is aligned and ends by `end`.
pub fn largest_prefix_u128(start: u128, end: u128) -> (prefix: u8)
    requires
        start <= end,
    ensures
        prefix <= 128,
        largest_fit(128, start as int, end as int, prefix as int),
{
    proof {
        lemma_block_size(128, 128);
    }
    let mut prefix: u8 = 128;
    while prefix > 0
        invariant_except_break
            0 <= prefix <= 128,
            start <= end,
            block_fits(128, start as int, end as int, prefix as int),
        ensures
            0 <= prefix <= 128,
            block_fits(128, start as int, end as int, prefix as int),
            prefix > 0 ==> !block_fits(128, start as int, end as int, prefix as int - 1),
        decreases prefix,
    {
        let shorter: u8 = prefix - 1;
        if !is_aligned_u128(start, shorter) {
            break;
        }
        proof {
            lemma_aligned_end_u128(start, shorter);
        }
        if block_end_u128(start, shorter) > end {
            break;
        }
        prefix = shorter;
    }
    assert forall|q: int| 0 <= q < prefix implies !#[trigger] block_fits(
        128,
        start as int,
        end as int,
        q,
    ) by {
        if block_fits(128, start as int, end as int, q) {
            lemma_fits_mono(128, start as int, end as int, q, prefix as int - 1);
        }
    }
    prefix
}

/// An aligned block ends within the family.
proof fn lemma_aligned_end_u128(start: u128, prefix: u8)
    requires
        prefix <= 128,
        start as int % block_size(128, prefix as int) == 0,
    ensures
        start + block_size(128, prefix as int) - 1 <= u128::MAX,
{
    lemma_family_sizes();
    crate::policy::network_types::lemma_enclosing_block(128, start as int, prefix as int);
    assert(enclosing_block(128, start as int, prefix as int).base == start);
}

/// Splits merged intervals into the minimal list of blocks that covers them.
pub fn intervals_to_ipv6_cidrs_from_merged(intervals: &[IntervalU128]) -> (cidrs: Vec<Ipv6Cidr>)
    requires
        spans_merged(spans_u128(intervals@)),
    ensures
        blocks_minimal(128, blocks_v6(cidrs@)),
        forall|a: int| #[trigger]
            blocks_cover(128, blocks_v6(cidrs@), a) <==> spans_cover(spans_u128(intervals@), a),
{
    let ghost spans = spans_u128(intervals@);
    let mut out: Vec<Ipv6Cidr> = Vec::new();
    let mut i: usize = 0;
    proof {
        lemma_family_sizes();
        assert(blocks_v6(out@) =~= Seq::<Block>::empty());
        assert(spans.take(0) =~= Seq::<Span>::empty());
    }
    while i < intervals.len()
        invariant
            spans == spans_u128(intervals@),
            spans_merged(spans),
            i <= intervals@.len(),
            pow2(128) == u128::MAX + 1,
            i < spans.len() ==> split_state(
                128,
                spans,
                i as int,
                spans[i as int].lo,
                blocks_v6(out@),
            ),
            split_done(128, spans, blocks_v6(out@)),
            forall|a: int| #[trigger]
                blocks_cover(128, blocks_v6(out@), a) <==> spans_cover(spans.take(i as int), a),
        decreases intervals@.len() - i,
    {
        let interval: IntervalU128 = intervals[i];
        assert(spans[i as int] == interval@);
        let mut start: u128 = interval.start;
        let mut open: bool = true;
        while open
            invariant
                spans == spans_u128(intervals@),
                spans_merged(spans),
                i < intervals@.len(),
                spans[i as int] == interval@,
                pow2(128) == u128::MAX + 1,
                open ==> start <= interval.end && split_state(
                    128,
                    spans,
                    i as int,
                    start as int,
                    blocks_v6(out@),
                ),
                !open ==> split_state(
                    128,
                    spans,
                    i as int,
                    interval.end as int + 1,
                    blocks_v6(out@),
                ),
            decreases (if open { 1int } else { 0int }), interval.end - start,
        {
            let prefix: u8 = largest_prefix_u128(start, interval.end);
            let last: u128 = block_end_u128(start, prefix);
            let cidr: Ipv6Cidr = Ipv6Cidr::from_parts(start, prefix);
            let ghost before = blocks_v6(out@);
            out.push(cidr);
            proof {
                lemma_block_size(128, prefix as int);
                lemma_split_emit(128, spans, i as int, start as int, before, prefix as int);
                assert(blocks_v6(out@) =~= before.push(
                    Block { base: start as int, prefix: prefix as int },
                ));
            }
            if last >= interval.end {
                open = false;
            } else {
                start = last + 1;
            }
        }
        proof {
            lemma_split_advance(128, spans, i as int, blocks_v6(out@));
        }
        i += 1;
    }
    proof {
        assert(spans.take(spans.len() as int) =~= spans);
        lemma_split_finish(128, spans, blocks_v6(out@));
    }
    out
}

/// Merges intervals and splits them into the minimal list of blocks that covers them.
pub fn intervals_to_ipv6_cidrs(intervals: &[IntervalU128]) -> (cidrs: Vec<Ipv6Cidr>)
    requires
        spans_valid(spans_u128(intervals@)),
    ensures
        blocks_minimal(128, blocks_v6(cidrs@)),
        forall|a: int| #[trigger]
            blocks_cover(128, blocks_v6(cidrs@), a) <==> spans_cover(spans_u128(intervals@), a),
{
    let merged: Vec<IntervalU128> = merge_intervals_u128(intervals);
    let cidrs: Vec<Ipv6Cidr> = intervals_to_ipv6_cidrs_from_merged(merged.as_slice());
    assert forall|a: int| #[trigger]
        blocks_cover(128, blocks_v6(cidrs@), a) <==> spans_cover(spans_u128(intervals@), a) by {
        assert(blocks_cover(128, blocks_v6(cidrs@), a) <==> spans_cover(spans_u128(merged@), a));
    }
    cidrs
}

/// The addresses of a network as an interval.
pub fn ipv6_to_interval(cidr: Ipv6Cidr) -> (interval: IntervalU128)
    ensures
        interval@.lo == cidr@.base,
        interval@.hi == block_last(128, cidr@),
        interval.start <= interval.end,
{
    proof {
        use_type_invariant(&cidr);
        lemma_family_sizes();
        lemma_block_size(128, cidr@.prefix);
    }
    let start: u128 = cidr.network();
    IntervalU128 { start, end: start.saturating_add(ipv6_host_mask(cidr.prefix())) }
}

/// Whether two intervals share an address.
pub fn intervals_overlap_u128(a: IntervalU128, b: IntervalU128) -> (overlap: bool)
    requires
        a.start <= a.end,
        b.start <= b.end,
    ensures
        overlap <==> exists|x: int| #[trigger] span_has(a@, x) && span_has(b@, x),
{
    let overlap: bool = !(a.end < b.start || b.end < a.start);
    proof {
        if overlap {
            let x: int = if a.start >= b.start {
                a.start as int
            } else {
                b.start as int
            };
            assert(span_has(a@, x) && span_has(b@, x));
        }
    }
    overlap
}

} // verus!
