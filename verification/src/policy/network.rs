//! Family-separated collapse, safelist subtraction and overlap of canonical networks.

use crate::policy::intervals::{
    blocks_v4, blocks_v6, intervals_overlap_u128, intervals_overlap_u32,
    intervals_to_ipv4_cidrs_from_merged, intervals_to_ipv6_cidrs_from_merged, ipv4_to_interval,
    ipv6_to_interval, merge_intervals_u128_owned, merge_intervals_u32_owned, spans_u128, spans_u32,
    subtract_intervals_u128_merged, subtract_intervals_u32_merged, IntervalU128, IntervalU32,
};
use crate::policy::network_types::{AddressFamily, CanonicalCidr, FamilyCidrs, Ipv4Cidr, Ipv6Cidr};
use crate::policy::span_math::{
    block_has, block_last, blocks_cover, blocks_minimal, blocks_wf, lemma_minimal_blocks_fewest,
    lemma_minimal_blocks_unique, span_has, spans_cover, spans_valid, Span,
};
use vstd::prelude::*;

verus! {

/// The IPv4 networks of a list, in order.
pub open spec fn ipv4_members(cidrs: Seq<CanonicalCidr>) -> Seq<Ipv4Cidr>
    decreases cidrs.len(),
{
    if cidrs.len() == 0 {
        Seq::empty()
    } else {
        match cidrs.last() {
            CanonicalCidr::V4(cidr) => ipv4_members(cidrs.drop_last()).push(cidr),
            CanonicalCidr::V6(_) => ipv4_members(cidrs.drop_last()),
        }
    }
}

/// The IPv6 networks of a list, in order.
pub open spec fn ipv6_members(cidrs: Seq<CanonicalCidr>) -> Seq<Ipv6Cidr>
    decreases cidrs.len(),
{
    if cidrs.len() == 0 {
        Seq::empty()
    } else {
        match cidrs.last() {
            CanonicalCidr::V4(_) => ipv6_members(cidrs.drop_last()),
            CanonicalCidr::V6(cidr) => ipv6_members(cidrs.drop_last()).push(cidr),
        }
    }
}

/// Separates canonical CIDRs into independent IPv4 and IPv6 vectors.
///
/// Relative order within each family is preserved.
pub fn split_by_family(cidrs: &[CanonicalCidr]) -> (families: FamilyCidrs)
    ensures
        families.ipv4@ == ipv4_members(cidrs@),
        families.ipv6@ == ipv6_members(cidrs@),
{
    let mut ipv4: Vec<Ipv4Cidr> = Vec::new();
    let mut ipv6: Vec<Ipv6Cidr> = Vec::new();
    let mut i: usize = 0;
    while i < cidrs.len()
        invariant
            i <= cidrs@.len(),
            ipv4@ == ipv4_members(cidrs@.take(i as int)),
            ipv6@ == ipv6_members(cidrs@.take(i as int)),
        decreases cidrs@.len() - i,
    {
        proof {
            assert(cidrs@.take(i as int + 1).drop_last() =~= cidrs@.take(i as int));
            assert(cidrs@.take(i as int + 1).last() == cidrs@[i as int]);
        }
        match cidrs[i] {
            CanonicalCidr::V4(cidr) => ipv4.push(cidr),
            CanonicalCidr::V6(cidr) => ipv6.push(cidr),
        }
        i += 1;
    }
    assert(cidrs@.take(i as int) =~= cidrs@);
    FamilyCidrs { ipv4, ipv6 }
}

/// `output` is the minimal list of networks for the addresses of `input`.
pub open spec fn collapsed_v4(input: Seq<Ipv4Cidr>, output: Seq<Ipv4Cidr>) -> bool {
    &&& blocks_minimal(32, blocks_v4(output))
    &&& forall|a: int| #[trigger]
        blocks_cover(32, blocks_v4(output), a) <==> blocks_cover(32, blocks_v4(input), a)
}

/// `output` is the minimal list of networks for the addresses of `candidates` outside `safelist`.
pub open spec fn subtracted_v4(
    candidates: Seq<Ipv4Cidr>,
    safelist: Seq<Ipv4Cidr>,
    output: Seq<Ipv4Cidr>,
) -> bool {
    &&& blocks_minimal(32, blocks_v4(output))
    &&& forall|a: int| #[trigger]
        blocks_cover(32, blocks_v4(output), a) <==> (blocks_cover(32, blocks_v4(candidates), a)
            && !blocks_cover(32, blocks_v4(safelist), a))
}

/// Intervals of a list of networks; they cover the same addresses.
fn to_intervals_u32(cidrs: &[Ipv4Cidr]) -> (intervals: Vec<IntervalU32>)
    ensures
        intervals@.len() == cidrs@.len(),
        spans_valid(spans_u32(intervals@)),
        forall|a: int| #[trigger]
            spans_cover(spans_u32(intervals@), a) <==> blocks_cover(32, blocks_v4(cidrs@), a),
{
    let mut intervals: Vec<IntervalU32> = Vec::with_capacity(cidrs.len());
    let mut i: usize = 0;
    while i < cidrs.len()
        invariant
            i <= cidrs@.len(),
            intervals@.len() == i,
            forall|k: int|
                0 <= k < i ==> #[trigger] intervals@[k]@ == (Span {
                    lo: cidrs@[k]@.base,
                    hi: block_last(32, cidrs@[k]@),
                }) && intervals@[k].start <= intervals@[k].end,
        decreases cidrs@.len() - i,
    {
        let interval: IntervalU32 = ipv4_to_interval(cidrs[i]);
        intervals.push(interval);
        i += 1;
    }
    proof {
        let spans = spans_u32(intervals@);
        let blocks = blocks_v4(cidrs@);
        assert forall|k: int| 0 <= k < spans.len() implies (#[trigger] spans[k]).lo
            <= spans[k].hi && spans[k] == (Span {
            lo: blocks[k].base,
            hi: block_last(32, blocks[k]),
        }) by {
            assert(intervals@[k]@ == spans[k]);
        }
        assert forall|a: int| #[trigger] spans_cover(spans, a) <==> blocks_cover(32, blocks, a) by {
            if spans_cover(spans, a) {
                let k = choose|k: int|
                    0 <= k < spans.len() && #[trigger] spans[k].lo <= a <= spans[k].hi;
                assert(block_has(32, blocks[k], a));
            }
            if blocks_cover(32, blocks, a) {
                let k = choose|k: int|
                    0 <= k < blocks.len() && block_has(32, #[trigger] blocks[k], a);
                assert(spans[k].lo <= a <= spans[k].hi);
            }
        }
    }
    intervals
}

/// Merges overlapping or adjacent IPv4 ranges and emits minimal canonical CIDRs.
pub fn collapse_ipv4(cidrs: &[Ipv4Cidr]) -> (collapsed: Vec<Ipv4Cidr>)
    ensures
        collapsed_v4(cidrs@, collapsed@),
{
    let intervals: Vec<IntervalU32> = to_intervals_u32(cidrs);
    let merged: Vec<IntervalU32> = merge_intervals_u32_owned(intervals);
    let collapsed: Vec<Ipv4Cidr> = intervals_to_ipv4_cidrs_from_merged(merged.as_slice());
    assert forall|a: int| #[trigger]
        blocks_cover(32, blocks_v4(collapsed@), a) <==> blocks_cover(32, blocks_v4(cidrs@), a) by {
        assert(blocks_cover(32, blocks_v4(collapsed@), a) <==> spans_cover(spans_u32(merged@), a));
        assert(spans_cover(spans_u32(merged@), a) <==> spans_cover(spans_u32(intervals@), a));
    }
    collapsed
}

/// Removes all safelisted IPv4 addresses and returns minimal canonical CIDRs.
pub fn subtract_safelist_ipv4(candidates: &[Ipv4Cidr], safelist: &[Ipv4Cidr]) -> (kept: Vec<
    Ipv4Cidr,
>)
    ensures
        subtracted_v4(candidates@, safelist@, kept@),
{
    let candidate_intervals: Vec<IntervalU32> = to_intervals_u32(candidates);
    let safe_intervals: Vec<IntervalU32> = to_intervals_u32(safelist);
    let candidate_merged: Vec<IntervalU32> = merge_intervals_u32_owned(candidate_intervals);
    let safe_merged: Vec<IntervalU32> = merge_intervals_u32_owned(safe_intervals);
    let carved: Vec<IntervalU32> = subtract_intervals_u32_merged(
        candidate_merged.as_slice(),
        safe_merged.as_slice(),
    );
    let kept: Vec<Ipv4Cidr> = intervals_to_ipv4_cidrs_from_merged(carved.as_slice());
    assert forall|a: int| #[trigger]
        blocks_cover(32, blocks_v4(kept@), a) <==> (blocks_cover(32, blocks_v4(candidates@), a)
            && !blocks_cover(32, blocks_v4(safelist@), a)) by {
        assert(blocks_cover(32, blocks_v4(kept@), a) <==> spans_cover(spans_u32(carved@), a));
        assert(spans_cover(spans_u32(candidate_merged@), a) <==> spans_cover(
            spans_u32(candidate_intervals@),
            a,
        ));
        assert(spans_cover(spans_u32(safe_merged@), a) <==> spans_cover(
            spans_u32(safe_intervals@),
            a,
        ));
    }
    kept
}

/// Networks whose lists cover the same addresses collapse to the same list.
pub proof fn law_collapse_ipv4_is_canonical(
    left: Seq<Ipv4Cidr>,
    right: Seq<Ipv4Cidr>,
    left_out: Seq<Ipv4Cidr>,
    right_out: Seq<Ipv4Cidr>,
)
    requires
        collapsed_v4(left, left_out),
        collapsed_v4(right, right_out),
        forall|a: int| #[trigger]
            blocks_cover(32, blocks_v4(left), a) <==> blocks_cover(32, blocks_v4(right), a),
    ensures
        left_out == right_out,
{
    assert forall|a: int| #[trigger] blocks_cover(32, blocks_v4(left_out), a) <==> blocks_cover(
        32,
        blocks_v4(right_out),
        a,
    ) by {
        assert(blocks_cover(32, blocks_v4(left), a) <==> blocks_cover(32, blocks_v4(right), a));
        assert(blocks_cover(32, blocks_v4(right_out), a) <==> blocks_cover(
            32,
            blocks_v4(right),
            a,
        ));
    }
    lemma_minimal_blocks_unique(32, blocks_v4(left_out), blocks_v4(right_out));
    lemma_blocks_v4_injective(left_out, right_out);
}

proof fn lemma_blocks_v4_injective(a: Seq<Ipv4Cidr>, b: Seq<Ipv4Cidr>)
    requires
        blocks_v4(a) == blocks_v4(b),
    ensures
        a == b,
{
    assert(blocks_v4(a).len() == a.len() && blocks_v4(b).len() == b.len());
    assert forall|i: int| 0 <= i < a.len() implies #[trigger] a[i] == b[i] by {
        assert(blocks_v4(a)[i] == a[i]@ && blocks_v4(b)[i] == b[i]@);
        assert(a[i]@ == b[i]@);
        Ipv4Cidr::lemma_ext(a[i], b[i]);
    }
    assert(a =~= b);
}

/// The minimal list of networks for the addresses of `input`.
pub open spec fn collapse_of_v4(input: Seq<Ipv4Cidr>) -> Seq<Ipv4Cidr> {
    choose|output: Seq<Ipv4Cidr>| collapsed_v4(input, output)
}

/// A collapsed list is the minimal list of its input.
pub proof fn lemma_collapse_of_v4(input: Seq<Ipv4Cidr>, output: Seq<Ipv4Cidr>)
    requires
        collapsed_v4(input, output),
    ensures
        output == collapse_of_v4(input),
{
    law_collapse_ipv4_is_canonical(input, input, output, collapse_of_v4(input));
}

/// Collapsing a collapsed list changes nothing.
pub proof fn law_collapse_ipv4_idempotent(
    input: Seq<Ipv4Cidr>,
    once: Seq<Ipv4Cidr>,
    twice: Seq<Ipv4Cidr>,
)
    requires
        collapsed_v4(input, once),
        collapsed_v4(once, twice),
    ensures
        twice == once,
{
    assert forall|a: int| #[trigger] blocks_cover(32, blocks_v4(once), a) <==> blocks_cover(
        32,
        blocks_v4(twice),
        a,
    ) by {
        assert(blocks_cover(32, blocks_v4(twice), a) <==> blocks_cover(32, blocks_v4(once), a));
    }
    lemma_minimal_blocks_unique(32, blocks_v4(once), blocks_v4(twice));
    lemma_blocks_v4_injective(once, twice);
}

/// No list of networks covers the same addresses with fewer entries than the collapsed one.
pub proof fn law_collapse_ipv4_fewest(
    input: Seq<Ipv4Cidr>,
    output: Seq<Ipv4Cidr>,
    other: Seq<Ipv4Cidr>,
)
    requires
        collapsed_v4(input, output),
        blocks_wf(32, blocks_v4(other)),
        forall|a: int| #[trigger]
            blocks_cover(32, blocks_v4(other), a) <==> blocks_cover(32, blocks_v4(input), a),
    ensures
        output.len() <= other.len(),
{
    assert forall|a: int| #[trigger] blocks_cover(32, blocks_v4(output), a) <==> blocks_cover(
        32,
        blocks_v4(other),
        a,
    ) by {
        assert(blocks_cover(32, blocks_v4(other), a) <==> blocks_cover(32, blocks_v4(input), a));
    }
    lemma_minimal_blocks_fewest(32, blocks_v4(output), blocks_v4(other));
}

/// Subtracting nothing is collapsing.
pub proof fn law_subtract_ipv4_nothing(candidates: Seq<Ipv4Cidr>, output: Seq<Ipv4Cidr>)
    requires
        subtracted_v4(candidates, Seq::empty(), output),
    ensures
        collapsed_v4(candidates, output),
{
    assert forall|a: int| #[trigger] blocks_cover(32, blocks_v4(output), a) <==> blocks_cover(
        32,
        blocks_v4(candidates),
        a,
    ) by {
        assert(!blocks_cover(32, blocks_v4(Seq::empty()), a));
    }
}

/// Subtracting the same safelist again changes nothing.
pub proof fn law_subtract_ipv4_idempotent(
    candidates: Seq<Ipv4Cidr>,
    safelist: Seq<Ipv4Cidr>,
    once: Seq<Ipv4Cidr>,
    twice: Seq<Ipv4Cidr>,
)
    requires
        subtracted_v4(candidates, safelist, once),
        subtracted_v4(once, safelist, twice),
    ensures
        twice == once,
{
    assert forall|a: int| #[trigger] blocks_cover(32, blocks_v4(once), a) <==> blocks_cover(
        32,
        blocks_v4(twice),
        a,
    ) by {
        assert(blocks_cover(32, blocks_v4(twice), a) <==> (blocks_cover(32, blocks_v4(once), a)
            && !blocks_cover(32, blocks_v4(safelist), a)));
    }
    lemma_minimal_blocks_unique(32, blocks_v4(once), blocks_v4(twice));
    lemma_blocks_v4_injective(once, twice);
}

/// `output` is the minimal list of networks for the addresses of `input`.
pub open spec fn collapsed_v6(input: Seq<Ipv6Cidr>, output: Seq<Ipv6Cidr>) -> bool {
    &&& blocks_minimal(128, blocks_v6(output))
    &&& forall|a: int| #[trigger]
        blocks_cover(128, blocks_v6(output), a) <==> blocks_cover(128, blocks_v6(input), a)
}

/// `output` is the minimal list of networks for the addresses of `candidates` outside `safelist`.
pub open spec fn subtracted_v6(
    candidates: Seq<Ipv6Cidr>,
    safelist: Seq<Ipv6Cidr>,
    output: Seq<Ipv6Cidr>,
) -> bool {
    &&& blocks_minimal(128, blocks_v6(output))
    &&& forall|a: int| #[trigger]
        blocks_cover(128, blocks_v6(output), a) <==> (blocks_cover(128, blocks_v6(candidates), a)
            && !blocks_cover(128, blocks_v6(safelist), a))
}

/// Intervals of a list of networks; they cover the same addresses.
fn to_intervals_u128(cidrs: &[Ipv6Cidr]) -> (intervals: Vec<IntervalU128>)
    ensures
        intervals@.len() == cidrs@.len(),
        spans_valid(spans_u128(intervals@)),
        forall|a: int| #[trigger]
            spans_cover(spans_u128(intervals@), a) <==> blocks_cover(128, blocks_v6(cidrs@), a),
{
    let mut intervals: Vec<IntervalU128> = Vec::with_capacity(cidrs.len());
    let mut i: usize = 0;
    while i < cidrs.len()
        invariant
            i <= cidrs@.len(),
            intervals@.len() == i,
            forall|k: int|
                0 <= k < i ==> #[trigger] intervals@[k]@ == (Span {
                    lo: cidrs@[k]@.base,
                    hi: block_last(128, cidrs@[k]@),
                }) && intervals@[k].start <= intervals@[k].end,
        decreases cidrs@.len() - i,
    {
        let interval: IntervalU128 = ipv6_to_interval(cidrs[i]);
        intervals.push(interval);
        i += 1;
    }
    proof {
        let spans = spans_u128(intervals@);
        let blocks = blocks_v6(cidrs@);
        assert forall|k: int| 0 <= k < spans.len() implies (#[trigger] spans[k]).lo
            <= spans[k].hi && spans[k] == (Span {
            lo: blocks[k].base,
            hi: block_last(128, blocks[k]),
        }) by {
            assert(intervals@[k]@ == spans[k]);
        }
        assert forall|a: int| #[trigger] spans_cover(spans, a) <==> blocks_cover(128, blocks, a) by {
            if spans_cover(spans, a) {
                let k = choose|k: int|
                    0 <= k < spans.len() && #[trigger] spans[k].lo <= a <= spans[k].hi;
                assert(block_has(128, blocks[k], a));
            }
            if blocks_cover(128, blocks, a) {
                let k = choose|k: int|
                    0 <= k < blocks.len() && block_has(128, #[trigger] blocks[k], a);
                assert(spans[k].lo <= a <= spans[k].hi);
            }
        }
    }
    intervals
}

/// Merges overlapping or adjacent IPv6 ranges and emits minimal canonical CIDRs.
pub fn collapse_ipv6(cidrs: &[Ipv6Cidr]) -> (collapsed: Vec<Ipv6Cidr>)
    ensures
        collapsed_v6(cidrs@, collapsed@),
{
    let intervals: Vec<IntervalU128> = to_intervals_u128(cidrs);
    let merged: Vec<IntervalU128> = merge_intervals_u128_owned(intervals);
    let collapsed: Vec<Ipv6Cidr> = intervals_to_ipv6_cidrs_from_merged(merged.as_slice());
    assert forall|a: int| #[trigger]
        blocks_cover(128, blocks_v6(collapsed@), a) <==> blocks_cover(128, blocks_v6(cidrs@), a) by {
        assert(blocks_cover(128, blocks_v6(collapsed@), a) <==> spans_cover(spans_u128(merged@), a));
        assert(spans_cover(spans_u128(merged@), a) <==> spans_cover(spans_u128(intervals@), a));
    }
    collapsed
}

/// Removes all safelisted IPv6 addresses and returns minimal canonical CIDRs.
pub fn subtract_safelist_ipv6(candidates: &[Ipv6Cidr], safelist: &[Ipv6Cidr]) -> (kept: Vec<
    Ipv6Cidr,
>)
    ensures
        subtracted_v6(candidates@, safelist@, kept@),
{
    let candidate_intervals: Vec<IntervalU128> = to_intervals_u128(candidates);
    let safe_intervals: Vec<IntervalU128> = to_intervals_u128(safelist);
    let candidate_merged: Vec<IntervalU128> = merge_intervals_u128_owned(candidate_intervals);
    let safe_merged: Vec<IntervalU128> = merge_intervals_u128_owned(safe_intervals);
    let carved: Vec<IntervalU128> = subtract_intervals_u128_merged(
        candidate_merged.as_slice(),
        safe_merged.as_slice(),
    );
    let kept: Vec<Ipv6Cidr> = intervals_to_ipv6_cidrs_from_merged(carved.as_slice());
    assert forall|a: int| #[trigger]
        blocks_cover(128, blocks_v6(kept@), a) <==> (blocks_cover(128, blocks_v6(candidates@), a)
            && !blocks_cover(128, blocks_v6(safelist@), a)) by {
        assert(blocks_cover(128, blocks_v6(kept@), a) <==> spans_cover(spans_u128(carved@), a));
        assert(spans_cover(spans_u128(candidate_merged@), a) <==> spans_cover(
            spans_u128(candidate_intervals@),
            a,
        ));
        assert(spans_cover(spans_u128(safe_merged@), a) <==> spans_cover(
            spans_u128(safe_intervals@),
            a,
        ));
    }
    kept
}

/// Networks whose lists cover the same addresses collapse to the same list.
pub proof fn law_collapse_ipv6_is_canonical(
    left: Seq<Ipv6Cidr>,
    right: Seq<Ipv6Cidr>,
    left_out: Seq<Ipv6Cidr>,
    right_out: Seq<Ipv6Cidr>,
)
    requires
        collapsed_v6(left, left_out),
        collapsed_v6(right, right_out),
        forall|a: int| #[trigger]
            blocks_cover(128, blocks_v6(left), a) <==> blocks_cover(128, blocks_v6(right), a),
    ensures
        left_out == right_out,
{
    assert forall|a: int| #[trigger] blocks_cover(128, blocks_v6(left_out), a) <==> blocks_cover(
        128,
        blocks_v6(right_out),
        a,
    ) by {
        assert(blocks_cover(128, blocks_v6(left), a) <==> blocks_cover(128, blocks_v6(right), a));
        assert(blocks_cover(128, blocks_v6(right_out), a) <==> blocks_cover(
            128,
            blocks_v6(right),
            a,
        ));
    }
    lemma_minimal_blocks_unique(128, blocks_v6(left_out), blocks_v6(right_out));
    lemma_blocks_v6_injective(left_out, right_out);
}

proof fn lemma_blocks_v6_injective(a: Seq<Ipv6Cidr>, b: Seq<Ipv6Cidr>)
    requires
        blocks_v6(a) == blocks_v6(b),
    ensures
        a == b,
{
    assert(blocks_v6(a).len() == a.len() && blocks_v6(b).len() == b.len());
    assert forall|i: int| 0 <= i < a.len() implies #[trigger] a[i] == b[i] by {
        assert(blocks_v6(a)[i] == a[i]@ && blocks_v6(b)[i] == b[i]@);
        assert(a[i]@ == b[i]@);
        Ipv6Cidr::lemma_ext(a[i], b[i]);
    }
    assert(a =~= b);
}

/// The minimal list of networks for the addresses of `input`.
pub open spec fn collapse_of_v6(input: Seq<Ipv6Cidr>) -> Seq<Ipv6Cidr> {
    choose|output: Seq<Ipv6Cidr>| collapsed_v6(input, output)
}

/// A collapsed list is the minimal list of its input.
pub proof fn lemma_collapse_of_v6(input: Seq<Ipv6Cidr>, output: Seq<Ipv6Cidr>)
    requires
        collapsed_v6(input, output),
    ensures
        output == collapse_of_v6(input),
{
    law_collapse_ipv6_is_canonical(input, input, output, collapse_of_v6(input));
}

/// Collapsing a collapsed list changes nothing.
pub proof fn law_collapse_ipv6_idempotent(
    input: Seq<Ipv6Cidr>,
    once: Seq<Ipv6Cidr>,
    twice: Seq<Ipv6Cidr>,
)
    requires
        collapsed_v6(input, once),
        collapsed_v6(once, twice),
    ensures
        twice == once,
{
    assert forall|a: int| #[trigger] blocks_cover(128, blocks_v6(once), a) <==> blocks_cover(
        128,
        blocks_v6(twice),
        a,
    ) by {
        assert(blocks_cover(128, blocks_v6(twice), a) <==> blocks_cover(128, blocks_v6(once), a));
    }
    lemma_minimal_blocks_unique(128, blocks_v6(once), blocks_v6(twice));
    lemma_blocks_v6_injective(once, twice);
}

/// No list of networks covers the same addresses with fewer entries than the collapsed one.
pub proof fn law_collapse_ipv6_fewest(
    input: Seq<Ipv6Cidr>,
    output: Seq<Ipv6Cidr>,
    other: Seq<Ipv6Cidr>,
)
    requires
        collapsed_v6(input, output),
        blocks_wf(128, blocks_v6(other)),
        forall|a: int| #[trigger]
            blocks_cover(128, blocks_v6(other), a) <==> blocks_cover(128, blocks_v6(input), a),
    ensures
        output.len() <= other.len(),
{
    assert forall|a: int| #[trigger] blocks_cover(128, blocks_v6(output), a) <==> blocks_cover(
        128,
        blocks_v6(other),
        a,
    ) by {
        assert(blocks_cover(128, blocks_v6(other), a) <==> blocks_cover(128, blocks_v6(input), a));
    }
    lemma_minimal_blocks_fewest(128, blocks_v6(output), blocks_v6(other));
}

/// Subtracting nothing is collapsing.
pub proof fn law_subtract_ipv6_nothing(candidates: Seq<Ipv6Cidr>, output: Seq<Ipv6Cidr>)
    requires
        subtracted_v6(candidates, Seq::empty(), output),
    ensures
        collapsed_v6(candidates, output),
{
    assert forall|a: int| #[trigger] blocks_cover(128, blocks_v6(output), a) <==> blocks_cover(
        128,
        blocks_v6(candidates),
        a,
    ) by {
        assert(!blocks_cover(128, blocks_v6(Seq::empty()), a));
    }
}

/// Subtracting the same safelist again changes nothing.
pub proof fn law_subtract_ipv6_idempotent(
    candidates: Seq<Ipv6Cidr>,
    safelist: Seq<Ipv6Cidr>,
    once: Seq<Ipv6Cidr>,
    twice: Seq<Ipv6Cidr>,
)
    requires
        subtracted_v6(candidates, safelist, once),
        subtracted_v6(once, safelist, twice),
    ensures
        twice == once,
{
    assert forall|a: int| #[trigger] blocks_cover(128, blocks_v6(once), a) <==> blocks_cover(
        128,
        blocks_v6(twice),
        a,
    ) by {
        assert(blocks_cover(128, blocks_v6(twice), a) <==> (blocks_cover(128, blocks_v6(once), a)
            && !blocks_cover(128, blocks_v6(safelist), a)));
    }
    lemma_minimal_blocks_unique(128, blocks_v6(once), blocks_v6(twice));
    lemma_blocks_v6_injective(once, twice);
}

/// Whether two networks share an address.
pub open spec fn networks_overlap(a: CanonicalCidr, b: CanonicalCidr) -> bool {
    exists|family: AddressFamily, x: int| #[trigger] a.has(family, x) && b.has(family, x)
}

/// Returns whether two same-family CIDRs share at least one address.
///
/// CIDRs from different address families never overlap.
pub fn cidr_overlaps(a: CanonicalCidr, b: CanonicalCidr) -> (overlap: bool)
    ensures
        overlap == networks_overlap(a, b),
        a.family_of() != b.family_of() ==> !overlap,
{
    match (a, b) {
        (CanonicalCidr::V4(left), CanonicalCidr::V4(right)) => {
            let x: IntervalU32 = ipv4_to_interval(left);
            let y: IntervalU32 = ipv4_to_interval(right);
            let overlap: bool = intervals_overlap_u32(x, y);
            proof {
                if overlap {
                    let p = choose|p: int| #[trigger] span_has(x@, p) && span_has(y@, p);
                    assert(a.has(AddressFamily::Ipv4, p) && b.has(AddressFamily::Ipv4, p));
                }
                if networks_overlap(a, b) {
                    let (f, p) = choose|f: AddressFamily, p: int| #[trigger]
                        a.has(f, p) && b.has(f, p);
                    assert(a.has(f, p) && b.has(f, p));
                    assert(span_has(x@, p) && span_has(y@, p));
                }
            }
            overlap
        },
        (CanonicalCidr::V6(left), CanonicalCidr::V6(right)) => {
            let x: IntervalU128 = ipv6_to_interval(left);
            let y: IntervalU128 = ipv6_to_interval(right);
            let overlap: bool = intervals_overlap_u128(x, y);
            proof {
                if overlap {
                    let p = choose|p: int| #[trigger] span_has(x@, p) && span_has(y@, p);
                    assert(a.has(AddressFamily::Ipv6, p) && b.has(AddressFamily::Ipv6, p));
                }
                if networks_overlap(a, b) {
                    let (f, p) = choose|f: AddressFamily, p: int| #[trigger]
                        a.has(f, p) && b.has(f, p);
                    assert(a.has(f, p) && b.has(f, p));
                    assert(span_has(x@, p) && span_has(y@, p));
                }
            }
            overlap
        },
        _ => false,
    }
}

/// Overlap does not depend on the order of the networks.
pub proof fn law_overlap_symmetric(a: CanonicalCidr, b: CanonicalCidr)
    ensures
        networks_overlap(a, b) == networks_overlap(b, a),
{
    if networks_overlap(a, b) {
        let (f, p) = choose|f: AddressFamily, p: int| #[trigger] a.has(f, p) && b.has(f, p);
        assert(b.has(f, p) && a.has(f, p));
    }
    if networks_overlap(b, a) {
        let (f, p) = choose|f: AddressFamily, p: int| #[trigger] b.has(f, p) && a.has(f, p);
        assert(a.has(f, p) && b.has(f, p));
    }
}

/// Overlapping networks are nested: the one with the longer prefix lies inside the other.
pub proof fn law_overlap_means_nesting(outer: CanonicalCidr, inner: CanonicalCidr)
    requires
        outer.valid(),
        inner.valid(),
        networks_overlap(outer, inner),
        outer.block().prefix <= inner.block().prefix,
    ensures
        forall|family: AddressFamily, x: int| #[trigger]
            inner.has(family, x) ==> outer.has(family, x),
{
    let (f, p) = choose|f: AddressFamily, p: int| #[trigger] outer.has(f, p) && inner.has(f, p);
    assert(outer.has(f, p) && inner.has(f, p));
    crate::policy::span_math::lemma_blocks_nest(f.width(), outer.block(), inner.block(), p);
}

} // verus!
