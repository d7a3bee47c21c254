//! Mathematical model of address ranges and prefix blocks, shared by both address families.
//!
//! A family of width `w` has the addresses `0 .. 2^w`. Ranges are modelled by [`Span`], prefix
//! blocks by [`Block`]; both are plain integers so that one set of lemmas serves IPv4 and IPv6.

use vstd::arithmetic::div_mod::*;
use vstd::arithmetic::mul::*;
use vstd::arithmetic::power2::*;
use vstd::prelude::*;

verus! {

/// Inclusive range of addresses.
pub struct Span {
    pub lo: int,
    pub hi: int,
}

/// Prefix block: the `2^(w - prefix)` addresses that start at `base`.
pub struct Block {
    pub base: int,
    pub prefix: int,
}

/// Whether the span holds address `a`.
pub open spec fn span_has(span: Span, a: int) -> bool {
    span.lo <= a <= span.hi
}

/// Whether `a` lies in one of the spans.
pub open spec fn spans_cover(spans: Seq<Span>, a: int) -> bool {
    exists|i: int| 0 <= i < spans.len() && #[trigger] spans[i].lo <= a <= spans[i].hi
}

/// Every span is non-empty.
pub open spec fn spans_valid(spans: Seq<Span>) -> bool {
    forall|i: int| 0 <= i < spans.len() ==> (#[trigger] spans[i]).lo <= spans[i].hi
}

/// Non-empty spans in ascending order with at least one address between neighbours.
///
/// A set of addresses has at most one such description.
pub open spec fn spans_merged(spans: Seq<Span>) -> bool {
    &&& spans_valid(spans)
    &&& forall|i: int, j: int|
        0 <= i < j < spans.len() ==> (#[trigger] spans[i]).hi + 1 < (#[trigger] spans[j]).lo
}

/// Spans are ordered by their first address.
pub open spec fn spans_sorted(spans: Seq<Span>) -> bool {
    forall|i: int, j: int|
        0 <= i <= j < spans.len() ==> (#[trigger] spans[i]).lo <= (#[trigger] spans[j]).lo
}

/// Number of addresses in a block of the given prefix length.
pub open spec fn block_size(w: int, prefix: int) -> int {
    pow2((w - prefix) as nat) as int
}

/// Last address of the block that starts at `base`.
pub open spec fn block_last(w: int, b: Block) -> int {
    b.base + block_size(w, b.prefix) - 1
}

/// A block of a family of width `w`: prefix in range and no host bits set.
pub open spec fn block_wf(w: int, b: Block) -> bool {
    &&& 0 <= b.prefix <= w
    &&& 0 <= b.base
    &&& b.base % block_size(w, b.prefix) == 0
    &&& b.base + block_size(w, b.prefix) <= pow2(w as nat)
}

/// Whether the block holds address `a`.
pub open spec fn block_has(w: int, b: Block, a: int) -> bool {
    b.base <= a <= block_last(w, b)
}

/// Whether one of the blocks holds address `a`.
pub open spec fn blocks_cover(w: int, blocks: Seq<Block>, a: int) -> bool {
    exists|i: int| 0 <= i < blocks.len() && block_has(w, #[trigger] blocks[i], a)
}

/// Every block is well formed.
pub open spec fn blocks_wf(w: int, blocks: Seq<Block>) -> bool {
    forall|i: int| 0 <= i < blocks.len() ==> block_wf(w, #[trigger] blocks[i])
}

/// Blocks are in ascending order and share no address.
pub open spec fn blocks_ascending(w: int, blocks: Seq<Block>) -> bool {
    forall|i: int, j: int|
        0 <= i < j < blocks.len() ==> block_last(w, #[trigger] blocks[i]) < (
        #[trigger] blocks[j]).base
}

/// The block of the next shorter prefix that contains `b`.
pub open spec fn block_parent(w: int, b: Block) -> Block {
    Block {
        base: b.base - b.base % block_size(w, b.prefix - 1),
        prefix: b.prefix - 1,
    }
}

/// No block of the sequence can grow to its parent without covering a new address.
pub open spec fn blocks_maximal(w: int, blocks: Seq<Block>) -> bool {
    forall|i: int|
        0 <= i < blocks.len() && (#[trigger] blocks[i]).prefix > 0 ==> exists|a: int|
            #[trigger] block_has(w, block_parent(w, blocks[i]), a) && !blocks_cover(w, blocks, a)
}

/// Ascending, disjoint, maximal blocks: the shortest block list for the addresses it covers.
pub open spec fn blocks_minimal(w: int, blocks: Seq<Block>) -> bool {
    &&& blocks_wf(w, blocks)
    &&& blocks_ascending(w, blocks)
    &&& blocks_maximal(w, blocks)
}

/// Block sizes are positive, and a shorter prefix doubles the size.
pub proof fn lemma_block_size(w: int, prefix: int)
    requires
        0 <= prefix <= w,
    ensures
        block_size(w, prefix) > 0,
        prefix > 0 ==> block_size(w, prefix - 1) == 2 * block_size(w, prefix),
        prefix == w ==> block_size(w, prefix) == 1,
        prefix == 0 ==> block_size(w, prefix) == pow2(w as nat),
{
    lemma_pow2_pos((w - prefix) as nat);
    if prefix > 0 {
        lemma_pow2_unfold((w - prefix + 1) as nat);
    }
    if prefix == w {
        lemma2_to64();
    }
}

/// The size of a longer prefix divides the size of a shorter one.
pub proof fn lemma_block_size_divides(w: int, p: int, q: int)
    requires
        0 <= p <= q <= w,
    ensures
        block_size(w, p) == block_size(w, q) * pow2((q - p) as nat),
        block_size(w, q) <= block_size(w, p),
        pow2((q - p) as nat) > 0,
{
    lemma_pow2_adds((w - q) as nat, (q - p) as nat);
    lemma_pow2_pos((q - p) as nat);
    lemma_pow2_pos((w - q) as nat);
    let s = block_size(w, q);
    let k = pow2((q - p) as nat) as int;
    assert(s * k >= s) by (nonlinear_arith)
        requires
            s > 0,
            k > 0,
    ;
}

/// An address aligned to a shorter prefix is aligned to every longer one.
pub proof fn lemma_aligned_mono(w: int, base: int, p: int, q: int)
    requires
        0 <= p <= q <= w,
        base % block_size(w, p) == 0,
    ensures
        base % block_size(w, q) == 0,
{
    lemma_block_size_divides(w, p, q);
    lemma_block_size(w, q);
    let s = block_size(w, q);
    let k = pow2((q - p) as nat) as int;
    lemma_fundamental_div_mod(base, s * k);
    let d = base / (s * k);
    assert(base == s * (k * d)) by (nonlinear_arith)
        requires
            base == (s * k) * d,
    ;
    lemma_mod_multiples_basic(k * d, s);
    assert((k * d) * s == s * (k * d)) by (nonlinear_arith);
}

/// Two blocks are disjoint or one contains the other: a block that shares an address with a block
/// of a shorter or equal prefix lies inside it.
pub proof fn lemma_blocks_nest(w: int, outer: Block, inner: Block, a: int)
    requires
        block_wf(w, outer),
        block_wf(w, inner),
        outer.prefix <= inner.prefix,
        block_has(w, outer, a),
        block_has(w, inner, a),
    ensures
        outer.base <= inner.base,
        block_last(w, inner) <= block_last(w, outer),
{
    let s = block_size(w, inner.prefix);
    let big = block_size(w, outer.prefix);
    let k = pow2((inner.prefix - outer.prefix) as nat) as int;
    lemma_block_size_divides(w, outer.prefix, inner.prefix);
    lemma_block_size(w, inner.prefix);
    lemma_block_size(w, outer.prefix);
    lemma_aligned_mono(w, outer.base, outer.prefix, inner.prefix);
    lemma_fundamental_div_mod(inner.base, s);
    lemma_fundamental_div_mod(outer.base, s);
    let x = inner.base / s;
    let y = outer.base / s;
    // inner.base == s * x, outer.base == s * y, big == s * k
    if inner.base < outer.base {
        assert(x + 1 <= y) by (nonlinear_arith)
            requires
                s * x < s * y,
                s > 0,
        ;
        assert(s * (x + 1) <= s * y) by (nonlinear_arith)
            requires
                x + 1 <= y,
                s > 0,
        ;
        assert(s * (x + 1) == s * x + s) by (nonlinear_arith);
    }
    if inner.base + s > outer.base + big {
        assert(s * (x + 1) == s * x + s) by (nonlinear_arith);
        assert(s * (y + k) == s * y + s * k) by (nonlinear_arith);
        assert(x + 1 > y + k) by (nonlinear_arith)
            requires
                s * (x + 1) > s * (y + k),
                s > 0,
        ;
        assert(s * x >= s * (y + k)) by (nonlinear_arith)
            requires
                x >= y + k,
                s > 0,
        ;
    }
}

/// The parent of a block is a block, and contains it.
pub proof fn lemma_block_parent(w: int, b: Block)
    requires
        block_wf(w, b),
        b.prefix > 0,
    ensures
        block_wf(w, block_parent(w, b)),
        block_parent(w, b).base <= b.base,
        block_last(w, b) <= block_last(w, block_parent(w, b)),
        block_parent(w, b).base == b.base || block_parent(w, b).base == b.base - block_size(
            w,
            b.prefix,
        ),
{
    let s = block_size(w, b.prefix);
    let big = block_size(w, b.prefix - 1);
    lemma_block_size(w, b.prefix);
    lemma_block_size(w, b.prefix - 1);
    lemma_fundamental_div_mod(b.base, big);
    lemma_fundamental_div_mod(b.base, s);
    let q = b.base / big;
    let x = b.base / s;
    let r = b.base % big;
    lemma_mod_bound(b.base, big);
    // b.base == 2*s*q + r and b.base == s*x, so r == s*(x - 2q) with 0 <= r < 2s
    assert(r == s * (x - 2 * q)) by (nonlinear_arith)
        requires
            s * x == (2 * s) * q + r,
    ;
    assert(x - 2 * q == 0 || x - 2 * q == 1) by (nonlinear_arith)
        requires
            0 <= s * (x - 2 * q) < 2 * s,
            s > 0,
    ;
    assert(r == 0 || r == s) by (nonlinear_arith)
        requires
            r == s * (x - 2 * q),
            x - 2 * q == 0 || x - 2 * q == 1,
    ;
    let p = block_parent(w, b);
    assert(p.base == big * q);
    assert(p.base >= 0) by (nonlinear_arith)
        requires
            p.base == big * q,
            q >= 0,
            big > 0,
    ;
    lemma_mod_multiples_basic(q, big);
    assert(q * big == big * q) by (nonlinear_arith);
    // the parent ends where a multiple of its size ends, at most 2^w
    lemma_block_size_divides(w, 0, b.prefix - 1);
    lemma_block_size(w, 0);
    let k = pow2((b.prefix - 1) as nat) as int;
    assert(pow2(w as nat) == big * k);
    assert(q < k) by (nonlinear_arith)
        requires
            big * q < big * k,
            big > 0,
    ;
    assert(big * q + big <= big * k) by (nonlinear_arith)
        requires
            q + 1 <= k,
            big > 0,
    ;
}

/// Whether the block of the given prefix at `start` is aligned and ends by `end`.
pub open spec fn block_fits(w: int, start: int, end: int, prefix: int) -> bool {
    &&& 0 <= prefix <= w
    &&& start % block_size(w, prefix) == 0
    &&& start + block_size(w, prefix) - 1 <= end
}

/// `prefix` is the shortest prefix whose block at `start` ends by `end`.
pub open spec fn largest_fit(w: int, start: int, end: int, prefix: int) -> bool {
    &&& block_fits(w, start, end, prefix)
    &&& forall|q: int| 0 <= q < prefix ==> !#[trigger] block_fits(w, start, end, q)
}

/// A block that fits still fits with any longer prefix.
pub proof fn lemma_fits_mono(w: int, start: int, end: int, p: int, q: int)
    requires
        0 <= p <= q <= w,
        block_fits(w, start, end, p),
    ensures
        block_fits(w, start, end, q),
{
    lemma_aligned_mono(w, start, p, q);
    lemma_block_size_divides(w, p, q);
}

/// Sequences in strictly ascending base order with the same elements are equal.
proof fn lemma_ascending_same_blocks(a: Seq<Block>, b: Seq<Block>)
    requires
        forall|i: int, j: int|
            0 <= i < j < a.len() ==> (#[trigger] a[i]).base < (#[trigger] a[j]).base,
        forall|i: int, j: int|
            0 <= i < j < b.len() ==> (#[trigger] b[i]).base < (#[trigger] b[j]).base,
        forall|i: int| 0 <= i < a.len() ==> b.contains(#[trigger] a[i]),
        forall|i: int| 0 <= i < b.len() ==> a.contains(#[trigger] b[i]),
    ensures
        a == b,
    decreases a.len(),
{
    if a.len() == 0 {
        if b.len() > 0 {
            assert(a.contains(b[0]));
        }
        assert(a =~= b);
    } else {
        assert(b.contains(a[0]));
        let j = choose|j: int| 0 <= j < b.len() && b[j] == a[0];
        assert(a.contains(b[0]));
        let k = choose|k: int| 0 <= k < a.len() && a[k] == b[0];
        assert(a[0] == b[0]) by {
            if j > 0 {
                assert(b[0].base < b[j].base);
                if k > 0 {
                    assert(a[0].base < a[k].base);
                }
            }
        }
        let a1 = a.drop_first();
        let b1 = b.drop_first();
        assert forall|i: int| 0 <= i < a1.len() implies b1.contains(#[trigger] a1[i]) by {
            assert(a1[i] == a[i + 1]);
            assert(b.contains(a[i + 1]));
            let m = choose|m: int| 0 <= m < b.len() && b[m] == a[i + 1];
            assert(a[0].base < a[i + 1].base);
            assert(m != 0);
            assert(b1[m - 1] == a1[i]);
        }
        assert forall|i: int| 0 <= i < b1.len() implies a1.contains(#[trigger] b1[i]) by {
            assert(b1[i] == b[i + 1]);
            assert(a.contains(b[i + 1]));
            let m = choose|m: int| 0 <= m < a.len() && a[m] == b[i + 1];
            assert(b[0].base < b[i + 1].base);
            assert(m != 0);
            assert(a1[m - 1] == b1[i]);
        }
        assert forall|i: int, j: int| 0 <= i < j < a1.len() implies (#[trigger] a1[i]).base < (
        #[trigger] a1[j]).base by {
            assert(a[i + 1].base < a[j + 1].base);
        }
        assert forall|i: int, j: int| 0 <= i < j < b1.len() implies (#[trigger] b1[i]).base < (
        #[trigger] b1[j]).base by {
            assert(b[i + 1].base < b[j + 1].base);
        }
        lemma_ascending_same_blocks(a1, b1);
        assert(a =~= seq![a[0]] + a1);
        assert(b =~= seq![b[0]] + b1);
    }
}

/// A block of a minimal list cannot lie strictly inside a covered block.
proof fn lemma_maximal_not_inside(w: int, blocks: Seq<Block>, i: int, outer: Block)
    requires
        blocks_minimal(w, blocks),
        0 <= i < blocks.len(),
        block_wf(w, outer),
        block_has(w, outer, blocks[i].base),
        forall|a: int| block_has(w, outer, a) ==> #[trigger] blocks_cover(w, blocks, a),
    ensures
        outer.prefix >= blocks[i].prefix,
{
    if outer.prefix < blocks[i].prefix {
        let b = blocks[i];
        let parent = block_parent(w, b);
        lemma_block_parent(w, b);
        lemma_block_size(w, b.prefix);
        lemma_block_size(w, outer.prefix);
        lemma_blocks_nest(w, outer, parent, b.base);
        let a = choose|a: int| #[trigger] block_has(w, parent, a) && !blocks_cover(w, blocks, a);
        assert(block_has(w, parent, a));
        assert(block_has(w, outer, a));
        assert(blocks_cover(w, blocks, a));
        assert(false);
    }
}

/// A minimal block list is determined by the addresses it covers.
pub proof fn lemma_minimal_blocks_unique(w: int, a: Seq<Block>, b: Seq<Block>)
    requires
        0 <= w,
        blocks_minimal(w, a),
        blocks_minimal(w, b),
        forall|x: int| #[trigger] blocks_cover(w, a, x) <==> blocks_cover(w, b, x),
    ensures
        a == b,
{
    lemma_minimal_blocks_subset(w, a, b);
    lemma_minimal_blocks_subset(w, b, a);
    assert forall|i: int, j: int| 0 <= i < j < a.len() implies (#[trigger] a[i]).base < (
    #[trigger] a[j]).base by {
        lemma_block_size(w, a[i].prefix);
    }
    assert forall|i: int, j: int| 0 <= i < j < b.len() implies (#[trigger] b[i]).base < (
    #[trigger] b[j]).base by {
        lemma_block_size(w, b[i].prefix);
    }
    lemma_ascending_same_blocks(a, b);
}

proof fn lemma_minimal_blocks_subset(w: int, a: Seq<Block>, b: Seq<Block>)
    requires
        0 <= w,
        blocks_minimal(w, a),
        blocks_minimal(w, b),
        forall|x: int| #[trigger] blocks_cover(w, a, x) <==> blocks_cover(w, b, x),
    ensures
        forall|i: int| 0 <= i < a.len() ==> b.contains(#[trigger] a[i]),
{
    assert forall|i: int| 0 <= i < a.len() implies b.contains(#[trigger] a[i]) by {
        let x = a[i].base;
        lemma_block_size(w, a[i].prefix);
        assert(block_has(w, a[i], x));
        assert(blocks_cover(w, a, x));
        assert(blocks_cover(w, b, x));
        let j = choose|j: int| 0 <= j < b.len() && block_has(w, #[trigger] b[j], x);
        assert forall|y: int| block_has(w, b[j], y) implies #[trigger] blocks_cover(w, a, y) by {
            assert(blocks_cover(w, b, y));
        }
        lemma_maximal_not_inside(w, a, i, b[j]);
        lemma_blocks_nest(w, a[i], b[j], x);
        assert forall|y: int| block_has(w, a[i], y) implies #[trigger] blocks_cover(w, b, y) by {
            assert(blocks_cover(w, a, y));
        }
        lemma_block_size(w, b[j].prefix);
        assert(block_has(w, a[i], b[j].base));
        lemma_maximal_not_inside(w, b, j, a[i]);
        assert(a[i].prefix == b[j].prefix);
        lemma_blocks_nest(w, b[j], a[i], x);
        assert(b[j] == a[i]);
    }
}

/// No list of blocks covers the same addresses with fewer blocks than a minimal one.
pub proof fn lemma_minimal_blocks_fewest(w: int, minimal: Seq<Block>, other: Seq<Block>)
    requires
        0 <= w,
        blocks_minimal(w, minimal),
        blocks_wf(w, other),
        forall|x: int| #[trigger] blocks_cover(w, minimal, x) <==> blocks_cover(w, other, x),
    ensures
        minimal.len() <= other.len(),
{
    let holder = |i: int|
        choose|j: int|
            0 <= j < other.len() && block_has(w, #[trigger] other[j], minimal[i].base);
    let picks = Seq::new(minimal.len(), holder);
    assert forall|i: int| 0 <= i < minimal.len() implies ({
        let j = #[trigger] picks[i];
        &&& 0 <= j < other.len()
        &&& block_has(w, other[j], minimal[i].base)
        &&& minimal[i].base <= other[j].base
        &&& block_last(w, other[j]) <= block_last(w, minimal[i])
    }) by {
        lemma_block_size(w, minimal[i].prefix);
        assert(block_has(w, minimal[i], minimal[i].base));
        assert(blocks_cover(w, minimal, minimal[i].base));
        assert(blocks_cover(w, other, minimal[i].base));
        let j = holder(i);
        assert(0 <= j < other.len() && block_has(w, other[j], minimal[i].base));
        assert forall|y: int| block_has(w, other[j], y) implies #[trigger] blocks_cover(
            w,
            minimal,
            y,
        ) by {
            assert(blocks_cover(w, other, y));
        }
        lemma_maximal_not_inside(w, minimal, i, other[j]);
        lemma_blocks_nest(w, minimal[i], other[j], minimal[i].base);
    }
    assert(picks.no_duplicates()) by {
        assert forall|i: int, k: int| 0 <= i < k < picks.len() implies picks[i] != picks[k] by {
            lemma_block_size(w, other[picks[i]].prefix);
            assert(block_last(w, minimal[i]) < minimal[k].base);
        }
    }
    picks.unique_seq_to_set();
    vstd::set_lib::lemma_int_range(0, other.len() as int);
    let range = vstd::set_lib::set_int_range(0, other.len() as int);
    assert(picks.to_set().subset_of(range)) by {
        assert forall|x: int| picks.to_set().contains(x) implies range.contains(x) by {
            let i = choose|i: int| 0 <= i < picks.len() && picks[i] == x;
            assert(picks[i] == x);
        }
    }
    vstd::set_lib::lemma_len_subset(picks.to_set(), range);
}

/// Sequences of spans in ascending order with the same elements are equal.
proof fn lemma_ascending_same_spans(a: Seq<Span>, b: Seq<Span>)
    requires
        forall|i: int, j: int|
            0 <= i < j < a.len() ==> (#[trigger] a[i]).lo < (#[trigger] a[j]).lo,
        forall|i: int, j: int|
            0 <= i < j < b.len() ==> (#[trigger] b[i]).lo < (#[trigger] b[j]).lo,
        forall|i: int| 0 <= i < a.len() ==> b.contains(#[trigger] a[i]),
        forall|i: int| 0 <= i < b.len() ==> a.contains(#[trigger] b[i]),
    ensures
        a == b,
{
    let fa = Seq::new(a.len(), |i: int| Block { base: a[i].lo, prefix: a[i].hi });
    let fb = Seq::new(b.len(), |i: int| Block { base: b[i].lo, prefix: b[i].hi });
    assert forall|i: int| 0 <= i < fa.len() implies fb.contains(#[trigger] fa[i]) by {
        assert(b.contains(a[i]));
        let j = choose|j: int| 0 <= j < b.len() && b[j] == a[i];
        assert(fb[j] == fa[i]);
    }
    assert forall|i: int| 0 <= i < fb.len() implies fa.contains(#[trigger] fb[i]) by {
        assert(a.contains(b[i]));
        let j = choose|j: int| 0 <= j < a.len() && a[j] == b[i];
        assert(fa[j] == fb[i]);
    }
    lemma_ascending_same_blocks(fa, fb);
    assert(a.len() == fa.len() && b.len() == fb.len());
    assert forall|i: int| 0 <= i < a.len() implies #[trigger] a[i] == b[i] by {
        assert(fa[i] == fb[i]);
    }
    assert(a =~= b);
}

/// A merged list of spans is determined by the addresses it covers.
pub proof fn law_merged_spans_are_determined(a: Seq<Span>, b: Seq<Span>)
    requires
        spans_merged(a),
        spans_merged(b),
        forall|x: int| #[trigger] spans_cover(a, x) <==> spans_cover(b, x),
    ensures
        a == b,
{
    lemma_merged_spans_subset(a, b);
    lemma_merged_spans_subset(b, a);
    lemma_ascending_same_spans(a, b);
}

proof fn lemma_merged_spans_subset(a: Seq<Span>, b: Seq<Span>)
    requires
        spans_merged(a),
        spans_merged(b),
        forall|x: int| #[trigger] spans_cover(a, x) <==> spans_cover(b, x),
    ensures
        forall|i: int| 0 <= i < a.len() ==> b.contains(#[trigger] a[i]),
{
    assert forall|i: int| 0 <= i < a.len() implies b.contains(#[trigger] a[i]) by {
        let lo = a[i].lo;
        let hi = a[i].hi;
        assert(spans_cover(a, lo));
        assert(spans_cover(b, lo));
        let j = choose|j: int| 0 <= j < b.len() && #[trigger] b[j].lo <= lo <= b[j].hi;
        lemma_merged_edges(a, i);
        lemma_merged_edges(b, j);
        if b[j].lo < lo {
            assert(spans_cover(b, lo - 1));
        }
        if b[j].hi < hi {
            assert(!spans_cover(b, b[j].hi + 1));
            assert(spans_cover(a, b[j].hi + 1));
        }
        if b[j].hi > hi {
            assert(spans_cover(b, hi + 1));
        }
        assert(b[j] == a[i]);
    }
}

/// The addresses next to a merged span are not covered.
pub proof fn lemma_merged_edges(spans: Seq<Span>, i: int)
    requires
        spans_merged(spans),
        0 <= i < spans.len(),
    ensures
        !spans_cover(spans, spans[i].lo - 1),
        !spans_cover(spans, spans[i].hi + 1),
{
    let x = spans[i].lo - 1;
    if spans_cover(spans, x) {
        let m = choose|m: int| 0 <= m < spans.len() && #[trigger] spans[m].lo <= x <= spans[m].hi;
        if m < i {
            assert(spans[m].hi + 1 < spans[i].lo);
        } else if m > i {
            assert(spans[i].hi + 1 < spans[m].lo);
        }
    }
    let y = spans[i].hi + 1;
    if spans_cover(spans, y) {
        let m = choose|m: int| 0 <= m < spans.len() && #[trigger] spans[m].lo <= y <= spans[m].hi;
        if m < i {
            assert(spans[m].hi + 1 < spans[i].lo);
        } else if m > i {
            assert(spans[i].hi + 1 < spans[m].lo);
        }
    }
}

/// State of splitting merged spans into blocks: `out` covers the first `i` spans and the part of
/// span `i` before `start`, every block sticks out of the spans if enlarged, and no block that
/// fits span `i` straddles `start`.
pub open spec fn split_state(
    w: int,
    spans: Seq<Span>,
    i: int,
    start: int,
    out: Seq<Block>,
) -> bool {
    &&& 0 <= i < spans.len()
    &&& spans[i].lo <= start <= spans[i].hi + 1
    &&& split_done(w, spans, out)
    &&& forall|a: int| #[trigger]
        blocks_cover(w, out, a) <==> (spans_cover(spans.take(i), a) || spans[i].lo <= a < start)
    &&& forall|k: int| 0 <= k < out.len() ==> block_last(w, #[trigger] out[k]) < start
    &&& forall|b: Block|
        #![trigger block_wf(w, b)]
        block_wf(w, b) && spans[i].lo <= b.base < start && block_last(w, b) <= spans[i].hi
            ==> block_last(w, b) < start
}

/// The blocks emitted so far are well formed, ascending, and stick out of the spans if enlarged.
pub open spec fn split_done(w: int, spans: Seq<Span>, out: Seq<Block>) -> bool {
    &&& blocks_wf(w, out)
    &&& blocks_ascending(w, out)
    &&& forall|k: int|
        0 <= k < out.len() && (#[trigger] out[k]).prefix > 0 ==> exists|a: int|
            #[trigger] block_has(w, block_parent(w, out[k]), a) && !spans_cover(spans, a)
}

/// Emitting the largest block that fits keeps [`split_state`].
pub proof fn lemma_split_emit(
    w: int,
    spans: Seq<Span>,
    i: int,
    start: int,
    out: Seq<Block>,
    prefix: int,
)
    requires
        spans_merged(spans),
        split_state(w, spans, i, start, out),
        0 <= start <= spans[i].hi < pow2(w as nat),
        largest_fit(w, start, spans[i].hi, prefix),
    ensures
        split_state(
            w,
            spans,
            i,
            start + block_size(w, prefix),
            out.push(Block { base: start, prefix }),
        ),
{
    let b = Block { base: start, prefix };
    let s = block_size(w, prefix);
    let next = out.push(b);
    let hi = spans[i].hi;
    let lo = spans[i].lo;
    lemma_block_size(w, prefix);
    assert(block_wf(w, b));
    assert forall|k: int| 0 <= k < next.len() implies block_wf(w, #[trigger] next[k]) by {
        if k < out.len() {
            assert(next[k] == out[k]);
        }
    }
    assert forall|k: int, m: int| 0 <= k < m < next.len() implies block_last(
        w,
        #[trigger] next[k],
    ) < (#[trigger] next[m]).base by {
        assert(next[k] == out[k]);
        if m < out.len() {
            assert(next[m] == out[m]);
        }
    }
    assert forall|k: int|
        0 <= k < next.len() && (#[trigger] next[k]).prefix > 0 implies exists|a: int|
        #[trigger] block_has(w, block_parent(w, next[k]), a) && !spans_cover(spans, a) by {
        if k < out.len() {
            assert(next[k] == out[k]);
        } else {
            let parent = block_parent(w, b);
            lemma_block_parent(w, b);
            lemma_block_size(w, prefix - 1);
            lemma_merged_edges(spans, i);
            assert(!block_fits(w, start, hi, prefix - 1));
            if parent.base == start {
                assert(start % block_size(w, prefix - 1) == 0);
                assert(block_has(w, parent, hi + 1));
            } else if parent.base < lo {
                assert(block_has(w, parent, lo - 1));
            } else {
                assert(block_wf(w, parent));
                assert(block_last(w, parent) == start + s - 1);
                assert(false);
            }
        }
    }
    assert forall|a: int| #[trigger] blocks_cover(w, next, a) <==> (spans_cover(spans.take(i), a)
        || lo <= a < start + s) by {
        if blocks_cover(w, next, a) {
            let k = choose|k: int| 0 <= k < next.len() && block_has(w, #[trigger] next[k], a);
            if k < out.len() {
                assert(block_has(w, out[k], a));
                assert(blocks_cover(w, out, a));
            }
        }
        if spans_cover(spans.take(i), a) || lo <= a < start {
            assert(blocks_cover(w, out, a));
            let k = choose|k: int| 0 <= k < out.len() && block_has(w, #[trigger] out[k], a);
            assert(block_has(w, next[k], a));
        } else if start <= a < start + s {
            assert(block_has(w, next[out.len() as int], a));
        }
    }
    assert forall|k: int| 0 <= k < next.len() implies block_last(w, #[trigger] next[k]) < start
        + s by {
        if k < out.len() {
            assert(next[k] == out[k]);
        }
    }
    assert forall|p: Block|
        #![trigger block_wf(w, p)]
        block_wf(w, p) && lo <= p.base < start + s && block_last(w, p) <= hi implies block_last(
        w,
        p,
    ) < start + s by {
        lemma_block_size(w, p.prefix);
        if p.base == start {
            assert(block_fits(w, start, hi, p.prefix));
            lemma_block_size_divides(w, prefix, p.prefix);
        } else if p.base > start {
            if p.prefix < prefix {
                lemma_blocks_nest(w, p, b, p.base);
            } else {
                lemma_blocks_nest(w, b, p, p.base);
            }
        }
    }
}

/// Moving on from a finished span to the next one keeps [`split_state`].
pub proof fn lemma_split_advance(w: int, spans: Seq<Span>, i: int, out: Seq<Block>)
    requires
        spans_merged(spans),
        split_state(w, spans, i, spans[i].hi + 1, out),
    ensures
        i + 1 < spans.len() ==> split_state(w, spans, i + 1, spans[i + 1].lo, out),
        forall|a: int| #[trigger]
            blocks_cover(w, out, a) <==> spans_cover(spans.take(i + 1), a),
{
    let t0 = spans.take(i);
    let t1 = spans.take(i + 1);
    assert forall|a: int| spans_cover(t1, a) <==> (spans_cover(t0, a) || spans[i].lo <= a
        <= spans[i].hi) by {
        if spans_cover(t1, a) {
            let k = choose|k: int| 0 <= k < t1.len() && #[trigger] t1[k].lo <= a <= t1[k].hi;
            if k < i {
                assert(t0[k].lo <= a <= t0[k].hi);
            }
        }
        if spans_cover(t0, a) {
            let k = choose|k: int| 0 <= k < t0.len() && #[trigger] t0[k].lo <= a <= t0[k].hi;
            assert(t1[k].lo <= a <= t1[k].hi);
        }
        if spans[i].lo <= a <= spans[i].hi {
            assert(t1[i].lo <= a <= t1[i].hi);
        }
    }
    assert forall|a: int| #[trigger] blocks_cover(w, out, a) <==> spans_cover(t1, a) by {}
    if i + 1 < spans.len() {
        assert(spans[i].hi + 1 < spans[i + 1].lo);
    }
}

/// Once every span is split the blocks are minimal and cover exactly the spans.
pub proof fn lemma_split_finish(w: int, spans: Seq<Span>, out: Seq<Block>)
    requires
        split_done(w, spans, out),
        forall|a: int| #[trigger] blocks_cover(w, out, a) <==> spans_cover(spans, a),
    ensures
        blocks_minimal(w, out),
{
    assert forall|i: int|
        0 <= i < out.len() && (#[trigger] out[i]).prefix > 0 implies exists|a: int|
        #[trigger] block_has(w, block_parent(w, out[i]), a) && !blocks_cover(w, out, a) by {
        let a = choose|a: int| #[trigger]
            block_has(w, block_parent(w, out[i]), a) && !spans_cover(spans, a);
        assert(block_has(w, block_parent(w, out[i]), a));
        assert(!blocks_cover(w, out, a));
    }
}

} // verus!
