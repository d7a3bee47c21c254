//! Step lemmas of the merge and subtraction algorithms, stated once for both address families.

use crate::policy::span_math::{spans_cover, spans_merged, spans_sorted, spans_valid, Span};
use vstd::prelude::*;

verus! {

/// Coverage of a sequence that grew by one span.
pub proof fn lemma_cover_push(spans: Seq<Span>, s: Span, a: int)
    ensures
        spans_cover(spans.push(s), a) <==> (spans_cover(spans, a) || s.lo <= a <= s.hi),
{
    let next = spans.push(s);
    if spans_cover(next, a) {
        let k = choose|k: int| 0 <= k < next.len() && #[trigger] next[k].lo <= a <= next[k].hi;
        if k < spans.len() {
            assert(spans[k].lo <= a <= spans[k].hi);
        }
    }
    if spans_cover(spans, a) {
        let k = choose|k: int| 0 <= k < spans.len() && #[trigger] spans[k].lo <= a <= spans[k].hi;
        assert(next[k].lo <= a <= next[k].hi);
    }
    if s.lo <= a <= s.hi {
        assert(next[spans.len() as int].lo <= a <= next[spans.len() as int].hi);
    }
}

/// Coverage of a prefix that grew by one span.
pub proof fn lemma_cover_take(spans: Seq<Span>, i: int, a: int)
    requires
        0 <= i < spans.len(),
    ensures
        spans_cover(spans.take(i + 1), a) <==> (spans_cover(spans.take(i), a) || spans[i].lo <= a
            <= spans[i].hi),
{
    assert(spans.take(i + 1) =~= spans.take(i).push(spans[i]));
    lemma_cover_push(spans.take(i), spans[i], a);
}

/// State of a merge: `done` followed by `current` is merged and covers the first `i` spans.
pub open spec fn merge_state(all: Seq<Span>, i: int, done: Seq<Span>, current: Span) -> bool {
    &&& 0 < i <= all.len()
    &&& spans_merged(done.push(current))
    &&& forall|a: int| #[trigger]
        spans_cover(done.push(current), a) <==> spans_cover(all.take(i), a)
    &&& forall|k: int| i <= k < all.len() ==> current.lo <= (#[trigger] all[k]).lo
}

/// The first span starts a merge.
pub proof fn lemma_merge_start(all: Seq<Span>)
    requires
        all.len() > 0,
        spans_sorted(all),
        spans_valid(all),
    ensures
        merge_state(all, 1, Seq::empty(), all[0]),
{
    let one = Seq::<Span>::empty().push(all[0]);
    assert(all.take(1) =~= one);
    assert forall|k: int| 1 <= k < all.len() implies all[0].lo <= (#[trigger] all[k]).lo by {
        assert(all[0].lo <= all[k].lo);
    }
}

/// A span that touches the current one extends it.
pub proof fn lemma_merge_absorb(all: Seq<Span>, i: int, done: Seq<Span>, current: Span)
    requires
        merge_state(all, i, done, current),
        i < all.len(),
        spans_valid(all),
        all[i].lo <= current.hi + 1,
    ensures
        merge_state(
            all,
            i + 1,
            done,
            Span {
                lo: current.lo,
                hi: if current.hi >= all[i].hi {
                    current.hi
                } else {
                    all[i].hi
                },
            },
        ),
{
    let next = Span {
        lo: current.lo,
        hi: if current.hi >= all[i].hi {
            current.hi
        } else {
            all[i].hi
        },
    };
    let n = done.len() as int;
    let before = done.push(current);
    let after = done.push(next);
    assert(current.lo <= all[i].lo);
    assert(before[n].lo <= before[n].hi);
    assert forall|k: int| 0 <= k < after.len() implies (#[trigger] after[k]).lo <= after[k].hi by {
        if k < n {
            assert(before[k].lo <= before[k].hi);
        }
    }
    assert forall|k: int, j: int| 0 <= k < j < after.len() implies (#[trigger] after[k]).hi + 1 < (
    #[trigger] after[j]).lo by {
        assert(before[k].hi + 1 < before[j].lo);
    }
    assert forall|a: int| #[trigger] spans_cover(after, a) <==> spans_cover(all.take(i + 1), a) by {
        lemma_cover_take(all, i, a);
        lemma_cover_push(done, current, a);
        lemma_cover_push(done, next, a);
        assert(spans_cover(before, a) <==> spans_cover(all.take(i), a));
    }
}

/// A span beyond a gap becomes the current one.
pub proof fn lemma_merge_next(all: Seq<Span>, i: int, done: Seq<Span>, current: Span)
    requires
        merge_state(all, i, done, current),
        i < all.len(),
        spans_valid(all),
        spans_sorted(all),
        all[i].lo > current.hi + 1,
    ensures
        merge_state(all, i + 1, done.push(current), all[i]),
{
    let n = done.len() as int;
    let before = done.push(current);
    let after = before.push(all[i]);
    assert forall|k: int| 0 <= k < after.len() implies (#[trigger] after[k]).lo <= after[k].hi by {
        if k <= n {
            assert(before[k].lo <= before[k].hi);
        }
    }
    assert forall|k: int, j: int| 0 <= k < j < after.len() implies (#[trigger] after[k]).hi + 1 < (
    #[trigger] after[j]).lo by {
        if j <= n {
            assert(before[k].hi + 1 < before[j].lo);
        } else if k < n {
            assert(before[k].hi + 1 < before[n].lo);
            assert(before[n].lo <= before[n].hi);
        }
    }
    assert forall|a: int| #[trigger] spans_cover(after, a) <==> spans_cover(all.take(i + 1), a) by {
        lemma_cover_take(all, i, a);
        lemma_cover_push(before, all[i], a);
        assert(spans_cover(before, a) <==> spans_cover(all.take(i), a));
    }
    assert forall|k: int| i + 1 <= k < all.len() implies all[i].lo <= (#[trigger] all[k]).lo by {
        assert(all[i].lo <= all[k].lo);
    }
}

/// State of a subtraction inside span `i` of `base`: `out` holds what is left of the spans before
/// it and of its part before `next`; the first `idx` spans of `carve` end before `next`.
pub open spec fn carve_state(
    base: Seq<Span>,
    carve: Seq<Span>,
    i: int,
    next: int,
    idx: int,
    out: Seq<Span>,
) -> bool {
    &&& 0 <= i < base.len()
    &&& 0 <= idx <= carve.len()
    &&& base[i].lo <= next <= base[i].hi
    &&& spans_merged(out)
    &&& forall|k: int| 0 <= k < out.len() ==> (#[trigger] out[k]).hi + 1 < next
    &&& forall|k: int| 0 <= k < idx ==> (#[trigger] carve[k]).hi < next
    &&& forall|a: int| #[trigger]
        spans_cover(out, a) <==> ((spans_cover(base.take(i), a) || base[i].lo <= a < next)
            && !spans_cover(carve, a))
}

/// State of a subtraction after the first `i` spans of `base`.
pub open spec fn carved_prefix(
    base: Seq<Span>,
    carve: Seq<Span>,
    i: int,
    idx: int,
    out: Seq<Span>,
) -> bool {
    &&& 0 <= i <= base.len()
    &&& 0 <= idx <= carve.len()
    &&& spans_merged(out)
    &&& forall|k: int|
        0 <= k < out.len() ==> i > 0 && (#[trigger] out[k]).hi <= base[i - 1].hi
    &&& forall|k: int| 0 <= k < idx && i < base.len() ==> (#[trigger] carve[k]).hi < base[i].lo
    &&& forall|a: int| #[trigger]
        spans_cover(out, a) <==> (spans_cover(base.take(i), a) && !spans_cover(carve, a))
}

/// Opening the next base span.
pub proof fn lemma_carve_open(
    base: Seq<Span>,
    carve: Seq<Span>,
    i: int,
    idx: int,
    out: Seq<Span>,
)
    requires
        spans_merged(base),
        i < base.len(),
        carved_prefix(base, carve, i, idx, out),
    ensures
        carve_state(base, carve, i, base[i].lo, idx, out),
{
    assert forall|k: int| 0 <= k < out.len() implies (#[trigger] out[k]).hi + 1 < base[i].lo by {
        assert(0 <= k < out.len());
        assert(out[k].hi <= base[i - 1].hi);
        assert(i > 0);
        assert(base[i - 1].hi + 1 < base[i].lo);
    }
}

/// A carve span that lies behind the cut is passed over.
pub proof fn lemma_carve_skip(
    base: Seq<Span>,
    carve: Seq<Span>,
    i: int,
    next: int,
    idx: int,
    out: Seq<Span>,
)
    requires
        carve_state(base, carve, i, next, idx, out),
        idx < carve.len(),
        carve[idx].hi < next,
    ensures
        carve_state(base, carve, i, next, idx + 1, out),
{
}

/// What lies between the cut and the next carve span.
pub open spec fn keep_before(out: Seq<Span>, next: int, carve_lo: int) -> Seq<Span> {
    if carve_lo > next {
        out.push(Span { lo: next, hi: carve_lo - 1 })
    } else {
        out
    }
}

proof fn lemma_keep_before(
    base: Seq<Span>,
    carve: Seq<Span>,
    i: int,
    next: int,
    idx: int,
    out: Seq<Span>,
)
    requires
        spans_merged(base),
        spans_merged(carve),
        carve_state(base, carve, i, next, idx, out),
        idx < carve.len(),
        carve[idx].lo <= base[i].hi,
        carve[idx].hi >= next,
    ensures
        ({
            let kept = keep_before(out, next, carve[idx].lo);
            &&& spans_merged(kept)
            &&& forall|k: int| #![trigger kept[k]]
                0 <= k < kept.len() ==> kept[k].hi < carve[idx].hi && kept[k].hi <= base[i].hi && kept[k].hi + 1
                    <= (if carve[idx].lo > next { carve[idx].lo } else { next })
            &&& forall|a: int| #[trigger]
                spans_cover(kept, a) <==> ((spans_cover(base.take(i), a) || base[i].lo <= a
                    <= carve[idx].hi && a <= base[i].hi) && !spans_cover(carve, a))
        }),
{
    let c = carve[idx];
    let kept = keep_before(out, next, c.lo);
    let piece = Span { lo: next, hi: c.lo - 1 };
    assert(c.lo <= c.hi);
    assert forall|k: int| 0 <= k < kept.len() implies (#[trigger] kept[k]).lo <= kept[k].hi by {
        if k < out.len() {
            assert(kept[k] == out[k]);
        }
    }
    assert forall|k: int, j: int| 0 <= k < j < kept.len() implies (#[trigger] kept[k]).hi + 1 < (
    #[trigger] kept[j]).lo by {
        assert(kept[k] == out[k]);
        if j < out.len() {
            assert(kept[j] == out[j]);
        }
    }
    assert forall|k: int| 0 <= k < kept.len() implies kept[k].hi < c.hi && kept[k].hi
        <= base[i].hi && (#[trigger] kept[k]).hi + 1 <= (if c.lo > next {
        c.lo
    } else {
        next
    }) by {
        if k < out.len() {
            assert(kept[k] == out[k]);
        }
    }
    assert forall|a: int| #[trigger] spans_cover(kept, a) <==> ((spans_cover(base.take(i), a)
        || base[i].lo <= a <= c.hi && a <= base[i].hi) && !spans_cover(carve, a)) by {
        lemma_cover_push(out, piece, a);
        assert(spans_cover(out, a) <==> ((spans_cover(base.take(i), a) || base[i].lo <= a < next)
            && !spans_cover(carve, a)));
        if next <= a <= c.hi {
            // only the span at `idx` can cover addresses from the cut to its end
            if spans_cover(carve, a) {
                let k = choose|k: int|
                    0 <= k < carve.len() && #[trigger] carve[k].lo <= a <= carve[k].hi;
                if k < idx {
                    assert(carve[k].hi < next);
                } else if k > idx {
                    assert(carve[idx].hi + 1 < carve[k].lo);
                }
                assert(k == idx);
            }
            if c.lo <= a {
                assert(spans_cover(carve, a));
            }
        }
        if spans_cover(base.take(i), a) {
            let t = base.take(i);
            let k = choose|k: int| 0 <= k < t.len() && #[trigger] t[k].lo <= a <= t[k].hi;
            assert(base[k].hi + 1 < base[i].lo);
        }
    }
}

/// A carve span that ends inside the base span moves the cut behind it.
pub proof fn lemma_carve_cut(
    base: Seq<Span>,
    carve: Seq<Span>,
    i: int,
    next: int,
    idx: int,
    out: Seq<Span>,
)
    requires
        spans_merged(base),
        spans_merged(carve),
        carve_state(base, carve, i, next, idx, out),
        idx < carve.len(),
        next <= carve[idx].hi < base[i].hi,
    ensures
        carve_state(
            base,
            carve,
            i,
            carve[idx].hi + 1,
            idx + 1,
            keep_before(out, next, carve[idx].lo),
        ),
{
    assert(carve[idx].lo <= carve[idx].hi);
    lemma_keep_before(base, carve, i, next, idx, out);
    let kept = keep_before(out, next, carve[idx].lo);
    let c = carve[idx];
    assert forall|k: int| 0 <= k < kept.len() implies (#[trigger] kept[k]).hi + 1 < c.hi + 1 by {}
    assert forall|k: int| 0 <= k < idx + 1 implies (#[trigger] carve[k]).hi < c.hi + 1 by {
        if k < idx {
            assert(carve[k].hi < next);
        }
    }
    assert forall|a: int| #[trigger] spans_cover(kept, a) <==> ((spans_cover(base.take(i), a)
        || base[i].lo <= a < c.hi + 1) && !spans_cover(carve, a)) by {}
}

/// A carve span that reaches the end of the base span finishes it.
pub proof fn lemma_carve_close_full(
    base: Seq<Span>,
    carve: Seq<Span>,
    i: int,
    next: int,
    idx: int,
    out: Seq<Span>,
)
    requires
        spans_merged(base),
        spans_merged(carve),
        carve_state(base, carve, i, next, idx, out),
        idx < carve.len(),
        carve[idx].lo <= base[i].hi,
        carve[idx].hi >= base[i].hi,
    ensures
        carved_prefix(base, carve, i + 1, idx, keep_before(out, next, carve[idx].lo)),
{
    lemma_keep_before(base, carve, i, next, idx, out);
    let kept = keep_before(out, next, carve[idx].lo);
    assert forall|k: int| 0 <= k < kept.len() implies i + 1 > 0 && (#[trigger] kept[k]).hi
        <= base[i].hi by {}
    assert forall|k: int| 0 <= k < idx && i + 1 < base.len() implies (#[trigger] carve[k]).hi
        < base[i + 1].lo by {
        assert(carve[k].hi < next);
        assert(base[i].hi + 1 < base[i + 1].lo);
    }
    assert forall|a: int| #[trigger] spans_cover(kept, a) <==> (spans_cover(base.take(i + 1), a)
        && !spans_cover(carve, a)) by {
        lemma_cover_take(base, i, a);
    }
}

/// With no carve span left before its end, the rest of the base span is kept.
pub proof fn lemma_carve_close_rest(
    base: Seq<Span>,
    carve: Seq<Span>,
    i: int,
    next: int,
    idx: int,
    out: Seq<Span>,
)
    requires
        spans_merged(base),
        spans_merged(carve),
        carve_state(base, carve, i, next, idx, out),
        idx < carve.len() ==> carve[idx].lo > base[i].hi,
    ensures
        carved_prefix(
            base,
            carve,
            i + 1,
            idx,
            out.push(Span { lo: next, hi: base[i].hi }),
        ),
{
    let piece = Span { lo: next, hi: base[i].hi };
    let kept = out.push(piece);
    assert forall|k: int| 0 <= k < kept.len() implies (#[trigger] kept[k]).lo <= kept[k].hi by {
        if k < out.len() {
            assert(kept[k] == out[k]);
        }
    }
    assert forall|k: int, j: int| 0 <= k < j < kept.len() implies (#[trigger] kept[k]).hi + 1 < (
    #[trigger] kept[j]).lo by {
        assert(kept[k] == out[k]);
        if j < out.len() {
            assert(kept[j] == out[j]);
        }
    }
    assert forall|k: int| 0 <= k < kept.len() implies i + 1 > 0 && (#[trigger] kept[k]).hi
        <= base[i].hi by {
        if k < out.len() {
            assert(kept[k] == out[k]);
        }
    }
    assert forall|k: int| 0 <= k < idx && i + 1 < base.len() implies (#[trigger] carve[k]).hi
        < base[i + 1].lo by {
        assert(carve[k].hi < next);
        assert(base[i].hi + 1 < base[i + 1].lo);
    }
    assert forall|a: int| #[trigger] spans_cover(kept, a) <==> (spans_cover(base.take(i + 1), a)
        && !spans_cover(carve, a)) by {
        lemma_cover_push(out, piece, a);
        lemma_cover_take(base, i, a);
        assert(spans_cover(out, a) <==> ((spans_cover(base.take(i), a) || base[i].lo <= a < next)
            && !spans_cover(carve, a)));
        if next <= a <= base[i].hi && spans_cover(carve, a) {
            let k = choose|k: int|
                0 <= k < carve.len() && #[trigger] carve[k].lo <= a <= carve[k].hi;
            if k < idx {
                assert(carve[k].hi < next);
            } else if k > idx {
                assert(carve[idx].hi + 1 < carve[k].lo);
                assert(carve[idx].lo <= carve[idx].hi);
            }
        }
    }
}

} // verus!
