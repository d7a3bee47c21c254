//! Sorted lists of distinct networks.

use crate::ordering::{
    dedup_sorted, has_tie, in_order, lemma_sorted_members, sort_stable, stably_sorted, Ranked,
};
use crate::policy::cidr_text::lemma_model_injective;
use crate::policy::lookup::{cidr_le, model_le};
use crate::policy::network_types::CanonicalCidr;
use vstd::prelude::*;

verus! {

impl Ranked for CanonicalCidr {
    open spec fn ranked_le(self, other: CanonicalCidr) -> bool {
        model_le(self@, other@)
    }

    proof fn lemma_ranked_total(a: CanonicalCidr, b: CanonicalCidr) {
    }

    proof fn lemma_ranked_transitive(a: CanonicalCidr, b: CanonicalCidr, c: CanonicalCidr) {
    }

    fn precedes(&self, other: &CanonicalCidr) -> (before: bool) {
        cidr_le(*self, *other)
    }
}

/// Networks in strictly ascending order.
pub open spec fn ascending_cidrs(cidrs: Seq<CanonicalCidr>) -> bool {
    forall|i: int, j: int|
        0 <= i < j < cidrs.len() ==> model_le((#[trigger] cidrs[i])@, (#[trigger] cidrs[j])@)
            && cidrs[i] != cidrs[j]
}

/// `unique` lists the members of `all`, each once and in ascending order.
pub open spec fn sorted_distinct(all: Seq<CanonicalCidr>, unique: Seq<CanonicalCidr>) -> bool {
    &&& ascending_cidrs(unique)
    &&& forall|c: CanonicalCidr| #[trigger] all.contains(c) <==> unique.contains(c)
}

/// Sorts networks and drops repetitions.
pub fn sort_distinct(cidrs: Vec<CanonicalCidr>) -> (unique: Vec<CanonicalCidr>)
    ensures
        sorted_distinct(cidrs@, unique@),
{
    let ghost all = cidrs@;
    let sorted: Vec<CanonicalCidr> = sort_stable(cidrs);
    proof {
        lemma_sorted_members(all, sorted@);
    }
    let ghost ordered = sorted@;
    let unique: Vec<CanonicalCidr> = dedup_sorted(sorted);
    proof {
        assert forall|c: CanonicalCidr| #[trigger] all.contains(c) <==> unique@.contains(c) by {
            if all.contains(c) {
                assert(ordered.contains(c));
                let m = choose|m: int| 0 <= m < ordered.len() && ordered[m] == c;
                assert(has_tie(unique@, ordered[m]));
                let k = choose|k: int|
                    0 <= k < unique@.len() && (#[trigger] unique@[k]).ranked_le(c) && c.ranked_le(
                        unique@[k],
                    );
                lemma_model_injective(unique@[k], c);
            }
            if unique@.contains(c) {
                let k = choose|k: int| 0 <= k < unique@.len() && unique@[k] == c;
                assert(ordered.contains(unique@[k]));
            }
        }
        assert forall|i: int, j: int| 0 <= i < j < unique@.len() implies model_le(
            (#[trigger] unique@[i])@,
            (#[trigger] unique@[j])@,
        ) && unique@[i] != unique@[j] by {
            assert(unique@[i].ranked_le(unique@[j]));
            assert(!unique@[j].ranked_le(unique@[i]));
        }
    }
    unique
}

/// Whether an ascending list holds a network.
pub(crate) fn ascending_holds(cidrs: &Vec<CanonicalCidr>, cidr: CanonicalCidr) -> (found: bool)
    requires
        ascending_cidrs(cidrs@),
    ensures
        found == cidrs@.contains(cidr),
{
    let mut low: usize = 0;
    let mut high: usize = cidrs.len();
    while low < high
        invariant
            low <= high <= cidrs@.len(),
            ascending_cidrs(cidrs@),
            forall|k: int| 0 <= k < low ==> !model_le(cidr@, (#[trigger] cidrs@[k])@),
            forall|k: int| high <= k < cidrs@.len() ==> model_le(cidr@, (#[trigger] cidrs@[k])@),
        decreases high - low,
    {
        let mid: usize = low + (high - low) / 2;
        let ghost pivot = cidrs@[mid as int];
        if cidr_le(cidr, cidrs[mid]) {
            assert forall|k: int| mid <= k < cidrs@.len() implies model_le(
                cidr@,
                (#[trigger] cidrs@[k])@,
            ) by {
                assert(k == mid || model_le(pivot@, cidrs@[k]@));
            }
            high = mid;
        } else {
            assert forall|k: int| 0 <= k < mid + 1 implies !model_le(
                cidr@,
                (#[trigger] cidrs@[k])@,
            ) by {
                assert(k == mid || model_le(cidrs@[k]@, pivot@));
            }
            low = mid + 1;
        }
    }
    let found: bool = low < cidrs.len() && cidrs[low] == cidr;
    proof {
        if found {
            assert(cidrs@[low as int] == cidr);
        }
        if cidrs@.contains(cidr) {
            let m = choose|m: int| 0 <= m < cidrs@.len() && cidrs@[m] == cidr;
            assert(low <= m);
            if low < m {
                assert(model_le(cidrs@[low as int]@, cidrs@[m]@));
                lemma_model_injective(cidrs@[low as int], cidr);
            }
        }
    }
    found
}

/// A network and its position in a list.
struct Occurrence {
    cidr: CanonicalCidr,
    position: usize,
}

impl Ranked for Occurrence {
    closed spec fn ranked_le(self, other: Occurrence) -> bool {
        &&& model_le(self.cidr@, other.cidr@)
        &&& model_le(other.cidr@, self.cidr@) ==> self.position <= other.position
    }

    proof fn lemma_ranked_total(a: Occurrence, b: Occurrence) {
    }

    proof fn lemma_ranked_transitive(a: Occurrence, b: Occurrence, c: Occurrence) {
    }

    fn precedes(&self, other: &Occurrence) -> (before: bool) {
        cidr_le(self.cidr, other.cidr) && (!cidr_le(other.cidr, self.cidr) || self.position
            <= other.position)
    }
}

/// The occurrences of the networks of a list.
spec fn occurrences(cidrs: Seq<CanonicalCidr>) -> Seq<Occurrence>
    recommends
        cidrs.len() <= usize::MAX,
{
    Seq::new(cidrs.len(), |i: int| Occurrence { cidr: cidrs[i], position: i as usize })
}

/// A sorted occurrence repeats the network before it.
spec fn repeats(sorted: Seq<Occurrence>, k: int) -> bool {
    k > 0 && sorted[k - 1].cidr == sorted[k].cidr
}

/// `sorted` holds one occurrence for each position of the list.
spec fn covers(cidrs: Seq<CanonicalCidr>, sorted: Seq<Occurrence>) -> bool {
    &&& sorted.len() == cidrs.len()
    &&& forall|k: int|
        0 <= k < sorted.len() ==> (#[trigger] sorted[k]).position < cidrs.len() && sorted[k].cidr
            == cidrs[sorted[k].position as int]
    &&& forall|k: int, m: int|
        0 <= k < m < sorted.len() ==> (#[trigger] sorted[k]).position != (
        #[trigger] sorted[m]).position
    &&& forall|p: int| 0 <= p < cidrs.len() ==> #[trigger] stands(sorted, p)
}

/// `sorted` holds the occurrence at a position.
spec fn stands(sorted: Seq<Occurrence>, p: int) -> bool {
    exists|k: int| 0 <= k < sorted.len() && (#[trigger] sorted[k]).position == p
}

proof fn lemma_covers(cidrs: Seq<CanonicalCidr>, sorted: Seq<Occurrence>)
    requires
        cidrs.len() <= usize::MAX,
        stably_sorted(occurrences(cidrs), sorted),
    ensures
        covers(cidrs, sorted),
{
    let all = occurrences(cidrs);
    lemma_sorted_members(all, sorted);
    assert(all.no_duplicates());
    all.lemma_multiset_has_no_duplicates();
    sorted.lemma_multiset_has_no_duplicates_conv();
    assert forall|k: int| 0 <= k < sorted.len() implies (#[trigger] sorted[k]).position
        < cidrs.len() && sorted[k].cidr == cidrs[sorted[k].position as int] by {
        assert(all.contains(sorted[k]));
        let i = choose|i: int| 0 <= i < all.len() && all[i] == sorted[k];
        assert(all[i].position == i);
    }
    assert forall|p: int| 0 <= p < cidrs.len() implies #[trigger] stands(sorted, p) by {
        assert(sorted.contains(all[p]));
        let k = choose|k: int| 0 <= k < sorted.len() && sorted[k] == all[p];
        assert(sorted[k].position == p);
    }
    assert forall|k: int, m: int| 0 <= k < m < sorted.len() implies (
    #[trigger] sorted[k]).position != (#[trigger] sorted[m]).position by {
        assert(sorted[k] != sorted[m]);
    }
}

/// A sorted occurrence repeats the one before it exactly when its network occurs earlier in the
/// list.
proof fn lemma_repeats(cidrs: Seq<CanonicalCidr>, sorted: Seq<Occurrence>, k: int)
    requires
        covers(cidrs, sorted),
        in_order(sorted),
        0 <= k < sorted.len(),
    ensures
        repeats(sorted, k) <==> cidrs.take(sorted[k].position as int).contains(sorted[k].cidr),
{
    let earlier = cidrs.take(sorted[k].position as int);
    if repeats(sorted, k) {
        assert(sorted[k - 1].ranked_le(sorted[k]));
        assert(earlier[sorted[k - 1].position as int] == sorted[k].cidr);
    }
    if earlier.contains(sorted[k].cidr) {
        let q = choose|q: int| 0 <= q < earlier.len() && earlier[q] == sorted[k].cidr;
        assert(stands(sorted, q));
        let m = choose|m: int| 0 <= m < sorted.len() && (#[trigger] sorted[m]).position == q;
        assert(sorted[m].cidr == sorted[k].cidr);
        if k < m {
            assert(sorted[k].ranked_le(sorted[m]));
        }
        assert(m < k);
        if m < k - 1 {
            assert(sorted[m].ranked_le(sorted[k - 1]));
        }
        assert(sorted[k - 1].ranked_le(sorted[k]));
        lemma_model_injective(sorted[k - 1].cidr, sorted[k].cidr);
    }
}

/// Tells for each network of a list whether it occurs there for the first time.
pub(crate) fn first_occurrences(cidrs: &[CanonicalCidr]) -> (first: Vec<bool>)
    ensures
        first@ == Seq::new(cidrs@.len(), |i: int| !cidrs@.take(i).contains(cidrs@[i])),
{
    let mut listed: Vec<Occurrence> = Vec::with_capacity(cidrs.len());
    let mut first: Vec<bool> = Vec::with_capacity(cidrs.len());
    let mut i: usize = 0;
    while i < cidrs.len()
        invariant
            i <= cidrs@.len(),
            listed@ == occurrences(cidrs@).take(i as int),
            first@ == Seq::new(i as nat, |k: int| true),
        decreases cidrs@.len() - i,
    {
        listed.push(Occurrence { cidr: cidrs[i], position: i });
        first.push(true);
        i += 1;
        assert(listed@ =~= occurrences(cidrs@).take(i as int));
        assert(first@ =~= Seq::new(i as nat, |k: int| true));
    }
    assert(listed@ =~= occurrences(cidrs@));
    let sorted: Vec<Occurrence> = sort_stable(listed);
    proof {
        lemma_covers(cidrs@, sorted@);
    }
    let mut k: usize = 1;
    while k < sorted.len()
        invariant
            1 <= k,
            covers(cidrs@, sorted@),
            first@.len() == cidrs@.len(),
            forall|m: int|
                0 <= m < sorted@.len() ==> first@[(#[trigger] sorted@[m]).position as int] == (m
                    >= k || !repeats(sorted@, m)),
        decreases sorted@.len() - k,
    {
        if sorted[k - 1].cidr == sorted[k].cidr {
            first.set(sorted[k].position, false);
        }
        k += 1;
    }
    assert forall|i: int| 0 <= i < cidrs@.len() implies #[trigger] first@[i] == !cidrs@.take(
        i,
    ).contains(cidrs@[i]) by {
        assert(stands(sorted@, i));
        let m = choose|m: int| 0 <= m < sorted@.len() && (#[trigger] sorted@[m]).position == i;
        lemma_repeats(cidrs@, sorted@, m);
    }
    assert(first@ =~= Seq::new(cidrs@.len(), |i: int| !cidrs@.take(i).contains(cidrs@[i])));
    first
}

/// Two ascending lists with the same members are equal.
pub proof fn lemma_sorted_distinct_unique(
    all: Seq<CanonicalCidr>,
    a: Seq<CanonicalCidr>,
    b: Seq<CanonicalCidr>,
)
    requires
        sorted_distinct(all, a),
        sorted_distinct(all, b),
    ensures
        a == b,
    decreases a.len(),
{
    if a.len() == 0 {
        if b.len() > 0 {
            assert(b.contains(b[0]));
            assert(all.contains(b[0]));
            assert(a.contains(b[0]));
        }
        assert(a =~= b);
    } else {
        assert(a.contains(a.last()));
        assert(all.contains(a.last()));
        assert(b.contains(a.last()));
        let j = choose|j: int| 0 <= j < b.len() && b[j] == a.last();
        assert(b.contains(b.last()));
        assert(all.contains(b.last()));
        assert(a.contains(b.last()));
        let i = choose|i: int| 0 <= i < a.len() && a[i] == b.last();
        if i < a.len() - 1 && j < b.len() - 1 {
            assert(model_le(a[i]@, a.last()@));
            assert(model_le(b[j]@, b.last()@));
            lemma_model_injective(a.last(), b.last());
        }
        assert(a.last() == b.last());
        let last = a.last();
        let fa = a.drop_last();
        let fb = b.drop_last();
        assert forall|c: CanonicalCidr| #[trigger] fa.contains(c) <==> fb.contains(c) by {
            if fa.contains(c) {
                let k = choose|k: int| 0 <= k < fa.len() && fa[k] == c;
                assert(a[k] == c);
                assert(a.contains(c));
                assert(c != last);
                assert(all.contains(c));
                assert(b.contains(c));
                let m = choose|m: int| 0 <= m < b.len() && b[m] == c;
                assert(fb[m] == c);
            }
            if fb.contains(c) {
                let k = choose|k: int| 0 <= k < fb.len() && fb[k] == c;
                assert(b[k] == c);
                assert(b.contains(c));
                assert(c != last);
                assert(all.contains(c));
                assert(a.contains(c));
                let m = choose|m: int| 0 <= m < a.len() && a[m] == c;
                assert(fa[m] == c);
            }
        }
        assert(sorted_distinct(fa, fa));
        assert(sorted_distinct(fa, fb));
        lemma_sorted_distinct_unique(fa, fa, fb);
        assert(a =~= fa.push(last));
        assert(b =~= fb.push(last));
    }
}

} // verus!
