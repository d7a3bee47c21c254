//! Effective blocklists: candidate networks without the safelisted addresses.

use crate::policy::intervals::{blocks_v4, blocks_v6};
use crate::policy::network::{
    ipv4_members, ipv6_members, split_by_family, subtract_safelist_ipv4, subtract_safelist_ipv6,
    subtracted_v4, subtracted_v6,
};
use crate::policy::network_types::{AddressFamily, CanonicalCidr, FamilyCidrs, Ipv4Cidr, Ipv6Cidr};
use crate::policy::span_math::{block_has, blocks_cover, lemma_block_size};
use vstd::prelude::*;

verus! {

/// Effective networks of each family.
#[derive(Debug, Clone, PartialEq, Eq)]
pub struct EffectiveBlocklists {
    /// Minimal IPv4 networks to enforce.
    pub ipv4: Vec<Ipv4Cidr>,
    /// Minimal IPv6 networks to enforce; none where IPv6 is disabled.
    pub ipv6: Vec<Ipv6Cidr>,
}

/// One of the networks holds address `a` of the family.
pub open spec fn listed(cidrs: Seq<CanonicalCidr>, family: AddressFamily, a: int) -> bool {
    exists|i: int| 0 <= i < cidrs.len() && (#[trigger] cidrs[i]).has(family, a)
}

/// The address is a candidate and not safelisted.
pub open spec fn enforced(
    candidates: Seq<CanonicalCidr>,
    safelist: Seq<CanonicalCidr>,
    family: AddressFamily,
    a: int,
) -> bool {
    listed(candidates, family, a) && !listed(safelist, family, a)
}

/// Some address of the family is enforced.
pub open spec fn any_enforced(
    candidates: Seq<CanonicalCidr>,
    safelist: Seq<CanonicalCidr>,
    family: AddressFamily,
) -> bool {
    exists|a: int| #[trigger] enforced(candidates, safelist, family, a)
}

/// The lists cover exactly the enforced addresses, with the fewest networks.
pub open spec fn effective_for(
    candidates: Seq<CanonicalCidr>,
    safelist: Seq<CanonicalCidr>,
    enable_ipv6: bool,
    effective: EffectiveBlocklists,
) -> bool {
    &&& subtracted_v4(ipv4_members(candidates), ipv4_members(safelist), effective.ipv4@)
    &&& if enable_ipv6 {
        subtracted_v6(ipv6_members(candidates), ipv6_members(safelist), effective.ipv6@)
    } else {
        effective.ipv6@.len() == 0
    }
}

/// The IPv4 members of a list hold its IPv4 addresses.
pub proof fn lemma_ipv4_members_cover(cidrs: Seq<CanonicalCidr>, a: int)
    ensures
        blocks_cover(32, blocks_v4(ipv4_members(cidrs)), a) <==> listed(
            cidrs,
            AddressFamily::Ipv4,
            a,
        ),
    decreases cidrs.len(),
{
    let blocks = blocks_v4(ipv4_members(cidrs));
    if cidrs.len() > 0 {
        let front = cidrs.drop_last();
        let before = blocks_v4(ipv4_members(front));
        lemma_ipv4_members_cover(front, a);
        if blocks_cover(32, blocks, a) {
            let k = choose|k: int| 0 <= k < blocks.len() && block_has(32, #[trigger] blocks[k], a);
            if k < before.len() {
                assert(before[k] == blocks[k]);
                assert(blocks_cover(32, before, a));
                let i = choose|i: int|
                    0 <= i < front.len() && (#[trigger] front[i]).has(AddressFamily::Ipv4, a);
                assert(cidrs[i].has(AddressFamily::Ipv4, a));
            } else {
                assert(cidrs[cidrs.len() - 1].has(AddressFamily::Ipv4, a));
            }
        }
        if listed(cidrs, AddressFamily::Ipv4, a) {
            let i = choose|i: int|
                0 <= i < cidrs.len() && (#[trigger] cidrs[i]).has(AddressFamily::Ipv4, a);
            if i < front.len() {
                assert(front[i].has(AddressFamily::Ipv4, a));
                let k = choose|k: int|
                    0 <= k < before.len() && block_has(32, #[trigger] before[k], a);
                assert(blocks[k] == before[k]);
            } else {
                assert(block_has(32, blocks[before.len() as int], a));
            }
        }
    }
}

/// The IPv6 members of a list hold its IPv6 addresses.
pub proof fn lemma_ipv6_members_cover(cidrs: Seq<CanonicalCidr>, a: int)
    ensures
        blocks_cover(128, blocks_v6(ipv6_members(cidrs)), a) <==> listed(
            cidrs,
            AddressFamily::Ipv6,
            a,
        ),
    decreases cidrs.len(),
{
    let blocks = blocks_v6(ipv6_members(cidrs));
    if cidrs.len() > 0 {
        let front = cidrs.drop_last();
        let before = blocks_v6(ipv6_members(front));
        lemma_ipv6_members_cover(front, a);
        if blocks_cover(128, blocks, a) {
            let k = choose|k: int| 0 <= k < blocks.len() && block_has(128, #[trigger] blocks[k], a);
            if k < before.len() {
                assert(before[k] == blocks[k]);
                assert(blocks_cover(128, before, a));
                let i = choose|i: int|
                    0 <= i < front.len() && (#[trigger] front[i]).has(AddressFamily::Ipv6, a);
                assert(cidrs[i].has(AddressFamily::Ipv6, a));
            } else {
                assert(cidrs[cidrs.len() - 1].has(AddressFamily::Ipv6, a));
            }
        }
        if listed(cidrs, AddressFamily::Ipv6, a) {
            let i = choose|i: int|
                0 <= i < cidrs.len() && (#[trigger] cidrs[i]).has(AddressFamily::Ipv6, a);
            if i < front.len() {
                assert(front[i].has(AddressFamily::Ipv6, a));
                let k = choose|k: int|
                    0 <= k < before.len() && block_has(128, #[trigger] before[k], a);
                assert(blocks[k] == before[k]);
            } else {
                assert(block_has(128, blocks[before.len() as int], a));
            }
        }
    }
}

/// Removes the safelisted addresses from the candidates of each enabled family.
pub fn compute_effective_blocklists(
    candidates: &[CanonicalCidr],
    safelist: &[CanonicalCidr],
    enable_ipv6: bool,
) -> (effective: EffectiveBlocklists)
    ensures
        effective_for(candidates@, safelist@, enable_ipv6, effective),
{
    let candidate: FamilyCidrs = split_by_family(candidates);
    let safe: FamilyCidrs = split_by_family(safelist);
    let ipv4: Vec<Ipv4Cidr> = subtract_safelist_ipv4(
        candidate.ipv4.as_slice(),
        safe.ipv4.as_slice(),
    );
    let ipv6: Vec<Ipv6Cidr> = if enable_ipv6 {
        subtract_safelist_ipv6(candidate.ipv6.as_slice(), safe.ipv6.as_slice())
    } else {
        Vec::new()
    };
    EffectiveBlocklists { ipv4, ipv6 }
}

/// The effective lists hold exactly the enforced addresses: every candidate address that is not
/// safelisted, and no safelisted one.
pub proof fn law_effective_is_candidates_without_safelist(
    candidates: Seq<CanonicalCidr>,
    safelist: Seq<CanonicalCidr>,
    enable_ipv6: bool,
    effective: EffectiveBlocklists,
)
    requires
        effective_for(candidates, safelist, enable_ipv6, effective),
    ensures
        forall|a: int| #[trigger]
            blocks_cover(32, blocks_v4(effective.ipv4@), a) <==> enforced(
                candidates,
                safelist,
                AddressFamily::Ipv4,
                a,
            ),
        enable_ipv6 ==> forall|a: int| #[trigger]
            blocks_cover(128, blocks_v6(effective.ipv6@), a) <==> enforced(
                candidates,
                safelist,
                AddressFamily::Ipv6,
                a,
            ),
        !enable_ipv6 ==> effective.ipv6@.len() == 0,
{
    assert forall|a: int| #[trigger]
        blocks_cover(32, blocks_v4(effective.ipv4@), a) <==> enforced(
            candidates,
            safelist,
            AddressFamily::Ipv4,
            a,
        ) by {
        lemma_ipv4_members_cover(candidates, a);
        lemma_ipv4_members_cover(safelist, a);
    }
    if enable_ipv6 {
        assert forall|a: int| #[trigger]
            blocks_cover(128, blocks_v6(effective.ipv6@), a) <==> enforced(
                candidates,
                safelist,
                AddressFamily::Ipv6,
                a,
            ) by {
            lemma_ipv6_members_cover(candidates, a);
            lemma_ipv6_members_cover(safelist, a);
        }
    }
}

/// An effective list is empty exactly when no address of the family is enforced.
pub proof fn lemma_effective_emptiness(
    candidates: Seq<CanonicalCidr>,
    safelist: Seq<CanonicalCidr>,
    enable_ipv6: bool,
    effective: EffectiveBlocklists,
)
    requires
        effective_for(candidates, safelist, enable_ipv6, effective),
    ensures
        effective.ipv4@.len() > 0 <==> any_enforced(candidates, safelist, AddressFamily::Ipv4),
        enable_ipv6 ==> (effective.ipv6@.len() > 0 <==> any_enforced(
            candidates,
            safelist,
            AddressFamily::Ipv6,
        )),
{
    law_effective_is_candidates_without_safelist(candidates, safelist, enable_ipv6, effective);
    let b4 = blocks_v4(effective.ipv4@);
    if effective.ipv4@.len() > 0 {
        lemma_block_size(32, b4[0].prefix);
        assert(block_has(32, b4[0], b4[0].base));
        assert(blocks_cover(32, b4, b4[0].base));
        assert(enforced(candidates, safelist, AddressFamily::Ipv4, b4[0].base));
    }
    if any_enforced(candidates, safelist, AddressFamily::Ipv4) {
        let a = choose|a: int| #[trigger]
            enforced(candidates, safelist, AddressFamily::Ipv4, a);
        assert(blocks_cover(32, b4, a));
    }
    if enable_ipv6 {
        let b6 = blocks_v6(effective.ipv6@);
        if effective.ipv6@.len() > 0 {
            lemma_block_size(128, b6[0].prefix);
            assert(block_has(128, b6[0], b6[0].base));
            assert(blocks_cover(128, b6, b6[0].base));
            assert(enforced(candidates, safelist, AddressFamily::Ipv6, b6[0].base));
        }
        if any_enforced(candidates, safelist, AddressFamily::Ipv6) {
            let a = choose|a: int| #[trigger]
                enforced(candidates, safelist, AddressFamily::Ipv6, a);
            assert(blocks_cover(128, b6, a));
        }
    }
}

/// Lists with the same members hold the same addresses.
pub proof fn lemma_same_members_listed(a: Seq<CanonicalCidr>, b: Seq<CanonicalCidr>)
    requires
        forall|c: CanonicalCidr| #[trigger] a.contains(c) <==> b.contains(c),
    ensures
        forall|family: AddressFamily, x: int| #[trigger]
            listed(a, family, x) == listed(b, family, x),
{
    assert forall|family: AddressFamily, x: int| #[trigger]
        listed(a, family, x) == listed(b, family, x) by {
        if listed(a, family, x) {
            let i = choose|i: int| 0 <= i < a.len() && (#[trigger] a[i]).has(family, x);
            assert(a.contains(a[i]));
            let j = choose|j: int| 0 <= j < b.len() && b[j] == a[i];
            assert(b[j].has(family, x));
        }
        if listed(b, family, x) {
            let i = choose|i: int| 0 <= i < b.len() && (#[trigger] b[i]).has(family, x);
            assert(b.contains(b[i]));
            assert(a.contains(b[i]));
            let j = choose|j: int| 0 <= j < a.len() && a[j] == b[i];
            assert(a[j].has(family, x));
        }
    }
}

} // verus!
