//! Canonical, family-aware CIDR value types.

use crate::policy::span_math::{
    block_has, block_size, block_wf, lemma_block_size, lemma_block_size_divides, Block,
};
use vstd::arithmetic::div_mod::*;
use vstd::arithmetic::power2::*;
use vstd::prelude::*;

verus! {

/// Address family of a network.
#[derive(Debug, Clone, Copy, PartialEq, Eq, Structural, Hash)]
pub enum AddressFamily {
    /// IPv4, addresses of 32 bits.
    Ipv4,
    /// IPv6, addresses of 128 bits.
    Ipv6,
}

impl AddressFamily {
    /// Number of bits in an address of the family.
    pub open spec fn width(self) -> int {
        match self {
            AddressFamily::Ipv4 => 32,
            AddressFamily::Ipv6 => 128,
        }
    }
}

/// Canonical IPv4 network and prefix length.
///
/// Every value has a prefix of at most 32 and no host bits set.
#[derive(Debug, Clone, Copy, PartialEq, Eq, Structural, Hash, PartialOrd, Ord)]
pub struct Ipv4Cidr {
    network: u32,
    prefix: u8,
}

impl View for Ipv4Cidr {
    type V = Block;

    closed spec fn view(&self) -> Block {
        Block { base: self.network as int, prefix: self.prefix as int }
    }
}

/// Canonical IPv6 network and prefix length.
///
/// Every value has a prefix of at most 128 and no host bits set.
#[derive(Debug, Clone, Copy, PartialEq, Eq, Structural, Hash, PartialOrd, Ord)]
pub struct Ipv6Cidr {
    network: u128,
    prefix: u8,
}

impl View for Ipv6Cidr {
    type V = Block;

    closed spec fn view(&self) -> Block {
        Block { base: self.network as int, prefix: self.prefix as int }
    }
}

/// The block of the given prefix that contains `address`.
pub open spec fn enclosing_block(w: int, address: int, prefix: int) -> Block {
    Block { base: address - address % block_size(w, prefix), prefix }
}

/// The enclosing block of an address is a block of the family and holds the address.
pub proof fn lemma_enclosing_block(w: int, address: int, prefix: int)
    requires
        0 <= prefix <= w,
        0 <= address < pow2(w as nat),
    ensures
        block_wf(w, enclosing_block(w, address, prefix)),
        block_has(w, enclosing_block(w, address, prefix), address),
{
    let s = block_size(w, prefix);
    lemma_block_size(w, prefix);
    lemma_fundamental_div_mod(address, s);
    lemma_mod_bound(address, s);
    let q = address / s;
    let k = pow2(prefix as nat) as int;
    lemma_block_size_divides(w, 0, prefix);
    assert(pow2(w as nat) == s * k);
    let base = enclosing_block(w, address, prefix).base;
    assert(base == s * q);
    lemma_div_pos_is_pos(address, s);
    assert(base >= 0) by (nonlinear_arith)
        requires
            base == s * q,
            q >= 0,
            s > 0,
    ;
    lemma_mod_multiples_basic(q, s);
    assert(q * s == s * q) by (nonlinear_arith);
    assert(q < k) by (nonlinear_arith)
        requires
            s * q < s * k,
            s > 0,
    ;
    assert(s * q + s <= s * k) by (nonlinear_arith)
        requires
            q + 1 <= k,
            s > 0,
    ;
}

/// The largest value of a width divided by a power of two leaves a mask of low ones.
proof fn lemma_mask_value(w: nat, prefix: nat)
    requires
        prefix <= w,
    ensures
        (pow2(w) - 1) / pow2(prefix) as int == pow2((w - prefix) as nat) - 1,
{
    let a = pow2(prefix) as int;
    let b = pow2((w - prefix) as nat) as int;
    lemma_pow2_adds(prefix, (w - prefix) as nat);
    lemma_pow2_pos(prefix);
    lemma_pow2_pos((w - prefix) as nat);
    assert(a * (b - 1) + (a - 1) == a * b - 1) by (nonlinear_arith);
    lemma_fundamental_div_mod_converse(a * b - 1, a, b - 1, a - 1);
}

proof fn lemma_pow2_128()
    ensures
        pow2(128) == 0x1_0000_0000_0000_0000_0000_0000_0000_0000,
{
    lemma2_to64();
    lemma2_to64_rest();
    lemma_pow2_adds(64, 64);
}

/// The number of addresses of each family.
pub proof fn lemma_family_sizes()
    ensures
        pow2(32) == 0x1_0000_0000,
        pow2(128) == 0x1_0000_0000_0000_0000_0000_0000_0000_0000,
        u32::MAX + 1 == pow2(32),
        u128::MAX + 1 == pow2(128),
{
    lemma2_to64();
    lemma2_to64_rest();
    lemma_pow2_128();
}

/// Host part of an IPv4 mask: the low `32 - prefix` bits set; zero from prefix 32 on.
pub fn ipv4_host_mask(prefix: u8) -> (mask: u32)
    ensures
        prefix <= 32 ==> mask == block_size(32, prefix as int) - 1,
        prefix > 32 ==> mask == 0,
{
    proof {
        lemma_block_size(32, 32);
        lemma_family_sizes();
    }
    if prefix >= 32 {
        return 0;
    }
    proof {
        vstd::bits::lemma_u32_shr_is_div(u32::MAX, prefix as u32);
        lemma_mask_value(32, prefix as nat);
    }
    u32::MAX >> (prefix as u32)
}

/// Host part of an IPv6 mask: the low `128 - prefix` bits set; zero from prefix 128 on.
pub fn ipv6_host_mask(prefix: u8) -> (mask: u128)
    ensures
        prefix <= 128 ==> mask == block_size(128, prefix as int) - 1,
        prefix > 128 ==> mask == 0,
{
    proof {
        lemma_block_size(128, 128);
        lemma_family_sizes();
    }
    if prefix >= 128 {
        return 0;
    }
    proof {
        vstd::bits::lemma_u128_shr_is_div(u128::MAX, prefix as u128);
        lemma_mask_value(128, prefix as nat);
    }
    u128::MAX >> (prefix as u128)
}

/// Network part of an IPv4 mask: the complement of [`ipv4_host_mask`].
pub fn ipv4_mask(prefix: u8) -> (mask: u32)
    ensures
        prefix <= 32 ==> mask == pow2(32) - block_size(32, prefix as int),
        prefix > 32 ==> mask == u32::MAX,
{
    proof {
        lemma_family_sizes();
    }
    u32::MAX - ipv4_host_mask(prefix)
}

/// Network part of an IPv6 mask: the complement of [`ipv6_host_mask`].
pub fn ipv6_mask(prefix: u8) -> (mask: u128)
    ensures
        prefix <= 128 ==> mask == pow2(128) - block_size(128, prefix as int),
        prefix > 128 ==> mask == u128::MAX,
{
    proof {
        lemma_family_sizes();
    }
    u128::MAX - ipv6_host_mask(prefix)
}

impl Ipv4Cidr {
    /// A value describes a block of the IPv4 family.
    #[verifier::type_invariant]
    pub open spec fn valid(self) -> bool {
        block_wf(32, self@)
    }

    /// Constructs a canonical network from an address and prefix.
    ///
    /// Returns `None` when `prefix` exceeds 32. Host bits are cleared.
    pub fn new(address: u32, prefix: u8) -> (cidr: Option<Ipv4Cidr>)
        ensures
            cidr is None <==> prefix > 32,
            cidr matches Some(c) ==> c@ == enclosing_block(32, address as int, prefix as int),
    {
        if prefix > 32 {
            return None;
        }
        Some(Self::from_parts(address, prefix))
    }

    /// Constructs the network of a valid prefix that contains `network`.
    pub fn from_parts(network: u32, prefix: u8) -> (cidr: Ipv4Cidr)
        requires
            prefix <= 32,
        ensures
            cidr@ == enclosing_block(32, network as int, prefix as int),
    {
        let host: u32 = ipv4_host_mask(prefix);
        proof {
            lemma_family_sizes();
            lemma_enclosing_block(32, network as int, prefix as int);
            lemma_block_size(32, prefix as int);
            if prefix == 0 {
                lemma_small_mod(network as nat, pow2(32));
            }
        }
        if prefix == 0 {
            return Ipv4Cidr { network: 0, prefix: 0 };
        }
        proof {
            lemma_block_size_divides(32, 1, prefix as int);
            lemma_block_size(32, 1);
            lemma_mod_bound(network as int, host as int + 1);
        }
        let low: u32 = network % (host + 1);
        Ipv4Cidr { network: network - low, prefix }
    }

    /// Returns the canonical network address.
    pub fn network(self) -> (network: u32)
        ensures
            network == self@.base,
    {
        self.network
    }

    /// Returns the prefix length in the inclusive range 0 through 32.
    pub fn prefix(self) -> (prefix: u8)
        ensures
            prefix == self@.prefix,
            prefix <= 32,
    {
        proof {
            use_type_invariant(&self);
        }
        self.prefix
    }

    /// Networks are equal exactly when they describe the same block.
    pub broadcast proof fn lemma_ext(a: Ipv4Cidr, b: Ipv4Cidr)
        ensures
            #![trigger a@, b@]
            a@ == b@ ==> a == b,
    {
    }
}

impl Ipv6Cidr {
    /// A value describes a block of the IPv6 family.
    #[verifier::type_invariant]
    pub open spec fn valid(self) -> bool {
        block_wf(128, self@)
    }

    /// Constructs a canonical network from an address and prefix.
    ///
    /// Returns `None` when `prefix` exceeds 128. Host bits are cleared.
    pub fn new(address: u128, prefix: u8) -> (cidr: Option<Ipv6Cidr>)
        ensures
            cidr is None <==> prefix > 128,
            cidr matches Some(c) ==> c@ == enclosing_block(128, address as int, prefix as int),
    {
        if prefix > 128 {
            return None;
        }
        Some(Self::from_parts(address, prefix))
    }

    /// Constructs the network of a valid prefix that contains `network`.
    pub fn from_parts(network: u128, prefix: u8) -> (cidr: Ipv6Cidr)
        requires
            prefix <= 128,
        ensures
            cidr@ == enclosing_block(128, network as int, prefix as int),
    {
        let host: u128 = ipv6_host_mask(prefix);
        proof {
            lemma_family_sizes();
            lemma_enclosing_block(128, network as int, prefix as int);
            lemma_block_size(128, prefix as int);
            if prefix == 0 {
                lemma_small_mod(network as nat, pow2(128));
            }
        }
        if prefix == 0 {
            return Ipv6Cidr { network: 0, prefix: 0 };
        }
        proof {
            lemma_block_size_divides(128, 1, prefix as int);
            lemma_block_size(128, 1);
            lemma_mod_bound(network as int, host as int + 1);
        }
        let low: u128 = network % (host + 1);
        Ipv6Cidr { network: network - low, prefix }
    }

    /// Returns the canonical network address.
    pub fn network(self) -> (network: u128)
        ensures
            network == self@.base,
    {
        self.network
    }

    /// Returns the prefix length in the inclusive range 0 through 128.
    pub fn prefix(self) -> (prefix: u8)
        ensures
            prefix == self@.prefix,
            prefix <= 128,
    {
        proof {
            use_type_invariant(&self);
        }
        self.prefix
    }

    /// Networks are equal exactly when they describe the same block.
    pub broadcast proof fn lemma_ext(a: Ipv6Cidr, b: Ipv6Cidr)
        ensures
            #![trigger a@, b@]
            a@ == b@ ==> a == b,
    {
    }
}

/// Canonical IPv4 or IPv6 network.
#[derive(Debug, Clone, Copy, PartialEq, Eq, Structural, Hash, PartialOrd, Ord)]
pub enum CanonicalCidr {
    /// Canonical IPv4 network.
    V4(Ipv4Cidr),
    /// Canonical IPv6 network.
    V6(Ipv6Cidr),
}

impl CanonicalCidr {
    /// Address family of the network.
    pub open spec fn family_of(self) -> AddressFamily {
        match self {
            CanonicalCidr::V4(_) => AddressFamily::Ipv4,
            CanonicalCidr::V6(_) => AddressFamily::Ipv6,
        }
    }

    /// Block of addresses of the network within its family.
    pub open spec fn block(self) -> Block {
        match self {
            CanonicalCidr::V4(cidr) => cidr@,
            CanonicalCidr::V6(cidr) => cidr@,
        }
    }

    /// The network holds address `a` of family `family`.
    pub open spec fn has(self, family: AddressFamily, a: int) -> bool {
        self.family_of() == family && block_has(family.width(), self.block(), a)
    }

    /// The network is a block of its family.
    pub open spec fn valid(self) -> bool {
        block_wf(self.family_of().width(), self.block())
    }

    /// Every network value is valid.
    pub(crate) fn validity(self)
        ensures
            self.valid(),
    {
        match self {
            CanonicalCidr::V4(cidr) => {
                proof {
                    use_type_invariant(&cidr);
                }
            },
            CanonicalCidr::V6(cidr) => {
                proof {
                    use_type_invariant(&cidr);
                }
            },
        }
    }

    /// Returns the CIDR's address family.
    pub fn family(self) -> (family: AddressFamily)
        ensures
            family == self.family_of(),
    {
        match self {
            CanonicalCidr::V4(_) => AddressFamily::Ipv4,
            CanonicalCidr::V6(_) => AddressFamily::Ipv6,
        }
    }
}

/// CIDR vectors separated by address family.
#[derive(Debug, Clone, PartialEq, Eq)]
pub struct FamilyCidrs {
    /// IPv4 CIDRs in their input or computed order.
    pub ipv4: Vec<Ipv4Cidr>,
    /// IPv6 CIDRs in their input or computed order.
    pub ipv6: Vec<Ipv6Cidr>,
}

impl Default for FamilyCidrs {
    fn default() -> (families: FamilyCidrs)
        ensures
            families.ipv4@.len() == 0,
            families.ipv6@.len() == 0,
    {
        FamilyCidrs { ipv4: Vec::new(), ipv6: Vec::new() }
    }
}

} // verus!
