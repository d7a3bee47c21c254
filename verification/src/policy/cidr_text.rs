//! Text form of networks: an address, or an address with a prefix length.

use crate::numerals::{
    decimal, lemma_decimal_reads_back, lemma_numeral, read_signed_decimal, signed_decimal,
    write_numeral,
};
use crate::policy::addr_text::{
    ipv4_text, ipv6_text, parse_ipv4, parse_ipv6, read_ipv4, read_ipv6, write_ipv4, write_ipv6,
};
use crate::policy::addr_text_laws::{
    is_address_char, law_ipv4_text_reads_back, law_ipv6_text_reads_back, lemma_address_char,
    lemma_ipv4_text_chars, lemma_ipv6_text_chars, lemma_not_ipv4, lemma_not_ipv6,
};
use crate::policy::network_types::{
    enclosing_block, lemma_family_sizes, AddressFamily, CanonicalCidr, Ipv4Cidr, Ipv6Cidr,
};
use crate::policy::span_math::{block_wf, lemma_block_size, Block};
use crate::text::{
    find_char, first_word, first_word_chars, from_chars, has_space, has_space_chars, index_of,
    is_space, lemma_index_of_unique, lemma_word_len, push_chars, to_chars, trim, trim_chars,
    trim_start, word_len,
};
use vstd::arithmetic::power2::*;
use vstd::prelude::*;
use vstd::slice::slice_subrange;

verus! {

/// Family and block of a network.
pub struct CidrModel {
    pub family: AddressFamily,
    pub block: Block,
}

impl View for CanonicalCidr {
    type V = CidrModel;

    open spec fn view(&self) -> CidrModel {
        CidrModel { family: self.family_of(), block: self.block() }
    }
}

/// Models of a sequence of networks.
pub open spec fn models(cidrs: Seq<CanonicalCidr>) -> Seq<CidrModel> {
    Seq::new(cidrs.len(), |i: int| cidrs[i]@)
}

/// A network is determined by its model.
pub proof fn lemma_model_injective(a: CanonicalCidr, b: CanonicalCidr)
    requires
        a@ == b@,
    ensures
        a == b,
{
    match (a, b) {
        (CanonicalCidr::V4(x), CanonicalCidr::V4(y)) => {
            Ipv4Cidr::lemma_ext(x, y);
        },
        (CanonicalCidr::V6(x), CanonicalCidr::V6(y)) => {
            Ipv6Cidr::lemma_ext(x, y);
        },
        _ => {},
    }
}

/// Address of either family.
pub open spec fn parse_address(s: Seq<char>) -> Option<(AddressFamily, nat)> {
    match parse_ipv4(s) {
        Some(v) => Some((AddressFamily::Ipv4, v)),
        None => match parse_ipv6(s) {
            Some(v) => Some((AddressFamily::Ipv6, v)),
            None => None,
        },
    }
}

/// Address, or address, slash and prefix length; host bits are cleared.
#[verifier::opaque]
pub open spec fn parse_token(s: Seq<char>) -> Option<CidrModel> {
    match parse_address(s) {
        Some((family, v)) => Some(
            CidrModel {
                family,
                block: enclosing_block(family.width(), v as int, family.width()),
            },
        ),
        None => {
            let n = index_of(s, '/') as int;
            if n == s.len() {
                None
            } else {
                match (signed_decimal(s.skip(n + 1), 255), parse_address(s.take(n))) {
                    (Some(prefix), Some((family, v))) => if prefix <= family.width() {
                        Some(
                            CidrModel {
                                family,
                                block: enclosing_block(family.width(), v as int, prefix as int),
                            },
                        )
                    } else {
                        None
                    },
                    _ => None,
                }
            }
        },
    }
}

/// First word of a text, as a network.
pub open spec fn parse_non_strict(s: Seq<char>) -> Option<CidrModel> {
    let word = first_word(s);
    if word.len() == 0 {
        None
    } else {
        parse_token(word)
    }
}

/// Text that is a single network but for surrounding whitespace.
pub open spec fn parse_strict(s: Seq<char>) -> Option<CidrModel> {
    let t = trim(s);
    if t.len() == 0 || has_space(t) {
        None
    } else {
        parse_token(t)
    }
}

/// Networks at the start of each text; texts without one are skipped.
pub open spec fn parse_texts(texts: Seq<Seq<char>>) -> Seq<CidrModel>
    decreases texts.len(),
{
    if texts.len() == 0 {
        Seq::empty()
    } else {
        match parse_non_strict(texts.last()) {
            Some(model) => parse_texts(texts.drop_last()).push(model),
            None => parse_texts(texts.drop_last()),
        }
    }
}

/// Notation of an address.
pub open spec fn address_text(family: AddressFamily, v: nat) -> Seq<char> {
    match family {
        AddressFamily::Ipv4 => ipv4_text(v),
        AddressFamily::Ipv6 => ipv6_text(v),
    }
}

/// Notation of a network: address, slash, prefix length.
pub open spec fn cidr_text(model: CidrModel) -> Seq<char> {
    address_text(model.family, model.block.base as nat).push('/') + decimal(
        model.block.prefix as nat,
    )
}

/// Result of a network reader.
pub open spec fn reads(value: Option<CanonicalCidr>, model: Option<CidrModel>) -> bool {
    match value {
        Some(cidr) => model == Some(cidr@),
        None => model is None,
    }
}

enum Address {
    V4(u32),
    V6(u128),
}

spec fn address_model(a: Address) -> (AddressFamily, nat) {
    match a {
        Address::V4(v) => (AddressFamily::Ipv4, v as nat),
        Address::V6(v) => (AddressFamily::Ipv6, v as nat),
    }
}

fn read_address(s: &[char]) -> (address: Option<Address>)
    ensures
        address matches Some(a) ==> parse_address(s@) == Some(address_model(a)),
        address is None ==> parse_address(s@) is None,
{
    match read_ipv4(s) {
        Some(v) => Some(Address::V4(v)),
        None => match read_ipv6(s) {
            Some(v) => Some(Address::V6(v)),
            None => None,
        },
    }
}

/// Parses an isolated token given as characters.
pub fn parse_token_chars(s: &[char]) -> (cidr: Option<CanonicalCidr>)
    ensures
        reads(cidr, parse_token(s@)),
{
    proof {
        reveal(parse_token);
    }
    match read_address(s) {
        Some(Address::V4(v)) => {
            return Some(CanonicalCidr::V4(Ipv4Cidr::from_parts(v, 32)));
        },
        Some(Address::V6(v)) => {
            return Some(CanonicalCidr::V6(Ipv6Cidr::from_parts(v, 128)));
        },
        None => {},
    }
    let n: usize = find_char(s, '/');
    if n == s.len() {
        return None;
    }
    let front = slice_subrange(s, 0, n);
    let back = slice_subrange(s, n + 1, s.len());
    assert(front@ =~= s@.take(n as int));
    assert(back@ =~= s@.skip(n as int + 1));
    let prefix: u8 = match read_signed_decimal(back, 255) {
        Some(prefix) => prefix as u8,
        None => {
            return None;
        },
    };
    match read_address(front) {
        Some(Address::V4(v)) => match Ipv4Cidr::new(v, prefix) {
            Some(cidr) => Some(CanonicalCidr::V4(cidr)),
            None => None,
        },
        Some(Address::V6(v)) => match Ipv6Cidr::new(v, prefix) {
            Some(cidr) => Some(CanonicalCidr::V6(cidr)),
            None => None,
        },
        None => None,
    }
}

/// Parses an already isolated IP-address or CIDR token into canonical network form.
pub fn parse_ip_cidr_token(token: &str) -> (cidr: Option<CanonicalCidr>)
    ensures
        reads(cidr, parse_token(token@)),
{
    let chars: Vec<char> = to_chars(token);
    parse_token_chars(chars.as_slice())
}

/// Parses the first whitespace-delimited token of some characters.
pub fn parse_non_strict_chars(s: &[char]) -> (cidr: Option<CanonicalCidr>)
    ensures
        reads(cidr, parse_non_strict(s@)),
{
    let word = first_word_chars(s);
    if word.len() == 0 {
        return None;
    }
    parse_token_chars(word)
}

/// Parses the first whitespace-delimited token as an IP address or CIDR.
///
/// Host addresses become `/32` or `/128`; invalid input returns `None`.
pub fn parse_ip_cidr_non_strict(input: &str) -> (cidr: Option<CanonicalCidr>)
    ensures
        reads(cidr, parse_non_strict(input@)),
{
    let chars: Vec<char> = to_chars(input);
    parse_non_strict_chars(chars.as_slice())
}

/// Parses exactly one IP address or CIDR after trimming surrounding whitespace.
///
/// Embedded whitespace or invalid input returns `None`.
pub fn parse_ip_cidr_strict(input: &str) -> (cidr: Option<CanonicalCidr>)
    ensures
        reads(cidr, parse_strict(input@)),
{
    let chars: Vec<char> = to_chars(input);
    let t = trim_chars(chars.as_slice());
    if t.len() == 0 || has_space_chars(t) {
        return None;
    }
    parse_token_chars(t)
}

/// Views of a sequence of string slices.
pub open spec fn str_views(texts: Seq<&str>) -> Seq<Seq<char>> {
    Seq::new(texts.len(), |i: int| texts[i]@)
}

/// Parses the first token from each input and discards invalid inputs.
pub fn parse_lines_non_strict(inputs: &[&str]) -> (cidrs: Vec<CanonicalCidr>)
    ensures
        models(cidrs@) == parse_texts(str_views(inputs@)),
{
    let mut cidrs: Vec<CanonicalCidr> = Vec::new();
    let ghost texts = str_views(inputs@);
    let mut i: usize = 0;
    assert(models(cidrs@) =~= parse_texts(texts.take(0)));
    while i < inputs.len()
        invariant
            i <= inputs@.len(),
            texts == str_views(inputs@),
            models(cidrs@) == parse_texts(texts.take(i as int)),
        decreases inputs@.len() - i,
    {
        let ghost before = cidrs@;
        proof {
            assert(texts.take(i as int + 1).drop_last() =~= texts.take(i as int));
            assert(texts.take(i as int + 1).last() == inputs@[i as int]@);
        }
        if let Some(cidr) = parse_ip_cidr_non_strict(inputs[i]) {
            cidrs.push(cidr);
            assert(models(cidrs@) =~= models(before).push(cidr@));
        }
        i += 1;
    }
    assert(texts.take(i as int) =~= texts);
    cidrs
}

impl CanonicalCidr {
    /// Writes the network as address, slash and prefix length.
    pub fn to_chars(&self) -> (s: Vec<char>)
        ensures
            s@ == cidr_text(self@),
    {
        self.validity();
        match self {
            CanonicalCidr::V4(cidr) => {
                let mut s: Vec<char> = write_ipv4(cidr.network());
                s.push('/');
                let prefix: Vec<char> = write_numeral(cidr.prefix() as u128, 10);
                push_chars(&mut s, prefix.as_slice());
                s
            },
            CanonicalCidr::V6(cidr) => {
                let mut s: Vec<char> = write_ipv6(cidr.network());
                s.push('/');
                let prefix: Vec<char> = write_numeral(cidr.prefix() as u128, 10);
                push_chars(&mut s, prefix.as_slice());
                s
            },
        }
    }

    /// Writes the network as a string.
    pub fn to_text(&self) -> (text: String)
        ensures
            text@ == cidr_text(self@),
    {
        let chars: Vec<char> = self.to_chars();
        from_chars(chars.as_slice())
    }
}

/// The block of a model is a block of its family.
pub open spec fn model_valid(model: CidrModel) -> bool {
    block_wf(model.family.width(), model.block)
}

/// Characters of a written network: those of addresses and the slash.
pub proof fn lemma_cidr_text_chars(model: CidrModel)
    requires
        model_valid(model),
    ensures
        cidr_text(model).len() > 0,
        forall|i: int|
            #![trigger cidr_text(model)[i]]
            0 <= i < cidr_text(model).len() ==> !is_space(cidr_text(model)[i]) && cidr_text(
                model,
            )[i] != '#' && cidr_text(model)[i] != ',' && cidr_text(model)[i] != '\u{feff}'
                && cidr_text(model)[i] != '\n' && cidr_text(model)[i] != '\r',
{
    let v = model.block.base as nat;
    let a = address_text(model.family, v);
    let p = decimal(model.block.prefix as nat);
    let s = cidr_text(model);
    lemma_address_text_chars(model.family, v);
    lemma_numeral(model.block.prefix as nat, 10);
    assert forall|i: int| 0 <= i < s.len() implies !is_space(#[trigger] s[i]) && s[i] != '#' && s[i]
        != ',' && s[i] != '\u{feff}' && s[i] != '\n' && s[i] != '\r' by {
        if i < a.len() {
            assert(s[i] == a[i]);
            lemma_address_char(a[i]);
        } else if i > a.len() {
            let k = i - a.len() - 1;
            assert(s[i] == p[k]);
            assert(crate::numerals::digit_value(p[k]) < 10);
        }
    }
}

proof fn lemma_address_text_chars(family: AddressFamily, v: nat)
    ensures
        address_text(family, v).len() > 0,
        forall|i: int|
            0 <= i < address_text(family, v).len() ==> is_address_char(
                #[trigger] address_text(family, v)[i],
            ),
{
    match family {
        AddressFamily::Ipv4 => lemma_ipv4_text_chars(v),
        AddressFamily::Ipv6 => lemma_ipv6_text_chars(v),
    }
}

/// A written address reads back with its family.
pub proof fn law_address_reads_back(family: AddressFamily, v: nat)
    requires
        v < pow2(family.width() as nat),
    ensures
        parse_address(address_text(family, v)) == Some((family, v)),
{
    lemma_family_sizes();
    match family {
        AddressFamily::Ipv4 => law_ipv4_text_reads_back(v),
        AddressFamily::Ipv6 => {
            law_ipv6_text_reads_back(v);
            lemma_ipv6_text_chars(v);
            let s = ipv6_text(v);
            let i = choose|i: int| 0 <= i < s.len() && s[i] == ':';
            lemma_not_ipv4(s, i);
        },
    }
}

/// A written network reads back as itself.
pub proof fn law_cidr_text_reads_back(model: CidrModel)
    requires
        model_valid(model),
    ensures
        parse_token(cidr_text(model)) == Some(model),
        parse_non_strict(cidr_text(model)) == Some(model),
        parse_strict(cidr_text(model)) == Some(model),
{
    reveal(parse_token);
    let w = model.family.width();
    let v = model.block.base as nat;
    let a = address_text(model.family, v);
    let p = decimal(model.block.prefix as nat);
    let s = cidr_text(model);
    let n = a.len() as int;
    lemma_address_text_chars(model.family, v);
    assert forall|i: int| 0 <= i < n implies #[trigger] s[i] != '/' by {
        assert(s[i] == a[i]);
        lemma_address_char(a[i]);
    }
    assert(s[n] == '/');
    lemma_index_of_unique(s, '/', n);
    lemma_not_ipv4(s, n);
    lemma_not_ipv6(s, n);
    assert(s.take(n) =~= a);
    assert(s.skip(n + 1) =~= p);
    lemma_decimal_reads_back(model.block.prefix as nat, 255);
    lemma_block_size(w, model.block.prefix);
    law_address_reads_back(model.family, v);
    assert(enclosing_block(w, v as int, model.block.prefix) == model.block);
    lemma_cidr_text_chars(model);
    lemma_bare_text(s);
}

/// A text without whitespace is its own first word and trims to itself.
pub proof fn lemma_bare_text(s: Seq<char>)
    requires
        s.len() > 0,
        forall|i: int| 0 <= i < s.len() ==> !is_space(#[trigger] s[i]),
    ensures
        first_word(s) == s,
        trim(s) == s,
        !has_space(s),
{
    assert(!is_space(s[0]));
    assert(trim_start(s) == s);
    assert(!is_space(s[s.len() - 1]));
    lemma_word_len(s);
    assert(word_len(s) == s.len());
    assert(s.take(s.len() as int) =~= s);
}

} // verus!
