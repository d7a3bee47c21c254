//! Which texts are networks, and what surrounds them.

use crate::numerals::{digit_value, signed_decimal};
use crate::policy::addr_text::ipv4_text;
use crate::policy::addr_text_laws::{
    law_ipv4_text_reads_back, lemma_ipv4_text_chars, lemma_not_ipv4,
};
use crate::policy::cidr_text::{
    parse_address, parse_non_strict, parse_strict, parse_token, CidrModel,
};
use crate::policy::network_types::AddressFamily;
use crate::policy::notation_laws::{
    compressed_notation, full_notation, ipv6_notation, law_ipv6_reads_its_notations,
    lemma_ipv4_unique, lemma_value_writes, lemma_writes_value, spells, writes, writes_group,
};
use crate::policy::span_math::{block_has, Block};
use crate::text::{
    first_word, index_of, is_space, join_with, lemma_index_of, lemma_index_of_unique,
    lemma_join_chars, lemma_trim_end_shape, lemma_trim_start_shape, lemma_word_len, trim, trim_end,
    trim_start, word_len,
};
use vstd::arithmetic::power2::*;
use vstd::prelude::*;

verus! {

// White space -----------------------------------------------------------------------------------

/// Every character is white space.
pub open spec fn all_space(s: Seq<char>) -> bool {
    forall|i: int| 0 <= i < s.len() ==> is_space(#[trigger] s[i])
}

/// No character is white space.
pub open spec fn no_space(s: Seq<char>) -> bool {
    forall|i: int| 0 <= i < s.len() ==> !is_space(#[trigger] s[i])
}

/// White space is what Unicode calls so.
pub proof fn law_white_space_is_that_of_unicode(c: char)
    ensures
        is_space(c) <==> {
            ||| c == '\t' || c == '\n' || c == '\u{b}' || c == '\u{c}' || c == '\r' || c == ' '
            ||| c == '\u{85}' || c == '\u{a0}' || c == '\u{1680}'
            ||| c == '\u{2000}' || c == '\u{2001}' || c == '\u{2002}' || c == '\u{2003}'
            ||| c == '\u{2004}' || c == '\u{2005}' || c == '\u{2006}' || c == '\u{2007}'
            ||| c == '\u{2008}' || c == '\u{2009}' || c == '\u{200a}'
            ||| c == '\u{2028}' || c == '\u{2029}' || c == '\u{202f}' || c == '\u{205f}'
            ||| c == '\u{3000}'
        },
{
}

pub(crate) proof fn lemma_skip_space(lead: Seq<char>, rest: Seq<char>)
    requires
        all_space(lead),
    ensures
        trim_start(lead + rest) == trim_start(rest),
    decreases lead.len(),
{
    if lead.len() == 0 {
        assert(lead + rest =~= rest);
    } else {
        let s = lead + rest;
        assert(s[0] == lead[0]);
        assert(s.drop_first() =~= lead.drop_first() + rest);
        assert forall|i: int| 0 <= i < lead.len() - 1 implies is_space(
            #[trigger] lead.drop_first()[i],
        ) by {
            assert(lead.drop_first()[i] == lead[i + 1]);
        }
        lemma_skip_space(lead.drop_first(), rest);
    }
}

pub(crate) proof fn lemma_drop_space(rest: Seq<char>, tail: Seq<char>)
    requires
        all_space(tail),
    ensures
        trim_end(rest + tail) == trim_end(rest),
    decreases tail.len(),
{
    if tail.len() == 0 {
        assert(rest + tail =~= rest);
    } else {
        let s = rest + tail;
        assert(s.last() == tail[tail.len() - 1]);
        assert(s.drop_last() =~= rest + tail.drop_last());
        assert forall|i: int| 0 <= i < tail.len() - 1 implies is_space(
            #[trigger] tail.drop_last()[i],
        ) by {
            assert(tail.drop_last()[i] == tail[i]);
        }
        lemma_drop_space(rest, tail.drop_last());
    }
}

/// Trimming takes away the white space at both ends and nothing else.
pub proof fn law_trimming_keeps_the_middle(lead: Seq<char>, middle: Seq<char>, tail: Seq<char>)
    requires
        all_space(lead),
        all_space(tail),
        middle.len() > 0 ==> !is_space(middle[0]) && !is_space(middle.last()),
    ensures
        trim(lead + middle + tail) == middle,
{
    assert(lead + middle + tail =~= lead + (middle + tail));
    lemma_skip_space(lead, middle + tail);
    if middle.len() == 0 {
        assert(middle + tail =~= tail + Seq::<char>::empty());
        lemma_skip_space(tail, Seq::<char>::empty());
        assert(trim_start(Seq::<char>::empty()) =~= middle);
    } else {
        assert((middle + tail)[0] == middle[0]);
        assert(trim_start(middle + tail) == middle + tail);
        lemma_drop_space(middle, tail);
    }
}

/// The first word of a text is what stands between leading white space and the next.
pub proof fn law_first_word_ends_at_white_space(
    lead: Seq<char>,
    word: Seq<char>,
    rest: Seq<char>,
)
    requires
        all_space(lead),
        no_space(word),
        rest.len() > 0 ==> is_space(rest[0]),
        word.len() > 0 || all_space(rest),
    ensures
        first_word(lead + word + rest) == word,
{
    let s = lead + word + rest;
    let t = word + rest;
    assert(s =~= lead + t);
    lemma_skip_space(lead, t);
    if word.len() == 0 {
        assert(t =~= rest + Seq::<char>::empty());
        lemma_skip_space(rest, Seq::<char>::empty());
        assert(first_word(s) =~= word);
    } else {
        assert(t[0] == word[0]);
        assert(trim_start(t) == t);
        lemma_word_len(t);
        let n = word_len(t) as int;
        if n < word.len() {
            assert(t[n] == word[n]);
        }
        if n > word.len() {
            assert(t[word.len() as int] == rest[0]);
        }
        assert(t.take(n) =~= word);
    }
}

// Addresses -------------------------------------------------------------------------------------

/// The text is a notation of the address.
pub open spec fn address_notation(s: Seq<char>, family: AddressFamily, v: nat) -> bool {
    match family {
        AddressFamily::Ipv4 => v < 0x1_0000_0000 && s == ipv4_text(v),
        AddressFamily::Ipv6 => ipv6_notation(s, v),
    }
}

/// Hexadecimal digits in either case, dots and colons.
pub open spec fn is_notation_char(c: char) -> bool {
    c == ':' || c == '.' || digit_value(c) < 16
}

proof fn lemma_notation_char(c: char)
    requires
        is_notation_char(c),
    ensures
        c != '/' && c != '#' && c != ',' && c != '\n' && c != '\r' && c != '\u{feff}' && !is_space(
            c,
        ),
{
}

proof fn lemma_group_is_address(s: Seq<char>, g: nat)
    requires
        writes_group(s, g),
    ensures
        forall|i: int| 0 <= i < s.len() ==> is_notation_char(#[trigger] s[i]),
{
    lemma_writes_value(s, g, 16);
    assert forall|i: int| 0 <= i < s.len() implies is_notation_char(#[trigger] s[i]) by {
        assert(digit_value(s[i]) < 16);
    }
}

proof fn lemma_spelled_chars(parts: Seq<Seq<char>>, groups: Seq<nat>, dotted: bool)
    requires
        spells(parts, groups, dotted),
    ensures
        forall|i: int|
            0 <= i < join_with(parts, ':').len() ==> is_notation_char(
                #[trigger] join_with(parts, ':')[i],
            ),
{
    let s = join_with(parts, ':');
    assert forall|i: int| 0 <= i < s.len() implies is_notation_char(#[trigger] s[i]) by {
        lemma_join_chars(parts, ':', i);
        if s[i] != ':' {
            let p = choose|p: int| 0 <= p < parts.len() && (#[trigger] parts[p]).contains(s[i]);
            let k = choose|k: int| 0 <= k < parts[p].len() && parts[p][k] == s[i];
            if dotted && p == parts.len() - 1 {
                let v = choose|v: nat|
                    v < 0x1_0000_0000 && parts.last() == #[trigger] ipv4_text(v)
                        && groups[groups.len() - 2] == v / 0x1_0000 && groups[groups.len() - 1] == v
                        % 0x1_0000;
                lemma_ipv4_text_chars(v);
                assert(crate::policy::addr_text_laws::is_address_char(ipv4_text(v)[k]));
            } else {
                lemma_group_is_address(parts[p], groups[p]);
                assert(is_notation_char(parts[p][k]));
            }
        }
    }
}

/// A notation has only digits, dots and colons; one of an IPv6 address has a colon.
pub(crate) proof fn lemma_notation_chars(s: Seq<char>, family: AddressFamily, v: nat)
    requires
        address_notation(s, family, v),
    ensures
        s.len() > 0,
        forall|i: int| 0 <= i < s.len() ==> is_notation_char(#[trigger] s[i]),
        family == AddressFamily::Ipv6 ==> s.contains(':'),
{
    match family {
        AddressFamily::Ipv4 => {
            lemma_ipv4_text_chars(v);
            assert forall|i: int| 0 <= i < s.len() implies is_notation_char(#[trigger] s[i]) by {
                assert(crate::policy::addr_text_laws::is_address_char(ipv4_text(v)[i]));
            }
        },
        AddressFamily::Ipv6 => {
            if full_notation(s, v) {
                let (parts, groups, dotted) = choose|
                    parts: Seq<Seq<char>>,
                    groups: Seq<nat>,
                    dotted: bool,
                |
                    {
                        &&& #[trigger] spells(parts, groups, dotted)
                        &&& groups.len() == 8
                        &&& s == join_with(parts, ':')
                        &&& v == crate::policy::notation_laws::eight_groups(groups)
                    };
                lemma_spelled_chars(parts, groups, dotted);
                assert(parts.len() >= 7);
                assert(s == parts[0].push(':') + join_with(parts.drop_first(), ':'));
                assert(s[parts[0].len() as int] == ':');
            } else {
                assert(compressed_notation(s, v));
                lemma_compressed_chars(s, v);
            }
        },
    }
}

proof fn lemma_compressed_chars(s: Seq<char>, v: nat)
    requires
        compressed_notation(s, v),
    ensures
        s.len() > 0,
        forall|i: int| 0 <= i < s.len() ==> is_notation_char(#[trigger] s[i]),
        s.contains(':'),
{
    let (head, high, tail, low, dotted) = choose|
        head: Seq<Seq<char>>,
        high: Seq<nat>,
        tail: Seq<Seq<char>>,
        low: Seq<nat>,
        dotted: bool,
    |
        {
            &&& #[trigger] spells(head, high, false)
            &&& #[trigger] spells(tail, low, dotted)
            &&& high.len() + low.len() <= 7
            &&& s == join_with(head, ':') + seq![':', ':'] + join_with(tail, ':')
            &&& v == crate::policy::notation_laws::eight_groups(
                crate::policy::notation_laws::zeros_between(high, low),
            )
        };
    let hs = join_with(head, ':');
    let ts = join_with(tail, ':');
    lemma_spelled_chars(head, high, false);
    lemma_spelled_chars(tail, low, dotted);
    assert(s[hs.len() as int] == ':');
    assert forall|i: int| 0 <= i < s.len() implies is_notation_char(#[trigger] s[i]) by {
        if i < hs.len() {
            assert(s[i] == hs[i]);
        } else if i >= hs.len() + 2 {
            assert(s[i] == ts[i - hs.len() - 2]);
        }
    }
}

/// A text reads as an address exactly when it is a notation of it: a dotted IPv4 address, or an
/// IPv6 address.
pub proof fn law_addresses_read_their_notations(s: Seq<char>, family: AddressFamily, v: nat)
    ensures
        parse_address(s) == Some((family, v)) <==> address_notation(s, family, v),
{
    lemma_ipv4_unique(s);
    law_ipv6_reads_its_notations(s, v);
    if address_notation(s, family, v) {
        lemma_notation_chars(s, family, v);
        if family == AddressFamily::Ipv4 {
            law_ipv4_text_reads_back(v);
        } else {
            let at = choose|at: int| 0 <= at < s.len() && s[at] == ':';
            assert(s[at] == ':');
            lemma_not_ipv4(s, at);
        }
    }
}

// Networks --------------------------------------------------------------------------------------

/// The text is a prefix length: decimal digits behind an optional plus sign.
pub open spec fn prefix_notation(s: Seq<char>, n: nat) -> bool {
    ||| writes(s, n, 10)
    ||| s.len() > 0 && s[0] == '+' && writes(s.drop_first(), n, 10)
}

/// The network of the address with the prefix length: the address with its host bits cleared.
pub open spec fn network_at(family: AddressFamily, v: nat, prefix: nat) -> CidrModel {
    CidrModel {
        family,
        block: Block {
            base: v - v as int % pow2((family.width() - prefix) as nat) as int,
            prefix: prefix as int,
        },
    }
}

/// The text is an address, which is the network of all its bits, or an address and a prefix length
/// around a slash.
pub open spec fn network_notation(s: Seq<char>, model: CidrModel) -> bool {
    ||| exists|v: nat| #[trigger]
        address_notation(s, model.family, v) && model == network_at(
            model.family,
            v,
            model.family.width() as nat,
        )
    ||| exists|address: Seq<char>, v: nat, prefix: Seq<char>, n: nat|
        {
            &&& #[trigger] address_notation(address, model.family, v)
            &&& #[trigger] prefix_notation(prefix, n)
            &&& n <= model.family.width()
            &&& s == address + seq!['/'] + prefix
            &&& model == network_at(model.family, v, n)
        }
}

proof fn lemma_prefix_reads(s: Seq<char>, n: nat, max: nat)
    requires
        n <= max,
    ensures
        signed_decimal(s, max) == Some(n) <==> prefix_notation(s, n),
{
    let digits = if s.len() > 0 && s[0] == '+' {
        s.drop_first()
    } else {
        s
    };
    if signed_decimal(s, max) == Some(n) {
        lemma_value_writes(digits, 10);
    }
    if writes(s, n, 10) {
        lemma_writes_value(s, n, 10);
        assert(digit_value(s[0]) < 10);
        assert(digits == s);
    } else if prefix_notation(s, n) {
        lemma_writes_value(digits, n, 10);
    }
}

proof fn lemma_no_slash(s: Seq<char>, family: AddressFamily, v: nat)
    requires
        address_notation(s, family, v),
    ensures
        forall|i: int| 0 <= i < s.len() ==> #[trigger] s[i] != '/',
{
    lemma_notation_chars(s, family, v);
    assert forall|i: int| 0 <= i < s.len() implies #[trigger] s[i] != '/' by {
        lemma_notation_char(s[i]);
    }
}

proof fn lemma_sized_reads(
    address: Seq<char>,
    family: AddressFamily,
    v: nat,
    prefix: Seq<char>,
    n: nat,
)
    requires
        address_notation(address, family, v),
        prefix_notation(prefix, n),
        n <= family.width(),
    ensures
        parse_token(address + seq!['/'] + prefix) == Some(network_at(family, v, n)),
{
    reveal(parse_token);
    let s = address + seq!['/'] + prefix;
    let k = address.len() as int;
    lemma_no_slash(address, family, v);
    assert forall|i: int| 0 <= i < k implies #[trigger] s[i] != '/' by {
        assert(s[i] == address[i]);
    }
    lemma_index_of_unique(s, '/', k);
    assert(s.take(k) =~= address);
    assert(s.skip(k + 1) =~= prefix);
    law_addresses_read_their_notations(address, family, v);
    lemma_prefix_reads(prefix, n, 255);
    if let Some((other, u)) = parse_address(s) {
        law_addresses_read_their_notations(s, other, u);
        lemma_no_slash(s, other, u);
        assert(s[k] == '/');
    }
}

/// A word reads as a network exactly when it is a notation of it: an address stands for itself
/// alone, and an address with a prefix length for the addresses that share as many leading bits.
/// So leading zeros in groups and prefixes, letters in either case and host bits make no
/// difference.
pub proof fn law_networks_read_their_notations(s: Seq<char>, model: CidrModel)
    ensures
        parse_token(s) == Some(model) <==> network_notation(s, model),
{
    let family = model.family;
    if parse_token(s) == Some(model) {
        reveal(parse_token);
        match parse_address(s) {
            Some((f, v)) => {
                law_addresses_read_their_notations(s, f, v);
                assert(address_notation(s, model.family, v));
            },
            None => {
                lemma_index_of(s, '/');
                let k = index_of(s, '/') as int;
                let (address, prefix) = (s.take(k), s.skip(k + 1));
                let (f, v) = parse_address(address)->0;
                let n = signed_decimal(prefix, 255)->0;
                law_addresses_read_their_notations(address, f, v);
                lemma_prefix_reads(prefix, n, 255);
                assert(s =~= address + seq!['/'] + prefix);
                assert(address_notation(address, model.family, v));
            },
        }
    }
    if exists|v: nat| #[trigger]
        address_notation(s, family, v) && model == network_at(family, v, family.width() as nat) {
        let v = choose|v: nat| #[trigger]
            address_notation(s, family, v) && model == network_at(
                family,
                v,
                family.width() as nat,
            );
        law_addresses_read_their_notations(s, family, v);
        reveal(parse_token);
    } else if network_notation(s, model) {
        let (address, v, prefix, n) = choose|
            address: Seq<char>,
            v: nat,
            prefix: Seq<char>,
            n: nat,
        |
            {
                &&& #[trigger] address_notation(address, family, v)
                &&& #[trigger] prefix_notation(prefix, n)
                &&& n <= family.width()
                &&& s == address + seq!['/'] + prefix
                &&& model == network_at(family, v, n)
            };
        lemma_sized_reads(address, family, v, prefix, n);
    }
}

/// A network holds exactly the addresses that share its leading bits with the address it was made
/// from.
pub proof fn law_network_holds_what_shares_its_prefix(
    family: AddressFamily,
    v: nat,
    prefix: nat,
    a: nat,
)
    requires
        prefix <= family.width(),
    ensures
        block_has(family.width(), network_at(family, v, prefix).block, a as int) <==> a as int
            / pow2((family.width() - prefix) as nat) as int == v as int / pow2(
            (family.width() - prefix) as nat,
        ) as int,
{
    let size = pow2((family.width() - prefix) as nat) as int;
    lemma_pow2_pos((family.width() - prefix) as nat);
    let base = v - v as int % size;
    vstd::arithmetic::div_mod::lemma_fundamental_div_mod(v as int, size);
    vstd::arithmetic::div_mod::lemma_fundamental_div_mod(a as int, size);
    vstd::arithmetic::div_mod::lemma_mod_bound(v as int, size);
    vstd::arithmetic::div_mod::lemma_mod_bound(a as int, size);
    let q = v as int / size;
    let r = a as int / size;
    assert(base == size * q);
    if base <= a <= base + size - 1 {
        assert(r == q) by (nonlinear_arith)
            requires
                size * q <= a,
                a <= size * q + size - 1,
                a == size * r + a as int % size,
                0 <= a as int % size < size,
                size > 0,
        ;
    }
    if r == q {
        assert(a == size * q + a as int % size);
    }
}

// Surroundings ----------------------------------------------------------------------------------

pub(crate) proof fn lemma_token_chars(s: Seq<char>)
    requires
        parse_token(s) is Some,
    ensures
        s.len() > 0,
        no_space(s),
        forall|i: int|
            0 <= i < s.len() ==> #[trigger] s[i] != '#' && s[i] != ',' && s[i] != '\n' && s[i] != '\r'
                && s[i] != '\u{feff}',
{
    let model = parse_token(s)->0;
    law_networks_read_their_notations(s, model);
    if exists|v: nat| #[trigger]
        address_notation(s, model.family, v) && model == network_at(
            model.family,
            v,
            model.family.width() as nat,
        ) {
        let v = choose|v: nat| #[trigger]
            address_notation(s, model.family, v) && model == network_at(
                model.family,
                v,
                model.family.width() as nat,
            );
        lemma_notation_chars(s, model.family, v);
        assert forall|i: int| 0 <= i < s.len() implies #[trigger] s[i] != '#' && s[i] != ','
            && s[i] != '\n' && s[i] != '\r' && s[i] != '\u{feff}' && !is_space(s[i]) by {
            lemma_notation_char(s[i]);
        }
    } else {
        let (address, v, prefix, n) = choose|
            address: Seq<char>,
            v: nat,
            prefix: Seq<char>,
            n: nat,
        |
            {
                &&& #[trigger] address_notation(address, model.family, v)
                &&& #[trigger] prefix_notation(prefix, n)
                &&& n <= model.family.width()
                &&& s == address + seq!['/'] + prefix
                &&& model == network_at(model.family, v, n)
            };
        lemma_notation_chars(address, model.family, v);
        let digits = if writes(prefix, n, 10) {
            prefix
        } else {
            prefix.drop_first()
        };
        lemma_writes_value(digits, n, 10);
        assert forall|i: int| 0 <= i < s.len() implies #[trigger] s[i] != '#' && s[i] != ','
            && s[i] != '\n' && s[i] != '\r' && s[i] != '\u{feff}' && !is_space(s[i]) by {
            let k = address.len();
            if i < k {
                assert(s[i] == address[i]);
                lemma_notation_char(s[i]);
            } else if i > k {
                assert(s[i] == prefix[i - k - 1]);
                let j = i - k - 1 - (prefix.len() - digits.len());
                if j >= 0 {
                    assert(s[i] == digits[j]);
                    assert(digit_value(digits[j]) < 10);
                    lemma_notation_char(s[i]);
                } else {
                    assert(s[i] == '+');
                }
            }
        }
    }
}

/// White space around exactly one word changes nothing for the strict reading, which takes the
/// word as the network it is a notation of.
pub proof fn law_strict_reading_takes_the_only_word(
    lead: Seq<char>,
    word: Seq<char>,
    tail: Seq<char>,
)
    requires
        all_space(lead),
        all_space(tail),
        no_space(word),
        word.len() > 0,
    ensures
        parse_strict(lead + word + tail) == parse_token(word),
{
    law_trimming_keeps_the_middle(lead, word, tail);
}

/// The strict reading takes no text with two words, and no blank one.
pub proof fn law_strict_reading_takes_no_second_word(s: Seq<char>, i: int, j: int, k: int)
    requires
        0 <= i < j < k < s.len(),
        !is_space(s[i]),
        is_space(s[j]),
        !is_space(s[k]),
    ensures
        parse_strict(s) is None,
{
    let a = trim_start(s);
    let t = trim_end(a);
    lemma_trim_start_shape(s);
    lemma_trim_end_shape(a);
    let cut = s.len() - a.len();
    lemma_trim_bounds(s, i, k);
    assert(t[j - cut] == s[j]);
}

proof fn lemma_trim_bounds(s: Seq<char>, i: int, k: int)
    requires
        0 <= i <= k < s.len(),
        !is_space(s[i]),
        !is_space(s[k]),
    ensures
        s.len() - trim_start(s).len() <= i,
        s.len() - trim_start(s).len() + trim(s).len() > k,
        trim(s) == s.subrange(
            s.len() - trim_start(s).len(),
            s.len() - trim_start(s).len() + trim(s).len(),
        ),
{
    let a = trim_start(s);
    lemma_trim_start_shape(s);
    lemma_trim_end_shape(a);
    lemma_start_bound(s, i);
    let cut = s.len() - a.len();
    assert(a[k - cut] == s[k]);
    lemma_end_bound(a, k - cut);
    assert(trim(s) =~= s.subrange(cut, cut + trim(s).len()));
}

pub(crate) proof fn lemma_start_bound(s: Seq<char>, i: int)
    requires
        0 <= i < s.len(),
        !is_space(s[i]),
    ensures
        s.len() - trim_start(s).len() <= i,
    decreases s.len(),
{
    if is_space(s[0]) {
        assert(s.drop_first()[i - 1] == s[i]);
        lemma_start_bound(s.drop_first(), i - 1);
    }
}

pub(crate) proof fn lemma_end_bound(s: Seq<char>, k: int)
    requires
        0 <= k < s.len(),
        !is_space(s[k]),
    ensures
        trim_end(s).len() > k,
    decreases s.len(),
{
    if is_space(s.last()) {
        assert(s.drop_last()[k] == s[k]);
        lemma_end_bound(s.drop_last(), k);
    }
}

/// The lenient reading takes the first word, whatever follows it.
pub proof fn law_lenient_reading_takes_the_first_word(
    lead: Seq<char>,
    word: Seq<char>,
    rest: Seq<char>,
)
    requires
        all_space(lead),
        no_space(word),
        word.len() > 0,
        rest.len() > 0 ==> is_space(rest[0]),
    ensures
        parse_non_strict(lead + word + rest) == parse_token(word),
{
    law_first_word_ends_at_white_space(lead, word, rest);
}

} // verus!
