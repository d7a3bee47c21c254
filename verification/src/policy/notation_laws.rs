//! Which texts are addresses, and of which value.

use crate::numerals::{
    all_digits, decimal, digit_char, digit_value, lemma_numeral, numeral, numeral_value,
};
use crate::policy::addr_text::{
    double_colon, group_values, groups_value, hex_group, ipv4_parts, ipv4_text, octet, parse_ipv4,
    parse_ipv6, side_values, zero_groups,
};
use crate::policy::addr_text_laws::{
    law_ipv4_text_reads_back, lemma_double_colon_at, lemma_ipv4_text_chars, lemma_no_dot_not_ipv4,
    tidy,
};
use crate::text::{
    index_of, join_with, lemma_index_of, lemma_split_join, lemma_split_nonempty, split_on,
};
use vstd::prelude::*;

verus! {

// Numerals --------------------------------------------------------------------------------------

/// The character is the digit, in either case.
pub open spec fn is_digit_of(c: char, digit: char) -> bool {
    ||| c == digit
    ||| digit == 'a' && c == 'A'
    ||| digit == 'b' && c == 'B'
    ||| digit == 'c' && c == 'C'
    ||| digit == 'd' && c == 'D'
    ||| digit == 'e' && c == 'E'
    ||| digit == 'f' && c == 'F'
}

/// The text is the shortest numeral of the number, its digits in either case, behind any number of
/// zeros.
pub open spec fn writes(s: Seq<char>, n: nat, base: nat) -> bool {
    let shortest = numeral(n, base);
    let zeros = s.len() - shortest.len();
    &&& zeros >= 0
    &&& forall|i: int| 0 <= i < zeros ==> #[trigger] s[i] == '0'
    &&& forall|i: int| zeros <= i < s.len() ==> is_digit_of(#[trigger] s[i], shortest[i - zeros])
}

/// Digits have their value in either case.
pub proof fn law_digits_read_in_either_case(c: char)
    ensures
        digit_value(c) < 10 <==> '0' <= c <= '9',
        digit_value(c) < 16 <==> '0' <= c <= '9' || 'a' <= c <= 'f' || 'A' <= c <= 'F',
        '0' <= c <= '9' ==> digit_value(c) == c as u32 - '0' as u32,
        'a' <= c <= 'f' ==> digit_value(c) == 10 + (c as u32 - 'a' as u32),
        'A' <= c <= 'F' ==> digit_value(c) == 10 + (c as u32 - 'A' as u32),
{
}

proof fn lemma_digit_of(c: char, d: nat)
    requires
        d < 16,
    ensures
        is_digit_of(c, digit_char(d)) <==> digit_value(c) == d,
        d < 10 && is_digit_of(c, digit_char(d)) ==> c == digit_char(d),
        d == 0 ==> digit_char(d) == '0',
{
}

/// Digits denote a number that they are a numeral of.
pub(crate) proof fn lemma_value_writes(s: Seq<char>, base: nat)
    requires
        2 <= base <= 16,
        s.len() > 0,
        all_digits(s, base),
    ensures
        writes(s, numeral_value(s, base), base),
    decreases s.len(),
{
    let n = numeral_value(s, base);
    let front = s.drop_last();
    let q = numeral_value(front, base);
    let d = digit_value(s.last());
    assert(d < base) by {
        assert(digit_value(s[s.len() - 1]) < base);
    }
    lemma_digit_of(s.last(), d);
    let shortest = numeral(n, base);
    if s.len() == 1 {
        assert(q == 0);
        assert(n == d) by (nonlinear_arith)
            requires
                n == q * base + d,
                q == 0,
        ;
        assert(shortest == seq![digit_char(d)]);
    } else {
        assert forall|i: int| 0 <= i < front.len() implies digit_value(#[trigger] front[i])
            < base by {
            assert(front[i] == s[i]);
        }
        lemma_value_writes(front, base);
        let before = numeral(q, base);
        if q == 0 {
            assert(n == d) by (nonlinear_arith)
                requires
                    n == q * base + d,
                    q == 0,
            ;
            lemma_numeral(0, base);
            assert(before == seq!['0']);
            assert(shortest == seq![digit_char(d)]);
            let zeros = s.len() - 1;
            assert forall|i: int| 0 <= i < zeros implies #[trigger] s[i] == '0' by {
                assert(front[i] == s[i]);
                if i == front.len() - 1 {
                    lemma_digit_of(front[i], 0);
                    assert(is_digit_of(front[i], before[0]));
                }
            }
        } else {
            assert(n >= base && n / base == q && n % base == d) by {
                assert(q * base >= base) by (nonlinear_arith)
                    requires
                        q >= 1,
                        base >= 2,
                ;
                vstd::arithmetic::div_mod::lemma_fundamental_div_mod_converse(
                    n as int,
                    base as int,
                    q as int,
                    d as int,
                );
            }
            assert(shortest == before.push(digit_char(d)));
            let zeros = s.len() - shortest.len();
            assert forall|i: int| 0 <= i < zeros implies #[trigger] s[i] == '0' by {
                assert(front[i] == s[i]);
            }
            assert forall|i: int| zeros <= i < s.len() implies is_digit_of(
                #[trigger] s[i],
                shortest[i - zeros],
            ) by {
                if i < s.len() - 1 {
                    assert(front[i] == s[i]);
                    assert(is_digit_of(front[i], before[i - zeros]));
                }
            }
        }
    }
}

/// Digits of equal value denote the same number.
proof fn lemma_same_value(a: Seq<char>, b: Seq<char>, base: nat)
    requires
        a.len() == b.len(),
        forall|i: int| 0 <= i < a.len() ==> digit_value(#[trigger] a[i]) == digit_value(b[i]),
    ensures
        numeral_value(a, base) == numeral_value(b, base),
    decreases a.len(),
{
    if a.len() > 0 {
        assert forall|i: int| 0 <= i < a.len() - 1 implies digit_value(#[trigger] a.drop_last()[i])
            == digit_value(b.drop_last()[i]) by {
            assert(a[i] == a.drop_last()[i]);
        }
        lemma_same_value(a.drop_last(), b.drop_last(), base);
        assert(digit_value(a[a.len() - 1]) == digit_value(b[b.len() - 1]));
    }
}

/// Leading zeros change nothing.
proof fn lemma_leading_zeros(s: Seq<char>, k: int, base: nat)
    requires
        0 <= k <= s.len(),
        forall|i: int| 0 <= i < k ==> #[trigger] s[i] == '0',
    ensures
        numeral_value(s, base) == numeral_value(s.skip(k), base),
    decreases s.len(),
{
    if s.len() == k {
        assert(s.skip(k) =~= Seq::<char>::empty());
        if k > 0 {
            let front = s.drop_last();
            assert forall|i: int| 0 <= i < k - 1 implies #[trigger] front[i] == '0' by {
                assert(front[i] == s[i]);
            }
            lemma_leading_zeros(front, k - 1, base);
            assert(front.skip(k - 1) =~= Seq::<char>::empty());
            assert(numeral_value(front, base) == 0);
            assert(s[s.len() - 1] == '0');
            assert(digit_value('0') == 0);
            assert(0 * base == 0) by (nonlinear_arith);
        }
    } else {
        let front = s.drop_last();
        assert forall|i: int| 0 <= i < k implies #[trigger] front[i] == '0' by {
            assert(front[i] == s[i]);
        }
        lemma_leading_zeros(front, k, base);
        assert(s.skip(k).drop_last() =~= front.skip(k));
        assert(s.skip(k).last() == s.last());
    }
}

/// A numeral denotes its number, however many zeros lead it and in either case.
pub(crate) proof fn lemma_writes_value(s: Seq<char>, n: nat, base: nat)
    requires
        2 <= base <= 16,
        writes(s, n, base),
    ensures
        s.len() > 0,
        all_digits(s, base),
        numeral_value(s, base) == n,
{
    let shortest = numeral(n, base);
    let zeros = s.len() - shortest.len();
    lemma_numeral(n, base);
    let rest = s.skip(zeros);
    assert forall|i: int| 0 <= i < rest.len() implies digit_value(#[trigger] rest[i])
        == digit_value(shortest[i]) by {
        assert(rest[i] == s[zeros + i]);
        assert(is_digit_of(s[zeros + i], shortest[i]));
        let d = digit_value(shortest[i]);
        assert(d < base);
        assert(shortest[i] == digit_char(d));
        lemma_digit_of(rest[i], d);
    }
    lemma_same_value(rest, shortest, base);
    lemma_leading_zeros(s, zeros, base);
    assert forall|i: int| 0 <= i < s.len() implies digit_value(#[trigger] s[i]) < base by {
        if i >= zeros {
            assert(s[i] == rest[i - zeros]);
            assert(digit_value(shortest[i - zeros]) < base);
        } else {
            assert(digit_value('0') == 0);
        }
    }
}

// IPv4 ------------------------------------------------------------------------------------------

proof fn lemma_octet_is_decimal(s: Seq<char>)
    ensures
        octet(s) matches Some(x) ==> x < 256 && s == decimal(x),
{
    if let Some(x) = octet(s) {
        lemma_value_writes(s, 10);
        let shortest = numeral(x, 10);
        let zeros = s.len() - shortest.len();
        lemma_numeral(x, 10);
        if zeros > 0 {
            assert(s[0] == '0');
        }
        assert forall|i: int| 0 <= i < s.len() implies #[trigger] s[i] == shortest[i] by {
            let d = digit_value(shortest[i]);
            assert(is_digit_of(s[i], shortest[i]));
            assert(d < 10);
            assert(shortest[i] == digit_char(d));
            lemma_digit_of(s[i], d);
        }
        assert(s =~= decimal(x));
    }
}

/// Joining what was split gives the text back.
proof fn lemma_join_split(s: Seq<char>, c: char)
    ensures
        join_with(split_on(s, c), c) == s,
        forall|i: int, k: int|
            0 <= i < split_on(s, c).len() && 0 <= k < split_on(s, c)[i].len()
                ==> #[trigger] split_on(s, c)[i][k] != c,
    decreases s.len(),
{
    lemma_index_of(s, c);
    let n = index_of(s, c) as int;
    let parts = split_on(s, c);
    if n < s.len() {
        let rest = s.skip(n + 1);
        lemma_join_split(rest, c);
        lemma_split_nonempty(rest, c);
        let more = split_on(rest, c);
        assert(parts.drop_first() =~= more);
        assert(parts[0] == s.take(n));
        assert(join_with(parts, c) == parts[0].push(c) + join_with(more, c));
        assert(s.take(n).push(c) + rest =~= s);
        assert forall|i: int, k: int|
            0 <= i < parts.len() && 0 <= k < parts[i].len() implies #[trigger] parts[i][k] != c by {
            if i > 0 {
                assert(parts[i] == more[i - 1]);
                assert(more[i - 1][k] != c);
            }
        }
    }
}

/// Four numbers in decimal notation between dots.
pub open spec fn dotted(a: nat, b: nat, c: nat, d: nat) -> Seq<char> {
    decimal(a) + seq!['.'] + decimal(b) + seq!['.'] + decimal(c) + seq!['.'] + decimal(d)
}

proof fn lemma_dotted(a: nat, b: nat, c: nat, d: nat)
    ensures
        join_with(seq![decimal(a), decimal(b), decimal(c), decimal(d)], '.') == dotted(a, b, c, d),
{
    let parts = seq![decimal(a), decimal(b), decimal(c), decimal(d)];
    let p1 = parts.drop_first();
    let p2 = p1.drop_first();
    let p3 = p2.drop_first();
    assert(join_with(p3, '.') == decimal(d));
    assert(join_with(p2, '.') == decimal(c).push('.') + join_with(p3, '.'));
    assert(join_with(p1, '.') == decimal(b).push('.') + join_with(p2, '.'));
    assert(join_with(parts, '.') == decimal(a).push('.') + join_with(p1, '.'));
    assert(join_with(parts, '.') =~= dotted(a, b, c, d));
}

/// The four numbers of an address.
proof fn lemma_octets_of(a: nat, b: nat, c: nat, d: nat)
    requires
        a < 256,
        b < 256,
        c < 256,
        d < 256,
    ensures
        ({
            let v = a * 0x100_0000 + b * 0x1_0000 + c * 0x100 + d;
            &&& v < 0x1_0000_0000
            &&& v / 0x100_0000 == a
            &&& (v / 0x1_0000) % 0x100 == b
            &&& (v / 0x100) % 0x100 == c
            &&& v % 0x100 == d
        }),
{
    let v = a * 0x100_0000 + b * 0x1_0000 + c * 0x100 + d;
    assert(v / 0x100 == a * 0x1_0000 + b * 0x100 + c);
    assert(v / 0x1_0000 == a * 0x100 + b);
}

/// An IPv4 address is four numbers below 256 in decimal notation, without leading zeros, between
/// dots, and every such text is one: it reads as the number with these four bytes, the first one
/// the most significant.
pub proof fn law_ipv4_reads_four_octets(s: Seq<char>, v: nat)
    ensures
        parse_ipv4(s) == Some(v) <==> exists|a: nat, b: nat, c: nat, d: nat|
            a < 256 && b < 256 && c < 256 && d < 256 && v == a * 0x100_0000 + b * 0x1_0000 + c
                * 0x100 + d && s == #[trigger] dotted(a, b, c, d),
{
    if parse_ipv4(s) == Some(v) {
        let parts = split_on(s, '.');
        lemma_join_split(s, '.');
        lemma_octet_is_decimal(parts[0]);
        lemma_octet_is_decimal(parts[1]);
        lemma_octet_is_decimal(parts[2]);
        lemma_octet_is_decimal(parts[3]);
        let (a, b, c, d) = (
            octet(parts[0])->0,
            octet(parts[1])->0,
            octet(parts[2])->0,
            octet(parts[3])->0,
        );
        assert(parts =~= seq![decimal(a), decimal(b), decimal(c), decimal(d)]);
        lemma_dotted(a, b, c, d);
    }
    if exists|a: nat, b: nat, c: nat, d: nat|
        a < 256 && b < 256 && c < 256 && d < 256 && v == a * 0x100_0000 + b * 0x1_0000 + c * 0x100
            + d && s == #[trigger] dotted(a, b, c, d) {
        let (a, b, c, d) = choose|a: nat, b: nat, c: nat, d: nat|
            a < 256 && b < 256 && c < 256 && d < 256 && v == a * 0x100_0000 + b * 0x1_0000 + c
                * 0x100 + d && s == #[trigger] dotted(a, b, c, d);
        lemma_octets_of(a, b, c, d);
        assert(ipv4_parts(v) =~= seq![decimal(a), decimal(b), decimal(c), decimal(d)]);
        lemma_dotted(a, b, c, d);
        law_ipv4_text_reads_back(v);
    }
}

/// The text of an IPv4 address is its four bytes in decimal notation between dots; it is the only
/// text that reads as the address.
pub proof fn law_ipv4_text_is_its_octets(a: nat, b: nat, c: nat, d: nat)
    requires
        a < 256,
        b < 256,
        c < 256,
        d < 256,
    ensures
        ({
            let v = a * 0x100_0000 + b * 0x1_0000 + c * 0x100 + d;
            &&& ipv4_text(v) == dotted(a, b, c, d)
            &&& forall|s: Seq<char>| #[trigger] parse_ipv4(s) == Some(v) ==> s == ipv4_text(v)
        }),
{
    let v = a * 0x100_0000 + b * 0x1_0000 + c * 0x100 + d;
    lemma_octets_of(a, b, c, d);
    assert(ipv4_parts(v) =~= seq![decimal(a), decimal(b), decimal(c), decimal(d)]);
    lemma_dotted(a, b, c, d);
    assert forall|s: Seq<char>| #[trigger] parse_ipv4(s) == Some(v) implies s == ipv4_text(v) by {
        lemma_ipv4_unique(s);
    }
}

pub(crate) proof fn lemma_ipv4_unique(s: Seq<char>)
    ensures
        parse_ipv4(s) matches Some(v) ==> v < 0x1_0000_0000 && s == ipv4_text(v),
{
    if let Some(v) = parse_ipv4(s) {
        law_ipv4_reads_four_octets(s, v);
        let (a, b, c, d) = choose|a: nat, b: nat, c: nat, d: nat|
            a < 256 && b < 256 && c < 256 && d < 256 && v == a * 0x100_0000 + b * 0x1_0000 + c
                * 0x100 + d && s == #[trigger] dotted(a, b, c, d);
        lemma_octets_of(a, b, c, d);
        assert(ipv4_parts(v) =~= seq![decimal(a), decimal(b), decimal(c), decimal(d)]);
        lemma_dotted(a, b, c, d);
    }
}

// IPv6 ------------------------------------------------------------------------------------------

/// The text is a group of an IPv6 address: one to four hexadecimal digits.
pub open spec fn writes_group(s: Seq<char>, g: nat) -> bool {
    g < 0x1_0000 && s.len() <= 4 && writes(s, g, 16)
}

/// A group reads as its value, with any zeros in front that leave it at most four digits and in
/// either case, and nothing else is a group.
pub proof fn law_groups_read_with_leading_zeros(s: Seq<char>, g: nat)
    ensures
        hex_group(s) == Some(g) <==> writes_group(s, g),
{
    if hex_group(s) == Some(g) {
        lemma_value_writes(s, 16);
    }
    if writes_group(s, g) {
        lemma_writes_value(s, g, 16);
    }
}

/// The parts spell the groups; where `dotted` holds the last part is a dotted IPv4 address, which
/// stands for two groups.
pub open spec fn spells(parts: Seq<Seq<char>>, groups: Seq<nat>, dotted: bool) -> bool {
    if dotted {
        &&& parts.len() > 0
        &&& groups.len() == parts.len() + 1
        &&& forall|i: int| 0 <= i < parts.len() - 1 ==> writes_group(#[trigger] parts[i], groups[i])
        &&& exists|v: nat|
            v < 0x1_0000_0000 && parts.last() == #[trigger] ipv4_text(v) && groups[groups.len() - 2]
                == v / 0x1_0000 && groups[groups.len() - 1] == v % 0x1_0000
    } else {
        &&& groups.len() == parts.len()
        &&& forall|i: int| 0 <= i < parts.len() ==> writes_group(#[trigger] parts[i], groups[i])
    }
}

/// Number with eight groups, the first one the most significant.
pub open spec fn eight_groups(g: Seq<nat>) -> nat {
    (((((((g[0] * 0x1_0000 + g[1]) * 0x1_0000 + g[2]) * 0x1_0000 + g[3]) * 0x1_0000 + g[4])
        * 0x1_0000 + g[5]) * 0x1_0000 + g[6]) * 0x1_0000 + g[7]) as nat
}

/// Eight groups between colons.
pub open spec fn full_notation(s: Seq<char>, v: nat) -> bool {
    exists|parts: Seq<Seq<char>>, groups: Seq<nat>, dotted: bool|
        {
            &&& #[trigger] spells(parts, groups, dotted)
            &&& groups.len() == 8
            &&& s == join_with(parts, ':')
            &&& v == eight_groups(groups)
        }
}

/// Groups with zero groups between them, at least one.
pub open spec fn zeros_between(high: Seq<nat>, low: Seq<nat>) -> Seq<nat> {
    high + Seq::new((8 - high.len() - low.len()) as nat, |i: int| 0nat) + low
}

/// Fewer than eight groups around one `::` that stands for the missing zeros.
pub open spec fn compressed_notation(s: Seq<char>, v: nat) -> bool {
    exists|
        head: Seq<Seq<char>>,
        high: Seq<nat>,
        tail: Seq<Seq<char>>,
        low: Seq<nat>,
        dotted: bool,
    |
        {
            &&& #[trigger] spells(head, high, false)
            &&& #[trigger] spells(tail, low, dotted)
            &&& high.len() + low.len() <= 7
            &&& s == join_with(head, ':') + seq![':', ':'] + join_with(tail, ':')
            &&& v == eight_groups(zeros_between(high, low))
        }
}

/// The text is a notation of the IPv6 address: eight groups between colons, or fewer around one
/// `::` that stands for one zero group or more; the last two groups may be a dotted IPv4 address.
pub open spec fn ipv6_notation(s: Seq<char>, v: nat) -> bool {
    full_notation(s, v) || compressed_notation(s, v)
}

proof fn lemma_eight_groups(g: Seq<nat>)
    requires
        g.len() == 8,
    ensures
        groups_value(g) == eight_groups(g),
{
    let g7 = g.drop_last();
    let g6 = g7.drop_last();
    let g5 = g6.drop_last();
    let g4 = g5.drop_last();
    let g3 = g4.drop_last();
    let g2 = g3.drop_last();
    let g1 = g2.drop_last();
    let g0 = g1.drop_last();
    assert(groups_value(g0) == 0);
    assert(groups_value(g1) == g[0]);
    assert(groups_value(g2) == g[0] * 0x1_0000 + g[1]);
    assert(groups_value(g3) == groups_value(g2) * 0x1_0000 + g[2]);
    assert(groups_value(g4) == groups_value(g3) * 0x1_0000 + g[3]);
    assert(groups_value(g5) == groups_value(g4) * 0x1_0000 + g[4]);
    assert(groups_value(g6) == groups_value(g5) * 0x1_0000 + g[5]);
    assert(groups_value(g7) == groups_value(g6) * 0x1_0000 + g[6]);
    assert(groups_value(g) == groups_value(g7) * 0x1_0000 + g[7]);
}

/// A part is not empty and holds neither colon nor, where it is a group, dot.
proof fn lemma_group_chars(s: Seq<char>, g: nat)
    requires
        writes_group(s, g),
    ensures
        s.len() > 0,
        forall|i: int| 0 <= i < s.len() ==> #[trigger] s[i] != ':' && s[i] != '.',
{
    lemma_writes_value(s, g, 16);
    assert forall|i: int| 0 <= i < s.len() implies #[trigger] s[i] != ':' && s[i] != '.' by {
        assert(digit_value(s[i]) < 16);
    }
}

pub(crate) proof fn lemma_part_chars(parts: Seq<Seq<char>>, groups: Seq<nat>, dotted: bool)
    requires
        spells(parts, groups, dotted),
    ensures
        forall|i: int| 0 <= i < parts.len() ==> (#[trigger] parts[i]).len() > 0,
        forall|i: int, k: int|
            0 <= i < parts.len() && 0 <= k < parts[i].len() ==> #[trigger] parts[i][k] != ':',
{
    assert forall|i: int| 0 <= i < parts.len() implies (#[trigger] parts[i]).len() > 0 && forall|
        k: int,
    | 0 <= k < parts[i].len() ==> #[trigger] parts[i][k] != ':' by {
        if dotted && i == parts.len() - 1 {
            let v = choose|v: nat|
                v < 0x1_0000_0000 && parts.last() == #[trigger] ipv4_text(v) && groups[groups.len()
                    - 2] == v / 0x1_0000 && groups[groups.len() - 1] == v % 0x1_0000;
            lemma_ipv4_text_chars(v);
        } else {
            lemma_group_chars(parts[i], groups[i]);
        }
    }
}

/// Spelled groups read.
proof fn lemma_spelled_reads(parts: Seq<Seq<char>>, groups: Seq<nat>, dotted: bool, v4_last: bool)
    requires
        spells(parts, groups, dotted),
        dotted ==> v4_last,
    ensures
        group_values(parts, v4_last) == Some(groups),
    decreases parts.len(),
{
    if parts.len() == 0 {
        assert(groups =~= Seq::<nat>::empty());
    } else {
        let front = parts.drop_last();
        let last = parts.last();
        if dotted {
            let v = choose|v: nat|
                v < 0x1_0000_0000 && last == #[trigger] ipv4_text(v) && groups[groups.len() - 2]
                    == v / 0x1_0000 && groups[groups.len() - 1] == v % 0x1_0000;
            law_ipv4_text_reads_back(v);
            let head = groups.take(groups.len() - 2);
            assert forall|i: int| 0 <= i < front.len() implies writes_group(
                #[trigger] front[i],
                head[i],
            ) by {
                assert(front[i] == parts[i]);
            }
            lemma_spelled_reads(front, head, false, false);
            assert(head.push(v / 0x1_0000).push(v % 0x1_0000) =~= groups);
        } else {
            let head = groups.drop_last();
            assert forall|i: int| 0 <= i < front.len() implies writes_group(
                #[trigger] front[i],
                head[i],
            ) by {
                assert(front[i] == parts[i]);
            }
            lemma_spelled_reads(front, head, false, false);
            assert(writes_group(parts[parts.len() - 1], groups[groups.len() - 1]));
            law_groups_read_with_leading_zeros(last, groups.last());
            lemma_group_chars(last, groups.last());
            lemma_no_dot_not_ipv4(last);
            assert(head.push(groups.last()) =~= groups);
        }
    }
}

/// Groups that read are spelled.
proof fn lemma_read_is_spelled(parts: Seq<Seq<char>>, v4_last: bool) -> (dotted: bool)
    requires
        group_values(parts, v4_last) is Some,
    ensures
        spells(parts, group_values(parts, v4_last)->0, dotted),
        dotted ==> v4_last,
    decreases parts.len(),
{
    let groups = group_values(parts, v4_last)->0;
    if parts.len() == 0 {
        false
    } else {
        let front = parts.drop_last();
        let last = parts.last();
        let head = group_values(front, false)->0;
        let inner = lemma_read_is_spelled(front, false);
        assert(!inner);
        assert forall|i: int| 0 <= i < front.len() implies writes_group(
            #[trigger] parts[i],
            groups[i],
        ) by {
            assert(parts[i] == front[i]);
            assert(writes_group(front[i], head[i]));
            assert(groups[i] == head[i]);
        }
        if v4_last && parse_ipv4(last) is Some {
            let v = parse_ipv4(last)->0;
            lemma_ipv4_unique(last);
            assert(groups == head.push(v / 0x1_0000).push(v % 0x1_0000));
            assert(parts.last() == ipv4_text(v));
            true
        } else {
            law_groups_read_with_leading_zeros(last, hex_group(last)->0);
            assert(groups == head.push(hex_group(last)->0));
            assert forall|i: int| 0 <= i < parts.len() implies writes_group(
                #[trigger] parts[i],
                groups[i],
            ) by {
                if i < front.len() {
                    assert(parts[i] == front[i]);
                }
            }
            false
        }
    }
}

/// Parts without colons, none empty, joined by colons have no two colons side by side.
#[verifier::spinoff_prover]
#[verifier::rlimit(40)]
proof fn lemma_join_tidy(parts: Seq<Seq<char>>)
    requires
        forall|i: int| 0 <= i < parts.len() ==> (#[trigger] parts[i]).len() > 0,
        forall|i: int, k: int|
            0 <= i < parts.len() && 0 <= k < parts[i].len() ==> #[trigger] parts[i][k] != ':',
    ensures
        tidy(join_with(parts, ':')),
        parts.len() > 0 <==> join_with(parts, ':').len() > 0,
    decreases parts.len(),
{
    let s = join_with(parts, ':');
    if parts.len() == 0 {
    } else if parts.len() == 1 {
        assert(s == parts[0]);
        assert forall|i: int| 0 <= i < s.len() implies #[trigger] s[i] != ':' by {
            assert(parts[0][i] != ':');
        }
        assert(parts[0].len() > 0);
    } else {
        let rest = parts.drop_first();
        assert forall|i: int| 0 <= i < rest.len() implies (#[trigger] rest[i]).len() > 0 by {
            assert(rest[i] == parts[i + 1]);
        }
        assert forall|i: int, k: int|
            0 <= i < rest.len() && 0 <= k < rest[i].len() implies #[trigger] rest[i][k] != ':' by {
            assert(rest[i] == parts[i + 1]);
            assert(parts[i + 1][k] != ':');
        }
        lemma_join_tidy(rest);
        let n = parts[0].len() as int;
        assert(n > 0);
        let t = join_with(rest, ':');
        assert(s =~= parts[0].push(':') + t);
        assert forall|i: int| 0 <= i < s.len() - 1 implies !(#[trigger] s[i] == ':' && s[i + 1]
            == ':') by {
            if i < n {
                assert(s[i] == parts[0][i]);
                assert(parts[0][i] != ':');
            } else if i == n {
                assert(s[i + 1] == t[0]);
            } else {
                assert(s[i] == t[i - n - 1]);
                assert(s[i + 1] == t[i - n]);
                assert(!(t[i - n - 1] == ':' && t[i - n - 1 + 1] == ':'));
            }
        }
        assert(parts[0][0] != ':');
        assert(s[0] == parts[0][0]);
        assert(s.last() == t.last());
    }
}

proof fn lemma_side(parts: Seq<Seq<char>>, groups: Seq<nat>, dotted: bool, v4_last: bool)
    requires
        spells(parts, groups, dotted),
        dotted ==> v4_last,
    ensures
        side_values(join_with(parts, ':'), v4_last) == Some(groups),
        tidy(join_with(parts, ':')),
{
    lemma_part_chars(parts, groups, dotted);
    lemma_join_tidy(parts);
    if parts.len() == 0 {
        assert(groups =~= Seq::<nat>::empty());
    } else {
        lemma_split_join(parts, ':');
        lemma_spelled_reads(parts, groups, dotted, v4_last);
    }
}

/// Eight groups between colons read as the address with these groups.
pub proof fn law_eight_groups_read(parts: Seq<Seq<char>>, groups: Seq<nat>, dotted: bool)
    requires
        spells(parts, groups, dotted),
        groups.len() == 8,
    ensures
        parse_ipv6(join_with(parts, ':')) == Some(eight_groups(groups)),
{
    let s = join_with(parts, ':');
    lemma_part_chars(parts, groups, dotted);
    lemma_join_tidy(parts);
    lemma_double_colon_at(s, s.len() as int);
    lemma_split_join(parts, ':');
    lemma_spelled_reads(parts, groups, dotted, true);
    lemma_eight_groups(groups);
}

/// Groups around a `::` read as the address with these groups at its ends and zeros between.
pub proof fn law_compressed_groups_read(
    head: Seq<Seq<char>>,
    high: Seq<nat>,
    tail: Seq<Seq<char>>,
    low: Seq<nat>,
    dotted: bool,
)
    requires
        spells(head, high, false),
        spells(tail, low, dotted),
        high.len() + low.len() <= 7,
    ensures
        parse_ipv6(join_with(head, ':') + seq![':', ':'] + join_with(tail, ':')) == Some(
            eight_groups(zeros_between(high, low)),
        ),
{
    let hs = join_with(head, ':');
    let ts = join_with(tail, ':');
    let s = hs + seq![':', ':'] + ts;
    lemma_side(head, high, false, false);
    lemma_side(tail, low, dotted, true);
    let d = hs.len() as int;
    assert forall|k: int| 0 <= k < d && k < s.len() - 1 implies !(#[trigger] s[k] == ':' && s[k + 1]
        == ':') by {
        assert(s[k] == hs[k]);
        if k + 1 < d {
            assert(s[k + 1] == hs[k + 1]);
            assert(!(hs[k] == ':' && hs[k + 1] == ':'));
        } else {
            assert(hs[k] == hs.last());
        }
    }
    assert(s[d] == ':' && s[d + 1] == ':');
    lemma_double_colon_at(s, d);
    assert(s.take(d) =~= hs);
    assert(s.skip(d + 2) =~= ts);
    let zeros = Seq::new((8 - high.len() - low.len()) as nat, |i: int| 0nat);
    assert(zeros =~= zero_groups((8 - high.len() - low.len()) as nat));
    lemma_eight_groups(high + zeros + low);
}

proof fn lemma_double_colon(s: Seq<char>)
    ensures
        double_colon(s) <= s.len(),
        double_colon(s) < s.len() ==> double_colon(s) + 2 <= s.len() && s[double_colon(s) as int]
            == ':' && s[double_colon(s) as int + 1] == ':',
    decreases s.len(),
{
    if s.len() > 0 {
        lemma_double_colon(s.drop_first());
    }
}

proof fn lemma_full_is_notation(s: Seq<char>)
    requires
        parse_ipv6(s) is Some,
        double_colon(s) == s.len(),
    ensures
        full_notation(s, parse_ipv6(s)->0),
{
    let parts = split_on(s, ':');
    let groups = group_values(parts, true)->0;
    lemma_join_split(s, ':');
    let dotted = lemma_read_is_spelled(parts, true);
    lemma_eight_groups(groups);
    assert(spells(parts, groups, dotted));
}

proof fn lemma_side_is_spelled(s: Seq<char>, v4_last: bool) -> (out: (Seq<Seq<char>>, bool))
    requires
        side_values(s, v4_last) is Some,
    ensures
        spells(out.0, side_values(s, v4_last)->0, out.1),
        out.1 ==> v4_last,
        join_with(out.0, ':') == s,
{
    if s.len() == 0 {
        let parts = Seq::<Seq<char>>::empty();
        assert(join_with(parts, ':') =~= s);
        assert(spells(parts, Seq::<nat>::empty(), false));
        (parts, false)
    } else {
        let parts = split_on(s, ':');
        lemma_join_split(s, ':');
        let dotted = lemma_read_is_spelled(parts, v4_last);
        (parts, dotted)
    }
}

proof fn lemma_compressed_is_notation(s: Seq<char>)
    requires
        parse_ipv6(s) is Some,
        double_colon(s) < s.len(),
    ensures
        compressed_notation(s, parse_ipv6(s)->0),
{
    let d = double_colon(s) as int;
    lemma_double_colon(s);
    let (front, back) = (s.take(d), s.skip(d + 2));
    let (high, low) = (side_values(front, false)->0, side_values(back, true)->0);
    let (head, none) = lemma_side_is_spelled(front, false);
    let (tail, dotted) = lemma_side_is_spelled(back, true);
    assert(spells(head, high, false));
    assert(spells(tail, low, dotted));
    assert(s =~= front + seq![':', ':'] + back);
    let zeros = zero_groups((8 - high.len() - low.len()) as nat);
    assert(zeros_between(high, low) =~= high + zeros + low);
    lemma_eight_groups(high + zeros + low);
}

/// A text reads as an IPv6 address exactly when it is a notation of it.
pub proof fn law_ipv6_reads_its_notations(s: Seq<char>, v: nat)
    ensures
        parse_ipv6(s) == Some(v) <==> ipv6_notation(s, v),
{
    lemma_double_colon(s);
    if parse_ipv6(s) == Some(v) {
        if double_colon(s) == s.len() {
            lemma_full_is_notation(s);
        } else {
            lemma_compressed_is_notation(s);
        }
    }
    if full_notation(s, v) {
        let (parts, groups, dotted) = choose|
            parts: Seq<Seq<char>>,
            groups: Seq<nat>,
            dotted: bool,
        |
            {
                &&& #[trigger] spells(parts, groups, dotted)
                &&& groups.len() == 8
                &&& s == join_with(parts, ':')
                &&& v == eight_groups(groups)
            };
        law_eight_groups_read(parts, groups, dotted);
    }
    if compressed_notation(s, v) {
        let (head, high, tail, low, dotted) = choose|
            head: Seq<Seq<char>>,
            high: Seq<nat>,
            tail: Seq<Seq<char>>,
            low: Seq<nat>,
            dotted: bool,
        |
            {
                &&& #[trigger] spells(head, high, false)
                &&& #[trigger] spells(tail, low, dotted)
                &&& high.len() + low.len() <= 7
                &&& s == join_with(head, ':') + seq![':', ':'] + join_with(tail, ':')
                &&& v == eight_groups(zeros_between(high, low))
            };
        law_compressed_groups_read(head, high, tail, low, dotted);
    }
}

} // verus!
