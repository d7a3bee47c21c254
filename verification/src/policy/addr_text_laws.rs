//! Written addresses read back, and hold no other characters than digits, dots and colons.

use crate::numerals::{
    all_digits, decimal, digit_char, digit_value, lemma_digit_char, lemma_numeral,
    lemma_numeral_len, numeral, numeral_value,
};
use crate::policy::addr_text::{
    compressed_text, double_colon, group_values, groups_value, hex_group, hex_join, hex_parts,
    ipv4_parts, ipv4_text, ipv6_text, is_best_run, is_mapped, lemma_to_groups_len, octet,
    parse_ipv4, parse_ipv6, side_values, to_groups, zero_groups, zero_run,
};
use crate::text::{
    is_space, join_with, lemma_join_chars, lemma_split_join, lemma_split_keeps, lemma_split_single,
    split_on,
};
use vstd::arithmetic::power2::*;
use vstd::prelude::*;

verus! {

// IPv4 ------------------------------------------------------------------------------------------

pub(crate) proof fn lemma_octet_reads_back(x: nat)
    requires
        x < 256,
    ensures
        octet(decimal(x)) == Some(x),
        all_digits(decimal(x), 10),
{
    lemma_numeral(x, 10);
    assert(vstd::arithmetic::power::pow(10, 3) == 1000) by {
        reveal(vstd::arithmetic::power::pow);
        reveal_with_fuel(vstd::arithmetic::power::pow, 4);
    }
    lemma_numeral_len(x, 10, 3);
}

/// An address is made of its octets.
pub(crate) proof fn lemma_octets(v: nat)
    requires
        v < 0x1_0000_0000,
    ensures
        v / 0x100_0000 < 256,
        (v / 0x100_0000) * 0x100_0000 + ((v / 0x1_0000) % 0x100) * 0x1_0000 + ((v / 0x100) % 0x100)
            * 0x100 + v % 0x100 == v,
{
    let a = v / 0x100;
    let b = a / 0x100;
    assert(v / 0x1_0000 == b);
    assert(v / 0x100_0000 == b / 0x100);
    assert(v == a * 0x100 + v % 0x100);
    assert(a == b * 0x100 + a % 0x100);
    assert(b == (b / 0x100) * 0x100 + b % 0x100);
}

/// A dotted IPv4 address reads back.
pub proof fn law_ipv4_text_reads_back(v: nat)
    requires
        v < 0x1_0000_0000,
    ensures
        parse_ipv4(ipv4_text(v)) == Some(v),
{
    let parts = ipv4_parts(v);
    let a = v / 0x100_0000;
    let b = (v / 0x1_0000) % 0x100;
    let c = (v / 0x100) % 0x100;
    let d = v % 0x100;
    lemma_octets(v);
    lemma_octet_reads_back(a);
    lemma_octet_reads_back(b);
    lemma_octet_reads_back(c);
    lemma_octet_reads_back(d);
    assert(split_on(ipv4_text(v), '.') == parts) by {
        assert forall|i: int, k: int|
            0 <= i < parts.len() && 0 <= k < parts[i].len() implies #[trigger] parts[i][k]
            != '.' by {
            assert(i == 0 || i == 1 || i == 2 || i == 3);
            assert(all_digits(parts[i], 10));
            assert(digit_value(parts[i][k]) < 10);
        }
        lemma_split_join(parts, '.');
    }
    assert(parts[0] == decimal(a) && parts[1] == decimal(b) && parts[2] == decimal(c) && parts[3]
        == decimal(d));
}

/// The characters of a written address: lower-case hexadecimal digits, dots and colons.
pub open spec fn is_address_char(c: char) -> bool {
    c == ':' || c == '.' || (digit_value(c) < 16 && c == digit_char(digit_value(c)))
}

/// Address characters are neither slashes nor whitespace.
pub proof fn lemma_address_char(c: char)
    requires
        is_address_char(c),
    ensures
        c != '/' && c != '#' && c != ',' && c != '\n' && c != '\r' && c != '\u{feff}' && !is_space(
            c,
        ),
{
    if c != ':' && c != '.' {
        lemma_digit_char(digit_value(c));
    }
}

proof fn lemma_numeral_chars(n: nat, base: nat)
    requires
        2 <= base <= 16,
    ensures
        forall|i: int|
            0 <= i < numeral(n, base).len() ==> is_address_char(#[trigger] numeral(n, base)[i])
                && numeral(n, base)[i] != ':' && numeral(n, base)[i] != '.',
{
    lemma_numeral(n, base);
    let s = numeral(n, base);
    assert forall|i: int| 0 <= i < s.len() implies is_address_char(#[trigger] s[i]) && s[i] != ':'
        && s[i] != '.' by {
        assert(digit_value(s[i]) < base);
        assert(s[i] == digit_char(digit_value(s[i])));
        lemma_digit_char(digit_value(s[i]));
    }
}

pub proof fn lemma_ipv4_text_chars(v: nat)
    ensures
        forall|i: int|
            0 <= i < ipv4_text(v).len() ==> is_address_char(#[trigger] ipv4_text(v)[i])
                && ipv4_text(v)[i] != ':',
        ipv4_text(v).len() > 0,
{
    let s = ipv4_text(v);
    let parts = ipv4_parts(v);
    lemma_numeral_chars(v / 0x100_0000, 10);
    lemma_numeral_chars((v / 0x1_0000) % 0x100, 10);
    lemma_numeral_chars((v / 0x100) % 0x100, 10);
    lemma_numeral_chars(v % 0x100, 10);
    lemma_numeral(v / 0x100_0000, 10);
    assert forall|i: int| 0 <= i < s.len() implies is_address_char(#[trigger] s[i]) && s[i]
        != ':' by {
        lemma_join_chars(parts, '.', i);
        if s[i] != '.' {
            let p = choose|p: int| 0 <= p < parts.len() && (#[trigger] parts[p]).contains(s[i]);
            assert(p == 0 || p == 1 || p == 2 || p == 3);
            let k = choose|k: int| 0 <= k < parts[p].len() && parts[p][k] == s[i];
            assert(parts[p][k] == s[i]);
        }
    }
}

/// A text with a character that is neither a decimal digit nor a dot is no IPv4 address.
pub proof fn lemma_not_ipv4(s: Seq<char>, at: int)
    requires
        0 <= at < s.len(),
        s[at] != '.',
        digit_value(s[at]) >= 10,
    ensures
        parse_ipv4(s) is None,
{
    let p = lemma_split_keeps(s, '.', at);
    let parts = split_on(s, '.');
    let k = choose|k: int| 0 <= k < parts[p].len() && parts[p][k] == s[at];
    assert(parts[p][k] == s[at]);
    assert(!all_digits(parts[p], 10));
    assert(octet(parts[p]) is None);
    if parts.len() == 4 {
        assert(p == 0 || p == 1 || p == 2 || p == 3);
    }
}

/// A text without a dot is no IPv4 address.
pub(crate) proof fn lemma_no_dot_not_ipv4(s: Seq<char>)
    requires
        forall|i: int| 0 <= i < s.len() ==> #[trigger] s[i] != '.',
    ensures
        parse_ipv4(s) is None,
{
    lemma_split_single(s, '.');
}

// IPv6 ------------------------------------------------------------------------------------------

proof fn lemma_hex_group_reads_back(g: nat)
    requires
        g < 0x1_0000,
    ensures
        hex_group(numeral(g, 16)) == Some(g),
{
    lemma_numeral(g, 16);
    assert(vstd::arithmetic::power::pow(16, 4) == 0x1_0000) by {
        reveal(vstd::arithmetic::power::pow);
        reveal_with_fuel(vstd::arithmetic::power::pow, 5);
    }
    lemma_numeral_len(g, 16, 4);
}

proof fn lemma_group_values_read_back(g: Seq<nat>, v4_last: bool)
    requires
        forall|i: int| 0 <= i < g.len() ==> #[trigger] g[i] < 0x1_0000,
    ensures
        group_values(hex_parts(g), v4_last) == Some(g),
    decreases g.len(),
{
    let parts = hex_parts(g);
    if g.len() == 0 {
        assert(group_values(parts, v4_last)->0 =~= g);
    } else {
        let front = g.drop_last();
        assert(parts.drop_last() =~= hex_parts(front));
        lemma_group_values_read_back(front, false);
        let last = g.last();
        assert(g[g.len() - 1] < 0x1_0000);
        lemma_hex_group_reads_back(last);
        lemma_numeral_chars(last, 16);
        lemma_no_dot_not_ipv4(numeral(last, 16));
        assert(front.push(last) =~= g);
    }
}

proof fn lemma_side_values_read_back(g: Seq<nat>, v4_last: bool)
    requires
        forall|i: int| 0 <= i < g.len() ==> #[trigger] g[i] < 0x1_0000,
    ensures
        side_values(hex_join(g), v4_last) == Some(g),
{
    let parts = hex_parts(g);
    if g.len() == 0 {
        assert(side_values(hex_join(g), v4_last)->0 =~= g);
    } else {
        lemma_hex_parts(g);
        lemma_split_join(parts, ':');
        lemma_group_values_read_back(g, v4_last);
        lemma_hex_join_shape(g);
    }
}

/// Written groups are not empty and hold no colon.
proof fn lemma_hex_parts(g: Seq<nat>)
    ensures
        forall|i: int, k: int|
            0 <= i < g.len() && 0 <= k < hex_parts(g)[i].len() ==> #[trigger] hex_parts(g)[i][k]
                != ':' && is_address_char(hex_parts(g)[i][k]),
        forall|i: int| 0 <= i < g.len() ==> (#[trigger] hex_parts(g)[i]).len() > 0,
{
    let parts = hex_parts(g);
    assert forall|i: int, k: int| 0 <= i < g.len() && 0 <= k < parts[i].len() implies #[trigger]
        parts[i][k] != ':' && is_address_char(parts[i][k]) by {
        lemma_numeral_chars(g[i], 16);
        assert(parts[i] == numeral(g[i], 16));
    }
    assert forall|i: int| 0 <= i < g.len() implies (#[trigger] parts[i]).len() > 0 by {
        lemma_numeral(g[i], 16);
    }
}

/// No two colons side by side, and none at either end.
pub(crate) open spec fn tidy(s: Seq<char>) -> bool {
    &&& forall|i: int| 0 <= i < s.len() - 1 ==> !(#[trigger] s[i] == ':' && s[i + 1] == ':')
    &&& s.len() > 0 ==> s[0] != ':' && s.last() != ':'
}

/// Shape of written groups.
proof fn lemma_hex_join_shape(g: Seq<nat>)
    ensures
        tidy(hex_join(g)),
        g.len() > 0 ==> hex_join(g).len() > 0,
        g.len() == 0 ==> hex_join(g).len() == 0,
        g.len() > 1 ==> hex_join(g).contains(':'),
        forall|i: int|
            0 <= i < hex_join(g).len() ==> is_address_char(#[trigger] hex_join(g)[i]),
    decreases g.len(),
{
    let parts = hex_parts(g);
    let s = hex_join(g);
    lemma_hex_parts(g);
    if g.len() == 0 {
    } else if g.len() == 1 {
        assert(s == parts[0]);
        assert(parts[0].len() > 0);
        assert forall|i: int| 0 <= i < s.len() implies is_address_char(#[trigger] s[i]) && s[i]
            != ':' by {
            assert(parts[0][i] != ':');
        }
    } else {
        let rest = g.drop_first();
        assert(parts.drop_first() =~= hex_parts(rest));
        lemma_hex_join_shape(rest);
        let n = parts[0].len() as int;
        let t = hex_join(rest);
        assert(s =~= parts[0].push(':') + t);
        assert(s[n] == ':');
        assert forall|i: int| 0 <= i < s.len() implies is_address_char(#[trigger] s[i]) by {
            if i < n {
                assert(s[i] == parts[0][i]);
            } else if i > n {
                assert(s[i] == t[i - n - 1]);
            }
        }
        assert forall|i: int| 0 <= i < s.len() - 1 implies !(#[trigger] s[i] == ':' && s[i + 1]
            == ':') by {
            if i < n {
                assert(s[i] == parts[0][i]);
            } else if i == n {
                assert(s[i + 1] == t[0]);
            } else {
                assert(s[i] == t[i - n - 1]);
                assert(s[i + 1] == t[i - n]);
            }
        }
        assert(s[0] == parts[0][0]);
        assert(s.last() == t.last());
    }
}

pub(crate) proof fn lemma_double_colon_at(s: Seq<char>, d: int)
    requires
        0 <= d <= s.len(),
        forall|i: int|
            0 <= i < d && i < s.len() - 1 ==> !(#[trigger] s[i] == ':' && s[i + 1] == ':'),
        d < s.len() ==> d + 1 < s.len() && s[d] == ':' && s[d + 1] == ':',
    ensures
        double_colon(s) == d,
    decreases s.len(),
{
    if d > 0 {
        assert(!(s[0] == ':' && s.len() >= 2 && s[1] == ':')) by {
            if s.len() >= 2 {
                assert(!(s[0] == ':' && s[0int + 1] == ':'));
            }
        }
        let t = s.drop_first();
        assert forall|i: int| 0 <= i < d - 1 && i < t.len() - 1 implies !(#[trigger] t[i] == ':'
            && t[i + 1] == ':') by {
            assert(t[i] == s[i + 1]);
            assert(!(s[i + 1] == ':' && s[i + 1 + 1] == ':'));
        }
        lemma_double_colon_at(t, d - 1);
    }
}

/// Groups denote the number they were taken from.
proof fn lemma_groups_value(v: nat, n: nat)
    requires
        v < pow2(16 * n),
    ensures
        groups_value(to_groups(v, n)) == v,
    decreases n,
{
    lemma2_to64();
    if n > 0 {
        let q = v / 0x1_0000;
        lemma_pow2_adds((16 * (n - 1)) as nat, 16);
        assert(q < pow2((16 * (n - 1)) as nat)) by (nonlinear_arith)
            requires
                v < pow2((16 * (n - 1)) as nat) * 0x1_0000,
                q == v / 0x1_0000,
        ;
        lemma_groups_value(q, (n - 1) as nat);
        let g = to_groups(v, n);
        assert(g.drop_last() =~= to_groups(q, (n - 1) as nat));
    }
}

proof fn lemma_zero_run_zeros(g: Seq<nat>, i: int)
    requires
        0 <= i <= g.len(),
    ensures
        i + zero_run(g, i) <= g.len(),
        forall|k: int| i <= k < i + zero_run(g, i) ==> #[trigger] g[k] == 0,
    decreases g.len() - i,
{
    if i < g.len() && g[i] == 0 {
        lemma_zero_run_zeros(g, i + 1);
    }
}

/// The groups of an address that embeds an IPv4 address.
proof fn lemma_mapped_value(v: nat)
    requires
        is_mapped(v),
    ensures
        ({
            let w = v % 0x1_0000_0000;
            groups_value(
                Seq::<nat>::empty() + zero_groups(5) + Seq::<nat>::empty().push(0xffff).push(
                    w / 0x1_0000,
                ).push(w % 0x1_0000),
            ) == v
        }),
{
    let w = v % 0x1_0000_0000;
    let z = zero_groups(5);
    let a = z.push(0xffff);
    let b = a.push(w / 0x1_0000);
    let c = b.push(w % 0x1_0000);
    assert(Seq::<nat>::empty() + z + Seq::<nat>::empty().push(0xffff).push(w / 0x1_0000).push(
        w % 0x1_0000,
    ) =~= c);
    assert(groups_value(z) == 0) by {
        reveal_with_fuel(groups_value, 6);
    }
    assert(a.drop_last() =~= z);
    assert(b.drop_last() =~= a);
    assert(c.drop_last() =~= b);
    assert(groups_value(a) == 0xffff);
    assert(groups_value(b) == 0xffff * 0x1_0000 + w / 0x1_0000);
    assert(v == (v / 0x1_0000_0000) * 0x1_0000_0000 + w);
}

proof fn lemma_ffff()
    ensures
        hex_group(seq!['f', 'f', 'f', 'f']) == Some(0xffffnat),
{
    let ffff = seq!['f', 'f', 'f', 'f'];
    reveal_with_fuel(numeral_value, 5);
    assert(ffff.drop_last() =~= seq!['f', 'f', 'f']);
    assert(seq!['f', 'f', 'f'].drop_last() =~= seq!['f', 'f']);
    assert(seq!['f', 'f'].drop_last() =~= seq!['f']);
    assert(seq!['f'].drop_last() =~= Seq::<char>::empty());
    assert(numeral_value(ffff, 16) == 0xffff);
}

proof fn lemma_mapped_tail(dotted: Seq<char>, w: nat)
    requires
        parse_ipv4(dotted) == Some(w),
        forall|i: int| 0 <= i < dotted.len() ==> #[trigger] dotted[i] != ':',
    ensures
        side_values(seq!['f', 'f', 'f', 'f', ':'] + dotted, true) == Some(
            Seq::<nat>::empty().push(0xffff).push(w / 0x1_0000).push(w % 0x1_0000),
        ),
{
    let t = seq!['f', 'f', 'f', 'f', ':'] + dotted;
    let ffff = seq!['f', 'f', 'f', 'f'];
    let parts = seq![ffff, dotted];
    let one = seq![ffff];
    let front = Seq::<nat>::empty();
    assert(t == join_with(parts, ':')) by {
        assert(parts.drop_first() =~= seq![dotted]);
        assert(join_with(seq![dotted], ':') == dotted);
        assert(t =~= ffff.push(':') + dotted);
    }
    assert forall|i: int, k: int|
        0 <= i < parts.len() && 0 <= k < parts[i].len() implies #[trigger] parts[i][k] != ':' by {
        if i == 0 {
            assert(parts[i] == ffff);
        } else {
            assert(parts[i] == dotted);
        }
    }
    lemma_split_join(parts, ':');
    assert(parts.drop_last() =~= one);
    assert(one.drop_last() =~= Seq::<Seq<char>>::empty());
    lemma_ffff();
    assert(group_values(Seq::<Seq<char>>::empty(), false) == Some(front));
    assert(group_values(one, false) == Some(front.push(0xffff)));
    assert(parts.last() == dotted);
    assert(group_values(parts, true) == Some(
        front.push(0xffff).push(w / 0x1_0000).push(w % 0x1_0000),
    ));
}

proof fn lemma_mapped_reads_back(v: nat)
    requires
        is_mapped(v),
    ensures
        parse_ipv6(seq![':', ':', 'f', 'f', 'f', 'f', ':'] + ipv4_text(v % 0x1_0000_0000)) == Some(
            v,
        ),
{
    let w = v % 0x1_0000_0000;
    let dotted = ipv4_text(w);
    let s = seq![':', ':', 'f', 'f', 'f', 'f', ':'] + dotted;
    assert(parse_ipv4(dotted) == Some(w)) by {
        law_ipv4_text_reads_back(w);
    }
    assert(side_values(seq!['f', 'f', 'f', 'f', ':'] + dotted, true) == Some(
        Seq::<nat>::empty().push(0xffff).push(w / 0x1_0000).push(w % 0x1_0000),
    )) by {
        lemma_ipv4_text_chars(w);
        lemma_mapped_tail(dotted, w);
    }
    lemma_double_colon_at(s, 0);
    assert(s.skip(2) =~= seq!['f', 'f', 'f', 'f', ':'] + dotted);
    assert(side_values(s.take(0), false) == Some(Seq::<nat>::empty()));
    lemma_mapped_value(v);
}

proof fn lemma_compressed_reads_back(g: Seq<nat>, i: int)
    requires
        g.len() == 8,
        forall|k: int| 0 <= k < g.len() ==> #[trigger] g[k] < 0x1_0000,
        is_best_run(g, i),
    ensures
        parse_ipv6(compressed_text(g, i)) == Some(groups_value(g)),
{
    let s = compressed_text(g, i);
    let z = zero_run(g, i) as int;
    lemma_zero_run_zeros(g, i);
    let head = g.take(i);
    let tail = g.skip(i + z);
    let hs = hex_join(head);
    let ts = hex_join(tail);
    lemma_hex_join_shape(head);
    lemma_hex_join_shape(tail);
    let d = hs.len() as int;
    assert forall|k: int| 0 <= k < d && k < s.len() - 1 implies !(#[trigger] s[k] == ':' && s[k + 1]
        == ':') by {
        assert(s[k] == hs[k]);
        if k + 1 < d {
            assert(s[k + 1] == hs[k + 1]);
            assert(!(hs[k] == ':' && hs[k + 1] == ':'));
        } else {
            assert(hs[k] == hs.last());
        }
    }
    assert(s[d] == ':' && s[d + 1] == ':');
    lemma_double_colon_at(s, d);
    assert(s.take(d) =~= hs);
    assert(s.skip(d + 2) =~= ts);
    lemma_side_values_read_back(head, false);
    lemma_side_values_read_back(tail, true);
    assert(head + zero_groups(z as nat) + tail =~= g);
}

proof fn lemma_plain_reads_back(g: Seq<nat>)
    requires
        g.len() == 8,
        forall|k: int| 0 <= k < g.len() ==> #[trigger] g[k] < 0x1_0000,
    ensures
        parse_ipv6(hex_join(g)) == Some(groups_value(g)),
{
    let s = hex_join(g);
    lemma_hex_join_shape(g);
    lemma_hex_parts(g);
    lemma_double_colon_at(s, s.len() as int);
    lemma_split_join(hex_parts(g), ':');
    lemma_group_values_read_back(g, true);
}

/// An IPv6 address reads back.
pub proof fn law_ipv6_text_reads_back(v: nat)
    requires
        v < pow2(128),
    ensures
        parse_ipv6(ipv6_text(v)) == Some(v),
{
    let g = to_groups(v, 8);
    lemma_to_groups_len(v, 8);
    lemma_groups_value(v, 8);
    if is_mapped(v) {
        lemma_mapped_reads_back(v);
    } else if exists|i: int| is_best_run(g, i) {
        lemma_compressed_reads_back(g, choose|i: int| is_best_run(g, i));
    } else {
        lemma_plain_reads_back(g);
    }
}

pub proof fn lemma_ipv6_text_chars(v: nat)
    ensures
        forall|i: int|
            0 <= i < ipv6_text(v).len() ==> is_address_char(#[trigger] ipv6_text(v)[i]),
        ipv6_text(v).len() > 0,
        ipv6_text(v).contains(':'),
{
    let g = to_groups(v, 8);
    let s = ipv6_text(v);
    lemma_to_groups_len(v, 8);
    if is_mapped(v) {
        lemma_ipv4_text_chars(v % 0x1_0000_0000);
        assert(s[0] == ':');
    } else if exists|i: int| is_best_run(g, i) {
        let i = choose|i: int| is_best_run(g, i);
        let head = g.take(i);
        let tail = g.skip(i + zero_run(g, i));
        lemma_hex_join_shape(head);
        lemma_hex_join_shape(tail);
        let hs = hex_join(head);
        let ts = hex_join(tail);
        assert(s[hs.len() as int] == ':');
        assert forall|k: int| 0 <= k < s.len() implies is_address_char(#[trigger] s[k]) by {
            if k < hs.len() {
                assert(s[k] == hs[k]);
            } else if k >= hs.len() + 2 {
                assert(s[k] == ts[k - hs.len() - 2]);
            }
        }
    } else {
        lemma_hex_join_shape(g);
    }
}

/// A text with a character that is no hexadecimal digit, dot or colon is no IPv6 address.
pub proof fn lemma_not_ipv6(s: Seq<char>, at: int)
    requires
        0 <= at < s.len(),
        s[at] != '.',
        s[at] != ':',
        digit_value(s[at]) >= 16,
    ensures
        parse_ipv6(s) is None,
{
    let d = double_colon(s) as int;
    lemma_double_colon_bounds(s);
    if d == s.len() {
        lemma_not_groups(s, at, true);
    } else if at < d {
        let t = s.take(d);
        assert(t[at] == s[at]);
        lemma_not_groups(t, at, false);
    } else {
        let t = s.skip(d + 2);
        assert(t[at - d - 2] == s[at]);
        lemma_not_groups(t, at - d - 2, true);
    }
}

proof fn lemma_double_colon_bounds(s: Seq<char>)
    ensures
        double_colon(s) <= s.len(),
        double_colon(s) < s.len() ==> double_colon(s) + 1 < s.len() && s[double_colon(s) as int]
            == ':' && s[double_colon(s) as int + 1] == ':',
    decreases s.len(),
{
    if s.len() > 0 && !(s.len() >= 2 && s[0] == ':' && s[1] == ':') {
        lemma_double_colon_bounds(s.drop_first());
    }
}

proof fn lemma_not_groups(s: Seq<char>, at: int, v4_last: bool)
    requires
        0 <= at < s.len(),
        s[at] != '.',
        s[at] != ':',
        digit_value(s[at]) >= 16,
    ensures
        group_values(split_on(s, ':'), v4_last) is None,
{
    let p = lemma_split_keeps(s, ':', at);
    let parts = split_on(s, ':');
    let k = choose|k: int| 0 <= k < parts[p].len() && parts[p][k] == s[at];
    assert(parts[p][k] == s[at]);
    assert(!all_digits(parts[p], 16));
    lemma_not_ipv4(parts[p], k);
    lemma_bad_part(parts, p, v4_last);
}

proof fn lemma_bad_part(parts: Seq<Seq<char>>, p: int, v4_last: bool)
    requires
        0 <= p < parts.len(),
        hex_group(parts[p]) is None,
        parse_ipv4(parts[p]) is None,
    ensures
        group_values(parts, v4_last) is None,
    decreases parts.len(),
{
    if p < parts.len() - 1 {
        lemma_bad_part(parts.drop_last(), p, false);
    }
}

} // verus!
