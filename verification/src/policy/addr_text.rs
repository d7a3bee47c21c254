//! Text form of addresses: dotted IPv4, and IPv6 with `::` compression and embedded IPv4.

use crate::numerals::{bounded_numeral, decimal, numeral, read_numeral, write_numeral};
use crate::text::{char_views, join_with, push_chars, split_chars, split_on};
use vstd::arithmetic::power2::*;
use vstd::prelude::*;
use vstd::slice::slice_subrange;

verus! {

// IPv4 ------------------------------------------------------------------------------------------

/// One to three decimal digits without a leading zero, at most 255.
pub open spec fn octet(s: Seq<char>) -> Option<nat> {
    if s.len() <= 3 && (s.len() <= 1 || s[0] != '0') {
        bounded_numeral(s, 10, 255)
    } else {
        None
    }
}

/// Four octets between dots.
pub open spec fn parse_ipv4(s: Seq<char>) -> Option<nat> {
    let parts = split_on(s, '.');
    if parts.len() != 4 {
        None
    } else {
        match (octet(parts[0]), octet(parts[1]), octet(parts[2]), octet(parts[3])) {
            (Some(a), Some(b), Some(c), Some(d)) => Some(
                a * 0x100_0000 + b * 0x1_0000 + c * 0x100 + d,
            ),
            _ => None,
        }
    }
}

/// The four octets of an IPv4 address in decimal notation.
pub open spec fn ipv4_parts(v: nat) -> Seq<Seq<char>> {
    seq![
        decimal(v / 0x100_0000),
        decimal((v / 0x1_0000) % 0x100),
        decimal((v / 0x100) % 0x100),
        decimal(v % 0x100),
    ]
}

/// Dotted notation of an IPv4 address.
pub open spec fn ipv4_text(v: nat) -> Seq<char> {
    join_with(ipv4_parts(v), '.')
}

/// Reads one octet.
fn read_octet(s: &[char]) -> (value: Option<u32>)
    ensures
        value matches Some(v) ==> octet(s@) == Some(v as nat) && v <= 255,
        value is None ==> octet(s@) is None,
{
    if s.len() > 3 || (s.len() > 1 && s[0] == '0') {
        return None;
    }
    match read_numeral(s, 10, 255) {
        Some(v) => Some(v as u32),
        None => None,
    }
}

/// Reads a dotted IPv4 address.
pub fn read_ipv4(s: &[char]) -> (value: Option<u32>)
    ensures
        value matches Some(v) ==> parse_ipv4(s@) == Some(v as nat),
        value is None ==> parse_ipv4(s@) is None,
{
    let parts: Vec<Vec<char>> = split_chars(s, '.');
    assert(parts@.len() == char_views(parts@).len());
    if parts.len() != 4 {
        return None;
    }
    assert forall|i: int| 0 <= i < 4 implies #[trigger] split_on(s@, '.')[i] == parts@[i]@ by {
        assert(char_views(parts@)[i] == parts@[i]@);
    }
    let a = read_octet(parts[0].as_slice());
    let b = read_octet(parts[1].as_slice());
    let c = read_octet(parts[2].as_slice());
    let d = read_octet(parts[3].as_slice());
    match (a, b, c, d) {
        (Some(a), Some(b), Some(c), Some(d)) => Some(
            a * 0x100_0000 + b * 0x1_0000 + c * 0x100 + d,
        ),
        _ => None,
    }
}

/// Writes a dotted IPv4 address.
pub fn write_ipv4(v: u32) -> (s: Vec<char>)
    ensures
        s@ == ipv4_text(v as nat),
{
    let a: Vec<char> = write_numeral((v / 0x100_0000) as u128, 10);
    let b: Vec<char> = write_numeral(((v / 0x1_0000) % 0x100) as u128, 10);
    let c: Vec<char> = write_numeral(((v / 0x100) % 0x100) as u128, 10);
    let d: Vec<char> = write_numeral((v % 0x100) as u128, 10);
    let mut s: Vec<char> = Vec::new();
    push_chars(&mut s, a.as_slice());
    s.push('.');
    push_chars(&mut s, b.as_slice());
    s.push('.');
    push_chars(&mut s, c.as_slice());
    s.push('.');
    push_chars(&mut s, d.as_slice());
    proof {
        let parts = ipv4_parts(v as nat);
        let p1 = parts.drop_first();
        let p2 = p1.drop_first();
        let p3 = p2.drop_first();
        assert(join_with(p3, '.') == parts[3]);
        assert(join_with(p2, '.') == parts[2].push('.') + join_with(p3, '.'));
        assert(join_with(p1, '.') == parts[1].push('.') + join_with(p2, '.'));
        assert(s@ =~= ipv4_text(v as nat));
    }
    s
}

// IPv6 ------------------------------------------------------------------------------------------

/// One to four hexadecimal digits.
pub open spec fn hex_group(s: Seq<char>) -> Option<nat> {
    if s.len() <= 4 {
        bounded_numeral(s, 16, 0xffff)
    } else {
        None
    }
}

/// Values of groups between colons; where `v4_last` holds the last one may be a dotted IPv4
/// address, which stands for two groups.
pub open spec fn group_values(parts: Seq<Seq<char>>, v4_last: bool) -> Option<Seq<nat>>
    decreases parts.len(),
{
    if parts.len() == 0 {
        Some(Seq::empty())
    } else {
        match group_values(parts.drop_last(), false) {
            None => None,
            Some(head) => {
                if v4_last && parse_ipv4(parts.last()) is Some {
                    let v = parse_ipv4(parts.last())->0;
                    Some(head.push(v / 0x1_0000).push(v % 0x1_0000))
                } else {
                    match hex_group(parts.last()) {
                        Some(g) => Some(head.push(g)),
                        None => None,
                    }
                }
            },
        }
    }
}

/// Values of the groups of a possibly empty text.
pub open spec fn side_values(s: Seq<char>, v4_last: bool) -> Option<Seq<nat>> {
    if s.len() == 0 {
        Some(Seq::empty())
    } else {
        group_values(split_on(s, ':'), v4_last)
    }
}

/// Index of the first `::`, or the length when there is none.
pub open spec fn double_colon(s: Seq<char>) -> nat
    decreases s.len(),
{
    if s.len() == 0 {
        0
    } else if s.len() >= 2 && s[0] == ':' && s[1] == ':' {
        0
    } else {
        1 + double_colon(s.drop_first())
    }
}

/// Number with the given 16-bit groups, most significant first.
pub open spec fn groups_value(g: Seq<nat>) -> nat
    decreases g.len(),
{
    if g.len() == 0 {
        0
    } else {
        groups_value(g.drop_last()) * 0x1_0000 + g.last()
    }
}

/// Zero groups.
pub open spec fn zero_groups(n: nat) -> Seq<nat> {
    Seq::new(n, |i: int| 0nat)
}

/// Eight groups, or at most seven around one `::` that stands for the missing zeros.
pub open spec fn parse_ipv6(s: Seq<char>) -> Option<nat> {
    let d = double_colon(s) as int;
    if d == s.len() {
        match group_values(split_on(s, ':'), true) {
            Some(g) => if g.len() == 8 {
                Some(groups_value(g))
            } else {
                None
            },
            None => None,
        }
    } else {
        match (side_values(s.take(d), false), side_values(s.skip(d + 2), true)) {
            (Some(head), Some(tail)) => if head.len() + tail.len() <= 7 {
                Some(
                    groups_value(
                        head + zero_groups((8 - head.len() - tail.len()) as nat) + tail,
                    ),
                )
            } else {
                None
            },
            _ => None,
        }
    }
}

/// The lowest `n` groups of a number, most significant first.
pub open spec fn to_groups(v: nat, n: nat) -> Seq<nat>
    decreases n,
{
    if n == 0 {
        Seq::empty()
    } else {
        to_groups(v / 0x1_0000, (n - 1) as nat).push(v % 0x1_0000)
    }
}

/// Number of zero groups from index `i` on.
pub open spec fn zero_run(g: Seq<nat>, i: int) -> nat
    decreases g.len() - i,
{
    if 0 <= i < g.len() && g[i] == 0 {
        1 + zero_run(g, i + 1)
    } else {
        0
    }
}

/// The first of the longest runs of at least two zero groups starts at `i`.
pub open spec fn is_best_run(g: Seq<nat>, i: int) -> bool {
    &&& 0 <= i < g.len()
    &&& zero_run(g, i) >= 2
    &&& forall|j: int| 0 <= j < g.len() ==> #[trigger] zero_run(g, j) <= zero_run(g, i)
    &&& forall|j: int| 0 <= j < i ==> #[trigger] zero_run(g, j) < zero_run(g, i)
}

/// Groups in hexadecimal notation.
pub open spec fn hex_parts(g: Seq<nat>) -> Seq<Seq<char>> {
    Seq::new(g.len(), |i: int| numeral(g[i], 16))
}

/// Groups with colons between them.
pub open spec fn hex_join(g: Seq<nat>) -> Seq<char> {
    join_with(hex_parts(g), ':')
}

/// The address embeds an IPv4 address.
pub open spec fn is_mapped(v: nat) -> bool {
    v / 0x1_0000_0000 == 0xffff
}

/// Text of groups whose best run starts at `i`.
pub open spec fn compressed_text(g: Seq<nat>, i: int) -> Seq<char> {
    hex_join(g.take(i)) + seq![':', ':'] + hex_join(g.skip(i + zero_run(g, i)))
}

/// Notation of an IPv6 address: lower-case groups, the first longest zero run of two groups or
/// more written as `::`, embedded IPv4 addresses dotted.
pub open spec fn ipv6_text(v: nat) -> Seq<char> {
    let g = to_groups(v, 8);
    if is_mapped(v) {
        seq![':', ':', 'f', 'f', 'f', 'f', ':'] + ipv4_text(v % 0x1_0000_0000)
    } else if exists|i: int| is_best_run(g, i) {
        compressed_text(g, choose|i: int| is_best_run(g, i))
    } else {
        hex_join(g)
    }
}

proof fn lemma_group_values_none(parts: Seq<Seq<char>>, v4_last: bool, k: int)
    requires
        0 <= k < parts.len(),
        group_values(parts.take(k), false) is None,
    ensures
        group_values(parts, v4_last) is None,
    decreases parts.len(),
{
    let front = parts.drop_last();
    if k < parts.len() - 1 {
        assert(front.take(k) =~= parts.take(k));
        lemma_group_values_none(front, false, k);
    } else {
        assert(front =~= parts.take(k));
    }
}

/// Reads one hexadecimal group.
fn read_hex_group(s: &[char]) -> (value: Option<u128>)
    ensures
        value matches Some(v) ==> hex_group(s@) == Some(v as nat) && v <= 0xffff,
        value is None ==> hex_group(s@) is None,
{
    if s.len() > 4 {
        return None;
    }
    read_numeral(s, 16, 0xffff)
}

/// Values of a vector of groups.
pub open spec fn nat_view(g: Seq<u128>) -> Seq<nat> {
    Seq::new(g.len(), |i: int| g[i] as nat)
}

/// Reads groups between colons.
fn read_groups(s: &[char], v4_last: bool) -> (groups: Option<Vec<u128>>)
    ensures
        groups matches Some(g) ==> group_values(split_on(s@, ':'), v4_last) == Some(nat_view(g@))
            && (forall|i: int| 0 <= i < g@.len() ==> #[trigger] g@[i] <= 0xffff),
        groups is None ==> group_values(split_on(s@, ':'), v4_last) is None,
{
    let parts: Vec<Vec<char>> = split_chars(s, ':');
    let ghost views = char_views(parts@);
    let mut groups: Vec<u128> = Vec::new();
    let mut i: usize = 0;
    assert(nat_view(groups@) =~= Seq::<nat>::empty());
    assert(views.take(0) =~= Seq::<Seq<char>>::empty());
    while i < parts.len()
        invariant
            i <= parts@.len(),
            views == char_views(parts@),
            i < parts@.len() || !v4_last ==> group_values(views.take(i as int), false) == Some(
                nat_view(groups@),
            ),
            i == parts@.len() ==> group_values(views, v4_last) == Some(nat_view(groups@)) || i == 0,
            forall|k: int| 0 <= k < groups@.len() ==> #[trigger] groups@[k] <= 0xffff,
            views == split_on(s@, ':'),
        decreases parts@.len() - i,
    {
        let last: bool = i == parts.len() - 1;
        let ghost before = nat_view(groups@);
        proof {
            assert(views.take(i as int + 1).drop_last() =~= views.take(i as int));
            assert(views.take(i as int + 1).last() == parts@[i as int]@);
            if last {
                assert(views.take(i as int + 1) =~= views);
            }
        }
        if last && v4_last {
            if let Some(v) = read_ipv4(parts[i].as_slice()) {
                let v: u128 = v as u128;
                groups.push(v / 0x1_0000);
                groups.push(v % 0x1_0000);
                assert(nat_view(groups@) =~= before.push((v / 0x1_0000) as nat).push(
                    (v % 0x1_0000) as nat,
                ));
                i += 1;
                continue;
            }
        }
        match read_hex_group(parts[i].as_slice()) {
            Some(g) => {
                groups.push(g);
                assert(nat_view(groups@) =~= before.push(g as nat));
            },
            None => {
                proof {
                    assert(group_values(views.take(i as int + 1), false) is None);
                    if !last {
                        lemma_group_values_none(views, v4_last, i as int + 1);
                    }
                }
                return None;
            },
        }
        i += 1;
    }
    proof {
        crate::text::lemma_split_nonempty(s@, ':');
    }
    Some(groups)
}

/// Reads the groups of a possibly empty side of a `::`.
fn read_side(s: &[char], v4_last: bool) -> (groups: Option<Vec<u128>>)
    ensures
        groups matches Some(g) ==> side_values(s@, v4_last) == Some(nat_view(g@)) && (forall|i: int|
            0 <= i < g@.len() ==> #[trigger] g@[i] <= 0xffff),
        groups is None ==> side_values(s@, v4_last) is None,
{
    if s.len() == 0 {
        let empty: Vec<u128> = Vec::new();
        assert(nat_view(empty@) =~= Seq::<nat>::empty());
        return Some(empty);
    }
    read_groups(s, v4_last)
}

/// Finds the first `::`.
fn find_double_colon(s: &[char]) -> (d: usize)
    ensures
        d == double_colon(s@),
        d <= s@.len(),
        d < s@.len() ==> d + 2 <= s@.len(),
{
    let mut d: usize = 0;
    assert(s@.skip(0) =~= s@);
    while d < s.len()
        invariant
            d <= s@.len(),
            double_colon(s@) == d + double_colon(s@.skip(d as int)),
        decreases s@.len() - d,
    {
        if s.len() - d >= 2 && s[d] == ':' && s[d + 1] == ':' {
            assert(s@.skip(d as int)[0] == ':' && s@.skip(d as int)[1] == ':');
            return d;
        }
        assert(s@.skip(d as int).drop_first() =~= s@.skip(d as int + 1));
        d += 1;
    }
    d
}

/// Number with eight 16-bit groups.
fn fold_groups(g: &Vec<u128>) -> (v: u128)
    requires
        g@.len() == 8,
        forall|i: int| 0 <= i < g@.len() ==> #[trigger] g@[i] <= 0xffff,
    ensures
        v == groups_value(nat_view(g@)),
{
    let mut v: u128 = 0;
    let mut i: usize = 0;
    let ghost all = nat_view(g@);
    proof {
        lemma2_to64();
        assert(all.take(0) =~= Seq::<nat>::empty());
    }
    while i < 8
        invariant
            i <= 8,
            g@.len() == 8,
            all == nat_view(g@),
            forall|k: int| 0 <= k < g@.len() ==> #[trigger] g@[k] <= 0xffff,
            v == groups_value(all.take(i as int)),
            v < pow2((16 * i) as nat),
        decreases 8 - i,
    {
        proof {
            assert(all.take(i as int + 1).drop_last() =~= all.take(i as int));
            assert(all.take(i as int + 1).last() == g@[i as int] as nat);
            lemma_pow2_adds((16 * i) as nat, 16);
            lemma2_to64();
            crate::policy::network_types::lemma_family_sizes();
            if 16 * i + 16 < 128 {
                lemma_pow2_strictly_increases((16 * i + 16) as nat, 128);
            }
            let p = pow2((16 * i) as nat) as int;
            assert(v * 0x1_0000 + 0xffff < p * 0x1_0000) by (nonlinear_arith)
                requires
                    v + 1 <= p,
            ;
        }
        v = v * 0x1_0000 + g[i];
        i += 1;
    }
    assert(all.take(8) =~= all);
    v
}

/// Reads an IPv6 address.
pub fn read_ipv6(s: &[char]) -> (value: Option<u128>)
    ensures
        value matches Some(v) ==> parse_ipv6(s@) == Some(v as nat),
        value is None ==> parse_ipv6(s@) is None,
{
    let n: usize = s.len();
    let d: usize = find_double_colon(s);
    if d == n {
        return match read_groups(s, true) {
            Some(g) => {
                assert(nat_view(g@).len() == g@.len());
                if g.len() == 8 {
                    Some(fold_groups(&g))
                } else {
                    None
                }
            },
            None => None,
        };
    }
    let front = slice_subrange(s, 0, d);
    let back = slice_subrange(s, d + 2, n);
    assert(front@ =~= s@.take(d as int));
    assert(back@ =~= s@.skip(d as int + 2));
    let head = read_side(front, false);
    let tail = read_side(back, true);
    match (head, tail) {
        (Some(head), Some(tail)) => {
            assert(nat_view(head@).len() == head@.len() && nat_view(tail@).len() == tail@.len());
            if head.len() > 7 || tail.len() > 7 || head.len() + tail.len() > 7 {
                return None;
            }
            let zeros: usize = 8 - head.len() - tail.len();
            let mut all: Vec<u128> = Vec::new();
            let mut i: usize = 0;
            while i < 8
                invariant
                    i <= 8,
                    all@.len() == i,
                    head@.len() + tail@.len() <= 7,
                    zeros == 8 - head@.len() - tail@.len(),
                    forall|k: int| 0 <= k < head@.len() ==> #[trigger] head@[k] <= 0xffff,
                    forall|k: int| 0 <= k < tail@.len() ==> #[trigger] tail@[k] <= 0xffff,
                    forall|k: int|
                        0 <= k < i ==> #[trigger] all@[k] == (if k < head@.len() {
                            head@[k]
                        } else if k < head@.len() + zeros {
                            0
                        } else {
                            tail@[k - head@.len() - zeros]
                        }) && all@[k] <= 0xffff,
                decreases 8 - i,
            {
                let g: u128 = if i < head.len() {
                    head[i]
                } else if i < head.len() + zeros {
                    0
                } else {
                    tail[i - head.len() - zeros]
                };
                all.push(g);
                i += 1;
            }
            assert(nat_view(all@) =~= nat_view(head@) + zero_groups(zeros as nat) + nat_view(
                tail@,
            ));
            Some(fold_groups(&all))
        },
        _ => None,
    }
}

/// Length of the zero run at `i`.
fn measure_run(g: &Vec<u128>, i: usize) -> (len: usize)
    requires
        i <= g@.len(),
    ensures
        len == zero_run(nat_view(g@), i as int),
        i + len <= g@.len(),
{
    let mut len: usize = 0;
    while len < g.len() - i && g[i + len] == 0
        invariant
            i + len <= g@.len(),
            zero_run(nat_view(g@), i as int) == len + zero_run(nat_view(g@), i + len),
        decreases g@.len() - i - len,
    {
        len += 1;
    }
    len
}

/// Groups of an address.
fn split_groups(v: u128, n: usize) -> (g: Vec<u128>)
    ensures
        nat_view(g@) == to_groups(v as nat, n as nat),
        forall|i: int| 0 <= i < g@.len() ==> #[trigger] g@[i] <= 0xffff,
    decreases n,
{
    if n == 0 {
        let g: Vec<u128> = Vec::new();
        assert(nat_view(g@) =~= Seq::<nat>::empty());
        return g;
    }
    let mut g: Vec<u128> = split_groups(v / 0x1_0000, n - 1);
    let ghost before = g@;
    g.push(v % 0x1_0000);
    assert(nat_view(g@) =~= nat_view(before).push((v % 0x1_0000) as nat));
    g
}

pub proof fn lemma_to_groups_len(v: nat, n: nat)
    ensures
        to_groups(v, n).len() == n,
        forall|i: int| 0 <= i < n ==> #[trigger] to_groups(v, n)[i] < 0x1_0000,
    decreases n,
{
    if n > 0 {
        lemma_to_groups_len(v / 0x1_0000, (n - 1) as nat);
    }
}

/// Writes groups `from .. to` with colons between them.
fn write_groups(g: &Vec<u128>, from: usize, to: usize) -> (s: Vec<char>)
    requires
        from <= to <= g@.len(),
    ensures
        s@ == hex_join(nat_view(g@).subrange(from as int, to as int)),
    decreases to - from,
{
    let ghost part = nat_view(g@).subrange(from as int, to as int);
    let mut s: Vec<char> = Vec::new();
    if from == to {
        assert(s@ =~= hex_join(part));
        return s;
    }
    let first: Vec<char> = write_numeral(g[from], 16);
    assert(hex_parts(part)[0] == numeral(g@[from as int] as nat, 16));
    if from + 1 == to {
        return first;
    }
    let rest: Vec<char> = write_groups(g, from + 1, to);
    push_chars(&mut s, first.as_slice());
    s.push(':');
    push_chars(&mut s, rest.as_slice());
    proof {
        let next = nat_view(g@).subrange(from as int + 1, to as int);
        assert(hex_parts(part).drop_first() =~= hex_parts(next));
        assert(s@ =~= hex_join(part));
    }
    s
}

/// A best run is unique.
pub proof fn lemma_best_run_unique(g: Seq<nat>, i: int, j: int)
    requires
        is_best_run(g, i),
        is_best_run(g, j),
    ensures
        i == j,
{
    if i < j {
        assert(zero_run(g, i) < zero_run(g, j));
    } else if j < i {
        assert(zero_run(g, j) < zero_run(g, i));
    }
}

/// Writes an IPv6 address.
pub fn write_ipv6(v: u128) -> (s: Vec<char>)
    ensures
        s@ == ipv6_text(v as nat),
{
    let g: Vec<u128> = split_groups(v, 8);
    let ghost gs = to_groups(v as nat, 8);
    proof {
        lemma_to_groups_len(v as nat, 8);
        assert(g@.len() == nat_view(g@).len());
    }
    if v / 0x1_0000_0000 == 0xffff {
        let mut s: Vec<char> = Vec::new();
        s.push(':');
        s.push(':');
        s.push('f');
        s.push('f');
        s.push('f');
        s.push('f');
        s.push(':');
        assert(s@ =~= seq![':', ':', 'f', 'f', 'f', 'f', ':']);
        let dotted: Vec<char> = write_ipv4((v % 0x1_0000_0000) as u32);
        push_chars(&mut s, dotted.as_slice());
        return s;
    }
    let mut best: usize = 0;
    let mut best_len: usize = 0;
    let mut i: usize = 0;
    while i < 8
        invariant
            i <= 8,
            g@.len() == 8,
            gs == nat_view(g@),
            gs.len() == 8,
            best < 8,
            best + best_len <= 8,
            best_len == 0 || (best < i && best_len == zero_run(gs, best as int)),
            forall|j: int| 0 <= j < i ==> #[trigger] zero_run(gs, j) <= best_len,
            forall|j: int| 0 <= j < best && best_len > 0 ==> #[trigger] zero_run(gs, j) < best_len,
        decreases 8 - i,
    {
        let len: usize = measure_run(&g, i);
        if len > best_len {
            best = i;
            best_len = len;
        }
        i += 1;
    }
    if best_len > 1 {
        proof {
            assert(is_best_run(gs, best as int));
            lemma_best_run_unique(gs, best as int, choose|i: int| is_best_run(gs, i));
            assert(gs.take(best as int) =~= gs.subrange(0, best as int));
            assert(gs.skip(best + best_len) =~= gs.subrange(best + best_len, 8));
        }
        let head: Vec<char> = write_groups(&g, 0, best);
        let tail: Vec<char> = write_groups(&g, best + best_len, 8);
        let mut s: Vec<char> = Vec::new();
        push_chars(&mut s, head.as_slice());
        s.push(':');
        s.push(':');
        push_chars(&mut s, tail.as_slice());
        assert(s@ =~= compressed_text(gs, best as int));
        return s;
    }
    proof {
        if exists|i: int| is_best_run(gs, i) {
            let k = choose|i: int| is_best_run(gs, i);
            assert(zero_run(gs, k) <= best_len);
        }
        assert(gs.subrange(0, 8) =~= gs);
    }
    write_groups(&g, 0, 8)
}

} // verus!
