//! Numbers in positional notation.

use vstd::arithmetic::div_mod::*;
use vstd::prelude::*;

verus! {

/// Value of a digit up to base 16; 16 for any other character.
pub open spec fn digit_value(c: char) -> nat {
    if '0' <= c <= '9' {
        (c as u32 - '0' as u32) as nat
    } else if 'a' <= c <= 'f' {
        (c as u32 - 'a' as u32 + 10) as nat
    } else if 'A' <= c <= 'F' {
        (c as u32 - 'A' as u32 + 10) as nat
    } else {
        16
    }
}

/// Lower-case digit of a value below 16.
pub open spec fn digit_char(d: nat) -> char {
    if d < 10 {
        (d + '0' as u32) as char
    } else {
        ((d - 10) + 'a' as u32) as char
    }
}

/// Every character is a digit of the base.
pub open spec fn all_digits(s: Seq<char>, base: nat) -> bool {
    forall|i: int| 0 <= i < s.len() ==> digit_value(#[trigger] s[i]) < base
}

/// Value of a sequence of digits, most significant first.
pub open spec fn numeral_value(s: Seq<char>, base: nat) -> nat
    decreases s.len(),
{
    if s.len() == 0 {
        0
    } else {
        numeral_value(s.drop_last(), base) * base + digit_value(s.last())
    }
}

/// Shortest numeral of a value.
pub open spec fn numeral(n: nat, base: nat) -> Seq<char>
    decreases n,
{
    if n < base || base < 2 {
        seq![digit_char(n)]
    } else {
        proof {
            assert(n / base < n) by (nonlinear_arith)
                requires
                    n >= base,
                    base >= 2,
            ;
        }
        numeral(n / base, base).push(digit_char(n % base))
    }
}

/// A non-empty sequence of digits with a value of at most `max`.
pub open spec fn bounded_numeral(s: Seq<char>, base: nat, max: nat) -> Option<nat> {
    if s.len() > 0 && all_digits(s, base) && numeral_value(s, base) <= max {
        Some(numeral_value(s, base))
    } else {
        None
    }
}

/// Decimal numeral with an optional leading plus sign.
pub open spec fn signed_decimal(s: Seq<char>, max: nat) -> Option<nat> {
    if s.len() > 0 && s[0] == '+' {
        bounded_numeral(s.drop_first(), 10, max)
    } else {
        bounded_numeral(s, 10, max)
    }
}

/// Decimal notation of a value.
pub open spec fn decimal(n: nat) -> Seq<char> {
    numeral(n, 10)
}

pub proof fn lemma_digit_char(d: nat)
    requires
        d < 16,
    ensures
        digit_value(digit_char(d)) == d,
        digit_char(d) == '0' <==> d == 0,
        digit_char(d) != ':' && digit_char(d) != '.' && digit_char(d) != '/' && digit_char(d)
            != '+',
        !crate::text::is_space(digit_char(d)),
{
}

/// The shortest numeral denotes its value, has only digits, and no leading zero but for zero.
pub proof fn lemma_numeral(n: nat, base: nat)
    requires
        2 <= base <= 16,
    ensures
        numeral(n, base).len() > 0,
        all_digits(numeral(n, base), base),
        numeral_value(numeral(n, base), base) == n,
        n > 0 ==> numeral(n, base)[0] != '0',
        n == 0 ==> numeral(n, base) == seq!['0'],
        forall|i: int|
            #![trigger numeral(n, base)[i]]
            0 <= i < numeral(n, base).len() ==> numeral(n, base)[i] == digit_char(
                digit_value(numeral(n, base)[i]),
            ),
    decreases n,
{
    let s = numeral(n, base);
    if n < base {
        lemma_digit_char(n);
        assert(s.drop_last() =~= Seq::<char>::empty());
        assert(numeral_value(s.drop_last(), base) == 0);
    } else {
        let q = n / base;
        assert(q < n) by (nonlinear_arith)
            requires
                q == n / base,
                base >= 2,
                n > 0,
        ;
        lemma_numeral(q, base);
        lemma_digit_char(n % base);
        let head = numeral(q, base);
        assert(s.drop_last() =~= head);
        lemma_fundamental_div_mod(n as int, base as int);
        assert(q * base == base * q) by (nonlinear_arith);
        assert(q > 0) by (nonlinear_arith)
            requires
                q == n / base,
                n >= base,
                base >= 2,
        ;
        assert forall|i: int| 0 <= i < s.len() implies digit_value(#[trigger] s[i]) < base
            && s[i] == digit_char(digit_value(s[i])) by {
            if i < head.len() {
                assert(s[i] == head[i]);
            }
        }
        assert(s[0] == head[0]);
    }
}

/// A numeral below a power of the base has at most that many digits.
pub proof fn lemma_numeral_len(n: nat, base: nat, k: nat)
    requires
        2 <= base,
        k > 0,
        n < vstd::arithmetic::power::pow(base as int, k),
    ensures
        numeral(n, base).len() <= k,
    decreases k,
{
    reveal(vstd::arithmetic::power::pow);
    if n >= base {
        let p = vstd::arithmetic::power::pow(base as int, (k - 1) as nat);
        assert(vstd::arithmetic::power::pow(base as int, k) == base * p);
        if k == 1 {
            assert(vstd::arithmetic::power::pow(base as int, 0) == 1);
            assert(base * p == base) by (nonlinear_arith)
                requires
                    p == 1,
            ;
        }
        assert(n / base < p) by (nonlinear_arith)
            requires
                n < base * p,
                base >= 2,
        ;
        lemma_numeral_len(n / base, base, (k - 1) as nat);
    }
}

/// A longer run of digits denotes at least the value of its beginning.
proof fn lemma_value_take(s: Seq<char>, base: nat, i: int)
    requires
        0 <= i <= s.len(),
        base >= 1,
    ensures
        numeral_value(s.take(i), base) <= numeral_value(s, base),
    decreases s.len() - i,
{
    if i < s.len() {
        lemma_value_take(s, base, i + 1);
        assert(s.take(i + 1).drop_last() =~= s.take(i));
        let v = numeral_value(s.take(i), base);
        assert(v * base >= v) by (nonlinear_arith)
            requires
                base >= 1,
        ;
    } else {
        assert(s.take(i) =~= s);
    }
}

/// Decimal notation reads back.
pub proof fn lemma_decimal_reads_back(n: nat, max: nat)
    requires
        n <= max,
    ensures
        signed_decimal(decimal(n), max) == Some(n),
        bounded_numeral(decimal(n), 10, max) == Some(n),
{
    lemma_numeral(n, 10);
    let s = decimal(n);
    assert(digit_value(s[0]) < 10);
}

/// Reads a digit.
fn digit_of(c: char) -> (d: u128)
    ensures
        d == digit_value(c),
        d <= 16,
{
    if '0' <= c && c <= '9' {
        (c as u32 - '0' as u32) as u128
    } else if 'a' <= c && c <= 'f' {
        (c as u32 - 'a' as u32 + 10) as u128
    } else if 'A' <= c && c <= 'F' {
        (c as u32 - 'A' as u32 + 10) as u128
    } else {
        16
    }
}

/// Reads a numeral of at most `max`.
pub fn read_numeral(s: &[char], base: u128, max: u128) -> (value: Option<u128>)
    requires
        2 <= base <= 16,
    ensures
        value matches Some(v) ==> bounded_numeral(s@, base as nat, max as nat) == Some(v as nat),
        value is None ==> bounded_numeral(s@, base as nat, max as nat) is None,
{
    if s.len() == 0 {
        return None;
    }
    let mut value: u128 = 0;
    let mut i: usize = 0;
    assert(s@.take(0) =~= Seq::<char>::empty());
    while i < s.len()
        invariant
            i <= s@.len(),
            2 <= base <= 16,
            value <= max,
            value == numeral_value(s@.take(i as int), base as nat),
            forall|k: int| 0 <= k < i ==> digit_value(#[trigger] s@[k]) < base,
        decreases s@.len() - i,
    {
        let d: u128 = digit_of(s[i]);
        if d >= base {
            assert(!(digit_value(s@[i as int]) < base));
            return None;
        }
        proof {
            assert(s@.take(i as int + 1).drop_last() =~= s@.take(i as int));
            assert(s@.take(i as int + 1).last() == s@[i as int]);
        }
        if d > max || value > (max - d) / base {
            proof {
                if d <= max {
                    assert(value * base + d > max) by (nonlinear_arith)
                        requires
                            value > (max - d) / base as int,
                            base >= 2,
                            d <= max,
                    ;
                } else {
                    assert(value * base >= 0) by (nonlinear_arith);
                }
                lemma_value_take(s@, base as nat, i as int + 1);
            }
            return None;
        }
        proof {
            assert(value * base + d <= max) by (nonlinear_arith)
                requires
                    value <= (max - d) / base as int,
                    base >= 2,
                    d <= max,
            ;
            assert(value * base >= 0) by (nonlinear_arith);
        }
        value = value * base + d;
        i += 1;
    }
    assert(s@.take(i as int) =~= s@);
    Some(value)
}

/// Reads a decimal numeral with an optional plus sign.
pub fn read_signed_decimal(s: &[char], max: u128) -> (value: Option<u128>)
    ensures
        value matches Some(v) ==> signed_decimal(s@, max as nat) == Some(v as nat),
        value is None ==> signed_decimal(s@, max as nat) is None,
{
    if s.len() > 0 && s[0] == '+' {
        let rest = vstd::slice::slice_subrange(s, 1, s.len());
        assert(rest@ =~= s@.drop_first());
        read_numeral(rest, 10, max)
    } else {
        read_numeral(s, 10, max)
    }
}

/// Lower-case digit.
pub(crate) fn digit_to_char(d: u128) -> (c: char)
    requires
        d < 16,
    ensures
        c == digit_char(d as nat),
{
    if d < 10 {
        (d as u8 + '0' as u8) as char
    } else {
        ((d as u8 - 10) + 'a' as u8) as char
    }
}

/// Shortest numeral of a value.
pub fn write_numeral(n: u128, base: u128) -> (s: Vec<char>)
    requires
        2 <= base <= 16,
    ensures
        s@ == numeral(n as nat, base as nat),
    decreases n,
{
    if n < base {
        let mut s: Vec<char> = Vec::new();
        s.push(digit_to_char(n));
        assert(s@ =~= seq![digit_char(n as nat)]);
        s
    } else {
        assert(n / base < n) by (nonlinear_arith)
            requires
                n >= base,
                base >= 2,
        ;
        assert(n % base < base) by (nonlinear_arith)
            requires
                base >= 2,
        ;
        let mut s: Vec<char> = write_numeral(n / base, base);
        s.push(digit_to_char(n % base));
        s
    }
}

/// Decimal notation of a value.
pub fn decimal_text(n: u128) -> (s: String)
    ensures
        s@ == decimal(n as nat),
{
    let digits: Vec<char> = write_numeral(n, 10);
    crate::text::from_chars(digits.as_slice())
}

} // verus!
