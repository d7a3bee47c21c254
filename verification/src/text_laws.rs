//! What texts and numerals are, stated without reference to how they are read.

use crate::numerals::{decimal, digit_char, numeral};
use crate::text::{
    contains_text, index_of, join_with, lemma_index_of_unique, lemma_join_push, lemma_split_single,
    lower, lower_char, split_on, starts_with, text_le,
};
use crate::workflow::paths::path_join;
use vstd::prelude::*;

verus! {

/// A text starts with its head, whatever follows, and occurs in every text around it; nothing else
/// starts with it or holds it.
pub proof fn law_parts_are_found(before: Seq<char>, part: Seq<char>, after: Seq<char>)
    ensures
        starts_with(part + after, part),
        contains_text(before + part + after, part),
{
    assert((part + after).take(part.len() as int) =~= part);
    let all = before + part + after;
    assert(all.skip(before.len() as int) =~= part + after);
    assert(starts_with(all.skip(before.len() as int), part));
}

/// What is found is there.
pub proof fn law_found_parts_are_there(text: Seq<char>, part: Seq<char>)
    ensures
        starts_with(text, part) ==> text == part + text.skip(part.len() as int),
        contains_text(text, part) ==> exists|i: int|
            0 <= i <= text.len() - part.len() && #[trigger] text.subrange(i, i + part.len()) == part,
{
    if starts_with(text, part) {
        assert(text =~= part + text.skip(part.len() as int));
    }
    if contains_text(text, part) {
        let i = choose|i: int| 0 <= i <= text.len() && starts_with(#[trigger] text.skip(i), part);
        assert(text.skip(i).take(part.len() as int) =~= text.subrange(i, i + part.len()));
    }
}

/// The first place of a character is found.
pub proof fn law_first_occurrence_is_found(before: Seq<char>, c: char, after: Seq<char>)
    requires
        forall|i: int| 0 <= i < before.len() ==> #[trigger] before[i] != c,
    ensures
        index_of(before + seq![c] + after, c) == before.len(),
        index_of(before, c) == before.len(),
{
    let all = before + seq![c] + after;
    assert forall|i: int| 0 <= i < before.len() implies #[trigger] all[i] != c by {
        assert(all[i] == before[i]);
    }
    lemma_index_of_unique(all, c, before.len() as int);
    lemma_index_of_unique(before, c, before.len() as int);
}

/// Splitting undoes joining, and gives one part more than there are separators.
pub proof fn law_split_parts_lie_between_separators(
    before: Seq<char>,
    c: char,
    after: Seq<char>,
)
    requires
        forall|i: int| 0 <= i < before.len() ==> #[trigger] before[i] != c,
    ensures
        split_on(before + seq![c] + after, c) == seq![before] + split_on(after, c),
        split_on(before, c) == seq![before],
{
    law_first_occurrence_is_found(before, c, after);
    lemma_split_single(before, c);
    let all = before + seq![c] + after;
    assert(all.take(before.len() as int) =~= before);
    assert(all.skip(before.len() as int + 1) =~= after);
}

/// Joined texts stand in their order with the separator between each two.
pub proof fn law_joined_parts_are_separated(parts: Seq<Seq<char>>, last: Seq<char>, c: char)
    ensures
        join_with(Seq::empty(), c) == Seq::<char>::empty(),
        join_with(seq![last], c) == last,
        parts.len() > 0 ==> join_with(parts.push(last), c) == join_with(parts, c) + seq![c] + last,
{
    if parts.len() > 0 {
        lemma_join_push(parts, last, c);
        assert(join_with(parts, c).push(c) + last =~= join_with(parts, c) + seq![c] + last);
    }
}

/// Lowering turns the letters from `A` to `Z` into those from `a` to `z` and leaves every other
/// character as it is.
pub proof fn law_lowering_changes_capital_letters(s: Seq<char>, i: int)
    requires
        0 <= i < s.len(),
    ensures
        lower(s).len() == s.len(),
        'A' <= s[i] <= 'Z' ==> lower(s)[i] as int == s[i] as int + 32,
        !('A' <= s[i] <= 'Z') ==> lower(s)[i] == s[i],
{
    assert(lower(s)[i] == lower_char(s[i]));
}

/// Texts are ordered by the first character in which they differ, and a text comes before what it
/// is the head of.
pub proof fn law_texts_are_ordered_by_their_first_difference(
    head: Seq<char>,
    a: char,
    b: char,
    x: Seq<char>,
    y: Seq<char>,
)
    ensures
        a != b ==> (text_le(head + seq![a] + x, head + seq![b] + y) <==> a < b),
        text_le(head, head + x),
        x.len() > 0 ==> !text_le(head + x, head),
    decreases head.len(),
{
    let s = head + seq![a] + x;
    let t = head + seq![b] + y;
    if head.len() > 0 {
        let rest = head.drop_first();
        law_texts_are_ordered_by_their_first_difference(rest, a, b, x, y);
        assert(s.drop_first() =~= rest + seq![a] + x);
        assert(t.drop_first() =~= rest + seq![b] + y);
        assert((head + x).drop_first() =~= rest + x);
    } else {
        assert(s[0] == a && t[0] == b);
    }
}

/// Numerals put one digit behind another, each worth the base times the one behind it, and have no
/// needless zero in front.
pub proof fn law_numerals_are_digits_in_order(n: nat, d: nat, base: nat)
    requires
        2 <= base <= 16,
        d < base,
        n > 0,
    ensures
        numeral(d, base) == seq![digit_char(d)],
        numeral(n * base + d, base) == numeral(n, base) + seq![digit_char(d)],
        d < 10 ==> digit_char(d) as int == '0' as int + d,
        10 <= d ==> digit_char(d) as int == 'a' as int + d - 10,
        decimal(d) == numeral(d, 10),
{
    let value = n * base + d;
    assert(value >= base && value / base == n && value % base == d) by (nonlinear_arith)
        requires
            value == n * base + d,
            n > 0,
            d < base,
            base >= 2,
    ;
    assert(numeral(n, base).push(digit_char(d)) =~= numeral(n, base) + seq![digit_char(d)]);
}

/// A path below a directory has one slash between the two, whether or not the directory ends in
/// one.
pub proof fn law_joined_paths_have_one_slash(directory: Seq<char>, name: Seq<char>)
    requires
        directory.len() > 0,
        directory.last() != '/',
    ensures
        path_join(directory, name) == directory + seq!['/'] + name,
        path_join(directory + seq!['/'], name) == directory + seq!['/'] + name,
        path_join(Seq::empty(), name) == name,
{
    reveal_strlit("/");
    assert("/"@ =~= seq!['/']);
    assert(Seq::<char>::empty() + name =~= name);
}

} // verus!
