//! Character-level text operations with exact specifications.
//!
//! Text is modelled as `Seq<char>`. Whitespace, lines and decimal numbers follow the conventions
//! of Rust's `str` methods.

use vstd::prelude::*;
use vstd::slice::{slice_subrange, slice_to_vec};

verus! {

/// [`String::push`] appends one character.
pub assume_specification[ String::push ](text: &mut String, c: char)
    ensures
        final(text)@ == old(text)@.push(c),
;

/// Characters of a string slice.
pub fn to_chars(text: &str) -> (chars: Vec<char>)
    ensures
        chars@ == text@,
{
    let mut chars: Vec<char> = Vec::new();
    for c in it: text.chars()
        invariant
            chars@ == text@.take(it.index() as int),
            it.seq() == text@,
    {
        chars.push(c);
        assert(chars@ =~= text@.take(it.index() as int + 1));
    }
    assert(chars@ =~= text@);
    chars
}

/// String made of the given characters.
pub fn from_chars(chars: &[char]) -> (text: String)
    ensures
        text@ == chars@,
{
    let mut text: String = String::new();
    let mut i: usize = 0;
    while i < chars.len()
        invariant
            i <= chars@.len(),
            text@ == chars@.take(i as int),
        decreases chars@.len() - i,
    {
        text.push(chars[i]);
        assert(text@ =~= chars@.take(i as int + 1));
        i += 1;
    }
    assert(text@ =~= chars@);
    text
}

/// Whether two strings have the same characters.
pub fn same_text(a: &str, b: &str) -> (same: bool)
    ensures
        same == (a@ == b@),
{
    let x: Vec<char> = to_chars(a);
    let y: Vec<char> = to_chars(b);
    same_chars(x.as_slice(), y.as_slice())
}

/// Whether two character slices are equal.
pub fn same_chars(a: &[char], b: &[char]) -> (same: bool)
    ensures
        same == (a@ == b@),
{
    if a.len() != b.len() {
        return false;
    }
    let mut i: usize = 0;
    while i < a.len()
        invariant
            i <= a@.len(),
            a@.len() == b@.len(),
            forall|k: int| 0 <= k < i ==> a@[k] == b@[k],
        decreases a@.len() - i,
    {
        if a[i] != b[i] {
            assert(a@[i as int] != b@[i as int]);
            return false;
        }
        i += 1;
    }
    assert(a@ =~= b@);
    true
}

/// Views of a sequence of strings.
pub open spec fn views(strings: Seq<String>) -> Seq<Seq<char>> {
    Seq::new(strings.len(), |i: int| strings[i]@)
}

// Whitespace ------------------------------------------------------------------------------------

/// Unicode `White_Space`.
pub open spec fn is_space(c: char) -> bool {
    let n = c as u32;
    ||| 0x9 <= n <= 0xd
    ||| n == 0x20
    ||| n == 0x85
    ||| n == 0xa0
    ||| n == 0x1680
    ||| 0x2000 <= n <= 0x200a
    ||| n == 0x2028
    ||| n == 0x2029
    ||| n == 0x202f
    ||| n == 0x205f
    ||| n == 0x3000
}

/// Decides [`is_space`].
pub fn is_space_char(c: char) -> (space: bool)
    ensures
        space == is_space(c),
{
    let n: u32 = c as u32;
    (0x9 <= n && n <= 0xd) || n == 0x20 || n == 0x85 || n == 0xa0 || n == 0x1680 || (0x2000 <= n && n
        <= 0x200a) || n == 0x2028 || n == 0x2029 || n == 0x202f || n == 0x205f || n == 0x3000
}

/// Text without leading whitespace.
pub open spec fn trim_start(s: Seq<char>) -> Seq<char>
    decreases s.len(),
{
    if s.len() > 0 && is_space(s[0]) {
        trim_start(s.drop_first())
    } else {
        s
    }
}

/// Text without trailing whitespace.
pub open spec fn trim_end(s: Seq<char>) -> Seq<char>
    decreases s.len(),
{
    if s.len() > 0 && is_space(s.last()) {
        trim_end(s.drop_last())
    } else {
        s
    }
}

/// Text without surrounding whitespace.
pub open spec fn trim(s: Seq<char>) -> Seq<char> {
    trim_end(trim_start(s))
}

/// Number of leading characters that are not whitespace.
pub open spec fn word_len(s: Seq<char>) -> nat
    decreases s.len(),
{
    if s.len() == 0 || is_space(s[0]) {
        0
    } else {
        1 + word_len(s.drop_first())
    }
}

/// First whitespace-delimited word; empty when there is none.
pub open spec fn first_word(s: Seq<char>) -> Seq<char> {
    trim_start(s).take(word_len(trim_start(s)) as int)
}

/// Whether the text holds whitespace.
pub open spec fn has_space(s: Seq<char>) -> bool {
    exists|i: int| 0 <= i < s.len() && is_space(#[trigger] s[i])
}

pub proof fn lemma_word_len(s: Seq<char>)
    ensures
        word_len(s) <= s.len(),
        forall|i: int| 0 <= i < word_len(s) ==> !is_space(#[trigger] s[i]),
        word_len(s) < s.len() ==> is_space(s[word_len(s) as int]),
    decreases s.len(),
{
    if s.len() > 0 && !is_space(s[0]) {
        let rest = s.drop_first();
        lemma_word_len(rest);
        assert forall|i: int| 0 <= i < word_len(s) implies !is_space(#[trigger] s[i]) by {
            if i > 0 {
                assert(s[i] == rest[i - 1]);
            }
        }
        if word_len(s) < s.len() {
            assert(s[word_len(s) as int] == rest[word_len(rest) as int]);
        }
    }
}

/// Drops leading whitespace.
pub fn trim_start_chars<'a>(s: &'a [char]) -> (rest: &'a [char])
    ensures
        rest@ == trim_start(s@),
{
    let mut i: usize = 0;
    assert(s@.skip(0) =~= s@);
    while i < s.len() && is_space_char(s[i])
        invariant
            i <= s@.len(),
            trim_start(s@) == trim_start(s@.skip(i as int)),
        decreases s@.len() - i,
    {
        assert(s@.skip(i as int).drop_first() =~= s@.skip(i as int + 1));
        i += 1;
    }
    slice_subrange(s, i, s.len())
}

/// Drops trailing whitespace.
pub fn trim_end_chars<'a>(s: &'a [char]) -> (rest: &'a [char])
    ensures
        rest@ == trim_end(s@),
{
    let mut n: usize = s.len();
    assert(s@.take(n as int) =~= s@);
    while n > 0 && is_space_char(s[n - 1])
        invariant
            n <= s@.len(),
            trim_end(s@) == trim_end(s@.take(n as int)),
        decreases n,
    {
        assert(s@.take(n as int).drop_last() =~= s@.take(n as int - 1));
        n -= 1;
    }
    slice_subrange(s, 0, n)
}

/// Drops surrounding whitespace.
pub fn trim_chars<'a>(s: &'a [char]) -> (rest: &'a [char])
    ensures
        rest@ == trim(s@),
{
    trim_end_chars(trim_start_chars(s))
}

/// First whitespace-delimited word.
pub fn first_word_chars<'a>(s: &'a [char]) -> (word: &'a [char])
    ensures
        word@ == first_word(s@),
{
    let t = trim_start_chars(s);
    let mut n: usize = 0;
    proof {
        lemma_word_len(t@);
        assert(t@.skip(0) =~= t@);
    }
    while n < t.len() && !is_space_char(t[n])
        invariant
            n <= t@.len(),
            word_len(t@) == n + word_len(t@.skip(n as int)),
        decreases t@.len() - n,
    {
        assert(t@.skip(n as int).drop_first() =~= t@.skip(n as int + 1));
        n += 1;
    }
    slice_subrange(t, 0, n)
}

/// Decides [`has_space`].
pub fn has_space_chars(s: &[char]) -> (found: bool)
    ensures
        found == has_space(s@),
{
    let mut i: usize = 0;
    while i < s.len()
        invariant
            i <= s@.len(),
            forall|k: int| 0 <= k < i ==> !is_space(#[trigger] s@[k]),
        decreases s@.len() - i,
    {
        if is_space_char(s[i]) {
            assert(is_space(s@[i as int]));
            return true;
        }
        i += 1;
    }
    false
}

/// Text without surrounding whitespace, as a new string.
pub fn trimmed(text: &str) -> (out: String)
    ensures
        out@ == trim(text@),
{
    let chars: Vec<char> = to_chars(text);
    from_chars(trim_chars(chars.as_slice()))
}

// Splitting -------------------------------------------------------------------------------------

/// Index of the first `c`, or the length when there is none.
pub open spec fn index_of(s: Seq<char>, c: char) -> nat
    decreases s.len(),
{
    if s.len() == 0 || s[0] == c {
        0
    } else {
        1 + index_of(s.drop_first(), c)
    }
}

pub proof fn lemma_index_of(s: Seq<char>, c: char)
    ensures
        index_of(s, c) <= s.len(),
        forall|i: int| 0 <= i < index_of(s, c) ==> #[trigger] s[i] != c,
        index_of(s, c) < s.len() ==> s[index_of(s, c) as int] == c,
    decreases s.len(),
{
    if s.len() > 0 && s[0] != c {
        let rest = s.drop_first();
        lemma_index_of(rest, c);
        assert forall|i: int| 0 <= i < index_of(s, c) implies #[trigger] s[i] != c by {
            if i > 0 {
                assert(s[i] == rest[i - 1]);
            }
        }
        if index_of(s, c) < s.len() {
            assert(s[index_of(s, c) as int] == rest[index_of(rest, c) as int]);
        }
    }
}

/// The first occurrence of a character is the index with no earlier one.
pub proof fn lemma_index_of_unique(s: Seq<char>, c: char, n: int)
    requires
        0 <= n <= s.len(),
        forall|i: int| 0 <= i < n ==> #[trigger] s[i] != c,
        n < s.len() ==> s[n] == c,
    ensures
        index_of(s, c) == n,
{
    lemma_index_of(s, c);
    let m = index_of(s, c) as int;
    if m < n {
        assert(s[m] != c);
    } else if n < m {
        assert(s[n] != c);
    }
}

/// Finds the first `c`.
pub fn find_char(s: &[char], c: char) -> (n: usize)
    ensures
        n == index_of(s@, c),
        n <= s@.len(),
{
    let mut n: usize = 0;
    while n < s.len() && s[n] != c
        invariant
            n <= s@.len(),
            forall|i: int| 0 <= i < n ==> #[trigger] s@[i] != c,
        decreases s@.len() - n,
    {
        n += 1;
    }
    proof {
        lemma_index_of_unique(s@, c, n as int);
    }
    n
}

/// A line without the carriage return of its line end.
pub open spec fn strip_return(s: Seq<char>) -> Seq<char> {
    if s.len() > 0 && s.last() == '\r' {
        s.drop_last()
    } else {
        s
    }
}

/// Lines of a text: a line ends with a line feed, or a carriage return and a line feed; an empty
/// last line is not counted.
pub open spec fn lines(s: Seq<char>) -> Seq<Seq<char>>
    decreases s.len(),
    via lines_decreases
{
    if s.len() == 0 {
        Seq::empty()
    } else {
        let n = index_of(s, '\n') as int;
        if n == s.len() {
            seq![s]
        } else {
            seq![strip_return(s.take(n))] + lines(s.skip(n + 1))
        }
    }
}

#[via_fn]
proof fn lines_decreases(s: Seq<char>) {
    lemma_index_of(s, '\n');
}

/// Splits a text into its lines.
pub fn split_lines(text: &str) -> (out: Vec<String>)
    ensures
        views(out@) == lines(text@),
{
    let chars: Vec<char> = to_chars(text);
    split_lines_chars(chars.as_slice())
}

/// Splits characters into lines.
pub fn split_lines_chars(chars: &[char]) -> (out: Vec<String>)
    ensures
        views(out@) == lines(chars@),
{
    let mut out: Vec<String> = Vec::new();
    let mut at: usize = 0;
    let n: usize = chars.len();
    assert(chars@.skip(0) =~= chars@);
    assert(views(out@) + lines(chars@.skip(0)) =~= lines(chars@));
    while at < n
        invariant
            n == chars@.len(),
            at <= n,
            views(out@) + lines(chars@.skip(at as int)) == lines(chars@),
        decreases n - at,
    {
        let rest = slice_subrange(chars, at, n);
        assert(rest@ =~= chars@.skip(at as int));
        let len: usize = find_char(rest, '\n');
        let ghost before = out@;
        if len == rest.len() {
            let line: String = from_chars(rest);
            out.push(line);
            assert(chars@.skip(n as int) =~= Seq::<char>::empty());
            assert(views(out@) =~= views(before).push(rest@));
            assert(views(out@) + lines(chars@.skip(n as int)) =~= views(before) + seq![rest@]);
            at = n;
        } else {
            let mut end: usize = len;
            if end > 0 && rest[end - 1] == '\r' {
                end -= 1;
            }
            let line = slice_subrange(rest, 0, end);
            assert(line@ =~= strip_return(rest@.take(len as int)));
            out.push(from_chars(line));
            assert(rest@.skip(len as int + 1) =~= chars@.skip(at as int + len as int + 1));
            assert(views(out@) =~= views(before).push(line@));
            assert(views(out@) + lines(chars@.skip(at as int + len as int + 1)) =~= views(before) + (
            seq![line@] + lines(rest@.skip(len as int + 1))));
            at = at + len + 1;
        }
    }
    assert(chars@.skip(n as int) =~= Seq::<char>::empty());
    assert(views(out@) + lines(chars@.skip(n as int)) =~= views(out@));
    out
}

// Parts ----------------------------------------------------------------------------------------

/// Parts of a text between occurrences of `c`.
pub open spec fn split_on(s: Seq<char>, c: char) -> Seq<Seq<char>>
    decreases s.len(),
    via split_on_decreases
{
    let n = index_of(s, c) as int;
    if n == s.len() {
        seq![s]
    } else {
        seq![s.take(n)] + split_on(s.skip(n + 1), c)
    }
}

#[via_fn]
proof fn split_on_decreases(s: Seq<char>, c: char) {
    lemma_index_of(s, c);
}

/// Parts with `c` between neighbours.
pub open spec fn join_with(parts: Seq<Seq<char>>, c: char) -> Seq<char>
    decreases parts.len(),
{
    if parts.len() == 0 {
        Seq::empty()
    } else if parts.len() == 1 {
        parts[0]
    } else {
        parts[0].push(c) + join_with(parts.drop_first(), c)
    }
}

/// Views of a sequence of character vectors.
pub open spec fn char_views(parts: Seq<Vec<char>>) -> Seq<Seq<char>> {
    Seq::new(parts.len(), |i: int| parts[i]@)
}

/// Splits characters at every `c`.
pub fn split_chars(s: &[char], c: char) -> (parts: Vec<Vec<char>>)
    ensures
        char_views(parts@) == split_on(s@, c),
{
    let mut parts: Vec<Vec<char>> = Vec::new();
    let mut at: usize = 0;
    let n: usize = s.len();
    assert(s@.skip(0) =~= s@);
    assert(char_views(parts@) + split_on(s@.skip(0), c) =~= split_on(s@, c));
    loop
        invariant
            n == s@.len(),
            at <= n,
            char_views(parts@) + split_on(s@.skip(at as int), c) == split_on(s@, c),
        decreases n - at,
    {
        let rest = slice_subrange(s, at, n);
        assert(rest@ =~= s@.skip(at as int));
        let len: usize = find_char(rest, c);
        let ghost before = parts@;
        let part = slice_to_vec(slice_subrange(rest, 0, len));
        assert(part@ =~= rest@.take(len as int));
        parts.push(part);
        assert(char_views(parts@) =~= char_views(before).push(rest@.take(len as int)));
        if len == rest.len() {
            assert(rest@.take(len as int) =~= rest@);
            assert(char_views(parts@) =~= char_views(before) + seq![rest@]);
            return parts;
        }
        assert(rest@.skip(len as int + 1) =~= s@.skip(at as int + len as int + 1));
        assert(char_views(parts@) + split_on(rest@.skip(len as int + 1), c) =~= char_views(before)
            + (seq![rest@.take(len as int)] + split_on(rest@.skip(len as int + 1), c)));
        at = at + len + 1;
    }
}

/// Appends characters.
pub fn push_chars(out: &mut Vec<char>, more: &[char])
    ensures
        final(out)@ == old(out)@ + more@,
{
    let ghost before = out@;
    let mut i: usize = 0;
    assert(out@ =~= before + more@.take(0));
    while i < more.len()
        invariant
            i <= more@.len(),
            out@ == before + more@.take(i as int),
        decreases more@.len() - i,
    {
        out.push(more[i]);
        assert(out@ =~= before + more@.take(i as int + 1));
        i += 1;
    }
    assert(more@.take(i as int) =~= more@);
}

/// A split has at least one part.
pub proof fn lemma_split_nonempty(s: Seq<char>, c: char)
    ensures
        split_on(s, c).len() > 0,
{
}

/// Splitting what was joined gives the parts back.
pub proof fn lemma_split_join(parts: Seq<Seq<char>>, c: char)
    requires
        parts.len() > 0,
        forall|i: int, k: int|
            0 <= i < parts.len() && 0 <= k < parts[i].len() ==> #[trigger] parts[i][k] != c,
    ensures
        split_on(join_with(parts, c), c) == parts,
    decreases parts.len(),
{
    let s = join_with(parts, c);
    if parts.len() == 1 {
        lemma_index_of_unique(s, c, s.len() as int);
        assert(split_on(s, c) =~= parts);
    } else {
        let rest = parts.drop_first();
        assert forall|i: int, k: int|
            0 <= i < rest.len() && 0 <= k < rest[i].len() implies #[trigger] rest[i][k] != c by {
            assert(rest[i] == parts[i + 1]);
            assert(parts[i + 1][k] != c);
        }
        lemma_split_join(rest, c);
        let n = parts[0].len() as int;
        assert forall|i: int| 0 <= i < n implies #[trigger] s[i] != c by {
            assert(s[i] == parts[0][i]);
        }
        lemma_index_of_unique(s, c, n);
        assert(s.take(n) =~= parts[0]);
        assert(s.skip(n + 1) =~= join_with(rest, c));
        assert(split_on(s, c) =~= parts);
    }
}

/// A text without `c` is a single part.
pub proof fn lemma_split_single(s: Seq<char>, c: char)
    requires
        forall|i: int| 0 <= i < s.len() ==> #[trigger] s[i] != c,
    ensures
        split_on(s, c) == seq![s],
{
    lemma_index_of_unique(s, c, s.len() as int);
}

/// A character other than the separator stays in some part.
pub proof fn lemma_split_keeps(s: Seq<char>, c: char, at: int) -> (part: int)
    requires
        0 <= at < s.len(),
        s[at] != c,
    ensures
        0 <= part < split_on(s, c).len(),
        split_on(s, c)[part].contains(s[at]),
    decreases s.len(),
{
    lemma_index_of(s, c);
    let n = index_of(s, c) as int;
    let parts = split_on(s, c);
    if n == s.len() {
        assert(parts[0][at] == s[at]);
        0
    } else if at < n {
        assert(parts[0] == s.take(n));
        assert(parts[0][at] == s[at]);
        0
    } else {
        let rest = s.skip(n + 1);
        assert(rest[at - n - 1] == s[at]);
        let p = lemma_split_keeps(rest, c, at - n - 1);
        assert(parts[p + 1] == split_on(rest, c)[p]);
        p + 1
    }
}

/// Every character of a join is the separator or a character of a part.
pub proof fn lemma_join_chars(parts: Seq<Seq<char>>, c: char, at: int)
    requires
        0 <= at < join_with(parts, c).len(),
    ensures
        join_with(parts, c)[at] == c || exists|i: int|
            0 <= i < parts.len() && (#[trigger] parts[i]).contains(join_with(parts, c)[at]),
    decreases parts.len(),
{
    let s = join_with(parts, c);
    if parts.len() == 1 {
        assert(parts[0].contains(s[at]));
    } else {
        let n = parts[0].len() as int;
        let rest = parts.drop_first();
        if at < n {
            assert(s[at] == parts[0][at]);
            assert(parts[0].contains(s[at]));
        } else if at > n {
            assert(s[at] == join_with(rest, c)[at - n - 1]);
            lemma_join_chars(rest, c, at - n - 1);
            if s[at] != c {
                let i = choose|i: int| 0 <= i < rest.len() && (#[trigger] rest[i]).contains(s[at]);
                assert(parts[i + 1].contains(s[at]));
            }
        }
    }
}

/// Joining one part more.
pub proof fn lemma_join_push(parts: Seq<Seq<char>>, last: Seq<char>, c: char)
    ensures
        parts.len() == 0 ==> join_with(parts.push(last), c) == last,
        parts.len() > 0 ==> join_with(parts.push(last), c) == join_with(parts, c).push(c) + last,
    decreases parts.len(),
{
    let more = parts.push(last);
    if parts.len() == 0 {
    } else if parts.len() == 1 {
        assert(more.drop_first() =~= seq![last]);
        assert(join_with(seq![last], c) == last);
        assert(join_with(more, c) =~= join_with(parts, c).push(c) + last);
    } else {
        assert(more.drop_first() =~= parts.drop_first().push(last));
        lemma_join_push(parts.drop_first(), last, c);
        assert(join_with(more, c) =~= join_with(parts, c).push(c) + last);
    }
}

/// Joins strings with `c` between neighbours.
pub fn join_strings(parts: &Vec<String>, c: char) -> (out: String)
    ensures
        out@ == join_with(views(parts@), c),
{
    let mut out: String = String::new();
    let ghost all = views(parts@);
    let mut i: usize = 0;
    assert(join_with(all.take(0), c) =~= Seq::<char>::empty());
    while i < parts.len()
        invariant
            i <= parts@.len(),
            all == views(parts@),
            out@ == join_with(all.take(i as int), c),
        decreases parts@.len() - i,
    {
        proof {
            lemma_join_push(all.take(i as int), all[i as int], c);
            assert(all.take(i as int + 1) =~= all.take(i as int).push(all[i as int]));
        }
        if i > 0 {
            out.push(c);
        }
        out.append(parts[i].as_str());
        assert(out@ =~= join_with(all.take(i as int + 1), c));
        i += 1;
    }
    assert(all.take(i as int) =~= all);
    out
}

/// Trimming twice is trimming once.
pub proof fn lemma_trim_idempotent(s: Seq<char>)
    ensures
        trim(trim(s)) == trim(s),
{
    let a = trim_start(s);
    let b = trim_end(a);
    lemma_trim_start_shape(s);
    lemma_trim_end_shape(a);
    if b.len() > 0 {
        assert(b[0] == a[0]);
        assert(trim_start(b) == b);
        assert(trim_end(b) == b);
    }
}

pub proof fn lemma_trim_start_shape(s: Seq<char>)
    ensures
        trim_start(s).len() <= s.len(),
        trim_start(s).len() > 0 ==> !is_space(trim_start(s)[0]),
        trim_start(s) == s.skip(s.len() - trim_start(s).len()),
    decreases s.len(),
{
    if s.len() > 0 && is_space(s[0]) {
        let t = s.drop_first();
        lemma_trim_start_shape(t);
        assert(t.skip(t.len() - trim_start(t).len()) =~= s.skip(s.len() - trim_start(s).len()));
    } else {
        assert(s.skip(0) =~= s);
    }
}

pub proof fn lemma_trim_end_shape(s: Seq<char>)
    ensures
        trim_end(s).len() <= s.len(),
        trim_end(s).len() > 0 ==> !is_space(trim_end(s).last()),
        trim_end(s) == s.take(trim_end(s).len() as int),
    decreases s.len(),
{
    if s.len() > 0 && is_space(s.last()) {
        let t = s.drop_last();
        lemma_trim_end_shape(t);
        assert(t.take(trim_end(t).len() as int) =~= s.take(trim_end(s).len() as int));
    } else {
        assert(s.take(s.len() as int) =~= s);
    }
}

// Searching -------------------------------------------------------------------------------------

/// Whether `s` starts with `head`.
pub open spec fn starts_with(s: Seq<char>, head: Seq<char>) -> bool {
    head.len() <= s.len() && s.take(head.len() as int) == head
}

/// Decides [`starts_with`].
pub fn starts_with_chars(s: &[char], head: &[char]) -> (found: bool)
    ensures
        found == starts_with(s@, head@),
{
    if head.len() > s.len() {
        return false;
    }
    let front = slice_subrange(s, 0, head.len());
    same_chars(front, head)
}

/// Whether `part` occurs in `s`.
pub open spec fn contains_text(s: Seq<char>, part: Seq<char>) -> bool {
    exists|i: int| 0 <= i <= s.len() && starts_with(#[trigger] s.skip(i), part)
}

/// Decides [`contains_text`].
pub fn contains_chars(s: &[char], part: &[char]) -> (found: bool)
    ensures
        found == contains_text(s@, part@),
{
    let n: usize = s.len();
    let mut i: usize = 0;
    while i < n
        invariant
            n == s@.len(),
            i <= n,
            forall|k: int| 0 <= k < i ==> !starts_with(#[trigger] s@.skip(k), part@),
        decreases n - i,
    {
        let rest = slice_subrange(s, i, n);
        assert(rest@ =~= s@.skip(i as int));
        if starts_with_chars(rest, part) {
            return true;
        }
        i += 1;
    }
    let rest = slice_subrange(s, n, n);
    assert(rest@ =~= s@.skip(n as int));
    starts_with_chars(rest, part)
}

// Case ------------------------------------------------------------------------------------------

/// ASCII upper case letters become lower case; other characters stay.
pub open spec fn lower_char(c: char) -> char {
    if 'A' <= c <= 'Z' {
        ((c as u8) + 32) as char
    } else {
        c
    }
}

/// Text with every character lowered by [`lower_char`].
pub open spec fn lower(s: Seq<char>) -> Seq<char> {
    Seq::new(s.len(), |i: int| lower_char(s[i]))
}

/// Lowers ASCII upper case letters.
pub fn lower_chars(s: &[char]) -> (out: Vec<char>)
    ensures
        out@ == lower(s@),
{
    let mut out: Vec<char> = Vec::with_capacity(s.len());
    let mut i: usize = 0;
    while i < s.len()
        invariant
            i <= s@.len(),
            out@.len() == i,
            forall|k: int| 0 <= k < i ==> #[trigger] out@[k] == lower_char(s@[k]),
        decreases s@.len() - i,
    {
        let c: char = s[i];
        if 'A' <= c && c <= 'Z' {
            out.push((c as u8 + 32) as char);
        } else {
            out.push(c);
        }
        i += 1;
    }
    assert(out@ =~= lower(s@));
    out
}

// Order -----------------------------------------------------------------------------------------

/// Lexicographic order by code point.
pub open spec fn text_le(a: Seq<char>, b: Seq<char>) -> bool
    decreases a.len(),
{
    if a.len() == 0 {
        true
    } else if b.len() == 0 {
        false
    } else if a[0] == b[0] {
        text_le(a.drop_first(), b.drop_first())
    } else {
        a[0] < b[0]
    }
}

pub proof fn lemma_text_le_total(a: Seq<char>, b: Seq<char>)
    ensures
        text_le(a, b) || text_le(b, a),
    decreases a.len(),
{
    if a.len() > 0 && b.len() > 0 && a[0] == b[0] {
        lemma_text_le_total(a.drop_first(), b.drop_first());
    }
}

pub proof fn lemma_text_le_transitive(a: Seq<char>, b: Seq<char>, c: Seq<char>)
    requires
        text_le(a, b),
        text_le(b, c),
    ensures
        text_le(a, c),
    decreases a.len(),
{
    if a.len() > 0 && b.len() > 0 && c.len() > 0 && a[0] == b[0] && b[0] == c[0] {
        lemma_text_le_transitive(a.drop_first(), b.drop_first(), c.drop_first());
    }
}

pub proof fn lemma_text_le_antisymmetric(a: Seq<char>, b: Seq<char>)
    requires
        text_le(a, b),
        text_le(b, a),
    ensures
        a == b,
    decreases a.len(),
{
    if a.len() == 0 {
        assert(a =~= b);
    } else {
        lemma_text_le_antisymmetric(a.drop_first(), b.drop_first());
        assert(a =~= seq![a[0]] + a.drop_first());
        assert(b =~= seq![b[0]] + b.drop_first());
    }
}

/// Decides [`text_le`].
pub fn text_le_chars(a: &[char], b: &[char]) -> (le: bool)
    ensures
        le == text_le(a@, b@),
{
    let mut i: usize = 0;
    assert(a@.skip(0) =~= a@);
    assert(b@.skip(0) =~= b@);
    while i < a.len()
        invariant
            i <= a@.len(),
            i <= b@.len(),
            text_le(a@, b@) == text_le(a@.skip(i as int), b@.skip(i as int)),
        decreases a@.len() - i,
    {
        if i >= b.len() {
            return false;
        }
        if a[i] != b[i] {
            return a[i] < b[i];
        }
        assert(a@.skip(i as int).drop_first() =~= a@.skip(i as int + 1));
        assert(b@.skip(i as int).drop_first() =~= b@.skip(i as int + 1));
        i += 1;
    }
    true
}

/// Decides [`text_le`] on strings.
pub fn text_le_str(a: &str, b: &str) -> (le: bool)
    ensures
        le == text_le(a@, b@),
{
    let x: Vec<char> = to_chars(a);
    let y: Vec<char> = to_chars(b);
    text_le_chars(x.as_slice(), y.as_slice())
}

} // verus!
