//! Lines of written blocklists.

use crate::adapter::blocklist_file::{appended, entry_lines};
use crate::policy::blocklist::{
    document_text, entries_of, is_note, line_entry, line_valid, parsed_lines, LineModel,
};
use crate::policy::cidr_text::{
    cidr_text, law_cidr_text_reads_back, lemma_cidr_text_chars, lemma_model_injective, model_valid,
};
use crate::policy::network_types::CanonicalCidr;
use crate::text::{
    index_of, is_space, join_with, lemma_index_of, lemma_index_of_unique, lemma_join_push, lines,
    strip_return, trim, trim_start,
};
use vstd::prelude::*;

verus! {

/// Lines of a text behind a finished line.
pub proof fn lemma_lines_append(a: Seq<char>, b: Seq<char>)
    requires
        a.len() == 0 || a.last() == '\n',
    ensures
        lines(a + b) == lines(a) + lines(b),
    decreases a.len(),
{
    if a.len() == 0 {
        assert(a + b =~= b);
        assert(lines(a) + lines(b) =~= lines(b));
    } else {
        lemma_index_of(a, '\n');
        let n = index_of(a, '\n') as int;
        let all = a + b;
        assert(n < a.len()) by {
            if n == a.len() {
                assert(a[a.len() - 1] == '\n');
            }
        }
        assert forall|i: int| 0 <= i < n implies #[trigger] all[i] != '\n' by {
            assert(all[i] == a[i]);
        }
        assert(all[n] == '\n');
        lemma_index_of_unique(all, '\n', n);
        let rest = a.skip(n + 1);
        assert(all.take(n) =~= a.take(n));
        assert(all.skip(n + 1) =~= rest + b);
        assert(rest.len() > 0 ==> rest.last() == a.last());
        lemma_lines_append(rest, b);
        assert(lines(all) =~= seq![strip_return(a.take(n))] + (lines(rest) + lines(b)));
        assert(lines(a) + lines(b) =~= lines(all));
    }
}

/// A finished line is one line.
pub proof fn lemma_finished_line(line: Seq<char>)
    requires
        forall|i: int| 0 <= i < line.len() ==> #[trigger] line[i] != '\n',
    ensures
        lines(line.push('\n')) == seq![strip_return(line)],
{
    let s = line.push('\n');
    assert forall|i: int| 0 <= i < line.len() implies #[trigger] s[i] != '\n' by {
        assert(s[i] == line[i]);
    }
    assert(s[line.len() as int] == '\n');
    lemma_index_of_unique(s, '\n', line.len() as int);
    assert(s.take(line.len() as int) =~= line);
    assert(s.skip(line.len() as int + 1) =~= Seq::<char>::empty());
    assert(lines(s.skip(line.len() as int + 1)) =~= Seq::empty());
    assert(lines(s) =~= seq![strip_return(line)]);
}

/// The text holds no line feed.
pub open spec fn no_feed(s: Seq<char>) -> bool {
    forall|i: int| 0 <= i < s.len() ==> #[trigger] s[i] != '\n'
}

/// The text is a single line: it holds no line feed and ends in no carriage return.
pub open spec fn is_line(s: Seq<char>) -> bool {
    &&& no_feed(s)
    &&& s.len() > 0 ==> s.last() != '\r'
}

/// Texts without the carriage returns that they end in.
pub open spec fn stripped(texts: Seq<Seq<char>>) -> Seq<Seq<char>> {
    texts.map_values(|t: Seq<char>| strip_return(t))
}

/// Texts without line feeds are the lines of their text.
pub proof fn lemma_entry_lines(entries: Seq<Seq<char>>)
    requires
        forall|i: int| 0 <= i < entries.len() ==> no_feed(#[trigger] entries[i]),
    ensures
        lines(entry_lines(entries)) == stripped(entries),
        entry_lines(entries).len() > 0 ==> entry_lines(entries).last() == '\n',
    decreases entries.len(),
{
    if entries.len() == 0 {
        assert(lines(entry_lines(entries)) =~= stripped(entries));
    } else {
        let front = entries.drop_last();
        assert forall|i: int| 0 <= i < front.len() implies no_feed(#[trigger] front[i]) by {
            assert(front[i] == entries[i]);
        }
        lemma_entry_lines(front);
        let last = entries.last();
        assert(no_feed(entries[entries.len() - 1]));
        lemma_lines_append(entry_lines(front), last.push('\n'));
        lemma_finished_line(last);
        assert(lines(entry_lines(entries)) =~= stripped(entries));
    }
}

/// Lines hold no line feed.
pub proof fn lemma_lines_no_feed(s: Seq<char>)
    ensures
        forall|i: int| 0 <= i < lines(s).len() ==> no_feed(#[trigger] lines(s)[i]),
    decreases s.len(),
{
    if s.len() > 0 {
        lemma_index_of(s, '\n');
        let n = index_of(s, '\n') as int;
        if n == s.len() {
            assert(no_feed(s));
        } else {
            let first = strip_return(s.take(n));
            let rest = lines(s.skip(n + 1));
            lemma_lines_no_feed(s.skip(n + 1));
            assert forall|i: int| 0 <= i < first.len() implies #[trigger] first[i] != '\n' by {
                assert(first[i] == s[i]);
            }
            assert forall|i: int| 0 <= i < lines(s).len() implies no_feed(
                #[trigger] lines(s)[i],
            ) by {
                if i > 0 {
                    assert(lines(s)[i] == rest[i - 1]);
                }
            }
        }
    }
}

/// Lines of contents once their last line is finished: that line loses a carriage return that it
/// ends in.
pub open spec fn finished_lines(contents: Seq<char>) -> Seq<Seq<char>> {
    let all = lines(contents);
    if contents.len() > 0 && contents.last() != '\n' {
        all.drop_last().push(strip_return(all.last()))
    } else {
        all
    }
}

/// A last line without a line feed may get one.
proof fn lemma_finish_last_line(s: Seq<char>)
    requires
        s.len() > 0,
        s.last() != '\n',
    ensures
        lines(s).len() > 0,
        lines(s.push('\n')) == finished_lines(s),
        s.last() != '\r' ==> finished_lines(s) == lines(s),
    decreases s.len(),
{
    lemma_index_of(s, '\n');
    let n = index_of(s, '\n') as int;
    let t = s.push('\n');
    if n == s.len() {
        lemma_finished_line(s);
        assert(lines(s) =~= seq![s]);
        assert(finished_lines(s) =~= seq![strip_return(s)]);
    } else {
        assert forall|i: int| 0 <= i < n implies #[trigger] t[i] != '\n' by {
            assert(t[i] == s[i]);
        }
        assert(t[n] == '\n');
        lemma_index_of_unique(t, '\n', n);
        let rest = s.skip(n + 1);
        assert(t.take(n) =~= s.take(n));
        assert(t.skip(n + 1) =~= rest.push('\n'));
        assert(rest.len() > 0);
        assert(rest.last() == s.last());
        lemma_finish_last_line(rest);
        let first = seq![strip_return(s.take(n))];
        assert(lines(s) =~= first + lines(rest));
        assert(lines(t) =~= first + lines(rest.push('\n')));
        assert((first + lines(rest)).drop_last() =~= first + lines(rest).drop_last());
        assert(finished_lines(s) =~= first + finished_lines(rest));
    }
}

/// Contents that are not empty have a line.
pub proof fn lemma_lines_nonempty(s: Seq<char>)
    requires
        s.len() > 0,
    ensures
        lines(s).len() > 0,
{
}

/// Appending entries keeps every line of the contents and adds the entries behind them, whether or
/// not the contents end in a line feed. Contents that end in a bare carriage return lose it.
pub proof fn law_append_keeps_lines(contents: Seq<char>, entries: Seq<Seq<char>>)
    requires
        forall|i: int| 0 <= i < entries.len() ==> is_line(#[trigger] entries[i]),
    ensures
        lines(
            appended(
                contents,
                entries,
                contents.len() > 0,
                contents.len() > 0 && contents.last() == '\n',
            ),
        ) == finished_lines(contents) + entries,
        contents.len() > 0 && contents.last() == '\r' || finished_lines(contents) == lines(
            contents,
        ),
{
    assert forall|i: int| 0 <= i < entries.len() implies no_feed(#[trigger] entries[i]) by {
        assert(is_line(entries[i]));
    }
    lemma_entry_lines(entries);
    assert forall|i: int| 0 <= i < entries.len() implies stripped(entries)[i] == entries[i] by {
        assert(is_line(entries[i]));
    }
    assert(stripped(entries) =~= entries);
    if contents.len() > 0 && contents.last() != '\n' {
        lemma_finish_last_line(contents);
        lemma_lines_append(contents.push('\n'), entry_lines(entries));
    } else {
        lemma_lines_append(contents, entry_lines(entries));
    }
}

/// Joined texts with a line feed behind them are finished lines.
proof fn lemma_joined_lines(all: Seq<Seq<char>>)
    requires
        all.len() > 0,
    ensures
        join_with(all, '\n').push('\n') == entry_lines(all),
    decreases all.len(),
{
    let front = all.drop_last();
    assert(all =~= front.push(all.last()));
    if front.len() == 0 {
        assert(entry_lines(front) =~= Seq::<char>::empty());
        assert(entry_lines(all) =~= all.last().push('\n'));
        assert(join_with(all, '\n') == all[0]);
    } else {
        lemma_joined_lines(front);
        lemma_join_push(front, all.last(), '\n');
        assert(join_with(all, '\n').push('\n') =~= join_with(front, '\n').push('\n')
            + all.last().push('\n'));
        assert(entry_lines(all) =~= join_with(all, '\n').push('\n'));
    }
}

/// The texts make no document: there are none, or only an empty one.
pub open spec fn makes_nothing(all: Seq<Seq<char>>) -> bool {
    all.len() == 0 || (all.len() == 1 && all[0].len() == 0)
}

/// Lines of a document that is written from texts without line feeds.
pub proof fn lemma_document_lines(all: Seq<Seq<char>>)
    requires
        forall|i: int| 0 <= i < all.len() ==> no_feed(#[trigger] all[i]),
    ensures
        makes_nothing(all) ==> document_text(all).len() == 0 && lines(document_text(all)).len()
            == 0,
        !makes_nothing(all) ==> lines(document_text(all)) == stripped(all),
{
    let joined = join_with(all, '\n');
    if !makes_nothing(all) {
        assert(joined.len() > 0) by {
            if all.len() > 1 {
                assert(joined =~= all[0].push('\n') + join_with(all.drop_first(), '\n'));
            }
        }
        lemma_joined_lines(all);
        lemma_entry_lines(all);
    }
}

// Trimmed lines ---------------------------------------------------------------------------------

/// White space behind a text does not change what is left of it.
proof fn lemma_trim_push(s: Seq<char>, c: char)
    requires
        is_space(c),
    ensures
        trim(s.push(c)) == trim(s),
    decreases s.len(),
{
    let t = s.push(c);
    if s.len() == 0 {
        assert(t.drop_first() =~= s);
        assert(trim_start(t) == trim_start(s));
    } else if is_space(s[0]) {
        assert(t[0] == s[0]);
        assert(t.drop_first() =~= s.drop_first().push(c));
        lemma_trim_push(s.drop_first(), c);
    } else {
        assert(t[0] == s[0]);
        assert(trim_start(t) == t && trim_start(s) == s);
        assert(t.drop_last() =~= s);
    }
}

/// A carriage return behind a line does not change what the line holds.
pub proof fn lemma_strip_return_holds(s: Seq<char>)
    ensures
        line_valid(strip_return(s)) == line_valid(s),
        line_entry(strip_return(s)) == line_entry(s),
        is_note(strip_return(s)) == is_note(s),
{
    if s.len() > 0 && s.last() == '\r' {
        lemma_trim_push(s.drop_last(), '\r');
        assert(s =~= s.drop_last().push('\r'));
    }
}

// Entries ---------------------------------------------------------------------------------------

/// The line of a network holds that network and nothing else.
pub proof fn lemma_network_line(model: crate::policy::cidr_text::CidrModel)
    requires
        model_valid(model),
    ensures
        is_line(cidr_text(model)),
        cidr_text(model).len() > 0,
        !is_note(cidr_text(model)),
        line_valid(cidr_text(model)),
        line_entry(cidr_text(model)) == Some(model),
{
    let s = cidr_text(model);
    law_cidr_text_reads_back(model);
    lemma_cidr_text_chars(model);
    assert(s[s.len() - 1] != '\r');
    assert(!is_space(s[0]) && !is_space(s[s.len() - 1]));
    assert(trim(s) =~= s);
    assert(s[0] != '#');
}

/// Entries of lines, then of more lines.
pub proof fn lemma_entries_append(before: Seq<LineModel>, more: Seq<LineModel>)
    ensures
        entries_of(before + more) == entries_of(before) + entries_of(more),
    decreases more.len(),
{
    if more.len() == 0 {
        assert(before + more =~= before);
        assert(entries_of(before) + entries_of(more) =~= entries_of(before));
    } else {
        let front = more.drop_last();
        lemma_entries_append(before, front);
        assert((before + more).drop_last() =~= before + front);
        assert((before + more).last() == more.last());
        assert(entries_of(before + more) =~= entries_of(before) + entries_of(more));
    }
}

/// Entries of lines that hold a network each.
pub proof fn lemma_entries_of_networks(lines: Seq<LineModel>, networks: Seq<CanonicalCidr>)
    requires
        lines.len() == networks.len(),
        forall|i: int|
            0 <= i < lines.len() ==> (#[trigger] lines[i]).entry == Some(networks[i]),
    ensures
        entries_of(lines) == networks,
    decreases lines.len(),
{
    if lines.len() == 0 {
        assert(entries_of(lines) =~= networks);
    } else {
        let front = lines.drop_last();
        let fewer = networks.drop_last();
        assert forall|i: int| 0 <= i < front.len() implies (#[trigger] front[i]).entry == Some(
            fewer[i],
        ) by {
            assert(front[i] == lines[i]);
        }
        lemma_entries_of_networks(front, fewer);
        assert(lines[lines.len() - 1].entry == Some(networks[networks.len() - 1]));
        assert(entries_of(lines) =~= networks);
    }
}

/// Lines with the same entries have the same list of entries.
pub proof fn lemma_same_entries(a: Seq<LineModel>, b: Seq<LineModel>)
    requires
        a.len() == b.len(),
        forall|i: int| 0 <= i < a.len() ==> (#[trigger] a[i]).entry == b[i].entry,
    ensures
        entries_of(a) == entries_of(b),
    decreases a.len(),
{
    if a.len() == 0 {
        assert(entries_of(a) =~= entries_of(b));
    } else {
        let front = a.drop_last();
        let other = b.drop_last();
        assert forall|i: int| 0 <= i < front.len() implies (#[trigger] front[i]).entry
            == other[i].entry by {
            assert(front[i] == a[i]);
        }
        lemma_same_entries(front, other);
        assert(a[a.len() - 1].entry == b[b.len() - 1].entry);
    }
}

/// Texts that hold the same are parsed to the same entries.
pub proof fn lemma_parsed_alike(
    texts: Seq<Seq<char>>,
    before: Seq<LineModel>,
    others: Seq<Seq<char>>,
    after: Seq<LineModel>,
)
    requires
        parsed_lines(texts, before),
        parsed_lines(others, after),
        texts.len() == others.len(),
        forall|i: int|
            0 <= i < texts.len() ==> line_entry(#[trigger] texts[i]) == line_entry(others[i]),
    ensures
        entries_of(before) == entries_of(after),
{
    assert forall|i: int| 0 <= i < before.len() implies (#[trigger] before[i]).entry
        == after[i].entry by {
        assert(before[i].text == texts[i] && after[i].text == others[i]);
        if let Some(a) = before[i].entry {
            if let Some(b) = after[i].entry {
                lemma_model_injective(a, b);
            }
        }
    }
    lemma_same_entries(before, after);
}

} // verus!
