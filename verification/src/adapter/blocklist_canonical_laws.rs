//! Stability of the canonical blocklist.

use crate::adapter::blocklist_lines::{
    is_line, lemma_document_lines, lemma_entries_append, lemma_entries_of_networks,
    lemma_lines_no_feed, lemma_network_line, makes_nothing, no_feed, stripped,
};
use crate::policy::blocklist::{
    arranged, canonical_lines, canonical_text, document_text, entries_of, header, header_len,
    ipv4_lines, ipv6_lines, is_note, lemma_header_len_split, line_entry, line_valid, parsed_lines,
    LineModel,
};
use crate::policy::cidr_text::{lemma_model_injective, CidrModel};
use crate::policy::effective::{lemma_ipv4_members_cover, lemma_ipv6_members_cover, listed};
use crate::policy::intervals::{blocks_v4, blocks_v6};
use crate::policy::network::{
    collapsed_v4, collapsed_v6, ipv4_members, ipv6_members, lemma_collapse_of_v4,
    lemma_collapse_of_v6,
};
use crate::policy::network_types::{AddressFamily, CanonicalCidr, Ipv4Cidr, Ipv6Cidr};
use crate::policy::span_math::{block_wf, blocks_cover, blocks_wf};
use crate::text::{
    is_space, lemma_trim_end_shape, lemma_trim_idempotent, lemma_trim_start_shape, lines, trim,
    trim_start,
};
use vstd::prelude::*;

verus! {

/// Networks of both families, IPv4 first.
pub open spec fn joined_families(v4: Seq<Ipv4Cidr>, v6: Seq<Ipv6Cidr>) -> Seq<CanonicalCidr> {
    v4.map_values(|c: Ipv4Cidr| CanonicalCidr::V4(c)) + v6.map_values(
        |c: Ipv6Cidr| CanonicalCidr::V6(c),
    )
}

/// Joined families are told apart again.
proof fn lemma_joined_members(v4: Seq<Ipv4Cidr>, v6: Seq<Ipv6Cidr>)
    ensures
        ipv4_members(joined_families(v4, v6)) == v4,
        ipv6_members(joined_families(v4, v6)) == v6,
    decreases v4.len() + v6.len(),
{
    let all = joined_families(v4, v6);
    if v6.len() > 0 {
        let front = v6.drop_last();
        lemma_joined_members(v4, front);
        assert(all.drop_last() =~= joined_families(v4, front));
        assert(all.last() == CanonicalCidr::V6(v6.last()));
        assert(front.push(v6.last()) =~= v6);
    } else if v4.len() > 0 {
        let front = v4.drop_last();
        lemma_joined_members(front, v6);
        assert(all.drop_last() =~= joined_families(front, v6));
        assert(all.last() == CanonicalCidr::V4(v4.last()));
        assert(front.push(v4.last()) =~= v4);
        assert(ipv6_members(all) =~= v6);
    } else {
        assert(ipv4_members(all) =~= v4);
        assert(ipv6_members(all) =~= v6);
    }
}

/// A trimmed line is a line and is trimmed.
proof fn lemma_trimmed_line(s: Seq<char>)
    requires
        no_feed(s),
    ensures
        is_line(trim(s)),
        trim(trim(s)) == trim(s),
        is_note(s) ==> is_note(trim(s)),
{
    let a = trim_start(s);
    let t = trim(s);
    lemma_trim_idempotent(s);
    lemma_trim_start_shape(s);
    lemma_trim_end_shape(a);
    assert forall|i: int| 0 <= i < t.len() implies #[trigger] t[i] != '\n' by {
        assert(t[i] == a[i]);
        assert(a[i] == s[s.len() - a.len() + i]);
    }
    if t.len() > 0 {
        assert(!is_space(t.last()));
    }
}

/// The first lines of a document are its header.
proof fn lemma_header_notes(all: Seq<LineModel>)
    ensures
        header_len(all) <= all.len(),
        forall|i: int| 0 <= i < header_len(all) ==> is_note(#[trigger] all[i].text),
    decreases all.len(),
{
    if all.len() > 0 && all[0].entry is None && is_note(all[0].text) {
        let rest = all.drop_first();
        lemma_header_notes(rest);
        assert forall|i: int| 0 <= i < header_len(all) implies is_note(#[trigger] all[i].text) by {
            if i > 0 {
                assert(all[i] == rest[i - 1]);
            }
        }
    }
}

/// Lines without entries have none.
proof fn lemma_no_entries(all: Seq<LineModel>)
    requires
        forall|i: int| 0 <= i < all.len() ==> (#[trigger] all[i]).entry is None,
    ensures
        entries_of(all).len() == 0,
    decreases all.len(),
{
    if all.len() > 0 {
        let front = all.drop_last();
        assert forall|i: int| 0 <= i < front.len() implies (#[trigger] front[i]).entry is None by {
            assert(front[i] == all[i]);
        }
        lemma_no_entries(front);
        assert(all[all.len() - 1].entry is None);
    }
}

/// Canonical networks are well-formed lines that hold them.
proof fn lemma_canonical_body(v4: Seq<Ipv4Cidr>, v6: Seq<Ipv6Cidr>, i: int)
    requires
        blocks_wf(32, blocks_v4(v4)),
        blocks_wf(128, blocks_v6(v6)),
        0 <= i < v4.len() + v6.len(),
    ensures
        ({
            let text = (ipv4_lines(v4) + ipv6_lines(v6))[i];
            &&& is_line(text)
            &&& text.len() > 0
            &&& !is_note(text)
            &&& line_valid(text)
            &&& line_entry(text) == Some(joined_families(v4, v6)[i]@)
        }),
{
    if i < v4.len() {
        let model = CidrModel { family: AddressFamily::Ipv4, block: v4[i]@ };
        assert(blocks_v4(v4)[i] == v4[i]@);
        assert(block_wf(32, blocks_v4(v4)[i]));
        lemma_network_line(model);
        assert(joined_families(v4, v6)[i] == CanonicalCidr::V4(v4[i]));
    } else {
        let j = i - v4.len();
        let model = CidrModel { family: AddressFamily::Ipv6, block: v6[j]@ };
        assert(blocks_v6(v6)[j] == v6[j]@);
        assert(block_wf(128, blocks_v6(v6)[j]));
        lemma_network_line(model);
        assert(joined_families(v4, v6)[i] == CanonicalCidr::V6(v6[j]));
    }
}

/// Parsing arranged lines gives their header and their networks back.
proof fn lemma_arranged_parses(
    top: Seq<Seq<char>>,
    v4: Seq<Ipv4Cidr>,
    v6: Seq<Ipv6Cidr>,
    again: Seq<LineModel>,
)
    requires
        collapsed_v4(v4, v4),
        collapsed_v6(v6, v6),
        forall|i: int|
            0 <= i < top.len() ==> is_note(#[trigger] top[i]) && trim(top[i]) == top[i],
        parsed_lines(top + (ipv4_lines(v4) + ipv6_lines(v6)), again),
    ensures
        header(again) == top,
        entries_of(again) == joined_families(v4, v6),
        canonical_lines(entries_of(again)) == ipv4_lines(v4) + ipv6_lines(v6),
{
    let body = ipv4_lines(v4) + ipv6_lines(v6);
    let all = top + body;
    let h = top.len() as int;
    assert forall|k: int| 0 <= k < h implies (#[trigger] again[k]).entry is None && is_note(
        again[k].text,
    ) by {
        assert(again[k].text == all[k] && all[k] == top[k]);
    }
    assert forall|j: int| 0 <= j < body.len() implies again[h + j].text == #[trigger] body[j]
        && again[h + j].entry == Some(joined_families(v4, v6)[j]) by {
        assert(again[h + j].text == all[h + j] && all[h + j] == body[j]);
        lemma_canonical_body(v4, v6, j);
        assert(again[h + j].entry is Some);
        lemma_model_injective(again[h + j].entry->0, joined_families(v4, v6)[j]);
    }
    if body.len() > 0 {
        assert(again[h + 0].text == body[0]);
        lemma_canonical_body(v4, v6, 0);
    }
    lemma_header_len_split(again, h);
    assert forall|i: int| 0 <= i < h implies trim(#[trigger] again[i].text) == top[i] by {
        assert(again[i].text == all[i] && all[i] == top[i]);
    }
    assert(header(again) =~= top);
    let front = again.take(h);
    let rest = again.skip(h);
    assert(again =~= front + rest);
    assert forall|i: int| 0 <= i < front.len() implies (#[trigger] front[i]).entry is None by {
        assert(front[i] == again[i]);
    }
    lemma_no_entries(front);
    assert(rest.len() == joined_families(v4, v6).len());
    assert forall|j: int| 0 <= j < rest.len() implies (#[trigger] rest[j]).entry == Some(
        joined_families(v4, v6)[j],
    ) by {
        assert(rest[j] == again[h + j]);
        assert(again[h + j].text == body[j]);
    }
    lemma_entries_append(front, rest);
    lemma_entries_of_networks(rest, joined_families(v4, v6));
    assert(entries_of(again) =~= joined_families(v4, v6));
    lemma_joined_members(v4, v6);
    lemma_collapse_of_v4(v4, v4);
    lemma_collapse_of_v6(v6, v6);
}

/// A document whose header is all there is, ends in two blank lines and has a third line: only one
/// of the blank lines is dropped at a time.
pub open spec fn ends_in_blank_lines(parsed: Seq<LineModel>) -> bool {
    let top = header(parsed);
    &&& canonical_lines(entries_of(parsed)).len() == 0
    &&& top.len() >= 3
    &&& top[top.len() - 1].len() == 0
    &&& top[top.len() - 2].len() == 0
}

/// Canonical contents are stable: they parse, and canonicalizing them again changes nothing.
///
/// `v4` and `v6` are the collapsed entries of the document. A document without entries whose
/// notes end in several blank lines loses one of them each time.
pub proof fn law_canonical_contents_are_stable(
    contents: Seq<char>,
    parsed: Seq<LineModel>,
    v4: Seq<Ipv4Cidr>,
    v6: Seq<Ipv6Cidr>,
    again: Seq<LineModel>,
)
    requires
        parsed_lines(lines(contents), parsed),
        collapsed_v4(ipv4_members(entries_of(parsed)), v4),
        collapsed_v6(ipv6_members(entries_of(parsed)), v6),
        !ends_in_blank_lines(parsed),
        ({
            let found = lines(canonical_text(parsed));
            (forall|i: int| 0 <= i < found.len() ==> line_valid(#[trigger] found[i]))
                ==> parsed_lines(found, again)
        }),
    ensures
        ({
            let found = lines(canonical_text(parsed));
            forall|i: int| 0 <= i < found.len() ==> line_valid(#[trigger] found[i])
        }),
        canonical_text(again) == canonical_text(parsed),
        entries_of(again) == joined_families(v4, v6),
        forall|i: int|
            0 <= i < header(parsed).len() && (#[trigger] header(parsed)[i]).len() > 0 ==> i
                < lines(canonical_text(parsed)).len() && lines(canonical_text(parsed))[i]
                == header(parsed)[i],
{
    let texts = lines(contents);
    let found = lines(canonical_text(parsed));
    let top = header(parsed);
    lemma_collapse_of_v4(ipv4_members(entries_of(parsed)), v4);
    lemma_collapse_of_v6(ipv6_members(entries_of(parsed)), v6);
    let body = ipv4_lines(v4) + ipv6_lines(v6);
    assert(canonical_lines(entries_of(parsed)) == body);
    lemma_header_notes(parsed);
    lemma_lines_no_feed(contents);
    assert forall|i: int| 0 <= i < top.len() implies is_line(#[trigger] top[i]) && trim(top[i])
        == top[i] && is_note(top[i]) by {
        assert(parsed[i].text == texts[i]);
        assert(is_note(parsed[i].text));
        lemma_trimmed_line(texts[i]);
    }
    let written = arranged(top, body);
    let blank = Seq::<char>::empty();
    assert(trim(blank) == blank);
    // The notes that stand above the networks.
    let above = if body.len() > 0 {
        if top.len() > 0 && top.last().len() > 0 {
            top.push(blank)
        } else {
            top
        }
    } else if top.len() > 0 && top.last().len() == 0 {
        top.drop_last()
    } else {
        top
    };
    assert(written =~= above + body);
    assert forall|i: int| 0 <= i < above.len() implies is_line(#[trigger] above[i]) && trim(
        above[i],
    ) == above[i] && is_note(above[i]) by {
        if i < top.len() {
            assert(above[i] == top[i]);
        } else {
            assert(above[i] =~= blank);
        }
    }
    assert forall|i: int| 0 <= i < written.len() implies is_line(#[trigger] written[i])
        && line_valid(written[i]) by {
        if i < above.len() {
            assert(written[i] == above[i]);
        } else {
            assert(written[i] == body[i - above.len()]);
            lemma_canonical_body(v4, v6, i - above.len());
        }
    }
    assert forall|i: int| 0 <= i < written.len() implies no_feed(#[trigger] written[i]) by {
        assert(is_line(written[i]));
    }
    lemma_document_lines(written);
    if makes_nothing(written) {
        if body.len() > 0 {
            lemma_canonical_body(v4, v6, 0);
            assert(written[above.len() as int] == body[0]);
        }
        assert(found.len() == 0);
        assert(parsed_lines(found, again));
        assert(again.len() == 0);
        assert(v4.len() == 0 && v6.len() == 0);
        lemma_arranged_parses(Seq::empty(), v4, v6, again);
        assert(header(again) =~= Seq::empty());
        assert(arranged(header(again), body) =~= Seq::<Seq<char>>::empty());
        assert(canonical_text(again) =~= document_text(written));
    } else {
        assert forall|i: int| 0 <= i < written.len() implies stripped(written)[i] == written[i] by {
            assert(is_line(written[i]));
        }
        assert(stripped(written) =~= written);
        assert(found == written);
        assert forall|i: int| 0 <= i < found.len() implies line_valid(#[trigger] found[i]) by {
            assert(line_valid(written[i]));
        }
        lemma_arranged_parses(above, v4, v6, again);
        if body.len() == 0 && above.len() > 0 && above.last().len() == 0 {
            // Only a dropped blank line behind another one leaves a blank end.
            assert(top.len() > 0 && top.last().len() == 0);
            assert(top[top.len() - 2] == above.last());
            assert(top.len() >= 3);
            assert(false);
        }
        assert(arranged(above, body) =~= above + body);
    }
}

/// Writing a blocklist in its canonical form changes no address: an entry of the document holds an
/// address exactly when an entry of its canonical form does. The notes at its head stay, in their
/// places and without white space around them.
pub proof fn law_canonical_contents_keep_every_address(
    contents: Seq<char>,
    parsed: Seq<LineModel>,
    v4: Seq<Ipv4Cidr>,
    v6: Seq<Ipv6Cidr>,
    again: Seq<LineModel>,
    a: int,
)
    requires
        parsed_lines(lines(contents), parsed),
        collapsed_v4(ipv4_members(entries_of(parsed)), v4),
        collapsed_v6(ipv6_members(entries_of(parsed)), v6),
        !ends_in_blank_lines(parsed),
        ({
            let found = lines(canonical_text(parsed));
            (forall|i: int| 0 <= i < found.len() ==> line_valid(#[trigger] found[i]))
                ==> parsed_lines(found, again)
        }),
    ensures
        listed(entries_of(again), AddressFamily::Ipv4, a) <==> listed(
            entries_of(parsed),
            AddressFamily::Ipv4,
            a,
        ),
        listed(entries_of(again), AddressFamily::Ipv6, a) <==> listed(
            entries_of(parsed),
            AddressFamily::Ipv6,
            a,
        ),
        forall|i: int|
            0 <= i < parsed.len() && (forall|k: int|
                0 <= k <= i ==> (#[trigger] parsed[k]).entry is None) && trim(
                (#[trigger] parsed[i]).text,
            ).len() > 0 ==> lines(canonical_text(parsed))[i] == trim(parsed[i].text),
{
    law_canonical_contents_are_stable(contents, parsed, v4, v6, again);
    lemma_joined_members(v4, v6);
    lemma_ipv4_members_cover(entries_of(again), a);
    lemma_ipv4_members_cover(entries_of(parsed), a);
    lemma_ipv6_members_cover(entries_of(again), a);
    lemma_ipv6_members_cover(entries_of(parsed), a);
    assert(blocks_cover(32, blocks_v4(v4), a) <==> blocks_cover(
        32,
        blocks_v4(ipv4_members(entries_of(parsed))),
        a,
    ));
    assert(blocks_cover(128, blocks_v6(v6), a) <==> blocks_cover(
        128,
        blocks_v6(ipv6_members(entries_of(parsed))),
        a,
    ));
    assert forall|i: int|
        0 <= i < parsed.len() && (forall|k: int|
            0 <= k <= i ==> (#[trigger] parsed[k]).entry is None) && trim(
            (#[trigger] parsed[i]).text,
        ).len() > 0 implies lines(canonical_text(parsed))[i] == trim(parsed[i].text) by {
        assert forall|k: int| 0 <= k <= i implies is_note(#[trigger] parsed[k].text) by {
            assert(parsed[k].entry is None);
            assert(line_valid(lines(contents)[k]));
        }
        lemma_header_reaches(parsed, i);
        assert(header(parsed)[i] == trim(parsed[i].text));
    }
}

proof fn lemma_header_reaches(all: Seq<LineModel>, i: int)
    requires
        0 <= i < all.len(),
        forall|k: int| 0 <= k <= i ==> (#[trigger] all[k]).entry is None,
        forall|k: int| 0 <= k <= i ==> is_note(#[trigger] all[k].text),
    ensures
        header_len(all) > i,
    decreases all.len(),
{
    assert(all[0].entry is None && is_note(all[0].text));
    if i > 0 {
        let rest = all.drop_first();
        assert forall|k: int| 0 <= k <= i - 1 implies (#[trigger] rest[k]).entry is None by {
            assert(all[k + 1].entry is None);
        }
        assert forall|k: int| 0 <= k <= i - 1 implies is_note(#[trigger] rest[k].text) by {
            assert(is_note(all[k + 1].text));
        }
        lemma_header_reaches(rest, i - 1);
    }
}

} // verus!
