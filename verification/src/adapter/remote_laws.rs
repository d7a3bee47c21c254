//! Laws of remote feeds and their caches.

use crate::adapter::cache_generation::{
    generation_message, generation_text, option_text, GenerationCandidate, GenerationFile,
};
use crate::adapter::http_cache::{
    contents_match, generation_agrees, is_member_list, rejection, update_of, RemoteCacheMetadata,
    RemoteGenerationReading, RemoteUpdate, GENERATION_IPLIST_FILE, GENERATION_METADATA_FILE,
    GENERATION_RAW_FILE,
};
use crate::adapter::http_fetch::HttpResponse;
use crate::adapter::remote_parse::{
    broken_limit, data_count, feed_item, feed_line, feed_networks, feed_token, is_data,
    lemma_ascending_distinct, lemma_counts, lemma_within_limits, lists_networks, network_texts,
    normalized_text, utf8_lossy, FeedItem, RemoteFeedLimits,
};
use crate::ordering::{lemma_sorted_members, stably_sorted, Ranked};
use crate::policy::cidr_order::{ascending_cidrs, lemma_sorted_distinct_unique, sorted_distinct};
use crate::policy::cidr_text::{
    cidr_text, law_cidr_text_reads_back, lemma_bare_text, lemma_cidr_text_chars,
    lemma_model_injective, model_valid, models, CidrModel,
};
use crate::policy::network_types::CanonicalCidr;
use crate::text::{
    join_with, lemma_index_of_unique, lemma_text_le_antisymmetric, lines, strip_return, text_le,
    trim,
};
use vstd::prelude::*;

verus! {

/// Joined lines split into the same lines.
proof fn lemma_lines_join(parts: Seq<Seq<char>>)
    requires
        forall|i: int|
            0 <= i < parts.len() ==> (#[trigger] parts[i]).len() > 0 && parts[i].last() != '\r'
                && !parts[i].contains('\n'),
    ensures
        lines(join_with(parts, '\n')) == parts,
    decreases parts.len(),
{
    let s = join_with(parts, '\n');
    if parts.len() == 0 {
        assert(lines(s) =~= parts);
    } else {
        let first = parts[0];
        let n = first.len() as int;
        assert forall|i: int| 0 <= i < n implies #[trigger] s[i] != '\n' by {
            assert(s[i] == first[i]);
            assert(first.contains(first[i]));
        }
        lemma_index_of_unique(s, '\n', n);
        if parts.len() == 1 {
            assert(s =~= first);
            assert(lines(s) =~= parts);
        } else {
            let rest = parts.drop_first();
            assert forall|i: int| 0 <= i < rest.len() implies (#[trigger] rest[i]).len() > 0
                && rest[i].last() != '\r' && !rest[i].contains('\n') by {
                assert(rest[i] == parts[i + 1]);
            }
            lemma_lines_join(rest);
            assert(s.take(n) =~= first);
            assert(s.skip(n + 1) =~= join_with(rest, '\n'));
            assert(strip_return(first) == first);
            assert(lines(s) =~= parts);
        }
    }
}

/// The line of a network is a data line that holds the network.
proof fn lemma_feed_network_line(model: CidrModel)
    requires
        model_valid(model),
    ensures
        is_data(cidr_text(model)),
        feed_item(cidr_text(model)) == FeedItem::Network(model),
{
    let s = cidr_text(model);
    lemma_cidr_text_chars(model);
    law_cidr_text_reads_back(model);
    lemma_bare_text(s);
    assert(s[0] != '\u{feff}');
    assert(feed_line(s) == s);
    assert forall|i: int| 0 <= i < s.len() implies #[trigger] s[i] != ',' by {}
    lemma_index_of_unique(s, ',', s.len() as int);
    assert(s.take(s.len() as int) =~= s);
    assert(feed_token(s) == s);
}

proof fn lemma_feed_of_networks(cidrs: Seq<CanonicalCidr>, limits: RemoteFeedLimits)
    requires
        forall|i: int| 0 <= i < cidrs.len() ==> model_valid((#[trigger] cidrs[i])@),
        cidrs.len() <= limits.data_lines,
        cidrs.len() <= limits.unique_cidrs,
    ensures
        feed_networks(network_texts(cidrs)) == models(cidrs),
        data_count(network_texts(cidrs)) == cidrs.len(),
        broken_limit(network_texts(cidrs), limits) is None,
    decreases cidrs.len(),
{
    let texts = network_texts(cidrs);
    if cidrs.len() == 0 {
        assert(feed_networks(texts) =~= models(cidrs));
    } else {
        let front = cidrs.drop_last();
        assert(network_texts(front) =~= texts.drop_last());
        assert forall|i: int| 0 <= i < front.len() implies model_valid((#[trigger] front[i])@) by {
            assert(front[i] == cidrs[i]);
        }
        lemma_feed_of_networks(front, limits);
        assert(model_valid(cidrs[cidrs.len() - 1]@));
        lemma_feed_network_line(cidrs.last()@);
        assert(texts.last() == cidr_text(cidrs.last()@));
        assert(models(cidrs) =~= models(front).push(cidrs.last()@));
        models(cidrs).lemma_cardinality_of_set();
    }
}

/// The networks of a feed have one listing.
pub(crate) proof fn lemma_listing_unique(
    x: Seq<CanonicalCidr>,
    y: Seq<CanonicalCidr>,
    fed: Seq<CidrModel>,
)
    requires
        lists_networks(x, fed),
        lists_networks(y, fed),
    ensures
        x == y,
{
    let a = models(x);
    let b = models(y);
    assert forall|c: CanonicalCidr| #[trigger] x.contains(c) <==> y.contains(c) by {
        if x.contains(c) {
            let k = choose|k: int| 0 <= k < x.len() && x[k] == c;
            assert(a[k] == c@);
            assert(a.to_set().contains(c@));
            assert(b.contains(c@));
            let j = choose|j: int| 0 <= j < b.len() && b[j] == c@;
            lemma_model_injective(y[j], c);
            assert(y[j] == c);
        }
        if y.contains(c) {
            let k = choose|k: int| 0 <= k < y.len() && y[k] == c;
            assert(b[k] == c@);
            assert(b.to_set().contains(c@));
            assert(a.contains(c@));
            let j = choose|j: int| 0 <= j < a.len() && a[j] == c@;
            lemma_model_injective(x[j], c);
            assert(x[j] == c);
        }
    }
    assert(sorted_distinct(x, y));
    assert(sorted_distinct(x, x));
    lemma_sorted_distinct_unique(x, y, x);
}

/// A list of networks that was written reads back as the same list: lists in ascending order,
/// written one network for each line, break no limit that they fit into, and every listing of the
/// networks read is the list that was written.
pub proof fn law_written_list_reads_back(
    cidrs: Seq<CanonicalCidr>,
    limits: RemoteFeedLimits,
    read: Seq<CanonicalCidr>,
)
    requires
        ascending_cidrs(cidrs),
        forall|i: int| 0 <= i < cidrs.len() ==> model_valid((#[trigger] cidrs[i])@),
        cidrs.len() <= limits.data_lines,
        cidrs.len() <= limits.unique_cidrs,
    ensures
        lines(normalized_text(cidrs)) == network_texts(cidrs),
        broken_limit(lines(normalized_text(cidrs)), limits) is None,
        feed_networks(lines(normalized_text(cidrs))) == models(cidrs),
        lists_networks(read, feed_networks(lines(normalized_text(cidrs)))) <==> read == cidrs,
{
    let texts = network_texts(cidrs);
    assert forall|i: int| 0 <= i < texts.len() implies (#[trigger] texts[i]).len() > 0
        && texts[i].last() != '\r' && !texts[i].contains('\n') by {
        assert(model_valid(cidrs[i]@));
        lemma_cidr_text_chars(cidrs[i]@);
        let s = cidr_text(cidrs[i]@);
        assert(s[s.len() - 1] != '\r');
        if s.contains('\n') {
            let k = choose|k: int| 0 <= k < s.len() && s[k] == '\n';
            assert(s[k] != '\n');
        }
    }
    lemma_lines_join(texts);
    lemma_feed_of_networks(cidrs, limits);
    if lists_networks(read, models(cidrs)) {
        lemma_listing_unique(cidrs, read, models(cidrs));
    }
}

// Identifiers -----------------------------------------------------------------------------------

/// Names and contents of files.
pub open spec fn file_views<'a>(files: Seq<GenerationFile<'a>>) -> Seq<(Seq<char>, Seq<u8>)> {
    Seq::new(files.len(), |i: int| files[i]@)
}

/// Files are told apart by their names.
pub open spec fn distinct_names(files: Seq<(Seq<char>, Seq<u8>)>) -> bool {
    forall|i: int, j: int|
        0 <= i < j < files.len() ==> (#[trigger] files[i]).0 != (#[trigger] files[j]).0
}

/// Files in the order of their names.
pub open spec fn name_ordered(files: Seq<(Seq<char>, Seq<u8>)>) -> bool {
    forall|i: int, j: int|
        0 <= i < j < files.len() ==> text_le((#[trigger] files[i]).0, (#[trigger] files[j]).0)
}

proof fn lemma_message_of_views<'a, 'b>(a: Seq<GenerationFile<'a>>, b: Seq<GenerationFile<'b>>)
    requires
        file_views(a) == file_views(b),
    ensures
        generation_message(a) == generation_message(b),
    decreases a.len(),
{
    assert(a.len() == file_views(a).len() && b.len() == file_views(b).len());
    if a.len() > 0 {
        assert(file_views(a)[a.len() - 1] == a.last()@);
        assert(file_views(b)[b.len() - 1] == b.last()@);
        assert forall|i: int| 0 <= i < a.len() - 1 implies file_views(a.drop_last())[i]
            == file_views(b.drop_last())[i] by {
            assert(file_views(a)[i] == file_views(b)[i]);
        }
        assert(file_views(a.drop_last()) =~= file_views(b.drop_last()));
        lemma_message_of_views(a.drop_last(), b.drop_last());
    }
}

/// Two lists of the same files, both in the order of distinct names, are equal.
proof fn lemma_ordered_views_unique(
    a: Seq<(Seq<char>, Seq<u8>)>,
    b: Seq<(Seq<char>, Seq<u8>)>,
)
    requires
        name_ordered(a),
        name_ordered(b),
        distinct_names(a),
        distinct_names(b),
        forall|f: (Seq<char>, Seq<u8>)| #[trigger] a.contains(f) <==> b.contains(f),
    ensures
        a == b,
    decreases a.len(),
{
    if a.len() == 0 {
        if b.len() > 0 {
            assert(b.contains(b[0]));
            assert(a.contains(b[0]));
        }
        assert(a =~= b);
    } else {
        assert(a.contains(a.last()));
        let j = choose|j: int| 0 <= j < b.len() && b[j] == a.last();
        assert(b.contains(b.last()));
        assert(a.contains(b.last()));
        let i = choose|i: int| 0 <= i < a.len() && a[i] == b.last();
        if j < b.len() - 1 {
            assert(text_le(b[j].0, b[b.len() - 1].0));
            if i < a.len() - 1 {
                assert(text_le(a[i].0, a[a.len() - 1].0));
                lemma_text_le_antisymmetric(a.last().0, b.last().0);
                assert(a[i].0 != a[a.len() - 1].0);
            } else {
                assert(b[j].0 != b[b.len() - 1].0);
            }
        }
        assert(a.last() == b.last());
        let x = a.drop_last();
        let y = b.drop_last();
        assert forall|f: (Seq<char>, Seq<u8>)| #[trigger] x.contains(f) <==> y.contains(f) by {
            if x.contains(f) {
                let k = choose|k: int| 0 <= k < x.len() && x[k] == f;
                assert(a[k] == f);
                assert(a.contains(f));
                let m = choose|m: int| 0 <= m < b.len() && b[m] == f;
                assert(a[k].0 != a[a.len() - 1].0);
                assert(y[m] == f);
            }
            if y.contains(f) {
                let k = choose|k: int| 0 <= k < y.len() && y[k] == f;
                assert(b[k] == f);
                assert(b.contains(f));
                assert(a.contains(f));
                let m = choose|m: int| 0 <= m < a.len() && a[m] == f;
                assert(b[k].0 != b[b.len() - 1].0);
                assert(x[m] == f);
            }
        }
        assert forall|p: int, q: int| 0 <= p < q < x.len() implies text_le(
            (#[trigger] x[p]).0,
            (#[trigger] x[q]).0,
        ) && x[p].0 != x[q].0 by {
            assert(x[p] == a[p] && x[q] == a[q]);
        }
        assert forall|p: int, q: int| 0 <= p < q < y.len() implies text_le(
            (#[trigger] y[p]).0,
            (#[trigger] y[q]).0,
        ) && y[p].0 != y[q].0 by {
            assert(y[p] == b[p] && y[q] == b[q]);
        }
        lemma_ordered_views_unique(x, y);
        assert(a =~= x.push(a.last()));
        assert(b =~= y.push(b.last()));
    }
}

proof fn lemma_sorted_views<'a>(files: Seq<GenerationFile<'a>>, ordered: Seq<GenerationFile<'a>>)
    requires
        stably_sorted(files, ordered),
        distinct_names(file_views(files)),
    ensures
        name_ordered(file_views(ordered)),
        distinct_names(file_views(ordered)),
        forall|f: (Seq<char>, Seq<u8>)| #[trigger]
            file_views(files).contains(f) <==> file_views(ordered).contains(f),
{
    broadcast use vstd::seq_lib::group_to_multiset_ensures;

    lemma_sorted_members(files, ordered);
    let a = file_views(files);
    let b = file_views(ordered);
    assert forall|f: (Seq<char>, Seq<u8>)| #[trigger] a.contains(f) <==> b.contains(f) by {
        if a.contains(f) {
            let k = choose|k: int| 0 <= k < a.len() && a[k] == f;
            assert(files.contains(files[k]));
            assert(ordered.contains(files[k]));
            let m = choose|m: int| 0 <= m < ordered.len() && ordered[m] == files[k];
            assert(b[m] == f);
        }
        if b.contains(f) {
            let k = choose|k: int| 0 <= k < b.len() && b[k] == f;
            assert(ordered.contains(ordered[k]));
            assert(files.contains(ordered[k]));
            let m = choose|m: int| 0 <= m < files.len() && files[m] == ordered[k];
            assert(a[m] == f);
        }
    }
    assert(files.no_duplicates()) by {
        assert forall|i: int, j: int|
            0 <= i < files.len() && 0 <= j < files.len() && i != j implies files[i] != files[j] by {
            if i < j {
                assert(a[i].0 != a[j].0);
            } else {
                assert(a[j].0 != a[i].0);
            }
        }
    }
    files.lemma_multiset_has_no_duplicates();
    ordered.lemma_multiset_has_no_duplicates_conv();
    assert forall|i: int, j: int| 0 <= i < j < b.len() implies (#[trigger] b[i]).0 != (
    #[trigger] b[j]).0 by {
        assert(ordered[i] != ordered[j]);
        assert(ordered.contains(ordered[i]) && ordered.contains(ordered[j]));
        assert(files.contains(ordered[i]) && files.contains(ordered[j]));
        let m = choose|m: int| 0 <= m < files.len() && files[m] == ordered[i];
        let n = choose|n: int| 0 <= n < files.len() && files[n] == ordered[j];
        if m < n {
            assert(a[m].0 != a[n].0);
        } else {
            assert(a[n].0 != a[m].0);
        }
    }
    assert forall|i: int, j: int| 0 <= i < j < b.len() implies text_le(
        (#[trigger] b[i]).0,
        (#[trigger] b[j]).0,
    ) by {
        assert(ordered[i].ranked_le(ordered[j]));
    }
}

/// The identifier of a generation depends on the names and contents of its files alone, not on
/// the order in which they are given.
pub proof fn law_identifier_of_contents<'a, 'b>(
    a: Seq<GenerationFile<'a>>,
    ordered_a: Seq<GenerationFile<'a>>,
    b: Seq<GenerationFile<'b>>,
    ordered_b: Seq<GenerationFile<'b>>,
)
    requires
        stably_sorted(a, ordered_a),
        stably_sorted(b, ordered_b),
        distinct_names(file_views(a)),
        distinct_names(file_views(b)),
        forall|f: (Seq<char>, Seq<u8>)| #[trigger]
            file_views(a).contains(f) <==> file_views(b).contains(f),
    ensures
        generation_text(ordered_a) == generation_text(ordered_b),
{
    lemma_sorted_views(a, ordered_a);
    lemma_sorted_views(b, ordered_b);
    assert forall|f: (Seq<char>, Seq<u8>)| #[trigger]
        file_views(ordered_a).contains(f) <==> file_views(ordered_b).contains(f) by {
        assert(file_views(a).contains(f) <==> file_views(b).contains(f));
    }
    lemma_ordered_views_unique(file_views(ordered_a), file_views(ordered_b));
    lemma_message_of_views(ordered_a, ordered_b);
}

// Cache -----------------------------------------------------------------------------------------

/// Metadata with the same texts.
pub open spec fn same_metadata(a: RemoteCacheMetadata, b: RemoteCacheMetadata) -> bool {
    &&& a.url@ == b.url@
    &&& option_text(a.etag) == option_text(b.etag)
    &&& option_text(a.last_modified) == option_text(b.last_modified)
    &&& a.sha256_raw@ == b.sha256_raw@
    &&& a.sha256_iplist@ == b.sha256_iplist@
}

/// What was read of a generation is what an update wrote.
pub open spec fn read_as_written(
    update: RemoteUpdate,
    metadata_bytes: Seq<u8>,
    reading: RemoteGenerationReading,
) -> bool {
    &&& reading.raw matches Some(raw) && raw@ == update.raw@
    &&& reading.iplist_bytes matches Some(bytes) && bytes@ == vstd::utf8::encode_utf8(
        update.iplist@,
    )
    &&& reading.metadata_bytes matches Some(bytes) && bytes@ == metadata_bytes
    &&& reading.iplist matches Some(text) && text@ == update.iplist@
    &&& reading.metadata matches Some(metadata) && same_metadata(metadata, update.metadata)
}

/// What the cache of a feed gives back is what was written to it: a response that was taken, and
/// whose generation is read as it was written, is found under the identifier that it was staged
/// with, agrees with its metadata, stays within the limits that it was taken with, and holds the
/// networks of the response.
pub proof fn law_cached_update_reads_back<'a>(
    url: Seq<char>,
    response: HttpResponse,
    max_bytes: usize,
    limits: RemoteFeedLimits,
    update: RemoteUpdate,
    metadata_bytes: Seq<u8>,
    files: Seq<GenerationFile<'a>>,
    ordered: Seq<GenerationFile<'a>>,
    candidate: GenerationCandidate,
    reading: RemoteGenerationReading,
    matching: bool,
    read: Seq<CanonicalCidr>,
)
    requires
        rejection(response, max_bytes, limits) is None,
        update_of(url, response, update),
        trim(url).len() > 0,
        forall|i: int|
            0 <= i < update.networks@.len() ==> model_valid((#[trigger] update.networks@[i])@),
        is_member_list(
            files,
            update.raw@,
            vstd::utf8::encode_utf8(update.iplist@),
            metadata_bytes,
        ),
        stably_sorted(files, ordered),
        candidate.id@ == generation_text(ordered),
        read_as_written(update, metadata_bytes, reading),
        contents_match(candidate, reading, matching),
    ensures
        matching,
        generation_agrees(reading, Some(url)),
        broken_limit(lines(reading.iplist->0@), limits) is None,
        lists_networks(read, feed_networks(lines(reading.iplist->0@))) <==> read
            == update.networks@,
{
    let all = lines(utf8_lossy(response.body@));
    lemma_within_limits(all, limits);
    lemma_counts(all);
    lemma_ascending_distinct(update.networks@);
    law_written_list_reads_back(update.networks@, limits, read);
    let (raw, iplist) = (reading.raw->0@, reading.iplist_bytes->0@);
    let (seen, sorted) = choose|
        seen: Seq<GenerationFile<'static>>,
        sorted: Seq<GenerationFile<'static>>,
    | #[trigger]
        stably_sorted(seen, sorted) && is_member_list(seen, raw, iplist, metadata_bytes)
            && matching == (generation_text(sorted) == candidate.id@);
    assert(file_views(files) =~= file_views(seen));
    reveal_strlit("raw");
    reveal_strlit("iplist");
    reveal_strlit("meta.json");
    assert(GENERATION_RAW_FILE@.len() == 3);
    assert(GENERATION_IPLIST_FILE@.len() == 6);
    assert(GENERATION_METADATA_FILE@.len() == 9);
    law_identifier_of_contents(files, ordered, seen, sorted);
}

} // verus!
