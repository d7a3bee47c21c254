//! Bounded parsing and rendering of remote feed payloads.

use crate::policy::cidr_order::{ascending_cidrs, sort_distinct, sorted_distinct};
use crate::policy::cidr_text::{
    cidr_text, lemma_model_injective, models, parse_non_strict, parse_non_strict_chars, CidrModel,
};
use crate::policy::network_types::CanonicalCidr;
use crate::text::{
    find_char, first_word, first_word_chars, index_of, join_strings, join_with, lemma_index_of,
    lines, split_lines, to_chars, trim, trim_chars, views,
};
use vstd::prelude::*;
use vstd::slice::slice_subrange;
use vstd::utf8::encode_utf8;

verus! {

// Text of raw bytes -----------------------------------------------------------------------------

/// The text that [`String::from_utf8_lossy`] reads from bytes.
pub uninterp spec fn utf8_lossy(bytes: Seq<u8>) -> Seq<char>;

/// Reads bytes with [`String::from_utf8_lossy`]. The text is a function of the bytes alone, and
/// the bytes of a text give that text back; how bytes that are no UTF-8 are replaced is not
/// stated.
#[verifier::external_body]
pub(crate) fn lossy_text(bytes: &[u8]) -> (text: String)
    ensures
        text@ == utf8_lossy(bytes@),
        forall|s: Seq<char>| bytes@ == #[trigger] encode_utf8(s) ==> text@ == s,
{
    String::from_utf8_lossy(bytes).into_owned()
}

// Limits ----------------------------------------------------------------------------------------

/// How much one feed may hold.
#[derive(Debug, Clone, Copy, PartialEq, Eq, Structural)]
pub struct RemoteFeedLimits {
    /// Lines that are neither blank nor notes.
    pub data_lines: usize,
    /// Distinct networks.
    pub unique_cidrs: usize,
}

/// Twice the set capacity, between a floor and one million.
pub open spec fn feed_limit(maxelem: u32, floor: int) -> int {
    let doubled = 2 * maxelem;
    let capped = if doubled < 1_000_000 {
        doubled
    } else {
        1_000_000
    };
    if floor < capped {
        capped
    } else {
        floor
    }
}

impl RemoteFeedLimits {
    /// Derives the limits from the configured set capacity.
    pub fn from_maxelem(maxelem: u32) -> (limits: RemoteFeedLimits)
        ensures
            limits.data_lines == feed_limit(maxelem, 16_384),
            limits.unique_cidrs == feed_limit(maxelem, 4_096),
    {
        let doubled: u64 = maxelem as u64 * 2;
        let capped: usize = if doubled < 1_000_000 {
            doubled as usize
        } else {
            1_000_000
        };
        RemoteFeedLimits {
            data_lines: if 16_384 < capped {
                capped
            } else {
                16_384
            },
            unique_cidrs: if 4_096 < capped {
                capped
            } else {
                4_096
            },
        }
    }
}

/// The limit that a feed broke.
#[derive(Debug, Clone, Copy, PartialEq, Eq, Structural)]
pub enum RemoteParseBudget {
    /// Too many data lines.
    DataLines {
        /// Lines seen when the limit was broken.
        observed: usize,
        /// Lines allowed.
        limit: usize,
    },
    /// Too many distinct networks.
    UniqueCidrs {
        /// Networks seen when the limit was broken.
        observed: usize,
        /// Networks allowed.
        limit: usize,
    },
}

/// What an accepted feed holds.
#[derive(Debug, Clone, PartialEq, Eq)]
pub struct ParsedRemoteCidrs {
    /// Distinct networks in ascending order.
    pub networks: Vec<CanonicalCidr>,
    /// Lines that are neither blank nor notes.
    pub data_lines: usize,
    /// Data lines whose first word is no network.
    pub invalid_lines: usize,
}

// Lines -----------------------------------------------------------------------------------------

/// Text without leading byte order marks.
pub open spec fn strip_marks(s: Seq<char>) -> Seq<char>
    decreases s.len(),
{
    if s.len() > 0 && s[0] == '\u{feff}' {
        strip_marks(s.drop_first())
    } else {
        s
    }
}

/// A line without byte order marks and surrounding white space.
pub open spec fn feed_line(line: Seq<char>) -> Seq<char> {
    trim(strip_marks(line))
}

/// Neither blank nor a note.
pub open spec fn is_data(line: Seq<char>) -> bool {
    feed_line(line).len() > 0 && feed_line(line)[0] != '#'
}

/// First word of the first comma-separated column; empty when the column is blank.
pub open spec fn feed_token(line: Seq<char>) -> Seq<char> {
    first_word(feed_line(line).take(index_of(feed_line(line), ',') as int))
}

/// What one line adds to a feed.
pub enum FeedItem {
    /// Nothing: blank, a note, or a data line with a blank first column.
    Nothing,
    /// A network.
    Network(CidrModel),
    /// A word that is no network.
    Invalid,
}

/// Reads one line.
pub open spec fn feed_item(line: Seq<char>) -> FeedItem {
    if !is_data(line) || feed_token(line).len() == 0 {
        FeedItem::Nothing
    } else {
        match parse_non_strict(feed_token(line)) {
            Some(model) => FeedItem::Network(model),
            None => FeedItem::Invalid,
        }
    }
}

/// Number of data lines.
pub open spec fn data_count(all: Seq<Seq<char>>) -> nat
    decreases all.len(),
{
    if all.len() == 0 {
        0
    } else {
        data_count(all.drop_last()) + if is_data(all.last()) {
            1nat
        } else {
            0
        }
    }
}

/// Number of lines with a word that is no network.
pub open spec fn invalid_count(all: Seq<Seq<char>>) -> nat
    decreases all.len(),
{
    if all.len() == 0 {
        0
    } else {
        invalid_count(all.drop_last()) + if feed_item(all.last()) is Invalid {
            1nat
        } else {
            0
        }
    }
}

/// Networks of the lines, in order.
pub open spec fn feed_networks(all: Seq<Seq<char>>) -> Seq<CidrModel>
    decreases all.len(),
{
    if all.len() == 0 {
        Seq::empty()
    } else {
        let before = feed_networks(all.drop_last());
        match feed_item(all.last()) {
            FeedItem::Network(model) => before.push(model),
            _ => before,
        }
    }
}

/// Number of distinct networks.
pub open spec fn distinct_count(all: Seq<Seq<char>>) -> nat {
    feed_networks(all).to_set().len()
}

/// The limit that the lines break first, reading from the top.
pub open spec fn broken_limit(all: Seq<Seq<char>>, limits: RemoteFeedLimits) -> Option<
    RemoteParseBudget,
>
    decreases all.len(),
{
    if all.len() == 0 {
        None
    } else {
        match broken_limit(all.drop_last(), limits) {
            Some(budget) => Some(budget),
            None => if is_data(all.last()) && data_count(all) > limits.data_lines {
                Some(
                    RemoteParseBudget::DataLines {
                        observed: data_count(all) as usize,
                        limit: limits.data_lines,
                    },
                )
            } else if feed_item(all.last()) is Network && distinct_count(all)
                > limits.unique_cidrs {
                Some(
                    RemoteParseBudget::UniqueCidrs {
                        observed: distinct_count(all) as usize,
                        limit: limits.unique_cidrs,
                    },
                )
            } else {
                None
            },
        }
    }
}

/// Networks listed once each, in ascending order.
pub open spec fn lists_networks(networks: Seq<CanonicalCidr>, fed: Seq<CidrModel>) -> bool {
    &&& ascending_cidrs(networks)
    &&& models(networks).to_set() == fed.to_set()
}

/// What a feed gives.
pub open spec fn feed_outcome(
    all: Seq<Seq<char>>,
    limits: RemoteFeedLimits,
    outcome: Result<ParsedRemoteCidrs, RemoteParseBudget>,
) -> bool {
    match broken_limit(all, limits) {
        Some(budget) => outcome == Err::<ParsedRemoteCidrs, RemoteParseBudget>(budget),
        None => outcome matches Ok(parsed) && {
            &&& lists_networks(parsed.networks@, feed_networks(all))
            &&& parsed.data_lines == data_count(all)
            &&& parsed.invalid_lines == invalid_count(all)
        },
    }
}

pub(crate) proof fn lemma_counts(all: Seq<Seq<char>>)
    ensures
        data_count(all) <= all.len(),
        invalid_count(all) <= data_count(all),
        feed_networks(all).len() <= data_count(all),
        feed_networks(all).to_set().finite(),
        distinct_count(all) <= feed_networks(all).len(),
    decreases all.len(),
{
    if all.len() > 0 {
        lemma_counts(all.drop_last());
    }
    let fed = feed_networks(all);
    vstd::seq_lib::seq_to_set_is_finite(fed);
    fed.lemma_cardinality_of_set();
}

pub(crate) proof fn lemma_distinct_step(all: Seq<Seq<char>>)
    requires
        all.len() > 0,
    ensures
        distinct_count(all.drop_last()) <= distinct_count(all) <= distinct_count(all.drop_last())
            + 1,
        !(feed_item(all.last()) is Network) ==> distinct_count(all) == distinct_count(
            all.drop_last(),
        ),
{
    let before = feed_networks(all.drop_last());
    lemma_counts(all.drop_last());
    if let FeedItem::Network(model) = feed_item(all.last()) {
        let after = feed_networks(all);
        assert(after == before.push(model));
        assert(after.to_set() =~= before.to_set().insert(model)) by {
            assert forall|m: CidrModel| after.to_set().contains(m) <==> before.to_set().insert(
                model,
            ).contains(m) by {
                if after.contains(m) {
                    let k = choose|k: int| 0 <= k < after.len() && after[k] == m;
                    if k < before.len() {
                        assert(before[k] == m);
                    }
                }
                if before.contains(m) {
                    let k = choose|k: int| 0 <= k < before.len() && before[k] == m;
                    assert(after[k] == m);
                }
                assert(after[after.len() - 1] == model);
            }
        }
    }
}

/// While the data lines fit, only the distinct networks can break a limit.
pub(crate) proof fn lemma_limit_within_lines(all: Seq<Seq<char>>, limits: RemoteFeedLimits)
    requires
        data_count(all) <= limits.data_lines,
        all.len() <= usize::MAX,
    ensures
        broken_limit(all, limits) == if distinct_count(all) > limits.unique_cidrs {
            Some(
                RemoteParseBudget::UniqueCidrs {
                    observed: (limits.unique_cidrs + 1) as usize,
                    limit: limits.unique_cidrs,
                },
            )
        } else {
            None
        },
    decreases all.len(),
{
    lemma_counts(all);
    if all.len() > 0 {
        lemma_limit_within_lines(all.drop_last(), limits);
        lemma_distinct_step(all);
        lemma_counts(all.drop_last());
    } else {
        assert(feed_networks(all) =~= Seq::<CidrModel>::empty());
        assert(feed_networks(all).to_set() =~= Set::<CidrModel>::empty());
    }
}

/// Lines that break no limit are within both.
pub(crate) proof fn lemma_within_limits(all: Seq<Seq<char>>, limits: RemoteFeedLimits)
    requires
        broken_limit(all, limits) is None,
    ensures
        data_count(all) <= limits.data_lines,
        distinct_count(all) <= limits.unique_cidrs,
    decreases all.len(),
{
    if all.len() > 0 {
        lemma_within_limits(all.drop_last(), limits);
        lemma_distinct_step(all);
    } else {
        assert(feed_networks(all).to_set() =~= Set::<CidrModel>::empty());
    }
}

/// Networks in strictly ascending order are as many as they are distinct.
pub(crate) proof fn lemma_ascending_distinct(unique: Seq<CanonicalCidr>)
    requires
        ascending_cidrs(unique),
    ensures
        models(unique).to_set().len() == unique.len(),
{
    let b = models(unique);
    assert(b.no_duplicates()) by {
        assert forall|i: int, j: int| 0 <= i < b.len() && 0 <= j < b.len() && i != j implies b[i]
            != b[j] by {
            if b[i] == b[j] {
                lemma_model_injective(unique[i], unique[j]);
                if i < j {
                    assert(unique[i] != unique[j]);
                } else {
                    assert(unique[j] != unique[i]);
                }
            }
        }
    }
    b.unique_seq_to_set();
}

/// Once a limit is broken, further lines change nothing.
proof fn lemma_limit_stays(all: Seq<Seq<char>>, n: int, limits: RemoteFeedLimits)
    requires
        0 <= n <= all.len(),
        broken_limit(all.take(n), limits) is Some,
    ensures
        broken_limit(all, limits) == broken_limit(all.take(n), limits),
    decreases all.len(),
{
    if n == all.len() {
        assert(all.take(n) =~= all);
    } else {
        assert(all.drop_last().take(n) =~= all.take(n));
        lemma_limit_stays(all.drop_last(), n, limits);
    }
}

/// The number of listed networks is the number of distinct ones.
proof fn lemma_listed_len(cidrs: Seq<CanonicalCidr>, unique: Seq<CanonicalCidr>)
    requires
        sorted_distinct(cidrs, unique),
    ensures
        lists_networks(unique, models(cidrs)),
        models(cidrs).to_set().len() == unique.len(),
{
    let a = models(cidrs);
    let b = models(unique);
    assert forall|m: CidrModel| a.to_set().contains(m) <==> b.to_set().contains(m) by {
        if a.contains(m) {
            let k = choose|k: int| 0 <= k < a.len() && a[k] == m;
            assert(cidrs.contains(cidrs[k]));
            let j = choose|j: int| 0 <= j < unique.len() && unique[j] == cidrs[k];
            assert(b[j] == m);
        }
        if b.contains(m) {
            let k = choose|k: int| 0 <= k < b.len() && b[k] == m;
            assert(unique.contains(unique[k]));
            assert(cidrs.contains(unique[k]));
            let j = choose|j: int| 0 <= j < cidrs.len() && cidrs[j] == unique[k];
            assert(a[j] == m);
        }
    }
    assert(a.to_set() =~= b.to_set());
    lemma_ascending_distinct(unique);
}

/// Drops leading byte order marks.
fn strip_marks_chars<'a>(s: &'a [char]) -> (rest: &'a [char])
    ensures
        rest@ == strip_marks(s@),
{
    let mut i: usize = 0;
    assert(s@.skip(0) =~= s@);
    while i < s.len() && s[i] == '\u{feff}'
        invariant
            i <= s@.len(),
            strip_marks(s@) == strip_marks(s@.skip(i as int)),
        decreases s@.len() - i,
    {
        assert(s@.skip(i as int).drop_first() =~= s@.skip(i as int + 1));
        i += 1;
    }
    slice_subrange(s, i, s.len())
}

/// What reading one line gave.
enum LineRead {
    /// Not a data line.
    Skipped,
    /// A data line with a blank first column.
    Blank,
    /// A network.
    Network(CanonicalCidr),
    /// A word that is no network.
    Invalid,
}

/// Reads one line of a feed.
fn read_feed_line(line: &str) -> (read: LineRead)
    ensures
        read is Skipped <==> !is_data(line@),
        match read {
            LineRead::Network(cidr) => feed_item(line@) == FeedItem::Network(cidr@),
            LineRead::Invalid => feed_item(line@) is Invalid,
            _ => feed_item(line@) is Nothing,
        },
{
    let chars: Vec<char> = to_chars(line);
    let body: &[char] = trim_chars(strip_marks_chars(chars.as_slice()));
    if body.len() == 0 || body[0] == '#' {
        return LineRead::Skipped;
    }
    proof {
        lemma_index_of(body@, ',');
    }
    let comma: usize = find_char(body, ',');
    let token: &[char] = first_word_chars(slice_subrange(body, 0, comma));
    if token.len() == 0 {
        return LineRead::Blank;
    }
    match parse_non_strict_chars(token) {
        Some(cidr) => LineRead::Network(cidr),
        None => LineRead::Invalid,
    }
}

/// Parses the text of a feed within its limits.
pub fn parse_feed_text(text: &str, limits: RemoteFeedLimits) -> (outcome: Result<
    ParsedRemoteCidrs,
    RemoteParseBudget,
>)
    ensures
        feed_outcome(lines(text@), limits, outcome),
{
    let all: Vec<String> = split_lines(text);
    let ghost texts = lines(text@);
    let mut networks: Vec<CanonicalCidr> = Vec::new();
    let mut data_lines: usize = 0;
    let mut invalid_lines: usize = 0;
    let mut i: usize = 0;
    let mut over: bool = false;
    assert(texts.take(0) =~= Seq::<Seq<char>>::empty());
    assert(models(networks@) =~= feed_networks(texts.take(0)));
    while i < all.len() && !over
        invariant
            i <= all@.len(),
            views(all@) == texts,
            models(networks@) == feed_networks(texts.take(i as int)),
            data_lines == data_count(texts.take(i as int)),
            invalid_lines == invalid_count(texts.take(i as int)),
            data_lines <= limits.data_lines,
            data_lines <= i,
            invalid_lines <= i,
            over ==> i < all@.len() && is_data(texts[i as int]) && data_lines
                == limits.data_lines,
        decreases all@.len() - i + (if over {
            0int
        } else {
            1int
        }),
    {
        let ghost next = texts.take(i + 1);
        let ghost known = networks@;
        proof {
            assert(next.drop_last() =~= texts.take(i as int));
            assert(next.last() == texts[i as int]);
            assert(texts[i as int] == all@[i as int]@);
            lemma_counts(next);
        }
        let read: LineRead = read_feed_line(all[i].as_str());
        if let LineRead::Skipped = read {
            i += 1;
        } else if data_lines >= limits.data_lines {
            over = true;
        } else {
            data_lines += 1;
            match read {
                LineRead::Network(cidr) => {
                    networks.push(cidr);
                    assert(models(networks@) =~= models(known).push(cidr@));
                },
                LineRead::Invalid => {
                    invalid_lines += 1;
                },
                _ => {},
            }
            i += 1;
        }
    }
    let ghost fed = networks@;
    let unique: Vec<CanonicalCidr> = sort_distinct(networks);
    let ghost seen = texts.take(i as int);
    proof {
        lemma_listed_len(fed, unique@);
        lemma_counts(seen);
        lemma_limit_within_lines(seen, limits);
    }
    if unique.len() > limits.unique_cidrs {
        proof {
            lemma_limit_stays(texts, i as int, limits);
        }
        return Err(
            RemoteParseBudget::UniqueCidrs {
                observed: limits.unique_cidrs + 1,
                limit: limits.unique_cidrs,
            },
        );
    }
    if over {
        proof {
            let next = texts.take(i + 1);
            assert(next.drop_last() =~= seen);
            assert(next.last() == texts[i as int]);
            lemma_counts(next);
            lemma_limit_stays(texts, i + 1, limits);
        }
        return Err(
            RemoteParseBudget::DataLines {
                observed: limits.data_lines + 1,
                limit: limits.data_lines,
            },
        );
    }
    assert(seen =~= texts);
    Ok(ParsedRemoteCidrs { networks: unique, data_lines, invalid_lines })
}

/// Bytes that encode a text are read as that text.
pub open spec fn reads_text(bytes: Seq<u8>) -> bool {
    forall|s: Seq<char>| bytes == #[trigger] encode_utf8(s) ==> utf8_lossy(bytes) == s
}

/// Parses the raw body of a feed within its limits.
pub fn parse_remote_cidrs_bounded(raw: &[u8], limits: RemoteFeedLimits) -> (outcome: Result<
    ParsedRemoteCidrs,
    RemoteParseBudget,
>)
    ensures
        feed_outcome(lines(utf8_lossy(raw@)), limits, outcome),
        reads_text(raw@),
{
    let text: String = lossy_text(raw);
    parse_feed_text(text.as_str(), limits)
}

/// Parses a cached list of networks within the limits of a feed.
pub fn parse_cached_iplist_bounded(iplist: &str, limits: RemoteFeedLimits) -> (networks: Result<
    Vec<CanonicalCidr>,
    RemoteParseBudget,
>)
    ensures
        match broken_limit(lines(iplist@), limits) {
            Some(budget) => networks == Err::<Vec<CanonicalCidr>, RemoteParseBudget>(budget),
            None => networks matches Ok(list) && lists_networks(
                list@,
                feed_networks(lines(iplist@)),
            ),
        },
{
    match parse_feed_text(iplist, limits) {
        Ok(parsed) => Ok(parsed.networks),
        Err(budget) => Err(budget),
    }
}

// Rendering -------------------------------------------------------------------------------------

/// Texts of networks.
pub open spec fn network_texts(cidrs: Seq<CanonicalCidr>) -> Seq<Seq<char>> {
    Seq::new(cidrs.len(), |i: int| cidr_text(cidrs[i]@))
}

/// The texts of networks, one for each line and without an end to the last one.
pub open spec fn normalized_text(cidrs: Seq<CanonicalCidr>) -> Seq<char> {
    join_with(network_texts(cidrs), '\n')
}

/// Writes networks one for each line.
pub fn format_normalized_cidrs(cidrs: &Vec<CanonicalCidr>) -> (text: String)
    ensures
        text@ == normalized_text(cidrs@),
{
    let mut texts: Vec<String> = Vec::new();
    let mut i: usize = 0;
    while i < cidrs.len()
        invariant
            i <= cidrs@.len(),
            texts@.len() == i,
            forall|k: int| 0 <= k < i ==> (#[trigger] texts@[k])@ == cidr_text(cidrs@[k]@),
        decreases cidrs@.len() - i,
    {
        texts.push(cidrs[i].to_text());
        i += 1;
    }
    assert(views(texts@) =~= network_texts(cidrs@));
    join_strings(&texts, '\n')
}

} // verus!
