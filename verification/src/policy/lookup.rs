//! Overlap lookup of operator targets against labelled source entries.

use crate::ordering::{
    dedup_sorted, has_tie, in_order, lemma_sorted_members, sort_stable, strictly_ordered, Ranked,
};
use crate::policy::cidr_text::{
    lemma_model_injective, parse_ip_cidr_strict, parse_strict, CidrModel,
};
use crate::policy::intervals::{ipv4_to_interval, ipv6_to_interval, IntervalU128, IntervalU32};
use crate::policy::network::networks_overlap;
use crate::policy::network_types::{AddressFamily, CanonicalCidr};
use crate::policy::span_math::{block_last, Span};
use crate::text::{
    lemma_text_le_antisymmetric, lemma_text_le_total, lemma_text_le_transitive, text_le,
    text_le_str, to_chars, trim, trim_chars, views,
};
use vstd::prelude::*;
use vstd::seq_lib::group_to_multiset_ensures;

verus! {

/// One entry of a lookup source.
#[derive(Debug, Clone, PartialEq, Eq)]
pub struct LookupSourceEntry {
    /// Label of the source.
    pub source_label: String,
    /// Entry as written in the source.
    pub source_line: String,
    /// Network of the entry.
    pub cidr: CanonicalCidr,
}

/// Contents of a source entry.
pub struct EntryModel {
    pub label: Seq<char>,
    pub line: Seq<char>,
    pub cidr: CanonicalCidr,
}

impl View for LookupSourceEntry {
    type V = EntryModel;

    open spec fn view(&self) -> EntryModel {
        EntryModel { label: self.source_label@, line: self.source_line@, cidr: self.cidr }
    }
}

/// One target and one source entry that overlaps it.
#[derive(Debug, Clone, PartialEq, Eq)]
pub struct LookupMatch {
    pub target: String,
    pub source_label: String,
    pub matched_source_entry: String,
    pub matched_cidr: CanonicalCidr,
}

/// Matches of a lookup, and targets that could not be parsed.
#[derive(Debug, Clone, PartialEq, Eq)]
pub struct LookupReport {
    pub matches: Vec<LookupMatch>,
    pub invalid_targets: Vec<String>,
}

impl Default for LookupReport {
    fn default() -> (report: LookupReport)
        ensures
            report.matches@.len() == 0,
            report.invalid_targets@.len() == 0,
    {
        LookupReport { matches: Vec::new(), invalid_targets: Vec::new() }
    }
}

/// Why a lookup target was rejected.
#[derive(Debug, Clone, PartialEq, Eq, Structural)]
pub enum LookupTargetParseError {
    Empty,
    Invalid,
}

/// Parses one lookup target using strict token rules.
///
/// Returns [`LookupTargetParseError::Empty`] for blank input and
/// [`LookupTargetParseError::Invalid`] when the input is not exactly one valid IP or CIDR.
pub fn parse_target_strict(input: &str) -> (target: Result<CanonicalCidr, LookupTargetParseError>)
    ensures
        target == Err::<CanonicalCidr, LookupTargetParseError>(LookupTargetParseError::Empty)
            <==> trim(input@).len() == 0,
        target == Err::<CanonicalCidr, LookupTargetParseError>(LookupTargetParseError::Invalid)
            <==> trim(input@).len() > 0 && parse_strict(input@) is None,
        target is Ok <==> parse_strict(input@) is Some,
        target matches Ok(cidr) ==> parse_strict(input@) == Some(cidr@),
{
    let chars: Vec<char> = to_chars(input);
    if trim_chars(chars.as_slice()).len() == 0 {
        return Err(LookupTargetParseError::Empty);
    }
    match parse_ip_cidr_strict(input) {
        Some(cidr) => Ok(cidr),
        None => Err(LookupTargetParseError::Invalid),
    }
}

/// Returns whether two networks of one family share an address.
pub fn cidr_overlaps(a: CanonicalCidr, b: CanonicalCidr) -> (overlap: bool)
    ensures
        overlap == networks_overlap(a, b),
{
    crate::policy::network::cidr_overlaps(a, b)
}

// Order -----------------------------------------------------------------------------------------

/// Order of models: IPv4 first, then by address, then by prefix length.
pub open spec fn model_le(a: CidrModel, b: CidrModel) -> bool {
    if a.family != b.family {
        a.family == AddressFamily::Ipv4
    } else if a.block.base != b.block.base {
        a.block.base < b.block.base
    } else {
        a.block.prefix <= b.block.prefix
    }
}

/// Decides [`model_le`].
pub fn cidr_le(a: CanonicalCidr, b: CanonicalCidr) -> (le: bool)
    ensures
        le == model_le(a@, b@),
{
    match (a, b) {
        (CanonicalCidr::V4(x), CanonicalCidr::V4(y)) => {
            x.network() < y.network() || (x.network() == y.network() && x.prefix() <= y.prefix())
        },
        (CanonicalCidr::V6(x), CanonicalCidr::V6(y)) => {
            x.network() < y.network() || (x.network() == y.network() && x.prefix() <= y.prefix())
        },
        (CanonicalCidr::V4(_), CanonicalCidr::V6(_)) => true,
        (CanonicalCidr::V6(_), CanonicalCidr::V4(_)) => false,
    }
}

/// Order of entries: by label, then by line, then by network.
pub open spec fn entry_le(a: EntryModel, b: EntryModel) -> bool {
    if a.label != b.label {
        text_le(a.label, b.label)
    } else if a.line != b.line {
        text_le(a.line, b.line)
    } else {
        model_le(a.cidr@, b.cidr@)
    }
}

/// Entries that order both ways are equal.
pub proof fn lemma_entry_le_antisymmetric(a: EntryModel, b: EntryModel)
    requires
        entry_le(a, b),
        entry_le(b, a),
    ensures
        a == b,
{
    if a.label != b.label {
        lemma_text_le_antisymmetric(a.label, b.label);
    } else if a.line != b.line {
        lemma_text_le_antisymmetric(a.line, b.line);
    } else {
        assert(a.cidr@ == b.cidr@);
        lemma_model_injective(a.cidr, b.cidr);
    }
}

/// Decides [`entry_le`].
pub fn source_entry_le(a: &LookupSourceEntry, b: &LookupSourceEntry) -> (le: bool)
    ensures
        le == entry_le(a@, b@),
{
    if a.source_label != b.source_label {
        text_le_str(a.source_label.as_str(), b.source_label.as_str())
    } else if a.source_line != b.source_line {
        text_le_str(a.source_line.as_str(), b.source_line.as_str())
    } else {
        cidr_le(a.cidr, b.cidr)
    }
}

proof fn lemma_entry_le_total(a: EntryModel, b: EntryModel)
    ensures
        entry_le(a, b) || entry_le(b, a),
{
    lemma_text_le_total(a.label, b.label);
    lemma_text_le_total(a.line, b.line);
}

proof fn lemma_entry_le_transitive(a: EntryModel, b: EntryModel, c: EntryModel)
    requires
        entry_le(a, b),
        entry_le(b, c),
    ensures
        entry_le(a, c),
{
    if a.label != b.label && b.label != c.label {
        lemma_text_le_transitive(a.label, b.label, c.label);
        if a.label == c.label {
            lemma_text_le_antisymmetric(a.label, b.label);
        }
    } else if a.label == b.label && b.label == c.label {
        if a.line != b.line && b.line != c.line {
            lemma_text_le_transitive(a.line, b.line, c.line);
            if a.line == c.line {
                lemma_text_le_antisymmetric(a.line, b.line);
            }
        }
    }
}

/// Borrowed entry, ordered by [`entry_le`].
pub struct SourceRef<'a> {
    pub entry: &'a LookupSourceEntry,
}

impl<'a> Ranked for SourceRef<'a> {
    open spec fn ranked_le(self, other: SourceRef<'a>) -> bool {
        entry_le(self.entry@, other.entry@)
    }

    proof fn lemma_ranked_total(a: SourceRef<'a>, b: SourceRef<'a>) {
        lemma_entry_le_total(a.entry@, b.entry@);
    }

    proof fn lemma_ranked_transitive(a: SourceRef<'a>, b: SourceRef<'a>, c: SourceRef<'a>) {
        lemma_entry_le_transitive(a.entry@, b.entry@, c.entry@);
    }

    fn precedes(&self, other: &SourceRef<'a>) -> (before: bool) {
        source_entry_le(self.entry, other.entry)
    }
}

impl Ranked for String {
    open spec fn ranked_le(self, other: String) -> bool {
        text_le(self@, other@)
    }

    proof fn lemma_ranked_total(a: String, b: String) {
        lemma_text_le_total(a@, b@);
    }

    proof fn lemma_ranked_transitive(a: String, b: String, c: String) {
        lemma_text_le_transitive(a@, b@, c@);
    }

    fn precedes(&self, other: &String) -> (before: bool) {
        text_le_str(self.as_str(), other.as_str())
    }
}

/// A target that parsed.
pub struct PreparedTarget {
    /// Target as given.
    pub raw: String,
    /// Its network.
    pub parsed: CanonicalCidr,
}

impl Ranked for PreparedTarget {
    open spec fn ranked_le(self, other: PreparedTarget) -> bool {
        text_le(self.raw@, other.raw@)
    }

    proof fn lemma_ranked_total(a: PreparedTarget, b: PreparedTarget) {
        lemma_text_le_total(a.raw@, b.raw@);
    }

    proof fn lemma_ranked_transitive(a: PreparedTarget, b: PreparedTarget, c: PreparedTarget) {
        lemma_text_le_transitive(a.raw@, b.raw@, c.raw@);
    }

    fn precedes(&self, other: &PreparedTarget) -> (before: bool) {
        text_le_str(self.raw.as_str(), other.raw.as_str())
    }
}

/// Texts in strictly ascending order.
pub open spec fn ascending_texts(texts: Seq<Seq<char>>) -> bool {
    forall|i: int, j: int|
        0 <= i < j < texts.len() ==> text_le(#[trigger] texts[i], #[trigger] texts[j]) && texts[i]
            != texts[j]
}

/// Entries in strictly ascending order.
pub open spec fn ascending_entries(entries: Seq<EntryModel>) -> bool {
    forall|i: int, j: int|
        0 <= i < j < entries.len() ==> entry_le(#[trigger] entries[i], #[trigger] entries[j])
            && entries[i] != entries[j]
}

// Interval index --------------------------------------------------------------------------------

/// Addresses of a network.
pub open spec fn cidr_span(cidr: CanonicalCidr) -> Span {
    match cidr {
        CanonicalCidr::V4(c) => Span { lo: c@.base, hi: block_last(32, c@) },
        CanonicalCidr::V6(c) => Span { lo: c@.base, hi: block_last(128, c@) },
    }
}

/// A span may stand before another: by its first address, then by its last.
pub open spec fn span_le(a: Span, b: Span) -> bool {
    a.lo < b.lo || (a.lo == b.lo && a.hi <= b.hi)
}

/// The sources at the positions stand in the order of their intervals.
pub open spec fn by_interval(found: Seq<usize>, sources: Seq<LookupSourceEntry>) -> bool {
    forall|m: int, l: int|
        0 <= m < l < found.len() ==> span_le(
            cidr_span(sources[(#[trigger] found[m]) as int].cidr),
            cidr_span(sources[(#[trigger] found[l]) as int].cidr),
        )
}

/// Interval of a source, with the position of the source.
#[derive(Debug, Clone, Copy, PartialEq, Eq, Structural)]
pub struct IndexedSourceV4 {
    pub interval: IntervalU32,
    pub source_idx: usize,
}

impl Ranked for IndexedSourceV4 {
    open spec fn ranked_le(self, other: IndexedSourceV4) -> bool {
        self.interval.ranked_le(other.interval)
    }

    proof fn lemma_ranked_total(a: IndexedSourceV4, b: IndexedSourceV4) {
    }

    proof fn lemma_ranked_transitive(a: IndexedSourceV4, b: IndexedSourceV4, c: IndexedSourceV4) {
    }

    fn precedes(&self, other: &IndexedSourceV4) -> (before: bool) {
        self.interval.precedes(&other.interval)
    }
}

/// IPv4 intervals of a list of sources, ordered by start, with the running maximum of the ends.
#[derive(Debug, Clone, PartialEq, Eq)]
pub struct IntervalIndexV4 {
    entries: Vec<IndexedSourceV4>,
    prefix_max_end: Vec<u32>,
}

/// `entry` is the interval of source `entry.source_idx`.
pub open spec fn indexes_v4(entry: IndexedSourceV4, sources: Seq<LookupSourceEntry>) -> bool {
    &&& entry.source_idx < sources.len()
    &&& sources[entry.source_idx as int].cidr matches CanonicalCidr::V4(cidr)
        && entry.interval@ == (Span { lo: cidr@.base, hi: block_last(32, cidr@) })
}

/// Each source of the family is indexed exactly once.
spec fn indexed_v4(
    entries: Seq<IndexedSourceV4>,
    sources: Seq<LookupSourceEntry>,
    n: int,
) -> bool {
    &&& forall|k: int|
        0 <= k < entries.len() ==> indexes_v4(#[trigger] entries[k], sources)
            && entries[k].source_idx < n
    &&& forall|a: int, b: int|
        0 <= a < b < entries.len() ==> (#[trigger] entries[a]).source_idx != (
        #[trigger] entries[b]).source_idx
    &&& forall|i: int|
        0 <= i < n && (#[trigger] sources[i]).cidr is V4 ==> exists|k: int|
            0 <= k < entries.len() && (#[trigger] entries[k]).source_idx == i
}

impl IntervalIndexV4 {
    /// The index describes `sources`.
    pub closed spec fn describes(self, sources: Seq<LookupSourceEntry>) -> bool {
        &&& indexed_v4(self.entries@, sources, sources.len() as int)
        &&& in_order(self.entries@)
        &&& self.prefix_max_end@.len() == self.entries@.len()
        &&& forall|i: int, k: int|
            #![trigger self.entries@[i], self.prefix_max_end@[k]]
            0 <= i <= k < self.entries@.len() ==> self.entries@[i].interval.end
                <= self.prefix_max_end@[k]
    }

    /// Builds the index of a list of sources.
    pub fn from_sources(sources: &[LookupSourceEntry]) -> (index: IntervalIndexV4)
        ensures
            index.describes(sources@),
    {
        let mut entries: Vec<IndexedSourceV4> = Vec::new();
        let mut i: usize = 0;
        while i < sources.len()
            invariant
                i <= sources@.len(),
                indexed_v4(entries@, sources@, i as int),
            decreases sources@.len() - i,
        {
            let ghost before = entries@;
            if let CanonicalCidr::V4(cidr) = sources[i].cidr {
                let entry = IndexedSourceV4 { interval: ipv4_to_interval(cidr), source_idx: i };
                entries.push(entry);
            }
            proof {
                assert forall|k: int| 0 <= k < entries@.len() implies indexes_v4(
                    #[trigger] entries@[k],
                    sources@,
                ) && entries@[k].source_idx < i + 1 by {
                    if k < before.len() {
                        assert(entries@[k] == before[k]);
                    }
                }
                assert forall|m: int|
                    0 <= m < i + 1 && (#[trigger] sources@[m]).cidr is V4 implies exists|k: int|
                    0 <= k < entries@.len() && (#[trigger] entries@[k]).source_idx == m by {
                    if m < i {
                        let k = choose|k: int|
                            0 <= k < before.len() && (#[trigger] before[k]).source_idx == m;
                        assert(entries@[k] == before[k]);
                    } else {
                        assert(entries@[before.len() as int].source_idx == m);
                    }
                }
                assert forall|a: int, b: int| 0 <= a < b < entries@.len() implies (
                #[trigger] entries@[a]).source_idx != (#[trigger] entries@[b]).source_idx by {
                    assert(entries@[a] == before[a]);
                    if b < before.len() {
                        assert(entries@[b] == before[b]);
                    }
                }
            }
            i += 1;
        }
        let ghost unsorted = entries@;
        let entries = sort_stable(entries);
        proof {
            lemma_indexed_v4_permuted(unsorted, entries@, sources@);
        }
        let mut prefix_max_end: Vec<u32> = Vec::with_capacity(entries.len());
        let mut running_max: u32 = 0;
        let mut k: usize = 0;
        while k < entries.len()
            invariant
                k <= entries@.len(),
                prefix_max_end@.len() == k,
                k > 0 ==> running_max == prefix_max_end@[k - 1],
                k == 0 ==> running_max == 0,
                forall|i: int, j: int|
                    #![trigger entries@[i], prefix_max_end@[j]]
                    0 <= i <= j < k ==> entries@[i].interval.end <= prefix_max_end@[j],
            decreases entries@.len() - k,
        {
            let ghost before = prefix_max_end@;
            let end: u32 = entries[k].interval.end;
            if running_max < end || k == 0 {
                running_max = end;
            }
            prefix_max_end.push(running_max);
            proof {
                assert forall|i: int, j: int|
                    #![trigger entries@[i], prefix_max_end@[j]]
                    0 <= i <= j < k + 1 implies entries@[i].interval.end <= prefix_max_end@[j] by {
                    if j < k {
                        assert(prefix_max_end@[j] == before[j]);
                    } else if i < k {
                        assert(entries@[i].interval.end <= before[k - 1]);
                    }
                }
            }
            k += 1;
        }
        IntervalIndexV4 { entries, prefix_max_end }
    }

    /// Positions of the sources whose interval shares an address with `target`, each once, in the
    /// order of the intervals: by their first address, then by their last.
    pub fn overlapping_source_indices(
        &self,
        target: IntervalU32,
        sources: &[LookupSourceEntry],
    ) -> (found: Vec<usize>)
        requires
            self.describes(sources@),
            target.start <= target.end,
        ensures
            found@.no_duplicates(),
            forall|k: int| 0 <= k < found@.len() ==> (#[trigger] found@[k]) < sources@.len(),
            forall|i: int|
                #![trigger sources@[i]]
                0 <= i < sources@.len() ==> ((exists|k: int|
                    0 <= k < found@.len() && #[trigger] found@[k] == i) <==> interval_hits_v4(
                    sources@[i].cidr,
                    target@,
                )),
            by_interval(found@, sources@),
    {
        let n: usize = self.entries.len();
        // entries from `upper` on start behind the target
        let mut upper: usize = 0;
        let mut high: usize = n;
        while upper < high
            invariant
                upper <= high <= n,
                n == self.entries@.len(),
                in_order(self.entries@),
                forall|k: int|
                    0 <= k < upper ==> (#[trigger] self.entries@[k]).interval.start <= target.end,
                forall|k: int|
                    high <= k < n ==> (#[trigger] self.entries@[k]).interval.start > target.end,
            decreases high - upper,
        {
            let mid: usize = upper + (high - upper) / 2;
            if self.entries[mid].interval.start <= target.end {
                assert forall|k: int| 0 <= k < mid + 1 implies (
                #[trigger] self.entries@[k]).interval.start <= target.end by {
                    if k < mid {
                        assert(self.entries@[k].ranked_le(self.entries@[mid as int]));
                    }
                }
                upper = mid + 1;
            } else {
                assert forall|k: int| mid <= k < n implies (#[trigger] self.entries@[k]).interval.start
                    > target.end by {
                    if k > mid {
                        assert(self.entries@[mid as int].ranked_le(self.entries@[k]));
                    }
                }
                high = mid;
            }
        }
        // every entry before `lower` ends before the target
        let mut lower: usize = 0;
        let mut top: usize = n;
        while lower < top
            invariant
                lower <= top <= n,
                n == self.entries@.len(),
                self.describes(sources@),
                forall|k: int|
                    0 <= k < lower ==> (#[trigger] self.entries@[k]).interval.end < target.start,
            decreases top - lower,
        {
            let mid: usize = lower + (top - lower) / 2;
            if self.prefix_max_end[mid] < target.start {
                assert forall|k: int| 0 <= k < mid + 1 implies (
                #[trigger] self.entries@[k]).interval.end < target.start by {
                    assert(self.entries@[k].interval.end <= self.prefix_max_end@[mid as int]);
                }
                lower = mid + 1;
            } else {
                top = mid;
            }
        }
        let mut found: Vec<usize> = Vec::new();
        let mut k: usize = if lower < upper {
            lower
        } else {
            upper
        };
        let ghost first = k;
        while k < upper
            invariant
                first <= k <= upper || k == first,
                upper <= n,
                n == self.entries@.len(),
                self.describes(sources@),
                forall|m: int|
                    0 <= m < found@.len() ==> (#[trigger] found@[m]) < sources@.len() && gathered_v4(
                        self.entries@,
                        first as int,
                        k as int,
                        target.start,
                        found@[m],
                    ),
                found@.no_duplicates(),
                by_interval(found@, sources@),
                forall|j: int|
                    first <= j < k && (#[trigger] self.entries@[j]).interval.end >= target.start
                        ==> found@.contains(self.entries@[j].source_idx),
            decreases upper - k,
        {
            let entry = self.entries[k];
            let ghost before = found@;
            if entry.interval.end >= target.start {
                found.push(entry.source_idx);
                proof {
                    assert(indexes_v4(self.entries@[k as int], sources@));
                    assert forall|m: int| 0 <= m < before.len() implies before[m]
                        != entry.source_idx by {
                        let j = choose|j: int|
                            first <= j < k && (#[trigger] self.entries@[j]).source_idx == before[m]
                                && self.entries@[j].interval.end >= target.start;
                        assert(self.entries@[j].source_idx != self.entries@[k as int].source_idx);
                    }
                    assert(by_interval(found@, sources@)) by {
                        assert forall|m: int, l: int| 0 <= m < l < found@.len() implies span_le(
                            cidr_span(sources@[(#[trigger] found@[m]) as int].cidr),
                            cidr_span(sources@[(#[trigger] found@[l]) as int].cidr),
                        ) by {
                            assert(found@[m] == before[m]);
                            if l < before.len() {
                                assert(found@[l] == before[l]);
                            } else {
                                let j = choose|j: int|
                                    first <= j < k && (#[trigger] self.entries@[j]).source_idx
                                        == before[m] && self.entries@[j].interval.end
                                        >= target.start;
                                assert(indexes_v4(self.entries@[j], sources@));
                                assert(self.entries@[j].ranked_le(self.entries@[k as int]));
                            }
                        }
                    }
                    assert(found@[before.len() as int] == entry.source_idx);
                }
            }
            proof {
                assert forall|m: int| 0 <= m < found@.len() implies (#[trigger] found@[m])
                    < sources@.len() && gathered_v4(
                    self.entries@,
                    first as int,
                    k + 1,
                    target.start,
                    found@[m],
                ) by {
                    if m < before.len() {
                        assert(found@[m] == before[m]);
                        assert(gathered_v4(
                            self.entries@,
                            first as int,
                            k as int,
                            target.start,
                            before[m],
                        ));
                        let j = choose|j: int|
                            first <= j < k && (#[trigger] self.entries@[j]).source_idx == before[m]
                                && self.entries@[j].interval.end >= target.start;
                        assert(self.entries@[j].source_idx == found@[m]);
                    } else {
                        assert(self.entries@[k as int].source_idx == found@[m]);
                    }
                }
                assert forall|j: int|
                    first <= j < k + 1 && (#[trigger] self.entries@[j]).interval.end
                        >= target.start implies found@.contains(self.entries@[j].source_idx) by {
                    if j < k {
                        assert(before.contains(self.entries@[j].source_idx));
                        let m = choose|m: int|
                            0 <= m < before.len() && before[m] == self.entries@[j].source_idx;
                        assert(found@[m] == self.entries@[j].source_idx);
                    }
                }
            }
            k += 1;
        }
        proof {
            assert forall|i: int|
                #![trigger sources@[i]]
                0 <= i < sources@.len() implies ((exists|m: int|
                0 <= m < found@.len() && #[trigger] found@[m] == i) <==> interval_hits_v4(
                sources@[i].cidr,
                target@,
            )) by {
                if exists|m: int| 0 <= m < found@.len() && #[trigger] found@[m] == i {
                    let m = choose|m: int| 0 <= m < found@.len() && #[trigger] found@[m] == i;
                    let j = choose|j: int|
                        first <= j < k && (#[trigger] self.entries@[j]).source_idx == found@[m]
                            && self.entries@[j].interval.end >= target.start;
                    assert(indexes_v4(self.entries@[j], sources@));
                    assert(self.entries@[j].interval.start <= target.end);
                }
                if interval_hits_v4(sources@[i].cidr, target@) {
                    let j = choose|j: int|
                        0 <= j < self.entries@.len() && (#[trigger] self.entries@[j]).source_idx == i;
                    assert(indexes_v4(self.entries@[j], sources@));
                    assert(self.entries@[j].interval.start <= target.end);
                    assert(self.entries@[j].interval.end >= target.start);
                    assert(found@.contains(self.entries@[j].source_idx));
                    let m = choose|m: int|
                        0 <= m < found@.len() && found@[m] == self.entries@[j].source_idx;
                    assert(found@[m] == i);
                }
            }
        }
        found
    }
}

/// One of the entries from `first` up to `k` that ends at `start` or later has the source.
spec fn gathered_v4(
    entries: Seq<IndexedSourceV4>,
    first: int,
    k: int,
    start: u32,
    source_idx: usize,
) -> bool {
    exists|j: int|
        first <= j < k && (#[trigger] entries[j]).source_idx == source_idx
            && entries[j].interval.end >= start
}

/// The network is IPv4 and shares an address with the span.
pub open spec fn interval_hits_v4(cidr: CanonicalCidr, target: Span) -> bool {
    cidr matches CanonicalCidr::V4(c) && c@.base <= target.hi && target.lo <= block_last(32, c@)
}

/// Reordering entries keeps them an index.
proof fn lemma_indexed_v4_permuted(
    a: Seq<IndexedSourceV4>,
    b: Seq<IndexedSourceV4>,
    sources: Seq<LookupSourceEntry>,
)
    requires
        indexed_v4(a, sources, sources.len() as int),
        a.to_multiset() == b.to_multiset(),
    ensures
        indexed_v4(b, sources, sources.len() as int),
{
    broadcast use group_to_multiset_ensures;

    assert forall|k: int| 0 <= k < b.len() implies a.contains(#[trigger] b[k]) by {
        assert(b.contains(b[k]));
        assert(a.to_multiset().count(b[k]) > 0);
    }
    assert forall|k: int| 0 <= k < b.len() implies indexes_v4(#[trigger] b[k], sources)
        && b[k].source_idx < sources.len() by {
        assert(a.contains(b[k]));
        let m = choose|m: int| 0 <= m < a.len() && a[m] == b[k];
        assert(indexes_v4(a[m], sources));
    }
    assert forall|i: int|
        0 <= i < sources.len() && (#[trigger] sources[i]).cidr is V4 implies exists|k: int|
        0 <= k < b.len() && (#[trigger] b[k]).source_idx == i by {
        let m = choose|m: int| 0 <= m < a.len() && (#[trigger] a[m]).source_idx == i;
        assert(a.contains(a[m]));
        assert(b.to_multiset().count(a[m]) > 0);
        assert(b.contains(a[m]));
        let k = choose|k: int| 0 <= k < b.len() && b[k] == a[m];
        assert(b[k].source_idx == i);
    }
    assert(a.no_duplicates());
    a.lemma_multiset_has_no_duplicates();
    assert(a.to_multiset().len() == a.len() && b.to_multiset().len() == b.len());
    b.lemma_multiset_has_no_duplicates_conv();
    assert forall|x: int, y: int| 0 <= x < y < b.len() implies (#[trigger] b[x]).source_idx != (
    #[trigger] b[y]).source_idx by {
        assert(b[x] != b[y]);
        let m = choose|m: int| 0 <= m < a.len() && a[m] == b[x];
        let n = choose|n: int| 0 <= n < a.len() && a[n] == b[y];
        assert(a.contains(b[x]) && a.contains(b[y]));
        assert(m != n);
        if m < n {
            assert(a[m].source_idx != a[n].source_idx);
        } else {
            assert(a[n].source_idx != a[m].source_idx);
        }
    }
}

/// Interval of a source, with the position of the source.
#[derive(Debug, Clone, Copy, PartialEq, Eq, Structural)]
pub struct IndexedSourceV6 {
    pub interval: IntervalU128,
    pub source_idx: usize,
}

impl Ranked for IndexedSourceV6 {
    open spec fn ranked_le(self, other: IndexedSourceV6) -> bool {
        self.interval.ranked_le(other.interval)
    }

    proof fn lemma_ranked_total(a: IndexedSourceV6, b: IndexedSourceV6) {
    }

    proof fn lemma_ranked_transitive(a: IndexedSourceV6, b: IndexedSourceV6, c: IndexedSourceV6) {
    }

    fn precedes(&self, other: &IndexedSourceV6) -> (before: bool) {
        self.interval.precedes(&other.interval)
    }
}

/// IPv6 intervals of a list of sources, ordered by start, with the running maximum of the ends.
#[derive(Debug, Clone, PartialEq, Eq)]
pub struct IntervalIndexV6 {
    entries: Vec<IndexedSourceV6>,
    prefix_max_end: Vec<u128>,
}

/// `entry` is the interval of source `entry.source_idx`.
pub open spec fn indexes_v6(entry: IndexedSourceV6, sources: Seq<LookupSourceEntry>) -> bool {
    &&& entry.source_idx < sources.len()
    &&& sources[entry.source_idx as int].cidr matches CanonicalCidr::V6(cidr)
        && entry.interval@ == (Span { lo: cidr@.base, hi: block_last(128, cidr@) })
}

/// Each source of the family is indexed exactly once.
spec fn indexed_v6(
    entries: Seq<IndexedSourceV6>,
    sources: Seq<LookupSourceEntry>,
    n: int,
) -> bool {
    &&& forall|k: int|
        0 <= k < entries.len() ==> indexes_v6(#[trigger] entries[k], sources)
            && entries[k].source_idx < n
    &&& forall|a: int, b: int|
        0 <= a < b < entries.len() ==> (#[trigger] entries[a]).source_idx != (
        #[trigger] entries[b]).source_idx
    &&& forall|i: int|
        0 <= i < n && (#[trigger] sources[i]).cidr is V6 ==> exists|k: int|
            0 <= k < entries.len() && (#[trigger] entries[k]).source_idx == i
}

impl IntervalIndexV6 {
    /// The index describes `sources`.
    pub closed spec fn describes(self, sources: Seq<LookupSourceEntry>) -> bool {
        &&& indexed_v6(self.entries@, sources, sources.len() as int)
        &&& in_order(self.entries@)
        &&& self.prefix_max_end@.len() == self.entries@.len()
        &&& forall|i: int, k: int|
            #![trigger self.entries@[i], self.prefix_max_end@[k]]
            0 <= i <= k < self.entries@.len() ==> self.entries@[i].interval.end
                <= self.prefix_max_end@[k]
    }

    /// Builds the index of a list of sources.
    pub fn from_sources(sources: &[LookupSourceEntry]) -> (index: IntervalIndexV6)
        ensures
            index.describes(sources@),
    {
        let mut entries: Vec<IndexedSourceV6> = Vec::new();
        let mut i: usize = 0;
        while i < sources.len()
            invariant
                i <= sources@.len(),
                indexed_v6(entries@, sources@, i as int),
            decreases sources@.len() - i,
        {
            let ghost before = entries@;
            if let CanonicalCidr::V6(cidr) = sources[i].cidr {
                let entry = IndexedSourceV6 { interval: ipv6_to_interval(cidr), source_idx: i };
                entries.push(entry);
            }
            proof {
                assert forall|k: int| 0 <= k < entries@.len() implies indexes_v6(
                    #[trigger] entries@[k],
                    sources@,
                ) && entries@[k].source_idx < i + 1 by {
                    if k < before.len() {
                        assert(entries@[k] == before[k]);
                    }
                }
                assert forall|m: int|
                    0 <= m < i + 1 && (#[trigger] sources@[m]).cidr is V6 implies exists|k: int|
                    0 <= k < entries@.len() && (#[trigger] entries@[k]).source_idx == m by {
                    if m < i {
                        let k = choose|k: int|
                            0 <= k < before.len() && (#[trigger] before[k]).source_idx == m;
                        assert(entries@[k] == before[k]);
                    } else {
                        assert(entries@[before.len() as int].source_idx == m);
                    }
                }
                assert forall|a: int, b: int| 0 <= a < b < entries@.len() implies (
                #[trigger] entries@[a]).source_idx != (#[trigger] entries@[b]).source_idx by {
                    assert(entries@[a] == before[a]);
                    if b < before.len() {
                        assert(entries@[b] == before[b]);
                    }
                }
            }
            i += 1;
        }
        let ghost unsorted = entries@;
        let entries = sort_stable(entries);
        proof {
            lemma_indexed_v6_permuted(unsorted, entries@, sources@);
        }
        let mut prefix_max_end: Vec<u128> = Vec::with_capacity(entries.len());
        let mut running_max: u128 = 0;
        let mut k: usize = 0;
        while k < entries.len()
            invariant
                k <= entries@.len(),
                prefix_max_end@.len() == k,
                k > 0 ==> running_max == prefix_max_end@[k - 1],
                k == 0 ==> running_max == 0,
                forall|i: int, j: int|
                    #![trigger entries@[i], prefix_max_end@[j]]
                    0 <= i <= j < k ==> entries@[i].interval.end <= prefix_max_end@[j],
            decreases entries@.len() - k,
        {
            let ghost before = prefix_max_end@;
            let end: u128 = entries[k].interval.end;
            if running_max < end || k == 0 {
                running_max = end;
            }
            prefix_max_end.push(running_max);
            proof {
                assert forall|i: int, j: int|
                    #![trigger entries@[i], prefix_max_end@[j]]
                    0 <= i <= j < k + 1 implies entries@[i].interval.end <= prefix_max_end@[j] by {
                    if j < k {
                        assert(prefix_max_end@[j] == before[j]);
                    } else if i < k {
                        assert(entries@[i].interval.end <= before[k - 1]);
                    }
                }
            }
            k += 1;
        }
        IntervalIndexV6 { entries, prefix_max_end }
    }

    /// Positions of the sources whose interval shares an address with `target`, each once, in the
    /// order of the intervals: by their first address, then by their last.
    pub fn overlapping_source_indices(
        &self,
        target: IntervalU128,
        sources: &[LookupSourceEntry],
    ) -> (found: Vec<usize>)
        requires
            self.describes(sources@),
            target.start <= target.end,
        ensures
            found@.no_duplicates(),
            forall|k: int| 0 <= k < found@.len() ==> (#[trigger] found@[k]) < sources@.len(),
            forall|i: int|
                #![trigger sources@[i]]
                0 <= i < sources@.len() ==> ((exists|k: int|
                    0 <= k < found@.len() && #[trigger] found@[k] == i) <==> interval_hits_v6(
                    sources@[i].cidr,
                    target@,
                )),
            by_interval(found@, sources@),
    {
        let n: usize = self.entries.len();
        // entries from `upper` on start behind the target
        let mut upper: usize = 0;
        let mut high: usize = n;
        while upper < high
            invariant
                upper <= high <= n,
                n == self.entries@.len(),
                in_order(self.entries@),
                forall|k: int|
                    0 <= k < upper ==> (#[trigger] self.entries@[k]).interval.start <= target.end,
                forall|k: int|
                    high <= k < n ==> (#[trigger] self.entries@[k]).interval.start > target.end,
            decreases high - upper,
        {
            let mid: usize = upper + (high - upper) / 2;
            if self.entries[mid].interval.start <= target.end {
                assert forall|k: int| 0 <= k < mid + 1 implies (
                #[trigger] self.entries@[k]).interval.start <= target.end by {
                    if k < mid {
                        assert(self.entries@[k].ranked_le(self.entries@[mid as int]));
                    }
                }
                upper = mid + 1;
            } else {
                assert forall|k: int| mid <= k < n implies (#[trigger] self.entries@[k]).interval.start
                    > target.end by {
                    if k > mid {
                        assert(self.entries@[mid as int].ranked_le(self.entries@[k]));
                    }
                }
                high = mid;
            }
        }
        // every entry before `lower` ends before the target
        let mut lower: usize = 0;
        let mut top: usize = n;
        while lower < top
            invariant
                lower <= top <= n,
                n == self.entries@.len(),
                self.describes(sources@),
                forall|k: int|
                    0 <= k < lower ==> (#[trigger] self.entries@[k]).interval.end < target.start,
            decreases top - lower,
        {
            let mid: usize = lower + (top - lower) / 2;
            if self.prefix_max_end[mid] < target.start {
                assert forall|k: int| 0 <= k < mid + 1 implies (
                #[trigger] self.entries@[k]).interval.end < target.start by {
                    assert(self.entries@[k].interval.end <= self.prefix_max_end@[mid as int]);
                }
                lower = mid + 1;
            } else {
                top = mid;
            }
        }
        let mut found: Vec<usize> = Vec::new();
        let mut k: usize = if lower < upper {
            lower
        } else {
            upper
        };
        let ghost first = k;
        while k < upper
            invariant
                first <= k <= upper || k == first,
                upper <= n,
                n == self.entries@.len(),
                self.describes(sources@),
                forall|m: int|
                    0 <= m < found@.len() ==> (#[trigger] found@[m]) < sources@.len() && gathered_v6(
                        self.entries@,
                        first as int,
                        k as int,
                        target.start,
                        found@[m],
                    ),
                found@.no_duplicates(),
                by_interval(found@, sources@),
                forall|j: int|
                    first <= j < k && (#[trigger] self.entries@[j]).interval.end >= target.start
                        ==> found@.contains(self.entries@[j].source_idx),
            decreases upper - k,
        {
            let entry = self.entries[k];
            let ghost before = found@;
            if entry.interval.end >= target.start {
                found.push(entry.source_idx);
                proof {
                    assert(indexes_v6(self.entries@[k as int], sources@));
                    assert forall|m: int| 0 <= m < before.len() implies before[m]
                        != entry.source_idx by {
                        let j = choose|j: int|
                            first <= j < k && (#[trigger] self.entries@[j]).source_idx == before[m]
                                && self.entries@[j].interval.end >= target.start;
                        assert(self.entries@[j].source_idx != self.entries@[k as int].source_idx);
                    }
                    assert(by_interval(found@, sources@)) by {
                        assert forall|m: int, l: int| 0 <= m < l < found@.len() implies span_le(
                            cidr_span(sources@[(#[trigger] found@[m]) as int].cidr),
                            cidr_span(sources@[(#[trigger] found@[l]) as int].cidr),
                        ) by {
                            assert(found@[m] == before[m]);
                            if l < before.len() {
                                assert(found@[l] == before[l]);
                            } else {
                                let j = choose|j: int|
                                    first <= j < k && (#[trigger] self.entries@[j]).source_idx
                                        == before[m] && self.entries@[j].interval.end
                                        >= target.start;
                                assert(indexes_v6(self.entries@[j], sources@));
                                assert(self.entries@[j].ranked_le(self.entries@[k as int]));
                            }
                        }
                    }
                    assert(found@[before.len() as int] == entry.source_idx);
                }
            }
            proof {
                assert forall|m: int| 0 <= m < found@.len() implies (#[trigger] found@[m])
                    < sources@.len() && gathered_v6(
                    self.entries@,
                    first as int,
                    k + 1,
                    target.start,
                    found@[m],
                ) by {
                    if m < before.len() {
                        assert(found@[m] == before[m]);
                        assert(gathered_v6(
                            self.entries@,
                            first as int,
                            k as int,
                            target.start,
                            before[m],
                        ));
                        let j = choose|j: int|
                            first <= j < k && (#[trigger] self.entries@[j]).source_idx == before[m]
                                && self.entries@[j].interval.end >= target.start;
                        assert(self.entries@[j].source_idx == found@[m]);
                    } else {
                        assert(self.entries@[k as int].source_idx == found@[m]);
                    }
                }
                assert forall|j: int|
                    first <= j < k + 1 && (#[trigger] self.entries@[j]).interval.end
                        >= target.start implies found@.contains(self.entries@[j].source_idx) by {
                    if j < k {
                        assert(before.contains(self.entries@[j].source_idx));
                        let m = choose|m: int|
                            0 <= m < before.len() && before[m] == self.entries@[j].source_idx;
                        assert(found@[m] == self.entries@[j].source_idx);
                    }
                }
            }
            k += 1;
        }
        proof {
            assert forall|i: int|
                #![trigger sources@[i]]
                0 <= i < sources@.len() implies ((exists|m: int|
                0 <= m < found@.len() && #[trigger] found@[m] == i) <==> interval_hits_v6(
                sources@[i].cidr,
                target@,
            )) by {
                if exists|m: int| 0 <= m < found@.len() && #[trigger] found@[m] == i {
                    let m = choose|m: int| 0 <= m < found@.len() && #[trigger] found@[m] == i;
                    let j = choose|j: int|
                        first <= j < k && (#[trigger] self.entries@[j]).source_idx == found@[m]
                            && self.entries@[j].interval.end >= target.start;
                    assert(indexes_v6(self.entries@[j], sources@));
                    assert(self.entries@[j].interval.start <= target.end);
                }
                if interval_hits_v6(sources@[i].cidr, target@) {
                    let j = choose|j: int|
                        0 <= j < self.entries@.len() && (#[trigger] self.entries@[j]).source_idx == i;
                    assert(indexes_v6(self.entries@[j], sources@));
                    assert(self.entries@[j].interval.start <= target.end);
                    assert(self.entries@[j].interval.end >= target.start);
                    assert(found@.contains(self.entries@[j].source_idx));
                    let m = choose|m: int|
                        0 <= m < found@.len() && found@[m] == self.entries@[j].source_idx;
                    assert(found@[m] == i);
                }
            }
        }
        found
    }
}

/// One of the entries from `first` up to `k` that ends at `start` or later has the source.
spec fn gathered_v6(
    entries: Seq<IndexedSourceV6>,
    first: int,
    k: int,
    start: u128,
    source_idx: usize,
) -> bool {
    exists|j: int|
        first <= j < k && (#[trigger] entries[j]).source_idx == source_idx
            && entries[j].interval.end >= start
}

/// The network is IPv6 and shares an address with the span.
pub open spec fn interval_hits_v6(cidr: CanonicalCidr, target: Span) -> bool {
    cidr matches CanonicalCidr::V6(c) && c@.base <= target.hi && target.lo <= block_last(128, c@)
}

/// Reordering entries keeps them an index.
proof fn lemma_indexed_v6_permuted(
    a: Seq<IndexedSourceV6>,
    b: Seq<IndexedSourceV6>,
    sources: Seq<LookupSourceEntry>,
)
    requires
        indexed_v6(a, sources, sources.len() as int),
        a.to_multiset() == b.to_multiset(),
    ensures
        indexed_v6(b, sources, sources.len() as int),
{
    broadcast use group_to_multiset_ensures;

    assert forall|k: int| 0 <= k < b.len() implies a.contains(#[trigger] b[k]) by {
        assert(b.contains(b[k]));
        assert(a.to_multiset().count(b[k]) > 0);
    }
    assert forall|k: int| 0 <= k < b.len() implies indexes_v6(#[trigger] b[k], sources)
        && b[k].source_idx < sources.len() by {
        assert(a.contains(b[k]));
        let m = choose|m: int| 0 <= m < a.len() && a[m] == b[k];
        assert(indexes_v6(a[m], sources));
    }
    assert forall|i: int|
        0 <= i < sources.len() && (#[trigger] sources[i]).cidr is V6 implies exists|k: int|
        0 <= k < b.len() && (#[trigger] b[k]).source_idx == i by {
        let m = choose|m: int| 0 <= m < a.len() && (#[trigger] a[m]).source_idx == i;
        assert(a.contains(a[m]));
        assert(b.to_multiset().count(a[m]) > 0);
        assert(b.contains(a[m]));
        let k = choose|k: int| 0 <= k < b.len() && b[k] == a[m];
        assert(b[k].source_idx == i);
    }
    assert(a.no_duplicates());
    a.lemma_multiset_has_no_duplicates();
    assert(a.to_multiset().len() == a.len() && b.to_multiset().len() == b.len());
    b.lemma_multiset_has_no_duplicates_conv();
    assert forall|x: int, y: int| 0 <= x < y < b.len() implies (#[trigger] b[x]).source_idx != (
    #[trigger] b[y]).source_idx by {
        assert(b[x] != b[y]);
        let m = choose|m: int| 0 <= m < a.len() && a[m] == b[x];
        let n = choose|n: int| 0 <= n < a.len() && a[n] == b[y];
        assert(a.contains(b[x]) && a.contains(b[y]));
        assert(m != n);
        if m < n {
            assert(a[m].source_idx != a[n].source_idx);
        } else {
            assert(a[n].source_idx != a[m].source_idx);
        }
    }
}

// Lookup ----------------------------------------------------------------------------------------

/// Networks of one family whose address ranges meet.
pub open spec fn models_overlap(a: CidrModel, b: CidrModel) -> bool {
    &&& a.family == b.family
    &&& a.block.base <= block_last(b.family.width(), b.block)
    &&& b.block.base <= block_last(a.family.width(), a.block)
}

/// For valid networks, meeting ranges share an address.
pub proof fn law_models_overlap_is_sharing(a: CanonicalCidr, b: CanonicalCidr)
    requires
        a.valid(),
        b.valid(),
    ensures
        models_overlap(a@, b@) == networks_overlap(a, b),
{
    let w = a.family_of().width();
    crate::policy::span_math::lemma_block_size(w, a.block().prefix);
    crate::policy::span_math::lemma_block_size(b.family_of().width(), b.block().prefix);
    if models_overlap(a@, b@) {
        let x = if a.block().base >= b.block().base {
            a.block().base
        } else {
            b.block().base
        };
        assert(a.has(a.family_of(), x) && b.has(a.family_of(), x));
    }
    if networks_overlap(a, b) {
        let (f, x) = choose|f: AddressFamily, x: int| #[trigger] a.has(f, x) && b.has(f, x);
        assert(a.has(f, x) && b.has(f, x));
    }
}

/// The target parses to a network that overlaps `cidr`.
pub open spec fn target_hits(target: Seq<char>, cidr: CanonicalCidr) -> bool {
    parse_strict(target) matches Some(model) && models_overlap(model, cidr@)
}

/// Models of a sequence of source entries.
pub open spec fn entry_models(entries: Seq<LookupSourceEntry>) -> Seq<EntryModel> {
    Seq::new(entries.len(), |i: int| entries[i]@)
}

/// Models of a sequence of borrowed source entries.
pub open spec fn borrowed_models(entries: Seq<&LookupSourceEntry>) -> Seq<EntryModel> {
    Seq::new(entries.len(), |i: int| entries[i]@)
}

/// One target and the source entries that overlap it.
pub struct TargetMatches<'a> {
    pub target: String,
    pub sources: Vec<&'a LookupSourceEntry>,
}

/// Contents of [`TargetMatches`].
pub struct GroupModel {
    pub target: Seq<char>,
    pub entries: Seq<EntryModel>,
}

impl<'a> View for TargetMatches<'a> {
    type V = GroupModel;

    open spec fn view(&self) -> GroupModel {
        GroupModel { target: self.target@, entries: borrowed_models(self.sources@) }
    }
}

/// Models of a sequence of target groups.
pub open spec fn group_models(groups: Seq<TargetMatches>) -> Seq<GroupModel> {
    Seq::new(groups.len(), |i: int| groups[i]@)
}

/// `matched` holds, in ascending order and once each, the entries that overlap the target.
pub open spec fn matched_entries(
    target: Seq<char>,
    sources: Seq<EntryModel>,
    matched: Seq<EntryModel>,
) -> bool {
    &&& ascending_entries(matched)
    &&& forall|e: EntryModel| #[trigger]
        matched.contains(e) <==> (sources.contains(e) && target_hits(target, e.cidr))
}

/// `texts` holds, in ascending order and once each, the targets whose validity is `valid`.
pub open spec fn distinct_targets(
    targets: Seq<Seq<char>>,
    valid: bool,
    texts: Seq<Seq<char>>,
) -> bool {
    &&& ascending_texts(texts)
    &&& forall|t: Seq<char>| #[trigger]
        texts.contains(t) <==> (targets.contains(t) && (parse_strict(t) is Some) == valid)
}

/// Texts of the targets of a sequence of groups.
pub open spec fn group_targets(groups: Seq<GroupModel>) -> Seq<Seq<char>> {
    Seq::new(groups.len(), |i: int| groups[i].target)
}

/// Result of a lookup: every distinct valid target with the entries that overlap it.
pub open spec fn lookup_groups(
    targets: Seq<Seq<char>>,
    sources: Seq<EntryModel>,
    groups: Seq<GroupModel>,
) -> bool {
    &&& distinct_targets(targets, true, group_targets(groups))
    &&& forall|i: int|
        0 <= i < groups.len() ==> matched_entries(
            (#[trigger] groups[i]).target,
            sources,
            groups[i].entries,
        )
}

proof fn lemma_ascending_prepared(s: Seq<PreparedTarget>)
    requires
        strictly_ordered(s),
        in_order(s),
    ensures
        ascending_texts(raw_texts(s)),
{
    let texts = raw_texts(s);
    assert forall|i: int, j: int| 0 <= i < j < texts.len() implies text_le(
        #[trigger] texts[i],
        #[trigger] texts[j],
    ) && texts[i] != texts[j] by {
        assert(s[i].ranked_le(s[j]));
        assert(!s[j].ranked_le(s[i]));
        lemma_text_le_total(texts[i], texts[i]);
    }
}

/// Texts of prepared targets.
pub open spec fn raw_texts(s: Seq<PreparedTarget>) -> Seq<Seq<char>> {
    Seq::new(s.len(), |i: int| s[i].raw@)
}

/// Every prepared target is parsed from its text.
pub open spec fn prepared_parse(s: Seq<PreparedTarget>) -> bool {
    forall|i: int|
        0 <= i < s.len() ==> parse_strict((#[trigger] s[i]).raw@) == Some(s[i].parsed@)
}

fn copy_text(text: &String) -> (copy: String)
    ensures
        copy@ == text@,
{
    text.clone()
}

/// `valid` holds the parsed ones of the first `i` targets, and nothing else.
spec fn collected_valid(all: Seq<Seq<char>>, i: int, valid: Seq<PreparedTarget>) -> bool {
    &&& prepared_parse(valid)
    &&& forall|k: int| 0 <= k < valid.len() ==> all.contains((#[trigger] valid[k]).raw@)
    &&& forall|m: int|
        0 <= m < i && parse_strict(#[trigger] all[m]) is Some ==> raw_texts(valid).contains(all[m])
}

/// `invalid` holds the other ones of the first `i` targets, and nothing else.
spec fn collected_invalid(all: Seq<Seq<char>>, i: int, invalid: Seq<String>) -> bool {
    &&& forall|k: int|
        0 <= k < invalid.len() ==> all.contains((#[trigger] invalid[k])@) && parse_strict(
            invalid[k]@,
        ) is None
    &&& forall|m: int|
        0 <= m < i && parse_strict(#[trigger] all[m]) is None ==> views(invalid).contains(all[m])
}

proof fn lemma_collect_valid(
    all: Seq<Seq<char>>,
    i: int,
    valid: Seq<PreparedTarget>,
    target: PreparedTarget,
)
    requires
        0 <= i < all.len(),
        collected_valid(all, i, valid),
        target.raw@ == all[i],
        parse_strict(all[i]) == Some(target.parsed@),
    ensures
        collected_valid(all, i + 1, valid.push(target)),
{
    let next = valid.push(target);
    assert forall|k: int| 0 <= k < next.len() implies all.contains((#[trigger] next[k]).raw@)
        && parse_strict(next[k].raw@) == Some(next[k].parsed@) by {
        if k < valid.len() {
            assert(next[k] == valid[k]);
        } else {
            assert(all[i] == next[k].raw@);
        }
    }
    assert forall|m: int|
        0 <= m < i + 1 && parse_strict(#[trigger] all[m]) is Some implies raw_texts(
        next,
    ).contains(all[m]) by {
        if m < i {
            assert(raw_texts(valid).contains(all[m]));
            let k = choose|k: int| 0 <= k < valid.len() && raw_texts(valid)[k] == all[m];
            assert(raw_texts(next)[k] == all[m]);
        } else {
            assert(raw_texts(next)[valid.len() as int] == all[m]);
        }
    }
}

proof fn lemma_collect_invalid(all: Seq<Seq<char>>, i: int, invalid: Seq<String>, target: String)
    requires
        0 <= i < all.len(),
        collected_invalid(all, i, invalid),
        target@ == all[i],
        parse_strict(all[i]) is None,
    ensures
        collected_invalid(all, i + 1, invalid.push(target)),
{
    let next = invalid.push(target);
    assert forall|k: int| 0 <= k < next.len() implies all.contains((#[trigger] next[k])@)
        && parse_strict(next[k]@) is None by {
        if k < invalid.len() {
            assert(next[k] == invalid[k]);
        } else {
            assert(all[i] == next[k]@);
        }
    }
    assert forall|m: int|
        0 <= m < i + 1 && parse_strict(#[trigger] all[m]) is None implies views(next).contains(
        all[m],
    ) by {
        if m < i {
            assert(views(invalid).contains(all[m]));
            let k = choose|k: int| 0 <= k < invalid.len() && views(invalid)[k] == all[m];
            assert(views(next)[k] == all[m]);
        } else {
            assert(views(next)[invalid.len() as int] == all[m]);
        }
    }
}

/// Separates targets into parsed ones and invalid ones, each sorted and without repetition.
pub fn prepare_targets(targets: &[String]) -> (prepared: (Vec<PreparedTarget>, Vec<String>))
    ensures
        distinct_targets(views(targets@), true, raw_texts(prepared.0@)),
        prepared_parse(prepared.0@),
        distinct_targets(views(targets@), false, views(prepared.1@)),
{
    let ghost all = views(targets@);
    let mut valid: Vec<PreparedTarget> = Vec::new();
    let mut invalid: Vec<String> = Vec::new();
    let mut i: usize = 0;
    while i < targets.len()
        invariant
            i <= targets@.len(),
            all == views(targets@),
            collected_valid(all, i as int, valid@),
            collected_invalid(all, i as int, invalid@),
        decreases targets@.len() - i,
    {
        assert(all[i as int] == targets@[i as int]@);
        match parse_target_strict(targets[i].as_str()) {
            Ok(parsed) => {
                let target = PreparedTarget { raw: copy_text(&targets[i]), parsed };
                proof {
                    lemma_collect_valid(all, i as int, valid@, target);
                }
                valid.push(target);
            },
            Err(_) => {
                let target: String = copy_text(&targets[i]);
                proof {
                    lemma_collect_invalid(all, i as int, invalid@, target);
                }
                invalid.push(target);
            },
        }
        i += 1;
    }
    let ghost valid_all = valid@;
    let ghost invalid_all = invalid@;
    let sorted_valid = sort_stable(valid);
    let sorted_invalid = sort_stable(invalid);
    let ghost sv = sorted_valid@;
    let ghost si = sorted_invalid@;
    let unique_valid = dedup_sorted(sorted_valid);
    let unique_invalid = dedup_sorted(sorted_invalid);
    proof {
        let uv = unique_valid@;
        let ui = unique_invalid@;
        lemma_sorted_members(valid_all, sv);
        lemma_sorted_members(invalid_all, si);
        lemma_ascending_prepared(uv);
        assert forall|k: int| 0 <= k < uv.len() implies valid_all.contains(#[trigger] uv[k]) by {
            assert(sv.contains(uv[k]));
            let m = choose|m: int| 0 <= m < sv.len() && sv[m] == uv[k];
            assert(valid_all.contains(sv[m]));
        }
        assert forall|k: int| 0 <= k < uv.len() implies parse_strict((#[trigger] uv[k]).raw@)
            == Some(uv[k].parsed@) && all.contains(uv[k].raw@) by {
            let m = choose|m: int| 0 <= m < valid_all.len() && valid_all[m] == uv[k];
            assert(valid_all.contains(uv[k]));
            assert(valid_all[m] == uv[k]);
        }
        let tv = raw_texts(uv);
        assert forall|t: Seq<char>| #[trigger] tv.contains(t) <==> (all.contains(t) && (
        parse_strict(t) is Some) == true) by {
            if tv.contains(t) {
                let k = choose|k: int| 0 <= k < tv.len() && tv[k] == t;
                assert(uv[k].raw@ == t);
            }
            if all.contains(t) && parse_strict(t) is Some {
                let m = choose|m: int| 0 <= m < all.len() && all[m] == t;
                assert(raw_texts(valid_all).contains(all[m]));
                let k = choose|k: int| 0 <= k < valid_all.len() && raw_texts(valid_all)[k] == t;
                assert(valid_all.contains(valid_all[k]));
                assert(sv.contains(valid_all[k]));
                let q = choose|q: int| 0 <= q < sv.len() && sv[q] == valid_all[k];
                assert(has_tie(uv, sv[q]));
                let r = choose|r: int|
                    0 <= r < uv.len() && (#[trigger] uv[r]).ranked_le(sv[q]) && sv[q].ranked_le(
                        uv[r],
                    );
                lemma_text_le_antisymmetric(uv[r].raw@, t);
                assert(tv[r] == t);
            }
        }
        let ti = views(ui);
        assert forall|i: int, j: int| 0 <= i < j < ti.len() implies text_le(
            #[trigger] ti[i],
            #[trigger] ti[j],
        ) && ti[i] != ti[j] by {
            assert(ui[i].ranked_le(ui[j]));
            assert(!ui[j].ranked_le(ui[i]));
            lemma_text_le_total(ti[i], ti[i]);
        }
        assert forall|t: Seq<char>| #[trigger] ti.contains(t) <==> (all.contains(t) && (
        parse_strict(t) is Some) == false) by {
            if ti.contains(t) {
                let k = choose|k: int| 0 <= k < ti.len() && ti[k] == t;
                assert(ui[k]@ == t);
                assert(si.contains(ui[k]));
                let m = choose|m: int| 0 <= m < si.len() && si[m] == ui[k];
                assert(invalid_all.contains(si[m]));
                let q = choose|q: int| 0 <= q < invalid_all.len() && invalid_all[q] == si[m];
                assert(invalid_all[q]@ == t);
            }
            if all.contains(t) && parse_strict(t) is None {
                let m = choose|m: int| 0 <= m < all.len() && all[m] == t;
                assert(views(invalid_all).contains(all[m]));
                let k = choose|k: int| 0 <= k < invalid_all.len() && views(invalid_all)[k] == t;
                assert(invalid_all.contains(invalid_all[k]));
                assert(si.contains(invalid_all[k]));
                let q = choose|q: int| 0 <= q < si.len() && si[q] == invalid_all[k];
                assert(has_tie(ui, si[q]));
                let r = choose|r: int|
                    0 <= r < ui.len() && (#[trigger] ui[r]).ranked_le(si[q]) && si[q].ranked_le(
                        ui[r],
                    );
                lemma_text_le_antisymmetric(ui[r]@, t);
                assert(ti[r] == t);
            }
        }
    }
    (unique_valid, unique_invalid)
}

/// Source entries that overlap a prepared target, in ascending order and once each.
pub fn target_matches<'a>(
    target: &PreparedTarget,
    sources: &'a [LookupSourceEntry],
    v4_index: &IntervalIndexV4,
    v6_index: &IntervalIndexV6,
) -> (matched: Vec<&'a LookupSourceEntry>)
    requires
        v4_index.describes(sources@),
        v6_index.describes(sources@),
        parse_strict(target.raw@) == Some(target.parsed@),
    ensures
        matched_entries(target.raw@, entry_models(sources@), borrowed_models(matched@)),
{
    let found: Vec<usize> = match target.parsed {
        CanonicalCidr::V4(cidr) => v4_index.overlapping_source_indices(
            ipv4_to_interval(cidr),
            sources,
        ),
        CanonicalCidr::V6(cidr) => v6_index.overlapping_source_indices(
            ipv6_to_interval(cidr),
            sources,
        ),
    };
    proof {
        assert forall|i: int|
            #![trigger sources@[i]]
            0 <= i < sources@.len() implies ((exists|k: int|
            0 <= k < found@.len() && #[trigger] found@[k] == i) <==> target_hits(
            target.raw@,
            sources@[i].cidr,
        )) by {}
    }
    let mut refs: Vec<SourceRef<'a>> = Vec::new();
    let mut i: usize = 0;
    while i < found.len()
        invariant
            i <= found@.len(),
            refs@.len() == i,
            forall|k: int| 0 <= k < found@.len() ==> (#[trigger] found@[k]) < sources@.len(),
            forall|k: int|
                0 <= k < i ==> (#[trigger] refs@[k]).entry@ == sources@[found@[k] as int]@,
        decreases found@.len() - i,
    {
        refs.push(SourceRef { entry: &sources[found[i]] });
        i += 1;
    }
    let ghost unsorted = refs@;
    let sorted = sort_stable(refs);
    let ghost ordered = sorted@;
    let unique = dedup_sorted(sorted);
    let mut matched: Vec<&'a LookupSourceEntry> = Vec::new();
    let mut j: usize = 0;
    while j < unique.len()
        invariant
            j <= unique@.len(),
            matched@.len() == j,
            forall|k: int| 0 <= k < j ==> (#[trigger] matched@[k])@ == unique@[k].entry@,
        decreases unique@.len() - j,
    {
        matched.push(unique[j].entry);
        j += 1;
    }
    proof {
        let uq = unique@;
        let ms = borrowed_models(matched@);
        let all = entry_models(sources@);
        lemma_sorted_members(unsorted, ordered);
        assert forall|a: int, b: int| 0 <= a < b < ms.len() implies entry_le(
            #[trigger] ms[a],
            #[trigger] ms[b],
        ) && ms[a] != ms[b] by {
            assert(matched@[a]@ == uq[a].entry@ && matched@[b]@ == uq[b].entry@);
            assert(uq[a].ranked_le(uq[b]));
            assert(!uq[b].ranked_le(uq[a]));
            lemma_entry_le_total(ms[a], ms[a]);
        }
        assert forall|e: EntryModel| #[trigger] ms.contains(e) <==> (all.contains(e)
            && target_hits(target.raw@, e.cidr)) by {
            if ms.contains(e) {
                let k = choose|k: int| 0 <= k < ms.len() && ms[k] == e;
                assert(matched@[k]@ == e);
                assert(ordered.contains(uq[k]));
                let m = choose|m: int| 0 <= m < ordered.len() && ordered[m] == uq[k];
                assert(unsorted.contains(ordered[m]));
                let q = choose|q: int| 0 <= q < unsorted.len() && unsorted[q] == ordered[m];
                assert(unsorted[q].entry@ == sources@[found@[q] as int]@);
                assert(all[found@[q] as int] == e);
                assert(found@[q] == found@[q] as int);
            }
            if all.contains(e) && target_hits(target.raw@, e.cidr) {
                let p = choose|p: int| 0 <= p < all.len() && all[p] == e;
                assert(sources@[p]@ == e);
                assert(sources@[p].cidr == e.cidr);
                let q = choose|q: int| 0 <= q < found@.len() && #[trigger] found@[q] == p;
                assert(unsorted[q].entry@ == e);
                assert(ordered.contains(unsorted[q]));
                let m = choose|m: int| 0 <= m < ordered.len() && ordered[m] == unsorted[q];
                assert(has_tie(uq, ordered[m]));
                let r = choose|r: int|
                    0 <= r < uq.len() && (#[trigger] uq[r]).ranked_le(ordered[m])
                        && ordered[m].ranked_le(uq[r]);
                lemma_entry_le_antisymmetric(uq[r].entry@, e);
                assert(matched@[r]@ == e);
                assert(ms[r] == e);
            }
        }
    }
    matched
}

/// Looks every distinct valid target up; returns the groups and the invalid targets.
pub fn run_lookup_by_target<'a>(targets: &[String], sources: &'a [LookupSourceEntry]) -> (report: (
    Vec<TargetMatches<'a>>,
    Vec<String>,
))
    ensures
        lookup_groups(views(targets@), entry_models(sources@), group_models(report.0@)),
        distinct_targets(views(targets@), false, views(report.1@)),
{
    let v4_index = IntervalIndexV4::from_sources(sources);
    let v6_index = IntervalIndexV6::from_sources(sources);
    let (prepared, invalid_targets) = prepare_targets(targets);
    let mut groups: Vec<TargetMatches<'a>> = Vec::new();
    let mut i: usize = 0;
    while i < prepared.len()
        invariant
            i <= prepared@.len(),
            groups@.len() == i,
            v4_index.describes(sources@),
            v6_index.describes(sources@),
            prepared_parse(prepared@),
            forall|k: int|
                0 <= k < i ==> (#[trigger] groups@[k]).target@ == prepared@[k].raw@
                    && matched_entries(
                    groups@[k].target@,
                    entry_models(sources@),
                    borrowed_models(groups@[k].sources@),
                ),
        decreases prepared@.len() - i,
    {
        let matched = target_matches(&prepared[i], sources, &v4_index, &v6_index);
        groups.push(TargetMatches { target: copy_text(&prepared[i].raw), sources: matched });
        i += 1;
    }
    proof {
        let gs = group_models(groups@);
        assert(group_targets(gs) =~= raw_texts(prepared@)) by {
            assert forall|k: int| 0 <= k < gs.len() implies group_targets(gs)[k] == raw_texts(
                prepared@,
            )[k] by {
                assert(groups@[k].target@ == prepared@[k].raw@);
            }
        }
        assert forall|k: int| 0 <= k < gs.len() implies matched_entries(
            (#[trigger] gs[k]).target,
            entry_models(sources@),
            gs[k].entries,
        ) by {
            assert(gs[k] == groups@[k]@);
        }
    }
    (groups, invalid_targets)
}

/// Target and matching entry.
pub struct MatchModel {
    pub target: Seq<char>,
    pub entry: EntryModel,
}

/// Matches of one target, in the order of its entries.
pub open spec fn group_matches(group: GroupModel) -> Seq<MatchModel> {
    Seq::new(
        group.entries.len(),
        |i: int| MatchModel { target: group.target, entry: group.entries[i] },
    )
}

/// Matches of all targets, in order.
pub open spec fn all_matches(groups: Seq<GroupModel>) -> Seq<MatchModel>
    decreases groups.len(),
{
    if groups.len() == 0 {
        Seq::empty()
    } else {
        all_matches(groups.drop_last()) + group_matches(groups.last())
    }
}

/// One streamed match.
pub struct StreamedMatch<'a> {
    pub target: String,
    pub source: &'a LookupSourceEntry,
}

/// Models of a sequence of streamed matches.
pub open spec fn streamed_models(matches: Seq<StreamedMatch>) -> Seq<MatchModel> {
    Seq::new(
        matches.len(),
        |i: int| MatchModel { target: matches[i].target@, entry: matches[i].source@ },
    )
}

/// Models of a sequence of report matches.
pub open spec fn report_models(matches: Seq<LookupMatch>) -> Seq<MatchModel> {
    Seq::new(
        matches.len(),
        |i: int|
            MatchModel {
                target: matches[i].target@,
                entry: EntryModel {
                    label: matches[i].source_label@,
                    line: matches[i].matched_source_entry@,
                    cidr: matches[i].matched_cidr,
                },
            },
    )
}

/// Matches of a lookup, target by target.
pub open spec fn lookup_matches(
    targets: Seq<Seq<char>>,
    sources: Seq<EntryModel>,
    matches: Seq<MatchModel>,
) -> bool {
    exists|groups: Seq<GroupModel>| #[trigger]
        lookup_groups(targets, sources, groups) && matches == all_matches(groups)
}

/// Looks every distinct valid target up; returns the matches one by one and the invalid targets.
pub fn run_lookup_streaming<'a>(targets: &[String], sources: &'a [LookupSourceEntry]) -> (report: (
    Vec<StreamedMatch<'a>>,
    Vec<String>,
))
    ensures
        lookup_matches(views(targets@), entry_models(sources@), streamed_models(report.0@)),
        distinct_targets(views(targets@), false, views(report.1@)),
{
    let (groups, invalid_targets) = run_lookup_by_target(targets, sources);
    let ghost gs = group_models(groups@);
    let mut out: Vec<StreamedMatch<'a>> = Vec::new();
    let mut i: usize = 0;
    assert(streamed_models(out@) =~= all_matches(gs.take(0)));
    while i < groups.len()
        invariant
            i <= groups@.len(),
            gs == group_models(groups@),
            streamed_models(out@) == all_matches(gs.take(i as int)),
        decreases groups@.len() - i,
    {
        let group = &groups[i];
        let ghost base = streamed_models(out@);
        let ghost tail = group_matches(gs[i as int]);
        let mut j: usize = 0;
        assert(base + tail.take(0) =~= base);
        while j < group.sources.len()
            invariant
                j <= group.sources@.len(),
                i < groups@.len(),
                *group == groups@[i as int],
                gs == group_models(groups@),
                tail == group_matches(gs[i as int]),
                streamed_models(out@) == base + tail.take(j as int),
            decreases group.sources@.len() - j,
        {
            let ghost before = out@;
            out.push(StreamedMatch { target: copy_text(&group.target), source: group.sources[j] });
            proof {
                assert(streamed_models(out@) =~= streamed_models(before).push(tail[j as int]));
                assert(streamed_models(out@) =~= base + tail.take(j as int + 1));
            }
            j += 1;
        }
        proof {
            assert(tail.take(j as int) =~= tail);
            assert(gs.take(i as int + 1).drop_last() =~= gs.take(i as int));
            assert(gs.take(i as int + 1).last() == gs[i as int]);
        }
        i += 1;
    }
    assert(gs.take(i as int) =~= gs);
    (out, invalid_targets)
}

/// Looks every distinct valid target up and reports copies of the matching entries.
pub fn run_lookup(targets: &[String], sources: &[LookupSourceEntry]) -> (report: LookupReport)
    ensures
        lookup_matches(views(targets@), entry_models(sources@), report_models(report.matches@)),
        distinct_targets(views(targets@), false, views(report.invalid_targets@)),
{
    let (streamed, invalid_targets) = run_lookup_streaming(targets, sources);
    let mut matches: Vec<LookupMatch> = Vec::new();
    let mut i: usize = 0;
    while i < streamed.len()
        invariant
            i <= streamed@.len(),
            matches@.len() == i,
            forall|k: int|
                0 <= k < i ==> #[trigger] report_models(matches@)[k] == streamed_models(
                    streamed@,
                )[k],
        decreases streamed@.len() - i,
    {
        let ghost before = matches@;
        let item = &streamed[i];
        matches.push(
            LookupMatch {
                target: copy_text(&item.target),
                source_label: copy_text(&item.source.source_label),
                matched_source_entry: copy_text(&item.source.source_line),
                matched_cidr: item.source.cidr,
            },
        );
        proof {
            assert forall|k: int| 0 <= k < i + 1 implies #[trigger] report_models(matches@)[k]
                == streamed_models(streamed@)[k] by {
                if k < i {
                    assert(report_models(before)[k] == streamed_models(streamed@)[k]);
                }
            }
        }
        i += 1;
    }
    assert(report_models(matches@) =~= streamed_models(streamed@));
    LookupReport { matches, invalid_targets }
}

} // verus!
