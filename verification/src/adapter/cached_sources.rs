//! Lookup entries of cached feeds.

use crate::adapter::digest::{sha256_hex, sha256_text};
use crate::adapter::errors::SourceLoadError;
use crate::adapter::offline_cache::OfflineRemoteGeneration;
use crate::ordering::{sort_stable, stably_sorted, Ranked};
use crate::policy::cidr_text::{parse_non_strict, parse_non_strict_chars, CidrModel};
use crate::policy::network_types::CanonicalCidr;
use crate::text::{
    first_word, first_word_chars, from_chars, lemma_text_le_antisymmetric, lemma_text_le_total,
    lemma_text_le_transitive, lines, same_text, split_lines, text_le, text_le_str, to_chars, trim,
    trimmed, views,
};
use vstd::prelude::*;
use vstd::utf8::encode_utf8;

verus! {

/// Largest source file that is read.
pub const SOURCE_FILE_READ_LIMIT: usize = 16_777_216;

/// One canonical entry retained from an offline remote cache.
#[derive(Debug, Clone, PartialEq, Eq)]
pub struct CachedRemoteEntry {
    /// Canonical CIDR used by lookup.
    pub cidr: CanonicalCidr,
    /// Original cached source line shown to the operator: the word of it that names the network.
    pub source_line: String,
}

/// One validated legacy or v2 remote cache source.
#[derive(Debug, Clone, PartialEq, Eq)]
pub struct CachedRemoteSource {
    /// Selected iplist file path.
    pub path: String,
    /// Configured URL when valid metadata is available, otherwise a stable cache label.
    pub label: String,
    /// Parsed canonical entries.
    pub entries: Vec<CachedRemoteEntry>,
}

impl View for CachedRemoteEntry {
    type V = (CidrModel, Seq<char>);

    open spec fn view(&self) -> (CidrModel, Seq<char>) {
        (self.cidr@, self.source_line@)
    }
}

/// Contents of entries, in order.
pub open spec fn entry_views(entries: Seq<CachedRemoteEntry>) -> Seq<(CidrModel, Seq<char>)> {
    Seq::new(entries.len(), |i: int| entries[i]@)
}

/// Contents of a source.
pub struct SourceModel {
    pub path: Seq<char>,
    pub label: Seq<char>,
    pub entries: Seq<(CidrModel, Seq<char>)>,
}

impl View for CachedRemoteSource {
    type V = SourceModel;

    open spec fn view(&self) -> SourceModel {
        SourceModel {
            path: self.path@,
            label: self.label@,
            entries: entry_views(self.entries@),
        }
    }
}

/// Contents of sources, in order.
pub open spec fn source_views(sources: Seq<CachedRemoteSource>) -> Seq<SourceModel> {
    Seq::new(sources.len(), |i: int| sources[i]@)
}

// Entries ---------------------------------------------------------------------------------------

/// Reads one line of a source: its first word, where that is a network.
pub fn parse_cidr_source_line(line: &str) -> (entry: Option<(CanonicalCidr, String)>)
    ensures
        match parse_non_strict(line@) {
            Some(model) => entry matches Some(found) && found.0@ == model && found.1@
                == first_word(line@),
            None => entry is None,
        },
{
    let chars: Vec<char> = to_chars(line);
    match parse_non_strict_chars(chars.as_slice()) {
        Some(cidr) => Some((cidr, from_chars(first_word_chars(chars.as_slice())))),
        None => None,
    }
}

/// Entries of lines: the networks that stand first on a line, each with the word that names it.
pub open spec fn line_entries(all: Seq<Seq<char>>) -> Seq<(CidrModel, Seq<char>)>
    decreases all.len(),
{
    if all.len() == 0 {
        Seq::empty()
    } else {
        let before = line_entries(all.drop_last());
        match parse_non_strict(all.last()) {
            Some(model) => before.push((model, first_word(all.last()))),
            None => before,
        }
    }
}

/// Reads the entries of a cached list.
pub fn parse_cached_entries(contents: &str) -> (entries: Vec<CachedRemoteEntry>)
    ensures
        entry_views(entries@) == line_entries(lines(contents@)),
{
    let all: Vec<String> = split_lines(contents);
    let ghost texts = lines(contents@);
    let mut entries: Vec<CachedRemoteEntry> = Vec::new();
    let mut i: usize = 0;
    assert(texts.take(0) =~= Seq::<Seq<char>>::empty());
    assert(entry_views(entries@) =~= line_entries(texts.take(0)));
    while i < all.len()
        invariant
            i <= all@.len(),
            views(all@) == texts,
            entry_views(entries@) == line_entries(texts.take(i as int)),
        decreases all@.len() - i,
    {
        let ghost before = entries@;
        proof {
            assert(texts.take(i + 1).drop_last() =~= texts.take(i as int));
            assert(texts.take(i + 1).last() == texts[i as int]);
            assert(texts[i as int] == all@[i as int]@);
        }
        if let Some((cidr, token)) = parse_cidr_source_line(all[i].as_str()) {
            entries.push(CachedRemoteEntry { cidr, source_line: token });
            assert(entry_views(entries@) =~= entry_views(before).push(entries@.last()@));
        }
        i += 1;
    }
    assert(texts.take(i as int) =~= texts);
    entries
}

// Sources ---------------------------------------------------------------------------------------

/// Keeps a legacy list that has the checksum of its metadata, where the metadata names one.
pub fn read_remote_cache_iplist_text(contents: String, expected_sha256: Option<&str>) -> (kept: Result<
    String,
    String,
>)
    ensures
        ({
            let fits = expected_sha256 matches Some(checksum) ==> sha256_text(
                encode_utf8(contents@),
            ) == checksum@;
            match kept {
                Ok(text) => fits && text == contents,
                Err(reason) => !fits && reason@ == "remote iplist cache hash mismatch"@,
            }
        }),
{
    if let Some(checksum) = expected_sha256 {
        let actual: String = sha256_hex(contents.as_str().as_bytes());
        if !same_text(actual.as_str(), checksum) {
            return Err("remote iplist cache hash mismatch".to_owned());
        }
    }
    Ok(contents)
}

/// A legacy list and what was read of it.
#[derive(Debug, PartialEq, Eq)]
pub struct LegacySourceFile {
    /// Path of the file.
    pub path: String,
    /// Name of the file without its extension, where it is a text.
    pub stem: Option<String>,
    /// Name of the file.
    pub file_name: String,
    /// URL that the metadata of the file names.
    pub metadata_url: Option<String>,
    /// What the file holds, or why it cannot be read.
    pub contents: Result<String, String>,
}

impl Ranked for LegacySourceFile {
    open spec fn ranked_le(self, other: LegacySourceFile) -> bool {
        text_le(self.path@, other.path@)
    }

    proof fn lemma_ranked_total(a: LegacySourceFile, b: LegacySourceFile) {
        lemma_text_le_total(a.path@, b.path@);
    }

    proof fn lemma_ranked_transitive(
        a: LegacySourceFile,
        b: LegacySourceFile,
        c: LegacySourceFile,
    ) {
        lemma_text_le_transitive(a.path@, b.path@, c.path@);
    }

    fn precedes(&self, other: &LegacySourceFile) -> (before: bool) {
        text_le_str(self.path.as_str(), other.path.as_str())
    }
}

/// Label of a legacy list: the URL of its metadata, or its file name.
pub open spec fn source_label(file_name: Seq<char>, url: Option<Seq<char>>) -> Seq<char> {
    match url {
        Some(text) if trim(text).len() > 0 => trim(text),
        _ => "remote:"@ + file_name,
    }
}

/// Labels a legacy list.
pub fn resolve_remote_source_label(file_name: &str, metadata_url: &Option<String>) -> (label: String)
    ensures
        label@ == source_label(
            file_name@,
            match metadata_url {
                Some(url) => Some(url@),
                None => None,
            },
        ),
{
    if let Some(url) = metadata_url {
        let text: String = trimmed(url.as_str());
        if !text.as_str().is_empty() {
            return text;
        }
    }
    let mut label: String = "remote:".to_owned();
    label.append(file_name);
    label
}

/// The file is superseded by a generation of the same feed.
pub open spec fn superseded(
    generations: Seq<OfflineRemoteGeneration>,
    file: LegacySourceFile,
) -> bool {
    file.stem matches Some(stem) && exists|i: int|
        0 <= i < generations.len() && (#[trigger] generations[i]).url_hash@ == stem@
}

/// Contents of the source that a generation makes.
pub open spec fn generation_source(generation: OfflineRemoteGeneration) -> SourceModel {
    SourceModel {
        path: generation.iplist_path@,
        label: generation.label@,
        entries: line_entries(lines(generation.iplist@)),
    }
}

/// Contents of the source that a legacy list makes.
pub open spec fn legacy_source(file: LegacySourceFile) -> SourceModel {
    SourceModel {
        path: file.path@,
        label: source_label(
            file.file_name@,
            match file.metadata_url {
                Some(url) => Some(url@),
                None => None,
            },
        ),
        entries: line_entries(lines(file.contents->Ok_0@)),
    }
}

/// Sources of generations, in order.
pub open spec fn generation_sources(generations: Seq<OfflineRemoteGeneration>) -> Seq<SourceModel> {
    Seq::new(generations.len(), |i: int| generation_source(generations[i]))
}

/// Sources of the legacy lists that no generation supersedes, in order.
pub open spec fn legacy_sources(
    generations: Seq<OfflineRemoteGeneration>,
    files: Seq<LegacySourceFile>,
) -> Seq<SourceModel>
    decreases files.len(),
{
    if files.len() == 0 {
        Seq::empty()
    } else {
        let before = legacy_sources(generations, files.drop_last());
        if superseded(generations, files.last()) {
            before
        } else {
            before.push(legacy_source(files.last()))
        }
    }
}

/// Index of the first legacy list that is needed and cannot be read.
pub open spec fn is_first_failure(
    generations: Seq<OfflineRemoteGeneration>,
    files: Seq<LegacySourceFile>,
    index: int,
) -> bool {
    &&& 0 <= index < files.len()
    &&& files[index].contents is Err
    &&& !superseded(generations, files[index])
    &&& forall|k: int|
        0 <= k < index ==> (#[trigger] files[k]).contents is Ok || superseded(generations, files[k])
}

/// Every legacy list that is needed can be read.
pub open spec fn all_readable(
    generations: Seq<OfflineRemoteGeneration>,
    files: Seq<LegacySourceFile>,
) -> bool {
    forall|k: int|
        0 <= k < files.len() ==> (#[trigger] files[k]).contents is Ok || superseded(
            generations,
            files[k],
        )
}

impl Ranked for CachedRemoteSource {
    open spec fn ranked_le(self, other: CachedRemoteSource) -> bool {
        if self.label@ != other.label@ {
            text_le(self.label@, other.label@)
        } else {
            text_le(self.path@, other.path@)
        }
    }

    proof fn lemma_ranked_total(a: CachedRemoteSource, b: CachedRemoteSource) {
        lemma_text_le_total(a.label@, b.label@);
        lemma_text_le_total(a.path@, b.path@);
    }

    proof fn lemma_ranked_transitive(
        a: CachedRemoteSource,
        b: CachedRemoteSource,
        c: CachedRemoteSource,
    ) {
        if a.label@ == b.label@ && b.label@ == c.label@ {
            lemma_text_le_transitive(a.path@, b.path@, c.path@);
        } else if a.label@ != b.label@ && b.label@ != c.label@ {
            lemma_text_le_transitive(a.label@, b.label@, c.label@);
            if a.label@ == c.label@ {
                lemma_text_le_antisymmetric(a.label@, b.label@);
            }
        }
    }

    fn precedes(&self, other: &CachedRemoteSource) -> (before: bool) {
        if !same_text(self.label.as_str(), other.label.as_str()) {
            text_le_str(self.label.as_str(), other.label.as_str())
        } else {
            text_le_str(self.path.as_str(), other.path.as_str())
        }
    }
}

fn is_superseded(generations: &Vec<OfflineRemoteGeneration>, file: &LegacySourceFile) -> (found: bool)
    ensures
        found == superseded(generations@, *file),
{
    match &file.stem {
        None => false,
        Some(stem) => {
            let mut i: usize = 0;
            while i < generations.len()
                invariant
                    i <= generations@.len(),
                    file.stem == Some(*stem),
                    forall|k: int|
                        0 <= k < i ==> (#[trigger] generations@[k]).url_hash@ != stem@,
                decreases generations@.len() - i,
            {
                if same_text(generations[i].url_hash.as_str(), stem.as_str()) {
                    assert(generations@[i as int].url_hash@ == stem@);
                    return true;
                }
                i += 1;
            }
            false
        },
    }
}

/// The sources are those of the generations and of the legacy lists, in order.
pub open spec fn gathers(
    generations: Seq<OfflineRemoteGeneration>,
    files: Seq<LegacySourceFile>,
    gathered: Seq<CachedRemoteSource>,
) -> bool {
    source_views(gathered) == generation_sources(generations) + legacy_sources(generations, files)
}

/// The outcome of loading, given the legacy lists in the order of their paths.
pub open spec fn sources_rule(
    generations: Seq<OfflineRemoteGeneration>,
    files: Seq<LegacySourceFile>,
    outcome: Result<Vec<CachedRemoteSource>, SourceLoadError>,
) -> bool {
    match outcome {
        Ok(sources) => all_readable(generations, files) && exists|
            gathered: Seq<CachedRemoteSource>,
        | #[trigger]
            gathers(generations, files, gathered) && stably_sorted(gathered, sources@),
        Err(error) => exists|index: int| #[trigger]
            is_first_failure(generations, files, index) && (error matches SourceLoadError::Source {
                path,
                reason,
            } && path@ == files[index].path@ && reason@ == files[index].contents->Err_0@),
    }
}

/// Loads cached remote feeds in deterministic label and path order.
///
/// A legacy list is skipped where a generation of the same feed supersedes it. Returns
/// [`SourceLoadError::Source`] for the first legacy list, by path, that is needed and cannot be
/// read.
pub fn load_remote_sources(
    generations: Vec<OfflineRemoteGeneration>,
    files: Vec<LegacySourceFile>,
) -> (outcome: Result<Vec<CachedRemoteSource>, SourceLoadError>)
    ensures
        exists|ordered: Seq<LegacySourceFile>| #[trigger]
            stably_sorted(files@, ordered) && sources_rule(generations@, ordered, outcome),
{
    let ghost given = files@;
    let ordered: Vec<LegacySourceFile> = sort_stable(files);
    assert(stably_sorted(given, ordered@));
    let mut sources: Vec<CachedRemoteSource> = Vec::new();
    let mut i: usize = 0;
    while i < generations.len()
        invariant
            i <= generations@.len(),
            source_views(sources@) == generation_sources(generations@).take(i as int),
        decreases generations@.len() - i,
    {
        let ghost before = sources@;
        sources.push(
            CachedRemoteSource {
                path: generations[i].iplist_path.clone(),
                label: generations[i].label.clone(),
                entries: parse_cached_entries(generations[i].iplist.as_str()),
            },
        );
        i += 1;
        proof {
            let made = generation_sources(generations@);
            assert(sources@.last()@ == made[i - 1]);
            assert(source_views(sources@) =~= source_views(before).push(made[i - 1]));
            assert(made.take(i as int) =~= made.take(i - 1).push(made[i - 1]));
        }
    }
    let ghost made = generation_sources(generations@);
    let mut k: usize = 0;
    proof {
        assert(made.take(i as int) =~= made);
        assert(ordered@.take(0) =~= Seq::<LegacySourceFile>::empty());
        assert(source_views(sources@) =~= made + legacy_sources(generations@, ordered@.take(0)));
    }
    while k < ordered.len()
        invariant
            k <= ordered@.len(),
            made == generation_sources(generations@),
            given == files@,
            stably_sorted(given, ordered@),
            source_views(sources@) == made + legacy_sources(generations@, ordered@.take(k as int)),
            forall|m: int|
                0 <= m < k ==> (#[trigger] ordered@[m]).contents is Ok || superseded(
                    generations@,
                    ordered@[m],
                ),
        decreases ordered@.len() - k,
    {
        let file: &LegacySourceFile = &ordered[k];
        let ghost before = sources@;
        let ghost known = legacy_sources(generations@, ordered@.take(k as int));
        proof {
            assert(ordered@.take(k + 1).drop_last() =~= ordered@.take(k as int));
            assert(ordered@.take(k + 1).last() == *file);
        }
        if !is_superseded(&generations, file) {
            match &file.contents {
                Err(reason) => {
                    assert(is_first_failure(generations@, ordered@, k as int));
                    return Err(
                        SourceLoadError::Source {
                            path: file.path.clone(),
                            reason: reason.clone(),
                        },
                    );
                },
                Ok(contents) => {
                    sources.push(
                        CachedRemoteSource {
                            path: file.path.clone(),
                            label: resolve_remote_source_label(
                                file.file_name.as_str(),
                                &file.metadata_url,
                            ),
                            entries: parse_cached_entries(contents.as_str()),
                        },
                    );
                    proof {
                        assert(sources@.last()@ == legacy_source(*file));
                        assert(source_views(sources@) =~= source_views(before).push(
                            legacy_source(*file),
                        ));
                        assert((made + known).push(legacy_source(*file)) =~= made + known.push(
                            legacy_source(*file),
                        ));
                    }
                },
            }
        }
        k += 1;
    }
    assert(ordered@.take(k as int) =~= ordered@);
    let ghost gathered = sources@;
    let sorted: Vec<CachedRemoteSource> = sort_stable(sources);
    proof {
        assert(stably_sorted(gathered, sorted@));
        assert(source_views(gathered) == made + legacy_sources(generations@, ordered@));
        assert(all_readable(generations@, ordered@));
        assert(gathers(generations@, ordered@, gathered));
        assert(sources_rule(generations@, ordered@, Ok(sorted)));
    }
    Ok(sorted)
}

} // verus!
