//! GitHub metadata safelist: which cached data is good, and what a response does to it.

use crate::adapter::cache_generation::{
    generation_contents_match, generation_text, option_text, GenerationCandidate, GenerationFile,
    GenerationFileLimit, MANIFEST_FILE_NAME,
};
use crate::adapter::cache_staging::StagedGeneration;
use crate::adapter::cached_fetch::{has_checksum, read_validated_bytes_lossy};
use crate::adapter::digest::{sha256_hex, sha256_text};
use crate::adapter::github_categories::{
    cache_scope_compatible, scope_compatible, selected_categories, selection_of, CategorySelection,
    GithubMetaCategorySidecar,
};
use crate::adapter::http_cache::{
    body_limit, env_value, labelled, max_http_body_bytes, success_status,
    ENV_KIDOBO_MAX_HTTP_BODY_BYTES,
};
use crate::adapter::http_fetch::{
    fetch_rule, fetch_with_conditional_cache, is_request, ConditionalFetchResult, HttpClient,
    HttpClientError, HttpRequest, HttpResponse,
};
use crate::adapter::json_tree::{extraction, json_parse, parse_and_extract_networks};
use crate::ordering::stably_sorted;
use crate::policy::config::{GithubMetaCategoryMode, DEFAULT_GITHUB_META_URL};
use crate::policy::network_types::CanonicalCidr;
use crate::text::{same_text, trim, trimmed};
use crate::workflow::blocklist::same_cidrs;
use crate::workflow::paths::{join_path, path_join};
use vstd::prelude::*;

verus! {

/// Legacy file of the response body.
pub const GITHUB_META_RAW_CACHE_FILE: &'static str = "github-meta.raw.json";

/// Legacy file of the metadata.
pub const GITHUB_META_META_CACHE_FILE: &'static str = "github-meta.meta.json";

/// Legacy file of the category record.
pub const GITHUB_META_CATEGORY_CACHE_FILE: &'static str = "github-meta.categories.json";

/// Store of the generations below the remote cache.
pub const GITHUB_META_V2_STORE: &'static str = "v2/github-meta";

/// Member of a generation: the response body.
pub const GENERATION_RAW_FILE: &'static str = "raw.json";

/// Member of a generation: the metadata.
pub const GENERATION_META_FILE: &'static str = "meta.json";

/// Member of a generation: the category record.
pub const GENERATION_CATEGORY_FILE: &'static str = "categories.json";

/// Largest response body that is read.
pub const GITHUB_META_CACHE_READ_LIMIT: usize = 8_388_608;

/// Largest metadata file that is read.
pub const GITHUB_META_META_READ_LIMIT: usize = 524_288;

/// Largest category record that is read.
pub const GITHUB_META_CATEGORY_READ_LIMIT: usize = 262_144;

/// HTTP validators and checksum bound to a GitHub metadata cache body.
#[derive(Debug, Clone, PartialEq, Eq)]
pub struct GithubMetaCacheMetadata {
    /// Configured endpoint URL whose response was cached.
    pub url: String,
    /// Optional HTTP entity tag.
    pub etag: Option<String>,
    /// Optional HTTP last-modified validator.
    pub last_modified: Option<String>,
    /// Lowercase SHA-256 checksum of the raw response bytes.
    pub sha256_raw: String,
}

/// Origin of a GitHub metadata load result.
#[derive(Debug, Clone, Copy, PartialEq, Eq, Structural)]
pub enum GithubMetaSource {
    /// Newly validated network response.
    Network,
    /// Existing cache accepted after HTTP 304.
    CacheNotModified,
    /// Existing cache used after a failed or invalid refresh.
    FallbackCache,
    /// No usable network or cache data was available.
    Empty,
}

/// Selected GitHub networks and cache provenance.
#[derive(Debug, Clone, PartialEq, Eq)]
pub struct GithubMetaLoadResult {
    /// Canonical networks from categories compatible with the requested scope.
    pub networks: Vec<CanonicalCidr>,
    /// Data provenance.
    pub source: GithubMetaSource,
    /// Validated HTTP metadata when available.
    pub metadata: Option<GithubMetaCacheMetadata>,
}

/// Failure to persist a fully validated GitHub metadata generation.
#[derive(Debug, Clone, PartialEq, Eq)]
pub enum GithubMetaLoadError {
    /// A generation member or manifest could not be atomically written.
    WriteCacheFile {
        /// Cache generation store path.
        path: String,
        /// Serialization or filesystem diagnostic.
        reason: String,
    },
}

impl GithubMetaLoadError {
    /// Diagnostic text.
    pub fn message(&self) -> (text: String)
        ensures
            text@ == match *self {
                GithubMetaLoadError::WriteCacheFile { path, reason } => labelled(
                    "failed to write github meta cache file "@,
                    path@,
                    reason@,
                ),
            },
    {
        match self {
            GithubMetaLoadError::WriteCacheFile { path, reason } => {
                let mut text: String = "failed to write github meta cache file ".to_owned();
                text.append(path.as_str());
                text.append(": ");
                text.append(reason.as_str());
                text
            },
        }
    }
}

/// Paths of the cache.
#[derive(Debug, Clone, PartialEq, Eq)]
pub struct GithubCachePaths {
    /// Legacy response body.
    pub raw: String,
    /// Legacy metadata.
    pub metadata: String,
    /// Legacy category record.
    pub category_sidecar: String,
    /// Store of the generations.
    pub generation_store: String,
}

impl GithubCachePaths {
    /// Derives the paths below the remote cache directory.
    pub fn from_cache_dir(cache_dir: &str) -> (paths: GithubCachePaths)
        ensures
            paths.raw@ == path_join(cache_dir@, GITHUB_META_RAW_CACHE_FILE@),
            paths.metadata@ == path_join(cache_dir@, GITHUB_META_META_CACHE_FILE@),
            paths.category_sidecar@ == path_join(cache_dir@, GITHUB_META_CATEGORY_CACHE_FILE@),
            paths.generation_store@ == path_join(cache_dir@, GITHUB_META_V2_STORE@),
    {
        GithubCachePaths {
            raw: join_path(cache_dir, GITHUB_META_RAW_CACHE_FILE),
            metadata: join_path(cache_dir, GITHUB_META_META_CACHE_FILE),
            category_sidecar: join_path(cache_dir, GITHUB_META_CATEGORY_CACHE_FILE),
            generation_store: join_path(cache_dir, GITHUB_META_V2_STORE),
        }
    }
}

// Cached data -----------------------------------------------------------------------------------

/// What was read of the cached files, where they could be read and are well-formed.
#[derive(Debug, Clone, PartialEq, Eq)]
pub struct GithubReading {
    /// The response body.
    pub raw: Option<Vec<u8>>,
    /// The metadata.
    pub metadata: Option<GithubMetaCacheMetadata>,
    /// The category record.
    pub sidecar: Option<GithubMetaCategorySidecar>,
}

/// What the cache holds for an endpoint and a selection.
#[derive(Debug, Clone, PartialEq, Eq)]
pub struct GithubMetaCache {
    /// The response body, where it agrees with the metadata.
    pub raw: Option<Vec<u8>>,
    /// Networks, where the body can be used for the selection.
    pub networks: Option<Vec<CanonicalCidr>>,
    /// The metadata.
    pub meta: Option<GithubMetaCacheMetadata>,
    /// The category record.
    pub sidecar: Option<GithubMetaCategorySidecar>,
    /// The generation that the data is from.
    pub generation_id: Option<String>,
}

/// The cache is of the configured endpoint: its metadata says so, or it is a legacy cache without
/// metadata and the endpoint is the default one.
pub open spec fn endpoint_fits(
    metadata: Option<GithubMetaCacheMetadata>,
    url: Seq<char>,
    require_metadata: bool,
) -> bool {
    match metadata {
        Some(meta) => trim(meta.url@) == trim(url),
        None => !require_metadata && url == DEFAULT_GITHUB_META_URL@,
    }
}

/// Decides whether the cache is of the configured endpoint.
pub(crate) fn fits_endpoint(
    metadata: &Option<GithubMetaCacheMetadata>,
    github_meta_url: &str,
    require_metadata: bool,
) -> (fits: bool)
    ensures
        fits == endpoint_fits(*metadata, github_meta_url@, require_metadata),
{
    match metadata {
        Some(meta) => {
            let cached: String = trimmed(meta.url.as_str());
            let wanted: String = trimmed(github_meta_url);
            same_text(cached.as_str(), wanted.as_str())
        },
        None => !require_metadata && same_text(github_meta_url, DEFAULT_GITHUB_META_URL),
    }
}

/// What parsing a body for a selection gives.
pub open spec fn body_networks(
    raw: Seq<u8>,
    selection: CategorySelection,
    networks: Option<Vec<CanonicalCidr>>,
) -> bool {
    match json_parse(raw) {
        Some(model) => extraction(model, selected_categories(selection), networks),
        None => networks is None,
    }
}

pub(crate) fn extract_body(raw: &[u8], selection: &CategorySelection) -> (networks: Option<Vec<CanonicalCidr>>)
    ensures
        body_networks(raw@, *selection, networks),
{
    match selection {
        CategorySelection::All => parse_and_extract_networks(raw, None),
        CategorySelection::Selected(categories) => parse_and_extract_networks(
            raw,
            Some(categories),
        ),
    }
}

/// What cached files hold for an endpoint and a selection.
pub open spec fn files_rule(
    reading: GithubReading,
    selection: CategorySelection,
    url: Seq<char>,
    require_metadata: bool,
    cache: GithubMetaCache,
) -> bool {
    &&& cache.generation_id is None
    &&& if endpoint_fits(reading.metadata, url, require_metadata) {
        &&& cache.meta == reading.metadata
        &&& cache.sidecar == reading.sidecar
        &&& cache.raw == (match reading.raw {
            Some(raw) if has_checksum(
                raw@,
                match reading.metadata {
                    Some(meta) => Some(meta.sha256_raw@),
                    None => None,
                },
            ) => Some(raw),
            _ => None,
        })
        &&& match cache.raw {
            Some(raw) if scope_compatible(selection, reading.sidecar) => body_networks(
                raw@,
                selection,
                cache.networks,
            ),
            _ => cache.networks is None,
        }
    } else {
        &&& cache.meta is None
        &&& cache.sidecar is None
        &&& cache.raw is None
        &&& cache.networks is None
    }
}

/// Judges cached files for an endpoint and a selection.
pub fn read_github_meta_cache_files(
    reading: GithubReading,
    selection: &CategorySelection,
    github_meta_url: &str,
    require_metadata: bool,
) -> (cache: GithubMetaCache)
    ensures
        files_rule(reading, *selection, github_meta_url@, require_metadata, cache),
{
    if !fits_endpoint(&reading.metadata, github_meta_url, require_metadata) {
        return GithubMetaCache {
            raw: None,
            networks: None,
            meta: None,
            sidecar: None,
            generation_id: None,
        };
    }
    let checksum: Option<&str> = match &reading.metadata {
        Some(meta) => Some(meta.sha256_raw.as_str()),
        None => None,
    };
    let raw: Option<Vec<u8>> = read_validated_bytes_lossy(reading.raw, checksum);
    let networks: Option<Vec<CanonicalCidr>> = match &raw {
        Some(body) => {
            if cache_scope_compatible(selection, &reading.sidecar) {
                extract_body(body.as_slice(), selection)
            } else {
                None
            }
        },
        None => None,
    };
    GithubMetaCache {
        raw,
        networks,
        meta: reading.metadata,
        sidecar: reading.sidecar,
        generation_id: None,
    }
}

/// A generation of the store and what was read of it.
#[derive(Debug, Clone, PartialEq, Eq)]
pub struct StoredGithubGeneration {
    /// The generation.
    pub candidate: GenerationCandidate,
    /// Bytes of the metadata.
    pub metadata_bytes: Option<Vec<u8>>,
    /// Bytes of the category record.
    pub category_bytes: Option<Vec<u8>>,
    /// What was read of its files.
    pub reading: GithubReading,
}

/// Members of a generation and how much of each is read.
pub fn github_generation_limits() -> (limits: Vec<GenerationFileLimit>)
    ensures
        limits@ == seq![
            GenerationFileLimit {
                name: GENERATION_RAW_FILE,
                read_limit: GITHUB_META_CACHE_READ_LIMIT,
            },
            GenerationFileLimit {
                name: GENERATION_META_FILE,
                read_limit: GITHUB_META_META_READ_LIMIT,
            },
            GenerationFileLimit {
                name: GENERATION_CATEGORY_FILE,
                read_limit: GITHUB_META_CATEGORY_READ_LIMIT,
            },
        ],
{
    let mut limits: Vec<GenerationFileLimit> = Vec::new();
    limits.push(
        GenerationFileLimit {
            name: GENERATION_RAW_FILE,
            read_limit: GITHUB_META_CACHE_READ_LIMIT,
        },
    );
    limits.push(
        GenerationFileLimit {
            name: GENERATION_META_FILE,
            read_limit: GITHUB_META_META_READ_LIMIT,
        },
    );
    limits.push(
        GenerationFileLimit {
            name: GENERATION_CATEGORY_FILE,
            read_limit: GITHUB_META_CATEGORY_READ_LIMIT,
        },
    );
    limits
}

/// The files of a generation, by name and contents.
pub open spec fn is_github_member_list<'a>(
    files: Seq<GenerationFile<'a>>,
    raw: Seq<u8>,
    categories: Seq<u8>,
    metadata: Seq<u8>,
) -> bool {
    &&& files.len() == 3
    &&& files[0]@ == (GENERATION_RAW_FILE@, raw)
    &&& files[1]@ == (GENERATION_CATEGORY_FILE@, categories)
    &&& files[2]@ == (GENERATION_META_FILE@, metadata)
}

/// Lists the files of a generation.
pub fn github_generation_files<'a>(
    raw: &'a [u8],
    categories: &'a [u8],
    metadata: &'a [u8],
) -> (files: Vec<GenerationFile<'a>>)
    ensures
        is_github_member_list(files@, raw@, categories@, metadata@),
{
    let mut files: Vec<GenerationFile<'a>> = Vec::new();
    files.push(GenerationFile { name: GENERATION_RAW_FILE, contents: raw });
    files.push(GenerationFile { name: GENERATION_CATEGORY_FILE, contents: categories });
    files.push(GenerationFile { name: GENERATION_META_FILE, contents: metadata });
    files
}

/// The three files were read and are those that the candidate is identified by.
pub open spec fn github_contents_match(stored: StoredGithubGeneration, matching: bool) -> bool {
    match (stored.reading.raw, stored.category_bytes, stored.metadata_bytes) {
        (Some(raw), Some(categories), Some(metadata)) => exists|
            files: Seq<GenerationFile<'static>>,
            ordered: Seq<GenerationFile<'static>>,
        | #[trigger]
            stably_sorted(files, ordered) && is_github_member_list(
                files,
                raw@,
                categories@,
                metadata@,
            ) && matching == (generation_text(ordered) == stored.candidate.id@),
        _ => !matching,
    }
}

pub(crate) fn generation_matches(stored: &StoredGithubGeneration) -> (matching: bool)
    ensures
        github_contents_match(*stored, matching),
{
    match (&stored.reading.raw, &stored.category_bytes, &stored.metadata_bytes) {
        (Some(raw), Some(categories), Some(metadata)) => {
            let files: Vec<GenerationFile<'_>> = github_generation_files(
                raw.as_slice(),
                categories.as_slice(),
                metadata.as_slice(),
            );
            generation_contents_match(&stored.candidate, files)
        },
        _ => false,
    }
}

/// Every part of the cache is there.
pub open spec fn complete_cache(cache: GithubMetaCache) -> bool {
    cache.raw is Some && cache.networks is Some && cache.meta is Some && cache.sidecar is Some
}

/// The cache of an endpoint: the first generation whose files match it, fit the endpoint and are
/// complete for the selection, or the legacy files.
pub open spec fn github_cache_rule(
    generations: Seq<StoredGithubGeneration>,
    legacy: GithubReading,
    selection: CategorySelection,
    url: Seq<char>,
    cache: GithubMetaCache,
) -> bool
    decreases generations.len(),
{
    if generations.len() == 0 {
        files_rule(legacy, selection, url, false, cache)
    } else {
        let first = generations[0];
        ||| github_contents_match(first, true) && complete_cache(cache) && option_text(
            cache.generation_id,
        ) == Some(first.candidate.id@) && files_rule(
            first.reading,
            selection,
            url,
            true,
            GithubMetaCache { generation_id: None, ..cache },
        )
        ||| (github_contents_match(first, false) || incomplete(first, selection, url))
            && github_cache_rule(generations.drop_first(), legacy, selection, url, cache)
    }
}

/// The files of the generation lack something for the endpoint and the selection.
pub open spec fn incomplete(
    stored: StoredGithubGeneration,
    selection: CategorySelection,
    url: Seq<char>,
) -> bool {
    exists|seen: GithubMetaCache| #[trigger]
        files_rule(stored.reading, selection, url, true, seen) && !complete_cache(seen)
}

/// Reads the cache of an endpoint for a selection.
pub fn read_github_meta_cache(
    generations: Vec<StoredGithubGeneration>,
    legacy: GithubReading,
    selection: &CategorySelection,
    github_meta_url: &str,
) -> (cache: GithubMetaCache)
    ensures
        github_cache_rule(generations@, legacy, *selection, github_meta_url@, cache),
    decreases generations@.len(),
{
    let mut rest: Vec<StoredGithubGeneration> = generations;
    if rest.len() == 0 {
        return read_github_meta_cache_files(legacy, selection, github_meta_url, false);
    }
    let ghost all = rest@;
    let first: StoredGithubGeneration = rest.remove(0);
    assert(rest@ =~= all.drop_first());
    let ghost given = first;
    if generation_matches(&first) {
        let mut cache: GithubMetaCache = read_github_meta_cache_files(
            first.reading,
            selection,
            github_meta_url,
            true,
        );
        let ghost seen = cache;
        if cache.raw.is_some() && cache.networks.is_some() && cache.meta.is_some()
            && cache.sidecar.is_some() {
            cache.generation_id = Some(first.candidate.id);
            assert(seen == (GithubMetaCache { generation_id: None, ..cache }));
            return cache;
        }
        assert(files_rule(given.reading, *selection, github_meta_url@, true, seen));
        assert(incomplete(given, *selection, github_meta_url@));
    }
    read_github_meta_cache(rest, legacy, selection, github_meta_url)
}

/// Loads a validated compatible GitHub metadata cache without network access.
///
/// The current v2 generation is preferred, followed by previous and legacy data.
pub fn load_cached_github_meta_safelist(
    generations: Vec<StoredGithubGeneration>,
    legacy: GithubReading,
    github_meta_url: &str,
    category_mode: &GithubMetaCategoryMode,
) -> (networks: Option<Vec<CanonicalCidr>>)
    ensures
        exists|selection: CategorySelection, cache: GithubMetaCache| #[trigger]
            github_cache_rule(generations@, legacy, selection, github_meta_url@, cache)
                && selection_of(category_mode@, selection) && networks == cache.networks,
{
    let selection: CategorySelection = CategorySelection::from_mode(category_mode);
    let cache: GithubMetaCache = read_github_meta_cache(
        generations,
        legacy,
        &selection,
        github_meta_url,
    );
    assert(selection_of(category_mode@, selection));
    cache.networks
}

// Refresh ---------------------------------------------------------------------------------------

/// What cached data gives when it is not replaced.
pub open spec fn github_fallback(
    cache: GithubMetaCache,
    selection: CategorySelection,
    source: GithubMetaSource,
    result: GithubMetaLoadResult,
) -> bool {
    &&& result.metadata == cache.meta
    &&& match (cache.raw, cache.networks) {
        (Some(_), Some(networks)) if scope_compatible(selection, cache.sidecar) =>
            result.networks == networks && result.source == source,
        (Some(raw), None) if scope_compatible(selection, cache.sidecar) => {
            ||| result.source == source && body_networks(raw@, selection, Some(result.networks))
            ||| result.networks@.len() == 0 && result.source == GithubMetaSource::Empty
                && body_networks(raw@, selection, None)
        },
        _ => result.networks@.len() == 0 && result.source == GithubMetaSource::Empty,
    }
}

/// Falls back to cached data.
pub fn github_cache_fallback(
    cache: GithubMetaCache,
    selection: &CategorySelection,
    source: GithubMetaSource,
) -> (result: GithubMetaLoadResult)
    ensures
        github_fallback(cache, *selection, source, result),
{
    let raw: Vec<u8> = match cache.raw {
        Some(raw) => raw,
        None => {
            return GithubMetaLoadResult {
                networks: Vec::new(),
                source: GithubMetaSource::Empty,
                metadata: cache.meta,
            };
        },
    };
    if !cache_scope_compatible(selection, &cache.sidecar) {
        return GithubMetaLoadResult {
            networks: Vec::new(),
            source: GithubMetaSource::Empty,
            metadata: cache.meta,
        };
    }
    match cache.networks {
        Some(networks) => GithubMetaLoadResult { networks, source, metadata: cache.meta },
        None => match extract_body(raw.as_slice(), selection) {
            Some(networks) => GithubMetaLoadResult { networks, source, metadata: cache.meta },
            None => GithubMetaLoadResult {
                networks: Vec::new(),
                source: GithubMetaSource::Empty,
                metadata: cache.meta,
            },
        },
    }
}

/// A response that replaces the cached data.
#[derive(Debug, Clone, PartialEq, Eq)]
pub struct GithubUpdate {
    /// Networks of the selected categories.
    pub networks: Vec<CanonicalCidr>,
    /// The response body.
    pub raw: Vec<u8>,
    /// Metadata of the response.
    pub metadata: GithubMetaCacheMetadata,
    /// Record of the selection.
    pub sidecar: GithubMetaCategorySidecar,
    /// The generation that the update replaces, once it is known.
    pub previous_generation: Option<String>,
}

/// The update that a response makes.
pub open spec fn github_update_of(
    url: Seq<char>,
    response: HttpResponse,
    selection: CategorySelection,
    previous: Option<String>,
    update: GithubUpdate,
) -> bool {
    &&& body_networks(response.body@, selection, Some(update.networks))
    &&& update.raw == response.body
    &&& update.metadata.url@ == url
    &&& update.metadata.etag == response.etag
    &&& update.metadata.last_modified == response.last_modified
    &&& update.metadata.sha256_raw@ == sha256_text(response.body@)
    &&& match selected_categories(selection) {
        None => update.sidecar.mode@ == "all"@ && update.sidecar.categories@.len() == 0,
        Some(categories) => update.sidecar.mode@ == "selected"@ && crate::text::views(
            update.sidecar.categories@,
        ) == categories,
    }
    &&& update.previous_generation == previous
}

/// Why a response is not taken.
#[derive(Debug, Clone, Copy, PartialEq, Eq, Structural)]
pub enum GithubRejection {
    /// The status is no success.
    Status(u16),
    /// The body is larger than allowed.
    TooLarge,
    /// The body is no document, or gives no networks for the selection.
    Invalid,
}

/// What a response comes to: the update that it makes, or why it is not taken.
pub open spec fn github_verdict_rule(
    url: Seq<char>,
    response: HttpResponse,
    max_bytes: usize,
    selection: CategorySelection,
    verdict: Result<GithubUpdate, GithubRejection>,
) -> bool {
    if !success_status(response.status) {
        verdict == Err::<GithubUpdate, GithubRejection>(GithubRejection::Status(response.status))
    } else if response.body@.len() > max_bytes {
        verdict == Err::<GithubUpdate, GithubRejection>(GithubRejection::TooLarge)
    } else {
        match verdict {
            Ok(update) => github_update_of(url, response, selection, None, update),
            Err(why) => why == GithubRejection::Invalid && body_networks(
                response.body@,
                selection,
                None,
            ),
        }
    }
}

/// Judges a response of the endpoint.
pub fn judge_github_response(
    url: &str,
    response: HttpResponse,
    max_bytes: usize,
    selection: &CategorySelection,
) -> (verdict: Result<GithubUpdate, GithubRejection>)
    ensures
        github_verdict_rule(url@, response, max_bytes, *selection, verdict),
{
    if response.status < 200 || response.status >= 300 {
        return Err(GithubRejection::Status(response.status));
    }
    if response.body.len() > max_bytes {
        return Err(GithubRejection::TooLarge);
    }
    match extract_body(response.body.as_slice(), selection) {
        None => Err(GithubRejection::Invalid),
        Some(networks) => Ok(
            GithubUpdate {
                networks,
                metadata: GithubMetaCacheMetadata {
                    url: url.to_owned(),
                    etag: response.etag,
                    last_modified: response.last_modified,
                    sha256_raw: sha256_hex(response.body.as_slice()),
                },
                raw: response.body,
                sidecar: selection.to_sidecar(),
                previous_generation: None,
            },
        ),
    }
}

/// Outcome of a refresh.
#[derive(Debug, Clone, PartialEq, Eq)]
pub enum GithubRefresh {
    /// Nothing is written.
    Settled(GithubMetaLoadResult),
    /// The response is to be persisted.
    Persist(GithubUpdate),
}

/// What a fetch does to the cached data.
pub open spec fn github_refresh_rule(
    url: Seq<char>,
    fetched: ConditionalFetchResult,
    cache: GithubMetaCache,
    max_bytes: usize,
    selection: CategorySelection,
    refresh: GithubRefresh,
) -> bool {
    match fetched {
        ConditionalFetchResult::CacheNotModified => refresh matches GithubRefresh::Settled(result)
            && match cache.networks {
            Some(networks) => result == (GithubMetaLoadResult {
                networks,
                source: GithubMetaSource::CacheNotModified,
                metadata: cache.meta,
            }),
            None => github_fallback(cache, selection, GithubMetaSource::FallbackCache, result),
        },
        ConditionalFetchResult::FallbackCache => refresh matches GithubRefresh::Settled(result)
            && github_fallback(cache, selection, GithubMetaSource::FallbackCache, result),
        ConditionalFetchResult::Network(response) => match refresh {
            GithubRefresh::Settled(result) => {
                &&& exists|why: GithubRejection| #[trigger]
                    github_verdict_rule(url, response, max_bytes, selection, Err(why))
                &&& github_fallback(cache, selection, GithubMetaSource::FallbackCache, result)
            },
            GithubRefresh::Persist(update) => {
                &&& success_status(response.status)
                &&& response.body@.len() <= max_bytes
                &&& github_update_of(url, response, selection, cache.generation_id, update)
            },
        },
    }
}

/// Decides what a fetch does to the cached data.
pub fn settle_github_refresh(
    url: &str,
    fetched: ConditionalFetchResult,
    cache: GithubMetaCache,
    max_bytes: usize,
    selection: &CategorySelection,
) -> (refresh: GithubRefresh)
    ensures
        github_refresh_rule(url@, fetched, cache, max_bytes, *selection, refresh),
{
    match fetched {
        ConditionalFetchResult::CacheNotModified => {
            let GithubMetaCache { raw, networks, meta, sidecar, generation_id } = cache;
            match networks {
                Some(list) => GithubRefresh::Settled(
                    GithubMetaLoadResult {
                        networks: list,
                        source: GithubMetaSource::CacheNotModified,
                        metadata: meta,
                    },
                ),
                None => GithubRefresh::Settled(
                    github_cache_fallback(
                        GithubMetaCache { raw, networks: None, meta, sidecar, generation_id },
                        selection,
                        GithubMetaSource::FallbackCache,
                    ),
                ),
            }
        },
        ConditionalFetchResult::FallbackCache => GithubRefresh::Settled(
            github_cache_fallback(cache, selection, GithubMetaSource::FallbackCache),
        ),
        ConditionalFetchResult::Network(response) => {
            let ghost given = response;
            match judge_github_response(url, response, max_bytes, selection) {
                Ok(update) => GithubRefresh::Persist(
                    GithubUpdate {
                        networks: update.networks,
                        raw: update.raw,
                        metadata: update.metadata,
                        sidecar: update.sidecar,
                        previous_generation: cache.generation_id,
                    },
                ),
                Err(why) => {
                    assert(github_verdict_rule(url@, given, max_bytes, *selection, Err(why)));
                    GithubRefresh::Settled(
                        github_cache_fallback(cache, selection, GithubMetaSource::FallbackCache),
                    )
                },
            }
        },
    }
}

/// The entity tag that a cache remembers.
pub open spec fn github_etag(cache: GithubMetaCache) -> Option<Seq<char>> {
    match cache.meta {
        Some(meta) => option_text(meta.etag),
        None => None,
    }
}

/// The modification date that a cache remembers.
pub open spec fn github_last_modified(cache: GithubMetaCache) -> Option<Seq<char>> {
    match cache.meta {
        Some(meta) => option_text(meta.last_modified),
        None => None,
    }
}

impl GithubMetaCache {
    /// Validators for a conditional request.
    pub fn http_validators(&self) -> (validators: (Option<String>, Option<String>))
        ensures
            option_text(validators.0) == github_etag(*self),
            option_text(validators.1) == github_last_modified(*self),
    {
        match &self.meta {
            Some(meta) => {
                let etag: Option<String> = match &meta.etag {
                    Some(tag) => Some(tag.clone()),
                    None => None,
                };
                let last_modified: Option<String> = match &meta.last_modified {
                    Some(date) => Some(date.clone()),
                    None => None,
                };
                (etag, last_modified)
            },
            None => (None, None),
        }
    }
}

/// A fetch came to a refresh.
pub open spec fn github_prepared<C: HttpClient>(
    client: &C,
    url: Seq<char>,
    cache: GithubMetaCache,
    max_bytes: usize,
    selection: CategorySelection,
    reply: Result<HttpResponse, HttpClientError>,
    refresh: GithubRefresh,
) -> bool {
    exists|fetched: ConditionalFetchResult| #[trigger]
        fetch_rule(client, url, max_bytes, cache.networks is Some, reply, fetched)
            && github_refresh_rule(url, fetched, cache, max_bytes, selection, refresh)
}

/// Loads the selected GitHub metadata networks with conditional cache fallback, given the cached
/// data. Network and invalid-response failures use a validated fallback.
pub fn load_github_meta_safelist<C: HttpClient>(
    client: &C,
    cache: GithubMetaCache,
    github_meta_url: &str,
    selection: &CategorySelection,
    env: &Vec<(String, String)>,
) -> (refresh: GithubRefresh)
    ensures
        ({
            let max_bytes = body_limit(env_value(env@, ENV_KIDOBO_MAX_HTTP_BODY_BYTES@)) as usize;
            exists|request: HttpRequest, reply: Result<HttpResponse, HttpClientError>| #[trigger]
                call_ensures(C::fetch, (client, request), reply) && is_request(
                    request,
                    github_meta_url@,
                    max_bytes,
                    github_etag(cache),
                    github_last_modified(cache),
                ) && github_prepared(
                    client,
                    github_meta_url@,
                    cache,
                    max_bytes,
                    *selection,
                    reply,
                    refresh,
                )
        }),
{
    let max_bytes: usize = max_http_body_bytes(env);
    let (etag, last_modified): (Option<String>, Option<String>) = cache.http_validators();
    let has_cached: bool = cache.networks.is_some();
    let fetched: ConditionalFetchResult = fetch_with_conditional_cache(
        client,
        github_meta_url,
        max_bytes,
        etag,
        last_modified,
        has_cached,
    );
    settle_github_refresh(github_meta_url, fetched, cache, max_bytes, selection)
}

impl GithubUpdate {
    /// Finishes an update after it was persisted, or failed to be.
    pub fn finish(self, generation_store: &str, persisted: Result<(), String>) -> (result: Result<
        GithubMetaLoadResult,
        GithubMetaLoadError,
    >)
        ensures
            match persisted {
                Ok(_) => result == Ok::<GithubMetaLoadResult, GithubMetaLoadError>(
                    GithubMetaLoadResult {
                        networks: self.networks,
                        source: GithubMetaSource::Network,
                        metadata: Some(self.metadata),
                    },
                ),
                Err(why) => result matches Err(
                    GithubMetaLoadError::WriteCacheFile { path, reason },
                ) && path@ == path_join(generation_store@, MANIFEST_FILE_NAME@) && reason == why,
            },
    {
        match persisted {
            Ok(_) => Ok(
                GithubMetaLoadResult {
                    networks: self.networks,
                    source: GithubMetaSource::Network,
                    metadata: Some(self.metadata),
                },
            ),
            Err(reason) => Err(
                GithubMetaLoadError::WriteCacheFile {
                    path: join_path(generation_store, MANIFEST_FILE_NAME),
                    reason,
                },
            ),
        }
    }
}

// Staged updates --------------------------------------------------------------------------------

/// Networks of the endpoint whose cache selection waits for promotion.
#[derive(Debug, Clone, PartialEq, Eq)]
pub struct PreparedGithubMeta {
    /// Networks to use.
    pub primary: Vec<CanonicalCidr>,
    /// Networks that were selected before, where they differ.
    pub fallback: Option<Vec<CanonicalCidr>>,
    /// The staged generation.
    pub staged: Option<StagedGeneration>,
    /// Why the response could not be staged, where cached networks are used instead.
    pub staging_failure: Option<GithubMetaLoadError>,
}

/// What staging an update comes to: the response beside the networks that it replaces, or the
/// cached networks where it could not be staged, or the failure where there are none.
pub open spec fn github_staging_rule(
    networks: Seq<CanonicalCidr>,
    cached: Option<Vec<CanonicalCidr>>,
    staged: Result<StagedGeneration, GithubMetaLoadError>,
    prepared: Result<PreparedGithubMeta, GithubMetaLoadError>,
) -> bool {
    match staged {
        Ok(generation) => prepared matches Ok(found) && {
            &&& found.primary@ == networks
            &&& found.staged == Some(generation)
            &&& found.staging_failure is None
            &&& match cached {
                Some(before) if before@ != networks => found.fallback == Some(before),
                _ => found.fallback is None,
            }
        },
        Err(error) => match cached {
            Some(before) => prepared == Ok::<PreparedGithubMeta, GithubMetaLoadError>(
                PreparedGithubMeta {
                    primary: before,
                    fallback: None,
                    staged: None,
                    staging_failure: Some(error),
                },
            ),
            None => prepared == Err::<PreparedGithubMeta, GithubMetaLoadError>(error),
        },
    }
}

impl GithubUpdate {
    /// Finishes an update after it was staged, or failed to be, given the networks that were
    /// cached before.
    pub fn prepare(
        self,
        cached: Option<Vec<CanonicalCidr>>,
        staged: Result<StagedGeneration, GithubMetaLoadError>,
    ) -> (prepared: Result<PreparedGithubMeta, GithubMetaLoadError>)
        ensures
            github_staging_rule(self.networks@, cached, staged, prepared),
    {
        match staged {
            Ok(generation) => {
                let fallback: Option<Vec<CanonicalCidr>> = match cached {
                    Some(before) => {
                        if same_cidrs(&before, &self.networks) {
                            None
                        } else {
                            Some(before)
                        }
                    },
                    None => None,
                };
                Ok(
                    PreparedGithubMeta {
                        primary: self.networks,
                        fallback,
                        staged: Some(generation),
                        staging_failure: None,
                    },
                )
            },
            Err(error) => match cached {
                Some(before) => Ok(
                    PreparedGithubMeta {
                        primary: before,
                        fallback: None,
                        staged: None,
                        staging_failure: Some(error),
                    },
                ),
                None => Err(error),
            },
        }
    }
}

} // verus!
