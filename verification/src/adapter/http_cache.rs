//! Remote-feed cache: where a feed is cached, which cached data is good, and what a response does
//! to it.

use crate::adapter::cache_generation::{
    generation_contents_match, generation_text, option_text, GenerationCandidate, GenerationFile,
    GenerationFileLimit,
};
use crate::adapter::cache_staging::StagedGeneration;
use crate::adapter::digest::{
    digest_prefix, is_hex_of_length, lower_hex, sha256_hex, sha256_text, take_chars,
};
use crate::adapter::http_fetch::{
    fetch_rule, fetch_with_conditional_cache, is_request, ConditionalFetchResult, HttpClient,
    HttpClientError, HttpRequest, HttpResponse,
};
use crate::adapter::remote_parse::{
    broken_limit, data_count, feed_limit, feed_networks, format_normalized_cidrs, lists_networks,
    normalized_text, parse_cached_iplist_bounded, parse_remote_cidrs_bounded, reads_text,
    utf8_lossy, RemoteFeedLimits, RemoteParseBudget,
};
use crate::numerals::{read_signed_decimal, signed_decimal};
use crate::ordering::stably_sorted;
use crate::policy::cidr_text::{models, CidrModel};
use crate::policy::network_types::CanonicalCidr;
use crate::text::{lines, same_text, to_chars, trim, trim_chars, trimmed};
use crate::workflow::paths::{join_path, path_join};
use vstd::prelude::*;
use vstd::utf8::encode_utf8;

verus! {

/// Default maximum accepted HTTP response body size.
pub const DEFAULT_MAX_HTTP_BODY_BYTES: usize = 8_388_608;

/// Hard ceiling for the HTTP response body environment override.
pub const MAX_HTTP_BODY_BYTES: usize = 33_554_432;

/// Environment variable that overrides the maximum HTTP body size when valid Unicode and positive.
pub const ENV_KIDOBO_MAX_HTTP_BODY_BYTES: &'static str = "KIDOBO_MAX_HTTP_BODY_BYTES";

/// Default timeout for one HTTP request.
pub const DEFAULT_HTTP_REQUEST_TIMEOUT_SECS: u64 = 30;

/// Largest normalized list that is read.
pub const MAX_IPLIST_READ_BYTES: usize = 16_777_216;

/// Largest metadata file that is read.
pub const MAX_METADATA_READ_BYTES: usize = 524_288;

/// Directory of the feed stores below the remote cache.
pub const V2_REMOTE_CACHE_DIRECTORY: &'static str = "v2/remote";

/// Member of a generation: the response body.
pub const GENERATION_RAW_FILE: &'static str = "raw";

/// Member of a generation: the normalized list.
pub const GENERATION_IPLIST_FILE: &'static str = "iplist";

/// Member of a generation: the metadata.
pub const GENERATION_METADATA_FILE: &'static str = "meta.json";

/// Legacy flat-file cache paths retained for read compatibility.
#[derive(Debug, Clone, PartialEq, Eq)]
pub struct CachePaths {
    /// Normalized CIDR list path.
    pub iplist_path: String,
    /// Integrity and HTTP metadata path.
    pub meta_path: String,
    /// Raw response body path.
    pub raw_path: String,
}

/// URL, HTTP validators, and checksums bound to a remote-feed cache.
#[derive(Debug, Clone, PartialEq, Eq)]
pub struct RemoteCacheMetadata {
    /// Configured URL whose response was cached.
    pub url: String,
    /// Optional HTTP entity tag.
    pub etag: Option<String>,
    /// Optional HTTP last-modified validator.
    pub last_modified: Option<String>,
    /// Lowercase SHA-256 checksum of raw response bytes.
    pub sha256_raw: String,
    /// Lowercase SHA-256 checksum of normalized CIDR text.
    pub sha256_iplist: String,
}

/// Origin of a remote-feed load result.
#[derive(Debug, Clone, Copy, PartialEq, Eq, Structural)]
pub enum CacheSource {
    /// Newly validated network response.
    Network,
    /// Existing cache accepted after HTTP 304.
    CacheNotModified,
    /// Existing cache used after a failed or invalid refresh.
    FallbackCache,
    /// No usable network or cache data was available.
    Empty,
}

/// Canonical remote-feed networks and cache provenance.
#[derive(Debug, Clone, PartialEq, Eq)]
pub struct CachedIplist {
    /// Sorted, unique canonical networks.
    pub networks: Vec<CanonicalCidr>,
    /// Data provenance.
    pub source: CacheSource,
    /// Validated URL, HTTP, and checksum metadata when available.
    pub metadata: Option<RemoteCacheMetadata>,
}

/// A loaded feed and the generation that promotion would select.
#[derive(Debug, Clone, PartialEq, Eq)]
pub struct PreparedCachedIplist {
    /// What the feed holds.
    pub loaded: CachedIplist,
    /// The generation that was staged for it.
    pub pending_promotion: Option<StagedGeneration>,
}

/// What the cache of a feed holds.
#[derive(Debug, Clone, PartialEq, Eq)]
pub struct LoadedRemoteCache {
    /// Networks, where the cached list is good.
    pub networks: Option<Vec<CanonicalCidr>>,
    /// Metadata, where it can be read.
    pub metadata: Option<RemoteCacheMetadata>,
    /// The generation that the data is from.
    pub generation_id: Option<String>,
}

/// Failure to read legacy cache data or commit a validated v2 generation.
#[derive(Debug, Clone, PartialEq, Eq)]
pub enum HttpCacheError {
    /// Normalized CIDR cache write failed.
    WriteIplist {
        /// Cache path.
        path: String,
        /// Filesystem diagnostic.
        reason: String,
    },
    /// Cache metadata or v2 manifest write failed.
    WriteMetadata {
        /// Cache path.
        path: String,
        /// Serialization or filesystem diagnostic.
        reason: String,
    },
    /// Raw response cache write failed.
    WriteRaw {
        /// Cache path.
        path: String,
        /// Filesystem diagnostic.
        reason: String,
    },
    /// Selected normalized CIDR cache could not be read safely.
    ReadIplist {
        /// Cache path.
        path: String,
        /// Bounded-read diagnostic.
        reason: String,
    },
}

/// A path and a reason behind a label.
pub open spec fn labelled(label: Seq<char>, path: Seq<char>, reason: Seq<char>) -> Seq<char> {
    label + path + ": "@ + reason
}

fn write_labelled(label: &str, path: &String, reason: &String) -> (text: String)
    ensures
        text@ == labelled(label@, path@, reason@),
{
    let mut text: String = label.to_owned();
    text.append(path.as_str());
    text.append(": ");
    text.append(reason.as_str());
    text
}

impl HttpCacheError {
    /// Diagnostic text.
    pub open spec fn text(self) -> Seq<char> {
        match self {
            HttpCacheError::WriteIplist { path, reason } => labelled(
                "failed to write iplist cache "@,
                path@,
                reason@,
            ),
            HttpCacheError::WriteMetadata { path, reason } => labelled(
                "failed to write metadata cache "@,
                path@,
                reason@,
            ),
            HttpCacheError::WriteRaw { path, reason } => labelled(
                "failed to write raw cache "@,
                path@,
                reason@,
            ),
            HttpCacheError::ReadIplist { path, reason } => labelled(
                "failed to read iplist cache "@,
                path@,
                reason@,
            ),
        }
    }

    /// Diagnostic text.
    pub fn message(&self) -> (text: String)
        ensures
            text@ == self.text(),
    {
        match self {
            HttpCacheError::WriteIplist { path, reason } => write_labelled(
                "failed to write iplist cache ",
                path,
                reason,
            ),
            HttpCacheError::WriteMetadata { path, reason } => write_labelled(
                "failed to write metadata cache ",
                path,
                reason,
            ),
            HttpCacheError::WriteRaw { path, reason } => write_labelled(
                "failed to write raw cache ",
                path,
                reason,
            ),
            HttpCacheError::ReadIplist { path, reason } => write_labelled(
                "failed to read iplist cache ",
                path,
                reason,
            ),
        }
    }
}

// Keys and paths --------------------------------------------------------------------------------

/// Returns the stable 16-hex-character cache key prefix for a configured URL.
pub fn url_hash_prefix(url: &str) -> (hash: String)
    ensures
        hash@ == digest_prefix(url@, 16),
        url_hash_text(hash@),
{
    let full: String = sha256_hex(url.as_bytes());
    proof {
        crate::adapter::digest::law_hex_text_digits(
            crate::adapter::digest::sha256_digest(encode_utf8(url@)),
        );
    }
    take_chars(full.as_str(), 16)
}

/// Shape of a cache key.
pub open spec fn url_hash_text(value: Seq<char>) -> bool {
    value.len() == 16 && lower_hex(value)
}

/// Decides whether a text has the shape of a cache key.
pub fn is_url_hash(value: &str) -> (shaped: bool)
    ensures
        shaped == url_hash_text(value@),
{
    let chars: Vec<char> = to_chars(value);
    is_hex_of_length(chars.as_slice(), 16)
}

fn suffixed(cache_dir: &str, hash: &String, suffix: &str) -> (path: String)
    ensures
        path@ == path_join(cache_dir@, hash@ + suffix@),
{
    let mut name: String = hash.clone();
    name.append(suffix);
    join_path(cache_dir, name.as_str())
}

/// Derives all legacy flat-file cache paths for a configured URL.
pub fn cache_paths_for_url(cache_dir: &str, url: &str) -> (paths: CachePaths)
    ensures
        paths.iplist_path@ == path_join(cache_dir@, digest_prefix(url@, 16) + ".iplist"@),
        paths.meta_path@ == path_join(cache_dir@, digest_prefix(url@, 16) + ".meta.json"@),
        paths.raw_path@ == path_join(cache_dir@, digest_prefix(url@, 16) + ".raw"@),
{
    let hash: String = url_hash_prefix(url);
    CachePaths {
        iplist_path: suffixed(cache_dir, &hash, ".iplist"),
        meta_path: suffixed(cache_dir, &hash, ".meta.json"),
        raw_path: suffixed(cache_dir, &hash, ".raw"),
    }
}

/// Directory of a feed's generations.
pub open spec fn generation_store(cache_dir: Seq<char>, url: Seq<char>) -> Seq<char> {
    path_join(path_join(cache_dir, V2_REMOTE_CACHE_DIRECTORY@), digest_prefix(url, 16))
}

/// Derives the directory of a feed's generations.
pub fn remote_generation_store(cache_dir: &str, url: &str) -> (store: String)
    ensures
        store@ == generation_store(cache_dir@, url@),
{
    let root: String = join_path(cache_dir, V2_REMOTE_CACHE_DIRECTORY);
    let hash: String = url_hash_prefix(url);
    join_path(root.as_str(), hash.as_str())
}

/// The first value that an environment gives a name.
pub open spec fn env_value(env: Seq<(String, String)>, name: Seq<char>) -> Option<Seq<char>>
    decreases env.len(),
{
    if env.len() == 0 {
        None
    } else if env[0].0@ == name {
        Some(env[0].1@)
    } else {
        env_value(env.drop_first(), name)
    }
}

/// The body bound that a setting asks for: a positive number up to the ceiling, or the default
/// where the setting is missing or is no positive number.
pub open spec fn body_limit(setting: Option<Seq<char>>) -> nat {
    match setting {
        Some(value) => match signed_decimal(trim(value), usize::MAX as nat) {
            Some(n) if n > 0 => if n < MAX_HTTP_BODY_BYTES {
                n
            } else {
                MAX_HTTP_BODY_BYTES as nat
            },
            _ => DEFAULT_MAX_HTTP_BODY_BYTES as nat,
        },
        None => DEFAULT_MAX_HTTP_BODY_BYTES as nat,
    }
}

fn body_limit_of(value: &String) -> (limit: usize)
    ensures
        limit == body_limit(Some(value@)),
{
    let chars: Vec<char> = to_chars(value.as_str());
    match read_signed_decimal(trim_chars(chars.as_slice()), usize::MAX as u128) {
        Some(n) => if n == 0 {
            DEFAULT_MAX_HTTP_BODY_BYTES
        } else if n < MAX_HTTP_BODY_BYTES as u128 {
            n as usize
        } else {
            MAX_HTTP_BODY_BYTES
        },
        None => DEFAULT_MAX_HTTP_BODY_BYTES,
    }
}

/// Resolves the positive Unicode body-size override or returns the documented default.
///
/// Missing, zero, and malformed settings are treated as unset; settings that are not Unicode are
/// not among `env`.
pub fn max_http_body_bytes(env: &Vec<(String, String)>) -> (limit: usize)
    ensures
        limit == body_limit(env_value(env@, ENV_KIDOBO_MAX_HTTP_BODY_BYTES@)),
{
    let mut i: usize = 0;
    assert(env@.skip(0) =~= env@);
    while i < env.len()
        invariant
            i <= env@.len(),
            env_value(env@, ENV_KIDOBO_MAX_HTTP_BODY_BYTES@) == env_value(
                env@.skip(i as int),
                ENV_KIDOBO_MAX_HTTP_BODY_BYTES@,
            ),
        decreases env@.len() - i,
    {
        let entry: &(String, String) = &env[i];
        if same_text(entry.0.as_str(), ENV_KIDOBO_MAX_HTTP_BODY_BYTES) {
            return body_limit_of(&entry.1);
        }
        assert(env@.skip(i as int).drop_first() =~= env@.skip(i + 1));
        i += 1;
    }
    DEFAULT_MAX_HTTP_BODY_BYTES
}

/// Parses and canonicalizes remote text; empty where it holds too much.
pub fn normalize_remote_text(raw: &[u8]) -> (text: String)
    ensures
        ({
            let all = lines(utf8_lossy(raw@));
            let limit = feed_limit(u32::MAX, 0) as usize;
            let limits = RemoteFeedLimits { data_lines: limit, unique_cidrs: limit };
            if broken_limit(all, limits) is Some {
                text@.len() == 0
            } else {
                exists|networks: Seq<CanonicalCidr>| #[trigger]
                    lists_networks(networks, feed_networks(all)) && text@ == normalized_text(
                        networks,
                    )
            }
        }),
        reads_text(raw@),
{
    match parse_remote_cidrs_bounded(raw, RemoteFeedLimits::from_maxelem(u32::MAX)) {
        Ok(parsed) => format_normalized_cidrs(&parsed.networks),
        Err(_) => String::new(),
    }
}

// Cached data -----------------------------------------------------------------------------------

/// What was read of a generation, where it could be read within its bounds.
#[derive(Debug, Clone, PartialEq, Eq)]
pub struct RemoteGenerationReading {
    /// Bytes of the response body.
    pub raw: Option<Vec<u8>>,
    /// Bytes of the normalized list.
    pub iplist_bytes: Option<Vec<u8>>,
    /// Bytes of the metadata.
    pub metadata_bytes: Option<Vec<u8>>,
    /// The normalized list, where its bytes are a text.
    pub iplist: Option<String>,
    /// The metadata, where its bytes are well-formed.
    pub metadata: Option<RemoteCacheMetadata>,
}

/// A generation whose files agree with its metadata.
#[derive(Debug, Clone, PartialEq, Eq)]
pub struct ValidatedRemoteGeneration {
    /// Path of the normalized list.
    pub iplist_path: String,
    /// The normalized list.
    pub iplist: String,
    /// The metadata.
    pub metadata: RemoteCacheMetadata,
}

/// Members of a generation and how much of each is read.
pub fn remote_generation_limits(raw_read_limit: usize) -> (limits: Vec<GenerationFileLimit>)
    ensures
        limits@ == seq![
            GenerationFileLimit { name: GENERATION_RAW_FILE, read_limit: raw_read_limit },
            GenerationFileLimit { name: GENERATION_IPLIST_FILE, read_limit: MAX_IPLIST_READ_BYTES },
            GenerationFileLimit {
                name: GENERATION_METADATA_FILE,
                read_limit: MAX_METADATA_READ_BYTES,
            },
        ],
{
    let mut limits: Vec<GenerationFileLimit> = Vec::new();
    limits.push(GenerationFileLimit { name: GENERATION_RAW_FILE, read_limit: raw_read_limit });
    limits.push(
        GenerationFileLimit { name: GENERATION_IPLIST_FILE, read_limit: MAX_IPLIST_READ_BYTES },
    );
    limits.push(
        GenerationFileLimit {
            name: GENERATION_METADATA_FILE,
            read_limit: MAX_METADATA_READ_BYTES,
        },
    );
    limits
}

/// The files of a generation, by name and contents.
pub open spec fn is_member_list<'a>(
    files: Seq<GenerationFile<'a>>,
    raw: Seq<u8>,
    iplist: Seq<u8>,
    metadata: Seq<u8>,
) -> bool {
    &&& files.len() == 3
    &&& files[0]@ == (GENERATION_RAW_FILE@, raw)
    &&& files[1]@ == (GENERATION_IPLIST_FILE@, iplist)
    &&& files[2]@ == (GENERATION_METADATA_FILE@, metadata)
}

/// Lists the files of a generation.
pub fn remote_generation_files<'a>(raw: &'a [u8], iplist: &'a [u8], metadata: &'a [u8]) -> (files:
    Vec<GenerationFile<'a>>)
    ensures
        is_member_list(files@, raw@, iplist@, metadata@),
{
    let mut files: Vec<GenerationFile<'a>> = Vec::new();
    files.push(GenerationFile { name: GENERATION_RAW_FILE, contents: raw });
    files.push(GenerationFile { name: GENERATION_IPLIST_FILE, contents: iplist });
    files.push(GenerationFile { name: GENERATION_METADATA_FILE, contents: metadata });
    files
}

/// The three files were read and are those that the candidate is identified by.
pub open spec fn contents_match(
    candidate: GenerationCandidate,
    reading: RemoteGenerationReading,
    matching: bool,
) -> bool {
    match (reading.raw, reading.iplist_bytes, reading.metadata_bytes) {
        (Some(raw), Some(iplist), Some(metadata)) => exists|
            files: Seq<GenerationFile<'static>>,
            ordered: Seq<GenerationFile<'static>>,
        | #[trigger]
            stably_sorted(files, ordered) && is_member_list(files, raw@, iplist@, metadata@)
                && matching == (generation_text(ordered) == candidate.id@),
        _ => !matching,
    }
}

/// Decides whether the files of a generation are those that it is identified by.
pub fn remote_generation_contents_match(
    candidate: &GenerationCandidate,
    reading: &RemoteGenerationReading,
) -> (matching: bool)
    ensures
        contents_match(*candidate, *reading, matching),
{
    match (&reading.raw, &reading.iplist_bytes, &reading.metadata_bytes) {
        (Some(raw), Some(iplist), Some(metadata)) => {
            let files: Vec<GenerationFile<'_>> = remote_generation_files(
                raw.as_slice(),
                iplist.as_slice(),
                metadata.as_slice(),
            );
            generation_contents_match(candidate, files)
        },
        _ => false,
    }
}

/// The metadata names a URL, and the expected one where one is expected.
pub open spec fn url_fits(metadata: RemoteCacheMetadata, expected_url: Option<Seq<char>>) -> bool {
    &&& trim(metadata.url@).len() > 0
    &&& expected_url matches Some(expected) ==> trim(metadata.url@) == trim(expected)
}

/// The files of a generation agree with its metadata.
pub open spec fn generation_agrees(
    reading: RemoteGenerationReading,
    expected_url: Option<Seq<char>>,
) -> bool {
    match (reading.metadata, reading.raw, reading.iplist) {
        (Some(metadata), Some(raw), Some(iplist)) => {
            &&& url_fits(metadata, expected_url)
            &&& sha256_text(raw@) == metadata.sha256_raw@
            &&& sha256_text(encode_utf8(iplist@)) == metadata.sha256_iplist@
        },
        _ => false,
    }
}

/// Accepts a generation whose files agree with its metadata.
pub fn read_validated_remote_generation(
    directory: &str,
    expected_url: Option<&str>,
    reading: RemoteGenerationReading,
) -> (generation: Option<ValidatedRemoteGeneration>)
    ensures
        generation is Some <==> generation_agrees(
            reading,
            match expected_url {
                Some(url) => Some(url@),
                None => None,
            },
        ),
        generation matches Some(g) ==> {
            &&& g.iplist_path@ == path_join(directory@, GENERATION_IPLIST_FILE@)
            &&& reading.iplist == Some(g.iplist)
            &&& reading.metadata == Some(g.metadata)
        },
{
    let metadata: RemoteCacheMetadata = match reading.metadata {
        Some(metadata) => metadata,
        None => {
            return None;
        },
    };
    let url: String = trimmed(metadata.url.as_str());
    if url.as_str().is_empty() {
        return None;
    }
    if let Some(expected) = expected_url {
        let wanted: String = trimmed(expected);
        if !same_text(url.as_str(), wanted.as_str()) {
            return None;
        }
    }
    match &reading.raw {
        Some(raw) => {
            let actual: String = sha256_hex(raw.as_slice());
            if !same_text(actual.as_str(), metadata.sha256_raw.as_str()) {
                return None;
            }
        },
        None => {
            return None;
        },
    }
    let iplist: String = match reading.iplist {
        Some(iplist) => iplist,
        None => {
            return None;
        },
    };
    let actual: String = sha256_hex(iplist.as_str().as_bytes());
    if !same_text(actual.as_str(), metadata.sha256_iplist.as_str()) {
        return None;
    }
    Some(
        ValidatedRemoteGeneration {
            iplist_path: join_path(directory, GENERATION_IPLIST_FILE),
            iplist,
            metadata,
        },
    )
}

/// State of a legacy list.
#[derive(Debug, Clone, PartialEq, Eq)]
pub enum LegacyIplist {
    /// There is no such file.
    Missing,
    /// The file cannot be read within its bound.
    Unreadable(String),
    /// What the file holds.
    Text(String),
}

/// The legacy list is good: it has the checksum of its metadata, where there is metadata, and fits
/// the limits.
pub open spec fn legacy_good(
    text: Seq<char>,
    metadata: Option<RemoteCacheMetadata>,
    limits: RemoteFeedLimits,
) -> bool {
    &&& metadata matches Some(m) ==> sha256_text(encode_utf8(text)) == m.sha256_iplist@
    &&& broken_limit(lines(text), limits) is None
}

/// Networks of a legacy list, `None` where the list is missing or not good.
pub fn read_optional_iplist_networks(
    iplist_path: &str,
    iplist: &LegacyIplist,
    metadata: &Option<RemoteCacheMetadata>,
    limits: RemoteFeedLimits,
) -> (networks: Result<Option<Vec<CanonicalCidr>>, HttpCacheError>)
    ensures
        match *iplist {
            LegacyIplist::Missing => networks == Ok::<Option<Vec<CanonicalCidr>>, HttpCacheError>(
                None,
            ),
            LegacyIplist::Unreadable(reason) => networks matches Err(
                HttpCacheError::ReadIplist { path, reason: why },
            ) && path@ == iplist_path@ && why@ == reason@,
            LegacyIplist::Text(text) => networks matches Ok(found) && {
                &&& found is Some <==> legacy_good(text@, *metadata, limits)
                &&& found matches Some(list) ==> lists_networks(
                    list@,
                    feed_networks(lines(text@)),
                )
            },
        },
{
    match iplist {
        LegacyIplist::Missing => Ok(None),
        LegacyIplist::Unreadable(reason) => Err(
            HttpCacheError::ReadIplist { path: iplist_path.to_owned(), reason: reason.clone() },
        ),
        LegacyIplist::Text(text) => {
            if let Some(metadata) = metadata {
                let actual: String = sha256_hex(text.as_str().as_bytes());
                if !same_text(actual.as_str(), metadata.sha256_iplist.as_str()) {
                    return Ok(None);
                }
            }
            match parse_cached_iplist_bounded(text.as_str(), limits) {
                Ok(list) => Ok(Some(list)),
                Err(_) => Ok(None),
            }
        },
    }
}

/// A generation of a feed's store and what was read of it.
#[derive(Debug, Clone, PartialEq, Eq)]
pub struct StoredGeneration {
    /// The generation.
    pub candidate: GenerationCandidate,
    /// What was read of it.
    pub reading: RemoteGenerationReading,
}

/// The generation can be used for a URL within limits.
pub open spec fn usable_generation(
    stored: StoredGeneration,
    matching: bool,
    url: Seq<char>,
    limits: RemoteFeedLimits,
) -> bool {
    &&& matching
    &&& generation_agrees(stored.reading, Some(url))
    &&& broken_limit(lines(stored.reading.iplist->0@), limits) is None
}

/// The cache is what a generation holds.
pub open spec fn loaded_from(stored: StoredGeneration, cache: LoadedRemoteCache) -> bool {
    &&& cache.networks matches Some(list) && lists_networks(
        list@,
        feed_networks(lines(stored.reading.iplist->0@)),
    )
    &&& cache.metadata == stored.reading.metadata
    &&& option_text(cache.generation_id) == Some(stored.candidate.id@)
}

/// The cache of a feed: the first usable generation of its store, or the legacy files.
pub open spec fn cache_rule(
    url: Seq<char>,
    generations: Seq<StoredGeneration>,
    iplist_path: Seq<char>,
    legacy: (LegacyIplist, Option<RemoteCacheMetadata>),
    limits: RemoteFeedLimits,
    cache: Result<LoadedRemoteCache, HttpCacheError>,
) -> bool
    decreases generations.len(),
{
    if generations.len() == 0 {
        match legacy.0 {
            LegacyIplist::Missing => cache matches Ok(c) && c.networks is None && c.metadata
                == legacy.1 && c.generation_id is None,
            LegacyIplist::Unreadable(reason) => cache matches Err(
                HttpCacheError::ReadIplist { path, reason: why },
            ) && path@ == iplist_path && why@ == reason@,
            LegacyIplist::Text(text) => cache matches Ok(c) && {
                &&& c.networks is Some <==> legacy_good(text@, legacy.1, limits)
                &&& c.networks matches Some(list) ==> lists_networks(
                    list@,
                    feed_networks(lines(text@)),
                )
                &&& c.metadata == legacy.1
                &&& c.generation_id is None
            },
        }
    } else {
        let first = generations[0];
        exists|matching: bool| #[trigger]
            contents_match(first.candidate, first.reading, matching) && if usable_generation(
                first,
                matching,
                url,
                limits,
            ) {
                cache matches Ok(c) && loaded_from(first, c)
            } else {
                cache_rule(url, generations.drop_first(), iplist_path, legacy, limits, cache)
            }
    }
}

/// Accepts one generation of a feed's store.
fn accept_generation(url: &str, stored: StoredGeneration, limits: RemoteFeedLimits) -> (cache: Option<
    LoadedRemoteCache,
>)
    ensures
        exists|matching: bool| #[trigger]
            contents_match(stored.candidate, stored.reading, matching) && (cache is Some
                <==> usable_generation(stored, matching, url@, limits)),
        cache matches Some(c) ==> loaded_from(stored, c),
{
    let matching: bool = remote_generation_contents_match(&stored.candidate, &stored.reading);
    assert(contents_match(stored.candidate, stored.reading, matching));
    if !matching {
        return None;
    }
    match read_validated_remote_generation(
        stored.candidate.directory.as_str(),
        Some(url),
        stored.reading,
    ) {
        None => None,
        Some(generation) => match parse_cached_iplist_bounded(generation.iplist.as_str(), limits) {
            Ok(list) => Some(
                LoadedRemoteCache {
                    networks: Some(list),
                    metadata: Some(generation.metadata),
                    generation_id: Some(stored.candidate.id),
                },
            ),
            Err(_) => None,
        },
    }
}

/// Reads the cache of a feed.
pub fn read_remote_cache(
    url: &str,
    generations: Vec<StoredGeneration>,
    iplist_path: &str,
    iplist: LegacyIplist,
    metadata: Option<RemoteCacheMetadata>,
    limits: RemoteFeedLimits,
) -> (cache: Result<LoadedRemoteCache, HttpCacheError>)
    ensures
        cache_rule(url@, generations@, iplist_path@, (iplist, metadata), limits, cache),
    decreases generations@.len(),
{
    let mut rest: Vec<StoredGeneration> = generations;
    if rest.len() == 0 {
        let networks: Option<Vec<CanonicalCidr>> = match read_optional_iplist_networks(
            iplist_path,
            &iplist,
            &metadata,
            limits,
        ) {
            Ok(networks) => networks,
            Err(error) => {
                return Err(error);
            },
        };
        return Ok(LoadedRemoteCache { networks, metadata, generation_id: None });
    }
    let ghost all = rest@;
    let first: StoredGeneration = rest.remove(0);
    assert(rest@ =~= all.drop_first());
    match accept_generation(url, first, limits) {
        Some(cache) => Ok(cache),
        None => read_remote_cache(url, rest, iplist_path, iplist, metadata, limits),
    }
}

// Refresh ---------------------------------------------------------------------------------------

/// Why a response is not taken.
#[derive(Debug, Clone, Copy, PartialEq, Eq, Structural)]
pub enum ResponseRejection {
    /// The status is no success.
    Status(u16),
    /// The body is larger than allowed.
    TooLarge,
    /// The feed holds too much.
    Budget(RemoteParseBudget),
    /// The feed has data lines and no network.
    NoNetworks,
}

/// A response that replaces the cached data of a feed.
#[derive(Debug, Clone, PartialEq, Eq)]
pub struct RemoteUpdate {
    /// Networks of the feed.
    pub networks: Vec<CanonicalCidr>,
    /// The normalized list.
    pub iplist: String,
    /// The response body.
    pub raw: Vec<u8>,
    /// Metadata of the response.
    pub metadata: RemoteCacheMetadata,
    /// Lines that hold no network.
    pub invalid_lines: usize,
}

/// Successful status codes.
pub open spec fn success_status(status: u16) -> bool {
    200 <= status < 300
}

/// Why a response is not taken; `None` for one that is.
pub open spec fn rejection(response: HttpResponse, max_bytes: usize, limits: RemoteFeedLimits) -> Option<
    ResponseRejection,
> {
    let all = lines(utf8_lossy(response.body@));
    if !success_status(response.status) {
        Some(ResponseRejection::Status(response.status))
    } else if response.body@.len() > max_bytes {
        Some(ResponseRejection::TooLarge)
    } else {
        match broken_limit(all, limits) {
            Some(budget) => Some(ResponseRejection::Budget(budget)),
            None => if data_count(all) > 0 && feed_networks(all).len() == 0 {
                Some(ResponseRejection::NoNetworks)
            } else {
                None
            },
        }
    }
}

/// The metadata of a response.
pub open spec fn metadata_of(
    metadata: RemoteCacheMetadata,
    url: Seq<char>,
    etag: Option<String>,
    last_modified: Option<String>,
    raw: Seq<u8>,
    iplist: Seq<char>,
) -> bool {
    &&& metadata.url@ == url
    &&& metadata.etag == etag
    &&& metadata.last_modified == last_modified
    &&& metadata.sha256_raw@ == sha256_text(raw)
    &&& metadata.sha256_iplist@ == sha256_text(encode_utf8(iplist))
}

/// The update that a response makes.
pub open spec fn update_of(url: Seq<char>, response: HttpResponse, update: RemoteUpdate) -> bool {
    let all = lines(utf8_lossy(response.body@));
    &&& lists_networks(update.networks@, feed_networks(all))
    &&& update.iplist@ == normalized_text(update.networks@)
    &&& update.raw == response.body
    &&& update.invalid_lines == crate::adapter::remote_parse::invalid_count(all)
    &&& metadata_of(
        update.metadata,
        url,
        response.etag,
        response.last_modified,
        response.body@,
        update.iplist@,
    )
}

/// A feed lists no network exactly when it holds none.
proof fn lemma_empty_listing(networks: Seq<CanonicalCidr>, fed: Seq<CidrModel>)
    requires
        lists_networks(networks, fed),
    ensures
        networks.len() == 0 <==> fed.len() == 0,
{
    let listed = models(networks);
    if networks.len() > 0 {
        assert(listed.contains(listed[0]));
        assert(listed.to_set().contains(listed[0]));
        assert(fed.contains(listed[0]));
    }
    if fed.len() > 0 {
        assert(fed.contains(fed[0]));
        assert(fed.to_set().contains(fed[0]));
        assert(listed.contains(fed[0]));
    }
}

/// A body that is looked at, one of a success within the bound, is read as the text it encodes.
pub open spec fn body_read(response: HttpResponse, max_bytes: usize) -> bool {
    success_status(response.status) && response.body@.len() <= max_bytes ==> reads_text(
        response.body@,
    )
}

/// Judges a response to a request for a feed.
pub fn judge_network_response(
    url: &str,
    response: HttpResponse,
    max_bytes: usize,
    limits: RemoteFeedLimits,
) -> (verdict: Result<RemoteUpdate, ResponseRejection>)
    ensures
        match rejection(response, max_bytes, limits) {
            Some(why) => verdict == Err::<RemoteUpdate, ResponseRejection>(why),
            None => verdict matches Ok(update) && update_of(url@, response, update),
        },
        body_read(response, max_bytes),
{
    if response.status < 200 || response.status >= 300 {
        return Err(ResponseRejection::Status(response.status));
    }
    if response.body.len() > max_bytes {
        return Err(ResponseRejection::TooLarge);
    }
    match parse_remote_cidrs_bounded(response.body.as_slice(), limits) {
        Err(budget) => Err(ResponseRejection::Budget(budget)),
        Ok(parsed) => {
            proof {
                lemma_empty_listing(
                    parsed.networks@,
                    feed_networks(lines(utf8_lossy(response.body@))),
                );
            }
            if parsed.data_lines > 0 && parsed.networks.len() == 0 {
                return Err(ResponseRejection::NoNetworks);
            }
            let iplist: String = format_normalized_cidrs(&parsed.networks);
            let metadata: RemoteCacheMetadata = RemoteCacheMetadata {
                url: url.to_owned(),
                etag: response.etag,
                last_modified: response.last_modified,
                sha256_raw: sha256_hex(response.body.as_slice()),
                sha256_iplist: sha256_hex(iplist.as_str().as_bytes()),
            };
            Ok(
                RemoteUpdate {
                    networks: parsed.networks,
                    iplist,
                    raw: response.body,
                    metadata,
                    invalid_lines: parsed.invalid_lines,
                },
            )
        },
    }
}

/// What cached data gives when it is not replaced: its networks, or nothing.
pub open spec fn fallback_of(cache: LoadedRemoteCache, loaded: CachedIplist) -> bool {
    &&& loaded.metadata == cache.metadata
    &&& match cache.networks {
        Some(networks) => loaded.networks == networks && loaded.source
            == CacheSource::FallbackCache,
        None => loaded.networks@.len() == 0 && loaded.source == CacheSource::Empty,
    }
}

/// Falls back to cached data.
pub fn cache_fallback(
    cached_networks: Option<Vec<CanonicalCidr>>,
    cached_meta: Option<RemoteCacheMetadata>,
) -> (loaded: CachedIplist)
    ensures
        fallback_of(
            LoadedRemoteCache {
                networks: cached_networks,
                metadata: cached_meta,
                generation_id: None,
            },
            loaded,
        ),
{
    match cached_networks {
        Some(networks) => CachedIplist {
            networks,
            source: CacheSource::FallbackCache,
            metadata: cached_meta,
        },
        None => CachedIplist {
            networks: Vec::new(),
            source: CacheSource::Empty,
            metadata: cached_meta,
        },
    }
}

/// A response that is to be staged, and the cached data that it replaces.
#[derive(Debug, Clone, PartialEq, Eq)]
pub struct PendingUpdate {
    /// The response.
    pub update: RemoteUpdate,
    /// The cached data.
    pub cache: LoadedRemoteCache,
}

/// Outcome of a refresh.
#[derive(Debug, Clone, PartialEq, Eq)]
pub enum RemoteRefresh {
    /// Nothing is written.
    Settled(CachedIplist),
    /// The response is to be staged.
    Stage(PendingUpdate),
}

/// What a fetch does to a feed.
pub open spec fn refresh_rule(
    url: Seq<char>,
    fetched: ConditionalFetchResult,
    cache: LoadedRemoteCache,
    max_bytes: usize,
    limits: RemoteFeedLimits,
    refresh: RemoteRefresh,
) -> bool {
    match fetched {
        ConditionalFetchResult::CacheNotModified => refresh matches RemoteRefresh::Settled(loaded)
            && match cache.networks {
            Some(networks) => loaded == (CachedIplist {
                networks,
                source: CacheSource::CacheNotModified,
                metadata: cache.metadata,
            }),
            None => loaded.networks@.len() == 0 && loaded.source == CacheSource::Empty
                && loaded.metadata is None,
        },
        ConditionalFetchResult::FallbackCache => refresh matches RemoteRefresh::Settled(loaded)
            && fallback_of(cache, loaded),
        ConditionalFetchResult::Network(response) => {
            &&& body_read(response, max_bytes)
            &&& if rejection(response, max_bytes, limits) is Some {
                refresh matches RemoteRefresh::Settled(loaded) && fallback_of(cache, loaded)
            } else {
                refresh matches RemoteRefresh::Stage(pending) && update_of(
                    url,
                    response,
                    pending.update,
                ) && pending.cache == cache
            }
        },
    }
}

/// Decides what a fetch does to a feed.
pub fn settle_refresh(
    url: &str,
    fetched: ConditionalFetchResult,
    cache: LoadedRemoteCache,
    max_bytes: usize,
    limits: RemoteFeedLimits,
) -> (refresh: RemoteRefresh)
    ensures
        refresh_rule(url@, fetched, cache, max_bytes, limits, refresh),
{
    match fetched {
        ConditionalFetchResult::CacheNotModified => match cache.networks {
            Some(networks) => RemoteRefresh::Settled(
                CachedIplist {
                    networks,
                    source: CacheSource::CacheNotModified,
                    metadata: cache.metadata,
                },
            ),
            None => RemoteRefresh::Settled(
                CachedIplist { networks: Vec::new(), source: CacheSource::Empty, metadata: None },
            ),
        },
        ConditionalFetchResult::FallbackCache => RemoteRefresh::Settled(
            cache_fallback(cache.networks, cache.metadata),
        ),
        ConditionalFetchResult::Network(response) => {
            match judge_network_response(url, response, max_bytes, limits) {
                Ok(update) => RemoteRefresh::Stage(PendingUpdate { update, cache }),
                Err(_) => RemoteRefresh::Settled(cache_fallback(cache.networks, cache.metadata)),
            }
        },
    }
}

/// Copies an optional string.
fn copy_option(text: &Option<String>) -> (copy: Option<String>)
    ensures
        option_text(copy) == option_text(*text),
{
    match text {
        Some(t) => Some(t.clone()),
        None => None,
    }
}

/// The entity tag that a cache remembers.
pub open spec fn cached_etag(cache: LoadedRemoteCache) -> Option<Seq<char>> {
    match cache.metadata {
        Some(metadata) => option_text(metadata.etag),
        None => None,
    }
}

/// The modification date that a cache remembers.
pub open spec fn cached_last_modified(cache: LoadedRemoteCache) -> Option<Seq<char>> {
    match cache.metadata {
        Some(metadata) => option_text(metadata.last_modified),
        None => None,
    }
}

/// A fetch came to a refresh.
pub open spec fn prepared<C: HttpClient>(
    client: &C,
    url: Seq<char>,
    cache: LoadedRemoteCache,
    max_bytes: usize,
    limits: RemoteFeedLimits,
    reply: Result<HttpResponse, HttpClientError>,
    refresh: RemoteRefresh,
) -> bool {
    exists|fetched: ConditionalFetchResult| #[trigger]
        fetch_rule(client, url, max_bytes, cache.networks is Some, reply, fetched) && refresh_rule(
            url,
            fetched,
            cache,
            max_bytes,
            limits,
            refresh,
        )
}

/// Fetches and validates a remote feed with conditional cache fallback, given its cached data.
/// Network and invalid-response failures retain usable cached data.
pub fn prepare_iplist_with_cache<C: HttpClient>(
    client: &C,
    url: &str,
    cache: LoadedRemoteCache,
    env: &Vec<(String, String)>,
    maxelem: u32,
) -> (refresh: RemoteRefresh)
    ensures
        ({
            let max_bytes = body_limit(env_value(env@, ENV_KIDOBO_MAX_HTTP_BODY_BYTES@)) as usize;
            let limits = RemoteFeedLimits {
                data_lines: feed_limit(maxelem, 16_384) as usize,
                unique_cidrs: feed_limit(maxelem, 4_096) as usize,
            };
            exists|request: HttpRequest, reply: Result<HttpResponse, HttpClientError>| #[trigger]
                call_ensures(C::fetch, (client, request), reply) && is_request(
                    request,
                    url@,
                    max_bytes,
                    cached_etag(cache),
                    cached_last_modified(cache),
                ) && prepared(client, url@, cache, max_bytes, limits, reply, refresh)
        }),
{
    let max_bytes: usize = max_http_body_bytes(env);
    let limits: RemoteFeedLimits = RemoteFeedLimits::from_maxelem(maxelem);
    let (etag, last_modified): (Option<String>, Option<String>) = match &cache.metadata {
        Some(metadata) => (copy_option(&metadata.etag), copy_option(&metadata.last_modified)),
        None => (None, None),
    };
    let has_cached: bool = cache.networks.is_some();
    let fetched: ConditionalFetchResult = fetch_with_conditional_cache(
        client,
        url,
        max_bytes,
        etag,
        last_modified,
        has_cached,
    );
    settle_refresh(url, fetched, cache, max_bytes, limits)
}

/// Result of staging an update: the update with its generation, or the cached data where there is
/// some, or the failure.
pub open spec fn finished(
    pending: PendingUpdate,
    staged: Result<StagedGeneration, HttpCacheError>,
    result: Result<PreparedCachedIplist, HttpCacheError>,
) -> bool {
    match staged {
        Ok(generation) => result == Ok::<PreparedCachedIplist, HttpCacheError>(
            PreparedCachedIplist {
                loaded: CachedIplist {
                    networks: pending.update.networks,
                    source: CacheSource::Network,
                    metadata: Some(pending.update.metadata),
                },
                pending_promotion: Some(generation),
            },
        ),
        Err(error) => if pending.cache.networks is Some {
            result matches Ok(prepared) && fallback_of(pending.cache, prepared.loaded)
                && prepared.pending_promotion is None
        } else {
            result == Err::<PreparedCachedIplist, HttpCacheError>(error)
        },
    }
}

impl PendingUpdate {
    /// Finishes an update after staging was tried.
    pub fn finish(self, staged: Result<StagedGeneration, HttpCacheError>) -> (result: Result<
        PreparedCachedIplist,
        HttpCacheError,
    >)
        ensures
            finished(self, staged, result),
    {
        match staged {
            Ok(generation) => Ok(
                PreparedCachedIplist {
                    loaded: CachedIplist {
                        networks: self.update.networks,
                        source: CacheSource::Network,
                        metadata: Some(self.update.metadata),
                    },
                    pending_promotion: Some(generation),
                },
            ),
            Err(error) => {
                if self.cache.networks.is_some() {
                    Ok(
                        PreparedCachedIplist {
                            loaded: cache_fallback(self.cache.networks, self.cache.metadata),
                            pending_promotion: None,
                        },
                    )
                } else {
                    Err(error)
                }
            },
        }
    }
}

} // verus!
