//! Why cached data is not used, for diagnostics.

use crate::adapter::cached_fetch::has_checksum;
use crate::adapter::digest::{sha256_hex, sha256_text};
use crate::adapter::github_categories::{
    cache_scope_compatible, scope_compatible, CategorySelection,
};
use crate::adapter::github_meta::{
    body_networks, complete_cache, endpoint_fits, extract_body, files_rule, fits_endpoint,
    generation_matches, github_contents_match, GithubMetaCache, GithubReading,
    StoredGithubGeneration,
};
use crate::adapter::http_cache::{
    contents_match, generation_agrees, legacy_good, remote_generation_contents_match, url_fits,
    usable_generation, LegacyIplist, RemoteCacheMetadata, RemoteGenerationReading, StoredGeneration,
};
use crate::adapter::remote_parse::{
    broken_limit, parse_cached_iplist_bounded, RemoteFeedLimits, RemoteParseBudget,
};
use crate::policy::network_types::CanonicalCidr;
use crate::text::{lines, same_text, trimmed};
use vstd::prelude::*;
use vstd::utf8::encode_utf8;

verus! {

/// Why cached data is not used.
#[derive(Debug, Clone, Copy, PartialEq, Eq, Structural)]
pub enum CacheFault {
    /// A file of the generation was not read.
    Incomplete,
    /// The files are not those that the generation is identified by.
    ContentId,
    /// There is no well-formed metadata.
    Metadata,
    /// The metadata names no endpoint, or another one.
    Url,
    /// The response body does not have the checksum of the metadata.
    RawChecksum,
    /// The normalized list is no text.
    Iplist,
    /// The normalized list does not have the checksum of the metadata.
    IplistChecksum,
    /// The normalized list holds too much.
    Budget(RemoteParseBudget),
    /// The category record does not allow the selection.
    Categories,
    /// The response body gives no networks for the selection.
    Body,
}

// Feeds -----------------------------------------------------------------------------------------

/// All files of the generation were read.
pub open spec fn all_read(reading: RemoteGenerationReading) -> bool {
    reading.raw is Some && reading.iplist_bytes is Some && reading.metadata_bytes is Some
}

/// Why the files of a generation do not agree with its metadata, or hold too much.
pub open spec fn reading_fault(
    reading: RemoteGenerationReading,
    expected_url: Option<Seq<char>>,
    limits: Option<RemoteFeedLimits>,
) -> Option<CacheFault> {
    match (reading.metadata, reading.raw, reading.iplist) {
        (None, _, _) => Some(CacheFault::Metadata),
        (Some(metadata), _, _) if !url_fits(metadata, expected_url) => Some(CacheFault::Url),
        (_, None, _) => Some(CacheFault::Incomplete),
        (Some(metadata), Some(raw), _) if sha256_text(raw@) != metadata.sha256_raw@ => Some(
            CacheFault::RawChecksum,
        ),
        (_, _, None) => Some(CacheFault::Iplist),
        (Some(metadata), _, Some(iplist)) => if sha256_text(encode_utf8(iplist@))
            != metadata.sha256_iplist@ {
            Some(CacheFault::IplistChecksum)
        } else {
            match limits {
                Some(bounds) => match broken_limit(lines(iplist@), bounds) {
                    Some(budget) => Some(CacheFault::Budget(budget)),
                    None => None,
                },
                None => None,
            }
        },
    }
}

/// Why a generation is not used; `None` for one that is.
pub open spec fn generation_fault_of(
    stored: StoredGeneration,
    matching: bool,
    expected_url: Option<Seq<char>>,
    limits: Option<RemoteFeedLimits>,
) -> Option<CacheFault> {
    if !all_read(stored.reading) {
        Some(CacheFault::Incomplete)
    } else if !matching {
        Some(CacheFault::ContentId)
    } else {
        reading_fault(stored.reading, expected_url, limits)
    }
}

fn find_reading_fault(
    reading: &RemoteGenerationReading,
    expected_url: Option<&str>,
    limits: Option<RemoteFeedLimits>,
) -> (fault: Option<CacheFault>)
    ensures
        fault == reading_fault(
            *reading,
            match expected_url {
                Some(url) => Some(url@),
                None => None,
            },
            limits,
        ),
{
    let metadata: &RemoteCacheMetadata = match &reading.metadata {
        Some(metadata) => metadata,
        None => {
            return Some(CacheFault::Metadata);
        },
    };
    let url: String = trimmed(metadata.url.as_str());
    if url.as_str().is_empty() {
        return Some(CacheFault::Url);
    }
    if let Some(expected) = expected_url {
        let wanted: String = trimmed(expected);
        if !same_text(url.as_str(), wanted.as_str()) {
            return Some(CacheFault::Url);
        }
    }
    match &reading.raw {
        Some(raw) => {
            let actual: String = sha256_hex(raw.as_slice());
            if !same_text(actual.as_str(), metadata.sha256_raw.as_str()) {
                return Some(CacheFault::RawChecksum);
            }
        },
        None => {
            return Some(CacheFault::Incomplete);
        },
    }
    let iplist: &String = match &reading.iplist {
        Some(iplist) => iplist,
        None => {
            return Some(CacheFault::Iplist);
        },
    };
    let actual: String = sha256_hex(iplist.as_str().as_bytes());
    if !same_text(actual.as_str(), metadata.sha256_iplist.as_str()) {
        return Some(CacheFault::IplistChecksum);
    }
    match limits {
        Some(bounds) => match parse_cached_iplist_bounded(iplist.as_str(), bounds) {
            Ok(_) => None,
            Err(budget) => Some(CacheFault::Budget(budget)),
        },
        None => None,
    }
}

/// Finds out why a generation is not used for a URL, where one is expected, and within limits,
/// where there are some.
pub fn generation_fault(
    stored: &StoredGeneration,
    expected_url: Option<&str>,
    limits: Option<RemoteFeedLimits>,
) -> (fault: Option<CacheFault>)
    ensures
        exists|matching: bool| #[trigger]
            contents_match(stored.candidate, stored.reading, matching) && fault
                == generation_fault_of(
                *stored,
                matching,
                match expected_url {
                    Some(url) => Some(url@),
                    None => None,
                },
                limits,
            ),
{
    let reading: &RemoteGenerationReading = &stored.reading;
    let matching: bool = remote_generation_contents_match(&stored.candidate, reading);
    assert(contents_match(stored.candidate, stored.reading, matching));
    if reading.raw.is_none() || reading.iplist_bytes.is_none() || reading.metadata_bytes.is_none() {
        return Some(CacheFault::Incomplete);
    }
    if !matching {
        return Some(CacheFault::ContentId);
    }
    find_reading_fault(reading, expected_url, limits)
}

/// Why a legacy list that was read is not used; `None` for one that is.
pub open spec fn legacy_fault_of(
    text: Seq<char>,
    metadata: Option<RemoteCacheMetadata>,
    limits: RemoteFeedLimits,
) -> Option<CacheFault> {
    match metadata {
        Some(m) if sha256_text(encode_utf8(text)) != m.sha256_iplist@ => Some(
            CacheFault::IplistChecksum,
        ),
        _ => match broken_limit(lines(text), limits) {
            Some(budget) => Some(CacheFault::Budget(budget)),
            None => None,
        },
    }
}

/// Finds out why a legacy list that was read is not used.
pub fn legacy_fault(
    iplist: &LegacyIplist,
    metadata: &Option<RemoteCacheMetadata>,
    limits: RemoteFeedLimits,
) -> (fault: Option<CacheFault>)
    ensures
        fault == match *iplist {
            LegacyIplist::Text(text) => legacy_fault_of(text@, *metadata, limits),
            _ => None,
        },
{
    match iplist {
        LegacyIplist::Text(text) => {
            if let Some(metadata) = metadata {
                let actual: String = sha256_hex(text.as_str().as_bytes());
                if !same_text(actual.as_str(), metadata.sha256_iplist.as_str()) {
                    return Some(CacheFault::IplistChecksum);
                }
            }
            match parse_cached_iplist_bounded(text.as_str(), limits) {
                Ok(_) => None,
                Err(budget) => Some(CacheFault::Budget(budget)),
            }
        },
        LegacyIplist::Missing => None,
        LegacyIplist::Unreadable(_) => None,
    }
}

/// A generation can be used, for a URL and within limits or without either, exactly when it has no
/// fault.
pub proof fn law_usable_generation_has_no_fault(
    stored: StoredGeneration,
    matching: bool,
    url: Seq<char>,
    limits: RemoteFeedLimits,
)
    requires
        contents_match(stored.candidate, stored.reading, matching),
    ensures
        usable_generation(stored, matching, url, limits) <==> generation_fault_of(
            stored,
            matching,
            Some(url),
            Some(limits),
        ) is None,
        matching && generation_agrees(stored.reading, None) <==> generation_fault_of(
            stored,
            matching,
            None,
            None,
        ) is None,
{
}

/// A legacy list is good exactly when it has no fault.
pub proof fn law_good_legacy_list_has_no_fault(
    text: Seq<char>,
    metadata: Option<RemoteCacheMetadata>,
    limits: RemoteFeedLimits,
)
    ensures
        legacy_good(text, metadata, limits) <==> legacy_fault_of(text, metadata, limits) is None,
{
}

// GitHub metadata -------------------------------------------------------------------------------

/// The checksum that metadata names.
pub open spec fn named_checksum(reading: GithubReading) -> Option<Seq<char>> {
    match reading.metadata {
        Some(meta) => Some(meta.sha256_raw@),
        None => None,
    }
}

/// Why cached files cannot be used for an endpoint, apart from what the body holds.
pub open spec fn files_fault_of(
    reading: GithubReading,
    url: Seq<char>,
    require_metadata: bool,
) -> Option<CacheFault> {
    if !endpoint_fits(reading.metadata, url, require_metadata) {
        if reading.metadata is Some {
            Some(CacheFault::Url)
        } else {
            Some(CacheFault::Metadata)
        }
    } else {
        match reading.raw {
            Some(raw) if !has_checksum(raw@, named_checksum(reading)) => Some(
                CacheFault::RawChecksum,
            ),
            _ => None,
        }
    }
}

/// Finds out why cached files cannot be used for an endpoint, apart from what the body holds.
pub fn github_files_fault(
    reading: &GithubReading,
    github_meta_url: &str,
    require_metadata: bool,
) -> (fault: Option<CacheFault>)
    ensures
        fault == files_fault_of(*reading, github_meta_url@, require_metadata),
{
    if !fits_endpoint(&reading.metadata, github_meta_url, require_metadata) {
        return match &reading.metadata {
            Some(_) => Some(CacheFault::Url),
            None => Some(CacheFault::Metadata),
        };
    }
    match (&reading.raw, &reading.metadata) {
        (Some(raw), Some(meta)) => {
            let actual: String = sha256_hex(raw.as_slice());
            if same_text(actual.as_str(), meta.sha256_raw.as_str()) {
                None
            } else {
                Some(CacheFault::RawChecksum)
            }
        },
        _ => None,
    }
}

/// Why a generation is not used for an endpoint and a selection; `None` for one that is.
pub open spec fn github_fault_rule(
    stored: StoredGithubGeneration,
    selection: CategorySelection,
    url: Seq<char>,
    fault: Option<CacheFault>,
) -> bool {
    let reading = stored.reading;
    if reading.raw is None || stored.category_bytes is None || stored.metadata_bytes is None {
        fault == Some(CacheFault::Incomplete)
    } else if fault == Some(CacheFault::ContentId) {
        github_contents_match(stored, false)
    } else {
        &&& github_contents_match(stored, true)
        &&& if files_fault_of(reading, url, true) is Some {
            fault == files_fault_of(reading, url, true)
        } else if reading.sidecar is None || !scope_compatible(selection, reading.sidecar) {
            fault == Some(CacheFault::Categories)
        } else {
            ||| fault == Some(CacheFault::Body) && body_networks(reading.raw->0@, selection, None)
            ||| fault is None && exists|networks: Vec<CanonicalCidr>| #[trigger]
                body_networks(reading.raw->0@, selection, Some(networks))
        }
    }
}

/// Finds out why a generation is not used for an endpoint and a selection.
pub fn github_generation_fault(
    stored: &StoredGithubGeneration,
    selection: &CategorySelection,
    github_meta_url: &str,
) -> (fault: Option<CacheFault>)
    ensures
        github_fault_rule(*stored, *selection, github_meta_url@, fault),
{
    let reading: &GithubReading = &stored.reading;
    if stored.category_bytes.is_none() || stored.metadata_bytes.is_none() {
        return Some(CacheFault::Incomplete);
    }
    let raw: &Vec<u8> = match &reading.raw {
        Some(raw) => raw,
        None => {
            return Some(CacheFault::Incomplete);
        },
    };
    if !generation_matches(stored) {
        return Some(CacheFault::ContentId);
    }
    if let Some(fault) = github_files_fault(reading, github_meta_url, true) {
        return Some(fault);
    }
    if reading.sidecar.is_none() || !cache_scope_compatible(selection, &reading.sidecar) {
        return Some(CacheFault::Categories);
    }
    match extract_body(raw.as_slice(), selection) {
        Some(networks) => {
            assert(body_networks(reading.raw->0@, *selection, Some(networks)));
            None
        },
        None => Some(CacheFault::Body),
    }
}

/// Why cached data gives nothing for a selection although there is a body.
pub open spec fn github_fallback_rule(
    cache: GithubMetaCache,
    selection: CategorySelection,
    fault: Option<CacheFault>,
) -> bool {
    match cache.raw {
        None => fault is None,
        Some(raw) => if !scope_compatible(selection, cache.sidecar) {
            fault == Some(CacheFault::Categories)
        } else if cache.networks is Some {
            fault is None
        } else {
            ||| fault == Some(CacheFault::Body) && body_networks(raw@, selection, None)
            ||| fault is None && exists|networks: Vec<CanonicalCidr>| #[trigger]
                body_networks(raw@, selection, Some(networks))
        },
    }
}

/// Finds out why cached data gives nothing for a selection although there is a body.
pub fn github_fallback_fault(cache: &GithubMetaCache, selection: &CategorySelection) -> (fault:
    Option<CacheFault>)
    ensures
        github_fallback_rule(*cache, *selection, fault),
{
    let raw: &Vec<u8> = match &cache.raw {
        Some(raw) => raw,
        None => {
            return None;
        },
    };
    if !cache_scope_compatible(selection, &cache.sidecar) {
        return Some(CacheFault::Categories);
    }
    if cache.networks.is_some() {
        return None;
    }
    match extract_body(raw.as_slice(), selection) {
        Some(networks) => {
            assert(body_networks(raw@, *selection, Some(networks)));
            None
        },
        None => Some(CacheFault::Body),
    }
}

/// Cached files give a body exactly when one was read and they have no fault.
pub proof fn law_faultless_files_give_their_body(
    reading: GithubReading,
    selection: CategorySelection,
    url: Seq<char>,
    require_metadata: bool,
    cache: GithubMetaCache,
)
    requires
        files_rule(reading, selection, url, require_metadata, cache),
    ensures
        cache.raw is Some <==> reading.raw is Some && files_fault_of(
            reading,
            url,
            require_metadata,
        ) is None,
{
}

/// The files of a generation are complete for an endpoint and a selection exactly when the
/// generation has no fault, where its files are those that it is identified by.
pub proof fn law_complete_generation_has_no_fault(
    stored: StoredGithubGeneration,
    selection: CategorySelection,
    url: Seq<char>,
    cache: GithubMetaCache,
    fault: Option<CacheFault>,
)
    requires
        files_rule(stored.reading, selection, url, true, cache),
        github_fault_rule(stored, selection, url, fault),
        stored.category_bytes is Some && stored.metadata_bytes is Some,
        fault != Some(CacheFault::ContentId),
    ensures
        complete_cache(cache) <==> fault is None,
{
}

} // verus!
