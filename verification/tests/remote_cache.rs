//! Remote-feed caches on an in-memory disk.

use std::cell::RefCell;
use std::collections::{BTreeMap, BTreeSet, VecDeque};
use std::rc::Rc;

use kidobo::adapter::cache_faults::{generation_fault, legacy_fault, CacheFault};
use kidobo::adapter::cache_generation::{
    cleanup_unselected_generations, generation_candidates, generation_contents_match,
    plan_generation, pruned_generations, CleanupPlan, GenerationCandidate, GenerationFile,
    GenerationManifest, GenerationPlan, GenerationPlanError,
};
use kidobo::adapter::cache_staging::{next_step, StagedGeneration, StagingEvent, StagingStep};
use kidobo::adapter::cached_fetch::read_validated_bytes_lossy;
use kidobo::adapter::cached_sources::{
    load_remote_sources, read_remote_cache_iplist_text, CachedRemoteSource, LegacySourceFile,
};
use kidobo::adapter::digest::sha256_hex;
use kidobo::adapter::errors::SourceLoadError;
use kidobo::adapter::feed_aggregate::{
    prepare_remote_networks_in_chunks, FeedFetcher, FeedReply, FeedRequest, PreparedFeed,
    MAX_REMOTE_FETCH_WORKERS,
};
use kidobo::adapter::http_cache::{
    cache_paths_for_url, is_url_hash, max_http_body_bytes, normalize_remote_text,
    prepare_iplist_with_cache, read_remote_cache, remote_generation_files,
    remote_generation_store, url_hash_prefix, CacheSource, CachedIplist, HttpCacheError,
    LegacyIplist, LoadedRemoteCache, PreparedCachedIplist, RemoteCacheMetadata,
    RemoteGenerationReading, RemoteRefresh, StoredGeneration, DEFAULT_MAX_HTTP_BODY_BYTES,
    ENV_KIDOBO_MAX_HTTP_BODY_BYTES, MAX_HTTP_BODY_BYTES,
};
use kidobo::adapter::http_fetch::{HttpClient, HttpClientError, HttpRequest, HttpResponse};
use kidobo::adapter::offline_cache::{
    collect_offline_remote_generations, OfflineRemoteGeneration, RemoteStoreReading,
};
use kidobo::adapter::remote_parse::{
    format_normalized_cidrs, parse_cached_iplist_bounded, parse_feed_text,
    parse_remote_cidrs_bounded, RemoteFeedLimits, RemoteParseBudget,
};
use kidobo::policy::network_types::CanonicalCidr;
use kidobo::workflow::error::AppError;
use kidobo::workflow::ports::{Cancellation, NoCancellation};
use kidobo::workflow::source::{PendingCachePromotion, StagedPromotion};
use serde_json::Value;

const ROOT: &str = "/cache/remote";

// In-memory disk --------------------------------------------------------------------------------

#[derive(Default)]
struct Disk {
    files: RefCell<BTreeMap<String, Vec<u8>>>,
    staging_blocked: RefCell<bool>,
}

impl Disk {
    fn read(&self, path: &str) -> Option<Vec<u8>> {
        self.files.borrow().get(path).cloned()
    }

    fn write(&self, path: &str, contents: &[u8]) {
        self.files
            .borrow_mut()
            .insert(path.to_string(), contents.to_vec());
    }

    fn directories(&self, parent: &str) -> Vec<String> {
        let prefix = format!("{parent}/");
        let names = self
            .files
            .borrow()
            .keys()
            .filter_map(|path| path.strip_prefix(&prefix))
            .filter_map(|rest| rest.split_once('/').map(|(name, _)| name.to_string()))
            .collect::<BTreeSet<_>>();
        names.into_iter().collect()
    }

    fn remove_directory(&self, path: &str) {
        let prefix = format!("{path}/");
        self.files
            .borrow_mut()
            .retain(|name, _| !name.starts_with(&prefix));
    }

    fn rename_directory(&self, from: &str, to: &str) {
        let prefix = format!("{from}/");
        let moved = self
            .files
            .borrow()
            .iter()
            .filter(|(name, _)| name.starts_with(&prefix))
            .map(|(name, contents)| {
                (format!("{to}/{}", &name[prefix.len()..]), contents.clone())
            })
            .collect::<Vec<_>>();
        self.remove_directory(from);
        self.files.borrow_mut().extend(moved);
    }

    fn has_directory(&self, path: &str) -> bool {
        let prefix = format!("{path}/");
        self.files
            .borrow()
            .keys()
            .any(|name| name.starts_with(&prefix))
    }
}

fn optional_text(value: Option<&Value>) -> Option<String> {
    value.and_then(Value::as_str).map(str::to_string)
}

fn read_manifest(disk: &Disk, store: &str) -> Option<GenerationManifest> {
    let bytes = disk.read(&format!("{store}/current.json"))?;
    let value: Value = serde_json::from_slice(&bytes).ok()?;
    Some(GenerationManifest {
        version: u8::try_from(value.get("version")?.as_u64()?).ok()?,
        current: value.get("current")?.as_str()?.to_string(),
        previous: optional_text(value.get("previous")),
    })
}

fn text_or_null(text: &Option<String>) -> Value {
    match text {
        Some(text) => Value::String(text.clone()),
        None => Value::Null,
    }
}

fn manifest_bytes(manifest: &GenerationManifest) -> Vec<u8> {
    let mut object = serde_json::Map::new();
    object.insert("version".to_string(), Value::from(manifest.version));
    object.insert("current".to_string(), Value::from(manifest.current.clone()));
    object.insert("previous".to_string(), text_or_null(&manifest.previous));
    serde_json::to_vec_pretty(&Value::Object(object)).expect("manifest json")
}

fn metadata_bytes(metadata: &RemoteCacheMetadata) -> Vec<u8> {
    let mut object = serde_json::Map::new();
    object.insert("url".to_string(), Value::from(metadata.url.clone()));
    object.insert("etag".to_string(), text_or_null(&metadata.etag));
    object.insert(
        "last_modified".to_string(),
        text_or_null(&metadata.last_modified),
    );
    object.insert(
        "sha256_raw".to_string(),
        Value::from(metadata.sha256_raw.clone()),
    );
    object.insert(
        "sha256_iplist".to_string(),
        Value::from(metadata.sha256_iplist.clone()),
    );
    serde_json::to_vec_pretty(&Value::Object(object)).expect("metadata json")
}

fn metadata_from(bytes: &[u8]) -> Option<RemoteCacheMetadata> {
    let value: Value = serde_json::from_slice(bytes).ok()?;
    Some(RemoteCacheMetadata {
        url: value.get("url")?.as_str()?.to_string(),
        etag: optional_text(value.get("etag")),
        last_modified: optional_text(value.get("last_modified")),
        sha256_raw: value.get("sha256_raw")?.as_str()?.to_string(),
        sha256_iplist: value.get("sha256_iplist")?.as_str()?.to_string(),
    })
}

fn stage(
    disk: &Disk,
    store: &str,
    files: &Vec<GenerationFile<'_>>,
    previous: Option<&str>,
    fail_at: Option<StagingStep>,
) -> Result<StagedGeneration, String> {
    let plan: GenerationPlan<'_> =
        plan_generation(files, previous).map_err(|error| error.message().to_string())?;
    let staging = format!("{store}/generations/.staging");
    let directory = format!("{store}/generations/{}", plan.generation_id);
    let mut step = StagingStep::CreateRoot;
    loop {
        if fail_at == Some(step) {
            step = next_step(plan.files.len(), step, StagingEvent::Broken);
            continue;
        }
        let event = match step {
            StagingStep::CreateRoot => {
                if *disk.staging_blocked.borrow() {
                    StagingEvent::Broken
                } else {
                    StagingEvent::Done
                }
            }
            StagingStep::WriteFile { index } => {
                disk.write(
                    &format!("{staging}/{}", plan.files[index].name),
                    plan.files[index].contents,
                );
                StagingEvent::Done
            }
            StagingStep::Inspect => {
                if !disk.has_directory(&directory) {
                    StagingEvent::Done
                } else {
                    let present = plan
                        .files
                        .iter()
                        .map(|file| disk.read(&format!("{directory}/{}", file.name)))
                        .collect::<Vec<_>>();
                    let files = plan
                        .files
                        .iter()
                        .zip(&present)
                        .map(|(file, contents)| GenerationFile {
                            name: file.name,
                            contents: contents.as_deref().unwrap_or_default(),
                        })
                        .collect::<Vec<_>>();
                    let candidate = GenerationCandidate {
                        id: plan.generation_id.clone(),
                        directory: directory.clone(),
                    };
                    if present.iter().all(Option::is_some)
                        && generation_contents_match(&candidate, files)
                    {
                        StagingEvent::Present
                    } else {
                        StagingEvent::Stale
                    }
                }
            }
            StagingStep::DropStaging | StagingStep::CleanUp => {
                disk.remove_directory(&staging);
                StagingEvent::Done
            }
            StagingStep::RemoveStale | StagingStep::Withdraw => {
                disk.remove_directory(&directory);
                StagingEvent::Done
            }
            StagingStep::Publish { .. } => {
                disk.rename_directory(&staging, &directory);
                StagingEvent::Done
            }
            StagingStep::Finished { fresh } => {
                return Ok(StagedGeneration::new(
                    store,
                    &plan.generation_id,
                    &plan.previous,
                    fresh,
                ));
            }
            StagingStep::Failed => return Err("staging failed".to_string()),
            _ => StagingEvent::Done,
        };
        step = next_step(plan.files.len(), step, event);
    }
}

fn prune(disk: &Disk, store: &str, manifest: &GenerationManifest) {
    let root = format!("{store}/generations");
    for name in pruned_generations(&disk.directories(&root), manifest) {
        disk.remove_directory(&format!("{root}/{name}"));
    }
}

fn promote(disk: &Disk, mut staged: StagedGeneration) -> String {
    let manifest = staged.manifest();
    disk.write(
        &format!("{}/current.json", staged.store_root),
        &manifest_bytes(&manifest),
    );
    staged.mark_promoted();
    assert!(staged.abandoned_directory().is_none());
    prune(disk, &staged.store_root, &manifest);
    staged.generation_id
}

fn discard(disk: &Disk, staged: &StagedGeneration) {
    if let Some(directory) = staged.abandoned_directory() {
        disk.remove_directory(&directory);
    }
}

fn cleanup(disk: &Disk, store: &str) {
    let exists = disk.read(&format!("{store}/current.json")).is_some();
    match cleanup_unselected_generations(&read_manifest(disk, store), exists) {
        CleanupPlan::Nothing => {}
        CleanupPlan::RemoveAll => disk.remove_directory(&format!("{store}/generations")),
        CleanupPlan::Prune(manifest) => prune(disk, store, &manifest),
    }
}

fn commit(disk: &Disk, store: &str, value: &[u8], previous: Option<&str>) -> String {
    let files = vec![GenerationFile {
        name: "payload",
        contents: value,
    }];
    let staged = stage(disk, store, &files, previous, None).expect("stage");
    promote(disk, staged)
}

fn candidates(disk: &Disk, store: &str) -> Vec<GenerationCandidate> {
    generation_candidates(store, &read_manifest(disk, store))
}

fn stored(disk: &Disk, candidate: GenerationCandidate) -> StoredGeneration {
    let member = |name: &str| disk.read(&format!("{}/{name}", candidate.directory));
    let iplist_bytes = member("iplist");
    let metadata = member("meta.json");
    let reading = RemoteGenerationReading {
        raw: member("raw"),
        iplist: iplist_bytes
            .clone()
            .and_then(|bytes| String::from_utf8(bytes).ok()),
        iplist_bytes,
        metadata: metadata.as_deref().and_then(metadata_from),
        metadata_bytes: metadata,
    };
    StoredGeneration { candidate, reading }
}

fn load_cache(disk: &Disk, url: &str, limits: RemoteFeedLimits) -> LoadedRemoteCache {
    let store = remote_generation_store(ROOT, url);
    let generations = candidates(disk, &store)
        .into_iter()
        .map(|candidate| stored(disk, candidate))
        .collect();
    let paths = cache_paths_for_url(ROOT, url);
    let iplist = match disk.read(&paths.iplist_path) {
        None => LegacyIplist::Missing,
        Some(bytes) => match String::from_utf8(bytes) {
            Ok(text) => LegacyIplist::Text(text),
            Err(error) => LegacyIplist::Unreadable(error.to_string()),
        },
    };
    let metadata = disk
        .read(&paths.meta_path)
        .as_deref()
        .and_then(metadata_from);
    read_remote_cache(url, generations, &paths.iplist_path, iplist, metadata, limits)
        .expect("readable cache")
}

fn prepare(
    disk: &Disk,
    client: &impl HttpClient,
    url: &str,
    env: &Vec<(String, String)>,
    maxelem: u32,
) -> Result<PreparedCachedIplist, HttpCacheError> {
    let store = remote_generation_store(ROOT, url);
    cleanup(disk, &store);
    let cache = load_cache(disk, url, RemoteFeedLimits::from_maxelem(maxelem));
    match prepare_iplist_with_cache(client, url, cache, env, maxelem) {
        RemoteRefresh::Settled(loaded) => Ok(PreparedCachedIplist {
            loaded,
            pending_promotion: None,
        }),
        RemoteRefresh::Stage(pending) => {
            let metadata = metadata_bytes(&pending.update.metadata);
            let files = remote_generation_files(
                &pending.update.raw,
                pending.update.iplist.as_bytes(),
                &metadata,
            );
            let staged = stage(
                disk,
                &store,
                &files,
                pending.cache.generation_id.as_deref(),
                None,
            )
            .map_err(|reason| HttpCacheError::WriteMetadata {
                path: format!("{store}/current.json"),
                reason,
            });
            pending.finish(staged)
        }
    }
}

fn fetch(
    disk: &Disk,
    client: &impl HttpClient,
    url: &str,
    env: &Vec<(String, String)>,
) -> Result<CachedIplist, HttpCacheError> {
    let prepared = prepare(disk, client, url, env, u32::MAX)?;
    if let Some(staged) = prepared.pending_promotion {
        promote(disk, staged);
    }
    Ok(prepared.loaded)
}

struct MockHttpClient {
    responses: RefCell<VecDeque<Result<HttpResponse, HttpClientError>>>,
    requests: RefCell<Vec<HttpRequest>>,
}

impl MockHttpClient {
    fn new(responses: Vec<Result<HttpResponse, HttpClientError>>) -> Self {
        Self {
            responses: RefCell::new(VecDeque::from(responses)),
            requests: RefCell::new(Vec::new()),
        }
    }

    fn requests(&self) -> Vec<HttpRequest> {
        self.requests.borrow().clone()
    }
}

impl HttpClient for MockHttpClient {
    fn fetch(&self, request: HttpRequest) -> Result<HttpResponse, HttpClientError> {
        self.requests.borrow_mut().push(request);
        self.responses
            .borrow_mut()
            .pop_front()
            .expect("queued response")
    }
}

fn response(body: &[u8]) -> HttpResponse {
    HttpResponse {
        status: 200,
        body: body.to_vec(),
        etag: None,
        last_modified: None,
    }
}

fn offline() -> Result<HttpResponse, HttpClientError> {
    Err(HttpClientError::Request {
        reason: "offline".to_string(),
    })
}

fn texts(networks: &[CanonicalCidr]) -> Vec<String> {
    networks.iter().map(CanonicalCidr::to_text).collect()
}

fn current_directory(disk: &Disk, url: &str) -> String {
    candidates(disk, &remote_generation_store(ROOT, url))
        .into_iter()
        .next()
        .expect("current generation")
        .directory
}

// Generations -----------------------------------------------------------------------------------

#[test]
fn failures_before_manifest_commit_keep_the_previous_generation_selected() {
    for failure in [
        StagingStep::ReportStaged,
        StagingStep::ReportPublished { fresh: true },
    ] {
        let disk = Disk::default();
        let old = commit(&disk, "/store", b"old", None);
        let files = vec![GenerationFile {
            name: "payload",
            contents: b"new",
        }];
        let result = stage(&disk, "/store", &files, Some(&old), Some(failure));

        assert!(result.is_err());
        let selected = candidates(&disk, "/store");
        assert_eq!(selected[0].id, old);
        assert_eq!(
            disk.read(&format!("{}/payload", selected[0].directory))
                .expect("payload"),
            b"old"
        );
        assert_eq!(disk.directories("/store/generations"), vec![old]);
    }
}

#[test]
fn manifest_commit_retains_new_current_and_old_previous() {
    let disk = Disk::default();
    let old = commit(&disk, "/store", b"old", None);
    let new = commit(&disk, "/store", b"new", Some(&old));

    let selected = candidates(&disk, "/store");
    assert_eq!(selected.len(), 2);
    assert_eq!(selected[0].id, new);
    assert_eq!(selected[1].id, old);
    assert_eq!(
        disk.read(&format!("{}/payload", selected[1].directory))
            .expect("previous"),
        b"old"
    );
}

#[test]
fn generation_contents_must_match_the_manifest_id() {
    let disk = Disk::default();
    commit(&disk, "/store", b"original", None);
    let candidate = candidates(&disk, "/store").remove(0);
    let payload = |contents: &'static [u8]| {
        vec![GenerationFile {
            name: "payload",
            contents,
        }]
    };
    assert!(generation_contents_match(&candidate, payload(b"original")));
    assert!(!generation_contents_match(&candidate, payload(b"modified")));
}

#[test]
fn malformed_previous_id_invalidates_the_manifest() {
    let disk = Disk::default();
    let current = commit(&disk, "/store", b"original", None);
    disk.write(
        "/store/current.json",
        format!("{{\"version\":2,\"current\":\"{current}\",\"previous\":\"../legacy\"}}")
            .as_bytes(),
    );

    assert!(candidates(&disk, "/store").is_empty());
}

#[test]
fn unknown_manifest_version_selects_nothing() {
    let disk = Disk::default();
    let current = commit(&disk, "/store", b"original", None);
    disk.write(
        "/store/current.json",
        format!("{{\"version\":3,\"current\":\"{current}\",\"previous\":null}}").as_bytes(),
    );
    assert!(candidates(&disk, "/store").is_empty());
    cleanup(&disk, "/store");
    assert_eq!(disk.directories("/store/generations"), vec![current]);
}

#[test]
fn online_cleanup_removes_unselected_crash_generation() {
    let disk = Disk::default();
    let selected = commit(&disk, "/store", b"selected", None);
    let files = vec![GenerationFile {
        name: "payload",
        contents: b"unselected",
    }];
    stage(&disk, "/store", &files, Some(&selected), None).expect("stage generation");

    cleanup(&disk, "/store");

    assert_eq!(disk.directories("/store/generations"), vec![selected]);
}

#[test]
fn a_store_without_manifest_is_emptied() {
    let disk = Disk::default();
    let files = vec![GenerationFile {
        name: "payload",
        contents: b"crash",
    }];
    stage(&disk, "/store", &files, None, None).expect("stage generation");
    cleanup(&disk, "/store");
    assert!(disk.directories("/store/generations").is_empty());
}

#[test]
fn an_abandoned_new_generation_is_removed_and_a_shared_one_is_kept() {
    let disk = Disk::default();
    let files = vec![GenerationFile {
        name: "payload",
        contents: b"fresh",
    }];
    let staged = stage(&disk, "/store", &files, None, None).expect("stage");
    discard(&disk, &staged);
    assert!(disk.directories("/store/generations").is_empty());

    let kept = commit(&disk, "/store", b"fresh", None);
    let again = stage(&disk, "/store", &files, Some(&kept), None).expect("stage again");
    assert!(again.previous.is_none());
    discard(&disk, &again);
    assert_eq!(disk.directories("/store/generations"), vec![kept]);
}

#[test]
fn generations_need_files_with_distinct_safe_names() {
    assert_eq!(
        plan_generation(&Vec::new(), None).expect_err("no files"),
        GenerationPlanError::NoFiles
    );
    for names in [["a", "a"], ["a", "../b"], [".hidden", "b"], ["a", ""]] {
        let files = names
            .iter()
            .map(|name| GenerationFile {
                name,
                contents: b"x",
            })
            .collect::<Vec<_>>();
        assert_eq!(
            plan_generation(&files, None).expect_err("unsafe names"),
            GenerationPlanError::UnsafeNames
        );
    }
}

#[test]
fn the_identifier_frames_names_and_contents_in_name_order() {
    let files = vec![
        GenerationFile {
            name: "b",
            contents: b"22",
        },
        GenerationFile {
            name: "a",
            contents: b"1",
        },
    ];
    let mut message = Vec::new();
    for (name, contents) in [("a", b"1".as_slice()), ("b", b"22".as_slice())] {
        message.extend(name.len().to_le_bytes());
        message.extend(name.as_bytes());
        message.extend(contents.len().to_le_bytes());
        message.extend(contents);
    }
    let plan = plan_generation(&files, Some("not-an-id")).expect("plan");
    assert_eq!(plan.generation_id, sha256_hex(&message));
    assert_eq!(plan.files[0].name, "a");
    assert!(plan.previous.is_none());
}

#[test]
fn a_taken_staging_name_is_tried_again_thirty_two_times() {
    let mut step = next_step(1, StagingStep::CreateRoot, StagingEvent::Done);
    for _ in 0..31 {
        step = next_step(1, step, StagingEvent::Present);
        assert!(matches!(step, StagingStep::CreateStaging { .. }));
    }
    assert_eq!(
        next_step(1, step, StagingEvent::Present),
        StagingStep::Failed
    );
}

// Keys, limits and parsing ----------------------------------------------------------------------

#[test]
fn url_hash_is_first_16_hex_of_sha256() {
    assert_eq!(
        url_hash_prefix("https://example.com/feed.txt"),
        "8d1ab0f09e05f237"
    );
}

#[test]
fn cache_paths_use_hash_suffixes() {
    let paths = cache_paths_for_url("/cache/remote", "https://example.com/feed.txt");
    assert_eq!(paths.iplist_path, "/cache/remote/8d1ab0f09e05f237.iplist");
    assert_eq!(paths.meta_path, "/cache/remote/8d1ab0f09e05f237.meta.json");
    assert_eq!(paths.raw_path, "/cache/remote/8d1ab0f09e05f237.raw");
}

#[test]
fn generation_stores_are_named_by_the_url_hash() {
    assert_eq!(
        remote_generation_store("/cache/remote", "https://example.com/feed.txt"),
        "/cache/remote/v2/remote/8d1ab0f09e05f237"
    );
    assert!(is_url_hash("8d1ab0f09e05f237"));
    assert!(!is_url_hash("8D1AB0F09E05F237"));
    assert!(!is_url_hash("8d1ab0f09e05f23"));
}

#[test]
fn max_body_bytes_env_override_is_supported() {
    let env = |value: &str| vec![("KIDOBO_MAX_HTTP_BODY_BYTES".to_string(), value.to_string())];
    assert_eq!(max_http_body_bytes(&env("12345")), 12345);
    assert_eq!(
        max_http_body_bytes(&env(&usize::MAX.to_string())),
        MAX_HTTP_BODY_BYTES
    );
    assert_eq!(
        max_http_body_bytes(&env("invalid")),
        DEFAULT_MAX_HTTP_BODY_BYTES
    );
    assert_eq!(max_http_body_bytes(&env("0")), DEFAULT_MAX_HTTP_BODY_BYTES);
    assert_eq!(max_http_body_bytes(&env(" 77 ")), 77);
    assert_eq!(
        max_http_body_bytes(&vec![("OTHER".to_string(), "5".to_string())]),
        DEFAULT_MAX_HTTP_BODY_BYTES
    );
    assert_eq!(ENV_KIDOBO_MAX_HTTP_BODY_BYTES, "KIDOBO_MAX_HTTP_BODY_BYTES");
}

#[test]
fn normalization_filters_and_canonicalizes_lines() {
    let raw = b"\xEF\xBB\xBF 10.0.0.5 \n# comment\ninvalid\n2001:db8::1 trailing\n";
    let normalized = normalize_remote_text(raw);
    assert_eq!(normalized, "10.0.0.5/32\n2001:db8::1/128");
}

#[test]
fn normalization_accepts_networks_in_first_csv_column() {
    let raw = b"ip,score\n161.117.138.100,0.164985\n2001:db8::1/64,0.125\ninvalid,203.0.113.7\n";

    let normalized = normalize_remote_text(raw);

    assert_eq!(normalized, "161.117.138.100/32\n2001:db8::/64");
}

#[test]
fn feed_limits_follow_the_set_capacity_between_floors_and_a_ceiling() {
    assert_eq!(
        RemoteFeedLimits::from_maxelem(1),
        RemoteFeedLimits {
            data_lines: 16_384,
            unique_cidrs: 4_096
        }
    );
    assert_eq!(
        RemoteFeedLimits::from_maxelem(10_000),
        RemoteFeedLimits {
            data_lines: 20_000,
            unique_cidrs: 20_000
        }
    );
    assert_eq!(
        RemoteFeedLimits::from_maxelem(u32::MAX),
        RemoteFeedLimits {
            data_lines: 1_000_000,
            unique_cidrs: 1_000_000
        }
    );
}

#[test]
fn the_first_broken_limit_is_reported() {
    let limits = RemoteFeedLimits {
        data_lines: 3,
        unique_cidrs: 2,
    };
    assert_eq!(
        parse_feed_text("10.0.0.1\n10.0.0.2\n10.0.0.3\n10.0.0.4\n", limits),
        Err(RemoteParseBudget::UniqueCidrs {
            observed: 3,
            limit: 2
        })
    );
    assert_eq!(
        parse_feed_text("10.0.0.1\n# note\n10.0.0.1\nbad\n10.0.0.9\n", limits),
        Err(RemoteParseBudget::DataLines {
            observed: 4,
            limit: 3
        })
    );
    let parsed = parse_feed_text("10.0.0.1\n\n10.0.0.1\nbad\n", limits).expect("within limits");
    assert_eq!(parsed.data_lines, 3);
    assert_eq!(parsed.invalid_lines, 1);
    assert_eq!(texts(&parsed.networks), ["10.0.0.1/32"]);
}

#[test]
fn bytes_that_are_no_text_are_replaced() {
    let limits = RemoteFeedLimits::from_maxelem(1);
    let parsed = parse_remote_cidrs_bounded(b"\xff\n10.0.0.1\n", limits).expect("parsed");
    assert_eq!(parsed.data_lines, 2);
    assert_eq!(parsed.invalid_lines, 1);
    assert_eq!(texts(&parsed.networks), ["10.0.0.1/32"]);
}

#[test]
fn a_written_list_reads_back() {
    let limits = RemoteFeedLimits::from_maxelem(1);
    let networks = parse_feed_text("10.0.0.1\n2001:db8::/64\n10.0.0.0/24\n", limits)
        .expect("parsed")
        .networks;
    let text = format_normalized_cidrs(&networks);
    assert_eq!(text, "10.0.0.0/24\n10.0.0.1/32\n2001:db8::/64");
    assert_eq!(
        parse_cached_iplist_bounded(&text, limits).expect("read back"),
        networks
    );
    assert_eq!(
        parse_cached_iplist_bounded("", limits).expect("empty"),
        Vec::new()
    );
}

#[test]
fn invalid_hash_blocks_cached_bytes() {
    let bytes = || Some(b"raw-body".to_vec());
    assert!(read_validated_bytes_lossy(bytes(), Some("not-the-right-hash")).is_none());
    assert_eq!(
        read_validated_bytes_lossy(bytes(), Some(&sha256_hex(b"raw-body"))),
        bytes()
    );
    assert_eq!(read_validated_bytes_lossy(bytes(), None), bytes());
    assert_eq!(
        sha256_hex(b""),
        "e3b0c44298fc1c149afbf4c8996fb92427ae41e4649b934ca495991b7852b855"
    );
}

// Refresh ---------------------------------------------------------------------------------------

const FEED: &str = "https://example.com/feed.txt";

fn write_legacy(disk: &Disk, url: &str, contents: &str) {
    disk.write(
        &cache_paths_for_url(ROOT, url).iplist_path,
        contents.as_bytes(),
    );
}

#[test]
fn staging_failure_uses_validated_current_or_previous_generation() {
    let url = "https://example.test/feed";
    for corrupt_current in [false, true] {
        let disk = Disk::default();
        for body in [b"203.0.113.0/24".as_slice(), b"198.51.100.0/24".as_slice()] {
            let client = MockHttpClient::new(vec![Ok(response(body))]);
            fetch(&disk, &client, url, &Vec::new()).expect("seed");
        }
        if corrupt_current {
            disk.write(
                &format!("{}/raw", current_directory(&disk, url)),
                b"corrupt",
            );
        }
        *disk.staging_blocked.borrow_mut() = true;
        let client = MockHttpClient::new(vec![Ok(response(b"192.0.2.0/24"))]);
        let prepared = prepare(&disk, &client, url, &Vec::new(), 100).expect("fallback");
        assert_eq!(prepared.loaded.source, CacheSource::FallbackCache);
        assert_eq!(
            prepared.loaded.networks[0].to_text(),
            if corrupt_current {
                "203.0.113.0/24"
            } else {
                "198.51.100.0/24"
            }
        );
        assert!(prepared.pending_promotion.is_none());
        assert_eq!(
            offline_generations(&disk)[0].iplist,
            format_normalized_cidrs(&prepared.loaded.networks)
        );
    }
}

#[test]
fn staging_failure_keeps_validated_legacy_including_empty_cache() {
    let url = "https://example.test/feed";
    for contents in [Some("203.0.113.0/24\n"), Some(""), None] {
        let disk = Disk::default();
        *disk.staging_blocked.borrow_mut() = true;
        if let Some(contents) = contents {
            write_legacy(&disk, url, contents);
        }
        let client = MockHttpClient::new(vec![Ok(response(b"198.51.100.0/24\n"))]);
        let result = prepare(&disk, &client, url, &Vec::new(), 100);
        if let Some(contents) = contents {
            let result = result.expect("validated fallback");
            assert_eq!(result.loaded.source, CacheSource::FallbackCache);
            assert_eq!(
                format_normalized_cidrs(&result.loaded.networks),
                contents.trim()
            );
            assert!(result.pending_promotion.is_none());
        } else {
            assert!(
                result.is_err(),
                "a staging error without cache must remain fatal"
            );
        }
    }
}

#[test]
fn identical_refresh_repairs_cache_for_offline_and_failed_fetch_reads() {
    let disk = Disk::default();
    let url = "https://example.test/feed";
    let body = b"203.0.113.0/24\n";
    let client = MockHttpClient::new(vec![Ok(response(body)), Ok(response(body)), offline()]);
    fetch(&disk, &client, url, &Vec::new()).expect("seed");
    disk.write(
        &format!("{}/raw", current_directory(&disk, url)),
        b"corrupt",
    );
    fetch(&disk, &client, url, &Vec::new()).expect("repair");
    let cached = load_cache(&disk, url, RemoteFeedLimits::from_maxelem(100));
    assert_eq!(cached.networks.expect("cache").len(), 1);
    let fallback = fetch(&disk, &client, url, &Vec::new()).expect("fallback");
    assert_eq!(fallback.source, CacheSource::FallbackCache);
    assert_eq!(fallback.networks[0].to_text(), "203.0.113.0/24");
}

#[test]
fn a_dropped_refresh_leaves_a_damaged_generation_repaired() {
    let disk = Disk::default();
    let url = "https://example.test/feed";
    let body = b"203.0.113.0/24\n";
    let client = MockHttpClient::new(vec![Ok(response(body)), Ok(response(body))]);
    fetch(&disk, &client, url, &Vec::new()).expect("seed");
    let raw = format!("{}/raw", current_directory(&disk, url));
    disk.write(&raw, b"corrupt");
    let limits = RemoteFeedLimits::from_maxelem(100);
    assert!(load_cache(&disk, url, limits).networks.is_none());

    let prepared = prepare(&disk, &client, url, &Vec::new(), 100).expect("prepare");
    let staged = prepared.pending_promotion.expect("staged");
    assert_eq!(staged.abandoned_directory(), None);
    discard(&disk, &staged);

    assert_eq!(disk.read(&raw).expect("raw"), body);
    assert_eq!(
        texts(&load_cache(&disk, url, limits).networks.expect("cache")),
        ["203.0.113.0/24"]
    );
}

#[test]
fn a_dropped_repair_behind_a_usable_generation_is_invisible() {
    let disk = Disk::default();
    let url = "https://example.test/feed";
    let first = b"203.0.113.0/24\n";
    let second = b"198.51.100.0/24\n";
    let client = MockHttpClient::new(vec![
        Ok(response(first)),
        Ok(response(second)),
        Ok(response(first)),
        offline(),
    ]);
    fetch(&disk, &client, url, &Vec::new()).expect("first");
    fetch(&disk, &client, url, &Vec::new()).expect("second");
    let store = remote_generation_store(ROOT, url);
    let previous = candidates(&disk, &store)[1].directory.clone();
    disk.write(&format!("{previous}/raw"), b"corrupt");
    let manifest = disk.read(&format!("{store}/current.json"));

    let prepared = prepare(&disk, &client, url, &Vec::new(), 100).expect("prepare");
    discard(&disk, &prepared.pending_promotion.expect("staged"));

    assert_eq!(disk.read(&format!("{store}/current.json")), manifest);
    let fallback = fetch(&disk, &client, url, &Vec::new()).expect("fallback");
    assert_eq!(fallback.source, CacheSource::FallbackCache);
    assert_eq!(texts(&fallback.networks), ["198.51.100.0/24"]);
}

#[test]
fn csv_network_response_replaces_existing_cache() {
    let disk = Disk::default();
    let url = "https://example.com/feed.csv";
    write_legacy(&disk, url, "10.0.0.0/24\n");

    let body = b"ip,score\n161.117.138.100,0.164985\n";
    let client = MockHttpClient::new(vec![Ok(response(body))]);
    let result = fetch(&disk, &client, url, &Vec::new()).expect("fetch");

    assert_eq!(result.source, CacheSource::Network);
    assert_eq!(result.networks.len(), 1);
    let generation = current_directory(&disk, url);
    assert_eq!(
        disk.read(&format!("{generation}/iplist")).expect("iplist"),
        b"161.117.138.100/32"
    );
    assert_eq!(
        disk.read(&format!("{generation}/raw")).expect("raw"),
        body
    );
    assert_eq!(
        disk.read(&cache_paths_for_url(ROOT, url).iplist_path)
            .expect("legacy"),
        b"10.0.0.0/24\n"
    );
}

#[test]
fn sends_conditional_headers_from_metadata() {
    let disk = Disk::default();
    write_legacy(&disk, FEED, "10.0.0.0/24\n");
    disk.write(
        &cache_paths_for_url(ROOT, FEED).meta_path,
        &metadata_bytes(&RemoteCacheMetadata {
            url: FEED.to_string(),
            etag: Some("etag-1".to_string()),
            last_modified: Some("Mon, 01 Jan 2024 00:00:00 GMT".to_string()),
            sha256_raw: sha256_hex(b"raw"),
            sha256_iplist: sha256_hex(b"10.0.0.0/24\n"),
        }),
    );
    let client = MockHttpClient::new(vec![Ok(HttpResponse {
        status: 304,
        body: Vec::new(),
        etag: None,
        last_modified: None,
    })]);

    let result = fetch(&disk, &client, FEED, &Vec::new()).expect("fetch");
    assert_eq!(result.source, CacheSource::CacheNotModified);
    assert_eq!(result.networks.len(), 1);

    let requests = client.requests();
    assert_eq!(requests.len(), 1);
    assert_eq!(requests[0].if_none_match.as_deref(), Some("etag-1"));
    assert_eq!(
        requests[0].if_modified_since.as_deref(),
        Some("Mon, 01 Jan 2024 00:00:00 GMT")
    );
}

#[test]
fn http_cache_status_304_without_cache_triggers_unconditional_refetch() {
    let disk = Disk::default();
    let client = MockHttpClient::new(vec![
        Ok(HttpResponse {
            status: 304,
            body: Vec::new(),
            etag: None,
            last_modified: None,
        }),
        Ok(HttpResponse {
            status: 200,
            body: b"198.51.100.7".to_vec(),
            etag: Some("etag-2".to_string()),
            last_modified: Some("Tue, 02 Jan 2024 00:00:00 GMT".to_string()),
        }),
    ]);

    let result = fetch(&disk, &client, FEED, &Vec::new()).expect("fetch");
    assert_eq!(result.source, CacheSource::Network);
    assert_eq!(result.networks.len(), 1);

    let requests = client.requests();
    assert_eq!(requests.len(), 2);
    assert_eq!(requests[1].if_none_match, None);
    assert_eq!(requests[1].if_modified_since, None);

    let generation = current_directory(&disk, FEED);
    for member in ["iplist", "meta.json", "raw"] {
        assert!(disk.read(&format!("{generation}/{member}")).is_some());
    }
}

#[test]
fn network_error_falls_back_to_cache() {
    let disk = Disk::default();
    write_legacy(&disk, FEED, "10.0.0.0/24\n");
    let client = MockHttpClient::new(vec![offline()]);

    let result = fetch(&disk, &client, FEED, &Vec::new()).expect("fetch");
    assert_eq!(result.source, CacheSource::FallbackCache);
    assert_eq!(result.networks.len(), 1);
}

#[test]
fn unexpected_status_falls_back_to_existing_cache_without_overwriting() {
    let disk = Disk::default();
    write_legacy(&disk, FEED, "10.0.0.0/24\n");
    let client = MockHttpClient::new(vec![Ok(HttpResponse {
        status: 500,
        body: b"198.51.100.7".to_vec(),
        etag: Some("etag-new".to_string()),
        last_modified: Some("Tue, 02 Jan 2024 00:00:00 GMT".to_string()),
    })]);

    let result = fetch(&disk, &client, FEED, &Vec::new()).expect("fetch");
    assert_eq!(result.source, CacheSource::FallbackCache);
    assert_eq!(result.networks.len(), 1);
    assert_eq!(
        disk.read(&cache_paths_for_url(ROOT, FEED).iplist_path)
            .expect("legacy"),
        b"10.0.0.0/24\n"
    );
    assert!(candidates(&disk, &remote_generation_store(ROOT, FEED)).is_empty());
}

#[test]
fn successful_fetch_persists_normalized_iplist_and_raw_body_separately() {
    let disk = Disk::default();
    let body = b"\xEF\xBB\xBF 10.0.0.5 \n# comment\ninvalid\n2001:db8::1 trailing\n";
    let client = MockHttpClient::new(vec![Ok(HttpResponse {
        status: 200,
        body: body.to_vec(),
        etag: Some("etag-1".to_string()),
        last_modified: Some("Mon, 01 Jan 2024 00:00:00 GMT".to_string()),
    })]);

    let result = fetch(&disk, &client, FEED, &Vec::new()).expect("fetch");
    assert_eq!(result.source, CacheSource::Network);
    assert_eq!(result.networks.len(), 2);
    let generation = current_directory(&disk, FEED);
    assert_eq!(
        disk.read(&format!("{generation}/iplist")).expect("iplist"),
        b"10.0.0.5/32\n2001:db8::1/128"
    );
    assert_eq!(
        disk.read(&format!("{generation}/raw")).expect("raw"),
        body
    );
    let metadata =
        metadata_from(&disk.read(&format!("{generation}/meta.json")).expect("metadata"))
            .expect("metadata json");
    assert_eq!(metadata.url, FEED);
    assert_eq!(metadata.etag.as_deref(), Some("etag-1"));
    assert_eq!(
        metadata.last_modified.as_deref(),
        Some("Mon, 01 Jan 2024 00:00:00 GMT")
    );
    assert_eq!(metadata.sha256_raw, sha256_hex(body));
}

#[test]
fn http_cache_corrupt_current_generation_falls_back_to_previous_then_legacy() {
    let disk = Disk::default();
    for body in [b"10.0.0.0/24\n".as_slice(), b"198.51.100.0/24\n".as_slice()] {
        fetch(
            &disk,
            &MockHttpClient::new(vec![Ok(response(body))]),
            FEED,
            &Vec::new(),
        )
        .expect("generation");
    }
    let selected = candidates(&disk, &remote_generation_store(ROOT, FEED));
    assert_eq!(selected.len(), 2);
    disk.write(&format!("{}/iplist", selected[0].directory), b"corrupt\n");
    let fallback = fetch(
        &disk,
        &MockHttpClient::new(vec![offline()]),
        FEED,
        &Vec::new(),
    )
    .expect("previous fallback");
    assert_eq!(fallback.source, CacheSource::FallbackCache);
    assert_eq!(texts(&fallback.networks), ["10.0.0.0/24"]);

    disk.write(
        &format!("{}/iplist", selected[1].directory),
        b"also corrupt\n",
    );
    write_legacy(&disk, FEED, "203.0.113.0/24\n");
    let fallback = fetch(
        &disk,
        &MockHttpClient::new(vec![offline()]),
        FEED,
        &Vec::new(),
    )
    .expect("legacy fallback");
    assert_eq!(texts(&fallback.networks), ["203.0.113.0/24"]);
}

#[test]
fn successful_commits_retain_only_current_and_previous_generations() {
    let disk = Disk::default();
    for body in [
        b"10.0.0.0/24\n".as_slice(),
        b"198.51.100.0/24\n".as_slice(),
        b"203.0.113.0/24\n".as_slice(),
    ] {
        fetch(
            &disk,
            &MockHttpClient::new(vec![Ok(response(body))]),
            FEED,
            &Vec::new(),
        )
        .expect("commit generation");
    }
    let store = remote_generation_store(ROOT, FEED);
    assert_eq!(candidates(&disk, &store).len(), 2);
    assert_eq!(disk.directories(&format!("{store}/generations")).len(), 2);
}

#[test]
fn all_invalid_network_body_preserves_existing_cache() {
    let disk = Disk::default();
    write_legacy(&disk, FEED, "10.0.0.0/24\n");
    let client = MockHttpClient::new(vec![Ok(HttpResponse {
        status: 200,
        body: b"not-a-network\nalso-invalid\n".to_vec(),
        etag: Some("bad-etag".to_string()),
        last_modified: None,
    })]);

    let result = fetch(&disk, &client, FEED, &Vec::new()).expect("fetch");

    assert_eq!(result.source, CacheSource::FallbackCache);
    assert_eq!(result.networks.len(), 1);
    assert_eq!(disk.files.borrow().len(), 1);
}

#[test]
fn all_invalid_network_body_without_cache_stays_empty_and_unpersisted() {
    let disk = Disk::default();
    let client = MockHttpClient::new(vec![Ok(response(b"invalid\n"))]);

    let result = fetch(&disk, &client, FEED, &Vec::new()).expect("fetch");

    assert_eq!(result.source, CacheSource::Empty);
    assert!(result.networks.is_empty());
    assert!(disk.files.borrow().is_empty());
}

#[test]
fn comment_only_network_body_is_an_intentional_empty_feed() {
    let disk = Disk::default();
    let body = b"# intentionally empty\n\n";
    let client = MockHttpClient::new(vec![Ok(response(body))]);

    let result = fetch(&disk, &client, FEED, &Vec::new()).expect("fetch");

    assert_eq!(result.source, CacheSource::Network);
    assert!(result.networks.is_empty());
    let generation = current_directory(&disk, FEED);
    assert_eq!(
        disk.read(&format!("{generation}/iplist")).expect("iplist"),
        b""
    );
    assert_eq!(
        disk.read(&format!("{generation}/raw")).expect("raw"),
        body
    );
    assert!(disk.read(&format!("{generation}/meta.json")).is_some());
}

#[test]
fn body_size_cap_falls_back_to_existing_cache() {
    let disk = Disk::default();
    write_legacy(&disk, FEED, "10.0.0.0/24\n");
    let client = MockHttpClient::new(vec![Ok(response(b"10.0.0.1\n"))]);
    let env = vec![("KIDOBO_MAX_HTTP_BODY_BYTES".to_string(), "1".to_string())];

    let result = fetch(&disk, &client, FEED, &env).expect("fetch");
    assert_eq!(result.source, CacheSource::FallbackCache);
    assert_eq!(result.networks.len(), 1);
    assert_eq!(client.requests()[0].max_body_bytes, 1);
}

#[test]
fn invalid_metadata_cache_does_not_block_stale_iplist_fallback() {
    let disk = Disk::default();
    write_legacy(&disk, FEED, "10.0.0.0/24\n");
    disk.write(
        &cache_paths_for_url(ROOT, FEED).meta_path,
        b"{invalid-json",
    );
    let client = MockHttpClient::new(vec![offline()]);

    let result = fetch(&disk, &client, FEED, &Vec::new()).expect("fetch");

    assert_eq!(result.source, CacheSource::FallbackCache);
    assert_eq!(result.networks.len(), 1);
    let requests = client.requests();
    assert_eq!(requests.len(), 1);
    assert_eq!(requests[0].if_none_match, None);
    assert_eq!(requests[0].if_modified_since, None);
}

#[test]
fn iplist_hash_mismatch_blocks_cached_fallback() {
    let disk = Disk::default();
    write_legacy(&disk, FEED, "10.0.0.0/24\n");
    disk.write(
        &cache_paths_for_url(ROOT, FEED).meta_path,
        &metadata_bytes(&RemoteCacheMetadata {
            url: FEED.to_string(),
            etag: Some("etag-1".to_string()),
            last_modified: Some("Mon, 01 Jan 2024 00:00:00 GMT".to_string()),
            sha256_raw: sha256_hex(b"raw"),
            sha256_iplist: sha256_hex(b"198.51.100.0/24\n"),
        }),
    );
    let client = MockHttpClient::new(vec![offline()]);

    let result = fetch(&disk, &client, FEED, &Vec::new()).expect("fetch");

    assert_eq!(result.source, CacheSource::Empty);
    assert!(result.networks.is_empty());
}

#[test]
fn body_size_cap_enforced() {
    let disk = Disk::default();
    let client = MockHttpClient::new(vec![Ok(response(b"10.0.0.1\n"))]);
    let env = vec![("KIDOBO_MAX_HTTP_BODY_BYTES".to_string(), "1".to_string())];

    let result = fetch(&disk, &client, FEED, &env).expect("fetch");
    assert_eq!(result.source, CacheSource::Empty);
    assert!(result.networks.is_empty());
}

#[test]
fn staged_response_is_invisible_until_manifest_promotion() {
    let disk = Disk::default();
    fetch(
        &disk,
        &MockHttpClient::new(vec![Ok(response(b"192.0.2.0/24\n"))]),
        FEED,
        &Vec::new(),
    )
    .expect("initial fetch");
    let manifest = format!("{}/current.json", remote_generation_store(ROOT, FEED));
    let before = disk.read(&manifest).expect("selected manifest");

    let prepared = prepare(
        &disk,
        &MockHttpClient::new(vec![Ok(response(b"198.51.100.0/24\n"))]),
        FEED,
        &Vec::new(),
        100,
    )
    .expect("prepare response");
    assert_eq!(prepared.loaded.source, CacheSource::Network);
    assert_eq!(disk.read(&manifest).expect("manifest"), before);
    discard(&disk, &prepared.pending_promotion.expect("staged"));

    let fallback = fetch(
        &disk,
        &MockHttpClient::new(vec![offline()]),
        FEED,
        &Vec::new(),
    )
    .expect("fallback");
    assert_eq!(fallback.source, CacheSource::FallbackCache);
    assert_eq!(texts(&fallback.networks), ["192.0.2.0/24"]);
}

#[test]
fn duplicate_and_sparse_feeds_hit_distinct_parser_budgets() {
    let disk = Disk::default();
    let duplicate_body = "192.0.2.1\n".repeat(16_385);
    let duplicate = prepare(
        &disk,
        &MockHttpClient::new(vec![Ok(response(duplicate_body.as_bytes()))]),
        FEED,
        &Vec::new(),
        1,
    )
    .expect("duplicate rejection is a soft empty result");
    assert_eq!(duplicate.loaded.source, CacheSource::Empty);
    assert!(duplicate.pending_promotion.is_none());

    let mut sparse_body = String::new();
    for index in 0..4_097 {
        sparse_body.push_str(&format!("10.0.{}.{}\n", index / 256, index % 256));
    }
    let sparse = prepare(
        &disk,
        &MockHttpClient::new(vec![Ok(response(sparse_body.as_bytes()))]),
        FEED,
        &Vec::new(),
        1,
    )
    .expect("unique rejection is a soft empty result");
    assert_eq!(sparse.loaded.source, CacheSource::Empty);
    assert!(sparse.pending_promotion.is_none());
    assert!(disk.files.borrow().is_empty());

    let limits = RemoteFeedLimits::from_maxelem(1);
    assert_eq!(
        parse_feed_text(&duplicate_body, limits),
        Err(RemoteParseBudget::DataLines {
            observed: 16_385,
            limit: 16_384
        })
    );
    assert_eq!(
        parse_feed_text(&sparse_body, limits),
        Err(RemoteParseBudget::UniqueCidrs {
            observed: 4_097,
            limit: 4_096
        })
    );
}

#[test]
fn unreadable_legacy_lists_are_reported() {
    let error = read_remote_cache(
        FEED,
        Vec::new(),
        "/cache/remote/a.iplist",
        LegacyIplist::Unreadable("file exceeds limit".to_string()),
        None,
        RemoteFeedLimits::from_maxelem(1),
    )
    .expect_err("unreadable");
    assert_eq!(
        error.message(),
        "failed to read iplist cache /cache/remote/a.iplist: file exceeds limit"
    );
    assert_eq!(
        HttpCacheError::WriteRaw {
            path: "p".to_string(),
            reason: "r".to_string()
        }
        .message(),
        "failed to write raw cache p: r"
    );
    assert_eq!(
        HttpClientError::Initialization {
            reason: "tls".to_string()
        }
        .message(),
        "http client initialization failed: tls"
    );
}

// Offline sources -------------------------------------------------------------------------------

fn offline_generations(disk: &Disk) -> Vec<OfflineRemoteGeneration> {
    let root = format!("{ROOT}/v2/remote");
    let stores = disk
        .directories(&root)
        .into_iter()
        .map(|name| {
            let store = format!("{root}/{name}");
            RemoteStoreReading {
                name,
                is_directory: true,
                generations: candidates(disk, &store)
                    .into_iter()
                    .map(|candidate| stored(disk, candidate))
                    .collect(),
            }
        })
        .collect();
    collect_offline_remote_generations(stores)
}

fn remote_sources(disk: &Disk) -> Result<Vec<CachedRemoteSource>, SourceLoadError> {
    let mut files = Vec::new();
    for (path, contents) in disk.files.borrow().iter() {
        let Some(name) = path.strip_prefix(&format!("{ROOT}/")) else {
            continue;
        };
        let Some(stem) = name.strip_suffix(".iplist") else {
            continue;
        };
        let metadata: Option<Value> = disk
            .read(&format!("{ROOT}/{stem}.meta.json"))
            .and_then(|bytes| serde_json::from_slice(&bytes).ok());
        let expected = metadata
            .as_ref()
            .and_then(|value| optional_text(value.get("sha256_iplist")));
        files.push(LegacySourceFile {
            path: path.clone(),
            stem: Some(stem.to_string()),
            file_name: name.to_string(),
            metadata_url: metadata
                .as_ref()
                .and_then(|value| optional_text(value.get("url"))),
            contents: read_remote_cache_iplist_text(
                String::from_utf8(contents.clone()).expect("text"),
                expected.as_deref(),
            ),
        });
    }
    load_remote_sources(offline_generations(disk), files)
}

#[test]
fn loads_remote_sources_and_sorts_by_resolved_label() {
    let disk = Disk::default();
    disk.write(&format!("{ROOT}/a.iplist"), b"2001:db8::/64\n");
    disk.write(&format!("{ROOT}/b.iplist"), b"10.0.0.0/24\n");
    disk.write(
        &format!("{ROOT}/a.meta.json"),
        br#"{"url":"https://example.com/z.txt"}"#,
    );
    disk.write(
        &format!("{ROOT}/b.meta.json"),
        br#"{"url":"https://example.com/a.txt"}"#,
    );

    let sources = remote_sources(&disk).expect("load");
    assert_eq!(sources.len(), 2);
    assert_eq!(sources[0].label, "https://example.com/a.txt");
    assert_eq!(sources[0].entries[0].source_line, "10.0.0.0/24");
    assert_eq!(sources[1].label, "https://example.com/z.txt");
}

#[test]
fn label_falls_back_when_metadata_missing() {
    let disk = Disk::default();
    disk.write(&format!("{ROOT}/a.iplist"), b"2001:db8::/64\n");

    let sources = remote_sources(&disk).expect("load");
    assert_eq!(sources[0].label, "remote:a.iplist");
}

#[test]
fn hash_mismatch_is_reported() {
    let disk = Disk::default();
    disk.write(&format!("{ROOT}/a.iplist"), b"203.0.113.0/24\n");
    disk.write(
        &format!("{ROOT}/a.meta.json"),
        format!(
            "{{\"url\":\"https://example.com/a.txt\",\"etag\":null,\"last_modified\":null,\"sha256_raw\":\"{}\",\"sha256_iplist\":\"{}\"}}",
            sha256_hex(b"raw"),
            sha256_hex(b"198.51.100.0/24\n")
        )
        .as_bytes(),
    );

    match remote_sources(&disk).expect_err("must fail") {
        SourceLoadError::Source { reason, .. } => {
            assert!(reason.contains("hash mismatch"));
        }
        _ => panic!("unexpected error variant"),
    }
}

#[test]
fn loads_v2_generations_deterministically_without_duplicate_legacy_entries() {
    let disk = Disk::default();
    for (url, iplist) in [
        ("https://example.com/z.txt", "2001:db8::/64"),
        ("https://example.com/a.txt", "10.0.0.0/24"),
    ] {
        fetch(
            &disk,
            &MockHttpClient::new(vec![Ok(response(iplist.as_bytes()))]),
            url,
            &Vec::new(),
        )
        .expect("commit generation");
    }
    let duplicate_hash = url_hash_prefix("https://example.com/a.txt");
    disk.write(
        &format!("{ROOT}/{duplicate_hash}.iplist"),
        b"203.0.113.0/24\n",
    );

    let loaded = remote_sources(&disk).expect("load");

    assert_eq!(loaded.len(), 2);
    assert_eq!(loaded[0].label, "https://example.com/a.txt");
    assert_eq!(loaded[0].entries[0].source_line, "10.0.0.0/24");
    assert_eq!(loaded[1].label, "https://example.com/z.txt");
    assert_eq!(loaded[1].entries[0].source_line, "2001:db8::/64");
}

#[test]
fn entries_that_are_no_stores_are_skipped() {
    let generations = collect_offline_remote_generations(vec![
        RemoteStoreReading {
            name: "8d1ab0f09e05f237".to_string(),
            is_directory: false,
            generations: Vec::new(),
        },
        RemoteStoreReading {
            name: "notes".to_string(),
            is_directory: true,
            generations: Vec::new(),
        },
    ]);
    assert!(generations.is_empty());
}

// Aggregation -----------------------------------------------------------------------------------

/// A staged generation on the in-memory disk: promotion selects it, and dropping it discards it.
struct DiskPromotion {
    disk: Rc<Disk>,
    staged: Option<StagedGeneration>,
}

impl PendingCachePromotion for DiskPromotion {
    fn promote(mut self: Box<Self>) -> Result<(), String> {
        let staged = self.staged.take().expect("staged once");
        promote(&self.disk, staged);
        Ok(())
    }
}

impl Drop for DiskPromotion {
    fn drop(&mut self) {
        if let Some(staged) = &self.staged {
            discard(&self.disk, staged);
        }
    }
}

struct DiskFetcher<F: Fn(&str) -> Result<HttpResponse, HttpClientError>> {
    disk: Rc<Disk>,
    waves: RefCell<Vec<Vec<String>>>,
    started: RefCell<usize>,
    finished: RefCell<usize>,
    respond: F,
}

impl<F: Fn(&str) -> Result<HttpResponse, HttpClientError>> HttpClient for DiskFetcher<F> {
    fn fetch(&self, request: HttpRequest) -> Result<HttpResponse, HttpClientError> {
        *self.started.borrow_mut() += 1;
        let reply = (self.respond)(&request.url);
        *self.finished.borrow_mut() += 1;
        reply
    }
}

impl<F: Fn(&str) -> Result<HttpResponse, HttpClientError>> FeedFetcher for DiskFetcher<F> {
    fn fetch_feeds(&self, request: FeedRequest<'_>) -> Vec<FeedReply> {
        self.waves.borrow_mut().push(request.urls.clone());
        let mut replies = request
            .urls
            .iter()
            .enumerate()
            .map(|(index, url)| FeedReply {
                index,
                result: prepare(&self.disk, self, url, request.env, request.maxelem).map(
                    |prepared| PreparedFeed {
                        networks: prepared.loaded.networks,
                        promotion: prepared.pending_promotion.map(|staged| StagedPromotion {
                            selection: Box::new(DiskPromotion {
                                disk: Rc::clone(&self.disk),
                                staged: Some(staged),
                            }),
                        }),
                    },
                ),
            })
            .collect::<Vec<_>>();
        replies.reverse();
        replies
    }
}

fn disk_fetcher<F: Fn(&str) -> Result<HttpResponse, HttpClientError>>(
    disk: &Rc<Disk>,
    respond: F,
) -> DiskFetcher<F> {
    DiskFetcher {
        disk: Rc::clone(disk),
        waves: RefCell::new(Vec::new()),
        started: RefCell::new(0),
        finished: RefCell::new(0),
        respond,
    }
}

/// Nothing of the feed was selected, and nothing that was staged is left.
fn is_unselected(disk: &Disk, url: &str) -> bool {
    let store = remote_generation_store(ROOT, url);
    disk.read(&format!("{store}/current.json")).is_none()
        && disk.directories(&format!("{store}/generations")).is_empty()
}

struct ScriptedFetcher<F: Fn(&str) -> Result<PreparedFeed, HttpCacheError>> {
    feed: F,
}

impl<F: Fn(&str) -> Result<PreparedFeed, HttpCacheError>> FeedFetcher for ScriptedFetcher<F> {
    fn fetch_feeds(&self, request: FeedRequest<'_>) -> Vec<FeedReply> {
        request
            .urls
            .iter()
            .enumerate()
            .map(|(index, url)| FeedReply {
                index,
                result: (self.feed)(url),
            })
            .collect()
    }
}

fn feed_of(text: &str) -> Result<PreparedFeed, HttpCacheError> {
    Ok(PreparedFeed {
        networks: parse_feed_text(text, RemoteFeedLimits::from_maxelem(u32::MAX))
            .expect("feed")
            .networks,
        promotion: None,
    })
}

fn aggregate(
    fetcher: &impl FeedFetcher,
    urls: &Vec<String>,
    maxelem: u32,
    cancellation: &dyn Cancellation,
) -> Result<kidobo::workflow::source::SyncSourceLoad, AppError> {
    prepare_remote_networks_in_chunks(
        fetcher,
        FeedRequest {
            urls,
            user_agent: &"kidobo/1.2.3".to_string(),
            timeout_secs: 30,
            cache_dir: &ROOT.to_string(),
            env: &Vec::new(),
            maxelem,
        },
        cancellation,
    )
}

#[test]
fn remote_loading_is_bounded_concurrent_and_deterministic() {
    let urls = (1..=8)
        .map(|index| format!("https://example.test/{index}"))
        .collect::<Vec<_>>();
    let disk = Rc::new(Disk::default());
    let fetcher = disk_fetcher(&disk, |url| {
        let final_octet = url.rsplit('/').next().unwrap_or("1");
        Ok(response(format!("198.51.100.{final_octet}\n").as_bytes()))
    });

    let loaded = aggregate(&fetcher, &urls, 65_536, &NoCancellation).expect("preparation");

    assert_eq!(
        texts(&loaded.primary.networks),
        (1..=8)
            .map(|index| format!("198.51.100.{index}/32"))
            .collect::<Vec<_>>()
    );
    assert!(loaded.primary.notices.is_empty());
    assert_eq!(loaded.pending_promotions.len(), 8);
    let waves = fetcher.waves.borrow();
    assert_eq!(waves.len(), 2);
    assert_eq!(waves[0].len(), MAX_REMOTE_FETCH_WORKERS);
    assert_eq!(waves[1].len(), 3);
}

#[test]
fn aggregate_budget_rejection_drops_every_staged_generation() {
    let urls = (0..3)
        .map(|index| format!("https://example.test/{index}"))
        .collect::<Vec<_>>();
    let disk = Rc::new(Disk::default());
    let fetcher = disk_fetcher(&disk, |url| {
        let body = match url.rsplit('/').next().unwrap_or_default() {
            "0" | "1" => {
                let first = if url.ends_with('0') { 10 } else { 11 };
                let mut body = String::new();
                for index in 0..4_096 {
                    body.push_str(&format!("{first}.0.{}.{}\n", index / 256, index % 256));
                }
                body
            }
            _ => "12.0.0.1\n".to_string(),
        };
        Ok(response(body.as_bytes()))
    });

    let Err(error) = aggregate(&fetcher, &urls, 1, &NoCancellation) else {
        panic!("8,193 distinct entries must exceed the aggregate floor");
    };

    assert!(matches!(
        error,
        AppError::SourceAggregateBudgetExceeded {
            entries: 8_193,
            limit: 8_192
        }
    ));
    for url in &urls {
        assert!(is_unselected(&disk, url));
    }
}

struct CancelAfterFirstFetch<'a, F: Fn(&str) -> Result<HttpResponse, HttpClientError>> {
    fetcher: &'a DiskFetcher<F>,
}

impl<F: Fn(&str) -> Result<HttpResponse, HttpClientError>> Cancellation
    for CancelAfterFirstFetch<'_, F>
{
    fn is_cancelled(&self) -> bool {
        *self.fetcher.started.borrow() > 0
    }
}

#[test]
fn cancellation_joins_active_fetches_and_never_starts_another_wave() {
    let urls = (0..12)
        .map(|index| format!("https://example.test/{index}"))
        .collect::<Vec<_>>();
    let disk = Rc::new(Disk::default());
    let fetcher = disk_fetcher(&disk, |_| Ok(response(b"203.0.113.0/24")));
    let cancellation = CancelAfterFirstFetch { fetcher: &fetcher };
    let result = aggregate(&fetcher, &urls, 100, &cancellation);
    assert!(matches!(result, Err(AppError::Interrupted)));
    assert_eq!(*fetcher.started.borrow(), MAX_REMOTE_FETCH_WORKERS);
    assert_eq!(*fetcher.finished.borrow(), MAX_REMOTE_FETCH_WORKERS);
    assert_eq!(fetcher.waves.borrow().len(), 1);
    for url in &urls {
        assert!(is_unselected(&disk, url));
    }
}

#[test]
fn remote_staging_failure_without_cache_propagates_as_hard_error() {
    let disk = Rc::new(Disk::default());
    *disk.staging_blocked.borrow_mut() = true;
    let url = "https://example.test/feed".to_string();
    let fetcher = disk_fetcher(&disk, |_| Ok(response(b"192.0.2.1\n")));
    let result = aggregate(&fetcher, &vec![url.clone()], 100, &NoCancellation);
    let Err(error) = result else {
        panic!("staging failure must be reported");
    };
    assert!(matches!(error, AppError::CacheStaging { .. }));
    assert_eq!(
        error.message(),
        format!(
            "cache staging failed for source provider `remote-feeds`: https://example.test/feed: failed to write metadata cache {}/current.json: staging failed",
            remote_generation_store(ROOT, &url)
        )
    );
}

#[test]
fn unreadable_feeds_are_left_out_with_a_warning() {
    let fetcher = ScriptedFetcher {
        feed: |url: &str| {
            if url.ends_with('0') {
                Err(HttpCacheError::ReadIplist {
                    path: "/cache/a.iplist".to_string(),
                    reason: "too large".to_string(),
                })
            } else {
                feed_of("192.0.2.1\n")
            }
        },
    };
    let urls = vec!["https://e.test/0".to_string(), "https://e.test/1".to_string()];
    let loaded = aggregate(&fetcher, &urls, 100, &NoCancellation).expect("soft failure");
    assert_eq!(texts(&loaded.primary.networks), ["192.0.2.1/32"]);
    assert_eq!(
        loaded.primary.notices[0].message,
        "remote source fetch failed softly: source provider `remote-feeds` failed: https://e.test/0: failed to read iplist cache /cache/a.iplist: too large"
    );
}

#[test]
fn duplicate_urls_share_one_staged_generation_and_leave_a_usable_cache() {
    let disk = Rc::new(Disk::default());
    let url = "https://example.test/duplicate".to_string();
    let calls = RefCell::new(0);
    let fetcher = disk_fetcher(&disk, |_| {
        *calls.borrow_mut() += 1;
        let body = if *calls.borrow() == 1 {
            "192.0.2.1\n"
        } else {
            "198.51.100.1\n"
        };
        Ok(response(body.as_bytes()))
    });

    let loaded = aggregate(&fetcher, &vec![url.clone(), url.clone()], 65_536, &NoCancellation)
        .expect("duplicate URLs should load once");

    assert_eq!(*calls.borrow(), 1);
    assert_eq!(loaded.pending_promotions.len(), 1);
    for promotion in loaded.pending_promotions {
        promotion.selection.promote().expect("promote staged cache");
    }
    assert!(!is_unselected(&disk, &url));

    let failing = disk_fetcher(&disk, |_| offline());
    let cached = aggregate(&failing, &vec![url], 65_536, &NoCancellation)
        .expect("cached production load");
    assert_eq!(cached.primary.networks, loaded.primary.networks);
    assert!(cached.primary.notices.is_empty());
}

// Diagnostics -----------------------------------------------------------------------------------

fn current_generation(disk: &Disk) -> StoredGeneration {
    let candidate = candidates(disk, &remote_generation_store(ROOT, FEED))
        .into_iter()
        .next()
        .expect("current generation");
    stored(disk, candidate)
}

/// A generation whose files are replaced, under the identifier of the new files.
fn rewritten(generation: &StoredGeneration, iplist: &[u8], metadata: &[u8]) -> StoredGeneration {
    let raw = generation.reading.raw.clone().expect("raw");
    let files = remote_generation_files(&raw, iplist, metadata);
    let id = plan_generation(&files, None).expect("plan").generation_id;
    StoredGeneration {
        candidate: GenerationCandidate {
            id,
            directory: generation.candidate.directory.clone(),
        },
        reading: RemoteGenerationReading {
            raw: Some(raw),
            iplist_bytes: Some(iplist.to_vec()),
            iplist: String::from_utf8(iplist.to_vec()).ok(),
            metadata: metadata_from(metadata),
            metadata_bytes: Some(metadata.to_vec()),
        },
    }
}

#[test]
fn each_fault_of_a_generation_is_told_apart() {
    let disk = Disk::default();
    let client = MockHttpClient::new(vec![Ok(response(b"192.0.2.0/24\n198.51.100.0/24\n"))]);
    fetch(&disk, &client, FEED, &Vec::new()).expect("seed");
    let good = current_generation(&disk);
    let limits = RemoteFeedLimits::from_maxelem(100);
    let fault = |stored: &StoredGeneration| {
        let fault = generation_fault(stored, Some(FEED), Some(limits));
        let cache = read_remote_cache(
            FEED,
            vec![stored.clone()],
            "legacy",
            LegacyIplist::Missing,
            None,
            limits,
        );
        assert_eq!(cache.expect("cache").networks.is_some(), fault.is_none());
        fault
    };
    assert_eq!(fault(&good), None);
    assert_eq!(generation_fault(&good, None, None), None);

    let mut unread = good.clone();
    unread.reading.iplist_bytes = None;
    assert_eq!(fault(&unread), Some(CacheFault::Incomplete));
    let mut other_id = good.clone();
    other_id.candidate.id = "0".repeat(64);
    assert_eq!(fault(&other_id), Some(CacheFault::ContentId));
    assert_eq!(
        generation_fault(&good, Some("https://example.com/other.txt"), Some(limits)),
        Some(CacheFault::Url)
    );

    let metadata = good.reading.metadata.clone().expect("metadata");
    let iplist = good.reading.iplist_bytes.clone().expect("list");
    let with = |change: &dyn Fn(&mut RemoteCacheMetadata)| {
        let mut changed = metadata.clone();
        change(&mut changed);
        rewritten(&good, &iplist, &metadata_bytes(&changed))
    };
    assert_eq!(fault(&with(&|_| {})), None);
    assert_eq!(fault(&with(&|m| m.url = "  ".to_string())), Some(CacheFault::Url));
    assert_eq!(
        fault(&with(&|m| m.sha256_raw = "bad".to_string())),
        Some(CacheFault::RawChecksum)
    );
    assert_eq!(
        fault(&with(&|m| m.sha256_iplist = "bad".to_string())),
        Some(CacheFault::IplistChecksum)
    );
    assert_eq!(
        fault(&rewritten(&good, &iplist, b"no metadata")),
        Some(CacheFault::Metadata)
    );
    assert_eq!(
        fault(&rewritten(&good, &[0xff], &metadata_bytes(&metadata))),
        Some(CacheFault::Iplist)
    );
}

#[test]
fn lists_over_their_budget_are_told_apart_from_damaged_ones() {
    let mut body = String::new();
    for index in 0..4_097 {
        body.push_str(&format!("10.0.{}.{}\n", index / 256, index % 256));
    }
    let disk = Disk::default();
    let client = MockHttpClient::new(vec![Ok(response(body.as_bytes()))]);
    fetch(&disk, &client, FEED, &Vec::new()).expect("seed");
    let narrow = RemoteFeedLimits::from_maxelem(1);
    let budget = CacheFault::Budget(RemoteParseBudget::UniqueCidrs {
        observed: 4_097,
        limit: 4_096,
    });
    let generation = current_generation(&disk);
    assert_eq!(generation_fault(&generation, Some(FEED), Some(narrow)), Some(budget));
    assert_eq!(generation_fault(&generation, Some(FEED), None), None);

    let text = LegacyIplist::Text(body.clone());
    let wide = RemoteFeedLimits::from_maxelem(u32::MAX);
    assert_eq!(legacy_fault(&text, &None, narrow), Some(budget));
    assert_eq!(legacy_fault(&text, &None, wide), None);
    let metadata = generation.reading.metadata.expect("metadata");
    let other = RemoteCacheMetadata { sha256_iplist: sha256_hex(b"other"), ..metadata };
    assert_eq!(
        legacy_fault(&text, &Some(other), wide),
        Some(CacheFault::IplistChecksum)
    );
    assert_eq!(legacy_fault(&LegacyIplist::Missing, &None, wide), None);
}
