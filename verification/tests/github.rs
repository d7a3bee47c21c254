//! GitHub metadata caches on an in-memory disk.

use std::cell::RefCell;
use std::collections::{BTreeMap, VecDeque};

use kidobo::adapter::cache_faults::{
    github_fallback_fault, github_files_fault, github_generation_fault, CacheFault,
};
use kidobo::adapter::cache_generation::{
    generation_candidates, plan_generation, pruned_generations, GenerationCandidate,
    GenerationManifest,
};
use kidobo::adapter::cache_staging::StagedGeneration;
use kidobo::adapter::digest::sha256_hex;
use kidobo::adapter::github_categories::{
    cache_scope_compatible, normalize_categories, CategorySelection, GithubMetaCategorySidecar,
};
use kidobo::adapter::github_meta::{
    github_generation_files, judge_github_response, load_cached_github_meta_safelist,
    load_github_meta_safelist, read_github_meta_cache, GithubCachePaths, GithubMetaCacheMetadata,
    GithubMetaLoadError, GithubMetaLoadResult, GithubMetaSource, GithubReading, GithubRefresh,
    GithubRejection, GithubUpdate, StoredGithubGeneration,
};
use kidobo::adapter::http_fetch::{
    CancellableHttpClient, HttpClient, HttpClientError, HttpRequest, HttpResponse,
};
use kidobo::adapter::json_tree::{extract_networks, parse_and_extract_networks, JsonTree};
use kidobo::policy::config::GithubMetaCategoryMode;
use kidobo::policy::network_types::{CanonicalCidr, Ipv4Cidr, Ipv6Cidr};
use kidobo::workflow::ports::{Cancellation, NoCancellation};
use serde_json::Value;

const TEST_GITHUB_META_URL: &str = "https://api.github.com/meta";
const CACHE: &str = "/cache";

// In-memory disk --------------------------------------------------------------------------------

#[derive(Default)]
struct Disk {
    files: RefCell<BTreeMap<String, Vec<u8>>>,
    manifest: RefCell<Option<GenerationManifest>>,
}

impl Disk {
    fn read(&self, path: &str) -> Option<Vec<u8>> {
        self.files.borrow().get(path).cloned()
    }

    fn write(&self, path: &str, contents: &[u8]) {
        self.files
            .borrow_mut()
            .insert(path.to_string(), contents.to_vec());
    }
}

fn text_or_null(text: &Option<String>) -> Value {
    match text {
        Some(text) => Value::String(text.clone()),
        None => Value::Null,
    }
}

fn metadata_bytes(metadata: &GithubMetaCacheMetadata) -> Vec<u8> {
    let mut object = serde_json::Map::new();
    object.insert("url".to_string(), Value::from(metadata.url.clone()));
    object.insert("etag".to_string(), text_or_null(&metadata.etag));
    object.insert(
        "last_modified".to_string(),
        text_or_null(&metadata.last_modified),
    );
    object.insert(
        "sha256_raw".to_string(),
        Value::from(metadata.sha256_raw.clone()),
    );
    serde_json::to_vec_pretty(&Value::Object(object)).expect("metadata json")
}

fn metadata_from(bytes: &[u8]) -> Option<GithubMetaCacheMetadata> {
    let value: Value = serde_json::from_slice(bytes).ok()?;
    let text = |name: &str| value.get(name).and_then(Value::as_str).map(str::to_string);
    Some(GithubMetaCacheMetadata {
        url: text("url")?,
        etag: text("etag"),
        last_modified: text("last_modified"),
        sha256_raw: text("sha256_raw")?,
    })
}

fn sidecar_bytes(sidecar: &GithubMetaCategorySidecar) -> Vec<u8> {
    let mut object = serde_json::Map::new();
    object.insert("mode".to_string(), Value::from(sidecar.mode.clone()));
    object.insert(
        "categories".to_string(),
        Value::from(sidecar.categories.clone()),
    );
    serde_json::to_vec_pretty(&Value::Object(object)).expect("sidecar json")
}

fn sidecar_from(bytes: &[u8]) -> Option<GithubMetaCategorySidecar> {
    let value: Value = serde_json::from_slice(bytes).ok()?;
    Some(GithubMetaCategorySidecar {
        mode: value.get("mode")?.as_str()?.to_string(),
        categories: value
            .get("categories")?
            .as_array()?
            .iter()
            .map(|category| category.as_str().map(str::to_string))
            .collect::<Option<Vec<_>>>()?,
    })
}

fn stored(disk: &Disk, candidate: GenerationCandidate) -> StoredGithubGeneration {
    let member = |name: &str| disk.read(&format!("{}/{name}", candidate.directory));
    let metadata_bytes = member("meta.json");
    let category_bytes = member("categories.json");
    let reading = GithubReading {
        raw: member("raw.json"),
        metadata: metadata_bytes.as_deref().and_then(metadata_from),
        sidecar: category_bytes.as_deref().and_then(sidecar_from),
    };
    StoredGithubGeneration {
        candidate,
        metadata_bytes,
        category_bytes,
        reading,
    }
}

fn legacy(disk: &Disk) -> GithubReading {
    let paths = GithubCachePaths::from_cache_dir(CACHE);
    GithubReading {
        raw: disk.read(&paths.raw),
        metadata: disk.read(&paths.metadata).as_deref().and_then(metadata_from),
        sidecar: disk
            .read(&paths.category_sidecar)
            .as_deref()
            .and_then(sidecar_from),
    }
}

fn candidates(disk: &Disk) -> Vec<GenerationCandidate> {
    generation_candidates(
        &GithubCachePaths::from_cache_dir(CACHE).generation_store,
        &disk.manifest.borrow(),
    )
}

fn generations(disk: &Disk) -> Vec<StoredGithubGeneration> {
    candidates(disk)
        .into_iter()
        .map(|candidate| stored(disk, candidate))
        .collect()
}

fn load_with(
    disk: &Disk,
    client: &MockHttpClient,
    url: &str,
    mode: &GithubMetaCategoryMode,
    persisted: Result<(), String>,
) -> Result<GithubMetaLoadResult, GithubMetaLoadError> {
    let selection = CategorySelection::from_mode(mode);
    let cache = read_github_meta_cache(generations(disk), legacy(disk), &selection, url);
    match load_github_meta_safelist(client, cache, url, &selection, &Vec::new()) {
        GithubRefresh::Settled(result) => Ok(result),
        GithubRefresh::Persist(update) => {
            let store = GithubCachePaths::from_cache_dir(CACHE).generation_store;
            if persisted.is_ok() {
                let categories = sidecar_bytes(&update.sidecar);
                let metadata = metadata_bytes(&update.metadata);
                let files = github_generation_files(&update.raw, &categories, &metadata);
                let plan = plan_generation(&files, update.previous_generation.as_deref())
                    .expect("generation plan");
                let directory = format!("{store}/generations/{}", plan.generation_id);
                for file in &plan.files {
                    disk.write(&format!("{directory}/{}", file.name), file.contents);
                }
                let staged =
                    StagedGeneration::new(&store, &plan.generation_id, &plan.previous, true);
                let manifest = staged.manifest();
                for name in pruned_generations(&vec![plan.generation_id.clone()], &manifest) {
                    panic!("{name} must stay");
                }
                *disk.manifest.borrow_mut() = Some(manifest);
            }
            update.finish(&store, persisted)
        }
    }
}

fn load(
    disk: &Disk,
    client: &MockHttpClient,
    url: &str,
    mode: &GithubMetaCategoryMode,
) -> GithubMetaLoadResult {
    load_with(disk, client, url, mode, Ok(())).expect("load")
}

struct MockHttpClient {
    responses: RefCell<VecDeque<Result<HttpResponse, HttpClientError>>>,
    requests: RefCell<Vec<HttpRequest>>,
}

impl MockHttpClient {
    fn new(responses: Vec<Result<HttpResponse, HttpClientError>>) -> Self {
        Self {
            responses: RefCell::new(VecDeque::from(responses)),
            requests: RefCell::new(Vec::new()),
        }
    }

    fn offline() -> Self {
        Self::new(vec![Err(HttpClientError::Request {
            reason: "offline".to_string(),
        })])
    }

    fn requests(&self) -> Vec<HttpRequest> {
        self.requests.borrow().clone()
    }
}

impl HttpClient for MockHttpClient {
    fn fetch(&self, request: HttpRequest) -> Result<HttpResponse, HttpClientError> {
        self.requests.borrow_mut().push(request);
        self.responses
            .borrow_mut()
            .pop_front()
            .expect("queued response")
    }
}

fn network_response(body: &[u8]) -> HttpResponse {
    HttpResponse {
        status: 200,
        body: body.to_vec(),
        etag: Some("etag-1".to_string()),
        last_modified: Some("Mon, 01 Jan 2024 00:00:00 GMT".to_string()),
    }
}

fn not_modified() -> HttpResponse {
    HttpResponse {
        status: 304,
        body: Vec::new(),
        etag: None,
        last_modified: None,
    }
}

fn explicit(categories: &[&str]) -> GithubMetaCategoryMode {
    GithubMetaCategoryMode::Explicit(categories.iter().map(|name| name.to_string()).collect())
}

fn write_raw(disk: &Disk, raw: &[u8]) {
    disk.write(&GithubCachePaths::from_cache_dir(CACHE).raw, raw);
}

fn write_metadata(disk: &Disk, url: &str, etag: &str, checksum: String) {
    disk.write(
        &GithubCachePaths::from_cache_dir(CACHE).metadata,
        &metadata_bytes(&GithubMetaCacheMetadata {
            url: url.to_string(),
            etag: Some(etag.to_string()),
            last_modified: Some("Mon, 01 Jan 2024 00:00:00 GMT".to_string()),
            sha256_raw: checksum,
        }),
    );
}

fn write_sidecar(disk: &Disk, categories: &[&str]) {
    disk.write(
        &GithubCachePaths::from_cache_dir(CACHE).category_sidecar,
        &sidecar_bytes(&GithubMetaCategorySidecar {
            mode: "selected".to_string(),
            categories: categories.iter().map(|name| name.to_string()).collect(),
        }),
    );
}

const DEFAULT_CATEGORIES: [&str; 4] = ["api", "git", "hooks", "packages"];

fn v4(network: u32, prefix: u8) -> CanonicalCidr {
    CanonicalCidr::V4(Ipv4Cidr::from_parts(network, prefix))
}

fn v6(network: u128, prefix: u8) -> CanonicalCidr {
    CanonicalCidr::V6(Ipv6Cidr::from_parts(network, prefix))
}

fn assert_has(result: &GithubMetaLoadResult, cidr: CanonicalCidr) {
    assert!(result.networks.contains(&cidr));
}

fn current_generation_dir(disk: &Disk) -> String {
    candidates(disk)
        .into_iter()
        .next()
        .expect("current GitHub cache generation")
        .directory
}

// Loads -----------------------------------------------------------------------------------------

#[test]
fn fetches_and_filters_default_categories() {
    let disk = Disk::default();
    let client = MockHttpClient::new(vec![Ok(network_response(
        br#"{
            "api": ["192.30.252.0/22", "2001:db8::1"],
            "git": ["198.51.100.7"],
            "hooks": ["10.0.0.0/24"],
            "packages": ["203.0.113.0/24"],
            "actions": ["203.0.114.0/24"]
        }"#,
    ))]);

    let result = load(
        &disk,
        &client,
        TEST_GITHUB_META_URL,
        &GithubMetaCategoryMode::Default,
    );

    assert_eq!(result.source, GithubMetaSource::Network);
    assert_eq!(result.networks.len(), 5);
    assert_has(&result, v4(0xc01e_fc00, 22));
    assert_has(
        &result,
        v6(0x2001_0db8_0000_0000_0000_0000_0000_0001, 128),
    );
    assert!(!result.networks.contains(&v4(0xcb00_7200, 24)));

    let requests = client.requests();
    assert_eq!(requests.len(), 1);
    assert_eq!(requests[0].url, TEST_GITHUB_META_URL);
}

#[test]
fn explicit_category_filter_is_applied() {
    let disk = Disk::default();
    let client = MockHttpClient::new(vec![Ok(network_response(
        br#"{
            "api": ["192.30.252.0/22"],
            "hooks": ["10.0.0.0/24"],
            "packages": ["203.0.113.0/24"]
        }"#,
    ))]);

    let result = load(&disk, &client, TEST_GITHUB_META_URL, &explicit(&["hooks"]));

    assert_eq!(result.source, GithubMetaSource::Network);
    assert_eq!(result.networks, vec![v4(0x0a00_0000, 24)]);
}

#[test]
fn selected_mode_rejects_missing_category_without_overwriting_cache() {
    let disk = Disk::default();
    let cached_raw = br#"{"hooks":["10.0.0.0/24"],"packages":[]}"#;
    write_raw(&disk, cached_raw);
    write_sidecar(&disk, &["hooks", "packages"]);
    let client = MockHttpClient::new(vec![Ok(network_response(
        br#"{"hooks":["198.51.100.0/24"]}"#,
    ))]);

    let result = load(
        &disk,
        &client,
        TEST_GITHUB_META_URL,
        &explicit(&["hooks", "packages"]),
    );

    assert_eq!(result.source, GithubMetaSource::FallbackCache);
    assert_eq!(
        disk.read(&GithubCachePaths::from_cache_dir(CACHE).raw)
            .expect("read cache"),
        cached_raw
    );
    assert!(candidates(&disk).is_empty());
}

#[test]
fn selected_mode_accepts_present_empty_categories() {
    let disk = Disk::default();
    let client = MockHttpClient::new(vec![Ok(network_response(br#"{"hooks":[],"packages":{}}"#))]);

    let result = load(
        &disk,
        &client,
        TEST_GITHUB_META_URL,
        &explicit(&["hooks", "packages"]),
    );

    assert_eq!(result.source, GithubMetaSource::Network);
    assert!(result.networks.is_empty());
    assert!(disk
        .read(&format!("{}/raw.json", current_generation_dir(&disk)))
        .is_some());
}

#[test]
fn all_mode_distinguishes_empty_from_nonempty_invalid_trees() {
    let empty_disk = Disk::default();
    let empty_client = MockHttpClient::new(vec![Ok(network_response(br"{}"))]);
    let empty = load(
        &empty_disk,
        &empty_client,
        TEST_GITHUB_META_URL,
        &GithubMetaCategoryMode::All,
    );
    assert_eq!(empty.source, GithubMetaSource::Network);

    let invalid_disk = Disk::default();
    let invalid_client = MockHttpClient::new(vec![Ok(network_response(
        br#"{"nested":["not-a-network"]}"#,
    ))]);
    let invalid = load(
        &invalid_disk,
        &invalid_client,
        TEST_GITHUB_META_URL,
        &GithubMetaCategoryMode::All,
    );
    assert_eq!(invalid.source, GithubMetaSource::Empty);
    assert!(invalid_disk
        .read(&GithubCachePaths::from_cache_dir(CACHE).raw)
        .is_none());
    assert!(invalid_disk.files.borrow().is_empty());
}

#[test]
fn all_mode_extracts_recursively() {
    let disk = Disk::default();
    let client = MockHttpClient::new(vec![Ok(network_response(
        br#"{
            "nested": {
                "layer": [
                    {"value": "198.51.100.7"},
                    ["2001:db8::/126", "invalid"]
                ]
            }
        }"#,
    ))]);

    let result = load(
        &disk,
        &client,
        TEST_GITHUB_META_URL,
        &GithubMetaCategoryMode::All,
    );

    assert_eq!(result.source, GithubMetaSource::Network);
    assert_eq!(result.networks.len(), 2);
    assert_has(&result, v4(0xc633_6407, 32));
    assert_has(
        &result,
        v6(0x2001_0db8_0000_0000_0000_0000_0000_0000, 126),
    );
}

#[test]
fn writes_metadata_and_category_sidecar() {
    let disk = Disk::default();
    let client = MockHttpClient::new(vec![Ok(network_response(br#"{"hooks":["10.0.0.0/24"]}"#))]);

    load(&disk, &client, TEST_GITHUB_META_URL, &explicit(&["hooks"]));

    let generation = current_generation_dir(&disk);
    let metadata = metadata_from(
        &disk
            .read(&format!("{generation}/meta.json"))
            .expect("read metadata"),
    )
    .expect("metadata json");
    assert_eq!(metadata.url, TEST_GITHUB_META_URL);
    assert_eq!(
        metadata.sha256_raw,
        sha256_hex(br#"{"hooks":["10.0.0.0/24"]}"#)
    );

    let sidecar = sidecar_from(
        &disk
            .read(&format!("{generation}/categories.json"))
            .expect("read sidecar"),
    )
    .expect("sidecar json");
    assert_eq!(sidecar.mode, "selected");
    assert_eq!(sidecar.categories, vec!["hooks".to_string()]);

    assert!(disk.read(&format!("{generation}/raw.json")).is_some());
}

#[test]
fn github_meta_corrupt_current_generation_falls_back_to_previous_then_legacy() {
    let disk = Disk::default();
    let mode = explicit(&["hooks"]);
    for body in [
        br#"{"hooks":["10.0.0.0/24"]}"#.as_slice(),
        br#"{"hooks":["198.51.100.0/24"]}"#.as_slice(),
    ] {
        load(
            &disk,
            &MockHttpClient::new(vec![Ok(network_response(body))]),
            TEST_GITHUB_META_URL,
            &mode,
        );
    }

    let selected = candidates(&disk);
    assert_eq!(selected.len(), 2);
    disk.write(&format!("{}/raw.json", selected[0].directory), b"corrupt");
    let fallback = load(
        &disk,
        &MockHttpClient::offline(),
        TEST_GITHUB_META_URL,
        &mode,
    );
    assert_eq!(fallback.source, GithubMetaSource::FallbackCache);
    assert_eq!(fallback.networks[0].to_text(), "10.0.0.0/24");

    disk.write(
        &format!("{}/raw.json", selected[1].directory),
        b"also corrupt",
    );
    write_raw(&disk, br#"{"hooks":["203.0.113.0/24"]}"#);
    write_sidecar(&disk, &["hooks"]);
    let fallback = load(
        &disk,
        &MockHttpClient::offline(),
        TEST_GITHUB_META_URL,
        &mode,
    );
    assert_eq!(fallback.networks[0].to_text(), "203.0.113.0/24");
}

#[test]
fn network_error_falls_back_to_compatible_cache() {
    let disk = Disk::default();
    write_raw(
        &disk,
        br#"{"api":["192.30.252.0/22"],"git":[],"hooks":[],"packages":[]}"#,
    );
    write_sidecar(&disk, &DEFAULT_CATEGORIES);

    let result = load(
        &disk,
        &MockHttpClient::offline(),
        TEST_GITHUB_META_URL,
        &GithubMetaCategoryMode::Default,
    );

    assert_eq!(result.source, GithubMetaSource::FallbackCache);
    assert_eq!(result.networks.len(), 1);
}

#[test]
fn cache_with_different_url_is_not_reused() {
    let disk = Disk::default();
    let raw = br#"{"api":["192.30.252.0/22"]}"#;
    write_raw(&disk, raw);
    write_metadata(
        &disk,
        "https://example.com/old-meta",
        "old-etag",
        sha256_hex(raw),
    );
    write_sidecar(&disk, &DEFAULT_CATEGORIES);

    let client = MockHttpClient::offline();
    let result = load(
        &disk,
        &client,
        TEST_GITHUB_META_URL,
        &GithubMetaCategoryMode::Default,
    );

    assert_eq!(result.source, GithubMetaSource::Empty);
    assert!(result.networks.is_empty());

    let requests = client.requests();
    assert_eq!(requests.len(), 1);
    assert_eq!(requests[0].if_none_match, None);
    assert_eq!(requests[0].if_modified_since, None);
}

#[test]
fn cache_without_metadata_is_not_reused_for_custom_url() {
    let disk = Disk::default();
    write_raw(&disk, br#"{"api":["192.30.252.0/22"]}"#);
    write_sidecar(&disk, &DEFAULT_CATEGORIES);

    let client = MockHttpClient::offline();
    let result = load(
        &disk,
        &client,
        "https://example.com/custom-meta",
        &GithubMetaCategoryMode::Default,
    );

    assert_eq!(result.source, GithubMetaSource::Empty);
    assert!(result.networks.is_empty());

    let requests = client.requests();
    assert_eq!(requests.len(), 1);
    assert_eq!(requests[0].if_none_match, None);
    assert_eq!(requests[0].if_modified_since, None);
}

#[test]
fn all_mode_uses_cache_without_sidecar() {
    let disk = Disk::default();
    write_raw(&disk, br#"{"nested":{"values":["198.51.100.7"]}}"#);

    let result = load(
        &disk,
        &MockHttpClient::offline(),
        TEST_GITHUB_META_URL,
        &GithubMetaCategoryMode::All,
    );

    assert_eq!(result.source, GithubMetaSource::FallbackCache);
    assert_eq!(result.networks, vec![v4(0xc633_6407, 32)]);
}

#[test]
fn selected_mode_cache_compatibility_ignores_order_case_and_duplicates() {
    let disk = Disk::default();
    write_raw(
        &disk,
        br#"{"api":["192.30.252.0/22"],"hooks":["198.51.100.7"]}"#,
    );
    write_sidecar(&disk, &["HOOKS", " api ", "hooks"]);

    let result = load(
        &disk,
        &MockHttpClient::offline(),
        TEST_GITHUB_META_URL,
        &explicit(&["api", "hooks"]),
    );

    assert_eq!(result.source, GithubMetaSource::FallbackCache);
    assert_eq!(
        result.networks,
        vec![v4(0xc01e_fc00, 22), v4(0xc633_6407, 32)]
    );
}

#[test]
fn filtered_mode_refuses_cache_without_compatible_sidecar() {
    let disk = Disk::default();
    write_raw(
        &disk,
        br#"{"api":["192.30.252.0/22"],"actions":["203.0.114.0/24"]}"#,
    );

    let result = load(
        &disk,
        &MockHttpClient::offline(),
        TEST_GITHUB_META_URL,
        &GithubMetaCategoryMode::Default,
    );

    assert_eq!(result.source, GithubMetaSource::Empty);
    assert!(result.networks.is_empty());
}

#[test]
fn selected_mode_refuses_cache_for_superset_request() {
    let disk = Disk::default();
    write_raw(
        &disk,
        br#"{"hooks":["10.0.0.0/24"],"packages":["203.0.113.0/24"]}"#,
    );
    write_sidecar(&disk, &["hooks"]);

    let result = load(
        &disk,
        &MockHttpClient::offline(),
        TEST_GITHUB_META_URL,
        &explicit(&["hooks", "packages"]),
    );

    assert_eq!(result.source, GithubMetaSource::Empty);
    assert!(result.networks.is_empty());
}

#[test]
fn selected_mode_dedupes_duplicate_networks_across_categories() {
    let disk = Disk::default();
    let client = MockHttpClient::new(vec![Ok(network_response(
        br#"{
            "api": ["192.30.252.0/22", "198.51.100.7"],
            "hooks": ["192.30.252.0/22", "198.51.100.7"]
        }"#,
    ))]);

    let result = load(
        &disk,
        &client,
        TEST_GITHUB_META_URL,
        &explicit(&["hooks", "api"]),
    );

    assert_eq!(result.source, GithubMetaSource::Network);
    assert_eq!(
        result.networks,
        vec![v4(0xc01e_fc00, 22), v4(0xc633_6407, 32)]
    );
}

#[test]
fn status_304_uses_cache_when_compatible() {
    let disk = Disk::default();
    let raw = br#"{"api":["192.30.252.0/22"],"git":[],"hooks":[],"packages":[]}"#;
    write_raw(&disk, raw);
    write_metadata(&disk, TEST_GITHUB_META_URL, "etag-1", sha256_hex(raw));
    write_sidecar(&disk, &DEFAULT_CATEGORIES);

    let client = MockHttpClient::new(vec![Ok(not_modified())]);
    let result = load(
        &disk,
        &client,
        TEST_GITHUB_META_URL,
        &GithubMetaCategoryMode::Default,
    );
    assert_eq!(result.source, GithubMetaSource::CacheNotModified);

    let requests = client.requests();
    assert_eq!(requests.len(), 1);
    assert_eq!(requests[0].if_none_match.as_deref(), Some("etag-1"));
    assert_eq!(
        requests[0].if_modified_since.as_deref(),
        Some("Mon, 01 Jan 2024 00:00:00 GMT")
    );
}

#[test]
fn github_meta_status_304_without_cache_triggers_unconditional_refetch() {
    let disk = Disk::default();
    let client = MockHttpClient::new(vec![
        Ok(not_modified()),
        Ok(network_response(
            br#"{"api":["192.30.252.0/22"],"git":[],"hooks":[],"packages":[]}"#,
        )),
    ]);

    let result = load(
        &disk,
        &client,
        TEST_GITHUB_META_URL,
        &GithubMetaCategoryMode::Default,
    );

    assert_eq!(result.source, GithubMetaSource::Network);

    let requests = client.requests();
    assert_eq!(requests.len(), 2);
    assert_eq!(requests[1].if_none_match, None);
    assert_eq!(requests[1].if_modified_since, None);
}

#[test]
fn raw_hash_mismatch_blocks_cached_fallback() {
    let disk = Disk::default();
    write_raw(&disk, br#"{"api":["192.30.252.0/22"]}"#);
    write_metadata(
        &disk,
        TEST_GITHUB_META_URL,
        "etag-1",
        sha256_hex(br#"{"hooks":["10.0.0.0/24"]}"#),
    );

    let result = load(
        &disk,
        &MockHttpClient::offline(),
        TEST_GITHUB_META_URL,
        &GithubMetaCategoryMode::All,
    );

    assert_eq!(result.source, GithubMetaSource::Empty);
    assert!(result.networks.is_empty());
}

#[test]
fn an_update_that_cannot_be_persisted_is_an_error() {
    let disk = Disk::default();
    let client = MockHttpClient::new(vec![Ok(network_response(br#"{"hooks":["10.0.0.0/24"]}"#))]);
    let error = load_with(
        &disk,
        &client,
        TEST_GITHUB_META_URL,
        &explicit(&["hooks"]),
        Err("disk full".to_string()),
    )
    .expect_err("persisting fails");
    assert_eq!(
        error.message(),
        "failed to write github meta cache file /cache/v2/github-meta/current.json: disk full"
    );
}

#[test]
fn a_persisted_update_is_read_without_the_network() {
    let disk = Disk::default();
    let mode = explicit(&["hooks"]);
    load(
        &disk,
        &MockHttpClient::new(vec![Ok(network_response(br#"{"hooks":["10.0.0.0/24"]}"#))]),
        TEST_GITHUB_META_URL,
        &mode,
    );
    assert_eq!(
        load_cached_github_meta_safelist(
            generations(&disk),
            legacy(&disk),
            TEST_GITHUB_META_URL,
            &mode
        ),
        Some(vec![v4(0x0a00_0000, 24)])
    );
    assert_eq!(
        load_cached_github_meta_safelist(
            generations(&disk),
            legacy(&disk),
            TEST_GITHUB_META_URL,
            &explicit(&["api"])
        ),
        None
    );
}

// Categories and trees --------------------------------------------------------------------------

#[test]
fn categories_are_trimmed_lowered_sorted_and_unique() {
    let values = [" Hooks ", "api", "", "API", "git"]
        .iter()
        .map(|value| value.to_string())
        .collect();
    assert_eq!(normalize_categories(&values), ["api", "git", "hooks"]);
}

#[test]
fn a_recorded_selection_is_compatible_with_itself() {
    for mode in [
        GithubMetaCategoryMode::Default,
        GithubMetaCategoryMode::All,
        explicit(&["git", "API"]),
    ] {
        let selection = CategorySelection::from_mode(&mode);
        let sidecar = Some(selection.to_sidecar());
        assert!(cache_scope_compatible(&selection, &sidecar));
    }
}

#[test]
fn values_that_are_no_json_give_nothing() {
    assert_eq!(parse_and_extract_networks(b"{", None), None);
    assert_eq!(parse_and_extract_networks(b"[]", None), Some(Vec::new()));
    assert_eq!(
        parse_and_extract_networks(
            br#"{"api":["10.0.0.1"]}"#,
            Some(&vec!["hooks".to_string()])
        ),
        None
    );
}

#[test]
fn trees_are_searched_in_every_branch() {
    let text = |text: &str| JsonTree::Text(text.to_string());
    let tree = JsonTree::Array(vec![
        text("10.0.0.2"),
        JsonTree::Scalar,
        JsonTree::Object(vec![(
            "inner".to_string(),
            JsonTree::Array(vec![text("10.0.0.1"), text("10.0.0.2")]),
        )]),
    ]);
    let expected = Some(vec![v4(0x0a00_0001, 32), v4(0x0a00_0002, 32)]);

    assert_eq!(extract_networks(&tree, None), expected);
    assert_eq!(
        parse_and_extract_networks(
            br#"["10.0.0.2", 7, {"inner": ["10.0.0.1", "10.0.0.2"]}]"#,
            None
        ),
        expected
    );
    assert_eq!(
        extract_networks(&tree, Some(&vec!["inner".to_string()])),
        None
    );
}

fn fetched_update() -> GithubUpdate {
    let client = MockHttpClient::new(vec![Ok(network_response(
        br#"{"hooks":["192.0.2.0/24"]}"#,
    ))]);
    let disk = Disk::default();
    let selection = CategorySelection::from_mode(&explicit(&["hooks"]));
    let cache = read_github_meta_cache(
        generations(&disk),
        legacy(&disk),
        &selection,
        TEST_GITHUB_META_URL,
    );
    match load_github_meta_safelist(
        &client,
        cache,
        TEST_GITHUB_META_URL,
        &selection,
        &Vec::new(),
    ) {
        GithubRefresh::Persist(update) => update,
        GithubRefresh::Settled(_) => panic!("a response must be persisted"),
    }
}

#[test]
fn a_staged_update_falls_back_to_the_networks_that_it_replaces() {
    let staged = StagedGeneration::new("/store", &"id".to_string(), &None, true);
    let new = v4(0xc000_0200, 24);
    let old = v4(0xc633_6400, 24);

    let changed = fetched_update()
        .prepare(Some(vec![old]), Ok(staged.clone()))
        .expect("staged");
    assert_eq!(changed.primary, vec![new]);
    assert_eq!(changed.fallback, Some(vec![old]));
    assert_eq!(changed.staged, Some(staged.clone()));
    assert_eq!(changed.staging_failure, None);

    let unchanged = fetched_update()
        .prepare(Some(vec![new]), Ok(staged))
        .expect("staged");
    assert_eq!(unchanged.fallback, None);
}

#[test]
fn an_update_that_cannot_be_staged_uses_cached_networks_or_fails() {
    let error = || GithubMetaLoadError::WriteCacheFile {
        path: "/store/current.json".to_string(),
        reason: "full".to_string(),
    };
    let old = v4(0xc633_6400, 24);

    let kept = fetched_update()
        .prepare(Some(vec![old]), Err(error()))
        .expect("cached networks");
    assert_eq!(kept.primary, vec![old]);
    assert_eq!(kept.fallback, None);
    assert_eq!(kept.staged, None);
    assert_eq!(kept.staging_failure, Some(error()));

    assert_eq!(fetched_update().prepare(None, Err(error())), Err(error()));
}

struct Cancelled;

impl Cancellation for Cancelled {
    fn is_cancelled(&self) -> bool {
        true
    }
}

#[test]
fn a_cancelled_client_makes_no_request() {
    let request = HttpRequest {
        url: TEST_GITHUB_META_URL.to_string(),
        if_none_match: None,
        if_modified_since: None,
        max_body_bytes: 16,
    };
    let inner = MockHttpClient::new(vec![Ok(not_modified())]);

    let refused = CancellableHttpClient {
        inner: &inner,
        cancellation: &Cancelled,
    }
    .fetch(request.clone());
    assert_eq!(
        refused,
        Err(HttpClientError::Request {
            reason: "operation interrupted".to_string(),
        })
    );
    assert!(inner.requests().is_empty());

    let allowed = CancellableHttpClient {
        inner: &inner,
        cancellation: &NoCancellation,
    }
    .fetch(request.clone());
    assert_eq!(allowed, Ok(not_modified()));
    assert_eq!(inner.requests(), vec![request]);
}

// Diagnostics -----------------------------------------------------------------------------------

#[test]
fn refused_responses_say_why() {
    let selection = CategorySelection::from_mode(&explicit(&["api"]));
    let body = br#"{"api":["192.30.252.0/22"]}"#;
    let judge = |response: HttpResponse, max_bytes: usize| {
        judge_github_response(TEST_GITHUB_META_URL, response, max_bytes, &selection)
    };
    let update = judge(network_response(body), body.len()).expect("update");
    assert_eq!(update.networks, [v4(0xc01e_fc00, 22)]);
    assert_eq!(update.metadata.sha256_raw, sha256_hex(body));

    let refused = HttpResponse { status: 503, ..network_response(body) };
    assert_eq!(judge(refused, 1_000).expect_err("status"), GithubRejection::Status(503));
    assert_eq!(
        judge(network_response(body), body.len() - 1).expect_err("size"),
        GithubRejection::TooLarge
    );
    for invalid in [&b"no json"[..], br#"{"git":["192.30.252.0/22"]}"#] {
        assert_eq!(
            judge(network_response(invalid), 1_000).expect_err("body"),
            GithubRejection::Invalid
        );
    }
}

#[test]
fn refused_generations_say_why() {
    let disk = Disk::default();
    let mode = explicit(&["api"]);
    let selection = CategorySelection::from_mode(&mode);
    let body = br#"{"api":["192.30.252.0/22"],"git":["198.51.100.0/24"]}"#;
    let client = MockHttpClient::new(vec![Ok(network_response(body))]);
    load(&disk, &client, TEST_GITHUB_META_URL, &mode);
    let fault = |selection: &CategorySelection, url: &str| {
        let fault = github_generation_fault(&generations(&disk)[0], selection, url);
        let cache = read_github_meta_cache(generations(&disk), legacy(&disk), selection, url);
        assert_eq!(cache.generation_id.is_some(), fault.is_none());
        fault
    };
    assert_eq!(fault(&selection, TEST_GITHUB_META_URL), None);
    assert_eq!(fault(&selection, "https://example.com/meta"), Some(CacheFault::Url));
    let wider = CategorySelection::from_mode(&explicit(&["api", "git"]));
    assert_eq!(fault(&wider, TEST_GITHUB_META_URL), Some(CacheFault::Categories));

    let mut unread = generations(&disk).remove(0);
    unread.category_bytes = None;
    assert_eq!(
        github_generation_fault(&unread, &selection, TEST_GITHUB_META_URL),
        Some(CacheFault::Incomplete)
    );
    disk.write(&format!("{}/raw.json", current_generation_dir(&disk)), b"{}");
    assert_eq!(fault(&selection, TEST_GITHUB_META_URL), Some(CacheFault::ContentId));
}

#[test]
fn refused_legacy_files_say_why() {
    let disk = Disk::default();
    assert_eq!(github_files_fault(&legacy(&disk), TEST_GITHUB_META_URL, false), None);
    assert_eq!(
        github_files_fault(&legacy(&disk), "https://example.com/meta", false),
        Some(CacheFault::Metadata)
    );
    assert_eq!(
        github_files_fault(&legacy(&disk), TEST_GITHUB_META_URL, true),
        Some(CacheFault::Metadata)
    );
    let body = br#"{"api":["192.30.252.0/22"]}"#;
    write_raw(&disk, body);
    write_metadata(&disk, TEST_GITHUB_META_URL, "etag-1", sha256_hex(body));
    assert_eq!(github_files_fault(&legacy(&disk), TEST_GITHUB_META_URL, true), None);
    assert_eq!(
        github_files_fault(&legacy(&disk), "https://example.com/meta", false),
        Some(CacheFault::Url)
    );
    write_metadata(&disk, TEST_GITHUB_META_URL, "etag-1", sha256_hex(b"other"));
    assert_eq!(
        github_files_fault(&legacy(&disk), TEST_GITHUB_META_URL, false),
        Some(CacheFault::RawChecksum)
    );
}

#[test]
fn cached_data_that_gives_nothing_says_why() {
    let disk = Disk::default();
    let fault = |mode: &GithubMetaCategoryMode| {
        let selection = CategorySelection::from_mode(mode);
        let cache = read_github_meta_cache(
            Vec::new(),
            legacy(&disk),
            &selection,
            TEST_GITHUB_META_URL,
        );
        github_fallback_fault(&cache, &selection)
    };
    assert_eq!(fault(&GithubMetaCategoryMode::All), None);
    write_raw(&disk, br#"{"api":["192.30.252.0/22"]}"#);
    assert_eq!(fault(&GithubMetaCategoryMode::All), None);
    assert_eq!(fault(&explicit(&["api"])), Some(CacheFault::Categories));
    write_sidecar(&disk, &["api"]);
    assert_eq!(fault(&explicit(&["api"])), None);
    write_raw(&disk, b"no json");
    assert_eq!(fault(&explicit(&["api"])), Some(CacheFault::Body));
}

#[test]
fn long_documents_keep_all_their_networks() {
    let items: Vec<String> = (0..20_000u32)
        .map(|n| format!("\"10.{}.{}.{}\"", n / 65_536, n / 256 % 256, n % 256))
        .collect();
    let body = format!("{{\"api\":[{}]}}", items.join(","));
    let networks = parse_and_extract_networks(body.as_bytes(), None).expect("networks");
    assert_eq!(networks.len(), 20_000);
    assert_eq!(networks[19_999], v4(0x0a00_4e1f, 32));
}
