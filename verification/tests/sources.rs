//! Built-in sources of synchronization and lookup, and the files they read.

use std::collections::BTreeMap;

use kidobo::adapter::blocklist_file::{
    append_entries, document_from_contents, lines_contents, plan_normalization,
    skip_normalization, BlocklistFastState, BlocklistNormalizeResult,
};
use kidobo::adapter::blocklist_run::{next_action, NormalizeAction, NormalizeEvent};
use kidobo::adapter::cached_sources::{
    load_remote_sources, parse_cidr_source_line, read_remote_cache_iplist_text,
    CachedRemoteSource, LegacySourceFile,
};
use kidobo::adapter::digest::sha256_hex;
use kidobo::adapter::errors::SourceLoadError;
use kidobo::adapter::feed_aggregate::{
    remote_fetch_worker_count_for, FeedFetcher, FeedReply, FeedRequest, MAX_REMOTE_FETCH_WORKERS,
};
use kidobo::adapter::github_categories::GithubMetaCategorySidecar;
use kidobo::adapter::github_meta::{
    load_cached_github_meta_safelist, GithubMetaCacheMetadata, GithubReading,
};
use kidobo::adapter::lookup_sources::{
    build_offline_lookup_registry, BlocklistReading, OfflineFiles,
};
use kidobo::adapter::sync_sources::{
    build_sync_source_registry, AsnBansSyncProvider, ConfigSafelistSyncProvider,
    GithubMetadataSyncProvider, GithubPreparation, GithubRequest, LocalBlocklistSyncProvider,
    RemoteFeedsSyncProvider, SourceWork,
};
use kidobo::adapter::target_file::{lookup_target_lines, LOOKUP_TARGET_READ_LIMIT};
use kidobo::policy::blocklist::BlocklistDocument;
use kidobo::policy::cidr_text::parse_ip_cidr_token;
use kidobo::policy::config::{
    Config, GithubMetaCategoryMode, RawAsnConfig, RawConfig, RawIpsetConfig, RawSafeConfig,
};
use kidobo::policy::lookup::LookupSourceEntry;
use kidobo::policy::network_types::CanonicalCidr;
use kidobo::url_text::{
    has_same_http_origin, is_http_url, redirect_decision, RedirectDecision, MAX_HTTP_REDIRECTS,
};
use kidobo::workflow::blocklist_execute::AsnPrefixBatch;
use kidobo::workflow::error::AppError;
use kidobo::workflow::paths::{join_path, ResolvedPaths};
use kidobo::workflow::ports::NoCancellation;
use kidobo::workflow::source::{
    FailurePolicy, OfflineLookupContext, SourceRole, SyncSourceContext,
};
use serde_json::Value;

fn test_paths() -> ResolvedPaths {
    let root = "/root";
    ResolvedPaths {
        config_dir: join_path(root, "config"),
        config_file: join_path(root, "config/config.toml"),
        data_dir: join_path(root, "data"),
        blocklist_file: join_path(root, "data/blocklist.txt"),
        cache_dir: join_path(root, "cache"),
        remote_cache_dir: join_path(root, "cache/remote"),
        lock_file: join_path(root, "cache/sync.lock"),
    }
}

fn cidr(value: &str) -> CanonicalCidr {
    parse_ip_cidr_token(value).expect("valid CIDR")
}

fn strings(values: &[&str]) -> Vec<String> {
    values.iter().map(|value| value.to_string()).collect()
}

fn texts(networks: &[CanonicalCidr]) -> Vec<String> {
    networks.iter().map(CanonicalCidr::to_text).collect()
}

fn config(safe: RawSafeConfig, banned: &[i64]) -> Config {
    Config::from_raw(RawConfig {
        ipset: Some(RawIpsetConfig {
            set_name: Some("kidobo".to_string()),
            set_name_v6: None,
            enable_ipv6: None,
            chain_action: None,
            set_type: None,
            hashsize: None,
            maxelem: None,
            timeout: None,
        }),
        safe: Some(safe),
        remote: None,
        asn: Some(RawAsnConfig {
            banned: Some(banned.to_vec()),
            cache_stale_after_secs: None,
        }),
    })
    .expect("valid config")
}

fn safe(ips: &[&str], github: bool, url: Option<&str>, categories: &[&str]) -> RawSafeConfig {
    RawSafeConfig {
        ips: Some(strings(ips)),
        include_github_meta: Some(github),
        github_meta_url: url.map(str::to_string),
        github_meta_categories: if categories.is_empty() {
            None
        } else {
            Some(strings(categories))
        },
    }
}

// Offline lookup --------------------------------------------------------------------------------

#[derive(Default)]
struct Files {
    blocklist: Option<Result<String, String>>,
    remote: BTreeMap<String, Result<String, String>>,
    remote_directory_error: Option<String>,
    github: Option<(Vec<u8>, Option<GithubMetaCacheMetadata>, Vec<String>)>,
    asn: BTreeMap<u32, Vec<CanonicalCidr>>,
}

impl Files {
    fn with_remote(files: &[(&str, &str)]) -> Files {
        Files {
            remote: files
                .iter()
                .map(|(name, contents)| (name.to_string(), Ok(contents.to_string())))
                .collect(),
            ..Files::default()
        }
    }
}

impl OfflineFiles for Files {
    fn blocklist(&self, _path: &String) -> BlocklistReading {
        match &self.blocklist {
            None => BlocklistReading::Missing,
            Some(Ok(text)) => BlocklistReading::Text(text.clone()),
            Some(Err(reason)) => BlocklistReading::Unreadable(reason.clone()),
        }
    }

    fn remote_sources(
        &self,
        cache_dir: &String,
    ) -> Result<Vec<CachedRemoteSource>, SourceLoadError> {
        if let Some(reason) = &self.remote_directory_error {
            return Err(SourceLoadError::CacheDir {
                path: cache_dir.clone(),
                reason: reason.clone(),
            });
        }
        let mut files = Vec::new();
        for (name, contents) in &self.remote {
            let Some(stem) = name.strip_suffix(".iplist") else {
                continue;
            };
            let metadata: Option<Value> = self
                .remote
                .get(&format!("{stem}.meta.json"))
                .and_then(|text| text.as_ref().ok())
                .and_then(|text| serde_json::from_str(text).ok());
            let field = |key: &str| {
                metadata
                    .as_ref()
                    .and_then(|value| value.get(key))
                    .and_then(Value::as_str)
                    .map(str::to_string)
            };
            let checksum = field("sha256_iplist");
            files.push(LegacySourceFile {
                path: join_path(cache_dir, name),
                stem: Some(stem.to_string()),
                file_name: name.clone(),
                metadata_url: field("url"),
                contents: contents
                    .clone()
                    .and_then(|text| read_remote_cache_iplist_text(text, checksum.as_deref())),
            });
        }
        load_remote_sources(Vec::new(), files)
    }

    fn github_networks(
        &self,
        _cache_dir: &String,
        url: &String,
        mode: &GithubMetaCategoryMode,
    ) -> Option<Vec<CanonicalCidr>> {
        let (raw, metadata, categories) = self.github.as_ref()?;
        load_cached_github_meta_safelist(
            Vec::new(),
            GithubReading {
                raw: Some(raw.clone()),
                metadata: metadata.clone(),
                sidecar: Some(GithubMetaCategorySidecar {
                    mode: "selected".to_string(),
                    categories: categories.clone(),
                }),
            },
            url,
            mode,
        )
    }

    fn asn_prefixes(
        &self,
        asn: u32,
        _cache_dir: &String,
    ) -> Result<Option<Vec<CanonicalCidr>>, String> {
        Ok(self.asn.get(&asn).cloned())
    }
}

fn load(files: &Files, config: Option<&Config>) -> Result<Vec<LookupSourceEntry>, AppError> {
    build_offline_lookup_registry(files)?.load(&OfflineLookupContext {
        cancellation: &NoCancellation,
        paths: &test_paths(),
        config,
    })
}

fn rendered(entries: &[LookupSourceEntry]) -> Vec<(&str, &str)> {
    entries
        .iter()
        .map(|entry| (entry.source_label.as_str(), entry.source_line.as_str()))
        .collect()
}

#[test]
fn offline_registry_has_stable_cache_only_provider_order() {
    assert_eq!(
        build_offline_lookup_registry(&Files::default())
            .expect("registry")
            .provider_ids(),
        [
            "local-blocklist",
            "remote-cache",
            "config-safelist",
            "github-meta-cache",
            "asn-cache",
        ]
    );
}

#[test]
fn loads_blocklist_and_remote_cached_sources() {
    let mut files = Files::with_remote(&[
        ("a.iplist", "2001:db8::/64\n"),
        (
            "a.meta.json",
            r#"{"url":"https://example.com/allowlist.txt"}"#,
        ),
        ("ignore.txt", "10.0.0.1\n"),
    ]);
    files.blocklist = Some(Ok(
        "10.0.0.0/24\ninvalid\n198.51.100.7 trailing\n".to_string()
    ));

    let entries = load(&files, None).expect("load sources");

    assert_eq!(
        rendered(&entries),
        vec![
            ("https://example.com/allowlist.txt", "2001:db8::/64"),
            ("internal:blocklist", "10.0.0.0/24"),
            ("internal:blocklist", "198.51.100.7"),
        ]
    );
}

#[test]
fn remote_source_label_falls_back_to_cache_file_when_metadata_missing() {
    let entries = load(&Files::with_remote(&[("a.iplist", "2001:db8::/64\n")]), None)
        .expect("load sources");

    assert_eq!(entries.len(), 1);
    assert_eq!(entries[0].source_label, "remote:a.iplist");
}

#[test]
fn remote_source_label_falls_back_to_cache_file_when_metadata_invalid() {
    let entries = load(
        &Files::with_remote(&[("a.iplist", "2001:db8::/64\n"), ("a.meta.json", "{")]),
        None,
    )
    .expect("load sources");

    assert_eq!(entries.len(), 1);
    assert_eq!(entries[0].source_label, "remote:a.iplist");
}

#[test]
fn hash_mismatched_remote_iplist_is_rejected() {
    let metadata = format!(
        "{{\"url\":\"https://example.com/a.txt\",\"etag\":null,\"last_modified\":null,\"sha256_raw\":\"{}\",\"sha256_iplist\":\"{}\"}}",
        sha256_hex(b"raw"),
        sha256_hex(b"10.0.0.0/24\n")
    );
    let error = load(
        &Files::with_remote(&[("a.iplist", "2001:db8::/64\n"), ("a.meta.json", &metadata)]),
        None,
    )
    .expect_err("load must fail");
    assert!(error.message().contains("hash mismatch"));
}

#[test]
fn remote_entries_are_sorted_by_resolved_label_not_cache_filename() {
    let entries = load(
        &Files::with_remote(&[
            ("a.iplist", "2001:db8::/64\n"),
            ("a.meta.json", r#"{"url":"https://example.com/z.txt"}"#),
            ("b.iplist", "10.0.0.0/24\n"),
            ("b.meta.json", r#"{"url":"https://example.com/a.txt"}"#),
        ]),
        None,
    )
    .expect("load sources");
    let labels = entries
        .iter()
        .map(|entry| entry.source_label.as_str())
        .collect::<Vec<_>>();

    assert_eq!(
        labels,
        vec!["https://example.com/a.txt", "https://example.com/z.txt"]
    );
}

#[test]
fn multiple_remote_files_with_same_label_are_all_loaded() {
    let entries = load(
        &Files::with_remote(&[
            ("a.iplist", "2001:db8::/64\n"),
            ("b.iplist", "10.0.0.0/24\n"),
            ("a.meta.json", r#"{"url":"https://example.com/shared.txt"}"#),
            ("b.meta.json", r#"{"url":"https://example.com/shared.txt"}"#),
        ]),
        None,
    )
    .expect("load sources");

    assert_eq!(
        rendered(&entries),
        vec![
            ("https://example.com/shared.txt", "10.0.0.0/24"),
            ("https://example.com/shared.txt", "2001:db8::/64"),
        ]
    );
}

#[test]
fn loads_all_configured_safelist_and_cached_asn_sources() {
    let config = config(
        safe(&["10.0.0.0/24", "2001:db8::/64"], true, None, &["api"]),
        &[64512, 64513],
    );
    let files = Files {
        github: Some((
            br#"{"api":["192.0.2.0/24","2001:db8:1::/64"]}"#.to_vec(),
            None,
            strings(&["api"]),
        )),
        asn: BTreeMap::from([
            (
                64512,
                vec![
                    cidr("192.0.2.0/24"),
                    cidr("198.51.100.0/24"),
                    cidr("2001:db8:2::/64"),
                ],
            ),
            (64513, vec![cidr("192.0.2.0/24"), cidr("203.0.113.0/24")]),
            (64514, vec![cidr("100.64.0.0/10")]),
        ]),
        ..Files::default()
    };

    let entries = load(&files, Some(&config)).expect("load sources");

    assert_eq!(
        rendered(&entries),
        vec![
            ("asn:AS64512", "192.0.2.0/24"),
            ("asn:AS64512", "198.51.100.0/24"),
            ("asn:AS64512", "2001:db8:2::/64"),
            ("asn:AS64513", "192.0.2.0/24"),
            ("asn:AS64513", "203.0.113.0/24"),
            ("safelist:config", "10.0.0.0/24"),
            ("safelist:config", "2001:db8::/64"),
            ("safelist:github-meta", "192.0.2.0/24"),
            ("safelist:github-meta", "2001:db8:1::/64"),
        ]
    );
}

#[test]
fn loads_static_safelist_without_cache_directories() {
    let config = config(safe(&["192.0.2.0/24"], false, None, &[]), &[]);

    let entries = load(&Files::default(), Some(&config)).expect("load sources");

    assert_eq!(entries.len(), 1);
    assert_eq!(entries[0].source_label, "safelist:config");
    assert_eq!(entries[0].source_line, "192.0.2.0/24");
}

#[test]
fn github_safelist_respects_custom_url_and_selected_categories() {
    let url = "https://example.com/meta.json";
    let config = config(safe(&[], true, Some(url), &["api"]), &[]);
    let raw = br#"{"api":["192.0.2.0/24"],"actions":["198.51.100.0/24"]}"#;
    let files = Files {
        github: Some((
            raw.to_vec(),
            Some(GithubMetaCacheMetadata {
                url: url.to_string(),
                etag: None,
                last_modified: None,
                sha256_raw: sha256_hex(raw),
            }),
            strings(&["api"]),
        )),
        ..Files::default()
    };

    let entries = load(&files, Some(&config)).expect("load sources");

    assert_eq!(
        rendered(&entries),
        vec![("safelist:github-meta", "192.0.2.0/24")]
    );
}

#[test]
fn missing_configured_asn_cache_is_not_resolved_or_globbed() {
    let config = config(safe(&[], false, None, &[]), &[64512]);
    let files = Files {
        asn: BTreeMap::from([(64513, vec![cidr("203.0.113.0/24")])]),
        ..Files::default()
    };

    let entries = load(&files, Some(&config)).expect("load sources");

    assert!(entries.is_empty());
}

#[test]
fn disabled_github_safelist_cache_is_not_loaded() {
    let config = config(safe(&[], false, None, &["api"]), &[]);
    let files = Files {
        github: Some((
            br#"{"api":["192.0.2.0/24"]}"#.to_vec(),
            None,
            strings(&["api"]),
        )),
        ..Files::default()
    };

    let entries = load(&files, Some(&config)).expect("load sources");

    assert!(entries.is_empty());
}

#[test]
fn missing_source_files_return_empty_entries() {
    let entries = load(&Files::default(), None).expect("load sources");
    assert!(entries.is_empty());
}

#[test]
fn source_read_errors_are_reported() {
    let files = Files {
        blocklist: Some(Err("is a directory".to_string())),
        ..Files::default()
    };

    let error = load(&files, None).expect_err("must fail");
    assert!(error.message().contains("failed to read source file"));
}

#[test]
fn oversized_remote_iplist_is_rejected() {
    let files = Files {
        remote: BTreeMap::from([(
            "a.iplist".to_string(),
            Err("file exceeds 16777216 byte limit".to_string()),
        )]),
        ..Files::default()
    };

    let error = load(&files, None).expect_err("must fail");
    assert!(error
        .message()
        .contains("file exceeds 16777216 byte limit"));
}

#[test]
fn cache_dir_entry_errors_are_reported() {
    let files = Files {
        remote_directory_error: Some("not a directory".to_string()),
        ..Files::default()
    };

    let error = load(&files, None).expect_err("must fail");
    assert!(error
        .message()
        .contains("failed to read remote cache directory"));
}

#[test]
fn parse_lookup_source_line_tolerates_comments_and_blank_lines() {
    assert!(parse_cidr_source_line("# comment").is_none());
    assert!(parse_cidr_source_line("   ").is_none());

    let parsed = parse_cidr_source_line("203.0.113.1 # trailing").expect("parse");
    assert_eq!(parsed.1, "203.0.113.1");
}

#[test]
fn io_error_display_is_stable() {
    let io_err = std::io::Error::other("boom");
    assert_eq!(io_err.to_string(), "boom");
}

// Synchronization -------------------------------------------------------------------------------

struct Work {
    normalized: Result<BlocklistNormalizeResult, String>,
    blocklist: String,
    github: Result<(Vec<&'static str>, Option<String>), String>,
    asn: BTreeMap<u32, Result<AsnPrefixBatch, String>>,
}

fn work() -> Work {
    Work {
        normalized: Ok(BlocklistNormalizeResult::Checked),
        blocklist: String::new(),
        github: Ok((Vec::new(), None)),
        asn: BTreeMap::new(),
    }
}

impl FeedFetcher for Work {
    fn fetch_feeds(&self, _request: FeedRequest<'_>) -> Vec<FeedReply> {
        Vec::new()
    }
}

impl SourceWork for Work {
    fn normalize_blocklist(
        &self,
        path: &String,
        _fast_state_path: &String,
    ) -> Result<BlocklistNormalizeResult, AppError> {
        self.normalized
            .clone()
            .map_err(|reason| AppError::BlocklistRead {
                path: path.clone(),
                reason,
            })
    }

    fn load_blocklist(&self, path: &String) -> Result<BlocklistDocument, AppError> {
        document_from_contents(path, &Some(self.blocklist.clone()))
    }

    fn prepare_github(&self, _request: GithubRequest<'_>) -> Result<GithubPreparation, String> {
        self.github
            .clone()
            .map(|(networks, staging_failure)| GithubPreparation {
                primary: networks.into_iter().map(cidr).collect(),
                fallback: None,
                promotion: None,
                staging_failure,
            })
    }

    fn asn_prefixes(
        &self,
        asn: u32,
        _cache_dir: &String,
        _stale_after_secs: u32,
    ) -> Result<AsnPrefixBatch, String> {
        self.asn
            .get(&asn)
            .cloned()
            .unwrap_or_else(|| Err("unknown ASN".to_string()))
    }
}

#[test]
fn production_provider_uses_root_product_identity() {
    let work = work();
    let provider = RemoteFeedsSyncProvider::new(&work, "kidobo/1.2.3");
    assert_eq!(provider.user_agent, "kidobo/1.2.3");
}

#[test]
fn built_in_registry_has_stable_order_roles_and_policies() {
    let work = work();
    let descriptors = build_sync_source_registry(&work, "1.2.3")
        .expect("registry")
        .descriptors();
    assert_eq!(
        descriptors
            .iter()
            .map(|descriptor| (descriptor.id, descriptor.role, descriptor.failure_policy))
            .collect::<Vec<_>>(),
        [
            (
                "local-blocklist",
                SourceRole::Candidate,
                FailurePolicy::Required
            ),
            (
                "remote-feeds",
                SourceRole::Candidate,
                FailurePolicy::BestEffort
            ),
            (
                "config-safelist",
                SourceRole::Safelist,
                FailurePolicy::Required
            ),
            (
                "github-metadata",
                SourceRole::ExternalSafelist,
                FailurePolicy::BestEffort
            ),
            ("asn-bans", SourceRole::Candidate, FailurePolicy::Required),
        ]
    );
}

#[test]
fn remote_worker_count_is_bounded_by_urls_cpus_and_cap() {
    assert_eq!(remote_fetch_worker_count_for(0, 8), 0);
    assert_eq!(remote_fetch_worker_count_for(2, 8), 2);
    assert_eq!(remote_fetch_worker_count_for(20, 2), 2);
    assert_eq!(
        remote_fetch_worker_count_for(20, 64),
        MAX_REMOTE_FETCH_WORKERS
    );
    assert_eq!(remote_fetch_worker_count_for(2, 0), 1);
}

#[test]
fn built_in_providers_load_their_batches() {
    let paths = test_paths();
    let env = Vec::new();
    let config = config(
        safe(&["10.0.0.0/24"], true, None, &["api"]),
        &[64512],
    );
    let context = SyncSourceContext {
        cancellation: &NoCancellation,
        paths: &paths,
        config: &config,
        env: &env,
    };
    let mut work = work();
    work.normalized = Ok(BlocklistNormalizeResult::SkippedUnchanged);
    work.blocklist = "# note\n192.0.2.0/24\n".to_string();
    work.github = Ok((vec!["192.30.252.0/22"], None));
    work.asn.insert(
        64512,
        Ok(AsnPrefixBatch {
            prefixes: vec![cidr("198.51.100.0/24")],
            stale: true,
        }),
    );

    let local = LocalBlocklistSyncProvider { work: &work }
        .batch(&context)
        .expect("local blocklist");
    assert_eq!(texts(&local.primary.networks), ["192.0.2.0/24"]);
    assert_eq!(
        local.primary.notices[0].message,
        "sync blocklist normalization skipped: unchanged path=/root/data/blocklist.txt"
    );
    let safelist = ConfigSafelistSyncProvider
        .batch(&context)
        .expect("safelist");
    assert_eq!(texts(&safelist.primary.networks), ["10.0.0.0/24"]);
    let github = GithubMetadataSyncProvider::new(&work, "kidobo/1.2.3")
        .batch(&context)
        .expect("github");
    assert_eq!(texts(&github.primary.networks), ["192.30.252.0/22"]);
    let asn = AsnBansSyncProvider { work: &work }
        .batch(&context)
        .expect("ASN bans");
    assert_eq!(texts(&asn.primary.networks), ["198.51.100.0/24"]);
    assert_eq!(asn.primary.notices.len(), 1);
}

// Files -----------------------------------------------------------------------------------------

#[test]
fn reads_target_lines() {
    let targets = lookup_target_lines(
        &"targets.txt".to_string(),
        Ok("10.0.0.1\n2001:db8::1\n".to_string()),
    )
    .expect("read");
    assert_eq!(targets, vec!["10.0.0.1", "2001:db8::1"]);
}

#[test]
fn reports_file_read_error() {
    let missing = "/definitely/missing/targets.txt".to_string();
    let error =
        lookup_target_lines(&missing, Err("no such file".to_string())).expect_err("must fail");
    match error {
        AppError::LookupTargetFileRead { path, .. } => assert_eq!(path, missing),
        _ => panic!("unexpected error variant"),
    }
}

#[test]
fn target_files_are_bounded() {
    assert_eq!(LOOKUP_TARGET_READ_LIMIT, 2_097_152);
}

#[test]
fn repository_append_preserves_unterminated_content() {
    assert_eq!(
        append_entries(
            "# header".to_string(),
            &strings(&["192.0.2.0/24"]),
            true,
            false
        ),
        "# header\n192.0.2.0/24\n"
    );
}

#[test]
fn appending_to_a_missing_file_writes_the_entries_alone() {
    assert_eq!(
        append_entries(String::new(), &strings(&["192.0.2.0/24"]), false, false),
        "192.0.2.0/24\n"
    );
}

#[test]
fn repository_write_lines_is_newline_terminated() {
    assert_eq!(
        lines_contents(&strings(&["# header", "2001:db8::/64"])),
        "# header\n2001:db8::/64\n"
    );
}

#[test]
fn document_load_reports_invalid_line_without_rewriting() {
    let path = "/root/data/blocklist.txt".to_string();
    let original = "# header\n192.0.2.1 trailing\n".to_string();

    let error = document_from_contents(&path, &Some(original.clone()))
        .expect_err("invalid line must fail");

    assert!(error.message().contains("at line 2"));
    assert!(plan_normalization(&path, &original).is_err());
}

/// The blocklist and its marker, with the state of each writing.
#[derive(Default)]
struct BlocklistFiles {
    contents: Option<String>,
    modified_nanos: u128,
    marker: Option<String>,
    writes: usize,
}

impl BlocklistFiles {
    fn state(&self) -> Option<BlocklistFastState> {
        self.contents.as_ref().map(|text| BlocklistFastState {
            byte_len: text.len() as u64,
            modified_nanos: self.modified_nanos,
        })
    }

    fn normalize(&mut self) -> Result<BlocklistNormalizeResult, AppError> {
        let path = "/root/data/blocklist.txt".to_string();
        let mut action = NormalizeAction::Inspect;
        loop {
            let event = match action {
                NormalizeAction::Inspect => NormalizeEvent::Found {
                    exists: self.contents.is_some(),
                    current: self.state(),
                    marker: self.marker.clone(),
                },
                NormalizeAction::Read => NormalizeEvent::Contents(Ok(self.contents.clone())),
                NormalizeAction::Write { contents } => {
                    self.contents = Some(contents);
                    self.modified_nanos += 1;
                    self.writes += 1;
                    NormalizeEvent::Written(Ok(()))
                }
                NormalizeAction::Capture => NormalizeEvent::Captured(self.state()),
                NormalizeAction::Mark { contents } => {
                    self.marker = Some(contents);
                    self.writes += 1;
                    NormalizeEvent::Marked
                }
                NormalizeAction::Ended(result) => return result,
            };
            action = next_action(&path, event);
        }
    }
}

#[test]
fn fast_state_skips_unchanged_blocklist_after_first_check() {
    let mut files = BlocklistFiles {
        contents: Some("192.0.2.1\n".to_string()),
        modified_nanos: 1,
        ..BlocklistFiles::default()
    };

    assert_eq!(
        files.normalize().expect("normalize"),
        BlocklistNormalizeResult::Checked
    );
    assert_eq!(files.marker.as_deref(), Some("v1 13 2\n"));
    assert_eq!(files.writes, 2);
    assert_eq!(
        files.normalize().expect("normalize"),
        BlocklistNormalizeResult::SkippedUnchanged
    );
    assert_eq!(files.writes, 2);
    assert_eq!(files.contents.as_deref(), Some("192.0.2.1/32\n"));
}

#[test]
fn fast_state_reports_missing_blocklist_without_writes() {
    let mut files = BlocklistFiles::default();
    assert_eq!(
        files.normalize().expect("normalize"),
        BlocklistNormalizeResult::MissingBlocklist
    );
    assert_eq!(files.marker, None);
    assert_eq!(files.writes, 0);
    assert_eq!(
        skip_normalization(false, None, None),
        Some(BlocklistNormalizeResult::MissingBlocklist)
    );
}

#[test]
fn a_canonical_blocklist_is_marked_without_being_rewritten() {
    let mut files = BlocklistFiles {
        contents: Some("192.0.2.1/32\n".to_string()),
        modified_nanos: 7,
        ..BlocklistFiles::default()
    };
    assert_eq!(
        files.normalize().expect("normalize"),
        BlocklistNormalizeResult::Checked
    );
    assert_eq!(files.modified_nanos, 7);
    assert_eq!(files.marker.as_deref(), Some("v1 13 7\n"));
}

#[test]
fn a_changed_blocklist_is_checked_again() {
    let mut files = BlocklistFiles {
        contents: Some("192.0.2.1/32\n".to_string()),
        modified_nanos: 1,
        ..BlocklistFiles::default()
    };
    files.normalize().expect("first");
    files.contents = Some("192.0.2.1/32\n192.0.2.1\n".to_string());
    files.modified_nanos = 2;
    assert_eq!(
        files.normalize().expect("second"),
        BlocklistNormalizeResult::Checked
    );
    assert_eq!(files.contents.as_deref(), Some("192.0.2.1/32\n"));
}

#[test]
fn an_invalid_blocklist_ends_the_normalization_without_writes() {
    let mut files = BlocklistFiles {
        contents: Some("192.0.2.1 trailing\n".to_string()),
        modified_nanos: 1,
        ..BlocklistFiles::default()
    };
    let error = files.normalize().expect_err("invalid line");
    assert!(matches!(error, AppError::BlocklistParseLine { line: 1, .. }));
    assert_eq!(files.writes, 0);
}

#[test]
fn failed_reads_and_writes_end_the_normalization() {
    let path = "/root/data/blocklist.txt".to_string();
    let failure = || AppError::BlocklistRead {
        path: path.clone(),
        reason: "denied".to_string(),
    };
    for event in [
        NormalizeEvent::Contents(Err(failure())),
        NormalizeEvent::Written(Err(failure())),
    ] {
        assert!(matches!(
            next_action(&path, event),
            NormalizeAction::Ended(Err(AppError::BlocklistRead { .. }))
        ));
    }
    assert!(matches!(
        next_action(&path, NormalizeEvent::Contents(Ok(None))),
        NormalizeAction::Capture
    ));
    assert!(matches!(
        next_action(&path, NormalizeEvent::Captured(None)),
        NormalizeAction::Ended(Ok(BlocklistNormalizeResult::Checked))
    ));
}

#[test]
fn unknown_markers_are_ignored() {
    for marker in ["", "v2 1 2\n", "v1 1\n", "v1 1 2 3\n", "v1 x 2\n"] {
        assert_eq!(BlocklistFastState::parse(marker), None);
    }
}

// Origins ---------------------------------------------------------------------------------------

#[test]
fn http_origin_requires_matching_scheme_host_and_effective_port() {
    let configured = "https://EXAMPLE.com/feed";

    assert!(has_same_http_origin(
        configured,
        "https://example.com:443/next"
    ));
    assert!(!has_same_http_origin(configured, "http://example.com/next"));
    assert!(!has_same_http_origin(
        configured,
        "https://other.example/next"
    ));
    assert!(!has_same_http_origin(
        configured,
        "https://example.com:8443/next"
    ));
}

#[test]
fn redirects_stay_on_their_origin_and_are_bounded() {
    let start = "https://example.com/feed".to_string();
    assert_eq!(
        redirect_decision(&[start.clone()], "https://example.com/next"),
        RedirectDecision::Follow
    );
    assert_eq!(
        redirect_decision(&[start.clone()], "https://other.example/next"),
        RedirectDecision::CrossOrigin
    );
    assert_eq!(
        redirect_decision(&[], "https://example.com/next"),
        RedirectDecision::MissingInitial
    );
    assert_eq!(
        redirect_decision(
            &vec![start.clone(); MAX_HTTP_REDIRECTS],
            "https://example.com/next"
        ),
        RedirectDecision::Follow
    );
    assert_eq!(
        redirect_decision(
            &vec![start; MAX_HTTP_REDIRECTS + 1],
            "https://example.com/next"
        ),
        RedirectDecision::TooMany
    );
    assert!(is_http_url("http://example.com"));
    assert!(!is_http_url("ftp://example.com"));
    assert!(!is_http_url("example.com"));
}

#[test]
fn followed_redirects_stay_with_the_requested_origin() {
    let mut visited = vec!["https://example.com/0".to_string()];
    loop {
        let target = format!("https://EXAMPLE.com:443/{}", visited.len());
        match redirect_decision(&visited, &target) {
            RedirectDecision::Follow => visited.push(target),
            decision => {
                assert_eq!(decision, RedirectDecision::TooMany);
                break;
            }
        }
    }

    assert_eq!(visited.len(), MAX_HTTP_REDIRECTS + 1);
    for first in &visited {
        for second in &visited {
            assert!(has_same_http_origin(first, second));
        }
    }
}
