//! Command workflows over recording ports.

use std::cell::RefCell;
use std::rc::Rc;

use kidobo::policy::blocklist::BlocklistDocument;
use kidobo::policy::config::{Config, ConfigError, RawConfig, RawIpsetConfig};
use kidobo::policy::lookup::LookupSourceEntry;
use kidobo::policy::cidr_text::parse_ip_cidr_token;
use kidobo::policy::network_types::{AddressFamily, CanonicalCidr};
use kidobo::workflow::asn_execute::{execute_ban_asn, execute_unban_asn};
use kidobo::workflow::blocklist::{
    build_preview, is_unusable, parse_target_lines, plan_approved_unban, plan_ban_input,
    plan_duplicate_removal, BanChange, BanOutcome, BlocklistInput, UnbanDecision, UnbanPreparation,
};
use kidobo::workflow::blocklist_execute::{
    apply_unban, execute_ban, parse_input, prepare_unban, AsnBanOutcome, AsnBanRequest,
    AsnConfigUpdate, AsnOperations, AsnPrefixBatch, AsnUnbanOutcome, BanRequest,
    BlocklistDependencies, BlocklistRepository, UnbanRequest,
};
use kidobo::workflow::doctor::{
    self, CacheReadiness, DoctorCheckStatus, DoctorDependencies, DoctorOverall, DoctorProbe,
    ProbeFailure,
};
use kidobo::workflow::error::AppError;
use kidobo::workflow::flush::{
    self, FirewallFamily, FlushBackend, FlushDependencies, FlushRequest,
};
use kidobo::workflow::init::{
    self, build_systemd_service_template, InitDependencies, InitOutcome, InitProvisioner,
    InitRequest,
    ProvisionState, DEFAULT_SYSTEMD_TIMER_TEMPLATE,
};
use kidobo::workflow::lookup::{self, LookupDependencies, LookupInput, LookupRequest};
use kidobo::workflow::paths::{join_path, ConfigRequirement, PathResolutionInput, ResolvedPaths};
use kidobo::workflow::ports::{
    Cancellation, ConfigRepository, LockGuard, LockManager, NoCancellation, PathResolver,
    TargetFileReader,
};
use kidobo::workflow::source::{
    FailurePolicy, Notice, OfflineLookupContext, OfflineLookupProvider, OfflineLookupRegistry,
    PendingCachePromotion, SourceRole, StagedPromotion, SyncSourceBatch, SyncSourceContext,
    SyncSourceDescriptor, SyncSourceLoad, SyncSourceProvider, SyncSourceRegistry,
};
use kidobo::workflow::sync::{
    EnforcementBackend, EnforcementPlan, ManagedSetSpec, SyncObserver, SyncOutcome,
};
use kidobo::workflow::sync_execute::{self, SyncDependencies};

// Shared ports ----------------------------------------------------------------------------------

type Ledger = Rc<RefCell<Vec<String>>>;

fn record(ledger: &Ledger, event: &str) {
    ledger.borrow_mut().push(event.to_string());
}

fn events(ledger: &Ledger) -> Vec<String> {
    ledger.borrow().clone()
}

fn has(ledger: &Ledger, event: &str) -> bool {
    ledger.borrow().iter().any(|seen| seen == event)
}

fn cidr(value: &str) -> CanonicalCidr {
    parse_ip_cidr_token(value).expect("valid CIDR")
}

fn config(enable_ipv6: bool, maxelem: Option<i64>) -> Config {
    Config::from_raw(RawConfig {
        ipset: Some(RawIpsetConfig {
            set_name: Some("kidobo".to_string()),
            set_name_v6: None,
            enable_ipv6: Some(enable_ipv6),
            chain_action: None,
            set_type: None,
            hashsize: None,
            maxelem,
            timeout: None,
        }),
        safe: None,
        remote: None,
        asn: None,
    })
    .expect("valid config")
}

fn request_paths() -> PathResolutionInput {
    PathResolutionInput {
        explicit_config_path: None,
        temp_dir: "/tmp".to_string(),
        env: Vec::new(),
    }
}

struct Paths {
    ledger: Ledger,
    expected: Option<ConfigRequirement>,
}

fn paths() -> Paths {
    Paths {
        ledger: Ledger::default(),
        expected: None,
    }
}

impl PathResolver for Paths {
    fn resolve(
        &self,
        _input: &PathResolutionInput,
        requirement: ConfigRequirement,
    ) -> Result<ResolvedPaths, AppError> {
        if let Some(expected) = self.expected {
            assert_eq!(requirement, expected);
        }
        record(&self.ledger, "paths");
        let root = "/test-root";
        Ok(ResolvedPaths {
            config_dir: join_path(root, "config"),
            config_file: join_path(root, "config/config.toml"),
            data_dir: join_path(root, "data"),
            blocklist_file: join_path(root, "data/blocklist.txt"),
            cache_dir: join_path(root, "cache"),
            remote_cache_dir: join_path(root, "cache/remote"),
            lock_file: join_path(root, "cache/sync.lock"),
        })
    }
}

struct Configs {
    ledger: Ledger,
    config: Config,
}

impl Configs {
    fn of(config: Config) -> Self {
        Configs {
            ledger: Ledger::default(),
            config,
        }
    }
}

impl ConfigRepository for Configs {
    fn load(&self, _path: &String) -> Result<Config, AppError> {
        record(&self.ledger, "config");
        Ok(self.config.clone())
    }
}

struct Guard(Ledger);

impl LockGuard for Guard {}

impl Drop for Guard {
    fn drop(&mut self) {
        record(&self.0, "unlock");
    }
}

#[derive(Default)]
struct Locks(Ledger);

impl LockManager for Locks {
    fn acquire(&self, _path: &String) -> Result<Box<dyn LockGuard>, AppError> {
        record(&self.0, "lock");
        Ok(Box::new(Guard(Rc::clone(&self.0))))
    }
}

struct Cancelled;

impl Cancellation for Cancelled {
    fn is_cancelled(&self) -> bool {
        true
    }
}

// Blocklist -------------------------------------------------------------------------------------

struct Repository {
    contents: RefCell<String>,
    target_lines: RefCell<Vec<String>>,
}

impl Repository {
    fn new(contents: &str) -> Self {
        Self {
            contents: RefCell::new(contents.to_string()),
            target_lines: RefCell::new(Vec::new()),
        }
    }

    fn contents(&self) -> String {
        self.contents.borrow().clone()
    }

    fn targets(&self, lines: &[&str]) {
        *self.target_lines.borrow_mut() = lines.iter().map(|line| line.to_string()).collect();
    }
}

impl BlocklistRepository for Repository {
    fn load(&self, path: &String) -> Result<BlocklistDocument, AppError> {
        BlocklistDocument::parse(&self.contents.borrow()).map_err(|error| {
            AppError::BlocklistParseLine {
                path: path.clone(),
                line: error.line_number,
                content: error.content,
            }
        })
    }

    fn append_entries(
        &self,
        _path: &String,
        entries: &Vec<String>,
        has_content: bool,
        trailing_newline: bool,
    ) -> Result<(), AppError> {
        let mut contents = self.contents.borrow_mut();
        if has_content && !trailing_newline {
            contents.push('\n');
        }
        for entry in entries {
            contents.push_str(entry);
            contents.push('\n');
        }
        Ok(())
    }

    fn write_lines(&self, _path: &String, lines: &Vec<String>) -> Result<(), AppError> {
        let mut rendered = lines.join("\n");
        if !rendered.is_empty() {
            rendered.push('\n');
        }
        *self.contents.borrow_mut() = rendered;
        Ok(())
    }

    fn read_target_lines(&self, _path: &String) -> Result<Vec<String>, AppError> {
        Ok(self.target_lines.borrow().clone())
    }
}

struct Asn {
    ledger: Ledger,
    asns: Vec<u32>,
    update: AsnConfigUpdate,
    prefixes: Result<AsnPrefixBatch, String>,
    delete: Result<bool, String>,
}

fn no_asn() -> Asn {
    Asn {
        ledger: Ledger::default(),
        asns: Vec::new(),
        update: AsnConfigUpdate {
            added: Vec::new(),
            removed: Vec::new(),
        },
        prefixes: Ok(AsnPrefixBatch {
            prefixes: Vec::new(),
            stale: false,
        }),
        delete: Ok(false),
    }
}

impl AsnOperations for Asn {
    fn normalize_tokens(&self, _tokens: &Vec<String>) -> Result<Vec<u32>, AppError> {
        Ok(self.asns.clone())
    }

    fn load_prefixes(
        &self,
        asn: u32,
        _cache_dir: &String,
        _stale_after_secs: u64,
    ) -> Result<AsnPrefixBatch, AppError> {
        record(&self.ledger, "prefixes");
        self.prefixes.clone().map_err(|reason| AppError::Asn {
            reason: format!("AS{asn}: {reason}"),
        })
    }

    fn update_config(
        &self,
        _config_path: &String,
        _add: &Vec<u32>,
        _remove: &Vec<u32>,
    ) -> Result<AsnConfigUpdate, AppError> {
        record(&self.ledger, "update");
        Ok(self.update.clone())
    }

    fn delete_cache(&self, _asn: u32, _cache_dir: &String) -> Result<bool, AppError> {
        record(&self.ledger, "delete");
        self.delete
            .clone()
            .map_err(|reason| AppError::LookupSourceLoad { reason })
    }
}

struct BlocklistPorts {
    paths: Paths,
    configs: Configs,
    locks: Locks,
    asn: Asn,
}

fn ports() -> BlocklistPorts {
    BlocklistPorts {
        paths: paths(),
        configs: Configs::of(config(true, None)),
        locks: Locks::default(),
        asn: no_asn(),
    }
}

impl BlocklistPorts {
    fn with<'a>(
        &'a self,
        repository: &'a Repository,
    ) -> BlocklistDependencies<'a, Paths, Configs, Locks, Repository, Asn> {
        BlocklistDependencies {
            paths: &self.paths,
            configs: &self.configs,
            locks: &self.locks,
            repository,
            asn: &self.asn,
        }
    }

    fn lock_count(&self) -> usize {
        self.locks
            .0
            .borrow()
            .iter()
            .filter(|event| *event == "lock")
            .count()
    }
}

#[test]
fn ban_classifies_existing_and_appends_only_new_entries() {
    let repository = Repository::new("# header\n192.0.2.0/24");
    repository.targets(&["192.0.2.0/24", "2001:db8::/64"]);
    let ports = ports();
    let outcome = execute_ban(
        &BanRequest {
            paths: request_paths(),
            input: BlocklistInput::File("targets.txt".to_string()),
        },
        &ports.with(&repository),
    )
    .expect("ban");

    assert_eq!(
        outcome.changes,
        [
            BanChange::AlreadyPresent("192.0.2.0/24".to_string()),
            BanChange::Added("2001:db8::/64".to_string()),
        ]
    );
    assert_eq!(
        repository.contents(),
        "# header\n192.0.2.0/24\n2001:db8::/64\n"
    );
    assert_eq!(ports.lock_count(), 1);
}

#[test]
fn file_ban_reports_all_invalid_targets_without_mutating() {
    let repository = Repository::new("192.0.2.0/24\n");
    repository.targets(&["bad-one", "bad-two"]);
    let outcome = execute_ban(
        &BanRequest {
            paths: request_paths(),
            input: BlocklistInput::File("targets.txt".to_string()),
        },
        &ports().with(&repository),
    )
    .expect("typed invalid outcome");

    assert_eq!(outcome.invalid_targets, ["bad-one", "bad-two"]);
    assert_eq!(repository.contents(), "192.0.2.0/24\n");
}

#[test]
fn comment_lines_of_a_target_file_are_no_targets() {
    let repository = Repository::new("");
    repository.targets(&["# comment", "192.0.2.1"]);
    let input = BlocklistInput::File("targets.txt".to_string());
    let parsed = parse_input(&input, &repository).expect("parse");
    assert_eq!(parsed.targets, [cidr("192.0.2.1/32")]);
    assert!(parsed.invalid_targets.is_empty());
    assert!(!parsed.empty_file);

    let parsed = parse_target_lines(vec![
        "  # indented".to_string(),
        "10.0.0.0/8".to_string(),
        String::new(),
        "bad".to_string(),
        "#192.0.2.7".to_string(),
    ]);
    assert_eq!(parsed.targets, [cidr("10.0.0.0/8")]);
    assert_eq!(parsed.invalid_targets, ["", "bad"]);
    assert!(!parsed.empty_file);

    let outcome = execute_ban(
        &BanRequest {
            paths: request_paths(),
            input,
        },
        &ports().with(&repository),
    )
    .expect("ban");
    assert_eq!(
        outcome.changes,
        [BanChange::Added("192.0.2.1/32".to_string())]
    );
}

#[test]
fn a_target_file_of_comments_alone_is_empty() {
    for lines in [Vec::new(), vec!["# a".to_string(), " # b".to_string()]] {
        let parsed = parse_target_lines(lines);
        assert!(parsed.empty_file);
        assert!(parsed.targets.is_empty());
        assert!(parsed.invalid_targets.is_empty());
    }
}

#[test]
fn unusable_targets_plan_no_addition() {
    let document = BlocklistDocument::parse("192.0.2.0/24").expect("document");
    let lines = |texts: &[&str]| {
        parse_target_lines(texts.iter().map(|text| (*text).to_string()).collect())
    };

    let mixed = lines(&["10.0.0.1", "bad", "10.0.0.2"]);
    assert_eq!(mixed.targets, [cidr("10.0.0.1/32"), cidr("10.0.0.2/32")]);
    assert!(is_unusable(&mixed));
    for refused in [mixed, lines(&["# remark"]), lines(&[])] {
        let plan = plan_ban_input(&refused, &document);
        assert!(plan.appended.is_empty());
        assert!(plan.changes.is_empty());
    }

    let plan = plan_ban_input(&lines(&["192.0.2.0/24", "10.0.0.1"]), &document);
    assert_eq!(plan.appended, ["10.0.0.1/32"]);
    assert_eq!(
        plan.changes,
        [
            BanChange::AlreadyPresent("192.0.2.0/24".to_string()),
            BanChange::Added("10.0.0.1/32".to_string()),
        ]
    );
}

#[test]
fn one_invalid_target_keeps_an_unterminated_blocklist_as_it_is() {
    let repository = Repository::new("192.0.2.0/24");
    repository.targets(&["10.0.0.1", "bad"]);
    let outcome = execute_ban(
        &BanRequest {
            paths: request_paths(),
            input: BlocklistInput::File("targets.txt".to_string()),
        },
        &ports().with(&repository),
    )
    .expect("typed invalid outcome");
    assert!(outcome.changes.is_empty());
    assert_eq!(outcome.invalid_targets, ["bad"]);
    assert!(!outcome.empty_file);
    assert_eq!(repository.contents(), "192.0.2.0/24");
}

#[test]
fn an_unban_counts_repeated_targets_once() {
    let target = cidr("10.0.0.1/32");
    let preview = build_preview(
        &BlocklistInput::File("targets.txt".to_string()),
        vec![target, target],
        &BlocklistDocument::parse("10.0.0.1\n").expect("document"),
    );
    assert_eq!(preview.requested_target_count, 1);
    assert_eq!(preview.exact_entries, ["10.0.0.1/32"]);
    assert!(preview.partial_entries.is_empty());
    assert_eq!(preview.target_label, "2 file target(s)");

    let repository = Repository::new("10.0.0.1\n10.0.0.2\n");
    repository.targets(&["10.0.0.1", "10.0.0.2", "10.0.0.1/32"]);
    let ports = ports();
    let request = UnbanRequest {
        paths: request_paths(),
        input: BlocklistInput::File("targets.txt".to_string()),
    };
    let preview = prepare_unban(&request, &ports.with(&repository))
        .expect("prepare")
        .preview
        .expect("preview");
    let outcome = apply_unban(
        &request,
        &preview,
        &UnbanDecision {
            remove_partial: false,
        },
        &ports.with(&repository),
    )
    .expect("apply");
    assert_eq!(outcome.requested_target_count, 2);
    assert_eq!(outcome.removed_exact, 2);
}

#[test]
fn configuration_failures_convert_to_workflow_failures() {
    let error = AppError::from(ConfigError::InvalidField {
        field: "ipset.set_name",
        reason: "bad".to_string(),
    });
    assert!(matches!(
        error,
        AppError::ConfigParse {
            source: ConfigError::InvalidField { .. }
        }
    ));
}

#[test]
fn a_repeated_ban_adds_nothing() {
    let repository = Repository::new("# header\n");
    let ports = ports();
    let request = BanRequest {
        paths: request_paths(),
        input: BlocklistInput::Single("198.51.100.7".to_string()),
    };

    let first = execute_ban(&request, &ports.with(&repository)).expect("first ban");
    assert_eq!(
        first.changes,
        [BanChange::Added("198.51.100.7/32".to_string())]
    );
    let contents = repository.contents();

    let second = execute_ban(&request, &ports.with(&repository)).expect("second ban");
    assert_eq!(
        second.changes,
        [BanChange::AlreadyPresent("198.51.100.7/32".to_string())]
    );
    assert_eq!(repository.contents(), contents);
}

#[test]
fn a_single_invalid_target_is_an_error() {
    let repository = Repository::new("192.0.2.0/24\n");
    let error = execute_ban(
        &BanRequest {
            paths: request_paths(),
            input: BlocklistInput::Single("bad".to_string()),
        },
        &ports().with(&repository),
    )
    .expect_err("invalid target");
    assert!(matches!(error, AppError::BlocklistTargetParse { .. }));
}

#[test]
fn unban_applies_exact_and_user_approved_partial_matches() {
    let repository = Repository::new("10.0.0.0/24\n10.0.0.1/32\n192.0.2.0/24\n");
    let ports = ports();
    let request = UnbanRequest {
        paths: request_paths(),
        input: BlocklistInput::Single("10.0.0.1".to_string()),
    };
    let preparation = prepare_unban(&request, &ports.with(&repository)).expect("preview");
    let preview = preparation.preview.expect("preview");
    assert_eq!(preview.exact_entries, ["10.0.0.1/32"]);
    assert_eq!(preview.partial_entries, ["10.0.0.0/24"]);

    let outcome = apply_unban(
        &request,
        &preview,
        &UnbanDecision {
            remove_partial: true,
        },
        &ports.with(&repository),
    )
    .expect("apply");

    assert_eq!(outcome.removed_exact, 1);
    assert_eq!(outcome.removed_partial, 1);
    assert_eq!(outcome.total_removed(), 2);
    assert_eq!(repository.contents(), "192.0.2.0/24\n");
}

#[test]
fn declined_partial_matches_stay() {
    let repository = Repository::new("10.0.0.0/24\n10.0.0.1/32\n");
    let ports = ports();
    let request = UnbanRequest {
        paths: request_paths(),
        input: BlocklistInput::Single("10.0.0.1".to_string()),
    };
    let preview = prepare_unban(&request, &ports.with(&repository))
        .expect("prepare")
        .preview
        .expect("preview");
    let outcome = apply_unban(
        &request,
        &preview,
        &UnbanDecision {
            remove_partial: false,
        },
        &ports.with(&repository),
    )
    .expect("apply");
    assert_eq!(outcome.removed_exact, 1);
    assert_eq!(outcome.removed_partial, 0);
    assert!(outcome.had_partial_matches);
    assert_eq!(repository.contents(), "10.0.0.0/24\n");
}

#[test]
fn unban_reloads_after_lock_and_rejects_changed_preview() {
    let repository = Repository::new("10.0.0.0/24\n");
    let ports = ports();
    let request = UnbanRequest {
        paths: request_paths(),
        input: BlocklistInput::Single("10.0.0.1".to_string()),
    };
    let preview = prepare_unban(&request, &ports.with(&repository))
        .expect("prepare")
        .preview
        .expect("preview");
    *repository.contents.borrow_mut() = "10.0.0.0/16\n".to_string();

    let error = apply_unban(
        &request,
        &preview,
        &UnbanDecision {
            remove_partial: false,
        },
        &ports.with(&repository),
    )
    .expect_err("race must fail");

    assert!(matches!(error, AppError::BlocklistChanged));
    assert_eq!(ports.lock_count(), 1);
}

#[test]
fn asn_unban_holds_the_process_lock_through_cache_deletion() {
    let ledger = Ledger::default();
    let mut ports = ports();
    ports.locks = Locks(Rc::clone(&ledger));
    ports.asn = Asn {
        ledger: Rc::clone(&ledger),
        asns: vec![64512],
        update: AsnConfigUpdate {
            added: Vec::new(),
            removed: vec![64512],
        },
        delete: Ok(true),
        ..no_asn()
    };
    let repository = Repository::new("");

    let outcome = execute_unban_asn(
        &AsnBanRequest {
            paths: request_paths(),
            tokens: vec!["AS64512".to_string()],
        },
        &ports.with(&repository),
    )
    .expect("unban ASN");

    assert_eq!(outcome.removed, [64512]);
    assert_eq!(outcome.deleted_cache_files, 1);
    assert_eq!(events(&ledger), ["lock", "update", "delete", "unlock"]);
}

#[test]
fn asn_ban_removes_exact_duplicates_of_its_prefixes() {
    let mut ports = ports();
    ports.asn = Asn {
        asns: vec![64512],
        update: AsnConfigUpdate {
            added: vec![64512],
            removed: Vec::new(),
        },
        prefixes: Ok(AsnPrefixBatch {
            prefixes: vec![cidr("192.0.2.0/24")],
            stale: true,
        }),
        ..no_asn()
    };
    let repository = Repository::new("192.0.2.0/24\n192.0.2.0/25\n");
    let outcome = execute_ban_asn(
        &AsnBanRequest {
            paths: request_paths(),
            tokens: vec!["AS64512".to_string()],
        },
        &ports.with(&repository),
    )
    .expect("ban ASN");
    assert_eq!(outcome.added, [64512]);
    assert_eq!(outcome.removed_duplicate_entries, 1);
    assert_eq!(outcome.notices.len(), 1);
    assert_eq!(repository.contents(), "192.0.2.0/25\n");
}

// Doctor ----------------------------------------------------------------------------------------

#[derive(Default)]
struct Probes {
    ledger: Ledger,
    missing: Option<&'static str>,
}

impl DoctorProbe for Probes {
    fn find_binary(&self, binary: &'static str) -> Option<String> {
        if self.missing == Some(binary) {
            None
        } else {
            Some(format!("/usr/bin/{binary}"))
        }
    }

    fn path_exists(&self, _path: &String) -> bool {
        true
    }

    fn cache_readiness(&self, _path: &String) -> Result<CacheReadiness, String> {
        Ok(CacheReadiness::ExistingDirectory)
    }

    fn run_sudo_probe(
        &self,
        command: &'static str,
        _arguments: &Vec<&'static str>,
    ) -> Result<(), ProbeFailure> {
        record(&self.ledger, command);
        Ok(())
    }
}

#[test]
fn disabled_ipv6_skips_binary_and_probe_without_invoking_them() {
    let probes = Probes::default();
    let report = doctor::execute(
        &request_paths(),
        &DoctorDependencies {
            cancellation: &NoCancellation,
            paths: &paths(),
            configs: &Configs::of(config(false, None)),
            probes: &probes,
        },
    )
    .expect("doctor report");

    assert_eq!(report.overall, DoctorOverall::Pass);
    let ip6_checks = report
        .checks
        .iter()
        .filter(|check| check.name.contains("ip6tables"))
        .collect::<Vec<_>>();
    assert_eq!(ip6_checks.len(), 2);
    assert!(ip6_checks
        .iter()
        .all(|check| check.status == DoctorCheckStatus::Skip));
    assert!(ip6_checks
        .iter()
        .all(|check| check.detail == "ipv6 disabled in config"));
    assert_eq!(events(&probes.ledger), ["ipset", "iptables"]);
}

#[test]
fn a_missing_binary_fails_the_report() {
    let probes = Probes {
        ledger: Ledger::default(),
        missing: Some("ipset"),
    };
    let report = doctor::execute(
        &request_paths(),
        &DoctorDependencies {
            cancellation: &NoCancellation,
            paths: &paths(),
            configs: &Configs::of(config(true, None)),
            probes: &probes,
        },
    )
    .expect("doctor report");
    assert_eq!(report.overall, DoctorOverall::Fail);
}

#[test]
fn a_cancelled_doctor_is_interrupted() {
    let result = doctor::execute(
        &request_paths(),
        &DoctorDependencies {
            cancellation: &Cancelled,
            paths: &paths(),
            configs: &Configs::of(config(true, None)),
            probes: &Probes::default(),
        },
    );
    assert!(matches!(result, Err(AppError::Interrupted)));
}

// Flush -----------------------------------------------------------------------------------------

struct Backend {
    ledger: Ledger,
    fail: bool,
}

impl Backend {
    fn new(fail: bool) -> Self {
        Backend {
            ledger: Ledger::default(),
            fail,
        }
    }

    fn run(&self, event: &str) -> Result<(), String> {
        record(&self.ledger, event);
        if self.fail {
            Err(format!("{event} failed"))
        } else {
            Ok(())
        }
    }
}

impl FlushBackend for Backend {
    fn cleanup_firewall(&self, family: FirewallFamily) -> Result<(), String> {
        self.run(&format!("firewall:{family:?}"))
    }

    fn destroy_ipset(&self, set_name: &String) -> Result<(), String> {
        self.run(&format!("ipset:{set_name}"))
    }

    fn clear_remote_cache(&self, _path: &String) -> Result<(), String> {
        self.run("cache")
    }
}

fn run_flush(backend: &Backend, configs: &Configs, cache_only: bool) -> flush::FlushOutcome {
    flush::execute(
        &FlushRequest {
            paths: request_paths(),
            cache_only,
        },
        &FlushDependencies {
            paths: &paths(),
            configs,
            locks: &Locks::default(),
            backend,
        },
    )
    .expect("flush")
}

#[test]
fn full_flush_attempts_every_cleanup_in_order() {
    let backend = Backend::new(false);
    let outcome = run_flush(&backend, &Configs::of(config(true, None)), false);

    assert!(outcome.failed.is_empty());
    assert_eq!(
        events(&backend.ledger),
        [
            "firewall:Ipv4",
            "firewall:Ipv6",
            "ipset:kidobo",
            "ipset:kidobo-v6",
            "cache",
        ]
    );
}

#[test]
fn full_flush_records_every_failure_without_stopping() {
    let backend = Backend::new(true);
    let outcome = run_flush(&backend, &Configs::of(config(true, None)), false);

    assert_eq!(outcome.failed.len(), 5);
    assert_eq!(events(&backend.ledger).len(), 5);
    assert!(outcome.failure_details().starts_with("firewall:Ipv4 failed; "));
}

#[test]
fn cache_only_flush_does_not_run_firewall_or_load_config() {
    let backend = Backend::new(false);
    let configs = Configs::of(config(true, None));
    run_flush(&backend, &configs, true);
    assert_eq!(events(&backend.ledger), ["cache"]);
    assert!(events(&configs.ledger).is_empty());
}

// Init ------------------------------------------------------------------------------------------

#[derive(Default)]
struct Provisioner {
    ledger: Ledger,
}

impl InitProvisioner for Provisioner {
    fn resolve_installed_executable(&self, _candidates: &Vec<String>) -> Result<String, AppError> {
        Ok("/usr/local/bin/kidobo".to_string())
    }

    fn ensure_dir(&self, path: &String) -> Result<ProvisionState, AppError> {
        record(&self.ledger, &format!("dir:{path}"));
        Ok(ProvisionState::Created)
    }

    fn ensure_file(&self, path: &String, _contents: &String) -> Result<ProvisionState, AppError> {
        record(&self.ledger, &format!("file:{path}"));
        Ok(ProvisionState::Preserved)
    }

    fn enable_systemd_timer(&self) -> Result<(), AppError> {
        record(&self.ledger, "systemd");
        Ok(())
    }
}

fn init_request(root_override: Option<&str>) -> InitRequest {
    InitRequest {
        paths: request_paths(),
        root_override: root_override.map(str::to_string),
        executable_candidates: vec!["/usr/local/bin/kidobo".to_string()],
    }
}

#[test]
fn provisions_all_artifacts_and_enables_systemd_on_host() {
    let provisioner = Provisioner::default();
    let outcome = init::execute(
        &init_request(None),
        &InitDependencies {
            cancellation: &NoCancellation,
            paths: &paths(),
            provisioner: &provisioner,
        },
    )
    .expect("init");
    assert_eq!(outcome.artifacts.len(), 9);
    assert!(outcome.systemd_enabled);
    assert_eq!(
        events(&provisioner.ledger).last(),
        Some(&"systemd".to_string())
    );
}

#[test]
fn root_override_skips_live_systemd_commands() {
    let provisioner = Provisioner::default();
    let outcome = init::execute(
        &init_request(Some("/sandbox")),
        &InitDependencies {
            cancellation: &NoCancellation,
            paths: &paths(),
            provisioner: &provisioner,
        },
    )
    .expect("init");
    assert!(!outcome.systemd_enabled);
    assert!(!has(&provisioner.ledger, "systemd"));
}

#[test]
fn service_template_escapes_root_and_executable() {
    let rendered =
        build_systemd_service_template("/path/with\"quote/kidobo", Some("/root/with\\slash"));
    assert!(rendered.contains("KIDOBO_ROOT=/root/with\\\\slash"));
    assert!(rendered.contains("ExecStart=\"/path/with\\\"quote/kidobo\" sync"));
}

#[test]
fn service_template_matches_the_complete_default_contract() {
    assert_eq!(
        build_systemd_service_template("/usr/local/bin/kidobo", None),
        "[Unit]\n\
Description=Kidobo firewall blocklist sync\n\
After=network-online.target\n\
Wants=network-online.target\n\
\n\
[Service]\n\
Type=oneshot\n\
Environment=\"KIDOBO_LOG_FORMAT=journal\"\n\
ExecStart=\"/usr/local/bin/kidobo\" sync\n"
    );
}

#[test]
fn default_timer_template_matches_the_complete_contract() {
    assert_eq!(
        DEFAULT_SYSTEMD_TIMER_TEMPLATE,
        "[Unit]\n\
Description=Run kidobo sync periodically\n\
\n\
[Timer]\n\
OnBootSec=2min\n\
OnUnitActiveSec=1h\n\
Persistent=true\n\
Unit=kidobo-sync.service\n\
\n\
[Install]\n\
WantedBy=timers.target\n"
    );
}

// Lookup ----------------------------------------------------------------------------------------

struct MissingConfig;

impl ConfigRepository for MissingConfig {
    fn load(&self, path: &String) -> Result<Config, AppError> {
        Err(AppError::MissingConfigFile { path: path.clone() })
    }
}

struct Targets;

impl TargetFileReader for Targets {
    fn read_lines(&self, _path: &String) -> Result<Vec<String>, AppError> {
        Ok(vec![
            "198.51.100.8".to_string(),
            "invalid".to_string(),
            "203.0.113.8".to_string(),
        ])
    }
}

struct CachedSource(&'static str);

impl OfflineLookupProvider for CachedSource {
    fn id(&self) -> &'static str {
        self.0
    }

    fn offline_entries(
        &self,
        _context: &OfflineLookupContext<'_>,
    ) -> Result<Vec<LookupSourceEntry>, AppError> {
        Ok(vec![LookupSourceEntry {
            source_label: "cache:test".to_string(),
            source_line: "198.51.100.0/24".to_string(),
            cidr: cidr("198.51.100.0/24"),
        }])
    }
}

fn run_lookup(cancellation: &dyn Cancellation) -> Result<lookup::LookupOutcome, AppError> {
    let mut sources = OfflineLookupRegistry::new();
    sources.register(CachedSource("cached")).expect("register");
    lookup::execute(
        &LookupRequest {
            paths: request_paths(),
            input: LookupInput::File("targets.txt".to_string()),
        },
        &LookupDependencies {
            paths: &Paths {
                ledger: Ledger::default(),
                expected: Some(ConfigRequirement::Optional),
            },
            configs: &MissingConfig,
            target_files: &Targets,
            sources: &sources,
            cancellation,
        },
    )
}

#[test]
fn lookup_returns_typed_matches_invalid_targets_and_config_notice() {
    let outcome = run_lookup(&NoCancellation).expect("lookup");

    assert!(outcome.file_mode);
    assert_eq!(outcome.targets.len(), 2);
    assert_eq!(outcome.targets[0].target, "198.51.100.8");
    assert_eq!(outcome.targets[0].matches.len(), 1);
    assert_eq!(outcome.targets[0].matches[0].source_label, "cache:test");
    assert_eq!(outcome.targets[1].target, "203.0.113.8");
    assert!(outcome.targets[1].matches.is_empty());
    assert_eq!(outcome.invalid_targets, ["invalid"]);
    assert_eq!(outcome.notices.len(), 1);
    assert!(outcome.notices[0]
        .message
        .contains("config-backed sources unavailable"));
}

#[test]
fn a_cancelled_lookup_is_interrupted() {
    assert!(matches!(
        run_lookup(&Cancelled),
        Err(AppError::Interrupted)
    ));
}

#[test]
fn lookup_registry_rejects_duplicate_ids() {
    let mut registry = OfflineLookupRegistry::new();
    registry
        .register(CachedSource("remote"))
        .expect("first registration");
    let error = registry
        .register(CachedSource("remote"))
        .expect_err("duplicate must fail");
    assert!(matches!(
        error,
        AppError::DuplicateSourceProvider { provider: "remote" }
    ));
}

// Sync ------------------------------------------------------------------------------------------

struct RecordingPromotion {
    ledger: Ledger,
    fail: bool,
}

impl PendingCachePromotion for RecordingPromotion {
    fn promote(self: Box<Self>) -> Result<(), String> {
        record(&self.ledger, "promote");
        if self.fail {
            Err("injected promotion failure".to_string())
        } else {
            Ok(())
        }
    }
}

struct FakeSource {
    ledger: Ledger,
    descriptor: SyncSourceDescriptor,
    primary: Vec<CanonicalCidr>,
    fallback: Option<Vec<CanonicalCidr>>,
    fail: bool,
    staged: bool,
    fail_promotion: bool,
}

fn batch(networks: &[CanonicalCidr]) -> SyncSourceBatch {
    SyncSourceBatch {
        networks: networks.to_vec(),
        notices: Vec::new(),
    }
}

impl SyncSourceProvider for FakeSource {
    fn descriptor(&self) -> SyncSourceDescriptor {
        self.descriptor
    }

    fn load(&self, _context: &SyncSourceContext<'_>) -> Result<SyncSourceLoad, AppError> {
        record(&self.ledger, &format!("source:{}", self.descriptor.id));
        if self.fail {
            return Err(AppError::Source {
                provider: self.descriptor.id,
                reason: "injected failure".to_string(),
            });
        }
        let mut load = SyncSourceLoad::ready(batch(&self.primary));
        load.fallback = self.fallback.as_deref().map(batch);
        if self.staged {
            load.pending_promotions.push(StagedPromotion {
                selection: Box::new(RecordingPromotion {
                    ledger: Rc::clone(&self.ledger),
                    fail: self.fail_promotion,
                }),
            });
        }
        Ok(load)
    }
}

fn provider(
    ledger: &Ledger,
    id: &'static str,
    role: SourceRole,
    failure_policy: FailurePolicy,
    networks: &[&str],
) -> FakeSource {
    FakeSource {
        ledger: Rc::clone(ledger),
        descriptor: SyncSourceDescriptor {
            id,
            role,
            failure_policy,
        },
        primary: networks.iter().map(|value| cidr(value)).collect(),
        fallback: None,
        fail: false,
        staged: false,
        fail_promotion: false,
    }
}

fn candidate(ledger: &Ledger, networks: &[&str]) -> FakeSource {
    provider(
        ledger,
        "candidate",
        SourceRole::Candidate,
        FailurePolicy::Required,
        networks,
    )
}

struct FakeEnforcement {
    ledger: Ledger,
    fail_at: Option<&'static str>,
    replacements: RefCell<Vec<(AddressFamily, Vec<CanonicalCidr>)>>,
}

impl FakeEnforcement {
    fn new(ledger: &Ledger, fail_at: Option<&'static str>) -> Self {
        FakeEnforcement {
            ledger: Rc::clone(ledger),
            fail_at,
            replacements: RefCell::new(Vec::new()),
        }
    }

    fn result_for(&self, stage: &'static str) -> Result<(), AppError> {
        if self.fail_at == Some(stage) {
            Err(AppError::Ipset {
                reason: format!("injected {stage} failure"),
            })
        } else {
            Ok(())
        }
    }
}

impl EnforcementBackend for FakeEnforcement {
    fn ensure_artifacts(&self, _plan: &EnforcementPlan) -> Result<(), AppError> {
        record(&self.ledger, "ensure");
        self.result_for("ensure")
    }

    fn replace_set(
        &self,
        spec: &ManagedSetSpec,
        entries: &[CanonicalCidr],
    ) -> Result<(), AppError> {
        let event = match spec.family {
            AddressFamily::Ipv4 => "replace-v4",
            AddressFamily::Ipv6 => "replace-v6",
        };
        record(&self.ledger, event);
        self.replacements
            .borrow_mut()
            .push((spec.family, entries.to_vec()));
        self.result_for(event)
    }

    fn activate(&self, _plan: &EnforcementPlan) -> Result<(), AppError> {
        record(&self.ledger, "activate");
        self.result_for("activate")
    }

    fn cleanup_disabled_ipv6(&self, _plan: &EnforcementPlan) -> Vec<Notice> {
        record(&self.ledger, "cleanup-v6");
        vec![Notice::warning("cleanup notice")]
    }
}

#[derive(Default)]
struct RecordingObserver {
    stages: RefCell<Vec<&'static str>>,
    notices: RefCell<Vec<String>>,
}

impl SyncObserver for RecordingObserver {
    fn stage_completed(&self, stage: &'static str) {
        self.stages.borrow_mut().push(stage);
    }

    fn notice(&self, notice: &Notice) {
        self.notices.borrow_mut().push(notice.message.clone());
    }
}

impl RecordingObserver {
    fn noticed(&self, text: &str) -> bool {
        self.notices
            .borrow()
            .iter()
            .any(|notice| notice.contains(text))
    }
}

fn run_sync(
    ledger: &Ledger,
    config: Config,
    providers: Vec<FakeSource>,
    enforcement: &FakeEnforcement,
    observer: &RecordingObserver,
    cancellation: &dyn Cancellation,
) -> Result<SyncOutcome, AppError> {
    let mut sources = SyncSourceRegistry::new();
    for provider in providers {
        assert!(Rc::ptr_eq(&provider.ledger, ledger));
        sources.register(provider).expect("unique provider");
    }
    sync_execute::execute(
        &request_paths(),
        &SyncDependencies {
            paths: &Paths {
                ledger: Rc::clone(ledger),
                expected: Some(ConfigRequirement::Required),
            },
            configs: &Configs {
                ledger: Rc::clone(ledger),
                config,
            },
            locks: &Locks(Rc::clone(ledger)),
            sources: &sources,
            enforcement,
            observer,
            cancellation,
        },
    )
}

fn sync(
    ledger: &Ledger,
    config: Config,
    providers: Vec<FakeSource>,
    enforcement: &FakeEnforcement,
    observer: &RecordingObserver,
) -> Result<SyncOutcome, AppError> {
    run_sync(
        ledger,
        config,
        providers,
        enforcement,
        observer,
        &NoCancellation,
    )
}

#[test]
fn sync_registry_rejects_duplicate_ids() {
    let ledger = Ledger::default();
    let local = || {
        provider(
            &ledger,
            "local",
            SourceRole::Candidate,
            FailurePolicy::Required,
            &[],
        )
    };
    let mut registry = SyncSourceRegistry::new();
    registry.register(local()).expect("first registration");
    let error = registry
        .register(local())
        .expect_err("duplicate must fail");
    assert!(matches!(
        error,
        AppError::DuplicateSourceProvider { provider: "local" }
    ));
}

#[test]
fn preserves_required_sync_order_and_family_separation() {
    let ledger = Ledger::default();
    let enforcement = FakeEnforcement::new(&ledger, None);
    let outcome = sync(
        &ledger,
        config(true, Some(100)),
        vec![
            candidate(&ledger, &["198.51.100.0/24", "2001:db8::/64"]),
            provider(
                &ledger,
                "safelist",
                SourceRole::Safelist,
                FailurePolicy::Required,
                &["198.51.100.128/25"],
            ),
        ],
        &enforcement,
        &RecordingObserver::default(),
    )
    .expect("sync");

    assert_eq!(outcome.ipv4_entries, 1);
    assert_eq!(outcome.ipv6_entries, 1);
    let replacements = enforcement.replacements.borrow();
    assert_eq!(
        replacements[0],
        (AddressFamily::Ipv6, vec![cidr("2001:db8::/64")])
    );
    assert_eq!(
        replacements[1],
        (AddressFamily::Ipv4, vec![cidr("198.51.100.0/25")])
    );
    assert_eq!(
        events(&ledger),
        [
            "paths",
            "config",
            "lock",
            "ensure",
            "source:candidate",
            "source:safelist",
            "replace-v6",
            "replace-v4",
            "activate",
            "unlock",
        ]
    );
}

#[test]
fn validates_ipv4_capacity_before_replacing_ipv6() {
    let ledger = Ledger::default();
    let enforcement = FakeEnforcement::new(&ledger, None);
    let error = sync(
        &ledger,
        config(true, Some(1)),
        vec![candidate(
            &ledger,
            &["192.0.2.0/24", "198.51.100.0/24", "2001:db8::/64"],
        )],
        &enforcement,
        &RecordingObserver::default(),
    )
    .expect_err("capacity must fail");

    assert!(matches!(
        error,
        AppError::IpsetCapacityExceeded { family: "ipv4", .. }
    ));
    assert!(!events(&ledger)
        .iter()
        .any(|event| event.starts_with("replace")));
}

#[test]
fn required_source_failure_prevents_all_later_side_effects() {
    let ledger = Ledger::default();
    let mut failing = provider(
        &ledger,
        "required",
        SourceRole::Candidate,
        FailurePolicy::Required,
        &[],
    );
    failing.fail = true;
    let enforcement = FakeEnforcement::new(&ledger, None);

    sync(
        &ledger,
        config(true, Some(100)),
        vec![failing],
        &enforcement,
        &RecordingObserver::default(),
    )
    .expect_err("required source must fail");

    assert_eq!(
        events(&ledger),
        [
            "paths",
            "config",
            "lock",
            "ensure",
            "source:required",
            "unlock"
        ]
    );
}

#[test]
fn best_effort_source_failure_is_reported_and_sync_continues() {
    let ledger = Ledger::default();
    let mut failing = provider(
        &ledger,
        "optional",
        SourceRole::Candidate,
        FailurePolicy::BestEffort,
        &[],
    );
    failing.fail = true;
    let enforcement = FakeEnforcement::new(&ledger, None);
    let observer = RecordingObserver::default();

    let outcome = sync(
        &ledger,
        config(false, Some(100)),
        vec![failing],
        &enforcement,
        &observer,
    )
    .expect("soft failure");

    assert!(!outcome.sources[0].loaded);
    assert!(observer.noticed("failed softly"));
    assert!(has(&ledger, "activate"));
    assert!(has(&ledger, "cleanup-v6"));
}

#[test]
fn failed_ipv6_replace_prevents_ipv4_and_firewall_mutation() {
    let ledger = Ledger::default();
    let enforcement = FakeEnforcement::new(&ledger, Some("replace-v6"));

    sync(
        &ledger,
        config(true, Some(100)),
        vec![candidate(&ledger, &["192.0.2.0/24", "2001:db8::/64"])],
        &enforcement,
        &RecordingObserver::default(),
    )
    .expect_err("replace must fail");

    assert!(has(&ledger, "replace-v6"));
    assert!(!has(&ledger, "replace-v4"));
    assert!(!has(&ledger, "activate"));
}

#[test]
fn validates_ipv6_capacity_before_any_replacement() {
    let ledger = Ledger::default();
    let enforcement = FakeEnforcement::new(&ledger, None);
    let error = sync(
        &ledger,
        config(true, Some(1)),
        vec![candidate(
            &ledger,
            &["192.0.2.0/24", "2001:db8::/64", "2001:db8:1::/64"],
        )],
        &enforcement,
        &RecordingObserver::default(),
    )
    .expect_err("capacity must fail");

    assert!(matches!(
        error,
        AppError::IpsetCapacityExceeded { family: "ipv6", .. }
    ));
    assert!(!events(&ledger)
        .iter()
        .any(|event| event.starts_with("replace")));
}

#[test]
fn capacity_equal_to_limit_is_allowed_for_both_families() {
    let ledger = Ledger::default();
    let enforcement = FakeEnforcement::new(&ledger, None);
    let outcome = sync(
        &ledger,
        config(true, Some(1)),
        vec![candidate(&ledger, &["192.0.2.0/24", "2001:db8::/64"])],
        &enforcement,
        &RecordingObserver::default(),
    )
    .expect("equal capacity");
    assert_eq!((outcome.ipv4_entries, outcome.ipv6_entries), (1, 1));
}

#[test]
fn failed_ipv4_replace_after_ipv6_still_prevents_activation() {
    let ledger = Ledger::default();
    let enforcement = FakeEnforcement::new(&ledger, Some("replace-v4"));
    sync(
        &ledger,
        config(true, Some(100)),
        vec![candidate(&ledger, &["192.0.2.0/24", "2001:db8::/64"])],
        &enforcement,
        &RecordingObserver::default(),
    )
    .expect_err("replace must fail");
    assert!(has(&ledger, "replace-v6"));
    assert!(has(&ledger, "replace-v4"));
    assert!(!has(&ledger, "activate"));
}

fn deferred_candidate(ledger: &Ledger, networks: &[&str]) -> FakeSource {
    let mut source = provider(
        ledger,
        "deferred-candidate",
        SourceRole::Candidate,
        FailurePolicy::Required,
        networks,
    );
    source.staged = true;
    source
}

#[test]
fn capacity_rejection_drops_staged_cache_before_enforcement() {
    let ledger = Ledger::default();
    let enforcement = FakeEnforcement::new(&ledger, None);

    let error = sync(
        &ledger,
        config(false, Some(1)),
        vec![deferred_candidate(
            &ledger,
            &["192.0.2.0/24", "198.51.100.0/24"],
        )],
        &enforcement,
        &RecordingObserver::default(),
    )
    .expect_err("capacity must reject the staged source");

    assert!(matches!(error, AppError::IpsetCapacityExceeded { .. }));
    assert!(!has(&ledger, "promote"));
    assert!(enforcement.replacements.borrow().is_empty());
}

#[test]
fn cache_promotion_failure_precedes_both_family_replacements() {
    let ledger = Ledger::default();
    let mut source = deferred_candidate(&ledger, &["192.0.2.0/24", "2001:db8::/64"]);
    source.fail_promotion = true;
    let enforcement = FakeEnforcement::new(&ledger, None);

    let error = sync(
        &ledger,
        config(true, Some(10)),
        vec![source],
        &enforcement,
        &RecordingObserver::default(),
    )
    .expect_err("promotion must fail");

    assert!(matches!(error, AppError::CachePromotion { .. }));
    assert!(has(&ledger, "promote"));
    assert!(enforcement.replacements.borrow().is_empty());
}

fn external(ledger: &Ledger, primary: &[&str], fallback: Option<&[&str]>) -> FakeSource {
    let mut source = provider(
        ledger,
        "external",
        SourceRole::ExternalSafelist,
        FailurePolicy::BestEffort,
        primary,
    );
    source.fallback =
        fallback.map(|networks| networks.iter().map(|value| cidr(value)).collect());
    source.staged = true;
    source
}

#[test]
fn external_safelist_uses_admissible_fallback_when_primary_empties_family() {
    let ledger = Ledger::default();
    let enforcement = FakeEnforcement::new(&ledger, None);
    let observer = RecordingObserver::default();

    let outcome = sync(
        &ledger,
        config(false, Some(10)),
        vec![
            candidate(&ledger, &["192.0.2.0/24"]),
            external(&ledger, &["192.0.2.0/24"], Some(&["192.0.2.0/25"])),
        ],
        &enforcement,
        &observer,
    )
    .expect("fallback should be admitted");

    assert_eq!(outcome.ipv4_entries, 1);
    assert_eq!(outcome.sources[1].entries, 1);
    assert!(!has(&ledger, "promote"));
    assert!(observer.noticed("would empty"));
}

#[test]
fn admitted_external_safelist_promotes_before_replacement() {
    let ledger = Ledger::default();
    let enforcement = FakeEnforcement::new(&ledger, None);

    sync(
        &ledger,
        config(false, Some(10)),
        vec![
            candidate(&ledger, &["192.0.2.0/24"]),
            external(&ledger, &["192.0.2.0/25"], None),
        ],
        &enforcement,
        &RecordingObserver::default(),
    )
    .expect("sync");

    let seen = events(&ledger);
    let promotion = seen
        .iter()
        .position(|event| event == "promote")
        .expect("promotion");
    let replacement = seen
        .iter()
        .position(|event| event == "replace-v4")
        .expect("replacement");
    assert!(promotion < replacement);
}

#[test]
fn a_cancelled_sync_loads_no_source() {
    let ledger = Ledger::default();
    let enforcement = FakeEnforcement::new(&ledger, None);
    let result = run_sync(
        &ledger,
        config(true, Some(10)),
        vec![candidate(&ledger, &["192.0.2.0/24"])],
        &enforcement,
        &RecordingObserver::default(),
        &Cancelled,
    );
    assert!(matches!(result, Err(AppError::Interrupted)));
    assert!(!has(&ledger, "source:candidate"));
    assert!(enforcement.replacements.borrow().is_empty());
}

#[test]
fn default_results_are_empty() {
    assert_eq!(
        BanOutcome::default(),
        BanOutcome { changes: Vec::new(), invalid_targets: Vec::new(), empty_file: false }
    );
    assert_eq!(
        UnbanPreparation::default(),
        UnbanPreparation { preview: None, invalid_targets: Vec::new(), empty_file: false }
    );
    assert_eq!(
        AsnBanOutcome::default(),
        AsnBanOutcome { added: Vec::new(), removed_duplicate_entries: 0, notices: Vec::new() }
    );
    assert_eq!(
        AsnUnbanOutcome::default(),
        AsnUnbanOutcome { removed: Vec::new(), deleted_cache_files: 0, notices: Vec::new() }
    );
    assert_eq!(
        AsnConfigUpdate::default(),
        AsnConfigUpdate { added: Vec::new(), removed: Vec::new() }
    );
    assert_eq!(
        InitOutcome::default(),
        InitOutcome { artifacts: Vec::new(), systemd_enabled: false }
    );
    let load = SyncSourceLoad::default();
    assert_eq!(load.primary, SyncSourceBatch::default());
    assert!(load.fallback.is_none());
    assert!(load.pending_promotions.is_empty());
    assert!(load.fallback_failure.is_none());
}

#[test]
fn long_target_files_keep_the_order_of_their_lines() {
    let lines: Vec<String> = (0..30_000u32)
        .map(|n| match n % 3 {
            0 => format!("10.{}.{}.{}", n / 65_536, n / 256 % 256, n % 256),
            1 => format!("no network {n}"),
            _ => "# comment".to_string(),
        })
        .collect();
    let parsed = parse_target_lines(lines.clone());
    let valid: Vec<String> = parsed.targets.iter().map(CanonicalCidr::to_text).collect();
    assert_eq!(valid.len(), 10_000);
    assert_eq!(valid[0], "10.0.0.0/32");
    assert_eq!(valid[9_999], "10.0.117.45/32");
    let invalid: Vec<String> = lines.into_iter().skip(1).step_by(3).collect();
    assert_eq!(parsed.invalid_targets, invalid);
    assert!(!parsed.empty_file);
}

#[test]
fn removal_keeps_the_other_lines_of_a_long_document_in_order() {
    let text: String = (0..5_000u32)
        .map(|n| format!("10.0.{}.{}\n", n / 256, n % 256))
        .collect();
    let document = BlocklistDocument::parse(&text).expect("document");
    let odd: Vec<CanonicalCidr> = (0..5_000usize)
        .filter(|n| n % 2 == 1)
        .map(|n| document.lines[n].canonical.expect("entry"))
        .collect();
    let kept: Vec<String> = (0..5_000usize)
        .filter(|n| n % 2 == 0)
        .map(|n| document.lines[n].original.clone())
        .collect();

    let plan = plan_duplicate_removal(&document, &odd);
    assert_eq!(plan.kept_lines, kept);
    assert_eq!(plan.removed, 2_500);

    let input = BlocklistInput::File("targets".to_string());
    let preview = build_preview(&input, odd, &document);
    assert_eq!(preview.exact_entries.len(), 2_500);
    let decision = UnbanDecision { remove_partial: true };
    let plan = plan_approved_unban(&input, &preview, &decision, &document).expect("plan");
    assert_eq!(plan.kept_lines.expect("lines"), kept);
    assert_eq!(plan.outcome.removed_exact, 2_500);
    assert_eq!(plan.outcome.removed_partial, 0);
}

#[test]
fn exact_and_partial_removals_interleave() {
    let document = BlocklistDocument::parse(
        "10.0.0.0/24\n192.0.2.1\n10.0.0.0/16\n# note\n10.0.0.0/24\n10.0.0.7\n203.0.113.0/24\n",
    )
    .expect("document");
    let target = parse_ip_cidr_token("10.0.0.0/24").expect("target");
    let input = BlocklistInput::Single("10.0.0.0/24".to_string());
    let preview = build_preview(&input, vec![target], &document);
    assert_eq!(preview.partial_entries, ["10.0.0.0/16", "10.0.0.7/32"]);
    let all = UnbanDecision { remove_partial: true };
    let plan = plan_approved_unban(&input, &preview, &all, &document).expect("plan");
    assert_eq!(
        plan.kept_lines.expect("lines"),
        ["192.0.2.1", "# note", "203.0.113.0/24"]
    );
    let exact = UnbanDecision { remove_partial: false };
    let plan = plan_approved_unban(&input, &preview, &exact, &document).expect("plan");
    assert_eq!(
        plan.kept_lines.expect("lines"),
        ["192.0.2.1", "10.0.0.0/16", "# note", "10.0.0.7", "203.0.113.0/24"]
    );
}
