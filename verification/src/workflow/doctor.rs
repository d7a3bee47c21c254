//! Read-only health checks and the doctor report.

use crate::policy::config::Config;
use crate::text::{from_chars, to_chars, trim, trim_chars};
use crate::workflow::error::{error_text, AppError};
use crate::workflow::paths::{ConfigRequirement, PathResolutionInput, ResolvedPaths};
use crate::workflow::ports::{
    allowed_by, check_cancellation, stopped_by, verdicts, Cancellation, ConfigRepository,
    PathResolver,
};
use vstd::prelude::*;

verus! {

/// Aggregate doctor result used by human and JSON renderers.
#[derive(Debug, Clone, Copy, PartialEq, Eq, Structural)]
pub enum DoctorOverall {
    /// Every required check succeeded or was intentionally skipped.
    Pass,
    /// At least one required check failed.
    Fail,
}

/// Stable status of one doctor check.
#[derive(Debug, Clone, Copy, PartialEq, Eq, Structural)]
pub enum DoctorCheckStatus {
    /// Check succeeded.
    Pass,
    /// Check failed.
    Fail,
    /// Check was not applicable or could not safely be attempted.
    Skip,
}

/// One named, operator-visible doctor check result.
#[derive(Debug, Clone, PartialEq, Eq)]
pub struct DoctorCheck {
    /// Stable machine-readable check name.
    pub name: String,
    /// Check status.
    pub status: DoctorCheckStatus,
    /// Human-readable evidence or failure detail.
    pub detail: String,
}

/// Contents of a check.
pub struct CheckModel {
    pub name: Seq<char>,
    pub status: DoctorCheckStatus,
    pub detail: Seq<char>,
}

impl View for DoctorCheck {
    type V = CheckModel;

    open spec fn view(&self) -> CheckModel {
        CheckModel { name: self.name@, status: self.status, detail: self.detail@ }
    }
}

/// Contents of checks, in order.
pub open spec fn check_models(checks: Seq<DoctorCheck>) -> Seq<CheckModel> {
    checks.map_values(|c: DoctorCheck| c@)
}

/// Complete deterministic doctor report.
#[derive(Debug, Clone, PartialEq, Eq)]
pub struct DoctorReport {
    /// Aggregate status.
    pub overall: DoctorOverall,
    /// Ordered individual checks.
    pub checks: Vec<DoctorCheck>,
}

/// Readiness of the configured cache location without creating it.
#[derive(Debug, Clone, PartialEq, Eq)]
pub enum CacheReadiness {
    /// The cache path is already a directory.
    ExistingDirectory,
    /// The cache path is absent but has an existing writable-parent candidate.
    CreatableFromParent {
        /// Existing ancestor used for the readiness check.
        parent: String,
    },
}

/// Failure from a bounded, read-only external diagnostic probe.
#[derive(Debug, Clone, PartialEq, Eq)]
pub enum ProbeFailure {
    /// The command could not be executed.
    Execution {
        /// Execution diagnostic.
        reason: String,
    },
    /// The command ran but returned an unsuccessful status.
    Exit {
        /// Rendered exit status.
        status: String,
        /// Bounded standard-error diagnostic.
        stderr: String,
    },
}

/// Read-only operating-system probes used by the doctor workflow.
pub trait DoctorProbe {
    /// Finds an executable by name without running it.
    fn find_binary(&self, binary: &'static str) -> (path: Option<String>);

    /// Returns whether a path exists without mutating it.
    fn path_exists(&self, path: &String) -> (exists: bool);

    /// Inspects whether a cache directory exists or could plausibly be created.
    fn cache_readiness(&self, path: &String) -> (readiness: Result<CacheReadiness, String>);

    /// Runs one bounded, read-only privileged probe.
    fn run_sudo_probe(&self, command: &'static str, arguments: &Vec<&'static str>) -> (outcome:
        Result<(), ProbeFailure>);
}

/// Ports required by the read-only doctor workflow.
pub struct DoctorDependencies<
    'a,
    X: Cancellation,
    P: PathResolver,
    C: ConfigRepository,
    D: DoctorProbe,
> {
    /// Cooperative cancellation outside a started mutation.
    pub cancellation: &'a X,
    /// Runtime path resolver.
    pub paths: &'a P,
    /// Validated configuration repository.
    pub configs: &'a C,
    /// Read-only host probe adapter.
    pub probes: &'a D,
}

/// Whether IPv6 checks apply.
#[derive(Debug, Clone, Copy, PartialEq, Eq, Structural)]
pub enum Ipv6Mode {
    /// The configuration enables IPv6.
    Enabled,
    /// The configuration disables IPv6.
    Disabled,
    /// There is no configuration.
    Unknown,
}

/// Everything that the checks look at.
pub struct DoctorEvidence {
    /// Resolved paths.
    pub paths: Result<ResolvedPaths, AppError>,
    /// Whether the configuration enables IPv6; none where no paths were resolved.
    pub config: Option<Result<bool, AppError>>,
    /// Location of `sudo`.
    pub sudo: Option<String>,
    /// Location of `bgpq4`.
    pub bgpq4: Option<String>,
    /// Location of `ipset`.
    pub ipset: Option<String>,
    /// Location of `iptables`.
    pub iptables: Option<String>,
    /// Location of `ip6tables`; looked for only where IPv6 is enabled.
    pub ip6tables: Option<String>,
    /// The configuration file exists.
    pub config_exists: bool,
    /// The blocklist file exists.
    pub blocklist_exists: bool,
    /// Readiness of the cache; none where no paths were resolved.
    pub cache: Option<Result<CacheReadiness, String>>,
    /// Probe of `ipset`, where it was run.
    pub ipset_probe: Option<Result<(), ProbeFailure>>,
    /// Probe of `iptables`, where it was run.
    pub iptables_probe: Option<Result<(), ProbeFailure>>,
    /// Probe of `ip6tables`, where it was run.
    pub ip6tables_probe: Option<Result<(), ProbeFailure>>,
}

// Checks ----------------------------------------------------------------------------------------

/// A check that succeeded.
pub open spec fn ok_model(name: &str, detail: Seq<char>) -> CheckModel {
    CheckModel { name: name@, status: DoctorCheckStatus::Pass, detail }
}

/// A check that failed.
pub open spec fn fail_model(name: &str, detail: Seq<char>) -> CheckModel {
    CheckModel { name: name@, status: DoctorCheckStatus::Fail, detail }
}

/// A check that was skipped.
pub open spec fn skip_model(name: &str, detail: Seq<char>) -> CheckModel {
    CheckModel { name: name@, status: DoctorCheckStatus::Skip, detail }
}

/// Whether IPv6 checks apply, as far as the evidence says.
pub open spec fn mode_of(config: Option<Result<bool, AppError>>) -> Ipv6Mode {
    match config {
        Some(Ok(enabled)) => if enabled {
            Ipv6Mode::Enabled
        } else {
            Ipv6Mode::Disabled
        },
        _ => Ipv6Mode::Unknown,
    }
}

/// Why IPv6 checks are skipped.
pub open spec fn skip_reason(mode: Ipv6Mode) -> Seq<char> {
    if mode == Ipv6Mode::Disabled {
        "ipv6 disabled in config"@
    } else {
        "config unavailable; ipv6 state unknown"@
    }
}

/// Check of the configuration.
pub open spec fn config_check(
    paths: Result<ResolvedPaths, AppError>,
    config: Option<Result<bool, AppError>>,
) -> CheckModel {
    match paths {
        Err(error) => fail_model("config_parse", error_text(error)),
        Ok(found) => match config {
            Some(Err(error)) => fail_model(
                "config_parse",
                "failed to parse "@ + found.config_file@ + ": "@ + error_text(error),
            ),
            _ => ok_model("config_parse", "config parsed: "@ + found.config_file@),
        },
    }
}

/// Check that a binary was found.
pub open spec fn binary_check(name: &str, binary: &str, path: Option<String>) -> CheckModel {
    match path {
        Some(found) => ok_model(name, "found on PATH: "@ + found@),
        None => fail_model(name, binary@ + " not found on PATH"@),
    }
}

/// Check that a file exists.
pub open spec fn file_model(name: &str, path: Seq<char>, exists: bool) -> CheckModel {
    if exists {
        ok_model(name, "exists: "@ + path)
    } else {
        fail_model(name, "missing: "@ + path)
    }
}

/// Check of the cache location.
pub open spec fn cache_check(path: Seq<char>, cache: Result<CacheReadiness, String>) -> CheckModel {
    match cache {
        Ok(CacheReadiness::ExistingDirectory) => skip_model(
            "cache_writable",
            "remote cache directory has plausible write and traversal bits, but effective access was not mutated to verify it: "@
                + path,
        ),
        Ok(CacheReadiness::CreatableFromParent { parent }) => skip_model(
            "cache_writable",
            "remote cache parent has plausible write and traversal bits, but creation was not attempted: "@
                + parent@,
        ),
        Err(reason) => fail_model(
            "cache_writable",
            "remote cache path is not writable at "@ + path + ": "@ + reason@,
        ),
    }
}

/// Why no path could be checked.
pub open spec fn unresolved_text(error: AppError) -> Seq<char> {
    "path resolution unavailable: "@ + match error {
        AppError::PathResolution { reason } => reason@,
        _ => error_text(error),
    }
}

/// Checks of the configuration file, the blocklist file and the cache location.
pub open spec fn path_checks(evidence: DoctorEvidence) -> Seq<CheckModel> {
    match evidence.paths {
        Err(error) => seq![
            fail_model("file_config", unresolved_text(error)),
            fail_model("file_blocklist", unresolved_text(error)),
            fail_model("cache_writable", unresolved_text(error)),
        ],
        Ok(paths) => seq![
            file_model("file_config", paths.config_file@, evidence.config_exists),
            file_model("file_blocklist", paths.blocklist_file@, evidence.blocklist_exists),
            cache_check(paths.remote_cache_dir@, evidence.cache->0),
        ],
    }
}

/// Diagnostic of a failed command.
pub open spec fn stderr_text(stderr: Seq<char>) -> Seq<char> {
    if trim(stderr).len() == 0 {
        "no stderr"@
    } else {
        trim(stderr)
    }
}

/// Check of a privileged command.
pub open spec fn sudo_model(
    name: &str,
    binary: &str,
    argument: &str,
    sudo: bool,
    available: bool,
    probe: Option<Result<(), ProbeFailure>>,
) -> CheckModel {
    let command = "sudo -n "@ + binary@ + " "@ + argument@;
    if !sudo {
        skip_model(name, "sudo binary is unavailable"@)
    } else if !available {
        skip_model(name, binary@ + " binary is unavailable"@)
    } else {
        match probe {
            Some(Err(ProbeFailure::Execution { reason })) => fail_model(
                name,
                command + " execution failed: "@ + reason@,
            ),
            Some(Err(ProbeFailure::Exit { status, stderr })) => fail_model(
                name,
                command + " failed with status "@ + status@ + ": "@ + stderr_text(stderr@),
            ),
            _ => ok_model(name, command + " succeeded"@),
        }
    }
}

/// All checks, in the order of the report.
pub open spec fn report_checks(evidence: DoctorEvidence) -> Seq<CheckModel> {
    let mode = mode_of(evidence.config);
    let sudo = evidence.sudo is Some;
    seq![
        config_check(evidence.paths, evidence.config),
        binary_check("binary_sudo", "sudo", evidence.sudo),
        binary_check("binary_bgpq4", "bgpq4", evidence.bgpq4),
        binary_check("binary_ipset", "ipset", evidence.ipset),
        binary_check("binary_iptables", "iptables", evidence.iptables),
        if mode == Ipv6Mode::Enabled {
            binary_check("binary_ip6tables", "ip6tables", evidence.ip6tables)
        } else {
            skip_model("binary_ip6tables", skip_reason(mode))
        },
    ] + path_checks(evidence) + seq![
        sudo_model(
            "sudo_probe_ipset",
            "ipset",
            "list",
            sudo,
            evidence.ipset is Some,
            evidence.ipset_probe,
        ),
        sudo_model(
            "sudo_probe_iptables",
            "iptables",
            "-S",
            sudo,
            evidence.iptables is Some,
            evidence.iptables_probe,
        ),
        if mode == Ipv6Mode::Enabled {
            sudo_model(
                "sudo_probe_ip6tables",
                "ip6tables",
                "-S",
                sudo,
                evidence.ip6tables is Some,
                evidence.ip6tables_probe,
            )
        } else {
            skip_model("sudo_probe_ip6tables", skip_reason(mode))
        },
    ]
}

impl DoctorEvidence {
    /// The cache was inspected where there are paths.
    pub open spec fn complete(self) -> bool {
        self.paths is Ok ==> self.cache is Some
    }
}

/// The report fails exactly when a check does.
pub open spec fn overall_of(checks: Seq<CheckModel>) -> DoctorOverall {
    if exists|i: int|
        0 <= i < checks.len() && (#[trigger] checks[i]).status == DoctorCheckStatus::Fail {
        DoctorOverall::Fail
    } else {
        DoctorOverall::Pass
    }
}

fn check(name: &str, status: DoctorCheckStatus, detail: String) -> (check: DoctorCheck)
    ensures
        check@ == (CheckModel { name: name@, status, detail: detail@ }),
{
    DoctorCheck { name: name.to_owned(), status, detail }
}

fn joined_text(a: &str, b: &str) -> (text: String)
    ensures
        text@ == a@ + b@,
{
    let mut text: String = a.to_owned();
    text.append(b);
    text
}

fn check_config(
    paths: &Result<ResolvedPaths, AppError>,
    config: &Option<Result<bool, AppError>>,
) -> (out: DoctorCheck)
    ensures
        out@ == config_check(*paths, *config),
{
    match paths {
        Err(error) => check("config_parse", DoctorCheckStatus::Fail, error.message()),
        Ok(found) => match config {
            Some(Err(error)) => {
                let mut text: String = joined_text("failed to parse ", found.config_file.as_str());
                text.append(": ");
                text.append(error.message().as_str());
                check("config_parse", DoctorCheckStatus::Fail, text)
            },
            _ => check(
                "config_parse",
                DoctorCheckStatus::Pass,
                joined_text("config parsed: ", found.config_file.as_str()),
            ),
        },
    }
}

fn check_binary(name: &str, binary: &str, path: &Option<String>) -> (out: DoctorCheck)
    ensures
        out@ == binary_check(name, binary, *path),
{
    match path {
        Some(found) => check(
            name,
            DoctorCheckStatus::Pass,
            joined_text("found on PATH: ", found.as_str()),
        ),
        None => check(
            name,
            DoctorCheckStatus::Fail,
            joined_text(binary, " not found on PATH"),
        ),
    }
}

fn check_file(name: &str, path: &String, exists: bool) -> (out: DoctorCheck)
    ensures
        out@ == file_model(name, path@, exists),
{
    if exists {
        check(name, DoctorCheckStatus::Pass, joined_text("exists: ", path.as_str()))
    } else {
        check(name, DoctorCheckStatus::Fail, joined_text("missing: ", path.as_str()))
    }
}

fn check_cache(path: &String, cache: &Result<CacheReadiness, String>) -> (out: DoctorCheck)
    ensures
        out@ == cache_check(path@, *cache),
{
    match cache {
        Ok(CacheReadiness::ExistingDirectory) => check(
            "cache_writable",
            DoctorCheckStatus::Skip,
            joined_text(
                "remote cache directory has plausible write and traversal bits, but effective access was not mutated to verify it: ",
                path.as_str(),
            ),
        ),
        Ok(CacheReadiness::CreatableFromParent { parent }) => check(
            "cache_writable",
            DoctorCheckStatus::Skip,
            joined_text(
                "remote cache parent has plausible write and traversal bits, but creation was not attempted: ",
                parent.as_str(),
            ),
        ),
        Err(reason) => {
            let mut text: String = joined_text(
                "remote cache path is not writable at ",
                path.as_str(),
            );
            text.append(": ");
            text.append(reason.as_str());
            check("cache_writable", DoctorCheckStatus::Fail, text)
        },
    }
}

fn unresolved(name: &str, error: &AppError) -> (out: DoctorCheck)
    ensures
        out@ == fail_model(name, unresolved_text(*error)),
{
    let reason: String = match error {
        AppError::PathResolution { reason } => reason.clone(),
        _ => error.message(),
    };
    check(
        name,
        DoctorCheckStatus::Fail,
        joined_text("path resolution unavailable: ", reason.as_str()),
    )
}

fn check_sudo(
    name: &str,
    binary: &str,
    argument: &str,
    sudo: bool,
    available: bool,
    probe: &Option<Result<(), ProbeFailure>>,
) -> (out: DoctorCheck)
    ensures
        out@ == sudo_model(name, binary, argument, sudo, available, *probe),
{
    if !sudo {
        return check(name, DoctorCheckStatus::Skip, "sudo binary is unavailable".to_owned());
    }
    if !available {
        return check(
            name,
            DoctorCheckStatus::Skip,
            joined_text(binary, " binary is unavailable"),
        );
    }
    let mut text: String = joined_text("sudo -n ", binary);
    text.append(" ");
    text.append(argument);
    match probe {
        Some(Err(ProbeFailure::Execution { reason })) => {
            text.append(" execution failed: ");
            text.append(reason.as_str());
            check(name, DoctorCheckStatus::Fail, text)
        },
        Some(Err(ProbeFailure::Exit { status, stderr })) => {
            text.append(" failed with status ");
            text.append(status.as_str());
            text.append(": ");
            text.append(stderr_detail(stderr.as_str()).as_str());
            check(name, DoctorCheckStatus::Fail, text)
        },
        _ => {
            text.append(" succeeded");
            check(name, DoctorCheckStatus::Pass, text)
        },
    }
}

/// Trims diagnostics, and names their absence.
pub fn stderr_detail(stderr: &str) -> (detail: String)
    ensures
        detail@ == stderr_text(stderr@),
{
    let chars: Vec<char> = to_chars(stderr);
    let inner: &[char] = trim_chars(chars.as_slice());
    if inner.len() == 0 {
        "no stderr".to_owned()
    } else {
        from_chars(inner)
    }
}

/// Why IPv6 checks are skipped, if they are.
pub fn ipv6_skip_reason(mode: Ipv6Mode) -> (reason: Option<&'static str>)
    ensures
        reason is None <==> mode == Ipv6Mode::Enabled,
        reason matches Some(text) ==> text@ == skip_reason(mode),
{
    match mode {
        Ipv6Mode::Enabled => None,
        Ipv6Mode::Disabled => Some("ipv6 disabled in config"),
        Ipv6Mode::Unknown => Some("config unavailable; ipv6 state unknown"),
    }
}

fn ipv6_mode(config: &Option<Result<bool, AppError>>) -> (mode: Ipv6Mode)
    ensures
        mode == mode_of(*config),
{
    match config {
        Some(Ok(enabled)) => if *enabled {
            Ipv6Mode::Enabled
        } else {
            Ipv6Mode::Disabled
        },
        _ => Ipv6Mode::Unknown,
    }
}

impl DoctorReport {
    /// The report of the checks.
    pub fn from_checks(checks: Vec<DoctorCheck>) -> (report: DoctorReport)
        ensures
            report.checks == checks,
            report.overall == overall_of(check_models(checks@)),
    {
        let ghost all = check_models(checks@);
        let mut i: usize = 0;
        while i < checks.len()
            invariant
                i <= checks@.len(),
                all == check_models(checks@),
                forall|k: int| 0 <= k < i ==> (#[trigger] all[k]).status != DoctorCheckStatus::Fail,
            decreases checks@.len() - i,
        {
            if checks[i].status == DoctorCheckStatus::Fail {
                assert(all[i as int].status == DoctorCheckStatus::Fail);
                return DoctorReport { overall: DoctorOverall::Fail, checks };
            }
            i = i + 1;
        }
        DoctorReport { overall: DoctorOverall::Pass, checks }
    }
}

/// Renders the report of the evidence.
pub fn diagnose(evidence: &DoctorEvidence) -> (report: DoctorReport)
    requires
        evidence.complete(),
    ensures
        check_models(report.checks@) == report_checks(*evidence),
        report.overall == overall_of(report_checks(*evidence)),
{
    let mode: Ipv6Mode = ipv6_mode(&evidence.config);
    let sudo: bool = evidence.sudo.is_some();
    let mut checks: Vec<DoctorCheck> = Vec::new();
    checks.push(check_config(&evidence.paths, &evidence.config));
    checks.push(check_binary("binary_sudo", "sudo", &evidence.sudo));
    checks.push(check_binary("binary_bgpq4", "bgpq4", &evidence.bgpq4));
    checks.push(check_binary("binary_ipset", "ipset", &evidence.ipset));
    checks.push(check_binary("binary_iptables", "iptables", &evidence.iptables));
    match ipv6_skip_reason(mode) {
        Some(reason) => {
            checks.push(check("binary_ip6tables", DoctorCheckStatus::Skip, reason.to_owned()));
        },
        None => {
            checks.push(check_binary("binary_ip6tables", "ip6tables", &evidence.ip6tables));
        },
    }
    match &evidence.paths {
        Err(error) => {
            checks.push(unresolved("file_config", error));
            checks.push(unresolved("file_blocklist", error));
            checks.push(unresolved("cache_writable", error));
        },
        Ok(paths) => {
            checks.push(check_file("file_config", &paths.config_file, evidence.config_exists));
            checks.push(
                check_file("file_blocklist", &paths.blocklist_file, evidence.blocklist_exists),
            );
            if let Some(cache) = &evidence.cache {
                checks.push(check_cache(&paths.remote_cache_dir, cache));
            }
        },
    }
    checks.push(
        check_sudo(
            "sudo_probe_ipset",
            "ipset",
            "list",
            sudo,
            evidence.ipset.is_some(),
            &evidence.ipset_probe,
        ),
    );
    checks.push(
        check_sudo(
            "sudo_probe_iptables",
            "iptables",
            "-S",
            sudo,
            evidence.iptables.is_some(),
            &evidence.iptables_probe,
        ),
    );
    match ipv6_skip_reason(mode) {
        Some(reason) => {
            checks.push(check("sudo_probe_ip6tables", DoctorCheckStatus::Skip, reason.to_owned()));
        },
        None => {
            checks.push(
                check_sudo(
                    "sudo_probe_ip6tables",
                    "ip6tables",
                    "-S",
                    sudo,
                    evidence.ip6tables.is_some(),
                    &evidence.ip6tables_probe,
                ),
            );
        },
    }
    assert(check_models(checks@) =~= report_checks(*evidence));
    DoctorReport::from_checks(checks)
}

// Evidence --------------------------------------------------------------------------------------

/// The probe of the command was run exactly where `sudo` and the command are there.
pub open spec fn probed<D: DoctorProbe>(
    probes: &D,
    binary: &'static str,
    argument: &'static str,
    runnable: bool,
    probe: Option<Result<(), ProbeFailure>>,
) -> bool {
    match probe {
        None => !runnable,
        Some(reply) => runnable && exists|arguments: Vec<&'static str>| #[trigger]
            call_ensures(D::run_sudo_probe, (probes, binary, &arguments), reply) && arguments@
                == seq![argument],
    }
}

/// The configuration is loaded from the resolved paths.
pub open spec fn config_loaded<C: ConfigRepository>(
    configs: &C,
    paths: Result<ResolvedPaths, AppError>,
    config: Option<Result<bool, AppError>>,
) -> bool {
    match paths {
        Err(_) => config is None,
        Ok(found) => config is Some && exists|reply: Result<Config, AppError>| #[trigger]
            call_ensures(C::load, (configs, &found.config_file), reply) && config->0 == (
            match reply {
                Ok(loaded) => Ok::<bool, AppError>(loaded.ipset.enable_ipv6),
                Err(error) => Err::<bool, AppError>(error),
            }),
    }
}

/// The locations were inspected, where they are known.
pub open spec fn paths_inspected<D: DoctorProbe>(probes: &D, evidence: DoctorEvidence) -> bool {
    match evidence.paths {
        Err(_) => evidence.cache is None,
        Ok(paths) => {
            &&& call_ensures(D::path_exists, (probes, &paths.config_file), evidence.config_exists)
            &&& call_ensures(
                D::path_exists,
                (probes, &paths.blocklist_file),
                evidence.blocklist_exists,
            )
            &&& evidence.cache is Some
            &&& call_ensures(
                D::cache_readiness,
                (probes, &paths.remote_cache_dir),
                evidence.cache->0,
            )
        },
    }
}

/// The evidence is what the ports replied; what does not apply was not asked for.
pub open spec fn gathered<X: Cancellation, P: PathResolver, C: ConfigRepository, D: DoctorProbe>(
    request: PathResolutionInput,
    dependencies: DoctorDependencies<'_, X, P, C, D>,
    evidence: DoctorEvidence,
) -> bool {
    let probes = dependencies.probes;
    let sudo = evidence.sudo is Some;
    let ipv6 = mode_of(evidence.config) == Ipv6Mode::Enabled;
    &&& call_ensures(
        P::resolve,
        (dependencies.paths, &request, ConfigRequirement::Required),
        evidence.paths,
    )
    &&& config_loaded(dependencies.configs, evidence.paths, evidence.config)
    &&& call_ensures(D::find_binary, (probes, "sudo"), evidence.sudo)
    &&& call_ensures(D::find_binary, (probes, "bgpq4"), evidence.bgpq4)
    &&& call_ensures(D::find_binary, (probes, "ipset"), evidence.ipset)
    &&& call_ensures(D::find_binary, (probes, "iptables"), evidence.iptables)
    &&& if ipv6 {
        call_ensures(D::find_binary, (probes, "ip6tables"), evidence.ip6tables)
    } else {
        evidence.ip6tables is None
    }
    &&& paths_inspected(probes, evidence)
    &&& probed(probes, "ipset", "list", sudo && evidence.ipset is Some, evidence.ipset_probe)
    &&& probed(probes, "iptables", "-S", sudo && evidence.iptables is Some, evidence.iptables_probe)
    &&& probed(
        probes,
        "ip6tables",
        "-S",
        sudo && ipv6 && evidence.ip6tables is Some,
        evidence.ip6tables_probe,
    )
}

fn run_probe<D: DoctorProbe>(
    probes: &D,
    binary: &'static str,
    argument: &'static str,
    runnable: bool,
) -> (probe: Option<Result<(), ProbeFailure>>)
    ensures
        probed(probes, binary, argument, runnable, probe),
{
    if !runnable {
        return None;
    }
    let mut arguments: Vec<&'static str> = Vec::new();
    arguments.push(argument);
    let reply: Result<(), ProbeFailure> = probes.run_sudo_probe(binary, &arguments);
    assert(arguments@ =~= seq![argument]);
    Some(reply)
}

fn load_mode<C: ConfigRepository>(configs: &C, paths: &Result<ResolvedPaths, AppError>) -> (config:
    Option<Result<bool, AppError>>)
    ensures
        config_loaded(configs, *paths, config),
{
    match paths {
        Err(_) => None,
        Ok(found) => match configs.load(&found.config_file) {
            Ok(config) => Some(Ok(config.ipset.enable_ipv6)),
            Err(error) => Some(Err(error)),
        },
    }
}

/// Asks the ports for everything that the checks look at.
pub fn gather<X: Cancellation, P: PathResolver, C: ConfigRepository, D: DoctorProbe>(
    request: &PathResolutionInput,
    dependencies: &DoctorDependencies<'_, X, P, C, D>,
) -> (evidence: Result<DoctorEvidence, AppError>)
    ensures
        match evidence {
            Ok(found) => gathered(*request, *dependencies, found) && found.complete() && allowed_by(
                verdicts(dependencies.cancellation),
            ),
            Err(_) => stopped_by(verdicts(dependencies.cancellation), evidence),
        },
{
    let cancellation: &X = dependencies.cancellation;
    let probes: &D = dependencies.probes;
    if let Err(error) = check_cancellation(cancellation) {
        return Err(error);
    }
    let paths: Result<ResolvedPaths, AppError> = dependencies.paths.resolve(
        request,
        ConfigRequirement::Required,
    );
    let config: Option<Result<bool, AppError>> = load_mode(dependencies.configs, &paths);
    let ipv6: bool = ipv6_mode(&config) == Ipv6Mode::Enabled;
    if let Err(error) = check_cancellation(cancellation) {
        return Err(error);
    }
    let sudo: Option<String> = probes.find_binary("sudo");
    if let Err(error) = check_cancellation(cancellation) {
        return Err(error);
    }
    let bgpq4: Option<String> = probes.find_binary("bgpq4");
    if let Err(error) = check_cancellation(cancellation) {
        return Err(error);
    }
    let ipset: Option<String> = probes.find_binary("ipset");
    if let Err(error) = check_cancellation(cancellation) {
        return Err(error);
    }
    let iptables: Option<String> = probes.find_binary("iptables");
    let ip6tables: Option<String> = if ipv6 {
        probes.find_binary("ip6tables")
    } else {
        None
    };
    let mut config_exists: bool = false;
    let mut blocklist_exists: bool = false;
    let mut cache: Option<Result<CacheReadiness, String>> = None;
    if let Ok(found) = &paths {
        config_exists = probes.path_exists(&found.config_file);
        blocklist_exists = probes.path_exists(&found.blocklist_file);
        cache = Some(probes.cache_readiness(&found.remote_cache_dir));
    }
    if let Err(error) = check_cancellation(cancellation) {
        return Err(error);
    }
    let ipset_probe: Option<Result<(), ProbeFailure>> = run_probe(
        probes,
        "ipset",
        "list",
        sudo.is_some() && ipset.is_some(),
    );
    if let Err(error) = check_cancellation(cancellation) {
        return Err(error);
    }
    let iptables_probe: Option<Result<(), ProbeFailure>> = run_probe(
        probes,
        "iptables",
        "-S",
        sudo.is_some() && iptables.is_some(),
    );
    if let Err(error) = check_cancellation(cancellation) {
        return Err(error);
    }
    let ip6tables_probe: Option<Result<(), ProbeFailure>> = run_probe(
        probes,
        "ip6tables",
        "-S",
        sudo.is_some() && ipv6 && ip6tables.is_some(),
    );
    if let Err(error) = check_cancellation(cancellation) {
        return Err(error);
    }
    Ok(
        DoctorEvidence {
            paths,
            config,
            sudo,
            bgpq4,
            ipset,
            iptables,
            ip6tables,
            config_exists,
            blocklist_exists,
            cache,
            ipset_probe,
            iptables_probe,
            ip6tables_probe,
        },
    )
}

/// Runs all applicable read-only checks and returns a deterministic report.
///
/// Individual failures are represented in the report rather than returned as workflow errors;
/// only the failure with which cancellation rejects further work between checks is returned.
pub fn execute<X: Cancellation, P: PathResolver, C: ConfigRepository, D: DoctorProbe>(
    request: &PathResolutionInput,
    dependencies: &DoctorDependencies<'_, X, P, C, D>,
) -> (report: Result<DoctorReport, AppError>)
    ensures
        match report {
            Ok(found) => exists|evidence: DoctorEvidence|
                {
                    &&& allowed_by(verdicts(dependencies.cancellation))
                    &&& #[trigger] gathered(*request, *dependencies, evidence)
                    &&& check_models(found.checks@) == report_checks(evidence)
                    &&& found.overall == overall_of(report_checks(evidence))
                },
            Err(_) => stopped_by(verdicts(dependencies.cancellation), report),
        },
{
    match gather(request, dependencies) {
        Ok(evidence) => Ok(diagnose(&evidence)),
        Err(error) => Err(error),
    }
}

/// Disabled IPv6 is never a failure: its checks are skipped.
pub proof fn law_disabled_ipv6_is_skipped(evidence: DoctorEvidence)
    requires
        mode_of(evidence.config) == Ipv6Mode::Disabled,
    ensures
        report_checks(evidence)[5] == skip_model("binary_ip6tables", "ipv6 disabled in config"@),
        report_checks(evidence)[11] == skip_model(
            "sudo_probe_ip6tables",
            "ipv6 disabled in config"@,
        ),
{
}

} // verus!
