//! Idempotent provisioning workflow and generated systemd unit templates.

use crate::text::{from_chars, to_chars};
use crate::workflow::error::AppError;
use crate::workflow::paths::{
    join_path, path_join, ConfigRequirement, PathResolutionInput, ResolvedPaths,
};
use crate::workflow::ports::{
    allowed_by, check_cancellation, stopped_by, verdicts, Cancellation, PathResolver,
};
use vstd::prelude::*;

verus! {

/// Preferred trusted installed executable path.
pub const DEFAULT_KIDOBO_BINARY_PATH: &'static str = "/usr/local/bin/kidobo";

/// Secondary trusted installed executable path.
pub const FALLBACK_KIDOBO_BINARY_PATH: &'static str = "/usr/bin/kidobo";

/// Default systemd unit directory.
pub const DEFAULT_SYSTEMD_DIR: &'static str = "/etc/systemd/system";

/// Managed one-shot synchronization service filename.
pub const KIDOBO_SYNC_SERVICE_FILE: &'static str = "kidobo-sync.service";

/// Managed synchronization timer filename.
pub const KIDOBO_SYNC_TIMER_FILE: &'static str = "kidobo-sync.timer";

/// Default configuration written only when no configuration exists.
pub const DEFAULT_CONFIG_TEMPLATE: &'static str = "[ipset]
set_name = \"kidobo\"
chain_action = \"DROP\"

[safe]
ips = []
include_github_meta = true
github_meta_url = \"https://api.github.com/meta\"
# github_meta_categories = [\"api\", \"git\", \"hooks\", \"packages\"]

[remote]
timeout_secs = 30
urls = []

[asn]
banned = []
cache_stale_after_secs = 86400
";

/// Default local blocklist written only when none exists.
pub const DEFAULT_BLOCKLIST_TEMPLATE: &'static str =
    "# Add one IP or CIDR entry per line.\n# Example: 203.0.113.7\n";

/// Default persistent hourly systemd timer unit.
pub const DEFAULT_SYSTEMD_TIMER_TEMPLATE: &'static str = "[Unit]
Description=Run kidobo sync periodically

[Timer]
OnBootSec=2min
OnUnitActiveSec=1h
Persistent=true
Unit=kidobo-sync.service

[Install]
WantedBy=timers.target
";

/// Head of the service unit, up to its settings.
pub const SERVICE_HEAD: &'static str = "[Unit]
Description=Kidobo firewall blocklist sync
After=network-online.target
Wants=network-online.target

[Service]
Type=oneshot
Environment=\"KIDOBO_LOG_FORMAT=journal\"
";

/// Request to provision Kidobo's local files and optional live systemd units.
#[derive(Debug, Clone, PartialEq, Eq)]
pub struct InitRequest {
    /// Runtime path inputs.
    pub paths: PathResolutionInput,
    /// Alternate filesystem root; when present, live systemd enablement is skipped.
    pub root_override: Option<String>,
    /// Trusted executable paths considered in order.
    pub executable_candidates: Vec<String>,
}

/// Whether an idempotently provisioned artifact was created or retained.
#[derive(Debug, Clone, Copy, PartialEq, Eq, Structural)]
pub enum ProvisionState {
    /// Artifact did not exist and was created.
    Created,
    /// Existing artifact was preserved unchanged.
    Preserved,
}

/// Path and state of one provisioned directory or file.
#[derive(Debug, Clone, PartialEq, Eq)]
pub struct ProvisionedArtifact {
    /// Provisioned path.
    pub path: String,
    /// Whether the artifact was created or preserved.
    pub state: ProvisionState,
}

/// Successful initialization result.
#[derive(Debug, Clone, PartialEq, Eq)]
pub struct InitOutcome {
    /// Provisioned artifacts in workflow order.
    pub artifacts: Vec<ProvisionedArtifact>,
    /// Whether the live systemd timer was enabled.
    pub systemd_enabled: bool,
}

impl Default for InitOutcome {
    fn default() -> (outcome: InitOutcome)
        ensures
            outcome.artifacts@.len() == 0,
            !outcome.systemd_enabled,
    {
        InitOutcome { artifacts: Vec::new(), systemd_enabled: false }
    }
}

// Service unit ----------------------------------------------------------------------------------

/// A character inside a quoted systemd value.
pub open spec fn escaped_char(c: char) -> Seq<char> {
    if c == '\\' {
        "\\\\"@
    } else if c == '"' {
        "\\\""@
    } else if c == '\n' {
        "\\n"@
    } else {
        seq![c]
    }
}

/// A text inside a quoted systemd value.
pub open spec fn escaped(value: Seq<char>) -> Seq<char>
    decreases value.len(),
{
    if value.len() == 0 {
        Seq::empty()
    } else {
        escaped(value.drop_last()) + escaped_char(value.last())
    }
}

/// Escapes backslashes, quotes and line feeds of a systemd value.
pub fn escape_systemd_value(value: &str) -> (text: String)
    ensures
        text@ == escaped(value@),
{
    let chars: Vec<char> = to_chars(value);
    let mut out: Vec<char> = Vec::new();
    let mut i: usize = 0;
    proof {
        reveal_strlit("\\\\");
        reveal_strlit("\\\"");
        reveal_strlit("\\n");
        assert(out@ =~= escaped(value@.take(0)));
    }
    while i < chars.len()
        invariant
            i <= chars@.len(),
            chars@ == value@,
            "\\\\"@ == seq!['\\', '\\'],
            "\\\""@ == seq!['\\', '"'],
            "\\n"@ == seq!['\\', 'n'],
            out@ == escaped(value@.take(i as int)),
        decreases chars@.len() - i,
    {
        let c: char = chars[i];
        let ghost before = out@;
        assert(value@.take(i + 1).drop_last() =~= value@.take(i as int));
        if c == '\\' {
            out.push('\\');
            out.push('\\');
        } else if c == '"' {
            out.push('\\');
            out.push('"');
        } else if c == '\n' {
            out.push('\\');
            out.push('n');
        } else {
            out.push(c);
        }
        assert(out@ =~= before + escaped_char(c));
        i = i + 1;
    }
    assert(value@.take(i as int) =~= value@);
    from_chars(out.as_slice())
}

/// The one-shot service unit for an executable and an optional root.
pub open spec fn service_text(executable: Seq<char>, root: Option<Seq<char>>) -> Seq<char> {
    let head = match root {
        Some(path) => SERVICE_HEAD@ + "Environment=\"KIDOBO_ROOT="@ + escaped(path) + "\"\n"@,
        None => SERVICE_HEAD@,
    };
    head + "ExecStart=\""@ + escaped(executable) + "\" sync\n"@
}

/// The text of an optional string.
pub open spec fn optional_text(value: Option<String>) -> Option<Seq<char>> {
    match value {
        Some(text) => Some(text@),
        None => None,
    }
}

/// Renders the compatibility-sensitive one-shot systemd service unit.
///
/// A root override is encoded as a native `KIDOBO_ROOT` environment setting for fixture installs.
pub fn build_systemd_service_template(
    executable_path: &str,
    root_override: Option<&str>,
) -> (unit: String)
    ensures
        unit@ == service_text(
            executable_path@,
            match root_override {
                Some(root) => Some(root@),
                None => None,
            },
        ),
{
    let mut output: String = SERVICE_HEAD.to_owned();
    if let Some(root) = root_override {
        output.append("Environment=\"KIDOBO_ROOT=");
        output.append(escape_systemd_value(root).as_str());
        output.append("\"\n");
    }
    output.append("ExecStart=\"");
    output.append(escape_systemd_value(executable_path).as_str());
    output.append("\" sync\n");
    output
}

// Artifacts -------------------------------------------------------------------------------------

/// A directory or file to provision.
pub struct ProvisionTask {
    /// Path of the artifact.
    pub path: String,
    /// Contents of a file; none for a directory.
    pub contents: Option<String>,
}

/// Contents of a task.
pub struct TaskModel {
    pub path: Seq<char>,
    pub contents: Option<Seq<char>>,
}

impl View for ProvisionTask {
    type V = TaskModel;

    open spec fn view(&self) -> TaskModel {
        TaskModel { path: self.path@, contents: optional_text(self.contents) }
    }
}

/// Contents of tasks, in order.
pub open spec fn task_models(tasks: Seq<ProvisionTask>) -> Seq<TaskModel> {
    tasks.map_values(|t: ProvisionTask| t@)
}

/// Directory for systemd units.
pub open spec fn unit_directory(root: Option<Seq<char>>) -> Seq<char> {
    match root {
        Some(path) => path_join(path, "systemd/system"@),
        None => DEFAULT_SYSTEMD_DIR@,
    }
}

/// A directory to provision.
pub open spec fn directory_task(path: Seq<char>) -> TaskModel {
    TaskModel { path, contents: None }
}

/// A file to provision.
pub open spec fn file_task(path: Seq<char>, contents: Seq<char>) -> TaskModel {
    TaskModel { path, contents: Some(contents) }
}

/// Directories, then files, in the order in which they are provisioned.
pub open spec fn init_tasks(
    paths: ResolvedPaths,
    executable: Seq<char>,
    root: Option<Seq<char>>,
) -> Seq<TaskModel> {
    let units = unit_directory(root);
    seq![
        directory_task(paths.config_dir@),
        directory_task(paths.data_dir@),
        directory_task(paths.remote_cache_dir@),
        directory_task(units),
        file_task(paths.config_file@, DEFAULT_CONFIG_TEMPLATE@),
        file_task(paths.blocklist_file@, DEFAULT_BLOCKLIST_TEMPLATE@),
        file_task(paths.lock_file@, ""@),
        file_task(path_join(units, KIDOBO_SYNC_SERVICE_FILE@), service_text(executable, root)),
        file_task(path_join(units, KIDOBO_SYNC_TIMER_FILE@), DEFAULT_SYSTEMD_TIMER_TEMPLATE@),
    ]
}

fn add_directory(tasks: &mut Vec<ProvisionTask>, path: &String)
    ensures
        task_models(final(tasks)@) == task_models(old(tasks)@).push(directory_task(path@)),
{
    let ghost before = tasks@;
    tasks.push(ProvisionTask { path: path.clone(), contents: None });
    assert(task_models(tasks@) =~= task_models(before).push(directory_task(path@)));
}

fn add_file(tasks: &mut Vec<ProvisionTask>, path: &String, contents: &str)
    ensures
        task_models(final(tasks)@) == task_models(old(tasks)@).push(file_task(path@, contents@)),
{
    let ghost before = tasks@;
    tasks.push(ProvisionTask { path: path.clone(), contents: Some(contents.to_owned()) });
    assert(task_models(tasks@) =~= task_models(before).push(file_task(path@, contents@)));
}

/// Lists the artifacts of an installation in the order in which they are provisioned.
pub fn plan_artifacts(
    paths: &ResolvedPaths,
    executable: &String,
    root_override: &Option<String>,
) -> (tasks: Vec<ProvisionTask>)
    ensures
        task_models(tasks@) == init_tasks(*paths, executable@, optional_text(*root_override)),
{
    let systemd_dir: String = match root_override {
        Some(root) => join_path(root.as_str(), "systemd/system"),
        None => DEFAULT_SYSTEMD_DIR.to_owned(),
    };
    let service_file: String = join_path(systemd_dir.as_str(), KIDOBO_SYNC_SERVICE_FILE);
    let timer_file: String = join_path(systemd_dir.as_str(), KIDOBO_SYNC_TIMER_FILE);
    let service: String = build_systemd_service_template(
        executable.as_str(),
        match root_override {
            Some(root) => Some(root.as_str()),
            None => None,
        },
    );
    let mut tasks: Vec<ProvisionTask> = Vec::new();
    assert(task_models(tasks@) =~= Seq::empty());
    add_directory(&mut tasks, &paths.config_dir);
    add_directory(&mut tasks, &paths.data_dir);
    add_directory(&mut tasks, &paths.remote_cache_dir);
    add_directory(&mut tasks, &systemd_dir);
    add_file(&mut tasks, &paths.config_file, DEFAULT_CONFIG_TEMPLATE);
    add_file(&mut tasks, &paths.blocklist_file, DEFAULT_BLOCKLIST_TEMPLATE);
    add_file(&mut tasks, &paths.lock_file, "");
    add_file(&mut tasks, &service_file, service.as_str());
    add_file(&mut tasks, &timer_file, DEFAULT_SYSTEMD_TIMER_TEMPLATE);
    assert(task_models(tasks@) =~= init_tasks(
        *paths,
        executable@,
        optional_text(*root_override),
    ));
    tasks
}

// Workflow --------------------------------------------------------------------------------------

/// Side-effect boundary for safe, idempotent initialization.
pub trait InitProvisioner {
    /// Selects an installed executable from the trusted candidate paths.
    fn resolve_installed_executable(&self, candidates: &Vec<String>) -> (executable: Result<
        String,
        AppError,
    >);

    /// Creates a directory if it is absent.
    fn ensure_dir(&self, path: &String) -> (state: Result<ProvisionState, AppError>);

    /// Creates a file with the supplied contents if it is absent.
    fn ensure_file(&self, path: &String, contents: &String) -> (state: Result<
        ProvisionState,
        AppError,
    >);

    /// Reloads systemd and enables the managed timer.
    fn enable_systemd_timer(&self) -> (outcome: Result<(), AppError>);
}

/// Ports required by the initialization workflow.
pub struct InitDependencies<'a, X: Cancellation, P: PathResolver, I: InitProvisioner> {
    /// Cooperative cancellation outside a started mutation.
    pub cancellation: &'a X,
    /// Runtime path resolver.
    pub paths: &'a P,
    /// Filesystem and systemd provisioner.
    pub provisioner: &'a I,
}

/// The task was carried out with the reply.
pub open spec fn carried_out<I: InitProvisioner>(
    provisioner: &I,
    task: ProvisionTask,
    reply: Result<ProvisionState, AppError>,
) -> bool {
    match task.contents {
        None => call_ensures(I::ensure_dir, (provisioner, &task.path), reply),
        Some(contents) => call_ensures(
            I::ensure_file,
            (provisioner, &task.path, &contents),
            reply,
        ),
    }
}

/// Artifact `k` is what carrying out task `k` gave.
pub open spec fn provisioned<I: InitProvisioner>(
    provisioner: &I,
    tasks: Seq<ProvisionTask>,
    artifacts: Seq<ProvisionedArtifact>,
) -> bool {
    &&& artifacts.len() <= tasks.len()
    &&& forall|k: int|
        0 <= k < artifacts.len() ==> (#[trigger] artifacts[k]).path@ == tasks[k].path@
            && carried_out(
            provisioner,
            tasks[k],
            Ok::<ProvisionState, AppError>(artifacts[k].state),
        )
}

/// Tasks are carried out in order: all of them, or those before the first that fails or before
/// which a check rejected further work.
pub open spec fn provision_rule<I: InitProvisioner>(
    checks: spec_fn(Result<(), AppError>) -> bool,
    provisioner: &I,
    tasks: Seq<ProvisionTask>,
    artifacts: Result<Vec<ProvisionedArtifact>, AppError>,
) -> bool {
    exists|done: Seq<ProvisionedArtifact>|
        {
            &&& #[trigger] provisioned(provisioner, tasks, done)
            &&& done.len() > 0 ==> allowed_by(checks)
            &&& match artifacts {
                Ok(list) => list@ == done && done.len() == tasks.len(),
                Err(error) => done.len() < tasks.len() && (stopped_by(checks, artifacts)
                    || allowed_by(checks) && carried_out(
                    provisioner,
                    tasks[done.len() as int],
                    Err::<ProvisionState, AppError>(error),
                )),
            }
        }
}

/// Carries out tasks in order.
pub fn provision<X: Cancellation, I: InitProvisioner>(
    cancellation: &X,
    provisioner: &I,
    tasks: &Vec<ProvisionTask>,
) -> (artifacts: Result<Vec<ProvisionedArtifact>, AppError>)
    ensures
        provision_rule(verdicts(cancellation), provisioner, tasks@, artifacts),
{
    let mut artifacts: Vec<ProvisionedArtifact> = Vec::new();
    let mut i: usize = 0;
    while i < tasks.len()
        invariant
            i <= tasks@.len(),
            artifacts@.len() == i,
            i > 0 ==> allowed_by(verdicts(cancellation)),
            provisioned(provisioner, tasks@, artifacts@),
        decreases tasks@.len() - i,
    {
        if let Err(error) = check_cancellation(cancellation) {
            return Err(error);
        }
        let task: &ProvisionTask = &tasks[i];
        let reply: Result<ProvisionState, AppError> = match &task.contents {
            None => provisioner.ensure_dir(&task.path),
            Some(contents) => provisioner.ensure_file(&task.path, contents),
        };
        assert(carried_out(provisioner, tasks@[i as int], reply));
        match reply {
            Ok(state) => {
                artifacts.push(ProvisionedArtifact { path: task.path.clone(), state });
            },
            Err(error) => {
                return Err(error);
            },
        }
        i = i + 1;
    }
    Ok(artifacts)
}

/// An initialization for known paths and executable.
pub open spec fn install_rule<X: Cancellation, P: PathResolver, I: InitProvisioner>(
    request: InitRequest,
    dependencies: InitDependencies<'_, X, P, I>,
    paths: ResolvedPaths,
    executable: String,
    outcome: Result<InitOutcome, AppError>,
) -> bool {
    exists|tasks: Seq<ProvisionTask>, artifacts: Result<Vec<ProvisionedArtifact>, AppError>|
        {
            &&& #[trigger] provision_rule(
                verdicts(dependencies.cancellation),
                dependencies.provisioner,
                tasks,
                artifacts,
            )
            &&& task_models(tasks) == init_tasks(
                paths,
                executable@,
                optional_text(request.root_override),
            )
            &&& match artifacts {
                Err(error) => outcome == Err::<InitOutcome, AppError>(error),
                Ok(done) => if request.root_override is Some {
                    outcome == Ok::<InitOutcome, AppError>(
                        InitOutcome { artifacts: done, systemd_enabled: false },
                    )
                } else {
                    let checks = verdicts(dependencies.cancellation);
                    stopped_by(checks, outcome) || allowed_by(checks) && exists|
                        reply: Result<(), AppError>,
                    |
                        {
                            &&& #[trigger] call_ensures(
                                I::enable_systemd_timer,
                                (dependencies.provisioner,),
                                reply,
                            )
                            &&& match reply {
                                Ok(_) => outcome == Ok::<InitOutcome, AppError>(
                                    InitOutcome { artifacts: done, systemd_enabled: true },
                                ),
                                Err(error) => outcome == Err::<InitOutcome, AppError>(error),
                            }
                        }
                },
            }
        }
}

fn install<X: Cancellation, P: PathResolver, I: InitProvisioner>(
    request: &InitRequest,
    dependencies: &InitDependencies<'_, X, P, I>,
    paths: &ResolvedPaths,
    executable: &String,
) -> (outcome: Result<InitOutcome, AppError>)
    ensures
        install_rule(*request, *dependencies, *paths, *executable, outcome),
{
    let tasks: Vec<ProvisionTask> = plan_artifacts(paths, executable, &request.root_override);
    let reply: Result<Vec<ProvisionedArtifact>, AppError> = provision(
        dependencies.cancellation,
        dependencies.provisioner,
        &tasks,
    );
    assert(provision_rule(
        verdicts(dependencies.cancellation),
        dependencies.provisioner,
        tasks@,
        reply,
    ));
    let artifacts: Vec<ProvisionedArtifact> = match reply {
        Ok(artifacts) => artifacts,
        Err(error) => {
            return Err(error);
        },
    };
    if request.root_override.is_some() {
        return Ok(InitOutcome { artifacts, systemd_enabled: false });
    }
    if let Err(error) = check_cancellation(dependencies.cancellation) {
        return Err(error);
    }
    if let Err(error) = dependencies.provisioner.enable_systemd_timer() {
        return Err(error);
    }
    Ok(InitOutcome { artifacts, systemd_enabled: true })
}

/// An initialization: paths, then the executable, then the artifacts and the timer.
pub open spec fn init_rule<X: Cancellation, P: PathResolver, I: InitProvisioner>(
    request: InitRequest,
    dependencies: InitDependencies<'_, X, P, I>,
    outcome: Result<InitOutcome, AppError>,
) -> bool {
    let checks = verdicts(dependencies.cancellation);
    stopped_by(checks, outcome) || allowed_by(checks) && exists|
        paths: Result<ResolvedPaths, AppError>,
    |
        {
            &&& #[trigger] call_ensures(
                P::resolve,
                (dependencies.paths, &request.paths, ConfigRequirement::Optional),
                paths,
            )
            &&& match paths {
                Err(error) => outcome == Err::<InitOutcome, AppError>(error),
                Ok(found) => exists|executable: Result<String, AppError>|
                    {
                        &&& #[trigger] call_ensures(
                            I::resolve_installed_executable,
                            (dependencies.provisioner, &request.executable_candidates),
                            executable,
                        )
                        &&& match executable {
                            Err(error) => outcome == Err::<InitOutcome, AppError>(error),
                            Ok(path) => install_rule(request, dependencies, found, path, outcome),
                        }
                    },
            }
        }
}

/// Provisions Kidobo directories, configuration, blocklist, lock, and systemd units.
///
/// Returns an error when cancellation rejects further work, paths cannot be resolved, the installed
/// executable cannot be trusted, an artifact cannot be provisioned, or live systemd enablement
/// fails.
pub fn execute<X: Cancellation, P: PathResolver, I: InitProvisioner>(
    request: &InitRequest,
    dependencies: &InitDependencies<'_, X, P, I>,
) -> (outcome: Result<InitOutcome, AppError>)
    ensures
        init_rule(*request, *dependencies, outcome),
{
    if let Err(error) = check_cancellation(dependencies.cancellation) {
        return Err(error);
    }
    let paths: ResolvedPaths = match dependencies.paths.resolve(
        &request.paths,
        ConfigRequirement::Optional,
    ) {
        Ok(paths) => paths,
        Err(error) => {
            return Err(error);
        },
    };
    let executable: String = match dependencies.provisioner.resolve_installed_executable(
        &request.executable_candidates,
    ) {
        Ok(executable) => executable,
        Err(error) => {
            return Err(error);
        },
    };
    install(request, dependencies, &paths, &executable)
}

} // verus!
