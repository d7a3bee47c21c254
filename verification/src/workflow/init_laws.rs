//! What an initialization provisions.

use crate::workflow::error::AppError;
use crate::workflow::init::{
    carried_out, escaped, escaped_char, init_rule, init_tasks, install_rule, optional_text,
    provision_rule, provisioned, service_text, task_models, InitDependencies, InitOutcome,
    InitProvisioner, InitRequest, ProvisionState, ProvisionTask, ProvisionedArtifact,
    DEFAULT_BLOCKLIST_TEMPLATE, DEFAULT_CONFIG_TEMPLATE, DEFAULT_SYSTEMD_TIMER_TEMPLATE,
    SERVICE_HEAD,
};
use crate::workflow::paths::{path_join, ConfigRequirement, ResolvedPaths};
use crate::workflow::ports::{verdicts, Cancellation, PathResolver};
use vstd::prelude::*;

verus! {

/// The directory was ensured, with the state that the artifact reports.
pub open spec fn ensured_dir<I: InitProvisioner>(
    provisioner: &I,
    path: Seq<char>,
    artifact: ProvisionedArtifact,
) -> bool {
    artifact.path@ == path && exists|asked: String|
        asked@ == path && #[trigger] call_ensures(
            I::ensure_dir,
            (provisioner, &asked),
            Ok::<ProvisionState, AppError>(artifact.state),
        )
}

/// The file was ensured with the contents, with the state that the artifact reports.
pub open spec fn ensured_file<I: InitProvisioner>(
    provisioner: &I,
    path: Seq<char>,
    contents: Seq<char>,
    artifact: ProvisionedArtifact,
) -> bool {
    artifact.path@ == path && exists|asked: String, text: String|
        asked@ == path && text@ == contents && #[trigger] call_ensures(
            I::ensure_file,
            (provisioner, &asked, &text),
            Ok::<ProvisionState, AppError>(artifact.state),
        )
}

proof fn lemma_ensured<I: InitProvisioner>(
    provisioner: &I,
    tasks: Seq<ProvisionTask>,
    artifacts: Seq<ProvisionedArtifact>,
    k: int,
)
    requires
        provisioned(provisioner, tasks, artifacts),
        0 <= k < artifacts.len(),
    ensures
        match task_models(tasks)[k].contents {
            None => ensured_dir(provisioner, task_models(tasks)[k].path, artifacts[k]),
            Some(contents) => ensured_file(
                provisioner,
                task_models(tasks)[k].path,
                contents,
                artifacts[k],
            ),
        },
{
    let task = tasks[k];
    assert(task_models(tasks)[k] == task@);
    assert(artifacts[k].path@ == task.path@);
    assert(carried_out(provisioner, task, Ok::<ProvisionState, AppError>(artifacts[k].state)));
}

/// Where units are installed: below the root where one is given.
pub open spec fn units_at(root: Option<String>) -> Seq<char> {
    match root {
        Some(path) => path_join(path@, "systemd/system"@),
        None => "/etc/systemd/system"@,
    }
}

/// A successful initialization ensured the directories of the configuration, the data, the cache
/// and the units, and the files of the configuration, the blocklist, the lock and the two units,
/// and reports each; the timer is enabled exactly when no other root is given.
#[verifier::rlimit(50)]
pub proof fn law_init_provisions_every_artifact<
    X: Cancellation,
    P: PathResolver,
    I: InitProvisioner,
>(
    request: InitRequest,
    dependencies: InitDependencies<'_, X, P, I>,
    outcome: InitOutcome,
) -> (found: (ResolvedPaths, String))
    requires
        init_rule(request, dependencies, Ok(outcome)),
    ensures
        call_ensures(
            P::resolve,
            (dependencies.paths, &request.paths, ConfigRequirement::Optional),
            Ok::<ResolvedPaths, AppError>(found.0),
        ),
        call_ensures(
            I::resolve_installed_executable,
            (dependencies.provisioner, &request.executable_candidates),
            Ok::<String, AppError>(found.1),
        ),
        outcome.artifacts@.len() == 9,
        ensured_dir(dependencies.provisioner, found.0.config_dir@, outcome.artifacts@[0]),
        ensured_dir(dependencies.provisioner, found.0.data_dir@, outcome.artifacts@[1]),
        ensured_dir(dependencies.provisioner, found.0.remote_cache_dir@, outcome.artifacts@[2]),
        ensured_dir(
            dependencies.provisioner,
            units_at(request.root_override),
            outcome.artifacts@[3],
        ),
        ensured_file(
            dependencies.provisioner,
            found.0.config_file@,
            DEFAULT_CONFIG_TEMPLATE@,
            outcome.artifacts@[4],
        ),
        ensured_file(
            dependencies.provisioner,
            found.0.blocklist_file@,
            DEFAULT_BLOCKLIST_TEMPLATE@,
            outcome.artifacts@[5],
        ),
        ensured_file(
            dependencies.provisioner,
            found.0.lock_file@,
            Seq::empty(),
            outcome.artifacts@[6],
        ),
        ensured_file(
            dependencies.provisioner,
            path_join(units_at(request.root_override), "kidobo-sync.service"@),
            service_text(found.1@, optional_text(request.root_override)),
            outcome.artifacts@[7],
        ),
        ensured_file(
            dependencies.provisioner,
            path_join(units_at(request.root_override), "kidobo-sync.timer"@),
            DEFAULT_SYSTEMD_TIMER_TEMPLATE@,
            outcome.artifacts@[8],
        ),
        outcome.systemd_enabled <==> request.root_override is None,
        outcome.systemd_enabled ==> exists|reply: Result<(), AppError>|
            reply is Ok && #[trigger] call_ensures(
                I::enable_systemd_timer,
                (dependencies.provisioner,),
                reply,
            ),
{
    let wanted = Ok::<InitOutcome, AppError>(outcome);
    let resolved = choose|paths: Result<ResolvedPaths, AppError>|
        {
            &&& #[trigger] call_ensures(
                P::resolve,
                (dependencies.paths, &request.paths, ConfigRequirement::Optional),
                paths,
            )
            &&& paths is Ok
            &&& exists|executable: Result<String, AppError>|
                {
                    &&& #[trigger] call_ensures(
                        I::resolve_installed_executable,
                        (dependencies.provisioner, &request.executable_candidates),
                        executable,
                    )
                    &&& executable is Ok
                    &&& install_rule(
                        request,
                        dependencies,
                        paths->Ok_0,
                        executable->Ok_0,
                        wanted,
                    )
                }
        };
    let paths = resolved->Ok_0;
    let chosen = choose|executable: Result<String, AppError>|
        {
            &&& #[trigger] call_ensures(
                I::resolve_installed_executable,
                (dependencies.provisioner, &request.executable_candidates),
                executable,
            )
            &&& executable is Ok
            &&& install_rule(request, dependencies, paths, executable->Ok_0, wanted)
        };
    let executable = chosen->Ok_0;
    lemma_installed(request, dependencies, paths, executable, outcome);
    (paths, executable)
}

proof fn lemma_installed<X: Cancellation, P: PathResolver, I: InitProvisioner>(
    request: InitRequest,
    dependencies: InitDependencies<'_, X, P, I>,
    paths: ResolvedPaths,
    executable: String,
    outcome: InitOutcome,
)
    requires
        install_rule(request, dependencies, paths, executable, Ok(outcome)),
    ensures
        outcome.artifacts@.len() == 9,
        ensured_dir(dependencies.provisioner, paths.config_dir@, outcome.artifacts@[0]),
        ensured_dir(dependencies.provisioner, paths.data_dir@, outcome.artifacts@[1]),
        ensured_dir(dependencies.provisioner, paths.remote_cache_dir@, outcome.artifacts@[2]),
        ensured_dir(
            dependencies.provisioner,
            units_at(request.root_override),
            outcome.artifacts@[3],
        ),
        ensured_file(
            dependencies.provisioner,
            paths.config_file@,
            DEFAULT_CONFIG_TEMPLATE@,
            outcome.artifacts@[4],
        ),
        ensured_file(
            dependencies.provisioner,
            paths.blocklist_file@,
            DEFAULT_BLOCKLIST_TEMPLATE@,
            outcome.artifacts@[5],
        ),
        ensured_file(
            dependencies.provisioner,
            paths.lock_file@,
            Seq::empty(),
            outcome.artifacts@[6],
        ),
        ensured_file(
            dependencies.provisioner,
            path_join(units_at(request.root_override), "kidobo-sync.service"@),
            service_text(executable@, optional_text(request.root_override)),
            outcome.artifacts@[7],
        ),
        ensured_file(
            dependencies.provisioner,
            path_join(units_at(request.root_override), "kidobo-sync.timer"@),
            DEFAULT_SYSTEMD_TIMER_TEMPLATE@,
            outcome.artifacts@[8],
        ),
        outcome.systemd_enabled <==> request.root_override is None,
        outcome.systemd_enabled ==> exists|reply: Result<(), AppError>|
            reply is Ok && #[trigger] call_ensures(
                I::enable_systemd_timer,
                (dependencies.provisioner,),
                reply,
            ),
{
    let (tasks, artifacts) = choose|
        tasks: Seq<ProvisionTask>,
        artifacts: Result<Vec<ProvisionedArtifact>, AppError>,
    |
        {
            &&& #[trigger] provision_rule(
                verdicts(dependencies.cancellation),
                dependencies.provisioner,
                tasks,
                artifacts,
            )
            &&& task_models(tasks) == init_tasks(
                paths,
                executable@,
                optional_text(request.root_override),
            )
            &&& artifacts is Ok
            &&& artifacts->Ok_0 == outcome.artifacts
        };
    assert(provisioned(dependencies.provisioner, tasks, outcome.artifacts@));
    assert(tasks.len() == task_models(tasks).len());
    reveal_strlit("");
    assert(""@ =~= Seq::<char>::empty());
    lemma_ensured(dependencies.provisioner, tasks, outcome.artifacts@, 0);
    lemma_ensured(dependencies.provisioner, tasks, outcome.artifacts@, 1);
    lemma_ensured(dependencies.provisioner, tasks, outcome.artifacts@, 2);
    lemma_ensured(dependencies.provisioner, tasks, outcome.artifacts@, 3);
    lemma_ensured(dependencies.provisioner, tasks, outcome.artifacts@, 4);
    lemma_ensured(dependencies.provisioner, tasks, outcome.artifacts@, 5);
    lemma_ensured(dependencies.provisioner, tasks, outcome.artifacts@, 6);
    lemma_ensured(dependencies.provisioner, tasks, outcome.artifacts@, 7);
    lemma_ensured(dependencies.provisioner, tasks, outcome.artifacts@, 8);
}

/// Escaping goes character by character: a backslash, a quote and a line feed become two
/// characters each, every other character stays.
pub proof fn law_escaping_goes_by_character(before: Seq<char>, c: char, after: Seq<char>)
    ensures
        escaped(before + seq![c] + after) == escaped(before) + (if c == '\\' {
            seq!['\\', '\\']
        } else if c == '"' {
            seq!['\\', '"']
        } else if c == '\n' {
            seq!['\\', 'n']
        } else {
            seq![c]
        }) + escaped(after),
        escaped(Seq::empty()) == Seq::<char>::empty(),
    decreases after.len(),
{
    reveal_strlit("\\\\");
    reveal_strlit("\\\"");
    reveal_strlit("\\n");
    assert("\\\\"@ =~= seq!['\\', '\\']);
    assert("\\\""@ =~= seq!['\\', '"']);
    assert("\\n"@ =~= seq!['\\', 'n']);
    let all = before + seq![c] + after;
    if after.len() == 0 {
        assert(all.drop_last() =~= before);
        assert(escaped(all) =~= escaped(before) + escaped_char(c) + escaped(after));
    } else {
        law_escaping_goes_by_character(before, c, after.drop_last());
        assert(all.drop_last() =~= before + seq![c] + after.drop_last());
        assert(escaped(all) =~= escaped(before) + escaped_char(c) + escaped(after));
    }
}

/// A value survives quoting: no line feed is left in it, and two values that quote alike are the
/// same.
pub proof fn law_escaping_loses_nothing(a: Seq<char>, b: Seq<char>)
    ensures
        forall|i: int| 0 <= i < escaped(a).len() ==> #[trigger] escaped(a)[i] != '\n',
        escaped(a) == escaped(b) ==> a == b,
    decreases a.len(),
{
    reveal_strlit("\\\\");
    reveal_strlit("\\\"");
    reveal_strlit("\\n");
    if a.len() > 0 {
        let head = seq![a[0]];
        let tail = a.drop_first();
        assert(a =~= Seq::<char>::empty() + head + tail);
        law_escaping_goes_by_character(Seq::empty(), a[0], tail);
        assert(escaped(a) =~= escaped_char(a[0]) + escaped(tail));
        if b.len() > 0 {
            let rest = b.drop_first();
            assert(b =~= Seq::<char>::empty() + seq![b[0]] + rest);
            law_escaping_goes_by_character(Seq::empty(), b[0], rest);
            assert(escaped(b) =~= escaped_char(b[0]) + escaped(rest));
            law_escaping_loses_nothing(tail, rest);
            if escaped(a) == escaped(b) {
                assert(escaped(a)[0] == escaped(b)[0]);
                if escaped(a)[0] == '\\' {
                    assert(escaped(a)[1] == escaped(b)[1]);
                }
                assert(a[0] == b[0]);
                let n = escaped_char(a[0]).len() as int;
                assert(escaped(a).skip(n) =~= escaped(tail));
                assert(escaped(b).skip(n) =~= escaped(rest));
                assert(a =~= seq![a[0]] + tail);
                assert(b =~= seq![b[0]] + rest);
            }
        } else {
            law_escaping_loses_nothing(tail, Seq::empty());
            assert(escaped(a).len() > 0);
        }
    } else if b.len() > 0 {
        let rest = b.drop_first();
        assert(b =~= Seq::<char>::empty() + seq![b[0]] + rest);
        law_escaping_goes_by_character(Seq::empty(), b[0], rest);
        assert(escaped(b).len() > 0);
    } else {
        assert(a =~= b);
    }
}

/// The service unit sets a root exactly when one is given, and starts the executable with `sync`.
pub proof fn law_service_unit_starts_the_executable(executable: Seq<char>, root: Seq<char>)
    ensures
        service_text(executable, None) == SERVICE_HEAD@ + "ExecStart=\""@ + escaped(executable)
            + "\" sync\n"@,
        service_text(executable, Some(root)) == SERVICE_HEAD@ + "Environment=\"KIDOBO_ROOT="@
            + escaped(root) + "\"\n"@ + "ExecStart=\""@ + escaped(executable) + "\" sync\n"@,
{
}

} // verus!
