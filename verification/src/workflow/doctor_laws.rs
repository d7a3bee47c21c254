//! What the checks of a doctor report say of the host.

use crate::policy::config::Config;
use crate::text::trim;
use crate::workflow::doctor::{
    check_models, gathered, overall_of, report_checks, DoctorCheck, DoctorCheckStatus,
    DoctorDependencies, DoctorEvidence, DoctorOverall, DoctorProbe, DoctorReport, ProbeFailure,
};
use crate::workflow::error::{error_text, AppError};
use crate::workflow::paths::PathResolutionInput;
use crate::workflow::ports::{Cancellation, ConfigRepository, PathResolver};
use vstd::prelude::*;

verus! {

/// The report is the one that evidence leads to.
pub open spec fn reports(report: DoctorReport, evidence: DoctorEvidence) -> bool {
    &&& check_models(report.checks@) == report_checks(evidence)
    &&& report.overall == overall_of(report_checks(evidence))
}

/// The check has the name and the status.
pub open spec fn says(check: DoctorCheck, name: Seq<char>, status: DoctorCheckStatus) -> bool {
    check.name@ == name && check.status == status
}

/// Pass or fail.
pub open spec fn pass_if(good: bool) -> DoctorCheckStatus {
    if good {
        DoctorCheckStatus::Pass
    } else {
        DoctorCheckStatus::Fail
    }
}

/// Status of a probe: it says how the probe went, and is skipped only where it was not run.
pub open spec fn probe_status(probe: Option<Result<(), ProbeFailure>>) -> DoctorCheckStatus {
    match probe {
        None => DoctorCheckStatus::Skip,
        Some(Ok(_)) => DoctorCheckStatus::Pass,
        Some(Err(_)) => DoctorCheckStatus::Fail,
    }
}

/// The checks of a report, each with its name and status: the configuration must be readable, the
/// binaries must be found, the files must exist, the cache must not be unusable, and a privileged
/// probe that was run must have succeeded. What concerns IPv6 is skipped where the configuration
/// does not enable it, and a probe is skipped where it was not run.
pub proof fn law_checks_say_what_was_found<
    X: Cancellation,
    P: PathResolver,
    C: ConfigRepository,
    D: DoctorProbe,
>(
    request: PathResolutionInput,
    dependencies: DoctorDependencies<'_, X, P, C, D>,
    evidence: DoctorEvidence,
    report: DoctorReport,
)
    requires
        gathered(request, dependencies, evidence),
        reports(report, evidence),
    ensures
        report.checks@.len() == 12,
        says(
            report.checks@[0],
            "config_parse"@,
            pass_if(evidence.paths is Ok && evidence.config is Some && evidence.config->0 is Ok),
        ),
        says(report.checks@[1], "binary_sudo"@, pass_if(evidence.sudo is Some)),
        says(report.checks@[2], "binary_bgpq4"@, pass_if(evidence.bgpq4 is Some)),
        says(report.checks@[3], "binary_ipset"@, pass_if(evidence.ipset is Some)),
        says(report.checks@[4], "binary_iptables"@, pass_if(evidence.iptables is Some)),
        says(
            report.checks@[5],
            "binary_ip6tables"@,
            if evidence.config == Some(Ok::<bool, AppError>(true)) {
                pass_if(evidence.ip6tables is Some)
            } else {
                DoctorCheckStatus::Skip
            },
        ),
        says(
            report.checks@[6],
            "file_config"@,
            pass_if(evidence.paths is Ok && evidence.config_exists),
        ),
        says(
            report.checks@[7],
            "file_blocklist"@,
            pass_if(evidence.paths is Ok && evidence.blocklist_exists),
        ),
        says(
            report.checks@[8],
            "cache_writable"@,
            if evidence.paths is Ok && evidence.cache is Some && evidence.cache->0 is Ok {
                DoctorCheckStatus::Skip
            } else {
                DoctorCheckStatus::Fail
            },
        ),
        says(report.checks@[9], "sudo_probe_ipset"@, probe_status(evidence.ipset_probe)),
        says(report.checks@[10], "sudo_probe_iptables"@, probe_status(evidence.iptables_probe)),
        says(report.checks@[11], "sudo_probe_ip6tables"@, probe_status(evidence.ip6tables_probe)),
{
    let models = check_models(report.checks@);
    assert(models.len() == report.checks@.len());
    assert forall|i: int| 0 <= i < 12 implies #[trigger] report.checks@[i]@ == report_checks(
        evidence,
    )[i] by {
        assert(models[i] == report.checks@[i]@);
    }
    assert(report.checks@[0]@ == report_checks(evidence)[0]);
    assert(report.checks@[1]@ == report_checks(evidence)[1]);
    assert(report.checks@[2]@ == report_checks(evidence)[2]);
    assert(report.checks@[3]@ == report_checks(evidence)[3]);
    assert(report.checks@[4]@ == report_checks(evidence)[4]);
    assert(report.checks@[5]@ == report_checks(evidence)[5]);
    assert(report.checks@[6]@ == report_checks(evidence)[6]);
    assert(report.checks@[7]@ == report_checks(evidence)[7]);
    assert(report.checks@[8]@ == report_checks(evidence)[8]);
    assert(report.checks@[9]@ == report_checks(evidence)[9]);
    assert(report.checks@[10]@ == report_checks(evidence)[10]);
    assert(report.checks@[11]@ == report_checks(evidence)[11]);
}

/// A report fails exactly when one of its checks does. So it fails when a privileged probe could
/// not be executed or exited with a failure, when a binary that is needed is not there, when the
/// configuration cannot be had, when a file is missing and when the cache is unusable; and it
/// passes when none of this holds.
pub proof fn law_report_fails_where_something_is_wrong<
    X: Cancellation,
    P: PathResolver,
    C: ConfigRepository,
    D: DoctorProbe,
>(
    request: PathResolutionInput,
    dependencies: DoctorDependencies<'_, X, P, C, D>,
    evidence: DoctorEvidence,
    report: DoctorReport,
)
    requires
        gathered(request, dependencies, evidence),
        reports(report, evidence),
    ensures
        report.overall == DoctorOverall::Fail <==> exists|i: int|
            0 <= i < report.checks@.len() && (#[trigger] report.checks@[i]).status
                == DoctorCheckStatus::Fail,
        report.overall == DoctorOverall::Fail <==> {
            ||| evidence.paths is Err
            ||| evidence.config is Some && evidence.config->0 is Err
            ||| evidence.sudo is None
            ||| evidence.bgpq4 is None
            ||| evidence.ipset is None
            ||| evidence.iptables is None
            ||| evidence.config == Some(Ok::<bool, AppError>(true)) && evidence.ip6tables is None
            ||| !evidence.config_exists
            ||| !evidence.blocklist_exists
            ||| evidence.cache is Some && evidence.cache->0 is Err
            ||| evidence.ipset_probe is Some && evidence.ipset_probe->0 is Err
            ||| evidence.iptables_probe is Some && evidence.iptables_probe->0 is Err
            ||| evidence.ip6tables_probe is Some && evidence.ip6tables_probe->0 is Err
        },
{
    law_checks_say_what_was_found(request, dependencies, evidence, report);
    let models = report_checks(evidence);
    assert forall|i: int| 0 <= i < 12 implies (#[trigger] models[i]).status
        == report.checks@[i].status by {
        assert(check_models(report.checks@)[i] == report.checks@[i]@);
    }
    if report.overall == DoctorOverall::Fail {
        let i = choose|i: int|
            0 <= i < models.len() && (#[trigger] models[i]).status == DoctorCheckStatus::Fail;
        assert(report.checks@[i].status == DoctorCheckStatus::Fail);
    }
    assert forall|i: int|
        0 <= i < 12 && (#[trigger] report.checks@[i]).status
            == DoctorCheckStatus::Fail implies report.overall == DoctorOverall::Fail by {
        assert(models[i].status == DoctorCheckStatus::Fail);
    }
    assert(report.checks@[0].status == DoctorCheckStatus::Fail ==> report.overall
        == DoctorOverall::Fail);
    assert(report.checks@[1].status == DoctorCheckStatus::Fail ==> report.overall
        == DoctorOverall::Fail);
    assert(report.checks@[2].status == DoctorCheckStatus::Fail ==> report.overall
        == DoctorOverall::Fail);
    assert(report.checks@[3].status == DoctorCheckStatus::Fail ==> report.overall
        == DoctorOverall::Fail);
    assert(report.checks@[4].status == DoctorCheckStatus::Fail ==> report.overall
        == DoctorOverall::Fail);
    assert(report.checks@[5].status == DoctorCheckStatus::Fail ==> report.overall
        == DoctorOverall::Fail);
    assert(report.checks@[6].status == DoctorCheckStatus::Fail ==> report.overall
        == DoctorOverall::Fail);
    assert(report.checks@[7].status == DoctorCheckStatus::Fail ==> report.overall
        == DoctorOverall::Fail);
    assert(report.checks@[8].status == DoctorCheckStatus::Fail ==> report.overall
        == DoctorOverall::Fail);
    assert(report.checks@[9].status == DoctorCheckStatus::Fail ==> report.overall
        == DoctorOverall::Fail);
    assert(report.checks@[10].status == DoctorCheckStatus::Fail ==> report.overall
        == DoctorOverall::Fail);
    assert(report.checks@[11].status == DoctorCheckStatus::Fail ==> report.overall
        == DoctorOverall::Fail);
}

/// A probe is run exactly where `sudo` and the probed binary were found, and for IPv6 only where
/// the configuration enables it.
pub proof fn law_probes_are_run_where_they_can<
    X: Cancellation,
    P: PathResolver,
    C: ConfigRepository,
    D: DoctorProbe,
>(
    request: PathResolutionInput,
    dependencies: DoctorDependencies<'_, X, P, C, D>,
    evidence: DoctorEvidence,
)
    requires
        gathered(request, dependencies, evidence),
    ensures
        evidence.ipset_probe is Some <==> evidence.sudo is Some && evidence.ipset is Some,
        evidence.iptables_probe is Some <==> evidence.sudo is Some && evidence.iptables is Some,
        evidence.ip6tables_probe is Some <==> evidence.sudo is Some && evidence.ip6tables is Some
            && evidence.config == Some(Ok::<bool, AppError>(true)),
{
}

/// The evidence comes from the host: each binary is looked for by its name, each location is the
/// resolved one, the configuration is that of its file, and a probe runs the harmless listing of
/// its binary.
pub proof fn law_evidence_comes_from_the_host<
    X: Cancellation,
    P: PathResolver,
    C: ConfigRepository,
    D: DoctorProbe,
>(
    request: PathResolutionInput,
    dependencies: DoctorDependencies<'_, X, P, C, D>,
    evidence: DoctorEvidence,
)
    requires
        gathered(request, dependencies, evidence),
    ensures
        call_ensures(D::find_binary, (dependencies.probes, "sudo"), evidence.sudo),
        call_ensures(D::find_binary, (dependencies.probes, "bgpq4"), evidence.bgpq4),
        call_ensures(D::find_binary, (dependencies.probes, "ipset"), evidence.ipset),
        call_ensures(D::find_binary, (dependencies.probes, "iptables"), evidence.iptables),
        evidence.ip6tables is Some ==> call_ensures(
            D::find_binary,
            (dependencies.probes, "ip6tables"),
            evidence.ip6tables,
        ),
        evidence.paths matches Ok(paths) ==> {
            &&& call_ensures(
                D::path_exists,
                (dependencies.probes, &paths.config_file),
                evidence.config_exists,
            )
            &&& call_ensures(
                D::path_exists,
                (dependencies.probes, &paths.blocklist_file),
                evidence.blocklist_exists,
            )
            &&& evidence.cache is Some
            &&& call_ensures(
                D::cache_readiness,
                (dependencies.probes, &paths.remote_cache_dir),
                evidence.cache->0,
            )
            &&& evidence.config is Some
            &&& evidence.config->0 matches Ok(enabled) ==> exists|config: Config|
                #![auto]
                call_ensures(
                    C::load,
                    (dependencies.configs, &paths.config_file),
                    Ok::<Config, AppError>(config),
                ) && enabled == config.ipset.enable_ipv6
        },
        evidence.ipset_probe matches Some(reply) ==> exists|arguments: Vec<&'static str>|
            #[trigger] call_ensures(
                D::run_sudo_probe,
                (dependencies.probes, "ipset", &arguments),
                reply,
            ) && arguments@ == seq!["list"],
        evidence.iptables_probe matches Some(reply) ==> exists|arguments: Vec<&'static str>|
            #[trigger] call_ensures(
                D::run_sudo_probe,
                (dependencies.probes, "iptables", &arguments),
                reply,
            ) && arguments@ == seq!["-S"],
        evidence.ip6tables_probe matches Some(reply) ==> exists|arguments: Vec<&'static str>|
            #[trigger] call_ensures(
                D::run_sudo_probe,
                (dependencies.probes, "ip6tables", &arguments),
                reply,
            ) && arguments@ == seq!["-S"],
{
}

/// A check names its evidence: a failed probe says how the command ended and what it wrote, a
/// binary where it was found, a file which path is meant, and an unusable cache why.
pub proof fn law_checks_name_their_evidence<
    X: Cancellation,
    P: PathResolver,
    C: ConfigRepository,
    D: DoctorProbe,
>(
    request: PathResolutionInput,
    dependencies: DoctorDependencies<'_, X, P, C, D>,
    evidence: DoctorEvidence,
    report: DoctorReport,
)
    requires
        gathered(request, dependencies, evidence),
        reports(report, evidence),
    ensures
        report.checks@.len() == 12,
        evidence.ipset_probe matches Some(Err(ProbeFailure::Exit { status, stderr }))
            ==> report.checks@[9].detail@ == "sudo -n "@ + "ipset"@ + " "@ + "list"@
            + " failed with status "@ + status@ + ": "@ + (if trim(stderr@).len() == 0 {
            "no stderr"@
        } else {
            trim(stderr@)
        }),
        evidence.ipset_probe matches Some(Err(ProbeFailure::Execution { reason }))
            ==> report.checks@[9].detail@ == "sudo -n "@ + "ipset"@ + " "@ + "list"@
            + " execution failed: "@ + reason@,
        evidence.iptables_probe matches Some(Err(ProbeFailure::Exit { status, stderr }))
            ==> report.checks@[10].detail@ == "sudo -n "@ + "iptables"@ + " "@ + "-S"@
            + " failed with status "@ + status@ + ": "@ + (if trim(stderr@).len() == 0 {
            "no stderr"@
        } else {
            trim(stderr@)
        }),
        evidence.ip6tables_probe matches Some(Err(ProbeFailure::Exit { status, stderr }))
            ==> report.checks@[11].detail@ == "sudo -n "@ + "ip6tables"@ + " "@ + "-S"@
            + " failed with status "@ + status@ + ": "@ + (if trim(stderr@).len() == 0 {
            "no stderr"@
        } else {
            trim(stderr@)
        }),
        evidence.sudo matches Some(path) ==> report.checks@[1].detail@ == "found on PATH: "@ + path@,
        evidence.sudo is None ==> report.checks@[1].detail@ == "sudo"@ + " not found on PATH"@,
        evidence.paths matches Ok(paths) ==> {
            &&& evidence.config_exists ==> report.checks@[6].detail@ == "exists: "@
                + paths.config_file@
            &&& !evidence.config_exists ==> report.checks@[6].detail@ == "missing: "@
                + paths.config_file@
            &&& evidence.blocklist_exists ==> report.checks@[7].detail@ == "exists: "@
                + paths.blocklist_file@
            &&& !evidence.blocklist_exists ==> report.checks@[7].detail@ == "missing: "@
                + paths.blocklist_file@
            &&& evidence.config matches Some(Err(error)) ==> report.checks@[0].detail@
                == "failed to parse "@ + paths.config_file@ + ": "@ + error_text(error)
            &&& evidence.cache matches Some(Err(reason)) ==> report.checks@[8].detail@
                == "remote cache path is not writable at "@ + paths.remote_cache_dir@ + ": "@
                + reason@
        },
        evidence.paths matches Err(error) ==> report.checks@[0].detail@ == error_text(error),
{
    let models = check_models(report.checks@);
    assert(models.len() == report.checks@.len());
    assert(models[0] == report.checks@[0]@);
    assert(models[1] == report.checks@[1]@);
    assert(models[6] == report.checks@[6]@);
    assert(models[7] == report.checks@[7]@);
    assert(models[8] == report.checks@[8]@);
    assert(models[9] == report.checks@[9]@);
    assert(models[10] == report.checks@[10]@);
    assert(models[11] == report.checks@[11]@);
}

} // verus!
