//! Typed workflow failures.

use crate::numerals::{decimal, decimal_text};
use crate::policy::config::{config_failure_text, ConfigError};
use vstd::prelude::*;

verus! {

/// Failure returned by an application workflow or port.
#[derive(Debug)]
pub enum AppError {
    /// Compatibility-sensitive runtime paths could not be resolved.
    PathResolution {
        /// Path validation diagnostic.
        reason: String,
    },
    /// A workflow requiring configuration found no file.
    MissingConfigFile {
        /// Expected configuration path.
        path: String,
    },
    /// The configuration file could not be read.
    ConfigRead {
        /// Configuration path.
        path: String,
        /// Filesystem diagnostic.
        reason: String,
    },
    /// An atomic configuration update could not be completed.
    ConfigWrite {
        /// Configuration path.
        path: String,
        /// Filesystem diagnostic.
        reason: String,
    },
    /// Configuration text was malformed or violated domain constraints.
    ConfigParse {
        /// Underlying parser or validation failure.
        source: ConfigError,
    },
    /// The process lock could not be opened securely or acquired without blocking.
    Lock {
        /// Lock adapter diagnostic.
        reason: String,
    },
    /// The local blocklist could not be read.
    BlocklistRead {
        /// Blocklist path.
        path: String,
        /// Filesystem diagnostic.
        reason: String,
    },
    /// A non-comment local blocklist line is invalid.
    BlocklistParseLine {
        /// Blocklist path.
        path: String,
        /// One-based invalid line number.
        line: usize,
        /// Original invalid contents.
        content: String,
    },
    /// An atomic local blocklist update could not be completed.
    BlocklistWrite {
        /// Blocklist path.
        path: String,
        /// Filesystem diagnostic.
        reason: String,
    },
    /// One direct blocklist target was invalid.
    BlocklistTargetParse {
        /// Original target text.
        input: String,
    },
    /// A blocklist target file could not be read within its bound.
    BlocklistTargetFileRead {
        /// Target file path.
        path: String,
        /// Read diagnostic.
        reason: String,
    },
    /// A mutation was rejected because at least one target was invalid.
    BlocklistInvalidTargets {
        /// Number of invalid targets.
        count: usize,
    },
    /// The blocklist changed between a preview and its guarded application.
    BlocklistChanged,
    /// ASN parsing, resolution, caching, or persistence failed.
    Asn {
        /// ASN adapter diagnostic.
        reason: String,
    },
    /// Cache-only flush could not clear the remote cache.
    FlushCacheIo {
        /// Remote cache path.
        path: String,
        /// Filesystem diagnostic.
        reason: String,
    },
    /// One or more required full-flush cleanup operations failed.
    FlushIncomplete {
        /// Number of incomplete operations.
        failures: usize,
        /// Combined cleanup diagnostics.
        details: String,
    },
    /// Effective entries exceed a family's configured ipset capacity.
    IpsetCapacityExceeded {
        /// Operator-visible address-family label.
        family: &'static str,
        /// Affected managed set name.
        set_name: String,
        /// Computed effective entry count.
        entries: usize,
        /// Configured maximum entry count.
        maxelem: u32,
    },
    /// Lookup input contained invalid targets.
    LookupInvalidTargets {
        /// Number of invalid targets.
        count: usize,
    },
    /// A lookup target file could not be read within its bound.
    LookupTargetFileRead {
        /// Target file path.
        path: String,
        /// Read diagnostic.
        reason: String,
    },
    /// Offline lookup sources could not be loaded safely.
    LookupSourceLoad {
        /// Source loading diagnostic.
        reason: String,
    },
    /// Firewall preparation, activation, inspection, or cleanup failed.
    Firewall {
        /// Firewall adapter diagnostic.
        reason: String,
    },
    /// Managed ipset preparation, replacement, or cleanup failed.
    Ipset {
        /// Ipset adapter diagnostic.
        reason: String,
    },
    /// Initialization filesystem work failed.
    InitIo {
        /// Affected path.
        path: String,
        /// Filesystem diagnostic.
        reason: String,
    },
    /// Live systemd initialization command failed.
    InitSystemd {
        /// Command name and arguments.
        command: String,
        /// Execution diagnostic.
        reason: String,
    },
    /// No trusted installed executable candidate was available.
    InitBinaryPathUnavailable {
        /// Operator-facing candidate path list.
        candidates: String,
    },
    /// A registered synchronization source failed according to its policy.
    Source {
        /// Stable provider identifier.
        provider: &'static str,
        /// Provider diagnostic.
        reason: String,
    },
    /// A source registry contains duplicate stable provider IDs.
    DuplicateSourceProvider {
        /// Duplicated provider identifier.
        provider: &'static str,
    },
    /// The caller asked to stop.
    Interrupted,
    /// A staged cache generation could not be selected.
    CachePromotion {
        /// Stable provider identifier.
        provider: &'static str,
        /// Promotion diagnostic.
        reason: String,
    },
    /// A cache generation could not be staged.
    CacheStaging {
        /// Stable provider identifier.
        provider: &'static str,
        /// Staging diagnostic.
        reason: String,
    },
    /// Remote feeds together hold more networks than the workflow accepts.
    SourceAggregateBudgetExceeded {
        /// Number of distinct networks seen.
        entries: usize,
        /// Largest accepted number.
        limit: usize,
    },
}

impl From<ConfigError> for AppError {
    fn from(source: ConfigError) -> (error: AppError) {
        AppError::ConfigParse { source }
    }
}

impl vstd::std_specs::convert::FromSpecImpl<ConfigError> for AppError {
    open spec fn obeys_from_spec() -> bool {
        true
    }

    open spec fn from_spec(source: ConfigError) -> AppError {
        AppError::ConfigParse { source }
    }
}

/// Operator-facing text of a failure.
pub open spec fn error_text(error: AppError) -> Seq<char> {
    match error {
        AppError::PathResolution { reason } => "path resolution failed: "@ + reason@,
        AppError::MissingConfigFile { path } => "config file does not exist: "@ + path@,
        AppError::ConfigRead { path, reason } => "failed to read config file "@ + path@ + ": "@ + reason@,
        AppError::ConfigWrite { path, reason } => "failed to write config file "@ + path@ + ": "@ + reason@,
        AppError::ConfigParse { source } => "config parse/validation failed: "@ + config_failure_text(source@),
        AppError::Lock { reason } => "lock operation failed: "@ + reason@,
        AppError::BlocklistRead { path, reason } => "failed to read blocklist file "@ + path@ + ": "@ + reason@,
        AppError::BlocklistParseLine { path, line, content } => "invalid blocklist entry in "@ + path@ + " at line "@ + decimal(line as nat) + ": "@ + content@,
        AppError::BlocklistWrite { path, reason } => "failed to write blocklist file "@ + path@ + ": "@ + reason@,
        AppError::BlocklistTargetParse { input } => "failed to parse blocklist target "@ + input@,
        AppError::BlocklistTargetFileRead { path, reason } => "failed to read blocklist targets file "@ + path@ + ": "@ + reason@,
        AppError::BlocklistInvalidTargets { count } => "blocklist update failed for "@ + decimal(count as nat) + " invalid target(s)"@,
        AppError::BlocklistChanged => "blocklist changed while preparing the update; rerun the command"@,
        AppError::Asn { reason } => "ASN operation failed: "@ + reason@,
        AppError::FlushCacheIo { path, reason } => "failed to clear remote cache at "@ + path@ + ": "@ + reason@,
        AppError::FlushIncomplete { failures, details } => "flush cleanup incomplete ("@ + decimal(failures as nat) + " failure(s)): "@ + details@,
        AppError::IpsetCapacityExceeded { family, set_name, entries, maxelem } => "effective entry count exceeds ipset maxelem for "@ + family@ + " set `"@ + set_name@ + "`: entries="@ + decimal(entries as nat) + " maxelem="@ + decimal(maxelem as nat),
        AppError::LookupInvalidTargets { count } => "lookup failed for "@ + decimal(count as nat) + " invalid target(s)"@,
        AppError::LookupTargetFileRead { path, reason } => "failed to read lookup targets file "@ + path@ + ": "@ + reason@,
        AppError::LookupSourceLoad { reason } => "lookup source loading failed: "@ + reason@,
        AppError::Firewall { reason } => "firewall operation failed: "@ + reason@,
        AppError::Ipset { reason } => "ipset operation failed: "@ + reason@,
        AppError::InitIo { path, reason } => "initialization I/O failed for "@ + path@ + ": "@ + reason@,
        AppError::InitSystemd { command, reason } => "systemd setup failed during init for `"@ + command@ + "`: "@ + reason@,
        AppError::InitBinaryPathUnavailable { candidates } => "kidobo binary not found at a trusted installed path; expected one of: "@ + candidates@,
        AppError::Source { provider, reason } => "source provider `"@ + provider@ + "` failed: "@ + reason@,
        AppError::DuplicateSourceProvider { provider } => "source provider ID is registered more than once: "@ + provider@,
        AppError::Interrupted => "operation interrupted"@,
        AppError::CachePromotion { provider, reason } => "cache promotion failed for source provider `"@ + provider@ + "`: "@ + reason@,
        AppError::CacheStaging { provider, reason } => "cache staging failed for source provider `"@ + provider@ + "`: "@ + reason@,
        AppError::SourceAggregateBudgetExceeded { entries, limit } => "source aggregate exceeds its budget: entries="@ + decimal(entries as nat) + " limit="@ + decimal(limit as nat),
    }
}

impl AppError {
    /// Operator-facing description.
    pub fn message(&self) -> (text: String)
        ensures
            text@ == error_text(*self),
    {
        match self {
            AppError::PathResolution { reason } => {
                let mut text = "path resolution failed: ".to_owned();
                text.append(reason.as_str());
                text
            },
            AppError::MissingConfigFile { path } => {
                let mut text = "config file does not exist: ".to_owned();
                text.append(path.as_str());
                text
            },
            AppError::ConfigRead { path, reason } => {
                let mut text = "failed to read config file ".to_owned();
                text.append(path.as_str());
                text.append(": ");
                text.append(reason.as_str());
                text
            },
            AppError::ConfigWrite { path, reason } => {
                let mut text = "failed to write config file ".to_owned();
                text.append(path.as_str());
                text.append(": ");
                text.append(reason.as_str());
                text
            },
            AppError::ConfigParse { source } => {
                let mut text = "config parse/validation failed: ".to_owned();
                text.append(source.message().as_str());
                text
            },
            AppError::Lock { reason } => {
                let mut text = "lock operation failed: ".to_owned();
                text.append(reason.as_str());
                text
            },
            AppError::BlocklistRead { path, reason } => {
                let mut text = "failed to read blocklist file ".to_owned();
                text.append(path.as_str());
                text.append(": ");
                text.append(reason.as_str());
                text
            },
            AppError::BlocklistParseLine { path, line, content } => {
                let mut text = "invalid blocklist entry in ".to_owned();
                text.append(path.as_str());
                text.append(" at line ");
                text.append(decimal_text(*line as u128).as_str());
                text.append(": ");
                text.append(content.as_str());
                text
            },
            AppError::BlocklistWrite { path, reason } => {
                let mut text = "failed to write blocklist file ".to_owned();
                text.append(path.as_str());
                text.append(": ");
                text.append(reason.as_str());
                text
            },
            AppError::BlocklistTargetParse { input } => {
                let mut text = "failed to parse blocklist target ".to_owned();
                text.append(input.as_str());
                text
            },
            AppError::BlocklistTargetFileRead { path, reason } => {
                let mut text = "failed to read blocklist targets file ".to_owned();
                text.append(path.as_str());
                text.append(": ");
                text.append(reason.as_str());
                text
            },
            AppError::BlocklistInvalidTargets { count } => {
                let mut text = "blocklist update failed for ".to_owned();
                text.append(decimal_text(*count as u128).as_str());
                text.append(" invalid target(s)");
                text
            },
            AppError::BlocklistChanged => "blocklist changed while preparing the update; rerun the command".to_owned(),
            AppError::Asn { reason } => {
                let mut text = "ASN operation failed: ".to_owned();
                text.append(reason.as_str());
                text
            },
            AppError::FlushCacheIo { path, reason } => {
                let mut text = "failed to clear remote cache at ".to_owned();
                text.append(path.as_str());
                text.append(": ");
                text.append(reason.as_str());
                text
            },
            AppError::FlushIncomplete { failures, details } => {
                let mut text = "flush cleanup incomplete (".to_owned();
                text.append(decimal_text(*failures as u128).as_str());
                text.append(" failure(s)): ");
                text.append(details.as_str());
                text
            },
            AppError::IpsetCapacityExceeded { family, set_name, entries, maxelem } => {
                let mut text = "effective entry count exceeds ipset maxelem for ".to_owned();
                text.append(family);
                text.append(" set `");
                text.append(set_name.as_str());
                text.append("`: entries=");
                text.append(decimal_text(*entries as u128).as_str());
                text.append(" maxelem=");
                text.append(decimal_text(*maxelem as u128).as_str());
                text
            },
            AppError::LookupInvalidTargets { count } => {
                let mut text = "lookup failed for ".to_owned();
                text.append(decimal_text(*count as u128).as_str());
                text.append(" invalid target(s)");
                text
            },
            AppError::LookupTargetFileRead { path, reason } => {
                let mut text = "failed to read lookup targets file ".to_owned();
                text.append(path.as_str());
                text.append(": ");
                text.append(reason.as_str());
                text
            },
            AppError::LookupSourceLoad { reason } => {
                let mut text = "lookup source loading failed: ".to_owned();
                text.append(reason.as_str());
                text
            },
            AppError::Firewall { reason } => {
                let mut text = "firewall operation failed: ".to_owned();
                text.append(reason.as_str());
                text
            },
            AppError::Ipset { reason } => {
                let mut text = "ipset operation failed: ".to_owned();
                text.append(reason.as_str());
                text
            },
            AppError::InitIo { path, reason } => {
                let mut text = "initialization I/O failed for ".to_owned();
                text.append(path.as_str());
                text.append(": ");
                text.append(reason.as_str());
                text
            },
            AppError::InitSystemd { command, reason } => {
                let mut text = "systemd setup failed during init for `".to_owned();
                text.append(command.as_str());
                text.append("`: ");
                text.append(reason.as_str());
                text
            },
            AppError::InitBinaryPathUnavailable { candidates } => {
                let mut text = "kidobo binary not found at a trusted installed path; expected one of: ".to_owned();
                text.append(candidates.as_str());
                text
            },
            AppError::Source { provider, reason } => {
                let mut text = "source provider `".to_owned();
                text.append(provider);
                text.append("` failed: ");
                text.append(reason.as_str());
                text
            },
            AppError::DuplicateSourceProvider { provider } => {
                let mut text = "source provider ID is registered more than once: ".to_owned();
                text.append(provider);
                text
            },
            AppError::Interrupted => "operation interrupted".to_owned(),
            AppError::CachePromotion { provider, reason } => {
                let mut text = "cache promotion failed for source provider `".to_owned();
                text.append(provider);
                text.append("`: ");
                text.append(reason.as_str());
                text
            },
            AppError::CacheStaging { provider, reason } => {
                let mut text = "cache staging failed for source provider `".to_owned();
                text.append(provider);
                text.append("`: ");
                text.append(reason.as_str());
                text
            },
            AppError::SourceAggregateBudgetExceeded { entries, limit } => {
                let mut text = "source aggregate exceeds its budget: entries=".to_owned();
                text.append(decimal_text(*entries as u128).as_str());
                text.append(" limit=");
                text.append(decimal_text(*limit as u128).as_str());
                text
            },
        }
    }
}

} // verus!
