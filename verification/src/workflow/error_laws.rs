//! What the message of an error tells.

use crate::numerals::decimal;
use crate::workflow::error::{error_text, AppError};
use vstd::prelude::*;

verus! {

/// The part stands in the text.
pub open spec fn shows(text: Seq<char>, part: Seq<char>) -> bool {
    exists|before: Seq<char>, after: Seq<char>| text == #[trigger] (before + part + after)
}

proof fn lemma_shows(before: Seq<char>, part: Seq<char>, after: Seq<char>)
    ensures
        shows(before + part + after, part),
{
}

proof fn lemma_last(head: Seq<char>, part: Seq<char>)
    ensures
        shows(head + part, part),
{
    lemma_shows(head, part, Seq::empty());
    assert(head + part + Seq::<char>::empty() =~= head + part);
}

proof fn lemma_both(head: Seq<char>, first: Seq<char>, middle: Seq<char>, last: Seq<char>)
    ensures
        shows(head + first + middle + last, first),
        shows(head + first + middle + last, last),
{
    lemma_shows(head, first, middle + last);
    assert(head + first + (middle + last) =~= head + first + middle + last);
    lemma_last(head + first + middle, last);
}

/// The message of an error shows the reason that the error carries, and the file, the command or
/// the provider that it is about.
pub proof fn law_messages_show_what_failed(error: AppError)
    ensures
        ({
            let text = error_text(error);
            match error {
                AppError::PathResolution { reason } => shows(text, reason@),
                AppError::MissingConfigFile { path } => shows(text, path@),
                AppError::ConfigRead { path, reason } => shows(text, path@) && shows(text, reason@),
                AppError::ConfigWrite { path, reason } => shows(text, path@) && shows(
                    text,
                    reason@,
                ),
                AppError::Lock { reason } => shows(text, reason@),
                AppError::BlocklistRead { path, reason } => shows(text, path@) && shows(
                    text,
                    reason@,
                ),
                AppError::BlocklistParseLine { path, line: _, content } => shows(text, path@)
                    && shows(text, content@),
                AppError::BlocklistWrite { path, reason } => shows(text, path@) && shows(
                    text,
                    reason@,
                ),
                AppError::BlocklistTargetParse { input } => shows(text, input@),
                AppError::BlocklistTargetFileRead { path, reason } => shows(text, path@) && shows(
                    text,
                    reason@,
                ),
                AppError::Asn { reason } => shows(text, reason@),
                AppError::FlushCacheIo { path, reason } => shows(text, path@) && shows(
                    text,
                    reason@,
                ),
                AppError::FlushIncomplete { failures: _, details } => shows(text, details@),
                AppError::LookupTargetFileRead { path, reason } => shows(text, path@) && shows(
                    text,
                    reason@,
                ),
                AppError::LookupSourceLoad { reason } => shows(text, reason@),
                AppError::Firewall { reason } => shows(text, reason@),
                AppError::Ipset { reason } => shows(text, reason@),
                AppError::InitIo { path, reason } => shows(text, path@) && shows(text, reason@),
                AppError::InitSystemd { command, reason } => shows(text, command@) && shows(
                    text,
                    reason@,
                ),
                AppError::InitBinaryPathUnavailable { candidates } => shows(text, candidates@),
                AppError::Source { provider, reason } => shows(text, provider@) && shows(
                    text,
                    reason@,
                ),
                AppError::DuplicateSourceProvider { provider } => shows(text, provider@),
                AppError::CachePromotion { provider, reason } => shows(text, provider@) && shows(
                    text,
                    reason@,
                ),
                _ => true,
            }
        }),
{
    match error {
        AppError::PathResolution { reason } => lemma_last("path resolution failed: "@, reason@),
        AppError::MissingConfigFile { path } => lemma_last("config file does not exist: "@, path@),
        AppError::ConfigRead { path, reason } => lemma_both(
            "failed to read config file "@,
            path@,
            ": "@,
            reason@,
        ),
        AppError::ConfigWrite { path, reason } => lemma_both(
            "failed to write config file "@,
            path@,
            ": "@,
            reason@,
        ),
        AppError::Lock { reason } => lemma_last("lock operation failed: "@, reason@),
        AppError::BlocklistRead { path, reason } => lemma_both(
            "failed to read blocklist file "@,
            path@,
            ": "@,
            reason@,
        ),
        AppError::BlocklistParseLine { path, line, content } => {
            let head = "invalid blocklist entry in "@;
            let middle = " at line "@ + decimal(line as nat) + ": "@;
            lemma_both(head, path@, middle, content@);
            assert(head + path@ + middle + content@ =~= head + path@ + " at line "@ + decimal(
                line as nat,
            ) + ": "@ + content@);
        },
        AppError::BlocklistWrite { path, reason } => lemma_both(
            "failed to write blocklist file "@,
            path@,
            ": "@,
            reason@,
        ),
        AppError::BlocklistTargetParse { input } => lemma_last(
            "failed to parse blocklist target "@,
            input@,
        ),
        AppError::BlocklistTargetFileRead { path, reason } => lemma_both(
            "failed to read blocklist targets file "@,
            path@,
            ": "@,
            reason@,
        ),
        AppError::Asn { reason } => lemma_last("ASN operation failed: "@, reason@),
        AppError::FlushCacheIo { path, reason } => lemma_both(
            "failed to clear remote cache at "@,
            path@,
            ": "@,
            reason@,
        ),
        AppError::FlushIncomplete { failures, details } => lemma_last(
            "flush cleanup incomplete ("@ + decimal(failures as nat) + " failure(s)): "@,
            details@,
        ),
        AppError::LookupTargetFileRead { path, reason } => lemma_both(
            "failed to read lookup targets file "@,
            path@,
            ": "@,
            reason@,
        ),
        AppError::LookupSourceLoad { reason } => lemma_last(
            "lookup source loading failed: "@,
            reason@,
        ),
        AppError::Firewall { reason } => lemma_last("firewall operation failed: "@, reason@),
        AppError::Ipset { reason } => lemma_last("ipset operation failed: "@, reason@),
        AppError::InitIo { path, reason } => lemma_both(
            "initialization I/O failed for "@,
            path@,
            ": "@,
            reason@,
        ),
        AppError::InitSystemd { command, reason } => lemma_both(
            "systemd setup failed during init for `"@,
            command@,
            "`: "@,
            reason@,
        ),
        AppError::InitBinaryPathUnavailable { candidates } => lemma_last(
            "kidobo binary not found at a trusted installed path; expected one of: "@,
            candidates@,
        ),
        AppError::Source { provider, reason } => lemma_both(
            "source provider `"@,
            provider@,
            "` failed: "@,
            reason@,
        ),
        AppError::DuplicateSourceProvider { provider } => lemma_last(
            "source provider ID is registered more than once: "@,
            provider@,
        ),
        AppError::CachePromotion { provider, reason } => lemma_both(
            "cache promotion failed for source provider `"@,
            provider@,
            "`: "@,
            reason@,
        ),
        _ => {},
    }
}

} // verus!
