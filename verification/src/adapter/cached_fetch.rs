//! Integrity of cached files.

use crate::adapter::digest::{sha256_hex, sha256_text};
use crate::text::same_text;
use vstd::prelude::*;

verus! {

/// Bytes that were read have the expected checksum, where one is expected.
pub open spec fn has_checksum(bytes: Seq<u8>, expected: Option<Seq<char>>) -> bool {
    expected matches Some(checksum) ==> sha256_text(bytes) == checksum
}

/// Keeps bytes that were read and have the expected checksum, where one is expected.
pub fn read_validated_bytes_lossy(bytes: Option<Vec<u8>>, expected_sha256: Option<&str>) -> (kept: Option<
    Vec<u8>,
>)
    ensures
        ({
            let expected = match expected_sha256 {
                Some(checksum) => Some(checksum@),
                None => None,
            };
            match bytes {
                Some(read) => if has_checksum(read@, expected) {
                    kept == bytes
                } else {
                    kept is None
                },
                None => kept is None,
            }
        }),
{
    match bytes {
        None => None,
        Some(read) => {
            if let Some(checksum) = expected_sha256 {
                let actual: String = sha256_hex(read.as_slice());
                if !same_text(actual.as_str(), checksum) {
                    return None;
                }
            }
            Some(read)
        },
    }
}

} // verus!
