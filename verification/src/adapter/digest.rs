//! SHA-256 digests as lower-case hexadecimal text.

use crate::numerals::{digit_char, digit_to_char};
use crate::text::from_chars;
use vstd::prelude::*;
use vstd::slice::slice_subrange;
use vstd::utf8::encode_utf8;

verus! {

/// The bytes that `sha2::Sha256` computes of a message.
pub uninterp spec fn sha256_digest(message: Seq<u8>) -> Seq<u8>;

/// Computes a digest with `sha2::Digest::digest` on `sha2::Sha256`. A digest is a function of the
/// message alone and has 32 bytes; which bytes they are is not stated.
#[verifier::external_body]
fn digest_bytes(message: &[u8]) -> (digest: Vec<u8>)
    ensures
        digest@ == sha256_digest(message@),
        digest@.len() == 32,
{
    <sha2::Sha256 as sha2::Digest>::digest(message).to_vec()
}

/// Two lower-case hexadecimal digits for each byte.
pub open spec fn hex_text(bytes: Seq<u8>) -> Seq<char> {
    Seq::new(
        2 * bytes.len(),
        |i: int|
            digit_char(
                if i % 2 == 0 {
                    bytes[i / 2] as nat / 16
                } else {
                    bytes[i / 2] as nat % 16
                },
            ),
    )
}

/// Writes bytes as lower-case hexadecimal digits.
pub fn hex_lower(bytes: &[u8]) -> (text: String)
    ensures
        text@ == hex_text(bytes@),
{
    let mut chars: Vec<char> = Vec::new();
    let mut i: usize = 0;
    assert(chars@ =~= hex_text(bytes@.take(0)));
    while i < bytes.len()
        invariant
            i <= bytes@.len(),
            chars@ == hex_text(bytes@.take(i as int)),
        decreases bytes@.len() - i,
    {
        let byte: u8 = bytes[i];
        let ghost before = chars@;
        chars.push(digit_to_char((byte / 16) as u128));
        chars.push(digit_to_char((byte % 16) as u128));
        proof {
            let next = bytes@.take(i + 1);
            assert(chars@.len() == hex_text(next).len());
            assert forall|k: int| 0 <= k < chars@.len() implies chars@[k] == hex_text(next)[k] by {
                if k < 2 * i {
                    assert(before[k] == hex_text(bytes@.take(i as int))[k]);
                    assert(next[k / 2] == bytes@.take(i as int)[k / 2]);
                } else {
                    assert(k / 2 == i);
                    assert(next[k / 2] == byte);
                }
            }
            assert(chars@ =~= hex_text(next));
        }
        i += 1;
    }
    assert(bytes@.take(i as int) =~= bytes@);
    from_chars(chars.as_slice())
}

/// Hexadecimal digest of a message.
pub open spec fn sha256_text(message: Seq<u8>) -> Seq<char> {
    hex_text(sha256_digest(message))
}

/// Hexadecimal digest of bytes.
pub fn sha256_hex(message: &[u8]) -> (text: String)
    ensures
        text@ == sha256_text(message@),
        text@.len() == 64,
{
    let digest: Vec<u8> = digest_bytes(message);
    hex_lower(digest.as_slice())
}

/// Text made of lower-case hexadecimal digits.
pub open spec fn lower_hex(s: Seq<char>) -> bool {
    forall|i: int| 0 <= i < s.len() ==> {
        ||| '0' <= #[trigger] s[i] <= '9'
        ||| 'a' <= s[i] <= 'f'
    }
}

/// Decides whether a text has the given length and only lower-case hexadecimal digits.
pub(crate) fn is_hex_of_length(chars: &[char], len: usize) -> (hex: bool)
    ensures
        hex == (chars@.len() == len && lower_hex(chars@)),
{
    if chars.len() != len {
        return false;
    }
    let mut i: usize = 0;
    while i < chars.len()
        invariant
            i <= chars@.len(),
            lower_hex(chars@.take(i as int)),
        decreases chars@.len() - i,
    {
        let c: char = chars[i];
        if !(('0' <= c && c <= '9') || ('a' <= c && c <= 'f')) {
            assert(chars@[i as int] == c);
            return false;
        }
        proof {
            let next = chars@.take(i + 1);
            assert forall|k: int| 0 <= k < next.len() implies '0' <= #[trigger] next[k] <= '9' || 'a'
                <= next[k] <= 'f' by {
                if k < i {
                    assert(next[k] == chars@.take(i as int)[k]);
                }
            }
        }
        i += 1;
    }
    assert(chars@.take(i as int) =~= chars@);
    true
}

/// Hexadecimal text holds lower-case hexadecimal digits only, two for each byte.
pub proof fn law_hex_text_digits(bytes: Seq<u8>)
    ensures
        lower_hex(hex_text(bytes)),
        hex_text(bytes).len() == 2 * bytes.len(),
{
    let s = hex_text(bytes);
    assert forall|i: int| 0 <= i < s.len() implies '0' <= #[trigger] s[i] <= '9' || 'a' <= s[i]
        <= 'f' by {
        let d: nat = if i % 2 == 0 {
            bytes[i / 2] as nat / 16
        } else {
            bytes[i / 2] as nat % 16
        };
        assert(d < 16);
        assert(s[i] == digit_char(d));
    }
}

/// The first `n` digits of the digest of a text.
pub open spec fn digest_prefix(text: Seq<char>, n: int) -> Seq<char> {
    sha256_text(encode_utf8(text)).take(n)
}

/// Takes the first characters of a text.
pub(crate) fn take_chars(text: &str, n: usize) -> (head: String)
    requires
        n <= text@.len(),
    ensures
        head@ == text@.take(n as int),
{
    let chars: Vec<char> = crate::text::to_chars(text);
    from_chars(slice_subrange(chars.as_slice(), 0, n))
}

} // verus!
