//! Rules for single configuration fields.

use crate::numerals::{decimal, decimal_text};
use crate::policy::cidr_text::{parse_token, parse_token_chars, CidrModel};
use crate::policy::config::{
    ConfigError, ConfigFailure, FirewallAction, DEFAULT_CHAIN_ACTION, DEFAULT_IPSET_TYPE,
};
use crate::policy::network_types::CanonicalCidr;
use crate::text::{
    from_chars, has_space, has_space_chars, lower, lower_chars, same_chars, same_text, to_chars,
    trim, trim_chars, trimmed,
};
use crate::url_text::{http_url, is_http_url};
use vstd::prelude::*;
use vstd::utf8::encode_utf8;

verus! {

/// Failure of a field.
pub open spec fn invalid(field: Seq<char>, reason: Seq<char>) -> ConfigFailure {
    ConfigFailure::InvalidField { field, reason }
}

/// Result of a text field.
pub open spec fn text_result(result: Result<String, ConfigError>) -> Result<
    Seq<char>,
    ConfigFailure,
> {
    match result {
        Ok(text) => Ok(text@),
        Err(error) => Err(error@),
    }
}

/// Result of a check.
pub open spec fn check_result(result: Result<(), ConfigError>) -> Result<(), ConfigFailure> {
    match result {
        Ok(_) => Ok(()),
        Err(error) => Err(error@),
    }
}

/// Text of an optional string.
pub open spec fn optional_text(value: Option<String>) -> Option<Seq<char>> {
    match value {
        Some(text) => Some(text@),
        None => None,
    }
}

/// Trimmed text that must not be empty.
pub open spec fn field_text(value: Seq<char>, field: Seq<char>) -> Result<
    Seq<char>,
    ConfigFailure,
> {
    if trim(value).len() == 0 {
        Err(invalid(field, "value must not be empty"@))
    } else {
        Ok(trim(value))
    }
}

/// Trimmed text that must be present and not empty.
pub open spec fn required_text(value: Option<Seq<char>>, field: Seq<char>) -> Result<
    Seq<char>,
    ConfigFailure,
> {
    match value {
        Some(text) => field_text(text, field),
        None => Err(invalid(field, "value is required"@)),
    }
}

fn reject(field: &'static str, reason: &str) -> (error: ConfigError)
    ensures
        error@ == invalid(field@, reason@),
{
    ConfigError::InvalidField { field, reason: reason.to_owned() }
}

/// Trims a value and rejects it when nothing is left.
pub fn non_empty(value: &str, field: &'static str) -> (text: Result<String, ConfigError>)
    ensures
        text_result(text) == field_text(value@, field@),
{
    let normalized: String = trimmed(value);
    if normalized.as_str().is_empty() {
        return Err(reject(field, "value must not be empty"));
    }
    Ok(normalized)
}

/// Trims a value that must be present.
pub fn required_non_empty(value: &Option<String>, field: &'static str) -> (text: Result<
    String,
    ConfigError,
>)
    ensures
        text_result(text) == required_text(optional_text(*value), field@),
{
    match value {
        Some(value) => non_empty(value.as_str(), field),
        None => Err(reject(field, "value is required")),
    }
}

/// A single network token.
pub open spec fn cidr_rule(value: Seq<char>, field: Seq<char>) -> Result<
    CidrModel,
    ConfigFailure,
> {
    let token = trim(value);
    if token.len() == 0 || has_space(token) {
        Err(invalid(field, "must be a single IP or CIDR token"@))
    } else {
        match parse_token(token) {
            Some(model) => Ok(model),
            None => Err(invalid(field, "invalid IP/CIDR token `"@ + token + "`"@)),
        }
    }
}

/// Parses a field that must hold a single network token.
pub fn parse_cidr_field_strict(value: &str, field: &'static str) -> (cidr: Result<
    CanonicalCidr,
    ConfigError,
>)
    ensures
        (match cidr {
            Ok(c) => Ok(c@),
            Err(e) => Err(e@),
        }) == cidr_rule(value@, field@),
{
    let chars: Vec<char> = to_chars(value);
    let token = trim_chars(chars.as_slice());
    if token.len() == 0 || has_space_chars(token) {
        return Err(reject(field, "must be a single IP or CIDR token"));
    }
    match parse_token_chars(token) {
        Some(cidr) => Ok(cidr),
        None => {
            let mut reason = "invalid IP/CIDR token `".to_owned();
            reason.append(from_chars(token).as_str());
            reason.append("`");
            Err(ConfigError::InvalidField { field, reason })
        },
    }
}

/// Reason given for a number out of range.
pub open spec fn range_reason(min: u32, max: u32) -> Seq<char> {
    "must be between "@ + decimal(min as nat) + " and "@ + decimal(max as nat)
}

/// Number within inclusive limits.
pub open spec fn bounded(value: int, field: Seq<char>, min: u32, max: u32) -> Result<
    u32,
    ConfigFailure,
> {
    if value < min || value > max {
        Err(invalid(field, range_reason(min, max)))
    } else {
        Ok(value as u32)
    }
}

/// Checks a number against inclusive limits.
pub fn bounded_u32(value: i64, field: &'static str, min: u32, max: u32) -> (checked: Result<
    u32,
    ConfigError,
>)
    ensures
        (match checked {
            Ok(v) => Ok(v),
            Err(e) => Err(e@),
        }) == bounded(value as int, field@, min, max),
{
    if value < min as i64 || value > max as i64 {
        let mut reason = "must be between ".to_owned();
        reason.append(decimal_text(min as u128).as_str());
        reason.append(" and ");
        reason.append(decimal_text(max as u128).as_str());
        return Err(ConfigError::InvalidField { field, reason });
    }
    Ok(value as u32)
}

/// ASCII letter or digit.
pub open spec fn is_alphanumeric(c: char) -> bool {
    'a' <= c <= 'z' || 'A' <= c <= 'Z' || '0' <= c <= '9'
}

/// Character of a set name.
pub open spec fn set_name_char(c: char) -> bool {
    is_alphanumeric(c) || c == '_' || c == '-' || c == '.'
}

/// Character of a set type.
pub open spec fn set_type_char(c: char) -> bool {
    is_alphanumeric(c) || c == ':' || c == ',' || c == '_' || c == '-' || c == '.'
}

/// At most 31 bytes of letters, digits, underscores, dots and hyphens.
pub open spec fn set_name_rule(name: Seq<char>, field: Seq<char>) -> Result<(), ConfigFailure> {
    if encode_utf8(name).len() > 31 {
        Err(invalid(field, "must be 31 characters or fewer"@))
    } else if exists|i: int| 0 <= i < name.len() && !set_name_char(#[trigger] name[i]) {
        Err(invalid(field, "must contain only [A-Za-z0-9_.-]"@))
    } else {
        Ok(())
    }
}

/// The supported network type. Text with other characters than letters, digits, colons, commas,
/// underscores, hyphens and dots has an error of its own.
pub open spec fn set_type_rule(set_type: Seq<char>) -> Result<(), ConfigFailure> {
    if exists|i: int| 0 <= i < set_type.len() && !set_type_char(#[trigger] set_type[i]) {
        Err(invalid("ipset.set_type"@, "must contain only [A-Za-z0-9:,_-.]"@))
    } else if set_type != DEFAULT_IPSET_TYPE@ {
        Err(invalid("ipset.set_type"@, "must be hash:net"@))
    } else {
        Ok(())
    }
}

fn is_alphanumeric_char(c: char) -> (yes: bool)
    ensures
        yes == is_alphanumeric(c),
{
    ('a' <= c && c <= 'z') || ('A' <= c && c <= 'Z') || ('0' <= c && c <= '9')
}

/// Checks an ipset set name.
pub fn validate_ipset_set_name(value: &str, field: &'static str) -> (checked: Result<
    (),
    ConfigError,
>)
    ensures
        check_result(checked) == set_name_rule(value@, field@),
{
    if value.as_bytes().len() > 31 {
        return Err(reject(field, "must be 31 characters or fewer"));
    }
    let chars: Vec<char> = to_chars(value);
    let mut i: usize = 0;
    while i < chars.len()
        invariant
            i <= chars@.len(),
            chars@ == value@,
            encode_utf8(value@).len() <= 31,
            forall|k: int| 0 <= k < i ==> set_name_char(#[trigger] chars@[k]),
        decreases chars@.len() - i,
    {
        let c: char = chars[i];
        if !(is_alphanumeric_char(c) || c == '_' || c == '-' || c == '.') {
            assert(!set_name_char(value@[i as int]));
            return Err(reject(field, "must contain only [A-Za-z0-9_.-]"));
        }
        i += 1;
    }
    Ok(())
}

/// Checks an ipset set type.
pub fn validate_ipset_set_type(value: &str) -> (checked: Result<(), ConfigError>)
    ensures
        check_result(checked) == set_type_rule(value@),
{
    let chars: Vec<char> = to_chars(value);
    let mut i: usize = 0;
    while i < chars.len()
        invariant
            i <= chars@.len(),
            chars@ == value@,
            forall|k: int| 0 <= k < i ==> set_type_char(#[trigger] chars@[k]),
        decreases chars@.len() - i,
    {
        let c: char = chars[i];
        if !(is_alphanumeric_char(c) || c == ':' || c == ',' || c == '_' || c == '-' || c == '.') {
            assert(!set_type_char(value@[i as int]));
            return Err(reject("ipset.set_type", "must contain only [A-Za-z0-9:,_-.]"));
        }
        i += 1;
    }
    if !same_text(value, DEFAULT_IPSET_TYPE) {
        return Err(reject("ipset.set_type", "must be hash:net"));
    }
    Ok(())
}

/// An HTTP or HTTPS URL with a host.
pub open spec fn http_url_rule(value: Seq<char>, field: Seq<char>) -> Result<(), ConfigFailure> {
    if http_url(value) {
        Ok(())
    } else {
        Err(invalid(field, "must be a valid http:// or https:// URL with a host"@))
    }
}

/// Checks a URL.
pub fn validate_http_url(value: &str, field: &'static str) -> (checked: Result<(), ConfigError>)
    ensures
        check_result(checked) == http_url_rule(value@, field@),
{
    if is_http_url(value) {
        Ok(())
    } else {
        Err(reject(field, "must be a valid http:// or https:// URL with a host"))
    }
}

/// Firewall action: absent means the default; `drop` and `reject` in any case.
pub open spec fn chain_action_rule(value: Option<Seq<char>>) -> Result<
    FirewallAction,
    ConfigFailure,
> {
    match value {
        None => Ok(DEFAULT_CHAIN_ACTION),
        Some(text) => match field_text(text, "ipset.chain_action"@) {
            Err(e) => Err(e),
            Ok(name) => if lower(name) == "drop"@ {
                Ok(FirewallAction::Drop)
            } else if lower(name) == "reject"@ {
                Ok(FirewallAction::Reject)
            } else {
                Err(invalid("ipset.chain_action"@, "must be DROP or REJECT"@))
            },
        },
    }
}

/// Parses the configured firewall action.
pub fn parse_chain_action(value: &Option<String>) -> (action: Result<FirewallAction, ConfigError>)
    ensures
        (match action {
            Ok(a) => Ok(a),
            Err(e) => Err(e@),
        }) == chain_action_rule(optional_text(*value)),
{
    match value {
        None => Ok(DEFAULT_CHAIN_ACTION),
        Some(text) => match non_empty(text.as_str(), "ipset.chain_action") {
            Err(error) => Err(error),
            Ok(name) => {
                let lowered: Vec<char> = lower_chars(to_chars(name.as_str()).as_slice());
                if same_chars(lowered.as_slice(), to_chars("drop").as_slice()) {
                    Ok(FirewallAction::Drop)
                } else if same_chars(lowered.as_slice(), to_chars("reject").as_slice()) {
                    Ok(FirewallAction::Reject)
                } else {
                    Err(reject("ipset.chain_action", "must be DROP or REJECT"))
                }
            },
        },
    }
}

} // verus!
