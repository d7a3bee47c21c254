//! What an accepted configuration holds, and which configurations are accepted.

use crate::policy::cidr_text::{models, parse_token};
use crate::policy::config::{
    asn_in_range, banned_numbers, collect, config_rule, empty_asn, empty_remote, empty_safe,
    hashsize_rule, ipset_rule, optional_numbers, optional_texts, power_of_two, remote_rule,
    safe_ip_rule, safe_rule, url_text_rule, Config, ConfigError, ConfigFailure, FirewallAction,
    RawConfig, RawIpsetConfig, RawRemoteConfig, RawSafeConfig,
};
use crate::policy::config_validation::{
    bounded, chain_action_rule, field_text, set_name_rule, set_type_rule,
};
use crate::policy::network_text_laws::lemma_token_chars;
use crate::text::{lemma_trim_idempotent, lower, lower_char, trim, views};
use crate::url_text::url_parse;
use vstd::arithmetic::power2::{lemma2_to64, lemma_pow2_pos, lemma_pow2_strictly_increases, pow2};
use vstd::prelude::*;
use vstd::utf8::encode_utf8;

verus! {

// Fields ----------------------------------------------------------------------------------------

/// The text is the word in letters of either case, where the word is in lower-case letters.
pub open spec fn is_word_in_any_case(text: Seq<char>, word: Seq<char>) -> bool {
    &&& text.len() == word.len()
    &&& forall|i: int|
        0 <= i < text.len() ==> #[trigger] text[i] == word[i] || text[i] as int == word[i] as int
            - 32
}

/// A name of a set: at most 31 letters, digits, underscores, hyphens and dots.
pub open spec fn is_set_name(name: Seq<char>) -> bool {
    &&& encode_utf8(name).len() <= 31
    &&& forall|i: int|
        0 <= i < name.len() ==> {
            let c = #[trigger] name[i];
            'a' <= c <= 'z' || 'A' <= c <= 'Z' || '0' <= c <= '9' || c == '_' || c == '-' || c
                == '.'
        }
}

proof fn lemma_lower_word(text: Seq<char>, word: Seq<char>)
    requires
        forall|i: int| 0 <= i < word.len() ==> 'a' <= #[trigger] word[i] <= 'z',
    ensures
        lower(text) == word <==> is_word_in_any_case(text, word),
{
    assert forall|i: int| 0 <= i < text.len() && i < word.len() implies (lower_char(text[i])
        == word[i] <==> #[trigger] text[i] == word[i] || text[i] as int == word[i] as int
        - 32) by {
        let c = text[i];
        assert('a' <= word[i] <= 'z');
        if 'A' <= c <= 'Z' {
            assert(lower_char(c) as int == c as int + 32);
        }
    }
    if lower(text) == word {
        assert(lower(text).len() == text.len());
        assert forall|i: int| 0 <= i < text.len() implies #[trigger] text[i] == word[i]
            || text[i] as int == word[i] as int - 32 by {
            assert(lower(text)[i] == word[i]);
            assert(lower(text)[i] == lower_char(text[i]));
        }
    }
    if is_word_in_any_case(text, word) {
        assert(lower(text) =~= word) by {
            assert forall|i: int| 0 <= i < text.len() implies lower(text)[i] == word[i] by {
                assert(text[i] == word[i] || text[i] as int == word[i] as int - 32);
            }
        }
    }
}

/// The action is `DROP` where none is given, and the one that is named, in letters of either case,
/// where one is; no other name is accepted.
pub proof fn law_chain_action_is_the_named_one(text: Seq<char>)
    ensures
        chain_action_rule(None) == Ok::<FirewallAction, ConfigFailure>(FirewallAction::Drop),
        chain_action_rule(Some(text)) == Ok::<FirewallAction, ConfigFailure>(FirewallAction::Drop)
            <==> is_word_in_any_case(trim(text), "drop"@),
        chain_action_rule(Some(text)) == Ok::<FirewallAction, ConfigFailure>(
            FirewallAction::Reject,
        ) <==> is_word_in_any_case(trim(text), "reject"@),
{
    reveal_strlit("drop");
    reveal_strlit("reject");
    lemma_lower_word(trim(text), "drop"@);
    lemma_lower_word(trim(text), "reject"@);
}

/// Names of sets are accepted exactly as described.
pub proof fn law_set_names_are_checked(name: Seq<char>, field: Seq<char>)
    ensures
        set_name_rule(name, field) is Ok <==> is_set_name(name),
        set_type_rule(name) is Ok <==> name == "hash:net"@,
{
    if name == "hash:net"@ {
        reveal_strlit("hash:net");
    }
}

/// A number is accepted as it is exactly when it is in range.
pub proof fn law_numbers_are_accepted_in_range(value: int, field: Seq<char>, min: u32, max: u32)
    ensures
        bounded(value, field, min, max) is Ok <==> min <= value <= max,
        bounded(value, field, min, max) matches Ok(number) ==> number == value,
        bounded(value, field, min, max) matches Err(failure) ==> (failure
            matches ConfigFailure::InvalidField { field: named, reason } && named == field),
{
}

/// A hash size is accepted as it is exactly when it is a power of two.
pub proof fn law_hash_sizes_are_powers_of_two(value: int)
    ensures
        hashsize_rule(value) is Ok <==> exists|k: nat|
            k < 32 && value == #[trigger] pow2(k),
        hashsize_rule(value) matches Ok(size) ==> size == value,
{
    if exists|k: nat| k < 32 && value == #[trigger] pow2(k) {
        let k = choose|k: nat| k < 32 && value == #[trigger] pow2(k);
        lemma_pow2_pos(k);
        lemma_pow2_strictly_increases(k, 32);
        lemma2_to64();
        assert(power_of_two(value as u32));
    }
}

/// A URL is accepted exactly when it has the scheme `http` or `https` and a host.
pub proof fn law_urls_need_a_web_scheme_and_a_host(value: Seq<char>, field: Seq<char>)
    ensures
        url_text_rule(value, field) is Ok <==> trim(value).len() > 0 && {
            &&& url_parse(trim(value)) is Some
            &&& ({
                let (scheme, host, _) = url_parse(trim(value))->0;
                (scheme == "http"@ || scheme == "https"@) && host is Some
            })
        },
        url_text_rule(value, field) matches Ok(text) ==> text == trim(value),
{
}

/// A safe network is one word that reads as a network.
pub proof fn law_safe_networks_are_single_words(value: Seq<char>)
    ensures
        safe_ip_rule(value) is Ok <==> parse_token(trim(value)) is Some,
        safe_ip_rule(value) matches Ok(model) ==> parse_token(trim(value)) == Some(model),
{
    let token = trim(value);
    lemma_trim_idempotent(value);
    if parse_token(token) is Some {
        lemma_token_chars(token);
    }
}

// Tables ----------------------------------------------------------------------------------------

proof fn lemma_collect<A, B>(values: Seq<A>, rule: spec_fn(A) -> Result<B, ConfigFailure>)
    ensures
        collect(values, rule) is Ok <==> forall|i: int|
            0 <= i < values.len() ==> rule(#[trigger] values[i]) is Ok,
        collect(values, rule) matches Ok(list) ==> list.len() == values.len() && forall|i: int|
            0 <= i < values.len() ==> #[trigger] list[i] == rule(values[i])->Ok_0,
    decreases values.len(),
{
    if values.len() > 0 {
        let front = values.drop_last();
        lemma_collect(front, rule);
        if collect(values, rule) is Ok {
            assert forall|i: int| 0 <= i < values.len() implies rule(
                #[trigger] values[i],
            ) is Ok by {
                if i < front.len() {
                    assert(rule(front[i]) is Ok);
                }
            }
        }
        if forall|i: int| 0 <= i < values.len() ==> rule(#[trigger] values[i]) is Ok {
            assert forall|i: int| 0 <= i < front.len() implies rule(#[trigger] front[i]) is Ok by {
                assert(front[i] == values[i]);
            }
            assert(rule(values[values.len() - 1]) is Ok);
        }
    }
}

/// The texts are those that were written, without white space around them.
pub open spec fn trimmed_texts(written: Option<Vec<String>>, kept: Seq<Seq<char>>) -> bool {
    match written {
        None => kept.len() == 0,
        Some(values) => kept.len() == values@.len() && forall|i: int|
            0 <= i < values@.len() ==> #[trigger] kept[i] == trim(values@[i]@),
    }
}

/// The number that is written, or the default.
pub open spec fn number_or(written: Option<i64>, default: int) -> int {
    match written {
        Some(value) => value as int,
        None => default,
    }
}

/// The table of the set is accepted.
pub open spec fn ipset_accepted(raw: RawIpsetConfig) -> bool {
    &&& raw.set_name is Some
    &&& ({
        let name = trim(raw.set_name->0@);
        &&& name.len() > 0
        &&& is_set_name(name)
        &&& match raw.set_name_v6 {
            Some(other) => trim(other@).len() > 0 && is_set_name(trim(other@)) && trim(other@)
                != name,
            None => raw.enable_ipv6 != Some(false) ==> is_set_name(name + "-v6"@),
        }
    })
    &&& match raw.chain_action {
        None => true,
        Some(text) => is_word_in_any_case(trim(text@), "drop"@) || is_word_in_any_case(
            trim(text@),
            "reject"@,
        ),
    }
    &&& match raw.set_type {
        None => true,
        Some(text) => trim(text@) == "hash:net"@,
    }
    &&& exists|k: nat|
        k < 32 && number_or(raw.hashsize, 65536) == #[trigger] pow2(k)
    &&& 1 <= number_or(raw.maxelem, 500000) <= 500000
    &&& 0 <= number_or(raw.timeout, 0) <= u32::MAX
}

/// The table of the set is accepted exactly as described, and holds what was written: names and
/// type without white space around them, the IPv6 name derived where none is given, the named
/// action, numbers as they are, and defaults for what is left out.
pub proof fn law_ipset_table_is_taken_as_written(raw: RawIpsetConfig)
    ensures
        ipset_rule(raw) is Ok <==> ipset_accepted(raw),
        ipset_rule(raw) matches Ok(ipset) ==> {
            &&& ipset.set_name == trim(raw.set_name->0@)
            &&& ipset.set_name_v6 == match raw.set_name_v6 {
                Some(text) => trim(text@),
                None => trim(raw.set_name->0@) + "-v6"@,
            }
            &&& ipset.enable_ipv6 <==> raw.enable_ipv6 != Some(false)
            &&& ipset.chain_action == FirewallAction::Reject <==> raw.chain_action is Some
                && is_word_in_any_case(trim(raw.chain_action->0@), "reject"@)
            &&& ipset.set_type == "hash:net"@
            &&& ipset.hashsize == number_or(raw.hashsize, 65536)
            &&& ipset.maxelem == number_or(raw.maxelem, 500000)
            &&& ipset.timeout == number_or(raw.timeout, 0)
        },
{
    if let Some(text) = raw.set_name {
        let name = trim(text@);
        law_set_names_are_checked(name, "ipset.set_name"@);
        law_set_names_are_checked(name + "-v6"@, "ipset.set_name_v6"@);
        reveal_strlit("-v6");
        assert((name + "-v6"@).len() == name.len() + 3);
    }
    if let Some(text) = raw.set_name_v6 {
        law_set_names_are_checked(trim(text@), "ipset.set_name_v6"@);
    }
    law_chain_action_is_the_named_one(Seq::empty());
    if let Some(text) = raw.chain_action {
        law_chain_action_is_the_named_one(text@);
        reveal_strlit("drop");
        reveal_strlit("reject");
    }
    if let Some(text) = raw.set_type {
        law_set_names_are_checked(trim(text@), "ipset.set_type"@);
        reveal_strlit("hash:net");
    }
    law_hash_sizes_are_powers_of_two(number_or(raw.hashsize, 65536));
}

/// The safe networks, the address and the categories of GitHub metadata are taken as written,
/// without white space around them; metadata is used, from its public address and in its default
/// categories, where nothing else is said.
pub proof fn law_safe_table_is_taken_as_written(raw: RawSafeConfig)
    ensures
        safe_rule(raw) is Ok <==> {
            &&& raw.ips matches Some(values) ==> forall|i: int|
                0 <= i < values@.len() ==> parse_token(trim((#[trigger] values@[i])@)) is Some
            &&& raw.github_meta_url matches Some(text) ==> url_text_rule(
                text@,
                "safe.github_meta_url"@,
            ) is Ok
            &&& raw.github_meta_categories matches Some(values) ==> forall|i: int|
                0 <= i < values@.len() ==> trim((#[trigger] values@[i])@).len() > 0
        },
        safe_rule(raw) matches Ok(safe) ==> {
            &&& safe.ips.len() == match raw.ips {
                Some(values) => values@.len(),
                None => 0,
            }
            &&& forall|i: int|
                0 <= i < safe.ips.len() ==> Some(#[trigger] safe.ips[i]) == parse_token(
                    trim(raw.ips->0@[i]@),
                )
            &&& safe.include_github_meta <==> raw.include_github_meta != Some(false)
            &&& safe.github_meta_url == match raw.github_meta_url {
                Some(text) => trim(text@),
                None => "https://api.github.com/meta"@,
            }
            &&& safe.github_meta_categories is Some <==> raw.github_meta_categories is Some
            &&& safe.github_meta_categories is Some ==> trimmed_texts(
                raw.github_meta_categories,
                safe.github_meta_categories->0,
            )
        },
{
    let ip = |v: Seq<char>| safe_ip_rule(v);
    let category = |v: Seq<char>| field_text(v, "safe.github_meta_categories"@);
    let ips = optional_texts(raw.ips);
    let categories = optional_texts(raw.github_meta_categories);
    lemma_collect(ips, ip);
    lemma_collect(categories, category);
    assert forall|i: int| 0 <= i < ips.len() implies ip(#[trigger] ips[i]) == safe_ip_rule(ips[i])
        && (safe_ip_rule(ips[i]) is Ok <==> parse_token(trim(ips[i])) is Some) && (safe_ip_rule(
        ips[i],
    ) is Ok ==> parse_token(trim(ips[i])) == Some(safe_ip_rule(ips[i])->Ok_0)) by {
        law_safe_networks_are_single_words(ips[i]);
    }
    if let Some(values) = raw.ips {
        assert forall|i: int| 0 <= i < values@.len() implies #[trigger] ips[i] == values@[i]@ by {}
        if forall|i: int|
            0 <= i < values@.len() ==> parse_token(trim((#[trigger] values@[i])@)) is Some {
            assert forall|i: int| 0 <= i < ips.len() implies ip(#[trigger] ips[i]) is Ok by {
                assert(parse_token(trim(values@[i]@)) is Some);
            }
        }
        if collect(ips, ip) is Ok {
            assert forall|i: int| 0 <= i < values@.len() implies parse_token(
                trim((#[trigger] values@[i])@),
            ) is Some by {
                assert(ip(ips[i]) is Ok);
            }
        }
    }
    if let Some(values) = raw.github_meta_categories {
        if forall|i: int| 0 <= i < values@.len() ==> trim((#[trigger] values@[i])@).len() > 0 {
            assert forall|i: int| 0 <= i < categories.len() implies category(
                #[trigger] categories[i],
            ) is Ok by {
                assert(trim(values@[i]@).len() > 0);
            }
        }
        if collect(categories, category) is Ok {
            assert forall|i: int| 0 <= i < values@.len() implies trim(
                (#[trigger] values@[i])@,
            ).len() > 0 by {
                assert(category(categories[i]) is Ok);
            }
        }
    }
    if let Some(text) = raw.github_meta_url {
        law_urls_need_a_web_scheme_and_a_host(text@, "safe.github_meta_url"@);
    }
}

/// The addresses of the feeds are taken as written and in order, without white space around them;
/// the time to wait for one is the given number of seconds, or thirty.
pub proof fn law_remote_table_is_taken_as_written(raw: RawRemoteConfig)
    ensures
        remote_rule(raw) is Ok <==> {
            &&& raw.urls matches Some(values) ==> forall|i: int|
                0 <= i < values@.len() ==> url_text_rule(
                    (#[trigger] values@[i])@,
                    "remote.urls"@,
                ) is Ok
            &&& 1 <= number_or(raw.timeout_secs, 30) <= 3600
            &&& 1 <= number_or(raw.cache_stale_after_secs, 1) <= 604800
        },
        remote_rule(raw) matches Ok(remote) ==> trimmed_texts(raw.urls, remote.urls)
            && remote.timeout_secs == number_or(raw.timeout_secs, 30),
{
    let url = |v: Seq<char>| url_text_rule(v, "remote.urls"@);
    let urls = optional_texts(raw.urls);
    lemma_collect(urls, url);
    assert forall|i: int| 0 <= i < urls.len() implies url(#[trigger] urls[i]) == url_text_rule(
        urls[i],
        "remote.urls"@,
    ) && (url(urls[i]) is Ok ==> url(urls[i])->Ok_0 == trim(urls[i])) by {
        law_urls_need_a_web_scheme_and_a_host(urls[i], "remote.urls"@);
    }
    if let Some(values) = raw.urls {
        if forall|i: int|
            0 <= i < values@.len() ==> url_text_rule(
                (#[trigger] values@[i])@,
                "remote.urls"@,
            ) is Ok {
            assert forall|i: int| 0 <= i < urls.len() implies url(#[trigger] urls[i]) is Ok by {
                assert(url_text_rule(values@[i]@, "remote.urls"@) is Ok);
            }
        }
        if collect(urls, url) is Ok {
            assert forall|i: int| 0 <= i < values@.len() implies url_text_rule(
                (#[trigger] values@[i])@,
                "remote.urls"@,
            ) is Ok by {
                assert(url(urls[i]) is Ok);
            }
        }
    }
}

/// A configuration is accepted exactly when it has a table of the set and each table is accepted;
/// it then holds the banned systems that are written and no other, the age after which their cache
/// is stale, and what the other tables give. Tables that are left out count as empty.
pub proof fn law_config_is_taken_table_by_table(raw: RawConfig, config: Result<Config, ConfigError>)
    requires
        config_rule(raw, config),
    ensures
        raw.ipset is None ==> (config matches Err(error) && error@
            == ConfigFailure::MissingIpsetSection),
        config is Ok <==> {
            &&& raw.ipset is Some
            &&& ipset_rule(raw.ipset->0) is Ok
            &&& raw.safe matches Some(table) ==> safe_rule(table) is Ok
            &&& raw.remote matches Some(table) ==> remote_rule(table) is Ok
            &&& raw.asn matches Some(table) ==> {
                &&& table.banned matches Some(values) ==> forall|i: int|
                    0 <= i < values@.len() ==> 1 <= #[trigger] values@[i] <= u32::MAX
                &&& 1 <= number_or(table.cache_stale_after_secs, 86400) <= 604800
            }
        },
        config matches Ok(c) ==> {
            &&& c.ipset@ == ipset_rule(raw.ipset->0)->Ok_0
            &&& raw.safe matches Some(table) ==> c.safe@ == safe_rule(table)->Ok_0
            &&& raw.safe is None ==> c.safe.ips@.len() == 0 && c.safe.include_github_meta
                && c.safe.github_meta_url@ == "https://api.github.com/meta"@
                && c.safe.github_meta_categories is None
            &&& raw.remote matches Some(table) ==> c.remote@ == remote_rule(table)->Ok_0
            &&& raw.remote is None ==> c.remote.urls@.len() == 0 && c.remote.timeout_secs@ == 30
            &&& forall|n: u32| #[trigger]
                c.asn.banned@.contains(n) <==> raw.asn is Some && raw.asn->0.banned is Some
                    && raw.asn->0.banned->0@.contains(n as i64)
            &&& c.asn.cache_stale_after_secs@ == match raw.asn {
                Some(table) => number_or(table.cache_stale_after_secs, 86400),
                None => 86400,
            }
        },
{
    let safe_raw = match raw.safe {
        Some(table) => table,
        None => empty_safe(),
    };
    let remote_raw = match raw.remote {
        Some(table) => table,
        None => empty_remote(),
    };
    let asn_raw = match raw.asn {
        Some(table) => table,
        None => empty_asn(),
    };
    law_safe_table_is_taken_as_written(safe_raw);
    law_remote_table_is_taken_as_written(remote_raw);
    let values = optional_numbers(asn_raw.banned);
    if exists|i: int| 0 <= i < values.len() && !asn_in_range(#[trigger] values[i]) {
        let i = choose|i: int| 0 <= i < values.len() && !asn_in_range(#[trigger] values[i]);
        assert(raw.asn is Some && raw.asn->0.banned is Some);
        assert(!(1 <= raw.asn->0.banned->0@[i] <= u32::MAX));
    } else if let Some(table) = raw.asn {
        if let Some(list) = table.banned {
            assert forall|i: int| 0 <= i < list@.len() implies 1 <= #[trigger] list@[i]
                <= u32::MAX by {
                assert(asn_in_range(values[i]));
            }
        }
    }
    if let Ok(c) = config {
        assert(models(c.safe.ips@).len() == c.safe.ips@.len());
        assert(views(c.remote.urls@).len() == c.remote.urls@.len());
        assert(banned_numbers(values, c.asn.banned@));
        assert forall|n: u32| #[trigger] c.asn.banned@.contains(n) <==> raw.asn is Some
            && raw.asn->0.banned is Some && raw.asn->0.banned->0@.contains(n as i64) by {
            assert(c.asn.banned@.contains(n) <==> values.contains(n as i64));
        }
    }
}

} // verus!
