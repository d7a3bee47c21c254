//! Configuration values and their validation.

use kidobo::policy::config::{
    AsnCacheStaleAfterSecs, Config, ConfigError, FirewallAction, GithubMetaCategoryMode,
    HashsizePow2, MaxElem, RawAsnConfig, RawConfig, RawIpsetConfig, RawRemoteConfig, RawSafeConfig,
    RemoteTimeoutSecs, ASN_CACHE_STALE_AFTER_SECS_MAX, DEFAULT_ASN_CACHE_STALE_AFTER_SECS,
    DEFAULT_CHAIN_ACTION, DEFAULT_GITHUB_META_CATEGORIES, DEFAULT_GITHUB_META_URL,
    DEFAULT_HASHSIZE, DEFAULT_IPSET_TYPE, DEFAULT_MAXELEM, DEFAULT_REMOTE_TIMEOUT_SECS,
    DEFAULT_TIMEOUT, REMOTE_TIMEOUT_SECS_MAX,
};
use kidobo::policy::config_validation::validate_ipset_set_name;
use kidobo::policy::network_types::{CanonicalCidr, Ipv4Cidr};
use kidobo::workflow::init::DEFAULT_CONFIG_TEMPLATE;
use toml_edit::{DocumentMut, Item, TableLike};

fn parse_failure(reason: &str) -> ConfigError {
    ConfigError::Parse {
        reason: reason.to_string(),
    }
}

fn known_keys(table: &dyn TableLike, known: &[&str]) -> Result<(), ConfigError> {
    for (key, _) in table.iter() {
        if !known.contains(&key) {
            return Err(parse_failure("unknown key"));
        }
    }
    Ok(())
}

fn text(table: &dyn TableLike, key: &str) -> Result<Option<String>, ConfigError> {
    match table.get(key) {
        None => Ok(None),
        Some(item) => item
            .as_str()
            .map(|value| Some(value.to_string()))
            .ok_or_else(|| parse_failure("string expected")),
    }
}

fn integer(table: &dyn TableLike, key: &str) -> Result<Option<i64>, ConfigError> {
    match table.get(key) {
        None => Ok(None),
        Some(item) => item
            .as_integer()
            .map(Some)
            .ok_or_else(|| parse_failure("integer expected")),
    }
}

fn flag(table: &dyn TableLike, key: &str) -> Result<Option<bool>, ConfigError> {
    match table.get(key) {
        None => Ok(None),
        Some(item) => item
            .as_bool()
            .map(Some)
            .ok_or_else(|| parse_failure("boolean expected")),
    }
}

fn texts(table: &dyn TableLike, key: &str) -> Result<Option<Vec<String>>, ConfigError> {
    let Some(item) = table.get(key) else {
        return Ok(None);
    };
    let array = item.as_array().ok_or_else(|| parse_failure("array expected"))?;
    let mut values = Vec::new();
    for value in array.iter() {
        values.push(
            value
                .as_str()
                .ok_or_else(|| parse_failure("string expected"))?
                .to_string(),
        );
    }
    Ok(Some(values))
}

fn integers(table: &dyn TableLike, key: &str) -> Result<Option<Vec<i64>>, ConfigError> {
    let Some(item) = table.get(key) else {
        return Ok(None);
    };
    let array = item.as_array().ok_or_else(|| parse_failure("array expected"))?;
    let mut values = Vec::new();
    for value in array.iter() {
        values.push(
            value
                .as_integer()
                .ok_or_else(|| parse_failure("integer expected"))?,
        );
    }
    Ok(Some(values))
}

fn section<'a>(item: Option<&'a Item>) -> Result<Option<&'a dyn TableLike>, ConfigError> {
    match item {
        None => Ok(None),
        Some(found) => found
            .as_table_like()
            .map(Some)
            .ok_or_else(|| parse_failure("table expected")),
    }
}

fn raw_config(contents: &str) -> Result<RawConfig, ConfigError> {
    let document = contents
        .parse::<DocumentMut>()
        .map_err(|error| parse_failure(&error.to_string()))?;
    let root = document.as_table();
    known_keys(root, &["ipset", "safe", "remote", "asn"])?;
    let ipset = match section(root.get("ipset"))? {
        None => None,
        Some(table) => {
            known_keys(
                table,
                &[
                    "set_name",
                    "set_name_v6",
                    "enable_ipv6",
                    "chain_action",
                    "set_type",
                    "hashsize",
                    "maxelem",
                    "timeout",
                ],
            )?;
            Some(RawIpsetConfig {
                set_name: text(table, "set_name")?,
                set_name_v6: text(table, "set_name_v6")?,
                enable_ipv6: flag(table, "enable_ipv6")?,
                chain_action: text(table, "chain_action")?,
                set_type: text(table, "set_type")?,
                hashsize: integer(table, "hashsize")?,
                maxelem: integer(table, "maxelem")?,
                timeout: integer(table, "timeout")?,
            })
        }
    };
    let safe = match section(root.get("safe"))? {
        None => None,
        Some(table) => {
            known_keys(
                table,
                &[
                    "ips",
                    "include_github_meta",
                    "github_meta_url",
                    "github_meta_categories",
                ],
            )?;
            Some(RawSafeConfig {
                ips: texts(table, "ips")?,
                include_github_meta: flag(table, "include_github_meta")?,
                github_meta_url: text(table, "github_meta_url")?,
                github_meta_categories: texts(table, "github_meta_categories")?,
            })
        }
    };
    let remote = match section(root.get("remote"))? {
        None => None,
        Some(table) => {
            known_keys(table, &["urls", "timeout_secs", "cache_stale_after_secs"])?;
            Some(RawRemoteConfig {
                urls: texts(table, "urls")?,
                timeout_secs: integer(table, "timeout_secs")?,
                cache_stale_after_secs: integer(table, "cache_stale_after_secs")?,
            })
        }
    };
    let asn = match section(root.get("asn"))? {
        None => None,
        Some(table) => {
            known_keys(table, &["banned", "cache_stale_after_secs"])?;
            Some(RawAsnConfig {
                banned: integers(table, "banned")?,
                cache_stale_after_secs: integer(table, "cache_stale_after_secs")?,
            })
        }
    };
    Ok(RawConfig {
        ipset,
        safe,
        remote,
        asn,
    })
}

fn from_toml_str(contents: &str) -> Result<Config, ConfigError> {
    Config::from_raw(raw_config(contents)?)
}

#[test]
fn time_defaults_and_limits_have_exact_values() {
    assert_eq!(DEFAULT_REMOTE_TIMEOUT_SECS, 30);
    assert_eq!(DEFAULT_ASN_CACHE_STALE_AFTER_SECS, 86_400);
    assert_eq!(REMOTE_TIMEOUT_SECS_MAX, 3_600);
    assert_eq!(ASN_CACHE_STALE_AFTER_SECS_MAX, 604_800);
}

#[test]
fn validated_numeric_types_convert_without_losing_values() {
    assert_eq!(
        u32::from(HashsizePow2::new(8_192).expect("valid hashsize")),
        8_192
    );
    assert_eq!(
        u32::from(MaxElem::new(123_456).expect("valid maxelem")),
        123_456
    );
    assert_eq!(
        u32::from(RemoteTimeoutSecs::new(45).expect("valid timeout")),
        45
    );
    assert_eq!(
        u32::from(AsnCacheStaleAfterSecs::new(9_000).expect("valid ASN cache age")),
        9_000
    );
}

#[test]
fn parses_minimal_config_and_applies_defaults() {
    let config = from_toml_str("[ipset]\nset_name = 'kidobo'\n").expect("parse");

    assert_eq!(config.ipset.set_name, "kidobo");
    assert_eq!(config.ipset.set_name_v6, "kidobo-v6");
    assert!(config.ipset.enable_ipv6);
    assert_eq!(config.ipset.chain_action, DEFAULT_CHAIN_ACTION);
    assert_eq!(config.ipset.set_type, DEFAULT_IPSET_TYPE);
    assert_eq!(config.ipset.hashsize.get(), DEFAULT_HASHSIZE);
    assert_eq!(config.ipset.maxelem.get(), DEFAULT_MAXELEM);
    assert_eq!(config.ipset.timeout, DEFAULT_TIMEOUT);
    assert!(config.safe.ips.is_empty());
    assert!(config.safe.include_github_meta);
    assert_eq!(config.safe.github_meta_url, DEFAULT_GITHUB_META_URL);
    assert_eq!(
        config.safe.github_meta_category_mode(),
        GithubMetaCategoryMode::Default
    );
    assert_eq!(
        DEFAULT_GITHUB_META_CATEGORIES,
        ["api", "git", "hooks", "packages"]
    );
    assert_eq!(config.remote.urls, Vec::<String>::new());
    assert_eq!(
        config.remote.timeout_secs.get(),
        DEFAULT_REMOTE_TIMEOUT_SECS
    );
    assert!(config.asn.banned.is_empty());
    assert_eq!(
        config.asn.cache_stale_after_secs.get(),
        DEFAULT_ASN_CACHE_STALE_AFTER_SECS
    );
}

#[test]
fn set_name_v6_can_be_overridden() {
    let config =
        from_toml_str("[ipset]\nset_name = 'kidobo'\nset_name_v6 = 'custom-v6'\n")
            .expect("parse");

    assert_eq!(config.ipset.set_name_v6, "custom-v6");
}

#[test]
fn set_name_v6_must_not_match_set_name() {
    let err = from_toml_str("[ipset]\nset_name = 'kidobo'\nset_name_v6 = 'kidobo'\n")
        .expect_err("must fail");

    assert_eq!(
        err,
        ConfigError::InvalidField {
            field: "ipset.set_name_v6",
            reason: "must differ from ipset.set_name".to_string(),
        }
    );
}

#[test]
fn set_name_v6_must_not_match_set_name_when_ipv6_disabled() {
    let err = from_toml_str(
        "[ipset]\nset_name = 'kidobo'\nset_name_v6 = 'kidobo'\nenable_ipv6 = false\n",
    )
    .expect_err("must fail");

    assert_eq!(
        err,
        ConfigError::InvalidField {
            field: "ipset.set_name_v6",
            reason: "must differ from ipset.set_name".to_string(),
        }
    );
}

#[test]
fn enable_ipv6_false_is_respected() {
    let config = from_toml_str("[ipset]\nset_name='kidobo'\nenable_ipv6=false\n")
        .expect("parse");

    assert!(!config.ipset.enable_ipv6);
}

#[test]
fn enable_ipv6_false_does_not_require_valid_derived_v6_set_name() {
    let config = from_toml_str(
        "[ipset]\nset_name='kidobo-name-that-is-thirty-one'\nenable_ipv6=false\n",
    )
    .expect("parse");

    assert_eq!(config.ipset.set_name, "kidobo-name-that-is-thirty-one");
    assert!(!config.ipset.enable_ipv6);
}

#[test]
fn enabled_ipv6_requires_valid_derived_v6_set_name() {
    let err = from_toml_str("[ipset]\nset_name='kidobo-name-that-is-thirty-one'\n")
        .expect_err("must fail");

    assert_eq!(
        err,
        ConfigError::InvalidField {
            field: "ipset.set_name_v6",
            reason: "must be 31 characters or fewer".to_string(),
        }
    );
}

#[test]
fn chain_action_defaults_to_drop() {
    let config = from_toml_str("[ipset]\nset_name='kidobo'\n").expect("parse");
    assert_eq!(config.ipset.chain_action, FirewallAction::Drop);
}

#[test]
fn chain_action_accepts_drop_or_reject_case_insensitively() {
    let drop_config =
        from_toml_str("[ipset]\nset_name='kidobo'\nchain_action='drop'\n")
            .expect("parse");
    assert_eq!(drop_config.ipset.chain_action, FirewallAction::Drop);

    let reject_config =
        from_toml_str("[ipset]\nset_name='kidobo'\nchain_action='REJECT'\n")
            .expect("parse");
    assert_eq!(reject_config.ipset.chain_action, FirewallAction::Reject);
}

#[test]
fn chain_action_rejects_invalid_values() {
    let err = from_toml_str("[ipset]\nset_name='kidobo'\nchain_action='ACCEPT'\n")
        .expect_err("must fail");
    assert_eq!(
        err,
        ConfigError::InvalidField {
            field: "ipset.chain_action",
            reason: "must be DROP or REJECT".to_string(),
        }
    );
}

#[test]
fn safe_empty_categories_means_all() {
    let config = from_toml_str(
        "[ipset]\nset_name='kidobo'\n[safe]\ngithub_meta_categories=[]\n",
    )
    .expect("parse");

    assert_eq!(
        config.safe.github_meta_category_mode(),
        GithubMetaCategoryMode::All
    );
}

#[test]
fn safe_ips_are_strictly_parsed_as_cidrs() {
    let config =
        from_toml_str("[ipset]\nset_name='kidobo'\n[safe]\nips=['10.0.0.1']\n")
            .expect("parse");
    assert_eq!(
        config.safe.ips,
        vec![CanonicalCidr::V4(Ipv4Cidr::from_parts(0x0a00_0001, 32))]
    );
}

#[test]
fn safe_ips_reject_invalid_cidr_tokens() {
    let err = from_toml_str("[ipset]\nset_name='kidobo'\n[safe]\nips=['not-an-ip']\n")
        .expect_err("must fail");
    assert_eq!(
        err,
        ConfigError::InvalidField {
            field: "safe.ips",
            reason: "invalid IP/CIDR token `not-an-ip`".to_string(),
        }
    );
}

#[test]
fn safe_explicit_categories_are_preserved() {
    let config = from_toml_str(
        "[ipset]\nset_name='kidobo'\n[safe]\ngithub_meta_categories=['api','hooks']\n",
    )
    .expect("parse");

    assert_eq!(
        config.safe.github_meta_category_mode(),
        GithubMetaCategoryMode::Explicit(vec!["api".to_string(), "hooks".to_string()])
    );
}

#[test]
fn safe_github_meta_url_can_be_overridden() {
    let config = from_toml_str(
        "[ipset]\nset_name='kidobo'\n[safe]\ngithub_meta_url='https://example.com/meta'\n",
    )
    .expect("parse");
    assert_eq!(config.safe.github_meta_url, "https://example.com/meta");
}

#[test]
fn safe_github_meta_url_must_be_http_or_https() {
    let err = from_toml_str(
        "[ipset]\nset_name='kidobo'\n[safe]\ngithub_meta_url='ftp://example.com/meta'\n",
    )
    .expect_err("must fail");
    assert_eq!(
        err,
        ConfigError::InvalidField {
            field: "safe.github_meta_url",
            reason: "must be a valid http:// or https:// URL with a host".to_string(),
        }
    );
}

#[test]
fn safe_github_meta_url_must_be_structurally_valid() {
    let err = from_toml_str(
        "[ipset]\nset_name='kidobo'\n[safe]\ngithub_meta_url='https://'\n",
    )
    .expect_err("must fail");
    assert_eq!(
        err,
        ConfigError::InvalidField {
            field: "safe.github_meta_url",
            reason: "must be a valid http:// or https:// URL with a host".to_string(),
        }
    );
}

#[test]
fn asn_banned_values_are_deduped_and_sorted() {
    let config = from_toml_str(
        "[ipset]\nset_name='kidobo'\n[asn]\nbanned=[64513,64512,64513]\n",
    )
    .expect("parse");
    assert_eq!(config.asn.banned, vec![64512, 64513]);
}

#[test]
fn asn_cache_stale_after_secs_can_be_overridden() {
    let config = from_toml_str(
        "[ipset]\nset_name='kidobo'\n[asn]\ncache_stale_after_secs=7200\n",
    )
    .expect("parse");
    assert_eq!(config.asn.cache_stale_after_secs.get(), 7200);
}

#[test]
fn asn_rejects_invalid_values() {
    let err = from_toml_str("[ipset]\nset_name='kidobo'\n[asn]\nbanned=[0]\n")
        .expect_err("must fail");
    assert_eq!(
        err,
        ConfigError::InvalidField {
            field: "asn.banned",
            reason: format!("must be between {} and {}", 1, u32::MAX),
        }
    );

    let err = from_toml_str(
        "[ipset]\nset_name='kidobo'\n[asn]\ncache_stale_after_secs=999999999\n",
    )
    .expect_err("must fail");
    assert_eq!(
        err,
        ConfigError::InvalidField {
            field: "asn.cache_stale_after_secs",
            reason: format!("must be between 1 and {ASN_CACHE_STALE_AFTER_SECS_MAX}"),
        }
    );
}

#[test]
fn missing_ipset_section_fails() {
    let err = from_toml_str("[safe]\nips=[]\n").expect_err("must fail");
    assert_eq!(err, ConfigError::MissingIpsetSection);
}

#[test]
fn missing_set_name_fails() {
    let err = from_toml_str("[ipset]\n").expect_err("must fail");
    assert_eq!(
        err,
        ConfigError::InvalidField {
            field: "ipset.set_name",
            reason: "value is required".to_string(),
        }
    );
}

#[test]
fn hashsize_must_be_power_of_two() {
    let err = from_toml_str("[ipset]\nset_name='kidobo'\nhashsize=100\n")
        .expect_err("must fail");
    assert_eq!(
        err,
        ConfigError::InvalidField {
            field: "ipset.hashsize",
            reason: "must be a power-of-two positive integer".to_string(),
        }
    );
}

#[test]
fn maxelem_must_be_in_allowed_range() {
    let err = from_toml_str("[ipset]\nset_name='kidobo'\nmaxelem=500001\n")
        .expect_err("must fail");
    assert_eq!(
        err,
        ConfigError::InvalidField {
            field: "ipset.maxelem",
            reason: "must be between 1 and 500000".to_string(),
        }
    );
}

#[test]
fn timeout_must_be_non_negative() {
    let err = from_toml_str("[ipset]\nset_name='kidobo'\ntimeout=-1\n")
        .expect_err("must fail");
    assert_eq!(
        err,
        ConfigError::InvalidField {
            field: "ipset.timeout",
            reason: format!("must be between {} and {}", 0, u32::MAX),
        }
    );
}

#[test]
fn set_name_rejects_whitespace_and_overlength_values() {
    let err = from_toml_str("[ipset]\nset_name='kidobo bad'\n").expect_err("must fail");
    assert_eq!(
        err,
        ConfigError::InvalidField {
            field: "ipset.set_name",
            reason: "must contain only [A-Za-z0-9_.-]".to_string(),
        }
    );

    let err =
        from_toml_str("[ipset]\nset_name='kidobo-name-that-is-way-too-long-12345'\n")
            .expect_err("must fail");
    assert_eq!(
        err,
        ConfigError::InvalidField {
            field: "ipset.set_name",
            reason: "must be 31 characters or fewer".to_string(),
        }
    );
}

#[test]
fn set_name_accepts_exactly_31_characters() {
    validate_ipset_set_name(&"a".repeat(31), "ipset.set_name").expect("31-character set name");
    assert!(validate_ipset_set_name(&"a".repeat(32), "ipset.set_name").is_err());
}

#[test]
fn set_type_accepts_explicit_supported_punctuation() {
    let config = from_toml_str("[ipset]\nset_name='kidobo'\nset_type='hash:net'\n")
        .expect("valid set type");

    assert_eq!(config.ipset.set_type, "hash:net");
}

#[test]
fn set_type_is_the_supported_network_type() {
    for other in ["hash:ip", "hash:net,port", "bitmap:ip", "HASH:NET"] {
        let err = from_toml_str(&format!(
            "[ipset]\nset_name='kidobo'\nset_type='{other}'\n"
        ))
        .expect_err("unsupported type");
        assert_eq!(
            err,
            ConfigError::InvalidField {
                field: "ipset.set_type",
                reason: "must be hash:net".to_string(),
            }
        );
    }
    let config = from_toml_str("[ipset]\nset_name='kidobo'\nset_type=' hash:net '\n")
        .expect("trimmed type");
    assert_eq!(config.ipset.set_type, DEFAULT_IPSET_TYPE);
}

#[test]
fn feed_urls_are_stored_trimmed_and_in_order() {
    let config = from_toml_str(
        "[ipset]\nset_name='kidobo'\n[remote]\nurls=[' https://b.example/x ', 'http://A.example']\n",
    )
    .expect("urls");
    assert_eq!(
        config.remote.urls,
        ["https://b.example/x", "http://A.example"]
    );
}

#[test]
fn set_type_rejects_whitespace_and_control_characters() {
    let err = from_toml_str("[ipset]\nset_name='kidobo'\nset_type='hash: net'\n")
        .expect_err("must fail");
    assert_eq!(
        err,
        ConfigError::InvalidField {
            field: "ipset.set_type",
            reason: "must contain only [A-Za-z0-9:,_-.]".to_string(),
        }
    );

    let err = from_toml_str("[ipset]\nset_name='kidobo'\nset_type='hash:net\\nadd'\n")
        .expect_err("must fail");
    assert_eq!(
        err,
        ConfigError::InvalidField {
            field: "ipset.set_type",
            reason: "must contain only [A-Za-z0-9:,_-.]".to_string(),
        }
    );
}

#[test]
fn empty_remote_url_fails() {
    let err = from_toml_str("[ipset]\nset_name='kidobo'\n[remote]\nurls=['']\n")
        .expect_err("must fail");
    assert_eq!(
        err,
        ConfigError::InvalidField {
            field: "remote.urls",
            reason: "value must not be empty".to_string(),
        }
    );
}

#[test]
fn remote_urls_must_be_http_or_https() {
    let err = from_toml_str(
        "[ipset]\nset_name='kidobo'\n[remote]\nurls=['file:///tmp/list.txt']\n",
    )
    .expect_err("must fail");
    assert_eq!(
        err,
        ConfigError::InvalidField {
            field: "remote.urls",
            reason: "must be a valid http:// or https:// URL with a host".to_string(),
        }
    );
}

#[test]
fn remote_urls_must_be_structurally_valid() {
    let err = from_toml_str(
        "[ipset]\nset_name='kidobo'\n[remote]\nurls=['https:// example.com/list.txt']\n",
    )
    .expect_err("must fail");
    assert_eq!(
        err,
        ConfigError::InvalidField {
            field: "remote.urls",
            reason: "must be a valid http:// or https:// URL with a host".to_string(),
        }
    );
}

#[test]
fn remote_timeout_secs_can_be_overridden() {
    let config =
        from_toml_str("[ipset]\nset_name='kidobo'\n[remote]\ntimeout_secs=45\n")
            .expect("parse");
    assert_eq!(config.remote.timeout_secs.get(), 45);
}

#[test]
fn remote_timeout_secs_must_be_within_allowed_range() {
    let err = from_toml_str("[ipset]\nset_name='kidobo'\n[remote]\ntimeout_secs=0\n")
        .expect_err("must fail");
    assert_eq!(
        err,
        ConfigError::InvalidField {
            field: "remote.timeout_secs",
            reason: "must be between 1 and 3600".to_string(),
        }
    );

    let err =
        from_toml_str("[ipset]\nset_name='kidobo'\n[remote]\ntimeout_secs=3601\n")
            .expect_err("must fail");
    assert_eq!(
        err,
        ConfigError::InvalidField {
            field: "remote.timeout_secs",
            reason: "must be between 1 and 3600".to_string(),
        }
    );
}

#[test]
fn legacy_remote_cache_stale_after_secs_is_accepted() {
    from_toml_str(
        "[ipset]\nset_name='kidobo'\n[remote]\ncache_stale_after_secs=7200\n",
    )
    .expect("parse");
}

#[test]
fn remote_cache_stale_after_secs_must_be_within_allowed_range() {
    let err = from_toml_str(
        "[ipset]\nset_name='kidobo'\n[remote]\ncache_stale_after_secs=0\n",
    )
    .expect_err("must fail");
    assert_eq!(
        err,
        ConfigError::InvalidField {
            field: "remote.cache_stale_after_secs",
            reason: "must be between 1 and 604800".to_string(),
        }
    );
}

#[test]
fn parse_errors_are_mapped() {
    let err = from_toml_str("not toml").expect_err("must fail");
    match err {
        ConfigError::Parse { .. } => {}
        _ => panic!("expected parse error"),
    }
}

#[test]
fn parser_rejects_unknown_root_and_nested_keys() {
    for contents in [
        "[ipset]\nset_name='kidobo'\nunknown=true\n",
        "[ipset]\nset_name='kidobo'\n[remote]\ntimeout_second=30\n",
        "[ipset]\nset_name='kidobo'\n[safe]\ninclude_github=true\n",
        "[ipset]\nset_name='kidobo'\n[extra]\nvalue=true\n",
        "ipset = { set_name = 'kidobo', typo = true }\n",
        "ipset.set_name='kidobo'\nasn.stale_seconds=30\n",
    ] {
        assert!(
            matches!(
                from_toml_str(contents),
                Err(ConfigError::Parse { .. })
            ),
            "unexpectedly accepted {contents:?}"
        );
    }
}

#[test]
fn parser_accepts_comments_blank_lines_and_trailing_commas() {
    let config = from_toml_str(
        "# leading comment\n\
         [ipset]\n\
         set_name = 'kidobo'\n\
         \n\
         [safe]\n\
         # comment inside table\n\
         ips = [\n\
           '10.0.0.1',\n\
         ]\n\
         \n\
         [remote]\n\
         urls = [\n\
           'https://example.com/list.txt',\n\
         ]\n\
         \n\
         [asn]\n\
         banned = [\n\
           64512,\n\
         ]\n",
    )
    .expect("parse");

    assert_eq!(config.ipset.set_name, "kidobo");
    assert_eq!(
        config.safe.ips,
        vec![CanonicalCidr::V4(Ipv4Cidr::from_parts(0x0a00_0001, 32))]
    );
    assert_eq!(
        config.remote.urls,
        vec!["https://example.com/list.txt".to_string()]
    );
    assert_eq!(config.asn.banned, vec![64512]);
}

#[test]
fn parser_accepts_dotted_keys_for_nested_sections() {
    let config = from_toml_str(
        "ipset.set_name = 'kidobo'\n\
         ipset.enable_ipv6 = false\n\
         safe.ips = ['10.0.0.1']\n\
         safe.github_meta_url = 'https://example.com/meta'\n\
         remote.urls = ['https://example.com/list.txt']\n\
         remote.timeout_secs = 45\n\
         asn.banned = [64512]\n\
         asn.cache_stale_after_secs = 7200\n",
    )
    .expect("parse");

    assert_eq!(config.ipset.set_name, "kidobo");
    assert!(!config.ipset.enable_ipv6);
    assert_eq!(
        config.safe.ips,
        vec![CanonicalCidr::V4(Ipv4Cidr::from_parts(0x0a00_0001, 32))]
    );
    assert_eq!(config.safe.github_meta_url, "https://example.com/meta");
    assert_eq!(
        config.remote.urls,
        vec!["https://example.com/list.txt".to_string()]
    );
    assert_eq!(config.remote.timeout_secs.get(), 45);
    assert_eq!(config.asn.banned, vec![64512]);
    assert_eq!(config.asn.cache_stale_after_secs.get(), 7200);
}

#[test]
fn parser_accepts_inline_tables_for_sections() {
    let config = from_toml_str(
        "ipset = { set_name = 'kidobo', enable_ipv6 = false }\n\
         safe = { include_github_meta = false, github_meta_url = 'https://example.com/meta' }\n\
         remote = { urls = ['https://example.com/list.txt'], timeout_secs = 45 }\n\
         asn = { banned = [64513, 64512], cache_stale_after_secs = 7200 }\n",
    )
    .expect("parse");

    assert_eq!(config.ipset.set_name, "kidobo");
    assert!(!config.ipset.enable_ipv6);
    assert!(!config.safe.include_github_meta);
    assert_eq!(config.safe.github_meta_url, "https://example.com/meta");
    assert_eq!(
        config.remote.urls,
        vec!["https://example.com/list.txt".to_string()]
    );
    assert_eq!(config.remote.timeout_secs.get(), 45);
    assert_eq!(config.asn.banned, vec![64512, 64513]);
    assert_eq!(config.asn.cache_stale_after_secs.get(), 7200);
}

#[test]
fn parser_rejects_duplicate_keys() {
    let err = from_toml_str(
        "[ipset]\n\
         set_name = 'kidobo'\n\
         set_name = 'kidobo-duplicate'\n",
    )
    .expect_err("must fail");

    match err {
        ConfigError::Parse { .. } => {}
        _ => panic!("expected parse error for duplicate key"),
    }
}

#[test]
fn parser_rejects_duplicate_tables() {
    let err = from_toml_str(
        "[ipset]\n\
         set_name = 'kidobo'\n\
         [ipset]\n\
         enable_ipv6 = false\n",
    )
    .expect_err("must fail");

    match err {
        ConfigError::Parse { .. } => {}
        _ => panic!("expected parse error for duplicate table"),
    }
}

#[test]
fn default_config_is_accepted_by_the_production_parser() {
    let config = from_toml_str(DEFAULT_CONFIG_TEMPLATE).expect("default config");
    assert_eq!(config.ipset.set_name, "kidobo");
}
