//! Configuration values, defaults, and validation.

use crate::ordering::{dedup_sorted, has_tie, lemma_sorted_members, sort_stable, Ranked};
use crate::policy::cidr_text::{models, CidrModel};
use crate::policy::config_validation::{
    bounded, bounded_u32, chain_action_rule, cidr_rule, field_text, http_url_rule, invalid,
    non_empty, optional_text, parse_chain_action, parse_cidr_field_strict, range_reason,
    required_non_empty, required_text, set_name_rule, set_type_rule, text_result, validate_http_url,
    validate_ipset_set_name, validate_ipset_set_type,
};
use crate::policy::network_types::CanonicalCidr;
use crate::text::{same_text, views};
use vstd::arithmetic::power2::*;
use vstd::prelude::*;

verus! {

/// Default kernel ipset type used for managed sets.
pub const DEFAULT_IPSET_TYPE: &'static str = "hash:net";

/// Default firewall action for matched addresses.
pub const DEFAULT_CHAIN_ACTION: FirewallAction = FirewallAction::Drop;

/// Default ipset hash table size.
pub const DEFAULT_HASHSIZE: u32 = 65536;

/// Default and maximum supported number of entries per managed ipset.
pub const DEFAULT_MAXELEM: u32 = 500000;

/// Default ipset entry timeout; zero means entries do not expire.
pub const DEFAULT_TIMEOUT: u32 = 0;

/// Default timeout for a remote source request.
pub const DEFAULT_REMOTE_TIMEOUT_SECS: u32 = 30;

/// Default age after which an ASN cache is eligible for refresh.
pub const DEFAULT_ASN_CACHE_STALE_AFTER_SECS: u32 = 86400;

/// Whether GitHub metadata networks are included by default.
pub const DEFAULT_INCLUDE_GITHUB_META: bool = true;

/// Default GitHub metadata API endpoint.
pub const DEFAULT_GITHUB_META_URL: &'static str = "https://api.github.com/meta";

/// Maximum accepted remote request timeout.
pub const REMOTE_TIMEOUT_SECS_MAX: u32 = 3600;

/// Maximum accepted ASN cache refresh interval.
pub const ASN_CACHE_STALE_AFTER_SECS_MAX: u32 = 604800;

/// Maximum accepted value of the retired remote cache age setting.
pub const LEGACY_REMOTE_CACHE_STALE_AFTER_SECS_MAX: u32 = 604800;

/// Firewall verdict applied to a matching address.
#[derive(Debug, Clone, Copy, PartialEq, Eq, Structural)]
pub enum FirewallAction {
    /// Silently discard the packet.
    Drop,
    /// Reject the packet with the firewall's standard response.
    Reject,
}

/// GitHub metadata categories included when no explicit category list is configured.
pub const DEFAULT_GITHUB_META_CATEGORIES: [&'static str; 4] = ["api", "git", "hooks", "packages"];

/// Error produced while parsing or validating configuration text.
#[derive(Debug, Clone, PartialEq, Eq)]
pub enum ConfigError {
    /// The input is not valid TOML or does not match the expected schema.
    Parse {
        /// Parser diagnostic suitable for operator-facing error context.
        reason: String,
    },
    /// The required `[ipset]` table is absent.
    MissingIpsetSection,
    /// A known field violates its semantic constraints.
    InvalidField {
        /// Stable configuration field path.
        field: &'static str,
        /// Human-readable validation failure.
        reason: String,
    },
}

/// Contents of a [`ConfigError`].
pub enum ConfigFailure {
    Parse { reason: Seq<char> },
    MissingIpsetSection,
    InvalidField { field: Seq<char>, reason: Seq<char> },
}

impl View for ConfigError {
    type V = ConfigFailure;

    open spec fn view(&self) -> ConfigFailure {
        match self {
            ConfigError::Parse { reason } => ConfigFailure::Parse { reason: reason@ },
            ConfigError::MissingIpsetSection => ConfigFailure::MissingIpsetSection,
            ConfigError::InvalidField { field, reason } => ConfigFailure::InvalidField {
                field: field@,
                reason: reason@,
            },
        }
    }
}

/// Operator-facing text of a configuration failure.
pub open spec fn config_failure_text(failure: ConfigFailure) -> Seq<char> {
    match failure {
        ConfigFailure::Parse { reason } => "failed to parse TOML config: "@ + reason,
        ConfigFailure::MissingIpsetSection => "missing required config section `[ipset]`"@,
        ConfigFailure::InvalidField { field, reason } => "invalid config value for `"@ + field
            + "`: "@ + reason,
    }
}

impl ConfigError {
    /// Operator-facing description.
    pub fn message(&self) -> (text: String)
        ensures
            text@ == config_failure_text(self@),
    {
        match self {
            ConfigError::Parse { reason } => {
                let mut text = "failed to parse TOML config: ".to_owned();
                text.append(reason.as_str());
                text
            },
            ConfigError::MissingIpsetSection => "missing required config section `[ipset]`".to_owned(),
            ConfigError::InvalidField { field, reason } => {
                let mut text = "invalid config value for `".to_owned();
                text.append(field);
                text.append("`: ");
                text.append(reason.as_str());
                text
            },
        }
    }
}

/// A power of two below 2^32.
pub open spec fn power_of_two(value: u32) -> bool {
    exists|k: nat| k < 32 && value == #[trigger] pow2(k)
}

/// Validated, non-zero, power-of-two ipset hash table size.
#[derive(Debug, Clone, Copy, PartialEq, Eq, Structural, Hash, PartialOrd, Ord)]
pub struct HashsizePow2 {
    value: u32,
}

impl View for HashsizePow2 {
    type V = u32;

    closed spec fn view(&self) -> u32 {
        self.value
    }
}

impl HashsizePow2 {
    /// The value is a power of two.
    #[verifier::type_invariant]
    pub open spec fn valid(self) -> bool {
        power_of_two(self@)
    }

    /// Validates a raw hash size.
    ///
    /// Returns `None` for zero or a value that is not a power of two.
    pub fn new(value: u32) -> (size: Option<HashsizePow2>)
        ensures
            size is Some <==> power_of_two(value),
            size matches Some(s) ==> s@ == value,
    {
        let mut power: u64 = 1;
        let mut k: u32 = 0;
        proof {
            lemma2_to64();
        }
        while k < 32
            invariant
                k <= 32,
                power == pow2(k as nat),
                power <= 0x1_0000_0000,
                forall|j: nat| j < k ==> value != #[trigger] pow2(j),
            decreases 32 - k,
        {
            if value as u64 == power {
                return Some(HashsizePow2 { value });
            }
            proof {
                lemma_pow2_unfold((k + 1) as nat);
                lemma2_to64();
                if k + 1 < 32 {
                    lemma_pow2_strictly_increases((k + 1) as nat, 32);
                }
            }
            power = power * 2;
            k += 1;
        }
        None
    }

    /// Returns the validated raw value.
    pub fn get(self) -> (value: u32)
        ensures
            value == self@,
            power_of_two(value),
    {
        proof {
            use_type_invariant(&self);
        }
        self.value
    }
}

impl From<HashsizePow2> for u32 {
    fn from(value: HashsizePow2) -> (raw: u32) {
        value.get()
    }
}

impl vstd::std_specs::convert::FromSpecImpl<HashsizePow2> for u32 {
    open spec fn obeys_from_spec() -> bool {
        true
    }

    open spec fn from_spec(value: HashsizePow2) -> u32 {
        value@
    }
}

/// Validated, non-zero ipset capacity within Kidobo's supported limit.
#[derive(Debug, Clone, Copy, PartialEq, Eq, Structural, Hash, PartialOrd, Ord)]
pub struct MaxElem {
    value: u32,
}

impl View for MaxElem {
    type V = u32;

    closed spec fn view(&self) -> u32 {
        self.value
    }
}

impl MaxElem {
    /// The value is positive and within the limit.
    #[verifier::type_invariant]
    pub open spec fn valid(self) -> bool {
        1 <= self@ <= DEFAULT_MAXELEM
    }

    /// Validates a raw capacity.
    ///
    /// Returns `None` for zero or a value above [`DEFAULT_MAXELEM`].
    pub fn new(value: u32) -> (checked: Option<MaxElem>)
        ensures
            checked is Some <==> 1 <= value <= DEFAULT_MAXELEM,
            checked matches Some(c) ==> c@ == value,
    {
        if value == 0 || value > DEFAULT_MAXELEM {
            return None;
        }
        Some(MaxElem { value })
    }

    /// Returns the validated raw value.
    pub fn get(self) -> (value: u32)
        ensures
            value == self@,
            1 <= value <= DEFAULT_MAXELEM,
    {
        proof {
            use_type_invariant(&self);
        }
        self.value
    }

    /// Checks a configured integer against the limits of the type.
    pub fn bounded_field(value: i64, field: &'static str) -> (checked: Result<MaxElem, ConfigError>)
        ensures
            (match checked {
                Ok(c) => Ok(c@),
                Err(e) => Err(e@),
            }) == bounded(value as int, field@, 1, DEFAULT_MAXELEM),
    {
        match bounded_u32(value, field, 1, DEFAULT_MAXELEM) {
            Ok(v) => Ok(MaxElem { value: v }),
            Err(error) => Err(error),
        }
    }
}

impl From<MaxElem> for u32 {
    fn from(value: MaxElem) -> (raw: u32) {
        value.get()
    }
}

impl vstd::std_specs::convert::FromSpecImpl<MaxElem> for u32 {
    open spec fn obeys_from_spec() -> bool {
        true
    }

    open spec fn from_spec(value: MaxElem) -> u32 {
        value@
    }
}

/// Validated, non-zero remote request timeout in seconds.
#[derive(Debug, Clone, Copy, PartialEq, Eq, Structural, Hash, PartialOrd, Ord)]
pub struct RemoteTimeoutSecs {
    value: u32,
}

impl View for RemoteTimeoutSecs {
    type V = u32;

    closed spec fn view(&self) -> u32 {
        self.value
    }
}

impl RemoteTimeoutSecs {
    /// The value is positive and within the limit.
    #[verifier::type_invariant]
    pub open spec fn valid(self) -> bool {
        1 <= self@ <= REMOTE_TIMEOUT_SECS_MAX
    }

    /// Validates a raw timeout.
    ///
    /// Returns `None` for zero or a value above [`REMOTE_TIMEOUT_SECS_MAX`].
    pub fn new(value: u32) -> (checked: Option<RemoteTimeoutSecs>)
        ensures
            checked is Some <==> 1 <= value <= REMOTE_TIMEOUT_SECS_MAX,
            checked matches Some(c) ==> c@ == value,
    {
        if value == 0 || value > REMOTE_TIMEOUT_SECS_MAX {
            return None;
        }
        Some(RemoteTimeoutSecs { value })
    }

    /// Returns the validated timeout in seconds.
    pub fn get(self) -> (value: u32)
        ensures
            value == self@,
            1 <= value <= REMOTE_TIMEOUT_SECS_MAX,
    {
        proof {
            use_type_invariant(&self);
        }
        self.value
    }

    /// Checks a configured integer against the limits of the type.
    pub fn bounded_field(value: i64, field: &'static str) -> (checked: Result<RemoteTimeoutSecs, ConfigError>)
        ensures
            (match checked {
                Ok(c) => Ok(c@),
                Err(e) => Err(e@),
            }) == bounded(value as int, field@, 1, REMOTE_TIMEOUT_SECS_MAX),
    {
        match bounded_u32(value, field, 1, REMOTE_TIMEOUT_SECS_MAX) {
            Ok(v) => Ok(RemoteTimeoutSecs { value: v }),
            Err(error) => Err(error),
        }
    }
}

impl From<RemoteTimeoutSecs> for u32 {
    fn from(value: RemoteTimeoutSecs) -> (raw: u32) {
        value.get()
    }
}

impl vstd::std_specs::convert::FromSpecImpl<RemoteTimeoutSecs> for u32 {
    open spec fn obeys_from_spec() -> bool {
        true
    }

    open spec fn from_spec(value: RemoteTimeoutSecs) -> u32 {
        value@
    }
}

/// Validated, non-zero ASN cache refresh interval in seconds.
#[derive(Debug, Clone, Copy, PartialEq, Eq, Structural, Hash, PartialOrd, Ord)]
pub struct AsnCacheStaleAfterSecs {
    value: u32,
}

impl View for AsnCacheStaleAfterSecs {
    type V = u32;

    closed spec fn view(&self) -> u32 {
        self.value
    }
}

impl AsnCacheStaleAfterSecs {
    /// The value is positive and within the limit.
    #[verifier::type_invariant]
    pub open spec fn valid(self) -> bool {
        1 <= self@ <= ASN_CACHE_STALE_AFTER_SECS_MAX
    }

    /// Validates a raw refresh interval.
    ///
    /// Returns `None` for zero or a value above [`ASN_CACHE_STALE_AFTER_SECS_MAX`].
    pub fn new(value: u32) -> (checked: Option<AsnCacheStaleAfterSecs>)
        ensures
            checked is Some <==> 1 <= value <= ASN_CACHE_STALE_AFTER_SECS_MAX,
            checked matches Some(c) ==> c@ == value,
    {
        if value == 0 || value > ASN_CACHE_STALE_AFTER_SECS_MAX {
            return None;
        }
        Some(AsnCacheStaleAfterSecs { value })
    }

    /// Returns the validated refresh interval in seconds.
    pub fn get(self) -> (value: u32)
        ensures
            value == self@,
            1 <= value <= ASN_CACHE_STALE_AFTER_SECS_MAX,
    {
        proof {
            use_type_invariant(&self);
        }
        self.value
    }

    /// Checks a configured integer against the limits of the type.
    pub fn bounded_field(value: i64, field: &'static str) -> (checked: Result<AsnCacheStaleAfterSecs, ConfigError>)
        ensures
            (match checked {
                Ok(c) => Ok(c@),
                Err(e) => Err(e@),
            }) == bounded(value as int, field@, 1, ASN_CACHE_STALE_AFTER_SECS_MAX),
    {
        match bounded_u32(value, field, 1, ASN_CACHE_STALE_AFTER_SECS_MAX) {
            Ok(v) => Ok(AsnCacheStaleAfterSecs { value: v }),
            Err(error) => Err(error),
        }
    }
}

impl From<AsnCacheStaleAfterSecs> for u32 {
    fn from(value: AsnCacheStaleAfterSecs) -> (raw: u32) {
        value.get()
    }
}

impl vstd::std_specs::convert::FromSpecImpl<AsnCacheStaleAfterSecs> for u32 {
    open spec fn obeys_from_spec() -> bool {
        true
    }

    open spec fn from_spec(value: AsnCacheStaleAfterSecs) -> u32 {
        value@
    }
}

/// Complete validated Kidobo configuration.
#[derive(Debug, Clone, PartialEq, Eq)]
pub struct Config {
    /// Managed ipset and firewall settings.
    pub ipset: IpsetConfig,
    /// Networks carved out of the effective blocklist.
    pub safe: SafeConfig,
    /// Remote blocklist source settings.
    pub remote: RemoteConfig,
    /// ASN source and cache settings.
    pub asn: AsnConfig,
}

/// Managed ipset and firewall settings.
#[derive(Debug, Clone, PartialEq, Eq)]
pub struct IpsetConfig {
    /// IPv4 ipset name.
    pub set_name: String,
    /// IPv6 ipset name.
    pub set_name_v6: String,
    /// Whether IPv6 enforcement is enabled.
    pub enable_ipv6: bool,
    /// Firewall action applied to set matches.
    pub chain_action: FirewallAction,
    /// Kernel ipset type, currently constrained to the supported network type.
    pub set_type: String,
    /// Initial ipset hash table size.
    pub hashsize: HashsizePow2,
    /// Maximum number of entries in each managed set.
    pub maxelem: MaxElem,
    /// Kernel timeout assigned to entries; zero disables expiry.
    pub timeout: u32,
}

/// Safelist and GitHub metadata configuration.
#[derive(Debug, Clone, PartialEq, Eq)]
pub struct SafeConfig {
    /// Explicit CIDRs that must be removed from effective blocklists.
    pub ips: Vec<CanonicalCidr>,
    /// Whether GitHub metadata CIDRs participate in safelisting.
    pub include_github_meta: bool,
    /// Configured GitHub metadata endpoint.
    pub github_meta_url: String,
    /// Category selection; `None` uses defaults and an empty list selects all categories.
    pub github_meta_categories: Option<Vec<String>>,
}

/// Remote blocklist configuration.
#[derive(Debug, Clone, PartialEq, Eq)]
pub struct RemoteConfig {
    /// Canonical HTTP or HTTPS source URLs in configured order: the form stored of each is its
    /// configured text without the whitespace around it.
    pub urls: Vec<String>,
    /// Per-request timeout.
    pub timeout_secs: RemoteTimeoutSecs,
}

/// Autonomous-system blocklist configuration.
#[derive(Debug, Clone, PartialEq, Eq)]
pub struct AsnConfig {
    /// Sorted, unique autonomous-system numbers to block.
    pub banned: Vec<u32>,
    /// Age after which cached ASN prefixes should be refreshed.
    pub cache_stale_after_secs: AsnCacheStaleAfterSecs,
}

/// Interpreted GitHub metadata category selection.
#[derive(Debug, Clone, PartialEq, Eq)]
pub enum GithubMetaCategoryMode {
    /// Use Kidobo's documented default category set.
    Default,
    /// Accept every network category returned by the endpoint.
    All,
    /// Accept only the listed category names.
    Explicit(Vec<String>),
}

/// Contents of a [`GithubMetaCategoryMode`].
pub enum CategoryModel {
    Default,
    All,
    Explicit(Seq<Seq<char>>),
}

impl View for GithubMetaCategoryMode {
    type V = CategoryModel;

    open spec fn view(&self) -> CategoryModel {
        match self {
            GithubMetaCategoryMode::Default => CategoryModel::Default,
            GithubMetaCategoryMode::All => CategoryModel::All,
            GithubMetaCategoryMode::Explicit(values) => CategoryModel::Explicit(views(values@)),
        }
    }
}

/// Copies strings.
pub fn copy_strings(values: &Vec<String>) -> (copy: Vec<String>)
    ensures
        views(copy@) == views(values@),
{
    let mut copy: Vec<String> = Vec::with_capacity(values.len());
    let mut i: usize = 0;
    while i < values.len()
        invariant
            i <= values@.len(),
            copy@.len() == i,
            forall|k: int| 0 <= k < i ==> (#[trigger] copy@[k])@ == values@[k]@,
        decreases values@.len() - i,
    {
        copy.push(values[i].clone());
        i += 1;
    }
    assert(views(copy@) =~= views(values@));
    copy
}

impl SafeConfig {
    /// Resolves the compatibility-sensitive optional category representation.
    pub fn github_meta_category_mode(&self) -> (mode: GithubMetaCategoryMode)
        ensures
            mode@ == (match self.github_meta_categories {
                None => CategoryModel::Default,
                Some(values) => if values@.len() == 0 {
                    CategoryModel::All
                } else {
                    CategoryModel::Explicit(views(values@))
                },
            }),
    {
        match &self.github_meta_categories {
            None => GithubMetaCategoryMode::Default,
            Some(values) => if values.len() == 0 {
                GithubMetaCategoryMode::All
            } else {
                GithubMetaCategoryMode::Explicit(copy_strings(values))
            },
        }
    }
}

/// Configuration as written: every field may be absent.
#[derive(Debug)]
pub struct RawConfig {
    pub ipset: Option<RawIpsetConfig>,
    pub safe: Option<RawSafeConfig>,
    pub remote: Option<RawRemoteConfig>,
    pub asn: Option<RawAsnConfig>,
}

/// `[ipset]` table as written.
#[derive(Debug)]
pub struct RawIpsetConfig {
    pub set_name: Option<String>,
    pub set_name_v6: Option<String>,
    pub enable_ipv6: Option<bool>,
    pub chain_action: Option<String>,
    pub set_type: Option<String>,
    pub hashsize: Option<i64>,
    pub maxelem: Option<i64>,
    pub timeout: Option<i64>,
}

/// `[safe]` table as written.
#[derive(Debug)]
pub struct RawSafeConfig {
    pub ips: Option<Vec<String>>,
    pub include_github_meta: Option<bool>,
    pub github_meta_url: Option<String>,
    pub github_meta_categories: Option<Vec<String>>,
}

/// `[remote]` table as written.
#[derive(Debug)]
pub struct RawRemoteConfig {
    pub urls: Option<Vec<String>>,
    pub timeout_secs: Option<i64>,
    pub cache_stale_after_secs: Option<i64>,
}

/// `[asn]` table as written.
#[derive(Debug)]
pub struct RawAsnConfig {
    pub banned: Option<Vec<i64>>,
    pub cache_stale_after_secs: Option<i64>,
}

impl Default for RawSafeConfig {
    fn default() -> (raw: RawSafeConfig)
        ensures
            raw == empty_safe(),
    {
        RawSafeConfig {
            ips: None,
            include_github_meta: None,
            github_meta_url: None,
            github_meta_categories: None,
        }
    }
}

impl Default for RawRemoteConfig {
    fn default() -> (raw: RawRemoteConfig)
        ensures
            raw == empty_remote(),
    {
        RawRemoteConfig { urls: None, timeout_secs: None, cache_stale_after_secs: None }
    }
}

impl Default for RawAsnConfig {
    fn default() -> (raw: RawAsnConfig)
        ensures
            raw == empty_asn(),
    {
        RawAsnConfig { banned: None, cache_stale_after_secs: None }
    }
}

/// A `[safe]` table without fields.
pub open spec fn empty_safe() -> RawSafeConfig {
    RawSafeConfig {
        ips: None,
        include_github_meta: None,
        github_meta_url: None,
        github_meta_categories: None,
    }
}

/// A `[remote]` table without fields.
pub open spec fn empty_remote() -> RawRemoteConfig {
    RawRemoteConfig { urls: None, timeout_secs: None, cache_stale_after_secs: None }
}

/// An `[asn]` table without fields.
pub open spec fn empty_asn() -> RawAsnConfig {
    RawAsnConfig { banned: None, cache_stale_after_secs: None }
}

/// Contents of an [`IpsetConfig`].
pub struct IpsetModel {
    pub set_name: Seq<char>,
    pub set_name_v6: Seq<char>,
    pub enable_ipv6: bool,
    pub chain_action: FirewallAction,
    pub set_type: Seq<char>,
    pub hashsize: u32,
    pub maxelem: u32,
    pub timeout: u32,
}

impl View for IpsetConfig {
    type V = IpsetModel;

    open spec fn view(&self) -> IpsetModel {
        IpsetModel {
            set_name: self.set_name@,
            set_name_v6: self.set_name_v6@,
            enable_ipv6: self.enable_ipv6,
            chain_action: self.chain_action,
            set_type: self.set_type@,
            hashsize: self.hashsize@,
            maxelem: self.maxelem@,
            timeout: self.timeout,
        }
    }
}

/// Contents of a [`SafeConfig`].
pub struct SafeModel {
    pub ips: Seq<CidrModel>,
    pub include_github_meta: bool,
    pub github_meta_url: Seq<char>,
    pub github_meta_categories: Option<Seq<Seq<char>>>,
}

impl View for SafeConfig {
    type V = SafeModel;

    open spec fn view(&self) -> SafeModel {
        SafeModel {
            ips: models(self.ips@),
            include_github_meta: self.include_github_meta,
            github_meta_url: self.github_meta_url@,
            github_meta_categories: match self.github_meta_categories {
                Some(values) => Some(views(values@)),
                None => None,
            },
        }
    }
}

/// Contents of a [`RemoteConfig`].
pub struct RemoteModel {
    pub urls: Seq<Seq<char>>,
    pub timeout_secs: u32,
}

impl View for RemoteConfig {
    type V = RemoteModel;

    open spec fn view(&self) -> RemoteModel {
        RemoteModel { urls: views(self.urls@), timeout_secs: self.timeout_secs@ }
    }
}

/// Numbers in strictly ascending order.
pub open spec fn ascending_numbers(values: Seq<u32>) -> bool {
    forall|i: int, j: int|
        0 <= i < j < values.len() ==> #[trigger] values[i] < #[trigger] values[j]
}

/// The optional integer, or a default.
pub open spec fn or_default(value: Option<i64>, default: u32) -> int {
    match value {
        Some(v) => v as int,
        None => default as int,
    }
}

fn integer_or(value: Option<i64>, default: u32) -> (v: i64)
    ensures
        v == or_default(value, default),
{
    match value {
        Some(v) => v,
        None => default as i64,
    }
}

/// IPv6 set name: the configured one, or the IPv4 name with a suffix, which is only checked where
/// IPv6 is enabled.
pub open spec fn v6_name_rule(
    configured: Option<Seq<char>>,
    set_name: Seq<char>,
    enable_ipv6: bool,
) -> Result<Seq<char>, ConfigFailure> {
    let name = match configured {
        Some(value) => match field_text(value, "ipset.set_name_v6"@) {
            Ok(text) => match set_name_rule(text, "ipset.set_name_v6"@) {
                Ok(_) => Ok(text),
                Err(e) => Err(e),
            },
            Err(e) => Err(e),
        },
        None => {
            let derived = set_name + "-v6"@;
            if enable_ipv6 {
                match set_name_rule(derived, "ipset.set_name_v6"@) {
                    Ok(_) => Ok(derived),
                    Err(e) => Err(e),
                }
            } else {
                Ok(derived)
            }
        },
    };
    match name {
        Ok(text) => if text == set_name {
            Err(invalid("ipset.set_name_v6"@, "must differ from ipset.set_name"@))
        } else {
            Ok(text)
        },
        Err(e) => Err(e),
    }
}

/// Set type: the configured one, or the default.
pub open spec fn configured_type_rule(configured: Option<Seq<char>>) -> Result<
    Seq<char>,
    ConfigFailure,
> {
    match configured {
        None => Ok(DEFAULT_IPSET_TYPE@),
        Some(value) => match field_text(value, "ipset.set_type"@) {
            Ok(text) => match set_type_rule(text) {
                Ok(_) => Ok(text),
                Err(e) => Err(e),
            },
            Err(e) => Err(e),
        },
    }
}

/// Hash size: in range, then a power of two.
pub open spec fn hashsize_rule(value: int) -> Result<u32, ConfigFailure> {
    match bounded(value, "ipset.hashsize"@, 1, u32::MAX) {
        Ok(v) => if power_of_two(v) {
            Ok(v)
        } else {
            Err(invalid("ipset.hashsize"@, "must be a power-of-two positive integer"@))
        },
        Err(e) => Err(e),
    }
}

/// `[ipset]` rules, in the order in which they are checked.
pub open spec fn ipset_rule(raw: RawIpsetConfig) -> Result<IpsetModel, ConfigFailure> {
    let enable_ipv6 = match raw.enable_ipv6 {
        Some(flag) => flag,
        None => true,
    };
    match required_text(optional_text(raw.set_name), "ipset.set_name"@) {
        Err(e) => Err(e),
        Ok(set_name) => match set_name_rule(set_name, "ipset.set_name"@) {
            Err(e) => Err(e),
            Ok(_) => match v6_name_rule(optional_text(raw.set_name_v6), set_name, enable_ipv6) {
                Err(e) => Err(e),
                Ok(set_name_v6) => match chain_action_rule(optional_text(raw.chain_action)) {
                    Err(e) => Err(e),
                    Ok(chain_action) => match configured_type_rule(optional_text(raw.set_type)) {
                        Err(e) => Err(e),
                        Ok(set_type) => match hashsize_rule(
                            or_default(raw.hashsize, DEFAULT_HASHSIZE),
                        ) {
                            Err(e) => Err(e),
                            Ok(hashsize) => match bounded(
                                or_default(raw.maxelem, DEFAULT_MAXELEM),
                                "ipset.maxelem"@,
                                1,
                                DEFAULT_MAXELEM,
                            ) {
                                Err(e) => Err(e),
                                Ok(maxelem) => match bounded(
                                    or_default(raw.timeout, DEFAULT_TIMEOUT),
                                    "ipset.timeout"@,
                                    0,
                                    u32::MAX,
                                ) {
                                    Err(e) => Err(e),
                                    Ok(timeout) => Ok(
                                        IpsetModel {
                                            set_name,
                                            set_name_v6,
                                            enable_ipv6,
                                            chain_action,
                                            set_type,
                                            hashsize,
                                            maxelem,
                                            timeout,
                                        },
                                    ),
                                },
                            },
                        },
                    },
                },
            },
        },
    }
}

/// Result of parsing an `[ipset]` table.
pub open spec fn ipset_result(result: Result<IpsetConfig, ConfigError>) -> Result<
    IpsetModel,
    ConfigFailure,
> {
    match result {
        Ok(config) => Ok(config@),
        Err(error) => Err(error@),
    }
}

fn parse_v6_name(configured: &Option<String>, set_name: &String, enable_ipv6: bool) -> (name: Result<
    String,
    ConfigError,
>)
    ensures
        text_result(name) == v6_name_rule(optional_text(*configured), set_name@, enable_ipv6),
{
    let name: String = match configured {
        Some(value) => {
            let text: String = match non_empty(value.as_str(), "ipset.set_name_v6") {
                Ok(text) => text,
                Err(error) => {
                    return Err(error);
                },
            };
            match validate_ipset_set_name(text.as_str(), "ipset.set_name_v6") {
                Ok(_) => {},
                Err(error) => {
                    return Err(error);
                },
            }
            text
        },
        None => {
            let mut derived: String = set_name.clone();
            derived.append("-v6");
            if enable_ipv6 {
                match validate_ipset_set_name(derived.as_str(), "ipset.set_name_v6") {
                    Ok(_) => {},
                    Err(error) => {
                        return Err(error);
                    },
                }
            }
            derived
        },
    };
    if same_text(name.as_str(), set_name.as_str()) {
        return Err(
            ConfigError::InvalidField {
                field: "ipset.set_name_v6",
                reason: "must differ from ipset.set_name".to_owned(),
            },
        );
    }
    Ok(name)
}

fn parse_set_type(configured: &Option<String>) -> (set_type: Result<String, ConfigError>)
    ensures
        text_result(set_type) == configured_type_rule(optional_text(*configured)),
{
    match configured {
        None => Ok(DEFAULT_IPSET_TYPE.to_owned()),
        Some(value) => match non_empty(value.as_str(), "ipset.set_type") {
            Ok(text) => match validate_ipset_set_type(text.as_str()) {
                Ok(_) => Ok(text),
                Err(error) => Err(error),
            },
            Err(error) => Err(error),
        },
    }
}

fn parse_hashsize(value: i64) -> (size: Result<HashsizePow2, ConfigError>)
    ensures
        (match size {
            Ok(s) => Ok(s@),
            Err(e) => Err(e@),
        }) == hashsize_rule(value as int),
{
    match bounded_u32(value, "ipset.hashsize", 1, u32::MAX) {
        Ok(v) => match HashsizePow2::new(v) {
            Some(size) => Ok(size),
            None => Err(
                ConfigError::InvalidField {
                    field: "ipset.hashsize",
                    reason: "must be a power-of-two positive integer".to_owned(),
                },
            ),
        },
        Err(error) => Err(error),
    }
}

/// Parses the `[ipset]` table.
pub fn parse_ipset(raw: RawIpsetConfig) -> (config: Result<IpsetConfig, ConfigError>)
    ensures
        ipset_result(config) == ipset_rule(raw),
{
    let set_name: String = match required_non_empty(&raw.set_name, "ipset.set_name") {
        Ok(text) => text,
        Err(error) => {
            return Err(error);
        },
    };
    match validate_ipset_set_name(set_name.as_str(), "ipset.set_name") {
        Ok(_) => {},
        Err(error) => {
            return Err(error);
        },
    }
    let enable_ipv6: bool = match raw.enable_ipv6 {
        Some(flag) => flag,
        None => true,
    };
    let set_name_v6: String = match parse_v6_name(&raw.set_name_v6, &set_name, enable_ipv6) {
        Ok(text) => text,
        Err(error) => {
            return Err(error);
        },
    };
    let chain_action: FirewallAction = match parse_chain_action(&raw.chain_action) {
        Ok(action) => action,
        Err(error) => {
            return Err(error);
        },
    };
    let set_type: String = match parse_set_type(&raw.set_type) {
        Ok(text) => text,
        Err(error) => {
            return Err(error);
        },
    };
    let hashsize: HashsizePow2 = match parse_hashsize(integer_or(raw.hashsize, DEFAULT_HASHSIZE)) {
        Ok(size) => size,
        Err(error) => {
            return Err(error);
        },
    };
    let maxelem: MaxElem = match MaxElem::bounded_field(
        integer_or(raw.maxelem, DEFAULT_MAXELEM),
        "ipset.maxelem",
    ) {
        Ok(size) => size,
        Err(error) => {
            return Err(error);
        },
    };
    let timeout: u32 = match bounded_u32(
        integer_or(raw.timeout, DEFAULT_TIMEOUT),
        "ipset.timeout",
        0,
        u32::MAX,
    ) {
        Ok(v) => v,
        Err(error) => {
            return Err(error);
        },
    };
    Ok(
        IpsetConfig {
            set_name,
            set_name_v6,
            enable_ipv6,
            chain_action,
            set_type,
            hashsize,
            maxelem,
            timeout,
        },
    )
}

/// Applies a rule to every value; the first failure counts.
pub open spec fn collect<A, B>(
    values: Seq<A>,
    rule: spec_fn(A) -> Result<B, ConfigFailure>,
) -> Result<Seq<B>, ConfigFailure>
    decreases values.len(),
{
    if values.len() == 0 {
        Ok(Seq::empty())
    } else {
        match collect(values.drop_last(), rule) {
            Err(e) => Err(e),
            Ok(front) => match rule(values.last()) {
                Err(e) => Err(e),
                Ok(b) => Ok(front.push(b)),
            },
        }
    }
}

/// A failure among the first values is the failure of all.
pub proof fn lemma_collect_fails<A, B>(
    values: Seq<A>,
    rule: spec_fn(A) -> Result<B, ConfigFailure>,
    i: int,
)
    requires
        0 <= i <= values.len(),
        collect(values.take(i), rule) is Err,
    ensures
        collect(values, rule) == collect(values.take(i), rule),
    decreases values.len() - i,
{
    if i < values.len() {
        assert(values.take(i + 1).drop_last() =~= values.take(i));
        lemma_collect_fails(values, rule, i + 1);
    } else {
        assert(values.take(i) =~= values);
    }
}

/// Safelist entry: not empty, and a single network.
pub open spec fn safe_ip_rule(value: Seq<char>) -> Result<CidrModel, ConfigFailure> {
    match field_text(value, "safe.ips"@) {
        Ok(text) => cidr_rule(text, "safe.ips"@),
        Err(e) => Err(e),
    }
}

/// Text of a URL field: not empty, and an HTTP or HTTPS URL.
pub open spec fn url_text_rule(value: Seq<char>, field: Seq<char>) -> Result<
    Seq<char>,
    ConfigFailure,
> {
    match field_text(value, field) {
        Ok(text) => match http_url_rule(text, field) {
            Ok(_) => Ok(text),
            Err(e) => Err(e),
        },
        Err(e) => Err(e),
    }
}

/// Values of an optional list; none where it is absent.
pub open spec fn optional_texts(values: Option<Vec<String>>) -> Seq<Seq<char>> {
    match values {
        Some(v) => views(v@),
        None => Seq::empty(),
    }
}

/// `[safe]` rules, in the order in which they are checked.
pub open spec fn safe_rule(raw: RawSafeConfig) -> Result<SafeModel, ConfigFailure> {
    match collect(optional_texts(raw.ips), |v: Seq<char>| safe_ip_rule(v)) {
        Err(e) => Err(e),
        Ok(ips) => match (match raw.github_meta_url {
            Some(value) => url_text_rule(value@, "safe.github_meta_url"@),
            None => Ok(DEFAULT_GITHUB_META_URL@),
        }) {
            Err(e) => Err(e),
            Ok(github_meta_url) => match collect(
                optional_texts(raw.github_meta_categories),
                |v: Seq<char>| field_text(v, "safe.github_meta_categories"@),
            ) {
                Err(e) => Err(e),
                Ok(categories) => Ok(
                    SafeModel {
                        ips,
                        include_github_meta: match raw.include_github_meta {
                            Some(flag) => flag,
                            None => DEFAULT_INCLUDE_GITHUB_META,
                        },
                        github_meta_url,
                        github_meta_categories: match raw.github_meta_categories {
                            Some(_) => Some(categories),
                            None => None,
                        },
                    },
                ),
            },
        },
    }
}

fn parse_safe_ips(values: &Vec<String>) -> (ips: Result<Vec<CanonicalCidr>, ConfigError>)
    ensures
        (match ips {
            Ok(v) => Ok(models(v@)),
            Err(e) => Err(e@),
        }) == collect(views(values@), |v: Seq<char>| safe_ip_rule(v)),
{
    let ghost rule = |v: Seq<char>| safe_ip_rule(v);
    let ghost all = views(values@);
    let mut ips: Vec<CanonicalCidr> = Vec::new();
    let mut i: usize = 0;
    assert(models(ips@) =~= Seq::<CidrModel>::empty());
    while i < values.len()
        invariant
            i <= values@.len(),
            all == views(values@),
            rule == (|v: Seq<char>| safe_ip_rule(v)),
            collect(all.take(i as int), rule) == Ok::<Seq<CidrModel>, ConfigFailure>(models(ips@)),
        decreases values@.len() - i,
    {
        let ghost before = ips@;
        proof {
            assert(all.take(i as int + 1).drop_last() =~= all.take(i as int));
            assert(all.take(i as int + 1).last() == values@[i as int]@);
        }
        let text: String = match non_empty(values[i].as_str(), "safe.ips") {
            Ok(text) => text,
            Err(error) => {
                proof {
                    lemma_collect_fails(all, rule, i as int + 1);
                }
                return Err(error);
            },
        };
        match parse_cidr_field_strict(text.as_str(), "safe.ips") {
            Ok(cidr) => {
                ips.push(cidr);
                assert(models(ips@) =~= models(before).push(cidr@));
            },
            Err(error) => {
                proof {
                    lemma_collect_fails(all, rule, i as int + 1);
                }
                return Err(error);
            },
        }
        i += 1;
    }
    assert(all.take(i as int) =~= all);
    Ok(ips)
}

fn parse_url_text(value: &str, field: &'static str) -> (text: Result<String, ConfigError>)
    ensures
        text_result(text) == url_text_rule(value@, field@),
{
    match non_empty(value, field) {
        Ok(text) => match validate_http_url(text.as_str(), field) {
            Ok(_) => Ok(text),
            Err(error) => Err(error),
        },
        Err(error) => Err(error),
    }
}

/// Result of a list of texts.
pub open spec fn texts_result(result: Result<Vec<String>, ConfigError>) -> Result<
    Seq<Seq<char>>,
    ConfigFailure,
> {
    match result {
        Ok(v) => Ok(views(v@)),
        Err(e) => Err(e@),
    }
}

fn parse_categories(values: &Vec<String>) -> (out: Result<Vec<String>, ConfigError>)
    ensures
        texts_result(out) == collect(
            views(values@),
            |v: Seq<char>| field_text(v, "safe.github_meta_categories"@),
        ),
{
    let ghost rule = |v: Seq<char>| field_text(v, "safe.github_meta_categories"@);
    let ghost all = views(values@);
    let mut out: Vec<String> = Vec::new();
    let mut i: usize = 0;
    assert(views(out@) =~= Seq::<Seq<char>>::empty());
    while i < values.len()
        invariant
            i <= values@.len(),
            all == views(values@),
            rule == (|v: Seq<char>| field_text(v, "safe.github_meta_categories"@)),
            collect(all.take(i as int), rule) == Ok::<Seq<Seq<char>>, ConfigFailure>(views(out@)),
        decreases values@.len() - i,
    {
        let ghost before = out@;
        proof {
            assert(all.take(i as int + 1).drop_last() =~= all.take(i as int));
            assert(all.take(i as int + 1).last() == values@[i as int]@);
        }
        match non_empty(values[i].as_str(), "safe.github_meta_categories") {
            Ok(text) => {
                out.push(text);
                assert(views(out@) =~= views(before).push(text@));
            },
            Err(error) => {
                proof {
                    lemma_collect_fails(all, rule, i as int + 1);
                }
                return Err(error);
            },
        }
        i += 1;
    }
    assert(all.take(i as int) =~= all);
    Ok(out)
}

fn parse_remote_urls(values: &Vec<String>) -> (out: Result<Vec<String>, ConfigError>)
    ensures
        texts_result(out) == collect(
            views(values@),
            |v: Seq<char>| url_text_rule(v, "remote.urls"@),
        ),
{
    let ghost rule = |v: Seq<char>| url_text_rule(v, "remote.urls"@);
    let ghost all = views(values@);
    let mut out: Vec<String> = Vec::new();
    let mut i: usize = 0;
    assert(views(out@) =~= Seq::<Seq<char>>::empty());
    while i < values.len()
        invariant
            i <= values@.len(),
            all == views(values@),
            rule == (|v: Seq<char>| url_text_rule(v, "remote.urls"@)),
            collect(all.take(i as int), rule) == Ok::<Seq<Seq<char>>, ConfigFailure>(views(out@)),
        decreases values@.len() - i,
    {
        let ghost before = out@;
        proof {
            assert(all.take(i as int + 1).drop_last() =~= all.take(i as int));
            assert(all.take(i as int + 1).last() == values@[i as int]@);
        }
        match parse_url_text(values[i].as_str(), "remote.urls") {
            Ok(text) => {
                out.push(text);
                assert(views(out@) =~= views(before).push(text@));
            },
            Err(error) => {
                proof {
                    lemma_collect_fails(all, rule, i as int + 1);
                }
                return Err(error);
            },
        }
        i += 1;
    }
    assert(all.take(i as int) =~= all);
    Ok(out)
}

/// Result of parsing a `[safe]` table.
pub open spec fn safe_result(result: Result<SafeConfig, ConfigError>) -> Result<
    SafeModel,
    ConfigFailure,
> {
    match result {
        Ok(config) => Ok(config@),
        Err(error) => Err(error@),
    }
}

/// Parses the `[safe]` table.
pub fn parse_safe(raw: RawSafeConfig) -> (config: Result<SafeConfig, ConfigError>)
    ensures
        safe_result(config) == safe_rule(raw),
{
    let no_values: Vec<String> = Vec::new();
    assert(views(no_values@) =~= Seq::<Seq<char>>::empty());
    let ips: Vec<CanonicalCidr> = match parse_safe_ips(
        match &raw.ips {
            Some(values) => values,
            None => &no_values,
        },
    ) {
        Ok(ips) => ips,
        Err(error) => {
            return Err(error);
        },
    };
    let include_github_meta: bool = match raw.include_github_meta {
        Some(flag) => flag,
        None => DEFAULT_INCLUDE_GITHUB_META,
    };
    let github_meta_url: String = match &raw.github_meta_url {
        Some(value) => match parse_url_text(value.as_str(), "safe.github_meta_url") {
            Ok(text) => text,
            Err(error) => {
                return Err(error);
            },
        },
        None => DEFAULT_GITHUB_META_URL.to_owned(),
    };
    let github_meta_categories: Option<Vec<String>> = match &raw.github_meta_categories {
        Some(values) => match parse_categories(values) {
            Ok(categories) => Some(categories),
            Err(error) => {
                return Err(error);
            },
        },
        None => None,
    };
    Ok(SafeConfig { ips, include_github_meta, github_meta_url, github_meta_categories })
}

/// `[remote]` rules, in the order in which they are checked.
pub open spec fn remote_rule(raw: RawRemoteConfig) -> Result<RemoteModel, ConfigFailure> {
    match collect(optional_texts(raw.urls), |v: Seq<char>| url_text_rule(v, "remote.urls"@)) {
        Err(e) => Err(e),
        Ok(urls) => match bounded(
            or_default(raw.timeout_secs, DEFAULT_REMOTE_TIMEOUT_SECS),
            "remote.timeout_secs"@,
            1,
            REMOTE_TIMEOUT_SECS_MAX,
        ) {
            Err(e) => Err(e),
            Ok(timeout_secs) => match raw.cache_stale_after_secs {
                None => Ok(RemoteModel { urls, timeout_secs }),
                Some(value) => match bounded(
                    value as int,
                    "remote.cache_stale_after_secs"@,
                    1,
                    LEGACY_REMOTE_CACHE_STALE_AFTER_SECS_MAX,
                ) {
                    Err(e) => Err(e),
                    Ok(_) => Ok(RemoteModel { urls, timeout_secs }),
                },
            },
        },
    }
}

/// Result of parsing a `[remote]` table.
pub open spec fn remote_result(result: Result<RemoteConfig, ConfigError>) -> Result<
    RemoteModel,
    ConfigFailure,
> {
    match result {
        Ok(config) => Ok(config@),
        Err(error) => Err(error@),
    }
}

/// Parses the `[remote]` table. The retired cache age setting is checked and dropped.
pub fn parse_remote(raw: RawRemoteConfig) -> (config: Result<RemoteConfig, ConfigError>)
    ensures
        remote_result(config) == remote_rule(raw),
{
    let no_values: Vec<String> = Vec::new();
    assert(views(no_values@) =~= Seq::<Seq<char>>::empty());
    let urls: Vec<String> = match parse_remote_urls(
        match &raw.urls {
            Some(values) => values,
            None => &no_values,
        },
    ) {
        Ok(urls) => urls,
        Err(error) => {
            return Err(error);
        },
    };
    let timeout_secs: RemoteTimeoutSecs = match RemoteTimeoutSecs::bounded_field(
        integer_or(raw.timeout_secs, DEFAULT_REMOTE_TIMEOUT_SECS),
        "remote.timeout_secs",
    ) {
        Ok(secs) => secs,
        Err(error) => {
            return Err(error);
        },
    };
    if let Some(value) = raw.cache_stale_after_secs {
        match bounded_u32(
            value,
            "remote.cache_stale_after_secs",
            1,
            LEGACY_REMOTE_CACHE_STALE_AFTER_SECS_MAX,
        ) {
            Ok(_) => {},
            Err(error) => {
                return Err(error);
            },
        }
    }
    Ok(RemoteConfig { urls, timeout_secs })
}

/// Values of an optional list of integers; none where it is absent.
pub open spec fn optional_numbers(values: Option<Vec<i64>>) -> Seq<i64> {
    match values {
        Some(v) => v@,
        None => Seq::empty(),
    }
}

/// The number may name an autonomous system.
pub open spec fn asn_in_range(value: i64) -> bool {
    1 <= value <= u32::MAX
}

/// `banned` are the numbers of `values`, ascending and once each.
pub open spec fn banned_numbers(values: Seq<i64>, banned: Seq<u32>) -> bool {
    &&& ascending_numbers(banned)
    &&& forall|n: u32| #[trigger] banned.contains(n) <==> values.contains(n as i64)
}

impl Ranked for u32 {
    open spec fn ranked_le(self, other: u32) -> bool {
        self <= other
    }

    proof fn lemma_ranked_total(a: u32, b: u32) {
    }

    proof fn lemma_ranked_transitive(a: u32, b: u32, c: u32) {
    }

    fn precedes(&self, other: &u32) -> (before: bool) {
        *self <= *other
    }
}

fn parse_banned(values: &Vec<i64>) -> (banned: Result<Vec<u32>, ConfigError>)
    ensures
        banned is Ok <==> (forall|i: int| 0 <= i < values@.len() ==> asn_in_range(#[trigger] values@[i])),
        banned matches Ok(b) ==> banned_numbers(values@, b@),
        banned matches Err(e) ==> e@ == invalid("asn.banned"@, range_reason(1, u32::MAX)),
{
    let mut banned: Vec<u32> = Vec::new();
    let mut i: usize = 0;
    while i < values.len()
        invariant
            i <= values@.len(),
            banned@.len() == i,
            forall|k: int|
                0 <= k < i ==> asn_in_range(#[trigger] values@[k]) && banned@[k] == values@[k],
        decreases values@.len() - i,
    {
        match bounded_u32(values[i], "asn.banned", 1, u32::MAX) {
            Ok(v) => banned.push(v),
            Err(error) => {
                assert(!asn_in_range(values@[i as int]));
                return Err(error);
            },
        }
        i += 1;
    }
    let ghost listed = banned@;
    let sorted = sort_stable(banned);
    let ghost ordered = sorted@;
    let unique = dedup_sorted(sorted);
    proof {
        lemma_sorted_members(listed, ordered);
        let u = unique@;
        assert forall|a: int, b: int| 0 <= a < b < u.len() implies #[trigger] u[a]
            < #[trigger] u[b] by {
            assert(!u[b].ranked_le(u[a]));
        }
        assert forall|n: u32| #[trigger] u.contains(n) <==> values@.contains(n as i64) by {
            if u.contains(n) {
                let k = choose|k: int| 0 <= k < u.len() && u[k] == n;
                assert(ordered.contains(u[k]));
                let m = choose|m: int| 0 <= m < ordered.len() && ordered[m] == n;
                assert(listed.contains(ordered[m]));
                let q = choose|q: int| 0 <= q < listed.len() && listed[q] == n;
                assert(values@[q] == n as i64);
            }
            if values@.contains(n as i64) {
                let q = choose|q: int| 0 <= q < values@.len() && values@[q] == n as i64;
                assert(listed[q] == n);
                assert(ordered.contains(listed[q]));
                let m = choose|m: int| 0 <= m < ordered.len() && ordered[m] == n;
                assert(has_tie(u, ordered[m]));
                let r = choose|r: int|
                    0 <= r < u.len() && (#[trigger] u[r]).ranked_le(ordered[m])
                        && ordered[m].ranked_le(u[r]);
                assert(u[r] == n);
            }
        }
    }
    Ok(unique)
}

/// `[asn]` rules: the numbers, then the cache age.
pub open spec fn asn_rule(raw: RawAsnConfig, config: Result<AsnConfig, ConfigError>) -> bool {
    let values = optional_numbers(raw.banned);
    let age = bounded(
        or_default(raw.cache_stale_after_secs, DEFAULT_ASN_CACHE_STALE_AFTER_SECS),
        "asn.cache_stale_after_secs"@,
        1,
        ASN_CACHE_STALE_AFTER_SECS_MAX,
    );
    if exists|i: int| 0 <= i < values.len() && !asn_in_range(#[trigger] values[i]) {
        config matches Err(e) && e@ == invalid("asn.banned"@, range_reason(1, u32::MAX))
    } else {
        match age {
            Err(failure) => config matches Err(e) && e@ == failure,
            Ok(secs) => config matches Ok(c) && banned_numbers(values, c.banned@)
                && c.cache_stale_after_secs@ == secs,
        }
    }
}

/// Parses the `[asn]` table.
pub fn parse_asn(raw: RawAsnConfig) -> (config: Result<AsnConfig, ConfigError>)
    ensures
        asn_rule(raw, config),
{
    let no_values: Vec<i64> = Vec::new();
    assert(no_values@ =~= Seq::<i64>::empty());
    let ghost listed = optional_numbers(raw.banned);
    let values: &Vec<i64> = match &raw.banned {
        Some(values) => values,
        None => &no_values,
    };
    assert(values@ == listed);
    let banned: Vec<u32> = match parse_banned(values) {
        Ok(banned) => banned,
        Err(error) => {
            proof {
                let i = choose|i: int| 0 <= i < values@.len() && !asn_in_range(#[trigger] values@[i]);
                assert(!asn_in_range(listed[i]));
            }
            return Err(error);
        },
    };
    match AsnCacheStaleAfterSecs::bounded_field(
        integer_or(raw.cache_stale_after_secs, DEFAULT_ASN_CACHE_STALE_AFTER_SECS),
        "asn.cache_stale_after_secs",
    ) {
        Ok(secs) => Ok(AsnConfig { banned, cache_stale_after_secs: secs }),
        Err(error) => Err(error),
    }
}

/// Rules of the whole configuration: tables are checked in the order `[ipset]`, `[safe]`,
/// `[remote]`, `[asn]`; absent ones but the first count as empty.
pub open spec fn config_rule(raw: RawConfig, config: Result<Config, ConfigError>) -> bool {
    let safe_raw = match raw.safe {
        Some(table) => table,
        None => empty_safe(),
    };
    let remote_raw = match raw.remote {
        Some(table) => table,
        None => empty_remote(),
    };
    let asn_raw = match raw.asn {
        Some(table) => table,
        None => empty_asn(),
    };
    match raw.ipset {
        None => config matches Err(e) && e@ == ConfigFailure::MissingIpsetSection,
        Some(ipset_raw) => match ipset_rule(ipset_raw) {
            Err(failure) => config matches Err(e) && e@ == failure,
            Ok(ipset) => match safe_rule(safe_raw) {
                Err(failure) => config matches Err(e) && e@ == failure,
                Ok(safe) => match remote_rule(remote_raw) {
                    Err(failure) => config matches Err(e) && e@ == failure,
                    Ok(remote) => match config {
                        Err(e) => asn_rule(asn_raw, Err(e)),
                        Ok(c) => c.ipset@ == ipset && c.safe@ == safe && c.remote@ == remote
                            && asn_rule(asn_raw, Ok(c.asn)),
                    },
                },
            },
        },
    }
}

impl Config {
    /// Validates a configuration as written.
    pub fn from_raw(raw: RawConfig) -> (config: Result<Config, ConfigError>)
        ensures
            config_rule(raw, config),
    {
        let raw_ipset: RawIpsetConfig = match raw.ipset {
            Some(table) => table,
            None => {
                return Err(ConfigError::MissingIpsetSection);
            },
        };
        let ipset: IpsetConfig = match parse_ipset(raw_ipset) {
            Ok(ipset) => ipset,
            Err(error) => {
                return Err(error);
            },
        };
        let raw_safe: RawSafeConfig = match raw.safe {
            Some(table) => table,
            None => RawSafeConfig::default(),
        };
        let safe: SafeConfig = match parse_safe(raw_safe) {
            Ok(safe) => safe,
            Err(error) => {
                return Err(error);
            },
        };
        let raw_remote: RawRemoteConfig = match raw.remote {
            Some(table) => table,
            None => RawRemoteConfig::default(),
        };
        let remote: RemoteConfig = match parse_remote(raw_remote) {
            Ok(remote) => remote,
            Err(error) => {
                return Err(error);
            },
        };
        let raw_asn: RawAsnConfig = match raw.asn {
            Some(table) => table,
            None => RawAsnConfig::default(),
        };
        let asn: AsnConfig = match parse_asn(raw_asn) {
            Ok(asn) => asn,
            Err(error) => {
                return Err(error);
            },
        };
        Ok(Config { ipset, safe, remote, asn })
    }
}

/// Every accepted configuration has two different valid set names (the IPv6 one is checked where
/// IPv6 is enabled), sizes and ages in range, and ascending autonomous-system numbers.
pub proof fn law_accepted_config_is_sound(raw: RawConfig, config: Config)
    requires
        config_rule(raw, Ok(config)),
    ensures
        set_name_rule(config.ipset.set_name@, "ipset.set_name"@) is Ok,
        config.ipset.set_name@ != config.ipset.set_name_v6@,
        config.ipset.enable_ipv6 ==> set_name_rule(
            config.ipset.set_name_v6@,
            "ipset.set_name_v6"@,
        ) is Ok,
        power_of_two(config.ipset.hashsize@),
        1 <= config.ipset.maxelem@ <= DEFAULT_MAXELEM,
        1 <= config.remote.timeout_secs@ <= REMOTE_TIMEOUT_SECS_MAX,
        1 <= config.asn.cache_stale_after_secs@ <= ASN_CACHE_STALE_AFTER_SECS_MAX,
        ascending_numbers(config.asn.banned@),
        forall|n: u32| #[trigger] config.asn.banned@.contains(n) ==> n >= 1,
{
    let asn_raw = match raw.asn {
        Some(table) => table,
        None => empty_asn(),
    };
    let values = optional_numbers(asn_raw.banned);
    assert(asn_rule(asn_raw, Ok(config.asn)));
    assert forall|n: u32| #[trigger] config.asn.banned@.contains(n) implies n >= 1 by {
        assert(values.contains(n as i64));
        let i = choose|i: int| 0 <= i < values.len() && values[i] == n as i64;
        assert(asn_in_range(values[i]));
    }
}

} // verus!
