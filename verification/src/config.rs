//! The configuration: its fields, their defaults, and the checks that it must pass.
//!
//! Networks are read when the configuration is loaded, so a mistake in one shows at the
//! start of the service and not in the answer to some request.

use vstd::prelude::*;
use vstd::string::*;

use crate::address::{any_contains, any_covers, network_of_text, IpAddr, IpNetwork};
use crate::text::{is_white_space, law_trimming_takes_only_the_ends, trim, trimmed, views};

verus! {

/// The configuration as it stands in the file.
#[derive(Debug)]
pub struct Config {
    pub server: ServerConfig,
    pub database: DatabaseConfig,
    pub auth: AuthConfig,
    pub threshold_check: AllowListConfig,
    pub top_n: AllowListConfig,
    pub limits: LimitsConfig,
}

/// Where the service listens.
#[derive(Debug)]
pub struct ServerConfig {
    pub host: String,
    pub port: u16,
}

/// The database that holds the statistics.
#[derive(Debug)]
pub struct DatabaseConfig {
    pub host: String,
    pub port: u16,
    pub name: String,
    pub user: String,
    pub password: String,
    pub max_connections: u32,
}

/// The API keys, and the proxies whose word on the source of a request counts.
#[derive(Debug)]
pub struct AuthConfig {
    pub keys: Vec<ApiKeyConfig>,
    pub trusted_proxies: Vec<String>,
}

/// An API key and the name that the log knows it by.
#[derive(Debug)]
pub struct ApiKeyConfig {
    pub name: String,
    pub key: String,
}

/// The sources that may use an endpoint which lists addresses.
#[derive(Debug)]
pub struct AllowListConfig {
    pub allowed_ips: Vec<String>,
}

/// Limits on requests.
#[derive(Debug)]
pub struct LimitsConfig {
    pub max_ips_per_request: usize,
    pub distribution_max_age_days: i64,
    pub top_n_default_limit: usize,
    pub top_n_max_limit: usize,
}

/// The number of database connections where none is configured.
pub fn default_max_connections() -> (n: u32)
    ensures
        n == 5,
{
    5
}

/// The number of addresses in a request where none is configured.
pub fn default_max_ips() -> (n: usize)
    ensures
        n == 50,
{
    50
}

/// The age of the oldest five-minute statistics, in days, where none is configured.
pub fn default_max_age_days() -> (n: i64)
    ensures
        n == 395,
{
    395
}

/// The length of a ranking where neither the request nor the configuration gives one.
pub fn default_top_n_limit() -> (n: usize)
    ensures
        n == 20,
{
    20
}

/// The greatest length of a ranking where none is configured.
pub fn default_top_n_max_limit() -> (n: usize)
    ensures
        n == 500,
{
    500
}

impl Default for LimitsConfig {
    fn default() -> (limits: Self)
        ensures
            limits.max_ips_per_request == 50,
            limits.distribution_max_age_days == 395,
            limits.top_n_default_limit == 20,
            limits.top_n_max_limit == 500,
    {
        Self {
            max_ips_per_request: default_max_ips(),
            distribution_max_age_days: default_max_age_days(),
            top_n_default_limit: default_top_n_limit(),
            top_n_max_limit: default_top_n_max_limit(),
        }
    }
}

impl Default for AllowListConfig {
    fn default() -> (list: Self)
        ensures
            list.allowed_ips@.len() == 0,
    {
        Self { allowed_ips: Vec::new() }
    }
}

/// What is wrong with a configuration.
#[derive(Debug)]
pub enum ConfigError {
    /// There is no file at the path.
    NotFound { path: String },
    /// The file cannot be read.
    Read { path: String, cause: String },
    /// The file is not a configuration.
    Parse(String),
    /// There is no API key.
    NoApiKeys,
    /// The API key of this name is empty.
    EmptyApiKey(String),
    /// An entry of a list of networks is none.
    BadNetwork { field: String, value: String },
}

/// The mathematical value of a [`ConfigError`].
pub enum ConfigErrorView {
    NotFound { path: Seq<char> },
    Read { path: Seq<char>, cause: Seq<char> },
    Parse(Seq<char>),
    NoApiKeys,
    EmptyApiKey(Seq<char>),
    BadNetwork { field: Seq<char>, value: Seq<char> },
}

impl View for ConfigError {
    type V = ConfigErrorView;

    open spec fn view(&self) -> ConfigErrorView {
        match self {
            ConfigError::NotFound { path } => ConfigErrorView::NotFound { path: path@ },
            ConfigError::Read { path, cause } => ConfigErrorView::Read {
                path: path@,
                cause: cause@,
            },
            ConfigError::Parse(cause) => ConfigErrorView::Parse(cause@),
            ConfigError::NoApiKeys => ConfigErrorView::NoApiKeys,
            ConfigError::EmptyApiKey(name) => ConfigErrorView::EmptyApiKey(name@),
            ConfigError::BadNetwork { field, value } => ConfigErrorView::BadNetwork {
                field: field@,
                value: value@,
            },
        }
    }
}

impl ConfigErrorView {
    /// What the error says.
    pub open spec fn message(self) -> Seq<char> {
        match self {
            ConfigErrorView::NotFound { path } => "config file not found: "@ + path,
            ConfigErrorView::Read { path, .. } => "cannot read config file "@ + path,
            ConfigErrorView::Parse(cause) => "invalid config file syntax: "@ + cause,
            ConfigErrorView::NoApiKeys =>
                "auth.keys must not be empty; at least one API key is required"@,
            ConfigErrorView::EmptyApiKey(name) => "API key \""@ + name
                + "\" has an empty key field"@,
            ConfigErrorView::BadNetwork { field, value } => field + ": \""@ + value
                + "\" is not a valid IP address or CIDR"@,
        }
    }

    /// What lies behind the error, where something does.
    pub open spec fn cause(self) -> Option<Seq<char>> {
        match self {
            ConfigErrorView::Read { cause, .. } => Some(cause),
            ConfigErrorView::Parse(cause) => Some(cause),
            _ => None,
        }
    }
}

impl ConfigError {
    /// What the error says.
    pub fn message(&self) -> (out: String)
        ensures
            out@ == self@.message(),
            match self {
                ConfigError::NotFound { path } => out@ == "config file not found: "@ + path@,
                ConfigError::Read { path, .. } => out@ == "cannot read config file "@ + path@,
                ConfigError::Parse(cause) => out@ == "invalid config file syntax: "@ + cause@,
                ConfigError::NoApiKeys => out@
                    == "auth.keys must not be empty; at least one API key is required"@,
                ConfigError::EmptyApiKey(name) => out@ == "API key \""@ + name@
                    + "\" has an empty key field"@,
                ConfigError::BadNetwork { field, value } => out@ == field@ + ": \""@ + value@
                    + "\" is not a valid IP address or CIDR"@,
            },
    {
        match self {
            ConfigError::NotFound { path } => {
                let mut out = "config file not found: ".to_owned();
                out.append(path.as_str());
                out
            },
            ConfigError::Read { path, .. } => {
                let mut out = "cannot read config file ".to_owned();
                out.append(path.as_str());
                out
            },
            ConfigError::Parse(cause) => {
                let mut out = "invalid config file syntax: ".to_owned();
                out.append(cause.as_str());
                out
            },
            ConfigError::NoApiKeys =>
                "auth.keys must not be empty; at least one API key is required".to_owned(),
            ConfigError::EmptyApiKey(name) => {
                let mut out = "API key \"".to_owned();
                out.append(name.as_str());
                out.append("\" has an empty key field");
                out
            },
            ConfigError::BadNetwork { field, value } => {
                let mut out = field.clone();
                out.append(": \"");
                out.append(value.as_str());
                out.append("\" is not a valid IP address or CIDR");
                out
            },
        }
    }

    /// What lies behind the error, where something does.
    pub fn cause(&self) -> (out: Option<String>)
        ensures
            out is Some <==> self@.cause() is Some,
            out matches Some(cause) ==> self@.cause() == Some(cause@),
            match self {
                ConfigError::Read { cause, .. } => out is Some && out->0@ == cause@,
                ConfigError::Parse(cause) => out is Some && out->0@ == cause@,
                _ => out is None,
            },
    {
        match self {
            ConfigError::Read { cause, .. } => Some(cause.clone()),
            ConfigError::Parse(cause) => Some(cause.clone()),
            _ => None,
        }
    }
}

/// The value of an error is its variant and its texts.
pub proof fn law_config_error_is_its_variant_and_texts(err: ConfigError)
    ensures
        match err {
            ConfigError::NotFound { path } => err@ == (ConfigErrorView::NotFound { path: path@ }),
            ConfigError::Read { path, cause } => err@ == (ConfigErrorView::Read {
                path: path@,
                cause: cause@,
            }),
            ConfigError::Parse(cause) => err@ == ConfigErrorView::Parse(cause@),
            ConfigError::NoApiKeys => err@ == ConfigErrorView::NoApiKeys,
            ConfigError::EmptyApiKey(name) => err@ == ConfigErrorView::EmptyApiKey(name@),
            ConfigError::BadNetwork { field, value } => err@ == (ConfigErrorView::BadNetwork {
                field: field@,
                value: value@,
            }),
        },
{
}

/// The network that an entry of a list spells, white space around it aside.
pub open spec fn entry_network(entry: Seq<char>) -> Option<IpNetwork> {
    network_of_text(trimmed(entry))
}

/// The first entry that spells no network.
pub open spec fn first_bad_entry(raw: Seq<Seq<char>>) -> Option<Seq<char>>
    decreases raw.len(),
{
    if raw.len() == 0 {
        None
    } else if entry_network(raw[0]) is None {
        Some(trimmed(raw[0]))
    } else {
        first_bad_entry(raw.drop_first())
    }
}

/// `nets` are the networks that the entries of `raw` spell, in their order.
pub open spec fn spelled_by(nets: Seq<IpNetwork>, raw: Seq<Seq<char>>) -> bool {
    &&& nets.len() == raw.len()
    &&& forall|i: int| 0 <= i < nets.len() ==> entry_network(raw[i]) == Some(#[trigger] nets[i])
}

/// All of `nets` are networks.
pub open spec fn all_wf(nets: Seq<IpNetwork>) -> bool {
    forall|i: int| 0 <= i < nets.len() ==> (#[trigger] nets[i]).wf()
}

/// A list has no bad entry exactly where each of its entries spells a network.
pub proof fn law_no_bad_entry(raw: Seq<Seq<char>>)
    ensures
        first_bad_entry(raw) is None <==> forall|i: int|
            0 <= i < raw.len() ==> entry_network(#[trigger] raw[i]) is Some,
    decreases raw.len(),
{
    if raw.len() > 0 {
        let rest = raw.drop_first();
        law_no_bad_entry(rest);
        if first_bad_entry(raw) is None {
            assert forall|i: int| 0 <= i < raw.len() implies entry_network(
                #[trigger] raw[i],
            ) is Some by {
                if i > 0 {
                    assert(rest[i - 1] == raw[i]);
                }
            }
        } else if forall|i: int| 0 <= i < raw.len() ==> entry_network(#[trigger] raw[i]) is Some {
            assert forall|i: int| 0 <= i < rest.len() implies entry_network(
                #[trigger] rest[i],
            ) is Some by {
                assert(rest[i] == raw[i + 1]);
            }
            assert(entry_network(raw[0]) is Some);
        }
    }
}

/// The bad entry of a list is the first that spells no network, without the white space around
/// it: all before it spell one.
pub proof fn law_bad_entry_is_the_first(raw: Seq<Seq<char>>)
    ensures
        first_bad_entry(raw) matches Some(value) ==> exists|i: int|
            0 <= i < raw.len() && network_of_text(trimmed(#[trigger] raw[i])) is None && value
                == trimmed(raw[i]) && forall|j: int|
                0 <= j < i ==> network_of_text(trimmed(#[trigger] raw[j])) is Some,
        first_bad_entry(raw) is None ==> forall|i: int|
            0 <= i < raw.len() ==> network_of_text(trimmed(#[trigger] raw[i])) is Some,
    decreases raw.len(),
{
    law_no_bad_entry(raw);
    if raw.len() > 0 {
        let rest = raw.drop_first();
        law_bad_entry_is_the_first(rest);
        if entry_network(raw[0]) is Some && first_bad_entry(raw) is Some {
            let value = first_bad_entry(rest)->0;
            let i = choose|i: int|
                0 <= i < rest.len() && network_of_text(trimmed(#[trigger] rest[i])) is None
                    && value == trimmed(rest[i]) && forall|j: int|
                    0 <= j < i ==> network_of_text(trimmed(#[trigger] rest[j])) is Some;
            assert(rest[i] == raw[i + 1]);
            assert forall|j: int| 0 <= j < i + 1 implies network_of_text(
                trimmed(#[trigger] raw[j]),
            ) is Some by {
                if j > 0 {
                    assert(rest[j - 1] == raw[j]);
                }
            }
        }
    }
}

/// The networks of a list are those of its entries, one for each and in their order, read
/// without the white space around them.
pub proof fn law_networks_are_those_of_the_entries(nets: Seq<IpNetwork>, raw: Seq<Seq<char>>)
    ensures
        spelled_by(nets, raw) <==> nets.len() == raw.len() && forall|i: int|
            0 <= i < raw.len() ==> network_of_text(trimmed(#[trigger] raw[i])) == Some(nets[i]),
{
    if nets.len() == raw.len() {
        if spelled_by(nets, raw) {
            assert forall|i: int| 0 <= i < raw.len() implies network_of_text(
                trimmed(#[trigger] raw[i]),
            ) == Some(nets[i]) by {
                assert(entry_network(raw[i]) == Some(nets[i]));
            }
        } else {
            let i = choose|i: int|
                0 <= i < nets.len() && entry_network(raw[i]) != Some(#[trigger] nets[i]);
            assert(network_of_text(trimmed(raw[i])) != Some(nets[i]));
        }
    }
}

/// The networks that the entries of a list spell. A bare address stands for the network of
/// that one address. The first entry that spells none is the error.
pub fn parse_networks(raw: &Vec<String>, field: &str) -> (res: Result<Vec<IpNetwork>, ConfigError>)
    ensures
        match res {
            Ok(nets) => first_bad_entry(views(raw@)) is None && spelled_by(nets@, views(raw@))
                && all_wf(nets@),
            Err(err) => first_bad_entry(views(raw@)) is Some && err@
                == (ConfigErrorView::BadNetwork {
                field: field@,
                value: first_bad_entry(views(raw@))->0,
            }),
        },
        res matches Ok(nets) ==> nets@.len() == raw@.len() && forall|i: int|
            0 <= i < raw@.len() ==> network_of_text(trimmed((#[trigger] raw@[i])@)) == Some(
                nets@[i],
            ),
        res is Ok <==> forall|i: int|
            0 <= i < raw@.len() ==> network_of_text(trimmed((#[trigger] raw@[i])@)) is Some,
        res matches Err(err) ==> (err matches ConfigError::BadNetwork { field: f, value: v } && f@
            == field@ && exists|i: int|
            0 <= i < raw@.len() && network_of_text(trimmed((#[trigger] raw@[i])@)) is None && v@
                == trimmed(raw@[i]@)),
{
    let mut nets: Vec<IpNetwork> = Vec::new();
    let mut i: usize = 0;
    let ghost entries = views(raw@);
    assert(entries.skip(0) =~= entries);
    while i < raw.len()
        invariant
            i <= raw.len(),
            entries == views(raw@),
            nets@.len() == i,
            all_wf(nets@),
            forall|j: int| 0 <= j < i ==> entry_network(entries[j]) == Some(#[trigger] nets@[j]),
            first_bad_entry(entries) == first_bad_entry(entries.skip(i as int)),
            forall|j: int|
                0 <= j < i ==> network_of_text(trimmed((#[trigger] raw@[j])@)) == Some(nets@[j]),
        decreases raw.len() - i,
    {
        assert(entries.skip(i as int)[0] == raw@[i as int]@);
        assert(entries.skip(i as int).drop_first() =~= entries.skip(i + 1));
        let entry = trim(raw[i].as_str());
        match IpNetwork::parse(entry) {
            Some(net) => {
                nets.push(net);
            },
            None => {
                assert(network_of_text(trimmed(raw@[i as int]@)) is None);
                return Err(
                    ConfigError::BadNetwork { field: field.to_owned(), value: entry.to_owned() },
                );
            },
        }
        i = i + 1;
    }
    assert(entries.skip(i as int).len() == 0);
    Ok(nets)
}

/// The key is nothing but white space.
pub open spec fn is_blank(text: Seq<char>) -> bool {
    trimmed(text).len() == 0
}

/// The name of the first key that is blank.
pub open spec fn first_blank_key(keys: Seq<ApiKeyConfig>) -> Option<Seq<char>>
    decreases keys.len(),
{
    if keys.len() == 0 {
        None
    } else if is_blank(keys[0].key@) {
        Some(keys[0].name@)
    } else {
        first_blank_key(keys.drop_first())
    }
}

/// A key is blank where it has no character but white space.
pub proof fn law_blank_is_white_space_alone(text: Seq<char>)
    ensures
        is_blank(text) <==> forall|k: int|
            0 <= k < text.len() ==> is_white_space(#[trigger] text[k]),
{
    law_trimming_takes_only_the_ends(text);
    let (i, j) = choose|i: int, j: int|
        0 <= i <= j <= text.len() && trimmed(text) == #[trigger] text.subrange(i, j) && (forall|
            k: int,
        |
            0 <= k < i || j <= k < text.len() ==> is_white_space(#[trigger] text[k]));
    if i < j {
        assert(trimmed(text)[0] == text[i]);
    }
}

/// The blank key of a list is the first, under its own name; there is none exactly where no key
/// is blank.
pub proof fn law_blank_key_is_the_first(keys: Seq<ApiKeyConfig>)
    ensures
        first_blank_key(keys) matches Some(name) ==> exists|i: int|
            0 <= i < keys.len() && trimmed((#[trigger] keys[i]).key@).len() == 0 && name
                == keys[i].name@ && forall|j: int|
                0 <= j < i ==> trimmed((#[trigger] keys[j]).key@).len() > 0,
        first_blank_key(keys) is None <==> forall|i: int|
            0 <= i < keys.len() ==> trimmed((#[trigger] keys[i]).key@).len() > 0,
    decreases keys.len(),
{
    if keys.len() > 0 {
        let rest = keys.drop_first();
        law_blank_key_is_the_first(rest);
        if trimmed(keys[0].key@).len() > 0 {
            if first_blank_key(keys) is Some {
                let name = first_blank_key(rest)->0;
                let i = choose|i: int|
                    0 <= i < rest.len() && trimmed((#[trigger] rest[i]).key@).len() == 0 && name
                        == rest[i].name@ && forall|j: int|
                        0 <= j < i ==> trimmed((#[trigger] rest[j]).key@).len() > 0;
                assert(rest[i] == keys[i + 1]);
                assert forall|j: int| 0 <= j < i + 1 implies trimmed(
                    (#[trigger] keys[j]).key@,
                ).len() > 0 by {
                    if j > 0 {
                        assert(rest[j - 1] == keys[j]);
                    }
                }
            } else {
                assert forall|i: int| 0 <= i < keys.len() implies trimmed(
                    (#[trigger] keys[i]).key@,
                ).len() > 0 by {
                    if i > 0 {
                        assert(rest[i - 1] == keys[i]);
                    }
                }
            }
        }
    }
}

/// The error of a list of networks.
pub open spec fn list_error(raw: Seq<Seq<char>>, field: Seq<char>) -> Option<ConfigErrorView> {
    match first_bad_entry(raw) {
        Some(value) => Some(ConfigErrorView::BadNetwork { field, value }),
        None => None,
    }
}

impl Config {
    /// The first error of the configuration: no key, a blank key, or a bad entry in one of
    /// its lists of networks.
    pub open spec fn error(self) -> Option<ConfigErrorView> {
        let proxies = list_error(views(self.auth.trusted_proxies@), "auth.trusted_proxies"@);
        let threshold = list_error(
            views(self.threshold_check.allowed_ips@),
            "threshold_check.allowed_ips"@,
        );
        let top_n = list_error(views(self.top_n.allowed_ips@), "top_n.allowed_ips"@);
        if self.auth.keys@.len() == 0 {
            Some(ConfigErrorView::NoApiKeys)
        } else if first_blank_key(self.auth.keys@) is Some {
            Some(ConfigErrorView::EmptyApiKey(first_blank_key(self.auth.keys@)->0))
        } else if proxies is Some {
            proxies
        } else if threshold is Some {
            threshold
        } else {
            top_n
        }
    }
}

/// A configuration passes exactly where it has a key, none of its keys is blank, and every
/// entry of its three lists spells a network.
pub proof fn law_configuration_passes_iff_sound(config: Config)
    ensures
        config.error() is None <==> {
            &&& config.auth.keys@.len() > 0
            &&& forall|i: int|
                0 <= i < config.auth.keys@.len() ==> trimmed(
                    (#[trigger] config.auth.keys@[i]).key@,
                ).len() > 0
            &&& forall|i: int|
                0 <= i < config.auth.trusted_proxies@.len() ==> network_of_text(
                    trimmed((#[trigger] config.auth.trusted_proxies@[i])@),
                ) is Some
            &&& forall|i: int|
                0 <= i < config.threshold_check.allowed_ips@.len() ==> network_of_text(
                    trimmed((#[trigger] config.threshold_check.allowed_ips@[i])@),
                ) is Some
            &&& forall|i: int|
                0 <= i < config.top_n.allowed_ips@.len() ==> network_of_text(
                    trimmed((#[trigger] config.top_n.allowed_ips@[i])@),
                ) is Some
        },
{
    law_blank_key_is_the_first(config.auth.keys@);
    lemma_list_is_sound(config.auth.trusted_proxies@);
    lemma_list_is_sound(config.threshold_check.allowed_ips@);
    lemma_list_is_sound(config.top_n.allowed_ips@);
}

/// A list of strings has no bad entry exactly where each spells a network.
proof fn lemma_list_is_sound(raw: Seq<String>)
    ensures
        first_bad_entry(views(raw)) is None <==> forall|i: int|
            0 <= i < raw.len() ==> network_of_text(trimmed((#[trigger] raw[i])@)) is Some,
{
    let entries = views(raw);
    law_no_bad_entry(entries);
    if first_bad_entry(entries) is None {
        assert forall|i: int| 0 <= i < raw.len() implies network_of_text(
            trimmed((#[trigger] raw[i])@),
        ) is Some by {
            assert(entry_network(entries[i]) is Some);
        }
    } else {
        let i = choose|i: int|
            0 <= i < entries.len() && entry_network(#[trigger] entries[i]) is None;
        assert(network_of_text(trimmed(raw[i]@)) is None);
    }
}

/// What is wrong with a configuration is told in a fixed order: a missing key before a blank
/// one, keys before networks, the proxies before the sources of the threshold check, and these
/// before those of the ranking. A bad network is told with the field that it stands in.
pub proof fn law_errors_come_in_order(config: Config)
    ensures
        config.error() matches Some(err) ==> match err {
            ConfigErrorView::NoApiKeys => config.auth.keys@.len() == 0,
            ConfigErrorView::EmptyApiKey(name) => config.auth.keys@.len() > 0 && first_blank_key(
                config.auth.keys@,
            ) == Some(name),
            ConfigErrorView::BadNetwork { field, value } => {
                &&& config.auth.keys@.len() > 0
                &&& first_blank_key(config.auth.keys@) is None
                &&& match first_bad_entry(views(config.auth.trusted_proxies@)) {
                    Some(entry) => field == "auth.trusted_proxies"@ && value == entry,
                    None => match first_bad_entry(views(config.threshold_check.allowed_ips@)) {
                        Some(entry) => field == "threshold_check.allowed_ips"@ && value == entry,
                        None => field == "top_n.allowed_ips"@ && first_bad_entry(
                            views(config.top_n.allowed_ips@),
                        ) == Some(value),
                    },
                }
            },
            _ => false,
        },
{
}

/// The first blank key of a list, where there is one.
fn find_blank_key(keys: &Vec<ApiKeyConfig>) -> (name: Option<String>)
    ensures
        name is Some <==> first_blank_key(keys@) is Some,
        name matches Some(n) ==> first_blank_key(keys@) == Some(n@),
{
    let mut i: usize = 0;
    assert(keys@.skip(0) =~= keys@);
    while i < keys.len()
        invariant
            i <= keys.len(),
            first_blank_key(keys@) == first_blank_key(keys@.skip(i as int)),
        decreases keys.len() - i,
    {
        assert(keys@.skip(i as int)[0] == keys@[i as int]);
        assert(keys@.skip(i as int).drop_first() =~= keys@.skip(i + 1));
        if trim(keys[i].key.as_str()).is_empty() {
            return Some(keys[i].name.clone());
        }
        i = i + 1;
    }
    assert(keys@.skip(i as int).len() == 0);
    None
}

/// A configuration that passed its checks, with its networks read.
pub struct LoadedConfig {
    pub config: Config,
    pub trusted_proxies: Vec<IpNetwork>,
    pub threshold_allowed_ips: Vec<IpNetwork>,
    pub top_n_allowed_ips: Vec<IpNetwork>,
}

impl LoadedConfig {
    /// The lists hold networks.
    pub open spec fn wf(self) -> bool {
        all_wf(self.trusted_proxies@) && all_wf(self.threshold_allowed_ips@) && all_wf(
            self.top_n_allowed_ips@,
        )
    }

    /// Checks a configuration and reads its networks.
    pub fn from_config(config: Config) -> (res: Result<Self, ConfigError>)
        ensures
            match res {
                Ok(loaded) => config.error() is None && loaded.wf() && loaded.config == config
                    && spelled_by(
                    loaded.trusted_proxies@,
                    views(config.auth.trusted_proxies@),
                ) && spelled_by(
                    loaded.threshold_allowed_ips@,
                    views(config.threshold_check.allowed_ips@),
                ) && spelled_by(loaded.top_n_allowed_ips@, views(config.top_n.allowed_ips@)),
                Err(err) => config.error() == Some(err@),
            },
            res matches Ok(loaded) ==> {
                &&& loaded.config == config
                &&& config.auth.keys@.len() > 0
                &&& loaded.trusted_proxies@.len() == config.auth.trusted_proxies@.len()
                &&& loaded.threshold_allowed_ips@.len() == config.threshold_check.allowed_ips@.len()
                &&& loaded.top_n_allowed_ips@.len() == config.top_n.allowed_ips@.len()
                &&& forall|i: int|
                    0 <= i < config.auth.trusted_proxies@.len() ==> network_of_text(
                        trimmed((#[trigger] config.auth.trusted_proxies@[i])@),
                    ) == Some(loaded.trusted_proxies@[i])
                &&& forall|i: int|
                    0 <= i < config.threshold_check.allowed_ips@.len() ==> network_of_text(
                        trimmed((#[trigger] config.threshold_check.allowed_ips@[i])@),
                    ) == Some(loaded.threshold_allowed_ips@[i])
                &&& forall|i: int|
                    0 <= i < config.top_n.allowed_ips@.len() ==> network_of_text(
                        trimmed((#[trigger] config.top_n.allowed_ips@[i])@),
                    ) == Some(loaded.top_n_allowed_ips@[i])
            },
    {
        if config.auth.keys.len() == 0 {
            return Err(ConfigError::NoApiKeys);
        }
        match find_blank_key(&config.auth.keys) {
            Some(name) => {
                return Err(ConfigError::EmptyApiKey(name));
            },
            None => {},
        }
        let trusted_proxies = match parse_networks(
            &config.auth.trusted_proxies,
            "auth.trusted_proxies",
        ) {
            Ok(nets) => nets,
            Err(err) => {
                return Err(err);
            },
        };
        let threshold_allowed_ips = match parse_networks(
            &config.threshold_check.allowed_ips,
            "threshold_check.allowed_ips",
        ) {
            Ok(nets) => nets,
            Err(err) => {
                return Err(err);
            },
        };
        let top_n_allowed_ips = match parse_networks(
            &config.top_n.allowed_ips,
            "top_n.allowed_ips",
        ) {
            Ok(nets) => nets,
            Err(err) => {
                return Err(err);
            },
        };
        Ok(Self { config, trusted_proxies, threshold_allowed_ips, top_n_allowed_ips })
    }

    /// Whether `ip` is a proxy whose word on the source of a request counts.
    pub fn is_trusted_proxy(&self, ip: IpAddr) -> (trusted: bool)
        requires
            self.wf(),
        ensures
            trusted == any_covers(self.trusted_proxies@, ip),
            trusted <==> exists|i: int|
                0 <= i < self.trusted_proxies@.len() && (#[trigger] self.trusted_proxies@[i]).covers(
                    ip,
                ),
    {
        any_contains(&self.trusted_proxies, ip)
    }

    /// Whether `ip` may use the threshold check.
    pub fn threshold_check_allows(&self, ip: IpAddr) -> (allowed: bool)
        requires
            self.wf(),
        ensures
            allowed == any_covers(self.threshold_allowed_ips@, ip),
            allowed <==> exists|i: int|
                0 <= i < self.threshold_allowed_ips@.len() && (
                #[trigger] self.threshold_allowed_ips@[i]).covers(ip),
    {
        any_contains(&self.threshold_allowed_ips, ip)
    }

    /// Whether the threshold check is enabled: its list is not empty.
    pub fn threshold_check_enabled(&self) -> (enabled: bool)
        ensures
            enabled == (self.threshold_allowed_ips@.len() > 0),
    {
        self.threshold_allowed_ips.len() > 0
    }

    /// Whether `ip` may use the ranking.
    pub fn top_n_allows(&self, ip: IpAddr) -> (allowed: bool)
        requires
            self.wf(),
        ensures
            allowed == any_covers(self.top_n_allowed_ips@, ip),
            allowed <==> exists|i: int|
                0 <= i < self.top_n_allowed_ips@.len() && (
                #[trigger] self.top_n_allowed_ips@[i]).covers(ip),
    {
        any_contains(&self.top_n_allowed_ips, ip)
    }

    /// Whether the ranking is enabled: its list is not empty.
    pub fn top_n_enabled(&self) -> (enabled: bool)
        ensures
            enabled == (self.top_n_allowed_ips@.len() > 0),
    {
        self.top_n_allowed_ips.len() > 0
    }
}

/// An empty list allows nobody.
pub proof fn law_empty_list_allows_nobody(nets: Seq<IpNetwork>, ip: IpAddr)
    requires
        nets.len() == 0,
    ensures
        !any_covers(nets, ip),
{
}

} // verus!
