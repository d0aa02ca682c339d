use netflow_query_api::address::{IpAddr, IpNetwork};
use netflow_query_api::config::{
    default_max_connections, parse_networks, AllowListConfig, ApiKeyConfig, AuthConfig, Config,
    ConfigError, DatabaseConfig, LimitsConfig, LoadedConfig, ServerConfig,
};

fn strings(texts: &[&str]) -> Vec<String> {
    texts.iter().map(|t| t.to_string()).collect()
}

fn key(name: &str, key: &str) -> ApiKeyConfig {
    ApiKeyConfig { name: name.to_string(), key: key.to_string() }
}

fn config(keys: Vec<ApiKeyConfig>, proxies: &[&str], threshold: &[&str], top_n: &[&str]) -> Config {
    Config {
        server: ServerConfig { host: "127.0.0.1".to_string(), port: 8081 },
        database: DatabaseConfig {
            host: "127.0.0.1".to_string(),
            port: 5432,
            name: "netflow".to_string(),
            user: "netflow_ro".to_string(),
            password: "x".to_string(),
            max_connections: default_max_connections(),
        },
        auth: AuthConfig { keys, trusted_proxies: strings(proxies) },
        threshold_check: AllowListConfig { allowed_ips: strings(threshold) },
        top_n: AllowListConfig { allowed_ips: strings(top_n) },
        limits: LimitsConfig::default(),
    }
}

fn message(res: Result<LoadedConfig, ConfigError>) -> String {
    match res {
        Ok(_) => panic!("the configuration was accepted"),
        Err(err) => err.message(),
    }
}

fn v4(a: u8, b: u8, c: u8, d: u8) -> IpAddr {
    IpAddr::V4(u32::from_be_bytes([a, b, c, d]))
}

#[test]
fn defaults() {
    let limits = LimitsConfig::default();
    assert_eq!(limits.max_ips_per_request, 50);
    assert_eq!(limits.distribution_max_age_days, 395);
    assert_eq!(limits.top_n_default_limit, 20);
    assert_eq!(limits.top_n_max_limit, 500);
    assert_eq!(default_max_connections(), 5);
    assert!(AllowListConfig::default().allowed_ips.is_empty());
}

#[test]
fn keys_are_required() {
    assert_eq!(
        message(LoadedConfig::from_config(config(vec![], &["bad"], &[], &[]))),
        "auth.keys must not be empty; at least one API key is required"
    );
}

#[test]
fn first_blank_key_is_named() {
    let keys = vec![key("dashboard", "k"), key("monitor", " \t"), key("third", "")];
    assert_eq!(
        message(LoadedConfig::from_config(config(keys, &["bad"], &[], &[]))),
        "API key \"monitor\" has an empty key field"
    );
}

#[test]
fn first_bad_network_is_named() {
    let keys = || vec![key("dashboard", "test-key")];
    assert_eq!(
        message(LoadedConfig::from_config(config(keys(), &["10.0.0.1", " proxy ", "x"], &["y"], &["z"]))),
        "auth.trusted_proxies: \"proxy\" is not a valid IP address or CIDR"
    );
    assert_eq!(
        message(LoadedConfig::from_config(config(keys(), &[], &["10.0.0.0/40"], &["z"]))),
        "threshold_check.allowed_ips: \"10.0.0.0/40\" is not a valid IP address or CIDR"
    );
    assert_eq!(
        message(LoadedConfig::from_config(config(keys(), &[], &[], &[""]))),
        "top_n.allowed_ips: \"\" is not a valid IP address or CIDR"
    );
}

#[test]
fn other_errors_have_a_message_and_a_cause() {
    let err = ConfigError::Read { path: "config.toml".to_string(), cause: "denied".to_string() };
    assert_eq!(err.message(), "cannot read config file config.toml");
    assert_eq!(err.cause(), Some("denied".to_string()));
    let err = ConfigError::Parse("line 3".to_string());
    assert_eq!(err.message(), "invalid config file syntax: line 3");
    assert_eq!(err.cause(), Some("line 3".to_string()));
    let err = ConfigError::NotFound { path: "x.toml".to_string() };
    assert_eq!(err.message(), "config file not found: x.toml");
    assert_eq!(err.cause(), None);
    assert_eq!(ConfigError::NoApiKeys.cause(), None);
}

#[test]
fn bare_address_in_a_list_is_one_address() {
    let nets = parse_networks(&strings(&[" 10.0.0.5 ", "10.0.0.5/32", "10.1.0.0/16"]), "f").unwrap();
    assert_eq!(nets[0], IpNetwork { addr: v4(10, 0, 0, 5), prefix: 32 });
    assert_eq!(nets[1], nets[0]);
    assert_eq!(nets[2], IpNetwork { addr: v4(10, 1, 0, 0), prefix: 16 });
}

#[test]
fn lists_answer_for_themselves() {
    let keys = vec![key("dashboard", "test-key")];
    let loaded = LoadedConfig::from_config(config(keys, &["10.0.0.0/8"], &["127.0.0.1"], &[])).unwrap();
    assert!(loaded.is_trusted_proxy(v4(10, 1, 2, 3)));
    assert!(!loaded.is_trusted_proxy(v4(127, 0, 0, 1)));
    assert!(loaded.threshold_check_enabled());
    assert!(loaded.threshold_check_allows(v4(127, 0, 0, 1)));
    assert!(!loaded.threshold_check_allows(v4(10, 1, 2, 3)));
    assert!(!loaded.top_n_enabled());
    assert!(!loaded.top_n_allows(v4(127, 0, 0, 1)));
    assert_eq!(loaded.config.auth.keys.len(), 1);
}
