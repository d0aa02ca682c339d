use netflow_query_api::cli::{
    check_report, connection_failure, failure_report, listen_address, Cli, Plan,
};
use netflow_query_api::config::{
    AllowListConfig, ApiKeyConfig, AuthConfig, Config, ConfigError, DatabaseConfig, LimitsConfig,
    LoadedConfig, ServerConfig,
};

fn loaded(proxies: &[&str], threshold: &[&str], password: &str) -> LoadedConfig {
    let strings = |texts: &[&str]| texts.iter().map(|t| t.to_string()).collect::<Vec<String>>();
    let key = |name: &str| ApiKeyConfig { name: name.to_string(), key: format!("{name}-{password}") };
    let config = Config {
        server: ServerConfig { host: "0.0.0.0".to_string(), port: 8081 },
        database: DatabaseConfig {
            host: "db.example.edu.tw".to_string(),
            port: 5432,
            name: "netflow".to_string(),
            user: "netflow_ro".to_string(),
            password: password.to_string(),
            max_connections: 5,
        },
        auth: AuthConfig {
            keys: vec![key("dashboard"), key("monitor")],
            trusted_proxies: strings(proxies),
        },
        threshold_check: AllowListConfig { allowed_ips: strings(threshold) },
        top_n: AllowListConfig::default(),
        limits: LimitsConfig::default(),
    };
    LoadedConfig::from_config(config).unwrap()
}

fn cli(check_config: bool, check_dbconn: bool) -> Cli {
    Cli { config: "config.toml".to_string(), check_config, check_dbconn }
}

/// The example of the documentation.
#[test]
fn report_shows_the_values_in_effect() {
    assert_eq!(
        check_report("config.toml", &loaded(&[], &[], "x")),
        "config config.toml is valid\n  \
           listen              0.0.0.0:8081\n  \
           database            db.example.edu.tw:5432/netflow (user=netflow_ro, max_connections=5)\n  \
           api keys            2 configured: dashboard, monitor\n  \
           trusted proxies     none (client IP is always the TCP peer address)\n  \
           threshold sources   none - /api/v1/usage/exceeded is disabled\n  \
           max ips per request 50\n  \
           distribution window 395 days"
    );
}

#[test]
fn report_writes_bare_addresses_as_networks() {
    let report = check_report("c", &loaded(&["10.0.0.5", "fd00::/8"], &["10.1.0.0/16"], "x"));
    assert!(report.contains("\n  trusted proxies     10.0.0.5/32, fd00::/8\n"));
    assert!(report.contains("\n  threshold sources   10.1.0.0/16\n"));
}

#[test]
fn report_hides_secrets() {
    let a = check_report("config.toml", &loaded(&[], &[], "hunter2"));
    let b = check_report("config.toml", &loaded(&[], &[], "swordfish"));
    assert_eq!(a, b);
    assert!(!a.contains("hunter2"));
}

#[test]
fn missing_file_is_reported_with_a_hint() {
    let err = ConfigError::NotFound { path: "config.toml".to_string() };
    assert_eq!(
        failure_report("check failed: ", &err),
        "check failed: config file not found: config.toml\n\
         \n\
         hint: copy the template, then fill in the database credentials and API keys:\n    \
             cp config.example.toml config.toml\n\
         \n\
         or point --config at another path (see --help)"
    );
}

#[test]
fn causes_are_reported() {
    let err = ConfigError::Read { path: "c.toml".to_string(), cause: "permission denied".to_string() };
    assert_eq!(
        failure_report("check failed: ", &err),
        "check failed: cannot read config file c.toml\n  caused by: permission denied"
    );
    assert_eq!(
        failure_report("startup failed: ", &ConfigError::NoApiKeys),
        "startup failed: auth.keys must not be empty; at least one API key is required"
    );
}

#[test]
fn options_ask_for_a_plan() {
    assert_eq!(cli(false, false).plan(), Some(Plan::Serve));
    assert_eq!(cli(true, false).plan(), Some(Plan::CheckConfig));
    assert_eq!(cli(true, true).plan(), Some(Plan::CheckConfigAndDatabase));
    assert_eq!(cli(false, true).plan(), None);
}

#[test]
fn connection_failure_names_the_target() {
    let loaded = loaded(&[], &[], "x");
    assert_eq!(
        connection_failure(&loaded.config.database, "pool timed out"),
        "cannot connect to database db.example.edu.tw:5432/netflow (user=netflow_ro): pool timed out"
    );
    assert_eq!(listen_address(&loaded.config.server), "0.0.0.0:8081");
}
