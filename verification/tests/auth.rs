use netflow_query_api::address::{IpAddr, IpNetwork};
use netflow_query_api::auth::{
    constant_time_eq, forwarded_for, AuthenticatedKey, ClientIp, API_KEY_HEADER,
};
use netflow_query_api::config::{
    AllowListConfig, ApiKeyConfig, AuthConfig, Config, DatabaseConfig, LimitsConfig, LoadedConfig,
    ServerConfig,
};

fn loaded(keys: &[(&str, &str)], proxies: &[&str]) -> LoadedConfig {
    let config = Config {
        server: ServerConfig { host: "127.0.0.1".to_string(), port: 8081 },
        database: DatabaseConfig {
            host: "127.0.0.1".to_string(),
            port: 5432,
            name: "netflow".to_string(),
            user: "netflow_ro".to_string(),
            password: "x".to_string(),
            max_connections: 5,
        },
        auth: AuthConfig {
            keys: keys
                .iter()
                .map(|(name, key)| ApiKeyConfig { name: name.to_string(), key: key.to_string() })
                .collect(),
            trusted_proxies: proxies.iter().map(|p| p.to_string()).collect(),
        },
        threshold_check: AllowListConfig::default(),
        top_n: AllowListConfig::default(),
        limits: LimitsConfig::default(),
    };
    LoadedConfig::from_config(config).unwrap()
}

fn ip(text: &str) -> IpAddr {
    IpAddr::parse(text).unwrap()
}

#[test]
fn equal_bytes_are_equal() {
    assert!(constant_time_eq(b"", b""));
    assert!(constant_time_eq(b"test-key", b"test-key"));
    assert!(!constant_time_eq(b"test-key", b"test-kez"));
    assert!(!constant_time_eq(b"test-key", b"uest-key"));
    assert!(!constant_time_eq(b"test-key", b"test-key2"));
    assert!(!constant_time_eq(b"\x01\x02", b"\x02\x01"));
}

#[test]
fn header_name() {
    assert_eq!(API_KEY_HEADER, "x-api-key");
}

#[test]
fn known_key_has_its_name() {
    let config = loaded(&[("dashboard", "test-key"), ("monitor", "other")], &[]);
    let key = AuthenticatedKey::from_request_parts(Some("other"), &config).unwrap();
    assert_eq!(key.0, "monitor");
    let key = AuthenticatedKey::from_request_parts(Some("test-key"), &config).unwrap();
    assert_eq!(key.0, "dashboard");
}

#[test]
fn last_of_equal_keys_gives_the_name() {
    let config = loaded(&[("first", "same"), ("second", "same")], &[]);
    let key = AuthenticatedKey::from_request_parts(Some("same"), &config).unwrap();
    assert_eq!(key.0, "second");
}

#[test]
fn unknown_keys_are_refused() {
    let config = loaded(&[("dashboard", "test-key")], &[]);
    for presented in [None, Some(""), Some(" "), Some("test-key "), Some("TEST-KEY"), Some("not-the-key")] {
        let response = match AuthenticatedKey::from_request_parts(presented, &config) {
            Ok(_) => panic!("the key was accepted"),
            Err(err) => err.into_response(),
        };
        assert_eq!(response.status, 401);
        assert_eq!(response.code, "UNAUTHORIZED");
        assert_eq!(response.message, "API key is missing or invalid");
    }
}

#[test]
fn peer_is_the_client_without_proxies() {
    let config = loaded(&[("dashboard", "test-key")], &[]);
    let client = ClientIp::from_request_parts(
        Some(ip("192.0.2.1")),
        Some("127.0.0.1"),
        Some("127.0.0.1"),
        &config,
    );
    assert_eq!(client.unwrap().0, ip("192.0.2.1"));
}

#[test]
fn unknown_peer_is_refused() {
    let config = loaded(&[("dashboard", "test-key")], &["10.0.0.0/8"]);
    let response = match ClientIp::from_request_parts(None, Some("192.0.2.1"), None, &config) {
        Ok(_) => panic!("the request was accepted"),
        Err(err) => err.into_response(),
    };
    assert_eq!(response.status, 403);
    assert_eq!(response.message, "the server cannot determine the source IP of the request");
}

#[test]
fn last_hop_that_is_no_proxy_is_the_client() {
    let config = loaded(&[("dashboard", "test-key")], &["10.0.0.0/8"]);
    let client = |header: &str| {
        ClientIp::from_request_parts(Some(ip("10.0.0.1")), Some(header), Some("203.0.113.9"), &config)
            .unwrap()
            .0
    };
    assert_eq!(client("192.0.2.1"), ip("192.0.2.1"));
    assert_eq!(client("198.51.100.7, 192.0.2.1, 10.0.0.2"), ip("192.0.2.1"));
    assert_eq!(client("10.9.9.9, 10.0.0.2"), ip("10.9.9.9"));
    assert_eq!(client("unknown, 192.0.2.1 ,, 10.0.0.2"), ip("192.0.2.1"));
    assert_eq!(client("unknown"), ip("203.0.113.9"));
}

#[test]
fn forged_hops_have_no_effect() {
    let config = loaded(&[("dashboard", "test-key")], &["10.0.0.0/8"]);
    for forged in ["127.0.0.1", "10.0.0.9", "garbage", ""] {
        let header = format!("{forged},192.0.2.1, 10.0.0.2");
        assert_eq!(forwarded_for(Some(&header), None, &config), Some(ip("192.0.2.1")));
    }
}

#[test]
fn real_ip_counts_where_there_is_no_hop() {
    let config = loaded(&[("dashboard", "test-key")], &["10.0.0.0/8"]);
    assert_eq!(forwarded_for(None, Some(" 192.0.2.1 "), &config), Some(ip("192.0.2.1")));
    assert_eq!(forwarded_for(None, Some("nobody"), &config), None);
    assert_eq!(forwarded_for(None, None, &config), None);
    let client = ClientIp::from_request_parts(Some(ip("10.0.0.1")), None, None, &config);
    assert_eq!(client.unwrap().0, ip("10.0.0.1"));
}

#[test]
fn proxies_are_networks() {
    let config = loaded(&[("dashboard", "test-key")], &["10.0.0.0/8", "::1"]);
    assert_eq!(config.trusted_proxies[1], IpNetwork { addr: IpAddr::V6(1), prefix: 128 });
}
