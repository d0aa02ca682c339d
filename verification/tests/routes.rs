use netflow_query_api::address::IpAddr;
use netflow_query_api::auth::{AuthenticatedKey, ClientIp};
use netflow_query_api::config::{
    AllowListConfig, ApiKeyConfig, AuthConfig, Config, DatabaseConfig, LimitsConfig, LoadedConfig,
    ServerConfig,
};
use netflow_query_api::error::{ApiError, ErrorResponse};
use netflow_query_api::routes::{
    daily, exceeded, healthz, parse_date, parse_ips, parse_single_ip, require_allowed_source,
    resolve_date, today, top, week, DailyParams, ExceededParams, SingleIpParams, TodayParams,
    TopParams,
};
use netflow_query_api::timeutil::Date;

fn app(threshold: &[&str], top_n: &[&str]) -> LoadedConfig {
    let list = |ips: &[&str]| AllowListConfig {
        allowed_ips: ips.iter().map(|ip| ip.to_string()).collect(),
    };
    let config = Config {
        server: ServerConfig { host: "127.0.0.1".to_string(), port: 8081 },
        database: DatabaseConfig {
            host: "127.0.0.1".to_string(),
            port: 5432,
            name: "netflow".to_string(),
            user: "netflow_ro".to_string(),
            password: "x".to_string(),
            max_connections: 5,
        },
        auth: AuthConfig {
            keys: vec![ApiKeyConfig { name: "dashboard".to_string(), key: "test-key".to_string() }],
            trusted_proxies: vec![],
        },
        threshold_check: list(threshold),
        top_n: list(top_n),
        limits: LimitsConfig::default(),
    };
    LoadedConfig::from_config(config).unwrap()
}

fn strings(texts: &[&str]) -> Vec<String> {
    texts.iter().map(|t| t.to_string()).collect()
}

fn v4(a: u8, b: u8, c: u8, d: u8) -> IpAddr {
    IpAddr::V4(u32::from_be_bytes([a, b, c, d]))
}

fn this_day() -> Date {
    Date::parse("2026-09-18").unwrap()
}

fn key(config: &LoadedConfig) -> AuthenticatedKey {
    AuthenticatedKey::from_request_parts(Some("test-key"), config).unwrap()
}

fn local(config: &LoadedConfig) -> ClientIp {
    ClientIp::from_request_parts(Some(v4(127, 0, 0, 1)), None, None, config).unwrap()
}

fn refused<T>(res: Result<T, ApiError>) -> ErrorResponse {
    match res {
        Ok(_) => panic!("the request was accepted"),
        Err(err) => err.into_response(),
    }
}

fn mib(threshold: f64, date: Option<&str>) -> ExceededParams {
    ExceededParams { threshold_mib_bits: threshold.to_bits(), date: date.map(|d| d.to_string()) }
}

fn ranking(limit: Option<usize>, date: Option<&str>) -> TopParams {
    TopParams { limit, date: date.map(|d| d.to_string()) }
}

#[test]
fn healthz_needs_no_api_key() {
    assert_eq!(healthz(), "ok");
}

#[test]
fn missing_api_key_is_rejected() {
    let res = AuthenticatedKey::from_request_parts(None, &app(&[], &[]));
    assert_eq!(refused(res).status, 401);
}

#[test]
fn wrong_api_key_is_rejected() {
    let res = AuthenticatedKey::from_request_parts(Some("not-the-key"), &app(&[], &[]));
    assert_eq!(refused(res).status, 401);
}

#[test]
fn invalid_ip_is_rejected_before_touching_the_database() {
    let config = app(&[], &[]);
    let params = TodayParams { ip: strings(&["not-an-ip"]) };
    let response = refused(today(&key(&config), &params, &config.config.limits, this_day()));
    assert_eq!(response.status, 422);
    assert_eq!(response.message, "\"not-an-ip\" is not a valid IP address");
}

/// With an empty list the endpoint is closed, not open.
#[test]
fn threshold_endpoint_is_closed_when_allow_list_is_empty() {
    let config = app(&[], &[]);
    let res = exceeded(&key(&config), local(&config), &mib(1.0, None), &config, this_day());
    let response = refused(res);
    assert_eq!(response.status, 403);
    assert_eq!(response.message, "this endpoint is disabled: threshold_check.allowed_ips is empty");
}

#[test]
fn exceeded_rejects_future_date() {
    let config = app(&["127.0.0.1"], &[]);
    let params = mib(1.0, Some("2099-01-01"));
    let response = refused(exceeded(&key(&config), local(&config), &params, &config, this_day()));
    assert_eq!(response.status, 422);
    assert_eq!(response.message, "date 2099-01-01 is in the future (today is 2026-09-18)");
}

#[test]
fn exceeded_rejects_malformed_date() {
    let config = app(&["127.0.0.1"], &[]);
    let params = mib(1.0, Some("2026/09/01"));
    let response = refused(exceeded(&key(&config), local(&config), &params, &config, this_day()));
    assert_eq!(response.status, 422);
    assert_eq!(response.message, "date \"2026/09/01\" must be in YYYY-MM-DD format");
}

/// Numbers without leading zeros are accepted too.
#[test]
fn parse_date_behaviour() {
    assert!(parse_date("2026-09-01").is_ok());
    assert!(parse_date("2026-9-1").is_ok());

    assert!(parse_date("2026/09/01").is_err());
    assert!(parse_date("20260901").is_err());
    assert!(parse_date("2026-13-01").is_err());
    assert!(parse_date("2026-02-30").is_err());
    assert!(parse_date("2026-09-01T00:00:00Z").is_err());
    assert!(parse_date("").is_err());
}

#[test]
fn dates_are_trimmed_but_quoted_as_given() {
    assert_eq!(parse_date(" 2026-09-01 ").unwrap(), Date::parse("2026-09-01").unwrap());
    assert_eq!(
        refused(parse_date(" x ")).message,
        "date \" x \" must be in YYYY-MM-DD format"
    );
}

#[test]
fn daily_rejects_future_date() {
    let config = app(&[], &[]);
    let params = DailyParams { ip: "10.1.2.3".to_string(), date: Some("2099-01-01".to_string()) };
    let response = refused(daily(&key(&config), &params, &config.config.limits, this_day()));
    assert_eq!(response.status, 422);
}

#[test]
fn top_is_closed_when_allow_list_is_empty() {
    let config = app(&[], &[]);
    let res = top(&key(&config), local(&config), &ranking(None, None), &config, this_day());
    assert_eq!(refused(res).status, 403);
}

/// The two lists are independent.
#[test]
fn top_is_not_unlocked_by_the_threshold_allow_list() {
    let config = app(&["127.0.0.1"], &[]);
    let res = top(&key(&config), local(&config), &ranking(None, None), &config, this_day());
    assert_eq!(refused(res).status, 403);
}

#[test]
fn exceeded_is_not_unlocked_by_the_top_n_allow_list() {
    let config = app(&[], &["127.0.0.1"]);
    let res = exceeded(&key(&config), local(&config), &mib(1.0, None), &config, this_day());
    assert_eq!(refused(res).status, 403);
}

#[test]
fn top_rejects_zero_limit() {
    let config = app(&[], &["127.0.0.1"]);
    let res = top(&key(&config), local(&config), &ranking(Some(0), None), &config, this_day());
    let response = refused(res);
    assert_eq!(response.status, 422);
    assert_eq!(response.message, "limit must be between 1 and 500 (received 0)");
}

/// A limit over the greatest is refused and not cut.
#[test]
fn top_rejects_limit_above_maximum() {
    let config = app(&[], &["127.0.0.1"]);
    let res = top(&key(&config), local(&config), &ranking(Some(501), None), &config, this_day());
    let response = refused(res);
    assert_eq!(response.status, 422);
    assert_eq!(response.message, "limit must be between 1 and 500 (received 501)");
}

#[test]
fn top_rejects_future_date() {
    let config = app(&[], &["127.0.0.1"]);
    let params = ranking(None, Some("2099-01-01"));
    let res = top(&key(&config), local(&config), &params, &config, this_day());
    assert_eq!(refused(res).status, 422);
}

#[test]
fn top_requires_an_api_key() {
    let res = AuthenticatedKey::from_request_parts(None, &app(&[], &["127.0.0.1"]));
    assert_eq!(refused(res).status, 401);
}

#[test]
fn top_takes_the_limit_asked_for_or_the_default() {
    let config = app(&[], &["127.0.0.1"]);
    let query = top(&key(&config), local(&config), &ranking(None, None), &config, this_day()).unwrap();
    assert_eq!((query.limit, query.date), (20, this_day()));
    let params = ranking(Some(500), Some("2020-02-29"));
    let query = top(&key(&config), local(&config), &params, &config, this_day()).unwrap();
    assert_eq!((query.limit, query.date), (500, Date::parse("2020-02-29").unwrap()));
}

#[test]
fn source_must_be_on_the_list() {
    let config = app(&["192.0.2.0/24"], &[]);
    let response = refused(exceeded(&key(&config), local(&config), &mib(1.0, None), &config, this_day()));
    assert_eq!(response.status, 403);
    assert_eq!(response.message, "source IP 127.0.0.1 is not in the threshold_check allow list");
    assert!(require_allowed_source(true, true, v4(127, 0, 0, 1), "top_n").is_ok());
    assert!(require_allowed_source(false, true, v4(127, 0, 0, 1), "top_n").is_err());
}

#[test]
fn exceeded_asks_for_the_bytes_of_the_threshold() {
    let config = app(&["127.0.0.1"], &[]);
    let params = mib(1024.0, None);
    let query = exceeded(&key(&config), local(&config), &params, &config, this_day()).unwrap();
    assert_eq!(query.threshold_bytes, 1_073_741_824);
    assert_eq!(query.threshold_mib_bits, (1024.0f64).to_bits());
    assert_eq!(query.date, this_day());
}

#[test]
fn exceeded_has_no_earliest_date() {
    let config = app(&["127.0.0.1"], &[]);
    let params = mib(0.0, Some("1999-01-01"));
    let query = exceeded(&key(&config), local(&config), &params, &config, this_day()).unwrap();
    assert_eq!(query.date, Date::parse("1999-01-01").unwrap());
}

#[test]
fn exceeded_rejects_bad_thresholds() {
    let config = app(&["127.0.0.1"], &[]);
    for (threshold, message) in [
        (f64::NAN, "threshold_mib must be a finite number greater than or equal to 0"),
        (-0.5, "threshold_mib must be a finite number greater than or equal to 0"),
        (1e300, "threshold_mib is too large"),
    ] {
        let params = mib(threshold, Some("bad"));
        let response = refused(exceeded(&key(&config), local(&config), &params, &config, this_day()));
        assert_eq!(response.status, 422);
        assert_eq!(response.message, message);
    }
}

#[test]
fn addresses_come_with_commas_or_repeated() {
    let expected = vec![v4(10, 1, 2, 3), v4(10, 1, 2, 4)];
    assert_eq!(parse_ips(&strings(&["10.1.2.3", "10.1.2.4"]), 50).unwrap(), expected);
    assert_eq!(parse_ips(&strings(&["10.1.2.3,10.1.2.4"]), 50).unwrap(), expected);
    assert_eq!(parse_ips(&strings(&[" 10.1.2.3 ,, 10.1.2.4", ""]), 50).unwrap(), expected);
}

#[test]
fn repeated_addresses_are_asked_for_once() {
    let ips = parse_ips(&strings(&["::1,10.1.2.3", "0:0:0:0:0:0:0:1", "10.1.2.3"]), 2).unwrap();
    assert_eq!(ips, vec![IpAddr::V6(1), v4(10, 1, 2, 3)]);
}

#[test]
fn list_of_addresses_has_a_lower_and_an_upper_limit() {
    assert_eq!(
        refused(parse_ips(&strings(&[" , ", ""]), 50)).message,
        "at least one ip parameter is required"
    );
    assert_eq!(
        refused(parse_ips(&Vec::new(), 50)).message,
        "at least one ip parameter is required"
    );
    assert_eq!(
        refused(parse_ips(&strings(&["10.0.0.1,10.0.0.2,10.0.0.3"]), 2)).message,
        "at most 2 IP addresses per request, received 3"
    );
}

#[test]
fn first_bad_address_is_named() {
    assert_eq!(
        refused(parse_ips(&strings(&["10.1.2.3, 10.1.2.300 ,x"]), 1)).message,
        "\"10.1.2.300\" is not a valid IP address"
    );
}

#[test]
fn single_address_is_trimmed_but_quoted_as_given() {
    assert_eq!(parse_single_ip(" 10.1.2.3\n").unwrap(), v4(10, 1, 2, 3));
    assert_eq!(
        refused(parse_single_ip(" 10.1.2.300 ")).message,
        "\" 10.1.2.300 \" is not a valid IP address"
    );
    assert!(parse_single_ip("10.1.2.3,10.1.2.4").is_err());
}

#[test]
fn today_asks_for_today() {
    let config = app(&[], &[]);
    let params = TodayParams { ip: strings(&["10.1.2.3"]) };
    let query = today(&key(&config), &params, &config.config.limits, this_day()).unwrap();
    assert_eq!(query.day, this_day());
    assert_eq!(query.ips, vec![v4(10, 1, 2, 3)]);
}

#[test]
fn week_asks_for_seven_days() {
    let config = app(&[], &[]);
    let params = SingleIpParams { ip: "10.1.2.3".to_string() };
    let query = week(&key(&config), &params, this_day()).unwrap();
    assert_eq!(query.ip, v4(10, 1, 2, 3));
    assert_eq!(query.first, Date::parse("2026-09-12").unwrap());
    assert_eq!(query.today, this_day());
    assert!(week(&key(&config), &SingleIpParams { ip: "".to_string() }, this_day()).is_err());
}

#[test]
fn daily_refuses_dates_that_are_no_longer_kept() {
    let config = app(&[], &[]);
    let ask = |date: &str| {
        let params = DailyParams { ip: "10.1.2.3".to_string(), date: Some(date.to_string()) };
        daily(&key(&config), &params, &config.config.limits, this_day())
    };
    assert_eq!(ask("2025-08-19").unwrap().date, Date::parse("2025-08-19").unwrap());
    let response = refused(ask("2025-08-18"));
    assert_eq!(response.status, 422);
    assert_eq!(
        response.message,
        "date 2025-08-18 is outside the retention window of the 5-minute statistics \
         (earliest available: 2025-08-19); those buckets have been dropped by the \
         retention policy, only daily totals remain"
    );
}

#[test]
fn daily_asks_for_the_bounds_of_the_day() {
    let config = app(&[], &[]);
    let params = DailyParams { ip: "10.1.2.3".to_string(), date: None };
    let query = daily(&key(&config), &params, &config.config.limits, this_day()).unwrap();
    assert_eq!(query.date, this_day());
    assert_eq!(query.ip, v4(10, 1, 2, 3));
    assert_eq!(query.end.secs - query.start.secs, 86_400);
    assert_eq!(query.start.secs, (739_877 - 719_163) * 86_400 - 28_800);
}

#[test]
fn daily_refuses_a_day_without_a_midnight() {
    let limits = LimitsConfig {
        max_ips_per_request: 50,
        distribution_max_age_days: 20_000,
        top_n_default_limit: 20,
        top_n_max_limit: 500,
    };
    let params = DailyParams { ip: "10.1.2.3".to_string(), date: Some("1979-07-01".to_string()) };
    let response = refused(daily(&key(&app(&[], &[])), &params, &limits, this_day()));
    assert_eq!(response.message, "1979-07-01 is not a valid date");
}

#[test]
fn omitted_date_is_today() {
    assert_eq!(resolve_date(None, this_day()).unwrap(), this_day());
    assert_eq!(resolve_date(Some("2026-09-18"), this_day()).unwrap(), this_day());
    assert!(resolve_date(Some("2026-09-19"), this_day()).is_err());
}
