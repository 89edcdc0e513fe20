use rustfinder::config::validate_config;
use rustfinder::numbers::{decimal, parse_u64};
use rustfinder::session::{
    backoff_delay_ms, classify_status, random_user_agent, rate_limit_table, retry_step, user_agent,
    AttemptOutcome, RetryPolicy, USER_AGENT_COUNT,
    RetryStep, StatusClass,
};
use rustfinder::sources::{select_sources, source_kind, ChaosSource, CrtShSource, SourceKind};
use rustfinder::types::{Config, RustFinderError};

fn response(status: u16) -> AttemptOutcome {
    AttemptOutcome::Response { status, retry_after: None }
}

#[test]
fn retry_three_rate_limits_then_success() {
    let policy = RetryPolicy { max_retries: 3, base_delay_ms: 100 };
    let mut waited: u64 = 0;
    let mut attempt: u32 = 1;
    for status in [429u16, 429, 429, 200] {
        match retry_step(&policy, "src", attempt, &response(status), 0) {
            RetryStep::Wait { delay_ms } => waited += delay_ms,
            RetryStep::Deliver => break,
            RetryStep::Fail(e) => panic!("failed: {:?}", e),
        }
        attempt += 1;
    }
    assert_eq!(attempt, 4);
    assert!(waited >= 300);
    assert_eq!(waited, 100 + 200 + 400);
}

#[test]
fn retry_budget_exhausted() {
    let policy = RetryPolicy { max_retries: 2, base_delay_ms: 100 };
    match retry_step(&policy, "shodan", 3, &response(503), 0) {
        RetryStep::Fail(RustFinderError::RateLimitExceeded { source_name, message }) => {
            assert_eq!(source_name, "shodan");
            assert_eq!(message, "retries exhausted, last HTTP status 503");
        }
        other => panic!("unexpected {:?}", other),
    }
    let net = AttemptOutcome::NetworkFailure { message: "reset".to_string() };
    match retry_step(&policy, "shodan", 3, &net, 0) {
        RetryStep::Fail(RustFinderError::NetworkError(m)) => assert_eq!(m, "retries exhausted: reset"),
        other => panic!("unexpected {:?}", other),
    }
    match retry_step(&policy, "shodan", 1, &net, 0) {
        RetryStep::Wait { delay_ms } => assert_eq!(delay_ms, 100),
        other => panic!("unexpected {:?}", other),
    }
}

#[test]
fn client_errors_fail_at_once() {
    let policy = RetryPolicy { max_retries: 5, base_delay_ms: 100 };
    match retry_step(&policy, "s", 1, &response(404), 0) {
        RetryStep::Fail(RustFinderError::NetworkError(m)) => assert_eq!(m, "HTTP status 404"),
        other => panic!("unexpected {:?}", other),
    }
}

#[test]
fn retry_after_header_overrides_backoff() {
    let policy = RetryPolicy { max_retries: 3, base_delay_ms: 100 };
    let o = AttemptOutcome::Response { status: 429, retry_after: Some("7".to_string()) };
    match retry_step(&policy, "s", 2, &o, 0) {
        RetryStep::Wait { delay_ms } => assert_eq!(delay_ms, 7000),
        other => panic!("unexpected {:?}", other),
    }
    let bad = AttemptOutcome::Response { status: 500, retry_after: Some("soon".to_string()) };
    match retry_step(&policy, "s", 2, &bad, 0) {
        RetryStep::Wait { delay_ms } => assert_eq!(delay_ms, 200),
        other => panic!("unexpected {:?}", other),
    }
}

#[test]
fn backoff_formula() {
    assert_eq!(backoff_delay_ms(100, 1, 0), 100);
    assert_eq!(backoff_delay_ms(100, 3, 7), 407);
    assert_eq!(backoff_delay_ms(100, 3, 30), 405);
    assert_eq!(backoff_delay_ms(3, 2, 99), 6);
    assert_eq!(backoff_delay_ms(u64::MAX / 2, 3, 0), u64::MAX);
}

#[test]
fn status_classes() {
    assert_eq!(classify_status(200), StatusClass::Success);
    assert_eq!(classify_status(204), StatusClass::Success);
    assert_eq!(classify_status(429), StatusClass::Retryable);
    assert_eq!(classify_status(502), StatusClass::Retryable);
    assert_eq!(classify_status(403), StatusClass::Fatal);
    assert_eq!(classify_status(301), StatusClass::Fatal);
}

#[test]
fn decimal_numbers() {
    assert_eq!(decimal(0), "0");
    assert_eq!(decimal(1234567890), "1234567890");
    assert_eq!(decimal(u64::MAX), u64::MAX.to_string());
    assert_eq!(parse_u64("42"), Some(42));
    assert_eq!(parse_u64("+42"), Some(42));
    assert_eq!(parse_u64(""), None);
    assert_eq!(parse_u64("-1"), None);
    assert_eq!(parse_u64("18446744073709551615"), Some(u64::MAX));
    assert_eq!(parse_u64("18446744073709551616"), None);
}

#[test]
fn rate_table_from_default_config() {
    let config = Config::default();
    let table = rate_limit_table(&config).unwrap();
    assert_eq!(table.len(), 6);
    assert_eq!(table[0], ("virustotal".to_string(), 4));
    let mut bad = Config::default();
    bad.rate_limits.push(("crtsh".to_string(), Some(0)));
    assert!(matches!(rate_limit_table(&bad), Err(RustFinderError::ConfigError(_))));
    let mut open = Config::default();
    open.rate_limits = vec![("crtsh".to_string(), None), ("x".to_string(), Some(2))];
    assert_eq!(rate_limit_table(&open).unwrap(), vec![("x".to_string(), 2)]);
}

#[test]
fn config_validation() {
    let config = Config::default();
    assert!(validate_config(&config).is_ok());
    let mut c = Config::default();
    c.timeout_secs = 0;
    assert!(matches!(validate_config(&c), Err(RustFinderError::ConfigError(_))));
    let mut c = Config::default();
    c.resolver.threads = 0;
    assert!(matches!(validate_config(&c), Err(RustFinderError::ConfigError(_))));
}

#[test]
fn sources_by_name() {
    assert_eq!(source_kind("VirusTotal"), Some(SourceKind::VirusTotal));
    assert_eq!(source_kind("crtsh"), Some(SourceKind::CrtSh));
    assert_eq!(source_kind("invalid"), None);
    let all = select_sources(&None).unwrap();
    assert_eq!(all.len(), 8);
    let some = select_sources(&Some(vec!["nope".into(), "SHODAN".into(), "github".into()])).unwrap();
    assert_eq!(some, vec![SourceKind::Shodan, SourceKind::GitHub]);
    assert!(matches!(select_sources(&Some(vec!["nope".into()])), Err(RustFinderError::ConfigError(_))));
}

#[test]
fn source_keys_and_info() {
    let s = ChaosSource::new();
    assert_eq!(s.name(), "chaos");
    assert!(s.get_random_api_key().is_none());
    let keys = vec!["k1".to_string(), "k2".to_string()];
    let s = s.with_api_keys(keys.clone());
    let k = s.get_random_api_key().unwrap();
    assert!(keys.contains(k));
    assert!(s.info().needs_key);
    let c = CrtShSource::new();
    assert_eq!(c.info().name, "crtsh");
    assert!(!c.info().needs_key);
}

#[test]
fn user_agent_is_one_of_the_list() {
    let ua = random_user_agent();
    assert!((0..USER_AGENT_COUNT).any(|i| user_agent(i) == ua));
    assert!(user_agent(0).starts_with("Mozilla/5.0"));
}
