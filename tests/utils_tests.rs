use rustfinder::sources::{kind_of_lowercase, requires_api_key, SourceKind};
use rustfinder::updater::is_newer_version;
use rustfinder::utils::{
    clean_lowered, clean_subdomain, deduplicate_by_keys, deduplicate_subdomains,
    extract_domain_from_url, filter_by_wildcard, is_valid_domain, parse_wildcard,
    progress_message, sort_by_level,
};
use rustfinder::types::RustFinderError;

#[test]
fn test_requires_api_key() {
    assert!(requires_api_key("virustotal"));
    assert!(requires_api_key("shodan"));
    assert!(!requires_api_key("invalid"));
}

#[test]
fn requires_api_key_ignores_case_and_keyless_sources() {
    assert!(requires_api_key("VirusTotal"));
    assert!(!requires_api_key("crtsh"));
    assert!(!requires_api_key("hackertarget"));
}

#[test]
fn test_version_comparison() {
    assert!(is_newer_version("1.1.0", "1.0.0"));
    assert!(is_newer_version("2.0.0", "1.9.9"));
    assert!(is_newer_version("1.0.1", "1.0.0"));
    assert!(!is_newer_version("1.0.0", "1.0.0"));
    assert!(!is_newer_version("1.0.0", "1.1.0"));
}

#[test]
fn version_comparison_edge_cases() {
    assert!(is_newer_version("1.0.0.1", "1.0.0"));
    assert!(!is_newer_version("1.0", "1.0.0"));
    assert!(is_newer_version("1.10.0", "1.9.0"));
    assert!(!is_newer_version("1.x.0", "1.0.0"));
    assert!(is_newer_version("+2", "1"));
}

#[test]
fn test_is_valid_domain() {
    assert!(is_valid_domain("example.com"));
    assert!(is_valid_domain("sub.example.com"));
    assert!(!is_valid_domain("example"));
    assert!(!is_valid_domain(""));
    assert!(!is_valid_domain("-example.com"));
    assert!(!is_valid_domain("example-.com"));
}

#[test]
fn domain_validation_limits() {
    let label63 = "a".repeat(63);
    let label64 = "a".repeat(64);
    assert!(is_valid_domain(&format!("{}.com", label63)));
    assert!(!is_valid_domain(&format!("{}.com", label64)));
    assert!(!is_valid_domain("nodothere"));
    assert!(!is_valid_domain("a..com"));
    assert!(!is_valid_domain(".example.com"));
    assert!(!is_valid_domain("example.com."));
    assert!(!is_valid_domain("exa_mple.com"));
    assert!(!is_valid_domain("exämple.com"));
    assert!(is_valid_domain("my-host.Example.COM"));
    let long = format!("{}.{}.{}.{}", label63, label63, label63, "a".repeat(61));
    assert_eq!(long.len(), 253);
    assert!(is_valid_domain(&long));
    let too_long = format!("{}.{}.{}.{}", label63, label63, label63, "a".repeat(62));
    assert!(!is_valid_domain(&too_long));
}

#[test]
fn test_clean_subdomain() {
    assert_eq!(clean_subdomain("sub.", "example.com"), "sub.example.com");
    assert_eq!(clean_subdomain("SUB", "example.com"), "sub.example.com");
    assert_eq!(clean_subdomain("sub.example.com", "example.com"), "sub.example.com");
}

#[test]
fn clean_subdomain_trims_and_keeps_empty() {
    assert_eq!(clean_subdomain("  Www.Example.COM.. ", "example.com"), "www.example.com");
    assert_eq!(clean_subdomain("...", "example.com"), "");
    assert_eq!(clean_subdomain("", "example.com"), "");
}

#[test]
fn test_deduplicate_subdomains() {
    let subdomains = vec![
        "sub1.example.com".to_string(),
        "SUB1.example.com".to_string(),
        "sub2.example.com".to_string(),
    ];

    let unique = deduplicate_subdomains(subdomains);
    assert_eq!(unique.len(), 2);
}

#[test]
fn deduplicate_keeps_first_spelling_in_order() {
    let unique = deduplicate_subdomains(vec![
        "B.example.com".to_string(),
        "a.example.com".to_string(),
        "b.EXAMPLE.com".to_string(),
        "A.example.com".to_string(),
    ]);
    assert_eq!(unique, vec!["B.example.com".to_string(), "a.example.com".to_string()]);
    assert!(deduplicate_subdomains(Vec::new()).is_empty());
}

#[test]
fn sort_by_level_orders_by_labels_then_text() {
    let sorted = sort_by_level(vec![
        "b.a.example.com".to_string(),
        "z.example.com".to_string(),
        "example.com".to_string(),
        "a.example.com".to_string(),
    ]);
    assert_eq!(
        sorted,
        vec![
            "example.com".to_string(),
            "a.example.com".to_string(),
            "z.example.com".to_string(),
            "b.a.example.com".to_string(),
        ]
    );
}

#[test]
fn progress_message_draws_bar() {
    assert_eq!(progress_message(5, 10, "working"), "[==========          ] 5/10 - working");
    assert_eq!(progress_message(0, 0, "idle"), "[                    ] 0/0 - idle");
    assert_eq!(progress_message(3, 3, "done"), "[====================] 3/3 - done");
    assert_eq!(progress_message(1, 3, "x"), "[======              ] 1/3 - x");
}

#[test]
fn wildcard_pattern_is_escaped_and_anchored() {
    assert_eq!(parse_wildcard("*.example.com").unwrap(), "^.*\\.example\\.com$");
    assert!(matches!(parse_wildcard("example.com"), Err(RustFinderError::InvalidDomain(_))));
}

#[test]
fn filter_by_wildcard_keeps_matches() {
    let names = vec![
        "a.example.com".to_string(),
        "b.test.com".to_string(),
        "aXexample.com".to_string(),
        "c.d.example.com".to_string(),
    ];
    let kept = filter_by_wildcard(names, "*.example.com").unwrap();
    assert_eq!(kept, vec!["a.example.com".to_string(), "c.d.example.com".to_string()]);
    let refused = filter_by_wildcard(vec!["a.example.com".to_string()], "example.com");
    assert!(matches!(refused, Err(RustFinderError::InvalidDomain(_))));
}

#[test]
fn kinds_of_lowercase_names() {
    assert_eq!(kind_of_lowercase("virustotal"), Some(SourceKind::VirusTotal));
    assert_eq!(kind_of_lowercase("hackertarget"), Some(SourceKind::HackerTarget));
    assert_eq!(kind_of_lowercase("VirusTotal"), None);
    assert_eq!(kind_of_lowercase(""), None);
}

#[test]
fn clean_lowered_names() {
    assert_eq!(clean_lowered("sub.", "example.com"), "sub.example.com");
    assert_eq!(clean_lowered("sub", "example.com"), "sub.example.com");
    assert_eq!(clean_lowered("sub.example.com..", "example.com"), "sub.example.com");
    assert_eq!(clean_lowered("..", "example.com"), "");
}

#[test]
fn clean_subdomain_trims_unicode_white_space() {
    assert_eq!(clean_subdomain("\u{a0}\tWWW\u{3000}", "example.com"), "www.example.com");
}

#[test]
fn deduplicate_by_given_keys() {
    let names = vec!["A".to_string(), "b".to_string(), "c".to_string(), "d".to_string()];
    let keys = vec!["x".to_string(), "y".to_string(), "x".to_string(), "z".to_string()];
    assert_eq!(deduplicate_by_keys(names, &keys), vec!["A".to_string(), "b".to_string(), "d".to_string()]);
}

#[test]
fn domains_from_urls() {
    assert_eq!(extract_domain_from_url("https://sub.example.com/path?q=1").unwrap(), "sub.example.com");
    assert!(matches!(extract_domain_from_url("not a url"), Err(RustFinderError::InvalidDomain(_))));
    assert!(matches!(extract_domain_from_url("mailto:someone"), Err(RustFinderError::InvalidDomain(_))));
}
