use rustfinder::harvest::{
    certificate_results, classify_certificate_body, code_search_fragments, code_search_results,
    github_search_url, next_shodan_page,
    hackertarget_results, netlas_results, prefixed_results, qualified_results, shodan_results,
    status_error, virustotal_results, CertificateBody, ShodanPage,
};
use rustfinder::sources::SourceKind;
use rustfinder::types::{RustFinderError, SubdomainResult};
use rustfinder::utils::extract_subdomains_from_text;

fn names(v: &[SubdomainResult]) -> Vec<&str> {
    v.iter().map(|r| r.subdomain.as_str()).collect()
}

fn strings(v: &[&str]) -> Vec<String> {
    v.iter().map(|s| s.to_string()).collect()
}

#[test]
fn chaos_names_are_qualified_once() {
    let r = qualified_results(&strings(&["www", "api.example.com", "www"]), "example.com", "chaos");
    assert_eq!(names(&r), vec!["www.example.com", "api.example.com"]);
    assert!(r.iter().all(|c| c.source == "chaos" && !c.resolved && c.ip_addresses.is_empty()));
}

#[test]
fn securitytrails_labels_get_the_domain() {
    let r = prefixed_results(&strings(&["a", "b", "a"]), "example.com", "securitytrails");
    assert_eq!(names(&r), vec!["a.example.com", "b.example.com"]);
}

#[test]
fn shodan_pages_merge_labels_and_records() {
    let pages = vec![
        ShodanPage {
            domain: "example.com".to_string(),
            labels: strings(&["mail", "www"]),
            records: strings(&["www.example.com", "dev"]),
        },
        ShodanPage {
            domain: "example.com".to_string(),
            labels: strings(&["api", "mail"]),
            records: strings(&["ci"]),
        },
    ];
    let r = shodan_results(&pages, "example.com", "shodan");
    assert_eq!(
        names(&r),
        vec!["mail.example.com", "www.example.com", "dev.example.com", "api.example.com", "ci.example.com"]
    );
}

#[test]
fn netlas_names_are_cleaned_and_filtered() {
    let r = netlas_results(
        &strings(&["WWW.Example.com.", "example.com", "other.org", "www.example.com"]),
        "example.com",
        "netlas",
    );
    assert_eq!(names(&r), vec!["www.example.com"]);
}

#[test]
fn certificate_lines_are_split_and_filtered() {
    let r = certificate_results(
        &strings(&["a.example.com\n*.example.com\r\nB.example.com", "example.com\na.example.com\n"]),
        "example.com",
        "crtsh",
    );
    assert_eq!(names(&r), vec!["a.example.com", "b.example.com"]);
}

#[test]
fn certificate_body_kinds() {
    assert_eq!(classify_certificate_body("  <!DOCTYPE html>"), CertificateBody::Html);
    assert_eq!(classify_certificate_body("<html>"), CertificateBody::Html);
    assert_eq!(classify_certificate_body(" [] "), CertificateBody::Empty);
    assert_eq!(classify_certificate_body("   "), CertificateBody::Empty);
    assert_eq!(classify_certificate_body("[{\"id\":1}]"), CertificateBody::Data);
}

#[test]
fn hackertarget_lines_become_candidates() {
    let text = "www.example.com,1.2.3.4\r\nerror check your api\n\nMAIL.example.com\nother.org,5.6.7.8\n";
    let r = hackertarget_results(text, "example.com", "hackertarget");
    assert_eq!(names(&r), vec!["www.example.com", "mail.example.com"]);
    assert!(r[0].resolved);
    assert_eq!(r[0].ip_addresses, vec!["1.2.3.4".to_string()]);
    assert!(!r[1].resolved);
    assert!(r[1].ip_addresses.is_empty());
}

#[test]
fn virustotal_ids_lose_the_domain() {
    let r = virustotal_results(&strings(&["www.example.com", "example.com", "a.b.example.com"]), "example.com", "virustotal");
    assert_eq!(names(&r), vec!["www", "a.b"]);
}

#[test]
fn rate_limit_answers_are_recognised() {
    match status_error(SourceKind::GitHub, "github", 403, "API rate limit exceeded") {
        RustFinderError::RateLimitError(s) => assert_eq!(s, "github"),
        other => panic!("unexpected {:?}", other),
    }
    match status_error(SourceKind::GitHub, "github", 403, "forbidden") {
        RustFinderError::SourceError { source_name, message } => {
            assert_eq!(source_name, "github");
            assert_eq!(message, "status 403: forbidden");
        }
        other => panic!("unexpected {:?}", other),
    }
    assert!(matches!(status_error(SourceKind::Netlas, "netlas", 429, ""), RustFinderError::RateLimitError(_)));
    assert!(matches!(status_error(SourceKind::Shodan, "shodan", 500, "rate limit"), RustFinderError::RateLimitError(_)));
    assert!(matches!(status_error(SourceKind::Chaos, "chaos", 429, "rate limit"), RustFinderError::SourceError { .. }));
}

#[test]
fn github_url_is_percent_encoded() {
    assert_eq!(
        github_search_url("example.com"),
        "https://api.github.com/search/code?q=%22example.com%22&sort=indexed&order=desc&per_page=30"
    );
}

#[test]
fn names_are_found_in_text() {
    let text = "see https://API.example.com/x and mail.example.com, not example.com or a..example.com";
    let mut found = extract_subdomains_from_text(text, "example.com").unwrap();
    found.sort();
    assert_eq!(found, vec!["api.example.com".to_string(), "mail.example.com".to_string()]);
}

#[test]
fn code_search_fragments_are_merged() {
    let r = code_search_results(
        &strings(&["host = dev.example.com", "dev.example.com and ci.example.com"]),
        "example.com",
        "github",
    );
    assert_eq!(names(&r), vec!["dev.example.com", "ci.example.com"]);
}

#[test]
fn shodan_pages_stop_at_the_limit() {
    assert_eq!(next_shodan_page(Some(true), 1), Some(2));
    assert_eq!(next_shodan_page(Some(true), 5), None);
    assert_eq!(next_shodan_page(Some(false), 1), None);
    assert_eq!(next_shodan_page(None, 2), None);
}

#[test]
fn code_search_reads_thirty_items() {
    let items: Vec<Vec<String>> = (0..31).map(|i| vec![format!("f{}", i), format!("g{}", i)]).collect();
    let f = code_search_fragments(&items);
    assert_eq!(f.len(), 60);
    assert_eq!(f[0], "f0");
    assert_eq!(f[59], "g29");
    let few = code_search_fragments(&vec![vec![], vec!["x".to_string()]]);
    assert_eq!(few, vec!["x".to_string()]);
}
