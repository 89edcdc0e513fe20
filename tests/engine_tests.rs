use rustfinder::engine::{build_report, check_domain, check_domains_given, sorted_results, RunTotals};
use rustfinder::merge::ResultSet;
use rustfinder::resolver::{apply_lookup, LookupScheduler};
use rustfinder::types::{RustFinderError, SubdomainResult};

fn cand(name: &str, source: &str, resolved: bool, ips: &[&str]) -> SubdomainResult {
    SubdomainResult {
        subdomain: name.to_string(),
        source: source.to_string(),
        resolved,
        ip_addresses: ips.iter().map(|s| s.to_string()).collect(),
    }
}

fn merged(batches: Vec<Vec<SubdomainResult>>) -> Vec<SubdomainResult> {
    let mut set = ResultSet::new();
    for b in batches {
        set.merge_batch(b);
    }
    sorted_results(set)
}

#[test]
fn scenario_two_sources_without_resolution() {
    let results = merged(vec![
        vec![cand("a.example.com", "one", false, &[])],
        vec![cand("A.example.com", "two", false, &[]), cand("b.example.com", "two", false, &[])],
    ]);
    let report = build_report("example.com", results, vec!["one".into(), "two".into()], 5, "t".into());
    let names: Vec<&str> = report.subdomains.iter().map(|s| s.subdomain.as_str()).collect();
    assert_eq!(names, vec!["a.example.com", "b.example.com"]);
    assert!(report.subdomains.iter().all(|s| !s.resolved && s.ip_addresses.is_empty()));
    assert_eq!(report.subdomains[0].source, "one");
    assert_eq!(report.stats.unique_subdomains, 2);
    assert_eq!(report.stats.total_found, 2);
    assert_eq!(report.stats.resolved_count, 0);
    assert_eq!(report.stats.sources_used, vec!["one".to_string(), "two".to_string()]);
    assert_eq!(report.domain, "example.com");
}

#[test]
fn scenario_two_sources_with_resolution() {
    let mut results = merged(vec![
        vec![cand("a.example.com", "one", false, &[])],
        vec![cand("A.example.com", "two", false, &[]), cand("b.example.com", "two", false, &[])],
    ]);
    apply_lookup(&mut results, 0, vec!["1.2.3.4".to_string()]);
    apply_lookup(&mut results, 1, Vec::new());
    let report = build_report("example.com", results, vec![], 0, String::new());
    assert_eq!(report.subdomains[0].subdomain, "a.example.com");
    assert!(report.subdomains[0].resolved);
    assert_eq!(report.subdomains[0].ip_addresses, vec!["1.2.3.4".to_string()]);
    assert_eq!(report.subdomains[1].subdomain, "b.example.com");
    assert!(!report.subdomains[1].resolved);
    assert!(report.subdomains[1].ip_addresses.is_empty());
    assert_eq!(report.stats.resolved_count, 1);
}

#[test]
fn failed_lookup_unresolves_a_resolved_candidate() {
    let mut results = vec![cand("a.example.com", "s", true, &["1.2.3.4"])];
    apply_lookup(&mut results, 0, Vec::new());
    assert_eq!(results[0].subdomain, "a.example.com");
    assert!(!results[0].resolved);
    assert!(results[0].ip_addresses.is_empty());
}

#[test]
fn lookup_overwrites_addresses() {
    let mut results = vec![cand("a.example.com", "s", true, &["1.2.3.4"])];
    apply_lookup(&mut results, 0, vec!["5.6.7.8".to_string()]);
    assert!(results[0].resolved);
    assert_eq!(results[0].ip_addresses, vec!["5.6.7.8".to_string()]);
}

#[test]
fn failed_lookup_keeps_source_addresses_of_unresolved_candidate() {
    let mut results = vec![cand("a.example.com", "s", false, &["9.9.9.9"]), cand("b.example.com", "s", true, &["1.1.1.1"])];
    apply_lookup(&mut results, 0, Vec::new());
    assert!(!results[0].resolved);
    assert_eq!(results[0].ip_addresses, vec!["9.9.9.9".to_string()]);
    assert!(results[1].resolved);
    assert_eq!(results[1].ip_addresses, vec!["1.1.1.1".to_string()]);
}

#[test]
fn invalid_domains_are_refused() {
    for d in ["", "nodothere"] {
        match check_domain(d) {
            Err(RustFinderError::InvalidDomain(x)) => assert_eq!(x, d),
            other => panic!("unexpected {:?}", other),
        }
    }
    assert!(check_domain("example.com").is_ok());
}

#[test]
fn names_differing_in_case_merge_into_one_entry() {
    let results = merged(vec![vec![
        cand("Foo.example.com", "one", false, &[]),
        cand("foo.EXAMPLE.com", "two", true, &[]),
        cand(" foo.example.com ", "three", false, &[]),
    ]]);
    assert_eq!(results.len(), 1);
    assert_eq!(results[0].subdomain, "foo.example.com");
    assert_eq!(results[0].source, "one");
    assert!(results[0].resolved);
}

#[test]
fn merge_order_does_not_change_content() {
    let b1 = vec![cand("x.example.com", "one", false, &["1.1.1.1"]), cand("y.example.com", "one", false, &[])];
    let b2 = vec![cand("X.example.com", "two", true, &["2.2.2.2", "1.1.1.1"]), cand("z.example.com", "two", false, &[])];
    let r1 = merged(vec![b1.clone(), b2.clone()]);
    let r2 = merged(vec![b2, b1]);
    assert_eq!(r1.len(), r2.len());
    for (a, b) in r1.iter().zip(r2.iter()) {
        assert_eq!(a.subdomain, b.subdomain);
        assert_eq!(a.resolved, b.resolved);
        let mut aa = a.ip_addresses.clone();
        let mut bb = b.ip_addresses.clone();
        aa.sort();
        bb.sort();
        assert_eq!(aa, bb);
    }
    assert_eq!(r1[0].ip_addresses, vec!["1.1.1.1".to_string(), "2.2.2.2".to_string()]);
}

#[test]
fn empty_run_gives_empty_report() {
    let report = build_report("example.com", merged(vec![]), vec!["one".into()], 1, "now".into());
    assert!(report.subdomains.is_empty());
    assert_eq!(report.stats.unique_subdomains, 0);
}

#[test]
fn result_set_counts_distinct_names() {
    let mut set = ResultSet::new();
    set.merge_candidate(cand("a.example.com", "s", false, &[]));
    set.merge_candidate(cand("A.EXAMPLE.COM", "s", false, &[]));
    set.merge_candidate(cand("b.example.com", "s", false, &[]));
    assert_eq!(set.len(), 2);
}

#[test]
fn scheduler_never_exceeds_limit() {
    let mut s = LookupScheduler::new(10, 3);
    let mut started = Vec::new();
    let mut max_seen = 0;
    while !s.is_done() {
        while let Some(i) = s.start() {
            started.push(i);
            max_seen = max_seen.max(s.in_flight());
        }
        assert!(s.in_flight() <= 3);
        s.finish();
    }
    assert_eq!(max_seen, 3);
    assert_eq!(started, (0..10).collect::<Vec<usize>>());
}

#[test]
fn run_totals_accumulate_over_domains() {
    let r1 = build_report("a.com", vec![cand("x.a.com", "s", true, &["1.1.1.1"])], vec![], 0, String::new());
    let r2 = build_report("b.com", vec![cand("x.b.com", "s", false, &[]), cand("y.b.com", "s", false, &[])], vec![], 0, String::new());
    let mut t = RunTotals::new();
    t.add(&r1.stats);
    t.add(&r2.stats);
    let stats = t.into_stats(vec!["s".to_string()], 9);
    assert_eq!(stats.total_found, 3);
    assert_eq!(stats.unique_subdomains, 3);
    assert_eq!(stats.resolved_count, 1);
    assert_eq!(stats.duration_ms, 9);
}

#[test]
fn keyed_merge_uses_the_given_key() {
    let mut set = ResultSet::new();
    set.merge_keyed("a.example.com".to_string(), cand("A.Example.com", "one", false, &["1.1.1.1"]));
    set.merge_keyed("a.example.com".to_string(), cand("a.EXAMPLE.com", "two", true, &["1.1.1.1", "2.2.2.2"]));
    let r = set.into_entries();
    assert_eq!(r.len(), 1);
    assert_eq!(r[0].subdomain, "a.example.com");
    assert_eq!(r[0].source, "one");
    assert!(r[0].resolved);
    assert_eq!(r[0].ip_addresses, vec!["1.1.1.1".to_string(), "2.2.2.2".to_string()]);
}

#[test]
fn run_needs_a_domain() {
    assert!(matches!(check_domains_given(&Vec::new()), Err(RustFinderError::ConfigError(_))));
    assert!(check_domains_given(&vec!["example.com".to_string()]).is_ok());
}
