use rustfinder::cli::{apply_args, gather_domains, Args};
use rustfinder::config::{keys_from_list, set_api_keys};
use rustfinder::engine::build_report;
use rustfinder::output::OutputManager;
use rustfinder::sources::{api_keys_for, source_listing};
use rustfinder::types::{Config, OutputConfig, OutputFormat, SourceInfo, SubdomainResult};
use rustfinder::updater::auto_update_enabled;

fn sample_report() -> rustfinder::types::DomainReport {
    let subs = vec![
        SubdomainResult {
            subdomain: "a.example.com".into(),
            source: "crtsh".into(),
            resolved: true,
            ip_addresses: vec!["1.2.3.4".into(), "5.6.7.8".into()],
        },
        SubdomainResult { subdomain: "b.example.com".into(), source: "chaos".into(), resolved: false, ip_addresses: vec![] },
    ];
    build_report("example.com", subs, vec![], 1500, "t".into())
}

fn manager(format: OutputFormat, include_ips: bool) -> OutputManager {
    OutputManager::new(OutputConfig { format, file: None, verbose: false, include_ips })
}

#[test]
fn text_report_layout() {
    let mut out = String::new();
    assert!(manager(OutputFormat::Text, true).write_output(&mut out, &sample_report()));
    assert_eq!(
        out,
        "\n[*] Domain: example.com\n[*] Found 2 unique subdomains\n[*] Resolved: 1/2\n[*] Duration: 1500ms\n\n[*] Results:\na.example.com [crtsh] - 1.2.3.4, 5.6.7.8\nb.example.com [chaos]\n"
    );
}

#[test]
fn csv_report_layout() {
    let mut out = String::new();
    manager(OutputFormat::Csv, true).write_csv_output(&mut out, &sample_report());
    assert_eq!(
        out,
        "subdomain,source,resolved,ip_addresses\na.example.com,crtsh,true,\"1.2.3.4, 5.6.7.8\"\nb.example.com,chaos,false,\"\"\n"
    );
    let mut plain = String::new();
    manager(OutputFormat::Csv, false).write_output(&mut plain, &sample_report());
    assert_eq!(plain, "subdomain,source,resolved\na.example.com,crtsh,true\nb.example.com,chaos,false\n");
}

#[test]
fn json_is_left_to_the_serializer() {
    let mut out = String::from("x");
    assert!(!manager(OutputFormat::Json, true).write_output(&mut out, &sample_report()));
    assert_eq!(out, "x");
}

fn args() -> Args {
    Args {
        domain: vec!["example.com".into()],
        domains_file: None,
        output_file: Some("out.txt".into()),
        json: true,
        csv: true,
        sources: None,
        silent: false,
        verbose: true,
        no_resolve: true,
        list_sources: false,
        update: false,
        config_path: None,
    }
}

#[test]
fn command_line_overrides_configuration() {
    let mut config = Config::default();
    apply_args(&mut config, &args());
    assert_eq!(config.output.file.as_deref(), Some("out.txt"));
    assert!(config.output.verbose);
    assert_eq!(config.output.format, OutputFormat::Csv);
    assert!(!config.resolver.enabled);
    assert_eq!(config.timeout_secs, 30);
    assert!(!args().use_stdin(true));
}

#[test]
fn domains_are_gathered_and_trimmed() {
    let d = gather_domains(&vec!["a.com".into()], &vec!["  b.com ".into(), "c.com\t".into()]);
    assert_eq!(d, vec!["a.com".to_string(), "b.com".to_string(), "c.com".to_string()]);
}

#[test]
fn api_keys_from_environment_value() {
    assert_eq!(keys_from_list(" k1, k2 ,k3"), vec!["k1".to_string(), "k2".to_string(), "k3".to_string()]);
    let mut config = Config::default();
    set_api_keys(&mut config, "virustotal".into(), vec!["a".into()]);
    set_api_keys(&mut config, "shodan".into(), vec!["s".into()]);
    set_api_keys(&mut config, "virustotal".into(), vec!["b".into(), "c".into()]);
    assert_eq!(config.api_keys.len(), 2);
    assert_eq!(api_keys_for(&config, "virustotal"), vec!["b".to_string(), "c".to_string()]);
    assert_eq!(api_keys_for(&config, "shodan"), vec!["s".to_string()]);
    assert!(api_keys_for(&config, "chaos").is_empty());
}

#[test]
fn auto_update_setting() {
    assert!(auto_update_enabled("true"));
    assert!(auto_update_enabled("TRUE"));
    assert!(auto_update_enabled("1"));
    assert!(!auto_update_enabled("false"));
    assert!(!auto_update_enabled("0"));
}

#[test]
fn sources_are_listed_in_groups() {
    let infos = vec![
        SourceInfo { name: "crtsh".into(), needs_key: false, is_default: true },
        SourceInfo { name: "shodan".into(), needs_key: true, is_default: true },
        SourceInfo { name: "extra".into(), needs_key: false, is_default: false },
    ];
    let l = source_listing(&infos);
    assert_eq!(l.default_sources, vec!["crtsh".to_string()]);
    assert_eq!(l.api_sources, vec!["shodan *".to_string()]);
    assert_eq!(l.additional_sources, vec!["extra".to_string()]);
}

#[test]
fn verbose_lines_for_found_results() {
    let report = sample_report();
    let verbose = OutputManager::new(OutputConfig { format: OutputFormat::Text, file: None, verbose: true, include_ips: true });
    assert_eq!(
        verbose.write_subdomains(&report.subdomains),
        vec!["[crtsh] a.example.com - 1.2.3.4, 5.6.7.8".to_string(), "[chaos] b.example.com".to_string()]
    );
    assert!(manager(OutputFormat::Text, true).write_subdomains(&report.subdomains).is_empty());
}
