//! The data that flows through an enumeration run, and its errors.
use vstd::prelude::*;

verus! {

/// How a report is written out.
#[derive(Clone, Copy, Debug, PartialEq, Eq, Structural)]
pub enum OutputFormat {
    Text,
    Json,
    Csv,
}

/// Where and how reports are written.
#[derive(Clone, Debug)]
pub struct OutputConfig {
    pub format: OutputFormat,
    pub file: Option<String>,
    pub verbose: bool,
    pub include_ips: bool,
}

/// DNS resolution settings.
#[derive(Clone, Debug)]
pub struct ResolverConfig {
    pub enabled: bool,
    /// Largest number of lookups in flight at once.
    pub threads: usize,
    /// Per-lookup timeout, in seconds.
    pub timeout_secs: u64,
    /// Nameserver endpoints, as `address:port`.
    pub nameservers: Vec<String>,
    pub use_system_resolver: bool,
}

/// The configuration of one engine.
#[derive(Clone, Debug)]
pub struct Config {
    /// Per-source timeout, in seconds.
    pub timeout_secs: u64,
    pub user_agent: String,
    pub proxy: Option<String>,
    /// Requests per second allowed for a source; `None` leaves it unthrottled.
    /// Each source is listed at most once.
    pub rate_limits: Vec<(String, Option<u32>)>,
    /// API keys of each source. Each source is listed at most once.
    pub api_keys: Vec<(String, Vec<String>)>,
    pub output: OutputConfig,
    pub resolver: ResolverConfig,
    pub sources: Vec<String>,
    /// Largest number of retries of one request.
    pub retry_attempts: u32,
    /// Base delay of the exponential backoff, in milliseconds.
    pub retry_delay_ms: u64,
}

impl Config {
    /// Each source is listed at most once among the rate limits and at most
    /// once among the API keys.
    pub open spec fn wf(&self) -> bool {
        &&& forall|i: int, j: int|
            0 <= i < self.rate_limits@.len() && 0 <= j < self.rate_limits@.len() && i != j
                ==> self.rate_limits@[i].0@ != self.rate_limits@[j].0@
        &&& forall|i: int, j: int|
            0 <= i < self.api_keys@.len() && 0 <= j < self.api_keys@.len() && i != j
                ==> self.api_keys@[i].0@ != self.api_keys@[j].0@
    }
}

/// One candidate subdomain, with where it came from and what it resolves to.
#[derive(Clone, Debug)]
pub struct SubdomainResult {
    pub subdomain: String,
    pub source: String,
    pub resolved: bool,
    pub ip_addresses: Vec<String>,
}

/// The mathematical value of a [`SubdomainResult`].
pub struct Candidate {
    pub name: Seq<char>,
    pub source: Seq<char>,
    pub resolved: bool,
    pub addresses: Seq<Seq<char>>,
}

impl View for SubdomainResult {
    type V = Candidate;

    open spec fn view(&self) -> Candidate {
        Candidate {
            name: self.subdomain@,
            source: self.source@,
            resolved: self.resolved,
            addresses: self.ip_addresses.deep_view(),
        }
    }
}

/// The values of a sequence of results.
pub open spec fn candidates(v: Seq<SubdomainResult>) -> Seq<Candidate> {
    v.map_values(|r: SubdomainResult| r@)
}

/// Summary of one run over one domain, or of a whole run.
#[derive(Clone, Debug)]
pub struct EnumerationStats {
    pub total_found: usize,
    pub unique_subdomains: usize,
    pub resolved_count: usize,
    pub sources_used: Vec<String>,
    /// Elapsed time, in milliseconds.
    pub duration_ms: u64,
}

/// What one domain's enumeration produced.
#[derive(Clone, Debug)]
pub struct DomainReport {
    pub domain: String,
    pub subdomains: Vec<SubdomainResult>,
    pub stats: EnumerationStats,
    pub timestamp: String,
}

/// What a source says about itself.
#[derive(Clone, Debug)]
pub struct SourceInfo {
    pub name: String,
    pub needs_key: bool,
    pub is_default: bool,
}

/// Everything that can go wrong.
#[derive(Clone, Debug)]
pub enum RustFinderError {
    ConfigError(String),
    SourceError { source_name: String, message: String },
    NetworkError(String),
    HttpError(String),
    ParseError(String),
    JsonParseError(String, String),
    ResolutionError(String),
    OutputError(String),
    RateLimitError(String),
    RateLimitExceeded { source_name: String, message: String },
    ApiKeyError(String),
    InvalidDomain(String),
    TimeoutError(String),
    Unknown(String),
}

/// Copies a list of strings.
pub fn copy_strings(v: &Vec<String>) -> (r: Vec<String>)
    ensures
        r.deep_view() == v.deep_view(),
{
    let mut out: Vec<String> = Vec::new();
    let mut i: usize = 0;
    while i < v.len()
        invariant
            i <= v@.len(),
            out@.len() == i,
            forall|k: int| 0 <= k < i ==> out@[k]@ == v@[k]@,
        decreases v@.len() - i,
    {
        out.push(v[i].clone());
        i += 1;
    }
    assert(out.deep_view() =~= v.deep_view());
    out
}

impl SubdomainResult {
    /// A copy with the same value.
    pub fn duplicate(&self) -> (r: SubdomainResult)
        ensures
            r@ == self@,
    {
        SubdomainResult {
            subdomain: self.subdomain.clone(),
            source: self.source.clone(),
            resolved: self.resolved,
            ip_addresses: copy_strings(&self.ip_addresses),
        }
    }
}

} // verus!
