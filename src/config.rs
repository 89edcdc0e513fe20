//! Default settings and the check of a configuration.
use vstd::prelude::*;
use crate::sources::keys_for;
use crate::text::{owned, split_char, split_on, trim_of, trimmed};
use crate::types::{Config, OutputConfig, OutputFormat, ResolverConfig, RustFinderError};

verus! {

impl Default for OutputConfig {
    /// Text on standard output, addresses included.
    fn default() -> (r: Self)
        ensures
            r.format == OutputFormat::Text,
            r.file is None,
            !r.verbose,
            r.include_ips,
    {
        OutputConfig { format: OutputFormat::Text, file: None, verbose: false, include_ips: true }
    }
}

impl Default for ResolverConfig {
    /// Resolution on, 50 lookups at once, 5 s each, four public nameservers.
    fn default() -> (r: Self)
        ensures
            r.enabled,
            r.threads == 50,
            r.timeout_secs == 5,
            r.nameservers@.len() == 4,
            !r.use_system_resolver,
    {
        ResolverConfig {
            enabled: true,
            threads: 50,
            timeout_secs: 5,
            nameservers: vec![
                owned("8.8.8.8:53"),
                owned("8.8.4.4:53"),
                owned("1.1.1.1:53"),
                owned("1.0.0.1:53"),
            ],
            use_system_resolver: false,
        }
    }
}

impl Default for Config {
    /// A 30 s timeout, the keyed sources throttled, no API keys, 3 retries
    /// from a 1 s base delay.
    fn default() -> (r: Self)
        ensures
            r.timeout_secs == 30,
            r.proxy is None,
            r.rate_limits@.len() == 6,
            r.api_keys@.len() == 0,
            r.sources@.len() == 6,
            r.resolver.threads == 50,
            r.retry_attempts == 3,
            r.retry_delay_ms == 1000,
            r.wf(),
    {
        let rate_limits = vec![
            (owned("virustotal"), Some(4u32)),
            (owned("securitytrails"), Some(1u32)),
            (owned("shodan"), Some(1u32)),
            (owned("chaos"), Some(60u32)),
            (owned("github"), Some(5u32)),
            (owned("netlas"), Some(1u32)),
        ];
        proof {
            reveal_strlit("virustotal");
            reveal_strlit("securitytrails");
            reveal_strlit("shodan");
            reveal_strlit("chaos");
            reveal_strlit("github");
            reveal_strlit("netlas");
            // the names differ in their first character or their length
            assert forall|i: int, j: int|
                0 <= i < rate_limits@.len() && 0 <= j < rate_limits@.len() && i != j implies rate_limits@[i].0@
                    != rate_limits@[j].0@ by {
                let a = rate_limits@[i].0@;
                let b = rate_limits@[j].0@;
                if a == b {
                    assert(a[0] == b[0] && a.len() == b.len());
                }
            }
        }
        Config {
            timeout_secs: 30,
            user_agent: owned("RustFinder/1.0"),
            proxy: None,
            rate_limits,
            api_keys: Vec::new(),
            output: OutputConfig::default(),
            resolver: ResolverConfig::default(),
            sources: vec![
                owned("virustotal"),
                owned("securitytrails"),
                owned("shodan"),
                owned("chaos"),
                owned("github"),
                owned("netlas"),
            ],
            retry_attempts: 3,
            retry_delay_ms: 1000,
        }
    }
}

/// Rejects a configuration with a zero timeout or no resolver threads.
pub fn validate_config(config: &Config) -> (r: Result<(), RustFinderError>)
    ensures
        r is Ok <==> (config.timeout_secs > 0 && config.resolver.threads > 0),
        r is Err ==> r->Err_0 is ConfigError,
{
    if config.timeout_secs == 0 {
        return Err(RustFinderError::ConfigError(owned("the timeout must be greater than 0")));
    }
    if config.resolver.threads == 0 {
        return Err(
            RustFinderError::ConfigError(owned("the resolver threads must be greater than 0")),
        );
    }
    Ok(())
}

/// The keys of a comma-separated list, each trimmed.
pub fn keys_from_list(text: &str) -> (r: Vec<String>)
    ensures
        r.deep_view() == split_char(text@, ',').map_values(|k: Seq<char>| trim_of(k)),
{
    let parts = split_on(text, ',');
    let mut out: Vec<String> = Vec::new();
    let mut i: usize = 0;
    while i < parts.len()
        invariant
            i <= parts@.len(),
            out@.len() == i,
            forall|k: int| 0 <= k < i ==> out@[k]@ == trim_of(parts@[k]@),
        decreases parts@.len() - i,
    {
        let t = trimmed(parts[i].as_str());
        out.push(owned(t));
        i += 1;
    }
    assert(out.deep_view() =~= parts.deep_view().map_values(|k: Seq<char>| trim_of(k)));
    out
}

/// Sets the API keys of source `name`, replacing any it had.
pub fn set_api_keys(config: &mut Config, name: String, keys: Vec<String>)
    requires
        old(config).wf(),
    ensures
        final(config).wf(),
        keys_for(final(config).api_keys@, name@) == keys.deep_view(),
        forall|n: Seq<char>| n != name@ ==> keys_for(final(config).api_keys@, n) == keys_for(
            old(config).api_keys@,
            n,
        ),
        forall|i: int, j: int|
            0 <= i < final(config).api_keys@.len() && 0 <= j < final(config).api_keys@.len() && i
                != j ==> final(config).api_keys@[i].0@ != final(config).api_keys@[j].0@,
        final(config).timeout_secs == old(config).timeout_secs,
        final(config).rate_limits == old(config).rate_limits,
        final(config).resolver == old(config).resolver,
        final(config).output == old(config).output,
{
    let ghost ak = config.api_keys@;
    match position_of(&config.api_keys, &name) {
        Some(i) => {
            config.api_keys[i].1 = keys;
            proof {
                lemma_keys_for_update(ak, i as int, config.api_keys@, name@);
            }
        },
        None => {
            config.api_keys.push((name, keys));
            proof {
                lemma_keys_for_push(ak, config.api_keys@, name@);
            }
        },
    }
}

/// Where the entry named `name` stands, if there is one.
fn position_of(ak: &Vec<(String, Vec<String>)>, name: &String) -> (r: Option<usize>)
    ensures
        match r {
            Some(i) => i < ak@.len() && ak@[i as int].0@ == name@ && forall|k: int|
                0 <= k < i ==> ak@[k].0@ != name@,
            None => forall|k: int| 0 <= k < ak@.len() ==> ak@[k].0@ != name@,
        },
{
    let mut i: usize = 0;
    while i < ak.len()
        invariant
            i <= ak@.len(),
            forall|k: int| 0 <= k < i ==> ak@[k].0@ != name@,
        decreases ak@.len() - i,
    {
        if ak[i].0 == *name {
            return Some(i);
        }
        i += 1;
    }
    None
}

proof fn lemma_keys_for_update(
    ak: Seq<(String, Vec<String>)>,
    i: int,
    nk: Seq<(String, Vec<String>)>,
    name: Seq<char>,
)
    requires
        0 <= i < ak.len(),
        ak[i].0@ == name,
        nk.len() == ak.len(),
        nk[i].0 == ak[i].0,
        forall|k: int| 0 <= k < ak.len() && k != i ==> nk[k] == ak[k],
        forall|k: int| 0 <= k < i ==> ak[k].0@ != name,
    ensures
        keys_for(nk, name) == nk[i].1.deep_view(),
        forall|n: Seq<char>| n != name ==> keys_for(nk, n) == keys_for(ak, n),
    decreases i,
{
    if i > 0 {
        assert(ak.drop_first()[i - 1] == ak[i]);
        lemma_keys_for_update(ak.drop_first(), i - 1, nk.drop_first(), name);
        assert(nk[0] == ak[0]);
        assert(keys_for(nk, name) == keys_for(nk.drop_first(), name));
        assert forall|n: Seq<char>| n != name implies keys_for(nk, n) == keys_for(ak, n) by {
            if nk[0].0@ != n {
                assert(keys_for(nk, n) == keys_for(nk.drop_first(), n));
                assert(keys_for(ak, n) == keys_for(ak.drop_first(), n));
                assert(keys_for(nk.drop_first(), n) == keys_for(ak.drop_first(), n));
            }
        }
    } else {
        assert forall|n: Seq<char>| n != name implies keys_for(nk, n) == keys_for(ak, n) by {
            assert(nk.drop_first() =~= ak.drop_first()) by {
                assert forall|k: int| 0 <= k < nk.drop_first().len() implies nk.drop_first()[k]
                    == ak.drop_first()[k] by {
                    assert(nk[k + 1] == ak[k + 1]);
                }
            }
        }
    }
}

proof fn lemma_keys_for_push(
    ak: Seq<(String, Vec<String>)>,
    nk: Seq<(String, Vec<String>)>,
    name: Seq<char>,
)
    requires
        nk.len() == ak.len() + 1,
        forall|k: int| 0 <= k < ak.len() ==> nk[k] == ak[k],
        forall|k: int| 0 <= k < ak.len() ==> ak[k].0@ != name,
        nk[ak.len() as int].0@ == name,
    ensures
        keys_for(nk, name) == nk[ak.len() as int].1.deep_view(),
        forall|n: Seq<char>| n != name ==> keys_for(nk, n) == keys_for(ak, n),
    decreases ak.len(),
{
    if ak.len() > 0 {
        lemma_keys_for_push(ak.drop_first(), nk.drop_first(), name);
        assert(nk[0] == ak[0]);
        assert(nk.drop_first()[ak.len() - 1] == nk[ak.len() as int]);
        assert(keys_for(nk, name) == keys_for(nk.drop_first(), name));
        assert forall|n: Seq<char>| n != name implies keys_for(nk, n) == keys_for(ak, n) by {
            if nk[0].0@ != n {
                assert(keys_for(nk, n) == keys_for(nk.drop_first(), n));
                assert(keys_for(ak, n) == keys_for(ak.drop_first(), n));
                assert(keys_for(nk.drop_first(), n) == keys_for(ak.drop_first(), n));
            }
        }
    } else {
        assert forall|n: Seq<char>| n != name implies keys_for(nk, n) == keys_for(ak, n) by {
            assert(nk.drop_first().len() == 0);
            assert(keys_for(nk.drop_first(), n) == Seq::<Seq<char>>::empty());
        }
    }
}

} // verus!
