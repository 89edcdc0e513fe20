//! The command-line options, as plain values, and how they adjust a
//! configuration.
use vstd::prelude::*;
use crate::text::{trim_of, trimmed, push_str_chars};
use crate::types::{Config, OutputFormat};

verus! {

/// The options of one invocation.
#[derive(Clone, Debug)]
pub struct Args {
    pub domain: Vec<String>,
    pub domains_file: Option<String>,
    pub output_file: Option<String>,
    pub json: bool,
    pub csv: bool,
    pub sources: Option<Vec<String>>,
    pub silent: bool,
    pub verbose: bool,
    pub no_resolve: bool,
    pub list_sources: bool,
    pub update: bool,
    pub config_path: Option<String>,
}

impl Args {
    /// Domains are read from standard input: none were given on the command
    /// line or in a file, and standard input is a terminal.
    pub fn use_stdin(&self, stdin_is_terminal: bool) -> (r: bool)
        ensures
            r == (self.domain@.len() == 0 && self.domains_file is None && stdin_is_terminal),
    {
        self.domain.len() == 0 && self.domains_file.is_none() && stdin_is_terminal
    }
}

/// The configuration after the command-line options: an output file replaces
/// the configured one, `verbose` turns verbosity on, `json` then `csv` choose
/// the format (CSV wins when both are given), `no_resolve` turns resolution
/// off. Nothing else changes.
pub open spec fn overridden(c: Config, a: Args) -> Config {
    let file = if a.output_file is Some { a.output_file } else { c.output.file };
    let verbose = c.output.verbose || a.verbose;
    let format = if a.csv {
        OutputFormat::Csv
    } else if a.json {
        OutputFormat::Json
    } else {
        c.output.format
    };
    let enabled = c.resolver.enabled && !a.no_resolve;
    Config {
        output: crate::types::OutputConfig { file, verbose, format, ..c.output },
        resolver: crate::types::ResolverConfig { enabled, ..c.resolver },
        ..c
    }
}

/// Applies the command-line options to `config`.
pub fn apply_args(config: &mut Config, args: &Args)
    ensures
        *final(config) == overridden(*old(config), *args),
{
    match &args.output_file {
        Some(f) => {
            config.output.file = Some(f.clone());
        },
        None => {},
    }
    if args.verbose {
        config.output.verbose = true;
    }
    if args.json {
        config.output.format = OutputFormat::Json;
    }
    if args.csv {
        config.output.format = OutputFormat::Csv;
    }
    if args.no_resolve {
        config.resolver.enabled = false;
    }
}

/// The domains of a run: those given, then each further line trimmed.
pub fn gather_domains(given: &Vec<String>, lines: &Vec<String>) -> (r: Vec<String>)
    ensures
        r.deep_view() == given.deep_view() + lines.deep_view().map_values(|l: Seq<char>| trim_of(l)),
{
    let mut out = crate::types::copy_strings(given);
    let n = out.len();
    assert(out.deep_view().len() == given.deep_view().len());
    assert forall|k: int| 0 <= k < n implies out@[k]@ == given@[k]@ by {
        assert(out.deep_view()[k] == given.deep_view()[k]);
    }
    let mut j: usize = 0;
    while j < lines.len()
        invariant
            j <= lines@.len(),
            n == given@.len(),
            out@.len() == n + j,
            forall|k: int| 0 <= k < n ==> out@[k]@ == given@[k]@,
            forall|k: int| 0 <= k < j ==> out@[n + k]@ == trim_of(lines@[k]@),
        decreases lines@.len() - j,
    {
        let t = trimmed(lines[j].as_str());
        let mut s = String::new();
        push_str_chars(&mut s, t);
        assert(s@ =~= trim_of(lines@[j as int]@));
        out.push(s);
        j += 1;
    }
    assert(out.deep_view() =~= given.deep_view() + lines.deep_view().map_values(
        |l: Seq<char>| trim_of(l),
    ));
    out
}

} // verus!
