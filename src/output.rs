//! Rendering a report as text or CSV. (JSON comes from a serializer outside
//! this library.)
use vstd::prelude::*;
use crate::numbers::{decimal, decimal_of};
use crate::text::push_str_chars;
use crate::types::{DomainReport, OutputConfig, OutputFormat, SubdomainResult};

verus! {

/// `parts` joined with `sep` between each two.
pub open spec fn join(parts: Seq<Seq<char>>, sep: Seq<char>) -> Seq<char>
    decreases parts.len(),
{
    if parts.len() == 0 {
        Seq::empty()
    } else if parts.len() == 1 {
        parts[0]
    } else {
        join(parts.drop_last(), sep) + sep + parts.last()
    }
}

/// `true` or `false`.
pub open spec fn bool_text(b: bool) -> Seq<char> {
    if b { "true"@ } else { "false"@ }
}

/// The line of one result in the text report.
pub open spec fn text_line(r: SubdomainResult, include_ips: bool) -> Seq<char> {
    if include_ips && r.ip_addresses@.len() > 0 {
        r.subdomain@ + " ["@ + r.source@ + "] - "@ + join(r.ip_addresses.deep_view(), ", "@)
            + "\n"@
    } else {
        r.subdomain@ + " ["@ + r.source@ + "]"@ + "\n"@
    }
}

/// The line of one result in the CSV report.
pub open spec fn csv_line(r: SubdomainResult, include_ips: bool) -> Seq<char> {
    if include_ips {
        r.subdomain@ + ","@ + r.source@ + ","@ + bool_text(r.resolved) + ",\""@ + join(
            r.ip_addresses.deep_view(),
            ", "@,
        ) + "\"\n"@
    } else {
        r.subdomain@ + ","@ + r.source@ + ","@ + bool_text(r.resolved) + "\n"@
    }
}

/// The lines of the results, one after another.
pub open spec fn result_lines(rs: Seq<SubdomainResult>, include_ips: bool, csv: bool) -> Seq<char>
    decreases rs.len(),
{
    if rs.len() == 0 {
        Seq::empty()
    } else {
        result_lines(rs.drop_last(), include_ips, csv) + if csv {
            csv_line(rs.last(), include_ips)
        } else {
            text_line(rs.last(), include_ips)
        }
    }
}

/// The text report: a header with the domain and the counts, then one line
/// per result.
pub open spec fn text_report(report: DomainReport, include_ips: bool) -> Seq<char> {
    "\n[*] Domain: "@ + report.domain@ + "\n"@ + "[*] Found "@ + decimal_of(
        report.stats.unique_subdomains as nat,
    ) + " unique subdomains\n"@ + "[*] Resolved: "@ + decimal_of(report.stats.resolved_count as nat)
        + "/"@ + decimal_of(report.stats.unique_subdomains as nat) + "\n"@ + "[*] Duration: "@
        + decimal_of(report.stats.duration_ms as nat) + "ms\n"@ + "\n[*] Results:\n"@
        + result_lines(report.subdomains@, include_ips, false)
}

/// The CSV report: a header line, then one line per result.
pub open spec fn csv_report(report: DomainReport, include_ips: bool) -> Seq<char> {
    (if include_ips {
        "subdomain,source,resolved,ip_addresses\n"@
    } else {
        "subdomain,source,resolved\n"@
    }) + result_lines(report.subdomains@, include_ips, true)
}

fn push_joined(out: &mut String, parts: &Vec<String>, sep: &str)
    ensures
        final(out)@ == old(out)@ + join(parts.deep_view(), sep@),
{
    let ghost start = out@;
    let ghost pv = parts.deep_view();
    let mut i: usize = 0;
    assert(pv.take(0) =~= Seq::<Seq<char>>::empty());
    assert(out@ =~= start + join(pv.take(0), sep@));
    while i < parts.len()
        invariant
            i <= parts@.len(),
            pv == parts.deep_view(),
            out@ == start + join(pv.take(i as int), sep@),
        decreases parts@.len() - i,
    {
        let ghost t = pv.take(i + 1);
        assert(t.drop_last() =~= pv.take(i as int));
        assert(t.last() == pv[i as int]);
        if i > 0 {
            push_str_chars(out, sep);
        }
        push_str_chars(out, parts[i].as_str());
        proof {
            if i == 0 {
                assert(t.len() == 1 && t[0] == pv[0]);
                assert(out@ =~= start + join(t, sep@));
            } else {
                assert(out@ =~= start + join(t, sep@));
            }
        }
        i += 1;
    }
    assert(pv.take(i as int) =~= pv);
}

fn push_bool(out: &mut String, b: bool)
    ensures
        final(out)@ == old(out)@ + bool_text(b),
{
    if b {
        push_str_chars(out, "true");
    } else {
        push_str_chars(out, "false");
    }
}

fn push_number(out: &mut String, n: u64)
    ensures
        final(out)@ == old(out)@ + decimal_of(n as nat),
{
    let d = decimal(n);
    push_str_chars(out, d.as_str());
}

fn push_line(out: &mut String, r: &SubdomainResult, include_ips: bool, csv: bool)
    ensures
        final(out)@ == old(out)@ + if csv {
            csv_line(*r, include_ips)
        } else {
            text_line(*r, include_ips)
        },
{
    let ghost start = out@;
    if csv {
        push_str_chars(out, r.subdomain.as_str());
        push_str_chars(out, ",");
        push_str_chars(out, r.source.as_str());
        push_str_chars(out, ",");
        push_bool(out, r.resolved);
        if include_ips {
            push_str_chars(out, ",\"");
            push_joined(out, &r.ip_addresses, ", ");
            push_str_chars(out, "\"\n");
        } else {
            push_str_chars(out, "\n");
        }
        assert(out@ =~= start + csv_line(*r, include_ips));
    } else {
        push_str_chars(out, r.subdomain.as_str());
        push_str_chars(out, " [");
        push_str_chars(out, r.source.as_str());
        if include_ips && r.ip_addresses.len() > 0 {
            push_str_chars(out, "] - ");
            push_joined(out, &r.ip_addresses, ", ");
            push_str_chars(out, "\n");
        } else {
            push_str_chars(out, "]");
            push_str_chars(out, "\n");
        }
        assert(out@ =~= start + text_line(*r, include_ips));
    }
}

fn push_lines(out: &mut String, rs: &Vec<SubdomainResult>, include_ips: bool, csv: bool)
    ensures
        final(out)@ == old(out)@ + result_lines(rs@, include_ips, csv),
{
    let ghost start = out@;
    let mut i: usize = 0;
    assert(out@ =~= start + result_lines(rs@.take(0), include_ips, csv));
    while i < rs.len()
        invariant
            i <= rs@.len(),
            out@ == start + result_lines(rs@.take(i as int), include_ips, csv),
        decreases rs@.len() - i,
    {
        let ghost t = rs@.take(i + 1);
        assert(t.drop_last() =~= rs@.take(i as int));
        push_line(out, &rs[i], include_ips, csv);
        assert(out@ =~= start + result_lines(t, include_ips, csv));
        i += 1;
    }
    assert(rs@.take(i as int) =~= rs@);
}

/// Renders reports as its configuration asks.
pub struct OutputManager {
    pub config: OutputConfig,
}

impl OutputManager {
    /// A manager for `config`.
    pub fn new(config: OutputConfig) -> (r: OutputManager)
        ensures
            r.config == config,
    {
        OutputManager { config }
    }

    /// Appends the report in the configured format, for text and CSV; a JSON
    /// report is left to the serializer, and then nothing is appended.
    pub fn write_output(&self, out: &mut String, report: &DomainReport) -> (written: bool)
        ensures
            written == (self.config.format != OutputFormat::Json),
            self.config.format == OutputFormat::Text ==> final(out)@ == old(out)@ + text_report(
                *report,
                self.config.include_ips,
            ),
            self.config.format == OutputFormat::Csv ==> final(out)@ == old(out)@ + csv_report(
                *report,
                self.config.include_ips,
            ),
            self.config.format == OutputFormat::Json ==> final(out)@ == old(out)@,
    {
        match self.config.format {
            OutputFormat::Text => {
                self.write_text_output(out, report);
                true
            },
            OutputFormat::Csv => {
                self.write_csv_output(out, report);
                true
            },
            OutputFormat::Json => false,
        }
    }

    /// Appends the text report.
    pub fn write_text_output(&self, out: &mut String, report: &DomainReport)
        ensures
            final(out)@ == old(out)@ + text_report(*report, self.config.include_ips),
    {
        let ghost start = out@;
        push_str_chars(out, "\n[*] Domain: ");
        push_str_chars(out, report.domain.as_str());
        push_str_chars(out, "\n");
        push_str_chars(out, "[*] Found ");
        push_number(out, report.stats.unique_subdomains as u64);
        push_str_chars(out, " unique subdomains\n");
        push_str_chars(out, "[*] Resolved: ");
        push_number(out, report.stats.resolved_count as u64);
        push_str_chars(out, "/");
        push_number(out, report.stats.unique_subdomains as u64);
        push_str_chars(out, "\n");
        push_str_chars(out, "[*] Duration: ");
        push_number(out, report.stats.duration_ms);
        push_str_chars(out, "ms\n");
        push_str_chars(out, "\n[*] Results:\n");
        push_lines(out, &report.subdomains, self.config.include_ips, false);
        assert(out@ =~= start + text_report(*report, self.config.include_ips));
    }

    /// Appends the CSV report.
    pub fn write_csv_output(&self, out: &mut String, report: &DomainReport)
        ensures
            final(out)@ == old(out)@ + csv_report(*report, self.config.include_ips),
    {
        let ghost start = out@;
        if self.config.include_ips {
            push_str_chars(out, "subdomain,source,resolved,ip_addresses\n");
        } else {
            push_str_chars(out, "subdomain,source,resolved\n");
        }
        push_lines(out, &report.subdomains, self.config.include_ips, true);
        assert(out@ =~= start + csv_report(*report, self.config.include_ips));
    }
}

/// The line printed for a result as it is found: `[source] name`, followed by
/// ` - ` and the addresses where they are shown and known.
pub open spec fn verbose_line(r: SubdomainResult, include_ips: bool) -> Seq<char> {
    if include_ips && r.ip_addresses@.len() > 0 {
        "["@ + r.source@ + "] "@ + r.subdomain@ + " - "@ + join(r.ip_addresses.deep_view(), ", "@)
    } else {
        "["@ + r.source@ + "] "@ + r.subdomain@
    }
}

impl OutputManager {
    /// The lines to print for results as they are found: one per result where
    /// the configuration is verbose, none otherwise.
    pub fn write_subdomains(&self, subdomains: &Vec<SubdomainResult>) -> (r: Vec<String>)
        ensures
            !self.config.verbose ==> r@.len() == 0,
            self.config.verbose ==> r@.len() == subdomains@.len() && forall|i: int|
                0 <= i < r@.len() ==> #[trigger] r@[i]@ == verbose_line(
                    subdomains@[i],
                    self.config.include_ips,
                ),
    {
        let mut lines: Vec<String> = Vec::new();
        if !self.config.verbose {
            return lines;
        }
        let mut i: usize = 0;
        while i < subdomains.len()
            invariant
                i <= subdomains@.len(),
                lines@.len() == i,
                forall|k: int|
                    0 <= k < i ==> #[trigger] lines@[k]@ == verbose_line(
                        subdomains@[k],
                        self.config.include_ips,
                    ),
            decreases subdomains@.len() - i,
        {
            let r = &subdomains[i];
            let mut line = String::new();
            push_str_chars(&mut line, "[");
            push_str_chars(&mut line, r.source.as_str());
            push_str_chars(&mut line, "] ");
            push_str_chars(&mut line, r.subdomain.as_str());
            if self.config.include_ips && r.ip_addresses.len() > 0 {
                push_str_chars(&mut line, " - ");
                push_joined(&mut line, &r.ip_addresses, ", ");
            }
            assert(line@ =~= verbose_line(*r, self.config.include_ips));
            lines.push(line);
            i += 1;
        }
        lines
    }
}

} // verus!
