//! The decisions of one enumeration run: input validation, draining the merged
//! results into the final order, and the statistics of a report and of a run.
use vstd::prelude::*;
use crate::merge::{
    address_in, has_name, law_merge_order_independent, lemma_merge_batches, merge_batches,
    named_among, names_distinct, resolved_in, ResultSet,
};
use crate::order::{law_sorted_names_determined, names_of, sort_by_name, sorted_by_name};
use crate::types::{candidates, Candidate, DomainReport, EnumerationStats, RustFinderError, SubdomainResult};
use crate::text::owned;
use crate::utils::{is_valid_domain, valid_domain};

verus! {

broadcast use vstd::seq_lib::group_to_multiset_ensures, vstd::string::group_string_axioms;

/// The number of resolved candidates in `cs`.
pub open spec fn resolved_count(cs: Seq<Candidate>) -> nat
    decreases cs.len(),
{
    if cs.len() == 0 {
        0
    } else {
        resolved_count(cs.drop_last()) + if cs.last().resolved { 1nat } else { 0nat }
    }
}

/// `a + b`, or `usize::MAX` where that does not fit.
pub open spec fn saturating_sum(a: usize, b: usize) -> usize {
    if a + b > usize::MAX { usize::MAX } else { (a + b) as usize }
}

fn add_saturating(a: usize, b: usize) -> (r: usize)
    ensures
        r == saturating_sum(a, b),
{
    if a > usize::MAX - b { usize::MAX } else { a + b }
}

/// Rejects a malformed target domain before any work starts.
pub fn check_domain(domain: &str) -> (r: Result<(), RustFinderError>)
    ensures
        r is Ok <==> valid_domain(domain@),
        r is Err ==> r->Err_0 is InvalidDomain && r->Err_0->InvalidDomain_0@ == domain@,
{
    if is_valid_domain(domain) {
        Ok(())
    } else {
        Err(RustFinderError::InvalidDomain(domain.to_string()))
    }
}

/// Refuses a run without any domain.
pub fn check_domains_given(domains: &Vec<String>) -> (r: Result<(), RustFinderError>)
    ensures
        r is Ok <==> domains@.len() > 0,
        r is Err ==> r->Err_0 is ConfigError,
{
    if domains.len() == 0 {
        Err(RustFinderError::ConfigError(owned("no domain given")))
    } else {
        Ok(())
    }
}

/// Drains the merged results into ascending order of name.
pub fn sorted_results(set: ResultSet) -> (r: Vec<SubdomainResult>)
    requires
        set.wf(),
    ensures
        r@.len() == set@.len(),
        sorted_by_name(r@),
        names_distinct(candidates(r@)),
        forall|i: int| 0 <= i < r@.len() ==> set@.contains(#[trigger] r@[i]@),
        forall|j: int| 0 <= j < set@.len() ==> candidates(r@).contains(#[trigger] set@[j]),
{
    let ghost view = set@;
    let entries = set.into_entries();
    assert(candidates(entries@) == view);
    let r = sort_by_name(entries);
    assert forall|i: int| 0 <= i < r@.len() implies view.contains(#[trigger] r@[i]@) by {
        assert(r@.contains(r@[i]));
        assert(r@.to_multiset().count(r@[i]) > 0);
        assert(entries@.to_multiset().count(r@[i]) > 0);
        assert(entries@.contains(r@[i]));
        let j = choose|j: int| 0 <= j < entries@.len() && entries@[j] == r@[i];
        assert(view[j] == r@[i]@);
    }
    assert forall|j: int| 0 <= j < view.len() implies candidates(r@).contains(#[trigger] view[j]) by {
        assert(entries@.contains(entries@[j]));
        assert(entries@.to_multiset().count(entries@[j]) > 0);
        assert(r@.to_multiset().count(entries@[j]) > 0);
        assert(r@.contains(entries@[j]));
        let i = choose|i: int| 0 <= i < r@.len() && r@[i] == entries@[j];
        assert(candidates(r@)[i] == view[j]);
    }
    r
}

/// Counts the resolved results.
pub fn count_resolved(v: &Vec<SubdomainResult>) -> (r: usize)
    ensures
        r == resolved_count(candidates(v@)),
{
    let mut n: usize = 0;
    let mut i: usize = 0;
    while i < v.len()
        invariant
            i <= v@.len(),
            n <= i,
            n == resolved_count(candidates(v@).take(i as int)),
        decreases v@.len() - i,
    {
        assert(candidates(v@).take(i + 1).drop_last() =~= candidates(v@).take(i as int));
        if v[i].resolved {
            n += 1;
        }
        i += 1;
    }
    assert(candidates(v@).take(i as int) =~= candidates(v@));
    n
}

/// The report of one domain, with its statistics computed from the final
/// results.
pub fn build_report(
    domain: &str,
    subdomains: Vec<SubdomainResult>,
    sources_used: Vec<String>,
    duration_ms: u64,
    timestamp: String,
) -> (r: DomainReport)
    ensures
        r.domain@ == domain@,
        r.subdomains@ == subdomains@,
        r.stats.total_found == subdomains@.len(),
        r.stats.unique_subdomains == subdomains@.len(),
        r.stats.resolved_count == resolved_count(candidates(subdomains@)),
        r.stats.sources_used@ == sources_used@,
        r.stats.duration_ms == duration_ms,
        r.timestamp@ == timestamp@,
{
    let n = subdomains.len();
    let resolved = count_resolved(&subdomains);
    DomainReport {
        domain: domain.to_string(),
        subdomains,
        stats: EnumerationStats {
            total_found: n,
            unique_subdomains: n,
            resolved_count: resolved,
            sources_used,
            duration_ms,
        },
        timestamp,
    }
}

/// Totals accumulated over the domains of one run.
#[derive(Clone, Copy, Debug)]
pub struct RunTotals {
    pub total_found: usize,
    pub unique_subdomains: usize,
    pub resolved_count: usize,
}

impl RunTotals {
    /// Totals of a run that has not reported anything yet.
    pub fn new() -> (r: RunTotals)
        ensures
            r.total_found == 0 && r.unique_subdomains == 0 && r.resolved_count == 0,
    {
        RunTotals { total_found: 0, unique_subdomains: 0, resolved_count: 0 }
    }

    /// Adds one domain's statistics (saturating at `usize::MAX`).
    pub fn add(&mut self, stats: &EnumerationStats)
        ensures
            final(self).total_found == saturating_sum(old(self).total_found, stats.total_found),
            final(self).unique_subdomains == saturating_sum(
                old(self).unique_subdomains,
                stats.unique_subdomains,
            ),
            final(self).resolved_count == saturating_sum(
                old(self).resolved_count,
                stats.resolved_count,
            ),
    {
        self.total_found = add_saturating(self.total_found, stats.total_found);
        self.unique_subdomains = add_saturating(self.unique_subdomains, stats.unique_subdomains);
        self.resolved_count = add_saturating(self.resolved_count, stats.resolved_count);
    }

    /// The statistics of the whole run.
    pub fn into_stats(self, sources_used: Vec<String>, duration_ms: u64) -> (r: EnumerationStats)
        ensures
            r.total_found == self.total_found,
            r.unique_subdomains == self.unique_subdomains,
            r.resolved_count == self.resolved_count,
            r.sources_used@ == sources_used@,
            r.duration_ms == duration_ms,
    {
        EnumerationStats {
            total_found: self.total_found,
            unique_subdomains: self.unique_subdomains,
            resolved_count: self.resolved_count,
            sources_used,
            duration_ms,
        }
    }
}

/// `r` is what `sorted_results` gives for a result set whose value is `set`.
pub open spec fn drained_from(r: Seq<SubdomainResult>, set: Seq<Candidate>) -> bool {
    &&& r.len() == set.len()
    &&& sorted_by_name(r)
    &&& names_distinct(candidates(r))
    &&& forall|i: int| 0 <= i < r.len() ==> set.contains(#[trigger] r[i]@)
    &&& forall|j: int| 0 <= j < set.len() ==> candidates(r).contains(#[trigger] set[j])
}

/// The final order does not depend on the order in which source batches
/// arrive: merging the same batches in two orders and draining each result
/// set gives, position by position, the same names, the same `resolved` flags
/// and the same sets of addresses. (Source attribution and the order of the
/// addresses follow arrival.)
pub proof fn law_final_results_order_independent(
    bs1: Seq<Seq<Candidate>>,
    bs2: Seq<Seq<Candidate>>,
    r1: Seq<SubdomainResult>,
    r2: Seq<SubdomainResult>,
)
    requires
        forall|b: Seq<Candidate>| bs1.contains(b) <==> bs2.contains(b),
        drained_from(r1, merge_batches(Seq::empty(), bs1)),
        drained_from(r2, merge_batches(Seq::empty(), bs2)),
    ensures
        r1.len() == r2.len(),
        names_of(r1) == names_of(r2),
        forall|i: int| 0 <= i < r1.len() ==> #[trigger] r1[i]@.resolved == r2[i]@.resolved,
        forall|i: int, a: Seq<char>|
            0 <= i < r1.len() ==> (#[trigger] r1[i]@.addresses.contains(a) <==> r2[i]@.addresses.contains(a)),
{
    let m1 = merge_batches(Seq::empty(), bs1);
    let m2 = merge_batches(Seq::empty(), bs2);
    law_merge_order_independent(bs1, bs2);
    assert forall|k: Seq<char>| has_name(candidates(r1), k) <==> has_name(candidates(r2), k) by {
        lemma_drained_names(r1, m1, k);
        lemma_drained_names(r2, m2, k);
    }
    law_sorted_names_determined(r1, r2);
    assert(r1.len() == names_of(r1).len() && r2.len() == names_of(r2).len());
    assert forall|i: int| 0 <= i < r1.len() implies #[trigger] r1[i]@.resolved == r2[i]@.resolved by {
        assert(names_of(r1)[i] == names_of(r2)[i]);
        lemma_entry_fields(r1, m1, i, Seq::empty());
        lemma_entry_fields(r2, m2, i, Seq::empty());
    }
    assert forall|i: int, a: Seq<char>| 0 <= i < r1.len() implies (
    #[trigger] r1[i]@.addresses.contains(a) <==> r2[i]@.addresses.contains(a)) by {
        assert(names_of(r1)[i] == names_of(r2)[i]);
        lemma_entry_fields(r1, m1, i, a);
        lemma_entry_fields(r2, m2, i, a);
    }
}

proof fn lemma_drained_names(r: Seq<SubdomainResult>, m: Seq<Candidate>, k: Seq<char>)
    requires
        drained_from(r, m),
    ensures
        has_name(candidates(r), k) <==> has_name(m, k),
{
    if has_name(candidates(r), k) {
        let i = choose|i: int| 0 <= i < candidates(r).len() && candidates(r)[i].name == k;
        assert(m.contains(r[i]@));
        let j = choose|j: int| 0 <= j < m.len() && m[j] == r[i]@;
        assert(m[j].name == k);
    }
    if has_name(m, k) {
        let j = choose|j: int| 0 <= j < m.len() && m[j].name == k;
        assert(candidates(r).contains(m[j]));
        let i = choose|i: int| 0 <= i < candidates(r).len() && candidates(r)[i] == m[j];
        assert(candidates(r)[i].name == k);
    }
}

proof fn lemma_entry_fields(r: Seq<SubdomainResult>, m: Seq<Candidate>, i: int, a: Seq<char>)
    requires
        drained_from(r, m),
        names_distinct(m),
        0 <= i < r.len(),
    ensures
        r[i]@.resolved == resolved_in(m, r[i]@.name),
        r[i]@.addresses.contains(a) == address_in(m, r[i]@.name, a),
{
    assert(m.contains(r[i]@));
    let j = choose|j: int| 0 <= j < m.len() && m[j] == r[i]@;
    let k = r[i]@.name;
    if resolved_in(m, k) {
        let j2 = choose|j2: int| 0 <= j2 < m.len() && m[j2].name == k && m[j2].resolved;
        assert(j2 == j);
    }
    if address_in(m, k, a) {
        let j2 = choose|j2: int| 0 <= j2 < m.len() && m[j2].name == k && m[j2].addresses.contains(a);
        assert(j2 == j);
    }
}

/// The final results name exactly what the sources sent: after merging the
/// batches from empty and draining, a name is present if and only if it is
/// the canonical name of some candidate of some batch, and it is resolved if
/// and only if some such candidate was.
pub proof fn law_drained_names(bs: Seq<Seq<Candidate>>, r: Seq<SubdomainResult>)
    requires
        drained_from(r, merge_batches(Seq::empty(), bs)),
    ensures
        forall|k: Seq<char>|
            #[trigger] has_name(candidates(r), k) <==> exists|b: int|
                0 <= b < bs.len() && named_among(bs[b], k),
        forall|i: int|
            0 <= i < r.len() ==> (#[trigger] r[i]@.resolved <==> exists|b: int|
                0 <= b < bs.len() && crate::merge::resolved_among(bs[b], r[i]@.name)),
{
    let m = merge_batches(Seq::empty(), bs);
    assert forall|k: Seq<char>|
        #[trigger] has_name(candidates(r), k) <==> exists|b: int|
            0 <= b < bs.len() && named_among(bs[b], k) by {
        lemma_merge_batches(Seq::empty(), bs, k, Seq::empty());
        lemma_drained_names(r, m, k);
    }
    assert forall|i: int| 0 <= i < r.len() implies (#[trigger] r[i]@.resolved <==> exists|b: int|
        0 <= b < bs.len() && crate::merge::resolved_among(bs[b], r[i]@.name)) by {
        lemma_merge_batches(Seq::empty(), bs, r[i]@.name, Seq::empty());
        lemma_entry_fields(r, m, i, Seq::empty());
    }
}

} // verus!
