//! The resolver's decisions: which lookup may start (at most `limit` in
//! flight), and how a finished lookup changes its candidate.
use vstd::prelude::*;
use crate::types::{Candidate, SubdomainResult};

verus! {

/// A candidate after a lookup that returned `ips`. The lookup overwrites:
/// with at least one address the candidate becomes resolved with exactly
/// those addresses. A failed lookup (no address) leaves a candidate that was
/// resolved unresolved with no addresses, and leaves an unresolved candidate
/// as it was, with any addresses a source supplied.
pub open spec fn after_lookup(c: Candidate, ips: Seq<Seq<char>>) -> Candidate {
    if ips.len() > 0 {
        Candidate { name: c.name, source: c.source, resolved: true, addresses: ips }
    } else if c.resolved {
        Candidate { name: c.name, source: c.source, resolved: false, addresses: Seq::empty() }
    } else {
        c
    }
}

/// Records the outcome of the lookup of `results[idx]`.
pub fn apply_lookup(results: &mut Vec<SubdomainResult>, idx: usize, ips: Vec<String>)
    requires
        idx < old(results)@.len(),
    ensures
        final(results)@.len() == old(results)@.len(),
        forall|i: int|
            0 <= i < old(results)@.len() && i != idx ==> #[trigger] final(results)@[i] == old(
                results,
            )@[i],
        final(results)@[idx as int]@ == after_lookup(old(results)@[idx as int]@, ips.deep_view()),
{
    if ips.len() > 0 {
        results[idx].resolved = true;
        results[idx].ip_addresses = ips;
    } else if results[idx].resolved {
        let none: Vec<String> = Vec::new();
        assert(none.deep_view() =~= Seq::<Seq<char>>::empty());
        results[idx].resolved = false;
        results[idx].ip_addresses = none;
    }
}

/// The state of a batch of lookups.
pub struct SchedulerView {
    /// Lookups in the batch.
    pub total: nat,
    /// Largest number in flight at once.
    pub limit: nat,
    /// Lookups started so far; the next one to start has this index.
    pub started: nat,
    /// Lookups started and not finished.
    pub in_flight: nat,
}

/// Hands out the lookups of a batch in order, never more than `limit` at once.
pub struct LookupScheduler {
    total: usize,
    limit: usize,
    started: usize,
    in_flight: usize,
}

impl View for LookupScheduler {
    type V = SchedulerView;

    closed spec fn view(&self) -> SchedulerView {
        SchedulerView {
            total: self.total as nat,
            limit: self.limit as nat,
            started: self.started as nat,
            in_flight: self.in_flight as nat,
        }
    }
}

impl LookupScheduler {
    /// Never more lookups in flight than the limit, nor more than started.
    pub open spec fn wf(&self) -> bool {
        &&& self@.limit > 0
        &&& self@.started <= self@.total
        &&& self@.in_flight <= self@.started
        &&& self@.in_flight <= self@.limit
    }

    /// A scheduler for `total` lookups, at most `limit` at once.
    pub fn new(total: usize, limit: usize) -> (r: LookupScheduler)
        requires
            limit > 0,
        ensures
            r.wf(),
            r@ == (SchedulerView { total: total as nat, limit: limit as nat, started: 0, in_flight: 0 }),
    {
        LookupScheduler { total, limit, started: 0, in_flight: 0 }
    }

    /// Starts the next lookup, if the limit and the batch allow one.
    pub fn start(&mut self) -> (r: Option<usize>)
        requires
            old(self).wf(),
        ensures
            final(self).wf(),
            final(self)@.total == old(self)@.total,
            final(self)@.limit == old(self)@.limit,
            old(self)@.in_flight < old(self)@.limit && old(self)@.started < old(self)@.total
                ==> r == Some(old(self)@.started as usize) && final(self)@.started == old(self)@.started + 1
                && final(self)@.in_flight == old(self)@.in_flight + 1,
            !(old(self)@.in_flight < old(self)@.limit && old(self)@.started < old(self)@.total)
                ==> r is None && final(self)@ == old(self)@,
    {
        if self.in_flight < self.limit && self.started < self.total {
            let i = self.started;
            self.started = self.started + 1;
            self.in_flight = self.in_flight + 1;
            Some(i)
        } else {
            None
        }
    }

    /// Records that one lookup in flight has finished.
    pub fn finish(&mut self)
        requires
            old(self).wf(),
            old(self)@.in_flight > 0,
        ensures
            final(self).wf(),
            final(self)@ == (SchedulerView { in_flight: (old(self)@.in_flight - 1) as nat, ..old(self)@ }),
    {
        self.in_flight = self.in_flight - 1;
    }

    /// Every lookup has started and finished.
    pub fn is_done(&self) -> (r: bool)
        ensures
            r == (self@.started == self@.total && self@.in_flight == 0),
    {
        self.started == self.total && self.in_flight == 0
    }

    /// Lookups in flight now.
    pub fn in_flight(&self) -> (r: usize)
        ensures
            r == self@.in_flight,
    {
        self.in_flight
    }
}

/// Whatever sequence of starts and finishes a scheduler goes through, the
/// lookups in flight never exceed its limit.
pub proof fn law_in_flight_bounded(s: LookupScheduler)
    requires
        s.wf(),
    ensures
        s@.in_flight <= s@.limit,
{
}

} // verus!
