//! The result set of one run: candidates keyed by their canonical name, merged
//! as source batches arrive.
use vstd::prelude::*;
use crate::text::{canonical, canonical_of};
use crate::types::{candidates, Candidate, SubdomainResult};

verus! {

/// `a` followed by those addresses of `b` that are not already present, in
/// the order `b` gives them.
pub open spec fn union_addresses(a: Seq<Seq<char>>, b: Seq<Seq<char>>) -> Seq<Seq<char>>
    decreases b.len(),
{
    if b.len() == 0 {
        a
    } else {
        let acc = union_addresses(a, b.drop_last());
        if acc.contains(b.last()) {
            acc
        } else {
            acc.push(b.last())
        }
    }
}

/// The entry that a candidate opens under key `k` when that key is new.
pub open spec fn fresh_keyed(k: Seq<char>, c: Candidate) -> Candidate {
    Candidate {
        name: k,
        source: c.source,
        resolved: c.resolved,
        addresses: union_addresses(Seq::empty(), c.addresses),
    }
}

/// An entry after a candidate with the same name is folded in: the first
/// source is kept, `resolved` is or-ed and the addresses are united.
pub open spec fn combine(e: Candidate, c: Candidate) -> Candidate {
    Candidate {
        name: e.name,
        source: e.source,
        resolved: e.resolved || c.resolved,
        addresses: union_addresses(e.addresses, c.addresses),
    }
}

/// Some entry of `es` has the name `k`.
pub open spec fn has_name(es: Seq<Candidate>, k: Seq<char>) -> bool {
    exists|i: int| 0 <= i < es.len() && es[i].name == k
}

/// No two entries of `es` share a name.
pub open spec fn names_distinct(es: Seq<Candidate>) -> bool {
    forall|i: int, j: int|
        0 <= i < es.len() && 0 <= j < es.len() && i != j ==> es[i].name != es[j].name
}

/// The entry that a candidate opens when its name is new.
pub open spec fn fresh_entry(c: Candidate) -> Candidate {
    fresh_keyed(canonical_of(c.name), c)
}

/// `es` with candidate `c` folded in under key `k`.
pub open spec fn merge_one_keyed(es: Seq<Candidate>, k: Seq<char>, c: Candidate) -> Seq<Candidate> {
    if has_name(es, k) {
        let i = choose|i: int| 0 <= i < es.len() && es[i].name == k;
        es.update(i, combine(es[i], c))
    } else {
        es.push(fresh_keyed(k, c))
    }
}

/// `es` with candidate `c` folded in under its canonical name.
pub open spec fn merge_one(es: Seq<Candidate>, c: Candidate) -> Seq<Candidate> {
    merge_one_keyed(es, canonical_of(c.name), c)
}

/// `es` with the candidates `cs` folded in, one after another.
pub open spec fn merge_all(es: Seq<Candidate>, cs: Seq<Candidate>) -> Seq<Candidate>
    decreases cs.len(),
{
    if cs.len() == 0 {
        es
    } else {
        merge_one(merge_all(es, cs.drop_last()), cs.last())
    }
}

/// Some entry named `k` is resolved.
pub open spec fn resolved_in(es: Seq<Candidate>, k: Seq<char>) -> bool {
    exists|i: int| 0 <= i < es.len() && es[i].name == k && es[i].resolved
}

/// Some entry named `k` holds address `a`.
pub open spec fn address_in(es: Seq<Candidate>, k: Seq<char>, a: Seq<char>) -> bool {
    exists|i: int| 0 <= i < es.len() && es[i].name == k && es[i].addresses.contains(a)
}

/// Some candidate of `cs` has the canonical name `k`.
pub open spec fn named_among(cs: Seq<Candidate>, k: Seq<char>) -> bool {
    exists|j: int| 0 <= j < cs.len() && canonical_of(cs[j].name) == k
}

/// Some candidate of `cs` with canonical name `k` is resolved.
pub open spec fn resolved_among(cs: Seq<Candidate>, k: Seq<char>) -> bool {
    exists|j: int| 0 <= j < cs.len() && canonical_of(cs[j].name) == k && cs[j].resolved
}

/// Some candidate of `cs` with canonical name `k` carries address `a`.
pub open spec fn address_among(cs: Seq<Candidate>, k: Seq<char>, a: Seq<char>) -> bool {
    exists|j: int|
        0 <= j < cs.len() && canonical_of(cs[j].name) == k && cs[j].addresses.contains(a)
}

/// `es` with the batches `bs` merged in, one after another.
pub open spec fn merge_batches(es: Seq<Candidate>, bs: Seq<Seq<Candidate>>) -> Seq<Candidate>
    decreases bs.len(),
{
    if bs.len() == 0 {
        es
    } else {
        merge_all(merge_batches(es, bs.drop_last()), bs.last())
    }
}

proof fn lemma_union_contains(a: Seq<Seq<char>>, b: Seq<Seq<char>>, x: Seq<char>)
    ensures
        union_addresses(a, b).contains(x) == (a.contains(x) || b.contains(x)),
    decreases b.len(),
{
    if b.len() > 0 {
        lemma_union_contains(a, b.drop_last(), x);
        if b.drop_last().contains(x) {
            let j = choose|j: int| 0 <= j < b.drop_last().len() && b.drop_last()[j] == x;
            assert(b[j] == x);
        }
        if b.contains(x) && x != b.last() {
            let j = choose|j: int| 0 <= j < b.len() && b[j] == x;
            assert(b.drop_last()[j] == x);
        }
        let acc = union_addresses(a, b.drop_last());
        if !acc.contains(b.last()) {
            if acc.push(b.last()).contains(x) && x != b.last() {
                let j = choose|j: int| 0 <= j < acc.push(b.last()).len() && acc.push(b.last())[j] == x;
                assert(acc[j] == x);
            }
            if acc.contains(x) {
                let j = choose|j: int| 0 <= j < acc.len() && acc[j] == x;
                assert(acc.push(b.last())[j] == x);
            }
            assert(acc.push(b.last())[acc.len() as int] == b.last());
        }
        assert(b[b.len() - 1] == b.last());
    }
}

proof fn lemma_merge_one(es: Seq<Candidate>, c: Candidate, k: Seq<char>, a: Seq<char>)
    requires
        names_distinct(es),
    ensures
        names_distinct(merge_one(es, c)),
        has_name(merge_one(es, c), k) == (has_name(es, k) || canonical_of(c.name) == k),
        resolved_in(merge_one(es, c), k) == (resolved_in(es, k) || (canonical_of(c.name) == k
            && c.resolved)),
        address_in(merge_one(es, c), k, a) == (address_in(es, k, a) || (canonical_of(c.name) == k
            && c.addresses.contains(a))),
{
    let key = canonical_of(c.name);
    let m = merge_one(es, c);
    if has_name(es, key) {
        let i = choose|i: int| 0 <= i < es.len() && es[i].name == key;
        assert(m == es.update(i, combine(es[i], c)));
        lemma_union_contains(es[i].addresses, c.addresses, a);
        assert(m[i].name == key);
        if has_name(es, k) {
            let i2 = choose|i2: int| 0 <= i2 < es.len() && es[i2].name == k;
            assert(m[i2].name == k);
        }
        if has_name(m, k) {
            let i2 = choose|i2: int| 0 <= i2 < m.len() && m[i2].name == k;
            assert(es[i2].name == k);
        }
        if resolved_in(es, k) {
            let i2 = choose|i2: int| 0 <= i2 < es.len() && es[i2].name == k && es[i2].resolved;
            assert(m[i2].name == k && m[i2].resolved);
        }
        if resolved_in(m, k) {
            let i2 = choose|i2: int| 0 <= i2 < m.len() && m[i2].name == k && m[i2].resolved;
            if i2 != i {
                assert(es[i2].name == k && es[i2].resolved);
            }
        }
        if key == k && c.resolved {
            assert(m[i].resolved);
        }
        if address_in(es, k, a) {
            let i2 = choose|i2: int|
                0 <= i2 < es.len() && es[i2].name == k && es[i2].addresses.contains(a);
            assert(m[i2].name == k && m[i2].addresses.contains(a));
        }
        if address_in(m, k, a) {
            let i2 = choose|i2: int|
                0 <= i2 < m.len() && m[i2].name == k && m[i2].addresses.contains(a);
            if i2 != i {
                assert(es[i2].name == k && es[i2].addresses.contains(a));
            }
        }
        if key == k && c.addresses.contains(a) {
            assert(m[i].addresses.contains(a));
        }
    } else {
        let n = es.len() as int;
        assert(m == es.push(fresh_entry(c)));
        lemma_union_contains(Seq::empty(), c.addresses, a);
        assert(m[n].name == key);
        if has_name(es, k) {
            let i2 = choose|i2: int| 0 <= i2 < es.len() && es[i2].name == k;
            assert(m[i2].name == k);
        }
        if has_name(m, k) {
            let i2 = choose|i2: int| 0 <= i2 < m.len() && m[i2].name == k;
            if i2 != n {
                assert(es[i2].name == k);
            }
        }
        if resolved_in(es, k) {
            let i2 = choose|i2: int| 0 <= i2 < es.len() && es[i2].name == k && es[i2].resolved;
            assert(m[i2].name == k && m[i2].resolved);
        }
        if resolved_in(m, k) {
            let i2 = choose|i2: int| 0 <= i2 < m.len() && m[i2].name == k && m[i2].resolved;
            if i2 != n {
                assert(es[i2].name == k && es[i2].resolved);
            }
        }
        if address_in(es, k, a) {
            let i2 = choose|i2: int|
                0 <= i2 < es.len() && es[i2].name == k && es[i2].addresses.contains(a);
            assert(m[i2].name == k && m[i2].addresses.contains(a));
        }
        if address_in(m, k, a) {
            let i2 = choose|i2: int|
                0 <= i2 < m.len() && m[i2].name == k && m[i2].addresses.contains(a);
            if i2 != n {
                assert(es[i2].name == k && es[i2].addresses.contains(a));
            }
        }
        if key == k && c.addresses.contains(a) {
            assert(m[n].addresses.contains(a));
        }
    }
}

proof fn lemma_merge_all(es: Seq<Candidate>, cs: Seq<Candidate>, k: Seq<char>, a: Seq<char>)
    requires
        names_distinct(es),
    ensures
        names_distinct(merge_all(es, cs)),
        has_name(merge_all(es, cs), k) == (has_name(es, k) || named_among(cs, k)),
        resolved_in(merge_all(es, cs), k) == (resolved_in(es, k) || resolved_among(cs, k)),
        address_in(merge_all(es, cs), k, a) == (address_in(es, k, a) || address_among(cs, k, a)),
    decreases cs.len(),
{
    if cs.len() > 0 {
        let p = cs.drop_last();
        let c = cs.last();
        lemma_merge_all(es, p, k, a);
        lemma_merge_one(merge_all(es, p), c, k, a);
        assert(cs[cs.len() - 1] == c);
        if named_among(p, k) {
            let j = choose|j: int| 0 <= j < p.len() && canonical_of(p[j].name) == k;
            assert(cs[j] == p[j]);
        }
        if named_among(cs, k) && canonical_of(c.name) != k {
            let j = choose|j: int| 0 <= j < cs.len() && canonical_of(cs[j].name) == k;
            assert(p[j] == cs[j]);
        }
        if resolved_among(p, k) {
            let j = choose|j: int| 0 <= j < p.len() && canonical_of(p[j].name) == k && p[j].resolved;
            assert(cs[j] == p[j]);
        }
        if resolved_among(cs, k) && !(canonical_of(c.name) == k && c.resolved) {
            let j = choose|j: int| 0 <= j < cs.len() && canonical_of(cs[j].name) == k && cs[j].resolved;
            assert(p[j] == cs[j]);
        }
        if address_among(p, k, a) {
            let j = choose|j: int|
                0 <= j < p.len() && canonical_of(p[j].name) == k && p[j].addresses.contains(a);
            assert(cs[j] == p[j]);
        }
        if address_among(cs, k, a) && !(canonical_of(c.name) == k && c.addresses.contains(a)) {
            let j = choose|j: int|
                0 <= j < cs.len() && canonical_of(cs[j].name) == k && cs[j].addresses.contains(a);
            assert(p[j] == cs[j]);
        }
    }
}

/// What merging batches into `es` leaves, name by name: a name is held when
/// `es` held it or a candidate of some batch has it as canonical name; it is
/// resolved, or carries an address, when it was so in `es` or in some such
/// candidate.
pub proof fn lemma_merge_batches(
    es: Seq<Candidate>,
    bs: Seq<Seq<Candidate>>,
    k: Seq<char>,
    a: Seq<char>,
)
    requires
        names_distinct(es),
    ensures
        names_distinct(merge_batches(es, bs)),
        has_name(merge_batches(es, bs), k) == (has_name(es, k) || exists|b: int|
            0 <= b < bs.len() && named_among(bs[b], k)),
        resolved_in(merge_batches(es, bs), k) == (resolved_in(es, k) || exists|b: int|
            0 <= b < bs.len() && resolved_among(bs[b], k)),
        address_in(merge_batches(es, bs), k, a) == (address_in(es, k, a) || exists|b: int|
            0 <= b < bs.len() && address_among(bs[b], k, a)),
    decreases bs.len(),
{
    if bs.len() > 0 {
        let p = bs.drop_last();
        lemma_merge_batches(es, p, k, a);
        lemma_merge_all(merge_batches(es, p), bs.last(), k, a);
        assert(bs[bs.len() - 1] == bs.last());
        assert forall|b: int| 0 <= b < p.len() implies p[b] == bs[b] by {}
    }
}

/// Merging does not depend on the order in which batches arrive: two
/// sequences that hold the same batches, merged from empty, give the same
/// names, and for each name the same `resolved` flag and the same set of
/// addresses. (Which source an entry is attributed to, and the order of its
/// addresses, follow the order of arrival.)
pub proof fn law_merge_order_independent(bs1: Seq<Seq<Candidate>>, bs2: Seq<Seq<Candidate>>)
    requires
        forall|b: Seq<Candidate>| bs1.contains(b) <==> bs2.contains(b),
    ensures
        names_distinct(merge_batches(Seq::empty(), bs1)),
        names_distinct(merge_batches(Seq::empty(), bs2)),
        forall|k: Seq<char>|
            has_name(merge_batches(Seq::empty(), bs1), k) == has_name(
                merge_batches(Seq::empty(), bs2),
                k,
            ),
        forall|k: Seq<char>|
            resolved_in(merge_batches(Seq::empty(), bs1), k) == resolved_in(
                merge_batches(Seq::empty(), bs2),
                k,
            ),
        forall|k: Seq<char>, a: Seq<char>|
            address_in(merge_batches(Seq::empty(), bs1), k, a) == address_in(
                merge_batches(Seq::empty(), bs2),
                k,
                a,
            ),
{
    let e = Seq::<Candidate>::empty();
    assert forall|k: Seq<char>, a: Seq<char>|
        has_name(merge_batches(e, bs1), k) == has_name(merge_batches(e, bs2), k) && resolved_in(
            merge_batches(e, bs1),
            k,
        ) == resolved_in(merge_batches(e, bs2), k) && address_in(merge_batches(e, bs1), k, a)
            == address_in(merge_batches(e, bs2), k, a) by {
        lemma_merge_batches(e, bs1, k, a);
        lemma_merge_batches(e, bs2, k, a);
        lemma_same_batches(bs1, bs2, k, a);
        lemma_same_batches(bs2, bs1, k, a);
    }
    assert forall|k: Seq<char>|
        has_name(merge_batches(e, bs1), k) == has_name(merge_batches(e, bs2), k) && resolved_in(
            merge_batches(e, bs1),
            k,
        ) == resolved_in(merge_batches(e, bs2), k) by {
        lemma_merge_batches(e, bs1, k, Seq::empty());
        lemma_merge_batches(e, bs2, k, Seq::empty());
        lemma_same_batches(bs1, bs2, k, Seq::empty());
        lemma_same_batches(bs2, bs1, k, Seq::empty());
    }
    lemma_merge_batches(e, bs1, Seq::empty(), Seq::empty());
    lemma_merge_batches(e, bs2, Seq::empty(), Seq::empty());
}

proof fn lemma_same_batches(
    bs1: Seq<Seq<Candidate>>,
    bs2: Seq<Seq<Candidate>>,
    k: Seq<char>,
    a: Seq<char>,
)
    requires
        forall|b: Seq<Candidate>| bs1.contains(b) ==> bs2.contains(b),
    ensures
        (exists|b: int| 0 <= b < bs1.len() && named_among(bs1[b], k)) ==> (exists|b: int|
            0 <= b < bs2.len() && named_among(bs2[b], k)),
        (exists|b: int| 0 <= b < bs1.len() && resolved_among(bs1[b], k)) ==> (exists|b: int|
            0 <= b < bs2.len() && resolved_among(bs2[b], k)),
        (exists|b: int| 0 <= b < bs1.len() && address_among(bs1[b], k, a)) ==> (exists|b: int|
            0 <= b < bs2.len() && address_among(bs2[b], k, a)),
{
    if exists|b: int| 0 <= b < bs1.len() && named_among(bs1[b], k) {
        let b = choose|b: int| 0 <= b < bs1.len() && named_among(bs1[b], k);
        assert(bs1.contains(bs1[b]));
        let b2 = choose|b2: int| 0 <= b2 < bs2.len() && bs2[b2] == bs1[b];
        assert(named_among(bs2[b2], k));
    }
    if exists|b: int| 0 <= b < bs1.len() && resolved_among(bs1[b], k) {
        let b = choose|b: int| 0 <= b < bs1.len() && resolved_among(bs1[b], k);
        assert(bs1.contains(bs1[b]));
        let b2 = choose|b2: int| 0 <= b2 < bs2.len() && bs2[b2] == bs1[b];
        assert(resolved_among(bs2[b2], k));
    }
    if exists|b: int| 0 <= b < bs1.len() && address_among(bs1[b], k, a) {
        let b = choose|b: int| 0 <= b < bs1.len() && address_among(bs1[b], k, a);
        assert(bs1.contains(bs1[b]));
        let b2 = choose|b2: int| 0 <= b2 < bs2.len() && bs2[b2] == bs1[b];
        assert(address_among(bs2[b2], k, a));
    }
}

/// Names that differ only in letter case (or surrounding blanks) end up in a
/// single entry: after merging candidates from empty, the canonical name of
/// each candidate names an entry, and no name names two.
pub proof fn law_one_entry_per_name(cs: Seq<Candidate>)
    ensures
        names_distinct(merge_all(Seq::empty(), cs)),
        forall|j: int|
            0 <= j < cs.len() ==> #[trigger] has_name(
                merge_all(Seq::empty(), cs),
                canonical_of(cs[j].name),
            ),
        forall|i: int|
            0 <= i < merge_all(Seq::empty(), cs).len() ==> named_among(
                cs,
                #[trigger] merge_all(Seq::empty(), cs)[i].name,
            ),
{
    let e = Seq::<Candidate>::empty();
    let r = merge_all(e, cs);
    lemma_merge_all(e, cs, Seq::empty(), Seq::empty());
    assert forall|j: int| 0 <= j < cs.len() implies #[trigger] has_name(
        r,
        canonical_of(cs[j].name),
    ) by {
        lemma_merge_all(e, cs, canonical_of(cs[j].name), Seq::empty());
    }
    assert forall|i: int| 0 <= i < r.len() implies named_among(cs, #[trigger] r[i].name) by {
        lemma_merge_all(e, cs, r[i].name, Seq::empty());
    }
}

/// Whether `v` holds a string equal to `s`.
pub fn contains_string(v: &Vec<String>, s: &String) -> (r: bool)
    ensures
        r == v.deep_view().contains(s@),
{
    let mut i: usize = 0;
    while i < v.len()
        invariant
            i <= v@.len(),
            forall|k: int| 0 <= k < i ==> v@[k]@ != s@,
        decreases v@.len() - i,
    {
        if v[i] == *s {
            assert(v.deep_view()[i as int] == s@);
            return true;
        }
        i += 1;
    }
    false
}

/// Appends to `acc` the addresses of `new` that it does not hold yet.
pub fn add_addresses(acc: &mut Vec<String>, new: &Vec<String>)
    ensures
        final(acc).deep_view() == union_addresses(old(acc).deep_view(), new.deep_view()),
{
    let ghost start = acc.deep_view();
    let mut i: usize = 0;
    while i < new.len()
        invariant
            i <= new@.len(),
            acc.deep_view() == union_addresses(start, new.deep_view().take(i as int)),
        decreases new@.len() - i,
    {
        let ghost b = new.deep_view().take(i + 1);
        assert(b.drop_last() =~= new.deep_view().take(i as int));
        assert(b.last() == new@[i as int]@);
        if !contains_string(acc, &new[i]) {
            acc.push(new[i].clone());
            assert(acc.deep_view() =~= union_addresses(start, b));
        }
        i += 1;
    }
    assert(new.deep_view().take(i as int) =~= new.deep_view());
}

/// Candidates merged by canonical name, with no name twice.
pub struct ResultSet {
    entries: Vec<SubdomainResult>,
}

impl View for ResultSet {
    type V = Seq<Candidate>;

    closed spec fn view(&self) -> Seq<Candidate> {
        candidates(self.entries@)
    }
}

impl ResultSet {
    /// The entries' names are distinct.
    pub open spec fn wf(&self) -> bool {
        names_distinct(self@)
    }

    /// An empty result set.
    pub fn new() -> (r: ResultSet)
        ensures
            r.wf(),
            r@ == Seq::<Candidate>::empty(),
    {
        let r = ResultSet { entries: Vec::new() };
        assert(r@ =~= Seq::<Candidate>::empty());
        r
    }

    /// The number of distinct names held.
    pub fn len(&self) -> (r: usize)
        ensures
            r == self@.len(),
    {
        self.entries.len()
    }

    /// The position of the entry named `k`, if there is one.
    fn find(&self, k: &String) -> (r: Option<usize>)
        ensures
            match r {
                Some(i) => i < self@.len() && self@[i as int].name == k@,
                None => !has_name(self@, k@),
            },
    {
        let mut i: usize = 0;
        while i < self.entries.len()
            invariant
                i <= self@.len(),
                self@.len() == self.entries@.len(),
                forall|j: int| 0 <= j < i ==> self@[j].name != k@,
            decreases self@.len() - i,
        {
            if self.entries[i].subdomain == *k {
                return Some(i);
            }
            i += 1;
        }
        None
    }

    /// Folds one candidate in under the key `key`.
    pub fn merge_keyed(&mut self, key: String, c: SubdomainResult)
        requires
            old(self).wf(),
        ensures
            final(self).wf(),
            final(self)@ == merge_one_keyed(old(self)@, key@, c@),
    {
        match self.find(&key) {
            Some(i) => {
                let ghost es = self@;
                let ghost j = choose|j: int| 0 <= j < es.len() && es[j].name == key@;
                assert(j == i);
                let resolved = self.entries[i].resolved || c.resolved;
                self.entries[i].resolved = resolved;
                add_addresses(&mut self.entries[i].ip_addresses, &c.ip_addresses);
                assert(self@ =~= es.update(i as int, combine(es[i as int], c@)));
            },
            None => {
                let mut addresses: Vec<String> = Vec::new();
                assert(addresses.deep_view() =~= Seq::<Seq<char>>::empty());
                add_addresses(&mut addresses, &c.ip_addresses);
                let ghost k = key@;
                let entry = SubdomainResult {
                    subdomain: key,
                    source: c.source,
                    resolved: c.resolved,
                    ip_addresses: addresses,
                };
                let ghost es = self@;
                self.entries.push(entry);
                assert(self@ =~= es.push(fresh_keyed(k, c@)));
            },
        }
    }

    /// Folds one candidate in under its canonical name.
    pub fn merge_candidate(&mut self, c: SubdomainResult)
        requires
            old(self).wf(),
        ensures
            final(self).wf(),
            final(self)@ == merge_one(old(self)@, c@),
    {
        let key = canonical(c.subdomain.as_str());
        self.merge_keyed(key, c);
    }

    /// Folds a batch of candidates in, in order.
    pub fn merge_batch(&mut self, batch: Vec<SubdomainResult>)
        requires
            old(self).wf(),
        ensures
            final(self).wf(),
            final(self)@ == merge_all(old(self)@, candidates(batch@)),
    {
        let ghost start = self@;
        let ghost cs = candidates(batch@);
        let mut i: usize = 0;
        while i < batch.len()
            invariant
                self.wf(),
                i <= batch@.len(),
                cs == candidates(batch@),
                self@ == merge_all(start, cs.take(i as int)),
            decreases batch@.len() - i,
        {
            assert(cs.take(i + 1).drop_last() =~= cs.take(i as int));
            self.merge_candidate(batch[i].duplicate());
            i += 1;
        }
        assert(cs.take(i as int) =~= cs);
    }

    /// The entries, in the order they were first seen.
    pub fn into_entries(self) -> (r: Vec<SubdomainResult>)
        ensures
            candidates(r@) == self@,
    {
        self.entries
    }
}

} // verus!
