//! Orders on names, and sorting by them.
use vstd::prelude::*;
use vstd::multiset::Multiset;
use crate::merge::{has_name, names_distinct};
use crate::types::{candidates, SubdomainResult};

verus! {

broadcast use vstd::seq_lib::group_to_multiset_ensures;

/// `a` comes before `b`, or equals it, in character order (the order of `str`).
pub open spec fn lex_le(a: Seq<char>, b: Seq<char>) -> bool
    decreases a.len(),
{
    if a.len() == 0 {
        true
    } else if b.len() == 0 {
        false
    } else if a[0] != b[0] {
        a[0] < b[0]
    } else {
        lex_le(a.drop_first(), b.drop_first())
    }
}

/// Of two sequences, at least one comes first.
pub proof fn lemma_lex_total(a: Seq<char>, b: Seq<char>)
    ensures
        lex_le(a, b) || lex_le(b, a),
    decreases a.len(),
{
    if a.len() > 0 && b.len() > 0 && a[0] == b[0] {
        lemma_lex_total(a.drop_first(), b.drop_first());
    }
}

/// Computes `lex_le(a, b)`.
pub fn lex_le_chars(a: &[char], b: &[char]) -> (r: bool)
    ensures
        r == lex_le(a@, b@),
{
    let mut i: usize = 0;
    assert(a@.subrange(0, a@.len() as int) =~= a@);
    assert(b@.subrange(0, b@.len() as int) =~= b@);
    while i < a.len() && i < b.len() && a[i] == b[i]
        invariant
            i <= a@.len(),
            i <= b@.len(),
            a@.subrange(0, i as int) == b@.subrange(0, i as int),
            lex_le(a@, b@) == lex_le(a@.subrange(i as int, a@.len() as int), b@.subrange(i as int, b@.len() as int)),
        decreases a@.len() - i,
    {
        let ghost sa = a@.subrange(i as int, a@.len() as int);
        let ghost sb = b@.subrange(i as int, b@.len() as int);
        assert(sa.drop_first() =~= a@.subrange(i + 1, a@.len() as int));
        assert(sb.drop_first() =~= b@.subrange(i + 1, b@.len() as int));
        assert(a@.subrange(0, i + 1) =~= a@.subrange(0, i as int).push(a@[i as int]));
        assert(b@.subrange(0, i + 1) =~= b@.subrange(0, i as int).push(b@[i as int]));
        i += 1;
    }
    let ghost sa = a@.subrange(i as int, a@.len() as int);
    let ghost sb = b@.subrange(i as int, b@.len() as int);
    if i == a.len() {
        true
    } else if i == b.len() {
        false
    } else {
        assert(sa[0] == a@[i as int] && sb[0] == b@[i as int]);
        a[i] < b[i]
    }
}

/// Each name of `s` comes first or equal to the next one.
pub open spec fn sorted_by_name(s: Seq<SubdomainResult>) -> bool {
    forall|i: int| 0 <= i && i + 1 < s.len() ==> lex_le(#[trigger] s[i]@.name, s[i + 1]@.name)
}

/// The first position of `out` whose name does not come first or equal to `x`.
fn name_position(out: &Vec<SubdomainResult>, x: &[char]) -> (k: usize)
    ensures
        k <= out@.len(),
        forall|j: int| 0 <= j < k ==> lex_le(#[trigger] out@[j]@.name, x@),
        k < out@.len() ==> !lex_le(out@[k as int]@.name, x@),
{
    let mut k: usize = 0;
    while k < out.len()
        invariant
            k <= out@.len(),
            forall|j: int| 0 <= j < k ==> lex_le(#[trigger] out@[j]@.name, x@),
        decreases out@.len() - k,
    {
        let ys = crate::text::chars_of(out[k].subdomain.as_str());
        if !lex_le_chars(ys.as_slice(), x) {
            return k;
        }
        k += 1;
    }
    k
}

/// The first position of `out` whose name does not come before or equal to `x`
/// in the order of `level_le`.
fn level_position(out: &Vec<String>, x: &[char]) -> (k: usize)
    ensures
        k <= out@.len(),
        forall|j: int| 0 <= j < k ==> level_le(#[trigger] out@[j]@, x@),
        k < out@.len() ==> !level_le(out@[k as int]@, x@),
{
    let xd = dots_of(x);
    let mut k: usize = 0;
    while k < out.len()
        invariant
            k <= out@.len(),
            xd == count_dots(x@),
            forall|j: int| 0 <= j < k ==> level_le(#[trigger] out@[j]@, x@),
        decreases out@.len() - k,
    {
        let ys = crate::text::chars_of(out[k].as_str());
        let yd = dots_of(ys.as_slice());
        if !(yd < xd || (yd == xd && lex_le_chars(ys.as_slice(), x))) {
            return k;
        }
        k += 1;
    }
    k
}

/// The results of `v` in ascending order of name.
pub fn sort_by_name(v: Vec<SubdomainResult>) -> (r: Vec<SubdomainResult>)
    requires
        names_distinct(candidates(v@)),
    ensures
        r@.to_multiset() == v@.to_multiset(),
        r@.len() == v@.len(),
        sorted_by_name(r@),
        names_distinct(candidates(r@)),
{
    let ghost orig = v@;
    assert forall|i: int, j: int|
        0 <= i < v@.len() && 0 <= j < v@.len() && i != j implies v@[i]@.name != v@[j]@.name by {
        assert(candidates(v@)[i] == v@[i]@ && candidates(v@)[j] == v@[j]@);
    }
    let mut rest = v;
    let mut out: Vec<SubdomainResult> = Vec::new();
    while rest.len() > 0
        invariant
            rest@.to_multiset().add(out@.to_multiset()) == orig.to_multiset(),
            rest@.len() + out@.len() == orig.len(),
            sorted_by_name(out@),
            forall|i: int, j: int|
                0 <= i < rest@.len() && 0 <= j < rest@.len() && i != j ==> rest@[i]@.name
                    != rest@[j]@.name,
            forall|i: int, j: int|
                0 <= i < out@.len() && 0 <= j < out@.len() && i != j ==> out@[i]@.name
                    != out@[j]@.name,
            forall|i: int, j: int|
                0 <= i < rest@.len() && 0 <= j < out@.len() ==> rest@[i]@.name
                    != out@[j]@.name,
        decreases rest@.len(),
    {
        let ghost before = rest@;
        let x = rest.pop().unwrap();
        assert(before == rest@.push(x));
        assert forall|j: int| 0 <= j < out@.len() implies out@[j]@.name != x@.name by {
            assert(before[before.len() - 1] == x);
        }
        let xs = crate::text::chars_of(x.subdomain.as_str());
        let k = name_position(&out, xs.as_slice());
        proof {
            if k < out@.len() {
                lemma_lex_total(out@[k as int]@.name, x@.name);
            }
        }
        let ghost prev = out@;
        out.insert(k, x);
        assert forall|i: int| 0 <= i && i + 1 < out@.len() implies lex_le(
            #[trigger] out@[i]@.name,
            out@[i + 1]@.name,
        ) by {
            if i + 1 < k {
                assert(out@[i] == prev[i] && out@[i + 1] == prev[i + 1]);
            } else if i + 1 == k {
                assert(out@[i] == prev[i] && out@[i + 1] == x);
            } else if i == k {
                assert(out@[i] == x && out@[i + 1] == prev[i]);
            } else {
                assert(out@[i] == prev[i - 1] && out@[i + 1] == prev[i]);
            }
        }
        assert forall|i: int, j: int|
            0 <= i < out@.len() && 0 <= j < out@.len() && i != j implies out@[i]@.name
                != out@[j]@.name by {
            let pi = if i < k { i } else { i - 1 };
            let pj = if j < k { j } else { j - 1 };
            if i != k && j != k {
                assert(out@[i] == prev[pi] && out@[j] == prev[pj]);
            } else if i == k {
                assert(out@[j] == prev[pj]);
            } else {
                assert(out@[i] == prev[pi]);
            }
        }
        assert forall|i: int, j: int|
            0 <= i < rest@.len() && 0 <= j < out@.len() implies rest@[i]@.name
                != out@[j]@.name by {
            assert(rest@[i] == before[i]);
            if j == k {
                assert(before[before.len() - 1] == x);
            } else {
                let pj = if j < k { j } else { j - 1 };
                assert(out@[j] == prev[pj]);
            }
        }
    }
    assert(rest@.to_multiset() =~= Multiset::empty());
    assert forall|i: int, j: int|
        0 <= i < candidates(out@).len() && 0 <= j < candidates(out@).len() && i != j implies candidates(
        out@,
    )[i].name != candidates(out@)[j].name by {}
    out
}

/// The number of dots in `s`.
pub open spec fn count_dots(s: Seq<char>) -> nat
    decreases s.len(),
{
    if s.len() == 0 {
        0
    } else {
        count_dots(s.drop_last()) + if s.last() == '.' { 1nat } else { 0nat }
    }
}

/// The number of dot-separated labels of `s` (a name without dots has one).
pub open spec fn level(s: Seq<char>) -> nat {
    count_dots(s) + 1
}

/// `a` has fewer labels than `b`, or as many and comes first in character order.
pub open spec fn level_le(a: Seq<char>, b: Seq<char>) -> bool {
    level(a) < level(b) || (level(a) == level(b) && lex_le(a, b))
}

/// Computes the number of dots of `s`.
pub fn dots_of(s: &[char]) -> (r: usize)
    ensures
        r == count_dots(s@),
{
    let mut n: usize = 0;
    let mut i: usize = 0;
    while i < s.len()
        invariant
            i <= s@.len(),
            s@.len() == s.len(),
            n == count_dots(s@.take(i as int)),
            n <= i,
        decreases s@.len() - i,
    {
        assert(s@.take(i + 1).drop_last() =~= s@.take(i as int));
        if s[i] == '.' {
            n += 1;
        }
        i += 1;
    }
    assert(s@.take(i as int) =~= s@);
    n
}

/// Each name of `s` has fewer labels than the next, or as many and comes first
/// in character order.
pub open spec fn sorted_by_level(s: Seq<String>) -> bool {
    forall|i: int| 0 <= i && i + 1 < s.len() ==> level_le(#[trigger] s[i]@, s[i + 1]@)
}

/// The names of `v` ordered by number of labels, then in character order.
pub fn sort_names_by_level(v: Vec<String>) -> (r: Vec<String>)
    ensures
        r@.to_multiset() == v@.to_multiset(),
        r@.len() == v@.len(),
        sorted_by_level(r@),
{
    let ghost orig = v@;
    let mut rest = v;
    let mut out: Vec<String> = Vec::new();
    while rest.len() > 0
        invariant
            rest@.to_multiset().add(out@.to_multiset()) == orig.to_multiset(),
            rest@.len() + out@.len() == orig.len(),
            sorted_by_level(out@),
        decreases rest@.len(),
    {
        let ghost before = rest@;
        let x = rest.pop().unwrap();
        assert(before == rest@.push(x));
        let xs = crate::text::chars_of(x.as_str());
        let k = level_position(&out, xs.as_slice());
        proof {
            if k < out@.len() {
                lemma_lex_total(out@[k as int]@, x@);
            }
        }
        let ghost prev = out@;
        out.insert(k, x);
        assert forall|i: int| 0 <= i && i + 1 < out@.len() implies level_le(
            #[trigger] out@[i]@,
            out@[i + 1]@,
        ) by {
            if i + 1 < k {
                assert(out@[i] == prev[i] && out@[i + 1] == prev[i + 1]);
            } else if i + 1 == k {
                assert(out@[i] == prev[i] && out@[i + 1] == x);
            } else if i == k {
                assert(out@[i] == x && out@[i + 1] == prev[i]);
            } else {
                assert(out@[i] == prev[i - 1] && out@[i + 1] == prev[i]);
            }
        }
    }
    assert(rest@.to_multiset() =~= Multiset::empty());
    out
}

/// Sequences that come first each of the other are equal.
pub proof fn lemma_lex_antisymmetric(a: Seq<char>, b: Seq<char>)
    requires
        lex_le(a, b),
        lex_le(b, a),
    ensures
        a == b,
    decreases a.len(),
{
    if a.len() > 0 && b.len() > 0 {
        lemma_lex_antisymmetric(a.drop_first(), b.drop_first());
        assert(a =~= seq![a[0]] + a.drop_first());
        assert(b =~= seq![b[0]] + b.drop_first());
    }
}

/// The character order is transitive.
pub proof fn lemma_lex_transitive(a: Seq<char>, b: Seq<char>, c: Seq<char>)
    requires
        lex_le(a, b),
        lex_le(b, c),
    ensures
        lex_le(a, c),
    decreases a.len(),
{
    if a.len() > 0 && b.len() > 0 && c.len() > 0 && a[0] == b[0] && b[0] == c[0] {
        lemma_lex_transitive(a.drop_first(), b.drop_first(), c.drop_first());
    }
}

/// The names of a sequence of results.
pub open spec fn names_of(s: Seq<SubdomainResult>) -> Seq<Seq<char>> {
    s.map_values(|r: SubdomainResult| r@.name)
}

/// Each name comes first or equal to the next one.
pub open spec fn names_sorted(s: Seq<Seq<char>>) -> bool {
    forall|i: int| 0 <= i && i + 1 < s.len() ==> lex_le(#[trigger] s[i], s[i + 1])
}

/// No name appears twice.
pub open spec fn names_unique(s: Seq<Seq<char>>) -> bool {
    forall|i: int, j: int| 0 <= i < s.len() && 0 <= j < s.len() && i != j ==> s[i] != s[j]
}

proof fn lemma_first_is_least(s: Seq<Seq<char>>, i: int)
    requires
        names_sorted(s),
        0 <= i < s.len(),
    ensures
        lex_le(s[0], s[i]),
    decreases i,
{
    if i == 0 {
        lemma_lex_total(s[0], s[0]);
    } else {
        lemma_first_is_least(s, i - 1);
        lemma_lex_transitive(s[0], s[i - 1], s[i]);
    }
}

proof fn lemma_sorted_unique_equal(a: Seq<Seq<char>>, b: Seq<Seq<char>>)
    requires
        names_sorted(a),
        names_sorted(b),
        names_unique(a),
        names_unique(b),
        forall|x: Seq<char>| a.contains(x) <==> b.contains(x),
    ensures
        a == b,
    decreases a.len(),
{
    if a.len() == 0 {
        if b.len() > 0 {
            assert(b.contains(b[0]));
        }
        assert(a =~= b);
    } else {
        assert(a.contains(a[0]));
        assert(b.len() > 0);
        assert(b.contains(b[0]));
        let i = choose|i: int| 0 <= i < a.len() && a[i] == b[0];
        let j = choose|j: int| 0 <= j < b.len() && b[j] == a[0];
        lemma_first_is_least(a, i);
        lemma_first_is_least(b, j);
        lemma_lex_antisymmetric(a[0], b[0]);
        let at = a.drop_first();
        let bt = b.drop_first();
        assert forall|x: Seq<char>| at.contains(x) <==> bt.contains(x) by {
            if at.contains(x) {
                let k = choose|k: int| 0 <= k < at.len() && at[k] == x;
                assert(a[k + 1] == x);
                assert(a.contains(x));
                let m = choose|m: int| 0 <= m < b.len() && b[m] == x;
                assert(x != a[0]);
                assert(m != 0);
                assert(bt[m - 1] == x);
            }
            if bt.contains(x) {
                let k = choose|k: int| 0 <= k < bt.len() && bt[k] == x;
                assert(b[k + 1] == x);
                assert(b.contains(x));
                let m = choose|m: int| 0 <= m < a.len() && a[m] == x;
                assert(x != b[0]);
                assert(m != 0);
                assert(at[m - 1] == x);
            }
        }
        assert forall|k: int| 0 <= k && k + 1 < at.len() implies lex_le(#[trigger] at[k], at[k + 1]) by {
            assert(at[k] == a[k + 1] && at[k + 1] == a[k + 2]);
        }
        assert forall|k: int| 0 <= k && k + 1 < bt.len() implies lex_le(#[trigger] bt[k], bt[k + 1]) by {
            assert(bt[k] == b[k + 1] && bt[k + 1] == b[k + 2]);
        }
        lemma_sorted_unique_equal(at, bt);
        assert(a =~= seq![a[0]] + at);
        assert(b =~= seq![b[0]] + bt);
    }
}

/// Sorting leaves no choice: two result lists in ascending order of name,
/// without repeated names, that hold the same names list them in the same
/// order.
pub proof fn law_sorted_names_determined(r1: Seq<SubdomainResult>, r2: Seq<SubdomainResult>)
    requires
        sorted_by_name(r1),
        sorted_by_name(r2),
        names_distinct(candidates(r1)),
        names_distinct(candidates(r2)),
        forall|k: Seq<char>| has_name(candidates(r1), k) <==> has_name(candidates(r2), k),
    ensures
        names_of(r1) == names_of(r2),
{
    let a = names_of(r1);
    let b = names_of(r2);
    assert forall|k: int| 0 <= k && k + 1 < a.len() implies lex_le(#[trigger] a[k], a[k + 1]) by {
        assert(lex_le(r1[k]@.name, r1[k + 1]@.name));
    }
    assert forall|k: int| 0 <= k && k + 1 < b.len() implies lex_le(#[trigger] b[k], b[k + 1]) by {
        assert(lex_le(r2[k]@.name, r2[k + 1]@.name));
    }
    assert forall|i: int, j: int| 0 <= i < a.len() && 0 <= j < a.len() && i != j implies a[i] != a[j] by {
        assert(candidates(r1)[i].name == a[i] && candidates(r1)[j].name == a[j]);
    }
    assert forall|i: int, j: int| 0 <= i < b.len() && 0 <= j < b.len() && i != j implies b[i] != b[j] by {
        assert(candidates(r2)[i].name == b[i] && candidates(r2)[j].name == b[j]);
    }
    assert forall|x: Seq<char>| a.contains(x) <==> b.contains(x) by {
        if a.contains(x) {
            let i = choose|i: int| 0 <= i < a.len() && a[i] == x;
            assert(candidates(r1)[i].name == x);
            assert(has_name(candidates(r1), x));
            let j = choose|j: int| 0 <= j < candidates(r2).len() && candidates(r2)[j].name == x;
            assert(b[j] == x);
        }
        if b.contains(x) {
            let i = choose|i: int| 0 <= i < b.len() && b[i] == x;
            assert(candidates(r2)[i].name == x);
            assert(has_name(candidates(r2), x));
            let j = choose|j: int| 0 <= j < candidates(r1).len() && candidates(r1)[j].name == x;
            assert(a[j] == x);
        }
    }
    lemma_sorted_unique_equal(a, b);
}

} // verus!
