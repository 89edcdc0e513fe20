//! Turning what a source sent back into candidates: qualifying names with the
//! target domain, filtering those that do not belong to it, and dropping
//! repeats.
use vstd::prelude::*;
use crate::sources::SourceKind;
use crate::text::{
    chars_of, contains_chars, contains_text_before, occurs_at_exec, ends_with_chars, has_infix, has_prefix, has_suffix, lines_of,
    lines_spec, lower_of, lowercase, owned, push_str_chars, same_text, split_char, split_on,
    starts_with_chars, string_of, trim_of, trim_start_of, trimmed, trimmed_start,
};
use crate::types::{candidates, Candidate, RustFinderError, SubdomainResult};
use crate::utils::{find_names, found_names, regex_groups, strip_trailing_dots, subdomain_pattern};
use vstd::utf8::encode_utf8;

verus! {

/// A candidate as a source first reports it: unresolved, with no addresses.
pub open spec fn reported(name: Seq<char>, source: Seq<char>) -> Candidate {
    Candidate { name, source, resolved: false, addresses: Seq::empty() }
}

/// The names of `names` without repeats (the first of equal names is kept),
/// as candidates of `source`.
pub open spec fn unique_candidates(names: Seq<Seq<char>>, source: Seq<char>) -> Seq<Candidate>
    decreases names.len(),
{
    if names.len() == 0 {
        Seq::empty()
    } else {
        let p = unique_candidates(names.drop_last(), source);
        if names.drop_last().contains(names.last()) {
            p
        } else {
            p.push(reported(names.last(), source))
        }
    }
}

/// `s` followed by a dot and `domain`.
pub open spec fn dotted(s: Seq<char>, domain: Seq<char>) -> Seq<char> {
    s + seq!['.'] + domain
}

/// `s` when it already ends with `.domain`, else `s.domain`.
pub open spec fn qualified(s: Seq<char>, domain: Seq<char>) -> Seq<char> {
    if has_suffix(s, seq!['.'] + domain) {
        s
    } else {
        dotted(s, domain)
    }
}

/// The names of `names` without repeats, in order, as unresolved candidates of
/// `source`.
pub fn candidates_from_names(names: &Vec<String>, source: &str) -> (r: Vec<SubdomainResult>)
    ensures
        candidates(r@) == unique_candidates(names.deep_view(), source@),
{
    let ghost nv = names.deep_view();
    let mut out: Vec<SubdomainResult> = Vec::new();
    let mut i: usize = 0;
    while i < names.len()
        invariant
            i <= names@.len(),
            nv == names.deep_view(),
            candidates(out@) == unique_candidates(nv.take(i as int), source@),
        decreases names@.len() - i,
    {
        let ghost t = nv.take(i + 1);
        assert(t.drop_last() =~= nv.take(i as int));
        assert(t.last() == nv[i as int]);
        if !contains_text_before(names, i, names[i].as_str()) {
            let addresses: Vec<String> = Vec::new();
            assert(addresses.deep_view() =~= Seq::<Seq<char>>::empty());
            let c = SubdomainResult {
                subdomain: names[i].clone(),
                source: owned(source),
                resolved: false,
                ip_addresses: addresses,
            };
            out.push(c);
            assert(candidates(out@) =~= unique_candidates(nv.take(i as int), source@).push(
                reported(nv[i as int], source@),
            ));
        }
        i += 1;
    }
    assert(nv.take(i as int) =~= nv);
    out
}

/// Computes `qualified(s, domain)`.
pub fn qualify_name(s: &str, domain: &str) -> (r: String)
    ensures
        r@ == qualified(s@, domain@),
{
    let mut suffix = String::new();
    suffix.push('.');
    push_str_chars(&mut suffix, domain);
    let sc = chars_of(s);
    let xc = chars_of(suffix.as_str());
    assert(suffix@ =~= seq!['.'] + domain@);
    if ends_with_chars(sc.as_slice(), xc.as_slice()) {
        owned(s)
    } else {
        let mut out = owned(s);
        out.push('.');
        push_str_chars(&mut out, domain);
        assert(out@ =~= dotted(s@, domain@));
        out
    }
}

/// Computes `dotted(s, domain)`.
pub fn dot_join(s: &str, domain: &str) -> (r: String)
    ensures
        r@ == dotted(s@, domain@),
{
    let mut out = owned(s);
    out.push('.');
    push_str_chars(&mut out, domain);
    assert(out@ =~= dotted(s@, domain@));
    out
}

/// Each name qualified with `domain`.
pub fn qualify_all(names: &Vec<String>, domain: &str) -> (r: Vec<String>)
    ensures
        r@.len() == names@.len(),
        forall|i: int| 0 <= i < r@.len() ==> r@[i]@ == qualified(names@[i]@, domain@),
{
    let mut out: Vec<String> = Vec::new();
    let mut i: usize = 0;
    while i < names.len()
        invariant
            i <= names@.len(),
            out@.len() == i,
            forall|k: int| 0 <= k < i ==> out@[k]@ == qualified(names@[k]@, domain@),
        decreases names@.len() - i,
    {
        out.push(qualify_name(names[i].as_str(), domain));
        i += 1;
    }
    out
}

/// Each prefix followed by a dot and `domain`.
pub fn prefix_all(prefixes: &Vec<String>, domain: &str) -> (r: Vec<String>)
    ensures
        r@.len() == prefixes@.len(),
        forall|i: int| 0 <= i < r@.len() ==> r@[i]@ == dotted(prefixes@[i]@, domain@),
{
    let mut out: Vec<String> = Vec::new();
    let mut i: usize = 0;
    while i < prefixes.len()
        invariant
            i <= prefixes@.len(),
            out@.len() == i,
            forall|k: int| 0 <= k < i ==> out@[k]@ == dotted(prefixes@[k]@, domain@),
        decreases prefixes@.len() - i,
    {
        out.push(dot_join(prefixes[i].as_str(), domain));
        i += 1;
    }
    out
}

/// The candidates of a source that lists names which may or may not already
/// end with the domain (Chaos): each is qualified, repeats are dropped.
pub fn qualified_results(names: &Vec<String>, domain: &str, source: &str) -> (r: Vec<SubdomainResult>)
    ensures
        candidates(r@) == unique_candidates(
            names.deep_view().map_values(|n: Seq<char>| qualified(n, domain@)),
            source@,
        ),
{
    let q = qualify_all(names, domain);
    assert(q.deep_view() =~= names.deep_view().map_values(|n: Seq<char>| qualified(n, domain@)));
    candidates_from_names(&q, source)
}

/// The candidates of a source that lists labels under the domain
/// (SecurityTrails): each becomes `label.domain`, repeats are dropped.
pub fn prefixed_results(prefixes: &Vec<String>, domain: &str, source: &str) -> (r: Vec<SubdomainResult>)
    ensures
        candidates(r@) == unique_candidates(
            prefixes.deep_view().map_values(|n: Seq<char>| dotted(n, domain@)),
            source@,
        ),
{
    let q = prefix_all(prefixes, domain);
    assert(q.deep_view() =~= prefixes.deep_view().map_values(|n: Seq<char>| dotted(n, domain@)));
    candidates_from_names(&q, source)
}

/// One page of a Shodan answer: the domain it names, the labels it lists
/// under that domain, and the names of its records.
pub struct ShodanPage {
    pub domain: String,
    pub labels: Vec<String>,
    pub records: Vec<String>,
}

/// The names of one page: its labels under the domain the page names, then
/// its record names qualified with the target domain.
pub open spec fn page_names(p: ShodanPage, domain: Seq<char>) -> Seq<Seq<char>> {
    p.labels.deep_view().map_values(|n: Seq<char>| dotted(n, p.domain@))
        + p.records.deep_view().map_values(|n: Seq<char>| qualified(n, domain))
}

/// The names of the pages, one page after another.
pub open spec fn pages_names(pages: Seq<ShodanPage>, domain: Seq<char>) -> Seq<Seq<char>>
    decreases pages.len(),
{
    if pages.len() == 0 {
        Seq::empty()
    } else {
        pages_names(pages.drop_last(), domain) + page_names(pages.last(), domain)
    }
}

/// The candidates of a Shodan answer: the names of its pages in order, with
/// repeats dropped across pages.
pub fn shodan_results(pages: &Vec<ShodanPage>, domain: &str, source: &str) -> (r: Vec<SubdomainResult>)
    ensures
        candidates(r@) == unique_candidates(pages_names(pages@, domain@), source@),
{
    let mut all: Vec<String> = Vec::new();
    let mut i: usize = 0;
    while i < pages.len()
        invariant
            i <= pages@.len(),
            all.deep_view() == pages_names(pages@.take(i as int), domain@),
        decreases pages@.len() - i,
    {
        assert(pages@.take(i + 1).drop_last() =~= pages@.take(i as int));
        let page = &pages[i];
        let mut labels = prefix_all(&page.labels, page.domain.as_str());
        let mut records = qualify_all(&page.records, domain);
        let ghost a = all.deep_view();
        let ghost l = labels.deep_view();
        let ghost q = records.deep_view();
        assert(l =~= page.labels.deep_view().map_values(|n: Seq<char>| dotted(n, page.domain@)));
        assert(q =~= page.records.deep_view().map_values(|n: Seq<char>| qualified(n, domain@)));
        all.append(&mut labels);
        all.append(&mut records);
        assert(all.deep_view() =~= a + (l + q));
        i += 1;
    }
    assert(pages@.take(i as int) =~= pages@);
    candidates_from_names(&all, source)
}

/// `x` is a name under `domain` other than the domain itself.
pub open spec fn under_domain(x: Seq<char>, domain: Seq<char>) -> bool {
    has_suffix(x, domain) && x != domain
}

/// The names of `xs` that are under `domain`, in order.
pub open spec fn names_under(xs: Seq<Seq<char>>, domain: Seq<char>) -> Seq<Seq<char>>
    decreases xs.len(),
{
    if xs.len() == 0 {
        Seq::empty()
    } else if under_domain(xs.last(), domain) {
        names_under(xs.drop_last(), domain).push(xs.last())
    } else {
        names_under(xs.drop_last(), domain)
    }
}

fn is_under_domain(x: &str, domain: &str) -> (r: bool)
    ensures
        r == under_domain(x@, domain@),
{
    let xc = chars_of(x);
    let dc = chars_of(domain);
    ends_with_chars(xc.as_slice(), dc.as_slice()) && !same_text(x, domain)
}

/// The names of a Netlas answer: trailing dots removed, lowercased.
pub open spec fn netlas_name(d: Seq<char>) -> Seq<char> {
    lower_of(strip_trailing_dots(d))
}

fn without_trailing_dots(s: &str) -> (r: String)
    ensures
        r@ == strip_trailing_dots(s@),
{
    let mut cs = chars_of(s);
    assert(cs@.take(cs@.len() as int) =~= cs@);
    while cs.len() > 0 && cs[cs.len() - 1] == '.'
        invariant
            strip_trailing_dots(cs@) == strip_trailing_dots(s@),
        decreases cs@.len(),
    {
        let ghost before = cs@;
        cs.pop();
        assert(cs@ =~= before.drop_last());
    }
    string_of(cs.as_slice())
}

/// The candidates of a Netlas answer: its names, with trailing dots removed and
/// lowercased, that are under the domain, without repeats.
pub fn netlas_results(names: &Vec<String>, domain: &str, source: &str) -> (r: Vec<SubdomainResult>)
    ensures
        candidates(r@) == unique_candidates(
            names_under(names.deep_view().map_values(|d: Seq<char>| netlas_name(d)), domain@),
            source@,
        ),
{
    let ghost mapped = names.deep_view().map_values(|d: Seq<char>| netlas_name(d));
    let mut kept: Vec<String> = Vec::new();
    let mut i: usize = 0;
    while i < names.len()
        invariant
            i <= names@.len(),
            mapped == names.deep_view().map_values(|d: Seq<char>| netlas_name(d)),
            kept.deep_view() == names_under(mapped.take(i as int), domain@),
        decreases names@.len() - i,
    {
        let ghost t = mapped.take(i + 1);
        assert(t.drop_last() =~= mapped.take(i as int));
        let x = lowercase(without_trailing_dots(names[i].as_str()).as_str());
        assert(x@ == mapped[i as int]);
        if is_under_domain(x.as_str(), domain) {
            kept.push(x);
            assert(kept.deep_view() =~= names_under(t, domain@));
        }
        i += 1;
    }
    assert(mapped.take(i as int) =~= mapped);
    candidates_from_names(&kept, source)
}

/// The lines of each name value, trimmed and lowercased, one value after
/// another.
pub open spec fn value_lines(values: Seq<Seq<char>>) -> Seq<Seq<char>>
    decreases values.len(),
{
    if values.len() == 0 {
        Seq::empty()
    } else {
        value_lines(values.drop_last()) + lines_spec(values.last()).map_values(
            |l: Seq<char>| lower_of(trim_of(l)),
        )
    }
}

/// A certificate name worth keeping: not a wildcard, and under the domain.
pub open spec fn certificate_name_kept(x: Seq<char>, domain: Seq<char>) -> bool {
    !has_prefix(x, seq!['*']) && under_domain(x, domain)
}

/// The names of `xs` kept by `certificate_name_kept`, in order.
pub open spec fn certificate_names(xs: Seq<Seq<char>>, domain: Seq<char>) -> Seq<Seq<char>>
    decreases xs.len(),
{
    if xs.len() == 0 {
        Seq::empty()
    } else if certificate_name_kept(xs.last(), domain) {
        certificate_names(xs.drop_last(), domain).push(xs.last())
    } else {
        certificate_names(xs.drop_last(), domain)
    }
}

/// The candidates of a certificate-log answer: the lines of each certificate's
/// name value, trimmed and lowercased, that are not wildcards and are under
/// the domain, without repeats.
pub fn certificate_results(name_values: &Vec<String>, domain: &str, source: &str) -> (r: Vec<
    SubdomainResult,
>)
    ensures
        candidates(r@) == unique_candidates(
            certificate_names(value_lines(name_values.deep_view()), domain@),
            source@,
        ),
{
    let ghost vv = name_values.deep_view();
    let mut kept: Vec<String> = Vec::new();
    let ghost mut seen: Seq<Seq<char>> = Seq::empty();
    let mut i: usize = 0;
    while i < name_values.len()
        invariant
            i <= name_values@.len(),
            vv == name_values.deep_view(),
            seen == value_lines(vv.take(i as int)),
            kept.deep_view() == certificate_names(seen, domain@),
        decreases name_values@.len() - i,
    {
        assert(vv.take(i + 1).drop_last() =~= vv.take(i as int));
        let lines = lines_of(name_values[i].as_str());
        let ghost lv = lines.deep_view();
        let ghost start = seen;
        let mut j: usize = 0;
        while j < lines.len()
            invariant
                j <= lines@.len(),
                lv == lines.deep_view(),
                lv == lines_spec(vv[i as int]),
                seen == start + lv.take(j as int).map_values(|l: Seq<char>| lower_of(trim_of(l))),
                kept.deep_view() == certificate_names(seen, domain@),
            decreases lines@.len() - j,
        {
            let x = lowercase(trimmed(lines[j].as_str()));
            let ghost before = seen;
            proof {
                seen = seen.push(x@);
                assert(seen.drop_last() =~= before);
                assert(lv.take(j + 1).map_values(|l: Seq<char>| lower_of(trim_of(l))) =~= lv.take(
                    j as int,
                ).map_values(|l: Seq<char>| lower_of(trim_of(l))).push(x@));
            }
            let xc = chars_of(x.as_str());
            let star = vec!['*'];
            assert(star@ =~= seq!['*']);
            if !starts_with_chars(xc.as_slice(), star.as_slice()) && is_under_domain(x.as_str(), domain) {
                kept.push(x);
                assert(kept.deep_view() =~= certificate_names(seen, domain@));
            }
            j += 1;
        }
        assert(lv.take(j as int) =~= lv);
        i += 1;
    }
    assert(vv.take(i as int) =~= vv);
    candidates_from_names(&kept, source)
}

/// What a HackerTarget line `host,address` yields, if it is a host under the
/// domain: the trimmed, lowercased host with the trimmed address, if any.
pub open spec fn host_line(line: Seq<char>, domain: Seq<char>, source: Seq<char>) -> Option<Candidate> {
    let t = trim_of(line);
    let parts = split_char(t, ',');
    let host = lower_of(trim_of(parts[0]));
    if t.len() == 0 || has_prefix(t, "error"@) || !has_suffix(host, seq!['.'] + domain) {
        None
    } else if parts.len() > 1 {
        Some(Candidate { name: host, source, resolved: true, addresses: seq![trim_of(parts[1])] })
    } else {
        Some(Candidate { name: host, source, resolved: false, addresses: Seq::empty() })
    }
}

/// The candidates of the lines, in order.
pub open spec fn host_lines(lines: Seq<Seq<char>>, domain: Seq<char>, source: Seq<char>) -> Seq<Candidate>
    decreases lines.len(),
{
    if lines.len() == 0 {
        Seq::empty()
    } else {
        let p = host_lines(lines.drop_last(), domain, source);
        match host_line(lines.last(), domain, source) {
            Some(c) => p.push(c),
            None => p,
        }
    }
}

/// The candidates of a HackerTarget answer, one per line `host,address` whose
/// host is under the domain.
pub fn hackertarget_results(text: &str, domain: &str, source: &str) -> (r: Vec<SubdomainResult>)
    ensures
        candidates(r@) == host_lines(lines_spec(text@), domain@, source@),
{
    let lines = lines_of(text);
    let ghost lv = lines.deep_view();
    let mut suffix = String::new();
    suffix.push('.');
    push_str_chars(&mut suffix, domain);
    let sc = chars_of(suffix.as_str());
    assert(sc@ =~= seq!['.'] + domain@);
    let err = chars_of("error");
    let mut out: Vec<SubdomainResult> = Vec::new();
    let mut i: usize = 0;
    while i < lines.len()
        invariant
            i <= lines@.len(),
            lv == lines.deep_view(),
            sc@ == seq!['.'] + domain@,
            err@ == "error"@,
            candidates(out@) == host_lines(lv.take(i as int), domain@, source@),
        decreases lines@.len() - i,
    {
        let ghost t = lv.take(i + 1);
        assert(t.drop_last() =~= lv.take(i as int));
        assert(t.last() == lv[i as int]);
        let line = trimmed(lines[i].as_str());
        let lc = chars_of(line);
        if lc.len() > 0 && !starts_with_chars(lc.as_slice(), err.as_slice()) {
            let parts = split_on(line, ',');
            proof {
                crate::text::lemma_split_char_nonempty(line@, ',');
            }
            let host = lowercase(trimmed(parts[0].as_str()));
            let hc = chars_of(host.as_str());
            if ends_with_chars(hc.as_slice(), sc.as_slice()) {
                let mut ips: Vec<String> = Vec::new();
                if parts.len() > 1 {
                    let ip = trimmed(parts[1].as_str());
                    let mut ip_s = String::new();
                    push_str_chars(&mut ip_s, ip);
                    ips.push(ip_s);
                }
                let resolved = ips.len() > 0;
                let c = SubdomainResult {
                    subdomain: host,
                    source: owned(source),
                    resolved,
                    ip_addresses: ips,
                };
                proof {
                    assert(parts.deep_view()[0] == parts@[0]@);
                    if parts@.len() > 1 {
                        assert(parts.deep_view()[1] == parts@[1]@);
                        assert(c@.addresses =~= seq![trim_of(split_char(line@, ',')[1])]);
                    } else {
                        assert(c@.addresses =~= Seq::<Seq<char>>::empty());
                    }
                }
                out.push(c);
                assert(candidates(out@) =~= host_lines(t, domain@, source@));
            } else {
                assert(parts.deep_view()[0] == parts@[0]@);
            }
        }
        i += 1;
    }
    assert(lv.take(i as int) =~= lv);
    out
}

/// `s` with each occurrence of `pat` (left to right, not overlapping) removed.
pub open spec fn remove_all(s: Seq<char>, pat: Seq<char>) -> Seq<char>
    decreases s.len(),
{
    if s.len() == 0 {
        Seq::empty()
    } else if pat.len() > 0 && has_prefix(s, pat) {
        remove_all(s.skip(pat.len() as int), pat)
    } else {
        seq![s[0]] + remove_all(s.skip(1), pat)
    }
}

/// A VirusTotal identifier with every `.domain` removed, kept when the rest
/// is neither empty nor the domain itself.
pub open spec fn stripped_ids(ids: Seq<Seq<char>>, domain: Seq<char>) -> Seq<Seq<char>>
    decreases ids.len(),
{
    if ids.len() == 0 {
        Seq::empty()
    } else {
        let x = remove_all(ids.last(), seq!['.'] + domain);
        let p = stripped_ids(ids.drop_last(), domain);
        if x.len() > 0 && x != domain {
            p.push(x)
        } else {
            p
        }
    }
}

fn remove_pattern(s: &str, pat: &[char]) -> (r: String)
    ensures
        r@ == remove_all(s@, pat@),
{
    let cs = chars_of(s);
    let mut out: Vec<char> = Vec::new();
    let mut i: usize = 0;
    assert(cs@.skip(0) =~= cs@);
    assert(out@ + remove_all(cs@, pat@) =~= remove_all(s@, pat@));
    while i < cs.len()
        invariant
            i <= cs@.len(),
            cs@ == s@,
            out@ + remove_all(cs@.skip(i as int), pat@) == remove_all(s@, pat@),
        decreases cs@.len() - i,
    {
        let ghost rest = cs@.skip(i as int);
        let here = pat.len() > 0 && occurs_at_exec(cs.as_slice(), pat, i);
        proof {
            if pat@.len() > 0 {
                if here {
                    assert(rest.take(pat@.len() as int) =~= pat@);
                } else if has_prefix(rest, pat@) {
                    assert(cs@.subrange(i as int, i + pat@.len()) =~= rest.take(pat@.len() as int));
                }
            }
        }
        if here {
            assert(rest.skip(pat@.len() as int) =~= cs@.skip(i + pat@.len()));
            i += pat.len();
        } else {
            assert(rest.skip(1) =~= cs@.skip(i + 1));
            assert(rest[0] == cs@[i as int]);
            out.push(cs[i]);
            assert(out@ + remove_all(cs@.skip(i + 1), pat@) =~= remove_all(s@, pat@));
            i += 1;
        }
    }
    assert(cs@.skip(i as int) =~= Seq::<char>::empty());
    assert(out@ =~= remove_all(s@, pat@));
    string_of(out.as_slice())
}

/// The candidates of a VirusTotal answer: each identifier with every `.domain`
/// removed, unless nothing or only the domain is left. Repeats are kept.
pub fn virustotal_results(ids: &Vec<String>, domain: &str, source: &str) -> (r: Vec<SubdomainResult>)
    ensures
        candidates(r@) == stripped_ids(ids.deep_view(), domain@).map_values(
            |x: Seq<char>| reported(x, source@),
        ),
{
    let mut pat = String::new();
    pat.push('.');
    push_str_chars(&mut pat, domain);
    let pc = chars_of(pat.as_str());
    assert(pc@ =~= seq!['.'] + domain@);
    let ghost iv = ids.deep_view();
    let mut out: Vec<SubdomainResult> = Vec::new();
    let mut i: usize = 0;
    while i < ids.len()
        invariant
            i <= ids@.len(),
            iv == ids.deep_view(),
            pc@ == seq!['.'] + domain@,
            candidates(out@) == stripped_ids(iv.take(i as int), domain@).map_values(
                |x: Seq<char>| reported(x, source@),
            ),
        decreases ids@.len() - i,
    {
        let ghost t = iv.take(i + 1);
        assert(t.drop_last() =~= iv.take(i as int));
        assert(t.last() == iv[i as int]);
        let x = remove_pattern(ids[i].as_str(), pc.as_slice());
        let xc = chars_of(x.as_str());
        let ghost prev = candidates(out@);
        let ghost xs = x@;
        if xc.len() > 0 && !same_text(x.as_str(), domain) {
            let addresses: Vec<String> = Vec::new();
            assert(addresses.deep_view() =~= Seq::<Seq<char>>::empty());
            out.push(SubdomainResult { subdomain: x, source: owned(source), resolved: false, ip_addresses: addresses });
            assert(candidates(out@) =~= prev.push(reported(xs, source@)));
            assert(stripped_ids(t, domain@) == stripped_ids(iv.take(i as int), domain@).push(xs));
        } else {
            assert(stripped_ids(t, domain@) == stripped_ids(iv.take(i as int), domain@));
        }
        assert(candidates(out@) =~= stripped_ids(t, domain@).map_values(
            |x: Seq<char>| reported(x, source@),
        ));
        i += 1;
    }
    assert(iv.take(i as int) =~= iv);
    out
}

/// The error a source reports for a response with a failing status: a
/// rate-limit error where the source's answer says so (GitHub: 403 mentioning
/// "rate limit"; Netlas: 429; Shodan: 429 or a body mentioning "rate limit"),
/// else a source error carrying the status and the body.
pub open spec fn is_rate_limited(kind: SourceKind, status: u16, body: Seq<char>) -> bool {
    match kind {
        SourceKind::GitHub => status == 403 && has_infix(body, "rate limit"@),
        SourceKind::Netlas => status == 429,
        SourceKind::Shodan => status == 429 || has_infix(body, "rate limit"@),
        _ => false,
    }
}

/// The error for a failing response of a source of kind `kind`.
pub fn status_error(kind: SourceKind, source: &str, status: u16, body: &str) -> (r: RustFinderError)
    ensures
        is_rate_limited(kind, status, body@) ==> r is RateLimitError && r->RateLimitError_0@
            == source@,
        !is_rate_limited(kind, status, body@) ==> r is SourceError && r->SourceError_source_name@
            == source@ && r->SourceError_message@ == "status "@ + crate::numbers::decimal_of(
            status as nat,
        ) + ": "@ + body@,
{
    let bc = chars_of(body);
    let rl = chars_of("rate limit");
    let mentions = contains_chars(bc.as_slice(), rl.as_slice());
    let limited = match kind {
        SourceKind::GitHub => status == 403 && mentions,
        SourceKind::Netlas => status == 429,
        SourceKind::Shodan => status == 429 || mentions,
        _ => false,
    };
    if limited {
        RustFinderError::RateLimitError(owned(source))
    } else {
        let mut m = String::new();
        push_str_chars(&mut m, "status ");
        let d = crate::numbers::decimal(status as u64);
        push_str_chars(&mut m, d.as_str());
        push_str_chars(&mut m, ": ");
        push_str_chars(&mut m, body);
        assert(m@ =~= "status "@ + crate::numbers::decimal_of(status as nat) + ": "@ + body@);
        RustFinderError::SourceError { source_name: owned(source), message: m }
    }
}

/// The names found in each text fragment (none where the pattern does not
/// compile), one fragment after another.
pub open spec fn fragment_names(frags: Seq<Seq<char>>, domain: Seq<char>) -> Seq<Seq<char>>
    decreases frags.len(),
{
    if frags.len() == 0 {
        Seq::empty()
    } else {
        fragment_names(frags.drop_last(), domain) + match regex_groups(
            subdomain_pattern(domain),
            frags.last(),
        ) {
            Some(gs) => found_names(gs, domain, true),
            None => Seq::empty(),
        }
    }
}

/// The candidates of a code search: the names under the domain found in the
/// matched fragments, without repeats.
pub fn code_search_results(fragments: &Vec<String>, domain: &str, source: &str) -> (r: Vec<
    SubdomainResult,
>)
    ensures
        candidates(r@) == unique_candidates(
            fragment_names(fragments.deep_view(), domain@),
            source@,
        ),
{
    let ghost fv = fragments.deep_view();
    let mut all: Vec<String> = Vec::new();
    let mut i: usize = 0;
    while i < fragments.len()
        invariant
            i <= fragments@.len(),
            fv == fragments.deep_view(),
            all.deep_view() == fragment_names(fv.take(i as int), domain@),
        decreases fragments@.len() - i,
    {
        let ghost t = fv.take(i + 1);
        assert(t.drop_last() =~= fv.take(i as int));
        assert(t.last() == fv[i as int]);
        match find_names(fragments[i].as_str(), domain, true) {
            Some(mut names) => {
                let ghost a = all.deep_view();
                let ghost b = names.deep_view();
                all.append(&mut names);
                assert(all.deep_view() =~= a + b);
            },
            None => {
                assert(all.deep_view() =~= fragment_names(t, domain@));
            },
        }
        i += 1;
    }
    assert(fv.take(i as int) =~= fv);
    candidates_from_names(&all, source)
}

/// A byte that `urlencoding::encode` keeps: an ASCII letter or digit, `-`,
/// `.`, `_` or `~`.
pub open spec fn url_safe_byte(b: u8) -> bool {
    (48 <= b && b <= 57) || (65 <= b && b <= 90) || (97 <= b && b <= 122) || b == 45 || b == 46
        || b == 95 || b == 126
}

/// The uppercase hexadecimal digit of `d` (below 16).
pub open spec fn hex_upper(d: u8) -> char {
    if d < 10 { ((d + 48) as u8) as char } else { ((d + 55) as u8) as char }
}

/// Bytes percent-encoded: safe bytes kept, every other byte as `%XY`.
pub open spec fn percent_encoded(bs: Seq<u8>) -> Seq<char>
    decreases bs.len(),
{
    if bs.len() == 0 {
        Seq::empty()
    } else {
        let b = bs.last();
        percent_encoded(bs.drop_last()) + if url_safe_byte(b) {
            seq![b as char]
        } else {
            seq!['%', hex_upper(b / 16), hex_upper(b % 16)]
        }
    }
}

/// Relies on `urlencoding::encode`: the UTF-8 bytes of `s`, each kept when it
/// is an ASCII letter, digit, `-`, `.`, `_` or `~`, else written `%XY` in
/// uppercase hexadecimal.
#[verifier::external_body]
fn url_encode(s: &str) -> (r: String)
    ensures
        r@ == percent_encoded(encode_utf8(s@)),
{
    urlencoding::encode(s).into_owned()
}

/// The code-search URL that looks for `domain`, quoted.
pub open spec fn code_search_url(domain: Seq<char>) -> Seq<char> {
    "https://api.github.com/search/code?q="@ + percent_encoded(
        encode_utf8(seq!['"'] + domain + seq!['"']),
    ) + "&sort=indexed&order=desc&per_page=30"@
}

/// Builds `code_search_url(domain)`.
pub fn github_search_url(domain: &str) -> (r: String)
    ensures
        r@ == code_search_url(domain@),
{
    let mut q = String::new();
    q.push('"');
    push_str_chars(&mut q, domain);
    q.push('"');
    assert(q@ =~= seq!['"'] + domain@ + seq!['"']);
    let enc = url_encode(q.as_str());
    let mut url = String::new();
    push_str_chars(&mut url, "https://api.github.com/search/code?q=");
    push_str_chars(&mut url, enc.as_str());
    push_str_chars(&mut url, "&sort=indexed&order=desc&per_page=30");
    assert(url@ =~= code_search_url(domain@));
    url
}

/// What a certificate-log body holds.
#[derive(Clone, Copy, Debug, PartialEq, Eq, Structural)]
pub enum CertificateBody {
    /// An HTML page instead of data.
    Html,
    /// No certificates.
    Empty,
    /// Data to decode.
    Data,
}

/// The kind of a certificate-log body: HTML where, leading blanks aside, it
/// starts with `<!DOCTYPE` or `<html`; empty where, trimmed, it is empty or
/// `[]`; data otherwise.
pub open spec fn certificate_body_kind(text: Seq<char>) -> CertificateBody {
    if has_prefix(trim_start_of(text), "<!DOCTYPE"@) || has_prefix(trim_start_of(text), "<html"@) {
        CertificateBody::Html
    } else if trim_of(text).len() == 0 || trim_of(text) == "[]"@ {
        CertificateBody::Empty
    } else {
        CertificateBody::Data
    }
}

/// Computes `certificate_body_kind(text)`.
pub fn classify_certificate_body(text: &str) -> (r: CertificateBody)
    ensures
        r == certificate_body_kind(text@),
{
    let lead = chars_of(trimmed_start(text));
    let doctype = chars_of("<!DOCTYPE");
    let html = chars_of("<html");
    if starts_with_chars(lead.as_slice(), doctype.as_slice()) || starts_with_chars(
        lead.as_slice(),
        html.as_slice(),
    ) {
        return CertificateBody::Html;
    }
    let t = trimmed(text);
    let tc = chars_of(t);
    if tc.len() == 0 || same_text(t, "[]") {
        CertificateBody::Empty
    } else {
        CertificateBody::Data
    }
}

/// Most Shodan pages read for one domain.
pub const SHODAN_MAX_PAGES: u32 = 5;

/// The page to read after page `page`: the next one while the answer says
/// there is more and the page limit is not reached.
pub open spec fn shodan_next(more: Option<bool>, page: u32) -> Option<u32> {
    if more == Some(true) && page < SHODAN_MAX_PAGES {
        Some((page + 1) as u32)
    } else {
        None
    }
}

/// Computes `shodan_next(more, page)`.
pub fn next_shodan_page(more: Option<bool>, page: u32) -> (r: Option<u32>)
    ensures
        r == shodan_next(more, page),
{
    if more == Some(true) && page < SHODAN_MAX_PAGES {
        Some(page + 1)
    } else {
        None
    }
}

/// Most code-search items read.
pub const CODE_SEARCH_MAX_ITEMS: usize = 30;

/// The fragments of the items, one item after another.
pub open spec fn item_fragments(items: Seq<Seq<Seq<char>>>) -> Seq<Seq<char>>
    decreases items.len(),
{
    if items.len() == 0 {
        Seq::empty()
    } else {
        item_fragments(items.drop_last()) + items.last()
    }
}

/// The text fragments of the first 30 code-search items, in order.
pub fn code_search_fragments(items: &Vec<Vec<String>>) -> (r: Vec<String>)
    ensures
        r.deep_view() == item_fragments(
            items.deep_view().take(
                if items@.len() < CODE_SEARCH_MAX_ITEMS { items@.len() as int } else {
                    CODE_SEARCH_MAX_ITEMS as int
                },
            ),
        ),
{
    let n = if items.len() < CODE_SEARCH_MAX_ITEMS { items.len() } else { CODE_SEARCH_MAX_ITEMS };
    let ghost iv = items.deep_view();
    let mut out: Vec<String> = Vec::new();
    let mut i: usize = 0;
    while i < n
        invariant
            i <= n <= items@.len(),
            iv == items.deep_view(),
            out.deep_view() == item_fragments(iv.take(i as int)),
        decreases n - i,
    {
        assert(iv.take(i + 1).drop_last() =~= iv.take(i as int));
        assert(iv.take(i + 1).last() == iv[i as int]);
        let mut more = crate::types::copy_strings(&items[i]);
        let ghost a = out.deep_view();
        let ghost b = more.deep_view();
        out.append(&mut more);
        assert(out.deep_view() =~= a + b);
        i += 1;
    }
    out
}

} // verus!
