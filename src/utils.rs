//! Domain-name validation, cleaning, deduplication and ordering.
use vstd::prelude::*;
use crate::merge::contains_string;
use crate::numbers::{decimal, decimal_of};
use crate::order::{sort_names_by_level, sorted_by_level};
use crate::text::{
    chars_of, contains_text_before, ends_with_chars, has_suffix, lower_of, lowercase, owned,
    push_str_chars, string_of, trim_of, trimmed,
};
use crate::types::RustFinderError;

verus! {

/// Longest domain name accepted, in characters.
pub const MAX_DOMAIN_LEN: usize = 253;

/// Longest label accepted, in characters.
pub const MAX_LABEL_LEN: usize = 63;

/// A character that may appear inside a label: an ASCII letter, digit or hyphen.
pub open spec fn is_label_char(c: char) -> bool {
    ('a' <= c && c <= 'z') || ('A' <= c && c <= 'Z') || ('0' <= c && c <= '9') || c == '-'
}

/// The number of characters between the last dot before position `i` (or the
/// start of `s`) and position `i`: the length of the label being read at `i`.
pub open spec fn run_before(s: Seq<char>, i: int) -> nat
    decreases i,
{
    if i <= 0 || s[i - 1] == '.' {
        0
    } else {
        run_before(s, i - 1) + 1
    }
}

/// A valid domain: 1 to 253 characters, at least two dot-separated labels,
/// each label 1 to 63 characters from `[A-Za-z0-9-]`, not starting or ending
/// with a hyphen.
pub open spec fn valid_domain(s: Seq<char>) -> bool {
    &&& 0 < s.len() <= MAX_DOMAIN_LEN
    &&& exists|i: int| 0 <= i < s.len() && s[i] == '.'
    &&& forall|i: int| 0 <= i < s.len() ==> s[i] == '.' || is_label_char(s[i])
    // no label is empty: the one ending at a dot, and the last one
    &&& forall|i: int| 0 <= i < s.len() && s[i] == '.' ==> run_before(s, i) > 0
    &&& run_before(s, s.len() as int) > 0
    // no label is longer than the limit
    &&& forall|i: int| 0 <= i <= s.len() ==> run_before(s, i) <= MAX_LABEL_LEN
    // a hyphen neither starts nor ends a label
    &&& forall|i: int| 0 <= i < s.len() && s[i] == '-' ==> run_before(s, i) > 0
    &&& forall|i: int| 0 <= i && i + 1 < s.len() && #[trigger] s[i] == '-' ==> s[i + 1] != '.'
    &&& s.last() != '-'
}

fn is_label_char_exec(c: char) -> (r: bool)
    ensures
        r == is_label_char(c),
{
    ('a' <= c && c <= 'z') || ('A' <= c && c <= 'Z') || ('0' <= c && c <= '9') || c == '-'
}

/// Whether `domain` is a syntactically valid domain name.
pub fn is_valid_domain(domain: &str) -> (r: bool)
    ensures
        r == valid_domain(domain@),
{
    let cs = chars_of(domain);
    let n = cs.len();
    if n == 0 || n > MAX_DOMAIN_LEN {
        return false;
    }
    let ghost s = cs@;
    let mut run: usize = 0;
    let mut seen_dot = false;
    let mut i: usize = 0;
    while i < n
        invariant
            s == cs@,
            s == domain@,
            n == s.len(),
            0 < n <= MAX_DOMAIN_LEN,
            i <= n,
            run == run_before(s, i as int),
            run <= MAX_LABEL_LEN,
            seen_dot == (exists|k: int| 0 <= k < i && s[k] == '.'),
            forall|k: int| 0 <= k < i ==> s[k] == '.' || is_label_char(s[k]),
            forall|k: int| 0 <= k < i && s[k] == '.' ==> run_before(s, k) > 0,
            forall|k: int| 0 <= k <= i ==> run_before(s, k) <= MAX_LABEL_LEN,
            forall|k: int| 0 <= k < i && s[k] == '-' ==> run_before(s, k) > 0,
            forall|k: int| 0 <= k && k + 1 < i && #[trigger] s[k] == '-' ==> s[k + 1] != '.',
        decreases n - i,
    {
        let c = cs[i];
        if c == '.' {
            if run == 0 {
                assert(!valid_domain(s));
                return false;
            }
            if cs[i - 1] == '-' {
                assert(!valid_domain(s)) by {
                    let j = i - 1;
                    assert(s[j] == '-' && s[j + 1] == '.');
                }
                return false;
            }
            seen_dot = true;
            run = 0;
        } else if is_label_char_exec(c) {
            if run == 0 && c == '-' {
                assert(!valid_domain(s));
                return false;
            }
            if run == MAX_LABEL_LEN {
                assert(run_before(s, i + 1) == MAX_LABEL_LEN + 1);
                assert(!valid_domain(s));
                return false;
            }
            run = run + 1;
        } else {
            assert(!valid_domain(s));
            return false;
        }
        i = i + 1;
        assert(run == run_before(s, i as int));
    }
    if run == 0 {
        return false;
    }
    if cs[n - 1] == '-' {
        return false;
    }
    if !seen_dot {
        return false;
    }
    true
}

/// `s` with every trailing dot removed.
pub open spec fn strip_trailing_dots(s: Seq<char>) -> Seq<char>
    decreases s.len(),
{
    if s.len() > 0 && s.last() == '.' {
        strip_trailing_dots(s.drop_last())
    } else {
        s
    }
}

/// A candidate name cleaned against `domain`: trailing dots removed, and the
/// domain appended after a dot unless the name is empty or already ends with it.
pub open spec fn cleaned_name(lowered: Seq<char>, domain: Seq<char>) -> Seq<char> {
    let base = strip_trailing_dots(lowered);
    if !has_suffix(base, domain) && base.len() > 0 {
        base + seq!['.'] + domain
    } else {
        base
    }
}

/// Cleans a candidate subdomain that is already trimmed and lowercased:
/// removes trailing dots, and qualifies it with `domain` when it does not
/// already end with it.
pub fn clean_lowered(lowered: &str, domain: &str) -> (r: String)
    ensures
        r@ == cleaned_name(lowered@, domain@),
{
    let cs = chars_of(lowered);
    let mut end: usize = cs.len();
    assert(cs@.take(end as int) =~= cs@);
    while end > 0 && cs[end - 1] == '.'
        invariant
            end <= cs@.len(),
            strip_trailing_dots(cs@.take(end as int)) == strip_trailing_dots(cs@),
        decreases end,
    {
        assert(cs@.take(end as int).drop_last() =~= cs@.take(end - 1));
        end = end - 1;
    }
    assert(strip_trailing_dots(cs@.take(end as int)) == cs@.take(end as int));
    let mut base_cs = cs.clone();
    base_cs.truncate(end);
    assert(base_cs@ =~= cs@.take(end as int));
    let base = string_of(base_cs.as_slice());
    let dcs = chars_of(domain);
    if !ends_with_chars(base_cs.as_slice(), dcs.as_slice()) && end > 0 {
        let mut out = base;
        out.push('.');
        push_str_chars(&mut out, domain);
        assert(out@ =~= cleaned_name(lowered@, domain@));
        out
    } else {
        base
    }
}

/// Cleans a candidate subdomain: trims and lowercases it, removes trailing
/// dots, and qualifies it with `domain` when it does not already end with it.
pub fn clean_subdomain(subdomain: &str, domain: &str) -> (r: String)
    ensures
        r@ == cleaned_name(lower_of(trim_of(subdomain@)), domain@),
{
    let lowered = lowercase(trimmed(subdomain));
    clean_lowered(lowered.as_str(), domain)
}

/// `s` with every name dropped whose key (the name's entry in `keys`) already
/// appeared earlier.
pub open spec fn dedup_by_keys(s: Seq<Seq<char>>, keys: Seq<Seq<char>>) -> Seq<Seq<char>>
    decreases s.len(),
{
    if s.len() == 0 {
        Seq::empty()
    } else {
        let p = dedup_by_keys(s.drop_last(), keys.drop_last());
        if keys.drop_last().contains(keys.last()) {
            p
        } else {
            p.push(s.last())
        }
    }
}

/// `s` with every name dropped whose lowercase form already appeared earlier.
pub open spec fn dedup_ignoring_case(s: Seq<Seq<char>>) -> Seq<Seq<char>> {
    dedup_by_keys(s, s.map_values(|x: Seq<char>| lower_of(x)))
}

/// Keeps the first of the names with equal keys, in order; `keys[i]` is the
/// key of `subdomains[i]`.
pub fn deduplicate_by_keys(subdomains: Vec<String>, keys: &Vec<String>) -> (r: Vec<String>)
    requires
        keys@.len() == subdomains@.len(),
    ensures
        r.deep_view() == dedup_by_keys(subdomains.deep_view(), keys.deep_view()),
{
    let ghost sv = subdomains.deep_view();
    let ghost kv = keys.deep_view();
    let mut unique: Vec<String> = Vec::new();
    let mut i: usize = 0;
    while i < subdomains.len()
        invariant
            i <= subdomains@.len(),
            keys@.len() == subdomains@.len(),
            sv == subdomains.deep_view(),
            kv == keys.deep_view(),
            unique.deep_view() == dedup_by_keys(sv.take(i as int), kv.take(i as int)),
        decreases subdomains@.len() - i,
    {
        assert(sv.take(i + 1).drop_last() =~= sv.take(i as int));
        assert(kv.take(i + 1).drop_last() =~= kv.take(i as int));
        assert(kv.take(i + 1).last() == kv[i as int]);
        assert(sv.take(i + 1).last() == sv[i as int]);
        if !contains_text_before(keys, i, keys[i].as_str()) {
            unique.push(subdomains[i].clone());
            assert(unique.deep_view() =~= dedup_by_keys(sv.take(i as int), kv.take(i as int)).push(
                sv[i as int],
            ));
        }
        i += 1;
    }
    assert(sv.take(i as int) =~= sv);
    assert(kv.take(i as int) =~= kv);
    unique
}

/// Keeps the first of the names that are equal up to letter case, in order.
pub fn deduplicate_subdomains(subdomains: Vec<String>) -> (r: Vec<String>)
    ensures
        r.deep_view() == dedup_ignoring_case(subdomains.deep_view()),
{
    let mut keys: Vec<String> = Vec::new();
    let mut i: usize = 0;
    while i < subdomains.len()
        invariant
            i <= subdomains@.len(),
            keys@.len() == i,
            forall|k: int| 0 <= k < i ==> keys@[k]@ == lower_of(subdomains@[k]@),
        decreases subdomains@.len() - i,
    {
        keys.push(lowercase(subdomains[i].as_str()));
        i += 1;
    }
    assert(keys.deep_view() =~= subdomains.deep_view().map_values(|x: Seq<char>| lower_of(x)));
    deduplicate_by_keys(subdomains, &keys)
}

/// The names ordered by number of labels, then in character order.
pub fn sort_by_level(subdomains: Vec<String>) -> (r: Vec<String>)
    ensures
        r@.to_multiset() == subdomains@.to_multiset(),
        r@.len() == subdomains@.len(),
        sorted_by_level(r@),
{
    sort_names_by_level(subdomains)
}

/// Width of the progress bar, in characters.
pub const PROGRESS_WIDTH: usize = 20;

/// The filled part of the progress bar: `current / total` of its width,
/// rounded down (nothing when `total` is zero).
pub open spec fn progress_filled(current: nat, total: nat) -> nat {
    if total == 0 { 0 } else { current * PROGRESS_WIDTH as nat / total }
}

/// `n` copies of `c`.
pub open spec fn repeat(c: char, n: nat) -> Seq<char> {
    Seq::new(n, |i: int| c)
}

/// The progress line `[====    ] current/total - message`.
pub open spec fn progress_text(current: nat, total: nat, message: Seq<char>) -> Seq<char> {
    let filled = progress_filled(current, total);
    seq!['['] + repeat('=', filled) + repeat(' ', (PROGRESS_WIDTH - filled) as nat) + "] "@
        + decimal_of(current) + "/"@ + decimal_of(total) + " - "@ + message
}

fn push_repeat(s: &mut String, c: char, n: usize)
    ensures
        final(s)@ == old(s)@ + repeat(c, n as nat),
{
    let ghost start = s@;
    let mut i: usize = 0;
    while i < n
        invariant
            i <= n,
            s@ == start + repeat(c, i as nat),
        decreases n - i,
    {
        s.push(c);
        i += 1;
        assert(s@ =~= start + repeat(c, i as nat));
    }
}

/// A progress line for step `current` of `total`.
pub fn progress_message(current: usize, total: usize, message: &str) -> (r: String)
    requires
        current <= total,
    ensures
        r@ == progress_text(current as nat, total as nat, message@),
{
    let filled: usize = if total == 0 {
        0
    } else {
        assert((current as nat) * 20 / (total as nat) <= 20) by (nonlinear_arith)
            requires
                current <= total,
                total > 0,
        ;
        ((current as u128) * 20 / (total as u128)) as usize
    };
    let mut s = String::new();
    s.push('[');
    push_repeat(&mut s, '=', filled);
    push_repeat(&mut s, ' ', PROGRESS_WIDTH - filled);
    push_str_chars(&mut s, "] ");
    let c = decimal(current as u64);
    push_str_chars(&mut s, c.as_str());
    push_str_chars(&mut s, "/");
    let t = decimal(total as u64);
    push_str_chars(&mut s, t.as_str());
    push_str_chars(&mut s, " - ");
    push_str_chars(&mut s, message);
    assert(s@ =~= progress_text(current as nat, total as nat, message@));
    s
}

/// A character that `regex::escape` prefixes with a backslash.
pub open spec fn is_regex_meta(c: char) -> bool {
    c == '\\' || c == '.' || c == '+' || c == '*' || c == '?' || c == '(' || c == ')' || c == '|'
        || c == '[' || c == ']' || c == '{' || c == '}' || c == '^' || c == '$' || c == '#' || c
        == '&' || c == '-' || c == '~'
}

/// `s` with a backslash before each regex meta character.
pub open spec fn regex_escaped(s: Seq<char>) -> Seq<char>
    decreases s.len(),
{
    if s.len() == 0 {
        Seq::empty()
    } else if is_regex_meta(s.last()) {
        regex_escaped(s.drop_last()) + seq!['\\', s.last()]
    } else {
        regex_escaped(s.drop_last()).push(s.last())
    }
}

/// Relies on `regex::escape`: every regex meta character gets a backslash
/// before it, other characters are kept.
#[verifier::external_body]
pub(crate) fn regex_escape(s: &str) -> (r: String)
    ensures
        r@ == regex_escaped(s@),
{
    regex::escape(s)
}

/// The text of a group, if it took part.
pub open spec fn group_view(g: Option<String>) -> Option<Seq<char>> {
    match g {
        Some(x) => Some(x@),
        None => None,
    }
}

/// Whether `pattern` compiles as a regex (`Some`), and then, for each match in
/// `text` in order, the text of its first group if that group took part.
pub uninterp spec fn regex_groups(pattern: Seq<char>, text: Seq<char>) -> Option<Seq<Option<Seq<char>>>>;

/// Relies on `regex::Regex::new` and `Regex::captures_iter`: whether the
/// pattern compiles, and group 1 of each match, depend on the two strings alone.
#[verifier::external_body]
pub(crate) fn first_groups(pattern: &str, text: &str) -> (r: Option<Vec<Option<String>>>)
    ensures
        match r {
            Some(v) => regex_groups(pattern@, text@) == Some(
                v@.map_values(|g: Option<String>| group_view(g)),
            ),
            None => regex_groups(pattern@, text@) is None,
        },
{
    match regex::Regex::new(pattern) {
        Ok(re) => Some(re.captures_iter(text).map(|c| c.get(1).map(|m| m.as_str().to_string())).collect()),
        Err(_) => None,
    }
}

/// Whether the regex `re` compiles (`Some`), and then whether it matches
/// somewhere in `text`: it does when the text has at least one match.
pub open spec fn regex_verdict(re: Seq<char>, text: Seq<char>) -> Option<bool> {
    match regex_groups(re, text) {
        Some(gs) => Some(gs.len() > 0),
        None => None,
    }
}

/// Computes `regex_verdict(pattern, text)`.
fn regex_matches(pattern: &str, text: &str) -> (r: Option<bool>)
    ensures
        r == regex_verdict(pattern@, text@),
{
    match first_groups(pattern, text) {
        Some(gs) => Some(gs.len() > 0),
        None => None,
    }
}

/// `s` with each `\*` (left to right, not overlapping) replaced by `.*`.
pub open spec fn star_to_any(s: Seq<char>) -> Seq<char>
    decreases s.len(),
{
    if s.len() >= 2 && s[0] == '\\' && s[1] == '*' {
        seq!['.', '*'] + star_to_any(s.skip(2))
    } else if s.len() == 0 {
        Seq::empty()
    } else {
        seq![s[0]] + star_to_any(s.skip(1))
    }
}

/// The anchored regex that a wildcard pattern stands for: the pattern with
/// regex characters escaped and each `*` matching any run of characters.
pub open spec fn wildcard_regex(pattern: Seq<char>) -> Seq<char> {
    seq!['^'] + star_to_any(regex_escaped(pattern)) + seq!['$']
}

fn replace_escaped_stars(s: &str) -> (r: String)
    ensures
        r@ == star_to_any(s@),
{
    let cs = chars_of(s);
    let mut out = String::new();
    let mut i: usize = 0;
    assert(cs@.skip(0) =~= cs@);
    assert(out@ + star_to_any(cs@) =~= star_to_any(cs@));
    while i < cs.len()
        invariant
            i <= cs@.len(),
            cs@ == s@,
            out@ + star_to_any(cs@.skip(i as int)) == star_to_any(s@),
        decreases cs@.len() - i,
    {
        let ghost rest = cs@.skip(i as int);
        if i + 1 < cs.len() && cs[i] == '\\' && cs[i + 1] == '*' {
            assert(rest[0] == '\\' && rest[1] == '*');
            assert(rest.skip(2) =~= cs@.skip(i + 2));
            out.push('.');
            out.push('*');
            assert(out@ + star_to_any(cs@.skip(i + 2)) =~= star_to_any(s@));
            i += 2;
        } else {
            assert(rest[0] == cs@[i as int]);
            assert(rest.skip(1) =~= cs@.skip(i + 1));
            out.push(cs[i]);
            assert(out@ + star_to_any(cs@.skip(i + 1)) =~= star_to_any(s@));
            i += 1;
        }
    }
    assert(cs@.skip(i as int) =~= Seq::<char>::empty());
    assert(out@ =~= star_to_any(s@));
    out
}

/// The anchored regex of a wildcard pattern; a pattern without `*` is refused.
pub fn parse_wildcard(pattern: &str) -> (r: Result<String, RustFinderError>)
    ensures
        r is Ok <==> pattern@.contains('*'),
        r is Ok ==> r->Ok_0@ == wildcard_regex(pattern@),
        r is Err ==> r->Err_0 is InvalidDomain,
{
    let cs = chars_of(pattern);
    let mut has_star = false;
    let mut i: usize = 0;
    while i < cs.len()
        invariant
            i <= cs@.len(),
            cs@ == pattern@,
            has_star == (exists|k: int| 0 <= k < i && cs@[k] == '*'),
        decreases cs@.len() - i,
    {
        if cs[i] == '*' {
            has_star = true;
        }
        i += 1;
    }
    if !has_star {
        return Err(RustFinderError::InvalidDomain(owned("the pattern must contain a wildcard (*)")));
    }
    let escaped = regex_escape(pattern);
    let body = replace_escaped_stars(escaped.as_str());
    let mut src = String::new();
    src.push('^');
    push_str_chars(&mut src, body.as_str());
    src.push('$');
    assert(src@ =~= wildcard_regex(pattern@));
    Ok(src)
}

/// The names of `s` that the regex `re` matches.
pub open spec fn matching_names(s: Seq<Seq<char>>, re: Seq<char>) -> Seq<Seq<char>>
    decreases s.len(),
{
    if s.len() == 0 {
        Seq::empty()
    } else if regex_verdict(re, s.last()) == Some(true) {
        matching_names(s.drop_last(), re).push(s.last())
    } else {
        matching_names(s.drop_last(), re)
    }
}

/// The regex of `pattern` compiles, as seen on the empty text and on each of `s`.
pub open spec fn wildcard_compiles(s: Seq<Seq<char>>, re: Seq<char>) -> bool {
    regex_verdict(re, Seq::empty()) is Some && forall|i: int|
        0 <= i < s.len() ==> #[trigger] regex_verdict(re, s[i]) is Some
}

/// The names that match the wildcard `pattern` (`*` stands for any run of
/// characters), in order.
pub fn filter_by_wildcard(subdomains: Vec<String>, pattern: &str) -> (r: Result<
    Vec<String>,
    RustFinderError,
>)
    ensures
        !pattern@.contains('*') ==> r is Err && r->Err_0 is InvalidDomain,
        pattern@.contains('*') ==> (r is Ok <==> wildcard_compiles(
            subdomains.deep_view(),
            wildcard_regex(pattern@),
        )),
        r is Ok ==> r->Ok_0.deep_view() == matching_names(
            subdomains.deep_view(),
            wildcard_regex(pattern@),
        ),
        pattern@.contains('*') && r is Err ==> r->Err_0 is ParseError,
{
    let re = match parse_wildcard(pattern) {
        Ok(re) => re,
        Err(e) => return Err(e),
    };
    let ghost sv = subdomains.deep_view();
    if regex_matches(re.as_str(), "").is_none() {
        proof {
            reveal_strlit("");
            assert(""@ =~= Seq::<char>::empty());
        }
        return Err(RustFinderError::ParseError(owned("invalid wildcard pattern")));
    }
    proof {
        reveal_strlit("");
        assert(""@ =~= Seq::<char>::empty());
    }
    let mut out: Vec<String> = Vec::new();
    let mut i: usize = 0;
    while i < subdomains.len()
        invariant
            i <= subdomains@.len(),
            sv == subdomains.deep_view(),
            re@ == wildcard_regex(pattern@),
            pattern@.contains('*'),
            regex_verdict(re@, Seq::empty()) is Some,
            forall|k: int| 0 <= k < i ==> #[trigger] regex_verdict(re@, sv[k]) is Some,
            out.deep_view() == matching_names(sv.take(i as int), re@),
        decreases subdomains@.len() - i,
    {
        let ghost t = sv.take(i + 1);
        assert(t.drop_last() =~= sv.take(i as int));
        assert(t.last() == sv[i as int]);
        match regex_matches(re.as_str(), subdomains[i].as_str()) {
            Some(true) => {
                out.push(subdomains[i].clone());
                assert(out.deep_view() =~= matching_names(sv.take(i as int), re@).push(sv[i as int]));
            },
            Some(false) => {},
            None => {
                return Err(RustFinderError::ParseError(owned("invalid wildcard pattern")));
            },
        }
        i += 1;
    }
    assert(sv.take(i as int) =~= sv);
    Ok(out)
}

/// The start of the regex that finds names ending in `.domain` in free text,
/// up to the escaped domain; group 1 is the name.
pub const SUBDOMAIN_PATTERN_HEAD: &'static str = "(?i)(?:^|[^a-zA-Z0-9.-])([a-zA-Z0-9](?:[a-zA-Z0-9-]{0,61}[a-zA-Z0-9])?(?:\\.[a-zA-Z0-9](?:[a-zA-Z0-9-]{0,61}[a-zA-Z0-9])?)*\\.";

/// The regex that finds names under `domain` in free text.
pub open spec fn subdomain_pattern(domain: Seq<char>) -> Seq<char> {
    SUBDOMAIN_PATTERN_HEAD@ + regex_escaped(domain) + seq![')']
}

/// Builds `subdomain_pattern(domain)`.
pub fn build_subdomain_pattern(domain: &str) -> (r: String)
    ensures
        r@ == subdomain_pattern(domain@),
{
    let mut p = String::new();
    push_str_chars(&mut p, SUBDOMAIN_PATTERN_HEAD);
    let e = regex_escape(domain);
    push_str_chars(&mut p, e.as_str());
    p.push(')');
    assert(p@ =~= subdomain_pattern(domain@));
    p
}

/// A name found in text is kept: lowercased it is not the domain itself and
/// holds no empty label (`..`); where `strict`, it also neither starts nor ends
/// with a dot.
pub open spec fn found_name_kept(x: Seq<char>, domain: Seq<char>, strict: bool) -> bool {
    x != domain && !crate::text::has_infix(x, seq!['.', '.']) && (!strict || (!crate::text::has_prefix(
        x,
        seq!['.'],
    ) && !has_suffix(x, seq!['.'])))
}

/// The kept names among the lowercased groups, in order, without repeats.
pub open spec fn found_names(
    groups: Seq<Option<Seq<char>>>,
    domain: Seq<char>,
    strict: bool,
) -> Seq<Seq<char>>
    decreases groups.len(),
{
    if groups.len() == 0 {
        Seq::empty()
    } else {
        let p = found_names(groups.drop_last(), domain, strict);
        match groups.last() {
            Some(g) => if found_name_kept(lower_of(g), domain, strict) && !p.contains(lower_of(g)) {
                p.push(lower_of(g))
            } else {
                p
            },
            None => p,
        }
    }
}

/// The names under `domain` found in `text`, lowercased, without repeats;
/// `None` where the pattern does not compile.
pub fn find_names(text: &str, domain: &str, strict: bool) -> (r: Option<Vec<String>>)
    ensures
        match regex_groups(subdomain_pattern(domain@), text@) {
            Some(gs) => r is Some && r->0.deep_view() == found_names(gs, domain@, strict),
            None => r is None,
        },
{
    let pattern = build_subdomain_pattern(domain);
    let groups = match first_groups(pattern.as_str(), text) {
        Some(g) => g,
        None => return None,
    };
    let ghost gv = groups@.map_values(|g: Option<String>| group_view(g));
    let mut out: Vec<String> = Vec::new();
    let dots = vec!['.', '.'];
    assert(dots@ =~= seq!['.', '.']);
    let dot = vec!['.'];
    assert(dot@ =~= seq!['.']);
    let mut i: usize = 0;
    while i < groups.len()
        invariant
            i <= groups@.len(),
            gv == groups@.map_values(|g: Option<String>| group_view(g)),
            dots@ == seq!['.', '.'],
            dot@ == seq!['.'],
            out.deep_view() == found_names(gv.take(i as int), domain@, strict),
        decreases groups@.len() - i,
    {
        let ghost t = gv.take(i + 1);
        assert(t.drop_last() =~= gv.take(i as int));
        assert(t.last() == gv[i as int]);
        match &groups[i] {
            Some(g) => {
                let x = lowercase(g.as_str());
                let xc = crate::text::chars_of(x.as_str());
                let keep = !crate::text::same_text(x.as_str(), domain)
                    && !crate::text::contains_chars(xc.as_slice(), dots.as_slice())
                    && (!strict || (!crate::text::starts_with_chars(xc.as_slice(), dot.as_slice())
                    && !ends_with_chars(xc.as_slice(), dot.as_slice())));
                if keep && !contains_string(&out, &x) {
                    out.push(x);
                    assert(out.deep_view() =~= found_names(t, domain@, strict));
                }
            },
            None => {},
        }
        i += 1;
    }
    assert(gv.take(i as int) =~= gv);
    Some(out)
}

/// The names under `domain` that appear in `text`, lowercased, without
/// repeats. A pattern that does not compile is a parse error.
pub fn extract_subdomains_from_text(text: &str, domain: &str) -> (r: Result<
    Vec<String>,
    RustFinderError,
>)
    ensures
        match regex_groups(subdomain_pattern(domain@), text@) {
            Some(gs) => r is Ok && r->Ok_0.deep_view() == found_names(gs, domain@, false),
            None => r is Err && r->Err_0 is ParseError,
        },
{
    match find_names(text, domain, false) {
        Some(v) => Ok(v),
        None => {
            Err(RustFinderError::ParseError(owned("the subdomain pattern does not compile")))
        },
    }
}

/// What `reqwest::Url::parse` and `Url::host_str` give for a text: `None`
/// where it is no URL, else the URL's host, if it has one.
pub uninterp spec fn url_host_of(s: Seq<char>) -> Option<Option<Seq<char>>>;

/// Relies on `reqwest::Url::parse` (the url crate) and `Url::host_str`: whether
/// the text is a URL, and its host, depend on the text alone.
#[verifier::external_body]
fn url_host(s: &str) -> (r: Option<Option<String>>)
    ensures
        match r {
            None => url_host_of(s@) is None,
            Some(None) => url_host_of(s@) == Some(None::<Seq<char>>),
            Some(Some(h)) => url_host_of(s@) == Some(Some(h@)),
        },
{
    match reqwest::Url::parse(s) {
        Ok(url) => Some(url.host_str().map(|h| h.to_string())),
        Err(_) => None,
    }
}

/// The host of a URL; a text that is no URL, or a URL without a host, is an
/// invalid domain.
pub fn extract_domain_from_url(url_str: &str) -> (r: Result<String, RustFinderError>)
    ensures
        match url_host_of(url_str@) {
            Some(Some(h)) => r is Ok && r->Ok_0@ == h,
            _ => r is Err && r->Err_0 is InvalidDomain,
        },
{
    match url_host(url_str) {
        Some(Some(h)) => Ok(h),
        Some(None) => Err(RustFinderError::InvalidDomain(owned("no host in URL"))),
        None => Err(RustFinderError::InvalidDomain(owned("invalid URL"))),
    }
}

} // verus!
