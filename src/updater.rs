//! Comparing release versions.
use vstd::prelude::*;
use crate::numbers::{parse_u64, parse_unsigned};
use crate::text::{chars_of, lower_of, lowercase, same_text, split_char, split_on, string_of};

verus! {

/// What is known of an available update.
#[derive(Clone, Debug)]
pub struct UpdateInfo {
    pub current_version: String,
    pub latest_version: String,
    pub release_notes: String,
    pub download_url: String,
}

/// The number of a version part: its value where it reads as a `u32`, else 0.
pub open spec fn part_number(part: Seq<char>) -> nat {
    match parse_unsigned(part, u32::MAX as nat) {
        Some(v) => v,
        None => 0,
    }
}

/// The numbers of the parts of a version.
pub open spec fn version_numbers(s: Seq<char>) -> Seq<nat> {
    split_char(s, '.').map_values(|p: Seq<char>| part_number(p))
}

/// `a` comes after `b` in the order of sequences: at the first place where they
/// differ `a` is greater, or `b` is a proper prefix of `a`.
pub open spec fn seq_greater(a: Seq<nat>, b: Seq<nat>) -> bool
    decreases a.len(),
{
    if a.len() == 0 {
        false
    } else if b.len() == 0 {
        true
    } else if a[0] != b[0] {
        a[0] > b[0]
    } else {
        seq_greater(a.drop_first(), b.drop_first())
    }
}

/// The number of a version part.
fn part_value(part: &Vec<char>) -> (r: u32)
    ensures
        r as nat == part_number(part@),
{
    let s = string_of(part.as_slice());
    match parse_u64(s.as_str()) {
        Some(v) => {
            if v <= u32::MAX as u64 {
                v as u32
            } else {
                0
            }
        },
        None => 0,
    }
}

/// The numbers of the parts of `version`.
fn parse_version(version: &str) -> (r: Vec<u32>)
    ensures
        r@.len() == version_numbers(version@).len(),
        forall|i: int| 0 <= i < r@.len() ==> r@[i] as nat == version_numbers(version@)[i],
{
    let parts = split_on(version, '.');
    let mut out: Vec<u32> = Vec::new();
    let mut i: usize = 0;
    while i < parts.len()
        invariant
            i <= parts@.len(),
            parts.deep_view() == split_char(version@, '.'),
            out@.len() == i,
            forall|k: int| 0 <= k < i ==> out@[k] as nat == part_number(parts@[k]@),
        decreases parts@.len() - i,
    {
        let cs = chars_of(parts[i].as_str());
        out.push(part_value(&cs));
        i += 1;
    }
    assert forall|k: int| 0 <= k < out@.len() implies out@[k] as nat == version_numbers(version@)[k] by {
        assert(parts.deep_view()[k] == parts@[k]@);
    }
    out
}

/// Whether version `latest` comes after version `current`, comparing the
/// numbers of their dot-separated parts in order (a part that is not a number
/// counts as 0).
pub fn is_newer_version(latest: &str, current: &str) -> (r: bool)
    ensures
        r == seq_greater(version_numbers(latest@), version_numbers(current@)),
{
    let a = parse_version(latest);
    let b = parse_version(current);
    let ghost sa = version_numbers(latest@);
    let ghost sb = version_numbers(current@);
    let mut i: usize = 0;
    assert(sa.skip(0) =~= sa);
    assert(sb.skip(0) =~= sb);
    while i < a.len() && i < b.len() && a[i] == b[i]
        invariant
            i <= a@.len(),
            i <= b@.len(),
            a@.len() == sa.len(),
            b@.len() == sb.len(),
            forall|k: int| 0 <= k < a@.len() ==> a@[k] as nat == sa[k],
            forall|k: int| 0 <= k < b@.len() ==> b@[k] as nat == sb[k],
            seq_greater(sa, sb) == seq_greater(sa.skip(i as int), sb.skip(i as int)),
        decreases a@.len() - i,
    {
        assert(sa.skip(i as int).drop_first() =~= sa.skip(i + 1));
        assert(sb.skip(i as int).drop_first() =~= sb.skip(i + 1));
        assert(sa.skip(i as int)[0] == sa[i as int]);
        assert(sb.skip(i as int)[0] == sb[i as int]);
        i += 1;
    }
    if i == a.len() {
        false
    } else if i == b.len() {
        true
    } else {
        assert(sa.skip(i as int)[0] == sa[i as int]);
        assert(sb.skip(i as int)[0] == sb[i as int]);
        a[i] > b[i]
    }
}

/// Whether the value of the auto-update setting turns updating on: `true` in
/// any letter case, or `1`.
pub fn auto_update_enabled(value: &str) -> (r: bool)
    ensures
        r == (lower_of(value@) == "true"@ || value@ == "1"@),
{
    let l = lowercase(value);
    same_text(l.as_str(), "true") || same_text(value, "1")
}

} // verus!
