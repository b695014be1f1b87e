//! Artist name normalization.
//!
//! Catalog artist names may carry a trailing disambiguation suffix of the
//! form `" (<digits>)"`, possibly repeated. Normalization removes the
//! longest trailing run of such groups and leaves everything else alone.

use vstd::prelude::*;

verus! {

/// Whether `c` is an ASCII decimal digit.
pub open spec fn spec_is_digit(c: char) -> bool {
    48 <= c as u32 && c as u32 <= 57
}

/// The first index `d <= e` such that every character in `[d, e)` is a
/// digit and no digit stands immediately before `d`.
pub open spec fn digit_run_start(s: Seq<char>, e: int) -> int
    recommends
        0 <= e <= s.len(),
    decreases e,
{
    if e > 0 && spec_is_digit(s[e - 1]) {
        digit_run_start(s, e - 1)
    } else {
        e
    }
}

/// Whether a group `" (<digits>)"` (zero or more digits) ends exactly at
/// position `e` of `s`.
pub open spec fn group_ends_at(s: Seq<char>, e: int) -> bool {
    &&& 3 <= e <= s.len()
    &&& s[e - 1] == ')'
    &&& 2 <= digit_run_start(s, e - 1) <= e - 1
    &&& s[digit_run_start(s, e - 1) - 1] == '('
    &&& s[digit_run_start(s, e - 1) - 2] == ' '
}

/// The length that remains of `s.take(e)` once every trailing group has
/// been stripped, greedily from the end.
pub open spec fn normalized_len(s: Seq<char>, e: int) -> int
    recommends
        0 <= e <= s.len(),
    decreases e,
{
    if group_ends_at(s, e) {
        normalized_len(s, digit_run_start(s, e - 1) - 2)
    } else {
        e
    }
}

/// The normalized artist name: the longest prefix of `s` that is not
/// followed by a run of `" (<digits>)"` groups reaching the end of `s`.
pub open spec fn spec_trim_artist(s: Seq<char>) -> Seq<char> {
    s.take(normalized_len(s, s.len() as int))
}

proof fn lemma_digit_run_start_le(s: Seq<char>, e: int)
    requires
        0 <= e <= s.len(),
    ensures
        0 <= digit_run_start(s, e) <= e,
    decreases e,
{
    if e > 0 && spec_is_digit(s[e - 1]) {
        lemma_digit_run_start_le(s, e - 1);
    }
}

proof fn lemma_digit_run_start_take(s: Seq<char>, k: int, e: int)
    requires
        0 <= e <= k <= s.len(),
    ensures
        digit_run_start(s.take(k), e) == digit_run_start(s, e),
    decreases e,
{
    if e > 0 && spec_is_digit(s[e - 1]) {
        lemma_digit_run_start_take(s, k, e - 1);
    }
}

proof fn lemma_group_ends_at_take(s: Seq<char>, k: int, e: int)
    requires
        0 <= e <= k <= s.len(),
    ensures
        group_ends_at(s.take(k), e) == group_ends_at(s, e),
{
    if e >= 1 {
        lemma_digit_run_start_take(s, k, e - 1);
        lemma_digit_run_start_le(s, e - 1);
    }
}

proof fn lemma_normalized_len_props(s: Seq<char>, e: int)
    requires
        0 <= e <= s.len(),
    ensures
        0 <= normalized_len(s, e) <= e,
        !group_ends_at(s, normalized_len(s, e)),
    decreases e,
{
    if group_ends_at(s, e) {
        lemma_normalized_len_props(s, digit_run_start(s, e - 1) - 2);
    }
}

/// Normalization is idempotent: a name normalized once is unchanged by a
/// second normalization.
pub proof fn lemma_trim_artist_idempotent(s: Seq<char>)
    ensures
        spec_trim_artist(spec_trim_artist(s)) == spec_trim_artist(s),
{
    let n = s.len() as int;
    let k = normalized_len(s, n);
    lemma_normalized_len_props(s, n);
    let t = s.take(k);
    lemma_group_ends_at_take(s, k, k);
    assert(normalized_len(t, k) == k);
    assert(t.take(k) =~= t);
}

/// A name whose end is not a `" (<digits>)"` group is left unchanged;
/// in particular a purely numeric name passes through as it is.
pub proof fn lemma_trim_artist_no_suffix(s: Seq<char>)
    requires
        !group_ends_at(s, s.len() as int),
    ensures
        spec_trim_artist(s) == s,
{
    assert(normalized_len(s, s.len() as int) == s.len() as int);
    assert(s.take(s.len() as int) =~= s);
}

fn is_digit_char(c: char) -> (r: bool)
    ensures
        r == spec_is_digit(c),
{
    let u = c as u32;
    48 <= u && u <= 57
}

fn scan_digit_run(s: &str, e: usize) -> (d: usize)
    requires
        e <= s@.len(),
    ensures
        d as int == digit_run_start(s@, e as int),
        d <= e,
    decreases e,
{
    if e > 0 && is_digit_char(s.get_char(e - 1)) {
        scan_digit_run(s, e - 1)
    } else {
        e
    }
}

fn trimmed_len(s: &str, e: usize) -> (r: usize)
    requires
        e <= s@.len(),
    ensures
        r as int == normalized_len(s@, e as int),
        r <= e,
    decreases e,
{
    if e >= 3 && s.get_char(e - 1) == ')' {
        let d = scan_digit_run(s, e - 1);
        if d >= 2 && s.get_char(d - 1) == '(' && s.get_char(d - 2) == ' ' {
            assert(group_ends_at(s@, e as int));
            return trimmed_len(s, d - 2);
        }
        assert(!group_ends_at(s@, e as int));
        return e;
    }
    assert(!group_ends_at(s@, e as int));
    e
}

/// Strips the longest trailing run of `" (<digits>)"` groups from an
/// artist display name.
pub fn trim_artist(artist_str: &str) -> (r: String)
    ensures
        r@ == spec_trim_artist(artist_str@),
{
    let n = artist_str.unicode_len();
    let k = trimmed_len(artist_str, n);
    let r = artist_str.substring_char(0, k).to_owned();
    proof {
        assert(r@ =~= spec_trim_artist(artist_str@));
    }
    r
}

} // verus!
