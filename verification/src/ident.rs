//! Release identifier parsing.
//!
//! An input is either a bare unsigned number or a '/'-delimited path whose
//! last segment is the number; the path form is valid only when the
//! segment immediately before the number is the literal token `release`.

use vstd::prelude::*;

use crate::artist::spec_is_digit;

verus! {

/// The numeric value of a decimal digit character.
pub open spec fn char_digit_val(c: char) -> nat
    recommends
        spec_is_digit(c),
{
    ((c as u32) - 48) as nat
}

/// The numeric value of a digit string, most significant digit first.
pub open spec fn digits_val(s: Seq<char>) -> nat
    decreases s.len(),
{
    if s.len() == 0 {
        0
    } else {
        digits_val(s.drop_last()) * 10 + char_digit_val(s.last())
    }
}

/// Whether every character of `s` is a decimal digit.
pub open spec fn all_digits(s: Seq<char>) -> bool {
    forall|i: int| 0 <= i < s.len() ==> spec_is_digit(s[i])
}

/// The digit part of an unsigned decimal literal: a single leading `'+'`
/// sign is allowed and ignored.
pub open spec fn spec_digits_part(s: Seq<char>) -> Seq<char> {
    if s.len() > 0 && s[0] == '+' {
        s.skip(1)
    } else {
        s
    }
}

/// What parsing `s` as a `u32` yields: the denoted value when `s` is an
/// unsigned decimal literal whose value fits, nothing otherwise.
pub open spec fn spec_parse_u32(s: Seq<char>) -> Option<u32> {
    let d = spec_digits_part(s);
    if d.len() > 0 && all_digits(d) && digits_val(d) <= u32::MAX as nat {
        Some(digits_val(d) as u32)
    } else {
        None
    }
}

/// Whether `s` contains a `'/'`.
pub open spec fn has_slash(s: Seq<char>) -> bool {
    exists|i: int| 0 <= i < s.len() && s[i] == '/'
}

/// The text after the last `'/'` of `s`; all of `s` when there is none.
pub open spec fn last_segment(s: Seq<char>) -> Seq<char>
    decreases s.len(),
{
    if s.len() == 0 {
        s
    } else if s.last() == '/' {
        Seq::empty()
    } else {
        last_segment(s.drop_last()).push(s.last())
    }
}

/// The text before the last `'/'` of `s`; meaningful only when `s` has
/// one.
pub open spec fn before_last_slash(s: Seq<char>) -> Seq<char>
    decreases s.len(),
{
    if s.len() == 0 {
        s
    } else if s.last() == '/' {
        s.drop_last()
    } else {
        before_last_slash(s.drop_last())
    }
}

/// The literal path token that must precede a release identifier.
pub open spec fn release_token() -> Seq<char> {
    seq!['r', 'e', 'l', 'e', 'a', 's', 'e']
}

/// The release identifier denoted by an input string: its last
/// '/'-separated segment parsed as a `u32`, valid exactly when the
/// segment is the whole input or the segment before it is `release`.
pub open spec fn spec_parse_release_id(s: Seq<char>) -> Option<u32> {
    match spec_parse_u32(last_segment(s)) {
        Some(n) => if !has_slash(s) || last_segment(before_last_slash(s)) == release_token() {
            Some(n)
        } else {
            None
        },
        None => None,
    }
}

proof fn lemma_no_slash_last_segment(s: Seq<char>)
    requires
        forall|k: int| 0 <= k < s.len() ==> s[k] != '/',
    ensures
        last_segment(s) == s,
        !has_slash(s),
    decreases s.len(),
{
    if s.len() > 0 {
        lemma_no_slash_last_segment(s.drop_last());
        assert(s.drop_last().push(s.last()) =~= s);
    }
}

proof fn lemma_split_at_last_slash(s: Seq<char>, j: int)
    requires
        0 <= j < s.len(),
        s[j] == '/',
        forall|k: int| j < k < s.len() ==> s[k] != '/',
    ensures
        has_slash(s),
        last_segment(s) == s.skip(j + 1),
        before_last_slash(s) == s.take(j),
    decreases s.len(),
{
    if j == s.len() - 1 {
        assert(s.skip(j + 1) =~= Seq::<char>::empty());
        assert(s.drop_last() =~= s.take(j));
    } else {
        assert(s.last() != '/');
        lemma_split_at_last_slash(s.drop_last(), j);
        assert(s.drop_last().skip(j + 1).push(s.last()) =~= s.skip(j + 1));
        assert(s.drop_last().take(j) =~= s.take(j));
    }
}

proof fn lemma_digits_val_prefix_le(s: Seq<char>, k: int)
    requires
        0 <= k <= s.len(),
    ensures
        digits_val(s.take(k)) <= digits_val(s),
    decreases s.len(),
{
    if k == s.len() {
        assert(s.take(k) =~= s);
    } else {
        lemma_digits_val_prefix_le(s.drop_last(), k);
        assert(s.drop_last().take(k) =~= s.take(k));
        assert(digits_val(s.drop_last()) * 10 >= digits_val(s.drop_last()));
    }
}

fn find_last_slash(s: &str) -> (r: Option<usize>)
    ensures
        match r {
            Some(j) => {
                &&& j < s@.len()
                &&& s@[j as int] == '/'
                &&& forall|k: int| j < k < s@.len() ==> s@[k] != '/'
            },
            None => forall|k: int| 0 <= k < s@.len() ==> s@[k] != '/',
        },
{
    let n = s.unicode_len();
    let mut i: usize = n;
    while i > 0
        invariant
            i <= n,
            n == s@.len(),
            forall|k: int| i as int <= k < n as int ==> s@[k] != '/',
        decreases i,
    {
        if s.get_char(i - 1) == '/' {
            return Some(i - 1);
        }
        i = i - 1;
    }
    None
}

fn is_release_token(s: &str) -> (r: bool)
    ensures
        r == (s@ == release_token()),
{
    let n = s.unicode_len();
    if n != 7 {
        proof {
            assert(s@ != release_token()) by {
                if s@ == release_token() {
                    assert(s@.len() == 7);
                }
            }
        }
        return false;
    }
    let ok = s.get_char(0) == 'r' && s.get_char(1) == 'e' && s.get_char(2) == 'l' && s.get_char(3)
        == 'e' && s.get_char(4) == 'a' && s.get_char(5) == 's' && s.get_char(6) == 'e';
    proof {
        if ok {
            assert(s@ =~= release_token());
        } else {
            assert(s@ != release_token()) by {
                if s@ == release_token() {
                    assert(s@[0] == 'r' && s@[1] == 'e' && s@[2] == 'l' && s@[3] == 'e' && s@[4]
                        == 'a' && s@[5] == 's' && s@[6] == 'e');
                }
            }
        }
    }
    ok
}

fn parse_u32_str(s: &str) -> (r: Option<u32>)
    ensures
        r == spec_parse_u32(s@),
{
    let n = s.unicode_len();
    let mut start: usize = 0;
    if n > 0 && s.get_char(0) == '+' {
        start = 1;
    }
    proof {
        assert(s@.skip(0) =~= s@);
    }
    let ghost d = spec_digits_part(s@);
    if start == n {
        proof {
            assert(d.len() == 0);
        }
        return None;
    }
    let mut acc: u64 = 0;
    let mut i: usize = start;
    proof {
        assert(d.take(0) =~= Seq::<char>::empty());
    }
    while i < n
        invariant
            start <= i <= n,
            n == s@.len(),
            d == spec_digits_part(s@),
            d == s@.skip(start as int),
            all_digits(d.take(i - start)),
            acc == digits_val(d.take(i - start)),
            acc <= u32::MAX as u64,
        decreases n - i,
    {
        let c = s.get_char(i);
        let u = c as u32;
        let ghost m = i - start;
        proof {
            assert(d[m] == s@[i as int]);
        }
        if !(48 <= u && u <= 57) {
            proof {
                assert(!spec_is_digit(d[m]));
                assert(!all_digits(d));
            }
            return None;
        }
        let dv = (u - 48) as u64;
        let next = acc * 10 + dv;
        proof {
            assert(d.take(m + 1).drop_last() =~= d.take(m));
            assert(d.take(m + 1).last() == d[m]);
            assert(digits_val(d.take(m + 1)) == digits_val(d.take(m)) * 10 + char_digit_val(d[m]));
        }
        if next > 0xFFFF_FFFF {
            proof {
                if all_digits(d) && digits_val(d) <= u32::MAX as nat {
                    lemma_digits_val_prefix_le(d, m + 1);
                    assert(digits_val(d.take(m + 1)) == next as nat);
                    assert(false);
                }
            }
            return None;
        }
        acc = next;
        proof {
            assert(all_digits(d.take(m + 1)));
        }
        i = i + 1;
    }
    proof {
        assert(d.take(n - start) =~= d);
        assert(acc == digits_val(d) && all_digits(d) && d.len() > 0);
    }
    Some(acc as u32)
}

/// Extracts a release identifier from a bare number or a path-like string
/// whose last segment is a number immediately preceded by `release`.
/// Returns nothing for every other input.
pub fn parse_release_id(arg: &str) -> (r: Option<u32>)
    ensures
        r == spec_parse_release_id(arg@),
{
    let n = arg.unicode_len();
    match find_last_slash(arg) {
        None => {
            proof {
                lemma_no_slash_last_segment(arg@);
            }
            parse_u32_str(arg)
        },
        Some(j) => {
            proof {
                lemma_split_at_last_slash(arg@, j as int);
            }
            let seg = arg.substring_char(j + 1, n);
            proof {
                assert(seg@ == last_segment(arg@));
            }
            match parse_u32_str(seg) {
                None => None,
                Some(v) => {
                    let prev = arg.substring_char(0, j);
                    proof {
                        assert(prev@ == before_last_slash(arg@));
                    }
                    let ok = match find_last_slash(prev) {
                        None => {
                            proof {
                                lemma_no_slash_last_segment(prev@);
                            }
                            is_release_token(prev)
                        },
                        Some(j2) => {
                            proof {
                                lemma_split_at_last_slash(prev@, j2 as int);
                            }
                            let m = prev.unicode_len();
                            let seg2 = prev.substring_char(j2 + 1, m);
                            proof {
                                assert(seg2@ == last_segment(prev@));
                            }
                            is_release_token(seg2)
                        },
                    };
                    if ok {
                        Some(v)
                    } else {
                        None
                    }
                },
            }
        },
    }
}

/// A bare string of digits denotes its value, and so does any path of the
/// form `<anything>/release/<digits>`, whatever the leading part holds.
pub proof fn lemma_parse_release_id_valid_forms(prefix: Seq<char>, digits: Seq<char>)
    requires
        digits.len() > 0,
        all_digits(digits),
        digits_val(digits) <= u32::MAX as nat,
    ensures
        spec_parse_release_id(digits) == Some(digits_val(digits) as u32),
        spec_parse_release_id(prefix + seq!['/'] + release_token() + seq!['/'] + digits) == Some(
            digits_val(digits) as u32,
        ),
{
    assert forall|k: int| 0 <= k < digits.len() implies digits[k] != '/' by {
        assert(spec_is_digit(digits[k]));
    }
    lemma_no_slash_last_segment(digits);
    assert(digits[0] != '+');
    assert(spec_digits_part(digits) == digits);
    assert(spec_parse_u32(digits) == Some(digits_val(digits) as u32));

    let u = prefix + seq!['/'] + release_token() + seq!['/'] + digits;
    let j = prefix.len() + 8;
    assert(u[j as int] == '/');
    assert forall|k: int| j < k < u.len() implies u[k] != '/' by {
        assert(u[k] == digits[k - j - 1]);
        assert(spec_is_digit(digits[k - j - 1]));
    }
    lemma_split_at_last_slash(u, j as int);
    assert(u.skip(j as int + 1) =~= digits);

    let p = u.take(j as int);
    assert(p =~= prefix + seq!['/'] + release_token());
    let j2 = prefix.len();
    assert(p[j2 as int] == '/');
    assert forall|k: int| j2 < k < p.len() implies p[k] != '/' by {
        assert(p[k] == release_token()[k - j2 - 1]);
    }
    lemma_split_at_last_slash(p, j2 as int);
    assert(p.skip(j2 as int + 1) =~= release_token());
}

/// An input whose last segment is not an unsigned integer, or whose
/// segment immediately before the number is not `release`, denotes no
/// identifier.
pub proof fn lemma_parse_release_id_invalid_forms(s: Seq<char>)
    ensures
        spec_parse_u32(last_segment(s)) is None ==> spec_parse_release_id(s) is None,
        has_slash(s) && last_segment(before_last_slash(s)) != release_token()
            ==> spec_parse_release_id(s) is None,
{
}

} // verus!
