//! Decimal integers as `str::parse` reads them.
use vstd::prelude::*;

use crate::text::{char_is_digit, is_digit};

verus! {

pub open spec fn all_digits(s: Seq<char>) -> bool {
    forall|i: int| 0 <= i < s.len() ==> is_digit(#[trigger] s[i])
}

pub open spec fn digit_value(c: char) -> int {
    c as int - '0' as int
}

/// The value of a string of decimal digits.
pub open spec fn digits_value(s: Seq<char>) -> int
    decreases s.len(),
{
    if s.len() == 0 {
        0
    } else {
        digits_value(s.drop_last()) * 10 + digit_value(s.last())
    }
}

/// An optional sign (`-` only when `signed`) and at least one digit.
pub open spec fn sign_and_digits(s: Seq<char>, signed: bool) -> Option<(bool, Seq<char>)> {
    let (neg, body) = if s.len() > 0 && s[0] == '+' {
        (false, s.drop_first())
    } else if signed && s.len() > 0 && s[0] == '-' {
        (true, s.drop_first())
    } else {
        (false, s)
    };
    if body.len() == 0 || !all_digits(body) {
        None
    } else {
        Some((neg, body))
    }
}

/// `s.parse::<i32>()`.
pub open spec fn parse_i32(s: Seq<char>) -> Option<int> {
    match sign_and_digits(s, true) {
        Some((neg, body)) => {
            let v = if neg {
                -digits_value(body)
            } else {
                digits_value(body)
            };
            if i32::MIN <= v <= i32::MAX {
                Some(v)
            } else {
                None
            }
        },
        None => None,
    }
}

/// An unsigned decimal number with an optional `+`, of any size.
pub open spec fn parse_nat(s: Seq<char>) -> Option<int> {
    match sign_and_digits(s, false) {
        Some((_, body)) => Some(digits_value(body)),
        None => None,
    }
}

pub proof fn lemma_digits_value_nonneg(s: Seq<char>)
    requires
        all_digits(s),
    ensures
        digits_value(s) >= 0,
    decreases s.len(),
{
    if s.len() > 0 {
        assert(is_digit(s[s.len() - 1]));
        lemma_digits_value_nonneg(s.drop_last());
    }
}

/// `min(value(v[lo..hi]), cap)`, assuming all those characters are digits.
fn capped_value(v: &Vec<char>, lo: usize, hi: usize, cap: u64) -> (r: u64)
    requires
        lo <= hi <= v.len(),
        all_digits(v@.subrange(lo as int, hi as int)),
    ensures
        r as int == if digits_value(v@.subrange(lo as int, hi as int)) < cap {
            digits_value(v@.subrange(lo as int, hi as int))
        } else {
            cap as int
        },
{
    let mut acc: u64 = 0;
    let mut i = lo;
    while i < hi
        invariant
            lo <= i <= hi <= v.len(),
            all_digits(v@.subrange(lo as int, hi as int)),
            acc as int == if digits_value(v@.subrange(lo as int, i as int)) < cap {
                digits_value(v@.subrange(lo as int, i as int))
            } else {
                cap as int
            },
        decreases hi - i,
    {
        let ghost p = v@.subrange(lo as int, i as int);
        let ghost q = v@.subrange(lo as int, i + 1);
        assert(q.drop_last() =~= p);
        assert(v@.subrange(lo as int, hi as int)[i - lo] == v@[i as int]);
        let d = (v[i] as u64) - ('0' as u64);
        proof {
            lemma_digits_value_nonneg(p);
            assert(all_digits(p)) by {
                assert forall|k: int| 0 <= k < p.len() implies is_digit(#[trigger] p[k]) by {
                    assert(p[k] == v@.subrange(lo as int, hi as int)[(i - lo) - (i - lo) + k]);
                }
            }
            lemma_digits_value_nonneg(p);
        }
        if acc >= cap {
            acc = cap;
        } else {
            let x: u128 = (acc as u128) * 10 + (d as u128);
            acc = if x < (cap as u128) { x as u64 } else { cap };
        }
        i = i + 1;
    }
    acc
}

/// Whether every character of `v[lo..hi]` is a digit.
fn digits_only(v: &Vec<char>, lo: usize, hi: usize) -> (r: bool)
    requires
        lo <= hi <= v.len(),
    ensures
        r == all_digits(v@.subrange(lo as int, hi as int)),
{
    let mut i = lo;
    while i < hi
        invariant
            lo <= i <= hi <= v.len(),
            forall|k: int| lo <= k < i ==> is_digit(v@[k]),
        decreases hi - i,
    {
        if !char_is_digit(v[i]) {
            assert(!is_digit(v@.subrange(lo as int, hi as int)[i - lo]));
            return false;
        }
        i = i + 1;
    }
    assert forall|k: int| 0 <= k < hi - lo implies is_digit(#[trigger] v@.subrange(lo as int, hi as int)[k]) by {
        assert(v@.subrange(lo as int, hi as int)[k] == v@[lo + k]);
    }
    true
}

/// `v.parse::<i32>()`.
pub fn chars_parse_i32(v: &Vec<char>) -> (r: Option<i32>)
    ensures
        match parse_i32(v@) {
            Some(x) => r == Some(x as i32),
            None => r is None,
        },
{
    let mut lo: usize = 0;
    let mut neg = false;
    if v.len() > 0 && v[0] == '+' {
        lo = 1;
    } else if v.len() > 0 && v[0] == '-' {
        lo = 1;
        neg = true;
    }
    assert(v@.subrange(lo as int, v.len() as int) =~= (if lo == 1 {
        v@.drop_first()
    } else {
        v@
    }));
    if lo == v.len() || !digits_only(v, lo, v.len()) {
        return None;
    }
    let x = capped_value(v, lo, v.len(), 0x1_0000_0000);
    if neg {
        if x > 0x8000_0000 {
            return None;
        }
        Some((0 - (x as i64)) as i32)
    } else {
        if x > 0x7fff_ffff {
            return None;
        }
        Some(x as i32)
    }
}

/// `v.parse::<usize>()`, capped: values of `cap` and more come out as `cap`.
pub fn chars_parse_nat_capped(v: &Vec<char>, cap: u64) -> (r: Option<u64>)
    ensures
        match parse_nat(v@) {
            Some(x) => x >= 0 && r == Some(if x < cap { x as u64 } else { cap }),
            None => r is None,
        },
{
    let lo: usize = if v.len() > 0 && v[0] == '+' { 1 } else { 0 };
    assert(v@.subrange(lo as int, v.len() as int) =~= (if lo == 1 {
        v@.drop_first()
    } else {
        v@
    }));
    if lo == v.len() || !digits_only(v, lo, v.len()) {
        return None;
    }
    proof {
        lemma_digits_value_nonneg(v@.subrange(lo as int, v.len() as int));
    }
    Some(capped_value(v, lo, v.len(), cap))
}

} // verus!

verus! {

pub open spec fn pow10(n: nat) -> int
    decreases n,
{
    if n == 0 {
        1
    } else {
        10 * pow10((n - 1) as nat)
    }
}

/// A string of `n` digits is worth less than `10^n`.
pub proof fn lemma_digits_value_bound(s: Seq<char>)
    requires
        all_digits(s),
    ensures
        0 <= digits_value(s) < pow10(s.len()),
    decreases s.len(),
{
    if s.len() > 0 {
        assert(is_digit(s[s.len() - 1]));
        assert(all_digits(s.drop_last())) by {
            assert forall|i: int| 0 <= i < s.drop_last().len() implies is_digit(
                #[trigger] s.drop_last()[i],
            ) by {
                assert(s.drop_last()[i] == s[i]);
            }
        }
        lemma_digits_value_bound(s.drop_last());
    }
}

/// `s.parse::<u32>()`.
pub open spec fn parse_u32(s: Seq<char>) -> Option<int> {
    match parse_nat(s) {
        Some(v) => if v <= u32::MAX {
            Some(v)
        } else {
            None
        },
        None => None,
    }
}

/// `v.parse::<u32>()`.
pub fn chars_parse_u32(v: &Vec<char>) -> (r: Option<u32>)
    ensures
        match parse_u32(v@) {
            Some(x) => r == Some(x as u32),
            None => r is None,
        },
{
    match chars_parse_nat_capped(v, 0x1_0000_0000) {
        Some(x) => if x < 0x1_0000_0000 {
            Some(x as u32)
        } else {
            None
        },
        None => None,
    }
}

} // verus!
