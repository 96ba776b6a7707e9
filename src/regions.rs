//! Reads the variable-region map from the rendered, region-numbered IR of a
//! function: each declaration `_<local>: &'_#<region>r` yields a pair, and
//! every other text is skipped.

use vstd::prelude::*;
use crate::facts::{Local, Region};

verus! {

/// An ASCII decimal digit.
pub open spec fn is_digit(b: u8) -> bool {
    48 <= b <= 57
}

/// A byte that may stand in an identifier.
pub open spec fn is_word(b: u8) -> bool {
    is_digit(b) || (65 <= b <= 90) || (97 <= b <= 122) || b == 95
}

/// The number of consecutive digits from `i` on.
pub open spec fn digit_run(s: Seq<u8>, i: int) -> nat
    decreases s.len() - i,
{
    if 0 <= i < s.len() && is_digit(s[i]) {
        1 + digit_run(s, i + 1)
    } else {
        0
    }
}

/// The decimal value of the `n` bytes from `i` on.
pub open spec fn number(s: Seq<u8>, i: int, n: nat) -> nat
    decreases n,
{
    if n == 0 {
        0
    } else {
        number(s, i, (n - 1) as nat) * 10 + (s[i + n - 1] - 48) as nat
    }
}

/// The text between the local and the region number: `: &'_#`.
pub open spec fn marker() -> Seq<u8> {
    seq![58u8, 32u8, 38u8, 39u8, 95u8, 35u8]
}

/// The declaration that starts at `i`, if one does: `_`, digits, `: &'_#`,
/// digits, `r`, where no identifier byte stands right before the `_` and
/// both numbers fit.
pub open spec fn decl_at(s: Seq<u8>, i: int) -> Option<(Local, Region)> {
    let d1 = digit_run(s, i + 1);
    let j = i + 1 + d1;
    let d2 = digit_run(s, j + 6);
    let k = j + 6 + d2;
    if 0 <= i < s.len() && (i == 0 || !is_word(s[i - 1])) && s[i] == 95 && d1 > 0 && j + 6
        <= s.len() && s.subrange(j, j + 6) == marker() && d2 > 0 && k < s.len() && s[k] == 114
        && number(s, i + 1, d1) <= usize::MAX && number(s, j + 6, d2) <= usize::MAX {
        Some((number(s, i + 1, d1) as Local, number(s, j + 6, d2) as Region))
    } else {
        None
    }
}

/// The declarations that start before `n`, in order.
pub open spec fn decls_upto(s: Seq<u8>, n: int) -> Seq<(Local, Region)>
    decreases n,
{
    if n <= 0 {
        Seq::empty()
    } else {
        let prev = decls_upto(s, n - 1);
        match decl_at(s, n - 1) {
            Some(d) => prev.push(d),
            None => prev,
        }
    }
}

fn is_digit_byte(b: u8) -> (r: bool)
    ensures
        r == is_digit(b),
{
    48 <= b && b <= 57
}

fn is_word_byte(b: u8) -> (r: bool)
    ensures
        r == is_word(b),
{
    is_digit_byte(b) || (65 <= b && b <= 90) || (97 <= b && b <= 122) || b == 95
}

fn count_digits(s: &[u8], i: usize) -> (r: usize)
    requires
        i <= s@.len(),
    ensures
        r == digit_run(s@, i as int),
        i + r <= s@.len(),
{
    let mut k: usize = i;
    while k < s.len() && is_digit_byte(s[k])
        invariant
            i <= k <= s@.len(),
            digit_run(s@, i as int) == (k - i) + digit_run(s@, k as int),
        decreases s@.len() - k,
    {
        k = k + 1;
    }
    k - i
}

fn parse_number(s: &[u8], i: usize, n: usize) -> (r: Option<usize>)
    requires
        i + n <= s@.len(),
        forall|k: int| i <= k < i + n ==> is_digit(s@[k]),
    ensures
        number(s@, i as int, n as nat) <= usize::MAX ==> r == Some(number(s@, i as int, n as nat) as usize),
        number(s@, i as int, n as nat) > usize::MAX ==> r is None,
{
    let len = s.len();
    let mut value: usize = 0;
    let mut k: usize = 0;
    while k < n
        invariant
            len == s@.len(),
            i + n <= s@.len(),
            forall|j: int| i <= j < i + n ==> is_digit(s@[j]),
            k <= n,
            value == number(s@, i as int, k as nat),
        decreases n - k,
    {
        let digit = (s[i + k] - 48) as usize;
        let ghost next = number(s@, i as int, (k + 1) as nat);
        assert(next == value * 10 + digit);
        match value.checked_mul(10) {
            Some(tens) => match tens.checked_add(digit) {
                Some(v) => {
                    value = v;
                },
                None => {
                    proof {
                        lemma_number_grows(s@, i as int, (k + 1) as nat, n as nat);
                    }
                    return None;
                },
            },
            None => {
                proof {
                    lemma_number_grows(s@, i as int, (k + 1) as nat, n as nat);
                }
                return None;
            },
        }
        k = k + 1;
    }
    Some(value)
}

/// A longer run of digits never has a smaller value.
proof fn lemma_number_grows(s: Seq<u8>, i: int, m: nat, n: nat)
    requires
        m <= n,
        forall|k: int| i <= k < i + n ==> is_digit(s[k]),
    ensures
        number(s, i, m) <= number(s, i, n),
    decreases n - m,
{
    if m < n {
        lemma_number_grows(s, i, m, (n - 1) as nat);
        assert(is_digit(s[i + n - 1]));
    }
}

proof fn lemma_digit_run_digits(s: Seq<u8>, i: int)
    requires
        0 <= i,
    ensures
        forall|k: int| i <= k < i + digit_run(s, i) ==> is_digit(s[k]),
        i + digit_run(s, i) <= s.len() || digit_run(s, i) == 0,
    decreases s.len() - i,
{
    if 0 <= i < s.len() && is_digit(s[i]) {
        lemma_digit_run_digits(s, i + 1);
    }
}

fn matches_marker(s: &[u8], j: usize) -> (r: bool)
    requires
        j + 6 <= s@.len(),
    ensures
        r == (s@.subrange(j as int, j + 6) == marker()),
{
    let r = s[j] == 58 && s[j + 1] == 32 && s[j + 2] == 38 && s[j + 3] == 39 && s[j + 4] == 95
        && s[j + 5] == 35;
    assert(r ==> s@.subrange(j as int, j + 6) =~= marker());
    assert(s@.subrange(j as int, j + 6) == marker() ==> s@.subrange(j as int, j + 6)[0] == 58u8
        && s@.subrange(j as int, j + 6)[1] == 32u8 && s@.subrange(j as int, j + 6)[2] == 38u8
        && s@.subrange(j as int, j + 6)[3] == 39u8 && s@.subrange(j as int, j + 6)[4] == 95u8
        && s@.subrange(j as int, j + 6)[5] == 35u8);
    r
}

fn declaration_at(s: &[u8], i: usize) -> (r: Option<(Local, Region)>)
    requires
        i < s@.len(),
    ensures
        r == decl_at(s@, i as int),
{
    if !(i == 0 || !is_word_byte(s[i - 1])) || s[i] != 95 {
        return None;
    }
    let d1 = count_digits(s, i + 1);
    if d1 == 0 {
        return None;
    }
    let j = i + 1 + d1;
    if j > s.len() || s.len() - j < 6 || !matches_marker(s, j) {
        return None;
    }
    let d2 = count_digits(s, j + 6);
    let k = j + 6 + d2;
    if d2 == 0 || k >= s.len() || s[k] != 114 {
        return None;
    }
    proof {
        lemma_digit_run_digits(s@, i + 1);
        lemma_digit_run_digits(s@, j + 6);
    }
    let local = parse_number(s, i + 1, d1);
    let region = parse_number(s, j + 6, d2);
    match (local, region) {
        (Some(l), Some(r)) => Some((l, r)),
        _ => None,
    }
}

/// The variable-region pairs declared in `text`, in order of appearance.
pub fn load_variable_regions(text: &[u8]) -> (r: Vec<(Local, Region)>)
    ensures
        r@ == decls_upto(text@, text@.len() as int),
{
    let mut pairs: Vec<(Local, Region)> = Vec::new();
    let mut i: usize = 0;
    while i < text.len()
        invariant
            i <= text@.len(),
            pairs@ == decls_upto(text@, i as int),
        decreases text@.len() - i,
    {
        match declaration_at(text, i) {
            Some(d) => {
                pairs.push(d);
            },
            None => {},
        }
        i = i + 1;
    }
    pairs
}

} // verus!
