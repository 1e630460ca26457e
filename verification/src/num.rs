//! Numeric text handling: a verified parser for base-10 signed integers and
//! a verified validator for decimal floating point text.
//!
//! Invalid numeric text is never an error anywhere in this library: it is
//! representable state (`value` absent, `raw_text` preserved). A floating
//! point value that passes the grammar is kept as its verbatim text; turning
//! it into machine floating point is the consumer's concern at the boundary.

use vstd::prelude::*;
use vstd::string::StrSliceExecFns;

use crate::value::{NumberKind, NumberValue, SpecNumberValue};

verus! {

/// `c` is an ASCII decimal digit.
pub open spec fn is_digit_char(c: char) -> bool {
    48 <= c as u32 && c as u32 <= 57
}

/// Numeric value of an ASCII decimal digit.
pub open spec fn digit_val(c: char) -> int {
    c as u32 - 48
}

/// Every character of `s` is an ASCII decimal digit.
pub open spec fn all_digits(s: Seq<char>) -> bool {
    forall|i: int| 0 <= i < s.len() ==> is_digit_char(#[trigger] s[i])
}

/// Every character of `s` in `[lo, hi)` is an ASCII decimal digit.
pub open spec fn all_digits_in(s: Seq<char>, lo: int, hi: int) -> bool {
    forall|i: int| lo <= i < hi ==> is_digit_char(#[trigger] s[i])
}

/// The non-negative integer denoted by a sequence of decimal digits,
/// most significant first. The empty sequence denotes 0.
pub open spec fn digits_value(s: Seq<char>) -> int
    decreases s,
{
    if s.len() == 0 {
        0
    } else {
        digits_value(s.drop_last()) * 10 + digit_val(s.last())
    }
}

/// The base-10 signed integer grammar: an optional leading minus sign, then
/// one or more decimal digits, denoting a value representable in `i128`.
/// Anything else — the empty text, stray characters, a value out of range —
/// parses to nothing.
pub open spec fn parse_int_spec(s: Seq<char>) -> Option<i128> {
    let neg = s.len() > 0 && s[0] == '-';
    let digits = if neg {
        s.drop_first()
    } else {
        s
    };
    if digits.len() > 0 && all_digits(digits) {
        let m = if neg {
            -digits_value(digits)
        } else {
            digits_value(digits)
        };
        if i128::MIN <= m <= i128::MAX {
            Some(m as i128)
        } else {
            None
        }
    } else {
        None
    }
}

/// A digit string denotes a non-negative value.
pub proof fn lemma_digits_value_nonneg(s: Seq<char>)
    requires
        all_digits(s),
    ensures
        digits_value(s) >= 0,
    decreases s,
{
    if s.len() > 0 {
        assert(all_digits(s.drop_last())) by {
            assert forall|i: int| 0 <= i < s.len() - 1
                implies is_digit_char(#[trigger] s.drop_last()[i]) by {
                assert(s.drop_last()[i] == s[i]);
            }
        }
        lemma_digits_value_nonneg(s.drop_last());
    }
}

/// Extending a digit string never decreases its value.
pub proof fn lemma_digits_value_take(s: Seq<char>, k: int)
    requires
        all_digits(s),
        0 <= k <= s.len(),
    ensures
        digits_value(s) >= digits_value(s.take(k)),
        digits_value(s.take(k)) >= 0,
    decreases s.len(),
{
    if k == s.len() {
        assert(s.take(k) =~= s);
        lemma_digits_value_nonneg(s);
    } else {
        assert(all_digits(s.drop_last())) by {
            assert forall|i: int| 0 <= i < s.len() - 1
                implies is_digit_char(#[trigger] s.drop_last()[i]) by {
                assert(s.drop_last()[i] == s[i]);
            }
        }
        assert(s.take(k) =~= s.drop_last().take(k));
        lemma_digits_value_take(s.drop_last(), k);
        lemma_digits_value_nonneg(s.drop_last());
    }
}

/// Index of the first occurrence of `c1` or `c2` in `[lo, hi)`, or -1.
pub open spec fn find_in(s: Seq<char>, lo: int, hi: int, c1: char, c2: char) -> int
    decreases hi - lo,
{
    if lo >= hi {
        -1
    } else if s[lo] == c1 || s[lo] == c2 {
        lo
    } else {
        find_in(s, lo + 1, hi, c1, c2)
    }
}

/// `c` is the letter `lower` in either case; `lower` is given in lower case.
pub open spec fn eq_ci(c: char, lower: char) -> bool {
    c as u32 == lower as u32 || c as u32 + 32 == lower as u32
}

/// `[lo, hi)` spells `inf`, `infinity` or `nan`, case-insensitively.
pub open spec fn special_in(s: Seq<char>, lo: int, hi: int) -> bool {
    ||| (hi - lo == 3 && eq_ci(s[lo], 'i') && eq_ci(s[lo + 1], 'n') && eq_ci(s[lo + 2], 'f'))
    ||| (hi - lo == 8 && eq_ci(s[lo], 'i') && eq_ci(s[lo + 1], 'n') && eq_ci(s[lo + 2], 'f')
        && eq_ci(s[lo + 3], 'i') && eq_ci(s[lo + 4], 'n') && eq_ci(s[lo + 5], 'i')
        && eq_ci(s[lo + 6], 't') && eq_ci(s[lo + 7], 'y'))
    ||| (hi - lo == 3 && eq_ci(s[lo], 'n') && eq_ci(s[lo + 1], 'a') && eq_ci(s[lo + 2], 'n'))
}

/// `[lo, hi)` is a valid exponent body: an optional sign, then digits.
pub open spec fn exp_valid_in(s: Seq<char>, lo: int, hi: int) -> bool {
    lo < hi && {
        let b = if s[lo] == '+' || s[lo] == '-' {
            lo + 1
        } else {
            lo
        };
        b < hi && all_digits_in(s, b, hi)
    }
}

/// `[lo, hi)` is a valid mantissa: digits with at most one decimal point,
/// and at least one digit somewhere.
pub open spec fn mantissa_valid_in(s: Seq<char>, lo: int, hi: int) -> bool {
    let dot = find_in(s, lo, hi, '.', '.');
    if dot == -1 {
        lo < hi && all_digits_in(s, lo, hi)
    } else {
        all_digits_in(s, lo, dot) && all_digits_in(s, dot + 1, hi) && (dot > lo || dot + 1 < hi)
    }
}

/// `[lo, hi)` is a valid number: a mantissa, optionally followed by an
/// exponent marker and a valid exponent body.
pub open spec fn number_valid_in(s: Seq<char>, lo: int, hi: int) -> bool {
    let e = find_in(s, lo, hi, 'e', 'E');
    if e == -1 {
        mantissa_valid_in(s, lo, hi)
    } else {
        mantissa_valid_in(s, lo, e) && exp_valid_in(s, e + 1, hi)
    }
}

/// The decimal floating point grammar: an optional sign, then `inf`,
/// `infinity` or `nan` in any case, or a mantissa with an optional exponent.
pub open spec fn float_text_valid(s: Seq<char>) -> bool {
    s.len() > 0 && {
        let lo: int = if s[0] == '+' || s[0] == '-' {
            1
        } else {
            0
        };
        special_in(s, lo, s.len() as int) || number_valid_in(s, lo, s.len() as int)
    }
}

/// What numeric text parses to under a kind's grammar: an integer value for
/// `Integer`, the verbatim valid text for `Float`.
pub open spec fn spec_parse_number(kind: NumberKind, s: Seq<char>) -> Option<SpecNumberValue> {
    match kind {
        NumberKind::Integer => match parse_int_spec(s) {
            Some(i) => Some(SpecNumberValue::Int(i)),
            None => None,
        },
        NumberKind::Float => if float_text_valid(s) {
            Some(SpecNumberValue::Float(s))
        } else {
            None
        },
    }
}

/// Parse a base-10 signed integer: an optional leading minus sign, then one
/// or more decimal digits, within `i128`'s range.
#[verifier::loop_isolation(false)]
pub fn parse_integer_text(s: &str) -> (r: Option<i128>)
    ensures
        r == parse_int_spec(s@),
{
    let n = s.unicode_len();
    if n == 0 {
        return None;
    }
    let neg = s.get_char(0) == '-';
    let start: usize = if neg {
        1
    } else {
        0
    };
    if start == n {
        return None;
    }
    let ghost digits = if neg {
        s@.drop_first()
    } else {
        s@
    };
    proof {
        assert(digits =~= s@.subrange(start as int, n as int));
    }
    let mut acc: u128 = 0;
    let mut i: usize = start;
    while i < n
        invariant
            start <= i <= n,
            all_digits(digits.take(i - start)),
            acc as int == digits_value(digits.take(i - start)),
        decreases n - i,
    {
        let c = s.get_char(i);
        let u = c as u32;
        proof {
            assert(digits[i - start] == s@[i as int]);
        }
        if u < 48 || u > 57 {
            proof {
                assert(!is_digit_char(digits[i - start]));
                assert(!all_digits(digits));
            }
            return None;
        }
        let d = (u - 48) as u128;
        proof {
            assert(digits.take(i + 1 - start).drop_last() =~= digits.take(i - start));
            assert(digits.take(i + 1 - start).last() == digits[i - start]);
            assert(digits_value(digits.take(i + 1 - start)) == acc as int * 10 + d as int);
        }
        if acc > (u128::MAX - 9) / 10 {
            proof {
                let grown = digits.take(i + 1 - start);
                assert(digits_value(grown) > (u128::MAX - 9) / 10 * 10);
                if all_digits(digits) {
                    lemma_digits_value_take(digits, i + 1 - start);
                    assert(digits_value(digits) >= digits_value(grown));
                    assert(digits_value(digits) > i128::MAX);
                    assert(-digits_value(digits) < i128::MIN);
                }
            }
            return None;
        }
        acc = acc * 10 + d;
        i = i + 1;
        proof {
            assert(all_digits(digits.take(i - start))) by {
                assert forall|j: int| 0 <= j < i - start
                    implies is_digit_char(#[trigger] digits.take(i - start)[j]) by {
                    assert(digits.take(i - start)[j] == digits[j]);
                    if j < i - 1 - start {
                        assert(digits.take(i - 1 - start)[j] == digits[j]);
                    }
                }
            }
        }
    }
    proof {
        assert(digits.take(i - start) =~= digits);
    }
    if !neg {
        if acc <= i128::MAX as u128 {
            Some(acc as i128)
        } else {
            None
        }
    } else {
        if acc <= i128::MAX as u128 {
            Some(-(acc as i128))
        } else if acc == i128::MAX as u128 + 1 {
            Some(i128::MIN)
        } else {
            None
        }
    }
}

/// `c` is the letter `lower` in either case.
fn eq_ci_exec(c: char, lower: char) -> (r: bool)
    ensures
        r == eq_ci(c, lower),
{
    let cu = c as u32;
    let lu = lower as u32;
    cu == lu || (lu >= 32 && cu == lu - 32)
}

/// Find the first occurrence of `c1` or `c2` in `[lo, hi)` of `s`.
#[verifier::loop_isolation(false)]
fn find_in_exec(s: &str, lo: usize, hi: usize, c1: char, c2: char) -> (r: Option<usize>)
    requires
        lo <= hi <= s@.len(),
    ensures
        match r {
            Some(k) => lo <= k < hi && find_in(s@, lo as int, hi as int, c1, c2) == k as int,
            None => find_in(s@, lo as int, hi as int, c1, c2) == -1,
        },
{
    let mut i: usize = lo;
    while i < hi
        invariant
            lo <= i <= hi,
            find_in(s@, lo as int, hi as int, c1, c2) == find_in(s@, i as int, hi as int, c1, c2),
        decreases hi - i,
    {
        let c = s.get_char(i);
        if c == c1 || c == c2 {
            return Some(i);
        }
        i = i + 1;
    }
    None
}

/// Check that `[lo, hi)` of `s` holds decimal digits only.
#[verifier::loop_isolation(false)]
fn all_digits_exec(s: &str, lo: usize, hi: usize) -> (r: bool)
    requires
        lo <= hi <= s@.len(),
    ensures
        r == all_digits_in(s@, lo as int, hi as int),
{
    let mut i: usize = lo;
    while i < hi
        invariant
            lo <= i <= hi,
            all_digits_in(s@, lo as int, i as int),
        decreases hi - i,
    {
        let u = s.get_char(i) as u32;
        if u < 48 || u > 57 {
            proof {
                assert(!is_digit_char(s@[i as int]));
            }
            return false;
        }
        i = i + 1;
    }
    true
}

/// Check floating point text against the decimal grammar: an optional sign,
/// then `inf`, `infinity` or `nan` in any case, or digits with at most one
/// decimal point and an optional exponent.
#[verifier::loop_isolation(false)]
pub fn float_text_check(s: &str) -> (r: bool)
    ensures
        r == float_text_valid(s@),
{
    let n = s.unicode_len();
    if n == 0 {
        return false;
    }
    let c0 = s.get_char(0);
    let lo: usize = if c0 == '+' || c0 == '-' {
        1
    } else {
        0
    };
    let rem = n - lo;
    if rem == 3 {
        let a = s.get_char(lo);
        let b = s.get_char(lo + 1);
        let c = s.get_char(lo + 2);
        if eq_ci_exec(a, 'i') && eq_ci_exec(b, 'n') && eq_ci_exec(c, 'f') {
            return true;
        }
        if eq_ci_exec(a, 'n') && eq_ci_exec(b, 'a') && eq_ci_exec(c, 'n') {
            return true;
        }
    }
    if rem == 8 {
        let mut ok = true;
        let word = ['i', 'n', 'f', 'i', 'n', 'i', 't', 'y'];
        let mut k: usize = 0;
        while k < 8
            invariant
                k <= 8,
                ok == (forall|j: int| 0 <= j < k as int
                    ==> eq_ci(s@[lo + j], #[trigger] word@[j])),
            decreases 8 - k,
        {
            let good = eq_ci_exec(s.get_char(lo + k), word[k]);
            ok = ok && good;
            k = k + 1;
        }
        if ok {
            return true;
        }
    }
    let m_hi: usize = match find_in_exec(s, lo, n, 'e', 'E') {
        Some(k) => k,
        None => n,
    };
    let mant_ok: bool = match find_in_exec(s, lo, m_hi, '.', '.') {
        None => lo < m_hi && all_digits_exec(s, lo, m_hi),
        Some(d) => {
            let head = all_digits_exec(s, lo, d);
            let tail = all_digits_exec(s, d + 1, m_hi);
            head && tail && (d > lo || d + 1 < m_hi)
        },
    };
    if !mant_ok {
        return false;
    }
    if m_hi == n {
        return true;
    }
    let e_lo = m_hi + 1;
    if e_lo >= n {
        return false;
    }
    let cs = s.get_char(e_lo);
    let b: usize = if cs == '+' || cs == '-' {
        e_lo + 1
    } else {
        e_lo
    };
    if b >= n {
        return false;
    }
    all_digits_exec(s, b, n)
}

/// Parse numeric text under a kind's grammar: base-10 signed integer for
/// `Integer`, decimal floating point for `Float`.
pub fn parse_number_text(kind: NumberKind, s: &str) -> (r: Option<NumberValue>)
    ensures
        (match r {
            Some(v) => Some(v@),
            None => None::<SpecNumberValue>,
        }) == spec_parse_number(kind, s@),
{
    match kind {
        NumberKind::Integer => match parse_integer_text(s) {
            Some(i) => Some(NumberValue::Int(i)),
            None => None,
        },
        NumberKind::Float => if float_text_check(s) {
            Some(NumberValue::Float(s.to_owned()))
        } else {
            None
        },
    }
}

} // verus!
