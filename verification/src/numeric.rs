//! Normalizing venue-supplied decimal strings to integer keys.
//!
//! Prices, sizes and auxiliary values arrive as decimal text. They
//! are keyed at whole-unit resolution: the digits before the decimal
//! point give the key and any fractional digits are validated but
//! truncated. A malformed string is a decode error; the caller must
//! then reject the whole update.

use vstd::arithmetic::div_mod::{lemma_fundamental_div_mod, lemma_mod_division_less_than_divisor};
use vstd::arithmetic::mul::lemma_mul_inequality;
use vstd::prelude::*;
use vstd::string::StrSliceExecFns;

verus! {

/// Why an inbound update could not be decoded.
#[derive(Clone, Copy, Debug, PartialEq, Eq)]
pub enum DecodeError {
    /// A price, size or auxiliary string is not a decimal number, or
    /// its whole-unit part does not fit the integer key.
    BadNumber,
}

/// An ASCII decimal digit.
pub open spec fn is_digit(c: char) -> bool {
    48 <= c as u32 <= 57
}

/// The numeric value of a digit.
pub open spec fn digit_val(c: char) -> int {
    c as u32 - 48
}

/// Position of the first `'.'`, or the length if there is none.
pub open spec fn dot_pos(s: Seq<char>) -> int
    decreases s.len(),
{
    if s.len() == 0 {
        0
    } else if s[0] == '.' {
        0
    } else {
        1 + dot_pos(s.drop_first())
    }
}

pub open spec fn all_digits(s: Seq<char>) -> bool {
    forall|i: int| 0 <= i < s.len() ==> is_digit(#[trigger] s[i])
}

/// The base-ten value of a digit string.
pub open spec fn digits_value(s: Seq<char>) -> int
    decreases s.len(),
{
    if s.len() == 0 {
        0
    } else {
        10 * digits_value(s.drop_last()) + digit_val(s.last())
    }
}

/// The accepted grammar: one or more digits, optionally followed by
/// a decimal point and any run of further digits.
pub open spec fn dec_valid(s: Seq<char>) -> bool {
    let d = dot_pos(s);
    d >= 1 && all_digits(s.take(d)) && (d == s.len() || all_digits(s.skip(d + 1)))
}

/// The whole-unit value of a well-formed decimal string: fractional
/// digits are truncated away.
pub open spec fn dec_value(s: Seq<char>) -> int {
    digits_value(s.take(dot_pos(s)))
}

/// Characterization of `dot_pos`: it is the index of the first
/// decimal point, or the length when there is none.
pub proof fn lemma_dot_pos(s: Seq<char>)
    ensures
        0 <= dot_pos(s) <= s.len(),
        dot_pos(s) < s.len() ==> s[dot_pos(s)] == '.',
        forall|j: int| 0 <= j < dot_pos(s) ==> s[j] != '.',
    decreases s.len(),
{
    if s.len() > 0 && s[0] != '.' {
        lemma_dot_pos(s.drop_first());
        assert forall|j: int| 0 <= j < dot_pos(s) implies s[j] != '.' by {
            if j > 0 {
                assert(s.drop_first()[j - 1] == s[j]);
                assert(s.drop_first()[j - 1] != '.');
            }
        }
    }
}

pub proof fn lemma_digits_value_nonneg(s: Seq<char>)
    requires
        all_digits(s),
    ensures
        digits_value(s) >= 0,
    decreases s.len(),
{
    if s.len() > 0 {
        assert(all_digits(s.drop_last())) by {
            assert(forall|j: int| 0 <= j < s.len() - 1 ==> s.drop_last()[j] == s[j]);
        }
        lemma_digits_value_nonneg(s.drop_last());
    }
}

/// A digit string is worth at least any of its prefixes.
pub proof fn lemma_digits_value_mono(s: Seq<char>, i: int, k: int)
    requires
        0 <= i <= k <= s.len(),
        all_digits(s.take(k)),
    ensures
        digits_value(s.take(i)) <= digits_value(s.take(k)),
    decreases k - i,
{
    if i < k {
        lemma_digits_value_mono(s, i, k - 1);
        assert(all_digits(s.take(k - 1))) by {
            assert(forall|j: int| 0 <= j < k - 1 ==> s.take(k - 1)[j] == s.take(k)[j]);
        }
        lemma_digits_value_nonneg(s.take(k - 1));
        assert(s.take(k).drop_last() =~= s.take(k - 1));
        assert(digits_value(s.take(k)) == 10 * digits_value(s.take(k - 1)) + digit_val(
            s.take(k)[k - 1],
        ));
        assert(is_digit(s.take(k)[k - 1]));
    }
}

/// Parses a venue-supplied decimal string to its whole-unit integer
/// key: the digits before the decimal point, with fractional digits
/// validated and truncated. Fails exactly when the string does not
/// match the grammar or its whole-unit part exceeds `u64::MAX`.
pub fn parse_amount(s: &str) -> (r: Result<u64, DecodeError>)
    ensures
        match r {
            Ok(v) => dec_valid(s@) && dec_value(s@) <= u64::MAX as int && v as int == dec_value(
                s@,
            ),
            Err(e) => e == DecodeError::BadNumber && !(dec_valid(s@) && dec_value(s@)
                <= u64::MAX as int),
        },
{
    proof {
        lemma_dot_pos(s@);
    }
    let n = s.unicode_len();
    if n == 0 {
        return Err(DecodeError::BadNumber);
    }
    let mut i: usize = 0;
    let mut val: u64 = 0;
    let mut dotted: bool = false;
    let ghost d = dot_pos(s@);
    while i < n && !dotted
        invariant
            i <= n,
            n == s@.len(),
            d == dot_pos(s@),
            0 <= d <= n,
            d < n ==> s@[d] == '.',
            forall|j: int| 0 <= j < d ==> s@[j] != '.',
            forall|j: int| 0 <= j < i ==> s@[j] != '.' && is_digit(#[trigger] s@[j]),
            val as int == digits_value(s@.take(i as int)),
            dotted ==> i < n && s@[i as int] == '.',
        decreases n - i + (if dotted {
            0int
        } else {
            1int
        }),
    {
        let c = s.get_char(i);
        if c == '.' {
            dotted = true;
            continue;
        }
        let cu: u32 = c as u32;
        if cu < 48 || cu > 57 {
            proof {
                // The offending character sits at or before the dot,
                // so no well-formed reading exists.
                assert((i as int) <= d) by {
                    if d < i as int {
                        assert(s@[d] == '.');
                    }
                }
                if dec_valid(s@) {
                    assert(is_digit(s@.take(d)[i as int]));
                }
            }
            return Err(DecodeError::BadNumber);
        }
        let dv: u64 = (cu - 48) as u64;
        proof {
            assert((i as int) < d) by {
                if d <= i as int {
                    assert(s@[d] == '.');
                }
            }
        }
        if val > (u64::MAX - dv) / 10 {
            proof {
                let q = ((u64::MAX - dv) / 10) as int;
                lemma_fundamental_div_mod(u64::MAX - dv, 10);
                lemma_mod_division_less_than_divisor(u64::MAX - dv, 10);
                lemma_mul_inequality(q + 1, val as int, 10);
                assert((q + 1) * 10 == q * 10 + 10);
                assert(10 * q == q * 10) by (nonlinear_arith);
                assert(val as int * 10 >= u64::MAX - dv + 1);
                assert(s@.take(i + 1 as int).drop_last() =~= s@.take(i as int));
                assert(s@.take(i + 1 as int).last() == s@[i as int]);
                assert(digits_value(s@.take(i + 1 as int)) == 10 * (val as int) + dv);
                assert(10 * (val as int) == val as int * 10) by (nonlinear_arith);
                if dec_valid(s@) {
                    lemma_digits_value_mono(s@, i + 1, d);
                    assert(dec_value(s@) > u64::MAX as int);
                }
            }
            return Err(DecodeError::BadNumber);
        }
        proof {
            let q = ((u64::MAX - dv) / 10) as int;
            lemma_fundamental_div_mod(u64::MAX - dv, 10);
            lemma_mod_division_less_than_divisor(u64::MAX - dv, 10);
            lemma_mul_inequality(val as int, q, 10);
            assert(val as int * 10 <= q * 10);
            assert(val as int * 10 + dv <= u64::MAX);
            assert(10 * (val as int) == val as int * 10) by (nonlinear_arith);
            assert(s@.take(i + 1 as int).drop_last() =~= s@.take(i as int));
            assert(s@.take(i + 1 as int).last() == s@[i as int]);
        }
        val = val * 10 + dv;
        i = i + 1;
    }
    // Here either the whole string was digits, or a decimal point
    // stands at position i.
    proof {
        assert(i as int == d) by {
            if dotted {
                if d < i as int {
                    assert(s@[d] == '.');
                } else if d > i as int {
                    assert(s@[i as int] != '.');
                }
            } else {
                if d < i as int {
                    assert(s@[d] == '.');
                }
            }
        }
    }
    if i == 0 {
        // The string starts with the decimal point: no whole part.
        return Err(DecodeError::BadNumber);
    }
    proof {
        assert(all_digits(s@.take(d))) by {
            assert(forall|j: int| 0 <= j < d ==> s@.take(d)[j] == s@[j]);
        }
    }
    if i == n {
        proof {
            assert(dec_valid(s@));
        }
        return Ok(val);
    }
    // Validate the fractional digits; their value is truncated away.
    let mut j: usize = i + 1;
    while j < n
        invariant
            i as int == d,
            d == dot_pos(s@),
            i + 1 <= j <= n,
            n == s@.len(),
            forall|t: int| i + 1 <= t < j ==> is_digit(#[trigger] s@[t]),
        decreases n - j,
    {
        let c = s.get_char(j);
        let cu: u32 = c as u32;
        if cu < 48 || cu > 57 {
            proof {
                if dec_valid(s@) {
                    assert(s@.skip(d + 1)[j - d - 1] == s@[j as int]);
                    assert(is_digit(s@.skip(d + 1)[j - d - 1]));
                }
            }
            return Err(DecodeError::BadNumber);
        }
        j = j + 1;
    }
    proof {
        assert(all_digits(s@.skip(d + 1))) by {
            assert(forall|t: int|
                0 <= t < s@.skip(d + 1).len() ==> #[trigger] s@.skip(d + 1)[t] == s@[t + d + 1]);
        }
        assert(dec_valid(s@));
    }
    Ok(val)
}

} // verus!
