//! Integer literals: decimal, octal with a leading `0`, hexadecimal after
//! `0x` or `0X`.

use vstd::prelude::*;
use crate::token::{IntegerFault, LexicalError};

verus! {

/// The value of `b` as a digit, or 36 where it is none in any radix up to 16.
pub open spec fn digit_value(b: u8) -> int {
    if 48 <= b <= 57 {
        b - 48
    } else if 97 <= b <= 102 {
        b - 87
    } else if 65 <= b <= 70 {
        b - 55
    } else {
        36
    }
}

/// The number that `digits` write in `radix`, most significant digit first;
/// `None` where a byte is no digit of that radix. No digits write zero.
pub open spec fn radix_value(digits: Seq<u8>, radix: int) -> Option<int>
    decreases digits.len(),
{
    if digits.len() == 0 {
        Some(0)
    } else {
        match radix_value(digits.drop_last(), radix) {
            Some(v) => if digit_value(digits.last()) < radix {
                Some(v * radix + digit_value(digits.last()))
            } else {
                None
            },
            None => None,
        }
    }
}

/// Whether `text` opens with `0x` or `0X`.
pub open spec fn has_hex_prefix(text: Seq<u8>) -> bool {
    text.len() >= 2 && text[0] == 48 && (text[1] == 120 || text[1] == 88)
}

/// The number that the literal `text` writes: after `0x` or `0X` at least one
/// hexadecimal digit; after another leading `0` octal digits, or nothing;
/// otherwise at least one decimal digit.
pub open spec fn literal_value(text: Seq<u8>) -> Option<int> {
    if has_hex_prefix(text) {
        if text.len() == 2 {
            None
        } else {
            radix_value(text.subrange(2, text.len() as int), 16)
        }
    } else if text.len() >= 1 && text[0] == 48 {
        radix_value(text.subrange(1, text.len() as int), 8)
    } else if text.len() == 0 {
        None
    } else {
        radix_value(text, 10)
    }
}

/// What is wrong with `digits` as a number in `radix`, at the first digit
/// from the left where something is: a byte that is no digit of the radix, or
/// a value that has grown above `i64::MAX`. No digits have no fault.
pub open spec fn digits_fault(digits: Seq<u8>, radix: int) -> Option<IntegerFault>
    decreases digits.len(),
{
    if digits.len() == 0 {
        None
    } else {
        match digits_fault(digits.drop_last(), radix) {
            Some(f) => Some(f),
            None => if digit_value(digits.last()) >= radix {
                Some(IntegerFault::InvalidDigit)
            } else if radix_value(digits, radix) matches Some(v) && v > i64::MAX {
                Some(IntegerFault::PosOverflow)
            } else {
                None
            },
        }
    }
}

/// What is wrong with the literal `text`: no digit at all or none after
/// `0x`, or else the fault of its digits in its radix.
pub open spec fn literal_fault(text: Seq<u8>) -> Option<IntegerFault> {
    if has_hex_prefix(text) {
        if text.len() == 2 {
            Some(IntegerFault::Empty)
        } else {
            digits_fault(text.subrange(2, text.len() as int), 16)
        }
    } else if text.len() >= 1 && text[0] == 48 {
        digits_fault(text.subrange(1, text.len() as int), 8)
    } else if text.len() == 0 {
        Some(IntegerFault::Empty)
    } else {
        digits_fault(text, 10)
    }
}

/// Digits have no fault exactly where they write a number up to `i64::MAX`.
pub proof fn lemma_digits_fault(digits: Seq<u8>, radix: int)
    requires
        radix >= 1,
    ensures
        digits_fault(digits, radix) is None <==> (radix_value(digits, radix) matches Some(v) && v
            <= i64::MAX),
    decreases digits.len(),
{
    if digits.len() > 0 {
        let shorter = digits.drop_last();
        lemma_digits_fault(shorter, radix);
        if radix_value(digits, radix) is Some {
            assert(shorter =~= digits.subrange(0, digits.len() - 1));
            lemma_radix_value_prefix(digits, radix, digits.len() - 1);
        }
    }
}

/// A literal has no fault exactly where it writes a number up to `i64::MAX`.
pub proof fn lemma_literal_fault(text: Seq<u8>)
    ensures
        literal_fault(text) is None <==> (literal_value(text) matches Some(v) && v <= i64::MAX),
{
    if has_hex_prefix(text) {
        lemma_digits_fault(text.subrange(2, text.len() as int), 16);
    } else if text.len() >= 1 && text[0] == 48 {
        lemma_digits_fault(text.subrange(1, text.len() as int), 8);
    } else {
        lemma_digits_fault(text, 10);
    }
}

/// A fault in the beginning of a run of digits is the fault of the run.
pub proof fn lemma_digits_fault_prefix(digits: Seq<u8>, radix: int, n: int)
    requires
        0 <= n <= digits.len(),
        digits_fault(digits.subrange(0, n), radix) is Some,
    ensures
        digits_fault(digits, radix) == digits_fault(digits.subrange(0, n), radix),
    decreases digits.len() - n,
{
    if n == digits.len() {
        assert(digits.subrange(0, n) =~= digits);
    } else {
        let longer = digits.subrange(0, n + 1);
        assert(longer.drop_last() =~= digits.subrange(0, n));
        lemma_digits_fault_prefix(digits, radix, n + 1);
    }
}

/// A longer run of digits writes no smaller a number than its beginning.
pub proof fn lemma_radix_value_prefix(digits: Seq<u8>, radix: int, n: int)
    requires
        0 <= n <= digits.len(),
        radix >= 1,
        radix_value(digits, radix) is Some,
    ensures
        radix_value(digits.subrange(0, n), radix) is Some,
        0 <= radix_value(digits.subrange(0, n), radix)->0 <= radix_value(digits, radix)->0,
    decreases digits.len() - n,
{
    if n == digits.len() {
        assert(digits.subrange(0, n) =~= digits);
        lemma_radix_value_nonnegative(digits, radix);
    } else {
        let shorter = digits.drop_last();
        lemma_radix_value_prefix(shorter, radix, n);
        assert(shorter.subrange(0, n) =~= digits.subrange(0, n));
        let v = radix_value(shorter, radix)->0;
        lemma_radix_value_nonnegative(shorter, radix);
        assert(v * radix >= v) by (nonlinear_arith)
            requires
                v >= 0,
                radix >= 1,
        ;
    }
}

/// Digits write no negative number.
pub proof fn lemma_radix_value_nonnegative(digits: Seq<u8>, radix: int)
    requires
        radix >= 1,
        radix_value(digits, radix) is Some,
    ensures
        radix_value(digits, radix)->0 >= 0,
    decreases digits.len(),
{
    if digits.len() > 0 {
        lemma_radix_value_nonnegative(digits.drop_last(), radix);
        let v = radix_value(digits.drop_last(), radix)->0;
        assert(v * radix >= 0) by (nonlinear_arith)
            requires
                v >= 0,
                radix >= 1,
        ;
    }
}

/// The value of one byte as a digit of `radix`, if it is one.
fn digit_of(b: u8, radix: u8) -> (d: Option<u8>)
    requires
        radix <= 16,
    ensures
        d == if digit_value(b) < radix {
            Some(digit_value(b) as u8)
        } else {
            None::<u8>
        },
{
    let v: u8 = if 48 <= b && b <= 57 {
        b - 48
    } else if 97 <= b && b <= 102 {
        b - 87
    } else if 65 <= b && b <= 70 {
        b - 55
    } else {
        36
    };
    if v < radix {
        Some(v)
    } else {
        None
    }
}

/// Reads the digits `text[start..]` in `radix`. Fails at the first byte that
/// is no digit of the radix, or where the number first exceeds `i64::MAX`.
fn parse_digits(text: &[u8], start: usize, radix: u8) -> (r: Result<i64, IntegerFault>)
    requires
        start <= text.len(),
        1 <= radix <= 16,
    ensures
        r == match digits_fault(text@.subrange(start as int, text.len() as int), radix as int) {
            Some(f) => Err::<i64, IntegerFault>(f),
            None => Ok(
                radix_value(text@.subrange(start as int, text.len() as int), radix as int)->0 as i64,
            ),
        },
{
    let ghost digits = text@.subrange(start as int, text.len() as int);
    let mut acc: i64 = 0;
    let mut i: usize = start;
    while i < text.len()
        invariant
            start <= i <= text.len(),
            1 <= radix <= 16,
            digits == text@.subrange(start as int, text.len() as int),
            digits_fault(digits.subrange(0, i - start), radix as int) is None,
            radix_value(digits.subrange(0, i - start), radix as int) == Some(acc as int),
            acc >= 0,
        decreases text.len() - i,
    {
        let ghost seen = digits.subrange(0, i - start);
        let ghost next = digits.subrange(0, i + 1 - start);
        proof {
            assert(next.drop_last() =~= seen);
            assert(next.last() == text@[i as int]);
        }
        let d = match digit_of(text[i], radix) {
            Some(d) => d,
            None => {
                proof {
                    lemma_digits_fault_prefix(digits, radix as int, i + 1 - start);
                }
                return Err(IntegerFault::InvalidDigit);
            },
        };
        proof {
            assert(acc * radix >= 0) by (nonlinear_arith)
                requires
                    acc >= 0,
                    radix >= 1,
            ;
        }
        let shifted = match acc.checked_mul(radix as i64) {
            Some(m) => m,
            None => {
                proof {
                    lemma_digits_fault_prefix(digits, radix as int, i + 1 - start);
                }
                return Err(IntegerFault::PosOverflow);
            },
        };
        acc = match shifted.checked_add(d as i64) {
            Some(a) => a,
            None => {
                proof {
                    lemma_digits_fault_prefix(digits, radix as int, i + 1 - start);
                }
                return Err(IntegerFault::PosOverflow);
            },
        };
        i = i + 1;
    }
    proof {
        assert(digits.subrange(0, i - start) =~= digits);
    }
    Ok(acc)
}

/// Reads an integer literal. The radix follows from how the text begins:
/// `0x` or `0X` is hexadecimal, another leading `0` is octal, anything else
/// is decimal. A bare `0` is zero. A text that is no literal is refused with
/// its first fault from the left.
pub fn parse_int_literal(text: &[u8]) -> (r: Result<i64, LexicalError>)
    ensures
        r == match literal_fault(text@) {
            Some(f) => Err::<i64, LexicalError>(LexicalError::InvalidInteger(f)),
            None => Ok(literal_value(text@)->0 as i64),
        },
        r is Ok <==> (literal_value(text@) matches Some(v) && v <= i64::MAX),
{
    let n = text.len();
    let parsed = if n >= 2 && text[0] == 48 && (text[1] == 120 || text[1] == 88) {
        if n == 2 {
            Err(IntegerFault::Empty)
        } else {
            parse_digits(text, 2, 16)
        }
    } else if n >= 1 && text[0] == 48 {
        parse_digits(text, 1, 8)
    } else if n == 0 {
        Err(IntegerFault::Empty)
    } else {
        proof {
            assert(text@.subrange(0, n as int) =~= text@);
        }
        parse_digits(text, 0, 10)
    };
    proof {
        lemma_literal_fault(text@);
    }
    match parsed {
        Ok(v) => Ok(v),
        Err(fault) => Err(LexicalError::from(fault)),
    }
}

} // verus!
