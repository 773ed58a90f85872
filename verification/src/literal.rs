//! Reading of integer literals in the four radices.

use vstd::prelude::*;
use vstd::string::StringSliceAdditionalSpecFns;

verus! {

/// The numeric base of a literal as it is written in an expression.
#[derive(Clone, Copy, Debug, PartialEq, Eq, Structural)]
pub enum Radix {
    Bin,
    Oct,
    Dec,
    Hex,
}

/// Why a literal has no value.
#[derive(Clone, Copy, Debug, PartialEq, Eq, Structural)]
pub enum NumericError {
    /// A character is no digit of the radix, there is no digit at all, or the
    /// value does not fit in 64 bits.
    Malformed,
}

/// The value of one digit, written as `0` to `9`, `a` to `z` or `A` to `Z`.
pub open spec fn digit_value(b: u8) -> Option<int> {
    if '0' as u8 <= b <= '9' as u8 {
        Some(b - '0' as u8)
    } else if 'a' as u8 <= b <= 'z' as u8 {
        Some(b - 'a' as u8 + 10)
    } else if 'A' as u8 <= b <= 'Z' as u8 {
        Some(b - 'A' as u8 + 10)
    } else {
        None
    }
}

/// Whether `b` is a digit of the given base.
pub open spec fn is_digit_of(b: u8, base: int) -> bool {
    digit_value(b) is Some && digit_value(b)->0 < base
}

/// Whether every byte of `text` is a digit of the given base.
pub open spec fn all_digits(text: Seq<u8>, base: int) -> bool {
    forall|i: int| 0 <= i < text.len() ==> is_digit_of(#[trigger] text[i], base)
}

/// The number that the digits of `text` stand for, most significant first.
pub open spec fn number_of(text: Seq<u8>, base: int) -> int
    decreases text.len(),
{
    if text.len() == 0 {
        0
    } else {
        number_of(text.drop_last(), base) * base + (match digit_value(text.last()) {
            Some(d) => d,
            None => 0,
        })
    }
}

/// `text` without its `_` separators.
pub open spec fn without_separators(text: Seq<u8>) -> Seq<u8>
    decreases text.len(),
{
    if text.len() == 0 {
        text
    } else if text.last() == '_' as u8 {
        without_separators(text.drop_last())
    } else {
        without_separators(text.drop_last()).push(text.last())
    }
}

/// Whether `text` starts with a sign.
pub open spec fn has_sign(text: Seq<u8>) -> bool {
    text.len() > 0 && (text[0] == '-' as u8 || text[0] == '+' as u8)
}

/// The value of a literal without prefix and separators: an optional sign
/// and at least one digit. `None` where a byte is no digit of the base, where
/// there is no digit, and where the value is outside `i64`.
pub open spec fn decoded(text: Seq<u8>, base: int) -> Option<i64> {
    let body = if has_sign(text) {
        text.skip(1)
    } else {
        text
    };
    let value = if has_sign(text) && text[0] == '-' as u8 {
        -number_of(body, base)
    } else {
        number_of(body, base)
    };
    if body.len() > 0 && all_digits(body, base) && i64::MIN <= value <= i64::MAX {
        Some(value as i64)
    } else {
        None
    }
}

/// The value of a literal as it stands in an expression: the two bytes of
/// the prefix are dropped unless the radix is decimal, then the separators.
pub open spec fn literal_value(text: Seq<u8>, radix: Radix) -> Option<i64> {
    if radix != Radix::Dec && text.len() < 2 {
        None
    } else {
        let digits = if radix != Radix::Dec {
            text.skip(2)
        } else {
            text
        };
        decoded(without_separators(digits), radix.base())
    }
}

impl Radix {
    /// The base as a number.
    pub open spec fn base(self) -> int {
        match self {
            Radix::Bin => 2,
            Radix::Oct => 8,
            Radix::Dec => 10,
            Radix::Hex => 16,
        }
    }

    /// The base as a number.
    pub fn numeric_radix(&self) -> (r: u32)
        ensures
            r == self.base(),
    {
        match self {
            Radix::Bin => 2,
            Radix::Oct => 8,
            Radix::Dec => 10,
            Radix::Hex => 16,
        }
    }
}

/// A longer run of digits stands for no smaller a number.
pub proof fn lemma_number_grows(text: Seq<u8>, base: int, k: int)
    requires
        base >= 1,
        0 <= k <= text.len(),
    ensures
        0 <= number_of(text.take(k), base) <= number_of(text, base),
    decreases text.len(),
{
    if k == text.len() {
        assert(text.take(k) == text);
        if text.len() > 0 {
            lemma_number_grows(text.drop_last(), base, k - 1);
            assert(text.drop_last().take(k - 1) == text.drop_last());
            let x = number_of(text.drop_last(), base);
            assert(x * base >= 0) by (nonlinear_arith)
                requires
                    x >= 0,
                    base >= 1,
            ;
        }
    } else {
        lemma_number_grows(text.drop_last(), base, k);
        assert(text.drop_last().take(k) == text.take(k));
        let x = number_of(text.drop_last(), base);
        assert(x * base >= x) by (nonlinear_arith)
            requires
                x >= 0,
                base >= 1,
        ;
    }
}

/// The value of one digit of the given base, if `b` is one.
fn digit_of(b: u8, base: u32) -> (r: Option<u32>)
    requires
        2 <= base <= 36,
    ensures
        r is Some <==> is_digit_of(b, base as int),
        r is Some ==> r->0 == digit_value(b)->0 && r->0 < base,
{
    let d: u32 = if '0' as u8 <= b && b <= '9' as u8 {
        (b - '0' as u8) as u32
    } else if 'a' as u8 <= b && b <= 'z' as u8 {
        (b - 'a' as u8) as u32 + 10
    } else if 'A' as u8 <= b && b <= 'Z' as u8 {
        (b - 'A' as u8) as u32 + 10
    } else {
        return None;
    };
    if d < base {
        Some(d)
    } else {
        None
    }
}

/// The value of a literal without prefix and separators, given as bytes.
pub fn decode_digits(text: &[u8], radix: Radix) -> (r: Result<i64, NumericError>)
    ensures
        r == (match decoded(text@, radix.base()) {
            Some(v) => Ok::<i64, NumericError>(v),
            None => Err(NumericError::Malformed),
        }),
{
    let base = radix.numeric_radix();
    let n = text.len();
    let signed = n > 0 && (text[0] == '-' as u8 || text[0] == '+' as u8);
    let negative = signed && text[0] == '-' as u8;
    let start: usize = if signed {
        1
    } else {
        0
    };
    let ghost body = text@.skip(start as int);
    proof {
        assert(signed == has_sign(text@));
        assert(text@.skip(0) =~= text@);
    }
    if start == n {
        return Err(NumericError::Malformed);
    }
    let limit: u64 = if negative {
        0x8000_0000_0000_0000
    } else {
        0x7fff_ffff_ffff_ffff
    };
    let mut acc: u64 = 0;
    let mut i: usize = start;
    while i < n
        invariant
            start <= i <= n,
            n == text@.len(),
            2 <= base <= 16,
            base == radix.base(),
            body == text@.skip(start as int),
            signed == has_sign(text@),
            negative == (signed && text@[0] == '-' as u8),
            start == (if signed {
                1int
            } else {
                0int
            }),
            text@.skip(0) == text@,
            limit == (if negative {
                0x8000_0000_0000_0000u64
            } else {
                0x7fff_ffff_ffff_ffffu64
            }),
            acc <= limit,
            acc == number_of(body.take(i - start), base as int),
            all_digits(body.take(i - start), base as int),
        decreases n - i,
    {
        let ghost seen = body.take(i - start);
        let ghost next = body.take(i - start + 1);
        proof {
            assert(next.drop_last() == seen);
            assert(next.last() == text@[i as int]);
        }
        let d = match digit_of(text[i], base) {
            Some(d) => d,
            None => {
                assert(body[i - start] == text@[i as int]);
                assert(!is_digit_of(body[i - start], base as int));
                return Err(NumericError::Malformed);
            },
        };
        assert(acc * base + d <= 0x8000_0000_0000_0000 * 16 + 16) by (nonlinear_arith)
            requires
                acc <= 0x8000_0000_0000_0000,
                base <= 16,
                d < base,
        ;
        let wide: u128 = acc as u128 * base as u128 + d as u128;
        if wide > limit as u128 {
            proof {
                assert(number_of(next, base as int) == wide);
                if all_digits(body, base as int) {
                    assert(body.take(i - start + 1) == next);
                    lemma_number_grows(body, base as int, i - start + 1);
                }
            }
            return Err(NumericError::Malformed);
        }
        acc = wide as u64;
        i += 1;
        proof {
            assert forall|k: int| 0 <= k < next.len() implies is_digit_of(
                #[trigger] next[k],
                base as int,
            ) by {
                if k < seen.len() {
                    assert(next[k] == seen[k]);
                }
            }
        }
    }
    assert(body.take(i - start) == body);
    if negative {
        if acc == 0x8000_0000_0000_0000 {
            Ok(i64::MIN)
        } else {
            Ok(-(acc as i64))
        }
    } else {
        Ok(acc as i64)
    }
}

/// `text` without its `_` separators.
pub fn strip_separators(text: &[u8]) -> (r: Vec<u8>)
    ensures
        r@ == without_separators(text@),
{
    let mut out: Vec<u8> = Vec::new();
    let mut i: usize = 0;
    while i < text.len()
        invariant
            i <= text.len(),
            out@ == without_separators(text@.take(i as int)),
        decreases text.len() - i,
    {
        proof {
            assert(text@.take(i + 1).drop_last() == text@.take(i as int));
        }
        if text[i] != '_' as u8 {
            out.push(text[i]);
        }
        i += 1;
    }
    assert(text@.take(i as int) == text@);
    out
}

/// The value of a literal without prefix and separators: an optional sign,
/// then digits of the radix.
pub fn decode_literal(text: &str, radix: Radix) -> (r: Result<i64, NumericError>)
    ensures
        r == (match decoded(text.spec_bytes(), radix.base()) {
            Some(v) => Ok::<i64, NumericError>(v),
            None => Err(NumericError::Malformed),
        }),
{
    decode_digits(text.as_bytes(), radix)
}

/// The value of a literal as it stands in an expression, given as bytes.
pub fn parse_num_bytes(text: &[u8], radix: Radix) -> (r: Result<i64, NumericError>)
    ensures
        r == (match literal_value(text@, radix) {
            Some(v) => Ok::<i64, NumericError>(v),
            None => Err(NumericError::Malformed),
        }),
{
    let skip: usize = match radix {
        Radix::Dec => 0,
        _ => 2,
    };
    if text.len() < skip {
        return Err(NumericError::Malformed);
    }
    let digits = vstd::slice::slice_subrange(text, skip, text.len());
    assert(digits@ =~= text@.skip(skip as int));
    assert(text@.skip(0) =~= text@);
    let num = strip_separators(digits);
    decode_digits(num.as_slice(), radix)
}

/// The value of a literal as it stands in an expression, with its prefix
/// and its separators.
pub fn parse_num(s: &str, radix: Radix) -> (r: Result<i64, NumericError>)
    ensures
        r == (match literal_value(s.spec_bytes(), radix) {
            Some(v) => Ok::<i64, NumericError>(v),
            None => Err(NumericError::Malformed),
        }),
{
    parse_num_bytes(s.as_bytes(), radix)
}

} // verus!
