//! The tokens of a line, read from its bytes.

use vstd::prelude::*;
use crate::expression::Op;
use crate::format::FormatRadix;
use crate::literal::{is_digit_of, literal_value, parse_num_bytes, Radix};

verus! {

/// Whether `b` is a blank.
pub open spec fn is_space(b: u8) -> bool {
    b == ' ' as u8 || b == '\t' as u8
}

/// Whether the byte at `pos` is `b`.
pub open spec fn has_byte(s: Seq<u8>, pos: int, b: u8) -> bool {
    0 <= pos < s.len() && s[pos] == b
}

/// Whether the two bytes at `pos` are `a` and `b`.
pub open spec fn has_pair(s: Seq<u8>, pos: int, a: u8, b: u8) -> bool {
    has_byte(s, pos, a) && has_byte(s, pos + 1, b)
}

/// Whether the three bytes at `pos` are `a`, `b` and `c`.
pub open spec fn has_triple(s: Seq<u8>, pos: int, a: u8, b: u8, c: u8) -> bool {
    has_byte(s, pos, a) && has_byte(s, pos + 1, b) && has_byte(s, pos + 2, c)
}

/// The first offset from `pos` on at which no blank stands.
pub open spec fn skip_spaces(s: Seq<u8>, pos: int) -> int
    decreases s.len() - pos,
{
    if 0 <= pos < s.len() && is_space(s[pos]) {
        skip_spaces(s, pos + 1)
    } else {
        pos
    }
}

/// Whether `b` may stand inside a literal of the given base: a digit of the
/// base, or a separator.
pub open spec fn is_literal_byte(b: u8, base: int) -> bool {
    is_digit_of(b, base) || b == '_' as u8
}

/// The end of the run of digits and separators that starts at `pos`.
pub open spec fn digit_run(s: Seq<u8>, pos: int, base: int) -> int
    decreases s.len() - pos,
{
    if 0 <= pos < s.len() && is_literal_byte(s[pos], base) {
        digit_run(s, pos + 1, base)
    } else {
        pos
    }
}

/// Whether a literal with the prefix `0` and `mark` starts at `pos`: the
/// prefix and at least one digit of the base.
pub open spec fn has_prefixed(s: Seq<u8>, pos: int, mark: u8, base: int) -> bool {
    has_pair(s, pos, '0' as u8, mark) && pos + 2 < s.len() && is_digit_of(s[pos + 2], base)
}

/// The literal that starts at `pos`: its radix and its end. A prefixed
/// literal is its prefix, a digit, then digits and separators; a decimal one
/// is a digit, then digits and separators.
pub open spec fn literal_at(s: Seq<u8>, pos: int) -> Option<(Radix, int)> {
    if has_prefixed(s, pos, 'x' as u8, 16) {
        Some((Radix::Hex, digit_run(s, pos + 3, 16)))
    } else if has_prefixed(s, pos, 'o' as u8, 8) {
        Some((Radix::Oct, digit_run(s, pos + 3, 8)))
    } else if has_prefixed(s, pos, 'b' as u8, 2) {
        Some((Radix::Bin, digit_run(s, pos + 3, 2)))
    } else if 0 <= pos < s.len() && is_digit_of(s[pos], 10) {
        Some((Radix::Dec, digit_run(s, pos + 1, 10)))
    } else {
        None
    }
}

/// The number that starts at `pos`: its value, if it has one, and its end.
pub open spec fn number_at(s: Seq<u8>, pos: int) -> Option<(Option<i64>, int)> {
    match literal_at(s, pos) {
        Some((radix, end)) => Some((literal_value(s.subrange(pos, end), radix), end)),
        None => None,
    }
}

/// The operator that starts at `pos`, and its end.
pub open spec fn operator_at(s: Seq<u8>, pos: int) -> Option<(Op, int)> {
    if has_pair(s, pos, '<' as u8, '<' as u8) {
        Some((Op::LShift, pos + 2))
    } else if has_pair(s, pos, '>' as u8, '>' as u8) {
        Some((Op::RShift, pos + 2))
    } else if has_byte(s, pos, '+' as u8) {
        Some((Op::Add, pos + 1))
    } else if has_byte(s, pos, '-' as u8) {
        Some((Op::Sub, pos + 1))
    } else if has_byte(s, pos, '*' as u8) {
        Some((Op::Mul, pos + 1))
    } else if has_byte(s, pos, '/' as u8) {
        Some((Op::Div, pos + 1))
    } else if has_byte(s, pos, '%' as u8) {
        Some((Op::Rem, pos + 1))
    } else if has_byte(s, pos, '&' as u8) {
        Some((Op::And, pos + 1))
    } else if has_byte(s, pos, '|' as u8) {
        Some((Op::Or, pos + 1))
    } else if has_byte(s, pos, '^' as u8) {
        Some((Op::Xor, pos + 1))
    } else {
        None
    }
}

/// Whether `b` is an ASCII letter.
pub open spec fn is_letter(b: u8) -> bool {
    ('a' as u8 <= b <= 'z' as u8) || ('A' as u8 <= b <= 'Z' as u8)
}

/// Whether `b` may stand inside an identifier: a letter, a digit or `_`.
pub open spec fn is_word_byte(b: u8) -> bool {
    is_letter(b) || ('0' as u8 <= b <= '9' as u8) || b == '_' as u8
}

/// The end of the run of identifier bytes that starts at `pos`.
pub open spec fn word_run(s: Seq<u8>, pos: int) -> int
    decreases s.len() - pos,
{
    if 0 <= pos < s.len() && is_word_byte(s[pos]) {
        word_run(s, pos + 1)
    } else {
        pos
    }
}

/// The end of the identifier that starts at `pos`: a letter, then letters,
/// digits and `_`. It is `pos` itself where no identifier starts.
pub open spec fn identifier_end(s: Seq<u8>, pos: int) -> int {
    if 0 <= pos < s.len() && is_letter(s[pos]) {
        word_run(s, pos + 1)
    } else {
        pos
    }
}

/// The radix whose name stands at `pos`: `dec`, `hex`, `oct` or `bin`.
pub open spec fn radix_at(s: Seq<u8>, pos: int) -> Option<FormatRadix> {
    if has_triple(s, pos, 'd' as u8, 'e' as u8, 'c' as u8) {
        Some(FormatRadix::Decimal)
    } else if has_triple(s, pos, 'o' as u8, 'c' as u8, 't' as u8) {
        Some(FormatRadix::Octal)
    } else if has_triple(s, pos, 'h' as u8, 'e' as u8, 'x' as u8) {
        Some(FormatRadix::Hex)
    } else if has_triple(s, pos, 'b' as u8, 'i' as u8, 'n' as u8) {
        Some(FormatRadix::Binary)
    } else {
        None
    }
}

/// Whether what was found is what the grammar says: the same value, ending
/// at the same offset, or nothing in both.
pub open spec fn agrees<T>(found: Option<(T, usize)>, wanted: Option<(T, int)>) -> bool {
    match wanted {
        Some((value, end)) => found matches Some((v, e)) && v == value && e == end,
        None => found is None,
    }
}

/// Blanks are skipped forwards, and not beyond the end.
pub proof fn lemma_skip_spaces(s: Seq<u8>, pos: int)
    requires
        0 <= pos <= s.len(),
    ensures
        pos <= skip_spaces(s, pos) <= s.len(),
        skip_spaces(s, skip_spaces(s, pos)) == skip_spaces(s, pos),
        skip_spaces(s, pos) < s.len() ==> !is_space(s[skip_spaces(s, pos)]),
    decreases s.len() - pos,
{
    if pos < s.len() && is_space(s[pos]) {
        lemma_skip_spaces(s, pos + 1);
    }
}

/// A run of digits ends between its start and the end of the line.
pub proof fn lemma_digit_run(s: Seq<u8>, pos: int, base: int)
    requires
        0 <= pos <= s.len(),
    ensures
        pos <= digit_run(s, pos, base) <= s.len(),
    decreases s.len() - pos,
{
    if pos < s.len() && is_literal_byte(s[pos], base) {
        lemma_digit_run(s, pos + 1, base);
    }
}

/// A run of identifier bytes ends between its start and the end of the line.
pub proof fn lemma_word_run(s: Seq<u8>, pos: int)
    requires
        0 <= pos <= s.len(),
    ensures
        pos <= word_run(s, pos) <= s.len(),
    decreases s.len() - pos,
{
    if pos < s.len() && is_word_byte(s[pos]) {
        lemma_word_run(s, pos + 1);
    }
}

/// A literal is not empty and ends within the line.
pub proof fn lemma_literal_at(s: Seq<u8>, pos: int)
    requires
        0 <= pos <= s.len(),
    ensures
        literal_at(s, pos) matches Some((_, end)) ==> pos < end <= s.len(),
{
    if pos + 3 <= s.len() {
        lemma_digit_run(s, pos + 3, 16);
        lemma_digit_run(s, pos + 3, 8);
        lemma_digit_run(s, pos + 3, 2);
    }
    if pos + 1 <= s.len() {
        lemma_digit_run(s, pos + 1, 10);
    }
}

/// Whether the byte at `pos` is `b`.
pub fn byte_is(s: &[u8], pos: usize, b: u8) -> (r: bool)
    ensures
        r == has_byte(s@, pos as int, b),
{
    pos < s.len() && s[pos] == b
}

/// Whether the two bytes at `pos` are `a` and `b`.
pub fn pair_is(s: &[u8], pos: usize, a: u8, b: u8) -> (r: bool)
    ensures
        r == has_pair(s@, pos as int, a, b),
{
    pos < s.len() && s[pos] == a && pos + 1 < s.len() && s[pos + 1] == b
}

/// Whether the three bytes at `pos` are `a`, `b` and `c`.
pub fn triple_is(s: &[u8], pos: usize, a: u8, b: u8, c: u8) -> (r: bool)
    ensures
        r == has_triple(s@, pos as int, a, b, c),
{
    pos < s.len() && s[pos] == a && pos + 1 < s.len() && s[pos + 1] == b && pos + 2 < s.len()
        && s[pos + 2] == c
}

/// The first offset from `pos` on at which no blank stands.
pub fn skip_blanks(s: &[u8], pos: usize) -> (r: usize)
    ensures
        r == skip_spaces(s@, pos as int),
        pos <= r,
        pos <= s.len() ==> r <= s.len(),
{
    let mut i: usize = pos;
    while i < s.len() && (s[i] == ' ' as u8 || s[i] == '\t' as u8)
        invariant
            pos <= i,
            pos <= s.len() ==> i <= s.len(),
            skip_spaces(s@, pos as int) == skip_spaces(s@, i as int),
        decreases s.len() - i,
    {
        i += 1;
    }
    i
}

/// Whether `b` is a digit of the base.
fn digit_in(b: u8, base: u32) -> (r: bool)
    requires
        2 <= base <= 16,
    ensures
        r == is_digit_of(b, base as int),
{
    let d: u32 = if '0' as u8 <= b && b <= '9' as u8 {
        (b - '0' as u8) as u32
    } else if 'a' as u8 <= b && b <= 'z' as u8 {
        (b - 'a' as u8) as u32 + 10
    } else if 'A' as u8 <= b && b <= 'Z' as u8 {
        (b - 'A' as u8) as u32 + 10
    } else {
        return false;
    };
    d < base
}

/// The end of the run of digits and separators that starts at `pos`.
fn run_of_digits(s: &[u8], pos: usize, base: u32) -> (r: usize)
    requires
        pos <= s.len(),
        2 <= base <= 16,
    ensures
        r == digit_run(s@, pos as int, base as int),
        pos <= r <= s.len(),
{
    let mut i: usize = pos;
    while i < s.len() && (s[i] == '_' as u8 || digit_in(s[i], base))
        invariant
            pos <= i <= s.len(),
            2 <= base <= 16,
            digit_run(s@, pos as int, base as int) == digit_run(s@, i as int, base as int),
        decreases s.len() - i,
    {
        i += 1;
    }
    i
}

/// Whether a literal with the prefix `0` and `mark` starts at `pos`.
fn prefixed_at(s: &[u8], pos: usize, mark: u8, base: u32) -> (r: bool)
    requires
        2 <= base <= 16,
    ensures
        r == has_prefixed(s@, pos as int, mark, base as int),
{
    pos < s.len() && pair_is(s, pos, '0' as u8, mark) && pos + 2 < s.len() && digit_in(
        s[pos + 2],
        base,
    )
}

/// The literal that starts at `pos`: its radix and its end.
pub fn read_literal(s: &[u8], pos: usize) -> (r: Option<(Radix, usize)>)
    ensures
        agrees(r, literal_at(s@, pos as int)),
        r matches Some((_, end)) ==> pos < end <= s.len(),
{
    if pos >= s.len() {
        None
    } else if prefixed_at(s, pos, 'x' as u8, 16) {
        Some((Radix::Hex, run_of_digits(s, pos + 3, 16)))
    } else if prefixed_at(s, pos, 'o' as u8, 8) {
        Some((Radix::Oct, run_of_digits(s, pos + 3, 8)))
    } else if prefixed_at(s, pos, 'b' as u8, 2) {
        Some((Radix::Bin, run_of_digits(s, pos + 3, 2)))
    } else if pos < s.len() && digit_in(s[pos], 10) {
        Some((Radix::Dec, run_of_digits(s, pos + 1, 10)))
    } else {
        None
    }
}

/// The number that starts at `pos`: its value, if it has one, and its end.
pub fn read_number(s: &[u8], pos: usize) -> (r: Option<(Option<i64>, usize)>)
    ensures
        agrees(r, number_at(s@, pos as int)),
        r matches Some((_, end)) ==> pos < end <= s.len(),
{
    match read_literal(s, pos) {
        Some((radix, end)) => {
            let text = vstd::slice::slice_subrange(s, pos, end);
            let value = match parse_num_bytes(text, radix) {
                Ok(v) => Some(v),
                Err(_) => None,
            };
            Some((value, end))
        },
        None => None,
    }
}

/// The operator that starts at `pos`, and its end.
pub fn read_operator(s: &[u8], pos: usize) -> (r: Option<(Op, usize)>)
    ensures
        agrees(r, operator_at(s@, pos as int)),
        r matches Some((_, end)) ==> pos < end <= s.len(),
{
    if pos >= s.len() {
        None
    } else if pair_is(s, pos, '<' as u8, '<' as u8) {
        Some((Op::LShift, pos + 2))
    } else if pair_is(s, pos, '>' as u8, '>' as u8) {
        Some((Op::RShift, pos + 2))
    } else if byte_is(s, pos, '+' as u8) {
        Some((Op::Add, pos + 1))
    } else if byte_is(s, pos, '-' as u8) {
        Some((Op::Sub, pos + 1))
    } else if byte_is(s, pos, '*' as u8) {
        Some((Op::Mul, pos + 1))
    } else if byte_is(s, pos, '/' as u8) {
        Some((Op::Div, pos + 1))
    } else if byte_is(s, pos, '%' as u8) {
        Some((Op::Rem, pos + 1))
    } else if byte_is(s, pos, '&' as u8) {
        Some((Op::And, pos + 1))
    } else if byte_is(s, pos, '|' as u8) {
        Some((Op::Or, pos + 1))
    } else if byte_is(s, pos, '^' as u8) {
        Some((Op::Xor, pos + 1))
    } else {
        None
    }
}

/// Whether `b` is an ASCII letter.
fn letter(b: u8) -> (r: bool)
    ensures
        r == is_letter(b),
{
    ('a' as u8 <= b && b <= 'z' as u8) || ('A' as u8 <= b && b <= 'Z' as u8)
}

/// The end of the identifier that starts at `pos`, or `pos` where none starts.
pub fn read_identifier(s: &[u8], pos: usize) -> (r: usize)
    ensures
        r == identifier_end(s@, pos as int),
        pos <= r,
        pos <= s.len() ==> r <= s.len(),
{
    if !(pos < s.len() && letter(s[pos])) {
        return pos;
    }
    let mut i: usize = pos + 1;
    while i < s.len() && (letter(s[i]) || ('0' as u8 <= s[i] && s[i] <= '9' as u8) || s[i]
        == '_' as u8)
        invariant
            pos < i <= s.len(),
            word_run(s@, pos + 1) == word_run(s@, i as int),
        decreases s.len() - i,
    {
        i += 1;
    }
    i
}

/// The radix whose name stands at `pos`.
pub fn parse_radix(s: &[u8], pos: usize) -> (r: Option<FormatRadix>)
    ensures
        r == radix_at(s@, pos as int),
{
    if triple_is(s, pos, 'd' as u8, 'e' as u8, 'c' as u8) {
        Some(FormatRadix::Decimal)
    } else if triple_is(s, pos, 'o' as u8, 'c' as u8, 't' as u8) {
        Some(FormatRadix::Octal)
    } else if triple_is(s, pos, 'h' as u8, 'e' as u8, 'x' as u8) {
        Some(FormatRadix::Hex)
    } else if triple_is(s, pos, 'b' as u8, 'i' as u8, 'n' as u8) {
        Some(FormatRadix::Binary)
    } else {
        None
    }
}

} // verus!
