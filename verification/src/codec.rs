//! The two directions of the radix codec together: what `OutputFormat`
//! writes, the literal reader reads back.

use vstd::prelude::*;
use vstd::string::StringSliceAdditionalSpecFns;
use vstd::utf8::{encode_utf8, is_ascii_chars, is_ascii_chars_encode_utf8};
use crate::climber::PrecedenceTable;
use crate::expression::{command_of, expr_of_chain, exprs_of, operators_of, Expr, Meaning, Refusal};
use crate::format::{digit_char, digits, grouped, magnitude, FormatRadix};
use crate::frontier::Frontier;
use crate::grammar::{chain_at, chain_rest, command_at, line, term_at, Chain, Parsed, Term};
use crate::literal::{
    all_digits,
    decoded,
    digit_value,
    has_sign,
    is_digit_of,
    literal_value,
    number_of,
    without_separators,
    Radix,
};
use crate::tokens::{digit_run, is_literal_byte, number_at, skip_spaces};

verus! {

/// The bytes of a text of ASCII characters.
pub open spec fn bytes_of(chars: Seq<char>) -> Seq<u8> {
    Seq::new(chars.len(), |i: int| chars[i] as u8)
}

/// `text` without the bytes of `prefix` that follow its sign, if they are
/// there; the sign stays.
pub open spec fn without_leading(text: Seq<u8>, prefix: Seq<u8>) -> Seq<u8> {
    let sign: int = if text.len() > 0 && text[0] == '-' as u8 {
        1
    } else {
        0
    };
    if text.len() >= sign + prefix.len() && text.subrange(sign, sign + prefix.len()) == prefix {
        text.take(sign) + text.skip(sign + prefix.len())
    } else {
        text
    }
}

/// `text` without the radix prefix that follows its sign, if the prefix is
/// there; the sign stays.
pub open spec fn without_prefix(text: Seq<u8>, radix: FormatRadix) -> Seq<u8> {
    without_leading(text, bytes_of(radix.prefix()))
}

impl FormatRadix {
    /// The radix of literals with the same base.
    pub fn literal_radix(&self) -> (r: Radix)
        ensures
            r.base() == self.base(),
            r == (match self {
                FormatRadix::Decimal => Radix::Dec,
                FormatRadix::Hex => Radix::Hex,
                FormatRadix::Octal => Radix::Oct,
                FormatRadix::Binary => Radix::Bin,
            }),
    {
        match self {
            FormatRadix::Decimal => Radix::Dec,
            FormatRadix::Hex => Radix::Hex,
            FormatRadix::Octal => Radix::Oct,
            FormatRadix::Binary => Radix::Bin,
        }
    }
}

/// `text` without the radix prefix that follows its sign.
pub fn strip_prefix(text: &str, radix: FormatRadix) -> (r: Vec<u8>)
    ensures
        r@ == without_prefix(text.spec_bytes(), radix),
{
    let bytes = text.as_bytes();
    let n = bytes.len();
    let sign: usize = if n > 0 && bytes[0] == '-' as u8 {
        1
    } else {
        0
    };
    let (len, mark): (usize, u8) = match radix {
        FormatRadix::Decimal => (0, 0),
        FormatRadix::Hex => (2, 'x' as u8),
        FormatRadix::Octal => (2, 'o' as u8),
        FormatRadix::Binary => (2, 'b' as u8),
    };
    let ghost prefix = bytes_of(radix.prefix());
    let present = len == 0 || (n >= sign + 2 && bytes[sign] == '0' as u8 && bytes[sign + 1]
        == mark);
    proof {
        assert(prefix.len() == len);
        if len == 2 {
            assert(prefix[0] == '0' as u8 && prefix[1] == mark);
        }
        if present {
            assert(bytes@.subrange(sign as int, sign + len) =~= prefix);
        } else if n >= sign + len {
            let found = bytes@.subrange(sign as int, sign + len);
            assert(found[0] == bytes@[sign as int] && found[1] == bytes@[sign + 1]);
        }
    }
    let mut out: Vec<u8> = Vec::new();
    if !present {
        let mut i: usize = 0;
        while i < n
            invariant
                i <= n,
                n == bytes@.len(),
                out@ == bytes@.take(i as int),
            decreases n - i,
        {
            out.push(bytes[i]);
            i += 1;
            assert(bytes@.take(i as int) == bytes@.take(i - 1).push(bytes@[i - 1]));
        }
        assert(bytes@.take(n as int) == bytes@);
        return out;
    }
    if sign == 1 {
        out.push(bytes[0]);
    }
    assert(out@ =~= bytes@.take(sign as int));
    let mut i: usize = sign + len;
    while i < n
        invariant
            sign + len <= i <= n,
            n == bytes@.len(),
            out@ == bytes@.take(sign as int) + bytes@.subrange(sign + len, i as int),
        decreases n - i,
    {
        out.push(bytes[i]);
        i += 1;
        assert(bytes@.subrange(sign + len, i as int) == bytes@.subrange(sign + len, i - 1).push(
            bytes@[i - 1],
        ));
    }
    assert(bytes@.subrange(sign + len, n as int) == bytes@.skip(sign + len));
    out
}

/// A digit's character is an ASCII character other than `_`, and it is read
/// back as the same digit.
proof fn lemma_digit_char(d: int)
    requires
        0 <= d < 36,
    ensures
        digit_value(digit_char(d) as u8) == Some(d),
        digit_char(d) as u8 != '_' as u8,
        digit_char(d) as u8 != '-' as u8,
        digit_char(d) as u8 != '+' as u8,
        '\0' <= digit_char(d) <= '\u{7f}',
{
}

/// The digits of `n` are read back as `n`.
proof fn lemma_digits_number(n: nat, base: int)
    requires
        2 <= base <= 36,
    ensures
        digits(n, base).len() > 0,
        is_ascii_chars(digits(n, base)),
        all_digits(bytes_of(digits(n, base)), base),
        number_of(bytes_of(digits(n, base)), base) == n,
        forall|i: int|
            0 <= i < digits(n, base).len() ==> #[trigger] bytes_of(digits(n, base))[i] != '_' as u8,
        !has_sign(bytes_of(digits(n, base))),
    decreases n,
{
    let text = digits(n, base);
    let bytes = bytes_of(text);
    if n < base {
        lemma_digit_char(n as int);
        assert(bytes.drop_last() =~= Seq::<u8>::empty());
        assert(number_of(bytes.drop_last(), base) == 0);
        assert(0 * base == 0) by (nonlinear_arith);
    } else {
        let high = n / (base as nat);
        let low = n % (base as nat);
        assert(high < n && 0 <= low < base && high * base + low == n && high >= 1)
            by (nonlinear_arith)
            requires
                base >= 2,
                n >= base,
                high == n / (base as nat),
                low == n % (base as nat),
        ;
        lemma_digits_number(high, base);
        lemma_digit_char(low as int);
        let front = digits(high, base);
        assert(text == front.push(digit_char(low as int)));
        assert(bytes.drop_last() =~= bytes_of(front));
        assert(bytes.last() == digit_char(low as int) as u8);
        assert forall|i: int| 0 <= i < bytes.len() implies is_digit_of(
            #[trigger] bytes[i],
            base,
        ) && bytes[i] != '_' as u8 by {
            if i < front.len() {
                assert(bytes[i] == bytes_of(front)[i]);
            }
        }
        assert(bytes[0] == bytes_of(front)[0]);
    }
}

/// Separators are dropped from each part of a text by itself.
proof fn lemma_separators_concat(a: Seq<u8>, b: Seq<u8>)
    ensures
        without_separators(a + b) == without_separators(a) + without_separators(b),
    decreases b.len(),
{
    if b.len() == 0 {
        assert(a + b =~= a);
        assert(without_separators(a) + without_separators(b) =~= without_separators(a));
    } else {
        lemma_separators_concat(a, b.drop_last());
        assert((a + b).drop_last() =~= a + b.drop_last());
        assert((a + b).last() == b.last());
        if b.last() != '_' as u8 {
            assert((without_separators(a) + without_separators(b.drop_last())).push(b.last())
                =~= without_separators(a) + without_separators(b.drop_last()).push(b.last()));
        }
    }
}

/// A text without separators stays as it is.
proof fn lemma_separators_none(a: Seq<u8>)
    requires
        forall|i: int| 0 <= i < a.len() ==> #[trigger] a[i] != '_' as u8,
    ensures
        without_separators(a) == a,
    decreases a.len(),
{
    if a.len() > 0 {
        lemma_separators_none(a.drop_last());
        assert(a.drop_last().push(a.last()) =~= a);
    }
}

/// The bytes of a text made of two parts.
proof fn lemma_bytes_concat(a: Seq<char>, b: Seq<char>)
    ensures
        bytes_of(a + b) == bytes_of(a) + bytes_of(b),
{
    assert(bytes_of(a + b) =~= bytes_of(a) + bytes_of(b));
}

/// Grouping adds separators and nothing else.
proof fn lemma_grouped_separators(text: Seq<char>, size: int)
    requires
        forall|i: int| 0 <= i < text.len() ==> #[trigger] bytes_of(text)[i] != '_' as u8,
        is_ascii_chars(text),
    ensures
        without_separators(bytes_of(grouped(text, size))) == bytes_of(text),
        is_ascii_chars(grouped(text, size)),
    decreases text.len(),
{
    if size <= 0 || text.len() <= size {
        lemma_separators_none(bytes_of(text));
    } else {
        let cut = text.len() - size;
        let front = text.take(cut);
        let back = text.skip(cut);
        assert forall|i: int| 0 <= i < front.len() implies #[trigger] bytes_of(front)[i] != '_' as u8 by {
            assert(bytes_of(front)[i] == bytes_of(text)[i]);
        }
        assert forall|i: int| 0 <= i < back.len() implies #[trigger] bytes_of(back)[i] != '_' as u8 by {
            assert(bytes_of(back)[i] == bytes_of(text)[cut + i]);
        }
        assert(is_ascii_chars(front)) by {
            assert forall|i: int| 0 <= i < front.len() implies '\0' <= #[trigger] front[i]
                <= '\u{7f}' by {
                assert(front[i] == text[i]);
            }
        }
        lemma_grouped_separators(front, size);
        let mark = seq!['_'];
        lemma_bytes_concat(grouped(front, size) + mark, back);
        lemma_bytes_concat(grouped(front, size), mark);
        lemma_separators_concat(bytes_of(grouped(front, size)) + bytes_of(mark), bytes_of(back));
        lemma_separators_concat(bytes_of(grouped(front, size)), bytes_of(mark));
        lemma_separators_none(bytes_of(back));
        assert(bytes_of(mark).drop_last() =~= Seq::<u8>::empty());
        assert(without_separators(bytes_of(mark).drop_last()) =~= Seq::<u8>::empty());
        assert(bytes_of(mark).last() == '_' as u8);
        assert(without_separators(bytes_of(mark)) =~= Seq::<u8>::empty());
        assert(bytes_of(front) + Seq::<u8>::empty() + bytes_of(back) =~= bytes_of(text));
        assert forall|i: int| 0 <= i < grouped(text, size).len() implies '\0'
            <= #[trigger] grouped(text, size)[i] <= '\u{7f}' by {
            let g = grouped(front, size);
            if i < g.len() {
                assert(grouped(text, size)[i] == g[i]);
            } else if i == g.len() {
            } else {
                assert(grouped(text, size)[i] == text[cut + (i - g.len() - 1)]);
            }
        }
    }
}

/// The sign that `OutputFormat` writes in front of `v`.
pub open spec fn sign_of(v: i64) -> Seq<char> {
    if v < 0 {
        seq!['-']
    } else {
        Seq::empty()
    }
}

/// The digits that `OutputFormat` writes for `v`, grouped or not.
pub open spec fn body_of(v: i64, radix: FormatRadix, punctuate: bool) -> Seq<char> {
    if punctuate {
        grouped(digits(magnitude(v), radix.base()), radix.group_size())
    } else {
        digits(magnitude(v), radix.base())
    }
}

/// The text of a value is ASCII, and its bytes are those of its three parts.
proof fn lemma_text_bytes(v: i64, radix: FormatRadix, punctuate: bool)
    ensures
        is_ascii_chars(radix.text(v, punctuate)),
        encode_utf8(radix.text(v, punctuate)) == bytes_of(sign_of(v)) + bytes_of(radix.prefix())
            + bytes_of(body_of(v, radix, punctuate)),
{
    let plain = digits(magnitude(v), radix.base());
    let body = body_of(v, radix, punctuate);
    let head = sign_of(v) + radix.prefix();
    let text = radix.text(v, punctuate);
    assert(text == head + body);
    lemma_digits_number(magnitude(v), radix.base());
    lemma_grouped_separators(plain, radix.group_size());
    assert forall|i: int| 0 <= i < text.len() implies '\0' <= #[trigger] text[i] <= '\u{7f}' by {
        if i >= head.len() {
            assert(text[i] == body[i - head.len()]);
        }
    }
    is_ascii_chars_encode_utf8(text);
    assert(encode_utf8(text) =~= bytes_of(text));
    lemma_bytes_concat(head, body);
    lemma_bytes_concat(sign_of(v), radix.prefix());
}

/// Taking the prefix off a text that was put together from a sign, the
/// prefix and a body leaves the sign and the body.
proof fn lemma_prefix_off(sign: Seq<u8>, prefix: Seq<u8>, body: Seq<u8>)
    requires
        sign.len() == 0 || (sign.len() == 1 && sign[0] == '-' as u8),
        prefix.len() > 0 ==> prefix[0] != '-' as u8,
        body.len() > 0,
        body[0] != '-' as u8,
    ensures
        without_leading(sign + prefix + body, prefix) == sign + body,
{
    let text = sign + prefix + body;
    let s_len = sign.len() as int;
    let p_len = prefix.len() as int;
    assert(text.len() > 0);
    if s_len == 0 {
        if p_len > 0 {
            assert(text[0] == prefix[0]);
        } else {
            assert(text[0] == body[0]);
        }
    } else {
        assert(text[0] == sign[0]);
    }
    assert(text.subrange(s_len, s_len + p_len) =~= prefix);
    assert(text.take(s_len) =~= sign);
    assert(text.skip(s_len + p_len) =~= body);
}

/// A sign and the digits of a magnitude are read as the signed value.
proof fn lemma_signed_digits(v: i64, base: int)
    requires
        2 <= base <= 36,
    ensures
        decoded(bytes_of(sign_of(v)) + bytes_of(digits(magnitude(v), base)), base) == Some(v),
{
    let plain = bytes_of(digits(magnitude(v), base));
    let text = bytes_of(sign_of(v)) + plain;
    lemma_digits_number(magnitude(v), base);
    if v < 0 {
        assert(text[0] == '-' as u8);
        assert(text.skip(1) =~= plain);
    } else {
        assert(text =~= plain);
    }
}

/// A number that is not negative, written in decimal, is digits only and
/// is read back as itself.
pub proof fn lemma_decimal(n: i64)
    requires
        n >= 0,
    ensures
        digits(n as nat, 10).len() > 0,
        all_digits(bytes_of(digits(n as nat, 10)), 10),
        literal_value(bytes_of(digits(n as nat, 10)), Radix::Dec) == Some(n),
{
    let text = bytes_of(digits(n as nat, 10));
    lemma_digits_number(n as nat, 10);
    lemma_separators_none(text);
}

/// Round trip: for each radix and each `i64` value, the text that
/// `OutputFormat` writes for the value, with or without digit grouping, is
/// read back as the same value once its prefix and its separators are taken
/// off.
pub proof fn lemma_round_trip(v: i64, radix: FormatRadix, punctuate: bool)
    ensures
        is_ascii_chars(radix.text(v, punctuate)),
        decoded(
            without_separators(without_prefix(encode_utf8(radix.text(v, punctuate)), radix)),
            radix.base(),
        ) == Some(v),
{
    let plain = digits(magnitude(v), radix.base());
    let body = body_of(v, radix, punctuate);
    let sign = bytes_of(sign_of(v));
    lemma_text_bytes(v, radix, punctuate);
    lemma_digits_number(magnitude(v), radix.base());
    lemma_grouped_separators(plain, radix.group_size());
    lemma_separators_none(bytes_of(plain));
    assert(without_separators(bytes_of(body)) == bytes_of(plain));
    assert(body.len() > 0 && body[0] == plain[0]) by {
        lemma_grouped_first(plain, radix.group_size());
    }
    assert(bytes_of(body)[0] == bytes_of(plain)[0]);
    lemma_prefix_off(sign, bytes_of(radix.prefix()), bytes_of(body));
    lemma_separators_concat(sign, bytes_of(body));
    lemma_separators_none(sign);
    lemma_signed_digits(v, radix.base());
}

/// Grouping leaves the first digit in the first place.
proof fn lemma_grouped_first(text: Seq<char>, size: int)
    requires
        text.len() > 0,
    ensures
        grouped(text, size).len() > 0,
        grouped(text, size)[0] == text[0],
    decreases text.len(),
{
    if size <= 0 || text.len() <= size {
    } else {
        let cut = text.len() - size;
        lemma_grouped_first(text.take(cut), size);
    }
}

/// A run of digits and separators goes on as far as they do.
proof fn lemma_digit_run_to_end(s: Seq<u8>, pos: int, base: int)
    requires
        0 <= pos <= s.len(),
        forall|i: int| pos <= i < s.len() ==> is_literal_byte(#[trigger] s[i], base),
    ensures
        digit_run(s, pos, base) == s.len(),
    decreases s.len() - pos,
{
    if pos < s.len() {
        lemma_digit_run_to_end(s, pos + 1, base);
    }
}

/// Grouped digits are digits and separators.
proof fn lemma_grouped_bytes(text: Seq<char>, size: int, base: int)
    requires
        all_digits(bytes_of(text), base),
    ensures
        forall|i: int|
            0 <= i < grouped(text, size).len() ==> is_literal_byte(
                #[trigger] bytes_of(grouped(text, size))[i],
                base,
            ),
    decreases text.len(),
{
    if size <= 0 || text.len() <= size {
    } else {
        let cut = text.len() - size;
        let front = text.take(cut);
        assert(all_digits(bytes_of(front), base)) by {
            assert forall|i: int| 0 <= i < front.len() implies is_digit_of(
                #[trigger] bytes_of(front)[i],
                base,
            ) by {
                assert(bytes_of(front)[i] == bytes_of(text)[i]);
            }
        }
        lemma_grouped_bytes(front, size, base);
        let g = grouped(front, size);
        assert forall|i: int| 0 <= i < grouped(text, size).len() implies is_literal_byte(
            #[trigger] bytes_of(grouped(text, size))[i],
            base,
        ) by {
            if i < g.len() {
                assert(bytes_of(grouped(text, size))[i] == bytes_of(g)[i]);
            } else if i == g.len() {
            } else {
                assert(bytes_of(grouped(text, size))[i] == bytes_of(text)[cut + (i - g.len() - 1)]);
            }
        }
    }
}

/// The digits that are written for a value are one literal of the grammar
/// from their first byte to their last, and its value is the value.
proof fn lemma_written_literal(v: i64, radix: FormatRadix, punctuate: bool)
    requires
        v >= 0,
    ensures
        ({
            let bytes = encode_utf8(radix.text(v, punctuate));
            &&& bytes.len() > 0
            &&& number_at(bytes, 0) == Some((Some(v), bytes.len() as int))
            &&& bytes[0] != 's' as u8
            &&& bytes[0] != ' ' as u8
            &&& bytes[0] != '\t' as u8
        }),
{
    let base = radix.base();
    let plain = digits(magnitude(v), base);
    let body = body_of(v, radix, punctuate);
    let prefix = bytes_of(radix.prefix());
    let bytes = encode_utf8(radix.text(v, punctuate));
    lemma_text_bytes(v, radix, punctuate);
    lemma_digits_number(magnitude(v), base);
    lemma_grouped_separators(plain, radix.group_size());
    lemma_grouped_first(plain, radix.group_size());
    lemma_grouped_bytes(plain, radix.group_size(), base);
    lemma_separators_none(bytes_of(plain));
    lemma_signed_digits(v, base);
    assert(bytes_of(sign_of(v)) =~= Seq::<u8>::empty());
    assert(bytes =~= prefix + bytes_of(body));
    assert(Seq::<u8>::empty() + bytes_of(plain) =~= bytes_of(plain));
    assert(without_separators(bytes_of(body)) == bytes_of(plain));
    assert(bytes_of(body)[0] == bytes_of(plain)[0]);
    assert(is_digit_of(bytes_of(body)[0], base));
    assert forall|i: int| 0 <= i < body.len() implies is_literal_byte(
        #[trigger] bytes_of(body)[i],
        base,
    ) by {
        if !punctuate {
            assert(is_digit_of(bytes_of(plain)[i], base));
        }
    }
    let n = bytes.len() as int;
    let start = prefix.len() as int;
    assert forall|i: int| start <= i < n implies is_literal_byte(#[trigger] bytes[i], base) by {
        assert(bytes[i] == bytes_of(body)[i - start]);
    }
    assert(bytes[start] == bytes_of(body)[0]);
    lemma_digit_run_to_end(bytes, start + 1, base);
    assert(bytes.subrange(0, n) =~= bytes);
    if start == 0 {
        assert(bytes =~= bytes_of(body));
        if n >= 2 {
            assert(is_literal_byte(bytes[1], base));
        }
    } else {
        assert(bytes[0] == prefix[0]);
        assert(bytes[1] == prefix[1]);
        assert(bytes.skip(2) =~= bytes_of(body));
    }
}

/// The calculator reads what it writes: the text of a value that is not
/// negative, in any radix, with or without digit grouping, is a line that
/// says this value.
pub proof fn lemma_reads_what_it_writes(v: i64, radix: FormatRadix, punctuate: bool)
    requires
        v >= 0,
    ensures
        command_of(encode_utf8(radix.text(v, punctuate))) == Ok::<Meaning, Refusal>(
            Meaning::Expr(Expr::Num(v)),
        ),
{
    let bytes = encode_utf8(radix.text(v, punctuate));
    let n = bytes.len() as int;
    let table = PrecedenceTable::standard_levels();
    let term = Term::Number(Some(v));
    let chain = Chain::First(term);
    lemma_written_literal(v, radix, punctuate);
    assert(skip_spaces(bytes, 0) == 0);
    assert(skip_spaces(bytes, n) == n);
    assert(term_at(bytes, 0).found == Some((term, n)));
    assert(chain_rest(bytes, n, chain, term_at(bytes, 0).frontier).found == Some((chain, n)));
    assert(chain_at(bytes, 0).found == Some((chain, n)));
    assert(command_at(bytes, 0).found == Some((Parsed::Chain(chain), n)));
    assert(line(bytes) == Ok::<Parsed, Frontier>(Parsed::Chain(chain)));
    assert(exprs_of(chain, table) == Some(seq![Expr::Num(v)]));
    assert(operators_of(chain) =~= Seq::empty());
    assert(expr_of_chain(chain, table) == Some(Expr::Num(v)));
}

} // verus!
