//! Rendering of signed 64-bit integers in the four radices.

use vstd::prelude::*;
use vstd::string::StringExecFns;
use crate::text::push_all;

verus! {

/// The radix in which a result is printed.
#[derive(Clone, Copy, Debug, PartialEq, Eq, Structural)]
pub enum FormatRadix {
    Decimal,
    Hex,
    Octal,
    Binary,
}

/// The character that stands for the digit `d`: `0` to `9`, then `a` to `z`.
pub open spec fn digit_char(d: int) -> char {
    if d < 10 {
        (('0' as int) + d) as char
    } else {
        (('a' as int) + (d - 10)) as char
    }
}

/// The digits of `n` in the given base, most significant first. Zero is the
/// single digit `0`.
pub open spec fn digits(n: nat, base: int) -> Seq<char>
    decreases n,
    via digits_decreases
{
    if base < 2 || n < base {
        seq![digit_char(n as int)]
    } else {
        digits(n / (base as nat), base).push(digit_char((n % (base as nat)) as int))
    }
}

#[via_fn]
proof fn digits_decreases(n: nat, base: int) {
    if !(base < 2 || n < base) {
        assert(n / (base as nat) < n) by (nonlinear_arith)
            requires
                base >= 2,
                n >= base,
        ;
    }
}

/// `digits` cut into groups of `size` from the right end, with `_` between
/// the groups.
pub open spec fn grouped(digits: Seq<char>, size: int) -> Seq<char>
    decreases digits.len(),
{
    if size <= 0 || digits.len() <= size {
        digits
    } else {
        grouped(digits.take(digits.len() - size), size) + seq!['_'] + digits.skip(
            digits.len() - size,
        )
    }
}

/// The magnitude of `v`.
pub open spec fn magnitude(v: i64) -> nat {
    if v < 0 {
        (-(v as int)) as nat
    } else {
        v as nat
    }
}

impl FormatRadix {
    /// The base as a number.
    pub open spec fn base(self) -> int {
        match self {
            FormatRadix::Decimal => 10,
            FormatRadix::Hex => 16,
            FormatRadix::Octal => 8,
            FormatRadix::Binary => 2,
        }
    }

    /// What is written in front of the digits.
    pub open spec fn prefix(self) -> Seq<char> {
        match self {
            FormatRadix::Decimal => Seq::empty(),
            FormatRadix::Hex => seq!['0', 'x'],
            FormatRadix::Octal => seq!['0', 'o'],
            FormatRadix::Binary => seq!['0', 'b'],
        }
    }

    /// How many digits stand between two separators.
    pub open spec fn group_size(self) -> int {
        match self {
            FormatRadix::Decimal | FormatRadix::Octal => 3,
            FormatRadix::Hex | FormatRadix::Binary => 4,
        }
    }

    /// The text of `num` in this radix: an optional `-`, the prefix, then the
    /// digits of the magnitude, grouped if `punctuate` is set.
    pub open spec fn text(self, num: i64, punctuate: bool) -> Seq<char> {
        let sign = if num < 0 {
            seq!['-']
        } else {
            Seq::empty()
        };
        let body = if punctuate {
            grouped(digits(magnitude(num), self.base()), self.group_size())
        } else {
            digits(magnitude(num), self.base())
        };
        sign + self.prefix() + body
    }

    /// The base as a number.
    pub fn numeric_radix(&self) -> (r: u32)
        ensures
            r == self.base(),
    {
        match self {
            FormatRadix::Decimal => 10,
            FormatRadix::Hex => 16,
            FormatRadix::Octal => 8,
            FormatRadix::Binary => 2,
        }
    }

    /// The digits of `num` in this radix, most significant first.
    pub fn fmt_uint_to_chars(&self, num: u64) -> (chars: Vec<char>)
        ensures
            chars@ == digits(num as nat, self.base()),
    {
        let rev_chars = match self {
            FormatRadix::Decimal => uint_to_chars_radix(num, 10),
            FormatRadix::Hex => uint_to_chars_radix(num, 16),
            FormatRadix::Octal => uint_to_chars_radix(num, 8),
            FormatRadix::Binary => uint_to_chars_radix(num, 2),
        };
        let chars = reversed(&rev_chars);
        assert(chars@ == digits(num as nat, self.base())) by {
            let d = digits(num as nat, self.base());
            assert(d.reverse().reverse() =~= d);
        }
        chars
    }

    /// The name of the radix.
    pub open spec fn name_text(self) -> Seq<char> {
        match self {
            FormatRadix::Decimal => "Decimal"@,
            FormatRadix::Hex => "Hexadecimal"@,
            FormatRadix::Octal => "Octal"@,
            FormatRadix::Binary => "Binary"@,
        }
    }

    /// The name of the radix, for messages.
    pub fn name(&self) -> (r: &'static str)
        ensures
            r@ == self.name_text(),
    {
        match self {
            FormatRadix::Decimal => "Decimal",
            FormatRadix::Hex => "Hexadecimal",
            FormatRadix::Octal => "Octal",
            FormatRadix::Binary => "Binary",
        }
    }

    /// The four radices, in the order in which a value is listed in all of them.
    pub fn all() -> (r: [FormatRadix; 4])
        ensures
            r@ == seq![
                FormatRadix::Decimal,
                FormatRadix::Hex,
                FormatRadix::Octal,
                FormatRadix::Binary,
            ],
    {
        [FormatRadix::Decimal, FormatRadix::Hex, FormatRadix::Octal, FormatRadix::Binary]
    }
}

impl From<FormatRadix> for u32 {
    fn from(val: FormatRadix) -> (r: u32) {
        match val {
            FormatRadix::Decimal => 10,
            FormatRadix::Hex => 16,
            FormatRadix::Octal => 8,
            FormatRadix::Binary => 2,
        }
    }
}

impl vstd::std_specs::convert::FromSpecImpl<FormatRadix> for u32 {
    open spec fn obeys_from_spec() -> bool {
        true
    }

    open spec fn from_spec(val: FormatRadix) -> u32 {
        match val {
            FormatRadix::Decimal => 10,
            FormatRadix::Hex => 16,
            FormatRadix::Octal => 8,
            FormatRadix::Binary => 2,
        }
    }
}

impl Default for FormatRadix {
    fn default() -> (r: Self)
        ensures
            r == FormatRadix::Hex,
    {
        FormatRadix::Hex
    }
}

/// The character of one digit.
fn char_of_digit(d: u32) -> (c: char)
    requires
        d < 36,
    ensures
        c == digit_char(d as int),
{
    if d < 10 {
        ('0' as u8 + d as u8) as char
    } else {
        ('a' as u8 + (d - 10) as u8) as char
    }
}

/// `v` with its items in the opposite order.
fn reversed(v: &Vec<char>) -> (r: Vec<char>)
    ensures
        r@ == v@.reverse(),
{
    let mut r: Vec<char> = Vec::new();
    let mut i: usize = v.len();
    while i > 0
        invariant
            i <= v.len(),
            r@.len() == v.len() - i,
            forall|k: int| 0 <= k < r@.len() ==> r@[k] == v@[v.len() - 1 - k],
        decreases i,
    {
        i -= 1;
        r.push(v[i]);
    }
    assert(r@ =~= v@.reverse());
    r
}

/// The digits of `num` in the given radix, least significant first.
pub fn uint_to_chars_radix(num: u64, radix: u32) -> (chars: Vec<char>)
    requires
        2 <= radix <= 36,
    ensures
        chars@ == digits(num as nat, radix as int).reverse(),
{
    let mut chars: Vec<char> = Vec::new();
    if num == 0 {
        chars.push('0');
        assert(chars@ =~= digits(0, radix as int).reverse());
        return chars;
    }
    let mut rest: u64 = num;
    while rest > 0
        invariant
            2 <= radix <= 36,
            rest <= num,
            rest == 0 ==> chars@ == digits(num as nat, radix as int).reverse(),
            rest > 0 ==> digits(num as nat, radix as int).reverse() == chars@ + digits(
                rest as nat,
                radix as int,
            ).reverse(),
        decreases rest,
    {
        let d: u32 = (rest % radix as u64) as u32;
        let c = char_of_digit(d);
        let ghost before = chars@;
        let ghost tail = digits(rest as nat, radix as int);
        chars.push(c);
        proof {
            let r = rest as int;
            let b = radix as int;
            assert(r < b ==> r % b == r && r / b == 0) by (nonlinear_arith)
                requires
                    0 <= r,
                    2 <= b,
            ;
            assert(r >= b ==> r / b > 0) by (nonlinear_arith)
                requires
                    0 <= r,
                    2 <= b,
            ;
            if rest < radix {
                assert(tail =~= seq![c]);
                assert(tail.reverse() =~= seq![c]);
                assert(before + tail.reverse() =~= chars@);
            } else {
                let higher = digits((rest / radix as u64) as nat, radix as int);
                assert(tail == higher.push(c));
                assert(tail.reverse() =~= seq![c] + higher.reverse());
                assert(before + tail.reverse() =~= chars@ + higher.reverse());
            }
        }
        rest = rest / radix as u64;
    }
    chars
}

/// `chars` with `_` between groups of digits, the groups counted from the
/// right end: three digits to a group in decimal and octal, four in
/// hexadecimal and binary.
pub fn uint_with_separators(chars: &[char], radix: FormatRadix) -> (r: String)
    ensures
        r@ == grouped(chars@, radix.group_size()),
{
    let interval: usize = match radix {
        FormatRadix::Decimal | FormatRadix::Octal => 3,
        FormatRadix::Hex | FormatRadix::Binary => 4,
    };
    let n = chars.len();
    let mut out = String::new();
    if n <= interval {
        let mut i: usize = 0;
        while i < n
            invariant
                i <= n,
                n == chars@.len(),
                out@ == chars@.take(i as int),
            decreases n - i,
        {
            out.push(chars[i]);
            i += 1;
            assert(chars@.take(i as int) == chars@.take(i - 1).push(chars@[i - 1]));
        }
        assert(chars@.take(n as int) == chars@);
        return out;
    }
    // The leftmost group takes what the full groups leave over.
    let first: usize = if n % interval == 0 {
        interval
    } else {
        n % interval
    };
    let mut i: usize = 0;
    while i < first
        invariant
            i <= first <= interval < n,
            n == chars@.len(),
            out@ == chars@.take(i as int),
        decreases first - i,
    {
        out.push(chars[i]);
        i += 1;
        assert(chars@.take(i as int) == chars@.take(i - 1).push(chars@[i - 1]));
    }
    let mut done: usize = first;
    while done < n
        invariant
            0 < first <= done <= n,
            n == chars@.len(),
            interval == radix.group_size(),
            (n - done) % (interval as int) == 0,
            out@ == grouped(chars@.take(done as int), interval as int),
        decreases n - done,
    {
        let ghost before = chars@.take(done as int);
        out.push('_');
        let mut k: usize = 0;
        while k < interval
            invariant
                k <= interval,
                done + interval <= n,
                n == chars@.len(),
                out@ == grouped(before, interval as int) + seq!['_'] + chars@.subrange(
                    done as int,
                    done + k,
                ),
            decreases interval - k,
        {
            out.push(chars[done + k]);
            k += 1;
            assert(chars@.subrange(done as int, done + k) == chars@.subrange(
                done as int,
                done + k - 1,
            ).push(chars@[done + k - 1]));
        }
        proof {
            let whole = chars@.take(done + interval);
            assert(whole.take(whole.len() - interval) == before);
            assert(whole.skip(whole.len() - interval) == chars@.subrange(
                done as int,
                done + interval,
            ));
        }
        done += interval;
    }
    assert(chars@.take(n as int) == chars@);
    out
}

/// How results are printed: the radix, and whether the digits are grouped.
#[derive(Clone, Copy, Debug, PartialEq, Eq, Structural)]
pub struct OutputFormat {
    pub radix: FormatRadix,
    pub punctuate_number: bool,
}

impl Default for OutputFormat {
    fn default() -> (r: Self)
        ensures
            r == (OutputFormat { radix: FormatRadix::Hex, punctuate_number: false }),
    {
        OutputFormat { radix: FormatRadix::Hex, punctuate_number: false }
    }
}

impl OutputFormat {
    /// The same format with another radix.
    pub fn with_format_radix(self, radix: FormatRadix) -> (r: Self)
        ensures
            r == (OutputFormat { radix, punctuate_number: self.punctuate_number }),
    {
        OutputFormat { radix, punctuate_number: self.punctuate_number }
    }

    /// The same format with grouping switched on or off.
    pub fn with_punctuate_number(self, punctuate_number: bool) -> (r: Self)
        ensures
            r == (OutputFormat { radix: self.radix, punctuate_number }),
    {
        OutputFormat { radix: self.radix, punctuate_number }
    }

    /// Changes the radix and leaves the grouping as it is.
    pub fn set_format_radix(&mut self, radix: FormatRadix)
        ensures
            *final(self) == (OutputFormat {
                radix,
                punctuate_number: old(self).punctuate_number,
            }),
    {
        self.radix = radix;
    }

    /// The text of `num` in this format.
    pub fn fmt(&self, num: i64) -> (r: String)
        ensures
            r@ == self.radix.text(num, self.punctuate_number),
    {
        let negative = num < 0;
        // The magnitude of the least value does not fit in `i64`.
        let abs_num: u64 = if negative {
            ((-(num + 1)) as u64) + 1
        } else {
            num as u64
        };
        let abs_num_chars = self.radix.fmt_uint_to_chars(abs_num);
        let abs_num_str = if self.punctuate_number {
            uint_with_separators(abs_num_chars.as_slice(), self.radix)
        } else {
            let mut plain = String::new();
            push_all(&mut plain, &abs_num_chars);
            plain
        };
        let mut out = String::new();
        if negative {
            out.push('-');
        }
        match self.radix {
            FormatRadix::Decimal => {},
            FormatRadix::Hex => {
                out.push('0');
                out.push('x');
            },
            FormatRadix::Octal => {
                out.push('0');
                out.push('o');
            },
            FormatRadix::Binary => {
                out.push('0');
                out.push('b');
            },
        }
        assert(out@ =~= (if num < 0 {
            seq!['-']
        } else {
            Seq::empty()
        }) + self.radix.prefix());
        out.append(abs_num_str.as_str());
        out
    }
}

} // verus!
