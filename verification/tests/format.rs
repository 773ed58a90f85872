use cork::codec::strip_prefix;
use cork::format::{uint_to_chars_radix, uint_with_separators, FormatRadix, OutputFormat};
use cork::literal::{
    decode_digits, decode_literal, parse_num, strip_separators, NumericError, Radix,
};

#[test]
fn test_0_fmt() {
    let cases = [
        (FormatRadix::Hex, "0x0"),
        (FormatRadix::Octal, "0o0"),
        (FormatRadix::Binary, "0b0"),
        (FormatRadix::Decimal, "0"),
    ];

    for (radix, output) in cases {
        let mut of = OutputFormat::default().with_format_radix(radix);

        // Regardless of punctuation, output should be the same
        of = of.with_punctuate_number(false);
        assert_eq!(of.fmt(0), output);

        of = of.with_punctuate_number(true);
        assert_eq!(of.fmt(0), output);
    }
}

fn text(value: i64, radix: FormatRadix, punctuate: bool) -> String {
    OutputFormat::default()
        .with_format_radix(radix)
        .with_punctuate_number(punctuate)
        .fmt(value)
}

#[test]
fn default_format_is_plain_hex() {
    let of = OutputFormat::default();
    assert_eq!(of.radix, FormatRadix::Hex);
    assert!(!of.punctuate_number);
    assert_eq!(of.fmt(255), "0xff");
    assert_eq!(FormatRadix::default(), FormatRadix::Hex);
}

#[test]
fn set_format_radix_keeps_the_grouping() {
    let mut of = OutputFormat::default().with_punctuate_number(true);
    of.set_format_radix(FormatRadix::Decimal);
    assert_eq!(of.radix, FormatRadix::Decimal);
    assert!(of.punctuate_number);
    assert_eq!(of.fmt(1234567), "1_234_567");
}

#[test]
fn sign_stands_before_the_prefix() {
    assert_eq!(text(-255, FormatRadix::Hex, false), "-0xff");
    assert_eq!(text(-8, FormatRadix::Octal, false), "-0o10");
    assert_eq!(text(-5, FormatRadix::Binary, false), "-0b101");
    assert_eq!(text(-42, FormatRadix::Decimal, false), "-42");
}

#[test]
fn least_value_is_written_in_full() {
    assert_eq!(
        text(i64::MIN, FormatRadix::Decimal, false),
        "-9223372036854775808"
    );
    assert_eq!(
        text(i64::MIN, FormatRadix::Hex, true),
        "-0x8000_0000_0000_0000"
    );
    assert_eq!(
        text(i64::MAX, FormatRadix::Hex, false),
        "0x7fffffffffffffff"
    );
    assert_eq!(
        text(i64::MIN, FormatRadix::Octal, false),
        "-0o1000000000000000000000"
    );
}

#[test]
fn digits_are_grouped_from_the_right() {
    assert_eq!(text(1234567, FormatRadix::Decimal, true), "1_234_567");
    assert_eq!(text(123456, FormatRadix::Decimal, true), "123_456");
    assert_eq!(text(999, FormatRadix::Decimal, true), "999");
    assert_eq!(text(1000, FormatRadix::Decimal, true), "1_000");
    assert_eq!(text(0xFACEA0CE, FormatRadix::Hex, true), "0xface_a0ce");
    assert_eq!(text(0x1FACE, FormatRadix::Hex, true), "0x1_face");
    assert_eq!(text(0o1234567, FormatRadix::Octal, true), "0o1_234_567");
    assert_eq!(text(0b110101, FormatRadix::Binary, true), "0b11_0101");
    assert_eq!(text(-1234567, FormatRadix::Decimal, true), "-1_234_567");
}

#[test]
fn digits_come_least_significant_first() {
    assert_eq!(uint_to_chars_radix(0, 10), vec!['0']);
    assert_eq!(uint_to_chars_radix(123, 10), vec!['3', '2', '1']);
    assert_eq!(uint_to_chars_radix(0xabc, 16), vec!['c', 'b', 'a']);
    assert_eq!(uint_to_chars_radix(35, 36), vec!['z']);
    assert_eq!(
        FormatRadix::Hex.fmt_uint_to_chars(0xabc),
        vec!['a', 'b', 'c']
    );
    assert_eq!(
        FormatRadix::Binary.fmt_uint_to_chars(u64::MAX).len(),
        64
    );
}

#[test]
fn separators_by_radix() {
    let chars: Vec<char> = "12345678".chars().collect();
    assert_eq!(uint_with_separators(&chars, FormatRadix::Decimal), "12_345_678");
    assert_eq!(uint_with_separators(&chars, FormatRadix::Octal), "12_345_678");
    assert_eq!(uint_with_separators(&chars, FormatRadix::Hex), "1234_5678");
    assert_eq!(uint_with_separators(&chars, FormatRadix::Binary), "1234_5678");
    assert_eq!(uint_with_separators(&[], FormatRadix::Hex), "");
    assert_eq!(uint_with_separators(&['7'], FormatRadix::Hex), "7");
}

#[test]
fn radix_numbers_and_names() {
    assert_eq!(u32::from(FormatRadix::Decimal), 10);
    assert_eq!(u32::from(FormatRadix::Hex), 16);
    assert_eq!(u32::from(FormatRadix::Octal), 8);
    assert_eq!(u32::from(FormatRadix::Binary), 2);
    assert_eq!(FormatRadix::Hex.numeric_radix(), 16);
    assert_eq!(Radix::Bin.numeric_radix(), 2);
    assert_eq!(Radix::Oct.numeric_radix(), 8);
    assert_eq!(Radix::Dec.numeric_radix(), 10);
    assert_eq!(Radix::Hex.numeric_radix(), 16);
    assert_eq!(FormatRadix::Hex.name(), "Hexadecimal");
    assert_eq!(FormatRadix::Decimal.name(), "Decimal");
    assert_eq!(FormatRadix::Octal.name(), "Octal");
    assert_eq!(FormatRadix::Binary.name(), "Binary");
    assert_eq!(
        FormatRadix::all(),
        [
            FormatRadix::Decimal,
            FormatRadix::Hex,
            FormatRadix::Octal,
            FormatRadix::Binary
        ]
    );
    assert_eq!(FormatRadix::Octal.literal_radix(), Radix::Oct);
}

#[test]
fn literals_with_prefix_and_separators() {
    assert_eq!(parse_num("0xFACE_A0CE", Radix::Hex), Ok(4207845582));
    assert_eq!(parse_num("0o1232_34_4", Radix::Oct), Ok(341220));
    assert_eq!(parse_num("0b10_10_01____01", Radix::Bin), Ok(165));
    assert_eq!(parse_num("1234_5678", Radix::Dec), Ok(12345678));
    assert_eq!(parse_num("0x", Radix::Hex), Err(NumericError::Malformed));
    assert_eq!(parse_num("0", Radix::Hex), Err(NumericError::Malformed));
    assert_eq!(parse_num("0b102", Radix::Bin), Err(NumericError::Malformed));
    assert_eq!(parse_num("0o8", Radix::Oct), Err(NumericError::Malformed));
    assert_eq!(parse_num("12a", Radix::Dec), Err(NumericError::Malformed));
    assert_eq!(parse_num("____", Radix::Dec), Err(NumericError::Malformed));
}

#[test]
fn decode_takes_a_sign_and_digits() {
    assert_eq!(decode_literal("ff", Radix::Hex), Ok(255));
    assert_eq!(decode_literal("FF", Radix::Hex), Ok(255));
    assert_eq!(decode_literal("-ff", Radix::Hex), Ok(-255));
    assert_eq!(decode_literal("+17", Radix::Oct), Ok(15));
    assert_eq!(decode_literal("", Radix::Dec), Err(NumericError::Malformed));
    assert_eq!(decode_literal("-", Radix::Dec), Err(NumericError::Malformed));
    assert_eq!(decode_literal("+", Radix::Dec), Err(NumericError::Malformed));
    assert_eq!(decode_literal("1_0", Radix::Dec), Err(NumericError::Malformed));
    assert_eq!(decode_literal(" 1", Radix::Dec), Err(NumericError::Malformed));
    assert_eq!(decode_literal("12é", Radix::Dec), Err(NumericError::Malformed));
    assert_eq!(decode_literal("--1", Radix::Dec), Err(NumericError::Malformed));
}

#[test]
fn decode_knows_the_limits_of_64_bits() {
    assert_eq!(
        decode_literal("9223372036854775807", Radix::Dec),
        Ok(i64::MAX)
    );
    assert_eq!(
        decode_literal("9223372036854775808", Radix::Dec),
        Err(NumericError::Malformed)
    );
    assert_eq!(
        decode_literal("-9223372036854775808", Radix::Dec),
        Ok(i64::MIN)
    );
    assert_eq!(
        decode_literal("-9223372036854775809", Radix::Dec),
        Err(NumericError::Malformed)
    );
    assert_eq!(
        decode_literal("8000000000000000", Radix::Hex),
        Err(NumericError::Malformed)
    );
    assert_eq!(
        decode_literal("-8000000000000000", Radix::Hex),
        Ok(i64::MIN)
    );
    assert_eq!(
        decode_literal("99999999999999999999999999999999999999999999", Radix::Dec),
        Err(NumericError::Malformed)
    );
    assert_eq!(
        decode_literal(
            "0000000000000000000000000000000000000000000000000000000000000000000001",
            Radix::Bin
        ),
        Ok(1)
    );
}

#[test]
fn prefix_and_separators_come_off() {
    assert_eq!(strip_prefix("-0xff", FormatRadix::Hex), b"-ff".to_vec());
    assert_eq!(strip_prefix("0xff", FormatRadix::Hex), b"ff".to_vec());
    assert_eq!(strip_prefix("0o17", FormatRadix::Octal), b"17".to_vec());
    assert_eq!(strip_prefix("-0b1", FormatRadix::Binary), b"-1".to_vec());
    assert_eq!(strip_prefix("-12", FormatRadix::Decimal), b"-12".to_vec());
    assert_eq!(strip_prefix("ff", FormatRadix::Hex), b"ff".to_vec());
    assert_eq!(strip_prefix("0", FormatRadix::Hex), b"0".to_vec());
    assert_eq!(strip_prefix("", FormatRadix::Hex), b"".to_vec());
    assert_eq!(strip_separators(b"1_000_000"), b"1000000".to_vec());
    assert_eq!(strip_separators(b"___"), b"".to_vec());
}

fn read_back(value: i64, radix: FormatRadix, punctuate: bool) -> Result<i64, NumericError> {
    let written = text(value, radix, punctuate);
    let bare = strip_separators(&strip_prefix(&written, radix));
    decode_digits(&bare, radix.literal_radix())
}

#[test]
fn what_is_written_is_read_back() {
    let values = [
        0,
        1,
        -1,
        7,
        8,
        9,
        10,
        15,
        16,
        255,
        -256,
        1000,
        -1000,
        4207845582,
        341220,
        i64::MAX,
        i64::MIN,
        i64::MAX - 1,
        i64::MIN + 1,
        0x0123_4567_89ab_cdef,
        -0x0123_4567_89ab_cdef,
    ];
    for radix in FormatRadix::all() {
        for value in values {
            assert_eq!(read_back(value, radix, false), Ok(value));
            assert_eq!(read_back(value, radix, true), Ok(value));
        }
    }
}
