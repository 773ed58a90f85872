use cork::config::{config_locations, default_header, default_prompt, Config};
use cork::error::CorkError;
use cork::expression::{parse_line, Command, ConvDirective, Expr, SetDirective};
use cork::format::{FormatRadix, OutputFormat};
use cork::frontier::{Rule, SyntaxError};
use cork::literal::NumericError;
use cork::options::Options;
use cork::session::{
    apply_setting, inline_evaluate, next_action, process_command, process_line, Action,
    ExecutionOutcome, InlineReport, Report,
};
use cork::text::{push_all, same_text};

fn no_options() -> Options {
    Options {
        expr: None,
        punctuate_output: false,
        config: None,
        file: None,
        all: false,
        hex: false,
        oct: false,
        dec: false,
        bin: false,
    }
}

fn divide_by_zero() -> CorkError {
    CorkError::Eval(String::from("Cannot divide by 0"))
}

#[test]
fn line_is_read_and_evaluated() {
    assert_eq!(process_line("1 + 2", 0), Ok(ExecutionOutcome::Evaluated(3)));
    assert_eq!(process_line("ans * 2", 21), Ok(ExecutionOutcome::Evaluated(42)));
    assert_eq!(
        process_line("ans to bin", 5),
        Ok(ExecutionOutcome::Converted(5, FormatRadix::Binary))
    );
    assert_eq!(
        process_line("set of hex", 5),
        Ok(ExecutionOutcome::Setting(String::from("of"), vec![String::from("hex")]))
    );
    assert_eq!(
        process_line("set of", 5),
        Ok(ExecutionOutcome::Setting(String::from("of"), vec![]))
    );
    assert_eq!(
        process_line("set a b c", 5),
        Ok(ExecutionOutcome::Setting(
            String::from("a"),
            vec![String::from("b"), String::from("c")]
        ))
    );
    assert_eq!(process_line("", 5), Ok(ExecutionOutcome::NoOp));
    assert_eq!(process_line("  \t ", 5), Ok(ExecutionOutcome::NoOp));
    assert_eq!(process_line("1 / 0", 5), Err(divide_by_zero()));
    assert_eq!(process_line("1 % ans to hex", 0), Err(divide_by_zero()));
    assert_eq!(
        process_line("1 +", 5),
        Err(CorkError::Parse(SyntaxError {
            offset: 3,
            expected: vec![Rule::Number, Rule::Ans, Rule::OpenParen]
        }))
    );
    assert_eq!(
        process_line("0xFFFFFFFFFFFFFFFFFF", 5),
        Err(CorkError::Numeric(NumericError::Malformed))
    );
}

#[test]
fn value_becomes_the_last_result() {
    let mut ans = 0;
    let mut of = OutputFormat::default();
    assert_eq!(
        process_command("5 + 6", &mut ans, &mut of),
        Ok(Report::Result(String::from("0xb")))
    );
    assert_eq!(ans, 11);
    assert_eq!(
        process_command("ans * 2", &mut ans, &mut of),
        Ok(Report::Result(String::from("0x16")))
    );
    assert_eq!(ans, 22);
    assert_eq!(
        process_command("ans to dec", &mut ans, &mut of),
        Ok(Report::Result(String::from("22")))
    );
    assert_eq!(ans, 22);
    assert_eq!(of, OutputFormat::default());
    assert_eq!(process_command("", &mut ans, &mut of), Ok(Report::Nothing));
    assert_eq!(ans, 22);
}

#[test]
fn failed_line_changes_nothing() {
    let mut ans = 7;
    let mut of = OutputFormat::default().with_punctuate_number(true);
    assert_eq!(process_command("ans / 0", &mut ans, &mut of), Err(divide_by_zero()));
    assert_eq!(ans, 7);
    assert!(process_command("ans +", &mut ans, &mut of).is_err());
    assert_eq!(ans, 7);
    assert_eq!(
        process_command("set radix hex", &mut ans, &mut of),
        Err(CorkError::InvalidKey(String::from("radix")))
    );
    assert_eq!(
        process_command("set of hexa", &mut ans, &mut of),
        Err(CorkError::InvalidValueForKey {
            value: String::from("hexa"),
            key: String::from("of")
        })
    );
    assert_eq!(
        process_command("set of", &mut ans, &mut of),
        Err(CorkError::InvalidValueForKey { value: String::new(), key: String::from("of") })
    );
    assert_eq!(ans, 7);
    assert_eq!(of, OutputFormat::default().with_punctuate_number(true));
}

#[test]
fn set_of_changes_the_radix() {
    let mut ans = 255;
    let mut of = OutputFormat::default().with_punctuate_number(true);
    for (name, radix, text) in [
        ("dec", FormatRadix::Decimal, "255"),
        ("oct", FormatRadix::Octal, "0o377"),
        ("bin", FormatRadix::Binary, "0b1111_1111"),
        ("hex", FormatRadix::Hex, "0xff"),
    ] {
        let line = format!("set of {}", name);
        assert_eq!(process_command(&line, &mut ans, &mut of), Ok(Report::Changed));
        assert_eq!(of.radix, radix);
        assert!(of.punctuate_number);
        assert_eq!(
            process_command("ans", &mut ans, &mut of),
            Ok(Report::Result(String::from(text)))
        );
    }
    assert_eq!(
        process_command("set of dec and more", &mut ans, &mut of),
        Ok(Report::Changed)
    );
    assert_eq!(of.radix, FormatRadix::Decimal);
}

#[test]
fn setting_by_itself() {
    let mut of = OutputFormat::default();
    assert_eq!(apply_setting("of", &vec![String::from("oct")], &mut of), Ok(()));
    assert_eq!(of.radix, FormatRadix::Octal);
    assert_eq!(
        apply_setting("of", &vec![String::from("Oct")], &mut of),
        Err(CorkError::InvalidValueForKey {
            value: String::from("Oct"),
            key: String::from("of")
        })
    );
    assert_eq!(
        apply_setting("Of", &vec![String::from("oct")], &mut of),
        Err(CorkError::InvalidKey(String::from("Of")))
    );
    assert_eq!(of.radix, FormatRadix::Octal);
}

#[test]
fn conversion_prints_in_its_own_radix() {
    let mut ans = 0;
    let mut of = OutputFormat::default()
        .with_format_radix(FormatRadix::Decimal)
        .with_punctuate_number(true);
    assert_eq!(
        process_command("65535 to hex", &mut ans, &mut of),
        Ok(Report::Result(String::from("0xffff")))
    );
    assert_eq!(
        process_command("1048575 to hex", &mut ans, &mut of),
        Ok(Report::Result(String::from("0xf_ffff")))
    );
    assert_eq!(ans, 1048575);
    assert_eq!(of.radix, FormatRadix::Decimal);
}

#[test]
fn warranty_is_asked_for_by_its_word() {
    let mut ans = 3;
    let mut of = OutputFormat::default();
    assert_eq!(next_action("warranty", &mut ans, &mut of), Action::Warranty);
    assert_eq!(ans, 3);
    assert!(matches!(
        next_action("warranty ", &mut ans, &mut of),
        Action::Complain(CorkError::Parse(_))
    ));
    assert_eq!(
        next_action("ans + 1", &mut ans, &mut of),
        Action::Print(Report::Result(String::from("0x4")))
    );
    assert_eq!(ans, 4);
    assert_eq!(next_action("", &mut ans, &mut of), Action::Print(Report::Nothing));
    assert_eq!(
        next_action("set of bin", &mut ans, &mut of),
        Action::Print(Report::Changed)
    );
    assert_eq!(
        next_action("1 / 0", &mut ans, &mut of),
        Action::Complain(divide_by_zero())
    );
}

#[test]
fn expression_of_the_command_line() {
    let config = Config::default();
    let mut options = no_options();
    assert_eq!(
        inline_evaluate("5 + 6", &config, &options),
        InlineReport::Value(String::from("0xb"))
    );
    assert_eq!(
        inline_evaluate("ans + 1", &config, &options),
        InlineReport::Value(String::from("0x1"))
    );
    assert_eq!(
        inline_evaluate("255 to dec", &config, &options),
        InlineReport::Value(String::from("255"))
    );
    assert_eq!(inline_evaluate("set of hex", &config, &options), InlineReport::SetNotAllowed);
    assert_eq!(inline_evaluate("   ", &config, &options), InlineReport::EmptyExpression);
    assert_eq!(
        inline_evaluate("5 / 0", &config, &options),
        InlineReport::EvalFailed(divide_by_zero())
    );
    assert_eq!(
        inline_evaluate("5 /", &config, &options),
        InlineReport::ParseFailed(CorkError::Parse(SyntaxError {
            offset: 3,
            expected: vec![Rule::Number, Rule::Ans, Rule::OpenParen]
        }))
    );
    options.all = true;
    assert_eq!(
        inline_evaluate("4095", &config, &options),
        InlineReport::AllBases(vec![
            (FormatRadix::Decimal, String::from("4095")),
            (FormatRadix::Hex, String::from("0xfff")),
            (FormatRadix::Octal, String::from("0o7777")),
            (FormatRadix::Binary, String::from("0b111111111111")),
        ])
    );
    let mut grouped = Config::new(String::from("> "), false, FormatRadix::Decimal, false);
    options.punctuate_output = true;
    grouped.override_from_options(&options);
    assert_eq!(
        inline_evaluate("4095", &grouped, &options),
        InlineReport::AllBases(vec![
            (FormatRadix::Decimal, String::from("4_095")),
            (FormatRadix::Hex, String::from("0xfff")),
            (FormatRadix::Octal, String::from("0o7_777")),
            (FormatRadix::Binary, String::from("0b1111_1111_1111")),
        ])
    );
    options.all = false;
    assert_eq!(
        inline_evaluate("4095", &grouped, &options),
        InlineReport::Value(String::from("4_095"))
    );
}

#[test]
fn settings_and_their_defaults() {
    assert_eq!(default_prompt(), "cork> ");
    assert!(default_header());
    let config = Config::default();
    assert_eq!(config.prompt(), "cork> ");
    assert!(*config.header());
    assert_eq!(*config.output_radix(), FormatRadix::Hex);
    assert!(!*config.punctuate_output());
    assert_eq!(
        config,
        Config::new(default_prompt(), default_header(), FormatRadix::default(), false)
    );
    assert_eq!(config.output_format(), OutputFormat::default());
    let config = Config::new(String::from("$"), false, FormatRadix::Octal, true);
    assert_eq!(config.prompt(), "$");
    assert!(!*config.header());
    assert_eq!(*config.output_radix(), FormatRadix::Octal);
    assert!(*config.punctuate_output());
    assert_eq!(
        config.output_format(),
        OutputFormat { radix: FormatRadix::Octal, punctuate_number: true }
    );
}

#[test]
fn options_can_only_switch_grouping_on() {
    let mut options = no_options();
    let mut config = Config::new(String::from("$"), false, FormatRadix::Octal, false);
    config.override_from_options(&options);
    assert!(!*config.punctuate_output());
    options.punctuate_output = true;
    config.override_from_options(&options);
    assert!(*config.punctuate_output());
    options.punctuate_output = false;
    config.override_from_options(&options);
    assert!(*config.punctuate_output());
    assert_eq!(config.prompt(), "$");
    assert!(!*config.header());
    assert_eq!(*config.output_radix(), FormatRadix::Octal);
}

#[test]
fn places_of_the_configuration_file() {
    assert_eq!(
        config_locations(),
        vec![
            vec![".cork.yml"],
            vec![".cork", "cork.yml"],
            vec![".config", "cork", "cork.yml"],
        ]
    );
}

#[test]
fn directives_in_words() {
    let set = SetDirective { args: vec![String::from("of"), String::from("hex")] };
    assert_eq!(set.text(), "set of hex");
    assert_eq!(set.len(), 2);
    assert_eq!(set.get(0), Some(&String::from("of")));
    assert_eq!(set.get(1), Some(&String::from("hex")));
    assert_eq!(set.get(2), None);
    assert_eq!(SetDirective { args: vec![String::from("x")] }.text(), "set x");
    assert_eq!(SetDirective { args: vec![] }.text(), "set ");
    let conv = ConvDirective { expr: Expr::Ans, radix: FormatRadix::Hex };
    assert_eq!(conv.text(), "convert to Hexadecimal");
    assert_eq!(conv.radix(), FormatRadix::Hex);
    assert_eq!(conv.value(9), Ok(9));
    match parse_line("set of hex").unwrap() {
        Command::Setting(directive) => assert_eq!(directive.text(), "set of hex"),
        _ => panic!("Should have parsed to a directive"),
    }
}

#[test]
fn errors_in_words() {
    assert_eq!(
        divide_by_zero().describe("1 / 0"),
        "couldn't evaluate the expressison: Cannot divide by 0"
    );
    assert_eq!(
        CorkError::InvalidKey(String::from("radix")).describe("set radix hex"),
        "radix is not a valid key"
    );
    assert_eq!(
        CorkError::InvalidValueForKey { value: String::from("hexa"), key: String::from("of") }
            .describe("set of hexa"),
        "invalid hexa value for key of"
    );
    assert_eq!(
        CorkError::Numeric(NumericError::Malformed).describe("99999999999999999999"),
        "a number has no digits of its radix or does not fit in 64 bits"
    );
}

#[test]
fn syntax_error_is_shown_below_the_line() {
    let line = "(5 + 6) * 2 to nonex";
    let error = parse_line(line).unwrap_err();
    let shown = error.describe(line);
    assert_eq!(
        shown,
        "parsing error:\n --> 1:16\n  |\n1 | (5 + 6) * 2 to nonex\n  |                ^---\n  |\n  = expected Radix"
    );
    let line = "5 5";
    let shown = parse_line(line).unwrap_err().describe(line);
    assert_eq!(
        shown,
        "parsing error:\n --> 1:3\n  |\n1 | 5 5\n  |   ^---\n  |\n  = expected Operator, To, or EndOfInput"
    );
    let error = SyntaxError { offset: 3, expected: vec![Rule::Number, Rule::Ans] };
    assert_eq!(
        error.render("1 +"),
        " --> 1:4\n  |\n1 | 1 +\n  |    ^---\n  |\n  = expected Number or Ans"
    );
}

#[test]
fn offset_outside_the_line_is_only_named() {
    let error = SyntaxError { offset: 1, expected: vec![Rule::Number] };
    assert_eq!(error.render("é"), "no such place in the line: byte 1");
    assert_eq!(error.render(""), "no such place in the line: byte 1");
    let error = SyntaxError { offset: 1234, expected: vec![] };
    assert_eq!(error.render("1 + 2"), "no such place in the line: byte 1234");
    let error = SyntaxError { offset: 2, expected: vec![Rule::Operator] };
    assert!(error.render("é").starts_with(" --> 1:2\n"));
}

#[test]
fn text_helpers() {
    assert!(same_text("of", "of"));
    assert!(!same_text("of", "off"));
    assert!(!same_text("of", "oh"));
    assert!(same_text("", ""));
    assert!(same_text("é", "é"));
    assert!(!same_text("é", "e"));
    let mut out = String::from("a");
    push_all(&mut out, &vec!['b', 'c']);
    assert_eq!(out, "abc");
}
