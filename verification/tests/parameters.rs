use bleh::framework::commands::{bind, cmd, remainder_is_last, CommandMeta, ErasedCommand};
use bleh::framework::grammar::{
    parse_signed, parse_text, parse_unsigned, ParseError, ParseErrorKind, Width,
};
use bleh::framework::parameters::{ParamKind, ParameterMeta, Value};
use bleh::framework::text::{
    char_is_whitespace, chars_of, join, next_word, str_concat, strip_prefix,
};

fn named(label: &str, kind: ParamKind) -> ParamKind {
    ParamKind::Named(label.to_string(), Box::new(kind))
}

fn repeated(kind: ParamKind) -> ParamKind {
    ParamKind::Repeated(Box::new(kind))
}

fn number_error(at: &str) -> ParseError {
    ParseError { kind: ParseErrorKind::ExpectedNumber, at: at.to_string() }
}

fn text_error(at: &str) -> ParseError {
    ParseError { kind: ParseErrorKind::ExpectedText, at: at.to_string() }
}

#[test]
fn whitespace_is_what_std_calls_whitespace() {
    let mut c = 0u32;
    while c <= 0x10FFFF {
        if let Some(ch) = char::from_u32(c) {
            assert_eq!(char_is_whitespace(ch), ch.is_whitespace(), "U+{:04X}", c);
        }
        c += 1;
    }
}

#[test]
fn chars_of_keeps_every_character() {
    assert_eq!(chars_of("a\u{e9}\u{1F600} z"), vec!['a', '\u{e9}', '\u{1F600}', ' ', 'z']);
    assert_eq!(chars_of(""), Vec::<char>::new());
}

#[test]
fn next_word_splits_at_the_first_white_space() {
    assert_eq!(next_word("grp b hello"), Some(("grp", "b hello")));
    assert_eq!(next_word("hello"), Some(("hello", "")));
    assert_eq!(next_word("a\tb"), Some(("a", "b")));
    assert_eq!(next_word("a\u{a0}b"), Some(("a", "b")));
    assert_eq!(next_word("a  b"), Some(("a", " b")));
}

#[test]
fn next_word_of_a_blank_line_is_nothing() {
    assert_eq!(next_word(""), None);
    assert_eq!(next_word("   "), None);
    assert_eq!(next_word(" \t\u{2003}\n"), None);
}

#[test]
fn next_word_of_a_line_that_starts_with_white_space_is_empty() {
    assert_eq!(next_word(" grp b"), Some(("", "grp b")));
}

#[test]
fn strip_prefix_takes_the_prefix_off() {
    assert_eq!(strip_prefix("!hi there", "!"), Some("hi there"));
    assert_eq!(strip_prefix("!hi", "!hi"), Some(""));
    assert_eq!(strip_prefix("hi", ""), Some("hi"));
    assert_eq!(strip_prefix("\u{e9}t\u{e9}", "\u{e9}"), Some("t\u{e9}"));
}

#[test]
fn strip_prefix_refuses_what_does_not_start_with_it() {
    assert_eq!(strip_prefix("hi", "!"), None);
    assert_eq!(strip_prefix("!", "!!"), None);
    assert_eq!(strip_prefix("", "!"), None);
    assert_eq!(strip_prefix("a!", "!"), None);
}

#[test]
fn str_concat_puts_one_after_the_other() {
    assert_eq!(str_concat("Vec<", "String"), "Vec<String");
    assert_eq!(str_concat("", ""), "");
}

#[test]
fn join_separates_neighbours() {
    assert_eq!(join(&vec!["a", "b", "c"], ", "), "a, b, c");
    assert_eq!(join(&vec!["a"], ", "), "a");
    assert_eq!(join(&Vec::new(), ", "), "");
    assert_eq!(join(&vec!["", ""], "-"), "-");
}

#[test]
fn unsigned_numbers_are_padded_digits() {
    assert_eq!(parse_unsigned("42", Width::W64), Ok(("", 42)));
    assert_eq!(parse_unsigned("  42  rest", Width::W64), Ok(("rest", 42)));
    assert_eq!(parse_unsigned("\t007\r\n", Width::W8), Ok(("", 7)));
    assert_eq!(parse_unsigned("0", Width::W8), Ok(("", 0)));
    assert_eq!(parse_unsigned("12\u{a0}x", Width::W8), Ok(("\u{a0}x", 12)));
}

#[test]
fn a_number_may_be_quoted() {
    assert_eq!(parse_unsigned("\"12\" x", Width::W32), Ok(("x", 12)));
    assert_eq!(parse_unsigned(" \"255\"", Width::W8), Ok(("", 255)));
    assert_eq!(parse_unsigned("\"256\"", Width::W8), Err(number_error("\"256\"")));
    assert_eq!(parse_signed("\"-5\"6", Width::W8), Ok(("6", -5)));
    assert_eq!(parse_signed("\"+\"", Width::W8), Err(number_error("\"+\"")));
}

#[test]
fn a_number_fills_its_word() {
    assert_eq!(parse_unsigned("12abc", Width::W32), Err(number_error("12abc")));
    assert_eq!(parse_unsigned(" 12abc 3", Width::W32), Err(number_error("12abc 3")));
    assert_eq!(parse_unsigned("1.5", Width::W32), Err(number_error("1.5")));
    assert_eq!(parse_unsigned("\"12", Width::W32), Err(number_error("\"12")));
    assert_eq!(parse_unsigned("\"1 2\" 3", Width::W32), Err(number_error("\"1 2\" 3")));
    assert_eq!(parse_unsigned("\"\"", Width::W32), Err(number_error("\"\"")));
    assert_eq!(parse_signed("-7x", Width::W8), Err(number_error("-7x")));
    assert_eq!(parse_signed("7-", Width::W8), Err(number_error("7-")));
    assert_eq!(parse_signed("+-7", Width::W8), Err(number_error("+-7")));
}

#[test]
fn unsigned_numbers_fit_their_width() {
    assert_eq!(parse_unsigned("255", Width::W8), Ok(("", 255)));
    assert_eq!(parse_unsigned("256", Width::W8), Err(number_error("256")));
    assert_eq!(parse_unsigned("65535", Width::W16), Ok(("", 65535)));
    assert_eq!(parse_unsigned("65536", Width::W16), Err(number_error("65536")));
    assert_eq!(parse_unsigned("4294967295", Width::W32), Ok(("", 4294967295)));
    assert_eq!(parse_unsigned("4294967296", Width::W32), Err(number_error("4294967296")));
    assert_eq!(parse_unsigned("18446744073709551615", Width::W64), Ok(("", u64::MAX)));
    assert_eq!(
        parse_unsigned("18446744073709551616", Width::W64),
        Err(number_error("18446744073709551616"))
    );
    assert_eq!(
        parse_unsigned("99999999999999999999999999", Width::W64),
        Err(number_error("99999999999999999999999999"))
    );
}

#[test]
fn unsigned_numbers_need_a_digit() {
    assert_eq!(parse_unsigned("", Width::W64), Err(number_error("")));
    assert_eq!(parse_unsigned("   ", Width::W64), Err(number_error("")));
    assert_eq!(parse_unsigned("  abc", Width::W64), Err(number_error("abc")));
    assert_eq!(parse_unsigned("-1", Width::W64), Err(number_error("-1")));
    assert_eq!(parse_unsigned("+1", Width::W64), Err(number_error("+1")));
    assert_eq!(parse_unsigned("\u{a0}1", Width::W64), Err(number_error("\u{a0}1")));
    assert_eq!(parse_unsigned("\u{661}", Width::W64), Err(number_error("\u{661}")));
}

#[test]
fn signed_numbers_take_a_sign() {
    assert_eq!(parse_signed("42", Width::W64), Ok(("", 42)));
    assert_eq!(parse_signed("+42", Width::W64), Ok(("", 42)));
    assert_eq!(parse_signed("-42", Width::W64), Ok(("", -42)));
    assert_eq!(parse_signed(" -42 rest", Width::W64), Ok(("rest", -42)));
    assert_eq!(parse_signed("-0", Width::W8), Ok(("", 0)));
    assert_eq!(parse_signed("+0012", Width::W8), Ok(("", 12)));
}

#[test]
fn signed_numbers_fit_their_width() {
    assert_eq!(parse_signed("127", Width::W8), Ok(("", 127)));
    assert_eq!(parse_signed("128", Width::W8), Err(number_error("128")));
    assert_eq!(parse_signed("-128", Width::W8), Ok(("", -128)));
    assert_eq!(parse_signed("-129", Width::W8), Err(number_error("-129")));
    assert_eq!(parse_signed("32767", Width::W16), Ok(("", 32767)));
    assert_eq!(parse_signed("-32768", Width::W16), Ok(("", -32768)));
    assert_eq!(parse_signed("32768", Width::W16), Err(number_error("32768")));
    assert_eq!(parse_signed("2147483647", Width::W32), Ok(("", 2147483647)));
    assert_eq!(parse_signed("-2147483648", Width::W32), Ok(("", -2147483648)));
    assert_eq!(parse_signed("-2147483649", Width::W32), Err(number_error("-2147483649")));
    assert_eq!(parse_signed("9223372036854775807", Width::W64), Ok(("", i64::MAX)));
    assert_eq!(parse_signed("-9223372036854775808", Width::W64), Ok(("", i64::MIN)));
    assert_eq!(
        parse_signed("9223372036854775808", Width::W64),
        Err(number_error("9223372036854775808"))
    );
    assert_eq!(
        parse_signed("-9223372036854775809", Width::W64),
        Err(number_error("-9223372036854775809"))
    );
}

#[test]
fn signed_numbers_need_a_digit() {
    assert_eq!(parse_signed("", Width::W64), Err(number_error("")));
    assert_eq!(parse_signed("-", Width::W64), Err(number_error("-")));
    assert_eq!(parse_signed("  + 1", Width::W64), Err(number_error("+ 1")));
    assert_eq!(parse_signed("--1", Width::W64), Err(number_error("--1")));
    assert_eq!(parse_signed("x", Width::W64), Err(number_error("x")));
}

#[test]
fn quoted_argument_is_one_string() {
    assert_eq!(
        parse_text("\"two words\" rest"),
        Ok(("rest", "two words".to_string()))
    );
}

#[test]
fn text_is_a_word_or_a_quoted_string() {
    assert_eq!(parse_text("hello"), Ok(("", "hello".to_string())));
    assert_eq!(parse_text("  hello  world"), Ok(("world", "hello".to_string())));
    assert_eq!(parse_text("\"\""), Ok(("", "".to_string())));
    assert_eq!(parse_text("\"a\"b"), Ok(("b", "a".to_string())));
    assert_eq!(parse_text("\"a\\\" b\""), Ok(("b\"", "a\\".to_string())));
    assert_eq!(parse_text("a\"b c"), Ok(("c", "a\"b".to_string())));
    assert_eq!(parse_text("a\u{2003}b"), Ok(("\u{2003}b", "a".to_string())));
}

#[test]
fn a_quote_that_is_never_closed_starts_a_word() {
    assert_eq!(parse_text("\"abc def"), Ok(("def", "\"abc".to_string())));
    assert_eq!(parse_text("\""), Ok(("", "\"".to_string())));
}

#[test]
fn text_needs_a_character() {
    assert_eq!(parse_text(""), Err(text_error("")));
    assert_eq!(parse_text(" \t "), Err(text_error("")));
    assert_eq!(parse_text(" \u{a0}x"), Err(text_error("\u{a0}x")));
}

#[test]
fn remainder_takes_everything() {
    assert_eq!(
        ParamKind::Remainder.parse("a b c"),
        Ok(("", Value::Text("a b c".to_string())))
    );
    assert_eq!(
        ParamKind::Remainder.parse("  a  b\tc  "),
        Ok(("", Value::Text("  a  b\tc  ".to_string())))
    );
    assert_eq!(ParamKind::Remainder.parse(""), Ok(("", Value::Text("".to_string()))));
}

#[test]
fn kinds_parse_as_their_grammar_says() {
    assert_eq!(ParamKind::Unsigned(Width::W8).parse("200 x"), Ok(("x", Value::Unsigned(200))));
    assert_eq!(ParamKind::Unsigned(Width::W8).parse("300 x"), Err(number_error("300 x")));
    assert_eq!(ParamKind::Signed(Width::W16).parse("-300"), Ok(("", Value::Signed(-300))));
    assert_eq!(ParamKind::Text.parse("\"a b\" c"), Ok(("c", Value::Text("a b".to_string()))));
    assert_eq!(ParamKind::Text.parse(""), Err(text_error("")));
    assert_eq!(
        ParamKind::Context("Pool".to_string()).parse("left alone"),
        Ok(("left alone", Value::Context))
    );
}

#[test]
fn a_label_does_not_change_what_is_read() {
    let kind = named("count", ParamKind::Unsigned(Width::W32));
    assert_eq!(kind.parse(" 7 x"), Ok(("x", Value::Unsigned(7))));
    assert_eq!(kind.parse("x"), Err(number_error("x")));
}

#[test]
fn a_repetition_reads_until_it_fails() {
    let words = repeated(ParamKind::Text);
    assert_eq!(
        words.parse("a \"b c\" d"),
        Ok((
            "",
            Value::List(vec![
                Value::Text("a".to_string()),
                Value::Text("b c".to_string()),
                Value::Text("d".to_string()),
            ])
        ))
    );
    let numbers = repeated(ParamKind::Unsigned(Width::W8));
    assert_eq!(
        numbers.parse("1 2 300 4"),
        Ok(("300 4", Value::List(vec![Value::Unsigned(1), Value::Unsigned(2)])))
    );
}

#[test]
fn a_repetition_of_nothing_is_empty() {
    let numbers = repeated(ParamKind::Unsigned(Width::W8));
    assert_eq!(numbers.parse("x"), Ok(("x", Value::List(vec![]))));
    assert_eq!(numbers.parse(""), Ok(("", Value::List(vec![]))));
}

#[test]
fn a_repetition_stops_where_nothing_is_taken() {
    let rest = repeated(ParamKind::Remainder);
    assert_eq!(
        rest.parse("a b"),
        Ok(("", Value::List(vec![Value::Text("a b".to_string())])))
    );
    assert_eq!(rest.parse(""), Ok(("", Value::List(vec![]))));
    let context = repeated(ParamKind::Context("C".to_string()));
    assert_eq!(context.parse("a"), Ok(("a", Value::List(vec![]))));
}

#[test]
fn parse_many_appends() {
    let mut items = vec![Value::Context];
    let rest = ParamKind::Unsigned(Width::W64).parse_many("1 2 z", &mut items);
    assert_eq!(rest, "z");
    assert_eq!(items, vec![Value::Context, Value::Unsigned(1), Value::Unsigned(2)]);
}

#[test]
fn labels_are_as_the_help_shows_them() {
    assert_eq!(ParamKind::Unsigned(Width::W8).info_text(), "u8");
    assert_eq!(ParamKind::Unsigned(Width::W16).info_text(), "u16");
    assert_eq!(ParamKind::Unsigned(Width::W32).info_text(), "u32");
    assert_eq!(ParamKind::Unsigned(Width::W64).info_text(), "u64");
    assert_eq!(ParamKind::Signed(Width::W8).info_text(), "i8");
    assert_eq!(ParamKind::Signed(Width::W16).info_text(), "i16");
    assert_eq!(ParamKind::Signed(Width::W32).info_text(), "i32");
    assert_eq!(ParamKind::Signed(Width::W64).info_text(), "i64");
    assert_eq!(ParamKind::Text.info_text(), "String");
    assert_eq!(ParamKind::Remainder.info_text(), "String*");
    assert_eq!(named("rule", ParamKind::Text).info_text(), "rule: String");
    assert_eq!(repeated(ParamKind::Text).info_text(), "Vec<String>");
    assert_eq!(named("path", repeated(ParamKind::Text)).info_text(), "path: Vec<String>");
    assert_eq!(ParamKind::Context("SqlitePool".to_string()).info_text(), "SqlitePool");
}

#[test]
fn context_parameters_are_not_visible() {
    assert!(ParamKind::Text.is_visible());
    assert!(ParamKind::Remainder.is_visible());
    assert!(named("n", ParamKind::Unsigned(Width::W8)).is_visible());
    assert!(!ParamKind::Context("Pool".to_string()).is_visible());
    assert!(!named("pool", ParamKind::Context("Pool".to_string())).is_visible());
    assert!(!repeated(ParamKind::Context("Pool".to_string())).is_visible());
    assert_eq!(
        named("n", ParamKind::Unsigned(Width::W8)).meta(),
        ParameterMeta { info: "n: u8".to_string(), visible: true }
    );
}

#[test]
fn widths_have_their_bounds() {
    assert_eq!(Width::W8.max_unsigned(), u8::MAX as u64);
    assert_eq!(Width::W16.max_unsigned(), u16::MAX as u64);
    assert_eq!(Width::W32.max_unsigned(), u32::MAX as u64);
    assert_eq!(Width::W64.max_unsigned(), u64::MAX);
    assert_eq!(Width::W8.max_signed(), i8::MAX as u64);
    assert_eq!(Width::W16.max_signed(), i16::MAX as u64);
    assert_eq!(Width::W32.max_signed(), i32::MAX as u64);
    assert_eq!(Width::W64.max_signed(), i64::MAX as u64);
}

#[test]
fn parse_errors_say_where() {
    assert_eq!(number_error("abc").message(), "expected a number at: abc");
    assert_eq!(text_error("").message(), "expected text at: ");
}

#[test]
fn binding_reads_each_parameter_from_what_the_last_left() {
    let params = vec![
        ParamKind::Context("Pool".to_string()),
        named("rule", ParamKind::Text),
        named("count", ParamKind::Signed(Width::W32)),
        named("message", ParamKind::Remainder),
    ];
    assert_eq!(
        bind(&params, "\"FREQ=DAILY\" -3 say  hi "),
        Ok((
            "",
            vec![
                Value::Context,
                Value::Text("FREQ=DAILY".to_string()),
                Value::Signed(-3),
                Value::Text("say  hi ".to_string()),
            ]
        ))
    );
}

#[test]
fn binding_nothing_leaves_the_input() {
    assert_eq!(bind(&vec![], "  as it is "), Ok(("  as it is ", vec![])));
}

#[test]
fn nothing_can_be_bound_after_a_remainder() {
    let params = vec![ParamKind::Remainder, ParamKind::Text];
    assert_eq!(bind(&params, "a b"), Err(text_error("")));
    assert_eq!(bind(&params, ""), Err(text_error("")));
    let params = vec![named("all", ParamKind::Remainder), ParamKind::Unsigned(Width::W8)];
    assert_eq!(bind(&params, "1 2"), Err(number_error("")));
}

#[test]
fn the_remainder_is_to_be_declared_last() {
    assert!(remainder_is_last(&vec![]));
    assert!(remainder_is_last(&vec![ParamKind::Remainder]));
    assert!(remainder_is_last(&vec![ParamKind::Text, named("all", ParamKind::Remainder)]));
    assert!(remainder_is_last(&vec![ParamKind::Text, ParamKind::Text]));
    assert!(!remainder_is_last(&vec![ParamKind::Remainder, ParamKind::Text]));
    assert!(!remainder_is_last(&vec![ParamKind::Remainder, ParamKind::Remainder]));
    assert!(!remainder_is_last(&vec![
        ParamKind::Text,
        named("all", ParamKind::Remainder),
        ParamKind::Context("C".to_string()),
    ]));
    assert!(ParamKind::Remainder.is_taking_all());
    assert!(!repeated(ParamKind::Remainder).is_taking_all());
}

#[test]
fn binding_fails_as_a_whole() {
    let params = vec![ParamKind::Text, ParamKind::Unsigned(Width::W8), ParamKind::Text];
    assert_eq!(bind(&params, "a 256 b"), Err(number_error("256 b")));
    assert_eq!(bind(&params, "a 1"), Err(text_error("")));
    assert_eq!(bind(&params, ""), Err(text_error("")));
}

#[test]
fn a_command_describes_its_parameters_in_order() {
    let command: ErasedCommand<u8> = cmd(
        vec![
            ParamKind::Context("Pool".to_string()),
            named("rule", ParamKind::Text),
            named("message", ParamKind::Remainder),
        ],
        7,
    );
    assert_eq!(command.handler, 7);
    assert_eq!(
        command.meta,
        CommandMeta {
            description: None,
            params: vec![
                ParameterMeta { info: "Pool".to_string(), visible: false },
                ParameterMeta { info: "rule: String".to_string(), visible: true },
                ParameterMeta { info: "message: String*".to_string(), visible: true },
            ],
        }
    );
    assert_eq!(command.meta.visible_params(), vec!["rule: String", "message: String*"]);
    assert_eq!(command.meta.format_params(), "rule: String, message: String*");
    assert_eq!(
        command.bind("daily  wake up"),
        Ok((
            "",
            vec![
                Value::Context,
                Value::Text("daily".to_string()),
                Value::Text("wake up".to_string()),
            ]
        ))
    );
}

#[test]
fn a_command_takes_a_description() {
    let command: ErasedCommand<()> =
        ErasedCommand::new(vec![], (), Some("old".to_string())).with_description("say hi");
    assert_eq!(command.meta.description, Some("say hi".to_string()));
    assert_eq!(command.meta.params, vec![]);
    assert_eq!(command.meta.format_params(), "");
    let copy = command.meta.clone();
    assert_eq!(copy, command.meta);
}
