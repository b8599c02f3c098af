use smol::{parse_eson_file, parse_jsonish_file, parse_and_serialize, Dialect};
use smol::grammar::Expected;
use smol::cli::{run, SmolError, EX_USAGE};
use smol::diag::dec_string;

#[test]
fn double_comma_fails_with_no_value() {
    let e = parse_jsonish_file("{a: 1,,}").unwrap_err();
    assert_eq!(e.pos, 6);
    assert_eq!(e.expected, Expected::KeyOrCloseBrace);
    assert_eq!(e.line, 1);
    assert_eq!(e.col, 7);
    assert!(parse_eson_file("{a: 1,,}").is_err());
    assert!(parse_and_serialize("{a: 1,,}", Dialect::Jsonish).is_err());
}

#[test]
fn missing_comma_fails() {
    let e = parse_jsonish_file("{a: 1 b: 2}").unwrap_err();
    assert_eq!(e.pos, 6);
    assert_eq!(e.expected, Expected::CommaOrCloseBrace);
    assert!(parse_eson_file("{a: 1 b: 2}").is_err());
}

#[test]
fn error_positions_carry_line_and_column() {
    let e = parse_eson_file("{\na: 1 b: 2}").unwrap_err();
    assert_eq!(e.pos, 7);
    assert_eq!(e.line, 2);
    assert_eq!(e.col, 6);
    assert_eq!(e.expected, Expected::CommaOrCloseBrace);
}

#[test]
fn message_describes_the_failure() {
    let e = parse_eson_file("{a: 1 b: 2}").unwrap_err();
    assert_eq!(e.message(), "expected ',' or '}' at line 1, column 7");
}

#[test]
fn empty_input_expects_a_value() {
    let e = parse_eson_file("").unwrap_err();
    assert_eq!(e.pos, 0);
    assert_eq!(e.expected, Expected::Value);
    let e = parse_eson_file("   \n  ").unwrap_err();
    assert_eq!(e.pos, 6);
    assert_eq!(e.expected, Expected::Value);
}

#[test]
fn trailing_text_expects_end_of_input() {
    let e = parse_eson_file("{} x").unwrap_err();
    assert_eq!(e.pos, 3);
    assert_eq!(e.expected, Expected::EndOfInput);
}

#[test]
fn minus_without_digits_expects_a_digit() {
    let e = parse_eson_file("[-a]").unwrap_err();
    assert_eq!(e.pos, 2);
    assert_eq!(e.expected, Expected::Digit);
}

#[test]
fn missing_colon_is_reported() {
    let e = parse_eson_file("{a 1}").unwrap_err();
    assert_eq!(e.pos, 3);
    assert_eq!(e.expected, Expected::Colon);
}

#[test]
fn unterminated_string_is_reported() {
    let e = parse_eson_file("\"abc").unwrap_err();
    assert_eq!(e.pos, 4);
    assert_eq!(e.expected, Expected::StringChar);
}

#[test]
fn dangling_backslash_is_reported() {
    let e = parse_eson_file("\"a\\").unwrap_err();
    assert_eq!(e.pos, 3);
    assert_eq!(e.expected, Expected::EscapeChar);
}

#[test]
fn bad_unicode_escape_is_reported() {
    let e = parse_eson_file("{\"a\\uzz\": 1}").unwrap_err();
    assert_eq!(e.pos, 5);
    assert_eq!(e.expected, Expected::HexDigit);
    let e = parse_eson_file("{\"a\\u1\": 1}").unwrap_err();
    assert_eq!(e.pos, 6);
    assert_eq!(e.expected, Expected::HexDigit);
}

#[test]
fn bare_comma_in_array_expects_value_or_close() {
    let e = parse_eson_file("[,]").unwrap_err();
    assert_eq!(e.pos, 1);
    assert_eq!(e.expected, Expected::ValueOrCloseBracket);
}

#[test]
fn missing_array_comma_is_reported() {
    let e = parse_eson_file("[1 2]").unwrap_err();
    assert_eq!(e.pos, 3);
    assert_eq!(e.expected, Expected::CommaOrCloseBracket);
}

#[test]
fn run_dispatches_on_argument_count() {
    let args = vec!["eson".to_string(), "data.eson".to_string()];
    assert_eq!(run(&args).unwrap(), "data.eson");

    let r = run(&vec!["eson".to_string()]);
    match r {
        Err(SmolError(code, msg)) => {
            assert_eq!(code, EX_USAGE);
            assert!(msg.is_none());
        },
        _ => panic!("expected a usage error"),
    }
    assert!(run(&vec!["a".to_string(), "b".to_string(), "c".to_string()]).is_err());
}

#[test]
fn from_err_formats_code_and_message() {
    let e = parse_eson_file("{a: 1,,}").unwrap_err();
    let wrapped = SmolError::from_err(65, "Could not parse file", e.message().as_str());
    assert_eq!(wrapped.0, 65);
    assert_eq!(
        wrapped.1.unwrap(),
        "Could not parse file: expected a key or '}' at line 1, column 7"
    );
}

#[test]
fn decimal_rendering_is_exact() {
    assert_eq!(dec_string(0), "0");
    assert_eq!(dec_string(7), "7");
    assert_eq!(dec_string(10), "10");
    assert_eq!(dec_string(123456789), "123456789");
    assert_eq!(dec_string(18446744073709551615), "18446744073709551615");
}
