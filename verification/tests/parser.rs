use twotetrated::ast::Expression;
use twotetrated::ast::FileSpan;
use twotetrated::parser::comment;
use twotetrated::parser::expression;
use twotetrated::parser::finish;
use twotetrated::parser::number;
use twotetrated::parser::number_hex;
use twotetrated::parser::stream_from;
use twotetrated::parser::whitespace;
use twotetrated::parser::word;

#[test]
fn test_comment_minimal() {
    let mut input = stream_from("//", "<input>");
    let output = comment(&mut input).expect("parse failed");
    assert_eq!(output, ());
    assert_eq!(input.rest(), "");
}

#[test]
fn test_comment_longer() {
    let mut input = stream_from(
        "// hello // world!! \\r\\n lol still the same line",
        "<input>",
    );
    let output = comment(&mut input).expect("parse failed");
    assert_eq!(output, ());
    assert_eq!(input.rest(), "");
}

#[test]
fn test_comment_tail() {
    let mut input = stream_from("// hi\r\n", "<input>");
    let output = comment(&mut input).expect("parse failed");
    assert_eq!(output, ());
    assert_eq!(input.rest(), "\r\n");
}

#[test]
fn test_comment_incomplete() {
    let mut input = stream_from("/ b", "<input>");
    let start = input.checkpoint();
    let outcome = comment(&mut input);
    let actual_err = finish(&start, &input, outcome).expect_err("parse succeeded?!");
    assert_eq!(actual_err.char_span(), 0..1);
    let expected_err = "/ b\n^\ninvalid comment marker\nexpected //";
    assert_eq!(actual_err.to_string(), expected_err);
}

#[test]
fn test_comment_incomplete_minimal() {
    let mut input = stream_from("/", "<input>");
    let start = input.checkpoint();
    let outcome = comment(&mut input);
    let actual_err = finish(&start, &input, outcome).expect_err("parse succeeded?!");
    assert_eq!(actual_err.char_span(), 0..1);
    let expected_err = "/\n^\ninvalid comment marker\nexpected //";
    assert_eq!(actual_err.to_string(), expected_err);
}

#[test]
fn test_comment_incomplete_empty() {
    let mut input = stream_from("", "<input>");
    let start = input.checkpoint();
    let outcome = comment(&mut input);
    let actual_err = finish(&start, &input, outcome).expect_err("parse succeeded?!");
    assert_eq!(actual_err.char_span(), 0..0);
    let expected_err = "\n^\ninvalid comment marker\nexpected //";
    assert_eq!(actual_err.to_string(), expected_err);
}

#[test]
fn test_whitespace_none() {
    let mut input = stream_from("", "<input>");
    let output = whitespace(&mut input).expect("parse failed");
    assert_eq!(output, ());
    assert_eq!(input.rest(), "");
}

#[test]
fn test_whitespace_pseudofail() {
    let mut input = stream_from("x", "<input>");
    let output = whitespace(&mut input).expect("parse failed");
    assert_eq!(output, ());
    assert_eq!(input.rest(), "x");
}

#[test]
fn test_whitespace_minimal_space() {
    let mut input = stream_from(" x", "<input>");
    let output = whitespace(&mut input).expect("parse failed");
    assert_eq!(output, ());
    assert_eq!(input.rest(), "x");
}

#[test]
fn test_whitespace_minimal_t() {
    let mut input = stream_from("\tx", "<input>");
    let output = whitespace(&mut input).expect("parse failed");
    assert_eq!(output, ());
    assert_eq!(input.rest(), "x");
}

#[test]
fn test_whitespace_minimal_r() {
    let mut input = stream_from("\rx", "<input>");
    let output = whitespace(&mut input).expect("parse failed");
    assert_eq!(output, ());
    assert_eq!(input.rest(), "x");
}

#[test]
fn test_whitespace_minimal_n() {
    let mut input = stream_from("\nx", "<input>");
    let output = whitespace(&mut input).expect("parse failed");
    assert_eq!(output, ());
    assert_eq!(input.rest(), "x");
}

#[test]
fn test_whitespace_minimal_crlf() {
    let mut input = stream_from("\r\nx", "<input>");
    let output = whitespace(&mut input).expect("parse failed");
    assert_eq!(output, ());
    assert_eq!(input.rest(), "x");
}

#[test]
fn test_whitespace_comment() {
    let mut input = stream_from("// holy crap\r\nx", "<input>");
    let output = whitespace(&mut input).expect("parse failed");
    assert_eq!(output, ());
    assert_eq!(input.rest(), "x");
}

#[test]
fn test_whitespace_many() {
    let mut input = stream_from(" // hello\n\t// worl\nx\rtrail", "<input>");
    let output = whitespace(&mut input).expect("parse failed");
    assert_eq!(output, ());
    assert_eq!(input.rest(), "x\rtrail");
}

#[test]
fn test_word_none() {
    let mut input = stream_from("", "<input>");
    let start = input.checkpoint();
    let outcome = word(&mut input);
    let actual_err = finish(&start, &input, outcome).expect_err("parse succeeded?!");
    assert_eq!(actual_err.char_span(), 0..0);
    let expected_err = "\n^\ninvalid identifier start\nexpected underscore, any letter";
    assert_eq!(actual_err.to_string(), expected_err);
}

#[test]
fn test_word_digit() {
    let mut input = stream_from("5", "<input>");
    let start = input.checkpoint();
    let outcome = word(&mut input);
    let actual_err = finish(&start, &input, outcome).expect_err("parse succeeded?!");
    assert_eq!(actual_err.char_span(), 0..1);
    let expected_err = "5\n^\ninvalid identifier start\nexpected underscore, any letter";
    assert_eq!(actual_err.to_string(), expected_err);
}

#[test]
fn test_word_minimal_alpha() {
    let mut input = stream_from("a b c", "<input>");
    let output = word(&mut input).expect("parse failed");
    assert_eq!(output, ("a", FileSpan::new("<input>", 0..1)));
    assert_eq!(input.rest(), " b c");
}

#[test]
fn test_word_minimal_underscore() {
    let mut input = stream_from("_ _ _", "<input>");
    let output = word(&mut input).expect("parse failed");
    assert_eq!(output, ("_", FileSpan::new("<input>", 0..1)));
    assert_eq!(input.rest(), " _ _");
}

#[test]
fn test_word_minimal_alpha_digit() {
    let mut input = stream_from("r7+r8", "<input>");
    let output = word(&mut input).expect("parse failed");
    assert_eq!(output, ("r7", FileSpan::new("<input>", 0..2)));
    assert_eq!(input.rest(), "+r8");
}

#[test]
fn test_word_short() {
    let mut input = stream_from("hello world", "<input>");
    let output = word(&mut input).expect("parse failed");
    assert_eq!(output, ("hello", FileSpan::new("<input>", 0..5)));
    assert_eq!(input.rest(), " world");
}

#[test]
fn test_word_complex() {
    let mut input = stream_from("ComplicatedThing1234_XXXZZ.lol()", "<input>");
    let output = word(&mut input).expect("parse failed");
    assert_eq!(output, ("ComplicatedThing1234_XXXZZ", FileSpan::new("<input>", 0..26)));
    assert_eq!(input.rest(), ".lol()");
}

#[test]
fn test_word_space_word() {
    let mut input = stream_from("hello world", "<input>");
    let output = word(&mut input).expect("parse failed");
    assert_eq!(output, ("hello", FileSpan::new("<input>", 0..5)));
    assert_eq!(input.rest(), " world");
    let output = whitespace(&mut input).expect("parse failed");
    assert_eq!(output, ());
    assert_eq!(input.rest(), "world");
    let output = word(&mut input).expect("parse failed");
    assert_eq!(output, ("world", FileSpan::new("<input>", 6..11)));
    assert_eq!(input.rest(), "");
}

#[test]
fn test_numhex_minimal_digit() {
    let mut input = stream_from("9yooo", "<input>");
    let output = number_hex(&mut input).expect("parse failed");
    assert_eq!(output, 9);
    assert_eq!(input.rest(), "yooo");
}

#[test]
fn test_numhex_minimal_hexit() {
    let mut input = stream_from("ayooo", "<input>");
    let output = number_hex(&mut input).expect("parse failed");
    assert_eq!(output, 10);
    assert_eq!(input.rest(), "yooo");
}

#[test]
fn test_numhex_max() {
    let mut input = stream_from("ffffun!", "<input>");
    let output = number_hex(&mut input).expect("parse failed");
    assert_eq!(output, 65535);
    assert_eq!(input.rest(), "un!");
}

#[test]
fn test_numhex_several_zero() {
    let mut input = stream_from("00", "<input>");
    let output = number_hex(&mut input).expect("parse failed");
    assert_eq!(output, 0);
    assert_eq!(input.rest(), "");
}

#[test]
fn test_numhex_too_long() {
    let mut input = stream_from("12345", "<input>");
    let start = input.checkpoint();
    let outcome = number_hex(&mut input);
    let actual_err = finish(&start, &input, outcome).expect_err("parse succeeded?!");
    assert_eq!(actual_err.char_span(), 0..1);
    let expected_err = "12345\n^\ninvalid hexadecimal number with at most 4 hexits\nexpected hexit (i.e. 0-9, a-f, A-F), underscore (followed by a hexit)";
    assert_eq!(actual_err.to_string(), expected_err);
}

#[test]
fn test_numhex_too_long_zero() {
    let mut input = stream_from("00000", "<input>");
    let start = input.checkpoint();
    let outcome = number_hex(&mut input);
    let actual_err = finish(&start, &input, outcome).expect_err("parse succeeded?!");
    assert_eq!(actual_err.char_span(), 0..1);
    let expected_err = "00000\n^\ninvalid hexadecimal number with at most 4 hexits\nexpected hexit (i.e. 0-9, a-f, A-F), underscore (followed by a hexit)";
    assert_eq!(actual_err.to_string(), expected_err);
}

#[test]
fn test_numhex_empty() {
    let mut input = stream_from("", "<input>");
    let start = input.checkpoint();
    let outcome = number_hex(&mut input);
    let actual_err = finish(&start, &input, outcome).expect_err("parse succeeded?!");
    assert_eq!(actual_err.char_span(), 0..0);
    let expected_err =
        "\n^\ninvalid hexadecimal number\nexpected hexadecimal digit (i.e. 0-9, a-f, A-F)";
    assert_eq!(actual_err.to_string(), expected_err);
}

#[test]
fn test_numhex_invalid() {
    let mut input = stream_from("g", "<input>");
    let start = input.checkpoint();
    let outcome = number_hex(&mut input);
    let actual_err = finish(&start, &input, outcome).expect_err("parse succeeded?!");
    assert_eq!(actual_err.char_span(), 0..1);
    let expected_err =
        "g\n^\ninvalid hexadecimal number\nexpected hexadecimal digit (i.e. 0-9, a-f, A-F)";
    assert_eq!(actual_err.to_string(), expected_err);
}

#[test]
fn test_numhex_invalid_tail() {
    let mut input = stream_from("efgh", "<input>");
    let start = input.checkpoint();
    let outcome = number_hex(&mut input);
    let actual_err = finish(&start, &input, outcome).expect_err("parse succeeded?!");
    assert_eq!(actual_err.char_span(), 2..3);
    // Message is only bad because it matches against eof() under the hood, so can't inject anything
    let expected_err = "efgh\n  ^\n";
    assert_eq!(actual_err.to_string(), expected_err);
}

#[test]
fn test_numhex_max_underscores() {
    let mut input = stream_from("f_a_c_e+", "<input>");
    let output = number_hex(&mut input).expect("parse failed");
    assert_eq!(output, 0xFACE);
    assert_eq!(input.rest(), "+");
}

#[test]
fn test_numhex_double_underscore() {
    let mut input = stream_from("12__3 * 9", "<input>");
    let start = input.checkpoint();
    let outcome = number_hex(&mut input);
    let actual_err = finish(&start, &input, outcome).expect_err("parse succeeded?!");
    assert_eq!(actual_err.char_span(), 3..4);
    // Message is only bad because it matches against eof() under the hood, so can't inject anything
    let expected_err = "12__3 * 9\n   ^\ninvalid hexadecimal number with at most 4 hexits\nexpected hexit (i.e. 0-9, a-f, A-F), underscore (followed by a hexit)";
    assert_eq!(actual_err.to_string(), expected_err);
}

#[test]
fn test_numhex_leading_underscore() {
    let mut input = stream_from("_eee", "<input>");
    let start = input.checkpoint();
    let outcome = number_hex(&mut input);
    let actual_err = finish(&start, &input, outcome).expect_err("parse succeeded?!");
    assert_eq!(actual_err.char_span(), 0..1);
    // Message is only bad because it matches against eof() under the hood, so can't inject anything
    let expected_err =
        "_eee\n^\ninvalid hexadecimal number\nexpected hexadecimal digit (i.e. 0-9, a-f, A-F)";
    assert_eq!(actual_err.to_string(), expected_err);
}

#[test]
fn test_number_hex_minimal() {
    let mut input = stream_from("0x1;", "<input>");
    let output = number(&mut input).expect("parse failed");
    assert_eq!(output, (1, FileSpan::new("<input>", 0..3)));
    assert_eq!(input.rest(), ";");
}

#[test]
fn test_number_invalid_prefix() {
    let mut input = stream_from("0p4", "<input>");
    let start = input.checkpoint();
    let outcome = number(&mut input);
    let actual_err = finish(&start, &input, outcome).expect_err("parse succeeded?!");
    assert_eq!(actual_err.char_span(), 0..1);
    let expected_err = "0p4\n^\ninvalid number prefix\nexpected only 0x (FIXME)";
    assert_eq!(actual_err.to_string(), expected_err);
}

#[test]
fn test_expression_literal() {
    let mut input = stream_from("0x123;", "<input>");
    let output = expression(&mut input).expect("parse failed");
    assert_eq!(output.span, FileSpan::new("<input>", 0..5));
    assert_eq!(output.value, Expression::Literal(0x123));
    assert_eq!(input.rest(), ";");
}
