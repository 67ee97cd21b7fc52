use pycalc::rules::{build_token, match_first_rule, parse_int_literal, select_rule};
use pycalc::scanner::Input;
use pycalc::token::Token;

fn input_with(lines: &[&str]) -> Input {
    let mut input = Input::new();
    for line in lines {
        input.feed_line(line.to_string());
    }
    input
}

fn next(input: &mut Input) -> Token {
    input.get_next_token(true).clone()
}

#[test]
fn tokenizes_sum_line() {
    let mut input = input_with(&["12 + 3\n"]);
    assert!(matches!(next(&mut input), Token::Int(12)));
    assert!(matches!(next(&mut input), Token::Plus));
    assert!(matches!(next(&mut input), Token::Int(3)));
    assert!(matches!(next(&mut input), Token::NewLine));
    assert_eq!(input.stream, "");
    assert!(input.pending.is_empty());
    assert!(matches!(next(&mut input), Token::EndOfInput));
}

#[test]
fn raw_tokens_keep_spaces() {
    let mut input = input_with(&["1   2\n"]);
    assert!(matches!(input.get_next_token(false), Token::Int(1)));
    assert!(matches!(input.get_next_token(false), Token::WhiteSpace(3)));
    assert!(matches!(input.get_next_token(false), Token::Int(2)));
}

#[test]
fn lexical_error_drops_rest_of_line() {
    let mut input = input_with(&["2 $ 3\n", "4\n"]);
    assert!(matches!(next(&mut input), Token::Int(2)));
    assert!(matches!(next(&mut input), Token::SyntaxError));
    assert_eq!(input.stream, "");
    assert!(input.history.is_empty());
    assert!(matches!(next(&mut input), Token::Int(4)));
    assert!(matches!(next(&mut input), Token::NewLine));
}

#[test]
fn keywords_before_identifiers() {
    let mut input = input_with(&["exit\n", "state\n", "del x\n", "None\n", "exits\n"]);
    assert!(matches!(next(&mut input), Token::Exit));
    assert!(matches!(next(&mut input), Token::State));
    assert!(matches!(next(&mut input), Token::Del));
    match next(&mut input) {
        Token::Variable(name) => assert_eq!(name, "x"),
        other => panic!("unexpected {:?}", other),
    }
    assert!(matches!(next(&mut input), Token::NewLine));
    assert!(matches!(next(&mut input), Token::NoneT));
    match next(&mut input) {
        Token::Variable(name) => assert_eq!(name, "exits"),
        other => panic!("unexpected {:?}", other),
    }
}

#[test]
fn operators_and_punctuation() {
    let mut input = input_with(&["(a1)**b*c/d-e=\n"]);
    assert!(matches!(next(&mut input), Token::OpenParen));
    assert!(matches!(next(&mut input), Token::Variable(ref n) if n == "a1"));
    assert!(matches!(next(&mut input), Token::CloseParen));
    assert!(matches!(next(&mut input), Token::Exponent));
    assert!(matches!(next(&mut input), Token::Variable(ref n) if n == "b"));
    assert!(matches!(next(&mut input), Token::Multiply));
    assert!(matches!(next(&mut input), Token::Variable(ref n) if n == "c"));
    assert!(matches!(next(&mut input), Token::Divide));
    assert!(matches!(next(&mut input), Token::Variable(ref n) if n == "d"));
    assert!(matches!(next(&mut input), Token::Minus));
    assert!(matches!(next(&mut input), Token::Variable(ref n) if n == "e"));
    assert!(matches!(next(&mut input), Token::Equals));
    assert!(matches!(next(&mut input), Token::NewLine));
}

#[test]
fn float_literal_keeps_its_text() {
    let mut input = input_with(&["3.25 7.\n"]);
    assert!(matches!(next(&mut input), Token::Float(ref s) if s == "3.25"));
    assert!(matches!(next(&mut input), Token::Float(ref s) if s == "7."));
}

#[test]
fn integer_literal_too_large_is_lexical_error() {
    let mut input = input_with(&["99999999999999999999 + 1\n", "5\n"]);
    assert!(matches!(next(&mut input), Token::SyntaxError));
    assert!(matches!(next(&mut input), Token::Int(5)));
    assert!(matches!(next(&mut input), Token::NewLine));
}

#[test]
fn largest_integer_literal() {
    let mut input = input_with(&["9223372036854775807\n"]);
    assert!(matches!(next(&mut input), Token::Int(i64::MAX)));
}

#[test]
fn empty_lines_are_passed_over() {
    let mut input = input_with(&["", "", "7\n"]);
    assert!(matches!(next(&mut input), Token::Int(7)));
}

#[test]
fn look_ahead_queues_token() {
    let mut input = input_with(&["x = 1\n"]);
    assert!(matches!(next(&mut input), Token::Variable(_)));
    assert!(matches!(input.look_ahead(true), Token::Equals));
    assert_eq!(input.history.len(), 1);
    assert!(matches!(next(&mut input), Token::Equals));
    assert!(input.history.is_empty());
    assert!(matches!(next(&mut input), Token::Int(1)));
}

#[test]
fn look_ahead_at_end_of_input_queues_nothing() {
    let mut input = Input::new();
    assert!(matches!(input.look_ahead(true), Token::EndOfInput));
    assert!(input.history.is_empty());
}

#[test]
fn look_ahead_on_lexical_error_drops_line() {
    let mut input = input_with(&["a ?b\n", "c\n"]);
    assert!(matches!(next(&mut input), Token::Variable(_)));
    assert!(matches!(input.look_ahead(true), Token::SyntaxError));
    assert_eq!(input.stream, "");
    assert!(matches!(next(&mut input), Token::SyntaxError));
    assert!(matches!(next(&mut input), Token::Variable(ref n) if n == "c"));
}

#[test]
fn re_match_reports_token_and_length() {
    let mut input = Input::new();
    input.stream = String::from("abc def\n");
    let m = input.re_match();
    assert!(matches!(m.token, Token::Variable(ref n) if n == "abc"));
    assert_eq!(m.token_len, 3);
    assert_eq!(input.stream, "abc def\n");
    input.stream = String::from("   x");
    let m = input.re_match();
    assert!(matches!(m.token, Token::WhiteSpace(3)));
    assert_eq!(m.token_len, 3);
    input.stream = String::from("#");
    let m = input.re_match();
    assert!(matches!(m.token, Token::SyntaxError));
    assert_eq!(m.token_len, 0);
}

#[test]
fn match_first_rule_prefers_exponent_over_multiply() {
    let (t, n) = match_first_rule("**2");
    assert!(matches!(t, Token::Exponent));
    assert_eq!(n, 2);
    let (t, n) = match_first_rule("12.5x");
    assert!(matches!(t, Token::Float(ref s) if s == "12.5"));
    assert_eq!(n, 4);
}

#[test]
fn build_token_from_match() {
    assert!(matches!(build_token(16, String::from("42")), Some(Token::Int(42))));
    assert!(matches!(build_token(16, String::from("4x")), None));
    assert!(matches!(build_token(1, String::from("  ")), Some(Token::WhiteSpace(2))));
    assert!(matches!(build_token(6, String::from("ab")), Some(Token::Variable(ref n)) if n == "ab"));
}

#[test]
fn int_literal_conversion() {
    assert_eq!(parse_int_literal("0"), Some(0));
    assert_eq!(parse_int_literal("0042"), Some(42));
    assert_eq!(parse_int_literal("9223372036854775807"), Some(i64::MAX));
    assert_eq!(parse_int_literal("9223372036854775808"), None);
    assert_eq!(parse_int_literal(""), None);
    assert_eq!(parse_int_literal("1a"), None);
}

#[test]
fn identifier_must_start_with_a_letter() {
    let mut input = Input::new();
    for text in ["_a\n", "^x\n", "[1\n", "`y\n"] {
        input.stream = String::from(text);
        let m = input.re_match();
        assert!(matches!(m.token, Token::SyntaxError), "{:?}", text);
        assert_eq!(m.token_len, 0);
    }
    input.stream = String::from("a_b\n");
    let m = input.re_match();
    assert!(matches!(m.token, Token::Variable(ref n) if n == "a"));
    assert_eq!(m.token_len, 1);
}

#[test]
fn text_left_after_each_token() {
    let mut input = input_with(&["12 + 3\n"]);
    assert!(matches!(next(&mut input), Token::Int(12)));
    assert_eq!(input.stream, " + 3\n");
    assert!(matches!(next(&mut input), Token::Plus));
    assert_eq!(input.stream, " 3\n");
    assert!(matches!(next(&mut input), Token::Int(3)));
    assert_eq!(input.stream, "\n");
    assert!(matches!(next(&mut input), Token::NewLine));
    assert_eq!(input.stream, "");
    assert!(input.history.is_empty());
}

#[test]
fn after_lexical_error_one_line_is_taken() {
    let mut input = input_with(&["@ 2\n", "7\n", "8\n"]);
    assert!(matches!(next(&mut input), Token::SyntaxError));
    assert_eq!(input.stream, "");
    assert_eq!(input.pending.len(), 2);
    assert!(matches!(next(&mut input), Token::Int(7)));
    assert_eq!(input.stream, "\n");
    assert_eq!(input.pending.len(), 1);
}

#[test]
fn queued_token_is_taken_first() {
    let mut input = Input::new();
    input.stream = String::from("x = 5\n");
    assert!(matches!(input.look_ahead(true), Token::Variable(_)));
    assert!(matches!(input.look_ahead(true), Token::Equals));
    assert_eq!(input.stream, " 5\n");
    assert!(matches!(next(&mut input), Token::Variable(ref n) if n == "x"));
    assert_eq!(input.history.len(), 1);
    assert_eq!(input.stream, " 5\n");
    assert!(matches!(next(&mut input), Token::Equals));
    assert!(input.history.is_empty());
    assert_eq!(input.stream, " 5\n");
}

#[test]
fn look_ahead_queue_and_text_left() {
    let mut input = Input::new();
    input.stream = String::from(" = 5\n");
    assert!(matches!(input.look_ahead(true), Token::Equals));
    assert_eq!(input.history.len(), 1);
    assert!(matches!(input.history[0], Token::Equals));
    assert_eq!(input.stream, " 5\n");
    assert!(matches!(input.current, Token::NewLine));
}

#[test]
fn look_ahead_lexical_error_empties_text() {
    let mut input = Input::new();
    input.stream = String::from("@\n");
    assert!(matches!(input.look_ahead(true), Token::SyntaxError));
    assert_eq!(input.stream, "");
    assert_eq!(input.history.len(), 1);
}

#[test]
fn look_ahead_takes_a_waiting_line() {
    let mut input = input_with(&["= 3\n"]);
    assert!(matches!(input.look_ahead(true), Token::Equals));
    assert_eq!(input.stream, " 3\n");
    assert!(input.pending.is_empty());
}

#[test]
fn peek_then_take_is_take() {
    let mut a = input_with(&["  foo + 1\n"]);
    let mut b = input_with(&["  foo + 1\n"]);
    a.look_ahead(true);
    let ta = next(&mut a);
    let tb = next(&mut b);
    assert!(matches!(ta, Token::Variable(ref n) if n == "foo"));
    assert!(matches!(tb, Token::Variable(ref n) if n == "foo"));
    assert_eq!(a.stream, b.stream);
    assert_eq!(a.stream, " + 1\n");
    assert!(a.history.is_empty());
}

#[test]
fn select_rule_takes_first_nonempty_match() {
    let mut ms: Vec<Option<String>> = vec![None; 17];
    ms[6] = Some(String::from("abc"));
    ms[16] = Some(String::from("12"));
    let (t, n) = select_rule(ms);
    assert!(matches!(t, Token::Variable(ref s) if s == "abc"));
    assert_eq!(n, 3);

    let mut ms: Vec<Option<String>> = vec![None; 17];
    ms[1] = Some(String::new());
    ms[16] = Some(String::from("12"));
    let (t, n) = select_rule(ms);
    assert!(matches!(t, Token::Int(12)));
    assert_eq!(n, 2);

    let (t, n) = select_rule(vec![None; 17]);
    assert!(matches!(t, Token::SyntaxError));
    assert_eq!(n, 0);

    let mut ms: Vec<Option<String>> = vec![None; 17];
    ms[16] = Some(String::from("99999999999999999999"));
    let (t, n) = select_rule(ms);
    assert!(matches!(t, Token::SyntaxError));
    assert_eq!(n, 0);
}
