use pycalc::parser::{Parser, Step};
use pycalc::value::Value;

fn run(lines: &[&str]) -> (Parser, Vec<Step>) {
    let mut parser = Parser::build_new();
    for line in lines {
        parser.feed_line(line.to_string());
    }
    let out = parser.parse_program();
    (parser, out)
}

fn shown(steps: &[Step]) -> Vec<Value> {
    steps
        .iter()
        .filter_map(|s| match s {
            Step::Show(v) => Some(v.clone()),
            _ => None,
        })
        .collect()
}

#[test]
fn assignment_then_use() {
    let (_, out) = run(&["x = 5\n", "x + 1\n"]);
    let values = shown(&out);
    assert_eq!(values.len(), 2);
    assert!(matches!(values[0], Value::Terminator));
    assert!(matches!(values[1], Value::Int(6)));
}

#[test]
fn exponent_is_right_associative() {
    let (_, out) = run(&["2 ** 3 ** 2\n"]);
    let values = shown(&out);
    assert!(matches!(values[..], [Value::Int(512)]));
}

#[test]
fn multiplication_binds_tighter() {
    let (_, out) = run(&["2 + 3 * 4\n", "(2 + 3) * 4\n"]);
    let values = shown(&out);
    assert!(matches!(values[..], [Value::Int(14), Value::Int(20)]));
}

#[test]
fn unknown_name_is_reported_and_loop_continues() {
    let (parser, out) = run(&["y\n", "1\n"]);
    let values = shown(&out);
    assert!(matches!(values[..], [Value::NameError, Value::Int(1)]));
    assert!(!parser.halted);
}

#[test]
fn exit_stops_without_taking_more() {
    let (mut parser, out) = run(&["exit\n", "1 + 1\n"]);
    assert_eq!(out.len(), 1);
    assert!(matches!(out[0], Step::Halt));
    assert!(parser.halted);
    assert_eq!(parser.input.pending.len(), 1);
    assert!(matches!(parser.step(), Step::Halt));
    assert_eq!(parser.input.pending.len(), 1);
}

#[test]
fn reassignment_replaces_binding() {
    let (_, out) = run(&["x = 1\n", "x = 2\n", "x\n"]);
    let values = shown(&out);
    assert!(matches!(values[..], [Value::Terminator, Value::Terminator, Value::Int(2)]));
}

#[test]
fn reassignment_changes_type() {
    let (parser, out) = run(&["v = 3\n", "v = 1.5\n", "v\n"]);
    let values = shown(&out);
    assert!(matches!(values[2], Value::Float(ref s) if s == "1.5"));
    assert_eq!(parser.state.vars.len(), 1);
}

#[test]
fn lexical_error_line_then_fresh_line() {
    let (_, out) = run(&["2 $ 3\n", "4\n"]);
    let values = shown(&out);
    assert!(matches!(values[..], [Value::Int(2), Value::Int(4)]));
}

#[test]
fn subtraction_and_division() {
    let (_, out) = run(&["10 - 4 - 3\n", "7 / 2\n", "0 - 7 / 2\n"]);
    let values = shown(&out);
    assert!(matches!(values[..], [Value::Int(3), Value::Int(3), Value::Int(-3)]));
}

#[test]
fn division_by_zero_is_error() {
    let (_, out) = run(&["1 / 0\n"]);
    assert!(matches!(shown(&out)[..], [Value::Error]));
}

#[test]
fn overflow_is_error() {
    let (_, out) = run(&["2 ** 63\n", "2 ** 62 * 4\n", "9223372036854775807 + 1\n"]);
    assert!(matches!(shown(&out)[..], [Value::Error, Value::Error, Value::Error]));
}

#[test]
fn powers_of_small_bases() {
    let (_, out) = run(&["(0 - 2) ** 63\n", "1 ** 99999999999\n", "0 ** 0\n", "3 ** 4\n"]);
    let values = shown(&out);
    assert!(matches!(values[..], [Value::Int(i64::MIN), Value::Int(1), Value::Int(1), Value::Int(81)]));
}

#[test]
fn error_operand_leaves_running_value() {
    let (_, out) = run(&["0 - 2 ** 63\n"]);
    assert!(matches!(shown(&out)[..], [Value::Int(0)]));
}

#[test]
fn negative_exponent_is_error() {
    let (_, out) = run(&["2 ** (0 - 1)\n"]);
    assert!(matches!(shown(&out)[..], [Value::Error]));
}

#[test]
fn float_operand_leaves_value_unchanged() {
    let (_, out) = run(&["1.5 + 2\n", "2 + 1.5\n"]);
    let values = shown(&out);
    assert!(matches!(values[0], Value::Float(ref s) if s == "1.5"));
    assert!(matches!(values[1], Value::Int(2)));
}

#[test]
fn operator_without_operand_is_error() {
    let (_, out) = run(&["* 2\n"]);
    assert!(matches!(shown(&out)[0], Value::Error));
}

#[test]
fn assigning_an_error_binds_nothing() {
    let (parser, out) = run(&["z = q\n", "z\n"]);
    assert!(matches!(shown(&out)[..], [Value::Error, Value::NameError]));
    assert!(parser.state.vars.is_empty());
}

#[test]
fn statement_across_lines_waits_for_more_input() {
    let mut parser = Parser::build_new();
    parser.feed_line(String::from("(2 + 3\n"));
    let out = parser.parse_program();
    assert!(out.is_empty());
    parser.feed_line(String::from(")\n"));
    let out = parser.parse_program();
    assert!(matches!(shown(&out)[..], [Value::Int(5)]));
}

#[test]
fn unfinished_assignment_binds_nothing_yet() {
    let mut parser = Parser::build_new();
    parser.feed_line(String::from("w = (1\n"));
    assert!(matches!(parser.step(), Step::NeedLine));
    assert!(parser.state.vars.is_empty());
    parser.feed_line(String::from(")\n"));
    assert!(matches!(parser.step(), Step::Show(Value::Terminator)));
    assert_eq!(parser.state.vars.len(), 1);
}

#[test]
fn commands_and_blank_lines() {
    let (parser, out) = run(&["\n", "state\n", "del\n", "a = 4\n"]);
    assert!(matches!(out[0], Step::Skip));
    assert!(matches!(out[1], Step::Dump));
    assert!(matches!(out[2], Step::Skip));
    assert!(matches!(out[3], Step::Show(Value::Terminator)));
    assert_eq!(parser.state.vars[0].name, "a");
}

#[test]
fn empty_session_needs_a_line() {
    let mut parser = Parser::build_new();
    assert!(parser.parse_program().is_empty());
    assert!(matches!(parser.step(), Step::NeedLine));
    assert!(!parser.halted);
}

fn nested(levels: usize) -> String {
    format!("{}1{}\n", "(".repeat(levels), ")".repeat(levels))
}

#[test]
fn parentheses_nest_up_to_the_bound() {
    let (_, out) = run(&[nested(200).as_str()]);
    assert!(matches!(shown(&out)[..], [Value::Int(1)]));
}

#[test]
fn parentheses_past_the_bound_are_an_error() {
    let (_, out) = run(&[nested(201).as_str()]);
    assert!(matches!(shown(&out)[0], Value::Error));
}

#[test]
fn very_deep_nesting_does_not_exhaust_the_stack() {
    let (parser, out) = run(&[nested(2000).as_str(), "7\n"]);
    let values = shown(&out);
    assert!(matches!(values[0], Value::Error));
    assert!(matches!(values.last(), Some(Value::Int(7))));
    assert!(!parser.halted);
}

#[test]
fn exponent_chain_bound() {
    let ok = format!("1{}\n", " ** 1".repeat(200));
    let too_deep = format!("1{}\n", " ** 1".repeat(201));
    let (_, out) = run(&[ok.as_str(), too_deep.as_str()]);
    let values = shown(&out);
    assert!(matches!(values[0], Value::Int(1)));
    assert!(matches!(values[1], Value::Error));
}
