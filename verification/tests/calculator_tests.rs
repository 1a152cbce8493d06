use calculator::calculator::{Calculator, CalculatorMode, CalculatorResult};
use calculator::expr::Expr;
use calculator::parser::parse;
use calculator::render::{render_value, ValueParts};

/// Reduce a parsed tree with IEEE double-precision arithmetic, reading each
/// literal out of the input text it was parsed from.
fn eval_expr(input: &str, e: &Expr) -> f64 {
    match e {
        Expr::Num { lo, hi } => input
            .get(*lo..*hi)
            .and_then(|t| t.parse::<f64>().ok())
            .unwrap_or(f64::NAN),
        Expr::Neg(a) => -eval_expr(input, a),
        Expr::Add(a, b) => eval_expr(input, a) + eval_expr(input, b),
        Expr::Sub(a, b) => eval_expr(input, a) - eval_expr(input, b),
        Expr::Mul(a, b) => eval_expr(input, a) * eval_expr(input, b),
        Expr::Div(a, b) => eval_expr(input, a) / eval_expr(input, b),
    }
}

/// The host-side numeric facts and renderings of one value.
fn value_parts(val: f64) -> ValueParts {
    let rounded = val.round();
    let as_int = rounded as i64;
    ValueParts {
        near_int: (val - rounded).abs() < 1e-10,
        int_big: as_int.abs() > 1_000_000_000,
        int_text: format!("{}", as_int),
        int_sci_text: format!("{:e}", as_int as f64),
        abs_big: val.abs() > 1_000_000_000.0,
        abs_small: val.abs() < 0.0001 && val.abs() > 0.0,
        sci_text: format!("{:e}", val),
        fixed_text: format!("{:.10}", val),
    }
}

fn submit(calc: &mut Calculator) {
    if let Some(ast) = calc.evaluate() {
        let text = calc.input.clone();
        let val = eval_expr(&text, &ast);
        calc.apply_value(&value_parts(val));
    }
}

fn outcome(s: &str) -> CalculatorResult {
    let mut calc = Calculator::new();
    for ch in s.chars() {
        calc.append_char(ch);
    }
    submit(&mut calc);
    calc.result
}

fn expect_success(s: &str, want: &str) {
    match outcome(s) {
        CalculatorResult::Success(t) => assert_eq!(t, want, "input {:?}", s),
        other => panic!("input {:?}: expected success, got {:?}", s, other),
    }
}

fn expect_error(s: &str) {
    match outcome(s) {
        CalculatorResult::Error(m) => assert_eq!(m, "Invalid expression"),
        other => panic!("input {:?}: expected error, got {:?}", s, other),
    }
}

#[test]
fn precedence_and_grouping() {
    expect_success("2 + 3 * 4", "14");
    expect_success("(2 + 3) * 4", "20");
    expect_success("(10 + (5 * 2)) / 4", "5");
}

#[test]
fn left_associativity() {
    expect_success("8 - 3 - 2", "3");
    expect_success("8 / 4 / 2", "1");
    expect_success("10 - 2 + 1", "9");
}

#[test]
fn unary_minus() {
    expect_success("-5 + 3", "-2");
    expect_success("2 - -3", "5");
    expect_success("-(2 + 3)", "-5");
}

#[test]
fn parse_tree_shape() {
    let bytes: Vec<u8> = b"2+3*4".to_vec();
    let want = Expr::Add(
        Box::new(Expr::Num { lo: 0, hi: 1 }),
        Box::new(Expr::Mul(
            Box::new(Expr::Num { lo: 2, hi: 3 }),
            Box::new(Expr::Num { lo: 4, hi: 5 }),
        )),
    );
    assert_eq!(parse(&bytes), Some(want));
}

#[test]
fn integral_snap() {
    expect_success("9 / 3", "3");
    expect_success("0.1 + 0.2", "0.3");
    expect_success("2.0000000000001 - 2", "0");
}

#[test]
fn integral_boundary_stays_plain() {
    expect_success("1000000000", "1000000000");
    expect_success("-1000000000", "-1000000000");
}

#[test]
fn large_magnitude_scientific() {
    expect_success("2000000000 + 1", "2.000000001e9");
    expect_success("2000000000 * 2000000000", "4e18");
}

#[test]
fn small_magnitude_scientific() {
    expect_success("1 / 100000", "1e-5");
}

#[test]
fn trailing_zero_trim() {
    expect_success("1 / 4", "0.25");
    expect_success("7 / 2", "3.5");
    expect_success("1 / 3", "0.3333333333");
}

#[test]
fn formatting_is_repeatable() {
    expect_success("1 / 4", "0.25");
    expect_success("0.25", "0.25");
    expect_success("3.5", "3.5");
    let parts = value_parts(0.25);
    let once = render_value(&parts);
    let twice = render_value(&parts);
    assert_eq!(once, twice);
}

#[test]
fn malformed_inputs_error() {
    expect_error("2 + ");
    expect_error("(2 + 3");
    expect_error("2 ++ 3");
    expect_error("abc");
    expect_error("()");
    expect_error("5 6");
    expect_error("1.");
    expect_error(".5");
    expect_error("\u{ff12} + 1");
}

#[test]
fn blank_input_is_empty_outcome() {
    let mut calc = Calculator::new();
    submit(&mut calc);
    assert_eq!(calc.result, CalculatorResult::Empty);
    assert_eq!(calc.mode, CalculatorMode::AwaitingInput);

    let mut calc = Calculator::new();
    for ch in "   ".chars() {
        calc.append_char(ch);
    }
    submit(&mut calc);
    assert_eq!(calc.result, CalculatorResult::Empty);
    assert_eq!(calc.mode, CalculatorMode::AwaitingInput);
}

#[test]
fn blank_submit_after_result_returns_to_awaiting_input() {
    let mut calc = Calculator::new();
    for ch in "5+3".chars() {
        calc.append_char(ch);
    }
    submit(&mut calc);
    assert_eq!(calc.mode, CalculatorMode::ShowingResult);
    calc.delete_last();
    calc.delete_last();
    calc.delete_last();
    assert_eq!(calc.input, "");
    assert_eq!(calc.mode, CalculatorMode::ShowingResult);
    submit(&mut calc);
    assert_eq!(calc.result, CalculatorResult::Empty);
    assert_eq!(calc.mode, CalculatorMode::AwaitingInput);
}

#[test]
fn unicode_whitespace_only_is_blank() {
    let mut calc = Calculator::new();
    for ch in "\u{a0}\u{2003} \u{3000}".chars() {
        calc.append_char(ch);
    }
    submit(&mut calc);
    assert_eq!(calc.result, CalculatorResult::Empty);
    assert_eq!(calc.mode, CalculatorMode::AwaitingInput);
}

#[test]
fn whitespace_is_insignificant() {
    expect_success("  ( 2 +\t3 ) *4 ", "20");
    expect_success("\t 5\t+ 3 \t", "8");
}

#[test]
fn buffer_clears_on_keystroke_after_result() {
    let mut calc = Calculator::new();
    for ch in "5+3".chars() {
        calc.append_char(ch);
    }
    submit(&mut calc);
    match &calc.result {
        CalculatorResult::Success(t) => assert_eq!(t, "8"),
        other => panic!("expected success, got {:?}", other),
    }
    assert_eq!(calc.mode, CalculatorMode::ShowingResult);
    calc.append_char('1');
    assert_eq!(calc.input, "1");
    assert_eq!(calc.mode, CalculatorMode::AwaitingInput);
}

#[test]
fn buffer_clears_after_error_too() {
    let mut calc = Calculator::new();
    for ch in "2 ++ 3".chars() {
        calc.append_char(ch);
    }
    submit(&mut calc);
    assert_eq!(calc.mode, CalculatorMode::ShowingResult);
    calc.append_char('7');
    assert_eq!(calc.input, "7");
}

#[test]
fn deletion_never_underflows() {
    let mut calc = Calculator::new();
    calc.delete_last();
    calc.delete_last();
    calc.delete_last();
    assert_eq!(calc.input, "");
    calc.append_char('a');
    calc.append_char('b');
    calc.delete_last();
    assert_eq!(calc.input, "a");
    calc.delete_last();
    calc.delete_last();
    assert_eq!(calc.input, "");
}

#[test]
fn non_finite_values_render_as_host_text() {
    expect_success("1 / 0", "inf");
    expect_success("-1 / 0", "-inf");
    expect_success("0 / 0", "NaN");
}

#[test]
fn render_branches_directly() {
    let plain_int = ValueParts {
        near_int: true,
        int_big: false,
        int_text: String::from("42"),
        int_sci_text: String::from("4.2e1"),
        abs_big: false,
        abs_small: false,
        sci_text: String::from("4.2e1"),
        fixed_text: String::from("42.0000000000"),
    };
    assert_eq!(render_value(&plain_int), "42");

    let big_int = ValueParts {
        near_int: true,
        int_big: true,
        int_text: String::from("2000000001"),
        int_sci_text: String::from("2.000000001e9"),
        abs_big: true,
        abs_small: false,
        sci_text: String::from("2.000000001e9"),
        fixed_text: String::from("2000000001.0000000000"),
    };
    assert_eq!(render_value(&big_int), "2.000000001e9");

    let fixed = ValueParts {
        near_int: false,
        int_big: false,
        int_text: String::from("0"),
        int_sci_text: String::from("0e0"),
        abs_big: false,
        abs_small: false,
        sci_text: String::from("2.5e-1"),
        fixed_text: String::from("0.2500000000"),
    };
    assert_eq!(render_value(&fixed), "0.25");

    let residual_zeros = ValueParts {
        near_int: false,
        int_big: false,
        int_text: String::from("4"),
        int_sci_text: String::from("4e0"),
        abs_big: false,
        abs_small: false,
        sci_text: String::from("4e0"),
        fixed_text: String::from("4.0000000000"),
    };
    assert_eq!(render_value(&residual_zeros), "4");
}

#[test]
fn deep_nesting_parses() {
    let mut s = String::new();
    for _ in 0..100 {
        s.push('(');
    }
    s.push('7');
    for _ in 0..100 {
        s.push(')');
    }
    expect_success(&s, "7");

    let mut negs = String::new();
    for _ in 0..101 {
        negs.push('-');
    }
    negs.push('3');
    expect_success(&negs, "-3");
}

#[test]
fn long_chains_parse() {
    let mut sum = String::from("1");
    for _ in 0..200 {
        sum.push_str(" + 1");
    }
    expect_success(&sum, "201");

    let mut prod = String::from("1");
    for _ in 0..200 {
        prod.push_str(" * 1");
    }
    expect_success(&prod, "1");
}

#[test]
fn fractional_literals() {
    expect_success("1.5 + 2.25", "3.75");
    expect_success("0.5 * 0.5", "0.25");
    expect_error("1..2");
    expect_error("1.2.3");
}

#[test]
fn more_malformed_inputs() {
    expect_error("-");
    expect_error("2 *");
    expect_error("* 2");
    expect_error(")2(");
    expect_error("2 + (3))");
}

#[test]
fn evaluate_keeps_buffer() {
    let mut calc = Calculator::new();
    for ch in "5+3".chars() {
        calc.append_char(ch);
    }
    submit(&mut calc);
    assert_eq!(calc.input, "5+3");
}
