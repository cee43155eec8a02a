use lox::expressions::Expression;
use lox::expressions::Literal;
use lox::expressions::LiteralValue;
use lox::interpreter::Interpreter;
use lox::lox::Lox;
use lox::parser::Parser;
use lox::scanner::Scanner;

/// Evaluates one source expression and hands back the canonical rendering of
/// the result, or the rendered error report.
fn run(code: &str) -> Result<String, String> {
    let mut lox = Lox::new();
    lox.run(&code.to_string())
}

fn eval_literal(code: &str) -> Literal {
    let mut scanner = Scanner::new(&code.to_string());
    let tokens = scanner.scan_tokens().ok().unwrap();
    let mut parser = Parser::new(&tokens);
    let expr = parser.parse().ok().unwrap();
    let interpreter = Interpreter {};
    interpreter.evaluate(&expr).ok().unwrap()
}

#[test]
fn adding_two_strings_concatenates_them() {
    assert_eq!(run("\"1\" + \"2\""), Ok("12".to_string()));
    assert_eq!(run("\"foo \" + \"bar\""), Ok("foo bar".to_string()));
}

#[test]
fn adding_two_numbers_sums_them() {
    assert_eq!(run("1 + 2"), Ok("3".to_string()));
    let result = eval_literal("1 + 2");
    match result.value {
        LiteralValue::Number(bits) => assert_eq!(bits, (3.0f64).to_bits()),
        _ => panic!("expected a number"),
    }
}

#[test]
fn adding_a_number_and_a_string_is_a_runtime_error() {
    assert_eq!(
        run("1 + \"2\""),
        Err("[line 1] Error  at '+' Operand must be either a string or number".to_string())
    );
    assert_eq!(
        run("nil + 1"),
        Err("[line 1] Error  at '+' Operand must be either a string or number".to_string())
    );
}

#[test]
fn equality_is_type_sensitive() {
    assert_eq!(run("1 == \"1\""), Ok("false".to_string()));
    assert_eq!(run("1 == 1.0"), Ok("true".to_string()));
    assert_eq!(run("nil == nil"), Ok("true".to_string()));
    assert_eq!(run("nil == false"), Ok("false".to_string()));
    assert_eq!(run("\"a\" != \"b\""), Ok("true".to_string()));
}

#[test]
fn arithmetic_follows_binary64_semantics() {
    assert_eq!(run("5.5 - 1.25"), Ok("4.25".to_string()));
    assert_eq!(run("-4 * 3"), Ok("-12".to_string()));
    assert_eq!(run("4 / 3"), Ok("1.3333333333333333".to_string()));
    assert_eq!(run("0.1 + 0.2"), Ok("0.30000000000000004".to_string()));
    // No special divide-by-zero check: the format's infinity comes out.
    assert_eq!(run("4 / 0"), Ok("inf".to_string()));
    assert_eq!(run("-4 / 0"), Ok("-inf".to_string()));
    assert_eq!(run("0 / 0"), Ok("NaN".to_string()));
}

#[test]
fn large_and_small_results_render_positionally() {
    assert_eq!(run("10000"), Ok("10000".to_string()));
    assert_eq!(run("0.0001"), Ok("0.0001".to_string()));
    assert_eq!(run("100 * 100"), Ok("10000".to_string()));
    assert_eq!(run("1 / 10000"), Ok("0.0001".to_string()));
    assert_eq!(run("100000 * 1000000"), Ok("100000000000".to_string()));
}

#[test]
fn comparisons_need_two_numbers() {
    assert_eq!(run("3 < 4"), Ok("true".to_string()));
    assert_eq!(run("4 < 3"), Ok("false".to_string()));
    assert_eq!(run("4 <= 4"), Ok("true".to_string()));
    assert_eq!(run("4 > 3"), Ok("true".to_string()));
    assert_eq!(run("3 >= 4"), Ok("false".to_string()));
    assert_eq!(
        run("true > 1"),
        Err("[line 1] Error  at '>' Both operands must be a number".to_string())
    );
    assert_eq!(
        run("1 - nil"),
        Err("[line 1] Error  at '-' Both operands must be a number".to_string())
    );
}

#[test]
fn unary_minus_needs_a_number() {
    assert_eq!(run("-4"), Ok("-4".to_string()));
    assert_eq!(run("- (2 + 2)"), Ok("-4".to_string()));
    assert_eq!(
        run("-\"abc\""),
        Err("[line 1] Error  at '-' Operand must be a number.".to_string())
    );
}

#[test]
fn bang_uses_truthiness() {
    assert_eq!(run("! true"), Ok("false".to_string()));
    assert_eq!(run("! false"), Ok("true".to_string()));
    assert_eq!(run("! nil"), Ok("true".to_string()));
    assert_eq!(run("! 0"), Ok("false".to_string()));
    assert_eq!(run("! \"\""), Ok("false".to_string()));
    assert_eq!(run("!!nil"), Ok("false".to_string()));
}

#[test]
fn grouping_evaluates_to_its_inner_value() {
    assert_eq!(run("( 4 )"), Ok("4".to_string()));
    assert_eq!(run("(\"xyz\")"), Ok("xyz".to_string()));
    assert_eq!(run("4 <= (3 < 5)"), Err(
        "[line 1] Error  at '<=' Both operands must be a number".to_string()
    ));
}

#[test]
fn literal_evaluates_to_itself() {
    let result = eval_literal("\"Hello World\"");
    match result.value {
        LiteralValue::Text(s) => assert_eq!(s, "Hello World"),
        _ => panic!("expected a string"),
    }
    let result = eval_literal("nil");
    assert!(matches!(result.value, LiteralValue::Nil));
}

#[test]
fn pipeline_reports_parse_errors_with_context() {
    assert_eq!(
        run("( 4"),
        Err("[line 1] Error  at end Expect ')' after expression".to_string())
    );
    assert_eq!(
        run(""),
        Err("[line 1] Error  at end Expected expression".to_string())
    );
    assert_eq!(
        run("+ 4"),
        Err("[line 1] Error  at '+' Expected expression".to_string())
    );
}

#[test]
fn pipeline_still_parses_after_a_lexical_error() {
    // The scan reports a failure for the unknown character but still hands
    // the collected tokens on.
    assert_eq!(run("@ 4 + 1"), Ok("5".to_string()));
}

#[test]
fn error_reports_render_line_and_context() {
    assert_eq!(Lox::error(7, "boom"), "[line 7] Error  boom");
    let expr = Expression::Literal(Literal::new(LiteralValue::Nil));
    let interpreter = Interpreter {};
    assert!(interpreter.evaluate(&expr).is_ok());
}

#[test]
fn runtime_errors_carry_the_operator_line() {
    assert_eq!(
        run("1 +\n\"x\""),
        Err("[line 1] Error  at '+' Operand must be either a string or number".to_string())
    );
    assert_eq!(
        run("\n\n1 + \"x\""),
        Err("[line 3] Error  at '+' Operand must be either a string or number".to_string())
    );
}
