use lox::parser::Parser;
use lox::printer::Printer;
use lox::scanner::Scanner;

fn compare_code_to_expression(code: &str, expected: &str) {
    let mut scanner = Scanner::new(&code.to_string());
    let tokens = scanner.scan_tokens().ok().unwrap();
    let mut parser = Parser::new(&tokens);
    let printer = Printer {};
    assert_eq!(printer.convert(parser.parse().ok().unwrap()), expected);
}

fn compare_code_to_err(code: &str, expected: &str) {
    let mut scanner = Scanner::new(&code.to_string());
    let tokens = scanner.scan_tokens().ok().unwrap();
    let mut parser = Parser::new(&tokens);
    assert_eq!(parser.parse().err().unwrap().message, expected);
}

#[test]
fn test_all_success_parser() {
    // Expression
    compare_code_to_expression(
        "true != ( (3-4*3+2) <= 6.23 )",
        "(!= true ((<= ((+ (- 3 (* 4 3)) 2)) 6.23)))",
    );

    // Equality
    compare_code_to_expression("4 == 3", "(== 4 3)");
    compare_code_to_expression("4 != 3", "(!= 4 3)");

    // Comparison
    compare_code_to_expression("4 < 3", "(< 4 3)");
    compare_code_to_expression("4 > 3", "(> 4 3)");
    compare_code_to_expression("4 >= 3", "(>= 4 3)");
    compare_code_to_expression("4 <= 3", "(<= 4 3)");
    compare_code_to_expression("4 <= 3 < 5", "(< (<= 4 3) 5)");
    compare_code_to_expression("4 <= (3 < 5)", "(<= 4 ((< 3 5)))");

    // Term
    compare_code_to_expression("5 + 5", "(+ 5 5)");
    compare_code_to_expression("5.1 - 5", "(- 5.1 5)");
    compare_code_to_expression("5 + 5 - 4 + 2 - 1", "(- (+ (- (+ 5 5) 4) 2) 1)");

    //Factor
    compare_code_to_expression("4 * 3", "(* 4 3)");
    compare_code_to_expression("4 * 3 * 2", "(* (* 4 3) 2)");
    compare_code_to_expression("4 / 3", "(/ 4 3)");
    compare_code_to_expression("4 / 3 * 2", "(* (/ 4 3) 2)");

    // Unary
    compare_code_to_expression("-4 * 3", "(* (- 4) 3)");
    compare_code_to_expression("! true", "(! true)");
    compare_code_to_expression("! false", "(! false)");

    // Primary
    compare_code_to_expression("\"Hello World\"", "Hello World");
    compare_code_to_expression("36434.23232", "36434.23232");
    compare_code_to_expression("true", "true");
    compare_code_to_expression("false", "false");
    compare_code_to_expression("nil", "nil");
    compare_code_to_expression("( nil )", "(nil)");
}

#[test]
fn test_all_error_parser() {
    compare_code_to_err("( 4", "Expect ')' after expression");
    compare_code_to_err("", "Expected expression");
}

#[test]
fn parse_error_reports_the_offending_token() {
    let mut scanner = Scanner::new(&"( 4".to_string());
    let tokens = scanner.scan_tokens().ok().unwrap();
    let mut parser = Parser::new(&tokens);
    let err = parser.parse().err().unwrap();
    // The parser stopped at end of input while expecting the closing
    // parenthesis.
    assert_eq!(err.token.test_string(), "'EOF' '' '' '1'");
    assert_eq!(
        lox::lox::Lox::error_token(&err.token, &err.message),
        "[line 1] Error  at end Expect ')' after expression"
    );
}

#[test]
fn rendered_form_ignores_whitespace_and_comments() {
    // The canonical rendering depends on the tokens alone, not on the
    // spacing or the comments around them.
    compare_code_to_expression("4/3*2", "(* (/ 4 3) 2)");
    compare_code_to_expression("  4 /  3 \t *   2  ", "(* (/ 4 3) 2)");
    compare_code_to_expression("4 / 3 * 2 // trailing note", "(* (/ 4 3) 2)");
    compare_code_to_expression("// leading note\n4\n/ 3\n* 2", "(* (/ 4 3) 2)");
}
