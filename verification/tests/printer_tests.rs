use lox::expressions::Binary;
use lox::expressions::Expression;
use lox::expressions::Grouping;
use lox::expressions::Literal;
use lox::expressions::LiteralValue;
use lox::expressions::Unary;
use lox::printer::Printer;
use lox::token::Token;
use lox::token::Token_Type;

fn number(value: f64) -> Box<Expression> {
    Box::new(Expression::Literal(Literal::new(LiteralValue::Number(value.to_bits()))))
}

#[test]
fn test_printer_literal() {
    let printer = Printer {};
    let literal = Literal::new(LiteralValue::Text("Hi".to_string()));
    assert_eq!(printer.convert(Box::new(Expression::Literal(literal))), "Hi")
}

#[test]
fn test_printer_binary() {
    let printer = Printer {};
    let left_literal = number(10 as f64);
    let right_literal = number(20 as f64);
    let operator = Token::new(Token_Type::PLUS, "+".to_string(), "".to_string(), 1);
    let binary = Box::new(Expression::Binary(Binary::new(left_literal, operator, right_literal)));
    assert_eq!(printer.convert(binary), "(+ 10 20)");
}

#[test]
fn test_printer_inner_binary() {
    let printer = Printer {};
    let inner_left_literal = number(10 as f64);
    let inner_right_literal = number(20 as f64);
    let inner_operator = Token::new(Token_Type::PLUS, "+".to_string(), "".to_string(), 1);
    let inner_binary = Box::new(Expression::Binary(Binary::new(
        inner_left_literal,
        inner_operator,
        inner_right_literal,
    )));
    let left_literal = Box::new(Expression::Literal(Literal::new(LiteralValue::Boolean(true))));
    let outer_operator = Token::new(Token_Type::STAR, "*".to_string(), "".to_string(), 1);
    let binary = Box::new(Expression::Binary(Binary::new(left_literal, outer_operator, inner_binary)));
    assert_eq!(printer.convert(binary), "(* true (+ 10 20))");
}

#[test]
fn test_printer_unary() {
    let printer = Printer {};
    let operator = Token::new(Token_Type::MINUS, "-".to_string(), "".to_string(), 1);
    let right_literal = number(5 as f64);
    let unary = Box::new(Expression::Unary(Unary::new(operator, right_literal)));
    assert_eq!(printer.convert(unary), "(- 5)");
}

#[test]
fn test_printer_inner_unary() {
    let printer = Printer {};
    let inner_operator = Token::new(Token_Type::MINUS, "-".to_string(), "".to_string(), 1);
    let inner_right_literal = number(10 as f64);
    let inner_unary = Box::new(Expression::Unary(Unary::new(inner_operator, inner_right_literal)));
    let operator = Token::new(Token_Type::MINUS, "-".to_string(), "".to_string(), 1);
    let unary = Box::new(Expression::Unary(Unary::new(operator, inner_unary)));
    assert_eq!(printer.convert(unary), "(- (- 10))");
}

#[test]
fn test_printer_grouping() {
    let printer = Printer {};
    let exp = number(700 as f64);
    let grouping = Box::new(Expression::Grouping(Grouping::new(exp)));
    assert_eq!(printer.convert(grouping), "(700)");
}

#[test]
fn test_printer_inner_grouping() {
    let printer = Printer {};
    let operator = Token::new(Token_Type::MINUS, "-".to_string(), "".to_string(), 1);
    let right_literal = number(5 as f64);
    let unary = Box::new(Expression::Unary(Unary::new(operator, right_literal)));
    let grouping = Box::new(Expression::Grouping(Grouping::new(unary)));
    assert_eq!(printer.convert(grouping), "((- 5))");
}

#[test]
fn test_printer_complex() {
    let printer = Printer {};
    let literal_unary = number(123 as f64);
    let unary = Box::new(Expression::Unary(Unary::new(
        Token::new(Token_Type::MINUS, "-".to_string(), "".to_string(), 1),
        literal_unary,
    )));
    let literal_grouping = number(45.67);
    let grouping = Box::new(Expression::Grouping(Grouping::new(literal_grouping)));
    let binary = Box::new(Expression::Binary(Binary::new(
        unary,
        Token::new(Token_Type::STAR, "*".to_string(), "".to_string(), 1),
        grouping,
    )));
    assert_eq!(printer.convert(binary), "(* (- 123) (45.67))");
}

#[test]
fn printer_renders_nil_and_false() {
    let printer = Printer {};
    assert_eq!(
        printer.convert(Box::new(Expression::Literal(Literal::new(LiteralValue::Nil)))),
        "nil"
    );
    assert_eq!(
        printer.convert(Box::new(Expression::Literal(Literal::new(LiteralValue::Boolean(false))))),
        "false"
    );
}

#[test]
fn printer_renders_numbers_in_shortest_round_trip_form() {
    let printer = Printer {};
    assert_eq!(printer.convert(number(0.1)), "0.1");
    assert_eq!(printer.convert(number(-4.0)), "-4");
    assert_eq!(printer.convert(number(2323.2323)), "2323.2323");
    assert_eq!(printer.convert(number(0.0)), "0");
    assert_eq!(printer.convert(number(-0.0)), "-0");
    assert_eq!(printer.convert(number(1.0 / 3.0)), "0.3333333333333333");
    assert_eq!(printer.convert(number(f64::NAN)), "NaN");
    assert_eq!(printer.convert(number(f64::INFINITY)), "inf");
    assert_eq!(printer.convert(number(f64::NEG_INFINITY)), "-inf");
}

#[test]
fn printer_stays_positional_past_the_padding_thresholds() {
    let printer = Printer {};
    assert_eq!(printer.convert(number(10000.0)), "10000");
    assert_eq!(printer.convert(number(0.0001)), "0.0001");
    assert_eq!(printer.convert(number(1e20)), "100000000000000000000");
    assert_eq!(printer.convert(number(1e-7)), "0.0000001");
    assert_eq!(
        printer.convert(number(123456789012345678901.0)),
        "123456789012345680000"
    );
}

#[test]
fn printer_number_text_matches_the_plain_float_rendering() {
    let printer = Printer {};
    let values: Vec<f64> = vec![
        10000.0,
        0.0001,
        -10000.0,
        -0.0001,
        1e20,
        1e-7,
        123456789012345678901.0,
        5e-324,
        f64::MIN_POSITIVE,
        f64::MAX,
        -f64::MAX,
        2.5e15,
        9.109383701528e-31,
        0.3,
        1.5,
        700.0,
        123456.789,
    ];
    for v in values {
        assert_eq!(printer.convert(number(v)), format!("{}", v));
    }
}
