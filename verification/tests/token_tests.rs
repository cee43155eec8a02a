use lox::token::Token;
use lox::token::Token_Type;

#[test]
fn test_token_to_string() {
    let token = Token {
        token_type: Token_Type::LEFT_PAREN,
        lexem: "\"hello world\"".to_string(),
        literal: "hello world".to_string(),
        line: 18,
    };
    assert_eq!(token.to_string().trim(), "( \"hello world\" hello world 18")
}

#[test]
fn token_test_string_quotes_every_field() {
    let token = Token::new(Token_Type::NUMBER, "36434.23232".to_string(), "36434.23232".to_string(), 120);
    assert_eq!(token.test_string(), "'NUMBER' '36434.23232' '36434.23232' '120'");
}

#[test]
fn token_kind_text_covers_operators_and_keywords() {
    assert_eq!(Token_Type::BANG_EQUAL.to_string(), "!=");
    assert_eq!(Token_Type::LESS_EQUAL.to_string(), "<=");
    assert_eq!(Token_Type::WHILE.to_string(), "WHILE");
    assert_eq!(Token_Type::EOF.to_string(), "EOF");
}
