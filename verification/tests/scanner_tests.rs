use lox::scanner::Scanner;
use lox::token::Token;

fn token_to_readable(token: &Token) -> String {
    return token.test_string();
}

fn compare_token_with_expected(actual: &Vec<Token>, expected: &Vec<&str>) {
    if actual.len() != expected.len() {
        panic!("Expected and actual not the same length");
    }
    let mut index = 0;
    while index < actual.len() {
        assert_eq!(token_to_readable(&actual[index]), expected[index]);
        index += 1;
    }
}

#[test]
fn test_scanner_simple() {
    let code = "(  ".to_string();
    let mut scanner = Scanner::new(&code);
    let expected = vec!["'(' '(' '' '1'", "'EOF' '' '' '1'"];
    let actual = scanner.scan_tokens().ok().unwrap();
    compare_token_with_expected(&actual, &expected);
}

#[test]
fn test_scanner_single_char() {
    let code = "
            ( ) { } *
            - + ,.
            ;
        "
    .to_string();
    let mut scanner = Scanner::new(&code);
    let expected = vec![
        "'(' '(' '' '2'",
        "')' ')' '' '2'",
        "'{' '{' '' '2'",
        "'}' '}' '' '2'",
        "'*' '*' '' '2'",
        "'-' '-' '' '3'",
        "'+' '+' '' '3'",
        "',' ',' '' '3'",
        "'.' '.' '' '3'",
        "';' ';' '' '4'",
        "'EOF' '' '' '5'",
    ];
    let actual = scanner.scan_tokens().ok().unwrap();
    compare_token_with_expected(&actual, &expected);
}

#[test]
fn test_scanner_double_char() {
    let code = "
            ( ! !=
              == =
              <= <
              > >=
        "
    .to_string();
    let mut scanner = Scanner::new(&code);
    let expected = vec![
        "'(' '(' '' '2'",
        "'!' '!' '' '2'",
        "'!=' '!=' '' '2'",
        "'==' '==' '' '3'",
        "'=' '=' '' '3'",
        "'<=' '<=' '' '4'",
        "'<' '<' '' '4'",
        "'>' '>' '' '5'",
        "'>=' '>=' '' '5'",
        "'EOF' '' '' '6'",
    ];
    let actual = scanner.scan_tokens().ok().unwrap();
    compare_token_with_expected(&actual, &expected);
}

#[test]
fn test_scanner_comments() {
    let code = "
            ( / // All this should get ignored
        // Also all of this
        /
        "
    .to_string();
    let mut scanner = Scanner::new(&code);
    let expected = vec![
        "'(' '(' '' '2'",
        "'/' '/' '' '2'",
        "'/' '/' '' '4'",
        "'EOF' '' '' '5'",
    ];
    let actual = scanner.scan_tokens().ok().unwrap();
    compare_token_with_expected(&actual, &expected);
}

#[test]
fn test_scanner_strings() {
    let code = "*
            \"hello world\" \"hi\" \"\"
             \"xx \nx\""
    .to_string();
    let mut scanner = Scanner::new(&code);
    let expected = vec![
        "'*' '*' '' '1'",
        "'STRING' '\"hello world\"' 'hello world' '2'",
        "'STRING' '\"hi\"' 'hi' '2'",
        "'STRING' '\"\"' '' '2'",
        "'STRING' '\"xx \nx\"' 'xx \nx' '4'",
        "'EOF' '' '' '4'",
    ];
    let actual = scanner.scan_tokens().ok().unwrap();

    compare_token_with_expected(&actual, &expected);
}

#[test]
fn test_scanner_numbers() {
    let code = ";
        1123.123 2. 2323 . 2323.2323
        "
    .to_string();
    let mut scanner = Scanner::new(&code);
    let expected = vec![
        "';' ';' '' '1'",
        "'NUMBER' '1123.123' '1123.123' '2'",
        "'NUMBER' '2' '2' '2'",
        "'.' '.' '' '2'",
        "'NUMBER' '2323' '2323' '2'",
        "'.' '.' '' '2'",
        "'NUMBER' '2323.2323' '2323.2323' '2'",
        "'EOF' '' '' '3'",
    ];
    let actual = scanner.scan_tokens().ok().unwrap();
    compare_token_with_expected(&actual, &expected);
}

#[test]
fn test_scanner_identifier_keywords() {
    let code = "*
            and andy class
            else false fun for
                if
                    nil or orchid
            print return super
            superthis this true
            var_ var while
            hello_world
        "
    .to_string();
    let mut scanner = Scanner::new(&code);
    let expected = vec![
        "'*' '*' '' '1'",
        "'AND' 'and' '' '2'",
        "'IDENTIFIER' 'andy' '' '2'",
        "'CLASS' 'class' '' '2'",
        "'ELSE' 'else' '' '3'",
        "'FALSE' 'false' '' '3'",
        "'FUN' 'fun' '' '3'",
        "'FOR' 'for' '' '3'",
        "'IF' 'if' '' '4'",
        "'NIL' 'nil' '' '5'",
        "'OR' 'or' '' '5'",
        "'IDENTIFIER' 'orchid' '' '5'",
        "'PRINT' 'print' '' '6'",
        "'RETURN' 'return' '' '6'",
        "'SUPER' 'super' '' '6'",
        "'IDENTIFIER' 'superthis' '' '7'",
        "'THIS' 'this' '' '7'",
        "'TRUE' 'true' '' '7'",
        "'IDENTIFIER' 'var_' '' '8'",
        "'VAR' 'var' '' '8'",
        "'WHILE' 'while' '' '8'",
        "'IDENTIFIER' 'hello_world' '' '9'",
        "'EOF' '' '' '10'",
    ];
    let actual = scanner.scan_tokens().ok().unwrap();
    compare_token_with_expected(&actual, &expected);
}

#[test]
fn unterminated_string_reports_error_and_still_ends_with_eof() {
    let code = "\"abc".to_string();
    let mut scanner = Scanner::new(&code);
    let failure = scanner.scan_tokens().err().unwrap();
    assert_eq!(failure.errors.len(), 1);
    assert_eq!(failure.errors[0].message, "Missing closing \" on string token");
    assert_eq!(failure.errors[0].line, 1);
    // No STRING token was produced; the sequence still ends with EOF.
    assert_eq!(failure.tokens.len(), 1);
    assert_eq!(failure.tokens[0].test_string(), "'EOF' '' '' '1'");
}

#[test]
fn unknown_character_reports_error_and_scanning_continues() {
    let code = "@ 1".to_string();
    let mut scanner = Scanner::new(&code);
    let failure = scanner.scan_tokens().err().unwrap();
    assert_eq!(failure.errors.len(), 1);
    assert_eq!(failure.errors[0].message, "Unknown char @ unable to be scanned");
    let readable: Vec<String> = failure.tokens.iter().map(|t| t.test_string()).collect();
    assert_eq!(readable, vec!["'NUMBER' '1' '1' '1'", "'EOF' '' '' '1'"]);
}

#[test]
fn empty_source_scans_to_a_single_eof_token() {
    let code = String::new();
    let mut scanner = Scanner::new(&code);
    let actual = scanner.scan_tokens().ok().unwrap();
    assert_eq!(actual.len(), 1);
    assert_eq!(actual[0].test_string(), "'EOF' '' '' '1'");
}

#[test]
fn eof_token_carries_the_final_line_number() {
    let code = "1\n2\n\n".to_string();
    let mut scanner = Scanner::new(&code);
    let actual = scanner.scan_tokens().ok().unwrap();
    assert_eq!(actual.last().unwrap().test_string(), "'EOF' '' '' '4'");
}
