use vstd::prelude::*;

use crate::expressions::Expression;
use crate::expressions::Literal;
use crate::interpreter::Interpreter;
use crate::interpreter::eval_m;
use crate::parser::Parser;
use crate::parser::p_expression;
use crate::parser::tokens_wf;
use crate::printer::Printer;
use crate::printer::render_lit;
use crate::scanner::Scanner;
use crate::scanner::lemma_scan_appends_eof;
use crate::scanner::lemma_scan_tokens_wf;
use crate::scanner::scan_toks;
use crate::strutil::spec_decimal;
use crate::strutil::usize_to_string;
use crate::token::Token;
use crate::token::TokenM;
use crate::token::Token_Type;

verus! {

/// An error report: `[line N] Error <context> <message>`.
pub open spec fn report_text(line: int, context: Seq<char>, message: Seq<char>) -> Seq<char> {
    "[line "@ + spec_decimal(line as nat) + "] Error "@ + context + " "@ + message
}

/// The report for an error at a token: `at end` for the end-of-input token,
/// `at '<lexeme>'` otherwise.
pub open spec fn error_token_text(token: TokenM, message: Seq<char>) -> Seq<char> {
    if token.token_type == Token_Type::EOF {
        report_text(token.line, " at end"@, message)
    } else {
        report_text(token.line, " at '"@ + token.lexem + "'"@, message)
    }
}

/// The canonical string of a parse is independent of where line breaks
/// fall: two well-formed token sequences that agree up to line numbers —
/// as scans of one expression with different superfluous whitespace and
/// comments do — parse to trees with the same canonical rendering, or fail
/// with the same message.
pub proof fn lemma_canonical_form_line_independent(t1: Seq<TokenM>, t2: Seq<TokenM>)
    requires
        crate::parser::same_mod_lines(t1, t2),
        tokens_wf(t1),
    ensures
        match (p_expression(t1, 0), p_expression(t2, 0)) {
            (Ok((e1, _)), Ok((e2, _))) => crate::printer::render_m(e1)
                == crate::printer::render_m(e2),
            (Err(m1), Err(m2)) => m1.message == m2.message,
            _ => false,
        },
{
    crate::parser::lemma_parse_line_independent(t1, t2);
    match (p_expression(t1, 0), p_expression(t2, 0)) {
        (Ok((e1, _)), Ok((e2, _))) => {
            crate::printer::lemma_render_ignores_lines(e1, e2);
        },
        _ => {},
    }
}

/// The expression pipeline: text to tokens to tree to value, each stage
/// handing explicit error values to the caller.
pub struct Lox {}

impl Lox {
    pub fn new() -> Lox {
        Lox {  }
    }

    /// Runs the whole pipeline on one source text: scan, parse, evaluate,
    /// and render the resulting value in canonical form. Lexical errors do
    /// not stop the pipeline: the tokens scanned so far are still parsed.
    /// A parse or runtime error is handed back as its rendered report.
    pub fn run(&mut self, input: &String) -> (r: Result<String, String>)
        requires
            input@.len() < usize::MAX,
        ensures
            ({
                let toks = scan_toks(input@, 0, 1);
                match p_expression(toks, 0) {
                    Err(pe) => r matches Err(m) && m@ == error_token_text(pe.token, pe.message),
                    Ok((e, _)) => match eval_m(e) {
                        Err(re) => r matches Err(m) && m@ == error_token_text(
                            re.token,
                            re.message,
                        ),
                        Ok(v) => r matches Ok(m) && m@ == render_lit(v),
                    },
                }
            }),
    {
        let mut scanner = Scanner::new(input);
        let tokens: Vec<Token> = match scanner.scan_tokens() {
            Ok(tokens) => tokens,
            Err(failure) => failure.tokens,
        };
        proof {
            lemma_scan_appends_eof(input@, 0, 1);
            lemma_scan_tokens_wf(input@, 0, 1);
            assert(tokens_wf(tokens.deep_view()));
        }
        let mut parser = Parser::new(&tokens);
        let expr: Box<Expression> = match parser.parse() {
            Ok(expr) => expr,
            Err(pe) => {
                return Err(Lox::error_token(&pe.token, pe.message.as_str()));
            },
        };
        let interpreter = Interpreter {  };
        let result: Literal = match interpreter.evaluate(&expr) {
            Ok(literal) => literal,
            Err(re) => {
                return Err(Lox::error_token(&re.token, re.message.as_str()));
            },
        };
        let printer = Printer {  };
        let rendered = printer.convert(Box::new(Expression::Literal(result)));
        Ok(rendered)
    }

    /// Renders an error report for a bare line number.
    pub fn error(line: usize, message: &str) -> (r: String)
        ensures
            r@ == report_text(line as int, Seq::<char>::empty(), message@),
    {
        let empty = String::new();
        Lox::report(line, empty.as_str(), message)
    }

    /// Renders an error report for a token: `at end` at end of input, the
    /// quoted lexeme otherwise.
    pub fn error_token(token: &Token, message: &str) -> (r: String)
        ensures
            r@ == error_token_text(token@, message@),
    {
        if let Token_Type::EOF = token.token_type {
            return Lox::report(token.line, " at end", message);
        }
        let mut context = String::from_str(" at '");
        context.append(token.lexem.as_str());
        context.append("'");
        Lox::report(token.line, context.as_str(), message)
    }

    fn report(line: usize, context: &str, message: &str) -> (r: String)
        ensures
            r@ == report_text(line as int, context@, message@),
    {
        let mut r = String::from_str("[line ");
        let line_text = usize_to_string(line);
        r.append(line_text.as_str());
        r.append("] Error ");
        r.append(context);
        r.append(" ");
        r.append(message);
        r
    }
}

} // verus!

