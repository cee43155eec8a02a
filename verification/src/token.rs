use vstd::prelude::*;

use crate::strutil::spec_decimal;
use crate::strutil::usize_to_string;

verus! {

/// The closed set of token kinds: single-character punctuation, one or two
/// character operators, the literal kinds, the reserved words, and the
/// end-of-input marker.
#[allow(non_camel_case_types)]
#[derive(Clone, Copy, PartialEq, Eq, Structural, Debug)]
pub enum Token_Type {
    // Single-character tokens.
    LEFT_PAREN,
    RIGHT_PAREN,
    LEFT_BRACE,
    RIGHT_BRACE,
    COMMA,
    DOT,
    MINUS,
    PLUS,
    SEMICOLON,
    SLASH,
    STAR,
    // One or two character tokens.
    BANG,
    BANG_EQUAL,
    EQUAL,
    EQUAL_EQUAL,
    GREATER,
    GREATER_EQUAL,
    LESS,
    LESS_EQUAL,
    // Literals.
    IDENTIFIER,
    STRING,
    NUMBER,
    // Keywords.
    AND,
    CLASS,
    ELSE,
    FALSE,
    FUN,
    FOR,
    IF,
    NIL,
    OR,
    PRINT,
    RETURN,
    SUPER,
    THIS,
    TRUE,
    VAR,
    WHILE,
    EOF,
}

impl Token_Type {
    /// The display text of a token kind: the operator's own characters for
    /// punctuation and operators, the kind's name otherwise.
    pub open spec fn text_spec(self) -> Seq<char> {
        match self {
            Token_Type::LEFT_PAREN => "("@,
            Token_Type::RIGHT_PAREN => ")"@,
            Token_Type::LEFT_BRACE => "{"@,
            Token_Type::RIGHT_BRACE => "}"@,
            Token_Type::COMMA => ","@,
            Token_Type::DOT => "."@,
            Token_Type::MINUS => "-"@,
            Token_Type::PLUS => "+"@,
            Token_Type::SEMICOLON => ";"@,
            Token_Type::SLASH => "/"@,
            Token_Type::STAR => "*"@,
            Token_Type::BANG => "!"@,
            Token_Type::BANG_EQUAL => "!="@,
            Token_Type::EQUAL => "="@,
            Token_Type::EQUAL_EQUAL => "=="@,
            Token_Type::GREATER => ">"@,
            Token_Type::GREATER_EQUAL => ">="@,
            Token_Type::LESS => "<"@,
            Token_Type::LESS_EQUAL => "<="@,
            Token_Type::IDENTIFIER => "IDENTIFIER"@,
            Token_Type::STRING => "STRING"@,
            Token_Type::NUMBER => "NUMBER"@,
            Token_Type::AND => "AND"@,
            Token_Type::CLASS => "CLASS"@,
            Token_Type::ELSE => "ELSE"@,
            Token_Type::FALSE => "FALSE"@,
            Token_Type::FUN => "FUN"@,
            Token_Type::FOR => "FOR"@,
            Token_Type::IF => "IF"@,
            Token_Type::NIL => "NIL"@,
            Token_Type::OR => "OR"@,
            Token_Type::PRINT => "PRINT"@,
            Token_Type::RETURN => "RETURN"@,
            Token_Type::SUPER => "SUPER"@,
            Token_Type::THIS => "THIS"@,
            Token_Type::TRUE => "TRUE"@,
            Token_Type::VAR => "VAR"@,
            Token_Type::WHILE => "WHILE"@,
            Token_Type::EOF => "EOF"@,
        }
    }

    /// Renders the token kind as its display text.
    pub fn to_string(&self) -> (r: String)
        ensures
            r@ == self.text_spec(),
    {
        match self {
            Token_Type::LEFT_PAREN => String::from_str("("),
            Token_Type::RIGHT_PAREN => String::from_str(")"),
            Token_Type::LEFT_BRACE => String::from_str("{"),
            Token_Type::RIGHT_BRACE => String::from_str("}"),
            Token_Type::COMMA => String::from_str(","),
            Token_Type::DOT => String::from_str("."),
            Token_Type::MINUS => String::from_str("-"),
            Token_Type::PLUS => String::from_str("+"),
            Token_Type::SEMICOLON => String::from_str(";"),
            Token_Type::SLASH => String::from_str("/"),
            Token_Type::STAR => String::from_str("*"),
            Token_Type::BANG => String::from_str("!"),
            Token_Type::BANG_EQUAL => String::from_str("!="),
            Token_Type::EQUAL => String::from_str("="),
            Token_Type::EQUAL_EQUAL => String::from_str("=="),
            Token_Type::GREATER => String::from_str(">"),
            Token_Type::GREATER_EQUAL => String::from_str(">="),
            Token_Type::LESS => String::from_str("<"),
            Token_Type::LESS_EQUAL => String::from_str("<="),
            Token_Type::IDENTIFIER => String::from_str("IDENTIFIER"),
            Token_Type::STRING => String::from_str("STRING"),
            Token_Type::NUMBER => String::from_str("NUMBER"),
            Token_Type::AND => String::from_str("AND"),
            Token_Type::CLASS => String::from_str("CLASS"),
            Token_Type::ELSE => String::from_str("ELSE"),
            Token_Type::FALSE => String::from_str("FALSE"),
            Token_Type::FUN => String::from_str("FUN"),
            Token_Type::FOR => String::from_str("FOR"),
            Token_Type::IF => String::from_str("IF"),
            Token_Type::NIL => String::from_str("NIL"),
            Token_Type::OR => String::from_str("OR"),
            Token_Type::PRINT => String::from_str("PRINT"),
            Token_Type::RETURN => String::from_str("RETURN"),
            Token_Type::SUPER => String::from_str("SUPER"),
            Token_Type::THIS => String::from_str("THIS"),
            Token_Type::TRUE => String::from_str("TRUE"),
            Token_Type::VAR => String::from_str("VAR"),
            Token_Type::WHILE => String::from_str("WHILE"),
            Token_Type::EOF => String::from_str("EOF"),
        }
    }
}

/// The mathematical model of a token: its kind, the exact source text it was
/// scanned from, its decoded payload, and the 1-based line it ended on.
pub struct TokenM {
    pub token_type: Token_Type,
    pub lexem: Seq<char>,
    pub literal: Seq<char>,
    pub line: int,
}

/// One scanned token. `lexem` is the exact source substring; `literal` holds
/// the decoded payload for strings and numbers and is empty otherwise.
pub struct Token {
    pub token_type: Token_Type,
    pub lexem: String,
    pub literal: String,
    pub line: usize,
}

impl View for Token {
    type V = TokenM;

    open spec fn view(&self) -> TokenM {
        TokenM {
            token_type: self.token_type,
            lexem: self.lexem@,
            literal: self.literal@,
            line: self.line as int,
        }
    }
}

impl DeepView for Token {
    type V = TokenM;

    open spec fn deep_view(&self) -> TokenM {
        self.view()
    }
}

impl Clone for Token {
    fn clone(&self) -> (t: Token)
        ensures
            t == *self,
    {
        Token {
            token_type: self.token_type,
            lexem: self.lexem.clone(),
            literal: self.literal.clone(),
            line: self.line,
        }
    }
}

impl Token {
    pub fn new(token_type: Token_Type, lexem: String, literal: String, line: usize) -> (t: Token)
        ensures
            t@ == (TokenM { token_type, lexem: lexem@, literal: literal@, line: line as int }),
    {
        Token { token_type, lexem, literal, line }
    }

    /// The debug rendering of a token: kind, lexeme, literal and line,
    /// separated by single spaces.
    pub open spec fn to_string_spec(self) -> Seq<char> {
        self.token_type.text_spec() + " "@ + self.lexem@ + " "@ + self.literal@ + " "@
            + spec_decimal(self.line as nat)
    }

    /// Renders the token in its debug form `<kind> <lexeme> <literal> <line>`.
    pub fn to_string(&self) -> (r: String)
        ensures
            r@ == self.to_string_spec(),
    {
        let mut r = self.token_type.to_string();
        r.append(" ");
        r.append(self.lexem.as_str());
        r.append(" ");
        r.append(self.literal.as_str());
        r.append(" ");
        let line_text = usize_to_string(self.line);
        r.append(line_text.as_str());
        r
    }

    /// The quoted rendering of a token: each field inside single quotes.
    pub open spec fn test_string_spec(self) -> Seq<char> {
        "'"@ + self.token_type.text_spec() + "' '"@ + self.lexem@ + "' '"@ + self.literal@ + "' '"@
            + spec_decimal(self.line as nat) + "'"@
    }

    /// Renders the token as `'<kind>' '<lexeme>' '<literal>' '<line>'`.
    pub fn test_string(&self) -> (r: String)
        ensures
            r@ == self.test_string_spec(),
    {
        let mut r = String::from_str("'");
        let kind_text = self.token_type.to_string();
        r.append(kind_text.as_str());
        r.append("' '");
        r.append(self.lexem.as_str());
        r.append("' '");
        r.append(self.literal.as_str());
        r.append("' '");
        let line_text = usize_to_string(self.line);
        r.append(line_text.as_str());
        r.append("'");
        r
    }
}

} // verus!
