use vstd::prelude::*;

use crate::strutil::digits_end;
use crate::strutil::is_digit_c;
use crate::strutil::is_digit_exec;
use crate::strutil::lemma_digits_end;
use crate::strutil::chars_to_string;
use crate::strutil::push_char;
use crate::strutil::str_to_chars;
use crate::token::Token;
use crate::token::TokenM;
use crate::token::Token_Type;

verus! {

/// The model of a lexical error: the line it was noticed on and a message.
pub struct LexErrM {
    pub line: int,
    pub message: Seq<char>,
}

/// One lexical error. Scanning continues after it; the collected errors make
/// the overall scan fail.
pub struct ScanError {
    pub line: usize,
    pub message: String,
}

impl View for ScanError {
    type V = LexErrM;

    open spec fn view(&self) -> LexErrM {
        LexErrM { line: self.line as int, message: self.message@ }
    }
}

impl DeepView for ScanError {
    type V = LexErrM;

    open spec fn deep_view(&self) -> LexErrM {
        self.view()
    }
}

impl Clone for ScanError {
    fn clone(&self) -> (e: ScanError)
        ensures
            e == *self,
    {
        ScanError { line: self.line, message: self.message.clone() }
    }
}

/// A failed scan: the full token sequence collected anyway, and every
/// lexical error met along the way.
pub struct ScanFailure {
    pub tokens: Vec<Token>,
    pub errors: Vec<ScanError>,
}

/// Whether a character begins an identifier, per Unicode letters.
pub uninterp spec fn is_alpha_c(c: char) -> bool;

/// Whether a character is a Unicode letter or digit.
pub uninterp spec fn is_alnum_c(c: char) -> bool;

/// Relies on char::is_alphabetic: whether the character is a Unicode letter,
/// a function of the character alone.
#[verifier::external_body]
fn is_alpha_exec(c: char) -> (b: bool)
    ensures
        b == is_alpha_c(c),
{
    c.is_alphabetic()
}

/// Relies on char::is_alphanumeric: whether the character is a Unicode
/// letter or digit, a function of the character alone.
#[verifier::external_body]
fn is_alnum_exec(c: char) -> (b: bool)
    ensures
        b == is_alnum_c(c),
{
    c.is_alphanumeric()
}

/// Whether the character is a blank the scanner skips without effect:
/// a space, a tab or a carriage return.
pub open spec fn is_blank(c: char) -> bool {
    c == ' ' || c == '\t' || c == '\r'
}

/// Whether a character continues an identifier. No whitespace character
/// does, whatever its Unicode class, so scanning stays local and line
/// counting exact.
pub open spec fn ident_cont(c: char) -> bool {
    c != '\n' && !is_blank(c) && (is_alnum_c(c) || c == '_')
}

fn ident_cont_exec(c: char) -> (b: bool)
    ensures
        b == ident_cont(c),
{
    c != '\n' && c != ' ' && c != '\t' && c != '\r' && (is_alnum_exec(c) || c == '_')
}

/// The position of the first occurrence of `c` at or after `i`, or the
/// length of `s` if there is none.
pub open spec fn find_from(s: Seq<char>, i: int, c: char) -> int
    decreases s.len() - i,
{
    if i < 0 || i >= s.len() {
        s.len() as int
    } else if s[i] == c {
        i
    } else {
        find_from(s, i + 1, c)
    }
}

pub proof fn lemma_find_from(s: Seq<char>, i: int, c: char)
    requires
        0 <= i <= s.len(),
    ensures
        i <= find_from(s, i, c) <= s.len(),
        find_from(s, i, c) < s.len() ==> s[find_from(s, i, c)] == c,
        forall|k: int| i <= k < find_from(s, i, c) ==> s[k] != c,
    decreases s.len() - i,
{
    if i < s.len() && s[i] != c {
        lemma_find_from(s, i + 1, c);
    }
}

/// The number of newline characters in `s[i..j)`.
pub open spec fn count_nl(s: Seq<char>, i: int, j: int) -> int
    decreases j - i,
{
    if i >= j {
        0
    } else {
        (if s[i] == '\n' {
            1int
        } else {
            0int
        }) + count_nl(s, i + 1, j)
    }
}

pub proof fn lemma_count_nl_bounds(s: Seq<char>, i: int, j: int)
    requires
        i <= j,
    ensures
        0 <= count_nl(s, i, j) <= j - i,
    decreases j - i,
{
    if i < j {
        lemma_count_nl_bounds(s, i + 1, j);
    }
}

pub proof fn lemma_count_nl_snoc(s: Seq<char>, i: int, j: int)
    requires
        i <= j,
    ensures
        count_nl(s, i, j + 1) == count_nl(s, i, j) + (if s[j] == '\n' {
            1int
        } else {
            0int
        }),
    decreases j - i,
{
    if i < j {
        lemma_count_nl_snoc(s, i + 1, j);
    } else {
        assert(count_nl(s, j + 1, j + 1) == 0);
    }
}

pub proof fn lemma_count_nl_split(s: Seq<char>, i: int, m: int, j: int)
    requires
        i <= m <= j,
    ensures
        count_nl(s, i, j) == count_nl(s, i, m) + count_nl(s, m, j),
    decreases m - i,
{
    if i < m {
        lemma_count_nl_split(s, i + 1, m, j);
    }
}

pub proof fn lemma_count_nl_zero(s: Seq<char>, i: int, j: int)
    requires
        i <= j,
        forall|k: int| i <= k < j ==> s[k] != '\n',
    ensures
        count_nl(s, i, j) == 0,
    decreases j - i,
{
    if i < j {
        lemma_count_nl_zero(s, i + 1, j);
    }
}

/// The end of the maximal run of identifier characters starting at `i`.
pub open spec fn ident_end(s: Seq<char>, i: int) -> int
    decreases s.len() - i,
{
    if 0 <= i < s.len() && ident_cont(s[i]) {
        ident_end(s, i + 1)
    } else {
        i
    }
}

pub proof fn lemma_ident_end(s: Seq<char>, i: int)
    requires
        0 <= i <= s.len(),
    ensures
        i <= ident_end(s, i) <= s.len(),
        forall|k: int| i <= k < ident_end(s, i) ==> ident_cont(s[k]),
        ident_end(s, i) < s.len() ==> !ident_cont(s[ident_end(s, i)]),
    decreases s.len() - i,
{
    if i < s.len() && ident_cont(s[i]) {
        lemma_ident_end(s, i + 1);
    }
}

/// The end of a number lexeme whose digits start at `i`: the maximal digit
/// run, extended over a decimal point only when at least one digit follows
/// it.
pub open spec fn number_end(s: Seq<char>, i: int) -> int {
    let de = digits_end(s, i);
    if de < s.len() && s[de] == '.' && de + 1 < s.len() && is_digit_c(s[de + 1]) {
        digits_end(s, de + 1)
    } else {
        de
    }
}

/// The keyword kind for an identifier lexeme, or IDENTIFIER if it is none.
pub open spec fn keyword_kind(lex: Seq<char>) -> Token_Type {
    if lex == "and"@ {
        Token_Type::AND
    } else if lex == "class"@ {
        Token_Type::CLASS
    } else if lex == "else"@ {
        Token_Type::ELSE
    } else if lex == "false"@ {
        Token_Type::FALSE
    } else if lex == "fun"@ {
        Token_Type::FUN
    } else if lex == "for"@ {
        Token_Type::FOR
    } else if lex == "if"@ {
        Token_Type::IF
    } else if lex == "nil"@ {
        Token_Type::NIL
    } else if lex == "or"@ {
        Token_Type::OR
    } else if lex == "print"@ {
        Token_Type::PRINT
    } else if lex == "return"@ {
        Token_Type::RETURN
    } else if lex == "super"@ {
        Token_Type::SUPER
    } else if lex == "this"@ {
        Token_Type::THIS
    } else if lex == "true"@ {
        Token_Type::TRUE
    } else if lex == "var"@ {
        Token_Type::VAR
    } else if lex == "while"@ {
        Token_Type::WHILE
    } else {
        Token_Type::IDENTIFIER
    }
}

/// The end-of-input token: empty lexeme and literal, carrying the final
/// line.
pub open spec fn eof_m(line: int) -> TokenM {
    TokenM {
        token_type: Token_Type::EOF,
        lexem: Seq::<char>::empty(),
        literal: Seq::<char>::empty(),
        line,
    }
}

/// A token whose literal payload is empty.
pub open spec fn plain_tok(s: Seq<char>, kind: Token_Type, start: int, end: int, line: int) -> TokenM {
    TokenM {
        token_type: kind,
        lexem: s.subrange(start, end),
        literal: Seq::<char>::empty(),
        line,
    }
}

/// What one scanning step does: where the cursor and the line counter move,
/// and the token or the lexical error it yields, if any.
pub struct StepM {
    pub next_i: int,
    pub next_line: int,
    pub tok: Option<TokenM>,
    pub err: Option<LexErrM>,
}

pub open spec fn step_tok(next_i: int, next_line: int, t: TokenM) -> StepM {
    StepM { next_i, next_line, tok: Some(t), err: None }
}

pub open spec fn step_skip(next_i: int, next_line: int) -> StepM {
    StepM { next_i, next_line, tok: None, err: None }
}

/// One step of the scanner at position `i` on line `line`: the algorithm of
/// the lexical grammar, one lexeme (or skipped stretch, or error) at a time.
pub open spec fn scan_step(s: Seq<char>, i: int, line: int) -> StepM {
    let c = s[i];
    if c == '(' {
        step_tok(i + 1, line, plain_tok(s, Token_Type::LEFT_PAREN, i, i + 1, line))
    } else if c == ')' {
        step_tok(i + 1, line, plain_tok(s, Token_Type::RIGHT_PAREN, i, i + 1, line))
    } else if c == '{' {
        step_tok(i + 1, line, plain_tok(s, Token_Type::LEFT_BRACE, i, i + 1, line))
    } else if c == '}' {
        step_tok(i + 1, line, plain_tok(s, Token_Type::RIGHT_BRACE, i, i + 1, line))
    } else if c == ',' {
        step_tok(i + 1, line, plain_tok(s, Token_Type::COMMA, i, i + 1, line))
    } else if c == '.' {
        step_tok(i + 1, line, plain_tok(s, Token_Type::DOT, i, i + 1, line))
    } else if c == '-' {
        step_tok(i + 1, line, plain_tok(s, Token_Type::MINUS, i, i + 1, line))
    } else if c == '+' {
        step_tok(i + 1, line, plain_tok(s, Token_Type::PLUS, i, i + 1, line))
    } else if c == ';' {
        step_tok(i + 1, line, plain_tok(s, Token_Type::SEMICOLON, i, i + 1, line))
    } else if c == '*' {
        step_tok(i + 1, line, plain_tok(s, Token_Type::STAR, i, i + 1, line))
    } else if c == '!' {
        if i + 1 < s.len() && s[i + 1] == '=' {
            step_tok(i + 2, line, plain_tok(s, Token_Type::BANG_EQUAL, i, i + 2, line))
        } else {
            step_tok(i + 1, line, plain_tok(s, Token_Type::BANG, i, i + 1, line))
        }
    } else if c == '=' {
        if i + 1 < s.len() && s[i + 1] == '=' {
            step_tok(i + 2, line, plain_tok(s, Token_Type::EQUAL_EQUAL, i, i + 2, line))
        } else {
            step_tok(i + 1, line, plain_tok(s, Token_Type::EQUAL, i, i + 1, line))
        }
    } else if c == '<' {
        if i + 1 < s.len() && s[i + 1] == '=' {
            step_tok(i + 2, line, plain_tok(s, Token_Type::LESS_EQUAL, i, i + 2, line))
        } else {
            step_tok(i + 1, line, plain_tok(s, Token_Type::LESS, i, i + 1, line))
        }
    } else if c == '>' {
        if i + 1 < s.len() && s[i + 1] == '=' {
            step_tok(i + 2, line, plain_tok(s, Token_Type::GREATER_EQUAL, i, i + 2, line))
        } else {
            step_tok(i + 1, line, plain_tok(s, Token_Type::GREATER, i, i + 1, line))
        }
    } else if c == '/' {
        if i + 1 < s.len() && s[i + 1] == '/' {
            // A line comment runs up to, and not including, the next newline.
            step_skip(find_from(s, i + 2, '\n'), line)
        } else {
            step_tok(i + 1, line, plain_tok(s, Token_Type::SLASH, i, i + 1, line))
        }
    } else if c == ' ' || c == '\r' || c == '\t' {
        step_skip(i + 1, line)
    } else if c == '\n' {
        step_skip(i + 1, line + 1)
    } else if c == '"' {
        let close = find_from(s, i + 1, '"');
        if close >= s.len() {
            StepM {
                next_i: s.len() as int,
                next_line: line + count_nl(s, i + 1, s.len() as int),
                tok: None,
                err: Some(
                    LexErrM {
                        line: line + count_nl(s, i + 1, s.len() as int),
                        message: "Missing closing \" on string token"@,
                    },
                ),
            }
        } else {
            let l2 = line + count_nl(s, i + 1, close);
            step_tok(
                close + 1,
                l2,
                TokenM {
                    token_type: Token_Type::STRING,
                    lexem: s.subrange(i, close + 1),
                    literal: s.subrange(i + 1, close),
                    line: l2,
                },
            )
        }
    } else if is_digit_c(c) {
        let end = number_end(s, i + 1);
        step_tok(
            end,
            line,
            TokenM {
                token_type: Token_Type::NUMBER,
                lexem: s.subrange(i, end),
                literal: s.subrange(i, end),
                line,
            },
        )
    } else if is_alpha_c(c) || c == '_' {
        let end = ident_end(s, i + 1);
        step_tok(end, line, plain_tok(s, keyword_kind(s.subrange(i, end)), i, end, line))
    } else {
        StepM {
            next_i: i + 1,
            next_line: line,
            tok: None,
            err: Some(
                LexErrM { line, message: "Unknown char "@ + seq![c] + " unable to be scanned"@ },
            ),
        }
    }
}

/// Every scanning step consumes at least one character and stays inside the
/// source.
pub proof fn lemma_scan_step_in_range(s: Seq<char>, i: int, line: int)
    requires
        0 <= i < s.len(),
    ensures
        i < scan_step(s, i, line).next_i <= s.len(),
{
    let c = s[i];
    if c == '/' && i + 1 < s.len() && s[i + 1] == '/' {
        lemma_find_from(s, i + 2, '\n');
    } else if c == '"' {
        lemma_find_from(s, i + 1, '"');
    } else if is_digit_c(c) {
        lemma_digits_end(s, i + 1);
        let de = digits_end(s, i + 1);
        if de < s.len() && s[de] == '.' && de + 1 < s.len() && is_digit_c(s[de + 1]) {
            lemma_digits_end(s, de + 1);
        }
    } else if !(c == '(' || c == ')' || c == '{' || c == '}' || c == ',' || c == '.' || c == '-'
        || c == '+' || c == ';' || c == '*' || c == '!' || c == '=' || c == '<' || c == '>' || c
        == '/' || c == ' ' || c == '\r' || c == '\t' || c == '\n') {
        if is_alpha_c(c) || c == '_' {
            lemma_ident_end(s, i + 1);
        }
    }
}

/// Every scanning step advances the line counter by exactly the newlines it
/// consumed.
pub proof fn lemma_scan_step_lines(s: Seq<char>, i: int, line: int)
    requires
        0 <= i < s.len(),
    ensures
        scan_step(s, i, line).next_line == line + count_nl(s, i, scan_step(s, i, line).next_i),
{
    let c = s[i];
    let st = scan_step(s, i, line);
    lemma_scan_step_in_range(s, i, line);
    lemma_count_nl_snoc(s, i, i);
    if i + 1 < s.len() {
        lemma_count_nl_snoc(s, i, i + 1);
    }
    if c == '/' && i + 1 < s.len() && s[i + 1] == '/' {
        lemma_find_from(s, i + 2, '\n');
        lemma_count_nl_zero(s, i, st.next_i);
    } else if c == '"' {
        lemma_find_from(s, i + 1, '"');
        let close = find_from(s, i + 1, '"');
        if close >= s.len() {
            assert(count_nl(s, i, s.len() as int) == count_nl(s, i + 1, s.len() as int));
        } else {
            lemma_count_nl_snoc(s, i + 1, close);
            assert(count_nl(s, i, close + 1) == count_nl(s, i + 1, close + 1));
        }
    } else if is_digit_c(c) {
        lemma_digits_end(s, i + 1);
        let de = digits_end(s, i + 1);
        if de < s.len() && s[de] == '.' && de + 1 < s.len() && is_digit_c(s[de + 1]) {
            lemma_digits_end(s, de + 1);
        }
        lemma_count_nl_zero(s, i, st.next_i);
    } else if !(c == '(' || c == ')' || c == '{' || c == '}' || c == ',' || c == '.' || c == '-'
        || c == '+' || c == ';' || c == '*' || c == '!' || c == '=' || c == '<' || c == '>' || c
        == '/' || c == ' ' || c == '\r' || c == '\t' || c == '\n') {
        if is_alpha_c(c) || c == '_' {
            lemma_ident_end(s, i + 1);
            lemma_count_nl_zero(s, i, st.next_i);
        }
    }
}

/// Clamps a step's next position into `(i, s.len()]`; after
/// `lemma_scan_step_in_range` this is the step's own next position.
pub open spec fn step_next(s: Seq<char>, i: int, line: int) -> int {
    let ni = scan_step(s, i, line).next_i;
    if ni <= i {
        i + 1
    } else if ni > s.len() {
        s.len() as int
    } else {
        ni
    }
}

/// The tokens that scanning yields from position `i` on line `line`,
/// including the final end-of-input token.
pub open spec fn scan_toks(s: Seq<char>, i: int, line: int) -> Seq<TokenM>
    decreases s.len() - i,
{
    if i < 0 || i >= s.len() {
        seq![eof_m(line)]
    } else {
        let st = scan_step(s, i, line);
        let rest = scan_toks(s, step_next(s, i, line), st.next_line);
        match st.tok {
            Some(t) => seq![t] + rest,
            None => rest,
        }
    }
}

/// The lexical errors that scanning yields from position `i` on line
/// `line`.
pub open spec fn scan_errs(s: Seq<char>, i: int, line: int) -> Seq<LexErrM>
    decreases s.len() - i,
{
    if i < 0 || i >= s.len() {
        Seq::<LexErrM>::empty()
    } else {
        let st = scan_step(s, i, line);
        let rest = scan_errs(s, step_next(s, i, line), st.next_line);
        match st.err {
            Some(e) => seq![e] + rest,
            None => rest,
        }
    }
}

/// Scanning always yields exactly one end-of-input token, at the very end,
/// and it carries the final line number: the starting line plus every
/// newline in the rest of the source. This holds of every source, the empty
/// one included.
pub proof fn lemma_scan_appends_eof(s: Seq<char>, i: int, line: int)
    requires
        0 <= i <= s.len(),
    ensures
        scan_toks(s, i, line).len() >= 1,
        scan_toks(s, i, line).last() == eof_m(line + count_nl(s, i, s.len() as int)),
        forall|k: int|
            0 <= k < scan_toks(s, i, line).len() - 1 ==> scan_toks(s, i, line)[k].token_type
                != Token_Type::EOF,
    decreases s.len() - i,
{
    if i >= s.len() {
        assert(count_nl(s, i, s.len() as int) == 0);
    } else {
        let st = scan_step(s, i, line);
        lemma_scan_step_in_range(s, i, line);
        lemma_scan_step_lines(s, i, line);
        lemma_scan_appends_eof(s, st.next_i, st.next_line);
        lemma_count_nl_split(s, i, st.next_i, s.len() as int);
        let rest = scan_toks(s, st.next_i, st.next_line);
        match st.tok {
            Some(t) => {
                assert(scan_toks(s, i, line) == seq![t] + rest);
                assert(scan_toks(s, i, line).last() == rest.last());
                assert(t.token_type != Token_Type::EOF);
            },
            None => {
                assert(scan_toks(s, i, line) == rest);
            },
        }
    }
}

/// Every number token that scanning yields carries a literal in number
/// shape: digits, optionally a decimal point and further digits. Every
/// token's line is at least the starting line.
pub proof fn lemma_scan_tokens_wf(s: Seq<char>, i: int, line: int)
    requires
        0 <= i <= s.len(),
    ensures
        forall|k: int|
            0 <= k < scan_toks(s, i, line).len() && scan_toks(s, i, line)[k].token_type
                == Token_Type::NUMBER ==> crate::num::is_number_lexeme(
                scan_toks(s, i, line)[k].literal,
            ),
    decreases s.len() - i,
{
    if i < s.len() {
        let st = scan_step(s, i, line);
        lemma_scan_step_in_range(s, i, line);
        lemma_scan_tokens_wf(s, st.next_i, st.next_line);
        let rest = scan_toks(s, st.next_i, st.next_line);
        match st.tok {
            Some(t) => {
                assert(scan_toks(s, i, line) == seq![t] + rest);
                if t.token_type == Token_Type::NUMBER {
                    lemma_number_token_shape(s, i, line);
                }
                assert forall|k: int|
                    0 <= k < scan_toks(s, i, line).len() && scan_toks(s, i, line)[k].token_type
                        == Token_Type::NUMBER implies crate::num::is_number_lexeme(
                    scan_toks(s, i, line)[k].literal,
                ) by {
                    if k == 0 {
                    } else {
                        assert(scan_toks(s, i, line)[k] == rest[k - 1]);
                    }
                }
            },
            None => {
                assert(scan_toks(s, i, line) == rest);
            },
        }
    }
}

/// A token that one scanning step yields with the NUMBER kind has a literal
/// in number shape.
proof fn lemma_number_token_shape(s: Seq<char>, i: int, line: int)
    requires
        0 <= i < s.len(),
        scan_step(s, i, line).tok is Some,
        scan_step(s, i, line).tok->0.token_type == Token_Type::NUMBER,
    ensures
        crate::num::is_number_lexeme(scan_step(s, i, line).tok->0.literal),
{
    let c = s[i];
    assert(is_digit_c(c));
    let de = digits_end(s, i + 1);
    lemma_digits_end(s, i + 1);
    let lit = scan_step(s, i, line).tok->0.literal;
    if de < s.len() && s[de] == '.' && de + 1 < s.len() && is_digit_c(s[de + 1]) {
        let fe = digits_end(s, de + 1);
        lemma_digits_end(s, de + 1);
        assert(lit == s.subrange(i, fe));
        let d = de - i;
        assert(lit[d] == '.');
        assert(1 <= d <= lit.len() - 2);
        assert(crate::num::all_digits_range(lit, 0, d)) by {
            assert forall|k: int| 0 <= k < d implies is_digit_c(lit[k]) by {
                assert(lit[k] == s[i + k]);
            }
        }
        assert(crate::num::all_digits_range(lit, d + 1, lit.len() as int)) by {
            assert forall|k: int| d + 1 <= k < lit.len() implies is_digit_c(lit[k]) by {
                assert(lit[k] == s[i + k]);
            }
        }
    } else {
        assert(lit == s.subrange(i, de));
        assert(crate::num::all_digits_range(lit, 0, lit.len() as int)) by {
            assert forall|k: int| 0 <= k < lit.len() implies is_digit_c(lit[k]) by {
                assert(lit[k] == s[i + k]);
            }
        }
        assert(lit.len() >= 1);
    }
}

proof fn lemma_shift_find_from(u: Seq<char>, s: Seq<char>, i: int, c: char)
    requires
        0 <= i,
    ensures
        find_from(u + s, u.len() + i, c) == u.len() + find_from(s, i, c),
    decreases s.len() - i,
{
    if i < s.len() {
        assert((u + s)[u.len() + i] == s[i]);
        if s[i] != c {
            lemma_shift_find_from(u, s, i + 1, c);
        }
    }
}

proof fn lemma_shift_count_nl(u: Seq<char>, s: Seq<char>, i: int, j: int)
    requires
        0 <= i <= j <= s.len(),
    ensures
        count_nl(u + s, u.len() + i, u.len() + j) == count_nl(s, i, j),
    decreases j - i,
{
    if i < j {
        assert((u + s)[u.len() + i] == s[i]);
        lemma_shift_count_nl(u, s, i + 1, j);
    }
}

proof fn lemma_shift_digits_end(u: Seq<char>, s: Seq<char>, i: int)
    requires
        0 <= i,
    ensures
        digits_end(u + s, u.len() + i) == u.len() + digits_end(s, i),
    decreases s.len() - i,
{
    if i < s.len() {
        assert((u + s)[u.len() + i] == s[i]);
        if is_digit_c(s[i]) {
            lemma_shift_digits_end(u, s, i + 1);
        }
    }
}

proof fn lemma_shift_ident_end(u: Seq<char>, s: Seq<char>, i: int)
    requires
        0 <= i,
    ensures
        ident_end(u + s, u.len() + i) == u.len() + ident_end(s, i),
    decreases s.len() - i,
{
    if i < s.len() {
        assert((u + s)[u.len() + i] == s[i]);
        if ident_cont(s[i]) {
            lemma_shift_ident_end(u, s, i + 1);
        }
    }
}

/// One scanning step reads only the source from its position on: stepping a
/// concatenation past its prefix is stepping the suffix.
proof fn lemma_shift_scan_step(u: Seq<char>, s: Seq<char>, i: int, line: int)
    requires
        0 <= i < s.len(),
    ensures
        scan_step(u + s, u.len() + i, line) == (StepM {
            next_i: u.len() + scan_step(s, i, line).next_i,
            next_line: scan_step(s, i, line).next_line,
            tok: scan_step(s, i, line).tok,
            err: scan_step(s, i, line).err,
        }),
{
    let t = u + s;
    let d = u.len() as int;
    assert(t.len() == d + s.len());
    assert forall|k: int| 0 <= k < s.len() implies t[d + k] == s[k] by {}
    assert forall|a: int, b: int| 0 <= a <= b <= s.len() implies #[trigger] t.subrange(
        d + a,
        d + b,
    ) == s.subrange(a, b) by {
        assert(t.subrange(d + a, d + b) =~= s.subrange(a, b));
    }
    let c = s[i];
    lemma_scan_step_in_range(s, i, line);
    if c == '/' {
        if i + 1 < s.len() && s[i + 1] == '/' {
            lemma_shift_find_from(u, s, i + 2, '\n');
        }
    } else if c == '"' {
        lemma_find_from(s, i + 1, '"');
        lemma_shift_find_from(u, s, i + 1, '"');
        let close = find_from(s, i + 1, '"');
        if close >= s.len() {
            lemma_shift_count_nl(u, s, i + 1, s.len() as int);
        } else {
            lemma_shift_count_nl(u, s, i + 1, close);
        }
    } else if is_digit_c(c) {
        lemma_digits_end(s, i + 1);
        lemma_shift_digits_end(u, s, i + 1);
        let de = digits_end(s, i + 1);
        if de < s.len() && s[de] == '.' && de + 1 < s.len() && is_digit_c(s[de + 1]) {
            lemma_digits_end(s, de + 1);
            lemma_shift_digits_end(u, s, de + 1);
        }
    } else if !(c == '(' || c == ')' || c == '{' || c == '}' || c == ',' || c == '.' || c == '-'
        || c == '+' || c == ';' || c == '*' || c == '!' || c == '=' || c == '<' || c == '>' || c
        == ' ' || c == '\r' || c == '\t' || c == '\n') {
        if is_alpha_c(c) || c == '_' {
            lemma_ident_end(s, i + 1);
            lemma_shift_ident_end(u, s, i + 1);
        }
    }
}

/// Scanning reads only the source from its position on: scanning a
/// concatenation from past its prefix yields exactly the scan of the
/// suffix, tokens, lines and errors alike.
pub proof fn lemma_shift_scan(u: Seq<char>, s: Seq<char>, i: int, line: int)
    requires
        0 <= i <= s.len(),
    ensures
        scan_toks(u + s, u.len() + i, line) == scan_toks(s, i, line),
        scan_errs(u + s, u.len() + i, line) == scan_errs(s, i, line),
    decreases s.len() - i,
{
    let t = u + s;
    let d = u.len() as int;
    if i >= s.len() {
        assert(scan_toks(t, d + i, line) == seq![eof_m(line)]);
    } else {
        lemma_shift_scan_step(u, s, i, line);
        lemma_scan_step_in_range(s, i, line);
        let st = scan_step(s, i, line);
        assert(step_next(s, i, line) == st.next_i);
        assert(step_next(t, d + i, line) == d + st.next_i);
        lemma_shift_scan(u, s, st.next_i, st.next_line);
    }
}

/// A prefix of blanks — spaces, tabs and carriage returns — leaves the
/// scanned token sequence and the reported errors exactly as they were:
/// superfluous whitespace before an expression changes nothing at all.
pub proof fn lemma_scan_ignores_leading_blanks(pad: Seq<char>, s: Seq<char>, line: int)
    requires
        forall|k: int| 0 <= k < pad.len() ==> is_blank(pad[k]),
    ensures
        scan_toks(pad + s, 0, line) == scan_toks(s, 0, line),
        scan_errs(pad + s, 0, line) == scan_errs(s, 0, line),
    decreases pad.len(),
{
    if pad.len() == 0 {
        assert(pad + s =~= s);
    } else {
        let t = pad + s;
        let head = seq![pad[0]];
        let rest = pad.subrange(1, pad.len() as int);
        assert(t.len() >= 1);
        assert(t[0] == pad[0]);
        assert(scan_step(t, 0, line) == step_skip(1, line));
        assert(step_next(t, 0, line) == 1);
        assert(scan_toks(t, 0, line) == scan_toks(t, 1, line));
        assert(scan_errs(t, 0, line) == scan_errs(t, 1, line));
        assert(t =~= head + (rest + s));
        lemma_shift_scan(head, rest + s, 0, line);
        assert(scan_toks(t, 1, line) == scan_toks(rest + s, 0, line));
        assert(scan_errs(t, 1, line) == scan_errs(rest + s, 0, line));
        lemma_scan_ignores_leading_blanks(rest, s, line);
    }
}

proof fn lemma_find_from_exact(t: Seq<char>, j: int, e: int, c: char)
    requires
        0 <= j <= e <= t.len(),
        forall|k: int| j <= k < e ==> t[k] != c,
        e < t.len() ==> t[e] == c,
    ensures
        find_from(t, j, c) == e,
    decreases e - j,
{
    if j < e {
        lemma_find_from_exact(t, j + 1, e, c);
    }
}

proof fn lemma_digits_end_exact(t: Seq<char>, j: int, e: int)
    requires
        0 <= j <= e <= t.len(),
        forall|k: int| j <= k < e ==> is_digit_c(t[k]),
        e < t.len() ==> !is_digit_c(t[e]),
    ensures
        digits_end(t, j) == e,
    decreases e - j,
{
    if j < e {
        lemma_digits_end_exact(t, j + 1, e);
    }
}

proof fn lemma_ident_end_exact(t: Seq<char>, j: int, e: int)
    requires
        0 <= j <= e <= t.len(),
        forall|k: int| j <= k < e ==> ident_cont(t[k]),
        e < t.len() ==> !ident_cont(t[e]),
    ensures
        ident_end(t, j) == e,
    decreases e - j,
{
    if j < e {
        lemma_ident_end_exact(t, j + 1, e);
    }
}

proof fn lemma_count_nl_eq(s: Seq<char>, t: Seq<char>, i: int, j: int)
    requires
        i <= j,
        forall|k: int| i <= k < j ==> s[k] == t[k],
    ensures
        count_nl(s, i, j) == count_nl(t, i, j),
    decreases j - i,
{
    if i < j {
        lemma_count_nl_eq(s, t, i + 1, j);
    }
}

/// Where one scanning step moves the cursor; the line counter plays no part
/// in it.
pub open spec fn step_ni(s: Seq<char>, i: int) -> int {
    scan_step(s, i, 0).next_i
}

proof fn lemma_step_next_line_free(s: Seq<char>, i: int, line: int)
    requires
        0 <= i < s.len(),
    ensures
        scan_step(s, i, line).next_i == step_ni(s, i),
{
}

/// Whether position `p` lies on the scanner's path from position `i`: it is
/// reached by whole steps, so a lexeme never runs across it.
pub open spec fn on_path(s: Seq<char>, i: int, p: int) -> bool
    decreases p - i,
{
    if i >= p {
        i == p
    } else {
        0 <= i < s.len() && i < step_ni(s, i) <= p && on_path(s, step_ni(s, i), p)
    }
}

proof fn lemma_skip_blanks_at(t: Seq<char>, q: int, m: int, line: int)
    requires
        0 <= q,
        0 <= m,
        q + m <= t.len(),
        forall|k: int| q <= k < q + m ==> is_blank(t[k]),
    ensures
        scan_toks(t, q, line) == scan_toks(t, q + m, line),
        scan_errs(t, q, line) == scan_errs(t, q + m, line),
    decreases m,
{
    if m > 0 {
        assert(is_blank(t[q]));
        assert(scan_step(t, q, line) == step_skip(q + 1, line));
        assert(step_next(t, q, line) == q + 1);
        lemma_skip_blanks_at(t, q + 1, m - 1, line);
    }
}

/// Inserting a run of blanks at a position on the scanner's path — between
/// lexemes, never inside one — leaves the scanned token sequence and the
/// reported errors exactly as they were: superfluous whitespace between the
/// lexemes of an expression changes nothing at all.
#[verifier::rlimit(80)]
#[verifier::spinoff_prover]
pub proof fn lemma_scan_insert_blanks(s: Seq<char>, pad: Seq<char>, p: int, i: int, line: int)
    requires
        0 <= i <= p <= s.len(),
        forall|k: int| 0 <= k < pad.len() ==> is_blank(pad[k]),
        on_path(s, i, p),
    ensures
        scan_toks(s.subrange(0, p) + pad + s.subrange(p, s.len() as int), i, line) == scan_toks(
            s,
            i,
            line,
        ),
        scan_errs(s.subrange(0, p) + pad + s.subrange(p, s.len() as int), i, line) == scan_errs(
            s,
            i,
            line,
        ),
    decreases p - i,
{
    let ins = s.subrange(0, p) + pad + s.subrange(p, s.len() as int);
    let d = pad.len() as int;
    assert(ins.len() == s.len() + d);
    assert forall|k: int| 0 <= k < p implies #[trigger] ins[k] == s[k] by {}
    assert forall|k: int| p <= k < p + d implies #[trigger] ins[k] == pad[k - p] by {}
    assert forall|k: int| p <= k < s.len() implies #[trigger] ins[k + d] == s[k] by {}
    assert forall|a: int, b: int| 0 <= a <= b <= p implies #[trigger] ins.subrange(a, b)
        == s.subrange(a, b) by {
        assert(ins.subrange(a, b) =~= s.subrange(a, b));
    }
    if d == 0 {
        assert(ins =~= s);
    } else if i == p {
        // Skip the inserted blanks, then both sides scan the same suffix.
        lemma_skip_blanks_at(ins, p, d, line);
        let u1 = s.subrange(0, p) + pad;
        let tail = s.subrange(p, s.len() as int);
        assert(ins =~= u1 + tail);
        lemma_shift_scan(u1, tail, 0, line);
        assert(scan_toks(ins, p + d, line) == scan_toks(tail, 0, line));
        assert(scan_errs(ins, p + d, line) == scan_errs(tail, 0, line));
        let u2 = s.subrange(0, p);
        assert(s =~= u2 + tail);
        lemma_shift_scan(u2, tail, 0, line);
        assert(scan_toks(s, p, line) == scan_toks(tail, 0, line));
        assert(scan_errs(s, p, line) == scan_errs(tail, 0, line));
    } else {
        // One step below the insertion point: the step ends at or before it.
        let c = s[i];
        let st = scan_step(s, i, line);
        let n_s = st.next_i;
        lemma_step_next_line_free(s, i, line);
        assert(i < n_s <= p);
        assert(on_path(s, n_s, p));
        lemma_scan_step_in_range(s, i, line);
        assert(step_next(s, i, line) == n_s);
        if c == '/' && i + 1 < s.len() && s[i + 1] == '/' {
            // A comment: it may end exactly at the insertion point, where it
            // swallows the inserted blanks; it emits nothing either way.
            lemma_find_from(s, i + 2, '\n');
            assert(n_s == find_from(s, i + 2, '\n'));
            if n_s < p {
                lemma_find_from_exact(ins, i + 2, n_s, '\n');
                assert(scan_step(ins, i, line) == step_skip(n_s, line));
                assert(step_next(ins, i, line) == n_s);
                lemma_scan_insert_blanks(s, pad, p, n_s, st.next_line);
            } else {
                // n_s == p: the newline (or the end) sits right at p.
                assert forall|k: int| i + 2 <= k < p + d implies #[trigger] ins[k] != '\n' by {
                    if k < p {
                        assert(ins[k] == s[k]);
                    } else {
                        assert(is_blank(ins[k]));
                    }
                }
                if p < s.len() {
                    assert(s[p] == '\n');
                    assert(ins[p + d] == '\n');
                    lemma_find_from_exact(ins, i + 2, p + d, '\n');
                    assert(scan_step(ins, i, line) == step_skip(p + d, line));
                    assert(step_next(ins, i, line) == p + d);
                    // Both sides now scan the same suffix.
                    let u1 = s.subrange(0, p) + pad;
                    let tail = s.subrange(p, s.len() as int);
                    assert(ins =~= u1 + tail);
                    lemma_shift_scan(u1, tail, 0, line);
                    let u2 = s.subrange(0, p);
                    assert(s =~= u2 + tail);
                    lemma_shift_scan(u2, tail, 0, line);
                    assert(scan_toks(ins, p + d, line) == scan_toks(s, p, line));
                    assert(scan_errs(ins, p + d, line) == scan_errs(s, p, line));
                } else {
                    // p == s.len(): the comment runs to the end of both.
                    lemma_find_from_exact(ins, i + 2, p + d, '\n');
                    assert(scan_step(ins, i, line) == step_skip(p + d, line));
                    assert(step_next(ins, i, line) == p + d);
                    assert(scan_toks(ins, p + d, line) == seq![eof_m(line)]);
                    assert(scan_toks(s, p, line) == seq![eof_m(line)]);
                    assert(scan_errs(ins, p + d, line) =~= Seq::<LexErrM>::empty());
                    assert(scan_errs(s, p, line) =~= Seq::<LexErrM>::empty());
                }
            }
        } else if c == '"' {
            lemma_find_from(s, i + 1, '"');
            let close = find_from(s, i + 1, '"');
            if close < s.len() {
                // A closed string ends strictly before the insertion point.
                assert(n_s == close + 1);
                assert(close < p);
                lemma_find_from_exact(ins, i + 1, close, '"');
                lemma_count_nl_eq(s, ins, i + 1, close);
                assert(scan_step(ins, i, line) == scan_step(s, i, line));
                assert(step_next(ins, i, line) == n_s);
                lemma_scan_insert_blanks(s, pad, p, n_s, st.next_line);
            } else {
                // Unterminated: the string runs to the end, so p == s.len()
                // and the inserted blanks are swallowed without a newline.
                assert(n_s == s.len());
                assert(p == s.len());
                assert forall|k: int| i + 1 <= k < p + d implies #[trigger] ins[k] != '"' by {
                    if k < p {
                        assert(ins[k] == s[k]);
                    } else {
                        assert(is_blank(ins[k]));
                    }
                }
                lemma_find_from_exact(ins, i + 1, p + d, '"');
                lemma_count_nl_eq(s, ins, i + 1, s.len() as int);
                lemma_count_nl_split(ins, i + 1, s.len() as int, ins.len() as int);
                assert forall|k: int| s.len() <= k < ins.len() implies #[trigger] ins[k]
                    != '\n' by {
                    assert(is_blank(ins[k]));
                }
                lemma_count_nl_zero(ins, s.len() as int, ins.len() as int);
                assert(count_nl(ins, i + 1, ins.len() as int) == count_nl(
                    s,
                    i + 1,
                    s.len() as int,
                ));
                let l2 = line + count_nl(s, i + 1, s.len() as int);
                assert(scan_step(ins, i, line).next_i == ins.len());
                assert(scan_step(ins, i, line).next_line == l2);
                assert(scan_step(ins, i, line).tok == Option::<TokenM>::None);
                assert(scan_step(ins, i, line).err == scan_step(s, i, line).err);
                assert(step_next(ins, i, line) == ins.len() as int);
                assert(scan_toks(ins, ins.len() as int, l2) == seq![eof_m(l2)]);
                assert(scan_toks(s, s.len() as int, l2) == seq![eof_m(l2)]);
                assert(scan_errs(ins, ins.len() as int, l2) =~= Seq::<LexErrM>::empty());
                assert(scan_errs(s, s.len() as int, l2) =~= Seq::<LexErrM>::empty());
            }
        } else if c == '(' || c == ')' || c == '{' || c == '}' || c == ',' || c == '.' || c == '-'
            || c == '+' || c == ';' || c == '*' || c == ' ' || c == '\r' || c == '\t' || c
            == '\n' {
            assert(scan_step(ins, i, line) == scan_step(s, i, line));
            assert(step_next(ins, i, line) == n_s);
            lemma_scan_insert_blanks(s, pad, p, n_s, st.next_line);
        } else if c == '!' || c == '=' || c == '<' || c == '>' || c == '/' {
            // One- or two-character operator: the step ends at or before p,
            // so a second character, if any, sits below p; at p itself the
            // inserted blank rejects the two-character form just as the
            // original character did.
            if i + 1 < s.len() && s[i + 1] == '=' && (c == '!' || c == '=' || c == '<' || c
                == '>') {
                assert(n_s == i + 2);
                assert(ins[i + 1] == s[i + 1]);
            } else {
                assert(n_s == i + 1);
                if i + 1 < ins.len() {
                    if i + 1 < p {
                        assert(ins[i + 1] == s[i + 1]);
                    } else {
                        assert(is_blank(ins[i + 1]));
                    }
                }
            }
            assert(scan_step(ins, i, line) == scan_step(s, i, line));
            assert(step_next(ins, i, line) == n_s);
            lemma_scan_insert_blanks(s, pad, p, n_s, st.next_line);
        } else if is_digit_c(c) {
            lemma_digits_end(s, i + 1);
            let de = digits_end(s, i + 1);
            let frac = de < s.len() && s[de] == '.' && de + 1 < s.len() && is_digit_c(s[de + 1]);
            assert(n_s == number_end(s, i + 1));
            if frac {
                lemma_digits_end(s, de + 1);
                assert(n_s == digits_end(s, de + 1));
                assert(de + 1 < n_s <= p);
                lemma_digits_end_exact(ins, i + 1, de);
                lemma_digits_end_exact(ins, de + 1, n_s);
            } else {
                assert(n_s == de);
                lemma_digits_end_exact(ins, i + 1, de);
                if de < p {
                    assert(ins[de] == s[de]);
                    if de < s.len() && s[de] == '.' {
                        if de + 1 < p {
                            assert(ins[de + 1] == s[de + 1]);
                        } else if de + 1 < ins.len() {
                            assert(is_blank(ins[de + 1]));
                        }
                    }
                } else {
                    assert(is_blank(ins[de]));
                }
            }
            assert(number_end(ins, i + 1) == n_s);
            assert(scan_step(ins, i, line) == scan_step(s, i, line));
            assert(step_next(ins, i, line) == n_s);
            lemma_scan_insert_blanks(s, pad, p, n_s, st.next_line);
        } else if is_alpha_c(c) || c == '_' {
            lemma_ident_end(s, i + 1);
            assert(n_s == ident_end(s, i + 1));
            lemma_ident_end_exact(ins, i + 1, n_s);
            assert(scan_step(ins, i, line) == scan_step(s, i, line));
            assert(step_next(ins, i, line) == n_s);
            lemma_scan_insert_blanks(s, pad, p, n_s, st.next_line);
        } else {
            // An unknown character: one-character error step.
            assert(n_s == i + 1);
            assert(scan_step(ins, i, line) == scan_step(s, i, line));
            assert(step_next(ins, i, line) == n_s);
            lemma_scan_insert_blanks(s, pad, p, n_s, st.next_line);
        }
    }
}

/// Copies a list of lexical errors.
fn clone_errors(errors: &Vec<ScanError>) -> (r: Vec<ScanError>)
    ensures
        r.deep_view() == errors.deep_view(),
{
    let mut r: Vec<ScanError> = Vec::new();
    let mut i: usize = 0;
    while i < errors.len()
        invariant
            i <= errors@.len(),
            r@.len() == i,
            forall|k: int| 0 <= k < i ==> r@[k] == errors@[k],
        decreases errors@.len() - i,
    {
        r.push(errors[i].clone());
        i = i + 1;
    }
    proof {
        assert(r@ =~= errors@);
        assert(r.deep_view() =~= errors.deep_view());
    }
    r
}

/// The scanner: it owns the decoded source characters and walks them once,
/// left to right, with a lexeme-start cursor, a next-unread cursor and a
/// 1-based line counter.
pub struct Scanner {
    pub source: Vec<char>,
    pub start: usize,
    pub current: usize,
    pub line: usize,
    pub errors: Vec<ScanError>,
}

impl Scanner {
    pub fn new(source: &String) -> (sc: Scanner)
        ensures
            sc.source@ == source@,
            sc.start == 0,
            sc.current == 0,
            sc.line == 1,
            sc.errors@.len() == 0,
    {
        Scanner {
            source: str_to_chars(source.as_str()),
            start: 0,
            current: 0,
            line: 1,
            errors: Vec::new(),
        }
    }

    fn is_at_end(&self) -> (b: bool)
        ensures
            b == (self.current >= self.source@.len()),
    {
        self.current >= self.source.len()
    }

    /// Grabs the character at the current index and advances past it.
    fn advance(&mut self) -> (c: char)
        requires
            old(self).current < old(self).source@.len(),
        ensures
            c == old(self).source@[old(self).current as int],
            *final(self) == (Scanner { current: (old(self).current + 1) as usize, ..*old(self) }),
    {
        let n = self.source.len();
        let current_char = self.source[self.current];
        self.current = self.current + 1;
        current_char
    }

    /// Consumes the next character exactly when it is the expected one.
    fn match_next(&mut self, expected_match: char) -> (b: bool)
        requires
            old(self).current <= old(self).source@.len(),
        ensures
            b == (old(self).current < old(self).source@.len() && old(self).source@[old(
                self,
            ).current as int] == expected_match),
            b ==> *final(self) == (Scanner {
                current: (old(self).current + 1) as usize,
                ..*old(self)
            }),
            !b ==> *final(self) == *old(self),
    {
        if self.is_at_end() {
            return false;
        }
        let n = self.source.len();
        let next_char = self.source[self.current];
        if next_char != expected_match {
            return false;
        }
        self.current = self.current + 1;
        true
    }

    /// The next unread character, or the null character at end of input.
    fn peek_next(&self) -> (c: char)
        ensures
            c == (if self.current < self.source@.len() {
                self.source@[self.current as int]
            } else {
                '\0'
            }),
    {
        if self.current < self.source.len() {
            self.source[self.current]
        } else {
            '\0'
        }
    }

    /// The character after the next unread one, or the null character.
    fn peek_double_next(&self) -> (c: char)
        requires
            self.current < usize::MAX,
        ensures
            c == (if self.current + 1 < self.source@.len() {
                self.source@[self.current as int + 1]
            } else {
                '\0'
            }),
    {
        if self.current + 1 < self.source.len() {
            self.source[self.current + 1]
        } else {
            '\0'
        }
    }

    /// Builds a token for the current lexeme: the source slice between the
    /// two cursors, the given literal payload, and the current line. The
    /// end-of-input token gets an empty lexeme.
    fn generate_token(&self, token_type: Token_Type, literal: Option<String>) -> (t: Token)
        requires
            token_type is EOF || self.start <= self.current <= self.source@.len(),
        ensures
            t@ == (if token_type is EOF {
                eof_m(self.line as int)
            } else {
                TokenM {
                    token_type,
                    lexem: self.source@.subrange(self.start as int, self.current as int),
                    literal: match literal {
                        Some(l) => l@,
                        None => Seq::<char>::empty(),
                    },
                    line: self.line as int,
                }
            }),
    {
        if let Token_Type::EOF = token_type {
            let t = Token::new(Token_Type::EOF, String::new(), String::new(), self.line);
            proof {
                assert(t@.lexem =~= Seq::<char>::empty());
                assert(t@.literal =~= Seq::<char>::empty());
            }
            return t;
        }
        let literal_ = match literal {
            Some(l) => l,
            None => String::new(),
        };
        let lexem = chars_to_string(&self.source, self.start, self.current);
        Token::new(token_type, lexem, literal_, self.line)
    }

    /// Scans a string literal. The opening quote is already consumed; the
    /// payload runs to the next quote, counting embedded newlines. A string
    /// that never closes is a lexical error and yields no token.
    fn string(&mut self) -> (r: Option<Token>)
        requires
            old(self).start < old(self).source@.len(),
            old(self).current == old(self).start + 1,
            old(self).source@[old(self).start as int] == '"',
            old(self).line + (old(self).source@.len() - old(self).current) <= usize::MAX,
        ensures
            final(self).source@ == old(self).source@,
            final(self).start == old(self).start,
            ({
                let s = old(self).source@;
                let i = old(self).start as int;
                let close = find_from(s, i + 1, '"');
                if close >= s.len() {
                    r is None && final(self).current == s.len() && final(self).line == old(
                        self,
                    ).line + count_nl(s, i + 1, s.len() as int) && final(self).errors.deep_view()
                        == old(self).errors.deep_view().push(
                        LexErrM {
                            line: old(self).line + count_nl(s, i + 1, s.len() as int),
                            message: "Missing closing \" on string token"@,
                        },
                    )
                } else {
                    r matches Some(t) && t@ == (TokenM {
                        token_type: Token_Type::STRING,
                        lexem: s.subrange(i, close + 1),
                        literal: s.subrange(i + 1, close),
                        line: old(self).line + count_nl(s, i + 1, close),
                    }) && final(self).current == close + 1 && final(self).line == old(self).line
                        + count_nl(s, i + 1, close) && final(self).errors.deep_view() == old(
                        self,
                    ).errors.deep_view()
                }
            }),
    {
        let ghost s = self.source@;
        let ghost i0 = self.current as int;
        let ghost l0 = self.line as int;
        let n = self.source.len();
        while self.current < n && self.source[self.current] != '"'
            invariant
                self.source@ == s,
                self.start == old(self).start,
                self.errors == old(self).errors,
                n == s.len(),
                i0 <= self.current <= n,
                forall|k: int| i0 <= k < self.current ==> s[k] != '"',
                self.line == l0 + count_nl(s, i0, self.current as int),
                self.line + (n - self.current) <= usize::MAX,
            decreases n - self.current,
        {
            proof {
                lemma_count_nl_snoc(s, i0, self.current as int);
                lemma_count_nl_bounds(s, i0, self.current as int);
            }
            if self.peek_next() == '\n' {
                self.line = self.line + 1;
            }
            self.advance();
        }
        proof {
            lemma_find_from(s, i0, '"');
        }
        if self.is_at_end() {
            proof {
                assert(find_from(s, i0, '"') == s.len());
            }
            self.scanner_error(String::from_str("Missing closing \" on string token"));
            return None;
        }
        proof {
            assert(s[self.current as int] == '"');
            assert(find_from(s, i0, '"') == self.current as int);
        }
        self.advance();  // the closing quote is part of the lexeme
        let literal = chars_to_string(&self.source, self.start + 1, self.current - 1);
        Some(self.generate_token(Token_Type::STRING, Some(literal)))
    }

    /// Scans a number literal: a maximal digit run, extended over a decimal
    /// point only when a digit follows it. The text is both lexeme and
    /// literal.
    fn number(&mut self) -> (t: Token)
        requires
            old(self).start < old(self).source@.len(),
            old(self).current == old(self).start + 1,
            is_digit_c(old(self).source@[old(self).start as int]),
            old(self).source@.len() < usize::MAX,
        ensures
            final(self).source@ == old(self).source@,
            final(self).start == old(self).start,
            final(self).line == old(self).line,
            final(self).errors == old(self).errors,
            final(self).current == number_end(old(self).source@, old(self).current as int),
            t@ == (TokenM {
                token_type: Token_Type::NUMBER,
                lexem: old(self).source@.subrange(
                    old(self).start as int,
                    number_end(old(self).source@, old(self).current as int),
                ),
                literal: old(self).source@.subrange(
                    old(self).start as int,
                    number_end(old(self).source@, old(self).current as int),
                ),
                line: old(self).line as int,
            }),
    {
        let ghost s = self.source@;
        let ghost i0 = self.current as int;
        let n = self.source.len();
        while self.current < n && is_digit_exec(self.source[self.current])
            invariant
                self.source@ == s,
                self.start == old(self).start,
                self.errors == old(self).errors,
                self.line == old(self).line,
                n == s.len() < usize::MAX,
                i0 <= self.current <= n,
                digits_end(s, i0) == digits_end(s, self.current as int),
            decreases n - self.current,
        {
            self.advance();
        }
        proof {
            assert(digits_end(s, self.current as int) == self.current as int);
        }
        if self.peek_next() == '.' && is_digit_exec(self.peek_double_next()) {
            self.advance();
            let ghost d0 = self.current as int;
            while self.current < n && is_digit_exec(self.source[self.current])
                invariant
                    self.source@ == s,
                    self.start == old(self).start,
                    self.errors == old(self).errors,
                    self.line == old(self).line,
                    n == s.len() < usize::MAX,
                    d0 <= self.current <= n,
                    digits_end(s, d0) == digits_end(s, self.current as int),
                decreases n - self.current,
            {
                self.advance();
            }
            proof {
                assert(digits_end(s, self.current as int) == self.current as int);
            }
        }
        let literal = chars_to_string(&self.source, self.start, self.current);
        self.generate_token(Token_Type::NUMBER, Some(literal))
    }

    /// Scans an identifier or reserved word: a maximal run of identifier
    /// characters, looked up against the keyword table.
    fn identifier(&mut self) -> (t: Token)
        requires
            old(self).start < old(self).source@.len(),
            old(self).current == old(self).start + 1,
        ensures
            final(self).source@ == old(self).source@,
            final(self).start == old(self).start,
            final(self).line == old(self).line,
            final(self).errors == old(self).errors,
            final(self).current == ident_end(old(self).source@, old(self).current as int),
            t@ == plain_tok(
                old(self).source@,
                keyword_kind(
                    old(self).source@.subrange(
                        old(self).start as int,
                        ident_end(old(self).source@, old(self).current as int),
                    ),
                ),
                old(self).start as int,
                ident_end(old(self).source@, old(self).current as int),
                old(self).line as int,
            ),
    {
        let ghost s = self.source@;
        let ghost i0 = self.current as int;
        let n = self.source.len();
        while self.current < n && ident_cont_exec(self.source[self.current])
            invariant
                self.source@ == s,
                self.start == old(self).start,
                self.errors == old(self).errors,
                self.line == old(self).line,
                n == s.len(),
                i0 <= self.current <= n,
                ident_end(s, i0) == ident_end(s, self.current as int),
            decreases n - self.current,
        {
            self.advance();
        }
        proof {
            assert(ident_end(s, self.current as int) == self.current as int);
        }
        let identifier = chars_to_string(&self.source, self.start, self.current);
        let token_type: Token_Type = if identifier == String::from_str("and") {
            Token_Type::AND
        } else if identifier == String::from_str("class") {
            Token_Type::CLASS
        } else if identifier == String::from_str("else") {
            Token_Type::ELSE
        } else if identifier == String::from_str("false") {
            Token_Type::FALSE
        } else if identifier == String::from_str("fun") {
            Token_Type::FUN
        } else if identifier == String::from_str("for") {
            Token_Type::FOR
        } else if identifier == String::from_str("if") {
            Token_Type::IF
        } else if identifier == String::from_str("nil") {
            Token_Type::NIL
        } else if identifier == String::from_str("or") {
            Token_Type::OR
        } else if identifier == String::from_str("print") {
            Token_Type::PRINT
        } else if identifier == String::from_str("return") {
            Token_Type::RETURN
        } else if identifier == String::from_str("super") {
            Token_Type::SUPER
        } else if identifier == String::from_str("this") {
            Token_Type::THIS
        } else if identifier == String::from_str("true") {
            Token_Type::TRUE
        } else if identifier == String::from_str("var") {
            Token_Type::VAR
        } else if identifier == String::from_str("while") {
            Token_Type::WHILE
        } else {
            Token_Type::IDENTIFIER
        };
        self.generate_token(token_type, None)
    }

    /// Scans one lexeme at the current position: exactly one step of the
    /// lexical grammar, yielding at most one token and at most one error.
    fn scan_token(&mut self) -> (r: Option<Token>)
        requires
            old(self).start == old(self).current < old(self).source@.len(),
            old(self).source@.len() < usize::MAX,
            old(self).line + (old(self).source@.len() - old(self).current) <= usize::MAX,
        ensures
            ({
                let st = scan_step(old(self).source@, old(self).current as int, old(self).line as int);
                final(self).source@ == old(self).source@ && final(self).start == old(self).start
                    && final(self).current == st.next_i && final(self).line == st.next_line && (match r {
                    Some(t) => st.tok == Some(t@),
                    None => st.tok is None,
                }) && final(self).errors.deep_view() == (match st.err {
                    Some(e) => old(self).errors.deep_view().push(e),
                    None => old(self).errors.deep_view(),
                })
            }),
    {
        let ghost s = self.source@;
        let ghost i = self.current as int;
        let ghost l = self.line as int;
        proof {
            lemma_scan_step_in_range(s, i, l);
        }
        let current_char = self.advance();
        match current_char {
            '(' => Some(self.generate_token(Token_Type::LEFT_PAREN, None)),
            ')' => Some(self.generate_token(Token_Type::RIGHT_PAREN, None)),
            '{' => Some(self.generate_token(Token_Type::LEFT_BRACE, None)),
            '}' => Some(self.generate_token(Token_Type::RIGHT_BRACE, None)),
            ',' => Some(self.generate_token(Token_Type::COMMA, None)),
            '.' => Some(self.generate_token(Token_Type::DOT, None)),
            '-' => Some(self.generate_token(Token_Type::MINUS, None)),
            '+' => Some(self.generate_token(Token_Type::PLUS, None)),
            ';' => Some(self.generate_token(Token_Type::SEMICOLON, None)),
            '*' => Some(self.generate_token(Token_Type::STAR, None)),
            '!' => if self.match_next('=') {
                Some(self.generate_token(Token_Type::BANG_EQUAL, None))
            } else {
                Some(self.generate_token(Token_Type::BANG, None))
            },
            '=' => if self.match_next('=') {
                Some(self.generate_token(Token_Type::EQUAL_EQUAL, None))
            } else {
                Some(self.generate_token(Token_Type::EQUAL, None))
            },
            '<' => if self.match_next('=') {
                Some(self.generate_token(Token_Type::LESS_EQUAL, None))
            } else {
                Some(self.generate_token(Token_Type::LESS, None))
            },
            '>' => if self.match_next('=') {
                Some(self.generate_token(Token_Type::GREATER_EQUAL, None))
            } else {
                Some(self.generate_token(Token_Type::GREATER, None))
            },
            '/' => {
                if self.match_next('/') {
                    // A comment runs through, but not including, the newline.
                    let ghost c0 = self.current as int;
                    let n = self.source.len();
                    while self.current < n && self.source[self.current] != '\n'
                        invariant
                            self.source@ == s,
                            self.start == old(self).start,
                            self.errors == old(self).errors,
                            self.line == old(self).line,
                            n == s.len(),
                            c0 <= self.current <= n,
                            forall|k: int| c0 <= k < self.current ==> s[k] != '\n',
                        decreases n - self.current,
                    {
                        self.advance();
                    }
                    proof {
                        lemma_find_from(s, c0, '\n');
                        assert(find_from(s, c0, '\n') == self.current as int);
                    }
                    return None;
                }
                Some(self.generate_token(Token_Type::SLASH, None))
            },
            ' ' => None,
            '\r' => None,
            '\t' => None,
            '\n' => {
                self.line = self.line + 1;
                None
            },
            '"' => self.string(),
            misc => {
                if is_digit_exec(misc) {
                    return Some(self.number());
                }
                if is_alpha_exec(misc) || misc == '_' {
                    return Some(self.identifier());
                }
                let mut message = String::from_str("Unknown char ");
                push_char(&mut message, misc);
                message.append(" unable to be scanned");
                proof {
                    assert(message@ =~= "Unknown char "@ + seq![misc] + " unable to be scanned"@);
                }
                self.scanner_error(message);
                None
            },
        }
    }

    /// Scans the whole source into its token sequence, ending with exactly
    /// one end-of-input token. If any lexical error occurred, the scan is
    /// reported failed while still handing back the full token sequence.
    pub fn scan_tokens(&mut self) -> (r: Result<Vec<Token>, ScanFailure>)
        requires
            old(self).current <= old(self).source@.len(),
            old(self).source@.len() < usize::MAX,
            old(self).line + (old(self).source@.len() - old(self).current) <= usize::MAX,
        ensures
            ({
                let toks_m = scan_toks(old(self).source@, old(self).current as int, old(self).line as int);
                let errs_m = old(self).errors.deep_view() + scan_errs(
                    old(self).source@,
                    old(self).current as int,
                    old(self).line as int,
                );
                final(self).source@ == old(self).source@ && final(self).errors.deep_view() == errs_m
                    && (match r {
                    Ok(toks) => toks.deep_view() == toks_m && errs_m.len() == 0,
                    Err(f) => f.tokens.deep_view() == toks_m && f.errors.deep_view() == errs_m
                        && errs_m.len() > 0,
                })
            }),
    {
        let ghost s = self.source@;
        let ghost c0 = self.current as int;
        let ghost l0 = self.line as int;
        let ghost e0 = self.errors.deep_view();
        let mut tokens: Vec<Token> = Vec::new();
        let n = self.source.len();
        while self.current < n
            invariant
                self.source@ == s,
                n == s.len() < usize::MAX,
                self.current <= n,
                self.line + (n - self.current) <= usize::MAX,
                tokens.deep_view() + scan_toks(s, self.current as int, self.line as int)
                    == scan_toks(s, c0, l0),
                self.errors.deep_view() + scan_errs(s, self.current as int, self.line as int) == e0
                    + scan_errs(s, c0, l0),
            decreases n - self.current,
        {
            self.start = self.current;
            let ghost pre_i = self.current as int;
            let ghost pre_l = self.line as int;
            let ghost pre_toks = tokens.deep_view();
            let ghost pre_errs = self.errors.deep_view();
            proof {
                lemma_scan_step_in_range(s, pre_i, pre_l);
                lemma_scan_step_lines(s, pre_i, pre_l);
                lemma_count_nl_bounds(s, pre_i, scan_step(s, pre_i, pre_l).next_i);
            }
            let r = self.scan_token();
            match r {
                Some(token) => tokens.push(token),
                None => {},
            }
            proof {
                let st = scan_step(s, pre_i, pre_l);
                assert(step_next(s, pre_i, pre_l) == st.next_i);
                assert(scan_toks(s, pre_i, pre_l) == (match st.tok {
                    Some(t) => seq![t] + scan_toks(s, st.next_i, st.next_line),
                    None => scan_toks(s, st.next_i, st.next_line),
                }));
                assert(scan_errs(s, pre_i, pre_l) == (match st.err {
                    Some(e) => seq![e] + scan_errs(s, st.next_i, st.next_line),
                    None => scan_errs(s, st.next_i, st.next_line),
                }));
                match st.tok {
                    Some(t) => {
                        assert(tokens.deep_view() =~= pre_toks.push(t));
                        assert(pre_toks.push(t) + scan_toks(s, st.next_i, st.next_line) =~= pre_toks
                            + scan_toks(s, pre_i, pre_l));
                    },
                    None => {},
                }
                match st.err {
                    Some(e) => {
                        assert(pre_errs.push(e) + scan_errs(s, st.next_i, st.next_line) =~= pre_errs
                            + scan_errs(s, pre_i, pre_l));
                    },
                    None => {},
                }
            }
        }
        let eof_token = self.generate_token(Token_Type::EOF, None);
        tokens.push(eof_token);
        proof {
            assert(scan_toks(s, self.current as int, self.line as int) == seq![
                eof_m(self.line as int),
            ]);
            assert(scan_errs(s, self.current as int, self.line as int) =~= Seq::<
                LexErrM,
            >::empty());
            assert(self.errors.deep_view() =~= e0 + scan_errs(s, c0, l0));
            assert(tokens.deep_view() =~= scan_toks(s, c0, l0));
        }
        if self.errors.len() == 0 {
            proof {
                assert(self.errors.deep_view().len() == 0);
            }
            return Ok(tokens);
        }
        let errors_copy = clone_errors(&self.errors);
        Err(ScanFailure { tokens, errors: errors_copy })
    }

    /// Records one lexical error on the current line.
    fn scanner_error(&mut self, message: String)
        ensures
            *final(self) == (Scanner { errors: final(self).errors, ..*old(self) }),
            final(self).errors.deep_view() == old(self).errors.deep_view().push(
                LexErrM { line: old(self).line as int, message: message@ },
            ),
    {
        let line = self.line;
        self.errors.push(ScanError { line, message });
        proof {
            assert(self.errors.deep_view() =~= old(self).errors.deep_view().push(
                LexErrM { line: old(self).line as int, message: message@ },
            ));
        }
    }
}

} // verus!
