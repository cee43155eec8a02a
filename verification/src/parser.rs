use vstd::prelude::*;

use crate::expressions::ExprM;
use crate::expressions::Expression;
use crate::expressions::Grouping;
use crate::expressions::Binary;
use crate::expressions::LitM;
use crate::expressions::Literal;
use crate::expressions::LiteralValue;
use crate::expressions::Unary;
use crate::num::number_of;
use crate::num::parse_number;
use crate::token::Token;
use crate::token::TokenM;
use crate::token::Token_Type;

verus! {

/// The model of a parse error: the offending token and a message.
pub struct PErrM {
    pub token: TokenM,
    pub message: Seq<char>,
}

/// A parse error: the token the parser stopped at, and what it expected
/// there. The first error aborts the parse.
pub struct ParseError {
    pub token: Token,
    pub message: String,
}

impl View for ParseError {
    type V = PErrM;

    open spec fn view(&self) -> PErrM {
        PErrM { token: self.token@, message: self.message@ }
    }
}

/// A well-formed token sequence: it ends in an end-of-input token, and every
/// number token carries a literal in number shape, so that it denotes a
/// binary64 value. The scanner yields exactly such sequences.
pub open spec fn tokens_wf(toks: Seq<TokenM>) -> bool {
    toks.len() >= 1 && toks.last().token_type == Token_Type::EOF && (forall|k: int|
        0 <= k < toks.len() && toks[k].token_type == Token_Type::NUMBER
            ==> crate::num::is_number_lexeme(toks[k].literal))
}

/// The outcome of parsing one level: the parsed sub-tree and the position
/// just after it, or the first parse error.
pub type PRes = Result<(ExprM, int), PErrM>;

/// equality → comparison ( ("!=" | "==") comparison )*
pub open spec fn p_expression(toks: Seq<TokenM>, i: int) -> PRes
    decreases toks.len() - i, 10int,
{
    match p_comparison(toks, i) {
        Err(e) => Err(e),
        Ok((e, j)) => if i < j <= toks.len() {
            p_eq_tail(toks, j, e)
        } else {
            Ok((e, j))
        },
    }
}

/// The left-associative fold of further `!=` / `==` operands onto `acc`.
pub open spec fn p_eq_tail(toks: Seq<TokenM>, i: int, acc: ExprM) -> PRes
    decreases toks.len() - i, 10int,
{
    if 0 <= i < toks.len() && (toks[i].token_type == Token_Type::BANG_EQUAL
        || toks[i].token_type == Token_Type::EQUAL_EQUAL) {
        let op = toks[i];
        match p_comparison(toks, i + 1) {
            Err(e) => Err(e),
            Ok((right, j)) => {
                let folded = ExprM::Binary(Box::new(acc), op, Box::new(right));
                if i + 1 < j <= toks.len() {
                    p_eq_tail(toks, j, folded)
                } else {
                    Ok((folded, j))
                }
            },
        }
    } else {
        Ok((acc, i))
    }
}

/// comparison → term ( (">" | ">=" | "<" | "<=") term )*
pub open spec fn p_comparison(toks: Seq<TokenM>, i: int) -> PRes
    decreases toks.len() - i, 8int,
{
    match p_term(toks, i) {
        Err(e) => Err(e),
        Ok((e, j)) => if i < j <= toks.len() {
            p_comp_tail(toks, j, e)
        } else {
            Ok((e, j))
        },
    }
}

/// The left-associative fold of further comparison operands onto `acc`.
pub open spec fn p_comp_tail(toks: Seq<TokenM>, i: int, acc: ExprM) -> PRes
    decreases toks.len() - i, 8int,
{
    if 0 <= i < toks.len() && (toks[i].token_type == Token_Type::GREATER
        || toks[i].token_type == Token_Type::GREATER_EQUAL || toks[i].token_type
        == Token_Type::LESS || toks[i].token_type == Token_Type::LESS_EQUAL) {
        let op = toks[i];
        match p_term(toks, i + 1) {
            Err(e) => Err(e),
            Ok((right, j)) => {
                let folded = ExprM::Binary(Box::new(acc), op, Box::new(right));
                if i + 1 < j <= toks.len() {
                    p_comp_tail(toks, j, folded)
                } else {
                    Ok((folded, j))
                }
            },
        }
    } else {
        Ok((acc, i))
    }
}

/// term → factor ( ("-" | "+") factor )*
pub open spec fn p_term(toks: Seq<TokenM>, i: int) -> PRes
    decreases toks.len() - i, 6int,
{
    match p_factor(toks, i) {
        Err(e) => Err(e),
        Ok((e, j)) => if i < j <= toks.len() {
            p_term_tail(toks, j, e)
        } else {
            Ok((e, j))
        },
    }
}

/// The left-associative fold of further `-` / `+` operands onto `acc`.
pub open spec fn p_term_tail(toks: Seq<TokenM>, i: int, acc: ExprM) -> PRes
    decreases toks.len() - i, 6int,
{
    if 0 <= i < toks.len() && (toks[i].token_type == Token_Type::MINUS || toks[i].token_type
        == Token_Type::PLUS) {
        let op = toks[i];
        match p_factor(toks, i + 1) {
            Err(e) => Err(e),
            Ok((right, j)) => {
                let folded = ExprM::Binary(Box::new(acc), op, Box::new(right));
                if i + 1 < j <= toks.len() {
                    p_term_tail(toks, j, folded)
                } else {
                    Ok((folded, j))
                }
            },
        }
    } else {
        Ok((acc, i))
    }
}

/// factor → unary ( ("/" | "*") unary )*
pub open spec fn p_factor(toks: Seq<TokenM>, i: int) -> PRes
    decreases toks.len() - i, 4int,
{
    match p_unary(toks, i) {
        Err(e) => Err(e),
        Ok((e, j)) => if i < j <= toks.len() {
            p_factor_tail(toks, j, e)
        } else {
            Ok((e, j))
        },
    }
}

/// The left-associative fold of further `/` / `*` operands onto `acc`.
pub open spec fn p_factor_tail(toks: Seq<TokenM>, i: int, acc: ExprM) -> PRes
    decreases toks.len() - i, 4int,
{
    if 0 <= i < toks.len() && (toks[i].token_type == Token_Type::SLASH || toks[i].token_type
        == Token_Type::STAR) {
        let op = toks[i];
        match p_unary(toks, i + 1) {
            Err(e) => Err(e),
            Ok((right, j)) => {
                let folded = ExprM::Binary(Box::new(acc), op, Box::new(right));
                if i + 1 < j <= toks.len() {
                    p_factor_tail(toks, j, folded)
                } else {
                    Ok((folded, j))
                }
            },
        }
    } else {
        Ok((acc, i))
    }
}

/// unary → ("!" | "-") unary | primary
pub open spec fn p_unary(toks: Seq<TokenM>, i: int) -> PRes
    decreases toks.len() - i, 2int,
{
    if 0 <= i < toks.len() && (toks[i].token_type == Token_Type::BANG || toks[i].token_type
        == Token_Type::MINUS) {
        let op = toks[i];
        match p_unary(toks, i + 1) {
            Err(e) => Err(e),
            Ok((right, j)) => Ok((ExprM::Unary(op, Box::new(right)), j)),
        }
    } else {
        p_primary(toks, i)
    }
}

/// primary → NUMBER | STRING | "true" | "false" | "nil" | "(" expression ")"
pub open spec fn p_primary(toks: Seq<TokenM>, i: int) -> PRes
    decreases toks.len() - i, 1int,
{
    if !(0 <= i < toks.len()) {
        Err(PErrM { token: toks[i], message: "Expected expression"@ })
    } else {
        let t = toks[i];
        if t.token_type == Token_Type::TRUE {
            Ok((ExprM::Literal(LitM::Boolean(true)), i + 1))
        } else if t.token_type == Token_Type::FALSE {
            Ok((ExprM::Literal(LitM::Boolean(false)), i + 1))
        } else if t.token_type == Token_Type::NIL {
            Ok((ExprM::Literal(LitM::Nil), i + 1))
        } else if t.token_type == Token_Type::NUMBER {
            Ok((ExprM::Literal(LitM::Number(number_of(t.literal)->0)), i + 1))
        } else if t.token_type == Token_Type::STRING {
            Ok((ExprM::Literal(LitM::Text(t.literal)), i + 1))
        } else if t.token_type == Token_Type::LEFT_PAREN {
            match p_expression(toks, i + 1) {
                Err(e) => Err(e),
                Ok((inner, j)) => if 0 <= j < toks.len() && toks[j].token_type
                    == Token_Type::RIGHT_PAREN {
                    Ok((ExprM::Grouping(Box::new(inner)), j + 1))
                } else {
                    Err(PErrM { token: toks[j], message: "Expect ')' after expression"@ })
                },
            }
        } else {
            Err(PErrM { token: t, message: "Expected expression"@ })
        }
    }
}

/// The token sequence with every line number erased.
pub open spec fn strip_lines(toks: Seq<TokenM>) -> Seq<TokenM> {
    toks.map_values(|t: TokenM| crate::expressions::strip_token(t))
}

/// Two token sequences that agree up to line numbers.
pub open spec fn same_mod_lines(t1: Seq<TokenM>, t2: Seq<TokenM>) -> bool {
    strip_lines(t1) == strip_lines(t2)
}

proof fn lemma_same_index(t1: Seq<TokenM>, t2: Seq<TokenM>, i: int)
    requires
        same_mod_lines(t1, t2),
        0 <= i < t1.len(),
    ensures
        t1.len() == t2.len(),
        crate::expressions::strip_token(t1[i]) == crate::expressions::strip_token(t2[i]),
        t1[i].token_type == t2[i].token_type,
        t1[i].lexem == t2[i].lexem,
        t1[i].literal == t2[i].literal,
{
    assert(strip_lines(t1).len() == t1.len());
    assert(strip_lines(t2).len() == t2.len());
    assert(t1.len() == t2.len());
    assert(strip_lines(t1)[i] == crate::expressions::strip_token(t1[i]));
    assert(strip_lines(t2)[i] == crate::expressions::strip_token(t2[i]));
}

/// Two parse outcomes that agree up to line numbers: the same position and
/// tree on success, the same message at the same (line-stripped) token on
/// failure.
pub open spec fn pres_equiv(r1: PRes, r2: PRes) -> bool {
    match (r1, r2) {
        (Ok((e1, j1)), Ok((e2, j2))) => j1 == j2 && crate::expressions::strip_expr(e1)
            == crate::expressions::strip_expr(e2),
        (Err(m1), Err(m2)) => crate::expressions::strip_token(m1.token)
            == crate::expressions::strip_token(m2.token) && m1.message == m2.message,
        _ => false,
    }
}

proof fn lemma_p_expression_lines(t1: Seq<TokenM>, t2: Seq<TokenM>, i: int)
    requires
        same_mod_lines(t1, t2),
        tokens_wf(t1),
        0 <= i < t1.len(),
    ensures
        pres_equiv(p_expression(t1, i), p_expression(t2, i)),
        p_expression(t1, i) matches Ok(p) ==> i < p.1 < t1.len(),
    decreases t1.len() - i, 10int,
{
    lemma_same_index(t1, t2, i);
    lemma_p_comparison_lines(t1, t2, i);
    match (p_comparison(t1, i), p_comparison(t2, i)) {
        (Ok((e1, j)), Ok((e2, _))) => {
            if i < j <= t1.len() {
                lemma_p_eq_tail_lines(t1, t2, j, e1, e2);
            }
        },
        _ => {},
    }
}

proof fn lemma_p_eq_tail_lines(t1: Seq<TokenM>, t2: Seq<TokenM>, i: int, acc1: ExprM, acc2: ExprM)
    requires
        same_mod_lines(t1, t2),
        tokens_wf(t1),
        0 <= i <= t1.len(),
        crate::expressions::strip_expr(acc1) == crate::expressions::strip_expr(acc2),
    ensures
        pres_equiv(p_eq_tail(t1, i, acc1), p_eq_tail(t2, i, acc2)),
        i < t1.len() ==> (p_eq_tail(t1, i, acc1) matches Ok(p) ==> i <= p.1 < t1.len()),
    decreases t1.len() - i, 10int,
{
    assert(strip_lines(t1).len() == t1.len());
    assert(strip_lines(t2).len() == t2.len());
    if i < t1.len() {
        lemma_same_index(t1, t2, i);
        if t1[i].token_type == Token_Type::BANG_EQUAL || t1[i].token_type
            == Token_Type::EQUAL_EQUAL {
            assert(t1[i].token_type != Token_Type::EOF);
            assert(i != t1.len() - 1);
            lemma_p_comparison_lines(t1, t2, i + 1);
            match (p_comparison(t1, i + 1), p_comparison(t2, i + 1)) {
                (Ok((r1, j)), Ok((r2, _))) => {
                    let f1 = ExprM::Binary(Box::new(acc1), t1[i], Box::new(r1));
                    let f2 = ExprM::Binary(Box::new(acc2), t2[i], Box::new(r2));
                    if i + 1 < j <= t1.len() {
                        lemma_p_eq_tail_lines(t1, t2, j, f1, f2);
                    }
                },
                _ => {},
            }
        }
    }
}

proof fn lemma_p_comparison_lines(t1: Seq<TokenM>, t2: Seq<TokenM>, i: int)
    requires
        same_mod_lines(t1, t2),
        tokens_wf(t1),
        0 <= i < t1.len(),
    ensures
        pres_equiv(p_comparison(t1, i), p_comparison(t2, i)),
        p_comparison(t1, i) matches Ok(p) ==> i < p.1 < t1.len(),
    decreases t1.len() - i, 8int,
{
    lemma_same_index(t1, t2, i);
    lemma_p_term_lines(t1, t2, i);
    match (p_term(t1, i), p_term(t2, i)) {
        (Ok((e1, j)), Ok((e2, _))) => {
            if i < j <= t1.len() {
                lemma_p_comp_tail_lines(t1, t2, j, e1, e2);
            }
        },
        _ => {},
    }
}

proof fn lemma_p_comp_tail_lines(
    t1: Seq<TokenM>,
    t2: Seq<TokenM>,
    i: int,
    acc1: ExprM,
    acc2: ExprM,
)
    requires
        same_mod_lines(t1, t2),
        tokens_wf(t1),
        0 <= i <= t1.len(),
        crate::expressions::strip_expr(acc1) == crate::expressions::strip_expr(acc2),
    ensures
        pres_equiv(p_comp_tail(t1, i, acc1), p_comp_tail(t2, i, acc2)),
        i < t1.len() ==> (p_comp_tail(t1, i, acc1) matches Ok(p) ==> i <= p.1 < t1.len()),
    decreases t1.len() - i, 8int,
{
    assert(strip_lines(t1).len() == t1.len());
    assert(strip_lines(t2).len() == t2.len());
    if i < t1.len() {
        lemma_same_index(t1, t2, i);
        if t1[i].token_type == Token_Type::GREATER || t1[i].token_type
            == Token_Type::GREATER_EQUAL || t1[i].token_type == Token_Type::LESS
            || t1[i].token_type == Token_Type::LESS_EQUAL {
            assert(t1[i].token_type != Token_Type::EOF);
            assert(i != t1.len() - 1);
            lemma_p_term_lines(t1, t2, i + 1);
            match (p_term(t1, i + 1), p_term(t2, i + 1)) {
                (Ok((r1, j)), Ok((r2, _))) => {
                    let f1 = ExprM::Binary(Box::new(acc1), t1[i], Box::new(r1));
                    let f2 = ExprM::Binary(Box::new(acc2), t2[i], Box::new(r2));
                    if i + 1 < j <= t1.len() {
                        lemma_p_comp_tail_lines(t1, t2, j, f1, f2);
                    }
                },
                _ => {},
            }
        }
    }
}

proof fn lemma_p_term_lines(t1: Seq<TokenM>, t2: Seq<TokenM>, i: int)
    requires
        same_mod_lines(t1, t2),
        tokens_wf(t1),
        0 <= i < t1.len(),
    ensures
        pres_equiv(p_term(t1, i), p_term(t2, i)),
        p_term(t1, i) matches Ok(p) ==> i < p.1 < t1.len(),
    decreases t1.len() - i, 6int,
{
    lemma_same_index(t1, t2, i);
    lemma_p_factor_lines(t1, t2, i);
    match (p_factor(t1, i), p_factor(t2, i)) {
        (Ok((e1, j)), Ok((e2, _))) => {
            if i < j <= t1.len() {
                lemma_p_term_tail_lines(t1, t2, j, e1, e2);
            }
        },
        _ => {},
    }
}

proof fn lemma_p_term_tail_lines(
    t1: Seq<TokenM>,
    t2: Seq<TokenM>,
    i: int,
    acc1: ExprM,
    acc2: ExprM,
)
    requires
        same_mod_lines(t1, t2),
        tokens_wf(t1),
        0 <= i <= t1.len(),
        crate::expressions::strip_expr(acc1) == crate::expressions::strip_expr(acc2),
    ensures
        pres_equiv(p_term_tail(t1, i, acc1), p_term_tail(t2, i, acc2)),
        i < t1.len() ==> (p_term_tail(t1, i, acc1) matches Ok(p) ==> i <= p.1 < t1.len()),
    decreases t1.len() - i, 6int,
{
    assert(strip_lines(t1).len() == t1.len());
    assert(strip_lines(t2).len() == t2.len());
    if i < t1.len() {
        lemma_same_index(t1, t2, i);
        if t1[i].token_type == Token_Type::MINUS || t1[i].token_type == Token_Type::PLUS {
            assert(t1[i].token_type != Token_Type::EOF);
            assert(i != t1.len() - 1);
            lemma_p_factor_lines(t1, t2, i + 1);
            match (p_factor(t1, i + 1), p_factor(t2, i + 1)) {
                (Ok((r1, j)), Ok((r2, _))) => {
                    let f1 = ExprM::Binary(Box::new(acc1), t1[i], Box::new(r1));
                    let f2 = ExprM::Binary(Box::new(acc2), t2[i], Box::new(r2));
                    if i + 1 < j <= t1.len() {
                        lemma_p_term_tail_lines(t1, t2, j, f1, f2);
                    }
                },
                _ => {},
            }
        }
    }
}

proof fn lemma_p_factor_lines(t1: Seq<TokenM>, t2: Seq<TokenM>, i: int)
    requires
        same_mod_lines(t1, t2),
        tokens_wf(t1),
        0 <= i < t1.len(),
    ensures
        pres_equiv(p_factor(t1, i), p_factor(t2, i)),
        p_factor(t1, i) matches Ok(p) ==> i < p.1 < t1.len(),
    decreases t1.len() - i, 4int,
{
    lemma_same_index(t1, t2, i);
    lemma_p_unary_lines(t1, t2, i);
    match (p_unary(t1, i), p_unary(t2, i)) {
        (Ok((e1, j)), Ok((e2, _))) => {
            if i < j <= t1.len() {
                lemma_p_factor_tail_lines(t1, t2, j, e1, e2);
            }
        },
        _ => {},
    }
}

proof fn lemma_p_factor_tail_lines(
    t1: Seq<TokenM>,
    t2: Seq<TokenM>,
    i: int,
    acc1: ExprM,
    acc2: ExprM,
)
    requires
        same_mod_lines(t1, t2),
        tokens_wf(t1),
        0 <= i <= t1.len(),
        crate::expressions::strip_expr(acc1) == crate::expressions::strip_expr(acc2),
    ensures
        pres_equiv(p_factor_tail(t1, i, acc1), p_factor_tail(t2, i, acc2)),
        i < t1.len() ==> (p_factor_tail(t1, i, acc1) matches Ok(p) ==> i <= p.1 < t1.len()),
    decreases t1.len() - i, 4int,
{
    assert(strip_lines(t1).len() == t1.len());
    assert(strip_lines(t2).len() == t2.len());
    if i < t1.len() {
        lemma_same_index(t1, t2, i);
        if t1[i].token_type == Token_Type::SLASH || t1[i].token_type == Token_Type::STAR {
            assert(t1[i].token_type != Token_Type::EOF);
            assert(i != t1.len() - 1);
            lemma_p_unary_lines(t1, t2, i + 1);
            match (p_unary(t1, i + 1), p_unary(t2, i + 1)) {
                (Ok((r1, j)), Ok((r2, _))) => {
                    let f1 = ExprM::Binary(Box::new(acc1), t1[i], Box::new(r1));
                    let f2 = ExprM::Binary(Box::new(acc2), t2[i], Box::new(r2));
                    if i + 1 < j <= t1.len() {
                        lemma_p_factor_tail_lines(t1, t2, j, f1, f2);
                    }
                },
                _ => {},
            }
        }
    }
}

proof fn lemma_p_unary_lines(t1: Seq<TokenM>, t2: Seq<TokenM>, i: int)
    requires
        same_mod_lines(t1, t2),
        tokens_wf(t1),
        0 <= i < t1.len(),
    ensures
        pres_equiv(p_unary(t1, i), p_unary(t2, i)),
        p_unary(t1, i) matches Ok(p) ==> i < p.1 < t1.len(),
    decreases t1.len() - i, 2int,
{
    lemma_same_index(t1, t2, i);
    if t1[i].token_type == Token_Type::BANG || t1[i].token_type == Token_Type::MINUS {
        assert(t1[i].token_type != Token_Type::EOF);
        assert(i != t1.len() - 1);
        lemma_p_unary_lines(t1, t2, i + 1);
    } else {
        lemma_p_primary_lines(t1, t2, i);
    }
}

proof fn lemma_p_primary_lines(t1: Seq<TokenM>, t2: Seq<TokenM>, i: int)
    requires
        same_mod_lines(t1, t2),
        tokens_wf(t1),
        0 <= i < t1.len(),
    ensures
        pres_equiv(p_primary(t1, i), p_primary(t2, i)),
        p_primary(t1, i) matches Ok(p) ==> i < p.1 < t1.len(),
    decreases t1.len() - i, 1int,
{
    lemma_same_index(t1, t2, i);
    if t1[i].token_type != Token_Type::EOF {
        assert(i != t1.len() - 1);
    }
    if t1[i].token_type == Token_Type::LEFT_PAREN {
        lemma_p_expression_lines(t1, t2, i + 1);
        match (p_expression(t1, i + 1), p_expression(t2, i + 1)) {
            (Ok((e1, j)), Ok((e2, _))) => {
                if 0 <= j < t1.len() {
                    lemma_same_index(t1, t2, j);
                    if t1[j].token_type != Token_Type::EOF {
                        assert(j != t1.len() - 1);
                    }
                }
            },
            _ => {},
        }
    }
}

/// Parsing reads nothing from a token's line number: two well-formed token
/// sequences that agree up to lines parse to the same outcome, with the same
/// tree shape on success and the same message on failure.
pub proof fn lemma_parse_line_independent(t1: Seq<TokenM>, t2: Seq<TokenM>)
    requires
        same_mod_lines(t1, t2),
        tokens_wf(t1),
    ensures
        pres_equiv(p_expression(t1, 0), p_expression(t2, 0)),
{
    lemma_p_expression_lines(t1, t2, 0);
}

/// The recursive-descent parser: an immutable token sequence and one cursor.
pub struct Parser<'a> {
    pub tokens: &'a Vec<Token>,
    pub current: usize,
}

impl<'a> Parser<'a> {
    /// The parser's internal invariant: the token sequence is well-formed
    /// and the cursor never passes the end-of-input token.
    pub open spec fn wf(&self) -> bool {
        tokens_wf(self.tokens.deep_view()) && self.current < self.tokens@.len()
    }

    pub fn new(tokens: &'a Vec<Token>) -> (p: Parser<'a>)
        ensures
            p.tokens == tokens,
            p.current == 0,
    {
        Parser { tokens, current: 0 }
    }

    /// Parses the token sequence as one expression.
    pub fn parse(&mut self) -> (r: Result<Box<Expression>, ParseError>)
        requires
            old(self).wf(),
        ensures
            final(self).tokens == old(self).tokens,
            match r {
                Ok(e) => p_expression(old(self).tokens.deep_view(), old(self).current as int)
                    == Ok::<_, PErrM>((e@, final(self).current as int)),
                Err(pe) => p_expression(old(self).tokens.deep_view(), old(self).current as int)
                    == Err::<(ExprM, int), _>(pe@),
            },
    {
        self.expression()
    }

    #[verifier::loop_isolation(false)]
    #[verifier::rlimit(30)]
    fn expression(&mut self) -> (r: Result<Box<Expression>, ParseError>)
        requires
            old(self).wf(),
        ensures
            final(self).tokens == old(self).tokens,
            final(self).wf(),
            r is Ok ==> final(self).current > old(self).current,
            match r {
                Ok(e) => p_expression(old(self).tokens.deep_view(), old(self).current as int)
                    == Ok::<_, PErrM>((e@, final(self).current as int)),
                Err(pe) => p_expression(old(self).tokens.deep_view(), old(self).current as int)
                    == Err::<(ExprM, int), _>(pe@),
            },
        decreases old(self).tokens@.len() - old(self).current, 10int,
    {
        let ghost toks = self.tokens.deep_view();
        let ghost c0 = self.current as int;
        let mut expr = match self.comparison() {
            Ok(e) => e,
            Err(m) => {
                return Err(m);
            },
        };
        let expression_vector = vec![Token_Type::BANG_EQUAL, Token_Type::EQUAL_EQUAL];
        while self.match_token(&expression_vector)
            invariant
                self.wf(),
                self.tokens == old(self).tokens,
                c0 < self.current <= toks.len(),
                toks == self.tokens.deep_view(),
                expression_vector@ == seq![Token_Type::BANG_EQUAL, Token_Type::EQUAL_EQUAL],
                p_expression(toks, c0) == p_eq_tail(toks, self.current as int, expr@),
            decreases toks.len() - self.current,
        {
            let operator = self.previous().clone();
            let right = match self.comparison() {
                Ok(e) => e,
                Err(m) => {
                    return Err(m);
                },
            };
            expr = Box::new(Expression::Binary(Binary::new(expr, operator, right)));
        }
        Ok(expr)
    }

    #[verifier::loop_isolation(false)]
    #[verifier::rlimit(30)]
    fn comparison(&mut self) -> (r: Result<Box<Expression>, ParseError>)
        requires
            old(self).wf(),
        ensures
            final(self).tokens == old(self).tokens,
            final(self).wf(),
            r is Ok ==> final(self).current > old(self).current,
            match r {
                Ok(e) => p_comparison(old(self).tokens.deep_view(), old(self).current as int)
                    == Ok::<_, PErrM>((e@, final(self).current as int)),
                Err(pe) => p_comparison(old(self).tokens.deep_view(), old(self).current as int)
                    == Err::<(ExprM, int), _>(pe@),
            },
        decreases old(self).tokens@.len() - old(self).current, 8int,
    {
        let ghost toks = self.tokens.deep_view();
        let ghost c0 = self.current as int;
        let mut expr = match self.term() {
            Ok(e) => e,
            Err(m) => {
                return Err(m);
            },
        };
        let comparison_vector = vec![
            Token_Type::GREATER,
            Token_Type::GREATER_EQUAL,
            Token_Type::LESS,
            Token_Type::LESS_EQUAL,
        ];
        while self.match_token(&comparison_vector)
            invariant
                self.wf(),
                self.tokens == old(self).tokens,
                c0 < self.current <= toks.len(),
                toks == self.tokens.deep_view(),
                comparison_vector@ == seq![
                    Token_Type::GREATER,
                    Token_Type::GREATER_EQUAL,
                    Token_Type::LESS,
                    Token_Type::LESS_EQUAL,
                ],
                p_comparison(toks, c0) == p_comp_tail(toks, self.current as int, expr@),
            decreases toks.len() - self.current,
        {
            let operator = self.previous().clone();
            let right = match self.term() {
                Ok(e) => e,
                Err(m) => {
                    return Err(m);
                },
            };
            expr = Box::new(Expression::Binary(Binary::new(expr, operator, right)));
        }
        Ok(expr)
    }

    #[verifier::loop_isolation(false)]
    #[verifier::rlimit(30)]
    fn term(&mut self) -> (r: Result<Box<Expression>, ParseError>)
        requires
            old(self).wf(),
        ensures
            final(self).tokens == old(self).tokens,
            final(self).wf(),
            r is Ok ==> final(self).current > old(self).current,
            match r {
                Ok(e) => p_term(old(self).tokens.deep_view(), old(self).current as int)
                    == Ok::<_, PErrM>((e@, final(self).current as int)),
                Err(pe) => p_term(old(self).tokens.deep_view(), old(self).current as int)
                    == Err::<(ExprM, int), _>(pe@),
            },
        decreases old(self).tokens@.len() - old(self).current, 6int,
    {
        let ghost toks = self.tokens.deep_view();
        let ghost c0 = self.current as int;
        let mut expr = match self.factor() {
            Ok(e) => e,
            Err(m) => {
                return Err(m);
            },
        };
        let term_vector = vec![Token_Type::MINUS, Token_Type::PLUS];
        while self.match_token(&term_vector)
            invariant
                self.wf(),
                self.tokens == old(self).tokens,
                c0 < self.current <= toks.len(),
                toks == self.tokens.deep_view(),
                term_vector@ == seq![Token_Type::MINUS, Token_Type::PLUS],
                p_term(toks, c0) == p_term_tail(toks, self.current as int, expr@),
            decreases toks.len() - self.current,
        {
            let operator = self.previous().clone();
            let right = match self.factor() {
                Ok(e) => e,
                Err(m) => {
                    return Err(m);
                },
            };
            expr = Box::new(Expression::Binary(Binary::new(expr, operator, right)));
        }
        Ok(expr)
    }

    #[verifier::loop_isolation(false)]
    #[verifier::rlimit(30)]
    fn factor(&mut self) -> (r: Result<Box<Expression>, ParseError>)
        requires
            old(self).wf(),
        ensures
            final(self).tokens == old(self).tokens,
            final(self).wf(),
            r is Ok ==> final(self).current > old(self).current,
            match r {
                Ok(e) => p_factor(old(self).tokens.deep_view(), old(self).current as int)
                    == Ok::<_, PErrM>((e@, final(self).current as int)),
                Err(pe) => p_factor(old(self).tokens.deep_view(), old(self).current as int)
                    == Err::<(ExprM, int), _>(pe@),
            },
        decreases old(self).tokens@.len() - old(self).current, 4int,
    {
        let ghost toks = self.tokens.deep_view();
        let ghost c0 = self.current as int;
        let mut expr = match self.unary() {
            Ok(e) => e,
            Err(m) => {
                return Err(m);
            },
        };
        let factor_vector = vec![Token_Type::SLASH, Token_Type::STAR];
        while self.match_token(&factor_vector)
            invariant
                self.wf(),
                self.tokens == old(self).tokens,
                c0 < self.current <= toks.len(),
                toks == self.tokens.deep_view(),
                factor_vector@ == seq![Token_Type::SLASH, Token_Type::STAR],
                p_factor(toks, c0) == p_factor_tail(toks, self.current as int, expr@),
            decreases toks.len() - self.current,
        {
            let operator = self.previous().clone();
            let right = match self.unary() {
                Ok(e) => e,
                Err(m) => {
                    return Err(m);
                },
            };
            expr = Box::new(Expression::Binary(Binary::new(expr, operator, right)));
        }
        Ok(expr)
    }

    fn unary(&mut self) -> (r: Result<Box<Expression>, ParseError>)
        requires
            old(self).wf(),
        ensures
            final(self).tokens == old(self).tokens,
            final(self).wf(),
            r is Ok ==> final(self).current > old(self).current,
            match r {
                Ok(e) => p_unary(old(self).tokens.deep_view(), old(self).current as int)
                    == Ok::<_, PErrM>((e@, final(self).current as int)),
                Err(pe) => p_unary(old(self).tokens.deep_view(), old(self).current as int)
                    == Err::<(ExprM, int), _>(pe@),
            },
        decreases old(self).tokens@.len() - old(self).current, 2int,
    {
        let unary_vector = vec![Token_Type::BANG, Token_Type::MINUS];
        if self.match_token(&unary_vector) {
            let operator = self.previous().clone();
            let right = match self.unary() {
                Ok(e) => e,
                Err(m) => {
                    return Err(m);
                },
            };
            return Ok(Box::new(Expression::Unary(Unary::new(operator, right))));
        }
        self.primary()
    }

    fn primary(&mut self) -> (r: Result<Box<Expression>, ParseError>)
        requires
            old(self).wf(),
        ensures
            final(self).tokens == old(self).tokens,
            final(self).wf(),
            r is Ok ==> final(self).current > old(self).current,
            match r {
                Ok(e) => p_primary(old(self).tokens.deep_view(), old(self).current as int)
                    == Ok::<_, PErrM>((e@, final(self).current as int)),
                Err(pe) => p_primary(old(self).tokens.deep_view(), old(self).current as int)
                    == Err::<(ExprM, int), _>(pe@),
            },
            ({
                // When no primary production matches, the offending token is
                // not consumed: the parser state is left as it was.
                let k = old(self).tokens.deep_view()[old(self).current as int].token_type;
                !(k == Token_Type::TRUE || k == Token_Type::FALSE || k == Token_Type::NIL || k
                    == Token_Type::NUMBER || k == Token_Type::STRING || k
                    == Token_Type::LEFT_PAREN) ==> r is Err && *final(self) == *old(self)
            }),
        decreases old(self).tokens@.len() - old(self).current, 1int,
    {
        let ghost toks = self.tokens.deep_view();
        let ghost c0 = self.current as int;
        if self.match_token(&vec![Token_Type::TRUE]) {
            return Ok(Box::new(Expression::Literal(Literal::new(LiteralValue::Boolean(true)))));
        }
        if self.match_token(&vec![Token_Type::FALSE]) {
            return Ok(Box::new(Expression::Literal(Literal::new(LiteralValue::Boolean(false)))));
        }
        if self.match_token(&vec![Token_Type::NIL]) {
            return Ok(Box::new(Expression::Literal(Literal::new(LiteralValue::Nil))));
        }
        if self.match_token(&vec![Token_Type::NUMBER]) {
            let bits = match parse_number(self.previous().literal.as_str()) {
                Some(bits) => bits,
                None => {
                    // A well-formed number token always denotes a value.
                    proof {
                        assert(false);
                    }
                    0
                },
            };
            return Ok(Box::new(Expression::Literal(Literal::new(LiteralValue::Number(bits)))));
        }
        if self.match_token(&vec![Token_Type::STRING]) {
            let text = self.previous().literal.clone();
            return Ok(Box::new(Expression::Literal(Literal::new(LiteralValue::Text(text)))));
        }
        if self.match_token(&vec![Token_Type::LEFT_PAREN]) {
            let expr = match self.expression() {
                Ok(e) => e,
                Err(m) => {
                    return Err(m);
                },
            };
            match self.consume(Token_Type::RIGHT_PAREN, "Expect ')' after expression") {
                Ok(_) => {},
                Err(err) => {
                    return Err(err);
                },
            }
            return Ok(Box::new(Expression::Grouping(Grouping::new(expr))));
        }
        let err = self.parser_error("Expected expression");
        Err(err)
    }

    /// Consumes the current token when it matches one of the given kinds.
    fn match_token(&mut self, token_types: &Vec<Token_Type>) -> (b: bool)
        requires
            old(self).wf(),
        ensures
            final(self).tokens == old(self).tokens,
            final(self).wf(),
            b == (old(self).tokens.deep_view()[old(self).current as int].token_type
                != Token_Type::EOF && token_types@.contains(
                old(self).tokens.deep_view()[old(self).current as int].token_type,
            )),
            b ==> final(self).current == old(self).current + 1 && final(self).current < old(
                self,
            ).tokens@.len(),
            !b ==> *final(self) == *old(self),
    {
        let n = token_types.len();
        let mut index: usize = 0;
        while index < n
            invariant
                self == old(self),
                self.wf(),
                n == token_types@.len(),
                index <= n,
                forall|k: int|
                    0 <= k < index ==> !(self.tokens.deep_view()[self.current as int].token_type
                        != Token_Type::EOF && token_types@[k] == self.tokens.deep_view()[self.current as int].token_type),
            decreases n - index,
        {
            if self.check(token_types[index]) {
                self.advance();
                return true;
            }
            index = index + 1;
        }
        false
    }

    /// Whether the current token has the given kind; always false at end of
    /// input.
    fn check(&self, token_type: Token_Type) -> (b: bool)
        requires
            self.wf(),
        ensures
            b == (self.tokens.deep_view()[self.current as int].token_type != Token_Type::EOF
                && self.tokens.deep_view()[self.current as int].token_type == token_type),
    {
        if self.is_at_end() {
            return false;
        }
        self.peek().token_type == token_type
    }

    /// Advances past the current token, except at end of input.
    fn advance(&mut self)
        requires
            old(self).wf(),
        ensures
            final(self).tokens == old(self).tokens,
            final(self).wf(),
            old(self).tokens.deep_view()[old(self).current as int].token_type != Token_Type::EOF
                ==> final(self).current == old(self).current + 1,
            old(self).tokens.deep_view()[old(self).current as int].token_type == Token_Type::EOF
                ==> final(self).current == old(self).current,
    {
        let n = self.tokens.len();
        if !self.is_at_end() {
            proof {
                assert(self.tokens.deep_view().len() == self.tokens@.len());
                assert(self.tokens.deep_view().last() == self.tokens@[self.tokens@.len() - 1]@);
            }
            self.current = self.current + 1;
        }
    }

    /// True exactly when the current token is the end-of-input token.
    fn is_at_end(&self) -> (b: bool)
        requires
            self.wf(),
        ensures
            b == (self.tokens.deep_view()[self.current as int].token_type == Token_Type::EOF),
    {
        self.peek().token_type == Token_Type::EOF
    }

    /// The current token.
    fn peek(&self) -> (t: &Token)
        requires
            self.current < self.tokens@.len(),
        ensures
            *t == self.tokens@[self.current as int],
    {
        &self.tokens[self.current]
    }

    /// The token just consumed.
    fn previous(&self) -> (t: &Token)
        requires
            1 <= self.current,
            self.current <= self.tokens@.len(),
        ensures
            *t == self.tokens@[self.current as int - 1],
    {
        &self.tokens[self.current - 1]
    }

    /// Consumes the expected token kind, or yields a parse error carrying
    /// the current token and the given message.
    fn consume(&mut self, expected: Token_Type, error_message: &str) -> (r: Result<(), ParseError>)
        requires
            old(self).wf(),
        ensures
            final(self).tokens == old(self).tokens,
            final(self).wf(),
            ({
                let t = old(self).tokens.deep_view()[old(self).current as int];
                if t.token_type != Token_Type::EOF && t.token_type == expected {
                    r is Ok && final(self).current == old(self).current + 1
                } else {
                    r matches Err(pe) && pe@ == (PErrM { token: t, message: error_message@ })
                        && *final(self) == *old(self)
                }
            }),
    {
        if self.check(expected) {
            self.advance();
            return Ok(());
        }
        let err = self.parser_error(error_message);
        Err(err)
    }

    /// A parse error at the current token.
    fn parser_error(&self, message: &str) -> (pe: ParseError)
        requires
            self.current < self.tokens@.len(),
        ensures
            pe@ == (PErrM {
                token: self.tokens.deep_view()[self.current as int],
                message: message@,
            }),
    {
        let token = self.peek().clone();
        ParseError { token, message: String::from_str(message) }
    }
}

} // verus!
