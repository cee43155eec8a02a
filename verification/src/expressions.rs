use vstd::prelude::*;

use crate::token::Token;
use crate::token::TokenM;

verus! {

/// The four kinds a runtime literal value can have.
#[allow(non_camel_case_types)]
#[derive(Clone, Copy, PartialEq, Eq, Structural, Debug)]
pub enum LiteralEnum {
    NIL,
    BOOLEAN,
    NUMBER,
    STRING,
}

/// The mathematical model of a runtime literal value. A number is carried as
/// the bit pattern of an IEEE-754 binary64 value.
pub enum LitM {
    Nil,
    Boolean(bool),
    Number(u64),
    Text(Seq<char>),
}

/// A runtime literal value: the tagged union over nil, booleans, binary64
/// numbers (as bit patterns) and strings.
pub enum LiteralValue {
    Nil,
    Boolean(bool),
    Number(u64),
    Text(String),
}

impl View for LiteralValue {
    type V = LitM;

    open spec fn view(&self) -> LitM {
        match self {
            LiteralValue::Nil => LitM::Nil,
            LiteralValue::Boolean(b) => LitM::Boolean(*b),
            LiteralValue::Number(n) => LitM::Number(*n),
            LiteralValue::Text(s) => LitM::Text(s@),
        }
    }
}

impl Clone for LiteralValue {
    fn clone(&self) -> (v: LiteralValue)
        ensures
            v == *self,
    {
        match self {
            LiteralValue::Nil => LiteralValue::Nil,
            LiteralValue::Boolean(b) => LiteralValue::Boolean(*b),
            LiteralValue::Number(n) => LiteralValue::Number(*n),
            LiteralValue::Text(s) => LiteralValue::Text(s.clone()),
        }
    }
}

/// The kind of a modelled literal value.
pub open spec fn lit_kind(v: LitM) -> LiteralEnum {
    match v {
        LitM::Nil => LiteralEnum::NIL,
        LitM::Boolean(_) => LiteralEnum::BOOLEAN,
        LitM::Number(_) => LiteralEnum::NUMBER,
        LitM::Text(_) => LiteralEnum::STRING,
    }
}

/// A literal leaf of the expression tree, and also the result type of
/// evaluation: it owns one scalar payload whose kind is fixed at
/// construction.
pub struct Literal {
    pub value: LiteralValue,
}

impl View for Literal {
    type V = LitM;

    open spec fn view(&self) -> LitM {
        self.value@
    }
}

impl Clone for Literal {
    fn clone(&self) -> (l: Literal)
        ensures
            l == *self,
    {
        Literal { value: self.value.clone() }
    }
}

impl Literal {
    pub fn new(value: LiteralValue) -> (l: Literal)
        ensures
            l.value == value,
    {
        Literal { value }
    }

    /// The kind of this literal value.
    pub fn literal_type(&self) -> (k: LiteralEnum)
        ensures
            k == lit_kind(self@),
    {
        match &self.value {
            LiteralValue::Nil => LiteralEnum::NIL,
            LiteralValue::Boolean(_) => LiteralEnum::BOOLEAN,
            LiteralValue::Number(_) => LiteralEnum::NUMBER,
            LiteralValue::Text(_) => LiteralEnum::STRING,
        }
    }
}

/// A parenthesized sub-expression; it alters precedence during parsing and
/// has no semantic effect of its own.
pub struct Grouping {
    pub exp: Box<Expression>,
}

/// A prefix operator applied to one operand.
pub struct Unary {
    pub operator: Token,
    pub right: Box<Expression>,
}

/// An infix operator applied to two operands.
pub struct Binary {
    pub left: Box<Expression>,
    pub operator: Token,
    pub right: Box<Expression>,
}

/// One node of the expression tree: the closed set of variants, each owning
/// its children outright.
pub enum Expression {
    Literal(Literal),
    Grouping(Grouping),
    Unary(Unary),
    Binary(Binary),
}

/// The mathematical model of an expression tree.
pub enum ExprM {
    Literal(LitM),
    Grouping(Box<ExprM>),
    Unary(TokenM, Box<ExprM>),
    Binary(Box<ExprM>, TokenM, Box<ExprM>),
}

/// The model of an expression tree.
pub open spec fn expr_view(e: Expression) -> ExprM
    decreases e,
{
    match e {
        Expression::Literal(l) => ExprM::Literal(l@),
        Expression::Grouping(g) => ExprM::Grouping(Box::new(expr_view(*g.exp))),
        Expression::Unary(u) => ExprM::Unary(u.operator@, Box::new(expr_view(*u.right))),
        Expression::Binary(b) => ExprM::Binary(
            Box::new(expr_view(*b.left)),
            b.operator@,
            Box::new(expr_view(*b.right)),
        ),
    }
}

/// The token with its line number erased: what remains is its kind, its
/// lexeme and its literal payload.
pub open spec fn strip_token(t: TokenM) -> TokenM {
    TokenM { token_type: t.token_type, lexem: t.lexem, literal: t.literal, line: 0 }
}

/// The expression tree with every operator token's line number erased.
pub open spec fn strip_expr(e: ExprM) -> ExprM
    decreases e,
{
    match e {
        ExprM::Literal(v) => ExprM::Literal(v),
        ExprM::Grouping(inner) => ExprM::Grouping(Box::new(strip_expr(*inner))),
        ExprM::Unary(op, right) => ExprM::Unary(strip_token(op), Box::new(strip_expr(*right))),
        ExprM::Binary(left, op, right) => ExprM::Binary(
            Box::new(strip_expr(*left)),
            strip_token(op),
            Box::new(strip_expr(*right)),
        ),
    }
}

impl View for Expression {
    type V = ExprM;

    open spec fn view(&self) -> ExprM {
        expr_view(*self)
    }
}

impl Grouping {
    pub fn new(exp: Box<Expression>) -> (g: Grouping)
        ensures
            g.exp == exp,
    {
        Grouping { exp }
    }
}

impl Unary {
    pub fn new(operator: Token, right: Box<Expression>) -> (u: Unary)
        ensures
            u.operator == operator,
            u.right == right,
    {
        Unary { operator, right }
    }
}

impl Binary {
    pub fn new(left: Box<Expression>, operator: Token, right: Box<Expression>) -> (b: Binary)
        ensures
            b.left == left,
            b.operator == operator,
            b.right == right,
    {
        Binary { left, operator, right }
    }
}

} // verus!
