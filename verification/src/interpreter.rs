use vstd::prelude::*;

use crate::expressions::Binary;
use crate::expressions::ExprM;
use crate::expressions::Expression;
use crate::expressions::Grouping;
use crate::expressions::LitM;
use crate::expressions::LiteralEnum;
use crate::expressions::Literal;
use crate::expressions::LiteralValue;
use crate::expressions::Unary;
use crate::expressions::lit_kind;
use crate::num::add_bits;
use crate::num::div_bits;
use crate::num::eq_bits;
use crate::num::ge_bits;
use crate::num::gt_bits;
use crate::num::le_bits;
use crate::num::lt_bits;
use crate::num::mul_bits;
use crate::num::neg_bits;
use crate::num::num_add;
use crate::num::num_div;
use crate::num::num_eq;
use crate::num::num_le;
use crate::num::num_lt;
use crate::num::num_mul;
use crate::num::num_neg;
use crate::num::num_sub;
use crate::num::sub_bits;
use crate::token::Token;
use crate::token::TokenM;
use crate::token::Token_Type;

verus! {

/// The model of a runtime error: the offending token and a human-readable
/// message.
pub struct RErrM {
    pub token: TokenM,
    pub message: Seq<char>,
}

/// A runtime error: evaluation aborts at the first one. It carries the
/// offending operator token, whose line locates the error in the source.
pub struct RuntimeError {
    pub token: Token,
    pub message: String,
}

impl View for RuntimeError {
    type V = RErrM;

    open spec fn view(&self) -> RErrM {
        RErrM { token: self.token@, message: self.message@ }
    }
}

/// The model of an evaluation outcome.
pub open spec fn res_view(r: Result<Literal, RuntimeError>) -> Result<LitM, RErrM> {
    match r {
        Ok(l) => Ok(l@),
        Err(e) => Err(e@),
    }
}

/// Truthiness: nil is false, a boolean is its own value, and every other
/// value is true.
pub open spec fn truthy(v: LitM) -> bool {
    match v {
        LitM::Nil => false,
        LitM::Boolean(b) => b,
        _ => true,
    }
}

/// Structural equality of two runtime values: values of different kinds are
/// never equal; values of one kind compare by that kind, numbers under IEEE
/// equality and the rest by their payloads.
pub open spec fn lit_eq(l: LitM, r: LitM) -> bool {
    match (l, r) {
        (LitM::Nil, LitM::Nil) => true,
        (LitM::Boolean(a), LitM::Boolean(b)) => a == b,
        (LitM::Number(a), LitM::Number(b)) => eq_bits(a, b),
        (LitM::Text(a), LitM::Text(b)) => a == b,
        _ => false,
    }
}

/// Equality is type-sensitive: operands of different kinds never compare
/// equal, whatever their payloads.
pub proof fn lemma_equality_kind_sensitive(l: LitM, r: LitM)
    ensures
        lit_kind(l) != lit_kind(r) ==> !lit_eq(l, r),
{
}

/// A runtime error outcome for the given operator token.
pub open spec fn rerr(op: TokenM, msg: Seq<char>) -> Result<LitM, RErrM> {
    Err(RErrM { token: op, message: msg })
}

/// The outcome of the operator families that need two numbers: subtraction,
/// multiplication, division and the four comparisons. Any non-number operand
/// is a runtime error.
pub open spec fn both_numbers_m(l: LitM, op: TokenM, r: LitM) -> Result<LitM, RErrM> {
    if !(l is Number) || !(r is Number) {
        rerr(op, "Both operands must be a number"@)
    } else {
        let a = l->Number_0;
        let b = r->Number_0;
        match op.token_type {
            Token_Type::MINUS => Ok(LitM::Number(sub_bits(a, b))),
            Token_Type::STAR => Ok(LitM::Number(mul_bits(a, b))),
            Token_Type::SLASH => Ok(LitM::Number(div_bits(a, b))),
            Token_Type::GREATER => Ok(LitM::Boolean(gt_bits(a, b))),
            Token_Type::GREATER_EQUAL => Ok(LitM::Boolean(ge_bits(a, b))),
            Token_Type::LESS => Ok(LitM::Boolean(lt_bits(a, b))),
            Token_Type::LESS_EQUAL => Ok(LitM::Boolean(le_bits(a, b))),
            _ => rerr(op, "Unexpected conditions operation with two numbers"@),
        }
    }
}

/// The outcome of the two equality operators, over `lit_eq`.
pub open spec fn comparison_m(l: LitM, op: TokenM, r: LitM) -> Result<LitM, RErrM> {
    match op.token_type {
        Token_Type::EQUAL_EQUAL => Ok(LitM::Boolean(lit_eq(l, r))),
        Token_Type::BANG_EQUAL => Ok(LitM::Boolean(!lit_eq(l, r))),
        _ => rerr(op, "Unexpected comparision with non comparison type"@),
    }
}

/// The outcome of `+`: the sum of two numbers, the concatenation of two
/// strings, and a runtime error for every other combination of kinds.
pub open spec fn plus_m(l: LitM, op: TokenM, r: LitM) -> Result<LitM, RErrM> {
    match (l, r) {
        (LitM::Number(a), LitM::Number(b)) => Ok(LitM::Number(add_bits(a, b))),
        (LitM::Text(a), LitM::Text(b)) => Ok(LitM::Text(a + b)),
        _ => rerr(op, "Operand must be either a string or number"@),
    }
}

/// Addition by kind: two strings always concatenate, two numbers always add
/// under IEEE arithmetic, and every other combination of kinds is a runtime
/// error, whatever the payloads.
pub proof fn lemma_plus_by_kind(l: LitM, op: TokenM, r: LitM)
    ensures
        l is Text && r is Text ==> plus_m(l, op, r) == Ok::<LitM, RErrM>(
            LitM::Text(l->Text_0 + r->Text_0),
        ),
        l is Number && r is Number ==> plus_m(l, op, r) == Ok::<LitM, RErrM>(
            LitM::Number(add_bits(l->Number_0, r->Number_0)),
        ),
        lit_kind(l) != lit_kind(r) ==> plus_m(l, op, r) is Err,
        lit_kind(l) == LiteralEnum::NIL || lit_kind(l) == LiteralEnum::BOOLEAN ==> plus_m(
            l,
            op,
            r,
        ) is Err,
{
}

/// The outcome of evaluating an expression tree: the first runtime error, or
/// the resulting literal value. In a binary node the right operand is
/// evaluated before the left one.
pub open spec fn eval_m(e: ExprM) -> Result<LitM, RErrM>
    decreases e,
{
    match e {
        ExprM::Literal(v) => Ok(v),
        ExprM::Grouping(inner) => eval_m(*inner),
        ExprM::Unary(op, right) => match eval_m(*right) {
            Err(m) => Err(m),
            Ok(val) => match op.token_type {
                Token_Type::BANG => Ok(LitM::Boolean(!truthy(val))),
                Token_Type::MINUS => match val {
                    LitM::Number(b) => Ok(LitM::Number(neg_bits(b))),
                    _ => rerr(op, "Operand must be a number."@),
                },
                _ => rerr(op, "Invalid Unary, shoud not have occured"@),
            },
        },
        ExprM::Binary(left, op, right) => match eval_m(*right) {
            Err(m) => Err(m),
            Ok(rv) => match eval_m(*left) {
                Err(m) => Err(m),
                Ok(lv) => match op.token_type {
                    Token_Type::MINUS => both_numbers_m(lv, op, rv),
                    Token_Type::SLASH => both_numbers_m(lv, op, rv),
                    Token_Type::STAR => both_numbers_m(lv, op, rv),
                    Token_Type::GREATER => both_numbers_m(lv, op, rv),
                    Token_Type::GREATER_EQUAL => both_numbers_m(lv, op, rv),
                    Token_Type::LESS => both_numbers_m(lv, op, rv),
                    Token_Type::LESS_EQUAL => both_numbers_m(lv, op, rv),
                    Token_Type::EQUAL_EQUAL => comparison_m(lv, op, rv),
                    Token_Type::BANG_EQUAL => comparison_m(lv, op, rv),
                    Token_Type::PLUS => plus_m(lv, op, rv),
                    _ => rerr(op, "Unexpected token type in binary operation"@),
                },
            },
        },
    }
}

/// The tree-walking evaluator.
pub struct Interpreter {}

impl Interpreter {
    /// Evaluates an expression tree to a literal value or the first runtime
    /// error.
    pub fn evaluate(&self, expression: &Expression) -> (r: Result<Literal, RuntimeError>)
        ensures
            res_view(r) == eval_m(expression@),
        decreases *expression,
    {
        match expression {
            Expression::Literal(l) => self.visit_literal(l),
            Expression::Grouping(g) => self.visit_grouping(g),
            Expression::Unary(u) => self.visit_unary(u),
            Expression::Binary(b) => self.visit_binary(b),
        }
    }

    fn visit_literal(&self, element: &Literal) -> (r: Result<Literal, RuntimeError>)
        ensures
            res_view(r) == Ok::<LitM, RErrM>(element@),
    {
        Ok(element.clone())
    }

    fn visit_grouping(&self, element: &Grouping) -> (r: Result<Literal, RuntimeError>)
        ensures
            res_view(r) == eval_m(element.exp@),
        decreases *element,
    {
        self.evaluate(&element.exp)
    }

    fn visit_unary(&self, element: &Unary) -> (r: Result<Literal, RuntimeError>)
        ensures
            res_view(r) == eval_m(ExprM::Unary(element.operator@, Box::new(element.right@))),
        decreases *element,
    {
        let operator = &element.operator;
        let expression = match self.evaluate(&element.right) {
            Ok(literal) => literal,
            Err(m) => {
                return Err(m);
            },
        };
        match operator.token_type {
            Token_Type::BANG => {
                let new_operand = !Interpreter::is_truthy(&expression);
                Ok(Literal::new(LiteralValue::Boolean(new_operand)))
            },
            Token_Type::MINUS => {
                match &expression.value {
                    LiteralValue::Number(b) => Ok(
                        Literal::new(LiteralValue::Number(num_neg(*b))),
                    ),
                    _ => Interpreter::runtime_error(operator, "Operand must be a number."),
                }
            },
            _ => Interpreter::runtime_error(operator, "Invalid Unary, shoud not have occured"),
        }
    }

    fn visit_binary(&self, element: &Binary) -> (r: Result<Literal, RuntimeError>)
        ensures
            res_view(r) == eval_m(
                ExprM::Binary(
                    Box::new(element.left@),
                    element.operator@,
                    Box::new(element.right@),
                ),
            ),
        decreases *element,
    {
        let operator = &element.operator;
        let right = match self.evaluate(&element.right) {
            Ok(literal) => literal,
            Err(m) => {
                return Err(m);
            },
        };
        let left = match self.evaluate(&element.left) {
            Ok(literal) => literal,
            Err(m) => {
                return Err(m);
            },
        };
        match operator.token_type {
            Token_Type::MINUS => Interpreter::handle_both_numbers(&left, operator, &right),
            Token_Type::SLASH => Interpreter::handle_both_numbers(&left, operator, &right),
            Token_Type::STAR => Interpreter::handle_both_numbers(&left, operator, &right),
            Token_Type::GREATER => Interpreter::handle_both_numbers(&left, operator, &right),
            Token_Type::GREATER_EQUAL => Interpreter::handle_both_numbers(&left, operator, &right),
            Token_Type::LESS => Interpreter::handle_both_numbers(&left, operator, &right),
            Token_Type::LESS_EQUAL => Interpreter::handle_both_numbers(&left, operator, &right),
            Token_Type::EQUAL_EQUAL => Interpreter::handle_comparison_case(
                &left,
                operator,
                &right,
            ),
            Token_Type::BANG_EQUAL => Interpreter::handle_comparison_case(&left, operator, &right),
            Token_Type::PLUS => Interpreter::handle_plus_case(&left, operator, &right),
            _ => Interpreter::runtime_error(operator, "Unexpected token type in binary operation"),
        }
    }

    fn runtime_error(token: &Token, message: &str) -> (r: Result<Literal, RuntimeError>)
        ensures
            res_view(r) == rerr(token@, message@),
    {
        Err(RuntimeError { token: token.clone(), message: String::from_str(message) })
    }

    fn is_truthy(literal: &Literal) -> (b: bool)
        ensures
            b == truthy(literal@),
    {
        match &literal.value {
            LiteralValue::Nil => false,
            LiteralValue::Boolean(b) => *b,
            _ => true,
        }
    }

    fn is_equal(left_literal: &Literal, right_literal: &Literal) -> (b: bool)
        ensures
            b == lit_eq(left_literal@, right_literal@),
    {
        match (&left_literal.value, &right_literal.value) {
            (LiteralValue::Nil, LiteralValue::Nil) => true,
            (LiteralValue::Boolean(a), LiteralValue::Boolean(b)) => *a == *b,
            (LiteralValue::Number(a), LiteralValue::Number(b)) => num_eq(*a, *b),
            (LiteralValue::Text(a), LiteralValue::Text(b)) => *a == *b,
            _ => false,
        }
    }

    fn handle_both_numbers(left: &Literal, token: &Token, right: &Literal) -> (r: Result<
        Literal,
        RuntimeError,
    >)
        ensures
            res_view(r) == both_numbers_m(left@, token@, right@),
    {
        let (a, b) = match (&left.value, &right.value) {
            (LiteralValue::Number(a), LiteralValue::Number(b)) => (*a, *b),
            _ => {
                return Interpreter::runtime_error(token, "Both operands must be a number");
            },
        };
        match token.token_type {
            Token_Type::MINUS => Ok(Literal::new(LiteralValue::Number(num_sub(a, b)))),
            Token_Type::STAR => Ok(Literal::new(LiteralValue::Number(num_mul(a, b)))),
            Token_Type::SLASH => Ok(Literal::new(LiteralValue::Number(num_div(a, b)))),
            Token_Type::GREATER => Ok(Literal::new(LiteralValue::Boolean(num_lt(b, a)))),
            Token_Type::GREATER_EQUAL => Ok(Literal::new(LiteralValue::Boolean(num_le(b, a)))),
            Token_Type::LESS => Ok(Literal::new(LiteralValue::Boolean(num_lt(a, b)))),
            Token_Type::LESS_EQUAL => Ok(Literal::new(LiteralValue::Boolean(num_le(a, b)))),
            _ => Interpreter::runtime_error(
                token,
                "Unexpected conditions operation with two numbers",
            ),
        }
    }

    fn handle_comparison_case(left_literal: &Literal, token: &Token, right_literal: &Literal) -> (r:
        Result<Literal, RuntimeError>)
        ensures
            res_view(r) == comparison_m(left_literal@, token@, right_literal@),
    {
        let result_of_comparison = Interpreter::is_equal(left_literal, right_literal);
        match token.token_type {
            Token_Type::EQUAL_EQUAL => Ok(
                Literal::new(LiteralValue::Boolean(result_of_comparison)),
            ),
            Token_Type::BANG_EQUAL => Ok(Literal::new(LiteralValue::Boolean(!result_of_comparison))),
            _ => Interpreter::runtime_error(token, "Unexpected comparision with non comparison type"),
        }
    }

    fn handle_plus_case(left_literal: &Literal, token: &Token, right_literal: &Literal) -> (r:
        Result<Literal, RuntimeError>)
        ensures
            res_view(r) == plus_m(left_literal@, token@, right_literal@),
    {
        match (&left_literal.value, &right_literal.value) {
            (LiteralValue::Number(a), LiteralValue::Number(b)) => Ok(
                Literal::new(LiteralValue::Number(num_add(*a, *b))),
            ),
            (LiteralValue::Text(a), LiteralValue::Text(b)) => {
                let joined = a.clone().concat(b.as_str());
                Ok(Literal::new(LiteralValue::Text(joined)))
            },
            _ => Interpreter::runtime_error(token, "Operand must be either a string or number"),
        }
    }
}

} // verus!
