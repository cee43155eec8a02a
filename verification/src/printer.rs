use vstd::prelude::*;

use crate::expressions::Binary;
use crate::expressions::ExprM;
use crate::expressions::Expression;
use crate::expressions::Grouping;
use crate::expressions::LitM;
use crate::expressions::Literal;
use crate::expressions::Unary;
use crate::num::number_text;
use crate::num::render_number;

verus! {

/// The canonical text of a literal value: `nil`, the boolean words, a
/// number's canonical decimal text, or a string's own characters.
pub open spec fn render_lit(v: LitM) -> Seq<char> {
    match v {
        LitM::Nil => "nil"@,
        LitM::Boolean(b) => if b {
            "true"@
        } else {
            "false"@
        },
        LitM::Number(bits) => number_text(bits),
        LitM::Text(s) => s,
    }
}

/// The canonical parenthesized rendering of an expression tree: a literal is
/// its own text, a grouping is `(<inner>)`, a unary is `(<op> <operand>)`,
/// and a binary is `(<op> <left> <right>)`.
pub open spec fn render_m(e: ExprM) -> Seq<char>
    decreases e,
{
    match e {
        ExprM::Literal(v) => render_lit(v),
        ExprM::Grouping(inner) => "("@ + render_m(*inner) + ")"@,
        ExprM::Unary(op, right) => "("@ + op.lexem + " "@ + render_m(*right) + ")"@,
        ExprM::Binary(left, op, right) => "("@ + op.lexem + " "@ + render_m(*left) + " "@
            + render_m(*right) + ")"@,
    }
}

/// The canonical rendering never reads a line number: two trees that agree
/// up to the lines recorded in their operator tokens render to the same
/// text.
pub proof fn lemma_render_ignores_lines(e1: ExprM, e2: ExprM)
    requires
        crate::expressions::strip_expr(e1) == crate::expressions::strip_expr(e2),
    ensures
        render_m(e1) == render_m(e2),
    decreases e1,
{
    match e1 {
        ExprM::Literal(_) => {},
        ExprM::Grouping(i1) => {
            match e2 {
                ExprM::Grouping(i2) => {
                    lemma_render_ignores_lines(*i1, *i2);
                },
                _ => {},
            }
        },
        ExprM::Unary(_, r1) => {
            match e2 {
                ExprM::Unary(_, r2) => {
                    lemma_render_ignores_lines(*r1, *r2);
                },
                _ => {},
            }
        },
        ExprM::Binary(l1, _, r1) => {
            match e2 {
                ExprM::Binary(l2, _, r2) => {
                    lemma_render_ignores_lines(*l1, *l2);
                    lemma_render_ignores_lines(*r1, *r2);
                },
                _ => {},
            }
        },
    }
}

/// The structural visitor that renders an expression tree as its canonical
/// parenthesized form.
pub struct Printer {}

impl Printer {
    /// Renders an expression tree as its canonical parenthesized text.
    pub fn convert(&self, exp: Box<Expression>) -> (r: String)
        ensures
            r@ == render_m(exp@),
    {
        self.render_expr(&exp)
    }

    fn render_expr(&self, e: &Expression) -> (r: String)
        ensures
            r@ == render_m(e@),
        decreases *e,
    {
        match e {
            Expression::Literal(l) => self.visit_literal(l),
            Expression::Grouping(g) => self.visit_grouping(g),
            Expression::Unary(u) => self.visit_unary(u),
            Expression::Binary(b) => self.visit_binary(b),
        }
    }

    fn visit_literal(&self, l: &Literal) -> (r: String)
        ensures
            r@ == render_lit(l@),
    {
        match &l.value {
            crate::expressions::LiteralValue::Nil => String::from_str("nil"),
            crate::expressions::LiteralValue::Boolean(b) => if *b {
                String::from_str("true")
            } else {
                String::from_str("false")
            },
            crate::expressions::LiteralValue::Number(bits) => render_number(*bits),
            crate::expressions::LiteralValue::Text(s) => s.clone(),
        }
    }

    fn visit_grouping(&self, g: &Grouping) -> (r: String)
        ensures
            r@ == "("@ + render_m(g.exp@) + ")"@,
        decreases *g,
    {
        let mut r = String::from_str("(");
        let inner = self.render_expr(&g.exp);
        r.append(inner.as_str());
        r.append(")");
        r
    }

    fn visit_unary(&self, u: &Unary) -> (r: String)
        ensures
            r@ == "("@ + u.operator.lexem@ + " "@ + render_m(u.right@) + ")"@,
        decreases *u,
    {
        let mut r = String::from_str("(");
        r.append(u.operator.lexem.as_str());
        r.append(" ");
        let right = self.render_expr(&u.right);
        r.append(right.as_str());
        r.append(")");
        r
    }

    fn visit_binary(&self, b: &Binary) -> (r: String)
        ensures
            r@ == "("@ + b.operator.lexem@ + " "@ + render_m(b.left@) + " "@ + render_m(b.right@)
                + ")"@,
        decreases *b,
    {
        let mut r = String::from_str("(");
        r.append(b.operator.lexem.as_str());
        r.append(" ");
        let left = self.render_expr(&b.left);
        r.append(left.as_str());
        r.append(" ");
        let right = self.render_expr(&b.right);
        r.append(right.as_str());
        r.append(")");
        r
    }
}

} // verus!
