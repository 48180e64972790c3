//! Short constructors for the common kinds of node.

use vstd::prelude::*;
use vstd::string::*;

use crate::expression::Expression;
use crate::expression::ExpressionType;
use crate::expression::ExpressionView;
use crate::expression::StatementSymbols;
use crate::expression::views;

verus! {

/// A list of one expression.
pub fn one(a: Expression) -> (v: Vec<Expression>)
    ensures
        views(v@) == seq![a@],
{
    let mut v: Vec<Expression> = Vec::new();
    v.push(a);
    assert(views(v@) =~= seq![a@]);
    v
}

/// A list of two expressions.
pub fn two(a: Expression, b: Expression) -> (v: Vec<Expression>)
    ensures
        views(v@) == seq![a@, b@],
{
    let mut v: Vec<Expression> = Vec::new();
    v.push(a);
    v.push(b);
    assert(views(v@) =~= seq![a@, b@]);
    v
}

pub fn constant(symbol: &str) -> (e: Expression)
    ensures
        e@ == ExpressionView::leaf(ExpressionType::ValueConst, symbol@),
{
    Expression::from_parts(ExpressionType::ValueConst, String::from_str(symbol), None)
}

pub fn variable(symbol: &str) -> (e: Expression)
    ensures
        e@ == ExpressionView::leaf(ExpressionType::ValueVar, symbol@),
{
    Expression::from_parts(ExpressionType::ValueVar, String::from_str(symbol), None)
}

pub fn equation(lhs: Expression, rhs: Expression) -> (e: Expression)
    ensures
        e@ == ExpressionView::node(
            ExpressionType::StatementOperatorBinary,
            StatementSymbols::Equal.symbol(),
            seq![lhs@, rhs@],
        ),
        e@.is_equation(),
{
    Expression::from_parts(
        ExpressionType::StatementOperatorBinary,
        StatementSymbols::Equal.to_string(),
        Some(two(lhs, rhs)),
    )
}

/// The statement `lhs symbol rhs`.
pub fn binary_statement(symbol: &str, lhs: Expression, rhs: Expression) -> (e: Expression)
    ensures
        e@ == ExpressionView::node(ExpressionType::StatementOperatorBinary, symbol@, seq![lhs@, rhs@]),
{
    Expression::from_parts(
        ExpressionType::StatementOperatorBinary,
        String::from_str(symbol),
        Some(two(lhs, rhs)),
    )
}

pub fn unary(symbol: &str, child: Expression) -> (e: Expression)
    ensures
        e@ == ExpressionView::node(ExpressionType::OperatorUnary, symbol@, seq![child@]),
{
    Expression::from_parts(ExpressionType::OperatorUnary, String::from_str(symbol), Some(one(child)))
}

pub fn binary(symbol: &str, left: Expression, right: Expression) -> (e: Expression)
    ensures
        e@ == ExpressionView::node(ExpressionType::OperatorBinary, symbol@, seq![left@, right@]),
{
    Expression::from_parts(ExpressionType::OperatorBinary, String::from_str(symbol), Some(two(left, right)))
}

pub fn nary(symbol: &str, children: Vec<Expression>) -> (e: Expression)
    ensures
        e@ == ExpressionView::node(ExpressionType::OperatorNary, symbol@, views(children@)),
{
    Expression::from_parts(ExpressionType::OperatorNary, String::from_str(symbol), Some(children))
}

/// A variadic marker around `template`.
pub fn variadic(template: Expression) -> (e: Expression)
    ensures
        e@ == ExpressionView::node(
            ExpressionType::Variadic,
            ExpressionType::variadic_symbol(),
            seq![template@],
        ),
{
    Expression::from_parts(ExpressionType::Variadic, ExpressionType::variadic_string(), Some(one(template)))
}

} // verus!
