//! The expression abstract syntax tree: references to physical axes,
//! integer literals, and the four left-associative binary operators.
//! Trees are built once by the parser and never mutate afterwards;
//! they are compared by structural equality.

use vstd::prelude::*;

use crate::config::Axis;

verus! {

/// A binary arithmetic operator.
#[derive(Clone, Copy, Debug, PartialEq, Eq, Structural)]
pub enum Operator {
    Add,
    Sub,
    Mul,
    Div,
}

/// The operator denoted by `s`, if `s` is one of the four operator tokens.
pub open spec fn spec_operator_from_name(s: Seq<char>) -> Option<Operator> {
    if s == "+"@ {
        Some(Operator::Add)
    } else if s == "-"@ {
        Some(Operator::Sub)
    } else if s == "*"@ {
        Some(Operator::Mul)
    } else if s == "/"@ {
        Some(Operator::Div)
    } else {
        None
    }
}

impl Operator {
    /// Parses an operator token (`+`, `-`, `*` or `/`), ignoring
    /// surrounding whitespace; anything else yields `None`.
    pub fn from_str(s: &str) -> (r: Option<Operator>)
        ensures
            r == spec_operator_from_name(crate::parser::spec_trim(s@)),
    {
        let t = crate::parser::trim_spaces(s);
        if crate::config::str_eq(t, "+") {
            Some(Operator::Add)
        } else if crate::config::str_eq(t, "-") {
            Some(Operator::Sub)
        } else if crate::config::str_eq(t, "*") {
            Some(Operator::Mul)
        } else if crate::config::str_eq(t, "/") {
            Some(Operator::Div)
        } else {
            None
        }
    }
}

/// An axis expression.
#[derive(Debug, PartialEq, Eq)]
pub enum AxisExpression {
    /// The current value of the named physical device's axis.
    AxisReference(String, Axis),
    /// A constant.
    Literal(i32),
    /// `BiOp(op, left, right)`: apply `op` to the two sub-expressions,
    /// evaluating the left one first.
    BiOp(Operator, Box<AxisExpression>, Box<AxisExpression>),
}

/// Mathematical model of an `AxisExpression`.
pub enum ExprModel {
    AxisReference(Seq<char>, Axis),
    Literal(int),
    BiOp(Operator, Box<ExprModel>, Box<ExprModel>),
}

/// The model of an expression tree.
pub open spec fn expr_model(e: AxisExpression) -> ExprModel
    decreases e,
{
    match e {
        AxisExpression::AxisReference(dev, axis) => ExprModel::AxisReference(dev@, axis),
        AxisExpression::Literal(v) => ExprModel::Literal(v as int),
        AxisExpression::BiOp(op, left, right) => ExprModel::BiOp(
            op,
            Box::new(expr_model(*left)),
            Box::new(expr_model(*right)),
        ),
    }
}

impl View for AxisExpression {
    type V = ExprModel;

    open spec fn view(&self) -> ExprModel {
        expr_model(*self)
    }
}

impl Clone for AxisExpression {
    fn clone(&self) -> (r: Self)
        ensures
            r@ == self@,
        decreases self,
    {
        match self {
            AxisExpression::AxisReference(dev, axis) => {
                AxisExpression::AxisReference(dev.clone(), *axis)
            },
            AxisExpression::Literal(v) => AxisExpression::Literal(*v),
            AxisExpression::BiOp(op, left, right) => AxisExpression::BiOp(
                *op,
                Box::new((**left).clone()),
                Box::new((**right).clone()),
            ),
        }
    }
}

impl AxisExpression {
    /// Structural equality, stated over the models.
    pub fn matches(&self, other: &AxisExpression) -> (r: bool)
        ensures
            r == (self@ == other@),
        decreases self,
    {
        match (self, other) {
            (
                AxisExpression::AxisReference(d1, a1),
                AxisExpression::AxisReference(d2, a2),
            ) => *d1 == *d2 && a1 == a2,
            (AxisExpression::Literal(v1), AxisExpression::Literal(v2)) => v1 == v2,
            (AxisExpression::BiOp(o1, l1, r1), AxisExpression::BiOp(o2, l2, r2)) => {
                *o1 == *o2 && l1.matches(l2) && r1.matches(r2)
            },
            _ => false,
        }
    }
}

} // verus!
