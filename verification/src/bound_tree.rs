use vstd::prelude::*;

use crate::object::{type_of, DumbBrainObject, DumbBrainType};

verus! {

/// The binary operations of the language, apart from how they are spelt.
#[derive(Debug, Clone, Copy, PartialEq, Eq, Hash, Structural)]
pub enum BinaryOperation {
    Add,
    Subtract,
    Multiply,
    Divide,
    Equality,
    Inequality,
    Less,
    LessEquals,
    Greater,
    GreaterEquals,
    LogicalAnd,
    LogicalOr,
}

/// The prefix operations of the language.
#[derive(Debug, Clone, Copy, PartialEq, Eq, Hash, Structural)]
pub enum UnaryOperation {
    Identity,
    Negation,
}

/// A typed expression: a node and the static type of its value.
#[derive(Debug, PartialEq, Eq)]
pub struct BoundExpression {
    pub node: BoundExpressionNode,
    pub kind: DumbBrainType,
}

/// What a typed expression is: a literal, or an operation on typed
/// expressions.
#[derive(Debug, PartialEq, Eq)]
#[allow(inconsistent_fields)]
pub enum BoundExpressionNode {
    Literal { value: Option<DumbBrainObject> },
    Binary { left: Box<BoundExpression>, right: Box<BoundExpression>, operation: BinaryOperation },
    Unary { operand: Box<BoundExpression>, operation: UnaryOperation },
}

impl BoundExpression {
    /// The number of nodes of the tree.
    pub open spec fn size(self) -> nat
        decreases self,
    {
        match self.node {
            BoundExpressionNode::Literal { .. } => 1,
            BoundExpressionNode::Binary { left, right, .. } => 1 + left.size() + right.size(),
            BoundExpressionNode::Unary { operand, .. } => 1 + operand.size(),
        }
    }
}

/// Whether an operation is one of the four of arithmetic.
pub open spec fn is_arithmetic(operation: BinaryOperation) -> bool {
    operation is Add || operation is Subtract || operation is Multiply || operation is Divide
}

impl BinaryOperation {
    /// Whether the operation is one of the four of arithmetic.
    pub fn is_arithmetic(self) -> (r: bool)
        ensures
            r == is_arithmetic(self),
    {
        match self {
            Self::Add | Self::Subtract | Self::Multiply | Self::Divide => true,
            _ => false,
        }
    }
}

/// Whether the static types of an expression fit together: a literal's
/// value, where it has one, is of the literal's type; a prefix operation
/// and an operation of arithmetic are numbers over numbers; a comparison
/// and a logical operation are booleans.
pub open spec fn well_typed(expression: BoundExpression) -> bool
    decreases expression,
{
    match expression.node {
        BoundExpressionNode::Literal { value } => match value {
            Some(value) => type_of(value) == expression.kind,
            None => true,
        },
        BoundExpressionNode::Unary { operand, .. } => well_typed(*operand) && operand.kind
            == DumbBrainType::Number && expression.kind == DumbBrainType::Number,
        BoundExpressionNode::Binary { left, right, operation } => well_typed(*left) && well_typed(
            *right,
        ) && if is_arithmetic(operation) {
            left.kind == DumbBrainType::Number && right.kind == DumbBrainType::Number
                && expression.kind == DumbBrainType::Number
        } else {
            expression.kind == DumbBrainType::Boolean
        },
    }
}

} // verus!
