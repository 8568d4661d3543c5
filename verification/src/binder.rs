use vstd::prelude::*;

use crate::ast::{ExpressionSyntax, ExpressionView};
use crate::bound_tree::{
    is_arithmetic, well_typed, BinaryOperation, BoundExpression, BoundExpressionNode,
    UnaryOperation,
};
use crate::object::{type_of, DumbBrainType};
use crate::syntax::SyntaxKind;
use crate::token::{Token, TokenView};

verus! {

/// Why a syntax tree has no typed form.
#[derive(Debug, Clone, Copy, PartialEq, Eq, Structural)]
#[allow(inconsistent_fields)]
pub enum BindError {
    /// An operation of arithmetic has an operand that is no number.
    BinaryOperandTypes { operation: BinaryOperation, left: DumbBrainType, right: DumbBrainType },
    /// A prefix operation has an operand that is no number.
    UnaryOperandType { operation: UnaryOperation, operand: DumbBrainType },
    /// The token of a literal is neither a number nor a keyword.
    NotALiteral { kind: SyntaxKind },
    /// The operator token of a binary expression is no binary operator.
    NotABinaryOperator { kind: SyntaxKind },
    /// The operator token of a prefix expression is no prefix operator.
    NotAUnaryOperator { kind: SyntaxKind },
}

/// The operation that a token kind spells between two operands.
pub open spec fn binary_operation_of(kind: SyntaxKind) -> Option<BinaryOperation> {
    match kind {
        SyntaxKind::PlusToken => Some(BinaryOperation::Add),
        SyntaxKind::MinusToken => Some(BinaryOperation::Subtract),
        SyntaxKind::StarToken => Some(BinaryOperation::Multiply),
        SyntaxKind::SlashToken => Some(BinaryOperation::Divide),
        SyntaxKind::EqualsEqualsToken => Some(BinaryOperation::Equality),
        SyntaxKind::BangEqualsToken => Some(BinaryOperation::Inequality),
        SyntaxKind::LessToken => Some(BinaryOperation::Less),
        SyntaxKind::LessEqualsToken => Some(BinaryOperation::LessEquals),
        SyntaxKind::GreaterToken => Some(BinaryOperation::Greater),
        SyntaxKind::GreaterEqualsToken => Some(BinaryOperation::GreaterEquals),
        SyntaxKind::AmpersandAmpersandToken => Some(BinaryOperation::LogicalAnd),
        SyntaxKind::PipePipeToken => Some(BinaryOperation::LogicalOr),
        _ => None,
    }
}

/// The operation that a token kind spells before one operand.
pub open spec fn unary_operation_of(kind: SyntaxKind) -> Option<UnaryOperation> {
    match kind {
        SyntaxKind::PlusToken => Some(UnaryOperation::Identity),
        SyntaxKind::MinusToken => Some(UnaryOperation::Negation),
        _ => None,
    }
}

/// The static type of a literal token.
pub open spec fn literal_type(kind: SyntaxKind) -> Option<DumbBrainType> {
    match kind {
        SyntaxKind::NumberToken => Some(DumbBrainType::Number),
        SyntaxKind::TrueKeyword | SyntaxKind::FalseKeyword => Some(DumbBrainType::Boolean),
        _ => None,
    }
}

/// The typed form of a literal: the value of its token under the type of
/// the token's kind.
pub open spec fn bound_literal(literal_token: TokenView) -> Result<BoundExpression, BindError> {
    match literal_type(literal_token.kind) {
        Some(kind) => Ok(
            BoundExpression {
                node: BoundExpressionNode::Literal { value: literal_token.value },
                kind,
            },
        ),
        None => Err(BindError::NotALiteral { kind: literal_token.kind }),
    }
}

/// The static type of a binary expression over typed operands. Arithmetic
/// takes two numbers and gives a number. A comparison or a logical
/// operation is a boolean whatever its operands are.
pub open spec fn binary_type(
    operation: BinaryOperation,
    left: DumbBrainType,
    right: DumbBrainType,
) -> Result<DumbBrainType, BindError> {
    if is_arithmetic(operation) {
        if left == DumbBrainType::Number && right == DumbBrainType::Number {
            Ok(DumbBrainType::Number)
        } else {
            Err(BindError::BinaryOperandTypes { operation, left, right })
        }
    } else {
        Ok(DumbBrainType::Boolean)
    }
}

/// The typed form of a binary expression over typed operands.
pub open spec fn bound_binary(
    left: BoundExpression,
    operator: SyntaxKind,
    right: BoundExpression,
) -> Result<BoundExpression, BindError> {
    match binary_operation_of(operator) {
        None => Err(BindError::NotABinaryOperator { kind: operator }),
        Some(operation) => match binary_type(operation, left.kind, right.kind) {
            Err(error) => Err(error),
            Ok(kind) => Ok(
                BoundExpression {
                    node: BoundExpressionNode::Binary {
                        left: Box::new(left),
                        right: Box::new(right),
                        operation,
                    },
                    kind,
                },
            ),
        },
    }
}

/// The typed form of a prefix expression over a typed operand, which has
/// to be a number.
pub open spec fn bound_unary(operator: SyntaxKind, operand: BoundExpression) -> Result<
    BoundExpression,
    BindError,
> {
    match unary_operation_of(operator) {
        None => Err(BindError::NotAUnaryOperator { kind: operator }),
        Some(operation) => if operand.kind == DumbBrainType::Number {
            Ok(
                BoundExpression {
                    node: BoundExpressionNode::Unary { operand: Box::new(operand), operation },
                    kind: DumbBrainType::Number,
                },
            )
        } else {
            Err(BindError::UnaryOperandType { operation, operand: operand.kind })
        },
    }
}

/// The typed form of a syntax tree. Operands are bound before their
/// operator is looked at, the left one first; parentheses leave no node.
pub open spec fn bound(expression: ExpressionView) -> Result<BoundExpression, BindError>
    decreases expression,
{
    match expression {
        ExpressionView::Literal { literal_token } => bound_literal(literal_token),
        ExpressionView::Binary { left, operator_token, right } => match bound(*left) {
            Err(error) => Err(error),
            Ok(left) => match bound(*right) {
                Err(error) => Err(error),
                Ok(right) => bound_binary(left, operator_token.kind, right),
            },
        },
        ExpressionView::Unary { operator_token, right } => match bound(*right) {
            Err(error) => Err(error),
            Ok(operand) => bound_unary(operator_token.kind, operand),
        },
        ExpressionView::Parenthesized { expression, .. } => bound(*expression),
    }
}

/// Whether the value of a token, where it has one, is of the type that
/// literals of the token's kind have.
pub open spec fn value_fits(token: TokenView) -> bool {
    match token.value {
        Some(value) => literal_type(token.kind) == Some(type_of(value)),
        None => true,
    }
}

/// Whether the value of each literal of a tree, where it has one, is of
/// the type of the literal.
pub open spec fn literals_fit(expression: ExpressionView) -> bool
    decreases expression,
{
    match expression {
        ExpressionView::Literal { literal_token } => value_fits(literal_token),
        ExpressionView::Binary { left, right, .. } => literals_fit(*left) && literals_fit(*right),
        ExpressionView::Unary { right, .. } => literals_fit(*right),
        ExpressionView::Parenthesized { expression, .. } => literals_fit(*expression),
    }
}

/// What binds is well typed, where the literals carry values of their
/// types.
pub proof fn lemma_bound_is_well_typed(expression: ExpressionView)
    requires
        literals_fit(expression),
    ensures
        bound(expression) matches Ok(typed) ==> well_typed(typed),
    decreases expression,
{
    match expression {
        ExpressionView::Literal { literal_token } => {},
        ExpressionView::Binary { left, operator_token, right } => {
            lemma_bound_is_well_typed(*left);
            lemma_bound_is_well_typed(*right);
        },
        ExpressionView::Unary { operator_token, right } => {
            lemma_bound_is_well_typed(*right);
        },
        ExpressionView::Parenthesized { expression, .. } => {
            lemma_bound_is_well_typed(*expression);
        },
    }
}

/// Gives syntax trees their static types.
pub struct Binder {}

impl Binder {
    /// The typed form of a syntax tree, or the first reason why it has none.
    pub fn bind_expression(expression: &ExpressionSyntax) -> (outcome: Result<
        BoundExpression,
        BindError,
    >)
        ensures
            outcome == bound(expression@),
        decreases expression@.size(), 1nat,
    {
        match expression {
            ExpressionSyntax::Literal { literal_token } => Self::bind_literal_expression(
                literal_token,
            ),
            ExpressionSyntax::Binary { left, operator_token, right } => {
                Self::bind_binary_expression(left, operator_token, right)
            },
            ExpressionSyntax::Unary { operator_token, right } => Self::bind_unary_expression(
                operator_token,
                right,
            ),
            ExpressionSyntax::Parenthesized { expression, .. } => Self::bind_expression(expression),
        }
    }

    /// The operation that an operator token spells between two operands.
    fn resolve_binary_operation(kind: SyntaxKind) -> (operation: Option<BinaryOperation>)
        ensures
            operation == binary_operation_of(kind),
    {
        match kind {
            SyntaxKind::PlusToken => Some(BinaryOperation::Add),
            SyntaxKind::MinusToken => Some(BinaryOperation::Subtract),
            SyntaxKind::StarToken => Some(BinaryOperation::Multiply),
            SyntaxKind::SlashToken => Some(BinaryOperation::Divide),
            SyntaxKind::EqualsEqualsToken => Some(BinaryOperation::Equality),
            SyntaxKind::BangEqualsToken => Some(BinaryOperation::Inequality),
            SyntaxKind::LessToken => Some(BinaryOperation::Less),
            SyntaxKind::LessEqualsToken => Some(BinaryOperation::LessEquals),
            SyntaxKind::GreaterToken => Some(BinaryOperation::Greater),
            SyntaxKind::GreaterEqualsToken => Some(BinaryOperation::GreaterEquals),
            SyntaxKind::AmpersandAmpersandToken => Some(BinaryOperation::LogicalAnd),
            SyntaxKind::PipePipeToken => Some(BinaryOperation::LogicalOr),
            _ => None,
        }
    }

    fn resolve_binary_type(
        left: &BoundExpression,
        operation: BinaryOperation,
        right: &BoundExpression,
    ) -> (kind: Result<DumbBrainType, BindError>)
        ensures
            kind == binary_type(operation, left.kind, right.kind),
    {
        if operation.is_arithmetic() {
            if left.kind == DumbBrainType::Number && right.kind == DumbBrainType::Number {
                Ok(DumbBrainType::Number)
            } else {
                Err(
                    BindError::BinaryOperandTypes {
                        operation,
                        left: left.kind,
                        right: right.kind,
                    },
                )
            }
        } else {
            Ok(DumbBrainType::Boolean)
        }
    }

    fn resolve_unary_type(operation: UnaryOperation, operand: &BoundExpression) -> (kind: Result<
        DumbBrainType,
        BindError,
    >)
        ensures
            kind == if operand.kind == DumbBrainType::Number {
                Ok::<DumbBrainType, BindError>(DumbBrainType::Number)
            } else {
                Err(BindError::UnaryOperandType { operation, operand: operand.kind })
            },
    {
        if operand.kind == DumbBrainType::Number {
            Ok(DumbBrainType::Number)
        } else {
            Err(BindError::UnaryOperandType { operation, operand: operand.kind })
        }
    }

    fn bind_literal_expression(literal_token: &Token) -> (outcome: Result<
        BoundExpression,
        BindError,
    >)
        ensures
            outcome == bound_literal(literal_token@),
    {
        match literal_token.kind {
            SyntaxKind::NumberToken => Ok(
                BoundExpression {
                    node: BoundExpressionNode::Literal { value: literal_token.value },
                    kind: DumbBrainType::Number,
                },
            ),
            SyntaxKind::TrueKeyword | SyntaxKind::FalseKeyword => Ok(
                BoundExpression {
                    node: BoundExpressionNode::Literal { value: literal_token.value },
                    kind: DumbBrainType::Boolean,
                },
            ),
            _ => Err(BindError::NotALiteral { kind: literal_token.kind }),
        }
    }

    fn bind_binary_expression(
        left: &ExpressionSyntax,
        operator_token: &Token,
        right: &ExpressionSyntax,
    ) -> (outcome: Result<BoundExpression, BindError>)
        ensures
            outcome == match bound(left@) {
                Err(error) => Err(error),
                Ok(left) => match bound(right@) {
                    Err(error) => Err(error),
                    Ok(right) => bound_binary(left, operator_token@.kind, right),
                },
            },
        decreases left@.size() + right@.size() + 1, 0nat,
    {
        let left: BoundExpression = match Self::bind_expression(left) {
            Ok(left) => left,
            Err(error) => {
                return Err(error);
            },
        };
        let right: BoundExpression = match Self::bind_expression(right) {
            Ok(right) => right,
            Err(error) => {
                return Err(error);
            },
        };
        let operation: BinaryOperation = match Self::resolve_binary_operation(
            operator_token.kind,
        ) {
            Some(operation) => operation,
            None => {
                return Err(BindError::NotABinaryOperator { kind: operator_token.kind });
            },
        };
        let resolved_type: DumbBrainType = match Self::resolve_binary_type(
            &left,
            operation,
            &right,
        ) {
            Ok(kind) => kind,
            Err(error) => {
                return Err(error);
            },
        };
        Ok(
            BoundExpression {
                node: BoundExpressionNode::Binary {
                    left: Box::new(left),
                    right: Box::new(right),
                    operation,
                },
                kind: resolved_type,
            },
        )
    }

    fn bind_unary_expression(operator_token: &Token, operand: &ExpressionSyntax) -> (outcome:
        Result<BoundExpression, BindError>)
        ensures
            outcome == match bound(operand@) {
                Err(error) => Err(error),
                Ok(operand) => bound_unary(operator_token@.kind, operand),
            },
        decreases operand@.size() + 1, 0nat,
    {
        let operand: BoundExpression = match Self::bind_expression(operand) {
            Ok(operand) => operand,
            Err(error) => {
                return Err(error);
            },
        };
        let operation: UnaryOperation = match operator_token.kind {
            SyntaxKind::PlusToken => UnaryOperation::Identity,
            SyntaxKind::MinusToken => UnaryOperation::Negation,
            _ => {
                return Err(BindError::NotAUnaryOperator { kind: operator_token.kind });
            },
        };
        let resolved_type: DumbBrainType = match Self::resolve_unary_type(operation, &operand) {
            Ok(kind) => kind,
            Err(error) => {
                return Err(error);
            },
        };
        Ok(
            BoundExpression {
                node: BoundExpressionNode::Unary { operand: Box::new(operand), operation },
                kind: resolved_type,
            },
        )
    }
}

} // verus!
