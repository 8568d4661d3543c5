use vstd::prelude::*;

use crate::binary64::{less, less_or_equal, magnitude, negation, Binary64, TOLERANCE_BITS};
use crate::bound_tree::{
    is_arithmetic, well_typed, BinaryOperation, BoundExpression, BoundExpressionNode,
    UnaryOperation,
};
use crate::object::{type_of, DumbBrainObject, DumbBrainType};

verus! {

/// Why an expression has no value. Each of these ends the evaluation at
/// once.
#[derive(Debug, Clone, Copy, PartialEq, Eq, Structural)]
#[allow(inconsistent_fields)]
pub enum EvaluationError {
    /// A negation stands in an expression whose static type is no number.
    UnexpectedNegationType { kind: DumbBrainType },
    /// An operation of arithmetic stands in an expression whose static
    /// type is no number.
    UnexpectedArithmeticType { operation: BinaryOperation, kind: DumbBrainType },
    /// An operand of an operation has no value.
    MissingOperand,
    /// The operand of a negation is no number.
    MismatchedOperand { operation: UnaryOperation, operand: DumbBrainObject },
    /// An operation does not take operands of these two types.
    MismatchedOperands {
        operation: BinaryOperation,
        left: DumbBrainObject,
        right: DumbBrainObject,
    },
}

/// What an evaluation gives: a value, none for a literal that carries
/// none, or the error that ended it.
pub type Outcome = Result<Option<DumbBrainObject>, EvaluationError>;

/// The tolerance with which two numbers are held equal.
pub open spec fn tolerance() -> Binary64 {
    Binary64 { bits: TOLERANCE_BITS }
}

/// Whether a difference counts as none: its magnitude is below the
/// tolerance.
pub open spec fn within_tolerance(difference: Binary64) -> bool {
    less(Binary64 { bits: magnitude(difference) }, tolerance())
}

/// Whether a difference counts as one: its magnitude is above the
/// tolerance. A difference of just the tolerance is neither within nor
/// beyond it.
pub open spec fn beyond_tolerance(difference: Binary64) -> bool {
    less(tolerance(), Binary64 { bits: magnitude(difference) })
}

/// What a prefix operation gives for the value of its operand, in an
/// expression of static type `kind`.
pub open spec fn unary_outcome(
    operation: UnaryOperation,
    kind: DumbBrainType,
    operand: Option<DumbBrainObject>,
) -> Outcome {
    match operation {
        UnaryOperation::Identity => Ok(operand),
        UnaryOperation::Negation => if kind != DumbBrainType::Number {
            Err(EvaluationError::UnexpectedNegationType { kind })
        } else {
            match operand {
                None => Err(EvaluationError::MissingOperand),
                Some(DumbBrainObject::Number(number)) => Ok(
                    Some(DumbBrainObject::Number(negation(number))),
                ),
                Some(operand) => Err(EvaluationError::MismatchedOperand { operation, operand }),
            }
        },
    }
}

/// What a logical operation gives for two values.
pub open spec fn boolean_outcome(
    operation: BinaryOperation,
    left: DumbBrainObject,
    right: DumbBrainObject,
) -> Outcome {
    match (left, right) {
        (DumbBrainObject::Boolean(a), DumbBrainObject::Boolean(b)) => match operation {
            BinaryOperation::LogicalAnd => Ok(Some(DumbBrainObject::Boolean(a && b))),
            BinaryOperation::LogicalOr => Ok(Some(DumbBrainObject::Boolean(a || b))),
            _ => Err(EvaluationError::MismatchedOperands { operation, left, right }),
        },
        _ => Err(EvaluationError::MismatchedOperands { operation, left, right }),
    }
}

/// Whether `outcome` is what a comparison gives for two values. Two
/// numbers are ordered as IEEE-754 orders them, and are equal or unequal
/// by the tolerance on their difference, which `arithmetic` computes. Two
/// booleans can be equal or unequal, and have no order. A number and a
/// boolean cannot be compared.
pub open spec fn comparison_outcome<F: Fn(BinaryOperation, Binary64, Binary64) -> Binary64>(
    arithmetic: F,
    operation: BinaryOperation,
    left: DumbBrainObject,
    right: DumbBrainObject,
    outcome: Outcome,
) -> bool {
    match (left, right) {
        (DumbBrainObject::Number(n), DumbBrainObject::Number(m)) => match operation {
            BinaryOperation::Equality => exists|difference: Binary64|
                #[trigger] call_ensures(arithmetic, (BinaryOperation::Subtract, n, m), difference)
                    && outcome == Ok::<Option<DumbBrainObject>, EvaluationError>(
                    Some(DumbBrainObject::Boolean(within_tolerance(difference))),
                ),
            BinaryOperation::Inequality => exists|difference: Binary64|
                #[trigger] call_ensures(arithmetic, (BinaryOperation::Subtract, n, m), difference)
                    && outcome == Ok::<Option<DumbBrainObject>, EvaluationError>(
                    Some(DumbBrainObject::Boolean(beyond_tolerance(difference))),
                ),
            BinaryOperation::Less => outcome == Ok::<Option<DumbBrainObject>, EvaluationError>(
                Some(DumbBrainObject::Boolean(less(n, m))),
            ),
            BinaryOperation::LessEquals => outcome == Ok::<
                Option<DumbBrainObject>,
                EvaluationError,
            >(Some(DumbBrainObject::Boolean(less_or_equal(n, m)))),
            BinaryOperation::Greater => outcome == Ok::<Option<DumbBrainObject>, EvaluationError>(
                Some(DumbBrainObject::Boolean(less(m, n))),
            ),
            BinaryOperation::GreaterEquals => outcome == Ok::<
                Option<DumbBrainObject>,
                EvaluationError,
            >(Some(DumbBrainObject::Boolean(less_or_equal(m, n)))),
            _ => outcome == Err::<Option<DumbBrainObject>, EvaluationError>(
                EvaluationError::MismatchedOperands { operation, left, right },
            ),
        },
        (DumbBrainObject::Boolean(b), DumbBrainObject::Boolean(c)) => match operation {
            BinaryOperation::Equality => outcome == Ok::<Option<DumbBrainObject>, EvaluationError>(
                Some(DumbBrainObject::Boolean(b == c)),
            ),
            BinaryOperation::Inequality => outcome == Ok::<
                Option<DumbBrainObject>,
                EvaluationError,
            >(Some(DumbBrainObject::Boolean(b != c))),
            _ => outcome == Err::<Option<DumbBrainObject>, EvaluationError>(
                EvaluationError::MismatchedOperands { operation, left, right },
            ),
        },
        _ => outcome == Err::<Option<DumbBrainObject>, EvaluationError>(
            EvaluationError::MismatchedOperands { operation, left, right },
        ),
    }
}

/// Whether `outcome` is what an operation of arithmetic gives for two
/// values: on two numbers, a number that `arithmetic` returns for them.
pub open spec fn arithmetic_outcome<F: Fn(BinaryOperation, Binary64, Binary64) -> Binary64>(
    arithmetic: F,
    operation: BinaryOperation,
    left: DumbBrainObject,
    right: DumbBrainObject,
    outcome: Outcome,
) -> bool {
    match (left, right) {
        (DumbBrainObject::Number(n), DumbBrainObject::Number(m)) => exists|result: Binary64|
            #[trigger] call_ensures(arithmetic, (operation, n, m), result) && outcome == Ok::<
                Option<DumbBrainObject>,
                EvaluationError,
            >(Some(DumbBrainObject::Number(result))),
        _ => outcome == Err::<Option<DumbBrainObject>, EvaluationError>(
            EvaluationError::MismatchedOperands { operation, left, right },
        ),
    }
}

/// Whether `outcome` is what a binary operation gives for the values of
/// its operands, in an expression of static type `kind`. Arithmetic in an
/// expression that is no number fails before the operands are looked at;
/// then an operand without a value fails; then the operation decides.
pub open spec fn binary_outcome<F: Fn(BinaryOperation, Binary64, Binary64) -> Binary64>(
    arithmetic: F,
    operation: BinaryOperation,
    kind: DumbBrainType,
    left: Option<DumbBrainObject>,
    right: Option<DumbBrainObject>,
    outcome: Outcome,
) -> bool {
    if is_arithmetic(operation) && kind != DumbBrainType::Number {
        outcome == Err::<Option<DumbBrainObject>, EvaluationError>(
            EvaluationError::UnexpectedArithmeticType { operation, kind },
        )
    } else {
        match (left, right) {
            (Some(left), Some(right)) => if is_arithmetic(operation) {
                arithmetic_outcome(arithmetic, operation, left, right, outcome)
            } else if operation is LogicalAnd || operation is LogicalOr {
                outcome == boolean_outcome(operation, left, right)
            } else {
                comparison_outcome(arithmetic, operation, left, right, outcome)
            },
            _ => outcome == Err::<Option<DumbBrainObject>, EvaluationError>(
                EvaluationError::MissingOperand,
            ),
        }
    }
}

/// True of every outcome. The contracts below say that an operand has
/// some outcome; a proof names the one it means by this predicate.
pub open spec fn any_outcome(outcome: Outcome) -> bool {
    true
}

/// Whether `outcome` is what the evaluation of an expression gives where
/// `arithmetic` does the arithmetic on numbers.
///
/// A literal gives its value. An operation gives the error of its first
/// operand that has one, the left before the right; both operands are
/// evaluated before a logical operation combines them.
pub open spec fn evaluates<F: Fn(BinaryOperation, Binary64, Binary64) -> Binary64>(
    expression: BoundExpression,
    arithmetic: F,
    outcome: Outcome,
) -> bool
    decreases expression.size(), 1nat,
{
    match expression.node {
        BoundExpressionNode::Literal { value } => outcome == Ok::<
            Option<DumbBrainObject>,
            EvaluationError,
        >(value),
        BoundExpressionNode::Unary { operand, operation } => unary_evaluates(
            *operand,
            operation,
            expression.kind,
            arithmetic,
            outcome,
        ),
        BoundExpressionNode::Binary { left, right, operation } => binary_evaluates(
            *left,
            *right,
            operation,
            expression.kind,
            arithmetic,
            outcome,
        ),
    }
}

/// Whether `outcome` is what a prefix operation on `operand` gives, in an
/// expression of static type `kind`.
pub open spec fn unary_evaluates<F: Fn(BinaryOperation, Binary64, Binary64) -> Binary64>(
    operand: BoundExpression,
    operation: UnaryOperation,
    kind: DumbBrainType,
    arithmetic: F,
    outcome: Outcome,
) -> bool
    decreases operand.size() + 1, 0nat,
{
    exists|inner: Outcome| #[trigger]
        any_outcome(inner) && evaluates(operand, arithmetic, inner) && outcome == match inner {
            Err(error) => Err(error),
            Ok(value) => unary_outcome(operation, kind, value),
        }
}

/// Whether `outcome` is what a binary operation on `left` and `right`
/// gives, in an expression of static type `kind`.
pub open spec fn binary_evaluates<F: Fn(BinaryOperation, Binary64, Binary64) -> Binary64>(
    left: BoundExpression,
    right: BoundExpression,
    operation: BinaryOperation,
    kind: DumbBrainType,
    arithmetic: F,
    outcome: Outcome,
) -> bool
    decreases left.size() + right.size() + 1, 0nat,
{
    exists|first: Outcome| #[trigger]
        any_outcome(first) && evaluates(left, arithmetic, first) && match first {
            Err(error) => outcome == Err::<Option<DumbBrainObject>, EvaluationError>(error),
            Ok(left_value) => exists|second: Outcome| #[trigger]
                any_outcome(second) && evaluates(right, arithmetic, second) && match second {
                    Err(error) => outcome == Err::<Option<DumbBrainObject>, EvaluationError>(error),
                    Ok(right_value) => binary_outcome(
                        arithmetic,
                        operation,
                        kind,
                        left_value,
                        right_value,
                        outcome,
                    ),
                },
        }
}

/// Whether `arithmetic` can be called on every pair of numbers with each
/// operation of arithmetic.
pub open spec fn total<F: Fn(BinaryOperation, Binary64, Binary64) -> Binary64>(
    arithmetic: F,
) -> bool {
    forall|operation: BinaryOperation, left: Binary64, right: Binary64|
        is_arithmetic(operation) ==> #[trigger] call_requires(
            arithmetic,
            (operation, left, right),
        )
}

/// Whether `arithmetic` is the function `oracle`: it returns nothing but
/// what `oracle` gives.
pub open spec fn answers_as<F: Fn(BinaryOperation, Binary64, Binary64) -> Binary64>(
    arithmetic: F,
    oracle: spec_fn(BinaryOperation, Binary64, Binary64) -> Binary64,
) -> bool {
    forall|operation: BinaryOperation, left: Binary64, right: Binary64, result: Binary64|
        #[trigger] call_ensures(arithmetic, (operation, left, right), result) ==> result == oracle(
            operation,
            left,
            right,
        )
}

/// What a binary operation gives for two values where the arithmetic is
/// the function `oracle`.
pub open spec fn operation_under(
    oracle: spec_fn(BinaryOperation, Binary64, Binary64) -> Binary64,
    operation: BinaryOperation,
    left: DumbBrainObject,
    right: DumbBrainObject,
) -> Outcome {
    let mismatch = Err::<Option<DumbBrainObject>, EvaluationError>(
        EvaluationError::MismatchedOperands { operation, left, right },
    );
    match (left, right) {
        (DumbBrainObject::Number(n), DumbBrainObject::Number(m)) => match operation {
            BinaryOperation::Add
            | BinaryOperation::Subtract
            | BinaryOperation::Multiply
            | BinaryOperation::Divide => Ok(Some(DumbBrainObject::Number(oracle(operation, n, m)))),
            BinaryOperation::Equality => Ok(
                Some(
                    DumbBrainObject::Boolean(
                        within_tolerance(oracle(BinaryOperation::Subtract, n, m)),
                    ),
                ),
            ),
            BinaryOperation::Inequality => Ok(
                Some(
                    DumbBrainObject::Boolean(
                        beyond_tolerance(oracle(BinaryOperation::Subtract, n, m)),
                    ),
                ),
            ),
            BinaryOperation::Less => Ok(Some(DumbBrainObject::Boolean(less(n, m)))),
            BinaryOperation::LessEquals => Ok(Some(DumbBrainObject::Boolean(less_or_equal(n, m)))),
            BinaryOperation::Greater => Ok(Some(DumbBrainObject::Boolean(less(m, n)))),
            BinaryOperation::GreaterEquals => Ok(
                Some(DumbBrainObject::Boolean(less_or_equal(m, n))),
            ),
            _ => mismatch,
        },
        (DumbBrainObject::Boolean(b), DumbBrainObject::Boolean(c)) => match operation {
            BinaryOperation::Equality => Ok(Some(DumbBrainObject::Boolean(b == c))),
            BinaryOperation::Inequality => Ok(Some(DumbBrainObject::Boolean(b != c))),
            BinaryOperation::LogicalAnd => Ok(Some(DumbBrainObject::Boolean(b && c))),
            BinaryOperation::LogicalOr => Ok(Some(DumbBrainObject::Boolean(b || c))),
            _ => mismatch,
        },
        _ => mismatch,
    }
}

/// The outcome of an evaluation where the arithmetic is the function
/// `oracle`.
pub open spec fn value_under(
    expression: BoundExpression,
    oracle: spec_fn(BinaryOperation, Binary64, Binary64) -> Binary64,
) -> Outcome
    decreases expression,
{
    match expression.node {
        BoundExpressionNode::Literal { value } => Ok(value),
        BoundExpressionNode::Unary { operand, operation } => match value_under(*operand, oracle) {
            Err(error) => Err(error),
            Ok(value) => unary_outcome(operation, expression.kind, value),
        },
        BoundExpressionNode::Binary { left, right, operation } => match value_under(
            *left,
            oracle,
        ) {
            Err(error) => Err(error),
            Ok(left) => match value_under(*right, oracle) {
                Err(error) => Err(error),
                Ok(right) => if is_arithmetic(operation) && expression.kind
                    != DumbBrainType::Number {
                    Err(
                        EvaluationError::UnexpectedArithmeticType {
                            operation,
                            kind: expression.kind,
                        },
                    )
                } else {
                    match (left, right) {
                        (Some(left), Some(right)) => operation_under(
                            oracle,
                            operation,
                            left,
                            right,
                        ),
                        _ => Err(EvaluationError::MissingOperand),
                    }
                },
            },
        },
    }
}

/// Where the arithmetic is a function, so is the evaluation: an expression
/// has one outcome, that which the equations of `value_under` give.
pub proof fn lemma_evaluation_is_determined<F: Fn(BinaryOperation, Binary64, Binary64) -> Binary64>(
    expression: BoundExpression,
    arithmetic: F,
    oracle: spec_fn(BinaryOperation, Binary64, Binary64) -> Binary64,
    outcome: Outcome,
)
    requires
        answers_as(arithmetic, oracle),
        evaluates(expression, arithmetic, outcome),
    ensures
        outcome == value_under(expression, oracle),
    decreases expression,
{
    match expression.node {
        BoundExpressionNode::Literal { value } => {},
        BoundExpressionNode::Unary { operand, operation } => {
            let inner = choose|inner: Outcome| #[trigger]
                any_outcome(inner) && evaluates(*operand, arithmetic, inner) && outcome
                    == match inner {
                    Err(error) => Err(error),
                    Ok(value) => unary_outcome(operation, expression.kind, value),
                };
            lemma_evaluation_is_determined(*operand, arithmetic, oracle, inner);
        },
        BoundExpressionNode::Binary { left, right, operation } => {
            let first = choose|first: Outcome| #[trigger]
                any_outcome(first) && evaluates(*left, arithmetic, first) && match first {
                    Err(error) => outcome == Err::<Option<DumbBrainObject>, EvaluationError>(error),
                    Ok(left_value) => exists|second: Outcome| #[trigger]
                        any_outcome(second) && evaluates(*right, arithmetic, second)
                            && match second {
                            Err(error) => outcome == Err::<
                                Option<DumbBrainObject>,
                                EvaluationError,
                            >(error),
                            Ok(right_value) => binary_outcome(
                                arithmetic,
                                operation,
                                expression.kind,
                                left_value,
                                right_value,
                                outcome,
                            ),
                        },
                };
            lemma_evaluation_is_determined(*left, arithmetic, oracle, first);
            if let Ok(left_value) = first {
                let second = choose|second: Outcome| #[trigger]
                    any_outcome(second) && evaluates(*right, arithmetic, second) && match second {
                        Err(error) => outcome == Err::<Option<DumbBrainObject>, EvaluationError>(
                            error,
                        ),
                        Ok(right_value) => binary_outcome(
                            arithmetic,
                            operation,
                            expression.kind,
                            left_value,
                            right_value,
                            outcome,
                        ),
                    };
                lemma_evaluation_is_determined(*right, arithmetic, oracle, second);
            }
        },
    }
}

/// The value of a well typed expression is of the expression's static
/// type, whatever the arithmetic returns.
pub proof fn lemma_value_has_static_type<F: Fn(BinaryOperation, Binary64, Binary64) -> Binary64>(
    expression: BoundExpression,
    arithmetic: F,
    value: DumbBrainObject,
)
    requires
        well_typed(expression),
        evaluates(expression, arithmetic, Ok(Some(value))),
    ensures
        type_of(value) == expression.kind,
    decreases expression,
{
    let outcome: Outcome = Ok(Some(value));
    match expression.node {
        BoundExpressionNode::Literal { value } => {},
        BoundExpressionNode::Unary { operand, operation } => {
            let inner = choose|inner: Outcome| #[trigger]
                any_outcome(inner) && evaluates(*operand, arithmetic, inner) && outcome
                    == match inner {
                    Err(error) => Err(error),
                    Ok(value) => unary_outcome(operation, expression.kind, value),
                };
            if operation is Identity {
                lemma_value_has_static_type(*operand, arithmetic, value);
            }
        },
        BoundExpressionNode::Binary { left, right, operation } => {},
    }
}

/// In a well typed expression no operation of arithmetic and no negation
/// meets a boolean: such an operation fails only for want of a value, or
/// with the failure of an operand.
pub proof fn lemma_arithmetic_meets_numbers<F: Fn(BinaryOperation, Binary64, Binary64) -> Binary64>(
    expression: BoundExpression,
    arithmetic: F,
    outcome: Outcome,
)
    requires
        well_typed(expression),
        evaluates(expression, arithmetic, outcome),
    ensures
        match expression.node {
            BoundExpressionNode::Literal { .. } => outcome is Ok,
            BoundExpressionNode::Unary { operand, .. } => outcome is Ok || outcome == Err::<
                Option<DumbBrainObject>,
                EvaluationError,
            >(EvaluationError::MissingOperand) || evaluates(*operand, arithmetic, outcome),
            BoundExpressionNode::Binary { left, right, operation } => is_arithmetic(operation)
                ==> outcome is Ok || outcome == Err::<Option<DumbBrainObject>, EvaluationError>(
                EvaluationError::MissingOperand,
            ) || evaluates(*left, arithmetic, outcome) || evaluates(*right, arithmetic, outcome),
        },
{
    match expression.node {
        BoundExpressionNode::Literal { value } => {},
        BoundExpressionNode::Unary { operand, operation } => {
            let inner = choose|inner: Outcome| #[trigger]
                any_outcome(inner) && evaluates(*operand, arithmetic, inner) && outcome
                    == match inner {
                    Err(error) => Err(error),
                    Ok(value) => unary_outcome(operation, expression.kind, value),
                };
            if let Ok(Some(value)) = inner {
                lemma_value_has_static_type(*operand, arithmetic, value);
            }
        },
        BoundExpressionNode::Binary { left, right, operation } => {
            if is_arithmetic(operation) {
                let first = choose|first: Outcome| #[trigger]
                    any_outcome(first) && evaluates(*left, arithmetic, first) && match first {
                        Err(error) => outcome == Err::<Option<DumbBrainObject>, EvaluationError>(
                            error,
                        ),
                        Ok(left_value) => exists|second: Outcome| #[trigger]
                            any_outcome(second) && evaluates(*right, arithmetic, second)
                                && match second {
                                Err(error) => outcome == Err::<
                                    Option<DumbBrainObject>,
                                    EvaluationError,
                                >(error),
                                Ok(right_value) => binary_outcome(
                                    arithmetic,
                                    operation,
                                    expression.kind,
                                    left_value,
                                    right_value,
                                    outcome,
                                ),
                            },
                    };
                if let Ok(left_value) = first {
                    let second = choose|second: Outcome| #[trigger]
                        any_outcome(second) && evaluates(*right, arithmetic, second)
                            && match second {
                            Err(error) => outcome == Err::<
                                Option<DumbBrainObject>,
                                EvaluationError,
                            >(error),
                            Ok(right_value) => binary_outcome(
                                arithmetic,
                                operation,
                                expression.kind,
                                left_value,
                                right_value,
                                outcome,
                            ),
                        };
                    if let Some(value) = left_value {
                        lemma_value_has_static_type(*left, arithmetic, value);
                    }
                    if let Ok(Some(value)) = second {
                        lemma_value_has_static_type(*right, arithmetic, value);
                    }
                }
            }
        },
    }
}

/// Computes the value of a typed expression.
pub struct Evaluator {
    bound_tree: BoundExpression,
}

impl Evaluator {
    /// The expression that is evaluated.
    pub closed spec fn tree(&self) -> BoundExpression {
        self.bound_tree
    }

    /// An evaluator of one expression.
    pub fn new(bound_tree: BoundExpression) -> (evaluator: Self)
        ensures
            evaluator.tree() == bound_tree,
    {
        Self { bound_tree }
    }

    /// Evaluates the expression. `arithmetic` is called for each operation
    /// of arithmetic on two numbers, and with `Subtract` where two numbers
    /// are held equal or unequal.
    pub fn evaluate<F: Fn(BinaryOperation, Binary64, Binary64) -> Binary64>(
        &self,
        arithmetic: F,
    ) -> (outcome: Outcome)
        requires
            total(arithmetic),
        ensures
            evaluates(self.tree(), arithmetic, outcome),
    {
        self.evaluate_expression(&self.bound_tree, &arithmetic)
    }

    fn evaluate_expression<F: Fn(BinaryOperation, Binary64, Binary64) -> Binary64>(
        &self,
        expression: &BoundExpression,
        arithmetic: &F,
    ) -> (outcome: Outcome)
        requires
            total(*arithmetic),
        ensures
            evaluates(*expression, *arithmetic, outcome),
        decreases expression.size(), 1nat,
    {
        match &expression.node {
            BoundExpressionNode::Literal { value } => Ok(*value),
            BoundExpressionNode::Binary { left, right, operation } => {
                self.evaluate_binary_expression(left, right, operation, expression, arithmetic)
            },
            BoundExpressionNode::Unary { operand, operation } => {
                self.evaluate_unary_expression(operand, operation, expression, arithmetic)
            },
        }
    }

    fn evaluate_unary_expression<F: Fn(BinaryOperation, Binary64, Binary64) -> Binary64>(
        &self,
        operand: &BoundExpression,
        operation: &UnaryOperation,
        expression: &BoundExpression,
        arithmetic: &F,
    ) -> (outcome: Outcome)
        requires
            total(*arithmetic),
        ensures
            unary_evaluates(*operand, *operation, expression.kind, *arithmetic, outcome),
        decreases operand.size() + 1, 0nat,
    {
        let inner: Outcome = self.evaluate_expression(operand, arithmetic);
        assert(any_outcome(inner));
        let value: Option<DumbBrainObject> = match inner {
            Ok(value) => value,
            Err(error) => {
                return Err(error);
            },
        };
        match operation {
            UnaryOperation::Identity => Ok(value),
            UnaryOperation::Negation => match expression.kind {
                DumbBrainType::Number => match value {
                    None => Err(EvaluationError::MissingOperand),
                    Some(DumbBrainObject::Number(number)) => Ok(
                        Some(DumbBrainObject::Number(number.negated())),
                    ),
                    Some(operand) => Err(
                        EvaluationError::MismatchedOperand { operation: *operation, operand },
                    ),
                },
                _ => Err(EvaluationError::UnexpectedNegationType { kind: expression.kind }),
            },
        }
    }

    fn evaluate_binary_expression<F: Fn(BinaryOperation, Binary64, Binary64) -> Binary64>(
        &self,
        left: &BoundExpression,
        right: &BoundExpression,
        operation: &BinaryOperation,
        expression: &BoundExpression,
        arithmetic: &F,
    ) -> (outcome: Outcome)
        requires
            total(*arithmetic),
        ensures
            binary_evaluates(
                *left,
                *right,
                *operation,
                expression.kind,
                *arithmetic,
                outcome,
            ),
        decreases left.size() + right.size() + 1, 0nat,
    {
        let first: Outcome = self.evaluate_expression(left, arithmetic);
        assert(any_outcome(first));
        let left_value: Option<DumbBrainObject> = match first {
            Ok(value) => value,
            Err(error) => {
                return Err(error);
            },
        };
        let second: Outcome = self.evaluate_expression(right, arithmetic);
        assert(any_outcome(second));
        let right_value: Option<DumbBrainObject> = match second {
            Ok(value) => value,
            Err(error) => {
                return Err(error);
            },
        };
        match operation {
            BinaryOperation::Add
            | BinaryOperation::Subtract
            | BinaryOperation::Multiply
            | BinaryOperation::Divide => match expression.kind {
                DumbBrainType::Number => match (left_value, right_value) {
                    (Some(left), Some(right)) => evaluate_arithmetic(
                        left,
                        right,
                        *operation,
                        arithmetic,
                    ),
                    _ => Err(EvaluationError::MissingOperand),
                },
                _ => Err(
                    EvaluationError::UnexpectedArithmeticType {
                        operation: *operation,
                        kind: expression.kind,
                    },
                ),
            },
            BinaryOperation::Equality
            | BinaryOperation::Inequality
            | BinaryOperation::Less
            | BinaryOperation::LessEquals
            | BinaryOperation::Greater
            | BinaryOperation::GreaterEquals => match (left_value, right_value) {
                (Some(left), Some(right)) => evaluate_comparison(
                    left,
                    right,
                    *operation,
                    arithmetic,
                ),
                _ => Err(EvaluationError::MissingOperand),
            },
            BinaryOperation::LogicalAnd | BinaryOperation::LogicalOr => match (
                left_value,
                right_value,
            ) {
                (Some(left), Some(right)) => evaluate_boolean_operation(left, right, *operation),
                _ => Err(EvaluationError::MissingOperand),
            },
        }
    }
}

/// One of the four operations of arithmetic on two values.
pub fn evaluate_arithmetic<F: Fn(BinaryOperation, Binary64, Binary64) -> Binary64>(
    left: DumbBrainObject,
    right: DumbBrainObject,
    operation: BinaryOperation,
    arithmetic: &F,
) -> (outcome: Outcome)
    requires
        total(*arithmetic),
        is_arithmetic(operation),
    ensures
        arithmetic_outcome(*arithmetic, operation, left, right, outcome),
{
    match (left, right) {
        (DumbBrainObject::Number(n), DumbBrainObject::Number(m)) => {
            let result: Binary64 = arithmetic(operation, n, m);
            Ok(Some(DumbBrainObject::Number(result)))
        },
        _ => Err(EvaluationError::MismatchedOperands { operation, left, right }),
    }
}

/// A logical operation on two values: both have to be booleans.
pub fn evaluate_boolean_operation(
    left: DumbBrainObject,
    right: DumbBrainObject,
    operation: BinaryOperation,
) -> (outcome: Outcome)
    ensures
        outcome == boolean_outcome(operation, left, right),
{
    match (left, right) {
        (DumbBrainObject::Boolean(b), DumbBrainObject::Boolean(c)) => match operation {
            BinaryOperation::LogicalAnd => Ok(Some(DumbBrainObject::Boolean(b && c))),
            BinaryOperation::LogicalOr => Ok(Some(DumbBrainObject::Boolean(b || c))),
            _ => Err(EvaluationError::MismatchedOperands { operation, left, right }),
        },
        _ => Err(EvaluationError::MismatchedOperands { operation, left, right }),
    }
}

/// A comparison of two values.
pub fn evaluate_comparison<F: Fn(BinaryOperation, Binary64, Binary64) -> Binary64>(
    left: DumbBrainObject,
    right: DumbBrainObject,
    operation: BinaryOperation,
    arithmetic: &F,
) -> (outcome: Outcome)
    requires
        total(*arithmetic),
    ensures
        comparison_outcome(*arithmetic, operation, left, right, outcome),
{
    let delta: Binary64 = Binary64 { bits: TOLERANCE_BITS };
    match (left, right) {
        (DumbBrainObject::Number(n), DumbBrainObject::Number(m)) => {
            let value: bool = match operation {
                BinaryOperation::Equality => {
                    let difference: Binary64 = arithmetic(BinaryOperation::Subtract, n, m);
                    difference.absolute().less_than(delta)
                },
                BinaryOperation::Inequality => {
                    let difference: Binary64 = arithmetic(BinaryOperation::Subtract, n, m);
                    difference.absolute().greater_than(delta)
                },
                BinaryOperation::Less => n.less_than(m),
                BinaryOperation::LessEquals => n.less_or_equal(m),
                BinaryOperation::Greater => n.greater_than(m),
                BinaryOperation::GreaterEquals => n.greater_or_equal(m),
                _ => {
                    return Err(EvaluationError::MismatchedOperands { operation, left, right });
                },
            };
            Ok(Some(DumbBrainObject::Boolean(value)))
        },
        (DumbBrainObject::Boolean(b), DumbBrainObject::Boolean(c)) => match operation {
            BinaryOperation::Equality => Ok(Some(DumbBrainObject::Boolean(b == c))),
            BinaryOperation::Inequality => Ok(Some(DumbBrainObject::Boolean(b != c))),
            _ => Err(EvaluationError::MismatchedOperands { operation, left, right }),
        },
        _ => Err(EvaluationError::MismatchedOperands { operation, left, right }),
    }
}

} // verus!
