use dumbbrain::binary64::{Binary64, TOLERANCE_BITS};
use dumbbrain::bound_tree::{BinaryOperation, BoundExpression, BoundExpressionNode, UnaryOperation};
use dumbbrain::evaluator::{
    evaluate_arithmetic, evaluate_boolean_operation, evaluate_comparison, EvaluationError,
    Evaluator,
};
use dumbbrain::object::{DumbBrainObject, DumbBrainType};
use dumbbrain::syntax::SyntaxKind;

fn ieee(operation: BinaryOperation, left: Binary64, right: Binary64) -> Binary64 {
    let a = f64::from_bits(left.to_bits());
    let b = f64::from_bits(right.to_bits());
    let result = match operation {
        BinaryOperation::Add => a + b,
        BinaryOperation::Subtract => a - b,
        BinaryOperation::Multiply => a * b,
        BinaryOperation::Divide => a / b,
        _ => unreachable!(),
    };
    Binary64::from_bits(result.to_bits())
}

fn number(value: f64) -> DumbBrainObject {
    DumbBrainObject::Number(Binary64::from_bits(value.to_bits()))
}

fn literal(value: Option<DumbBrainObject>, kind: DumbBrainType) -> BoundExpression {
    BoundExpression { node: BoundExpressionNode::Literal { value }, kind }
}

fn num(value: f64) -> BoundExpression {
    literal(Some(number(value)), DumbBrainType::Number)
}

fn boolean(value: bool) -> BoundExpression {
    literal(Some(DumbBrainObject::Boolean(value)), DumbBrainType::Boolean)
}

fn binary(
    left: BoundExpression,
    operation: BinaryOperation,
    right: BoundExpression,
    kind: DumbBrainType,
) -> BoundExpression {
    BoundExpression {
        node: BoundExpressionNode::Binary { left: Box::new(left), right: Box::new(right), operation },
        kind,
    }
}

fn unary(operation: UnaryOperation, operand: BoundExpression, kind: DumbBrainType) -> BoundExpression {
    BoundExpression { node: BoundExpressionNode::Unary { operand: Box::new(operand), operation }, kind }
}

fn run(tree: BoundExpression) -> Result<Option<DumbBrainObject>, EvaluationError> {
    Evaluator::new(tree).evaluate(ieee)
}

#[test]
fn a_literal_gives_its_value() {
    assert_eq!(run(num(2.5)), Ok(Some(number(2.5))));
    assert_eq!(run(boolean(true)), Ok(Some(DumbBrainObject::Boolean(true))));
    assert_eq!(run(literal(None, DumbBrainType::Number)), Ok(None));
}

#[test]
fn the_four_operations_of_arithmetic() {
    let cases = [
        (BinaryOperation::Add, 7.5),
        (BinaryOperation::Subtract, 4.5),
        (BinaryOperation::Multiply, 9.0),
        (BinaryOperation::Divide, 4.0),
    ];
    for (operation, expected) in cases {
        assert_eq!(
            run(binary(num(6.0), operation, num(1.5), DumbBrainType::Number)),
            Ok(Some(number(expected)))
        );
    }
}

#[test]
fn negation_changes_the_sign() {
    assert_eq!(
        run(unary(UnaryOperation::Negation, num(3.0), DumbBrainType::Number)),
        Ok(Some(number(-3.0)))
    );
    assert_eq!(
        run(unary(UnaryOperation::Negation, num(0.0), DumbBrainType::Number)),
        Ok(Some(number(-0.0)))
    );
    assert_eq!(
        run(unary(UnaryOperation::Identity, num(3.0), DumbBrainType::Number)),
        Ok(Some(number(3.0)))
    );
}

#[test]
fn identity_hands_on_what_it_gets() {
    assert_eq!(
        run(unary(UnaryOperation::Identity, boolean(true), DumbBrainType::Boolean)),
        Ok(Some(DumbBrainObject::Boolean(true)))
    );
    assert_eq!(
        run(unary(
            UnaryOperation::Identity,
            literal(None, DumbBrainType::Number),
            DumbBrainType::Number
        )),
        Ok(None)
    );
}

#[test]
fn logical_operations_combine_two_booleans() {
    for left in [false, true] {
        for right in [false, true] {
            assert_eq!(
                run(binary(
                    boolean(left),
                    BinaryOperation::LogicalAnd,
                    boolean(right),
                    DumbBrainType::Boolean
                )),
                Ok(Some(DumbBrainObject::Boolean(left && right)))
            );
            assert_eq!(
                run(binary(
                    boolean(left),
                    BinaryOperation::LogicalOr,
                    boolean(right),
                    DumbBrainType::Boolean
                )),
                Ok(Some(DumbBrainObject::Boolean(left || right)))
            );
        }
    }
}

#[test]
fn logical_operations_evaluate_both_operands() {
    let failing = binary(num(1.0), BinaryOperation::Less, boolean(true), DumbBrainType::Boolean);
    let expected = Err(EvaluationError::MismatchedOperands {
        operation: BinaryOperation::Less,
        left: number(1.0),
        right: DumbBrainObject::Boolean(true),
    });
    assert_eq!(
        run(binary(boolean(true), BinaryOperation::LogicalOr, failing, DumbBrainType::Boolean)),
        expected
    );
    let failing = binary(num(1.0), BinaryOperation::Less, boolean(true), DumbBrainType::Boolean);
    assert_eq!(
        run(binary(boolean(false), BinaryOperation::LogicalAnd, failing, DumbBrainType::Boolean)),
        expected
    );
}

#[test]
fn logical_operations_take_no_numbers() {
    assert_eq!(
        run(binary(boolean(true), BinaryOperation::LogicalAnd, num(1.0), DumbBrainType::Boolean)),
        Err(EvaluationError::MismatchedOperands {
            operation: BinaryOperation::LogicalAnd,
            left: DumbBrainObject::Boolean(true),
            right: number(1.0),
        })
    );
    assert_eq!(
        evaluate_boolean_operation(number(1.0), number(2.0), BinaryOperation::LogicalOr),
        Err(EvaluationError::MismatchedOperands {
            operation: BinaryOperation::LogicalOr,
            left: number(1.0),
            right: number(2.0),
        })
    );
    assert_eq!(
        evaluate_boolean_operation(
            DumbBrainObject::Boolean(true),
            DumbBrainObject::Boolean(true),
            BinaryOperation::Add
        ),
        Err(EvaluationError::MismatchedOperands {
            operation: BinaryOperation::Add,
            left: DumbBrainObject::Boolean(true),
            right: DumbBrainObject::Boolean(true),
        })
    );
}

#[test]
fn the_left_operand_fails_first() {
    let left = binary(boolean(true), BinaryOperation::Less, boolean(true), DumbBrainType::Boolean);
    let right = binary(num(1.0), BinaryOperation::Greater, boolean(false), DumbBrainType::Boolean);
    assert_eq!(
        run(binary(left, BinaryOperation::Equality, right, DumbBrainType::Boolean)),
        Err(EvaluationError::MismatchedOperands {
            operation: BinaryOperation::Less,
            left: DumbBrainObject::Boolean(true),
            right: DumbBrainObject::Boolean(true),
        })
    );
}

#[test]
fn arithmetic_in_an_expression_that_is_no_number_fails() {
    assert_eq!(
        run(binary(num(1.0), BinaryOperation::Add, num(2.0), DumbBrainType::Boolean)),
        Err(EvaluationError::UnexpectedArithmeticType {
            operation: BinaryOperation::Add,
            kind: DumbBrainType::Boolean,
        })
    );
    assert_eq!(
        run(unary(UnaryOperation::Negation, num(1.0), DumbBrainType::Boolean)),
        Err(EvaluationError::UnexpectedNegationType { kind: DumbBrainType::Boolean })
    );
}

#[test]
fn an_operand_without_a_value_fails() {
    let nothing = || literal(None, DumbBrainType::Number);
    for operation in [
        BinaryOperation::Add,
        BinaryOperation::Equality,
        BinaryOperation::Less,
        BinaryOperation::LogicalAnd,
    ] {
        let kind = if operation == BinaryOperation::Add {
            DumbBrainType::Number
        } else {
            DumbBrainType::Boolean
        };
        assert_eq!(
            run(binary(nothing(), operation, num(1.0), kind)),
            Err(EvaluationError::MissingOperand)
        );
        assert_eq!(
            run(binary(num(1.0), operation, nothing(), kind)),
            Err(EvaluationError::MissingOperand)
        );
    }
    assert_eq!(
        run(unary(UnaryOperation::Negation, nothing(), DumbBrainType::Number)),
        Err(EvaluationError::MissingOperand)
    );
}

#[test]
fn operands_of_the_wrong_type_fail() {
    assert_eq!(
        run(unary(UnaryOperation::Negation, boolean(true), DumbBrainType::Number)),
        Err(EvaluationError::MismatchedOperand {
            operation: UnaryOperation::Negation,
            operand: DumbBrainObject::Boolean(true),
        })
    );
    assert_eq!(
        run(binary(num(1.0), BinaryOperation::Multiply, boolean(false), DumbBrainType::Number)),
        Err(EvaluationError::MismatchedOperands {
            operation: BinaryOperation::Multiply,
            left: number(1.0),
            right: DumbBrainObject::Boolean(false),
        })
    );
    assert_eq!(
        evaluate_arithmetic(
            DumbBrainObject::Boolean(true),
            number(1.0),
            BinaryOperation::Add,
            &ieee
        ),
        Err(EvaluationError::MismatchedOperands {
            operation: BinaryOperation::Add,
            left: DumbBrainObject::Boolean(true),
            right: number(1.0),
        })
    );
}

#[test]
fn booleans_are_equal_or_unequal_and_have_no_order() {
    let yes = DumbBrainObject::Boolean(true);
    let no = DumbBrainObject::Boolean(false);
    assert_eq!(
        evaluate_comparison(yes, yes, BinaryOperation::Equality, &ieee),
        Ok(Some(DumbBrainObject::Boolean(true)))
    );
    assert_eq!(
        evaluate_comparison(yes, no, BinaryOperation::Equality, &ieee),
        Ok(Some(DumbBrainObject::Boolean(false)))
    );
    assert_eq!(
        evaluate_comparison(yes, no, BinaryOperation::Inequality, &ieee),
        Ok(Some(DumbBrainObject::Boolean(true)))
    );
    for operation in [
        BinaryOperation::Less,
        BinaryOperation::LessEquals,
        BinaryOperation::Greater,
        BinaryOperation::GreaterEquals,
    ] {
        assert_eq!(
            evaluate_comparison(yes, no, operation, &ieee),
            Err(EvaluationError::MismatchedOperands { operation, left: yes, right: no })
        );
    }
}

#[test]
fn a_number_and_a_boolean_cannot_be_compared() {
    for operation in [BinaryOperation::Equality, BinaryOperation::Inequality, BinaryOperation::Less] {
        assert_eq!(
            evaluate_comparison(number(1.0), DumbBrainObject::Boolean(true), operation, &ieee),
            Err(EvaluationError::MismatchedOperands {
                operation,
                left: number(1.0),
                right: DumbBrainObject::Boolean(true),
            })
        );
        assert_eq!(
            evaluate_comparison(DumbBrainObject::Boolean(true), number(1.0), operation, &ieee),
            Err(EvaluationError::MismatchedOperands {
                operation,
                left: DumbBrainObject::Boolean(true),
                right: number(1.0),
            })
        );
    }
}

#[test]
fn a_comparison_is_none_of_the_other_operations() {
    assert_eq!(
        evaluate_comparison(number(1.0), number(2.0), BinaryOperation::Add, &ieee),
        Err(EvaluationError::MismatchedOperands {
            operation: BinaryOperation::Add,
            left: number(1.0),
            right: number(2.0),
        })
    );
}

#[test]
fn a_difference_of_just_the_tolerance_is_neither_equal_nor_unequal() {
    let exactly = |_: BinaryOperation, _: Binary64, _: Binary64| Binary64::from_bits(TOLERANCE_BITS);
    let negative = |_: BinaryOperation, _: Binary64, _: Binary64| {
        Binary64::from_bits(TOLERANCE_BITS | (1u64 << 63))
    };
    let below = |_: BinaryOperation, _: Binary64, _: Binary64| Binary64::from_bits(TOLERANCE_BITS - 1);
    let above = |_: BinaryOperation, _: Binary64, _: Binary64| Binary64::from_bits(TOLERANCE_BITS + 1);
    let yes = Ok(Some(DumbBrainObject::Boolean(true)));
    let no = Ok(Some(DumbBrainObject::Boolean(false)));
    let (a, b) = (number(1.0), number(2.0));
    assert_eq!(f64::from_bits(TOLERANCE_BITS), 1e-6);
    assert_eq!(evaluate_comparison(a, b, BinaryOperation::Equality, &exactly), no);
    assert_eq!(evaluate_comparison(a, b, BinaryOperation::Inequality, &exactly), no);
    assert_eq!(evaluate_comparison(a, b, BinaryOperation::Equality, &negative), no);
    assert_eq!(evaluate_comparison(a, b, BinaryOperation::Inequality, &negative), no);
    assert_eq!(evaluate_comparison(a, b, BinaryOperation::Equality, &below), yes);
    assert_eq!(evaluate_comparison(a, b, BinaryOperation::Inequality, &below), no);
    assert_eq!(evaluate_comparison(a, b, BinaryOperation::Equality, &above), no);
    assert_eq!(evaluate_comparison(a, b, BinaryOperation::Inequality, &above), yes);
}

#[test]
fn equality_asks_for_the_difference() {
    let recorded = std::cell::RefCell::new(Vec::new());
    let recording = |operation: BinaryOperation, left: Binary64, right: Binary64| {
        recorded.borrow_mut().push((operation, left, right));
        ieee(operation, left, right)
    };
    let result = evaluate_comparison(number(5.0), number(6.0), BinaryOperation::Equality, &recording);
    assert_eq!(result, Ok(Some(DumbBrainObject::Boolean(false))));
    assert_eq!(
        *recorded.borrow(),
        vec![(
            BinaryOperation::Subtract,
            Binary64::from_bits(5.0f64.to_bits()),
            Binary64::from_bits(6.0f64.to_bits())
        )]
    );
    recorded.borrow_mut().clear();
    let result = evaluate_comparison(number(5.0), number(6.0), BinaryOperation::Less, &recording);
    assert_eq!(result, Ok(Some(DumbBrainObject::Boolean(true))));
    assert!(recorded.borrow().is_empty());
}

#[test]
fn values_tell_their_types() {
    let one = number(1.0);
    let yes = DumbBrainObject::Boolean(true);
    assert!(one.is_number());
    assert!(!one.is_boolean());
    assert!(yes.is_boolean());
    assert!(!yes.is_number());
    assert_eq!(one.kind(), DumbBrainType::Number);
    assert_eq!(yes.kind(), DumbBrainType::Boolean);
    assert_eq!(one.as_number(), Some(&Binary64::from_bits(1.0f64.to_bits())));
    assert_eq!(yes.as_number(), None);
    assert_eq!(yes.as_boolean(), Some(&true));
    assert_eq!(one.as_boolean(), None);
    assert_eq!(one.try_into_number(), Ok(Binary64::from_bits(1.0f64.to_bits())));
    assert_eq!(yes.try_into_number(), Err(yes));
    assert_eq!(yes.try_into_boolean(), Ok(true));
    assert_eq!(one.try_into_boolean(), Err(one));
}

#[test]
fn operations_of_arithmetic_are_four() {
    let arithmetic = [
        BinaryOperation::Add,
        BinaryOperation::Subtract,
        BinaryOperation::Multiply,
        BinaryOperation::Divide,
    ];
    let others = [
        BinaryOperation::Equality,
        BinaryOperation::Inequality,
        BinaryOperation::Less,
        BinaryOperation::LessEquals,
        BinaryOperation::Greater,
        BinaryOperation::GreaterEquals,
        BinaryOperation::LogicalAnd,
        BinaryOperation::LogicalOr,
    ];
    assert!(arithmetic.iter().all(|operation| operation.is_arithmetic()));
    assert!(others.iter().all(|operation| !operation.is_arithmetic()));
}

#[test]
fn binding_powers() {
    let binary = [
        (SyntaxKind::StarToken, 5),
        (SyntaxKind::SlashToken, 5),
        (SyntaxKind::PlusToken, 4),
        (SyntaxKind::MinusToken, 4),
        (SyntaxKind::LessToken, 3),
        (SyntaxKind::LessEqualsToken, 3),
        (SyntaxKind::GreaterToken, 3),
        (SyntaxKind::GreaterEqualsToken, 3),
        (SyntaxKind::AmpersandAmpersandToken, 2),
        (SyntaxKind::PipePipeToken, 2),
        (SyntaxKind::EqualsEqualsToken, 1),
        (SyntaxKind::BangEqualsToken, 1),
        (SyntaxKind::NumberToken, 0),
        (SyntaxKind::LeftParenthesisToken, 0),
        (SyntaxKind::BadToken, 0),
        (SyntaxKind::TrueKeyword, 0),
    ];
    for (kind, precedence) in binary {
        assert_eq!(kind.binary_precedence(), precedence, "{:?}", kind);
    }
    assert_eq!(SyntaxKind::PlusToken.unary_precedence(), 6);
    assert_eq!(SyntaxKind::MinusToken.unary_precedence(), 6);
    assert_eq!(SyntaxKind::StarToken.unary_precedence(), 0);
    assert_eq!(SyntaxKind::NumberToken.unary_precedence(), 0);
}

#[test]
fn kinds_are_named_as_they_are_printed() {
    let kinds = [
        SyntaxKind::NumberToken,
        SyntaxKind::WhitespaceToken,
        SyntaxKind::PlusToken,
        SyntaxKind::MinusToken,
        SyntaxKind::StarToken,
        SyntaxKind::SlashToken,
        SyntaxKind::LeftParenthesisToken,
        SyntaxKind::RightParenthesisToken,
        SyntaxKind::EqualsEqualsToken,
        SyntaxKind::BangEqualsToken,
        SyntaxKind::LessToken,
        SyntaxKind::LessEqualsToken,
        SyntaxKind::GreaterToken,
        SyntaxKind::GreaterEqualsToken,
        SyntaxKind::AmpersandAmpersandToken,
        SyntaxKind::PipePipeToken,
        SyntaxKind::IdentifierToken,
        SyntaxKind::TrueKeyword,
        SyntaxKind::FalseKeyword,
        SyntaxKind::BadToken,
        SyntaxKind::LiteralExpression,
        SyntaxKind::BinaryExpression,
        SyntaxKind::UnaryExpression,
        SyntaxKind::ParenthesizedExpression,
    ];
    for kind in kinds {
        assert_eq!(kind.name(), format!("{:?}", kind));
    }
}
