use dumbbrain::binary64::Binary64;
use dumbbrain::binder::Binder;
use dumbbrain::bound_tree::BinaryOperation;
use dumbbrain::evaluator::Evaluator;
use dumbbrain::parser::Parser;

// The shape in which a value is printed: numbers show as the values that
// their bit patterns stand for.
#[derive(Debug)]
#[allow(dead_code)]
enum DumbBrainObject {
    Number(f64),
    Boolean(bool),
}

fn shown(value: dumbbrain::object::DumbBrainObject) -> DumbBrainObject {
    match value {
        dumbbrain::object::DumbBrainObject::Number(number) => {
            DumbBrainObject::Number(f64::from_bits(number.to_bits()))
        }
        dumbbrain::object::DumbBrainObject::Boolean(boolean) => DumbBrainObject::Boolean(boolean),
    }
}

fn ieee(operation: BinaryOperation, left: Binary64, right: Binary64) -> Binary64 {
    let a = f64::from_bits(left.to_bits());
    let b = f64::from_bits(right.to_bits());
    let result = match operation {
        BinaryOperation::Add => a + b,
        BinaryOperation::Subtract => a - b,
        BinaryOperation::Multiply => a * b,
        BinaryOperation::Divide => a / b,
        _ => unreachable!(),
    };
    Binary64::from_bits(result.to_bits())
}

fn check(input: &str, expected: &str) {
    let tree = Parser::new(input).parse().unwrap();
    let bound_tree = Binder::bind_expression(&tree).unwrap();
    let value = Evaluator::new(bound_tree).evaluate(ieee).unwrap();
    let formatted = format!("{:#?}", value.map(shown));
    assert_eq!(formatted, expected);
}

#[test]
fn evaluate_number_literal() {
    let expected: String = [
        "Some(\n",
        "    Number(\n",
        "        3.0,\n",
        "    ),\n",
        ")",
    ].concat();
    check("3", &expected);
}

#[test]
fn evaluate_boolean_literal() {
    let expected: String = [
        "Some(\n",
        "    Boolean(\n",
        "        true,\n",
        "    ),\n",
        ")",
    ].concat();
    check("true", &expected);
}

#[test]
fn evaluate_addition() {
    let expected: String = [
        "Some(\n",
        "    Number(\n",
        "        7.0,\n",
        "    ),\n",
        ")",
    ].concat();
    check("3 + 4", &expected);
}

#[test]
fn evaluate_subtraction() {
    let expected: String = [
        "Some(\n",
        "    Number(\n",
        "        -1.0,\n",
        "    ),\n",
        ")",
    ].concat();
    check("1 - 2", &expected);
}

#[test]
fn evaluate_multiplication() {
    let expected: String = [
        "Some(\n",
        "    Number(\n",
        "        8.0,\n",
        "    ),\n",
        ")",
    ].concat();
    check("2 * 4", &expected);
}

#[test]
fn evaluate_division() {
    let expected: String = [
        "Some(\n",
        "    Number(\n",
        "        0.8333333333333334,\n",
        "    ),\n",
        ")",
    ].concat();
    check("5 / 6", &expected);
}

#[test]
fn evaluate_equality() {
    let expected: String = [
        "Some(\n",
        "    Boolean(\n",
        "        false,\n",
        "    ),\n",
        ")",
    ].concat();
    check("5 == 6", &expected);
}

#[test]
fn evaluate_inequality() {
    let expected: String = [
        "Some(\n",
        "    Boolean(\n",
        "        true,\n",
        "    ),\n",
        ")",
    ].concat();
    check("5 != 6", &expected);
}

#[test]
fn evaluate_comparison() {
    let expected: String = [
        "Some(\n",
        "    Boolean(\n",
        "        false,\n",
        "    ),\n",
        ")",
    ].concat();
    check("5 > 6", &expected);
}

#[test]
fn evaluate_complex_expression() {
    let expected: String = [
        "Some(\n",
        "    Boolean(\n",
        "        true,\n",
        "    ),\n",
        ")",
    ].concat();
    check("(5 + 6) * 3 > 2 + 4 == true", &expected);
}
