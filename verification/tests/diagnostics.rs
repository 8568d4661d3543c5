use dumbbrain::ast::ExpressionSyntax;
use dumbbrain::parser::{ParseError, Parser};
use dumbbrain::span::Span;
use dumbbrain::syntax::SyntaxKind;

fn parsed(source: &str) -> (Result<ExpressionSyntax, ParseError>, Vec<String>) {
    let mut parser = Parser::new(source);
    let outcome = parser.parse();
    (outcome, parser.into_diagnostics())
}

const PRIMARY: &str = "expected NumberToken, TrueKeyword, FalseKeyword or LeftParenthesisToken";

#[test]
fn a_well_formed_text_has_no_diagnostics() {
    for source in ["1", "1 + 2", "(1)", "-1", "true == false", "1 < 2", "  (  1 * ( 2 + 3 ) )  "] {
        let (outcome, diagnostics) = parsed(source);
        assert!(outcome.is_ok(), "{}", source);
        assert!(diagnostics.is_empty(), "{}", source);
    }
}

#[test]
fn a_missing_parenthesis_at_the_end_is_a_failure_with_a_diagnostic() {
    let (outcome, diagnostics) = parsed("(1");
    assert_eq!(outcome, Err(ParseError::UnexpectedEndOfInput));
    assert_eq!(diagnostics, vec![String::from("at 1:3: expected RightParenthesisToken")]);
    let (outcome, diagnostics) = parsed("((1)\n");
    assert_eq!(outcome, Err(ParseError::UnexpectedEndOfInput));
    assert_eq!(diagnostics, vec![String::from("at 2:1: expected RightParenthesisToken")]);
}

#[test]
fn another_token_takes_the_place_of_the_parenthesis() {
    let (outcome, diagnostics) = parsed("(1 2");
    assert_eq!(diagnostics, vec![String::from("at 1:4: expected RightParenthesisToken")]);
    match outcome.unwrap() {
        ExpressionSyntax::Parenthesized {
            left_parenthesis_token,
            expression,
            right_parenthesis_token,
        } => {
            assert_eq!(left_parenthesis_token.kind, SyntaxKind::LeftParenthesisToken);
            assert_eq!(right_parenthesis_token.kind, SyntaxKind::NumberToken);
            assert_eq!(right_parenthesis_token.text, "2");
            match *expression {
                ExpressionSyntax::Literal { literal_token } => assert_eq!(literal_token.text, "1"),
                other => panic!("{:?}", other),
            }
        }
        other => panic!("{:?}", other),
    }
}

#[test]
fn diagnostics_come_in_the_order_of_the_source() {
    let (outcome, diagnostics) = parsed("((1 2 3");
    assert!(outcome.is_ok());
    assert_eq!(
        diagnostics,
        vec![
            String::from("at 1:5: expected RightParenthesisToken"),
            String::from("at 1:7: expected RightParenthesisToken"),
        ]
    );
    let (outcome, diagnostics) = parsed("(1 2 +\n  *");
    assert_eq!(
        outcome,
        Err(ParseError::UnexpectedToken {
            kind: SyntaxKind::StarToken,
            span: Span { first_line: 2, first_column: 3, last_line: 2, last_column: 4 },
        })
    );
    assert_eq!(
        diagnostics,
        vec![
            String::from("at 1:4: expected RightParenthesisToken"),
            format!("at 2:3: {}", PRIMARY),
        ]
    );
}

#[test]
fn a_token_that_begins_no_expression_is_a_failure() {
    let (outcome, diagnostics) = parsed(")");
    assert_eq!(
        outcome,
        Err(ParseError::UnexpectedToken {
            kind: SyntaxKind::RightParenthesisToken,
            span: Span { first_line: 1, first_column: 1, last_line: 1, last_column: 2 },
        })
    );
    assert_eq!(diagnostics, vec![format!("at 1:1: {}", PRIMARY)]);
    let (outcome, diagnostics) = parsed("1 * foo");
    assert_eq!(
        outcome,
        Err(ParseError::UnexpectedToken {
            kind: SyntaxKind::IdentifierToken,
            span: Span { first_line: 1, first_column: 5, last_line: 1, last_column: 8 },
        })
    );
    assert_eq!(diagnostics, vec![format!("at 1:5: {}", PRIMARY)]);
    let (outcome, _) = parsed("* 1");
    assert!(matches!(outcome, Err(ParseError::UnexpectedToken { kind: SyntaxKind::StarToken, .. })));
}

#[test]
fn an_empty_text_is_a_failure() {
    let (outcome, diagnostics) = parsed("");
    assert_eq!(outcome, Err(ParseError::UnexpectedEndOfInput));
    assert_eq!(diagnostics, vec![format!("at 1:1: {}", PRIMARY)]);
    let (outcome, diagnostics) = parsed(" \n\t ");
    assert_eq!(outcome, Err(ParseError::UnexpectedEndOfInput));
    assert_eq!(diagnostics, vec![format!("at 2:3: {}", PRIMARY)]);
}

#[test]
fn an_operator_without_its_operand_is_a_failure() {
    let (outcome, diagnostics) = parsed("1 +");
    assert_eq!(outcome, Err(ParseError::UnexpectedEndOfInput));
    assert_eq!(diagnostics, vec![format!("at 1:4: {}", PRIMARY)]);
    let (outcome, diagnostics) = parsed("-");
    assert_eq!(outcome, Err(ParseError::UnexpectedEndOfInput));
    assert_eq!(diagnostics, vec![format!("at 1:2: {}", PRIMARY)]);
}

#[test]
fn positions_beyond_nine_are_written_in_full() {
    let source = format!("{}\n{})", "\n".repeat(11), " ".repeat(122));
    let (_, diagnostics) = parsed(&source);
    assert_eq!(diagnostics, vec![format!("at 13:123: {}", PRIMARY)]);
}

#[test]
fn parsing_a_text_twice_gives_the_same_diagnostics() {
    for source in ["(1 2", "((1 2 3", "", "1 +", "(1 2 +\n  *", ")", "(", "1 + 2"] {
        let first = parsed(source);
        let second = parsed(source);
        assert_eq!(first.0, second.0, "{:?}", source);
        assert_eq!(first.1, second.1, "{:?}", source);
    }
}

#[test]
fn the_parser_stops_after_one_expression() {
    let mut parser = Parser::new("1 2 + 3");
    let first = parser.parse().unwrap();
    let second = parser.parse().unwrap();
    assert!(matches!(first, ExpressionSyntax::Literal { .. }));
    assert!(matches!(second, ExpressionSyntax::Binary { .. }));
    assert_eq!(parser.parse(), Err(ParseError::UnexpectedEndOfInput));
    assert_eq!(parser.diagnostics().len(), 1);
}

#[test]
fn equality_binds_looser_than_comparison() {
    let (outcome, _) = parsed("1 < 2 == 3 < 4");
    match outcome.unwrap() {
        ExpressionSyntax::Binary { left, operator_token, right } => {
            assert_eq!(operator_token.kind, SyntaxKind::EqualsEqualsToken);
            assert!(matches!(*left, ExpressionSyntax::Binary { .. }));
            assert!(matches!(*right, ExpressionSyntax::Binary { .. }));
        }
        other => panic!("{:?}", other),
    }
}

#[test]
fn a_prefix_operator_takes_in_no_binary_operator() {
    let (outcome, _) = parsed("-1 + 2");
    match outcome.unwrap() {
        ExpressionSyntax::Binary { left, operator_token, .. } => {
            assert_eq!(operator_token.kind, SyntaxKind::PlusToken);
            assert!(matches!(*left, ExpressionSyntax::Unary { .. }));
        }
        other => panic!("{:?}", other),
    }
}

fn leaves<'a>(node: dumbbrain::ast::SyntaxNode<'a>, out: &mut Vec<dumbbrain::token::Token>) {
    match node {
        dumbbrain::ast::SyntaxNode::Token(token) => out.push(token.clone()),
        dumbbrain::ast::SyntaxNode::Expression(_) => {
            for child in node.children() {
                leaves(child, out);
            }
        }
    }
}

#[test]
fn a_tree_holds_the_tokens_that_were_consumed() {
    for source in [
        "1",
        "1 + 2 * 3 - 4 / 5",
        "-(1 + 2) * --3 == (4) != true",
        "((1 < 2) <= (3 > 4)) >= 5",
        "(1 2",
        "((1 2 3",
    ] {
        let tree = Parser::new(source).parse().unwrap();
        let mut found = vec![];
        leaves(dumbbrain::ast::SyntaxNode::Expression(&tree), &mut found);
        let expected: Vec<dumbbrain::token::Token> = dumbbrain::lexer::tokenize(source)
            .into_iter()
            .filter(|token| token.kind != SyntaxKind::WhitespaceToken)
            .collect();
        assert_eq!(found, expected, "{}", source);
    }
    // What follows the expression stays with the parser.
    let tree = Parser::new("1 + 2 3 4").parse().unwrap();
    let mut found = vec![];
    leaves(dumbbrain::ast::SyntaxNode::Expression(&tree), &mut found);
    let texts: Vec<&str> = found.iter().map(|token| token.text.as_str()).collect();
    assert_eq!(texts, vec!["1", "+", "2"]);
}

fn binding_power(tree: &ExpressionSyntax) -> Option<usize> {
    match tree {
        ExpressionSyntax::Binary { operator_token, .. } => {
            Some(operator_token.kind.binary_precedence())
        }
        _ => None,
    }
}

fn well_shaped(tree: &ExpressionSyntax) -> bool {
    match tree {
        ExpressionSyntax::Literal { .. } => true,
        ExpressionSyntax::Parenthesized { expression, .. } => well_shaped(expression),
        ExpressionSyntax::Unary { right, .. } => binding_power(right).is_none() && well_shaped(right),
        ExpressionSyntax::Binary { left, operator_token, right } => {
            let own = operator_token.kind.binary_precedence();
            own > 0
                && well_shaped(left)
                && well_shaped(right)
                && binding_power(right).map_or(true, |power| power > own)
                && binding_power(left).map_or(true, |power| power >= own)
        }
    }
}

#[test]
fn operators_nest_by_their_binding_powers() {
    for source in [
        "1 - 2 - 3",
        "1 + 2 * 3",
        "1 * 2 + 3",
        "-1 * -2",
        "1 == 2 < 3 + 4 * 5",
        "1 * 2 + 3 < 4 == 5",
        "1 + 2 * 3 - 4 / 5 + 6",
        "1 < 2 == 3 > 4 != 5 <= 6",
        "- - 1 + + 2",
        "(1 + 2) * (3 - (4 - 5))",
    ] {
        let tree = Parser::new(source).parse().unwrap();
        assert!(well_shaped(&tree), "{}", source);
    }
}
