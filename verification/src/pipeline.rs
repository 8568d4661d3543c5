use vstd::prelude::*;

use crate::ast::ExpressionView;
use crate::binary64::{all_digits, decimal_value, nearest_binary64, Binary64};
use crate::binder::{
    bound, lemma_bound_is_well_typed, literals_fit, value_fits, BindError, Binder,
};
use crate::bound_tree::{BinaryOperation, BoundExpression, BoundExpressionNode};
use crate::evaluator::{
    any_outcome, evaluates, lemma_value_has_static_type, total, EvaluationError, Evaluator,
    Outcome,
};
use crate::lexer::{
    lemma_lex_number, lemma_token_within, lex, number_token, token_at, token_length, tokens_from,
};
use crate::object::{type_of, DumbBrainObject, DumbBrainType};
use crate::parser::{
    binary_tail, bumped, check_holds, checked, every, every_token, expression, initial_state,
    lemma_expression_of_the_tokens, lemma_significant_keeps, literal_kinds, next_unary_precedence,
    parse_of, primary_expression, significant, ParseError, Parser,
};
use crate::precedence::{climbed, lemma_expression_is_climbed};
use crate::syntax::SyntaxKind;
use crate::token::TokenView;

verus! {

/// Why a source text has no value.
#[derive(Debug, PartialEq, Eq)]
pub enum Failure {
    /// The text is no expression: what the parser says of it, and the
    /// failure that ended the parse, where one did.
    Syntax { diagnostics: Vec<String>, error: Option<ParseError> },
    /// The expression is not well typed.
    Type(BindError),
    /// The evaluation met a type error.
    Evaluation(EvaluationError),
}

/// A failure as contracts see it.
pub enum FailureView {
    Syntax { diagnostics: Seq<Seq<char>>, error: Option<ParseError> },
    Type(BindError),
    Evaluation(EvaluationError),
}

impl View for Failure {
    type V = FailureView;

    open spec fn view(&self) -> FailureView {
        match self {
            Failure::Syntax { diagnostics, error } => FailureView::Syntax {
                diagnostics: diagnostics@.map_values(|text: String| text@),
                error: *error,
            },
            Failure::Type(error) => FailureView::Type(*error),
            Failure::Evaluation(error) => FailureView::Evaluation(*error),
        }
    }
}

/// The result of a run as contracts see it.
pub open spec fn result_view(result: Result<Option<DumbBrainObject>, Failure>) -> Result<
    Option<DumbBrainObject>,
    FailureView,
> {
    match result {
        Ok(value) => Ok(value),
        Err(failure) => Err(failure@),
    }
}

/// Whether `result` is what a source text comes to where `arithmetic` does
/// the arithmetic on numbers. A parse that fails or leaves diagnostics is
/// a failure of syntax; a tree that does not bind is one of type; else the
/// result is that of the evaluation.
pub open spec fn runs_to<F: Fn(BinaryOperation, Binary64, Binary64) -> Binary64>(
    source: Seq<char>,
    arithmetic: F,
    result: Result<Option<DumbBrainObject>, FailureView>,
) -> bool {
    let (state, tree) = parse_of(source);
    match tree {
        Err(error) => result == Err::<Option<DumbBrainObject>, FailureView>(
            FailureView::Syntax { diagnostics: state.diagnostics, error: Some(error) },
        ),
        Ok(tree) => if state.diagnostics.len() > 0 {
            result == Err::<Option<DumbBrainObject>, FailureView>(
                FailureView::Syntax { diagnostics: state.diagnostics, error: None },
            )
        } else {
            match bound(tree) {
                Err(error) => result == Err::<Option<DumbBrainObject>, FailureView>(
                    FailureView::Type(error),
                ),
                Ok(typed) => exists|outcome: Outcome| #[trigger]
                    any_outcome(outcome) && evaluates(typed, arithmetic, outcome) && result
                        == match outcome {
                        Ok(value) => Ok::<Option<DumbBrainObject>, FailureView>(value),
                        Err(error) => Err(FailureView::Evaluation(error)),
                    },
            }
        },
    }
}

/// Lexes, parses, binds and evaluates a source text.
pub fn evaluate<F: Fn(BinaryOperation, Binary64, Binary64) -> Binary64>(
    source_text: &str,
    arithmetic: F,
) -> (result: Result<Option<DumbBrainObject>, Failure>)
    requires
        source_text@.len() < usize::MAX,
        total(arithmetic),
    ensures
        runs_to(source_text@, arithmetic, result_view(result)),
{
    let mut parser = Parser::new(source_text);
    let parsed = parser.parse();
    let ghost state = parser@;
    let diagnostics: Vec<String> = parser.into_diagnostics();
    let tree = match parsed {
        Ok(tree) => tree,
        Err(error) => {
            return Err(Failure::Syntax { diagnostics, error: Some(error) });
        },
    };
    if diagnostics.len() > 0 {
        return Err(Failure::Syntax { diagnostics, error: None });
    }
    assert(state.diagnostics.len() == 0) by {
        assert(diagnostics@.map_values(|text: String| text@).len() == 0);
    }
    let typed: BoundExpression = match Binder::bind_expression(&tree) {
        Ok(typed) => typed,
        Err(error) => {
            return Err(Failure::Type(error));
        },
    };
    let outcome: Outcome = Evaluator::new(typed).evaluate(arithmetic);
    assert(any_outcome(outcome));
    match outcome {
        Ok(value) => Ok(value),
        Err(error) => Err(Failure::Evaluation(error)),
    }
}

/// A source that is a number written in decimal digits parses, without a
/// diagnostic, to the literal of its one token, and that literal binds to
/// a number: the binary64 value nearest to the number written.
pub proof fn lemma_number_literal(digits: Seq<char>)
    requires
        digits.len() > 0,
        all_digits(digits),
    ensures
        lex(digits) == seq![number_token(digits)],
        parse_of(digits).1 == Ok::<ExpressionView, ParseError>(
            ExpressionView::Literal { literal_token: number_token(digits) },
        ),
        parse_of(digits).0.diagnostics.len() == 0,
        parse_of(digits).0.tokens.len() == 0,
        bound(ExpressionView::Literal { literal_token: number_token(digits) }) == Ok::<
            BoundExpression,
            BindError,
        >(
            BoundExpression {
                node: BoundExpressionNode::Literal {
                    value: Some(
                        DumbBrainObject::Number(
                            Binary64 { bits: nearest_binary64(decimal_value(digits)) },
                        ),
                    ),
                },
                kind: DumbBrainType::Number,
            },
        ),
{
    lemma_lex_number(digits);
    let token = number_token(digits);
    let tokens = seq![token];
    assert(tokens.drop_first() =~= Seq::<TokenView>::empty());
    assert(significant(tokens.drop_first()) =~= Seq::<
        TokenView,
    >::empty());
    assert(significant(tokens) =~= tokens);
    let state = initial_state(digits);
    assert(state.tokens == tokens);
    assert(literal_kinds()[0] == SyntaxKind::NumberToken);
    assert(check_holds(state, literal_kinds()));
    let after = bumped(checked(state, literal_kinds()));
    let literal = ExpressionView::Literal { literal_token: token };
    assert(after.tokens =~= Seq::<TokenView>::empty());
    assert(primary_expression(state) == (
        after,
        Ok::<ExpressionView, ParseError>(literal),
    ));
    assert(binary_tail(after, literal, 0) == (
        after,
        Ok::<ExpressionView, ParseError>(literal),
    ));
    assert(next_unary_precedence(state) == 0);
    assert(expression(state, 0) == (
        after,
        Ok::<ExpressionView, ParseError>(literal),
    ));
}

/// The tokens of a source carry values of their kinds.
pub proof fn lemma_lexed_values_fit(source: Seq<char>, start: int)
    requires
        0 <= start <= source.len(),
    ensures
        every(tokens_from(source, start), |token: TokenView| value_fits(token)),
    decreases source.len() - start,
{
    if start < source.len() {
        lemma_token_within(source, start);
        let end = start + token_length(source, start);
        lemma_lexed_values_fit(source, end);
        let rest = tokens_from(source, end);
        let all = tokens_from(source, start);
        assert(value_fits(token_at(source, start)));
        assert forall|i: int| 0 <= i < all.len() implies value_fits(#[trigger] all[i]) by {
            if i > 0 {
                assert(all[i] == rest[i - 1]);
            }
        }
    }
}

/// The static type of an expression is the type of its value: where a
/// source text parses and binds, every value that its evaluation can give
/// is of the type to which it is bound, whatever the arithmetic returns.
pub proof fn lemma_static_type_is_kept<F: Fn(BinaryOperation, Binary64, Binary64) -> Binary64>(
    source: Seq<char>,
    arithmetic: F,
    value: DumbBrainObject,
)
    requires
        parse_of(source).1 matches Ok(tree) && bound(tree) matches Ok(typed) && evaluates(
            typed,
            arithmetic,
            Ok(Some(value)),
        ),
    ensures
        parse_of(source).1 matches Ok(tree) && bound(tree) matches Ok(typed) && type_of(value)
            == typed.kind,
{
    let fits = |token: TokenView| value_fits(token);
    lemma_lexed_values_fit(source, 0);
    lemma_significant_keeps(lex(source), fits);
    let state = initial_state(source);
    let tree = parse_of(source).1->Ok_0;
    lemma_expression_of_the_tokens(state, 0, fits);
    lemma_every_literal_fits(tree);
    lemma_bound_is_well_typed(tree);
    lemma_value_has_static_type(bound(tree)->Ok_0, arithmetic, value);
}

proof fn lemma_every_literal_fits(tree: ExpressionView)
    requires
        every_token(tree, |token: TokenView| value_fits(token)),
    ensures
        literals_fit(tree),
    decreases tree,
{
    match tree {
        ExpressionView::Literal { literal_token } => {},
        ExpressionView::Binary { left, right, .. } => {
            lemma_every_literal_fits(*left);
            lemma_every_literal_fits(*right);
        },
        ExpressionView::Unary { right, .. } => {
            lemma_every_literal_fits(*right);
        },
        ExpressionView::Parenthesized { expression, .. } => {
            lemma_every_literal_fits(*expression);
        },
    }
}

/// A tree of the shape that the parser builds binds or is ill typed: its
/// literals are literals and its operators are operators.
pub proof fn lemma_climbed_trees_bind(tree: ExpressionView)
    requires
        climbed(tree),
    ensures
        bound(tree) matches Err(error) ==> error is BinaryOperandTypes || error
            is UnaryOperandType,
    decreases tree,
{
    match tree {
        ExpressionView::Literal { literal_token } => {
            let kinds = literal_kinds();
            let i = choose|i: int| 0 <= i < kinds.len() && kinds[i] == literal_token.kind;
            assert(kinds[i] == literal_token.kind);
        },
        ExpressionView::Binary { left, operator_token, right } => {
            lemma_climbed_trees_bind(*left);
            lemma_climbed_trees_bind(*right);
        },
        ExpressionView::Unary { operator_token, right } => {
            lemma_climbed_trees_bind(*right);
        },
        ExpressionView::Parenthesized { expression, .. } => {
            lemma_climbed_trees_bind(*expression);
        },
    }
}

/// What the parser builds from a source text binds or is ill typed: the
/// binder meets no token in it that it does not know.
pub proof fn lemma_parsed_trees_bind(source: Seq<char>)
    ensures
        parse_of(source).1 matches Ok(tree) ==> (bound(tree) matches Err(error) ==> error
            is BinaryOperandTypes || error is UnaryOperandType),
{
    if let Ok(tree) = parse_of(source).1 {
        lemma_expression_is_climbed(initial_state(source), 0);
        lemma_climbed_trees_bind(tree);
    }
}

} // verus!
