//! What precedence climbing builds: the tokens that it consumed, in their
//! order, in a tree whose shape the binding powers fix.

use vstd::prelude::*;

use crate::ast::ExpressionView;
use crate::parser::{
    binary_tail, bumped, check_holds, checked, expected_token, expression, lemma_expression_grows,
    lemma_expression_never_longer, lemma_primary_grows, lemma_primary_never_longer,
    lemma_tail_grows, literal_kinds, next_binary_precedence, next_unary_precedence,
    primary_expression, ParserState,
};
use crate::syntax::{binary_precedence_of, unary_precedence_of, SyntaxKind};
use crate::token::TokenView;

verus! {

/// The tokens of a tree, in the order of the source.
pub open spec fn tokens_of(tree: ExpressionView) -> Seq<TokenView>
    decreases tree,
{
    match tree {
        ExpressionView::Literal { literal_token } => seq![literal_token],
        ExpressionView::Binary { left, operator_token, right } => tokens_of(*left)
            + seq![operator_token] + tokens_of(*right),
        ExpressionView::Unary { operator_token, right } => seq![operator_token] + tokens_of(
            *right,
        ),
        ExpressionView::Parenthesized {
            left_parenthesis_token,
            expression,
            right_parenthesis_token,
        } => seq![left_parenthesis_token] + tokens_of(*expression) + seq![
            right_parenthesis_token,
        ],
    }
}

/// The binding power of the operator at the root of a binary expression;
/// zero for every other tree.
pub open spec fn root_precedence(tree: ExpressionView) -> nat {
    match tree {
        ExpressionView::Binary { operator_token, .. } => binary_precedence_of(operator_token.kind),
        _ => 0,
    }
}

/// Whether a tree has the shape that the binding powers ask for.
///
/// The operand of a prefix operator is no binary expression: a prefix
/// operator binds tighter than every binary one. The right operand of a
/// binary operator is no binary expression that binds as loose as the
/// operator or looser, and the left operand is none that binds looser: of
/// two operators the tighter one takes the operand between them, and the
/// left one where they bind alike. What stands in parentheses is an
/// operand whatever it is.
pub open spec fn climbed(tree: ExpressionView) -> bool
    decreases tree,
{
    match tree {
        ExpressionView::Literal { literal_token } => literal_kinds().contains(literal_token.kind),
        ExpressionView::Parenthesized { left_parenthesis_token, expression, .. } => {
            left_parenthesis_token.kind == SyntaxKind::LeftParenthesisToken && climbed(*expression)
        },
        ExpressionView::Unary { operator_token, right } => {
            unary_precedence_of(operator_token.kind) > 0 && !(*right is Binary) && climbed(*right)
        },
        ExpressionView::Binary { left, operator_token, right } => {
            let precedence = binary_precedence_of(operator_token.kind);
            &&& precedence > 0
            &&& climbed(*left)
            &&& climbed(*right)
            &&& *right is Binary ==> root_precedence(*right) > precedence
            &&& *left is Binary ==> root_precedence(*left) >= precedence
        },
    }
}

/// Whether no operator that binds tighter than `precedence` comes next.
pub open spec fn settled(state: ParserState, precedence: nat) -> bool {
    next_binary_precedence(state) == 0 || next_binary_precedence(state) <= precedence
}

proof fn lemma_front(tokens: Seq<TokenView>)
    requires
        tokens.len() > 0,
    ensures
        seq![tokens[0]] + tokens.drop_first() == tokens,
{
    assert(seq![tokens[0]] + tokens.drop_first() =~= tokens);
}

/// A tree holds the tokens that its parse consumed, each once and in their
/// order: the tokens of the tree, with those that are left, are those that
/// there were.
pub proof fn lemma_expression_holds_its_tokens(state: ParserState, parent_precedence: nat)
    ensures
        expression(state, parent_precedence).1 matches Ok(tree) ==> tokens_of(tree) + expression(
            state,
            parent_precedence,
        ).0.tokens == state.tokens,
    decreases state.tokens.len(), 2nat,
{
    let unary = next_unary_precedence(state);
    if unary != 0 && unary >= parent_precedence {
        let (after, operand) = expression(bumped(state), unary);
        lemma_expression_holds_its_tokens(bumped(state), unary);
        lemma_expression_never_longer(bumped(state), unary);
        if let Ok(operand) = operand {
            let left = ExpressionView::Unary {
                operator_token: state.tokens[0],
                right: Box::new(operand),
            };
            lemma_tail_holds_its_tokens(after, left, parent_precedence);
            lemma_front(state.tokens);
            let end = binary_tail(after, left, parent_precedence);
            if let Ok(tree) = end.1 {
                assert(tokens_of(tree) + end.0.tokens == tokens_of(left) + after.tokens);
                assert(tokens_of(left) + after.tokens =~= seq![state.tokens[0]] + (tokens_of(
                    operand,
                ) + after.tokens));
            }
        }
    } else {
        let (after, left) = primary_expression(state);
        lemma_primary_holds_its_tokens(state);
        lemma_primary_never_longer(state);
        if let Ok(left) = left {
            lemma_tail_holds_its_tokens(after, left, parent_precedence);
        }
    }
}

/// A primary expression holds the tokens that its parse consumed.
pub proof fn lemma_primary_holds_its_tokens(state: ParserState)
    ensures
        primary_expression(state).1 matches Ok(tree) ==> tokens_of(tree) + primary_expression(
            state,
        ).0.tokens == state.tokens,
    decreases state.tokens.len(), 1nat,
{
    let looked = checked(state, literal_kinds());
    if check_holds(state, literal_kinds()) {
        lemma_front(state.tokens);
    } else {
        let looked = checked(looked, seq![SyntaxKind::LeftParenthesisToken]);
        if check_holds(state, seq![SyntaxKind::LeftParenthesisToken]) {
            let (after, inner) = expression(bumped(looked), 0);
            lemma_expression_holds_its_tokens(bumped(looked), 0);
            lemma_front(state.tokens);
            if let Ok(inner) = inner {
                let (closed, right) = expected_token(after, SyntaxKind::RightParenthesisToken);
                if let Some(right) = right {
                    lemma_front(after.tokens);
                    assert(closed.tokens == after.tokens.drop_first());
                    assert(seq![state.tokens[0]] + tokens_of(inner) + seq![right] + closed.tokens
                        =~= seq![state.tokens[0]] + (tokens_of(inner) + (seq![right]
                        + closed.tokens)));
                }
            }
        }
    }
}

/// The tree that the operators after a left operand make holds the tokens
/// of that operand and those that were consumed after it.
pub proof fn lemma_tail_holds_its_tokens(
    state: ParserState,
    left: ExpressionView,
    parent_precedence: nat,
)
    ensures
        binary_tail(state, left, parent_precedence).1 matches Ok(tree) ==> tokens_of(tree)
            + binary_tail(state, left, parent_precedence).0.tokens == tokens_of(left)
            + state.tokens,
    decreases state.tokens.len(), 0nat,
{
    let precedence = next_binary_precedence(state);
    if !(precedence == 0 || precedence <= parent_precedence) {
        let (after, right) = expression(bumped(state), precedence);
        lemma_expression_holds_its_tokens(bumped(state), precedence);
        lemma_expression_never_longer(bumped(state), precedence);
        lemma_front(state.tokens);
        if let Ok(right) = right {
            let folded = ExpressionView::Binary {
                left: Box::new(left),
                operator_token: state.tokens[0],
                right: Box::new(right),
            };
            lemma_tail_holds_its_tokens(after, folded, parent_precedence);
            let end = binary_tail(after, folded, parent_precedence);
            if let Ok(tree) = end.1 {
                assert(tokens_of(tree) + end.0.tokens == tokens_of(folded) + after.tokens);
                assert(tokens_of(folded) + after.tokens =~= tokens_of(left) + (seq![
                    state.tokens[0],
                ] + (tokens_of(right) + after.tokens)));
            }
        }
    }
}

/// An expression that is parsed above a binding power has the shape that
/// the binding powers ask for, binds tighter than that power where it is a
/// binary expression, and is followed by no operator that binds tighter
/// than that power.
pub proof fn lemma_expression_is_climbed(state: ParserState, parent_precedence: nat)
    ensures
        expression(state, parent_precedence).1 matches Ok(tree) ==> {
            &&& climbed(tree)
            &&& tree is Binary ==> root_precedence(tree) > parent_precedence
            &&& settled(expression(state, parent_precedence).0, parent_precedence)
        },
    decreases state.tokens.len(), 2nat,
{
    let unary = next_unary_precedence(state);
    if unary != 0 && unary >= parent_precedence {
        let (after, operand) = expression(bumped(state), unary);
        lemma_expression_is_climbed(bumped(state), unary);
        lemma_expression_never_longer(bumped(state), unary);
        if let Ok(operand) = operand {
            let left = ExpressionView::Unary {
                operator_token: state.tokens[0],
                right: Box::new(operand),
            };
            assert(unary == 6);
            assert(!(operand is Binary)) by {
                if operand is Binary {
                    assert(root_precedence(operand) <= 5);
                }
            }
            lemma_tail_is_climbed(after, left, parent_precedence);
        }
    } else {
        let (after, left) = primary_expression(state);
        lemma_primary_is_climbed(state);
        lemma_primary_never_longer(state);
        if let Ok(left) = left {
            lemma_tail_is_climbed(after, left, parent_precedence);
        }
    }
}

/// A primary expression has the shape that the binding powers ask for and
/// is no binary expression.
pub proof fn lemma_primary_is_climbed(state: ParserState)
    ensures
        primary_expression(state).1 matches Ok(tree) ==> climbed(tree) && !(tree is Binary),
    decreases state.tokens.len(), 1nat,
{
    let looked = checked(state, literal_kinds());
    if !check_holds(state, literal_kinds()) {
        let looked = checked(looked, seq![SyntaxKind::LeftParenthesisToken]);
        if check_holds(state, seq![SyntaxKind::LeftParenthesisToken]) {
            lemma_expression_is_climbed(bumped(looked), 0);
            assert(seq![SyntaxKind::LeftParenthesisToken].contains(state.tokens[0].kind));
            assert(state.tokens[0].kind == SyntaxKind::LeftParenthesisToken) by {
                let kinds = seq![SyntaxKind::LeftParenthesisToken];
                let i = choose|i: int| 0 <= i < kinds.len() && kinds[i] == state.tokens[0].kind;
                assert(kinds[i] == SyntaxKind::LeftParenthesisToken);
            }
        }
    }
}

/// Folding keeps the shape: where the left operand has it, binds tighter
/// than `parent_precedence` where it is a binary expression, and is
/// followed by no operator that binds tighter than its own root, the tree
/// that the operators after it make has the shape too.
pub proof fn lemma_tail_is_climbed(state: ParserState, left: ExpressionView, parent_precedence: nat)
    requires
        climbed(left),
        left is Binary ==> root_precedence(left) > parent_precedence,
        left is Binary ==> settled(state, root_precedence(left)),
    ensures
        binary_tail(state, left, parent_precedence).1 matches Ok(tree) ==> {
            &&& climbed(tree)
            &&& tree is Binary ==> root_precedence(tree) > parent_precedence
            &&& settled(binary_tail(state, left, parent_precedence).0, parent_precedence)
        },
    decreases state.tokens.len(), 0nat,
{
    let precedence = next_binary_precedence(state);
    if !(precedence == 0 || precedence <= parent_precedence) {
        let (after, right) = expression(bumped(state), precedence);
        lemma_expression_is_climbed(bumped(state), precedence);
        lemma_expression_never_longer(bumped(state), precedence);
        if let Ok(right) = right {
            let folded = ExpressionView::Binary {
                left: Box::new(left),
                operator_token: state.tokens[0],
                right: Box::new(right),
            };
            assert(root_precedence(folded) == precedence);
            lemma_tail_is_climbed(after, folded, parent_precedence);
        }
    }
}

/// Whether every pair of parentheses of a tree is closed by a right
/// parenthesis.
pub open spec fn parentheses_match(tree: ExpressionView) -> bool
    decreases tree,
{
    match tree {
        ExpressionView::Literal { .. } => true,
        ExpressionView::Binary { left, right, .. } => parentheses_match(*left)
            && parentheses_match(*right),
        ExpressionView::Unary { right, .. } => parentheses_match(*right),
        ExpressionView::Parenthesized { expression, right_parenthesis_token, .. } => {
            right_parenthesis_token.kind == SyntaxKind::RightParenthesisToken && parentheses_match(
                *expression,
            )
        },
    }
}

proof fn lemma_no_more(a: Seq<Seq<char>>, b: Seq<Seq<char>>, c: Seq<Seq<char>>)
    requires
        a.is_prefix_of(b),
        b.is_prefix_of(c),
        c.len() <= a.len(),
    ensures
        a == b,
        b == c,
{
    assert(a =~= b);
    assert(b =~= c);
}

/// A parse that adds no diagnostic is to be trusted: in its tree no token
/// stands in the place of a right parenthesis but a right parenthesis.
pub proof fn lemma_expression_without_diagnostics(state: ParserState, parent_precedence: nat)
    requires
        expression(state, parent_precedence).0.diagnostics.len() <= state.diagnostics.len(),
    ensures
        expression(state, parent_precedence).1 matches Ok(tree) ==> parentheses_match(tree),
    decreases state.tokens.len(), 2nat,
{
    let end = expression(state, parent_precedence);
    let unary = next_unary_precedence(state);
    if unary != 0 && unary >= parent_precedence {
        let (after, operand) = expression(bumped(state), unary);
        lemma_expression_grows(bumped(state), unary);
        lemma_expression_never_longer(bumped(state), unary);
        if let Ok(operand) = operand {
            let left = ExpressionView::Unary {
                operator_token: state.tokens[0],
                right: Box::new(operand),
            };
            lemma_tail_grows(after, left, parent_precedence);
            lemma_no_more(state.diagnostics, after.diagnostics, end.0.diagnostics);
            lemma_expression_without_diagnostics(bumped(state), unary);
            lemma_tail_without_diagnostics(after, left, parent_precedence);
        }
    } else {
        let (after, left) = primary_expression(state);
        lemma_primary_grows(state);
        lemma_primary_never_longer(state);
        if let Ok(left) = left {
            lemma_tail_grows(after, left, parent_precedence);
            lemma_no_more(state.diagnostics, after.diagnostics, end.0.diagnostics);
            lemma_primary_without_diagnostics(state);
            lemma_tail_without_diagnostics(after, left, parent_precedence);
        }
    }
}

/// A primary expression that is parsed without a diagnostic has its
/// parentheses matched.
pub proof fn lemma_primary_without_diagnostics(state: ParserState)
    requires
        primary_expression(state).0.diagnostics.len() <= state.diagnostics.len(),
    ensures
        primary_expression(state).1 matches Ok(tree) ==> parentheses_match(tree),
    decreases state.tokens.len(), 1nat,
{
    let looked = checked(state, literal_kinds());
    if !check_holds(state, literal_kinds()) {
        let looked = checked(looked, seq![SyntaxKind::LeftParenthesisToken]);
        if check_holds(state, seq![SyntaxKind::LeftParenthesisToken]) {
            let (after, inner) = expression(bumped(looked), 0);
            lemma_expression_grows(bumped(looked), 0);
            if let Ok(inner) = inner {
                let (closed, right) = expected_token(after, SyntaxKind::RightParenthesisToken);
                assert(after.diagnostics.is_prefix_of(closed.diagnostics));
                lemma_no_more(state.diagnostics, after.diagnostics, closed.diagnostics);
                lemma_expression_without_diagnostics(bumped(looked), 0);
                if let Some(right) = right {
                    let kinds = seq![SyntaxKind::RightParenthesisToken];
                    assert(check_holds(after, kinds));
                    let i = choose|i: int| 0 <= i < kinds.len() && kinds[i] == after.tokens[0].kind;
                    assert(kinds[i] == SyntaxKind::RightParenthesisToken);
                }
            }
        }
    }
}

/// Folding without a diagnostic keeps the parentheses matched.
pub proof fn lemma_tail_without_diagnostics(
    state: ParserState,
    left: ExpressionView,
    parent_precedence: nat,
)
    requires
        parentheses_match(left),
        binary_tail(state, left, parent_precedence).0.diagnostics.len()
            <= state.diagnostics.len(),
    ensures
        binary_tail(state, left, parent_precedence).1 matches Ok(tree) ==> parentheses_match(tree),
    decreases state.tokens.len(), 0nat,
{
    let end = binary_tail(state, left, parent_precedence);
    let precedence = next_binary_precedence(state);
    if !(precedence == 0 || precedence <= parent_precedence) {
        let (after, right) = expression(bumped(state), precedence);
        lemma_expression_grows(bumped(state), precedence);
        lemma_expression_never_longer(bumped(state), precedence);
        if let Ok(right) = right {
            let folded = ExpressionView::Binary {
                left: Box::new(left),
                operator_token: state.tokens[0],
                right: Box::new(right),
            };
            lemma_tail_grows(after, folded, parent_precedence);
            lemma_no_more(state.diagnostics, after.diagnostics, end.0.diagnostics);
            lemma_expression_without_diagnostics(bumped(state), precedence);
            lemma_tail_without_diagnostics(after, folded, parent_precedence);
        }
    }
}

} // verus!
