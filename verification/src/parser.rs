use vstd::prelude::*;
use vstd::string::StringExecFns;

use crate::ast::{ExpressionSyntax, ExpressionView};
use crate::binary64::{digit_char, digit_character};
use crate::lexer::{column_at, lemma_token_within, lex, line_at, Lexer};
use crate::span::Span;
use crate::syntax::{binary_precedence_of, kind_name, unary_precedence_of, SyntaxKind};
use crate::token::{Token, TokenView};

verus! {

/// Why no expression could be built.
#[derive(Debug, PartialEq, Eq, Clone, Copy, Structural)]
pub enum ParseError {
    /// A token stands where an expression has to begin.
    UnexpectedToken { kind: SyntaxKind, span: Span },
    /// The source ends where a token is needed.
    UnexpectedEndOfInput,
}

/// The tokens that the grammar sees: all but the whitespace.
pub open spec fn significant(tokens: Seq<TokenView>) -> Seq<TokenView>
    decreases tokens.len(),
{
    if tokens.len() == 0 {
        Seq::empty()
    } else if tokens[0].kind == SyntaxKind::WhitespaceToken {
        significant(tokens.drop_first())
    } else {
        seq![tokens[0]] + significant(tokens.drop_first())
    }
}

/// What a parser holds, as contracts see it.
pub struct ParserState {
    /// The tokens still to come, whitespace left out.
    pub tokens: Seq<TokenView>,
    /// The kinds that were looked for since a token was last consumed.
    pub expected: Seq<SyntaxKind>,
    /// The diagnostics so far, oldest first.
    pub diagnostics: Seq<Seq<char>>,
    /// The line and the column at which the source ends.
    pub end_line: usize,
    pub end_column: usize,
}

/// The state in which the parsing of a source text begins.
pub open spec fn initial_state(source: Seq<char>) -> ParserState {
    ParserState {
        tokens: significant(lex(source)),
        expected: Seq::empty(),
        diagnostics: Seq::empty(),
        end_line: line_at(source, source.len() as int) as usize,
        end_column: column_at(source, source.len() as int) as usize,
    }
}

/// The kind of the next token, if there is one.
pub open spec fn next_kind(state: ParserState) -> Option<SyntaxKind> {
    if state.tokens.len() > 0 {
        Some(state.tokens[0].kind)
    } else {
        None
    }
}

/// The state after the next token is consumed. At the end of the source
/// nothing is consumed; the kinds looked for are forgotten either way.
pub open spec fn bumped(state: ParserState) -> ParserState {
    ParserState {
        tokens: if state.tokens.len() > 0 {
            state.tokens.drop_first()
        } else {
            state.tokens
        },
        expected: Seq::empty(),
        ..state
    }
}

/// The state after the next token is held against `kinds`.
pub open spec fn checked(state: ParserState, kinds: Seq<SyntaxKind>) -> ParserState {
    ParserState { expected: state.expected + kinds, ..state }
}

/// Whether the next token is of one of `kinds`.
pub open spec fn check_holds(state: ParserState, kinds: Seq<SyntaxKind>) -> bool {
    state.tokens.len() > 0 && kinds.contains(state.tokens[0].kind)
}

/// A natural number in decimal digits, without leading zeros.
pub open spec fn decimal_text(n: nat) -> Seq<char>
    decreases n,
{
    if n < 10 {
        seq![digit_character(n)]
    } else {
        decimal_text(n / 10).push(digit_character(n % 10))
    }
}

/// What stands before the name of the kind at `i` in a list of `count`
/// kinds: nothing before the first, ` or ` before the last, else a comma.
pub open spec fn separator(count: int, i: int) -> Seq<char> {
    if i == 0 {
        Seq::empty()
    } else if i == count - 1 {
        " or "@
    } else {
        ", "@
    }
}

/// The names of the first `upto` of the kinds, with their separators.
pub open spec fn listed(kinds: Seq<SyntaxKind>, upto: int) -> Seq<char>
    decreases upto,
{
    if upto <= 0 {
        Seq::empty()
    } else {
        listed(kinds, upto - 1) + separator(kinds.len() as int, upto - 1) + kind_name(
            kinds[upto - 1],
        )
    }
}

/// The text of a diagnostic: the place and the kinds that were looked for
/// there.
pub open spec fn diagnostic(line: usize, column: usize, kinds: Seq<SyntaxKind>) -> Seq<char> {
    "at "@ + decimal_text(line as nat) + ":"@ + decimal_text(column as nat) + ": expected "@
        + listed(kinds, kinds.len() as int)
}

/// The state after a diagnostic is recorded for the next token, which is
/// consumed. The diagnostic gives the place of that token, or the end of
/// the source where none is left.
pub open spec fn reported(state: ParserState) -> ParserState {
    let (line, column) = if state.tokens.len() > 0 {
        (state.tokens[0].span.first_line, state.tokens[0].span.first_column)
    } else {
        (state.end_line, state.end_column)
    };
    ParserState {
        diagnostics: state.diagnostics.push(diagnostic(line, column, state.expected)),
        ..bumped(state)
    }
}

/// The state after a token of `kind` is asked for, and the token that
/// takes its place: the next token, whatever its kind, with a diagnostic
/// where the kind is another; none, with a diagnostic, at the end of the
/// source.
pub open spec fn expected_token(state: ParserState, kind: SyntaxKind) -> (
    ParserState,
    Option<TokenView>,
) {
    let looked = checked(state, seq![kind]);
    if check_holds(state, seq![kind]) {
        (bumped(looked), Some(state.tokens[0]))
    } else if state.tokens.len() > 0 {
        (reported(looked), Some(state.tokens[0]))
    } else {
        (reported(looked), None)
    }
}

/// The kinds of token that are literals.
pub open spec fn literal_kinds() -> Seq<SyntaxKind> {
    seq![SyntaxKind::NumberToken, SyntaxKind::TrueKeyword, SyntaxKind::FalseKeyword]
}

/// The failure that the next token, or its absence, is.
pub open spec fn failure_at(state: ParserState) -> ParseError {
    if state.tokens.len() > 0 {
        ParseError::UnexpectedToken { kind: state.tokens[0].kind, span: state.tokens[0].span }
    } else {
        ParseError::UnexpectedEndOfInput
    }
}

/// A literal, or an expression in parentheses. Anything else is a failure,
/// recorded as a diagnostic that names the four kinds looked for.
pub open spec fn primary_expression(state: ParserState) -> (
    ParserState,
    Result<ExpressionView, ParseError>,
)
    decreases state.tokens.len(), 1nat,
{
    let looked = checked(state, literal_kinds());
    if check_holds(state, literal_kinds()) {
        (bumped(looked), Ok(ExpressionView::Literal { literal_token: state.tokens[0] }))
    } else {
        let looked = checked(looked, seq![SyntaxKind::LeftParenthesisToken]);
        if check_holds(state, seq![SyntaxKind::LeftParenthesisToken]) {
            let (after, inner) = expression(bumped(looked), 0);
            match inner {
                Err(error) => (after, Err(error)),
                Ok(inner) => {
                    let (closed, right) = expected_token(
                        after,
                        SyntaxKind::RightParenthesisToken,
                    );
                    match right {
                        Some(right) => (
                            closed,
                            Ok(
                                ExpressionView::Parenthesized {
                                    left_parenthesis_token: state.tokens[0],
                                    expression: Box::new(inner),
                                    right_parenthesis_token: right,
                                },
                            ),
                        ),
                        None => (closed, Err(ParseError::UnexpectedEndOfInput)),
                    }
                },
            }
        } else {
            (reported(looked), Err(failure_at(state)))
        }
    }
}

/// The binding power of the next token as a prefix operator: zero where it
/// is none, or where no token is left.
pub open spec fn next_unary_precedence(state: ParserState) -> nat {
    match next_kind(state) {
        Some(kind) => unary_precedence_of(kind),
        None => 0,
    }
}

/// The binding power of the next token as a binary operator: zero where it
/// is none, or where no token is left.
pub open spec fn next_binary_precedence(state: ParserState) -> nat {
    match next_kind(state) {
        Some(kind) => binary_precedence_of(kind),
        None => 0,
    }
}

/// An expression whose binary operators all bind tighter than
/// `parent_precedence`: precedence climbing.
///
/// A prefix operator that binds at least as tight as `parent_precedence`
/// takes as its operand an expression above its own binding power;
/// otherwise the expression begins with a primary expression. The operators
/// that follow are folded onto it from the left.
pub open spec fn expression(state: ParserState, parent_precedence: nat) -> (
    ParserState,
    Result<ExpressionView, ParseError>,
)
    decreases state.tokens.len(), 2nat,
{
    let unary = next_unary_precedence(state);
    let (after, left) = if unary != 0 && unary >= parent_precedence {
        let (after, operand) = expression(bumped(state), unary);
        match operand {
            Ok(operand) => (
                after,
                Ok(
                    ExpressionView::Unary {
                        operator_token: state.tokens[0],
                        right: Box::new(operand),
                    },
                ),
            ),
            Err(error) => (after, Err(error)),
        }
    } else {
        primary_expression(state)
    };
    match left {
        Err(error) => (after, Err(error)),
        Ok(left) => if after.tokens.len() <= state.tokens.len() {
            binary_tail(after, left, parent_precedence)
        } else {
            (after, Ok(left))
        },
    }
}

/// The operators that follow `left`, folded onto it from the left: while
/// the next token is a binary operator that binds tighter than
/// `parent_precedence`, it is consumed with an expression above its own
/// binding power as its right operand.
///
/// The two tests on the number of tokens, here and in `expression`, serve
/// to show that the definition ends; `lemma_expression_never_longer` and its fellows show that they
/// always hold.
pub open spec fn binary_tail(state: ParserState, left: ExpressionView, parent_precedence: nat) -> (
    ParserState,
    Result<ExpressionView, ParseError>,
)
    decreases state.tokens.len(), 0nat,
{
    let precedence = next_binary_precedence(state);
    if precedence == 0 || precedence <= parent_precedence {
        (state, Ok(left))
    } else {
        let (after, right) = expression(bumped(state), precedence);
        match right {
            Err(error) => (after, Err(error)),
            Ok(right) => {
                let folded = ExpressionView::Binary {
                    left: Box::new(left),
                    operator_token: state.tokens[0],
                    right: Box::new(right),
                };
                if after.tokens.len() < state.tokens.len() {
                    binary_tail(after, folded, parent_precedence)
                } else {
                    (after, Ok(folded))
                }
            },
        }
    }
}

/// The parse of a whole source text: the state in which the parser is left,
/// and the tree or the failure.
pub open spec fn parse_of(source: Seq<char>) -> (ParserState, Result<ExpressionView, ParseError>) {
    expression(initial_state(source), 0)
}

/// A primary expression leaves no more tokens than it found.
pub proof fn lemma_primary_never_longer(state: ParserState)
    ensures
        primary_expression(state).0.tokens.len() <= state.tokens.len(),
    decreases state.tokens.len(), 1nat,
{
    let looked = checked(state, literal_kinds());
    if !check_holds(state, literal_kinds()) {
        let looked = checked(looked, seq![SyntaxKind::LeftParenthesisToken]);
        if check_holds(state, seq![SyntaxKind::LeftParenthesisToken]) {
            lemma_expression_never_longer(bumped(looked), 0);
        }
    }
}

/// Parsing never leaves more tokens than it found.
pub proof fn lemma_expression_never_longer(state: ParserState, parent_precedence: nat)
    ensures
        expression(state, parent_precedence).0.tokens.len() <= state.tokens.len(),
    decreases state.tokens.len(), 2nat,
{
    let unary = next_unary_precedence(state);
    if unary != 0 && unary >= parent_precedence {
        lemma_expression_never_longer(bumped(state), unary);
        let (after, operand) = expression(bumped(state), unary);
        if let Ok(operand) = operand {
            lemma_tail_never_longer(
                after,
                ExpressionView::Unary { operator_token: state.tokens[0], right: Box::new(operand) },
                parent_precedence,
            );
        }
    } else {
        lemma_primary_never_longer(state);
        let (after, left) = primary_expression(state);
        if let Ok(left) = left {
            lemma_tail_never_longer(after, left, parent_precedence);
        }
    }
}

/// Folding operators onto a left operand leaves no more tokens than it
/// found.
pub proof fn lemma_tail_never_longer(state: ParserState, left: ExpressionView, parent_precedence: nat)
    ensures
        binary_tail(state, left, parent_precedence).0.tokens.len() <= state.tokens.len(),
    decreases state.tokens.len(), 0nat,
{
    let precedence = next_binary_precedence(state);
    if !(precedence == 0 || precedence <= parent_precedence) {
        lemma_expression_never_longer(bumped(state), precedence);
        let (after, right) = expression(bumped(state), precedence);
        if let Ok(right) = right {
            let folded = ExpressionView::Binary {
                left: Box::new(left),
                operator_token: state.tokens[0],
                right: Box::new(right),
            };
            lemma_tail_never_longer(after, folded, parent_precedence);
        }
    }
}

/// Parsing is a function of the source: whenever the same text is parsed,
/// the same diagnostics come in the same order, with the same tree or the
/// same failure.
pub proof fn lemma_parse_repeats(
    source: Seq<char>,
    first: (ParserState, Result<ExpressionView, ParseError>),
    second: (ParserState, Result<ExpressionView, ParseError>),
)
    requires
        first == expression(initial_state(source), 0),
        second == expression(initial_state(source), 0),
    ensures
        first.0.diagnostics == second.0.diagnostics,
        first.1 == second.1,
{
}

proof fn lemma_prefix_chain(a: Seq<Seq<char>>, b: Seq<Seq<char>>, c: Seq<Seq<char>>)
    requires
        a.is_prefix_of(b),
        b.is_prefix_of(c),
    ensures
        a.is_prefix_of(c),
{
    assert(a =~= c.subrange(0, a.len() as int)) by {
        assert(a =~= b.subrange(0, a.len() as int));
        assert(b =~= c.subrange(0, b.len() as int));
    }
}

/// A primary expression adds diagnostics to those that are there and
/// takes none away.
pub proof fn lemma_primary_grows(state: ParserState)
    ensures
        state.diagnostics.is_prefix_of(primary_expression(state).0.diagnostics),
    decreases state.tokens.len(), 1nat,
{
    let looked = checked(state, literal_kinds());
    if !check_holds(state, literal_kinds()) {
        let looked = checked(looked, seq![SyntaxKind::LeftParenthesisToken]);
        if check_holds(state, seq![SyntaxKind::LeftParenthesisToken]) {
            lemma_expression_grows(bumped(looked), 0);
            let (after, inner) = expression(bumped(looked), 0);
            let closed = expected_token(after, SyntaxKind::RightParenthesisToken).0;
            assert(after.diagnostics.is_prefix_of(closed.diagnostics));
            lemma_prefix_chain(state.diagnostics, after.diagnostics, closed.diagnostics);
        }
    }
}

/// Parsing adds diagnostics to those that are there and takes none away.
pub proof fn lemma_expression_grows(state: ParserState, parent_precedence: nat)
    ensures
        state.diagnostics.is_prefix_of(expression(state, parent_precedence).0.diagnostics),
    decreases state.tokens.len(), 2nat,
{
    let unary = next_unary_precedence(state);
    if unary != 0 && unary >= parent_precedence {
        lemma_expression_grows(bumped(state), unary);
        lemma_expression_never_longer(bumped(state), unary);
        let (after, operand) = expression(bumped(state), unary);
        if let Ok(operand) = operand {
            let left = ExpressionView::Unary {
                operator_token: state.tokens[0],
                right: Box::new(operand),
            };
            lemma_tail_grows(after, left, parent_precedence);
            lemma_prefix_chain(
                state.diagnostics,
                after.diagnostics,
                binary_tail(after, left, parent_precedence).0.diagnostics,
            );
        }
    } else {
        lemma_primary_grows(state);
        lemma_primary_never_longer(state);
        let (after, left) = primary_expression(state);
        if let Ok(left) = left {
            lemma_tail_grows(after, left, parent_precedence);
            lemma_prefix_chain(
                state.diagnostics,
                after.diagnostics,
                binary_tail(after, left, parent_precedence).0.diagnostics,
            );
        }
    }
}

/// Folding operators onto a left operand adds diagnostics to those that
/// are there and takes none away.
pub proof fn lemma_tail_grows(state: ParserState, left: ExpressionView, parent_precedence: nat)
    ensures
        state.diagnostics.is_prefix_of(binary_tail(state, left, parent_precedence).0.diagnostics),
    decreases state.tokens.len(), 0nat,
{
    let precedence = next_binary_precedence(state);
    if !(precedence == 0 || precedence <= parent_precedence) {
        lemma_expression_grows(bumped(state), precedence);
        lemma_expression_never_longer(bumped(state), precedence);
        let (after, right) = expression(bumped(state), precedence);
        if let Ok(right) = right {
            let folded = ExpressionView::Binary {
                left: Box::new(left),
                operator_token: state.tokens[0],
                right: Box::new(right),
            };
            lemma_tail_grows(after, folded, parent_precedence);
            lemma_prefix_chain(
                state.diagnostics,
                after.diagnostics,
                binary_tail(after, folded, parent_precedence).0.diagnostics,
            );
        }
    }
}

/// Whether every token of a sequence has a property.
pub open spec fn every(tokens: Seq<TokenView>, property: spec_fn(TokenView) -> bool) -> bool {
    forall|i: int| 0 <= i < tokens.len() ==> property(#[trigger] tokens[i])
}

/// Whether every token of a tree has a property.
pub open spec fn every_token(tree: ExpressionView, property: spec_fn(TokenView) -> bool) -> bool
    decreases tree,
{
    match tree {
        ExpressionView::Literal { literal_token } => property(literal_token),
        ExpressionView::Binary { left, operator_token, right } => every_token(*left, property)
            && property(operator_token) && every_token(*right, property),
        ExpressionView::Unary { operator_token, right } => property(operator_token)
            && every_token(*right, property),
        ExpressionView::Parenthesized {
            left_parenthesis_token,
            expression,
            right_parenthesis_token,
        } => property(left_parenthesis_token) && every_token(*expression, property) && property(
            right_parenthesis_token,
        ),
    }
}

/// What holds of every token holds of those that the grammar sees.
pub proof fn lemma_significant_keeps(tokens: Seq<TokenView>, property: spec_fn(TokenView) -> bool)
    requires
        every(tokens, property),
    ensures
        every(significant(tokens), property),
    decreases tokens.len(),
{
    if tokens.len() > 0 {
        assert forall|i: int| 0 <= i < tokens.drop_first().len() implies property(
            #[trigger] tokens.drop_first()[i],
        ) by {
            assert(tokens.drop_first()[i] == tokens[i + 1]);
        }
        lemma_significant_keeps(tokens.drop_first(), property);
        assert(property(tokens[0]));
    }
}

proof fn lemma_bumped_keeps(state: ParserState, property: spec_fn(TokenView) -> bool)
    requires
        every(state.tokens, property),
    ensures
        every(bumped(state).tokens, property),
        every(reported(state).tokens, property),
        state.tokens.len() > 0 ==> property(state.tokens[0]),
{
    if state.tokens.len() > 0 {
        assert forall|i: int| 0 <= i < state.tokens.drop_first().len() implies property(
            #[trigger] state.tokens.drop_first()[i],
        ) by {
            assert(state.tokens.drop_first()[i] == state.tokens[i + 1]);
        }
    }
}

/// What holds of every token that is to come holds of every token of a
/// primary expression that is parsed from them, and of every token left.
pub proof fn lemma_primary_of_the_tokens(state: ParserState, property: spec_fn(TokenView) -> bool)
    requires
        every(state.tokens, property),
    ensures
        every(primary_expression(state).0.tokens, property),
        primary_expression(state).1 matches Ok(tree) ==> every_token(tree, property),
    decreases state.tokens.len(), 1nat,
{
    let looked = checked(state, literal_kinds());
    lemma_bumped_keeps(looked, property);
    if !check_holds(state, literal_kinds()) {
        let looked = checked(looked, seq![SyntaxKind::LeftParenthesisToken]);
        lemma_bumped_keeps(looked, property);
        if check_holds(state, seq![SyntaxKind::LeftParenthesisToken]) {
            lemma_expression_of_the_tokens(bumped(looked), 0, property);
            let (after, inner) = expression(bumped(looked), 0);
            lemma_bumped_keeps(checked(after, seq![SyntaxKind::RightParenthesisToken]), property);
        }
    }
}

/// A tree is made of tokens of the source and of nothing else: what holds
/// of every token that is to come holds of every token of the tree that is
/// parsed from them, and of every token that is left.
pub proof fn lemma_expression_of_the_tokens(
    state: ParserState,
    parent_precedence: nat,
    property: spec_fn(TokenView) -> bool,
)
    requires
        every(state.tokens, property),
    ensures
        every(expression(state, parent_precedence).0.tokens, property),
        expression(state, parent_precedence).1 matches Ok(tree) ==> every_token(tree, property),
    decreases state.tokens.len(), 2nat,
{
    let unary = next_unary_precedence(state);
    lemma_bumped_keeps(state, property);
    if unary != 0 && unary >= parent_precedence {
        lemma_expression_of_the_tokens(bumped(state), unary, property);
        lemma_expression_never_longer(bumped(state), unary);
        let (after, operand) = expression(bumped(state), unary);
        if let Ok(operand) = operand {
            let left = ExpressionView::Unary {
                operator_token: state.tokens[0],
                right: Box::new(operand),
            };
            lemma_tail_of_the_tokens(after, left, parent_precedence, property);
        }
    } else {
        lemma_primary_of_the_tokens(state, property);
        lemma_primary_never_longer(state);
        let (after, left) = primary_expression(state);
        if let Ok(left) = left {
            lemma_tail_of_the_tokens(after, left, parent_precedence, property);
        }
    }
}

/// What holds of every token that is to come and of every token of the
/// left operand holds of every token of the tree that the operators after
/// it make, and of every token that is left.
pub proof fn lemma_tail_of_the_tokens(
    state: ParserState,
    left: ExpressionView,
    parent_precedence: nat,
    property: spec_fn(TokenView) -> bool,
)
    requires
        every(state.tokens, property),
        every_token(left, property),
    ensures
        every(binary_tail(state, left, parent_precedence).0.tokens, property),
        binary_tail(state, left, parent_precedence).1 matches Ok(tree) ==> every_token(
            tree,
            property,
        ),
    decreases state.tokens.len(), 0nat,
{
    let precedence = next_binary_precedence(state);
    if !(precedence == 0 || precedence <= parent_precedence) {
        lemma_bumped_keeps(state, property);
        lemma_expression_of_the_tokens(bumped(state), precedence, property);
        lemma_expression_never_longer(bumped(state), precedence);
        let (after, right) = expression(bumped(state), precedence);
        if let Ok(right) = right {
            let folded = ExpressionView::Binary {
                left: Box::new(left),
                operator_token: state.tokens[0],
                right: Box::new(right),
            };
            lemma_tail_of_the_tokens(after, folded, parent_precedence, property);
        }
    }
}

/// The outcome of a parse as contracts see it.
pub open spec fn outcome_view(outcome: Result<ExpressionSyntax, ParseError>) -> Result<
    ExpressionView,
    ParseError,
> {
    match outcome {
        Ok(tree) => Ok(tree@),
        Err(error) => Err(error),
    }
}

/// A token that may be there, as contracts see it.
pub open spec fn token_view(token: Option<Token>) -> Option<TokenView> {
    match token {
        Some(token) => Some(token@),
        None => None,
    }
}

/// Appends a number in decimal digits.
fn push_decimal(text: &mut String, n: usize)
    ensures
        final(text)@ == old(text)@ + decimal_text(n as nat),
    decreases n,
{
    let ghost before = text@;
    if n >= 10 {
        push_decimal(text, n / 10);
    }
    let c: char = digit_char((n % 10) as u64);
    text.push(c);
    assert(text@ =~= before + decimal_text(n as nat));
}

/// The text of a diagnostic.
fn diagnostic_text(line: usize, column: usize, kinds: &Vec<SyntaxKind>) -> (message: String)
    ensures
        message@ == diagnostic(line, column, kinds@),
{
    let mut message: String = String::from_str("at ");
    push_decimal(&mut message, line);
    message.append(":");
    push_decimal(&mut message, column);
    message.append(": expected ");
    let ghost head = message@;
    assert(message@ =~= head + listed(kinds@, 0));
    let mut i: usize = 0;
    while i < kinds.len()
        invariant
            i <= kinds.len(),
            message@ == head + listed(kinds@, i as int),
        decreases kinds.len() - i,
    {
        let ghost before = message@;
        if i == 0 {
        } else if i == kinds.len() - 1 {
            message.append(" or ");
        } else {
            message.append(", ");
        }
        assert(message@ =~= before + separator(kinds@.len() as int, i as int));
        message.append(kinds[i].name());
        assert(message@ =~= head + listed(kinds@, i + 1));
        i += 1;
    }
    message
}

/// Builds the syntax tree of a source text by precedence climbing, and
/// collects diagnostics on the way.
pub struct Parser {
    lexer: Lexer,
    peeked: Option<Token>,
    expected_kinds: Vec<SyntaxKind>,
    errors: Vec<String>,
}

impl View for Parser {
    type V = ParserState;

    closed spec fn view(&self) -> ParserState {
        ParserState {
            tokens: significant(self.stream()),
            expected: self.expected_kinds@,
            diagnostics: self.errors@.map_values(|text: String| text@),
            end_line: line_at(self.lexer.source(), self.lexer.source().len() as int) as usize,
            end_column: column_at(self.lexer.source(), self.lexer.source().len() as int) as usize,
        }
    }
}

impl Parser {
    /// The tokens still to come, whitespace included.
    closed spec fn stream(&self) -> Seq<TokenView> {
        match self.peeked {
            Some(token) => seq![token@] + self.lexer.remaining(),
            None => self.lexer.remaining(),
        }
    }

    /// The lexer of the parser agrees with the place that it has reached.
    pub closed spec fn well_formed(&self) -> bool {
        self.lexer.well_formed()
    }

    /// Whitespace is skipped: a token that is held is the next that the
    /// grammar sees, and none is held only at the end of the source.
    closed spec fn settled(&self) -> bool {
        match self.peeked {
            Some(token) => token.kind != SyntaxKind::WhitespaceToken && self@.tokens.len() > 0
                && self@.tokens[0] == token@,
            None => self@.tokens.len() == 0 && self.lexer.index() == self.lexer.source().len(),
        }
    }

    /// A parser at the beginning of a source text. The text has to be short
    /// enough for its lines and columns to be counted.
    pub fn new(source: &str) -> (parser: Self)
        requires
            source@.len() < usize::MAX,
        ensures
            parser.well_formed(),
            parser@ == initial_state(source@),
    {
        let parser = Self {
            lexer: Lexer::new(source),
            peeked: None,
            expected_kinds: Vec::new(),
            errors: Vec::new(),
        };
        assert(parser.errors@.map_values(|text: String| text@) =~= Seq::<Seq<char>>::empty());
        parser
    }

    /// The diagnostics so far, oldest first.
    pub fn diagnostics(&self) -> (diagnostics: &Vec<String>)
        ensures
            diagnostics@.map_values(|text: String| text@) == self@.diagnostics,
    {
        &self.errors
    }

    /// Gives up the parser for its diagnostics.
    pub fn into_diagnostics(self) -> (diagnostics: Vec<String>)
        ensures
            diagnostics@.map_values(|text: String| text@) == self@.diagnostics,
    {
        self.errors
    }

    /// Parses one expression.
    pub fn parse(&mut self) -> (outcome: Result<ExpressionSyntax, ParseError>)
        requires
            old(self).well_formed(),
        ensures
            final(self).well_formed(),
            (final(self)@, outcome_view(outcome)) == expression(old(self)@, 0),
    {
        self.parse_expression(0)
    }

    fn parse_expression(&mut self, parent_precedence: usize) -> (outcome: Result<
        ExpressionSyntax,
        ParseError,
    >)
        requires
            old(self).well_formed(),
        ensures
            final(self).well_formed(),
            (final(self)@, outcome_view(outcome)) == expression(
                old(self)@,
                parent_precedence as nat,
            ),
        decreases old(self)@.tokens.len(), 2nat,
    {
        let ghost start = self@;
        let unary: usize = match self.peek() {
            Some(kind) => kind.unary_precedence(),
            None => 0,
        };
        let mut left: ExpressionSyntax = if unary != 0 && unary >= parent_precedence {
            let operator_token: Token = match self.bump() {
                Some(token) => token,
                None => {
                    return Err(ParseError::UnexpectedEndOfInput);
                },
            };
            match self.parse_expression(unary) {
                Ok(operand) => ExpressionSyntax::Unary { operator_token, right: Box::new(operand) },
                Err(error) => {
                    return Err(error);
                },
            }
        } else {
            match self.parse_primary_expression() {
                Ok(primary) => primary,
                Err(error) => {
                    return Err(error);
                },
            }
        };
        proof {
            lemma_primary_never_longer(start);
            lemma_expression_never_longer(bumped(start), unary as nat);
        }
        loop
            invariant
                self.well_formed(),
                start == old(self)@,
                self@.tokens.len() <= start.tokens.len(),
                expression(start, parent_precedence as nat) == binary_tail(
                    self@,
                    left@,
                    parent_precedence as nat,
                ),
            ensures
                self.well_formed(),
                (self@, Ok::<ExpressionView, ParseError>(left@)) == expression(
                    start,
                    parent_precedence as nat,
                ),
            decreases self@.tokens.len(),
        {
            let ghost here = self@;
            let precedence: usize = match self.peek() {
                Some(kind) => kind.binary_precedence(),
                None => 0,
            };
            if precedence == 0 || precedence <= parent_precedence {
                break ;
            }
            let operator_token: Token = match self.bump() {
                Some(token) => token,
                None => {
                    return Err(ParseError::UnexpectedEndOfInput);
                },
            };
            proof {
                lemma_expression_never_longer(bumped(here), precedence as nat);
            }
            let right: ExpressionSyntax = match self.parse_expression(precedence) {
                Ok(right) => right,
                Err(error) => {
                    return Err(error);
                },
            };
            left =
            ExpressionSyntax::Binary { left: Box::new(left), operator_token, right: Box::new(right) };
        }
        Ok(left)
    }

    fn parse_primary_expression(&mut self) -> (outcome: Result<ExpressionSyntax, ParseError>)
        requires
            old(self).well_formed(),
        ensures
            final(self).well_formed(),
            (final(self)@, outcome_view(outcome)) == primary_expression(old(self)@),
        decreases old(self)@.tokens.len(), 1nat,
    {
        let ghost start = self@;
        assert([SyntaxKind::NumberToken, SyntaxKind::TrueKeyword, SyntaxKind::FalseKeyword]@
            =~= literal_kinds());
        assert([SyntaxKind::LeftParenthesisToken]@ =~= seq![SyntaxKind::LeftParenthesisToken]);
        if self.check(
            &[SyntaxKind::NumberToken, SyntaxKind::TrueKeyword, SyntaxKind::FalseKeyword],
        ) {
            match self.bump() {
                Some(literal_token) => Ok(ExpressionSyntax::Literal { literal_token }),
                None => Err(ParseError::UnexpectedEndOfInput),
            }
        } else if self.check(&[SyntaxKind::LeftParenthesisToken]) {
            let left_parenthesis_token: Token = match self.bump() {
                Some(token) => token,
                None => {
                    return Err(ParseError::UnexpectedEndOfInput);
                },
            };
            let expression: ExpressionSyntax = match self.parse_expression(0) {
                Ok(expression) => expression,
                Err(error) => {
                    return Err(error);
                },
            };
            match self.expect(SyntaxKind::RightParenthesisToken) {
                Some(right_parenthesis_token) => Ok(
                    ExpressionSyntax::Parenthesized {
                        left_parenthesis_token,
                        expression: Box::new(expression),
                        right_parenthesis_token,
                    },
                ),
                None => Err(ParseError::UnexpectedEndOfInput),
            }
        } else {
            match self.error() {
                Some(token) => Err(ParseError::UnexpectedToken { kind: token.kind, span: token.span }),
                None => Err(ParseError::UnexpectedEndOfInput),
            }
        }
    }

    /// The kind of the next token that is no whitespace.
    fn peek(&mut self) -> (kind: Option<SyntaxKind>)
        requires
            old(self).well_formed(),
        ensures
            final(self).well_formed(),
            final(self)@ == old(self)@,
            kind == next_kind(old(self)@),
    {
        self.eat_whitespace();
        match &self.peeked {
            Some(token) => Some(token.kind),
            None => None,
        }
    }

    /// Notes that `kinds` are looked for, and tells whether the next token
    /// is of one of them.
    fn check(&mut self, kinds: &[SyntaxKind]) -> (found: bool)
        requires
            old(self).well_formed(),
        ensures
            final(self).well_formed(),
            final(self)@ == checked(old(self)@, kinds@),
            found == check_holds(old(self)@, kinds@),
    {
        self.eat_whitespace();
        let ghost before = self.expected_kinds@;
        let mut found: bool = false;
        let mut i: usize = 0;
        assert(self.expected_kinds@ =~= before + kinds@.take(0));
        while i < kinds.len()
            invariant
                i <= kinds.len(),
                self.well_formed(),
                self.settled(),
                self@ == (ParserState { expected: before + kinds@.take(i as int), ..old(self)@ }),
                found == (self@.tokens.len() > 0 && kinds@.take(i as int).contains(
                    self@.tokens[0].kind,
                )),
            decreases kinds.len() - i,
        {
            let kind: SyntaxKind = kinds[i];
            self.expected_kinds.push(kind);
            let here: bool = match &self.peeked {
                Some(token) => token.kind == kind,
                None => false,
            };
            proof {
                assert(kinds@.take(i + 1) =~= kinds@.take(i as int).push(kind));
                assert(self.expected_kinds@ =~= before + kinds@.take(i + 1));
                if here {
                    assert(kinds@.take(i + 1)[i as int] == kind);
                }
            }
            found = found || here;
            i += 1;
        }
        assert(kinds@.take(i as int) =~= kinds@);
        found
    }

    /// Consumes a token of `kind`. A token of another kind is consumed in
    /// its place, with a diagnostic.
    fn expect(&mut self, kind: SyntaxKind) -> (token: Option<Token>)
        requires
            old(self).well_formed(),
        ensures
            final(self).well_formed(),
            (final(self)@, token_view(token)) == expected_token(old(self)@, kind),
    {
        assert([kind]@ =~= seq![kind]);
        if self.check(&[kind]) {
            self.bump()
        } else {
            self.error()
        }
    }

    /// Consumes the next token that is no whitespace.
    fn bump(&mut self) -> (token: Option<Token>)
        requires
            old(self).well_formed(),
        ensures
            final(self).well_formed(),
            final(self)@ == bumped(old(self)@),
            token_view(token) == if old(self)@.tokens.len() > 0 {
                Some(old(self)@.tokens[0])
            } else {
                None
            },
    {
        self.eat_whitespace();
        self.expected_kinds.clear();
        let mut token: Option<Token> = None;
        core::mem::swap(&mut self.peeked, &mut token);
        proof {
            if token is Some {
                let held = token->0;
                assert((seq![held@] + self.lexer.remaining()).drop_first()
                    =~= self.lexer.remaining());
                assert((seq![held@] + significant(self.lexer.remaining())).drop_first()
                    =~= significant(self.lexer.remaining()));
            }
            assert(self.expected_kinds@ =~= Seq::<SyntaxKind>::empty());
        }
        token
    }

    /// Drops the whitespace that stands before the next token.
    fn eat_whitespace(&mut self)
        requires
            old(self).well_formed(),
        ensures
            final(self).well_formed(),
            final(self).settled(),
            final(self)@ == old(self)@,
    {
        loop
            invariant
                self.well_formed(),
                self@ == old(self)@,
            ensures
                self.well_formed(),
                self.settled(),
                self@ == old(self)@,
            decreases
                    self.lexer.source().len() - self.lexer.index() + if self.peeked is Some {
                        1int
                    } else {
                        0
                    },
        {
            proof {
                self.lexer.lemma_index_within();
                if self.lexer.index() < self.lexer.source().len() {
                    lemma_token_within(self.lexer.source(), self.lexer.index());
                }
            }
            if self.peeked.is_none() {
                self.peeked = self.lexer.next();
            }
            let blank: bool = match &self.peeked {
                Some(token) => token.kind == SyntaxKind::WhitespaceToken,
                None => false,
            };
            if !blank {
                proof {
                    if self.peeked is Some {
                        let held = self.peeked->0;
                        assert((seq![held@] + self.lexer.remaining()).drop_first()
                            =~= self.lexer.remaining());
                    }
                }
                break ;
            }
            proof {
                let held = self.peeked->0;
                assert((seq![held@] + self.lexer.remaining()).drop_first()
                    =~= self.lexer.remaining());
            }
            self.peeked = None;
        }
    }

    /// Records a diagnostic for the next token and consumes it.
    fn error(&mut self) -> (token: Option<Token>)
        requires
            old(self).well_formed(),
        ensures
            final(self).well_formed(),
            final(self)@ == reported(old(self)@),
            token_view(token) == if old(self)@.tokens.len() > 0 {
                Some(old(self)@.tokens[0])
            } else {
                None
            },
    {
        self.eat_whitespace();
        let (line, column) = match &self.peeked {
            Some(token) => (token.span.first_line, token.span.first_column),
            None => (self.lexer.line_number(), self.lexer.column_offset()),
        };
        let message: String = diagnostic_text(line, column, &self.expected_kinds);
        let ghost before = self.errors@.map_values(|text: String| text@);
        let token: Option<Token> = self.bump();
        self.errors.push(message);
        proof {
            assert(self.errors@.map_values(|text: String| text@) =~= before.push(message@));
        }
        token
    }
}

} // verus!
