use vstd::prelude::*;

use crate::object::DumbBrainObject;
use crate::span::Span;
use crate::syntax::SyntaxKind;

verus! {

/// One lexeme of the source with its place in it. `value` is set on number
/// and boolean literals only.
#[derive(Debug, PartialEq)]
pub struct Token {
    pub kind: SyntaxKind,
    pub position: usize,
    pub text: String,
    pub value: Option<DumbBrainObject>,
    pub span: Span,
}

/// What a token is in contracts: the token with its text as a sequence of
/// characters.
pub struct TokenView {
    pub kind: SyntaxKind,
    pub position: usize,
    pub text: Seq<char>,
    pub value: Option<DumbBrainObject>,
    pub span: Span,
}

impl View for Token {
    type V = TokenView;

    open spec fn view(&self) -> TokenView {
        TokenView {
            kind: self.kind,
            position: self.position,
            text: self.text@,
            value: self.value,
            span: self.span,
        }
    }
}

impl Clone for Token {
    fn clone(&self) -> (r: Self)
        ensures
            r == *self,
    {
        Token {
            kind: self.kind,
            position: self.position,
            text: self.text.clone(),
            value: self.value,
            span: self.span,
        }
    }
}

impl Token {
    /// A token of these parts.
    pub fn new(
        kind: SyntaxKind,
        position: usize,
        text: String,
        value: Option<DumbBrainObject>,
        span: Span,
    ) -> (token: Self)
        ensures
            token == (Token { kind, position, text, value, span }),
    {
        Self { kind, position, text, value, span }
    }
}

} // verus!
