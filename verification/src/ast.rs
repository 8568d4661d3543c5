use vstd::prelude::*;

use crate::object::DumbBrainObject;
use crate::syntax::SyntaxKind;
use crate::token::{Token, TokenView};

verus! {

/// A syntax tree as the parser builds it.
#[derive(Debug, PartialEq)]
pub enum ExpressionSyntax {
    Literal { literal_token: Token },
    Binary { left: Box<ExpressionSyntax>, operator_token: Token, right: Box<ExpressionSyntax> },
    Unary { operator_token: Token, right: Box<ExpressionSyntax> },
    Parenthesized {
        left_parenthesis_token: Token,
        expression: Box<ExpressionSyntax>,
        right_parenthesis_token: Token,
    },
}

/// What a syntax tree is in contracts: the tree over the views of its
/// tokens.
pub enum ExpressionView {
    Literal { literal_token: TokenView },
    Binary { left: Box<ExpressionView>, operator_token: TokenView, right: Box<ExpressionView> },
    Unary { operator_token: TokenView, right: Box<ExpressionView> },
    Parenthesized {
        left_parenthesis_token: TokenView,
        expression: Box<ExpressionView>,
        right_parenthesis_token: TokenView,
    },
}

impl ExpressionView {
    /// The number of nodes of the tree.
    pub open spec fn size(self) -> nat
        decreases self,
    {
        match self {
            ExpressionView::Literal { .. } => 1,
            ExpressionView::Binary { left, right, .. } => 1 + left.size() + right.size(),
            ExpressionView::Unary { right, .. } => 1 + right.size(),
            ExpressionView::Parenthesized { expression, .. } => 1 + expression.size(),
        }
    }
}

impl View for ExpressionSyntax {
    type V = ExpressionView;

    open spec fn view(&self) -> ExpressionView
        decreases self,
    {
        match self {
            ExpressionSyntax::Literal { literal_token } => ExpressionView::Literal {
                literal_token: literal_token@,
            },
            ExpressionSyntax::Binary { left, operator_token, right } => ExpressionView::Binary {
                left: Box::new((**left).view()),
                operator_token: operator_token@,
                right: Box::new((**right).view()),
            },
            ExpressionSyntax::Unary { operator_token, right } => ExpressionView::Unary {
                operator_token: operator_token@,
                right: Box::new((**right).view()),
            },
            ExpressionSyntax::Parenthesized {
                left_parenthesis_token,
                expression,
                right_parenthesis_token,
            } => ExpressionView::Parenthesized {
                left_parenthesis_token: left_parenthesis_token@,
                expression: Box::new((**expression).view()),
                right_parenthesis_token: right_parenthesis_token@,
            },
        }
    }
}

/// A node of a syntax tree as one who walks the tree meets it: a token or
/// an expression.
#[derive(Debug, Clone, Copy)]
pub enum SyntaxNode<'a> {
    Token(&'a Token),
    Expression(&'a ExpressionSyntax),
}

/// The kind under which an expression is shown.
pub open spec fn expression_kind(expression: &ExpressionSyntax) -> SyntaxKind {
    match expression {
        ExpressionSyntax::Literal { .. } => SyntaxKind::LiteralExpression,
        ExpressionSyntax::Binary { .. } => SyntaxKind::BinaryExpression,
        ExpressionSyntax::Unary { .. } => SyntaxKind::UnaryExpression,
        ExpressionSyntax::Parenthesized { .. } => SyntaxKind::ParenthesizedExpression,
    }
}

/// The tokens and expressions of which an expression is made, in the
/// order of the source.
pub open spec fn expression_children<'a>(expression: &'a ExpressionSyntax) -> Seq<SyntaxNode<'a>> {
    match expression {
        ExpressionSyntax::Literal { literal_token } => seq![SyntaxNode::Token(literal_token)],
        ExpressionSyntax::Binary { left, operator_token, right } => seq![
            SyntaxNode::Expression(&**left),
            SyntaxNode::Token(operator_token),
            SyntaxNode::Expression(&**right),
        ],
        ExpressionSyntax::Unary { operator_token, right } => seq![
            SyntaxNode::Token(operator_token),
            SyntaxNode::Expression(&**right),
        ],
        ExpressionSyntax::Parenthesized {
            left_parenthesis_token,
            expression,
            right_parenthesis_token,
        } => seq![
            SyntaxNode::Token(left_parenthesis_token),
            SyntaxNode::Expression(&**expression),
            SyntaxNode::Token(right_parenthesis_token),
        ],
    }
}

impl Token {
    /// The kind of the token.
    pub fn kind(&self) -> (kind: SyntaxKind)
        ensures
            kind == self.kind,
    {
        self.kind
    }

    /// A token has no parts.
    pub fn children(&self) -> (children: Vec<SyntaxNode<'_>>)
        ensures
            children@.len() == 0,
    {
        Vec::new()
    }

    /// The value that the token carries, if it carries one.
    pub fn value(&self) -> (value: Option<&DumbBrainObject>)
        ensures
            value == match self.value {
                Some(object) => Some(&object),
                None => None,
            },
    {
        self.value.as_ref()
    }
}

impl Clone for ExpressionSyntax {
    fn clone(&self) -> (copy: Self)
        ensures
            copy@ == self@,
    {
        self.duplicate()
    }
}

impl ExpressionSyntax {
    /// A tree of the same tokens.
    fn duplicate(&self) -> (copy: Self)
        ensures
            copy@ == self@,
        decreases self,
    {
        match self {
            ExpressionSyntax::Literal { literal_token } => ExpressionSyntax::Literal {
                literal_token: literal_token.clone(),
            },
            ExpressionSyntax::Binary { left, operator_token, right } => ExpressionSyntax::Binary {
                left: Box::new(left.duplicate()),
                operator_token: operator_token.clone(),
                right: Box::new(right.duplicate()),
            },
            ExpressionSyntax::Unary { operator_token, right } => ExpressionSyntax::Unary {
                operator_token: operator_token.clone(),
                right: Box::new(right.duplicate()),
            },
            ExpressionSyntax::Parenthesized {
                left_parenthesis_token,
                expression,
                right_parenthesis_token,
            } => ExpressionSyntax::Parenthesized {
                left_parenthesis_token: left_parenthesis_token.clone(),
                expression: Box::new(expression.duplicate()),
                right_parenthesis_token: right_parenthesis_token.clone(),
            },
        }
    }

    /// The kind under which the expression is shown.
    pub fn kind(&self) -> (kind: SyntaxKind)
        ensures
            kind == expression_kind(self),
    {
        match self {
            ExpressionSyntax::Literal { .. } => SyntaxKind::LiteralExpression,
            ExpressionSyntax::Binary { .. } => SyntaxKind::BinaryExpression,
            ExpressionSyntax::Unary { .. } => SyntaxKind::UnaryExpression,
            ExpressionSyntax::Parenthesized { .. } => SyntaxKind::ParenthesizedExpression,
        }
    }

    /// The tokens and expressions of which the expression is made, in the
    /// order of the source.
    pub fn children(&self) -> (children: Vec<SyntaxNode<'_>>)
        ensures
            children@ == expression_children(self),
    {
        let mut children: Vec<SyntaxNode<'_>> = Vec::new();
        match self {
            ExpressionSyntax::Literal { literal_token } => {
                children.push(SyntaxNode::Token(literal_token));
            },
            ExpressionSyntax::Binary { left, operator_token, right } => {
                children.push(SyntaxNode::Expression(left));
                children.push(SyntaxNode::Token(operator_token));
                children.push(SyntaxNode::Expression(right));
            },
            ExpressionSyntax::Unary { operator_token, right } => {
                children.push(SyntaxNode::Token(operator_token));
                children.push(SyntaxNode::Expression(right));
            },
            ExpressionSyntax::Parenthesized {
                left_parenthesis_token,
                expression,
                right_parenthesis_token,
            } => {
                children.push(SyntaxNode::Token(left_parenthesis_token));
                children.push(SyntaxNode::Expression(expression));
                children.push(SyntaxNode::Token(right_parenthesis_token));
            },
        }
        assert(children@ =~= expression_children(self));
        children
    }

    /// An expression carries no value of its own.
    pub fn value(&self) -> (value: Option<&DumbBrainObject>)
        ensures
            value is None,
    {
        None
    }
}

impl<'a> SyntaxNode<'a> {
    /// The kind of the node.
    pub fn kind(&self) -> (kind: SyntaxKind)
        ensures
            kind == match *self {
                SyntaxNode::Token(token) => token.kind,
                SyntaxNode::Expression(expression) => expression_kind(expression),
            },
    {
        match self {
            SyntaxNode::Token(token) => token.kind(),
            SyntaxNode::Expression(expression) => expression.kind(),
        }
    }

    /// The parts of the node: none of a token, those of an expression.
    pub fn children(&self) -> (children: Vec<SyntaxNode<'a>>)
        ensures
            children@ == match *self {
                SyntaxNode::Token(_) => Seq::empty(),
                SyntaxNode::Expression(expression) => expression_children(expression),
            },
    {
        match self {
            SyntaxNode::Token(_) => Vec::new(),
            SyntaxNode::Expression(expression) => expression.children(),
        }
    }

    /// The value of a token that carries one.
    pub fn value(&self) -> (value: Option<&'a DumbBrainObject>)
        ensures
            value == match *self {
                SyntaxNode::Token(token) => match token.value {
                    Some(object) => Some(&object),
                    None => None,
                },
                SyntaxNode::Expression(_) => None,
            },
    {
        match self {
            SyntaxNode::Token(token) => token.value(),
            SyntaxNode::Expression(_) => None,
        }
    }
}

} // verus!
