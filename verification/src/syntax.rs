use vstd::prelude::*;
use vstd::string::StrSliceExecFns;

verus! {

/// The lexical and syntactic categories of the language.
#[derive(Debug, PartialEq, Eq, Clone, Copy, Hash, Structural)]
pub enum SyntaxKind {
    NumberToken,
    WhitespaceToken,
    PlusToken,
    MinusToken,
    StarToken,
    SlashToken,
    LeftParenthesisToken,
    RightParenthesisToken,
    EqualsEqualsToken,
    BangEqualsToken,
    LessToken,
    LessEqualsToken,
    GreaterToken,
    GreaterEqualsToken,
    AmpersandAmpersandToken,
    PipePipeToken,
    IdentifierToken,
    TrueKeyword,
    FalseKeyword,
    BadToken,
    LiteralExpression,
    BinaryExpression,
    UnaryExpression,
    ParenthesizedExpression,
}

/// The kind of an identifier lexeme: one of the two keywords, or a plain
/// identifier.
pub open spec fn keyword_kind(lexeme: Seq<char>) -> SyntaxKind {
    if lexeme == seq!['t', 'r', 'u', 'e'] {
        SyntaxKind::TrueKeyword
    } else if lexeme == seq!['f', 'a', 'l', 's', 'e'] {
        SyntaxKind::FalseKeyword
    } else {
        SyntaxKind::IdentifierToken
    }
}

/// Binding power of a kind as a binary operator; zero for every other kind.
pub open spec fn binary_precedence_of(kind: SyntaxKind) -> nat {
    match kind {
        SyntaxKind::StarToken | SyntaxKind::SlashToken => 5,
        SyntaxKind::PlusToken | SyntaxKind::MinusToken => 4,
        SyntaxKind::LessToken
        | SyntaxKind::LessEqualsToken
        | SyntaxKind::GreaterToken
        | SyntaxKind::GreaterEqualsToken => 3,
        SyntaxKind::AmpersandAmpersandToken | SyntaxKind::PipePipeToken => 2,
        SyntaxKind::EqualsEqualsToken | SyntaxKind::BangEqualsToken => 1,
        _ => 0,
    }
}

/// Binding power of a kind as a prefix operator; zero for every other kind.
pub open spec fn unary_precedence_of(kind: SyntaxKind) -> nat {
    match kind {
        SyntaxKind::PlusToken | SyntaxKind::MinusToken => 6,
        _ => 0,
    }
}

/// The name of a kind as diagnostics print it.
pub open spec fn kind_name(kind: SyntaxKind) -> Seq<char> {
    match kind {
        SyntaxKind::NumberToken => "NumberToken"@,
        SyntaxKind::WhitespaceToken => "WhitespaceToken"@,
        SyntaxKind::PlusToken => "PlusToken"@,
        SyntaxKind::MinusToken => "MinusToken"@,
        SyntaxKind::StarToken => "StarToken"@,
        SyntaxKind::SlashToken => "SlashToken"@,
        SyntaxKind::LeftParenthesisToken => "LeftParenthesisToken"@,
        SyntaxKind::RightParenthesisToken => "RightParenthesisToken"@,
        SyntaxKind::EqualsEqualsToken => "EqualsEqualsToken"@,
        SyntaxKind::BangEqualsToken => "BangEqualsToken"@,
        SyntaxKind::LessToken => "LessToken"@,
        SyntaxKind::LessEqualsToken => "LessEqualsToken"@,
        SyntaxKind::GreaterToken => "GreaterToken"@,
        SyntaxKind::GreaterEqualsToken => "GreaterEqualsToken"@,
        SyntaxKind::AmpersandAmpersandToken => "AmpersandAmpersandToken"@,
        SyntaxKind::PipePipeToken => "PipePipeToken"@,
        SyntaxKind::IdentifierToken => "IdentifierToken"@,
        SyntaxKind::TrueKeyword => "TrueKeyword"@,
        SyntaxKind::FalseKeyword => "FalseKeyword"@,
        SyntaxKind::BadToken => "BadToken"@,
        SyntaxKind::LiteralExpression => "LiteralExpression"@,
        SyntaxKind::BinaryExpression => "BinaryExpression"@,
        SyntaxKind::UnaryExpression => "UnaryExpression"@,
        SyntaxKind::ParenthesizedExpression => "ParenthesizedExpression"@,
    }
}

/// Classifies an identifier lexeme.
pub fn check_keyword(lexeme: &str) -> (kind: SyntaxKind)
    ensures
        kind == keyword_kind(lexeme@),
{
    let length: usize = lexeme.unicode_len();
    if length == 4 {
        if lexeme.get_char(0) == 't' && lexeme.get_char(1) == 'r' && lexeme.get_char(2) == 'u'
            && lexeme.get_char(3) == 'e' {
            assert(lexeme@ =~= seq!['t', 'r', 'u', 'e']);
            SyntaxKind::TrueKeyword
        } else {
            SyntaxKind::IdentifierToken
        }
    } else if length == 5 {
        if lexeme.get_char(0) == 'f' && lexeme.get_char(1) == 'a' && lexeme.get_char(2) == 'l'
            && lexeme.get_char(3) == 's' && lexeme.get_char(4) == 'e' {
            assert(lexeme@ =~= seq!['f', 'a', 'l', 's', 'e']);
            SyntaxKind::FalseKeyword
        } else {
            SyntaxKind::IdentifierToken
        }
    } else {
        SyntaxKind::IdentifierToken
    }
}

impl SyntaxKind {
    /// Binding power as a binary operator; zero where the kind is none.
    pub fn binary_precedence(self) -> (precedence: usize)
        ensures
            precedence == binary_precedence_of(self),
    {
        match self {
            Self::PlusToken | Self::MinusToken => 4,
            Self::StarToken | Self::SlashToken => 5,
            Self::EqualsEqualsToken | Self::BangEqualsToken => 1,
            Self::AmpersandAmpersandToken | Self::PipePipeToken => 2,
            Self::LessToken
            | Self::LessEqualsToken
            | Self::GreaterToken
            | Self::GreaterEqualsToken => 3,
            _ => 0,
        }
    }

    /// Binding power as a prefix operator; zero where the kind is none.
    pub fn unary_precedence(self) -> (precedence: usize)
        ensures
            precedence == unary_precedence_of(self),
    {
        match self {
            Self::PlusToken | Self::MinusToken => 6,
            _ => 0,
        }
    }

    /// The name of the kind as diagnostics print it.
    pub fn name(self) -> (name: &'static str)
        ensures
            name@ == kind_name(self),
    {
        match self {
            Self::NumberToken => "NumberToken",
            Self::WhitespaceToken => "WhitespaceToken",
            Self::PlusToken => "PlusToken",
            Self::MinusToken => "MinusToken",
            Self::StarToken => "StarToken",
            Self::SlashToken => "SlashToken",
            Self::LeftParenthesisToken => "LeftParenthesisToken",
            Self::RightParenthesisToken => "RightParenthesisToken",
            Self::EqualsEqualsToken => "EqualsEqualsToken",
            Self::BangEqualsToken => "BangEqualsToken",
            Self::LessToken => "LessToken",
            Self::LessEqualsToken => "LessEqualsToken",
            Self::GreaterToken => "GreaterToken",
            Self::GreaterEqualsToken => "GreaterEqualsToken",
            Self::AmpersandAmpersandToken => "AmpersandAmpersandToken",
            Self::PipePipeToken => "PipePipeToken",
            Self::IdentifierToken => "IdentifierToken",
            Self::TrueKeyword => "TrueKeyword",
            Self::FalseKeyword => "FalseKeyword",
            Self::BadToken => "BadToken",
            Self::LiteralExpression => "LiteralExpression",
            Self::BinaryExpression => "BinaryExpression",
            Self::UnaryExpression => "UnaryExpression",
            Self::ParenthesizedExpression => "ParenthesizedExpression",
        }
    }
}

} // verus!
