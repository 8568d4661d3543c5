use vstd::prelude::*;
use vstd::slice::axiom_spec_len;
use vstd::utf8::{encode_scalar, encode_utf8};

use crate::binary64::{all_digits, decimal_literal, is_digit, Binary64};
use crate::object::DumbBrainObject;
use crate::span::Span;
use crate::syntax::{check_keyword, keyword_kind, SyntaxKind};
use crate::text::characters;
use crate::token::{Token, TokenView};

verus! {

/// What `char::is_alphabetic` returns: whether a character has the Unicode
/// property Alphabetic.
pub uninterp spec fn alphabetic(c: char) -> bool;

/// What `char::is_alphanumeric` returns: whether a character is alphabetic
/// or numeric in Unicode's sense.
pub uninterp spec fn alphanumeric(c: char) -> bool;

/// What `char::is_whitespace` returns: whether a character has the Unicode
/// property White_Space.
pub uninterp spec fn whitespace(c: char) -> bool;

/// Taken on trust of `char::is_alphabetic`: what it returns depends on the
/// character alone. Which characters are alphabetic is left to Unicode.
pub assume_specification[ char::is_alphabetic ](c: char) -> (r: bool)
    ensures
        r == alphabetic(c),
;

/// Taken on trust of `char::is_alphanumeric`: what it returns depends on
/// the character alone. Which characters are alphanumeric is left to
/// Unicode.
pub assume_specification[ char::is_alphanumeric ](c: char) -> (r: bool)
    ensures
        r == alphanumeric(c),
;

/// Taken on trust of `char::is_whitespace`: what it returns depends on the
/// character alone. Which characters are whitespace is left to Unicode.
pub assume_specification[ char::is_whitespace ](c: char) -> (r: bool)
    ensures
        r == whitespace(c),
;

/// The classes of character of which a token takes a whole run.
#[derive(Debug, PartialEq, Eq, Clone, Copy, Structural)]
pub enum CharClass {
    Digit,
    Alphanumeric,
    Whitespace,
}

/// Whether a character is of a class.
pub open spec fn belongs(class: CharClass, c: char) -> bool {
    match class {
        CharClass::Digit => is_digit(c),
        CharClass::Alphanumeric => alphanumeric(c),
        CharClass::Whitespace => whitespace(c),
    }
}

/// The number of characters from `from` on that belong to `class`, up to
/// the first that does not.
pub open spec fn run_length(source: Seq<char>, from: int, class: CharClass) -> nat
    decreases source.len() - from,
{
    if 0 <= from < source.len() && belongs(class, source[from]) {
        1 + run_length(source, from + 1, class)
    } else {
        0
    }
}

/// Whether the character after the one at `start` is `=`.
pub open spec fn followed_by_equals(source: Seq<char>, start: int) -> bool {
    start + 1 < source.len() && source[start + 1] == '='
}

/// The number of characters of the token that starts at `start`.
pub open spec fn token_length(source: Seq<char>, start: int) -> nat {
    let c = source[start];
    if is_digit(c) {
        1 + run_length(source, start + 1, CharClass::Digit)
    } else if alphabetic(c) {
        1 + run_length(source, start + 1, CharClass::Alphanumeric)
    } else if whitespace(c) {
        1 + run_length(source, start + 1, CharClass::Whitespace)
    } else if (c == '=' || c == '!' || c == '<' || c == '>') && followed_by_equals(source, start) {
        2
    } else {
        1
    }
}

/// The kind of the token that starts at `start`.
pub open spec fn token_kind(source: Seq<char>, start: int) -> SyntaxKind {
    let c = source[start];
    if is_digit(c) {
        SyntaxKind::NumberToken
    } else if alphabetic(c) {
        keyword_kind(source.subrange(start, start + token_length(source, start)))
    } else if whitespace(c) {
        SyntaxKind::WhitespaceToken
    } else if c == '+' {
        SyntaxKind::PlusToken
    } else if c == '-' {
        SyntaxKind::MinusToken
    } else if c == '*' {
        SyntaxKind::StarToken
    } else if c == '/' {
        SyntaxKind::SlashToken
    } else if c == '(' {
        SyntaxKind::LeftParenthesisToken
    } else if c == ')' {
        SyntaxKind::RightParenthesisToken
    } else if c == '=' && followed_by_equals(source, start) {
        SyntaxKind::EqualsEqualsToken
    } else if c == '!' && followed_by_equals(source, start) {
        SyntaxKind::BangEqualsToken
    } else if c == '<' {
        if followed_by_equals(source, start) {
            SyntaxKind::LessEqualsToken
        } else {
            SyntaxKind::LessToken
        }
    } else if c == '>' {
        if followed_by_equals(source, start) {
            SyntaxKind::GreaterEqualsToken
        } else {
            SyntaxKind::GreaterToken
        }
    } else {
        SyntaxKind::BadToken
    }
}

/// The value that a token of a kind and a text carries: a number token the
/// binary64 value nearest to what its digits write, a keyword its boolean.
pub open spec fn token_value(kind: SyntaxKind, text: Seq<char>) -> Option<DumbBrainObject> {
    match kind {
        SyntaxKind::NumberToken => match decimal_literal(text) {
            Some(number) => Some(DumbBrainObject::Number(number)),
            None => None,
        },
        SyntaxKind::TrueKeyword => Some(DumbBrainObject::Boolean(true)),
        SyntaxKind::FalseKeyword => Some(DumbBrainObject::Boolean(false)),
        _ => None,
    }
}

/// The offset in bytes of the character at `index`: the length of the
/// UTF-8 encoding of all that stands before it.
pub open spec fn byte_offset(source: Seq<char>, index: int) -> nat {
    encode_utf8(source.take(index)).len()
}

/// The line of the character at `index`: one more than the number of line
/// feeds before it.
pub open spec fn line_at(source: Seq<char>, index: int) -> nat
    decreases index,
{
    if index <= 0 {
        1
    } else if source[index - 1] == '\n' {
        line_at(source, index - 1) + 1
    } else {
        line_at(source, index - 1)
    }
}

/// The column of the character at `index`: one more than the number of
/// characters between it and the last line feed before it.
pub open spec fn column_at(source: Seq<char>, index: int) -> nat
    decreases index,
{
    if index <= 0 {
        1
    } else if source[index - 1] == '\n' {
        1
    } else {
        column_at(source, index - 1) + 1
    }
}

/// The token that starts at `start`.
pub open spec fn token_at(source: Seq<char>, start: int) -> TokenView {
    let end = start + token_length(source, start);
    let kind = token_kind(source, start);
    let text = source.subrange(start, end);
    TokenView {
        kind,
        position: byte_offset(source, start) as usize,
        text,
        value: token_value(kind, text),
        span: Span {
            first_line: line_at(source, start) as usize,
            first_column: column_at(source, start) as usize,
            last_line: line_at(source, end) as usize,
            last_column: column_at(source, end) as usize,
        },
    }
}

/// The tokens of the source from `start` to its end.
pub open spec fn tokens_from(source: Seq<char>, start: int) -> Seq<TokenView>
    decreases source.len() - start,
{
    if 0 <= start < source.len() {
        proof {
            lemma_token_within(source, start);
        }
        seq![token_at(source, start)] + tokens_from(source, start + token_length(source, start))
    } else {
        Seq::empty()
    }
}

/// The tokens of a source text.
pub open spec fn lex(source: Seq<char>) -> Seq<TokenView> {
    tokens_from(source, 0)
}

/// A run ends within the source, and every character of it belongs to its
/// class.
pub proof fn lemma_run_within(source: Seq<char>, from: int, class: CharClass)
    requires
        0 <= from <= source.len(),
    ensures
        from + run_length(source, from, class) <= source.len(),
        forall|i: int|
            from <= i < from + run_length(source, from, class) ==> belongs(
                class,
                #[trigger] source[i],
            ),
    decreases source.len() - from,
{
    if from < source.len() && belongs(class, source[from]) {
        lemma_run_within(source, from + 1, class);
    }
}

/// A token has at least one character and ends within the source.
pub proof fn lemma_token_within(source: Seq<char>, start: int)
    requires
        0 <= start < source.len(),
    ensures
        1 <= token_length(source, start),
        start + token_length(source, start) <= source.len(),
{
    lemma_run_within(source, start + 1, CharClass::Digit);
    lemma_run_within(source, start + 1, CharClass::Alphanumeric);
    lemma_run_within(source, start + 1, CharClass::Whitespace);
}

proof fn lemma_encode_push(text: Seq<char>, c: char)
    ensures
        encode_utf8(text.push(c)) == encode_utf8(text) + encode_scalar(c as u32),
    decreases text.len(),
{
    if text.len() == 0 {
        assert(text.push(c).drop_first() =~= text);
        assert(encode_utf8(text) =~= Seq::<u8>::empty());
        assert(encode_utf8(text.push(c).drop_first()) =~= Seq::<u8>::empty());
        assert(encode_utf8(text.push(c)) =~= encode_scalar(c as u32));
    } else {
        lemma_encode_push(text.drop_first(), c);
        assert(text.push(c).drop_first() =~= text.drop_first().push(c));
        assert(encode_utf8(text.push(c)) =~= encode_utf8(text) + encode_scalar(c as u32));
    }
}

/// The number of bytes of one character in UTF-8.
pub open spec fn utf8_width(c: char) -> nat {
    encode_scalar(c as u32).len()
}

proof fn lemma_byte_offset_step(source: Seq<char>, index: int)
    requires
        0 <= index < source.len(),
    ensures
        byte_offset(source, index + 1) == byte_offset(source, index) + utf8_width(source[index]),
        1 <= utf8_width(source[index]) <= 4,
{
    assert(source.take(index + 1) =~= source.take(index).push(source[index]));
    lemma_encode_push(source.take(index), source[index]);
}

proof fn lemma_byte_offset_grows(source: Seq<char>, i: int, j: int)
    requires
        0 <= i <= j <= source.len(),
    ensures
        byte_offset(source, i) <= byte_offset(source, j),
    decreases j - i,
{
    if i < j {
        lemma_byte_offset_step(source, j - 1);
        lemma_byte_offset_grows(source, i, j - 1);
    }
}

proof fn lemma_line_column_bounds(source: Seq<char>, index: int)
    requires
        0 <= index <= source.len(),
    ensures
        1 <= line_at(source, index) <= index + 1,
        1 <= column_at(source, index) <= index + 1,
    decreases index,
{
    if index > 0 {
        lemma_line_column_bounds(source, index - 1);
    }
}

/// The texts of the tokens, one after another.
pub open spec fn joined_text(tokens: Seq<TokenView>) -> Seq<char>
    decreases tokens.len(),
{
    if tokens.len() == 0 {
        Seq::empty()
    } else {
        tokens[0].text + joined_text(tokens.drop_first())
    }
}

/// The tokens from a place on cover the rest of the source: their texts,
/// joined, are the source from there.
pub proof fn lemma_tokens_cover(source: Seq<char>, start: int)
    requires
        0 <= start <= source.len(),
    ensures
        joined_text(tokens_from(source, start)) == source.subrange(start, source.len() as int),
    decreases source.len() - start,
{
    if start < source.len() {
        lemma_token_within(source, start);
        let end = start + token_length(source, start);
        lemma_tokens_cover(source, end);
        let tokens = tokens_from(source, start);
        assert(tokens.drop_first() =~= tokens_from(source, end));
        assert(source.subrange(start, end) + source.subrange(end, source.len() as int)
            =~= source.subrange(start, source.len() as int));
    } else {
        assert(source.subrange(start, source.len() as int) =~= Seq::<char>::empty());
    }
}

/// Lexing loses nothing: the texts of the tokens of a source, joined, are
/// the source, so that lexing them again gives the same tokens.
pub proof fn lemma_lexing_round_trip(source: Seq<char>)
    ensures
        joined_text(lex(source)) == source,
        lex(joined_text(lex(source))) == lex(source),
{
    lemma_tokens_cover(source, 0);
    assert(source.subrange(0, source.len() as int) =~= source);
}

/// Each token begins where the one before it ends: no character stands in
/// two tokens and none in no token.
pub proof fn lemma_tokens_adjoin(source: Seq<char>, start: int)
    requires
        0 <= start < source.len(),
        start + token_length(source, start) < source.len(),
    ensures
        tokens_from(source, start).len() >= 2,
        tokens_from(source, start)[1] == token_at(source, start + token_length(source, start)),
        tokens_from(source, start)[0].span.last_line == tokens_from(
            source,
            start,
        )[1].span.first_line,
        tokens_from(source, start)[0].span.last_column == tokens_from(
            source,
            start,
        )[1].span.first_column,
{
    lemma_token_within(source, start);
    let end = start + token_length(source, start);
    lemma_token_within(source, end);
    assert(tokens_from(source, start).drop_first() =~= tokens_from(source, end));
}

/// A run that reaches the end of the source: every character from `from`
/// on belongs to the class.
pub proof fn lemma_run_to_end(source: Seq<char>, from: int, class: CharClass)
    requires
        0 <= from <= source.len(),
        forall|i: int| from <= i < source.len() ==> belongs(class, #[trigger] source[i]),
    ensures
        run_length(source, from, class) == source.len() - from,
    decreases source.len() - from,
{
    if from < source.len() {
        lemma_run_to_end(source, from + 1, class);
    }
}

/// Where no line feed stands before a place, the place is in the first
/// line, as many columns in as characters stand before it.
pub proof fn lemma_first_line(source: Seq<char>, index: int)
    requires
        0 <= index <= source.len(),
        forall|i: int| 0 <= i < index ==> #[trigger] source[i] != '\n',
    ensures
        line_at(source, index) == 1,
        column_at(source, index) == index + 1,
    decreases index,
{
    if index > 0 {
        lemma_first_line(source, index - 1);
    }
}

/// The lexer gives no token for `&&` or `||`, and none of the kinds that
/// name expressions.
pub proof fn lemma_kinds_never_lexed(source: Seq<char>, start: int)
    requires
        0 <= start < source.len(),
    ensures
        ({
            let kind = token_kind(source, start);
            &&& kind != SyntaxKind::AmpersandAmpersandToken
            &&& kind != SyntaxKind::PipePipeToken
            &&& kind != SyntaxKind::LiteralExpression
            &&& kind != SyntaxKind::BinaryExpression
            &&& kind != SyntaxKind::UnaryExpression
            &&& kind != SyntaxKind::ParenthesizedExpression
        }),
{
}

/// A token carries a value where it is a number or a keyword, and there
/// alone.
pub proof fn lemma_literals_carry_values(source: Seq<char>, start: int)
    requires
        0 <= start < source.len(),
    ensures
        ({
            let token = token_at(source, start);
            token.value is Some <==> token.kind == SyntaxKind::NumberToken || token.kind
                == SyntaxKind::TrueKeyword || token.kind == SyntaxKind::FalseKeyword
        }),
{
    lemma_token_within(source, start);
    if is_digit(source[start]) {
        lemma_run_within(source, start + 1, CharClass::Digit);
        let end = start + token_length(source, start);
        let text = source.subrange(start, end);
        assert forall|i: int| 0 <= i < text.len() implies is_digit(#[trigger] text[i]) by {
            if i > 0 {
                assert(belongs(CharClass::Digit, source[start + i]));
            }
        }
    }
}

/// The token of a number literal that is the whole source.
pub open spec fn number_token(digits: Seq<char>) -> TokenView {
    TokenView {
        kind: SyntaxKind::NumberToken,
        position: 0,
        text: digits,
        value: token_value(SyntaxKind::NumberToken, digits),
        span: Span {
            first_line: 1,
            first_column: 1,
            last_line: 1,
            last_column: (digits.len() + 1) as usize,
        },
    }
}

/// A source of decimal digits alone lexes to one number token, which
/// spans the source and carries the binary64 value nearest to the number
/// that the digits write.
pub proof fn lemma_lex_number(digits: Seq<char>)
    requires
        digits.len() > 0,
        all_digits(digits),
    ensures
        lex(digits) == seq![number_token(digits)],
        number_token(digits).value == Some(
            DumbBrainObject::Number(
                Binary64 { bits: crate::binary64::nearest_binary64(
                    crate::binary64::decimal_value(digits),
                ) },
            ),
        ),
{
    let length = digits.len() as int;
    assert forall|i: int| 1 <= i < length implies belongs(
        CharClass::Digit,
        #[trigger] digits[i],
    ) by {}
    lemma_run_to_end(digits, 1, CharClass::Digit);
    assert(is_digit(digits[0]));
    assert(token_length(digits, 0) == length);
    assert(digits.subrange(0, length) =~= digits);
    assert forall|i: int| 0 <= i < length implies #[trigger] digits[i] != '\n' by {
        assert(is_digit(digits[i]));
    }
    lemma_first_line(digits, 0);
    lemma_first_line(digits, length);
    assert(digits.take(0) =~= Seq::<char>::empty());
    assert(encode_utf8(Seq::<char>::empty()) =~= Seq::<u8>::empty());
    assert(token_at(digits, 0) == number_token(digits));
    assert(tokens_from(digits, length) =~= Seq::<TokenView>::empty());
    assert(lex(digits) =~= seq![number_token(digits)]);
}

/// Turns a source text into tokens, one at a call.
pub struct Lexer {
    source: Vec<char>,
    index: usize,
    position: usize,
    line_number: usize,
    column_offset: usize,
}

impl Lexer {
    /// The text that is lexed.
    pub closed spec fn source(&self) -> Seq<char> {
        self.source@
    }

    /// The number of characters that are consumed.
    pub closed spec fn index(&self) -> int {
        self.index as int
    }

    /// The counters agree with the place that the lexer has reached.
    pub closed spec fn well_formed(&self) -> bool {
        &&& self.index <= self.source.len() < usize::MAX
        &&& byte_offset(self.source@, self.source.len() as int) <= usize::MAX
        &&& self.position == byte_offset(self.source@, self.index as int)
        &&& self.line_number == line_at(self.source@, self.index as int)
        &&& self.column_offset == column_at(self.source@, self.index as int)
    }

    /// The tokens that are still to come.
    pub open spec fn remaining(&self) -> Seq<TokenView> {
        tokens_from(self.source(), self.index())
    }

    /// A lexer is within its source.
    pub proof fn lemma_index_within(&self)
        requires
            self.well_formed(),
        ensures
            0 <= self.index() <= self.source().len() < usize::MAX,
    {
    }

    /// A lexer at the beginning of a text. The text has to be short enough for
    /// its lines and columns to be counted.
    pub fn new(text: &str) -> (lexer: Self)
        requires
            text@.len() < usize::MAX,
        ensures
            lexer.well_formed(),
            lexer.source() == text@,
            lexer.index() == 0,
    {
        let source: Vec<char> = characters(text);
        let bytes = text.as_bytes();
        proof {
            axiom_spec_len(bytes);
            assert(source@.take(source.len() as int) =~= text@);
            assert(source@.take(0) =~= Seq::<char>::empty());
        }
        Self { source, index: 0, position: 0, line_number: 1, column_offset: 1 }
    }

    /// Whether every character is consumed.
    pub fn is_finished(&self) -> (r: bool)
        requires
            self.well_formed(),
        ensures
            r == (self.index() == self.source().len()),
    {
        self.index >= self.source.len()
    }

    /// The line of the next character.
    pub fn line_number(&self) -> (line: usize)
        requires
            self.well_formed(),
        ensures
            line == line_at(self.source(), self.index()),
    {
        self.line_number
    }

    /// The column of the next character.
    pub fn column_offset(&self) -> (column: usize)
        requires
            self.well_formed(),
        ensures
            column == column_at(self.source(), self.index()),
    {
        self.column_offset
    }

    fn peek(&self) -> (r: Option<char>)
        requires
            self.well_formed(),
        ensures
            r == if self.index() < self.source().len() {
                Some(self.source()[self.index()])
            } else {
                None
            },
    {
        if self.index < self.source.len() {
            Some(self.source[self.index])
        } else {
            None
        }
    }

    /// Consumes one character and gives it with its offset in bytes.
    fn advance(&mut self) -> (r: Option<(usize, char)>)
        requires
            old(self).well_formed(),
        ensures
            final(self).well_formed(),
            final(self).source() == old(self).source(),
            old(self).index() == old(self).source().len() ==> r is None && final(self).index()
                == old(self).index(),
            old(self).index() < old(self).source().len() ==> r == Some(
                (
                    byte_offset(old(self).source(), old(self).index()) as usize,
                    old(self).source()[old(self).index()],
                ),
            ) && final(self).index() == old(self).index() + 1,
    {
        if self.index >= self.source.len() {
            return None;
        }
        let c: char = self.source[self.index];
        let start: usize = self.position;
        let code: u32 = c as u32;
        let width: usize = if code < 0x80 {
            1
        } else if code < 0x800 {
            2
        } else if code < 0x10000 {
            3
        } else {
            4
        };
        proof {
            vstd::utf8::char_is_scalar(c);
            assert(code == c as u32);
            assert(width == utf8_width(c));
            lemma_byte_offset_step(self.source@, self.index as int);
            lemma_byte_offset_grows(
                self.source@,
                self.index as int + 1,
                self.source.len() as int,
            );
            lemma_line_column_bounds(self.source@, self.index as int);
        }
        self.index = self.index + 1;
        self.position = self.position + width;
        if c == '\n' {
            self.line_number = self.line_number + 1;
            self.column_offset = 1;
        } else {
            self.column_offset = self.column_offset + 1;
        }
        Some((start, c))
    }

    /// Consumes the run of characters of a class that starts here, and
    /// appends it to the lexeme.
    fn take_run(&mut self, class: CharClass, lexeme: &mut String)
        requires
            old(self).well_formed(),
        ensures
            final(self).well_formed(),
            final(self).source() == old(self).source(),
            final(self).index() == old(self).index() + run_length(
                old(self).source(),
                old(self).index(),
                class,
            ),
            final(lexeme)@ == old(lexeme)@ + old(self).source().subrange(
                old(self).index(),
                final(self).index(),
            ),
    {
        let ghost first = self.index as int;
        let ghost source = self.source@;
        let ghost before = lexeme@;
        assert(lexeme@ =~= before + source.subrange(first, first));
        loop
            invariant
                self.well_formed(),
                self.source@ == source,
                first <= self.index <= source.len(),
                run_length(source, first, class) == (self.index - first) + run_length(
                    source,
                    self.index as int,
                    class,
                ),
                lexeme@ == before + source.subrange(first, self.index as int),
            ensures
                self.well_formed(),
                self.source@ == source,
                first <= self.index <= source.len(),
                self.index == first + run_length(source, first, class),
                lexeme@ == before + source.subrange(first, self.index as int),
            decreases source.len() - self.index,
        {
            let c: char = match self.peek() {
                Some(c) => c,
                None => {
                    break ;
                },
            };
            let inside: bool = match class {
                CharClass::Digit => c >= '0' && c <= '9',
                CharClass::Alphanumeric => c.is_alphanumeric(),
                CharClass::Whitespace => c.is_whitespace(),
            };
            if !inside {
                break ;
            }
            let ghost here = self.index as int;
            self.advance();
            lexeme.push(c);
            assert(lexeme@ =~= before + source.subrange(first, here + 1));
        }
    }

    /// Whether the next character is `=`; it is consumed where it is.
    fn take_equals(&mut self, lexeme: &mut String) -> (r: bool)
        requires
            old(self).well_formed(),
            old(self).index() >= 1,
        ensures
            final(self).well_formed(),
            final(self).source() == old(self).source(),
            r == followed_by_equals(old(self).source(), old(self).index() - 1),
            final(self).index() == old(self).index() + if r { 1int } else { 0 },
            final(lexeme)@ == if r { old(lexeme)@.push('=') } else { old(lexeme)@ },
    {
        match self.peek() {
            Some(c) => {
                if c == '=' {
                    self.advance();
                    lexeme.push('=');
                    true
                } else {
                    false
                }
            },
            None => false,
        }
    }

    /// The next token, or none where the source is at its end.
    pub fn next(&mut self) -> (next: Option<Token>)
        requires
            old(self).well_formed(),
        ensures
            final(self).well_formed(),
            final(self).source() == old(self).source(),
            old(self).index() == old(self).source().len() ==> next is None && final(self).index()
                == old(self).index(),
            old(self).index() < old(self).source().len() ==> next is Some && next->0@ == token_at(
                old(self).source(),
                old(self).index(),
            ) && final(self).index() == old(self).index() + token_length(
                old(self).source(),
                old(self).index(),
            ),
            next is Some ==> old(self).remaining() == seq![next->0@] + final(self).remaining(),
            next is None ==> old(self).remaining() == Seq::<TokenView>::empty(),
    {
        let ghost source = self.source@;
        let ghost first = self.index as int;
        let first_line: usize = self.line_number;
        let first_column: usize = self.column_offset;
        let (start, c) = match self.advance() {
            Some(pair) => pair,
            None => {
                return None;
            },
        };
        proof {
            lemma_token_within(source, first);
        }
        let mut lexeme: String = String::new();
        lexeme.push(c);
        assert(lexeme@ =~= source.subrange(first, first + 1));
        let kind: SyntaxKind;
        let mut value: Option<DumbBrainObject> = None;
        if c >= '0' && c <= '9' {
            self.take_run(CharClass::Digit, &mut lexeme);
            kind = SyntaxKind::NumberToken;
            value =
            match Binary64::from_decimal(lexeme.as_str()) {
                Some(number) => Some(DumbBrainObject::Number(number)),
                None => None,
            };
        } else if c.is_alphabetic() {
            self.take_run(CharClass::Alphanumeric, &mut lexeme);
            kind = check_keyword(lexeme.as_str());
            value =
            match kind {
                SyntaxKind::TrueKeyword => Some(DumbBrainObject::Boolean(true)),
                SyntaxKind::FalseKeyword => Some(DumbBrainObject::Boolean(false)),
                _ => None,
            };
        } else if c.is_whitespace() {
            self.take_run(CharClass::Whitespace, &mut lexeme);
            kind = SyntaxKind::WhitespaceToken;
        } else if c == '+' {
            kind = SyntaxKind::PlusToken;
        } else if c == '-' {
            kind = SyntaxKind::MinusToken;
        } else if c == '*' {
            kind = SyntaxKind::StarToken;
        } else if c == '/' {
            kind = SyntaxKind::SlashToken;
        } else if c == '(' {
            kind = SyntaxKind::LeftParenthesisToken;
        } else if c == ')' {
            kind = SyntaxKind::RightParenthesisToken;
        } else if c == '=' {
            kind =
            if self.take_equals(&mut lexeme) {
                SyntaxKind::EqualsEqualsToken
            } else {
                SyntaxKind::BadToken
            };
        } else if c == '!' {
            kind =
            if self.take_equals(&mut lexeme) {
                SyntaxKind::BangEqualsToken
            } else {
                SyntaxKind::BadToken
            };
        } else if c == '<' {
            kind =
            if self.take_equals(&mut lexeme) {
                SyntaxKind::LessEqualsToken
            } else {
                SyntaxKind::LessToken
            };
        } else if c == '>' {
            kind =
            if self.take_equals(&mut lexeme) {
                SyntaxKind::GreaterEqualsToken
            } else {
                SyntaxKind::GreaterToken
            };
        } else {
            kind = SyntaxKind::BadToken;
        }
        assert(lexeme@ =~= source.subrange(first, self.index as int));
        let span = Span {
            first_line,
            first_column,
            last_line: self.line_number,
            last_column: self.column_offset,
        };
        Some(Token::new(kind, start, lexeme, value, span))
    }
}

/// All the tokens of a text.
pub fn tokenize(text: &str) -> (tokens: Vec<Token>)
    requires
        text@.len() < usize::MAX,
    ensures
        tokens@.map_values(|token: Token| token@) == lex(text@),
{
    let mut lexer = Lexer::new(text);
    let mut tokens: Vec<Token> = Vec::new();
    let ghost all = lexer.remaining();
    assert(tokens@.map_values(|token: Token| token@) =~= Seq::<TokenView>::empty());
    loop
        invariant
            lexer.well_formed(),
            lexer.source() == text@,
            all == lex(text@),
            all == tokens@.map_values(|token: Token| token@) + lexer.remaining(),
        ensures
            tokens@.map_values(|token: Token| token@) == lex(text@),
        decreases lexer.source().len() - lexer.index(),
    {
        let ghost before = tokens@.map_values(|token: Token| token@);
        proof {
            lexer.lemma_index_within();
            if lexer.index() < lexer.source().len() {
                lemma_token_within(lexer.source(), lexer.index());
            }
        }
        match lexer.next() {
            Some(token) => {
                tokens.push(token);
                assert(tokens@.map_values(|token: Token| token@) =~= before.push(token@));
                assert(before.push(token@) + lexer.remaining() =~= before + (seq![token@]
                    + lexer.remaining()));
            },
            None => {
                assert(before + Seq::<TokenView>::empty() =~= before);
                break ;
            },
        }
    }
    tokens
}

} // verus!
