use dumbbrain::binary64::Binary64;
use dumbbrain::lexer::{tokenize, Lexer};
use dumbbrain::object::DumbBrainObject;
use dumbbrain::span::Span;
use dumbbrain::syntax::{check_keyword, SyntaxKind};
use dumbbrain::token::Token;

fn kinds(source: &str) -> Vec<SyntaxKind> {
    tokenize(source).iter().map(|token| token.kind).collect()
}

fn texts(source: &str) -> Vec<String> {
    tokenize(source).into_iter().map(|token| token.text).collect()
}

#[test]
fn an_empty_text_has_no_tokens() {
    assert!(tokenize("").is_empty());
    let mut lexer = Lexer::new("");
    assert!(lexer.is_finished());
    assert!(lexer.next().is_none());
    assert!(lexer.next().is_none());
    assert_eq!(lexer.line_number(), 1);
    assert_eq!(lexer.column_offset(), 1);
}

#[test]
fn the_end_yields_no_marker() {
    let mut lexer = Lexer::new("1");
    assert!(!lexer.is_finished());
    assert!(lexer.next().is_some());
    assert!(lexer.is_finished());
    assert!(lexer.next().is_none());
    assert!(lexer.next().is_none());
}

#[test]
fn keywords_carry_their_booleans() {
    let tokens = tokenize("true false");
    assert_eq!(tokens[0].kind, SyntaxKind::TrueKeyword);
    assert_eq!(tokens[0].value, Some(DumbBrainObject::Boolean(true)));
    assert_eq!(tokens[2].kind, SyntaxKind::FalseKeyword);
    assert_eq!(tokens[2].value, Some(DumbBrainObject::Boolean(false)));
}

#[test]
fn identifiers_carry_no_value() {
    for source in ["truex", "True", "tru", "falsey", "x1", "abc123def", "\u{e9}t\u{e9}"] {
        let tokens = tokenize(source);
        assert_eq!(tokens.len(), 1, "{}", source);
        assert_eq!(tokens[0].kind, SyntaxKind::IdentifierToken, "{}", source);
        assert_eq!(tokens[0].text, source);
        assert_eq!(tokens[0].value, None);
    }
}

#[test]
fn keywords_are_matched_whole() {
    assert_eq!(check_keyword("true"), SyntaxKind::TrueKeyword);
    assert_eq!(check_keyword("false"), SyntaxKind::FalseKeyword);
    assert_eq!(check_keyword("truE"), SyntaxKind::IdentifierToken);
    assert_eq!(check_keyword("fals"), SyntaxKind::IdentifierToken);
    assert_eq!(check_keyword("falsee"), SyntaxKind::IdentifierToken);
    assert_eq!(check_keyword(""), SyntaxKind::IdentifierToken);
    assert_eq!(check_keyword("abcd"), SyntaxKind::IdentifierToken);
    assert_eq!(check_keyword("abcde"), SyntaxKind::IdentifierToken);
}

#[test]
fn a_number_ends_where_the_digits_end() {
    assert_eq!(kinds("12ab"), vec![SyntaxKind::NumberToken, SyntaxKind::IdentifierToken]);
    assert_eq!(texts("12ab"), vec!["12", "ab"]);
    assert_eq!(texts("1.5"), vec!["1", ".", "5"]);
    assert_eq!(
        kinds("1.5"),
        vec![SyntaxKind::NumberToken, SyntaxKind::BadToken, SyntaxKind::NumberToken]
    );
    assert_eq!(texts("ab12 3"), vec!["ab12", " ", "3"]);
}

#[test]
fn a_number_token_carries_the_nearest_number() {
    let tokens = tokenize("0 007 9007199254740993");
    let values: Vec<f64> = tokens
        .iter()
        .filter_map(|token| match token.value {
            Some(DumbBrainObject::Number(number)) => Some(f64::from_bits(number.to_bits())),
            _ => None,
        })
        .collect();
    assert_eq!(values, vec![0.0, 7.0, 9007199254740992.0]);
    assert_eq!(tokens[2].text, "007");
}

#[test]
fn two_character_operators() {
    assert_eq!(
        kinds("== != <= >= < >"),
        vec![
            SyntaxKind::EqualsEqualsToken,
            SyntaxKind::WhitespaceToken,
            SyntaxKind::BangEqualsToken,
            SyntaxKind::WhitespaceToken,
            SyntaxKind::LessEqualsToken,
            SyntaxKind::WhitespaceToken,
            SyntaxKind::GreaterEqualsToken,
            SyntaxKind::WhitespaceToken,
            SyntaxKind::LessToken,
            SyntaxKind::WhitespaceToken,
            SyntaxKind::GreaterToken,
        ]
    );
    assert_eq!(texts("<=>"), vec!["<=", ">"]);
    assert_eq!(texts("<<="), vec!["<", "<="]);
    assert_eq!(texts("==="), vec!["==", "="]);
    assert_eq!(kinds("==="), vec![SyntaxKind::EqualsEqualsToken, SyntaxKind::BadToken]);
    assert_eq!(texts("!=="), vec!["!=", "="]);
}

#[test]
fn a_lone_equals_or_bang_is_a_bad_token() {
    assert_eq!(kinds("="), vec![SyntaxKind::BadToken]);
    assert_eq!(kinds("!"), vec![SyntaxKind::BadToken]);
    assert_eq!(
        kinds("= ="),
        vec![SyntaxKind::BadToken, SyntaxKind::WhitespaceToken, SyntaxKind::BadToken]
    );
    assert_eq!(kinds("!1"), vec![SyntaxKind::BadToken, SyntaxKind::NumberToken]);
    assert_eq!(kinds("=<"), vec![SyntaxKind::BadToken, SyntaxKind::LessToken]);
}

#[test]
fn ampersands_and_pipes_are_bad_tokens() {
    assert_eq!(kinds("&&"), vec![SyntaxKind::BadToken, SyntaxKind::BadToken]);
    assert_eq!(kinds("||"), vec![SyntaxKind::BadToken, SyntaxKind::BadToken]);
    assert_eq!(texts("&|"), vec!["&", "|"]);
}

#[test]
fn whitespace_of_every_kind_is_one_token() {
    let source = " \t\r\n\u{a0}\u{2003}\u{3000}";
    let tokens = tokenize(source);
    assert_eq!(tokens.len(), 1);
    assert_eq!(tokens[0].kind, SyntaxKind::WhitespaceToken);
    assert_eq!(tokens[0].text, source);
    assert_eq!(
        tokens[0].span,
        Span { first_line: 1, first_column: 1, last_line: 2, last_column: 4 }
    );
}

#[test]
fn a_line_feed_begins_a_new_line() {
    let tokens = tokenize("1\n\n22\n 3");
    let spans: Vec<Span> = tokens.iter().map(|token| token.span).collect();
    assert_eq!(
        spans,
        vec![
            Span { first_line: 1, first_column: 1, last_line: 1, last_column: 2 },
            Span { first_line: 1, first_column: 2, last_line: 3, last_column: 1 },
            Span { first_line: 3, first_column: 1, last_line: 3, last_column: 3 },
            Span { first_line: 3, first_column: 3, last_line: 4, last_column: 2 },
            Span { first_line: 4, first_column: 2, last_line: 4, last_column: 3 },
        ]
    );
}

#[test]
fn positions_count_bytes_and_columns_count_characters() {
    let tokens = tokenize("\u{e9}+\u{4eac}*\u{1f600}1");
    let places: Vec<(usize, usize)> =
        tokens.iter().map(|token| (token.position, token.span.first_column)).collect();
    assert_eq!(places, vec![(0, 1), (2, 2), (3, 3), (6, 4), (7, 5), (11, 6)]);
    assert_eq!(tokens[4].kind, SyntaxKind::BadToken);
    assert_eq!(tokens[4].text, "\u{1f600}");
}

#[test]
fn positions_are_those_of_the_standard_library() {
    let source = "ab \u{e9}\u{e9} 12\n\u{4eac} <= \u{1f600}\u{1f600} x";
    let offsets: Vec<usize> = source.char_indices().map(|(offset, _)| offset).collect();
    let mut index = 0;
    for token in tokenize(source) {
        assert_eq!(token.position, offsets[index]);
        assert_eq!(&source[token.position..token.position + token.text.len()], token.text);
        index += token.text.chars().count();
    }
    assert_eq!(index, offsets.len());
}

#[test]
fn the_texts_of_the_tokens_join_to_the_source() {
    for source in [
        "",
        "1",
        "1 + 2 * (3 - 4) / 5",
        "123 + 456 - @#$ *\n5+2+3/4();",
        "  true==false  != <= >= < > = ! & |",
        "\u{e9}t\u{e9} \u{4eac}\u{a0}\n\t42abc",
    ] {
        let joined: String = tokenize(source).into_iter().map(|token| token.text).collect();
        assert_eq!(joined, source);
        let again: Vec<Token> = tokenize(&joined);
        assert_eq!(again, tokenize(source));
    }
}

#[test]
fn each_token_begins_where_the_last_ended() {
    let tokens = tokenize("1 +\n 22 * (true\n\n!= x)");
    for pair in tokens.windows(2) {
        assert_eq!(pair[0].span.last_line, pair[1].span.first_line);
        assert_eq!(pair[0].span.last_column, pair[1].span.first_column);
        assert_eq!(pair[0].position + pair[0].text.len(), pair[1].position);
    }
}

#[test]
fn tokens_come_one_at_a_call_as_all_at_once() {
    let source = "(5 + 6) * 3 > 2 + 4 == true";
    let mut lexer = Lexer::new(source);
    let mut one_by_one = vec![];
    while let Some(token) = lexer.next() {
        one_by_one.push(token);
    }
    assert_eq!(one_by_one, tokenize(source));
    assert_eq!(lexer.column_offset(), source.len() + 1);
}

#[test]
fn a_token_is_cloned_whole() {
    let token = Token::new(
        SyntaxKind::NumberToken,
        3,
        String::from("42"),
        Some(DumbBrainObject::Number(Binary64::from_bits(42.0f64.to_bits()))),
        Span { first_line: 1, first_column: 4, last_line: 1, last_column: 6 },
    );
    let copy = token.clone();
    assert_eq!(copy, token);
    assert_eq!(copy.text, "42");
    assert_eq!(copy.position, 3);
}
