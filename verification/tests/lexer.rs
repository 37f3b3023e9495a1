use nlf::errors::{ErrorKind, LexerError, Span};
use nlf::lexer::{lex, match_table, try_lex, KeywordKind, Token, TokenKind};

fn token(kind: TokenKind, start: usize, end: usize) -> Token {
    Token { kind, start, end }
}

fn ident(value: &str, start: usize, end: usize) -> Token {
    token(TokenKind::Identifier { value: value.to_string() }, start, end)
}

fn number(value: &str, start: usize, end: usize) -> Token {
    token(TokenKind::NumericLiteral { value: value.to_string() }, start, end)
}

#[test]
fn lexes_a_variable_definition() {
    let tokens = lex("let x = 12".to_string()).unwrap();
    assert_eq!(
        tokens,
        vec![
            token(TokenKind::Keyword(KeywordKind::Let), 0, 3),
            ident("x", 4, 5),
            token(TokenKind::Assign, 6, 7),
            number("12", 8, 10),
        ]
    );
}

#[test]
fn keyword_at_the_end_of_the_text_is_an_identifier() {
    assert_eq!(lex("return".to_string()).unwrap(), vec![ident("return", 0, 6)]);
}

#[test]
fn keyword_followed_by_a_letter_is_part_of_an_identifier() {
    assert_eq!(lex("letter = 1".to_string()).unwrap()[0], ident("letter", 0, 6));
}

#[test]
fn keyword_followed_by_a_digit_stays_a_keyword() {
    assert_eq!(
        lex("if1".to_string()).unwrap(),
        vec![token(TokenKind::Keyword(KeywordKind::If), 0, 2), number("1", 2, 3)]
    );
}

#[test]
fn boolean_literals_need_no_separator() {
    assert_eq!(
        lex("true".to_string()).unwrap(),
        vec![token(TokenKind::BooleanLiteral { value: true }, 0, 4)]
    );
}

#[test]
fn longest_operator_wins() {
    assert_eq!(
        lex("a==b=>c".to_string()).unwrap(),
        vec![
            ident("a", 0, 1),
            token(TokenKind::EQ, 1, 3),
            ident("b", 3, 4),
            token(TokenKind::Arrow, 4, 6),
            ident("c", 6, 7),
        ]
    );
}

#[test]
fn range_between_numbers() {
    assert_eq!(
        lex("0..5".to_string()).unwrap(),
        vec![number("0", 0, 1), token(TokenKind::Range, 1, 3), number("5", 3, 4)]
    );
}

#[test]
fn decimal_number() {
    assert_eq!(lex("3.25".to_string()).unwrap(), vec![number("3.25", 0, 4)]);
}

#[test]
fn pi_is_a_number() {
    assert_eq!(lex("π".to_string()).unwrap(), vec![number("3.1415927", 0, 2)]);
}

#[test]
fn unicode_numerals_make_numbers() {
    assert_eq!(lex("²".to_string()).unwrap(), vec![number("²", 0, 2)]);
}

#[test]
fn string_literal_holds_its_inner_text() {
    assert_eq!(
        lex("\"hi\" x".to_string()).unwrap(),
        vec![token(TokenKind::StringLiteral { value: "hi".to_string() }, 0, 4), ident("x", 5, 6)]
    );
}

#[test]
fn unterminated_string_is_an_error() {
    let e = lex("x = \"abc".to_string()).unwrap_err();
    assert!(matches!(e.kind, ErrorKind::Lexer(LexerError::UnterminatedString)));
    assert_eq!(e.source, Some(Span { start: 4, end: 8 }));
}

#[test]
fn comment_skips_its_line_and_the_next_character() {
    assert_eq!(
        lex("// c\nx = 1".to_string()).unwrap(),
        vec![token(TokenKind::Assign, 7, 8), number("1", 9, 10)]
    );
}

#[test]
fn unknown_characters_are_skipped() {
    assert_eq!(lex("@x".to_string()).unwrap(), vec![ident("x", 1, 2)]);
}

#[test]
fn identifiers_take_digits_and_underscores() {
    assert_eq!(lex("_a1 b".to_string()).unwrap(), vec![ident("_a1", 0, 3), ident("b", 4, 5)]);
}

#[test]
fn try_lex_agrees_with_lex() {
    let a = try_lex("fn f(a) { return a }").unwrap().unwrap();
    let b = lex("fn f(a) { return a }".to_string()).unwrap();
    assert_eq!(a, b);
    assert_eq!(a.len(), 9);
}

#[test]
fn tokens_are_ordered_and_inside_the_text() {
    let text = "class A { public x = 1 } while (a <= 2) { a += 1 }";
    let tokens = lex(text.to_string()).unwrap();
    let mut last_end = 0;
    for t in &tokens {
        assert!(t.start < t.end);
        assert!(t.end <= text.len());
        assert!(last_end <= t.start);
        last_end = t.end;
    }
}

#[test]
fn match_table_lists_operators_and_keywords() {
    let table = match_table();
    assert!(table.iter().any(|(k, v)| *k == "=>" && *v == TokenKind::Arrow));
    assert!(table.iter().any(|(k, v)| *k == "while" && *v == TokenKind::Keyword(KeywordKind::While)));
    assert!(table.iter().any(|(k, v)| *k == "π" && *v == TokenKind::NumericLiteral { value: "3.1415927".to_string() }));
    assert_eq!(table.len(), 53);
}
