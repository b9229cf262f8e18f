use compiler::lexer::{tokenize, Lexer};
use compiler::token::{Token, TokenKind};

fn ident(name: &str) -> Token {
    Token::Ident(name.to_string())
}

#[test]
fn empty_input_gives_only_the_end_marker() {
    assert_eq!(tokenize(""), vec![Token::EOF]);
    assert_eq!(tokenize("  \n\t "), vec![Token::EOF]);
}

#[test]
fn end_marker_is_returned_again_and_again() {
    let mut lexer = Lexer::new("x");
    assert_eq!(lexer.next_token(), ident("x"));
    assert_eq!(lexer.next_token(), Token::EOF);
    assert_eq!(lexer.next_token(), Token::EOF);
}

#[test]
fn every_keyword_is_recognised() {
    assert_eq!(
        tokenize("fn let if else while return break continue"),
        vec![
            Token::Fn,
            Token::Let,
            Token::If,
            Token::Else,
            Token::While,
            Token::Return,
            Token::Break,
            Token::Continue,
            Token::EOF,
        ]
    );
}

#[test]
fn a_word_that_only_starts_like_a_keyword_is_an_identifier() {
    assert_eq!(
        tokenize("iff fn_ _x x1 for"),
        vec![ident("iff"), ident("fn_"), ident("_x"), ident("x1"), ident("for"), Token::EOF]
    );
}

#[test]
fn punctuation_is_one_token_each() {
    assert_eq!(
        tokenize("(){},;+-*/><"),
        vec![
            Token::LParen,
            Token::RParen,
            Token::LBrace,
            Token::RBrace,
            Token::Comma,
            Token::Semicolon,
            Token::Plus,
            Token::Minus,
            Token::Star,
            Token::Slash,
            Token::Greater,
            Token::Less,
            Token::EOF,
        ]
    );
}

#[test]
fn equal_is_told_from_double_equal_by_one_character() {
    assert_eq!(tokenize("= == ==="), vec![
        Token::Equal,
        Token::EqualEqual,
        Token::EqualEqual,
        Token::Equal,
        Token::EOF,
    ]);
    assert_eq!(tokenize("="), vec![Token::Equal, Token::EOF]);
}

#[test]
fn integer_literal_is_the_longest_run_of_digits() {
    assert_eq!(tokenize("0 42 007"), vec![Token::Int(0), Token::Int(42), Token::Int(7), Token::EOF]);
    assert_eq!(tokenize("12ab"), vec![Token::Int(12), ident("ab"), Token::EOF]);
}

#[test]
fn integer_literal_too_large_is_the_largest_integer() {
    assert_eq!(tokenize("9223372036854775807"), vec![Token::Int(i64::MAX), Token::EOF]);
    assert_eq!(tokenize("9223372036854775808"), vec![Token::Int(i64::MAX), Token::EOF]);
    assert_eq!(tokenize("99999999999999999999999999"), vec![Token::Int(i64::MAX), Token::EOF]);
    assert_eq!(tokenize("9223372036854775806"), vec![Token::Int(i64::MAX - 1), Token::EOF]);
}

#[test]
fn minus_is_never_part_of_a_literal() {
    assert_eq!(tokenize("-5"), vec![Token::Minus, Token::Int(5), Token::EOF]);
}

#[test]
fn string_literal_is_taken_as_it_stands() {
    assert_eq!(
        tokenize("\"a b\\n\" \"\""),
        vec![Token::String("a b\\n".to_string()), Token::String(String::new()), Token::EOF]
    );
}

#[test]
fn unterminated_string_runs_to_the_end_of_input() {
    assert_eq!(tokenize("\"abc"), vec![Token::String("abc".to_string()), Token::EOF]);
    assert_eq!(tokenize("x \""), vec![ident("x"), Token::String(String::new()), Token::EOF]);
}

#[test]
fn unknown_characters_are_skipped() {
    assert_eq!(tokenize("a # b"), vec![ident("a"), ident("b"), Token::EOF]);
    assert_eq!(tokenize("@!$"), vec![Token::EOF]);
    assert_eq!(tokenize("1 & 2"), vec![Token::Int(1), Token::Int(2), Token::EOF]);
}

#[test]
fn identifiers_may_hold_letters_of_any_script() {
    assert_eq!(tokenize("été π2"), vec![ident("été"), ident("π2"), Token::EOF]);
}

#[test]
fn white_space_of_any_kind_separates_tokens() {
    assert_eq!(tokenize("a\u{a0}b\u{2003}c"), vec![ident("a"), ident("b"), ident("c"), Token::EOF]);
}

#[test]
fn token_kind_ignores_the_payload() {
    assert_eq!(ident("x").kind(), TokenKind::Ident);
    assert_eq!(Token::Int(3).kind(), TokenKind::Int);
    assert_eq!(Token::String("s".to_string()).kind(), TokenKind::String);
    assert_eq!(Token::EOF.kind(), TokenKind::EOF);
    assert_eq!(TokenKind::LParen.name(), "`(`");
}

#[test]
fn a_small_function_is_scanned_in_order() {
    assert_eq!(
        tokenize("fn add(a, b) { return a + b; }"),
        vec![
            Token::Fn,
            ident("add"),
            Token::LParen,
            ident("a"),
            Token::Comma,
            ident("b"),
            Token::RParen,
            Token::LBrace,
            Token::Return,
            ident("a"),
            Token::Plus,
            ident("b"),
            Token::Semicolon,
            Token::RBrace,
            Token::EOF,
        ]
    );
}
