use ssharp::error::SSharpError;
use ssharp::lexer::token::{Token, TokenKind};
use ssharp::lexer::Lexer;

fn kinds_of(source: &str) -> Vec<TokenKind> {
    let mut lexer = Lexer::new(source);
    let tokens: Vec<Token> = lexer.tokenize().unwrap();
    tokens.into_iter().map(|t| t.kind).collect()
}

fn number_value(kind: &TokenKind) -> f64 {
    match kind {
        TokenKind::Number(text) => text.parse::<f64>().unwrap(),
        other => panic!("Expected a number, found {:?}", other),
    }
}

#[test]
fn test_keywords_and_identifiers() {
    let kinds = kinds_of("when ask save to and display if repeat while define function return score");
    assert_eq!(
        kinds,
        vec![
            TokenKind::When,
            TokenKind::Ask,
            TokenKind::Save,
            TokenKind::To,
            TokenKind::And,
            TokenKind::Display,
            TokenKind::If,
            TokenKind::Repeat,
            TokenKind::While,
            TokenKind::Define,
            TokenKind::Function,
            TokenKind::Return,
            TokenKind::Identifier("score".into()),
            TokenKind::Eof
        ]
    );
}

#[test]
fn test_string_with_punctuation() {
    let kinds = kinds_of(r#"display "Hello, world." ."#);
    assert_eq!(
        kinds,
        vec![
            TokenKind::Display,
            TokenKind::String("Hello, world.".into()),
            TokenKind::Period,
            TokenKind::Eof
        ]
    );
}

#[test]
fn test_number_and_period() {
    let kinds = kinds_of("18. 3.14.");
    assert_eq!(kinds.len(), 5);
    assert_eq!(number_value(&kinds[0]), 18.0);
    assert_eq!(kinds[1], TokenKind::Period);
    assert_eq!(number_value(&kinds[2]), 3.14);
    assert_eq!(kinds[3], TokenKind::Period);
    assert_eq!(kinds[4], TokenKind::Eof);
}

#[test]
fn test_operators() {
    let kinds = kinds_of("+ - * / = > < >= <=");
    assert_eq!(
        kinds,
        vec![
            TokenKind::Plus,
            TokenKind::Minus,
            TokenKind::Star,
            TokenKind::Slash,
            TokenKind::Equals,
            TokenKind::Greater,
            TokenKind::Less,
            TokenKind::GreaterEq,
            TokenKind::LessEq,
            TokenKind::Eof
        ]
    );
}

#[test]
fn test_unknown_symbol_error() {
    let mut lexer = Lexer::new("when %");
    let err = lexer.tokenize().unwrap_err();
    match err {
        SSharpError::LexError { message, line, column } => {
            assert_eq!(message, "Unexpected character '%'");
            assert_eq!(line, 1);
            assert_eq!(column, 6);
        }
        _ => panic!("Expected LexError"),
    }
}

fn lex_error(source: &str) -> (String, usize, usize) {
    let mut lexer = Lexer::new(source);
    match lexer.tokenize() {
        Err(SSharpError::LexError { message, line, column }) => (message, line, column),
        other => panic!("Expected a lex error, got {:?}", other),
    }
}

#[test]
fn unterminated_string_is_reported_where_it_starts() {
    let (message, line, column) = lex_error("display\n  \"never closed");
    assert_eq!(message, "Unterminated string literal");
    assert_eq!((line, column), (2, 3));
}

#[test]
fn number_with_two_points_is_invalid() {
    let (message, line, column) = lex_error("save 1.2.3 to x.");
    assert_eq!(message, "Invalid number literal '1.2.3'");
    assert_eq!((line, column), (1, 6));
}

#[test]
fn point_not_followed_by_digit_ends_the_number() {
    let kinds = kinds_of("3. .5");
    assert_eq!(kinds.len(), 5);
    assert_eq!(kinds[0], TokenKind::Number("3".into()));
    assert_eq!(kinds[1], TokenKind::Period);
    assert_eq!(kinds[2], TokenKind::Period);
    assert_eq!(kinds[3], TokenKind::Number("5".into()));
    assert_eq!(kinds[4], TokenKind::Eof);
}

#[test]
fn comments_and_whitespace_make_no_tokens() {
    let kinds = kinds_of("# a comment\n\tdisplay x # another\n\u{3000}.");
    assert_eq!(
        kinds,
        vec![
            TokenKind::Display,
            TokenKind::Identifier("x".into()),
            TokenKind::Period,
            TokenKind::Eof
        ]
    );
}

#[test]
fn tokens_carry_their_line_and_column() {
    let mut lexer = Lexer::new("when (go).\n  display \"hi\".");
    let tokens = lexer.tokenize().unwrap();
    let places: Vec<(usize, usize)> = tokens.iter().map(|t| (t.line, t.column)).collect();
    assert_eq!(
        places,
        vec![(1, 1), (1, 6), (1, 7), (1, 9), (1, 10), (2, 3), (2, 11), (2, 15), (2, 16)]
    );
}

#[test]
fn underscores_and_digits_in_words() {
    let kinds = kinds_of("_total2 when_x");
    assert_eq!(
        kinds,
        vec![
            TokenKind::Identifier("_total2".into()),
            TokenKind::Identifier("when_x".into()),
            TokenKind::Eof
        ]
    );
}

#[test]
fn tokenizing_again_gives_only_the_end() {
    let mut lexer = Lexer::new("when");
    let first = lexer.tokenize().unwrap();
    assert_eq!(first.len(), 2);
    let second = lexer.tokenize().unwrap();
    assert_eq!(second.len(), 1);
    assert_eq!(second[0].kind, TokenKind::Eof);
    assert_eq!((second[0].line, second[0].column), (1, 5));
}

#[test]
fn empty_source_gives_only_the_end() {
    let mut lexer = Lexer::new("");
    let tokens = lexer.tokenize().unwrap();
    assert_eq!(tokens, vec![Token::new(TokenKind::Eof, 1, 1)]);
}
