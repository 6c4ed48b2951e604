use ssharp::error::SSharpError;
use ssharp::lexer::token::{Token, TokenKind, push_kind_text};
use ssharp::lexer::Lexer;
use ssharp::parser::ast::{BinOp, Expr, Program, Stmt};
use ssharp::parser::{Parser, SyntaxError};

/// The debug form of the float a number token stands for, as messages show it.
fn number_value(kind: &TokenKind) -> String {
    match kind {
        TokenKind::Number(text) => format!("{:?}", text.parse::<f64>().unwrap()),
        _ => String::new(),
    }
}

fn full_error(e: SyntaxError) -> SSharpError {
    e.to_parse_error(&number_value(&e.found))
}

fn parse_source(source: &str) -> Result<Program, SSharpError> {
    let mut lexer = Lexer::new(source);
    let tokens = lexer.tokenize()?;
    let mut parser = Parser::new(tokens);
    parser.parse().map_err(full_error)
}

#[test]
fn test_parse_primary_milestone() {
    let source = r#"
        when (start_clicked).
        ask "How old are you?" and save to age.
        if (age >= 18), display "Access granted".
        if (age < 18), display "Access denied".
    "#;

    let program = parse_source(source).unwrap();

    assert_eq!(program.event.event_name, "start_clicked");
    assert_eq!(program.event.body.len(), 3);

    match &program.event.body[0] {
        Stmt::Ask { prompt, target } => {
            assert_eq!(prompt, "How old are you?");
            assert_eq!(target, "age");
        }
        _ => panic!("Expected Stmt::Ask"),
    }

    match &program.event.body[1] {
        Stmt::If { condition, actions } => {
            assert_eq!(actions.len(), 1);
            assert!(matches!(condition, Expr::Binary { op: BinOp::GtEq, .. }));
        }
        _ => panic!("Expected Stmt::If"),
    }

    match &program.event.body[2] {
        Stmt::If { condition, actions } => {
            assert_eq!(actions.len(), 1);
            assert!(matches!(condition, Expr::Binary { op: BinOp::Lt, .. }));
        }
        _ => panic!("Expected Stmt::If"),
    }
}

#[test]
fn test_parse_repeat_and_save() {
    let source = "when (test). save 10 to score. repeat (5), display score.";
    let program = parse_source(source).unwrap();

    assert_eq!(program.event.body.len(), 2);
    assert!(matches!(&program.event.body[0], Stmt::Assign { target, .. } if target == "score"));
    assert!(matches!(&program.event.body[1], Stmt::Repeat { .. }));
}

#[test]
fn precedence_multiplication_binds_tighter_than_addition() {
    let program = parse_source("when (go). display 1 + 2 * 3.").unwrap();
    match &program.event.body[0] {
        Stmt::Display { value: Expr::Binary { left, op: BinOp::Add, right } } => {
            assert_eq!(**left, Expr::Number("1".into()));
            assert!(matches!(**right, Expr::Binary { op: BinOp::Mul, .. }));
        }
        other => panic!("Expected an addition, found {:?}", other),
    }
}

#[test]
fn subtraction_groups_to_the_left() {
    let program = parse_source("when (go). display 8 - 4 - 2.").unwrap();
    match &program.event.body[0] {
        Stmt::Display { value: Expr::Binary { left, op: BinOp::Sub, right } } => {
            assert!(matches!(**left, Expr::Binary { op: BinOp::Sub, .. }));
            assert_eq!(**right, Expr::Number("2".into()));
        }
        other => panic!("Expected a subtraction, found {:?}", other),
    }
}

#[test]
fn comparison_binds_loosest_and_parentheses_group() {
    let program = parse_source("when (go). display (1 + 2) * 3 >= x.").unwrap();
    match &program.event.body[0] {
        Stmt::Display { value: Expr::Binary { left, op: BinOp::GtEq, right } } => {
            assert!(matches!(**left, Expr::Binary { op: BinOp::Mul, .. }));
            assert_eq!(**right, Expr::Identifier("x".into()));
        }
        other => panic!("Expected a comparison, found {:?}", other),
    }
}

#[test]
fn expression_and_save_to_is_an_assignment() {
    let program = parse_source("when (go). 2 + 3 and save to total.").unwrap();
    match &program.event.body[0] {
        Stmt::Assign { value, target } => {
            assert_eq!(target, "total");
            assert!(matches!(value, Expr::Binary { op: BinOp::Add, .. }));
        }
        other => panic!("Expected an assignment, found {:?}", other),
    }
}

#[test]
fn ask_without_target_saves_nowhere() {
    let program = parse_source("when (go). ask \"Name?\".").unwrap();
    match &program.event.body[0] {
        Stmt::Ask { prompt, target } => {
            assert_eq!(prompt, "Name?");
            assert_eq!(target, "");
        }
        other => panic!("Expected an ask, found {:?}", other),
    }
}

#[test]
fn function_definition_with_parameters() {
    let program = parse_source("when (go). define function add(a, b), return a + b.").unwrap();
    match &program.event.body[0] {
        Stmt::FunctionDef { name, params, return_expr } => {
            assert_eq!(name, "add");
            assert_eq!(params, &vec!["a".to_string(), "b".to_string()]);
            assert!(matches!(return_expr, Expr::Binary { op: BinOp::Add, .. }));
        }
        other => panic!("Expected a function definition, found {:?}", other),
    }
}

#[test]
fn action_list_with_commas_and_while() {
    let program = parse_source("when (go). while (x < 3), display x, save x + 1 to x.").unwrap();
    match &program.event.body[0] {
        Stmt::While { actions, .. } => assert_eq!(actions.len(), 2),
        other => panic!("Expected a while, found {:?}", other),
    }
}

#[test]
fn body_stops_at_next_when() {
    let program = parse_source("when (a). display 1. when (b). display 2.").unwrap();
    assert_eq!(program.event.event_name, "a");
    assert_eq!(program.event.body.len(), 1);
}

fn parse_error(source: &str) -> (String, usize, usize) {
    match parse_source(source) {
        Err(SSharpError::ParseError { message, line, column }) => (message, line, column),
        other => panic!("Expected a parse error, got {:?}", other),
    }
}

#[test]
fn missing_when_is_reported() {
    let (message, line, column) = parse_error("display 1.");
    assert_eq!(message, "Expected 'when' keyword at program start, found Display");
    assert_eq!((line, column), (1, 1));
}

#[test]
fn missing_period_is_reported_at_the_token_found() {
    let (message, line, column) = parse_error("when (go).\ndisplay \"hi\"");
    assert_eq!(message, "Expected '.' to close statement, found Eof");
    assert_eq!((line, column), (2, 13));
}

#[test]
fn unexpected_statement_is_reported_at_its_start() {
    let (message, line, column) = parse_error("when (go). x + 1.");
    assert_eq!(message, "Unexpected statement starting with Identifier(\"x\")");
    assert_eq!((line, column), (1, 12));
}

#[test]
fn missing_primary_is_reported() {
    let (message, _, _) = parse_error("when (go). display .");
    assert_eq!(
        message,
        "Expected expression primary (number, string, variable, or '(expr)'), found Period"
    );
}

#[test]
fn bad_action_separator_is_reported() {
    let (message, _, _) = parse_error("when (go). if (1), display 1 display 2.");
    assert_eq!(message, "Expected ',' or '.' after action in statement body, found Display");
}

#[test]
fn string_token_in_message_is_quoted_and_escaped() {
    let (message, _, _) = parse_error("when (go). save \"a\\b\".");
    assert_eq!(message, "Expected 'to' after expression in save statement, found Period");
    let (message, _, _) = parse_error("when (\"x\\y\").");
    assert_eq!(
        message,
        "Expected event identifier inside 'when(...)', found String(\"x\\\\y\")"
    );
}

#[test]
fn tokens_without_end_are_read_up_to_the_last() {
    let tokens = vec![Token::new(TokenKind::When, 3, 4)];
    let mut parser = Parser::new(tokens);
    match parser.parse().map_err(full_error) {
        Err(SSharpError::ParseError { message, line, column }) => {
            assert_eq!(message, "Expected '(' after 'when', found When");
            assert_eq!((line, column), (3, 4));
        }
        other => panic!("Expected a parse error, got {:?}", other),
    }
}

#[test]
fn control_characters_in_messages_are_escaped() {
    let (message, _, _) = parse_error("when (\"a\nb\u{1}\").");
    assert_eq!(
        message,
        "Expected event identifier inside 'when(...)', found String(\"a\\nb\\u{1}\")"
    );
}

#[test]
fn parse_error_text_names_the_place() {
    let e = parse_source("when (go)\ndisplay 1.").unwrap_err();
    assert_eq!(
        e.to_text(),
        "Parse Error at line 2, column 1: Expected '.' after 'when (...)' block header, found Display"
    );
}

#[test]
fn number_token_in_message_shows_its_value() {
    let (message, _, _) = parse_error("when (go). 3.5.");
    assert_eq!(message, "Unexpected statement starting with Number(3.5)");
    let (message, _, _) = parse_error("when (go). 18.");
    assert_eq!(message, "Unexpected statement starting with Number(18.0)");
}

#[test]
fn number_tokens_are_shown_with_the_float_they_stand_for() {
    for (literal, shown) in [
        ("0", "0.0"),
        ("007", "7.0"),
        ("1.50", "1.5"),
        ("0.00001", "1e-5"),
        ("10000000000000000", "1e16"),
        ("9007199254740993", "9007199254740992.0"),
        ("0.10000000000000001", "0.1"),
    ] {
        let (message, _, _) = parse_error(&format!("when (go). {}.", literal));
        assert_eq!(message, format!("Unexpected statement starting with Number({})", shown));
    }
    let big = format!("when (go). 2{}.", "0".repeat(308));
    let (message, _, _) = parse_error(&big);
    assert_eq!(message, "Unexpected statement starting with Number(inf)");
}

#[test]
fn syntax_error_keeps_the_token_found() {
    let mut lexer = Lexer::new("when (go). save 1 and 12.");
    let mut parser = Parser::new(lexer.tokenize().unwrap());
    let e = parser.parse().unwrap_err();
    assert_eq!(e.lead, "Expected 'to' after expression in save statement, found ");
    assert_eq!(e.found, TokenKind::And);
    assert_eq!((e.line, e.column), (1, 19));
    match e.to_parse_error("ignored") {
        SSharpError::ParseError { message, line, column } => {
            assert_eq!(message, "Expected 'to' after expression in save statement, found And");
            assert_eq!((line, column), (1, 19));
        }
        other => panic!("Expected a parse error, got {:?}", other),
    }
}

#[test]
fn texts_in_messages_are_in_the_debug_form_of_strings() {
    for text in ["plain", "tab\there", "quote\"", "back\\slash", "\u{85}next", "caf\u{e9}", "\u{301}mark"] {
        let mut shown = String::new();
        push_kind_text(&mut shown, &TokenKind::String(text.into()), "");
        assert_eq!(shown, format!("String({:?})", text));
        let mut shown = String::new();
        push_kind_text(&mut shown, &TokenKind::Identifier(text.into()), "");
        assert_eq!(shown, format!("Identifier({:?})", text));
    }
    let mut shown = String::new();
    push_kind_text(&mut shown, &TokenKind::String("\u{85}".into()), "");
    assert_eq!(shown, "String(\"\\u{85}\")");
}
