use minilang::ast::{render_expr, render_program, Expr, Stmt};
use minilang::parser::{
    parse_expression, parse_program, parse_source, ParseError, PREC_LOWEST,
};
use minilang::scanner::{scan, ScanError};
use minilang::token::{Token, TokenKind};

fn tokens_of(source: &str) -> Vec<Token> {
    scan(source.as_bytes()).expect("scan should succeed")
}

fn expr_of(source: &str) -> Expr {
    let toks = tokens_of(source);
    let (expr, _) = parse_expression(&toks, 0, PREC_LOWEST).expect("expression should parse");
    expr
}

fn rendered_expr(source: &str) -> String {
    String::from_utf8(render_expr(&expr_of(source))).expect("rendering is UTF-8")
}

#[test]
fn test_prefix() {
    let source = r#"
        -x
        "#;

    let toks = tokens_of(source);
    // the expression starts after the leading newline token
    let (expr, _) = parse_expression(&toks, 1, PREC_LOWEST).expect("expression should parse");

    let prefix_expr = match expr {
        Expr::Prefix(p) => p,
        other => panic!("expected a prefix expression, got {:?}", other),
    };
    assert_eq!(prefix_expr.operator, TokenKind::Minus);

    let name_expr = match *prefix_expr.operand {
        Expr::Name(id) => id,
        other => panic!("expected a name, got {:?}", other),
    };
    assert_eq!(name_expr.token.text, b"x".to_vec());
    assert_eq!(name_expr.token.kind, TokenKind::Ident);
    assert_eq!(name_expr.token.line, 2);
}

#[test]
fn prefix_binds_tighter_than_product() {
    assert_eq!(rendered_expr("-5 + 3 * 2"), "((-5) + (3 * 2))");
}

#[test]
fn addition_is_left_associative() {
    assert_eq!(rendered_expr("1 + 2 + 3"), "((1 + 2) + 3)");
}

#[test]
fn precedence_orders_comparison_below_arithmetic() {
    assert_eq!(rendered_expr("1 + 2 < 3 * 4"), "((1 + 2) < (3 * 4))");
    assert_eq!(rendered_expr("a == b != c"), "((a == b) != c)");
    assert_eq!(rendered_expr("1 * 2 / 4"), "((1 * 2) / 4)");
    assert_eq!(rendered_expr("!true == false"), "((!true) == false)");
}

#[test]
fn grouping_overrides_precedence() {
    assert_eq!(rendered_expr("(1 + 2) * 3"), "((1 + 2) * 3)");
    assert_eq!(rendered_expr("2 * (3 + 4)"), "(2 * (3 + 4))");
}

#[test]
fn two_let_statements_bind_int_and_float_literals() {
    let (program, errors) =
        parse_source("let x = 5\nlet y = 10.5".as_bytes()).expect("scan should succeed");
    assert!(errors.is_empty(), "unexpected errors: {:?}", errors);
    assert_eq!(program.statements.len(), 2);

    let Stmt::Let(first) = &program.statements[0];
    assert_eq!(first.name.name, b"x".to_vec());
    match &first.value {
        Expr::IntLit { token } => assert_eq!(token.text, b"5".to_vec()),
        other => panic!("expected an int literal, got {:?}", other),
    }

    let Stmt::Let(second) = &program.statements[1];
    assert_eq!(second.name.name, b"y".to_vec());
    match &second.value {
        Expr::FloatLit { token } => assert_eq!(token.text, b"10.5".to_vec()),
        other => panic!("expected a float literal, got {:?}", other),
    }
}

#[test]
fn missing_value_reports_one_error_without_panicking() {
    let (program, errors) = parse_source("let x =".as_bytes()).expect("scan should succeed");
    assert_eq!(program.statements.len(), 0);
    assert_eq!(errors.len(), 1);
    assert!(
        matches!(
            errors[0],
            ParseError::NoPrefixParseFn { .. } | ParseError::UnexpectedToken { .. }
        ),
        "got {:?}",
        errors[0]
    );
}

#[test]
fn parsing_resumes_after_the_next_newline() {
    let (program, errors) =
        parse_source("let x =\nlet y = 2".as_bytes()).expect("scan should succeed");
    assert_eq!(errors.len(), 1);
    assert_eq!(program.statements.len(), 1);
    let Stmt::Let(stmt) = &program.statements[0];
    assert_eq!(stmt.name.name, b"y".to_vec());
}

#[test]
fn unterminated_string_aborts_the_parse() {
    let result = parse_source("let x = \"abc".as_bytes());
    assert_eq!(result, Err(ScanError::UnterminatedString { line: 1 }));
}

#[test]
fn missing_name_is_an_unexpected_token() {
    let (_, errors) = parse_source("let 5 = 3".as_bytes()).expect("scan should succeed");
    assert_eq!(
        errors,
        vec![ParseError::UnexpectedToken {
            expected: TokenKind::Ident,
            found: TokenKind::Int,
            line: 1,
        }]
    );
}

#[test]
fn missing_assign_is_an_unexpected_token() {
    let (_, errors) = parse_source("let x 5".as_bytes()).expect("scan should succeed");
    assert_eq!(
        errors,
        vec![ParseError::UnexpectedToken {
            expected: TokenKind::Assign,
            found: TokenKind::Int,
            line: 1,
        }]
    );
}

#[test]
fn trailing_token_after_value_is_an_unexpected_token() {
    let (_, errors) = parse_source("let x = 5 6".as_bytes()).expect("scan should succeed");
    assert_eq!(
        errors,
        vec![ParseError::UnexpectedToken {
            expected: TokenKind::NewLine,
            found: TokenKind::Int,
            line: 1,
        }]
    );
}

#[test]
fn unclosed_group_is_an_unterminated_expression() {
    let (_, errors) = parse_source("let x = (1 + 2".as_bytes()).expect("scan should succeed");
    assert_eq!(errors, vec![ParseError::UnterminatedExpression { line: 1 }]);
}

#[test]
fn value_starting_with_an_operator_has_no_prefix_parse_fn() {
    let (_, errors) = parse_source("let x = *2".as_bytes()).expect("scan should succeed");
    assert_eq!(
        errors,
        vec![ParseError::NoPrefixParseFn { found: TokenKind::Star, line: 1 }]
    );
}

#[test]
fn other_statement_keywords_are_reported_not_ignored() {
    for (source, found) in [
        ("return 5", TokenKind::Return),
        ("print \"hi\"", TokenKind::Print),
        ("if true:", TokenKind::If),
        ("for i in xs:", TokenKind::For),
        ("fun f():", TokenKind::Fun),
    ] {
        let (program, errors) = parse_source(source.as_bytes()).expect("scan should succeed");
        assert_eq!(program.statements.len(), 0, "source {:?}", source);
        assert_eq!(errors.len(), 1, "source {:?}: {:?}", source, errors);
        assert_eq!(
            errors[0],
            ParseError::UnsupportedStatement { found, line: 1 },
            "source {:?}",
            source
        );
    }
}

#[test]
fn semicolon_and_newline_both_terminate_statements() {
    let (program, errors) =
        parse_source("let a = 1; let b = 2\nlet c = 3".as_bytes()).expect("scan should succeed");
    assert!(errors.is_empty(), "unexpected errors: {:?}", errors);
    assert_eq!(program.statements.len(), 3);
    let names: Vec<&[u8]> = program
        .statements
        .iter()
        .map(|s| {
            let Stmt::Let(ls) = s;
            &ls.name.name[..]
        })
        .collect();
    assert_eq!(names, vec![b"a" as &[u8], b"b", b"c"]);
}

#[test]
fn rendering_a_program_joins_statements_with_newlines() {
    let (program, errors) =
        parse_source("let x = 5\nlet y = 1 + 2 * 3".as_bytes()).expect("scan should succeed");
    assert!(errors.is_empty());
    let text = String::from_utf8(render_program(&program)).expect("rendering is UTF-8");
    assert_eq!(text, "let x = 5\nlet y = (1 + (2 * 3))");
}

#[test]
fn rendering_keeps_string_and_bool_literals() {
    let (program, errors) =
        parse_source("let s = \"hi\"; let t = true".as_bytes()).expect("scan should succeed");
    assert!(errors.is_empty());
    let text = String::from_utf8(render_program(&program)).expect("rendering is UTF-8");
    assert_eq!(text, "let s = \"hi\"\nlet t = true");
}

#[test]
fn blank_lines_between_statements_are_skipped() {
    let (program, errors) =
        parse_program(&tokens_of("\n\nlet a = 1\n\n\nlet b = 2\n\n"));
    assert!(errors.is_empty());
    assert_eq!(program.statements.len(), 2);
}
