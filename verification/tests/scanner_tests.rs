use minilang::scanner::{scan, ScanError, Scanner};
use minilang::token::{Token, TokenKind};

fn scan_ok(source: &str) -> Vec<Token> {
    scan(source.as_bytes()).expect("scan should succeed")
}

fn check_tokens(source: &str, expected: &[(TokenKind, &str, usize)]) {
    let tokens = scan_ok(source);
    assert_eq!(
        tokens.len(),
        expected.len(),
        "token count differs: got {:?}",
        tokens
    );
    for (i, e) in expected.iter().enumerate() {
        let t = &tokens[i];
        assert_eq!(e.0, t.kind, "position {}: expected {:?} got {:?}", i, e, t);
        assert_eq!(
            e.1.as_bytes(),
            &t.text[..],
            "position {}: expected {:?} got {:?}",
            i,
            e,
            t
        );
        assert_eq!(e.2, t.line, "position {}: expected {:?} got {:?}", i, e, t);
    }
}

#[test]
fn test_illegal() {
    let source = "👿";
    let tokens = scan_ok(source);

    let token = &tokens.first().unwrap().kind;
    assert_eq!(*token, TokenKind::Illegal);
}

#[test]
fn test_next_token() {
    let source = r#"let num1 = 5
        let num2 = 10.5

        let string = "name"; let anotherString = "another name"

        fun add(x, y):
            return x + y
        end

        let result = add(five, ten)
        !-/*<> <= >= == !=

        if true:
            return "if"
        else if false:
            return "else if"
        else:
            return "else"
        end

        for i in array:
            print "free
            numba 9"
        end
        "#;

    let expected: Vec<(TokenKind, &str, usize)> = vec![
        (TokenKind::Let, "let", 1),
        (TokenKind::Ident, "num1", 1),
        (TokenKind::Assign, "", 1),
        (TokenKind::Int, "5", 1),
        (TokenKind::NewLine, "", 2),
        (TokenKind::Let, "let", 2),
        (TokenKind::Ident, "num2", 2),
        (TokenKind::Assign, "", 2),
        (TokenKind::Float, "10.5", 2),
        (TokenKind::NewLine, "", 3),
        (TokenKind::NewLine, "", 4),
        (TokenKind::Let, "let", 4),
        (TokenKind::Ident, "string", 4),
        (TokenKind::Assign, "", 4),
        (TokenKind::Str, "name", 4),
        (TokenKind::Semicolon, "", 4),
        (TokenKind::Let, "let", 4),
        (TokenKind::Ident, "anotherString", 4),
        (TokenKind::Assign, "", 4),
        (TokenKind::Str, "another name", 4),
        (TokenKind::NewLine, "", 5),
        (TokenKind::NewLine, "", 6),
        (TokenKind::Fun, "fun", 6),
        (TokenKind::Ident, "add", 6),
        (TokenKind::LParen, "", 6),
        (TokenKind::Ident, "x", 6),
        (TokenKind::Comma, "", 6),
        (TokenKind::Ident, "y", 6),
        (TokenKind::RParen, "", 6),
        (TokenKind::Colon, "", 6),
        (TokenKind::NewLine, "", 7),
        (TokenKind::Return, "return", 7),
        (TokenKind::Ident, "x", 7),
        (TokenKind::Plus, "", 7),
        (TokenKind::Ident, "y", 7),
        (TokenKind::NewLine, "", 8),
        (TokenKind::End, "end", 8),
        (TokenKind::NewLine, "", 9),
        (TokenKind::NewLine, "", 10),
        (TokenKind::Let, "let", 10),
        (TokenKind::Ident, "result", 10),
        (TokenKind::Assign, "", 10),
        (TokenKind::Ident, "add", 10),
        (TokenKind::LParen, "", 10),
        (TokenKind::Ident, "five", 10),
        (TokenKind::Comma, "", 10),
        (TokenKind::Ident, "ten", 10),
        (TokenKind::RParen, "", 10),
        (TokenKind::NewLine, "", 11),
        (TokenKind::Bang, "", 11),
        (TokenKind::Minus, "", 11),
        (TokenKind::Slash, "", 11),
        (TokenKind::Star, "", 11),
        (TokenKind::Lt, "", 11),
        (TokenKind::Gt, "", 11),
        (TokenKind::LtEq, "", 11),
        (TokenKind::GtEq, "", 11),
        (TokenKind::Eq, "", 11),
        (TokenKind::BangEq, "", 11),
        (TokenKind::NewLine, "", 12),
        (TokenKind::NewLine, "", 13),
        (TokenKind::If, "if", 13),
        (TokenKind::True, "true", 13),
        (TokenKind::Colon, "", 13),
        (TokenKind::NewLine, "", 14),
        (TokenKind::Return, "return", 14),
        (TokenKind::Str, "if", 14),
        (TokenKind::NewLine, "", 15),
        (TokenKind::Else, "else", 15),
        (TokenKind::If, "if", 15),
        (TokenKind::False, "false", 15),
        (TokenKind::Colon, "", 15),
        (TokenKind::NewLine, "", 16),
        (TokenKind::Return, "return", 16),
        (TokenKind::Str, "else if", 16),
        (TokenKind::NewLine, "", 17),
        (TokenKind::Else, "else", 17),
        (TokenKind::Colon, "", 17),
        (TokenKind::NewLine, "", 18),
        (TokenKind::Return, "return", 18),
        (TokenKind::Str, "else", 18),
        (TokenKind::NewLine, "", 19),
        (TokenKind::End, "end", 19),
        (TokenKind::NewLine, "", 20),
        (TokenKind::NewLine, "", 21),
        (TokenKind::For, "for", 21),
        (TokenKind::Ident, "i", 21),
        (TokenKind::In, "in", 21),
        (TokenKind::Ident, "array", 21),
        (TokenKind::Colon, "", 21),
        (TokenKind::NewLine, "", 22),
        (TokenKind::Print, "print", 22),
        (TokenKind::Str, "free\n            numba 9", 23),
        (TokenKind::NewLine, "", 24),
        (TokenKind::End, "end", 24),
        (TokenKind::NewLine, "", 25),
        (TokenKind::Eof, "", 25),
    ];

    check_tokens(source, &expected);
}

#[test]
fn whitespace_only_scans_to_eof() {
    for source in ["", " ", "   \t\r  ", "\t\t", "\r \t"] {
        let tokens = scan_ok(source);
        assert_eq!(tokens.len(), 1, "source {:?}", source);
        assert_eq!(tokens[0].kind, TokenKind::Eof);
        assert_eq!(tokens[0].text, b"".to_vec());
        assert_eq!(tokens[0].line, 1);
    }
}

#[test]
fn identifier_keeps_its_spelling() {
    for name in ["foo_bar123", "x", "_hidden", "anotherString", "letter", "iffy", "ended"] {
        let tokens = scan_ok(name);
        assert_eq!(tokens.len(), 2, "source {:?}", name);
        assert_eq!(tokens[0].kind, TokenKind::Ident, "source {:?}", name);
        assert_eq!(tokens[0].text, name.as_bytes().to_vec());
        assert_eq!(tokens[1].kind, TokenKind::Eof);
    }
}

#[test]
fn keywords_scan_to_their_kinds() {
    let table = [
        ("let", TokenKind::Let),
        ("fun", TokenKind::Fun),
        ("return", TokenKind::Return),
        ("end", TokenKind::End),
        ("if", TokenKind::If),
        ("else", TokenKind::Else),
        ("for", TokenKind::For),
        ("in", TokenKind::In),
        ("true", TokenKind::True),
        ("false", TokenKind::False),
        ("print", TokenKind::Print),
    ];
    for (word, kind) in table {
        let tokens = scan_ok(word);
        assert_eq!(tokens.len(), 2, "keyword {:?}", word);
        assert_eq!(tokens[0].kind, kind, "keyword {:?}", word);
        assert_eq!(tokens[0].text, word.as_bytes().to_vec());
    }
}

#[test]
fn keyword_table_is_exact_match_not_prefix_match() {
    for word in ["lets", "funs", "returns", "ends", "iff", "elsewhere", "fore", "ins", "truer", "falsey", "prints", "le", "tru"] {
        let tokens = scan_ok(word);
        assert_eq!(tokens[0].kind, TokenKind::Ident, "word {:?}", word);
        assert_eq!(tokens[0].text, word.as_bytes().to_vec());
    }
}

#[test]
fn token_scans_the_same_alone_as_embedded() {
    // the tokens of a larger program, rescanned from their own source text
    let program = "let x = 42.5 <= (7 + y)\n";
    let embedded = scan_ok(program);
    let slices = [
        ("let", 0),
        ("x", 1),
        ("=", 2),
        ("42.5", 3),
        ("<=", 4),
        ("(", 5),
        ("7", 6),
        ("+", 7),
        ("y", 8),
        (")", 9),
    ];
    for (text, idx) in slices {
        let alone = scan_ok(text);
        assert_eq!(alone[0].kind, embedded[idx].kind, "slice {:?}", text);
        assert_eq!(alone[0].text, embedded[idx].text, "slice {:?}", text);
    }
}

#[test]
fn unterminated_string_is_a_fatal_scan_error() {
    let result = scan("\"abc".as_bytes());
    assert_eq!(result, Err(ScanError::UnterminatedString { line: 1 }));

    let result = scan("let x = 1\n\"abc".as_bytes());
    assert_eq!(result, Err(ScanError::UnterminatedString { line: 2 }));
}

#[test]
fn string_contents_keep_embedded_newlines() {
    let tokens = scan_ok("\"a\nb\"");
    assert_eq!(tokens[0].kind, TokenKind::Str);
    assert_eq!(tokens[0].text, b"a\nb".to_vec());
    assert_eq!(tokens[0].line, 2);
    assert_eq!(tokens[1].kind, TokenKind::Eof);
}

#[test]
fn comments_produce_no_tokens() {
    let tokens = scan_ok("// a comment\n5 // another\n");
    let kinds: Vec<TokenKind> = tokens.iter().map(|t| t.kind).collect();
    assert_eq!(
        kinds,
        vec![
            TokenKind::NewLine,
            TokenKind::Int,
            TokenKind::NewLine,
            TokenKind::Eof,
        ]
    );
    assert_eq!(tokens[1].text, b"5".to_vec());
    assert_eq!(tokens[1].line, 2);
}

#[test]
fn two_character_operators_use_longest_match() {
    let tokens = scan_ok("<= >= == != < > ! = /");
    let kinds: Vec<TokenKind> = tokens.iter().map(|t| t.kind).collect();
    assert_eq!(
        kinds,
        vec![
            TokenKind::LtEq,
            TokenKind::GtEq,
            TokenKind::Eq,
            TokenKind::BangEq,
            TokenKind::Lt,
            TokenKind::Gt,
            TokenKind::Bang,
            TokenKind::Assign,
            TokenKind::Slash,
            TokenKind::Eof,
        ]
    );
}

#[test]
fn number_without_fraction_digit_stays_int() {
    // a dot not followed by a digit is not part of the number
    let tokens = scan_ok("5.");
    assert_eq!(tokens[0].kind, TokenKind::Int);
    assert_eq!(tokens[0].text, b"5".to_vec());
    assert_eq!(tokens[1].kind, TokenKind::Illegal);
    assert_eq!(tokens[2].kind, TokenKind::Eof);
}

#[test]
fn next_token_hands_out_tokens_one_by_one() {
    let mut scanner = Scanner::new(b"let x = 5".to_vec());
    let expected = [
        TokenKind::Let,
        TokenKind::Ident,
        TokenKind::Assign,
        TokenKind::Int,
        TokenKind::Eof,
        // once end of input is reached, every further call yields Eof again
        TokenKind::Eof,
        TokenKind::Eof,
    ];
    for kind in expected {
        let token = scanner.next_token().expect("no fatal error in this input");
        assert_eq!(token.kind, kind);
    }
}

#[test]
fn next_token_returns_tokens_before_an_unterminated_string() {
    let mut scanner = Scanner::new(b"x \"abc".to_vec());
    let first = scanner.next_token().expect("the identifier scans cleanly");
    assert_eq!(first.kind, TokenKind::Ident);
    assert_eq!(first.text, b"x".to_vec());
    let second = scanner.next_token();
    assert_eq!(second, Err(ScanError::UnterminatedString { line: 1 }));
}

#[test]
fn illegal_bytes_do_not_stop_the_scan() {
    let tokens = scan_ok("#5");
    assert_eq!(tokens[0].kind, TokenKind::Illegal);
    assert_eq!(tokens[1].kind, TokenKind::Int);
    assert_eq!(tokens[1].text, b"5".to_vec());
    assert_eq!(tokens[2].kind, TokenKind::Eof);
}
