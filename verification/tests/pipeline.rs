use rblox::parser::Parser;
use rblox::scanner::Scanner;
use rblox::token::Literal;
use rblox::token_type::TokenType;

fn scan(src: &str) -> Vec<rblox::token::Token> {
    let mut s = Scanner::new(src);
    s.scan_tokens().expect("scan should succeed")
}

#[test]
fn scans_number_literal() {
    let toks = scan("3.14");
    assert_eq!(toks.len(), 2);
    assert_eq!(toks[0].token_type, TokenType::Number);
    match &toks[0].literal {
        Some(Literal::Number(bits)) => assert_eq!(f64::from_bits(*bits), 3.14),
        other => panic!("expected number payload, got {:?}", other),
    }
    assert_eq!(toks[1].token_type, TokenType::Eof);
}

#[test]
fn scans_integer_literal() {
    let toks = scan("42");
    assert_eq!(toks[0].token_type, TokenType::Number);
    match &toks[0].literal {
        Some(Literal::Number(bits)) => assert_eq!(f64::from_bits(*bits), 42.0),
        other => panic!("expected number payload, got {:?}", other),
    }
}

#[test]
fn scans_keywords_not_identifiers() {
    let table = [
        ("and", TokenType::And),
        ("class", TokenType::Class),
        ("else", TokenType::Else),
        ("false", TokenType::False),
        ("for", TokenType::For),
        ("fun", TokenType::Fun),
        ("if", TokenType::If),
        ("nil", TokenType::Nil),
        ("or", TokenType::Or),
        ("print", TokenType::Print),
        ("return", TokenType::Return),
        ("super", TokenType::Super),
        ("this", TokenType::This),
        ("true", TokenType::True),
        ("var", TokenType::Var),
        ("while", TokenType::While),
    ];
    for (word, kind) in table {
        let toks = scan(word);
        assert_eq!(toks[0].token_type, kind, "keyword {}", word);
        assert_ne!(toks[0].token_type, TokenType::Identifier);
    }
    let toks = scan("andy");
    assert_eq!(toks[0].token_type, TokenType::Identifier);
}

#[test]
fn scans_string_literal_and_operators() {
    let toks = scan("\"hi!\" != == <= >= // comment\n+");
    assert_eq!(toks[0].token_type, TokenType::String);
    match &toks[0].literal {
        Some(Literal::Str(s)) => assert_eq!(s, "hi!"),
        other => panic!("expected string payload, got {:?}", other),
    }
    assert_eq!(toks[1].token_type, TokenType::BangEqual);
    assert_eq!(toks[2].token_type, TokenType::EqualEqual);
    assert_eq!(toks[3].token_type, TokenType::LessEqual);
    assert_eq!(toks[4].token_type, TokenType::GreaterEqual);
    assert_eq!(toks[5].token_type, TokenType::Plus);
    assert_eq!(toks[5].line, 2);
    assert_eq!(toks[6].token_type, TokenType::Eof);
}

#[test]
fn unterminated_string_is_fatal() {
    let mut s = Scanner::new("\"oops");
    let err = s.scan_tokens().expect_err("should fail");
    assert_eq!(err.message(), "Unterminated string.");
}

#[test]
fn unexpected_character_is_fatal() {
    let mut s = Scanner::new("@");
    let err = s.scan_tokens().expect_err("should fail");
    assert_eq!(err.message(), "Unexpected character");
    assert_eq!(err.line(), 1);
}

#[test]
fn parses_statements() {
    let toks = scan("var a = 1 + 2; print a; { a = 3; } if (a < 4) a = 5; else a = 6; while (false) print a; for (var i = 0; i < 3; i = i + 1) a = a + i; clock();");
    let mut p = Parser::new(toks);
    let stmts = p.parse().expect("parse should succeed");
    assert_eq!(stmts.len(), 7);
}

#[test]
fn parse_error_missing_semicolon() {
    let toks = scan("var a = 1");
    let mut p = Parser::new(toks);
    match p.parse() {
        Err(rblox::parser::ParseError::Error(_, msg)) => {
            assert_eq!(msg, "Expect ';' after variable declaration.");
        }
        Ok(_) => panic!("expected a parse error"),
    }
}

#[test]
fn parse_error_invalid_assignment_target() {
    let toks = scan("1 = 2;");
    let mut p = Parser::new(toks);
    match p.parse() {
        Err(rblox::parser::ParseError::Error(t, msg)) => {
            assert_eq!(msg, "Invalid assignment target.");
            assert_eq!(t.token_type, TokenType::Equal);
        }
        Ok(_) => panic!("expected a parse error"),
    }
}
