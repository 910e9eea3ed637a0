use blvm_spec_lock::lexer::{tokens_to_rust_expr, Lexer, Token};

#[test]
fn test_lex_simple() {
    let mut lex = Lexer::new("result >= 0");
    let tokens = lex.lex();
    assert_eq!(
        tokens,
        vec![
            Token::Ident("result".to_string()),
            Token::Op(">=".to_string()),
            Token::Number("0".to_string()),
        ]
    );
}

#[test]
fn test_lex_cdot_mathrm_multiplier() {
    let mut lex = Lexer::new(r"\mathrm{subsidy} \cdot 2 \leq cap");
    let tokens = lex.lex();
    assert!(
        tokens.contains(&Token::Op("*".into())),
        "expected cdot/multiplication tokens, got {:?}",
        tokens
    );
    assert!(tokens.contains(&Token::Op("<=".into())));
    assert!(
        tokens.iter().any(|t| matches!(t, Token::Ident(i) if i == "subsidy")),
        "{tokens:?}"
    );
}

#[test]
fn test_lex_unary_negative_number() {
    let mut lex = Lexer::new("-1 <= height");
    let tokens = lex.lex();
    assert_eq!(tokens[0], Token::Number("-1".into()), "{tokens:?}");
    assert!(matches!(tokens[1], Token::Op(ref s) if s == "<="));
}

#[test]
fn test_lex_implies() {
    let mut lex = Lexer::new("h = 0 => result == INITIAL_SUBSIDY");
    let tokens = lex.lex();
    assert!(tokens.contains(&Token::Op("=>".to_string())));
}

fn op(s: &str) -> Token {
    Token::Op(s.to_string())
}

#[test]
fn written_tokens_are_read_back() {
    let tokens = vec![
        Token::Ident("f".to_string()),
        Token::Lparen,
        Token::Number("-1.5".to_string()),
        Token::Comma,
        Token::Ident("_x1".to_string()),
        Token::Rparen,
        Token::Dot,
        Token::Number("1_000".to_string()),
        op("-"),
        Token::Number("-2".to_string()),
        op("=>"),
        Token::Ident("b".to_string()),
    ];
    let text = tokens_to_rust_expr(&tokens);
    assert_eq!(text, "f (-1.5, _x1) . 1_000--2=>b");
    assert_eq!(Lexer::new(&text).lex(), tokens);
}

#[test]
fn tokens_that_run_together_are_not_read_back() {
    let minus = vec![op("-"), Token::Number("2".to_string())];
    assert_eq!(
        Lexer::new(&tokens_to_rust_expr(&minus)).lex(),
        vec![Token::Number("-2".to_string())]
    );
    let two = vec![op("<"), op("==")];
    assert_eq!(Lexer::new(&tokens_to_rust_expr(&two)).lex(), vec![op("<="), op("==")]);
}

#[test]
fn operators_have_two_operands() {
    assert_eq!(
        Lexer::new("a = b & c | d ! e").lex(),
        vec![
            Token::Ident("a".to_string()),
            op("=="),
            Token::Ident("b".to_string()),
            Token::Ident("c".to_string()),
            Token::Ident("d".to_string()),
            Token::Ident("e".to_string()),
        ]
    );
    assert_eq!(Lexer::new(r"\neg p").lex()[0], op("!"));
}
