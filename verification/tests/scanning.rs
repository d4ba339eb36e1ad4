use lox_rs::scanning::scan_tokens;
use lox_rs::scanning::token::TokenType::{
    And, Else, Equal, EqualEqual, If, LeftBrace, LeftParen, Less, LessEqual, Minus, Plus, Print,
    RightBrace, RightParen, SemiColon, Slash, Star, Var,
};
use lox_rs::scanning::token::{LiteralKind, Token, TokenError, TokenType};

fn collect_tokens(source: &str) -> Result<Vec<Token>, TokenError> {
    let mut scanner = scan_tokens(source);
    let mut tokens = Vec::new();
    while let Some(item) = scanner.next() {
        tokens.push(item?);
    }
    Ok(tokens)
}

fn tokenify(toks: Vec<Vec<TokenType>>) -> Vec<Token> {
    let mut tokens = vec![];
    for (line_number, toks) in toks.into_iter().enumerate() {
        tokens.extend(toks.into_iter().map(|token_type| Token { line_number, token_type }))
    }

    tokens
}

/// A numeric token whose lexeme converts to exactly the expected value.
fn num(lexeme: &str, value: f64) -> TokenType {
    assert_eq!(lexeme.parse::<f64>().unwrap(), value);
    TokenType::Literal(LiteralKind::Number(lexeme.to_string()))
}

fn strlit(text: &str) -> TokenType {
    TokenType::Literal(LiteralKind::Str(text.to_string()))
}

fn ident(name: &str) -> TokenType {
    TokenType::Identifier(name.to_string())
}

#[test]
fn test_math() -> Result<(), TokenError> {
    let line = "(3*5+(4/5))-3.58";
    let parsed = collect_tokens(line)?;
    let expected: Vec<_> = tokenify(vec![vec![
        LeftParen,
        num("3", 3.0),
        Star,
        num("5", 5.0),
        Plus,
        LeftParen,
        num("4", 4.0),
        Slash,
        num("5", 5.0),
        RightParen,
        RightParen,
        Minus,
        num("3.58", 3.58),
    ]]);

    assert_eq!(parsed, expected);

    Ok(())
}

#[test]
fn test_hello_world() -> Result<(), TokenError> {
    let line = "var test = \"hello world\";

            if (x == 3) {
                print test;
            }
            else if (x < 4 and x <= 3) {

                print test + \"goodbye\";
            }
        ";
    let parsed = collect_tokens(line)?;
    let expected = tokenify(vec![
        vec![Var, ident("test"), Equal, strlit("hello world"), SemiColon],
        vec![],
        vec![
            If,
            LeftParen,
            ident("x"),
            EqualEqual,
            num("3", 3.0),
            RightParen,
            LeftBrace,
        ],
        vec![Print, ident("test"), SemiColon],
        vec![RightBrace],
        vec![
            Else,
            If,
            LeftParen,
            ident("x"),
            Less,
            num("4", 4.0),
            And,
            ident("x"),
            LessEqual,
            num("3", 3.0),
            RightParen,
            LeftBrace,
        ],
        vec![],
        vec![
            Print,
            ident("test"),
            Plus,
            strlit("goodbye"),
            SemiColon,
        ],
        vec![RightBrace],
    ]);

    assert_eq!(parsed, expected);

    Ok(())
}
