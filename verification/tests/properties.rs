use lox_rs::scanning::scan_tokens;
use lox_rs::scanning::token::{LiteralKind, Token, TokenError, TokenErrorKind, TokenType};

fn collect_items(source: &str) -> Vec<Result<Token, TokenError>> {
    let mut scanner = scan_tokens(source);
    let mut items = Vec::new();
    while let Some(item) = scanner.next() {
        items.push(item);
    }
    items
}

fn token(token_type: TokenType, line_number: usize) -> Result<Token, TokenError> {
    Ok(Token { token_type, line_number })
}

fn error(kind: TokenErrorKind, line_number: usize) -> Result<Token, TokenError> {
    Err(TokenError { line_number, kind })
}

fn number(lexeme: &str) -> TokenType {
    TokenType::Literal(LiteralKind::Number(lexeme.to_string()))
}

fn ident(name: &str) -> TokenType {
    TokenType::Identifier(name.to_string())
}

#[test]
fn single_character_punctuation() {
    let cases = vec![
        ("(", TokenType::LeftParen),
        (")", TokenType::RightParen),
        ("{", TokenType::LeftBrace),
        ("}", TokenType::RightBrace),
        (",", TokenType::Comma),
        (".", TokenType::Dot),
        ("-", TokenType::Minus),
        ("+", TokenType::Plus),
        (";", TokenType::SemiColon),
        ("/", TokenType::Slash),
        ("*", TokenType::Star),
    ];
    for (source, expected) in cases {
        assert_eq!(collect_items(source), vec![token(expected, 0)]);
    }
}

#[test]
fn two_character_operators_compound() {
    let cases = vec![
        ("!=", TokenType::BangEqual),
        ("==", TokenType::EqualEqual),
        ("<=", TokenType::LessEqual),
        (">=", TokenType::GreaterEqual),
    ];
    for (source, expected) in cases {
        assert_eq!(collect_items(source), vec![token(expected, 0)]);
    }
}

#[test]
fn two_character_operators_single() {
    let cases = vec![
        ("!", TokenType::Bang),
        ("=", TokenType::Equal),
        ("<", TokenType::Less),
        (">", TokenType::Greater),
    ];
    for (source, expected) in cases {
        assert_eq!(collect_items(source), vec![token(expected, 0)]);
    }
}

#[test]
fn two_character_operators_leave_next_character() {
    // The character after the single-character operator is not consumed: it is
    // scanned as the following token.
    assert_eq!(
        collect_items("!3"),
        vec![token(TokenType::Bang, 0), token(number("3"), 0)]
    );
    assert_eq!(
        collect_items("<4"),
        vec![token(TokenType::Less, 0), token(number("4"), 0)]
    );
    assert_eq!(
        collect_items(">!"),
        vec![token(TokenType::Greater, 0), token(TokenType::Bang, 0)]
    );
    assert_eq!(
        collect_items("=("),
        vec![token(TokenType::Equal, 0), token(TokenType::LeftParen, 0)]
    );
}

#[test]
fn keywords_scan_as_keywords() {
    let cases = vec![
        ("and", TokenType::And),
        ("class", TokenType::Class),
        ("else", TokenType::Else),
        ("false", TokenType::False),
        ("fun", TokenType::Fun),
        ("for", TokenType::For),
        ("if", TokenType::If),
        ("nil", TokenType::Nil),
        ("or", TokenType::Or),
        ("print", TokenType::Print),
        ("return", TokenType::Return),
        ("super", TokenType::Super),
        ("this", TokenType::This),
        ("true", TokenType::True),
        ("var", TokenType::Var),
        ("while", TokenType::While),
    ];
    for (source, expected) in cases {
        assert_eq!(collect_items(source), vec![token(expected, 0)]);
    }
}

#[test]
fn keyword_near_misses_are_identifiers() {
    assert_eq!(collect_items("iff"), vec![token(ident("iff"), 0)]);
    assert_eq!(collect_items("andx"), vec![token(ident("andx"), 0)]);
}

#[test]
fn number_with_fraction() {
    let items = collect_items("3.58");
    assert_eq!(items, vec![token(number("3.58"), 0)]);
    assert_eq!("3.58".parse::<f64>().unwrap(), 3.58);
}

#[test]
fn trailing_dot_is_not_part_of_number() {
    // A dot not followed by a digit stays unconsumed and scans as `Dot`.
    let items = collect_items("3.");
    assert_eq!(items, vec![token(number("3"), 0), token(TokenType::Dot, 0)]);
    assert_eq!("3".parse::<f64>().unwrap(), 3.0);
}

#[test]
fn second_decimal_point_ends_number() {
    assert_eq!(
        collect_items("1.2.3"),
        vec![
            token(number("1.2"), 0),
            token(TokenType::Dot, 0),
            token(number("3"), 0),
        ]
    );
}

#[test]
fn unterminated_string() {
    assert_eq!(
        collect_items("\"abc"),
        vec![error(TokenErrorKind::MissingCharacter('"'), 0)]
    );
}

#[test]
fn string_contents_are_verbatim() {
    assert_eq!(
        collect_items("\"hello world\""),
        vec![token(
            TokenType::Literal(LiteralKind::Str("hello world".to_string())),
            0
        )]
    );
}

#[test]
fn string_may_span_lines() {
    // The newline inside the string is consumed and counted, but the token
    // reports the line of its start; the next token stands on the next line.
    assert_eq!(
        collect_items("\"a\nb\"c"),
        vec![
            token(TokenType::Literal(LiteralKind::Str("a\nb".to_string())), 0),
            token(ident("c"), 1),
        ]
    );
}

#[test]
fn line_tracking_counts_consumed_newlines() {
    assert_eq!(
        collect_items("a\nb\n\nc"),
        vec![
            token(ident("a"), 0),
            token(ident("b"), 1),
            token(ident("c"), 3),
        ]
    );
}

#[test]
fn comment_skipping() {
    assert_eq!(
        collect_items("1 // comment\n2"),
        vec![token(number("1"), 0), token(number("2"), 1)]
    );
    assert_eq!("1".parse::<f64>().unwrap(), 1.0);
    assert_eq!("2".parse::<f64>().unwrap(), 2.0);
}

#[test]
fn trailing_comment_without_newline_ends_cleanly() {
    assert_eq!(collect_items("// just a comment"), vec![]);
    assert_eq!(collect_items("1 // trailing"), vec![token(number("1"), 0)]);
}

#[test]
fn unexpected_character_error() {
    assert_eq!(
        collect_items("@"),
        vec![error(TokenErrorKind::UnexpectedCharacter('@'), 0)]
    );
}

#[test]
fn error_resumption_interleaves_in_order() {
    assert_eq!(
        collect_items("1 @ 2"),
        vec![
            token(number("1"), 0),
            error(TokenErrorKind::UnexpectedCharacter('@'), 0),
            token(number("2"), 0),
        ]
    );
}

#[test]
fn underscore_is_not_an_identifier_character() {
    assert_eq!(
        collect_items("a_b"),
        vec![
            token(ident("a"), 0),
            error(TokenErrorKind::UnexpectedCharacter('_'), 0),
            token(ident("b"), 0),
        ]
    );
}

#[test]
fn empty_and_blank_inputs_yield_nothing() {
    assert_eq!(collect_items(""), vec![]);
    assert_eq!(collect_items(" \t\r\n  \n"), vec![]);
}

#[test]
fn consume_pulls_one_item() {
    let mut scanner = scan_tokens("+ -");
    let first = lox_rs::scanning::token::Token::consume(&mut scanner);
    assert_eq!(first, Some(token(TokenType::Plus, 0)));
    let second = lox_rs::scanning::token::Token::consume(&mut scanner);
    assert_eq!(second, Some(token(TokenType::Minus, 0)));
    assert_eq!(lox_rs::scanning::token::Token::consume(&mut scanner), None);
}
