use vstd::prelude::*;

use crate::scanning::{
    Scanner, ScannerView, TokenResult, digits_end, is_alnum_char, is_digit_char, find_from, ident_end, is_lex_alnum,
    is_lex_digit, lemma_digits_end, lemma_find_from, lemma_ident_end,
    lemma_newlines_none, lemma_newlines_split, lemma_skip_ws_from, newlines_between,
    number_cont_end, skip_ws_from,
};

verus! {

// ---------------------------------------------------------------------------
// Tokens
// ---------------------------------------------------------------------------

/// The classification of one lexical unit. Punctuation, operators and the
/// sixteen reserved words carry no payload; identifiers and literals carry
/// their text.
#[derive(Debug, Clone, PartialEq)]
pub enum TokenType {
    LeftParen,
    RightParen,
    LeftBrace,
    RightBrace,
    Comma,
    Dot,
    Minus,
    Plus,
    SemiColon,
    Slash,
    Star,
    Bang,
    BangEqual,
    Equal,
    EqualEqual,
    Greater,
    GreaterEqual,
    Less,
    LessEqual,
    And,
    Class,
    Else,
    False,
    Fun,
    For,
    If,
    Nil,
    Or,
    Print,
    Return,
    Super,
    This,
    True,
    Var,
    While,
    Identifier(String),
    Literal(LiteralKind),
}

/// A literal's payload: the verbatim contents of a string literal, or the
/// lexeme of a numeric literal. A numeric lexeme is a digit run, optionally
/// continued by a decimal point and a further digit run, so a driver can
/// convert it to its numeric value without failure.
#[derive(Debug, Clone, PartialEq)]
pub enum LiteralKind {
    Str(String),
    Number(String),
}

/// One classified lexical unit together with the line on which its first
/// character was consumed: the zero-based count of newline characters consumed
/// before that character. The line number is fixed at the token's start and
/// does not change even when a string literal's contents span further lines.
#[derive(Debug, PartialEq)]
pub struct Token {
    pub token_type: TokenType,
    pub line_number: usize,
}

/// What went wrong while recognizing one token.
#[derive(Debug, Clone, PartialEq)]
pub enum TokenErrorKind {
    /// A character that no token can begin with.
    UnexpectedCharacter(char),
    /// The input ended before the expected character was found.
    MissingCharacter(char),
    /// A numeric lexeme that cannot be converted to a number. The digit-only
    /// accumulation rules keep every produced lexeme convertible, so the
    /// scanner never yields this kind; it stays representable for drivers
    /// that convert numeric lexemes themselves.
    NumericConversionFailure(String),
}

/// A lexical error together with the line on which it was detected.
#[derive(Debug, Clone, PartialEq)]
pub struct TokenError {
    pub line_number: usize,
    pub kind: TokenErrorKind,
}

// ---------------------------------------------------------------------------
// Mathematical views of tokens and errors
// ---------------------------------------------------------------------------

/// [`TokenType`] with every text payload as a character sequence.
pub ghost enum TokenTypeView {
    LeftParen,
    RightParen,
    LeftBrace,
    RightBrace,
    Comma,
    Dot,
    Minus,
    Plus,
    SemiColon,
    Slash,
    Star,
    Bang,
    BangEqual,
    Equal,
    EqualEqual,
    Greater,
    GreaterEqual,
    Less,
    LessEqual,
    And,
    Class,
    Else,
    False,
    Fun,
    For,
    If,
    Nil,
    Or,
    Print,
    Return,
    Super,
    This,
    True,
    Var,
    While,
    Identifier(Seq<char>),
    Literal(LiteralKindView),
}

/// [`LiteralKind`] with its text as a character sequence.
pub ghost enum LiteralKindView {
    Str(Seq<char>),
    Number(Seq<char>),
}

/// [`Token`] over mathematical values.
pub ghost struct TokenView {
    pub token_type: TokenTypeView,
    pub line_number: int,
}

/// [`TokenErrorKind`] over mathematical values.
pub ghost enum TokenErrorKindView {
    UnexpectedCharacter(char),
    MissingCharacter(char),
    NumericConversionFailure(Seq<char>),
}

/// [`TokenError`] over mathematical values.
pub ghost struct TokenErrorView {
    pub line_number: int,
    pub kind: TokenErrorKindView,
}

impl View for LiteralKind {
    type V = LiteralKindView;

    open spec fn view(&self) -> LiteralKindView {
        match self {
            LiteralKind::Str(s) => LiteralKindView::Str(s@),
            LiteralKind::Number(s) => LiteralKindView::Number(s@),
        }
    }
}

impl View for TokenType {
    type V = TokenTypeView;

    open spec fn view(&self) -> TokenTypeView {
        match self {
            TokenType::LeftParen => TokenTypeView::LeftParen,
            TokenType::RightParen => TokenTypeView::RightParen,
            TokenType::LeftBrace => TokenTypeView::LeftBrace,
            TokenType::RightBrace => TokenTypeView::RightBrace,
            TokenType::Comma => TokenTypeView::Comma,
            TokenType::Dot => TokenTypeView::Dot,
            TokenType::Minus => TokenTypeView::Minus,
            TokenType::Plus => TokenTypeView::Plus,
            TokenType::SemiColon => TokenTypeView::SemiColon,
            TokenType::Slash => TokenTypeView::Slash,
            TokenType::Star => TokenTypeView::Star,
            TokenType::Bang => TokenTypeView::Bang,
            TokenType::BangEqual => TokenTypeView::BangEqual,
            TokenType::Equal => TokenTypeView::Equal,
            TokenType::EqualEqual => TokenTypeView::EqualEqual,
            TokenType::Greater => TokenTypeView::Greater,
            TokenType::GreaterEqual => TokenTypeView::GreaterEqual,
            TokenType::Less => TokenTypeView::Less,
            TokenType::LessEqual => TokenTypeView::LessEqual,
            TokenType::And => TokenTypeView::And,
            TokenType::Class => TokenTypeView::Class,
            TokenType::Else => TokenTypeView::Else,
            TokenType::False => TokenTypeView::False,
            TokenType::Fun => TokenTypeView::Fun,
            TokenType::For => TokenTypeView::For,
            TokenType::If => TokenTypeView::If,
            TokenType::Nil => TokenTypeView::Nil,
            TokenType::Or => TokenTypeView::Or,
            TokenType::Print => TokenTypeView::Print,
            TokenType::Return => TokenTypeView::Return,
            TokenType::Super => TokenTypeView::Super,
            TokenType::This => TokenTypeView::This,
            TokenType::True => TokenTypeView::True,
            TokenType::Var => TokenTypeView::Var,
            TokenType::While => TokenTypeView::While,
            TokenType::Identifier(s) => TokenTypeView::Identifier(s@),
            TokenType::Literal(k) => TokenTypeView::Literal(k@),
        }
    }
}

impl View for Token {
    type V = TokenView;

    open spec fn view(&self) -> TokenView {
        TokenView { token_type: self.token_type@, line_number: self.line_number as int }
    }
}

impl View for TokenErrorKind {
    type V = TokenErrorKindView;

    open spec fn view(&self) -> TokenErrorKindView {
        match self {
            TokenErrorKind::UnexpectedCharacter(c) => TokenErrorKindView::UnexpectedCharacter(*c),
            TokenErrorKind::MissingCharacter(c) => TokenErrorKindView::MissingCharacter(*c),
            TokenErrorKind::NumericConversionFailure(s) => TokenErrorKindView::NumericConversionFailure(s@),
        }
    }
}

impl View for TokenError {
    type V = TokenErrorView;

    open spec fn view(&self) -> TokenErrorView {
        TokenErrorView { line_number: self.line_number as int, kind: self.kind@ }
    }
}

// ---------------------------------------------------------------------------
// The recognition rules as mathematical functions
// ---------------------------------------------------------------------------

/// The token made of the single character `c`, for the fixed punctuation set.
/// A slash is not here: it may begin a comment and is dispatched separately.
pub open spec fn single_punct_token(c: char) -> Option<TokenTypeView> {
    if c == '(' {
        Some(TokenTypeView::LeftParen)
    } else if c == ')' {
        Some(TokenTypeView::RightParen)
    } else if c == '{' {
        Some(TokenTypeView::LeftBrace)
    } else if c == '}' {
        Some(TokenTypeView::RightBrace)
    } else if c == ',' {
        Some(TokenTypeView::Comma)
    } else if c == '.' {
        Some(TokenTypeView::Dot)
    } else if c == '-' {
        Some(TokenTypeView::Minus)
    } else if c == '+' {
        Some(TokenTypeView::Plus)
    } else if c == ';' {
        Some(TokenTypeView::SemiColon)
    } else if c == '*' {
        Some(TokenTypeView::Star)
    } else {
        None
    }
}

/// For an operator prefix `c`, the token it makes alone and the token it makes
/// when immediately followed by an equals sign.
pub open spec fn two_char_tokens(c: char) -> Option<(TokenTypeView, TokenTypeView)> {
    if c == '!' {
        Some((TokenTypeView::Bang, TokenTypeView::BangEqual))
    } else if c == '=' {
        Some((TokenTypeView::Equal, TokenTypeView::EqualEqual))
    } else if c == '<' {
        Some((TokenTypeView::Less, TokenTypeView::LessEqual))
    } else if c == '>' {
        Some((TokenTypeView::Greater, TokenTypeView::GreaterEqual))
    } else {
        None
    }
}

/// The keyword token for `s`, when `s` is one of the sixteen reserved words
/// (exact, case-sensitive match).
pub open spec fn keyword_token(s: Seq<char>) -> Option<TokenTypeView> {
    if s == "and"@ {
        Some(TokenTypeView::And)
    } else if s == "class"@ {
        Some(TokenTypeView::Class)
    } else if s == "else"@ {
        Some(TokenTypeView::Else)
    } else if s == "false"@ {
        Some(TokenTypeView::False)
    } else if s == "fun"@ {
        Some(TokenTypeView::Fun)
    } else if s == "for"@ {
        Some(TokenTypeView::For)
    } else if s == "if"@ {
        Some(TokenTypeView::If)
    } else if s == "nil"@ {
        Some(TokenTypeView::Nil)
    } else if s == "or"@ {
        Some(TokenTypeView::Or)
    } else if s == "print"@ {
        Some(TokenTypeView::Print)
    } else if s == "return"@ {
        Some(TokenTypeView::Return)
    } else if s == "super"@ {
        Some(TokenTypeView::Super)
    } else if s == "this"@ {
        Some(TokenTypeView::This)
    } else if s == "true"@ {
        Some(TokenTypeView::True)
    } else if s == "var"@ {
        Some(TokenTypeView::Var)
    } else if s == "while"@ {
        Some(TokenTypeView::While)
    } else {
        None
    }
}

/// How an accumulated word classifies: a reserved word becomes its keyword
/// token, anything else an identifier.
pub open spec fn word_token(s: Seq<char>) -> TokenTypeView {
    match keyword_token(s) {
        Some(t) => t,
        None => TokenTypeView::Identifier(s),
    }
}

/// The outcome of one pull on a cursor standing at `pos` with line counter
/// `line`: the produced item (`None` at end of input), the index of the item's
/// first character (`start`), and the cursor index and line counter afterwards.
pub ghost struct ScanStep {
    pub item: Option<Result<TokenView, TokenErrorView>>,
    pub start: int,
    pub pos: int,
    pub line: int,
}

/// One pull of the scanner over `cs` from cursor `pos` with line counter
/// `line`: skip whitespace, then recognize one token or error by the first
/// consumed character; a `//` comment is discarded up to the end of its line
/// and the pull continues behind it.
pub open spec fn spec_next(cs: Seq<char>, pos: int, line: int) -> ScanStep
    recommends
        0 <= pos <= cs.len(),
    decreases cs.len() - pos,
        via spec_next_decreases
{
    let sp = skip_ws_from(cs, pos);
    if !(0 <= sp && sp < cs.len()) {
        ScanStep {
            item: None,
            start: cs.len() as int,
            pos: cs.len() as int,
            line: line + newlines_between(cs, pos, cs.len() as int),
        }
    } else {
        let c = cs[sp];
        let tline = line + newlines_between(cs, pos, sp);
        let p1 = sp + 1;
        match single_punct_token(c) {
            Some(t) => ScanStep {
                item: Some(Ok(TokenView { token_type: t, line_number: tline })),
                start: sp,
                pos: p1,
                line: tline,
            },
            None => match two_char_tokens(c) {
                Some(ops) => if p1 < cs.len() && cs[p1] == '=' {
                    ScanStep {
                        item: Some(Ok(TokenView { token_type: ops.1, line_number: tline })),
                        start: sp,
                        pos: p1 + 1,
                        line: tline,
                    }
                } else {
                    ScanStep {
                        item: Some(Ok(TokenView { token_type: ops.0, line_number: tline })),
                        start: sp,
                        pos: p1,
                        line: tline,
                    }
                },
                None => if c == '/' {
                    if p1 < cs.len() && cs[p1] == '/' {
                        let e = find_from(cs, p1 + 1, '\n');
                        let np = if e < cs.len() {
                            e + 1
                        } else {
                            cs.len() as int
                        };
                        spec_next(cs, np, line + newlines_between(cs, pos, np))
                    } else {
                        ScanStep {
                            item: Some(
                                Ok(TokenView { token_type: TokenTypeView::Slash, line_number: tline }),
                            ),
                            start: sp,
                            pos: p1,
                            line: tline,
                        }
                    }
                } else if c == '"' {
                    let e = find_from(cs, p1, '"');
                    if e < cs.len() {
                        ScanStep {
                            item: Some(
                                Ok(
                                    TokenView {
                                        token_type: TokenTypeView::Literal(
                                            LiteralKindView::Str(cs.subrange(p1, e)),
                                        ),
                                        line_number: tline,
                                    },
                                ),
                            ),
                            start: sp,
                            pos: e + 1,
                            line: line + newlines_between(cs, pos, e + 1),
                        }
                    } else {
                        ScanStep {
                            item: Some(
                                Err(
                                    TokenErrorView {
                                        line_number: tline,
                                        kind: TokenErrorKindView::MissingCharacter('"'),
                                    },
                                ),
                            ),
                            start: sp,
                            pos: cs.len() as int,
                            line: line + newlines_between(cs, pos, cs.len() as int),
                        }
                    }
                } else if is_lex_digit(c) {
                    let e = number_cont_end(cs, p1);
                    ScanStep {
                        item: Some(
                            Ok(
                                TokenView {
                                    token_type: TokenTypeView::Literal(
                                        LiteralKindView::Number(cs.subrange(sp, e)),
                                    ),
                                    line_number: tline,
                                },
                            ),
                        ),
                        start: sp,
                        pos: e,
                        line: tline,
                    }
                } else if is_lex_alnum(c) {
                    let e = ident_end(cs, p1);
                    ScanStep {
                        item: Some(
                            Ok(
                                TokenView {
                                    token_type: word_token(cs.subrange(sp, e)),
                                    line_number: tline,
                                },
                            ),
                        ),
                        start: sp,
                        pos: e,
                        line: tline,
                    }
                } else {
                    ScanStep {
                        item: Some(
                            Err(
                                TokenErrorView {
                                    line_number: tline,
                                    kind: TokenErrorKindView::UnexpectedCharacter(c),
                                },
                            ),
                        ),
                        start: sp,
                        pos: p1,
                        line: tline,
                    }
                },
            },
        }
    }
}

#[via_fn]
proof fn spec_next_decreases(cs: Seq<char>, pos: int, line: int) {
    let sp = skip_ws_from(cs, pos);
    if 0 <= sp && sp < cs.len() {
        if pos < 0 {
            assert(skip_ws_from(cs, pos) == pos);
        }
        if pos > cs.len() {
            assert(skip_ws_from(cs, pos) == pos);
        }
        lemma_skip_ws_from(cs, pos);
        if cs[sp] == '/' && sp + 2 <= cs.len() && cs[sp + 1] == '/' {
            lemma_find_from(cs, sp + 2, '\n');
        }
    }
}

/// The produced item as mathematical values.
pub open spec fn item_view(r: Option<Result<Token, TokenError>>) -> Option<
    Result<TokenView, TokenErrorView>,
> {
    match r {
        None => None,
        Some(Ok(t)) => Some(Ok(t@)),
        Some(Err(e)) => Some(Err(e@)),
    }
}

/// What one pull promises: the produced item, the cursor and the line counter
/// are exactly those of [`spec_next`] on the state before the call.
pub open spec fn next_token_post(
    pre: ScannerView,
    post: ScannerView,
    r: Option<Result<Token, TokenError>>,
) -> bool {
    let st = spec_next(pre.chars, pre.pos, pre.line);
    &&& post.chars == pre.chars
    &&& post.pos == st.pos
    &&& post.line == st.line
    &&& item_view(r) == st.item
}

fn word_matches(word: &String, keyword: &str) -> (r: bool)
    ensures
        r == (word@ == keyword@),
{
    let k = keyword.to_owned();
    *word == k
}

/// Classifies an accumulated word: exact match against the keyword table, or
/// an identifier.
fn classify_word(word: String) -> (t: TokenType)
    ensures
        t@ == word_token(word@),
{
    if word_matches(&word, "and") {
        TokenType::And
    } else if word_matches(&word, "class") {
        TokenType::Class
    } else if word_matches(&word, "else") {
        TokenType::Else
    } else if word_matches(&word, "false") {
        TokenType::False
    } else if word_matches(&word, "fun") {
        TokenType::Fun
    } else if word_matches(&word, "for") {
        TokenType::For
    } else if word_matches(&word, "if") {
        TokenType::If
    } else if word_matches(&word, "nil") {
        TokenType::Nil
    } else if word_matches(&word, "or") {
        TokenType::Or
    } else if word_matches(&word, "print") {
        TokenType::Print
    } else if word_matches(&word, "return") {
        TokenType::Return
    } else if word_matches(&word, "super") {
        TokenType::Super
    } else if word_matches(&word, "this") {
        TokenType::This
    } else if word_matches(&word, "true") {
        TokenType::True
    } else if word_matches(&word, "var") {
        TokenType::Var
    } else if word_matches(&word, "while") {
        TokenType::While
    } else {
        TokenType::Identifier(word)
    }
}

impl Token {
    /// Skips whitespace and comments, then recognizes exactly one token or one
    /// lexical error, or signals the end of the input; the outcome and the new
    /// cursor state are those of [`spec_next`].
    pub fn consume(source: &mut Scanner) -> (r: Option<TokenResult>)
        requires
            old(source).wf(),
        ensures
            final(source).wf(),
            next_token_post(old(source)@, final(source)@, r),
    {
        loop
            invariant
                source.wf(),
                source@.chars == old(source)@.chars,
                spec_next(source@.chars, old(source)@.pos, old(source)@.line) == spec_next(
                    source@.chars,
                    source@.pos,
                    source@.line,
                ),
            decreases source@.chars.len() - source@.pos,
        {
            let ghost pre = source@;
            let ghost sp = skip_ws_from(pre.chars, pre.pos);
            proof {
                lemma_skip_ws_from(pre.chars, pre.pos);
            }
            let c = match source.advance_skipping_whitespace() {
                None => {
                    return None;
                },
                Some(c) => c,
            };
            let line_number = source.line_number();
            let token_type: TokenType;
            if c == '(' {
                token_type = TokenType::LeftParen;
            } else if c == ')' {
                token_type = TokenType::RightParen;
            } else if c == '{' {
                token_type = TokenType::LeftBrace;
            } else if c == '}' {
                token_type = TokenType::RightBrace;
            } else if c == ',' {
                token_type = TokenType::Comma;
            } else if c == '.' {
                token_type = TokenType::Dot;
            } else if c == '-' {
                token_type = TokenType::Minus;
            } else if c == '+' {
                token_type = TokenType::Plus;
            } else if c == ';' {
                token_type = TokenType::SemiColon;
            } else if c == '*' {
                token_type = TokenType::Star;
            } else if c == '!' {
                token_type = if source.advance_match('=') {
                    TokenType::BangEqual
                } else {
                    TokenType::Bang
                };
            } else if c == '=' {
                token_type = if source.advance_match('=') {
                    TokenType::EqualEqual
                } else {
                    TokenType::Equal
                };
            } else if c == '<' {
                token_type = if source.advance_match('=') {
                    TokenType::LessEqual
                } else {
                    TokenType::Less
                };
            } else if c == '>' {
                token_type = if source.advance_match('=') {
                    TokenType::GreaterEqual
                } else {
                    TokenType::Greater
                };
            } else if c == '/' {
                if source.advance_match('/') {
                    let _ = source.advance_until('\n');
                    proof {
                        let e = find_from(pre.chars, sp + 2, '\n');
                        lemma_find_from(pre.chars, sp + 2, '\n');
                        let np = if e < pre.chars.len() as int {
                            e + 1
                        } else {
                            pre.chars.len() as int
                        };
                        lemma_newlines_split(pre.chars, pre.pos, sp, np);
                        lemma_newlines_split(pre.chars, sp, sp + 2, np);
                        lemma_newlines_none(pre.chars, sp, sp + 2);
                    }
                    continue ;
                } else {
                    token_type = TokenType::Slash;
                }
            } else if c == '"' {
                match source.advance_until('"') {
                    Ok(text) => {
                        proof {
                            let e = find_from(pre.chars, sp + 1, '"');
                            lemma_find_from(pre.chars, sp + 1, '"');
                            lemma_newlines_split(pre.chars, pre.pos, sp, e + 1);
                            lemma_newlines_split(pre.chars, sp, sp + 1, e + 1);
                            lemma_newlines_none(pre.chars, sp, sp + 1);
                        }
                        token_type = TokenType::Literal(LiteralKind::Str(text));
                    },
                    Err(kind) => {
                        proof {
                            let len = pre.chars.len() as int;
                            lemma_find_from(pre.chars, sp + 1, '"');
                            lemma_newlines_split(pre.chars, pre.pos, sp, len);
                            lemma_newlines_split(pre.chars, sp, sp + 1, len);
                            lemma_newlines_none(pre.chars, sp, sp + 1);
                        }
                        return Some(Err(TokenError { line_number, kind }));
                    },
                }
            } else if is_digit_char(c) {
                let start = source.position() - 1;
                let mut buf = source.lexeme(start, start + 1);
                source.finish_number(&mut buf);
                proof {
                    lemma_digits_end(pre.chars, sp + 1);
                    let d = digits_end(pre.chars, sp + 1);
                    if d + 1 < pre.chars.len() && pre.chars[d] == '.' && is_lex_digit(
                        pre.chars[d + 1],
                    ) {
                        lemma_digits_end(pre.chars, d + 1);
                    }
                    assert(buf@ =~= pre.chars.subrange(sp, source@.pos));
                }
                token_type = TokenType::Literal(LiteralKind::Number(buf));
            } else if is_alnum_char(c) {
                let start = source.position() - 1;
                let mut buf = source.lexeme(start, start + 1);
                source.finish_identifier(&mut buf);
                proof {
                    lemma_ident_end(pre.chars, sp + 1);
                    assert(buf@ =~= pre.chars.subrange(sp, source@.pos));
                }
                token_type = classify_word(buf);
            } else {
                return Some(
                    Err(TokenError { line_number, kind: TokenErrorKind::UnexpectedCharacter(c) }),
                );
            }
            return Some(Ok(Token { token_type, line_number }));
        }
    }
}

} // verus!
