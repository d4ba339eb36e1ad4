use vstd::prelude::*;

use crate::scanning::token::{
    TokenErrorKindView, TokenErrorView, TokenTypeView, TokenView, keyword_token, single_punct_token,
    spec_next, two_char_tokens, word_token,
};
use crate::scanning::{
    digits_end, find_from, ident_end, is_lex_alnum, is_lex_digit, is_lex_space, lemma_digits_end,
    lemma_find_from, lemma_ident_end, lemma_newlines_none, lemma_newlines_split,
    lemma_skip_ws_from, newlines_between, number_cont_end, skip_ws_from,
};

verus! {

/// One pull never moves the cursor backwards, never leaves the text, and the
/// produced item begins at or after where the pull began.
pub proof fn lemma_spec_next_bounds(cs: Seq<char>, pos: int, line: int)
    requires
        0 <= pos <= cs.len(),
    ensures
        ({
            let st = spec_next(cs, pos, line);
            &&& pos <= st.start <= cs.len()
            &&& st.start <= st.pos <= cs.len()
        }),
    decreases cs.len() - pos,
{
    let sp = skip_ws_from(cs, pos);
    lemma_skip_ws_from(cs, pos);
    if 0 <= sp && sp < cs.len() {
        let c = cs[sp];
        let p1 = sp + 1;
        if single_punct_token(c) is Some {
        } else if two_char_tokens(c) is Some {
        } else if c == '/' {
            if p1 < cs.len() && cs[p1] == '/' {
                let e = find_from(cs, p1 + 1, '\n');
                lemma_find_from(cs, p1 + 1, '\n');
                let np = if e < cs.len() {
                    e + 1
                } else {
                    cs.len() as int
                };
                lemma_spec_next_bounds(cs, np, line + newlines_between(cs, pos, np));
            }
        } else if c == '"' {
            lemma_find_from(cs, p1, '"');
        } else if is_lex_digit(c) {
            let d = digits_end(cs, p1);
            lemma_digits_end(cs, p1);
            if d + 1 < cs.len() && cs[d] == '.' && is_lex_digit(cs[d + 1]) {
                lemma_digits_end(cs, d + 1);
            }
        } else if is_lex_alnum(c) {
            lemma_ident_end(cs, p1);
        }
    }
}

/// Line tracking. One pull advances the line counter by exactly the number of
/// newline characters it consumes, and the produced token or error carries the
/// line count at the first character of its lexeme: an item whose lexeme starts
/// after N consumed newlines reports line N.
pub proof fn lemma_line_tracking(cs: Seq<char>, pos: int, line: int)
    requires
        0 <= pos <= cs.len(),
    ensures
        ({
            let st = spec_next(cs, pos, line);
            &&& st.line == line + newlines_between(cs, pos, st.pos)
            &&& match st.item {
                Some(Ok(t)) => t.line_number == line + newlines_between(cs, pos, st.start),
                Some(Err(e)) => e.line_number == line + newlines_between(cs, pos, st.start),
                None => true,
            }
        }),
    decreases cs.len() - pos,
{
    let st = spec_next(cs, pos, line);
    let sp = skip_ws_from(cs, pos);
    lemma_skip_ws_from(cs, pos);
    if 0 <= sp && sp < cs.len() {
        let c = cs[sp];
        let p1 = sp + 1;
        assert(c != '\n');
        if single_punct_token(c) is Some {
            lemma_newlines_split(cs, pos, sp, p1);
            lemma_newlines_none(cs, sp, p1);
        } else if two_char_tokens(c) is Some {
            if p1 < cs.len() && cs[p1] == '=' {
                lemma_newlines_split(cs, pos, sp, p1 + 1);
                lemma_newlines_none(cs, sp, p1 + 1);
            } else {
                lemma_newlines_split(cs, pos, sp, p1);
                lemma_newlines_none(cs, sp, p1);
            }
        } else if c == '/' {
            if p1 < cs.len() && cs[p1] == '/' {
                let e = find_from(cs, p1 + 1, '\n');
                lemma_find_from(cs, p1 + 1, '\n');
                let np = if e < cs.len() {
                    e + 1
                } else {
                    cs.len() as int
                };
                let nline = line + newlines_between(cs, pos, np);
                lemma_line_tracking(cs, np, nline);
                lemma_spec_next_bounds(cs, np, nline);
                let st2 = spec_next(cs, np, nline);
                lemma_newlines_split(cs, pos, np, st2.pos);
                lemma_newlines_split(cs, pos, np, st2.start);
            } else {
                lemma_newlines_split(cs, pos, sp, p1);
                lemma_newlines_none(cs, sp, p1);
            }
        } else if c == '"' {
        } else if is_lex_digit(c) {
            let e = number_cont_end(cs, p1);
            let d = digits_end(cs, p1);
            lemma_digits_end(cs, p1);
            if d + 1 < cs.len() && cs[d] == '.' && is_lex_digit(cs[d + 1]) {
                lemma_digits_end(cs, d + 1);
            }
            assert forall|k: int| sp <= k < e implies #[trigger] cs[k] != '\n' by {
                if k == sp {
                } else if k < d {
                } else if k == d {
                }
            }
            lemma_newlines_split(cs, pos, sp, e);
            lemma_newlines_none(cs, sp, e);
        } else if is_lex_alnum(c) {
            let e = ident_end(cs, p1);
            lemma_ident_end(cs, p1);
            assert forall|k: int| sp <= k < e implies #[trigger] cs[k] != '\n' by {
                if k == sp {
                }
            }
            lemma_newlines_split(cs, pos, sp, e);
            lemma_newlines_none(cs, sp, e);
        } else {
            lemma_newlines_split(cs, pos, sp, p1);
            lemma_newlines_none(cs, sp, p1);
        }
    }
}

/// Error recovery. After an unexpected-character error the cursor stands
/// immediately past the offending character, so the next pull resumes with the
/// very next character of the input; after a missing-character error the input
/// is exhausted, so the next pull ends the sequence. A numeric-conversion
/// failure is never produced: the accumulation rules only build convertible
/// lexemes.
pub proof fn lemma_error_resumption(cs: Seq<char>, pos: int, line: int)
    requires
        0 <= pos <= cs.len(),
    ensures
        ({
            let st = spec_next(cs, pos, line);
            match st.item {
                Some(Err(e)) => match e.kind {
                    TokenErrorKindView::UnexpectedCharacter(c) => {
                        &&& 0 <= st.start < cs.len()
                        &&& cs[st.start] == c
                        &&& st.pos == st.start + 1
                    },
                    TokenErrorKindView::MissingCharacter(m) => m == '"' && st.pos == cs.len(),
                    TokenErrorKindView::NumericConversionFailure(s) => false,
                },
                _ => true,
            }
        }),
    decreases cs.len() - pos,
{
    let sp = skip_ws_from(cs, pos);
    lemma_skip_ws_from(cs, pos);
    if 0 <= sp && sp < cs.len() {
        let c = cs[sp];
        let p1 = sp + 1;
        if single_punct_token(c) is None && two_char_tokens(c) is None && c == '/' && p1
            < cs.len() && cs[p1] == '/' {
            let e = find_from(cs, p1 + 1, '\n');
            lemma_find_from(cs, p1 + 1, '\n');
            let np = if e < cs.len() {
                e + 1
            } else {
                cs.len() as int
            };
            lemma_error_resumption(cs, np, line + newlines_between(cs, pos, np));
        } else if single_punct_token(c) is None && two_char_tokens(c) is None && c == '"' {
            lemma_find_from(cs, p1, '"');
        }
    }
}

/// Fixed punctuation. Scanning a one-character input that holds one fixed
/// punctuation character (a slash included) yields exactly that punctuation
/// token with line number zero, and the next pull ends the sequence.
pub proof fn lemma_single_punctuation(c: char)
    requires
        single_punct_token(c) is Some || c == '/',
    ensures
        ({
            let st = spec_next(seq![c], 0, 0);
            let expected = if c == '/' {
                TokenTypeView::Slash
            } else {
                single_punct_token(c)->0
            };
            &&& st.item == Some(Ok::<TokenView, TokenErrorView>(TokenView { token_type: expected, line_number: 0 }))
            &&& st.pos == 1
            &&& spec_next(seq![c], st.pos, st.line).item is None
        }),
{
    let s = seq![c];
    assert(!is_lex_space(c));
    assert(skip_ws_from(s, 0) == 0);
    assert(newlines_between(s, 0, 0) == 0);
    assert(skip_ws_from(s, 1) == 1);
    assert(newlines_between(s, 1, 1) == 0);
}

/// Two-character operators. An operator prefix (`!`, `=`, `<`, `>`) followed
/// immediately by `=` scans as the compound token and consumes both
/// characters; followed by any other character it scans as the
/// single-character token and leaves that following character unconsumed; and
/// alone at the end of the input it scans as the single-character token.
pub proof fn lemma_two_char_operators(c: char, d: char)
    requires
        two_char_tokens(c) is Some,
    ensures
        ({
            let st = spec_next(seq![c, d], 0, 0);
            let ops = two_char_tokens(c)->0;
            &&& d == '=' ==> st.item == Some(
                Ok::<TokenView, TokenErrorView>(TokenView { token_type: ops.1, line_number: 0 }),
            ) && st.pos == 2
            &&& d != '=' ==> st.item == Some(
                Ok::<TokenView, TokenErrorView>(TokenView { token_type: ops.0, line_number: 0 }),
            ) && st.pos == 1
        }),
        ({
            let st = spec_next(seq![c], 0, 0);
            let ops = two_char_tokens(c)->0;
            st.item == Some(Ok::<TokenView, TokenErrorView>(TokenView { token_type: ops.0, line_number: 0 })) && st.pos == 1
        }),
{
    let s = seq![c, d];
    let s1 = seq![c];
    assert(!is_lex_space(c));
    assert(s[0] == c && s[1] == d && s1[0] == c);
    assert(skip_ws_from(s, 0) == 0);
    assert(newlines_between(s, 0, 0) == 0);
    assert(skip_ws_from(s1, 0) == 0);
    assert(newlines_between(s1, 0, 0) == 0);
}

/// Scanning a word made of letters and digits, standing alone as the whole
/// input and not starting with a digit, yields exactly one token for the whole
/// word: its keyword token when it is a reserved word, an identifier otherwise.
pub proof fn lemma_word_scan(s: Seq<char>)
    requires
        s.len() > 0,
        forall|i: int| 0 <= i < s.len() ==> is_lex_alnum(#[trigger] s[i]),
        !is_lex_digit(s[0]),
    ensures
        ({
            let st = spec_next(s, 0, 0);
            &&& st.item == Some(Ok::<TokenView, TokenErrorView>(TokenView { token_type: word_token(s), line_number: 0 }))
            &&& st.pos == s.len()
        }),
{
    assert(!is_lex_space(s[0]));
    assert(skip_ws_from(s, 0) == 0);
    assert(newlines_between(s, 0, 0) == 0);
    lemma_ident_end_full(s, 1);
    assert(s.subrange(0, s.len() as int) =~= s);
}

/// A run of letters and digits reaching the end of the sequence ends exactly
/// at the end.
proof fn lemma_ident_end_full(s: Seq<char>, i: int)
    requires
        0 <= i <= s.len(),
        forall|k: int| i <= k < s.len() ==> is_lex_alnum(#[trigger] s[k]),
    ensures
        ident_end(s, i) == s.len(),
    decreases s.len() - i,
{
    if i < s.len() {
        lemma_ident_end_full(s, i + 1);
    }
}

/// Keyword exactness. Scanning any of the sixteen reserved words in isolation
/// yields its keyword token for the whole word, never an identifier.
pub proof fn lemma_keyword_exactness(s: Seq<char>)
    requires
        keyword_token(s) is Some,
    ensures
        ({
            let st = spec_next(s, 0, 0);
            &&& st.item == Some(
                Ok::<TokenView, TokenErrorView>(TokenView { token_type: keyword_token(s)->0, line_number: 0 }),
            )
            &&& !(keyword_token(s)->0 is Identifier)
            &&& st.pos == s.len()
        }),
{
    if s == "and"@ {
        reveal_strlit("and");
        kw_word(s);
    } else if s == "class"@ {
        reveal_strlit("class");
        kw_word(s);
    } else if s == "else"@ {
        reveal_strlit("else");
        kw_word(s);
    } else if s == "false"@ {
        reveal_strlit("false");
        kw_word(s);
    } else if s == "fun"@ {
        reveal_strlit("fun");
        kw_word(s);
    } else if s == "for"@ {
        reveal_strlit("for");
        kw_word(s);
    } else if s == "if"@ {
        reveal_strlit("if");
        kw_word(s);
    } else if s == "nil"@ {
        reveal_strlit("nil");
        kw_word(s);
    } else if s == "or"@ {
        reveal_strlit("or");
        kw_word(s);
    } else if s == "print"@ {
        reveal_strlit("print");
        kw_word(s);
    } else if s == "return"@ {
        reveal_strlit("return");
        kw_word(s);
    } else if s == "super"@ {
        reveal_strlit("super");
        kw_word(s);
    } else if s == "this"@ {
        reveal_strlit("this");
        kw_word(s);
    } else if s == "true"@ {
        reveal_strlit("true");
        kw_word(s);
    } else if s == "var"@ {
        reveal_strlit("var");
        kw_word(s);
    } else {
        reveal_strlit("while");
        kw_word(s);
    }
}

/// A reserved word is a non-empty run of letters, so [`lemma_word_scan`]
/// applies to it.
proof fn kw_word(s: Seq<char>)
    requires
        s.len() > 0,
        forall|i: int| 0 <= i < s.len() ==> is_lex_alnum(#[trigger] s[i]),
        !is_lex_digit(s[0]),
    ensures
        ({
            let st = spec_next(s, 0, 0);
            &&& st.item == Some(Ok::<TokenView, TokenErrorView>(TokenView { token_type: word_token(s), line_number: 0 }))
            &&& st.pos == s.len()
        }),
{
    lemma_word_scan(s);
}

} // verus!

