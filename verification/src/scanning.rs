use vstd::prelude::*;

use crate::scanning::token::{Token, TokenError, TokenErrorKind, next_token_post};

pub mod laws;
pub mod token;

verus! {

/// One pull of the scanner: a recognized token, a lexical error, or (as `None`
/// from `Scanner::next`) the end of the input.
pub type TokenResult = Result<Token, TokenError>;

// ---------------------------------------------------------------------------
// Character classes
//
// Only ASCII characters are meaningful to the lexical grammar: whitespace
// separates tokens, digits form numbers, and alphanumeric characters form
// identifiers and keywords.
// ---------------------------------------------------------------------------

/// ASCII whitespace: space, horizontal tab, line feed, form feed, carriage return.
pub open spec fn is_lex_space(c: char) -> bool {
    c as u32 == 32 || c as u32 == 9 || c as u32 == 10 || c as u32 == 12 || c as u32 == 13
}

/// ASCII decimal digit.
pub open spec fn is_lex_digit(c: char) -> bool {
    48 <= c as u32 && c as u32 <= 57
}

/// ASCII letter.
pub open spec fn is_lex_alpha(c: char) -> bool {
    (65 <= c as u32 && c as u32 <= 90) || (97 <= c as u32 && c as u32 <= 122)
}

/// ASCII letter or digit: the characters identifiers and keywords are made of.
pub open spec fn is_lex_alnum(c: char) -> bool {
    is_lex_digit(c) || is_lex_alpha(c)
}

pub(crate) fn is_space_char(c: char) -> (r: bool)
    ensures
        r == is_lex_space(c),
{
    let u = c as u32;
    u == 32 || u == 9 || u == 10 || u == 12 || u == 13
}

pub(crate) fn is_digit_char(c: char) -> (r: bool)
    ensures
        r == is_lex_digit(c),
{
    let u = c as u32;
    48 <= u && u <= 57
}

pub(crate) fn is_alnum_char(c: char) -> (r: bool)
    ensures
        r == is_lex_alnum(c),
{
    let u = c as u32;
    (48 <= u && u <= 57) || (65 <= u && u <= 90) || (97 <= u && u <= 122)
}

// ---------------------------------------------------------------------------
// Cursor positions
//
// The scanner walks a character sequence with an index. These functions give
// the index at which each kind of run ends, and they are the vocabulary of
// every cursor contract.
// ---------------------------------------------------------------------------

/// The first index at or after `i` that holds a non-whitespace character,
/// or the end of the sequence.
pub open spec fn skip_ws_from(cs: Seq<char>, i: int) -> int
    decreases cs.len() - i,
{
    if 0 <= i && i < cs.len() && is_lex_space(cs[i]) {
        skip_ws_from(cs, i + 1)
    } else {
        i
    }
}

/// The first index at or after `i` that holds `c`, or the end of the sequence.
pub open spec fn find_from(cs: Seq<char>, i: int, c: char) -> int
    decreases cs.len() - i,
{
    if 0 <= i && i < cs.len() && cs[i] != c {
        find_from(cs, i + 1, c)
    } else {
        i
    }
}

/// The first index at or after `i` that does not hold a digit,
/// or the end of the sequence.
pub open spec fn digits_end(cs: Seq<char>, i: int) -> int
    decreases cs.len() - i,
{
    if 0 <= i && i < cs.len() && is_lex_digit(cs[i]) {
        digits_end(cs, i + 1)
    } else {
        i
    }
}

/// The first index at or after `i` that does not hold a letter or digit,
/// or the end of the sequence.
pub open spec fn ident_end(cs: Seq<char>, i: int) -> int
    decreases cs.len() - i,
{
    if 0 <= i && i < cs.len() && is_lex_alnum(cs[i]) {
        ident_end(cs, i + 1)
    } else {
        i
    }
}

/// Where a numeric literal whose first digit stands just before `i` ends: the
/// digit run from `i`, extended past a decimal point exactly when the point is
/// immediately followed by another digit.
pub open spec fn number_cont_end(cs: Seq<char>, i: int) -> int {
    let d = digits_end(cs, i);
    if d + 1 < cs.len() && cs[d] == '.' && is_lex_digit(cs[d + 1]) {
        digits_end(cs, d + 1)
    } else {
        d
    }
}

/// How many newline characters stand in `cs` at indices in `[i, j)`.
pub open spec fn newlines_between(cs: Seq<char>, i: int, j: int) -> int
    decreases j - i,
{
    if i < j {
        newlines_between(cs, i, j - 1) + (if 0 <= j - 1 && j - 1 < cs.len() && cs[j - 1] == '\n' {
            1int
        } else {
            0int
        })
    } else {
        0
    }
}

// ---------------------------------------------------------------------------
// Lemmas about cursor positions
// ---------------------------------------------------------------------------

pub proof fn lemma_skip_ws_from(cs: Seq<char>, i: int)
    requires
        0 <= i <= cs.len(),
    ensures
        i <= skip_ws_from(cs, i) <= cs.len(),
        forall|k: int| i <= k < skip_ws_from(cs, i) ==> is_lex_space(#[trigger] cs[k]),
        skip_ws_from(cs, i) < cs.len() ==> !is_lex_space(cs[skip_ws_from(cs, i)]),
    decreases cs.len() - i,
{
    if i < cs.len() && is_lex_space(cs[i]) {
        lemma_skip_ws_from(cs, i + 1);
    }
}

pub proof fn lemma_find_from(cs: Seq<char>, i: int, c: char)
    requires
        0 <= i <= cs.len(),
    ensures
        i <= find_from(cs, i, c) <= cs.len(),
        forall|k: int| i <= k < find_from(cs, i, c) ==> #[trigger] cs[k] != c,
        find_from(cs, i, c) < cs.len() ==> cs[find_from(cs, i, c)] == c,
    decreases cs.len() - i,
{
    if i < cs.len() && cs[i] != c {
        lemma_find_from(cs, i + 1, c);
    }
}

pub proof fn lemma_digits_end(cs: Seq<char>, i: int)
    requires
        0 <= i <= cs.len(),
    ensures
        i <= digits_end(cs, i) <= cs.len(),
        forall|k: int| i <= k < digits_end(cs, i) ==> is_lex_digit(#[trigger] cs[k]),
        digits_end(cs, i) < cs.len() ==> !is_lex_digit(cs[digits_end(cs, i)]),
    decreases cs.len() - i,
{
    if i < cs.len() && is_lex_digit(cs[i]) {
        lemma_digits_end(cs, i + 1);
    }
}

pub proof fn lemma_ident_end(cs: Seq<char>, i: int)
    requires
        0 <= i <= cs.len(),
    ensures
        i <= ident_end(cs, i) <= cs.len(),
        forall|k: int| i <= k < ident_end(cs, i) ==> is_lex_alnum(#[trigger] cs[k]),
        ident_end(cs, i) < cs.len() ==> !is_lex_alnum(cs[ident_end(cs, i)]),
    decreases cs.len() - i,
{
    if i < cs.len() && is_lex_alnum(cs[i]) {
        lemma_ident_end(cs, i + 1);
    }
}

/// Newline counts over adjacent ranges add up.
pub proof fn lemma_newlines_split(cs: Seq<char>, a: int, b: int, c: int)
    requires
        a <= b <= c,
    ensures
        newlines_between(cs, a, c) == newlines_between(cs, a, b) + newlines_between(cs, b, c),
    decreases c - b,
{
    if b < c {
        lemma_newlines_split(cs, a, b, c - 1);
    }
}

/// A range that holds no newline character contributes nothing to the count.
pub proof fn lemma_newlines_none(cs: Seq<char>, a: int, b: int)
    requires
        a <= b,
        forall|k: int| a <= k < b ==> #[trigger] cs[k] != '\n',
    ensures
        newlines_between(cs, a, b) == 0,
    decreases b - a,
{
    if a < b {
        lemma_newlines_none(cs, a, b - 1);
    }
}

// ---------------------------------------------------------------------------
// The scanner cursor
// ---------------------------------------------------------------------------

/// The scanner's whole state as mathematical values: the character sequence,
/// the cursor index, and the running newline count.
pub ghost struct ScannerView {
    pub chars: Seq<char>,
    pub pos: int,
    pub line: int,
}

/// A lookahead-capable cursor over the source text with a running line
/// counter. Produced by [`scan_tokens`]; each call of [`Scanner::next`]
/// yields one token or lexical error, or signals the end of the input.
pub struct Scanner<'a> {
    source: &'a str,
    length: usize,
    position: usize,
    line_number: usize,
}

impl<'a> View for Scanner<'a> {
    type V = ScannerView;

    closed spec fn view(&self) -> ScannerView {
        ScannerView { chars: self.source@, pos: self.position as int, line: self.line_number as int }
    }
}

impl<'a> Scanner<'a> {
    /// The cached length agrees with the text.
    pub closed spec fn inv(&self) -> bool {
        self.length == self.source@.len()
    }

    /// The cursor stands inside the text and the line counter cannot outrun it.
    pub open spec fn wf(&self) -> bool {
        &&& self.inv()
        &&& 0 <= self@.pos <= self@.chars.len()
        &&& 0 <= self@.line <= self@.pos
    }

    /// The current value of the line counter: how many newline characters have
    /// been consumed so far.
    pub(crate) fn line_number(&self) -> (n: usize)
        ensures
            n as int == self@.line,
    {
        self.line_number
    }

    /// The current cursor index.
    pub(crate) fn position(&self) -> (p: usize)
        ensures
            p as int == self@.pos,
    {
        self.position
    }

    /// The characters at indices `[from, to)` of the source, as a fresh string.
    pub(crate) fn lexeme(&self, from: usize, to: usize) -> (s: String)
        requires
            self.wf(),
            from <= to <= self@.chars.len(),
        ensures
            s@ == self@.chars.subrange(from as int, to as int),
    {
        self.source.substring_char(from, to).to_owned()
    }

    /// Consumes and returns the next character, or signals end-of-input. The
    /// only operation that moves the cursor; it bumps the line counter exactly
    /// when the consumed character is a newline.
    pub(crate) fn advance(&mut self) -> (r: Option<char>)
        requires
            old(self).wf(),
        ensures
            final(self).wf(),
            final(self)@.chars == old(self)@.chars,
            old(self)@.pos < old(self)@.chars.len() ==> {
                &&& r == Some(old(self)@.chars[old(self)@.pos])
                &&& final(self)@.pos == old(self)@.pos + 1
                &&& final(self)@.line == old(self)@.line + (
                    if old(self)@.chars[old(self)@.pos] == '\n' { 1int } else { 0int }
                )
            },
            old(self)@.pos >= old(self)@.chars.len() ==> r is None && final(self)@ == old(self)@,
    {
        if self.position < self.length {
            let c = self.source.get_char(self.position);
            self.position = self.position + 1;
            if c == '\n' {
                self.line_number = self.line_number + 1;
            }
            Some(c)
        } else {
            None
        }
    }
    /// Peeks one character ahead; consumes it and returns true exactly when it
    /// equals `m`, and otherwise leaves the cursor where it stood.
    pub(crate) fn advance_match(&mut self, m: char) -> (r: bool)
        requires
            old(self).wf(),
        ensures
            final(self).wf(),
            final(self)@.chars == old(self)@.chars,
            ({
                let pre = old(self)@;
                if pre.pos < pre.chars.len() && pre.chars[pre.pos] == m {
                    &&& r == true
                    &&& final(self)@.pos == pre.pos + 1
                    &&& final(self)@.line == pre.line + (if m == '\n' { 1int } else { 0int })
                } else {
                    &&& r == false
                    &&& final(self)@ == pre
                }
            }),
    {
        if self.position < self.length {
            if self.source.get_char(self.position) == m {
                self.advance();
                return true;
            }
        }
        false
    }

    /// Repeatedly consumes whitespace (newlines still bump the line counter)
    /// and returns the first non-whitespace character consumed, or
    /// end-of-input if none remains.
    pub(crate) fn advance_skipping_whitespace(&mut self) -> (r: Option<char>)
        requires
            old(self).wf(),
        ensures
            final(self).wf(),
            final(self)@.chars == old(self)@.chars,
            ({
                let pre = old(self)@;
                let sp = skip_ws_from(pre.chars, pre.pos);
                if sp < pre.chars.len() {
                    &&& r == Some(pre.chars[sp])
                    &&& final(self)@.pos == sp + 1
                    &&& final(self)@.line == pre.line + newlines_between(pre.chars, pre.pos, sp)
                } else {
                    &&& r is None
                    &&& final(self)@.pos == pre.chars.len()
                    &&& final(self)@.line == pre.line + newlines_between(
                        pre.chars,
                        pre.pos,
                        pre.chars.len() as int,
                    )
                }
            }),
    {
        loop
            invariant
                self.wf(),
                self@.chars == old(self)@.chars,
                old(self)@.pos <= self@.pos,
                skip_ws_from(self@.chars, old(self)@.pos) == skip_ws_from(self@.chars, self@.pos),
                self@.line == old(self)@.line + newlines_between(
                    self@.chars,
                    old(self)@.pos,
                    self@.pos,
                ),
            decreases self@.chars.len() - self@.pos,
        {
            let ghost pre_pos = self@.pos;
            match self.advance() {
                None => {
                    return None;
                },
                Some(c) => {
                    if !is_space_char(c) {
                        proof {
                            assert(skip_ws_from(self@.chars, pre_pos) == pre_pos);
                            lemma_newlines_split(self@.chars, old(self)@.pos, pre_pos, pre_pos + 1);
                            lemma_newlines_none(self@.chars, pre_pos, pre_pos + 1);
                        }
                        return Some(c);
                    }
                    proof {
                        lemma_newlines_split(self@.chars, old(self)@.pos, pre_pos, pre_pos + 1);
                    }
                },
            }
        }
    }

    /// Accumulates consumed characters until `c` is consumed (exclusive of `c`
    /// itself); fails with `MissingCharacter(c)` if the input ends first.
    pub(crate) fn advance_until(&mut self, c: char) -> (r: Result<String, TokenErrorKind>)
        requires
            old(self).wf(),
        ensures
            final(self).wf(),
            final(self)@.chars == old(self)@.chars,
            ({
                let pre = old(self)@;
                let e = find_from(pre.chars, pre.pos, c);
                if e < pre.chars.len() {
                    &&& r matches Ok(s) && s@ == pre.chars.subrange(pre.pos, e)
                    &&& final(self)@.pos == e + 1
                    &&& final(self)@.line == pre.line + newlines_between(pre.chars, pre.pos, e + 1)
                } else {
                    &&& r matches Err(k) && k == TokenErrorKind::MissingCharacter(c)
                    &&& final(self)@.pos == pre.chars.len()
                    &&& final(self)@.line == pre.line + newlines_between(
                        pre.chars,
                        pre.pos,
                        pre.chars.len() as int,
                    )
                }
            }),
    {
        let start = self.position;
        loop
            invariant
                self.wf(),
                self@.chars == old(self)@.chars,
                start as int == old(self)@.pos,
                start as int <= self@.pos,
                find_from(self@.chars, start as int, c) == find_from(self@.chars, self@.pos, c),
                self@.line == old(self)@.line + newlines_between(
                    self@.chars,
                    start as int,
                    self@.pos,
                ),
            decreases self@.chars.len() - self@.pos,
        {
            let ghost pre_pos = self@.pos;
            match self.advance() {
                None => {
                    return Err(TokenErrorKind::MissingCharacter(c));
                },
                Some(ch) => {
                    proof {
                        lemma_newlines_split(self@.chars, start as int, pre_pos, pre_pos + 1);
                    }
                    if ch == c {
                        proof {
                            assert(find_from(self@.chars, pre_pos, c) == pre_pos);
                            lemma_newlines_none(self@.chars, pre_pos, pre_pos);
                        }
                        let text = self.lexeme(start, self.position - 1);
                        return Ok(text);
                    }
                },
            }
        }
    }

    /// Given a buffer already holding the first digit, greedily appends further
    /// digits, continuing past one decimal point exactly when the point is
    /// immediately followed by another digit. A bare trailing point is left
    /// unconsumed.
    pub(crate) fn finish_number(&mut self, buf: &mut String)
        requires
            old(self).wf(),
        ensures
            final(self).wf(),
            final(self)@.chars == old(self)@.chars,
            final(self)@.pos == number_cont_end(old(self)@.chars, old(self)@.pos),
            final(self)@.line == old(self)@.line,
            final(buf)@ == old(buf)@ + old(self)@.chars.subrange(
                old(self)@.pos,
                final(self)@.pos,
            ),
    {
        let start = self.position;
        let ghost d = digits_end(old(self)@.chars, old(self)@.pos);
        proof {
            lemma_digits_end(old(self)@.chars, old(self)@.pos);
        }
        let mut period_seen = false;
        loop
            invariant
                self.wf(),
                self@.chars == old(self)@.chars,
                start as int == old(self)@.pos,
                start as int <= self@.pos,
                self@.line == old(self)@.line,
                d == digits_end(self@.chars, old(self)@.pos),
                start as int <= d <= self@.chars.len(),
                !period_seen ==> self@.pos <= d && digits_end(self@.chars, self@.pos) == d,
                period_seen ==> {
                    &&& d + 1 < self@.chars.len()
                    &&& self@.chars[d] == '.'
                    &&& is_lex_digit(self@.chars[d + 1])
                    &&& d + 1 <= self@.pos
                    &&& digits_end(self@.chars, self@.pos) == digits_end(self@.chars, d + 1)
                },
            ensures
                self.wf(),
                self@.chars == old(self)@.chars,
                self@.line == old(self)@.line,
                start as int == old(self)@.pos,
                start as int <= self@.pos <= self@.chars.len(),
                self@.pos == number_cont_end(self@.chars, old(self)@.pos),
            decreases self@.chars.len() - self@.pos,
        {
            proof {
                lemma_digits_end(self@.chars, self@.pos);
                if period_seen {
                    lemma_digits_end(self@.chars, d + 1);
                }
            }
            if self.position < self.length {
                let next = self.source.get_char(self.position);
                if is_digit_char(next) {
                    self.advance();
                } else if !period_seen && next == '.' && self.position + 1 < self.length
                    && is_digit_char(self.source.get_char(self.position + 1)) {
                    period_seen = true;
                    self.advance();
                } else {
                    break;
                }
            } else {
                break;
            }
        }
        let consumed = self.lexeme(start, self.position);
        buf.append(consumed.as_str());
    }

    /// Given a buffer already holding the first character, greedily appends
    /// further letters and digits.
    pub(crate) fn finish_identifier(&mut self, buf: &mut String)
        requires
            old(self).wf(),
        ensures
            final(self).wf(),
            final(self)@.chars == old(self)@.chars,
            final(self)@.pos == ident_end(old(self)@.chars, old(self)@.pos),
            final(self)@.line == old(self)@.line,
            final(buf)@ == old(buf)@ + old(self)@.chars.subrange(
                old(self)@.pos,
                final(self)@.pos,
            ),
    {
        let start = self.position;
        loop
            invariant
                self.wf(),
                self@.chars == old(self)@.chars,
                start as int == old(self)@.pos,
                start as int <= self@.pos,
                self@.line == old(self)@.line,
                ident_end(self@.chars, self@.pos) == ident_end(self@.chars, old(self)@.pos),
            ensures
                self.wf(),
                self@.chars == old(self)@.chars,
                self@.line == old(self)@.line,
                start as int == old(self)@.pos,
                start as int <= self@.pos <= self@.chars.len(),
                self@.pos == ident_end(self@.chars, old(self)@.pos),
            decreases self@.chars.len() - self@.pos,
        {
            if self.position < self.length {
                let next = self.source.get_char(self.position);
                if is_alnum_char(next) {
                    self.advance();
                } else {
                    break;
                }
            } else {
                break;
            }
        }
        let consumed = self.lexeme(start, self.position);
        buf.append(consumed.as_str());
    }

    /// Pulls the next item of the token sequence: one recognized token, one
    /// lexical error, or `None` once the input holds nothing more. An error
    /// does not end the sequence: the next pull resumes exactly where the
    /// cursor stopped.
    pub fn next(&mut self) -> (r: Option<TokenResult>)
        requires
            old(self).wf(),
        ensures
            final(self).wf(),
            next_token_post(old(self)@, final(self)@, r),
    {
        Token::consume(self)
    }
}

/// Entry point: a scanner over `source` with the cursor at the first character
/// and the line counter at zero.
pub fn scan_tokens<'a>(source: &'a str) -> (s: Scanner<'a>)
    ensures
        s.wf(),
        s@.chars == source@,
        s@.pos == 0,
        s@.line == 0,
{
    let length = source.unicode_len();
    Scanner { source, length, position: 0, line_number: 0 }
}

} // verus!
