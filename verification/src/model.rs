//! The mathematical model of the scan: character classes, maximal runs,
//! a single recognition step, and the full left-to-right scan.
//!
//! `scan_from(s, pos, line)` gives the tokens and errors the scanner
//! produces from position `pos` onward, starting on line `line`;
//! `scan_tokens_spec(s)` is the whole token sequence including the
//! terminal EOF token.  The executable scanner is proved to produce
//! exactly these.

use vstd::prelude::*;

use crate::token::ErrorKind;
use crate::token::ErrorModel;
use crate::token::TokenKind;
use crate::token::TokenModel;

verus! {

/// A decimal digit, `'0'` through `'9'`.
pub open spec fn is_digit_char(c: char) -> bool {
    ('0' as u32) <= (c as u32) && (c as u32) <= ('9' as u32)
}

/// An ASCII letter or underscore: what an identifier may start with.
pub open spec fn is_alpha_char(c: char) -> bool {
    ||| ('a' as u32) <= (c as u32) && (c as u32) <= ('z' as u32)
    ||| ('A' as u32) <= (c as u32) && (c as u32) <= ('Z' as u32)
    ||| c == '_'
}

/// A letter, underscore, or digit: what an identifier may continue with.
pub open spec fn is_alphanum_char(c: char) -> bool {
    is_alpha_char(c) || is_digit_char(c)
}

/// The kind of an identifier-shaped lexeme: the matching reserved
/// keyword if there is one, `Identifier` otherwise.
pub open spec fn keyword_kind(text: Seq<char>) -> TokenKind {
    if text == "and"@ {
        TokenKind::And
    } else if text == "class"@ {
        TokenKind::Class
    } else if text == "else"@ {
        TokenKind::Else
    } else if text == "false"@ {
        TokenKind::False
    } else if text == "fun"@ {
        TokenKind::Fun
    } else if text == "for"@ {
        TokenKind::For
    } else if text == "if"@ {
        TokenKind::If
    } else if text == "nil"@ {
        TokenKind::Nil
    } else if text == "or"@ {
        TokenKind::Or
    } else if text == "print"@ {
        TokenKind::Print
    } else if text == "return"@ {
        TokenKind::Return
    } else if text == "super"@ {
        TokenKind::Super
    } else if text == "this"@ {
        TokenKind::This
    } else if text == "true"@ {
        TokenKind::True
    } else if text == "var"@ {
        TokenKind::Var
    } else if text == "while"@ {
        TokenKind::While
    } else {
        TokenKind::Identifier
    }
}

/// The two-character kind paired with a one-character operator kind by
/// a trailing `'='`.
pub open spec fn double_kind(k: TokenKind) -> TokenKind {
    match k {
        TokenKind::Bang => TokenKind::BangEqual,
        TokenKind::Equal => TokenKind::EqualEqual,
        TokenKind::Less => TokenKind::LessEqual,
        TokenKind::Greater => TokenKind::GreaterEqual,
        _ => k,
    }
}

/// The end of the maximal run of digits starting at `i`.
pub open spec fn digits_end(s: Seq<char>, i: int) -> int
    decreases s.len() - i,
{
    if 0 <= i < s.len() && is_digit_char(s[i]) {
        digits_end(s, i + 1)
    } else {
        i
    }
}

/// The end of the maximal run of letters, digits and underscores
/// starting at `i`.
pub open spec fn ident_end(s: Seq<char>, i: int) -> int
    decreases s.len() - i,
{
    if 0 <= i < s.len() && is_alphanum_char(s[i]) {
        ident_end(s, i + 1)
    } else {
        i
    }
}

/// The position of the first newline at or after `i`, or the end of the
/// input: where a line comment stops.
pub open spec fn comment_end(s: Seq<char>, i: int) -> int
    decreases s.len() - i,
{
    if 0 <= i < s.len() && s[i] != '\n' {
        comment_end(s, i + 1)
    } else {
        i
    }
}

/// The position of the first `'"'` at or after `i`, or `s.len()` when
/// the input ends first: where a string literal closes.
pub open spec fn string_close(s: Seq<char>, i: int) -> int
    decreases s.len() - i,
{
    if 0 <= i < s.len() {
        if s[i] == '"' {
            i
        } else {
            string_close(s, i + 1)
        }
    } else {
        s.len() as int
    }
}

/// The number of newline characters in `s` at positions `[i, j)`.
pub open spec fn count_newlines(s: Seq<char>, i: int, j: int) -> int
    decreases j - i,
{
    if i < j {
        (if 0 <= i < s.len() && s[i] == '\n' {
            1int
        } else {
            0int
        }) + count_newlines(s, i + 1, j)
    } else {
        0
    }
}

/// Where a number starting at `pos` ends: the maximal digit run,
/// extended over a decimal point only when at least one digit follows
/// it (a trailing dot is not absorbed).
pub open spec fn number_end(s: Seq<char>, pos: int) -> int {
    let d1 = digits_end(s, pos);
    if d1 < s.len() && s[d1] == '.' && d1 + 1 < s.len() && is_digit_char(s[d1 + 1]) {
        digits_end(s, d1 + 1)
    } else {
        d1
    }
}

/// The outcome of recognizing one construct at a position: the position
/// and line after it, the token it emits (if any), and the fault it
/// reports (if any).
#[verifier::ext_equal]
pub ghost struct SpecStep {
    pub next: int,
    pub line: int,
    pub token: Option<TokenModel>,
    pub error: Option<ErrorModel>,
}

/// A step that emits one token with lexeme `s[pos..end]`, no literal
/// value, and no fault.
pub open spec fn single_token(s: Seq<char>, pos: int, line: int, kind: TokenKind, end: int) -> SpecStep {
    SpecStep {
        next: end,
        line,
        token: Some(
            TokenModel { kind, lexeme: s.subrange(pos, end), literal: Seq::empty(), line },
        ),
        error: None,
    }
}

/// Lookahead-based operator disambiguation: `single` when the next
/// character is not `'='`, `double` (consuming both) when it is.
pub open spec fn two_char_step(
    s: Seq<char>,
    pos: int,
    line: int,
    single: TokenKind,
    double: TokenKind,
) -> SpecStep {
    if pos + 1 < s.len() && s[pos + 1] == '=' {
        single_token(s, pos, line, double, pos + 2)
    } else {
        single_token(s, pos, line, single, pos + 1)
    }
}

/// A string literal starting at `pos` (where `s[pos] == '"'`): consume
/// up to the closing quote, counting embedded newlines; if the input
/// ends first, report an unterminated string at the line where scanning
/// stopped and emit no token.  The token's line is that of the opening
/// quote.
pub open spec fn string_step(s: Seq<char>, pos: int, line: int) -> SpecStep {
    let close = string_close(s, pos + 1);
    let nl = line + count_newlines(s, pos + 1, close);
    if close >= s.len() {
        SpecStep {
            next: s.len() as int,
            line: nl,
            token: None,
            error: Some(ErrorModel { kind: ErrorKind::UnterminatedString, line: nl }),
        }
    } else {
        SpecStep {
            next: close + 1,
            line: nl,
            token: Some(
                TokenModel {
                    kind: TokenKind::StringLit,
                    lexeme: s.subrange(pos, close + 1),
                    literal: s.subrange(pos + 1, close),
                    line,
                },
            ),
            error: None,
        }
    }
}

/// A number literal starting at `pos` (where `s[pos]` is a digit):
/// lexeme and literal are both the matched digit sequence.
pub open spec fn number_step(s: Seq<char>, pos: int, line: int) -> SpecStep {
    let end = number_end(s, pos);
    SpecStep {
        next: end,
        line,
        token: Some(
            TokenModel {
                kind: TokenKind::Number,
                lexeme: s.subrange(pos, end),
                literal: s.subrange(pos, end),
                line,
            },
        ),
        error: None,
    }
}

/// An identifier or keyword starting at `pos` (where `s[pos]` is a
/// letter or underscore).
pub open spec fn ident_step(s: Seq<char>, pos: int, line: int) -> SpecStep {
    let end = ident_end(s, pos);
    single_token(s, pos, line, keyword_kind(s.subrange(pos, end)), end)
}

/// Recognize one construct at position `pos` of `s`, on line `line`.
pub open spec fn step(s: Seq<char>, pos: int, line: int) -> SpecStep
    recommends
        0 <= pos < s.len(),
{
    let c = s[pos];
    if c == '(' {
        single_token(s, pos, line, TokenKind::LeftParen, pos + 1)
    } else if c == ')' {
        single_token(s, pos, line, TokenKind::RightParen, pos + 1)
    } else if c == '{' {
        single_token(s, pos, line, TokenKind::LeftBrace, pos + 1)
    } else if c == '}' {
        single_token(s, pos, line, TokenKind::RightBrace, pos + 1)
    } else if c == ',' {
        single_token(s, pos, line, TokenKind::Comma, pos + 1)
    } else if c == '.' {
        single_token(s, pos, line, TokenKind::Dot, pos + 1)
    } else if c == '-' {
        single_token(s, pos, line, TokenKind::Minus, pos + 1)
    } else if c == '+' {
        single_token(s, pos, line, TokenKind::Plus, pos + 1)
    } else if c == ';' {
        single_token(s, pos, line, TokenKind::Semicolon, pos + 1)
    } else if c == '*' {
        single_token(s, pos, line, TokenKind::Star, pos + 1)
    } else if c == '!' {
        two_char_step(s, pos, line, TokenKind::Bang, TokenKind::BangEqual)
    } else if c == '=' {
        two_char_step(s, pos, line, TokenKind::Equal, TokenKind::EqualEqual)
    } else if c == '<' {
        two_char_step(s, pos, line, TokenKind::Less, TokenKind::LessEqual)
    } else if c == '>' {
        two_char_step(s, pos, line, TokenKind::Greater, TokenKind::GreaterEqual)
    } else if c == '/' {
        if pos + 1 < s.len() && s[pos + 1] == '/' {
            // A comment runs to the end of the line and emits nothing;
            // the newline itself is consumed by the next step.
            SpecStep { next: comment_end(s, pos + 2), line, token: None, error: None }
        } else {
            single_token(s, pos, line, TokenKind::Slash, pos + 1)
        }
    } else if c == ' ' || c == '\r' || c == '\t' {
        SpecStep { next: pos + 1, line, token: None, error: None }
    } else if c == '\n' {
        SpecStep { next: pos + 1, line: line + 1, token: None, error: None }
    } else if c == '"' {
        string_step(s, pos, line)
    } else if is_digit_char(c) {
        number_step(s, pos, line)
    } else if is_alpha_char(c) {
        ident_step(s, pos, line)
    } else {
        SpecStep {
            next: pos + 1,
            line,
            token: None,
            error: Some(ErrorModel { kind: ErrorKind::UnexpectedCharacter, line }),
        }
    }
}

/// What a whole scan yields: the tokens in order (EOF not included
/// here), the faults in order, and the line counter at the end.
#[verifier::ext_equal]
pub ghost struct ScanResult {
    pub tokens: Seq<TokenModel>,
    pub errors: Seq<ErrorModel>,
    pub end_line: int,
}

/// An optional value as a sequence of zero or one elements.
pub open spec fn opt_to_seq<A>(o: Option<A>) -> Seq<A> {
    match o {
        Option::Some(x) => seq![x],
        Option::None => Seq::empty(),
    }
}

/// Scan `s` from position `pos` on line `line` to the end of the input.
/// (The inner guard only serves the termination argument; by
/// [`lemma_step_progress`] it never fires for positions in range.)
pub open spec fn scan_from(s: Seq<char>, pos: int, line: int) -> ScanResult
    decreases s.len() - pos,
{
    if pos < 0 || pos >= s.len() {
        ScanResult { tokens: Seq::empty(), errors: Seq::empty(), end_line: line }
    } else {
        let st = step(s, pos, line);
        if st.next <= pos || st.next > s.len() {
            ScanResult { tokens: Seq::empty(), errors: Seq::empty(), end_line: line }
        } else {
            let rest = scan_from(s, st.next, st.line);
            ScanResult {
                tokens: opt_to_seq(st.token) + rest.tokens,
                errors: opt_to_seq(st.error) + rest.errors,
                end_line: rest.end_line,
            }
        }
    }
}

/// Scan the whole input, starting on line 1.
pub open spec fn scan_spec(s: Seq<char>) -> ScanResult {
    scan_from(s, 0, 1)
}

/// The terminal token: empty lexeme, empty literal, the given line.
pub open spec fn eof_token(line: int) -> TokenModel {
    TokenModel { kind: TokenKind::Eof, lexeme: Seq::empty(), literal: Seq::empty(), line }
}

/// The full token sequence of a scan: the scanned tokens followed by
/// one EOF token carrying the final line counter.
pub open spec fn scan_tokens_spec(s: Seq<char>) -> Seq<TokenModel> {
    scan_spec(s).tokens.push(eof_token(scan_spec(s).end_line))
}

/// The maximal digit run neither moves backward nor passes the end.
pub proof fn lemma_digits_end_bounds(s: Seq<char>, i: int)
    requires
        0 <= i <= s.len(),
    ensures
        i <= digits_end(s, i) <= s.len(),
    decreases s.len() - i,
{
    if i < s.len() && is_digit_char(s[i]) {
        lemma_digits_end_bounds(s, i + 1);
    }
}

/// The maximal identifier run neither moves backward nor passes the end.
pub proof fn lemma_ident_end_bounds(s: Seq<char>, i: int)
    requires
        0 <= i <= s.len(),
    ensures
        i <= ident_end(s, i) <= s.len(),
    decreases s.len() - i,
{
    if i < s.len() && is_alphanum_char(s[i]) {
        lemma_ident_end_bounds(s, i + 1);
    }
}

/// A comment's end neither moves backward nor passes the end.
pub proof fn lemma_comment_end_bounds(s: Seq<char>, i: int)
    requires
        0 <= i <= s.len(),
    ensures
        i <= comment_end(s, i) <= s.len(),
    decreases s.len() - i,
{
    if i < s.len() && s[i] != '\n' {
        lemma_comment_end_bounds(s, i + 1);
    }
}

/// No character of a comment's span is a newline.
pub proof fn lemma_comment_end_no_newline(s: Seq<char>, i: int)
    requires
        0 <= i <= s.len(),
    ensures
        forall|k: int| i <= k < comment_end(s, i) ==> s[k] != '\n',
    decreases s.len() - i,
{
    lemma_comment_end_bounds(s, i);
    if i < s.len() && s[i] != '\n' {
        lemma_comment_end_no_newline(s, i + 1);
    }
}

/// A string's closing quote neither precedes its start nor passes the end.
pub proof fn lemma_string_close_bounds(s: Seq<char>, i: int)
    requires
        0 <= i <= s.len(),
    ensures
        i <= string_close(s, i) <= s.len(),
    decreases s.len() - i,
{
    if i < s.len() && s[i] != '"' {
        lemma_string_close_bounds(s, i + 1);
    }
}

/// At most one newline is counted per character.
pub proof fn lemma_count_newlines_bounds(s: Seq<char>, i: int, j: int)
    requires
        i <= j,
    ensures
        0 <= count_newlines(s, i, j) <= j - i,
    decreases j - i,
{
    if i < j {
        lemma_count_newlines_bounds(s, i + 1, j);
    }
}

/// Extending the counted range by one position on the right adds the
/// newline bit of that position.
pub proof fn lemma_count_newlines_snoc(s: Seq<char>, i: int, j: int)
    requires
        i <= j,
        0 <= j < s.len(),
    ensures
        count_newlines(s, i, j + 1) == count_newlines(s, i, j) + (if s[j] == '\n' {
            1int
        } else {
            0int
        }),
    decreases j - i,
{
    if i < j {
        lemma_count_newlines_snoc(s, i + 1, j);
    } else {
        assert(count_newlines(s, j + 1, j + 1) == 0);
        assert(count_newlines(s, i, j) == 0);
    }
}

/// Every step moves the cursor strictly forward and at most to the end
/// of the input, and advances the line counter by at most one per
/// consumed character.
pub proof fn lemma_step_progress(s: Seq<char>, pos: int, line: int)
    requires
        0 <= pos < s.len(),
    ensures
        pos < step(s, pos, line).next <= s.len(),
        line <= step(s, pos, line).line <= line + (step(s, pos, line).next - pos),
{
    let c = s[pos];
    if c == '/' && pos + 1 < s.len() && s[pos + 1] == '/' {
        lemma_comment_end_bounds(s, pos + 2);
    } else if c == '"' {
        lemma_string_close_bounds(s, pos + 1);
        let close = string_close(s, pos + 1);
        lemma_count_newlines_bounds(s, pos + 1, close);
    } else if is_digit_char(c) {
        lemma_digits_end_bounds(s, pos);
        let d1 = digits_end(s, pos);
        assert(digits_end(s, pos) == digits_end(s, pos + 1));
        lemma_digits_end_bounds(s, pos + 1);
        if d1 < s.len() && s[d1] == '.' && d1 + 1 < s.len() && is_digit_char(s[d1 + 1]) {
            lemma_digits_end_bounds(s, d1 + 1);
            assert(digits_end(s, d1 + 1) == digits_end(s, d1 + 2));
            lemma_digits_end_bounds(s, d1 + 2);
        }
    } else if is_alpha_char(c) {
        assert(ident_end(s, pos) == ident_end(s, pos + 1));
        lemma_ident_end_bounds(s, pos + 1);
    }
}

/// Unfolding one step of the scan: for a position in range, the scan is
/// the step's outputs followed by the scan from the step's new state.
pub proof fn lemma_scan_from_unfold(s: Seq<char>, pos: int, line: int)
    requires
        0 <= pos < s.len(),
    ensures
        ({
            let st = step(s, pos, line);
            let rest = scan_from(s, st.next, st.line);
            scan_from(s, pos, line) == (ScanResult {
                tokens: opt_to_seq(st.token) + rest.tokens,
                errors: opt_to_seq(st.error) + rest.errors,
                end_line: rest.end_line,
            })
        }),
{
    lemma_step_progress(s, pos, line);
}

} // verus!
