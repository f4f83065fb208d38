//! The scanning engine: a cursor over the source text that recognizes
//! one token at a time and is proved to produce exactly the token and
//! error sequences of the mathematical model in [`crate::model`].

use vstd::prelude::*;
use vstd::std_specs::iter::IteratorSpec;

use crate::model::comment_end;
use crate::model::count_newlines;
use crate::model::digits_end;
use crate::model::double_kind;
use crate::model::ident_end;
use crate::model::ident_step;
use crate::model::is_alpha_char;
use crate::model::is_alphanum_char;
use crate::model::is_digit_char;
use crate::model::keyword_kind;
use crate::model::lemma_count_newlines_snoc;
use crate::model::lemma_digits_end_bounds;
use crate::model::lemma_ident_end_bounds;
use crate::model::lemma_scan_from_unfold;
use crate::model::lemma_step_progress;
use crate::model::lemma_string_close_bounds;
use crate::model::number_end;
use crate::model::number_step;
use crate::model::opt_to_seq;
use crate::model::scan_from;
use crate::model::scan_spec;
use crate::model::scan_tokens_spec;
use crate::model::step;
use crate::model::string_close;
use crate::model::string_step;
use crate::model::two_char_step;
use crate::token::ErrorKind;
use crate::token::ErrorModel;
use crate::token::ScanError;
use crate::token::Token;
use crate::token::TokenKind;
use crate::token::TokenModel;

verus! {

/// Relies on String::push: appends the given character to the end of
/// the string.
pub assume_specification[ String::push ](s: &mut String, ch: char)
    ensures
        final(s)@ == old(s)@.push(ch),
;

/// The source substring at character positions `[from, to)`, as an
/// owned string.
fn lexeme_string(source: &Vec<char>, from: usize, to: usize) -> (r: String)
    requires
        from <= to <= source@.len(),
    ensures
        r@ == source@.subrange(from as int, to as int),
{
    let mut r = String::new();
    let mut i: usize = from;
    proof {
        assert(r@ =~= source@.subrange(from as int, from as int));
    }
    while i < to
        invariant
            from <= i <= to <= source@.len(),
            r@ == source@.subrange(from as int, i as int),
        decreases to - i,
    {
        r.push(source[i]);
        proof {
            assert(r@ =~= source@.subrange(from as int, i as int + 1));
        }
        i = i + 1;
    }
    r
}

/// The scanner: the full source text (as a sequence of characters, so
/// every lookahead is O(1)), a cursor bounding the lexeme currently
/// being recognized, the token and error sequences being built, the
/// 1-based line counter, and the sticky error flag.
pub struct Scanner {
    pub source: Vec<char>,
    pub tokens: Vec<Token>,
    pub errors: Vec<ScanError>,
    pub start: usize,
    pub current: usize,
    pub line: usize,
    pub had_error: bool,
}

/// The scanner's output fields are exactly those of `pre` followed by
/// the given optional token and optional error, and the error flag is
/// set when a fault is reported (and never reset).
pub open spec fn appended(
    pre: Scanner,
    post: Scanner,
    tok: Option<TokenModel>,
    err: Option<ErrorModel>,
) -> bool {
    &&& post.source@ == pre.source@
    &&& post.tokens.deep_view() == pre.tokens.deep_view() + opt_to_seq(tok)
    &&& post.errors.deep_view() == pre.errors.deep_view() + opt_to_seq(err)
    &&& post.had_error == (pre.had_error || err is Some)
}

/// The scanner's source and output fields are unchanged.
pub open spec fn unchanged_output(pre: Scanner, post: Scanner) -> bool {
    &&& post.source@ == pre.source@
    &&& post.tokens@ == pre.tokens@
    &&& post.errors@ == pre.errors@
    &&& post.had_error == pre.had_error
}

impl Scanner {
    /// The scanner's structural invariant: the lexeme bounds order
    /// within the source, the line counter is 1-based and grows at most
    /// one per consumed character, and the error flag covers the
    /// recorded errors.  (`source` is strictly shorter than the address
    /// space, so cursor and line arithmetic cannot overflow.)
    pub open spec fn wf(self) -> bool {
        &&& self.start <= self.current <= self.source@.len()
        &&& self.source@.len() < usize::MAX
        &&& 1 <= self.line
        &&& self.line <= 1 + self.current
        &&& (self.errors@.len() > 0 ==> self.had_error)
    }

    /// Construct a scanner over the given source text, with the
    /// caller's current error flag carried in.
    pub fn new(source_code: &str, had_error: &mut bool) -> (r: Scanner)
        requires
            source_code@.len() < usize::MAX,
        ensures
            r.wf(),
            r.source@ == source_code@,
            r.tokens@.len() == 0,
            r.errors@.len() == 0,
            r.start == 0,
            r.current == 0,
            r.line == 1,
            r.had_error == *old(had_error),
            *final(had_error) == *old(had_error),
    {
        let mut source: Vec<char> = Vec::new();
        let mut it = source_code.chars();
        proof {
            assert(source@ + it.remaining() =~= source_code@);
        }
        loop
            invariant_except_break
                it.obeys_prophetic_iter_laws(),
                it.decrease() is Some,
                source@ + it.remaining() == source_code@,
            ensures
                source@ == source_code@,
            decreases it.decrease()->0,
        {
            match it.next() {
                Some(c) => {
                    source.push(c);
                    proof {
                        assert(source@ + it.remaining() =~= source_code@);
                    }
                },
                None => {
                    proof {
                        assert(source@ =~= source_code@);
                    }
                    break ;
                },
            }
        }
        Scanner {
            source,
            tokens: Vec::new(),
            errors: Vec::new(),
            start: 0,
            current: 0,
            line: 1,
            had_error: *had_error,
        }
    }

    /// Whether the cursor has reached the end of the input.
    pub fn is_at_end(&self) -> (r: bool)
        ensures
            r == (self.current >= self.source@.len()),
    {
        self.current >= self.source.len()
    }

    /// The character at the given position, if it is in range.
    pub fn source_char_at(&self, idx: usize) -> (r: Option<char>)
        ensures
            r == (if idx < self.source@.len() {
                Some(self.source@[idx as int])
            } else {
                None::<char>
            }),
    {
        if idx < self.source.len() {
            Some(self.source[idx])
        } else {
            None
        }
    }

    /// Consume and return the character at the cursor.
    pub fn advance(&mut self) -> (c: char)
        requires
            old(self).current < old(self).source@.len(),
            old(self).source@.len() < usize::MAX,
        ensures
            unchanged_output(*old(self), *final(self)),
            final(self).start == old(self).start,
            final(self).line == old(self).line,
            final(self).current == old(self).current + 1,
            c == old(self).source@[old(self).current as int],
    {
        let c = self.source[self.current];
        self.current = self.current + 1;
        c
    }

    /// The character at the cursor, without consuming it; `'\0'` at the
    /// end of the input.
    pub fn peek(&self) -> (c: char)
        ensures
            c == (if self.current < self.source@.len() {
                self.source@[self.current as int]
            } else {
                '\0'
            }),
    {
        if self.is_at_end() {
            '\0'
        } else {
            match self.source_char_at(self.current) {
                None => '\0',
                Some(ch) => ch,
            }
        }
    }

    /// The character one past the cursor, without consuming anything;
    /// `'\0'` when fewer than two characters remain.
    pub fn peek_next(&self) -> (c: char)
        ensures
            c == (if self.current + 1 < self.source@.len() {
                self.source@[self.current as int + 1]
            } else {
                '\0'
            }),
    {
        if self.current < self.source.len() {
            match self.source_char_at(self.current + 1) {
                None => '\0',
                Some(ch) => ch,
            }
        } else {
            '\0'
        }
    }

    /// Consume the character at the cursor exactly when it equals
    /// `expected`.
    pub fn match_op(&mut self, expected: char) -> (r: bool)
        requires
            old(self).current <= old(self).source@.len(),
            old(self).source@.len() < usize::MAX,
        ensures
            unchanged_output(*old(self), *final(self)),
            final(self).start == old(self).start,
            final(self).line == old(self).line,
            r == (old(self).current < old(self).source@.len() && old(self).source@[old(
                self,
            ).current as int] == expected),
            final(self).current == old(self).current + (if r {
                1int
            } else {
                0int
            }),
    {
        let e: bool;
        let get_char = self.source_char_at(self.current);
        match get_char {
            None => e = true,
            Some(ch) => e = ch != expected,
        }
        if self.is_at_end() || e {
            false
        } else {
            self.current = self.current + 1;
            true
        }
    }

    /// Decimal digit predicate.
    pub fn is_digit(&self, c: char) -> (r: bool)
        ensures
            r == is_digit_char(c),
    {
        (c as u32) >= ('0' as u32) && (c as u32) <= ('9' as u32)
    }

    /// Letter-or-underscore predicate: what an identifier may start with.
    pub fn is_alpha(&self, c: char) -> (r: bool)
        ensures
            r == is_alpha_char(c),
    {
        ((c as u32) >= ('a' as u32) && (c as u32) <= ('z' as u32)) || ((c as u32) >= ('A' as u32)
            && (c as u32) <= ('Z' as u32)) || c == '_'
    }

    /// Letter, underscore or digit: what an identifier may continue with.
    pub fn is_alphanum(&self, c: char) -> (r: bool)
        ensures
            r == is_alphanum_char(c),
    {
        self.is_alpha(c) || self.is_digit(c)
    }

    /// Append a token for the current lexeme `source[start..current]`,
    /// with the given kind and literal text, on the current line.
    pub fn add_token(&mut self, ki: TokenKind, lit: &str)
        requires
            old(self).wf(),
        ensures
            final(self).wf(),
            final(self).start == old(self).start,
            final(self).current == old(self).current,
            final(self).line == old(self).line,
            appended(
                *old(self),
                *final(self),
                Some(
                    TokenModel {
                        kind: ki,
                        lexeme: old(self).source@.subrange(
                            old(self).start as int,
                            old(self).current as int,
                        ),
                        literal: lit@,
                        line: old(self).line as int,
                    },
                ),
                None,
            ),
    {
        let text = lexeme_string(&self.source, self.start, self.current);
        let t = Token::new(ki, text.as_str(), lit, self.line);
        self.tokens.push(t);
        proof {
            assert(self.tokens.deep_view() =~= old(self).tokens.deep_view() + opt_to_seq(
                Some(t@),
            ));
            assert(self.errors.deep_view() =~= old(self).errors.deep_view() + opt_to_seq(
                None::<ErrorModel>,
            ));
        }
    }

    /// Append a token with no literal value for the current lexeme.
    pub fn add_token_single(&mut self, ki: TokenKind)
        requires
            old(self).wf(),
        ensures
            final(self).wf(),
            final(self).start == old(self).start,
            final(self).current == old(self).current,
            final(self).line == old(self).line,
            appended(
                *old(self),
                *final(self),
                Some(
                    TokenModel {
                        kind: ki,
                        lexeme: old(self).source@.subrange(
                            old(self).start as int,
                            old(self).current as int,
                        ),
                        literal: Seq::empty(),
                        line: old(self).line as int,
                    },
                ),
                None,
            ),
    {
        proof {
            reveal_strlit("");
            assert(""@ =~= Seq::<char>::empty());
        }
        self.add_token(ki, "");
    }

    /// Record a lexical fault at the current line and set the sticky
    /// error flag; the faulty span contributes no token.
    pub fn error(&mut self, kind: ErrorKind)
        requires
            old(self).wf(),
        ensures
            final(self).wf(),
            final(self).start == old(self).start,
            final(self).current == old(self).current,
            final(self).line == old(self).line,
            appended(
                *old(self),
                *final(self),
                None,
                Some(ErrorModel { kind, line: old(self).line as int }),
            ),
    {
        let e = ScanError { kind, line: self.line };
        self.errors.push(e);
        self.had_error = true;
        proof {
            assert(self.errors.deep_view() =~= old(self).errors.deep_view() + opt_to_seq(
                Some(e@),
            ));
            assert(self.tokens.deep_view() =~= old(self).tokens.deep_view() + opt_to_seq(
                None::<TokenModel>,
            ));
        }
    }

    /// After the opening character of a one-or-two-character operator
    /// has been consumed: emit the two-character kind when the next
    /// character is `'='` (consuming it), the one-character kind `arg`
    /// otherwise.
    pub fn add_token_expect_double(&mut self, arg: TokenKind)
        requires
            old(self).wf(),
            old(self).start + 1 == old(self).current,
            arg == TokenKind::Bang || arg == TokenKind::Equal || arg == TokenKind::Less || arg
                == TokenKind::Greater,
        ensures
            final(self).wf(),
            final(self).start == old(self).start,
            final(self).line == old(self).line,
            ({
                let st = two_char_step(
                    old(self).source@,
                    old(self).start as int,
                    old(self).line as int,
                    arg,
                    double_kind(arg),
                );
                &&& final(self).current == st.next
                &&& appended(*old(self), *final(self), st.token, st.error)
            }),
    {
        if self.match_op('=') {
            match arg {
                TokenKind::Bang => self.add_token_single(TokenKind::BangEqual),
                TokenKind::Equal => self.add_token_single(TokenKind::EqualEqual),
                TokenKind::Less => self.add_token_single(TokenKind::LessEqual),
                TokenKind::Greater => self.add_token_single(TokenKind::GreaterEqual),
                _ => self.add_token_single(arg),
            }
        } else {
            self.add_token_single(arg);
        }
    }

    /// After an opening `'"'` has been consumed: scan the string
    /// literal, counting embedded newlines, and emit a `StringLit`
    /// token whose literal is the text strictly between the quotes — or
    /// report an unterminated string when the input ends first.
    pub fn handle_string(&mut self)
        requires
            old(self).wf(),
            old(self).start + 1 == old(self).current,
            old(self).source@[old(self).start as int] == '"',
        ensures
            final(self).wf(),
            final(self).start == old(self).start,
            ({
                let st = string_step(
                    old(self).source@,
                    old(self).start as int,
                    old(self).line as int,
                );
                &&& final(self).current == st.next
                &&& final(self).line == st.line
                &&& appended(*old(self), *final(self), st.token, st.error)
            }),
    {
        let ghost s = old(self).source@;
        let ghost pos = old(self).start as int;
        let line_start: usize = self.line;
        proof {
            lemma_string_close_bounds(s, pos + 1);
        }
        while self.peek() != '"' && !self.is_at_end()
            invariant
                self.source@ == s,
                self.start == old(self).start,
                pos == self.start as int,
                self.start + 1 <= self.current <= s.len(),
                s.len() < usize::MAX,
                s[pos] == '"',
                unchanged_output(*old(self), *self),
                line_start == old(self).line,
                1 <= self.line <= 1 + self.current,
                string_close(s, pos + 1) == string_close(s, self.current as int),
                self.line == line_start + count_newlines(s, pos + 1, self.current as int),
            decreases s.len() - self.current,
        {
            proof {
                lemma_count_newlines_snoc(s, pos + 1, self.current as int);
                assert(string_close(s, self.current as int) == string_close(
                    s,
                    self.current as int + 1,
                ));
            }
            if self.peek() == '\n' {
                self.line = self.line + 1;
            }
            self.advance();
        }
        if self.is_at_end() {
            // Unterminated string: report it at the line where scanning
            // stopped; no token for this attempt.
            self.error(ErrorKind::UnterminatedString);
            return ;
        }
        // The closing quote.
        self.advance();
        let value = lexeme_string(&self.source, self.start + 1, self.current - 1);
        let lexeme = lexeme_string(&self.source, self.start, self.current);
        let t = Token::new(TokenKind::StringLit, lexeme.as_str(), value.as_str(), line_start);
        self.tokens.push(t);
        proof {
            assert(self.tokens.deep_view() =~= old(self).tokens.deep_view() + opt_to_seq(
                Some(t@),
            ));
            assert(self.errors.deep_view() =~= old(self).errors.deep_view() + opt_to_seq(
                None::<ErrorModel>,
            ));
        }
    }

    /// After an opening digit has been consumed: consume the maximal
    /// digit run, extend it over a decimal point only when a digit
    /// follows, and emit a `Number` token whose literal equals its
    /// lexeme.
    pub fn handle_number(&mut self)
        requires
            old(self).wf(),
            old(self).start + 1 == old(self).current,
            is_digit_char(old(self).source@[old(self).start as int]),
        ensures
            final(self).wf(),
            final(self).start == old(self).start,
            final(self).line == old(self).line,
            ({
                let st = number_step(
                    old(self).source@,
                    old(self).start as int,
                    old(self).line as int,
                );
                &&& final(self).current == st.next
                &&& appended(*old(self), *final(self), st.token, st.error)
            }),
    {
        let ghost s = old(self).source@;
        let ghost pos = old(self).start as int;
        proof {
            assert(digits_end(s, pos) == digits_end(s, pos + 1));
            lemma_digits_end_bounds(s, pos + 1);
        }
        let mut p = self.peek();
        while self.is_digit(p)
            invariant
                self.source@ == s,
                self.start == old(self).start,
                pos == self.start as int,
                self.start + 1 <= self.current <= s.len(),
                s.len() < usize::MAX,
                unchanged_output(*old(self), *self),
                self.line == old(self).line,
                1 <= self.line <= 1 + pos + 1,
                digits_end(s, pos) == digits_end(s, self.current as int),
                p == (if self.current < s.len() {
                    s[self.current as int]
                } else {
                    '\0'
                }),
            decreases s.len() - self.current,
        {
            proof {
                assert(digits_end(s, self.current as int) == digits_end(
                    s,
                    self.current as int + 1,
                ));
                lemma_digits_end_bounds(s, self.current as int + 1);
            }
            self.advance();
            p = self.peek();
        }
        let ghost d1 = digits_end(s, pos);
        proof {
            assert(self.current as int == d1);
        }
        let peek_next_c = self.peek_next();
        if p == '.' && self.is_digit(peek_next_c) {
            self.advance();
            proof {
                assert(digits_end(s, d1 + 1) == digits_end(s, d1 + 2));
                lemma_digits_end_bounds(s, d1 + 2);
            }
            p = self.peek();
            while self.is_digit(p)
                invariant
                    self.source@ == s,
                    self.start == old(self).start,
                    self.start + 1 <= self.current <= s.len(),
                    s.len() < usize::MAX,
                    unchanged_output(*old(self), *self),
                    self.line == old(self).line,
                    1 <= self.line <= 1 + pos + 1,
                    d1 + 1 <= self.current,
                    digits_end(s, d1 + 1) == digits_end(s, self.current as int),
                    p == (if self.current < s.len() {
                        s[self.current as int]
                    } else {
                        '\0'
                    }),
                decreases s.len() - self.current,
            {
                proof {
                    assert(digits_end(s, self.current as int) == digits_end(
                        s,
                        self.current as int + 1,
                    ));
                    lemma_digits_end_bounds(s, self.current as int + 1);
                }
                self.advance();
                p = self.peek();
            }
        }
        proof {
            assert(self.current as int == number_end(s, pos));
        }
        let value = lexeme_string(&self.source, self.start, self.current);
        self.add_token(TokenKind::Number, value.as_str());
    }

    /// After an opening letter or underscore has been consumed: consume
    /// the maximal alphanumeric run and emit the matching keyword kind,
    /// or `Identifier` when the text is no reserved word.
    pub fn identifier(&mut self)
        requires
            old(self).wf(),
            old(self).start + 1 == old(self).current,
            is_alpha_char(old(self).source@[old(self).start as int]),
        ensures
            final(self).wf(),
            final(self).start == old(self).start,
            final(self).line == old(self).line,
            ({
                let st = ident_step(
                    old(self).source@,
                    old(self).start as int,
                    old(self).line as int,
                );
                &&& final(self).current == st.next
                &&& appended(*old(self), *final(self), st.token, st.error)
            }),
    {
        let ghost s = old(self).source@;
        let ghost pos = old(self).start as int;
        proof {
            assert(ident_end(s, pos) == ident_end(s, pos + 1));
            lemma_ident_end_bounds(s, pos + 1);
        }
        let mut p = self.peek();
        while self.is_alphanum(p)
            invariant
                self.source@ == s,
                self.start == old(self).start,
                pos == self.start as int,
                self.start + 1 <= self.current <= s.len(),
                s.len() < usize::MAX,
                unchanged_output(*old(self), *self),
                self.line == old(self).line,
                1 <= self.line <= 1 + pos + 1,
                ident_end(s, pos) == ident_end(s, self.current as int),
                p == (if self.current < s.len() {
                    s[self.current as int]
                } else {
                    '\0'
                }),
            decreases s.len() - self.current,
        {
            proof {
                assert(ident_end(s, self.current as int) == ident_end(s, self.current as int + 1));
                lemma_ident_end_bounds(s, self.current as int + 1);
            }
            self.advance();
            p = self.peek();
        }
        proof {
            assert(self.current as int == ident_end(s, pos));
        }
        let text = lexeme_string(&self.source, self.start, self.current);
        let kind = if text == "and".to_owned() {
            TokenKind::And
        } else if text == "class".to_owned() {
            TokenKind::Class
        } else if text == "else".to_owned() {
            TokenKind::Else
        } else if text == "false".to_owned() {
            TokenKind::False
        } else if text == "fun".to_owned() {
            TokenKind::Fun
        } else if text == "for".to_owned() {
            TokenKind::For
        } else if text == "if".to_owned() {
            TokenKind::If
        } else if text == "nil".to_owned() {
            TokenKind::Nil
        } else if text == "or".to_owned() {
            TokenKind::Or
        } else if text == "print".to_owned() {
            TokenKind::Print
        } else if text == "return".to_owned() {
            TokenKind::Return
        } else if text == "super".to_owned() {
            TokenKind::Super
        } else if text == "this".to_owned() {
            TokenKind::This
        } else if text == "true".to_owned() {
            TokenKind::True
        } else if text == "var".to_owned() {
            TokenKind::Var
        } else if text == "while".to_owned() {
            TokenKind::While
        } else {
            TokenKind::Identifier
        };
        proof {
            assert(kind == keyword_kind(s.subrange(pos, ident_end(s, pos))));
        }
        self.add_token_single(kind);
    }

    /// Dispatch for a consumed character that is no fixed punctuation,
    /// operator, whitespace or quote: a digit begins a number, a letter
    /// or underscore begins an identifier or keyword, and anything else
    /// is reported as an unexpected character (the scanner recovers by
    /// continuing at the next character).
    pub fn handle_non_single_char(&mut self, c: char)
        requires
            old(self).wf(),
            old(self).start + 1 == old(self).current,
            c == old(self).source@[old(self).start as int],
        ensures
            final(self).wf(),
            final(self).start == old(self).start,
            is_digit_char(c) ==> ({
                let st = number_step(
                    old(self).source@,
                    old(self).start as int,
                    old(self).line as int,
                );
                &&& final(self).current == st.next
                &&& final(self).line == old(self).line
                &&& appended(*old(self), *final(self), st.token, st.error)
            }),
            !is_digit_char(c) && is_alpha_char(c) ==> ({
                let st = ident_step(
                    old(self).source@,
                    old(self).start as int,
                    old(self).line as int,
                );
                &&& final(self).current == st.next
                &&& final(self).line == old(self).line
                &&& appended(*old(self), *final(self), st.token, st.error)
            }),
            !is_digit_char(c) && !is_alpha_char(c) ==> ({
                &&& final(self).current == old(self).current
                &&& final(self).line == old(self).line
                &&& appended(
                    *old(self),
                    *final(self),
                    None,
                    Some(
                        ErrorModel {
                            kind: ErrorKind::UnexpectedCharacter,
                            line: old(self).line as int,
                        },
                    ),
                )
            }),
    {
        if self.is_digit(c) {
            self.handle_number();
        } else if self.is_alpha(c) {
            self.identifier();
        } else {
            self.error(ErrorKind::UnexpectedCharacter);
        }
    }

    /// Recognize one construct at the cursor: exactly one step of the
    /// model.
    pub fn scan_token(&mut self)
        requires
            old(self).wf(),
            old(self).start == old(self).current,
            old(self).current < old(self).source@.len(),
        ensures
            final(self).wf(),
            final(self).start <= final(self).current,
            ({
                let st = step(old(self).source@, old(self).current as int, old(self).line as int);
                &&& final(self).current == st.next
                &&& final(self).line == st.line
                &&& appended(*old(self), *final(self), st.token, st.error)
            }),
    {
        let ghost s = old(self).source@;
        let ghost pos = old(self).current as int;
        let ghost l0 = old(self).line as int;
        proof {
            lemma_step_progress(s, pos, l0);
        }
        let c = self.advance();
        match c {
            '(' => self.add_token_single(TokenKind::LeftParen),
            ')' => self.add_token_single(TokenKind::RightParen),
            '{' => self.add_token_single(TokenKind::LeftBrace),
            '}' => self.add_token_single(TokenKind::RightBrace),
            ',' => self.add_token_single(TokenKind::Comma),
            '.' => self.add_token_single(TokenKind::Dot),
            '-' => self.add_token_single(TokenKind::Minus),
            '+' => self.add_token_single(TokenKind::Plus),
            ';' => self.add_token_single(TokenKind::Semicolon),
            '*' => self.add_token_single(TokenKind::Star),
            '!' => self.add_token_expect_double(TokenKind::Bang),
            '=' => self.add_token_expect_double(TokenKind::Equal),
            '<' => self.add_token_expect_double(TokenKind::Less),
            '>' => self.add_token_expect_double(TokenKind::Greater),
            '/' => {
                if self.match_op('/') {
                    // A comment runs until the end of the line and
                    // produces no token.
                    let ghost cstart = self.current as int;
                    while self.peek() != '\n' && !self.is_at_end()
                        invariant
                            self.source@ == s,
                            self.start == old(self).start,
                            pos == self.start as int,
                            cstart == pos + 2,
                            self.start <= self.current <= s.len(),
                            s.len() < usize::MAX,
                            unchanged_output(*old(self), *self),
                            self.line == old(self).line,
                            1 <= self.line <= 2 + pos,
                            cstart <= self.current,
                            comment_end(s, cstart) == comment_end(s, self.current as int),
                        decreases s.len() - self.current,
                    {
                        proof {
                            assert(comment_end(s, self.current as int) == comment_end(
                                s,
                                self.current as int + 1,
                            ));
                        }
                        self.advance();
                    }
                    proof {
                        assert(self.current as int == comment_end(s, cstart));
                        assert(self.tokens.deep_view() =~= self.tokens.deep_view() + opt_to_seq(
                            None::<TokenModel>,
                        ));
                        assert(self.errors.deep_view() =~= self.errors.deep_view() + opt_to_seq(
                            None::<ErrorModel>,
                        ));
                    }
                } else {
                    self.add_token_single(TokenKind::Slash);
                }
            },
            // Whitespace is consumed silently.
            ' ' => {
                proof {
                    assert(self.tokens.deep_view() =~= self.tokens.deep_view() + opt_to_seq(
                        None::<TokenModel>,
                    ));
                    assert(self.errors.deep_view() =~= self.errors.deep_view() + opt_to_seq(
                        None::<ErrorModel>,
                    ));
                }
            },
            '\r' => {
                proof {
                    assert(self.tokens.deep_view() =~= self.tokens.deep_view() + opt_to_seq(
                        None::<TokenModel>,
                    ));
                    assert(self.errors.deep_view() =~= self.errors.deep_view() + opt_to_seq(
                        None::<ErrorModel>,
                    ));
                }
            },
            '\t' => {
                proof {
                    assert(self.tokens.deep_view() =~= self.tokens.deep_view() + opt_to_seq(
                        None::<TokenModel>,
                    ));
                    assert(self.errors.deep_view() =~= self.errors.deep_view() + opt_to_seq(
                        None::<ErrorModel>,
                    ));
                }
            },
            '\n' => {
                self.line = self.line + 1;
                proof {
                    assert(self.tokens.deep_view() =~= self.tokens.deep_view() + opt_to_seq(
                        None::<TokenModel>,
                    ));
                    assert(self.errors.deep_view() =~= self.errors.deep_view() + opt_to_seq(
                        None::<ErrorModel>,
                    ));
                }
            },
            '"' => self.handle_string(),
            _ => self.handle_non_single_char(c),
        }
    }

    /// Drive the scan to completion: recognize tokens until the end of
    /// the input, then append the terminal EOF token.  The token and
    /// error sequences are exactly those of the model, and the error
    /// flag is set if and only if it was already set or some fault was
    /// reported.
    pub fn scan_tokens(&mut self)
        requires
            old(self).wf(),
            old(self).start == 0,
            old(self).current == 0,
            old(self).line == 1,
            old(self).tokens@.len() == 0,
            old(self).errors@.len() == 0,
        ensures
            final(self).wf(),
            final(self).source@ == old(self).source@,
            final(self).current == old(self).source@.len(),
            final(self).tokens.deep_view() == scan_tokens_spec(old(self).source@),
            final(self).errors.deep_view() == scan_spec(old(self).source@).errors,
            final(self).line == scan_spec(old(self).source@).end_line,
            final(self).had_error == (old(self).had_error || scan_spec(
                old(self).source@,
            ).errors.len() > 0),
    {
        let ghost s = old(self).source@;
        proof {
            assert(old(self).tokens.deep_view() =~= Seq::<TokenModel>::empty());
            assert(old(self).errors.deep_view() =~= Seq::<ErrorModel>::empty());
            assert(scan_spec(s).tokens =~= old(self).tokens.deep_view() + scan_from(
                s,
                0,
                1,
            ).tokens);
            assert(scan_spec(s).errors =~= old(self).errors.deep_view() + scan_from(
                s,
                0,
                1,
            ).errors);
        }
        while !self.is_at_end()
            invariant
                self.wf(),
                self.source@ == s,
                self.start <= self.current,
                scan_spec(s).tokens == self.tokens.deep_view() + scan_from(
                    s,
                    self.current as int,
                    self.line as int,
                ).tokens,
                scan_spec(s).errors == self.errors.deep_view() + scan_from(
                    s,
                    self.current as int,
                    self.line as int,
                ).errors,
                scan_spec(s).end_line == scan_from(
                    s,
                    self.current as int,
                    self.line as int,
                ).end_line,
                self.had_error == (old(self).had_error || self.errors.deep_view().len() > 0),
            decreases s.len() - self.current,
        {
            self.start = self.current;
            let ghost pos = self.current as int;
            let ghost l0 = self.line as int;
            let ghost pre_tokens = self.tokens.deep_view();
            let ghost pre_errors = self.errors.deep_view();
            self.scan_token();
            proof {
                lemma_step_progress(s, pos, l0);
                lemma_scan_from_unfold(s, pos, l0);
                let st = step(s, pos, l0);
                let rest = scan_from(s, st.next, st.line);
                assert((pre_tokens + opt_to_seq(st.token)) + rest.tokens =~= pre_tokens + (
                opt_to_seq(st.token) + rest.tokens));
                assert((pre_errors + opt_to_seq(st.error)) + rest.errors =~= pre_errors + (
                opt_to_seq(st.error) + rest.errors));
            }
        }
        proof {
            assert(scan_from(s, self.current as int, self.line as int).tokens
                =~= Seq::<TokenModel>::empty());
            assert(self.tokens.deep_view() =~= self.tokens.deep_view() + Seq::<
                TokenModel,
            >::empty());
            assert(self.errors.deep_view() =~= self.errors.deep_view() + Seq::<
                ErrorModel,
            >::empty());
            assert(self.tokens.deep_view() == scan_spec(s).tokens);
            reveal_strlit("");
            assert(""@ =~= Seq::<char>::empty());
        }
        let t = Token::new(TokenKind::Eof, "", "", self.line);
        let ghost pre_tokens = self.tokens.deep_view();
        self.tokens.push(t);
        proof {
            assert(self.tokens.deep_view() =~= pre_tokens.push(t@));
        }
    }
}

} // verus!
