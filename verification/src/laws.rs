//! The scanner's laws: proofs of the properties that hold of every
//! scan — termination with a single EOF token, coverage of the whole
//! source by lexemes, whitespace and comments, and the round-trip of
//! operator lexemes.

use vstd::prelude::*;

use crate::model::comment_end;
use crate::model::ident_end;
use crate::model::keyword_kind;
use crate::model::lemma_comment_end_bounds;
use crate::model::lemma_comment_end_no_newline;
use crate::model::lemma_scan_from_unfold;
use crate::model::lemma_step_progress;
use crate::model::opt_to_seq;
use crate::model::scan_from;
use crate::model::scan_spec;
use crate::model::scan_tokens_spec;
use crate::model::step;
use crate::model::ScanResult;
use crate::token::ErrorModel;
use crate::token::TokenKind;
use crate::token::TokenModel;

verus! {

/// No step of the scan ever emits an EOF token: the one EOF token is
/// appended at the very end.
pub proof fn lemma_scan_from_no_eof(s: Seq<char>, pos: int, line: int)
    ensures
        forall|i: int|
            0 <= i < scan_from(s, pos, line).tokens.len() ==> scan_from(
                s,
                pos,
                line,
            ).tokens[i].kind != TokenKind::Eof,
    decreases s.len() - pos,
{
    if 0 <= pos < s.len() {
        lemma_step_progress(s, pos, line);
        lemma_scan_from_unfold(s, pos, line);
        let st = step(s, pos, line);
        lemma_scan_from_no_eof(s, st.next, st.line);
        if st.token is Some {
            assert(st.token->0.kind != TokenKind::Eof);
        }
        assert forall|i: int| 0 <= i < scan_from(s, pos, line).tokens.len() implies scan_from(
            s,
            pos,
            line,
        ).tokens[i].kind != TokenKind::Eof by {
            let head = opt_to_seq(st.token);
            let rest = scan_from(s, st.next, st.line).tokens;
            if i < head.len() {
                assert(scan_from(s, pos, line).tokens[i] == st.token->0);
            } else {
                assert(scan_from(s, pos, line).tokens[i] == rest[i - head.len()]);
            }
        }
    }
}

/// Termination law: for every input, the token sequence ends in exactly
/// one EOF token — its last element has kind `Eof` and every other
/// element has a different kind.
pub proof fn lemma_eof_termination(s: Seq<char>)
    ensures
        scan_tokens_spec(s).len() >= 1,
        scan_tokens_spec(s).last().kind == TokenKind::Eof,
        forall|i: int|
            0 <= i < scan_tokens_spec(s).len() - 1 ==> scan_tokens_spec(s)[i].kind
                != TokenKind::Eof,
{
    lemma_scan_from_no_eof(s, 0, 1);
}

/// One consumed span of the scan: the characters it covered, and the
/// token and fault (if any) it produced.
#[verifier::ext_equal]
pub ghost struct Segment {
    pub text: Seq<char>,
    pub token: Option<TokenModel>,
    pub error: Option<ErrorModel>,
}

/// The scan's consumed spans, in order, from position `pos` on line
/// `line`.  (The inner guard only serves the termination argument, as
/// in `scan_from`.)
pub open spec fn scan_segments(s: Seq<char>, pos: int, line: int) -> Seq<Segment>
    decreases s.len() - pos,
{
    if pos < 0 || pos >= s.len() {
        Seq::empty()
    } else {
        let st = step(s, pos, line);
        if st.next <= pos || st.next > s.len() {
            Seq::empty()
        } else {
            seq![
                Segment { text: s.subrange(pos, st.next), token: st.token, error: st.error },
            ] + scan_segments(s, st.next, st.line)
        }
    }
}

/// The concatenation of the segments' texts.
pub open spec fn concat_texts(segs: Seq<Segment>) -> Seq<char>
    decreases segs.len(),
{
    if segs.len() == 0 {
        Seq::empty()
    } else {
        segs[0].text + concat_texts(segs.drop_first())
    }
}

/// The tokens of the segments, in order.
pub open spec fn tokens_of(segs: Seq<Segment>) -> Seq<TokenModel>
    decreases segs.len(),
{
    if segs.len() == 0 {
        Seq::empty()
    } else {
        opt_to_seq(segs[0].token) + tokens_of(segs.drop_first())
    }
}

/// The faults of the segments, in order.
pub open spec fn errors_of(segs: Seq<Segment>) -> Seq<ErrorModel>
    decreases segs.len(),
{
    if segs.len() == 0 {
        Seq::empty()
    } else {
        opt_to_seq(segs[0].error) + errors_of(segs.drop_first())
    }
}

/// A span that rightly produces no token: a single whitespace
/// character, or a line comment (two slashes and then no newline).
pub open spec fn is_blank(t: Seq<char>) -> bool {
    ||| t == seq![' ']
    ||| t == seq!['\r']
    ||| t == seq!['\t']
    ||| t == seq!['\n']
    ||| (t.len() >= 2 && t[0] == '/' && t[1] == '/' && (forall|k: int|
        2 <= k < t.len() ==> t[k] != '\n'))
}

/// The segments' texts concatenate to the scanned suffix of the source:
/// every character is consumed by exactly one segment.
pub proof fn lemma_segments_cover(s: Seq<char>, pos: int, line: int)
    requires
        0 <= pos <= s.len(),
    ensures
        concat_texts(scan_segments(s, pos, line)) == s.subrange(pos, s.len() as int),
    decreases s.len() - pos,
{
    if pos < s.len() {
        lemma_step_progress(s, pos, line);
        let st = step(s, pos, line);
        lemma_segments_cover(s, st.next, st.line);
        let segs = scan_segments(s, pos, line);
        assert(segs.drop_first() =~= scan_segments(s, st.next, st.line));
        assert(segs[0].text + s.subrange(st.next, s.len() as int) =~= s.subrange(
            pos,
            s.len() as int,
        ));
    } else {
        assert(s.subrange(pos, s.len() as int) =~= Seq::<char>::empty());
    }
}

/// The segments' tokens and faults are exactly those of the scan.
pub proof fn lemma_segments_outputs(s: Seq<char>, pos: int, line: int)
    requires
        0 <= pos <= s.len(),
    ensures
        tokens_of(scan_segments(s, pos, line)) == scan_from(s, pos, line).tokens,
        errors_of(scan_segments(s, pos, line)) == scan_from(s, pos, line).errors,
    decreases s.len() - pos,
{
    if pos < s.len() {
        lemma_step_progress(s, pos, line);
        lemma_scan_from_unfold(s, pos, line);
        let st = step(s, pos, line);
        lemma_segments_outputs(s, st.next, st.line);
        let segs = scan_segments(s, pos, line);
        assert(segs.drop_first() =~= scan_segments(s, st.next, st.line));
    }
}

/// A well-shaped segment: when it carries a token it consumed exactly
/// that token's lexeme, and when it carries neither token nor fault it
/// is whitespace or a comment.
pub open spec fn seg_ok(seg: Segment) -> bool {
    &&& (seg.token is Some ==> seg.token->0.lexeme == seg.text)
    &&& (seg.token is None && seg.error is None ==> is_blank(seg.text))
}

/// Every segment of a scan is well-shaped.
pub proof fn lemma_segment_shape(s: Seq<char>, pos: int, line: int)
    requires
        0 <= pos <= s.len(),
    ensures
        forall|k: int| 0 <= k < scan_segments(s, pos, line).len() ==> seg_ok(
            #[trigger] scan_segments(s, pos, line)[k],
        ),
    decreases s.len() - pos,
{
    if pos < s.len() {
        lemma_step_progress(s, pos, line);
        let st = step(s, pos, line);
        lemma_segment_shape(s, st.next, st.line);
        let segs = scan_segments(s, pos, line);
        let head = Segment { text: s.subrange(pos, st.next), token: st.token, error: st.error };
        assert(segs.drop_first() =~= scan_segments(s, st.next, st.line));
        let c = s[pos];
        if st.token is None && st.error is None {
            if c == ' ' || c == '\r' || c == '\t' || c == '\n' {
                assert(s.subrange(pos, pos + 1) =~= seq![s[pos]]);
                assert(is_blank(head.text));
            } else {
                // A comment: two slashes, then no newline up to its end.
                assert(c == '/' && pos + 1 < s.len() && s[pos + 1] == '/');
                lemma_comment_end_bounds(s, pos + 2);
                lemma_comment_end_no_newline(s, pos + 2);
                let t = head.text;
                assert(st.next == comment_end(s, pos + 2));
                assert(t.len() == st.next - pos >= 2);
                assert(t[0] == s[pos] && t[1] == s[pos + 1]);
                assert forall|k: int| 2 <= k < t.len() implies t[k] != '\n' by {
                    assert(t[k] == s[pos + k]);
                }
                assert(is_blank(t));
            }
        }
        assert forall|k: int| 0 <= k < segs.len() implies seg_ok(#[trigger] segs[k]) by {
            if k == 0 {
                assert(segs[0] == head);
            } else {
                assert(segs[k] == scan_segments(s, st.next, st.line)[k - 1]);
            }
        }
    }
}

/// When the segments report no fault at all, none of them carries one.
pub proof fn lemma_errors_of_none(segs: Seq<Segment>)
    requires
        errors_of(segs).len() == 0,
    ensures
        forall|k: int| 0 <= k < segs.len() ==> segs[k].error is None,
    decreases segs.len(),
{
    if segs.len() > 0 {
        lemma_errors_of_none(segs.drop_first());
        assert forall|k: int| 0 <= k < segs.len() implies segs[k].error is None by {
            if k > 0 {
                assert(segs[k] == segs.drop_first()[k - 1]);
            }
        }
    }
}

/// Coverage law: on an input with no lexical fault, concatenating each
/// token's lexeme with the exact intervening whitespace and comments
/// reproduces the original source — the scan's segments cover the whole
/// input, carry exactly the scan's tokens, each token's segment is its
/// lexeme, and every tokenless segment is whitespace or a comment.
pub proof fn lemma_source_coverage(s: Seq<char>)
    requires
        scan_spec(s).errors.len() == 0,
    ensures
        ({
            let segs = scan_segments(s, 0, 1);
            &&& concat_texts(segs) == s
            &&& tokens_of(segs) == scan_spec(s).tokens
            &&& forall|k: int|
                0 <= k < segs.len() ==> ((#[trigger] segs[k]).token is Some ==> segs[k].token->0.lexeme
                    == segs[k].text)
            &&& forall|k: int|
                0 <= k < segs.len() ==> ((#[trigger] segs[k]).token is None ==> is_blank(segs[k].text))
        }),
{
    let segs = scan_segments(s, 0, 1);
    lemma_segments_cover(s, 0, 1);
    assert(s.subrange(0, s.len() as int) =~= s);
    lemma_segments_outputs(s, 0, 1);
    lemma_segment_shape(s, 0, 1);
    lemma_errors_of_none(segs);
}

/// The single- and two-character operator and punctuation kinds.
pub open spec fn is_operator_kind(k: TokenKind) -> bool {
    match k {
        TokenKind::LeftParen => true,
        TokenKind::RightParen => true,
        TokenKind::LeftBrace => true,
        TokenKind::RightBrace => true,
        TokenKind::Comma => true,
        TokenKind::Dot => true,
        TokenKind::Minus => true,
        TokenKind::Plus => true,
        TokenKind::Semicolon => true,
        TokenKind::Star => true,
        TokenKind::Bang => true,
        TokenKind::BangEqual => true,
        TokenKind::Equal => true,
        TokenKind::EqualEqual => true,
        TokenKind::Less => true,
        TokenKind::LessEqual => true,
        TokenKind::Greater => true,
        TokenKind::GreaterEqual => true,
        TokenKind::Slash => true,
        _ => false,
    }
}

/// The canonical lexeme of an operator or punctuation kind.
pub open spec fn op_lexeme(k: TokenKind) -> Seq<char> {
    match k {
        TokenKind::LeftParen => seq!['('],
        TokenKind::RightParen => seq![')'],
        TokenKind::LeftBrace => seq!['{'],
        TokenKind::RightBrace => seq!['}'],
        TokenKind::Comma => seq![','],
        TokenKind::Dot => seq!['.'],
        TokenKind::Minus => seq!['-'],
        TokenKind::Plus => seq!['+'],
        TokenKind::Semicolon => seq![';'],
        TokenKind::Star => seq!['*'],
        TokenKind::Bang => seq!['!'],
        TokenKind::BangEqual => seq!['!', '='],
        TokenKind::Equal => seq!['='],
        TokenKind::EqualEqual => seq!['=', '='],
        TokenKind::Less => seq!['<'],
        TokenKind::LessEqual => seq!['<', '='],
        TokenKind::Greater => seq!['>'],
        TokenKind::GreaterEqual => seq!['>', '='],
        TokenKind::Slash => seq!['/'],
        _ => Seq::empty(),
    }
}

/// A token whose kind is an operator kind carries that kind's
/// canonical lexeme.
pub open spec fn canonical_op(t: TokenModel) -> bool {
    is_operator_kind(t.kind) ==> t.lexeme == op_lexeme(t.kind)
}

/// Every operator token any scan emits carries its kind's canonical
/// lexeme.
pub proof fn lemma_operator_lexemes_canonical(s: Seq<char>, pos: int, line: int)
    ensures
        forall|i: int|
            0 <= i < scan_from(s, pos, line).tokens.len() ==> canonical_op(
                #[trigger] scan_from(s, pos, line).tokens[i],
            ),
    decreases s.len() - pos,
{
    if 0 <= pos < s.len() {
        lemma_step_progress(s, pos, line);
        lemma_scan_from_unfold(s, pos, line);
        let st = step(s, pos, line);
        lemma_operator_lexemes_canonical(s, st.next, st.line);
        if st.token is Some {
            let t = st.token->0;
            if is_operator_kind(t.kind) {
                assert(s.subrange(pos, pos + 1) =~= seq![s[pos]]);
                if st.next == pos + 2 {
                    assert(s.subrange(pos, pos + 2) =~= seq![s[pos], s[pos + 1]]);
                }
                assert(!is_operator_kind(keyword_kind(s.subrange(pos, ident_end(s, pos)))));
                assert(t.lexeme == op_lexeme(t.kind));
            }
        }
        assert forall|i: int| 0 <= i < scan_from(s, pos, line).tokens.len() implies canonical_op(
            #[trigger] scan_from(s, pos, line).tokens[i],
        ) by {
            let head = opt_to_seq(st.token);
            let rest = scan_from(s, st.next, st.line).tokens;
            if i < head.len() {
                assert(scan_from(s, pos, line).tokens[i] == st.token->0);
            } else {
                assert(scan_from(s, pos, line).tokens[i] == rest[i - head.len()]);
            }
        }
    }
}

/// Round-trip law: scanning the canonical lexeme of any operator or
/// punctuation kind in isolation yields exactly one token, of that same
/// kind and with that same lexeme, and no fault.
pub proof fn lemma_operator_round_trip(k: TokenKind)
    requires
        is_operator_kind(k),
    ensures
        scan_spec(op_lexeme(k)).tokens == seq![
            TokenModel { kind: k, lexeme: op_lexeme(k), literal: Seq::empty(), line: 1 },
        ],
        scan_spec(op_lexeme(k)).errors.len() == 0,
        scan_tokens_spec(op_lexeme(k)).len() == 2,
{
    let s = op_lexeme(k);
    lemma_step_progress(s, 0, 1);
    lemma_scan_from_unfold(s, 0, 1);
    let st = step(s, 0, 1);
    assert(st.next == s.len() as int);
    assert(s.subrange(0, s.len() as int) =~= s);
    assert(scan_from(s, st.next, st.line) == (ScanResult {
        tokens: Seq::<TokenModel>::empty(),
        errors: Seq::<ErrorModel>::empty(),
        end_line: st.line,
    }));
    assert(st.token == Some(
        TokenModel { kind: k, lexeme: s.subrange(0, s.len() as int), literal: Seq::empty(), line: 1 },
    ));
    assert(scan_spec(s).tokens =~= seq![
        TokenModel { kind: k, lexeme: op_lexeme(k), literal: Seq::empty(), line: 1 },
    ]);
    assert(scan_spec(s).errors =~= Seq::<ErrorModel>::empty());
}

} // verus!
