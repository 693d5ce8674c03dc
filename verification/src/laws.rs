//! Laws of the token stream, proved from the grammar.

use vstd::prelude::*;
use vstd::utf8::encode_utf8;
use crate::grammar::{
    byte_length, identifier_class, identifier_unit, lemma_byte_length_encoded,
    lemma_byte_length_split, lemma_byte_length_within, lemma_number_body_bounds, lemma_run_end, lemma_scan_bounds,
    number_body, unit_at, whitespace_class, whitespace_unit,
};
use crate::lexer::Cursor;
use crate::token::{LiteralKind, Token, TokenKind};

verus! {

/// Every token that repeated requests yield from `c` on, up to and
/// including the first `Eof`. The test for progress only bounds the
/// recursion: on a valid state with units left it always holds
/// (`lemma_advance_valid`).
pub open spec fn stream(c: Cursor) -> Seq<Token>
    decreases c.text.len() - c.pos,
{
    let next = c.advance();
    if c.pos < next.pos <= next.text.len() && next.text == c.text {
        seq![c.token()] + stream(next)
    } else {
        seq![c.token()]
    }
}

/// The tokens of a whole text, read from its start.
pub open spec fn tokens_of(text: Seq<char>) -> Seq<Token> {
    stream(Cursor { text, start: 0, pos: 0 })
}

/// The state after `k` requests.
pub open spec fn state_after(c: Cursor, k: nat) -> Cursor
    decreases k,
{
    if k == 0 {
        c
    } else {
        state_after(c.advance(), (k - 1) as nat)
    }
}

/// Sum of the lengths of `tokens`, in bytes as the lengths are.
pub open spec fn total_length(tokens: Seq<Token>) -> int
    decreases tokens.len(),
{
    if tokens.len() == 0 {
        0
    } else {
        tokens[0].length + total_length(tokens.drop_first())
    }
}

/// Whether `kind` is a numeric literal.
pub open spec fn is_number(kind: TokenKind) -> bool {
    match kind {
        TokenKind::Literal { kind: LiteralKind::Int { .. }, .. } => true,
        TokenKind::Literal { kind: LiteralKind::Float, .. } => true,
        _ => false,
    }
}

/// A request on a valid state leaves a valid state, at a token boundary
/// unless the text was already exhausted, and never moves backwards.
pub proof fn lemma_advance_valid(c: Cursor)
    requires
        c.valid(),
    ensures
        c.advance().valid(),
        c.advance().text == c.text,
        c.pos <= c.advance().pos,
        c.pos < c.text.len() ==> c.pos < c.advance().pos && c.advance().start == c.advance().pos,
        c.pos < c.text.len() ==> c.token().length == byte_length(
            c.text,
            c.start,
            c.advance().pos,
        ),
        c.advance().pending() == (if c.pos < c.text.len() {
            0
        } else {
            c.pending()
        }),
{
    lemma_scan_bounds(c.text, c.start, c.pos);
    lemma_byte_length_within(c.text, c.start, c.advance().pos);
}

/// Total coverage: the lengths of the tokens read from a token boundary
/// on, the closing `Eof` included, add up to exactly the byte length of
/// the rest of the text. Each token starts where the one before it ended,
/// so the tokens tile the text without gap or overlap.
pub proof fn lemma_total_coverage(c: Cursor)
    requires
        c.valid(),
        c.start == c.pos,
    ensures
        total_length(stream(c)) == byte_length(c.text, c.start, c.text.len() as int),
    decreases c.text.len() - c.pos,
{
    lemma_advance_valid(c);
    if c.pos >= c.text.len() {
        assert(stream(c).drop_first() =~= Seq::<Token>::empty());
        assert(total_length(stream(c).drop_first()) == 0);
    } else {
        lemma_total_coverage(c.advance());
        assert(stream(c).drop_first() =~= stream(c.advance()));
        lemma_byte_length_split(c.text, c.start, c.advance().pos, c.text.len() as int);
    }
}

/// Total coverage of a whole text: the lengths of its tokens add up to
/// its byte length, the length of its UTF-8 encoding.
pub proof fn lemma_text_covered(text: Seq<char>)
    requires
        encode_utf8(text).len() <= usize::MAX,
    ensures
        total_length(tokens_of(text)) == byte_length(text, 0, text.len() as int),
        total_length(tokens_of(text)) == encode_utf8(text).len(),
{
    lemma_byte_length_encoded(text);
    lemma_total_coverage(Cursor { text, start: 0, pos: 0 });
}

/// No gap and no overlap: the `k`-th token of a stream that starts at a
/// token boundary is the one that the grammar reads exactly where the
/// tokens before it end: the span from the start to that place takes as
/// many bytes as their lengths add up to.
pub proof fn lemma_tokens_tile(c: Cursor, k: nat)
    requires
        c.valid(),
        c.start == c.pos,
        k < stream(c).len(),
    ensures
        state_after(c, k).valid(),
        state_after(c, k).text == c.text,
        state_after(c, k).start == state_after(c, k).pos,
        c.pos <= state_after(c, k).pos,
        byte_length(c.text, c.pos, state_after(c, k).pos) == total_length(
            stream(c).take(k as int),
        ),
        stream(c)[k as int] == state_after(c, k).token(),
    decreases k,
{
    lemma_advance_valid(c);
    if k == 0 {
        assert(stream(c).take(0) =~= Seq::<Token>::empty());
    } else {
        let rest = stream(c.advance());
        let j = (k - 1) as nat;
        lemma_tokens_tile(c.advance(), j);
        lemma_byte_length_split(c.text, c.pos, c.advance().pos, state_after(c, k).pos);
        assert(stream(c).take(k as int).drop_first() =~= rest.take(j as int));
        assert(stream(c)[k as int] == rest[j as int]);
    }
}

/// The stream ends with `Eof`, and `Eof` occurs nowhere before its end.
pub proof fn lemma_single_eof(c: Cursor)
    requires
        c.valid(),
    ensures
        stream(c).len() >= 1,
        stream(c).last() == (Token { kind: TokenKind::Eof, length: 0 }),
        forall|k: int| 0 <= k < stream(c).len() - 1 ==> !(#[trigger] stream(c)[k].kind is Eof),
    decreases c.text.len() - c.pos,
{
    lemma_advance_valid(c);
    lemma_scan_bounds(c.text, c.start, c.pos);
    if c.pos < c.text.len() {
        lemma_single_eof(c.advance());
        let rest = stream(c.advance());
        assert forall|k: int| 0 <= k < stream(c).len() - 1 implies !(#[trigger] stream(
            c,
        )[k].kind is Eof) by {
            if k > 0 {
                assert(stream(c)[k] == rest[k - 1]);
            }
        }
    }
}

/// Determinism: the token read and the state it leaves depend on nothing
/// but the text, the end of the previous token and the cursor's position,
/// so two scans of one text yield the same tokens.
pub proof fn lemma_deterministic(a: Cursor, b: Cursor)
    requires
        a.text == b.text,
        a.start == b.start,
        a.pos == b.pos,
    ensures
        a.token() == b.token(),
        a.advance() == b.advance(),
        stream(a) == stream(b),
        tokens_of(a.text) == tokens_of(b.text),
{
}

/// Termination is idempotent: a state that yields `Eof` yields it with
/// length zero, is left unchanged, and so yields the same again.
pub proof fn lemma_eof_is_terminal(c: Cursor)
    requires
        c.valid(),
        c.token().kind is Eof,
    ensures
        c.token() == (Token { kind: TokenKind::Eof, length: 0 }),
        c.advance() == c,
        c.advance().token() == c.token(),
{
    lemma_scan_bounds(c.text, c.start, c.pos);
}

/// Maximal munch: a whitespace token is a whole run of whitespace and an
/// identifier a whole run of identifier units, so the unit behind either
/// is of another class; and behind a numeric literal stands no identifier
/// unit, hence no digit either.
pub proof fn lemma_maximal_munch(c: Cursor)
    requires
        c.valid(),
    ensures
        c.token().kind is Whitespace ==> !whitespace_unit(unit_at(c.text, c.advance().pos)) && (
        forall|k: int| c.pos <= k < c.advance().pos ==> whitespace_unit(#[trigger] c.text[k])),
        c.token().kind is Identifier ==> !identifier_unit(unit_at(c.text, c.advance().pos)) && (
        forall|k: int| c.pos <= k < c.advance().pos ==> identifier_unit(#[trigger] c.text[k])),
        is_number(c.token().kind) ==> !identifier_unit(unit_at(c.text, c.advance().pos)),
{
    let s = c.text;
    let n = c.pos + 1;
    lemma_scan_bounds(s, c.start, c.pos);
    if c.pos < s.len() {
        lemma_run_end(s, n, whitespace_class());
        lemma_run_end(s, n, identifier_class());
    }
    if is_number(c.token().kind) {
        let body_end = number_body(s, n, s[c.pos]).1;
        lemma_number_body_bounds(s, n, s[c.pos]);
        lemma_run_end(s, body_end, identifier_class());
    }
}

/// No two tokens that could have been one stand side by side: whitespace
/// is never followed by whitespace, and neither an identifier nor a
/// numeric literal by an identifier or a numeric literal.
pub proof fn lemma_no_mergeable_neighbours(c: Cursor)
    requires
        c.valid(),
    ensures
        c.token().kind is Whitespace ==> !(c.advance().token().kind is Whitespace),
        c.token().kind is Identifier || is_number(c.token().kind) ==> !(
        c.advance().token().kind is Identifier) && !is_number(c.advance().token().kind),
{
    lemma_maximal_munch(c);
    lemma_advance_valid(c);
}

} // verus!
