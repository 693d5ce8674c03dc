//! The lexical grammar, stated over a text as a sequence of units and
//! positions in it. Every scanner operation is specified against these
//! definitions.

use vstd::prelude::*;
use vstd::utf8::{char_is_scalar, encode_scalar, encode_utf8};
use crate::token::{Base, LiteralKind, TokenKind};

verus! {

/// Sentinel handed out by the lookahead operations when no unit is left.
pub const EOF_CHAR: char = '\0';

/// The letter that introduces raw identifiers and raw strings.
pub const RAW_CHAR: char = 's';

pub open spec fn whitespace_unit(c: char) -> bool {
    c == ' ' || c == '\t' || c == '\r' || c == '\n'
}

pub open spec fn identifier_start_unit(c: char) -> bool {
    ('a' <= c && c <= 'z') || ('A' <= c && c <= 'Z') || c == '_'
}

pub open spec fn decimal_digit(c: char) -> bool {
    '0' <= c && c <= '9'
}

pub open spec fn identifier_unit(c: char) -> bool {
    identifier_start_unit(c) || decimal_digit(c)
}

/// A unit of a digit run: a decimal digit or a separating underscore.
pub open spec fn digit_unit(c: char) -> bool {
    decimal_digit(c) || c == '_'
}

pub open spec fn whitespace_class() -> spec_fn(char) -> bool {
    |c: char| whitespace_unit(c)
}

pub open spec fn identifier_class() -> spec_fn(char) -> bool {
    |c: char| identifier_unit(c)
}

pub open spec fn digit_class() -> spec_fn(char) -> bool {
    |c: char| digit_unit(c)
}

pub open spec fn hash_class() -> spec_fn(char) -> bool {
    |c: char| c == '#'
}

pub open spec fn same_line_class() -> spec_fn(char) -> bool {
    |c: char| c != '\n'
}

/// The unit at position `i`, or the sentinel outside the text.
pub open spec fn unit_at(s: Seq<char>, i: int) -> char {
    if 0 <= i < s.len() {
        s[i]
    } else {
        EOF_CHAR
    }
}

/// The number of bytes that `c` takes in UTF-8.
pub open spec fn unit_width(c: char) -> int {
    if c <= '\u{7f}' {
        1
    } else if c <= '\u{7ff}' {
        2
    } else if c <= '\u{ffff}' {
        3
    } else {
        4
    }
}

/// The number of bytes that the units in `[from, to)` take in UTF-8. All
/// lengths that the scanner reports are of this kind.
pub open spec fn byte_length(s: Seq<char>, from: int, to: int) -> int
    decreases to - from,
{
    if 0 <= from < to <= s.len() {
        byte_length(s, from, to - 1) + unit_width(s[to - 1])
    } else {
        0
    }
}

/// End of the maximal run of units of `class` that starts at `i`: the first
/// position from `i` on that is outside the text or holds a unit not in
/// `class`.
pub open spec fn run_end(s: Seq<char>, i: int, class: spec_fn(char) -> bool) -> int
    decreases s.len() - i,
{
    if 0 <= i < s.len() && class(s[i]) {
        run_end(s, i + 1, class)
    } else {
        i
    }
}

/// Whether some unit in `[from, to)` is a decimal digit.
pub open spec fn has_decimal_digit(s: Seq<char>, from: int, to: int) -> bool {
    exists|k: int| from <= k < to && 0 <= k < s.len() && decimal_digit(#[trigger] s[k])
}

/// Where a block comment ends when scanning resumes at `i` with `depth`
/// comments open, and whether it was closed. Comments nest: every `/*`
/// opens one more, every `*/` closes the innermost.
pub open spec fn block_comment_end(s: Seq<char>, i: int, depth: int) -> (int, bool)
    decreases s.len() - i,
{
    if i < 0 || i >= s.len() {
        (i, false)
    } else if s[i] == '*' && unit_at(s, i + 1) == '/' {
        if depth <= 1 {
            (i + 2, true)
        } else {
            block_comment_end(s, i + 2, depth - 1)
        }
    } else if s[i] == '/' && unit_at(s, i + 1) == '*' {
        block_comment_end(s, i + 2, depth + 1)
    } else {
        block_comment_end(s, i + 1, depth)
    }
}

/// Where the body of a single-quoted literal ends when scanning resumes at
/// `i`, and whether it was closed. A backslash takes the unit after it
/// along, whatever it is; an unescaped quote closes the literal; a line
/// break or the end of the text leaves it open, the line break unconsumed.
pub open spec fn char_literal_end(s: Seq<char>, i: int) -> (int, bool)
    decreases s.len() - i,
{
    if i < 0 || i >= s.len() {
        (i, false)
    } else if s[i] == '\'' {
        (i + 1, true)
    } else if s[i] == '\n' {
        (i, false)
    } else if s[i] == '\\' && i + 1 < s.len() {
        char_literal_end(s, i + 2)
    } else {
        char_literal_end(s, i + 1)
    }
}

/// Whether the `n` units from `i` on are all `#`.
pub open spec fn hashes_at(s: Seq<char>, i: int, n: int) -> bool {
    i + n <= s.len() && forall|k: int| i <= k < i + n ==> s[k] == '#'
}

/// Where a raw string opened with `n` hashes ends when its body is scanned
/// from `i`: behind the first quote that `n` hashes follow.
pub open spec fn raw_string_close(s: Seq<char>, i: int, n: int) -> (int, bool)
    decreases s.len() - i,
{
    if i < 0 || i >= s.len() {
        (i, false)
    } else if s[i] == '\'' && hashes_at(s, i + 1, n) {
        (i + 1 + n, true)
    } else {
        raw_string_close(s, i + 1, n)
    }
}

/// A raw string from the unit after its marker: any number of hashes, a
/// quote, the body, and the closer. Without the quote the token ends
/// behind the hashes and counts as unterminated.
pub open spec fn raw_string_end(s: Seq<char>, i: int) -> (int, bool) {
    let q = run_end(s, i, hash_class());
    if unit_at(s, q) == '\'' {
        raw_string_close(s, q + 1, q - i)
    } else {
        (q, false)
    }
}

/// The radix that the unit after a leading `0` selects, if any.
pub open spec fn prefix_base(c: char) -> Option<Base> {
    if c == 'e' {
        Some(Base::Binary)
    } else if c == 's' {
        Some(Base::Octal)
    } else if c == 'o' {
        Some(Base::Hexadecimal)
    } else {
        None
    }
}

/// End of a fraction whose digits start at `i`: a digit run, then an
/// exponent if an `E` with a decimal digit right behind it follows.
pub open spec fn fraction_end(s: Seq<char>, i: int) -> int {
    let k = run_end(s, i, digit_class());
    if unit_at(s, k) == 'E' && decimal_digit(unit_at(s, k + 1)) {
        run_end(s, k + 1, digit_class())
    } else {
        k
    }
}

/// What follows a decimal digit run ending at `j`: a point that no second
/// point follows turns the literal into a float.
pub open spec fn decimal_tail(s: Seq<char>, j: int) -> (LiteralKind, int) {
    if unit_at(s, j) == '.' && unit_at(s, j + 1) != '.' {
        (LiteralKind::Float, fraction_end(s, j + 1))
    } else {
        (LiteralKind::Int { base: Base::Decimal }, j)
    }
}

/// Kind and end of the body of a numeric literal whose leading digit
/// `first` stands just before `i`. A radix prefix is followed by a digit
/// run that may be empty; a prefixed literal is never a float.
pub open spec fn number_body(s: Seq<char>, i: int, first: char) -> (LiteralKind, int) {
    let c = unit_at(s, i);
    if first == '0' && prefix_base(c) is Some {
        (LiteralKind::Int { base: prefix_base(c)->0 }, run_end(s, i + 1, digit_class()))
    } else if first == '0' && !digit_unit(c) {
        (LiteralKind::Int { base: Base::Decimal }, i)
    } else {
        decimal_tail(s, run_end(s, i, digit_class()))
    }
}

/// The token of a single unit that starts no longer token.
pub open spec fn punctuation(c: char) -> TokenKind {
    if c == ';' {
        TokenKind::Semicolon
    } else if c == ':' {
        TokenKind::Colon
    } else if c == ',' {
        TokenKind::Comma
    } else if c == '.' {
        TokenKind::Dot
    } else if c == '(' {
        TokenKind::OpenParen
    } else if c == ')' {
        TokenKind::CloseParen
    } else if c == '{' {
        TokenKind::OpenBrace
    } else if c == '}' {
        TokenKind::CloseBrace
    } else if c == '[' {
        TokenKind::OpenBracket
    } else if c == ']' {
        TokenKind::CloseBracket
    } else if c == '@' {
        TokenKind::At
    } else if c == '#' {
        TokenKind::Hashtag
    } else if c == '~' {
        TokenKind::Tilde
    } else if c == '?' {
        TokenKind::Question
    } else if c == '$' {
        TokenKind::Dollar
    } else if c == '=' {
        TokenKind::Eq
    } else if c == '!' {
        TokenKind::Bang
    } else if c == '<' {
        TokenKind::Lt
    } else if c == '>' {
        TokenKind::Gt
    } else if c == '-' {
        TokenKind::Minus
    } else if c == '+' {
        TokenKind::Plus
    } else if c == '&' {
        TokenKind::And
    } else if c == '|' {
        TokenKind::Or
    } else if c == '*' {
        TokenKind::Star
    } else if c == '^' {
        TokenKind::Caret
    } else if c == '%' {
        TokenKind::Percent
    } else {
        TokenKind::Unknown
    }
}

/// Kind and end position of one token.
pub struct Scan {
    pub kind: TokenKind,
    pub end: int,
}

/// A literal whose body ends at `body_end`, in a token that began at
/// `start`; the suffix starts as many bytes into the token as the body
/// takes.
pub open spec fn literal(
    s: Seq<char>,
    kind: LiteralKind,
    start: int,
    body_end: int,
) -> TokenKind {
    TokenKind::Literal { kind, suffix_start: byte_length(s, start, body_end) as usize }
}

/// The token after a raw marker at `i - 1`.
pub open spec fn scan_raw(s: Seq<char>, start: int, i: int) -> Scan {
    if unit_at(s, i) == '#' && identifier_start_unit(unit_at(s, i + 1)) {
        Scan { kind: TokenKind::RawIdentifier, end: run_end(s, i + 1, identifier_class()) }
    } else if unit_at(s, i) == '#' || unit_at(s, i) == '\'' {
        let (end, terminated) = raw_string_end(s, i);
        Scan { kind: literal(s, LiteralKind::RawString { terminated }, start, end), end }
    } else {
        Scan { kind: TokenKind::Identifier, end: run_end(s, i, identifier_class()) }
    }
}

/// The token after a quote at `i - 1`: a lifetime where an identifier
/// start follows that no quote closes at once, else a character literal.
pub open spec fn scan_quote(s: Seq<char>, start: int, i: int) -> Scan {
    if identifier_start_unit(unit_at(s, i)) && unit_at(s, i + 1) != '\'' {
        Scan { kind: TokenKind::Lifetime, end: run_end(s, i, identifier_class()) }
    } else {
        let (end, terminated) = char_literal_end(s, i);
        Scan { kind: literal(s, LiteralKind::Char { terminated }, start, end), end }
    }
}

/// The token read when the cursor stands at `i` and the previous token
/// ended at `start`. The first rule that matches the unit at `i` decides.
pub open spec fn scan(s: Seq<char>, start: int, i: int) -> Scan {
    let c = unit_at(s, i);
    let n = i + 1;
    if i < 0 || i >= s.len() {
        Scan { kind: TokenKind::Eof, end: i }
    } else if whitespace_unit(c) {
        Scan { kind: TokenKind::Whitespace, end: run_end(s, n, whitespace_class()) }
    } else if c == '/' {
        if unit_at(s, n) == '/' {
            Scan { kind: TokenKind::LineComment, end: run_end(s, n, same_line_class()) }
        } else if unit_at(s, n) == '*' {
            let (end, terminated) = block_comment_end(s, n + 1, 1);
            Scan { kind: TokenKind::BlockComment { terminated }, end }
        } else {
            Scan { kind: TokenKind::Slash, end: n }
        }
    } else if c == RAW_CHAR {
        scan_raw(s, start, n)
    } else if identifier_start_unit(c) {
        Scan { kind: TokenKind::Identifier, end: run_end(s, n, identifier_class()) }
    } else if decimal_digit(c) {
        let (kind, body_end) = number_body(s, n, c);
        Scan {
            kind: literal(s, kind, start, body_end),
            end: run_end(s, body_end, identifier_class()),
        }
    } else if c == '\'' {
        scan_quote(s, start, n)
    } else {
        Scan { kind: punctuation(c), end: n }
    }
}

/// Byte lengths of adjoining spans add up, and a span takes at least one
/// byte for each of its units.
pub proof fn lemma_byte_length_split(s: Seq<char>, a: int, b: int, c: int)
    requires
        0 <= a <= b <= c <= s.len(),
    ensures
        byte_length(s, a, c) == byte_length(s, a, b) + byte_length(s, b, c),
        c - b <= byte_length(s, b, c),
    decreases c - b,
{
    if b < c {
        lemma_byte_length_split(s, a, b, c - 1);
    }
}

/// A span keeps its byte length when the text loses its first unit.
pub proof fn lemma_byte_length_shift(s: Seq<char>, to: int)
    requires
        1 <= to <= s.len(),
    ensures
        byte_length(s.drop_first(), 0, to - 1) == byte_length(s, 1, to),
    decreases to,
{
    if to > 1 {
        lemma_byte_length_shift(s, to - 1);
    }
}

/// The byte length of a whole text is the length of its UTF-8 encoding,
/// which is what `str::len` reports.
pub proof fn lemma_byte_length_encoded(s: Seq<char>)
    ensures
        byte_length(s, 0, s.len() as int) == encode_utf8(s).len(),
    decreases s.len(),
{
    if s.len() > 0 {
        lemma_byte_length_encoded(s.drop_first());
        lemma_byte_length_shift(s, s.len() as int);
        lemma_byte_length_split(s, 0, 1, s.len() as int);
        lemma_unit_width_encoded(s[0]);
        assert(byte_length(s, 0, 0) == 0);
        assert(byte_length(s, 0, 1) == unit_width(s[0]));
        assert(encode_utf8(s) == encode_scalar(s[0] as u32) + encode_utf8(s.drop_first()));
    } else {
        assert(encode_utf8(s).len() == 0);
    }
}

/// The width of a unit is the length of its UTF-8 encoding.
pub proof fn lemma_unit_width_encoded(c: char)
    ensures
        encode_scalar(c as u32).len() == unit_width(c),
{
    char_is_scalar(c);
    let v = c as u32;
    assert('\u{7f}' as u32 == 0x7F && '\u{7ff}' as u32 == 0x7FF && '\u{ffff}' as u32 == 0xFFFF);
    assert(c <= '\u{7f}' <==> v <= 0x7F);
    assert(c <= '\u{7ff}' <==> v <= 0x7FF);
    assert(c <= '\u{ffff}' <==> v <= 0xFFFF);
}

/// A span inside the text takes at least one byte for each unit and no
/// more bytes than the whole text.
pub proof fn lemma_byte_length_within(s: Seq<char>, a: int, b: int)
    requires
        0 <= a <= b <= s.len(),
    ensures
        b - a <= byte_length(s, a, b) <= byte_length(s, 0, s.len() as int),
{
    lemma_byte_length_split(s, 0, 0, a);
    lemma_byte_length_split(s, 0, a, b);
    lemma_byte_length_split(s, 0, b, s.len() as int);
}

/// A run ends inside the text, at or behind its start; every unit in it
/// belongs to the class and the unit at its end does not.
pub proof fn lemma_run_end(s: Seq<char>, i: int, class: spec_fn(char) -> bool)
    requires
        0 <= i <= s.len(),
    ensures
        i <= run_end(s, i, class) <= s.len(),
        forall|k: int| i <= k < run_end(s, i, class) ==> class(#[trigger] s[k]),
        run_end(s, i, class) < s.len() ==> !class(s[run_end(s, i, class)]),
    decreases s.len() - i,
{
    if i < s.len() && class(s[i]) {
        lemma_run_end(s, i + 1, class);
    }
}

/// A run does not depend on where in it one starts.
pub proof fn lemma_run_end_step(s: Seq<char>, i: int, j: int, class: spec_fn(char) -> bool)
    requires
        0 <= i <= j <= s.len(),
        forall|k: int| i <= k < j ==> class(#[trigger] s[k]),
    ensures
        run_end(s, i, class) == run_end(s, j, class),
    decreases j - i,
{
    if i < j {
        lemma_run_end_step(s, i + 1, j, class);
    }
}

/// The end of a run is the only position behind which the class stops
/// after holding all the way from the start.
pub proof fn lemma_run_end_unique(s: Seq<char>, i: int, j: int, class: spec_fn(char) -> bool)
    requires
        0 <= i <= j <= s.len(),
        forall|k: int| i <= k < j ==> class(#[trigger] s[k]),
        j < s.len() ==> !class(s[j]),
    ensures
        run_end(s, i, class) == j,
{
    lemma_run_end_step(s, i, j, class);
}

/// A block comment ends inside the text, and one left open reaches the
/// end of the text.
pub proof fn lemma_block_comment_end(s: Seq<char>, i: int, depth: int)
    requires
        0 <= i <= s.len(),
    ensures
        i <= block_comment_end(s, i, depth).0 <= s.len(),
        !block_comment_end(s, i, depth).1 ==> block_comment_end(s, i, depth).0 == s.len(),
    decreases s.len() - i,
{
    if i < s.len() {
        if s[i] == '*' && unit_at(s, i + 1) == '/' {
            if depth > 1 {
                lemma_block_comment_end(s, i + 2, depth - 1);
            }
        } else if s[i] == '/' && unit_at(s, i + 1) == '*' {
            lemma_block_comment_end(s, i + 2, depth + 1);
        } else {
            lemma_block_comment_end(s, i + 1, depth);
        }
    }
}

/// A single-quoted literal ends inside the text.
pub proof fn lemma_char_literal_end(s: Seq<char>, i: int)
    requires
        0 <= i <= s.len(),
    ensures
        i <= char_literal_end(s, i).0 <= s.len(),
    decreases s.len() - i,
{
    if i < s.len() && s[i] != '\'' && s[i] != '\n' {
        if s[i] == '\\' && i + 1 < s.len() {
            lemma_char_literal_end(s, i + 2);
        } else {
            lemma_char_literal_end(s, i + 1);
        }
    }
}

/// A raw string ends inside the text, and one left open reaches the end
/// of the text.
pub proof fn lemma_raw_string_close(s: Seq<char>, i: int, n: int)
    requires
        0 <= i <= s.len(),
        0 <= n,
    ensures
        i <= raw_string_close(s, i, n).0 <= s.len(),
        !raw_string_close(s, i, n).1 ==> raw_string_close(s, i, n).0 == s.len(),
    decreases s.len() - i,
{
    if i < s.len() && !(s[i] == '\'' && hashes_at(s, i + 1, n)) {
        lemma_raw_string_close(s, i + 1, n);
    }
}

/// The body of a numeric literal ends inside the text.
pub proof fn lemma_number_body_bounds(s: Seq<char>, i: int, first: char)
    requires
        0 <= i <= s.len(),
    ensures
        i <= number_body(s, i, first).1 <= s.len(),
{
    lemma_run_end(s, i, digit_class());
    if i < s.len() {
        lemma_run_end(s, i + 1, digit_class());
    }
    let d = run_end(s, i, digit_class());
    if d < s.len() {
        lemma_run_end(s, d + 1, digit_class());
        let k = run_end(s, d + 1, digit_class());
        if k < s.len() {
            lemma_run_end(s, k + 1, digit_class());
        }
    }
}

/// Every token ends inside the text, and every token but the one at the
/// end of the text is at least one unit long.
pub proof fn lemma_scan_bounds(s: Seq<char>, start: int, i: int)
    requires
        0 <= i <= s.len(),
    ensures
        i <= scan(s, start, i).end <= s.len(),
        i < s.len() ==> i < scan(s, start, i).end,
        scan(s, start, i).kind is Eof <==> i == s.len(),
{
    if i < s.len() {
        let n = i + 1;
        lemma_run_end(s, n, whitespace_class());
        lemma_run_end(s, n, same_line_class());
        lemma_run_end(s, n, identifier_class());
        lemma_run_end(s, n, hash_class());
        if n < s.len() {
            lemma_run_end(s, n + 1, identifier_class());
            lemma_block_comment_end(s, n + 1, 1);
        }
        lemma_char_literal_end(s, n);
        let q = run_end(s, n, hash_class());
        if q < s.len() {
            lemma_raw_string_close(s, q + 1, q - n);
        }
        let body_end = number_body(s, n, s[i]).1;
        lemma_number_body_bounds(s, n, s[i]);
        lemma_run_end(s, body_end, identifier_class());
    }
}

} // verus!
