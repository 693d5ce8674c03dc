//! The scanner: a cursor over a text that hands out one token per call.

use vstd::prelude::*;
use vstd::std_specs::iter::IteratorSpec;
use vstd::utf8::encode_utf8;
use crate::grammar::{
    block_comment_end, byte_length, char_literal_end, decimal_digit, digit_class,
    has_decimal_digit, hash_class, hashes_at, identifier_class, identifier_start_unit,
    identifier_unit, lemma_byte_length_encoded, lemma_byte_length_split, lemma_byte_length_within,
    lemma_run_end_unique, lemma_scan_bounds, literal, number_body, punctuation,
    raw_string_close, raw_string_end, run_end, same_line_class, scan, scan_quote, unit_at,
    unit_width, whitespace_class, whitespace_unit, EOF_CHAR, RAW_CHAR,
};
use crate::token::{Base, LiteralKind, Token, TokenKind};

verus! {

/// Space, tab, carriage return and line feed.
pub fn is_whitespace(c: char) -> (b: bool)
    ensures
        b == whitespace_unit(c),
{
    c == ' ' || c == '\t' || c == '\r' || c == '\n'
}

/// An ASCII letter or an underscore.
pub fn is_identifier_start(c: char) -> (b: bool)
    ensures
        b == identifier_start_unit(c),
{
    ('a' <= c && c <= 'z') || ('A' <= c && c <= 'Z') || c == '_'
}

/// An ASCII letter, an underscore or a decimal digit.
pub fn is_identifier(c: char) -> (b: bool)
    ensures
        b == identifier_unit(c),
{
    is_identifier_start(c) || is_decimal_digit(c)
}

fn is_decimal_digit(c: char) -> (b: bool)
    ensures
        b == decimal_digit(c),
{
    '0' <= c && c <= '9'
}

fn utf8_width(c: char) -> (width: usize)
    ensures
        width == unit_width(c),
{
    if c <= '\u{7f}' {
        1
    } else if c <= '\u{7ff}' {
        2
    } else if c <= '\u{ffff}' {
        3
    } else {
        4
    }
}

fn punctuation_kind(c: char) -> (kind: TokenKind)
    ensures
        kind == punctuation(c),
{
    match c {
        ';' => TokenKind::Semicolon,
        ':' => TokenKind::Colon,
        ',' => TokenKind::Comma,
        '.' => TokenKind::Dot,
        '(' => TokenKind::OpenParen,
        ')' => TokenKind::CloseParen,
        '{' => TokenKind::OpenBrace,
        '}' => TokenKind::CloseBrace,
        '[' => TokenKind::OpenBracket,
        ']' => TokenKind::CloseBracket,
        '@' => TokenKind::At,
        '#' => TokenKind::Hashtag,
        '~' => TokenKind::Tilde,
        '?' => TokenKind::Question,
        '$' => TokenKind::Dollar,
        '=' => TokenKind::Eq,
        '!' => TokenKind::Bang,
        '<' => TokenKind::Lt,
        '>' => TokenKind::Gt,
        '-' => TokenKind::Minus,
        '+' => TokenKind::Plus,
        '&' => TokenKind::And,
        '|' => TokenKind::Or,
        '*' => TokenKind::Star,
        '^' => TokenKind::Caret,
        '%' => TokenKind::Percent,
        _ => TokenKind::Unknown,
    }
}

/// The scanner's state as a mathematical value: the whole text, where the
/// previous token ended, and where the cursor stands.
pub struct Cursor {
    pub text: Seq<char>,
    pub start: int,
    pub pos: int,
}

impl Cursor {
    /// The cursor stands inside a text whose byte length is a machine
    /// integer, at or behind the end of the previous token.
    pub open spec fn valid(self) -> bool {
        &&& 0 <= self.start <= self.pos <= self.text.len()
        &&& byte_length(self.text, 0, self.text.len() as int) <= usize::MAX
    }

    /// The number of bytes consumed since the previous token ended.
    pub open spec fn pending(self) -> int {
        byte_length(self.text, self.start, self.pos)
    }

    /// The same scan with the cursor one unit on, or where it is when no
    /// unit is left.
    pub open spec fn stepped(self) -> Cursor {
        self.moved_to(
            if self.pos < self.text.len() {
                self.pos + 1
            } else {
                self.pos
            },
        )
    }

    /// The same scan with the cursor at `pos`.
    pub open spec fn moved_to(self, pos: int) -> Cursor {
        Cursor { text: self.text, start: self.start, pos }
    }

    /// The token that the next request yields: at the end of the text the
    /// zero-length `Eof`, else what the grammar reads at the cursor. Its
    /// length is in bytes and counts every unit since the previous token.
    pub open spec fn token(self) -> Token {
        if self.pos >= self.text.len() {
            Token { kind: TokenKind::Eof, length: 0 }
        } else {
            let sc = scan(self.text, self.start, self.pos);
            Token { kind: sc.kind, length: byte_length(self.text, self.start, sc.end) as usize }
        }
    }

    /// The state after that request: unchanged at the end of the text, else
    /// at the token's end with nothing pending.
    pub open spec fn advance(self) -> Cursor {
        if self.pos >= self.text.len() {
            self
        } else {
            let end = scan(self.text, self.start, self.pos).end;
            Cursor { text: self.text, start: end, pos: end }
        }
    }
}

/// A scanner over one text. It owns the text's units, the position of the
/// next unconsumed unit and the position at which the previous token
/// ended; nothing outside can move either.
pub struct Lexer {
    chars: Vec<char>,
    pos: usize,
    boundary: usize,
}

impl View for Lexer {
    type V = Cursor;

    closed spec fn view(&self) -> Cursor {
        Cursor { text: self.chars@, start: self.boundary as int, pos: self.pos as int }
    }
}

impl Lexer {
    #[verifier::type_invariant]
    spec fn inv(&self) -> bool {
        &&& self.boundary <= self.pos <= self.chars.len()
        &&& byte_length(self.chars@, 0, self.chars.len() as int) <= usize::MAX
    }

    /// A scanner at the start of `source`, which it reads as a sequence of
    /// Unicode scalar values.
    pub fn new(source: &str) -> (lexer: Self)
        ensures
            lexer@ == (Cursor { text: source@, start: 0, pos: 0 }),
            lexer@.valid(),
    {
        let mut chars: Vec<char> = Vec::new();
        for c in it: source.chars()
            invariant
                chars@ == it.seq().take(it.index() as int),
                it.seq() == source@,
        {
            chars.push(c);
        }
        assert(chars@ =~= source@);
        let bytes: usize = source.as_bytes().len();
        proof {
            lemma_byte_length_encoded(chars@);
            assert(bytes == encode_utf8(source@).len());
        }
        Lexer { chars, pos: 0, boundary: 0 }
    }

    /// The next unit, or the sentinel when none is left.
    pub fn peek(&self) -> (c: char)
        ensures
            c == unit_at(self@.text, self@.pos),
            self@.valid(),
    {
        proof {
            use_type_invariant(self);
        }
        if self.pos < self.chars.len() {
            self.chars[self.pos]
        } else {
            EOF_CHAR
        }
    }

    /// The unit `n` places ahead, counting the next unit as the first, or
    /// the sentinel when the text ends before it.
    pub fn nth(&self, n: u32) -> (c: char)
        requires
            n >= 1,
        ensures
            c == unit_at(self@.text, self@.pos + n - 1),
            self@.valid(),
    {
        proof {
            use_type_invariant(self);
        }
        let ahead: usize = (n - 1) as usize;
        if ahead < self.chars.len() - self.pos {
            self.chars[self.pos + ahead]
        } else {
            EOF_CHAR
        }
    }

    /// Consumes one unit and returns it, which adds the unit's width to
    /// the pending length; at the end of the text nothing moves and the
    /// sentinel comes back.
    pub fn step(&mut self) -> (c: char)
        ensures
            c == unit_at(old(self)@.text, old(self)@.pos),
            final(self)@ == old(self)@.stepped(),
            old(self)@.pos < old(self)@.text.len() ==> final(self)@.pending()
                == old(self)@.pending() + unit_width(c),
            old(self)@.pos >= old(self)@.text.len() ==> final(self)@.pending()
                == old(self)@.pending(),
            final(self)@.valid(),
    {
        proof {
            use_type_invariant(&*self);
        }
        if self.pos < self.chars.len() {
            let c = self.chars[self.pos];
            self.pos = self.pos + 1;
            proof {
                lemma_byte_length_split(
                    self.chars@,
                    self.boundary as int,
                    self.pos - 1,
                    self.pos as int,
                );
            }
            c
        } else {
            EOF_CHAR
        }
    }

    /// Consumes units for as long as `until` accepts the next one. The
    /// sentinel must be rejected, or the run would have no end.
    pub fn consume<F: Fn(char) -> bool>(&mut self, until: F)
        requires
            forall|c: char| #[trigger] until.requires((c,)),
            !until.ensures((EOF_CHAR,), true),
        ensures
            final(self)@ == old(self)@.moved_to(final(self)@.pos),
            old(self)@.pos <= final(self)@.pos <= old(self)@.text.len(),
            forall|k: int|
                old(self)@.pos <= k < final(self)@.pos ==> until.ensures(
                    (#[trigger] old(self)@.text[k],),
                    true,
                ),
            until.ensures((unit_at(old(self)@.text, final(self)@.pos),), false),
            final(self)@.valid(),
    {
        proof {
            use_type_invariant(&*self);
        }
        let mut more: bool = until(self.peek());
        while more
            invariant
                self.chars@ == old(self).chars@,
                self.boundary == old(self).boundary,
                old(self).boundary <= old(self).pos,
                byte_length(self.chars@, 0, self.chars.len() as int) <= usize::MAX,
                old(self).pos <= self.pos <= self.chars.len(),
                until.ensures((unit_at(self.chars@, self.pos as int),), more),
                !until.ensures((EOF_CHAR,), true),
                forall|k: int|
                    old(self).pos <= k < self.pos ==> until.ensures(
                        (#[trigger] self.chars@[k],),
                        true,
                    ),
                forall|c: char| #[trigger] until.requires((c,)),
            decreases self.chars.len() - self.pos,
        {
            self.step();
            more = until(self.peek());
        }
    }

    /// How many bytes were consumed since the previous token ended.
    pub fn current_token_len(&self) -> (len: usize)
        ensures
            len == self@.pending(),
            self@.valid(),
    {
        proof {
            use_type_invariant(self);
        }
        let mut len: usize = 0;
        let mut i: usize = self.boundary;
        while i < self.pos
            invariant
                self.boundary <= i <= self.pos <= self.chars.len(),
                len == byte_length(self.chars@, self.boundary as int, i as int),
                byte_length(self.chars@, 0, self.chars.len() as int) <= usize::MAX,
            decreases self.pos - i,
        {
            proof {
                lemma_byte_length_within(self.chars@, self.boundary as int, i + 1);
            }
            len = len + utf8_width(self.chars[i]);
            i = i + 1;
        }
        len
    }

    /// Makes the cursor's position the end of the previous token.
    pub fn reset_len(&mut self)
        ensures
            final(self)@ == (Cursor { start: old(self)@.pos, ..old(self)@ }),
            final(self)@.valid(),
    {
        proof {
            use_type_invariant(&*self);
        }
        self.boundary = self.pos;
    }

    /// Consumes the whitespace run at the cursor.
    pub fn whitespace(&mut self) -> (kind: TokenKind)
        ensures
            kind == TokenKind::Whitespace,
            final(self)@ == old(self)@.moved_to(
                run_end(old(self)@.text, old(self)@.pos, whitespace_class()),
            ),
            final(self)@.valid(),
    {
        self.consume(is_whitespace);
        proof {
            lemma_run_end_unique(self@.text, old(self)@.pos, self@.pos, whitespace_class());
        }
        TokenKind::Whitespace
    }

    /// Consumes the rest of an identifier whose first unit is consumed.
    pub fn identifier(&mut self) -> (kind: TokenKind)
        ensures
            kind == TokenKind::Identifier,
            final(self)@ == old(self)@.moved_to(
                run_end(old(self)@.text, old(self)@.pos, identifier_class()),
            ),
            final(self)@.valid(),
    {
        self.identifier_run();
        TokenKind::Identifier
    }

    /// Consumes the rest of a raw identifier whose marker is consumed: the
    /// hash at the cursor and the name behind it.
    pub fn raw_identifier(&mut self) -> (kind: TokenKind)
        ensures
            kind == TokenKind::RawIdentifier,
            final(self)@ == old(self)@.moved_to(
                run_end(old(self)@.text, old(self)@.stepped().pos, identifier_class()),
            ),
            final(self)@.valid(),
    {
        self.step();
        self.identifier_run();
        TokenKind::RawIdentifier
    }

    /// Consumes the run of identifier units at the cursor.
    fn identifier_run(&mut self)
        ensures
            final(self)@ == old(self)@.moved_to(
                run_end(old(self)@.text, old(self)@.pos, identifier_class()),
            ),
            final(self)@.valid(),
    {
        self.consume(is_identifier);
        proof {
            lemma_run_end_unique(self@.text, old(self)@.pos, self@.pos, identifier_class());
        }
    }

    /// Consumes the run of digits and underscores at the cursor and says
    /// whether it held a digit.
    pub fn is_digit(&mut self) -> (found: bool)
        ensures
            final(self)@ == old(self)@.moved_to(
                run_end(old(self)@.text, old(self)@.pos, digit_class()),
            ),
            found == has_decimal_digit(old(self)@.text, old(self)@.pos, final(self)@.pos),
            final(self)@.valid(),
    {
        proof {
            use_type_invariant(&*self);
        }
        let mut found: bool = false;
        while self.pos < self.chars.len() && (self.chars[self.pos] == '_' || is_decimal_digit(
            self.chars[self.pos],
        ))
            invariant
                self.chars@ == old(self).chars@,
                self.boundary == old(self).boundary,
                old(self).boundary <= old(self).pos,
                byte_length(self.chars@, 0, self.chars.len() as int) <= usize::MAX,
                old(self).pos <= self.pos <= self.chars.len(),
                forall|k: int|
                    old(self).pos <= k < self.pos ==> digit_class()(#[trigger] self.chars@[k]),
                found == has_decimal_digit(self.chars@, old(self).pos as int, self.pos as int),
            decreases self.chars.len() - self.pos,
        {
            if self.chars[self.pos] != '_' {
                found = true;
            }
            self.pos = self.pos + 1;
        }
        proof {
            lemma_run_end_unique(self.chars@, old(self).pos as int, self.pos as int, digit_class());
        }
        found
    }

    /// Consumes the body of a numeric literal whose leading digit
    /// `current_char` is consumed, and classifies it.
    pub fn number_kind(&mut self, current_char: char) -> (kind: LiteralKind)
        ensures
            kind == number_body(old(self)@.text, old(self)@.pos, current_char).0,
            final(self)@ == old(self)@.moved_to(
                number_body(old(self)@.text, old(self)@.pos, current_char).1,
            ),
            final(self)@.valid(),
    {
        proof {
            use_type_invariant(&*self);
        }
        if current_char == '0' {
            let c = self.peek();
            if c == 'e' || c == 's' || c == 'o' {
                let base = if c == 'e' {
                    Base::Binary
                } else if c == 's' {
                    Base::Octal
                } else {
                    Base::Hexadecimal
                };
                self.step();
                self.is_digit();
                return LiteralKind::Int { base };
            } else if !(c == '_' || is_decimal_digit(c)) {
                return LiteralKind::Int { base: Base::Decimal };
            }
        }
        self.is_digit();
        if self.peek() == '.' && self.nth(2) != '.' {
            self.step();
            self.is_digit();
            if self.peek() == 'E' && is_decimal_digit(self.nth(2)) {
                self.step();
                self.is_digit();
            }
            LiteralKind::Float
        } else {
            LiteralKind::Int { base: Base::Decimal }
        }
    }

    /// Consumes a line comment up to the line break, which stays.
    pub fn line_comment(&mut self) -> (kind: TokenKind)
        ensures
            kind == TokenKind::LineComment,
            final(self)@ == old(self)@.moved_to(
                run_end(old(self)@.text, old(self)@.pos, same_line_class()),
            ),
            final(self)@.valid(),
    {
        proof {
            use_type_invariant(&*self);
        }
        while self.pos < self.chars.len() && self.chars[self.pos] != '\n'
            invariant
                self.chars@ == old(self).chars@,
                self.boundary == old(self).boundary,
                old(self).boundary <= old(self).pos,
                byte_length(self.chars@, 0, self.chars.len() as int) <= usize::MAX,
                old(self).pos <= self.pos <= self.chars.len(),
                forall|k: int|
                    old(self).pos <= k < self.pos ==> same_line_class()(#[trigger] self.chars@[k]),
            decreases self.chars.len() - self.pos,
        {
            self.pos = self.pos + 1;
        }
        proof {
            lemma_run_end_unique(
                self.chars@,
                old(self).pos as int,
                self.pos as int,
                same_line_class(),
            );
        }
        TokenKind::LineComment
    }

    /// Consumes the rest of a block comment whose slash is consumed: the
    /// star at the cursor, then everything, nested comments included, up to
    /// the closer or the end of the text.
    pub fn block_comment(&mut self) -> (kind: TokenKind)
        ensures
            kind == (TokenKind::BlockComment {
                terminated: block_comment_end(old(self)@.text, old(self)@.stepped().pos, 1).1,
            }),
            final(self)@ == old(self)@.moved_to(
                block_comment_end(old(self)@.text, old(self)@.stepped().pos, 1).0,
            ),
            final(self)@.valid(),
    {
        self.step();
        proof {
            use_type_invariant(&*self);
        }
        let ghost target = block_comment_end(self.chars@, self.pos as int, 1);
        let mut depth: usize = 1;
        let mut terminated: bool = false;
        while self.pos < self.chars.len() && !terminated
            invariant
                self.chars@ == old(self).chars@,
                self.boundary == old(self).boundary,
                old(self).boundary <= old(self).pos,
                byte_length(self.chars@, 0, self.chars.len() as int) <= usize::MAX,
                old(self).pos <= self.pos <= self.chars.len(),
                1 <= depth <= self.pos - old(self).pos + 1,
                terminated ==> self.pos == target.0 && target.1,
                !terminated ==> block_comment_end(self.chars@, self.pos as int, depth as int)
                    == target,
            decreases self.chars.len() - self.pos + (if terminated { 0int } else { 1int }),
        {
            let c = self.chars[self.pos];
            let next = self.nth(2);
            if c == '*' && next == '/' {
                self.pos = self.pos + 2;
                if depth == 1 {
                    terminated = true;
                } else {
                    depth = depth - 1;
                }
            } else if c == '/' && next == '*' {
                self.pos = self.pos + 2;
                depth = depth + 1;
            } else {
                self.pos = self.pos + 1;
            }
        }
        TokenKind::BlockComment { terminated }
    }

    /// Whether `n` hashes stand right behind the unit at the cursor.
    fn hashes_follow(&self, n: usize) -> (b: bool)
        requires
            self@.pos < self@.text.len(),
        ensures
            b == hashes_at(self@.text, self@.pos + 1, n as int),
    {
        proof {
            use_type_invariant(self);
        }
        let from: usize = self.pos + 1;
        let mut k: usize = 0;
        while k < n && k < self.chars.len() - from && self.chars[from + k] == '#'
            invariant
                from == self.pos + 1,
                from <= self.chars.len(),
                k <= n,
                from + k <= self.chars.len(),
                forall|j: int| from <= j < from + k ==> self.chars@[j] == '#',
            decreases n - k,
        {
            k = k + 1;
        }
        proof {
            if k < n && from + k < self.chars.len() {
                assert(self.chars@[from + k] != '#');
            }
        }
        k == n
    }

    /// Consumes a raw string whose marker is consumed: the hashes, the
    /// quote, the body and the closer.
    pub fn raw_string(&mut self) -> (kind: TokenKind)
        ensures
            kind == literal(
                old(self)@.text,
                LiteralKind::RawString {
                    terminated: raw_string_end(old(self)@.text, old(self)@.pos).1,
                },
                old(self)@.start,
                final(self)@.pos,
            ),
            final(self)@ == old(self)@.moved_to(
                raw_string_end(old(self)@.text, old(self)@.pos).0,
            ),
            final(self)@.valid(),
    {
        proof {
            use_type_invariant(&*self);
        }
        let begin: usize = self.pos;
        while self.pos < self.chars.len() && self.chars[self.pos] == '#'
            invariant
                self.chars@ == old(self).chars@,
                self.boundary == old(self).boundary,
                old(self).boundary <= old(self).pos,
                byte_length(self.chars@, 0, self.chars.len() as int) <= usize::MAX,
                begin == old(self).pos,
                begin <= self.pos <= self.chars.len(),
                forall|k: int| begin <= k < self.pos ==> hash_class()(#[trigger] self.chars@[k]),
            decreases self.chars.len() - self.pos,
        {
            self.pos = self.pos + 1;
        }
        proof {
            lemma_run_end_unique(self.chars@, begin as int, self.pos as int, hash_class());
        }
        let hashes: usize = self.pos - begin;
        let mut terminated: bool = false;
        if self.pos < self.chars.len() && self.chars[self.pos] == '\'' {
            self.pos = self.pos + 1;
            let ghost target = raw_string_close(self.chars@, self.pos as int, hashes as int);
            let mut open: bool = true;
            while self.pos < self.chars.len() && open
                invariant
                    self.chars@ == old(self).chars@,
                    self.boundary == old(self).boundary,
                    old(self).boundary <= old(self).pos,
                byte_length(self.chars@, 0, self.chars.len() as int) <= usize::MAX,
                    old(self).pos <= self.pos <= self.chars.len(),
                    open == !terminated,
                    terminated ==> self.pos == target.0 && target.1,
                    open ==> raw_string_close(self.chars@, self.pos as int, hashes as int)
                        == target,
                decreases self.chars.len() - self.pos + (if open { 1int } else { 0int }),
            {
                if self.chars[self.pos] == '\'' && self.hashes_follow(hashes) {
                    self.pos = self.pos + 1 + hashes;
                    terminated = true;
                    open = false;
                } else {
                    self.pos = self.pos + 1;
                }
            }
        }
        TokenKind::Literal {
            kind: LiteralKind::RawString { terminated },
            suffix_start: self.current_token_len(),
        }
    }

    /// Consumes what follows a consumed quote: the name of a lifetime, or
    /// the body and closing quote of a character literal.
    pub fn char_literal_or_lifetime(&mut self) -> (kind: TokenKind)
        ensures
            kind == scan_quote(old(self)@.text, old(self)@.start, old(self)@.pos).kind,
            final(self)@ == old(self)@.moved_to(
                scan_quote(old(self)@.text, old(self)@.start, old(self)@.pos).end,
            ),
            final(self)@.valid(),
    {
        proof {
            use_type_invariant(&*self);
        }
        if is_identifier_start(self.peek()) && self.nth(2) != '\'' {
            self.identifier_run();
            return TokenKind::Lifetime;
        }
        let ghost target = char_literal_end(self.chars@, self.pos as int);
        let mut terminated: bool = false;
        let mut open: bool = true;
        while self.pos < self.chars.len() && open
            invariant
                self.chars@ == old(self).chars@,
                self.boundary == old(self).boundary,
                old(self).boundary <= old(self).pos,
                byte_length(self.chars@, 0, self.chars.len() as int) <= usize::MAX,
                old(self).pos <= self.pos <= self.chars.len(),
                terminated ==> !open,
                !open ==> self.pos == target.0 && terminated == target.1,
                open ==> char_literal_end(self.chars@, self.pos as int) == target,
            decreases self.chars.len() - self.pos + (if open { 1int } else { 0int }),
        {
            let c = self.chars[self.pos];
            if c == '\'' {
                self.pos = self.pos + 1;
                terminated = true;
                open = false;
            } else if c == '\n' {
                open = false;
            } else if c == '\\' && self.pos + 1 < self.chars.len() {
                self.pos = self.pos + 2;
            } else {
                self.pos = self.pos + 1;
            }
        }
        TokenKind::Literal {
            kind: LiteralKind::Char { terminated },
            suffix_start: self.current_token_len(),
        }
    }

    /// Reads the next token and moves behind it. At the end of the text it
    /// returns `Eof` of length zero and leaves the scanner as it is.
    pub fn char_to_token(&mut self) -> (token: Token)
        ensures
            token == old(self)@.token(),
            final(self)@ == old(self)@.advance(),
            final(self)@.valid(),
    {
        proof {
            use_type_invariant(&*self);
            lemma_scan_bounds(self@.text, self@.start, self@.pos);
        }
        if self.pos >= self.chars.len() {
            return Token::new(TokenKind::Eof, 0);
        }
        let current_char: char = self.step();
        let token_kind: TokenKind = if is_whitespace(current_char) {
            self.whitespace()
        } else if current_char == '/' {
            let next = self.peek();
            if next == '/' {
                self.line_comment()
            } else if next == '*' {
                self.block_comment()
            } else {
                TokenKind::Slash
            }
        } else if current_char == RAW_CHAR {
            let next = self.peek();
            if next == '#' && is_identifier_start(self.nth(2)) {
                self.raw_identifier()
            } else if next == '#' || next == '\'' {
                self.raw_string()
            } else {
                self.identifier()
            }
        } else if is_identifier_start(current_char) {
            self.identifier()
        } else if is_decimal_digit(current_char) {
            let kind: LiteralKind = self.number_kind(current_char);
            let suffix_start: usize = self.current_token_len();
            self.identifier_run();
            TokenKind::Literal { kind, suffix_start }
        } else if current_char == '\'' {
            self.char_literal_or_lifetime()
        } else {
            punctuation_kind(current_char)
        };
        let token: Token = Token::new(token_kind, self.current_token_len());
        self.reset_len();
        token
    }
}

} // verus!
