use tilc_lexer::grammar::{EOF_CHAR, RAW_CHAR};
use tilc_lexer::lexer::{is_identifier, is_identifier_start, is_whitespace, Lexer};
use tilc_lexer::token::{Base, LiteralKind, Token, TokenKind};

fn scan_all(text: &str) -> Vec<Token> {
    let mut lexer = Lexer::new(text);
    let mut tokens = Vec::new();
    loop {
        let token = lexer.char_to_token();
        tokens.push(token);
        if token.kind == TokenKind::Eof {
            return tokens;
        }
    }
}

fn integer(base: Base, suffix_start: usize) -> TokenKind {
    TokenKind::Literal { kind: LiteralKind::Int { base }, suffix_start }
}

fn eof() -> Token {
    Token::new(TokenKind::Eof, 0)
}

#[test]
fn token_new_keeps_kind_and_length() {
    let token = Token::new(TokenKind::Comma, 7);
    assert_eq!(token.kind, TokenKind::Comma);
    assert_eq!(token.length, 7);
}

#[test]
fn unit_classes() {
    for c in [' ', '\t', '\r', '\n'] {
        assert!(is_whitespace(c));
    }
    assert!(!is_whitespace('a'));
    assert!(!is_whitespace(EOF_CHAR));
    assert!(is_identifier_start('a'));
    assert!(is_identifier_start('Z'));
    assert!(is_identifier_start('_'));
    assert!(!is_identifier_start('0'));
    assert!(!is_identifier_start('é'));
    assert!(is_identifier('9'));
    assert!(is_identifier('q'));
    assert!(!is_identifier('-'));
    assert!(!is_identifier(EOF_CHAR));
    assert_eq!(RAW_CHAR, 's');
}

#[test]
fn binary_prefix_spans_whole_literal() {
    assert_eq!(scan_all("0e101"), vec![Token::new(integer(Base::Binary, 5), 5), eof()]);
}

#[test]
fn octal_prefix_spans_whole_literal() {
    assert_eq!(scan_all("0s71"), vec![Token::new(integer(Base::Octal, 4), 4), eof()]);
}

#[test]
fn hexadecimal_prefix() {
    assert_eq!(scan_all("0o12"), vec![Token::new(integer(Base::Hexadecimal, 4), 4), eof()]);
}

#[test]
fn prefix_without_digits_is_still_a_literal() {
    assert_eq!(scan_all("0e"), vec![Token::new(integer(Base::Binary, 2), 2), eof()]);
    assert_eq!(scan_all("0s_xy"), vec![Token::new(integer(Base::Octal, 3), 5), eof()]);
}

#[test]
fn lone_zero() {
    assert_eq!(scan_all("0"), vec![Token::new(integer(Base::Decimal, 1), 1), eof()]);
}

#[test]
fn zero_before_other_unit_is_single_digit() {
    assert_eq!(
        scan_all("0;"),
        vec![Token::new(integer(Base::Decimal, 1), 1), Token::new(TokenKind::Semicolon, 1), eof()]
    );
    assert_eq!(scan_all("0u8"), vec![Token::new(integer(Base::Decimal, 1), 3), eof()]);
    assert_eq!(
        scan_all("0.5"),
        vec![
            Token::new(integer(Base::Decimal, 1), 1),
            Token::new(TokenKind::Dot, 1),
            Token::new(integer(Base::Decimal, 1), 1),
            eof()
        ]
    );
}

#[test]
fn zero_followed_by_digits_is_decimal() {
    assert_eq!(scan_all("007"), vec![Token::new(integer(Base::Decimal, 3), 3), eof()]);
    assert_eq!(scan_all("0_1"), vec![Token::new(integer(Base::Decimal, 3), 3), eof()]);
}

#[test]
fn digit_run_takes_underscores() {
    assert_eq!(scan_all("1_000__"), vec![Token::new(integer(Base::Decimal, 7), 7), eof()]);
}

#[test]
fn suffix_is_absorbed() {
    assert_eq!(scan_all("42usize"), vec![Token::new(integer(Base::Decimal, 2), 7), eof()]);
}

#[test]
fn float_with_fraction_exponent_and_suffix() {
    let float = |suffix_start: usize| TokenKind::Literal { kind: LiteralKind::Float, suffix_start };
    assert_eq!(scan_all("1.5"), vec![Token::new(float(3), 3), eof()]);
    assert_eq!(scan_all("1."), vec![Token::new(float(2), 2), eof()]);
    assert_eq!(scan_all("12.5E3f32"), vec![Token::new(float(6), 9), eof()]);
    assert_eq!(scan_all("1.5Ex"), vec![Token::new(float(3), 5), eof()]);
}

#[test]
fn range_is_not_a_float() {
    assert_eq!(
        scan_all("1..2"),
        vec![
            Token::new(integer(Base::Decimal, 1), 1),
            Token::new(TokenKind::Dot, 1),
            Token::new(TokenKind::Dot, 1),
            Token::new(integer(Base::Decimal, 1), 1),
            eof()
        ]
    );
}

#[test]
fn is_digit_reports_digits() {
    let mut l = Lexer::new("__12_x");
    assert!(l.is_digit());
    assert_eq!(l.current_token_len(), 5);
    assert_eq!(l.peek(), 'x');
    let mut l = Lexer::new("__x");
    assert!(!l.is_digit());
    assert_eq!(l.current_token_len(), 2);
}

#[test]
fn number_kind_on_its_own() {
    let mut l = Lexer::new("e11;");
    assert_eq!(l.number_kind('0'), LiteralKind::Int { base: Base::Binary });
    assert_eq!(l.peek(), ';');
    let mut l = Lexer::new("e11;");
    assert_eq!(l.number_kind('1'), LiteralKind::Int { base: Base::Decimal });
    assert_eq!(l.peek(), 'e');
}

#[test]
fn line_comment_stops_before_line_break() {
    assert_eq!(
        scan_all("// hi\nx"),
        vec![
            Token::new(TokenKind::LineComment, 5),
            Token::new(TokenKind::Whitespace, 1),
            Token::new(TokenKind::Identifier, 1),
            eof()
        ]
    );
    assert_eq!(scan_all("//"), vec![Token::new(TokenKind::LineComment, 2), eof()]);
}

#[test]
fn block_comments_nest() {
    assert_eq!(
        scan_all("/* a /* b */ c */x"),
        vec![
            Token::new(TokenKind::BlockComment { terminated: true }, 17),
            Token::new(TokenKind::Identifier, 1),
            eof()
        ]
    );
    assert_eq!(
        scan_all("/**/"),
        vec![Token::new(TokenKind::BlockComment { terminated: true }, 4), eof()]
    );
}

#[test]
fn unterminated_block_comment_is_flagged() {
    assert_eq!(
        scan_all("/* a /* b */"),
        vec![Token::new(TokenKind::BlockComment { terminated: false }, 12), eof()]
    );
    assert_eq!(
        scan_all("/*"),
        vec![Token::new(TokenKind::BlockComment { terminated: false }, 2), eof()]
    );
}

#[test]
fn slash_alone() {
    assert_eq!(
        scan_all("/x"),
        vec![Token::new(TokenKind::Slash, 1), Token::new(TokenKind::Identifier, 1), eof()]
    );
}

#[test]
fn raw_identifier() {
    assert_eq!(
        scan_all("s#fn1 "),
        vec![
            Token::new(TokenKind::RawIdentifier, 5),
            Token::new(TokenKind::Whitespace, 1),
            eof()
        ]
    );
}

#[test]
fn raw_marker_is_an_ordinary_letter_elsewhere() {
    assert_eq!(scan_all("sum"), vec![Token::new(TokenKind::Identifier, 3), eof()]);
    assert_eq!(scan_all("s"), vec![Token::new(TokenKind::Identifier, 1), eof()]);
}

#[test]
fn raw_strings() {
    let raw = |terminated: bool, suffix_start: usize| TokenKind::Literal {
        kind: LiteralKind::RawString { terminated },
        suffix_start,
    };
    assert_eq!(scan_all("s'a\\b'"), vec![Token::new(raw(true, 6), 6), eof()]);
    assert_eq!(
        scan_all("s#'a'b'#x"),
        vec![Token::new(raw(true, 8), 8), Token::new(TokenKind::Identifier, 1), eof()]
    );
    assert_eq!(scan_all("s##'a'#'##"), vec![Token::new(raw(true, 10), 10), eof()]);
    assert_eq!(scan_all("s#'abc'"), vec![Token::new(raw(false, 7), 7), eof()]);
    assert_eq!(
        scan_all("s## "),
        vec![Token::new(raw(false, 3), 3), Token::new(TokenKind::Whitespace, 1), eof()]
    );
}

#[test]
fn char_literals() {
    let ch = |terminated: bool, suffix_start: usize| TokenKind::Literal {
        kind: LiteralKind::Char { terminated },
        suffix_start,
    };
    assert_eq!(scan_all("'a'"), vec![Token::new(ch(true, 3), 3), eof()]);
    assert_eq!(scan_all("'\\''"), vec![Token::new(ch(true, 4), 4), eof()]);
    assert_eq!(scan_all("'\\\\'"), vec![Token::new(ch(true, 4), 4), eof()]);
    assert_eq!(
        scan_all("'1\n"),
        vec![Token::new(ch(false, 2), 2), Token::new(TokenKind::Whitespace, 1), eof()]
    );
    assert_eq!(scan_all("'"), vec![Token::new(ch(false, 1), 1), eof()]);
    assert_eq!(scan_all("'1\\"), vec![Token::new(ch(false, 3), 3), eof()]);
}

#[test]
fn lifetimes() {
    assert_eq!(
        scan_all("'abc "),
        vec![Token::new(TokenKind::Lifetime, 4), Token::new(TokenKind::Whitespace, 1), eof()]
    );
    assert_eq!(scan_all("'a"), vec![Token::new(TokenKind::Lifetime, 2), eof()]);
}

#[test]
fn punctuation_table() {
    let table = [
        (';', TokenKind::Semicolon),
        (':', TokenKind::Colon),
        (',', TokenKind::Comma),
        ('.', TokenKind::Dot),
        ('(', TokenKind::OpenParen),
        (')', TokenKind::CloseParen),
        ('{', TokenKind::OpenBrace),
        ('}', TokenKind::CloseBrace),
        ('[', TokenKind::OpenBracket),
        (']', TokenKind::CloseBracket),
        ('@', TokenKind::At),
        ('#', TokenKind::Hashtag),
        ('~', TokenKind::Tilde),
        ('?', TokenKind::Question),
        ('$', TokenKind::Dollar),
        ('=', TokenKind::Eq),
        ('!', TokenKind::Bang),
        ('<', TokenKind::Lt),
        ('>', TokenKind::Gt),
        ('-', TokenKind::Minus),
        ('+', TokenKind::Plus),
        ('&', TokenKind::And),
        ('|', TokenKind::Or),
        ('*', TokenKind::Star),
        ('/', TokenKind::Slash),
        ('^', TokenKind::Caret),
        ('%', TokenKind::Percent),
    ];
    for (unit, kind) in table {
        let text = unit.to_string();
        assert_eq!(scan_all(&text), vec![Token::new(kind, 1), eof()]);
    }
}

#[test]
fn unclassified_units_are_unknown() {
    assert_eq!(scan_all("\""), vec![Token::new(TokenKind::Unknown, 1), eof()]);
    assert_eq!(scan_all("№"), vec![Token::new(TokenKind::Unknown, 3), eof()]);
    assert_eq!(scan_all("é"), vec![Token::new(TokenKind::Unknown, 2), eof()]);
    assert_eq!(scan_all("\u{1F600}"), vec![Token::new(TokenKind::Unknown, 4), eof()]);
    assert_eq!(
        scan_all("\0a"),
        vec![Token::new(TokenKind::Unknown, 1), Token::new(TokenKind::Identifier, 1), eof()]
    );
}

#[test]
fn lengths_are_in_bytes() {
    let ch = |terminated: bool, suffix_start: usize| TokenKind::Literal {
        kind: LiteralKind::Char { terminated },
        suffix_start,
    };
    let raw = |terminated: bool, suffix_start: usize| TokenKind::Literal {
        kind: LiteralKind::RawString { terminated },
        suffix_start,
    };
    assert_eq!(scan_all("'é'"), vec![Token::new(ch(true, 4), 4), eof()]);
    assert_eq!(scan_all("s#'№'#"), vec![Token::new(raw(true, 8), 8), eof()]);
    assert_eq!(scan_all("// é№"), vec![Token::new(TokenKind::LineComment, 8), eof()]);
    assert_eq!(
        scan_all("/*é*/"),
        vec![Token::new(TokenKind::BlockComment { terminated: true }, 6), eof()]
    );
}

#[test]
fn step_grows_the_pending_length_by_the_width() {
    let mut l = Lexer::new("aé№\u{1F600}");
    let mut expected = 0;
    for c in ['a', 'é', '№', '\u{1F600}'] {
        assert_eq!(l.peek(), c);
        assert_eq!(l.step(), c);
        expected += c.len_utf8();
        assert_eq!(l.current_token_len(), expected);
    }
    assert_eq!(expected, 10);
    assert_eq!(l.step(), EOF_CHAR);
    assert_eq!(l.current_token_len(), 10);
}

#[test]
fn raw_identifier_takes_the_hash_along() {
    let mut l = Lexer::new("s#ab ");
    assert_eq!(l.step(), 's');
    assert_eq!(l.raw_identifier(), TokenKind::RawIdentifier);
    assert_eq!(l.current_token_len(), 4);
    assert_eq!(l.peek(), ' ');
}

#[test]
fn block_comment_takes_the_star_along() {
    let mut l = Lexer::new("/*/");
    assert_eq!(l.step(), '/');
    assert_eq!(l.block_comment(), TokenKind::BlockComment { terminated: false });
    assert_eq!(l.current_token_len(), 3);
    let mut l = Lexer::new("/* x */y");
    assert_eq!(l.step(), '/');
    assert_eq!(l.block_comment(), TokenKind::BlockComment { terminated: true });
    assert_eq!(l.current_token_len(), 7);
    assert_eq!(l.peek(), 'y');
    assert_eq!(
        scan_all("/*/"),
        vec![Token::new(TokenKind::BlockComment { terminated: false }, 3), eof()]
    );
}

#[test]
fn empty_text_is_eof_at_once() {
    assert_eq!(scan_all(""), vec![eof()]);
}

#[test]
fn lookahead_at_the_end_gives_the_sentinel() {
    let l = Lexer::new("");
    assert_eq!(l.nth(1), EOF_CHAR);
    assert_eq!(l.peek(), EOF_CHAR);
    let l = Lexer::new("ab");
    assert_eq!(l.nth(1), l.peek());
    assert_eq!(l.nth(u32::MAX), EOF_CHAR);
}

#[test]
fn peek_does_not_advance() {
    let l = Lexer::new("xy");
    assert_eq!(l.peek(), 'x');
    assert_eq!(l.peek(), 'x');
    assert_eq!(l.current_token_len(), 0);
}

#[test]
fn step_at_the_end_stays() {
    let mut l = Lexer::new("a");
    assert_eq!(l.step(), 'a');
    assert_eq!(l.step(), EOF_CHAR);
    assert_eq!(l.step(), EOF_CHAR);
    assert_eq!(l.current_token_len(), 1);
}

#[test]
fn consume_stops_at_first_rejected_unit() {
    let mut l = Lexer::new("aaab");
    l.consume(|c: char| c == 'a');
    assert_eq!(l.current_token_len(), 3);
    assert_eq!(l.peek(), 'b');
    l.consume(|c: char| c == 'a');
    assert_eq!(l.current_token_len(), 3);
    l.consume(|c: char| c == 'b');
    assert_eq!(l.current_token_len(), 4);
    assert_eq!(l.peek(), EOF_CHAR);
}

#[test]
fn reset_len_moves_the_boundary() {
    let mut l = Lexer::new("abc");
    l.step();
    l.step();
    assert_eq!(l.current_token_len(), 2);
    l.reset_len();
    assert_eq!(l.current_token_len(), 0);
    assert_eq!(l.char_to_token(), Token::new(TokenKind::Identifier, 1));
}

#[test]
fn pending_units_count_into_the_token() {
    let mut l = Lexer::new("  ab");
    l.step();
    assert_eq!(l.char_to_token(), Token::new(TokenKind::Whitespace, 2));
    assert_eq!(l.char_to_token(), Token::new(TokenKind::Identifier, 2));
}

#[test]
fn eof_is_repeated() {
    let mut l = Lexer::new("a");
    assert_eq!(l.char_to_token(), Token::new(TokenKind::Identifier, 1));
    for _ in 0..5 {
        assert_eq!(l.char_to_token(), eof());
    }
}

#[test]
fn lengths_cover_the_text() {
    let texts = [
        "fx basty() -> i32 {qaitar 0_i32;}",
        "/* open /* nested */ 'x' s#'raw'# 1.5E2f64 // tail",
        "s#name 'life 0e101 0s71 0o1 \"№\0\" 'unclosed\n'\\",
        "é",
        "aé /* № */ 'é' s#'\u{1F600}'# 1é",
        "",
    ];
    for text in texts {
        let tokens = scan_all(text);
        let total: usize = tokens.iter().map(|t| t.length).sum();
        assert_eq!(total, text.len());
        assert_eq!(tokens.iter().filter(|t| t.kind == TokenKind::Eof).count(), 1);
        assert_eq!(tokens.last(), Some(&eof()));
    }
}

#[test]
fn scanning_twice_gives_the_same_tokens() {
    let text = "let x = 0e1_0 + s#y; /* c */ 'a' 'b";
    assert_eq!(scan_all(text), scan_all(text));
}

#[test]
fn runs_become_one_token() {
    assert_eq!(
        scan_all(" \t\r\n  abc_9Z  123__4"),
        vec![
            Token::new(TokenKind::Whitespace, 6),
            Token::new(TokenKind::Identifier, 6),
            Token::new(TokenKind::Whitespace, 2),
            Token::new(integer(Base::Decimal, 6), 6),
            eof()
        ]
    );
    let tokens = scan_all("a  b \n\n c1 22 d");
    for pair in tokens.windows(2) {
        assert!(!(pair[0].kind == TokenKind::Whitespace && pair[1].kind == TokenKind::Whitespace));
        assert!(!(pair[0].kind == TokenKind::Identifier && pair[1].kind == TokenKind::Identifier));
    }
}
