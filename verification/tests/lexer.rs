use tilc_lexer::grammar::EOF_CHAR;
use tilc_lexer::lexer::Lexer;
use tilc_lexer::token::{Base, LiteralKind, Token, TokenKind};

#[test]
fn peek() {
    assert_eq!(Lexer::new("a").peek(), 'a');
    assert_eq!(Lexer::new("0").peek(), '0');
    assert_eq!(Lexer::new("?").peek(), '?');
    assert_eq!(Lexer::new("\\").peek(), '\\');
    assert_eq!(Lexer::new("").peek(), '\0');
}

#[test]
fn nth() {
    let l: Lexer = Lexer::new("fx basty()");

    assert_eq!(l.nth(2), 'x');
    assert_eq!(l.nth(3), ' ');
    assert_eq!(l.nth(4), 'b');
    assert_eq!(l.nth(11), '\0');
}

#[test]
fn step() {
    let mut l: Lexer = Lexer::new("fx basty()");

    assert_eq!(l.step(), 'f');
    assert_eq!(l.step(), 'x');
    assert_eq!(l.step(), ' ');
    assert_eq!(l.step(), 'b');
    assert_eq!(l.step(), 'a');
    assert_eq!(l.step(), 's');
    assert_eq!(l.step(), 't');
    assert_eq!(l.step(), 'y');
    assert_eq!(l.step(), '(');
    assert_eq!(l.step(), ')');
    assert_eq!(l.step(), EOF_CHAR);
}

#[test]
fn char_to_token() {
    let mut l: Lexer = Lexer::new("fx basty() -> i32 {qaitar 0_i32;}");

    assert_eq!(l.char_to_token(), Token::new(TokenKind::Identifier, 2)); // fx
    assert_eq!(l.char_to_token(), Token::new(TokenKind::Whitespace, 1)); // ' '
    assert_eq!(l.char_to_token(), Token::new(TokenKind::Identifier, 5)); // basty
    assert_eq!(l.char_to_token(), Token::new(TokenKind::OpenParen, 1)); // (
    assert_eq!(l.char_to_token(), Token::new(TokenKind::CloseParen, 1)); // )
    assert_eq!(l.char_to_token(), Token::new(TokenKind::Whitespace, 1)); // ' '
    assert_eq!(l.char_to_token(), Token::new(TokenKind::Minus, 1)); // -
    assert_eq!(l.char_to_token(), Token::new(TokenKind::Gt, 1)); // >
    assert_eq!(l.char_to_token(), Token::new(TokenKind::Whitespace, 1)); // ' '
    assert_eq!(l.char_to_token(), Token::new(TokenKind::Identifier, 3)); // i32
    assert_eq!(l.char_to_token(), Token::new(TokenKind::Whitespace, 1)); // ' '
    assert_eq!(l.char_to_token(), Token::new(TokenKind::OpenBrace, 1)); // {
    assert_eq!(l.char_to_token(), Token::new(TokenKind::Identifier, 6)); // qaitar
    assert_eq!(l.char_to_token(), Token::new(TokenKind::Whitespace, 1)); // ' '
    assert_eq!(
        l.char_to_token(),
        Token::new(
            TokenKind::Literal {
                kind: LiteralKind::Int {
                    base: Base::Decimal
                },
                suffix_start: 2
            },
            5
        )
    ); // 0_i32

    assert_eq!(l.char_to_token(), Token::new(TokenKind::Semicolon, 1)); // ;
    assert_eq!(l.char_to_token(), Token::new(TokenKind::CloseBrace, 1)); // }
    assert_eq!(l.char_to_token(), Token::new(TokenKind::Eof, 0)); // '\0'
}
