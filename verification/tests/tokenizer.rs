use odl::tokenizer::{Token, TokenKind, TokenizeErrorItem, TokenizeErrorKind, Tokens};

fn tok(start: usize, end: usize, kind: TokenKind) -> Token {
    Token { start, end, kind }
}

fn unknown(start: usize, end: usize, c: char) -> TokenizeErrorItem {
    TokenizeErrorItem { start, end, kind: TokenizeErrorKind::UnknownToken(c) }
}

fn tokens_of(src: &str) -> Vec<Token> {
    match Tokens::try_from(src) {
        Ok(t) => t.tokens,
        Err(e) => panic!("unexpected error {:?}", e),
    }
}

fn errors_of(src: &str) -> Vec<TokenizeErrorItem> {
    match Tokens::try_from(src) {
        Ok(t) => panic!("unexpected tokens {:?}", t),
        Err(e) => e.errors,
    }
}

#[test]
fn let_statement() {
    assert_eq!(
        tokens_of("let x = 5;"),
        vec![
            tok(0, 2, TokenKind::KeyLet),
            tok(4, 4, TokenKind::Name),
            tok(6, 6, TokenKind::SymbolEqual),
            tok(8, 8, TokenKind::Number),
            tok(9, 9, TokenKind::SymbolSemicolon),
        ]
    );
}

#[test]
fn every_symbol() {
    let kinds = vec![
        TokenKind::SymbolCurlyBracketOpen,
        TokenKind::SymbolCurlyBracketClose,
        TokenKind::SymbolParenthesesOpen,
        TokenKind::SymbolParenthesesClose,
        TokenKind::SymbolSquareBracketOpen,
        TokenKind::SymbolSquareBracketClose,
        TokenKind::SymbolEqual,
        TokenKind::SymbolComma,
        TokenKind::SymbolSemicolon,
        TokenKind::SymbolColon,
        TokenKind::SymbolPeriod,
    ];
    let expected: Vec<Token> = kinds.iter().enumerate().map(|(i, k)| tok(i, i, *k)).collect();
    assert_eq!(tokens_of("{}()[]=,;:."), expected);
}

#[test]
fn whitespace_only_gives_no_tokens() {
    assert_eq!(tokens_of(" \t\r\n "), vec![]);
    assert_eq!(tokens_of(""), vec![]);
}

#[test]
fn names_and_keyword() {
    assert_eq!(
        tokens_of("lets let_ _let let;"),
        vec![
            tok(0, 3, TokenKind::Name),
            tok(5, 8, TokenKind::Name),
            tok(10, 13, TokenKind::Name),
            tok(15, 17, TokenKind::KeyLet),
            tok(18, 18, TokenKind::SymbolSemicolon),
        ]
    );
}

#[test]
fn name_then_digits_is_one_name() {
    assert_eq!(tokens_of("a1b2 "), vec![tok(0, 3, TokenKind::Name)]);
}

#[test]
fn pending_token_at_end_is_dropped() {
    assert_eq!(tokens_of("abc"), vec![]);
    assert_eq!(tokens_of("x = 42"), vec![tok(0, 0, TokenKind::Name), tok(2, 2, TokenKind::SymbolEqual)]);
}

#[test]
fn number_ends_at_non_numeric() {
    assert_eq!(
        tokens_of("12.5;"),
        vec![
            tok(0, 1, TokenKind::Number),
            tok(2, 2, TokenKind::SymbolPeriod),
            tok(3, 3, TokenKind::Number),
            tok(4, 4, TokenKind::SymbolSemicolon),
        ]
    );
}

#[test]
fn number_continues_over_unicode_numerals() {
    // '²' is numeric (though not an ASCII digit), so the number runs on.
    assert_eq!(
        tokens_of("1\u{b2};"),
        vec![tok(0, 1, TokenKind::Number), tok(2, 2, TokenKind::SymbolSemicolon)]
    );
}

#[test]
fn line_comment() {
    assert_eq!(
        tokens_of("// hi\nx "),
        vec![tok(0, 4, TokenKind::Comment), tok(6, 6, TokenKind::Name)]
    );
}

#[test]
fn unterminated_line_comment_is_dropped() {
    assert_eq!(tokens_of("x; // trailing"), vec![tok(0, 0, TokenKind::Name), tok(1, 1, TokenKind::SymbolSemicolon)]);
}

#[test]
fn block_comment_closing_slash_is_read_again() {
    // The closing '/' is looked at again once the comment ends, so it starts
    // a new comment; a second '/' makes that a line comment.
    assert_eq!(tokens_of("/*x*//"), vec![tok(0, 3, TokenKind::Comment)]);
    // Followed by anything else, that '/' is reported.
    assert_eq!(errors_of("/* a */ x"), vec![unknown(6, 7, '/')]);
}

#[test]
fn lone_slash_is_unknown() {
    assert_eq!(errors_of("/a"), vec![unknown(0, 1, '/')]);
}

#[test]
fn unknown_characters_are_all_reported() {
    assert_eq!(errors_of("a # b @"), vec![unknown(2, 2, '#'), unknown(6, 6, '@')]);
}

#[test]
fn non_ascii_unknown_character() {
    assert_eq!(errors_of("\u{e9}"), vec![unknown(0, 0, '\u{e9}')]);
}

#[test]
fn names_run_over_non_ascii_letters() {
    // 'é' is alphanumeric, so the name runs on. Its end, character index 2,
    // taken as a byte offset falls inside the two bytes of 'é': there is no
    // keyword to match there, and the name is an ordinary name.
    assert_eq!(
        tokens_of("a\u{e9} b;"),
        vec![tok(0, 1, TokenKind::Name), tok(3, 3, TokenKind::Name), tok(4, 4, TokenKind::SymbolSemicolon)]
    );
}

#[test]
fn keyword_is_read_at_byte_offsets() {
    // After a two-byte character the bytes at the keyword's character indices
    // are "\nle", not "let".
    assert_eq!(
        tokens_of("//\u{e9}\nlet x;"),
        vec![
            tok(0, 2, TokenKind::Comment),
            tok(4, 6, TokenKind::Name),
            tok(8, 8, TokenKind::Name),
            tok(9, 9, TokenKind::SymbolSemicolon),
        ]
    );
}

#[test]
fn block_comment_end_is_read_at_byte_offsets() {
    // The byte before offset 5 is 'x', so the comment does not close and runs
    // to the end.
    assert_eq!(tokens_of("/*\u{e9}x*/ ?"), vec![]);
    // Here the byte before offset 5 is the '*', so the comment closes at the
    // second '/' and the first '/' stays inside it.
    assert_eq!(tokens_of("/*\u{e9}*//"), vec![tok(0, 4, TokenKind::Comment)]);
}

#[test]
fn token_new_builds_token() {
    assert_eq!(Token::new(3, 7, TokenKind::Name), tok(3, 7, TokenKind::Name));
}
