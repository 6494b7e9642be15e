//! Splits ODL source text into tokens.
//!
//! The scanner is a small state machine that walks the characters of the
//! source once.  Positions are character indices; the `end` of a token is the
//! index of its last character.  Keywords, and the `*` that closes a block
//! comment, are recognised by looking at the source's UTF-8 bytes between the
//! same indices, taken as byte offsets.  Where such an offset falls inside a
//! character there is nothing to match there (the keyword is not recognised,
//! the comment does not close), so every UTF-8 text gets an answer: its
//! tokens, or the characters that could not be placed.

use vstd::prelude::*;
use vstd::utf8::*;
use crate::unicode::{is_numeric_char, is_alphanumeric_char, char_is_numeric, char_is_alphanumeric};

verus! {

broadcast use vstd::utf8::group_utf8_lib;

/// The kinds of token the scanner produces.
#[derive(Debug, Clone, Copy, PartialEq, Eq)]
pub enum TokenKind {
    KeyLet,
    SymbolEqual,
    SymbolSemicolon,
    SymbolColon,
    SymbolComma,
    SymbolPeriod,
    SymbolParenthesesOpen,
    SymbolParenthesesClose,
    SymbolSquareBracketOpen,
    SymbolSquareBracketClose,
    SymbolCurlyBracketOpen,
    SymbolCurlyBracketClose,
    Name,
    Number,
    Comment,
}

/// A token: the character indices of its first and last character, and its kind.
#[derive(Debug, Clone, Copy, PartialEq, Eq)]
pub struct Token {
    pub start: usize,
    pub end: usize,
    pub kind: TokenKind,
}

impl Token {
    pub fn new(start: usize, end: usize, kind: TokenKind) -> (t: Self)
        ensures
            t == (Token { start, end, kind }),
    {
        Token { start, end, kind }
    }
}

/// The tokens of a source text, in the order in which they were found.
#[derive(Debug)]
pub struct Tokens {
    pub tokens: Vec<Token>,
}

/// Every character the scanner could not place, in the order met.
#[derive(Debug)]
pub struct TokenizeError {
    pub errors: Vec<TokenizeErrorItem>,
}

#[derive(Debug, Clone, Copy, PartialEq, Eq)]
pub struct TokenizeErrorItem {
    pub start: usize,
    pub end: usize,
    pub kind: TokenizeErrorKind,
}

#[derive(Debug, Clone, Copy, PartialEq, Eq)]
pub enum TokenizeErrorKind {
    UnknownToken(char),
}

/// What the scanner is in the middle of.
#[derive(Debug, Clone, Copy, PartialEq, Eq)]
pub enum TokenizerState {
    Idle,
    Name,
    Number,
    LineComment,
    BlockComment,
    CommentStart,
}

/// The abstract state of a scan: the character index it stands at, its mode,
/// where the pending token began, and what it has produced so far.
#[verifier::ext_equal]
pub struct ScanModel {
    pub pos: int,
    pub state: TokenizerState,
    pub start: int,
    pub tokens: Seq<Token>,
    pub errors: Seq<TokenizeErrorItem>,
}

pub open spec fn initial_scan() -> ScanModel {
    ScanModel { pos: 0, state: TokenizerState::Idle, start: 0, tokens: seq![], errors: seq![] }
}

pub open spec fn is_digit(c: char) -> bool {
    '0' <= c && c <= '9'
}

pub open spec fn is_name_start(c: char) -> bool {
    c == '_' || ('A' <= c && c <= 'Z') || ('a' <= c && c <= 'z')
}

pub open spec fn is_blank(c: char) -> bool {
    c == '\n' || c == ' ' || c == '\t' || c == '\r'
}

/// The token kind of a one-character symbol, if `c` is one.
pub open spec fn symbol_kind(c: char) -> Option<TokenKind> {
    if c == '{' {
        Some(TokenKind::SymbolCurlyBracketOpen)
    } else if c == '}' {
        Some(TokenKind::SymbolCurlyBracketClose)
    } else if c == '(' {
        Some(TokenKind::SymbolParenthesesOpen)
    } else if c == ')' {
        Some(TokenKind::SymbolParenthesesClose)
    } else if c == '[' {
        Some(TokenKind::SymbolSquareBracketOpen)
    } else if c == ']' {
        Some(TokenKind::SymbolSquareBracketClose)
    } else if c == '=' {
        Some(TokenKind::SymbolEqual)
    } else if c == ',' {
        Some(TokenKind::SymbolComma)
    } else if c == ';' {
        Some(TokenKind::SymbolSemicolon)
    } else if c == ':' {
        Some(TokenKind::SymbolColon)
    } else if c == '.' {
        Some(TokenKind::SymbolPeriod)
    } else {
        None
    }
}

/// The three characters of the keyword `let`.
pub open spec fn let_chars() -> Seq<char> {
    seq!['l', 'e', 't']
}

/// The UTF-8 bytes of the keyword `let`.
pub open spec fn let_bytes() -> Seq<u8> {
    seq![108u8, 101u8, 116u8]
}

/// The source's bytes between offsets `a` and `b` form a piece of text: both
/// offsets are character boundaries, in order.
pub open spec fn slice_ok(bytes: Seq<u8>, a: int, b: int) -> bool {
    a <= b && is_char_boundary(bytes, a) && is_char_boundary(bytes, b)
}

/// The text between byte offsets `a` and `b` is `want`.
pub open spec fn text_is(bytes: Seq<u8>, a: int, b: int, want: Seq<u8>) -> bool {
    slice_ok(bytes, a, b) && bytes.subrange(a, b) == want
}

pub open spec fn tok(start: int, end: int, kind: TokenKind) -> Token {
    Token { start: start as usize, end: end as usize, kind }
}

pub open spec fn err_item(start: int, end: int, c: char) -> TokenizeErrorItem {
    TokenizeErrorItem { start: start as usize, end: end as usize, kind: TokenizeErrorKind::UnknownToken(c) }
}

/// One step of the scan at character `chars[s.pos]`, given whether that
/// character is numeric (`numeric`) and alphanumeric (`word`).
pub open spec fn step_with(chars: Seq<char>, s: ScanModel, numeric: bool, word: bool) -> ScanModel {
    let bytes = encode_utf8(chars);
    let i = s.pos;
    let c = chars[i];
    match s.state {
        TokenizerState::Idle => {
            if is_digit(c) {
                ScanModel { pos: i + 1, state: TokenizerState::Number, start: i, ..s }
            } else if is_name_start(c) {
                ScanModel { pos: i + 1, state: TokenizerState::Name, start: i, ..s }
            } else if c == '/' {
                ScanModel { pos: i + 1, state: TokenizerState::CommentStart, start: i, ..s }
            } else if symbol_kind(c) is Some {
                ScanModel {
                    pos: i + 1,
                    start: i,
                    tokens: s.tokens.push(tok(i, i, symbol_kind(c)->0)),
                    ..s
                }
            } else if is_blank(c) {
                ScanModel { pos: i + 1, start: i, ..s }
            } else {
                ScanModel { pos: i + 1, start: i, errors: s.errors.push(err_item(i, i, c)), ..s }
            }
        },
        TokenizerState::CommentStart => {
            if c == '/' {
                ScanModel { pos: i + 1, state: TokenizerState::LineComment, ..s }
            } else if c == '*' {
                ScanModel { pos: i + 1, state: TokenizerState::BlockComment, ..s }
            } else {
                ScanModel {
                    state: TokenizerState::Idle,
                    errors: s.errors.push(err_item(s.start, i, '/')),
                    ..s
                }
            }
        },
        TokenizerState::LineComment => {
            if c == '\n' {
                ScanModel {
                    state: TokenizerState::Idle,
                    tokens: s.tokens.push(tok(s.start, i - 1, TokenKind::Comment)),
                    ..s
                }
            } else {
                ScanModel { pos: i + 1, ..s }
            }
        },
        TokenizerState::BlockComment => {
            if c == '/' {
                if text_is(bytes, i - 1, i, seq![42u8]) {
                    ScanModel {
                        state: TokenizerState::Idle,
                        tokens: s.tokens.push(tok(s.start, i - 1, TokenKind::Comment)),
                        ..s
                    }
                } else {
                    ScanModel { pos: i + 1, ..s }
                }
            } else {
                ScanModel { pos: i + 1, ..s }
            }
        },
        TokenizerState::Number => {
            if !numeric {
                ScanModel {
                    state: TokenizerState::Idle,
                    tokens: s.tokens.push(tok(s.start, i - 1, TokenKind::Number)),
                    ..s
                }
            } else {
                ScanModel { pos: i + 1, ..s }
            }
        },
        TokenizerState::Name => {
            if !(word || c == '_') {
                let kind = if text_is(bytes, s.start, i, let_bytes()) {
                    TokenKind::KeyLet
                } else {
                    TokenKind::Name
                };
                ScanModel {
                    state: TokenizerState::Idle,
                    tokens: s.tokens.push(tok(s.start, i - 1, kind)),
                    ..s
                }
            } else {
                ScanModel { pos: i + 1, ..s }
            }
        },
    }
}

/// One step of the scan, classifying the current character as `char::is_numeric`
/// and `char::is_alphanumeric` do.
pub open spec fn step(chars: Seq<char>, s: ScanModel) -> ScanModel {
    step_with(
        chars,
        s,
        is_numeric_char(chars[s.pos]),
        is_alphanumeric_char(chars[s.pos]),
    )
}

/// How far a scan still has to go: each step either consumes a character or
/// falls back to `Idle` without consuming one.
pub open spec fn scan_measure(chars: Seq<char>, s: ScanModel) -> int {
    (chars.len() - s.pos) * 2 + if s.state == TokenizerState::Idle { 0int } else { 1int }
}

/// Runs the scan from `s` to the end of the characters.
pub open spec fn run(chars: Seq<char>, s: ScanModel) -> ScanModel
    decreases scan_measure(chars, s),
{
    if s.pos < 0 || s.pos >= chars.len() {
        s
    } else {
        run(chars, step(chars, s))
    }
}

/// The final state of scanning `chars`.
pub open spec fn scan_chars(chars: Seq<char>) -> ScanModel {
    run(chars, initial_scan())
}

/// What tokenizing `chars` gives: the tokens when no character was unknown,
/// and the unknown characters when some were.
pub open spec fn tokenize_spec(chars: Seq<char>) -> Result<Seq<Token>, Seq<TokenizeErrorItem>> {
    let f = scan_chars(chars);
    if f.errors.len() == 0 {
        Ok(f.tokens)
    } else {
        Err(f.errors)
    }
}

} // verus!

verus! {

/// The scan invariant: the pending token starts at or before the current
/// character, strictly before it once a token is under way, and a comment is
/// at least two characters (`//` or `/*`) along.
pub open spec fn scan_wf(s: ScanModel) -> bool {
    &&& 0 <= s.start <= s.pos
    &&& s.state != TokenizerState::Idle ==> s.start < s.pos
    &&& (s.state == TokenizerState::LineComment || s.state == TokenizerState::BlockComment)
        ==> s.start + 1 < s.pos
}

/// The running state of a scan.
pub struct Scanner {
    pub pos: usize,
    pub state: TokenizerState,
    pub start: usize,
    pub tokens: Vec<Token>,
    pub errors: Vec<TokenizeErrorItem>,
}

impl Scanner {
    pub open spec fn model(&self) -> ScanModel {
        ScanModel {
            pos: self.pos as int,
            state: self.state,
            start: self.start as int,
            tokens: self.tokens@,
            errors: self.errors@,
        }
    }

    pub fn new() -> (s: Self)
        ensures
            s.model() == initial_scan(),
    {
        Scanner { pos: 0, state: TokenizerState::Idle, start: 0, tokens: Vec::new(), errors: Vec::new() }
    }

    /// Handles the character at `self.pos` of `chars`, the characters of
    /// `value`, given whether it is numeric and alphanumeric.
    pub fn step(&mut self, value: &str, chars: &Vec<char>, numeric: bool, word: bool)
        requires
            chars@ == value@,
            old(self).pos < chars@.len(),
            scan_wf(old(self).model()),
        ensures
            final(self).model() == step_with(chars@, old(self).model(), numeric, word),
            scan_wf(final(self).model()),
    {
        proof {
            lemma_literal_bytes();
        }
        let i = self.pos;
        let n = chars.len();
        assert(i + 1 <= n);
        let c = chars[i];
        match self.state {
            TokenizerState::Idle => {
                self.start = i;
                if '0' <= c && c <= '9' {
                    self.state = TokenizerState::Number;
                } else if c == '_' || ('A' <= c && c <= 'Z') || ('a' <= c && c <= 'z') {
                    self.state = TokenizerState::Name;
                } else if c == '/' {
                    self.state = TokenizerState::CommentStart;
                } else {
                    let symbol = symbol_of(c);
                    if let Some(kind) = symbol {
                        self.tokens.push(Token::new(i, i, kind));
                    } else if !(c == '\n' || c == ' ' || c == '\t' || c == '\r') {
                        self.errors.push(
                            TokenizeErrorItem { start: i, end: i, kind: TokenizeErrorKind::UnknownToken(c) },
                        );
                    }
                }
                self.pos = i + 1;
            },
            TokenizerState::CommentStart => {
                match c {
                    '/' => {
                        self.state = TokenizerState::LineComment;
                        self.pos = i + 1;
                    },
                    '*' => {
                        self.state = TokenizerState::BlockComment;
                        self.pos = i + 1;
                    },
                    _ => {
                        self.state = TokenizerState::Idle;
                        self.errors.push(
                            TokenizeErrorItem {
                                start: self.start,
                                end: i,
                                kind: TokenizeErrorKind::UnknownToken('/'),
                            },
                        );
                    },
                }
            },
            TokenizerState::LineComment => {
                if c == '\n' {
                    self.state = TokenizerState::Idle;
                    self.tokens.push(Token::new(self.start, i - 1, TokenKind::Comment));
                } else {
                    self.pos = i + 1;
                }
            },
            TokenizerState::BlockComment => {
                if c == '/' {
                    if text_at(value, i - 1, i, "*") {
                        self.state = TokenizerState::Idle;
                        self.tokens.push(Token::new(self.start, i - 1, TokenKind::Comment));
                    } else {
                        self.pos = i + 1;
                    }
                } else {
                    self.pos = i + 1;
                }
            },
            TokenizerState::Number => {
                if !numeric {
                    self.state = TokenizerState::Idle;
                    self.tokens.push(Token::new(self.start, i - 1, TokenKind::Number));
                } else {
                    self.pos = i + 1;
                }
            },
            TokenizerState::Name => {
                if !(word || c == '_') {
                    let start = self.start;
                    let is_let = text_at(value, start, i, "let");
                    self.state = TokenizerState::Idle;
                    if is_let {
                        self.tokens.push(Token::new(start, i - 1, TokenKind::KeyLet));
                    } else {
                        self.tokens.push(Token::new(start, i - 1, TokenKind::Name));
                    }
                } else {
                    self.pos = i + 1;
                }
            },
        }
    }
}

/// Whether the bytes of `value` between offsets `a` and `b` are the text
/// `want`; never where an offset falls inside a character.
fn text_at(value: &str, a: usize, b: usize, want: &str) -> (r: bool)
    ensures
        r == text_is(encode_utf8(value@), a as int, b as int, encode_utf8(want@)),
{
    if a > b || !value.is_char_boundary(a) || !value.is_char_boundary(b) {
        return false;
    }
    proof {
        lemma_boundary_in_range(encode_utf8(value@), b as int);
    }
    let bytes = value.as_bytes();
    let w = want.as_bytes();
    if b - a != w.len() {
        proof {
            assert(encode_utf8(value@).subrange(a as int, b as int).len() != encode_utf8(want@).len());
        }
        return false;
    }
    let mut k: usize = 0;
    while k < w.len()
        invariant
            bytes@ == encode_utf8(value@),
            w@ == encode_utf8(want@),
            a <= b <= bytes@.len(),
            b - a == w@.len(),
            k <= w@.len(),
            forall|j: int| 0 <= j < k ==> bytes@[a + j] == w@[j],
        decreases w@.len() - k,
    {
        if bytes[a + k] != w[k] {
            proof {
                assert(bytes@.subrange(a as int, b as int)[k as int] != w@[k as int]);
            }
            return false;
        }
        k = k + 1;
    }
    proof {
        assert(bytes@.subrange(a as int, b as int) =~= w@);
    }
    true
}

/// A character boundary of a valid UTF-8 sequence lies within it.
proof fn lemma_boundary_in_range(bytes: Seq<u8>, k: int)
    requires
        valid_utf8(bytes),
        is_char_boundary(bytes, k),
    ensures
        0 <= k <= bytes.len(),
    decreases bytes.len(),
{
    if k != 0 && 0 < k <= bytes.len() {
    }
}

/// The bytes of the two literals the scanner matches.
proof fn lemma_literal_bytes()
    ensures
        encode_utf8("*"@) == seq![42u8],
        encode_utf8("let"@) == let_bytes(),
{
    reveal_strlit("*");
    reveal_strlit("let");
    let star = "*"@;
    let word = "let"@;
    assert(is_ascii_chars(star));
    assert(is_ascii_chars(word));
    is_ascii_chars_encode_utf8(star);
    is_ascii_chars_encode_utf8(word);
    assert(encode_utf8(star)[0] == star[0] as u8);
    assert(encode_utf8(word)[0] == word[0] as u8);
    assert(encode_utf8(word)[1] == word[1] as u8);
    assert(encode_utf8(word)[2] == word[2] as u8);
    assert(encode_utf8(star) =~= seq![42u8]);
    assert(encode_utf8(word) =~= let_bytes());
}

/// The token kind of a one-character symbol.
pub fn symbol_of(c: char) -> (k: Option<TokenKind>)
    ensures
        k == symbol_kind(c),
{
    match c {
        '{' => Some(TokenKind::SymbolCurlyBracketOpen),
        '}' => Some(TokenKind::SymbolCurlyBracketClose),
        '(' => Some(TokenKind::SymbolParenthesesOpen),
        ')' => Some(TokenKind::SymbolParenthesesClose),
        '[' => Some(TokenKind::SymbolSquareBracketOpen),
        ']' => Some(TokenKind::SymbolSquareBracketClose),
        '=' => Some(TokenKind::SymbolEqual),
        ',' => Some(TokenKind::SymbolComma),
        ';' => Some(TokenKind::SymbolSemicolon),
        ':' => Some(TokenKind::SymbolColon),
        '.' => Some(TokenKind::SymbolPeriod),
        _ => None,
    }
}

} // verus!

verus! {

/// The abstract value of a tokenizer result.
pub open spec fn result_model(res: Result<Tokens, TokenizeError>) -> Result<Seq<Token>, Seq<TokenizeErrorItem>> {
    match res {
        Ok(t) => Ok(t.tokens@),
        Err(e) => Err(e.errors@),
    }
}

/// The characters of `value`, in order.
fn source_chars(value: &str) -> (res: Vec<char>)
    ensures
        res@ == value@,
{
    let mut out: Vec<char> = Vec::new();
    for c in it: value.chars()
        invariant
            out@ == it.seq().take(it.index() as int),
    {
        out.push(c);
    }
    out
}

/// Scans the whole of `value`: the final scan state.
pub fn scan_source(value: &str) -> (sc: Scanner)
    ensures
        scan_chars(value@) == sc.model(),
{
    let chars = source_chars(value);
    let mut sc = Scanner::new();
    while sc.pos < chars.len()
        invariant
            chars@ == value@,
            sc.pos <= chars@.len(),
            scan_wf(sc.model()),
            run(chars@, sc.model()) == scan_chars(value@),
        decreases scan_measure(chars@, sc.model()),
    {
        let c = chars[sc.pos];
        let numeric = char_is_numeric(c);
        let word = char_is_alphanumeric(c);
        sc.step(value, &chars, numeric, word);
    }
    sc
}

impl Tokens {
    /// Tokenizes `value`: the tokens when every character could be placed,
    /// otherwise every character that could not.
    pub fn try_from(value: &str) -> (res: Result<Tokens, TokenizeError>)
        ensures
            tokenize_spec(value@) == result_model(res),
    {
        let sc = scan_source(value);
        if sc.errors.len() == 0 {
            Ok(Tokens { tokens: sc.tokens })
        } else {
            Err(TokenizeError { errors: sc.errors })
        }
    }
}

} // verus!

verus! {

/// Every token lies inside the first `len` characters, starts no later than it
/// ends, and ends before any later token starts.
pub open spec fn tokens_placed(tokens: Seq<Token>, len: int) -> bool {
    &&& forall|k: int| 0 <= k < tokens.len() ==> {
        &&& (#[trigger] tokens[k]).start <= tokens[k].end
        &&& tokens[k].end < len
    }
    &&& forall|j: int, k: int|
        0 <= j < k < tokens.len() ==> (#[trigger] tokens[j]).end < (#[trigger] tokens[k]).start
}

/// Every unknown-character report lies inside the first `len` characters and
/// starts no later than it ends.
pub open spec fn errors_placed(errors: Seq<TokenizeErrorItem>, len: int) -> bool {
    forall|k: int| 0 <= k < errors.len() ==> {
        &&& (#[trigger] errors[k]).start <= errors[k].end
        &&& errors[k].end < len
    }
}

/// What a scan keeps true of what it has produced: the tokens are placed up
/// to the current character, and, while a token is pending, before its start;
/// the reports are placed inside the source.
pub open spec fn scan_placed(s: ScanModel, len: int) -> bool {
    &&& tokens_placed(s.tokens, s.pos)
    &&& errors_placed(s.errors, len)
    &&& s.tokens.len() > 0 ==> s.tokens.last().end < s.start || (s.state == TokenizerState::Idle
        && s.tokens.last().end < s.pos)
}

proof fn lemma_push_token(tokens: Seq<Token>, t: Token, p: int, q: int)
    requires
        tokens_placed(tokens, p),
        p <= q,
        t.start <= t.end < q,
        tokens.len() > 0 ==> tokens.last().end < t.start,
    ensures
        tokens_placed(tokens.push(t), q),
{
    let n = tokens.push(t);
    assert forall|j: int, k: int| 0 <= j < k < n.len() implies (#[trigger] n[j]).end < (#[trigger] n[k]).start by {
        assert(n[j] == tokens[j]);
        if k < tokens.len() {
            assert(n[k] == tokens[k]);
        } else {
            assert(tokens[j].end <= tokens.last().end);
        }
    }
    assert forall|k: int| 0 <= k < n.len() implies (#[trigger] n[k]).start <= n[k].end && n[k].end < q by {
        if k < tokens.len() {
            assert(n[k] == tokens[k]);
        }
    }
}

proof fn lemma_push_error(errors: Seq<TokenizeErrorItem>, e: TokenizeErrorItem, p: int, q: int)
    requires
        errors_placed(errors, p),
        p <= q,
        e.start <= e.end < q,
    ensures
        errors_placed(errors.push(e), q),
{
    let n = errors.push(e);
    assert forall|k: int| 0 <= k < n.len() implies (#[trigger] n[k]).start <= n[k].end && n[k].end < q by {
        if k < errors.len() {
            assert(n[k] == errors[k]);
        }
    }
}

proof fn lemma_grow(tokens: Seq<Token>, p: int, q: int)
    requires
        tokens_placed(tokens, p),
        p <= q,
    ensures
        tokens_placed(tokens, q),
{
}

proof fn lemma_step_keeps(chars: Seq<char>, s: ScanModel, numeric: bool, word: bool)
    requires
        0 <= s.pos < chars.len() <= usize::MAX,
        scan_wf(s),
        scan_placed(s, chars.len() as int),
    ensures
        ({
            let n = step_with(chars, s, numeric, word);
            &&& scan_wf(n)
            &&& scan_placed(n, chars.len() as int)
            &&& s.pos <= n.pos <= chars.len()
        }),
{
    let n = step_with(chars, s, numeric, word);
    lemma_grow(s.tokens, s.pos, s.pos + 1);
    if n.tokens.len() == s.tokens.len() + 1 {
        let t = n.tokens.last();
        assert(n.tokens == s.tokens.push(t));
        lemma_push_token(s.tokens, t, s.pos, n.pos);
    }
    if n.errors.len() == s.errors.len() + 1 {
        let e = n.errors.last();
        assert(n.errors == s.errors.push(e));
        lemma_push_error(s.errors, e, chars.len() as int, chars.len() as int);
    }
}

proof fn lemma_run_keeps(chars: Seq<char>, s: ScanModel)
    requires
        0 <= s.pos <= chars.len() <= usize::MAX,
        scan_wf(s),
        scan_placed(s, chars.len() as int),
    ensures
        scan_placed(run(chars, s), chars.len() as int),
        run(chars, s).pos == chars.len(),
    decreases scan_measure(chars, s),
{
    if s.pos < chars.len() {
        let c = chars[s.pos];
        lemma_step_keeps(chars, s, is_numeric_char(c), is_alphanumeric_char(c));
        lemma_run_keeps(chars, step(chars, s));
    }
}

/// Law: the tokens of a source lie inside it, each starts no later than it
/// ends, each ends before the next starts; the unknown-character reports lie
/// inside it too.
pub proof fn law_tokens_in_order(chars: Seq<char>)
    requires
        chars.len() <= usize::MAX,
    ensures
        tokens_placed(scan_chars(chars).tokens, chars.len() as int),
        errors_placed(scan_chars(chars).errors, chars.len() as int),
{
    lemma_run_keeps(chars, initial_scan());
}

proof fn lemma_step_keeps_wf(chars: Seq<char>, s: ScanModel, numeric: bool, word: bool)
    requires
        0 <= s.pos < chars.len(),
        scan_wf(s),
    ensures
        scan_wf(step_with(chars, s, numeric, word)),
        s.pos <= step_with(chars, s, numeric, word).pos <= chars.len(),
{
}

} // verus!

verus! {

/// A token's kind agrees with the text it covers: a number starts with a
/// digit, a name or keyword with a letter or `_`, a comment with `//` or `/*`,
/// and a symbol token is that one symbol character.
pub open spec fn token_fits_text(chars: Seq<char>, t: Token) -> bool {
    let c = chars[t.start as int];
    match t.kind {
        TokenKind::Number => is_digit(c),
        TokenKind::Name => is_name_start(c),
        TokenKind::KeyLet => is_name_start(c),
        TokenKind::Comment => c == '/' && t.start + 1 < chars.len() && (chars[t.start + 1] == '/'
            || chars[t.start + 1] == '*'),
        _ => t.start == t.end && symbol_kind(c) == Some(t.kind),
    }
}

/// The scan keeps every token fitting its text, and the pending token's
/// opening characters fitting the mode it is in.
pub open spec fn scan_fits(chars: Seq<char>, s: ScanModel) -> bool {
    &&& forall|k: int| 0 <= k < s.tokens.len() ==> token_fits_text(chars, #[trigger] s.tokens[k])
    &&& s.state == TokenizerState::Number ==> is_digit(chars[s.start])
    &&& s.state == TokenizerState::Name ==> is_name_start(chars[s.start])
    &&& s.state == TokenizerState::CommentStart ==> chars[s.start] == '/' && s.pos == s.start + 1
    &&& (s.state == TokenizerState::LineComment || s.state == TokenizerState::BlockComment) ==> {
        &&& chars[s.start] == '/'
        &&& (chars[s.start + 1] == '/' || chars[s.start + 1] == '*')
    }
}

proof fn lemma_step_fits(chars: Seq<char>, s: ScanModel)
    requires
        0 <= s.pos < chars.len() <= usize::MAX,
        scan_wf(s),
        scan_fits(chars, s),
    ensures
        scan_fits(chars, step(chars, s)),
{
    let n = step(chars, s);
    if n.tokens.len() == s.tokens.len() + 1 {
        assert forall|k: int| 0 <= k < n.tokens.len() implies token_fits_text(chars, #[trigger] n.tokens[k]) by {
            if k < s.tokens.len() {
                assert(n.tokens[k] == s.tokens[k]);
            }
        }
    } else {
        assert(n.tokens == s.tokens);
    }
}

proof fn lemma_run_fits(chars: Seq<char>, s: ScanModel)
    requires
        0 <= s.pos <= chars.len() <= usize::MAX,
        scan_wf(s),
        scan_fits(chars, s),
    ensures
        scan_fits(chars, run(chars, s)),
    decreases scan_measure(chars, s),
{
    if s.pos < chars.len() {
        let c = chars[s.pos];
        lemma_step_fits(chars, s);
        lemma_step_keeps_wf(chars, s, is_numeric_char(c), is_alphanumeric_char(c));
        lemma_run_fits(chars, step(chars, s));
    }
}

/// Law: every token's kind agrees with the text it covers (see
/// `token_fits_text`).
pub proof fn law_token_kinds_fit_text(chars: Seq<char>)
    requires
        chars.len() <= usize::MAX,
    ensures
        forall|k: int|
            0 <= k < scan_chars(chars).tokens.len() ==> token_fits_text(chars, #[trigger] scan_chars(chars).tokens[k]),
{
    lemma_run_fits(chars, initial_scan());
}

} // verus!

verus! {

/// A name-like token is the keyword `let` exactly when its text is `let`.
pub open spec fn keyword_fits_text(chars: Seq<char>, t: Token) -> bool {
    let is_let_text = t.start + 2 == t.end && chars.subrange(t.start as int, t.end + 1) == let_chars();
    &&& t.kind == TokenKind::KeyLet ==> is_let_text
    &&& t.kind == TokenKind::Name ==> !is_let_text
}

proof fn lemma_let_len(chars: Seq<char>, a: int, b: int)
    requires
        0 <= a <= b <= chars.len(),
        chars.subrange(a, b) == let_chars(),
    ensures
        b - a == 3,
{
    assert(chars.subrange(a, b).len() == let_chars().len());
}

/// In the UTF-8 encoding of an ASCII text every offset up to its length is a
/// character boundary.
proof fn lemma_ascii_boundaries(chars: Seq<char>, k: int)
    requires
        is_ascii_chars(chars),
        0 <= k <= chars.len(),
    ensures
        is_char_boundary(encode_utf8(chars), k),
    decreases chars.len(),
{
    if k != 0 {
        let bytes = encode_utf8(chars);
        let rest = chars.drop_first();
        let c0 = chars[0] as u32;
        assert(is_ascii_chars(rest));
        is_ascii_chars_encode_utf8(rest);
        assert(c0 <= 0x7f);
        assert(leading_byte_width_1(c0) == c0 as u8 && (c0 as u8) <= 0x7f) by (bit_vector)
            requires
                c0 <= 0x7f,
        ;
        assert(encode_scalar(c0) == seq![c0 as u8]);
        assert(bytes == seq![c0 as u8] + encode_utf8(rest));
        assert(bytes[0] == c0 as u8);
        assert(is_leading_byte_width_1(bytes[0]));
        assert(length_of_first_scalar(bytes) == 1);
        assert(pop_first_scalar(bytes) =~= encode_utf8(rest));
        lemma_ascii_boundaries(rest, k - 1);
    }
}

proof fn lemma_ascii_let(chars: Seq<char>, a: int, b: int)
    requires
        is_ascii_chars(chars),
        0 <= a <= b <= chars.len(),
    ensures
        (encode_utf8(chars).subrange(a, b) == let_bytes()) <==> (chars.subrange(a, b) == let_chars()),
{
    let bytes = encode_utf8(chars);
    is_ascii_chars_encode_utf8(chars);
    if b - a == 3 {
        let bs = bytes.subrange(a, b);
        let cs = chars.subrange(a, b);
        assert forall|j: int| 0 <= j < 3 implies (bs[j] == let_bytes()[j]) <==> (cs[j] == let_chars()[j]) by {
            assert(bs[j] == bytes[a + j]);
            assert(cs[j] == chars[a + j]);
            assert(bytes[a + j] == chars[a + j] as u8);
            let v = chars[a + j] as u32;
            assert(v <= 0x7f);
            assert(v <= 0x7f ==> ((v as u8 == 108u8) <==> v == 108u32) && ((v as u8 == 101u8) <==> v == 101u32)
                && ((v as u8 == 116u8) <==> v == 116u32)) by (bit_vector);
        }
        if bs == let_bytes() {
            assert(cs =~= let_chars());
        }
        if cs == let_chars() {
            assert(bs =~= let_bytes());
        }
    } else {
        assert(bytes.subrange(a, b).len() != let_bytes().len());
        assert(chars.subrange(a, b).len() != let_chars().len());
    }
}

proof fn lemma_run_keywords(chars: Seq<char>, s: ScanModel)
    requires
        is_ascii_chars(chars),
        0 <= s.pos <= chars.len() <= usize::MAX,
        scan_wf(s),
        forall|k: int| 0 <= k < s.tokens.len() ==> keyword_fits_text(chars, #[trigger] s.tokens[k]),
    ensures
        forall|k: int|
            0 <= k < run(chars, s).tokens.len() ==> keyword_fits_text(chars, #[trigger] run(chars, s).tokens[k]),
    decreases scan_measure(chars, s),
{
    if s.pos < chars.len() {
        let c = chars[s.pos];
        let n = step(chars, s);
        lemma_step_keeps_wf(chars, s, is_numeric_char(c), is_alphanumeric_char(c));
        if n.tokens.len() == s.tokens.len() + 1 {
            assert forall|k: int| 0 <= k < n.tokens.len() implies keyword_fits_text(chars, #[trigger] n.tokens[k]) by {
                if k < s.tokens.len() {
                    assert(n.tokens[k] == s.tokens[k]);
                } else if s.state == TokenizerState::Name {
                    let t = n.tokens[k];
                    assert(t.start as int == s.start);
                    assert(t.end as int == s.pos - 1);
                    assert(chars.subrange(t.start as int, t.end + 1) == chars.subrange(s.start, s.pos));
                    lemma_ascii_boundaries(chars, s.start);
                    lemma_ascii_boundaries(chars, s.pos);
                    lemma_ascii_let(chars, s.start, s.pos);
                    if chars.subrange(s.start, s.pos) == let_chars() {
                        lemma_let_len(chars, s.start, s.pos);
                    }
                }
            }
        } else {
            assert(n.tokens == s.tokens);
        }
        lemma_run_keywords(chars, n);
    }
}

/// Law: in an ASCII source, a name-like token is the keyword `let` exactly
/// when its text is `let`.
pub proof fn law_keyword_let(chars: Seq<char>)
    requires
        is_ascii_chars(chars),
        chars.len() <= usize::MAX,
    ensures
        forall|k: int|
            0 <= k < scan_chars(chars).tokens.len() ==> keyword_fits_text(
                chars,
                #[trigger] scan_chars(chars).tokens[k],
            ),
{
    lemma_run_keywords(chars, initial_scan());
}

} // verus!

verus! {

/// An ASCII character the scanner has a place for: a letter of either case, a
/// digit, `_`, `/`, one of the symbols `{ } ( ) [ ] = , ; : .`, or a blank.
pub open spec fn placeable_char(c: char) -> bool {
    ||| 'A' <= c <= 'Z'
    ||| 'a' <= c <= 'z'
    ||| '0' <= c <= '9'
    ||| c == '_' || c == '/'
    ||| c == '{' || c == '}' || c == '(' || c == ')' || c == '[' || c == ']'
    ||| c == '=' || c == ',' || c == ';' || c == ':' || c == '.'
    ||| c == ' ' || c == '\t' || c == '\n' || c == '\r'
}

/// An unknown-character report is justified: it names the character at its
/// start, and that is either a character without a place, reported alone, or
/// a `/` whose next character opens no comment, reported with that character.
pub open spec fn report_justified(chars: Seq<char>, e: TokenizeErrorItem) -> bool {
    let c = chars[e.start as int];
    &&& e.kind == TokenizeErrorKind::UnknownToken(c)
    &&& {
        ||| e.end == e.start && !placeable_char(c)
        ||| {
            &&& c == '/'
            &&& e.end == e.start + 1
            &&& e.end < chars.len()
            &&& chars[e.end as int] != '/'
            &&& chars[e.end as int] != '*'
        }
    }
}

/// What the scan keeps true of its reports, and of a pending `/`.
pub open spec fn reports_ok(chars: Seq<char>, s: ScanModel) -> bool {
    &&& 0 <= s.pos <= chars.len()
    &&& forall|k: int| 0 <= k < s.errors.len() ==> report_justified(chars, #[trigger] s.errors[k])
    &&& s.state == TokenizerState::CommentStart ==> chars[s.start] == '/' && s.pos == s.start + 1
}

proof fn lemma_step_reports(chars: Seq<char>, s: ScanModel)
    requires
        s.pos < chars.len() <= usize::MAX,
        scan_wf(s),
        reports_ok(chars, s),
    ensures
        reports_ok(chars, step(chars, s)),
{
    let n = step(chars, s);
    if n.errors.len() == s.errors.len() + 1 {
        assert forall|k: int| 0 <= k < n.errors.len() implies report_justified(chars, #[trigger] n.errors[k]) by {
            if k < s.errors.len() {
                assert(n.errors[k] == s.errors[k]);
            }
        }
    } else {
        assert(n.errors == s.errors);
    }
}

proof fn lemma_run_reports(chars: Seq<char>, s: ScanModel)
    requires
        chars.len() <= usize::MAX,
        scan_wf(s),
        reports_ok(chars, s),
    ensures
        reports_ok(chars, run(chars, s)),
    decreases scan_measure(chars, s),
{
    if s.pos < chars.len() {
        let c = chars[s.pos];
        lemma_step_reports(chars, s);
        lemma_step_keeps_wf(chars, s, is_numeric_char(c), is_alphanumeric_char(c));
        lemma_run_reports(chars, step(chars, s));
    }
}

/// Law: the scanner reports a character as unknown only when it has no place
/// for it (it is not an ASCII letter of either case, a digit, `_`, one of the
/// symbols or a blank), or when it is a `/` that opens no comment. So a source
/// made only of letters, digits, `_`, symbols and blanks always tokenizes to
/// `Ok`.
pub proof fn law_unknown_only_when_unplaceable(chars: Seq<char>)
    requires
        chars.len() <= usize::MAX,
    ensures
        forall|k: int|
            0 <= k < scan_chars(chars).errors.len() ==> report_justified(chars, #[trigger] scan_chars(chars).errors[k]),
        (forall|i: int| 0 <= i < chars.len() ==> placeable_char(#[trigger] chars[i]) && chars[i] != '/')
            ==> tokenize_spec(chars) is Ok,
{
    lemma_run_reports(chars, initial_scan());
    lemma_run_keeps(chars, initial_scan());
    let f = scan_chars(chars);
    if (forall|i: int| 0 <= i < chars.len() ==> placeable_char(#[trigger] chars[i]) && chars[i] != '/')
        && f.errors.len() > 0 {
        let e = f.errors[0];
        assert(report_justified(chars, e));
        assert(placeable_char(chars[e.start as int]));
    }
}

} // verus!

verus! {

/// Whether `c` may continue a name: alphanumeric (as `char::is_alphanumeric`
/// says) or `_`.
pub open spec fn continues_name(c: char) -> bool {
    is_alphanumeric_char(c) || c == '_'
}

/// A token covers the text it should: a number starts with an ASCII digit and
/// runs over numeric characters up to one that is not; a name or keyword
/// starts with an ASCII letter or `_` and runs over alphanumeric characters or
/// `_` up to one that is neither; a comment starts with `//` or `/*`; a symbol
/// token is the one character of its symbol.
pub open spec fn token_covers(chars: Seq<char>, t: Token) -> bool {
    let c = chars[t.start as int];
    &&& t.start <= t.end < chars.len()
    &&& match t.kind {
        TokenKind::Number => {
            &&& '0' <= c <= '9'
            &&& forall|j: int| t.start < j <= t.end ==> is_numeric_char(#[trigger] chars[j])
            &&& t.end + 1 < chars.len()
            &&& !is_numeric_char(chars[t.end + 1])
        },
        TokenKind::Name | TokenKind::KeyLet => {
            &&& ('A' <= c <= 'Z' || 'a' <= c <= 'z' || c == '_')
            &&& forall|j: int| t.start < j <= t.end ==> continues_name(#[trigger] chars[j])
            &&& t.end + 1 < chars.len()
            &&& !continues_name(chars[t.end + 1])
        },
        TokenKind::Comment => c == '/' && t.start + 1 < chars.len() && (chars[t.start + 1] == '/' || chars[t.start
            + 1] == '*'),
        TokenKind::SymbolCurlyBracketOpen => t.start == t.end && c == '{',
        TokenKind::SymbolCurlyBracketClose => t.start == t.end && c == '}',
        TokenKind::SymbolParenthesesOpen => t.start == t.end && c == '(',
        TokenKind::SymbolParenthesesClose => t.start == t.end && c == ')',
        TokenKind::SymbolSquareBracketOpen => t.start == t.end && c == '[',
        TokenKind::SymbolSquareBracketClose => t.start == t.end && c == ']',
        TokenKind::SymbolEqual => t.start == t.end && c == '=',
        TokenKind::SymbolComma => t.start == t.end && c == ',',
        TokenKind::SymbolSemicolon => t.start == t.end && c == ';',
        TokenKind::SymbolColon => t.start == t.end && c == ':',
        TokenKind::SymbolPeriod => t.start == t.end && c == '.',
    }
}

/// What the scan keeps true of its tokens and of the pending one.
pub open spec fn covers_ok(chars: Seq<char>, s: ScanModel) -> bool {
    &&& 0 <= s.start <= s.pos <= chars.len()
    &&& forall|k: int| 0 <= k < s.tokens.len() ==> token_covers(chars, #[trigger] s.tokens[k])
    &&& s.state == TokenizerState::Number ==> {
        &&& s.start < s.pos
        &&& '0' <= chars[s.start] <= '9'
        &&& forall|j: int| s.start < j < s.pos ==> is_numeric_char(#[trigger] chars[j])
    }
    &&& s.state == TokenizerState::Name ==> {
        &&& s.start < s.pos
        &&& ('A' <= chars[s.start] <= 'Z' || 'a' <= chars[s.start] <= 'z' || chars[s.start] == '_')
        &&& forall|j: int| s.start < j < s.pos ==> continues_name(#[trigger] chars[j])
    }
    &&& s.state == TokenizerState::CommentStart ==> chars[s.start] == '/' && s.pos == s.start + 1
    &&& (s.state == TokenizerState::LineComment || s.state == TokenizerState::BlockComment) ==> {
        &&& s.start + 1 < s.pos
        &&& chars[s.start] == '/'
        &&& (chars[s.start + 1] == '/' || chars[s.start + 1] == '*')
    }
}

proof fn lemma_step_covers(chars: Seq<char>, s: ScanModel)
    requires
        s.pos < chars.len() <= usize::MAX,
        covers_ok(chars, s),
    ensures
        covers_ok(chars, step(chars, s)),
{
    let n = step(chars, s);
    if n.tokens.len() == s.tokens.len() + 1 {
        assert forall|k: int| 0 <= k < n.tokens.len() implies token_covers(chars, #[trigger] n.tokens[k]) by {
            if k < s.tokens.len() {
                assert(n.tokens[k] == s.tokens[k]);
            }
        }
    } else {
        assert(n.tokens == s.tokens);
    }
}

proof fn lemma_run_covers(chars: Seq<char>, s: ScanModel)
    requires
        chars.len() <= usize::MAX,
        covers_ok(chars, s),
    ensures
        covers_ok(chars, run(chars, s)),
    decreases scan_measure(chars, s),
{
    if s.pos < chars.len() {
        lemma_step_covers(chars, s);
        lemma_run_covers(chars, step(chars, s));
    }
}

/// Law: every token covers the text it should (see `token_covers`): symbols
/// are their own characters, and numbers and names run exactly as far as
/// their characters allow.
pub proof fn law_tokens_cover_text(chars: Seq<char>)
    requires
        chars.len() <= usize::MAX,
    ensures
        forall|k: int|
            0 <= k < scan_chars(chars).tokens.len() ==> token_covers(chars, #[trigger] scan_chars(chars).tokens[k]),
{
    lemma_run_covers(chars, initial_scan());
}

} // verus!
