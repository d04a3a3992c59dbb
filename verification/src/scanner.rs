//! Turns source text into tokens, in one pass from left to right.
//!
//! The rules are stated over the bytes of the source: every token starts with
//! an ASCII byte, and only strings and comments can hold anything else.

use vstd::prelude::*;
use vstd::string::StringSliceAdditionalSpecFns;
use vstd::utf8::*;
use crate::error::{CompilationError, ErrorOrEarlyReturn};
use crate::Result;

verus! {

#[derive(Debug, PartialEq, Eq, Clone, Copy, Structural)]
pub enum TokenType {
    // Single-character tokens
    LeftParen,
    RightParen,
    LeftBrace,
    RightBrace,
    Comma,
    Dot,
    Plus,
    Minus,
    Semicolon,
    Slash,
    Star,
    // One or two character tokens
    Bang,
    BangEqual,
    Equal,
    EqualEqual,
    Greater,
    GreaterEqual,
    Less,
    LessEqual,
    // Literals
    Identifier,
    String,
    NumberLiteral,
    // Keywords
    And,
    Class,
    Else,
    False,
    Fun,
    For,
    If,
    Nil,
    Or,
    Print,
    Return,
    Super,
    This,
    True,
    Var,
    While,
    // What the scanner reads and throws away
    Comment,
    Whitespace,
    Eof,
}

/// A piece of the source: its kind, its text and the line it starts on.
#[derive(Debug, PartialEq, Eq, Clone, Copy)]
pub struct Token<'source_code> {
    pub type_: TokenType,
    pub lexeme: &'source_code str,
    pub line: u32,
}

/// A token as the scanner's rules see it: the lexeme by its bytes.
pub struct TokenView {
    pub kind: TokenType,
    pub lexeme: Seq<u8>,
    pub line: int,
}

impl<'source_code> View for Token<'source_code> {
    type V = TokenView;

    open spec fn view(&self) -> TokenView {
        TokenView { kind: self.type_, lexeme: self.lexeme.spec_bytes(), line: self.line as int }
    }
}

impl<'source_code> Token<'source_code> {
    pub fn new(type_: TokenType, lexeme: &'source_code str, line: u32) -> (token: Self)
        ensures
            token.type_ == type_,
            token.lexeme == lexeme,
            token.line == line,
    {
        Token { type_, lexeme, line }
    }
}

/// The views of a run of tokens, in order.
pub open spec fn token_views(tokens: Seq<Token>) -> Seq<TokenView> {
    Seq::new(tokens.len(), |i: int| tokens[i]@)
}

// ---------------------------------------------------------------------------
// The rules
// ---------------------------------------------------------------------------

// The bytes that the rules name.
pub const LEFT_PAREN: u8 = 0x28;

pub const RIGHT_PAREN: u8 = 0x29;

pub const LEFT_BRACE: u8 = 0x7b;

pub const RIGHT_BRACE: u8 = 0x7d;

pub const COMMA: u8 = 0x2c;

pub const DOT: u8 = 0x2e;

pub const MINUS: u8 = 0x2d;

pub const PLUS: u8 = 0x2b;

pub const SEMICOLON: u8 = 0x3b;

pub const STAR: u8 = 0x2a;

pub const SPACE: u8 = 0x20;

pub const TAB: u8 = 0x09;

pub const CARRIAGE_RETURN: u8 = 0x0d;

pub const LINE_FEED: u8 = 0x0a;

pub const BANG: u8 = 0x21;

pub const EQUAL: u8 = 0x3d;

pub const LESS: u8 = 0x3c;

pub const GREATER: u8 = 0x3e;

pub const SLASH: u8 = 0x2f;

pub const QUOTE: u8 = 0x22;

pub const DIGIT_0: u8 = 0x30;

pub const DIGIT_9: u8 = 0x39;

pub const LOWER_A: u8 = 0x61;

pub const LOWER_Z: u8 = 0x7a;

pub const UPPER_A: u8 = 0x41;

pub const UPPER_Z: u8 = 0x5a;

pub const UNDERSCORE: u8 = 0x5f;


pub open spec fn is_digit(b: u8) -> bool {
    DIGIT_0 <= b <= DIGIT_9
}

/// A byte that can start an identifier.
pub open spec fn is_alpha(b: u8) -> bool {
    (LOWER_A <= b <= LOWER_Z) || (UPPER_A <= b <= UPPER_Z) || b == UNDERSCORE
}

/// A byte that can continue an identifier.
pub open spec fn is_alphanumeric(b: u8) -> bool {
    is_alpha(b) || is_digit(b)
}

/// The first position at or after `from` that holds no digit.
pub open spec fn digits_end(s: Seq<u8>, from: int) -> int
    decreases s.len() - from,
{
    if 0 <= from < s.len() && is_digit(s[from]) {
        digits_end(s, from + 1)
    } else {
        from
    }
}

/// The first position at or after `from` that cannot continue an identifier.
pub open spec fn identifier_end(s: Seq<u8>, from: int) -> int
    decreases s.len() - from,
{
    if 0 <= from < s.len() && is_alphanumeric(s[from]) {
        identifier_end(s, from + 1)
    } else {
        from
    }
}

/// The first position at or after `from` that holds `byte`; the length of `s`
/// where there is none.
pub open spec fn position_of(s: Seq<u8>, byte: u8, from: int) -> int
    decreases s.len() - from,
{
    if 0 <= from < s.len() && s[from] != byte {
        position_of(s, byte, from + 1)
    } else {
        from
    }
}

/// How many line feeds `s` holds.
pub open spec fn count_newlines(s: Seq<u8>) -> nat
    decreases s.len(),
{
    if s.len() == 0 {
        0
    } else {
        count_newlines(s.drop_last()) + if s.last() == LINE_FEED {
            1nat
        } else {
            0nat
        }
    }
}

/// The token of a single byte that is a token whatever follows it.
pub open spec fn spec_punctuation(b: u8) -> Option<TokenType> {
    if b == LEFT_PAREN {
        Some(TokenType::LeftParen)
    } else if b == RIGHT_PAREN {
        Some(TokenType::RightParen)
    } else if b == LEFT_BRACE {
        Some(TokenType::LeftBrace)
    } else if b == RIGHT_BRACE {
        Some(TokenType::RightBrace)
    } else if b == COMMA {
        Some(TokenType::Comma)
    } else if b == DOT {
        Some(TokenType::Dot)
    } else if b == MINUS {
        Some(TokenType::Minus)
    } else if b == PLUS {
        Some(TokenType::Plus)
    } else if b == SEMICOLON {
        Some(TokenType::Semicolon)
    } else if b == STAR {
        Some(TokenType::Star)
    } else if b == SPACE || b == TAB || b == CARRIAGE_RETURN || b == LINE_FEED {
        Some(TokenType::Whitespace)
    } else {
        None
    }
}

/// `Some((alone, paired))` for a byte that is one token alone and another when
/// `=` follows it.
pub open spec fn spec_operator(b: u8) -> Option<(TokenType, TokenType)> {
    if b == BANG {
        Some((TokenType::Bang, TokenType::BangEqual))
    } else if b == EQUAL {
        Some((TokenType::Equal, TokenType::EqualEqual))
    } else if b == LESS {
        Some((TokenType::Less, TokenType::LessEqual))
    } else if b == GREATER {
        Some((TokenType::Greater, TokenType::GreaterEqual))
    } else {
        None
    }
}

/// The keyword that `word` spells, or `Identifier`.
#[verifier::opaque]
pub open spec fn spec_keyword(word: Seq<u8>) -> TokenType {
    if word == "and".spec_bytes() {
        TokenType::And
    } else if word == "class".spec_bytes() {
        TokenType::Class
    } else if word == "else".spec_bytes() {
        TokenType::Else
    } else if word == "false".spec_bytes() {
        TokenType::False
    } else if word == "for".spec_bytes() {
        TokenType::For
    } else if word == "fun".spec_bytes() {
        TokenType::Fun
    } else if word == "if".spec_bytes() {
        TokenType::If
    } else if word == "nil".spec_bytes() {
        TokenType::Nil
    } else if word == "or".spec_bytes() {
        TokenType::Or
    } else if word == "print".spec_bytes() {
        TokenType::Print
    } else if word == "return".spec_bytes() {
        TokenType::Return
    } else if word == "super".spec_bytes() {
        TokenType::Super
    } else if word == "this".spec_bytes() {
        TokenType::This
    } else if word == "true".spec_bytes() {
        TokenType::True
    } else if word == "var".spec_bytes() {
        TokenType::Var
    } else if word == "while".spec_bytes() {
        TokenType::While
    } else {
        TokenType::Identifier
    }
}

/// The length of the comment that `s` starts with: through the first line
/// feed, or to the end.
pub open spec fn comment_len(s: Seq<u8>) -> int {
    let newline = position_of(s, LINE_FEED, 0);
    if newline < s.len() {
        newline + 1
    } else {
        s.len() as int
    }
}

/// The length of the number that `s` starts with: digits, then a dot and more
/// digits where at least one digit follows the dot.
pub open spec fn number_len(s: Seq<u8>) -> int {
    let whole = digits_end(s, 0);
    if whole < s.len() && s[whole] == DOT && digits_end(s, whole + 1) > whole + 1 {
        digits_end(s, whole + 1)
    } else {
        whole
    }
}

/// What the scanner finds at the start of `s`.
pub enum Lexeme {
    /// A token (or `Whitespace`, `Comment`, `Eof`) of `len` bytes.
    Piece { kind: TokenType, len: int },
    UnexpectedCharacter,
    UnterminatedString,
}

/// The lexeme at the start of `s`. Two-byte operators win over their first
/// byte; `//` starts a comment; a string runs to the next `"`.
pub open spec fn spec_scan_token(s: Seq<u8>) -> Lexeme {
    if s.len() == 0 {
        Lexeme::Piece { kind: TokenType::Eof, len: 0 }
    } else if let Some(kind) = spec_punctuation(s[0]) {
        Lexeme::Piece { kind, len: 1 }
    } else if let Some((alone, paired)) = spec_operator(s[0]) {
        if s.len() > 1 && s[1] == EQUAL {
            Lexeme::Piece { kind: paired, len: 2 }
        } else {
            Lexeme::Piece { kind: alone, len: 1 }
        }
    } else if s[0] == SLASH {
        if s.len() > 1 && s[1] == SLASH {
            Lexeme::Piece { kind: TokenType::Comment, len: comment_len(s) }
        } else {
            Lexeme::Piece { kind: TokenType::Slash, len: 1 }
        }
    } else if s[0] == QUOTE {
        let close = position_of(s, QUOTE, 1);
        if close < s.len() {
            Lexeme::Piece { kind: TokenType::String, len: close + 1 }
        } else {
            Lexeme::UnterminatedString
        }
    } else if is_digit(s[0]) {
        Lexeme::Piece { kind: TokenType::NumberLiteral, len: number_len(s) }
    } else if is_alpha(s[0]) {
        let end = identifier_end(s, 0);
        Lexeme::Piece { kind: spec_keyword(s.subrange(0, end)), len: end }
    } else {
        Lexeme::UnexpectedCharacter
    }
}

/// Every lexeme of `s` in order, comments and whitespace too, the first of
/// them on line `line`; or the first error.
#[verifier::opaque]
pub open spec fn spec_lexemes(s: Seq<u8>, line: int) -> std::result::Result<
    Seq<TokenView>,
    CompilationError,
>
    decreases s.len(),
{
    match spec_scan_token(s) {
        Lexeme::UnexpectedCharacter => Err(
            CompilationError::UnexpectedCharacter(decode_utf8(s)[0]),
        ),
        Lexeme::UnterminatedString => Err(CompilationError::UnterminatedString),
        Lexeme::Piece { kind, len } => {
            if kind == TokenType::Eof || len <= 0 || len > s.len() {
                Ok(Seq::empty())
            } else {
                match spec_lexemes(
                    s.subrange(len, s.len() as int),
                    line + count_newlines(s.subrange(0, len)),
                ) {
                    Err(e) => Err(e),
                    Ok(rest) => Ok(seq![TokenView { kind, lexeme: s.subrange(0, len), line }] + rest),
                }
            }
        },
    }
}

/// Whether the scanner throws a lexeme of this kind away.
pub open spec fn is_trivia(kind: TokenType) -> bool {
    kind == TokenType::Comment || kind == TokenType::Whitespace
}

/// `lexemes` without comments and whitespace.
#[verifier::opaque]
pub open spec fn significant(lexemes: Seq<TokenView>) -> Seq<TokenView>
    decreases lexemes.len(),
{
    if lexemes.len() == 0 {
        Seq::empty()
    } else if is_trivia(lexemes.last().kind) {
        significant(lexemes.drop_last())
    } else {
        significant(lexemes.drop_last()).push(lexemes.last())
    }
}

/// The texts of `lexemes`, one after the other.
pub open spec fn joined(lexemes: Seq<TokenView>) -> Seq<u8>
    decreases lexemes.len(),
{
    if lexemes.len() == 0 {
        Seq::empty()
    } else {
        lexemes[0].lexeme + joined(lexemes.drop_first())
    }
}

/// That `out` is what scanning one lexeme of `kind` and `len` bytes off `src`
/// gives: the token, the rest of the source, and the line the rest starts on.
pub open spec fn scanned(
    src: &str,
    line: u32,
    kind: TokenType,
    len: int,
    out: (Token, &str, u32),
) -> bool {
    let bytes = src.spec_bytes();
    &&& 0 <= len <= bytes.len()
    &&& out.0.type_ == kind
    &&& out.0.lexeme.spec_bytes() == bytes.subrange(0, len)
    &&& out.0.line == line
    &&& out.1.spec_bytes() == bytes.subrange(len, bytes.len() as int)
    &&& out.2 == line + count_newlines(bytes.subrange(0, len))
}

/// That `result` is what scanning the whole of `source` gives.
pub open spec fn scan_gives(source: Seq<u8>, result: Result<Vec<Token>>) -> bool {
    match spec_lexemes(source, 1) {
        Ok(lexemes) => result matches Ok(tokens) && token_views(tokens@) == significant(lexemes),
        Err(e) => result matches Err(found) && found == ErrorOrEarlyReturn::CompilationError(e),
    }
}

// ---------------------------------------------------------------------------
// Facts about the rules
// ---------------------------------------------------------------------------

pub proof fn lemma_digits_end(s: Seq<u8>, from: int)
    requires
        0 <= from <= s.len(),
    ensures
        from <= digits_end(s, from) <= s.len(),
        forall|i: int| from <= i < digits_end(s, from) ==> is_digit(#[trigger] s[i]),
        digits_end(s, from) < s.len() ==> !is_digit(s[digits_end(s, from)]),
    decreases s.len() - from,
{
    if from < s.len() && is_digit(s[from]) {
        lemma_digits_end(s, from + 1);
    }
}

pub proof fn lemma_identifier_end(s: Seq<u8>, from: int)
    requires
        0 <= from <= s.len(),
    ensures
        from <= identifier_end(s, from) <= s.len(),
        forall|i: int| from <= i < identifier_end(s, from) ==> is_alphanumeric(#[trigger] s[i]),
        identifier_end(s, from) < s.len() ==> !is_alphanumeric(s[identifier_end(s, from)]),
    decreases s.len() - from,
{
    if from < s.len() && is_alphanumeric(s[from]) {
        lemma_identifier_end(s, from + 1);
    }
}

pub proof fn lemma_position_of(s: Seq<u8>, byte: u8, from: int)
    requires
        0 <= from <= s.len(),
    ensures
        from <= position_of(s, byte, from) <= s.len(),
        forall|i: int| from <= i < position_of(s, byte, from) ==> #[trigger] s[i] != byte,
        position_of(s, byte, from) < s.len() ==> s[position_of(s, byte, from)] == byte,
    decreases s.len() - from,
{
    if from < s.len() && s[from] != byte {
        lemma_position_of(s, byte, from + 1);
    }
}

/// Line feeds add up over a concatenation.
pub proof fn lemma_count_newlines_add(a: Seq<u8>, b: Seq<u8>)
    ensures
        count_newlines(a + b) == count_newlines(a) + count_newlines(b),
    decreases b.len(),
{
    if b.len() == 0 {
        assert(a + b =~= a);
    } else {
        assert((a + b).drop_last() =~= a + b.drop_last());
        lemma_count_newlines_add(a, b.drop_last());
    }
}

/// Line feeds add up over a split.
pub proof fn lemma_count_newlines_split(s: Seq<u8>, at: int)
    requires
        0 <= at <= s.len(),
    ensures
        count_newlines(s) == count_newlines(s.subrange(0, at)) + count_newlines(
            s.subrange(at, s.len() as int),
        ),
{
    assert(s =~= s.subrange(0, at) + s.subrange(at, s.len() as int));
    lemma_count_newlines_add(s.subrange(0, at), s.subrange(at, s.len() as int));
}

pub proof fn lemma_count_newlines_none(s: Seq<u8>)
    requires
        forall|i: int| 0 <= i < s.len() ==> #[trigger] s[i] != LINE_FEED,
    ensures
        count_newlines(s) == 0,
    decreases s.len(),
{
    if s.len() > 0 {
        lemma_count_newlines_none(s.drop_last());
    }
}

/// In well-formed UTF-8 a character ends wherever an ASCII byte does.
pub proof fn lemma_boundary_after_ascii(bytes: Seq<u8>, at: int)
    requires
        valid_utf8(bytes),
        0 < at <= bytes.len(),
        bytes[at - 1] < 0x80,
    ensures
        is_char_boundary(bytes, at),
    decreases bytes.len(),
{
    reveal_with_fuel(valid_utf8, 2);
    reveal_with_fuel(is_char_boundary, 2);
    let first = length_of_first_scalar(bytes);
    if at - 1 >= first {
        let rest = pop_first_scalar(bytes);
        assert(rest[at - first - 1] == bytes[at - 1]);
        lemma_boundary_after_ascii(rest, at - first);
    }
}

/// The length of a lexeme lies within the source, and only the end of input
/// has length zero.
pub proof fn lemma_piece_len(s: Seq<u8>)
    ensures
        match spec_scan_token(s) {
            Lexeme::Piece { kind, len } => 0 <= len <= s.len() && (kind == TokenType::Eof
                <==> s.len() == 0) && (len == 0 <==> s.len() == 0),
            _ => s.len() > 0,
        },
{
    if s.len() > 0 {
        lemma_position_of(s, LINE_FEED, 0);
        lemma_position_of(s, QUOTE, 1);
        lemma_digits_end(s, 0);
        lemma_digits_end(s, 1);
        let whole = digits_end(s, 0);
        if whole < s.len() {
            lemma_digits_end(s, whole + 1);
        }
        lemma_identifier_end(s, 0);
        lemma_identifier_end(s, 1);
        lemma_keyword_is_no_end(s.subrange(0, identifier_end(s, 0)));
    }
}

/// No word spells the end of input, a comment or whitespace.
pub proof fn lemma_keyword_is_no_end(word: Seq<u8>)
    ensures
        spec_keyword(word) != TokenType::Eof,
        !is_trivia(spec_keyword(word)),
{
    reveal(spec_keyword);
}

/// Scanning and then putting the lexemes together again, comments and
/// whitespace included, gives back the source.
pub proof fn lemma_lexemes_rebuild_source(s: Seq<u8>, line: int)
    ensures
        spec_lexemes(s, line) matches Ok(lexemes) ==> joined(lexemes) == s,
    decreases s.len(),
{
    reveal(spec_lexemes);
    lemma_piece_len(s);
    if let Lexeme::Piece { kind, len } = spec_scan_token(s) {
        if kind != TokenType::Eof {
            let rest = s.subrange(len, s.len() as int);
            let next = line + count_newlines(s.subrange(0, len));
            lemma_lexemes_rebuild_source(rest, next);
            if let Ok(tail) = spec_lexemes(rest, next) {
                let all = seq![TokenView { kind, lexeme: s.subrange(0, len), line }] + tail;
                assert(all.drop_first() =~= tail);
                assert(s.subrange(0, len) + rest =~= s);
            }
        } else {
            assert(s =~= Seq::<u8>::empty());
        }
    }
}

/// The line of a lexeme is the line on which its first byte stands: the line
/// of the first lexeme, and one more for every line feed before it.
pub proof fn lemma_lexeme_lines(s: Seq<u8>, line: int, i: int)
    requires
        spec_lexemes(s, line) is Ok,
        0 <= i < spec_lexemes(s, line)->Ok_0.len(),
    ensures
        spec_lexemes(s, line)->Ok_0[i].line == line + count_newlines(
            joined(spec_lexemes(s, line)->Ok_0.subrange(0, i)),
        ),
    decreases s.len(),
{
    reveal(spec_lexemes);
    lemma_piece_len(s);
    let lexemes = spec_lexemes(s, line)->Ok_0;
    if let Lexeme::Piece { kind, len } = spec_scan_token(s) {
        let first = TokenView { kind, lexeme: s.subrange(0, len), line };
        let rest = s.subrange(len, s.len() as int);
        let next = line + count_newlines(s.subrange(0, len));
        let tail = spec_lexemes(rest, next)->Ok_0;
        assert(lexemes =~= seq![first] + tail);
        if i == 0 {
            assert(lexemes.subrange(0, 0) =~= Seq::<TokenView>::empty());
        } else {
            lemma_lexeme_lines(rest, next, i - 1);
            let before = lexemes.subrange(0, i);
            assert(before.drop_first() =~= tail.subrange(0, i - 1));
            assert(before[0] == first);
            lemma_count_newlines_add(first.lexeme, joined(tail.subrange(0, i - 1)));
        }
    }
}

/// `done`, then what `rest` holds; the error of `rest` where it is one.
pub open spec fn prefixed(
    done: Seq<TokenView>,
    rest: std::result::Result<Seq<TokenView>, CompilationError>,
) -> std::result::Result<Seq<TokenView>, CompilationError> {
    match rest {
        Ok(lexemes) => Ok(done + lexemes),
        Err(e) => Err(e),
    }
}

proof fn lemma_prefixed_empty(rest: std::result::Result<Seq<TokenView>, CompilationError>)
    ensures
        prefixed(Seq::empty(), rest) == rest,
{
    if let Ok(lexemes) = rest {
        assert(Seq::<TokenView>::empty() + lexemes =~= lexemes);
    }
}

proof fn lemma_prefixed_push(
    done: Seq<TokenView>,
    piece: TokenView,
    rest: std::result::Result<Seq<TokenView>, CompilationError>,
)
    ensures
        prefixed(done, prefixed(seq![piece], rest)) == prefixed(done.push(piece), rest),
{
    if let Ok(lexemes) = rest {
        assert(done + (seq![piece] + lexemes) =~= done.push(piece) + lexemes);
    }
}

proof fn lemma_significant_push(done: Seq<TokenView>, piece: TokenView)
    ensures
        significant(done.push(piece)) == if is_trivia(piece.kind) {
            significant(done)
        } else {
            significant(done).push(piece)
        },
{
    reveal(significant);
    assert(done.push(piece).drop_last() =~= done);
}

/// The lexemes of `s` are its first lexeme and then those of what follows it.
proof fn lemma_lexemes_step(s: Seq<u8>, line: int)
    ensures
        match spec_scan_token(s) {
            Lexeme::Piece { kind, len } => if kind == TokenType::Eof {
                spec_lexemes(s, line) == Ok::<Seq<TokenView>, CompilationError>(Seq::empty())
            } else {
                spec_lexemes(s, line) == prefixed(
                    seq![TokenView { kind, lexeme: s.subrange(0, len), line }],
                    spec_lexemes(
                        s.subrange(len, s.len() as int),
                        line + count_newlines(s.subrange(0, len)),
                    ),
                )
            },
            Lexeme::UnexpectedCharacter => spec_lexemes(s, line) == Err::<
                Seq<TokenView>,
                CompilationError,
            >(CompilationError::UnexpectedCharacter(decode_utf8(s)[0])),
            Lexeme::UnterminatedString => spec_lexemes(s, line) == Err::<
                Seq<TokenView>,
                CompilationError,
            >(CompilationError::UnterminatedString),
        },
{
    reveal(spec_lexemes);
    lemma_piece_len(s);
}

/// One turn of the scanner's loop: with `piece` scanned off `bytes`, what was
/// done and what is left still make up the lexemes of the whole.
proof fn lemma_scan_step(
    whole: Seq<u8>,
    done: Seq<TokenView>,
    bytes: Seq<u8>,
    line: int,
    piece: TokenView,
    len: int,
)
    requires
        spec_lexemes(whole, 1) == prefixed(done, spec_lexemes(bytes, line)),
        spec_scan_token(bytes) == (Lexeme::Piece { kind: piece.kind, len }),
        piece.kind != TokenType::Eof,
        piece.lexeme == bytes.subrange(0, len),
        piece.line == line,
    ensures
        0 < len <= bytes.len(),
        spec_lexemes(whole, 1) == prefixed(
            done.push(piece),
            spec_lexemes(
                bytes.subrange(len, bytes.len() as int),
                line + count_newlines(bytes.subrange(0, len)),
            ),
        ),
        significant(done.push(piece)) == if is_trivia(piece.kind) {
            significant(done)
        } else {
            significant(done).push(piece)
        },
        count_newlines(bytes) == count_newlines(bytes.subrange(0, len)) + count_newlines(
            bytes.subrange(len, bytes.len() as int),
        ),
{
    lemma_piece_len(bytes);
    lemma_lexemes_step(bytes, line);
    lemma_count_newlines_split(bytes, len);
    lemma_prefixed_push(
        done,
        piece,
        spec_lexemes(
            bytes.subrange(len, bytes.len() as int),
            line + count_newlines(bytes.subrange(0, len)),
        ),
    );
    lemma_significant_push(done, piece);
}

// ---------------------------------------------------------------------------
// The scanner
// ---------------------------------------------------------------------------

/// Scans the whole of `source_code`. Comments and whitespace leave no token.
pub fn scan_tokens<'source_code>(source_code: &'source_code str) -> (result: Result<
    Vec<Token<'source_code>>,
>)
    requires
        1 + count_newlines(source_code.spec_bytes()) <= u32::MAX,
    ensures
        scan_gives(source_code.spec_bytes(), result),
{
    let mut tokens: Vec<Token<'source_code>> = Vec::new();
    let mut src = source_code;
    let mut line: u32 = 1;
    let ghost whole = source_code.spec_bytes();
    let ghost mut done: Seq<TokenView> = Seq::empty();
    proof {
        lemma_prefixed_empty(spec_lexemes(whole, 1));
        reveal(significant);
        assert(token_views(tokens@) =~= significant(done));
    }
    loop
        invariant
            whole == source_code.spec_bytes(),
            line + count_newlines(src.spec_bytes()) <= u32::MAX,
            spec_lexemes(whole, 1) == prefixed(done, spec_lexemes(src.spec_bytes(), line as int)),
            token_views(tokens@) == significant(done),
        decreases src.spec_bytes().len(),
    {
        let ghost bytes = src.spec_bytes();
        let ghost before = tokens@;
        proof {
            lemma_piece_len(bytes);
            lemma_lexemes_step(bytes, line as int);
        }
        let scanned_token = scan_token(src, line);
        match scanned_token {
            Err(e) => {
                return Err(e);
            },
            Ok((token, next_src, next_line)) => {
                if token.type_ == TokenType::Eof {
                    proof {
                        assert(done + Seq::<TokenView>::empty() =~= done);
                    }
                    return Ok(tokens);
                }
                let ghost len = token.lexeme.spec_bytes().len() as int;
                proof {
                    lemma_scan_step(whole, done, bytes, line as int, token@, len);
                }
                if token.type_ != TokenType::Comment && token.type_ != TokenType::Whitespace {
                    tokens.push(token);
                    proof {
                        assert(token_views(tokens@) =~= token_views(before).push(token@));
                    }
                }
                proof {
                    done = done.push(token@);
                }
                src = next_src;
                line = next_line;
            },
        }
    }
}

/// Scans one lexeme off the start of `src`, which starts on line `line`.
/// Returns the token, the rest of the source, and the line the rest starts on.
pub fn scan_token<'source_code>(src: &'source_code str, line: u32) -> (result: Result<
    (Token<'source_code>, &'source_code str, u32),
>)
    requires
        line + count_newlines(src.spec_bytes()) <= u32::MAX,
    ensures
        match spec_scan_token(src.spec_bytes()) {
            Lexeme::Piece { kind, len } => result matches Ok(out) && scanned(
                src,
                line,
                kind,
                len,
                out,
            ),
            Lexeme::UnexpectedCharacter => result matches Err(e) && e
                == ErrorOrEarlyReturn::CompilationError(
                CompilationError::UnexpectedCharacter(decode_utf8(src.spec_bytes())[0]),
            ),
            Lexeme::UnterminatedString => result matches Err(e) && e
                == ErrorOrEarlyReturn::CompilationError(CompilationError::UnterminatedString),
        },
{
    broadcast use group_utf8_lib;

    let bytes = src.as_bytes();
    if bytes.len() == 0 {
        proof {
            assert(src.spec_bytes().subrange(0, 0) =~= Seq::<u8>::empty());
            assert(src.spec_bytes().subrange(0, 0) =~= src.spec_bytes());
        }
        return Ok((Token::new(TokenType::Eof, src, line), src, line));
    }
    let first = bytes[0];
    if let Some(kind) = punctuation(first) {
        return Ok(fixed(src, kind, 1, line));
    }
    if let Some((alone, paired)) = operator(first) {
        if bytes.len() > 1 && bytes[1] == EQUAL {
            return Ok(fixed(src, paired, 2, line));
        }
        return Ok(fixed(src, alone, 1, line));
    }
    if first == SLASH {
        if bytes.len() > 1 && bytes[1] == SLASH {
            return Ok(comment(src, line));
        }
        return Ok(fixed(src, TokenType::Slash, 1, line));
    }
    if first == QUOTE {
        string(src, line)
    } else if first >= DIGIT_0 && first <= DIGIT_9 {
        Ok(number(src, line))
    } else if is_alpha_byte(first) {
        Ok(identifier_or_keyword(src, line))
    } else {
        proof {
            reveal_with_fuel(encode_utf8, 1);
            assert(src@.len() > 0);
        }
        Err(ErrorOrEarlyReturn::CompilationError(CompilationError::UnexpectedCharacter(src.get_char(0))))
    }
}

/// Scans the comment at the start of `src`: through the next line feed, or to
/// the end of the source.
pub fn comment<'source_code>(src: &'source_code str, line: u32) -> (out: (
    Token<'source_code>,
    &'source_code str,
    u32,
))
    requires
        line + count_newlines(src.spec_bytes()) <= u32::MAX,
    ensures
        scanned(src, line, TokenType::Comment, comment_len(src.spec_bytes()), out),
{
    broadcast use group_utf8_lib;

    let bytes = src.as_bytes();
    let newline = find(bytes, LINE_FEED, 0);
    let ghost s = src.spec_bytes();
    proof {
        lemma_position_of(s, LINE_FEED, 0);
    }
    if newline < bytes.len() {
        proof {
            lemma_boundary_after_ascii(s, newline + 1);
            lemma_count_newlines_split(s, newline + 1);
            lemma_count_newlines_none(s.subrange(0, newline as int));
            assert(s.subrange(0, newline + 1).drop_last() =~= s.subrange(0, newline as int));
        }
        let (lexeme, rest) = src.split_at(newline + 1);
        (Token::new(TokenType::Comment, lexeme, line), rest, line + 1)
    } else {
        proof {
            lemma_count_newlines_none(s);
            assert(s.subrange(0, s.len() as int) =~= s);
        }
        let (lexeme, rest) = src.split_at(bytes.len());
        (Token::new(TokenType::Comment, lexeme, line), rest, line)
    }
}

/// Scans the string literal at the start of `src`, quotes included. A string
/// may run over several lines.
pub fn string<'source_code>(src: &'source_code str, line: u32) -> (result: Result<
    (Token<'source_code>, &'source_code str, u32),
>)
    requires
        src.spec_bytes().len() > 0,
        src.spec_bytes()[0] == QUOTE,
        line + count_newlines(src.spec_bytes()) <= u32::MAX,
    ensures
        ({
            let close = position_of(src.spec_bytes(), QUOTE, 1);
            if close < src.spec_bytes().len() {
                result matches Ok(out) && scanned(src, line, TokenType::String, close + 1, out)
            } else {
                result matches Err(e) && e == ErrorOrEarlyReturn::CompilationError(
                    CompilationError::UnterminatedString,
                )
            }
        }),
{
    broadcast use group_utf8_lib;

    let bytes = src.as_bytes();
    let close = find(bytes, QUOTE, 1);
    let ghost s = src.spec_bytes();
    proof {
        lemma_position_of(s, QUOTE, 1);
    }
    if close < bytes.len() {
        let end = close + 1;
        proof {
            lemma_boundary_after_ascii(s, end as int);
            lemma_count_newlines_split(s, end as int);
        }
        let new_lines = newlines_before(bytes, end);
        let (lexeme, rest) = src.split_at(end);
        Ok((Token::new(TokenType::String, lexeme, line), rest, line + new_lines))
    } else {
        Err(ErrorOrEarlyReturn::CompilationError(CompilationError::UnterminatedString))
    }
}

/// Scans the number at the start of `src`. A dot that no digit follows is not
/// part of the number.
pub fn number<'source_code>(src: &'source_code str, line: u32) -> (out: (
    Token<'source_code>,
    &'source_code str,
    u32,
))
    ensures
        scanned(src, line, TokenType::NumberLiteral, number_len(src.spec_bytes()), out),
{
    broadcast use group_utf8_lib;

    let bytes = src.as_bytes();
    let ghost s = src.spec_bytes();
    let whole = skip_digits(bytes, 0);
    proof {
        lemma_digits_end(s, 0);
    }
    let mut end = whole;
    if whole < bytes.len() && bytes[whole] == DOT {
        let fraction = skip_digits(bytes, whole + 1);
        proof {
            lemma_digits_end(s, whole + 1);
        }
        if fraction > whole + 1 {
            end = fraction;
        }
    }
    proof {
        if end > 0 {
            lemma_boundary_after_ascii(s, end as int);
        }
        assert forall|i: int| 0 <= i < end implies #[trigger] s.subrange(0, end as int)[i]
            != LINE_FEED by {
            assert(is_digit(s[i]) || s[i] == DOT);
        }
        lemma_count_newlines_none(s.subrange(0, end as int));
    }
    let (lexeme, rest) = src.split_at(end);
    (Token::new(TokenType::NumberLiteral, lexeme, line), rest, line)
}

/// Scans the word at the start of `src`: a keyword where it spells one, else
/// an identifier.
pub fn identifier_or_keyword<'source_code>(src: &'source_code str, line: u32) -> (out: (
    Token<'source_code>,
    &'source_code str,
    u32,
))
    requires
        src.spec_bytes().len() > 0,
        is_alphanumeric(src.spec_bytes()[0]),
    ensures
        scanned(
            src,
            line,
            spec_keyword(
                src.spec_bytes().subrange(0, identifier_end(src.spec_bytes(), 0)),
            ),
            identifier_end(src.spec_bytes(), 0),
            out,
        ),
{
    broadcast use group_utf8_lib;

    let bytes = src.as_bytes();
    let ghost s = src.spec_bytes();
    let mut end: usize = 0;
    while end < bytes.len() && is_alphanumeric_byte(bytes[end])
        invariant
            0 <= end <= bytes.len(),
            bytes@ == s,
            identifier_end(s, 0) == identifier_end(s, end as int),
        decreases bytes.len() - end,
    {
        end += 1;
    }
    proof {
        lemma_identifier_end(s, 0);
        lemma_boundary_after_ascii(s, end as int);
        assert forall|i: int| 0 <= i < end implies #[trigger] s.subrange(0, end as int)[i]
            != LINE_FEED by {
            assert(is_alphanumeric(s[i]));
        }
        lemma_count_newlines_none(s.subrange(0, end as int));
    }
    let (lexeme, rest) = src.split_at(end);
    let kind = keyword(lexeme.as_bytes());
    (Token::new(kind, lexeme, line), rest, line)
}

/// Scans a token of one or two ASCII bytes.
fn fixed<'source_code>(src: &'source_code str, kind: TokenType, len: usize, line: u32) -> (out: (
    Token<'source_code>,
    &'source_code str,
    u32,
))
    requires
        1 <= len <= 2,
        len <= src.spec_bytes().len(),
        forall|i: int| 0 <= i < len ==> #[trigger] src.spec_bytes()[i] < 0x80,
        line + count_newlines(src.spec_bytes()) <= u32::MAX,
    ensures
        scanned(src, line, kind, len as int, out),
{
    broadcast use group_utf8_lib;

    let ghost s = src.spec_bytes();
    proof {
        lemma_boundary_after_ascii(s, len as int);
        lemma_count_newlines_split(s, len as int);
    }
    let (lexeme, rest) = src.split_at(len);
    let new_lines = newlines_before(src.as_bytes(), len);
    (Token::new(kind, lexeme, line), rest, line + new_lines)
}

fn punctuation(b: u8) -> (kind: Option<TokenType>)
    ensures
        kind == spec_punctuation(b),
{
    if b == LEFT_PAREN {
        Some(TokenType::LeftParen)
    } else if b == RIGHT_PAREN {
        Some(TokenType::RightParen)
    } else if b == LEFT_BRACE {
        Some(TokenType::LeftBrace)
    } else if b == RIGHT_BRACE {
        Some(TokenType::RightBrace)
    } else if b == COMMA {
        Some(TokenType::Comma)
    } else if b == DOT {
        Some(TokenType::Dot)
    } else if b == MINUS {
        Some(TokenType::Minus)
    } else if b == PLUS {
        Some(TokenType::Plus)
    } else if b == SEMICOLON {
        Some(TokenType::Semicolon)
    } else if b == STAR {
        Some(TokenType::Star)
    } else if b == SPACE || b == TAB || b == CARRIAGE_RETURN || b == LINE_FEED {
        Some(TokenType::Whitespace)
    } else {
        None
    }
}

fn operator(b: u8) -> (kinds: Option<(TokenType, TokenType)>)
    ensures
        kinds == spec_operator(b),
{
    if b == BANG {
        Some((TokenType::Bang, TokenType::BangEqual))
    } else if b == EQUAL {
        Some((TokenType::Equal, TokenType::EqualEqual))
    } else if b == LESS {
        Some((TokenType::Less, TokenType::LessEqual))
    } else if b == GREATER {
        Some((TokenType::Greater, TokenType::GreaterEqual))
    } else {
        None
    }
}

fn is_alpha_byte(b: u8) -> (r: bool)
    ensures
        r == is_alpha(b),
{
    (b >= LOWER_A && b <= LOWER_Z) || (b >= UPPER_A && b <= UPPER_Z) || b == UNDERSCORE
}

fn is_alphanumeric_byte(b: u8) -> (r: bool)
    ensures
        r == is_alphanumeric(b),
{
    is_alpha_byte(b) || (b >= DIGIT_0 && b <= DIGIT_9)
}

fn keyword(word: &[u8]) -> (kind: TokenType)
    ensures
        kind == spec_keyword(word@),
{
    reveal(spec_keyword);
    if same_bytes(word, "and".as_bytes()) {
        TokenType::And
    } else if same_bytes(word, "class".as_bytes()) {
        TokenType::Class
    } else if same_bytes(word, "else".as_bytes()) {
        TokenType::Else
    } else if same_bytes(word, "false".as_bytes()) {
        TokenType::False
    } else if same_bytes(word, "for".as_bytes()) {
        TokenType::For
    } else if same_bytes(word, "fun".as_bytes()) {
        TokenType::Fun
    } else if same_bytes(word, "if".as_bytes()) {
        TokenType::If
    } else if same_bytes(word, "nil".as_bytes()) {
        TokenType::Nil
    } else if same_bytes(word, "or".as_bytes()) {
        TokenType::Or
    } else if same_bytes(word, "print".as_bytes()) {
        TokenType::Print
    } else if same_bytes(word, "return".as_bytes()) {
        TokenType::Return
    } else if same_bytes(word, "super".as_bytes()) {
        TokenType::Super
    } else if same_bytes(word, "this".as_bytes()) {
        TokenType::This
    } else if same_bytes(word, "true".as_bytes()) {
        TokenType::True
    } else if same_bytes(word, "var".as_bytes()) {
        TokenType::Var
    } else if same_bytes(word, "while".as_bytes()) {
        TokenType::While
    } else {
        TokenType::Identifier
    }
}

fn same_bytes(a: &[u8], b: &[u8]) -> (r: bool)
    ensures
        r == (a@ == b@),
{
    if a.len() != b.len() {
        return false;
    }
    let mut i: usize = 0;
    while i < a.len()
        invariant
            0 <= i <= a.len(),
            a.len() == b.len(),
            forall|j: int| 0 <= j < i ==> a[j] == b[j],
        decreases a.len() - i,
    {
        if a[i] != b[i] {
            return false;
        }
        i += 1;
    }
    assert(a@ =~= b@);
    true
}

fn find(bytes: &[u8], byte: u8, from: usize) -> (at: usize)
    requires
        from <= bytes.len(),
    ensures
        at == position_of(bytes@, byte, from as int),
        from <= at <= bytes.len(),
{
    let mut at = from;
    while at < bytes.len() && bytes[at] != byte
        invariant
            from <= at <= bytes.len(),
            position_of(bytes@, byte, from as int) == position_of(bytes@, byte, at as int),
        decreases bytes.len() - at,
    {
        at += 1;
    }
    at
}

fn skip_digits(bytes: &[u8], from: usize) -> (at: usize)
    requires
        from <= bytes.len(),
    ensures
        at == digits_end(bytes@, from as int),
        from <= at <= bytes.len(),
{
    let mut at = from;
    while at < bytes.len() && bytes[at] >= DIGIT_0 && bytes[at] <= DIGIT_9
        invariant
            from <= at <= bytes.len(),
            digits_end(bytes@, from as int) == digits_end(bytes@, at as int),
        decreases bytes.len() - at,
    {
        at += 1;
    }
    at
}

fn newlines_before(bytes: &[u8], end: usize) -> (count: u32)
    requires
        end <= bytes.len(),
        count_newlines(bytes@) <= u32::MAX,
    ensures
        count == count_newlines(bytes@.subrange(0, end as int)),
{
    let mut count: u32 = 0;
    let mut i: usize = 0;
    while i < end
        invariant
            0 <= i <= end <= bytes.len(),
            count == count_newlines(bytes@.subrange(0, i as int)),
            count_newlines(bytes@) <= u32::MAX,
        decreases end - i,
    {
        proof {
            assert(bytes@.subrange(0, i + 1).drop_last() =~= bytes@.subrange(0, i as int));
            lemma_count_newlines_split(bytes@, i + 1);
        }
        if bytes[i] == LINE_FEED {
            count += 1;
        }
        i += 1;
    }
    count
}

/// Whether the lines of `src`, counted from `line`, fit the line counter:
/// what `scan_tokens` and its helpers ask of their input.
pub fn lines_fit(src: &str, line: u32) -> (r: bool)
    ensures
        r == (line + count_newlines(src.spec_bytes()) <= u32::MAX),
{
    let bytes = src.as_bytes();
    let mut count: usize = 0;
    let mut i: usize = 0;
    while i < bytes.len()
        invariant
            0 <= i <= bytes.len(),
            count <= i,
            count == count_newlines(bytes@.subrange(0, i as int)),
        decreases bytes.len() - i,
    {
        proof {
            assert(bytes@.subrange(0, i + 1).drop_last() =~= bytes@.subrange(0, i as int));
        }
        if bytes[i] == LINE_FEED {
            count += 1;
        }
        i += 1;
    }
    proof {
        assert(bytes@.subrange(0, bytes.len() as int) =~= bytes@);
    }
    count <= (u32::MAX - line) as usize
}

} // verus!
