//! Lexical analyzer: turns a byte sequence into tokens, one call at a time.
//!
//! The behaviour is pinned by a small spec-level scanner over the byte
//! sequence: `lex_token_at` says which token starts at a position and where
//! the next one begins, and `token_seq` is the whole stream up to `Eof`.
use crate::strfmt::push_char;
use crate::strfmt::str_eq;
use vstd::prelude::*;
use vstd::slice::slice_to_vec;
use vstd::string::*;

verus! {

/// One lexical unit of the source language.
#[derive(Debug, Clone, PartialEq, Eq, Hash)]
pub enum Token {
    Illegal(char),
    Eof,
    // Identifiers + literals
    Identifier(String),
    Integer(i64),
    /// The raw lexeme; turning it into a number is the parser's business.
    Float(String),
    String(String),
    // Keywords
    Let,
    Mut,
    If,
    Else,
    Loop,
    While,
    For,
    Fn,
    Return,
    True,
    False,
    Print,
    Println,
    Break,
    Continue,
    // Operators
    Assign,
    Plus,
    Minus,
    Multiply,
    Divide,
    Modulo,
    Bang,
    Eq,
    NotEq,
    Lt,
    Lte,
    Gt,
    Gte,
    And,
    Or,
    // Delimiters
    Comma,
    Semicolon,
    Colon,
    LParen,
    RParen,
    LBrace,
    RBrace,
}

/// The mathematical value of a token: the same tags, with text as `Seq<char>`.
pub enum TokenV {
    Illegal(char),
    Eof,
    Identifier(Seq<char>),
    Integer(i64),
    Float(Seq<char>),
    String(Seq<char>),
    Let,
    Mut,
    If,
    Else,
    Loop,
    While,
    For,
    Fn,
    Return,
    True,
    False,
    Print,
    Println,
    Break,
    Continue,
    Assign,
    Plus,
    Minus,
    Multiply,
    Divide,
    Modulo,
    Bang,
    Eq,
    NotEq,
    Lt,
    Lte,
    Gt,
    Gte,
    And,
    Or,
    Comma,
    Semicolon,
    Colon,
    LParen,
    RParen,
    LBrace,
    RBrace,
}

impl View for Token {
    type V = TokenV;

    open spec fn view(&self) -> TokenV {
        match self {
            Token::Illegal(c) => TokenV::Illegal(*c),
            Token::Eof => TokenV::Eof,
            Token::Identifier(s) => TokenV::Identifier(s@),
            Token::Integer(v) => TokenV::Integer(*v),
            Token::Float(s) => TokenV::Float(s@),
            Token::String(s) => TokenV::String(s@),
            Token::Let => TokenV::Let,
            Token::Mut => TokenV::Mut,
            Token::If => TokenV::If,
            Token::Else => TokenV::Else,
            Token::Loop => TokenV::Loop,
            Token::While => TokenV::While,
            Token::For => TokenV::For,
            Token::Fn => TokenV::Fn,
            Token::Return => TokenV::Return,
            Token::True => TokenV::True,
            Token::False => TokenV::False,
            Token::Print => TokenV::Print,
            Token::Println => TokenV::Println,
            Token::Break => TokenV::Break,
            Token::Continue => TokenV::Continue,
            Token::Assign => TokenV::Assign,
            Token::Plus => TokenV::Plus,
            Token::Minus => TokenV::Minus,
            Token::Multiply => TokenV::Multiply,
            Token::Divide => TokenV::Divide,
            Token::Modulo => TokenV::Modulo,
            Token::Bang => TokenV::Bang,
            Token::Eq => TokenV::Eq,
            Token::NotEq => TokenV::NotEq,
            Token::Lt => TokenV::Lt,
            Token::Lte => TokenV::Lte,
            Token::Gt => TokenV::Gt,
            Token::Gte => TokenV::Gte,
            Token::And => TokenV::And,
            Token::Or => TokenV::Or,
            Token::Comma => TokenV::Comma,
            Token::Semicolon => TokenV::Semicolon,
            Token::Colon => TokenV::Colon,
            Token::LParen => TokenV::LParen,
            Token::RParen => TokenV::RParen,
            Token::LBrace => TokenV::LBrace,
            Token::RBrace => TokenV::RBrace,
        }
    }
}

/// The view of a whole token list.
pub open spec fn tokens_view(v: Seq<Token>) -> Seq<TokenV> {
    Seq::new(v.len(), |i: int| v[i]@)
}

// ---------------------------------------------------------------------------
// The spec-level scanner.
// ---------------------------------------------------------------------------

/// The byte at a position, with 0 standing for "past the end".
pub open spec fn byte_at(s: Seq<u8>, i: int) -> u8 {
    if 0 <= i < s.len() {
        s[i]
    } else {
        0
    }
}

pub open spec fn is_ws(b: u8) -> bool {
    b == 32 || b == 9 || b == 10 || b == 12 || b == 13
}

pub open spec fn is_digit(b: u8) -> bool {
    48 <= b <= 57
}

pub open spec fn is_letter(b: u8) -> bool {
    (65 <= b <= 90) || (97 <= b <= 122) || b == 95
}

pub open spec fn is_ident_char(b: u8) -> bool {
    is_letter(b) || is_digit(b)
}

/// First position at or after `i` that does not hold whitespace.
pub open spec fn skip_ws(s: Seq<u8>, i: int) -> int
    decreases s.len() - i,
{
    if i < s.len() && 0 <= i && is_ws(s[i]) {
        skip_ws(s, i + 1)
    } else {
        i
    }
}

/// Position of the next newline at or after `i` (or the end of input).
pub open spec fn scan_line_end(s: Seq<u8>, i: int) -> int
    decreases s.len() - i,
{
    if i < s.len() && 0 <= i && s[i] != 10 {
        scan_line_end(s, i + 1)
    } else {
        i
    }
}

/// Position just past the terminating `*/` at or after `i`, or the end of
/// input when the comment never closes.
pub open spec fn scan_block_end(s: Seq<u8>, i: int) -> int
    decreases s.len() - i,
{
    if i >= s.len() || i < 0 {
        s.len() as int
    } else if s[i] == 42 && byte_at(s, i + 1) == 47 {
        i + 2
    } else {
        scan_block_end(s, i + 1)
    }
}

proof fn lemma_skip_ws_bounds(s: Seq<u8>, i: int)
    ensures
        i <= skip_ws(s, i),
        i <= s.len() ==> skip_ws(s, i) <= s.len(),
    decreases s.len() - i,
{
    if i < s.len() && 0 <= i && is_ws(s[i]) {
        lemma_skip_ws_bounds(s, i + 1);
    }
}

proof fn lemma_scan_line_end_bounds(s: Seq<u8>, i: int)
    ensures
        i <= scan_line_end(s, i),
        i <= s.len() ==> scan_line_end(s, i) <= s.len(),
    decreases s.len() - i,
{
    if i < s.len() && 0 <= i && s[i] != 10 {
        lemma_scan_line_end_bounds(s, i + 1);
    }
}

proof fn lemma_scan_block_end_bounds(s: Seq<u8>, i: int)
    requires
        0 <= i <= s.len(),
    ensures
        i <= scan_block_end(s, i),
        scan_block_end(s, i) <= s.len(),
    decreases s.len() - i,
{
    if i >= s.len() {
    } else if s[i] == 42 && byte_at(s, i + 1) == 47 {
    } else {
        lemma_scan_block_end_bounds(s, i + 1);
    }
}

/// Whether a comment starts at position `i`.
pub open spec fn line_comment_at(s: Seq<u8>, i: int) -> bool {
    byte_at(s, i) == 47 && byte_at(s, i + 1) == 47
}

pub open spec fn block_comment_at(s: Seq<u8>, i: int) -> bool {
    byte_at(s, i) == 47 && byte_at(s, i + 1) == 42
}

/// Position of the first byte after `i` that belongs to a token: whitespace
/// and comments are passed over, in alternation, until neither is next.
pub open spec fn skip_trivia(s: Seq<u8>, i: int) -> int
    decreases s.len() - i,
        via skip_trivia_decreases
{
    let j = skip_ws(s, i);
    if line_comment_at(s, j) {
        skip_trivia(s, scan_line_end(s, j))
    } else if block_comment_at(s, j) {
        skip_trivia(s, scan_block_end(s, j + 2))
    } else {
        j
    }
}

#[via_fn]
proof fn skip_trivia_decreases(s: Seq<u8>, i: int) {
    let j = skip_ws(s, i);
    lemma_skip_ws_bounds(s, i);
    if line_comment_at(s, j) {
        assert(0 <= j < s.len());
        assert(scan_line_end(s, j) == scan_line_end(s, j + 1));
        lemma_scan_line_end_bounds(s, j + 1);
    } else if block_comment_at(s, j) {
        assert(0 <= j < s.len());
        assert(j + 1 < s.len());
        lemma_scan_block_end_bounds(s, j + 2);
    }
}

proof fn lemma_skip_trivia_bounds(s: Seq<u8>, i: int)
    ensures
        i <= skip_trivia(s, i),
        i <= s.len() ==> skip_trivia(s, i) <= s.len(),
    decreases s.len() - i,
{
    let j = skip_ws(s, i);
    lemma_skip_ws_bounds(s, i);
    if line_comment_at(s, j) {
        assert(scan_line_end(s, j) == scan_line_end(s, j + 1));
        lemma_scan_line_end_bounds(s, j + 1);
        lemma_skip_trivia_bounds(s, scan_line_end(s, j));
    } else if block_comment_at(s, j) {
        assert(j + 1 < s.len());
        lemma_scan_block_end_bounds(s, j + 2);
        lemma_skip_trivia_bounds(s, scan_block_end(s, j + 2));
    }
}

/// End of the identifier that starts at `i`.
pub open spec fn scan_ident_end(s: Seq<u8>, i: int) -> int
    decreases s.len() - i,
{
    if i < s.len() && 0 <= i && is_ident_char(s[i]) {
        scan_ident_end(s, i + 1)
    } else {
        i
    }
}

/// End of the digit run that starts at `i`.
pub open spec fn scan_digits_end(s: Seq<u8>, i: int) -> int
    decreases s.len() - i,
{
    if i < s.len() && 0 <= i && is_digit(s[i]) {
        scan_digits_end(s, i + 1)
    } else {
        i
    }
}

proof fn lemma_scan_ident_end_bounds(s: Seq<u8>, i: int)
    ensures
        i <= scan_ident_end(s, i),
        i <= s.len() ==> scan_ident_end(s, i) <= s.len(),
    decreases s.len() - i,
{
    if i < s.len() && 0 <= i && is_ident_char(s[i]) {
        lemma_scan_ident_end_bounds(s, i + 1);
    }
}

proof fn lemma_scan_digits_end_bounds(s: Seq<u8>, i: int)
    ensures
        i <= scan_digits_end(s, i),
        i <= s.len() ==> scan_digits_end(s, i) <= s.len(),
    decreases s.len() - i,
{
    if i < s.len() && 0 <= i && is_digit(s[i]) {
        lemma_scan_digits_end_bounds(s, i + 1);
    }
}

/// The bytes of `s` in `[from, to)`, read as characters.
pub open spec fn chars_of(s: Seq<u8>, from: int, to: int) -> Seq<char> {
    Seq::new(if to >= from { (to - from) as nat } else { 0 }, |k: int| s[from + k] as char)
}

/// The numeric value of the digit run in `[from, to)`.
pub open spec fn digits_val(s: Seq<u8>, from: int, to: int) -> int
    decreases to - from,
{
    if to <= from {
        0
    } else {
        digits_val(s, from, to - 1) * 10 + (byte_at(s, to - 1) - 48)
    }
}

/// Which token a word of identifier characters denotes: one of the reserved
/// words, or an `Identifier` carrying the word itself.
pub open spec fn ident_token(w: Seq<char>) -> TokenV {
    if w == "let"@ {
        TokenV::Let
    } else if w == "mut"@ {
        TokenV::Mut
    } else if w == "if"@ {
        TokenV::If
    } else if w == "else"@ {
        TokenV::Else
    } else if w == "loop"@ {
        TokenV::Loop
    } else if w == "while"@ {
        TokenV::While
    } else if w == "for"@ {
        TokenV::For
    } else if w == "fn"@ {
        TokenV::Fn
    } else if w == "return"@ {
        TokenV::Return
    } else if w == "true"@ {
        TokenV::True
    } else if w == "false"@ {
        TokenV::False
    } else if w == "print"@ {
        TokenV::Print
    } else if w == "println"@ {
        TokenV::Println
    } else if w == "break"@ {
        TokenV::Break
    } else if w == "continue"@ {
        TokenV::Continue
    } else {
        TokenV::Identifier(w)
    }
}

/// The reserved words of the language.
pub open spec fn is_reserved_word(w: Seq<char>) -> bool {
    ||| w == "let"@
    ||| w == "mut"@
    ||| w == "if"@
    ||| w == "else"@
    ||| w == "loop"@
    ||| w == "while"@
    ||| w == "for"@
    ||| w == "fn"@
    ||| w == "return"@
    ||| w == "true"@
    ||| w == "false"@
    ||| w == "print"@
    ||| w == "println"@
    ||| w == "break"@
    ||| w == "continue"@
}

/// No reserved word is ever lexed as an identifier: the word-to-token map
/// sends a reserved word to its keyword token and nothing else to one.
pub proof fn lemma_keyword_identifier_disjoint(w: Seq<char>)
    ensures
        is_reserved_word(w) ==> !(ident_token(w) is Identifier),
        !is_reserved_word(w) ==> ident_token(w) == TokenV::Identifier(w),
{
}

/// The number token that starts at `i` (a digit): an integer, or a float when
/// a dot with a digit after it follows the first digit run.  A digit run
/// whose value does not fit a signed 64-bit integer yields `Integer(0)`.
pub open spec fn number_token(s: Seq<u8>, i: int) -> (TokenV, int) {
    let d1 = scan_digits_end(s, i);
    if byte_at(s, d1) == 46 && is_digit(byte_at(s, d1 + 1)) {
        let d2 = scan_digits_end(s, d1 + 1);
        (TokenV::Float(chars_of(s, i, d2)), d2)
    } else {
        let v = digits_val(s, i, d1);
        (TokenV::Integer(if 0 <= v <= i64::MAX { v as i64 } else { 0 }), d1)
    }
}

/// What a backslash escape inside a string literal stands for.
pub open spec fn unescaped_char(b: u8) -> char {
    if b == 110 {
        '\n'
    } else if b == 116 {
        '\t'
    } else if b == 92 {
        '\\'
    } else if b == 34 {
        '"'
    } else {
        b as char
    }
}

/// Scans a string literal's body from `i`, with `acc` the characters read so
/// far.  Yields the content and the position after the closing quote, or
/// `None` (at the end of input) when the literal never closes.
pub open spec fn scan_string_body(s: Seq<u8>, i: int, acc: Seq<char>) -> (Option<Seq<char>>, int)
    decreases s.len() - i,
{
    if i >= s.len() || i < 0 {
        (None::<Seq<char>>, s.len() as int)
    } else if s[i] == 34 {
        (Some(acc), i + 1)
    } else if s[i] == 92 {
        if i + 1 >= s.len() {
            (None::<Seq<char>>, s.len() as int)
        } else {
            scan_string_body(s, i + 2, acc.push(unescaped_char(s[i + 1])))
        }
    } else {
        scan_string_body(s, i + 1, acc.push(s[i] as char))
    }
}

proof fn lemma_scan_string_body_bounds(s: Seq<u8>, i: int, acc: Seq<char>)
    requires
        0 <= i <= s.len(),
    ensures
        i <= scan_string_body(s, i, acc).1,
        scan_string_body(s, i, acc).1 <= s.len(),
    decreases s.len() - i,
{
    if i >= s.len() {
    } else if s[i] == 34 {
    } else if s[i] == 92 {
        if i + 1 < s.len() {
            lemma_scan_string_body_bounds(s, i + 2, acc.push(unescaped_char(s[i + 1])));
        }
    } else {
        lemma_scan_string_body_bounds(s, i + 1, acc.push(s[i] as char));
    }
}

/// The token that starts at position `pos` (trivia is passed over first) and
/// the position of whatever follows it.
pub open spec fn lex_token_at(s: Seq<u8>, pos: int) -> (TokenV, int) {
    let i = skip_trivia(s, pos);
    let b = byte_at(s, i);
    if b == 0 {
        (TokenV::Eof, i)
    } else if b == 61 {  // '='
        if byte_at(s, i + 1) == 61 {
            (TokenV::Eq, i + 2)
        } else {
            (TokenV::Assign, i + 1)
        }
    } else if b == 43 {  // '+'
        (TokenV::Plus, i + 1)
    } else if b == 45 {  // '-'
        (TokenV::Minus, i + 1)
    } else if b == 33 {  // '!'
        if byte_at(s, i + 1) == 61 {
            (TokenV::NotEq, i + 2)
        } else {
            (TokenV::Bang, i + 1)
        }
    } else if b == 42 {  // '*'
        (TokenV::Multiply, i + 1)
    } else if b == 47 {  // '/'
        (TokenV::Divide, i + 1)
    } else if b == 37 {  // '%'
        (TokenV::Modulo, i + 1)
    } else if b == 60 {  // '<'
        if byte_at(s, i + 1) == 61 {
            (TokenV::Lte, i + 2)
        } else {
            (TokenV::Lt, i + 1)
        }
    } else if b == 62 {  // '>'
        if byte_at(s, i + 1) == 61 {
            (TokenV::Gte, i + 2)
        } else {
            (TokenV::Gt, i + 1)
        }
    } else if b == 38 {  // '&'
        if byte_at(s, i + 1) == 38 {
            (TokenV::And, i + 2)
        } else {
            (TokenV::Illegal('&'), i + 1)
        }
    } else if b == 124 {  // '|'
        if byte_at(s, i + 1) == 124 {
            (TokenV::Or, i + 2)
        } else {
            (TokenV::Illegal('|'), i + 1)
        }
    } else if b == 44 {  // ','
        (TokenV::Comma, i + 1)
    } else if b == 59 {  // ';'
        (TokenV::Semicolon, i + 1)
    } else if b == 58 {  // ':'
        (TokenV::Colon, i + 1)
    } else if b == 40 {  // '('
        (TokenV::LParen, i + 1)
    } else if b == 41 {  // ')'
        (TokenV::RParen, i + 1)
    } else if b == 123 {  // '{'
        (TokenV::LBrace, i + 1)
    } else if b == 125 {  // '}'
        (TokenV::RBrace, i + 1)
    } else if b == 34 {  // '"'
        let (content, end) = scan_string_body(s, i + 1, Seq::<char>::empty());
        match content {
            Some(text) => (TokenV::String(text), end),
            None => (TokenV::Illegal('"'), end),
        }
    } else if is_letter(b) {
        let end = scan_ident_end(s, i);
        (ident_token(chars_of(s, i, end)), end)
    } else if is_digit(b) {
        number_token(s, i)
    } else {
        (TokenV::Illegal(b as char), i + 1)
    }
}

/// The scanner only moves forward, and it stands still only on `Eof`: from
/// any position the next token ends past where it began unless it is `Eof`.
pub proof fn lemma_lex_progress(s: Seq<u8>, pos: int)
    requires
        0 <= pos <= s.len(),
    ensures
        pos <= lex_token_at(s, pos).1 <= s.len(),
        !(lex_token_at(s, pos).0 is Eof) ==> lex_token_at(s, pos).1 > pos,
{
    let i = skip_trivia(s, pos);
    lemma_skip_trivia_bounds(s, pos);
    let b = byte_at(s, i);
    if b == 0 {
    } else {
        assert(0 <= i < s.len());
        if b == 34 {
            lemma_scan_string_body_bounds(s, i + 1, Seq::<char>::empty());
        } else if is_letter(b) {
            assert(scan_ident_end(s, i) == scan_ident_end(s, i + 1));
            lemma_scan_ident_end_bounds(s, i + 1);
        } else if is_digit(b) {
            assert(scan_digits_end(s, i) == scan_digits_end(s, i + 1));
            lemma_scan_digits_end_bounds(s, i + 1);
            let d1 = scan_digits_end(s, i);
            if byte_at(s, d1) == 46 && is_digit(byte_at(s, d1 + 1)) {
                assert(byte_at(s, d1 + 1) != 0);
                assert(d1 + 1 < s.len());
                lemma_scan_digits_end_bounds(s, d1 + 1);
            }
        }
    }
}

/// The whole token stream from `pos`: every token up to and including the
/// first `Eof`.
pub open spec fn token_seq(s: Seq<u8>, pos: int) -> Seq<TokenV>
    decreases s.len() - pos,
        via token_seq_decreases
{
    if !(0 <= pos <= s.len()) {
        seq![TokenV::Eof]
    } else {
        let (t, next) = lex_token_at(s, pos);
        if t is Eof {
            seq![t]
        } else {
            seq![t] + token_seq(s, next)
        }
    }
}

#[via_fn]
proof fn token_seq_decreases(s: Seq<u8>, pos: int) {
    if 0 <= pos <= s.len() {
        lemma_lex_progress(s, pos);
    }
}

/// Tokenization is total: from any position the stream is finite, it ends in
/// `Eof`, and `Eof` stands nowhere else in it.
pub proof fn lemma_tokenization_total(s: Seq<u8>, pos: int)
    ensures
        token_seq(s, pos).len() >= 1,
        token_seq(s, pos).last() is Eof,
        forall|k: int|
            0 <= k < token_seq(s, pos).len() - 1 ==> !(#[trigger] token_seq(s, pos)[k] is Eof),
    decreases s.len() - pos,
{
    if !(0 <= pos <= s.len()) {
    } else {
        let (t, next) = lex_token_at(s, pos);
        if t is Eof {
        } else {
            lemma_lex_progress(s, pos);
            lemma_tokenization_total(s, next);
        }
    }
}

/// A well-formed lexer's cursor lies inside its input.
pub proof fn lemma_wf_bounds(l: &Lexer)
    requires
        l.wf(),
    ensures
        0 <= l.pos() <= l.bytes().len(),
{
}

// ---------------------------------------------------------------------------
// The executable lexer.
// ---------------------------------------------------------------------------

fn is_ws_byte(b: u8) -> (r: bool)
    ensures
        r == is_ws(b),
{
    b == 32 || b == 9 || b == 10 || b == 12 || b == 13
}

fn is_digit_byte(b: u8) -> (r: bool)
    ensures
        r == is_digit(b),
{
    48 <= b && b <= 57
}

fn is_letter_byte(b: u8) -> (r: bool)
    ensures
        r == is_letter(b),
{
    (65 <= b && b <= 90) || (97 <= b && b <= 122) || b == 95
}

fn is_ident_char_byte(b: u8) -> (r: bool)
    ensures
        r == is_ident_char(b),
{
    is_letter_byte(b) || is_digit_byte(b)
}

/// The lexer: the input bytes and a cursor.  `next_token` hands out the token
/// at the cursor and moves the cursor past it.
#[derive(Debug)]
pub struct Lexer {
    input: Vec<u8>,
    position: usize,
}

impl Lexer {
    /// The input bytes being lexed.
    pub closed spec fn bytes(&self) -> Seq<u8> {
        self.input@
    }

    /// The cursor.
    pub closed spec fn pos(&self) -> int {
        self.position as int
    }

    /// The cursor never leaves the input.
    pub closed spec fn wf(&self) -> bool {
        self.position <= self.input.len()
    }

    pub fn new(input: &str) -> (l: Lexer)
        ensures
            l.wf(),
            l.bytes() == input.spec_bytes(),
            l.pos() == 0,
    {
        Lexer { input: slice_to_vec(input.as_bytes()), position: 0 }
    }

    /// The byte at `i`, with 0 for "past the end".
    fn byte(&self, i: usize) -> (b: u8)
        ensures
            b == byte_at(self.bytes(), i as int),
    {
        if i < self.input.len() {
            self.input[i]
        } else {
            0
        }
    }

    fn skip_whitespace(&mut self)
        requires
            old(self).wf(),
        ensures
            final(self).wf(),
            final(self).bytes() == old(self).bytes(),
            final(self).pos() == skip_ws(old(self).bytes(), old(self).pos()),
    {
        while self.position < self.input.len() && is_ws_byte(self.input[self.position])
            invariant
                self.wf(),
                self.bytes() == old(self).bytes(),
                skip_ws(self.bytes(), self.pos()) == skip_ws(old(self).bytes(), old(self).pos()),
            decreases self.input.len() - self.position,
        {
            self.position = self.position + 1;
        }
    }

    fn scan_line_comment(&mut self)
        requires
            old(self).wf(),
        ensures
            final(self).wf(),
            final(self).bytes() == old(self).bytes(),
            final(self).pos() == scan_line_end(old(self).bytes(), old(self).pos()),
    {
        while self.position < self.input.len() && self.input[self.position] != 10
            invariant
                self.wf(),
                self.bytes() == old(self).bytes(),
                scan_line_end(self.bytes(), self.pos()) == scan_line_end(
                    old(self).bytes(),
                    old(self).pos(),
                ),
            decreases self.input.len() - self.position,
        {
            self.position = self.position + 1;
        }
    }

    fn scan_block_comment(&mut self)
        requires
            old(self).wf(),
        ensures
            final(self).wf(),
            final(self).bytes() == old(self).bytes(),
            final(self).pos() == scan_block_end(old(self).bytes(), old(self).pos()),
    {
        loop
            invariant_except_break
                scan_block_end(self.bytes(), self.pos()) == scan_block_end(
                    old(self).bytes(),
                    old(self).pos(),
                ),
            invariant
                self.wf(),
                self.bytes() == old(self).bytes(),
            ensures
                self.wf(),
                self.bytes() == old(self).bytes(),
                self.pos() == scan_block_end(old(self).bytes(), old(self).pos()),
            decreases self.input.len() - self.position,
        {
            if self.position >= self.input.len() {
                break ;
            }
            let b = self.input[self.position];
            if b == 42 && self.byte(self.position + 1) == 47 {
                self.position = self.position + 2;
                break ;
            }
            self.position = self.position + 1;
        }
    }

    fn skip_trivia_exec(&mut self)
        requires
            old(self).wf(),
        ensures
            final(self).wf(),
            final(self).bytes() == old(self).bytes(),
            final(self).pos() == skip_trivia(old(self).bytes(), old(self).pos()),
    {
        loop
            invariant_except_break
                skip_trivia(self.bytes(), self.pos()) == skip_trivia(
                    old(self).bytes(),
                    old(self).pos(),
                ),
            invariant
                self.wf(),
                self.bytes() == old(self).bytes(),
            ensures
                self.wf(),
                self.bytes() == old(self).bytes(),
                self.pos() == skip_trivia(old(self).bytes(), old(self).pos()),
            decreases self.input.len() - self.position,
        {
            let ghost before = self.pos();
            self.skip_whitespace();
            let c0 = self.byte(self.position);
            if c0 != 47 {
                proof {
                    lemma_skip_ws_bounds(self.bytes(), before);
                }
                break ;
            }
            let c1 = self.byte(self.position + 1);
            if c1 == 47 {
                self.scan_line_comment();
                proof {
                    lemma_skip_ws_bounds(self.bytes(), before);
                    assert(scan_line_end(self.bytes(), skip_ws(self.bytes(), before))
                        == scan_line_end(self.bytes(), skip_ws(self.bytes(), before) + 1));
                    lemma_scan_line_end_bounds(self.bytes(), skip_ws(self.bytes(), before) + 1);
                }
            } else if c1 == 42 {
                self.position = self.position + 2;
                self.scan_block_comment();
                proof {
                    lemma_skip_ws_bounds(self.bytes(), before);
                    lemma_scan_block_end_bounds(self.bytes(), skip_ws(self.bytes(), before) + 2);
                }
            } else {
                proof {
                    lemma_skip_ws_bounds(self.bytes(), before);
                }
                break ;
            }
        }
    }

    /// Builds the identifier that starts at the cursor and moves past it.
    fn read_identifier(&mut self) -> (name: String)
        requires
            old(self).wf(),
        ensures
            final(self).wf(),
            final(self).bytes() == old(self).bytes(),
            final(self).pos() == scan_ident_end(old(self).bytes(), old(self).pos()),
            name@ == chars_of(old(self).bytes(), old(self).pos(), final(self).pos()),
    {
        let ghost start = self.pos();
        let mut name = String::new();
        while self.position < self.input.len() && is_ident_char_byte(self.input[self.position])
            invariant
                self.wf(),
                self.bytes() == old(self).bytes(),
                start <= self.pos(),
                scan_ident_end(self.bytes(), self.pos()) == scan_ident_end(self.bytes(), start),
                name@ == chars_of(self.bytes(), start, self.pos()),
            decreases self.input.len() - self.position,
        {
            let b = self.input[self.position];
            push_char(&mut name, b as char);
            self.position = self.position + 1;
            proof {
                assert(name@ =~= chars_of(self.bytes(), start, self.pos()));
            }
        }
        name
    }

    /// Maps a word to its keyword token, or wraps it as an identifier.
    fn keyword_or_identifier(name: String) -> (t: Token)
        ensures
            t@ == ident_token(name@),
    {
        if str_eq(name.as_str(), "let") {
            Token::Let
        } else if str_eq(name.as_str(), "mut") {
            Token::Mut
        } else if str_eq(name.as_str(), "if") {
            Token::If
        } else if str_eq(name.as_str(), "else") {
            Token::Else
        } else if str_eq(name.as_str(), "loop") {
            Token::Loop
        } else if str_eq(name.as_str(), "while") {
            Token::While
        } else if str_eq(name.as_str(), "for") {
            Token::For
        } else if str_eq(name.as_str(), "fn") {
            Token::Fn
        } else if str_eq(name.as_str(), "return") {
            Token::Return
        } else if str_eq(name.as_str(), "true") {
            Token::True
        } else if str_eq(name.as_str(), "false") {
            Token::False
        } else if str_eq(name.as_str(), "print") {
            Token::Print
        } else if str_eq(name.as_str(), "println") {
            Token::Println
        } else if str_eq(name.as_str(), "break") {
            Token::Break
        } else if str_eq(name.as_str(), "continue") {
            Token::Continue
        } else {
            Token::Identifier(name)
        }
    }

    /// Reads the number that starts at the cursor: an `Integer`, or a `Float`
    /// carrying its raw lexeme.
    fn read_number(&mut self) -> (t: Token)
        requires
            old(self).wf(),
            is_digit(byte_at(old(self).bytes(), old(self).pos())),
        ensures
            final(self).wf(),
            final(self).bytes() == old(self).bytes(),
            t@ == number_token(old(self).bytes(), old(self).pos()).0,
            final(self).pos() == number_token(old(self).bytes(), old(self).pos()).1,
    {
        let ghost s = self.bytes();
        let ghost start = self.pos();
        let start_u: usize = self.position;
        let mut val: u64 = 0;
        let mut overflow: bool = false;
        while self.position < self.input.len() && is_digit_byte(self.input[self.position])
            invariant
                self.wf(),
                self.bytes() == s,
                start <= self.pos(),
                scan_digits_end(s, self.pos()) == scan_digits_end(s, start),
                !overflow ==> val == digits_val(s, start, self.pos()) && val <= i64::MAX,
                overflow ==> digits_val(s, start, self.pos()) > i64::MAX,
            decreases self.input.len() - self.position,
        {
            let b = self.input[self.position];
            let d: u64 = (b - 48) as u64;
            let ghost oldval = digits_val(s, start, self.pos());
            if !overflow {
                if val > (0x7fff_ffff_ffff_ffffu64 - d) / 10 {
                    overflow = true;
                    proof {
                        let m = 0x7fff_ffff_ffff_ffff as int;
                        let q = (m - d) / 10;
                        assert(oldval * 10 + d > m) by (nonlinear_arith)
                            requires
                                oldval > q,
                                q == (m - d) / 10,
                                0 <= d <= 9,
                                m == 0x7fff_ffff_ffff_ffff,
                        ;
                    }
                } else {
                    proof {
                        let m = 0x7fff_ffff_ffff_ffff as int;
                        let q = (m - d) / 10;
                        assert(oldval * 10 + d <= m) by (nonlinear_arith)
                            requires
                                oldval <= q,
                                q == (m - d) / 10,
                                0 <= d <= 9,
                                m == 0x7fff_ffff_ffff_ffff,
                        ;
                    }
                    val = val * 10 + d;
                }
            } else {
                proof {
                    assert(oldval * 10 + d > i64::MAX) by (nonlinear_arith)
                        requires
                            oldval > i64::MAX,
                            d >= 0,
                    ;
                }
            }
            self.position = self.position + 1;
            proof {
                assert(digits_val(s, start, self.pos()) == oldval * 10 + (byte_at(
                    s,
                    self.pos() - 1,
                ) - 48));
            }
        }
        let d1 = self.position;
        if self.byte(d1) == 46 && is_digit_byte(self.byte(d1 + 1)) {
            // A float: go back and collect the raw lexeme, dot included.
            let mut lexeme = String::new();
            let ghost mid = d1 + 1;
            self.position = self.position + 1;
            while self.position < self.input.len() && is_digit_byte(self.input[self.position])
                invariant
                    self.wf(),
                    self.bytes() == s,
                    mid <= self.pos(),
                    scan_digits_end(s, self.pos()) == scan_digits_end(s, mid),
                decreases self.input.len() - self.position,
            {
                self.position = self.position + 1;
            }
            let end = self.position;
            // Rebuild the raw lexeme, dot included, from the input bytes.
            proof {
                assert(start <= d1 < mid <= self.pos() <= s.len());
            }
            let mut p: usize = start_u;
            while p < end
                invariant
                    self.wf(),
                    self.bytes() == s,
                    start <= p as int <= end as int,
                    end as int <= s.len(),
                    lexeme@ == chars_of(s, start, p as int),
                decreases end - p,
            {
                let b = self.input[p];
                push_char(&mut lexeme, b as char);
                p = p + 1;
                proof {
                    assert(lexeme@ =~= chars_of(s, start, p as int));
                }
            }
            Token::Float(lexeme)
        } else {
            if overflow {
                Token::Integer(0)
            } else {
                Token::Integer(val as i64)
            }
        }
    }

    /// Reads the string literal whose opening quote is at the cursor;
    /// `None` means it never closes.
    fn read_string(&mut self) -> (r: Option<String>)
        requires
            old(self).wf(),
            byte_at(old(self).bytes(), old(self).pos()) == 34,
        ensures
            final(self).wf(),
            final(self).bytes() == old(self).bytes(),
            ({
                let (content, end) = scan_string_body(
                    old(self).bytes(),
                    old(self).pos() + 1,
                    Seq::<char>::empty(),
                );
                &&& final(self).pos() == end
                &&& match r {
                    Some(text) => content == Some(text@),
                    None => content is None,
                }
            }),
    {
        let ghost s = self.bytes();
        self.position = self.position + 1;
        let mut out = String::new();
        loop
            invariant
                old(self).wf(),
                byte_at(old(self).bytes(), old(self).pos()) == 34,
                self.wf(),
                self.bytes() == s,
                s == old(self).bytes(),
                scan_string_body(s, old(self).pos() + 1, Seq::<char>::empty())
                    == scan_string_body(s, self.pos(), out@),
            decreases self.input.len() - self.position,
        {
            if self.position >= self.input.len() {
                self.position = self.input.len();
                return None;
            }
            let b = self.input[self.position];
            if b == 34 {
                self.position = self.position + 1;
                return Some(out);
            }
            if b == 92 {
                if self.position + 1 >= self.input.len() {
                    self.position = self.input.len();
                    return None;
                }
                let e = self.input[self.position + 1];
                let c: char = if e == 110 {
                    '\n'
                } else if e == 116 {
                    '\t'
                } else if e == 92 {
                    '\\'
                } else if e == 34 {
                    '"'
                } else {
                    e as char
                };
                push_char(&mut out, c);
                self.position = self.position + 2;
            } else {
                push_char(&mut out, b as char);
                self.position = self.position + 1;
            }
        }
    }

    /// Hands out the next token and moves the cursor past it.  Past the end
    /// of input it keeps returning `Eof` without moving.
    pub fn next_token(&mut self) -> (t: Token)
        requires
            old(self).wf(),
        ensures
            final(self).wf(),
            final(self).bytes() == old(self).bytes(),
            t@ == lex_token_at(old(self).bytes(), old(self).pos()).0,
            final(self).pos() == lex_token_at(old(self).bytes(), old(self).pos()).1,
    {
        self.skip_trivia_exec();
        proof {
            lemma_skip_trivia_bounds(old(self).bytes(), old(self).pos());
        }
        let i = self.position;
        let b = self.byte(i);
        if b == 0 {
            Token::Eof
        } else if b == 61 {
            if self.byte(i + 1) == 61 {
                self.position = i + 2;
                Token::Eq
            } else {
                self.position = i + 1;
                Token::Assign
            }
        } else if b == 43 {
            self.position = i + 1;
            Token::Plus
        } else if b == 45 {
            self.position = i + 1;
            Token::Minus
        } else if b == 33 {
            if self.byte(i + 1) == 61 {
                self.position = i + 2;
                Token::NotEq
            } else {
                self.position = i + 1;
                Token::Bang
            }
        } else if b == 42 {
            self.position = i + 1;
            Token::Multiply
        } else if b == 47 {
            self.position = i + 1;
            Token::Divide
        } else if b == 37 {
            self.position = i + 1;
            Token::Modulo
        } else if b == 60 {
            if self.byte(i + 1) == 61 {
                self.position = i + 2;
                Token::Lte
            } else {
                self.position = i + 1;
                Token::Lt
            }
        } else if b == 62 {
            if self.byte(i + 1) == 61 {
                self.position = i + 2;
                Token::Gte
            } else {
                self.position = i + 1;
                Token::Gt
            }
        } else if b == 38 {
            if self.byte(i + 1) == 38 {
                self.position = i + 2;
                Token::And
            } else {
                self.position = i + 1;
                Token::Illegal('&')
            }
        } else if b == 124 {
            if self.byte(i + 1) == 124 {
                self.position = i + 2;
                Token::Or
            } else {
                self.position = i + 1;
                Token::Illegal('|')
            }
        } else if b == 44 {
            self.position = i + 1;
            Token::Comma
        } else if b == 59 {
            self.position = i + 1;
            Token::Semicolon
        } else if b == 58 {
            self.position = i + 1;
            Token::Colon
        } else if b == 40 {
            self.position = i + 1;
            Token::LParen
        } else if b == 41 {
            self.position = i + 1;
            Token::RParen
        } else if b == 123 {
            self.position = i + 1;
            Token::LBrace
        } else if b == 125 {
            self.position = i + 1;
            Token::RBrace
        } else if b == 34 {
            match self.read_string() {
                Some(text) => Token::String(text),
                None => Token::Illegal('"'),
            }
        } else if (65 <= b && b <= 90) || (97 <= b && b <= 122) || b == 95 {
            let name = self.read_identifier();
            Self::keyword_or_identifier(name)
        } else if 48 <= b && b <= 57 {
            self.read_number()
        } else {
            self.position = i + 1;
            Token::Illegal(b as char)
        }
    }

    /// Whether the stream from `pos` holds an unterminated string literal,
    /// which is the one token that stops `tokenize` with an error.
    pub open spec fn has_unterminated_string(ts: Seq<TokenV>) -> bool {
        exists|k: int| 0 <= k < ts.len() && ts[k] == TokenV::Illegal('"')
    }

    /// Drains the stream: every remaining token through `Eof`, or the
    /// unterminated-string error exactly when such a literal is met first.
    pub fn tokenize(&mut self) -> (r: Result<Vec<Token>, String>)
        requires
            old(self).wf(),
        ensures
            final(self).wf(),
            final(self).bytes() == old(self).bytes(),
            ({
                let ts = token_seq(old(self).bytes(), old(self).pos());
                match r {
                    Ok(tokens) => tokens_view(tokens@) == ts && !Self::has_unterminated_string(ts),
                    Err(msg) => msg@ == "Unterminated string literal"@
                        && Self::has_unterminated_string(ts),
                }
            }),
    {
        let ghost s = self.bytes();
        let ghost p0 = self.pos();
        let mut tokens: Vec<Token> = Vec::new();
        loop
            invariant
                old(self).wf(),
                p0 == old(self).pos(),
                s == old(self).bytes(),
                self.wf(),
                self.bytes() == s,
                0 <= self.pos() <= s.len(),
                token_seq(s, p0) == tokens_view(tokens@) + token_seq(s, self.pos()),
                !Self::has_unterminated_string(tokens_view(tokens@)),
            decreases s.len() - self.pos(),
        {
            let ghost pcur = self.pos();
            proof {
                lemma_lex_progress(s, pcur);
            }
            let token = self.next_token();
            let is_eof = matches!(token, Token::Eof);
            if let Token::Illegal(c) = &token {
                if *c == '"' {
                    proof {
                        let ts = token_seq(s, p0);
                        let k = tokens_view(tokens@).len() as int;
                        assert(token_seq(s, pcur)[0] == TokenV::Illegal('"'));
                        assert(ts[k] == TokenV::Illegal('"'));
                    }
                    return Err(String::from_str("Unterminated string literal"));
                }
            }
            let ghost prev_views = tokens_view(tokens@);
            tokens.push(token);
            proof {
                assert(tokens_view(tokens@) =~= prev_views.push(lex_token_at(s, pcur).0));
                assert(token_seq(s, pcur) == seq![lex_token_at(s, pcur).0] + if lex_token_at(
                    s,
                    pcur,
                ).0 is Eof {
                    Seq::<TokenV>::empty()
                } else {
                    token_seq(s, lex_token_at(s, pcur).1)
                });
                assert(token_seq(s, p0) =~= tokens_view(tokens@) + if lex_token_at(
                    s,
                    pcur,
                ).0 is Eof {
                    Seq::<TokenV>::empty()
                } else {
                    token_seq(s, lex_token_at(s, pcur).1)
                });
            }
            if is_eof {
                proof {
                    assert(token_seq(s, p0) =~= tokens_view(tokens@));
                }
                return Ok(tokens);
            }
        }
    }
}

} // verus!
