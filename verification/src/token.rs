//! Tokens produced by the lexer, their lexical errors, and the character
//! classes of the language, together with the ghost views the contracts
//! speak about.

use vstd::prelude::*;

verus! {

/// Ghost counterpart of [`Token`]: carried texts become `Seq<char>`.
pub enum TokenView {
    Def,
    Extern,
    Delimiter,
    OpeningParenthesis,
    ClosingParenthesis,
    Comma,
    BinOp(char),
    Identifier(Seq<char>),
    Number(Seq<char>),
    EndOfInput,
}

/// An atomic lexical unit. A `Number` carries the literal text it was
/// scanned from (a run of digits with at most one `.`); turning that text
/// into a machine float is left to the caller, outside this crate's logic.
#[derive(Debug, Clone, PartialEq)]
pub enum Token {
    Def,
    Extern,
    /// The `;` character.
    Delimiter,
    OpeningParenthesis,
    ClosingParenthesis,
    Comma,
    /// A binary operator, carrying its literal character.
    BinOp(char),
    Identifier(String),
    Number(String),
    /// Explicit end-of-input marker, so the parser's lookahead stays uniform.
    EndOfInput,
}

impl Token {
    /// An equal token, copying the carried text.
    pub fn duplicate(&self) -> (r: Token)
        ensures
            r@ == self@,
    {
        match self {
            Token::Def => Token::Def,
            Token::Extern => Token::Extern,
            Token::Delimiter => Token::Delimiter,
            Token::OpeningParenthesis => Token::OpeningParenthesis,
            Token::ClosingParenthesis => Token::ClosingParenthesis,
            Token::Comma => Token::Comma,
            Token::BinOp(c) => Token::BinOp(*c),
            Token::Identifier(s) => Token::Identifier(s.clone()),
            Token::Number(s) => Token::Number(s.clone()),
            Token::EndOfInput => Token::EndOfInput,
        }
    }
}

impl View for Token {
    type V = TokenView;

    open spec fn view(&self) -> TokenView {
        match self {
            Token::Def => TokenView::Def,
            Token::Extern => TokenView::Extern,
            Token::Delimiter => TokenView::Delimiter,
            Token::OpeningParenthesis => TokenView::OpeningParenthesis,
            Token::ClosingParenthesis => TokenView::ClosingParenthesis,
            Token::Comma => TokenView::Comma,
            Token::BinOp(c) => TokenView::BinOp(*c),
            Token::Identifier(s) => TokenView::Identifier(s@),
            Token::Number(s) => TokenView::Number(s@),
            Token::EndOfInput => TokenView::EndOfInput,
        }
    }
}

/// Ghost counterpart of [`LexerError`].
pub enum LexErrorView {
    MalformedNumber(Seq<char>),
    UnrecognizedCharacter(char),
}

/// A per-token lexical error. The lexer always consumes at least the
/// offending character before returning one, so a caller that ignores the
/// error and asks again makes forward progress.
#[derive(Debug, Clone, PartialEq)]
pub enum LexerError {
    /// A run of digits and dots that is not a valid numeric literal,
    /// carrying exactly the text that was scanned.
    MalformedNumber(String),
    UnrecognizedCharacter(char),
}

impl View for LexerError {
    type V = LexErrorView;

    open spec fn view(&self) -> LexErrorView {
        match self {
            LexerError::MalformedNumber(s) => LexErrorView::MalformedNumber(s@),
            LexerError::UnrecognizedCharacter(c) => LexErrorView::UnrecognizedCharacter(*c),
        }
    }
}

/// Whitespace that the lexer skips.
pub open spec fn is_space_char(c: char) -> bool {
    c == ' ' || c == '\t' || c == '\r' || c == '\n'
}

/// Decimal digits.
pub open spec fn is_digit_char(c: char) -> bool {
    '0' <= c <= '9'
}

/// Letters, which may start an identifier.
pub open spec fn is_letter_char(c: char) -> bool {
    ('a' <= c <= 'z') || ('A' <= c <= 'Z')
}

/// Characters that may continue an identifier.
pub open spec fn is_word_char(c: char) -> bool {
    is_letter_char(c) || is_digit_char(c)
}

/// Characters that may appear in a numeric literal's scanned run.
pub open spec fn is_number_char(c: char) -> bool {
    is_digit_char(c) || c == '.'
}

/// Executable whitespace test.
pub fn is_space(c: char) -> (r: bool)
    ensures
        r == is_space_char(c),
{
    c == ' ' || c == '\t' || c == '\r' || c == '\n'
}

/// Executable digit test.
pub fn is_digit(c: char) -> (r: bool)
    ensures
        r == is_digit_char(c),
{
    '0' <= c && c <= '9'
}

/// Executable letter test.
pub fn is_letter(c: char) -> (r: bool)
    ensures
        r == is_letter_char(c),
{
    ('a' <= c && c <= 'z') || ('A' <= c && c <= 'Z')
}

/// Executable identifier-continuation test.
pub fn is_word(c: char) -> (r: bool)
    ensures
        r == is_word_char(c),
{
    is_letter(c) || is_digit(c)
}

/// Executable numeric-run test.
pub fn is_number(c: char) -> (r: bool)
    ensures
        r == is_number_char(c),
{
    is_digit(c) || c == '.'
}

} // verus!
