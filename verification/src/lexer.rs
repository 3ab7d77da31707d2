//! The lexer: turns the characters of an [`Input`] into [`Token`]s, one per
//! request.
//!
//! The behaviour is pinned by the specification function [`next_token`]: for
//! a source sequence and a start position it gives the token (or lexical
//! error) the lexer must produce and the position where the following token
//! starts. [`Lexer::read`] is proved to return exactly that outcome and to
//! leave the cursor exactly there. Because `next_token` always moves past at
//! least the offending character on an error, a caller that ignores errors
//! and keeps reading always makes forward progress.

use crate::input::Input;
use crate::token::is_digit;
use crate::token::is_digit_char;
use crate::token::is_letter;
use crate::token::is_letter_char;
use crate::token::is_number;
use crate::token::is_number_char;
use crate::token::is_space;
use crate::token::is_space_char;
use crate::token::is_word;
use crate::token::is_word_char;
use crate::token::LexErrorView;
use crate::token::LexerError;
use crate::token::Token;
use crate::token::TokenView;
use vstd::prelude::*;
use vstd::string::StringExecFns;

verus! {

/// Operator characters the lexer accepts; exactly the domain of the
/// parser's precedence table.
pub open spec fn is_operator_char(c: char) -> bool {
    c == '+' || c == '-' || c == '*' || c == '<'
}

/// The first position at or after `i` whose character is not whitespace,
/// or the end of `s`.
pub open spec fn skip_spaces(s: Seq<char>, i: int) -> int
    decreases s.len() - i,
{
    if 0 <= i < s.len() && is_space_char(s[i]) {
        skip_spaces(s, i + 1)
    } else {
        i
    }
}

/// The position just after the first line break at or after `i`, or the
/// end of `s` if the line is the last one.
pub open spec fn line_end(s: Seq<char>, i: int) -> int
    decreases s.len() - i,
{
    if 0 <= i < s.len() {
        if s[i] == '\n' {
            i + 1
        } else {
            line_end(s, i + 1)
        }
    } else {
        s.len() as int
    }
}

/// The end of the maximal run of identifier characters starting at `i`.
pub open spec fn word_end(s: Seq<char>, i: int) -> int
    decreases s.len() - i,
{
    if 0 <= i < s.len() && is_word_char(s[i]) {
        word_end(s, i + 1)
    } else {
        i
    }
}

/// The end of the maximal run of digits and dots starting at `i`.
pub open spec fn number_end(s: Seq<char>, i: int) -> int
    decreases s.len() - i,
{
    if 0 <= i < s.len() && is_number_char(s[i]) {
        number_end(s, i + 1)
    } else {
        i
    }
}

/// How many of the first `n` characters of `s` are `.`.
pub open spec fn dots_upto(s: Seq<char>, n: int) -> nat
    decreases n,
{
    if n <= 0 || n > s.len() {
        0
    } else {
        dots_upto(s, n - 1) + (if s[n - 1] == '.' {
            1nat
        } else {
            0nat
        })
    }
}

/// How many of the first `n` characters of `s` are digits.
pub open spec fn digits_upto(s: Seq<char>, n: int) -> nat
    decreases n,
{
    if n <= 0 || n > s.len() {
        0
    } else {
        digits_upto(s, n - 1) + (if is_digit_char(s[n - 1]) {
            1nat
        } else {
            0nat
        })
    }
}

/// A scanned run is a valid numeric literal when it has at most one dot
/// and at least one digit; exactly then it denotes a number.
pub open spec fn valid_number_text(s: Seq<char>) -> bool {
    dots_upto(s, s.len() as int) <= 1 && digits_upto(s, s.len() as int) >= 1
}

pub proof fn lemma_skip_spaces_bounds(s: Seq<char>, i: int)
    requires
        0 <= i <= s.len(),
    ensures
        i <= skip_spaces(s, i) <= s.len(),
    decreases s.len() - i,
{
    if 0 <= i < s.len() && is_space_char(s[i]) {
        lemma_skip_spaces_bounds(s, i + 1);
    }
}

pub proof fn lemma_line_end_bounds(s: Seq<char>, i: int)
    requires
        0 <= i <= s.len(),
    ensures
        i <= line_end(s, i) <= s.len(),
    decreases s.len() - i,
{
    if 0 <= i < s.len() && s[i] != '\n' {
        lemma_line_end_bounds(s, i + 1);
    }
}

pub proof fn lemma_word_end_bounds(s: Seq<char>, i: int)
    requires
        0 <= i <= s.len(),
    ensures
        i <= word_end(s, i) <= s.len(),
    decreases s.len() - i,
{
    if 0 <= i < s.len() && is_word_char(s[i]) {
        lemma_word_end_bounds(s, i + 1);
    }
}

pub proof fn lemma_number_end_bounds(s: Seq<char>, i: int)
    requires
        0 <= i <= s.len(),
    ensures
        i <= number_end(s, i) <= s.len(),
    decreases s.len() - i,
{
    if 0 <= i < s.len() && is_number_char(s[i]) {
        lemma_number_end_bounds(s, i + 1);
    }
}

/// The token or lexical error produced by one request at position `i` of
/// source `s`, together with the position where the next request starts.
///
/// Whitespace is skipped; a `#` discards the rest of its line and the
/// request starts over; punctuation and operator characters map to their
/// tokens; a letter starts a maximal identifier run that is matched against
/// the keywords; a digit or dot starts a maximal digit-and-dot run, which
/// is a number exactly when it has at most one dot and at least one digit
/// and otherwise a `MalformedNumber` carrying the whole scanned run; any
/// other character is an `UnrecognizedCharacter`. An exhausted source
/// yields the `EndOfInput` marker, forever.
pub open spec fn next_token(s: Seq<char>, i: int) -> (Result<TokenView, LexErrorView>, int)
    recommends
        0 <= i <= s.len(),
    decreases s.len() - i,
{
    if i < 0 || i > s.len() {
        (Ok(TokenView::EndOfInput), i)
    } else {
        let j = skip_spaces(s, i);
        if j >= s.len() {
            (Ok(TokenView::EndOfInput), s.len() as int)
        } else {
            let c = s[j];
            if c == '#' {
                proof {
                    lemma_skip_spaces_bounds(s, i);
                    lemma_line_end_bounds(s, j + 1);
                }
                next_token(s, line_end(s, j + 1))
            } else if c == '(' {
                (Ok(TokenView::OpeningParenthesis), j + 1)
            } else if c == ')' {
                (Ok(TokenView::ClosingParenthesis), j + 1)
            } else if c == ';' {
                (Ok(TokenView::Delimiter), j + 1)
            } else if c == ',' {
                (Ok(TokenView::Comma), j + 1)
            } else if is_operator_char(c) {
                (Ok(TokenView::BinOp(c)), j + 1)
            } else if is_letter_char(c) {
                let e = word_end(s, j + 1);
                let w = s.subrange(j, e);
                if w == "def"@ {
                    (Ok(TokenView::Def), e)
                } else if w == "extern"@ {
                    (Ok(TokenView::Extern), e)
                } else {
                    (Ok(TokenView::Identifier(w)), e)
                }
            } else if is_number_char(c) {
                let e = number_end(s, j + 1);
                let t = s.subrange(j, e);
                if valid_number_text(t) {
                    (Ok(TokenView::Number(t)), e)
                } else {
                    (Err(LexErrorView::MalformedNumber(t)), e)
                }
            } else {
                (Err(LexErrorView::UnrecognizedCharacter(c)), j + 1)
            }
        }
    }
}

/// The lexer makes forward progress: a request never moves the cursor
/// backwards, and any outcome other than the end-of-input marker — a
/// lexical error included — consumes at least one character. A caller that
/// ignores errors and keeps reading therefore cannot loop forever.
pub proof fn lemma_read_makes_progress(s: Seq<char>, i: int)
    requires
        0 <= i <= s.len(),
    ensures
        i <= next_token(s, i).1 <= s.len(),
        next_token(s, i).0 != Ok::<TokenView, LexErrorView>(TokenView::EndOfInput)
            ==> next_token(s, i).1 > i,
    decreases s.len() - i,
{
    lemma_skip_spaces_bounds(s, i);
    let j = skip_spaces(s, i);
    if j < s.len() {
        let c = s[j];
        if c == '#' {
            lemma_line_end_bounds(s, j + 1);
            lemma_read_makes_progress(s, line_end(s, j + 1));
        } else if is_letter_char(c) {
            lemma_word_end_bounds(s, j + 1);
        } else if is_number_char(c) {
            lemma_number_end_bounds(s, j + 1);
        }
    }
}

/// The ghost image of a lexer outcome.
pub open spec fn lex_view(r: Result<Token, LexerError>) -> Result<TokenView, LexErrorView> {
    match r {
        Ok(t) => Ok(t@),
        Err(e) => Err(e@),
    }
}

/// The positions from `i` to the end of `s` hold nothing but whitespace
/// and comments.
pub open spec fn blank_input(s: Seq<char>, i: int) -> bool
    decreases s.len() - i,
{
    if i < 0 || i >= s.len() {
        true
    } else if is_space_char(s[i]) {
        blank_input(s, i + 1)
    } else if s[i] == '#' {
        proof {
            lemma_line_end_bounds(s, i + 1);
        }
        blank_input(s, line_end(s, i + 1))
    } else {
        false
    }
}

/// An input consisting solely of whitespace and comments yields no token:
/// the very first request already reports the end of the input.
pub proof fn lemma_blank_input_yields_no_token(s: Seq<char>, i: int)
    requires
        0 <= i <= s.len(),
        blank_input(s, i),
    ensures
        next_token(s, i) == (Ok::<TokenView, LexErrorView>(TokenView::EndOfInput), s.len() as int),
    decreases s.len() - i,
{
    if i == s.len() {
    } else if is_space_char(s[i]) {
        lemma_blank_input_yields_no_token(s, i + 1);
        assert(skip_spaces(s, i) == skip_spaces(s, i + 1));
    } else {
        lemma_line_end_bounds(s, i + 1);
        lemma_blank_input_yields_no_token(s, line_end(s, i + 1));
        assert(skip_spaces(s, i) == i);
    }
}

/// Turn a vector of characters into the string holding exactly them.
///
/// Relies on `String`'s `FromIterator` over `char`: collecting an iterator
/// of characters yields the string of those characters in order.
#[verifier::external_body]
pub(crate) fn chars_to_string(v: &Vec<char>) -> (r: String)
    ensures
        r@ == v@,
{
    v.iter().collect()
}

/// A demand-driven lexer over an [`Input`]. Each call of [`Lexer::read`]
/// produces exactly one token or lexical error and consumes exactly the
/// characters that token was scanned from.
pub struct Lexer<I: Input> {
    input: I,
}

impl<I: Input> Lexer<I> {
    /// The full character sequence being tokenized.
    pub closed spec fn source(&self) -> Seq<char> {
        self.input.source()
    }

    /// The position of the next unconsumed character.
    pub closed spec fn position(&self) -> int {
        self.input.position()
    }

    /// Well-formedness, inherited from the input.
    pub closed spec fn valid(&self) -> bool {
        self.input.valid()
    }

    /// A lexer positioned wherever `input` stands.
    pub fn new(input: I) -> (r: Lexer<I>)
        requires
            input.valid(),
        ensures
            r.valid(),
            r.source() == input.source(),
            r.position() == input.position(),
    {
        Lexer { input }
    }

    /// Produce the next token or lexical error, consuming its characters.
    pub fn read(&mut self) -> (r: Result<Token, LexerError>)
        requires
            old(self).valid(),
        ensures
            final(self).valid(),
            final(self).source() == old(self).source(),
            lex_view(r) == next_token(old(self).source(), old(self).position()).0,
            final(self).position() == next_token(old(self).source(), old(self).position()).1,
        decreases self.source().len() - self.position(),
    {
        proof {
            self.input.position_in_range();
        }
        let ghost src = self.source();
        let ghost p0 = self.position();
        self.skip_whitespace();
        let ghost j = self.position();
        proof {
            lemma_skip_spaces_bounds(src, p0);
        }
        match self.input.curr_char() {
            None => Ok(Token::EndOfInput),
            Some(c) => {
                let _ = self.input.advance();
                if c == '#' {
                    self.skip_line();
                    proof {
                        lemma_line_end_bounds(src, j + 1);
                    }
                    self.read()
                } else if c == '(' {
                    Ok(Token::OpeningParenthesis)
                } else if c == ')' {
                    Ok(Token::ClosingParenthesis)
                } else if c == ';' {
                    Ok(Token::Delimiter)
                } else if c == ',' {
                    Ok(Token::Comma)
                } else if c == '+' || c == '-' || c == '*' || c == '<' {
                    Ok(Token::BinOp(c))
                } else if is_letter(c) {
                    let mut word: Vec<char> = Vec::new();
                    word.push(c);
                    self.take_word_run(&mut word);
                    proof {
                        lemma_word_end_bounds(src, j + 1);
                        assert(word@ =~= src.subrange(j, word_end(src, j + 1)));
                    }
                    let text = chars_to_string(&word);
                    if text == String::from_str("def") {
                        Ok(Token::Def)
                    } else if text == String::from_str("extern") {
                        Ok(Token::Extern)
                    } else {
                        Ok(Token::Identifier(text))
                    }
                } else if is_number(c) {
                    let mut run: Vec<char> = Vec::new();
                    run.push(c);
                    self.take_number_run(&mut run);
                    proof {
                        lemma_number_end_bounds(src, j + 1);
                        assert(run@ =~= src.subrange(j, number_end(src, j + 1)));
                    }
                    let text = chars_to_string(&run);
                    if check_number(&run) {
                        Ok(Token::Number(text))
                    } else {
                        Err(LexerError::MalformedNumber(text))
                    }
                } else {
                    Err(LexerError::UnrecognizedCharacter(c))
                }
            },
        }
    }

    /// Advance past the whitespace run at the cursor.
    fn skip_whitespace(&mut self)
        requires
            old(self).valid(),
        ensures
            final(self).valid(),
            final(self).source() == old(self).source(),
            final(self).position() == skip_spaces(old(self).source(), old(self).position()),
    {
        proof {
            self.input.position_in_range();
        }
        let ghost src = self.source();
        let ghost p0 = self.position();
        loop
            invariant
                self.valid(),
                self.source() == src,
                0 <= p0 <= self.position() <= src.len(),
                skip_spaces(src, p0) == skip_spaces(src, self.position()),
            ensures
                self.valid(),
                self.source() == src,
                self.position() == skip_spaces(src, p0),
            decreases src.len() - self.position(),
        {
            match self.input.curr_char() {
                Some(c) => {
                    if is_space(c) {
                        let _ = self.input.advance();
                    } else {
                        break ;
                    }
                },
                None => {
                    break ;
                },
            }
        }
    }

    /// Advance past the rest of the current line, including its line break.
    fn skip_line(&mut self)
        requires
            old(self).valid(),
        ensures
            final(self).valid(),
            final(self).source() == old(self).source(),
            final(self).position() == line_end(old(self).source(), old(self).position()),
    {
        proof {
            self.input.position_in_range();
        }
        let ghost src = self.source();
        let ghost p0 = self.position();
        loop
            invariant_except_break
                line_end(src, p0) == line_end(src, self.position()),
            invariant
                self.valid(),
                self.source() == src,
                0 <= p0 <= self.position() <= src.len(),
            ensures
                self.valid(),
                self.source() == src,
                self.position() == line_end(src, p0),
            decreases src.len() - self.position(),
        {
            match self.input.curr_char() {
                Some(c) => {
                    let _ = self.input.advance();
                    if c == '\n' {
                        break ;
                    }
                },
                None => {
                    break ;
                },
            }
        }
    }

    /// Append the maximal identifier-character run at the cursor to `acc`.
    fn take_word_run(&mut self, acc: &mut Vec<char>)
        requires
            old(self).valid(),
        ensures
            final(self).valid(),
            final(self).source() == old(self).source(),
            final(self).position() == word_end(old(self).source(), old(self).position()),
            final(acc)@ == old(acc)@ + old(self).source().subrange(
                old(self).position(),
                word_end(old(self).source(), old(self).position()),
            ),
    {
        proof {
            self.input.position_in_range();
        }
        let ghost src = self.source();
        let ghost p0 = self.position();
        let ghost acc0 = acc@;
        loop
            invariant
                self.valid(),
                self.source() == src,
                0 <= p0 <= self.position() <= src.len(),
                word_end(src, p0) == word_end(src, self.position()),
                acc@ == acc0 + src.subrange(p0, self.position()),
            ensures
                self.valid(),
                self.source() == src,
                self.position() == word_end(src, p0),
                acc@ == acc0 + src.subrange(p0, self.position()),
            decreases src.len() - self.position(),
        {
            match self.input.curr_char() {
                Some(c) => {
                    if is_word(c) {
                        acc.push(c);
                        let _ = self.input.advance();
                        proof {
                            assert(acc@ =~= acc0 + src.subrange(p0, self.position()));
                        }
                    } else {
                        break ;
                    }
                },
                None => {
                    break ;
                },
            }
        }
    }

    /// Append the maximal digit-and-dot run at the cursor to `acc`.
    fn take_number_run(&mut self, acc: &mut Vec<char>)
        requires
            old(self).valid(),
        ensures
            final(self).valid(),
            final(self).source() == old(self).source(),
            final(self).position() == number_end(old(self).source(), old(self).position()),
            final(acc)@ == old(acc)@ + old(self).source().subrange(
                old(self).position(),
                number_end(old(self).source(), old(self).position()),
            ),
    {
        proof {
            self.input.position_in_range();
        }
        let ghost src = self.source();
        let ghost p0 = self.position();
        let ghost acc0 = acc@;
        loop
            invariant
                self.valid(),
                self.source() == src,
                0 <= p0 <= self.position() <= src.len(),
                number_end(src, p0) == number_end(src, self.position()),
                acc@ == acc0 + src.subrange(p0, self.position()),
            ensures
                self.valid(),
                self.source() == src,
                self.position() == number_end(src, p0),
                acc@ == acc0 + src.subrange(p0, self.position()),
            decreases src.len() - self.position(),
        {
            match self.input.curr_char() {
                Some(c) => {
                    if is_number(c) {
                        acc.push(c);
                        let _ = self.input.advance();
                        proof {
                            assert(acc@ =~= acc0 + src.subrange(p0, self.position()));
                        }
                    } else {
                        break ;
                    }
                },
                None => {
                    break ;
                },
            }
        }
    }
}

/// Whether a scanned run is a valid numeric literal.
fn check_number(v: &Vec<char>) -> (r: bool)
    ensures
        r == valid_number_text(v@),
{
    let mut dots: usize = 0;
    let mut digits: usize = 0;
    let mut i: usize = 0;
    while i < v.len()
        invariant
            i <= v@.len(),
            dots <= i && dots == dots_upto(v@, i as int),
            digits <= i && digits == digits_upto(v@, i as int),
        decreases v@.len() - i,
    {
        if v[i] == '.' {
            dots = dots + 1;
        }
        if is_digit(v[i]) {
            digits = digits + 1;
        }
        i = i + 1;
    }
    dots <= 1 && digits >= 1
}

} // verus!

