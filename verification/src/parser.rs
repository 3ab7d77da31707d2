//! The parser: recursive descent with precedence climbing over a token
//! stream, producing a [`Program`].
//!
//! The grammar is pinned by specification functions over the ghost token
//! sequence: `sp_primary`, `sp_expression`, `sp_binop_rhs`, `sp_call_args`,
//! `sp_params`, `sp_prototype` and `sp_program`. Each takes the position
//! where parsing starts and yields the parsed value and the position after
//! it, a parse error, or `OutOfFuel` when its step budget is spent. The
//! budget only bounds recursion depth: [`lemma_parse_step_fuel_irrelevant`]
//! and its companions show that any two budgets that suffice agree, so the
//! grammar functions define one outcome per token sequence — parsing is
//! deterministic — and the executable parser is proved to return exactly
//! that outcome.

use crate::buffer::Buffer;
use crate::nodes::exprs_view;
use crate::nodes::nodes_view;
use crate::nodes::program_view;
use crate::nodes::strings_view;
use crate::nodes::ASTNode;
use crate::nodes::ExprView;
use crate::nodes::Expression;
use crate::nodes::Function;
use crate::nodes::FunctionView;
use crate::nodes::NodeView;
use crate::nodes::Program;
use crate::nodes::Prototype;
use crate::nodes::PrototypeView;
use crate::token::Token;
use crate::token::TokenView;
use vstd::prelude::*;
use vstd::string::StringExecFns;

verus! {

/// Ghost counterpart of [`ParseError`].
pub enum ParseErrorView {
    UnexpectedToken(TokenView, Seq<char>),
    UnexpectedEndOfInput(Seq<char>),
    UnknownOperator(char),
}

/// A structured parse error: the offending token (or end of input) and a
/// human-readable expectation, or an operator outside the precedence table.
/// Parsing stops at the first error; resynchronization is the caller's job.
#[derive(Debug, PartialEq)]
pub enum ParseError {
    UnexpectedToken(Token, String),
    UnexpectedEndOfInput(String),
    UnknownOperator(char),
}

impl View for ParseError {
    type V = ParseErrorView;

    open spec fn view(&self) -> ParseErrorView {
        match self {
            ParseError::UnexpectedToken(t, m) => ParseErrorView::UnexpectedToken(t@, m@),
            ParseError::UnexpectedEndOfInput(m) => ParseErrorView::UnexpectedEndOfInput(m@),
            ParseError::UnknownOperator(c) => ParseErrorView::UnknownOperator(*c),
        }
    }
}

/// The fixed operator precedence table; higher binds tighter. An operator
/// outside it is unknown.
pub open spec fn precedence_of(op: char) -> Option<int> {
    if op == '<' {
        Some(10int)
    } else if op == '+' {
        Some(20int)
    } else if op == '-' {
        Some(20int)
    } else if op == '*' {
        Some(40int)
    } else {
        None
    }
}

/// The executable precedence table.
pub fn get_binop_precedences(op: char) -> (r: Option<u32>)
    ensures
        match r {
            Some(p) => precedence_of(op) == Some(p as int),
            None => precedence_of(op) is None,
        },
{
    if op == '<' {
        Some(10)
    } else if op == '+' {
        Some(20)
    } else if op == '-' {
        Some(20)
    } else if op == '*' {
        Some(40)
    } else {
        None
    }
}

/// The token at position `i`, with everything outside the stream read as
/// the end-of-input marker, so exhaustion and an explicit marker behave
/// alike.
pub open spec fn tok_at(ts: Seq<TokenView>, i: int) -> TokenView {
    if 0 <= i < ts.len() {
        ts[i]
    } else {
        TokenView::EndOfInput
    }
}

/// The error reported when `t` stands where `msg` was expected.
pub open spec fn expect_err(t: TokenView, msg: Seq<char>) -> ParseErrorView {
    if t is EndOfInput {
        ParseErrorView::UnexpectedEndOfInput(msg)
    } else {
        ParseErrorView::UnexpectedToken(t, msg)
    }
}

/// Outcome of one specification-level parsing step: the parsed value and
/// the position after it, a parse error, or an exhausted step budget.
pub enum ParseStep<T> {
    Done(T, int),
    Fail(ParseErrorView),
    OutOfFuel,
}

/// A primary expression at `i`: a number literal, a variable reference, a
/// call (an identifier immediately followed by `(`), or a parenthesized
/// expression.
pub open spec fn sp_primary(ts: Seq<TokenView>, i: int, fuel: nat) -> ParseStep<ExprView>
    decreases fuel,
{
    if fuel == 0 {
        ParseStep::OutOfFuel
    } else {
        match tok_at(ts, i) {
            TokenView::Identifier(name) => {
                if tok_at(ts, i + 1) is OpeningParenthesis {
                    match sp_call_args(ts, i + 2, (fuel - 1) as nat, Seq::empty()) {
                        ParseStep::Done(args, j) => ParseStep::Done(ExprView::Call(name, args), j),
                        ParseStep::Fail(e) => ParseStep::Fail(e),
                        ParseStep::OutOfFuel => ParseStep::OutOfFuel,
                    }
                } else {
                    ParseStep::Done(ExprView::Variable(name), i + 1)
                }
            },
            TokenView::Number(t) => ParseStep::Done(ExprView::Number(t), i + 1),
            TokenView::OpeningParenthesis => {
                match sp_expression(ts, i + 1, (fuel - 1) as nat) {
                    ParseStep::Done(e, j) => if tok_at(ts, j) is ClosingParenthesis {
                        ParseStep::Done(e, j + 1)
                    } else {
                        ParseStep::Fail(expect_err(tok_at(ts, j), "expected )"@))
                    },
                    ParseStep::Fail(e) => ParseStep::Fail(e),
                    ParseStep::OutOfFuel => ParseStep::OutOfFuel,
                }
            },
            t => ParseStep::Fail(expect_err(t, "expected identifier, number or ("@)),
        }
    }
}

/// A full expression at `i`: a primary followed by binary-operator
/// continuations resolved by precedence climbing from threshold `0`.
pub open spec fn sp_expression(ts: Seq<TokenView>, i: int, fuel: nat) -> ParseStep<ExprView>
    decreases fuel,
{
    if fuel == 0 {
        ParseStep::OutOfFuel
    } else {
        match sp_primary(ts, i, (fuel - 1) as nat) {
            ParseStep::Done(lhs, j) => sp_binop_rhs(ts, j, (fuel - 1) as nat, 0, lhs),
            ParseStep::Fail(e) => ParseStep::Fail(e),
            ParseStep::OutOfFuel => ParseStep::OutOfFuel,
        }
    }
}

/// Binary-operator continuations of `lhs` from position `i`: while the
/// current token is an operator of precedence at least `min_prec`, the
/// operator and the primary after it are consumed; when the following
/// operator binds strictly tighter, it is first absorbed into the right
/// operand by a recursive climb with threshold one above the current
/// precedence. Equal precedences therefore associate to the left. An
/// operator outside the table fails with `UnknownOperator`; an operator
/// below the threshold is left unconsumed.
pub open spec fn sp_binop_rhs(
    ts: Seq<TokenView>,
    i: int,
    fuel: nat,
    min_prec: int,
    lhs: ExprView,
) -> ParseStep<ExprView>
    decreases fuel,
{
    if fuel == 0 {
        ParseStep::OutOfFuel
    } else {
        match tok_at(ts, i) {
            TokenView::BinOp(op) => match precedence_of(op) {
                None => ParseStep::Fail(ParseErrorView::UnknownOperator(op)),
                Some(prec) => {
                    if prec < min_prec {
                        ParseStep::Done(lhs, i)
                    } else {
                        match sp_primary(ts, i + 1, (fuel - 1) as nat) {
                            ParseStep::Done(rhs0, j) => match tok_at(ts, j) {
                                TokenView::BinOp(op2) => match precedence_of(op2) {
                                    None => ParseStep::Fail(ParseErrorView::UnknownOperator(op2)),
                                    Some(prec2) => {
                                        if prec2 > prec {
                                            match sp_binop_rhs(
                                                ts,
                                                j,
                                                (fuel - 1) as nat,
                                                prec + 1,
                                                rhs0,
                                            ) {
                                                ParseStep::Done(rhs, j2) => sp_binop_rhs(
                                                    ts,
                                                    j2,
                                                    (fuel - 1) as nat,
                                                    min_prec,
                                                    ExprView::Binary(op, Box::new(lhs), Box::new(rhs)),
                                                ),
                                                ParseStep::Fail(e) => ParseStep::Fail(e),
                                                ParseStep::OutOfFuel => ParseStep::OutOfFuel,
                                            }
                                        } else {
                                            sp_binop_rhs(
                                                ts,
                                                j,
                                                (fuel - 1) as nat,
                                                min_prec,
                                                ExprView::Binary(op, Box::new(lhs), Box::new(rhs0)),
                                            )
                                        }
                                    },
                                },
                                _ => sp_binop_rhs(
                                    ts,
                                    j,
                                    (fuel - 1) as nat,
                                    min_prec,
                                    ExprView::Binary(op, Box::new(lhs), Box::new(rhs0)),
                                ),
                            },
                            ParseStep::Fail(e) => ParseStep::Fail(e),
                            ParseStep::OutOfFuel => ParseStep::OutOfFuel,
                        }
                    }
                },
            },
            _ => ParseStep::Done(lhs, i),
        }
    }
}

/// The arguments of a call, starting just after its `(`: expressions
/// delimited by commas until the closing `)`, already-parsed ones standing
/// in `acc`.
pub open spec fn sp_call_args(
    ts: Seq<TokenView>,
    i: int,
    fuel: nat,
    acc: Seq<ExprView>,
) -> ParseStep<Seq<ExprView>>
    decreases fuel,
{
    if fuel == 0 {
        ParseStep::OutOfFuel
    } else if tok_at(ts, i) is ClosingParenthesis {
        ParseStep::Done(acc, i + 1)
    } else {
        match sp_expression(ts, i, (fuel - 1) as nat) {
            ParseStep::Done(e, j) => {
                let t = tok_at(ts, j);
                if t is Comma {
                    sp_call_args(ts, j + 1, (fuel - 1) as nat, acc.push(e))
                } else if t is ClosingParenthesis {
                    ParseStep::Done(acc.push(e), j + 1)
                } else {
                    ParseStep::Fail(expect_err(t, "expected , or ) in argument list"@))
                }
            },
            ParseStep::Fail(e) => ParseStep::Fail(e),
            ParseStep::OutOfFuel => ParseStep::OutOfFuel,
        }
    }
}

/// The parameter names of a prototype, starting just after its `(`:
/// identifiers delimited by commas until the closing `)`, already-parsed
/// ones standing in `acc`.
pub open spec fn sp_params(ts: Seq<TokenView>, i: int, acc: Seq<Seq<char>>) -> ParseStep<
    Seq<Seq<char>>,
>
    decreases ts.len() - i,
{
    match tok_at(ts, i) {
        TokenView::ClosingParenthesis => ParseStep::Done(acc, i + 1),
        TokenView::Identifier(a) => {
            let t2 = tok_at(ts, i + 1);
            if t2 is Comma {
                sp_params(ts, i + 2, acc.push(a))
            } else if t2 is ClosingParenthesis {
                ParseStep::Done(acc.push(a), i + 2)
            } else {
                ParseStep::Fail(expect_err(t2, "expected , or ) in parameter list"@))
            }
        },
        t => ParseStep::Fail(expect_err(t, "expected parameter name or )"@)),
    }
}

/// A prototype at `i`: a name, `(`, comma-delimited parameter names, `)`.
pub open spec fn sp_prototype(ts: Seq<TokenView>, i: int) -> ParseStep<PrototypeView> {
    match tok_at(ts, i) {
        TokenView::Identifier(name) => {
            if tok_at(ts, i + 1) is OpeningParenthesis {
                match sp_params(ts, i + 2, Seq::empty()) {
                    ParseStep::Done(args, j) => ParseStep::Done(PrototypeView { name, args }, j),
                    ParseStep::Fail(e) => ParseStep::Fail(e),
                    ParseStep::OutOfFuel => ParseStep::OutOfFuel,
                }
            } else {
                ParseStep::Fail(expect_err(tok_at(ts, i + 1), "expected ( in prototype"@))
            }
        },
        t => ParseStep::Fail(expect_err(t, "expected function name"@)),
    }
}

/// The decimal digit `d` as a character.
pub open spec fn digit_char(d: int) -> char {
    if d == 0 {
        '0'
    } else if d == 1 {
        '1'
    } else if d == 2 {
        '2'
    } else if d == 3 {
        '3'
    } else if d == 4 {
        '4'
    } else if d == 5 {
        '5'
    } else if d == 6 {
        '6'
    } else if d == 7 {
        '7'
    } else if d == 8 {
        '8'
    } else {
        '9'
    }
}

/// The decimal digits of `n`, most significant first.
pub open spec fn decimal_seq(n: nat) -> Seq<char>
    decreases n,
{
    if n < 10 {
        seq![digit_char(n as int)]
    } else {
        decimal_seq(n / 10).push(digit_char((n % 10) as int))
    }
}

/// The synthetic name of the `k`-th anonymous top-level expression.
pub open spec fn anon_name(k: nat) -> Seq<char> {
    "_anonymous_"@ + decimal_seq(k)
}

/// The whole program from position `i`: top-level items until the end of
/// the input. A `def` yields a function definition, an `extern` a
/// prototype-only declaration, a bare `;` is skipped, and any other token
/// starts an expression that is wrapped into a uniquely named nullary
/// function; `k` counts those and `acc` holds the items parsed so far.
pub open spec fn sp_program(
    ts: Seq<TokenView>,
    i: int,
    fuel: nat,
    k: nat,
    acc: Seq<NodeView>,
) -> ParseStep<Seq<NodeView>>
    decreases fuel,
{
    if fuel == 0 {
        ParseStep::OutOfFuel
    } else {
        match tok_at(ts, i) {
            TokenView::EndOfInput => ParseStep::Done(acc, i),
            TokenView::Delimiter => sp_program(ts, i + 1, (fuel - 1) as nat, k, acc),
            TokenView::Def => match sp_prototype(ts, i + 1) {
                ParseStep::Done(proto, j) => match sp_expression(ts, j, (fuel - 1) as nat) {
                    ParseStep::Done(body, j2) => sp_program(
                        ts,
                        j2,
                        (fuel - 1) as nat,
                        k,
                        acc.push(NodeView::Function(FunctionView { prototype: proto, body })),
                    ),
                    ParseStep::Fail(e) => ParseStep::Fail(e),
                    ParseStep::OutOfFuel => ParseStep::OutOfFuel,
                },
                ParseStep::Fail(e) => ParseStep::Fail(e),
                ParseStep::OutOfFuel => ParseStep::OutOfFuel,
            },
            TokenView::Extern => match sp_prototype(ts, i + 1) {
                ParseStep::Done(proto, j) => sp_program(
                    ts,
                    j,
                    (fuel - 1) as nat,
                    k,
                    acc.push(NodeView::Extern(proto)),
                ),
                ParseStep::Fail(e) => ParseStep::Fail(e),
                ParseStep::OutOfFuel => ParseStep::OutOfFuel,
            },
            _ => match sp_expression(ts, i, (fuel - 1) as nat) {
                ParseStep::Done(body, j) => sp_program(
                    ts,
                    j,
                    (fuel - 1) as nat,
                    k + 1,
                    acc.push(
                        NodeView::Function(
                            FunctionView {
                                prototype: PrototypeView { name: anon_name(k), args: Seq::empty() },
                                body,
                            },
                        ),
                    ),
                ),
                ParseStep::Fail(e) => ParseStep::Fail(e),
                ParseStep::OutOfFuel => ParseStep::OutOfFuel,
            },
        }
    }
}

/// A step budget only bounds recursion depth: enlarging a sufficient
/// budget never changes what a primary parses.
pub proof fn lemma_primary_fuel_irrelevant(ts: Seq<TokenView>, i: int, f1: nat, f2: nat)
    requires
        f1 <= f2,
        !(sp_primary(ts, i, f1) is OutOfFuel),
    ensures
        sp_primary(ts, i, f2) == sp_primary(ts, i, f1),
    decreases f1,
{
    match tok_at(ts, i) {
        TokenView::Identifier(name) => {
            if tok_at(ts, i + 1) is OpeningParenthesis {
                lemma_call_args_fuel_irrelevant(ts, i + 2, (f1 - 1) as nat, (f2 - 1) as nat, Seq::empty());
            }
        },
        TokenView::OpeningParenthesis => {
            lemma_expression_fuel_irrelevant(ts, i + 1, (f1 - 1) as nat, (f2 - 1) as nat);
        },
        _ => {},
    }
}

/// A step budget only bounds recursion depth: enlarging a sufficient
/// budget never changes what an expression parses.
pub proof fn lemma_expression_fuel_irrelevant(ts: Seq<TokenView>, i: int, f1: nat, f2: nat)
    requires
        f1 <= f2,
        !(sp_expression(ts, i, f1) is OutOfFuel),
    ensures
        sp_expression(ts, i, f2) == sp_expression(ts, i, f1),
    decreases f1,
{
    lemma_primary_fuel_irrelevant(ts, i, (f1 - 1) as nat, (f2 - 1) as nat);
    match sp_primary(ts, i, (f1 - 1) as nat) {
        ParseStep::Done(lhs, j) => {
            lemma_binop_rhs_fuel_irrelevant(ts, j, (f1 - 1) as nat, (f2 - 1) as nat, 0, lhs);
        },
        _ => {},
    }
}

/// A step budget only bounds recursion depth: enlarging a sufficient
/// budget never changes what an operator continuation parses.
pub proof fn lemma_binop_rhs_fuel_irrelevant(
    ts: Seq<TokenView>,
    i: int,
    f1: nat,
    f2: nat,
    min_prec: int,
    lhs: ExprView,
)
    requires
        f1 <= f2,
        !(sp_binop_rhs(ts, i, f1, min_prec, lhs) is OutOfFuel),
    ensures
        sp_binop_rhs(ts, i, f2, min_prec, lhs) == sp_binop_rhs(ts, i, f1, min_prec, lhs),
    decreases f1,
{
    match tok_at(ts, i) {
        TokenView::BinOp(op) => match precedence_of(op) {
            None => {},
            Some(prec) => {
                if prec >= min_prec {
                    lemma_primary_fuel_irrelevant(ts, i + 1, (f1 - 1) as nat, (f2 - 1) as nat);
                    match sp_primary(ts, i + 1, (f1 - 1) as nat) {
                        ParseStep::Done(rhs0, j) => match tok_at(ts, j) {
                            TokenView::BinOp(op2) => match precedence_of(op2) {
                                None => {},
                                Some(prec2) => {
                                    if prec2 > prec {
                                        lemma_binop_rhs_fuel_irrelevant(
                                            ts,
                                            j,
                                            (f1 - 1) as nat,
                                            (f2 - 1) as nat,
                                            prec + 1,
                                            rhs0,
                                        );
                                        match sp_binop_rhs(ts, j, (f1 - 1) as nat, prec + 1, rhs0) {
                                            ParseStep::Done(rhs, j2) => {
                                                lemma_binop_rhs_fuel_irrelevant(
                                                    ts,
                                                    j2,
                                                    (f1 - 1) as nat,
                                                    (f2 - 1) as nat,
                                                    min_prec,
                                                    ExprView::Binary(op, Box::new(lhs), Box::new(rhs)),
                                                );
                                            },
                                            _ => {},
                                        }
                                    } else {
                                        lemma_binop_rhs_fuel_irrelevant(
                                            ts,
                                            j,
                                            (f1 - 1) as nat,
                                            (f2 - 1) as nat,
                                            min_prec,
                                            ExprView::Binary(op, Box::new(lhs), Box::new(rhs0)),
                                        );
                                    }
                                },
                            },
                            _ => {
                                lemma_binop_rhs_fuel_irrelevant(
                                    ts,
                                    j,
                                    (f1 - 1) as nat,
                                    (f2 - 1) as nat,
                                    min_prec,
                                    ExprView::Binary(op, Box::new(lhs), Box::new(rhs0)),
                                );
                            },
                        },
                        _ => {},
                    }
                }
            },
        },
        _ => {},
    }
}

/// A step budget only bounds recursion depth: enlarging a sufficient
/// budget never changes what an argument list parses.
pub proof fn lemma_call_args_fuel_irrelevant(
    ts: Seq<TokenView>,
    i: int,
    f1: nat,
    f2: nat,
    acc: Seq<ExprView>,
)
    requires
        f1 <= f2,
        !(sp_call_args(ts, i, f1, acc) is OutOfFuel),
    ensures
        sp_call_args(ts, i, f2, acc) == sp_call_args(ts, i, f1, acc),
    decreases f1,
{
    if tok_at(ts, i) is ClosingParenthesis {
    } else {
        lemma_expression_fuel_irrelevant(ts, i, (f1 - 1) as nat, (f2 - 1) as nat);
        match sp_expression(ts, i, (f1 - 1) as nat) {
            ParseStep::Done(e, j) => {
                if tok_at(ts, j) is Comma {
                    lemma_call_args_fuel_irrelevant(
                        ts,
                        j + 1,
                        (f1 - 1) as nat,
                        (f2 - 1) as nat,
                        acc.push(e),
                    );
                }
            },
            _ => {},
        }
    }
}

/// A step budget only bounds recursion depth: enlarging a sufficient
/// budget never changes what a program parses.
pub proof fn lemma_parse_step_fuel_irrelevant(
    ts: Seq<TokenView>,
    i: int,
    f1: nat,
    f2: nat,
    k: nat,
    acc: Seq<NodeView>,
)
    requires
        f1 <= f2,
        !(sp_program(ts, i, f1, k, acc) is OutOfFuel),
    ensures
        sp_program(ts, i, f2, k, acc) == sp_program(ts, i, f1, k, acc),
    decreases f1,
{
    match tok_at(ts, i) {
        TokenView::EndOfInput => {},
        TokenView::Delimiter => {
            lemma_parse_step_fuel_irrelevant(ts, i + 1, (f1 - 1) as nat, (f2 - 1) as nat, k, acc);
        },
        TokenView::Def => match sp_prototype(ts, i + 1) {
            ParseStep::Done(proto, j) => {
                lemma_expression_fuel_irrelevant(ts, j, (f1 - 1) as nat, (f2 - 1) as nat);
                match sp_expression(ts, j, (f1 - 1) as nat) {
                    ParseStep::Done(body, j2) => {
                        lemma_parse_step_fuel_irrelevant(
                            ts,
                            j2,
                            (f1 - 1) as nat,
                            (f2 - 1) as nat,
                            k,
                            acc.push(NodeView::Function(FunctionView { prototype: proto, body })),
                        );
                    },
                    _ => {},
                }
            },
            _ => {},
        },
        TokenView::Extern => match sp_prototype(ts, i + 1) {
            ParseStep::Done(proto, j) => {
                lemma_parse_step_fuel_irrelevant(
                    ts,
                    j,
                    (f1 - 1) as nat,
                    (f2 - 1) as nat,
                    k,
                    acc.push(NodeView::Extern(proto)),
                );
            },
            _ => {},
        },
        _ => {
            lemma_expression_fuel_irrelevant(ts, i, (f1 - 1) as nat, (f2 - 1) as nat);
            match sp_expression(ts, i, (f1 - 1) as nat) {
                ParseStep::Done(body, j) => {
                    lemma_parse_step_fuel_irrelevant(
                        ts,
                        j,
                        (f1 - 1) as nat,
                        (f2 - 1) as nat,
                        k + 1,
                        acc.push(
                            NodeView::Function(
                                FunctionView {
                                    prototype: PrototypeView {
                                        name: anon_name(k),
                                        args: Seq::empty(),
                                    },
                                    body,
                                },
                            ),
                        ),
                    );
                },
                _ => {},
            }
        },
    }
}

/// Build the error for `t` standing where `msg` was expected.
fn unexpected(t: &Token, msg: String) -> (r: ParseError)
    ensures
        r@ == expect_err(t@, msg@),
{
    match t {
        Token::EndOfInput => ParseError::UnexpectedEndOfInput(msg),
        _ => ParseError::UnexpectedToken(t.duplicate(), msg),
    }
}

/// Append the decimal digits of `n`, most significant first.
fn push_decimal(n: u64, acc: &mut Vec<char>)
    ensures
        final(acc)@ == old(acc)@ + decimal_seq(n as nat),
    decreases n,
{
    if n >= 10 {
        push_decimal(n / 10, acc);
    }
    let d: u64 = n % 10;
    let c = if d == 0 {
        '0'
    } else if d == 1 {
        '1'
    } else if d == 2 {
        '2'
    } else if d == 3 {
        '3'
    } else if d == 4 {
        '4'
    } else if d == 5 {
        '5'
    } else if d == 6 {
        '6'
    } else if d == 7 {
        '7'
    } else if d == 8 {
        '8'
    } else {
        '9'
    };
    acc.push(c);
    proof {
        assert(acc@ =~= old(acc)@ + decimal_seq(n as nat));
    }
}

/// The synthetic name of the `k`-th anonymous top-level expression.
fn make_anon_name(k: u64) -> (r: String)
    ensures
        r@ == anon_name(k as nat),
{
    let mut digits: Vec<char> = Vec::new();
    push_decimal(k, &mut digits);
    let tail = crate::lexer::chars_to_string(&digits);
    let mut name = String::from_str("_anonymous_");
    name.append(tail.as_str());
    name
}

/// A recursive-descent parser over a token stream terminated by an
/// explicit end-of-input token (a stream that simply runs out is read the
/// same way). Every result of [`Parser::parse`] is pinned to the outcome
/// of the specification-level grammar functions on the stream's ghost
/// image.
pub struct Parser {
    buffer: Buffer<Token>,
}

impl Parser {
    /// The ghost image of the token stream.
    pub closed spec fn tokens(&self) -> Seq<TokenView> {
        self.buffer.stream().map_values(|t: Token| t@)
    }

    /// The position of the current token.
    pub closed spec fn pos(&self) -> int {
        self.buffer.cursor()
    }

    /// Well-formedness of the parser state.
    pub closed spec fn valid(&self) -> bool {
        self.buffer.valid() && 0 <= self.buffer.cursor()
    }

    proof fn pos_in_range(&self)
        requires
            self.valid(),
        ensures
            0 <= self.pos() <= self.tokens().len(),
            self.tokens().len() <= usize::MAX - 2,
    {
        self.buffer.cursor_in_range();
    }

    /// A parser positioned at the first of the given tokens.
    ///
    /// The length bound keeps the underlying window's offset arithmetic in
    /// range.
    pub fn new(tokens: Vec<Token>) -> (r: Parser)
        requires
            tokens@.len() <= usize::MAX - 2,
        ensures
            r.valid(),
            r.tokens() == tokens@.map_values(|t: Token| t@),
            r.pos() == 0,
    {
        let mut buffer = Buffer::new(tokens);
        buffer.init();
        Parser { buffer }
    }

    /// A copy of the current token; end of input reads as `EndOfInput`.
    fn curr(&self) -> (r: Token)
        requires
            self.valid(),
        ensures
            r@ == tok_at(self.tokens(), self.pos()),
    {
        proof {
            self.buffer.cursor_in_range();
        }
        match self.buffer.curr() {
            Some(t) => t.duplicate(),
            None => Token::EndOfInput,
        }
    }

    /// A copy of the token after the current one.
    fn peek(&self) -> (r: Token)
        requires
            self.valid(),
        ensures
            r@ == tok_at(self.tokens(), self.pos() + 1),
    {
        proof {
            self.buffer.cursor_in_range();
        }
        match self.buffer.peek() {
            Some(t) => t.duplicate(),
            None => Token::EndOfInput,
        }
    }

    /// Consume the current token.
    fn advance(&mut self)
        requires
            old(self).valid(),
        ensures
            final(self).valid(),
            final(self).tokens() == old(self).tokens(),
            final(self).pos() == if old(self).pos() < old(self).tokens().len() {
                old(self).pos() + 1
            } else {
                old(self).pos()
            },
    {
        self.buffer.advance();
    }

    /// Parse a number literal at the cursor.
    fn parse_number_expr(&mut self) -> (r: Result<Expression, ParseError>)
        requires
            old(self).valid(),
            tok_at(old(self).tokens(), old(self).pos()) is Number,
        ensures
            final(self).valid(),
            final(self).tokens() == old(self).tokens(),
            match r {
                Ok(e) => (exists |f: nat|
                    (#[trigger] sp_primary(old(self).tokens(), old(self).pos(), f)) == ParseStep::Done(
                        e@,
                        final(self).pos(),
                    )) && old(self).pos() < final(self).pos(),
                Err(pe) => exists |f: nat|
                    (#[trigger] sp_primary(old(self).tokens(), old(self).pos(), f)) == ParseStep::<
                        ExprView,
                    >::Fail(pe@),
            },
    {
        let ghost ts = self.tokens();
        let ghost p0 = self.pos();
        let t = self.curr();
        match t {
            Token::Number(s) => {
                self.advance();
                let e = Expression::NumberExpr(s);
                proof {
                    assert(sp_primary(ts, p0, 1) == ParseStep::Done(e@, p0 + 1));
                }
                Ok(e)
            },
            _ => vstd::pervasive::unreached(),
        }
    }

    /// Parse a parenthesized expression at the cursor; the parentheses are
    /// consumed and only the inner expression is kept.
    #[verifier::loop_isolation(false)]
    fn parse_parenthesis_expr(&mut self) -> (r: Result<Expression, ParseError>)
        requires
            old(self).valid(),
            tok_at(old(self).tokens(), old(self).pos()) is OpeningParenthesis,
        ensures
            final(self).valid(),
            final(self).tokens() == old(self).tokens(),
            match r {
                Ok(e) => (exists |f: nat|
                    (#[trigger] sp_primary(old(self).tokens(), old(self).pos(), f)) == ParseStep::Done(
                        e@,
                        final(self).pos(),
                    )) && old(self).pos() < final(self).pos(),
                Err(pe) => exists |f: nat|
                    (#[trigger] sp_primary(old(self).tokens(), old(self).pos(), f)) == ParseStep::<
                        ExprView,
                    >::Fail(pe@),
            },
        decreases self.tokens().len() - self.pos(), 1int,
    {
        let ghost ts = self.tokens();
        let ghost p0 = self.pos();
        proof {
            self.pos_in_range();
        }
        self.advance();
        let inner = match self.parse_expression() {
            Ok(e) => e,
            Err(err) => {
                proof {
                    let f = choose |f: nat|
                        (#[trigger] sp_expression(ts, p0 + 1, f)) == ParseStep::<ExprView>::Fail(err@);
                    assert(sp_primary(ts, p0, f + 1) == ParseStep::<ExprView>::Fail(err@));
                }
                return Err(err);
            },
        };
        let ghost fe = choose |f: nat|
            (#[trigger] sp_expression(ts, p0 + 1, f)) == ParseStep::Done(inner@, self.pos());
        let tc = self.curr();
        match tc {
            Token::ClosingParenthesis => {
                let ghost j = self.pos();
                self.advance();
                proof {
                    assert(sp_primary(ts, p0, fe + 1) == ParseStep::Done(inner@, j + 1));
                }
                Ok(inner)
            },
            _ => {
                let err = unexpected(&tc, String::from_str("expected )"));
                proof {
                    assert(sp_primary(ts, p0, fe + 1) == ParseStep::<ExprView>::Fail(err@));
                }
                Err(err)
            },
        }
    }

    /// Parse a variable reference or call at the cursor: an identifier
    /// immediately followed by `(` is a call, anything else a reference.
    #[verifier::loop_isolation(false)]
    fn parse_identifier_expr(&mut self) -> (r: Result<Expression, ParseError>)
        requires
            old(self).valid(),
            tok_at(old(self).tokens(), old(self).pos()) is Identifier,
        ensures
            final(self).valid(),
            final(self).tokens() == old(self).tokens(),
            match r {
                Ok(e) => (exists |f: nat|
                    (#[trigger] sp_primary(old(self).tokens(), old(self).pos(), f)) == ParseStep::Done(
                        e@,
                        final(self).pos(),
                    )) && old(self).pos() < final(self).pos(),
                Err(pe) => exists |f: nat|
                    (#[trigger] sp_primary(old(self).tokens(), old(self).pos(), f)) == ParseStep::<
                        ExprView,
                    >::Fail(pe@),
            },
        decreases self.tokens().len() - self.pos(), 1int,
    {
        let ghost ts = self.tokens();
        let ghost p0 = self.pos();
        proof {
            self.pos_in_range();
        }
        let t = self.curr();
        let name = match t {
            Token::Identifier(s) => s,
            _ => vstd::pervasive::unreached(),
        };
        self.advance();
        let t2 = self.curr();
        match t2 {
            Token::OpeningParenthesis => {},
            _ => {
                let e = Expression::VariableExpr(name);
                proof {
                    assert(sp_primary(ts, p0, 1) == ParseStep::Done(e@, p0 + 1));
                }
                return Ok(e);
            },
        }
        self.advance();
        let ghost astart = self.pos();
        let mut args: Vec<Expression> = Vec::new();
        proof {
            assert(exprs_view(args@) =~= Seq::<ExprView>::empty());
        }
        loop
            invariant
                self.valid(),
                self.tokens() == ts,
                astart <= self.pos() <= ts.len(),
                forall |f: nat|
                    (#[trigger] sp_call_args(ts, self.pos(), f, exprs_view(args@)))
                        is OutOfFuel || exists |g: nat|
                        (#[trigger] sp_call_args(ts, astart, g, Seq::empty())) == sp_call_args(
                            ts,
                            self.pos(),
                            f,
                            exprs_view(args@),
                        ),
            decreases ts.len() - self.pos(),
        {
            let ghost hpos = self.pos();
            let ghost hargs = exprs_view(args@);
            let tc = self.curr();
            match tc {
                Token::ClosingParenthesis => {
                    self.advance();
                    proof {
                        assert(sp_call_args(ts, hpos, 1, hargs) == ParseStep::Done(
                            hargs,
                            hpos + 1,
                        ));
                    }
                    let ghost g = choose |g: nat|
                        (#[trigger] sp_call_args(ts, astart, g, Seq::empty())) == ParseStep::Done(
                            hargs,
                            hpos + 1,
                        );
                    let e = Expression::CallExpr(name, args);
                    proof {
                        assert(sp_primary(ts, p0, g + 1) == ParseStep::Done(e@, hpos + 1));
                    }
                    return Ok(e);
                },
                _ => {
                    let arg = match self.parse_expression() {
                        Ok(e) => e,
                        Err(err) => {
                            proof {
                                let f = choose |f: nat|
                                    (#[trigger] sp_expression(ts, hpos, f)) == ParseStep::<ExprView>::Fail(
                                        err@,
                                    );
                                assert(sp_call_args(ts, hpos, f + 1, hargs)
                                    == ParseStep::<Seq<ExprView>>::Fail(err@));
                                let g = choose |g: nat|
                                    (#[trigger] sp_call_args(ts, astart, g, Seq::empty()))
                                        == ParseStep::<Seq<ExprView>>::Fail(err@);
                                assert(sp_primary(ts, p0, g + 1) == ParseStep::<ExprView>::Fail(
                                    err@,
                                ));
                            }
                            return Err(err);
                        },
                    };
                    let ghost argv = arg@;
                    let ghost j = self.pos();
                    let ghost fe = choose |f: nat|
                        (#[trigger] sp_expression(ts, hpos, f)) == ParseStep::Done(argv, j);
                    args.push(arg);
                    proof {
                        assert(exprs_view(args@) =~= hargs.push(argv));
                    }
                    let ts2 = self.curr();
                    match ts2 {
                        Token::Comma => {
                            self.advance();
                            proof {
                                self.pos_in_range();
                                assert forall |f: nat|
                                    !((#[trigger] sp_call_args(
                                        ts,
                                        self.pos(),
                                        f,
                                        exprs_view(args@),
                                    )) is OutOfFuel) implies exists |g: nat|
                                    (#[trigger] sp_call_args(ts, astart, g, Seq::empty())) == sp_call_args(
                                        ts,
                                        self.pos(),
                                        f,
                                        exprs_view(args@),
                                    ) by {
                                    let bigf = (f + fe + 1) as nat;
                                    lemma_expression_fuel_irrelevant(
                                        ts,
                                        hpos,
                                        fe,
                                        (bigf - 1) as nat,
                                    );
                                    lemma_call_args_fuel_irrelevant(
                                        ts,
                                        j + 1,
                                        f,
                                        (bigf - 1) as nat,
                                        hargs.push(argv),
                                    );
                                    assert(sp_call_args(ts, hpos, bigf, hargs) == sp_call_args(
                                        ts,
                                        self.pos(),
                                        f,
                                        exprs_view(args@),
                                    ));
                                }
                            }
                        },
                        Token::ClosingParenthesis => {
                            self.advance();
                            proof {
                                assert(sp_call_args(ts, hpos, fe + 1, hargs) == ParseStep::Done(
                                    hargs.push(argv),
                                    j + 1,
                                ));
                            }
                            let ghost g = choose |g: nat|
                                (#[trigger] sp_call_args(ts, astart, g, Seq::empty())) == ParseStep::Done(
                                    hargs.push(argv),
                                    j + 1,
                                );
                            let e = Expression::CallExpr(name, args);
                            proof {
                                assert(sp_primary(ts, p0, g + 1) == ParseStep::Done(e@, j + 1));
                            }
                            return Ok(e);
                        },
                        _ => {
                            let err = unexpected(
                                &ts2,
                                String::from_str("expected , or ) in argument list"),
                            );
                            proof {
                                assert(sp_call_args(ts, hpos, fe + 1, hargs)
                                    == ParseStep::<Seq<ExprView>>::Fail(err@));
                                let g = choose |g: nat|
                                    (#[trigger] sp_call_args(ts, astart, g, Seq::empty()))
                                        == ParseStep::<Seq<ExprView>>::Fail(err@);
                                assert(sp_primary(ts, p0, g + 1) == ParseStep::<ExprView>::Fail(
                                    err@,
                                ));
                            }
                            return Err(err);
                        },
                    }
                },
            }
        }
    }

    /// Parse one primary expression at the cursor.
    fn parse_primary(&mut self) -> (r: Result<Expression, ParseError>)
        requires
            old(self).valid(),
        ensures
            final(self).valid(),
            final(self).tokens() == old(self).tokens(),
            match r {
                Ok(e) => (exists |f: nat|
                    (#[trigger] sp_primary(old(self).tokens(), old(self).pos(), f)) == ParseStep::Done(
                        e@,
                        final(self).pos(),
                    )) && old(self).pos() < final(self).pos(),
                Err(pe) => exists |f: nat|
                    (#[trigger] sp_primary(old(self).tokens(), old(self).pos(), f)) == ParseStep::<
                        ExprView,
                    >::Fail(pe@),
            },
        decreases self.tokens().len() - self.pos(), 2int,
    {
        let ghost ts = self.tokens();
        let ghost p0 = self.pos();
        let t = self.curr();
        match t {
            Token::Identifier(_) => self.parse_identifier_expr(),
            Token::Number(_) => self.parse_number_expr(),
            Token::OpeningParenthesis => self.parse_parenthesis_expr(),
            _ => {
                let err = unexpected(&t, String::from_str("expected identifier, number or ("));
                proof {
                    assert(sp_primary(ts, p0, 1) == ParseStep::<ExprView>::Fail(err@));
                }
                Err(err)
            },
        }
    }

    /// Parse the operator continuations of `lhs` with threshold `min_prec`.
    #[verifier::loop_isolation(false)]
    fn parse_bin_op_rhs(&mut self, min_prec: u32, lhs: Expression) -> (r: Result<
        Expression,
        ParseError,
    >)
        requires
            old(self).valid(),
        ensures
            final(self).valid(),
            final(self).tokens() == old(self).tokens(),
            match r {
                Ok(e) => (exists |f: nat|
                    (#[trigger] sp_binop_rhs(
                        old(self).tokens(),
                        old(self).pos(),
                        f,
                        min_prec as int,
                        lhs@,
                    )) == ParseStep::Done(e@, final(self).pos())) && old(self).pos() <= final(self).pos(),
                Err(pe) => exists |f: nat|
                    (#[trigger] sp_binop_rhs(old(self).tokens(), old(self).pos(), f, min_prec as int, lhs@))
                        == ParseStep::<ExprView>::Fail(pe@),
            },
        decreases self.tokens().len() - self.pos(), 0int,
    {
        let ghost ts = self.tokens();
        let ghost p0 = self.pos();
        let ghost lhs0 = lhs@;
        proof {
            self.pos_in_range();
        }
        let mut lhs = lhs;
        loop
            invariant
                self.valid(),
                self.tokens() == ts,
                p0 <= self.pos() <= ts.len(),
                forall |f: nat|
                    (#[trigger] sp_binop_rhs(ts, self.pos(), f, min_prec as int, lhs@))
                        is OutOfFuel || exists |g: nat|
                        (#[trigger] sp_binop_rhs(ts, p0, g, min_prec as int, lhs0)) == sp_binop_rhs(
                            ts,
                            self.pos(),
                            f,
                            min_prec as int,
                            lhs@,
                        ),
            decreases ts.len() - self.pos(),
        {
            let ghost hpos = self.pos();
            let ghost hlhs = lhs@;
            let t = self.curr();
            let op = match t {
                Token::BinOp(c) => c,
                _ => {
                    proof {
                        assert(sp_binop_rhs(ts, hpos, 1, min_prec as int, hlhs) == ParseStep::Done(
                            hlhs,
                            hpos,
                        ));
                    }
                    return Ok(lhs);
                },
            };
            let prec = match get_binop_precedences(op) {
                Some(p) => p,
                None => {
                    let err = ParseError::UnknownOperator(op);
                    proof {
                        assert(sp_binop_rhs(ts, hpos, 1, min_prec as int, hlhs)
                            == ParseStep::<ExprView>::Fail(err@));
                    }
                    return Err(err);
                },
            };
            if prec < min_prec {
                proof {
                    assert(sp_binop_rhs(ts, hpos, 1, min_prec as int, hlhs) == ParseStep::Done(
                        hlhs,
                        hpos,
                    ));
                }
                return Ok(lhs);
            }
            self.advance();
            let rhs0 = match self.parse_primary() {
                Ok(e) => e,
                Err(err) => {
                    proof {
                        let f = choose |f: nat|
                            (#[trigger] sp_primary(ts, hpos + 1, f)) == ParseStep::<ExprView>::Fail(err@);
                        assert(sp_binop_rhs(ts, hpos, f + 1, min_prec as int, hlhs)
                            == ParseStep::<ExprView>::Fail(err@));
                    }
                    return Err(err);
                },
            };
            let ghost rv0 = rhs0@;
            let ghost j = self.pos();
            let ghost fp = choose |f: nat| (#[trigger] sp_primary(ts, hpos + 1, f)) == ParseStep::Done(rv0, j);
            let t2 = self.curr();
            let mut prec2_gt = false;
            match &t2 {
                Token::BinOp(op2) => {
                    match get_binop_precedences(*op2) {
                        Some(p2) => {
                            if p2 > prec {
                                prec2_gt = true;
                            }
                        },
                        None => {
                            let err = ParseError::UnknownOperator(*op2);
                            proof {
                                assert(sp_binop_rhs(ts, hpos, fp + 1, min_prec as int, hlhs)
                                    == ParseStep::<ExprView>::Fail(err@));
                            }
                            return Err(err);
                        },
                    }
                },
                _ => {},
            }
            let rhs = if prec2_gt {
                match self.parse_bin_op_rhs(prec + 1, rhs0) {
                    Ok(e) => e,
                    Err(err) => {
                        proof {
                            let f = choose |f: nat|
                                (#[trigger] sp_binop_rhs(ts, j, f, prec as int + 1, rv0)) == ParseStep::<
                                    ExprView,
                                >::Fail(err@);
                            let bigf = (f + fp + 1) as nat;
                            lemma_primary_fuel_irrelevant(ts, hpos + 1, fp, (bigf - 1) as nat);
                            lemma_binop_rhs_fuel_irrelevant(
                                ts,
                                j,
                                f,
                                (bigf - 1) as nat,
                                prec as int + 1,
                                rv0,
                            );
                            assert(sp_binop_rhs(ts, hpos, bigf, min_prec as int, hlhs)
                                == ParseStep::<ExprView>::Fail(err@));
                        }
                        return Err(err);
                    },
                }
            } else {
                rhs0
            };
            let ghost rv = rhs@;
            let ghost j2 = self.pos();
            lhs = Expression::BinaryExpr(op, Box::new(lhs), Box::new(rhs));
            proof {
                self.pos_in_range();
                assert(lhs@ == ExprView::Binary(op, Box::new(hlhs), Box::new(rv)));
                if prec2_gt {
                    let fc = choose |f: nat|
                        (#[trigger] sp_binop_rhs(ts, j, f, prec as int + 1, rv0)) == ParseStep::Done(rv, j2);
                    assert forall |f: nat|
                        !((#[trigger] sp_binop_rhs(ts, j2, f, min_prec as int, lhs@))
                            is OutOfFuel) implies exists |g: nat|
                        (#[trigger] sp_binop_rhs(ts, p0, g, min_prec as int, lhs0)) == sp_binop_rhs(
                            ts,
                            j2,
                            f,
                            min_prec as int,
                            lhs@,
                        ) by {
                        let bigf = (f + fc + fp + 1) as nat;
                        lemma_primary_fuel_irrelevant(ts, hpos + 1, fp, (bigf - 1) as nat);
                        lemma_binop_rhs_fuel_irrelevant(
                            ts,
                            j,
                            fc,
                            (bigf - 1) as nat,
                            prec as int + 1,
                            rv0,
                        );
                        lemma_binop_rhs_fuel_irrelevant(
                            ts,
                            j2,
                            f,
                            (bigf - 1) as nat,
                            min_prec as int,
                            lhs@,
                        );
                        assert(sp_binop_rhs(ts, hpos, bigf, min_prec as int, hlhs)
                            == sp_binop_rhs(ts, j2, f, min_prec as int, lhs@));
                    }
                } else {
                    assert forall |f: nat|
                        !((#[trigger] sp_binop_rhs(ts, j, f, min_prec as int, lhs@))
                            is OutOfFuel) implies exists |g: nat|
                        (#[trigger] sp_binop_rhs(ts, p0, g, min_prec as int, lhs0)) == sp_binop_rhs(
                            ts,
                            j,
                            f,
                            min_prec as int,
                            lhs@,
                        ) by {
                        let bigf = (f + fp + 1) as nat;
                        lemma_primary_fuel_irrelevant(ts, hpos + 1, fp, (bigf - 1) as nat);
                        lemma_binop_rhs_fuel_irrelevant(
                            ts,
                            j,
                            f,
                            (bigf - 1) as nat,
                            min_prec as int,
                            lhs@,
                        );
                        assert(sp_binop_rhs(ts, hpos, bigf, min_prec as int, hlhs)
                            == sp_binop_rhs(ts, j, f, min_prec as int, lhs@));
                    }
                }
            }
        }
    }

    /// Parse one full expression at the cursor.
    fn parse_expression(&mut self) -> (r: Result<Expression, ParseError>)
        requires
            old(self).valid(),
        ensures
            final(self).valid(),
            final(self).tokens() == old(self).tokens(),
            match r {
                Ok(e) => (exists |f: nat|
                    (#[trigger] sp_expression(old(self).tokens(), old(self).pos(), f)) == ParseStep::Done(
                        e@,
                        final(self).pos(),
                    )) && old(self).pos() < final(self).pos(),
                Err(pe) => exists |f: nat|
                    (#[trigger] sp_expression(old(self).tokens(), old(self).pos(), f)) == ParseStep::<
                        ExprView,
                    >::Fail(pe@),
            },
        decreases self.tokens().len() - self.pos(), 3int,
    {
        let ghost ts = self.tokens();
        let ghost p0 = self.pos();
        let lhs = match self.parse_primary() {
            Ok(e) => e,
            Err(err) => {
                proof {
                    let f = choose |f: nat|
                        (#[trigger] sp_primary(ts, p0, f)) == ParseStep::<ExprView>::Fail(err@);
                    assert(sp_expression(ts, p0, f + 1) == ParseStep::<ExprView>::Fail(err@));
                }
                return Err(err);
            },
        };
        let ghost lv = lhs@;
        let ghost j = self.pos();
        let ghost fp = choose |f: nat| (#[trigger] sp_primary(ts, p0, f)) == ParseStep::Done(lv, j);
        proof {
            self.pos_in_range();
        }
        match self.parse_bin_op_rhs(0, lhs) {
            Ok(e) => {
                proof {
                    let fb = choose |f: nat|
                        (#[trigger] sp_binop_rhs(ts, j, f, 0int, lv)) == ParseStep::Done(e@, self.pos());
                    let bigf = (fp + fb + 1) as nat;
                    lemma_primary_fuel_irrelevant(ts, p0, fp, (bigf - 1) as nat);
                    lemma_binop_rhs_fuel_irrelevant(ts, j, fb, (bigf - 1) as nat, 0int, lv);
                    assert(sp_expression(ts, p0, bigf) == ParseStep::Done(e@, self.pos()));
                }
                Ok(e)
            },
            Err(err) => {
                proof {
                    let fb = choose |f: nat|
                        (#[trigger] sp_binop_rhs(ts, j, f, 0int, lv)) == ParseStep::<ExprView>::Fail(err@);
                    let bigf = (fp + fb + 1) as nat;
                    lemma_primary_fuel_irrelevant(ts, p0, fp, (bigf - 1) as nat);
                    lemma_binop_rhs_fuel_irrelevant(ts, j, fb, (bigf - 1) as nat, 0int, lv);
                    assert(sp_expression(ts, p0, bigf) == ParseStep::<ExprView>::Fail(err@));
                }
                Err(err)
            },
        }
    }

    /// Parse a prototype at the cursor: a name, `(`, comma-delimited
    /// parameter names, `)`.
    #[verifier::loop_isolation(false)]
    fn parse_prototype(&mut self) -> (r: Result<Prototype, ParseError>)
        requires
            old(self).valid(),
        ensures
            final(self).valid(),
            final(self).tokens() == old(self).tokens(),
            match r {
                Ok(p) => sp_prototype(old(self).tokens(), old(self).pos()) == ParseStep::Done(
                    p@,
                    final(self).pos(),
                ) && old(self).pos() < final(self).pos(),
                Err(pe) => sp_prototype(old(self).tokens(), old(self).pos()) == ParseStep::<
                    PrototypeView,
                >::Fail(pe@),
            },
    {
        let ghost ts = self.tokens();
        let ghost p0 = self.pos();
        proof {
            self.pos_in_range();
        }
        let t = self.curr();
        let name = match t {
            Token::Identifier(s) => s,
            _ => {
                let err = unexpected(&t, String::from_str("expected function name"));
                return Err(err);
            },
        };
        self.advance();
        let t2 = self.curr();
        match t2 {
            Token::OpeningParenthesis => {},
            _ => {
                let err = unexpected(&t2, String::from_str("expected ( in prototype"));
                return Err(err);
            },
        }
        self.advance();
        let ghost astart = self.pos();
        let mut args: Vec<String> = Vec::new();
        proof {
            assert(strings_view(args@) =~= Seq::<Seq<char>>::empty());
        }
        loop
            invariant
                self.valid(),
                self.tokens() == ts,
                astart <= self.pos() <= ts.len(),
                sp_params(ts, astart, Seq::empty()) == sp_params(
                    ts,
                    self.pos(),
                    strings_view(args@),
                ),
            decreases ts.len() - self.pos(),
        {
            let ghost hpos = self.pos();
            let ghost hargs = strings_view(args@);
            let t3 = self.curr();
            match t3 {
                Token::ClosingParenthesis => {
                    self.advance();
                    let p = Prototype { name, args };
                    proof {
                        assert(sp_params(ts, hpos, hargs) == ParseStep::Done(hargs, hpos + 1));
                        assert(sp_prototype(ts, p0) == ParseStep::Done(p@, hpos + 1));
                    }
                    return Ok(p);
                },
                Token::Identifier(s) => {
                    let ghost sv = s@;
                    let t4 = self.peek();
                    match t4 {
                        Token::Comma => {
                            args.push(s);
                            self.advance();
                            self.advance();
                            proof {
                                self.pos_in_range();
                                assert(strings_view(args@) =~= hargs.push(sv));
                            }
                        },
                        Token::ClosingParenthesis => {
                            args.push(s);
                            self.advance();
                            self.advance();
                            let p = Prototype { name, args };
                            proof {
                                assert(strings_view(p.args@) =~= hargs.push(sv));
                                assert(sp_params(ts, hpos, hargs) == ParseStep::Done(
                                    hargs.push(sv),
                                    hpos + 2,
                                ));
                                assert(sp_prototype(ts, p0) == ParseStep::Done(p@, hpos + 2));
                            }
                            return Ok(p);
                        },
                        _ => {
                            let err = unexpected(
                                &t4,
                                String::from_str("expected , or ) in parameter list"),
                            );
                            return Err(err);
                        },
                    }
                },
                _ => {
                    let err = unexpected(
                        &t3,
                        String::from_str("expected parameter name or )"),
                    );
                    return Err(err);
                },
            }
        }
    }

    /// Parse an `extern` declaration at the cursor: the keyword, then a
    /// prototype.
    fn parse_extern(&mut self) -> (r: Result<Prototype, ParseError>)
        requires
            old(self).valid(),
            tok_at(old(self).tokens(), old(self).pos()) is Extern,
        ensures
            final(self).valid(),
            final(self).tokens() == old(self).tokens(),
            match r {
                Ok(p) => sp_prototype(old(self).tokens(), old(self).pos() + 1) == ParseStep::Done(
                    p@,
                    final(self).pos(),
                ) && old(self).pos() < final(self).pos(),
                Err(pe) => sp_prototype(old(self).tokens(), old(self).pos() + 1) == ParseStep::<
                    PrototypeView,
                >::Fail(pe@),
            },
    {
        proof {
            self.pos_in_range();
        }
        self.advance();
        self.parse_prototype()
    }

    /// Parse a function definition at the cursor: the `def` keyword, a
    /// prototype, then one expression body.
    fn parse_function(&mut self) -> (r: Result<Function, ParseError>)
        requires
            old(self).valid(),
            tok_at(old(self).tokens(), old(self).pos()) is Def,
        ensures
            final(self).valid(),
            final(self).tokens() == old(self).tokens(),
            match r {
                Ok(func) => (sp_prototype(old(self).tokens(), old(self).pos() + 1) matches
                    ParseStep::Done(p, j) && p == func.prototype@ && exists |f: nat|
                    (#[trigger] sp_expression(old(self).tokens(), j, f)) == ParseStep::Done(
                        func.body@,
                        final(self).pos(),
                    )) && old(self).pos() < final(self).pos(),
                Err(pe) => sp_prototype(old(self).tokens(), old(self).pos() + 1) == ParseStep::<
                    PrototypeView,
                >::Fail(pe@) || (sp_prototype(old(self).tokens(), old(self).pos() + 1) matches
                    ParseStep::Done(p, j) && exists |f: nat|
                    (#[trigger] sp_expression(old(self).tokens(), j, f)) == ParseStep::<
                        ExprView,
                    >::Fail(pe@)),
            },
    {
        proof {
            self.pos_in_range();
        }
        let ghost ts = self.tokens();
        let ghost p0 = self.pos();
        self.advance();
        let prototype = match self.parse_prototype() {
            Ok(p) => p,
            Err(err) => {
                return Err(err);
            },
        };
        let ghost jp = self.pos();
        proof {
            assert(sp_prototype(ts, p0 + 1) == ParseStep::Done(prototype@, jp));
        }
        let body = match self.parse_expression() {
            Ok(b) => b,
            Err(err) => {
                proof {
                    assert(sp_prototype(ts, p0 + 1) is Done);
                    assert(sp_prototype(ts, p0 + 1)->Done_1 == jp);
                    assert(exists |f: nat|
                        (#[trigger] sp_expression(ts, jp, f)) == ParseStep::<ExprView>::Fail(
                            err@,
                        ));
                }
                return Err(err);
            },
        };
        proof {
            assert(sp_prototype(ts, p0 + 1)->Done_0 == prototype@);
            assert(sp_prototype(ts, p0 + 1)->Done_1 == jp);
            assert(exists |f: nat|
                (#[trigger] sp_expression(ts, jp, f)) == ParseStep::Done(body@, self.pos()));
        }
        Ok(Function { prototype, body })
    }

    /// Parse the whole token stream into a [`Program`], stopping at the
    /// first error. A `def` yields a function definition, an `extern` a
    /// prototype-only declaration, a bare `;` is skipped, and any other
    /// token starts a top-level expression wrapped into a uniquely named
    /// nullary function.
    #[verifier::loop_isolation(false)]
    pub fn parse(&mut self) -> (r: Result<Program, ParseError>)
        requires
            old(self).valid(),
        ensures
            final(self).valid(),
            final(self).tokens() == old(self).tokens(),
            match r {
                Ok(prog) => exists |g: nat|
                    (#[trigger] sp_program(old(self).tokens(), old(self).pos(), g, 0, Seq::empty()))
                        matches ParseStep::Done(out, j) && out == program_view(prog),
                Err(pe) => exists |g: nat|
                    (#[trigger] sp_program(old(self).tokens(), old(self).pos(), g, 0, Seq::empty()))
                        == ParseStep::<Seq<NodeView>>::Fail(pe@),
            },
    {
        let ghost ts = self.tokens();
        let ghost p0 = self.pos();
        proof {
            self.pos_in_range();
        }
        let mut program: Program = Vec::new();
        let mut anon: u64 = 0;
        proof {
            assert(nodes_view(program@) =~= Seq::<NodeView>::empty());
        }
        loop
            invariant
                self.valid(),
                self.tokens() == ts,
                p0 <= self.pos() <= ts.len(),
                anon as int <= self.pos(),
                forall |f: nat|
                    (#[trigger] sp_program(ts, self.pos(), f, anon as nat, nodes_view(program@)))
                        is OutOfFuel || exists |g: nat|
                        (#[trigger] sp_program(ts, p0, g, 0, Seq::empty())) == sp_program(
                            ts,
                            self.pos(),
                            f,
                            anon as nat,
                            nodes_view(program@),
                        ),
            decreases ts.len() - self.pos(),
        {
            let ghost hpos = self.pos();
            let ghost hk = anon as nat;
            let ghost hacc = nodes_view(program@);
            let t = self.curr();
            match t {
                Token::EndOfInput => {
                    proof {
                        assert(sp_program(ts, hpos, 1, hk, hacc) == ParseStep::Done(hacc, hpos));
                    }
                    return Ok(program);
                },
                Token::Delimiter => {
                    self.advance();
                    proof {
                        self.pos_in_range();
                        assert forall |f: nat|
                            !((#[trigger] sp_program(ts, self.pos(), f, hk, hacc))
                                is OutOfFuel) implies exists |g: nat|
                            (#[trigger] sp_program(ts, p0, g, 0, Seq::empty())) == sp_program(
                                ts,
                                self.pos(),
                                f,
                                hk,
                                hacc,
                            ) by {
                            assert(sp_program(ts, hpos, f + 1, hk, hacc) == sp_program(
                                ts,
                                self.pos(),
                                f,
                                hk,
                                hacc,
                            ));
                        }
                    }
                },
                Token::Def => {
                    let func = match self.parse_function() {
                        Ok(fd) => fd,
                        Err(err) => {
                            proof {
                                if sp_prototype(ts, hpos + 1) == ParseStep::<
                                    PrototypeView,
                                >::Fail(err@) {
                                    assert(sp_program(ts, hpos, 1, hk, hacc) == ParseStep::<
                                        Seq<NodeView>,
                                    >::Fail(err@));
                                } else {
                                    let j = sp_prototype(ts, hpos + 1)->Done_1;
                                    let f = choose |f: nat|
                                        (#[trigger] sp_expression(ts, j, f)) == ParseStep::<
                                            ExprView,
                                        >::Fail(err@);
                                    assert(sp_program(ts, hpos, f + 1, hk, hacc) == ParseStep::<
                                        Seq<NodeView>,
                                    >::Fail(err@));
                                }
                                let g = choose |g: nat|
                                    (#[trigger] sp_program(ts, p0, g, 0, Seq::empty())) == ParseStep::<
                                        Seq<NodeView>,
                                    >::Fail(err@);
                            }
                            return Err(err);
                        },
                    };
                    let ghost fv = func@;
                    let ghost j2 = self.pos();
                    let ghost j = sp_prototype(ts, hpos + 1)->Done_1;
                    let ghost fe = choose |f: nat|
                        (#[trigger] sp_expression(ts, j, f)) == ParseStep::Done(fv.body, j2);
                    program.push(ASTNode::FunctionNode(func));
                    proof {
                        self.pos_in_range();
                        assert(nodes_view(program@) =~= hacc.push(NodeView::Function(fv)));
                        assert forall |f: nat|
                            !((#[trigger] sp_program(
                                ts,
                                self.pos(),
                                f,
                                hk,
                                nodes_view(program@),
                            )) is OutOfFuel) implies exists |g: nat|
                            (#[trigger] sp_program(ts, p0, g, 0, Seq::empty())) == sp_program(
                                ts,
                                self.pos(),
                                f,
                                hk,
                                nodes_view(program@),
                            ) by {
                            let bigf = (f + fe + 1) as nat;
                            lemma_expression_fuel_irrelevant(ts, j, fe, (bigf - 1) as nat);
                            lemma_parse_step_fuel_irrelevant(
                                ts,
                                j2,
                                f,
                                (bigf - 1) as nat,
                                hk,
                                hacc.push(NodeView::Function(fv)),
                            );
                            assert(sp_program(ts, hpos, bigf, hk, hacc) == sp_program(
                                ts,
                                self.pos(),
                                f,
                                hk,
                                nodes_view(program@),
                            ));
                        }
                    }
                },
                Token::Extern => {
                    let proto = match self.parse_extern() {
                        Ok(p) => p,
                        Err(err) => {
                            proof {
                                assert(sp_program(ts, hpos, 1, hk, hacc) == ParseStep::<
                                    Seq<NodeView>,
                                >::Fail(err@));
                            }
                            return Err(err);
                        },
                    };
                    let ghost pv = proto@;
                    let ghost j2 = self.pos();
                    program.push(ASTNode::ExternNode(proto));
                    proof {
                        self.pos_in_range();
                        assert(nodes_view(program@) =~= hacc.push(NodeView::Extern(pv)));
                        assert forall |f: nat|
                            !((#[trigger] sp_program(
                                ts,
                                self.pos(),
                                f,
                                hk,
                                nodes_view(program@),
                            )) is OutOfFuel) implies exists |g: nat|
                            (#[trigger] sp_program(ts, p0, g, 0, Seq::empty())) == sp_program(
                                ts,
                                self.pos(),
                                f,
                                hk,
                                nodes_view(program@),
                            ) by {
                            assert(sp_program(ts, hpos, f + 1, hk, hacc) == sp_program(
                                ts,
                                self.pos(),
                                f,
                                hk,
                                nodes_view(program@),
                            ));
                        }
                    }
                },
                _ => {
                    let body = match self.parse_expression() {
                        Ok(b) => b,
                        Err(err) => {
                            proof {
                                let f = choose |f: nat|
                                    (#[trigger] sp_expression(ts, hpos, f)) == ParseStep::<ExprView>::Fail(
                                        err@,
                                    );
                                assert(sp_program(ts, hpos, f + 1, hk, hacc) == ParseStep::<
                                    Seq<NodeView>,
                                >::Fail(err@));
                            }
                            return Err(err);
                        },
                    };
                    let ghost bv = body@;
                    let ghost j2 = self.pos();
                    let ghost fe = choose |f: nat|
                        (#[trigger] sp_expression(ts, hpos, f)) == ParseStep::Done(bv, j2);
                    let name = make_anon_name(anon);
                    anon = anon + 1;
                    let func = Function {
                        prototype: Prototype { name, args: Vec::new() },
                        body,
                    };
                    let ghost fv = func@;
                    program.push(ASTNode::FunctionNode(func));
                    proof {
                        self.pos_in_range();
                        assert(fv.prototype.args =~= Seq::<Seq<char>>::empty());
                        assert(fv == FunctionView {
                            prototype: PrototypeView { name: anon_name(hk), args: Seq::empty() },
                            body: bv,
                        });
                        assert(nodes_view(program@) =~= hacc.push(NodeView::Function(fv)));
                        assert forall |f: nat|
                            !((#[trigger] sp_program(
                                ts,
                                self.pos(),
                                f,
                                anon as nat,
                                nodes_view(program@),
                            )) is OutOfFuel) implies exists |g: nat|
                            (#[trigger] sp_program(ts, p0, g, 0, Seq::empty())) == sp_program(
                                ts,
                                self.pos(),
                                f,
                                anon as nat,
                                nodes_view(program@),
                            ) by {
                            let bigf = (f + fe + 1) as nat;
                            lemma_expression_fuel_irrelevant(ts, hpos, fe, (bigf - 1) as nat);
                            lemma_parse_step_fuel_irrelevant(
                                ts,
                                j2,
                                f,
                                (bigf - 1) as nat,
                                (hk + 1) as nat,
                                hacc.push(NodeView::Function(fv)),
                            );
                            assert(sp_program(ts, hpos, bigf, hk, hacc) == sp_program(
                                ts,
                                self.pos(),
                                f,
                                anon as nat,
                                nodes_view(program@),
                            ));
                        }
                    }
                },
            }
        }
    }
}

/// Parsing is deterministic: any two step budgets that let the grammar
/// functions finish yield the same outcome for the same token sequence,
/// so one token sequence parses to exactly one program or error.
pub proof fn lemma_parse_deterministic(ts: Seq<TokenView>, f1: nat, f2: nat)
    requires
        !(sp_program(ts, 0, f1, 0, Seq::empty()) is OutOfFuel),
        !(sp_program(ts, 0, f2, 0, Seq::empty()) is OutOfFuel),
    ensures
        sp_program(ts, 0, f1, 0, Seq::empty()) == sp_program(ts, 0, f2, 0, Seq::empty()),
{
    if f1 <= f2 {
        lemma_parse_step_fuel_irrelevant(ts, 0, f1, f2, 0, Seq::empty());
    } else {
        lemma_parse_step_fuel_irrelevant(ts, 0, f2, f1, 0, Seq::empty());
    }
}

} // verus!
