//! The recursive-descent parser.
//!
//! The `sp_*` functions are the grammar written as mathematics: each takes
//! the token sequence and a position and yields the parsed tree and the
//! position after it, or the positioned error. The `Parser` methods are
//! proved to return exactly what the corresponding `sp_*` function says.
//!
//! Precedence, lowest to highest binding: assignment, or, and, equality,
//! comparison, term, factor, unary, call, primary; every binary and
//! logical level folds left. Assignment is right-associative and only a
//! bare variable is a valid target. `else` binds to the nearest `if`.

use crate::expr::{Expr, ExprV};
use crate::stmt::{Stmt, StmtV};
use crate::token::{Token, TokenV};
use crate::token_type::TokenType;
use vstd::prelude::*;

verus! {

broadcast use vstd::std_specs::vec::group_vec_axioms;

/// A positioned grammar failure: the offending token and a message.
#[derive(Debug)]
pub enum ParseError {
    Error(Token, String),
}

/// The mathematical value of a `ParseError`.
pub struct ParseErrV {
    pub token: TokenV,
    pub message: Seq<char>,
}

impl View for ParseError {
    type V = ParseErrV;

    open spec fn view(&self) -> ParseErrV {
        match self {
            ParseError::Error(t, m) => ParseErrV { token: t@, message: m@ },
        }
    }
}

/// What a grammar production yields at a position: a parsed value and the
/// position after it, or a failure.
pub enum ParseOut<A> {
    Done { v: A, next: int },
    Fail { err: ParseErrV },
}

/// The token at a position; out of range stands for the end-marker, which
/// a scanned sequence always ends with.
pub open spec fn tok_at(toks: Seq<TokenV>, p: int) -> TokenV {
    if 0 <= p < toks.len() {
        toks[p]
    } else {
        TokenV {
            token_type: TokenType::Eof,
            lexeme: Seq::empty(),
            line: 0,
            literal: Option::None,
        }
    }
}

pub open spec fn at_end(toks: Seq<TokenV>, p: int) -> bool {
    tok_at(toks, p).token_type == TokenType::Eof
}

/// The parser's check: the position holds `t` and is not the end-marker.
pub open spec fn check_at(toks: Seq<TokenV>, p: int, t: TokenType) -> bool {
    !at_end(toks, p) && tok_at(toks, p).token_type == t
}

/// Forces strict progress; every production does move forward, so this is
/// the computed position wherever the grammar is actually evaluated.
pub open spec fn bump(pos: int, next: int) -> int {
    if next > pos {
        next
    } else {
        pos + 1
    }
}

/// Expect-or-fail for one token kind.
pub open spec fn sp_consume(toks: Seq<TokenV>, pos: int, t: TokenType, msg: Seq<char>) -> ParseOut<
    TokenV,
> {
    if check_at(toks, pos, t) {
        ParseOut::Done { v: tok_at(toks, pos), next: pos + 1 }
    } else {
        ParseOut::Fail { err: ParseErrV { token: tok_at(toks, pos), message: msg } }
    }
}

/// The tokens left from `pos` on: the termination measure of the grammar
/// functions.
pub open spec fn rem(toks: Seq<TokenV>, pos: int) -> nat {
    if pos <= toks.len() {
        (toks.len() - pos) as nat
    } else {
        0
    }
}

pub open spec fn sp_primary(toks: Seq<TokenV>, pos: int) -> ParseOut<ExprV>
    decreases rem(toks, pos), 0int, 0int,
{
    let t = tok_at(toks, pos);
    if check_at(toks, pos, TokenType::False) || check_at(toks, pos, TokenType::True) || check_at(
        toks,
        pos,
        TokenType::Nil,
    ) || check_at(toks, pos, TokenType::Number) || check_at(toks, pos, TokenType::String) {
        ParseOut::Done { v: ExprV::Literal { value: t }, next: pos + 1 }
    } else if check_at(toks, pos, TokenType::Identifier) {
        ParseOut::Done { v: ExprV::Variable { name: t }, next: pos + 1 }
    } else if check_at(toks, pos, TokenType::LeftParen) {
        match sp_expression(toks, pos + 1) {
            ParseOut::Done { v, next } => match sp_consume(
                toks,
                bump(pos, next),
                TokenType::RightParen,
                "Expect ')' after expression."@,
            ) {
                ParseOut::Done { v: _, next: n2 } => ParseOut::Done {
                    v: ExprV::Grouping { expression: Box::new(v) },
                    next: n2,
                },
                ParseOut::Fail { err } => ParseOut::Fail { err },
            },
            ParseOut::Fail { err } => ParseOut::Fail { err },
        }
    } else {
        ParseOut::Fail { err: ParseErrV { token: t, message: "Expect expression."@ } }
    }
}

/// The comma-separated expressions of a call's argument list.
pub open spec fn sp_arguments(toks: Seq<TokenV>, pos: int) -> ParseOut<Seq<ExprV>>
    decreases rem(toks, pos), 28int, 1int,
{
    match sp_expression(toks, pos) {
        ParseOut::Done { v, next } => sp_arguments_tail(seq![v], toks, bump(pos, next)),
        ParseOut::Fail { err } => ParseOut::Fail { err },
    }
}

pub open spec fn sp_arguments_tail(vs: Seq<ExprV>, toks: Seq<TokenV>, pos: int) -> ParseOut<
    Seq<ExprV>,
>
    decreases rem(toks, pos), 28int, 0int,
{
    if check_at(toks, pos, TokenType::Comma) {
        match sp_expression(toks, pos + 1) {
            ParseOut::Done { v, next } => sp_arguments_tail(vs.push(v), toks, bump(pos, next)),
            ParseOut::Fail { err } => ParseOut::Fail { err },
        }
    } else {
        ParseOut::Done { v: vs, next: pos }
    }
}

/// Zero or more completed calls after a primary expression.
pub open spec fn sp_call_tail(callee: ExprV, toks: Seq<TokenV>, pos: int) -> ParseOut<ExprV>
    decreases rem(toks, pos), 13int, 0int,
{
    if check_at(toks, pos, TokenType::LeftParen) {
        if check_at(toks, pos + 1, TokenType::RightParen) {
            sp_call_tail(
                ExprV::Call {
                    callee: Box::new(callee),
                    paren: tok_at(toks, pos + 1),
                    arguments: Seq::empty(),
                },
                toks,
                pos + 2,
            )
        } else {
            match sp_arguments(toks, pos + 1) {
                ParseOut::Done { v: args, next } => match sp_consume(
                    toks,
                    bump(pos, next),
                    TokenType::RightParen,
                    "Expect ')' after arguments."@,
                ) {
                    ParseOut::Done { v: paren, next: n2 } => sp_call_tail(
                        ExprV::Call { callee: Box::new(callee), paren, arguments: args },
                        toks,
                        n2,
                    ),
                    ParseOut::Fail { err } => ParseOut::Fail { err },
                },
                ParseOut::Fail { err } => ParseOut::Fail { err },
            }
        }
    } else {
        ParseOut::Done { v: callee, next: pos }
    }
}

/// One completed call at an opening parenthesis: the argument list, the
/// closing parenthesis, and the call node built from them.
pub open spec fn sp_finish_call(callee: ExprV, toks: Seq<TokenV>, pos: int) -> ParseOut<ExprV> {
    if check_at(toks, pos + 1, TokenType::RightParen) {
        ParseOut::Done {
            v: ExprV::Call {
                callee: Box::new(callee),
                paren: tok_at(toks, pos + 1),
                arguments: Seq::empty(),
            },
            next: pos + 2,
        }
    } else {
        match sp_arguments(toks, pos + 1) {
            ParseOut::Done { v: args, next } => match sp_consume(
                toks,
                bump(pos, next),
                TokenType::RightParen,
                "Expect ')' after arguments."@,
            ) {
                ParseOut::Done { v: paren, next: n2 } => ParseOut::Done {
                    v: ExprV::Call { callee: Box::new(callee), paren, arguments: args },
                    next: n2,
                },
                ParseOut::Fail { err } => ParseOut::Fail { err },
            },
            ParseOut::Fail { err } => ParseOut::Fail { err },
        }
    }
}

/// At an opening parenthesis, the call chain is one completed call
/// followed by the rest of the chain.
pub proof fn lemma_call_tail_unfold(callee: ExprV, toks: Seq<TokenV>, pos: int)
    requires
        check_at(toks, pos, TokenType::LeftParen),
    ensures
        sp_call_tail(callee, toks, pos) == (match sp_finish_call(callee, toks, pos) {
            ParseOut::Done { v, next } => sp_call_tail(v, toks, next),
            ParseOut::Fail { err } => ParseOut::Fail { err },
        }),
{
}

pub open spec fn sp_call(toks: Seq<TokenV>, pos: int) -> ParseOut<ExprV>
    decreases rem(toks, pos), 13int, 1int,
{
    match sp_primary(toks, pos) {
        ParseOut::Done { v, next } => sp_call_tail(v, toks, bump(pos, next)),
        ParseOut::Fail { err } => ParseOut::Fail { err },
    }
}

pub open spec fn sp_unary(toks: Seq<TokenV>, pos: int) -> ParseOut<ExprV>
    decreases rem(toks, pos), 14int, 0int,
{
    if check_at(toks, pos, TokenType::Bang) || check_at(toks, pos, TokenType::Minus) {
        match sp_unary(toks, pos + 1) {
            ParseOut::Done { v, next } => ParseOut::Done {
                v: ExprV::Unary { operator: tok_at(toks, pos), right: Box::new(v) },
                next,
            },
            ParseOut::Fail { err } => ParseOut::Fail { err },
        }
    } else {
        sp_call(toks, pos)
    }
}

/// The operator kinds folded at one binary level; `rank` both names the
/// level and orders the levels for termination.
pub open spec fn binary_kinds(rank: int) -> Seq<TokenType> {
    if rank == 15 {
        seq![TokenType::Slash, TokenType::Star]
    } else if rank == 17 {
        seq![TokenType::Minus, TokenType::Plus]
    } else if rank == 19 {
        seq![
            TokenType::Greater,
            TokenType::GreaterEqual,
            TokenType::Less,
            TokenType::LessEqual,
        ]
    } else {
        seq![TokenType::BangEqual, TokenType::EqualEqual]
    }
}

pub open spec fn kind_in(toks: Seq<TokenV>, pos: int, kinds: Seq<TokenType>) -> bool {
    exists|i: int| 0 <= i < kinds.len() && check_at(toks, pos, kinds[i])
}

pub open spec fn sp_binary_level(toks: Seq<TokenV>, pos: int, rank: int) -> ParseOut<ExprV>
    decreases rem(toks, pos), rank, 2int,
{
    if rank == 15 || rank == 17 || rank == 19 || rank == 21 {
        match sp_binary_below(toks, pos, rank) {
            ParseOut::Done { v, next } => sp_binary_tail(v, toks, bump(pos, next), rank),
            ParseOut::Fail { err } => ParseOut::Fail { err },
        }
    } else {
        ParseOut::Fail {
            err: ParseErrV { token: tok_at(toks, pos), message: Seq::empty() },
        }
    }
}

/// The next tighter level under `rank`.
pub open spec fn sp_binary_below(toks: Seq<TokenV>, pos: int, rank: int) -> ParseOut<ExprV>
    decreases rem(toks, pos), rank, 1int,
{
    if rank == 15 {
        sp_unary(toks, pos)
    } else if rank == 17 {
        sp_binary_level(toks, pos, 15)
    } else if rank == 19 {
        sp_binary_level(toks, pos, 17)
    } else if rank == 21 {
        sp_binary_level(toks, pos, 19)
    } else {
        ParseOut::Fail {
            err: ParseErrV { token: tok_at(toks, pos), message: Seq::empty() },
        }
    }
}

pub open spec fn sp_binary_tail(left: ExprV, toks: Seq<TokenV>, pos: int, rank: int) -> ParseOut<
    ExprV,
>
    decreases rem(toks, pos), rank, 0int,
{
    if kind_in(toks, pos, binary_kinds(rank)) {
        match sp_binary_below(toks, pos + 1, rank) {
            ParseOut::Done { v, next } => sp_binary_tail(
                ExprV::Binary {
                    left: Box::new(left),
                    operator: tok_at(toks, pos),
                    right: Box::new(v),
                },
                toks,
                bump(pos, next),
                rank,
            ),
            ParseOut::Fail { err } => ParseOut::Fail { err },
        }
    } else {
        ParseOut::Done { v: left, next: pos }
    }
}

pub open spec fn sp_factor(toks: Seq<TokenV>, pos: int) -> ParseOut<ExprV>
    decreases rem(toks, pos), 22int, 0int,
{
    sp_binary_level(toks, pos, 15)
}

pub open spec fn sp_term(toks: Seq<TokenV>, pos: int) -> ParseOut<ExprV>
    decreases rem(toks, pos), 22int, 0int,
{
    sp_binary_level(toks, pos, 17)
}

pub open spec fn sp_comparison(toks: Seq<TokenV>, pos: int) -> ParseOut<ExprV>
    decreases rem(toks, pos), 22int, 0int,
{
    sp_binary_level(toks, pos, 19)
}

pub open spec fn sp_equality(toks: Seq<TokenV>, pos: int) -> ParseOut<ExprV>
    decreases rem(toks, pos), 22int, 0int,
{
    sp_binary_level(toks, pos, 21)
}

/// One left-folding logical level (`and` under `or`), keeping the operator
/// token so evaluation can tell them apart.
pub open spec fn sp_logical_and(toks: Seq<TokenV>, pos: int) -> ParseOut<ExprV>
    decreases rem(toks, pos), 23int, 1int,
{
    match sp_equality(toks, pos) {
        ParseOut::Done { v, next } => sp_logical_tail(v, toks, bump(pos, next), TokenType::And),
        ParseOut::Fail { err } => ParseOut::Fail { err },
    }
}

pub open spec fn sp_logical_tail(left: ExprV, toks: Seq<TokenV>, pos: int, op: TokenType) -> ParseOut<
    ExprV,
>
    decreases rem(toks, pos), 23int, 0int,
{
    if check_at(toks, pos, op) {
        let sub = if op == TokenType::And {
            sp_equality(toks, pos + 1)
        } else {
            sp_logical_and(toks, pos + 1)
        };
        match sub {
            ParseOut::Done { v, next } => sp_logical_tail(
                ExprV::Logical {
                    left: Box::new(left),
                    operator: tok_at(toks, pos),
                    right: Box::new(v),
                },
                toks,
                bump(pos, next),
                op,
            ),
            ParseOut::Fail { err } => ParseOut::Fail { err },
        }
    } else {
        ParseOut::Done { v: left, next: pos }
    }
}

pub open spec fn sp_logical_or(toks: Seq<TokenV>, pos: int) -> ParseOut<ExprV>
    decreases rem(toks, pos), 25int, 0int,
{
    match sp_logical_and(toks, pos) {
        ParseOut::Done { v, next } => sp_logical_tail(v, toks, bump(pos, next), TokenType::Or),
        ParseOut::Fail { err } => ParseOut::Fail { err },
    }
}

/// Assignment: right-associative, and only a bare variable on the left is
/// a valid target; the error carries the equals sign.
pub open spec fn sp_assignment(toks: Seq<TokenV>, pos: int) -> ParseOut<ExprV>
    decreases rem(toks, pos), 26int, 0int,
{
    match sp_logical_or(toks, pos) {
        ParseOut::Done { v, next } => {
            let n1 = bump(pos, next);
            if check_at(toks, n1, TokenType::Equal) {
                match sp_assignment(toks, n1 + 1) {
                    ParseOut::Done { v: rhs, next: n2 } => match v {
                        ExprV::Variable { name } => ParseOut::Done {
                            v: ExprV::Assign { name, value: Box::new(rhs) },
                            next: n2,
                        },
                        _ => ParseOut::Fail {
                            err: ParseErrV {
                                token: tok_at(toks, n1),
                                message: "Invalid assignment target."@,
                            },
                        },
                    },
                    ParseOut::Fail { err } => ParseOut::Fail { err },
                }
            } else {
                ParseOut::Done { v, next: n1 }
            }
        },
        ParseOut::Fail { err } => ParseOut::Fail { err },
    }
}

pub open spec fn sp_expression(toks: Seq<TokenV>, pos: int) -> ParseOut<ExprV>
    decreases rem(toks, pos), 27int, 0int,
{
    sp_assignment(toks, pos)
}


/// A variable declaration after its `var` keyword.
pub open spec fn sp_var_decl(toks: Seq<TokenV>, pos: int) -> ParseOut<StmtV>
    decreases rem(toks, pos), 38int, 0int,
{
    match sp_consume(toks, pos, TokenType::Identifier, "Expect variable name."@) {
        ParseOut::Done { v: name, next: n1 } => {
            if check_at(toks, n1, TokenType::Equal) {
                match sp_expression(toks, n1 + 1) {
                    ParseOut::Done { v: init, next: n2 } => {
                        match sp_consume(
                            toks,
                            bump(pos, n2),
                            TokenType::Semicolon,
                            "Expect ';' after variable declaration."@,
                        ) {
                            ParseOut::Done { v: _, next: n3 } => ParseOut::Done {
                                v: StmtV::Var { name, initializer: Option::Some(init) },
                                next: n3,
                            },
                            ParseOut::Fail { err } => ParseOut::Fail { err },
                        }
                    },
                    ParseOut::Fail { err } => ParseOut::Fail { err },
                }
            } else {
                match sp_consume(
                    toks,
                    n1,
                    TokenType::Semicolon,
                    "Expect ';' after variable declaration."@,
                ) {
                    ParseOut::Done { v: _, next: n3 } => ParseOut::Done {
                        v: StmtV::Var { name, initializer: Option::None },
                        next: n3,
                    },
                    ParseOut::Fail { err } => ParseOut::Fail { err },
                }
            }
        },
        ParseOut::Fail { err } => ParseOut::Fail { err },
    }
}

/// A print statement after its keyword.
pub open spec fn sp_print(toks: Seq<TokenV>, pos: int) -> ParseOut<StmtV>
    decreases rem(toks, pos), 38int, 0int,
{
    match sp_expression(toks, pos) {
        ParseOut::Done { v, next } => match sp_consume(
            toks,
            bump(pos, next),
            TokenType::Semicolon,
            "Expect ';' after value."@,
        ) {
            ParseOut::Done { v: _, next: n2 } => ParseOut::Done {
                v: StmtV::Print { expression: v },
                next: n2,
            },
            ParseOut::Fail { err } => ParseOut::Fail { err },
        },
        ParseOut::Fail { err } => ParseOut::Fail { err },
    }
}

/// An expression statement.
pub open spec fn sp_expr_stmt(toks: Seq<TokenV>, pos: int) -> ParseOut<StmtV>
    decreases rem(toks, pos), 37int, 0int,
{
    match sp_expression(toks, pos) {
        ParseOut::Done { v, next } => match sp_consume(
            toks,
            bump(pos, next),
            TokenType::Semicolon,
            "Expect ';' after expression."@,
        ) {
            ParseOut::Done { v: _, next: n2 } => ParseOut::Done {
                v: StmtV::Expression { expression: v },
                next: n2,
            },
            ParseOut::Fail { err } => ParseOut::Fail { err },
        },
        ParseOut::Fail { err } => ParseOut::Fail { err },
    }
}

/// An if statement after its keyword; `else` binds to the nearest `if`.
pub open spec fn sp_if(toks: Seq<TokenV>, pos: int) -> ParseOut<StmtV>
    decreases rem(toks, pos), 38int, 0int,
{
    match sp_consume(toks, pos, TokenType::LeftParen, "Expect '(' after 'if'."@) {
        ParseOut::Done { v: _, next: n1 } => match sp_expression(toks, n1) {
            ParseOut::Done { v: cond, next: n2 } => match sp_consume(
                toks,
                bump(pos, n2),
                TokenType::RightParen,
                "Expect ')' after if condition."@,
            ) {
                ParseOut::Done { v: _, next: n3 } => match sp_statement(toks, n3) {
                    ParseOut::Done { v: thenb, next: n4 } => {
                        let n5 = bump(pos, n4);
                        if check_at(toks, n5, TokenType::Else) {
                            match sp_statement(toks, n5 + 1) {
                                ParseOut::Done { v: elseb, next: n6 } => ParseOut::Done {
                                    v: StmtV::If {
                                        condition: cond,
                                        then_branch: Box::new(thenb),
                                        else_branch: Option::Some(Box::new(elseb)),
                                    },
                                    next: n6,
                                },
                                ParseOut::Fail { err } => ParseOut::Fail { err },
                            }
                        } else {
                            ParseOut::Done {
                                v: StmtV::If {
                                    condition: cond,
                                    then_branch: Box::new(thenb),
                                    else_branch: Option::None,
                                },
                                next: n5,
                            }
                        }
                    },
                    ParseOut::Fail { err } => ParseOut::Fail { err },
                },
                ParseOut::Fail { err } => ParseOut::Fail { err },
            },
            ParseOut::Fail { err } => ParseOut::Fail { err },
        },
        ParseOut::Fail { err } => ParseOut::Fail { err },
    }
}

/// A while statement after its keyword.
pub open spec fn sp_while(toks: Seq<TokenV>, pos: int) -> ParseOut<StmtV>
    decreases rem(toks, pos), 38int, 0int,
{
    match sp_consume(toks, pos, TokenType::LeftParen, "Expect '(' after 'while'."@) {
        ParseOut::Done { v: _, next: n1 } => match sp_expression(toks, n1) {
            ParseOut::Done { v: cond, next: n2 } => match sp_consume(
                toks,
                bump(pos, n2),
                TokenType::RightParen,
                "Expect ')' after condition."@,
            ) {
                ParseOut::Done { v: _, next: n3 } => match sp_statement(toks, n3) {
                    ParseOut::Done { v: body, next: n4 } => ParseOut::Done {
                        v: StmtV::While { condition: cond, body: Box::new(body) },
                        next: n4,
                    },
                    ParseOut::Fail { err } => ParseOut::Fail { err },
                },
                ParseOut::Fail { err } => ParseOut::Fail { err },
            },
            ParseOut::Fail { err } => ParseOut::Fail { err },
        },
        ParseOut::Fail { err } => ParseOut::Fail { err },
    }
}

/// What a for statement desugars to: a block holding the initializer and a
/// while whose body appends the increment; a missing condition becomes a
/// literal `true` carrying the closing parenthesis's line.
pub open spec fn sp_for_desugar(
    initializer: Option<StmtV>,
    condition: Option<ExprV>,
    increment: Option<ExprV>,
    paren: TokenV,
    body: StmtV,
) -> StmtV {
    let body2 = match increment {
        Option::Some(inc) => StmtV::Block {
            statements: seq![body, StmtV::Expression { expression: inc }],
        },
        Option::None => body,
    };
    let cond2 = match condition {
        Option::Some(c) => c,
        Option::None => ExprV::Literal {
            value: TokenV {
                token_type: TokenType::True,
                lexeme: "true"@,
                line: paren.line,
                literal: Option::None,
            },
        },
    };
    let whiles = StmtV::While { condition: cond2, body: Box::new(body2) };
    match initializer {
        Option::Some(i) => StmtV::Block { statements: seq![i, whiles] },
        Option::None => whiles,
    }
}

/// A for clause: the optional initializer after the opening parenthesis.
pub open spec fn sp_for_init(toks: Seq<TokenV>, pos: int, n1: int) -> ParseOut<(Option<StmtV>, int)>
    decreases rem(toks, n1), 38int, 2int,
{
    if check_at(toks, n1, TokenType::Semicolon) {
        ParseOut::Done { v: (Option::None, n1 + 1), next: n1 + 1 }
    } else if check_at(toks, n1, TokenType::Var) {
        match sp_var_decl(toks, n1 + 1) {
            ParseOut::Done { v: s, next: n } => ParseOut::Done {
                v: (Option::Some(s), bump(pos, n)),
                next: bump(pos, n),
            },
            ParseOut::Fail { err } => ParseOut::Fail { err },
        }
    } else {
        match sp_expr_stmt(toks, n1) {
            ParseOut::Done { v: s, next: n } => ParseOut::Done {
                v: (Option::Some(s), bump(pos, n)),
                next: bump(pos, n),
            },
            ParseOut::Fail { err } => ParseOut::Fail { err },
        }
    }
}

/// A for clause: the optional loop condition.
pub open spec fn sp_for_cond(toks: Seq<TokenV>, p2: int) -> ParseOut<(Option<ExprV>, int)>
    decreases rem(toks, p2), 38int, 2int,
{
    if !check_at(toks, p2, TokenType::Semicolon) {
        match sp_expression(toks, p2) {
            ParseOut::Done { v: c, next: n } => ParseOut::Done {
                v: (Option::Some(c), bump(p2, n)),
                next: bump(p2, n),
            },
            ParseOut::Fail { err } => ParseOut::Fail { err },
        }
    } else {
        ParseOut::Done { v: (Option::None, p2), next: p2 }
    }
}

/// A for clause: the optional increment.
pub open spec fn sp_for_inc(toks: Seq<TokenV>, p4: int) -> ParseOut<(Option<ExprV>, int)>
    decreases rem(toks, p4), 38int, 2int,
{
    if !check_at(toks, p4, TokenType::RightParen) {
        match sp_expression(toks, p4) {
            ParseOut::Done { v: i, next: n } => ParseOut::Done {
                v: (Option::Some(i), bump(p4, n)),
                next: bump(p4, n),
            },
            ParseOut::Fail { err } => ParseOut::Fail { err },
        }
    } else {
        ParseOut::Done { v: (Option::None, p4), next: p4 }
    }
}

/// The parenthesized clauses of a for statement: initializer, condition,
/// increment, and the closing parenthesis.
pub open spec fn sp_for_clauses(toks: Seq<TokenV>, pos: int) -> ParseOut<
    (Option<StmtV>, Option<ExprV>, Option<ExprV>, TokenV),
>
    decreases rem(toks, pos), 38int, 3int,
{
    match sp_consume(toks, pos, TokenType::LeftParen, "Expect '(' after 'for'."@) {
        ParseOut::Done { v: _, next: n1 } => match sp_for_init(toks, pos, n1) {
            ParseOut::Done { v: (initializer, p2), next: _ } => match sp_for_cond(toks, p2) {
                ParseOut::Done { v: (condition, p3), next: _ } => match sp_consume(
                    toks,
                    p3,
                    TokenType::Semicolon,
                    "Expect ';' after loop condition."@,
                ) {
                    ParseOut::Done { v: _, next: p4 } => match sp_for_inc(toks, p4) {
                        ParseOut::Done { v: (increment, p5), next: _ } => match sp_consume(
                            toks,
                            p5,
                            TokenType::RightParen,
                            "Expect ')' after for clauses."@,
                        ) {
                            ParseOut::Done { v: paren, next: p6 } => ParseOut::Done {
                                v: (initializer, condition, increment, paren),
                                next: p6,
                            },
                            ParseOut::Fail { err } => ParseOut::Fail { err },
                        },
                        ParseOut::Fail { err } => ParseOut::Fail { err },
                    },
                    ParseOut::Fail { err } => ParseOut::Fail { err },
                },
                ParseOut::Fail { err } => ParseOut::Fail { err },
            },
            ParseOut::Fail { err } => ParseOut::Fail { err },
        },
        ParseOut::Fail { err } => ParseOut::Fail { err },
    }
}

/// A for statement after its keyword, desugared as `sp_for_desugar` says.
pub open spec fn sp_for(toks: Seq<TokenV>, pos: int) -> ParseOut<StmtV>
    decreases rem(toks, pos), 38int, 4int,
{
    match sp_for_clauses(toks, pos) {
        ParseOut::Done { v: (initializer, condition, increment, paren), next: p6 } => {
            match sp_statement(toks, bump(pos, p6)) {
                ParseOut::Done { v: body, next: p7 } => ParseOut::Done {
                    v: sp_for_desugar(initializer, condition, increment, paren, body),
                    next: p7,
                },
                ParseOut::Fail { err } => ParseOut::Fail { err },
            }
        },
        ParseOut::Fail { err } => ParseOut::Fail { err },
    }
}

/// The statements of a block, up to and past the closing brace.
pub open spec fn sp_block(toks: Seq<TokenV>, pos: int) -> ParseOut<Seq<StmtV>>
    decreases rem(toks, pos), 41int, 0int,
{
    if !check_at(toks, pos, TokenType::RightBrace) && !at_end(toks, pos) {
        match sp_declaration(toks, pos) {
            ParseOut::Done { v: s, next: n } => match sp_block(toks, bump(pos, n)) {
                ParseOut::Done { v: rest, next: n2 } => ParseOut::Done {
                    v: seq![s] + rest,
                    next: n2,
                },
                ParseOut::Fail { err } => ParseOut::Fail { err },
            },
            ParseOut::Fail { err } => ParseOut::Fail { err },
        }
    } else {
        match sp_consume(toks, pos, TokenType::RightBrace, "Expect '}' after block."@) {
            ParseOut::Done { v: _, next: n } => ParseOut::Done { v: Seq::empty(), next: n },
            ParseOut::Fail { err } => ParseOut::Fail { err },
        }
    }
}

pub open spec fn sp_statement(toks: Seq<TokenV>, pos: int) -> ParseOut<StmtV>
    decreases rem(toks, pos), 39int, 0int,
{
    if check_at(toks, pos, TokenType::If) {
        sp_if(toks, pos + 1)
    } else if check_at(toks, pos, TokenType::Print) {
        sp_print(toks, pos + 1)
    } else if check_at(toks, pos, TokenType::While) {
        sp_while(toks, pos + 1)
    } else if check_at(toks, pos, TokenType::For) {
        sp_for(toks, pos + 1)
    } else if check_at(toks, pos, TokenType::LeftBrace) {
        match sp_block(toks, pos + 1) {
            ParseOut::Done { v, next } => ParseOut::Done {
                v: StmtV::Block { statements: v },
                next,
            },
            ParseOut::Fail { err } => ParseOut::Fail { err },
        }
    } else {
        sp_expr_stmt(toks, pos)
    }
}

pub open spec fn sp_declaration(toks: Seq<TokenV>, pos: int) -> ParseOut<StmtV>
    decreases rem(toks, pos), 40int, 0int,
{
    if check_at(toks, pos, TokenType::Var) {
        sp_var_decl(toks, pos + 1)
    } else {
        sp_statement(toks, pos)
    }
}

/// The whole program: declarations up to the end-marker; the first failure
/// is the parse's result.
pub open spec fn sp_program(toks: Seq<TokenV>, pos: int) -> ParseOut<Seq<StmtV>>
    decreases rem(toks, pos), 42int, 0int,
{
    if at_end(toks, pos) {
        ParseOut::Done { v: Seq::empty(), next: pos }
    } else {
        match sp_declaration(toks, pos) {
            ParseOut::Done { v: s, next: n } => match sp_program(toks, bump(pos, n)) {
                ParseOut::Done { v: rest, next: n2 } => ParseOut::Done {
                    v: seq![s] + rest,
                    next: n2,
                },
                ParseOut::Fail { err } => ParseOut::Fail { err },
            },
            ParseOut::Fail { err } => ParseOut::Fail { err },
        }
    }
}

/// Where discarding tokens up to the next statement boundary lands,
/// after one token has been consumed.
pub open spec fn sp_sync_scan(toks: Seq<TokenV>, pos: int) -> int
    decreases rem(toks, pos),
{
    if at_end(toks, pos) {
        pos
    } else if tok_at(toks, pos - 1).token_type == TokenType::Semicolon {
        pos
    } else if check_at(toks, pos, TokenType::Class) || check_at(toks, pos, TokenType::Fun)
        || check_at(toks, pos, TokenType::Var) || check_at(toks, pos, TokenType::For) || check_at(
        toks,
        pos,
        TokenType::If,
    ) || check_at(toks, pos, TokenType::While) || check_at(toks, pos, TokenType::Print)
        || check_at(toks, pos, TokenType::Return) {
        pos
    } else {
        sp_sync_scan(toks, pos + 1)
    }
}

} // verus!

verus! {

/// The parser's cursor over the scanned tokens.
pub struct Parser {
    tokens: Vec<Token>,
    current: usize,
}

impl Parser {
    /// The mathematical values of the tokens.
    pub closed spec fn toks(&self) -> Seq<TokenV> {
        crate::scanner::toks_view(self.tokens@)
    }

    pub closed spec fn pos(&self) -> int {
        self.current as int
    }

    /// The scanner hands over a nonempty sequence ending in the
    /// end-marker, and the cursor stays inside it.
    pub closed spec fn pinv(&self) -> bool {
        &&& self.tokens@.len() >= 1
        &&& self.toks()[self.tokens@.len() - 1].token_type == TokenType::Eof
        &&& self.current < self.tokens@.len()
    }

    /// Accepts the scanner's tokens: a sequence ended by the end-marker.
    pub fn new(tokens: Vec<Token>) -> (p: Parser)
        requires
            tokens@.len() >= 1,
            tokens@[tokens@.len() - 1]@.token_type == TokenType::Eof,
        ensures
            p.pinv(),
            p.toks() == crate::scanner::toks_view(tokens@),
            p.pos() == 0,
    {
        Parser { tokens, current: 0 }
    }

    fn peek(&self) -> (t: &Token)
        requires
            self.pinv(),
        ensures
            t@ == tok_at(self.toks(), self.pos()),
    {
        &self.tokens[self.current]
    }

    fn is_at_end(&self) -> (r: bool)
        requires
            self.pinv(),
        ensures
            r == at_end(self.toks(), self.pos()),
    {
        self.tokens[self.current].token_type == TokenType::Eof
    }

    fn check(&self, t: TokenType) -> (r: bool)
        requires
            self.pinv(),
        ensures
            r == check_at(self.toks(), self.pos(), t),
    {
        if self.is_at_end() {
            return false;
        }
        self.tokens[self.current].token_type == t
    }

    /// Consumes the current token (which must not be the end-marker) and
    /// hands back a copy of it.
    fn advance_tok(&mut self) -> (t: Token)
        requires
            old(self).pinv(),
            !at_end(old(self).toks(), old(self).pos()),
        ensures
            final(self).pinv(),
            final(self).tokens == old(self).tokens,
            final(self).pos() == old(self).pos() + 1,
            t@ == tok_at(old(self).toks(), old(self).pos()),
    {
        let n = self.tokens.len();
        proof {
            assert(self.current < self.tokens@.len() - 1);
        }
        let t = self.tokens[self.current].duplicate();
        self.current = self.current + 1;
        t
    }

    /// Expect-or-fail: exactly `sp_consume`.
    fn consume(&mut self, t: TokenType, message: &str) -> (r: Result<Token, ParseError>)
        requires
            old(self).pinv(),
        ensures
            final(self).pinv(),
            final(self).tokens == old(self).tokens,
            match sp_consume(old(self).toks(), old(self).pos(), t, message@) {
                ParseOut::Done { v, next } => (r matches Result::Ok(tok) && tok@ == v)
                    && final(self).pos() == next,
                ParseOut::Fail { err } => (r matches Result::Err(e) && e@ == err)
                    && final(self).pos() == old(self).pos(),
            },
    {
        if self.check(t) {
            let tok = self.advance_tok();
            Result::Ok(tok)
        } else {
            let offending = self.tokens[self.current].duplicate();
            Result::Err(ParseError::Error(offending, String::from_str(message)))
        }
    }
}

} // verus!

verus! {

proof fn lemma_kind_in_2(toks: Seq<TokenV>, pos: int, k0: TokenType, k1: TokenType)
    ensures
        kind_in(toks, pos, seq![k0, k1]) == (check_at(toks, pos, k0) || check_at(toks, pos, k1)),
{
    let ks = seq![k0, k1];
    if check_at(toks, pos, k0) {
        assert(check_at(toks, pos, ks[0]));
    } else if check_at(toks, pos, k1) {
        assert(check_at(toks, pos, ks[1]));
    }
    if kind_in(toks, pos, ks) {
        let i = choose|i: int| 0 <= i < ks.len() && check_at(toks, pos, ks[i]);
        assert(i == 0 || i == 1);
    }
}

proof fn lemma_kind_in_4(toks: Seq<TokenV>, pos: int, k0: TokenType, k1: TokenType, k2: TokenType, k3: TokenType)
    ensures
        kind_in(toks, pos, seq![k0, k1, k2, k3]) == (check_at(toks, pos, k0) || check_at(
            toks,
            pos,
            k1,
        ) || check_at(toks, pos, k2) || check_at(toks, pos, k3)),
{
    let ks = seq![k0, k1, k2, k3];
    if check_at(toks, pos, k0) {
        assert(check_at(toks, pos, ks[0]));
    } else if check_at(toks, pos, k1) {
        assert(check_at(toks, pos, ks[1]));
    } else if check_at(toks, pos, k2) {
        assert(check_at(toks, pos, ks[2]));
    } else if check_at(toks, pos, k3) {
        assert(check_at(toks, pos, ks[3]));
    }
    if kind_in(toks, pos, ks) {
        let i = choose|i: int| 0 <= i < ks.len() && check_at(toks, pos, ks[i]);
        assert(i == 0 || i == 1 || i == 2 || i == 3);
    }
}

impl Parser {
    fn primary(&mut self) -> (r: Result<Expr, ParseError>)
        requires
            old(self).pinv(),
        ensures
            final(self).pinv(),
            final(self).tokens == old(self).tokens,
            match sp_primary(old(self).toks(), old(self).pos()) {
                ParseOut::Done { v, next } => (r matches Result::Ok(e) && e@ == v)
                    && final(self).pos() == next && next > old(self).pos(),
                ParseOut::Fail { err } => r matches Result::Err(e) && e@ == err,
            },
        decreases rem(self.toks(), self.pos()), 0int, 0int,
    {
        let ghost toks = self.toks();
        let ghost pos0 = self.pos();
        if self.check(TokenType::False) || self.check(TokenType::True) || self.check(
            TokenType::Nil,
        ) || self.check(TokenType::Number) || self.check(TokenType::String) {
            let token = self.advance_tok();
            return Result::Ok(Expr::Literal { value: token });
        }
        if self.check(TokenType::Identifier) {
            let name = self.advance_tok();
            return Result::Ok(Expr::Variable { name });
        }
        if self.check(TokenType::LeftParen) {
            self.advance_tok();
            let inner = match self.expression() {
                Result::Ok(e) => e,
                Result::Err(er) => {
                    return Result::Err(er);
                },
            };
            match self.consume(TokenType::RightParen, "Expect ')' after expression.") {
                Result::Ok(_) => {
                    return Result::Ok(Expr::Grouping { expression: Box::new(inner) });
                },
                Result::Err(er) => {
                    return Result::Err(er);
                },
            }
        }
        let t = self.tokens[self.current].duplicate();
        Result::Err(ParseError::Error(t, String::from_str("Expect expression.")))
    }

    /// The comma-separated expressions of an argument list.
    #[verifier::loop_isolation(false)]
    #[verifier::rlimit(100)]
    fn arguments(&mut self) -> (r: Result<Vec<Expr>, ParseError>)
        requires
            old(self).pinv(),
        ensures
            final(self).pinv(),
            final(self).tokens == old(self).tokens,
            match sp_arguments(old(self).toks(), old(self).pos()) {
                ParseOut::Done { v, next } => (r matches Result::Ok(es)
                    && crate::expr::exprs_view(es@) == v) && final(self).pos() == next && next
                    > old(self).pos(),
                ParseOut::Fail { err } => r matches Result::Err(e) && e@ == err,
            },
        decreases rem(self.toks(), self.pos()), 28int, 0int,
    {
        let ghost toks = self.toks();
        let ghost p1 = self.pos();
        let mut args: Vec<Expr> = Vec::new();
        let first = match self.expression() {
            Result::Ok(e) => e,
            Result::Err(er) => {
                return Result::Err(er);
            },
        };
        args.push(first);
        proof {
            assert(args@.drop_last() =~= Seq::<Expr>::empty());
            assert(crate::expr::exprs_view(Seq::<Expr>::empty()) =~= Seq::<ExprV>::empty());
            assert(crate::expr::exprs_view(args@) =~= seq![args@.last()@]);
            assert(sp_arguments(toks, p1) == sp_arguments_tail(
                crate::expr::exprs_view(args@),
                toks,
                self.pos(),
            ));
        }
        while self.check(TokenType::Comma)
            invariant
                self.pinv(),
                self.tokens == old(self).tokens,
                toks == self.toks(),
                p1 < self.pos(),
                sp_arguments(toks, p1) == sp_arguments_tail(
                    crate::expr::exprs_view(args@),
                    toks,
                    self.pos(),
                ),
            decreases self.tokens@.len() - self.current,
        {
            let ghost q = self.pos();
            let ghost vs0 = crate::expr::exprs_view(args@);
            self.advance_tok();
            let e = match self.expression() {
                Result::Ok(e) => e,
                Result::Err(er) => {
                    proof {
                        assert(sp_arguments_tail(vs0, toks, q) == (ParseOut::<Seq<ExprV>>::Fail {
                            err: er@,
                        }));
                    }
                    return Result::Err(er);
                },
            };
            let ghost args0 = args@;
            args.push(e);
            proof {
                assert(args@.drop_last() =~= args0);
                assert(crate::expr::exprs_view(args@) =~= crate::expr::exprs_view(args0).push(
                    args@.last()@,
                ));
                assert(sp_arguments_tail(vs0, toks, q) == sp_arguments_tail(
                    crate::expr::exprs_view(args@),
                    toks,
                    self.pos(),
                ));
            }
        }
        Result::Ok(args)
    }

    /// One completed call: the argument list and closing parenthesis
    /// after an opening parenthesis at the cursor.
    #[verifier::loop_isolation(false)]
    #[verifier::rlimit(100)]
    fn finish_call(&mut self, callee: Expr) -> (r: Result<Expr, ParseError>)
        requires
            old(self).pinv(),
            check_at(old(self).toks(), old(self).pos(), TokenType::LeftParen),
        ensures
            final(self).pinv(),
            final(self).tokens == old(self).tokens,
            match sp_finish_call(callee@, old(self).toks(), old(self).pos()) {
                ParseOut::Done { v, next } => (r matches Result::Ok(e) && e@ == v)
                    && final(self).pos() == next && next > old(self).pos(),
                ParseOut::Fail { err } => r matches Result::Err(e) && e@ == err,
            },
        decreases rem(self.toks(), self.pos()), 29int, 0int,
    {
        let ghost toks = self.toks();
        let ghost p = self.pos();
        let ghost left0 = callee@;
        self.advance_tok();
        if self.check(TokenType::RightParen) {
            let paren = self.advance_tok();
            let out = Expr::Call { callee: Box::new(callee), paren, arguments: Vec::new() };
            proof {
                assert(crate::expr::exprs_view(Seq::<Expr>::empty()) =~= Seq::<ExprV>::empty());
                assert(out@ == (ExprV::Call {
                    callee: Box::new(left0),
                    paren: tok_at(toks, p + 1),
                    arguments: Seq::<ExprV>::empty(),
                }));
            }
            return Result::Ok(out);
        }
        let args = match self.arguments() {
            Result::Ok(es) => es,
            Result::Err(er) => {
                return Result::Err(er);
            },
        };
        let ghost n = self.pos();
        let paren = match self.consume(TokenType::RightParen, "Expect ')' after arguments.") {
            Result::Ok(tok) => tok,
            Result::Err(er) => {
                return Result::Err(er);
            },
        };
        let out = Expr::Call { callee: Box::new(callee), paren, arguments: args };
        proof {
            assert(out@ == (ExprV::Call {
                callee: Box::new(left0),
                paren: tok_at(toks, n),
                arguments: crate::expr::exprs_view(args@),
            }));
        }
        Result::Ok(out)
    }

    /// A primary expression followed by any number of completed calls.
    #[verifier::loop_isolation(false)]
    #[verifier::rlimit(50)]
    fn call(&mut self) -> (r: Result<Expr, ParseError>)
        requires
            old(self).pinv(),
        ensures
            final(self).pinv(),
            final(self).tokens == old(self).tokens,
            match sp_call(old(self).toks(), old(self).pos()) {
                ParseOut::Done { v, next } => (r matches Result::Ok(e) && e@ == v)
                    && final(self).pos() == next && next > old(self).pos(),
                ParseOut::Fail { err } => r matches Result::Err(e) && e@ == err,
            },
        decreases rem(self.toks(), self.pos()), 13int, 0int,
    {
        let ghost toks = self.toks();
        let ghost pos0 = self.pos();
        let mut expr = match self.primary() {
            Result::Ok(e) => e,
            Result::Err(er) => {
                return Result::Err(er);
            },
        };
        while self.check(TokenType::LeftParen)
            invariant
                self.pinv(),
                self.tokens == old(self).tokens,
                toks == self.toks(),
                pos0 < self.pos(),
                sp_call(toks, pos0) == sp_call_tail(expr@, toks, self.pos()),
            decreases self.tokens@.len() - self.current,
        {
            let ghost p = self.pos();
            let ghost left0 = expr@;
            proof {
                lemma_call_tail_unfold(left0, toks, p);
            }
            expr = match self.finish_call(expr) {
                Result::Ok(e) => e,
                Result::Err(er) => {
                    return Result::Err(er);
                },
            };
        }
        Result::Ok(expr)
    }

    fn unary(&mut self) -> (r: Result<Expr, ParseError>)
        requires
            old(self).pinv(),
        ensures
            final(self).pinv(),
            final(self).tokens == old(self).tokens,
            match sp_unary(old(self).toks(), old(self).pos()) {
                ParseOut::Done { v, next } => (r matches Result::Ok(e) && e@ == v)
                    && final(self).pos() == next && next > old(self).pos(),
                ParseOut::Fail { err } => r matches Result::Err(e) && e@ == err,
            },
        decreases rem(self.toks(), self.pos()), 14int, 0int,
    {
        if self.check(TokenType::Bang) || self.check(TokenType::Minus) {
            let operator = self.advance_tok();
            let right = match self.unary() {
                Result::Ok(e) => e,
                Result::Err(er) => {
                    return Result::Err(er);
                },
            };
            return Result::Ok(Expr::Unary { operator, right: Box::new(right) });
        }
        self.call()
    }
}

} // verus!

verus! {

impl Parser {
    #[verifier::loop_isolation(false)]
    #[verifier::rlimit(50)]
    fn factor(&mut self) -> (r: Result<Expr, ParseError>)
        requires
            old(self).pinv(),
        ensures
            final(self).pinv(),
            final(self).tokens == old(self).tokens,
            match sp_factor(old(self).toks(), old(self).pos()) {
                ParseOut::Done { v, next } => (r matches Result::Ok(e) && e@ == v)
                    && final(self).pos() == next && next > old(self).pos(),
                ParseOut::Fail { err } => r matches Result::Err(e) && e@ == err,
            },
        decreases rem(self.toks(), self.pos()), 16int, 0int,
    {
        let ghost toks = self.toks();
        let ghost pos0 = self.pos();
        let mut expr = match self.unary() {
            Result::Ok(e) => e,
            Result::Err(er) => {
                return Result::Err(er);
            },
        };
        while self.check(TokenType::Slash) || self.check(TokenType::Star)
            invariant
                self.pinv(),
                self.tokens == old(self).tokens,
                toks == self.toks(),
                pos0 < self.pos(),
                sp_factor(toks, pos0) == sp_binary_tail(expr@, toks, self.pos(), 15),
            decreases self.tokens@.len() - self.current,
        {
            let ghost p = self.pos();
            let ghost left0 = expr@;
            proof {
                lemma_kind_in_2(toks, p, TokenType::Slash, TokenType::Star);
                assert(sp_binary_below(toks, p + 1, 15) == sp_unary(toks, p + 1));
            }
            let operator = self.advance_tok();
            let right = match self.unary() {
                Result::Ok(e) => e,
                Result::Err(er) => {
                    proof {
                        assert(sp_binary_tail(left0, toks, p, 15) == (ParseOut::<ExprV>::Fail {
                            err: er@,
                        }));
                    }
                    return Result::Err(er);
                },
            };
            expr = Expr::Binary { left: Box::new(expr), operator, right: Box::new(right) };
            proof {
                assert(sp_binary_tail(left0, toks, p, 15) == sp_binary_tail(
                    expr@,
                    toks,
                    self.pos(),
                    15,
                ));
            }
        }
        proof {
            lemma_kind_in_2(toks, self.pos(), TokenType::Slash, TokenType::Star);
        }
        Result::Ok(expr)
    }

    #[verifier::loop_isolation(false)]
    #[verifier::rlimit(50)]
    fn term(&mut self) -> (r: Result<Expr, ParseError>)
        requires
            old(self).pinv(),
        ensures
            final(self).pinv(),
            final(self).tokens == old(self).tokens,
            match sp_term(old(self).toks(), old(self).pos()) {
                ParseOut::Done { v, next } => (r matches Result::Ok(e) && e@ == v)
                    && final(self).pos() == next && next > old(self).pos(),
                ParseOut::Fail { err } => r matches Result::Err(e) && e@ == err,
            },
        decreases rem(self.toks(), self.pos()), 18int, 0int,
    {
        let ghost toks = self.toks();
        let ghost pos0 = self.pos();
        let mut expr = match self.factor() {
            Result::Ok(e) => e,
            Result::Err(er) => {
                return Result::Err(er);
            },
        };
        while self.check(TokenType::Minus) || self.check(TokenType::Plus)
            invariant
                self.pinv(),
                self.tokens == old(self).tokens,
                toks == self.toks(),
                pos0 < self.pos(),
                sp_term(toks, pos0) == sp_binary_tail(expr@, toks, self.pos(), 17),
            decreases self.tokens@.len() - self.current,
        {
            let ghost p = self.pos();
            let ghost left0 = expr@;
            proof {
                lemma_kind_in_2(toks, p, TokenType::Minus, TokenType::Plus);
                assert(sp_binary_below(toks, p + 1, 17) == sp_factor(toks, p + 1));
            }
            let operator = self.advance_tok();
            let right = match self.factor() {
                Result::Ok(e) => e,
                Result::Err(er) => {
                    proof {
                        assert(sp_binary_tail(left0, toks, p, 17) == (ParseOut::<ExprV>::Fail {
                            err: er@,
                        }));
                    }
                    return Result::Err(er);
                },
            };
            expr = Expr::Binary { left: Box::new(expr), operator, right: Box::new(right) };
            proof {
                assert(sp_binary_tail(left0, toks, p, 17) == sp_binary_tail(
                    expr@,
                    toks,
                    self.pos(),
                    17,
                ));
            }
        }
        proof {
            lemma_kind_in_2(toks, self.pos(), TokenType::Minus, TokenType::Plus);
        }
        Result::Ok(expr)
    }

    #[verifier::loop_isolation(false)]
    #[verifier::rlimit(50)]
    fn comparison(&mut self) -> (r: Result<Expr, ParseError>)
        requires
            old(self).pinv(),
        ensures
            final(self).pinv(),
            final(self).tokens == old(self).tokens,
            match sp_comparison(old(self).toks(), old(self).pos()) {
                ParseOut::Done { v, next } => (r matches Result::Ok(e) && e@ == v)
                    && final(self).pos() == next && next > old(self).pos(),
                ParseOut::Fail { err } => r matches Result::Err(e) && e@ == err,
            },
        decreases rem(self.toks(), self.pos()), 20int, 0int,
    {
        let ghost toks = self.toks();
        let ghost pos0 = self.pos();
        let mut expr = match self.term() {
            Result::Ok(e) => e,
            Result::Err(er) => {
                return Result::Err(er);
            },
        };
        while self.check(TokenType::Greater) || self.check(TokenType::GreaterEqual)
                || self.check(TokenType::Less) || self.check(TokenType::LessEqual)
            invariant
                self.pinv(),
                self.tokens == old(self).tokens,
                toks == self.toks(),
                pos0 < self.pos(),
                sp_comparison(toks, pos0) == sp_binary_tail(expr@, toks, self.pos(), 19),
            decreases self.tokens@.len() - self.current,
        {
            let ghost p = self.pos();
            let ghost left0 = expr@;
            proof {
                lemma_kind_in_4(
                    toks,
                    p,
                    TokenType::Greater,
                    TokenType::GreaterEqual,
                    TokenType::Less,
                    TokenType::LessEqual,
                );
                assert(sp_binary_below(toks, p + 1, 19) == sp_term(toks, p + 1));
            }
            let operator = self.advance_tok();
            let right = match self.term() {
                Result::Ok(e) => e,
                Result::Err(er) => {
                    proof {
                        assert(sp_binary_tail(left0, toks, p, 19) == (ParseOut::<ExprV>::Fail {
                            err: er@,
                        }));
                    }
                    return Result::Err(er);
                },
            };
            expr = Expr::Binary { left: Box::new(expr), operator, right: Box::new(right) };
            proof {
                assert(sp_binary_tail(left0, toks, p, 19) == sp_binary_tail(
                    expr@,
                    toks,
                    self.pos(),
                    19,
                ));
            }
        }
        proof {
            lemma_kind_in_4(
                toks,
                self.pos(),
                TokenType::Greater,
                TokenType::GreaterEqual,
                TokenType::Less,
                TokenType::LessEqual,
            );
        }
        Result::Ok(expr)
    }

    #[verifier::loop_isolation(false)]
    #[verifier::rlimit(100)]
    fn equality(&mut self) -> (r: Result<Expr, ParseError>)
        requires
            old(self).pinv(),
        ensures
            final(self).pinv(),
            final(self).tokens == old(self).tokens,
            match sp_equality(old(self).toks(), old(self).pos()) {
                ParseOut::Done { v, next } => (r matches Result::Ok(e) && e@ == v)
                    && final(self).pos() == next && next > old(self).pos(),
                ParseOut::Fail { err } => r matches Result::Err(e) && e@ == err,
            },
        decreases rem(self.toks(), self.pos()), 22int, 0int,
    {
        let ghost toks = self.toks();
        let ghost pos0 = self.pos();
        let mut expr = match self.comparison() {
            Result::Ok(e) => e,
            Result::Err(er) => {
                return Result::Err(er);
            },
        };
        while self.check(TokenType::BangEqual) || self.check(TokenType::EqualEqual)
            invariant
                self.pinv(),
                self.tokens == old(self).tokens,
                toks == self.toks(),
                pos0 < self.pos(),
                sp_equality(toks, pos0) == sp_binary_tail(expr@, toks, self.pos(), 21),
            decreases self.tokens@.len() - self.current,
        {
            let ghost p = self.pos();
            let ghost left0 = expr@;
            proof {
                lemma_kind_in_2(toks, p, TokenType::BangEqual, TokenType::EqualEqual);
                assert(sp_binary_below(toks, p + 1, 21) == sp_comparison(toks, p + 1));
            }
            let operator = self.advance_tok();
            let right = match self.comparison() {
                Result::Ok(e) => e,
                Result::Err(er) => {
                    proof {
                        assert(sp_binary_tail(left0, toks, p, 21) == (ParseOut::<ExprV>::Fail {
                            err: er@,
                        }));
                    }
                    return Result::Err(er);
                },
            };
            expr = Expr::Binary { left: Box::new(expr), operator, right: Box::new(right) };
            proof {
                assert(sp_binary_tail(left0, toks, p, 21) == sp_binary_tail(
                    expr@,
                    toks,
                    self.pos(),
                    21,
                ));
            }
        }
        proof {
            lemma_kind_in_2(toks, self.pos(), TokenType::BangEqual, TokenType::EqualEqual);
        }
        Result::Ok(expr)
    }

    /// The `and` level: left-folding, short-circuit at evaluation time.
    #[verifier::loop_isolation(false)]
    #[verifier::rlimit(50)]
    fn and(&mut self) -> (r: Result<Expr, ParseError>)
        requires
            old(self).pinv(),
        ensures
            final(self).pinv(),
            final(self).tokens == old(self).tokens,
            match sp_logical_and(old(self).toks(), old(self).pos()) {
                ParseOut::Done { v, next } => (r matches Result::Ok(e) && e@ == v)
                    && final(self).pos() == next && next > old(self).pos(),
                ParseOut::Fail { err } => r matches Result::Err(e) && e@ == err,
            },
        decreases rem(self.toks(), self.pos()), 24int, 0int,
    {
        let ghost toks = self.toks();
        let ghost pos0 = self.pos();
        let mut expr = match self.equality() {
            Result::Ok(e) => e,
            Result::Err(er) => {
                return Result::Err(er);
            },
        };
        while self.check(TokenType::And)
            invariant
                self.pinv(),
                self.tokens == old(self).tokens,
                toks == self.toks(),
                pos0 < self.pos(),
                sp_logical_and(toks, pos0) == sp_logical_tail(expr@, toks, self.pos(), TokenType::And),
            decreases self.tokens@.len() - self.current,
        {
            let ghost p = self.pos();
            let ghost left0 = expr@;
            let operator = self.advance_tok();
            let right = match self.equality() {
                Result::Ok(e) => e,
                Result::Err(er) => {
                    proof {
                        assert(sp_logical_tail(left0, toks, p, TokenType::And) == (ParseOut::<
                            ExprV,
                        >::Fail { err: er@ }));
                    }
                    return Result::Err(er);
                },
            };
            expr = Expr::Logical { left: Box::new(expr), operator, right: Box::new(right) };
            proof {
                assert(sp_logical_tail(left0, toks, p, TokenType::And) == sp_logical_tail(
                    expr@,
                    toks,
                    self.pos(),
                    TokenType::And,
                ));
            }
        }
        Result::Ok(expr)
    }

    /// The `or` level: left-folding, short-circuit at evaluation time.
    #[verifier::loop_isolation(false)]
    #[verifier::rlimit(50)]
    fn or(&mut self) -> (r: Result<Expr, ParseError>)
        requires
            old(self).pinv(),
        ensures
            final(self).pinv(),
            final(self).tokens == old(self).tokens,
            match sp_logical_or(old(self).toks(), old(self).pos()) {
                ParseOut::Done { v, next } => (r matches Result::Ok(e) && e@ == v)
                    && final(self).pos() == next && next > old(self).pos(),
                ParseOut::Fail { err } => r matches Result::Err(e) && e@ == err,
            },
        decreases rem(self.toks(), self.pos()), 25int, 0int,
    {
        let ghost toks = self.toks();
        let ghost pos0 = self.pos();
        let mut expr = match self.and() {
            Result::Ok(e) => e,
            Result::Err(er) => {
                return Result::Err(er);
            },
        };
        while self.check(TokenType::Or)
            invariant
                self.pinv(),
                self.tokens == old(self).tokens,
                toks == self.toks(),
                pos0 < self.pos(),
                sp_logical_or(toks, pos0) == sp_logical_tail(expr@, toks, self.pos(), TokenType::Or),
            decreases self.tokens@.len() - self.current,
        {
            let ghost p = self.pos();
            let ghost left0 = expr@;
            let operator = self.advance_tok();
            let right = match self.and() {
                Result::Ok(e) => e,
                Result::Err(er) => {
                    proof {
                        assert(sp_logical_tail(left0, toks, p, TokenType::Or) == (ParseOut::<
                            ExprV,
                        >::Fail { err: er@ }));
                    }
                    return Result::Err(er);
                },
            };
            expr = Expr::Logical { left: Box::new(expr), operator, right: Box::new(right) };
            proof {
                assert(sp_logical_tail(left0, toks, p, TokenType::Or) == sp_logical_tail(
                    expr@,
                    toks,
                    self.pos(),
                    TokenType::Or,
                ));
            }
        }
        Result::Ok(expr)
    }

    /// Assignment: right-associative; only a bare variable is a valid
    /// target, and the error carries the equals sign.
    #[verifier::rlimit(50)]
    fn assignment(&mut self) -> (r: Result<Expr, ParseError>)
        requires
            old(self).pinv(),
        ensures
            final(self).pinv(),
            final(self).tokens == old(self).tokens,
            match sp_assignment(old(self).toks(), old(self).pos()) {
                ParseOut::Done { v, next } => (r matches Result::Ok(e) && e@ == v)
                    && final(self).pos() == next && next > old(self).pos(),
                ParseOut::Fail { err } => r matches Result::Err(e) && e@ == err,
            },
        decreases rem(self.toks(), self.pos()), 26int, 0int,
    {
        let ghost toks = self.toks();
        let ghost pos0 = self.pos();
        let expr = match self.or() {
            Result::Ok(e) => e,
            Result::Err(er) => {
                return Result::Err(er);
            },
        };
        if self.check(TokenType::Equal) {
            let equals = self.advance_tok();
            let value = match self.assignment() {
                Result::Ok(e) => e,
                Result::Err(er) => {
                    return Result::Err(er);
                },
            };
            match expr {
                Expr::Variable { name } => {
                    return Result::Ok(Expr::Assign { name, value: Box::new(value) });
                },
                _ => {
                    return Result::Err(
                        ParseError::Error(equals, String::from_str("Invalid assignment target.")),
                    );
                },
            }
        }
        Result::Ok(expr)
    }

    fn expression(&mut self) -> (r: Result<Expr, ParseError>)
        requires
            old(self).pinv(),
        ensures
            final(self).pinv(),
            final(self).tokens == old(self).tokens,
            match sp_expression(old(self).toks(), old(self).pos()) {
                ParseOut::Done { v, next } => (r matches Result::Ok(e) && e@ == v)
                    && final(self).pos() == next && next > old(self).pos(),
                ParseOut::Fail { err } => r matches Result::Err(e) && e@ == err,
            },
        decreases rem(self.toks(), self.pos()), 27int, 0int,
    {
        self.assignment()
    }
}

} // verus!

verus! {

impl Parser {
    /// A variable declaration, after its `var` keyword.
    #[verifier::rlimit(100)]
    fn var_declaration(&mut self) -> (r: Result<Stmt, ParseError>)
        requires
            old(self).pinv(),
        ensures
            final(self).pinv(),
            final(self).tokens == old(self).tokens,
            match sp_var_decl(old(self).toks(), old(self).pos()) {
                ParseOut::Done { v, next } => (r matches Result::Ok(s) && s@ == v)
                    && final(self).pos() == next && next > old(self).pos(),
                ParseOut::Fail { err } => r matches Result::Err(e) && e@ == err,
            },
        decreases rem(self.toks(), self.pos()), 38int, 0int,
    {
        let name = match self.consume(TokenType::Identifier, "Expect variable name.") {
            Result::Ok(t) => t,
            Result::Err(er) => {
                return Result::Err(er);
            },
        };
        let initializer: Option<Expr> = if self.check(TokenType::Equal) {
            self.advance_tok();
            match self.expression() {
                Result::Ok(e) => Option::Some(e),
                Result::Err(er) => {
                    return Result::Err(er);
                },
            }
        } else {
            Option::None
        };
        match self.consume(TokenType::Semicolon, "Expect ';' after variable declaration.") {
            Result::Ok(_) => Result::Ok(Stmt::Var { name, initializer }),
            Result::Err(er) => Result::Err(er),
        }
    }

    /// A print statement, after its keyword.
    #[verifier::rlimit(100)]
    fn print_statement(&mut self) -> (r: Result<Stmt, ParseError>)
        requires
            old(self).pinv(),
        ensures
            final(self).pinv(),
            final(self).tokens == old(self).tokens,
            match sp_print(old(self).toks(), old(self).pos()) {
                ParseOut::Done { v, next } => (r matches Result::Ok(s) && s@ == v)
                    && final(self).pos() == next && next > old(self).pos(),
                ParseOut::Fail { err } => r matches Result::Err(e) && e@ == err,
            },
        decreases rem(self.toks(), self.pos()), 38int, 0int,
    {
        let value = match self.expression() {
            Result::Ok(e) => e,
            Result::Err(er) => {
                return Result::Err(er);
            },
        };
        match self.consume(TokenType::Semicolon, "Expect ';' after value.") {
            Result::Ok(_) => Result::Ok(Stmt::Print { expression: value }),
            Result::Err(er) => Result::Err(er),
        }
    }

    /// An expression statement.
    #[verifier::rlimit(100)]
    fn expression_statement(&mut self) -> (r: Result<Stmt, ParseError>)
        requires
            old(self).pinv(),
        ensures
            final(self).pinv(),
            final(self).tokens == old(self).tokens,
            match sp_expr_stmt(old(self).toks(), old(self).pos()) {
                ParseOut::Done { v, next } => (r matches Result::Ok(s) && s@ == v)
                    && final(self).pos() == next && next > old(self).pos(),
                ParseOut::Fail { err } => r matches Result::Err(e) && e@ == err,
            },
        decreases rem(self.toks(), self.pos()), 37int, 0int,
    {
        let expr = match self.expression() {
            Result::Ok(e) => e,
            Result::Err(er) => {
                return Result::Err(er);
            },
        };
        match self.consume(TokenType::Semicolon, "Expect ';' after expression.") {
            Result::Ok(_) => Result::Ok(Stmt::Expression { expression: expr }),
            Result::Err(er) => Result::Err(er),
        }
    }

    /// An if statement, after its keyword; `else` binds to the nearest
    /// preceding unmatched `if`.
    #[verifier::rlimit(100)]
    fn if_statement(&mut self) -> (r: Result<Stmt, ParseError>)
        requires
            old(self).pinv(),
        ensures
            final(self).pinv(),
            final(self).tokens == old(self).tokens,
            match sp_if(old(self).toks(), old(self).pos()) {
                ParseOut::Done { v, next } => (r matches Result::Ok(s) && s@ == v)
                    && final(self).pos() == next && next > old(self).pos(),
                ParseOut::Fail { err } => r matches Result::Err(e) && e@ == err,
            },
        decreases rem(self.toks(), self.pos()), 38int, 0int,
    {
        match self.consume(TokenType::LeftParen, "Expect '(' after 'if'.") {
            Result::Ok(_) => {},
            Result::Err(er) => {
                return Result::Err(er);
            },
        }
        let condition = match self.expression() {
            Result::Ok(e) => e,
            Result::Err(er) => {
                return Result::Err(er);
            },
        };
        match self.consume(TokenType::RightParen, "Expect ')' after if condition.") {
            Result::Ok(_) => {},
            Result::Err(er) => {
                return Result::Err(er);
            },
        }
        let then_branch = match self.statement() {
            Result::Ok(s) => Box::new(s),
            Result::Err(er) => {
                return Result::Err(er);
            },
        };
        let else_branch: Option<Box<Stmt>> = if self.check(TokenType::Else) {
            self.advance_tok();
            match self.statement() {
                Result::Ok(s) => Option::Some(Box::new(s)),
                Result::Err(er) => {
                    return Result::Err(er);
                },
            }
        } else {
            Option::None
        };
        Result::Ok(Stmt::If { condition, then_branch, else_branch })
    }

    /// A while statement, after its keyword.
    #[verifier::rlimit(100)]
    fn while_statement(&mut self) -> (r: Result<Stmt, ParseError>)
        requires
            old(self).pinv(),
        ensures
            final(self).pinv(),
            final(self).tokens == old(self).tokens,
            match sp_while(old(self).toks(), old(self).pos()) {
                ParseOut::Done { v, next } => (r matches Result::Ok(s) && s@ == v)
                    && final(self).pos() == next && next > old(self).pos(),
                ParseOut::Fail { err } => r matches Result::Err(e) && e@ == err,
            },
        decreases rem(self.toks(), self.pos()), 38int, 0int,
    {
        match self.consume(TokenType::LeftParen, "Expect '(' after 'while'.") {
            Result::Ok(_) => {},
            Result::Err(er) => {
                return Result::Err(er);
            },
        }
        let condition = match self.expression() {
            Result::Ok(e) => e,
            Result::Err(er) => {
                return Result::Err(er);
            },
        };
        match self.consume(TokenType::RightParen, "Expect ')' after condition.") {
            Result::Ok(_) => {},
            Result::Err(er) => {
                return Result::Err(er);
            },
        }
        let body = match self.statement() {
            Result::Ok(s) => Box::new(s),
            Result::Err(er) => {
                return Result::Err(er);
            },
        };
        Result::Ok(Stmt::While { condition, body })
    }

    /// The parenthesized clauses of a for statement.
    #[verifier::rlimit(100)]
    fn for_clauses(&mut self) -> (r: Result<
        (Option<Stmt>, Option<Expr>, Option<Expr>, Token),
        ParseError,
    >)
        requires
            old(self).pinv(),
        ensures
            final(self).pinv(),
            final(self).tokens == old(self).tokens,
            match sp_for_clauses(old(self).toks(), old(self).pos()) {
                ParseOut::Done { v, next } => (r matches Result::Ok(c) && ((match c.0 {
                    Option::Some(st) => Option::Some(st@),
                    Option::None => Option::<StmtV>::None,
                }), (match c.1 {
                    Option::Some(e) => Option::Some(e@),
                    Option::None => Option::<ExprV>::None,
                }), (match c.2 {
                    Option::Some(e) => Option::Some(e@),
                    Option::None => Option::<ExprV>::None,
                }), c.3@) == v) && final(self).pos() == next && next > old(self).pos(),
                ParseOut::Fail { err } => r matches Result::Err(e) && e@ == err,
            },
        decreases rem(self.toks(), self.pos()), 38int, 0int,
    {
        let ghost toks = self.toks();
        let ghost pos0 = self.pos();
        match self.consume(TokenType::LeftParen, "Expect '(' after 'for'.") {
            Result::Ok(_) => {},
            Result::Err(er) => {
                return Result::Err(er);
            },
        }
        let ghost n1 = self.pos();
        let initializer: Option<Stmt> = if self.check(TokenType::Semicolon) {
            self.advance_tok();
            Option::None
        } else if self.check(TokenType::Var) {
            self.advance_tok();
            match self.var_declaration() {
                Result::Ok(s) => Option::Some(s),
                Result::Err(er) => {
                    proof {
                        assert(sp_for_init(toks, pos0, n1) == (ParseOut::<
                            (Option<StmtV>, int),
                        >::Fail { err: er@ }));
                    }
                    return Result::Err(er);
                },
            }
        } else {
            match self.expression_statement() {
                Result::Ok(s) => Option::Some(s),
                Result::Err(er) => {
                    proof {
                        assert(sp_for_init(toks, pos0, n1) == (ParseOut::<
                            (Option<StmtV>, int),
                        >::Fail { err: er@ }));
                    }
                    return Result::Err(er);
                },
            }
        };
        let ghost p2 = self.pos();
        proof {
            assert(sp_for_init(toks, pos0, n1) == (ParseOut::Done {
                v: ((match initializer {
                    Option::Some(s) => Option::Some(s@),
                    Option::None => Option::<StmtV>::None,
                }), p2),
                next: p2,
            }));
        }
        let condition: Option<Expr> = if !self.check(TokenType::Semicolon) {
            match self.expression() {
                Result::Ok(e) => Option::Some(e),
                Result::Err(er) => {
                    proof {
                        assert(sp_for_cond(toks, p2) == (ParseOut::<(Option<ExprV>, int)>::Fail {
                            err: er@,
                        }));
                    }
                    return Result::Err(er);
                },
            }
        } else {
            Option::None
        };
        let ghost p3 = self.pos();
        proof {
            assert(sp_for_cond(toks, p2) == (ParseOut::Done {
                v: ((match condition {
                    Option::Some(e) => Option::Some(e@),
                    Option::None => Option::<ExprV>::None,
                }), p3),
                next: p3,
            }));
        }
        match self.consume(TokenType::Semicolon, "Expect ';' after loop condition.") {
            Result::Ok(_) => {},
            Result::Err(er) => {
                return Result::Err(er);
            },
        }
        let ghost p4 = self.pos();
        let increment: Option<Expr> = if !self.check(TokenType::RightParen) {
            match self.expression() {
                Result::Ok(e) => Option::Some(e),
                Result::Err(er) => {
                    proof {
                        assert(sp_for_inc(toks, p4) == (ParseOut::<(Option<ExprV>, int)>::Fail {
                            err: er@,
                        }));
                    }
                    return Result::Err(er);
                },
            }
        } else {
            Option::None
        };
        let ghost p5 = self.pos();
        proof {
            assert(sp_for_inc(toks, p4) == (ParseOut::Done {
                v: ((match increment {
                    Option::Some(e) => Option::Some(e@),
                    Option::None => Option::<ExprV>::None,
                }), p5),
                next: p5,
            }));
        }
        let paren = match self.consume(TokenType::RightParen, "Expect ')' after for clauses.") {
            Result::Ok(t) => t,
            Result::Err(er) => {
                return Result::Err(er);
            },
        };
        Result::Ok((initializer, condition, increment, paren))
    }

    /// A for statement, after its keyword: parsed, then desugared into a
    /// block and a while, as `sp_for_desugar` says.
    #[verifier::rlimit(100)]
    fn for_statement(&mut self) -> (r: Result<Stmt, ParseError>)
        requires
            old(self).pinv(),
        ensures
            final(self).pinv(),
            final(self).tokens == old(self).tokens,
            match sp_for(old(self).toks(), old(self).pos()) {
                ParseOut::Done { v, next } => (r matches Result::Ok(s) && s@ == v)
                    && final(self).pos() == next && next > old(self).pos(),
                ParseOut::Fail { err } => r matches Result::Err(e) && e@ == err,
            },
        decreases rem(self.toks(), self.pos()), 38int, 1int,
    {
        let ghost toks = self.toks();
        let ghost pos0 = self.pos();
        let (initializer, condition, increment, paren) = match self.for_clauses() {
            Result::Ok(c) => c,
            Result::Err(er) => {
                return Result::Err(er);
            },
        };
        let mut body = match self.statement() {
            Result::Ok(s) => s,
            Result::Err(er) => {
                return Result::Err(er);
            },
        };
        Self::desugar_for(initializer, condition, increment, paren, body)
    }

    /// Builds what a for statement desugars to; see `sp_for_desugar`.
    #[verifier::rlimit(100)]
    fn desugar_for(
        initializer: Option<Stmt>,
        condition: Option<Expr>,
        increment: Option<Expr>,
        paren: Token,
        body: Stmt,
    ) -> (r: Result<Stmt, ParseError>)
        ensures
            r matches Result::Ok(s) && s@ == sp_for_desugar(
                (match initializer {
                    Option::Some(st) => Option::Some(st@),
                    Option::None => Option::<StmtV>::None,
                }),
                (match condition {
                    Option::Some(e) => Option::Some(e@),
                    Option::None => Option::<ExprV>::None,
                }),
                (match increment {
                    Option::Some(e) => Option::Some(e@),
                    Option::None => Option::<ExprV>::None,
                }),
                paren@,
                body@,
            ),
    {
        let ghost iv = match &initializer {
            Option::Some(st) => Option::Some(st@),
            Option::None => Option::<StmtV>::None,
        };
        let ghost cv = match &condition {
            Option::Some(e) => Option::Some(e@),
            Option::None => Option::<ExprV>::None,
        };
        let ghost nv = match &increment {
            Option::Some(e) => Option::Some(e@),
            Option::None => Option::<ExprV>::None,
        };
        let ghost parenv = paren@;
        let ghost bodyv = body@;
        let mut body = body;
        match increment {
            Option::Some(increment_expr) => {
                let pair = vec![body, Stmt::Expression { expression: increment_expr }];
                proof {
                    crate::stmt::lemma_stmts_view(pair@);
                    assert(crate::stmt::stmts_view(pair@) =~= seq![pair@[0]@, pair@[1]@]);
                }
                body = Stmt::Block { statements: pair };
            },
            Option::None => {},
        }
        proof {
            assert(body@ == (match nv {
                Option::Some(inc) => StmtV::Block {
                    statements: seq![bodyv, StmtV::Expression { expression: inc }],
                },
                Option::None => bodyv,
            }));
        }
        let condition_expr = match condition {
            Option::Some(expr) => expr,
            Option::None => Expr::Literal {
                value: Token::new(TokenType::True, String::from_str("true"), Option::None, paren.line),
            },
        };
        proof {
            assert(condition_expr@ == (match cv {
                Option::Some(c) => c,
                Option::None => ExprV::Literal {
                    value: TokenV {
                        token_type: TokenType::True,
                        lexeme: "true"@,
                        line: parenv.line,
                        literal: Option::None,
                    },
                },
            }));
        }
        let ghost body2v = body@;
        let ghost cond2v = condition_expr@;
        let while_stmt = Stmt::While { condition: condition_expr, body: Box::new(body) };
        proof {
            assert(while_stmt@ == (StmtV::While { condition: cond2v, body: Box::new(body2v) }));
        }
        let ghost wv = while_stmt@;
        match initializer {
            Option::Some(init_stmt) => {
                let pair = vec![init_stmt, while_stmt];
                proof {
                    crate::stmt::lemma_stmts_view(pair@);
                    assert(crate::stmt::stmts_view(pair@) =~= seq![pair@[0]@, pair@[1]@]);
                    assert(Stmt::Block { statements: pair }@ == sp_for_desugar(
                        iv,
                        cv,
                        nv,
                        parenv,
                        bodyv,
                    ));
                }
                Result::Ok(Stmt::Block { statements: pair })
            },
            Option::None => {
                proof {
                    assert(wv == sp_for_desugar(iv, cv, nv, parenv, bodyv));
                }
                Result::Ok(while_stmt)
            },
        }
    }

    /// The statements of a block, through the closing brace.
    #[verifier::loop_isolation(false)]
    #[verifier::rlimit(100)]
    fn block(&mut self) -> (r: Result<Vec<Stmt>, ParseError>)
        requires
            old(self).pinv(),
        ensures
            final(self).pinv(),
            final(self).tokens == old(self).tokens,
            match sp_block(old(self).toks(), old(self).pos()) {
                ParseOut::Done { v, next } => (r matches Result::Ok(ss)
                    && crate::stmt::stmts_view(ss@) == v) && final(self).pos() == next && next
                    > old(self).pos(),
                ParseOut::Fail { err } => r matches Result::Err(e) && e@ == err,
            },
        decreases rem(self.toks(), self.pos()), 41int, 0int,
    {
        let ghost toks = self.toks();
        let ghost pos0 = self.pos();
        let mut statements: Vec<Stmt> = Vec::new();
        proof {
            assert(crate::stmt::stmts_view(Seq::<Stmt>::empty()) =~= Seq::<StmtV>::empty());
        }
        while !self.check(TokenType::RightBrace) && !self.is_at_end()
            invariant
                self.pinv(),
                self.tokens == old(self).tokens,
                toks == self.toks(),
                pos0 <= self.pos(),
                statements@.len() > 0 ==> pos0 < self.pos(),
                match sp_block(toks, self.pos()) {
                    ParseOut::Done { v: rest, next } => sp_block(toks, pos0) == (ParseOut::Done {
                        v: crate::stmt::stmts_view(statements@) + rest,
                        next,
                    }),
                    ParseOut::Fail { err } => sp_block(toks, pos0) == (ParseOut::<
                        Seq<StmtV>,
                    >::Fail { err }),
                },
            decreases self.tokens@.len() - self.current,
        {
            let ghost q = self.pos();
            let ghost ss0 = statements@;
            let s = match self.declaration() {
                Result::Ok(s) => s,
                Result::Err(er) => {
                    return Result::Err(er);
                },
            };
            statements.push(s);
            proof {
                assert(statements@.drop_last() =~= ss0);
                assert(crate::stmt::stmts_view(statements@) =~= crate::stmt::stmts_view(ss0).push(
                    statements@.last()@,
                ));
                match sp_block(toks, self.pos()) {
                    ParseOut::Done { v: rest, next } => {
                        assert(crate::stmt::stmts_view(ss0) + (seq![statements@.last()@] + rest)
                            =~= crate::stmt::stmts_view(statements@) + rest);
                    },
                    ParseOut::Fail { err } => {},
                }
            }
        }
        match self.consume(TokenType::RightBrace, "Expect '}' after block.") {
            Result::Ok(_) => {
                proof {
                    assert(crate::stmt::stmts_view(statements@)
                        + Seq::<StmtV>::empty() =~= crate::stmt::stmts_view(statements@));
                }
                Result::Ok(statements)
            },
            Result::Err(er) => Result::Err(er),
        }
    }

    /// One statement of any kind.
    #[verifier::rlimit(100)]
    fn statement(&mut self) -> (r: Result<Stmt, ParseError>)
        requires
            old(self).pinv(),
        ensures
            final(self).pinv(),
            final(self).tokens == old(self).tokens,
            match sp_statement(old(self).toks(), old(self).pos()) {
                ParseOut::Done { v, next } => (r matches Result::Ok(s) && s@ == v)
                    && final(self).pos() == next && next > old(self).pos(),
                ParseOut::Fail { err } => r matches Result::Err(e) && e@ == err,
            },
        decreases rem(self.toks(), self.pos()), 39int, 0int,
    {
        if self.check(TokenType::If) {
            self.advance_tok();
            return self.if_statement();
        }
        if self.check(TokenType::Print) {
            self.advance_tok();
            return self.print_statement();
        }
        if self.check(TokenType::While) {
            self.advance_tok();
            return self.while_statement();
        }
        if self.check(TokenType::For) {
            self.advance_tok();
            return self.for_statement();
        }
        if self.check(TokenType::LeftBrace) {
            self.advance_tok();
            return match self.block() {
                Result::Ok(statements) => Result::Ok(Stmt::Block { statements }),
                Result::Err(er) => Result::Err(er),
            };
        }
        self.expression_statement()
    }

    /// A declaration: a variable declaration or any other statement.
    #[verifier::rlimit(100)]
    fn declaration(&mut self) -> (r: Result<Stmt, ParseError>)
        requires
            old(self).pinv(),
        ensures
            final(self).pinv(),
            final(self).tokens == old(self).tokens,
            match sp_declaration(old(self).toks(), old(self).pos()) {
                ParseOut::Done { v, next } => (r matches Result::Ok(s) && s@ == v)
                    && final(self).pos() == next && next > old(self).pos(),
                ParseOut::Fail { err } => r matches Result::Err(e) && e@ == err,
            },
        decreases rem(self.toks(), self.pos()), 40int, 0int,
    {
        if self.check(TokenType::Var) {
            self.advance_tok();
            return self.var_declaration();
        }
        self.statement()
    }

    /// The whole program: declarations up to the end-marker. The first
    /// declaration error is the parse's result; recovery by
    /// `synchronize` is left to callers that resume.
    #[verifier::loop_isolation(false)]
    #[verifier::rlimit(100)]
    pub fn parse(&mut self) -> (r: Result<Vec<Stmt>, ParseError>)
        requires
            old(self).pinv(),
        ensures
            final(self).pinv(),
            final(self).toks() == old(self).toks(),
            match sp_program(old(self).toks(), old(self).pos()) {
                ParseOut::Done { v, next } => (r matches Result::Ok(ss)
                    && crate::stmt::stmts_view(ss@) == v) && final(self).pos() == next,
                ParseOut::Fail { err } => r matches Result::Err(e) && e@ == err,
            },
    {
        let ghost toks = self.toks();
        let ghost pos0 = self.pos();
        let mut statements: Vec<Stmt> = Vec::new();
        proof {
            assert(crate::stmt::stmts_view(Seq::<Stmt>::empty()) =~= Seq::<StmtV>::empty());
        }
        while !self.is_at_end()
            invariant
                self.pinv(),
                self.tokens == old(self).tokens,
                toks == self.toks(),
                pos0 <= self.pos(),
                match sp_program(toks, self.pos()) {
                    ParseOut::Done { v: rest, next } => sp_program(toks, pos0) == (ParseOut::Done {
                        v: crate::stmt::stmts_view(statements@) + rest,
                        next,
                    }),
                    ParseOut::Fail { err } => sp_program(toks, pos0) == (ParseOut::<
                        Seq<StmtV>,
                    >::Fail { err }),
                },
            decreases self.tokens@.len() - self.current,
        {
            let ghost q = self.pos();
            let ghost ss0 = statements@;
            let s = match self.declaration() {
                Result::Ok(s) => s,
                Result::Err(er) => {
                    return Result::Err(er);
                },
            };
            statements.push(s);
            proof {
                assert(statements@.drop_last() =~= ss0);
                assert(crate::stmt::stmts_view(statements@) =~= crate::stmt::stmts_view(ss0).push(
                    statements@.last()@,
                ));
                assert(bump(q, self.pos()) == self.pos());
                match sp_program(toks, self.pos()) {
                    ParseOut::Done { v: rest, next } => {
                        assert(sp_program(toks, q) == (ParseOut::Done {
                            v: seq![statements@.last()@] + rest,
                            next,
                        }));
                        assert(crate::stmt::stmts_view(ss0) + (seq![statements@.last()@] + rest)
                            =~= crate::stmt::stmts_view(statements@) + rest);
                    },
                    ParseOut::Fail { err } => {
                        assert(sp_program(toks, q) == (ParseOut::<Seq<StmtV>>::Fail { err }));
                    },
                }
            }
        }
        proof {
            assert(sp_program(toks, self.pos()) == (ParseOut::<Seq<StmtV>>::Done {
                v: Seq::empty(),
                next: self.pos(),
            }));
            assert(crate::stmt::stmts_view(statements@) + Seq::<StmtV>::empty()
                =~= crate::stmt::stmts_view(statements@));
        }
        Result::Ok(statements)
    }

    /// Discards tokens up to the next statement boundary: past a
    /// semicolon, or before a keyword that starts a statement. The parse
    /// loop above returns on the first error before ever reaching this,
    /// as the design leaves error-recovery granularity to the caller.
    #[verifier::loop_isolation(false)]
    #[verifier::rlimit(100)]
    pub fn synchronize(&mut self)
        requires
            old(self).pinv(),
        ensures
            final(self).pinv(),
            final(self).toks() == old(self).toks(),
            final(self).pos() == sp_sync_scan(
                old(self).toks(),
                if at_end(old(self).toks(), old(self).pos()) {
                    old(self).pos()
                } else {
                    old(self).pos() + 1
                },
            ),
    {
        let ghost toks = self.toks();
        if !self.is_at_end() {
            self.advance_tok();
        }
        let ghost p1 = self.pos();
        while !self.is_at_end()
            invariant
                self.pinv(),
                self.tokens == old(self).tokens,
                toks == self.toks(),
                at_end(toks, self.pos()) || 1 <= self.pos(),
                sp_sync_scan(toks, p1) == sp_sync_scan(toks, self.pos()),
            decreases self.tokens@.len() - self.current,
        {
            if self.previous_is_semicolon() {
                return ;
            }
            let k = self.peek().token_type;
            if k == TokenType::Class || k == TokenType::Fun || k == TokenType::Var || k
                == TokenType::For || k == TokenType::If || k == TokenType::While || k
                == TokenType::Print || k == TokenType::Return {
                return ;
            }
            self.advance_tok();
        }
    }

    fn previous_is_semicolon(&self) -> (r: bool)
        requires
            self.pinv(),
            self.pos() >= 1,
        ensures
            r == (tok_at(self.toks(), self.pos() - 1).token_type == TokenType::Semicolon),
    {
        self.tokens[self.current - 1].token_type == TokenType::Semicolon
    }
}

} // verus!
