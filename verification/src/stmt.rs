//! Statement trees and their mathematical mirror.
//!
//! `for` has no variant of its own: the parser desugars it into a block
//! holding the initializer and a while whose body appends the increment, so
//! loop-scoped variables and increment semantics fall out of block and
//! while behaviour.

use crate::expr::{Expr, ExprV};
use crate::token::{Token, TokenV};
use vstd::prelude::*;

verus! {

broadcast use vstd::std_specs::vec::group_vec_axioms;

/// A statement as the parser builds it.
#[derive(Debug)]
pub enum Stmt {
    Expression { expression: Expr },
    Print { expression: Expr },
    Block { statements: Vec<Stmt> },
    Var { name: Token, initializer: Option<Expr> },
    If { condition: Expr, then_branch: Box<Stmt>, else_branch: Option<Box<Stmt>> },
    While { condition: Expr, body: Box<Stmt> },
}

/// The mathematical value of a statement tree.
pub enum StmtV {
    Expression { expression: ExprV },
    Print { expression: ExprV },
    Block { statements: Seq<StmtV> },
    Var { name: TokenV, initializer: Option<ExprV> },
    If { condition: ExprV, then_branch: Box<StmtV>, else_branch: Option<Box<StmtV>> },
    While { condition: ExprV, body: Box<StmtV> },
}

pub open spec fn stmt_view(s: Stmt) -> StmtV
    decreases s,
{
    match s {
        Stmt::Expression { expression } => StmtV::Expression { expression: expression@ },
        Stmt::Print { expression } => StmtV::Print { expression: expression@ },
        Stmt::Block { statements } => StmtV::Block { statements: stmts_view(statements@) },
        Stmt::Var { name, initializer } => StmtV::Var {
            name: name@,
            initializer: match initializer {
                Option::Some(e) => Option::Some(e@),
                Option::None => Option::None,
            },
        },
        Stmt::If { condition, then_branch, else_branch } => StmtV::If {
            condition: condition@,
            then_branch: Box::new(stmt_view(*then_branch)),
            else_branch: match else_branch {
                Option::Some(s) => Option::Some(Box::new(stmt_view(*s))),
                Option::None => Option::None,
            },
        },
        Stmt::While { condition, body } => StmtV::While {
            condition: condition@,
            body: Box::new(stmt_view(*body)),
        },
    }
}

pub open spec fn stmts_view(s: Seq<Stmt>) -> Seq<StmtV>
    decreases s,
{
    if s.len() == 0 {
        Seq::empty()
    } else {
        stmts_view(s.drop_last()).push(stmt_view(s.last()))
    }
}

pub broadcast proof fn lemma_stmts_view(s: Seq<Stmt>)
    ensures
        (#[trigger] stmts_view(s)).len() == s.len(),
        forall|i: int| 0 <= i < s.len() ==> stmts_view(s)[i] == stmt_view(s[i]),
    decreases s,
{
    if s.len() > 0 {
        lemma_stmts_view(s.drop_last());
    }
}

impl View for Stmt {
    type V = StmtV;

    open spec fn view(&self) -> StmtV {
        stmt_view(*self)
    }
}

} // verus!
