//! The tree-walking evaluator.
//!
//! `sp_eval` and `sp_exec` are big-step mathematical descriptions of what
//! evaluating an expression and executing a statement do to the
//! environment chain and the printed output. The clock capability's
//! reading is the host's, so the descriptions take an oracle: a function
//! giving the reading of each clock call in turn. Every other step is a
//! deterministic function of the tree and the chain; the `Interpreter`
//! methods are proved to agree with the description under the oracle made
//! of the readings the run actually saw, each a nonnegative
//! seconds-conversion of a whole-microsecond reading.
//!
//! A `while` loop of the evaluated language may run forever; the verified
//! executor therefore takes a fuel bound, spends one unit per loop
//! iteration, and reports `Ok(false)` when the bound is hit — the one
//! deviation from the language's run-forever behaviour, forced by proving
//! termination.

use crate::environment::{chain_assign, chain_lookup, Environment, EnvV, ScopeV};
use crate::expr::{exprs_view, lemma_exprs_view, Expr, ExprV};
use crate::lox_callable::{valid_clock_reading, NativeClock};
use crate::number::{f64_is_zero, f64_lt, f64_neg, add_bits, div_bits, mul_bits, sub_bits,
    float_add, float_div, float_mul, float_sub, is_zero_bits, lt_bits, neg_bits};
use crate::stmt::{lemma_stmts_view, stmts_view, Stmt, StmtV};
use crate::token::{Literal, LiteralV, TokenV};
use crate::token_type::TokenType;
use crate::value::{spec_lox_eq, spec_truthy, SpecValue, Value};
use vstd::prelude::*;

verus! {

broadcast use vstd::std_specs::vec::group_vec_axioms, vstd::seq::group_seq_axioms;

/// A failure during evaluation or execution. The three kinds propagate
/// upward unchanged, aborting the remaining statements of the current run.
#[derive(Debug, PartialEq)]
pub enum RuntimeError {
    TypeMismatch(String),
    ZeroDivision,
    UndefinedVariable(String),
}

/// The mathematical value of a `RuntimeError`.
pub enum RuntimeErrV {
    TypeMismatch(Seq<char>),
    ZeroDivision,
    UndefinedVariable(Seq<char>),
}

impl View for RuntimeError {
    type V = RuntimeErrV;

    open spec fn view(&self) -> RuntimeErrV {
        match self {
            RuntimeError::TypeMismatch(m) => RuntimeErrV::TypeMismatch(m@),
            RuntimeError::ZeroDivision => RuntimeErrV::ZeroDivision,
            RuntimeError::UndefinedVariable(n) => RuntimeErrV::UndefinedVariable(n@),
        }
    }
}

/// The decimal digit for one value below ten.
pub open spec fn dec_digit(d: nat) -> char {
    if d == 0 {
        '0'
    } else if d == 1 {
        '1'
    } else if d == 2 {
        '2'
    } else if d == 3 {
        '3'
    } else if d == 4 {
        '4'
    } else if d == 5 {
        '5'
    } else if d == 6 {
        '6'
    } else if d == 7 {
        '7'
    } else if d == 8 {
        '8'
    } else {
        '9'
    }
}

/// The decimal numeral of a natural number, most significant digit first.
pub open spec fn dec_nat(n: nat) -> Seq<char>
    decreases n,
{
    if n < 10 {
        seq![dec_digit(n)]
    } else {
        dec_nat(n / 10).push(dec_digit(n % 10))
    }
}

/// The message of the arity error: the clock's arity is zero, so the
/// expected count is fixed.
pub open spec fn arity_msg(got: nat) -> Seq<char> {
    "Expected 0 arguments but got "@ + dec_nat(got) + "."@
}

fn dec_digit_char(d: usize) -> (c: char)
    requires
        d < 10,
    ensures
        c == dec_digit(d as nat),
{
    if d == 0 {
        '0'
    } else if d == 1 {
        '1'
    } else if d == 2 {
        '2'
    } else if d == 3 {
        '3'
    } else if d == 4 {
        '4'
    } else if d == 5 {
        '5'
    } else if d == 6 {
        '6'
    } else if d == 7 {
        '7'
    } else if d == 8 {
        '8'
    } else {
        '9'
    }
}

fn push_dec(s: &mut String, n: usize)
    ensures
        final(s)@ == old(s)@ + dec_nat(n as nat),
    decreases n,
{
    if n >= 10 {
        push_dec(s, n / 10);
        s.push(dec_digit_char(n % 10));
        proof {
            assert(s@ =~= old(s)@ + dec_nat(n as nat));
        }
    } else {
        s.push(dec_digit_char(n));
        proof {
            assert(s@ =~= old(s)@ + dec_nat(n as nat));
        }
    }
}

fn arity_message(got: usize) -> (m: String)
    ensures
        m@ == arity_msg(got as nat),
{
    let mut s = String::from_str("Expected 0 arguments but got ");
    push_dec(&mut s, got);
    s.push('.');
    proof {
        reveal_strlit(".");
        assert(s@ =~= arity_msg(got as nat));
    }
    s
}

/// The mathematical value of an evaluation result.
pub open spec fn res_view(r: Result<Value, RuntimeError>) -> Result<SpecValue, RuntimeErrV> {
    match r {
        Result::Ok(v) => Result::Ok(v@),
        Result::Err(e) => Result::Err(e@),
    }
}

/// The mathematical value of an execution result.
pub open spec fn exec_res_view(r: Result<bool, RuntimeError>) -> Result<bool, RuntimeErrV> {
    match r {
        Result::Ok(b) => Result::Ok(b),
        Result::Err(e) => Result::Err(e@),
    }
}

/// The mathematical values of a vector of runtime values.
pub open spec fn vals_view(s: Seq<Value>) -> Seq<SpecValue> {
    Seq::new(s.len(), |i: int| s[i]@)
}

/// What a `Literal` expression evaluates to: the token's decoded payload,
/// or the boolean and nil keyword kinds when no payload was carried.
pub open spec fn sp_literal_value(t: TokenV) -> Result<SpecValue, RuntimeErrV> {
    match t.literal {
        Option::Some(LiteralV::Number(b)) => Result::Ok(SpecValue::Number(b)),
        Option::Some(LiteralV::Str(s)) => Result::Ok(SpecValue::Str(s)),
        Option::Some(LiteralV::Bool(b)) => Result::Ok(SpecValue::Boolean(b)),
        Option::Some(LiteralV::Nil) => Result::Ok(SpecValue::Nil),
        Option::Some(LiteralV::Identifier(s)) => Result::Ok(SpecValue::Str(s)),
        Option::None => match t.token_type {
            TokenType::True => Result::Ok(SpecValue::Boolean(true)),
            TokenType::False => Result::Ok(SpecValue::Boolean(false)),
            TokenType::Nil => Result::Ok(SpecValue::Nil),
            _ => Result::Err(RuntimeErrV::TypeMismatch("Expected literal value."@)),
        },
    }
}

/// What a binary operator yields on two evaluated operands. Equality is
/// total over every pair of kinds; the arithmetic and comparison
/// operators demand numbers (`+` also takes two strings); division by
/// either zero fails before dividing, whatever the dividend; `>=` and
/// `<=` have no result in the language, so they are a type error.
pub open spec fn sp_binary(op: TokenType, l: SpecValue, r: SpecValue) -> Result<
    SpecValue,
    RuntimeErrV,
> {
    if op == TokenType::EqualEqual {
        Result::Ok(SpecValue::Boolean(spec_lox_eq(l, r)))
    } else if op == TokenType::BangEqual {
        Result::Ok(SpecValue::Boolean(!spec_lox_eq(l, r)))
    } else if op == TokenType::Plus {
        match (l, r) {
            (SpecValue::Number(a), SpecValue::Number(b)) => Result::Ok(
                SpecValue::Number(add_bits(a, b)),
            ),
            (SpecValue::Str(a), SpecValue::Str(b)) => Result::Ok(SpecValue::Str(a + b)),
            _ => Result::Err(
                RuntimeErrV::TypeMismatch("Operands must be two numbers or two strings."@),
            ),
        }
    } else {
        match (l, r) {
            (SpecValue::Number(a), SpecValue::Number(b)) => if op == TokenType::Minus {
                Result::Ok(SpecValue::Number(sub_bits(a, b)))
            } else if op == TokenType::Star {
                Result::Ok(SpecValue::Number(mul_bits(a, b)))
            } else if op == TokenType::Slash {
                if f64_is_zero(b) {
                    Result::Err(RuntimeErrV::ZeroDivision)
                } else {
                    Result::Ok(SpecValue::Number(div_bits(a, b)))
                }
            } else if op == TokenType::Greater {
                Result::Ok(SpecValue::Boolean(f64_lt(b, a)))
            } else if op == TokenType::Less {
                Result::Ok(SpecValue::Boolean(f64_lt(a, b)))
            } else {
                Result::Err(RuntimeErrV::TypeMismatch("Operands must be numbers."@))
            },
            _ => Result::Err(RuntimeErrV::TypeMismatch("Operands must be numbers."@)),
        }
    }
}

/// What a unary operator yields: negation demands a number, the bang is
/// truthiness negation on any value.
pub open spec fn sp_unary(op: TokenType, v: SpecValue) -> Result<SpecValue, RuntimeErrV> {
    if op == TokenType::Minus {
        match v {
            SpecValue::Number(b) => Result::Ok(SpecValue::Number(f64_neg(b))),
            _ => Result::Err(RuntimeErrV::TypeMismatch("Operand must be a number."@)),
        }
    } else {
        Result::Ok(SpecValue::Boolean(!spec_truthy(v)))
    }
}

/// The chain after opening a fresh scope enclosed by the active one.
pub open spec fn env_open(env: EnvV) -> EnvV {
    EnvV {
        scopes: env.scopes.push(ScopeV { parent: Option::Some(env.cur), table: Map::empty() }),
        cur: env.scopes.len() as int,
    }
}

/// The chain after binding a name in the active scope.
pub open spec fn env_define(env: EnvV, name: Seq<char>, v: SpecValue) -> EnvV {
    EnvV {
        scopes: env.scopes.update(
            env.cur,
            ScopeV {
                parent: env.scopes[env.cur].parent,
                table: env.scopes[env.cur].table.insert(name, v),
            },
        ),
        cur: env.cur,
    }
}

/// The chain a fresh interpreter holds: one global scope binding the
/// clock capability.
pub open spec fn initial_env() -> EnvV {
    EnvV {
        scopes: seq![
            ScopeV {
                parent: Option::None,
                table: Map::<Seq<char>, SpecValue>::empty().insert("clock"@, SpecValue::Callable),
            },
        ],
        cur: 0,
    }
}

/// What evaluating one expression leaves behind: the chain, the index of
/// the next unused oracle reading, and the result.
#[verifier::ext_equal]
pub struct EvalOut {
    pub env: EnvV,
    pub k: nat,
    pub r: Result<SpecValue, RuntimeErrV>,
}

/// As `EvalOut`, for an argument list.
#[verifier::ext_equal]
pub struct ArgsOut {
    pub env: EnvV,
    pub k: nat,
    pub r: Result<Seq<SpecValue>, RuntimeErrV>,
}

/// What executing a statement leaves behind: the chain, the printed
/// output, the next oracle index, and the result — `Ok(true)` for
/// completion, `Ok(false)` for an exhausted loop bound, or the error.
#[verifier::ext_equal]
pub struct ExecOut {
    pub env: EnvV,
    pub out: Seq<SpecValue>,
    pub k: nat,
    pub r: Result<bool, RuntimeErrV>,
}

/// Big-step evaluation under a clock oracle: evaluating `e` in chain
/// `env`, with `c(k)` the next clock reading. Subterms evaluate left to
/// right; the first error ends the evaluation at once.
pub open spec fn sp_eval(env: EnvV, c: spec_fn(nat) -> u64, k: nat, e: ExprV) -> EvalOut
    decreases e,
{
    match e {
        ExprV::Literal { value } => EvalOut { env, k, r: sp_literal_value(value) },
        ExprV::Grouping { expression } => sp_eval(env, c, k, *expression),
        ExprV::Variable { name } => EvalOut {
            env,
            k,
            r: match chain_lookup(env.scopes, env.cur, name.lexeme) {
                Option::Some(v) => Result::Ok(v),
                Option::None => Result::Err(RuntimeErrV::UndefinedVariable(name.lexeme)),
            },
        },
        ExprV::Assign { name, value } => {
            let o = sp_eval(env, c, k, *value);
            match o.r {
                Result::Err(er) => o,
                Result::Ok(v) => match chain_assign(o.env.scopes, o.env.cur, name.lexeme, v) {
                    Option::Some(scs) => EvalOut {
                        env: EnvV { scopes: scs, cur: o.env.cur },
                        k: o.k,
                        r: Result::Ok(v),
                    },
                    Option::None => EvalOut {
                        env: o.env,
                        k: o.k,
                        r: Result::Err(RuntimeErrV::UndefinedVariable(name.lexeme)),
                    },
                },
            }
        },
        ExprV::Unary { operator, right } => {
            let o = sp_eval(env, c, k, *right);
            match o.r {
                Result::Err(er) => o,
                Result::Ok(v) => EvalOut { env: o.env, k: o.k, r: sp_unary(operator.token_type, v) },
            }
        },
        ExprV::Logical { left, operator, right } => {
            let o = sp_eval(env, c, k, *left);
            match o.r {
                Result::Err(er) => o,
                Result::Ok(v) => {
                    let shortcut = if operator.token_type == TokenType::Or {
                        spec_truthy(v)
                    } else {
                        !spec_truthy(v)
                    };
                    if shortcut {
                        o
                    } else {
                        sp_eval(o.env, c, o.k, *right)
                    }
                },
            }
        },
        ExprV::Binary { left, operator, right } => {
            let o1 = sp_eval(env, c, k, *left);
            match o1.r {
                Result::Err(er) => o1,
                Result::Ok(v1) => {
                    let o2 = sp_eval(o1.env, c, o1.k, *right);
                    match o2.r {
                        Result::Err(er) => o2,
                        Result::Ok(v2) => EvalOut {
                            env: o2.env,
                            k: o2.k,
                            r: sp_binary(operator.token_type, v1, v2),
                        },
                    }
                },
            }
        },
        ExprV::Call { callee, paren, arguments } => {
            let o1 = sp_eval(env, c, k, *callee);
            match o1.r {
                Result::Err(er) => o1,
                Result::Ok(cv) => {
                    let a = sp_eval_args(o1.env, c, o1.k, arguments);
                    match a.r {
                        Result::Err(er) => EvalOut { env: a.env, k: a.k, r: Result::Err(er) },
                        Result::Ok(vs) => match cv {
                            SpecValue::Callable => if vs.len() == 0 {
                                EvalOut {
                                    env: a.env,
                                    k: (a.k + 1) as nat,
                                    r: Result::Ok(SpecValue::Number(c(a.k))),
                                }
                            } else {
                                EvalOut {
                                    env: a.env,
                                    k: a.k,
                                    r: Result::Err(RuntimeErrV::TypeMismatch(arity_msg(vs.len()))),
                                }
                            },
                            _ => EvalOut {
                                env: a.env,
                                k: a.k,
                                r: Result::Err(
                                    RuntimeErrV::TypeMismatch(
                                        "Can only call functions and classes."@,
                                    ),
                                ),
                            },
                        },
                    }
                },
            }
        },
    }
}

/// Big-step evaluation of an argument list, left to right: the values of
/// a successful prefix and one more, or the first error.
pub open spec fn sp_eval_args(env: EnvV, c: spec_fn(nat) -> u64, k: nat, es: Seq<ExprV>) -> ArgsOut
    decreases es,
{
    if es.len() == 0 {
        ArgsOut { env, k, r: Result::Ok(Seq::<SpecValue>::empty()) }
    } else {
        let p = sp_eval_args(env, c, k, es.drop_last());
        match p.r {
            Result::Err(er) => p,
            Result::Ok(vs) => {
                let o = sp_eval(p.env, c, p.k, es.last());
                match o.r {
                    Result::Err(er) => ArgsOut { env: o.env, k: o.k, r: Result::Err(er) },
                    Result::Ok(v) => ArgsOut { env: o.env, k: o.k, r: Result::Ok(vs.push(v)) },
                }
            },
        }
    }
}

/// Big-step execution under a clock oracle, with at most `fuel`
/// iterations per loop. An error skips the remaining statements, but a
/// block restores the enclosing scope whatever happened inside it.
pub open spec fn sp_exec(
    env: EnvV,
    out: Seq<SpecValue>,
    c: spec_fn(nat) -> u64,
    k: nat,
    s: StmtV,
    fuel: nat,
) -> ExecOut
    decreases fuel, s,
{
    match s {
        StmtV::Expression { expression } => {
            let o = sp_eval(env, c, k, expression);
            ExecOut {
                env: o.env,
                out,
                k: o.k,
                r: match o.r {
                    Result::Ok(_) => Result::Ok(true),
                    Result::Err(er) => Result::Err(er),
                },
            }
        },
        StmtV::Print { expression } => {
            let o = sp_eval(env, c, k, expression);
            match o.r {
                Result::Ok(v) => ExecOut { env: o.env, out: out.push(v), k: o.k, r: Result::Ok(true) },
                Result::Err(er) => ExecOut { env: o.env, out, k: o.k, r: Result::Err(er) },
            }
        },
        StmtV::Var { name, initializer } => match initializer {
            Option::Some(e) => {
                let o = sp_eval(env, c, k, e);
                match o.r {
                    Result::Err(er) => ExecOut { env: o.env, out, k: o.k, r: Result::Err(er) },
                    Result::Ok(v) => ExecOut {
                        env: env_define(o.env, name.lexeme, v),
                        out,
                        k: o.k,
                        r: Result::Ok(true),
                    },
                }
            },
            Option::None => ExecOut {
                env: env_define(env, name.lexeme, SpecValue::Nil),
                out,
                k,
                r: Result::Ok(true),
            },
        },
        StmtV::Block { statements } => {
            let b = sp_exec_seq(env_open(env), out, c, k, statements, fuel);
            ExecOut { env: EnvV { scopes: b.env.scopes, cur: env.cur }, out: b.out, k: b.k, r: b.r }
        },
        StmtV::If { condition, then_branch, else_branch } => {
            let o = sp_eval(env, c, k, condition);
            match o.r {
                Result::Err(er) => ExecOut { env: o.env, out, k: o.k, r: Result::Err(er) },
                Result::Ok(v) => if spec_truthy(v) {
                    sp_exec(o.env, out, c, o.k, *then_branch, fuel)
                } else {
                    match else_branch {
                        Option::Some(s2) => sp_exec(o.env, out, c, o.k, *s2, fuel),
                        Option::None => ExecOut { env: o.env, out, k: o.k, r: Result::Ok(true) },
                    }
                },
            }
        },
        StmtV::While { condition, body } => {
            let o = sp_eval(env, c, k, condition);
            match o.r {
                Result::Err(er) => ExecOut { env: o.env, out, k: o.k, r: Result::Err(er) },
                Result::Ok(v) => if !spec_truthy(v) {
                    ExecOut { env: o.env, out, k: o.k, r: Result::Ok(true) }
                } else if fuel == 0 {
                    ExecOut { env: o.env, out, k: o.k, r: Result::Ok(false) }
                } else {
                    let b = sp_exec(o.env, out, c, o.k, *body, (fuel - 1) as nat);
                    if b.r == Result::<bool, RuntimeErrV>::Ok(true) {
                        sp_exec(b.env, b.out, c, b.k, s, (fuel - 1) as nat)
                    } else {
                        b
                    }
                },
            }
        },
    }
}

/// Big-step execution of a statement sequence, in order: an error or an
/// exhausted bound stops the rest.
pub open spec fn sp_exec_seq(
    env: EnvV,
    out: Seq<SpecValue>,
    c: spec_fn(nat) -> u64,
    k: nat,
    ss: Seq<StmtV>,
    fuel: nat,
) -> ExecOut
    decreases fuel, ss,
{
    if ss.len() == 0 {
        ExecOut { env, out, k, r: Result::Ok(true) }
    } else {
        let p = sp_exec_seq(env, out, c, k, ss.drop_last(), fuel);
        if p.r == Result::<bool, RuntimeErrV>::Ok(true) {
            sp_exec(p.env, p.out, c, p.k, ss.last(), fuel)
        } else {
            p
        }
    }
}

/// The oracle holds the readings `w` starting at position `k`.
pub open spec fn oracle_has(c: spec_fn(nat) -> u64, k: nat, w: Seq<u64>) -> bool {
    forall|j: nat| k <= j < k + w.len() ==> #[trigger] c(j) == w[j - k]
}

/// Every reading in `w` is one the clock capability can hand back.
pub open spec fn valid_ticks(w: Seq<u64>) -> bool {
    forall|i: int| 0 <= i < w.len() ==> valid_clock_reading(#[trigger] w[i])
}

/// Evaluating `e` in chain `env` consumes exactly the readings `w`, ends
/// in chain `env2` with result `r`, under every oracle that holds `w` —
/// and the readings are ones the clock can produce.
pub open spec fn eval_commits(
    env: EnvV,
    e: ExprV,
    w: Seq<u64>,
    env2: EnvV,
    r: Result<SpecValue, RuntimeErrV>,
) -> bool {
    &&& valid_ticks(w)
    &&& forall|c: spec_fn(nat) -> u64, k: nat|
        oracle_has(c, k, w) ==> #[trigger] sp_eval(env, c, k, e) == (EvalOut {
            env: env2,
            k: (k + w.len()) as nat,
            r,
        })
}

/// As `eval_commits`, for an argument list.
pub open spec fn args_commits(
    env: EnvV,
    es: Seq<ExprV>,
    w: Seq<u64>,
    env2: EnvV,
    r: Result<Seq<SpecValue>, RuntimeErrV>,
) -> bool {
    &&& valid_ticks(w)
    &&& forall|c: spec_fn(nat) -> u64, k: nat|
        oracle_has(c, k, w) ==> #[trigger] sp_eval_args(env, c, k, es) == (ArgsOut {
            env: env2,
            k: (k + w.len()) as nat,
            r,
        })
}

/// As `eval_commits`, for one statement.
pub open spec fn exec_commits(
    env: EnvV,
    out: Seq<SpecValue>,
    s: StmtV,
    fuel: nat,
    w: Seq<u64>,
    env2: EnvV,
    out2: Seq<SpecValue>,
    r: Result<bool, RuntimeErrV>,
) -> bool {
    &&& valid_ticks(w)
    &&& forall|c: spec_fn(nat) -> u64, k: nat|
        oracle_has(c, k, w) ==> #[trigger] sp_exec(env, out, c, k, s, fuel) == (ExecOut {
            env: env2,
            out: out2,
            k: (k + w.len()) as nat,
            r,
        })
}

/// As `eval_commits`, for a statement sequence.
pub open spec fn exec_seq_commits(
    env: EnvV,
    out: Seq<SpecValue>,
    ss: Seq<StmtV>,
    fuel: nat,
    w: Seq<u64>,
    env2: EnvV,
    out2: Seq<SpecValue>,
    r: Result<bool, RuntimeErrV>,
) -> bool {
    &&& valid_ticks(w)
    &&& forall|c: spec_fn(nat) -> u64, k: nat|
        oracle_has(c, k, w) ==> #[trigger] sp_exec_seq(env, out, c, k, ss, fuel) == (ExecOut {
            env: env2,
            out: out2,
            k: (k + w.len()) as nat,
            r,
        })
}

/// An oracle that holds `w1 + w2` holds `w1`, then `w2` after it.
pub proof fn lemma_oracle_split(c: spec_fn(nat) -> u64, k: nat, w1: Seq<u64>, w2: Seq<u64>)
    requires
        oracle_has(c, k, w1 + w2),
    ensures
        oracle_has(c, k, w1),
        oracle_has(c, (k + w1.len()) as nat, w2),
{
    assert forall|j: nat| k <= j < k + w1.len() implies #[trigger] c(j) == w1[j - k] by {
        assert(c(j) == (w1 + w2)[j - k]);
    }
    assert forall|j: nat| k + w1.len() <= j < k + w1.len() + w2.len() implies #[trigger] c(j)
        == w2[j - (k + w1.len())] by {
        assert(c(j) == (w1 + w2)[j - k]);
    }
}

/// Concatenating valid reading lists keeps them valid.
pub proof fn lemma_valid_ticks_concat(w1: Seq<u64>, w2: Seq<u64>)
    requires
        valid_ticks(w1),
        valid_ticks(w2),
    ensures
        valid_ticks(w1 + w2),
{
    assert forall|i: int| 0 <= i < (w1 + w2).len() implies valid_clock_reading(
        #[trigger] (w1 + w2)[i],
    ) by {
        if i < w1.len() {
            assert((w1 + w2)[i] == w1[i]);
        } else {
            assert((w1 + w2)[i] == w2[i - w1.len()]);
        }
    }
}

proof fn lemma_commit_literal(env: EnvV, t: TokenV)
    ensures
        eval_commits(env, ExprV::Literal { value: t }, Seq::empty(), env, sp_literal_value(t)),
{
    let e = ExprV::Literal { value: t };
    assert forall|c: spec_fn(nat) -> u64, k: nat| oracle_has(c, k, Seq::<u64>::empty())
        implies #[trigger] sp_eval(env, c, k, e) == (EvalOut { env, k, r: sp_literal_value(t) }) by {
    }
}

proof fn lemma_commit_variable(env: EnvV, name: TokenV)
    ensures
        eval_commits(
            env,
            ExprV::Variable { name },
            Seq::empty(),
            env,
            match chain_lookup(env.scopes, env.cur, name.lexeme) {
                Option::Some(v) => Result::Ok(v),
                Option::None => Result::Err(RuntimeErrV::UndefinedVariable(name.lexeme)),
            },
        ),
{
    let e = ExprV::Variable { name };
    assert forall|c: spec_fn(nat) -> u64, k: nat| oracle_has(c, k, Seq::<u64>::empty())
        implies #[trigger] sp_eval(env, c, k, e) == (EvalOut {
        env,
        k,
        r: match chain_lookup(env.scopes, env.cur, name.lexeme) {
            Option::Some(v) => Result::Ok(v),
            Option::None => Result::Err(RuntimeErrV::UndefinedVariable(name.lexeme)),
        },
    }) by {
    }
}

proof fn lemma_commit_grouping(
    env: EnvV,
    inner: ExprV,
    w: Seq<u64>,
    env2: EnvV,
    r: Result<SpecValue, RuntimeErrV>,
)
    requires
        eval_commits(env, inner, w, env2, r),
    ensures
        eval_commits(env, ExprV::Grouping { expression: Box::new(inner) }, w, env2, r),
{
    let e = ExprV::Grouping { expression: Box::new(inner) };
    assert forall|c: spec_fn(nat) -> u64, k: nat| oracle_has(c, k, w) implies #[trigger] sp_eval(
        env,
        c,
        k,
        e,
    ) == (EvalOut { env: env2, k: (k + w.len()) as nat, r }) by {
        assert(sp_eval(env, c, k, inner) == (EvalOut { env: env2, k: (k + w.len()) as nat, r }));
    }
}

proof fn lemma_commit_assign(
    env: EnvV,
    name: TokenV,
    inner: ExprV,
    w: Seq<u64>,
    env1: EnvV,
    r1: Result<SpecValue, RuntimeErrV>,
)
    requires
        eval_commits(env, inner, w, env1, r1),
    ensures
        match r1 {
            Result::Err(er) => eval_commits(
                env,
                ExprV::Assign { name, value: Box::new(inner) },
                w,
                env1,
                Result::Err(er),
            ),
            Result::Ok(v) => match chain_assign(env1.scopes, env1.cur, name.lexeme, v) {
                Option::Some(scs) => eval_commits(
                    env,
                    ExprV::Assign { name, value: Box::new(inner) },
                    w,
                    EnvV { scopes: scs, cur: env1.cur },
                    Result::Ok(v),
                ),
                Option::None => eval_commits(
                    env,
                    ExprV::Assign { name, value: Box::new(inner) },
                    w,
                    env1,
                    Result::Err(RuntimeErrV::UndefinedVariable(name.lexeme)),
                ),
            },
        },
{
    let e = ExprV::Assign { name, value: Box::new(inner) };
    let env2 = match r1 {
        Result::Err(er) => env1,
        Result::Ok(v) => match chain_assign(env1.scopes, env1.cur, name.lexeme, v) {
            Option::Some(scs) => EnvV { scopes: scs, cur: env1.cur },
            Option::None => env1,
        },
    };
    let r = match r1 {
        Result::Err(er) => Result::<SpecValue, RuntimeErrV>::Err(er),
        Result::Ok(v) => match chain_assign(env1.scopes, env1.cur, name.lexeme, v) {
            Option::Some(scs) => Result::<SpecValue, RuntimeErrV>::Ok(v),
            Option::None => Result::<SpecValue, RuntimeErrV>::Err(
                RuntimeErrV::UndefinedVariable(name.lexeme),
            ),
        },
    };
    assert forall|c: spec_fn(nat) -> u64, k: nat| oracle_has(c, k, w) implies #[trigger] sp_eval(
        env,
        c,
        k,
        e,
    ) == (EvalOut { env: env2, k: (k + w.len()) as nat, r }) by {
        assert(sp_eval(env, c, k, inner) == (EvalOut { env: env1, k: (k + w.len()) as nat, r: r1 }));
    }
}

proof fn lemma_commit_unary(
    env: EnvV,
    op: TokenV,
    right: ExprV,
    w: Seq<u64>,
    env1: EnvV,
    r1: Result<SpecValue, RuntimeErrV>,
)
    requires
        eval_commits(env, right, w, env1, r1),
    ensures
        eval_commits(
            env,
            ExprV::Unary { operator: op, right: Box::new(right) },
            w,
            env1,
            match r1 {
                Result::Err(er) => Result::Err(er),
                Result::Ok(v) => sp_unary(op.token_type, v),
            },
        ),
{
    let e = ExprV::Unary { operator: op, right: Box::new(right) };
    let r = match r1 {
        Result::Err(er) => Result::<SpecValue, RuntimeErrV>::Err(er),
        Result::Ok(v) => sp_unary(op.token_type, v),
    };
    assert forall|c: spec_fn(nat) -> u64, k: nat| oracle_has(c, k, w) implies #[trigger] sp_eval(
        env,
        c,
        k,
        e,
    ) == (EvalOut { env: env1, k: (k + w.len()) as nat, r }) by {
        assert(sp_eval(env, c, k, right) == (EvalOut { env: env1, k: (k + w.len()) as nat, r: r1 }));
    }
}

/// A logical operator that stops at its left operand: an error, or a
/// short-circuit, whatever the right operand is.
proof fn lemma_commit_logical_short(
    env: EnvV,
    op: TokenV,
    left: ExprV,
    right: ExprV,
    w: Seq<u64>,
    env1: EnvV,
    r1: Result<SpecValue, RuntimeErrV>,
)
    requires
        eval_commits(env, left, w, env1, r1),
        match r1 {
            Result::Err(_) => true,
            Result::Ok(v) => if op.token_type == TokenType::Or {
                spec_truthy(v)
            } else {
                !spec_truthy(v)
            },
        },
    ensures
        eval_commits(
            env,
            ExprV::Logical { left: Box::new(left), operator: op, right: Box::new(right) },
            w,
            env1,
            r1,
        ),
{
    let e = ExprV::Logical { left: Box::new(left), operator: op, right: Box::new(right) };
    assert forall|c: spec_fn(nat) -> u64, k: nat| oracle_has(c, k, w) implies #[trigger] sp_eval(
        env,
        c,
        k,
        e,
    ) == (EvalOut { env: env1, k: (k + w.len()) as nat, r: r1 }) by {
        assert(sp_eval(env, c, k, left) == (EvalOut { env: env1, k: (k + w.len()) as nat, r: r1 }));
    }
}

proof fn lemma_commit_logical_full(
    env: EnvV,
    op: TokenV,
    left: ExprV,
    right: ExprV,
    w1: Seq<u64>,
    env1: EnvV,
    v1: SpecValue,
    w2: Seq<u64>,
    env2: EnvV,
    r2: Result<SpecValue, RuntimeErrV>,
)
    requires
        eval_commits(env, left, w1, env1, Result::Ok(v1)),
        if op.token_type == TokenType::Or {
            !spec_truthy(v1)
        } else {
            spec_truthy(v1)
        },
        eval_commits(env1, right, w2, env2, r2),
    ensures
        eval_commits(
            env,
            ExprV::Logical { left: Box::new(left), operator: op, right: Box::new(right) },
            w1 + w2,
            env2,
            r2,
        ),
{
    let e = ExprV::Logical { left: Box::new(left), operator: op, right: Box::new(right) };
    let w = w1 + w2;
    lemma_valid_ticks_concat(w1, w2);
    assert forall|c: spec_fn(nat) -> u64, k: nat| oracle_has(c, k, w) implies #[trigger] sp_eval(
        env,
        c,
        k,
        e,
    ) == (EvalOut { env: env2, k: (k + w.len()) as nat, r: r2 }) by {
        lemma_oracle_split(c, k, w1, w2);
        assert(sp_eval(env, c, k, left) == (EvalOut {
            env: env1,
            k: (k + w1.len()) as nat,
            r: Result::Ok(v1),
        }));
        assert(sp_eval(env1, c, (k + w1.len()) as nat, right) == (EvalOut {
            env: env2,
            k: (k + w1.len() + w2.len()) as nat,
            r: r2,
        }));
    }
}

proof fn lemma_commit_binary_err(
    env: EnvV,
    op: TokenV,
    left: ExprV,
    right: ExprV,
    w: Seq<u64>,
    env1: EnvV,
    er: RuntimeErrV,
)
    requires
        eval_commits(env, left, w, env1, Result::Err(er)),
    ensures
        eval_commits(
            env,
            ExprV::Binary { left: Box::new(left), operator: op, right: Box::new(right) },
            w,
            env1,
            Result::Err(er),
        ),
{
    let e = ExprV::Binary { left: Box::new(left), operator: op, right: Box::new(right) };
    assert forall|c: spec_fn(nat) -> u64, k: nat| oracle_has(c, k, w) implies #[trigger] sp_eval(
        env,
        c,
        k,
        e,
    ) == (EvalOut { env: env1, k: (k + w.len()) as nat, r: Result::Err(er) }) by {
        assert(sp_eval(env, c, k, left) == (EvalOut {
            env: env1,
            k: (k + w.len()) as nat,
            r: Result::<SpecValue, RuntimeErrV>::Err(er),
        }));
    }
}

proof fn lemma_commit_binary(
    env: EnvV,
    op: TokenV,
    left: ExprV,
    right: ExprV,
    w1: Seq<u64>,
    env1: EnvV,
    v1: SpecValue,
    w2: Seq<u64>,
    env2: EnvV,
    r2: Result<SpecValue, RuntimeErrV>,
)
    requires
        eval_commits(env, left, w1, env1, Result::Ok(v1)),
        eval_commits(env1, right, w2, env2, r2),
    ensures
        eval_commits(
            env,
            ExprV::Binary { left: Box::new(left), operator: op, right: Box::new(right) },
            w1 + w2,
            env2,
            match r2 {
                Result::Err(er) => Result::Err(er),
                Result::Ok(v2) => sp_binary(op.token_type, v1, v2),
            },
        ),
{
    let e = ExprV::Binary { left: Box::new(left), operator: op, right: Box::new(right) };
    let w = w1 + w2;
    let r = match r2 {
        Result::Err(er) => Result::<SpecValue, RuntimeErrV>::Err(er),
        Result::Ok(v2) => sp_binary(op.token_type, v1, v2),
    };
    lemma_valid_ticks_concat(w1, w2);
    assert forall|c: spec_fn(nat) -> u64, k: nat| oracle_has(c, k, w) implies #[trigger] sp_eval(
        env,
        c,
        k,
        e,
    ) == (EvalOut { env: env2, k: (k + w.len()) as nat, r }) by {
        lemma_oracle_split(c, k, w1, w2);
        assert(sp_eval(env, c, k, left) == (EvalOut {
            env: env1,
            k: (k + w1.len()) as nat,
            r: Result::Ok(v1),
        }));
        assert(sp_eval(env1, c, (k + w1.len()) as nat, right) == (EvalOut {
            env: env2,
            k: (k + w1.len() + w2.len()) as nat,
            r: r2,
        }));
    }
}

proof fn lemma_commit_args_empty(env: EnvV)
    ensures
        args_commits(
            env,
            Seq::empty(),
            Seq::empty(),
            env,
            Result::Ok(Seq::<SpecValue>::empty()),
        ),
{
    assert forall|c: spec_fn(nat) -> u64, k: nat| oracle_has(c, k, Seq::<u64>::empty())
        implies #[trigger] sp_eval_args(env, c, k, Seq::<ExprV>::empty()) == (ArgsOut {
        env,
        k,
        r: Result::Ok(Seq::<SpecValue>::empty()),
    }) by {
    }
}

proof fn lemma_commit_args_snoc(
    env: EnvV,
    es: Seq<ExprV>,
    w1: Seq<u64>,
    env1: EnvV,
    vs: Seq<SpecValue>,
    e: ExprV,
    w2: Seq<u64>,
    env2: EnvV,
    r2: Result<SpecValue, RuntimeErrV>,
)
    requires
        args_commits(env, es, w1, env1, Result::Ok(vs)),
        eval_commits(env1, e, w2, env2, r2),
    ensures
        args_commits(
            env,
            es.push(e),
            w1 + w2,
            env2,
            match r2 {
                Result::Err(er) => Result::Err(er),
                Result::Ok(v) => Result::Ok(vs.push(v)),
            },
        ),
{
    let es2 = es.push(e);
    let w = w1 + w2;
    let r = match r2 {
        Result::Err(er) => Result::<Seq<SpecValue>, RuntimeErrV>::Err(er),
        Result::Ok(v) => Result::<Seq<SpecValue>, RuntimeErrV>::Ok(vs.push(v)),
    };
    lemma_valid_ticks_concat(w1, w2);
    assert(es2.drop_last() =~= es);
    assert(es2.last() == e);
    assert forall|c: spec_fn(nat) -> u64, k: nat| oracle_has(c, k, w)
        implies #[trigger] sp_eval_args(env, c, k, es2) == (ArgsOut {
        env: env2,
        k: (k + w.len()) as nat,
        r,
    }) by {
        lemma_oracle_split(c, k, w1, w2);
        assert(sp_eval_args(env, c, k, es) == (ArgsOut {
            env: env1,
            k: (k + w1.len()) as nat,
            r: Result::Ok(vs),
        }));
        assert(sp_eval(env1, c, (k + w1.len()) as nat, e) == (EvalOut {
            env: env2,
            k: (k + w1.len() + w2.len()) as nat,
            r: r2,
        }));
    }
}

/// An argument list whose prefix already failed fails as a whole: the
/// remaining arguments are never evaluated.
proof fn lemma_args_stuck(env: EnvV, es: Seq<ExprV>, j: int, w: Seq<u64>, env2: EnvV, er: RuntimeErrV)
    requires
        0 <= j <= es.len(),
        args_commits(env, es.take(j), w, env2, Result::Err(er)),
    ensures
        args_commits(env, es, w, env2, Result::Err(er)),
    decreases es.len() - j,
{
    if j == es.len() {
        assert(es.take(j) =~= es);
    } else {
        assert(es.drop_last().take(j) =~= es.take(j));
        lemma_args_stuck(env, es.drop_last(), j, w, env2, er);
        assert forall|c: spec_fn(nat) -> u64, k: nat| oracle_has(c, k, w)
            implies #[trigger] sp_eval_args(env, c, k, es) == (ArgsOut {
            env: env2,
            k: (k + w.len()) as nat,
            r: Result::Err(er),
        }) by {
            assert(sp_eval_args(env, c, k, es.drop_last()) == (ArgsOut {
                env: env2,
                k: (k + w.len()) as nat,
                r: Result::<Seq<SpecValue>, RuntimeErrV>::Err(er),
            }));
        }
    }
}

proof fn lemma_commit_call_callee_err(
    env: EnvV,
    callee: ExprV,
    paren: TokenV,
    args: Seq<ExprV>,
    w: Seq<u64>,
    env1: EnvV,
    er: RuntimeErrV,
)
    requires
        eval_commits(env, callee, w, env1, Result::Err(er)),
    ensures
        eval_commits(
            env,
            ExprV::Call { callee: Box::new(callee), paren, arguments: args },
            w,
            env1,
            Result::Err(er),
        ),
{
    let e = ExprV::Call { callee: Box::new(callee), paren, arguments: args };
    assert forall|c: spec_fn(nat) -> u64, k: nat| oracle_has(c, k, w) implies #[trigger] sp_eval(
        env,
        c,
        k,
        e,
    ) == (EvalOut { env: env1, k: (k + w.len()) as nat, r: Result::Err(er) }) by {
        assert(sp_eval(env, c, k, callee) == (EvalOut {
            env: env1,
            k: (k + w.len()) as nat,
            r: Result::<SpecValue, RuntimeErrV>::Err(er),
        }));
    }
}

/// A call that does not reach the clock: the arguments failed, the callee
/// is no callable, or the argument count is wrong.
proof fn lemma_commit_call_no_invoke(
    env: EnvV,
    callee: ExprV,
    paren: TokenV,
    args: Seq<ExprV>,
    w1: Seq<u64>,
    env1: EnvV,
    cv: SpecValue,
    w2: Seq<u64>,
    env2: EnvV,
    ra: Result<Seq<SpecValue>, RuntimeErrV>,
)
    requires
        eval_commits(env, callee, w1, env1, Result::Ok(cv)),
        args_commits(env1, args, w2, env2, ra),
        match ra {
            Result::Err(_) => true,
            Result::Ok(vs) => !(cv == SpecValue::Callable && vs.len() == 0),
        },
    ensures
        eval_commits(
            env,
            ExprV::Call { callee: Box::new(callee), paren, arguments: args },
            w1 + w2,
            env2,
            match ra {
                Result::Err(er) => Result::Err(er),
                Result::Ok(vs) => match cv {
                    SpecValue::Callable => Result::Err(
                        RuntimeErrV::TypeMismatch(arity_msg(vs.len())),
                    ),
                    _ => Result::Err(
                        RuntimeErrV::TypeMismatch("Can only call functions and classes."@),
                    ),
                },
            },
        ),
{
    let e = ExprV::Call { callee: Box::new(callee), paren, arguments: args };
    let w = w1 + w2;
    let r = match ra {
        Result::Err(er) => Result::<SpecValue, RuntimeErrV>::Err(er),
        Result::Ok(vs) => match cv {
            SpecValue::Callable => Result::<SpecValue, RuntimeErrV>::Err(
                RuntimeErrV::TypeMismatch(arity_msg(vs.len())),
            ),
            _ => Result::<SpecValue, RuntimeErrV>::Err(
                RuntimeErrV::TypeMismatch("Can only call functions and classes."@),
            ),
        },
    };
    lemma_valid_ticks_concat(w1, w2);
    assert forall|c: spec_fn(nat) -> u64, k: nat| oracle_has(c, k, w) implies #[trigger] sp_eval(
        env,
        c,
        k,
        e,
    ) == (EvalOut { env: env2, k: (k + w.len()) as nat, r }) by {
        lemma_oracle_split(c, k, w1, w2);
        assert(sp_eval(env, c, k, callee) == (EvalOut {
            env: env1,
            k: (k + w1.len()) as nat,
            r: Result::Ok(cv),
        }));
        assert(sp_eval_args(env1, c, (k + w1.len()) as nat, args) == (ArgsOut {
            env: env2,
            k: (k + w1.len() + w2.len()) as nat,
            r: ra,
        }));
    }
}

/// A clock invocation: the callee is the capability, the arguments are
/// none, and the oracle's next reading is the result.
proof fn lemma_commit_call_clock(
    env: EnvV,
    callee: ExprV,
    paren: TokenV,
    args: Seq<ExprV>,
    w1: Seq<u64>,
    env1: EnvV,
    w2: Seq<u64>,
    env2: EnvV,
    t: u64,
)
    requires
        eval_commits(env, callee, w1, env1, Result::Ok(SpecValue::Callable)),
        args_commits(env1, args, w2, env2, Result::Ok(Seq::<SpecValue>::empty())),
        valid_clock_reading(t),
    ensures
        eval_commits(
            env,
            ExprV::Call { callee: Box::new(callee), paren, arguments: args },
            w1 + w2 + seq![t],
            env2,
            Result::Ok(SpecValue::Number(t)),
        ),
{
    let e = ExprV::Call { callee: Box::new(callee), paren, arguments: args };
    let w = w1 + w2 + seq![t];
    lemma_valid_ticks_concat(w1, w2);
    lemma_valid_ticks_concat(w1 + w2, seq![t]);
    assert forall|c: spec_fn(nat) -> u64, k: nat| oracle_has(c, k, w) implies #[trigger] sp_eval(
        env,
        c,
        k,
        e,
    ) == (EvalOut { env: env2, k: (k + w.len()) as nat, r: Result::Ok(SpecValue::Number(t)) }) by {
        lemma_oracle_split(c, k, w1 + w2, seq![t]);
        lemma_oracle_split(c, k, w1, w2);
        assert(sp_eval(env, c, k, callee) == (EvalOut {
            env: env1,
            k: (k + w1.len()) as nat,
            r: Result::Ok(SpecValue::Callable),
        }));
        assert(sp_eval_args(env1, c, (k + w1.len()) as nat, args) == (ArgsOut {
            env: env2,
            k: (k + w1.len() + w2.len()) as nat,
            r: Result::Ok(Seq::<SpecValue>::empty()),
        }));
        assert(c((k + w1.len() + w2.len()) as nat) == t);
    }
}

proof fn lemma_commit_expression(
    env: EnvV,
    out: Seq<SpecValue>,
    e: ExprV,
    fuel: nat,
    w: Seq<u64>,
    env1: EnvV,
    r1: Result<SpecValue, RuntimeErrV>,
)
    requires
        eval_commits(env, e, w, env1, r1),
    ensures
        exec_commits(
            env,
            out,
            StmtV::Expression { expression: e },
            fuel,
            w,
            env1,
            out,
            match r1 {
                Result::Ok(_) => Result::Ok(true),
                Result::Err(er) => Result::Err(er),
            },
        ),
{
    let s = StmtV::Expression { expression: e };
    let r = match r1 {
        Result::Ok(_) => Result::<bool, RuntimeErrV>::Ok(true),
        Result::Err(er) => Result::<bool, RuntimeErrV>::Err(er),
    };
    assert forall|c: spec_fn(nat) -> u64, k: nat| oracle_has(c, k, w) implies #[trigger] sp_exec(
        env,
        out,
        c,
        k,
        s,
        fuel,
    ) == (ExecOut { env: env1, out, k: (k + w.len()) as nat, r }) by {
        assert(sp_eval(env, c, k, e) == (EvalOut { env: env1, k: (k + w.len()) as nat, r: r1 }));
    }
}

proof fn lemma_commit_print(
    env: EnvV,
    out: Seq<SpecValue>,
    e: ExprV,
    fuel: nat,
    w: Seq<u64>,
    env1: EnvV,
    r1: Result<SpecValue, RuntimeErrV>,
)
    requires
        eval_commits(env, e, w, env1, r1),
    ensures
        exec_commits(
            env,
            out,
            StmtV::Print { expression: e },
            fuel,
            w,
            env1,
            match r1 {
                Result::Ok(v) => out.push(v),
                Result::Err(_) => out,
            },
            match r1 {
                Result::Ok(_) => Result::Ok(true),
                Result::Err(er) => Result::Err(er),
            },
        ),
{
    let s = StmtV::Print { expression: e };
    let out2 = match r1 {
        Result::Ok(v) => out.push(v),
        Result::Err(_) => out,
    };
    let r = match r1 {
        Result::Ok(_) => Result::<bool, RuntimeErrV>::Ok(true),
        Result::Err(er) => Result::<bool, RuntimeErrV>::Err(er),
    };
    assert forall|c: spec_fn(nat) -> u64, k: nat| oracle_has(c, k, w) implies #[trigger] sp_exec(
        env,
        out,
        c,
        k,
        s,
        fuel,
    ) == (ExecOut { env: env1, out: out2, k: (k + w.len()) as nat, r }) by {
        assert(sp_eval(env, c, k, e) == (EvalOut { env: env1, k: (k + w.len()) as nat, r: r1 }));
    }
}

proof fn lemma_commit_var_init(
    env: EnvV,
    out: Seq<SpecValue>,
    name: TokenV,
    e: ExprV,
    fuel: nat,
    w: Seq<u64>,
    env1: EnvV,
    r1: Result<SpecValue, RuntimeErrV>,
)
    requires
        eval_commits(env, e, w, env1, r1),
    ensures
        exec_commits(
            env,
            out,
            StmtV::Var { name, initializer: Option::Some(e) },
            fuel,
            w,
            match r1 {
                Result::Ok(v) => env_define(env1, name.lexeme, v),
                Result::Err(_) => env1,
            },
            out,
            match r1 {
                Result::Ok(_) => Result::Ok(true),
                Result::Err(er) => Result::Err(er),
            },
        ),
{
    let s = StmtV::Var { name, initializer: Option::Some(e) };
    let env2 = match r1 {
        Result::Ok(v) => env_define(env1, name.lexeme, v),
        Result::Err(_) => env1,
    };
    let r = match r1 {
        Result::Ok(_) => Result::<bool, RuntimeErrV>::Ok(true),
        Result::Err(er) => Result::<bool, RuntimeErrV>::Err(er),
    };
    assert forall|c: spec_fn(nat) -> u64, k: nat| oracle_has(c, k, w) implies #[trigger] sp_exec(
        env,
        out,
        c,
        k,
        s,
        fuel,
    ) == (ExecOut { env: env2, out, k: (k + w.len()) as nat, r }) by {
        assert(sp_eval(env, c, k, e) == (EvalOut { env: env1, k: (k + w.len()) as nat, r: r1 }));
    }
}

proof fn lemma_commit_var_bare(env: EnvV, out: Seq<SpecValue>, name: TokenV, fuel: nat)
    ensures
        exec_commits(
            env,
            out,
            StmtV::Var { name, initializer: Option::None },
            fuel,
            Seq::empty(),
            env_define(env, name.lexeme, SpecValue::Nil),
            out,
            Result::Ok(true),
        ),
{
    let s = StmtV::Var { name, initializer: Option::None };
    assert forall|c: spec_fn(nat) -> u64, k: nat| oracle_has(c, k, Seq::<u64>::empty())
        implies #[trigger] sp_exec(env, out, c, k, s, fuel) == (ExecOut {
        env: env_define(env, name.lexeme, SpecValue::Nil),
        out,
        k,
        r: Result::Ok(true),
    }) by {
    }
}

proof fn lemma_commit_block(
    env: EnvV,
    out: Seq<SpecValue>,
    ss: Seq<StmtV>,
    fuel: nat,
    w: Seq<u64>,
    envb: EnvV,
    out2: Seq<SpecValue>,
    r: Result<bool, RuntimeErrV>,
)
    requires
        exec_seq_commits(env_open(env), out, ss, fuel, w, envb, out2, r),
    ensures
        exec_commits(
            env,
            out,
            StmtV::Block { statements: ss },
            fuel,
            w,
            EnvV { scopes: envb.scopes, cur: env.cur },
            out2,
            r,
        ),
{
    let s = StmtV::Block { statements: ss };
    assert forall|c: spec_fn(nat) -> u64, k: nat| oracle_has(c, k, w) implies #[trigger] sp_exec(
        env,
        out,
        c,
        k,
        s,
        fuel,
    ) == (ExecOut {
        env: EnvV { scopes: envb.scopes, cur: env.cur },
        out: out2,
        k: (k + w.len()) as nat,
        r,
    }) by {
        assert(sp_exec_seq(env_open(env), out, c, k, ss, fuel) == (ExecOut {
            env: envb,
            out: out2,
            k: (k + w.len()) as nat,
            r,
        }));
    }
}

proof fn lemma_commit_seq_empty(env: EnvV, out: Seq<SpecValue>, fuel: nat)
    ensures
        exec_seq_commits(env, out, Seq::empty(), fuel, Seq::empty(), env, out, Result::Ok(true)),
{
    assert forall|c: spec_fn(nat) -> u64, k: nat| oracle_has(c, k, Seq::<u64>::empty())
        implies #[trigger] sp_exec_seq(env, out, c, k, Seq::<StmtV>::empty(), fuel) == (ExecOut {
        env,
        out,
        k,
        r: Result::Ok(true),
    }) by {
    }
}

proof fn lemma_commit_seq_snoc(
    env: EnvV,
    out: Seq<SpecValue>,
    ss: Seq<StmtV>,
    fuel: nat,
    w1: Seq<u64>,
    env1: EnvV,
    out1: Seq<SpecValue>,
    s: StmtV,
    w2: Seq<u64>,
    env2: EnvV,
    out2: Seq<SpecValue>,
    r2: Result<bool, RuntimeErrV>,
)
    requires
        exec_seq_commits(env, out, ss, fuel, w1, env1, out1, Result::Ok(true)),
        exec_commits(env1, out1, s, fuel, w2, env2, out2, r2),
    ensures
        exec_seq_commits(env, out, ss.push(s), fuel, w1 + w2, env2, out2, r2),
{
    let ss2 = ss.push(s);
    let w = w1 + w2;
    lemma_valid_ticks_concat(w1, w2);
    assert(ss2.drop_last() =~= ss);
    assert(ss2.last() == s);
    assert forall|c: spec_fn(nat) -> u64, k: nat| oracle_has(c, k, w)
        implies #[trigger] sp_exec_seq(env, out, c, k, ss2, fuel) == (ExecOut {
        env: env2,
        out: out2,
        k: (k + w.len()) as nat,
        r: r2,
    }) by {
        lemma_oracle_split(c, k, w1, w2);
        assert(sp_exec_seq(env, out, c, k, ss, fuel) == (ExecOut {
            env: env1,
            out: out1,
            k: (k + w1.len()) as nat,
            r: Result::<bool, RuntimeErrV>::Ok(true),
        }));
        assert(sp_exec(env1, out1, c, (k + w1.len()) as nat, s, fuel) == (ExecOut {
            env: env2,
            out: out2,
            k: (k + w1.len() + w2.len()) as nat,
            r: r2,
        }));
    }
}

/// A prefix that stopped early (an error or an exhausted bound) is the
/// whole sequence's outcome: the remaining statements are never reached.
proof fn lemma_seq_stuck(
    env: EnvV,
    out: Seq<SpecValue>,
    ss: Seq<StmtV>,
    j: int,
    fuel: nat,
    w: Seq<u64>,
    env2: EnvV,
    out2: Seq<SpecValue>,
    r: Result<bool, RuntimeErrV>,
)
    requires
        0 <= j <= ss.len(),
        exec_seq_commits(env, out, ss.take(j), fuel, w, env2, out2, r),
        r != Result::<bool, RuntimeErrV>::Ok(true),
    ensures
        exec_seq_commits(env, out, ss, fuel, w, env2, out2, r),
    decreases ss.len() - j,
{
    if j == ss.len() {
        assert(ss.take(j) =~= ss);
    } else {
        assert(ss.drop_last().take(j) =~= ss.take(j));
        lemma_seq_stuck(env, out, ss.drop_last(), j, fuel, w, env2, out2, r);
        assert forall|c: spec_fn(nat) -> u64, k: nat| oracle_has(c, k, w)
            implies #[trigger] sp_exec_seq(env, out, c, k, ss, fuel) == (ExecOut {
            env: env2,
            out: out2,
            k: (k + w.len()) as nat,
            r,
        }) by {
            assert(sp_exec_seq(env, out, c, k, ss.drop_last(), fuel) == (ExecOut {
                env: env2,
                out: out2,
                k: (k + w.len()) as nat,
                r,
            }));
        }
    }
}

proof fn lemma_commit_if_err(
    env: EnvV,
    out: Seq<SpecValue>,
    cond: ExprV,
    tb: StmtV,
    eb: Option<Box<StmtV>>,
    fuel: nat,
    w: Seq<u64>,
    env1: EnvV,
    er: RuntimeErrV,
)
    requires
        eval_commits(env, cond, w, env1, Result::Err(er)),
    ensures
        exec_commits(
            env,
            out,
            StmtV::If { condition: cond, then_branch: Box::new(tb), else_branch: eb },
            fuel,
            w,
            env1,
            out,
            Result::Err(er),
        ),
{
    let s = StmtV::If { condition: cond, then_branch: Box::new(tb), else_branch: eb };
    assert forall|c: spec_fn(nat) -> u64, k: nat| oracle_has(c, k, w) implies #[trigger] sp_exec(
        env,
        out,
        c,
        k,
        s,
        fuel,
    ) == (ExecOut { env: env1, out, k: (k + w.len()) as nat, r: Result::Err(er) }) by {
        assert(sp_eval(env, c, k, cond) == (EvalOut {
            env: env1,
            k: (k + w.len()) as nat,
            r: Result::<SpecValue, RuntimeErrV>::Err(er),
        }));
    }
}

/// An `if` that takes a branch: the then branch on a truthy condition,
/// the else branch on a falsy one.
proof fn lemma_commit_if_branch(
    env: EnvV,
    out: Seq<SpecValue>,
    cond: ExprV,
    tb: StmtV,
    eb: Option<Box<StmtV>>,
    branch: StmtV,
    fuel: nat,
    w1: Seq<u64>,
    env1: EnvV,
    v: SpecValue,
    w2: Seq<u64>,
    env2: EnvV,
    out2: Seq<SpecValue>,
    r2: Result<bool, RuntimeErrV>,
)
    requires
        eval_commits(env, cond, w1, env1, Result::Ok(v)),
        if spec_truthy(v) {
            branch == tb
        } else {
            eb == Option::Some(Box::new(branch))
        },
        exec_commits(env1, out, branch, fuel, w2, env2, out2, r2),
    ensures
        exec_commits(
            env,
            out,
            StmtV::If { condition: cond, then_branch: Box::new(tb), else_branch: eb },
            fuel,
            w1 + w2,
            env2,
            out2,
            r2,
        ),
{
    let s = StmtV::If { condition: cond, then_branch: Box::new(tb), else_branch: eb };
    let w = w1 + w2;
    lemma_valid_ticks_concat(w1, w2);
    assert forall|c: spec_fn(nat) -> u64, k: nat| oracle_has(c, k, w) implies #[trigger] sp_exec(
        env,
        out,
        c,
        k,
        s,
        fuel,
    ) == (ExecOut { env: env2, out: out2, k: (k + w.len()) as nat, r: r2 }) by {
        lemma_oracle_split(c, k, w1, w2);
        assert(sp_eval(env, c, k, cond) == (EvalOut {
            env: env1,
            k: (k + w1.len()) as nat,
            r: Result::Ok(v),
        }));
        assert(sp_exec(env1, out, c, (k + w1.len()) as nat, branch, fuel) == (ExecOut {
            env: env2,
            out: out2,
            k: (k + w1.len() + w2.len()) as nat,
            r: r2,
        }));
    }
}

proof fn lemma_commit_if_skip(
    env: EnvV,
    out: Seq<SpecValue>,
    cond: ExprV,
    tb: StmtV,
    fuel: nat,
    w: Seq<u64>,
    env1: EnvV,
    v: SpecValue,
)
    requires
        eval_commits(env, cond, w, env1, Result::Ok(v)),
        !spec_truthy(v),
    ensures
        exec_commits(
            env,
            out,
            StmtV::If { condition: cond, then_branch: Box::new(tb), else_branch: Option::None },
            fuel,
            w,
            env1,
            out,
            Result::Ok(true),
        ),
{
    let s = StmtV::If { condition: cond, then_branch: Box::new(tb), else_branch: Option::None };
    assert forall|c: spec_fn(nat) -> u64, k: nat| oracle_has(c, k, w) implies #[trigger] sp_exec(
        env,
        out,
        c,
        k,
        s,
        fuel,
    ) == (ExecOut { env: env1, out, k: (k + w.len()) as nat, r: Result::Ok(true) }) by {
        assert(sp_eval(env, c, k, cond) == (EvalOut {
            env: env1,
            k: (k + w.len()) as nat,
            r: Result::Ok(v),
        }));
    }
}

/// A `while` that stops at its condition: an error, or a falsy value, or
/// an exhausted bound on a truthy one.
proof fn lemma_commit_while_stop(
    env: EnvV,
    out: Seq<SpecValue>,
    cond: ExprV,
    body: StmtV,
    fuel: nat,
    w: Seq<u64>,
    env1: EnvV,
    r1: Result<SpecValue, RuntimeErrV>,
)
    requires
        eval_commits(env, cond, w, env1, r1),
        match r1 {
            Result::Err(_) => true,
            Result::Ok(v) => !spec_truthy(v) || fuel == 0,
        },
    ensures
        exec_commits(
            env,
            out,
            StmtV::While { condition: cond, body: Box::new(body) },
            fuel,
            w,
            env1,
            out,
            match r1 {
                Result::Err(er) => Result::Err(er),
                Result::Ok(v) => if !spec_truthy(v) {
                    Result::Ok(true)
                } else {
                    Result::Ok(false)
                },
            },
        ),
{
    let s = StmtV::While { condition: cond, body: Box::new(body) };
    let r = match r1 {
        Result::Err(er) => Result::<bool, RuntimeErrV>::Err(er),
        Result::Ok(v) => if !spec_truthy(v) {
            Result::<bool, RuntimeErrV>::Ok(true)
        } else {
            Result::<bool, RuntimeErrV>::Ok(false)
        },
    };
    assert forall|c: spec_fn(nat) -> u64, k: nat| oracle_has(c, k, w) implies #[trigger] sp_exec(
        env,
        out,
        c,
        k,
        s,
        fuel,
    ) == (ExecOut { env: env1, out, k: (k + w.len()) as nat, r }) by {
        assert(sp_eval(env, c, k, cond) == (EvalOut { env: env1, k: (k + w.len()) as nat, r: r1 }));
    }
}

/// A `while` whose body ran once and stopped the loop: the body erred or
/// its own bound was exhausted.
proof fn lemma_commit_while_body_stop(
    env: EnvV,
    out: Seq<SpecValue>,
    cond: ExprV,
    body: StmtV,
    fuel: nat,
    w1: Seq<u64>,
    env1: EnvV,
    v: SpecValue,
    w2: Seq<u64>,
    envb: EnvV,
    outb: Seq<SpecValue>,
    rb: Result<bool, RuntimeErrV>,
)
    requires
        eval_commits(env, cond, w1, env1, Result::Ok(v)),
        spec_truthy(v),
        fuel >= 1,
        exec_commits(env1, out, body, (fuel - 1) as nat, w2, envb, outb, rb),
        rb != Result::<bool, RuntimeErrV>::Ok(true),
    ensures
        exec_commits(
            env,
            out,
            StmtV::While { condition: cond, body: Box::new(body) },
            fuel,
            w1 + w2,
            envb,
            outb,
            rb,
        ),
{
    let s = StmtV::While { condition: cond, body: Box::new(body) };
    let w = w1 + w2;
    lemma_valid_ticks_concat(w1, w2);
    assert forall|c: spec_fn(nat) -> u64, k: nat| oracle_has(c, k, w) implies #[trigger] sp_exec(
        env,
        out,
        c,
        k,
        s,
        fuel,
    ) == (ExecOut { env: envb, out: outb, k: (k + w.len()) as nat, r: rb }) by {
        lemma_oracle_split(c, k, w1, w2);
        assert(sp_eval(env, c, k, cond) == (EvalOut {
            env: env1,
            k: (k + w1.len()) as nat,
            r: Result::Ok(v),
        }));
        assert(sp_exec(env1, out, c, (k + w1.len()) as nat, body, (fuel - 1) as nat) == (ExecOut {
            env: envb,
            out: outb,
            k: (k + w1.len() + w2.len()) as nat,
            r: rb,
        }));
    }
}

/// A `while` whose body completed an iteration: the loop repeats with one
/// unit of fuel spent.
proof fn lemma_commit_while_step(
    env: EnvV,
    out: Seq<SpecValue>,
    cond: ExprV,
    body: StmtV,
    fuel: nat,
    w1: Seq<u64>,
    env1: EnvV,
    v: SpecValue,
    w2: Seq<u64>,
    envb: EnvV,
    outb: Seq<SpecValue>,
    w3: Seq<u64>,
    env2: EnvV,
    out2: Seq<SpecValue>,
    r: Result<bool, RuntimeErrV>,
)
    requires
        eval_commits(env, cond, w1, env1, Result::Ok(v)),
        spec_truthy(v),
        fuel >= 1,
        exec_commits(env1, out, body, (fuel - 1) as nat, w2, envb, outb, Result::Ok(true)),
        exec_commits(
            envb,
            outb,
            StmtV::While { condition: cond, body: Box::new(body) },
            (fuel - 1) as nat,
            w3,
            env2,
            out2,
            r,
        ),
    ensures
        exec_commits(
            env,
            out,
            StmtV::While { condition: cond, body: Box::new(body) },
            fuel,
            w1 + w2 + w3,
            env2,
            out2,
            r,
        ),
{
    let s = StmtV::While { condition: cond, body: Box::new(body) };
    let w = w1 + w2 + w3;
    lemma_valid_ticks_concat(w1, w2);
    lemma_valid_ticks_concat(w1 + w2, w3);
    assert forall|c: spec_fn(nat) -> u64, k: nat| oracle_has(c, k, w) implies #[trigger] sp_exec(
        env,
        out,
        c,
        k,
        s,
        fuel,
    ) == (ExecOut { env: env2, out: out2, k: (k + w.len()) as nat, r }) by {
        lemma_oracle_split(c, k, w1 + w2, w3);
        lemma_oracle_split(c, k, w1, w2);
        assert(sp_eval(env, c, k, cond) == (EvalOut {
            env: env1,
            k: (k + w1.len()) as nat,
            r: Result::Ok(v),
        }));
        assert(sp_exec(env1, out, c, (k + w1.len()) as nat, body, (fuel - 1) as nat) == (ExecOut {
            env: envb,
            out: outb,
            k: (k + w1.len() + w2.len()) as nat,
            r: Result::<bool, RuntimeErrV>::Ok(true),
        }));
        assert(sp_exec(envb, outb, c, (k + w1.len() + w2.len()) as nat, s, (fuel - 1) as nat)
            == (ExecOut { env: env2, out: out2, k: (k + w.len()) as nat, r }));
    }
}

/// What a binary operator computes on two evaluated operands; agrees with
/// `sp_binary` on every pair.
fn binary_result(op: TokenType, l: Value, r: Value) -> (res: Result<Value, RuntimeError>)
    ensures
        res_view(res) == sp_binary(op, l@, r@),
{
    if op == TokenType::EqualEqual {
        let b = l.lox_eq(&r);
        Result::Ok(Value::Boolean(b))
    } else if op == TokenType::BangEqual {
        let b = l.lox_eq(&r);
        Result::Ok(Value::Boolean(!b))
    } else if op == TokenType::Plus {
        match (l, r) {
            (Value::Number(a), Value::Number(b)) => Result::Ok(Value::Number(float_add(a, b))),
            (Value::Str(a), Value::Str(b)) => Result::Ok(Value::Str(a.concat(b.as_str()))),
            _ => Result::Err(
                RuntimeError::TypeMismatch(
                    String::from_str("Operands must be two numbers or two strings."),
                ),
            ),
        }
    } else {
        match (l, r) {
            (Value::Number(a), Value::Number(b)) => {
                if op == TokenType::Minus {
                    Result::Ok(Value::Number(float_sub(a, b)))
                } else if op == TokenType::Star {
                    Result::Ok(Value::Number(float_mul(a, b)))
                } else if op == TokenType::Slash {
                    if is_zero_bits(b) {
                        Result::Err(RuntimeError::ZeroDivision)
                    } else {
                        Result::Ok(Value::Number(float_div(a, b)))
                    }
                } else if op == TokenType::Greater {
                    Result::Ok(Value::Boolean(lt_bits(b, a)))
                } else if op == TokenType::Less {
                    Result::Ok(Value::Boolean(lt_bits(a, b)))
                } else {
                    Result::Err(
                        RuntimeError::TypeMismatch(String::from_str("Operands must be numbers.")),
                    )
                }
            },
            _ => Result::Err(
                RuntimeError::TypeMismatch(String::from_str("Operands must be numbers.")),
            ),
        }
    }
}

/// The interpreter: the chain of scopes and the values the `print`
/// statements produced, in order, for the driver to format and write.
pub struct Interpreter {
    environment: Environment,
    out: Vec<Value>,
}

/// The mathematical value of an `Interpreter`.
pub struct InterpV {
    pub env: EnvV,
    pub out: Seq<SpecValue>,
}

impl View for Interpreter {
    type V = InterpV;

    closed spec fn view(&self) -> InterpV {
        InterpV { env: self.environment@, out: vals_view(self.out@) }
    }
}

impl Interpreter {
    /// The environment chain is well formed.
    pub closed spec fn inv(&self) -> bool {
        self.environment.inv()
    }

    /// A fresh interpreter: one global scope with the clock capability
    /// bound under its fixed name, and no output yet.
    pub fn new() -> (it: Interpreter)
        ensures
            it.inv(),
            it@.env == initial_env(),
            it@.out == Seq::<SpecValue>::empty(),
    {
        let mut environment = Environment::new();
        environment.define(String::from_str("clock"), Value::Callable(NativeClock));
        let it = Interpreter { environment, out: Vec::new() };
        proof {
            assert(it@.env.scopes =~~= initial_env().scopes);
            assert(it@.env =~~= initial_env());
            assert(it@.out =~= Seq::<SpecValue>::empty());
        }
        it
    }

    /// Evaluates one expression against the current chain: the result and
    /// the chain afterwards are `sp_eval`'s, under the readings the clock
    /// actually gave, each one a value the capability can produce.
    #[verifier::loop_isolation(false)]
    pub fn evaluate(&mut self, expr: &Expr) -> (r: Result<Value, RuntimeError>)
        requires
            old(self).inv(),
        ensures
            final(self).inv(),
            final(self)@.out == old(self)@.out,
            final(self)@.env.cur == old(self)@.env.cur,
            final(self)@.env.scopes.len() == old(self)@.env.scopes.len(),
            exists|w: Seq<u64>|
                #[trigger] eval_commits(old(self)@.env, expr@, w, final(self)@.env, res_view(r)),
        decreases *expr,
    {
        let ghost env0 = self@.env;
        match expr {
            Expr::Literal { value } => {
                let res: Result<Value, RuntimeError> = match &value.literal {
                    Option::Some(Literal::Number(b)) => Result::Ok(Value::Number(*b)),
                    Option::Some(Literal::Str(s)) => Result::Ok(Value::Str(s.clone())),
                    Option::Some(Literal::Bool(b)) => Result::Ok(Value::Boolean(*b)),
                    Option::Some(Literal::Nil) => Result::Ok(Value::Nil),
                    Option::Some(Literal::Identifier(s)) => Result::Ok(Value::Str(s.clone())),
                    Option::None => match value.token_type {
                        TokenType::True => Result::Ok(Value::Boolean(true)),
                        TokenType::False => Result::Ok(Value::Boolean(false)),
                        TokenType::Nil => Result::Ok(Value::Nil),
                        _ => Result::Err(
                            RuntimeError::TypeMismatch(String::from_str("Expected literal value.")),
                        ),
                    },
                };
                proof {
                    lemma_commit_literal(env0, value@);
                    assert(res_view(res) == sp_literal_value(value@));
                    assert(eval_commits(env0, expr@, Seq::<u64>::empty(), env0, res_view(res)));
                }
                res
            },
            Expr::Grouping { expression } => {
                let r = self.evaluate(expression);
                proof {
                    let w = choose|w: Seq<u64>|
                        eval_commits(env0, expression@, w, self@.env, res_view(r));
                    lemma_commit_grouping(env0, expression@, w, self@.env, res_view(r));
                    assert(eval_commits(env0, expr@, w, self@.env, res_view(r)));
                }
                r
            },
            Expr::Variable { name } => {
                let res: Result<Value, RuntimeError> = match self.environment.get(&name.lexeme) {
                    Option::Some(v) => Result::Ok(v),
                    Option::None => Result::Err(
                        RuntimeError::UndefinedVariable(name.lexeme.clone()),
                    ),
                };
                proof {
                    lemma_commit_variable(env0, name@);
                    assert(eval_commits(env0, expr@, Seq::<u64>::empty(), env0, res_view(res)));
                }
                res
            },
            Expr::Assign { name, value } => {
                let rv = self.evaluate(value);
                let ghost rvv = res_view(rv);
                let ghost env1 = self@.env;
                let ghost w1 = choose|w: Seq<u64>| eval_commits(env0, value@, w, env1, rvv);
                let ev = match rv {
                    Result::Ok(v) => v,
                    Result::Err(e) => {
                        proof {
                            lemma_commit_assign(env0, name@, value@, w1, env1, rvv);
                            assert(eval_commits(env0, expr@, w1, env1, rvv));
                        }
                        return Result::Err(e);
                    },
                };
                let dup = ev.duplicate();
                let ok = self.environment.assign(&name.lexeme, dup);
                proof {
                    lemma_commit_assign(env0, name@, value@, w1, env1, Result::Ok(ev@));
                    crate::environment::lemma_chain_assign_shape(
                        env1.scopes,
                        env1.cur,
                        name@.lexeme,
                        ev@,
                    );
                    match chain_assign(env1.scopes, env1.cur, name@.lexeme, ev@) {
                        Option::Some(scs) => {
                            assert(self@.env =~= (EnvV { scopes: scs, cur: env1.cur }));
                            assert(eval_commits(env0, expr@, w1, self@.env, Result::Ok(ev@)));
                        },
                        Option::None => {
                            assert(eval_commits(
                                env0,
                                expr@,
                                w1,
                                env1,
                                Result::<SpecValue, RuntimeErrV>::Err(
                                    RuntimeErrV::UndefinedVariable(name@.lexeme),
                                ),
                            ));
                        },
                    }
                }
                if ok {
                    Result::Ok(ev)
                } else {
                    Result::Err(RuntimeError::UndefinedVariable(name.lexeme.clone()))
                }
            },
            Expr::Unary { operator, right } => {
                let rv = self.evaluate(right);
                let ghost rvv = res_view(rv);
                let ghost env1 = self@.env;
                let ghost w1 = choose|w: Seq<u64>| eval_commits(env0, right@, w, env1, rvv);
                proof {
                    lemma_commit_unary(env0, operator@, right@, w1, env1, rvv);
                }
                let v = match rv {
                    Result::Ok(v) => v,
                    Result::Err(e) => {
                        proof {
                            assert(eval_commits(env0, expr@, w1, env1, rvv));
                        }
                        return Result::Err(e);
                    },
                };
                let res: Result<Value, RuntimeError> = if operator.token_type == TokenType::Minus {
                    match v {
                        Value::Number(b) => Result::Ok(Value::Number(neg_bits(b))),
                        _ => Result::Err(
                            RuntimeError::TypeMismatch(
                                String::from_str("Operand must be a number."),
                            ),
                        ),
                    }
                } else {
                    let t = v.is_truthy();
                    Result::Ok(Value::Boolean(!t))
                };
                proof {
                    assert(res_view(res) == sp_unary(operator@.token_type, v@));
                    assert(eval_commits(env0, expr@, w1, env1, res_view(res)));
                }
                res
            },
            Expr::Logical { left, operator, right } => {
                let lr = self.evaluate(left);
                let ghost lrv = res_view(lr);
                let ghost env1 = self@.env;
                let ghost w1 = choose|w: Seq<u64>| eval_commits(env0, left@, w, env1, lrv);
                let lv = match lr {
                    Result::Ok(v) => v,
                    Result::Err(e) => {
                        proof {
                            lemma_commit_logical_short(env0, operator@, left@, right@, w1, env1, lrv);
                            assert(eval_commits(env0, expr@, w1, env1, lrv));
                        }
                        return Result::Err(e);
                    },
                };
                let truthy = lv.is_truthy();
                let shortcut = if operator.token_type == TokenType::Or {
                    truthy
                } else {
                    !truthy
                };
                if shortcut {
                    proof {
                        lemma_commit_logical_short(
                            env0,
                            operator@,
                            left@,
                            right@,
                            w1,
                            env1,
                            Result::Ok(lv@),
                        );
                        assert(eval_commits(env0, expr@, w1, env1, Result::Ok(lv@)));
                    }
                    Result::Ok(lv)
                } else {
                    let rr = self.evaluate(right);
                    proof {
                        let w2 = choose|w: Seq<u64>|
                            eval_commits(env1, right@, w, self@.env, res_view(rr));
                        lemma_commit_logical_full(
                            env0,
                            operator@,
                            left@,
                            right@,
                            w1,
                            env1,
                            lv@,
                            w2,
                            self@.env,
                            res_view(rr),
                        );
                        assert(eval_commits(env0, expr@, w1 + w2, self@.env, res_view(rr)));
                    }
                    rr
                }
            },
            Expr::Binary { left, operator, right } => {
                let lr = self.evaluate(left);
                let ghost lrv = res_view(lr);
                let ghost env1 = self@.env;
                let ghost w1 = choose|w: Seq<u64>| eval_commits(env0, left@, w, env1, lrv);
                let lv = match lr {
                    Result::Ok(v) => v,
                    Result::Err(e) => {
                        proof {
                            lemma_commit_binary_err(env0, operator@, left@, right@, w1, env1, e@);
                            assert(eval_commits(
                                env0,
                                expr@,
                                w1,
                                env1,
                                Result::<SpecValue, RuntimeErrV>::Err(e@),
                            ));
                        }
                        return Result::Err(e);
                    },
                };
                let rr = self.evaluate(right);
                let ghost rrv = res_view(rr);
                let ghost env2 = self@.env;
                let ghost w2 = choose|w: Seq<u64>| eval_commits(env1, right@, w, env2, rrv);
                proof {
                    lemma_commit_binary(
                        env0,
                        operator@,
                        left@,
                        right@,
                        w1,
                        env1,
                        lv@,
                        w2,
                        env2,
                        rrv,
                    );
                }
                let rv = match rr {
                    Result::Ok(v) => v,
                    Result::Err(e) => {
                        proof {
                            assert(eval_commits(env0, expr@, w1 + w2, env2, rrv));
                        }
                        return Result::Err(e);
                    },
                };
                let res = binary_result(operator.token_type, lv, rv);
                proof {
                    assert(eval_commits(env0, expr@, w1 + w2, env2, res_view(res)));
                }
                res
            },
            Expr::Call { callee, paren, arguments } => {
                let cr = self.evaluate(callee);
                let ghost crv = res_view(cr);
                let ghost env1 = self@.env;
                let ghost w1 = choose|w: Seq<u64>| eval_commits(env0, callee@, w, env1, crv);
                let cv = match cr {
                    Result::Ok(v) => v,
                    Result::Err(e) => {
                        proof {
                            lemma_commit_call_callee_err(
                                env0,
                                callee@,
                                paren@,
                                exprs_view(arguments@),
                                w1,
                                env1,
                                e@,
                            );
                            assert(eval_commits(
                                env0,
                                expr@,
                                w1,
                                env1,
                                Result::<SpecValue, RuntimeErrV>::Err(e@),
                            ));
                        }
                        return Result::Err(e);
                    },
                };
                let ghost argsv = exprs_view(arguments@);
                proof {
                    assert(eval_commits(env0, callee@, w1, env1, Result::Ok(cv@)));
                    lemma_exprs_view(arguments@);
                    lemma_commit_args_empty(env1);
                    assert(argsv.take(0) =~= Seq::<ExprV>::empty());
                    assert(vals_view(Seq::<Value>::empty()) =~= Seq::<SpecValue>::empty());
                }
                let n = arguments.len();
                let mut vals: Vec<Value> = Vec::new();
                let ghost mut wa: Seq<u64> = Seq::empty();
                let mut i: usize = 0;
                while i < n
                    invariant
                        self.inv(),
                        n == arguments@.len(),
                        i <= n,
                        argsv == exprs_view(arguments@),
                        argsv.len() == n,
                        forall|q: int|
                            0 <= q < n ==> argsv[q] == crate::expr::expr_view(
                                #[trigger] arguments@[q],
                            ),
                        self@.out == old(self)@.out,
                        self@.env.cur == env1.cur,
                        self@.env.scopes.len() == env1.scopes.len(),
                        vals@.len() == i,
                        args_commits(
                            env1,
                            argsv.take(i as int),
                            wa,
                            self@.env,
                            Result::Ok(vals_view(vals@)),
                        ),
                    decreases n - i,
                {
                    let ghost envk = self@.env;
                    let ghost valsv0 = vals_view(vals@);
                    proof {
                        assert(decreases_to!(*expr => arguments@[i as int]));
                    }
                    let ar = self.evaluate(&arguments[i]);
                    let ghost arv = res_view(ar);
                    let ghost wk = choose|w: Seq<u64>|
                        eval_commits(envk, argsv[i as int], w, self@.env, arv);
                    match ar {
                        Result::Ok(v) => {
                            vals.push(v);
                            proof {
                                lemma_commit_args_snoc(
                                    env1,
                                    argsv.take(i as int),
                                    wa,
                                    envk,
                                    valsv0,
                                    argsv[i as int],
                                    wk,
                                    self@.env,
                                    Result::Ok(v@),
                                );
                                assert(argsv.take(i as int).push(argsv[i as int]) =~= argsv.take(
                                    i + 1,
                                ));
                                assert(valsv0.push(v@) =~= vals_view(vals@));
                                wa = wa + wk;
                            }
                        },
                        Result::Err(e) => {
                            proof {
                                lemma_commit_args_snoc(
                                    env1,
                                    argsv.take(i as int),
                                    wa,
                                    envk,
                                    valsv0,
                                    argsv[i as int],
                                    wk,
                                    self@.env,
                                    Result::Err(e@),
                                );
                                assert(argsv.take(i as int).push(argsv[i as int]) =~= argsv.take(
                                    i + 1,
                                ));
                                lemma_args_stuck(env1, argsv, i + 1, wa + wk, self@.env, e@);
                                lemma_commit_call_no_invoke(
                                    env0,
                                    callee@,
                                    paren@,
                                    argsv,
                                    w1,
                                    env1,
                                    cv@,
                                    wa + wk,
                                    self@.env,
                                    Result::Err(e@),
                                );
                                assert(eval_commits(
                                    env0,
                                    expr@,
                                    w1 + (wa + wk),
                                    self@.env,
                                    Result::<SpecValue, RuntimeErrV>::Err(e@),
                                ));
                            }
                            return Result::Err(e);
                        },
                    }
                    i += 1;
                }
                proof {
                    assert(argsv.take(n as int) =~= argsv);
                }
                let ghost env2 = self@.env;
                let ghost valsv = vals_view(vals@);
                match cv {
                    Value::Callable(clock) => {
                        if vals.len() > 0 {
                            let m = arity_message(vals.len());
                            proof {
                                lemma_commit_call_no_invoke(
                                    env0,
                                    callee@,
                                    paren@,
                                    argsv,
                                    w1,
                                    env1,
                                    SpecValue::Callable,
                                    wa,
                                    env2,
                                    Result::Ok(valsv),
                                );
                                assert(eval_commits(
                                    env0,
                                    expr@,
                                    w1 + wa,
                                    env2,
                                    Result::<SpecValue, RuntimeErrV>::Err(
                                        RuntimeErrV::TypeMismatch(arity_msg(valsv.len())),
                                    ),
                                ));
                            }
                            Result::Err(RuntimeError::TypeMismatch(m))
                        } else {
                            let res = clock.call(&vals);
                            proof {
                                assert(valsv =~= Seq::<SpecValue>::empty());
                                let t = choose|t: u64|
                                    res_view(res) == Result::<SpecValue, RuntimeErrV>::Ok(
                                        SpecValue::Number(t),
                                    ) && valid_clock_reading(t);
                                lemma_commit_call_clock(
                                    env0,
                                    callee@,
                                    paren@,
                                    argsv,
                                    w1,
                                    env1,
                                    wa,
                                    env2,
                                    t,
                                );
                                assert(eval_commits(
                                    env0,
                                    expr@,
                                    w1 + wa + seq![t],
                                    env2,
                                    res_view(res),
                                ));
                            }
                            res
                        }
                    },
                    _ => {
                        proof {
                            lemma_commit_call_no_invoke(
                                env0,
                                callee@,
                                paren@,
                                argsv,
                                w1,
                                env1,
                                cv@,
                                wa,
                                env2,
                                Result::Ok(valsv),
                            );
                            assert(eval_commits(
                                env0,
                                expr@,
                                w1 + wa,
                                env2,
                                Result::<SpecValue, RuntimeErrV>::Err(
                                    RuntimeErrV::TypeMismatch(
                                        "Can only call functions and classes."@,
                                    ),
                                ),
                            ));
                        }
                        Result::Err(
                            RuntimeError::TypeMismatch(
                                String::from_str("Can only call functions and classes."),
                            ),
                        )
                    },
                }
            },
        }
    }
}

impl Interpreter {
    /// Executes one statement, with at most `fuel` iterations per loop:
    /// the chain and output afterwards are `sp_exec`'s, under the
    /// readings the clock actually gave.
    #[verifier::loop_isolation(false)]
    fn execute(&mut self, statement: &Stmt, fuel: u64) -> (r: Result<bool, RuntimeError>)
        requires
            old(self).inv(),
        ensures
            final(self).inv(),
            final(self)@.env.cur == old(self)@.env.cur,
            final(self)@.env.scopes.len() >= old(self)@.env.scopes.len(),
            exists|w: Seq<u64>|
                #[trigger] exec_commits(
                    old(self)@.env,
                    old(self)@.out,
                    statement@,
                    fuel as nat,
                    w,
                    final(self)@.env,
                    final(self)@.out,
                    exec_res_view(r),
                ),
        decreases fuel, *statement,
    {
        let ghost env0 = self@.env;
        let ghost out0 = self@.out;
        match statement {
            Stmt::Expression { expression } => {
                let er = self.evaluate(expression);
                let ghost erv = res_view(er);
                let res: Result<bool, RuntimeError> = match er {
                    Result::Ok(_) => Result::Ok(true),
                    Result::Err(e) => Result::Err(e),
                };
                proof {
                    let w = choose|w: Seq<u64>| eval_commits(env0, expression@, w, self@.env, erv);
                    lemma_commit_expression(env0, out0, expression@, fuel as nat, w, self@.env, erv);
                    assert(exec_commits(
                        env0,
                        out0,
                        statement@,
                        fuel as nat,
                        w,
                        self@.env,
                        self@.out,
                        exec_res_view(res),
                    ));
                }
                return res;
            },
            Stmt::Print { expression } => {
                let er = self.evaluate(expression);
                let ghost erv = res_view(er);
                let ghost env1 = self@.env;
                let ghost w = choose|w: Seq<u64>| eval_commits(env0, expression@, w, env1, erv);
                proof {
                    lemma_commit_print(env0, out0, expression@, fuel as nat, w, env1, erv);
                }
                match er {
                    Result::Ok(v) => {
                        let ghost vv = v@;
                        self.out.push(v);
                        proof {
                            assert(self@.out =~= out0.push(vv));
                            assert(exec_commits(
                                env0,
                                out0,
                                statement@,
                                fuel as nat,
                                w,
                                env1,
                                self@.out,
                                Result::Ok(true),
                            ));
                        }
                        return Result::Ok(true);
                    },
                    Result::Err(e) => {
                        proof {
                            assert(exec_commits(
                                env0,
                                out0,
                                statement@,
                                fuel as nat,
                                w,
                                env1,
                                out0,
                                Result::<bool, RuntimeErrV>::Err(e@),
                            ));
                        }
                        return Result::Err(e);
                    },
                }
            },
            Stmt::Var { name, initializer } => match initializer {
                Option::Some(e) => {
                    let er = self.evaluate(e);
                    let ghost erv = res_view(er);
                    let ghost env1 = self@.env;
                    let ghost w = choose|w: Seq<u64>| eval_commits(env0, e@, w, env1, erv);
                    proof {
                        lemma_commit_var_init(env0, out0, name@, e@, fuel as nat, w, env1, erv);
                    }
                    match er {
                        Result::Ok(v) => {
                            let ghost vv = v@;
                            proof {
                                self.environment.lemma_inv_wf();
                            }
                            self.environment.define(name.lexeme.clone(), v);
                            proof {
                                assert(self@.env =~= env_define(env1, name@.lexeme, vv));
                                assert(exec_commits(
                                    env0,
                                    out0,
                                    statement@,
                                    fuel as nat,
                                    w,
                                    self@.env,
                                    out0,
                                    Result::Ok(true),
                                ));
                                assert(self@.out == out0);
                                assert(exists|w2: Seq<u64>|
                                    #[trigger] exec_commits(
                                        env0,
                                        out0,
                                        statement@,
                                        fuel as nat,
                                        w2,
                                        self@.env,
                                        self@.out,
                                        Result::Ok(true),
                                    ));
                            }
                            return Result::Ok(true);
                        },
                        Result::Err(e2) => {
                            proof {
                                assert(exec_commits(
                                    env0,
                                    out0,
                                    statement@,
                                    fuel as nat,
                                    w,
                                    env1,
                                    out0,
                                    Result::<bool, RuntimeErrV>::Err(e2@),
                                ));
                            }
                            return Result::Err(e2);
                        },
                    }
                },
                Option::None => {
                    proof {
                        self.environment.lemma_inv_wf();
                    }
                    self.environment.define(name.lexeme.clone(), Value::Nil);
                    proof {
                        lemma_commit_var_bare(env0, out0, name@, fuel as nat);
                        assert(self@.env =~= env_define(env0, name@.lexeme, SpecValue::Nil));
                        assert(exec_commits(
                            env0,
                            out0,
                            statement@,
                            fuel as nat,
                            Seq::<u64>::empty(),
                            self@.env,
                            out0,
                            Result::Ok(true),
                        ));
                        assert(self@.out == out0);
                        assert(exists|w2: Seq<u64>|
                            #[trigger] exec_commits(
                                env0,
                                out0,
                                statement@,
                                fuel as nat,
                                w2,
                                self@.env,
                                self@.out,
                                Result::Ok(true),
                            ));
                    }
                    return Result::Ok(true);
                },
            },
            Stmt::Block { statements } => {
                proof {
                    self.environment.lemma_inv_wf();
                }
                let h = self.environment.current();
                self.environment.new_enclosed();
                let ghost opened = self@.env;
                let ghost ssv = stmts_view(statements@);
                proof {
                    assert(opened =~= env_open(env0));
                    lemma_stmts_view(statements@);
                    lemma_commit_seq_empty(opened, out0, fuel as nat);
                    assert(ssv.take(0) =~= Seq::<StmtV>::empty());
                }
                let n = statements.len();
                let ghost mut wa: Seq<u64> = Seq::empty();
                let mut i: usize = 0;
                while i < n
                    invariant
                        self.inv(),
                        n == statements@.len(),
                        i <= n,
                        self@.env.cur == opened.cur,
                        self@.env.scopes.len() >= opened.scopes.len(),
                        exec_seq_commits(
                            opened,
                            out0,
                            ssv.take(i as int),
                            fuel as nat,
                            wa,
                            self@.env,
                            self@.out,
                            Result::Ok(true),
                        ),
                    decreases n - i,
                {
                    let ghost envk = self@.env;
                    let ghost outk = self@.out;
                    proof {
                        assert(decreases_to!(*statement => statements@[i as int]));
                    }
                    let r1 = self.execute(&statements[i], fuel);
                    let ghost r1v = exec_res_view(r1);
                    proof {
                        let wk = choose|w: Seq<u64>|
                            exec_commits(
                                envk,
                                outk,
                                ssv[i as int],
                                fuel as nat,
                                w,
                                self@.env,
                                self@.out,
                                r1v,
                            );
                        lemma_commit_seq_snoc(
                            opened,
                            out0,
                            ssv.take(i as int),
                            fuel as nat,
                            wa,
                            envk,
                            outk,
                            ssv[i as int],
                            wk,
                            self@.env,
                            self@.out,
                            r1v,
                        );
                        assert(ssv.take(i as int).push(ssv[i as int]) =~= ssv.take(i + 1));
                        wa = wa + wk;
                    }
                    match r1 {
                        Result::Ok(true) => {},
                        _ => {
                            proof {
                                lemma_seq_stuck(
                                    opened,
                                    out0,
                                    ssv,
                                    i + 1,
                                    fuel as nat,
                                    wa,
                                    self@.env,
                                    self@.out,
                                    r1v,
                                );
                                lemma_commit_block(
                                    env0,
                                    out0,
                                    ssv,
                                    fuel as nat,
                                    wa,
                                    self@.env,
                                    self@.out,
                                    r1v,
                                );
                            }
                            let ghost envb = self@.env;
                            self.environment.restore(h);
                            proof {
                                assert(self@.env =~= (EnvV { scopes: envb.scopes, cur: env0.cur }));
                                assert(exec_commits(
                                    env0,
                                    out0,
                                    statement@,
                                    fuel as nat,
                                    wa,
                                    self@.env,
                                    self@.out,
                                    r1v,
                                ));
                            }
                            return r1;
                        },
                    }
                    i += 1;
                }
                proof {
                    assert(ssv.take(n as int) =~= ssv);
                }
                let ghost envb = self@.env;
                proof {
                    lemma_commit_block(
                        env0,
                        out0,
                        ssv,
                        fuel as nat,
                        wa,
                        envb,
                        self@.out,
                        Result::Ok(true),
                    );
                }
                self.environment.restore(h);
                proof {
                    assert(self@.env =~= (EnvV { scopes: envb.scopes, cur: env0.cur }));
                    assert(exec_commits(
                        env0,
                        out0,
                        statement@,
                        fuel as nat,
                        wa,
                        self@.env,
                        self@.out,
                        Result::Ok(true),
                    ));
                }
                return Result::Ok(true);
            },
            Stmt::If { condition, then_branch, else_branch } => {
                let cr = self.evaluate(condition);
                let ghost crv = res_view(cr);
                let ghost env1 = self@.env;
                let ghost w1 = choose|w: Seq<u64>| eval_commits(env0, condition@, w, env1, crv);
                let ghost ebv: Option<Box<StmtV>> = match else_branch {
                    Option::Some(s2) => Option::Some(Box::new(s2@)),
                    Option::None => Option::None,
                };
                let cvv = match cr {
                    Result::Ok(v) => v,
                    Result::Err(e) => {
                        proof {
                            lemma_commit_if_err(
                                env0,
                                out0,
                                condition@,
                                then_branch@,
                                ebv,
                                fuel as nat,
                                w1,
                                env1,
                                e@,
                            );
                            assert(exec_commits(
                                env0,
                                out0,
                                statement@,
                                fuel as nat,
                                w1,
                                env1,
                                out0,
                                Result::<bool, RuntimeErrV>::Err(e@),
                            ));
                        }
                        return Result::Err(e);
                    },
                };
                if cvv.is_truthy() {
                    let rb = self.execute(then_branch, fuel);
                    proof {
                        let w2 = choose|w: Seq<u64>|
                            exec_commits(
                                env1,
                                out0,
                                then_branch@,
                                fuel as nat,
                                w,
                                self@.env,
                                self@.out,
                                exec_res_view(rb),
                            );
                        lemma_commit_if_branch(
                            env0,
                            out0,
                            condition@,
                            then_branch@,
                            ebv,
                            then_branch@,
                            fuel as nat,
                            w1,
                            env1,
                            cvv@,
                            w2,
                            self@.env,
                            self@.out,
                            exec_res_view(rb),
                        );
                        assert(exec_commits(
                            env0,
                            out0,
                            statement@,
                            fuel as nat,
                            w1 + w2,
                            self@.env,
                            self@.out,
                            exec_res_view(rb),
                        ));
                    }
                    return rb;
                } else {
                    match else_branch {
                        Option::Some(eb2) => {
                            let rb = self.execute(eb2, fuel);
                            proof {
                                let w2 = choose|w: Seq<u64>|
                                    exec_commits(
                                        env1,
                                        out0,
                                        eb2@,
                                        fuel as nat,
                                        w,
                                        self@.env,
                                        self@.out,
                                        exec_res_view(rb),
                                    );
                                lemma_commit_if_branch(
                                    env0,
                                    out0,
                                    condition@,
                                    then_branch@,
                                    ebv,
                                    eb2@,
                                    fuel as nat,
                                    w1,
                                    env1,
                                    cvv@,
                                    w2,
                                    self@.env,
                                    self@.out,
                                    exec_res_view(rb),
                                );
                                assert(exec_commits(
                                    env0,
                                    out0,
                                    statement@,
                                    fuel as nat,
                                    w1 + w2,
                                    self@.env,
                                    self@.out,
                                    exec_res_view(rb),
                                ));
                            }
                            return rb;
                        },
                        Option::None => {
                            proof {
                                lemma_commit_if_skip(
                                    env0,
                                    out0,
                                    condition@,
                                    then_branch@,
                                    fuel as nat,
                                    w1,
                                    env1,
                                    cvv@,
                                );
                                assert(exec_commits(
                                    env0,
                                    out0,
                                    statement@,
                                    fuel as nat,
                                    w1,
                                    env1,
                                    out0,
                                    Result::Ok(true),
                                ));
                            }
                            return Result::Ok(true);
                        },
                    }
                }
            },
            Stmt::While { condition, body } => {
                let cr = self.evaluate(condition);
                let ghost crv = res_view(cr);
                let ghost env1 = self@.env;
                let ghost w1 = choose|w: Seq<u64>| eval_commits(env0, condition@, w, env1, crv);
                let cvv = match cr {
                    Result::Ok(v) => v,
                    Result::Err(e) => {
                        proof {
                            lemma_commit_while_stop(
                                env0,
                                out0,
                                condition@,
                                body@,
                                fuel as nat,
                                w1,
                                env1,
                                crv,
                            );
                            assert(exec_commits(
                                env0,
                                out0,
                                statement@,
                                fuel as nat,
                                w1,
                                env1,
                                out0,
                                Result::<bool, RuntimeErrV>::Err(e@),
                            ));
                        }
                        return Result::Err(e);
                    },
                };
                if !cvv.is_truthy() {
                    proof {
                        lemma_commit_while_stop(
                            env0,
                            out0,
                            condition@,
                            body@,
                            fuel as nat,
                            w1,
                            env1,
                            Result::Ok(cvv@),
                        );
                        assert(exec_commits(
                            env0,
                            out0,
                            statement@,
                            fuel as nat,
                            w1,
                            env1,
                            out0,
                            Result::Ok(true),
                        ));
                    }
                    return Result::Ok(true);
                }
                if fuel == 0 {
                    proof {
                        lemma_commit_while_stop(
                            env0,
                            out0,
                            condition@,
                            body@,
                            fuel as nat,
                            w1,
                            env1,
                            Result::Ok(cvv@),
                        );
                        assert(exec_commits(
                            env0,
                            out0,
                            statement@,
                            fuel as nat,
                            w1,
                            env1,
                            out0,
                            Result::Ok(false),
                        ));
                    }
                    return Result::Ok(false);
                }
                let f1: u64 = fuel - 1;
                proof {
                    assert(f1 as nat == (fuel as nat - 1) as nat);
                }
                let rb = self.execute(body, f1);
                let ghost rbv = exec_res_view(rb);
                let ghost envb = self@.env;
                let ghost outb = self@.out;
                let ghost wb = choose|w: Seq<u64>|
                    #[trigger] exec_commits(env1, out0, body@, f1 as nat, w, envb, outb, rbv);
                match rb {
                    Result::Ok(true) => {
                        let r2 = self.execute(statement, f1);
                        proof {
                            let w3 = choose|w: Seq<u64>|
                                #[trigger] exec_commits(
                                    envb,
                                    outb,
                                    statement@,
                                    f1 as nat,
                                    w,
                                    self@.env,
                                    self@.out,
                                    exec_res_view(r2),
                                );
                            lemma_commit_while_step(
                                env0,
                                out0,
                                condition@,
                                body@,
                                fuel as nat,
                                w1,
                                env1,
                                cvv@,
                                wb,
                                envb,
                                outb,
                                w3,
                                self@.env,
                                self@.out,
                                exec_res_view(r2),
                            );
                            assert(exec_commits(
                                env0,
                                out0,
                                statement@,
                                fuel as nat,
                                w1 + wb + w3,
                                self@.env,
                                self@.out,
                                exec_res_view(r2),
                            ));
                        }
                        return r2;
                    },
                    _ => {
                        proof {
                            lemma_commit_while_body_stop(
                                env0,
                                out0,
                                condition@,
                                body@,
                                fuel as nat,
                                w1,
                                env1,
                                cvv@,
                                wb,
                                envb,
                                outb,
                                rbv,
                            );
                            assert(exec_commits(
                                env0,
                                out0,
                                statement@,
                                fuel as nat,
                                w1 + wb,
                                envb,
                                outb,
                                rbv,
                            ));
                        }
                        return rb;
                    },
                }
            },
        }
    }

    /// Runs a program: the statements in order, each loop bounded by
    /// `fuel` iterations. `Ok(true)` is completion, `Ok(false)` a run
    /// that hit the loop bound, an error the first failure — the
    /// statements after a failure are not executed.
    #[verifier::loop_isolation(false)]
    pub fn interpret(&mut self, statements: &Vec<Stmt>, fuel: u64) -> (r: Result<
        bool,
        RuntimeError,
    >)
        requires
            old(self).inv(),
        ensures
            final(self).inv(),
            final(self)@.env.cur == old(self)@.env.cur,
            final(self)@.env.scopes.len() >= old(self)@.env.scopes.len(),
            exists|w: Seq<u64>|
                #[trigger] exec_seq_commits(
                    old(self)@.env,
                    old(self)@.out,
                    stmts_view(statements@),
                    fuel as nat,
                    w,
                    final(self)@.env,
                    final(self)@.out,
                    exec_res_view(r),
                ),
    {
        let ghost env0 = self@.env;
        let ghost out0 = self@.out;
        let ghost ssv = stmts_view(statements@);
        proof {
            lemma_stmts_view(statements@);
            lemma_commit_seq_empty(env0, out0, fuel as nat);
            assert(ssv.take(0) =~= Seq::<StmtV>::empty());
        }
        let n = statements.len();
        let ghost mut wa: Seq<u64> = Seq::empty();
        let mut i: usize = 0;
        while i < n
            invariant
                self.inv(),
                n == statements@.len(),
                i <= n,
                self@.env.cur == env0.cur,
                self@.env.scopes.len() >= env0.scopes.len(),
                exec_seq_commits(
                    env0,
                    out0,
                    ssv.take(i as int),
                    fuel as nat,
                    wa,
                    self@.env,
                    self@.out,
                    Result::Ok(true),
                ),
            decreases n - i,
        {
            let ghost envk = self@.env;
            let ghost outk = self@.out;
            let r1 = self.execute(&statements[i], fuel);
            let ghost r1v = exec_res_view(r1);
            proof {
                let wk = choose|w: Seq<u64>|
                    exec_commits(
                        envk,
                        outk,
                        ssv[i as int],
                        fuel as nat,
                        w,
                        self@.env,
                        self@.out,
                        r1v,
                    );
                lemma_commit_seq_snoc(
                    env0,
                    out0,
                    ssv.take(i as int),
                    fuel as nat,
                    wa,
                    envk,
                    outk,
                    ssv[i as int],
                    wk,
                    self@.env,
                    self@.out,
                    r1v,
                );
                assert(ssv.take(i as int).push(ssv[i as int]) =~= ssv.take(i + 1));
                wa = wa + wk;
            }
            match r1 {
                Result::Ok(true) => {},
                _ => {
                    proof {
                        lemma_seq_stuck(
                            env0,
                            out0,
                            ssv,
                            i + 1,
                            fuel as nat,
                            wa,
                            self@.env,
                            self@.out,
                            r1v,
                        );
                    }
                    return r1;
                },
            }
            i += 1;
        }
        proof {
            assert(ssv.take(n as int) =~= ssv);
        }
        Result::Ok(true)
    }

    /// Hands over the values the `print` statements produced so far, in
    /// order, and clears them; the driver formats and writes them.
    pub fn take_output(&mut self) -> (out: Vec<Value>)
        requires
            old(self).inv(),
        ensures
            final(self).inv(),
            final(self)@.env == old(self)@.env,
            final(self)@.out == Seq::<SpecValue>::empty(),
            vals_view(out@) == old(self)@.out,
    {
        let mut o: Vec<Value> = Vec::new();
        core::mem::swap(&mut o, &mut self.out);
        proof {
            assert(vals_view(o@) =~= old(self)@.out);
            assert(self@.out =~= Seq::<SpecValue>::empty());
        }
        o
    }
}

/// `and` never evaluates its right operand when the left one is falsy:
/// whatever `right` is — even an expression whose evaluation would fail,
/// change the chain, or read the clock — the result is the left operand
/// itself and the chain and oracle position are untouched.
pub proof fn lemma_and_short_circuit(
    env: EnvV,
    c: spec_fn(nat) -> u64,
    k: nat,
    lv: TokenV,
    op: TokenV,
    right: ExprV,
    v: SpecValue,
)
    requires
        op.token_type == TokenType::And,
        sp_literal_value(lv) == Result::<SpecValue, RuntimeErrV>::Ok(v),
        !spec_truthy(v),
    ensures
        sp_eval(
            env,
            c,
            k,
            ExprV::Logical {
                left: Box::new(ExprV::Literal { value: lv }),
                operator: op,
                right: Box::new(right),
            },
        ) == (EvalOut { env, k, r: Result::Ok(v) }),
{
    assert(sp_eval(env, c, k, ExprV::Literal { value: lv }) == (EvalOut {
        env,
        k,
        r: Result::Ok(v),
    }));
}

/// `or` never evaluates its right operand when the left one is truthy:
/// the result is the left operand itself, not a coerced boolean, and the
/// chain and oracle position are untouched, whatever `right` is.
pub proof fn lemma_or_short_circuit(
    env: EnvV,
    c: spec_fn(nat) -> u64,
    k: nat,
    lv: TokenV,
    op: TokenV,
    right: ExprV,
    v: SpecValue,
)
    requires
        op.token_type == TokenType::Or,
        sp_literal_value(lv) == Result::<SpecValue, RuntimeErrV>::Ok(v),
        spec_truthy(v),
    ensures
        sp_eval(
            env,
            c,
            k,
            ExprV::Logical {
                left: Box::new(ExprV::Literal { value: lv }),
                operator: op,
                right: Box::new(right),
            },
        ) == (EvalOut { env, k, r: Result::Ok(v) }),
{
    assert(sp_eval(env, c, k, ExprV::Literal { value: lv }) == (EvalOut {
        env,
        k,
        r: Result::Ok(v),
    }));
}

/// Dividing any number literal by a zero literal — either zero — fails
/// with the division error, before any divide happens and whatever the
/// dividend is.
pub proof fn lemma_division_by_zero(
    env: EnvV,
    c: spec_fn(nat) -> u64,
    k: nat,
    lt: TokenV,
    op: TokenV,
    rt: TokenV,
    a: u64,
    z: u64,
)
    requires
        op.token_type == TokenType::Slash,
        lt.literal == Option::Some(LiteralV::Number(a)),
        rt.literal == Option::Some(LiteralV::Number(z)),
        f64_is_zero(z),
    ensures
        sp_eval(
            env,
            c,
            k,
            ExprV::Binary {
                left: Box::new(ExprV::Literal { value: lt }),
                operator: op,
                right: Box::new(ExprV::Literal { value: rt }),
            },
        ) == (EvalOut { env, k, r: Result::Err(RuntimeErrV::ZeroDivision) }),
{
    assert(sp_eval(env, c, k, ExprV::Literal { value: lt }) == (EvalOut {
        env,
        k,
        r: Result::Ok(SpecValue::Number(a)),
    }));
    assert(sp_eval(env, c, k, ExprV::Literal { value: rt }) == (EvalOut {
        env,
        k,
        r: Result::Ok(SpecValue::Number(z)),
    }));
}

/// Equality is type-tolerant and never errors: comparing any two literal
/// values of any kinds yields a boolean — values of different kinds are
/// simply unequal, never a type error.
pub proof fn lemma_equality_type_tolerant(
    env: EnvV,
    c: spec_fn(nat) -> u64,
    k: nat,
    lt: TokenV,
    op: TokenV,
    rt: TokenV,
    v1: SpecValue,
    v2: SpecValue,
)
    requires
        op.token_type == TokenType::EqualEqual,
        sp_literal_value(lt) == Result::<SpecValue, RuntimeErrV>::Ok(v1),
        sp_literal_value(rt) == Result::<SpecValue, RuntimeErrV>::Ok(v2),
    ensures
        sp_eval(
            env,
            c,
            k,
            ExprV::Binary {
                left: Box::new(ExprV::Literal { value: lt }),
                operator: op,
                right: Box::new(ExprV::Literal { value: rt }),
            },
        ) == (EvalOut { env, k, r: Result::Ok(SpecValue::Boolean(spec_lox_eq(v1, v2))) }),
{
    assert(sp_eval(env, c, k, ExprV::Literal { value: lt }) == (EvalOut {
        env,
        k,
        r: Result::Ok(v1),
    }));
    assert(sp_eval(env, c, k, ExprV::Literal { value: rt }) == (EvalOut {
        env,
        k,
        r: Result::Ok(v2),
    }));
}

/// Calling the clock capability with no arguments yields a number — the
/// oracle's next reading — and consumes exactly one reading.
pub proof fn lemma_clock_zero_args(
    env: EnvV,
    c: spec_fn(nat) -> u64,
    k: nat,
    name: TokenV,
    paren: TokenV,
)
    requires
        chain_lookup(env.scopes, env.cur, name.lexeme) == Option::Some(SpecValue::Callable),
    ensures
        sp_eval(
            env,
            c,
            k,
            ExprV::Call {
                callee: Box::new(ExprV::Variable { name }),
                paren,
                arguments: Seq::empty(),
            },
        ) == (EvalOut { env, k: (k + 1) as nat, r: Result::Ok(SpecValue::Number(c(k))) }),
{
    assert(sp_eval(env, c, k, ExprV::Variable { name }) == (EvalOut {
        env,
        k,
        r: Result::Ok(SpecValue::Callable),
    }));
    assert(sp_eval_args(env, c, k, Seq::<ExprV>::empty()) == (ArgsOut {
        env,
        k,
        r: Result::Ok(Seq::<SpecValue>::empty()),
    }));
}

/// Calling the clock capability with one argument is an arity error
/// naming the expected and actual counts, whatever the argument's value.
pub proof fn lemma_clock_one_arg(
    env: EnvV,
    c: spec_fn(nat) -> u64,
    k: nat,
    name: TokenV,
    paren: TokenV,
    at: TokenV,
    av: SpecValue,
)
    requires
        chain_lookup(env.scopes, env.cur, name.lexeme) == Option::Some(SpecValue::Callable),
        sp_literal_value(at) == Result::<SpecValue, RuntimeErrV>::Ok(av),
    ensures
        sp_eval(
            env,
            c,
            k,
            ExprV::Call {
                callee: Box::new(ExprV::Variable { name }),
                paren,
                arguments: seq![ExprV::Literal { value: at }],
            },
        ) == (EvalOut {
            env,
            k,
            r: Result::Err(RuntimeErrV::TypeMismatch(arity_msg(1))),
        }),
{
    let args = seq![ExprV::Literal { value: at }];
    assert(sp_eval(env, c, k, ExprV::Variable { name }) == (EvalOut {
        env,
        k,
        r: Result::Ok(SpecValue::Callable),
    }));
    assert(args.drop_last() =~= Seq::<ExprV>::empty());
    assert(args.last() == ExprV::Literal { value: at });
    assert(sp_eval_args(env, c, k, args.drop_last()) == (ArgsOut {
        env,
        k,
        r: Result::Ok(Seq::<SpecValue>::empty()),
    }));
    assert(sp_eval(env, c, k, args.last()) == (EvalOut { env, k, r: Result::Ok(av) }));
    assert(sp_eval_args(env, c, k, args) == (ArgsOut { env, k, r: Result::Ok(seq![av]) }));
    assert(seq![av].len() == 1);
}

/// Reading a name that no scope in the chain binds is the undefined
/// variable error carrying that name, and so is assigning to one: the
/// assignment walks the same nodes as the lookup, so it fails on exactly
/// the same names.
pub proof fn lemma_undefined_variable(
    env: EnvV,
    c: spec_fn(nat) -> u64,
    k: nat,
    name: TokenV,
    vt: TokenV,
    v: SpecValue,
)
    requires
        chain_lookup(env.scopes, env.cur, name.lexeme) is None,
        sp_literal_value(vt) == Result::<SpecValue, RuntimeErrV>::Ok(v),
    ensures
        sp_eval(env, c, k, ExprV::Variable { name }) == (EvalOut {
            env,
            k,
            r: Result::Err(RuntimeErrV::UndefinedVariable(name.lexeme)),
        }),
        sp_eval(
            env,
            c,
            k,
            ExprV::Assign { name, value: Box::new(ExprV::Literal { value: vt }) },
        ) == (EvalOut { env, k, r: Result::Err(RuntimeErrV::UndefinedVariable(name.lexeme)) }),
{
    crate::environment::lemma_chain_assign_none(env.scopes, env.cur, name.lexeme, v);
    assert(sp_eval(env, c, k, ExprV::Literal { value: vt }) == (EvalOut {
        env,
        k,
        r: Result::Ok(v),
    }));
}

} // verus!
