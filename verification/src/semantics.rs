//! The language's semantics: a spec-level big-step interpreter over the
//! model of the tree ([`crate::ast::ExprView`] and friends).
//!
//! The interpreter is deterministic up to native calls. A native function is
//! host-supplied, so nothing can be said of its result: the moment evaluation
//! reaches a call whose name is in the native set, the outcome is `Native`
//! and the semantics says no more of that run. Every run that never reaches a
//! native call is pinned down exactly.
//!
//! Evaluation depth is bounded by a fuel: each user-function call consumes
//! one unit, and exhaustion is the `RecursionLimitExceeded` error.

use vstd::prelude::*;

use crate::ast::{find_fn, BlockView, ExprView, FnView, IfView, Opcode, StmtView, ValView, VarView};

verus! {

/// Model of a runtime error kind.
pub enum ErrView {
    UndefinedVariable(Seq<char>),
    UndefinedFunction(Seq<char>),
    InvalidOpcode,
    InvalidOperands,
    BooleanExpected,
    WrongNumberOfArguments(Seq<char>),
    NoMain,
    DivisionByZero,
    RecursionLimitExceeded,
}

/// An environment model: names to values.
pub type EnvView = Map<Seq<char>, ValView>;

/// The outcome of evaluating one expression or block.
pub enum EvalOut {
    /// A value, together with the local environment as the evaluation left it.
    Val { v: ValView, locals: EnvView },
    /// A runtime error.
    Fail(ErrView),
    /// Evaluation reached a native call; the semantics defines nothing further.
    Native,
}

/// The outcome of evaluating a list of argument expressions, left to right.
pub enum ListOut {
    Vals { vs: Seq<ValView>, locals: EnvView },
    Fail(ErrView),
    Native,
}

/// The outcome of running a statement list.
pub enum StmtsOut {
    Env(EnvView),
    Fail(ErrView),
    Native,
}

/// The outcome of a function call (the caller's locals are untouched).
pub enum CallOut {
    CVal(ValView),
    CFail(ErrView),
    CNative,
}

/// Truncating division, as the machine divides: the quotient is rounded
/// toward zero.
pub open spec fn div_trunc(x: int, d: int) -> int {
    if x == 0 {
        0
    } else if x > 0 && d > 0 {
        x / d
    } else if x < 0 && d < 0 {
        (x * -1) / (d * -1)
    } else if x < 0 {
        ((x * -1) / d) * -1
    } else {
        (x / (d * -1)) * -1
    }
}

/// Truncating remainder: the remainder takes the dividend's sign.
pub open spec fn rem_trunc(x: int, d: int) -> int {
    if x == 0 {
        0
    } else if x > 0 && d > 0 {
        x % d
    } else if x < 0 && d < 0 {
        ((x * -1) % (d * -1)) * -1
    } else if x < 0 {
        ((x * -1) % d) * -1
    } else {
        x % (d * -1)
    }
}

/// The operator truth table: which operators are valid on which operand
/// kinds, and what they yield.
///
/// Integers take the arithmetic and comparison operators; `+ - *` wrap on
/// overflow (two's complement); `/ %` truncate toward zero, reject a zero
/// divisor with `DivisionByZero`, and wrap on `i32::MIN / -1`. Booleans take
/// equality and the logical operators; strings take equality only. Any other
/// pairing of operand kinds is `InvalidOperands`; a valid pairing with an
/// operator outside its row is `InvalidOpcode`.
pub open spec fn apply_op(l: ValView, op: Opcode, r: ValView) -> Result<ValView, ErrView> {
    match (l, r) {
        (ValView::VInt(Option::Some(a)), ValView::VInt(Option::Some(b))) => match op {
            Opcode::Add => Result::Ok(
                ValView::VInt(Option::Some(vstd::wrapping::i32_specs::wrapping_add(a, b))),
            ),
            Opcode::Sub => Result::Ok(
                ValView::VInt(Option::Some(vstd::wrapping::i32_specs::wrapping_sub(a, b))),
            ),
            Opcode::Mul => Result::Ok(
                ValView::VInt(Option::Some(vstd::wrapping::i32_specs::wrapping_mul(a, b))),
            ),
            Opcode::Div => if b == 0 {
                Result::Err(ErrView::DivisionByZero)
            } else if a == i32::MIN && b == -1 {
                Result::Ok(ValView::VInt(Option::Some(i32::MIN)))
            } else {
                Result::Ok(ValView::VInt(Option::Some(div_trunc(a as int, b as int) as i32)))
            },
            Opcode::Mod => if b == 0 {
                Result::Err(ErrView::DivisionByZero)
            } else if a == i32::MIN && b == -1 {
                Result::Ok(ValView::VInt(Option::Some(0)))
            } else {
                Result::Ok(ValView::VInt(Option::Some(rem_trunc(a as int, b as int) as i32)))
            },
            Opcode::Eq => Result::Ok(ValView::VBool(Option::Some(a == b))),
            Opcode::Ne => Result::Ok(ValView::VBool(Option::Some(a != b))),
            Opcode::Lt => Result::Ok(ValView::VBool(Option::Some(a < b))),
            Opcode::Le => Result::Ok(ValView::VBool(Option::Some(a <= b))),
            Opcode::Gt => Result::Ok(ValView::VBool(Option::Some(a > b))),
            Opcode::Ge => Result::Ok(ValView::VBool(Option::Some(a >= b))),
            _ => Result::Err(ErrView::InvalidOpcode),
        },
        (ValView::VBool(Option::Some(a)), ValView::VBool(Option::Some(b))) => match op {
            Opcode::Eq => Result::Ok(ValView::VBool(Option::Some(a == b))),
            Opcode::Ne => Result::Ok(ValView::VBool(Option::Some(a != b))),
            Opcode::And => Result::Ok(ValView::VBool(Option::Some(a && b))),
            Opcode::Or => Result::Ok(ValView::VBool(Option::Some(a || b))),
            _ => Result::Err(ErrView::InvalidOpcode),
        },
        (ValView::VStr(Option::Some(a)), ValView::VStr(Option::Some(b))) => match op {
            Opcode::Eq => Result::Ok(ValView::VBool(Option::Some(a == b))),
            Opcode::Ne => Result::Ok(ValView::VBool(Option::Some(a != b))),
            _ => Result::Err(ErrView::InvalidOpcode),
        },
        _ => Result::Err(ErrView::InvalidOperands),
    }
}

/// The fresh local environment of a call: parameters bound positionally to
/// the argument values (a repeated parameter name keeps the later binding).
pub open spec fn bind_params(params: Seq<VarView>, vs: Seq<ValView>) -> EnvView
    decreases params,
{
    if params.len() == 0 || vs.len() < params.len() {
        Map::empty()
    } else {
        bind_params(params.drop_last(), vs.subrange(0, params.len() - 1)).insert(
            params.last().ident,
            vs[params.len() - 1],
        )
    }
}

/// Evaluates one expression.
///
/// Variable lookup consults `genv` (the globals) before `lenv` (the locals):
/// a global always shadows a local of the same name. A call evaluates its
/// arguments left to right, then dispatches: the native table first, then the
/// program's functions, else `UndefinedFunction`.
pub open spec fn s_eval(
    p: Seq<FnView>,
    natives: Set<Seq<char>>,
    genv: EnvView,
    lenv: EnvView,
    fuel: nat,
    e: ExprView,
) -> EvalOut
    decreases fuel, e, 0int,
{
    match e {
        ExprView::EVar(id) => if genv.contains_key(id) {
            EvalOut::Val { v: genv[id], locals: lenv }
        } else if lenv.contains_key(id) {
            EvalOut::Val { v: lenv[id], locals: lenv }
        } else {
            EvalOut::Fail(ErrView::UndefinedVariable(id))
        },
        ExprView::EVal(v) => EvalOut::Val { v, locals: lenv },
        ExprView::EOp(l, op, r) => match s_eval(p, natives, genv, lenv, fuel, *l) {
            EvalOut::Val { v: lv, locals: env1 } => match s_eval(p, natives, genv, env1, fuel, *r) {
                EvalOut::Val { v: rv, locals: env2 } => match apply_op(lv, op, rv) {
                    Result::Ok(v) => EvalOut::Val { v, locals: env2 },
                    Result::Err(t) => EvalOut::Fail(t),
                },
                EvalOut::Fail(t) => EvalOut::Fail(t),
                EvalOut::Native => EvalOut::Native,
            },
            EvalOut::Fail(t) => EvalOut::Fail(t),
            EvalOut::Native => EvalOut::Native,
        },
        ExprView::ECall(name, args) => match s_eval_list(p, natives, genv, lenv, fuel, args) {
            ListOut::Vals { vs, locals: env1 } => if natives.contains(name) {
                EvalOut::Native
            } else {
                match find_fn(p, name) {
                    Option::Some(f) => if fuel == 0 {
                        EvalOut::Fail(ErrView::RecursionLimitExceeded)
                    } else if vs.len() != f.params.len() {
                        EvalOut::Fail(ErrView::WrongNumberOfArguments(f.name))
                    } else {
                        match s_eval_call(p, natives, genv, f, vs, (fuel - 1) as nat) {
                            CallOut::CVal(v) => EvalOut::Val { v, locals: env1 },
                            CallOut::CFail(t) => EvalOut::Fail(t),
                            CallOut::CNative => EvalOut::Native,
                        }
                    },
                    Option::None => EvalOut::Fail(ErrView::UndefinedFunction(name)),
                }
            },
            ListOut::Fail(t) => EvalOut::Fail(t),
            ListOut::Native => EvalOut::Native,
        },
        ExprView::EIf(f) => s_eval_if(p, natives, genv, lenv, fuel, *f),
    }
}

/// Evaluates argument expressions left to right, threading the locals.
pub open spec fn s_eval_list(
    p: Seq<FnView>,
    natives: Set<Seq<char>>,
    genv: EnvView,
    lenv: EnvView,
    fuel: nat,
    es: Seq<ExprView>,
) -> ListOut
    decreases fuel, es, 0int,
{
    if es.len() == 0 {
        ListOut::Vals { vs: Seq::empty(), locals: lenv }
    } else {
        match s_eval(p, natives, genv, lenv, fuel, es[0]) {
            EvalOut::Val { v, locals: env1 } => match s_eval_list(
                p,
                natives,
                genv,
                env1,
                fuel,
                es.drop_first(),
            ) {
                ListOut::Vals { vs, locals: env2 } => ListOut::Vals {
                    vs: seq![v] + vs,
                    locals: env2,
                },
                ListOut::Fail(t) => ListOut::Fail(t),
                ListOut::Native => ListOut::Native,
            },
            EvalOut::Fail(t) => ListOut::Fail(t),
            EvalOut::Native => ListOut::Native,
        }
    }
}

/// Evaluates an `if`-expression: the condition must be a boolean; an absent
/// else branch yields unit.
pub open spec fn s_eval_if(
    p: Seq<FnView>,
    natives: Set<Seq<char>>,
    genv: EnvView,
    lenv: EnvView,
    fuel: nat,
    f: IfView,
) -> EvalOut
    decreases fuel, f, 0int,
{
    match s_eval(p, natives, genv, lenv, fuel, *f.cond) {
        EvalOut::Val { v: ValView::VBool(Option::Some(c)), locals: env1 } => if c {
            s_eval_block(p, natives, genv, env1, fuel, f.then_block)
        } else {
            match f.else_block {
                Option::Some(b) => s_eval_block(p, natives, genv, env1, fuel, b),
                Option::None => EvalOut::Val { v: ValView::VUnit, locals: env1 },
            }
        },
        EvalOut::Val { v: _, locals: env1 } => EvalOut::Fail(ErrView::BooleanExpected),
        EvalOut::Fail(t) => EvalOut::Fail(t),
        EvalOut::Native => EvalOut::Native,
    }
}

/// Runs a statement list in order. A bare expression is evaluated for
/// effect; an assignment rebinds its name in the locals.
pub open spec fn s_eval_stmts(
    p: Seq<FnView>,
    natives: Set<Seq<char>>,
    genv: EnvView,
    lenv: EnvView,
    fuel: nat,
    ss: Seq<StmtView>,
) -> StmtsOut
    decreases fuel, ss, 0int,
{
    if ss.len() == 0 {
        StmtsOut::Env(lenv)
    } else {
        match ss[0] {
            StmtView::SExpr(e) => match s_eval(p, natives, genv, lenv, fuel, e) {
                EvalOut::Val { v: _, locals: env1 } => s_eval_stmts(
                    p,
                    natives,
                    genv,
                    env1,
                    fuel,
                    ss.drop_first(),
                ),
                EvalOut::Fail(t) => StmtsOut::Fail(t),
                EvalOut::Native => StmtsOut::Native,
            },
            StmtView::SAsgn(id, e) => match s_eval(p, natives, genv, lenv, fuel, e) {
                EvalOut::Val { v, locals: env1 } => s_eval_stmts(
                    p,
                    natives,
                    genv,
                    env1.insert(id, v),
                    fuel,
                    ss.drop_first(),
                ),
                EvalOut::Fail(t) => StmtsOut::Fail(t),
                EvalOut::Native => StmtsOut::Native,
            },
        }
    }
}

/// Evaluates a block: its statements in order, then its trailing expression,
/// whose value is the block's value.
pub open spec fn s_eval_block(
    p: Seq<FnView>,
    natives: Set<Seq<char>>,
    genv: EnvView,
    lenv: EnvView,
    fuel: nat,
    b: BlockView,
) -> EvalOut
    decreases fuel, b, 0int,
{
    match s_eval_stmts(p, natives, genv, lenv, fuel, b.stmts) {
        StmtsOut::Env(env1) => s_eval(p, natives, genv, env1, fuel, *b.expr),
        StmtsOut::Fail(t) => EvalOut::Fail(t),
        StmtsOut::Native => EvalOut::Native,
    }
}

/// Calls a user-defined function: a fresh locals map binds the parameters to
/// the arguments; the caller's locals are untouched.
pub open spec fn s_eval_call(
    p: Seq<FnView>,
    natives: Set<Seq<char>>,
    genv: EnvView,
    f: FnView,
    vs: Seq<ValView>,
    fuel: nat,
) -> CallOut
    decreases fuel, f.body, 1int,
{
    match s_eval_block(p, natives, genv, bind_params(f.params, vs), fuel, f.body) {
        EvalOut::Val { v, locals: _ } => CallOut::CVal(v),
        EvalOut::Fail(t) => CallOut::CFail(t),
        EvalOut::Native => CallOut::CNative,
    }
}

/// Executes a program: looks up `main` and calls it with no arguments.
pub open spec fn s_execute(
    p: Seq<FnView>,
    natives: Set<Seq<char>>,
    genv: EnvView,
    fuel: nat,
) -> CallOut {
    match find_fn(p, "main"@) {
        Option::Some(m) => if m.params.len() != 0 {
            CallOut::CFail(ErrView::WrongNumberOfArguments(m.name))
        } else {
            s_eval_call(p, natives, genv, m, Seq::empty(), fuel)
        },
        Option::None => CallOut::CFail(ErrView::NoMain),
    }
}

} // verus!
