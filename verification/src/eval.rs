//! The tree-walking evaluator, verified against the semantics in
//! [`crate::semantics`].
//!
//! [`execute`] runs a program's `main` against a caller-supplied global
//! environment and a host-supplied table of native functions (the
//! [`Natives`] trait). Every run whose semantics is defined — every run that
//! never reaches a native call — returns exactly the value or error of
//! [`s_execute`]; a run that calls a native returns whatever the host's
//! natives made of it.
//!
//! Call depth is bounded by [`MAX_CALL_DEPTH`]; exceeding it is the
//! `RecursionLimitExceeded` error.

use vstd::prelude::*;

use crate::ast::{
    exprs_view, lemma_exprs_view, lemma_stmts_view, stmts_view, ArgList, Block, Expr, ExprView,
    Function, If,
    Opcode, Program, Stmt, ValView, VarVal,
};
use crate::env::Env;
use crate::lexer::str_eq_chars;
use crate::semantics::{
    apply_op, bind_params, s_eval, s_eval_block, s_eval_call, s_eval_if, s_eval_list, s_eval_stmts,
    s_execute, CallOut, EnvView, ErrView, EvalOut, ListOut, StmtsOut,
};

verus! {

/// The deepest chain of user-function calls one execution may make.
pub const MAX_CALL_DEPTH: u64 = 256;

/// A runtime error: its kind, and a position (always `0`: the tree carries
/// no source spans).
#[derive(Debug, PartialEq, Eq)]
pub struct RuntimeError {
    pub position: usize,
    pub error_type: RuntimeErrorType,
}

/// The kinds of runtime error.
#[derive(Debug, PartialEq, Eq)]
pub enum RuntimeErrorType {
    UndefinedVariable(String),
    UndefinedFunction(String),
    InvalidOpcode,
    InvalidOperands,
    BooleanExpected,
    WrongNumberOfArguments(String),
    NoMain,
    DivisionByZero,
    RecursionLimitExceeded,
}

/// Model of a [`RuntimeErrorType`].
pub open spec fn err_view(t: RuntimeErrorType) -> ErrView {
    match t {
        RuntimeErrorType::UndefinedVariable(n) => ErrView::UndefinedVariable(n@),
        RuntimeErrorType::UndefinedFunction(n) => ErrView::UndefinedFunction(n@),
        RuntimeErrorType::InvalidOpcode => ErrView::InvalidOpcode,
        RuntimeErrorType::InvalidOperands => ErrView::InvalidOperands,
        RuntimeErrorType::BooleanExpected => ErrView::BooleanExpected,
        RuntimeErrorType::WrongNumberOfArguments(n) => ErrView::WrongNumberOfArguments(n@),
        RuntimeErrorType::NoMain => ErrView::NoMain,
        RuntimeErrorType::DivisionByZero => ErrView::DivisionByZero,
        RuntimeErrorType::RecursionLimitExceeded => ErrView::RecursionLimitExceeded,
    }
}

fn error(error_type: RuntimeErrorType, position: usize) -> (r: RuntimeError)
    ensures
        r.error_type == error_type,
        r.position == position,
{
    RuntimeError { error_type, position }
}

/// The host's table of native functions.
///
/// A native is consulted by name before the program's own functions, is
/// never arity-checked, and its result is taken as-is. The set of native
/// names is fixed for the lifetime of the table: a call may change the
/// table's state, never its names.
pub trait Natives {
    /// The names the table answers to.
    spec fn names(&self) -> Set<Seq<char>>;

    /// Tells whether `name` is a native function.
    fn contains(&self, name: &String) -> (r: bool)
        ensures
            r == self.names().contains(name@),
    ;

    /// Invokes the native `name` on the evaluated arguments.
    fn call(&mut self, name: &String, args: ArgList) -> (r: VarVal)
        ensures
            final(self).names() == old(self).names(),
    ;
}

/// An empty native table: every call falls through to the program.
pub struct NoNatives;

impl Natives for NoNatives {
    open spec fn names(&self) -> Set<Seq<char>> {
        Set::empty()
    }

    fn contains(&self, name: &String) -> (r: bool) {
        false
    }

    fn call(&mut self, name: &String, args: ArgList) -> (r: VarVal) {
        VarVal::UNIT
    }
}

/// The builtin table the command line supplies: one native, `print`, which
/// records each argument list it was invoked on, in call order, for the host
/// to write out. It returns unit.
pub struct Builtins {
    pub printed: Vec<ArgList>,
}

impl Builtins {
    /// A table that has recorded nothing.
    pub fn new() -> (r: Builtins)
        ensures
            r.printed@.len() == 0,
    {
        Builtins { printed: Vec::new() }
    }
}

impl Natives for Builtins {
    open spec fn names(&self) -> Set<Seq<char>> {
        set!["print"@]
    }

    fn contains(&self, name: &String) -> (r: bool) {
        str_eq_chars(name.as_str(), "print")
    }

    fn call(&mut self, name: &String, args: ArgList) -> (r: VarVal)
        ensures
            final(self).printed@ == old(self).printed@.push(args),
    {
        self.printed.push(args);
        VarVal::UNIT
    }
}

// ---------------------------------------------------------------------------
// What the evaluator promises, relative to the semantics.
// ---------------------------------------------------------------------------

/// How an executable result must relate to an evaluation outcome: where the
/// semantics is defined, the result, the locals left behind and the native
/// name set are pinned; where it reached a native, nothing is promised.
pub open spec fn obeys_eval(
    out: EvalOut,
    r: Result<VarVal, RuntimeError>,
    locals_post: EnvView,
    names_pre: Set<Seq<char>>,
    names_post: Set<Seq<char>>,
) -> bool {
    match out {
        EvalOut::Val { v, locals } => r matches Result::Ok(rv) && rv@ == v && locals_post == locals
            && names_post == names_pre,
        EvalOut::Fail(t) => r matches Result::Err(e) && err_view(e.error_type) == t && e.position
            == 0 && names_post == names_pre,
        EvalOut::Native => true,
    }
}

/// As [`obeys_eval`], for a call outcome (the caller's locals do not move).
pub open spec fn obeys_call(
    out: CallOut,
    r: Result<VarVal, RuntimeError>,
    names_pre: Set<Seq<char>>,
    names_post: Set<Seq<char>>,
) -> bool {
    match out {
        CallOut::CVal(v) => r matches Result::Ok(rv) && rv@ == v && names_post == names_pre,
        CallOut::CFail(t) => r matches Result::Err(e) && err_view(e.error_type) == t && e.position
            == 0 && names_post == names_pre,
        CallOut::CNative => true,
    }
}

/// Model of a binary operation's executable result.
pub open spec fn op_result_view(r: Result<VarVal, RuntimeErrorType>) -> Result<ValView, ErrView> {
    match r {
        Result::Ok(v) => Result::Ok(v@),
        Result::Err(t) => Result::Err(err_view(t)),
    }
}

/// Prefixes already-evaluated argument values onto a list outcome.
pub open spec fn prepend_vals(pre: Seq<ValView>, rest: ListOut) -> ListOut {
    match rest {
        ListOut::Vals { vs, locals } => ListOut::Vals { vs: pre + vs, locals },
        ListOut::Fail(t) => ListOut::Fail(t),
        ListOut::Native => ListOut::Native,
    }
}

// ---------------------------------------------------------------------------
// Binary operations.
// ---------------------------------------------------------------------------

proof fn lemma_div_in_bounds(n: int, d: int)
    requires
        n >= 0,
        d >= 1,
    ensures
        0 <= n / d <= n,
{
    assert(0 <= n / d <= n) by (nonlinear_arith)
        requires
            n >= 0,
            d >= 1,
    ;
}

proof fn lemma_rem_in_bounds(n: int, d: int)
    requires
        n >= 0,
        d >= 1,
    ensures
        0 <= n % d < d,
{
    assert(0 <= n % d < d) by (nonlinear_arith)
        requires
            n >= 0,
            d >= 1,
    ;
}

/// A truncating quotient of `i32` operands stays in `i32` range, except for
/// the one wrapping case `i32::MIN / -1`, which is excluded here.
proof fn lemma_div_trunc_in_range(x: int, d: int)
    requires
        i32::MIN <= x <= i32::MAX,
        i32::MIN <= d <= i32::MAX,
        d != 0,
        !(x == i32::MIN && d == -1),
    ensures
        i32::MIN <= crate::semantics::div_trunc(x, d) <= i32::MAX,
{
    if x == 0 {
    } else if x > 0 && d > 0 {
        lemma_div_in_bounds(x, d);
    } else if x < 0 && d < 0 {
        lemma_div_in_bounds(x * -1, d * -1);
        if x == i32::MIN {
            vstd::arithmetic::div_mod::lemma_div_is_ordered_by_denominator(x * -1, 2, d * -1);
            assert((x * -1) / 2 == 0x4000_0000);
        }
    } else if x < 0 {
        lemma_div_in_bounds(x * -1, d);
    } else {
        lemma_div_in_bounds(x, d * -1);
    }
}

/// A truncating remainder of `i32` operands stays in `i32` range, except for
/// the one wrapping case `i32::MIN % -1`, which is excluded here.
proof fn lemma_rem_trunc_in_range(x: int, d: int)
    requires
        i32::MIN <= x <= i32::MAX,
        i32::MIN <= d <= i32::MAX,
        d != 0,
        !(x == i32::MIN && d == -1),
    ensures
        i32::MIN <= crate::semantics::rem_trunc(x, d) <= i32::MAX,
{
    if x == 0 {
    } else if x > 0 && d > 0 {
        lemma_rem_in_bounds(x, d);
    } else if x < 0 && d < 0 {
        lemma_rem_in_bounds(x * -1, d * -1);
    } else if x < 0 {
        lemma_rem_in_bounds(x * -1, d);
    } else {
        lemma_rem_in_bounds(x, d * -1);
    }
}

/// Applies one binary operator to two evaluated operands, per the operator
/// truth table [`apply_op`].
fn apply_op_exec(l: &VarVal, op: Opcode, r: &VarVal) -> (res: Result<VarVal, RuntimeErrorType>)
    ensures
        op_result_view(res) == apply_op(l@, op, r@),
{
    match (l, r) {
        (VarVal::I32(Some(a)), VarVal::I32(Some(b))) => {
            let a = *a;
            let b = *b;
            match op {
                Opcode::Add => Ok(VarVal::I32(Some(a.wrapping_add(b)))),
                Opcode::Sub => Ok(VarVal::I32(Some(a.wrapping_sub(b)))),
                Opcode::Mul => Ok(VarVal::I32(Some(a.wrapping_mul(b)))),
                Opcode::Div => {
                    if b == 0 {
                        Err(RuntimeErrorType::DivisionByZero)
                    } else if a == i32::MIN && b == -1 {
                        Ok(VarVal::I32(Some(i32::MIN)))
                    } else {
                        proof {
                            lemma_div_trunc_in_range(a as int, b as int);
                        }
                        match a.checked_div(b) {
                            Some(q) => Ok(VarVal::I32(Some(q))),
                            None => Err(RuntimeErrorType::DivisionByZero),
                        }
                    }
                },
                Opcode::Mod => {
                    if b == 0 {
                        Err(RuntimeErrorType::DivisionByZero)
                    } else if a == i32::MIN && b == -1 {
                        Ok(VarVal::I32(Some(0)))
                    } else {
                        proof {
                            lemma_rem_trunc_in_range(a as int, b as int);
                        }
                        match a.checked_rem(b) {
                            Some(q) => Ok(VarVal::I32(Some(q))),
                            None => Err(RuntimeErrorType::DivisionByZero),
                        }
                    }
                },
                Opcode::Eq => Ok(VarVal::BOOL(Some(a == b))),
                Opcode::Ne => Ok(VarVal::BOOL(Some(a != b))),
                Opcode::Lt => Ok(VarVal::BOOL(Some(a < b))),
                Opcode::Le => Ok(VarVal::BOOL(Some(a <= b))),
                Opcode::Gt => Ok(VarVal::BOOL(Some(a > b))),
                Opcode::Ge => Ok(VarVal::BOOL(Some(a >= b))),
                Opcode::And => Err(RuntimeErrorType::InvalidOpcode),
                Opcode::Or => Err(RuntimeErrorType::InvalidOpcode),
            }
        },
        (VarVal::BOOL(Some(a)), VarVal::BOOL(Some(b))) => {
            match op {
                Opcode::Eq => Ok(VarVal::BOOL(Some(*a == *b))),
                Opcode::Ne => Ok(VarVal::BOOL(Some(*a != *b))),
                Opcode::And => Ok(VarVal::BOOL(Some(*a && *b))),
                Opcode::Or => Ok(VarVal::BOOL(Some(*a || *b))),
                _ => Err(RuntimeErrorType::InvalidOpcode),
            }
        },
        (VarVal::STRING(Some(a)), VarVal::STRING(Some(b))) => {
            match op {
                Opcode::Eq => {
                    let eq = *a == *b;
                    Ok(VarVal::BOOL(Some(eq)))
                },
                Opcode::Ne => {
                    let eq = *a == *b;
                    Ok(VarVal::BOOL(Some(!eq)))
                },
                _ => Err(RuntimeErrorType::InvalidOpcode),
            }
        },
        _ => Err(RuntimeErrorType::InvalidOperands),
    }
}

// ---------------------------------------------------------------------------
// The evaluator.
// ---------------------------------------------------------------------------

/// Evaluates one expression against the program, the globals, the locals and
/// the native table.
#[verifier::loop_isolation(false)]
fn eval<N: Natives>(
    expr: &Expr,
    globals: &Env,
    program: &Program,
    locals: &mut Env,
    natives: &mut N,
    fuel: u64,
) -> (r: Result<VarVal, RuntimeError>)
    ensures
        obeys_eval(
            s_eval(program@, old(natives).names(), globals@, old(locals)@, fuel as nat, expr@),
            r,
            final(locals)@,
            old(natives).names(),
            final(natives).names(),
        ),
    decreases fuel, *expr, 0int,
{
    match expr {
        Expr::Var(id) => {
            match globals.get(id) {
                Some(v) => Ok(v.clone()),
                None => {
                    match locals.get(id) {
                        Some(v) => {
                            let value = v.clone();
                            Ok(value)
                        },
                        None => Err(
                            error(RuntimeErrorType::UndefinedVariable(id.clone()), 0),
                        ),
                    }
                },
            }
        },
        Expr::Value(v) => Ok(v.clone()),
        Expr::Op(lhs, opc, rhs) => {
            let lv = match eval(lhs, globals, program, locals, natives, fuel) {
                Ok(v) => v,
                Err(e) => {
                    return Err(e);
                },
            };
            let rv = match eval(rhs, globals, program, locals, natives, fuel) {
                Ok(v) => v,
                Err(e) => {
                    return Err(e);
                },
            };
            match apply_op_exec(&lv, *opc, &rv) {
                Ok(v) => Ok(v),
                Err(t) => Err(error(t, 0)),
            }
        },
        Expr::Function(name, args) => {
            let ghost p = program@;
            let ghost g = globals@;
            let ghost names0 = natives.names();
            let ghost lenv0 = locals@;
            let ghost full = exprs_view(args@);
            proof {
                lemma_exprs_view(args@);
            }
            let mut vals: Vec<VarVal> = Vec::new();
            let mut i: usize = 0;
            proof {
                assert(full.skip(0) =~= full);
            }
            while i < args.len()
                invariant
                    i <= args.len(),
                    match s_eval_list(p, names0, g, lenv0, fuel as nat, full) {
                        ListOut::Native => true,
                        _ => natives.names() == names0 && s_eval_list(
                            p,
                            names0,
                            g,
                            lenv0,
                            fuel as nat,
                            full,
                        ) == prepend_vals(
                            vals@.map_values(|v: VarVal| v@),
                            s_eval_list(p, names0, g, locals@, fuel as nat, full.skip(i as int)),
                        ),
                    },
                decreases args.len() - i,
            {
                let ghost pre = vals@.map_values(|v: VarVal| v@);
                let ghost tail = full.skip(i as int);
                proof {
                    assert(tail[0] == full[i as int]);
                    assert(tail.drop_first() =~= full.skip(i as int + 1));
                }
                let v = match eval(&args[i], globals, program, locals, natives, fuel) {
                    Ok(v) => v,
                    Err(e) => {
                        return Err(e);
                    },
                };
                vals.push(v);
                proof {
                    assert(vals@.map_values(|x: VarVal| x@) =~= pre.push(v@));
                    if !(s_eval_list(p, names0, g, lenv0, fuel as nat, full) is Native) {
                        match s_eval_list(p, names0, g, locals@, fuel as nat, full.skip(i as int + 1)) {
                            ListOut::Vals { vs, locals: l2 } => {
                                assert(pre + (seq![v@] + vs) =~= pre.push(v@) + vs);
                            },
                            _ => {},
                        }
                    }
                }
                i = i + 1;
            }
            proof {
                assert(full.skip(args.len() as int) =~= Seq::<ExprView>::empty());
                if !(s_eval_list(p, names0, g, lenv0, fuel as nat, full) is Native) {
                    assert(vals@.map_values(|v: VarVal| v@) + Seq::<ValView>::empty()
                        =~= vals@.map_values(|v: VarVal| v@));
                }
            }
            if natives.contains(name) {
                let res = natives.call(name, ArgList { args: vals });
                return Ok(res);
            }
            match program.find(name) {
                Some(f) => {
                    if fuel == 0 {
                        return Err(error(RuntimeErrorType::RecursionLimitExceeded, 0));
                    }
                    let ghost m = vals@.map_values(|v: VarVal| v@);
                    let arglist = ArgList { args: vals };
                    proof {
                        assert(arglist@ =~= m);
                    }
                    eval_function(f, arglist, globals, program, natives, fuel - 1)
                },
                None => Err(error(RuntimeErrorType::UndefinedFunction(name.clone()), 0)),
            }
        },
        Expr::If(if_expr) => eval_if(if_expr, globals, program, locals, natives, fuel),
    }
}

/// Evaluates an `if`-expression: the condition must yield a boolean.
fn eval_if<N: Natives>(
    if_expr: &If,
    globals: &Env,
    program: &Program,
    locals: &mut Env,
    natives: &mut N,
    fuel: u64,
) -> (r: Result<VarVal, RuntimeError>)
    ensures
        obeys_eval(
            s_eval_if(
                program@,
                old(natives).names(),
                globals@,
                old(locals)@,
                fuel as nat,
                if_expr@,
            ),
            r,
            final(locals)@,
            old(natives).names(),
            final(natives).names(),
        ),
    decreases fuel, *if_expr, 0int,
{
    let predicate = match eval(&if_expr.condition, globals, program, locals, natives, fuel) {
        Ok(v) => v,
        Err(e) => {
            return Err(e);
        },
    };
    match predicate {
        VarVal::BOOL(Some(v)) => {
            if v {
                eval_block(&if_expr.if_block, globals, program, locals, natives, fuel)
            } else {
                match &if_expr.else_block {
                    Some(block) => eval_block(block, globals, program, locals, natives, fuel),
                    None => Ok(VarVal::UNIT),
                }
            }
        },
        _ => Err(error(RuntimeErrorType::BooleanExpected, 0)),
    }
}

/// Evaluates a block: its statements in order for effect, then its trailing
/// expression for the block's value.
#[verifier::loop_isolation(false)]
fn eval_block<N: Natives>(
    block: &Block,
    globals: &Env,
    program: &Program,
    locals: &mut Env,
    natives: &mut N,
    fuel: u64,
) -> (r: Result<VarVal, RuntimeError>)
    ensures
        obeys_eval(
            s_eval_block(
                program@,
                old(natives).names(),
                globals@,
                old(locals)@,
                fuel as nat,
                block@,
            ),
            r,
            final(locals)@,
            old(natives).names(),
            final(natives).names(),
        ),
    decreases fuel, *block, 0int,
{
    let ghost p = program@;
    let ghost g = globals@;
    let ghost names0 = natives.names();
    let ghost lenv0 = locals@;
    let ghost full = stmts_view(block.statements@);
    proof {
        lemma_stmts_view(block.statements@);
        assert(full.skip(0) =~= full);
    }
    let n = block.statements.len();
    let mut i: usize = 0;
    while i < n
        invariant
            i <= n,
            match s_eval_stmts(p, names0, g, lenv0, fuel as nat, full) {
                StmtsOut::Native => true,
                _ => natives.names() == names0 && s_eval_stmts(p, names0, g, lenv0, fuel as nat, full)
                    == s_eval_stmts(p, names0, g, locals@, fuel as nat, full.skip(i as int)),
            },
        decreases n - i,
    {
        let ghost tail = full.skip(i as int);
        proof {
            assert(tail[0] == full[i as int]);
            assert(tail.drop_first() =~= full.skip(i as int + 1));
        }
        match &block.statements[i] {
            Stmt::Expr(e) => {
                match eval(e, globals, program, locals, natives, fuel) {
                    Ok(_) => {},
                    Err(e) => {
                        return Err(e);
                    },
                }
            },
            Stmt::Asgn(id, e) => {
                match eval(e, globals, program, locals, natives, fuel) {
                    Ok(v) => {
                        locals.insert(id.clone(), v);
                    },
                    Err(e) => {
                        return Err(e);
                    },
                }
            },
        }
        i = i + 1;
    }
    proof {
        assert(full.skip(n as int) =~= Seq::<crate::ast::StmtView>::empty());
    }
    eval(&block.expr, globals, program, locals, natives, fuel)
}

/// Calls a user-defined function: checks the arity, binds the arguments to
/// the parameters in a fresh locals map, and evaluates the body.
fn eval_function<N: Natives>(
    function: &Function,
    arglist: ArgList,
    globals: &Env,
    program: &Program,
    natives: &mut N,
    fuel: u64,
) -> (r: Result<VarVal, RuntimeError>)
    ensures
        if arglist@.len() != function@.params.len() {
            r matches Result::Err(e) && err_view(e.error_type)
                == ErrView::WrongNumberOfArguments(function@.name) && e.position == 0
                && final(natives).names() == old(natives).names()
        } else {
            obeys_call(
                s_eval_call(
                    program@,
                    old(natives).names(),
                    globals@,
                    function@,
                    arglist@,
                    fuel as nat,
                ),
                r,
                old(natives).names(),
                final(natives).names(),
            )
        },
    decreases fuel, function.block, 1int,
{
    if arglist.args.len() != function.arguments.len() {
        return Err(
            error(RuntimeErrorType::WrongNumberOfArguments(function.name.clone()), 0),
        );
    }
    let ghost params = function@.params;
    let ghost vs = arglist@;
    let mut locals = Env::new();
    let n = function.arguments.len();
    let mut i: usize = 0;
    proof {
        assert(params.subrange(0, 0) =~= Seq::<crate::ast::VarView>::empty());
        assert(vs.subrange(0, 0) =~= Seq::<ValView>::empty());
    }
    while i < n
        invariant
            i <= n,
            n == function.arguments@.len(),
            params == function@.params,
            vs == arglist@,
            params.len() == n,
            vs.len() == n,
            locals@ == bind_params(params.subrange(0, i as int), vs.subrange(0, i as int)),
        decreases n - i,
    {
        let ghost pp = params.subrange(0, i as int + 1);
        let ghost vv = vs.subrange(0, i as int + 1);
        proof {
            assert(pp.drop_last() =~= params.subrange(0, i as int));
            assert(vv.subrange(0, i as int) =~= vs.subrange(0, i as int));
            assert(pp.last() == params[i as int]);
            assert(vv[i as int] == vs[i as int]);
        }
        let param = &function.arguments[i];
        let value = arglist.args[i].clone();
        locals.insert(param.ident.clone(), value);
        i = i + 1;
    }
    proof {
        assert(params.subrange(0, n as int) =~= params);
        assert(vs.subrange(0, n as int) =~= vs);
    }
    eval_block(&function.block, globals, program, &mut locals, natives, fuel)
}

/// Executes a program: looks `main` up and calls it with no arguments
/// against the given globals and natives. Fails with `NoMain` when the
/// program has no `main`.
pub fn execute<N: Natives>(program: &Program, globals: &Env, natives: &mut N) -> (r: Result<
    VarVal,
    RuntimeError,
>)
    ensures
        obeys_call(
            s_execute(program@, old(natives).names(), globals@, MAX_CALL_DEPTH as nat),
            r,
            old(natives).names(),
            final(natives).names(),
        ),
{
    let main_name: String = "main".to_owned();
    match program.find(&main_name) {
        Some(main_fn) => {
            let arglist = ArgList { args: Vec::new() };
            proof {
                assert(arglist@ =~= Seq::<ValView>::empty());
            }
            eval_function(main_fn, arglist, globals, program, natives, MAX_CALL_DEPTH)
        },
        None => Err(error(RuntimeErrorType::NoMain, 0)),
    }
}

} // verus!
