//! Laws of the semantics that hold for all inputs, stated and proved once
//! and for all over the model in [`crate::semantics`].

use vstd::prelude::*;

use crate::ast::{find_fn, ExprView, FnView, Opcode, StmtView, ValView};
use crate::semantics::{
    apply_op, s_eval, s_eval_list, s_eval_stmts, EnvView, ErrView, EvalOut, ListOut,
};

verus! {

/// A global always shadows a local of the same name for read access: for
/// every program, native set, fuel and pair of environments, looking up a
/// name the globals bind yields the global's value, whatever the locals hold
/// of that name.
pub proof fn lemma_global_shadows_local(
    p: Seq<FnView>,
    natives: Set<Seq<char>>,
    genv: EnvView,
    lenv: EnvView,
    fuel: nat,
    name: Seq<char>,
)
    requires
        genv.contains_key(name),
    ensures
        s_eval(p, natives, genv, lenv, fuel, ExprView::EVar(name)) == (EvalOut::Val {
            v: genv[name],
            locals: lenv,
        }),
{
}

/// Calling a user-defined function with the wrong number of arguments fails
/// with `WrongNumberOfArguments`, for every function, argument list and
/// state: whenever a call's arguments evaluate to `vs`, its name is no
/// native, it resolves to `f`, and `vs` does not match `f`'s parameter
/// count, the call's outcome is that error and nothing else.
pub proof fn lemma_wrong_arity_fails(
    p: Seq<FnView>,
    natives: Set<Seq<char>>,
    genv: EnvView,
    lenv: EnvView,
    fuel: nat,
    name: Seq<char>,
    args: Seq<ExprView>,
    f: FnView,
    vs: Seq<ValView>,
    env1: EnvView,
)
    requires
        s_eval_list(p, natives, genv, lenv, fuel, args) == (ListOut::Vals { vs, locals: env1 }),
        !natives.contains(name),
        find_fn(p, name) == Option::Some(f),
        fuel > 0,
        vs.len() != f.params.len(),
    ensures
        s_eval(p, natives, genv, lenv, fuel, ExprView::ECall(name, args)) == EvalOut::Fail(
            ErrView::WrongNumberOfArguments(f.name),
        ),
{
}

/// Operands of two different kinds (or absent operands) never combine: every
/// operator applied to such a pair is `InvalidOperands`.
pub proof fn lemma_mismatched_operands(l: ValView, op: Opcode, r: ValView)
    requires
        !(l matches ValView::VInt(o1) && r matches ValView::VInt(o2) && o1 is Some && o2 is Some),
        !(l matches ValView::VBool(o1) && r matches ValView::VBool(o2) && o1 is Some && o2 is Some),
        !(l matches ValView::VStr(o1) && r matches ValView::VStr(o2) && o1 is Some && o2 is Some),
    ensures
        apply_op(l, op, r) == Result::<ValView, ErrView>::Err(ErrView::InvalidOperands),
{
}

/// An assignment rebinds its name and never creates a second binding: the
/// statement `name = e;` carries the rest of the statement list on under
/// exactly `locals.insert(name, v)`, where `v` is the value of `e`, and the
/// names bound afterwards are the names bound before plus `name`.
pub proof fn lemma_assignment_rebinds(
    p: Seq<FnView>,
    natives: Set<Seq<char>>,
    genv: EnvView,
    lenv: EnvView,
    fuel: nat,
    name: Seq<char>,
    e: ExprView,
    v: ValView,
    env1: EnvView,
    rest: Seq<StmtView>,
)
    requires
        s_eval(p, natives, genv, lenv, fuel, e) == (EvalOut::Val { v, locals: env1 }),
    ensures
        s_eval_stmts(p, natives, genv, lenv, fuel, seq![StmtView::SAsgn(name, e)] + rest)
            == s_eval_stmts(p, natives, genv, env1.insert(name, v), fuel, rest),
        env1.insert(name, v).dom() =~= env1.dom().insert(name),
{
    let ss = seq![StmtView::SAsgn(name, e)] + rest;
    assert(ss[0] == StmtView::SAsgn(name, e));
    assert(ss.drop_first() =~= rest);
}

} // verus!
