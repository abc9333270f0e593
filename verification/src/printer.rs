//! Serialization of a program back to a token stream, and the grammar
//! round-trip law: parsing a well-formed program's serialized token stream
//! yields the program back, structurally equal.
//!
//! The serializer parenthesizes every binary operation, so the stream is
//! unambiguous at every precedence level. A tree is well formed for
//! serialization when its literals are present values (an integer literal is
//! non-negative: the grammar has no unary minus), its parameters carry
//! placeholder values, and its function names are distinct.

use vstd::prelude::*;

use crate::ast::{
    exprs_view, lemma_exprs_view, stmts_view, Block, BlockView, Expr, ExprView, FnView, Function,
    If, IfView, Opcode, Program, Stmt, StmtView, ValView, VarVal, VarView,
};
use vstd::string::StringExecFns;
use crate::lexer::Tok;
use crate::parser::{
    op_for_level, s_parse_args, s_parse_bin, s_parse_bin_rest, s_parse_block, s_parse_block_rest,
    s_parse_block_tail, s_parse_function, s_parse_if, s_parse_params, s_parse_primary,
    s_parse_program, s_parse_program_rest, upsert, ParseErrView, Toks,
};

verus! {

// ---------------------------------------------------------------------------
// The serializer, to tokens.
// ---------------------------------------------------------------------------

/// The token of a binary operator.
pub open spec fn op_token(op: Opcode) -> Tok {
    match op {
        Opcode::Mul => Tok::TStar,
        Opcode::Div => Tok::TSlash,
        Opcode::Mod => Tok::TPercent,
        Opcode::Add => Tok::TPlus,
        Opcode::Sub => Tok::TMinus,
        Opcode::Eq => Tok::TEqEq,
        Opcode::Ne => Tok::TBangEq,
        Opcode::Lt => Tok::TLt,
        Opcode::Le => Tok::TLe,
        Opcode::Gt => Tok::TGt,
        Opcode::Ge => Tok::TGe,
        Opcode::And => Tok::TAndAnd,
        Opcode::Or => Tok::TOrOr,
    }
}

/// The precedence level a binary operator lives at.
pub open spec fn op_level(op: Opcode) -> int {
    match op {
        Opcode::Or => 0,
        Opcode::And => 1,
        Opcode::Eq => 2,
        Opcode::Ne => 2,
        Opcode::Lt => 3,
        Opcode::Le => 3,
        Opcode::Gt => 3,
        Opcode::Ge => 3,
        Opcode::Add => 4,
        Opcode::Sub => 4,
        Opcode::Mul => 5,
        Opcode::Div => 5,
        Opcode::Mod => 5,
    }
}

/// The token of a literal value.
pub open spec fn val_tok(v: ValView) -> Tok {
    match v {
        ValView::VInt(Option::Some(n)) => Tok::TInt(n),
        ValView::VBool(Option::Some(b)) => if b {
            Tok::TTrue
        } else {
            Tok::TFalse
        },
        ValView::VStr(Option::Some(s)) => Tok::TStr(s),
        _ => Tok::TInt(0),
    }
}

/// The type keyword of a parameter's placeholder value.
pub open spec fn type_tok(v: ValView) -> Tok {
    match v {
        ValView::VInt(Option::None) => Tok::TI32,
        ValView::VBool(Option::None) => Tok::TBool,
        ValView::VStr(Option::None) => Tok::TString,
        _ => Tok::TI32,
    }
}

/// An expression's tokens; every binary operation is parenthesized.
pub open spec fn expr_toks(e: ExprView) -> Seq<Tok>
    decreases e, 0int,
{
    match e {
        ExprView::EVar(x) => seq![Tok::TIdent(x)],
        ExprView::EVal(v) => seq![val_tok(v)],
        ExprView::EOp(l, op, r) => seq![Tok::TLParen] + expr_toks(*l) + seq![op_token(op)]
            + expr_toks(*r) + seq![Tok::TRParen],
        ExprView::ECall(name, args) => seq![Tok::TIdent(name), Tok::TLParen] + args_toks(args)
            + seq![Tok::TRParen],
        ExprView::EIf(f) => seq![Tok::TIf] + expr_toks(*f.cond) + seq![Tok::TLBrace] + block_toks(
            f.then_block,
        ) + seq![Tok::TRBrace] + (match f.else_block {
            Option::Some(b) => seq![Tok::TElse, Tok::TLBrace] + block_toks(b) + seq![Tok::TRBrace],
            Option::None => Seq::empty(),
        }),
    }
}

/// An argument list's tokens, comma-separated.
pub open spec fn args_toks(args: Seq<ExprView>) -> Seq<Tok>
    decreases args, 0int,
{
    if args.len() == 0 {
        Seq::empty()
    } else if args.len() == 1 {
        expr_toks(args[0])
    } else {
        expr_toks(args[0]) + seq![Tok::TComma] + args_toks(args.drop_first())
    }
}

/// A statement's tokens, semicolon-terminated.
pub open spec fn stmt_toks(s: StmtView) -> Seq<Tok>
    decreases s, 0int,
{
    match s {
        StmtView::SExpr(e) => expr_toks(e) + seq![Tok::TSemi],
        StmtView::SAsgn(x, e) => seq![Tok::TIdent(x), Tok::TEq] + expr_toks(e) + seq![Tok::TSemi],
    }
}

/// A statement list's tokens.
pub open spec fn stmts_toks(ss: Seq<StmtView>) -> Seq<Tok>
    decreases ss, 0int,
{
    if ss.len() == 0 {
        Seq::empty()
    } else {
        stmt_toks(ss[0]) + stmts_toks(ss.drop_first())
    }
}

/// A block's tokens: the statements, then the trailing expression (the
/// surrounding braces belong to the construct that holds the block).
pub open spec fn block_toks(b: BlockView) -> Seq<Tok>
    decreases b, 1int,
{
    stmts_toks(b.stmts) + expr_toks(*b.expr)
}

/// A parameter list's tokens, comma-separated.
pub open spec fn params_toks(params: Seq<VarView>) -> Seq<Tok>
    decreases params,
{
    if params.len() == 0 {
        Seq::empty()
    } else if params.len() == 1 {
        seq![Tok::TIdent(params[0].ident), Tok::TColon, type_tok(params[0].value)]
    } else {
        seq![Tok::TIdent(params[0].ident), Tok::TColon, type_tok(params[0].value), Tok::TComma]
            + params_toks(params.drop_first())
    }
}

/// A function definition's tokens.
pub open spec fn fn_toks(f: FnView) -> Seq<Tok> {
    seq![Tok::TFn, Tok::TIdent(f.name), Tok::TLParen] + params_toks(f.params) + seq![
        Tok::TRParen,
        Tok::TLBrace,
    ] + block_toks(f.body) + seq![Tok::TRBrace]
}

/// A program's tokens: its function definitions in order.
pub open spec fn prog_toks(p: Seq<FnView>) -> Seq<Tok>
    decreases p,
{
    if p.len() == 0 {
        Seq::empty()
    } else {
        fn_toks(p[0]) + prog_toks(p.drop_first())
    }
}

// ---------------------------------------------------------------------------
// Well-formedness for serialization.
// ---------------------------------------------------------------------------

/// A name the lexer reads back as one identifier: letters, digits and
/// underscores, starting with a letter, and no keyword.
pub open spec fn valid_ident(x: Seq<char>) -> bool {
    &&& x.len() >= 1
    &&& crate::lexer::is_ident_start_char(x[0])
    &&& forall|k: int| 0 <= k < x.len() ==> crate::lexer::is_ident_continue_char(x[k])
    &&& x != "if"@
    &&& x != "else"@
    &&& x != "fn"@
    &&& x != "i32"@
    &&& x != "bool"@
    &&& x != "String"@
    &&& x != "true"@
    &&& x != "false"@
}

/// A literal the grammar can write: a present value; an integer literal is
/// non-negative (the grammar has no unary minus), a string literal holds no
/// quote, and unit has no literal.
pub open spec fn wf_val(v: ValView) -> bool {
    match v {
        ValView::VInt(o) => o matches Option::Some(n) && n >= 0,
        ValView::VBool(o) => o is Some,
        ValView::VStr(o) => o matches Option::Some(cs) && (forall|k: int|
            0 <= k < cs.len() ==> cs[k] != '"'),
        ValView::VUnit => false,
    }
}

/// A parameter's placeholder: a valid name with one of the three
/// declared-type placeholders.
pub open spec fn wf_param(p: VarView) -> bool {
    valid_ident(p.ident) && (p.value == ValView::VInt(Option::<i32>::None) || p.value
        == ValView::VBool(Option::<bool>::None) || p.value == ValView::VStr(
        Option::<Seq<char>>::None,
    ))
}

pub open spec fn wf_expr(e: ExprView) -> bool
    decreases e, 0int,
{
    match e {
        ExprView::EVar(x) => valid_ident(x),
        ExprView::EVal(v) => wf_val(v),
        ExprView::EOp(l, op, r) => wf_expr(*l) && wf_expr(*r),
        ExprView::ECall(name, args) => valid_ident(name) && wf_exprs(args),
        ExprView::EIf(f) => wf_expr(*f.cond) && wf_block(f.then_block) && (match f.else_block {
            Option::Some(b) => wf_block(b),
            Option::None => true,
        }),
    }
}

pub open spec fn wf_exprs(es: Seq<ExprView>) -> bool
    decreases es, 0int,
{
    if es.len() == 0 {
        true
    } else {
        wf_expr(es[0]) && wf_exprs(es.drop_first())
    }
}

pub open spec fn wf_stmt(s: StmtView) -> bool
    decreases s, 0int,
{
    match s {
        StmtView::SExpr(e) => wf_expr(e),
        StmtView::SAsgn(x, e) => valid_ident(x) && wf_expr(e),
    }
}

pub open spec fn wf_stmts(ss: Seq<StmtView>) -> bool
    decreases ss, 0int,
{
    if ss.len() == 0 {
        true
    } else {
        wf_stmt(ss[0]) && wf_stmts(ss.drop_first())
    }
}

pub open spec fn wf_block(b: BlockView) -> bool
    decreases b, 1int,
{
    wf_stmts(b.stmts) && wf_expr(*b.expr)
}

pub open spec fn wf_fn(f: FnView) -> bool {
    valid_ident(f.name) && (forall|k: int| 0 <= k < f.params.len() ==> wf_param(f.params[k]))
        && wf_block(f.body)
}

/// A program the serializer can write back exactly: well-formed functions
/// with pairwise distinct names.
pub open spec fn wf_prog(p: Seq<FnView>) -> bool {
    (forall|k: int| 0 <= k < p.len() ==> wf_fn(p[k])) && (forall|a: int, b: int|
        0 <= a < b < p.len() ==> p[a].name != p[b].name)
}

// ---------------------------------------------------------------------------
// The round trip: parsing a serialized stream yields the tree back.
// ---------------------------------------------------------------------------

/// The token kinds at `i` spell out `w`.
pub open spec fn toks_at(T: Toks, i: int, w: Seq<Tok>) -> bool
    decreases w,
{
    if w.len() == 0 {
        0 <= i <= T.len()
    } else {
        0 <= i < T.len() && T[i].1 == w[0] && toks_at(T, i + 1, w.drop_first())
    }
}

/// The token at `j` (or the end of the input) lets an expression end there:
/// no operator of the levels `lvl..=5`, no call-opening parenthesis, no
/// `else`.
pub open spec fn follow_ok(T: Toks, j: int, lvl: int) -> bool {
    j == T.len() || ((forall|lv: int| lvl <= lv <= 5 ==> op_for_level(lv, T[j].1) is None) && !(
    T[j].1 is TLParen) && !(T[j].1 is TElse))
}

proof fn lemma_toks_at_split(T: Toks, i: int, w1: Seq<Tok>, w2: Seq<Tok>)
    ensures
        toks_at(T, i, w1 + w2) <==> (toks_at(T, i, w1) && toks_at(T, i + w1.len(), w2)),
    decreases w1,
{
    if w1.len() == 0 {
        assert(w1 + w2 =~= w2);
    } else {
        assert((w1 + w2).drop_first() =~= w1.drop_first() + w2);
        lemma_toks_at_split(T, i + 1, w1.drop_first(), w2);
    }
}

proof fn lemma_toks_at_index(T: Toks, i: int, w: Seq<Tok>, k: int)
    requires
        toks_at(T, i, w),
        0 <= k < w.len(),
    ensures
        0 <= i + k < T.len(),
        T[i + k].1 == w[k],
    decreases k,
{
    if k > 0 {
        lemma_toks_at_index(T, i + 1, w.drop_first(), k - 1);
    }
}

proof fn lemma_toks_at_bounds(T: Toks, i: int, w: Seq<Tok>)
    requires
        toks_at(T, i, w),
    ensures
        0 <= i,
        i + w.len() <= T.len(),
    decreases w,
{
    if w.len() > 0 {
        lemma_toks_at_bounds(T, i + 1, w.drop_first());
    }
}

/// What `op_token` means to the parser: the operator's own token, at exactly
/// its own level, and at no other.
proof fn lemma_op_token_level(op: Opcode)
    ensures
        forall|lv: int| #[trigger]
            op_for_level(lv, op_token(op)) == (if lv == op_level(op) {
                Option::Some(op)
            } else {
                Option::<Opcode>::None
            }),
        !(op_token(op) is TLParen),
        !(op_token(op) is TElse),
        0 <= op_level(op) <= 5,
{
}

/// Every expression serializes to at least one token, and its first token
/// opens a primary; one that starts with an identifier is a variable (one
/// token) or a call (an opening parenthesis follows).
proof fn lemma_expr_first_tok(e: ExprView)
    ensures
        expr_toks(e).len() >= 1,
        expr_toks(e)[0] is TLParen || expr_toks(e)[0] is TInt || expr_toks(e)[0] is TTrue
            || expr_toks(e)[0] is TFalse || expr_toks(e)[0] is TStr || expr_toks(e)[0] is TIdent
            || expr_toks(e)[0] is TIf,
        expr_toks(e)[0] is TIdent ==> (e is EVar && expr_toks(e).len() == 1) || (e is ECall
            && expr_toks(e).len() >= 2 && expr_toks(e)[1] is TLParen),
{
    match e {
        ExprView::EVal(v) => {
            match v {
                ValView::VInt(o) => {},
                ValView::VBool(o) => {},
                ValView::VStr(o) => {},
                ValView::VUnit => {},
            }
        },
        _ => {},
    }
}

proof fn lemma_wf_exprs_index(es: Seq<ExprView>, k: int)
    requires
        wf_exprs(es),
        0 <= k < es.len(),
    ensures
        wf_expr(es[k]),
    decreases k,
{
    if k > 0 {
        lemma_wf_exprs_index(es.drop_first(), k - 1);
    }
}

proof fn lemma_wf_stmts_index(ss: Seq<StmtView>, k: int)
    requires
        wf_stmts(ss),
        0 <= k < ss.len(),
    ensures
        wf_stmt(ss[k]),
    decreases k,
{
    if k > 0 {
        lemma_wf_stmts_index(ss.drop_first(), k - 1);
    }
}

/// Pass-through: a level's chain returns what the level below parsed when no
/// operator of the levels in between follows.
proof fn lemma_chain(T: Toks, eof: int, i: int, lvl: int, hi: int, e: ExprView, j: int)
    requires
        0 <= lvl <= hi <= 5,
        s_parse_bin(T, eof, i, hi) == Result::<(ExprView, int), ParseErrView>::Ok((e, j)),
        i < j <= T.len(),
        j == T.len() || (forall|lv: int| lvl <= lv < hi ==> op_for_level(lv, T[j].1) is None),
    ensures
        s_parse_bin(T, eof, i, lvl) == Result::<(ExprView, int), ParseErrView>::Ok((e, j)),
    decreases hi - lvl,
{
    reveal_with_fuel(s_parse_bin, 3);
    reveal_with_fuel(s_parse_bin_rest, 3);
    if lvl < hi {
        lemma_chain(T, eof, i, lvl + 1, hi, e, j);
        assert(op_for_level(lvl, T[j].1) is None || j == T.len());
    }
}

/// The serialized form of an expression parses as one primary, back to the
/// expression itself.
proof fn lemma_primary_exact(T: Toks, eof: int, i: int, e: ExprView)
    requires
        wf_expr(e),
        toks_at(T, i, expr_toks(e)),
        follow_ok(T, i + expr_toks(e).len(), 6),
    ensures
        s_parse_primary(T, eof, i) == Result::<(ExprView, int), ParseErrView>::Ok(
            (e, i + expr_toks(e).len()),
        ),
    decreases e, 0int, 1int,
{
    reveal_with_fuel(s_parse_primary, 2);
    reveal_with_fuel(s_parse_bin, 3);
    reveal_with_fuel(s_parse_bin_rest, 3);
    reveal_with_fuel(s_parse_if, 2);
    reveal_with_fuel(s_parse_args, 2);
    let w = expr_toks(e);
    let j = i + w.len();
    lemma_expr_first_tok(e);
    lemma_toks_at_bounds(T, i, w);
    match e {
        ExprView::EVar(x) => {
            assert(T[i].1 == Tok::TIdent(x));
        },
        ExprView::EVal(v) => {
            assert(T[i].1 == val_tok(v));
        },
        ExprView::EOp(l, op, r) => {
            let lv = op_level(op);
            lemma_op_token_level(op);
            let w2 = expr_toks(*l);
            let w4 = expr_toks(*r);
            let il = i + 1;
            let iop = il + w2.len();
            let ir = iop + 1;
            let irp = ir + w4.len();
            assert(w =~= seq![Tok::TLParen] + (w2 + (seq![op_token(op)] + (w4 + seq![
                Tok::TRParen,
            ]))));
            lemma_toks_at_split(T, i, seq![Tok::TLParen], w2 + (seq![op_token(op)] + (w4 + seq![
                Tok::TRParen,
            ])));
            lemma_toks_at_split(T, il, w2, seq![op_token(op)] + (w4 + seq![Tok::TRParen]));
            lemma_toks_at_split(T, iop, seq![op_token(op)], w4 + seq![Tok::TRParen]);
            lemma_toks_at_split(T, ir, w4, seq![Tok::TRParen]);
            assert(T[i].1 == Tok::TLParen);
            assert(T[iop].1 == op_token(op));
            assert(T[irp].1 == Tok::TRParen);
            lemma_expr_first_tok(*l);
            lemma_expr_first_tok(*r);
            lemma_toks_at_bounds(T, il, w2);
            lemma_toks_at_bounds(T, ir, w4);
            lemma_toks_at_bounds(T, irp, seq![Tok::TRParen]);
            // the left operand, at the level just above the operator's
            if lv == 5 {
                lemma_primary_exact(T, eof, il, *l);
                lemma_primary_exact(T, eof, ir, *r);
            } else {
                lemma_expr_exact(T, eof, il, lv + 1, *l);
                lemma_expr_exact(T, eof, ir, lv + 1, *r);
            }
            let inner = ExprView::EOp(Box::new(*l), op, Box::new(*r));
            assert(inner =~~= e);
            assert(s_parse_bin(T, eof, il, lv) == Result::<(ExprView, int), ParseErrView>::Ok(
                (e, irp),
            ));
            lemma_chain(T, eof, il, 0, lv, e, irp);
        },
        ExprView::ECall(name, args) => {
            let wa = args_toks(args);
            let ia = i + 2;
            assert(w =~= seq![Tok::TIdent(name), Tok::TLParen] + (wa + seq![Tok::TRParen]));
            lemma_toks_at_split(T, i, seq![Tok::TIdent(name), Tok::TLParen], wa + seq![
                Tok::TRParen,
            ]);
            lemma_toks_at_split(T, ia, wa, seq![Tok::TRParen]);
            lemma_toks_at_index(T, i, seq![Tok::TIdent(name), Tok::TLParen], 0);
            lemma_toks_at_index(T, i, seq![Tok::TIdent(name), Tok::TLParen], 1);
            assert(T[ia + wa.len()].1 == Tok::TRParen);
            if args.len() == 0 {
                assert(wa =~= Seq::<Tok>::empty());
                assert(T[i + 2].1 == Tok::TRParen);
                lemma_toks_at_bounds(T, ia + wa.len(), seq![Tok::TRParen]);
                assert(args =~= Seq::<ExprView>::empty());
                assert(ExprView::ECall(name, args) == e);
            } else {
                lemma_wf_exprs_index(args, 0);
                lemma_expr_first_tok(args[0]);
                lemma_toks_at_bounds(T, ia, wa);
                assert(T[ia].1 == wa[0]);
                assert(wa[0] == expr_toks(args[0])[0]);
                lemma_args_exact(T, eof, ia, args, Seq::empty());
                assert(Seq::<ExprView>::empty() + args =~= args);
            }
        },
        ExprView::EIf(f) => {
            lemma_if_exact(T, eof, i, e);
        },
    }
}

/// The serialized form of an `if`-expression parses back to itself.
proof fn lemma_if_exact(T: Toks, eof: int, i: int, e: ExprView)
    requires
        wf_expr(e),
        e is EIf,
        toks_at(T, i, expr_toks(e)),
        follow_ok(T, i + expr_toks(e).len(), 6),
    ensures
        s_parse_if(T, eof, i) == Result::<(ExprView, int), ParseErrView>::Ok(
            (e, i + expr_toks(e).len()),
        ),
    decreases e, 0int, 0int,
{
    reveal_with_fuel(s_parse_if, 2);
    reveal_with_fuel(s_parse_block, 2);
    lemma_toks_at_bounds(T, i, expr_toks(e));
    let f = *(e->EIf_0);
    let w = expr_toks(e);
    let j = i + w.len();
    let wc = expr_toks(*f.cond);
    let wt = block_toks(f.then_block);
    let ic = i + 1;
    let ilb = ic + wc.len();
    let ibl = ilb + 1;
    let irb = ibl + wt.len();
    let we = match f.else_block {
        Option::Some(b) => seq![Tok::TElse, Tok::TLBrace] + block_toks(b) + seq![Tok::TRBrace],
        Option::None => Seq::<Tok>::empty(),
    };
    assert(w =~= seq![Tok::TIf] + (wc + (seq![Tok::TLBrace] + (wt + (seq![Tok::TRBrace] + we)))));
    lemma_toks_at_split(T, i, seq![Tok::TIf], wc + (seq![Tok::TLBrace] + (wt + (seq![
        Tok::TRBrace,
    ] + we))));
    lemma_toks_at_split(T, ic, wc, seq![Tok::TLBrace] + (wt + (seq![Tok::TRBrace] + we)));
    lemma_toks_at_split(T, ilb, seq![Tok::TLBrace], wt + (seq![Tok::TRBrace] + we));
    lemma_toks_at_split(T, ibl, wt, seq![Tok::TRBrace] + we);
    lemma_toks_at_split(T, irb, seq![Tok::TRBrace], we);
    assert(T[i].1 == Tok::TIf);
    assert(T[ilb].1 == Tok::TLBrace);
    assert(T[irb].1 == Tok::TRBrace);
    lemma_expr_first_tok(*f.cond);
    lemma_toks_at_bounds(T, ic, wc);
    lemma_toks_at_bounds(T, ibl, wt);
    lemma_expr_exact(T, eof, ic, 0, *f.cond);
    lemma_block_exact(T, eof, ibl, f.then_block);
    match f.else_block {
        Option::None => {
            assert(we =~= Seq::<Tok>::empty());
            assert(j == irb + 1);
            let built = ExprView::EIf(
                Box::new(
                    IfView {
                        cond: Box::new(*f.cond),
                        then_block: f.then_block,
                        else_block: Option::None,
                    },
                ),
            );
            assert(built =~~= e);
        },
        Option::Some(b) => {
            let ielse = irb + 1;
            let iel = ielse + 2;
            let merb = iel + block_toks(b).len();
            assert(we =~= seq![Tok::TElse, Tok::TLBrace] + (block_toks(b) + seq![Tok::TRBrace]));
            lemma_toks_at_split(T, ielse, seq![Tok::TElse, Tok::TLBrace], block_toks(b) + seq![
                Tok::TRBrace,
            ]);
            lemma_toks_at_split(T, iel, block_toks(b), seq![Tok::TRBrace]);
            lemma_toks_at_index(T, ielse, seq![Tok::TElse, Tok::TLBrace], 0);
            lemma_toks_at_index(T, ielse, seq![Tok::TElse, Tok::TLBrace], 1);
            assert(T[merb].1 == Tok::TRBrace);
            lemma_toks_at_bounds(T, iel, block_toks(b));
            lemma_toks_at_bounds(T, merb, seq![Tok::TRBrace]);
            lemma_block_exact(T, eof, iel, b);
            let built = ExprView::EIf(
                Box::new(
                    IfView {
                        cond: Box::new(*f.cond),
                        then_block: f.then_block,
                        else_block: Option::Some(b),
                    },
                ),
            );
            assert(built =~~= e);
            assert(j == merb + 1);
        },
    }
}

/// The serialized form of an expression parses at any level, back to the
/// expression itself.
proof fn lemma_expr_exact(T: Toks, eof: int, i: int, lvl: int, e: ExprView)
    requires
        wf_expr(e),
        0 <= lvl <= 5,
        toks_at(T, i, expr_toks(e)),
        follow_ok(T, i + expr_toks(e).len(), lvl),
    ensures
        s_parse_bin(T, eof, i, lvl) == Result::<(ExprView, int), ParseErrView>::Ok(
            (e, i + expr_toks(e).len()),
        ),
    decreases e, 0int, 2int,
{
    reveal_with_fuel(s_parse_bin, 3);
    reveal_with_fuel(s_parse_bin_rest, 3);
    lemma_expr_first_tok(e);
    lemma_toks_at_bounds(T, i, expr_toks(e));
    lemma_primary_exact(T, eof, i, e);
    let j = i + expr_toks(e).len();
    assert(s_parse_bin(T, eof, i, 5) == Result::<(ExprView, int), ParseErrView>::Ok((e, j)));
    lemma_chain(T, eof, i, lvl, 5, e, j);
}

/// A serialized non-empty argument list parses back, up to and past its
/// closing parenthesis.
proof fn lemma_args_exact(T: Toks, eof: int, i: int, args: Seq<ExprView>, acc: Seq<ExprView>)
    requires
        args.len() >= 1,
        wf_exprs(args),
        toks_at(T, i, args_toks(args)),
        0 <= i + args_toks(args).len() < T.len(),
        T[i + args_toks(args).len()].1 is TRParen,
    ensures
        s_parse_args(T, eof, i, acc) == Result::<(Seq<ExprView>, int), ParseErrView>::Ok(
            (acc + args, i + args_toks(args).len() + 1),
        ),
    decreases args, 0int, 0int,
{
    reveal_with_fuel(s_parse_args, 2);
    let wa = args_toks(args);
    let jend = i + wa.len();
    lemma_wf_exprs_index(args, 0);
    lemma_toks_at_bounds(T, i, wa);
    if args.len() == 1 {
        assert(wa =~= expr_toks(args[0]));
        lemma_expr_exact(T, eof, i, 0, args[0]);
        assert(acc.push(args[0]) =~= acc + args);
    } else {
        let w0 = expr_toks(args[0]);
        let rest = args.drop_first();
        assert(wa =~= w0 + (seq![Tok::TComma] + args_toks(rest)));
        lemma_toks_at_split(T, i, w0, seq![Tok::TComma] + args_toks(rest));
        lemma_toks_at_split(T, i + w0.len(), seq![Tok::TComma], args_toks(rest));
        lemma_toks_at_bounds(T, i, w0);
        lemma_expr_first_tok(args[0]);
        assert(T[i + w0.len()].1 == Tok::TComma);
        lemma_expr_exact(T, eof, i, 0, args[0]);
        lemma_args_exact(T, eof, i + w0.len() + 1, rest, acc.push(args[0]));
        assert(acc.push(args[0]) + rest =~= acc + args);
    }
}

/// A serialized block parses back, given the closing brace that follows it.
proof fn lemma_block_exact(T: Toks, eof: int, i: int, b: BlockView)
    requires
        wf_block(b),
        toks_at(T, i, block_toks(b)),
        0 <= i + block_toks(b).len() < T.len(),
        T[i + block_toks(b).len()].1 is TRBrace,
    ensures
        s_parse_block(T, eof, i) == Result::<(BlockView, int), ParseErrView>::Ok(
            (b, i + block_toks(b).len()),
        ),
    decreases b, b.stmts.len() + 1, 0int,
{
    reveal_with_fuel(s_parse_block, 2);
    assert(b.stmts.skip(0) =~= b.stmts);
    lemma_block_rest_exact(T, eof, i, b, 0, Seq::empty());
    assert(Seq::<StmtView>::empty() + b.stmts =~= b.stmts);
    assert(BlockView { stmts: Seq::<StmtView>::empty() + b.stmts, expr: b.expr } =~~= b);
}

/// The remaining statements and the trailing expression of a serialized
/// block parse back onto the statements already taken.
proof fn lemma_block_rest_exact(
    T: Toks,
    eof: int,
    i: int,
    b: BlockView,
    k: int,
    acc: Seq<StmtView>,
)
    requires
        wf_block(b),
        0 <= k <= b.stmts.len(),
        toks_at(T, i, stmts_toks(b.stmts.skip(k)) + expr_toks(*b.expr)),
        0 <= i + stmts_toks(b.stmts.skip(k)).len() + expr_toks(*b.expr).len() < T.len(),
        T[i + stmts_toks(b.stmts.skip(k)).len() + expr_toks(*b.expr).len()].1 is TRBrace,
    ensures
        s_parse_block_rest(T, eof, i, acc) == Result::<(BlockView, int), ParseErrView>::Ok(
            (
                BlockView { stmts: acc + b.stmts.skip(k), expr: b.expr },
                i + stmts_toks(b.stmts.skip(k)).len() + expr_toks(*b.expr).len(),
            ),
        ),
    decreases b, b.stmts.len() - k, 0int,
{
    reveal_with_fuel(s_parse_block_rest, 2);
    reveal_with_fuel(s_parse_block_tail, 2);
    let ss = b.stmts.skip(k);
    let we = expr_toks(*b.expr);
    let j = i + stmts_toks(ss).len() + we.len();
    lemma_expr_first_tok(*b.expr);
    lemma_toks_at_bounds(T, i, stmts_toks(ss) + we);
    if k == b.stmts.len() {
        assert(ss =~= Seq::<StmtView>::empty());
        assert(stmts_toks(ss) =~= Seq::<Tok>::empty());
        assert(stmts_toks(ss) + we =~= we);
        lemma_expr_exact(T, eof, i, 0, *b.expr);
        // the lookahead never fires: a trailing expression that starts with
        // an identifier is a variable (the brace follows) or a call (a
        // parenthesis follows)
        lemma_toks_at_index(T, i, we, 0);
        if we.len() >= 2 {
            lemma_toks_at_index(T, i, we, 1);
        }
        assert(acc + ss =~= acc);
    } else {
        let stmt = b.stmts[k];
        lemma_wf_stmts_index(b.stmts, k);
        assert(b.stmts.skip(k)[0] == stmt);
        assert(ss.drop_first() =~= b.stmts.skip(k + 1));
        assert(stmts_toks(ss) =~= stmt_toks(stmt) + stmts_toks(b.stmts.skip(k + 1)));
        let wrest = stmts_toks(b.stmts.skip(k + 1)) + we;
        assert(stmts_toks(ss) + we =~= stmt_toks(stmt) + wrest);
        lemma_toks_at_split(T, i, stmt_toks(stmt), wrest);
        match stmt {
            StmtView::SAsgn(x, e1) => {
                let w1 = expr_toks(e1);
                assert(stmt_toks(stmt) =~= seq![Tok::TIdent(x), Tok::TEq] + (w1 + seq![
                    Tok::TSemi,
                ]));
                lemma_toks_at_split(T, i, seq![Tok::TIdent(x), Tok::TEq], w1 + seq![Tok::TSemi]);
                lemma_toks_at_split(T, i + 2, w1, seq![Tok::TSemi]);
                lemma_toks_at_index(T, i, seq![Tok::TIdent(x), Tok::TEq], 0);
                lemma_toks_at_index(T, i, seq![Tok::TIdent(x), Tok::TEq], 1);
                let js = i + 2 + w1.len();
                assert(T[js].1 == Tok::TSemi);
                lemma_expr_exact(T, eof, i + 2, 0, e1);
                lemma_block_rest_exact(T, eof, js + 1, b, k + 1, acc.push(stmt));
                assert(acc.push(stmt) + b.stmts.skip(k + 1) =~= acc + ss);
            },
            StmtView::SExpr(e1) => {
                let w1 = expr_toks(e1);
                assert(stmt_toks(stmt) =~= w1 + seq![Tok::TSemi]);
                assert(toks_at(T, i, (w1 + seq![Tok::TSemi]) + wrest));
                assert((w1 + seq![Tok::TSemi]) + wrest =~= w1 + (seq![Tok::TSemi] + wrest));
                lemma_toks_at_split(T, i, w1, seq![Tok::TSemi] + wrest);
                lemma_toks_at_split(T, i + w1.len(), seq![Tok::TSemi], wrest);
                let js = i + w1.len();
                assert(T[js].1 == Tok::TSemi);
                lemma_expr_first_tok(e1);
                lemma_toks_at_index(T, i, w1, 0);
                if w1.len() >= 2 {
                    lemma_toks_at_index(T, i, w1, 1);
                }
                lemma_expr_exact(T, eof, i, 0, e1);
                lemma_block_rest_exact(T, eof, js + 1, b, k + 1, acc.push(stmt));
                assert(acc.push(stmt) + b.stmts.skip(k + 1) =~= acc + ss);
            },
        }
    }
}

/// A serialized non-empty parameter list parses back, up to and past its
/// closing parenthesis.
proof fn lemma_params_exact(T: Toks, eof: int, i: int, params: Seq<VarView>, acc: Seq<VarView>)
    requires
        params.len() >= 1,
        forall|k: int| 0 <= k < params.len() ==> wf_param(params[k]),
        toks_at(T, i, params_toks(params)),
        0 <= i + params_toks(params).len() < T.len(),
        T[i + params_toks(params).len()].1 is TRParen,
    ensures
        s_parse_params(T, eof, i, acc) == Result::<(Seq<VarView>, int), ParseErrView>::Ok(
            (acc + params, i + params_toks(params).len() + 1),
        ),
    decreases params,
{
    reveal_with_fuel(s_parse_params, 2);
    lemma_toks_at_bounds(T, i, params_toks(params));
    let p0 = params[0];
    let head = seq![Tok::TIdent(p0.ident), Tok::TColon, type_tok(p0.value)];
    if params.len() == 1 {
        assert(params_toks(params) =~= head);
        lemma_toks_at_index(T, i, head, 0);
        lemma_toks_at_index(T, i, head, 1);
        lemma_toks_at_index(T, i, head, 2);
        assert(acc.push(p0) =~= acc + params);
        assert(VarView {
            ident: p0.ident,
            value: crate::ast::val_view(crate::ast::VarVal::spec_placeholder(param_dt(p0.value))),
        } =~~= p0);
    } else {
        let rest = params.drop_first();
        assert(params_toks(params) =~= (head + seq![Tok::TComma]) + params_toks(rest));
        assert((head + seq![Tok::TComma]) + params_toks(rest) =~= head + (seq![Tok::TComma]
            + params_toks(rest)));
        lemma_toks_at_split(T, i, head, seq![Tok::TComma] + params_toks(rest));
        lemma_toks_at_split(T, i + 3, seq![Tok::TComma], params_toks(rest));
        lemma_toks_at_index(T, i, head, 0);
        lemma_toks_at_index(T, i, head, 1);
        lemma_toks_at_index(T, i, head, 2);
        assert(T[i + 3].1 == Tok::TComma);
        assert(forall|k: int|
            0 <= k < rest.len() ==> rest[k] == params[k + 1] && wf_param(params[k + 1]));
        lemma_params_exact(T, eof, i + 4, rest, acc.push(p0));
        assert(VarView {
            ident: p0.ident,
            value: crate::ast::val_view(crate::ast::VarVal::spec_placeholder(param_dt(p0.value))),
        } =~~= p0);
        assert(acc.push(p0) + rest =~= acc + params);
    }
}

/// The declared type a placeholder value stands for.
pub open spec fn param_dt(v: ValView) -> crate::ast::DataType {
    match v {
        ValView::VBool(Option::None) => crate::ast::DataType::BOOL,
        ValView::VStr(Option::None) => crate::ast::DataType::STRING,
        _ => crate::ast::DataType::I32,
    }
}

/// A serialized function definition parses back.
proof fn lemma_fn_exact(T: Toks, eof: int, i: int, f: FnView)
    requires
        wf_fn(f),
        toks_at(T, i, fn_toks(f)),
    ensures
        s_parse_function(T, eof, i) == Result::<(FnView, int), ParseErrView>::Ok(
            (f, i + fn_toks(f).len()),
        ),
{

    let head = seq![Tok::TFn, Tok::TIdent(f.name), Tok::TLParen];
    let wp = params_toks(f.params);
    let wb = block_toks(f.body);
    let ip = i + 3;
    let irp = ip + wp.len();
    let ibl = irp + 2;
    let irb = ibl + wb.len();
    assert(fn_toks(f) =~= head + (wp + (seq![Tok::TRParen, Tok::TLBrace] + (wb + seq![
        Tok::TRBrace,
    ]))));
    lemma_toks_at_split(T, i, head, wp + (seq![Tok::TRParen, Tok::TLBrace] + (wb + seq![
        Tok::TRBrace,
    ])));
    lemma_toks_at_split(T, ip, wp, seq![Tok::TRParen, Tok::TLBrace] + (wb + seq![Tok::TRBrace]));
    lemma_toks_at_split(T, irp, seq![Tok::TRParen, Tok::TLBrace], wb + seq![Tok::TRBrace]);
    lemma_toks_at_split(T, ibl, wb, seq![Tok::TRBrace]);
    lemma_toks_at_index(T, i, head, 0);
    lemma_toks_at_index(T, i, head, 1);
    lemma_toks_at_index(T, i, head, 2);
    lemma_toks_at_index(T, irp, seq![Tok::TRParen, Tok::TLBrace], 0);
    lemma_toks_at_index(T, irp, seq![Tok::TRParen, Tok::TLBrace], 1);
    assert(T[irb].1 == Tok::TRBrace);
    lemma_toks_at_bounds(T, ibl, wb);
    lemma_toks_at_bounds(T, irb, seq![Tok::TRBrace]);
    lemma_block_exact(T, eof, ibl, f.body);
    if f.params.len() == 0 {
        assert(wp =~= Seq::<Tok>::empty());
        assert(T[i + 3].1 == Tok::TRParen);
        assert(FnView {
            params: Seq::<VarView>::empty(),
            name: f.name,
            body: f.body,
        } =~~= f);
    } else {
        assert(wp[0] == Tok::TIdent(f.params[0].ident));
        lemma_toks_at_index(T, ip, wp, 0);
        lemma_params_exact(T, eof, ip, f.params, Seq::empty());
        assert(Seq::<VarView>::empty() + f.params =~= f.params);
        assert(FnView { params: f.params, name: f.name, body: f.body } =~~= f);
    }
}

/// The remaining serialized definitions parse and fold onto those taken.
proof fn lemma_prog_rest_exact(T: Toks, eof: int, i: int, p: Seq<FnView>, k: int)
    requires
        wf_prog(p),
        0 <= k <= p.len(),
        toks_at(T, i, prog_toks(p.skip(k))),
        i + prog_toks(p.skip(k)).len() == T.len(),
    ensures
        s_parse_program_rest(T, eof, i, p.subrange(0, k)) == Result::<
            Seq<FnView>,
            ParseErrView,
        >::Ok(p),
    decreases p.len() - k,
{
    reveal_with_fuel(s_parse_program_rest, 2);
    if k == p.len() {
        assert(p.skip(k) =~= Seq::<FnView>::empty());
        assert(p.subrange(0, k) =~= p);
    } else {
        let f = p[k];
        assert(p.skip(k)[0] == f);
        assert(p.skip(k).drop_first() =~= p.skip(k + 1));
        assert(prog_toks(p.skip(k)) =~= fn_toks(f) + prog_toks(p.skip(k + 1)));
        lemma_toks_at_split(T, i, fn_toks(f), prog_toks(p.skip(k + 1)));
        lemma_toks_at_bounds(T, i, fn_toks(f));
        lemma_fn_exact(T, eof, i, f);
        assert(fn_toks(f).len() >= 1);
        crate::parser::lemma_upsert_absent(p.subrange(0, k), f);
        assert(p.subrange(0, k).push(f) =~= p.subrange(0, k + 1));
        lemma_prog_rest_exact(T, eof, i + fn_toks(f).len(), p, k + 1);
    }
}

// ---------------------------------------------------------------------------
// The serializer, to source text.
// ---------------------------------------------------------------------------

/// The decimal digit character of `d`.
pub open spec fn digit_char(d: nat) -> char {
    if d == 0 {
        '0'
    } else if d == 1 {
        '1'
    } else if d == 2 {
        '2'
    } else if d == 3 {
        '3'
    } else if d == 4 {
        '4'
    } else if d == 5 {
        '5'
    } else if d == 6 {
        '6'
    } else if d == 7 {
        '7'
    } else if d == 8 {
        '8'
    } else {
        '9'
    }
}

/// The decimal digits of `n`, most significant first.
pub open spec fn render_digits(n: nat) -> Seq<char>
    decreases n,
{
    if n < 10 {
        seq![digit_char(n)]
    } else {
        render_digits(n / 10).push(digit_char(n % 10))
    }
}

/// One token's source text.
pub open spec fn tok_text(t: Tok) -> Seq<char> {
    match t {
        Tok::TIdent(x) => x,
        Tok::TStr(s) => seq!['"'] + s + seq!['"'],
        Tok::TInt(n) => render_digits(n as nat),
        Tok::TIf => "if"@,
        Tok::TElse => "else"@,
        Tok::TFn => "fn"@,
        Tok::TI32 => "i32"@,
        Tok::TBool => "bool"@,
        Tok::TString => "String"@,
        Tok::TTrue => "true"@,
        Tok::TFalse => "false"@,
        Tok::TBang => seq!['!'],
        Tok::TBangEq => seq!['!', '='],
        Tok::TColon => seq![':'],
        Tok::TComma => seq![','],
        Tok::TEq => seq!['='],
        Tok::TEqEq => seq!['=', '='],
        Tok::TSlash => seq!['/'],
        Tok::TGt => seq!['>'],
        Tok::TGe => seq!['>', '='],
        Tok::TLt => seq!['<'],
        Tok::TLe => seq!['<', '='],
        Tok::TMinus => seq!['-'],
        Tok::TPlus => seq!['+'],
        Tok::TSemi => seq![';'],
        Tok::TStar => seq!['*'],
        Tok::TPercent => seq!['%'],
        Tok::TAndAnd => seq!['&', '&'],
        Tok::TOrOr => seq!['|', '|'],
        Tok::TLParen => seq!['('],
        Tok::TRParen => seq![')'],
        Tok::TLBrace => seq!['{'],
        Tok::TRBrace => seq!['}'],
    }
}

/// A token stream's source text: the tokens' texts, one space between.
pub open spec fn toks_text(ts: Seq<Tok>) -> Seq<char>
    decreases ts,
{
    if ts.len() == 0 {
        Seq::empty()
    } else if ts.len() == 1 {
        tok_text(ts[0])
    } else {
        tok_text(ts[0]) + seq![' '] + toks_text(ts.drop_first())
    }
}

/// A program's source text.
pub open spec fn prog_text(p: Seq<FnView>) -> Seq<char> {
    toks_text(prog_toks(p))
}

/// A token the lexer reads back exactly: identifiers are valid names, string
/// literals hold no quote, integer literals are non-negative.
pub open spec fn wf_tok(t: Tok) -> bool {
    match t {
        Tok::TIdent(x) => valid_ident(x),
        Tok::TStr(s) => forall|k: int| 0 <= k < s.len() ==> s[k] != '"',
        Tok::TInt(n) => n >= 0,
        _ => true,
    }
}

/// Every token of the stream is read back exactly.
pub open spec fn all_wf_toks(ts: Seq<Tok>) -> bool {
    forall|k: int| 0 <= k < ts.len() ==> wf_tok(#[trigger] ts[k])
}

// ---------------------------------------------------------------------------
// Lexing a serialized stream.
// ---------------------------------------------------------------------------

/// The characters at `i` spell out `w`.
pub open spec fn chars_at(s: Seq<char>, i: int, w: Seq<char>) -> bool
    decreases w,
{
    if w.len() == 0 {
        0 <= i <= s.len()
    } else {
        0 <= i < s.len() && s[i] == w[0] && chars_at(s, i + 1, w.drop_first())
    }
}

proof fn lemma_chars_at_split(s: Seq<char>, i: int, w1: Seq<char>, w2: Seq<char>)
    ensures
        chars_at(s, i, w1 + w2) <==> (chars_at(s, i, w1) && chars_at(s, i + w1.len(), w2)),
    decreases w1,
{
    if w1.len() == 0 {
        assert(w1 + w2 =~= w2);
    } else {
        assert((w1 + w2).drop_first() =~= w1.drop_first() + w2);
        lemma_chars_at_split(s, i + 1, w1.drop_first(), w2);
    }
}

proof fn lemma_chars_at_index(s: Seq<char>, i: int, w: Seq<char>, k: int)
    requires
        chars_at(s, i, w),
        0 <= k < w.len(),
    ensures
        0 <= i + k < s.len(),
        s[i + k] == w[k],
    decreases k,
{
    if k > 0 {
        lemma_chars_at_index(s, i + 1, w.drop_first(), k - 1);
    }
}

proof fn lemma_chars_at_bounds(s: Seq<char>, i: int, w: Seq<char>)
    requires
        chars_at(s, i, w),
    ensures
        0 <= i,
        i + w.len() <= s.len(),
    decreases w,
{
    if w.len() > 0 {
        lemma_chars_at_bounds(s, i + 1, w.drop_first());
    }
}

/// The spelled-out characters are the subrange.
proof fn lemma_chars_at_subrange(s: Seq<char>, i: int, w: Seq<char>)
    requires
        chars_at(s, i, w),
    ensures
        s.subrange(i, i + w.len()) =~= w,
{
    lemma_chars_at_bounds(s, i, w);
    assert forall|k: int| 0 <= k < w.len() implies s.subrange(i, i + w.len())[k] == w[k] by {
        lemma_chars_at_index(s, i, w, k);
    }
}

/// A scan ends exactly where its class first fails.
proof fn lemma_take_while_exact(s: Seq<char>, from: int, e: int, class: crate::lexer::CharClass)
    requires
        0 <= from <= e <= s.len(),
        forall|j: int| from <= j < e ==> crate::lexer::class_holds(class, s[j]),
        e == s.len() || !crate::lexer::class_holds(class, s[e]),
    ensures
        crate::lexer::take_while_end(s, from, class) == e,
    decreases e - from,
{
    if from < e {
        lemma_take_while_exact(s, from + 1, e, class);
    }
}

/// The rendered digits read back as the number.
proof fn lemma_render_digits(n: nat)
    ensures
        render_digits(n).len() >= 1,
        forall|k: int|
            0 <= k < render_digits(n).len() ==> crate::lexer::is_digit_char(
                #[trigger] render_digits(n)[k],
            ),
        crate::lexer::digits_val(render_digits(n)) == n,
    decreases n,
{
    if n < 10 {
        let w = render_digits(n);
        assert(w.drop_last() =~= Seq::<char>::empty());
        assert(crate::lexer::digits_val(w.drop_last()) == 0);
        assert(w.last() == digit_char(n));
    } else {
        lemma_render_digits(n / 10);
        let w = render_digits(n);
        assert(w.drop_last() =~= render_digits(n / 10));
        assert(w.last() == digit_char(n % 10));
        assert(crate::lexer::digits_val(w) == (n / 10) * 10 + (n % 10));
        vstd::arithmetic::div_mod::lemma_fundamental_div_mod(n as int, 10);
    }
}

/// Lexing at one serialized token yields that token, ending and resuming
/// right after its text (a space or the end of the input follows).
proof fn lemma_next_tok(s: Seq<char>, pos: int, t: Tok)
    requires
        wf_tok(t),
        chars_at(s, pos, tok_text(t)),
        pos + tok_text(t).len() == s.len() || s[pos + tok_text(t).len()] == ' ',
    ensures
        tok_text(t).len() >= 1,
        crate::lexer::s_next(s, pos) == (crate::lexer::LexNext::Next {
            start: pos,
            tok: t,
            end: pos + tok_text(t).len(),
            resume: pos + tok_text(t).len(),
        }),
{
    reveal_strlit("if");
    reveal_strlit("else");
    reveal_strlit("fn");
    reveal_strlit("i32");
    reveal_strlit("bool");
    reveal_strlit("String");
    reveal_strlit("true");
    reveal_strlit("false");
    let w = tok_text(t);
    let e = pos + w.len();
    lemma_chars_at_bounds(s, pos, w);
    match t {
        Tok::TIdent(x) => {
            lemma_chars_at_index(s, pos, w, 0);
            assert forall|j: int| pos <= j < e implies crate::lexer::class_holds(
                crate::lexer::CharClass::IdentContinue,
                s[j],
            ) by {
                lemma_chars_at_index(s, pos, w, j - pos);
            }
            lemma_take_while_exact(s, pos, e, crate::lexer::CharClass::IdentContinue);
            lemma_chars_at_subrange(s, pos, w);
            assert(crate::lexer::s_keyword(x) == Tok::TIdent(x));
        },
        Tok::TStr(cs) => {
            assert(w =~= seq!['"'] + (cs + seq!['"']));
            lemma_chars_at_split(s, pos, seq!['"'], cs + seq!['"']);
            lemma_chars_at_split(s, pos + 1, cs, seq!['"']);
            lemma_chars_at_index(s, pos, w, 0);
            let ce = pos + 1 + cs.len();
            lemma_chars_at_index(s, ce, seq!['"'], 0);
            assert forall|j: int| pos + 1 <= j < ce implies crate::lexer::class_holds(
                crate::lexer::CharClass::NotQuote,
                s[j],
            ) by {
                lemma_chars_at_index(s, pos + 1, cs, j - (pos + 1));
            }
            lemma_take_while_exact(s, pos + 1, ce, crate::lexer::CharClass::NotQuote);
            lemma_chars_at_subrange(s, pos + 1, cs);
        },
        Tok::TInt(n) => {
            lemma_render_digits(n as nat);
            lemma_chars_at_index(s, pos, w, 0);
            assert forall|j: int| pos <= j < e implies crate::lexer::class_holds(
                crate::lexer::CharClass::Digits,
                s[j],
            ) by {
                lemma_chars_at_index(s, pos, w, j - pos);
            }
            lemma_take_while_exact(s, pos, e, crate::lexer::CharClass::Digits);
            lemma_chars_at_subrange(s, pos, w);
            assert(crate::lexer::digits_val(s.subrange(pos, e)) == n);
        },
        Tok::TIf => {
            lemma_keyword_tok(s, pos, "if"@);
        },
        Tok::TElse => {
            lemma_keyword_tok(s, pos, "else"@);
        },
        Tok::TFn => {
            lemma_keyword_tok(s, pos, "fn"@);
        },
        Tok::TI32 => {
            lemma_keyword_tok(s, pos, "i32"@);
        },
        Tok::TBool => {
            lemma_keyword_tok(s, pos, "bool"@);
        },
        Tok::TString => {
            lemma_keyword_tok(s, pos, "String"@);
        },
        Tok::TTrue => {
            lemma_keyword_tok(s, pos, "true"@);
        },
        Tok::TFalse => {
            lemma_keyword_tok(s, pos, "false"@);
        },
        Tok::TLParen => {
            lemma_chars_at_index(s, pos, w, 0);
        },
        Tok::TRParen => {
            lemma_chars_at_index(s, pos, w, 0);
        },
        Tok::TLBrace => {
            lemma_chars_at_index(s, pos, w, 0);
        },
        Tok::TRBrace => {
            lemma_chars_at_index(s, pos, w, 0);
        },
        _ => {
            // a symbol run
            lemma_symbol_tok(s, pos, t);
        },
    }
}

/// Lexing at a serialized keyword yields its keyword token. The caller has
/// revealed the keyword literals.
proof fn lemma_keyword_tok(s: Seq<char>, pos: int, x: Seq<char>)
    requires
        x == "if"@ || x == "else"@ || x == "fn"@ || x == "i32"@ || x == "bool"@ || x == "String"@
            || x == "true"@ || x == "false"@,
        chars_at(s, pos, x),
        pos + x.len() == s.len() || s[pos + x.len()] == ' ',
    ensures
        crate::lexer::take_while_end(s, pos, crate::lexer::CharClass::IdentContinue) == pos
            + x.len(),
        s.subrange(pos, pos + x.len()) =~= x,
        0 <= pos < s.len(),
        crate::lexer::is_ident_start_char(s[pos]),
        !crate::lexer::is_symbol_char(s[pos]),
        !crate::lexer::is_digit_char(s[pos]),
        s[pos] != '(' && s[pos] != ')' && s[pos] != '{' && s[pos] != '}' && s[pos] != '"',
{
    reveal_strlit("if");
    reveal_strlit("else");
    reveal_strlit("fn");
    reveal_strlit("i32");
    reveal_strlit("bool");
    reveal_strlit("String");
    reveal_strlit("true");
    reveal_strlit("false");
    let e = pos + x.len();
    lemma_chars_at_bounds(s, pos, x);
    lemma_chars_at_index(s, pos, x, 0);
    assert forall|j: int| pos <= j < e implies crate::lexer::class_holds(
        crate::lexer::CharClass::IdentContinue,
        s[j],
    ) by {
        lemma_chars_at_index(s, pos, x, j - pos);
    }
    lemma_take_while_exact(s, pos, e, crate::lexer::CharClass::IdentContinue);
    lemma_chars_at_subrange(s, pos, x);
}

/// Lexing at a serialized operator symbol yields its token.
proof fn lemma_symbol_tok(s: Seq<char>, pos: int, t: Tok)
    requires
        t is TBang || t is TBangEq || t is TColon || t is TComma || t is TEq || t is TEqEq || t
            is TSlash || t is TGt || t is TGe || t is TLt || t is TLe || t is TMinus || t is TPlus
            || t is TSemi || t is TStar || t is TPercent || t is TAndAnd || t is TOrOr,
        chars_at(s, pos, tok_text(t)),
        pos + tok_text(t).len() == s.len() || s[pos + tok_text(t).len()] == ' ',
    ensures
        crate::lexer::s_next(s, pos) == (crate::lexer::LexNext::Next {
            start: pos,
            tok: t,
            end: pos + tok_text(t).len(),
            resume: pos + tok_text(t).len(),
        }),
{
    let w = tok_text(t);
    let e = pos + w.len();
    lemma_chars_at_bounds(s, pos, w);
    lemma_chars_at_index(s, pos, w, 0);
    if w.len() >= 2 {
        lemma_chars_at_index(s, pos, w, 1);
    }
    assert forall|j: int| pos <= j < e implies crate::lexer::class_holds(
        crate::lexer::CharClass::Symbols,
        s[j],
    ) by {
        lemma_chars_at_index(s, pos, w, j - pos);
    }
    lemma_take_while_exact(s, pos, e, crate::lexer::CharClass::Symbols);
    lemma_chars_at_subrange(s, pos, w);
    let run = s.subrange(pos, e);
    assert(run =~= w);
    assert(crate::lexer::s_symbol_tok(run) == Option::Some(t));
}

/// Lexing skips a separating space.
proof fn lemma_lex_space(s: Seq<char>, q: int)
    requires
        0 <= q < s.len(),
        s[q] == ' ',
    ensures
        crate::lexer::s_tokens(s, q) == crate::lexer::s_tokens(s, q + 1),
{
    assert(crate::lexer::s_next(s, q) == crate::lexer::s_next(s, q + 1));
    crate::lexer::lemma_s_next_progress(s, q + 1);
    match crate::lexer::s_next(s, q + 1) {
        crate::lexer::LexNext::Next { start, tok, end, resume } => {
            assert(q < resume <= s.len());
        },
        _ => {},
    }
}

/// Lexing a serialized token stream that fills the rest of the input yields
/// exactly those tokens.
proof fn lemma_lex_all(s: Seq<char>, pos: int, ts: Seq<Tok>)
    requires
        all_wf_toks(ts),
        chars_at(s, pos, toks_text(ts)),
        pos + toks_text(ts).len() == s.len(),
    ensures
        crate::lexer::s_tokens(s, pos) matches Result::Ok(trs) && trs.len() == ts.len() && (forall|
            k: int,
        | 0 <= k < ts.len() ==> #[trigger] trs[k].1 == ts[k]),
    decreases ts,
{
    if ts.len() == 0 {
        assert(pos == s.len());
        assert(crate::lexer::s_tokens(s, pos) == Result::<Seq<(int, Tok, int)>, crate::lexer::Error>::Ok(
            Seq::empty(),
        ));
    } else if ts.len() == 1 {
        let t = ts[0];
        assert(wf_tok(t));
        assert(toks_text(ts) == tok_text(t));
        lemma_next_tok(s, pos, t);
        let e = pos + tok_text(t).len();
        assert(e == s.len());
        assert(crate::lexer::s_tokens(s, e) == Result::<Seq<(int, Tok, int)>, crate::lexer::Error>::Ok(
            Seq::empty(),
        ));
        let trs = seq![(pos, t, e)] + Seq::<(int, Tok, int)>::empty();
        assert(crate::lexer::s_tokens(s, pos) == Result::<Seq<(int, Tok, int)>, crate::lexer::Error>::Ok(
            trs,
        ));
        assert(trs =~= seq![(pos, t, e)]);
        assert(trs[0].1 == t);
    } else {
        let t = ts[0];
        let rest = ts.drop_first();
        assert(wf_tok(t));
        assert(all_wf_toks(rest));
        assert(toks_text(ts) == tok_text(t) + seq![' '] + toks_text(rest));
        assert((tok_text(t) + seq![' ']) + toks_text(rest) =~= tok_text(t) + (seq![' ']
            + toks_text(rest)));
        lemma_chars_at_split(s, pos, tok_text(t), seq![' '] + toks_text(rest));
        let e = pos + tok_text(t).len();
        lemma_chars_at_split(s, e, seq![' '], toks_text(rest));
        lemma_chars_at_index(s, e, seq![' '], 0);
        lemma_next_tok(s, pos, t);
        lemma_lex_space(s, e);
        lemma_lex_all(s, e + 1, rest);
        match crate::lexer::s_tokens(s, e + 1) {
            Result::Ok(rtrs) => {
                let trs = seq![(pos, t, e)] + rtrs;
                assert(crate::lexer::s_tokens(s, pos) == Result::<
                    Seq<(int, Tok, int)>,
                    crate::lexer::Error,
                >::Ok(trs));
                assert forall|k: int| 0 <= k < ts.len() implies #[trigger] trs[k].1 == ts[k] by {
                    if k > 0 {
                        assert(trs[k] == rtrs[k - 1]);
                        assert(rest[k - 1] == ts[k]);
                    }
                }
            },
            Result::Err(err) => {
                assert(false);
            },
        }
    }
}

// ---------------------------------------------------------------------------
// Well-formed trees serialize to well-formed tokens.
// ---------------------------------------------------------------------------

proof fn lemma_all_wf_concat(a: Seq<Tok>, b: Seq<Tok>)
    requires
        all_wf_toks(a),
        all_wf_toks(b),
    ensures
        all_wf_toks(a + b),
{
    assert forall|k: int| 0 <= k < (a + b).len() implies wf_tok(#[trigger] (a + b)[k]) by {
        if k < a.len() {
            assert((a + b)[k] == a[k]);
        } else {
            assert((a + b)[k] == b[k - a.len()]);
        }
    }
}

proof fn lemma_expr_toks_wf(e: ExprView)
    requires
        wf_expr(e),
    ensures
        all_wf_toks(expr_toks(e)),
    decreases e, 0int, 1int,
{
    match e {
        ExprView::EVar(x) => {},
        ExprView::EVal(v) => {},
        ExprView::EOp(l, op, r) => {
            lemma_expr_toks_wf(*l);
            lemma_expr_toks_wf(*r);
            lemma_all_wf_concat(seq![Tok::TLParen], expr_toks(*l));
            lemma_all_wf_concat(seq![Tok::TLParen] + expr_toks(*l), seq![op_token(op)]);
            lemma_all_wf_concat(
                seq![Tok::TLParen] + expr_toks(*l) + seq![op_token(op)],
                expr_toks(*r),
            );
            lemma_all_wf_concat(
                seq![Tok::TLParen] + expr_toks(*l) + seq![op_token(op)] + expr_toks(*r),
                seq![Tok::TRParen],
            );
        },
        ExprView::ECall(name, args) => {
            lemma_args_toks_wf(args);
            lemma_all_wf_concat(seq![Tok::TIdent(name), Tok::TLParen], args_toks(args));
            lemma_all_wf_concat(
                seq![Tok::TIdent(name), Tok::TLParen] + args_toks(args),
                seq![Tok::TRParen],
            );
        },
        ExprView::EIf(f) => {
            lemma_expr_toks_wf(*f.cond);
            lemma_block_toks_wf(f.then_block);
            let head = seq![Tok::TIf] + expr_toks(*f.cond) + seq![Tok::TLBrace] + block_toks(
                f.then_block,
            ) + seq![Tok::TRBrace];
            lemma_all_wf_concat(seq![Tok::TIf], expr_toks(*f.cond));
            lemma_all_wf_concat(seq![Tok::TIf] + expr_toks(*f.cond), seq![Tok::TLBrace]);
            lemma_all_wf_concat(
                seq![Tok::TIf] + expr_toks(*f.cond) + seq![Tok::TLBrace],
                block_toks(f.then_block),
            );
            lemma_all_wf_concat(
                seq![Tok::TIf] + expr_toks(*f.cond) + seq![Tok::TLBrace] + block_toks(
                    f.then_block,
                ),
                seq![Tok::TRBrace],
            );
            match f.else_block {
                Option::Some(b) => {
                    lemma_block_toks_wf(b);
                    lemma_all_wf_concat(seq![Tok::TElse, Tok::TLBrace], block_toks(b));
                    lemma_all_wf_concat(
                        seq![Tok::TElse, Tok::TLBrace] + block_toks(b),
                        seq![Tok::TRBrace],
                    );
                    lemma_all_wf_concat(
                        head,
                        seq![Tok::TElse, Tok::TLBrace] + block_toks(b) + seq![Tok::TRBrace],
                    );
                },
                Option::None => {
                    lemma_all_wf_concat(head, Seq::empty());
                    assert(head + Seq::<Tok>::empty() =~= expr_toks(e));
                },
            }
        },
    }
}

proof fn lemma_args_toks_wf(args: Seq<ExprView>)
    requires
        wf_exprs(args),
    ensures
        all_wf_toks(args_toks(args)),
    decreases args, 0int, 0int,
{
    if args.len() == 0 {
    } else if args.len() == 1 {
        lemma_expr_toks_wf(args[0]);
    } else {
        lemma_expr_toks_wf(args[0]);
        lemma_args_toks_wf(args.drop_first());
        lemma_all_wf_concat(expr_toks(args[0]), seq![Tok::TComma]);
        lemma_all_wf_concat(expr_toks(args[0]) + seq![Tok::TComma], args_toks(args.drop_first()));
    }
}

proof fn lemma_stmts_toks_wf(ss: Seq<StmtView>)
    requires
        wf_stmts(ss),
    ensures
        all_wf_toks(stmts_toks(ss)),
    decreases ss, 0int, 0int,
{
    reveal_with_fuel(wf_stmts, 2);
    reveal_with_fuel(wf_stmt, 2);
    if ss.len() > 0 {
        lemma_stmts_toks_wf(ss.drop_first());
        match ss[0] {
            StmtView::SExpr(e) => {
                lemma_expr_toks_wf(e);
                lemma_all_wf_concat(expr_toks(e), seq![Tok::TSemi]);
            },
            StmtView::SAsgn(x, e) => {
                lemma_expr_toks_wf(e);
                lemma_all_wf_concat(seq![Tok::TIdent(x), Tok::TEq], expr_toks(e));
                lemma_all_wf_concat(
                    seq![Tok::TIdent(x), Tok::TEq] + expr_toks(e),
                    seq![Tok::TSemi],
                );
            },
        }
        lemma_all_wf_concat(stmt_toks(ss[0]), stmts_toks(ss.drop_first()));
    }
}

proof fn lemma_block_toks_wf(b: BlockView)
    requires
        wf_block(b),
    ensures
        all_wf_toks(block_toks(b)),
    decreases b, 0int, 0int,
{
    lemma_stmts_toks_wf(b.stmts);
    lemma_expr_toks_wf(*b.expr);
    lemma_all_wf_concat(stmts_toks(b.stmts), expr_toks(*b.expr));
}

proof fn lemma_params_toks_wf(params: Seq<VarView>)
    requires
        forall|k: int| 0 <= k < params.len() ==> wf_param(params[k]),
    ensures
        all_wf_toks(params_toks(params)),
    decreases params,
{
    if params.len() == 0 {
    } else if params.len() == 1 {
    } else {
        lemma_params_toks_wf(params.drop_first());
        lemma_all_wf_concat(
            seq![Tok::TIdent(params[0].ident), Tok::TColon, type_tok(params[0].value), Tok::TComma],
            params_toks(params.drop_first()),
        );
    }
}

proof fn lemma_fn_toks_wf(f: FnView)
    requires
        wf_fn(f),
    ensures
        all_wf_toks(fn_toks(f)),
{
    lemma_params_toks_wf(f.params);
    lemma_block_toks_wf(f.body);
    lemma_all_wf_concat(seq![Tok::TFn, Tok::TIdent(f.name), Tok::TLParen], params_toks(f.params));
    lemma_all_wf_concat(
        seq![Tok::TFn, Tok::TIdent(f.name), Tok::TLParen] + params_toks(f.params),
        seq![Tok::TRParen, Tok::TLBrace],
    );
    lemma_all_wf_concat(
        seq![Tok::TFn, Tok::TIdent(f.name), Tok::TLParen] + params_toks(f.params) + seq![
            Tok::TRParen,
            Tok::TLBrace,
        ],
        block_toks(f.body),
    );
    lemma_all_wf_concat(
        seq![Tok::TFn, Tok::TIdent(f.name), Tok::TLParen] + params_toks(f.params) + seq![
            Tok::TRParen,
            Tok::TLBrace,
        ] + block_toks(f.body),
        seq![Tok::TRBrace],
    );
}

proof fn lemma_prog_toks_wf(p: Seq<FnView>)
    requires
        wf_prog(p),
    ensures
        all_wf_toks(prog_toks(p)),
    decreases p,
{
    if p.len() > 0 {
        lemma_fn_toks_wf(p[0]);
        assert(wf_prog(p.drop_first())) by {
            assert(forall|k: int|
                0 <= k < p.drop_first().len() ==> p.drop_first()[k] == p[k + 1]);
        }
        lemma_prog_toks_wf(p.drop_first());
        lemma_all_wf_concat(fn_toks(p[0]), prog_toks(p.drop_first()));
    }
}

/// Token kinds matching makes `toks_at` hold.
proof fn lemma_kinds_toks_at(T: Toks, i: int, w: Seq<Tok>)
    requires
        0 <= i,
        i + w.len() <= T.len(),
        forall|k: int| 0 <= k < w.len() ==> T[i + k].1 == w[k],
    ensures
        toks_at(T, i, w),
    decreases w,
{
    if w.len() > 0 {
        assert(T[i].1 == w[0]);
        assert forall|k: int| 0 <= k < w.drop_first().len() implies T[i + 1 + k].1
            == w.drop_first()[k] by {
            assert(T[i + (k + 1)].1 == w[k + 1]);
        }
        lemma_kinds_toks_at(T, i + 1, w.drop_first());
    }
}

/// The grammar round trip, through source text: parsing the serialized
/// source of a well-formed program yields a structurally equal program back.
pub proof fn lemma_source_round_trip(p: Seq<FnView>)
    requires
        wf_prog(p),
    ensures
        crate::parser::s_parse(prog_text(p)) == Result::<Seq<FnView>, ParseErrView>::Ok(p),
{
    let text = prog_text(p);
    lemma_prog_toks_wf(p);
    assert(chars_at(text, 0, toks_text(prog_toks(p)))) by {
        lemma_chars_at_refl(text);
    }
    lemma_lex_all(text, 0, prog_toks(p));
    match crate::lexer::s_tokens(text, 0) {
        Result::Ok(trs) => {
            assert forall|k: int| 0 <= k < prog_toks(p).len() implies trs[0 + k].1
                == prog_toks(p)[k] by {
                assert(trs[k].1 == prog_toks(p)[k]);
            }
            lemma_kinds_toks_at(trs, 0, prog_toks(p));
            lemma_parse_print_round_trip(p, trs, text.len() as int);
        },
        Result::Err(err) => {
            assert(false);
        },
    }
}

/// A sequence spells itself out at its start.
proof fn lemma_chars_at_refl(s: Seq<char>)
    ensures
        chars_at(s, 0, s),
{
    lemma_chars_at_from(s, 0);
    assert(s.skip(0) =~= s);
}

proof fn lemma_chars_at_from(s: Seq<char>, i: int)
    requires
        0 <= i <= s.len(),
    ensures
        chars_at(s, i, s.skip(i)),
    decreases s.len() - i,
{
    if i < s.len() {
        lemma_chars_at_from(s, i + 1);
        assert(s.skip(i).drop_first() =~= s.skip(i + 1));
        assert(s.skip(i)[0] == s[i]);
    } else {
        assert(s.skip(i) =~= Seq::<char>::empty());
    }
}

// ---------------------------------------------------------------------------
// The executable serializer.
// ---------------------------------------------------------------------------

/// What the single-character and keyword literals spell.
proof fn lemma_lit_views()
    ensures
        "("@ =~= seq!['('],
        ")"@ =~= seq![')'],
        "{"@ =~= seq!['{'],
        "}"@ =~= seq!['}'],
        ","@ =~= seq![','],
        ";"@ =~= seq![';'],
        ":"@ =~= seq![':'],
        "="@ =~= seq!['='],
        "=="@ =~= seq!['=', '='],
        "!="@ =~= seq!['!', '='],
        "<"@ =~= seq!['<'],
        "<="@ =~= seq!['<', '='],
        ">"@ =~= seq!['>'],
        ">="@ =~= seq!['>', '='],
        "+"@ =~= seq!['+'],
        "-"@ =~= seq!['-'],
        "*"@ =~= seq!['*'],
        "/"@ =~= seq!['/'],
        "%"@ =~= seq!['%'],
        "&&"@ =~= seq!['&', '&'],
        "||"@ =~= seq!['|', '|'],
        "\""@ =~= seq!['"'],
        " "@ =~= seq![' '],
        "0"@ =~= seq!['0'],
        "1"@ =~= seq!['1'],
        "2"@ =~= seq!['2'],
        "3"@ =~= seq!['3'],
        "4"@ =~= seq!['4'],
        "5"@ =~= seq!['5'],
        "6"@ =~= seq!['6'],
        "7"@ =~= seq!['7'],
        "8"@ =~= seq!['8'],
        "9"@ =~= seq!['9'],
{
    reveal_strlit("(");
    reveal_strlit(")");
    reveal_strlit("{");
    reveal_strlit("}");
    reveal_strlit(",");
    reveal_strlit(";");
    reveal_strlit(":");
    reveal_strlit("=");
    reveal_strlit("==");
    reveal_strlit("!=");
    reveal_strlit("<");
    reveal_strlit("<=");
    reveal_strlit(">");
    reveal_strlit(">=");
    reveal_strlit("+");
    reveal_strlit("-");
    reveal_strlit("*");
    reveal_strlit("/");
    reveal_strlit("%");
    reveal_strlit("&&");
    reveal_strlit("||");
    reveal_strlit("\"");
    reveal_strlit(" ");
    reveal_strlit("0");
    reveal_strlit("1");
    reveal_strlit("2");
    reveal_strlit("3");
    reveal_strlit("4");
    reveal_strlit("5");
    reveal_strlit("6");
    reveal_strlit("7");
    reveal_strlit("8");
    reveal_strlit("9");
}

/// Two serialized chunks join with one space.
proof fn lemma_toks_text_concat(a: Seq<Tok>, b: Seq<Tok>)
    requires
        a.len() >= 1,
        b.len() >= 1,
    ensures
        toks_text(a + b) == toks_text(a) + seq![' '] + toks_text(b),
    decreases a,
{
    if a.len() == 1 {
        assert((a + b)[0] == a[0]);
        assert((a + b).drop_first() =~= b);
    } else {
        assert((a + b)[0] == a[0]);
        assert((a + b).drop_first() =~= a.drop_first() + b);
        lemma_toks_text_concat(a.drop_first(), b);
        assert(toks_text(a + b) =~= toks_text(a) + seq![' '] + toks_text(b));
    }
}

proof fn lemma_args_toks_push(es: Seq<ExprView>, x: ExprView)
    ensures
        args_toks(es.push(x)) == if es.len() == 0 {
            expr_toks(x)
        } else {
            args_toks(es) + seq![Tok::TComma] + expr_toks(x)
        },
    decreases es,
{
    let w = es.push(x);
    if es.len() == 0 {
        assert(w.len() == 1);
        assert(w[0] == x);
    } else {
        assert(w[0] == es[0]);
        assert(w.drop_first() =~= es.drop_first().push(x));
        lemma_args_toks_push(es.drop_first(), x);
        if es.len() == 1 {
            assert(args_toks(w) =~= args_toks(es) + seq![Tok::TComma] + expr_toks(x));
        } else {
            assert(args_toks(w) =~= args_toks(es) + seq![Tok::TComma] + expr_toks(x));
        }
    }
}

proof fn lemma_stmts_toks_push(ss: Seq<StmtView>, s: StmtView)
    ensures
        stmts_toks(ss.push(s)) == stmts_toks(ss) + stmt_toks(s),
    decreases ss,
{
    let w = ss.push(s);
    if ss.len() == 0 {
        assert(w[0] == s);
        assert(w.drop_first() =~= Seq::<StmtView>::empty());
        assert(stmts_toks(w.drop_first()) == Seq::<Tok>::empty());
        assert(stmts_toks(w) == stmt_toks(s) + stmts_toks(w.drop_first()));
        assert(stmts_toks(w) =~= stmts_toks(ss) + stmt_toks(s));
    } else {
        assert(w[0] == ss[0]);
        assert(w.drop_first() =~= ss.drop_first().push(s));
        lemma_stmts_toks_push(ss.drop_first(), s);
        assert(stmts_toks(w) == stmt_toks(ss[0]) + stmts_toks(w.drop_first()));
        assert(stmts_toks(ss) == stmt_toks(ss[0]) + stmts_toks(ss.drop_first()));
        assert((stmt_toks(ss[0]) + stmts_toks(ss.drop_first())) + stmt_toks(s) =~= stmt_toks(
            ss[0],
        ) + (stmts_toks(ss.drop_first()) + stmt_toks(s)));
        assert(stmts_toks(w) =~= stmts_toks(ss) + stmt_toks(s));
    }
}

proof fn lemma_params_toks_push(ps: Seq<VarView>, x: VarView)
    ensures
        params_toks(ps.push(x)) == if ps.len() == 0 {
            seq![Tok::TIdent(x.ident), Tok::TColon, type_tok(x.value)]
        } else {
            params_toks(ps) + seq![Tok::TComma] + seq![
                Tok::TIdent(x.ident),
                Tok::TColon,
                type_tok(x.value),
            ]
        },
    decreases ps,
{
    let w = ps.push(x);
    if ps.len() == 0 {
        assert(w[0] == x);
    } else {
        assert(w[0] == ps[0]);
        assert(w.drop_first() =~= ps.drop_first().push(x));
        lemma_params_toks_push(ps.drop_first(), x);
        if ps.len() == 1 {
            assert(params_toks(w) =~= params_toks(ps) + seq![Tok::TComma] + seq![
                Tok::TIdent(x.ident),
                Tok::TColon,
                type_tok(x.value),
            ]);
        } else {
            assert(params_toks(w) =~= params_toks(ps) + seq![Tok::TComma] + seq![
                Tok::TIdent(x.ident),
                Tok::TColon,
                type_tok(x.value),
            ]);
        }
    }
}

proof fn lemma_prog_toks_push(ps: Seq<FnView>, f: FnView)
    ensures
        prog_toks(ps.push(f)) == prog_toks(ps) + fn_toks(f),
    decreases ps,
{
    let w = ps.push(f);
    if ps.len() == 0 {
        assert(w[0] == f);
        assert(w.drop_first() =~= Seq::<FnView>::empty());
        assert(prog_toks(w.drop_first()) == Seq::<Tok>::empty());
        assert(prog_toks(w) == fn_toks(f) + prog_toks(w.drop_first()));
        assert(prog_toks(w) =~= prog_toks(ps) + fn_toks(f));
    } else {
        assert(w[0] == ps[0]);
        assert(w.drop_first() =~= ps.drop_first().push(f));
        lemma_prog_toks_push(ps.drop_first(), f);
        assert(prog_toks(w) == fn_toks(ps[0]) + prog_toks(w.drop_first()));
        assert(prog_toks(ps) == fn_toks(ps[0]) + prog_toks(ps.drop_first()));
        assert((fn_toks(ps[0]) + prog_toks(ps.drop_first())) + fn_toks(f) =~= fn_toks(ps[0]) + (
        prog_toks(ps.drop_first()) + fn_toks(f)));
        assert(prog_toks(w) =~= prog_toks(ps) + fn_toks(f));
    }
}

/// Appends `piece` to the text being built.
fn put(out: &mut String, piece: &str)
    ensures
        final(out)@ == old(out)@ + piece@,
{
    out.append(piece);
}

/// Appends the decimal digits of `u`.
fn write_int(out: &mut String, u: u32)
    ensures
        final(out)@ == old(out)@ + render_digits(u as nat),
    decreases u,
{
    proof {
        lemma_lit_views();
    }
    if u >= 10 {
        write_int(out, u / 10);
    }
    let d = u % 10;
    let piece: &str = if d == 0 {
        "0"
    } else if d == 1 {
        "1"
    } else if d == 2 {
        "2"
    } else if d == 3 {
        "3"
    } else if d == 4 {
        "4"
    } else if d == 5 {
        "5"
    } else if d == 6 {
        "6"
    } else if d == 7 {
        "7"
    } else if d == 8 {
        "8"
    } else {
        "9"
    };
    put(out, piece);
    proof {
        if u >= 10 {
            assert(render_digits(u as nat) =~= render_digits((u / 10) as nat) + seq![
                digit_char((u % 10) as nat),
            ]);
        } else {
            assert(render_digits(u as nat) =~= seq![digit_char(u as nat)]);
        }
    }
}

/// Appends one expression's source text.
#[verifier::loop_isolation(false)]
#[verifier::rlimit(100)]
fn write_expr(out: &mut String, e: &Expr)
    requires
        wf_expr(e@),
    ensures
        final(out)@ == old(out)@ + toks_text(expr_toks(e@)),
    decreases *e,
{
    proof {
        lemma_lit_views();
        reveal_with_fuel(wf_expr, 2);
        reveal_with_fuel(toks_text, 2);
        reveal_with_fuel(crate::ast::expr_view, 2);
    }
    match e {
        Expr::Var(x) => {
            put(out, x.as_str());
        },
        Expr::Value(v) => {
            match v {
                VarVal::I32(Some(n)) => {
                    proof {
                        lemma_render_digits((*n) as nat);
                    }
                    write_int(out, (*n) as u32);
                },
                VarVal::BOOL(Some(b)) => {
                    if *b {
                        put(out, "true");
                    } else {
                        put(out, "false");
                    }
                },
                VarVal::STRING(Some(s)) => {
                    put(out, "\"");
                    put(out, s.as_str());
                    put(out, "\"");
                    proof {
                        assert(tok_text(Tok::TStr(s@)) =~= seq!['"'] + s@ + seq!['"']);
                        assert(old(out)@ + "\""@ + s@ + "\""@ =~= old(out)@ + tok_text(
                            Tok::TStr(s@),
                        ));
                    }
                },
                _ => {
                    // excluded by well-formedness
                    proof {
                        assert(false);
                    }
                },
            }
        },
        Expr::Op(l, op, r) => {
            let ghost lt = expr_toks(l@);
            let ghost rt = expr_toks(r@);
            let ghost opk = op_token(*op);
            proof {
                lemma_expr_first_tok(l@);
                lemma_expr_first_tok(r@);
                lemma_toks_text_concat(seq![Tok::TLParen], lt);
                lemma_toks_text_concat(seq![Tok::TLParen] + lt, seq![opk]);
                lemma_toks_text_concat(seq![Tok::TLParen] + lt + seq![opk], rt);
                lemma_toks_text_concat(
                    seq![Tok::TLParen] + lt + seq![opk] + rt,
                    seq![Tok::TRParen],
                );
            }
            put(out, "(");
            put(out, " ");
            write_expr(out, l);
            put(out, " ");
            let op_str: &str = match op {
                Opcode::Mul => "*",
                Opcode::Div => "/",
                Opcode::Mod => "%",
                Opcode::Add => "+",
                Opcode::Sub => "-",
                Opcode::Eq => "==",
                Opcode::Ne => "!=",
                Opcode::Lt => "<",
                Opcode::Le => "<=",
                Opcode::Gt => ">",
                Opcode::Ge => ">=",
                Opcode::And => "&&",
                Opcode::Or => "||",
            };
            put(out, op_str);
            put(out, " ");
            write_expr(out, r);
            put(out, " ");
            put(out, ")");
            proof {
                assert(final(out)@ =~= old(out)@ + toks_text(expr_toks(e@)));
            }
        },
        Expr::Function(name, args) => {
            write_call(out, name, args);
            proof {
                crate::ast::lemma_exprs_view(args@);
            }
        },
        Expr::If(f) => {
            write_if(out, f);
            proof {
                assert(e@ == ExprView::EIf(Box::new(crate::ast::if_view(*f))));
            }
        },
    }
}

/// Appends one call expression's source text.
#[verifier::loop_isolation(false)]
#[verifier::rlimit(100)]
fn write_call(out: &mut String, name: &String, args: &Vec<Box<Expr>>)
    requires
        valid_ident(name@),
        wf_exprs(exprs_view(args@)),
    ensures
        final(out)@ == old(out)@ + toks_text(
            expr_toks(ExprView::ECall(name@, exprs_view(args@))),
        ),
    decreases args@,
{
    let ghost e = ExprView::ECall(name@, exprs_view(args@));
    let ghost avs = exprs_view(args@);
    proof {
        lemma_lit_views();
        reveal_with_fuel(toks_text, 3);
        lemma_exprs_view(args@);
    }
    put(out, name.as_str());
    put(out, " ");
    put(out, "(");
    let ghost base = out@;
    let mut i: usize = 0;
    proof {
        assert(avs.subrange(0, 0) =~= Seq::<ExprView>::empty());
        assert(base + toks_text(args_toks(avs.subrange(0, 0))) =~= base);
    }
    while i < args.len()
        invariant
            i <= args.len(),
            avs.len() == args@.len(),
            wf_exprs(avs),
            out@ == if i == 0 {
                base
            } else {
                base + seq![' '] + toks_text(args_toks(avs.subrange(0, i as int)))
            },
        decreases args.len() - i,
    {
        let ghost pre = avs.subrange(0, i as int);
        proof {
            lemma_wf_exprs_index(avs, i as int);
            lemma_args_toks_push(pre, avs[i as int]);
            assert(pre.push(avs[i as int]) =~= avs.subrange(0, i as int + 1));
            lemma_expr_first_tok(avs[i as int]);
            if i > 0 {
                lemma_args_nonempty_toks(pre);
                lemma_toks_text_concat(args_toks(pre), seq![Tok::TComma]);
                lemma_toks_text_concat(
                    args_toks(pre) + seq![Tok::TComma],
                    expr_toks(avs[i as int]),
                );
            }
            assert(args@[i as int] == args[i as int]);
        }
        put(out, " ");
        if i > 0 {
            put(out, ",");
            put(out, " ");
        }
        write_expr(out, &args[i]);
        proof {
            if i > 0 {
                assert(out@ =~= base + seq![' '] + toks_text(
                    args_toks(avs.subrange(0, i as int + 1)),
                ));
            } else {
                assert(out@ =~= base + seq![' '] + toks_text(args_toks(avs.subrange(0, 1))));
            }
        }
        i = i + 1;
    }
    put(out, " ");
    put(out, ")");
    proof {
        let head = seq![Tok::TIdent(name@), Tok::TLParen];
        assert(head.drop_first() =~= seq![Tok::TLParen]);
        if args.len() == 0 {
            assert(avs.subrange(0, 0) =~= Seq::<ExprView>::empty());
            assert(args_toks(avs) =~= Seq::<Tok>::empty());
            assert(expr_toks(e) =~= head + seq![Tok::TRParen]);
            lemma_toks_text_concat(head, seq![Tok::TRParen]);
            assert(toks_text(head) =~= name@ + seq![' '] + seq!['(']);
            assert(final(out)@ =~= old(out)@ + toks_text(expr_toks(e)));
        } else {
            assert(avs.subrange(0, avs.len() as int) =~= avs);
            lemma_args_nonempty_toks(avs);
            lemma_toks_text_concat(head, args_toks(avs));
            lemma_toks_text_concat(head + args_toks(avs), seq![Tok::TRParen]);
            assert(expr_toks(e) =~= (head + args_toks(avs)) + seq![Tok::TRParen]);
            assert(toks_text(head) =~= name@ + seq![' '] + seq!['(']);
            assert(final(out)@ =~= old(out)@ + toks_text(expr_toks(e)));
        }
    }
}

/// Appends one `if`-expression's source text.
#[verifier::loop_isolation(false)]
#[verifier::rlimit(100)]
fn write_if(out: &mut String, f: &If)
    requires
        wf_expr(ExprView::EIf(Box::new(crate::ast::if_view(*f)))),
    ensures
        final(out)@ == old(out)@ + toks_text(
            expr_toks(ExprView::EIf(Box::new(crate::ast::if_view(*f)))),
        ),
    decreases *f,
{
    let ghost e = ExprView::EIf(Box::new(crate::ast::if_view(*f)));
    let ghost ct = expr_toks(f.condition@);
    let ghost tt = block_toks(f.if_block@);
    proof {
        lemma_lit_views();
        reveal_with_fuel(wf_expr, 2);
        reveal_with_fuel(toks_text, 2);
        reveal_with_fuel(crate::ast::if_view, 2);
        reveal_strlit("if");
        reveal_strlit("else");
        lemma_expr_first_tok(f.condition@);
        lemma_block_nonempty_toks(f.if_block@);
        lemma_toks_text_concat(seq![Tok::TIf], ct);
        lemma_toks_text_concat(seq![Tok::TIf] + ct, seq![Tok::TLBrace]);
        lemma_toks_text_concat(seq![Tok::TIf] + ct + seq![Tok::TLBrace], tt);
        lemma_toks_text_concat(
            seq![Tok::TIf] + ct + seq![Tok::TLBrace] + tt,
            seq![Tok::TRBrace],
        );
    }
    put(out, "if");
    put(out, " ");
    write_expr(out, &f.condition);
    put(out, " ");
    put(out, "{");
    put(out, " ");
    write_block(out, &f.if_block);
    put(out, " ");
    put(out, "}");
    match &f.else_block {
        Some(b) => {
            let ghost head = seq![Tok::TIf] + ct + seq![Tok::TLBrace] + tt + seq![Tok::TRBrace];
            let ghost et = block_toks(b@);
            proof {
                lemma_block_nonempty_toks(b@);
                lemma_toks_text_concat(seq![Tok::TElse], seq![Tok::TLBrace]);
                lemma_toks_text_concat(seq![Tok::TElse, Tok::TLBrace], et);
                lemma_toks_text_concat(seq![Tok::TElse, Tok::TLBrace] + et, seq![Tok::TRBrace]);
                lemma_toks_text_concat(
                    head,
                    seq![Tok::TElse, Tok::TLBrace] + et + seq![Tok::TRBrace],
                );
                assert(seq![Tok::TElse] + seq![Tok::TLBrace] =~= seq![Tok::TElse, Tok::TLBrace]);
            }
            put(out, " ");
            put(out, "else");
            put(out, " ");
            put(out, "{");
            put(out, " ");
            write_block(out, b);
            put(out, " ");
            put(out, "}");
            proof {
                assert(expr_toks(e) =~= head + (seq![Tok::TElse, Tok::TLBrace] + et + seq![
                    Tok::TRBrace,
                ]));
                assert(final(out)@ =~= old(out)@ + toks_text(expr_toks(e)));
            }
        },
        None => {
            proof {
                assert(expr_toks(e) =~= seq![Tok::TIf] + ct + seq![Tok::TLBrace] + tt + seq![
                    Tok::TRBrace,
                ]);
                assert(final(out)@ =~= old(out)@ + toks_text(expr_toks(e)));
            }
        },
    }
}

/// A non-empty argument list serializes to at least one token.
proof fn lemma_args_nonempty_toks(es: Seq<ExprView>)
    requires
        es.len() >= 1,
    ensures
        args_toks(es).len() >= 1,
{
    lemma_expr_first_tok(es[0]);
}

/// A block serializes to at least one token.
proof fn lemma_block_nonempty_toks(b: BlockView)
    ensures
        block_toks(b).len() >= 1,
{
    lemma_expr_first_tok(*b.expr);
}

/// Appends one block's source text: the statements, then the trailing
/// expression.
#[verifier::loop_isolation(false)]
#[verifier::rlimit(100)]
fn write_block(out: &mut String, b: &Block)
    requires
        wf_block(b@),
    ensures
        final(out)@ == old(out)@ + toks_text(block_toks(b@)),
    decreases *b,
{
    proof {
        lemma_lit_views();
        reveal_with_fuel(wf_block, 2);
        reveal_with_fuel(toks_text, 2);
        reveal_with_fuel(crate::ast::block_view, 2);
        crate::ast::lemma_stmts_view(b.statements@);
    }
    let ghost svs = stmts_view(b.statements@);
    let ghost base = out@;
    let mut i: usize = 0;
    while i < b.statements.len()
        invariant
            i <= b.statements.len(),
            svs.len() == b.statements@.len(),
            wf_stmts(svs),
            out@ == base + toks_text(stmts_toks(svs.subrange(0, i as int))),
        decreases b.statements.len() - i,
    {
        let ghost pre = svs.subrange(0, i as int);
        let ghost stv = svs[i as int];
        proof {
            reveal_with_fuel(wf_block, 2);
            lemma_wf_stmts_index(svs, i as int);
            lemma_stmts_toks_push(pre, stv);
            assert(pre.push(stv) =~= svs.subrange(0, i as int + 1));
            lemma_stmt_nonempty_toks(stv);
            if stmts_toks(pre).len() >= 1 {
                lemma_toks_text_concat(stmts_toks(pre), stmt_toks(stv));
            } else {
                assert(stmts_toks(pre) + stmt_toks(stv) =~= stmt_toks(stv));
            }
        }
        if i > 0 {
            put(out, " ");
        }
        proof {
            if i == 0 {
                assert(stmts_toks(pre) =~= Seq::<Tok>::empty());
            } else {
                lemma_stmts_nonempty_toks(pre);
            }
        }
        write_stmt(out, &b.statements[i]);
        i = i + 1;
    }
    if b.statements.len() > 0 {
        put(out, " ");
    }
    proof {
        assert(svs.subrange(0, svs.len() as int) =~= svs);
        lemma_expr_first_tok(b.expr@);
        if b.statements.len() > 0 {
            lemma_stmts_nonempty_toks(svs);
            lemma_toks_text_concat(stmts_toks(svs), expr_toks(b.expr@));
        } else {
            assert(stmts_toks(svs) =~= Seq::<Tok>::empty());
            assert(stmts_toks(svs) + expr_toks(b.expr@) =~= expr_toks(b.expr@));
        }
    }
    write_expr(out, &b.expr);
    proof {
        assert(final(out)@ =~= old(out)@ + toks_text(block_toks(b@)));
    }
}

/// A non-empty statement list serializes to at least one token.
proof fn lemma_stmts_nonempty_toks(ss: Seq<StmtView>)
    requires
        ss.len() >= 1,
    ensures
        stmts_toks(ss).len() >= 1,
{
    lemma_stmt_nonempty_toks(ss[0]);
}

/// A statement serializes to at least one token.
proof fn lemma_stmt_nonempty_toks(s: StmtView)
    ensures
        stmt_toks(s).len() >= 1,
{
    match s {
        StmtView::SExpr(e) => {
            lemma_expr_first_tok(e);
        },
        StmtView::SAsgn(x, e) => {
            lemma_expr_first_tok(e);
        },
    }
}

/// Appends one statement's source text, semicolon included.
#[verifier::rlimit(100)]
fn write_stmt(out: &mut String, s: &Stmt)
    requires
        wf_stmt(s@),
    ensures
        final(out)@ == old(out)@ + toks_text(stmt_toks(s@)),
    decreases *s,
{
    proof {
        lemma_lit_views();
        reveal_with_fuel(wf_stmt, 2);
        reveal_with_fuel(toks_text, 2);
        reveal_with_fuel(crate::ast::stmt_view, 2);
    }
    match s {
        Stmt::Expr(e) => {
            proof {
                lemma_expr_first_tok(e@);
                lemma_toks_text_concat(expr_toks(e@), seq![Tok::TSemi]);
            }
            write_expr(out, e);
            put(out, " ");
            put(out, ";");
            proof {
                assert(final(out)@ =~= old(out)@ + toks_text(stmt_toks(s@)));
            }
        },
        Stmt::Asgn(x, e) => {
            proof {
                lemma_expr_first_tok(e@);
                lemma_toks_text_concat(seq![Tok::TIdent(x@)], seq![Tok::TEq]);
                lemma_toks_text_concat(seq![Tok::TIdent(x@), Tok::TEq], expr_toks(e@));
                lemma_toks_text_concat(
                    seq![Tok::TIdent(x@), Tok::TEq] + expr_toks(e@),
                    seq![Tok::TSemi],
                );
                assert(seq![Tok::TIdent(x@)] + seq![Tok::TEq] =~= seq![
                    Tok::TIdent(x@),
                    Tok::TEq,
                ]);
            }
            put(out, x.as_str());
            put(out, " ");
            put(out, "=");
            put(out, " ");
            write_expr(out, e);
            put(out, " ");
            put(out, ";");
            proof {
                assert(stmt_toks(s@) =~= (seq![Tok::TIdent(x@), Tok::TEq] + expr_toks(e@)) + seq![
                    Tok::TSemi,
                ]);
                assert(final(out)@ =~= old(out)@ + toks_text(stmt_toks(s@)));
            }
        },
    }
}

/// The views of a parameter list.
pub open spec fn params_view(s: Seq<crate::ast::Variable>) -> Seq<VarView> {
    s.map_values(|v: crate::ast::Variable| crate::ast::var_view(v))
}

/// Appends a parameter list's source text: nothing for no parameters, else a
/// space and the comma-separated parameters.
#[verifier::loop_isolation(false)]
#[verifier::rlimit(100)]
fn write_params(out: &mut String, params: &Vec<crate::ast::Variable>)
    requires
        forall|k: int| 0 <= k < params@.len() ==> wf_param(#[trigger] params_view(params@)[k]),
    ensures
        final(out)@ == old(out)@ + (if params@.len() == 0 {
            Seq::<char>::empty()
        } else {
            seq![' '] + toks_text(params_toks(params_view(params@)))
        }),
{
    let ghost pvs = params_view(params@);
    let ghost base = out@;
    proof {
        lemma_lit_views();
        reveal_with_fuel(toks_text, 2);
        reveal_strlit("i32");
        reveal_strlit("bool");
        reveal_strlit("String");
        assert(pvs.subrange(0, 0) =~= Seq::<VarView>::empty());
        assert(base + Seq::<char>::empty() =~= base);
    }
    let mut i: usize = 0;
    while i < params.len()
        invariant
            i <= params.len(),
            pvs.len() == params@.len(),
            out@ == if i == 0 {
                base
            } else {
                base + seq![' '] + toks_text(params_toks(pvs.subrange(0, i as int)))
            },
        decreases params.len() - i,
    {
        let ghost pre = pvs.subrange(0, i as int);
        let ghost pv = pvs[i as int];
        let ghost unit = seq![Tok::TIdent(pv.ident), Tok::TColon, type_tok(pv.value)];
        proof {
            lemma_params_toks_push(pre, pv);
            assert(pre.push(pv) =~= pvs.subrange(0, i as int + 1));
            assert(seq![Tok::TIdent(pv.ident)] + seq![Tok::TColon] =~= seq![
                Tok::TIdent(pv.ident),
                Tok::TColon,
            ]);
            assert(seq![Tok::TIdent(pv.ident), Tok::TColon] + seq![type_tok(pv.value)] =~= unit);
            lemma_toks_text_concat(seq![Tok::TIdent(pv.ident)], seq![Tok::TColon]);
            lemma_toks_text_concat(seq![Tok::TIdent(pv.ident), Tok::TColon], seq![
                type_tok(pv.value),
            ]);
            if i > 0 {
                lemma_params_nonempty_toks(pre);
                lemma_toks_text_concat(params_toks(pre), seq![Tok::TComma]);
                lemma_toks_text_concat(params_toks(pre) + seq![Tok::TComma], unit);
            } else {
                assert(params_toks(pre) =~= Seq::<Tok>::empty());
            }
        }
        if i > 0 {
            put(out, " ");
            put(out, ",");
        }
        put(out, " ");
        let param = &params[i];
        put(out, param.ident.as_str());
        put(out, " ");
        put(out, ":");
        put(out, " ");
        let type_str: &str = match &param.value {
            VarVal::BOOL(None) => "bool",
            VarVal::STRING(None) => "String",
            _ => "i32",
        };
        put(out, type_str);
        proof {
            assert(type_str@ == tok_text(type_tok(pv.value)));
            if i > 0 {
                assert(out@ =~= base + seq![' '] + toks_text(
                    params_toks(pvs.subrange(0, i as int + 1)),
                ));
            } else {
                assert(out@ =~= base + seq![' '] + toks_text(params_toks(pvs.subrange(0, 1))));
            }
        }
        i = i + 1;
    }
    proof {
        assert(pvs.subrange(0, pvs.len() as int) =~= pvs);
    }
}

/// Appends one function definition's source text.
#[verifier::loop_isolation(false)]
#[verifier::rlimit(100)]
fn write_fn(out: &mut String, f: &Function)
    requires
        wf_fn(f@),
    ensures
        final(out)@ == old(out)@ + toks_text(fn_toks(f@)),
{
    proof {
        lemma_lit_views();
        reveal_with_fuel(toks_text, 2);
        reveal_strlit("fn");
    }
    put(out, "fn");
    put(out, " ");
    put(out, f.name.as_str());
    put(out, " ");
    put(out, "(");
    let ghost pvs = f@.params;
    proof {
        assert(params_view(f.arguments@) =~= pvs);
    }
    write_params(out, &f.arguments);
    put(out, " ");
    put(out, ")");
    put(out, " ");
    put(out, "{");
    put(out, " ");
    write_block(out, &f.block);
    put(out, " ");
    put(out, "}");
    proof {
        let head = seq![Tok::TFn, Tok::TIdent(f@.name), Tok::TLParen];
        let tail = seq![Tok::TRParen, Tok::TLBrace] + block_toks(f@.body) + seq![Tok::TRBrace];
        assert(pvs.subrange(0, pvs.len() as int) =~= pvs);
        lemma_block_nonempty_toks(f@.body);
        lemma_toks_text_concat(seq![Tok::TFn], seq![Tok::TIdent(f@.name)]);
        lemma_toks_text_concat(seq![Tok::TFn, Tok::TIdent(f@.name)], seq![Tok::TLParen]);
        assert(seq![Tok::TFn] + seq![Tok::TIdent(f@.name)] =~= seq![
            Tok::TFn,
            Tok::TIdent(f@.name),
        ]);
        assert(seq![Tok::TFn, Tok::TIdent(f@.name)] + seq![Tok::TLParen] =~= head);
        lemma_toks_text_concat(seq![Tok::TRParen], seq![Tok::TLBrace]);
        assert(seq![Tok::TRParen] + seq![Tok::TLBrace] =~= seq![Tok::TRParen, Tok::TLBrace]);
        lemma_toks_text_concat(seq![Tok::TRParen, Tok::TLBrace], block_toks(f@.body));
        lemma_toks_text_concat(
            seq![Tok::TRParen, Tok::TLBrace] + block_toks(f@.body),
            seq![Tok::TRBrace],
        );
        assert(toks_text(head) =~= "fn"@ + seq![' '] + f@.name + seq![' '] + seq!['(']);
        if pvs.len() == 0 {
            assert(params_toks(pvs) =~= Seq::<Tok>::empty());
            assert(fn_toks(f@) =~= head + tail);
            lemma_toks_text_concat(head, tail);
            assert(final(out)@ =~= old(out)@ + toks_text(fn_toks(f@)));
        } else {
            lemma_params_nonempty_toks(pvs);
            lemma_toks_text_concat(head, params_toks(pvs));
            lemma_toks_text_concat(head + params_toks(pvs), tail);
            assert(fn_toks(f@) =~= (head + params_toks(pvs)) + tail);
            assert(final(out)@ =~= old(out)@ + toks_text(fn_toks(f@)));
        }
    }
}

/// A non-empty parameter list serializes to at least one token.
proof fn lemma_params_nonempty_toks(ps: Seq<VarView>)
    requires
        ps.len() >= 1,
    ensures
        params_toks(ps).len() >= 1,
{
}

/// Serializes a program back to source text. Parsing the result yields the
/// program back (see [`lemma_source_round_trip`]).
#[verifier::loop_isolation(false)]
pub fn to_source(program: &Program) -> (r: String)
    requires
        wf_prog(program@),
    ensures
        r@ == prog_text(program@),
{
    proof {
        reveal_with_fuel(toks_text, 5);
    }
    let mut out = String::new();
    let ghost fvs = program@;
    let mut i: usize = 0;
    while i < program.functions.len()
        invariant
            i <= program.functions.len(),
            fvs.len() == program.functions@.len(),
            wf_prog(fvs),
            forall|k: int|
                0 <= k < fvs.len() ==> #[trigger] fvs[k] == crate::ast::fn_view(
                    program.functions@[k],
                ),
            out@ == toks_text(prog_toks(fvs.subrange(0, i as int))),
        decreases program.functions.len() - i,
    {
        let ghost pre = fvs.subrange(0, i as int);
        proof {
            lemma_prog_toks_push(pre, fvs[i as int]);
            assert(pre.push(fvs[i as int]) =~= fvs.subrange(0, i as int + 1));
            assert(fn_toks(fvs[i as int]).len() >= 3);
            if i > 0 {
                lemma_prog_nonempty_toks(pre);
                lemma_toks_text_concat(prog_toks(pre), fn_toks(fvs[i as int]));
            } else {
                assert(prog_toks(pre) =~= Seq::<Tok>::empty());
                assert(prog_toks(pre) + fn_toks(fvs[i as int]) =~= fn_toks(fvs[i as int]));
            }
            lemma_lit_views();
        }
        if i > 0 {
            put(&mut out, " ");
        }
        write_fn(&mut out, &program.functions[i]);
        i = i + 1;
    }
    proof {
        assert(fvs.subrange(0, fvs.len() as int) =~= fvs);
    }
    out
}

/// A non-empty program serializes to at least one token.
proof fn lemma_prog_nonempty_toks(ps: Seq<FnView>)
    requires
        ps.len() >= 1,
    ensures
        prog_toks(ps).len() >= 1,
{
    assert(fn_toks(ps[0]).len() >= 3);
}

/// The grammar round trip: parsing the serialized token stream of a
/// well-formed program yields a structurally equal program back, whatever
/// spans the tokens carry and wherever the input is said to end.
pub proof fn lemma_parse_print_round_trip(p: Seq<FnView>, T: Toks, eof: int)
    requires
        wf_prog(p),
        toks_at(T, 0, prog_toks(p)),
        T.len() == prog_toks(p).len(),
    ensures
        s_parse_program(T, eof, 0) == Result::<Seq<FnView>, ParseErrView>::Ok(p),
{
    assert(p.skip(0) =~= p);
    assert(p.subrange(0, 0) =~= Seq::<FnView>::empty());
    lemma_prog_rest_exact(T, eof, 0, p, 0);
}

} // verus!
