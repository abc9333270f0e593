//! The parser: token stream to [`Program`], by recursive descent over the
//! grammar
//!
//! ```text
//! program    := function*
//! function   := "fn" ident "(" (param ("," param)*)? ")" "{" block "}"
//! param      := ident ":" type
//! block      := stmt* expr
//! stmt       := (ident "=" expr ";") | (expr ";")
//! expr       := or-, and-, equality-, relational-, additive- and
//!               multiplicative levels, all left-associative, over
//! primary    := literal | ident | call | if-expr | "(" expr ")"
//! if-expr    := "if" expr "{" block "}" ("else" ("{" block "}" | if-expr))?
//! ```
//!
//! The model is the spec-level parser [`s_parse`]; the executable [`parse`]
//! is proved to return exactly its result. Parsing is single-shot and
//! fail-fast: the first syntax error aborts the whole parse, with the
//! offending token's span (or the end of the input) and a description.

use vstd::prelude::*;

use crate::ast::{
    expr_view, exprs_view, find_fn, fn_view, if_view, stmt_view, stmts_view, val_view, var_view,
    Block,
    BlockView, DataType, Expr, ExprView, FnView, Function, If, IfView, Opcode, Program, Stmt,
    StmtView, ValView, VarVal, VarView, Variable,
};
use crate::lexer::{s_tokens, tok_view, tokenize, triples_view, Tok, Token};

verus! {

/// A syntax error: the byte span of the offending token (or the end of the
/// input, as an empty span) and a description.
#[derive(Debug, PartialEq, Eq, Clone)]
pub struct ParsingError {
    pub from: usize,
    pub to: usize,
    pub description: String,
}

/// Model of a [`ParsingError`].
pub struct ParseErrView {
    pub from: int,
    pub to: int,
    pub desc: Seq<char>,
}

pub open spec fn pe_view(e: ParsingError) -> ParseErrView {
    ParseErrView { from: e.from as int, to: e.to as int, desc: e.description@ }
}

fn parsing_err(from: usize, to: usize, description: String) -> (r: ParsingError)
    ensures
        r.from == from,
        r.to == to,
        r.description == description,
{
    ParsingError { from, to, description }
}

/// The spanned token stream the parser walks.
pub type Toks = Seq<(int, Tok, int)>;

/// The error for an unexpected token at `i` (or for an unexpected end of
/// input, when `i` is past the last token).
pub open spec fn pev_at(toks: Toks, eof: int, i: int, desc: Seq<char>) -> ParseErrView {
    if 0 <= i < toks.len() {
        ParseErrView { from: toks[i].0, to: toks[i].2, desc }
    } else {
        ParseErrView { from: eof, to: eof, desc }
    }
}

/// The totality guard's error; no reachable parse produces it.
pub open spec fn pev_stalled() -> ParseErrView {
    ParseErrView { from: 0, to: 0, desc: "the parser made no progress"@ }
}

fn err_at(toks: &Vec<(usize, Token, usize)>, eof: usize, i: usize, desc: &str) -> (r: ParsingError)
    ensures
        pe_view(r) == pev_at(triples_view(toks@), eof as int, i as int, desc@),
{
    if i < toks.len() {
        parsing_err(toks[i].0, toks[i].2, desc.to_owned())
    } else {
        parsing_err(eof, eof, desc.to_owned())
    }
}

/// The operator a token means at a precedence level, from `||` (level 0)
/// down to `* / %` (level 5).
pub open spec fn op_for_level(level: int, t: Tok) -> Option<Opcode> {
    match t {
        Tok::TOrOr => if level == 0 {
            Option::Some(Opcode::Or)
        } else {
            Option::None
        },
        Tok::TAndAnd => if level == 1 {
            Option::Some(Opcode::And)
        } else {
            Option::None
        },
        Tok::TEqEq => if level == 2 {
            Option::Some(Opcode::Eq)
        } else {
            Option::None
        },
        Tok::TBangEq => if level == 2 {
            Option::Some(Opcode::Ne)
        } else {
            Option::None
        },
        Tok::TLt => if level == 3 {
            Option::Some(Opcode::Lt)
        } else {
            Option::None
        },
        Tok::TLe => if level == 3 {
            Option::Some(Opcode::Le)
        } else {
            Option::None
        },
        Tok::TGt => if level == 3 {
            Option::Some(Opcode::Gt)
        } else {
            Option::None
        },
        Tok::TGe => if level == 3 {
            Option::Some(Opcode::Ge)
        } else {
            Option::None
        },
        Tok::TPlus => if level == 4 {
            Option::Some(Opcode::Add)
        } else {
            Option::None
        },
        Tok::TMinus => if level == 4 {
            Option::Some(Opcode::Sub)
        } else {
            Option::None
        },
        Tok::TStar => if level == 5 {
            Option::Some(Opcode::Mul)
        } else {
            Option::None
        },
        Tok::TSlash => if level == 5 {
            Option::Some(Opcode::Div)
        } else {
            Option::None
        },
        Tok::TPercent => if level == 5 {
            Option::Some(Opcode::Mod)
        } else {
            Option::None
        },
        _ => Option::None,
    }
}

fn op_for_level_exec(level: u8, t: &Token) -> (r: Option<Opcode>)
    ensures
        r == op_for_level(level as int, tok_view(*t)),
{
    match t {
        Token::PipePipe => if level == 0 {
            Some(Opcode::Or)
        } else {
            None
        },
        Token::AmpAmp => if level == 1 {
            Some(Opcode::And)
        } else {
            None
        },
        Token::EqualEqual => if level == 2 {
            Some(Opcode::Eq)
        } else {
            None
        },
        Token::BangEqual => if level == 2 {
            Some(Opcode::Ne)
        } else {
            None
        },
        Token::Less => if level == 3 {
            Some(Opcode::Lt)
        } else {
            None
        },
        Token::LessEqual => if level == 3 {
            Some(Opcode::Le)
        } else {
            None
        },
        Token::Greater => if level == 3 {
            Some(Opcode::Gt)
        } else {
            None
        },
        Token::GreaterEqual => if level == 3 {
            Some(Opcode::Ge)
        } else {
            None
        },
        Token::Plus => if level == 4 {
            Some(Opcode::Add)
        } else {
            None
        },
        Token::Minus => if level == 4 {
            Some(Opcode::Sub)
        } else {
            None
        },
        Token::Star => if level == 5 {
            Some(Opcode::Mul)
        } else {
            None
        },
        Token::ForwardSlash => if level == 5 {
            Some(Opcode::Div)
        } else {
            None
        },
        Token::Percent => if level == 5 {
            Some(Opcode::Mod)
        } else {
            None
        },
        _ => None,
    }
}

// ---------------------------------------------------------------------------
// The spec-level parser.
// ---------------------------------------------------------------------------

/// A primary expression: a literal, a variable, a call, an `if`-expression,
/// or a parenthesized expression.
pub open spec fn s_parse_primary(toks: Toks, eof: int, i: int) -> Result<(ExprView, int), ParseErrView>
    decreases toks.len() - i + 1, 2int,
{
    if !(0 <= i < toks.len()) {
        Result::Err(pev_at(toks, eof, i, "expected an expression"@))
    } else {
        match toks[i].1 {
            Tok::TInt(v) => Result::Ok((ExprView::EVal(ValView::VInt(Option::Some(v))), i + 1)),
            Tok::TStr(s) => Result::Ok((ExprView::EVal(ValView::VStr(Option::Some(s))), i + 1)),
            Tok::TTrue => Result::Ok((ExprView::EVal(ValView::VBool(Option::Some(true))), i + 1)),
            Tok::TFalse => Result::Ok((ExprView::EVal(ValView::VBool(Option::Some(false))), i + 1)),
            Tok::TIdent(name) => if i + 1 < toks.len() && toks[i + 1].1 is TLParen {
                if i + 2 < toks.len() && toks[i + 2].1 is TRParen {
                    Result::Ok((ExprView::ECall(name, Seq::empty()), i + 3))
                } else {
                    match s_parse_args(toks, eof, i + 2, Seq::empty()) {
                        Result::Ok((args, j)) => Result::Ok((ExprView::ECall(name, args), j)),
                        Result::Err(e) => Result::Err(e),
                    }
                }
            } else {
                Result::Ok((ExprView::EVar(name), i + 1))
            },
            Tok::TIf => s_parse_if(toks, eof, i),
            Tok::TLParen => match s_parse_bin(toks, eof, i + 1, 0) {
                Result::Ok((e, j)) => if j < toks.len() && toks[j].1 is TRParen {
                    Result::Ok((e, j + 1))
                } else {
                    Result::Err(pev_at(toks, eof, j, "expected `)`"@))
                },
                Result::Err(e) => Result::Err(e),
            },
            _ => Result::Err(pev_at(toks, eof, i, "expected an expression"@)),
        }
    }
}

/// A non-empty argument list, then the closing parenthesis.
pub open spec fn s_parse_args(toks: Toks, eof: int, i: int, acc: Seq<ExprView>) -> Result<
    (Seq<ExprView>, int),
    ParseErrView,
>
    decreases toks.len() - i + 1, 9int,
{
    match s_parse_bin(toks, eof, i, 0) {
        Result::Ok((e, j)) => if j < toks.len() && toks[j].1 is TComma {
            if i < j + 1 <= toks.len() {
                s_parse_args(toks, eof, j + 1, acc.push(e))
            } else {
                Result::Err(pev_stalled())
            }
        } else if j < toks.len() && toks[j].1 is TRParen {
            Result::Ok((acc.push(e), j + 1))
        } else {
            Result::Err(pev_at(toks, eof, j, "expected `,` or `)`"@))
        },
        Result::Err(e) => Result::Err(e),
    }
}

/// One precedence level: a left-associative chain of its operators over the
/// next level's operands.
pub open spec fn s_parse_bin(toks: Toks, eof: int, i: int, level: int) -> Result<
    (ExprView, int),
    ParseErrView,
>
    decreases toks.len() - i + 1, (if level >= 5 { 3int } else { 8 - level }),
{
    let first = if level >= 5 {
        s_parse_primary(toks, eof, i)
    } else {
        s_parse_bin(toks, eof, i, level + 1)
    };
    match first {
        Result::Ok((left, j)) => if i < j <= toks.len() {
            s_parse_bin_rest(toks, eof, j, level, left)
        } else {
            Result::Err(pev_stalled())
        },
        Result::Err(e) => Result::Err(e),
    }
}

/// The rest of a precedence level's chain, after `left`.
pub open spec fn s_parse_bin_rest(toks: Toks, eof: int, i: int, level: int, left: ExprView) -> Result<
    (ExprView, int),
    ParseErrView,
>
    decreases toks.len() - i + 1, (if level >= 5 { 3int } else { 8 - level }),
{
    if 0 <= i < toks.len() {
        match op_for_level(level, toks[i].1) {
            Option::Some(op) => {
                let rhs = if level >= 5 {
                    s_parse_primary(toks, eof, i + 1)
                } else {
                    s_parse_bin(toks, eof, i + 1, level + 1)
                };
                match rhs {
                    Result::Ok((right, j)) => if i < j <= toks.len() {
                        s_parse_bin_rest(
                            toks,
                            eof,
                            j,
                            level,
                            ExprView::EOp(Box::new(left), op, Box::new(right)),
                        )
                    } else {
                        Result::Err(pev_stalled())
                    },
                    Result::Err(e) => Result::Err(e),
                }
            },
            Option::None => Result::Ok((left, i)),
        }
    } else {
        Result::Ok((left, i))
    }
}

/// A whole expression: the lowest precedence level.
pub open spec fn s_parse_expr(toks: Toks, eof: int, i: int) -> Result<(ExprView, int), ParseErrView> {
    s_parse_bin(toks, eof, i, 0)
}

/// An `if`-expression, starting at its `if` token. An `else if` becomes a
/// nested `if`-expression as the else block's trailing expression.
pub open spec fn s_parse_if(toks: Toks, eof: int, i: int) -> Result<(ExprView, int), ParseErrView>
    decreases toks.len() - i + 1, 1int,
{
    if !(0 <= i < toks.len() && toks[i].1 is TIf) {
        Result::Err(pev_at(toks, eof, i, "expected `if`"@))
    } else {
        match s_parse_bin(toks, eof, i + 1, 0) {
            Result::Ok((cond, j)) => if !(i < j <= toks.len()) {
                Result::Err(pev_stalled())
            } else if j < toks.len() && toks[j].1 is TLBrace {
                match s_parse_block(toks, eof, j + 1) {
                    Result::Ok((then_block, k)) => if !(j < k <= toks.len()) {
                        Result::Err(pev_stalled())
                    } else if k < toks.len() && toks[k].1 is TRBrace {
                        if k + 1 < toks.len() && toks[k + 1].1 is TElse {
                            let k2 = k + 2;
                            if k2 < toks.len() && toks[k2].1 is TLBrace {
                                match s_parse_block(toks, eof, k2 + 1) {
                                    Result::Ok((else_block, m)) => if m < toks.len() && toks[m].1
                                        is TRBrace {
                                        Result::Ok(
                                            (
                                                ExprView::EIf(
                                                    Box::new(
                                                        IfView {
                                                            cond: Box::new(cond),
                                                            then_block,
                                                            else_block: Option::Some(else_block),
                                                        },
                                                    ),
                                                ),
                                                m + 1,
                                            ),
                                        )
                                    } else {
                                        Result::Err(pev_at(toks, eof, m, "expected `}`"@))
                                    },
                                    Result::Err(e) => Result::Err(e),
                                }
                            } else if k2 < toks.len() && toks[k2].1 is TIf {
                                match s_parse_if(toks, eof, k2) {
                                    Result::Ok((nested, m)) => Result::Ok(
                                        (
                                            ExprView::EIf(
                                                Box::new(
                                                    IfView {
                                                        cond: Box::new(cond),
                                                        then_block,
                                                        else_block: Option::Some(
                                                            BlockView {
                                                                stmts: Seq::empty(),
                                                                expr: Box::new(nested),
                                                            },
                                                        ),
                                                    },
                                                ),
                                            ),
                                            m,
                                        ),
                                    ),
                                    Result::Err(e) => Result::Err(e),
                                }
                            } else {
                                Result::Err(
                                    pev_at(toks, eof, k2, "expected `{` or `if` after `else`"@),
                                )
                            }
                        } else {
                            Result::Ok(
                                (
                                    ExprView::EIf(
                                        Box::new(
                                            IfView {
                                                cond: Box::new(cond),
                                                then_block,
                                                else_block: Option::None,
                                            },
                                        ),
                                    ),
                                    k + 1,
                                ),
                            )
                        }
                    } else {
                        Result::Err(pev_at(toks, eof, k, "expected `}`"@))
                    },
                    Result::Err(e) => Result::Err(e),
                }
            } else {
                Result::Err(pev_at(toks, eof, j, "expected `{`"@))
            },
            Result::Err(e) => Result::Err(e),
        }
    }
}

/// A block's trailing part at `i`: one expression, then either `;` (it was a
/// statement; go on) or the block's end (it is the block's value).
pub open spec fn s_parse_block_tail(toks: Toks, eof: int, i: int, acc: Seq<StmtView>) -> Result<
    (BlockView, int),
    ParseErrView,
>
    decreases toks.len() - i + 1, 9int,
{
    match s_parse_bin(toks, eof, i, 0) {
        Result::Ok((e, j)) => if j < toks.len() && toks[j].1 is TSemi {
            if i < j + 1 <= toks.len() {
                s_parse_block_rest(toks, eof, j + 1, acc.push(StmtView::SExpr(e)))
            } else {
                Result::Err(pev_stalled())
            }
        } else {
            Result::Ok((BlockView { stmts: acc, expr: Box::new(e) }, j))
        },
        Result::Err(e) => Result::Err(e),
    }
}

/// A block's remaining statements and trailing expression, after `acc`.
pub open spec fn s_parse_block_rest(toks: Toks, eof: int, i: int, acc: Seq<StmtView>) -> Result<
    (BlockView, int),
    ParseErrView,
>
    decreases toks.len() - i + 1, 10int,
{
    if i + 1 < toks.len() {
        match (toks[i].1, toks[i + 1].1) {
            (Tok::TIdent(id), Tok::TEq) => match s_parse_bin(toks, eof, i + 2, 0) {
                Result::Ok((e, j)) => if j < toks.len() && toks[j].1 is TSemi {
                    if i < j + 1 <= toks.len() {
                        s_parse_block_rest(toks, eof, j + 1, acc.push(StmtView::SAsgn(id, e)))
                    } else {
                        Result::Err(pev_stalled())
                    }
                } else {
                    Result::Err(pev_at(toks, eof, j, "expected `;`"@))
                },
                Result::Err(e) => Result::Err(e),
            },
            _ => s_parse_block_tail(toks, eof, i, acc),
        }
    } else {
        s_parse_block_tail(toks, eof, i, acc)
    }
}

/// A block: statements, then exactly one trailing expression.
pub open spec fn s_parse_block(toks: Toks, eof: int, i: int) -> Result<(BlockView, int), ParseErrView>
    decreases toks.len() - i + 1, 11int,
{
    s_parse_block_rest(toks, eof, i, Seq::empty())
}

/// A non-empty parameter list (`ident ":" type` separated by commas), then
/// the closing parenthesis.
pub open spec fn s_parse_params(toks: Toks, eof: int, i: int, acc: Seq<VarView>) -> Result<
    (Seq<VarView>, int),
    ParseErrView,
>
    decreases toks.len() - i + 1, 9int,
{
    if !(0 <= i < toks.len() && toks[i].1 is TIdent) {
        Result::Err(pev_at(toks, eof, i, "expected a parameter name"@))
    } else {
        match toks[i].1 {
            Tok::TIdent(id) => if !(i + 1 < toks.len() && toks[i + 1].1 is TColon) {
                Result::Err(pev_at(toks, eof, i + 1, "expected `:`"@))
            } else {
                let dt = if i + 2 < toks.len() {
                    match toks[i + 2].1 {
                        Tok::TI32 => Option::Some(DataType::I32),
                        Tok::TBool => Option::Some(DataType::BOOL),
                        Tok::TString => Option::Some(DataType::STRING),
                        _ => Option::None,
                    }
                } else {
                    Option::None
                };
                match dt {
                    Option::Some(dt) => {
                        let param = VarView {
                            ident: id,
                            value: val_view(VarVal::spec_placeholder(dt)),
                        };
                        if i + 3 < toks.len() && toks[i + 3].1 is TComma {
                            s_parse_params(toks, eof, i + 4, acc.push(param))
                        } else if i + 3 < toks.len() && toks[i + 3].1 is TRParen {
                            Result::Ok((acc.push(param), i + 4))
                        } else {
                            Result::Err(pev_at(toks, eof, i + 3, "expected `,` or `)`"@))
                        }
                    },
                    Option::None => Result::Err(
                        pev_at(toks, eof, i + 2, "expected a parameter type"@),
                    ),
                }
            },
            _ => Result::Err(pev_at(toks, eof, i, "expected a parameter name"@)),
        }
    }
}

/// One function definition, starting at its `fn` token.
pub open spec fn s_parse_function(toks: Toks, eof: int, i: int) -> Result<(FnView, int), ParseErrView>
    decreases toks.len() - i + 1, 12int,
{
    if !(0 <= i < toks.len() && toks[i].1 is TFn) {
        Result::Err(pev_at(toks, eof, i, "expected `fn`"@))
    } else if !(i + 1 < toks.len() && toks[i + 1].1 is TIdent) {
        Result::Err(pev_at(toks, eof, i + 1, "expected a function name"@))
    } else {
        match toks[i + 1].1 {
            Tok::TIdent(name) => if !(i + 2 < toks.len() && toks[i + 2].1 is TLParen) {
                Result::Err(pev_at(toks, eof, i + 2, "expected `(`"@))
            } else {
                let params = if i + 3 < toks.len() && toks[i + 3].1 is TRParen {
                    Result::Ok((Seq::<VarView>::empty(), i + 4))
                } else {
                    s_parse_params(toks, eof, i + 3, Seq::empty())
                };
                match params {
                    Result::Ok((params, j)) => if !(i < j <= toks.len()) {
                        Result::Err(pev_stalled())
                    } else if !(j < toks.len() && toks[j].1 is TLBrace) {
                        Result::Err(pev_at(toks, eof, j, "expected `{`"@))
                    } else {
                        match s_parse_block(toks, eof, j + 1) {
                            Result::Ok((body, k)) => if k < toks.len() && toks[k].1 is TRBrace {
                                Result::Ok((FnView { params, name, body }, k + 1))
                            } else {
                                Result::Err(pev_at(toks, eof, k, "expected `}`"@))
                            },
                            Result::Err(e) => Result::Err(e),
                        }
                    },
                    Result::Err(e) => Result::Err(e),
                }
            },
            _ => Result::Err(pev_at(toks, eof, i + 1, "expected a function name"@)),
        }
    }
}

/// Adds a function definition: a later definition of a name replaces the
/// earlier one, in place.
pub open spec fn upsert(fns: Seq<FnView>, f: FnView) -> Seq<FnView>
    decreases fns,
{
    if fns.len() == 0 {
        seq![f]
    } else if fns.first().name == f.name {
        seq![f] + fns.drop_first()
    } else {
        seq![fns.first()] + upsert(fns.drop_first(), f)
    }
}

/// The remaining function definitions, folded onto `acc`.
pub open spec fn s_parse_program_rest(toks: Toks, eof: int, i: int, acc: Seq<FnView>) -> Result<
    Seq<FnView>,
    ParseErrView,
>
    decreases toks.len() - i + 1, 13int,
{
    if i >= toks.len() {
        Result::Ok(acc)
    } else {
        match s_parse_function(toks, eof, i) {
            Result::Ok((f, j)) => if i < j <= toks.len() {
                s_parse_program_rest(toks, eof, j, upsert(acc, f))
            } else {
                Result::Err(pev_stalled())
            },
            Result::Err(e) => Result::Err(e),
        }
    }
}

/// A whole program: function definitions to the end of the token stream.
pub open spec fn s_parse_program(toks: Toks, eof: int, i: int) -> Result<Seq<FnView>, ParseErrView> {
    s_parse_program_rest(toks, eof, i, Seq::empty())
}

/// The model of [`parse`]: lex, then parse the token stream; a lexical error
/// is reported as a one-character syntax error.
pub open spec fn s_parse(src: Seq<char>) -> Result<Seq<FnView>, ParseErrView> {
    match s_tokens(src, 0) {
        Result::Ok(toks) => s_parse_program(toks, src.len() as int, 0),
        Result::Err(e) => Result::Err(
            ParseErrView {
                from: e.location as int,
                to: e.location as int + 1,
                desc: "unexpected character"@,
            },
        ),
    }
}

// ---------------------------------------------------------------------------
// The executable parser.
// ---------------------------------------------------------------------------

fn parse_primary(toks: &Vec<(usize, Token, usize)>, eof: usize, i: usize) -> (r: Result<
    (Expr, usize),
    ParsingError,
>)
    requires
        i <= toks@.len(),
        toks@.len() < usize::MAX,
    ensures
        match r {
            Result::Ok((e, j)) => s_parse_primary(triples_view(toks@), eof as int, i as int)
                == Result::<(ExprView, int), ParseErrView>::Ok((e@, j as int)) && i < j
                <= toks@.len(),
            Result::Err(e) => s_parse_primary(triples_view(toks@), eof as int, i as int)
                == Result::<(ExprView, int), ParseErrView>::Err(pe_view(e)),
        },
    decreases toks@.len() - i + 1, 2int,
{
    let n = toks.len();
    if i >= n {
        return Err(err_at(toks, eof, i, "expected an expression"));
    }
    match &toks[i].1 {
        Token::DecLiteral(v) => Ok((Expr::Value(VarVal::I32(Some(*v))), i + 1)),
        Token::StringValue(s) => Ok((Expr::Value(VarVal::STRING(Some((*s).to_owned()))), i + 1)),
        Token::True => Ok((Expr::Value(VarVal::BOOL(Some(true))), i + 1)),
        Token::False => Ok((Expr::Value(VarVal::BOOL(Some(false))), i + 1)),
        Token::Ident(s) => {
            let is_call = if i + 1 < n {
                match &toks[i + 1].1 {
                    Token::LParen => true,
                    _ => false,
                }
            } else {
                false
            };
            if is_call {
                let empty_call = if i + 2 < n {
                    match &toks[i + 2].1 {
                        Token::RParen => true,
                        _ => false,
                    }
                } else {
                    false
                };
                if empty_call {
                    let no_args: Vec<Box<Expr>> = Vec::new();
                    proof {
                        assert(exprs_view(no_args@) =~= Seq::<ExprView>::empty());
                    }
                    let e = Expr::Function((*s).to_owned(), no_args);
                    return Ok((e, i + 3));
                }
                match parse_args(toks, eof, i + 2, Vec::new()) {
                    Ok((args, j)) => {
                        let e = Expr::Function((*s).to_owned(), args);
                        return Ok((e, j));
                    },
                    Err(pe) => {
                        return Err(pe);
                    },
                }
            }
            Ok((Expr::Var((*s).to_owned()), i + 1))
        },
        Token::If => parse_if(toks, eof, i),
        Token::LParen => {
            let (e, j) = match parse_bin(toks, eof, i + 1, 0) {
                Ok(x) => x,
                Err(pe) => {
                    return Err(pe);
                },
            };
            if j < n {
                match &toks[j].1 {
                    Token::RParen => {
                        return Ok((e, j + 1));
                    },
                    _ => {},
                }
            }
            Err(err_at(toks, eof, j, "expected `)`"))
        },
        _ => Err(err_at(toks, eof, i, "expected an expression")),
    }
}

fn parse_args(toks: &Vec<(usize, Token, usize)>, eof: usize, i: usize, acc: Vec<Box<Expr>>) -> (r:
    Result<(Vec<Box<Expr>>, usize), ParsingError>)
    requires
        i <= toks@.len(),
        toks@.len() < usize::MAX,
    ensures
        match r {
            Result::Ok((args, j)) => s_parse_args(
                triples_view(toks@),
                eof as int,
                i as int,
                exprs_view(acc@),
            ) == Result::<(Seq<ExprView>, int), ParseErrView>::Ok((exprs_view(args@), j as int))
                && i < j <= toks@.len(),
            Result::Err(e) => s_parse_args(triples_view(toks@), eof as int, i as int, exprs_view(acc@))
                == Result::<(Seq<ExprView>, int), ParseErrView>::Err(pe_view(e)),
        },
    decreases toks@.len() - i + 1, 9int,
{
    let (e, j) = match parse_bin(toks, eof, i, 0) {
        Ok(x) => x,
        Err(pe) => {
            return Err(pe);
        },
    };
    let mut acc = acc;
    let ghost acc0 = acc@;
    if j < toks.len() {
        match &toks[j].1 {
            Token::Comma => {
                acc.push(Box::new(e));
                proof {
                    assert(acc@.drop_last() =~= acc0);
                    assert(exprs_view(acc@) == exprs_view(acc0).push(expr_view(e)));
                }
                return parse_args(toks, eof, j + 1, acc);
            },
            Token::RParen => {
                acc.push(Box::new(e));
                proof {
                    assert(acc@.drop_last() =~= acc0);
                    assert(exprs_view(acc@) == exprs_view(acc0).push(expr_view(e)));
                }
                return Ok((acc, j + 1));
            },
            _ => {},
        }
    }
    Err(err_at(toks, eof, j, "expected `,` or `)`"))
}

#[verifier::loop_isolation(false)]
fn parse_bin(toks: &Vec<(usize, Token, usize)>, eof: usize, i: usize, level: u8) -> (r: Result<
    (Expr, usize),
    ParsingError,
>)
    requires
        i <= toks@.len(),
        toks@.len() < usize::MAX,
        level <= 5,
    ensures
        match r {
            Result::Ok((e, j)) => s_parse_bin(triples_view(toks@), eof as int, i as int, level as int)
                == Result::<(ExprView, int), ParseErrView>::Ok((e@, j as int)) && i < j
                <= toks@.len(),
            Result::Err(e) => s_parse_bin(triples_view(toks@), eof as int, i as int, level as int)
                == Result::<(ExprView, int), ParseErrView>::Err(pe_view(e)),
        },
    decreases toks@.len() - i + 1, 8 - level as int,
{
    let first = if level >= 5 {
        parse_primary(toks, eof, i)
    } else {
        parse_bin(toks, eof, i, level + 1)
    };
    let (mut left, mut j) = match first {
        Ok(x) => x,
        Err(pe) => {
            return Err(pe);
        },
    };
    loop
        invariant
            i < j <= toks@.len(),
            s_parse_bin(triples_view(toks@), eof as int, i as int, level as int)
                == s_parse_bin_rest(
                triples_view(toks@),
                eof as int,
                j as int,
                level as int,
                left@,
            ),
        decreases toks@.len() - j,
    {
        if j >= toks.len() {
            return Ok((left, j));
        }
        let op = match op_for_level_exec(level, &toks[j].1) {
            Some(op) => op,
            None => {
                return Ok((left, j));
            },
        };
        let rhs = if level >= 5 {
            parse_primary(toks, eof, j + 1)
        } else {
            parse_bin(toks, eof, j + 1, level + 1)
        };
        match rhs {
            Ok((right, k)) => {
                left = Expr::Op(Box::new(left), op, Box::new(right));
                j = k;
            },
            Err(pe) => {
                return Err(pe);
            },
        }
    }
}

fn parse_if(toks: &Vec<(usize, Token, usize)>, eof: usize, i: usize) -> (r: Result<
    (Expr, usize),
    ParsingError,
>)
    requires
        i <= toks@.len(),
        toks@.len() < usize::MAX,
    ensures
        match r {
            Result::Ok((e, j)) => s_parse_if(triples_view(toks@), eof as int, i as int)
                == Result::<(ExprView, int), ParseErrView>::Ok((e@, j as int)) && i < j
                <= toks@.len(),
            Result::Err(e) => s_parse_if(triples_view(toks@), eof as int, i as int)
                == Result::<(ExprView, int), ParseErrView>::Err(pe_view(e)),
        },
    decreases toks@.len() - i + 1, 1int,
{
    let n = toks.len();
    let at_if = if i < n {
        match &toks[i].1 {
            Token::If => true,
            _ => false,
        }
    } else {
        false
    };
    if !at_if {
        return Err(err_at(toks, eof, i, "expected `if`"));
    }
    let (cond, j) = match parse_bin(toks, eof, i + 1, 0) {
        Ok(x) => x,
        Err(pe) => {
            return Err(pe);
        },
    };
    let at_lbrace = if j < n {
        match &toks[j].1 {
            Token::LBrace => true,
            _ => false,
        }
    } else {
        false
    };
    if !at_lbrace {
        return Err(err_at(toks, eof, j, "expected `{`"));
    }
    let (then_block, k) = match parse_block(toks, eof, j + 1) {
        Ok(x) => x,
        Err(pe) => {
            return Err(pe);
        },
    };
    let at_rbrace = if k < n {
        match &toks[k].1 {
            Token::RBrace => true,
            _ => false,
        }
    } else {
        false
    };
    if !at_rbrace {
        return Err(err_at(toks, eof, k, "expected `}`"));
    }
    let at_else = if k + 1 < n {
        match &toks[k + 1].1 {
            Token::Else => true,
            _ => false,
        }
    } else {
        false
    };
    if !at_else {
        let ghost condv = expr_view(cond);
        let ghost thenv = then_block@;
        let e = Expr::If(
            If { condition: Box::new(cond), if_block: then_block, else_block: None },
        );
        proof {
            reveal_with_fuel(expr_view, 2);
            reveal_with_fuel(if_view, 2);
            assert(e@ =~~= ExprView::EIf(
                Box::new(
                    IfView { cond: Box::new(condv), then_block: thenv, else_block: Option::None },
                ),
            ));
        }
        return Ok((e, k + 1));
    }
    let k2 = k + 2;
    let else_kind: u8 = if k2 < n {
        match &toks[k2].1 {
            Token::LBrace => 1,
            Token::If => 2,
            _ => 0,
        }
    } else {
        0
    };
    if else_kind == 1 {
        let (else_block, m) = match parse_block(toks, eof, k2 + 1) {
            Ok(x) => x,
            Err(pe) => {
                return Err(pe);
            },
        };
        let at_rbrace2 = if m < n {
            match &toks[m].1 {
                Token::RBrace => true,
                _ => false,
            }
        } else {
            false
        };
        if !at_rbrace2 {
            return Err(err_at(toks, eof, m, "expected `}`"));
        }
        let ghost condv = expr_view(cond);
        let ghost thenv = then_block@;
        let ghost elsev = else_block@;
        let e = Expr::If(
            If { condition: Box::new(cond), if_block: then_block, else_block: Some(else_block) },
        );
        proof {
            reveal_with_fuel(expr_view, 2);
            reveal_with_fuel(if_view, 2);
            assert(e@ =~~= ExprView::EIf(
                Box::new(
                    IfView {
                        cond: Box::new(condv),
                        then_block: thenv,
                        else_block: Option::Some(elsev),
                    },
                ),
            ));
        }
        Ok((e, m + 1))
    } else if else_kind == 2 {
        let (nested, m) = match parse_if(toks, eof, k2) {
            Ok(x) => x,
            Err(pe) => {
                return Err(pe);
            },
        };
        let ghost condv = expr_view(cond);
        let ghost thenv = then_block@;
        let ghost nestedv = expr_view(nested);
        let empty_stmts: Vec<Stmt> = Vec::new();
        proof {
            assert(stmts_view(empty_stmts@) =~= Seq::<StmtView>::empty());
        }
        let else_block = Block { statements: empty_stmts, expr: Box::new(nested) };
        let e = Expr::If(
            If { condition: Box::new(cond), if_block: then_block, else_block: Some(else_block) },
        );
        proof {
            reveal_with_fuel(expr_view, 3);
            reveal_with_fuel(if_view, 2);
            reveal_with_fuel(crate::ast::block_view, 2);
            reveal_with_fuel(crate::ast::stmts_view, 2);
            assert(e@ =~~= ExprView::EIf(
                Box::new(
                    IfView {
                        cond: Box::new(condv),
                        then_block: thenv,
                        else_block: Option::Some(
                            BlockView { stmts: Seq::empty(), expr: Box::new(nestedv) },
                        ),
                    },
                ),
            ));
        }
        Ok((e, m))
    } else {
        Err(err_at(toks, eof, k2, "expected `{` or `if` after `else`"))
    }
}

#[verifier::loop_isolation(false)]
fn parse_block(toks: &Vec<(usize, Token, usize)>, eof: usize, i: usize) -> (r: Result<
    (Block, usize),
    ParsingError,
>)
    requires
        i <= toks@.len(),
        toks@.len() < usize::MAX,
    ensures
        match r {
            Result::Ok((b, j)) => s_parse_block(triples_view(toks@), eof as int, i as int)
                == Result::<(BlockView, int), ParseErrView>::Ok((b@, j as int)) && i < j
                <= toks@.len(),
            Result::Err(e) => s_parse_block(triples_view(toks@), eof as int, i as int)
                == Result::<(BlockView, int), ParseErrView>::Err(pe_view(e)),
        },
    decreases toks@.len() - i + 1, 11int,
{
    let n = toks.len();
    let mut stmts: Vec<Stmt> = Vec::new();
    let mut cur = i;
    proof {
        reveal_with_fuel(s_parse_block_rest, 2);
        reveal_with_fuel(s_parse_block_tail, 2);
        assert(stmts_view(stmts@) =~= Seq::<StmtView>::empty());
    }
    loop
        invariant
            i <= cur <= n,
            s_parse_block(triples_view(toks@), eof as int, i as int) == s_parse_block_rest(
                triples_view(toks@),
                eof as int,
                cur as int,
                stmts_view(stmts@),
            ),
        decreases n - cur,
    {
        proof {
            reveal_with_fuel(s_parse_block_rest, 2);
            reveal_with_fuel(s_parse_block_tail, 2);
        }
        let asgn: Option<&str> = if cur + 1 < n {
            match (&toks[cur].1, &toks[cur + 1].1) {
                (Token::Ident(s), Token::Equal) => Some(*s),
                _ => None,
            }
        } else {
            None
        };
        let ghost stmts0 = stmts@;
        match asgn {
            Some(id) => {
                let (e, j) = match parse_bin(toks, eof, cur + 2, 0) {
                    Ok(x) => x,
                    Err(pe) => {
                        return Err(pe);
                    },
                };
                let at_semi = if j < n {
                    match &toks[j].1 {
                        Token::Semi => true,
                        _ => false,
                    }
                } else {
                    false
                };
                if !at_semi {
                    return Err(err_at(toks, eof, j, "expected `;`"));
                }
                let ghost ev = expr_view(e);
                let stmt = Stmt::Asgn(id.to_owned(), Box::new(e));
                proof {
                    assert(stmt_view(stmt) =~~= StmtView::SAsgn(id@, ev));
                }
                stmts.push(stmt);
                proof {
                    assert(stmts@.drop_last() =~= stmts0);
                    assert(stmts_view(stmts@) =~~= stmts_view(stmts0).push(
                        StmtView::SAsgn(id@, ev),
                    ));
                }
                cur = j + 1;
            },
            None => {
                let (e, j) = match parse_bin(toks, eof, cur, 0) {
                    Ok(x) => x,
                    Err(pe) => {
                        return Err(pe);
                    },
                };
                let at_semi = if j < n {
                    match &toks[j].1 {
                        Token::Semi => true,
                        _ => false,
                    }
                } else {
                    false
                };
                if !at_semi {
                    let ghost ev = expr_view(e);
                    let ghost sv = stmts_view(stmts@);
                    let b = Block { statements: stmts, expr: Box::new(e) };
                    proof {
                        assert(b@ =~~= BlockView { stmts: sv, expr: Box::new(ev) });
                    }
                    return Ok((b, j));
                }
                let ghost ev = expr_view(e);
                let stmt = Stmt::Expr(Box::new(e));
                proof {
                    assert(stmt_view(stmt) =~~= StmtView::SExpr(ev));
                }
                stmts.push(stmt);
                proof {
                    assert(stmts@.drop_last() =~= stmts0);
                    assert(stmts_view(stmts@) =~~= stmts_view(stmts0).push(StmtView::SExpr(ev)));
                }
                cur = j + 1;
            },
        }
    }
}

fn parse_params(toks: &Vec<(usize, Token, usize)>, eof: usize, i: usize, acc: Vec<Variable>) -> (r:
    Result<(Vec<Variable>, usize), ParsingError>)
    requires
        i <= toks@.len(),
        toks@.len() < usize::MAX,
    ensures
        match r {
            Result::Ok((params, j)) => s_parse_params(
                triples_view(toks@),
                eof as int,
                i as int,
                acc@.map_values(|v: Variable| var_view(v)),
            ) == Result::<(Seq<VarView>, int), ParseErrView>::Ok(
                (params@.map_values(|v: Variable| var_view(v)), j as int),
            ) && i < j <= toks@.len(),
            Result::Err(e) => s_parse_params(
                triples_view(toks@),
                eof as int,
                i as int,
                acc@.map_values(|v: Variable| var_view(v)),
            ) == Result::<(Seq<VarView>, int), ParseErrView>::Err(pe_view(e)),
        },
    decreases toks@.len() - i + 1, 9int,
{
    let n = toks.len();
    let name: Option<&str> = if i < n {
        match &toks[i].1 {
            Token::Ident(s) => Some(*s),
            _ => None,
        }
    } else {
        None
    };
    let id = match name {
        Some(id) => id,
        None => {
            return Err(err_at(toks, eof, i, "expected a parameter name"));
        },
    };
    let at_colon = if i + 1 < n {
        match &toks[i + 1].1 {
            Token::Colon => true,
            _ => false,
        }
    } else {
        false
    };
    if !at_colon {
        return Err(err_at(toks, eof, i + 1, "expected `:`"));
    }
    let dt: Option<DataType> = if i + 2 < n {
        match &toks[i + 2].1 {
            Token::I32 => Some(DataType::I32),
            Token::Boolean => Some(DataType::BOOL),
            Token::String => Some(DataType::STRING),
            _ => None,
        }
    } else {
        None
    };
    let dt = match dt {
        Some(dt) => dt,
        None => {
            return Err(err_at(toks, eof, i + 2, "expected a parameter type"));
        },
    };
    let param = Variable { ident: id.to_owned(), value: VarVal::placeholder(dt) };
    let mut acc = acc;
    let ghost acc0 = acc@;
    acc.push(param);
    proof {
        assert(acc@.map_values(|v: Variable| var_view(v)) =~= acc0.map_values(
            |v: Variable| var_view(v),
        ).push(var_view(acc@.last())));
    }
    let sep: u8 = if i + 3 < n {
        match &toks[i + 3].1 {
            Token::Comma => 1,
            Token::RParen => 2,
            _ => 0,
        }
    } else {
        0
    };
    if sep == 1 {
        parse_params(toks, eof, i + 4, acc)
    } else if sep == 2 {
        Ok((acc, i + 4))
    } else {
        Err(err_at(toks, eof, i + 3, "expected `,` or `)`"))
    }
}

fn parse_function(toks: &Vec<(usize, Token, usize)>, eof: usize, i: usize) -> (r: Result<
    (Function, usize),
    ParsingError,
>)
    requires
        i <= toks@.len(),
        toks@.len() < usize::MAX,
    ensures
        match r {
            Result::Ok((f, j)) => s_parse_function(triples_view(toks@), eof as int, i as int)
                == Result::<(FnView, int), ParseErrView>::Ok((f@, j as int)) && i < j <= toks@.len(),
            Result::Err(e) => s_parse_function(triples_view(toks@), eof as int, i as int)
                == Result::<(FnView, int), ParseErrView>::Err(pe_view(e)),
        },
    decreases toks@.len() - i + 1, 12int,
{
    let n = toks.len();
    let at_fn = if i < n {
        match &toks[i].1 {
            Token::Function => true,
            _ => false,
        }
    } else {
        false
    };
    if !at_fn {
        return Err(err_at(toks, eof, i, "expected `fn`"));
    }
    let name: Option<&str> = if i + 1 < n {
        match &toks[i + 1].1 {
            Token::Ident(s) => Some(*s),
            _ => None,
        }
    } else {
        None
    };
    let name = match name {
        Some(s) => s,
        None => {
            return Err(err_at(toks, eof, i + 1, "expected a function name"));
        },
    };
    let at_lparen = if i + 2 < n {
        match &toks[i + 2].1 {
            Token::LParen => true,
            _ => false,
        }
    } else {
        false
    };
    if !at_lparen {
        return Err(err_at(toks, eof, i + 2, "expected `(`"));
    }
    let empty_params = if i + 3 < n {
        match &toks[i + 3].1 {
            Token::RParen => true,
            _ => false,
        }
    } else {
        false
    };
    let (params, j) = if empty_params {
        let v: Vec<Variable> = Vec::new();
        proof {
            assert(v@.map_values(|x: Variable| var_view(x)) =~= Seq::<VarView>::empty());
        }
        (v, i + 4)
    } else {
        let empty_acc: Vec<Variable> = Vec::new();
        proof {
            assert(empty_acc@.map_values(|x: Variable| var_view(x)) =~= Seq::<VarView>::empty());
        }
        match parse_params(toks, eof, i + 3, empty_acc) {
            Ok(x) => x,
            Err(pe) => {
                return Err(pe);
            },
        }
    };
    let at_lbrace = if j < n {
        match &toks[j].1 {
            Token::LBrace => true,
            _ => false,
        }
    } else {
        false
    };
    if !at_lbrace {
        return Err(err_at(toks, eof, j, "expected `{`"));
    }
    let (body, k) = match parse_block(toks, eof, j + 1) {
        Ok(x) => x,
        Err(pe) => {
            return Err(pe);
        },
    };
    let at_rbrace = if k < n {
        match &toks[k].1 {
            Token::RBrace => true,
            _ => false,
        }
    } else {
        false
    };
    if !at_rbrace {
        return Err(err_at(toks, eof, k, "expected `}`"));
    }
    Ok((Function { arguments: params, name: name.to_owned(), block: body }, k + 1))
}

proof fn lemma_upsert_found(s: Seq<FnView>, i: int, f: FnView)
    requires
        0 <= i < s.len(),
        s[i].name == f.name,
        forall|j: int| 0 <= j < i ==> s[j].name != f.name,
    ensures
        upsert(s, f) == s.update(i, f),
    decreases s,
{
    if i == 0 {
        assert(upsert(s, f) =~= s.update(0, f));
    } else {
        lemma_upsert_found(s.drop_first(), i - 1, f);
        assert(s.drop_first().update(i - 1, f) =~= s.update(i, f).drop_first());
        assert(upsert(s, f) =~= s.update(i, f));
    }
}

pub proof fn lemma_upsert_absent(s: Seq<FnView>, f: FnView)
    requires
        forall|j: int| 0 <= j < s.len() ==> s[j].name != f.name,
    ensures
        upsert(s, f) == s.push(f),
    decreases s,
{
    if s.len() == 0 {
        assert(upsert(s, f) =~= s.push(f));
    } else {
        lemma_upsert_absent(s.drop_first(), f);
        assert(upsert(s, f) =~= s.push(f));
    }
}

/// Adds a parsed definition to the program: a second definition of a name
/// replaces the first, in place.
#[verifier::loop_isolation(false)]
fn program_upsert(prog: &mut Program, f: Function)
    ensures
        final(prog)@ == upsert(old(prog)@, f@),
{
    let ghost fv = fn_view(f);
    let n = prog.functions.len();
    let mut i: usize = 0;
    while i < n
        invariant
            0 <= i <= n,
            n == prog.functions@.len(),
            prog.functions@ == old(prog).functions@,
            forall|j: int| 0 <= j < i ==> prog@[j].name != fv.name,
        decreases n - i,
    {
        proof {
            assert(prog@[i as int] == fn_view(prog.functions@[i as int]));
        }
        if prog.functions[i].name == f.name {
            let ghost old_view = prog@;
            prog.functions[i] = f;
            proof {
                assert(prog@ =~= old_view.update(i as int, fv));
                lemma_upsert_found(old_view, i as int, fv);
            }
            return ;
        }
        i = i + 1;
    }
    let ghost old_view = prog@;
    prog.functions.push(f);
    proof {
        assert(prog@ =~= old_view.push(fv));
        lemma_upsert_absent(old_view, fv);
    }
}

#[verifier::loop_isolation(false)]
fn parse_program(toks: &Vec<(usize, Token, usize)>, eof: usize) -> (r: Result<Program, ParsingError>)
    requires
        toks@.len() < usize::MAX,
    ensures
        match r {
            Result::Ok(p) => s_parse_program(triples_view(toks@), eof as int, 0) == Result::<
                Seq<FnView>,
                ParseErrView,
            >::Ok(p@),
            Result::Err(e) => s_parse_program(triples_view(toks@), eof as int, 0) == Result::<
                Seq<FnView>,
                ParseErrView,
            >::Err(pe_view(e)),
        },
{
    let n = toks.len();
    let mut prog = Program { functions: Vec::new() };
    let mut cur: usize = 0;
    proof {
        assert(prog@ =~= Seq::<FnView>::empty());
    }
    loop
        invariant
            0 <= cur <= n,
            n == toks@.len(),
            s_parse_program_rest(triples_view(toks@), eof as int, 0, Seq::empty())
                == s_parse_program_rest(triples_view(toks@), eof as int, cur as int, prog@),
        decreases n - cur,
    {
        if cur >= n {
            return Ok(prog);
        }
        let (f, j) = match parse_function(toks, eof, cur) {
            Ok(x) => x,
            Err(pe) => {
                return Err(pe);
            },
        };
        let ghost fv = f@;
        program_upsert(&mut prog, f);
        cur = j;
    }
}

/// Parses source text into a [`Program`], or reports the first lexical or
/// syntax error with its span.
pub fn parse(input: &str) -> (r: Result<Program, ParsingError>)
    requires
        input@.len() < usize::MAX,
    ensures
        match r {
            Result::Ok(p) => s_parse(input@) == Result::<Seq<FnView>, ParseErrView>::Ok(p@),
            Result::Err(e) => s_parse(input@) == Result::<Seq<FnView>, ParseErrView>::Err(
                pe_view(e),
            ),
        },
{
    let toks = match tokenize(input) {
        Ok(t) => t,
        Err(le) => {
            proof {
                crate::lexer::lemma_s_tokens_err_bound(input@, 0);
            }
            return Err(
                parsing_err(le.location, le.location + 1, "unexpected character".to_owned()),
            );
        },
    };
    proof {
        crate::lexer::lemma_s_tokens_len(input@, 0);
    }
    let eof = input.unicode_len();
    parse_program(&toks, eof)
}

} // verus!
