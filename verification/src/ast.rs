//! The abstract syntax tree shared by the parser and the evaluator, and the
//! mathematical model (`...View` types) that all contracts are stated over.
//!
//! Every executable tree type has a view: identifiers become `Seq<char>`,
//! vectors become `Seq`, and the tree structure is mirrored one to one.

use vstd::prelude::*;

verus! {

/// The evaluated arguments handed to a function or native call, in call order.
#[derive(Debug, PartialEq, Eq, Clone)]
pub struct ArgList {
    pub args: Vec<VarVal>,
}

/// A parsed program: its function definitions, keyed by name.
///
/// The parser keeps at most one definition per name (a later definition of
/// the same name replaces the earlier one); lookup takes the first match.
#[derive(Debug, PartialEq, Eq)]
pub struct Program {
    pub functions: Vec<Function>,
}

/// A user-defined function: its name, its ordered parameter list (each with a
/// declared-but-unbound placeholder value), and its body.
#[derive(Debug, PartialEq, Eq)]
pub struct Function {
    pub arguments: Vec<Variable>,
    pub name: String,
    pub block: Block,
}

/// A named binding: an identifier together with its current value.
#[derive(Debug, PartialEq, Eq, Clone)]
pub struct Variable {
    pub ident: String,
    pub value: VarVal,
}

/// A declared parameter type, as written in the source.
#[derive(Debug, PartialEq, Eq, Clone, Copy)]
pub enum DataType {
    I32,
    BOOL,
    STRING,
    UNIT,
}

/// A runtime value: a 32-bit integer, a boolean, a string, or unit.
///
/// Each typed variant allows an "absent" state (`None`), used only as the
/// uninitialized placeholder of a declared parameter; evaluation never
/// produces an absent value.
#[derive(Debug, PartialEq, Eq)]
pub enum VarVal {
    I32(Option<i32>),
    BOOL(Option<bool>),
    STRING(Option<String>),
    UNIT,
}

/// A block: statements in order, then exactly one trailing expression whose
/// value is the block's value.
#[derive(Debug, PartialEq, Eq)]
pub struct Block {
    pub statements: Vec<Stmt>,
    pub expr: Box<Expr>,
}

/// A statement: a bare expression evaluated for effect, or an assignment that
/// (re)binds a name in the local environment.
#[derive(Debug, PartialEq, Eq)]
pub enum Stmt {
    Expr(Box<Expr>),
    Asgn(String, Box<Expr>),
}

/// An `if`-expression. An absent else branch yields unit; an else-if chain is
/// a nested `if`-expression as the else block's trailing expression.
#[derive(Debug, PartialEq, Eq)]
pub struct If {
    pub condition: Box<Expr>,
    pub if_block: Block,
    pub else_block: Option<Block>,
}

/// An expression tree over five shapes.
#[derive(Debug, PartialEq, Eq)]
pub enum Expr {
    Var(String),
    Value(VarVal),
    Op(Box<Expr>, Opcode, Box<Expr>),
    Function(String, Vec<Box<Expr>>),
    If(If),
}

/// The thirteen binary operators: arithmetic, equality, relational, logical.
#[derive(Debug, PartialEq, Eq, Clone, Copy)]
pub enum Opcode {
    Mul,
    Div,
    Mod,
    Add,
    Sub,
    Eq,
    Ne,
    Lt,
    Le,
    Gt,
    Ge,
    And,
    Or,
}

// ---------------------------------------------------------------------------
// The mathematical model of the tree.
// ---------------------------------------------------------------------------

/// Model of a [`VarVal`].
#[verifier::ext_equal]
pub enum ValView {
    VInt(Option<i32>),
    VBool(Option<bool>),
    VStr(Option<Seq<char>>),
    VUnit,
}

/// Model of a [`Variable`].
#[verifier::ext_equal]
pub struct VarView {
    pub ident: Seq<char>,
    pub value: ValView,
}

/// Model of an [`Expr`].
#[verifier::ext_equal]
pub enum ExprView {
    EVar(Seq<char>),
    EVal(ValView),
    EOp(Box<ExprView>, Opcode, Box<ExprView>),
    ECall(Seq<char>, Seq<ExprView>),
    EIf(Box<IfView>),
}

/// Model of a [`Stmt`].
#[verifier::ext_equal]
pub enum StmtView {
    SExpr(ExprView),
    SAsgn(Seq<char>, ExprView),
}

/// Model of a [`Block`].
#[verifier::ext_equal]
pub struct BlockView {
    pub stmts: Seq<StmtView>,
    pub expr: Box<ExprView>,
}

/// Model of an [`If`].
#[verifier::ext_equal]
pub struct IfView {
    pub cond: Box<ExprView>,
    pub then_block: BlockView,
    pub else_block: Option<BlockView>,
}

/// Model of a [`Function`].
#[verifier::ext_equal]
pub struct FnView {
    pub params: Seq<VarView>,
    pub name: Seq<char>,
    pub body: BlockView,
}

pub open spec fn val_view(v: VarVal) -> ValView {
    match v {
        VarVal::I32(o) => ValView::VInt(o),
        VarVal::BOOL(o) => ValView::VBool(o),
        VarVal::STRING(o) => ValView::VStr(match o {
            Option::Some(s) => Option::Some(s@),
            Option::None => Option::None,
        }),
        VarVal::UNIT => ValView::VUnit,
    }
}

pub open spec fn expr_view(e: Expr) -> ExprView
    decreases e,
{
    match e {
        Expr::Var(id) => ExprView::EVar(id@),
        Expr::Value(v) => ExprView::EVal(val_view(v)),
        Expr::Op(l, op, r) => ExprView::EOp(Box::new(expr_view(*l)), op, Box::new(expr_view(*r))),
        Expr::Function(name, args) => ExprView::ECall(name@, exprs_view(args@)),
        Expr::If(f) => ExprView::EIf(Box::new(if_view(f))),
    }
}

pub open spec fn exprs_view(s: Seq<Box<Expr>>) -> Seq<ExprView>
    decreases s,
{
    if s.len() == 0 {
        Seq::empty()
    } else {
        exprs_view(s.drop_last()).push(expr_view(*s.last()))
    }
}

pub open spec fn stmt_view(s: Stmt) -> StmtView
    decreases s,
{
    match s {
        Stmt::Expr(e) => StmtView::SExpr(expr_view(*e)),
        Stmt::Asgn(id, e) => StmtView::SAsgn(id@, expr_view(*e)),
    }
}

pub open spec fn stmts_view(s: Seq<Stmt>) -> Seq<StmtView>
    decreases s,
{
    if s.len() == 0 {
        Seq::empty()
    } else {
        stmts_view(s.drop_last()).push(stmt_view(s.last()))
    }
}

pub open spec fn block_view(b: Block) -> BlockView
    decreases b,
{
    BlockView { stmts: stmts_view(b.statements@), expr: Box::new(expr_view(*b.expr)) }
}

pub open spec fn if_view(f: If) -> IfView
    decreases f,
{
    IfView {
        cond: Box::new(expr_view(*f.condition)),
        then_block: block_view(f.if_block),
        else_block: match f.else_block {
            Option::Some(b) => Option::Some(block_view(b)),
            Option::None => Option::None,
        },
    }
}

pub open spec fn fn_view(f: Function) -> FnView {
    FnView {
        params: f.arguments@.map_values(|v: Variable| var_view(v)),
        name: f.name@,
        body: block_view(f.block),
    }
}

pub open spec fn var_view(v: Variable) -> VarView {
    VarView { ident: v.ident@, value: val_view(v.value) }
}

impl View for VarVal {
    type V = ValView;

    open spec fn view(&self) -> ValView {
        val_view(*self)
    }
}

impl View for Variable {
    type V = VarView;

    open spec fn view(&self) -> VarView {
        var_view(*self)
    }
}

impl View for Expr {
    type V = ExprView;

    open spec fn view(&self) -> ExprView {
        expr_view(*self)
    }
}

impl View for Stmt {
    type V = StmtView;

    open spec fn view(&self) -> StmtView {
        stmt_view(*self)
    }
}

impl View for Block {
    type V = BlockView;

    open spec fn view(&self) -> BlockView {
        block_view(*self)
    }
}

impl View for If {
    type V = IfView;

    open spec fn view(&self) -> IfView {
        if_view(*self)
    }
}

impl View for Function {
    type V = FnView;

    open spec fn view(&self) -> FnView {
        fn_view(*self)
    }
}

impl View for Program {
    type V = Seq<FnView>;

    open spec fn view(&self) -> Seq<FnView> {
        self.functions@.map_values(|f: Function| fn_view(f))
    }
}

impl View for ArgList {
    type V = Seq<ValView>;

    open spec fn view(&self) -> Seq<ValView> {
        self.args@.map_values(|v: VarVal| val_view(v))
    }
}

/// The view of an expression list is the list of the views, in order.
pub proof fn lemma_exprs_view(s: Seq<Box<Expr>>)
    ensures
        exprs_view(s).len() == s.len(),
        forall|i: int| 0 <= i < s.len() ==> exprs_view(s)[i] == expr_view(*s[i]),
    decreases s,
{
    if s.len() > 0 {
        lemma_exprs_view(s.drop_last());
    }
}

/// The view of a statement list is the list of the views, in order.
pub proof fn lemma_stmts_view(s: Seq<Stmt>)
    ensures
        stmts_view(s).len() == s.len(),
        forall|i: int| 0 <= i < s.len() ==> stmts_view(s)[i] == stmt_view(s[i]),
    decreases s,
{
    if s.len() > 0 {
        lemma_stmts_view(s.drop_last());
    }
}

/// The first function named `name`, if any; the model of program lookup.
pub open spec fn find_fn(fns: Seq<FnView>, name: Seq<char>) -> Option<FnView>
    decreases fns,
{
    if fns.len() == 0 {
        Option::None
    } else if fns.first().name == name {
        Option::Some(fns.first())
    } else {
        find_fn(fns.drop_first(), name)
    }
}

impl VarVal {
    /// The unbound placeholder value of a declared parameter type.
    pub open spec fn spec_placeholder(dt: DataType) -> VarVal {
        match dt {
            DataType::I32 => VarVal::I32(Option::None),
            DataType::BOOL => VarVal::BOOL(Option::None),
            DataType::STRING => VarVal::STRING(Option::None),
            DataType::UNIT => VarVal::UNIT,
        }
    }

    /// Builds the unbound placeholder value for a declared parameter type.
    pub fn placeholder(dt: DataType) -> (r: VarVal)
        ensures
            r == VarVal::spec_placeholder(dt),
    {
        match dt {
            DataType::I32 => VarVal::I32(None),
            DataType::BOOL => VarVal::BOOL(None),
            DataType::STRING => VarVal::STRING(None),
            DataType::UNIT => VarVal::UNIT,
        }
    }
}

impl Clone for VarVal {
    /// An exact copy: values are always copied on use, never shared.
    fn clone(&self) -> (r: Self)
        ensures
            r == *self,
    {
        match self {
            VarVal::I32(o) => VarVal::I32(match o {
                Some(v) => Some(*v),
                None => None,
            }),
            VarVal::BOOL(o) => VarVal::BOOL(match o {
                Some(v) => Some(*v),
                None => None,
            }),
            VarVal::STRING(o) => VarVal::STRING(match o {
                Some(s) => Some(s.clone()),
                None => None,
            }),
            VarVal::UNIT => VarVal::UNIT,
        }
    }
}

impl Program {
    /// Looks a function up by name; the first definition with that name.
    pub fn find(&self, name: &String) -> (r: Option<&Function>)
        ensures
            match r {
                Option::Some(f) => find_fn(self@, name@) == Option::Some(f@),
                Option::None => find_fn(self@, name@) is None,
            },
    {
        let n = self.functions.len();
        let mut i: usize = 0;
        proof {
            assert(self@.skip(0) =~= self@);
        }
        while i < n
            invariant
                0 <= i <= n,
                n == self.functions.len(),
                find_fn(self@, name@) == find_fn(self@.skip(i as int), name@),
            decreases n - i,
        {
            proof {
                assert(self@.len() == n);
                assert(self@.skip(i as int).len() == n - i);
                assert(self@.skip(i as int).first() == self@[i as int]);
                assert(self@[i as int] == fn_view(self.functions@[i as int]));
                assert(self@.skip(i as int).drop_first() =~= self@.skip(i as int + 1));
            }
            if self.functions[i].name == *name {
                return Some(&self.functions[i]);
            }
            i = i + 1;
        }
        proof {
            assert(self@.skip(n as int) =~= Seq::<FnView>::empty());
        }
        None
    }
}

} // verus!
