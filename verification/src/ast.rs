//! The Six abstract syntax tree.
//!
//! The tree is deliberately small — it mirrors the six fundamental concepts:
//! values, names, operations, functions, conditionals, and Groups. Syntactic
//! sugar (dot-flow, `>>` flow, the `?`/`??`/`?*` shorthands) is desugared by the
//! parser, so an evaluator never sees it.
//!
//! Every node has a mathematical model (`SStmt`, `SExpr`, ...) in which text
//! is a character sequence and lists are sequences; the parser's contracts are
//! stated over these models.

use std::rc::Rc;

use vstd::prelude::*;

verus! {

/// A top-level or block-level statement.
#[derive(Debug)]
pub enum Stmt {
    /// `name : value`  or  `name :: value` (deep copy).
    Bind { name: String, value: Expr, deep: bool, immutable: bool, line: usize },
    /// `target = value` — rebind a name or write through an index/key.
    Assign { target: Expr, value: Expr, line: usize },
    /// A function declaration binds a function value to `name`.
    Func { def: Rc<FuncDef>, immutable: bool, line: usize },
    /// `@name` — import `name.six` and bind its program Group under `name`.
    Import { name: String, line: usize },
    /// A bare expression evaluated for its value and/or effect.
    Expr(Expr),
}

/// The static description of a function (shared by every closure over it).
#[derive(Debug)]
pub struct FuncDef {
    pub name: String,
    pub params: Vec<String>,
    pub body: Vec<Stmt>,
    pub line: usize,
}

/// An expression.
#[derive(Debug)]
pub enum Expr {
    /// A number literal, as its decimal text with thousands separators
    /// removed (`"1000"`, `"12345.67"`).
    Number(String),
    Text(String),
    Bool(bool),
    /// Generic empty (`..` / `nil`).
    Empty,
    /// `$` — the final valid index, resolved against whatever it indexes.
    Last,
    Var { name: String, line: usize },
    /// A Group literal: `[a b c]`.
    Group { members: Vec<Expr>, line: usize },
    /// Structural access: `base[index]`.
    Index { base: Box<Expr>, index: Box<Expr>, line: usize },
    /// Function application. `callee` is applied to `args`; the flowing value in
    /// `>>` / dot-flow is desugared to `args[0]`.
    Call { callee: Box<Expr>, args: Vec<Arg>, line: usize },
    Unary { op: UnOp, expr: Box<Expr>, line: usize },
    /// A numeric postfix operator: `x~`, `x~2`, `x^`, `x_`, `x**`, `x**y`, `x//`.
    Postfix { op: PostOp, expr: Box<Expr>, arg: Option<Box<Expr>>, line: usize },
    Binary { op: BinOp, left: Box<Expr>, right: Box<Expr>, line: usize },
    /// A conditional. `any == true` means "run every matching branch".
    If { any: bool, arms: Vec<Arm>, else_body: Option<Vec<Stmt>>, line: usize },
}

/// A call argument. `<group>` splat-opens a Group into separate arguments.
#[derive(Debug)]
pub enum Arg {
    Normal(Expr),
    Splat(Expr),
}

/// One arm of a conditional: `condition >> body`.
#[derive(Debug)]
pub struct Arm {
    pub cond: Expr,
    pub body: Vec<Stmt>,
}

#[derive(Debug, Clone, Copy, PartialEq, Eq, Structural)]
pub enum UnOp {
    Neg,
    Not,
}

/// Numeric postfix operators.
#[derive(Debug, Clone, Copy, PartialEq, Eq, Structural)]
pub enum PostOp {
    /// `~` (round to integer) or `~n` (round to n decimals)
    Round,
    /// `^`
    Ceil,
    /// `_`
    Floor,
    /// `**` with no operand
    Square,
    /// `**y`
    Power,
    /// `//`
    Sqrt,
}

#[derive(Debug, Clone, Copy, PartialEq, Eq, Structural)]
pub enum BinOp {
    Add,
    Sub,
    Mul,
    Div,
    Mod,
    Eq,
    Ne,
    Lt,
    Gt,
    Le,
    Ge,
    And,
    Or,
}

impl Expr {
    /// The source line of an expression; literals carry none and report 0.
    pub fn line(&self) -> (r: usize)
        ensures
            r == line_of(expr_view(self)),
    {
        match self {
            Expr::Var { line, .. }
            | Expr::Group { line, .. }
            | Expr::Index { line, .. }
            | Expr::Call { line, .. }
            | Expr::Unary { line, .. }
            | Expr::Postfix { line, .. }
            | Expr::Binary { line, .. }
            | Expr::If { line, .. } => *line,
            _ => 0,
        }
    }
}

// --- the model ------------------------------------------------------------------

pub enum SStmt {
    Bind { name: Seq<char>, value: SExpr, deep: bool, immutable: bool, line: usize },
    Assign { target: SExpr, value: SExpr, line: usize },
    Func { def: SFuncDef, immutable: bool, line: usize },
    Import { name: Seq<char>, line: usize },
    Expr(SExpr),
}

pub struct SFuncDef {
    pub name: Seq<char>,
    pub params: Seq<Seq<char>>,
    pub body: Seq<SStmt>,
    pub line: usize,
}

pub enum SExpr {
    Number(Seq<char>),
    Text(Seq<char>),
    Bool(bool),
    Empty,
    Last,
    Var { name: Seq<char>, line: usize },
    Group { members: Seq<SExpr>, line: usize },
    Index { base: Box<SExpr>, index: Box<SExpr>, line: usize },
    Call { callee: Box<SExpr>, args: Seq<SArg>, line: usize },
    Unary { op: UnOp, expr: Box<SExpr>, line: usize },
    Postfix { op: PostOp, expr: Box<SExpr>, arg: Option<Box<SExpr>>, line: usize },
    Binary { op: BinOp, left: Box<SExpr>, right: Box<SExpr>, line: usize },
    If { any: bool, arms: Seq<SArm>, else_body: Option<Seq<SStmt>>, line: usize },
}

pub enum SArg {
    Normal(SExpr),
    Splat(SExpr),
}

pub struct SArm {
    pub cond: SExpr,
    pub body: Seq<SStmt>,
}

/// The source line an expression records (literals record none: 0).
pub open spec fn line_of(e: SExpr) -> usize {
    match e {
        SExpr::Var { line, .. } => line,
        SExpr::Group { line, .. } => line,
        SExpr::Index { line, .. } => line,
        SExpr::Call { line, .. } => line,
        SExpr::Unary { line, .. } => line,
        SExpr::Postfix { line, .. } => line,
        SExpr::Binary { line, .. } => line,
        SExpr::If { line, .. } => line,
        _ => 0,
    }
}

/// The model of a list of names.
pub open spec fn names_view(ns: Seq<String>) -> Seq<Seq<char>> {
    ns.map_values(|n: String| n@)
}

pub open spec fn expr_view(e: &Expr) -> SExpr
    decreases e,
{
    match e {
        Expr::Number(n) => SExpr::Number(n@),
        Expr::Text(s) => SExpr::Text(s@),
        Expr::Bool(b) => SExpr::Bool(*b),
        Expr::Empty => SExpr::Empty,
        Expr::Last => SExpr::Last,
        Expr::Var { name, line } => SExpr::Var { name: name@, line: *line },
        Expr::Group { members, line } => SExpr::Group { members: exprs_view(members@), line: *line },
        Expr::Index { base, index, line } => SExpr::Index {
            base: Box::new(expr_view(base)),
            index: Box::new(expr_view(index)),
            line: *line,
        },
        Expr::Call { callee, args, line } => SExpr::Call {
            callee: Box::new(expr_view(callee)),
            args: args_view(args@),
            line: *line,
        },
        Expr::Unary { op, expr, line } => SExpr::Unary {
            op: *op,
            expr: Box::new(expr_view(expr)),
            line: *line,
        },
        Expr::Postfix { op, expr, arg, line } => SExpr::Postfix {
            op: *op,
            expr: Box::new(expr_view(expr)),
            arg: match arg {
                Some(a) => Some(Box::new(expr_view(a))),
                None => None,
            },
            line: *line,
        },
        Expr::Binary { op, left, right, line } => SExpr::Binary {
            op: *op,
            left: Box::new(expr_view(left)),
            right: Box::new(expr_view(right)),
            line: *line,
        },
        Expr::If { any, arms, else_body, line } => SExpr::If {
            any: *any,
            arms: arms_view(arms@),
            else_body: match else_body {
                Some(b) => Some(stmts_view(b@)),
                None => None,
            },
            line: *line,
        },
    }
}

pub open spec fn exprs_view(es: Seq<Expr>) -> Seq<SExpr>
    decreases es,
{
    if es.len() == 0 {
        Seq::empty()
    } else {
        exprs_view(es.drop_last()).push(expr_view(&es.last()))
    }
}

pub open spec fn arg_view(a: &Arg) -> SArg
    decreases a,
{
    match a {
        Arg::Normal(e) => SArg::Normal(expr_view(e)),
        Arg::Splat(e) => SArg::Splat(expr_view(e)),
    }
}

pub open spec fn args_view(args: Seq<Arg>) -> Seq<SArg>
    decreases args,
{
    if args.len() == 0 {
        Seq::empty()
    } else {
        args_view(args.drop_last()).push(arg_view(&args.last()))
    }
}

pub open spec fn arm_view(a: &Arm) -> SArm
    decreases a,
{
    SArm { cond: expr_view(&a.cond), body: stmts_view(a.body@) }
}

pub open spec fn arms_view(arms: Seq<Arm>) -> Seq<SArm>
    decreases arms,
{
    if arms.len() == 0 {
        Seq::empty()
    } else {
        arms_view(arms.drop_last()).push(arm_view(&arms.last()))
    }
}

pub open spec fn stmt_view(s: &Stmt) -> SStmt
    decreases s,
{
    match s {
        Stmt::Bind { name, value, deep, immutable, line } => SStmt::Bind {
            name: name@,
            value: expr_view(value),
            deep: *deep,
            immutable: *immutable,
            line: *line,
        },
        Stmt::Assign { target, value, line } => SStmt::Assign {
            target: expr_view(target),
            value: expr_view(value),
            line: *line,
        },
        Stmt::Func { def, immutable, line } => SStmt::Func {
            def: SFuncDef {
                name: def.name@,
                params: names_view(def.params@),
                body: stmts_view(def.body@),
                line: def.line,
            },
            immutable: *immutable,
            line: *line,
        },
        Stmt::Import { name, line } => SStmt::Import { name: name@, line: *line },
        Stmt::Expr(e) => SStmt::Expr(expr_view(e)),
    }
}

pub open spec fn stmts_view(ss: Seq<Stmt>) -> Seq<SStmt>
    decreases ss,
{
    if ss.len() == 0 {
        Seq::empty()
    } else {
        stmts_view(ss.drop_last()).push(stmt_view(&ss.last()))
    }
}

// --- facts about the model ----------------------------------------------------------

pub proof fn lemma_exprs_view(es: Seq<Expr>)
    ensures
        exprs_view(es).len() == es.len(),
        forall|i: int| 0 <= i < es.len() ==> #[trigger] exprs_view(es)[i] == expr_view(&es[i]),
    decreases es.len(),
{
    if es.len() > 0 {
        lemma_exprs_view(es.drop_last());
    }
}

pub proof fn lemma_args_view(args: Seq<Arg>)
    ensures
        args_view(args).len() == args.len(),
        forall|i: int| 0 <= i < args.len() ==> #[trigger] args_view(args)[i] == arg_view(&args[i]),
    decreases args.len(),
{
    if args.len() > 0 {
        lemma_args_view(args.drop_last());
    }
}

pub proof fn lemma_arms_view(arms: Seq<Arm>)
    ensures
        arms_view(arms).len() == arms.len(),
        forall|i: int| 0 <= i < arms.len() ==> #[trigger] arms_view(arms)[i] == arm_view(&arms[i]),
    decreases arms.len(),
{
    if arms.len() > 0 {
        lemma_arms_view(arms.drop_last());
    }
}

pub proof fn lemma_stmts_view(ss: Seq<Stmt>)
    ensures
        stmts_view(ss).len() == ss.len(),
        forall|i: int| 0 <= i < ss.len() ==> #[trigger] stmts_view(ss)[i] == stmt_view(&ss[i]),
    decreases ss.len(),
{
    if ss.len() > 0 {
        lemma_stmts_view(ss.drop_last());
    }
}

// --- copying ----------------------------------------------------------------------------

/// A copy of an expression, node for node.
#[verifier::loop_isolation(false)]
pub fn copy_expr(e: &Expr) -> (r: Expr)
    ensures
        expr_view(&r) == expr_view(e),
    decreases e,
{
    match e {
        Expr::Number(n) => Expr::Number(n.clone()),
        Expr::Text(s) => Expr::Text(s.clone()),
        Expr::Bool(b) => Expr::Bool(*b),
        Expr::Empty => Expr::Empty,
        Expr::Last => Expr::Last,
        Expr::Var { name, line } => Expr::Var { name: name.clone(), line: *line },
        Expr::Group { members, line } => {
            let mut out: Vec<Expr> = Vec::new();
            let mut i: usize = 0;
            while i < members.len()
                invariant
                    i <= members@.len(),
                    out@.len() == i,
                    forall|j: int| 0 <= j < i ==> expr_view(&#[trigger] out@[j]) == expr_view(&members@[j]),
                decreases members@.len() - i,
            {
                proof {
                    vstd::std_specs::vec::axiom_vec_index_decreases(*members, i as int);
                }
                out.push(copy_expr(&members[i]));
                i = i + 1;
            }
            proof {
                lemma_exprs_view(out@);
                lemma_exprs_view(members@);
                assert(exprs_view(out@) =~= exprs_view(members@));
            }
            Expr::Group { members: out, line: *line }
        },
        Expr::Index { base, index, line } => Expr::Index {
            base: Box::new(copy_expr(base)),
            index: Box::new(copy_expr(index)),
            line: *line,
        },
        Expr::Call { callee, args, line } => {
            let callee2 = Box::new(copy_expr(callee));
            let mut out: Vec<Arg> = Vec::new();
            let mut i: usize = 0;
            while i < args.len()
                invariant
                    i <= args@.len(),
                    out@.len() == i,
                    forall|j: int| 0 <= j < i ==> arg_view(&#[trigger] out@[j]) == arg_view(&args@[j]),
                decreases args@.len() - i,
            {
                proof {
                    vstd::std_specs::vec::axiom_vec_index_decreases(*args, i as int);
                }
                let a = match &args[i] {
                    Arg::Normal(x) => Arg::Normal(copy_expr(x)),
                    Arg::Splat(x) => Arg::Splat(copy_expr(x)),
                };
                out.push(a);
                i = i + 1;
            }
            proof {
                lemma_args_view(out@);
                lemma_args_view(args@);
                assert(args_view(out@) =~= args_view(args@));
            }
            Expr::Call { callee: callee2, args: out, line: *line }
        },
        Expr::Unary { op, expr, line } => Expr::Unary {
            op: *op,
            expr: Box::new(copy_expr(expr)),
            line: *line,
        },
        Expr::Postfix { op, expr, arg, line } => {
            let arg2 = match arg {
                Some(a) => Some(Box::new(copy_expr(a))),
                None => None,
            };
            Expr::Postfix { op: *op, expr: Box::new(copy_expr(expr)), arg: arg2, line: *line }
        },
        Expr::Binary { op, left, right, line } => Expr::Binary {
            op: *op,
            left: Box::new(copy_expr(left)),
            right: Box::new(copy_expr(right)),
            line: *line,
        },
        Expr::If { any, arms, else_body, line } => {
            let mut out: Vec<Arm> = Vec::new();
            let mut i: usize = 0;
            while i < arms.len()
                invariant
                    i <= arms@.len(),
                    out@.len() == i,
                    forall|j: int| 0 <= j < i ==> arm_view(&#[trigger] out@[j]) == arm_view(&arms@[j]),
                decreases arms@.len() - i,
            {
                proof {
                    vstd::std_specs::vec::axiom_vec_index_decreases(*arms, i as int);
                }
                let arm = &arms[i];
                let a = Arm { cond: copy_expr(&arm.cond), body: copy_stmts(&arm.body) };
                out.push(a);
                i = i + 1;
            }
            proof {
                lemma_arms_view(out@);
                lemma_arms_view(arms@);
                assert(arms_view(out@) =~= arms_view(arms@));
            }
            let else2 = match else_body {
                Some(b) => Some(copy_stmts(b)),
                None => None,
            };
            Expr::If { any: *any, arms: out, else_body: else2, line: *line }
        },
    }
}

/// A copy of a statement list, node for node.
#[verifier::loop_isolation(false)]
pub fn copy_stmts(ss: &Vec<Stmt>) -> (r: Vec<Stmt>)
    ensures
        stmts_view(r@) == stmts_view(ss@),
    decreases ss,
{
    let mut out: Vec<Stmt> = Vec::new();
    let mut i: usize = 0;
    while i < ss.len()
        invariant
            i <= ss@.len(),
            out@.len() == i,
            forall|j: int| 0 <= j < i ==> stmt_view(&#[trigger] out@[j]) == stmt_view(&ss@[j]),
        decreases ss@.len() - i,
    {
        proof {
            vstd::std_specs::vec::axiom_vec_index_decreases(*ss, i as int);
        }
        out.push(copy_stmt(&ss[i]));
        i = i + 1;
    }
    proof {
        lemma_stmts_view(out@);
        lemma_stmts_view(ss@);
        assert(stmts_view(out@) =~= stmts_view(ss@));
    }
    out
}

/// A copy of a statement, node for node.
#[verifier::loop_isolation(false)]
pub fn copy_stmt(s: &Stmt) -> (r: Stmt)
    ensures
        stmt_view(&r) == stmt_view(s),
    decreases s,
{
    match s {
        Stmt::Bind { name, value, deep, immutable, line } => Stmt::Bind {
            name: name.clone(),
            value: copy_expr(value),
            deep: *deep,
            immutable: *immutable,
            line: *line,
        },
        Stmt::Assign { target, value, line } => Stmt::Assign {
            target: copy_expr(target),
            value: copy_expr(value),
            line: *line,
        },
        Stmt::Func { def, immutable, line } => {
            let mut params: Vec<String> = Vec::new();
            let mut i: usize = 0;
            while i < def.params.len()
                invariant
                    i <= def.params@.len(),
                    params@.len() == i,
                    forall|j: int| 0 <= j < i ==> (#[trigger] params@[j])@ == def.params@[j]@,
                decreases def.params@.len() - i,
            {
                params.push(def.params[i].clone());
                i = i + 1;
            }
            assert(names_view(params@) =~= names_view(def.params@));
            let d = FuncDef {
                name: def.name.clone(),
                params,
                body: copy_stmts(&def.body),
                line: def.line,
            };
            Stmt::Func { def: Rc::new(d), immutable: *immutable, line: *line }
        },
        Stmt::Import { name, line } => Stmt::Import { name: name.clone(), line: *line },
        Stmt::Expr(e) => Stmt::Expr(copy_expr(e)),
    }
}


} // verus!
