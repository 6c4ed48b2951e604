//! The syntax tree of an S# program, and its mathematical counterpart.
use vstd::prelude::*;

verus! {

#[derive(Debug, Clone, PartialEq)]
pub struct Program {
    pub event: WhenBlock,
}

#[derive(Debug, Clone, PartialEq)]
pub struct WhenBlock {
    pub event_name: String,
    pub body: Vec<Stmt>,
}

#[derive(Debug, PartialEq)]
pub enum Stmt {
    Ask { prompt: String, target: String },
    Assign { value: Expr, target: String },
    Display { value: Expr },
    If { condition: Expr, actions: Vec<Stmt> },
    Repeat { count: Expr, actions: Vec<Stmt> },
    While { condition: Expr, actions: Vec<Stmt> },
    FunctionDef { name: String, params: Vec<String>, return_expr: Expr },
}

/// An expression. A number literal keeps the text it was written with.
#[derive(Debug, PartialEq)]
pub enum Expr {
    Number(String),
    Str(String),
    Identifier(String),
    Binary { left: Box<Expr>, op: BinOp, right: Box<Expr> },
}

#[derive(Debug, Clone, Copy, PartialEq, Eq, Structural)]
pub enum BinOp {
    Add,
    Sub,
    Mul,
    Div,
    Eq,
    Gt,
    Lt,
    GtEq,
    LtEq,
}

/// What an expression stands for, with its texts as character sequences.
pub enum SExpr {
    Number(Seq<char>),
    Str(Seq<char>),
    Identifier(Seq<char>),
    Binary { left: Box<SExpr>, op: BinOp, right: Box<SExpr> },
}

/// What a statement stands for.
pub enum SStmt {
    Ask { prompt: Seq<char>, target: Seq<char> },
    Assign { value: SExpr, target: Seq<char> },
    Display { value: SExpr },
    If { condition: SExpr, actions: Seq<SStmt> },
    Repeat { count: SExpr, actions: Seq<SStmt> },
    While { condition: SExpr, actions: Seq<SStmt> },
    FunctionDef { name: Seq<char>, params: Seq<Seq<char>>, return_expr: SExpr },
}

/// What a program stands for: its event's name and body.
pub struct SProgram {
    pub event_name: Seq<char>,
    pub body: Seq<SStmt>,
}

pub open spec fn expr_view(e: Expr) -> SExpr
    decreases e,
{
    match e {
        Expr::Number(s) => SExpr::Number(s@),
        Expr::Str(s) => SExpr::Str(s@),
        Expr::Identifier(s) => SExpr::Identifier(s@),
        Expr::Binary { left, op, right } => SExpr::Binary {
            left: Box::new(expr_view(*left)),
            op,
            right: Box::new(expr_view(*right)),
        },
    }
}

pub open spec fn stmt_view(s: Stmt) -> SStmt
    decreases s,
{
    match s {
        Stmt::Ask { prompt, target } => SStmt::Ask { prompt: prompt@, target: target@ },
        Stmt::Assign { value, target } => SStmt::Assign { value: expr_view(value), target: target@ },
        Stmt::Display { value } => SStmt::Display { value: expr_view(value) },
        Stmt::If { condition, actions } => SStmt::If {
            condition: expr_view(condition),
            actions: stmts_view(actions@),
        },
        Stmt::Repeat { count, actions } => SStmt::Repeat {
            count: expr_view(count),
            actions: stmts_view(actions@),
        },
        Stmt::While { condition, actions } => SStmt::While {
            condition: expr_view(condition),
            actions: stmts_view(actions@),
        },
        Stmt::FunctionDef { name, params, return_expr } => SStmt::FunctionDef {
            name: name@,
            params: strings_view(params@),
            return_expr: expr_view(return_expr),
        },
    }
}

pub open spec fn stmts_view(ss: Seq<Stmt>) -> Seq<SStmt>
    decreases ss,
{
    if ss.len() == 0 {
        seq![]
    } else {
        stmts_view(ss.drop_last()).push(stmt_view(ss.last()))
    }
}

pub open spec fn strings_view(ss: Seq<String>) -> Seq<Seq<char>> {
    ss.map_values(|s: String| s@)
}

impl View for Expr {
    type V = SExpr;

    open spec fn view(&self) -> SExpr {
        expr_view(*self)
    }
}

impl View for Stmt {
    type V = SStmt;

    open spec fn view(&self) -> SStmt {
        stmt_view(*self)
    }
}

impl View for Program {
    type V = SProgram;

    open spec fn view(&self) -> SProgram {
        SProgram { event_name: self.event.event_name@, body: stmts_view(self.event.body@) }
    }
}

/// The views of a vector of statements, element by element.
pub proof fn lemma_stmts_view(ss: Seq<Stmt>)
    ensures
        stmts_view(ss).len() == ss.len(),
        forall|i: int| 0 <= i < ss.len() ==> #[trigger] stmts_view(ss)[i] == stmt_view(ss[i]),
    decreases ss.len(),
{
    if ss.len() > 0 {
        lemma_stmts_view(ss.drop_last());
    }
}

impl Clone for Expr {
    fn clone(&self) -> (c: Self)
        ensures
            c@ == self@,
        decreases self,
    {
        match self {
            Expr::Number(t) => Expr::Number(t.clone()),
            Expr::Str(t) => Expr::Str(t.clone()),
            Expr::Identifier(t) => Expr::Identifier(t.clone()),
            Expr::Binary { left, op, right } => Expr::Binary {
                left: Box::new((**left).clone()),
                op: *op,
                right: Box::new((**right).clone()),
            },
        }
    }
}

/// A copy of a list of statements.
fn copy_stmts(ss: &Vec<Stmt>) -> (c: Vec<Stmt>)
    ensures
        stmts_view(c@) == stmts_view(ss@),
    decreases ss@, 1nat,
{
    let mut c: Vec<Stmt> = Vec::new();
    let mut i: usize = 0;
    while i < ss.len()
        invariant
            i <= ss@.len(),
            stmts_view(c@) == stmts_view(ss@.take(i as int)),
        decreases ss@.len() - i,
    {
        assert(decreases_to!(ss@ => ss@[i as int]));
        let s = copy_stmt(&ss[i]);
        proof {
            assert(ss@.take(i + 1).drop_last() == ss@.take(i as int));
            assert(c@.push(s).drop_last() == c@);
        }
        c.push(s);
        i = i + 1;
    }
    assert(ss@.take(ss@.len() as int) == ss@);
    c
}

/// A copy of a statement.
fn copy_stmt(s: &Stmt) -> (c: Stmt)
    ensures
        c@ == s@,
    decreases *s, 0nat,
{
    match s {
        Stmt::Ask { prompt, target } => Stmt::Ask { prompt: prompt.clone(), target: target.clone() },
        Stmt::Assign { value, target } => Stmt::Assign { value: value.clone(), target: target.clone() },
        Stmt::Display { value } => Stmt::Display { value: value.clone() },
        Stmt::If { condition, actions } => {
            assert(decreases_to!(*s => actions@));
            Stmt::If { condition: condition.clone(), actions: copy_stmts(actions) }
        },
        Stmt::Repeat { count, actions } => {
            assert(decreases_to!(*s => actions@));
            Stmt::Repeat { count: count.clone(), actions: copy_stmts(actions) }
        },
        Stmt::While { condition, actions } => {
            assert(decreases_to!(*s => actions@));
            Stmt::While { condition: condition.clone(), actions: copy_stmts(actions) }
        },
        Stmt::FunctionDef { name, params, return_expr } => {
            let ps = params.clone();
            assert(strings_view(ps@) == strings_view(params@));
            Stmt::FunctionDef { name: name.clone(), params: ps, return_expr: return_expr.clone() }
        },
    }
}

impl Clone for Stmt {
    fn clone(&self) -> (c: Self)
        ensures
            c@ == self@,
    {
        copy_stmt(self)
    }
}

} // verus!
