//! The program as the parser builds it, and the same shapes as specifications see them.
use std::rc::Rc;
use vstd::prelude::*;
use crate::span::Span;

verus! {

#[derive(Debug, Clone, Copy, PartialEq, Eq, Structural)]
pub enum UnOp {
    Neg,
    Not,
}

#[derive(Debug, Clone, Copy, PartialEq, Eq, Structural)]
pub enum BinOp {
    Add,
    Sub,
    Mul,
    Div,
    Rem,
    Eq,
    Ne,
    Lt,
    Le,
    Gt,
    Ge,
    And,
    Or,
}

impl BinOp {
    /// How the operator is written in messages.
    pub open spec fn spec_symbol(self) -> Seq<char> {
        match self {
            BinOp::Add => "+"@,
            BinOp::Sub => "-"@,
            BinOp::Mul => "*"@,
            BinOp::Div => "/"@,
            BinOp::Rem => "%"@,
            BinOp::Eq => "=="@,
            BinOp::Ne => "!="@,
            BinOp::Lt => "<"@,
            BinOp::Le => "<="@,
            BinOp::Gt => ">"@,
            BinOp::Ge => ">="@,
            BinOp::And => "and"@,
            BinOp::Or => "or"@,
        }
    }

    /// How the operator is written in messages.
    pub fn symbol(self) -> (r: &'static str)
        ensures
            r@ == self.spec_symbol(),
    {
        match self {
            BinOp::Add => "+",
            BinOp::Sub => "-",
            BinOp::Mul => "*",
            BinOp::Div => "/",
            BinOp::Rem => "%",
            BinOp::Eq => "==",
            BinOp::Ne => "!=",
            BinOp::Lt => "<",
            BinOp::Le => "<=",
            BinOp::Gt => ">",
            BinOp::Ge => ">=",
            BinOp::And => "and",
            BinOp::Or => "or",
        }
    }
}

/// An expression. A number keeps the digits it was written with.
#[derive(Debug, PartialEq)]
pub enum Expr {
    Number(String, Span),
    Text(String, Span),
    Bool(bool, Span),
    Nothing(Span),
    Name(String, Span),
    List(Vec<Expr>, Span),
    Unary { op: UnOp, expr: Box<Expr>, span: Span },
    Binary { op: BinOp, left: Box<Expr>, right: Box<Expr>, span: Span },
    Call { callee: Box<Expr>, args: Vec<Expr>, span: Span },
    Index { target: Box<Expr>, index: Box<Expr>, span: Span },
}

/// A function definition.
#[derive(Debug, PartialEq)]
pub struct FnDef {
    pub name: String,
    pub params: Vec<String>,
    pub body: Vec<Stmt>,
    pub span: Span,
}

/// A statement.
#[derive(Debug, PartialEq)]
pub enum Stmt {
    Expr(Expr),
    Assign { name: String, value: Expr, span: Span },
    SetIndex { target: Expr, index: Expr, value: Expr, span: Span },
    If { branches: Vec<(Expr, Vec<Stmt>)>, otherwise: Option<Vec<Stmt>> },
    While { cond: Expr, body: Vec<Stmt>, span: Span },
    Repeat { count: Expr, body: Vec<Stmt>, span: Span },
    ForRange {
        var: String,
        from: Expr,
        to: Expr,
        step: Option<Expr>,
        body: Vec<Stmt>,
        span: Span,
    },
    ForEach { var: String, iter: Expr, body: Vec<Stmt>, span: Span },
    Function(Rc<FnDef>),
    Return { value: Option<Expr>, span: Span },
    Break(Span),
    Continue(Span),
}

/// An expression as specifications see it.
pub enum SpecExpr {
    Number(Seq<char>, Span),
    Text(Seq<char>, Span),
    Bool(bool, Span),
    Nothing(Span),
    Name(Seq<char>, Span),
    List(Seq<SpecExpr>, Span),
    Unary { op: UnOp, expr: Box<SpecExpr>, span: Span },
    Binary { op: BinOp, left: Box<SpecExpr>, right: Box<SpecExpr>, span: Span },
    Call { callee: Box<SpecExpr>, args: Seq<SpecExpr>, span: Span },
    Index { target: Box<SpecExpr>, index: Box<SpecExpr>, span: Span },
}

impl SpecExpr {
    /// Where the expression stands in the source.
    pub open spec fn span(self) -> Span {
        match self {
            SpecExpr::Number(_, s) => s,
            SpecExpr::Text(_, s) => s,
            SpecExpr::Bool(_, s) => s,
            SpecExpr::Nothing(s) => s,
            SpecExpr::Name(_, s) => s,
            SpecExpr::List(_, s) => s,
            SpecExpr::Unary { span, .. } => span,
            SpecExpr::Binary { span, .. } => span,
            SpecExpr::Call { span, .. } => span,
            SpecExpr::Index { span, .. } => span,
        }
    }
}

/// A statement as specifications see it; a function definition is spelled out in place.
pub enum SpecStmt {
    Expr(SpecExpr),
    Assign { name: Seq<char>, value: SpecExpr, span: Span },
    SetIndex { target: SpecExpr, index: SpecExpr, value: SpecExpr, span: Span },
    If { branches: Seq<(SpecExpr, Seq<SpecStmt>)>, otherwise: Option<Seq<SpecStmt>> },
    While { cond: SpecExpr, body: Seq<SpecStmt>, span: Span },
    Repeat { count: SpecExpr, body: Seq<SpecStmt>, span: Span },
    ForRange {
        var: Seq<char>,
        from: SpecExpr,
        to: SpecExpr,
        step: Option<SpecExpr>,
        body: Seq<SpecStmt>,
        span: Span,
    },
    ForEach { var: Seq<char>, iter: SpecExpr, body: Seq<SpecStmt>, span: Span },
    Function { name: Seq<char>, params: Seq<Seq<char>>, body: Seq<SpecStmt>, span: Span },
    Return { value: Option<SpecExpr>, span: Span },
    Break(Span),
    Continue(Span),
}

/// The view of an expression.
pub open spec fn expr_view(e: Expr) -> SpecExpr
    decreases e, 0nat,
{
    proof {
        broadcast use vstd::std_specs::vec::axiom_vec_decreases_to_view;
    }
    match e {
        Expr::Number(n, s) => SpecExpr::Number(n@, s),
        Expr::Text(t, s) => SpecExpr::Text(t@, s),
        Expr::Bool(b, s) => SpecExpr::Bool(b, s),
        Expr::Nothing(s) => SpecExpr::Nothing(s),
        Expr::Name(n, s) => SpecExpr::Name(n@, s),
        Expr::List(items, s) => SpecExpr::List(exprs_view(items@), s),
        Expr::Unary { op, expr, span } => SpecExpr::Unary {
            op,
            expr: Box::new(expr_view(*expr)),
            span,
        },
        Expr::Binary { op, left, right, span } => SpecExpr::Binary {
            op,
            left: Box::new(expr_view(*left)),
            right: Box::new(expr_view(*right)),
            span,
        },
        Expr::Call { callee, args, span } => SpecExpr::Call {
            callee: Box::new(expr_view(*callee)),
            args: exprs_view(args@),
            span,
        },
        Expr::Index { target, index, span } => SpecExpr::Index {
            target: Box::new(expr_view(*target)),
            index: Box::new(expr_view(*index)),
            span,
        },
    }
}

/// The views of a list of expressions.
pub open spec fn exprs_view(v: Seq<Expr>) -> Seq<SpecExpr>
    decreases v, v.len(),
{
    if v.len() == 0 {
        seq![]
    } else {
        proof {
            broadcast use vstd::seq::axiom_seq_index_decreases;

            assert(decreases_to!(v => v[v.len() - 1]));
        }
        exprs_view(v.drop_last()).push(expr_view(v.last()))
    }
}

/// The view of an optional expression.
pub open spec fn opt_expr_view(e: Option<Expr>) -> Option<SpecExpr> {
    match e {
        Some(x) => Some(expr_view(x)),
        None => None,
    }
}

/// The texts of a list of strings.
pub open spec fn strings_view(v: Seq<String>) -> Seq<Seq<char>> {
    v.map_values(|s: String| s@)
}

/// The view of a statement.
pub open spec fn stmt_view(st: Stmt) -> SpecStmt
    decreases st, 0nat,
{
    proof {
        broadcast use vstd::std_specs::vec::axiom_vec_decreases_to_view;
    }
    match st {
        Stmt::Expr(e) => SpecStmt::Expr(expr_view(e)),
        Stmt::Assign { name, value, span } => SpecStmt::Assign {
            name: name@,
            value: expr_view(value),
            span,
        },
        Stmt::SetIndex { target, index, value, span } => SpecStmt::SetIndex {
            target: expr_view(target),
            index: expr_view(index),
            value: expr_view(value),
            span,
        },
        Stmt::If { branches, otherwise } => SpecStmt::If {
            branches: branches_view(branches@),
            otherwise: match otherwise {
                Some(b) => Some(stmts_view(b@)),
                None => None,
            },
        },
        Stmt::While { cond, body, span } => SpecStmt::While {
            cond: expr_view(cond),
            body: stmts_view(body@),
            span,
        },
        Stmt::Repeat { count, body, span } => SpecStmt::Repeat {
            count: expr_view(count),
            body: stmts_view(body@),
            span,
        },
        Stmt::ForRange { var, from, to, step, body, span } => SpecStmt::ForRange {
            var: var@,
            from: expr_view(from),
            to: expr_view(to),
            step: opt_expr_view(step),
            body: stmts_view(body@),
            span,
        },
        Stmt::ForEach { var, iter, body, span } => SpecStmt::ForEach {
            var: var@,
            iter: expr_view(iter),
            body: stmts_view(body@),
            span,
        },
        Stmt::Function(f) => SpecStmt::Function {
            name: f.name@,
            params: strings_view(f.params@),
            body: stmts_view(f.body@),
            span: f.span,
        },
        Stmt::Return { value, span } => SpecStmt::Return { value: opt_expr_view(value), span },
        Stmt::Break(s) => SpecStmt::Break(s),
        Stmt::Continue(s) => SpecStmt::Continue(s),
    }
}

/// The views of a list of statements.
pub open spec fn stmts_view(v: Seq<Stmt>) -> Seq<SpecStmt>
    decreases v, v.len(),
{
    if v.len() == 0 {
        seq![]
    } else {
        proof {
            broadcast use vstd::seq::axiom_seq_index_decreases;

            assert(decreases_to!(v => v[v.len() - 1]));
        }
        stmts_view(v.drop_last()).push(stmt_view(v.last()))
    }
}

/// The views of the branches of an `if`.
pub open spec fn branches_view(v: Seq<(Expr, Vec<Stmt>)>) -> Seq<(SpecExpr, Seq<SpecStmt>)>
    decreases v, v.len(),
{
    if v.len() == 0 {
        seq![]
    } else {
        proof {
            broadcast use vstd::seq::axiom_seq_index_decreases;
            broadcast use vstd::std_specs::vec::axiom_vec_decreases_to_view;

            assert(decreases_to!(v => v[v.len() - 1]));
        }
        branches_view(v.drop_last()).push((expr_view(v.last().0), stmts_view(v.last().1@)))
    }
}

impl View for Expr {
    type V = SpecExpr;

    open spec fn view(&self) -> SpecExpr {
        expr_view(*self)
    }
}

impl View for Stmt {
    type V = SpecStmt;

    open spec fn view(&self) -> SpecStmt {
        stmt_view(*self)
    }
}

/// Appending to a list appends its view.
pub proof fn lemma_exprs_push(v: Seq<Expr>, e: Expr)
    ensures
        exprs_view(v.push(e)) == exprs_view(v).push(expr_view(e)),
{
    assert(v.push(e).drop_last() =~= v);
}

/// Appending to a list appends its view.
pub proof fn lemma_stmts_push(v: Seq<Stmt>, s: Stmt)
    ensures
        stmts_view(v.push(s)) == stmts_view(v).push(stmt_view(s)),
{
    assert(v.push(s).drop_last() =~= v);
}

/// Appending to a list appends its view.
pub proof fn lemma_branches_push(v: Seq<(Expr, Vec<Stmt>)>, b: (Expr, Vec<Stmt>))
    ensures
        branches_view(v.push(b)) == branches_view(v).push((expr_view(b.0), stmts_view(b.1@))),
{
    assert(v.push(b).drop_last() =~= v);
}

/// The empty list views as the empty sequence.
pub proof fn lemma_views_empty()
    ensures
        exprs_view(Seq::<Expr>::empty()) == Seq::<SpecExpr>::empty(),
        stmts_view(Seq::<Stmt>::empty()) == Seq::<SpecStmt>::empty(),
        branches_view(Seq::<(Expr, Vec<Stmt>)>::empty()) == Seq::<(SpecExpr, Seq<SpecStmt>)>::empty(),
{
}

impl Expr {
    /// Where the expression stands in the source.
    pub fn span(&self) -> (s: Span)
        ensures
            s == self@.span(),
    {
        match self {
            Expr::Number(_, s) => *s,
            Expr::Text(_, s) => *s,
            Expr::Bool(_, s) => *s,
            Expr::Nothing(s) => *s,
            Expr::Name(_, s) => *s,
            Expr::List(_, s) => *s,
            Expr::Unary { span, .. } => *span,
            Expr::Binary { span, .. } => *span,
            Expr::Call { span, .. } => *span,
            Expr::Index { span, .. } => *span,
        }
    }
}

} // verus!
