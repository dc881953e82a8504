//! From tokens to the program's statements, by recursive descent.
//!
//! The grammar is stated over the tokens' views: `spec_parse` reads it, `parse` is proved to
//! give exactly what it gives. Each rule takes a fuel that every step spends one of; the fuel
//! `spec_parse` starts with is always enough (`parse` never runs out of it).
use std::rc::Rc;
use vstd::prelude::*;
use crate::ast::{
    branches_view, expr_view, exprs_view, lemma_branches_push, lemma_exprs_push,
    lemma_stmts_push, lemma_views_empty, opt_expr_view, stmt_view, stmts_view, strings_view,
    BinOp, Expr, FnDef, SpecExpr, SpecStmt, Stmt, UnOp,
};
use crate::diagnostic::{Diagnostic, ErrorKind, TokDesc};
use crate::keywords::Keyword;
use crate::lexer::SpecToken;
use crate::span::Span;
use crate::text::{byte_len, byte_offset, char_indices, indexes, push_char};
use crate::token::{SpecTokenKind, Token, TokenKind, TokenKindOf};

verus! {

/// What the parser reads: the source text and the views of its tokens.
pub struct Input {
    pub src: Seq<char>,
    pub toks: Seq<SpecToken>,
}

/// What the parser met, as an error names it.
pub enum SpecTokDesc {
    Text(Seq<char>),
    EndOfLine,
    EndOfFile,
    Indent,
    Dedent,
}

/// Why the parser stopped.
pub enum Refusal {
    Expected(&'static str, &'static str),
    Unexpected(SpecTokDesc),
    KeywordAsName(Seq<char>),
    InvalidTarget,
    OutsideLoop(Seq<char>),
    OutsideFunction(Seq<char>),
    /// The fuel ran out (never, from `spec_parse`).
    OutOfFuel,
}

/// A refusal and the span it points at.
pub type Fail = (Refusal, Span);

/// The view of what an error says was met.
pub open spec fn desc_view(d: TokDesc) -> SpecTokDesc {
    match d {
        TokDesc::Text(s) => SpecTokDesc::Text(s@),
        TokDesc::EndOfLine => SpecTokDesc::EndOfLine,
        TokDesc::EndOfFile => SpecTokDesc::EndOfFile,
        TokDesc::Indent => SpecTokDesc::Indent,
        TokDesc::Dedent => SpecTokDesc::Dedent,
    }
}

/// `d` is the error that `f` describes.
pub open spec fn refuses(d: Diagnostic, f: Fail) -> bool {
    &&& d.span == f.1
    &&& match f.0 {
        Refusal::Expected(uk, en) => d.kind == ErrorKind::Expected { uk, en },
        Refusal::Unexpected(desc) => d.kind matches ErrorKind::UnexpectedToken(t) && desc_view(t)
            == desc,
        Refusal::KeywordAsName(w) => d.kind matches ErrorKind::KeywordAsName(n) && n@ == w,
        Refusal::InvalidTarget => d.kind == ErrorKind::InvalidTarget,
        Refusal::OutsideLoop(w) => d.kind matches ErrorKind::OutsideLoop(n) && n@ == w,
        Refusal::OutsideFunction(w) => d.kind matches ErrorKind::OutsideFunction(n) && n@ == w,
        Refusal::OutOfFuel => false,
    }
}

/// The failure when the fuel has run out.
pub open spec fn out_of_fuel() -> Fail {
    (Refusal::OutOfFuel, Span { start: 0, end: 0 })
}

/// The kind of token `p`.
pub open spec fn kind(i: Input, p: int) -> SpecTokenKind {
    i.toks[p].0
}

/// The span of token `p`.
pub open spec fn span_at(i: Input, p: int) -> Span {
    i.toks[p].1
}

/// The position after token `p`; the last token is never passed.
pub open spec fn adv(i: Input, p: int) -> int {
    if p + 1 < i.toks.len() {
        p + 1
    } else {
        p
    }
}

/// The characters of `s` from index `k` on whose byte offsets lie in `start..end`.
pub open spec fn chars_in(s: Seq<char>, start: int, end: int, k: int) -> Seq<char>
    decreases s.len() - k,
{
    if k >= s.len() {
        seq![]
    } else if start <= byte_offset(s, k) < end {
        seq![s[k]] + chars_in(s, start, end, k + 1)
    } else {
        chars_in(s, start, end, k + 1)
    }
}

/// The source text of token `p`.
pub open spec fn word(i: Input, p: int) -> Seq<char> {
    chars_in(i.src, span_at(i, p).start as int, span_at(i, p).end as int, 0)
}

/// The parser wanted something else at token `p`.
pub open spec fn expected(i: Input, p: int, uk: &'static str, en: &'static str) -> Fail {
    (Refusal::Expected(uk, en), span_at(i, p))
}

/// Token `p` may not stand where it stands.
pub open spec fn unexpected(i: Input, p: int) -> Fail {
    let desc = match kind(i, p) {
        TokenKindOf::Newline => SpecTokDesc::EndOfLine,
        TokenKindOf::Eof => SpecTokDesc::EndOfFile,
        TokenKindOf::Indent => SpecTokDesc::Indent,
        TokenKindOf::Dedent => SpecTokDesc::Dedent,
        _ => SpecTokDesc::Text(word(i, p)),
    };
    (Refusal::Unexpected(desc), span_at(i, p))
}

/// Token `p` must be of kind `k`: its span and the position after it.
pub open spec fn expect(i: Input, p: int, k: SpecTokenKind, uk: &'static str, en: &'static str) -> Result<
    (Span, int),
    Fail,
> {
    if kind(i, p) == k {
        Ok((span_at(i, p), adv(i, p)))
    } else {
        Err(expected(i, p, uk, en))
    }
}

/// Past token `p` if it is of kind `k`.
pub open spec fn skip(i: Input, p: int, k: SpecTokenKind) -> int {
    if kind(i, p) == k {
        adv(i, p)
    } else {
        p
    }
}

/// A name at token `p`: the name, its span and the position after it.
pub open spec fn name(i: Input, p: int) -> Result<(Seq<char>, Span, int), Fail> {
    match kind(i, p) {
        TokenKindOf::Name(n) => Ok((n, span_at(i, p), adv(i, p))),
        TokenKindOf::Kw(_) => Err((Refusal::KeywordAsName(word(i, p)), span_at(i, p))),
        _ => Err(expected(i, p, "назва", "a name")),
    }
}

/// The binary operator a token stands for and how tightly it binds: or 1, and 2,
/// comparisons 4, `+ -` 5, `* / %` 6.
pub open spec fn binop(k: SpecTokenKind) -> Option<(BinOp, u8)> {
    match k {
        TokenKindOf::Kw(Keyword::Or) => Some((BinOp::Or, 1)),
        TokenKindOf::Kw(Keyword::And) => Some((BinOp::And, 2)),
        TokenKindOf::EqEq => Some((BinOp::Eq, 4)),
        TokenKindOf::NotEq => Some((BinOp::Ne, 4)),
        TokenKindOf::Less => Some((BinOp::Lt, 4)),
        TokenKindOf::LessEq => Some((BinOp::Le, 4)),
        TokenKindOf::Greater => Some((BinOp::Gt, 4)),
        TokenKindOf::GreaterEq => Some((BinOp::Ge, 4)),
        TokenKindOf::Plus => Some((BinOp::Add, 5)),
        TokenKindOf::Minus => Some((BinOp::Sub, 5)),
        TokenKindOf::Star => Some((BinOp::Mul, 6)),
        TokenKindOf::Slash => Some((BinOp::Div, 6)),
        TokenKindOf::Percent => Some((BinOp::Rem, 6)),
        _ => None,
    }
}

/// How tightly a binary operator token binds, loosest first: `or`, `and`, the comparisons,
/// `+ -`, then `* / %`; 0 for a token that is no binary operator.
pub open spec fn tier(k: SpecTokenKind) -> int {
    match k {
        TokenKindOf::Kw(Keyword::Or) => 1,
        TokenKindOf::Kw(Keyword::And) => 2,
        TokenKindOf::EqEq | TokenKindOf::NotEq | TokenKindOf::Less | TokenKindOf::LessEq
        | TokenKindOf::Greater | TokenKindOf::GreaterEq => 3,
        TokenKindOf::Plus | TokenKindOf::Minus => 4,
        TokenKindOf::Star | TokenKindOf::Slash | TokenKindOf::Percent => 5,
        _ => 0,
    }
}

/// The operation a binary operator token writes.
pub open spec fn written_op(k: SpecTokenKind) -> BinOp {
    match k {
        TokenKindOf::Kw(Keyword::Or) => BinOp::Or,
        TokenKindOf::Kw(Keyword::And) => BinOp::And,
        TokenKindOf::EqEq => BinOp::Eq,
        TokenKindOf::NotEq => BinOp::Ne,
        TokenKindOf::Less => BinOp::Lt,
        TokenKindOf::LessEq => BinOp::Le,
        TokenKindOf::Greater => BinOp::Gt,
        TokenKindOf::GreaterEq => BinOp::Ge,
        TokenKindOf::Plus => BinOp::Add,
        TokenKindOf::Minus => BinOp::Sub,
        TokenKindOf::Star => BinOp::Mul,
        TokenKindOf::Slash => BinOp::Div,
        _ => BinOp::Rem,
    }
}

/// `left` and `right` joined by the operator token `k`.
pub open spec fn joined(k: SpecTokenKind, left: SpecExpr, right: SpecExpr) -> SpecExpr {
    SpecExpr::Binary {
        op: written_op(k),
        left: Box::new(left),
        right: Box::new(right),
        span: left.span().cover(right.span()),
    }
}

/// The number at token `p` as an expression.
pub open spec fn number_at(i: Input, p: int) -> SpecExpr {
    SpecExpr::Number(kind(i, p)->Number_0, span_at(i, p))
}

/// Precedence: in `a op1 b op2 c`, with numbers `a`, `b`, `c`, the operator of the higher tier
/// takes the middle number, and of two operators of one tier the left one does (`1 + 6 / 2`
/// is `1 + (6 / 2)`; `6 / 2 + 1` is `(6 / 2) + 1`; `10 - 3 - 2` is `(10 - 3) - 2`).
pub proof fn lemma_precedence(i: Input, p: int, fuel: nat)
    requires
        0 <= p,
        p + 5 < i.toks.len(),
        kind(i, p) is Number,
        kind(i, p + 2) is Number,
        kind(i, p + 4) is Number,
        tier(kind(i, p + 1)) > 0,
        tier(kind(i, p + 3)) > 0,
        tier(kind(i, p + 5)) == 0,
        !(kind(i, p + 5) is LParen || kind(i, p + 5) is LBracket),
        fuel >= 16,
    ensures
        ({
            let (a, b, c) = (number_at(i, p), number_at(i, p + 2), number_at(i, p + 4));
            let (op1, op2) = (kind(i, p + 1), kind(i, p + 3));
            expression(i, p, fuel) == Ok::<(SpecExpr, int), Fail>(
                (
                    if tier(op2) > tier(op1) {
                        joined(op1, a, joined(op2, b, c))
                    } else {
                        joined(op2, joined(op1, a, b), c)
                    },
                    p + 5,
                ),
            )
        }),
{
    let (a, b, c) = (number_at(i, p), number_at(i, p + 2), number_at(i, p + 4));
    let (op1, op2) = (kind(i, p + 1), kind(i, p + 3));
    let (o1, b1) = binop(op1)->0;
    let (o2, b2) = binop(op2)->0;
    assert(binop(op1) is Some && o1 == written_op(op1));
    assert(binop(op2) is Some && o2 == written_op(op2));
    assert(binop(kind(i, p + 5)) is None);
    assert(b2 > b1 <==> tier(op2) > tier(op1));
    assert(b1 > 0 && b2 > 0);
    let f = fuel as int;
    if b2 > b1 {
        // the middle number goes to the right operator: a op1 (b op2 c)
        assert(prefix(i, p + 4, (f - 5) as nat) == Ok::<(SpecExpr, int), Fail>((c, p + 5)));
        assert(expr_loop(i, p + 5, b2, c, (f - 5) as nat) == Ok::<(SpecExpr, int), Fail>((c, p + 5)));
        assert(expr_bp(i, p + 4, b2, (f - 4) as nat) == Ok::<(SpecExpr, int), Fail>((c, p + 5)));
        let bc = joined(op2, b, c);
        assert(expr_loop(i, p + 5, b1, bc, (f - 4) as nat) == Ok::<(SpecExpr, int), Fail>((bc, p + 5)));
        assert(expr_loop(i, p + 3, b1, b, (f - 3) as nat) == Ok::<(SpecExpr, int), Fail>((bc, p + 5)));
        assert(prefix(i, p + 2, (f - 3) as nat) == Ok::<(SpecExpr, int), Fail>((b, p + 3)));
        assert(expr_bp(i, p + 2, b1, (f - 2) as nat) == Ok::<(SpecExpr, int), Fail>((bc, p + 5)));
        let abc = joined(op1, a, bc);
        assert(expr_loop(i, p + 5, 0, abc, (f - 2) as nat) == Ok::<(SpecExpr, int), Fail>((abc, p + 5)));
        assert(expr_loop(i, p + 1, 0, a, (f - 1) as nat) == Ok::<(SpecExpr, int), Fail>((abc, p + 5)));
    } else {
        // the middle number stays with the left operator: (a op1 b) op2 c
        assert(expr_loop(i, p + 3, b1, b, (f - 3) as nat) == Ok::<(SpecExpr, int), Fail>((b, p + 3)));
        assert(prefix(i, p + 2, (f - 3) as nat) == Ok::<(SpecExpr, int), Fail>((b, p + 3)));
        assert(expr_bp(i, p + 2, b1, (f - 2) as nat) == Ok::<(SpecExpr, int), Fail>((b, p + 3)));
        let ab = joined(op1, a, b);
        assert(prefix(i, p + 4, (f - 4) as nat) == Ok::<(SpecExpr, int), Fail>((c, p + 5)));
        assert(expr_loop(i, p + 5, b2, c, (f - 4) as nat) == Ok::<(SpecExpr, int), Fail>((c, p + 5)));
        assert(expr_bp(i, p + 4, b2, (f - 3) as nat) == Ok::<(SpecExpr, int), Fail>((c, p + 5)));
        let abc = joined(op2, ab, c);
        assert(expr_loop(i, p + 5, 0, abc, (f - 3) as nat) == Ok::<(SpecExpr, int), Fail>((abc, p + 5)));
        assert(expr_loop(i, p + 3, 0, ab, (f - 2) as nat) == Ok::<(SpecExpr, int), Fail>((abc, p + 5)));
        assert(expr_loop(i, p + 1, 0, a, (f - 1) as nat) == Ok::<(SpecExpr, int), Fail>((abc, p + 5)));
    }
    assert(prefix(i, p, (f - 1) as nat) == Ok::<(SpecExpr, int), Fail>((a, p + 1)));
}

/// The fuel the rule of rank `rank` needs at position `p`.
pub open spec fn budget(i: Input, p: int, rank: int) -> int {
    (i.toks.len() - p) * 16 + rank
}

/// An expression at `p`.
pub open spec fn expression(i: Input, p: int, fuel: nat) -> Result<(SpecExpr, int), Fail>
    decreases fuel, 1nat,
{
    expr_bp(i, p, 0, fuel)
}

/// An expression at `p` whose operators bind tighter than `min`: an operand, then operators.
pub open spec fn expr_bp(i: Input, p: int, min: u8, fuel: nat) -> Result<(SpecExpr, int), Fail>
    decreases fuel, 0nat,
{
    if fuel == 0 {
        Err(out_of_fuel())
    } else {
        let g = (fuel - 1) as nat;
        match prefix(i, p, g) {
            Err(e) => Err(e),
            Ok((left, q)) => expr_loop(i, q, min, left, g),
        }
    }
}

/// After `left`: calls and indexing, which bind tightest, and operators that bind tighter
/// than `min`, each taking the expression to its right that binds tighter than itself.
pub open spec fn expr_loop(i: Input, p: int, min: u8, left: SpecExpr, fuel: nat) -> Result<
    (SpecExpr, int),
    Fail,
>
    decreases fuel, 0nat,
{
    if fuel == 0 {
        Err(out_of_fuel())
    } else {
        let g = (fuel - 1) as nat;
        if kind(i, p) is LParen {
            match call(i, p, left, g) {
                Err(e) => Err(e),
                Ok((e, q)) => expr_loop(i, q, min, e, g),
            }
        } else if kind(i, p) is LBracket {
            match index(i, p, left, g) {
                Err(e) => Err(e),
                Ok((e, q)) => expr_loop(i, q, min, e, g),
            }
        } else {
            match binop(kind(i, p)) {
                None => Ok((left, p)),
                Some((op, bp)) => if bp <= min {
                    Ok((left, p))
                } else {
                    match expr_bp(i, adv(i, p), bp, g) {
                        Err(e) => Err(e),
                        Ok((right, q)) => expr_loop(
                            i,
                            q,
                            min,
                            SpecExpr::Binary {
                                op,
                                left: Box::new(left),
                                right: Box::new(right),
                                span: left.span().cover(right.span()),
                            },
                            g,
                        ),
                    }
                },
            }
        }
    }
}

/// An operand at `p`: a literal, a name, a unary operator with its operand (unary minus binds
/// tighter than `* / %`, `not` tighter than `and`), brackets, or a list.
pub open spec fn prefix(i: Input, p: int, fuel: nat) -> Result<(SpecExpr, int), Fail>
    decreases fuel, 0nat,
{
    if fuel == 0 {
        Err(out_of_fuel())
    } else {
        let g = (fuel - 1) as nat;
        let span = span_at(i, p);
        let next = adv(i, p);
        match kind(i, p) {
            TokenKindOf::Number(n) => Ok((SpecExpr::Number(n, span), next)),
            TokenKindOf::Text(t) => Ok((SpecExpr::Text(t, span), next)),
            TokenKindOf::Name(n) => Ok((SpecExpr::Name(n, span), next)),
            TokenKindOf::Kw(Keyword::True) => Ok((SpecExpr::Bool(true, span), next)),
            TokenKindOf::Kw(Keyword::False) => Ok((SpecExpr::Bool(false, span), next)),
            TokenKindOf::Kw(Keyword::Nothing) => Ok((SpecExpr::Nothing(span), next)),
            TokenKindOf::Minus => match expr_bp(i, next, 7, g) {
                Err(e) => Err(e),
                Ok((e, q)) => Ok(
                    (SpecExpr::Unary { op: UnOp::Neg, expr: Box::new(e), span: span.cover(e.span()) }, q),
                ),
            },
            TokenKindOf::Kw(Keyword::Not) => match expr_bp(i, next, 3, g) {
                Err(e) => Err(e),
                Ok((e, q)) => Ok(
                    (SpecExpr::Unary { op: UnOp::Not, expr: Box::new(e), span: span.cover(e.span()) }, q),
                ),
            },
            TokenKindOf::LParen => match expression(i, next, g) {
                Err(e) => Err(e),
                Ok((inner, q)) => match expect(i, q, TokenKindOf::RParen, "дужка «)»", "')'") {
                    Err(e) => Err(e),
                    Ok((_, r)) => Ok((inner, r)),
                },
            },
            TokenKindOf::LBracket => match items(i, next, TokenKindOf::RBracket, seq![], g) {
                Err(e) => Err(e),
                Ok((xs, q)) => match expect(
                    i,
                    q,
                    TokenKindOf::RBracket,
                    "дужка «]» або кома",
                    "']' or a comma",
                ) {
                    Err(e) => Err(e),
                    Ok((end, r)) => Ok((SpecExpr::List(xs, span.cover(end)), r)),
                },
            },
            _ => Err(expected(i, p, "значення або вираз", "a value or an expression")),
        }
    }
}

/// Comma-separated expressions from `p` up to a token of kind `close`, after `acc`; a trailing
/// comma is fine.
pub open spec fn items(i: Input, p: int, close: SpecTokenKind, acc: Seq<SpecExpr>, fuel: nat) -> Result<
    (Seq<SpecExpr>, int),
    Fail,
>
    decreases fuel, 0nat,
{
    if fuel == 0 {
        Err(out_of_fuel())
    } else if kind(i, p) == close {
        Ok((acc, p))
    } else {
        let g = (fuel - 1) as nat;
        match expression(i, p, g) {
            Err(e) => Err(e),
            Ok((e, q)) => if kind(i, q) is Comma {
                items(i, adv(i, q), close, acc.push(e), g)
            } else {
                Ok((acc.push(e), q))
            },
        }
    }
}

/// A call of `callee`: the arguments in brackets at `p`.
pub open spec fn call(i: Input, p: int, callee: SpecExpr, fuel: nat) -> Result<(SpecExpr, int), Fail>
    decreases fuel, 0nat,
{
    if fuel == 0 {
        Err(out_of_fuel())
    } else {
        let g = (fuel - 1) as nat;
        match items(i, adv(i, p), TokenKindOf::RParen, seq![], g) {
            Err(e) => Err(e),
            Ok((args, q)) => match expect(
                i,
                q,
                TokenKindOf::RParen,
                "дужка «)» або кома",
                "')' or a comma",
            ) {
                Err(e) => Err(e),
                Ok((end, r)) => Ok(
                    (
                        SpecExpr::Call {
                            callee: Box::new(callee),
                            args,
                            span: callee.span().cover(end),
                        },
                        r,
                    ),
                ),
            },
        }
    }
}

/// Indexing into `target`: the index in square brackets at `p`.
pub open spec fn index(i: Input, p: int, target: SpecExpr, fuel: nat) -> Result<(SpecExpr, int), Fail>
    decreases fuel, 0nat,
{
    if fuel == 0 {
        Err(out_of_fuel())
    } else {
        let g = (fuel - 1) as nat;
        match expression(i, adv(i, p), g) {
            Err(e) => Err(e),
            Ok((ix, q)) => match expect(i, q, TokenKindOf::RBracket, "дужка «]»", "']'") {
                Err(e) => Err(e),
                Ok((end, r)) => Ok(
                    (
                        SpecExpr::Index {
                            target: Box::new(target),
                            index: Box::new(ix),
                            span: target.span().cover(end),
                        },
                        r,
                    ),
                ),
            },
        }
    }
}

/// A one-line statement has to end its line: a Newline is read, an Eof or Dedent is left for
/// the block or program around it.
pub open spec fn end_line(i: Input, r: Result<(SpecStmt, int), Fail>) -> Result<(SpecStmt, int), Fail> {
    match r {
        Err(e) => Err(e),
        Ok((st, q)) => if kind(i, q) is Newline {
            Ok((st, adv(i, q)))
        } else if kind(i, q) is Eof || kind(i, q) is Dedent {
            Ok((st, q))
        } else {
            Err(unexpected(i, q))
        },
    }
}

/// A statement at `p`; `in_loop` and `in_fn` say whether a loop body (inside the nearest
/// function) and a function body enclose it.
pub open spec fn statement(i: Input, p: int, in_loop: bool, in_fn: bool, fuel: nat) -> Result<
    (SpecStmt, int),
    Fail,
>
    decreases fuel, 0nat,
{
    if fuel == 0 {
        Err(out_of_fuel())
    } else {
        let g = (fuel - 1) as nat;
        match kind(i, p) {
            TokenKindOf::Kw(Keyword::If) => if_stmt(i, p, in_loop, in_fn, g),
            TokenKindOf::Kw(Keyword::While) => while_stmt(i, p, in_fn, g),
            TokenKindOf::Kw(Keyword::Repeat) => repeat_stmt(i, p, in_fn, g),
            TokenKindOf::Kw(Keyword::For) => for_stmt(i, p, in_fn, g),
            TokenKindOf::Kw(Keyword::Function) => function(i, p, g),
            TokenKindOf::Kw(Keyword::Return) => end_line(i, return_stmt(i, p, in_fn, g)),
            TokenKindOf::Kw(Keyword::Break) => end_line(i, jump(i, p, in_loop)),
            TokenKindOf::Kw(Keyword::Continue) => end_line(i, jump(i, p, in_loop)),
            TokenKindOf::Indent => Err(unexpected(i, p)),
            _ => end_line(i, expr_or_assign(i, p, g)),
        }
    }
}

/// `:`, the end of the line, then an indented block at `p`.
pub open spec fn block(i: Input, p: int, in_loop: bool, in_fn: bool, fuel: nat) -> Result<
    (Seq<SpecStmt>, int),
    Fail,
>
    decreases fuel, 0nat,
{
    if fuel == 0 {
        Err(out_of_fuel())
    } else {
        let g = (fuel - 1) as nat;
        match expect(
            i,
            p,
            TokenKindOf::Colon,
            "двокрапка «:» в кінці рядка",
            "a colon ':' at the end of the line",
        ) {
            Err(e) => Err(e),
            Ok((_, p1)) => match expect(
                i,
                p1,
                TokenKindOf::Newline,
                "новий рядок після «:»",
                "a new line after ':'",
            ) {
                Err(e) => Err(e),
                Ok((_, p2)) => match expect(
                    i,
                    p2,
                    TokenKindOf::Indent,
                    "блок з відступом на наступному рядку",
                    "an indented block on the next line",
                ) {
                    Err(e) => Err(e),
                    Ok((_, p3)) => block_items(i, p3, in_loop, in_fn, seq![], g),
                },
            },
        }
    }
}

/// The statements of a block from `p`, after `acc`, up to its Dedent (read) or the Eof (left).
pub open spec fn block_items(
    i: Input,
    p: int,
    in_loop: bool,
    in_fn: bool,
    acc: Seq<SpecStmt>,
    fuel: nat,
) -> Result<(Seq<SpecStmt>, int), Fail>
    decreases fuel, 0nat,
{
    if fuel == 0 {
        Err(out_of_fuel())
    } else if kind(i, p) is Dedent {
        Ok((acc, adv(i, p)))
    } else if kind(i, p) is Eof {
        Ok((acc, p))
    } else {
        let g = (fuel - 1) as nat;
        match statement(i, p, in_loop, in_fn, g) {
            Err(e) => Err(e),
            Ok((st, q)) => block_items(i, q, in_loop, in_fn, acc.push(st), g),
        }
    }
}

/// `if` at `p`: a condition and a block, then the `else` branches.
pub open spec fn if_stmt(i: Input, p: int, in_loop: bool, in_fn: bool, fuel: nat) -> Result<
    (SpecStmt, int),
    Fail,
>
    decreases fuel, 0nat,
{
    if fuel == 0 {
        Err(out_of_fuel())
    } else {
        let g = (fuel - 1) as nat;
        match expression(i, adv(i, p), g) {
            Err(e) => Err(e),
            Ok((c, q)) => match block(i, q, in_loop, in_fn, g) {
                Err(e) => Err(e),
                Ok((b, r)) => if_rest(i, r, in_loop, in_fn, seq![(c, b)], g),
            },
        }
    }
}

/// After the branches so far: `else if` with a condition and a block, again and again, and at
/// most one `else` with a block, which ends the statement.
pub open spec fn if_rest(
    i: Input,
    p: int,
    in_loop: bool,
    in_fn: bool,
    branches: Seq<(SpecExpr, Seq<SpecStmt>)>,
    fuel: nat,
) -> Result<(SpecStmt, int), Fail>
    decreases fuel, 0nat,
{
    if fuel == 0 {
        Err(out_of_fuel())
    } else if kind(i, p) == TokenKindOf::<Seq<char>>::Kw(Keyword::Else) {
        let g = (fuel - 1) as nat;
        let p1 = adv(i, p);
        if kind(i, p1) == TokenKindOf::<Seq<char>>::Kw(Keyword::If) {
            match expression(i, adv(i, p1), g) {
                Err(e) => Err(e),
                Ok((c, q)) => match block(i, q, in_loop, in_fn, g) {
                    Err(e) => Err(e),
                    Ok((b, r)) => if_rest(i, r, in_loop, in_fn, branches.push((c, b)), g),
                },
            }
        } else {
            match block(i, p1, in_loop, in_fn, g) {
                Err(e) => Err(e),
                Ok((b, r)) => Ok((SpecStmt::If { branches, otherwise: Some(b) }, r)),
            }
        }
    } else {
        Ok((SpecStmt::If { branches, otherwise: None }, p))
    }
}

/// `while` at `p`: a condition and a loop body.
pub open spec fn while_stmt(i: Input, p: int, in_fn: bool, fuel: nat) -> Result<(SpecStmt, int), Fail>
    decreases fuel, 0nat,
{
    if fuel == 0 {
        Err(out_of_fuel())
    } else {
        let g = (fuel - 1) as nat;
        match expression(i, adv(i, p), g) {
            Err(e) => Err(e),
            Ok((cond, q)) => match block(i, q, true, in_fn, g) {
                Err(e) => Err(e),
                Ok((body, r)) => Ok((SpecStmt::While { cond, body, span: span_at(i, p) }, r)),
            },
        }
    }
}

/// `repeat` at `p`: a count, an optional `times`, and a loop body.
pub open spec fn repeat_stmt(i: Input, p: int, in_fn: bool, fuel: nat) -> Result<(SpecStmt, int), Fail>
    decreases fuel, 0nat,
{
    if fuel == 0 {
        Err(out_of_fuel())
    } else {
        let g = (fuel - 1) as nat;
        match expression(i, adv(i, p), g) {
            Err(e) => Err(e),
            Ok((count, q)) => match block(
                i,
                skip(i, q, TokenKindOf::Kw(Keyword::Times)),
                true,
                in_fn,
                g,
            ) {
                Err(e) => Err(e),
                Ok((body, r)) => Ok((SpecStmt::Repeat { count, body, span: span_at(i, p) }, r)),
            },
        }
    }
}

/// `for` at `p`: a name, then `from … to …` with an optional `step …`, or `in …`; then a
/// loop body.
pub open spec fn for_stmt(i: Input, p: int, in_fn: bool, fuel: nat) -> Result<(SpecStmt, int), Fail>
    decreases fuel, 0nat,
{
    if fuel == 0 {
        Err(out_of_fuel())
    } else {
        let g = (fuel - 1) as nat;
        let span = span_at(i, p);
        match name(i, adv(i, p)) {
            Err(e) => Err(e),
            Ok((var, _, p2)) => if kind(i, p2) == TokenKindOf::<Seq<char>>::Kw(Keyword::From) {
                match expression(i, adv(i, p2), g) {
                    Err(e) => Err(e),
                    Ok((from, p3)) => if kind(i, p3) != TokenKindOf::<Seq<char>>::Kw(Keyword::To) {
                        Err(
                            expected(
                                i,
                                p3,
                                "«до» і де закінчити рахунок",
                                "'to' and where to stop",
                            ),
                        )
                    } else {
                        match expression(i, adv(i, p3), g) {
                            Err(e) => Err(e),
                            Ok((to, p4)) => {
                                let stepped = if kind(i, p4) == TokenKindOf::<Seq<char>>::Kw(
                                    Keyword::Step,
                                ) {
                                    match expression(i, adv(i, p4), g) {
                                        Err(e) => Err(e),
                                        Ok((st, p5)) => Ok((Some(st), p5)),
                                    }
                                } else {
                                    Ok((None, p4))
                                };
                                match stepped {
                                    Err(e) => Err(e),
                                    Ok((step, p5)) => match block(i, p5, true, in_fn, g) {
                                        Err(e) => Err(e),
                                        Ok((body, r)) => Ok(
                                            (
                                                SpecStmt::ForRange {
                                                    var,
                                                    from,
                                                    to,
                                                    step,
                                                    body,
                                                    span,
                                                },
                                                r,
                                            ),
                                        ),
                                    },
                                }
                            },
                        }
                    },
                }
            } else if kind(i, p2) == TokenKindOf::<Seq<char>>::Kw(Keyword::In) {
                match expression(i, adv(i, p2), g) {
                    Err(e) => Err(e),
                    Ok((iter, p3)) => match block(i, p3, true, in_fn, g) {
                        Err(e) => Err(e),
                        Ok((body, r)) => Ok((SpecStmt::ForEach { var, iter, body, span }, r)),
                    },
                }
            } else {
                Err(expected(i, p2, "«від … до …» або «у список»", "'from … to …' or 'in list'"))
            },
        }
    }
}

/// Parameter names from `p`, after `acc`, separated by commas.
pub open spec fn param_list(i: Input, p: int, acc: Seq<Seq<char>>, fuel: nat) -> Result<
    (Seq<Seq<char>>, int),
    Fail,
>
    decreases fuel,
{
    if fuel == 0 {
        Err(out_of_fuel())
    } else {
        match name(i, p) {
            Err(e) => Err(e),
            Ok((n, _, q)) => if kind(i, q) is Comma {
                param_list(i, adv(i, q), acc.push(n), (fuel - 1) as nat)
            } else {
                Ok((acc.push(n), q))
            },
        }
    }
}

/// `function` at `p`: a name, parameters in brackets and a body, in which `return` may stand
/// and `break` and `continue` may not, outside loops of its own.
pub open spec fn function(i: Input, p: int, fuel: nat) -> Result<(SpecStmt, int), Fail>
    decreases fuel, 0nat,
{
    if fuel == 0 {
        Err(out_of_fuel())
    } else {
        let g = (fuel - 1) as nat;
        let start = span_at(i, p);
        match name(i, adv(i, p)) {
            Err(e) => Err(e),
            Ok((fname, nspan, p2)) => match expect(
                i,
                p2,
                TokenKindOf::LParen,
                "дужка «(» після назви функції",
                "'(' after the function name",
            ) {
                Err(e) => Err(e),
                Ok((_, p3)) => {
                    let params = if kind(i, p3) is RParen {
                        Ok((seq![], p3))
                    } else {
                        param_list(i, p3, seq![], g)
                    };
                    match params {
                        Err(e) => Err(e),
                        Ok((params, p4)) => match expect(
                            i,
                            p4,
                            TokenKindOf::RParen,
                            "дужка «)» або кома",
                            "')' or a comma",
                        ) {
                            Err(e) => Err(e),
                            Ok((_, p5)) => match block(i, p5, false, true, g) {
                                Err(e) => Err(e),
                                Ok((body, r)) => Ok(
                                    (
                                        SpecStmt::Function {
                                            name: fname,
                                            params,
                                            body,
                                            span: start.cover(nspan),
                                        },
                                        r,
                                    ),
                                ),
                            },
                        },
                    }
                },
            },
        }
    }
}

/// `return` at `p`, only inside a function, with a value unless the line or block ends.
pub open spec fn return_stmt(i: Input, p: int, in_fn: bool, fuel: nat) -> Result<(SpecStmt, int), Fail>
    decreases fuel, 0nat,
{
    if fuel == 0 {
        Err(out_of_fuel())
    } else if !in_fn {
        Err((Refusal::OutsideFunction(word(i, p)), span_at(i, p)))
    } else {
        let span = span_at(i, p);
        let p1 = adv(i, p);
        if kind(i, p1) is Newline || kind(i, p1) is Eof || kind(i, p1) is Dedent {
            Ok((SpecStmt::Return { value: None, span }, p1))
        } else {
            match expression(i, p1, (fuel - 1) as nat) {
                Err(e) => Err(e),
                Ok((v, q)) => Ok((SpecStmt::Return { value: Some(v), span }, q)),
            }
        }
    }
}

/// `break` or `continue` at `p`, only inside a loop.
pub open spec fn jump(i: Input, p: int, in_loop: bool) -> Result<(SpecStmt, int), Fail> {
    if !in_loop {
        Err((Refusal::OutsideLoop(word(i, p)), span_at(i, p)))
    } else if kind(i, p) == TokenKindOf::<Seq<char>>::Kw(Keyword::Break) {
        Ok((SpecStmt::Break(span_at(i, p)), adv(i, p)))
    } else {
        Ok((SpecStmt::Continue(span_at(i, p)), adv(i, p)))
    }
}

/// The token after `p`, or the last one.
pub open spec fn peek_next(i: Input, p: int) -> SpecTokenKind {
    if p + 1 < i.toks.len() {
        kind(i, p + 1)
    } else {
        kind(i, i.toks.len() - 1)
    }
}

/// An expression, or an assignment to a name or to an item of a list; a keyword followed by
/// `=` is an attempt to name a variable with it.
pub open spec fn expr_or_assign(i: Input, p: int, fuel: nat) -> Result<(SpecStmt, int), Fail>
    decreases fuel, 0nat,
{
    if fuel == 0 {
        Err(out_of_fuel())
    } else if kind(i, p) is Kw && peek_next(i, p) is Assign {
        Err((Refusal::KeywordAsName(word(i, p)), span_at(i, p)))
    } else {
        let g = (fuel - 1) as nat;
        match expression(i, p, g) {
            Err(e) => Err(e),
            Ok((target, q)) => if !(kind(i, q) is Assign) {
                Ok((SpecStmt::Expr(target), q))
            } else {
                match expression(i, adv(i, q), g) {
                    Err(e) => Err(e),
                    Ok((value, r)) => {
                        let span = target.span().cover(value.span());
                        match target {
                            SpecExpr::Name(n, _) => Ok((SpecStmt::Assign { name: n, value, span }, r)),
                            SpecExpr::Index { target: t, index: ix, .. } => Ok(
                                (SpecStmt::SetIndex { target: *t, index: *ix, value, span }, r),
                            ),
                            _ => Err((Refusal::InvalidTarget, span_at(i, q))),
                        }
                    },
                }
            },
        }
    }
}

/// The statements from `p` to the Eof, after `acc`.
pub open spec fn program(i: Input, p: int, acc: Seq<SpecStmt>, fuel: nat) -> Result<Seq<SpecStmt>, Fail>
    decreases fuel,
{
    if fuel == 0 {
        Err(out_of_fuel())
    } else if kind(i, p) is Eof {
        Ok(acc)
    } else {
        let g = (fuel - 1) as nat;
        match statement(i, p, false, false, g) {
            Err(e) => Err(e),
            Ok((st, q)) => program(i, q, acc.push(st), g),
        }
    }
}

/// The program's statements, or why it is refused.
pub open spec fn spec_parse(src: Seq<char>, toks: Seq<SpecToken>) -> Result<Seq<SpecStmt>, Fail> {
    let i = Input { src, toks };
    program(i, 0, seq![], budget(i, 0, 15) as nat)
}

/// Unary operators: `-` takes only the number after it (`-a * b` is `(-a) * b`), and `not`
/// takes a comparison or anything tighter whole but leaves `and` and `or` outside
/// (`not a == b` is `not (a == b)`, `not a or b` is `(not a) or b`).
pub proof fn lemma_unary_binding(i: Input, p: int, fuel: nat)
    requires
        0 <= p,
        p + 4 < i.toks.len(),
        kind(i, p) is Minus || kind(i, p) matches TokenKindOf::Kw(Keyword::Not),
        kind(i, p + 1) is Number,
        kind(i, p + 3) is Number,
        tier(kind(i, p + 2)) > 0,
        tier(kind(i, p + 4)) == 0,
        !(kind(i, p + 4) is LParen || kind(i, p + 4) is LBracket),
        fuel >= 12,
    ensures
        ({
            let (a, b) = (number_at(i, p + 1), number_at(i, p + 3));
            let op = kind(i, p + 2);
            let s = span_at(i, p);
            let neg = kind(i, p) is Minus;
            let un = if neg {
                UnOp::Neg
            } else {
                UnOp::Not
            };
            let whole = !neg && tier(op) >= 3;
            expression(i, p, fuel) == Ok::<(SpecExpr, int), Fail>(
                (
                    if whole {
                        SpecExpr::Unary {
                            op: un,
                            expr: Box::new(joined(op, a, b)),
                            span: s.cover(joined(op, a, b).span()),
                        }
                    } else {
                        joined(
                            op,
                            SpecExpr::Unary { op: un, expr: Box::new(a), span: s.cover(a.span()) },
                            b,
                        )
                    },
                    p + 4,
                ),
            )
        }),
{
    let (a, b) = (number_at(i, p + 1), number_at(i, p + 3));
    let op = kind(i, p + 2);
    let s = span_at(i, p);
    let (o, bp) = binop(op)->0;
    assert(binop(op) is Some && o == written_op(op) && 0 < bp <= 6);
    assert(bp > 3 <==> tier(op) >= 3);
    assert(binop(kind(i, p + 4)) is None);
    let f = fuel as int;
    let neg = kind(i, p) is Minus;
    let un = if neg {
        UnOp::Neg
    } else {
        UnOp::Not
    };
    let min: u8 = if neg {
        7
    } else {
        3
    };
    assert(prefix(i, p + 1, (f - 3) as nat) == Ok::<(SpecExpr, int), Fail>((a, p + 2)));
    if bp > min {
        // the operator binds inside the unary operator's operand
        assert(prefix(i, p + 3, (f - 5) as nat) == Ok::<(SpecExpr, int), Fail>((b, p + 4)));
        assert(expr_loop(i, p + 4, bp, b, (f - 5) as nat) == Ok::<(SpecExpr, int), Fail>((b, p + 4)));
        assert(expr_bp(i, p + 3, bp, (f - 4) as nat) == Ok::<(SpecExpr, int), Fail>((b, p + 4)));
        let ab = joined(op, a, b);
        assert(expr_loop(i, p + 4, min, ab, (f - 4) as nat) == Ok::<(SpecExpr, int), Fail>((ab, p + 4)));
        assert(expr_loop(i, p + 2, min, a, (f - 3) as nat) == Ok::<(SpecExpr, int), Fail>((ab, p + 4)));
        assert(expr_bp(i, p + 1, min, (f - 2) as nat) == Ok::<(SpecExpr, int), Fail>((ab, p + 4)));
        let u = SpecExpr::Unary { op: un, expr: Box::new(ab), span: s.cover(ab.span()) };
        assert(prefix(i, p, (f - 1) as nat) == Ok::<(SpecExpr, int), Fail>((u, p + 4)));
        assert(expr_loop(i, p + 4, 0, u, (f - 1) as nat) == Ok::<(SpecExpr, int), Fail>((u, p + 4)));
    } else {
        // the unary operator takes the number alone
        assert(expr_loop(i, p + 2, min, a, (f - 3) as nat) == Ok::<(SpecExpr, int), Fail>((a, p + 2)));
        assert(expr_bp(i, p + 1, min, (f - 2) as nat) == Ok::<(SpecExpr, int), Fail>((a, p + 2)));
        let u = SpecExpr::Unary { op: un, expr: Box::new(a), span: s.cover(a.span()) };
        assert(prefix(i, p, (f - 1) as nat) == Ok::<(SpecExpr, int), Fail>((u, p + 2)));
        assert(prefix(i, p + 3, (f - 3) as nat) == Ok::<(SpecExpr, int), Fail>((b, p + 4)));
        assert(expr_loop(i, p + 4, bp, b, (f - 3) as nat) == Ok::<(SpecExpr, int), Fail>((b, p + 4)));
        assert(expr_bp(i, p + 3, bp, (f - 2) as nat) == Ok::<(SpecExpr, int), Fail>((b, p + 4)));
        let ub = joined(op, u, b);
        assert(expr_loop(i, p + 4, 0, ub, (f - 2) as nat) == Ok::<(SpecExpr, int), Fail>((ub, p + 4)));
        assert(expr_loop(i, p + 2, 0, u, (f - 1) as nat) == Ok::<(SpecExpr, int), Fail>((ub, p + 4)));
    }
}

/// Precedence in whole programs: the line `a op1 b op2 c`, with numbers `a`, `b`, `c` and
/// binary operators `op1`, `op2`, parses to the one expression statement [`lemma_precedence`]
/// gives (so `1 + 6 / 2` is `1 + (6 / 2)`).
pub proof fn lemma_precedence_in_programs(src: Seq<char>, toks: Seq<SpecToken>)
    requires
        toks.len() == 7,
        toks[0].0 is Number,
        toks[2].0 is Number,
        toks[4].0 is Number,
        tier(toks[1].0) > 0,
        tier(toks[3].0) > 0,
        toks[5].0 is Newline,
        toks[6].0 is Eof,
    ensures
        ({
            let i = Input { src, toks };
            let (a, b, c) = (number_at(i, 0), number_at(i, 2), number_at(i, 4));
            let (op1, op2) = (toks[1].0, toks[3].0);
            spec_parse(src, toks) == Ok::<Seq<SpecStmt>, Fail>(
                seq![
                    SpecStmt::Expr(
                        if tier(op2) > tier(op1) {
                            joined(op1, a, joined(op2, b, c))
                        } else {
                            joined(op2, joined(op1, a, b), c)
                        },
                    ),
                ],
            )
        }),
{
    let i = Input { src, toks };
    lemma_precedence(i, 0, 124);
    let (a, b, c) = (number_at(i, 0), number_at(i, 2), number_at(i, 4));
    let (op1, op2) = (toks[1].0, toks[3].0);
    let e = if tier(op2) > tier(op1) {
        joined(op1, a, joined(op2, b, c))
    } else {
        joined(op2, joined(op1, a, b), c)
    };
    assert(expr_or_assign(i, 0, 125) == Ok::<(SpecStmt, int), Fail>((SpecStmt::Expr(e), 5)));
    assert(statement(i, 0, false, false, 126) == Ok::<(SpecStmt, int), Fail>((SpecStmt::Expr(e), 6)));
    assert(program(i, 6, seq![SpecStmt::Expr(e)], 126) == Ok::<Seq<SpecStmt>, Fail>(
        seq![SpecStmt::Expr(e)],
    ));
    assert(seq![].push(SpecStmt::Expr(e)) =~= seq![SpecStmt::Expr(e)]);
}

/// `break` and `continue` stand only in loop bodies (of their own function, or of the program
/// outside functions), and `return` only in function bodies; `in_loop` and `in_fn` say what
/// encloses `st`.
pub open spec fn jumps_ok(st: SpecStmt, in_loop: bool, in_fn: bool) -> bool
    decreases st, 0nat,
{
    match st {
        SpecStmt::Break(_) => in_loop,
        SpecStmt::Continue(_) => in_loop,
        SpecStmt::Return { .. } => in_fn,
        SpecStmt::If { branches, otherwise } => branches_ok(branches, in_loop, in_fn) && match otherwise {
            Some(b) => stmts_ok(b, in_loop, in_fn),
            None => true,
        },
        SpecStmt::While { body, .. } => stmts_ok(body, true, in_fn),
        SpecStmt::Repeat { body, .. } => stmts_ok(body, true, in_fn),
        SpecStmt::ForRange { body, .. } => stmts_ok(body, true, in_fn),
        SpecStmt::ForEach { body, .. } => stmts_ok(body, true, in_fn),
        SpecStmt::Function { body, .. } => stmts_ok(body, false, true),
        _ => true,
    }
}

/// `jumps_ok` of every statement of a block.
pub open spec fn stmts_ok(b: Seq<SpecStmt>, in_loop: bool, in_fn: bool) -> bool
    decreases b, b.len(),
{
    if b.len() == 0 {
        true
    } else {
        proof {
            broadcast use vstd::seq::axiom_seq_index_decreases;

            assert(decreases_to!(b => b[b.len() - 1]));
        }
        stmts_ok(b.drop_last(), in_loop, in_fn) && jumps_ok(b.last(), in_loop, in_fn)
    }
}

/// `stmts_ok` of the block of every branch of an `if`.
pub open spec fn branches_ok(b: Seq<(SpecExpr, Seq<SpecStmt>)>, in_loop: bool, in_fn: bool) -> bool
    decreases b, b.len(),
{
    if b.len() == 0 {
        true
    } else {
        proof {
            broadcast use vstd::seq::axiom_seq_index_decreases;

            assert(decreases_to!(b => b[b.len() - 1]));
        }
        branches_ok(b.drop_last(), in_loop, in_fn) && stmts_ok(b.last().1, in_loop, in_fn)
    }
}

proof fn lemma_stmts_ok_push(b: Seq<SpecStmt>, st: SpecStmt, in_loop: bool, in_fn: bool)
    requires
        stmts_ok(b, in_loop, in_fn),
        jumps_ok(st, in_loop, in_fn),
    ensures
        stmts_ok(b.push(st), in_loop, in_fn),
{
    assert(b.push(st).drop_last() =~= b);
}

proof fn lemma_branches_ok_push(
    b: Seq<(SpecExpr, Seq<SpecStmt>)>,
    x: (SpecExpr, Seq<SpecStmt>),
    in_loop: bool,
    in_fn: bool,
)
    requires
        branches_ok(b, in_loop, in_fn),
        stmts_ok(x.1, in_loop, in_fn),
    ensures
        branches_ok(b.push(x), in_loop, in_fn),
{
    assert(b.push(x).drop_last() =~= b);
}

proof fn lemma_statement_ok(i: Input, p: int, in_loop: bool, in_fn: bool, fuel: nat)
    ensures
        statement(i, p, in_loop, in_fn, fuel) matches Ok((st, _)) ==> jumps_ok(st, in_loop, in_fn),
    decreases fuel, 1nat,
{
    if fuel > 0 {
        let g = (fuel - 1) as nat;
        match kind(i, p) {
            TokenKindOf::Kw(Keyword::If) => lemma_if_ok(i, p, in_loop, in_fn, g),
            TokenKindOf::Kw(Keyword::While) => lemma_loop_ok(i, p, in_fn, g),
            TokenKindOf::Kw(Keyword::Repeat) => lemma_loop_ok(i, p, in_fn, g),
            TokenKindOf::Kw(Keyword::For) => lemma_loop_ok(i, p, in_fn, g),
            TokenKindOf::Kw(Keyword::Function) => lemma_function_ok(i, p, g),
            TokenKindOf::Kw(Keyword::Return) => {},
            TokenKindOf::Kw(Keyword::Break) => {},
            TokenKindOf::Kw(Keyword::Continue) => {},
            TokenKindOf::Indent => {},
            _ => {},
        }
    }
}

proof fn lemma_block_ok(i: Input, p: int, in_loop: bool, in_fn: bool, fuel: nat)
    ensures
        block(i, p, in_loop, in_fn, fuel) matches Ok((b, _)) ==> stmts_ok(b, in_loop, in_fn),
    decreases fuel, 2nat,
{
    if fuel > 0 {
        let g = (fuel - 1) as nat;
        match expect(
            i,
            p,
            TokenKindOf::Colon,
            "двокрапка «:» в кінці рядка",
            "a colon ':' at the end of the line",
        ) {
            Err(_) => {},
            Ok((_, p1)) => match expect(
                i,
                p1,
                TokenKindOf::Newline,
                "новий рядок після «:»",
                "a new line after ':'",
            ) {
                Err(_) => {},
                Ok((_, p2)) => match expect(
                    i,
                    p2,
                    TokenKindOf::Indent,
                    "блок з відступом на наступному рядку",
                    "an indented block on the next line",
                ) {
                    Err(_) => {},
                    Ok((_, p3)) => lemma_block_items_ok(i, p3, in_loop, in_fn, seq![], g),
                },
            },
        }
    }
}

proof fn lemma_block_items_ok(
    i: Input,
    p: int,
    in_loop: bool,
    in_fn: bool,
    acc: Seq<SpecStmt>,
    fuel: nat,
)
    requires
        stmts_ok(acc, in_loop, in_fn),
    ensures
        block_items(i, p, in_loop, in_fn, acc, fuel) matches Ok((b, _)) ==> stmts_ok(b, in_loop, in_fn),
    decreases fuel, 2nat,
{
    if fuel > 0 && !(kind(i, p) is Dedent) && !(kind(i, p) is Eof) {
        let g = (fuel - 1) as nat;
        lemma_statement_ok(i, p, in_loop, in_fn, g);
        match statement(i, p, in_loop, in_fn, g) {
            Err(_) => {},
            Ok((st, q)) => {
                lemma_stmts_ok_push(acc, st, in_loop, in_fn);
                lemma_block_items_ok(i, q, in_loop, in_fn, acc.push(st), g);
            },
        }
    }
}

proof fn lemma_if_ok(i: Input, p: int, in_loop: bool, in_fn: bool, fuel: nat)
    ensures
        if_stmt(i, p, in_loop, in_fn, fuel) matches Ok((st, _)) ==> jumps_ok(st, in_loop, in_fn),
    decreases fuel, 0nat,
{
    if fuel > 0 {
        let g = (fuel - 1) as nat;
        match expression(i, adv(i, p), g) {
            Err(_) => {},
            Ok((c, q)) => {
                lemma_block_ok(i, q, in_loop, in_fn, g);
                match block(i, q, in_loop, in_fn, g) {
                    Err(_) => {},
                    Ok((b, r)) => {
                        lemma_branches_ok_push(seq![], (c, b), in_loop, in_fn);
                        assert(Seq::<(SpecExpr, Seq<SpecStmt>)>::empty().push((c, b)) =~= seq![(c, b)]);
                        lemma_if_rest_ok(i, r, in_loop, in_fn, seq![(c, b)], g);
                    },
                }
            },
        }
    }
}

proof fn lemma_if_rest_ok(
    i: Input,
    p: int,
    in_loop: bool,
    in_fn: bool,
    branches: Seq<(SpecExpr, Seq<SpecStmt>)>,
    fuel: nat,
)
    requires
        branches_ok(branches, in_loop, in_fn),
    ensures
        if_rest(i, p, in_loop, in_fn, branches, fuel) matches Ok((st, _)) ==> jumps_ok(
            st,
            in_loop,
            in_fn,
        ),
    decreases fuel, 0nat,
{
    if fuel > 0 && kind(i, p) == TokenKindOf::<Seq<char>>::Kw(Keyword::Else) {
        let g = (fuel - 1) as nat;
        let p1 = adv(i, p);
        if kind(i, p1) == TokenKindOf::<Seq<char>>::Kw(Keyword::If) {
            match expression(i, adv(i, p1), g) {
                Err(_) => {},
                Ok((c, q)) => {
                    lemma_block_ok(i, q, in_loop, in_fn, g);
                    match block(i, q, in_loop, in_fn, g) {
                        Err(_) => {},
                        Ok((b, r)) => {
                            lemma_branches_ok_push(branches, (c, b), in_loop, in_fn);
                            lemma_if_rest_ok(i, r, in_loop, in_fn, branches.push((c, b)), g);
                        },
                    }
                },
            }
        } else {
            lemma_block_ok(i, p1, in_loop, in_fn, g);
        }
    }
}

proof fn lemma_loop_ok(i: Input, p: int, in_fn: bool, fuel: nat)
    ensures
        kind(i, p) == TokenKindOf::<Seq<char>>::Kw(Keyword::While) ==> (while_stmt(
            i,
            p,
            in_fn,
            fuel,
        ) matches Ok((st, _)) ==> jumps_ok(st, false, in_fn) && jumps_ok(st, true, in_fn)),
        repeat_stmt(i, p, in_fn, fuel) matches Ok((st, _)) ==> jumps_ok(st, false, in_fn)
            && jumps_ok(st, true, in_fn),
        for_stmt(i, p, in_fn, fuel) matches Ok((st, _)) ==> jumps_ok(st, false, in_fn) && jumps_ok(
            st,
            true,
            in_fn,
        ),
        while_stmt(i, p, in_fn, fuel) matches Ok((st, _)) ==> jumps_ok(st, false, in_fn)
            && jumps_ok(st, true, in_fn),
    decreases fuel, 0nat,
{
    if fuel > 0 {
        let g = (fuel - 1) as nat;
        match expression(i, adv(i, p), g) {
            Err(_) => {},
            Ok((_, q)) => {
                lemma_block_ok(i, q, true, in_fn, g);
                lemma_block_ok(i, skip(i, q, TokenKindOf::Kw(Keyword::Times)), true, in_fn, g);
            },
        }
        match name(i, adv(i, p)) {
            Err(_) => {},
            Ok((_, _, p2)) => {
                match expression(i, adv(i, p2), g) {
                    Err(_) => {},
                    Ok((_, p3)) => {
                        lemma_block_ok(i, p3, true, in_fn, g);
                        match expression(i, adv(i, p3), g) {
                            Err(_) => {},
                            Ok((_, p4)) => {
                                lemma_block_ok(i, p4, true, in_fn, g);
                                match expression(i, adv(i, p4), g) {
                                    Err(_) => {},
                                    Ok((_, p5)) => {
                                        lemma_block_ok(i, p5, true, in_fn, g);
                                    },
                                }
                            },
                        }
                    },
                }
            },
        }
    }
}

proof fn lemma_function_ok(i: Input, p: int, fuel: nat)
    ensures
        function(i, p, fuel) matches Ok((st, _)) ==> forall|l: bool, f: bool| #[trigger]
            jumps_ok(st, l, f),
    decreases fuel, 0nat,
{
    if fuel > 0 {
        let g = (fuel - 1) as nat;
        match name(i, adv(i, p)) {
            Err(_) => {},
            Ok((_, _, p2)) => match expect(
                i,
                p2,
                TokenKindOf::LParen,
                "дужка «(» після назви функції",
                "'(' after the function name",
            ) {
                Err(_) => {},
                Ok((_, p3)) => {
                    let params = if kind(i, p3) is RParen {
                        Ok((seq![], p3))
                    } else {
                        param_list(i, p3, seq![], g)
                    };
                    match params {
                        Err(_) => {},
                        Ok((_, p4)) => match expect(
                            i,
                            p4,
                            TokenKindOf::RParen,
                            "дужка «)» або кома",
                            "')' or a comma",
                        ) {
                            Err(_) => {},
                            Ok((_, p5)) => lemma_block_ok(i, p5, false, true, g),
                        },
                    }
                },
            },
        }
    }
}

/// Every statement of a program that parses keeps `break` and `continue` inside loop bodies
/// of their own function and `return` inside function bodies.
pub proof fn lemma_parse_jumps(src: Seq<char>, toks: Seq<SpecToken>)
    ensures
        spec_parse(src, toks) matches Ok(b) ==> stmts_ok(b, false, false),
{
    let i = Input { src, toks };
    lemma_program_ok(i, 0, seq![], budget(i, 0, 15) as nat);
}

proof fn lemma_program_ok(i: Input, p: int, acc: Seq<SpecStmt>, fuel: nat)
    requires
        stmts_ok(acc, false, false),
    ensures
        program(i, p, acc, fuel) matches Ok(b) ==> stmts_ok(b, false, false),
    decreases fuel,
{
    if fuel > 0 && !(kind(i, p) is Eof) {
        let g = (fuel - 1) as nat;
        lemma_statement_ok(i, p, false, false, g);
        match statement(i, p, false, false, g) {
            Err(_) => {},
            Ok((st, q)) => {
                lemma_stmts_ok_push(acc, st, false, false);
                lemma_program_ok(i, q, acc.push(st), g);
            },
        }
    }
}

/// A number for each kind of token; kinds without contents are told apart by it.
pub open spec fn tag(k: SpecTokenKind) -> u8 {
    match k {
        TokenKindOf::Number(_) => 0,
        TokenKindOf::Text(_) => 1,
        TokenKindOf::Name(_) => 2,
        TokenKindOf::Kw(_) => 3,
        TokenKindOf::Plus => 4,
        TokenKindOf::Minus => 5,
        TokenKindOf::Star => 6,
        TokenKindOf::Slash => 7,
        TokenKindOf::Percent => 8,
        TokenKindOf::Assign => 9,
        TokenKindOf::EqEq => 10,
        TokenKindOf::NotEq => 11,
        TokenKindOf::Less => 12,
        TokenKindOf::LessEq => 13,
        TokenKindOf::Greater => 14,
        TokenKindOf::GreaterEq => 15,
        TokenKindOf::LParen => 16,
        TokenKindOf::RParen => 17,
        TokenKindOf::LBracket => 18,
        TokenKindOf::RBracket => 19,
        TokenKindOf::Comma => 20,
        TokenKindOf::Colon => 21,
        TokenKindOf::Newline => 22,
        TokenKindOf::Indent => 23,
        TokenKindOf::Dedent => 24,
        TokenKindOf::Eof => 25,
    }
}

/// A kind without contents.
pub open spec fn plain(k: SpecTokenKind) -> bool {
    tag(k) >= 4
}

fn kind_tag(k: &TokenKind) -> (r: u8)
    ensures
        r == tag(k@),
{
    match k {
        TokenKindOf::Number(_) => 0,
        TokenKindOf::Text(_) => 1,
        TokenKindOf::Name(_) => 2,
        TokenKindOf::Kw(_) => 3,
        TokenKindOf::Plus => 4,
        TokenKindOf::Minus => 5,
        TokenKindOf::Star => 6,
        TokenKindOf::Slash => 7,
        TokenKindOf::Percent => 8,
        TokenKindOf::Assign => 9,
        TokenKindOf::EqEq => 10,
        TokenKindOf::NotEq => 11,
        TokenKindOf::Less => 12,
        TokenKindOf::LessEq => 13,
        TokenKindOf::Greater => 14,
        TokenKindOf::GreaterEq => 15,
        TokenKindOf::LParen => 16,
        TokenKindOf::RParen => 17,
        TokenKindOf::LBracket => 18,
        TokenKindOf::RBracket => 19,
        TokenKindOf::Comma => 20,
        TokenKindOf::Colon => 21,
        TokenKindOf::Newline => 22,
        TokenKindOf::Indent => 23,
        TokenKindOf::Dedent => 24,
        TokenKindOf::Eof => 25,
    }
}

fn binop_of(k: &TokenKind) -> (r: Option<(BinOp, u8)>)
    ensures
        r == binop(k@),
{
    match k {
        TokenKindOf::Kw(Keyword::Or) => Some((BinOp::Or, 1)),
        TokenKindOf::Kw(Keyword::And) => Some((BinOp::And, 2)),
        TokenKindOf::EqEq => Some((BinOp::Eq, 4)),
        TokenKindOf::NotEq => Some((BinOp::Ne, 4)),
        TokenKindOf::Less => Some((BinOp::Lt, 4)),
        TokenKindOf::LessEq => Some((BinOp::Le, 4)),
        TokenKindOf::Greater => Some((BinOp::Gt, 4)),
        TokenKindOf::GreaterEq => Some((BinOp::Ge, 4)),
        TokenKindOf::Plus => Some((BinOp::Add, 5)),
        TokenKindOf::Minus => Some((BinOp::Sub, 5)),
        TokenKindOf::Star => Some((BinOp::Mul, 6)),
        TokenKindOf::Slash => Some((BinOp::Div, 6)),
        TokenKindOf::Percent => Some((BinOp::Rem, 6)),
        _ => None,
    }
}

/// The parser's state over one program.
struct Parser<'a> {
    src: &'a str,
    idx: Vec<(usize, char)>,
    tokens: &'a [Token],
    pos: usize,
    in_loop: bool,
    in_function: bool,
}

impl<'a> Parser<'a> {
    spec fn input(&self) -> Input {
        Input { src: self.src@, toks: self.tokens@.map_values(|t: Token| t@) }
    }

    spec fn wf(&self) -> bool {
        &&& indexes(self.idx@, self.src@)
        &&& self.idx@.len() == self.src@.len()
        &&& self.tokens@.len() >= 1
        &&& self.tokens@.last().kind@ is Eof
        &&& self.pos < self.tokens@.len()
    }

    /// Same text, tokens and enclosing loop and function.
    spec fn same(&self, other: Parser<'a>) -> bool {
        &&& self.src == other.src
        &&& self.idx@ == other.idx@
        &&& self.tokens@ == other.tokens@
        &&& self.in_loop == other.in_loop
        &&& self.in_function == other.in_function
    }

    proof fn lemma_adv(&self)
        requires
            self.wf(),
            !(kind(self.input(), self.pos as int) is Eof),
        ensures
            adv(self.input(), self.pos as int) == self.pos + 1,
            self.pos + 1 < self.tokens@.len(),
    {
        if self.pos + 1 >= self.tokens@.len() {
            assert(self.tokens@.last() == self.tokens@[self.pos as int]);
        }
    }

    fn peek(&self) -> (k: &TokenKind)
        requires
            self.wf(),
        ensures
            k@ == kind(self.input(), self.pos as int),
    {
        &self.tokens[self.pos].kind
    }

    fn span(&self) -> (s: Span)
        requires
            self.wf(),
        ensures
            s == span_at(self.input(), self.pos as int),
    {
        self.tokens[self.pos].span
    }

    /// Whether the current token is of the kind `k`, which has no contents.
    fn at(&self, k: &TokenKind) -> (r: bool)
        requires
            self.wf(),
            plain(k@),
        ensures
            r == (kind(self.input(), self.pos as int) == k@),
    {
        kind_tag(self.peek()) == kind_tag(k)
    }

    fn at_kw(&self, k: Keyword) -> (r: bool)
        requires
            self.wf(),
        ensures
            r == (kind(self.input(), self.pos as int) == TokenKindOf::<Seq<char>>::Kw(k)),
    {
        match self.peek() {
            TokenKindOf::Kw(x) => *x == k,
            _ => false,
        }
    }

    fn advance(&mut self) -> (s: Span)
        requires
            old(self).wf(),
        ensures
            final(self).wf(),
            final(self).same(*old(self)),
            s == span_at(old(self).input(), old(self).pos as int),
            final(self).pos == adv(old(self).input(), old(self).pos as int),
    {
        let s = self.span();
        if self.pos < self.tokens.len() - 1 {
            self.pos = self.pos + 1;
        }
        s
    }

    fn eat(&mut self, k: &TokenKind) -> (r: bool)
        requires
            old(self).wf(),
            plain(k@),
        ensures
            final(self).wf(),
            final(self).same(*old(self)),
            r == (kind(old(self).input(), old(self).pos as int) == k@),
            final(self).pos == skip(old(self).input(), old(self).pos as int, k@),
    {
        let hit = self.at(k);
        if hit {
            self.advance();
        }
        hit
    }

    /// The source text of the current token.
    fn word(&self) -> (w: String)
        requires
            self.wf(),
        ensures
            w@ == word(self.input(), self.pos as int),
    {
        let ghost s = self.src@;
        let sp = self.span();
        let mut out = String::new();
        let mut k: usize = 0;
        while k < self.idx.len()
            invariant
                self.wf(),
                s == self.src@,
                k <= s.len(),
                out@ + chars_in(s, sp.start as int, sp.end as int, k as int) == chars_in(
                    s,
                    sp.start as int,
                    sp.end as int,
                    0,
                ),
            decreases s.len() - k,
        {
            proof {
                reveal(indexes);
                assert(self.idx@[k as int].1 == s[k as int]);
            }
            let (b, c) = self.idx[k];
            let ghost before = out@;
            if sp.start <= b && b < sp.end {
                push_char(&mut out, c);
                proof {
                    assert(out@ + chars_in(s, sp.start as int, sp.end as int, k + 1) =~= before
                        + chars_in(s, sp.start as int, sp.end as int, k as int));
                }
            }
            k += 1;
        }
        proof {
            assert(out@ + chars_in(s, sp.start as int, sp.end as int, k as int) =~= out@);
        }
        out
    }

    fn expected(&self, uk: &'static str, en: &'static str) -> (d: Diagnostic)
        requires
            self.wf(),
        ensures
            refuses(d, expected(self.input(), self.pos as int, uk, en)),
    {
        Diagnostic::new(ErrorKind::Expected { uk, en }, self.span())
    }

    fn unexpected(&self) -> (d: Diagnostic)
        requires
            self.wf(),
        ensures
            refuses(d, unexpected(self.input(), self.pos as int)),
    {
        let desc = match self.peek() {
            TokenKindOf::Newline => TokDesc::EndOfLine,
            TokenKindOf::Eof => TokDesc::EndOfFile,
            TokenKindOf::Indent => TokDesc::Indent,
            TokenKindOf::Dedent => TokDesc::Dedent,
            _ => TokDesc::Text(self.word()),
        };
        Diagnostic::new(ErrorKind::UnexpectedToken(desc), self.span())
    }

    fn expect(&mut self, k: &TokenKind, uk: &'static str, en: &'static str) -> (r: Result<Span, Diagnostic>)
        requires
            old(self).wf(),
            plain(k@),
        ensures
            final(self).wf(),
            final(self).same(*old(self)),
            match r {
                Ok(s) => expect(old(self).input(), old(self).pos as int, k@, uk, en) == Ok::<
                    (Span, int),
                    Fail,
                >((s, final(self).pos as int)),
                Err(d) => expect(old(self).input(), old(self).pos as int, k@, uk, en) matches Err(f)
                    && refuses(d, f),
            },
    {
        if self.at(k) {
            Ok(self.advance())
        } else {
            Err(self.expected(uk, en))
        }
    }

    /// A name.
    fn name(&mut self) -> (r: Result<(String, Span), Diagnostic>)
        requires
            old(self).wf(),
        ensures
            final(self).wf(),
            final(self).same(*old(self)),
            match r {
                Ok((n, s)) => name(old(self).input(), old(self).pos as int) == Ok::<
                    (Seq<char>, Span, int),
                    Fail,
                >((n@, s, final(self).pos as int)) && old(self).pos < final(self).pos,
                Err(d) => name(old(self).input(), old(self).pos as int) matches Err(f) && refuses(
                    d,
                    f,
                ),
            },
    {
        match self.peek() {
            TokenKindOf::Name(n) => {
                let n = n.clone();
                proof {
                    self.lemma_adv();
                }
                let s = self.advance();
                Ok((n, s))
            },
            TokenKindOf::Kw(_) => Err(
                Diagnostic::new(ErrorKind::KeywordAsName(self.word()), self.span()),
            ),
            _ => Err(self.expected("назва", "a name")),
        }
    }
}

impl<'a> Parser<'a> {
    /// An expression.
    fn expression(&mut self, Ghost(fuel): Ghost<nat>) -> (r: Result<Expr, Diagnostic>)
        requires
            old(self).wf(),
            fuel >= budget(old(self).input(), old(self).pos as int, 10),
        ensures
            final(self).wf(),
            final(self).same(*old(self)),
            match r {
                Ok(e) => expression(old(self).input(), old(self).pos as int, fuel) == Ok::<
                    (SpecExpr, int),
                    Fail,
                >((e@, final(self).pos as int)) && old(self).pos < final(self).pos,
                Err(d) => expression(old(self).input(), old(self).pos as int, fuel) matches Err(f)
                    && refuses(d, f),
            },
        decreases fuel, 1nat,
    {
        self.expr_bp(0, Ghost(fuel))
    }

    /// An expression whose operators bind tighter than `min`.
    fn expr_bp(&mut self, min: u8, Ghost(fuel): Ghost<nat>) -> (r: Result<Expr, Diagnostic>)
        requires
            old(self).wf(),
            fuel >= budget(old(self).input(), old(self).pos as int, 10),
        ensures
            final(self).wf(),
            final(self).same(*old(self)),
            match r {
                Ok(e) => expr_bp(old(self).input(), old(self).pos as int, min, fuel) == Ok::<
                    (SpecExpr, int),
                    Fail,
                >((e@, final(self).pos as int)) && old(self).pos < final(self).pos,
                Err(d) => expr_bp(old(self).input(), old(self).pos as int, min, fuel) matches Err(f)
                    && refuses(d, f),
            },
        decreases fuel, 0nat,
    {
        let ghost i = self.input();
        let ghost p0 = self.pos as int;
        let mut left = match self.prefix(Ghost((fuel - 1) as nat)) {
            Ok(e) => e,
            Err(d) => {
                return Err(d);
            },
        };
        let ghost mut lf: nat = (fuel - 1) as nat;
        loop
            invariant
                self.wf(),
                self.same(*old(self)),
                i == self.input(),
                i == old(self).input(),
                p0 == old(self).pos,
                p0 < self.pos,
                lf < fuel,
                lf >= budget(i, self.pos as int, 9),
                expr_bp(i, p0, min, fuel) == expr_loop(i, self.pos as int, min, left@, lf),
            decreases lf,
        {
            let ghost p = self.pos as int;
            if self.at(&TokenKindOf::LParen) {
                left = match self.call(left, Ghost((lf - 1) as nat)) {
                    Ok(e) => e,
                    Err(d) => {
                        return Err(d);
                    },
                };
                proof {
                    lf = (lf - 1) as nat;
                }
                continue;
            }
            if self.at(&TokenKindOf::LBracket) {
                left = match self.index(left, Ghost((lf - 1) as nat)) {
                    Ok(e) => e,
                    Err(d) => {
                        return Err(d);
                    },
                };
                proof {
                    lf = (lf - 1) as nat;
                }
                continue;
            }
            match binop_of(self.peek()) {
                None => {
                    return Ok(left);
                },
                Some((op, bp)) => {
                    if bp <= min {
                        return Ok(left);
                    }
                    proof {
                        self.lemma_adv();
                    }
                    self.advance();
                    let right = match self.expr_bp(bp, Ghost((lf - 1) as nat)) {
                        Ok(e) => e,
                        Err(d) => {
                            return Err(d);
                        },
                    };
                    let span = left.span().to(right.span());
                    left = Expr::Binary { op, left: Box::new(left), right: Box::new(right), span };
                    proof {
                        lf = (lf - 1) as nat;
                    }
                },
            }
        }
    }

    /// An operand.
    fn prefix(&mut self, Ghost(fuel): Ghost<nat>) -> (r: Result<Expr, Diagnostic>)
        requires
            old(self).wf(),
            fuel >= budget(old(self).input(), old(self).pos as int, 7),
        ensures
            final(self).wf(),
            final(self).same(*old(self)),
            match r {
                Ok(e) => prefix(old(self).input(), old(self).pos as int, fuel) == Ok::<
                    (SpecExpr, int),
                    Fail,
                >((e@, final(self).pos as int)) && old(self).pos < final(self).pos,
                Err(d) => prefix(old(self).input(), old(self).pos as int, fuel) matches Err(f)
                    && refuses(d, f),
            },
        decreases fuel, 0nat,
    {
        let ghost i = self.input();
        let span = self.span();
        let g = Ghost((fuel - 1) as nat);
        match self.peek() {
            TokenKindOf::Number(n) => {
                let n = n.clone();
                proof {
                    self.lemma_adv();
                }
                self.advance();
                Ok(Expr::Number(n, span))
            },
            TokenKindOf::Text(t) => {
                let t = t.clone();
                proof {
                    self.lemma_adv();
                }
                self.advance();
                Ok(Expr::Text(t, span))
            },
            TokenKindOf::Name(n) => {
                let n = n.clone();
                proof {
                    self.lemma_adv();
                }
                self.advance();
                Ok(Expr::Name(n, span))
            },
            TokenKindOf::Kw(Keyword::True) => {
                proof {
                    self.lemma_adv();
                }
                self.advance();
                Ok(Expr::Bool(true, span))
            },
            TokenKindOf::Kw(Keyword::False) => {
                proof {
                    self.lemma_adv();
                }
                self.advance();
                Ok(Expr::Bool(false, span))
            },
            TokenKindOf::Kw(Keyword::Nothing) => {
                proof {
                    self.lemma_adv();
                }
                self.advance();
                Ok(Expr::Nothing(span))
            },
            TokenKindOf::Minus => {
                proof {
                    self.lemma_adv();
                }
                self.advance();
                let e = match self.expr_bp(7, g) {
                    Ok(e) => e,
                    Err(d) => {
                        return Err(d);
                    },
                };
                let span = span.to(e.span());
                Ok(Expr::Unary { op: UnOp::Neg, expr: Box::new(e), span })
            },
            TokenKindOf::Kw(Keyword::Not) => {
                proof {
                    self.lemma_adv();
                }
                self.advance();
                let e = match self.expr_bp(3, g) {
                    Ok(e) => e,
                    Err(d) => {
                        return Err(d);
                    },
                };
                let span = span.to(e.span());
                Ok(Expr::Unary { op: UnOp::Not, expr: Box::new(e), span })
            },
            TokenKindOf::LParen => {
                proof {
                    self.lemma_adv();
                }
                self.advance();
                let inner = match self.expression(g) {
                    Ok(e) => e,
                    Err(d) => {
                        return Err(d);
                    },
                };
                match self.expect(&TokenKindOf::RParen, "дужка «)»", "')'") {
                    Ok(_) => Ok(inner),
                    Err(d) => Err(d),
                }
            },
            TokenKindOf::LBracket => {
                proof {
                    self.lemma_adv();
                }
                self.advance();
                let xs = match self.items(&TokenKindOf::RBracket, g) {
                    Ok(xs) => xs,
                    Err(d) => {
                        return Err(d);
                    },
                };
                match self.expect(&TokenKindOf::RBracket, "дужка «]» або кома", "']' or a comma") {
                    Ok(end) => Ok(Expr::List(xs, span.to(end))),
                    Err(d) => Err(d),
                }
            },
            _ => Err(self.expected("значення або вираз", "a value or an expression")),
        }
    }

    /// Comma-separated expressions up to a token of kind `close`.
    fn items(&mut self, close: &TokenKind, Ghost(fuel): Ghost<nat>) -> (r: Result<Vec<Expr>, Diagnostic>)
        requires
            old(self).wf(),
            plain(close@),
            fuel >= budget(old(self).input(), old(self).pos as int, 11),
        ensures
            final(self).wf(),
            final(self).same(*old(self)),
            match r {
                Ok(xs) => items(old(self).input(), old(self).pos as int, close@, seq![], fuel) == Ok::<
                    (Seq<SpecExpr>, int),
                    Fail,
                >((exprs_view(xs@), final(self).pos as int)) && old(self).pos <= final(self).pos,
                Err(d) => items(old(self).input(), old(self).pos as int, close@, seq![], fuel) matches Err(
                    f,
                ) && refuses(d, f),
            },
        decreases fuel, 0nat,
    {
        let ghost i = self.input();
        let ghost p0 = self.pos as int;
        let mut xs: Vec<Expr> = Vec::new();
        let ghost mut lf: nat = fuel;
        proof {
            lemma_views_empty();
        }
        loop
            invariant
                self.wf(),
                self.same(*old(self)),
                i == self.input(),
                i == old(self).input(),
                p0 == old(self).pos,
                p0 <= self.pos,
                plain(close@),
                lf <= fuel,
                lf >= budget(i, self.pos as int, 11),
                items(i, p0, close@, seq![], fuel) == items(
                    i,
                    self.pos as int,
                    close@,
                    exprs_view(xs@),
                    lf,
                ),
            decreases lf,
        {
            if self.at(close) {
                return Ok(xs);
            }
            let e = match self.expression(Ghost((lf - 1) as nat)) {
                Ok(e) => e,
                Err(d) => {
                    return Err(d);
                },
            };
            let ghost before = xs@;
            xs.push(e);
            proof {
                lemma_exprs_push(before, e);
            }
            if !self.at(&TokenKindOf::Comma) {
                return Ok(xs);
            }
            proof {
                self.lemma_adv();
            }
            self.advance();
            proof {
                lf = (lf - 1) as nat;
            }
        }
    }

    /// A call of `callee`: the current token is `(`.
    fn call(&mut self, callee: Expr, Ghost(fuel): Ghost<nat>) -> (r: Result<Expr, Diagnostic>)
        requires
            old(self).wf(),
            kind(old(self).input(), old(self).pos as int) is LParen,
            fuel >= budget(old(self).input(), old(self).pos as int, 8),
        ensures
            final(self).wf(),
            final(self).same(*old(self)),
            match r {
                Ok(e) => call(old(self).input(), old(self).pos as int, callee@, fuel) == Ok::<
                    (SpecExpr, int),
                    Fail,
                >((e@, final(self).pos as int)) && old(self).pos < final(self).pos,
                Err(d) => call(old(self).input(), old(self).pos as int, callee@, fuel) matches Err(f)
                    && refuses(d, f),
            },
        decreases fuel, 0nat,
    {
        proof {
            self.lemma_adv();
        }
        self.advance();
        let args = match self.items(&TokenKindOf::RParen, Ghost((fuel - 1) as nat)) {
            Ok(a) => a,
            Err(d) => {
                return Err(d);
            },
        };
        let end = match self.expect(&TokenKindOf::RParen, "дужка «)» або кома", "')' or a comma") {
            Ok(s) => s,
            Err(d) => {
                return Err(d);
            },
        };
        let span = callee.span().to(end);
        Ok(Expr::Call { callee: Box::new(callee), args, span })
    }

    /// Indexing into `target`: the current token is `[`.
    fn index(&mut self, target: Expr, Ghost(fuel): Ghost<nat>) -> (r: Result<Expr, Diagnostic>)
        requires
            old(self).wf(),
            kind(old(self).input(), old(self).pos as int) is LBracket,
            fuel >= budget(old(self).input(), old(self).pos as int, 8),
        ensures
            final(self).wf(),
            final(self).same(*old(self)),
            match r {
                Ok(e) => index(old(self).input(), old(self).pos as int, target@, fuel) == Ok::<
                    (SpecExpr, int),
                    Fail,
                >((e@, final(self).pos as int)) && old(self).pos < final(self).pos,
                Err(d) => index(old(self).input(), old(self).pos as int, target@, fuel) matches Err(f)
                    && refuses(d, f),
            },
        decreases fuel, 0nat,
    {
        proof {
            self.lemma_adv();
        }
        self.advance();
        let ix = match self.expression(Ghost((fuel - 1) as nat)) {
            Ok(e) => e,
            Err(d) => {
                return Err(d);
            },
        };
        let end = match self.expect(&TokenKindOf::RBracket, "дужка «]»", "']'") {
            Ok(s) => s,
            Err(d) => {
                return Err(d);
            },
        };
        let span = target.span().to(end);
        Ok(Expr::Index { target: Box::new(target), index: Box::new(ix), span })
    }
}

impl<'a> Parser<'a> {
    /// A one-line statement has to end its line.
    fn end_line(&mut self, stmt: Stmt) -> (r: Result<Stmt, Diagnostic>)
        requires
            old(self).wf(),
        ensures
            final(self).wf(),
            final(self).same(*old(self)),
            match r {
                Ok(st) => end_line(
                    old(self).input(),
                    Ok::<(SpecStmt, int), Fail>((stmt@, old(self).pos as int)),
                ) == Ok::<(SpecStmt, int), Fail>((st@, final(self).pos as int)) && st@ == stmt@
                    && old(self).pos <= final(self).pos,
                Err(d) => end_line(
                    old(self).input(),
                    Ok::<(SpecStmt, int), Fail>((stmt@, old(self).pos as int)),
                ) matches Err(f) && refuses(d, f),
            },
    {
        if self.eat(&TokenKindOf::Newline) || self.at(&TokenKindOf::Eof) || self.at(
            &TokenKindOf::Dedent,
        ) {
            Ok(stmt)
        } else {
            Err(self.unexpected())
        }
    }

    /// A statement.
    fn statement(&mut self, Ghost(fuel): Ghost<nat>) -> (r: Result<Stmt, Diagnostic>)
        requires
            old(self).wf(),
            fuel >= budget(old(self).input(), old(self).pos as int, 13),
        ensures
            final(self).wf(),
            final(self).same(*old(self)),
            match r {
                Ok(st) => statement(
                    old(self).input(),
                    old(self).pos as int,
                    old(self).in_loop,
                    old(self).in_function,
                    fuel,
                ) == Ok::<(SpecStmt, int), Fail>((st@, final(self).pos as int)) && old(self).pos
                    < final(self).pos,
                Err(d) => statement(
                    old(self).input(),
                    old(self).pos as int,
                    old(self).in_loop,
                    old(self).in_function,
                    fuel,
                ) matches Err(f) && refuses(d, f),
            },
        decreases fuel, 0nat,
    {
        let g = Ghost((fuel - 1) as nat);
        let k = kind_tag(self.peek());
        if k == 3 {
            if self.at_kw(Keyword::If) {
                return self.if_stmt(g);
            }
            if self.at_kw(Keyword::While) {
                return self.while_stmt(g);
            }
            if self.at_kw(Keyword::Repeat) {
                return self.repeat_stmt(g);
            }
            if self.at_kw(Keyword::For) {
                return self.for_stmt(g);
            }
            if self.at_kw(Keyword::Function) {
                return self.function(g);
            }
            if self.at_kw(Keyword::Return) {
                let st = match self.return_stmt(g) {
                    Ok(st) => st,
                    Err(d) => {
                        return Err(d);
                    },
                };
                return self.end_line(st);
            }
            if self.at_kw(Keyword::Break) || self.at_kw(Keyword::Continue) {
                let st = match self.jump() {
                    Ok(st) => st,
                    Err(d) => {
                        return Err(d);
                    },
                };
                return self.end_line(st);
            }
        }
        if self.at(&TokenKindOf::Indent) {
            return Err(self.unexpected());
        }
        let st = match self.expr_or_assign(g) {
            Ok(st) => st,
            Err(d) => {
                return Err(d);
            },
        };
        self.end_line(st)
    }

    /// `:`, the end of the line, then an indented block.
    fn block(&mut self, Ghost(fuel): Ghost<nat>) -> (r: Result<Vec<Stmt>, Diagnostic>)
        requires
            old(self).wf(),
            fuel >= budget(old(self).input(), old(self).pos as int, 6),
        ensures
            final(self).wf(),
            final(self).same(*old(self)),
            match r {
                Ok(b) => block(
                    old(self).input(),
                    old(self).pos as int,
                    old(self).in_loop,
                    old(self).in_function,
                    fuel,
                ) == Ok::<(Seq<SpecStmt>, int), Fail>((stmts_view(b@), final(self).pos as int))
                    && old(self).pos < final(self).pos,
                Err(d) => block(
                    old(self).input(),
                    old(self).pos as int,
                    old(self).in_loop,
                    old(self).in_function,
                    fuel,
                ) matches Err(f) && refuses(d, f),
            },
        decreases fuel, 0nat,
    {
        let ghost i = self.input();
        let ghost p0 = self.pos as int;
        match self.expect(
            &TokenKindOf::Colon,
            "двокрапка «:» в кінці рядка",
            "a colon ':' at the end of the line",
        ) {
            Ok(_) => {},
            Err(d) => {
                return Err(d);
            },
        }
        proof {
            if p0 + 1 >= i.toks.len() {
                assert(self.tokens@.last() == self.tokens@[p0]);
            }
        }
        match self.expect(&TokenKindOf::Newline, "новий рядок після «:»", "a new line after ':'") {
            Ok(_) => {},
            Err(d) => {
                return Err(d);
            },
        }
        match self.expect(
            &TokenKindOf::Indent,
            "блок з відступом на наступному рядку",
            "an indented block on the next line",
        ) {
            Ok(_) => {},
            Err(d) => {
                return Err(d);
            },
        }
        let mut body: Vec<Stmt> = Vec::new();
        let ghost mut lf: nat = (fuel - 1) as nat;
        proof {
            lemma_views_empty();
        }
        while !self.at(&TokenKindOf::Dedent) && !self.at(&TokenKindOf::Eof)
            invariant
                self.wf(),
                self.same(*old(self)),
                i == self.input(),
                i == old(self).input(),
                p0 == old(self).pos,
                p0 < self.pos,
                lf < fuel,
                lf >= budget(i, self.pos as int, 14),
                block(i, p0, self.in_loop, self.in_function, fuel) == block_items(
                    i,
                    self.pos as int,
                    self.in_loop,
                    self.in_function,
                    stmts_view(body@),
                    lf,
                ),
            decreases lf,
        {
            let st = match self.statement(Ghost((lf - 1) as nat)) {
                Ok(st) => st,
                Err(d) => {
                    return Err(d);
                },
            };
            let ghost before = body@;
            body.push(st);
            proof {
                lemma_stmts_push(before, st);
                lf = (lf - 1) as nat;
            }
        }
        self.eat(&TokenKindOf::Dedent);
        Ok(body)
    }

    /// A block inside a loop.
    fn loop_body(&mut self, Ghost(fuel): Ghost<nat>) -> (r: Result<Vec<Stmt>, Diagnostic>)
        requires
            old(self).wf(),
            fuel >= budget(old(self).input(), old(self).pos as int, 6),
        ensures
            final(self).wf(),
            final(self).same(*old(self)),
            match r {
                Ok(b) => block(
                    old(self).input(),
                    old(self).pos as int,
                    true,
                    old(self).in_function,
                    fuel,
                ) == Ok::<(Seq<SpecStmt>, int), Fail>((stmts_view(b@), final(self).pos as int))
                    && old(self).pos < final(self).pos,
                Err(d) => block(
                    old(self).input(),
                    old(self).pos as int,
                    true,
                    old(self).in_function,
                    fuel,
                ) matches Err(f) && refuses(d, f),
            },
        decreases fuel, 1nat,
    {
        let saved = self.in_loop;
        self.in_loop = true;
        let body = self.block(Ghost(fuel));
        self.in_loop = saved;
        body
    }

    /// `if`, its condition and block, and its `else` branches.
    fn if_stmt(&mut self, Ghost(fuel): Ghost<nat>) -> (r: Result<Stmt, Diagnostic>)
        requires
            old(self).wf(),
            kind(old(self).input(), old(self).pos as int) == TokenKindOf::<Seq<char>>::Kw(
                Keyword::If,
            ),
            fuel >= budget(old(self).input(), old(self).pos as int, 12),
        ensures
            final(self).wf(),
            final(self).same(*old(self)),
            match r {
                Ok(st) => if_stmt(
                    old(self).input(),
                    old(self).pos as int,
                    old(self).in_loop,
                    old(self).in_function,
                    fuel,
                ) == Ok::<(SpecStmt, int), Fail>((st@, final(self).pos as int)) && old(self).pos
                    < final(self).pos,
                Err(d) => if_stmt(
                    old(self).input(),
                    old(self).pos as int,
                    old(self).in_loop,
                    old(self).in_function,
                    fuel,
                ) matches Err(f) && refuses(d, f),
            },
        decreases fuel, 0nat,
    {
        let ghost i = self.input();
        let ghost p0 = self.pos as int;
        let g = Ghost((fuel - 1) as nat);
        proof {
            self.lemma_adv();
        }
        self.advance();
        let c = match self.expression(g) {
            Ok(e) => e,
            Err(d) => {
                return Err(d);
            },
        };
        let b = match self.block(g) {
            Ok(b) => b,
            Err(d) => {
                return Err(d);
            },
        };
        let mut branches: Vec<(Expr, Vec<Stmt>)> = Vec::new();
        let ghost first = (c@, stmts_view(b@));
        branches.push((c, b));
        proof {
            lemma_views_empty();
            lemma_branches_push(Seq::<(Expr, Vec<Stmt>)>::empty(), branches@[0]);
            assert(Seq::<(Expr, Vec<Stmt>)>::empty().push(branches@[0]) =~= branches@);
            assert(Seq::<(SpecExpr, Seq<SpecStmt>)>::empty().push(first) =~= seq![first]);
        }
        let ghost mut lf: nat = (fuel - 1) as nat;
        loop
            invariant
                self.wf(),
                self.same(*old(self)),
                i == self.input(),
                i == old(self).input(),
                p0 == old(self).pos,
                p0 < self.pos,
                lf < fuel,
                lf >= budget(i, self.pos as int, 12),
                if_stmt(i, p0, self.in_loop, self.in_function, fuel) == if_rest(
                    i,
                    self.pos as int,
                    self.in_loop,
                    self.in_function,
                    branches_view(branches@),
                    lf,
                ),
            decreases lf,
        {
            if !self.at_kw(Keyword::Else) {
                return Ok(Stmt::If { branches, otherwise: None });
            }
            proof {
                self.lemma_adv();
            }
            self.advance();
            if self.at_kw(Keyword::If) {
                proof {
                    self.lemma_adv();
                }
                self.advance();
                let c = match self.expression(Ghost((lf - 1) as nat)) {
                    Ok(e) => e,
                    Err(d) => {
                        return Err(d);
                    },
                };
                let b = match self.block(Ghost((lf - 1) as nat)) {
                    Ok(b) => b,
                    Err(d) => {
                        return Err(d);
                    },
                };
                let ghost before = branches@;
                branches.push((c, b));
                proof {
                    lemma_branches_push(before, branches@.last());
                    assert(before.push(branches@.last()) =~= branches@);
                    lf = (lf - 1) as nat;
                }
            } else {
                let b = match self.block(Ghost((lf - 1) as nat)) {
                    Ok(b) => b,
                    Err(d) => {
                        return Err(d);
                    },
                };
                return Ok(Stmt::If { branches, otherwise: Some(b) });
            }
        }
    }

    /// `while`, its condition and loop body.
    fn while_stmt(&mut self, Ghost(fuel): Ghost<nat>) -> (r: Result<Stmt, Diagnostic>)
        requires
            old(self).wf(),
            kind(old(self).input(), old(self).pos as int) == TokenKindOf::<Seq<char>>::Kw(
                Keyword::While,
            ),
            fuel >= budget(old(self).input(), old(self).pos as int, 12),
        ensures
            final(self).wf(),
            final(self).same(*old(self)),
            match r {
                Ok(st) => while_stmt(
                    old(self).input(),
                    old(self).pos as int,
                    old(self).in_function,
                    fuel,
                ) == Ok::<(SpecStmt, int), Fail>((st@, final(self).pos as int)) && old(self).pos
                    < final(self).pos,
                Err(d) => while_stmt(
                    old(self).input(),
                    old(self).pos as int,
                    old(self).in_function,
                    fuel,
                ) matches Err(f) && refuses(d, f),
            },
        decreases fuel, 0nat,
    {
        let g = Ghost((fuel - 1) as nat);
        proof {
            self.lemma_adv();
        }
        let span = self.advance();
        let cond = match self.expression(g) {
            Ok(e) => e,
            Err(d) => {
                return Err(d);
            },
        };
        let body = match self.loop_body(g) {
            Ok(b) => b,
            Err(d) => {
                return Err(d);
            },
        };
        Ok(Stmt::While { cond, body, span })
    }

    /// `repeat`, its count, an optional `times`, and its loop body.
    fn repeat_stmt(&mut self, Ghost(fuel): Ghost<nat>) -> (r: Result<Stmt, Diagnostic>)
        requires
            old(self).wf(),
            kind(old(self).input(), old(self).pos as int) == TokenKindOf::<Seq<char>>::Kw(
                Keyword::Repeat,
            ),
            fuel >= budget(old(self).input(), old(self).pos as int, 12),
        ensures
            final(self).wf(),
            final(self).same(*old(self)),
            match r {
                Ok(st) => repeat_stmt(
                    old(self).input(),
                    old(self).pos as int,
                    old(self).in_function,
                    fuel,
                ) == Ok::<(SpecStmt, int), Fail>((st@, final(self).pos as int)) && old(self).pos
                    < final(self).pos,
                Err(d) => repeat_stmt(
                    old(self).input(),
                    old(self).pos as int,
                    old(self).in_function,
                    fuel,
                ) matches Err(f) && refuses(d, f),
            },
        decreases fuel, 0nat,
    {
        let g = Ghost((fuel - 1) as nat);
        proof {
            self.lemma_adv();
        }
        let span = self.advance();
        let count = match self.expression(g) {
            Ok(e) => e,
            Err(d) => {
                return Err(d);
            },
        };
        if self.at_kw(Keyword::Times) {
            proof {
                self.lemma_adv();
            }
            self.advance();
        }
        let body = match self.loop_body(g) {
            Ok(b) => b,
            Err(d) => {
                return Err(d);
            },
        };
        Ok(Stmt::Repeat { count, body, span })
    }
}

impl<'a> Parser<'a> {
    /// `for`, a name, then a range or a list, and a loop body.
    fn for_stmt(&mut self, Ghost(fuel): Ghost<nat>) -> (r: Result<Stmt, Diagnostic>)
        requires
            old(self).wf(),
            kind(old(self).input(), old(self).pos as int) == TokenKindOf::<Seq<char>>::Kw(
                Keyword::For,
            ),
            fuel >= budget(old(self).input(), old(self).pos as int, 12),
        ensures
            final(self).wf(),
            final(self).same(*old(self)),
            match r {
                Ok(st) => for_stmt(
                    old(self).input(),
                    old(self).pos as int,
                    old(self).in_function,
                    fuel,
                ) == Ok::<(SpecStmt, int), Fail>((st@, final(self).pos as int)) && old(self).pos
                    < final(self).pos,
                Err(d) => for_stmt(
                    old(self).input(),
                    old(self).pos as int,
                    old(self).in_function,
                    fuel,
                ) matches Err(f) && refuses(d, f),
            },
        decreases fuel, 0nat,
    {
        let g = Ghost((fuel - 1) as nat);
        proof {
            self.lemma_adv();
        }
        let span = self.advance();
        let var = match self.name() {
            Ok((v, _)) => v,
            Err(d) => {
                return Err(d);
            },
        };
        if self.at_kw(Keyword::From) {
            proof {
                self.lemma_adv();
            }
            self.advance();
            let from = match self.expression(g) {
                Ok(e) => e,
                Err(d) => {
                    return Err(d);
                },
            };
            if !self.at_kw(Keyword::To) {
                return Err(self.expected("«до» і де закінчити рахунок", "'to' and where to stop"));
            }
            proof {
                self.lemma_adv();
            }
            self.advance();
            let to = match self.expression(g) {
                Ok(e) => e,
                Err(d) => {
                    return Err(d);
                },
            };
            let step = if self.at_kw(Keyword::Step) {
                proof {
                    self.lemma_adv();
                }
                self.advance();
                match self.expression(g) {
                    Ok(e) => Some(e),
                    Err(d) => {
                        return Err(d);
                    },
                }
            } else {
                None
            };
            let body = match self.loop_body(g) {
                Ok(b) => b,
                Err(d) => {
                    return Err(d);
                },
            };
            Ok(Stmt::ForRange { var, from, to, step, body, span })
        } else if self.at_kw(Keyword::In) {
            proof {
                self.lemma_adv();
            }
            self.advance();
            let iter = match self.expression(g) {
                Ok(e) => e,
                Err(d) => {
                    return Err(d);
                },
            };
            let body = match self.loop_body(g) {
                Ok(b) => b,
                Err(d) => {
                    return Err(d);
                },
            };
            Ok(Stmt::ForEach { var, iter, body, span })
        } else {
            Err(self.expected("«від … до …» або «у список»", "'from … to …' or 'in list'"))
        }
    }

    /// Parameter names separated by commas.
    fn param_list(&mut self, Ghost(fuel): Ghost<nat>) -> (r: Result<Vec<String>, Diagnostic>)
        requires
            old(self).wf(),
            fuel >= budget(old(self).input(), old(self).pos as int, 5),
        ensures
            final(self).wf(),
            final(self).same(*old(self)),
            match r {
                Ok(ps) => param_list(old(self).input(), old(self).pos as int, seq![], fuel) == Ok::<
                    (Seq<Seq<char>>, int),
                    Fail,
                >((strings_view(ps@), final(self).pos as int)) && old(self).pos < final(self).pos,
                Err(d) => param_list(old(self).input(), old(self).pos as int, seq![], fuel) matches Err(
                    f,
                ) && refuses(d, f),
            },
    {
        let ghost i = self.input();
        let ghost p0 = self.pos as int;
        let mut ps: Vec<String> = Vec::new();
        let ghost mut lf: nat = fuel;
        proof {
            assert(strings_view(ps@) =~= Seq::<Seq<char>>::empty());
        }
        loop
            invariant
                self.wf(),
                self.same(*old(self)),
                i == self.input(),
                i == old(self).input(),
                p0 == old(self).pos,
                p0 <= self.pos,
                ps@.len() > 0 ==> p0 < self.pos,
                lf <= fuel,
                lf >= budget(i, self.pos as int, 5),
                param_list(i, p0, seq![], fuel) == param_list(
                    i,
                    self.pos as int,
                    strings_view(ps@),
                    lf,
                ),
            decreases lf,
        {
            let n = match self.name() {
                Ok((n, _)) => n,
                Err(d) => {
                    return Err(d);
                },
            };
            let ghost before = ps@;
            ps.push(n);
            proof {
                assert(strings_view(ps@) =~= strings_view(before).push(n@));
            }
            if !self.at(&TokenKindOf::Comma) {
                return Ok(ps);
            }
            proof {
                self.lemma_adv();
            }
            self.advance();
            proof {
                lf = (lf - 1) as nat;
            }
        }
    }

    /// `function`, a name, parameters and a body.
    fn function(&mut self, Ghost(fuel): Ghost<nat>) -> (r: Result<Stmt, Diagnostic>)
        requires
            old(self).wf(),
            kind(old(self).input(), old(self).pos as int) == TokenKindOf::<Seq<char>>::Kw(
                Keyword::Function,
            ),
            fuel >= budget(old(self).input(), old(self).pos as int, 12),
        ensures
            final(self).wf(),
            final(self).same(*old(self)),
            match r {
                Ok(st) => function(old(self).input(), old(self).pos as int, fuel) == Ok::<
                    (SpecStmt, int),
                    Fail,
                >((st@, final(self).pos as int)) && old(self).pos < final(self).pos,
                Err(d) => function(old(self).input(), old(self).pos as int, fuel) matches Err(f)
                    && refuses(d, f),
            },
        decreases fuel, 0nat,
    {
        let g = Ghost((fuel - 1) as nat);
        proof {
            self.lemma_adv();
        }
        let start = self.advance();
        let (name, name_span) = match self.name() {
            Ok(n) => n,
            Err(d) => {
                return Err(d);
            },
        };
        match self.expect(
            &TokenKindOf::LParen,
            "дужка «(» після назви функції",
            "'(' after the function name",
        ) {
            Ok(_) => {},
            Err(d) => {
                return Err(d);
            },
        }
        let params = if self.at(&TokenKindOf::RParen) {
            let ps: Vec<String> = Vec::new();
            proof {
                assert(strings_view(ps@) =~= Seq::<Seq<char>>::empty());
            }
            ps
        } else {
            match self.param_list(g) {
                Ok(ps) => ps,
                Err(d) => {
                    return Err(d);
                },
            }
        };
        match self.expect(&TokenKindOf::RParen, "дужка «)» або кома", "')' or a comma") {
            Ok(_) => {},
            Err(d) => {
                return Err(d);
            },
        }
        let saved_loop = self.in_loop;
        let saved_function = self.in_function;
        self.in_loop = false;
        self.in_function = true;
        let body = self.block(g);
        self.in_loop = saved_loop;
        self.in_function = saved_function;
        let body = match body {
            Ok(b) => b,
            Err(d) => {
                return Err(d);
            },
        };
        let span = start.to(name_span);
        Ok(Stmt::Function(Rc::new(FnDef { name, params, body, span })))
    }

    /// `return`, with a value unless the line or block ends.
    fn return_stmt(&mut self, Ghost(fuel): Ghost<nat>) -> (r: Result<Stmt, Diagnostic>)
        requires
            old(self).wf(),
            kind(old(self).input(), old(self).pos as int) == TokenKindOf::<Seq<char>>::Kw(
                Keyword::Return,
            ),
            fuel >= budget(old(self).input(), old(self).pos as int, 12),
        ensures
            final(self).wf(),
            final(self).same(*old(self)),
            match r {
                Ok(st) => return_stmt(
                    old(self).input(),
                    old(self).pos as int,
                    old(self).in_function,
                    fuel,
                ) == Ok::<(SpecStmt, int), Fail>((st@, final(self).pos as int)) && old(self).pos
                    < final(self).pos,
                Err(d) => return_stmt(
                    old(self).input(),
                    old(self).pos as int,
                    old(self).in_function,
                    fuel,
                ) matches Err(f) && refuses(d, f),
            },
        decreases fuel, 0nat,
    {
        let span = self.span();
        if !self.in_function {
            return Err(Diagnostic::new(ErrorKind::OutsideFunction(self.word()), span));
        }
        proof {
            self.lemma_adv();
        }
        self.advance();
        if self.at(&TokenKindOf::Newline) || self.at(&TokenKindOf::Eof) || self.at(
            &TokenKindOf::Dedent,
        ) {
            return Ok(Stmt::Return { value: None, span });
        }
        match self.expression(Ghost((fuel - 1) as nat)) {
            Ok(v) => Ok(Stmt::Return { value: Some(v), span }),
            Err(d) => Err(d),
        }
    }

    /// `break` or `continue`.
    fn jump(&mut self) -> (r: Result<Stmt, Diagnostic>)
        requires
            old(self).wf(),
            kind(old(self).input(), old(self).pos as int) == TokenKindOf::<Seq<char>>::Kw(
                Keyword::Break,
            ) || kind(old(self).input(), old(self).pos as int) == TokenKindOf::<Seq<char>>::Kw(
                Keyword::Continue,
            ),
        ensures
            final(self).wf(),
            final(self).same(*old(self)),
            match r {
                Ok(st) => jump(old(self).input(), old(self).pos as int, old(self).in_loop) == Ok::<
                    (SpecStmt, int),
                    Fail,
                >((st@, final(self).pos as int)) && old(self).pos < final(self).pos,
                Err(d) => jump(old(self).input(), old(self).pos as int, old(self).in_loop) matches Err(
                    f,
                ) && refuses(d, f),
            },
    {
        let span = self.span();
        if !self.in_loop {
            return Err(Diagnostic::new(ErrorKind::OutsideLoop(self.word()), span));
        }
        let is_break = self.at_kw(Keyword::Break);
        proof {
            self.lemma_adv();
        }
        self.advance();
        if is_break {
            Ok(Stmt::Break(span))
        } else {
            Ok(Stmt::Continue(span))
        }
    }

    /// An expression, or an assignment.
    fn expr_or_assign(&mut self, Ghost(fuel): Ghost<nat>) -> (r: Result<Stmt, Diagnostic>)
        requires
            old(self).wf(),
            fuel >= budget(old(self).input(), old(self).pos as int, 12),
        ensures
            final(self).wf(),
            final(self).same(*old(self)),
            match r {
                Ok(st) => expr_or_assign(old(self).input(), old(self).pos as int, fuel) == Ok::<
                    (SpecStmt, int),
                    Fail,
                >((st@, final(self).pos as int)) && old(self).pos < final(self).pos,
                Err(d) => expr_or_assign(old(self).input(), old(self).pos as int, fuel) matches Err(
                    f,
                ) && refuses(d, f),
            },
        decreases fuel, 0nat,
    {
        let ghost i = self.input();
        let g = Ghost((fuel - 1) as nat);
        let is_kw = kind_tag(self.peek()) == 3;
        if is_kw {
            let last = self.tokens.len() - 1;
            let next = if self.pos < last {
                self.pos + 1
            } else {
                last
            };
            if kind_tag(&self.tokens[next].kind) == 9 {
                return Err(Diagnostic::new(ErrorKind::KeywordAsName(self.word()), self.span()));
            }
        }
        let target = match self.expression(g) {
            Ok(e) => e,
            Err(d) => {
                return Err(d);
            },
        };
        if !self.at(&TokenKindOf::Assign) {
            return Ok(Stmt::Expr(target));
        }
        proof {
            self.lemma_adv();
        }
        let eq = self.advance();
        let value = match self.expression(g) {
            Ok(e) => e,
            Err(d) => {
                return Err(d);
            },
        };
        let span = target.span().to(value.span());
        match target {
            Expr::Name(name, _) => Ok(Stmt::Assign { name, value, span }),
            Expr::Index { target, index, .. } => Ok(
                Stmt::SetIndex { target: *target, index: *index, value, span },
            ),
            _ => Err(Diagnostic::new(ErrorKind::InvalidTarget, eq)),
        }
    }
}

/// The program's statements, built from the lexer's tokens of `src`.
pub fn parse(src: &str, tokens: &[Token]) -> (r: Result<Vec<Stmt>, Diagnostic>)
    requires
        byte_len(src@) <= usize::MAX,
        tokens@.len() >= 1,
        tokens@.last().kind@ is Eof,
    ensures
        match r {
            Ok(program) => spec_parse(src@, tokens@.map_values(|t: Token| t@)) == Ok::<
                Seq<SpecStmt>,
                Fail,
            >(stmts_view(program@)),
            Err(d) => spec_parse(src@, tokens@.map_values(|t: Token| t@)) matches Err(f) && refuses(
                d,
                f,
            ),
        },
{
    let mut p = Parser {
        src,
        idx: char_indices(src),
        tokens,
        pos: 0,
        in_loop: false,
        in_function: false,
    };
    let ghost i = p.input();
    let mut stmts: Vec<Stmt> = Vec::new();
    let ghost mut lf: nat = budget(i, 0, 15) as nat;
    proof {
        lemma_views_empty();
    }
    while !p.at(&TokenKindOf::Eof)
        invariant
            p.wf(),
            i == p.input(),
            !p.in_loop,
            !p.in_function,
            i.src == src@,
            i.toks == tokens@.map_values(|t: Token| t@),
            lf >= budget(i, p.pos as int, 15),
            spec_parse(src@, tokens@.map_values(|t: Token| t@)) == program(
                i,
                p.pos as int,
                stmts_view(stmts@),
                lf,
            ),
        decreases lf,
    {
        let st = match p.statement(Ghost((lf - 1) as nat)) {
            Ok(st) => st,
            Err(d) => {
                return Err(d);
            },
        };
        let ghost before = stmts@;
        stmts.push(st);
        proof {
            lemma_stmts_push(before, st);
            lf = (lf - 1) as nat;
        }
    }
    Ok(stmts)
}

} // verus!
