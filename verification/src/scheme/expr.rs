//! The syntax tree that the reader produces and the evaluator walks.
use vstd::prelude::*;

use super::position::SourcePos;
use super::text::str_chars;

verus! {

/// A Scheme expression as read from the source, with the position where it starts.
#[derive(Debug)]
pub enum Expr {
    Integer(i64, SourcePos),
    Boolean(bool, SourcePos),
    String(Vec<char>, SourcePos),
    Character(char, SourcePos),
    Symbol(Vec<char>, SourcePos),
    List(Vec<Expr>, SourcePos),
}

/// The mathematical form of an `Expr`.
pub enum SExpr {
    Integer(i64, SourcePos),
    Boolean(bool, SourcePos),
    String(Seq<char>, SourcePos),
    Character(char, SourcePos),
    Symbol(Seq<char>, SourcePos),
    List(Seq<SExpr>, SourcePos),
}

pub open spec fn expr_view(e: Expr) -> SExpr
    decreases e, 0nat,
{
    match e {
        Expr::Integer(v, p) => SExpr::Integer(v, p),
        Expr::Boolean(v, p) => SExpr::Boolean(v, p),
        Expr::String(s, p) => SExpr::String(s@, p),
        Expr::Character(c, p) => SExpr::Character(c, p),
        Expr::Symbol(s, p) => SExpr::Symbol(s@, p),
        Expr::List(items, p) => SExpr::List(exprs_view(items@), p),
    }
}

pub open spec fn exprs_view(items: Seq<Expr>) -> Seq<SExpr>
    decreases items, items.len(),
{
    if items.len() == 0 {
        Seq::empty()
    } else {
        exprs_view(items.drop_last()).push(expr_view(items.last()))
    }
}

impl View for Expr {
    type V = SExpr;

    open spec fn view(&self) -> SExpr {
        expr_view(*self)
    }
}

/// The view of a sequence of expressions is the sequence of their views.
pub proof fn lemma_exprs_view(s: Seq<Expr>)
    ensures
        exprs_view(s).len() == s.len(),
        forall|j: int| 0 <= j < s.len() ==> #[trigger] exprs_view(s)[j] == expr_view(s[j]),
    decreases s.len(),
{
    if s.len() > 0 {
        lemma_exprs_view(s.drop_last());
    }
}

pub proof fn lemma_exprs_view_push(s: Seq<Expr>, e: Expr)
    ensures
        exprs_view(s.push(e)) == exprs_view(s).push(expr_view(e)),
{
    assert(s.push(e).drop_last() =~= s);
}

pub proof fn lemma_exprs_view_skip(s: Seq<Expr>, k: int)
    requires
        0 <= k <= s.len(),
    ensures
        exprs_view(s.skip(k)) == exprs_view(s).skip(k),
{
    lemma_exprs_view(s);
    lemma_exprs_view(s.skip(k));
    assert(exprs_view(s.skip(k)) =~= exprs_view(s).skip(k));
}

/// The position where an expression starts.
pub open spec fn sexpr_pos(e: SExpr) -> SourcePos {
    match e {
        SExpr::Integer(_, p) => p,
        SExpr::Boolean(_, p) => p,
        SExpr::String(_, p) => p,
        SExpr::Character(_, p) => p,
        SExpr::Symbol(_, p) => p,
        SExpr::List(_, p) => p,
    }
}

impl Expr {
    pub fn character(c: char, pos: SourcePos) -> (r: Expr)
        ensures
            r@ == SExpr::Character(c, pos),
    {
        Expr::Character(c, pos)
    }

    /// A symbol named `name`.
    pub fn symbol(name: &str, pos: SourcePos) -> (r: Expr)
        ensures
            r@ == SExpr::Symbol(name@, pos),
    {
        Expr::Symbol(str_chars(name), pos)
    }

    /// The symbol `quote`, as the reader puts it in front of a quoted datum.
    pub fn quote_symbol(pos: SourcePos) -> (r: Expr)
        ensures
            r@ == SExpr::Symbol("quote"@, pos),
    {
        Expr::Symbol(str_chars("quote"), pos)
    }

    /// A list of `elements`.
    pub fn list(elements: Vec<Expr>, pos: SourcePos) -> (r: Expr)
        ensures
            r@ == SExpr::List(exprs_view(elements@), pos),
    {
        Expr::List(elements, pos)
    }

    /// The position where this expression starts.
    pub fn position(&self) -> (r: SourcePos)
        ensures
            r == sexpr_pos(self@),
    {
        match self {
            Expr::Integer(_, pos) => *pos,
            Expr::Boolean(_, pos) => *pos,
            Expr::String(_, pos) => *pos,
            Expr::Character(_, pos) => *pos,
            Expr::Symbol(_, pos) => *pos,
            Expr::List(_, pos) => *pos,
        }
    }

    /// A copy of this expression.
    pub fn copy(&self) -> (r: Expr)
        ensures
            r@ == self@,
        decreases self,
    {
        match self {
            Expr::Integer(v, p) => Expr::Integer(*v, *p),
            Expr::Boolean(v, p) => Expr::Boolean(*v, *p),
            Expr::String(s, p) => Expr::String(s.clone(), *p),
            Expr::Character(c, p) => Expr::Character(*c, *p),
            Expr::Symbol(s, p) => Expr::Symbol(s.clone(), *p),
            Expr::List(items, p) => {
                proof {
                    assert(decreases_to!(*self => (*self)->List_0));
                }
                let out = copy_exprs_from(items, 0);
                proof {
                    assert(items@.skip(0) =~= items@);
                    lemma_exprs_view_skip(items@, 0);
                }
                Expr::List(out, *p)
            },
        }
    }
}

/// Copies of the expressions of `items` from index `start` on.
pub fn copy_exprs_from(items: &Vec<Expr>, start: usize) -> (r: Vec<Expr>)
    requires
        start <= items@.len(),
    ensures
        exprs_view(r@) == exprs_view(items@.skip(start as int)),
    decreases items,
{
    let mut out: Vec<Expr> = Vec::new();
    let mut i: usize = start;
    while i < items.len()
        invariant
            start <= i <= items@.len(),
            exprs_view(out@) == exprs_view(items@.subrange(start as int, i as int)),
        decreases items@.len() - i,
    {
        proof {
            assert(decreases_to!(*items => items[i as int]));
        }
        let c = items[i].copy();
        proof {
            lemma_exprs_view_push(out@, c);
            assert(items@.subrange(start as int, i + 1) =~= items@.subrange(start as int, i as int).push(items@[i as int]));
            lemma_exprs_view_push(items@.subrange(start as int, i as int), items@[i as int]);
        }
        out.push(c);
        i = i + 1;
    }
    proof {
        assert(items@.subrange(start as int, i as int) =~= items@.skip(start as int));
    }
    out
}

} // verus!
