//! Facts about the views of the syntax trees' sequences: pushing an item
//! pushes its view, and a view has as many items as its sequence.
use vstd::prelude::*;
use crate::ast::{
    Expr, Stmt, boxed_exprs_view, exprs_view, boxed_stmts_view, branches_view, params_view,
    expr_view, stmt_view, stmts_view, opt_token_view,
};
use crate::token::Token;

verus! {

pub proof fn lemma_boxed_exprs_push(s: Seq<Box<Expr>>, e: Box<Expr>)
    ensures
        boxed_exprs_view(s.push(e)) == boxed_exprs_view(s).push(expr_view(*e)),
{
    assert(s.push(e).subrange(0, s.len() as int) =~= s);
}

pub proof fn lemma_exprs_push(s: Seq<Expr>, e: Expr)
    ensures
        exprs_view(s.push(e)) == exprs_view(s).push(expr_view(e)),
{
    assert(s.push(e).subrange(0, s.len() as int) =~= s);
}

pub proof fn lemma_boxed_stmts_push(s: Seq<Box<Stmt>>, b: Box<Stmt>)
    ensures
        boxed_stmts_view(s.push(b)) == boxed_stmts_view(s).push(stmt_view(*b)),
{
    assert(s.push(b).subrange(0, s.len() as int) =~= s);
}

pub proof fn lemma_branches_push(s: Seq<(Expr, Box<Stmt>)>, b: (Expr, Box<Stmt>))
    ensures
        branches_view(s.push(b)) == branches_view(s).push((b.0@, stmt_view(*b.1))),
{
    assert(s.push(b).subrange(0, s.len() as int) =~= s);
}

pub proof fn lemma_params_push(s: Seq<(Token, Option<Token>)>, p: (Token, Option<Token>))
    ensures
        params_view(s.push(p)) == params_view(s).push((p.0@, opt_token_view(p.1))),
{
    assert(params_view(s.push(p)) =~= params_view(s).push((p.0@, opt_token_view(p.1))));
}

pub proof fn lemma_exprs_len(s: Seq<Expr>)
    ensures
        exprs_view(s).len() == s.len(),
    decreases s.len(),
{
    if s.len() > 0 {
        lemma_exprs_len(s.subrange(0, s.len() - 1));
    }
}

pub proof fn lemma_stmts_push(s: Seq<Stmt>, b: Stmt)
    ensures
        stmts_view(s.push(b)) == stmts_view(s).push(stmt_view(b)),
{
    assert(s.push(b).subrange(0, s.len() as int) =~= s);
}

} // verus!
