//! The node ids of syntax trees, and what it takes for them to be fresh.
use vstd::prelude::*;
use crate::ast::{SpecExpr, SpecStmt, SpecLiteral};
use crate::grammar::{for_desugar, St};

verus! {

/// The ids of the nodes of an expression.
pub open spec fn expr_ids(e: SpecExpr) -> Seq<nat>
    decreases e,
{
    match e {
        SpecExpr::Array { id, elements } => seq![id] + exprs_ids(elements),
        SpecExpr::Assign { id, name: _, value } => expr_ids(*value) + seq![id],
        SpecExpr::Binary { id, left, operator: _, right } => expr_ids(*left) + expr_ids(*right) + seq![id],
        SpecExpr::Call { id, callee, paren: _, arguments } => expr_ids(*callee) + exprs_ids(arguments)
            + seq![id],
        SpecExpr::Get { id, object, name: _ } => expr_ids(*object) + seq![id],
        SpecExpr::Grouping { id, expression } => expr_ids(*expression) + seq![id],
        SpecExpr::Literal { id, value: _ } => seq![id],
        SpecExpr::Logical { id, left, operator: _, right } => expr_ids(*left) + expr_ids(*right)
            + seq![id],
        SpecExpr::SetProperty { id, object, name: _, value } => expr_ids(*object) + expr_ids(*value)
            + seq![id],
        SpecExpr::Unary { id, operator: _, right } => expr_ids(*right) + seq![id],
        SpecExpr::Variable { id, name: _ } => seq![id],
    }
}

/// The ids of the nodes of a sequence of expressions.
pub open spec fn exprs_ids(s: Seq<SpecExpr>) -> Seq<nat>
    decreases s,
{
    if s.len() == 0 {
        Seq::empty()
    } else {
        exprs_ids(s.subrange(0, s.len() - 1)) + expr_ids(s[s.len() - 1])
    }
}

pub open spec fn opt_expr_ids(e: Option<SpecExpr>) -> Seq<nat> {
    match e {
        Some(e) => expr_ids(e),
        None => Seq::empty(),
    }
}

/// The ids of the expression nodes of a statement.
pub open spec fn stmt_ids(s: SpecStmt) -> Seq<nat>
    decreases s,
{
    match s {
        SpecStmt::BenchStmt { body } => stmt_ids(*body),
        SpecStmt::Block { statements } => stmts_ids(statements),
        SpecStmt::BreakStmt { keyword: _ } => Seq::empty(),
        SpecStmt::Errors { expression } => expr_ids(expression),
        SpecStmt::Exits => Seq::empty(),
        SpecStmt::Expression { expression } => expr_ids(expression),
        SpecStmt::Function { name: _, params: _, body } => stmts_ids(body),
        SpecStmt::IfStmt { predicate, then, elif_branches, els } => expr_ids(predicate) + stmt_ids(
            *then,
        ) + branches_ids(elif_branches) + match els {
            Some(b) => stmt_ids(*b),
            None => Seq::empty(),
        },
        SpecStmt::Import { expression } => expr_ids(expression),
        SpecStmt::Print { expression } => expr_ids(expression),
        SpecStmt::ReturnStmt { keyword: _, value } => match value {
            Some(e) => expr_ids(e),
            None => Seq::empty(),
        },
        SpecStmt::Var { name: _, type_annotation: _, initializer } => expr_ids(initializer),
        SpecStmt::WaitStmt { time, body, before } => expr_ids(time) + stmt_ids(*body) + match before {
            Some(b) => expr_ids(b.0) + stmt_ids(*b.1),
            None => Seq::empty(),
        },
        SpecStmt::WhileStmt { condition, body } => expr_ids(condition) + stmt_ids(*body),
    }
}

/// The ids of the expression nodes of a sequence of statements.
pub open spec fn stmts_ids(s: Seq<SpecStmt>) -> Seq<nat>
    decreases s,
{
    if s.len() == 0 {
        Seq::empty()
    } else {
        stmts_ids(s.subrange(0, s.len() - 1)) + stmt_ids(s[s.len() - 1])
    }
}

/// The ids of the expression nodes of the "elif" branches of an if statement.
pub open spec fn branches_ids(s: Seq<(SpecExpr, SpecStmt)>) -> Seq<nat>
    decreases s,
{
    if s.len() == 0 {
        Seq::empty()
    } else {
        branches_ids(s.subrange(0, s.len() - 1)) + expr_ids(s[s.len() - 1].0) + stmt_ids(
            s[s.len() - 1].1,
        )
    }
}

/// No id occurs twice in `ids`, and each lies in `lo..hi`.
pub open spec fn fresh_ids(ids: Seq<nat>, lo: nat, hi: nat) -> bool {
    &&& ids.no_duplicates()
    &&& forall|k: int| 0 <= k < ids.len() ==> lo <= #[trigger] ids[k] < hi
}

pub proof fn lemma_fresh_join(a: Seq<nat>, b: Seq<nat>, lo: nat, mid: nat, hi: nat)
    requires
        fresh_ids(a, lo, mid),
        fresh_ids(b, mid, hi),
        lo <= mid <= hi,
    ensures
        fresh_ids(a + b, lo, hi),
        fresh_ids(b + a, lo, hi),
{
    let ab = a + b;
    let ba = b + a;
    assert forall|k: int| 0 <= k < ab.len() implies lo <= #[trigger] ab[k] < hi by {
        if k < a.len() {
            assert(ab[k] == a[k]);
        } else {
            assert(ab[k] == b[k - a.len()]);
        }
    }
    assert forall|k: int| 0 <= k < ba.len() implies lo <= #[trigger] ba[k] < hi by {
        if k < b.len() {
            assert(ba[k] == b[k]);
        } else {
            assert(ba[k] == a[k - b.len()]);
        }
    }
    assert forall|i: int, j: int| 0 <= i < ab.len() && 0 <= j < ab.len() && i != j implies ab[i]
        != ab[j] by {
        if i < a.len() && j < a.len() {
            assert(ab[i] == a[i] && ab[j] == a[j]);
        } else if i >= a.len() && j >= a.len() {
            assert(ab[i] == b[i - a.len()] && ab[j] == b[j - a.len()]);
        } else if i < a.len() {
            assert(ab[i] == a[i] && ab[j] == b[j - a.len()]);
        } else {
            assert(ab[j] == a[j] && ab[i] == b[i - a.len()]);
        }
    }
    assert forall|i: int, j: int| 0 <= i < ba.len() && 0 <= j < ba.len() && i != j implies ba[i]
        != ba[j] by {
        if i < b.len() && j < b.len() {
            assert(ba[i] == b[i] && ba[j] == b[j]);
        } else if i >= b.len() && j >= b.len() {
            assert(ba[i] == a[i - b.len()] && ba[j] == a[j - b.len()]);
        } else if i < b.len() {
            assert(ba[i] == b[i] && ba[j] == a[j - b.len()]);
        } else {
            assert(ba[j] == b[j] && ba[i] == a[i - b.len()]);
        }
    }
}

pub proof fn lemma_fresh_widen(a: Seq<nat>, lo: nat, hi: nat, lo2: nat, hi2: nat)
    requires
        fresh_ids(a, lo, hi),
        lo2 <= lo,
        hi <= hi2,
    ensures
        fresh_ids(a, lo2, hi2),
{
}

pub proof fn lemma_fresh_parts(a: Seq<nat>, b: Seq<nat>, lo: nat, hi: nat)
    requires
        fresh_ids(a + b, lo, hi),
    ensures
        fresh_ids(a, lo, hi),
        fresh_ids(b, lo, hi),
{
    let ab = a + b;
    assert forall|k: int| 0 <= k < a.len() implies lo <= #[trigger] a[k] < hi by {
        assert(ab[k] == a[k]);
    }
    assert forall|k: int| 0 <= k < b.len() implies lo <= #[trigger] b[k] < hi by {
        assert(ab[k + a.len()] == b[k]);
    }
    assert forall|i: int, j: int| 0 <= i < a.len() && 0 <= j < a.len() && i != j implies a[i]
        != a[j] by {
        assert(ab[i] == a[i] && ab[j] == a[j]);
    }
    assert forall|i: int, j: int| 0 <= i < b.len() && 0 <= j < b.len() && i != j implies b[i]
        != b[j] by {
        assert(ab[i + a.len()] == b[i] && ab[j + a.len()] == b[j]);
    }
}

pub proof fn lemma_fresh_empty(lo: nat, hi: nat)
    ensures
        fresh_ids(Seq::empty(), lo, hi),
{
}

pub proof fn lemma_exprs_ids_push(s: Seq<SpecExpr>, e: SpecExpr)
    ensures
        exprs_ids(s.push(e)) == exprs_ids(s) + expr_ids(e),
{
    assert(s.push(e).subrange(0, s.len() as int) =~= s);
}

pub proof fn lemma_stmts_ids_push(s: Seq<SpecStmt>, t: SpecStmt)
    ensures
        stmts_ids(s.push(t)) == stmts_ids(s) + stmt_ids(t),
{
    assert(s.push(t).subrange(0, s.len() as int) =~= s);
}

pub proof fn lemma_branches_ids_push(s: Seq<(SpecExpr, SpecStmt)>, b: (SpecExpr, SpecStmt))
    ensures
        branches_ids(s.push(b)) == branches_ids(s) + expr_ids(b.0) + stmt_ids(b.1),
{
    assert(s.push(b).subrange(0, s.len() as int) =~= s);
}

pub proof fn lemma_call_ids(callee: SpecExpr, e: SpecExpr, lo: nat, mid: nat, hi: nat)
    requires
        fresh_ids(expr_ids(callee), lo, mid),
        lo <= mid,
        e matches SpecExpr::Call { id, callee: c, paren: _, arguments } && *c == callee
            && fresh_ids(exprs_ids(arguments), mid, id) && hi == id + 1 && mid <= id,
    ensures
        fresh_ids(expr_ids(e), lo, hi),
{
    if let SpecExpr::Call { id, callee: c, paren: _, arguments } = e {
        lemma_fresh_join(expr_ids(callee), exprs_ids(arguments), lo, mid, id);
        lemma_fresh_join(expr_ids(callee) + exprs_ids(arguments), seq![id], lo, id, hi);
    }
}

pub open spec fn opt_stmt_ids(s: Option<SpecStmt>) -> Seq<nat> {
    match s {
        Some(s) => stmt_ids(s),
        None => Seq::empty(),
    }
}

proof fn lemma_stmts_ids_two(a: SpecStmt, b: SpecStmt)
    ensures
        stmts_ids(seq![a, b]) == stmt_ids(a) + stmt_ids(b),
{
    assert(seq![a, b] =~= Seq::empty().push(a).push(b));
    lemma_stmts_ids_push(Seq::empty(), a);
    lemma_stmts_ids_push(Seq::empty().push(a), b);
    assert(Seq::<nat>::empty() + stmt_ids(a) =~= stmt_ids(a));
}

/// The ids of the loop a "for" statement stands for are those of its parts.
pub proof fn lemma_for_ids(
    init: Option<SpecStmt>,
    cond: Option<SpecExpr>,
    incr: Option<SpecExpr>,
    body: SpecStmt,
    p: nat,
    st: St,
    s0: nat,
    s1: nat,
    s2: nat,
    s3: nat,
)
    requires
        fresh_ids(opt_stmt_ids(init), s0, s1),
        fresh_ids(opt_expr_ids(cond), s1, s2),
        fresh_ids(opt_expr_ids(incr), s2, s3),
        fresh_ids(stmt_ids(body), s3, st.id),
        s0 <= s1 <= s2 <= s3 <= st.id,
    ensures
        fresh_ids(
            stmt_ids(for_desugar(init, cond, incr, body, p, st).0),
            s0,
            for_desugar(init, cond, incr, body, p, st).2.id,
        ),
        for_desugar(init, cond, incr, body, p, st).2.id >= st.id,
{
    let i = st.id;
    let body1 = match incr {
        Some(x) => SpecStmt::Block { statements: seq![body, SpecStmt::Expression { expression: x }] },
        None => body,
    };
    // the body and the increment
    if let Some(x) = incr {
        lemma_stmts_ids_two(body, SpecStmt::Expression { expression: x });
        lemma_fresh_join(expr_ids(x), stmt_ids(body), s2, s3, i);
    } else {
        lemma_fresh_widen(stmt_ids(body), s3, i, s2, i);
    }
    assert(fresh_ids(stmt_ids(body1), s2, i));
    let (c, i2) = match cond {
        Some(c) => (c, i),
        None => (SpecExpr::Literal { id: i, value: SpecLiteral::True }, i + 1),
    };
    // the condition
    if let Some(c) = cond {
        lemma_fresh_join(expr_ids(c), stmt_ids(body1), s1, s2, i);
    } else {
        lemma_fresh_widen(stmt_ids(body1), s2, i, s1, i);
        lemma_fresh_join(stmt_ids(body1), seq![i], s1, i, i + 1);
    }
    let w = SpecStmt::WhileStmt { condition: c, body: Box::new(body1) };
    assert(fresh_ids(stmt_ids(w), s1, i2));
    // the initializer
    if let Some(st) = init {
        lemma_stmts_ids_two(st, w);
        lemma_fresh_join(stmt_ids(st), stmt_ids(w), s0, s1, i2);
    } else {
        lemma_fresh_widen(stmt_ids(w), s1, i2, s0, i2);
    }
}

} // verus!
