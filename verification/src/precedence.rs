//! Precedence and associativity of the expression operators.
//!
//! The table below gives each binary operator the strength with which it
//! binds, loosest first: the pipe, `or`, `nor`, `xor`, `and`, equality,
//! comparison, the additive (term) operators and the multiplicative (factor)
//! operators. A parsed expression respects the table: an operand of an
//! operator binds at least as tightly as the operator on the left side and
//! strictly more tightly on the right side (operators associate to the
//! left), and the operand of a prefix operator is itself a prefix or
//! primary expression.
use vstd::prelude::*;
use crate::token::{Token, TokenType};
use crate::ast::SpecExpr;
use crate::grammar::{
    St, level, level_rest, unary, call, call_rest, primary, finish_call, level_ops, unary_ops,
    right_level, combine, takes, takes_any, within, kind, tok,
};

verus! {

/// How tightly a binary operator binds; -1 for a token that is no binary
/// operator.
pub open spec fn binding(t: TokenType) -> int {
    match t {
        TokenType::Pipe => 0,
        TokenType::Or => 1,
        TokenType::Nor => 2,
        TokenType::Xor => 3,
        TokenType::And => 4,
        TokenType::BangEqual | TokenType::EqualEqual => 5,
        TokenType::Greater | TokenType::GreaterEqual | TokenType::Less | TokenType::LessEqual => 6,
        TokenType::Minus | TokenType::Plus | TokenType::PlusEqual | TokenType::MinusEqual
        | TokenType::Random => 7,
        TokenType::Slash | TokenType::Star | TokenType::Power | TokenType::Cube | TokenType::Root
        | TokenType::CubicRoot => 8,
        _ => -1,
    }
}

/// The prefix operators.
pub open spec fn is_prefix(t: TokenType) -> bool {
    match t {
        TokenType::Bang | TokenType::Minus | TokenType::Increment | TokenType::Decrement
        | TokenType::Percent | TokenType::Power2 | TokenType::Root2 => true,
        _ => false,
    }
}

/// A pipe `x |> f` stands as the call `f(x)` whose parenthesis is the `|>`.
pub open spec fn is_pipe(e: SpecExpr) -> bool {
    e matches SpecExpr::Call { paren, .. } && paren.token_type == TokenType::Pipe
}

/// How tightly the top of an expression binds: the binding of its operator
/// for an operator node, 9 (tighter than any binary operator) otherwise.
pub open spec fn strength(e: SpecExpr) -> int {
    match e {
        SpecExpr::Binary { operator, .. } => binding(operator.token_type),
        SpecExpr::Logical { operator, .. } => binding(operator.token_type),
        SpecExpr::Call { paren, .. } => if paren.token_type == TokenType::Pipe {
            0
        } else {
            9
        },
        _ => 9,
    }
}

/// The operator nodes of `e`, from its top down through their operands,
/// respect the table: logical nodes hold the operators of strength 1 to 4
/// and binary nodes those of strength 5 to 8; the left operand binds at
/// least as tightly as the operator and the right operand more tightly; a
/// prefix operator applies to a prefix or primary expression.
pub open spec fn ordered(e: SpecExpr) -> bool
    decreases e,
{
    match e {
        SpecExpr::Binary { left, operator, right, .. } => {
            &&& 5 <= binding(operator.token_type) <= 8
            &&& strength(*left) >= binding(operator.token_type)
            &&& strength(*right) > binding(operator.token_type)
            &&& ordered(*left)
            &&& ordered(*right)
        },
        SpecExpr::Logical { left, operator, right, .. } => {
            &&& 1 <= binding(operator.token_type) <= 4
            &&& strength(*left) >= binding(operator.token_type)
            &&& strength(*right) > binding(operator.token_type)
            &&& ordered(*left)
            &&& ordered(*right)
        },
        SpecExpr::Call { callee, paren, arguments, .. } => paren.token_type == TokenType::Pipe
            ==> {
            &&& arguments.len() == 1
            &&& strength(*callee) > 0
            &&& ordered(*callee)
            &&& ordered(arguments[0])
        },
        SpecExpr::Unary { operator, right, .. } => {
            &&& is_prefix(operator.token_type)
            &&& strength(*right) == 9
            &&& ordered(*right)
        },
        _ => true,
    }
}

/// An expression with no operator at its top: neither a binary, logical or
/// prefix node nor a pipe.
pub open spec fn plain(e: SpecExpr) -> bool {
    &&& !(e is Binary)
    &&& !(e is Logical)
    &&& !(e is Unary)
    &&& !is_pipe(e)
}

/// Each operator of a level has the binding of that level.
proof fn lemma_level_ops_binding(lvl: nat, t: TokenType)
    requires
        lvl <= 8,
        level_ops(lvl).contains(t),
    ensures
        binding(t) == lvl,
{
    let ops = level_ops(lvl);
    let k = choose|k: int| 0 <= k < ops.len() && ops[k] == t;
    if lvl == 5 || lvl == 6 || lvl == 7 || lvl == 8 {
        assert(0 <= k < ops.len());
    }
}

/// Each prefix operator of the grammar is a prefix operator of the table.
proof fn lemma_unary_ops_prefix(t: TokenType)
    requires
        unary_ops().contains(t),
    ensures
        is_prefix(t),
{
    let ops = unary_ops();
    let k = choose|k: int| 0 <= k < ops.len() && ops[k] == t;
    assert(0 <= k < ops.len());
}

/// A primary expression has no operator at its top.
proof fn lemma_primary_plain(toks: Seq<Token>, pos: nat, id: St)
    ensures
        primary(toks, pos, id) matches Ok((e, _, _)) ==> plain(e),
{
}

/// Calls and property accesses after a plain expression leave it plain: the
/// parenthesis of a call is a ")".
proof fn lemma_call_rest_plain(toks: Seq<Token>, pos: nat, id: St, e: SpecExpr)
    requires
        plain(e),
    ensures
        call_rest(toks, pos, id, e) matches Ok((r, _, _)) ==> plain(r),
    decreases toks.len() - pos,
{
    if pos < toks.len() {
        if takes(toks, pos, TokenType::LeftParen) {
            match finish_call(toks, pos + 1, id, e) {
                Ok((c, p, i)) => {
                    if within(toks, pos + 1, p) {
                        lemma_call_rest_plain(toks, p, i, c);
                    }
                },
                Err(_) => {},
            }
        } else if takes(toks, pos, TokenType::Dot) {
            match crate::grammar::expect(
                toks,
                pos + 1,
                TokenType::Identifier,
                "Expected token after dot-accessor"@,
                id,
            ) {
                Ok((name, p)) => {
                    if p < toks.len() {
                        lemma_call_rest_plain(
                            toks,
                            p,
                            id.bump(),
                            SpecExpr::Get { id: id.id, object: Box::new(e), name },
                        );
                    }
                },
                Err(_) => {},
            }
        }
    }
}

/// A call expression has no operator at its top.
proof fn lemma_call_plain(toks: Seq<Token>, pos: nat, id: St)
    ensures
        call(toks, pos, id) matches Ok((e, _, _)) ==> plain(e),
{
    lemma_primary_plain(toks, pos, id);
    if pos < toks.len() {
        match primary(toks, pos, id) {
            Ok((e, p, i)) => {
                if within(toks, pos, p) {
                    if takes(toks, p, TokenType::Dot) {
                        match crate::grammar::expect(
                            toks,
                            p + 1,
                            TokenType::Identifier,
                            "Expected token after dot-accessor"@,
                            i,
                        ) {
                            Ok((name, p2)) => {
                                lemma_call_rest_plain(
                                    toks,
                                    p2,
                                    i.bump(),
                                    SpecExpr::Get { id: i.id, object: Box::new(e), name },
                                );
                            },
                            Err(_) => {},
                        }
                    } else {
                        lemma_call_rest_plain(toks, p, i, e);
                    }
                }
            },
            Err(_) => {},
        }
    }
}

/// A prefix expression respects the table, and binds tighter than any
/// binary operator.
pub proof fn law_prefix_operand_is_a_prefix_expression(toks: Seq<Token>, pos: nat, id: St)
    ensures
        unary(toks, pos, id) matches Ok((e, _, _)) ==> ordered(e) && strength(e) == 9,
    decreases toks.len() - pos,
{
    if pos < toks.len() {
        if takes_any(toks, pos, unary_ops()) {
            lemma_unary_ops_prefix(kind(toks, pos));
            law_prefix_operand_is_a_prefix_expression(toks, pos + 1, id);
        } else {
            lemma_call_plain(toks, pos, id);
        }
    }
}

/// An expression read at binary level `lvl` respects the table and binds at
/// least as tightly as that level: operators of a looser level (such as a
/// "+" under a "/") never stand below a tighter one unless grouped, and a
/// chain of operators of one level leans to the left (`a - b - c` is
/// `(a - b) - c`, `x |> f |> g` is `g(f(x))`).
pub proof fn law_binary_levels_respect_precedence(toks: Seq<Token>, pos: nat, id: St, lvl: nat)
    requires
        lvl <= 8,
    ensures
        level(toks, pos, id, lvl) matches Ok((e, _, _)) ==> ordered(e) && strength(e) >= lvl,
    decreases toks.len() - pos, 13 - lvl, 1nat,
{
    if pos < toks.len() {
        if lvl == 8 {
            law_prefix_operand_is_a_prefix_expression(toks, pos, id);
            match unary(toks, pos, id) {
                Ok((e, p, i)) => {
                    if within(toks, pos, p) {
                        lemma_level_rest_ordered(toks, p, i, lvl, e);
                    }
                },
                Err(_) => {},
            }
        } else {
            law_binary_levels_respect_precedence(toks, pos, id, lvl + 1);
            match level(toks, pos, id, lvl + 1) {
                Ok((e, p, i)) => {
                    if within(toks, pos, p) {
                        lemma_level_rest_ordered(toks, p, i, lvl, e);
                    }
                },
                Err(_) => {},
            }
        }
    }
}

proof fn lemma_level_rest_ordered(toks: Seq<Token>, pos: nat, id: St, lvl: nat, left: SpecExpr)
    requires
        lvl <= 8,
        ordered(left),
        strength(left) >= lvl,
    ensures
        level_rest(toks, pos, id, lvl, left) matches Ok((e, _, _)) ==> ordered(e) && strength(e) >= lvl,
    decreases toks.len() - pos, 0nat, 0nat,
{
    if pos < toks.len() && takes_any(toks, pos, level_ops(lvl)) {
        lemma_level_ops_binding(lvl, kind(toks, pos));
        let right = if right_level(lvl) == 9 {
            unary(toks, pos + 1, id)
        } else {
            level(toks, pos + 1, id, right_level(lvl))
        };
        if right_level(lvl) == 9 {
            law_prefix_operand_is_a_prefix_expression(toks, pos + 1, id);
        } else {
            law_binary_levels_respect_precedence(toks, pos + 1, id, right_level(lvl));
        }
        match right {
            Ok((r, p, i)) => {
                if within(toks, pos + 1, p) {
                    let c = combine(lvl, i.id, left, tok(toks, pos), r);
                    assert(ordered(c) && strength(c) == lvl);
                    lemma_level_rest_ordered(toks, p, i.bump(), lvl, c);
                }
            },
            Err(_) => {},
        }
    }
}

/// The left operand of an operator node (the argument of a pipe).
pub open spec fn left_part(e: SpecExpr) -> SpecExpr {
    match e {
        SpecExpr::Binary { left, .. } => *left,
        SpecExpr::Logical { left, .. } => *left,
        SpecExpr::Call { arguments, .. } => arguments[0],
        _ => e,
    }
}

/// An operator node of strength `lvl`: a binary or logical node, or a pipe
/// with its one argument.
pub open spec fn chain_link(e: SpecExpr, lvl: nat) -> bool {
    &&& strength(e) == lvl
    &&& (e is Binary || e is Logical || (is_pipe(e) && e->arguments.len() == 1))
}

/// The first operand of a chain of operators of strength `lvl`: going down
/// left operands for as long as they are operators of that strength.
pub open spec fn first_operand(e: SpecExpr, lvl: nat) -> SpecExpr
    decreases e,
{
    if chain_link(e, lvl) {
        match e {
            SpecExpr::Binary { left, .. } => first_operand(*left, lvl),
            SpecExpr::Logical { left, .. } => first_operand(*left, lvl),
            SpecExpr::Call { arguments, .. } => first_operand(arguments[0], lvl),
            _ => e,
        }
    } else {
        e
    }
}

/// Operators of one level lean to the left: the first operand of a chain
/// read at level `lvl` is the expression read at the next tighter level
/// from the same place. So `a - b` has `a` on its left, and `x |> f |> g`
/// passes `x` into the innermost call.
pub proof fn law_chains_start_with_their_first_operand(toks: Seq<Token>, pos: nat, id: St, lvl: nat)
    requires
        lvl <= 8,
    ensures
        level(toks, pos, id, lvl) matches Ok((e, _, _)) ==> {
            &&& lvl == 8 ==> (unary(toks, pos, id) matches Ok((a, _, _)) && first_operand(e, lvl) == a)
            &&& lvl < 8 ==> (level(toks, pos, id, lvl + 1) matches Ok((a, _, _)) && first_operand(e, lvl)
                == a)
        },
{
    if pos < toks.len() {
        let left = if lvl == 8 {
            unary(toks, pos, id)
        } else {
            level(toks, pos, id, lvl + 1)
        };
        if lvl == 8 {
            law_prefix_operand_is_a_prefix_expression(toks, pos, id);
        } else {
            law_binary_levels_respect_precedence(toks, pos, id, lvl + 1);
        }
        match left {
            Ok((a, p, i)) => {
                if within(toks, pos, p) {
                    assert(!chain_link(a, lvl));
                    assert(first_operand(a, lvl) == a);
                    lemma_level_rest_first(toks, p, i, lvl, a, a);
                }
            },
            Err(_) => {},
        }
    }
}

proof fn lemma_level_rest_first(
    toks: Seq<Token>,
    pos: nat,
    id: St,
    lvl: nat,
    left: SpecExpr,
    a: SpecExpr,
)
    requires
        lvl <= 8,
        first_operand(left, lvl) == a,
    ensures
        level_rest(toks, pos, id, lvl, left) matches Ok((e, _, _)) ==> first_operand(e, lvl) == a,
    decreases toks.len() - pos,
{
    if pos < toks.len() && takes_any(toks, pos, level_ops(lvl)) {
        lemma_level_ops_binding(lvl, kind(toks, pos));
        let right = if right_level(lvl) == 9 {
            unary(toks, pos + 1, id)
        } else {
            level(toks, pos + 1, id, right_level(lvl))
        };
        match right {
            Ok((r, p, i)) => {
                if within(toks, pos + 1, p) {
                    let c = combine(lvl, i.id, left, tok(toks, pos), r);
                    assert(chain_link(c, lvl));
                    assert(first_operand(c, lvl) == first_operand(left, lvl));
                    lemma_level_rest_first(toks, p, i.bump(), lvl, c, a);
                }
            },
            Err(_) => {},
        }
    }
}

/// The binary levels of the grammar are exactly the rows of the table: an
/// operator is read at level `lvl` if and only if it binds with strength
/// `lvl` (so "/" is read with "*" at the factor level, not with "+").
pub proof fn law_operator_levels_are_the_table(lvl: nat, t: TokenType)
    requires
        lvl <= 8,
    ensures
        level_ops(lvl).contains(t) <==> binding(t) == lvl,
{
    if level_ops(lvl).contains(t) {
        lemma_level_ops_binding(lvl, t);
    }
    if binding(t) == lvl {
        match t {
            TokenType::Pipe => assert(level_ops(0)[0] == t),
            TokenType::Or => assert(level_ops(1)[0] == t),
            TokenType::Nor => assert(level_ops(2)[0] == t),
            TokenType::Xor => assert(level_ops(3)[0] == t),
            TokenType::And => assert(level_ops(4)[0] == t),
            TokenType::BangEqual => assert(level_ops(5)[0] == t),
            TokenType::EqualEqual => assert(level_ops(5)[1] == t),
            TokenType::Greater => assert(level_ops(6)[0] == t),
            TokenType::GreaterEqual => assert(level_ops(6)[1] == t),
            TokenType::Less => assert(level_ops(6)[2] == t),
            TokenType::LessEqual => assert(level_ops(6)[3] == t),
            TokenType::Minus => assert(level_ops(7)[0] == t),
            TokenType::Plus => assert(level_ops(7)[1] == t),
            TokenType::PlusEqual => assert(level_ops(7)[2] == t),
            TokenType::MinusEqual => assert(level_ops(7)[3] == t),
            TokenType::Random => assert(level_ops(7)[4] == t),
            TokenType::Slash => assert(level_ops(8)[0] == t),
            TokenType::Star => assert(level_ops(8)[1] == t),
            TokenType::Power => assert(level_ops(8)[2] == t),
            TokenType::Cube => assert(level_ops(8)[3] == t),
            TokenType::Root => assert(level_ops(8)[4] == t),
            TokenType::CubicRoot => assert(level_ops(8)[5] == t),
            _ => {},
        }
    }
}

/// The prefix operators of the grammar are exactly those of the table.
pub proof fn law_prefix_operators_are_the_table(t: TokenType)
    ensures
        unary_ops().contains(t) <==> is_prefix(t),
{
    if unary_ops().contains(t) {
        lemma_unary_ops_prefix(t);
    }
    if is_prefix(t) {
        match t {
            TokenType::Bang => assert(unary_ops()[0] == t),
            TokenType::Minus => assert(unary_ops()[1] == t),
            TokenType::Increment => assert(unary_ops()[2] == t),
            TokenType::Decrement => assert(unary_ops()[3] == t),
            TokenType::Percent => assert(unary_ops()[4] == t),
            TokenType::Power2 => assert(unary_ops()[5] == t),
            TokenType::Root2 => assert(unary_ops()[6] == t),
            _ => {},
        }
    }
}

} // verus!
