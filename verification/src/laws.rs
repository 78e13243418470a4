//! Laws of the grammar.
use vstd::prelude::*;
use crate::token::{Token, TokenType};
use crate::ast::SpecStmt;
use crate::grammar::{
    program, for_statement, at_end, declaration, statement, var_declaration, function, takes,
    kind, St, no_end_between, eof_at, elif_branches, declarations, block, expression, within, if_statement,
};
use crate::ast::SpecExpr;

verus! {

/// At the end of input there is nothing more to read: a parse from there
/// gives no statement and leaves position and ids as they were.
pub proof fn law_end_of_input_gives_nothing(toks: Seq<Token>, pos: nat, id: St)
    requires
        pos < toks.len(),
        at_end(toks, pos),
    ensures
        program(toks, pos, id, Seq::empty()) == Ok::<(Seq<SpecStmt>, nat, St), (Seq<char>, St)>(
            (Seq::empty(), pos, id),
        ),
{
}

/// A program is the sequence of its declarations: the statements read
/// before `pos` are kept in front of those read from `pos` on, and an error
/// from `pos` on is the error of the whole.
pub proof fn law_program_is_its_declarations(toks: Seq<Token>, pos: nat, id: St, acc: Seq<SpecStmt>)
    ensures
        match program(toks, pos, id, Seq::empty()) {
            Ok((s, p, i)) => program(toks, pos, id, acc) == Ok::<(Seq<SpecStmt>, nat, St), (Seq<char>, St)>(
                (acc + s, p, i),
            ),
            Err(m) => program(toks, pos, id, acc) == Err::<(Seq<SpecStmt>, nat, St), (Seq<char>, St)>(m),
        },
    decreases toks.len() - pos,
{
    if pos < toks.len() && !at_end(toks, pos) {
        match declaration(toks, pos, id) {
            Ok((d, p, i)) => {
                if pos < p < toks.len() {
                    law_program_is_its_declarations(toks, p, i, acc.push(d));
                    law_program_is_its_declarations(toks, p, i, Seq::empty().push(d));
                    match program(toks, p, i, Seq::empty()) {
                        Ok((s, q, j)) => {
                            assert(acc.push(d) + s =~= acc + (Seq::empty().push(d) + s));
                        },
                        Err(_) => {},
                    }
                }
            },
            Err(_) => {},
        }
    } else {
        assert(acc + Seq::<SpecStmt>::empty() =~= acc);
    }
}

/// A "for" statement always stands for a while loop: with no initializer
/// (a ";" right after "for") the loop itself, else a block of the
/// initializer and then the loop, so that the initializer runs once before it.
pub proof fn law_for_stands_for_while(toks: Seq<Token>, pos: nat, id: St)
    requires
        pos < toks.len(),
    ensures
        for_statement(toks, pos, id) matches Ok((s, _, _)) ==> {
            &&& takes(toks, pos, TokenType::Semicolon) ==> s is WhileStmt
            &&& !takes(toks, pos, TokenType::Semicolon) ==> (s matches SpecStmt::Block { statements }
                && statements.len() == 2 && statements[1] is WhileStmt)
        },
{
}

/// A declaration is chosen by its first token: after `var` it is a variable,
/// after `fun` a function, and anything else is read as a statement from the
/// same place.
pub proof fn law_declaration_is_chosen_by_its_first_token(toks: Seq<Token>, pos: nat, id: St)
    requires
        pos < toks.len(),
    ensures
        takes(toks, pos, TokenType::Var) ==> declaration(toks, pos, id) == var_declaration(
            toks,
            pos + 1,
            id,
        ),
        takes(toks, pos, TokenType::Fun) ==> declaration(toks, pos, id) == function(
            toks,
            pos + 1,
            id,
        ),
        !takes(toks, pos, TokenType::Var) && !takes(toks, pos, TokenType::Fun) ==> declaration(
            toks,
            pos,
            id,
        ) == statement(toks, pos, id),
        declaration(toks, pos, id) matches Ok((s, _, _)) ==> {
            &&& takes(toks, pos, TokenType::Var) ==> s is Var
            &&& takes(toks, pos, TokenType::Fun) ==> s is Function
        },
{
}

/// A statement is chosen by its keyword: each keyword gives its own kind of
/// statement, a "for" gives a while loop (alone or behind its initializer),
/// and any other token begins an expression statement.
pub proof fn law_statement_is_chosen_by_its_keyword(toks: Seq<Token>, pos: nat, id: St)
    requires
        pos < toks.len(),
    ensures
        statement(toks, pos, id) matches Ok((s, _, _)) ==> match kind(toks, pos) {
            TokenType::Eof => s is Expression,
            TokenType::Start => s is Block,
            TokenType::Print => s is Print,
            TokenType::Errors => s is Errors,
            TokenType::Exits => s is Exits,
            TokenType::Import => s is Import,
            TokenType::If => s is IfStmt,
            TokenType::While => s is WhileStmt,
            TokenType::Wait => s is WaitStmt,
            TokenType::Bench => s is BenchStmt,
            TokenType::For => s is WhileStmt || s is Block,
            TokenType::Return => s is ReturnStmt,
            TokenType::Break => s is BreakStmt,
            _ => s is Expression,
        },
{
}

/// There is one first end of input from a position on: two positions that
/// both hold an `Eof` with none before them from `pos` on are the same. So a
/// parse that ends at an `Eof` without stepping over one has stopped at the
/// first `Eof` from where it began.
pub proof fn law_the_first_end_is_unique(toks: Seq<Token>, pos: nat, e1: nat, e2: nat)
    requires
        pos <= e1 < toks.len(),
        pos <= e2 < toks.len(),
        at_end(toks, e1),
        at_end(toks, e2),
        no_end_between(toks, pos, e1),
        no_end_between(toks, pos, e2),
    ensures
        e1 == e2,
{
    if e1 < e2 {
        assert(eof_at(toks, e1 as int));
    } else if e2 < e1 {
        assert(eof_at(toks, e2 as int));
    }
}

/// The "elif" branches of an if statement are kept in the order they are
/// read: reading them after branches `acc` gives `acc` followed by what
/// reading them alone gives, and an error from there is the error of the whole.
pub proof fn law_elif_branches_keep_their_order(
    toks: Seq<Token>,
    pos: nat,
    id: St,
    acc: Seq<(SpecExpr, SpecStmt)>,
)
    ensures
        match elif_branches(toks, pos, id, Seq::empty()) {
            Ok((bs, p, i)) => elif_branches(toks, pos, id, acc) == Ok::<
                (Seq<(SpecExpr, SpecStmt)>, nat, St),
                (Seq<char>, St),
            >((acc + bs, p, i)),
            Err(m) => elif_branches(toks, pos, id, acc) == Err::<
                (Seq<(SpecExpr, SpecStmt)>, nat, St),
                (Seq<char>, St),
            >(m),
        },
    decreases toks.len() - pos,
{
    let e = Seq::<(SpecExpr, SpecStmt)>::empty();
    if pos < toks.len() && takes(toks, pos, TokenType::Elif) {
        match expression(toks, pos + 1, id) {
            Ok((pred, p1, i1)) => {
                if within(toks, pos + 1, p1) {
                    match statement(toks, p1, i1) {
                        Ok((st, p2, i2)) => {
                            if within(toks, pos + 1, p2) {
                                law_elif_branches_keep_their_order(toks, p2, i2, acc.push((pred, st)));
                                law_elif_branches_keep_their_order(toks, p2, i2, e.push((pred, st)));
                                match elif_branches(toks, p2, i2, e) {
                                    Ok((bs, q, j)) => {
                                        assert(acc.push((pred, st)) + bs =~= acc + (e.push((pred, st))
                                            + bs));
                                    },
                                    Err(_) => {},
                                }
                            }
                        },
                        Err(_) => {},
                    }
                }
            },
            Err(_) => {},
        }
    } else {
        assert(acc + e =~= acc);
    }
}

/// Each "elif" keyword gives a branch: with no "elif" at `pos` the branches
/// read are those already there, and after an "elif" the next branch holds
/// the condition read right after the keyword and the statement read right
/// after that condition, behind the branches already read.
pub proof fn law_each_elif_gives_a_branch(
    toks: Seq<Token>,
    pos: nat,
    id: St,
    acc: Seq<(SpecExpr, SpecStmt)>,
)
    requires
        pos < toks.len(),
    ensures
        !takes(toks, pos, TokenType::Elif) ==> elif_branches(toks, pos, id, acc) == Ok::<
            (Seq<(SpecExpr, SpecStmt)>, nat, St),
            (Seq<char>, St),
        >((acc, pos, id)),
        takes(toks, pos, TokenType::Elif) ==> (elif_branches(toks, pos, id, acc) matches Ok(
            (bs, _, _),
        ) ==> {
            &&& bs.len() > acc.len()
            &&& bs.subrange(0, acc.len() as int) == acc
            &&& expression(toks, pos + 1, id) matches Ok((pred, p1, i1))
            &&& bs[acc.len() as int].0 == pred
            &&& statement(toks, p1, i1) matches Ok((st, _, _))
            &&& bs[acc.len() as int].1 == st
        }),
{
    if takes(toks, pos, TokenType::Elif) {
        match expression(toks, pos + 1, id) {
            Ok((pred, p1, i1)) => {
                if within(toks, pos + 1, p1) {
                    match statement(toks, p1, i1) {
                        Ok((st, p2, i2)) => {
                            if within(toks, pos + 1, p2) {
                                let a2 = acc.push((pred, st));
                                law_elif_branches_keep_their_order(toks, p2, i2, a2);
                                match elif_branches(toks, p2, i2, Seq::empty()) {
                                    Ok((bs, q, j)) => {
                                        assert((a2 + bs).subrange(0, acc.len() as int) =~= acc);
                                        assert((a2 + bs)[acc.len() as int] == (pred, st));
                                    },
                                    Err(_) => {},
                                }
                            }
                        },
                        Err(_) => {},
                    }
                }
            },
            Err(_) => {},
        }
    }
}

/// The declarations of a block are kept in the order they are read: reading
/// them after declarations `acc` gives `acc` followed by what reading them
/// alone gives, and an error from there is the error of the whole.
pub proof fn law_block_keeps_its_declarations(toks: Seq<Token>, pos: nat, id: St, acc: Seq<SpecStmt>)
    ensures
        match declarations(toks, pos, id, Seq::empty()) {
            Ok((ds, p, i)) => declarations(toks, pos, id, acc) == Ok::<
                (Seq<SpecStmt>, nat, St),
                (Seq<char>, St),
            >((acc + ds, p, i)),
            Err(m) => declarations(toks, pos, id, acc) == Err::<(Seq<SpecStmt>, nat, St), (Seq<char>, St)>(
                m,
            ),
        },
    decreases toks.len() - pos,
{
    let e = Seq::<SpecStmt>::empty();
    if pos < toks.len() && !(kind(toks, pos) == TokenType::End || at_end(toks, pos)) {
        match declaration(toks, pos, id) {
            Ok((d, p, i)) => {
                if pos < p < toks.len() {
                    law_block_keeps_its_declarations(toks, p, i, acc.push(d));
                    law_block_keeps_its_declarations(toks, p, i, e.push(d));
                    match declarations(toks, p, i, e) {
                        Ok((ds, q, j)) => {
                            assert(acc.push(d) + ds =~= acc + (e.push(d) + ds));
                        },
                        Err(_) => {},
                    }
                }
            },
            Err(_) => {},
        }
    } else {
        assert(acc + e =~= acc);
    }
}

/// Each declaration read in a block is kept: at "end" or at the end of input
/// the declarations are those already read, and otherwise the next one is
/// the declaration read at `pos`, behind those already read.
pub proof fn law_each_declaration_of_a_block_is_kept(
    toks: Seq<Token>,
    pos: nat,
    id: St,
    acc: Seq<SpecStmt>,
)
    requires
        pos < toks.len(),
    ensures
        (kind(toks, pos) == TokenType::End || at_end(toks, pos)) ==> declarations(toks, pos, id, acc)
            == Ok::<(Seq<SpecStmt>, nat, St), (Seq<char>, St)>((acc, pos, id)),
        !(kind(toks, pos) == TokenType::End || at_end(toks, pos)) ==> (declarations(
            toks,
            pos,
            id,
            acc,
        ) matches Ok((ds, _, _)) ==> {
            &&& ds.len() > acc.len()
            &&& ds.subrange(0, acc.len() as int) == acc
            &&& declaration(toks, pos, id) matches Ok((d, _, _))
            &&& ds[acc.len() as int] == d
        }),
{
    if !(kind(toks, pos) == TokenType::End || at_end(toks, pos)) {
        match declaration(toks, pos, id) {
            Ok((d, p, i)) => {
                if pos < p < toks.len() {
                    let a2 = acc.push(d);
                    law_block_keeps_its_declarations(toks, p, i, a2);
                    match declarations(toks, p, i, Seq::empty()) {
                        Ok((ds, q, j)) => {
                            assert((a2 + ds).subrange(0, acc.len() as int) =~= acc);
                            assert((a2 + ds)[acc.len() as int] == d);
                        },
                        Err(_) => {},
                    }
                }
            },
            Err(_) => {},
        }
    }
}

/// A block is the declarations read from after its "start" up to its
/// closing "end", which is taken.
pub proof fn law_block_is_its_declarations_up_to_end(toks: Seq<Token>, pos: nat, id: St)
    ensures
        block(toks, pos, id) matches Ok((ss, p, i)) ==> {
            &&& p >= 1
            &&& kind(toks, (p - 1) as nat) == TokenType::End
            &&& declarations(toks, pos, id, Seq::empty()) == Ok::<
                (Seq<SpecStmt>, nat, St),
                (Seq<char>, St),
            >((ss, (p - 1) as nat, i))
        },
{
}

/// An if statement holds what it reads, in order: its condition, the
/// statement after it, every "elif" branch read after that statement, and an
/// "else" branch exactly when an "else" follows the last of them.
pub proof fn law_if_holds_its_branches(toks: Seq<Token>, pos: nat, id: St)
    ensures
        if_statement(toks, pos, id) matches Ok((s, _, _)) ==> {
            &&& s matches SpecStmt::IfStmt { predicate, then, elif_branches: bs, els }
            &&& expression(toks, pos, id) matches Ok((pr, p1, i1))
            &&& pr == predicate
            &&& statement(toks, p1, i1) matches Ok((th, p2, i2))
            &&& th == *then
            &&& elif_branches(toks, p2, i2, Seq::empty()) matches Ok((b2, p3, _))
            &&& b2 == bs
            &&& (els is Some <==> takes(toks, p3, TokenType::Else))
        },
{
}

/// A "start" statement is the block read after the "start".
pub proof fn law_start_reads_a_block(toks: Seq<Token>, pos: nat, id: St)
    requires
        pos < toks.len(),
        takes(toks, pos, TokenType::Start),
    ensures
        statement(toks, pos, id) matches Ok((s, _, _)) ==> {
            &&& s matches SpecStmt::Block { statements }
            &&& block(toks, pos + 1, id) matches Ok((ss, _, _))
            &&& ss == statements
        },
{
}

} // verus!
