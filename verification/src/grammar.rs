//! The grammar of the language, as spec functions over the token sequence.
//!
//! Each function reads the tokens from position `pos` on, with `id` as the
//! next free node id, and gives either the syntax it recognised with the
//! position after it and the next free id, or the message of the error it
//! met. Where a production calls for a node id, it takes the next free one
//! at the point where the node is complete, which is the order in which the
//! parser hands them out.
//!
//! A branch that gives an empty message is never taken from a state the
//! parser can be in (a position within the tokens, results that do not read
//! backwards); such branches make each recursive call read from a later
//! position or a lower production, which is why the recursion ends.
use vstd::prelude::*;
use crate::token::{Token, TokenType, TokenView, kind_name};
use crate::ast::{SpecExpr, SpecStmt, SpecLiteral, literal_of};

verus! {

/// The state a production reads on from besides the position: the next free
/// node id, and the reports made so far of faults that do not stop the
/// parse (lists of more than 255 parameters or arguments).
pub struct St {
    pub id: nat,
    pub log: Seq<Seq<char>>,
}

impl St {
    /// The state after taking the next free id.
    pub open spec fn bump(self) -> St {
        St { id: self.id + 1, log: self.log }
    }

    /// The state after reporting `m`.
    pub open spec fn report(self, m: Seq<char>) -> St {
        St { id: self.id, log: self.log.push(m) }
    }
}

/// What a production gives: its syntax, the position after it and the state
/// after it; or the message of the error it met and the state at that point.
pub type Outcome<T> = Result<(T, nat, St), (Seq<char>, St)>;

/// The decimal digits of a natural number.
pub open spec fn decimal(n: nat) -> Seq<char>
    decreases n,
{
    if n < 10 {
        seq![((n + 48) as u8) as char]
    } else {
        decimal(n / 10).push((((n % 10) + 48) as u8) as char)
    }
}

/// The message of a token that is not the one the grammar expects.
pub open spec fn expected_at(line: usize, msg: Seq<char>) -> Seq<char> {
    "\nLine "@ + decimal(line as nat) + ": "@ + msg
}

/// The message of a parameter list with too many names.
pub open spec fn too_many_params(line: usize) -> Seq<char> {
    "Line "@ + decimal(line as nat) + ": Can't have more than 255 arguments"@
}

/// The message of an argument list with too many arguments.
pub open spec fn too_many_args(line: usize) -> Seq<char> {
    "Line "@ + decimal(line as nat) + ": Cant have more than 255 arguments"@
}

/// The message of a token that cannot begin an expression.
pub open spec fn unexpected(t: TokenType) -> Seq<char> {
    "Unexpected token: "@ + kind_name(t)
}

/// An `Eof` token lies at or after `pos`: the parser can read on from there.
pub open spec fn eof_ahead(toks: Seq<Token>, pos: nat) -> bool {
    exists|e: int| pos <= e < toks.len() && #[trigger] toks[e].token_type == TokenType::Eof
}

/// Reading on past a token that is not `Eof` still leaves an `Eof` ahead.
pub proof fn lemma_eof_step(toks: Seq<Token>, pos: nat)
    requires
        eof_ahead(toks, pos),
        pos < toks.len(),
        !at_end(toks, pos),
    ensures
        eof_ahead(toks, pos + 1),
        pos + 1 < toks.len(),
{
    let e = choose|e: int| pos <= e < toks.len() && #[trigger] toks[e].token_type == TokenType::Eof;
    assert(e != pos);
    assert(toks[e].token_type == TokenType::Eof);
}

/// No token from `lo` up to `hi` is the end of input: a reader that went
/// from `lo` to `hi` never stepped over an `Eof`.
pub open spec fn no_end_between(toks: Seq<Token>, lo: nat, hi: nat) -> bool {
    forall|k: int| lo <= k < hi ==> !#[trigger] eof_at(toks, k)
}

/// The token at `k` is the end of input.
pub open spec fn eof_at(toks: Seq<Token>, k: int) -> bool {
    toks[k].token_type == TokenType::Eof
}

/// The kind of the token at `pos`.
pub open spec fn kind(toks: Seq<Token>, pos: nat) -> TokenType {
    toks[pos as int].token_type
}

/// The token at `pos`, as the syntax tree holds it.
pub open spec fn tok(toks: Seq<Token>, pos: nat) -> TokenView {
    toks[pos as int]@
}

/// The line of the token at `pos`.
pub open spec fn line(toks: Seq<Token>, pos: nat) -> usize {
    toks[pos as int].line_number
}

/// The token at `pos` is the end of input.
pub open spec fn at_end(toks: Seq<Token>, pos: nat) -> bool {
    kind(toks, pos) == TokenType::Eof
}

/// The token at `pos` is of kind `t` and is not the end of input: it is taken.
pub open spec fn takes(toks: Seq<Token>, pos: nat, t: TokenType) -> bool {
    !at_end(toks, pos) && kind(toks, pos) == t
}

/// The token at `pos` is of one of the kinds `ts` and is not the end of input.
pub open spec fn takes_any(toks: Seq<Token>, pos: nat, ts: Seq<TokenType>) -> bool {
    !at_end(toks, pos) && ts.contains(kind(toks, pos))
}

/// The token at `pos` must be of kind `t`; it is taken.
pub open spec fn expect(toks: Seq<Token>, pos: nat, t: TokenType, msg: Seq<char>, st: St) -> Result<
    (TokenView, nat),
    (Seq<char>, St),
> {
    if kind(toks, pos) == t {
        Ok((tok(toks, pos), pos + 1))
    } else {
        Err((expected_at(line(toks, pos), msg), st))
    }
}

/// A position `p` reached from `pos` within the tokens.
pub open spec fn within(toks: Seq<Token>, pos: nat, p: nat) -> bool {
    pos <= p < toks.len()
}

/// The operators of the binary precedence levels, loosest first:
/// pipe, or, nor, xor, and, equality, comparison, term, factor.
pub open spec fn level_ops(lvl: nat) -> Seq<TokenType> {
    if lvl == 0 {
        seq![TokenType::Pipe]
    } else if lvl == 1 {
        seq![TokenType::Or]
    } else if lvl == 2 {
        seq![TokenType::Nor]
    } else if lvl == 3 {
        seq![TokenType::Xor]
    } else if lvl == 4 {
        seq![TokenType::And]
    } else if lvl == 5 {
        seq![TokenType::BangEqual, TokenType::EqualEqual]
    } else if lvl == 6 {
        seq![TokenType::Greater, TokenType::GreaterEqual, TokenType::Less, TokenType::LessEqual]
    } else if lvl == 7 {
        seq![
            TokenType::Minus,
            TokenType::Plus,
            TokenType::PlusEqual,
            TokenType::MinusEqual,
            TokenType::Random,
        ]
    } else {
        seq![
            TokenType::Slash,
            TokenType::Star,
            TokenType::Power,
            TokenType::Cube,
            TokenType::Root,
            TokenType::CubicRoot,
        ]
    }
}

/// The prefix operators.
pub open spec fn unary_ops() -> Seq<TokenType> {
    seq![
        TokenType::Bang,
        TokenType::Minus,
        TokenType::Increment,
        TokenType::Decrement,
        TokenType::Percent,
        TokenType::Power2,
        TokenType::Root2,
    ]
}

/// The level of the right operand of an operator of level `lvl`: the
/// operands right of `or`, `nor` and `xor` are `and` expressions; level 9
/// stands for unary expressions.
pub open spec fn right_level(lvl: nat) -> nat {
    if 1 <= lvl <= 3 {
        4
    } else {
        lvl + 1
    }
}

/// The node for `left op right` at level `lvl`: a pipe `x |> f` is the call
/// `f(x)`; `or`, `nor`, `xor`, `and` are logical; the others are binary.
pub open spec fn combine(lvl: nat, node: nat, left: SpecExpr, op: TokenView, right: SpecExpr) -> SpecExpr {
    if lvl == 0 {
        SpecExpr::Call { id: node, callee: Box::new(right), paren: op, arguments: seq![left] }
    } else if lvl <= 4 {
        SpecExpr::Logical { id: node, left: Box::new(left), operator: op, right: Box::new(right) }
    } else {
        SpecExpr::Binary { id: node, left: Box::new(left), operator: op, right: Box::new(right) }
    }
}

/// The token that stands as keyword of the `return` of a function whose body
/// is a single expression.
pub open spec fn implicit_return() -> TokenView {
    TokenView {
        token_type: TokenType::Return,
        lexeme: Seq::empty(),
        line_number: 0,
        literal: None,
    }
}

// ---------------------------------------------------------------- expressions

/// expression := assignment
pub open spec fn expression(toks: Seq<Token>, pos: nat, id: St) -> Outcome<SpecExpr>
    decreases toks.len() - pos, 15nat,
{
    if pos >= toks.len() {
        Err((Seq::empty(), id))
    } else {
        assignment(toks, pos, id)
    }
}

/// assignment := pipe ( "=" expression )?, where the target must be a
/// variable or a property.
pub open spec fn assignment(toks: Seq<Token>, pos: nat, id: St) -> Outcome<SpecExpr>
    decreases toks.len() - pos, 14nat,
{
    if pos >= toks.len() {
        Err((Seq::empty(), id))
    } else {
        match level(toks, pos, id, 0) {
            Err(m) => Err(m),
            Ok((target, p, i)) => if !within(toks, pos, p) {
                Err((Seq::empty(), id))
            } else if takes(toks, p, TokenType::Equal) {
                match expression(toks, p + 1, i) {
                    Err(m) => Err(m),
                    Ok((value, p2, i2)) => match target {
                        SpecExpr::Variable { id: _, name } => Ok(
                            (SpecExpr::Assign { id: i2.id, name, value: Box::new(value) }, p2, i2.bump()),
                        ),
                        SpecExpr::Get { id: _, object, name } => Ok(
                            (
                                SpecExpr::SetProperty { id: i2.id, object, name, value: Box::new(value) },
                                p2,
                                i2.bump(),
                            ),
                        ),
                        _ => Err(("Invalid assignment target"@, i2)),
                    },
                }
            } else {
                Ok((target, p, i))
            },
        }
    }
}

/// level(lvl) := operand ( op operand' )*, left-associative, for the
/// operators `level_ops(lvl)`.
pub open spec fn level(toks: Seq<Token>, pos: nat, id: St, lvl: nat) -> Outcome<SpecExpr>
    decreases toks.len() - pos, 13 - lvl,
{
    if pos >= toks.len() || lvl > 8 {
        Err((Seq::empty(), id))
    } else {
        let left = if lvl == 8 {
            unary(toks, pos, id)
        } else {
            level(toks, pos, id, lvl + 1)
        };
        match left {
            Err(m) => Err(m),
            Ok((e, p, i)) => if within(toks, pos, p) {
                level_rest(toks, p, i, lvl, e)
            } else {
                Err((Seq::empty(), id))
            },
        }
    }
}

/// The operators and right operands that follow `left` at level `lvl`.
pub open spec fn level_rest(toks: Seq<Token>, pos: nat, id: St, lvl: nat, left: SpecExpr) -> Outcome<
    SpecExpr,
>
    decreases toks.len() - pos, 1nat,
{
    if pos >= toks.len() || lvl > 8 {
        Err((Seq::empty(), id))
    } else if takes_any(toks, pos, level_ops(lvl)) {
        let right = if right_level(lvl) == 9 {
            unary(toks, pos + 1, id)
        } else {
            level(toks, pos + 1, id, right_level(lvl))
        };
        match right {
            Err(m) => Err(m),
            Ok((r, p, i)) => if within(toks, pos + 1, p) {
                level_rest(toks, p, i.bump(), lvl, combine(lvl, i.id, left, tok(toks, pos), r))
            } else {
                Err((Seq::empty(), id))
            },
        }
    } else {
        Ok((left, pos, id))
    }
}

/// unary := prefix-op unary | call
pub open spec fn unary(toks: Seq<Token>, pos: nat, id: St) -> Outcome<SpecExpr>
    decreases toks.len() - pos, 4nat,
{
    if pos >= toks.len() {
        Err((Seq::empty(), id))
    } else if takes_any(toks, pos, unary_ops()) {
        match unary(toks, pos + 1, id) {
            Err(m) => Err(m),
            Ok((r, p, i)) => Ok(
                (SpecExpr::Unary { id: i.id, operator: tok(toks, pos), right: Box::new(r) }, p, i.bump()),
            ),
        }
    } else {
        call(toks, pos, id)
    }
}

/// call := primary ( "." IDENT )? ( "(" arguments ")" | "." IDENT )*
pub open spec fn call(toks: Seq<Token>, pos: nat, id: St) -> Outcome<SpecExpr>
    decreases toks.len() - pos, 3nat,
{
    if pos >= toks.len() {
        Err((Seq::empty(), id))
    } else {
        match primary(toks, pos, id) {
            Err(m) => Err(m),
            Ok((e, p, i)) => if !within(toks, pos, p) {
                Err((Seq::empty(), id))
            } else if takes(toks, p, TokenType::Dot) {
                match expect(toks, p + 1, TokenType::Identifier, "Expected token after dot-accessor"@, i) {
                    Err(m) => Err(m),
                    Ok((name, p2)) => if p2 < toks.len() {
                        call_rest(toks, p2, i.bump(), SpecExpr::Get { id: i.id, object: Box::new(e), name })
                    } else {
                        Err((Seq::empty(), id))
                    },
                }
            } else {
                call_rest(toks, p, i, e)
            },
        }
    }
}

/// The calls and property accesses that follow `e`.
pub open spec fn call_rest(toks: Seq<Token>, pos: nat, id: St, e: SpecExpr) -> Outcome<SpecExpr>
    decreases toks.len() - pos, 1nat,
{
    if pos >= toks.len() {
        Err((Seq::empty(), id))
    } else if takes(toks, pos, TokenType::LeftParen) {
        match finish_call(toks, pos + 1, id, e) {
            Err(m) => Err(m),
            Ok((c, p, i)) => if within(toks, pos + 1, p) {
                call_rest(toks, p, i, c)
            } else {
                Err((Seq::empty(), id))
            },
        }
    } else if takes(toks, pos, TokenType::Dot) {
        match expect(toks, pos + 1, TokenType::Identifier, "Expected token after dot-accessor"@, id) {
            Err(m) => Err(m),
            Ok((name, p)) => if p < toks.len() {
                call_rest(toks, p, id.bump(), SpecExpr::Get { id: id.id, object: Box::new(e), name })
            } else {
                Err((Seq::empty(), id))
            },
        }
    } else {
        Ok((e, pos, id))
    }
}

/// The arguments of a call of `callee` and its closing parenthesis.
pub open spec fn finish_call(toks: Seq<Token>, pos: nat, id: St, callee: SpecExpr) -> Outcome<SpecExpr>
    decreases toks.len() - pos, 17nat,
{
    if pos >= toks.len() {
        Err((Seq::empty(), id))
    } else {
        let args = if kind(toks, pos) == TokenType::RightParen {
            Ok((Seq::<SpecExpr>::empty(), pos, id))
        } else {
            arguments(toks, pos, id, Seq::empty())
        };
        match args {
            Err(m) => Err(m),
            Ok((a, p, i)) => match expect(
                toks,
                p,
                TokenType::RightParen,
                "Expected ')' after arguments."@,
                i,
            ) {
                Err(m) => Err(m),
                Ok((paren, p2)) => Ok(
                    (SpecExpr::Call { id: i.id, callee: Box::new(callee), paren, arguments: a }, p2, i.bump()),
                ),
            },
        }
    }
}

/// arguments := expression ( "," expression )*. From the 255th argument
/// on, each argument is reported as one too many, and the list goes on with
/// the next expression without looking for a ",".
pub open spec fn arguments(toks: Seq<Token>, pos: nat, id: St, acc: Seq<SpecExpr>) -> Outcome<
    Seq<SpecExpr>,
>
    decreases toks.len() - pos, 16nat,
{
    if pos >= toks.len() {
        Err((Seq::empty(), id))
    } else {
        match expression(toks, pos, id) {
            Err(m) => Err(m),
            Ok((a, p, i)) => if !within(toks, pos, p) {
                Err((Seq::empty(), id))
            } else if acc.len() + 1 >= 255 {
                if pos < p {
                    arguments(toks, p, i.report(too_many_args(line(toks, p))), acc.push(a))
                } else {
                    Err((Seq::empty(), id))
                }
            } else if takes(toks, p, TokenType::Comma) {
                arguments(toks, p + 1, i, acc.push(a))
            } else {
                Ok((acc.push(a), p, i))
            },
        }
    }
}

/// array := "[" ( expression ( "," expression )* )? "]", the id of the array
/// taken before its elements.
pub open spec fn array(toks: Seq<Token>, pos: nat, id: St) -> Outcome<SpecExpr>
    decreases toks.len() - pos, 1nat,
{
    if pos + 1 >= toks.len() {
        Err((Seq::empty(), id))
    } else {
        match elements(toks, pos + 1, id.bump(), Seq::empty()) {
            Err(m) => Err(m),
            Ok((els, p, i)) => match expect(
                toks,
                p,
                TokenType::RightBracket,
                "Expect ']' after array elements."@,
                i,
            ) {
                Err(m) => Err(m),
                Ok((_, p2)) => Ok((SpecExpr::Array { id: id.id, elements: els }, p2, i)),
            },
        }
    }
}

/// The elements of an array literal.
pub open spec fn elements(toks: Seq<Token>, pos: nat, id: St, acc: Seq<SpecExpr>) -> Outcome<
    Seq<SpecExpr>,
>
    decreases toks.len() - pos, 16nat,
{
    if pos >= toks.len() {
        Err((Seq::empty(), id))
    } else if kind(toks, pos) == TokenType::RightBracket || at_end(toks, pos) {
        Ok((acc, pos, id))
    } else {
        match expression(toks, pos, id) {
            Err(m) => Err(m),
            Ok((e, p, i)) => if !within(toks, pos, p) {
                Err((Seq::empty(), id))
            } else if takes(toks, p, TokenType::Comma) {
                elements(toks, p + 1, i, acc.push(e))
            } else {
                Ok((acc.push(e), p, i))
            },
        }
    }
}

/// primary := "(" expression ")" | literal | array | IDENT ( "[" expression "]" )?
pub open spec fn primary(toks: Seq<Token>, pos: nat, id: St) -> Outcome<SpecExpr>
    decreases toks.len() - pos, 2nat,
{
    if pos >= toks.len() {
        Err((Seq::empty(), id))
    } else {
        match kind(toks, pos) {
            TokenType::LeftParen => match expression(toks, pos + 1, id) {
                Err(m) => Err(m),
                Ok((e, p, i)) => match expect(
                    toks,
                    p,
                    TokenType::RightParen,
                    "Expected ')' after expression"@,
                    i,
                ) {
                    Err(m) => Err(m),
                    Ok((_, p2)) => Ok((SpecExpr::Grouping { id: i.id, expression: Box::new(e) }, p2, i.bump())),
                },
            },
            TokenType::False | TokenType::True | TokenType::Nil | TokenType::Number
            | TokenType::StringLit => Ok(
                (SpecExpr::Literal { id: id.id, value: literal_of(tok(toks, pos)) }, pos + 1, id.bump()),
            ),
            TokenType::LeftBracket => array(toks, pos, id),
            TokenType::Identifier => {
                let var = SpecExpr::Variable { id: id.id, name: tok(toks, pos) };
                if pos + 1 >= toks.len() {
                    Err((Seq::empty(), id))
                } else if takes(toks, pos + 1, TokenType::LeftBracket) {
                    match expression(toks, pos + 2, id.bump()) {
                        Err(m) => Err(m),
                        Ok((index, p, i)) => match expect(
                            toks,
                            p,
                            TokenType::RightBracket,
                            "Expected ']' after index"@,
                            i,
                        ) {
                            Err(m) => Err(m),
                            Ok((_, p2)) => Ok(
                                (SpecExpr::Array { id: i.id, elements: seq![var, index] }, p2, i.bump()),
                            ),
                        },
                    }
                } else {
                    Ok((var, pos + 1, id.bump()))
                }
            },
            _ => Err((unexpected(kind(toks, pos)), id)),
        }
    }
}

// ----------------------------------------------------------------- statements

/// Maps the syntax of a successful outcome.
pub open spec fn some_stmt(r: Outcome<SpecStmt>) -> Outcome<Option<SpecStmt>> {
    match r {
        Ok((s, p, i)) => Ok((Some(s), p, i)),
        Err(m) => Err(m),
    }
}

pub open spec fn some_expr(r: Outcome<SpecExpr>) -> Outcome<Option<SpecExpr>> {
    match r {
        Ok((e, p, i)) => Ok((Some(e), p, i)),
        Err(m) => Err(m),
    }
}

/// A statement that is an expression followed by ";".
pub open spec fn terminated(
    toks: Seq<Token>,
    pos: nat,
    id: St,
    msg: Seq<char>,
) -> Outcome<SpecExpr>
    decreases toks.len() - pos, 16nat,
{
    if pos >= toks.len() {
        Err((Seq::empty(), id))
    } else {
        match expression(toks, pos, id) {
            Err(m) => Err(m),
            Ok((e, p, i)) => match expect(toks, p, TokenType::Semicolon, msg, i) {
                Err(m) => Err(m),
                Ok((_, p2)) => Ok((e, p2, i)),
            },
        }
    }
}

/// expression-statement := expression ";"
pub open spec fn expression_statement(toks: Seq<Token>, pos: nat, id: St) -> Outcome<SpecStmt>
    decreases toks.len() - pos, 17nat,
{
    match terminated(toks, pos, id, "Expected ';' after expression."@) {
        Err(m) => Err(m),
        Ok((e, p, i)) => Ok((SpecStmt::Expression { expression: e }, p, i)),
    }
}

/// return := "return" expression? ";"
pub open spec fn return_statement(toks: Seq<Token>, pos: nat, id: St, keyword: TokenView) -> Outcome<
    SpecStmt,
>
    decreases toks.len() - pos, 17nat,
{
    if pos >= toks.len() {
        Err((Seq::empty(), id))
    } else if kind(toks, pos) != TokenType::Semicolon {
        match terminated(toks, pos, id, "Expected ';' after return value;"@) {
            Err(m) => Err(m),
            Ok((e, p, i)) => Ok((SpecStmt::ReturnStmt { keyword, value: Some(e) }, p, i)),
        }
    } else {
        Ok((SpecStmt::ReturnStmt { keyword, value: None }, pos + 1, id))
    }
}

/// var := "var" IDENT ( ":" IDENT )? ( "=" expression )? ";", where a
/// variable without initializer starts as `nil`.
pub open spec fn var_declaration(toks: Seq<Token>, pos: nat, id: St) -> Outcome<SpecStmt>
    decreases toks.len() - pos, 17nat,
{
    if pos >= toks.len() {
        Err((Seq::empty(), id))
    } else {
        match expect(toks, pos, TokenType::Identifier, "Expected variable name"@, id) {
            Err(m) => Err(m),
            Ok((name, p1)) => {
                let ann: Result<(Option<TokenView>, nat), (Seq<char>, St)> = if takes(
                    toks,
                    p1,
                    TokenType::Colon,
                ) {
                    match expect(toks, p1 + 1, TokenType::Identifier, "Expected type after ':'"@, id) {
                        Err(m) => Err(m),
                        Ok((t, p)) => Ok((Some(t), p)),
                    }
                } else {
                    Ok((None, p1))
                };
                match ann {
                    Err(m) => Err(m),
                    Ok((ty, p2)) => {
                        let init = if !(p2 < toks.len()) {
                            Err((Seq::empty(), id))
                        } else if takes(toks, p2, TokenType::Equal) {
                            expression(toks, p2 + 1, id)
                        } else {
                            Ok((SpecExpr::Literal { id: id.id, value: SpecLiteral::Nil }, p2, id.bump()))
                        };
                        match init {
                            Err(m) => Err(m),
                            Ok((e, p3, i)) => match expect(
                                toks,
                                p3,
                                TokenType::Semicolon,
                                "Expected ';' after variable declaration"@,
                                i,
                            ) {
                                Err(m) => Err(m),
                                Ok((_, p4)) => Ok(
                                    (
                                        SpecStmt::Var { name, type_annotation: ty, initializer: e },
                                        p4,
                                        i,
                                    ),
                                ),
                            },
                        }
                    },
                }
            },
        }
    }
}

/// The parameters of a function: IDENT ( ":" IDENT )? separated by ",".
/// Each parameter from the 256th on is reported as one too many.
pub open spec fn parameters(
    toks: Seq<Token>,
    pos: nat,
    id: St,
    acc: Seq<(TokenView, Option<TokenView>)>,
) -> Outcome<Seq<(TokenView, Option<TokenView>)>>
    decreases toks.len() - pos, 1nat,
{
    if pos >= toks.len() {
        Err((Seq::empty(), id))
    } else {
        let st = if acc.len() >= 255 {
            id.report(too_many_params(line(toks, pos)))
        } else {
            id
        };
        match expect(toks, pos, TokenType::Identifier, "Expected parameter name"@, st) {
            Err(m) => Err(m),
            Ok((name, p1)) => {
                let ty: Result<(Option<TokenView>, nat), (Seq<char>, St)> = if takes(
                    toks,
                    p1,
                    TokenType::Colon,
                ) {
                    match expect(toks, p1 + 1, TokenType::Identifier, "Expected type after ':'"@, st) {
                        Err(m) => Err(m),
                        Ok((t, p)) => Ok((Some(t), p)),
                    }
                } else {
                    Ok((None, p1))
                };
                match ty {
                    Err(m) => Err(m),
                    Ok((t, p2)) => if p2 < toks.len() && takes(toks, p2, TokenType::Comma) {
                        parameters(toks, p2 + 1, st, acc.push((name, t)))
                    } else {
                        Ok((acc.push((name, t)), p2, st))
                    },
                }
            },
        }
    }
}

/// function := "fun" IDENT "(" parameters? ")" ( ":" expression ";" | "start" block )
/// where the body `: e;` stands for a body that returns `e`.
pub open spec fn function(toks: Seq<Token>, pos: nat, id: St) -> Outcome<SpecStmt>
    decreases toks.len() - pos, 25nat,
{
    if pos >= toks.len() {
        Err((Seq::empty(), id))
    } else {
        match expect(toks, pos, TokenType::Identifier, "Expected "@ + "Function"@ + " name"@, id) {
            Err(m) => Err(m),
            Ok((name, p1)) => match expect(
                toks,
                p1,
                TokenType::LeftParen,
                "Expected '(' after "@ + "Function"@ + " name"@,
                id,
            ) {
                Err(m) => Err(m),
                Ok((_, p2)) => {
                    let params: Outcome<Seq<(TokenView, Option<TokenView>)>> = if !(p2 < toks.len()) {
                        Err((Seq::empty(), id))
                    } else if kind(toks, p2) == TokenType::RightParen {
                        Ok((Seq::empty(), p2, id))
                    } else {
                        parameters(toks, p2, id, Seq::empty())
                    };
                    match params {
                        Err(m) => Err(m),
                        Ok((ps, p3, id)) => match expect(
                            toks,
                            p3,
                            TokenType::RightParen,
                            "Expected ')' after parameters."@,
                            id,
                        ) {
                            Err(m) => Err(m),
                            Ok((_, p4)) => if !(pos <= p4 < toks.len()) {
                                Err((Seq::empty(), id))
                            } else if takes(toks, p4, TokenType::Colon) {
                                match terminated(
                                    toks,
                                    p4 + 1,
                                    id,
                                    "Expected ';' after function body expression."@,
                                ) {
                                    Err(m) => Err(m),
                                    Ok((e, p5, i)) => Ok(
                                        (
                                            SpecStmt::Function {
                                                name,
                                                params: ps,
                                                body: seq![
                                                    SpecStmt::ReturnStmt {
                                                        keyword: implicit_return(),
                                                        value: Some(e),
                                                    },
                                                ],
                                            },
                                            p5,
                                            i,
                                        ),
                                    ),
                                }
                            } else {
                                match expect(
                                    toks,
                                    p4,
                                    TokenType::Start,
                                    "Expected 'start' before "@ + "Function"@ + " body."@,
                                    id,
                                ) {
                                    Err(m) => Err(m),
                                    Ok((_, p5)) => match block(toks, p5, id) {
                                        Err(m) => Err(m),
                                        Ok((body, p6, i)) => Ok(
                                            (SpecStmt::Function { name, params: ps, body }, p6, i),
                                        ),
                                    },
                                }
                            },
                        },
                    }
                },
            },
        }
    }
}

/// block := declaration* "end", after its "start".
pub open spec fn block(toks: Seq<Token>, pos: nat, id: St) -> Outcome<Seq<SpecStmt>>
    decreases toks.len() - pos, 24nat,
{
    if pos >= toks.len() {
        Err((Seq::empty(), id))
    } else {
        match declarations(toks, pos, id, Seq::empty()) {
            Err(m) => Err(m),
            Ok((stmts, p, i)) => match expect(toks, p, TokenType::End, "Expected 'end' after a block"@, i) {
                Err(m) => Err(m),
                Ok((_, p2)) => Ok((stmts, p2, i)),
            },
        }
    }
}

/// The declarations of a block, up to its "end" or the end of input.
pub open spec fn declarations(toks: Seq<Token>, pos: nat, id: St, acc: Seq<SpecStmt>) -> Outcome<
    Seq<SpecStmt>,
>
    decreases toks.len() - pos, 23nat,
{
    if pos >= toks.len() {
        Err((Seq::empty(), id))
    } else if kind(toks, pos) == TokenType::End || at_end(toks, pos) {
        Ok((acc, pos, id))
    } else {
        match declaration(toks, pos, id) {
            Err(m) => Err(m),
            Ok((d, p, i)) => if pos < p < toks.len() {
                declarations(toks, p, i, acc.push(d))
            } else {
                Err((Seq::empty(), id))
            },
        }
    }
}

/// if := "if" expression statement ( "elif" expression statement )* ( "else" statement )?
pub open spec fn if_statement(toks: Seq<Token>, pos: nat, id: St) -> Outcome<SpecStmt>
    decreases toks.len() - pos, 21nat,
{
    if pos >= toks.len() {
        Err((Seq::empty(), id))
    } else {
        match expression(toks, pos, id) {
            Err(m) => Err(m),
            Ok((pred, p1, i1)) => if !within(toks, pos, p1) {
                Err((Seq::empty(), id))
            } else {
                match statement(toks, p1, i1) {
                    Err(m) => Err(m),
                    Ok((then, p2, i2)) => if !within(toks, pos, p2) {
                        Err((Seq::empty(), id))
                    } else {
                        match elif_branches(toks, p2, i2, Seq::empty()) {
                            Err(m) => Err(m),
                            Ok((elifs, p3, i3)) => if !within(toks, pos, p3) {
                                Err((Seq::empty(), id))
                            } else if takes(toks, p3, TokenType::Else) {
                                match statement(toks, p3 + 1, i3) {
                                    Err(m) => Err(m),
                                    Ok((els, p4, i4)) => Ok(
                                        (
                                            SpecStmt::IfStmt {
                                                predicate: pred,
                                                then: Box::new(then),
                                                elif_branches: elifs,
                                                els: Some(Box::new(els)),
                                            },
                                            p4,
                                            i4,
                                        ),
                                    ),
                                }
                            } else {
                                Ok(
                                    (
                                        SpecStmt::IfStmt {
                                            predicate: pred,
                                            then: Box::new(then),
                                            elif_branches: elifs,
                                            els: None,
                                        },
                                        p3,
                                        i3,
                                    ),
                                )
                            },
                        }
                    },
                }
            },
        }
    }
}

/// The "elif" branches of an if statement.
pub open spec fn elif_branches(
    toks: Seq<Token>,
    pos: nat,
    id: St,
    acc: Seq<(SpecExpr, SpecStmt)>,
) -> Outcome<Seq<(SpecExpr, SpecStmt)>>
    decreases toks.len() - pos, 1nat,
{
    if pos >= toks.len() {
        Err((Seq::empty(), id))
    } else if takes(toks, pos, TokenType::Elif) {
        match expression(toks, pos + 1, id) {
            Err(m) => Err(m),
            Ok((pred, p1, i1)) => if !within(toks, pos + 1, p1) {
                Err((Seq::empty(), id))
            } else {
                match statement(toks, p1, i1) {
                    Err(m) => Err(m),
                    Ok((s, p2, i2)) => if within(toks, pos + 1, p2) {
                        elif_branches(toks, p2, i2, acc.push((pred, s)))
                    } else {
                        Err((Seq::empty(), id))
                    },
                }
            },
        }
    } else {
        Ok((acc, pos, id))
    }
}

/// while := "while" expression statement
pub open spec fn while_statement(toks: Seq<Token>, pos: nat, id: St) -> Outcome<SpecStmt>
    decreases toks.len() - pos, 21nat,
{
    if pos >= toks.len() {
        Err((Seq::empty(), id))
    } else {
        match expression(toks, pos, id) {
            Err(m) => Err(m),
            Ok((c, p1, i1)) => if !within(toks, pos, p1) {
                Err((Seq::empty(), id))
            } else {
                match statement(toks, p1, i1) {
                    Err(m) => Err(m),
                    Ok((body, p2, i2)) => Ok(
                        (SpecStmt::WhileStmt { condition: c, body: Box::new(body) }, p2, i2),
                    ),
                }
            },
        }
    }
}

/// wait := "wait" expression statement ( "before" expression statement )?
pub open spec fn wait_statement(toks: Seq<Token>, pos: nat, id: St) -> Outcome<SpecStmt>
    decreases toks.len() - pos, 21nat,
{
    if pos >= toks.len() {
        Err((Seq::empty(), id))
    } else {
        match expression(toks, pos, id) {
            Err(m) => Err(m),
            Ok((time, p1, i1)) => if !within(toks, pos, p1) {
                Err((Seq::empty(), id))
            } else {
                match statement(toks, p1, i1) {
                    Err(m) => Err(m),
                    Ok((body, p2, i2)) => if !within(toks, pos, p2) {
                        Err((Seq::empty(), id))
                    } else if takes(toks, p2, TokenType::Before) {
                        match expression(toks, p2 + 1, i2) {
                            Err(m) => Err(m),
                            Ok((bt, p3, i3)) => if !within(toks, pos, p3) {
                                Err((Seq::empty(), id))
                            } else {
                                match statement(toks, p3, i3) {
                                    Err(m) => Err(m),
                                    Ok((bb, p4, i4)) => Ok(
                                        (
                                            SpecStmt::WaitStmt {
                                                time,
                                                body: Box::new(body),
                                                before: Some((bt, Box::new(bb))),
                                            },
                                            p4,
                                            i4,
                                        ),
                                    ),
                                }
                            },
                        }
                    } else {
                        Ok((SpecStmt::WaitStmt { time, body: Box::new(body), before: None }, p2, i2))
                    },
                }
            },
        }
    }
}

/// bench := "bench" statement
pub open spec fn bench_statement(toks: Seq<Token>, pos: nat, id: St) -> Outcome<SpecStmt>
    decreases toks.len() - pos, 21nat,
{
    if pos >= toks.len() {
        Err((Seq::empty(), id))
    } else {
        match statement(toks, pos, id) {
            Err(m) => Err(m),
            Ok((body, p, i)) => Ok((SpecStmt::BenchStmt { body: Box::new(body) }, p, i)),
        }
    }
}

/// for := "for" ( ";" | var | expression-statement ) expression? ";" expression? statement,
/// which stands for `{ init; while (cond or true) { body; incr; } }`; the id
/// of the implicit `true` is taken after the body.
pub open spec fn for_statement(toks: Seq<Token>, pos: nat, id: St) -> Outcome<SpecStmt>
    decreases toks.len() - pos, 21nat,
{
    if pos >= toks.len() {
        Err((Seq::empty(), id))
    } else {
        let init = if takes(toks, pos, TokenType::Semicolon) {
            Ok((None, pos + 1, id))
        } else if takes(toks, pos, TokenType::Var) {
            some_stmt(var_declaration(toks, pos + 1, id))
        } else {
            some_stmt(expression_statement(toks, pos, id))
        };
        match init {
            Err(m) => Err(m),
            Ok((init, p1, i1)) => if !within(toks, pos, p1) {
                Err((Seq::empty(), id))
            } else {
                let cond = if kind(toks, p1) != TokenType::Semicolon {
                    some_expr(expression(toks, p1, i1))
                } else {
                    Ok((None, p1, i1))
                };
                match cond {
                    Err(m) => Err(m),
                    Ok((cond, p2, i2)) => match expect(
                        toks,
                        p2,
                        TokenType::Semicolon,
                        "Expected ';' after loop condition."@,
                        i2,
                    ) {
                        Err(m) => Err(m),
                        Ok((_, p3)) => if !within(toks, pos, p3) {
                            Err((Seq::empty(), id))
                        } else {
                            let incr = if kind(toks, p3) != TokenType::RightParen {
                                some_expr(expression(toks, p3, i2))
                            } else {
                                Ok((None, p3, i2))
                            };
                            match incr {
                                Err(m) => Err(m),
                                Ok((incr, p4, i4)) => if !within(toks, pos, p4) {
                                    Err((Seq::empty(), id))
                                } else {
                                    match statement(toks, p4, i4) {
                                        Err(m) => Err(m),
                                        Ok((body, p5, i5)) => Ok(
                                            for_desugar(init, cond, incr, body, p5, i5),
                                        ),
                                    }
                                },
                            }
                        },
                    },
                }
            },
        }
    }
}

/// The loop a "for" statement stands for, built after its body is parsed.
pub open spec fn for_desugar(
    init: Option<SpecStmt>,
    cond: Option<SpecExpr>,
    incr: Option<SpecExpr>,
    body: SpecStmt,
    p: nat,
    i: St,
) -> (SpecStmt, nat, St) {
    let body1 = match incr {
        Some(x) => SpecStmt::Block { statements: seq![body, SpecStmt::Expression { expression: x }] },
        None => body,
    };
    let (c, i2) = match cond {
        Some(c) => (c, i),
        None => (SpecExpr::Literal { id: i.id, value: SpecLiteral::True }, i.bump()),
    };
    let w = SpecStmt::WhileStmt { condition: c, body: Box::new(body1) };
    match init {
        Some(s) => (SpecStmt::Block { statements: seq![s, w] }, p, i2),
        None => (w, p, i2),
    }
}

/// statement := block | print | errors | exits | import | if | while | wait
///            | bench | for | return | break | expression-statement,
/// chosen by the token at `pos`.
pub open spec fn statement(toks: Seq<Token>, pos: nat, id: St) -> Outcome<SpecStmt>
    decreases toks.len() - pos, 20nat,
{
    if pos >= toks.len() {
        Err((Seq::empty(), id))
    } else if at_end(toks, pos) {
        expression_statement(toks, pos, id)
    } else {
        match kind(toks, pos) {
            TokenType::Start => match block(toks, pos + 1, id) {
                Err(m) => Err(m),
                Ok((stmts, p, i)) => Ok((SpecStmt::Block { statements: stmts }, p, i)),
            },
            TokenType::Print => match terminated(toks, pos + 1, id, "Expected ';' after value."@) {
                Err(m) => Err(m),
                Ok((e, p, i)) => Ok((SpecStmt::Print { expression: e }, p, i)),
            },
            TokenType::Errors => match terminated(toks, pos + 1, id, "Expected ';' after value."@) {
                Err(m) => Err(m),
                Ok((e, p, i)) => Ok((SpecStmt::Errors { expression: e }, p, i)),
            },
            TokenType::Exits => match expect(
                toks,
                pos + 1,
                TokenType::Semicolon,
                "Expected ';' after value."@,
                id,
            ) {
                Err(m) => Err(m),
                Ok((_, p)) => Ok((SpecStmt::Exits, p, id)),
            },
            TokenType::Import => match terminated(toks, pos + 1, id, "Expected ';' after value."@) {
                Err(m) => Err(m),
                Ok((e, p, i)) => Ok((SpecStmt::Import { expression: e }, p, i)),
            },
            TokenType::If => if_statement(toks, pos + 1, id),
            TokenType::While => while_statement(toks, pos + 1, id),
            TokenType::Wait => wait_statement(toks, pos + 1, id),
            TokenType::Bench => bench_statement(toks, pos + 1, id),
            TokenType::For => for_statement(toks, pos + 1, id),
            TokenType::Return => return_statement(toks, pos + 1, id, tok(toks, pos)),
            TokenType::Break => match expect(
                toks,
                pos + 1,
                TokenType::Semicolon,
                "Expected Semicolon after return value"@,
                id,
            ) {
                Err(m) => Err(m),
                Ok((_, p)) => Ok((SpecStmt::BreakStmt { keyword: tok(toks, pos) }, p, id)),
            },
            _ => expression_statement(toks, pos, id),
        }
    }
}

/// declaration := var | function | statement
pub open spec fn declaration(toks: Seq<Token>, pos: nat, id: St) -> Outcome<SpecStmt>
    decreases toks.len() - pos, 22nat,
{
    if pos >= toks.len() {
        Err((Seq::empty(), id))
    } else if takes(toks, pos, TokenType::Var) {
        var_declaration(toks, pos + 1, id)
    } else if takes(toks, pos, TokenType::Fun) {
        function(toks, pos + 1, id)
    } else {
        statement(toks, pos, id)
    }
}

/// program := declaration* up to the end of input; the first error ends it.
pub open spec fn program(toks: Seq<Token>, pos: nat, id: St, acc: Seq<SpecStmt>) -> Outcome<
    Seq<SpecStmt>,
>
    decreases toks.len() - pos, 23nat,
{
    if pos >= toks.len() {
        Err((Seq::empty(), id))
    } else if at_end(toks, pos) {
        Ok((acc, pos, id))
    } else {
        match declaration(toks, pos, id) {
            Err(m) => Err(m),
            Ok((d, p, i)) => if pos < p < toks.len() {
                program(toks, p, i, acc.push(d))
            } else {
                Err((Seq::empty(), id))
            },
        }
    }
}

// ------------------------------------------------------------ error recovery

/// The kinds of token that begin a statement.
pub open spec fn begins_statement(t: TokenType) -> bool {
    match t {
        TokenType::Fun | TokenType::Var | TokenType::For | TokenType::If | TokenType::Errors
        | TokenType::While | TokenType::Bench | TokenType::Print | TokenType::Return
        | TokenType::Import | TokenType::Exits | TokenType::Break => true,
        _ => false,
    }
}

/// The position where skipping stops, from `pos` on: the end of input, a
/// position just after a ";", or a token that begins a statement.
pub open spec fn sync_from(toks: Seq<Token>, pos: nat) -> nat
    decreases toks.len() - pos,
{
    if pos >= toks.len() || pos == 0 {
        pos
    } else if at_end(toks, pos) {
        pos
    } else if kind(toks, (pos - 1) as nat) == TokenType::Semicolon {
        pos
    } else if begins_statement(kind(toks, pos)) {
        pos
    } else {
        sync_from(toks, pos + 1)
    }
}

/// Where error recovery from `pos` stops: it steps over the token at `pos`
/// and skips on from there.
pub open spec fn synchronized(toks: Seq<Token>, pos: nat) -> nat {
    if at_end(toks, pos) {
        sync_from(toks, pos)
    } else {
        sync_from(toks, pos + 1)
    }
}

} // verus!
