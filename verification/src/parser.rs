//! The parser: it reads a token sequence and builds the syntax tree of the
//! program, as the grammar in `grammar` describes it.
use vstd::prelude::*;
use vstd::string::StringExecFns;
use crate::token::{Token, TokenType};
use crate::ast::{Expr, Stmt, SpecExpr, SpecStmt, LiteralValue, BeforeBlock};
use crate::grammar;
use crate::ids::{
    expr_ids, exprs_ids, stmt_ids, stmts_ids, branches_ids, fresh_ids, lemma_fresh_join, lemma_fresh_widen,
    lemma_fresh_parts, lemma_fresh_empty, lemma_exprs_ids_push, lemma_stmts_ids_push,
    lemma_branches_ids_push, lemma_call_ids, lemma_for_ids,
};
use crate::grammar::{
    Outcome, St, eof_ahead, no_end_between, decimal, expected_at, too_many_params, too_many_args, unexpected, kind,
    at_end, takes, takes_any, expect, level_ops, unary_ops, level_rest, call_rest,
};
use crate::lemmas::{
    lemma_boxed_exprs_push, lemma_exprs_push, lemma_boxed_stmts_push, lemma_branches_push,
    lemma_params_push, lemma_exprs_len, lemma_stmts_push,
};

verus! {

/// The decimal digit `d`, as a one-character string.
fn digit_text(d: usize) -> (s: &'static str)
    requires
        d < 10,
    ensures
        s@ == seq![((d + 48) as u8) as char],
{
    proof {
        reveal_strlit("0");
        reveal_strlit("1");
        reveal_strlit("2");
        reveal_strlit("3");
        reveal_strlit("4");
        reveal_strlit("5");
        reveal_strlit("6");
        reveal_strlit("7");
        reveal_strlit("8");
        reveal_strlit("9");
    }
    if d == 0 {
        "0"
    } else if d == 1 {
        "1"
    } else if d == 2 {
        "2"
    } else if d == 3 {
        "3"
    } else if d == 4 {
        "4"
    } else if d == 5 {
        "5"
    } else if d == 6 {
        "6"
    } else if d == 7 {
        "7"
    } else if d == 8 {
        "8"
    } else {
        "9"
    }
}

/// Appends the decimal digits of `n` to `s`.
fn append_decimal(n: usize, s: &mut String)
    ensures
        final(s)@ == old(s)@ + decimal(n as nat),
    decreases n,
{
    if n >= 10 {
        append_decimal(n / 10, s);
    }
    let ghost before = s@;
    s.append(digit_text(n % 10));
    proof {
        if n >= 10 {
            assert(decimal(n as nat) == decimal((n / 10) as nat).push((((n % 10) + 48) as u8) as char));
        }
        assert(s@ =~= old(s)@ + decimal(n as nat));
    }
}

/// The decimal digits of `n`, with no sign, padding or separator.
fn decimal_string(n: usize) -> (s: String)
    ensures
        s@ == decimal(n as nat),
{
    let mut s = String::new();
    append_decimal(n, &mut s);
    proof {
        assert(s@ =~= decimal(n as nat));
    }
    s
}

/// "\nLine {line}: {msg}"
fn expected_message(line: usize, msg: &str) -> (s: String)
    ensures
        s@ == expected_at(line, msg@),
        s@.len() > 0,
{
    proof {
        reveal_strlit("\nLine ");
    }
    let mut s = String::from_str("\nLine ");
    let d = decimal_string(line);
    s.append(d.as_str());
    s.append(": ");
    s.append(msg);
    s
}

fn too_many_params_message(line: usize) -> (s: String)
    ensures
        s@ == too_many_params(line),
        s@.len() > 0,
{
    proof {
        reveal_strlit("Line ");
    }
    let mut s = String::from_str("Line ");
    let d = decimal_string(line);
    s.append(d.as_str());
    s.append(": Can't have more than 255 arguments");
    s
}

fn too_many_args_message(line: usize) -> (s: String)
    ensures
        s@ == too_many_args(line),
        s@.len() > 0,
{
    proof {
        reveal_strlit("Line ");
    }
    let mut s = String::from_str("Line ");
    let d = decimal_string(line);
    s.append(d.as_str());
    s.append(": Cant have more than 255 arguments");
    s
}

fn unexpected_message(t: TokenType) -> (s: String)
    ensures
        s@ == unexpected(t),
        s@.len() > 0,
{
    proof {
        reveal_strlit("Unexpected token: ");
    }
    let mut s = String::from_str("Unexpected token: ");
    s.append(t.name());
    s
}

/// The kinds of function a declaration introduces; diagnostics name them.
#[derive(Debug)]
enum FunctionKind {
    Function,
}

impl FunctionKind {
    fn name(&self) -> (s: &'static str)
        ensures
            s@ == "Function"@,
    {
        match self {
            FunctionKind::Function => "Function",
        }
    }
}

/// "{prefix}{kind}{suffix}"
fn kind_message(prefix: &str, kind: &FunctionKind, suffix: &str) -> (s: String)
    ensures
        s@ == prefix@ + "Function"@ + suffix@,
{
    let mut s = String::from_str(prefix);
    s.append(kind.name());
    s.append(suffix);
    s
}

/// The block of two statements.
fn block_of_two(first: Stmt, second: Stmt) -> (s: Stmt)
    ensures
        s@ == (SpecStmt::Block { statements: seq![first@, second@] }),
{
    let ghost a = first@;
    let ghost b = second@;
    let mut statements: Vec<Box<Stmt>> = Vec::new();
    proof {
        lemma_boxed_stmts_push(statements@, Box::new(first));
    }
    statements.push(Box::new(first));
    proof {
        lemma_boxed_stmts_push(statements@, Box::new(second));
    }
    statements.push(Box::new(second));
    assert(crate::ast::boxed_stmts_view(statements@) =~= seq![a, b]);
    Stmt::Block { statements }
}

/// A parser over a token sequence: the tokens, the position of the next
/// token to read, and the next free node id.
pub struct Parser {
    tokens: Vec<Token>,
    current: usize,
    next_id: usize,
    reports: Vec<String>,
}

/// The texts of a list of reports.
pub open spec fn reports_view(s: Seq<String>) -> Seq<Seq<char>> {
    s.map_values(|m: String| m@)
}

/// `r` is what the grammar outcome `o` says, the parser left in state `p`.
spec fn expr_result(r: Result<Expr, String>, o: Outcome<SpecExpr>, p: Parser) -> bool {
    match r {
        Ok(e) => o == Ok::<(SpecExpr, nat, St), (Seq<char>, St)>((e@, p.current as nat, p.st())),
        Err(m) => o == Err::<(SpecExpr, nat, St), (Seq<char>, St)>((m@, p.st())),
    }
}

/// Each node of the expression `r` has its own id, taken from `lo..hi`.
pub open spec fn expr_fresh(r: Result<Expr, String>, lo: usize, hi: usize) -> bool {
    r matches Ok(e) ==> fresh_ids(expr_ids(e@), lo as nat, hi as nat)
}

/// Each expression node of the statement `r` has its own id, taken from `lo..hi`.
pub open spec fn stmt_fresh(r: Result<Stmt, String>, lo: usize, hi: usize) -> bool {
    r matches Ok(s) ==> fresh_ids(stmt_ids(s@), lo as nat, hi as nat)
}

/// An error comes with a message.
pub open spec fn has_message<T>(r: Result<T, String>) -> bool {
    r matches Err(m) ==> m@.len() > 0
}

/// The ids of the "else" branch of an if statement.
pub open spec fn else_ids(e: Option<Box<Stmt>>) -> Seq<nat> {
    match e {
        Some(b) => stmt_ids(b@),
        None => Seq::empty(),
    }
}

spec fn stmt_result(r: Result<Stmt, String>, o: Outcome<SpecStmt>, p: Parser) -> bool {
    match r {
        Ok(s) => o == Ok::<(SpecStmt, nat, St), (Seq<char>, St)>((s@, p.current as nat, p.st())),
        Err(m) => o == Err::<(SpecStmt, nat, St), (Seq<char>, St)>((m@, p.st())),
    }
}

impl Parser {
    /// The tokens the parser reads.
    pub closed spec fn tokens(&self) -> Seq<Token> {
        self.tokens@
    }

    /// The position of the next token to read.
    pub closed spec fn position(&self) -> nat {
        self.current as nat
    }

    /// The next free node id.
    pub closed spec fn fresh_id(&self) -> nat {
        self.next_id as nat
    }

    /// The reports made so far of faults that do not stop the parse.
    pub closed spec fn report_log(&self) -> Seq<Seq<char>> {
        reports_view(self.reports@)
    }

    /// The state the grammar reads on from besides the position.
    spec fn st(&self) -> St {
        St { id: self.next_id as nat, log: reports_view(self.reports@) }
    }

    /// The parser can go on: an `Eof` lies at or after its position, which is
    /// within the tokens, and there is room for one more id per token left.
    pub closed spec fn wf(&self) -> bool {
        &&& eof_ahead(self.tokens@, self.current as nat)
        &&& self.current < self.tokens@.len()
        &&& self.next_id + (self.tokens@.len() - self.current) <= usize::MAX
    }

    /// `self` is a state reached from `old` by reading on: the same tokens,
    /// no position or id given back, no `Eof` stepped over, and at most one
    /// id per token read.
    pub closed spec fn follows(&self, old: Parser) -> bool {
        &&& self.wf()
        &&& self.tokens@ == old.tokens@
        &&& old.current <= self.current
        &&& no_end_between(self.tokens@, old.current as nat, self.current as nat)
        &&& old.next_id <= self.next_id
        &&& self.next_id - old.next_id <= self.current - old.current
    }

    /// A parser at the start of `tokens`, with no id handed out and nothing
    /// reported yet.
    pub fn new(tokens: Vec<Token>) -> (p: Self)
        ensures
            p.tokens() == tokens@,
            p.position() == 0,
            p.fresh_id() == 0,
            p.report_log() == Seq::<Seq<char>>::empty(),
            eof_ahead(tokens@, 0) ==> p.wf(),
    {
        let n = tokens.len();
        let p = Self { tokens, current: 0, next_id: 0, reports: Vec::new() };
        assert(reports_view(p.reports@) =~= Seq::<Seq<char>>::empty());
        p
    }

    /// The reports made so far of faults that do not stop the parse: lists
    /// of more than 255 parameters or arguments.
    pub fn reports(&self) -> (r: &Vec<String>)
        ensures
            reports_view(r@) == self.report_log(),
    {
        &self.reports
    }

    /// Reading on is transitive.
    proof fn lemma_follows_trans(a: Parser, b: Parser, c: Parser)
        requires
            b.follows(a),
            c.follows(b),
        ensures
            c.follows(a),
    {
    }

    /// Taking the token at the position, or nothing, is reading on.
    proof fn lemma_follows_take(a: Parser, c: Parser, took: bool)
        requires
            a.wf(),
            c.tokens == a.tokens,
            c.next_id == a.next_id,
            c.current == if took { a.current + 1 } else { a.current as int },
            took ==> !at_end(a.tokens@, a.current as nat),
            eof_ahead(c.tokens@, c.current as nat),
            c.current < c.tokens@.len(),
        ensures
            c.follows(a),
    {
    }

    fn get_id(&mut self) -> (id: usize)
        requires
            old(self).next_id < usize::MAX,
        ensures
            id == old(self).next_id,
            final(self).next_id == old(self).next_id + 1,
            final(self).tokens == old(self).tokens,
            final(self).current == old(self).current,
            final(self).reports == old(self).reports,
    {
        let id = self.next_id;
        self.next_id += 1;
        id
    }

    fn peek(&self) -> (t: Token)
        requires
            self.current < self.tokens@.len(),
        ensures
            t == self.tokens@[self.current as int],
    {
        self.tokens[self.current].clone()
    }

    fn previous(&self) -> (t: Token)
        requires
            0 < self.current <= self.tokens@.len(),
        ensures
            t == self.tokens@[self.current - 1],
    {
        self.tokens[self.current - 1].clone()
    }

    fn is_at_end(&self) -> (b: bool)
        requires
            self.current < self.tokens@.len(),
        ensures
            b == at_end(self.tokens@, self.current as nat),
    {
        self.peek().token_type == TokenType::Eof
    }

    fn check(&self, typ: TokenType) -> (b: bool)
        requires
            self.current < self.tokens@.len(),
        ensures
            b == (kind(self.tokens@, self.current as nat) == typ),
    {
        self.peek().token_type == typ
    }

    fn advance(&mut self) -> (t: Token)
        requires
            old(self).current < old(self).tokens@.len(),
            old(self).current > 0 || !at_end(old(self).tokens@, old(self).current as nat),
        ensures
            final(self).tokens == old(self).tokens,
            final(self).next_id == old(self).next_id,
            final(self).reports == old(self).reports,
            final(self).current == if at_end(old(self).tokens@, old(self).current as nat) {
                old(self).current as int
            } else {
                old(self).current + 1
            },
            final(self).current <= final(self).tokens@.len(),
            eof_ahead(old(self).tokens@, old(self).current as nat) ==> eof_ahead(
                final(self).tokens@,
                final(self).current as nat,
            ) && final(self).current < final(self).tokens@.len(),
            t == final(self).tokens@[final(self).current - 1],
    {
        if !self.is_at_end() {
            proof {
                if eof_ahead(self.tokens@, self.current as nat) {
                    grammar::lemma_eof_step(self.tokens@, self.current as nat);
                }
            }
            let n = self.tokens.len();
            assert(self.current < n);
            self.current += 1;
        }
        self.previous()
    }

    fn match_token(&mut self, typ: TokenType) -> (b: bool)
        requires
            old(self).current < old(self).tokens@.len(),
        ensures
            b == takes(old(self).tokens@, old(self).current as nat, typ),
            final(self).tokens == old(self).tokens,
            final(self).next_id == old(self).next_id,
            final(self).reports == old(self).reports,
            final(self).current == if b { old(self).current + 1 } else { old(self).current as int },
            final(self).current <= final(self).tokens@.len(),
            eof_ahead(old(self).tokens@, old(self).current as nat) ==> eof_ahead(
                final(self).tokens@,
                final(self).current as nat,
            ) && final(self).current < final(self).tokens@.len(),
    {
        if self.is_at_end() {
            false
        } else if self.peek().token_type == typ {
            self.advance();
            true
        } else {
            false
        }
    }

    fn match_tokens(&mut self, typs: &[TokenType]) -> (b: bool)
        requires
            old(self).current < old(self).tokens@.len(),
        ensures
            b == takes_any(old(self).tokens@, old(self).current as nat, typs@),
            final(self).tokens == old(self).tokens,
            final(self).next_id == old(self).next_id,
            final(self).reports == old(self).reports,
            final(self).current == if b { old(self).current + 1 } else { old(self).current as int },
            final(self).current <= final(self).tokens@.len(),
            eof_ahead(old(self).tokens@, old(self).current as nat) ==> eof_ahead(
                final(self).tokens@,
                final(self).current as nat,
            ) && final(self).current < final(self).tokens@.len(),
    {
        let mut i: usize = 0;
        while i < typs.len()
            invariant
                *self == *old(self),
                self.current < self.tokens@.len(),
                i <= typs@.len(),
                at_end(self.tokens@, self.current as nat) || forall|j: int|
                    0 <= j < i ==> typs@[j] != kind(self.tokens@, self.current as nat),
            decreases typs@.len() - i,
        {
            if self.match_token(typs[i]) {
                return true;
            }
            i += 1;
        }
        false
    }

    fn consume(&mut self, token_type: TokenType, msg: &str) -> (r: Result<Token, String>)
        requires
            old(self).current < old(self).tokens@.len(),
            token_type != TokenType::Eof,
        ensures
            has_message(r),
            final(self).tokens == old(self).tokens,
            final(self).next_id == old(self).next_id,
            final(self).reports == old(self).reports,
            final(self).current <= final(self).tokens@.len(),
            eof_ahead(old(self).tokens@, old(self).current as nat) ==> eof_ahead(
                final(self).tokens@,
                final(self).current as nat,
            ) && final(self).current < final(self).tokens@.len(),
            match r {
                Ok(t) => expect(old(self).tokens@, old(self).current as nat, token_type, msg@, old(self).st())
                    == Ok::<_, (Seq<char>, St)>((t@, final(self).current as nat))
                    && final(self).current == old(self).current + 1,
                Err(m) => expect(old(self).tokens@, old(self).current as nat, token_type, msg@, old(self).st())
                    == Err::<(crate::token::TokenView, nat), (Seq<char>, St)>((m@, old(self).st()))
                    && final(self).current == old(self).current,
            },
    {
        let token = self.peek();
        if token.token_type == token_type {
            self.advance();
            let token = self.previous();
            Ok(token)
        } else {
            Err(expected_message(token.line_number, msg))
        }
    }

    /// pipe := or ( "|>" or )*, where `x |> f` is the call `f(x)`.
    fn pipe(&mut self) -> (r: Result<Expr, String>)
        requires
            old(self).wf(),
        ensures
            r is Ok ==> final(self).current > old(self).current,
            has_message(r),
            final(self).follows(*old(self)),
            expr_result(
                r,
                grammar::level(old(self).tokens@, old(self).current as nat, old(self).st(), 0),
                *final(self),
            ),
            expr_fresh(r, old(self).next_id, final(self).next_id),
        decreases old(self).tokens@.len() - old(self).current, 13nat,
    {
        let ghost start = *old(self);
        let ghost t = self.tokens@;
        let mut expr = match self.or() {
            Ok(e) => e,
            Err(m) => {
                return Err(m);
            },
        };
        loop
            invariant
                self.current > start.current,
                fresh_ids(expr_ids(expr@), start.next_id as nat, self.next_id as nat),
                self.follows(start),
                start == *old(self),
                t == self.tokens@,
                grammar::level(t, start.current as nat, start.st(), 0) == level_rest(
                    t,
                    self.current as nat,
                    self.st(),
                    0,
                    expr@,
                ),
            ensures
                self.current > start.current,
                fresh_ids(expr_ids(expr@), start.next_id as nat, self.next_id as nat),
                self.follows(start),
                grammar::level(t, start.current as nat, start.st(), 0) == Ok::<(SpecExpr, nat, St), (Seq<char>, St)>((expr@, self.current as nat, self.st())),
            decreases t.len() - self.current,
        {
            let ghost before = *self;
            let ops = [TokenType::Pipe];
            assert(ops@ =~= level_ops(0));
            if !self.match_tokens(&ops) {
                break;
            }
            let operator = self.previous();
            let right = match self.or() {
                Ok(e) => e,
                Err(m) => {
                    return Err(m);
                },
            };
            let ghost rv = right@;
            let id = self.get_id();
            let ghost old_expr = expr@;
            let mut arguments: Vec<Expr> = Vec::new();
            proof {
                lemma_exprs_push(arguments@, expr);
            }
            arguments.push(expr);
            assert(arguments@ =~= Seq::<Expr>::empty().push(expr));
            expr = Expr::Call { id, callee: Box::new(right), paren: operator, arguments };
            assert(expr@ == grammar::combine(0, id as nat, old_expr, operator@, right@));
            proof {
                lemma_exprs_ids_push(Seq::empty(), old_expr);
                assert(Seq::<SpecExpr>::empty().push(old_expr) =~= seq![old_expr]);
                assert(Seq::<nat>::empty() + expr_ids(old_expr) =~= expr_ids(old_expr));
                lemma_fresh_join(expr_ids(old_expr), expr_ids(rv), start.next_id as nat, before.next_id as nat, id as nat);
                lemma_fresh_join(expr_ids(rv) + expr_ids(old_expr), seq![id as nat], start.next_id as nat, id as nat, (id + 1) as nat);
            }
        }
        Ok(expr)
    }

    /// or := nor ( "or" and )*
    fn or(&mut self) -> (r: Result<Expr, String>)
        requires
            old(self).wf(),
        ensures
            r is Ok ==> final(self).current > old(self).current,
            has_message(r),
            final(self).follows(*old(self)),
            expr_result(
                r,
                grammar::level(old(self).tokens@, old(self).current as nat, old(self).st(), 1),
                *final(self),
            ),
            expr_fresh(r, old(self).next_id, final(self).next_id),
        decreases old(self).tokens@.len() - old(self).current, 12nat,
    {
        let ghost start = *old(self);
        let ghost t = self.tokens@;
        let mut expr = match self.nor() {
            Ok(e) => e,
            Err(m) => {
                return Err(m);
            },
        };
        loop
            invariant
                self.current > start.current,
                fresh_ids(expr_ids(expr@), start.next_id as nat, self.next_id as nat),
                self.follows(start),
                start == *old(self),
                t == self.tokens@,
                grammar::level(t, start.current as nat, start.st(), 1) == level_rest(
                    t,
                    self.current as nat,
                    self.st(),
                    1,
                    expr@,
                ),
            ensures
                self.current > start.current,
                fresh_ids(expr_ids(expr@), start.next_id as nat, self.next_id as nat),
                self.follows(start),
                grammar::level(t, start.current as nat, start.st(), 1) == Ok::<(SpecExpr, nat, St), (Seq<char>, St)>((expr@, self.current as nat, self.st())),
            decreases t.len() - self.current,
        {
            let ghost before = *self;
            let ops = [TokenType::Or];
            assert(ops@ =~= level_ops(1));
            if !self.match_tokens(&ops) {
                break;
            }
            let operator = self.previous();
            let right = match self.and() {
                Ok(e) => e,
                Err(m) => {
                    return Err(m);
                },
            };
            let ghost rv = right@;
            let id = self.get_id();
            let ghost old_expr = expr@;
            expr = Expr::Logical { id, left: Box::new(expr), operator, right: Box::new(right) };
            assert(expr@ == grammar::combine(1, id as nat, old_expr, operator@, right@));
            proof {
                lemma_fresh_join(expr_ids(old_expr), expr_ids(rv), start.next_id as nat, before.next_id as nat, id as nat);
                lemma_fresh_join(expr_ids(old_expr) + expr_ids(rv), seq![id as nat], start.next_id as nat, id as nat, (id + 1) as nat);
            }
        }
        Ok(expr)
    }

    /// nor := xor ( "nor" and )*
    fn nor(&mut self) -> (r: Result<Expr, String>)
        requires
            old(self).wf(),
        ensures
            r is Ok ==> final(self).current > old(self).current,
            has_message(r),
            final(self).follows(*old(self)),
            expr_result(
                r,
                grammar::level(old(self).tokens@, old(self).current as nat, old(self).st(), 2),
                *final(self),
            ),
            expr_fresh(r, old(self).next_id, final(self).next_id),
        decreases old(self).tokens@.len() - old(self).current, 11nat,
    {
        let ghost start = *old(self);
        let ghost t = self.tokens@;
        let mut expr = match self.xor() {
            Ok(e) => e,
            Err(m) => {
                return Err(m);
            },
        };
        loop
            invariant
                self.current > start.current,
                fresh_ids(expr_ids(expr@), start.next_id as nat, self.next_id as nat),
                self.follows(start),
                start == *old(self),
                t == self.tokens@,
                grammar::level(t, start.current as nat, start.st(), 2) == level_rest(
                    t,
                    self.current as nat,
                    self.st(),
                    2,
                    expr@,
                ),
            ensures
                self.current > start.current,
                fresh_ids(expr_ids(expr@), start.next_id as nat, self.next_id as nat),
                self.follows(start),
                grammar::level(t, start.current as nat, start.st(), 2) == Ok::<(SpecExpr, nat, St), (Seq<char>, St)>((expr@, self.current as nat, self.st())),
            decreases t.len() - self.current,
        {
            let ghost before = *self;
            let ops = [TokenType::Nor];
            assert(ops@ =~= level_ops(2));
            if !self.match_tokens(&ops) {
                break;
            }
            let operator = self.previous();
            let right = match self.and() {
                Ok(e) => e,
                Err(m) => {
                    return Err(m);
                },
            };
            let ghost rv = right@;
            let id = self.get_id();
            let ghost old_expr = expr@;
            expr = Expr::Logical { id, left: Box::new(expr), operator, right: Box::new(right) };
            assert(expr@ == grammar::combine(2, id as nat, old_expr, operator@, right@));
            proof {
                lemma_fresh_join(expr_ids(old_expr), expr_ids(rv), start.next_id as nat, before.next_id as nat, id as nat);
                lemma_fresh_join(expr_ids(old_expr) + expr_ids(rv), seq![id as nat], start.next_id as nat, id as nat, (id + 1) as nat);
            }
        }
        Ok(expr)
    }

    /// xor := and ( "xor" and )*
    fn xor(&mut self) -> (r: Result<Expr, String>)
        requires
            old(self).wf(),
        ensures
            r is Ok ==> final(self).current > old(self).current,
            has_message(r),
            final(self).follows(*old(self)),
            expr_result(
                r,
                grammar::level(old(self).tokens@, old(self).current as nat, old(self).st(), 3),
                *final(self),
            ),
            expr_fresh(r, old(self).next_id, final(self).next_id),
        decreases old(self).tokens@.len() - old(self).current, 10nat,
    {
        let ghost start = *old(self);
        let ghost t = self.tokens@;
        let mut expr = match self.and() {
            Ok(e) => e,
            Err(m) => {
                return Err(m);
            },
        };
        loop
            invariant
                self.current > start.current,
                fresh_ids(expr_ids(expr@), start.next_id as nat, self.next_id as nat),
                self.follows(start),
                start == *old(self),
                t == self.tokens@,
                grammar::level(t, start.current as nat, start.st(), 3) == level_rest(
                    t,
                    self.current as nat,
                    self.st(),
                    3,
                    expr@,
                ),
            ensures
                self.current > start.current,
                fresh_ids(expr_ids(expr@), start.next_id as nat, self.next_id as nat),
                self.follows(start),
                grammar::level(t, start.current as nat, start.st(), 3) == Ok::<(SpecExpr, nat, St), (Seq<char>, St)>((expr@, self.current as nat, self.st())),
            decreases t.len() - self.current,
        {
            let ghost before = *self;
            let ops = [TokenType::Xor];
            assert(ops@ =~= level_ops(3));
            if !self.match_tokens(&ops) {
                break;
            }
            let operator = self.previous();
            let right = match self.and() {
                Ok(e) => e,
                Err(m) => {
                    return Err(m);
                },
            };
            let ghost rv = right@;
            let id = self.get_id();
            let ghost old_expr = expr@;
            expr = Expr::Logical { id, left: Box::new(expr), operator, right: Box::new(right) };
            assert(expr@ == grammar::combine(3, id as nat, old_expr, operator@, right@));
            proof {
                lemma_fresh_join(expr_ids(old_expr), expr_ids(rv), start.next_id as nat, before.next_id as nat, id as nat);
                lemma_fresh_join(expr_ids(old_expr) + expr_ids(rv), seq![id as nat], start.next_id as nat, id as nat, (id + 1) as nat);
            }
        }
        Ok(expr)
    }

    /// and := equality ( "and" equality )*
    fn and(&mut self) -> (r: Result<Expr, String>)
        requires
            old(self).wf(),
        ensures
            r is Ok ==> final(self).current > old(self).current,
            has_message(r),
            final(self).follows(*old(self)),
            expr_result(
                r,
                grammar::level(old(self).tokens@, old(self).current as nat, old(self).st(), 4),
                *final(self),
            ),
            expr_fresh(r, old(self).next_id, final(self).next_id),
        decreases old(self).tokens@.len() - old(self).current, 9nat,
    {
        let ghost start = *old(self);
        let ghost t = self.tokens@;
        let mut expr = match self.equality() {
            Ok(e) => e,
            Err(m) => {
                return Err(m);
            },
        };
        loop
            invariant
                self.current > start.current,
                fresh_ids(expr_ids(expr@), start.next_id as nat, self.next_id as nat),
                self.follows(start),
                start == *old(self),
                t == self.tokens@,
                grammar::level(t, start.current as nat, start.st(), 4) == level_rest(
                    t,
                    self.current as nat,
                    self.st(),
                    4,
                    expr@,
                ),
            ensures
                self.current > start.current,
                fresh_ids(expr_ids(expr@), start.next_id as nat, self.next_id as nat),
                self.follows(start),
                grammar::level(t, start.current as nat, start.st(), 4) == Ok::<(SpecExpr, nat, St), (Seq<char>, St)>((expr@, self.current as nat, self.st())),
            decreases t.len() - self.current,
        {
            let ghost before = *self;
            let ops = [TokenType::And];
            assert(ops@ =~= level_ops(4));
            if !self.match_tokens(&ops) {
                break;
            }
            let operator = self.previous();
            let right = match self.equality() {
                Ok(e) => e,
                Err(m) => {
                    return Err(m);
                },
            };
            let ghost rv = right@;
            let id = self.get_id();
            let ghost old_expr = expr@;
            expr = Expr::Logical { id, left: Box::new(expr), operator, right: Box::new(right) };
            assert(expr@ == grammar::combine(4, id as nat, old_expr, operator@, right@));
            proof {
                lemma_fresh_join(expr_ids(old_expr), expr_ids(rv), start.next_id as nat, before.next_id as nat, id as nat);
                lemma_fresh_join(expr_ids(old_expr) + expr_ids(rv), seq![id as nat], start.next_id as nat, id as nat, (id + 1) as nat);
            }
        }
        Ok(expr)
    }

    /// equality := comparison ( ("!=" | "==") comparison )*
    fn equality(&mut self) -> (r: Result<Expr, String>)
        requires
            old(self).wf(),
        ensures
            r is Ok ==> final(self).current > old(self).current,
            has_message(r),
            final(self).follows(*old(self)),
            expr_result(
                r,
                grammar::level(old(self).tokens@, old(self).current as nat, old(self).st(), 5),
                *final(self),
            ),
            expr_fresh(r, old(self).next_id, final(self).next_id),
        decreases old(self).tokens@.len() - old(self).current, 8nat,
    {
        let ghost start = *old(self);
        let ghost t = self.tokens@;
        let mut expr = match self.comparison() {
            Ok(e) => e,
            Err(m) => {
                return Err(m);
            },
        };
        loop
            invariant
                self.current > start.current,
                fresh_ids(expr_ids(expr@), start.next_id as nat, self.next_id as nat),
                self.follows(start),
                start == *old(self),
                t == self.tokens@,
                grammar::level(t, start.current as nat, start.st(), 5) == level_rest(
                    t,
                    self.current as nat,
                    self.st(),
                    5,
                    expr@,
                ),
            ensures
                self.current > start.current,
                fresh_ids(expr_ids(expr@), start.next_id as nat, self.next_id as nat),
                self.follows(start),
                grammar::level(t, start.current as nat, start.st(), 5) == Ok::<(SpecExpr, nat, St), (Seq<char>, St)>((expr@, self.current as nat, self.st())),
            decreases t.len() - self.current,
        {
            let ghost before = *self;
            let ops = [TokenType::BangEqual, TokenType::EqualEqual];
            assert(ops@ =~= level_ops(5));
            if !self.match_tokens(&ops) {
                break;
            }
            let operator = self.previous();
            let right = match self.comparison() {
                Ok(e) => e,
                Err(m) => {
                    return Err(m);
                },
            };
            let ghost rv = right@;
            let id = self.get_id();
            let ghost old_expr = expr@;
            expr = Expr::Binary { id, left: Box::new(expr), operator, right: Box::new(right) };
            assert(expr@ == grammar::combine(5, id as nat, old_expr, operator@, right@));
            proof {
                lemma_fresh_join(expr_ids(old_expr), expr_ids(rv), start.next_id as nat, before.next_id as nat, id as nat);
                lemma_fresh_join(expr_ids(old_expr) + expr_ids(rv), seq![id as nat], start.next_id as nat, id as nat, (id + 1) as nat);
            }
        }
        Ok(expr)
    }

    /// comparison := term ( (">" | ">=" | "<" | "<=") term )*
    fn comparison(&mut self) -> (r: Result<Expr, String>)
        requires
            old(self).wf(),
        ensures
            r is Ok ==> final(self).current > old(self).current,
            has_message(r),
            final(self).follows(*old(self)),
            expr_result(
                r,
                grammar::level(old(self).tokens@, old(self).current as nat, old(self).st(), 6),
                *final(self),
            ),
            expr_fresh(r, old(self).next_id, final(self).next_id),
        decreases old(self).tokens@.len() - old(self).current, 7nat,
    {
        let ghost start = *old(self);
        let ghost t = self.tokens@;
        let mut expr = match self.term() {
            Ok(e) => e,
            Err(m) => {
                return Err(m);
            },
        };
        loop
            invariant
                self.current > start.current,
                fresh_ids(expr_ids(expr@), start.next_id as nat, self.next_id as nat),
                self.follows(start),
                start == *old(self),
                t == self.tokens@,
                grammar::level(t, start.current as nat, start.st(), 6) == level_rest(
                    t,
                    self.current as nat,
                    self.st(),
                    6,
                    expr@,
                ),
            ensures
                self.current > start.current,
                fresh_ids(expr_ids(expr@), start.next_id as nat, self.next_id as nat),
                self.follows(start),
                grammar::level(t, start.current as nat, start.st(), 6) == Ok::<(SpecExpr, nat, St), (Seq<char>, St)>((expr@, self.current as nat, self.st())),
            decreases t.len() - self.current,
        {
            let ghost before = *self;
            let ops = [TokenType::Greater, TokenType::GreaterEqual, TokenType::Less, TokenType::LessEqual];
            assert(ops@ =~= level_ops(6));
            if !self.match_tokens(&ops) {
                break;
            }
            let operator = self.previous();
            let right = match self.term() {
                Ok(e) => e,
                Err(m) => {
                    return Err(m);
                },
            };
            let ghost rv = right@;
            let id = self.get_id();
            let ghost old_expr = expr@;
            expr = Expr::Binary { id, left: Box::new(expr), operator, right: Box::new(right) };
            assert(expr@ == grammar::combine(6, id as nat, old_expr, operator@, right@));
            proof {
                lemma_fresh_join(expr_ids(old_expr), expr_ids(rv), start.next_id as nat, before.next_id as nat, id as nat);
                lemma_fresh_join(expr_ids(old_expr) + expr_ids(rv), seq![id as nat], start.next_id as nat, id as nat, (id + 1) as nat);
            }
        }
        Ok(expr)
    }

    /// term := factor ( ("-" | "+" | "+=" | "-=" | random) factor )*
    fn term(&mut self) -> (r: Result<Expr, String>)
        requires
            old(self).wf(),
        ensures
            r is Ok ==> final(self).current > old(self).current,
            has_message(r),
            final(self).follows(*old(self)),
            expr_result(
                r,
                grammar::level(old(self).tokens@, old(self).current as nat, old(self).st(), 7),
                *final(self),
            ),
            expr_fresh(r, old(self).next_id, final(self).next_id),
        decreases old(self).tokens@.len() - old(self).current, 6nat,
    {
        let ghost start = *old(self);
        let ghost t = self.tokens@;
        let mut expr = match self.factor() {
            Ok(e) => e,
            Err(m) => {
                return Err(m);
            },
        };
        loop
            invariant
                self.current > start.current,
                fresh_ids(expr_ids(expr@), start.next_id as nat, self.next_id as nat),
                self.follows(start),
                start == *old(self),
                t == self.tokens@,
                grammar::level(t, start.current as nat, start.st(), 7) == level_rest(
                    t,
                    self.current as nat,
                    self.st(),
                    7,
                    expr@,
                ),
            ensures
                self.current > start.current,
                fresh_ids(expr_ids(expr@), start.next_id as nat, self.next_id as nat),
                self.follows(start),
                grammar::level(t, start.current as nat, start.st(), 7) == Ok::<(SpecExpr, nat, St), (Seq<char>, St)>((expr@, self.current as nat, self.st())),
            decreases t.len() - self.current,
        {
            let ghost before = *self;
            let ops = [TokenType::Minus, TokenType::Plus, TokenType::PlusEqual, TokenType::MinusEqual, TokenType::Random];
            assert(ops@ =~= level_ops(7));
            if !self.match_tokens(&ops) {
                break;
            }
            let operator = self.previous();
            let right = match self.factor() {
                Ok(e) => e,
                Err(m) => {
                    return Err(m);
                },
            };
            let ghost rv = right@;
            let id = self.get_id();
            let ghost old_expr = expr@;
            expr = Expr::Binary { id, left: Box::new(expr), operator, right: Box::new(right) };
            assert(expr@ == grammar::combine(7, id as nat, old_expr, operator@, right@));
            proof {
                lemma_fresh_join(expr_ids(old_expr), expr_ids(rv), start.next_id as nat, before.next_id as nat, id as nat);
                lemma_fresh_join(expr_ids(old_expr) + expr_ids(rv), seq![id as nat], start.next_id as nat, id as nat, (id + 1) as nat);
            }
        }
        Ok(expr)
    }

    /// factor := unary ( ("/" | "*" | power | cube | root | cubic root) unary )*
    fn factor(&mut self) -> (r: Result<Expr, String>)
        requires
            old(self).wf(),
        ensures
            r is Ok ==> final(self).current > old(self).current,
            has_message(r),
            final(self).follows(*old(self)),
            expr_result(
                r,
                grammar::level(old(self).tokens@, old(self).current as nat, old(self).st(), 8),
                *final(self),
            ),
            expr_fresh(r, old(self).next_id, final(self).next_id),
        decreases old(self).tokens@.len() - old(self).current, 5nat,
    {
        let ghost start = *old(self);
        let ghost t = self.tokens@;
        let mut expr = match self.unary() {
            Ok(e) => e,
            Err(m) => {
                return Err(m);
            },
        };
        loop
            invariant
                self.current > start.current,
                fresh_ids(expr_ids(expr@), start.next_id as nat, self.next_id as nat),
                self.follows(start),
                start == *old(self),
                t == self.tokens@,
                grammar::level(t, start.current as nat, start.st(), 8) == level_rest(
                    t,
                    self.current as nat,
                    self.st(),
                    8,
                    expr@,
                ),
            ensures
                self.current > start.current,
                fresh_ids(expr_ids(expr@), start.next_id as nat, self.next_id as nat),
                self.follows(start),
                grammar::level(t, start.current as nat, start.st(), 8) == Ok::<(SpecExpr, nat, St), (Seq<char>, St)>((expr@, self.current as nat, self.st())),
            decreases t.len() - self.current,
        {
            let ghost before = *self;
            let ops = [TokenType::Slash, TokenType::Star, TokenType::Power, TokenType::Cube, TokenType::Root, TokenType::CubicRoot];
            assert(ops@ =~= level_ops(8));
            if !self.match_tokens(&ops) {
                break;
            }
            let operator = self.previous();
            let right = match self.unary() {
                Ok(e) => e,
                Err(m) => {
                    return Err(m);
                },
            };
            let ghost rv = right@;
            let id = self.get_id();
            let ghost old_expr = expr@;
            expr = Expr::Binary { id, left: Box::new(expr), operator, right: Box::new(right) };
            assert(expr@ == grammar::combine(8, id as nat, old_expr, operator@, right@));
            proof {
                lemma_fresh_join(expr_ids(old_expr), expr_ids(rv), start.next_id as nat, before.next_id as nat, id as nat);
                lemma_fresh_join(expr_ids(old_expr) + expr_ids(rv), seq![id as nat], start.next_id as nat, id as nat, (id + 1) as nat);
            }
        }
        Ok(expr)
    }

    /// expression := assignment
    fn expression(&mut self) -> (r: Result<Expr, String>)
        requires
            old(self).wf(),
        ensures
            r is Ok ==> final(self).current > old(self).current,
            has_message(r),
            final(self).follows(*old(self)),
            expr_result(
                r,
                grammar::expression(old(self).tokens@, old(self).current as nat, old(self).st()),
                *final(self),
            ),
            expr_fresh(r, old(self).next_id, final(self).next_id),
        decreases old(self).tokens@.len() - old(self).current, 15nat,
    {
        self.assignment()
    }

    /// assignment := pipe ( "=" expression )?, where the target is a
    /// variable or a property.
    fn assignment(&mut self) -> (r: Result<Expr, String>)
        requires
            old(self).wf(),
        ensures
            r is Ok ==> final(self).current > old(self).current,
            has_message(r),
            final(self).follows(*old(self)),
            expr_result(
                r,
                grammar::assignment(old(self).tokens@, old(self).current as nat, old(self).st()),
                *final(self),
            ),
            expr_fresh(r, old(self).next_id, final(self).next_id),
        decreases old(self).tokens@.len() - old(self).current, 14nat,
    {
        let expr = match self.pipe() {
            Ok(e) => e,
            Err(m) => {
                return Err(m);
            },
        };
        let ghost mid = *self;
        if self.match_token(TokenType::Equal) {
            let value = match self.expression() {
                Ok(e) => e,
                Err(m) => {
                    return Err(m);
                },
            };
            let ghost vv = value@;
            match expr {
                Expr::Variable { id: _, name } => {
                    let id = self.get_id();
                    proof {
                        lemma_fresh_join(expr_ids(vv), seq![id as nat], mid.next_id as nat, id as nat, (id + 1) as nat);
                        lemma_fresh_widen(expr_ids(vv) + seq![id as nat], mid.next_id as nat, (id + 1) as nat, old(self).next_id as nat, (id + 1) as nat);
                    }
                    Ok(Expr::Assign { id, name, value: Box::new(value) })
                },
                Expr::Get { id: gid, object, name } => {
                    let id = self.get_id();
                    proof {
                        lemma_fresh_parts(expr_ids(object@), seq![gid as nat], old(self).next_id as nat, mid.next_id as nat);
                        lemma_fresh_join(expr_ids(object@), expr_ids(vv), old(self).next_id as nat, mid.next_id as nat, id as nat);
                        lemma_fresh_join(expr_ids(object@) + expr_ids(vv), seq![id as nat], old(self).next_id as nat, id as nat, (id + 1) as nat);
                    }
                    Ok(Expr::SetProperty { id, object, name, value: Box::new(value) })
                },
                _ => {
                    proof {
                        reveal_strlit("Invalid assignment target");
                    }
                    Err(String::from_str("Invalid assignment target"))
                },
            }
        } else {
            Ok(expr)
        }
    }

    /// unary := prefix-op unary | call
    fn unary(&mut self) -> (r: Result<Expr, String>)
        requires
            old(self).wf(),
        ensures
            r is Ok ==> final(self).current > old(self).current,
            has_message(r),
            final(self).follows(*old(self)),
            expr_result(
                r,
                grammar::unary(old(self).tokens@, old(self).current as nat, old(self).st()),
                *final(self),
            ),
            expr_fresh(r, old(self).next_id, final(self).next_id),
        decreases old(self).tokens@.len() - old(self).current, 4nat,
    {
        let ops = [
            TokenType::Bang,
            TokenType::Minus,
            TokenType::Increment,
            TokenType::Decrement,
            TokenType::Percent,
            TokenType::Power2,
            TokenType::Root2,
        ];
        assert(ops@ =~= unary_ops());
        if self.match_tokens(&ops) {
            let operator = self.previous();
            let right = match self.unary() {
                Ok(e) => e,
                Err(m) => {
                    return Err(m);
                },
            };
            let id = self.get_id();
            proof {
                lemma_fresh_join(expr_ids(right@), seq![id as nat], old(self).next_id as nat, id as nat, (id + 1) as nat);
            }
            Ok(Expr::Unary { id, operator, right: Box::new(right) })
        } else {
            self.call()
        }
    }

    /// call := primary ( "." IDENT )? ( "(" arguments ")" | "." IDENT )*
    #[verifier::rlimit(100)]
    #[verifier::spinoff_prover]
    fn call(&mut self) -> (r: Result<Expr, String>)
        requires
            old(self).wf(),
        ensures
            r is Ok ==> final(self).current > old(self).current,
            has_message(r),
            final(self).follows(*old(self)),
            expr_result(
                r,
                grammar::call(old(self).tokens@, old(self).current as nat, old(self).st()),
                *final(self),
            ),
            expr_fresh(r, old(self).next_id, final(self).next_id),
        decreases old(self).tokens@.len() - old(self).current, 3nat,
    {
        let ghost start = *old(self);
        let ghost t = self.tokens@;
        let mut expr = match self.primary() {
            Ok(e) => e,
            Err(m) => {
                return Err(m);
            },
        };
        if self.match_token(TokenType::Dot) {
            let name = match self.consume(TokenType::Identifier, "Expected token after dot-accessor") {
                Ok(t) => t,
                Err(m) => {
                    return Err(m);
                },
            };
            let id = self.get_id();
            proof {
                lemma_fresh_join(expr_ids(expr@), seq![id as nat], old(self).next_id as nat, id as nat, (id + 1) as nat);
            }
            expr = Expr::Get { id, object: Box::new(expr), name };
        }
        loop
            invariant
                self.current > start.current,
                fresh_ids(expr_ids(expr@), start.next_id as nat, self.next_id as nat),
                self.follows(start),
                start == *old(self),
                t == self.tokens@,
                grammar::call(t, start.current as nat, start.st()) == call_rest(
                    t,
                    self.current as nat,
                    self.st(),
                    expr@,
                ),
            ensures
                self.current > start.current,
                fresh_ids(expr_ids(expr@), start.next_id as nat, self.next_id as nat),
                self.follows(start),
                grammar::call(t, start.current as nat, start.st()) == Ok::<(SpecExpr, nat, St), (Seq<char>, St)>((expr@, self.current as nat, self.st())),
            decreases t.len() - self.current,
        {
            let ghost ev = expr@;
            let ghost s0 = *self;
            if self.match_token(TokenType::LeftParen) {
                let ghost b = self.next_id;
                let ghost s1 = *self;
                proof {
                    Self::lemma_follows_take(s0, s1, true);
                    Self::lemma_follows_trans(start, s0, s1);
                }
                expr = match self.finish_call(expr) {
                    Ok(e) => e,
                    Err(m) => {
                        return Err(m);
                    },
                };
                proof {
                    Self::lemma_follows_trans(start, s1, *self);
                    lemma_call_ids(ev, expr@, start.next_id as nat, b as nat, self.next_id as nat);
                }
            } else if self.match_token(TokenType::Dot) {
                let ghost s1 = *self;
                proof {
                    Self::lemma_follows_take(s0, s1, true);
                    Self::lemma_follows_trans(start, s0, s1);
                }
                let name = match self.consume(
                    TokenType::Identifier,
                    "Expected token after dot-accessor",
                ) {
                    Ok(t) => t,
                    Err(m) => {
                        proof {
                            Self::lemma_follows_take(s1, *self, false);
                            Self::lemma_follows_trans(start, s1, *self);
                        }
                        return Err(m);
                    },
                };
                let ghost s2 = *self;
                proof {
                    Self::lemma_follows_take(s1, s2, true);
                    Self::lemma_follows_trans(start, s1, s2);
                }
                let id = self.get_id();
                proof {
                    lemma_fresh_join(expr_ids(expr@), seq![id as nat], start.next_id as nat, id as nat, (id + 1) as nat);
                }
                expr = Expr::Get { id, object: Box::new(expr), name };
            } else {
                break;
            }
        }
        Ok(expr)
    }

    /// The arguments of a call of `callee` and its closing parenthesis.
    #[verifier::rlimit(100)]
    #[verifier::spinoff_prover]
    fn finish_call(&mut self, callee: Expr) -> (r: Result<Expr, String>)
        requires
            old(self).wf(),
        ensures
            r is Ok ==> final(self).current > old(self).current,
            has_message(r),
            final(self).follows(*old(self)),
            expr_result(
                r,
                grammar::finish_call(
                    old(self).tokens@,
                    old(self).current as nat,
                    old(self).st(),
                    callee@,
                ),
                *final(self),
            ),
            r matches Ok(e) ==> e@ matches SpecExpr::Call { id, callee: c, paren: _, arguments }
                && *c == callee@ && fresh_ids(exprs_ids(arguments), old(self).next_id as nat, id)
                && final(self).next_id == id + 1 && old(self).next_id <= id,
        decreases old(self).tokens@.len() - old(self).current, 17nat,
    {
        let ghost start = *old(self);
        let ghost t = self.tokens@;
        let mut arguments: Vec<Expr> = Vec::new();
        proof {
            lemma_fresh_empty(start.next_id as nat, start.next_id as nat);
        }
        if !self.check(TokenType::RightParen) {
            loop
                invariant_except_break
                    grammar::arguments(t, start.current as nat, start.st(), Seq::empty())
                        == grammar::arguments(
                        t,
                        self.current as nat,
                        self.st(),
                        crate::ast::exprs_view(arguments@),
                    ),
                invariant
                    fresh_ids(exprs_ids(crate::ast::exprs_view(arguments@)), start.next_id as nat, self.next_id as nat),
                    self.follows(start),
                    start == *old(self),
                    t == self.tokens@,
                    kind(t, start.current as nat) != TokenType::RightParen,
                ensures
                    fresh_ids(exprs_ids(crate::ast::exprs_view(arguments@)), start.next_id as nat, self.next_id as nat),
                    self.follows(start),
                    grammar::arguments(t, start.current as nat, start.st(), Seq::empty())
                        == Ok::<(Seq<SpecExpr>, nat, St), (Seq<char>, St)>(
                        (crate::ast::exprs_view(arguments@), self.current as nat, self.st()),
                    ),
                decreases t.len() - self.current,
            {
                let ghost before = *self;
                let arg = match self.expression() {
                    Ok(e) => e,
                    Err(m) => {
                        assert(grammar::arguments(
                            t,
                            before.current as nat,
                            before.st(),
                            crate::ast::exprs_view(arguments@),
                        ) == Err::<(Seq<SpecExpr>, nat, St), (Seq<char>, St)>((m@, self.st())));
                        return Err(m);
                    },
                };
                proof {
                    lemma_exprs_push(arguments@, arg);
                    lemma_exprs_len(arguments@);
                    lemma_exprs_ids_push(crate::ast::exprs_view(arguments@), arg@);
                    lemma_fresh_join(
                        exprs_ids(crate::ast::exprs_view(arguments@)),
                        expr_ids(arg@),
                        start.next_id as nat,
                        before.next_id as nat,
                        self.next_id as nat,
                    );
                }
                arguments.push(arg);
                if arguments.len() >= 255 {
                    let location = self.peek().line_number;
                    let report = too_many_args_message(location);
                    let ghost log = self.reports@;
                    self.reports.push(report);
                    assert(reports_view(self.reports@) =~= reports_view(log).push(report@));
                } else if !self.match_token(TokenType::Comma) {
                    break;
                }
            }
        }
        let paren = match self.consume(TokenType::RightParen, "Expected ')' after arguments.") {
            Ok(t) => t,
            Err(m) => {
                return Err(m);
            },
        };
        let id = self.get_id();
        Ok(Expr::Call { id, callee: Box::new(callee), paren, arguments })
    }

    /// array := "[" ( expression ( "," expression )* )? "]"
    #[verifier::rlimit(40)]
    fn parse_array(&mut self) -> (r: Result<Expr, String>)
        requires
            old(self).wf(),
            !at_end(old(self).tokens@, old(self).current as nat),
        ensures
            r is Ok ==> final(self).current > old(self).current,
            has_message(r),
            final(self).follows(*old(self)),
            expr_result(
                r,
                grammar::array(old(self).tokens@, old(self).current as nat, old(self).st()),
                *final(self),
            ),
            expr_fresh(r, old(self).next_id, final(self).next_id),
        decreases old(self).tokens@.len() - old(self).current, 1nat,
    {
        let ghost start = *old(self);
        let ghost t = self.tokens@;
        let mut elements: Vec<Box<Expr>> = Vec::new();
        let array_id = self.get_id();
        self.advance();
        loop
            invariant_except_break
                grammar::elements(t, (start.current + 1) as nat, start.st().bump(), Seq::empty())
                    == grammar::elements(
                    t,
                    self.current as nat,
                    self.st(),
                    crate::ast::boxed_exprs_view(elements@),
                ),
            invariant
                fresh_ids(
                    exprs_ids(crate::ast::boxed_exprs_view(elements@)),
                    (start.next_id + 1) as nat,
                    self.next_id as nat,
                ),
                self.next_id > start.next_id,
                self.follows(start),
                start == *old(self),
                t == self.tokens@,
                self.current > start.current,
            ensures
                fresh_ids(
                    exprs_ids(crate::ast::boxed_exprs_view(elements@)),
                    (start.next_id + 1) as nat,
                    self.next_id as nat,
                ),
                self.next_id > start.next_id,
                self.follows(start),
                grammar::elements(t, (start.current + 1) as nat, start.st().bump(), Seq::empty()) == Ok::<(Seq<SpecExpr>, nat, St), (Seq<char>, St)>((crate::ast::boxed_exprs_view(elements@), self.current as nat, self.st())),
            decreases t.len() - self.current,
        {
            if self.check(TokenType::RightBracket) || self.is_at_end() {
                break;
            }
            let ghost before = *self;
            let element = match self.expression() {
                Ok(e) => e,
                Err(m) => {
                    return Err(m);
                },
            };
            proof {
                lemma_boxed_exprs_push(elements@, Box::new(element));
                lemma_exprs_ids_push(crate::ast::boxed_exprs_view(elements@), element@);
                lemma_fresh_join(
                    exprs_ids(crate::ast::boxed_exprs_view(elements@)),
                    expr_ids(element@),
                    (start.next_id + 1) as nat,
                    before.next_id as nat,
                    self.next_id as nat,
                );
            }
            elements.push(Box::new(element));
            if !self.match_token(TokenType::Comma) {
                break;
            }
        }
        match self.consume(TokenType::RightBracket, "Expect ']' after array elements.") {
            Ok(_) => {},
            Err(m) => {
                return Err(m);
            },
        }
        proof {
            lemma_fresh_join(
                seq![array_id as nat],
                exprs_ids(crate::ast::boxed_exprs_view(elements@)),
                array_id as nat,
                (array_id + 1) as nat,
                self.next_id as nat,
            );
        }
        Ok(Expr::Array { id: array_id, elements })
    }

    /// primary := "(" expression ")" | literal | array | IDENT ( "[" expression "]" )?
    #[verifier::rlimit(40)]
    fn primary(&mut self) -> (r: Result<Expr, String>)
        requires
            old(self).wf(),
        ensures
            r is Ok ==> final(self).current > old(self).current,
            has_message(r),
            final(self).follows(*old(self)),
            expr_result(
                r,
                grammar::primary(old(self).tokens@, old(self).current as nat, old(self).st()),
                *final(self),
            ),
            expr_fresh(r, old(self).next_id, final(self).next_id),
        decreases old(self).tokens@.len() - old(self).current, 2nat,
    {
        let token = self.peek();
        match token.token_type {
            TokenType::LeftParen => {
                self.advance();
                let expr = match self.expression() {
                    Ok(e) => e,
                    Err(m) => {
                        return Err(m);
                    },
                };
                match self.consume(TokenType::RightParen, "Expected ')' after expression") {
                    Ok(_) => {},
                    Err(m) => {
                        return Err(m);
                    },
                }
                let id = self.get_id();
                proof {
                    lemma_fresh_join(expr_ids(expr@), seq![id as nat], old(self).next_id as nat, id as nat, (id + 1) as nat);
                }
                Ok(Expr::Grouping { id, expression: Box::new(expr) })
            },
            TokenType::False | TokenType::True | TokenType::Nil | TokenType::Number
            | TokenType::StringLit => {
                self.advance();
                let id = self.get_id();
                Ok(Expr::Literal { id, value: LiteralValue::from_token(token) })
            },
            TokenType::LeftBracket => self.parse_array(),
            TokenType::Identifier => {
                self.advance();
                let id = self.get_id();
                let mut expr = Expr::Variable { id, name: self.previous() };
                if self.match_token(TokenType::LeftBracket) {
                    let index = match self.expression() {
                        Ok(e) => e,
                        Err(m) => {
                            return Err(m);
                        },
                    };
                    match self.consume(TokenType::RightBracket, "Expected ']' after index") {
                        Ok(_) => {},
                        Err(m) => {
                            return Err(m);
                        },
                    }
                    let id2 = self.get_id();
                    let ghost var_view = expr@;
                    let ghost index_view = index@;
                    let mut elements: Vec<Box<Expr>> = Vec::new();
                    proof {
                        lemma_boxed_exprs_push(elements@, Box::new(expr));
                    }
                    elements.push(Box::new(expr));
                    proof {
                        lemma_boxed_exprs_push(elements@, Box::new(index));
                    }
                    elements.push(Box::new(index));
                    assert(crate::ast::boxed_exprs_view(elements@) =~= seq![var_view, index_view]);
                    proof {
                        assert(seq![var_view, index_view] =~= Seq::empty().push(var_view).push(index_view));
                        lemma_exprs_ids_push(Seq::empty(), var_view);
                        lemma_exprs_ids_push(Seq::empty().push(var_view), index_view);
                        assert(exprs_ids(Seq::empty()) =~= Seq::<nat>::empty());
                        assert(Seq::<nat>::empty() + expr_ids(var_view) =~= expr_ids(var_view));
                        lemma_fresh_join(expr_ids(var_view), expr_ids(index_view), id as nat, (id + 1) as nat, id2 as nat);
                        lemma_fresh_join(expr_ids(var_view) + expr_ids(index_view), seq![id2 as nat], id as nat, id2 as nat, (id2 + 1) as nat);
                    }
                    expr = Expr::Array { id: id2, elements };
                }
                Ok(expr)
            },
            _ => Err(unexpected_message(token.token_type)),
        }
    }

    /// expression-statement := expression ";"
    fn expression_statement(&mut self) -> (r: Result<Stmt, String>)
        requires
            old(self).wf(),
        ensures
            has_message(r),
            final(self).follows(*old(self)),
            r is Ok ==> final(self).current > old(self).current,
            stmt_fresh(r, old(self).next_id, final(self).next_id),
            stmt_result(
                r,
                grammar::expression_statement(old(self).tokens@, old(self).current as nat, old(self).st()),
                *final(self),
            ),
        decreases old(self).tokens@.len() - old(self).current, 17nat,
    {
        let expr = match self.expression() {
            Ok(v) => v,
            Err(m) => {
                return Err(m);
            },
        };
        match self.consume(TokenType::Semicolon, "Expected ';' after expression.") {
            Ok(_) => {},
            Err(m) => {
                return Err(m);
            },
        }
        Ok(Stmt::Expression { expression: expr })
    }

    /// print := "print" expression ";", after its keyword
    fn print_statement(&mut self) -> (r: Result<Stmt, String>)
        requires
            old(self).wf(),
        ensures
            has_message(r),
            final(self).follows(*old(self)),
            r is Ok ==> final(self).current > old(self).current,
            stmt_fresh(r, old(self).next_id, final(self).next_id),
            match r {
                Ok(s) => grammar::terminated(
                    old(self).tokens@,
                    old(self).current as nat,
                    old(self).st(),
                    "Expected ';' after value."@,
                ) matches Ok((e, p, i)) && s@ == SpecStmt::Print { expression: e }
                    && p == final(self).current && i == final(self).st(),
                Err(m) => grammar::terminated(
                    old(self).tokens@,
                    old(self).current as nat,
                    old(self).st(),
                    "Expected ';' after value."@,
                ) == Err::<(SpecExpr, nat, St), (Seq<char>, St)>((m@, final(self).st())),
            },
        decreases old(self).tokens@.len() - old(self).current, 17nat,
    {
        let value = match self.expression() {
            Ok(v) => v,
            Err(m) => {
                return Err(m);
            },
        };
        match self.consume(TokenType::Semicolon, "Expected ';' after value.") {
            Ok(_) => {},
            Err(m) => {
                return Err(m);
            },
        }
        Ok(Stmt::Print { expression: value })
    }

    /// errors := "errors" expression ";", after its keyword
    fn error_statement(&mut self) -> (r: Result<Stmt, String>)
        requires
            old(self).wf(),
        ensures
            has_message(r),
            final(self).follows(*old(self)),
            r is Ok ==> final(self).current > old(self).current,
            stmt_fresh(r, old(self).next_id, final(self).next_id),
            match r {
                Ok(s) => grammar::terminated(
                    old(self).tokens@,
                    old(self).current as nat,
                    old(self).st(),
                    "Expected ';' after value."@,
                ) matches Ok((e, p, i)) && s@ == SpecStmt::Errors { expression: e }
                    && p == final(self).current && i == final(self).st(),
                Err(m) => grammar::terminated(
                    old(self).tokens@,
                    old(self).current as nat,
                    old(self).st(),
                    "Expected ';' after value."@,
                ) == Err::<(SpecExpr, nat, St), (Seq<char>, St)>((m@, final(self).st())),
            },
        decreases old(self).tokens@.len() - old(self).current, 17nat,
    {
        let value = match self.expression() {
            Ok(v) => v,
            Err(m) => {
                return Err(m);
            },
        };
        match self.consume(TokenType::Semicolon, "Expected ';' after value.") {
            Ok(_) => {},
            Err(m) => {
                return Err(m);
            },
        }
        Ok(Stmt::Errors { expression: value })
    }

    /// import := "import" expression ";", after its keyword
    fn import_statement(&mut self) -> (r: Result<Stmt, String>)
        requires
            old(self).wf(),
        ensures
            has_message(r),
            final(self).follows(*old(self)),
            r is Ok ==> final(self).current > old(self).current,
            stmt_fresh(r, old(self).next_id, final(self).next_id),
            match r {
                Ok(s) => grammar::terminated(
                    old(self).tokens@,
                    old(self).current as nat,
                    old(self).st(),
                    "Expected ';' after value."@,
                ) matches Ok((e, p, i)) && s@ == SpecStmt::Import { expression: e }
                    && p == final(self).current && i == final(self).st(),
                Err(m) => grammar::terminated(
                    old(self).tokens@,
                    old(self).current as nat,
                    old(self).st(),
                    "Expected ';' after value."@,
                ) == Err::<(SpecExpr, nat, St), (Seq<char>, St)>((m@, final(self).st())),
            },
        decreases old(self).tokens@.len() - old(self).current, 17nat,
    {
        let value = match self.expression() {
            Ok(v) => v,
            Err(m) => {
                return Err(m);
            },
        };
        match self.consume(TokenType::Semicolon, "Expected ';' after value.") {
            Ok(_) => {},
            Err(m) => {
                return Err(m);
            },
        }
        Ok(Stmt::Import { expression: value })
    }

    /// exits := "exits" ";", after its keyword
    fn exits_statement(&mut self) -> (r: Result<Stmt, String>)
        requires
            old(self).wf(),
        ensures
            has_message(r),
            final(self).follows(*old(self)),
            r is Ok ==> final(self).current > old(self).current,
            stmt_fresh(r, old(self).next_id, final(self).next_id),
            match r {
                Ok(s) => expect(
                    old(self).tokens@,
                    old(self).current as nat,
                    TokenType::Semicolon,
                    "Expected ';' after value."@,
                    old(self).st(),
                ) matches Ok((_, p)) && s@ == SpecStmt::Exits && p == final(self).current
                    && final(self).st() == old(self).st(),
                Err(m) => expect(
                    old(self).tokens@,
                    old(self).current as nat,
                    TokenType::Semicolon,
                    "Expected ';' after value."@,
                    old(self).st(),
                ) == Err::<(crate::token::TokenView, nat), (Seq<char>, St)>((m@, old(self).st()))
                    && final(self).st() == old(self).st(),
            },
    {
        match self.consume(TokenType::Semicolon, "Expected ';' after value.") {
            Ok(_) => {},
            Err(m) => {
                return Err(m);
            },
        }
        Ok(Stmt::Exits {})
    }

    /// break := "break" ";", after its keyword
    fn break_statement(&mut self) -> (r: Result<Stmt, String>)
        requires
            old(self).wf(),
            old(self).current > 0,
        ensures
            has_message(r),
            final(self).follows(*old(self)),
            r is Ok ==> final(self).current > old(self).current,
            stmt_fresh(r, old(self).next_id, final(self).next_id),
            match r {
                Ok(s) => expect(
                    old(self).tokens@,
                    old(self).current as nat,
                    TokenType::Semicolon,
                    "Expected Semicolon after return value"@,
                    old(self).st(),
                ) matches Ok((_, p)) && s@ == SpecStmt::BreakStmt {
                    keyword: old(self).tokens@[old(self).current - 1]@,
                } && p == final(self).current && final(self).st() == old(self).st(),
                Err(m) => expect(
                    old(self).tokens@,
                    old(self).current as nat,
                    TokenType::Semicolon,
                    "Expected Semicolon after return value"@,
                    old(self).st(),
                ) == Err::<(crate::token::TokenView, nat), (Seq<char>, St)>((m@, old(self).st()))
                    && final(self).st() == old(self).st(),
            },
    {
        let keyword = self.previous();
        match self.consume(TokenType::Semicolon, "Expected Semicolon after return value") {
            Ok(_) => {},
            Err(m) => {
                return Err(m);
            },
        }
        Ok(Stmt::BreakStmt { keyword })
    }

    /// return := "return" expression? ";", after its keyword
    fn return_statement(&mut self) -> (r: Result<Stmt, String>)
        requires
            old(self).wf(),
            old(self).current > 0,
        ensures
            has_message(r),
            final(self).follows(*old(self)),
            r is Ok ==> final(self).current > old(self).current,
            stmt_fresh(r, old(self).next_id, final(self).next_id),
            stmt_result(
                r,
                grammar::return_statement(
                    old(self).tokens@,
                    old(self).current as nat,
                    old(self).st(),
                    old(self).tokens@[old(self).current - 1]@,
                ),
                *final(self),
            ),
        decreases old(self).tokens@.len() - old(self).current, 17nat,
    {
        let keyword = self.previous();
        let value;
        if !self.check(TokenType::Semicolon) {
            let v = match self.expression() {
                Ok(v) => v,
                Err(m) => {
                    return Err(m);
                },
            };
            value = Some(v);
        } else {
            value = None;
        }
        match self.consume(TokenType::Semicolon, "Expected ';' after return value;") {
            Ok(_) => {},
            Err(m) => {
                return Err(m);
            },
        }
        Ok(Stmt::ReturnStmt { keyword, value })
    }

    /// var := "var" IDENT ( ":" IDENT )? ( "=" expression )? ";", after its keyword
    fn var_declaration(&mut self) -> (r: Result<Stmt, String>)
        requires
            old(self).wf(),
        ensures
            has_message(r),
            final(self).follows(*old(self)),
            r is Ok ==> final(self).current > old(self).current,
            stmt_fresh(r, old(self).next_id, final(self).next_id),
            stmt_result(
                r,
                grammar::var_declaration(old(self).tokens@, old(self).current as nat, old(self).st()),
                *final(self),
            ),
        decreases old(self).tokens@.len() - old(self).current, 17nat,
    {
        let name = match self.consume(TokenType::Identifier, "Expected variable name") {
            Ok(t) => t,
            Err(m) => {
                return Err(m);
            },
        };
        let type_annotation = if self.match_token(TokenType::Colon) {
            match self.consume(TokenType::Identifier, "Expected type after ':'") {
                Ok(t) => Some(t),
                Err(m) => {
                    return Err(m);
                },
            }
        } else {
            None
        };
        let initializer = if self.match_token(TokenType::Equal) {
            match self.expression() {
                Ok(e) => e,
                Err(m) => {
                    return Err(m);
                },
            }
        } else {
            let id = self.get_id();
            Expr::Literal { id, value: LiteralValue::Nil }
        };
        match self.consume(TokenType::Semicolon, "Expected ';' after variable declaration") {
            Ok(_) => {},
            Err(m) => {
                return Err(m);
            },
        }
        Ok(Stmt::Var { name, type_annotation, initializer })
    }

    /// block := declaration* "end", after its "start"
    fn block_statement(&mut self) -> (r: Result<Stmt, String>)
        requires
            old(self).wf(),
        ensures
            has_message(r),
            final(self).follows(*old(self)),
            r is Ok ==> final(self).current > old(self).current,
            stmt_fresh(r, old(self).next_id, final(self).next_id),
            match r {
                Ok(s) => grammar::block(
                    old(self).tokens@,
                    old(self).current as nat,
                    old(self).st(),
                ) matches Ok((stmts, p, i)) && s@ == SpecStmt::Block { statements: stmts }
                    && s is Block && p == final(self).current && i == final(self).st(),
                Err(m) => grammar::block(
                    old(self).tokens@,
                    old(self).current as nat,
                    old(self).st(),
                ) == Err::<(Seq<SpecStmt>, nat, St), (Seq<char>, St)>((m@, final(self).st())),
            },
        decreases old(self).tokens@.len() - old(self).current, 24nat,
    {
        let ghost start = *old(self);
        let ghost t = self.tokens@;
        let mut statements: Vec<Box<Stmt>> = Vec::new();
        loop
            invariant_except_break
                grammar::declarations(t, start.current as nat, start.st(), Seq::empty())
                    == grammar::declarations(
                    t,
                    self.current as nat,
                    self.st(),
                    crate::ast::boxed_stmts_view(statements@),
                ),
            invariant
                fresh_ids(
                    stmts_ids(crate::ast::boxed_stmts_view(statements@)),
                    start.next_id as nat,
                    self.next_id as nat,
                ),
                self.follows(start),
                start == *old(self),
                t == self.tokens@,
            ensures
                fresh_ids(
                    stmts_ids(crate::ast::boxed_stmts_view(statements@)),
                    start.next_id as nat,
                    self.next_id as nat,
                ),
                grammar::declarations(t, start.current as nat, start.st(), Seq::empty())
                    == Ok::<(Seq<SpecStmt>, nat, St), (Seq<char>, St)>(
                    (crate::ast::boxed_stmts_view(statements@), self.current as nat, self.st()),
                ),
            decreases t.len() - self.current,
        {
            if self.check(TokenType::End) || self.is_at_end() {
                break;
            }
            let ghost before = *self;
            let decl = match self.declaration() {
                Ok(d) => d,
                Err(m) => {
                    assert(grammar::declarations(
                        t,
                        before.current as nat,
                        before.st(),
                        crate::ast::boxed_stmts_view(statements@),
                    ) == Err::<(Seq<SpecStmt>, nat, St), (Seq<char>, St)>((m@, self.st())));
                    return Err(m);
                },
            };
            proof {
                lemma_boxed_stmts_push(statements@, Box::new(decl));
                lemma_stmts_ids_push(crate::ast::boxed_stmts_view(statements@), decl@);
                lemma_fresh_join(
                    stmts_ids(crate::ast::boxed_stmts_view(statements@)),
                    stmt_ids(decl@),
                    start.next_id as nat,
                    before.next_id as nat,
                    self.next_id as nat,
                );
            }
            statements.push(Box::new(decl));
        }
        match self.consume(TokenType::End, "Expected 'end' after a block") {
            Ok(_) => {},
            Err(m) => {
                return Err(m);
            },
        }
        Ok(Stmt::Block { statements })
    }

    /// function := "fun" IDENT "(" parameters? ")" ( ":" expression ";" | "start" block ),
    /// after its keyword
    #[verifier::rlimit(60)]
    fn function(&mut self, kind: FunctionKind) -> (r: Result<Stmt, String>)
        requires
            old(self).wf(),
        ensures
            has_message(r),
            final(self).follows(*old(self)),
            r is Ok ==> final(self).current > old(self).current,
            stmt_fresh(r, old(self).next_id, final(self).next_id),
            stmt_result(
                r,
                grammar::function(old(self).tokens@, old(self).current as nat, old(self).st()),
                *final(self),
            ),
        decreases old(self).tokens@.len() - old(self).current, 25nat,
    {
        let ghost start = *old(self);
        let ghost t = self.tokens@;
        let name_msg = kind_message("Expected ", &kind, " name");
        let name = match self.consume(TokenType::Identifier, name_msg.as_str()) {
            Ok(t) => t,
            Err(m) => {
                return Err(m);
            },
        };
        let paren_msg = kind_message("Expected '(' after ", &kind, " name");
        match self.consume(TokenType::LeftParen, paren_msg.as_str()) {
            Ok(_) => {},
            Err(m) => {
                return Err(m);
            },
        }
        let ghost p2 = self.current;
        let ghost s2 = self.st();
        let mut parameters: Vec<(Token, Option<Token>)> = Vec::new();
        let mut failure: Option<String> = None;
        assert(crate::ast::params_view(parameters@) =~= Seq::empty());
        if !self.check(TokenType::RightParen) {
            loop
                invariant_except_break
                    grammar::parameters(t, p2 as nat, s2, Seq::empty()) == grammar::parameters(
                        t,
                        self.current as nat,
                        self.st(),
                        crate::ast::params_view(parameters@),
                    ),
                    failure is None,
                invariant
                    self.follows(start),
                    start == *old(self),
                    t == self.tokens@,
                    self.current >= p2,
                    self.next_id == start.next_id,
                    p2 > start.current,
                ensures
                    failure matches Some(m) ==> m@.len() > 0,
                    match failure {
                        Some(m) => grammar::parameters(t, p2 as nat, s2, Seq::empty()) == Err::<
                            (Seq<(crate::token::TokenView, Option<crate::token::TokenView>)>, nat, St),
                            (Seq<char>, St),
                        >((m@, self.st())),
                        None => grammar::parameters(t, p2 as nat, s2, Seq::empty()) == Ok::<
                            (Seq<(crate::token::TokenView, Option<crate::token::TokenView>)>, nat, St),
                            (Seq<char>, St),
                        >((crate::ast::params_view(parameters@), self.current as nat, self.st())),
                    },
                decreases t.len() - self.current,
            {
                if parameters.len() >= 255 {
                    let location = self.peek().line_number;
                    let report = too_many_params_message(location);
                    let ghost log = self.reports@;
                    self.reports.push(report);
                    assert(reports_view(self.reports@) =~= reports_view(log).push(report@));
                }
                let param_name = match self.consume(TokenType::Identifier, "Expected parameter name") {
                    Ok(t) => t,
                    Err(m) => {
                        failure = Some(m);
                        break;
                    },
                };
                let param_type = if self.match_token(TokenType::Colon) {
                    match self.consume(TokenType::Identifier, "Expected type after ':'") {
                        Ok(t) => Some(t),
                        Err(m) => {
                            failure = Some(m);
                            break;
                        },
                    }
                } else {
                    None
                };
                proof {
                    lemma_params_push(parameters@, (param_name, param_type));
                }
                parameters.push((param_name, param_type));
                if !self.match_token(TokenType::Comma) {
                    break;
                }
            }
        }
        if let Some(m) = failure {
            return Err(m);
        }
        match self.consume(TokenType::RightParen, "Expected ')' after parameters.") {
            Ok(_) => {},
            Err(m) => {
                return Err(m);
            },
        }
        if self.match_token(TokenType::Colon) {
            let ghost body_start = self.next_id;
            let body_expr = match self.expression() {
                Ok(e) => e,
                Err(m) => {
                    return Err(m);
                },
            };
            match self.consume(TokenType::Semicolon, "Expected ';' after function body expression.") {
                Ok(_) => {},
                Err(m) => {
                    return Err(m);
                },
            }
            let keyword = Token {
                token_type: TokenType::Return,
                lexeme: String::new(),
                line_number: 0,
                literal: None,
            };
            let ret = Stmt::ReturnStmt { keyword, value: Some(body_expr) };
            let ghost ret_view = ret@;
            let mut body: Vec<Box<Stmt>> = Vec::new();
            proof {
                lemma_boxed_stmts_push(body@, Box::new(ret));
            }
            body.push(Box::new(ret));
            assert(crate::ast::boxed_stmts_view(body@) =~= seq![ret_view]);
            proof {
                assert(seq![ret_view] =~= Seq::empty().push(ret_view));
                lemma_stmts_ids_push(Seq::empty(), ret_view);
                assert(Seq::<nat>::empty() + stmt_ids(ret_view) =~= stmt_ids(ret_view));
                assert(stmts_ids(seq![ret_view]) == stmt_ids(ret_view));
                lemma_fresh_widen(stmt_ids(ret_view), body_start as nat, self.next_id as nat, start.next_id as nat, self.next_id as nat);
            }
            Ok(Stmt::Function { name, params: parameters, body })
        } else {
            let start_msg = kind_message("Expected 'start' before ", &kind, " body.");
            match self.consume(TokenType::Start, start_msg.as_str()) {
                Ok(_) => {},
                Err(m) => {
                    return Err(m);
                },
            }
            let ghost block_start = self.next_id;
            let block = match self.block_statement() {
                Ok(b) => b,
                Err(m) => {
                    return Err(m);
                },
            };
            proof {
                lemma_fresh_widen(stmt_ids(block@), block_start as nat, self.next_id as nat, start.next_id as nat, self.next_id as nat);
            }
            match block {
                Stmt::Block { statements } => Ok(Stmt::Function { name, params: parameters, body: statements }),
                _ => Err(String::new()),
            }
        }
    }

    /// if := "if" expression statement ( "elif" expression statement )* ( "else" statement )?,
    /// after its keyword
    #[verifier::rlimit(60)]
    fn if_statement(&mut self) -> (r: Result<Stmt, String>)
        requires
            old(self).wf(),
        ensures
            has_message(r),
            final(self).follows(*old(self)),
            r is Ok ==> final(self).current > old(self).current,
            stmt_fresh(r, old(self).next_id, final(self).next_id),
            stmt_result(
                r,
                grammar::if_statement(old(self).tokens@, old(self).current as nat, old(self).st()),
                *final(self),
            ),
        decreases old(self).tokens@.len() - old(self).current, 21nat,
    {
        let ghost start = *old(self);
        let ghost t = self.tokens@;
        let predicate = match self.expression() {
            Ok(e) => e,
            Err(m) => {
                return Err(m);
            },
        };
        let ghost pred_end = self.next_id;
        let then = match self.statement() {
            Ok(s) => Box::new(s),
            Err(m) => {
                return Err(m);
            },
        };
        let ghost mid = *self;
        let mut elif_branches: Vec<(Expr, Box<Stmt>)> = Vec::new();
        let mut failure: Option<String> = None;
        loop
            invariant_except_break
                grammar::elif_branches(t, mid.current as nat, mid.st(), Seq::empty())
                    == grammar::elif_branches(
                    t,
                    self.current as nat,
                    self.st(),
                    crate::ast::branches_view(elif_branches@),
                ),
                failure is None,
            invariant
                fresh_ids(
                    branches_ids(crate::ast::branches_view(elif_branches@)),
                    mid.next_id as nat,
                    self.next_id as nat,
                ),
                self.follows(start),
                self.follows(mid),
                start == *old(self),
                mid.current > start.current,
                t == self.tokens@,
            ensures
                fresh_ids(
                    branches_ids(crate::ast::branches_view(elif_branches@)),
                    mid.next_id as nat,
                    self.next_id as nat,
                ),
                failure matches Some(m) ==> m@.len() > 0,
                match failure {
                    Some(m) => grammar::elif_branches(t, mid.current as nat, mid.st(), Seq::empty())
                        == Err::<(Seq<(SpecExpr, SpecStmt)>, nat, St), (Seq<char>, St)>((m@, self.st())),
                    None => grammar::elif_branches(t, mid.current as nat, mid.st(), Seq::empty())
                        == Ok::<(Seq<(SpecExpr, SpecStmt)>, nat, St), (Seq<char>, St)>(
                        (crate::ast::branches_view(elif_branches@), self.current as nat, self.st()),
                    ),
                },
            decreases t.len() - self.current,
        {
            let ghost before = *self;
            if !self.match_token(TokenType::Elif) {
                break;
            }
            let elif_predicate = match self.expression() {
                Ok(e) => e,
                Err(m) => {
                    failure = Some(m);
                    break;
                },
            };
            let ghost pred_end = self.next_id;
            let elif_stmt = match self.statement() {
                Ok(s) => Box::new(s),
                Err(m) => {
                    failure = Some(m);
                    break;
                },
            };
            proof {
                lemma_branches_push(elif_branches@, (elif_predicate, elif_stmt));
                let bv = crate::ast::branches_view(elif_branches@);
                lemma_branches_ids_push(bv, (elif_predicate@, elif_stmt@));
                lemma_fresh_join(
                    branches_ids(bv),
                    expr_ids(elif_predicate@),
                    mid.next_id as nat,
                    before.next_id as nat,
                    pred_end as nat,
                );
                lemma_fresh_join(
                    branches_ids(bv) + expr_ids(elif_predicate@),
                    stmt_ids(elif_stmt@),
                    mid.next_id as nat,
                    pred_end as nat,
                    self.next_id as nat,
                );
            }
            elif_branches.push((elif_predicate, elif_stmt));
        }
        if let Some(m) = failure {
            return Err(m);
        }
        let ghost branches_end = self.next_id;
        proof {
            lemma_fresh_join(expr_ids(predicate@), stmt_ids(then@), start.next_id as nat, pred_end as nat, mid.next_id as nat);
            lemma_fresh_join(
                expr_ids(predicate@) + stmt_ids(then@),
                branches_ids(crate::ast::branches_view(elif_branches@)),
                start.next_id as nat,
                mid.next_id as nat,
                branches_end as nat,
            );
        }
        let els = if self.match_token(TokenType::Else) {
            match self.statement() {
                Ok(s) => Some(Box::new(s)),
                Err(m) => {
                    return Err(m);
                },
            }
        } else {
            None
        };
        let ghost head = expr_ids(predicate@) + stmt_ids(then@) + branches_ids(
            crate::ast::branches_view(elif_branches@),
        );
        let ghost tail = else_ids(els);
        proof {
            lemma_fresh_join(head, tail, start.next_id as nat, branches_end as nat, self.next_id as nat);
        }
        Ok(Stmt::IfStmt { predicate, then, elif_branches, els })
    }

    /// while := "while" expression statement, after its keyword
    fn while_statement(&mut self) -> (r: Result<Stmt, String>)
        requires
            old(self).wf(),
        ensures
            has_message(r),
            final(self).follows(*old(self)),
            r is Ok ==> final(self).current > old(self).current,
            stmt_fresh(r, old(self).next_id, final(self).next_id),
            stmt_result(
                r,
                grammar::while_statement(old(self).tokens@, old(self).current as nat, old(self).st()),
                *final(self),
            ),
        decreases old(self).tokens@.len() - old(self).current, 21nat,
    {
        let condition = match self.expression() {
            Ok(e) => e,
            Err(m) => {
                return Err(m);
            },
        };
        let body = match self.statement() {
            Ok(s) => s,
            Err(m) => {
                return Err(m);
            },
        };
        Ok(Stmt::WhileStmt { condition, body: Box::new(body) })
    }

    /// wait := "wait" expression statement ( "before" expression statement )?,
    /// after its keyword
    #[verifier::rlimit(60)]
    fn wait_statement(&mut self) -> (r: Result<Stmt, String>)
        requires
            old(self).wf(),
        ensures
            has_message(r),
            final(self).follows(*old(self)),
            r is Ok ==> final(self).current > old(self).current,
            stmt_fresh(r, old(self).next_id, final(self).next_id),
            stmt_result(
                r,
                grammar::wait_statement(old(self).tokens@, old(self).current as nat, old(self).st()),
                *final(self),
            ),
        decreases old(self).tokens@.len() - old(self).current, 21nat,
    {
        let time = match self.expression() {
            Ok(e) => e,
            Err(m) => {
                return Err(m);
            },
        };
        let ghost time_end = self.next_id;
        let body = match self.statement() {
            Ok(s) => s,
            Err(m) => {
                return Err(m);
            },
        };
        let ghost body_end = self.next_id;
        proof {
            lemma_fresh_join(expr_ids(time@), stmt_ids(body@), old(self).next_id as nat, time_end as nat, body_end as nat);
        }
        let before = if self.match_token(TokenType::Before) {
            let before_time = match self.expression() {
                Ok(e) => e,
                Err(m) => {
                    return Err(m);
                },
            };
            let ghost bt_end = self.next_id;
            let before_body = match self.statement() {
                Ok(s) => s,
                Err(m) => {
                    return Err(m);
                },
            };
            proof {
                lemma_fresh_join(expr_ids(before_time@), stmt_ids(before_body@), body_end as nat, bt_end as nat, self.next_id as nat);
                lemma_fresh_join(
                    expr_ids(time@) + stmt_ids(body@),
                    expr_ids(before_time@) + stmt_ids(before_body@),
                    old(self).next_id as nat,
                    body_end as nat,
                    self.next_id as nat,
                );
            }
            Some(BeforeBlock { time: before_time, body: Box::new(before_body) })
        } else {
            assert(expr_ids(time@) + stmt_ids(body@) + Seq::<nat>::empty() =~= expr_ids(time@) + stmt_ids(body@));
            None
        };
        Ok(Stmt::WaitStmt { time, body: Box::new(body), before })
    }

    /// bench := "bench" statement, after its keyword
    fn bench_statement(&mut self) -> (r: Result<Stmt, String>)
        requires
            old(self).wf(),
        ensures
            has_message(r),
            final(self).follows(*old(self)),
            r is Ok ==> final(self).current > old(self).current,
            stmt_fresh(r, old(self).next_id, final(self).next_id),
            stmt_result(
                r,
                grammar::bench_statement(old(self).tokens@, old(self).current as nat, old(self).st()),
                *final(self),
            ),
        decreases old(self).tokens@.len() - old(self).current, 21nat,
    {
        let body = match self.statement() {
            Ok(s) => s,
            Err(m) => {
                return Err(m);
            },
        };
        Ok(Stmt::BenchStmt { body: Box::new(body) })
    }

    /// for := "for" ( ";" | var | expression-statement ) expression? ";" expression? statement,
    /// after its keyword; it stands for a while loop in a block.
    #[verifier::rlimit(60)]
    fn for_statement(&mut self) -> (r: Result<Stmt, String>)
        requires
            old(self).wf(),
        ensures
            has_message(r),
            final(self).follows(*old(self)),
            r is Ok ==> final(self).current > old(self).current,
            stmt_fresh(r, old(self).next_id, final(self).next_id),
            stmt_result(
                r,
                grammar::for_statement(old(self).tokens@, old(self).current as nat, old(self).st()),
                *final(self),
            ),
        decreases old(self).tokens@.len() - old(self).current, 21nat,
    {
        let initializer: Option<Stmt>;
        if self.match_token(TokenType::Semicolon) {
            initializer = None;
        } else if self.match_token(TokenType::Var) {
            let var_decl = match self.var_declaration() {
                Ok(s) => s,
                Err(m) => {
                    return Err(m);
                },
            };
            initializer = Some(var_decl);
        } else {
            let expr = match self.expression_statement() {
                Ok(s) => s,
                Err(m) => {
                    return Err(m);
                },
            };
            initializer = Some(expr);
        }
        let ghost init_view = crate::ast::opt_stmt_view(initializer);
        let ghost cond_start = self.next_id;
        let condition: Option<Expr>;
        if !self.check(TokenType::Semicolon) {
            let expr = match self.expression() {
                Ok(e) => e,
                Err(m) => {
                    return Err(m);
                },
            };
            condition = Some(expr);
        } else {
            condition = None;
        }
        let ghost cond_view = crate::ast::opt_expr_view(condition);
        match self.consume(TokenType::Semicolon, "Expected ';' after loop condition.") {
            Ok(_) => {},
            Err(m) => {
                return Err(m);
            },
        }
        let ghost incr_start = self.next_id;
        let increment: Option<Expr>;
        if !self.check(TokenType::RightParen) {
            let expr = match self.expression() {
                Ok(e) => e,
                Err(m) => {
                    return Err(m);
                },
            };
            increment = Some(expr);
        } else {
            increment = None;
        }
        let ghost incr_view = crate::ast::opt_expr_view(increment);
        let ghost body_start = self.next_id;
        let body = match self.statement() {
            Ok(s) => s,
            Err(m) => {
                return Err(m);
            },
        };
        proof {
            lemma_for_ids(
                init_view,
                cond_view,
                incr_view,
                body@,
                self.current as nat,
                self.st(),
                old(self).next_id as nat,
                cond_start as nat,
                incr_start as nat,
                body_start as nat,
            );
        }
        Ok(self.for_loop(initializer, condition, increment, body))
    }

    /// The loop a "for" statement stands for: `{ init; while (cond or true) { body; incr; } }`.
    fn for_loop(
        &mut self,
        initializer: Option<Stmt>,
        condition: Option<Expr>,
        increment: Option<Expr>,
        body: Stmt,
    ) -> (s: Stmt)
        requires
            old(self).wf(),
        ensures
            (s@, final(self).current as nat, final(self).st()) == grammar::for_desugar(
                crate::ast::opt_stmt_view(initializer),
                crate::ast::opt_expr_view(condition),
                crate::ast::opt_expr_view(increment),
                body@,
                old(self).current as nat,
                old(self).st(),
            ),
            final(self).tokens == old(self).tokens,
            final(self).current == old(self).current,
            final(self).reports == old(self).reports,
            final(self).next_id <= old(self).next_id + 1,
    {
        let body = match increment {
            Some(incr) => block_of_two(body, Stmt::Expression { expression: incr }),
            None => body,
        };
        let cond = match condition {
            Some(c) => c,
            None => {
                let id = self.get_id();
                Expr::Literal { id, value: LiteralValue::True }
            },
        };
        let looped = Stmt::WhileStmt { condition: cond, body: Box::new(body) };
        match initializer {
            Some(init) => block_of_two(init, looped),
            None => looped,
        }
    }

    /// statement := block | print | errors | exits | import | if | while | wait
    ///            | bench | for | return | break | expression-statement
    fn statement(&mut self) -> (r: Result<Stmt, String>)
        requires
            old(self).wf(),
        ensures
            has_message(r),
            final(self).follows(*old(self)),
            r is Ok ==> final(self).current > old(self).current,
            stmt_fresh(r, old(self).next_id, final(self).next_id),
            stmt_result(
                r,
                grammar::statement(old(self).tokens@, old(self).current as nat, old(self).st()),
                *final(self),
            ),
        decreases old(self).tokens@.len() - old(self).current, 20nat,
    {
        if self.match_token(TokenType::Start) {
            self.block_statement()
        } else if self.match_token(TokenType::Print) {
            self.print_statement()
        } else if self.match_token(TokenType::Errors) {
            self.error_statement()
        } else if self.match_token(TokenType::Exits) {
            self.exits_statement()
        } else if self.match_token(TokenType::Import) {
            self.import_statement()
        } else if self.match_token(TokenType::If) {
            self.if_statement()
        } else if self.match_token(TokenType::While) {
            self.while_statement()
        } else if self.match_token(TokenType::Wait) {
            self.wait_statement()
        } else if self.match_token(TokenType::Bench) {
            self.bench_statement()
        } else if self.match_token(TokenType::For) {
            self.for_statement()
        } else if self.match_token(TokenType::Return) {
            self.return_statement()
        } else if self.match_token(TokenType::Break) {
            self.break_statement()
        } else {
            self.expression_statement()
        }
    }

    /// declaration := var | function | statement
    fn declaration(&mut self) -> (r: Result<Stmt, String>)
        requires
            old(self).wf(),
        ensures
            has_message(r),
            final(self).follows(*old(self)),
            r is Ok ==> final(self).current > old(self).current,
            stmt_fresh(r, old(self).next_id, final(self).next_id),
            stmt_result(
                r,
                grammar::declaration(old(self).tokens@, old(self).current as nat, old(self).st()),
                *final(self),
            ),
        decreases old(self).tokens@.len() - old(self).current, 22nat,
    {
        if self.match_token(TokenType::Var) {
            self.var_declaration()
        } else if self.match_token(TokenType::Fun) {
            self.function(FunctionKind::Function)
        } else {
            self.statement()
        }
    }

    /// Reads the whole program: the declarations up to the end of input. The
    /// first error ends the parse, and its message is the result.
    pub fn parse(&mut self) -> (r: Result<Vec<Stmt>, String>)
        requires
            old(self).wf(),
        ensures
            has_message(r),
            final(self).wf(),
            final(self).follows(*old(self)),
            final(self).tokens() == old(self).tokens(),
            final(self).position() >= old(self).position(),
            no_end_between(old(self).tokens(), old(self).position(), final(self).position()),
            final(self).fresh_id() >= old(self).fresh_id(),
            final(self).fresh_id() - old(self).fresh_id() <= final(self).position() - old(self).position(),
            r is Ok ==> at_end(final(self).tokens(), final(self).position()),
            r matches Ok(stmts) ==> stmts@.len() <= final(self).position() - old(self).position(),
            r matches Ok(stmts) ==> fresh_ids(
                stmts_ids(crate::ast::stmts_view(stmts@)),
                old(self).fresh_id(),
                final(self).fresh_id(),
            ),
            match r {
                Ok(stmts) => grammar::program(
                    old(self).tokens(),
                    old(self).position(),
                    St { id: old(self).fresh_id(), log: old(self).report_log() },
                    Seq::empty(),
                ) == Ok::<(Seq<SpecStmt>, nat, St), (Seq<char>, St)>(
                    (
                        crate::ast::stmts_view(stmts@),
                        final(self).position(),
                        St { id: final(self).fresh_id(), log: final(self).report_log() },
                    ),
                ),
                Err(m) => grammar::program(
                    old(self).tokens(),
                    old(self).position(),
                    St { id: old(self).fresh_id(), log: old(self).report_log() },
                    Seq::empty(),
                ) == Err::<(Seq<SpecStmt>, nat, St), (Seq<char>, St)>(
                    (m@, St { id: final(self).fresh_id(), log: final(self).report_log() }),
                ),
            },
    {
        let ghost start = *old(self);
        let ghost t = self.tokens@;
        let mut stmts: Vec<Stmt> = Vec::new();
        while !self.is_at_end()
            invariant
                fresh_ids(stmts_ids(crate::ast::stmts_view(stmts@)), start.next_id as nat, self.next_id as nat),
                self.follows(start),
                start == *old(self),
                t == self.tokens@,
                grammar::program(t, start.current as nat, start.st(), Seq::empty())
                    == grammar::program(
                    t,
                    self.current as nat,
                    self.st(),
                    crate::ast::stmts_view(stmts@),
                ),
                stmts@.len() <= self.current - start.current,
            decreases t.len() - self.current,
        {
            let ghost before = *self;
            let stmt = match self.declaration() {
                Ok(s) => s,
                Err(msg) => {
                    assert(grammar::program(
                        t,
                        before.current as nat,
                        before.st(),
                        crate::ast::stmts_view(stmts@),
                    ) == Err::<(Seq<SpecStmt>, nat, St), (Seq<char>, St)>((msg@, self.st())));
                    return Err(msg);
                },
            };
            proof {
                lemma_stmts_push(stmts@, stmt);
                lemma_stmts_ids_push(crate::ast::stmts_view(stmts@), stmt@);
                lemma_fresh_join(
                    stmts_ids(crate::ast::stmts_view(stmts@)),
                    stmt_ids(stmt@),
                    start.next_id as nat,
                    before.next_id as nat,
                    self.next_id as nat,
                );
            }
            stmts.push(stmt);
        }
        Ok(stmts)
    }

    /// Skips the rest of a statement in error: it reads on past the current
    /// token up to a ";" or to the token that begins the next statement, or
    /// to the end of input. The parse itself stops at its first error and so
    /// does not call this; it is there for readers that recover from errors.
    pub fn synchronize(&mut self)
        requires
            old(self).wf(),
            old(self).position() > 0 || !at_end(old(self).tokens(), old(self).position()),
        ensures
            final(self).wf(),
            final(self).follows(*old(self)),
            final(self).tokens() == old(self).tokens(),
            final(self).report_log() == old(self).report_log(),
            final(self).fresh_id() == old(self).fresh_id(),
            final(self).position() >= old(self).position(),
            no_end_between(old(self).tokens(), old(self).position(), final(self).position()),
            final(self).position() == grammar::synchronized(old(self).tokens(), old(self).position()),
            !at_end(old(self).tokens(), old(self).position()) ==> final(self).position()
                > old(self).position(),
            at_end(final(self).tokens(), final(self).position()) || kind(
                final(self).tokens(),
                (final(self).position() - 1) as nat,
            ) == TokenType::Semicolon || grammar::begins_statement(
                kind(final(self).tokens(), final(self).position()),
            ),
    {
        let ghost t = self.tokens@;
        self.advance();
        let ghost p1 = self.current as nat;
        while !self.is_at_end()
            invariant
                self.follows(*old(self)),
                self.next_id == old(self).next_id,
                self.reports == old(self).reports,
                t == self.tokens@,
                self.current > 0,
                self.current >= p1,
                !at_end(t, old(self).current as nat) ==> p1 > old(self).current,
                grammar::synchronized(t, old(self).current as nat) == grammar::sync_from(
                    t,
                    self.current as nat,
                ),
            decreases t.len() - self.current,
        {
            if self.previous().token_type == TokenType::Semicolon {
                return;
            }
            match self.peek().token_type {
                TokenType::Fun | TokenType::Var | TokenType::For | TokenType::If | TokenType::Errors
                | TokenType::While | TokenType::Bench | TokenType::Print | TokenType::Return
                | TokenType::Import | TokenType::Exits | TokenType::Break => {
                    return;
                },
                _ => {},
            }
            self.advance();
        }
    }
}

} // verus!
