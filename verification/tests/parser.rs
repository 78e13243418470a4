use tron_parser::ast::{BeforeBlock, Expr, LiteralValue, Stmt};
use tron_parser::parser::Parser;
use tron_parser::token::{Token, TokenType};

fn tk(t: TokenType, lexeme: &str, line: usize) -> Token {
    Token { token_type: t, lexeme: lexeme.to_string(), line_number: line, literal: None }
}

fn t1(t: TokenType, lexeme: &str) -> Token {
    tk(t, lexeme, 1)
}

fn id(name: &str) -> Token {
    t1(TokenType::Identifier, name)
}

fn num(n: &str) -> Token {
    t1(TokenType::Number, n)
}

fn semi() -> Token {
    t1(TokenType::Semicolon, ";")
}

fn eof() -> Token {
    t1(TokenType::Eof, "")
}

fn parse(tokens: Vec<Token>) -> Result<Vec<Stmt>, String> {
    let mut p = Parser::new(tokens);
    p.parse()
}

fn lit(i: usize, n: &str) -> Expr {
    Expr::Literal { id: i, value: LiteralValue::Number(n.to_string()) }
}

fn var(i: usize, name: &str) -> Expr {
    Expr::Variable { id: i, name: id(name) }
}

fn bx<T>(x: T) -> Box<T> {
    Box::new(x)
}

fn expr_ids(e: &Expr, out: &mut Vec<usize>) {
    match e {
        Expr::Array { id, elements } => {
            out.push(*id);
            for x in elements {
                expr_ids(x, out);
            }
        },
        Expr::Assign { id, value, .. } => {
            expr_ids(value, out);
            out.push(*id);
        },
        Expr::Binary { id, left, right, .. } | Expr::Logical { id, left, right, .. } => {
            expr_ids(left, out);
            expr_ids(right, out);
            out.push(*id);
        },
        Expr::Call { id, callee, arguments, .. } => {
            expr_ids(callee, out);
            for a in arguments {
                expr_ids(a, out);
            }
            out.push(*id);
        },
        Expr::Get { id, object, .. } => {
            expr_ids(object, out);
            out.push(*id);
        },
        Expr::Grouping { id, expression } => {
            expr_ids(expression, out);
            out.push(*id);
        },
        Expr::Literal { id, .. } | Expr::Variable { id, .. } => out.push(*id),
        Expr::SetProperty { id, object, value, .. } => {
            expr_ids(object, out);
            expr_ids(value, out);
            out.push(*id);
        },
        Expr::Unary { id, right, .. } => {
            expr_ids(right, out);
            out.push(*id);
        },
    }
}

fn stmt_ids(s: &Stmt, out: &mut Vec<usize>) {
    match s {
        Stmt::BenchStmt { body } => stmt_ids(body, out),
        Stmt::Block { statements } => {
            for x in statements {
                stmt_ids(x, out);
            }
        },
        Stmt::BreakStmt { .. } | Stmt::Exits {} => {},
        Stmt::Errors { expression }
        | Stmt::Expression { expression }
        | Stmt::Import { expression }
        | Stmt::Print { expression } => expr_ids(expression, out),
        Stmt::Function { body, .. } => {
            for x in body {
                stmt_ids(x, out);
            }
        },
        Stmt::IfStmt { predicate, then, elif_branches, els } => {
            expr_ids(predicate, out);
            stmt_ids(then, out);
            for (p, b) in elif_branches {
                expr_ids(p, out);
                stmt_ids(b, out);
            }
            if let Some(e) = els {
                stmt_ids(e, out);
            }
        },
        Stmt::ReturnStmt { value, .. } => {
            if let Some(v) = value {
                expr_ids(v, out);
            }
        },
        Stmt::Var { initializer, .. } => expr_ids(initializer, out),
        Stmt::WaitStmt { time, body, before } => {
            expr_ids(time, out);
            stmt_ids(body, out);
            if let Some(b) = before {
                expr_ids(&b.time, out);
                stmt_ids(&b.body, out);
            }
        },
        Stmt::WhileStmt { condition, body } => {
            expr_ids(condition, out);
            stmt_ids(body, out);
        },
    }
}

#[test]
fn empty_program() {
    assert_eq!(parse(vec![eof()]), Ok(vec![]));
}

#[test]
fn precedence_of_term_and_factor() {
    let toks = vec![
        t1(TokenType::Print, "print"),
        num("1"),
        t1(TokenType::Plus, "+"),
        num("2"),
        t1(TokenType::Star, "*"),
        num("3"),
        semi(),
        eof(),
    ];
    let expected = Stmt::Print {
        expression: Expr::Binary {
            id: 4,
            left: bx(lit(0, "1")),
            operator: t1(TokenType::Plus, "+"),
            right: bx(Expr::Binary {
                id: 3,
                left: bx(lit(1, "2")),
                operator: t1(TokenType::Star, "*"),
                right: bx(lit(2, "3")),
            }),
        },
    };
    assert_eq!(parse(toks), Ok(vec![expected]));
}

#[test]
fn binary_operators_associate_left() {
    let toks = vec![id("a"), t1(TokenType::Minus, "-"), id("b"), t1(TokenType::Minus, "-"), id("c"), semi(), eof()];
    let expected = Stmt::Expression {
        expression: Expr::Binary {
            id: 4,
            left: bx(Expr::Binary {
                id: 2,
                left: bx(var(0, "a")),
                operator: t1(TokenType::Minus, "-"),
                right: bx(var(1, "b")),
            }),
            operator: t1(TokenType::Minus, "-"),
            right: bx(var(3, "c")),
        },
    };
    assert_eq!(parse(toks), Ok(vec![expected]));
}

#[test]
fn comparison_binds_tighter_than_equality() {
    let toks = vec![
        t1(TokenType::Print, "print"),
        num("1"),
        t1(TokenType::Less, "<"),
        num("2"),
        t1(TokenType::EqualEqual, "=="),
        t1(TokenType::True, "true"),
        semi(),
        eof(),
    ];
    let expected = Stmt::Print {
        expression: Expr::Binary {
            id: 4,
            left: bx(Expr::Binary {
                id: 2,
                left: bx(lit(0, "1")),
                operator: t1(TokenType::Less, "<"),
                right: bx(lit(1, "2")),
            }),
            operator: t1(TokenType::EqualEqual, "=="),
            right: bx(Expr::Literal { id: 3, value: LiteralValue::True }),
        },
    };
    assert_eq!(parse(toks), Ok(vec![expected]));
}

#[test]
fn and_binds_tighter_than_or() {
    let toks = vec![id("a"), t1(TokenType::Or, "or"), id("b"), t1(TokenType::And, "and"), id("c"), semi(), eof()];
    let expected = Stmt::Expression {
        expression: Expr::Logical {
            id: 4,
            left: bx(var(0, "a")),
            operator: t1(TokenType::Or, "or"),
            right: bx(Expr::Logical {
                id: 3,
                left: bx(var(1, "b")),
                operator: t1(TokenType::And, "and"),
                right: bx(var(2, "c")),
            }),
        },
    };
    assert_eq!(parse(toks), Ok(vec![expected]));
}

#[test]
fn nor_and_xor_are_logical() {
    let toks = vec![id("a"), t1(TokenType::Nor, "nor"), id("b"), t1(TokenType::Xor, "xor"), id("c"), semi(), eof()];
    // `nor` takes an `and` expression on its right, which does not reach `xor`;
    // so `b xor c` is not its right operand, and the parse stops before `xor`.
    let r = parse(toks);
    assert_eq!(r, Err("\nLine 1: Expected ';' after expression.".to_string()));
    let toks = vec![id("a"), t1(TokenType::Xor, "xor"), id("b"), t1(TokenType::Nor, "nor"), id("c"), semi(), eof()];
    let expected = Stmt::Expression {
        expression: Expr::Logical {
            id: 4,
            left: bx(Expr::Logical {
                id: 2,
                left: bx(var(0, "a")),
                operator: t1(TokenType::Xor, "xor"),
                right: bx(var(1, "b")),
            }),
            operator: t1(TokenType::Nor, "nor"),
            right: bx(var(3, "c")),
        },
    };
    assert_eq!(parse(toks), Ok(vec![expected]));
}

#[test]
fn unary_and_grouping() {
    let toks = vec![
        t1(TokenType::Print, "print"),
        t1(TokenType::Minus, "-"),
        t1(TokenType::Bang, "!"),
        t1(TokenType::LeftParen, "("),
        num("1"),
        t1(TokenType::RightParen, ")"),
        semi(),
        eof(),
    ];
    let expected = Stmt::Print {
        expression: Expr::Unary {
            id: 3,
            operator: t1(TokenType::Minus, "-"),
            right: bx(Expr::Unary {
                id: 2,
                operator: t1(TokenType::Bang, "!"),
                right: bx(Expr::Grouping { id: 1, expression: bx(lit(0, "1")) }),
            }),
        },
    };
    assert_eq!(parse(toks), Ok(vec![expected]));
}

#[test]
fn assignment_to_variable() {
    let toks = vec![id("x"), t1(TokenType::Equal, "="), num("5"), semi(), eof()];
    let expected = Stmt::Expression {
        expression: Expr::Assign { id: 2, name: id("x"), value: bx(lit(1, "5")) },
    };
    assert_eq!(parse(toks), Ok(vec![expected]));
}

#[test]
fn assignment_to_property() {
    let toks = vec![id("a"), t1(TokenType::Dot, "."), id("b"), t1(TokenType::Equal, "="), num("1"), semi(), eof()];
    let expected = Stmt::Expression {
        expression: Expr::SetProperty { id: 3, object: bx(var(0, "a")), name: id("b"), value: bx(lit(2, "1")) },
    };
    assert_eq!(parse(toks), Ok(vec![expected]));
}

#[test]
fn assignment_to_literal_is_refused() {
    let toks = vec![num("1"), t1(TokenType::Equal, "="), num("2"), semi(), eof()];
    assert_eq!(parse(toks), Err("Invalid assignment target".to_string()));
}

#[test]
fn pipe_is_a_call() {
    let toks = vec![id("x"), t1(TokenType::Pipe, "|>"), id("f"), semi(), eof()];
    let expected = Stmt::Expression {
        expression: Expr::Call {
            id: 2,
            callee: bx(var(1, "f")),
            paren: t1(TokenType::Pipe, "|>"),
            arguments: vec![var(0, "x")],
        },
    };
    assert_eq!(parse(toks), Ok(vec![expected]));
}

#[test]
fn calls_and_properties() {
    let toks = vec![
        id("a"),
        t1(TokenType::Dot, "."),
        id("b"),
        t1(TokenType::LeftParen, "("),
        num("1"),
        t1(TokenType::Comma, ","),
        num("2"),
        t1(TokenType::RightParen, ")"),
        t1(TokenType::Dot, "."),
        id("c"),
        semi(),
        eof(),
    ];
    let get_b = Expr::Get { id: 1, object: bx(var(0, "a")), name: id("b") };
    let call = Expr::Call {
        id: 4,
        callee: bx(get_b),
        paren: t1(TokenType::RightParen, ")"),
        arguments: vec![lit(2, "1"), lit(3, "2")],
    };
    let expected = Stmt::Expression { expression: Expr::Get { id: 5, object: bx(call), name: id("c") } };
    assert_eq!(parse(toks), Ok(vec![expected]));
}

#[test]
fn call_without_arguments() {
    let toks = vec![id("f"), t1(TokenType::LeftParen, "("), t1(TokenType::RightParen, ")"), semi(), eof()];
    let expected = Stmt::Expression {
        expression: Expr::Call {
            id: 1,
            callee: bx(var(0, "f")),
            paren: t1(TokenType::RightParen, ")"),
            arguments: vec![],
        },
    };
    assert_eq!(parse(toks), Ok(vec![expected]));
}

#[test]
fn array_literal_takes_its_id_first() {
    let toks = vec![
        t1(TokenType::Print, "print"),
        t1(TokenType::LeftBracket, "["),
        num("1"),
        t1(TokenType::Comma, ","),
        num("2"),
        t1(TokenType::Comma, ","),
        t1(TokenType::RightBracket, "]"),
        semi(),
        eof(),
    ];
    let expected = Stmt::Print {
        expression: Expr::Array { id: 0, elements: vec![bx(lit(1, "1")), bx(lit(2, "2"))] },
    };
    assert_eq!(parse(toks), Ok(vec![expected]));
}

#[test]
fn index_is_an_array_of_variable_and_index() {
    let toks = vec![
        t1(TokenType::Print, "print"),
        id("a"),
        t1(TokenType::LeftBracket, "["),
        num("0"),
        t1(TokenType::RightBracket, "]"),
        semi(),
        eof(),
    ];
    let expected = Stmt::Print {
        expression: Expr::Array { id: 2, elements: vec![bx(var(0, "a")), bx(lit(1, "0"))] },
    };
    assert_eq!(parse(toks), Ok(vec![expected]));
}

#[test]
fn string_literal_value() {
    let mut s = t1(TokenType::StringLit, "\"hi\"");
    s.literal = Some("hi".to_string());
    let toks = vec![t1(TokenType::Print, "print"), s, t1(TokenType::Print, "print"), t1(TokenType::StringLit, "raw"), semi(), eof()];
    // the first print lacks its ';'
    assert_eq!(parse(toks), Err("\nLine 1: Expected ';' after value.".to_string()));
    let mut s = t1(TokenType::StringLit, "\"hi\"");
    s.literal = Some("hi".to_string());
    let toks = vec![t1(TokenType::Print, "print"), s, semi(), eof()];
    let expected = Stmt::Print {
        expression: Expr::Literal { id: 0, value: LiteralValue::StringValue("hi".to_string()) },
    };
    assert_eq!(parse(toks), Ok(vec![expected]));
}

#[test]
fn var_without_initializer_is_nil() {
    let toks = vec![
        t1(TokenType::Var, "var"),
        id("x"),
        t1(TokenType::Colon, ":"),
        id("num"),
        semi(),
        eof(),
    ];
    let expected = Stmt::Var {
        name: id("x"),
        type_annotation: Some(id("num")),
        initializer: Expr::Literal { id: 0, value: LiteralValue::Nil },
    };
    assert_eq!(parse(toks), Ok(vec![expected]));
}

#[test]
fn for_loop_stands_for_while_in_block() {
    // for var i = 0; i < 3; i = i + 1 print i;
    let toks = vec![
        t1(TokenType::For, "for"),
        t1(TokenType::Var, "var"),
        id("i"),
        t1(TokenType::Equal, "="),
        num("0"),
        semi(),
        id("i"),
        t1(TokenType::Less, "<"),
        num("3"),
        semi(),
        id("i"),
        t1(TokenType::Equal, "="),
        id("i"),
        t1(TokenType::Plus, "+"),
        num("1"),
        t1(TokenType::Print, "print"),
        id("i"),
        semi(),
        eof(),
    ];
    let init = Stmt::Var { name: id("i"), type_annotation: None, initializer: lit(0, "0") };
    let cond = Expr::Binary {
        id: 3,
        left: bx(var(1, "i")),
        operator: t1(TokenType::Less, "<"),
        right: bx(lit(2, "3")),
    };
    let incr = Expr::Assign {
        id: 8,
        name: id("i"),
        value: bx(Expr::Binary {
            id: 7,
            left: bx(var(5, "i")),
            operator: t1(TokenType::Plus, "+"),
            right: bx(lit(6, "1")),
        }),
    };
    let body = Stmt::Block {
        statements: vec![bx(Stmt::Print { expression: var(9, "i") }), bx(Stmt::Expression { expression: incr })],
    };
    let expected = Stmt::Block {
        statements: vec![bx(init), bx(Stmt::WhileStmt { condition: cond, body: bx(body) })],
    };
    assert_eq!(parse(toks), Ok(vec![expected]));
}

#[test]
fn for_loop_without_condition_loops_on_true() {
    // for ; ; i = i + 1 print i;
    let toks = vec![
        t1(TokenType::For, "for"),
        semi(),
        semi(),
        id("i"),
        t1(TokenType::Equal, "="),
        id("i"),
        t1(TokenType::Plus, "+"),
        num("1"),
        t1(TokenType::Print, "print"),
        id("i"),
        semi(),
        eof(),
    ];
    let incr = Expr::Assign {
        id: 4,
        name: id("i"),
        value: bx(Expr::Binary {
            id: 3,
            left: bx(var(1, "i")),
            operator: t1(TokenType::Plus, "+"),
            right: bx(lit(2, "1")),
        }),
    };
    let body = Stmt::Block {
        statements: vec![bx(Stmt::Print { expression: var(5, "i") }), bx(Stmt::Expression { expression: incr })],
    };
    let expected = Stmt::WhileStmt {
        condition: Expr::Literal { id: 6, value: LiteralValue::True },
        body: bx(body),
    };
    assert_eq!(parse(toks), Ok(vec![expected]));
}

#[test]
fn for_loop_reads_an_increment_unless_a_parenthesis_follows() {
    let toks = vec![
        t1(TokenType::For, "for"),
        semi(),
        semi(),
        t1(TokenType::Print, "print"),
        num("1"),
        semi(),
        eof(),
    ];
    assert_eq!(parse(toks), Err("Unexpected token: Print".to_string()));
}

#[test]
fn function_with_expression_body_returns_it() {
    // fun add(a, b: num): a + b;
    let toks = vec![
        t1(TokenType::Fun, "fun"),
        id("add"),
        t1(TokenType::LeftParen, "("),
        id("a"),
        t1(TokenType::Comma, ","),
        id("b"),
        t1(TokenType::Colon, ":"),
        id("num"),
        t1(TokenType::RightParen, ")"),
        t1(TokenType::Colon, ":"),
        id("a"),
        t1(TokenType::Plus, "+"),
        id("b"),
        semi(),
        eof(),
    ];
    let ret = Stmt::ReturnStmt {
        keyword: Token { token_type: TokenType::Return, lexeme: String::new(), line_number: 0, literal: None },
        value: Some(Expr::Binary {
            id: 2,
            left: bx(var(0, "a")),
            operator: t1(TokenType::Plus, "+"),
            right: bx(var(1, "b")),
        }),
    };
    let expected = Stmt::Function {
        name: id("add"),
        params: vec![(id("a"), None), (id("b"), Some(id("num")))],
        body: vec![bx(ret)],
    };
    assert_eq!(parse(toks), Ok(vec![expected]));
}

#[test]
fn function_with_block_body() {
    // fun f() start return 1; end
    let toks = vec![
        t1(TokenType::Fun, "fun"),
        id("f"),
        t1(TokenType::LeftParen, "("),
        t1(TokenType::RightParen, ")"),
        t1(TokenType::Start, "start"),
        t1(TokenType::Return, "return"),
        num("1"),
        semi(),
        t1(TokenType::End, "end"),
        eof(),
    ];
    let expected = Stmt::Function {
        name: id("f"),
        params: vec![],
        body: vec![bx(Stmt::ReturnStmt { keyword: t1(TokenType::Return, "return"), value: Some(lit(0, "1")) })],
    };
    assert_eq!(parse(toks), Ok(vec![expected]));
}

#[test]
fn if_elif_else() {
    let p = || t1(TokenType::Print, "print");
    let toks = vec![
        t1(TokenType::If, "if"),
        id("x"),
        p(),
        num("1"),
        semi(),
        t1(TokenType::Elif, "elif"),
        id("y"),
        p(),
        num("2"),
        semi(),
        t1(TokenType::Else, "else"),
        p(),
        num("3"),
        semi(),
        eof(),
    ];
    let expected = Stmt::IfStmt {
        predicate: var(0, "x"),
        then: bx(Stmt::Print { expression: lit(1, "1") }),
        elif_branches: vec![(var(2, "y"), bx(Stmt::Print { expression: lit(3, "2") }))],
        els: Some(bx(Stmt::Print { expression: lit(4, "3") })),
    };
    assert_eq!(parse(toks), Ok(vec![expected]));
}

#[test]
fn wait_with_before() {
    let p = || t1(TokenType::Print, "print");
    let toks = vec![
        t1(TokenType::Wait, "wait"),
        num("5"),
        p(),
        num("1"),
        semi(),
        t1(TokenType::Before, "before"),
        num("2"),
        p(),
        num("3"),
        semi(),
        eof(),
    ];
    let expected = Stmt::WaitStmt {
        time: lit(0, "5"),
        body: bx(Stmt::Print { expression: lit(1, "1") }),
        before: Some(BeforeBlock { time: lit(2, "2"), body: bx(Stmt::Print { expression: lit(3, "3") }) }),
    };
    assert_eq!(parse(toks), Ok(vec![expected]));
}

#[test]
fn simple_statements() {
    let toks = vec![
        t1(TokenType::While, "while"),
        id("x"),
        t1(TokenType::Break, "break"),
        semi(),
        t1(TokenType::Bench, "bench"),
        t1(TokenType::Exits, "exits"),
        semi(),
        t1(TokenType::Import, "import"),
        id("m"),
        semi(),
        t1(TokenType::Errors, "errors"),
        id("e"),
        semi(),
        t1(TokenType::Return, "return"),
        semi(),
        t1(TokenType::Start, "start"),
        t1(TokenType::End, "end"),
        eof(),
    ];
    let expected = vec![
        Stmt::WhileStmt { condition: var(0, "x"), body: bx(Stmt::BreakStmt { keyword: t1(TokenType::Break, "break") }) },
        Stmt::BenchStmt { body: bx(Stmt::Exits {}) },
        Stmt::Import { expression: var(1, "m") },
        Stmt::Errors { expression: var(2, "e") },
        Stmt::ReturnStmt { keyword: t1(TokenType::Return, "return"), value: None },
        Stmt::Block { statements: vec![] },
    ];
    assert_eq!(parse(toks), Ok(expected));
}

#[test]
fn missing_semicolon_names_the_line() {
    let toks = vec![t1(TokenType::Print, "print"), num("1"), tk(TokenType::Eof, "", 3)];
    assert_eq!(parse(toks), Err("\nLine 3: Expected ';' after value.".to_string()));
}

#[test]
fn line_numbers_are_written_in_decimal() {
    let toks = vec![t1(TokenType::Var, "var"), tk(TokenType::Number, "1", 1234), semi(), eof()];
    assert_eq!(parse(toks), Err("\nLine 1234: Expected variable name".to_string()));
}

#[test]
fn line_numbers_with_zero_digits() {
    for (line, text) in [(0usize, "0"), (10, "10"), (1005, "1005"), (90000, "90000")] {
        let toks = vec![t1(TokenType::Var, "var"), tk(TokenType::Number, "1", line), semi(), eof()];
        assert_eq!(parse(toks), Err(format!("\nLine {}: Expected variable name", text)));
    }
}

#[test]
fn unexpected_token() {
    assert_eq!(parse(vec![semi(), eof()]), Err("Unexpected token: Semicolon".to_string()));
    assert_eq!(parse(vec![t1(TokenType::Print, "print"), eof()]), Err("Unexpected token: Eof".to_string()));
}

#[test]
fn block_needs_end() {
    let toks = vec![t1(TokenType::Start, "start"), t1(TokenType::Print, "print"), num("1"), semi(), tk(TokenType::Eof, "", 7)];
    assert_eq!(parse(toks), Err("\nLine 7: Expected 'end' after a block".to_string()));
}

#[test]
fn the_first_error_ends_the_parse() {
    let toks = vec![
        t1(TokenType::Print, "print"),
        tk(TokenType::Semicolon, ";", 2),
        t1(TokenType::Var, "var"),
        tk(TokenType::Semicolon, ";", 5),
        eof(),
    ];
    assert_eq!(parse(toks), Err("Unexpected token: Semicolon".to_string()));
}

#[test]
fn too_many_arguments_are_reported_and_the_list_reads_on_without_commas() {
    let mut toks = vec![id("f"), t1(TokenType::LeftParen, "(")];
    for i in 0..255 {
        if i > 0 {
            toks.push(t1(TokenType::Comma, ","));
        }
        toks.push(num("0"));
    }
    toks.push(tk(TokenType::RightParen, ")", 9));
    toks.push(semi());
    toks.push(eof());
    let mut p = Parser::new(toks);
    // after the report, the next argument is read at once, without a comma:
    // here that is the ")", which cannot begin an expression
    assert_eq!(p.parse(), Err("Unexpected token: RightParen".to_string()));
    assert_eq!(p.reports(), &vec!["Line 9: Cant have more than 255 arguments".to_string()]);
}

#[test]
fn each_argument_past_the_limit_is_reported() {
    let mut toks = vec![id("f"), t1(TokenType::LeftParen, "(")];
    for i in 0..255 {
        if i > 0 {
            toks.push(t1(TokenType::Comma, ","));
        }
        toks.push(num("0"));
    }
    toks.push(tk(TokenType::Number, "1", 5));
    toks.push(tk(TokenType::Number, "2", 6));
    toks.push(tk(TokenType::Semicolon, ";", 7));
    toks.push(eof());
    let mut p = Parser::new(toks);
    assert_eq!(p.parse(), Err("Unexpected token: Semicolon".to_string()));
    assert_eq!(
        p.reports(),
        &vec![
            "Line 5: Cant have more than 255 arguments".to_string(),
            "Line 6: Cant have more than 255 arguments".to_string(),
            "Line 7: Cant have more than 255 arguments".to_string(),
        ]
    );
}

#[test]
fn two_hundred_fifty_four_arguments_are_fine() {
    let mut toks = vec![id("f"), t1(TokenType::LeftParen, "(")];
    for i in 0..254 {
        if i > 0 {
            toks.push(t1(TokenType::Comma, ","));
        }
        toks.push(num("0"));
    }
    toks.push(t1(TokenType::RightParen, ")"));
    toks.push(semi());
    toks.push(eof());
    match parse(toks) {
        Ok(v) => match &v[0] {
            Stmt::Expression { expression: Expr::Call { arguments, id, .. } } => {
                assert_eq!(arguments.len(), 254);
                assert_eq!(*id, 255);
            },
            _ => panic!("not a call"),
        },
        Err(m) => panic!("{}", m),
    }
}

#[test]
fn too_many_parameters_are_reported_and_the_function_stands() {
    let mut toks = vec![t1(TokenType::Fun, "fun"), id("f"), t1(TokenType::LeftParen, "(")];
    for i in 0..257 {
        if i > 0 {
            toks.push(t1(TokenType::Comma, ","));
        }
        toks.push(tk(TokenType::Identifier, "p", if i >= 255 { 4 + i - 255 } else { 1 }));
    }
    toks.push(t1(TokenType::RightParen, ")"));
    toks.push(t1(TokenType::Colon, ":"));
    toks.push(num("0"));
    toks.push(semi());
    toks.push(eof());
    let mut p = Parser::new(toks);
    match p.parse() {
        Ok(v) => match &v[0] {
            Stmt::Function { params, .. } => assert_eq!(params.len(), 257),
            _ => panic!("not a function"),
        },
        Err(m) => panic!("{}", m),
    }
    assert_eq!(
        p.reports(),
        &vec![
            "Line 4: Can't have more than 255 arguments".to_string(),
            "Line 5: Can't have more than 255 arguments".to_string(),
        ]
    );
}

#[test]
fn a_parse_without_faults_reports_nothing() {
    let mut p = Parser::new(vec![t1(TokenType::Print, "print"), num("1"), semi(), eof()]);
    assert!(p.parse().is_ok());
    assert!(p.reports().is_empty());
}

#[test]
fn an_eof_before_the_last_token_ends_the_program() {
    let toks = vec![t1(TokenType::Print, "print"), num("1"), semi(), eof(), t1(TokenType::Print, "print")];
    assert_eq!(parse(toks), Ok(vec![Stmt::Print { expression: lit(0, "1") }]));
}

#[test]
fn node_ids_are_distinct_and_fresh() {
    // if a.b(c |> d, [1, e[2]]) start x = -y; end elif z print (1 + 2) * 3; for var i = 0; i < 9; i = i + 1 wait i print i;
    let toks = vec![
        t1(TokenType::If, "if"),
        id("a"),
        t1(TokenType::Dot, "."),
        id("b"),
        t1(TokenType::LeftParen, "("),
        id("c"),
        t1(TokenType::Pipe, "|>"),
        id("d"),
        t1(TokenType::Comma, ","),
        t1(TokenType::LeftBracket, "["),
        num("1"),
        t1(TokenType::Comma, ","),
        id("e"),
        t1(TokenType::LeftBracket, "["),
        num("2"),
        t1(TokenType::RightBracket, "]"),
        t1(TokenType::RightBracket, "]"),
        t1(TokenType::RightParen, ")"),
        t1(TokenType::Start, "start"),
        id("x"),
        t1(TokenType::Equal, "="),
        t1(TokenType::Minus, "-"),
        id("y"),
        semi(),
        t1(TokenType::End, "end"),
        t1(TokenType::Elif, "elif"),
        id("z"),
        t1(TokenType::Print, "print"),
        t1(TokenType::LeftParen, "("),
        num("1"),
        t1(TokenType::Plus, "+"),
        num("2"),
        t1(TokenType::RightParen, ")"),
        t1(TokenType::Star, "*"),
        num("3"),
        semi(),
        t1(TokenType::For, "for"),
        t1(TokenType::Var, "var"),
        id("i"),
        t1(TokenType::Equal, "="),
        num("0"),
        semi(),
        id("i"),
        t1(TokenType::Less, "<"),
        num("9"),
        semi(),
        id("i"),
        t1(TokenType::Equal, "="),
        id("i"),
        t1(TokenType::Plus, "+"),
        num("1"),
        t1(TokenType::Wait, "wait"),
        id("i"),
        t1(TokenType::Print, "print"),
        id("i"),
        semi(),
        eof(),
    ];
    let n = toks.len();
    let stmts = parse(toks).unwrap();
    let mut ids = vec![];
    for s in &stmts {
        stmt_ids(s, &mut ids);
    }
    let mut sorted = ids.clone();
    sorted.sort();
    sorted.dedup();
    assert_eq!(sorted.len(), ids.len());
    assert!(ids.iter().all(|i| *i < n));
}

#[test]
fn a_finished_parse_leaves_nothing_to_read() {
    let toks = vec![t1(TokenType::Print, "print"), num("1"), semi(), eof()];
    let mut p = Parser::new(toks);
    assert!(p.parse().is_ok());
    assert_eq!(p.parse(), Ok(vec![]));
}

#[test]
fn synchronize_skips_to_the_next_statement() {
    // 1 2 ; print 3 ;
    let toks = vec![num("1"), num("2"), semi(), t1(TokenType::Print, "print"), num("3"), semi(), eof()];
    let mut p = Parser::new(toks);
    p.synchronize();
    assert_eq!(p.parse(), Ok(vec![Stmt::Print { expression: lit(0, "3") }]));
    // x print 3 ;
    let toks = vec![id("x"), t1(TokenType::Print, "print"), num("3"), semi(), eof()];
    let mut p = Parser::new(toks);
    p.synchronize();
    assert_eq!(p.parse(), Ok(vec![Stmt::Print { expression: lit(0, "3") }]));
}

#[test]
fn token_kind_names() {
    assert_eq!(TokenType::LeftParen.name(), "LeftParen");
    assert_eq!(TokenType::CubicRoot.name(), "CubicRoot");
    assert_eq!(format!("{:?}", TokenType::StringLit), TokenType::StringLit.name());
}

#[test]
fn literal_from_token() {
    assert_eq!(LiteralValue::from_token(num("12")), LiteralValue::Number("12".to_string()));
    assert_eq!(LiteralValue::from_token(t1(TokenType::StringLit, "raw")), LiteralValue::StringValue("raw".to_string()));
    assert_eq!(LiteralValue::from_token(t1(TokenType::False, "false")), LiteralValue::False);
    assert_eq!(LiteralValue::from_token(t1(TokenType::Nil, "nil")), LiteralValue::Nil);
}
