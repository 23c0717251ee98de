use rslox::ast::{BinaryOp, Expr, LiteralExpr, LogicalOp, Program, Stmt, UnaryOp};
use rslox::error::{Expected, IdentContext, NameFault, ParseError, ParseErrorKind, Side};
use rslox::lexer::Lexer;
use rslox::parser::Parser;
use rslox::span::Span;
use rslox::token::TokenKind;

fn parse(source: &str) -> (Program, Vec<ParseError>) {
    let mut lexer = Lexer::new(source);
    lexer.lex();
    let tokens = lexer.get_tokens();
    let mut parser = Parser::new(tokens, source);
    let program = parser.parse();
    (program, parser.get_errors())
}

fn kinds(source: &str) -> Vec<ParseErrorKind> {
    parse(source).1.iter().map(|e| e.kind).collect()
}

fn span(offset: usize, len: usize) -> Span {
    Span { offset, len }
}

fn only_expr(source: &str) -> Expr {
    let (program, errors) = parse(source);
    assert!(errors.is_empty(), "unexpected diagnostics: {:?}", errors);
    assert_eq!(program.statements.len(), 1);
    match program.statements.into_iter().next().unwrap() {
        Stmt::ExprStmt(t) => t.node,
        other => panic!("not an expression statement: {:?}", other),
    }
}

fn number(expr: &Expr) -> &str {
    match expr {
        Expr::Literal(t) => match &t.node {
            LiteralExpr::Number(n) => n.as_str(),
            other => panic!("not a number: {:?}", other),
        },
        other => panic!("not a literal: {:?}", other),
    }
}

fn variable(expr: &Expr) -> &str {
    match expr {
        Expr::Variable(ident) => ident.node.as_str(),
        other => panic!("not a variable: {:?}", other),
    }
}

fn expr_span(expr: &Expr) -> Span {
    match expr {
        Expr::Literal(t) => t.span,
        Expr::Unary(t) => t.span,
        Expr::Binary(t) => t.span,
        Expr::Logical(t) => t.span,
        Expr::Grouping(t) => t.span,
        Expr::Variable(t) => t.span,
        Expr::Assign(t) => t.span,
        Expr::Call(t) => t.span,
        Expr::Lambda(t) => t.span,
    }
}

#[test]
fn empty_program() {
    let (program, errors) = parse("");
    assert!(program.statements.is_empty());
    assert!(errors.is_empty());
    assert_eq!(program.span, span(0, 0));
}

#[test]
fn binary_node_covers_its_tokens() {
    let (program, errors) = parse("1 + 2");
    assert_eq!(program.statements.len(), 1);
    match &program.statements[0] {
        Stmt::ExprStmt(t) => match &t.node {
            Expr::Binary(b) => {
                assert_eq!(b.span, span(0, 5));
                assert_eq!(b.node.op, BinaryOp::Plus);
                assert_eq!(number(&b.node.left), "1");
                assert_eq!(number(&b.node.right), "2");
                assert_eq!(expr_span(&b.node.left), span(0, 1));
                assert_eq!(expr_span(&b.node.right), span(4, 1));
                assert!(b.type_id.is_none());
            }
            other => panic!("not a binary expression: {:?}", other),
        },
        other => panic!("not an expression statement: {:?}", other),
    }
    assert_eq!(errors.len(), 1);
    assert_eq!(errors[0].kind, ParseErrorKind::MissingSemicolon { span: span(5, 0) });
}

#[test]
fn statement_and_program_spans() {
    let (program, errors) = parse("1 + 2;  print 3;");
    assert!(errors.is_empty());
    assert_eq!(program.span, span(0, 16));
    match &program.statements[0] {
        Stmt::ExprStmt(t) => assert_eq!(t.span, span(0, 6)),
        other => panic!("not an expression statement: {:?}", other),
    }
    match &program.statements[1] {
        Stmt::PrintStmt(t) => {
            assert_eq!(t.span, span(8, 8));
            assert_eq!(number(&t.node), "3");
        }
        other => panic!("not a print statement: {:?}", other),
    }
}

#[test]
fn factor_binds_tighter_than_term() {
    match only_expr("1 + 2 * 3;") {
        Expr::Binary(b) => {
            assert_eq!(b.node.op, BinaryOp::Plus);
            assert_eq!(number(&b.node.left), "1");
            match *b.node.right {
                Expr::Binary(r) => {
                    assert_eq!(r.node.op, BinaryOp::Star);
                    assert_eq!(number(&r.node.left), "2");
                    assert_eq!(number(&r.node.right), "3");
                    assert_eq!(r.span, span(4, 5));
                }
                other => panic!("not a binary expression: {:?}", other),
            }
        }
        other => panic!("not a binary expression: {:?}", other),
    }
    match only_expr("1 * 2 + 3;") {
        Expr::Binary(b) => {
            assert_eq!(b.node.op, BinaryOp::Plus);
            assert_eq!(number(&b.node.right), "3");
            assert!(matches!(*b.node.left, Expr::Binary(ref l) if l.node.op == BinaryOp::Star));
        }
        other => panic!("not a binary expression: {:?}", other),
    }
}

#[test]
fn binary_operators_associate_to_the_left() {
    match only_expr("1 - 2 - 3;") {
        Expr::Binary(b) => {
            assert_eq!(b.node.op, BinaryOp::Minus);
            assert_eq!(number(&b.node.right), "3");
            assert_eq!(b.span, span(0, 9));
            match *b.node.left {
                Expr::Binary(l) => {
                    assert_eq!(number(&l.node.left), "1");
                    assert_eq!(number(&l.node.right), "2");
                    assert_eq!(l.span, span(0, 5));
                }
                other => panic!("not a binary expression: {:?}", other),
            }
        }
        other => panic!("not a binary expression: {:?}", other),
    }
}

#[test]
fn every_binary_operator() {
    let cases = [
        ("a != b;", BinaryOp::BangEqual),
        ("a == b;", BinaryOp::EqualEqual),
        ("a < b;", BinaryOp::Less),
        ("a <= b;", BinaryOp::LessEqual),
        ("a > b;", BinaryOp::Greater),
        ("a >= b;", BinaryOp::GreaterEqual),
        ("a + b;", BinaryOp::Plus),
        ("a - b;", BinaryOp::Minus),
        ("a / b;", BinaryOp::Slash),
        ("a * b;", BinaryOp::Star),
    ];
    for (source, op) in cases {
        match only_expr(source) {
            Expr::Binary(b) => {
                assert_eq!(b.node.op, op);
                assert_eq!(variable(&b.node.left), "a");
                assert_eq!(variable(&b.node.right), "b");
            }
            other => panic!("not a binary expression: {:?}", other),
        }
    }
}

#[test]
fn comparison_binds_tighter_than_equality() {
    match only_expr("a == b < c;") {
        Expr::Binary(b) => {
            assert_eq!(b.node.op, BinaryOp::EqualEqual);
            assert_eq!(variable(&b.node.left), "a");
            assert!(matches!(*b.node.right, Expr::Binary(ref r) if r.node.op == BinaryOp::Less));
        }
        other => panic!("not a binary expression: {:?}", other),
    }
}

#[test]
fn unary_operators_nest() {
    match only_expr("!-a;") {
        Expr::Unary(u) => {
            assert_eq!(u.node.op, UnaryOp::Bang);
            assert_eq!(u.span, span(0, 3));
            match *u.node.expr {
                Expr::Unary(inner) => {
                    assert_eq!(inner.node.op, UnaryOp::Minus);
                    assert_eq!(inner.span, span(1, 2));
                    assert_eq!(variable(&inner.node.expr), "a");
                }
                other => panic!("not a unary expression: {:?}", other),
            }
        }
        other => panic!("not a unary expression: {:?}", other),
    }
}

#[test]
fn and_binds_tighter_than_or() {
    match only_expr("a or b and c;") {
        Expr::Logical(l) => {
            assert_eq!(l.node.op, LogicalOp::Or);
            assert_eq!(variable(&l.node.left), "a");
            assert_eq!(l.span, span(0, 12));
            match *l.node.right {
                Expr::Logical(r) => {
                    assert_eq!(r.node.op, LogicalOp::And);
                    assert_eq!(variable(&r.node.left), "b");
                    assert_eq!(variable(&r.node.right), "c");
                }
                other => panic!("not a logical expression: {:?}", other),
            }
        }
        other => panic!("not a logical expression: {:?}", other),
    }
    match only_expr("a or b or c;") {
        Expr::Logical(l) => {
            assert_eq!(variable(&l.node.right), "c");
            assert!(matches!(*l.node.left, Expr::Logical(_)));
        }
        other => panic!("not a logical expression: {:?}", other),
    }
}

#[test]
fn literals() {
    assert!(matches!(only_expr("true;"), Expr::Literal(t) if matches!(t.node, LiteralExpr::Bool(true))));
    assert!(matches!(only_expr("false;"), Expr::Literal(t) if matches!(t.node, LiteralExpr::Bool(false))));
    assert!(matches!(only_expr("nil;"), Expr::Literal(t) if matches!(t.node, LiteralExpr::Nil)));
    match only_expr("\"text\";") {
        Expr::Literal(t) => {
            assert!(matches!(&t.node, LiteralExpr::String(s) if s == "text"));
            assert_eq!(t.span, span(0, 6));
        }
        other => panic!("not a literal: {:?}", other),
    }
    assert_eq!(number(&only_expr("3.5;")), "3.5");
}

#[test]
fn grouping() {
    match only_expr("(1 + 2) * 3;") {
        Expr::Binary(b) => {
            assert_eq!(b.node.op, BinaryOp::Star);
            match *b.node.left {
                Expr::Grouping(g) => {
                    assert_eq!(g.span, span(0, 7));
                    assert!(matches!(*g.node, Expr::Binary(ref i) if i.node.op == BinaryOp::Plus));
                }
                other => panic!("not a grouping: {:?}", other),
            }
        }
        other => panic!("not a binary expression: {:?}", other),
    }
}

#[test]
fn assignment_associates_to_the_right() {
    match only_expr("a = b = 1;") {
        Expr::Assign(outer) => {
            assert_eq!(outer.node.target.node, "a");
            assert_eq!(outer.node.target.span, span(0, 1));
            assert_eq!(outer.span, span(0, 9));
            match *outer.node.value {
                Expr::Assign(inner) => {
                    assert_eq!(inner.node.target.node, "b");
                    assert_eq!(inner.span, span(4, 5));
                    assert_eq!(number(&inner.node.value), "1");
                }
                other => panic!("not an assignment: {:?}", other),
            }
        }
        other => panic!("not an assignment: {:?}", other),
    }
}

#[test]
fn only_a_variable_can_be_assigned_to() {
    let (program, errors) = parse("1 = 2; print 3;");
    assert_eq!(errors.len(), 1);
    assert_eq!(
        errors[0].kind,
        ParseErrorKind::ExpectedIdentifier { span: span(2, 1), context: IdentContext::VariableName }
    );
    assert_eq!(program.statements.len(), 1);
    assert!(matches!(program.statements[0], Stmt::PrintStmt(_)));
    assert_eq!(
        kinds("(a) = 2;"),
        vec![ParseErrorKind::ExpectedIdentifier { span: span(4, 1), context: IdentContext::VariableName }]
    );
}

#[test]
fn assignment_without_a_value() {
    assert_eq!(kinds("a = ;"), vec![ParseErrorKind::ExpectedExpression { span: span(4, 1) }]);
}

#[test]
fn missing_semicolon_is_reported_behind_the_previous_token() {
    let (program, errors) = parse("print 1 print 2; print 3;");
    assert_eq!(errors.len(), 1);
    assert_eq!(errors[0].kind, ParseErrorKind::MissingSemicolon { span: span(7, 0) });
    assert_eq!(program.statements.len(), 2);
    match &program.statements[0] {
        Stmt::PrintStmt(t) => {
            assert_eq!(number(&t.node), "1");
            assert_eq!(t.span, span(0, 7));
        }
        other => panic!("not a print statement: {:?}", other),
    }
    match &program.statements[1] {
        Stmt::PrintStmt(t) => assert_eq!(number(&t.node), "3"),
        other => panic!("not a print statement: {:?}", other),
    }
}

#[test]
fn missing_semicolon_before_a_closing_brace() {
    let (program, errors) = parse("{ print 1 } print 2;");
    assert_eq!(errors.len(), 1);
    assert_eq!(errors[0].kind, ParseErrorKind::MissingSemicolon { span: span(9, 0) });
    assert_eq!(program.statements.len(), 2);
    match &program.statements[0] {
        Stmt::Block(b) => assert_eq!(b.node.statements.len(), 1),
        other => panic!("not a block: {:?}", other),
    }
}

#[test]
fn missing_block_without_a_brace_ahead() {
    let (program, errors) = parse("if x print 1; print 2;");
    assert_eq!(errors.len(), 1);
    assert_eq!(errors[0].kind, ParseErrorKind::MissingBlock { span: span(5, 5) });
    assert_eq!(program.statements.len(), 1);
    match &program.statements[0] {
        Stmt::PrintStmt(t) => assert_eq!(number(&t.node), "2"),
        other => panic!("not a print statement: {:?}", other),
    }
}

#[test]
fn missing_block_skips_the_next_braced_region() {
    let (program, errors) = parse("while x print 1; { { print 2; } } print 3; print 4;");
    assert_eq!(errors.len(), 1);
    assert_eq!(errors[0].kind, ParseErrorKind::MissingBlock { span: span(8, 5) });
    assert_eq!(program.statements.len(), 1);
    match &program.statements[0] {
        Stmt::PrintStmt(t) => assert_eq!(number(&t.node), "4"),
        other => panic!("not a print statement: {:?}", other),
    }
}

#[test]
fn missing_block_after_fun_and_else() {
    assert_eq!(kinds("fun f() print 1;"), vec![ParseErrorKind::MissingBlock { span: span(8, 5) }]);
    assert_eq!(
        kinds("if x { } else print 1;"),
        vec![ParseErrorKind::MissingBlock { span: span(14, 5) }]
    );
}

#[test]
fn missing_right_operand() {
    assert_eq!(
        kinds("1 + ;"),
        vec![ParseErrorKind::MissingOperand { span: span(2, 1), side: Side::Right }]
    );
    assert_eq!(
        kinds("-;"),
        vec![ParseErrorKind::MissingOperand { span: span(0, 1), side: Side::Right }]
    );
    assert_eq!(
        kinds("a == ;"),
        vec![ParseErrorKind::MissingOperand { span: span(2, 2), side: Side::Right }]
    );
    assert_eq!(
        kinds("1 * (2"),
        vec![ParseErrorKind::MissingOperand { span: span(2, 1), side: Side::Right }]
    );
}

#[test]
fn logical_operator_before_a_semicolon_gets_false() {
    for (source, op) in [("a or ;", LogicalOp::Or), ("a and;", LogicalOp::And)] {
        let (program, errors) = parse(source);
        assert_eq!(errors.len(), 1);
        assert_eq!(errors[0].kind, ParseErrorKind::ExpectedExpression { span: span(5, 1) });
        assert_eq!(program.statements.len(), 1);
        match &program.statements[0] {
            Stmt::ExprStmt(t) => match &t.node {
                Expr::Logical(l) => {
                    assert_eq!(l.node.op, op);
                    assert_eq!(variable(&l.node.left), "a");
                    match &*l.node.right {
                        Expr::Literal(lit) => {
                            assert!(matches!(lit.node, LiteralExpr::Bool(false)));
                            assert_eq!(lit.span, span(5, 1));
                        }
                        other => panic!("not a literal: {:?}", other),
                    }
                }
                other => panic!("not a logical expression: {:?}", other),
            },
            other => panic!("not an expression statement: {:?}", other),
        }
    }
}

#[test]
fn parenthesised_condition_is_a_matter_of_style() {
    let (program, errors) = parse("if (x) { print 1; }");
    assert_eq!(errors.len(), 1);
    assert_eq!(
        errors[0].kind,
        ParseErrorKind::RedundantParenthesis { first: span(3, 1), second: span(5, 1) }
    );
    assert!(errors[0].kind.style_only());
    assert_eq!(program.statements.len(), 1);
    match &program.statements[0] {
        Stmt::If(t) => {
            assert!(matches!(t.node.condition, Expr::Grouping(_)));
            assert_eq!(t.node.then_branch.node.statements.len(), 1);
            assert!(t.node.else_branch.is_none());
            assert_eq!(t.span, span(0, 19));
        }
        other => panic!("not an if statement: {:?}", other),
    }
    let (program, errors) = parse("while (x) { }");
    assert_eq!(errors.len(), 1);
    assert!(matches!(errors[0].kind, ParseErrorKind::RedundantParenthesis { .. }));
    assert!(matches!(program.statements[0], Stmt::While(_)));
    assert!(kinds("if (x) == y { }").is_empty());
}

#[test]
fn condition_that_cannot_be_parsed_becomes_true() {
    let (program, errors) = parse("if ) { print 1; }");
    assert_eq!(errors.len(), 1);
    assert_eq!(
        errors[0].kind,
        ParseErrorKind::UnexpectedClosingDelimiter { span: span(3, 1), delimiter: TokenKind::RightParen }
    );
    assert!(!errors[0].kind.style_only());
    match &program.statements[0] {
        Stmt::If(t) => match &t.node.condition {
            Expr::Literal(lit) => {
                assert!(matches!(lit.node, LiteralExpr::Bool(true)));
                assert_eq!(lit.span, span(3, 1));
            }
            other => panic!("not a literal: {:?}", other),
        },
        other => panic!("not an if statement: {:?}", other),
    }
}

#[test]
fn if_with_else() {
    let (program, errors) = parse("if a { print 1; } else { print 2; print 3; }");
    assert!(errors.is_empty());
    match &program.statements[0] {
        Stmt::If(t) => {
            assert_eq!(variable(&t.node.condition), "a");
            assert_eq!(t.node.then_branch.node.statements.len(), 1);
            assert_eq!(t.node.then_branch.span, span(5, 12));
            assert_eq!(t.node.else_branch.as_ref().unwrap().node.statements.len(), 2);
            assert_eq!(t.span, span(0, 44));
        }
        other => panic!("not an if statement: {:?}", other),
    }
}

#[test]
fn while_statement() {
    let (program, errors) = parse("while a < 3 { a = a + 1; }");
    assert!(errors.is_empty());
    match &program.statements[0] {
        Stmt::While(t) => {
            assert!(matches!(t.node.condition, Expr::Binary(_)));
            assert_eq!(t.node.body.node.statements.len(), 1);
            assert_eq!(t.span, span(0, 26));
        }
        other => panic!("not a while statement: {:?}", other),
    }
}

#[test]
fn redundant_semicolon() {
    assert_eq!(kinds(";"), vec![ParseErrorKind::RedundantSemicolon { span: span(0, 1) }]);
    let (program, errors) = parse("print 1;; print 2;");
    assert_eq!(errors.len(), 1);
    assert_eq!(errors[0].kind, ParseErrorKind::RedundantSemicolon { span: span(8, 1) });
    assert_eq!(program.statements.len(), 1);
}

#[test]
fn number_in_the_place_of_a_variable_name() {
    let (program, errors) = parse("var 1x; print 1;");
    assert_eq!(errors.len(), 1);
    assert_eq!(
        errors[0].kind,
        ParseErrorKind::InvalidVariableName { span: span(4, 1), fault: NameFault::StartsWithDigit }
    );
    assert_eq!(program.statements.len(), 1);
    match &program.statements[0] {
        Stmt::PrintStmt(t) => {
            assert_eq!(number(&t.node), "1");
            assert_eq!(t.span, span(8, 8));
        }
        other => panic!("not a print statement: {:?}", other),
    }
    assert_eq!(
        kinds("var 12;"),
        vec![ParseErrorKind::InvalidVariableName { span: span(4, 2), fault: NameFault::IsNumber }]
    );
    assert_eq!(
        kinds("print 1x;"),
        vec![ParseErrorKind::InvalidVariableName { span: span(6, 1), fault: NameFault::StartsWithDigit }]
    );
}

#[test]
fn variable_name_is_missing() {
    assert_eq!(
        kinds("var ;"),
        vec![ParseErrorKind::ExpectedIdentifier { span: span(0, 3), context: IdentContext::VariableName }]
    );
    assert_eq!(
        kinds("var = 1;"),
        vec![ParseErrorKind::ExpectedIdentifier { span: span(0, 3), context: IdentContext::VariableName }]
    );
    assert_eq!(
        kinds("var +;"),
        vec![ParseErrorKind::ExpectedIdentifier { span: span(4, 1), context: IdentContext::Variable }]
    );
}

#[test]
fn variable_declarations() {
    let (program, errors) = parse("var x; var y = 1 + 2;");
    assert!(errors.is_empty());
    match &program.statements[0] {
        Stmt::VarDecl(t) => {
            assert_eq!(t.node.ident.node, "x");
            assert_eq!(t.node.ident.span, span(4, 1));
            assert!(t.node.initializer.is_none());
            assert_eq!(t.span, span(0, 6));
        }
        other => panic!("not a variable declaration: {:?}", other),
    }
    match &program.statements[1] {
        Stmt::VarDecl(t) => {
            assert_eq!(t.node.ident.node, "y");
            assert!(matches!(t.node.initializer, Some(Expr::Binary(_))));
            assert_eq!(t.span, span(7, 14));
        }
        other => panic!("not a variable declaration: {:?}", other),
    }
}

#[test]
fn variable_initialiser_errors() {
    assert_eq!(kinds("var x = ;"), vec![ParseErrorKind::ExpectedExpression { span: span(8, 1) }]);
    assert_eq!(
        kinds("var x 1;"),
        vec![ParseErrorKind::UnexpectedToken {
            span: span(6, 1),
            found: TokenKind::Number,
            expected: Expected::AssignOrSemicolon,
        }]
    );
}

#[test]
fn function_declaration() {
    let (program, errors) = parse("fun add(a, b) { return a + b; }");
    assert!(errors.is_empty());
    match &program.statements[0] {
        Stmt::FunDecl(t) => {
            assert_eq!(t.node.ident.node, "add");
            assert_eq!(t.node.ident.span, span(4, 3));
            assert_eq!(t.node.params.len(), 2);
            assert_eq!(t.node.params[0].node, "a");
            assert_eq!(t.node.params[1].node, "b");
            assert_eq!(t.node.params[1].span, span(11, 1));
            assert_eq!(t.node.body.node.statements.len(), 1);
            assert_eq!(t.node.body.span, span(14, 17));
            assert_eq!(t.span, span(0, 31));
            match &t.node.body.node.statements[0] {
                Stmt::Return(r) => assert!(matches!(r.node, Some(Expr::Binary(_)))),
                other => panic!("not a return statement: {:?}", other),
            }
        }
        other => panic!("not a function declaration: {:?}", other),
    }
    let (program, errors) = parse("fun f() { }");
    assert!(errors.is_empty());
    assert!(matches!(&program.statements[0], Stmt::FunDecl(t) if t.node.params.is_empty()));
}

#[test]
fn repeated_parameter_is_no_matter_of_syntax() {
    let (program, errors) = parse("fun f(a, a) { return a; }");
    assert!(errors.is_empty());
    assert!(matches!(&program.statements[0], Stmt::FunDecl(t) if t.node.params.len() == 2));
}

#[test]
fn number_in_the_place_of_a_function_name() {
    let (program, errors) = parse("fun 1f(a) { } print 2;");
    assert_eq!(errors.len(), 1);
    assert_eq!(
        errors[0].kind,
        ParseErrorKind::InvalidFunctionName { span: span(4, 1), fault: NameFault::StartsWithDigit }
    );
    assert_eq!(program.statements.len(), 2);
    match &program.statements[0] {
        Stmt::FunDecl(t) => {
            assert_eq!(t.node.ident.node, "err_fun");
            assert_eq!(t.node.ident.span, span(6, 1));
            assert_eq!(t.node.params.len(), 1);
        }
        other => panic!("not a function declaration: {:?}", other),
    }
    let (program, errors) = parse("fun 1() { }");
    assert_eq!(
        errors[0].kind,
        ParseErrorKind::InvalidFunctionName { span: span(4, 1), fault: NameFault::IsNumber }
    );
    assert!(matches!(&program.statements[0], Stmt::FunDecl(t) if t.node.ident.node == "err fun"));
}

#[test]
fn function_name_is_missing() {
    assert_eq!(
        kinds("fun () { }"),
        vec![
            ParseErrorKind::ExpectedIdentifier { span: span(4, 1), context: IdentContext::Function },
            ParseErrorKind::UnexpectedClosingDelimiter {
                span: span(9, 1),
                delimiter: TokenKind::RightBrace,
            },
        ]
    );
}

#[test]
fn dangling_comma_in_a_parameter_list() {
    assert_eq!(
        kinds("fun f(a,) { }"),
        vec![
            ParseErrorKind::ExpectedIdentifier { span: span(7, 1), context: IdentContext::Parameter },
            ParseErrorKind::UnmatchedDelimiter {
                opening_span: span(5, 1),
                closing_span: span(12, 1),
                expected: TokenKind::RightParen,
                found: TokenKind::RightBrace,
            },
            ParseErrorKind::UnexpectedClosingDelimiter {
                span: span(12, 1),
                delimiter: TokenKind::RightBrace,
            },
        ]
    );
}

#[test]
fn parameter_that_is_no_name_skips_the_following_block() {
    let (program, errors) = parse("fun f(1) { print 1; } print 2; print 3;");
    assert_eq!(errors.len(), 2);
    assert_eq!(
        errors[0].kind,
        ParseErrorKind::ExpectedIdentifier { span: span(6, 1), context: IdentContext::Parameter }
    );
    assert_eq!(
        errors[1].kind,
        ParseErrorKind::UnclosedDelimiter { span: span(5, 1), delimiter: TokenKind::LeftParen }
    );
    assert_eq!(program.statements.len(), 1);
    match &program.statements[0] {
        Stmt::PrintStmt(t) => assert_eq!(number(&t.node), "3"),
        other => panic!("not a print statement: {:?}", other),
    }
}

#[test]
fn parameter_list_that_never_closes() {
    assert_eq!(
        kinds("fun f(a"),
        vec![ParseErrorKind::UnclosedDelimiter { span: span(5, 1), delimiter: TokenKind::LeftParen }]
    );
    assert_eq!(
        kinds("fun f(a,"),
        vec![ParseErrorKind::UnclosedDelimiter { span: span(5, 1), delimiter: TokenKind::LeftParen }]
    );
    assert_eq!(
        kinds("fun f("),
        vec![ParseErrorKind::UnclosedDelimiter { span: span(5, 1), delimiter: TokenKind::LeftParen }]
    );
}

#[test]
fn parameters_without_a_comma() {
    assert_eq!(
        kinds("fun f(a b) { }")[0],
        ParseErrorKind::UnexpectedToken {
            span: span(8, 1),
            found: TokenKind::Ident,
            expected: Expected::CommaOrRightParen,
        }
    );
}

#[test]
fn parameter_list_must_open_with_a_delimiter() {
    assert_eq!(
        kinds("fun f;")[0],
        ParseErrorKind::UnexpectedToken {
            span: span(5, 1),
            found: TokenKind::Semicolon,
            expected: Expected::OpeningDelimiter,
        }
    );
}

#[test]
fn block_statement() {
    let (program, errors) = parse("{ var x = 1; { print x; } }");
    assert!(errors.is_empty());
    match &program.statements[0] {
        Stmt::Block(b) => {
            assert_eq!(b.span, span(0, 27));
            assert_eq!(b.node.statements.len(), 2);
            match &b.node.statements[1] {
                Stmt::Block(inner) => {
                    assert_eq!(inner.span, span(13, 12));
                    assert_eq!(inner.node.statements.len(), 1);
                }
                other => panic!("not a block: {:?}", other),
            }
        }
        other => panic!("not a block: {:?}", other),
    }
}

#[test]
fn unclosed_parenthesis() {
    let errors = kinds("(1 + 2");
    assert_eq!(
        errors,
        vec![ParseErrorKind::UnclosedDelimiter { span: span(0, 1), delimiter: TokenKind::LeftParen }]
    );
}

#[test]
fn unclosed_brace() {
    let (program, errors) = parse("{ print 1;");
    assert!(program.statements.is_empty());
    assert_eq!(errors.len(), 1);
    assert_eq!(
        errors[0].kind,
        ParseErrorKind::UnclosedDelimiter { span: span(0, 1), delimiter: TokenKind::LeftBrace }
    );
}

#[test]
fn closing_delimiter_without_an_opening_one() {
    assert_eq!(
        kinds(")"),
        vec![ParseErrorKind::UnexpectedClosingDelimiter {
            span: span(0, 1),
            delimiter: TokenKind::RightParen,
        }]
    );
    let (program, errors) = parse("} print 1;");
    assert_eq!(
        errors[0].kind,
        ParseErrorKind::UnexpectedClosingDelimiter { span: span(0, 1), delimiter: TokenKind::RightBrace }
    );
    assert_eq!(errors.len(), 1);
    assert!(program.statements.is_empty());
}

#[test]
fn mismatched_delimiters() {
    let (program, errors) = parse("{ (1 + 2 } print 3;");
    assert_eq!(errors.len(), 1);
    assert_eq!(
        errors[0].kind,
        ParseErrorKind::UnmatchedDelimiter {
            opening_span: span(2, 1),
            closing_span: span(9, 1),
            expected: TokenKind::RightParen,
            found: TokenKind::RightBrace,
        }
    );
    assert_eq!(program.statements.len(), 2);
    assert!(matches!(&program.statements[0], Stmt::Block(b) if b.node.statements.is_empty()));
    assert_eq!(
        kinds("(1;"),
        vec![ParseErrorKind::UnmatchedDelimiter {
            opening_span: span(0, 1),
            closing_span: span(2, 1),
            expected: TokenKind::RightParen,
            found: TokenKind::Semicolon,
        }]
    );
}

#[test]
fn closing_delimiter_in_the_place_of_an_operand() {
    assert_eq!(
        kinds("(1 + );"),
        vec![ParseErrorKind::MissingOperand { span: span(3, 1), side: Side::Right }]
    );
    assert_eq!(
        kinds("print (;"),
        vec![
            ParseErrorKind::RedundantSemicolon { span: span(7, 1) },
            ParseErrorKind::UnclosedDelimiter { span: span(6, 1), delimiter: TokenKind::LeftParen },
        ]
    );
    assert_eq!(
        kinds("f(a, ));"),
        vec![
            ParseErrorKind::UnexpectedClosingDelimiter { span: span(5, 1), delimiter: TokenKind::RightParen },
        ]
    );
}

#[test]
fn empty_parentheses() {
    assert_eq!(kinds("();"), vec![ParseErrorKind::ExpectedExpression { span: span(0, 2) }]);
    let (program, errors) = parse("{ (); print 1; }");
    assert_eq!(errors.len(), 1);
    assert!(matches!(&program.statements[0], Stmt::Block(b) if b.node.statements.len() == 1));
}

#[test]
fn every_delimiter_left_open_is_reported_at_the_end() {
    assert_eq!(
        kinds("("),
        vec![
            ParseErrorKind::UnexpectedEOF { expected: Expected::Expression },
            ParseErrorKind::UnclosedDelimiter { span: span(0, 1), delimiter: TokenKind::LeftParen },
        ]
    );
    let (program, errors) = parse("(1 +");
    assert!(program.statements.is_empty());
    assert_eq!(
        errors.iter().map(|e| e.kind).collect::<Vec<_>>(),
        vec![
            ParseErrorKind::MissingOperand { span: span(3, 1), side: Side::Right },
            ParseErrorKind::UnclosedDelimiter { span: span(0, 1), delimiter: TokenKind::LeftParen },
        ]
    );
    assert_eq!(
        kinds("((a + ;"),
        vec![
            ParseErrorKind::MissingOperand { span: span(4, 1), side: Side::Right },
            ParseErrorKind::UnclosedDelimiter { span: span(1, 1), delimiter: TokenKind::LeftParen },
            ParseErrorKind::UnclosedDelimiter { span: span(0, 1), delimiter: TokenKind::LeftParen },
        ]
    );
}

#[test]
fn condition_at_the_first_token() {
    let (program, errors) = parse("if (a < b) { }");
    assert_eq!(errors.len(), 1);
    assert_eq!(
        errors[0].kind,
        ParseErrorKind::RedundantParenthesis { first: span(3, 1), second: span(9, 1) }
    );
    match &program.statements[0] {
        Stmt::If(t) => match &t.node.condition {
            Expr::Grouping(g) => assert_eq!(g.span, span(3, 7)),
            other => panic!("not a grouping: {:?}", other),
        },
        other => panic!("not an if statement: {:?}", other),
    }
    let (program, errors) = parse("if else { }");
    assert!(matches!(errors[0].kind, ParseErrorKind::UnexpectedToken { .. }));
    assert!(program.statements.is_empty() || matches!(program.statements[0], Stmt::Block(_)));
}

#[test]
fn statement_without_its_semicolon_ends_with_its_last_token() {
    let (program, errors) = parse("var x = 1 2 3; return y z;");
    assert_eq!(errors.len(), 2);
    match &program.statements[0] {
        Stmt::VarDecl(t) => assert_eq!(t.span, span(0, 9)),
        other => panic!("not a variable declaration: {:?}", other),
    }
    match &program.statements[1] {
        Stmt::Return(t) => assert_eq!(t.span, span(15, 8)),
        other => panic!("not a return statement: {:?}", other),
    }
    let (program, _) = parse("a + b c;");
    match &program.statements[0] {
        Stmt::ExprStmt(t) => assert_eq!(t.span, span(0, 5)),
        other => panic!("not an expression statement: {:?}", other),
    }
}

#[test]
fn for_is_a_block_around_a_while() {
    let source = "for (var i = 0; i < 3; i = i + 1) { print i; }";
    let (program, errors) = parse(source);
    assert!(errors.is_empty(), "unexpected diagnostics: {:?}", errors);
    assert_eq!(program.statements.len(), 1);
    let outer = match &program.statements[0] {
        Stmt::Block(b) => b,
        other => panic!("not a block: {:?}", other),
    };
    assert_eq!(outer.span, span(0, 46));
    assert_eq!(outer.node.statements.len(), 2);
    match &outer.node.statements[0] {
        Stmt::VarDecl(v) => {
            assert_eq!(v.node.ident.node, "i");
            assert_eq!(number(v.node.initializer.as_ref().unwrap()), "0");
            assert_eq!(v.span, span(5, 10));
        }
        other => panic!("not a variable declaration: {:?}", other),
    }
    let looping = match &outer.node.statements[1] {
        Stmt::While(w) => w,
        other => panic!("not a while statement: {:?}", other),
    };
    assert_eq!(looping.span, span(0, 46));
    match &looping.node.condition {
        Expr::Binary(b) => {
            assert_eq!(b.node.op, BinaryOp::Less);
            assert_eq!(variable(&b.node.left), "i");
            assert_eq!(number(&b.node.right), "3");
        }
        other => panic!("not a binary expression: {:?}", other),
    }
    let body = &looping.node.body;
    assert_eq!(body.span, span(34, 12));
    assert_eq!(body.node.statements.len(), 2);
    match &body.node.statements[0] {
        Stmt::PrintStmt(p) => assert_eq!(variable(&p.node), "i"),
        other => panic!("not a print statement: {:?}", other),
    }
    match &body.node.statements[1] {
        Stmt::ExprStmt(e) => {
            assert_eq!(e.span, span(0, 32));
            match &e.node {
                Expr::Assign(a) => {
                    assert_eq!(a.node.target.node, "i");
                    assert_eq!(a.span, span(23, 9));
                    assert!(matches!(*a.node.value, Expr::Binary(ref b) if b.node.op == BinaryOp::Plus));
                }
                other => panic!("not an assignment: {:?}", other),
            }
        }
        other => panic!("not an expression statement: {:?}", other),
    }
}

#[test]
fn for_without_parentheses() {
    let (program, errors) = parse("for var i = 0; i < 3; i = i + 1 { print i; }");
    assert!(errors.is_empty(), "unexpected diagnostics: {:?}", errors);
    match &program.statements[0] {
        Stmt::Block(b) => {
            assert_eq!(b.node.statements.len(), 2);
            assert!(matches!(&b.node.statements[1], Stmt::While(w) if w.node.body.node.statements.len() == 2));
        }
        other => panic!("not a block: {:?}", other),
    }
}

#[test]
fn for_with_empty_clauses() {
    for source in ["for (;;) { print 1; }", "for ;; { print 1; }"] {
        let (program, errors) = parse(source);
        assert!(errors.is_empty(), "unexpected diagnostics: {:?}", errors);
        match &program.statements[0] {
            Stmt::Block(b) => {
                assert_eq!(b.node.statements.len(), 1);
                match &b.node.statements[0] {
                    Stmt::While(w) => {
                        assert!(matches!(&w.node.condition, Expr::Literal(l) if matches!(l.node, LiteralExpr::Bool(true))));
                        assert_eq!(w.node.body.node.statements.len(), 1);
                    }
                    other => panic!("not a while statement: {:?}", other),
                }
            }
            other => panic!("not a block: {:?}", other),
        }
    }
}

#[test]
fn for_with_an_expression_as_initialiser() {
    let (program, errors) = parse("for (i = 0; i < 3;) { }");
    assert!(errors.is_empty(), "unexpected diagnostics: {:?}", errors);
    match &program.statements[0] {
        Stmt::Block(b) => {
            assert!(matches!(&b.node.statements[0], Stmt::ExprStmt(e) if matches!(e.node, Expr::Assign(_))));
            assert!(matches!(&b.node.statements[1], Stmt::While(w) if w.node.body.node.statements.is_empty()));
        }
        other => panic!("not a block: {:?}", other),
    }
}

#[test]
fn for_without_the_semicolon_behind_the_condition() {
    let (program, errors) = parse("for (; i < n i = 1) { }");
    assert_eq!(errors.len(), 1);
    assert_eq!(errors[0].kind, ParseErrorKind::MissingSemicolon { span: span(12, 0) });
    assert_eq!(program.statements.len(), 1);
    match &program.statements[0] {
        Stmt::Block(b) => match &b.node.statements[0] {
            Stmt::While(w) => assert_eq!(w.node.body.node.statements.len(), 1),
            other => panic!("not a while statement: {:?}", other),
        },
        other => panic!("not a block: {:?}", other),
    }
}

#[test]
fn return_statements() {
    let (program, errors) = parse("return; return 1;");
    assert!(errors.is_empty());
    match &program.statements[0] {
        Stmt::Return(r) => {
            assert!(r.node.is_none());
            assert_eq!(r.span, span(0, 7));
        }
        other => panic!("not a return statement: {:?}", other),
    }
    match &program.statements[1] {
        Stmt::Return(r) => {
            assert_eq!(number(r.node.as_ref().unwrap()), "1");
            assert_eq!(r.span, span(8, 9));
        }
        other => panic!("not a return statement: {:?}", other),
    }
    assert_eq!(kinds("return"), vec![ParseErrorKind::ExpectedExpression { span: span(6, 0) }]);
}

#[test]
fn calls() {
    match only_expr("f(1, 2)(3);") {
        Expr::Call(outer) => {
            assert_eq!(outer.span, span(0, 10));
            assert_eq!(outer.node.arguments.len(), 1);
            assert_eq!(number(&outer.node.arguments[0]), "3");
            match *outer.node.callee {
                Expr::Call(inner) => {
                    assert_eq!(inner.span, span(0, 7));
                    assert_eq!(variable(&inner.node.callee), "f");
                    assert_eq!(inner.node.arguments.len(), 2);
                    assert_eq!(number(&inner.node.arguments[1]), "2");
                }
                other => panic!("not a call: {:?}", other),
            }
        }
        other => panic!("not a call: {:?}", other),
    }
    assert!(matches!(only_expr("f();"), Expr::Call(c) if c.node.arguments.is_empty()));
}

#[test]
fn call_that_never_closes() {
    assert_eq!(
        kinds("f(;"),
        vec![ParseErrorKind::UnclosedDelimiter { span: span(1, 1), delimiter: TokenKind::LeftParen }]
    );
    assert_eq!(
        kinds("f("),
        vec![ParseErrorKind::UnclosedDelimiter { span: span(1, 1), delimiter: TokenKind::LeftParen }]
    );
    assert_eq!(
        kinds("f(1"),
        vec![ParseErrorKind::UnclosedDelimiter { span: span(1, 1), delimiter: TokenKind::LeftParen }]
    );
}

#[test]
fn lambda_expression() {
    let (program, errors) = parse("var f = fun (a) { return a; };");
    assert!(errors.is_empty(), "unexpected diagnostics: {:?}", errors);
    match &program.statements[0] {
        Stmt::VarDecl(v) => match v.node.initializer.as_ref().unwrap() {
            Expr::Lambda(l) => {
                assert_eq!(l.node.parameters.len(), 1);
                assert_eq!(l.node.parameters[0].node, "a");
                assert_eq!(l.node.body.node.statements.len(), 1);
                assert_eq!(l.span, span(8, 21));
            }
            other => panic!("not a lambda: {:?}", other),
        },
        other => panic!("not a variable declaration: {:?}", other),
    }
}

#[test]
fn number_before_a_word_is_no_operand() {
    assert_eq!(
        kinds("a < 3 i;"),
        vec![ParseErrorKind::MissingOperand { span: span(2, 1), side: Side::Right }]
    );
}

#[test]
fn end_of_input_in_the_place_of_an_expression() {
    assert_eq!(kinds("print"), vec![ParseErrorKind::UnexpectedEOF { expected: Expected::Expression }]);
}

#[test]
fn token_that_begins_no_expression() {
    let (program, errors) = parse("print else; print 1;");
    assert_eq!(errors.len(), 1);
    assert_eq!(
        errors[0].kind,
        ParseErrorKind::UnexpectedToken {
            span: span(6, 4),
            found: TokenKind::Else,
            expected: Expected::Primary,
        }
    );
    assert_eq!(program.statements.len(), 1);
}

#[test]
fn every_diagnostic_carries_the_source() {
    let source = "var 1x; print 1 2; (";
    let (_, errors) = parse(source);
    assert!(errors.len() >= 3);
    for error in &errors {
        assert_eq!(error.src, source);
    }
}

#[test]
fn several_errors_are_found_in_one_pass() {
    let (program, errors) = parse("var 1; print 2; 3 + ; print 4; var = 5; print 6;");
    assert_eq!(errors.len(), 3);
    assert!(matches!(errors[0].kind, ParseErrorKind::InvalidVariableName { .. }));
    assert!(matches!(errors[1].kind, ParseErrorKind::MissingOperand { .. }));
    assert!(matches!(errors[2].kind, ParseErrorKind::ExpectedIdentifier { .. }));
    assert_eq!(program.statements.len(), 2);
}

#[test]
fn parsing_ends_on_any_input() {
    let sources = [
        "((((((((",
        "))))))))",
        "{{{{{{{{",
        "}}}}}}}}",
        "}{)(}{)(",
        "fun fun fun",
        "for for for",
        "if if if",
        "var var var",
        "f(f(f(f(",
        "1 + + + +",
        "a = = = =",
        "or or or",
        "else else",
        ", , ,",
        "fun f(a, { } )",
        "for (;;",
        "while { {",
        "return return",
        "print ( ; ) }",
        "f(; }",
    ];
    for source in sources {
        let (_, errors) = parse(source);
        assert!(!errors.is_empty(), "no diagnostic for {:?}", source);
    }
}

#[test]
fn texts_of_the_diagnostics() {
    assert_eq!(Side::Right.as_text(), "right");
    assert_eq!(Side::Left.as_text(), "left");
    assert_eq!(NameFault::StartsWithDigit.variable_message(), "A variable cannot start with a number");
    assert_eq!(NameFault::IsNumber.variable_message(), "A variable name cannot be a number");
    assert_eq!(NameFault::StartsWithDigit.function_message(), "A function name cannot start with a number");
    assert_eq!(NameFault::IsNumber.function_message(), "A function name cannot be a number");
    assert_eq!(IdentContext::VariableName.as_text(), "variable name");
    assert_eq!(IdentContext::Parameter.as_text(), "parameter");
    assert_eq!(Expected::OpeningDelimiter.as_text(), "an opening delimiter");
    assert_eq!(Expected::AssignOrSemicolon.as_text(), "'=' or ';'");
    assert_eq!(Expected::CommaOrRightParen.as_text(), "',', or ')'");
    assert_eq!(Expected::Primary.as_text(), "literal or '('");
}

fn on_tokens(span: Span, starts: &[usize], ends: &[usize]) -> bool {
    starts.contains(&span.offset) && ends.contains(&(span.offset + span.len))
}

fn check_block(block: &rslox::ast::Typed<rslox::ast::BlockStmt>, starts: &[usize], ends: &[usize]) {
    assert!(on_tokens(block.span, starts, ends), "block at {:?}", block.span);
    assert!(block.type_id.is_none());
    for stmt in &block.node.statements {
        check_stmt(stmt, starts, ends);
    }
}

fn check_expr(expr: &Expr, starts: &[usize], ends: &[usize]) {
    assert!(on_tokens(expr_span(expr), starts, ends), "expression at {:?}", expr_span(expr));
    match expr {
        Expr::Literal(_) | Expr::Variable(_) => {}
        Expr::Unary(t) => check_expr(&t.node.expr, starts, ends),
        Expr::Binary(t) => {
            check_expr(&t.node.left, starts, ends);
            check_expr(&t.node.right, starts, ends);
        }
        Expr::Logical(t) => {
            check_expr(&t.node.left, starts, ends);
            check_expr(&t.node.right, starts, ends);
        }
        Expr::Grouping(t) => check_expr(&t.node, starts, ends),
        Expr::Assign(t) => check_expr(&t.node.value, starts, ends),
        Expr::Call(t) => {
            check_expr(&t.node.callee, starts, ends);
            for argument in &t.node.arguments {
                check_expr(argument, starts, ends);
            }
        }
        Expr::Lambda(t) => check_block(&t.node.body, starts, ends),
    }
}

fn check_stmt(stmt: &Stmt, starts: &[usize], ends: &[usize]) {
    match stmt {
        Stmt::ExprStmt(t) | Stmt::PrintStmt(t) => {
            assert!(on_tokens(t.span, starts, ends), "statement at {:?}", t.span);
            check_expr(&t.node, starts, ends);
        }
        Stmt::VarDecl(t) => {
            assert!(on_tokens(t.span, starts, ends), "declaration at {:?}", t.span);
            if let Some(e) = &t.node.initializer {
                check_expr(e, starts, ends);
            }
        }
        Stmt::FunDecl(t) => {
            assert!(on_tokens(t.span, starts, ends), "function at {:?}", t.span);
            check_block(&t.node.body, starts, ends);
        }
        Stmt::Block(b) => check_block(b, starts, ends),
        Stmt::If(t) => {
            assert!(on_tokens(t.span, starts, ends), "if at {:?}", t.span);
            check_expr(&t.node.condition, starts, ends);
            check_block(&t.node.then_branch, starts, ends);
            if let Some(other) = &t.node.else_branch {
                check_block(other, starts, ends);
            }
        }
        Stmt::While(t) => {
            assert!(on_tokens(t.span, starts, ends), "while at {:?}", t.span);
            check_expr(&t.node.condition, starts, ends);
            check_block(&t.node.body, starts, ends);
        }
        Stmt::Return(t) => {
            assert!(on_tokens(t.span, starts, ends), "return at {:?}", t.span);
            if let Some(e) = &t.node {
                check_expr(e, starts, ends);
            }
        }
    }
}

#[test]
fn every_node_reaches_from_a_token_to_a_token() {
    let sources = [
        "var a = (1 + 2) * -3; print a == 4 or a < 5 and !true;",
        "fun f(x, y) { if x < y { return f(y, x)(1); } else { while x { x = x - 1; } } }",
        "for (var i = 0; i < 3; i = i + 1) { print i; } for ;; { }",
        "var g = fun (a) { return a; }; g(1, g(2), \"s\");",
        "print 1 print 2; var x = 1 2; if ) { } a or ; { (1 + ; } while else { }",
        "if else { } for (; a b) { } x = = 1; return return;",
    ];
    for source in sources {
        let mut lexer = Lexer::new(source);
        lexer.lex();
        let tokens = lexer.get_tokens();
        let starts: Vec<usize> = tokens.iter().map(|t| t.span.offset).collect();
        let ends: Vec<usize> = tokens.iter().map(|t| t.span.offset + t.span.len).collect();
        let mut parser = Parser::new(tokens, source);
        let program = parser.parse();
        for stmt in &program.statements {
            check_stmt(stmt, &starts, &ends);
        }
    }
}
