use rslox::error::ResolverError;
use rslox::lexer::Lexer;
use rslox::parser::Parser;
use rslox::resolver::Resolver;
use rslox::span::Span;

fn resolve(source: &str) -> Vec<ResolverError> {
    let mut lexer = Lexer::new(source);
    lexer.lex();
    let tokens = lexer.get_tokens();
    let mut parser = Parser::new(tokens, source);
    let program = parser.parse();
    let syntax = parser.get_errors();
    assert!(syntax.is_empty(), "unexpected diagnostics: {:?}", syntax);
    Resolver::new(&program, source.to_string()).resolve()
}

fn span(offset: usize, len: usize) -> Span {
    Span { offset, len }
}

fn undefined(error: &ResolverError) -> (&str, Span) {
    match error {
        ResolverError::UndefinedVariable { name, span, .. } => (name.as_str(), *span),
        other => panic!("not an undefined variable: {:?}", other),
    }
}

fn uninitialized(error: &ResolverError) -> (&str, Span) {
    match error {
        ResolverError::UninitializedVariable { name, span, .. } => (name.as_str(), *span),
        other => panic!("not an uninitialized variable: {:?}", other),
    }
}

#[test]
fn empty_program_resolves() {
    assert!(resolve("").is_empty());
}

#[test]
fn inner_initialiser_sees_the_outer_variable() {
    assert!(resolve("{ var x = 1; { var x = x + 1; print x; } }").is_empty());
}

#[test]
fn variable_without_a_value_cannot_be_read() {
    let errors = resolve("var x; print x;");
    assert_eq!(errors.len(), 1);
    assert_eq!(uninitialized(&errors[0]), ("x", span(13, 1)));
    assert!(resolve("var x = 1; print x;").is_empty());
}

#[test]
fn undeclared_variable() {
    let source = "print y;";
    let errors = resolve(source);
    assert_eq!(errors.len(), 1);
    assert_eq!(undefined(&errors[0]), ("y", span(6, 1)));
    match &errors[0] {
        ResolverError::UndefinedVariable { src, .. } => assert_eq!(src, source),
        other => panic!("not an undefined variable: {:?}", other),
    }
}

#[test]
fn repeated_parameter() {
    let errors = resolve("fun f(a, a) { return a; }");
    assert_eq!(errors.len(), 1);
    match &errors[0] {
        ResolverError::DuplicateParameter { function_name, span: at, src } => {
            assert_eq!(function_name, "f");
            assert_eq!(*at, span(9, 1));
            assert_eq!(src, "fun f(a, a) { return a; }");
        }
        other => panic!("not a duplicate parameter: {:?}", other),
    }
    assert_eq!(resolve("fun f(a, b, a, b, a) { }").len(), 3);
    assert!(resolve("fun f(a, b) { } fun g(a, b) { }").is_empty());
}

#[test]
fn variable_cannot_stand_in_its_own_initialiser() {
    let errors = resolve("var x = x;");
    assert_eq!(errors.len(), 1);
    assert_eq!(undefined(&errors[0]), ("x", span(8, 1)));
}

#[test]
fn block_scope_ends_with_the_block() {
    let errors = resolve("{ var x = 1; print x; } print x;");
    assert_eq!(errors.len(), 1);
    assert_eq!(undefined(&errors[0]), ("x", span(30, 1)));
}

#[test]
fn outer_variables_are_in_reach_of_inner_blocks() {
    assert!(resolve("var x = 1; { { print x; } }").is_empty());
}

#[test]
fn inner_variable_hides_the_outer_one() {
    let errors = resolve("var x = 1; { var x; print x; } print x;");
    assert_eq!(errors.len(), 1);
    assert_eq!(uninitialized(&errors[0]), ("x", span(26, 1)));
}

#[test]
fn declaring_again_replaces_the_symbol() {
    assert!(resolve("var x; var x = 1; print x;").is_empty());
    assert_eq!(resolve("var x = 1; var x; print x;").len(), 1);
}

#[test]
fn function_is_in_reach_of_its_own_body() {
    assert!(resolve("fun f(n) { print f; print n; }").is_empty());
}

#[test]
fn function_name_can_be_read() {
    assert!(resolve("fun f() { } print f;").is_empty());
}

#[test]
fn parameters_end_with_the_function() {
    let errors = resolve("fun f(a) { print a; } print a;");
    assert_eq!(errors.len(), 1);
    assert_eq!(undefined(&errors[0]), ("a", span(28, 1)));
}

#[test]
fn function_body_sees_the_enclosing_scopes() {
    let errors = resolve("var g = 1; fun f(a) { print g; print h; }");
    assert_eq!(errors.len(), 1);
    assert_eq!(undefined(&errors[0]).0, "h");
}

#[test]
fn variables_of_a_function_body_live_in_the_scope_of_its_parameters() {
    assert!(resolve("fun f(a) { var b = a; print b; }").is_empty());
    assert_eq!(resolve("fun f(a) { var b = a; } print b;").len(), 1);
}

#[test]
fn assignment_needs_a_declared_target() {
    let errors = resolve("x = 1;");
    assert_eq!(errors.len(), 1);
    assert_eq!(undefined(&errors[0]), ("x", span(0, 1)));
    assert!(resolve("var x; x = 1;").is_empty());
}

#[test]
fn assignment_gives_no_value_in_the_eyes_of_the_resolver() {
    let errors = resolve("var x; x = 1; print x;");
    assert_eq!(errors.len(), 1);
    assert_eq!(uninitialized(&errors[0]), ("x", span(20, 1)));
}

#[test]
fn value_of_an_assignment_is_resolved() {
    let errors = resolve("var x = 1; x = y;");
    assert_eq!(errors.len(), 1);
    assert_eq!(undefined(&errors[0]), ("y", span(15, 1)));
    let errors = resolve("var x; x = y;");
    assert_eq!(errors.len(), 1);
    assert_eq!(undefined(&errors[0]), ("y", span(11, 1)));
    let errors = resolve("a = b = c;");
    assert_eq!(errors.len(), 3);
    assert_eq!(undefined(&errors[0]).0, "a");
    assert_eq!(undefined(&errors[1]).0, "b");
    assert_eq!(undefined(&errors[2]).0, "c");
    assert!(resolve("var x = 1; var y = 2; x = y + x;").is_empty());
}

#[test]
fn calls_are_left_to_a_later_pass() {
    assert!(resolve("f(a, b);").is_empty());
}

#[test]
fn lambda_is_resolved_as_a_function_body() {
    let errors = resolve("var f = fun (a, a) { print b; };");
    assert_eq!(errors.len(), 2);
    match &errors[0] {
        ResolverError::DuplicateParameter { function_name, span: at, .. } => {
            assert_eq!(function_name, "");
            assert_eq!(*at, span(16, 1));
        }
        other => panic!("not a duplicate parameter: {:?}", other),
    }
    assert_eq!(undefined(&errors[1]), ("b", span(27, 1)));
    assert!(resolve("var g = 1; var f = fun (a) { print a + g; };").is_empty());
    assert_eq!(resolve("var f = fun (a) { var b = a; }; print b; print a;").len(), 2);
}

#[test]
fn operands_are_resolved_from_left_to_right() {
    let errors = resolve("print a + b * -c;");
    assert_eq!(errors.len(), 3);
    assert_eq!(undefined(&errors[0]).0, "a");
    assert_eq!(undefined(&errors[1]).0, "b");
    assert_eq!(undefined(&errors[2]).0, "c");
    let errors = resolve("print (a or b) and c;");
    assert_eq!(errors.len(), 3);
    assert_eq!(undefined(&errors[2]), ("c", span(19, 1)));
}

#[test]
fn branches_have_scopes_of_their_own() {
    let errors = resolve("var a = true; if a { var b = 1; print b; } else { print b; } print b;");
    assert_eq!(errors.len(), 2);
    assert_eq!(undefined(&errors[0]), ("b", span(56, 1)));
    assert_eq!(undefined(&errors[1]), ("b", span(67, 1)));
}

#[test]
fn conditions_are_resolved_outside_the_body() {
    let errors = resolve("while c { var c = 1; }");
    assert_eq!(errors.len(), 1);
    assert_eq!(undefined(&errors[0]), ("c", span(6, 1)));
    assert_eq!(resolve("if d { }").len(), 1);
}

#[test]
fn return_value_is_resolved() {
    let errors = resolve("fun f() { return r; }");
    assert_eq!(errors.len(), 1);
    assert_eq!(undefined(&errors[0]).0, "r");
    assert!(resolve("fun f() { return; }").is_empty());
}

#[test]
fn desugared_for_resolves_like_its_parts() {
    assert!(resolve("for (var i = 0; i < 3; i = i + 1) { print i; }").is_empty());
    let errors = resolve("for (var i = 0; i < 3; i = i + 1) { } print i;");
    assert_eq!(errors.len(), 1);
    assert_eq!(undefined(&errors[0]).0, "i");
}

#[test]
fn expression_statement_is_resolved() {
    assert_eq!(resolve("a;").len(), 1);
    assert!(resolve("1; \"s\"; nil; true;").is_empty());
}
