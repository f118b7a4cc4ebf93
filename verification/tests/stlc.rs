use lambda_types::span::Span;
use lambda_types::stlc::ast::Expression;
use lambda_types::stlc::ast::Type;
use lambda_types::stlc::ast::Variable;
use lambda_types::stlc::error::Error;
use lambda_types::stlc::error::ErrorKind;
use lambda_types::stlc::typechecker::TypeChecker;

fn sp(start: usize, end: usize) -> Span {
    Span::new(start, end)
}

fn var(name: char) -> Expression {
    Expression::Variable(Variable { name, span: sp(0, 1) })
}

fn lam(name: char, typ: Type, body: Expression) -> Expression {
    Expression::Abstraction {
        variable: Variable { name, span: sp(0, 1) },
        typ,
        expression: Box::new(body),
        span: sp(0, 10),
    }
}

fn app(callee: Expression, arg: Expression) -> Expression {
    Expression::Application { callee: Box::new(callee), arg: Box::new(arg), span: sp(0, 10) }
}

fn add(lhs: Expression, rhs: Expression) -> Expression {
    Expression::Addition { lhs: Box::new(lhs), rhs: Box::new(rhs), span: sp(0, 10) }
}

fn lit(n: i32) -> Expression {
    Expression::Int { n, span: sp(0, 2) }
}

fn unit() -> Expression {
    Expression::Unit { span: sp(0, 2) }
}

fn check(expr: &Expression) -> Result<Type, Error> {
    let mut tc = TypeChecker::new();
    tc.check(expr, sp(0, 10))
}

#[test]
fn annotated_identity_is_a_function_type() {
    let result = check(&lam('x', Type::Int, var('x')));
    assert_eq!(result, Ok(Type::Function(Box::new(Type::Int), Box::new(Type::Int))));
}

#[test]
fn checked_application_returns_the_result_type() {
    assert_eq!(check(&app(lam('x', Type::Int, var('x')), lit(5))), Ok(Type::Int));
}

#[test]
fn argument_type_mismatch_is_reported() {
    let result = check(&app(lam('x', Type::Int, var('x')), unit()));
    match result {
        Err(Error { kind: ErrorKind::TypeMismatch { expected, found_type, .. }, .. }) => {
            assert_eq!(expected, "Int");
            assert_eq!(found_type, "Unit");
        },
        other => panic!("expected a type mismatch, got {:?}", other),
    }
}

#[test]
fn applying_a_non_function_is_a_mismatch() {
    let result = check(&app(lit(5), lit(6)));
    match result {
        Err(Error { kind: ErrorKind::TypeMismatch { expected, found_type, .. }, .. }) => {
            assert_eq!(expected, "Function");
            assert_eq!(found_type, "Int");
        },
        other => panic!("expected a type mismatch, got {:?}", other),
    }
}

#[test]
fn addition_of_ints_checks() {
    assert_eq!(check(&add(lit(1), lit(2))), Ok(Type::Int));
}

#[test]
fn addition_reports_the_right_operand_type() {
    let result = check(&add(lit(1), unit()));
    match result {
        Err(Error { kind: ErrorKind::TypeMismatch { expected, found_type, .. }, .. }) => {
            assert_eq!(expected, "Int");
            assert_eq!(found_type, "Unit");
        },
        other => panic!("expected a type mismatch, got {:?}", other),
    }
}

#[test]
fn addition_reports_the_left_operand_type() {
    let result = check(&add(unit(), lit(1)));
    match result {
        Err(Error { kind: ErrorKind::TypeMismatch { found_type, .. }, .. }) => {
            assert_eq!(found_type, "Unit");
        },
        other => panic!("expected a type mismatch, got {:?}", other),
    }
}

#[test]
fn undefined_symbol_carries_name_and_spans() {
    let mut tc = TypeChecker::new();
    let expr = Expression::Variable(Variable { name: 'y', span: sp(7, 8) });
    match tc.check(&expr, sp(0, 9)) {
        Err(Error { kind: ErrorKind::UndefinedSymbol { name, span }, span: outer }) => {
            assert_eq!(name, 'y');
            assert_eq!(span, Span::new(7, 8));
            assert_eq!(outer, Span::new(0, 9));
        },
        other => panic!("expected an undefined symbol error, got {:?}", other),
    }
}

#[test]
fn abstraction_binding_does_not_leak_to_siblings() {
    // ((\x: Int. x) 1) + x : the x bound inside the abstraction must
    // not be visible in the right operand of the addition.
    let expr = add(app(lam('x', Type::Int, var('x')), lit(1)), var('x'));
    let result = check(&expr);
    assert!(matches!(
        result,
        Err(Error { kind: ErrorKind::UndefinedSymbol { name: 'x', .. }, .. })
    ));
}

#[test]
fn checker_context_is_reusable_across_calls() {
    let mut tc = TypeChecker::new();
    let first = tc.check(&lam('x', Type::Unit, var('x')), sp(0, 10));
    assert_eq!(first, Ok(Type::Function(Box::new(Type::Unit), Box::new(Type::Unit))));
    // The binding of the first term's parameter is gone again.
    let second = tc.check(&var('x'), sp(0, 10));
    assert!(matches!(
        second,
        Err(Error { kind: ErrorKind::UndefinedSymbol { name: 'x', .. }, .. })
    ));
}

#[test]
fn higher_order_parameter_types_check() {
    // \f: Int -> Int. f 3  applied to the identity on Int.
    let f_type = Type::Function(Box::new(Type::Int), Box::new(Type::Int));
    let expr = app(lam('f', f_type, app(var('f'), lit(3))), lam('x', Type::Int, var('x')));
    assert_eq!(check(&expr), Ok(Type::Int));
}

#[test]
fn stlc_type_display_matches_structure() {
    let int_to_int = Type::Function(Box::new(Type::Int), Box::new(Type::Int));
    let nested = Type::Function(Box::new(int_to_int), Box::new(Type::Unit));
    assert_eq!(nested.to_string(), "(Int -> Int) -> Unit");
    assert_eq!(Type::Unit.to_string(), "Unit");
    assert_eq!(Type::Int.to_string(), "Int");
}

#[test]
fn error_new_builds_the_error() {
    let e = Error::new(
        ErrorKind::UndefinedSymbol { name: 'q', span: sp(1, 2) },
        sp(0, 5),
    );
    assert_eq!(e.span, Span::new(0, 5));
    assert!(matches!(e.kind, ErrorKind::UndefinedSymbol { name: 'q', .. }));
}

#[test]
fn literals_check_directly() {
    assert_eq!(check(&lit(7)), Ok(Type::Int));
    assert_eq!(check(&unit()), Ok(Type::Unit));
}
