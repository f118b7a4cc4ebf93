use lambda_types::hm::ast::Bind;
use lambda_types::hm::ast::Expression;
use lambda_types::hm::ast::Variable;
use lambda_types::hm::error::Error;
use lambda_types::hm::inference::Environment;
use lambda_types::hm::inference::Inference;
use lambda_types::hm::inference::Type;
use lambda_types::span::Span;

fn sp(start: usize, end: usize) -> Span {
    Span::new(start, end)
}

fn var(name: char) -> Expression {
    Expression::Variable(Variable { name, span: sp(0, 1) })
}

fn lam(name: char, body: Expression) -> Expression {
    Expression::Abstraction {
        variable: Variable { name, span: sp(0, 1) },
        expression: Box::new(body),
        span: sp(0, 10),
    }
}

fn app(callee: Expression, arg: Expression) -> Expression {
    Expression::Application { callee: Box::new(callee), arg: Box::new(arg), span: sp(0, 10) }
}

fn add(lhs: Expression, rhs: Expression) -> Expression {
    Expression::Addition { lhs: Box::new(lhs), rhs: Box::new(rhs), span: sp(0, 10) }
}

fn lit(n: i32) -> Expression {
    Expression::Int { n, span: sp(0, 2) }
}

fn run(expr: &Expression) -> Result<Type, Error> {
    let mut inference = Inference::new();
    let mut env = Environment::new();
    inference.infer_resolved(expr, &mut env)
}

#[test]
fn literal_int_types_as_int() {
    assert_eq!(run(&lit(42)), Ok(Type::Int));
}

#[test]
fn literal_unit_types_as_unit() {
    assert_eq!(run(&Expression::Unit { span: sp(0, 2) }), Ok(Type::Unit));
}

#[test]
fn addition_of_literals_is_int() {
    assert_eq!(run(&add(lit(1), lit(2))), Ok(Type::Int));
}

#[test]
fn addition_with_unit_operand_fails() {
    let mut inference = Inference::new();
    let mut env = Environment::new();
    env.push('x', Type::Unit);
    let result = inference.infer_resolved(&add(var('x'), lit(1)), &mut env);
    match result {
        Err(Error::UnificationFailure { expected, found, .. }) => {
            assert_eq!(expected, "Int");
            assert_eq!(found, "Unit");
        },
        other => panic!("expected a unification failure, got {:?}", other),
    }
}

#[test]
fn identity_function_gets_matching_variable_ids() {
    let result = run(&lam('x', var('x')));
    match result {
        Ok(Type::Function(param, ret)) => match (*param, *ret) {
            (Type::Variable(i), Type::Variable(j)) => assert_eq!(i, j),
            other => panic!("expected two type variables, got {:?}", other),
        },
        other => panic!("expected a function type, got {:?}", other),
    }
}

#[test]
fn applying_identity_to_int_resolves_to_int() {
    assert_eq!(run(&app(lam('x', var('x')), lit(5))), Ok(Type::Int));
}

#[test]
fn self_application_fails_with_infinite_type() {
    let result = run(&lam('x', app(var('x'), var('x'))));
    assert!(matches!(result, Err(Error::InfiniteType { .. })));
}

#[test]
fn undefined_symbol_is_reported_with_its_name() {
    let result = run(&Expression::Variable(Variable { name: 'y', span: sp(3, 4) }));
    match result {
        Err(Error::UndefinedSymbol { name, span }) => {
            assert_eq!(name, 'y');
            assert_eq!(span, Span::new(3, 4));
        },
        other => panic!("expected an undefined symbol error, got {:?}", other),
    }
}

#[test]
fn inference_is_deterministic_across_runs() {
    let expr = app(lam('x', add(var('x'), lit(1))), lit(2));
    let first = run(&expr);
    let second = run(&expr);
    assert_eq!(first, Ok(Type::Int));
    assert_eq!(first, second);
}

#[test]
fn mutually_recursive_letrec_typechecks() {
    // letrec f = \x. g x; g = \y. f y; in f
    let binds = vec![
        Bind {
            variable: Variable { name: 'f', span: sp(0, 1) },
            expression: lam('x', app(var('g'), var('x'))),
        },
        Bind {
            variable: Variable { name: 'g', span: sp(2, 3) },
            expression: lam('y', app(var('f'), var('y'))),
        },
    ];
    let expr = Expression::Letrec { binds, body: Box::new(var('f')), span: sp(0, 30) };
    let result = run(&expr);
    assert!(result.is_ok(), "mutual recursion failed: {:?}", result);
}

#[test]
fn letrec_can_build_recursive_functions_over_int() {
    // letrec f = \x. f (x + 1); in f 0
    let binds = vec![Bind {
        variable: Variable { name: 'f', span: sp(0, 1) },
        expression: lam('x', app(var('f'), add(var('x'), lit(1)))),
    }];
    let expr = Expression::Letrec {
        binds,
        body: Box::new(app(var('f'), lit(0))),
        span: sp(0, 30),
    };
    let result = run(&expr);
    assert!(result.is_ok(), "recursive function failed: {:?}", result);
}

#[test]
fn let_binds_non_recursively() {
    // let x = 5; in x + 1
    let expr = Expression::Let {
        bind: Box::new(Bind {
            variable: Variable { name: 'x', span: sp(4, 5) },
            expression: lit(5),
        }),
        body: Box::new(add(var('x'), lit(1))),
        span: sp(0, 20),
    };
    assert_eq!(run(&expr), Ok(Type::Int));
}

#[test]
fn let_right_hand_side_cannot_see_its_own_name() {
    // let x = x; in x
    let expr = Expression::Let {
        bind: Box::new(Bind {
            variable: Variable { name: 'x', span: sp(4, 5) },
            expression: var('x'),
        }),
        body: Box::new(var('x')),
        span: sp(0, 20),
    };
    assert!(matches!(run(&expr), Err(Error::UndefinedSymbol { name: 'x', .. })));
}

#[test]
fn substitution_application_is_idempotent() {
    let expr = app(lam('x', var('x')), lit(5));
    let mut inference = Inference::new();
    let mut env = Environment::new();
    let raw = inference.infer(&expr, &mut env).unwrap();
    inference.solve().unwrap();
    let once = inference.substitutions.apply(&raw);
    let twice = inference.substitutions.apply(&once);
    assert_eq!(once, twice);
    assert_eq!(once, Type::Int);
}

#[test]
fn substitution_reports_resolved_and_unresolved_variables() {
    let expr = app(lam('x', var('x')), lit(5));
    let mut inference = Inference::new();
    let mut env = Environment::new();
    inference.infer(&expr, &mut env).unwrap();
    let sub = inference.solve().unwrap();
    // The identity's parameter variable was forced to Int.
    assert_eq!(sub.get(0), Some(Type::Int));
    // An id never allocated stays unresolved.
    assert_eq!(sub.get(u16::MAX), None);
}

#[test]
fn fresh_type_variables_are_dense_and_distinct() {
    let mut inference = Inference::new();
    let a = inference.fresh_type_variable();
    let b = inference.fresh_type_variable();
    let c = inference.fresh_type_variable();
    assert_eq!(a, Type::Variable(0));
    assert_eq!(b, Type::Variable(1));
    assert_eq!(c, Type::Variable(2));
    assert!(inference.constraints.is_empty());
}

#[test]
fn environment_lookup_prefers_latest_binding() {
    let mut env = Environment::new();
    env.push('x', Type::Int);
    env.push('x', Type::Unit);
    let mut inference = Inference::new();
    assert_eq!(inference.infer_resolved(&var('x'), &mut env), Ok(Type::Unit));
}

#[test]
fn solving_without_constraints_leaves_variables_generic() {
    let result = run(&lam('x', Expression::Unit { span: sp(5, 7) }));
    match result {
        Ok(Type::Function(param, ret)) => {
            assert!(matches!(*param, Type::Variable(_)));
            assert_eq!(*ret, Type::Unit);
        },
        other => panic!("expected a function type, got {:?}", other),
    }
}

#[test]
fn function_display_parenthesizes_parameter_functions_only() {
    let int_to_int = Type::Function(Box::new(Type::Int), Box::new(Type::Int));
    let left_nested = Type::Function(Box::new(int_to_int), Box::new(Type::Int));
    assert_eq!(left_nested.to_string(), "(Int -> Int) -> Int");
    let int_to_int_again = Type::Function(Box::new(Type::Int), Box::new(Type::Int));
    let right_nested = Type::Function(Box::new(Type::Int), Box::new(int_to_int_again));
    assert_eq!(right_nested.to_string(), "Int -> Int -> Int");
}

#[test]
fn variable_display_carries_its_id() {
    assert_eq!(Type::Variable(3).to_string(), "t3");
    assert_eq!(Type::Variable(12).to_string(), "t12");
    assert_eq!(Type::Variable(0).to_string(), "t0");
    assert_eq!(Type::Unit.to_string(), "Unit");
    assert_eq!(Type::Int.to_string(), "Int");
}

#[test]
fn structural_equality_compares_whole_trees() {
    let a = Type::Function(Box::new(Type::Int), Box::new(Type::Variable(1)));
    let b = Type::Function(Box::new(Type::Int), Box::new(Type::Variable(1)));
    let c = Type::Function(Box::new(Type::Int), Box::new(Type::Variable(2)));
    assert_eq!(a, b);
    assert_ne!(a, c);
    assert_ne!(Type::Int, Type::Unit);
}

#[test]
fn infinite_type_reports_the_constraint_span() {
    // The application `x x` sits at bytes 2..7 of some source.
    let expr = Expression::Abstraction {
        variable: Variable { name: 'x', span: sp(1, 2) },
        expression: Box::new(Expression::Application {
            callee: Box::new(Expression::Variable(Variable { name: 'x', span: sp(2, 3) })),
            arg: Box::new(Expression::Variable(Variable { name: 'x', span: sp(4, 5) })),
            span: sp(2, 7),
        }),
        span: sp(0, 7),
    };
    match run(&expr) {
        Err(Error::InfiniteType { span }) => assert_eq!(span, Span::new(2, 7)),
        other => panic!("expected an infinite type error, got {:?}", other),
    }
}

#[test]
fn applying_a_non_function_fails() {
    let result = run(&app(lit(1), lit(2)));
    match result {
        Err(Error::UnificationFailure { found, .. }) => assert_eq!(found, "Int"),
        other => panic!("expected a unification failure, got {:?}", other),
    }
}
