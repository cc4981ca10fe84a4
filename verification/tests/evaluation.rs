use std::rc::Rc;

use miischeme::environment::Environment;
use miischeme::error::KirundiError;
use miischeme::evaluator::Evaluator;
use miischeme::interpreter::Interpreter;
use miischeme::parser::Expr;
use miischeme::value::Value;

fn run_fresh(source: &str) -> Result<Value, KirundiError> {
    let mut session = Interpreter::new();
    session.eval(source)
}

#[test]
fn define_then_lookup_in_same_environment() {
    let mut env = Environment::new();
    env.set("x".to_string(), Value::Number(42));
    assert_eq!(env.get("x"), Some(&Value::Number(42)));
}

#[test]
fn set_overwrites_local_binding() {
    let mut env = Environment::new();
    env.set("x".to_string(), Value::Number(1));
    env.set("x".to_string(), Value::Number(2));
    assert_eq!(env.get("x"), Some(&Value::Number(2)));
}

#[test]
fn child_sees_parent_binding_and_shadows_locally() {
    let mut parent = Environment::new();
    parent.set("x".to_string(), Value::Number(42));
    parent.set("y".to_string(), Value::Number(100));
    let parent = Rc::new(parent);

    let mut child = Environment::new_with_parent(Rc::clone(&parent));
    assert_eq!(child.get("x"), Some(&Value::Number(42)));
    assert_eq!(child.get("y"), Some(&Value::Number(100)));

    child.set("x".to_string(), Value::Number(24));
    child.set("z".to_string(), Value::Number(200));
    assert_eq!(child.get("x"), Some(&Value::Number(24)));
    assert_eq!(child.get("y"), Some(&Value::Number(100)));
    assert_eq!(child.get("z"), Some(&Value::Number(200)));

    // the parent itself is untouched by the child's shadow
    assert_eq!(parent.get("x"), Some(&Value::Number(42)));
    assert_eq!(parent.get("z"), None);

    // removing the shadow reaches the parent's untouched binding again
    child.remove("x");
    assert_eq!(child.get("x"), Some(&Value::Number(42)));
}

#[test]
fn one_parent_backs_several_children() {
    let mut parent = Environment::new();
    parent.set("x".to_string(), Value::Number(1));
    let parent = Rc::new(parent);

    let mut first = Environment::new_with_parent(Rc::clone(&parent));
    let mut second = Environment::new_with_parent(Rc::clone(&parent));
    first.set("x".to_string(), Value::Number(2));
    second.set("y".to_string(), Value::Number(3));

    assert_eq!(first.get("x"), Some(&Value::Number(2)));
    assert_eq!(second.get("x"), Some(&Value::Number(1)));
    assert_eq!(second.get("y"), Some(&Value::Number(3)));
    assert_eq!(first.get("y"), None);
    assert_eq!(parent.get("x"), Some(&Value::Number(1)));
}

#[test]
fn remove_is_local_only() {
    let mut parent = Environment::new();
    parent.set("y".to_string(), Value::Number(7));
    let mut child = Environment::new_with_parent(Rc::new(parent));
    child.remove("y");
    assert_eq!(child.get("y"), Some(&Value::Number(7)));
}

#[test]
fn lookup_of_unbound_name_misses() {
    let env = Environment::new();
    assert_eq!(env.get("undefined_name"), None);
    assert_eq!(
        env.lookup("undefined_name"),
        Err(KirundiError::UndefinedVariable("undefined_name".to_string()))
    );

    let evaluator = Evaluator::new();
    let mut env = Environment::new();
    let err = evaluator
        .evaluate(&Expr::Symbol("undefined_name".to_string()), &mut env)
        .unwrap_err();
    assert_eq!(
        err,
        KirundiError::UndefinedVariable("undefined_name".to_string())
    );
}

#[test]
fn lookup_returns_the_nearest_binding() {
    let mut parent = Environment::new();
    parent.set("x".to_string(), Value::Number(1));
    let mut child = Environment::new_with_parent(Rc::new(parent));
    assert_eq!(child.lookup("x"), Ok(&Value::Number(1)));
    child.set("x".to_string(), Value::Number(2));
    assert_eq!(child.lookup("x"), Ok(&Value::Number(2)));
}

#[test]
fn define_form_binds_and_returns_the_value() {
    let evaluator = Evaluator::new();
    let mut env = Environment::new();
    let form = Expr::List(vec![
        Expr::Symbol("define".to_string()),
        Expr::Symbol("x".to_string()),
        Expr::Number(10),
    ]);
    assert_eq!(evaluator.evaluate(&form, &mut env), Ok(Value::Number(10)));
    assert_eq!(
        evaluator.evaluate(&Expr::Symbol("x".to_string()), &mut env),
        Ok(Value::Number(10))
    );
}

#[test]
fn empty_list_evaluates_to_nil() {
    let evaluator = Evaluator::new();
    let mut env = Environment::new();
    assert_eq!(
        evaluator.evaluate(&Expr::List(vec![]), &mut env),
        Ok(Value::Nil)
    );
    // and again: it never errors
    assert_eq!(
        evaluator.evaluate(&Expr::List(vec![]), &mut env),
        Ok(Value::Nil)
    );
}

#[test]
fn undefined_symbol_failure_leaves_environment_usable() {
    let evaluator = Evaluator::new();
    let mut env = Environment::new();
    let err = evaluator
        .evaluate(&Expr::Symbol("x".to_string()), &mut env)
        .unwrap_err();
    assert_eq!(err, KirundiError::UndefinedVariable("x".to_string()));

    env.set("x".to_string(), Value::Number(3));
    assert_eq!(
        evaluator.evaluate(&Expr::Symbol("x".to_string()), &mut env),
        Ok(Value::Number(3))
    );
}

#[test]
fn arithmetic_operators() {
    assert_eq!(run_fresh("( + 1 2 )"), Ok(Value::Number(3)));
    assert_eq!(run_fresh("( - 5 2 )"), Ok(Value::Number(3)));
    assert_eq!(run_fresh("( * 3 4 )"), Ok(Value::Number(12)));
}

#[test]
fn comparison_operators() {
    assert_eq!(run_fresh("( < 1 2 )"), Ok(Value::Boolean(true)));
    assert_eq!(run_fresh("( > 1 2 )"), Ok(Value::Boolean(false)));
    assert_eq!(run_fresh("( = 2 2 )"), Ok(Value::Boolean(true)));
    assert_eq!(run_fresh("( = 2 3 )"), Ok(Value::Boolean(false)));
}

#[test]
fn arithmetic_overflow_is_a_runtime_error() {
    let err = run_fresh("( + 9223372036854775807 1 )").unwrap_err();
    assert_eq!(
        err,
        KirundiError::RuntimeError("arithmetic overflow".to_string())
    );
}

#[test]
fn non_numeric_operand_is_a_runtime_error() {
    let err = run_fresh("( + ( ) 2 )").unwrap_err();
    assert_eq!(
        err,
        KirundiError::RuntimeError("operand is not a number".to_string())
    );
}

#[test]
fn wrong_operand_count_is_a_runtime_error() {
    let err = run_fresh("( + 1 )").unwrap_err();
    assert!(matches!(err, KirundiError::RuntimeError(_)));
    let err = run_fresh("( + 1 2 3 )").unwrap_err();
    assert!(matches!(err, KirundiError::RuntimeError(_)));
}

#[test]
fn malformed_define_is_a_runtime_error() {
    let err = run_fresh("( define 1 2 )").unwrap_err();
    assert!(matches!(err, KirundiError::RuntimeError(_)));
    let err = run_fresh("( define x )").unwrap_err();
    assert!(matches!(err, KirundiError::RuntimeError(_)));
}

#[test]
fn operands_evaluate_left_to_right_sharing_the_environment() {
    // the binding made by the first operand is visible to the second
    assert_eq!(run_fresh("( + ( define x 2 ) x )"), Ok(Value::Number(4)));
}

#[test]
fn bound_head_that_is_no_operator_is_a_runtime_error() {
    let mut session = Interpreter::new();
    session.eval("( define f 1 )").unwrap();
    let err = session.eval("( f 1 2 )").unwrap_err();
    assert_eq!(
        err,
        KirundiError::RuntimeError("the head of a form is not an operator".to_string())
    );
}

#[test]
fn unbound_head_is_an_undefined_variable() {
    let err = run_fresh("( g 1 2 )").unwrap_err();
    assert_eq!(err, KirundiError::UndefinedVariable("g".to_string()));
}

#[test]
fn number_head_is_a_runtime_error() {
    let err = run_fresh("( 1 2 )").unwrap_err();
    assert_eq!(
        err,
        KirundiError::RuntimeError("the head of a form is not an operator".to_string())
    );
}

#[test]
fn session_keeps_definitions_across_lines() {
    let mut session = Interpreter::new();
    assert_eq!(session.eval("( define x 10 )"), Ok(Value::Number(10)));
    assert_eq!(session.eval("x"), Ok(Value::Number(10)));
    assert_eq!(session.eval("( + x 5 )"), Ok(Value::Number(15)));
}

#[test]
fn session_survives_failing_lines() {
    let mut session = Interpreter::new();
    assert!(matches!(
        session.eval("( define y"),
        Err(KirundiError::SyntaxError(_))
    ));
    assert!(matches!(
        session.eval("99999999999999999999"),
        Err(KirundiError::LexError(_))
    ));
    assert_eq!(session.eval("( define y 1 )"), Ok(Value::Number(1)));
    assert_eq!(session.eval("y"), Ok(Value::Number(1)));
}
