// Evaluation over the binary64 kernel: literals, variables, the infix
// operators, the built-in functions and the two ways a call can fail.

use proton::env::Environment;
use proton::eval::{evaluate, EvalError, Operation, Reducer, UnaryOp};
use proton::expr::{Expr, Operator};

fn kernel(op: Operation) -> u64 {
    let f = f64::from_bits;
    let value = match op {
        Operation::Infix(Operator::Add, a, b) => f(a) + f(b),
        Operation::Infix(Operator::Sub, a, b) => f(a) - f(b),
        Operation::Infix(Operator::Mul, a, b) => f(a) * f(b),
        Operation::Infix(Operator::Div, a, b) => f(a) / f(b),
        Operation::Infix(Operator::Pow, a, b) => f(a).powf(f(b)),
        Operation::Unary(UnaryOp::Sin, x) => f(x).sin(),
        Operation::Unary(UnaryOp::Cos, x) => f(x).cos(),
        Operation::Unary(UnaryOp::Tan, x) => f(x).tan(),
        Operation::Unary(UnaryOp::Ln, x) => f(x).ln(),
        Operation::Unary(UnaryOp::Log10, x) => f(x).log10(),
        Operation::Unary(UnaryOp::Log2, x) => f(x).log2(),
        Operation::Unary(UnaryOp::Sqrt, x) => f(x).sqrt(),
        Operation::Reduce(Reducer::Max, acc, x) => f64::max(f(acc), f(x)),
        Operation::Reduce(Reducer::Min, acc, x) => f64::min(f(acc), f(x)),
    };
    value.to_bits()
}

fn num(value: f64) -> Expr {
    Expr::Number(value.to_bits())
}

fn eval(expr: &Expr, vars: &Environment) -> f64 {
    let mut missing = Vec::new();
    match evaluate(expr, vars, &kernel, &mut missing) {
        Ok(bits) => f64::from_bits(bits),
        Err(EvalError::UnknownFunction { name }) => panic!("Unknown Function: {}...", name),
        Err(EvalError::ArityMismatch { function, expected, actual }) => panic!(
            "{}() expects exactly {} argument, but got {}",
            function, expected, actual
        ),
    }
}

/// Test evaluation of a numeric literal.
#[test]
fn test_number_literal() {
    let expr = num(42.0);
    let vars = Environment::new();
    assert_eq!(eval(&expr, &vars), 42.0);
}

/// Test evaluation of a variable when the variable is present in the environment.
#[test]
fn test_variable_lookup() {
    let expr = Expr::Variable("x".to_string());
    let mut vars = Environment::new();
    vars.insert("x".to_string(), 3.14f64.to_bits());
    assert_eq!(eval(&expr, &vars), 3.14);
}

/// Test evaluation of a variable when the variable is missing from the environment.
/// Should return NaN.
#[test]
fn test_variable_not_found() {
    let expr = Expr::Variable("y".to_string());
    let vars = Environment::new();
    assert!(eval(&expr, &vars).is_nan());
}

/// Test evaluation of an addition expression.
#[test]
fn test_addition() {
    let expr = Expr::Add(Box::new(num(2.0)), Box::new(num(3.0)));
    let vars = Environment::new();
    assert_eq!(eval(&expr, &vars), 5.0);
}

/// Test evaluation of a subtraction expression.
#[test]
fn test_subtraction() {
    let expr = Expr::Sub(Box::new(num(5.0)), Box::new(num(2.0)));
    let vars = Environment::new();
    assert_eq!(eval(&expr, &vars), 3.0);
}

/// Test evaluation of a multiplication expression.
#[test]
fn test_multiplication() {
    let expr = Expr::Mul(Box::new(num(4.0)), Box::new(num(2.5)));
    let vars = Environment::new();
    assert_eq!(eval(&expr, &vars), 10.0);
}

/// Test evaluation of a division expression.
#[test]
fn test_division() {
    let expr = Expr::Div(Box::new(num(10.0)), Box::new(num(2.0)));
    let vars = Environment::new();
    assert_eq!(eval(&expr, &vars), 5.0);
}

/// Test evaluation of an exponentiation expression.
#[test]
fn test_exponentiation() {
    let expr = Expr::Pow(Box::new(num(2.0)), Box::new(num(3.0)));
    let vars = Environment::new();
    assert_eq!(eval(&expr, &vars), 8.0);
}

/// Test evaluation of built-in mathematical functions (sin, cos, sqrt).
#[test]
fn test_builtin_functions() {
    let vars = Environment::new();

    // Test sine function
    let expr = Expr::Func("sin".to_string(), vec![num(0.0)]);
    assert_eq!(eval(&expr, &vars), 0.0);

    // Test cosine function
    let expr = Expr::Func("cos".to_string(), vec![num(0.0)]);
    assert_eq!(eval(&expr, &vars), 1.0);

    // Test square root function
    let expr = Expr::Func("sqrt".to_string(), vec![num(9.0)]);
    assert_eq!(eval(&expr, &vars), 3.0);
}

/// Test that an unknown function name, once the error is escalated, aborts
/// with a message that names it.
#[test]
#[should_panic(expected = "Unknown Function")]
fn test_unknown_function_panics() {
    let vars = Environment::new();
    let expr = Expr::Func("unknown".to_string(), vec![num(1.0)]);
    eval(&expr, &vars);
}
