// Rendering of larger trees, and stripping of the outer parentheses.

use proton::expr::Expr;
use proton::format::{pretty_print, strip_outer_parantheses};

fn decimal(bits: u64) -> String {
    f64::from_bits(bits).to_string()
}

fn num(value: f64) -> Expr {
    Expr::Number(value.to_bits())
}

fn var(name: &str) -> Expr {
    Expr::Variable(name.to_string())
}

fn call(name: &str, args: Vec<Expr>) -> Expr {
    Expr::Func(name.to_string(), args)
}

fn print(expr: &Expr) -> String {
    pretty_print(expr, &decimal)
}

fn strip(s: &str) -> String {
    strip_outer_parantheses(s.to_string())
}

#[test]
fn test_pretty_print_whole_number_has_no_fraction() {
    assert_eq!(print(&num(42.0)), "42");
    assert_eq!(print(&num(-1.5)), "-1.5");
    assert_eq!(print(&num(0.1)), "0.1");
}

#[test]
fn test_pretty_print_call_with_two_arguments() {
    let expr = call("max", vec![num(1.0), num(2.0)]);
    assert_eq!(print(&expr), "max(1, 2)");
}

#[test]
fn test_pretty_print_call_with_three_arguments() {
    let expr = call("min", vec![var("a"), num(2.5), var("c")]);
    assert_eq!(print(&expr), "min(a, 2.5, c)");
}

#[test]
fn test_pretty_print_call_without_arguments() {
    assert_eq!(print(&call("f", vec![])), "f()");
}

#[test]
fn test_pretty_print_does_not_check_the_call() {
    assert_eq!(print(&call("unknown", vec![num(1.0)])), "unknown(1)");
    assert_eq!(print(&call("sin", vec![num(1.0), num(2.0)])), "sin(1, 2)");
}

#[test]
fn test_pretty_print_keeps_every_pair_of_parentheses() {
    let sum = Expr::Add(Box::new(num(1.0)), Box::new(num(2.0)));
    let product = Expr::Mul(Box::new(sum), Box::new(num(3.0)));
    assert_eq!(print(&product), "((1 + 2) * 3)");
    let sum = Expr::Add(Box::new(num(1.0)), Box::new(num(2.0)));
    let product = Expr::Mul(Box::new(num(3.0)), Box::new(sum));
    assert_eq!(print(&product), "(3 * (1 + 2))");
}

#[test]
fn test_pretty_print_call_around_an_operation() {
    let expr = call("sin", vec![Expr::Add(Box::new(var("x")), Box::new(var("y")))]);
    assert_eq!(print(&expr), "sin((x + y))");
}

fn quotient() -> Expr {
    // ((x + 2) ^ 2) / y
    Expr::Div(
        Box::new(Expr::Pow(
            Box::new(Expr::Add(Box::new(var("x")), Box::new(num(2.0)))),
            Box::new(num(2.0)),
        )),
        Box::new(var("y")),
    )
}

#[test]
fn test_pretty_print_nested_expression() {
    assert_eq!(print(&quotient()), "(((x + 2) ^ 2) / y)");
}

#[test]
fn test_strip_after_pretty_print_of_an_operation_removes_one_pair() {
    assert_eq!(strip_outer_parantheses(print(&quotient())), "((x + 2) ^ 2) / y");
    let sum = Expr::Add(Box::new(num(1.0)), Box::new(num(2.0)));
    assert_eq!(strip_outer_parantheses(print(&sum)), "1 + 2");
}

#[test]
fn test_strip_after_pretty_print_of_a_power_of_calls() {
    // ((sin(x + y) + 3) / 2) ^ tan(x)
    let expr = Expr::Pow(
        Box::new(Expr::Div(
            Box::new(Expr::Add(
                Box::new(call("sin", vec![Expr::Add(Box::new(var("x")), Box::new(var("y")))])),
                Box::new(num(3.0)),
            )),
            Box::new(num(2.0)),
        )),
        Box::new(call("tan", vec![var("x")])),
    );
    assert_eq!(
        strip_outer_parantheses(print(&expr)),
        "((sin((x + y)) + 3) / 2) ^ tan(x)"
    );
}

#[test]
fn test_strip_after_pretty_print_of_a_leaf_or_call_changes_nothing() {
    assert_eq!(strip_outer_parantheses(print(&num(3.14))), "3.14");
    assert_eq!(strip_outer_parantheses(print(&var("theta"))), "theta");
    assert_eq!(strip_outer_parantheses(print(&call("sin", vec![var("x")]))), "sin(x)");
    assert_eq!(strip_outer_parantheses(print(&call("f", vec![]))), "f()");
}

#[test]
fn test_strip_takes_a_wrapped_name_for_parentheses() {
    assert_eq!(strip_outer_parantheses(print(&var("(x)"))), "x");
    assert_eq!(strip_outer_parantheses(print(&call("", vec![var("x")]))), "x");
    assert_eq!(strip_outer_parantheses(print(&call("(f", vec![var("x")]))), "f(x");
}

#[test]
fn test_strip_removes_one_layer_per_call() {
    assert_eq!(strip("((a))"), "(a)");
    assert_eq!(strip(&strip("((a))")), "a");
    assert_eq!(strip(&strip(&strip("((a))"))), "a");
}

#[test]
fn test_strip_does_not_match_the_parentheses() {
    assert_eq!(strip("(a) + (b)"), "a) + (b");
}

#[test]
fn test_strip_leaves_other_texts_unchanged() {
    assert_eq!(strip(""), "");
    assert_eq!(strip("a"), "a");
    assert_eq!(strip("("), "(");
    assert_eq!(strip(")"), ")");
    assert_eq!(strip(")("), ")(");
    assert_eq!(strip("(a"), "(a");
    assert_eq!(strip("a)"), "a)");
    assert_eq!(strip(" (a)"), " (a)");
    assert_eq!(strip("(a) "), "(a) ");
    assert_eq!(strip("[a]"), "[a]");
}

#[test]
fn test_strip_shortest_wrapped_text() {
    assert_eq!(strip("()"), "");
    assert_eq!(strip("(())"), "()");
}

#[test]
fn test_strip_counts_characters_not_bytes() {
    assert_eq!(strip("(θ)"), "θ");
    assert_eq!(strip("(é + ü)"), "é + ü");
    assert_eq!(strip("θ)"), "θ)");
    assert_eq!(strip("(θ"), "(θ");
}

#[test]
fn test_formatter_decides_the_text_of_a_number() {
    let hex = |bits: u64| format!("{:#x}", bits);
    let expr = Expr::Add(Box::new(Expr::Number(255)), Box::new(var("x")));
    assert_eq!(pretty_print(&expr, &hex), "(0xff + x)");
}

#[test]
fn test_clone_is_a_deep_copy() {
    let tree = call("max", vec![quotient(), num(1.0), call("f", vec![])]);
    let copy = tree.clone();
    assert_eq!(print(&copy), print(&tree));
    assert_eq!(print(&copy), "max((((x + 2) ^ 2) / y), 1, f())");
    drop(tree);
    assert_eq!(print(&copy), "max((((x + 2) ^ 2) / y), 1, f())");
}
