//! Evaluation of an expression over an arithmetic kernel.
//!
//! The evaluator decides what is computed and in which order; the kernel,
//! supplied by the caller, computes each single operation on binary64 bit
//! patterns. The contracts therefore relate a result to the kernel's own
//! postcondition instead of naming a number.

use vstd::prelude::*;
use crate::env::Environment;
use crate::expr::{term_of, terms_of, Expr, Operator, Term};
use crate::text::{same_text, texts};

verus! {

/// The bit pattern of the quiet not-a-number that stands for a variable
/// without a binding.
pub const NAN: u64 = 0x7ff8_0000_0000_0000;

/// The bit pattern of positive infinity.
pub const INFINITY: u64 = 0x7ff0_0000_0000_0000;

/// The bit pattern of negative infinity.
pub const NEG_INFINITY: u64 = 0xfff0_0000_0000_0000;

/// The built-in functions of exactly one argument.
#[derive(Clone, Copy, Debug, PartialEq, Eq, Structural)]
pub enum UnaryOp {
    Sin,
    Cos,
    Tan,
    Ln,
    Log10,
    Log2,
    Sqrt,
}

/// The built-in functions that fold over any number of arguments.
#[derive(Clone, Copy, Debug, PartialEq, Eq, Structural)]
pub enum Reducer {
    Max,
    Min,
}

/// A built-in function, by the way it takes its arguments.
#[derive(Clone, Copy, Debug, PartialEq, Eq, Structural)]
pub enum Builtin {
    Unary(UnaryOp),
    Reducer(Reducer),
}

/// One arithmetic step, as it is handed to the kernel.
///
/// `Reduce(r, acc, x)` asks for one step of a fold: the accumulator comes
/// first, the next argument second.
#[derive(Clone, Copy, Debug, PartialEq, Eq, Structural)]
pub enum Operation {
    Infix(Operator, u64, u64),
    Unary(UnaryOp, u64),
    Reduce(Reducer, u64, u64),
}

/// Why an evaluation was given up.
#[derive(Clone, Debug, PartialEq, Eq)]
pub enum EvalError {
    /// A function of fixed arity was called with another number of arguments.
    ArityMismatch { function: String, expected: usize, actual: usize },
    /// The name of a call is not that of a built-in function.
    UnknownFunction { name: String },
}

/// The model of an [`EvalError`].
pub ghost enum Failure {
    ArityMismatch { function: Seq<char>, expected: nat, actual: nat },
    UnknownFunction { name: Seq<char> },
}

impl View for EvalError {
    type V = Failure;

    open spec fn view(&self) -> Failure {
        match self {
            EvalError::ArityMismatch { function, expected, actual } => Failure::ArityMismatch {
                function: function@,
                expected: *expected as nat,
                actual: *actual as nat,
            },
            EvalError::UnknownFunction { name } => Failure::UnknownFunction { name: name@ },
        }
    }
}

/// Whether a bit pattern is a not-a-number: all exponent bits set and a
/// mantissa other than zero.
pub open spec fn is_nan(bits: u64) -> bool {
    bits & 0x7ff0_0000_0000_0000 == 0x7ff0_0000_0000_0000 && bits & 0x000f_ffff_ffff_ffff != 0
}

/// The built-in function of a name, if the name is one of the nine.
pub open spec fn builtin_of(name: Seq<char>) -> Option<Builtin> {
    if name == "sin"@ {
        Some(Builtin::Unary(UnaryOp::Sin))
    } else if name == "cos"@ {
        Some(Builtin::Unary(UnaryOp::Cos))
    } else if name == "tan"@ {
        Some(Builtin::Unary(UnaryOp::Tan))
    } else if name == "ln"@ {
        Some(Builtin::Unary(UnaryOp::Ln))
    } else if name == "log10"@ {
        Some(Builtin::Unary(UnaryOp::Log10))
    } else if name == "log2"@ {
        Some(Builtin::Unary(UnaryOp::Log2))
    } else if name == "sqrt"@ {
        Some(Builtin::Unary(UnaryOp::Sqrt))
    } else if name == "max"@ {
        Some(Builtin::Reducer(Reducer::Max))
    } else if name == "min"@ {
        Some(Builtin::Reducer(Reducer::Min))
    } else {
        None
    }
}

/// The value a fold starts from.
pub open spec fn seed(reducer: Reducer) -> u64 {
    match reducer {
        Reducer::Max => NEG_INFINITY,
        Reducer::Min => INFINITY,
    }
}

/// The failure of a call by its name and its number of arguments alone:
/// an unknown name fails whatever the count, a unary function fails unless
/// the count is one, a reducer never fails.
pub open spec fn dispatch_failure(name: Seq<char>, count: nat) -> Option<Failure> {
    match builtin_of(name) {
        None => Some(Failure::UnknownFunction { name }),
        Some(Builtin::Unary(_)) => if count == 1 {
            None
        } else {
            Some(Failure::ArityMismatch { function: name, expected: 1, actual: count })
        },
        Some(Builtin::Reducer(_)) => None,
    }
}

/// What an arithmetic admits: `steps(op, value)` says that `value` is a
/// number that the operation `op` may give.
pub type Steps = spec_fn(Operation, u64) -> bool;

/// The arithmetic of a kernel: an operation may give each number that the
/// kernel's postcondition allows it to return for it.
pub open spec fn steps_of<K: Fn(Operation) -> u64>(kernel: K) -> Steps {
    |op: Operation, value: u64| call_ensures(kernel, (op,), value)
}

/// `value` is a result of folding `reducer` over `values` from the left,
/// starting from its seed, each step being one that `steps` admits.
pub open spec fn folds(reducer: Reducer, values: Seq<u64>, steps: Steps, value: u64) -> bool
    decreases values.len(),
{
    if values.len() == 0 {
        value == seed(reducer)
    } else {
        exists|acc: u64|
            #![trigger steps(Operation::Reduce(reducer, acc, values.last()), value)]
            folds(reducer, values.drop_last(), steps, acc) && steps(
                Operation::Reduce(reducer, acc, values.last()),
                value,
            )
    }
}

/// `value` is a result of applying the built-in function `name` to `values`.
pub open spec fn applies(name: Seq<char>, values: Seq<u64>, steps: Steps, value: u64) -> bool {
    match builtin_of(name) {
        Some(Builtin::Unary(f)) => values.len() == 1 && steps(Operation::Unary(f, values[0]), value),
        Some(Builtin::Reducer(reducer)) => folds(reducer, values, steps, value),
        None => false,
    }
}

/// The number a name stands for: the one it is bound to, or not-a-number.
pub open spec fn lookup(env: Map<Seq<char>, u64>, name: Seq<char>) -> u64 {
    if env.contains_key(name) {
        env[name]
    } else {
        NAN
    }
}

/// `k` is the first position of `outcomes` that holds a failure.
pub open spec fn is_first_failure(outcomes: Seq<Option<Failure>>, k: int) -> bool {
    &&& 0 <= k < outcomes.len()
    &&& outcomes[k] is Some
    &&& forall|j: int| 0 <= j < k ==> outcomes[j] is None
}

/// The first failure among `outcomes`, if there is one.
pub open spec fn first_failure(outcomes: Seq<Option<Failure>>) -> Option<Failure> {
    if exists|k: int| is_first_failure(outcomes, k) {
        outcomes[choose|k: int| is_first_failure(outcomes, k)]
    } else {
        None
    }
}

/// How many of the arguments are evaluated: all of them, or those up to
/// and including the first that fails.
pub open spec fn evaluated(outcomes: Seq<Option<Failure>>) -> int {
    if exists|k: int| is_first_failure(outcomes, k) {
        (choose|k: int| is_first_failure(outcomes, k)) + 1
    } else {
        outcomes.len() as int
    }
}

/// The failures of the arguments of a call, position by position.
pub open spec fn failures(args: Seq<Term>) -> Seq<Option<Failure>>
    decreases args,
{
    Seq::new(
        args.len(),
        |i: int|
            if 0 <= i < args.len() {
                failure(args[i])
            } else {
                None
            },
    )
}

/// The failure of an evaluation, if it fails.
///
/// Operands and arguments are evaluated from left to right and before the
/// operation itself, and the first failure met is the failure of the whole.
/// It depends on the tree alone: neither the environment nor the kernel
/// has a part in it.
pub open spec fn failure(t: Term) -> Option<Failure>
    decreases t,
{
    match t {
        Term::Number(_) => None,
        Term::Variable(_) => None,
        Term::Binary(_, l, r) => match failure(*l) {
            Some(f) => Some(f),
            None => failure(*r),
        },
        Term::Call(name, args) => match first_failure(failures(args)) {
            Some(f) => Some(f),
            None => dispatch_failure(name, args.len()),
        },
    }
}

/// The first `n` of `parts`, one after the other.
pub open spec fn joined(parts: Seq<Seq<Seq<char>>>, n: int) -> Seq<Seq<char>>
    decreases n,
{
    if n <= 0 {
        Seq::empty()
    } else {
        joined(parts, n - 1) + parts[n - 1]
    }
}

/// The names that the arguments of a call report, position by position.
pub open spec fn reports(args: Seq<Term>, env: Map<Seq<char>, u64>) -> Seq<Seq<Seq<char>>>
    decreases args,
{
    Seq::new(
        args.len(),
        |i: int|
            if 0 <= i < args.len() {
                missing_names(args[i], env)
            } else {
                Seq::empty()
            },
    )
}

/// The variables without a binding that an evaluation meets, in the order
/// in which it meets them, up to the point where it fails if it does.
pub open spec fn missing_names(t: Term, env: Map<Seq<char>, u64>) -> Seq<Seq<char>>
    decreases t,
{
    match t {
        Term::Number(_) => Seq::empty(),
        Term::Variable(name) => if env.contains_key(name) {
            Seq::empty()
        } else {
            seq![name]
        },
        Term::Binary(_, l, r) => match failure(*l) {
            Some(_) => missing_names(*l, env),
            None => missing_names(*l, env) + missing_names(*r, env),
        },
        Term::Call(_, args) => joined(reports(args, env), evaluated(failures(args))),
    }
}

/// `values` holds, position by position, a number that the argument at
/// that position evaluates to.
pub open spec fn all_denote(
    args: Seq<Term>,
    env: Map<Seq<char>, u64>,
    steps: Steps,
    values: Seq<u64>,
) -> bool
    decreases args,
{
    &&& values.len() == args.len()
    &&& forall|i: int|
        #![trigger values[i]]
        0 <= i < args.len() ==> denotes(args[i], env, steps, values[i])
}

/// `value` is a number that `t` evaluates to in `env` under `steps`.
///
/// An arithmetic may admit several numbers for one operation, so this is
/// a relation: each step is only asked to be one that `steps` admits, on
/// operands that the subtrees evaluate to. It speaks of trees whose
/// evaluation does not fail.
pub open spec fn denotes(t: Term, env: Map<Seq<char>, u64>, steps: Steps, value: u64) -> bool
    decreases t,
{
    match t {
        Term::Number(bits) => value == bits,
        Term::Variable(name) => value == lookup(env, name),
        Term::Binary(operator, l, r) => exists|a: u64, b: u64|
            #![trigger steps(Operation::Infix(operator, a, b), value)]
            denotes(*l, env, steps, a) && denotes(*r, env, steps, b) && steps(
                Operation::Infix(operator, a, b),
                value,
            ),
        Term::Call(name, args) => exists|values: Seq<u64>|
            #![trigger applies(name, values, steps, value)]
            all_denote(args, env, steps, values) && applies(name, values, steps, value),
    }
}

/// The built-in function that `name` names.
pub fn builtin_named(name: &str) -> (found: Option<Builtin>)
    ensures
        found == builtin_of(name@),
{
    if same_text(name, "sin") {
        Some(Builtin::Unary(UnaryOp::Sin))
    } else if same_text(name, "cos") {
        Some(Builtin::Unary(UnaryOp::Cos))
    } else if same_text(name, "tan") {
        Some(Builtin::Unary(UnaryOp::Tan))
    } else if same_text(name, "ln") {
        Some(Builtin::Unary(UnaryOp::Ln))
    } else if same_text(name, "log10") {
        Some(Builtin::Unary(UnaryOp::Log10))
    } else if same_text(name, "log2") {
        Some(Builtin::Unary(UnaryOp::Log2))
    } else if same_text(name, "sqrt") {
        Some(Builtin::Unary(UnaryOp::Sqrt))
    } else if same_text(name, "max") {
        Some(Builtin::Reducer(Reducer::Max))
    } else if same_text(name, "min") {
        Some(Builtin::Reducer(Reducer::Min))
    } else {
        None
    }
}

/// Folds `reducer` over `values` from the left, one kernel step per value.
pub fn reduce<K: Fn(Operation) -> u64>(reducer: Reducer, values: &Vec<u64>, kernel: &K) -> (value: u64)
    requires
        forall|op: Operation| call_requires(*kernel, (op,)),
    ensures
        folds(reducer, values@, steps_of(*kernel), value),
{
    let mut acc: u64 = match reducer {
        Reducer::Max => NEG_INFINITY,
        Reducer::Min => INFINITY,
    };
    let mut i: usize = 0;
    while i < values.len()
        invariant
            i <= values.len(),
            forall|op: Operation| call_requires(*kernel, (op,)),
            folds(reducer, values@.take(i as int), steps_of(*kernel), acc),
        decreases values.len() - i,
    {
        let next = kernel(Operation::Reduce(reducer, acc, values[i]));
        proof {
            let longer = values@.take(i + 1);
            assert(longer.drop_last() =~= values@.take(i as int));
            assert(longer.last() == values@[i as int]);
            assert(steps_of(*kernel)(Operation::Reduce(reducer, acc, longer.last()), next));
        }
        acc = next;
        i += 1;
    }
    proof {
        assert(values@.take(values.len() as int) =~= values@);
    }
    acc
}

/// Applies the built-in function `name` to the values of its arguments.
///
/// Fails exactly where [`dispatch_failure`] says; otherwise the result is
/// one that the kernel may return for the function.
pub fn apply_builtin<K: Fn(Operation) -> u64>(
    name: &String,
    values: &Vec<u64>,
    kernel: &K,
) -> (result: Result<u64, EvalError>)
    requires
        forall|op: Operation| call_requires(*kernel, (op,)),
    ensures
        match result {
            Ok(value) => dispatch_failure(name@, values@.len()) is None && applies(
                name@,
                values@,
                steps_of(*kernel),
                value,
            ),
            Err(error) => dispatch_failure(name@, values@.len()) == Some(error@),
        },
{
    match builtin_named(name.as_str()) {
        None => Err(EvalError::UnknownFunction { name: name.clone() }),
        Some(Builtin::Unary(f)) => {
            if values.len() == 1 {
                Ok(kernel(Operation::Unary(f, values[0])))
            } else {
                Err(
                    EvalError::ArityMismatch {
                        function: name.clone(),
                        expected: 1,
                        actual: values.len(),
                    },
                )
            }
        },
        Some(Builtin::Reducer(reducer)) => Ok(reduce(reducer, values, kernel)),
    }
}

/// Looks a variable up. A name without a binding stands for [`NAN`] and is
/// appended to `missing`, so that the caller can report it.
pub fn resolve(name: &String, vars: &Environment, missing: &mut Vec<String>) -> (value: u64)
    ensures
        value == lookup(vars@, name@),
        texts(final(missing)@) == texts(old(missing)@) + missing_names(
            Term::Variable(name@),
            vars@,
        ),
{
    match vars.get(name.as_str()) {
        Some(value) => {
            assert(texts(missing@) + Seq::<Seq<char>>::empty() =~= texts(missing@));
            value
        },
        None => {
            let ghost before = missing@;
            missing.push(name.clone());
            assert(texts(missing@) =~= texts(before) + seq![name@]);
            NAN
        },
    }
}

/// Evaluates `expr` in `vars`, handing each arithmetic step to `kernel`.
///
/// Operands and arguments are evaluated from left to right, each before
/// the operation that uses it. The evaluation fails exactly on the trees
/// with a call that is unknown or of the wrong arity, and with the first
/// such failure it meets. Otherwise the result is a number that the tree
/// [`denotes`] under the arithmetic of the kernel: the literal itself for
/// a number, the bound number or [`NAN`] for a variable, and for an
/// operation a number that the kernel may return for it on the values of
/// its operands. Every variable without a binding that was met is
/// appended to `missing`, in order, also when the evaluation fails later.
pub fn evaluate<K: Fn(Operation) -> u64>(
    expr: &Expr,
    vars: &Environment,
    kernel: &K,
    missing: &mut Vec<String>,
) -> (result: Result<u64, EvalError>)
    requires
        forall|op: Operation| call_requires(*kernel, (op,)),
    ensures
        match result {
            Ok(value) => failure(expr@) is None && denotes(expr@, vars@, steps_of(*kernel), value),
            Err(error) => failure(expr@) == Some(error@),
        },
        texts(final(missing)@) == texts(old(missing)@) + missing_names(expr@, vars@),
        expr@ matches Term::Number(bits) ==> result == Ok::<u64, EvalError>(bits),
        expr@ matches Term::Variable(name) ==> result == Ok::<u64, EvalError>(
            if vars@.contains_key(name) {
                vars@[name]
            } else {
                NAN
            },
        ),
    decreases expr,
{
    let ghost start = texts(missing@);
    let (operator, left, right) = match expr {
        Expr::Number(bits) => {
            assert(start + Seq::<Seq<char>>::empty() =~= start);
            return Ok(*bits);
        },
        Expr::Variable(name) => {
            return Ok(resolve(name, vars, missing));
        },
        Expr::Func(name, args) => {
            return evaluate_call(name, args, vars, kernel, missing);
        },
        Expr::Add(l, r) => (Operator::Add, l, r),
        Expr::Sub(l, r) => (Operator::Sub, l, r),
        Expr::Mul(l, r) => (Operator::Mul, l, r),
        Expr::Div(l, r) => (Operator::Div, l, r),
        Expr::Pow(l, r) => (Operator::Pow, l, r),
    };
    assert(expr@ == Term::Binary(operator, Box::new(term_of(**left)), Box::new(term_of(**right))));
    let a = match evaluate(left, vars, kernel, missing) {
        Ok(a) => a,
        Err(error) => {
            return Err(error);
        },
    };
    let b = match evaluate(right, vars, kernel, missing) {
        Ok(b) => b,
        Err(error) => {
            assert(texts(missing@) =~= start + (missing_names(term_of(**left), vars@)
                + missing_names(term_of(**right), vars@)));
            return Err(error);
        },
    };
    let value = kernel(Operation::Infix(operator, a, b));
    assert(steps_of(*kernel)(Operation::Infix(operator, a, b), value));
    assert(texts(missing@) =~= start + (missing_names(term_of(**left), vars@) + missing_names(
        term_of(**right),
        vars@,
    )));
    Ok(value)
}

/// Evaluates a call: its arguments from left to right, then the function.
fn evaluate_call<K: Fn(Operation) -> u64>(
    name: &String,
    args: &Vec<Expr>,
    vars: &Environment,
    kernel: &K,
    missing: &mut Vec<String>,
) -> (result: Result<u64, EvalError>)
    requires
        forall|op: Operation| call_requires(*kernel, (op,)),
    ensures
        match result {
            Ok(value) => failure(Term::Call(name@, terms_of(args@))) is None && denotes(
                Term::Call(name@, terms_of(args@)),
                vars@,
                steps_of(*kernel),
                value,
            ),
            Err(error) => failure(Term::Call(name@, terms_of(args@))) == Some(error@),
        },
        texts(final(missing)@) == texts(old(missing)@) + missing_names(
            Term::Call(name@, terms_of(args@)),
            vars@,
        ),
    decreases args,
{
    let ghost start = texts(missing@);
    let ghost terms = terms_of(args@);
    let ghost outcomes = failures(terms);
    let ghost logs = reports(terms, vars@);
    let mut values: Vec<u64> = Vec::new();
    let mut i: usize = 0;
    assert(start + joined(logs, 0) =~= start);
    while i < args.len()
        invariant
            i <= args.len(),
            terms == terms_of(args@),
            outcomes == failures(terms),
            logs == reports(terms, vars@),
            forall|op: Operation| call_requires(*kernel, (op,)),
            values@.len() == i,
            forall|j: int| 0 <= j < i ==> outcomes[j] is None,
            forall|j: int|
                #![trigger values@[j]]
                0 <= j < i ==> denotes(terms[j], vars@, steps_of(*kernel), values@[j]),
            start == texts(old(missing)@),
            texts(missing@) == start + joined(logs, i as int),
        decreases args.len() - i,
    {
        proof {
            assert(decreases_to!(*args => args[i as int]));
            assert(terms[i as int] == args@[i as int]@);
            assert(outcomes[i as int] == failure(terms[i as int]));
            assert(logs[i as int] == missing_names(terms[i as int], vars@));
        }
        match evaluate(&args[i], vars, kernel, missing) {
            Ok(value) => {
                values.push(value);
            },
            Err(error) => {
                proof {
                    assert(is_first_failure(outcomes, i as int));
                    let k = choose|k: int| is_first_failure(outcomes, k);
                    assert(k == i);
                    assert(texts(missing@) =~= start + joined(logs, i + 1));
                }
                return Err(error);
            },
        }
        proof {
            assert(texts(missing@) =~= start + joined(logs, i + 1));
        }
        i += 1;
    }
    proof {
        assert(forall|k: int| !is_first_failure(outcomes, k));
        assert(all_denote(terms, vars@, steps_of(*kernel), values@));
    }
    let result = apply_builtin(name, &values, kernel);
    proof {
        if let Ok(value) = result {
            assert(applies(name@, values@, steps_of(*kernel), value));
        }
    }
    result
}

} // verus!
