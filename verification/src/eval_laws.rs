//! What holds of evaluation: facts about the model in which the contracts
//! of the evaluator are stated.

use vstd::prelude::*;
use crate::eval::{
    all_denote, applies, builtin_of, denotes, failure, failures, first_failure, folds,
    is_first_failure, is_nan, lookup, seed, Builtin, Failure, Operation, Reducer, Steps, UnaryOp,
    INFINITY, NAN, NEG_INFINITY,
};
use crate::expr::Term;

verus! {

/// The nine names are pairwise different, so each names its own function.
pub proof fn lemma_builtin_names()
    ensures
        builtin_of("sin"@) == Some(Builtin::Unary(UnaryOp::Sin)),
        builtin_of("cos"@) == Some(Builtin::Unary(UnaryOp::Cos)),
        builtin_of("tan"@) == Some(Builtin::Unary(UnaryOp::Tan)),
        builtin_of("ln"@) == Some(Builtin::Unary(UnaryOp::Ln)),
        builtin_of("log10"@) == Some(Builtin::Unary(UnaryOp::Log10)),
        builtin_of("log2"@) == Some(Builtin::Unary(UnaryOp::Log2)),
        builtin_of("sqrt"@) == Some(Builtin::Unary(UnaryOp::Sqrt)),
        builtin_of("max"@) == Some(Builtin::Reducer(Reducer::Max)),
        builtin_of("min"@) == Some(Builtin::Reducer(Reducer::Min)),
{
    reveal_strlit("sin");
    reveal_strlit("cos");
    reveal_strlit("tan");
    reveal_strlit("ln");
    reveal_strlit("log10");
    reveal_strlit("log2");
    reveal_strlit("sqrt");
    reveal_strlit("max");
    reveal_strlit("min");
    assert("sin"@[0] == 's' && "sin"@[1] == 'i');
    assert("cos"@[0] == 'c');
    assert("tan"@[0] == 't');
    assert("max"@[0] == 'm' && "max"@[1] == 'a');
    assert("min"@[0] == 'm' && "min"@[1] == 'i');
    assert("log2"@[0] == 'l');
    assert("ln"@.len() == 2);
    assert("log10"@.len() == 5);
    assert("log2"@.len() == 4);
    assert("sqrt"@[0] == 's');
}

/// The number that stands for a variable without a binding is a
/// not-a-number, and the two seeds are not.
pub proof fn lemma_nan_is_nan()
    ensures
        is_nan(NAN),
        !is_nan(INFINITY),
        !is_nan(NEG_INFINITY),
{
    assert(is_nan(0x7ff8_0000_0000_0000)) by (bit_vector);
    assert(!is_nan(0x7ff0_0000_0000_0000)) by (bit_vector);
    assert(!is_nan(0xfff0_0000_0000_0000)) by (bit_vector);
}

/// A call whose arguments all evaluate fails exactly as its name and the
/// number of its arguments say: with an unknown name as an unknown
/// function whatever the number, with the name of a unary function and
/// another number than one as an arity mismatch that records the number,
/// and otherwise not at all.
pub proof fn lemma_call_failure(name: Seq<char>, args: Seq<Term>)
    requires
        forall|i: int| 0 <= i < args.len() ==> failure(#[trigger] args[i]) is None,
    ensures
        builtin_of(name) is None ==> failure(Term::Call(name, args)) == Some(
            Failure::UnknownFunction { name },
        ),
        builtin_of(name) matches Some(Builtin::Unary(_)) && args.len() != 1 ==> failure(
            Term::Call(name, args),
        ) == Some(Failure::ArityMismatch { function: name, expected: 1, actual: args.len() }),
        builtin_of(name) matches Some(Builtin::Unary(_)) && args.len() == 1 ==> failure(
            Term::Call(name, args),
        ) is None,
        builtin_of(name) matches Some(Builtin::Reducer(_)) ==> failure(Term::Call(name, args))
            is None,
{
    let outcomes = failures(args);
    assert forall|i: int| 0 <= i < outcomes.len() implies outcomes[i] is None by {
        assert(failure(args[i]) is None);
    }
    lemma_first_failure_is_none(outcomes);
}

/// A call with an argument that fails, fails as the first such argument
/// does, whatever its own name is.
pub proof fn lemma_call_fails_with_its_argument(name: Seq<char>, args: Seq<Term>, k: int)
    requires
        0 <= k < args.len(),
        failure(args[k]) is Some,
        forall|i: int| 0 <= i < k ==> failure(#[trigger] args[i]) is None,
    ensures
        failure(Term::Call(name, args)) == failure(args[k]),
{
    let outcomes = failures(args);
    assert(is_first_failure(outcomes, k)) by {
        assert forall|j: int| 0 <= j < k implies outcomes[j] is None by {
            assert(failure(args[j]) is None);
        }
    }
    let chosen = choose|j: int| is_first_failure(outcomes, j);
    assert(chosen == k);
}

/// An arithmetic that admits at most one number for each operation.
pub open spec fn single_valued(steps: Steps) -> bool {
    forall|op: Operation, a: u64, b: u64|
        #![trigger steps(op, a), steps(op, b)]
        steps(op, a) && steps(op, b) ==> a == b
}

/// Under a single-valued arithmetic a fold has at most one result.
pub proof fn lemma_folds_unique(reducer: Reducer, values: Seq<u64>, steps: Steps, v1: u64, v2: u64)
    requires
        single_valued(steps),
        folds(reducer, values, steps, v1),
        folds(reducer, values, steps, v2),
    ensures
        v1 == v2,
    decreases values.len(),
{
    if values.len() > 0 {
        let acc1 = choose|acc: u64|
            #![trigger steps(Operation::Reduce(reducer, acc, values.last()), v1)]
            folds(reducer, values.drop_last(), steps, acc) && steps(
                Operation::Reduce(reducer, acc, values.last()),
                v1,
            );
        let acc2 = choose|acc: u64|
            #![trigger steps(Operation::Reduce(reducer, acc, values.last()), v2)]
            folds(reducer, values.drop_last(), steps, acc) && steps(
                Operation::Reduce(reducer, acc, values.last()),
                v2,
            );
        lemma_folds_unique(reducer, values.drop_last(), steps, acc1, acc2);
    }
}

/// Under a single-valued arithmetic a tree evaluates to at most one
/// number: the relation [`denotes`] is then a function of the tree and the
/// environment.
pub proof fn lemma_denotes_unique(
    t: Term,
    env: Map<Seq<char>, u64>,
    steps: Steps,
    v1: u64,
    v2: u64,
)
    requires
        single_valued(steps),
        denotes(t, env, steps, v1),
        denotes(t, env, steps, v2),
    ensures
        v1 == v2,
    decreases t,
{
    match t {
        Term::Number(_) => {},
        Term::Variable(_) => {},
        Term::Binary(operator, l, r) => {
            let (a1, b1): (u64, u64) = choose|a: u64, b: u64|
                #![trigger steps(Operation::Infix(operator, a, b), v1)]
                denotes(*l, env, steps, a) && denotes(*r, env, steps, b) && steps(
                    Operation::Infix(operator, a, b),
                    v1,
                );
            let (a2, b2): (u64, u64) = choose|a: u64, b: u64|
                #![trigger steps(Operation::Infix(operator, a, b), v2)]
                denotes(*l, env, steps, a) && denotes(*r, env, steps, b) && steps(
                    Operation::Infix(operator, a, b),
                    v2,
                );
            lemma_denotes_unique(*l, env, steps, a1, a2);
            lemma_denotes_unique(*r, env, steps, b1, b2);
        },
        Term::Call(name, args) => {
            let values1 = choose|values: Seq<u64>|
                #![trigger applies(name, values, steps, v1)]
                all_denote(args, env, steps, values) && applies(name, values, steps, v1);
            let values2 = choose|values: Seq<u64>|
                #![trigger applies(name, values, steps, v2)]
                all_denote(args, env, steps, values) && applies(name, values, steps, v2);
            assert forall|i: int| 0 <= i < args.len() implies values1[i] == values2[i] by {
                lemma_denotes_unique(args[i], env, steps, values1[i], values2[i]);
            }
            assert(values1 =~= values2);
            match builtin_of(name) {
                Some(Builtin::Reducer(reducer)) => {
                    lemma_folds_unique(reducer, values1, steps, v1, v2);
                },
                _ => {},
            }
        },
    }
}

/// The arithmetic in which each operation gives one number, the one that
/// `f` gives it.
pub open spec fn determined_by(f: spec_fn(Operation) -> u64) -> Steps {
    |op: Operation, value: u64| value == f(op)
}

/// The fold of `reducer` over `values` from the left, each step computed
/// by `f`.
pub open spec fn fold_of(reducer: Reducer, values: Seq<u64>, f: spec_fn(Operation) -> u64) -> u64
    decreases values.len(),
{
    if values.len() == 0 {
        seed(reducer)
    } else {
        f(Operation::Reduce(reducer, fold_of(reducer, values.drop_last(), f), values.last()))
    }
}

/// The values of the arguments of a call, position by position.
pub open spec fn values_of(
    args: Seq<Term>,
    env: Map<Seq<char>, u64>,
    f: spec_fn(Operation) -> u64,
) -> Seq<u64>
    decreases args,
{
    Seq::new(
        args.len(),
        |i: int|
            if 0 <= i < args.len() {
                value_of(args[i], env, f)
            } else {
                0
            },
    )
}

/// The number that `t` evaluates to in `env` when each operation is
/// computed by `f`. It is meant for trees whose evaluation does not fail:
/// at a call that fails by its name or arity it is [`NAN`], which is of no
/// consequence, since no number is the value of such a tree.
pub open spec fn value_of(t: Term, env: Map<Seq<char>, u64>, f: spec_fn(Operation) -> u64) -> u64
    decreases t,
{
    match t {
        Term::Number(bits) => bits,
        Term::Variable(name) => lookup(env, name),
        Term::Binary(operator, l, r) => f(
            Operation::Infix(operator, value_of(*l, env, f), value_of(*r, env, f)),
        ),
        Term::Call(name, args) => match builtin_of(name) {
            Some(Builtin::Unary(function)) => if args.len() == 1 {
                f(Operation::Unary(function, value_of(args[0], env, f)))
            } else {
                NAN
            },
            Some(Builtin::Reducer(reducer)) => fold_of(reducer, values_of(args, env, f), f),
            None => NAN,
        },
    }
}

/// There is no first failure exactly where there is no failure at all.
pub proof fn lemma_first_failure_is_none(outcomes: Seq<Option<Failure>>)
    ensures
        first_failure(outcomes) is None <==> forall|i: int|
            0 <= i < outcomes.len() ==> outcomes[i] is None,
{
    if exists|i: int| 0 <= i < outcomes.len() && outcomes[i] is Some {
        let i = choose|i: int| 0 <= i < outcomes.len() && outcomes[i] is Some;
        lemma_least_failure(outcomes, i);
        let k = choose|k: int| is_first_failure(outcomes, k);
        assert(outcomes[k] is Some);
    } else {
        assert(forall|k: int| !is_first_failure(outcomes, k));
    }
}

/// Before a position that holds a failure, or at it, lies a first one.
proof fn lemma_least_failure(outcomes: Seq<Option<Failure>>, i: int)
    requires
        0 <= i < outcomes.len(),
        outcomes[i] is Some,
    ensures
        exists|k: int| is_first_failure(outcomes, k),
    decreases i,
{
    if exists|j: int| 0 <= j < i && outcomes[j] is Some {
        let j = choose|j: int| 0 <= j < i && outcomes[j] is Some;
        lemma_least_failure(outcomes, j);
    } else {
        assert(is_first_failure(outcomes, i));
    }
}

/// Under a determined arithmetic a fold has exactly one result.
pub proof fn lemma_folds_determined(
    reducer: Reducer,
    values: Seq<u64>,
    f: spec_fn(Operation) -> u64,
    value: u64,
)
    ensures
        folds(reducer, values, determined_by(f), value) <==> value == fold_of(reducer, values, f),
    decreases values.len(),
{
    let steps = determined_by(f);
    if values.len() > 0 {
        let rest = values.drop_last();
        let before = fold_of(reducer, rest, f);
        lemma_folds_determined(reducer, rest, f, before);
        if folds(reducer, values, steps, value) {
            let acc = choose|acc: u64|
                #![trigger steps(Operation::Reduce(reducer, acc, values.last()), value)]
                folds(reducer, rest, steps, acc) && steps(
                    Operation::Reduce(reducer, acc, values.last()),
                    value,
                );
            lemma_folds_determined(reducer, rest, f, acc);
        }
        if value == fold_of(reducer, values, f) {
            assert(steps(Operation::Reduce(reducer, before, values.last()), value));
        }
    }
}

/// Under a determined arithmetic the relation [`denotes`] is the graph of
/// [`value_of`] on the trees whose evaluation does not fail, and empty on
/// the others.
pub proof fn lemma_denotes_determined(
    t: Term,
    env: Map<Seq<char>, u64>,
    f: spec_fn(Operation) -> u64,
    value: u64,
)
    ensures
        denotes(t, env, determined_by(f), value) <==> failure(t) is None && value == value_of(
            t,
            env,
            f,
        ),
    decreases t,
{
    let steps = determined_by(f);
    match t {
        Term::Number(_) => {},
        Term::Variable(_) => {},
        Term::Binary(operator, l, r) => {
            let x = value_of(*l, env, f);
            let y = value_of(*r, env, f);
            lemma_denotes_determined(*l, env, f, x);
            lemma_denotes_determined(*r, env, f, y);
            if denotes(t, env, steps, value) {
                let (a, b): (u64, u64) = choose|a: u64, b: u64|
                    #![trigger steps(Operation::Infix(operator, a, b), value)]
                    denotes(*l, env, steps, a) && denotes(*r, env, steps, b) && steps(
                        Operation::Infix(operator, a, b),
                        value,
                    );
                lemma_denotes_determined(*l, env, f, a);
                lemma_denotes_determined(*r, env, f, b);
            }
            if failure(t) is None && value == value_of(t, env, f) {
                assert(steps(Operation::Infix(operator, x, y), value));
            }
        },
        Term::Call(name, args) => {
            let expected = values_of(args, env, f);
            lemma_first_failure_is_none(failures(args));
            assert forall|i: int| 0 <= i < args.len() implies (denotes(
                args[i],
                env,
                steps,
                #[trigger] expected[i],
            ) <==> failure(args[i]) is None) by {
                lemma_denotes_determined(args[i], env, f, expected[i]);
            }
            if denotes(t, env, steps, value) {
                let values = choose|values: Seq<u64>|
                    #![trigger applies(name, values, steps, value)]
                    all_denote(args, env, steps, values) && applies(name, values, steps, value);
                let outcomes = failures(args);
                assert forall|i: int| 0 <= i < args.len() implies values[i] == expected[i] by {
                    lemma_denotes_determined(args[i], env, f, values[i]);
                }
                assert forall|i: int| 0 <= i < outcomes.len() implies outcomes[i] is None by {
                    lemma_denotes_determined(args[i], env, f, values[i]);
                }
                assert(values =~= expected);
                match builtin_of(name) {
                    Some(Builtin::Reducer(reducer)) => {
                        lemma_folds_determined(reducer, values, f, value);
                    },
                    _ => {},
                }
            }
            if failure(t) is None && value == value_of(t, env, f) {
                assert forall|i: int| 0 <= i < args.len() implies failure(args[i]) is None by {
                    assert(failures(args)[i] is None);
                }
                assert(all_denote(args, env, steps, expected));
                match builtin_of(name) {
                    Some(Builtin::Reducer(reducer)) => {
                        lemma_folds_determined(reducer, expected, f, value);
                    },
                    Some(Builtin::Unary(function)) => {
                        assert(steps(Operation::Unary(function, expected[0]), value));
                    },
                    None => {},
                }
                assert(applies(name, expected, steps, value));
            }
        },
    }
}

} // verus!
