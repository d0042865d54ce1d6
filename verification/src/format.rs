//! Rendering an expression as text, with every infix operation in
//! parentheses, and stripping one outer pair of parentheses from a text.
//!
//! The decimal form of a number is not computed here: the caller supplies
//! the formatter that turns a binary64 bit pattern into text.

use vstd::prelude::*;
use vstd::string::{StringExecFns, StrSliceExecFns};
use crate::expr::{term_of, terms_of, Expr, Operator, Term};
use crate::text::{join, separated, texts};

verus! {

/// The character that stands for an infix operator.
pub open spec fn symbol(operator: Operator) -> char {
    match operator {
        Operator::Add => '+',
        Operator::Sub => '-',
        Operator::Mul => '*',
        Operator::Div => '/',
        Operator::Pow => '^',
    }
}

/// `s` between one pair of parentheses.
pub open spec fn parenthesized(s: Seq<char>) -> Seq<char> {
    seq!['('] + s + seq![')']
}

/// The two operands with the operator between them, set off by one space
/// on each side.
pub open spec fn infix_inner(operator: Operator, left: Seq<char>, right: Seq<char>) -> Seq<char> {
    left + seq![' ', symbol(operator), ' '] + right
}

/// The text of an infix operation: always in parentheses.
pub open spec fn infix_text(operator: Operator, left: Seq<char>, right: Seq<char>) -> Seq<char> {
    parenthesized(infix_inner(operator, left, right))
}

/// The text of a call: the name, then the arguments between parentheses,
/// separated by a comma and a space.
pub open spec fn call_text(name: Seq<char>, parts: Seq<Seq<char>>) -> Seq<char> {
    name + parenthesized(separated(parts, seq![',', ' '], parts.len() as int))
}

/// What a formatter admits: `numerals(bits, text)` says that `text` is a
/// text that the number `bits` may be given.
pub type Numerals = spec_fn(u64, Seq<char>) -> bool;

/// The texts of a formatter: a number may be given each text that the
/// formatter's postcondition allows it to return for it.
pub open spec fn numerals_of<F: Fn(u64) -> String>(number: F) -> Numerals {
    |bits: u64, text: Seq<char>|
        exists|s: String|
            #![trigger call_ensures(number, (bits,), s)]
            call_ensures(number, (bits,), s) && s@ == text
}

/// `parts` holds, position by position, a text of the argument at that
/// position.
pub open spec fn all_render(args: Seq<Term>, numerals: Numerals, parts: Seq<Seq<char>>) -> bool
    decreases args,
{
    &&& parts.len() == args.len()
    &&& forall|i: int|
        #![trigger parts[i]]
        0 <= i < args.len() ==> renders(args[i], numerals, parts[i])
}

/// `text` is a rendering of `t`, with the numbers written as `numerals`
/// admits.
///
/// A number may have several texts, so this is a relation: the text of
/// each number is only asked to be one that `numerals` admits. Everything
/// else is fixed.
pub open spec fn renders(t: Term, numerals: Numerals, text: Seq<char>) -> bool
    decreases t,
{
    match t {
        Term::Number(bits) => numerals(bits, text),
        Term::Variable(name) => text == name,
        Term::Binary(operator, l, r) => exists|a: Seq<char>, b: Seq<char>|
            #![trigger infix_text(operator, a, b)]
            renders(*l, numerals, a) && renders(*r, numerals, b) && text == infix_text(
                operator,
                a,
                b,
            ),
        Term::Call(name, args) => exists|parts: Seq<Seq<char>>|
            #![trigger call_text(name, parts)]
            all_render(args, numerals, parts) && text == call_text(name, parts),
    }
}

/// Whether `s` begins with `(` and ends with `)`.
///
/// Nothing is asked of what lies between: the two need not match each other.
pub open spec fn wrapped(s: Seq<char>) -> bool {
    s.len() >= 2 && s[0] == '(' && s[s.len() - 1] == ')'
}

/// `s` without its first and last character where it is [`wrapped`], and
/// `s` itself where it is not.
pub open spec fn stripped(s: Seq<char>) -> Seq<char> {
    if wrapped(s) {
        s.subrange(1, s.len() - 1)
    } else {
        s
    }
}

/// The operator of an infix operation as it is printed, with its spaces.
fn spaced(operator: Operator) -> (text: &'static str)
    ensures
        text@ == seq![' ', symbol(operator), ' '],
{
    proof {
        reveal_strlit(" + ");
        reveal_strlit(" - ");
        reveal_strlit(" * ");
        reveal_strlit(" / ");
        reveal_strlit(" ^ ");
    }
    let text = match operator {
        Operator::Add => " + ",
        Operator::Sub => " - ",
        Operator::Mul => " * ",
        Operator::Div => " / ",
        Operator::Pow => " ^ ",
    };
    assert(text@ =~= seq![' ', symbol(operator), ' ']);
    text
}

/// Puts `inner` between one pair of parentheses, after `head`.
fn enclose(head: String, inner: &str) -> (text: String)
    ensures
        text@ == head@ + parenthesized(inner@),
{
    proof {
        reveal_strlit("(");
        reveal_strlit(")");
    }
    let mut text = head;
    text.append("(");
    text.append(inner);
    text.append(")");
    assert(text@ =~= head@ + parenthesized(inner@));
    text
}

/// Renders `expr`, with each number formatted by `number`.
///
/// Every infix operation is put in parentheses, whatever stands around it;
/// a call is its name and its arguments, separated by a comma and a space,
/// between parentheses; a variable is its name.
pub fn pretty_print<F: Fn(u64) -> String>(expr: &Expr, number: &F) -> (text: String)
    requires
        forall|bits: u64| call_requires(*number, (bits,)),
    ensures
        renders(expr@, numerals_of(*number), text@),
        expr@ matches Term::Variable(name) ==> text@ == name,
    decreases expr,
{
    let (operator, left, right) = match expr {
        Expr::Number(bits) => {
            let text = number(*bits);
            assert(call_ensures(*number, (*bits,), text));
            assert(numerals_of(*number)(*bits, text@));
            return text;
        },
        Expr::Variable(name) => {
            return name.clone();
        },
        Expr::Func(name, args) => {
            return print_call(name, args, number);
        },
        Expr::Add(l, r) => (Operator::Add, l, r),
        Expr::Sub(l, r) => (Operator::Sub, l, r),
        Expr::Mul(l, r) => (Operator::Mul, l, r),
        Expr::Div(l, r) => (Operator::Div, l, r),
        Expr::Pow(l, r) => (Operator::Pow, l, r),
    };
    assert(expr@ == Term::Binary(operator, Box::new(term_of(**left)), Box::new(term_of(**right))));
    let a = pretty_print(left, number);
    let b = pretty_print(right, number);
    let mut inner = a;
    inner.append(spaced(operator));
    inner.append(b.as_str());
    let text = enclose(String::new(), inner.as_str());
    proof {
        assert(inner@ == infix_inner(operator, a@, b@));
        assert(text@ =~= infix_text(operator, a@, b@));
    }
    text
}

/// A call renders as its name and texts of its arguments.
pub proof fn lemma_call_renders(numerals: Numerals, t: Term, parts: Seq<Seq<char>>)
    requires
        t is Call,
        all_render(t->Call_1, numerals, parts),
    ensures
        renders(t, numerals, call_text(t->Call_0, parts)),
{
}

/// Renders a call: the name, then the texts of the arguments.
fn print_call<F: Fn(u64) -> String>(name: &String, args: &Vec<Expr>, number: &F) -> (text: String)
    requires
        forall|bits: u64| call_requires(*number, (bits,)),
    ensures
        renders(Term::Call(name@, terms_of(args@)), numerals_of(*number), text@),
    decreases args,
{
    let ghost terms = terms_of(args@);
    let mut parts: Vec<String> = Vec::new();
    let mut i: usize = 0;
    while i < args.len()
        invariant
            i <= args.len(),
            terms == terms_of(args@),
            forall|bits: u64| call_requires(*number, (bits,)),
            parts@.len() == i,
            forall|j: int|
                #![trigger parts@[j]]
                0 <= j < i ==> renders(terms[j], numerals_of(*number), parts@[j]@),
        decreases args.len() - i,
    {
        proof {
            assert(decreases_to!(*args => args[i as int]));
            assert(terms[i as int] == args@[i as int]@);
        }
        let part = pretty_print(&args[i], number);
        parts.push(part);
        i += 1;
    }
    let inner = join(&parts, ", ");
    let text = enclose(name.clone(), inner.as_str());
    proof {
        reveal_strlit(", ");
        assert(", "@ =~= seq![',', ' ']);
        let shown = texts(parts@);
        assert forall|j: int| #![trigger shown[j]] 0 <= j < terms.len() implies renders(
            terms[j],
            numerals_of(*number),
            shown[j],
        ) by {
            assert(shown[j] == parts@[j]@);
        }
        assert(all_render(terms, numerals_of(*number), shown));
        assert(text@ == call_text(name@, shown));
        lemma_call_renders(numerals_of(*number), Term::Call(name@, terms), shown);
    }
    text
}

/// Removes the first and the last character of `s` where the first is `(`
/// and the last is `)`, and returns `s` unchanged where they are not.
///
/// The two parentheses are not checked to match each other: `(a) + (b)`
/// becomes `a) + (b`.
pub fn strip_outer_parantheses(s: String) -> (text: String)
    ensures
        text@ == stripped(s@),
{
    let n: usize = s.as_str().unicode_len();
    if n >= 2 && s.as_str().get_char(0) == '(' && s.as_str().get_char(n - 1) == ')' {
        s.as_str().substring_char(1, n - 1).to_owned()
    } else {
        s
    }
}

} // verus!
