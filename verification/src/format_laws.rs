//! What holds of rendering and stripping: facts about the model in which
//! the contracts of the formatter are stated.

use vstd::prelude::*;
use crate::expr::Term;
use crate::format::{
    all_render, call_text, infix_inner, infix_text, lemma_call_renders, parenthesized, renders,
    stripped, wrapped, Numerals,
};
use crate::text::separated;

verus! {

/// A text is left as it is exactly where it is not wrapped.
pub proof fn lemma_strip_is_identity_unless_wrapped(s: Seq<char>)
    ensures
        stripped(s) == s <==> !wrapped(s),
{
    if wrapped(s) {
        assert(stripped(s).len() == s.len() - 2);
    }
}

/// Where a text is wrapped, stripping removes exactly its first and its
/// last character: putting the pair back gives the text again.
pub proof fn lemma_strip_removes_one_pair(s: Seq<char>)
    requires
        wrapped(s),
    ensures
        stripped(s).len() == s.len() - 2,
        parenthesized(stripped(s)) == s,
{
    assert(parenthesized(stripped(s)) =~= s);
}

/// Stripping undoes one pair of parentheses put around any text.
pub proof fn lemma_strip_parenthesized(s: Seq<char>)
    ensures
        wrapped(parenthesized(s)),
        stripped(parenthesized(s)) == s,
{
    let p = parenthesized(s);
    assert(p.len() == s.len() + 2);
    assert(p[0] == '(');
    assert(p[p.len() - 1] == ')');
    assert(p.subrange(1, p.len() - 1) =~= s);
}

/// Each stripping takes one layer and no more: of two pairs around a text
/// the first stripping leaves one, and only the second leaves none. So
/// stripping twice is not the same as stripping once.
pub proof fn lemma_strip_takes_one_layer(s: Seq<char>)
    ensures
        stripped(parenthesized(parenthesized(s))) == parenthesized(s),
        stripped(stripped(parenthesized(parenthesized(s)))) == s,
        stripped(stripped(parenthesized(parenthesized(s)))) != stripped(
            parenthesized(parenthesized(s)),
        ),
{
    lemma_strip_parenthesized(s);
    lemma_strip_parenthesized(parenthesized(s));
    assert(parenthesized(s).len() == s.len() + 2);
}

/// The rendering of an infix operation is wrapped, and stripping it leaves
/// the two operands with the operator between them: exactly the outer pair
/// of parentheses goes.
pub proof fn lemma_strip_infix(t: Term, numerals: Numerals, text: Seq<char>)
    requires
        t is Binary,
        renders(t, numerals, text),
    ensures
        wrapped(text),
        parenthesized(stripped(text)) == text,
        exists|a: Seq<char>, b: Seq<char>|
            #![trigger infix_inner(t->Binary_0, a, b)]
            renders(*t->Binary_1, numerals, a) && renders(*t->Binary_2, numerals, b) && stripped(text)
                == infix_inner(t->Binary_0, a, b),
{
    let operator = t->Binary_0;
    let (a, b): (Seq<char>, Seq<char>) = choose|a: Seq<char>, b: Seq<char>|
        #![trigger infix_text(operator, a, b)]
        renders(*t->Binary_1, numerals, a) && renders(*t->Binary_2, numerals, b) && text == infix_text(
            operator,
            a,
            b,
        );
    lemma_strip_parenthesized(infix_inner(operator, a, b));
    assert(stripped(text) == infix_inner(operator, a, b));
}

/// The rendering of a number, a variable or a call carries no parentheses
/// of its own around the whole, so stripping leaves it as it is, unless
/// the text happens to be wrapped all the same. That is the case exactly
/// for a number whose text is wrapped, for a variable whose name is
/// wrapped, and for a call whose name is empty or begins with `(`.
pub proof fn lemma_strip_leaf_or_call(t: Term, numerals: Numerals, text: Seq<char>)
    requires
        !(t is Binary),
        renders(t, numerals, text),
    ensures
        t is Number ==> (stripped(text) == text <==> !wrapped(text)),
        t matches Term::Variable(name) ==> (stripped(text) == text <==> !wrapped(name)),
        t matches Term::Call(name, _) ==> (stripped(text) == text <==> name.len() > 0 && name[0]
            != '('),
{
    lemma_strip_is_identity_unless_wrapped(text);
    match t {
        Term::Call(name, args) => {
            let parts = choose|parts: Seq<Seq<char>>|
                #![trigger call_text(name, parts)]
                all_render(args, numerals, parts) && text == call_text(name, parts);
            let inner = separated(parts, seq![',', ' '], parts.len() as int);
            assert(text == name + parenthesized(inner));
            assert(text.len() == name.len() + inner.len() + 2);
            assert(text[text.len() - 1] == ')');
            if name.len() > 0 {
                assert(text[0] == name[0]);
            } else {
                assert(text[0] == '(');
            }
        },
        _ => {},
    }
}

/// A way of writing numbers that admits at most one text for each number.
pub open spec fn single_text(numerals: Numerals) -> bool {
    forall|bits: u64, a: Seq<char>, b: Seq<char>|
        #![trigger numerals(bits, a), numerals(bits, b)]
        numerals(bits, a) && numerals(bits, b) ==> a == b
}

/// Where each number has at most one text, a tree has at most one
/// rendering: the relation [`renders`] is then a function of the tree.
pub proof fn lemma_renders_unique(t: Term, numerals: Numerals, text1: Seq<char>, text2: Seq<char>)
    requires
        single_text(numerals),
        renders(t, numerals, text1),
        renders(t, numerals, text2),
    ensures
        text1 == text2,
    decreases t,
{
    match t {
        Term::Number(_) => {},
        Term::Variable(_) => {},
        Term::Binary(operator, l, r) => {
            let (a1, b1): (Seq<char>, Seq<char>) = choose|a: Seq<char>, b: Seq<char>|
                #![trigger infix_text(operator, a, b)]
                renders(*l, numerals, a) && renders(*r, numerals, b) && text1 == infix_text(
                    operator,
                    a,
                    b,
                );
            let (a2, b2): (Seq<char>, Seq<char>) = choose|a: Seq<char>, b: Seq<char>|
                #![trigger infix_text(operator, a, b)]
                renders(*l, numerals, a) && renders(*r, numerals, b) && text2 == infix_text(
                    operator,
                    a,
                    b,
                );
            lemma_renders_unique(*l, numerals, a1, a2);
            lemma_renders_unique(*r, numerals, b1, b2);
        },
        Term::Call(name, args) => {
            let parts1 = choose|parts: Seq<Seq<char>>|
                #![trigger call_text(name, parts)]
                all_render(args, numerals, parts) && text1 == call_text(name, parts);
            let parts2 = choose|parts: Seq<Seq<char>>|
                #![trigger call_text(name, parts)]
                all_render(args, numerals, parts) && text2 == call_text(name, parts);
            assert forall|i: int| 0 <= i < args.len() implies parts1[i] == parts2[i] by {
                lemma_renders_unique(args[i], numerals, parts1[i], parts2[i]);
            }
            assert(parts1 =~= parts2);
        },
    }
}

/// The way of writing numbers in which each number has one text, the
/// one that `g` gives it.
pub open spec fn written_as(g: spec_fn(u64) -> Seq<char>) -> Numerals {
    |bits: u64, text: Seq<char>| text == g(bits)
}

/// The texts of the arguments of a call, position by position.
pub open spec fn texts_of(args: Seq<Term>, g: spec_fn(u64) -> Seq<char>) -> Seq<Seq<char>>
    decreases args,
{
    Seq::new(
        args.len(),
        |i: int|
            if 0 <= i < args.len() {
                text_of(args[i], g)
            } else {
                Seq::empty()
            },
    )
}

/// The rendering of `t` when each number is written as `g` gives it.
pub open spec fn text_of(t: Term, g: spec_fn(u64) -> Seq<char>) -> Seq<char>
    decreases t,
{
    match t {
        Term::Number(bits) => g(bits),
        Term::Variable(name) => name,
        Term::Binary(operator, l, r) => infix_text(operator, text_of(*l, g), text_of(*r, g)),
        Term::Call(name, args) => call_text(name, texts_of(args, g)),
    }
}

/// Where each number has exactly one text, the relation [`renders`] is
/// the graph of [`text_of`].
pub proof fn lemma_renders_determined(t: Term, g: spec_fn(u64) -> Seq<char>, text: Seq<char>)
    ensures
        renders(t, written_as(g), text) <==> text == text_of(t, g),
    decreases t,
{
    let numerals = written_as(g);
    match t {
        Term::Number(_) => {},
        Term::Variable(_) => {},
        Term::Binary(operator, l, r) => {
            let x = text_of(*l, g);
            let y = text_of(*r, g);
            lemma_renders_determined(*l, g, x);
            lemma_renders_determined(*r, g, y);
            if renders(t, numerals, text) {
                let (a, b): (Seq<char>, Seq<char>) = choose|a: Seq<char>, b: Seq<char>|
                    #![trigger infix_text(operator, a, b)]
                    renders(*l, numerals, a) && renders(*r, numerals, b) && text == infix_text(
                        operator,
                        a,
                        b,
                    );
                lemma_renders_determined(*l, g, a);
                lemma_renders_determined(*r, g, b);
            }
        },
        Term::Call(name, args) => {
            let expected = texts_of(args, g);
            assert forall|i: int| 0 <= i < args.len() implies renders(
                args[i],
                numerals,
                #[trigger] expected[i],
            ) by {
                lemma_renders_determined(args[i], g, expected[i]);
            }
            assert(all_render(args, numerals, expected));
            if renders(t, numerals, text) {
                let parts = choose|parts: Seq<Seq<char>>|
                    #![trigger call_text(name, parts)]
                    all_render(args, numerals, parts) && text == call_text(name, parts);
                assert forall|i: int| 0 <= i < args.len() implies parts[i] == expected[i] by {
                    lemma_renders_determined(args[i], g, parts[i]);
                }
                assert(parts =~= expected);
            }
            if text == text_of(t, g) {
                lemma_call_renders(numerals, t, expected);
            }
        },
    }
}

} // verus!
