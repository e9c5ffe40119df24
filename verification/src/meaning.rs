//! What a formula denotes once its variables have values, and the proof that
//! simplification does not change it.

use vstd::prelude::*;
use crate::formula::{
    Formula, Kind, flatten, flatten_prefix, simplify_all, non_numbers, non_ones, all_numbers,
    number_sum, number_product, lemma_simplified_operands, lemma_flatten_prefix_inside,
    lemma_number_sum_push, lemma_number_product_push, lemma_non_numbers_push, lemma_non_ones_push,
};

verus! {

/// The sum of `values`; zero where there is none.
pub open spec fn sum(values: Seq<int>) -> int
    decreases values.len(),
{
    if values.len() == 0 {
        0
    } else {
        sum(values.drop_last()) + values.last()
    }
}

/// The product of `values`; one where there is none.
pub open spec fn product(values: Seq<int>) -> int
    decreases values.len(),
{
    if values.len() == 0 {
        1
    } else {
        product(values.drop_last()) * values.last()
    }
}

/// The sum or the product of `values`, as `kind` says.
pub open spec fn fold(kind: Kind, values: Seq<int>) -> int {
    match kind {
        Kind::Sum => sum(values),
        Kind::Product => product(values),
    }
}

impl Formula {
    /// The number that this formula denotes where each variable has the
    /// value that `env` gives to its name.
    pub open spec fn meaning(self, env: spec_fn(Seq<char>) -> int) -> int
        decreases self, 0int,
    {
        match self {
            Formula::Number(n) => n,
            Formula::Symbol(name) => env(name),
            Formula::Sum(ops) => sum(meanings(ops, env)),
            Formula::Product(ops) => product(meanings(ops, env)),
        }
    }
}

/// What each formula of `ops` denotes, in order.
pub open spec fn meanings(ops: Seq<Formula>, env: spec_fn(Seq<char>) -> int) -> Seq<int>
    decreases ops, 1int,
{
    Seq::new(
        ops.len(),
        |i: int|
            if 0 <= i < ops.len() {
                ops[i].meaning(env)
            } else {
                0
            },
    )
}

/// One more value at the end is added to the sum and multiplied into the
/// product.
pub proof fn lemma_fold_push(kind: Kind, values: Seq<int>, value: int)
    ensures
        fold(kind, values.push(value)) == match kind {
            Kind::Sum => sum(values) + value,
            Kind::Product => product(values) * value,
        },
{
    assert(values.push(value).drop_last() =~= values);
}

/// The sum of two lists joined is the sum of their sums, and the product of
/// two lists joined the product of their products.
pub proof fn lemma_fold_concat(kind: Kind, front: Seq<int>, back: Seq<int>)
    ensures
        fold(kind, front + back) == match kind {
            Kind::Sum => sum(front) + sum(back),
            Kind::Product => product(front) * product(back),
        },
    decreases back.len(),
{
    if back.len() == 0 {
        assert(front + back =~= front);
    } else {
        lemma_fold_concat(kind, front, back.drop_last());
        assert((front + back).drop_last() =~= front + back.drop_last());
        let a = product(front);
        let b = product(back.drop_last());
        let c = back.last();
        assert((a * b) * c == a * (b * c)) by (nonlinear_arith);
    }
}

/// What the formulas of two lists joined denote is what those of the one
/// denote, followed by what those of the other denote.
pub proof fn lemma_meanings_concat(
    front: Seq<Formula>,
    back: Seq<Formula>,
    env: spec_fn(Seq<char>) -> int,
)
    ensures
        meanings(front + back, env) == meanings(front, env) + meanings(back, env),
{
    assert(meanings(front + back, env) =~= meanings(front, env) + meanings(back, env));
}

/// A node denotes the sum or the product of what its operands denote.
pub proof fn lemma_meaning_of_node(kind: Kind, f: Formula, env: spec_fn(Seq<char>) -> int)
    requires
        f.is_node(kind),
    ensures
        f.meaning(env) == fold(kind, meanings(f.operands(), env)),
{
}

/// Flattening keeps what a node denotes: the flattened first `n` operands
/// add up, or multiply, to what the first `n` operands do.
pub proof fn lemma_flatten_keeps_meaning(
    kind: Kind,
    ops: Seq<Formula>,
    n: nat,
    env: spec_fn(Seq<char>) -> int,
)
    requires
        n <= ops.len(),
    ensures
        fold(kind, meanings(flatten_prefix(kind, ops, n), env)) == fold(
            kind,
            meanings(ops.take(n as int), env),
        ),
    decreases ops, n,
{
    if n == 0 {
        assert(meanings(flatten_prefix(kind, ops, n), env) =~= meanings(ops.take(0), env));
    } else {
        let before = flatten_prefix(kind, ops, (n - 1) as nat);
        let last = ops[n - 1];
        lemma_flatten_keeps_meaning(kind, ops, (n - 1) as nat, env);
        assert(meanings(ops.take(n as int), env) =~= meanings(ops.take(n - 1), env).push(
            last.meaning(env),
        ));
        lemma_fold_push(kind, meanings(ops.take(n - 1), env), last.meaning(env));
        if last.is_node(kind) {
            let inner = last.operands();
            lemma_flatten_keeps_meaning(kind, inner, inner.len(), env);
            assert(inner.take(inner.len() as int) =~= inner);
            lemma_meaning_of_node(kind, last, env);
            assert(flatten_prefix(kind, ops, n) == before + flatten(kind, inner));
            lemma_meanings_concat(before, flatten(kind, inner), env);
            lemma_fold_concat(kind, meanings(before, env), meanings(flatten(kind, inner), env));
        } else {
            assert(flatten_prefix(kind, ops, n) == before.push(last));
            assert(meanings(before.push(last), env) =~= meanings(before, env).push(
                last.meaning(env),
            ));
            lemma_fold_push(kind, meanings(before, env), last.meaning(env));
        }
    }
}

/// The terms of a sum add up to what those that are not constants add up
/// to, plus the sum of the constants.
pub proof fn lemma_sum_apart(terms: Seq<Formula>, env: spec_fn(Seq<char>) -> int)
    ensures
        sum(meanings(terms, env)) == sum(meanings(non_numbers(terms), env)) + number_sum(terms),
    decreases terms.len(),
{
    if terms.len() == 0 {
        lemma_non_numbers_push(Seq::empty(), Formula::Number(0));
        assert(non_numbers(terms).len() <= terms.len()) by {
            terms.lemma_filter_len(|t: Formula| !(t is Number));
        }
        assert(meanings(non_numbers(terms), env) =~= Seq::<int>::empty());
        assert(meanings(terms, env) =~= Seq::<int>::empty());
    } else {
        let front = terms.drop_last();
        let last = terms.last();
        lemma_sum_apart(front, env);
        assert(front.push(last) =~= terms);
        lemma_non_numbers_push(front, last);
        lemma_number_sum_push(front, last);
        assert(meanings(terms, env) =~= meanings(front, env).push(last.meaning(env)));
        lemma_fold_push(Kind::Sum, meanings(front, env), last.meaning(env));
        if !(last is Number) {
            let others = non_numbers(front);
            assert(meanings(others.push(last), env) =~= meanings(others, env).push(
                last.meaning(env),
            ));
            lemma_fold_push(Kind::Sum, meanings(others, env), last.meaning(env));
        }
    }
}

/// The factors of a product multiply to what those other than the constant
/// one multiply to.
pub proof fn lemma_product_without_ones(factors: Seq<Formula>, env: spec_fn(Seq<char>) -> int)
    ensures
        product(meanings(non_ones(factors), env)) == product(meanings(factors, env)),
    decreases factors.len(),
{
    if factors.len() == 0 {
        assert(non_ones(factors).len() <= factors.len()) by {
            factors.lemma_filter_len(|t: Formula| t != Formula::Number(1));
        }
        assert(meanings(non_ones(factors), env) =~= meanings(factors, env));
    } else {
        let front = factors.drop_last();
        let last = factors.last();
        lemma_product_without_ones(front, env);
        assert(front.push(last) =~= factors);
        lemma_non_ones_push(front, last);
        assert(meanings(factors, env) =~= meanings(front, env).push(last.meaning(env)));
        lemma_fold_push(Kind::Product, meanings(front, env), last.meaning(env));
        if last != Formula::Number(1) {
            let others = non_ones(front);
            assert(meanings(others.push(last), env) =~= meanings(others, env).push(
                last.meaning(env),
            ));
            lemma_fold_push(Kind::Product, meanings(others, env), last.meaning(env));
        } else {
            let p = product(meanings(front, env));
            assert(p * 1 == p) by (nonlinear_arith);
        }
    }
}

/// Constants multiply to the product of their values.
pub proof fn lemma_product_of_numbers(factors: Seq<Formula>, env: spec_fn(Seq<char>) -> int)
    requires
        all_numbers(factors),
    ensures
        product(meanings(factors, env)) == number_product(factors),
    decreases factors.len(),
{
    if factors.len() == 0 {
        assert(meanings(factors, env) =~= Seq::<int>::empty());
    } else {
        let front = factors.drop_last();
        let last = factors.last();
        assert(all_numbers(front)) by {
            assert forall|j: int| 0 <= j < front.len() implies (#[trigger] front[j]) is Number by {
                assert(factors[j] is Number);
            }
        }
        lemma_product_of_numbers(front, env);
        assert(factors[factors.len() - 1] is Number);
        assert(meanings(factors, env) =~= meanings(front, env).push(last.meaning(env)));
        lemma_fold_push(Kind::Product, meanings(front, env), last.meaning(env));
    }
}

/// A product with a zero among its values is zero.
pub proof fn lemma_product_with_zero(values: Seq<int>, i: int)
    requires
        0 <= i < values.len(),
        values[i] == 0,
    ensures
        product(values) == 0,
    decreases values.len(),
{
    let p = product(values.drop_last());
    if i == values.len() - 1 {
        assert(p * 0 == 0) by (nonlinear_arith);
    } else {
        lemma_product_with_zero(values.drop_last(), i);
        assert(0 * values.last() == 0) by (nonlinear_arith);
    }
}

/// Simplification keeps what a formula denotes, whatever the values of its
/// variables.
pub proof fn simplify_keeps_meaning(f: Formula, env: spec_fn(Seq<char>) -> int)
    ensures
        f.simplify().meaning(env) == f.meaning(env),
    decreases f,
{
    match f {
        Formula::Number(_) => {},
        Formula::Symbol(_) => {},
        Formula::Sum(ops) => {
            let flat = flatten(Kind::Sum, ops);
            let terms = simplify_all(flat);
            lemma_simplified_operands(Kind::Sum, ops);
            lemma_flatten_keeps_meaning(Kind::Sum, ops, ops.len(), env);
            assert(ops.take(ops.len() as int) =~= ops);
            assert(meanings(terms, env) =~= meanings(flat, env)) by {
                assert forall|j: int| 0 <= j < flat.len() implies (
                #[trigger] flat[j]).simplify().meaning(env) == flat[j].meaning(env) by {
                    lemma_flatten_prefix_inside(Kind::Sum, ops, ops.len(), j);
                    simplify_keeps_meaning(flat[j], env);
                }
            }
            lemma_sum_apart(terms, env);
            let others = non_numbers(terms);
            let total = Formula::Number(number_sum(terms));
            assert(meanings(others.push(total), env) =~= meanings(others, env).push(
                number_sum(terms),
            ));
            lemma_fold_push(Kind::Sum, meanings(others, env), number_sum(terms));
        },
        Formula::Product(ops) => {
            let flat = flatten(Kind::Product, ops);
            let factors = simplify_all(flat);
            lemma_simplified_operands(Kind::Product, ops);
            lemma_flatten_keeps_meaning(Kind::Product, ops, ops.len(), env);
            assert(ops.take(ops.len() as int) =~= ops);
            if flat.contains(Formula::Number(0)) {
                let i = choose|i: int| 0 <= i < flat.len() && flat[i] == Formula::Number(0);
                assert(meanings(flat, env)[i] == 0);
                lemma_product_with_zero(meanings(flat, env), i);
            } else {
                assert(meanings(factors, env) =~= meanings(flat, env)) by {
                    assert forall|j: int| 0 <= j < flat.len() implies (
                    #[trigger] flat[j]).simplify().meaning(env) == flat[j].meaning(env) by {
                        lemma_flatten_prefix_inside(Kind::Product, ops, ops.len(), j);
                        simplify_keeps_meaning(flat[j], env);
                    }
                }
                lemma_product_without_ones(factors, env);
                if all_numbers(non_ones(factors)) {
                    lemma_product_of_numbers(non_ones(factors), env);
                }
            }
        },
    }
}

} // verus!
