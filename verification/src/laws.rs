//! What holds of simplification on every formula.

use vstd::prelude::*;
use crate::formula::{
    Formula, Kind, flatten, simplify_all, non_numbers, non_ones, all_numbers, number_sum, sum_of,
    simplified_operands, lemma_simplified_operands, lemma_flatten_prefix_inside,
    lemma_flatten_prefix_flat, lemma_flatten_prefix_of_flat, lemma_flatten_concat,
    lemma_flatten_prefix_zero, lemma_number_product_nonzero, flatten_prefix,
    lemma_simplify_shape, lemma_filter_all, lemma_filter_kept, lemma_number_sum_push,
    lemma_non_numbers_push,
    lemma_number_sum_without_numbers,
};

verus! {

/// Simplifying twice gives what simplifying once gives.
pub proof fn simplify_is_idempotent(f: Formula)
    ensures
        f.simplify().simplify() == f.simplify(),
    decreases f,
{
    match f {
        Formula::Number(_) => {},
        Formula::Symbol(_) => {},
        Formula::Sum(ops) => {
            let flat = flatten(Kind::Sum, ops);
            let terms = simplify_all(flat);
            let others = non_numbers(terms);
            let total = Formula::Number(number_sum(terms));
            let result = others.push(total);
            lemma_simplified_operands(Kind::Sum, ops);
            assert(f.simplify() == Formula::Sum(result));
            assert forall|i: int| 0 <= i < result.len() implies (#[trigger] result[i]).simplify()
                == result[i] && !result[i].is_node(Kind::Sum) by {
                if i < others.len() {
                    lemma_filter_kept(terms, |t: Formula| !(t is Number), i);
                    let j = choose|j: int| 0 <= j < terms.len() && terms[j] == others[i];
                    lemma_flatten_prefix_inside(Kind::Sum, ops, ops.len(), j);
                    lemma_flatten_prefix_flat(Kind::Sum, ops, ops.len(), j);
                    lemma_simplify_shape(flat[j]);
                    simplify_is_idempotent(flat[j]);
                }
            }
            lemma_flatten_prefix_of_flat(Kind::Sum, result, result.len());
            assert(result.take(result.len() as int) =~= result);
            lemma_simplified_operands(Kind::Sum, result);
            assert(simplify_all(result) =~= result);
            lemma_non_numbers_push(others, total);
            lemma_filter_all(others, |t: Formula| !(t is Number));
            lemma_number_sum_push(others, total);
            lemma_number_sum_without_numbers(others);
        },
        Formula::Product(ops) => {
            let flat = flatten(Kind::Product, ops);
            let factors = simplify_all(flat);
            let kept = non_ones(factors);
            lemma_simplified_operands(Kind::Product, ops);
            if !flat.contains(Formula::Number(0)) && !all_numbers(kept) {
                assert(f.simplify() == Formula::Product(kept));
                assert forall|i: int| 0 <= i < kept.len() implies (#[trigger] kept[i]).simplify()
                    == kept[i] && !kept[i].is_node(Kind::Product) && kept[i] != Formula::Number(0)
                    && kept[i] != Formula::Number(1) by {
                    lemma_filter_kept(factors, |t: Formula| t != Formula::Number(1), i);
                    let j = choose|j: int| 0 <= j < factors.len() && factors[j] == kept[i];
                    lemma_flatten_prefix_inside(Kind::Product, ops, ops.len(), j);
                    lemma_flatten_prefix_flat(Kind::Product, ops, ops.len(), j);
                    lemma_simplify_shape(flat[j]);
                    assert(flat.contains(flat[j]));
                    simplify_is_idempotent(flat[j]);
                }
                lemma_flatten_prefix_of_flat(Kind::Product, kept, kept.len());
                assert(kept.take(kept.len() as int) =~= kept);
                lemma_simplified_operands(Kind::Product, kept);
                assert(simplify_all(kept) =~= kept);
                lemma_filter_all(kept, |t: Formula| t != Formula::Number(1));
                assert(!kept.contains(Formula::Number(0)));
            }
        },
    }
}

/// What can be simplified once can be simplified again: where every
/// constant that arises while a formula is simplified fits in 64 bits, the
/// same holds of its simplified form.
pub proof fn simplified_stays_foldable(f: Formula)
    requires
        f.foldable(),
    ensures
        f.simplify().foldable(),
    decreases f,
{
    match f {
        Formula::Number(_) => {},
        Formula::Symbol(_) => {},
        Formula::Sum(ops) => {
            let flat = flatten(Kind::Sum, ops);
            let terms = simplify_all(flat);
            let others = non_numbers(terms);
            let total = Formula::Number(number_sum(terms));
            let result = others.push(total);
            lemma_simplified_operands(Kind::Sum, ops);
            assert(f.simplify() == Formula::Sum(result));
            assert forall|i: int| 0 <= i < result.len() implies (#[trigger] result[i]).simplify()
                == result[i] && !result[i].is_node(Kind::Sum) && result[i].foldable() by {
                if i < others.len() {
                    lemma_filter_kept(terms, |t: Formula| !(t is Number), i);
                    let j = choose|j: int| 0 <= j < terms.len() && terms[j] == others[i];
                    lemma_flatten_prefix_inside(Kind::Sum, ops, ops.len(), j);
                    lemma_flatten_prefix_flat(Kind::Sum, ops, ops.len(), j);
                    lemma_simplify_shape(flat[j]);
                    simplify_is_idempotent(flat[j]);
                    assert(flat[j].foldable());
                    simplified_stays_foldable(flat[j]);
                }
            }
            lemma_flatten_prefix_of_flat(Kind::Sum, result, result.len());
            assert(result.take(result.len() as int) =~= result);
            assert(simplify_all(result) =~= result);
            lemma_number_sum_push(others, total);
            lemma_number_sum_without_numbers(others);
        },
        Formula::Product(ops) => {
            let flat = flatten(Kind::Product, ops);
            let factors = simplify_all(flat);
            let kept = non_ones(factors);
            lemma_simplified_operands(Kind::Product, ops);
            if !flat.contains(Formula::Number(0)) && !all_numbers(kept) {
                assert(f.simplify() == Formula::Product(kept));
                assert forall|i: int| 0 <= i < kept.len() implies (#[trigger] kept[i]).simplify()
                    == kept[i] && !kept[i].is_node(Kind::Product) && kept[i] != Formula::Number(0)
                    && kept[i] != Formula::Number(1) && kept[i].foldable() by {
                    lemma_filter_kept(factors, |t: Formula| t != Formula::Number(1), i);
                    let j = choose|j: int| 0 <= j < factors.len() && factors[j] == kept[i];
                    lemma_flatten_prefix_inside(Kind::Product, ops, ops.len(), j);
                    lemma_flatten_prefix_flat(Kind::Product, ops, ops.len(), j);
                    lemma_simplify_shape(flat[j]);
                    assert(flat.contains(flat[j]));
                    simplify_is_idempotent(flat[j]);
                    assert(flat[j].foldable());
                    simplified_stays_foldable(flat[j]);
                }
                lemma_flatten_prefix_of_flat(Kind::Product, kept, kept.len());
                assert(kept.take(kept.len() as int) =~= kept);
                assert(simplify_all(kept) =~= kept);
                lemma_filter_all(kept, |t: Formula| t != Formula::Number(1));
            }
        },
    }
}

/// Leaving out the terms equal to the constant zero before a sum is folded
/// changes nothing: zeros are constants, and add nothing to the sum of the
/// constants.
pub proof fn dropping_zeros_changes_no_sum(terms: Seq<Formula>)
    ensures
        sum_of(terms.filter(|t: Formula| t != Formula::Number(0))) == sum_of(terms),
{
    lemma_zeros_apart(terms);
}

/// Without the terms equal to the constant zero, the terms that are not
/// constants and the sum of the constants are what they were.
proof fn lemma_zeros_apart(terms: Seq<Formula>)
    ensures
        non_numbers(terms.filter(|t: Formula| t != Formula::Number(0))) == non_numbers(terms),
        number_sum(terms.filter(|t: Formula| t != Formula::Number(0))) == number_sum(terms),
    decreases terms.len(),
{
    let nonzero = |t: Formula| t != Formula::Number(0);
    if terms.len() == 0 {
        terms.lemma_filter_len(nonzero);
        assert(terms.filter(nonzero) =~= terms);
    } else {
        let front = terms.drop_last();
        let last = terms.last();
        lemma_zeros_apart(front);
        assert(front.push(last) =~= terms);
        Seq::lemma_filter_push(front, last, nonzero);
        lemma_non_numbers_push(front, last);
        lemma_number_sum_push(front, last);
        if last != Formula::Number(0) {
            lemma_non_numbers_push(front.filter(nonzero), last);
            lemma_number_sum_push(front.filter(nonzero), last);
        }
    }
}

/// In a simplified sum no operand before the last is a constant, and the
/// last is the sum of the constants among the simplified operands. So the
/// constant zero stands nowhere but in the last place, and there only where
/// the constants add up to zero.
pub proof fn simplified_sum_folds_constants(ops: Seq<Formula>)
    ensures
        Formula::Sum(ops).simplify() is Sum,
        Formula::Sum(ops).simplify().operands().len() >= 1,
        forall|i: int|
            0 <= i < Formula::Sum(ops).simplify().operands().len() - 1 ==> !((
            #[trigger] Formula::Sum(ops).simplify().operands()[i]) is Number),
        Formula::Sum(ops).simplify().operands().last() == Formula::Number(
            number_sum(simplify_all(flatten(Kind::Sum, ops))),
        ),
{
    let terms = simplify_all(flatten(Kind::Sum, ops));
    let others = non_numbers(terms);
    lemma_simplified_operands(Kind::Sum, ops);
    let result = Formula::Sum(ops).simplify().operands();
    assert(result == others.push(Formula::Number(number_sum(terms))));
    assert forall|i: int| 0 <= i < result.len() - 1 implies !((#[trigger] result[i]) is Number) by {
        lemma_filter_kept(terms, |t: Formula| !(t is Number), i);
    }
}

/// Where the constants among the simplified operands of a sum do not add up
/// to zero, the constant zero is no operand of the simplified sum.
pub proof fn simplified_sum_drops_zeros(ops: Seq<Formula>)
    requires
        number_sum(simplify_all(flatten(Kind::Sum, ops))) != 0,
    ensures
        !Formula::Sum(ops).simplify().operands().contains(Formula::Number(0)),
{
    simplified_sum_folds_constants(ops);
    let result = Formula::Sum(ops).simplify().operands();
    if result.contains(Formula::Number(0)) {
        let i = choose|i: int| 0 <= i < result.len() && result[i] == Formula::Number(0);
        if i < result.len() - 1 {
            assert(!(result[i] is Number));
        }
    }
}

/// A product simplifies to the constant zero exactly if one of its operands
/// is a zero factor: the constant zero itself, or a product that holds a
/// zero factor, at whatever depth.
pub proof fn zero_factor_gives_zero(ops: Seq<Formula>)
    ensures
        Formula::Product(ops).is_zero_factor() <==> Formula::Product(ops).simplify()
            == Formula::Number(0),
{
    lemma_flatten_prefix_zero(ops, ops.len());
    let flat = flatten(Kind::Product, ops);
    let factors = simplify_all(flat);
    let kept = non_ones(factors);
    lemma_simplified_operands(Kind::Product, ops);
    if !flat.contains(Formula::Number(0)) && all_numbers(kept) {
        assert forall|i: int| 0 <= i < kept.len() implies kept[i] != Formula::Number(0) by {
            lemma_filter_kept(factors, |t: Formula| t != Formula::Number(1), i);
            let j = choose|j: int| 0 <= j < factors.len() && factors[j] == kept[i];
            lemma_flatten_prefix_flat(Kind::Product, ops, ops.len(), j);
            lemma_simplify_shape(flat[j]);
            assert(flat.contains(flat[j]));
        }
        lemma_number_product_nonzero(kept);
    }
}

/// A product nested in a product can be inlined: both simplify to the same
/// formula.
pub proof fn nested_product_is_inlined(
    before: Seq<Formula>,
    inner: Seq<Formula>,
    after: Seq<Formula>,
)
    ensures
        Formula::Product(before + seq![Formula::Product(inner)] + after).simplify()
            == Formula::Product(before + inner + after).simplify(),
{
    lemma_flatten_nested(Kind::Product, before, inner, after);
    lemma_simplified_operands(Kind::Product, before + seq![Formula::Product(inner)] + after);
    lemma_simplified_operands(Kind::Product, before + inner + after);
}

/// A sum nested in a sum can be inlined: both simplify to the same formula.
pub proof fn nested_sum_is_inlined(before: Seq<Formula>, inner: Seq<Formula>, after: Seq<Formula>)
    ensures
        Formula::Sum(before + seq![Formula::Sum(inner)] + after).simplify() == Formula::Sum(
            before + inner + after,
        ).simplify(),
{
    lemma_flatten_nested(Kind::Sum, before, inner, after);
    lemma_simplified_operands(Kind::Sum, before + seq![Formula::Sum(inner)] + after);
    lemma_simplified_operands(Kind::Sum, before + inner + after);
}

/// Flattening a list with a node of the same kind in it gives what
/// flattening the list with that node's operands in its place gives.
pub proof fn lemma_flatten_nested(
    kind: Kind,
    before: Seq<Formula>,
    inner: Seq<Formula>,
    after: Seq<Formula>,
)
    ensures
        flatten(
            kind,
            before + seq![
                match kind {
                    Kind::Sum => Formula::Sum(inner),
                    Kind::Product => Formula::Product(inner),
                },
            ] + after,
        ) == flatten(kind, before + inner + after),
{
    let node = match kind {
        Kind::Sum => Formula::Sum(inner),
        Kind::Product => Formula::Product(inner),
    };
    lemma_flatten_concat(kind, before + seq![node], after, after.len());
    lemma_flatten_concat(kind, before, seq![node], 1);
    lemma_flatten_concat(kind, before + inner, after, after.len());
    lemma_flatten_concat(kind, before, inner, inner.len());
    assert(flatten(kind, seq![node]) =~= flatten(kind, inner)) by {
        reveal_with_fuel(flatten_prefix, 2);
        assert(Seq::<Formula>::empty() + flatten(kind, inner) =~= flatten(kind, inner));
    }
}

} // verus!
