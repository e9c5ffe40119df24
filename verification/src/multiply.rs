use vstd::prelude::*;
use crate::formula::{
    Formula, Kind, flatten, flatten_prefix, simplify_all, non_ones, all_numbers, number_product,
    lemma_simplified_operands, lemma_flatten_prefix_inside, lemma_flatten_prefix_flat,
    lemma_simplify_shape, lemma_non_ones_push, lemma_number_product_push,
    lemma_number_product_grows,
};
use crate::constant::Constant;
use crate::error::EvalError;
use vstd::string::StringExecFns;
use crate::expression::{Expression, views, clone_all, typist_joined, debug_all_into, deeper_margin};
use crate::text::{spaces, spaces_text};

verus! {

/// An n-ary product.
#[derive(Debug)]
pub struct Multiply {
    pub ops: Vec<Expression>,
}

impl View for Multiply {
    type V = Formula;

    open spec fn view(&self) -> Formula {
        Formula::Product(views(self.ops@))
    }
}

impl Multiply {
    /// Makes the product of `ops`, in their order.
    pub fn new(ops: Vec<Expression>) -> (m: Self)
        ensures
            m.ops == ops,
    {
        Self { ops }
    }

    /// The operands of this product with every nested product inlined, in order.
    pub fn flatten(&self) -> (flat: Vec<Expression>)
        ensures
            views(flat@) == flatten(Kind::Product, views(self.ops@)),
        decreases self,
    {
        let mut flat: Vec<Expression> = Vec::new();
        let mut i: usize = 0;
        while i < self.ops.len()
            invariant
                i <= self.ops.len(),
                views(flat@) == flatten_prefix(Kind::Product, views(self.ops@), i as nat),
            decreases self.ops.len() - i,
        {
            let ghost before = flat@;
            match &self.ops[i] {
                Expression::Multiply(inner) => {
                    let mut more = inner.flatten();
                    flat.append(&mut more);
                    assert(views(flat@) =~= views(before) + flatten(
                        Kind::Product,
                        views(inner.ops@),
                    ));
                },
                other => {
                    flat.push(other.clone());
                    assert(views(flat@) =~= views(before).push(other@));
                },
            }
            i += 1;
        }
        flat
    }

    /// Sums and products are not evaluated: always `NotImplemented`.
    pub fn eval(&self) -> (value: Result<Expression, EvalError>)
        ensures
            value matches Err(EvalError::NotImplemented),
            self@.eval() is None,
    {
        Err(EvalError::NotImplemented)
    }

    /// The simplified form of this product, or `None` where a constant that
    /// simplification folds does not fit in 64 bits.
    ///
    /// Nested products are inlined. If an operand is then the constant zero
    /// the result is the constant zero, whatever the other operands are.
    /// Otherwise every operand is simplified and the constants equal to one
    /// leave. If only constants remain the result is their product, one if
    /// nothing remains; else it is the product of what remains, in order.
    pub fn checked_simplify(&self) -> (simplified: Option<Expression>)
        ensures
            simplified is Some <==> self@.foldable(),
            simplified matches Some(e) ==> e@ == self@.simplify(),
        decreases self@, 0int,
    {
        let flat = self.flatten();
        let ghost ops = views(self.ops@);
        let ghost factors = simplify_all(views(flat@));
        proof {
            lemma_simplified_operands(Kind::Product, ops);
        }
        if has_zero(&flat) {
            return Some(Expression::Constant(Constant::new(0)));
        }
        let mut kept: Vec<Expression> = Vec::new();
        let mut only_numbers = true;
        let mut i: usize = 0;
        while i < flat.len()
            invariant
                i <= flat.len(),
                ops == views(self.ops@),
                views(flat@) == flatten(Kind::Product, ops),
                !views(flat@).contains(Formula::Number(0)),
                factors == simplify_all(views(flat@)),
                views(kept@) == non_ones(factors.take(i as int)),
                only_numbers == all_numbers(views(kept@)),
                forall|j: int|
                    0 <= j < kept.len() ==> (#[trigger] views(kept@)[j]) != Formula::Number(0),
                forall|j: int| 0 <= j < i ==> (#[trigger] views(flat@)[j]).foldable(),
            decreases flat.len() - i,
        {
            proof {
                lemma_flatten_prefix_inside(Kind::Product, ops, ops.len(), i as int);
                lemma_flatten_prefix_flat(Kind::Product, ops, ops.len(), i as int);
                lemma_simplify_shape(views(flat@)[i as int]);
                assert(views(flat@)[i as int] == flat[i as int]@);
                assert(views(flat@).contains(views(flat@)[i as int]));
                assert(factors.take(i + 1) =~= factors.take(i as int).push(factors[i as int]));
                lemma_non_ones_push(factors.take(i as int), factors[i as int]);
            }
            let ghost before = kept@;
            match flat[i].checked_simplify() {
                None => {
                    return None;
                },
                Some(Expression::Constant(c)) => {
                    if c.value != 1 {
                        kept.push(Expression::Constant(c));
                        assert(views(kept@) =~= views(before).push(factors[i as int]));
                        assert(all_numbers(views(before)) ==> all_numbers(views(kept@)));
                        assert(all_numbers(views(kept@)) ==> all_numbers(views(before))) by {
                            if all_numbers(views(kept@)) {
                                assert forall|j: int| 0 <= j < before.len() implies (
                                #[trigger] views(before)[j]) is Number by {
                                    assert(views(kept@)[j] is Number);
                                }
                            }
                        }
                    }
                },
                Some(other) => {
                    kept.push(other);
                    only_numbers = false;
                    assert(views(kept@) =~= views(before).push(factors[i as int]));
                    assert(!(views(kept@)[kept.len() - 1] is Number));
                },
            }
            i += 1;
        }
        assert(factors.take(flat.len() as int) =~= factors);
        if !only_numbers {
            return Some(Expression::Multiply(Multiply { ops: kept }));
        }
        let mut product: i128 = 1;
        let mut k: usize = 0;
        while k < kept.len()
            invariant
                k <= kept.len(),
                ops == views(self.ops@),
                !flatten(Kind::Product, ops).contains(Formula::Number(0)),
                views(kept@) == non_ones(simplify_all(flatten(Kind::Product, ops))),
                all_numbers(views(kept@)),
                forall|j: int|
                    0 <= j < kept.len() ==> (#[trigger] views(kept@)[j]) != Formula::Number(0),
                product == number_product(views(kept@).take(k as int)),
                -0x8000_0000_0000_0000 <= product <= 0x8000_0000_0000_0000,
            decreases kept.len() - k,
        {
            proof {
                assert(views(kept@)[k as int] == kept[k as int]@);
                assert(views(kept@).take(k + 1) =~= views(kept@).take(k as int).push(
                    views(kept@)[k as int],
                ));
                lemma_number_product_push(views(kept@).take(k as int), views(kept@)[k as int]);
                lemma_number_product_grows(views(kept@), k + 1);
            }
            if let Expression::Constant(c) = &kept[k] {
                assert(-0x4000_0000_0000_0000_0000_0000_0000_0000 <= product * c.value
                    <= 0x4000_0000_0000_0000_0000_0000_0000_0000) by (nonlinear_arith)
                    requires
                        -0x8000_0000_0000_0000 <= product <= 0x8000_0000_0000_0000,
                        -0x8000_0000_0000_0000 <= c.value <= 0x8000_0000_0000_0000,
                ;
                let wide: i128 = product * (c.value as i128);
                if wide < -0x8000_0000_0000_0000 || wide > 0x8000_0000_0000_0000 {
                    return None;
                }
                product = wide;
            }
            k += 1;
        }
        assert(views(kept@).take(kept.len() as int) =~= views(kept@));
        if product > i64::MAX as i128 {
            return None;
        }
        Some(Expression::Constant(Constant::new(product as i64)))
    }

    /// The simplified form of this product.
    pub fn simplify(&self) -> (simplified: Expression)
        requires
            self@.foldable(),
        ensures
            simplified@ == self@.simplify(),
    {
        self.checked_simplify().unwrap()
    }

    /// The product as infix text: its operands joined by a space, each
    /// in parentheses where it is a sum or a product.
    pub fn to_typist(&self) -> (text: String)
        ensures
            text@ == self@.render(),
        decreases self,
    {
        proof {
            reveal_strlit(" ");
            assert(" "@ =~= seq![' ']);
        }
        typist_joined(&self.ops, " ")
    }

    /// The product as an indented tree; its first line is indented by
    /// `indent` spaces.
    pub fn debug(&self, indent: usize) -> (text: String)
        ensures
            text@ == self@.dump(indent as nat),
    {
        let margin = spaces_text(indent);
        let mut text = String::new();
        self.debug_into(margin.as_str(), &mut text);
        assert(text@ =~= self@.dump(indent as nat));
        text
    }

    /// Appends the indented tree of the product to `out`, each line after
    /// `margin`.
    pub(crate) fn debug_into(&self, margin: &str, out: &mut String)
        requires
            margin@ == spaces(margin@.len()),
        ensures
            final(out)@ == old(out)@ + self@.dump(margin@.len()),
        decreases self,
    {
        out.append(margin);
        out.append("Multiply {\n");
        let deeper = deeper_margin(margin);
        debug_all_into(&self.ops, deeper.as_str(), out);
        out.append(margin);
        out.append("}\n");
        assert(final(out)@ =~= old(out)@ + self@.dump(margin@.len()));
    }
}

/// Whether an expression of `flat` is the constant zero.
fn has_zero(flat: &Vec<Expression>) -> (found: bool)
    ensures
        found == views(flat@).contains(Formula::Number(0)),
{
    let mut i: usize = 0;
    while i < flat.len()
        invariant
            i <= flat.len(),
            forall|j: int| 0 <= j < i ==> (#[trigger] views(flat@)[j]) != Formula::Number(0),
        decreases flat.len() - i,
    {
        if let Expression::Constant(c) = &flat[i] {
            if c.value == 0 {
                assert(views(flat@)[i as int] == Formula::Number(0));
                return true;
            }
        }
        assert(views(flat@)[i as int] == flat[i as int]@);
        i += 1;
    }
    false
}

impl Clone for Multiply {
    /// A deep copy: the same formula in a tree of its own.
    fn clone(&self) -> (copy: Self)
        ensures
            copy@ == self@,
    {
        Multiply { ops: clone_all(&self.ops) }
    }
}

} // verus!
