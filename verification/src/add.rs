use vstd::prelude::*;
use crate::formula::{
    Formula, Kind, flatten, flatten_prefix, simplify_all, non_numbers, number_sum,
    lemma_simplified_operands, lemma_flatten_prefix_inside, lemma_number_sum_push,
    lemma_non_numbers_push,
};
use crate::constant::Constant;
use crate::error::EvalError;
use vstd::string::StringExecFns;
use crate::expression::{Expression, views, clone_all, typist_joined, debug_all_into, deeper_margin};
use crate::text::{spaces, spaces_text};

verus! {

/// An n-ary sum.
#[derive(Debug)]
pub struct Add {
    pub ops: Vec<Expression>,
}

impl View for Add {
    type V = Formula;

    open spec fn view(&self) -> Formula {
        Formula::Sum(views(self.ops@))
    }
}

impl Add {
    /// Makes the sum of `ops`, in their order.
    pub fn new(ops: Vec<Expression>) -> (a: Self)
        ensures
            a.ops == ops,
    {
        Self { ops }
    }

    /// The operands of this sum with every nested sum inlined, in order.
    pub fn flatten(&self) -> (flat: Vec<Expression>)
        ensures
            views(flat@) == flatten(Kind::Sum, views(self.ops@)),
        decreases self,
    {
        let mut flat: Vec<Expression> = Vec::new();
        let mut i: usize = 0;
        while i < self.ops.len()
            invariant
                i <= self.ops.len(),
                views(flat@) == flatten_prefix(Kind::Sum, views(self.ops@), i as nat),
            decreases self.ops.len() - i,
        {
            let ghost before = flat@;
            match &self.ops[i] {
                Expression::Add(inner) => {
                    let mut more = inner.flatten();
                    flat.append(&mut more);
                    assert(views(flat@) =~= views(before) + flatten(
                        Kind::Sum,
                        views(inner.ops@),
                    ));
                },
                other => {
                    flat.push(other.clone());
                    assert(views(flat@) =~= views(before).push(other@));
                },
            }
            i += 1;
        }
        flat
    }

    /// Sums and products are not evaluated: always `NotImplemented`.
    pub fn eval(&self) -> (value: Result<Expression, EvalError>)
        ensures
            value matches Err(EvalError::NotImplemented),
            self@.eval() is None,
    {
        Err(EvalError::NotImplemented)
    }

    /// The simplified form of this sum, or `None` where a constant that
    /// simplification folds does not fit in 64 bits.
    ///
    /// Nested sums are inlined and every operand is simplified. The operands
    /// that are not constants stay, in order; the constants, zeros among them,
    /// leave and their sum takes the last place, also when it is zero.
    pub fn checked_simplify(&self) -> (simplified: Option<Expression>)
        ensures
            simplified is Some <==> self@.foldable(),
            simplified matches Some(e) ==> e@ == self@.simplify(),
        decreases self@, 0int,
    {
        let flat = self.flatten();
        let ghost ops = views(self.ops@);
        let ghost terms = simplify_all(views(flat@));
        proof {
            lemma_simplified_operands(Kind::Sum, ops);
        }
        let mut others: Vec<Expression> = Vec::new();
        let mut total: i128 = 0;
        let mut i: usize = 0;
        while i < flat.len()
            invariant
                i <= flat.len(),
                ops == views(self.ops@),
                views(flat@) == flatten(Kind::Sum, ops),
                terms == simplify_all(views(flat@)),
                views(others@) == non_numbers(terms.take(i as int)),
                total == number_sum(terms.take(i as int)),
                -(i * 0x8000_0000_0000_0000) <= total <= i * 0x8000_0000_0000_0000,
                forall|j: int| 0 <= j < i ==> (#[trigger] views(flat@)[j]).foldable(),
            decreases flat.len() - i,
        {
            proof {
                lemma_flatten_prefix_inside(Kind::Sum, ops, ops.len(), i as int);
                assert(views(flat@)[i as int] == flat[i as int]@);
                assert(terms.take(i + 1) =~= terms.take(i as int).push(terms[i as int]));
                lemma_number_sum_push(terms.take(i as int), terms[i as int]);
                lemma_non_numbers_push(terms.take(i as int), terms[i as int]);
            }
            let ghost before = others@;
            match flat[i].checked_simplify() {
                None => {
                    return None;
                },
                Some(Expression::Constant(c)) => {
                    total = total + c.value as i128;
                },
                Some(other) => {
                    others.push(other);
                    assert(views(others@) =~= views(before).push(other@));
                },
            }
            i += 1;
        }
        assert(terms.take(flat.len() as int) =~= terms);
        if total < i64::MIN as i128 || total > i64::MAX as i128 {
            return None;
        }
        let ghost before = others@;
        others.push(Expression::Constant(Constant::new(total as i64)));
        assert(views(others@) =~= views(before).push(Formula::Number(total as int)));
        Some(Expression::Add(Add { ops: others }))
    }

    /// The simplified form of this sum.
    pub fn simplify(&self) -> (simplified: Expression)
        requires
            self@.foldable(),
        ensures
            simplified@ == self@.simplify(),
    {
        self.checked_simplify().unwrap()
    }

    /// The sum as infix text: its operands joined by ` + `, each
    /// in parentheses where it is a sum or a product.
    pub fn to_typist(&self) -> (text: String)
        ensures
            text@ == self@.render(),
        decreases self,
    {
        proof {
            reveal_strlit(" + ");
            assert(" + "@ =~= seq![' ', '+', ' ']);
        }
        typist_joined(&self.ops, " + ")
    }

    /// The sum as an indented tree; its first line is indented by
    /// `indent` spaces.
    pub fn debug(&self, indent: usize) -> (text: String)
        ensures
            text@ == self@.dump(indent as nat),
    {
        let margin = spaces_text(indent);
        let mut text = String::new();
        self.debug_into(margin.as_str(), &mut text);
        assert(text@ =~= self@.dump(indent as nat));
        text
    }

    /// Appends the indented tree of the sum to `out`, each line after
    /// `margin`.
    pub(crate) fn debug_into(&self, margin: &str, out: &mut String)
        requires
            margin@ == spaces(margin@.len()),
        ensures
            final(out)@ == old(out)@ + self@.dump(margin@.len()),
        decreases self,
    {
        out.append(margin);
        out.append("Add {\n");
        let deeper = deeper_margin(margin);
        debug_all_into(&self.ops, deeper.as_str(), out);
        out.append(margin);
        out.append("}\n");
        assert(final(out)@ =~= old(out)@ + self@.dump(margin@.len()));
    }
}

impl Clone for Add {
    /// A deep copy: the same formula in a tree of its own.
    fn clone(&self) -> (copy: Self)
        ensures
            copy@ == self@,
    {
        Add { ops: clone_all(&self.ops) }
    }
}

} // verus!
