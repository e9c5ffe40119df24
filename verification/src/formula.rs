use vstd::prelude::*;
use crate::text::{decimal, spaces, join, concat};

verus! {

/// The mathematical value of an expression tree: constants are unbounded
/// integers, names are sequences of characters, and the two operators hold
/// their operands in order.
pub enum Formula {
    Number(int),
    Symbol(Seq<char>),
    Sum(Seq<Formula>),
    Product(Seq<Formula>),
}

/// The two associative operators.
pub enum Kind {
    Sum,
    Product,
}

impl Formula {
    /// Whether this formula is an operator node of the given kind.
    pub open spec fn is_node(self, kind: Kind) -> bool {
        match kind {
            Kind::Sum => self is Sum,
            Kind::Product => self is Product,
        }
    }

    /// The operands of an operator node; a leaf has none.
    pub open spec fn operands(self) -> Seq<Formula> {
        match self {
            Formula::Sum(ops) => ops,
            Formula::Product(ops) => ops,
            _ => Seq::empty(),
        }
    }

    /// The terminal value of this formula: a leaf is its own value, and a sum
    /// or a product has none.
    pub open spec fn eval(self) -> Option<Formula> {
        match self {
            Formula::Number(_) => Some(self),
            Formula::Symbol(_) => Some(self),
            _ => None,
        }
    }

    /// The value of a constant; zero for anything else.
    pub open spec fn value(self) -> int {
        match self {
            Formula::Number(n) => n,
            _ => 0,
        }
    }
}

/// Whether `n` can be held in a signed 64-bit constant.
pub open spec fn fits(n: int) -> bool {
    i64::MIN <= n <= i64::MAX
}

/// The sum of the constants among `terms`; zero where there is none.
pub open spec fn number_sum(terms: Seq<Formula>) -> int
    decreases terms.len(),
{
    if terms.len() == 0 {
        0
    } else {
        number_sum(terms.drop_last()) + terms.last().value()
    }
}

/// The product of the constants among `factors`; one where there is none.
pub open spec fn number_product(factors: Seq<Formula>) -> int
    decreases factors.len(),
{
    if factors.len() == 0 {
        1
    } else if factors.last() is Number {
        number_product(factors.drop_last()) * factors.last().value()
    } else {
        number_product(factors.drop_last())
    }
}

/// The first `n` operands of `ops` after every nested node of the same kind,
/// at any depth, has been replaced by its own operands, in order.
pub open spec fn flatten_prefix(kind: Kind, ops: Seq<Formula>, n: nat) -> Seq<Formula>
    decreases ops, n,
{
    if n == 0 || n > ops.len() {
        Seq::empty()
    } else {
        let before = flatten_prefix(kind, ops, (n - 1) as nat);
        match (kind, ops[n - 1]) {
            (Kind::Sum, Formula::Sum(inner)) => before + flatten_prefix(kind, inner, inner.len()),
            (Kind::Product, Formula::Product(inner)) => before + flatten_prefix(
                kind,
                inner,
                inner.len(),
            ),
            (_, other) => before.push(other),
        }
    }
}

/// The operand list `ops` of a node of the given kind, flattened: associativity
/// lets every nested node of that kind be inlined.
pub open spec fn flatten(kind: Kind, ops: Seq<Formula>) -> Seq<Formula> {
    flatten_prefix(kind, ops, ops.len())
}

/// Every operand of a flattened list sits strictly inside the list it came from.
pub proof fn lemma_flatten_prefix_inside(kind: Kind, ops: Seq<Formula>, n: nat, j: int)
    requires
        n <= ops.len(),
        0 <= j < flatten_prefix(kind, ops, n).len(),
    ensures
        decreases_to!(ops => flatten_prefix(kind, ops, n)[j]),
    decreases ops, n,
{
    let before = flatten_prefix(kind, ops, (n - 1) as nat);
    if j < before.len() {
        lemma_flatten_prefix_inside(kind, ops, (n - 1) as nat, j);
    } else {
        match (kind, ops[n - 1]) {
            (Kind::Sum, Formula::Sum(inner)) => {
                lemma_flatten_prefix_inside(kind, inner, inner.len(), j - before.len());
            },
            (Kind::Product, Formula::Product(inner)) => {
                lemma_flatten_prefix_inside(kind, inner, inner.len(), j - before.len());
            },
            _ => {},
        }
    }
}

impl Formula {
    /// The simplified form of this formula.
    ///
    /// A leaf is its own simplified form. A sum is flattened and its operands are
    /// simplified; the operands that are not constants stay, in order, and the
    /// sum of the constant ones follows them as the last operand. A product is
    /// flattened; it is zero if a flattened operand is the constant zero;
    /// otherwise its operands are simplified and the constants equal to one
    /// leave: if only constants remain the result is their product, else the
    /// product of what remains, in order.
    pub open spec fn simplify(self) -> Formula
        decreases self, 0int,
    {
        match self {
            Formula::Number(_) => self,
            Formula::Symbol(_) => self,
            Formula::Sum(ops) => sum_of(simplified_operands(Kind::Sum, ops)),
            Formula::Product(ops) => if flatten(Kind::Product, ops).contains(Formula::Number(0)) {
                Formula::Number(0)
            } else {
                product_of(simplified_operands(Kind::Product, ops))
            },
        }
    }
}

/// The flattened operands of a node of the given kind, each simplified.
pub open spec fn simplified_operands(kind: Kind, ops: Seq<Formula>) -> Seq<Formula>
    decreases ops, 1int,
{
    let flat = flatten(kind, ops);
    Seq::new(
        flat.len(),
        |j: int|
            if 0 <= j < flat.len() {
                proof {
                    lemma_flatten_prefix_inside(kind, ops, ops.len(), j);
                }
                flat[j].simplify()
            } else {
                flat[0]
            },
    )
}

impl Formula {
    /// Whether every constant in this formula can be held in 64 bits.
    pub open spec fn representable(self) -> bool
        decreases self,
    {
        match self {
            Formula::Number(n) => fits(n),
            Formula::Symbol(_) => true,
            Formula::Sum(ops) => forall|i: int|
                0 <= i < ops.len() ==> (#[trigger] ops[i]).representable(),
            Formula::Product(ops) => forall|i: int|
                0 <= i < ops.len() ==> (#[trigger] ops[i]).representable(),
        }
    }
}

impl Formula {
    /// Whether every constant that arises while this formula is simplified can
    /// be held in 64 bits: the constants it holds, and each sum and product
    /// of constants that simplification folds.
    pub open spec fn foldable(self) -> bool
        decreases self,
    {
        match self {
            Formula::Number(n) => fits(n),
            Formula::Symbol(_) => true,
            Formula::Sum(ops) => {
                let flat = flatten(Kind::Sum, ops);
                &&& forall|j: int|
                    0 <= j < flat.len() ==> {
                        proof {
                            lemma_flatten_prefix_inside(Kind::Sum, ops, ops.len(), j);
                        }
                        (#[trigger] flat[j]).foldable()
                    }
                &&& fits(number_sum(simplify_all(flat)))
            },
            Formula::Product(ops) => {
                let flat = flatten(Kind::Product, ops);
                let kept = non_ones(simplify_all(flat));
                flat.contains(Formula::Number(0)) || {
                    &&& forall|j: int|
                        0 <= j < flat.len() ==> {
                            proof {
                                lemma_flatten_prefix_inside(Kind::Product, ops, ops.len(), j);
                            }
                            (#[trigger] flat[j]).foldable()
                        }
                    &&& all_numbers(kept) ==> fits(number_product(kept))
                }
            },
        }
    }
}

/// Each formula of `ops` simplified, in order.
pub open spec fn simplify_all(ops: Seq<Formula>) -> Seq<Formula> {
    ops.map_values(|f: Formula| f.simplify())
}

/// The formulas of `terms` that are not constants, in order.
pub open spec fn non_numbers(terms: Seq<Formula>) -> Seq<Formula> {
    terms.filter(|t: Formula| !(t is Number))
}

/// The formulas of `factors` other than the constant one, in order.
pub open spec fn non_ones(factors: Seq<Formula>) -> Seq<Formula> {
    factors.filter(|t: Formula| t != Formula::Number(1))
}

/// Whether every formula of `factors` is a constant.
pub open spec fn all_numbers(factors: Seq<Formula>) -> bool {
    forall|j: int| 0 <= j < factors.len() ==> (#[trigger] factors[j]) is Number
}

/// The sum of simplified, flat `terms`: those that are not constants, in
/// order, followed by the sum of the constant ones.
pub open spec fn sum_of(terms: Seq<Formula>) -> Formula {
    Formula::Sum(non_numbers(terms).push(Formula::Number(number_sum(terms))))
}

/// The product of simplified, flat `factors`, none of them zero: without the
/// constants equal to one, a single constant if only constants remain.
pub open spec fn product_of(factors: Seq<Formula>) -> Formula {
    let kept = non_ones(factors);
    if all_numbers(kept) {
        Formula::Number(number_product(kept))
    } else {
        Formula::Product(kept)
    }
}

/// The simplified operands of a node are its flattened operands, each
/// simplified on its own.
pub proof fn lemma_simplified_operands(kind: Kind, ops: Seq<Formula>)
    ensures
        simplified_operands(kind, ops) == simplify_all(flatten(kind, ops)),
{
    assert(simplified_operands(kind, ops) =~= simplify_all(flatten(kind, ops)));
}

/// No operand of a flattened list is itself a node of the kind that was
/// flattened.
pub proof fn lemma_flatten_prefix_flat(kind: Kind, ops: Seq<Formula>, n: nat, j: int)
    requires
        n <= ops.len(),
        0 <= j < flatten_prefix(kind, ops, n).len(),
    ensures
        !flatten_prefix(kind, ops, n)[j].is_node(kind),
    decreases ops, n,
{
    let before = flatten_prefix(kind, ops, (n - 1) as nat);
    if j < before.len() {
        lemma_flatten_prefix_flat(kind, ops, (n - 1) as nat, j);
    } else {
        match (kind, ops[n - 1]) {
            (Kind::Sum, Formula::Sum(inner)) => {
                lemma_flatten_prefix_flat(kind, inner, inner.len(), j - before.len());
            },
            (Kind::Product, Formula::Product(inner)) => {
                lemma_flatten_prefix_flat(kind, inner, inner.len(), j - before.len());
            },
            _ => {},
        }
    }
}

/// What simplification keeps of a formula's shape: a leaf stays as it is, a
/// sum stays a sum, and a product becomes a constant or a product.
pub proof fn lemma_simplify_shape(f: Formula)
    ensures
        f is Number ==> f.simplify() == f,
        f is Symbol ==> f.simplify() == f,
        f is Sum ==> f.simplify() is Sum,
        f is Product ==> f.simplify() is Number || f.simplify() is Product,
{
}

/// One more term at the end adds its value to the sum of the constants.
pub proof fn lemma_number_sum_push(terms: Seq<Formula>, t: Formula)
    ensures
        number_sum(terms.push(t)) == number_sum(terms) + t.value(),
{
    assert(terms.push(t).drop_last() =~= terms);
}

/// One more factor at the end multiplies the product of the constants by its
/// value if it is a constant, and leaves it as it is otherwise.
pub proof fn lemma_number_product_push(factors: Seq<Formula>, t: Formula)
    ensures
        number_product(factors.push(t)) == if t is Number {
            number_product(factors) * t.value()
        } else {
            number_product(factors)
        },
{
    assert(factors.push(t).drop_last() =~= factors);
}

/// One more term at the end joins the terms that are not constants exactly
/// if it is not one.
pub proof fn lemma_non_numbers_push(terms: Seq<Formula>, t: Formula)
    ensures
        non_numbers(terms.push(t)) == if t is Number {
            non_numbers(terms)
        } else {
            non_numbers(terms).push(t)
        },
{
    Seq::lemma_filter_push(terms, t, |t: Formula| !(t is Number));
}

/// One more factor at the end joins the factors other than one exactly if it
/// is not the constant one.
pub proof fn lemma_non_ones_push(factors: Seq<Formula>, t: Formula)
    ensures
        non_ones(factors.push(t)) == if t == Formula::Number(1) {
            non_ones(factors)
        } else {
            non_ones(factors).push(t)
        },
{
    Seq::lemma_filter_push(factors, t, |t: Formula| t != Formula::Number(1));
}

/// Among constants other than zero, the product of all is at least as large
/// in magnitude as the product of the first `k`.
pub proof fn lemma_number_product_grows(factors: Seq<Formula>, k: int)
    requires
        0 <= k <= factors.len(),
        forall|j: int| 0 <= j < factors.len() ==> factors[j] != Formula::Number(0),
    ensures
        number_product(factors.take(k)) >= 0 ==> number_product(factors) >= number_product(
            factors.take(k),
        ) || number_product(factors) <= -number_product(factors.take(k)),
        number_product(factors.take(k)) <= 0 ==> number_product(factors) <= number_product(
            factors.take(k),
        ) || number_product(factors) >= -number_product(factors.take(k)),
    decreases factors.len() - k,
{
    if k == factors.len() {
        assert(factors.take(k) =~= factors);
    } else {
        let front = factors.drop_last();
        assert(front.take(k) =~= factors.take(k));
        lemma_number_product_grows(front, k);
        let p = number_product(front);
        let v = factors.last().value();
        if factors.last() is Number {
            assert(v != 0);
            assert(number_product(factors) == p * v);
            assert((p >= 0 && v >= 1 ==> p * v >= p) && (p >= 0 && v <= -1 ==> p * v <= -p) && (p
                <= 0 && v >= 1 ==> p * v <= p) && (p <= 0 && v <= -1 ==> p * v >= -p))
                by (nonlinear_arith);
        }
    }
}

/// A list that holds no node of the given kind is its own flattened list.
pub proof fn lemma_flatten_prefix_of_flat(kind: Kind, ops: Seq<Formula>, n: nat)
    requires
        n <= ops.len(),
        forall|i: int| 0 <= i < ops.len() ==> !(#[trigger] ops[i]).is_node(kind),
    ensures
        flatten_prefix(kind, ops, n) == ops.take(n as int),
    decreases n,
{
    if n > 0 {
        lemma_flatten_prefix_of_flat(kind, ops, (n - 1) as nat);
        assert(!ops[n - 1].is_node(kind));
        assert(ops.take(n as int) =~= ops.take(n - 1).push(ops[n - 1]));
    } else {
        assert(ops.take(0) =~= Seq::<Formula>::empty());
    }
}

/// Flattening the first operands of a longer list is flattening them alone.
pub proof fn lemma_flatten_prefix_front(kind: Kind, front: Seq<Formula>, back: Seq<Formula>, n: nat)
    requires
        n <= front.len(),
    ensures
        flatten_prefix(kind, front + back, n) == flatten_prefix(kind, front, n),
    decreases n,
{
    if n > 0 {
        lemma_flatten_prefix_front(kind, front, back, (n - 1) as nat);
        assert((front + back)[n - 1] == front[n - 1]);
    }
}

/// Flattening goes through concatenation: the flattened list of two lists
/// joined is the two flattened lists joined.
pub proof fn lemma_flatten_concat(kind: Kind, front: Seq<Formula>, back: Seq<Formula>, n: nat)
    requires
        n <= back.len(),
    ensures
        flatten_prefix(kind, front + back, front.len() + n) == flatten(kind, front)
            + flatten_prefix(kind, back, n),
    decreases n,
{
    if n == 0 {
        lemma_flatten_prefix_front(kind, front, back, front.len());
        assert(flatten(kind, front) + Seq::<Formula>::empty() =~= flatten(kind, front));
    } else {
        lemma_flatten_concat(kind, front, back, (n - 1) as nat);
        assert((front + back)[front.len() + n - 1] == back[n - 1]);
        let start = flatten(kind, front);
        let middle = flatten_prefix(kind, back, (n - 1) as nat);
        match (kind, back[n - 1]) {
            (Kind::Sum, Formula::Sum(inner)) => {
                assert((start + middle) + flatten(kind, inner) =~= start + (middle + flatten(
                    kind,
                    inner,
                )));
            },
            (Kind::Product, Formula::Product(inner)) => {
                assert((start + middle) + flatten(kind, inner) =~= start + (middle + flatten(
                    kind,
                    inner,
                )));
            },
            (_, other) => {
                assert((start + middle).push(other) =~= start + middle.push(other));
            },
        }
    }
}

/// What a filter keeps passes the test and comes from the list.
pub proof fn lemma_filter_kept(s: Seq<Formula>, pred: spec_fn(Formula) -> bool, i: int)
    requires
        0 <= i < s.filter(pred).len(),
    ensures
        pred(s.filter(pred)[i]),
        s.contains(s.filter(pred)[i]),
{
    s.lemma_filter_pred(pred, i);
    assert(s.filter(pred).contains(s.filter(pred)[i]));
    s.lemma_filter_contains_rev(pred, s.filter(pred)[i]);
}

/// Flattening, operand by operand: nothing flattens to nothing, and one more
/// operand at the end adds its own flattened operands if it is a node of the
/// kind that is flattened, and itself if not.
pub proof fn lemma_flatten_push(kind: Kind, ops: Seq<Formula>, last: Formula)
    ensures
        flatten(kind, Seq::empty()) == Seq::<Formula>::empty(),
        flatten(kind, ops.push(last)) == if last.is_node(kind) {
            flatten(kind, ops) + flatten(kind, last.operands())
        } else {
            flatten(kind, ops).push(last)
        },
{
    lemma_flatten_prefix_front(kind, ops, seq![last], ops.len());
    assert(ops.push(last) =~= ops + seq![last]);
}

/// Filtering leaves a list as it is where every element passes.
pub proof fn lemma_filter_all(s: Seq<Formula>, pred: spec_fn(Formula) -> bool)
    requires
        forall|i: int| 0 <= i < s.len() ==> pred(#[trigger] s[i]),
    ensures
        s.filter(pred) == s,
    decreases s.len(),
{
    reveal(Seq::filter);
    if s.len() > 0 {
        lemma_filter_all(s.drop_last(), pred);
        assert(s.drop_last().push(s.last()) =~= s);
    }
}

/// Where no term is a constant, the sum of the constants is zero.
pub proof fn lemma_number_sum_without_numbers(terms: Seq<Formula>)
    requires
        forall|i: int| 0 <= i < terms.len() ==> !((#[trigger] terms[i]) is Number),
    ensures
        number_sum(terms) == 0,
    decreases terms.len(),
{
    if terms.len() > 0 {
        lemma_number_sum_without_numbers(terms.drop_last());
    }
}

/// A product of constants other than zero is not zero.
pub proof fn lemma_number_product_nonzero(factors: Seq<Formula>)
    requires
        forall|j: int| 0 <= j < factors.len() ==> factors[j] != Formula::Number(0),
    ensures
        number_product(factors) != 0,
    decreases factors.len(),
{
    if factors.len() > 0 {
        lemma_number_product_nonzero(factors.drop_last());
        let p = number_product(factors.drop_last());
        let v = factors.last().value();
        if factors.last() is Number {
            assert(factors[factors.len() - 1] != Formula::Number(0));
            assert(p != 0 && v != 0 ==> p * v != 0) by (nonlinear_arith);
        }
    }
}

impl Formula {
    /// Whether this formula is the constant zero, or a product with such a
    /// formula among its operands: a zero factor at any depth of nested
    /// products.
    pub open spec fn is_zero_factor(self) -> bool
        decreases self,
    {
        match self {
            Formula::Number(n) => n == 0,
            Formula::Product(inner) => exists|i: int|
                0 <= i < inner.len() && (#[trigger] inner[i]).is_zero_factor(),
            _ => false,
        }
    }
}

/// The flattened first `n` operands of a product hold the constant zero
/// exactly if one of these operands is a zero factor.
pub proof fn lemma_flatten_prefix_zero(ops: Seq<Formula>, n: nat)
    requires
        n <= ops.len(),
    ensures
        flatten_prefix(Kind::Product, ops, n).contains(Formula::Number(0)) <==> exists|i: int|
            0 <= i < n && (#[trigger] ops[i]).is_zero_factor(),
    decreases ops, n,
{
    let zero = Formula::Number(0);
    if n > 0 {
        let before = flatten_prefix(Kind::Product, ops, (n - 1) as nat);
        let all = flatten_prefix(Kind::Product, ops, n);
        lemma_flatten_prefix_zero(ops, (n - 1) as nat);
        match ops[n - 1] {
            Formula::Product(inner) => {
                let nested = flatten_prefix(Kind::Product, inner, inner.len());
                lemma_flatten_prefix_zero(inner, inner.len());
                assert(all == before + nested);
                if all.contains(zero) {
                    let j = choose|j: int| 0 <= j < all.len() && all[j] == zero;
                    if j < before.len() {
                        assert(before[j] == zero);
                    } else {
                        assert(nested[j - before.len()] == zero);
                        assert(ops[n - 1].is_zero_factor());
                    }
                }
                if exists|i: int| 0 <= i < n && (#[trigger] ops[i]).is_zero_factor() {
                    let i = choose|i: int| 0 <= i < n && (#[trigger] ops[i]).is_zero_factor();
                    if i < n - 1 {
                        let j = choose|j: int| 0 <= j < before.len() && before[j] == zero;
                        assert(all[j] == zero);
                    } else {
                        let j = choose|j: int| 0 <= j < nested.len() && nested[j] == zero;
                        assert(all[before.len() + j] == zero);
                    }
                }
            },
            other => {
                assert(all == before.push(other));
                if all.contains(zero) {
                    let j = choose|j: int| 0 <= j < all.len() && all[j] == zero;
                    if j < before.len() {
                        assert(before[j] == zero);
                    } else {
                        assert(ops[n - 1].is_zero_factor());
                    }
                }
                if exists|i: int| 0 <= i < n && (#[trigger] ops[i]).is_zero_factor() {
                    let i = choose|i: int| 0 <= i < n && (#[trigger] ops[i]).is_zero_factor();
                    if i < n - 1 {
                        let j = choose|j: int| 0 <= j < before.len() && before[j] == zero;
                        assert(all[j] == zero);
                    } else {
                        assert(all[before.len() as int] == zero);
                    }
                }
            },
        }
    }
}

impl Formula {
    /// The formula as infix text. A constant is its decimal numeral and a
    /// variable its name. The operands of a sum are joined by ` + `, those of
    /// a product by a space; an operand that is itself a sum or a product
    /// stands in parentheses.
    pub open spec fn render(self) -> Seq<char>
        decreases self, 0int,
    {
        match self {
            Formula::Number(n) => decimal(n),
            Formula::Symbol(name) => name,
            Formula::Sum(ops) => join(rendered_operands(ops), seq![' ', '+', ' ']),
            Formula::Product(ops) => join(rendered_operands(ops), seq![' ']),
        }
    }

    /// The formula as an indented tree, one line for a leaf, an opening and a
    /// closing line around the operands of a sum or a product; each level of
    /// operands is indented by two more spaces than the level above.
    pub open spec fn dump(self, indent: nat) -> Seq<char>
        decreases self, 0int,
    {
        match self {
            Formula::Number(n) => spaces(indent) + "Constant { value: "@ + decimal(n) + " }\n"@,
            Formula::Symbol(name) => spaces(indent) + "Variable { name: "@ + name + " }\n"@,
            Formula::Sum(ops) => spaces(indent) + "Add {\n"@ + concat(
                dumped_operands(ops, indent + 2),
            ) + spaces(indent) + "}\n"@,
            Formula::Product(ops) => spaces(indent) + "Multiply {\n"@ + concat(
                dumped_operands(ops, indent + 2),
            ) + spaces(indent) + "}\n"@,
        }
    }
}

/// The infix text of each operand of `ops`, in parentheses where the operand
/// is a sum or a product.
pub open spec fn rendered_operands(ops: Seq<Formula>) -> Seq<Seq<char>>
    decreases ops, 1int,
{
    Seq::new(
        ops.len(),
        |i: int|
            if 0 <= i < ops.len() {
                if ops[i] is Sum || ops[i] is Product {
                    seq!['('] + ops[i].render() + seq![')']
                } else {
                    ops[i].render()
                }
            } else {
                Seq::empty()
            },
    )
}

/// The indented tree of each operand of `ops`.
pub open spec fn dumped_operands(ops: Seq<Formula>, indent: nat) -> Seq<Seq<char>>
    decreases ops, 1int,
{
    Seq::new(
        ops.len(),
        |i: int|
            if 0 <= i < ops.len() {
                ops[i].dump(indent)
            } else {
                Seq::empty()
            },
    )
}

} // verus!
