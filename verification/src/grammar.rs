//! The grammar of expressions.
//!
//! ```text
//! expression := expression '+' term | expression '-' term | term
//! term       := term '*' factor | factor
//! factor     := '(' expression ')' | variable | number
//! variable   := 'x' | 'y' | 'z'
//! number     := digit+
//! ```
//!
//! Spaces, tabs and line ends may stand around every factor, and so around
//! every token. The operators associate to the left, and `a - b` denotes the
//! sum of `a` and of the sum of zero and `-1 * b`.

use vstd::prelude::*;
use crate::formula::Formula;

verus! {

/// Whether `c` is a space, a tab, a line feed or a carriage return.
pub open spec fn is_space(c: char) -> bool {
    c == ' ' || c == '\t' || c == '\n' || c == '\r'
}

/// Whether `c` is a decimal digit.
pub open spec fn is_digit(c: char) -> bool {
    '0' <= c <= '9'
}

/// Whether `c` is the name of a variable.
pub open spec fn is_variable(c: char) -> bool {
    c == 'x' || c == 'y' || c == 'z'
}

/// The value of the decimal digit `c`.
pub open spec fn digit_value(c: char) -> int {
    c as int - '0' as int
}

/// The number that the decimal digits `digits` denote.
pub open spec fn numeral_value(digits: Seq<char>) -> int
    decreases digits.len(),
{
    if digits.len() == 0 {
        0
    } else {
        numeral_value(digits.drop_last()) * 10 + digit_value(digits.last())
    }
}

/// The product of `left` and `right`, as `left * right` is read.
pub open spec fn times(left: Formula, right: Formula) -> Formula {
    Formula::Product(seq![left, right])
}

/// The sum of `left` and `right`, as `left + right` is read.
pub open spec fn plus(left: Formula, right: Formula) -> Formula {
    Formula::Sum(seq![left, right])
}

/// The difference of `left` and `right`, as `left - right` is read: `left`
/// plus the negation of `right`, which is the sum of zero and `-1 * right`.
pub open spec fn minus(left: Formula, right: Formula) -> Formula {
    plus(left, plus(Formula::Number(0), times(Formula::Number(-1), right)))
}

/// Whether `s` holds nothing but white space from position `a` up to
/// position `b`.
pub open spec fn is_blank(s: Seq<char>, a: int, b: int) -> bool {
    &&& 0 <= a <= b <= s.len()
    &&& forall|j: int| a <= j < b ==> is_space(#[trigger] s[j])
}

/// Whether `s` holds a number from position `a` up to position `b`: digits,
/// at least one, and nothing else.
pub open spec fn is_numeral(s: Seq<char>, a: int, b: int) -> bool {
    &&& 0 <= a < b <= s.len()
    &&& forall|j: int| a <= j < b ==> is_digit(#[trigger] s[j])
}

/// Whether position `k` of `s` holds the character `c`.
pub open spec fn holds(s: Seq<char>, k: int, c: char) -> bool {
    0 <= k < s.len() && s[k] == c
}

/// Whether `a <= c < d <= b` and `s` is blank from `a` to `c` and from `d`
/// to `b`: what stands from `c` to `d` is all that stands from `a` to `b`,
/// white space apart.
pub open spec fn is_padded(s: Seq<char>, a: int, c: int, d: int, b: int) -> bool {
    c < d && is_blank(s, a, c) && is_blank(s, d, b)
}

/// Whether `f` is a product of two operands.
pub open spec fn is_times(f: Formula) -> bool {
    f is Product && f.operands().len() == 2
}

/// Whether `f` is a sum of two operands.
pub open spec fn is_plus(f: Formula) -> bool {
    f is Sum && f.operands().len() == 2
}

/// Whether `f` is the difference of its first operand and of `right`.
pub open spec fn is_minus(f: Formula, right: Formula) -> bool {
    f == minus(f.operands()[0], right)
}

/// What is subtracted in a difference.
pub open spec fn subtrahend(f: Formula) -> Formula {
    f.operands()[1].operands()[1].operands()[1]
}

/// Whether the text of `s` from position `a` up to position `b` is a factor
/// that denotes `f`: a parenthesised expression, a variable or a number, with
/// white space before and after it, if any.
pub open spec fn is_factor(s: Seq<char>, a: int, b: int, f: Formula) -> bool
    decreases b - a, 0int,
{
    exists|c: int, d: int| #[trigger]
        is_padded(s, a, c, d, b) && {
            ||| c + 2 <= d <= b && a <= c && holds(s, c, '(') && holds(s, d - 1, ')')
                && is_expression(s, c + 1, d - 1, f)
            ||| d == c + 1 && is_variable(s[c]) && f == Formula::Symbol(seq![s[c]])
            ||| is_numeral(s, c, d) && f == Formula::Number(numeral_value(s.subrange(c, d)))
        }
}

/// Whether the text of `s` from position `a` up to position `b` is a term
/// that denotes `f`: a factor, or a term and a factor with `*` between them.
pub open spec fn is_term(s: Seq<char>, a: int, b: int, f: Formula) -> bool
    decreases b - a, 1int,
{
    ||| is_factor(s, a, b, f)
    ||| exists|k: int|
        a < k < b && #[trigger] holds(s, k, '*') && is_times(f) && is_term(
            s,
            a,
            k,
            f.operands()[0],
        ) && is_factor(s, k + 1, b, f.operands()[1])
}

/// Whether the text of `s` from position `a` up to position `b` is an
/// expression that denotes `f`: a term, or an expression and a term with `+`
/// or `-` between them.
pub open spec fn is_expression(s: Seq<char>, a: int, b: int, f: Formula) -> bool
    decreases b - a, 2int,
{
    ||| is_term(s, a, b, f)
    ||| exists|k: int|
        a < k < b && #[trigger] holds(s, k, '+') && is_plus(f) && is_expression(
            s,
            a,
            k,
            f.operands()[0],
        ) && is_term(s, k + 1, b, f.operands()[1])
    ||| exists|k: int|
        a < k < b && #[trigger] holds(s, k, '-') && is_minus(f, subtrahend(f)) && is_expression(
            s,
            a,
            k,
            f.operands()[0],
        ) && is_term(s, k + 1, b, subtrahend(f))
}

/// Whether the whole of `s` is an expression that denotes `f`.
pub open spec fn is_sentence(s: Seq<char>, f: Formula) -> bool {
    is_expression(s, 0, s.len() as int, f)
}

/// A sum or a product of two formulas is representable exactly if both
/// are.
pub proof fn lemma_pair_representable(left: Formula, right: Formula)
    ensures
        times(left, right).representable() == (left.representable() && right.representable()),
        plus(left, right).representable() == (left.representable() && right.representable()),
{
    let both = seq![left, right];
    assert(both.len() == 2 && both[0] == left && both[1] == right);
    assert(Formula::Sum(both)->Sum_0[0] == left && Formula::Sum(both)->Sum_0[1] == right);
    assert(Formula::Product(both)->Product_0[0] == left && Formula::Product(both)->Product_0[1]
        == right);
}

/// What `*`, `+` and `-` build is representable exactly if both sides are.
pub proof fn lemma_operators_representable(left: Formula, right: Formula)
    ensures
        times(left, right).representable() == (left.representable() && right.representable()),
        plus(left, right).representable() == (left.representable() && right.representable()),
        minus(left, right).representable() == (left.representable() && right.representable()),
{
    lemma_pair_representable(left, right);
    lemma_pair_representable(Formula::Number(-1), right);
    lemma_pair_representable(Formula::Number(0), times(Formula::Number(-1), right));
    lemma_pair_representable(left, plus(Formula::Number(0), times(Formula::Number(-1), right)));
}

} // verus!
