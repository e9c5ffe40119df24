//! What reading the text from left to right yields: the grammar as functions
//! from a position in the text to the formula read and the position after it.
//! Each function reads as much as it can, and white space goes with the
//! factor before it.

use vstd::prelude::*;
use crate::formula::Formula;
use crate::grammar::{
    is_space, is_digit, is_variable, numeral_value, times, plus, minus, is_blank, is_numeral,
    holds, is_padded, is_times, is_plus, is_minus, subtrahend, is_factor, is_term, is_expression,
    is_sentence,
};

verus! {

/// The first position from `i` on that holds no white space; the length of
/// `s` if there is none.
pub open spec fn skip_spaces(s: Seq<char>, i: int) -> int
    decreases s.len() - i,
{
    if 0 <= i < s.len() && is_space(s[i]) {
        skip_spaces(s, i + 1)
    } else {
        i
    }
}

/// The first position from `i` on that holds no digit; the length of `s` if
/// there is none.
pub open spec fn skip_digits(s: Seq<char>, i: int) -> int
    decreases s.len() - i,
{
    if 0 <= i < s.len() && is_digit(s[i]) {
        skip_digits(s, i + 1)
    } else {
        i
    }
}

/// The variable at position `i` and the position after it.
pub open spec fn variable_at(s: Seq<char>, i: int) -> Option<(Formula, int)> {
    if 0 <= i < s.len() && is_variable(s[i]) {
        Some((Formula::Symbol(seq![s[i]]), i + 1))
    } else {
        None
    }
}

/// The number whose digits start at position `i`, as many as there are, and
/// the position after them.
pub open spec fn number_at(s: Seq<char>, i: int) -> Option<(Formula, int)> {
    if 0 <= i < s.len() && is_digit(s[i]) {
        Some((Formula::Number(numeral_value(s.subrange(i, skip_digits(s, i)))), skip_digits(s, i)))
    } else {
        None
    }
}

/// The formula of what was read; zero where nothing was.
pub open spec fn formula_of(read: Option<(Formula, int)>) -> Formula {
    match read {
        Some((formula, _)) => formula,
        None => Formula::Number(0),
    }
}

/// Whether a parser that started at `from` and stopped at `to` has consumed
/// input and stayed inside a text of length `len`. Every parser of this
/// grammar does; the recursive definitions say so to be well founded.
pub open spec fn advanced(from: int, to: int, len: nat) -> bool {
    0 <= from < to <= len
}

/// The factor that starts at position `i`, white space around it included,
/// and the position after it.
pub open spec fn factor_at(s: Seq<char>, i: int) -> Option<(Formula, int)>
    decreases s.len() - i, 0int,
{
    let start = skip_spaces(s, i);
    let atom = if 0 <= i <= start < s.len() && s[start] == '(' {
        match expression_at(s, start + 1) {
            Some((inner, close)) => if 0 <= close < s.len() && s[close] == ')' {
                Some((inner, close + 1))
            } else {
                None
            },
            None => None,
        }
    } else if variable_at(s, start) is Some {
        variable_at(s, start)
    } else {
        number_at(s, start)
    };
    match atom {
        Some((formula, end)) => Some((formula, skip_spaces(s, end))),
        None => None,
    }
}

/// What follows a term that has been read as `left` up to position `i`:
/// each `*` with the factor after it, as long as there is one.
pub open spec fn term_rest(s: Seq<char>, i: int, left: Formula) -> Option<(Formula, int)>
    decreases s.len() - i, 1int,
{
    if 0 <= i < s.len() && s[i] == '*' {
        match factor_at(s, i + 1) {
            Some((right, next)) => if advanced(i, next, s.len()) {
                term_rest(s, next, times(left, right))
            } else {
                None
            },
            None => None,
        }
    } else {
        Some((left, i))
    }
}

/// The term that starts at position `i` and the position after it.
pub open spec fn term_at(s: Seq<char>, i: int) -> Option<(Formula, int)>
    decreases s.len() - i, 2int,
{
    match factor_at(s, i) {
        Some((first, next)) => if advanced(i, next, s.len()) {
            term_rest(s, next, first)
        } else {
            None
        },
        None => None,
    }
}

/// What follows an expression that has been read as `left` up to position
/// `i`: each `+` or `-` with the term after it, as long as there is one.
pub open spec fn expression_rest(s: Seq<char>, i: int, left: Formula) -> Option<(Formula, int)>
    decreases s.len() - i, 3int,
{
    if 0 <= i < s.len() && (s[i] == '+' || s[i] == '-') {
        match term_at(s, i + 1) {
            Some((right, next)) => if advanced(i, next, s.len()) {
                expression_rest(
                    s,
                    next,
                    if s[i] == '+' {
                        plus(left, right)
                    } else {
                        minus(left, right)
                    },
                )
            } else {
                None
            },
            None => None,
        }
    } else {
        Some((left, i))
    }
}

/// The expression that starts at position `i` and the position after it.
pub open spec fn expression_at(s: Seq<char>, i: int) -> Option<(Formula, int)>
    decreases s.len() - i, 4int,
{
    match term_at(s, i) {
        Some((first, next)) => if advanced(i, next, s.len()) {
            expression_rest(s, next, first)
        } else {
            None
        },
        None => None,
    }
}

/// The formula that the whole of `s` denotes; `None` where `s` is no
/// expression, or an expression with anything left after it.
pub open spec fn parse(s: Seq<char>) -> Option<Formula> {
    match expression_at(s, 0) {
        Some((formula, end)) => if end == s.len() {
            Some(formula)
        } else {
            None
        },
        None => None,
    }
}

/// Skipping white space goes forward and stays inside the text.
pub proof fn lemma_skip_spaces_bounds(s: Seq<char>, i: int)
    requires
        0 <= i <= s.len(),
    ensures
        i <= skip_spaces(s, i) <= s.len(),
    decreases s.len() - i,
{
    if i < s.len() && is_space(s[i]) {
        lemma_skip_spaces_bounds(s, i + 1);
    }
}

/// Skipping digits goes forward and stays inside the text.
pub proof fn lemma_skip_digits_bounds(s: Seq<char>, i: int)
    requires
        0 <= i <= s.len(),
    ensures
        i <= skip_digits(s, i) <= s.len(),
    decreases s.len() - i,
{
    if i < s.len() && is_digit(s[i]) {
        lemma_skip_digits_bounds(s, i + 1);
    }
}

/// A factor consumes input and ends inside the text.
pub proof fn lemma_factor_advances(s: Seq<char>, i: int)
    requires
        0 <= i <= s.len(),
    ensures
        factor_at(s, i) matches Some((_, next)) ==> advanced(i, next, s.len()),
    decreases s.len() - i, 0int,
{
    let start = skip_spaces(s, i);
    lemma_skip_spaces_bounds(s, i);
    if start < s.len() {
        if s[start] == '(' {
            lemma_expression_advances(s, start + 1);
            if let Some((_, close)) = expression_at(s, start + 1) {
                if close < s.len() {
                    lemma_skip_spaces_bounds(s, close + 1);
                }
            }
        } else if variable_at(s, start) is Some {
            lemma_skip_spaces_bounds(s, start + 1);
        } else if number_at(s, start) is Some {
            lemma_skip_digits_bounds(s, start + 1);
            lemma_skip_spaces_bounds(s, skip_digits(s, start));
        }
    }
}

/// What follows a term ends at or after the position where it starts, inside
/// the text.
pub proof fn lemma_term_rest_advances(s: Seq<char>, i: int, left: Formula)
    requires
        0 <= i <= s.len(),
    ensures
        term_rest(s, i, left) matches Some((_, next)) ==> i <= next <= s.len(),
    decreases s.len() - i, 1int,
{
    if i < s.len() && s[i] == '*' {
        lemma_factor_advances(s, i + 1);
        if let Some((right, next)) = factor_at(s, i + 1) {
            lemma_term_rest_advances(s, next, times(left, right));
        }
    }
}

/// A term consumes input and ends inside the text.
pub proof fn lemma_term_advances(s: Seq<char>, i: int)
    requires
        0 <= i <= s.len(),
    ensures
        term_at(s, i) matches Some((_, next)) ==> advanced(i, next, s.len()),
    decreases s.len() - i, 2int,
{
    lemma_factor_advances(s, i);
    if let Some((first, next)) = factor_at(s, i) {
        lemma_term_rest_advances(s, next, first);
    }
}

/// What follows an expression ends at or after the position where it
/// starts, inside the text.
pub proof fn lemma_expression_rest_advances(s: Seq<char>, i: int, left: Formula)
    requires
        0 <= i <= s.len(),
    ensures
        expression_rest(s, i, left) matches Some((_, next)) ==> i <= next <= s.len(),
    decreases s.len() - i, 3int,
{
    if i < s.len() && (s[i] == '+' || s[i] == '-') {
        lemma_term_advances(s, i + 1);
        if let Some((right, next)) = term_at(s, i + 1) {
            lemma_expression_rest_advances(
                s,
                next,
                if s[i] == '+' {
                    plus(left, right)
                } else {
                    minus(left, right)
                },
            );
        }
    }
}

/// An expression consumes input and ends inside the text.
pub proof fn lemma_expression_advances(s: Seq<char>, i: int)
    requires
        0 <= i <= s.len(),
    ensures
        expression_at(s, i) matches Some((_, next)) ==> advanced(i, next, s.len()),
    decreases s.len() - i, 4int,
{
    lemma_term_advances(s, i);
    if let Some((first, next)) = term_at(s, i) {
        lemma_expression_rest_advances(s, next, first);
    }
}

/// A term is a factor and what follows it: the test of progress in the
/// definition never fails.
pub proof fn lemma_term_at_unfolds(s: Seq<char>, i: int)
    requires
        0 <= i <= s.len(),
    ensures
        term_at(s, i) == match factor_at(s, i) {
            Some((first, next)) => term_rest(s, next, first),
            None => None,
        },
{
    lemma_factor_advances(s, i);
}

/// After a `*` comes a factor and what follows it: the test of progress in
/// the definition never fails.
pub proof fn lemma_term_rest_unfolds(s: Seq<char>, i: int, left: Formula)
    requires
        0 <= i < s.len(),
        s[i] == '*',
    ensures
        term_rest(s, i, left) == match factor_at(s, i + 1) {
            Some((right, next)) => term_rest(s, next, times(left, right)),
            None => None,
        },
{
    lemma_factor_advances(s, i + 1);
}

/// An expression is a term and what follows it: the test of progress in the
/// definition never fails.
pub proof fn lemma_expression_at_unfolds(s: Seq<char>, i: int)
    requires
        0 <= i <= s.len(),
    ensures
        expression_at(s, i) == match term_at(s, i) {
            Some((first, next)) => expression_rest(s, next, first),
            None => None,
        },
{
    lemma_term_advances(s, i);
}

/// After a `+` or a `-` comes a term and what follows it: the test of
/// progress in the definition never fails.
pub proof fn lemma_expression_rest_unfolds(s: Seq<char>, i: int, left: Formula)
    requires
        0 <= i < s.len(),
        s[i] == '+' || s[i] == '-',
    ensures
        expression_rest(s, i, left) == match term_at(s, i + 1) {
            Some((right, next)) => expression_rest(
                s,
                next,
                if s[i] == '+' {
                    plus(left, right)
                } else {
                    minus(left, right)
                },
            ),
            None => None,
        },
{
    lemma_term_advances(s, i + 1);
}

/// What skipping white space passes over is blank, and it stops at the end
/// of the text or before a character that is no white space.
pub proof fn lemma_skip_spaces_blank(s: Seq<char>, i: int)
    requires
        0 <= i <= s.len(),
    ensures
        is_blank(s, i, skip_spaces(s, i)),
        skip_spaces(s, i) == s.len() || !is_space(s[skip_spaces(s, i)]),
    decreases s.len() - i,
{
    if i < s.len() && is_space(s[i]) {
        lemma_skip_spaces_blank(s, i + 1);
    }
}

/// What skipping digits passes over are digits, and it stops at the end of
/// the text or before a character that is no digit.
pub proof fn lemma_skip_digits_numeral(s: Seq<char>, i: int)
    requires
        0 <= i <= s.len(),
    ensures
        i <= skip_digits(s, i) <= s.len(),
        forall|j: int| i <= j < skip_digits(s, i) ==> is_digit(#[trigger] s[j]),
        skip_digits(s, i) == s.len() || !is_digit(s[skip_digits(s, i)]),
    decreases s.len() - i,
{
    if i < s.len() && is_digit(s[i]) {
        lemma_skip_digits_numeral(s, i + 1);
    }
}

/// What is read as a factor is a factor of the grammar.
pub proof fn lemma_factor_sound(s: Seq<char>, i: int)
    requires
        0 <= i <= s.len(),
    ensures
        factor_at(s, i) matches Some((f, next)) ==> is_factor(s, i, next, f),
    decreases s.len() - i, 0int,
{
    let start = skip_spaces(s, i);
    lemma_skip_spaces_blank(s, i);
    if let Some((f, next)) = factor_at(s, i) {
        if s[start] == '(' {
            lemma_expression_sound(s, start + 1);
            lemma_expression_advances(s, start + 1);
            if let Some((inner, close)) = expression_at(s, start + 1) {
                lemma_skip_spaces_blank(s, close + 1);
                assert(is_padded(s, i, start, close + 1, next));
            }
        } else if variable_at(s, start) is Some {
            lemma_skip_spaces_blank(s, start + 1);
            assert(is_padded(s, i, start, start + 1, next));
        } else {
            let end = skip_digits(s, start);
            lemma_skip_digits_numeral(s, start);
            lemma_skip_digits_bounds(s, start + 1);
            lemma_skip_spaces_blank(s, end);
            assert(is_padded(s, i, start, end, next));
        }
    }
}

/// What is read after a term makes a term of the grammar with it.
pub proof fn lemma_term_rest_sound(s: Seq<char>, a: int, i: int, left: Formula)
    requires
        0 <= a < i <= s.len(),
        is_term(s, a, i, left),
    ensures
        term_rest(s, i, left) matches Some((f, next)) ==> is_term(s, a, next, f),
    decreases s.len() - i, 1int,
{
    if i < s.len() && s[i] == '*' {
        lemma_factor_sound(s, i + 1);
        lemma_factor_advances(s, i + 1);
        if let Some((right, next)) = factor_at(s, i + 1) {
            let product = times(left, right);
            assert(product.operands()[0] == left && product.operands()[1] == right);
            assert(holds(s, i, '*'));
            assert(is_term(s, a, next, product));
            lemma_term_rest_sound(s, a, next, product);
        }
    }
}

/// What is read as a term is a term of the grammar.
pub proof fn lemma_term_sound(s: Seq<char>, i: int)
    requires
        0 <= i <= s.len(),
    ensures
        term_at(s, i) matches Some((f, next)) ==> is_term(s, i, next, f),
    decreases s.len() - i, 2int,
{
    lemma_factor_sound(s, i);
    lemma_factor_advances(s, i);
    if let Some((first, next)) = factor_at(s, i) {
        lemma_term_rest_sound(s, i, next, first);
    }
}

/// What is read after an expression makes an expression of the grammar with
/// it.
pub proof fn lemma_expression_rest_sound(s: Seq<char>, a: int, i: int, left: Formula)
    requires
        0 <= a < i <= s.len(),
        is_expression(s, a, i, left),
    ensures
        expression_rest(s, i, left) matches Some((f, next)) ==> is_expression(s, a, next, f),
    decreases s.len() - i, 3int,
{
    if i < s.len() && (s[i] == '+' || s[i] == '-') {
        lemma_term_sound(s, i + 1);
        lemma_term_advances(s, i + 1);
        if let Some((right, next)) = term_at(s, i + 1) {
            if s[i] == '+' {
                let sum = plus(left, right);
                assert(sum.operands()[0] == left && sum.operands()[1] == right);
                assert(holds(s, i, '+'));
                assert(is_expression(s, a, next, sum));
                lemma_expression_rest_sound(s, a, next, sum);
            } else {
                let difference = minus(left, right);
                let negated = times(Formula::Number(-1), right);
                let added = plus(Formula::Number(0), negated);
                assert(negated.operands()[1] == right);
                assert(added.operands()[1] == negated);
                assert(difference.operands()[0] == left && difference.operands()[1] == added);
                assert(subtrahend(difference) == right);
                assert(holds(s, i, '-'));
                assert(is_expression(s, a, next, difference));
                lemma_expression_rest_sound(s, a, next, difference);
            }
        }
    }
}

/// What is read as an expression is an expression of the grammar.
pub proof fn lemma_expression_sound(s: Seq<char>, i: int)
    requires
        0 <= i <= s.len(),
    ensures
        expression_at(s, i) matches Some((f, next)) ==> is_expression(s, i, next, f),
    decreases s.len() - i, 4int,
{
    lemma_term_sound(s, i);
    lemma_term_advances(s, i);
    if let Some((first, next)) = term_at(s, i) {
        lemma_expression_rest_sound(s, i, next, first);
    }
}

/// Whether a factor can end at position `b`: at the end of the text, or
/// before an operator or a closing parenthesis.
pub open spec fn ends_factor(s: Seq<char>, b: int) -> bool {
    b == s.len() || holds(s, b, '*') || holds(s, b, '+') || holds(s, b, '-') || holds(s, b, ')')
}

/// Whether a term can end at position `b`: at the end of the text, or before
/// `+`, `-` or a closing parenthesis.
pub open spec fn ends_term(s: Seq<char>, b: int) -> bool {
    b == s.len() || holds(s, b, '+') || holds(s, b, '-') || holds(s, b, ')')
}

/// Whether an expression can end at position `b`: at the end of the text,
/// or before a closing parenthesis.
pub open spec fn ends_expression(s: Seq<char>, b: int) -> bool {
    b == s.len() || holds(s, b, ')')
}

/// Skipping white space from the start of a blank stretch stops at its end,
/// where no white space follows it.
pub proof fn lemma_skip_spaces_over_blank(s: Seq<char>, a: int, c: int)
    requires
        is_blank(s, a, c),
        c == s.len() || !is_space(s[c]),
    ensures
        skip_spaces(s, a) == c,
    decreases c - a,
{
    if a < c {
        assert(is_space(s[a]));
        lemma_skip_spaces_over_blank(s, a + 1, c);
    }
}

/// Skipping digits from the start of a number stops at its end, where no
/// digit follows it.
pub proof fn lemma_skip_digits_over_numeral(s: Seq<char>, c: int, d: int)
    requires
        0 <= c <= d <= s.len(),
        forall|j: int| c <= j < d ==> is_digit(#[trigger] s[j]),
        d == s.len() || !is_digit(s[d]),
    ensures
        skip_digits(s, c) == d,
    decreases d - c,
{
    if c < d {
        assert(is_digit(s[c]));
        lemma_skip_digits_over_numeral(s, c + 1, d);
    }
}

/// A factor of the grammar is not empty and lies inside the text.
pub proof fn lemma_factor_bounds(s: Seq<char>, a: int, b: int, f: Formula)
    requires
        is_factor(s, a, b, f),
    ensures
        0 <= a < b <= s.len(),
{
}

/// A term of the grammar is not empty and lies inside the text.
pub proof fn lemma_term_bounds(s: Seq<char>, a: int, b: int, f: Formula)
    requires
        is_term(s, a, b, f),
    ensures
        0 <= a < b <= s.len(),
    decreases b - a,
{
    if !is_factor(s, a, b, f) {
        let k = choose|k: int|
            a < k < b && #[trigger] holds(s, k, '*') && is_times(f) && is_term(
                s,
                a,
                k,
                f.operands()[0],
            ) && is_factor(s, k + 1, b, f.operands()[1]);
        lemma_term_bounds(s, a, k, f.operands()[0]);
    }
}

/// An expression of the grammar is not empty and lies inside the text.
pub proof fn lemma_expression_bounds(s: Seq<char>, a: int, b: int, f: Formula)
    requires
        is_expression(s, a, b, f),
    ensures
        0 <= a < b <= s.len(),
    decreases b - a,
{
    if is_term(s, a, b, f) {
        lemma_term_bounds(s, a, b, f);
    } else if exists|k: int|
        a < k < b && #[trigger] holds(s, k, '+') && is_plus(f) && is_expression(
            s,
            a,
            k,
            f.operands()[0],
        ) && is_term(s, k + 1, b, f.operands()[1]) {
        let k = choose|k: int|
            a < k < b && #[trigger] holds(s, k, '+') && is_plus(f) && is_expression(
                s,
                a,
                k,
                f.operands()[0],
            ) && is_term(s, k + 1, b, f.operands()[1]);
        lemma_expression_bounds(s, a, k, f.operands()[0]);
        lemma_term_bounds(s, k + 1, b, f.operands()[1]);
    } else {
        let k = choose|k: int|
            a < k < b && #[trigger] holds(s, k, '-') && is_minus(f, subtrahend(f))
                && is_expression(s, a, k, f.operands()[0]) && is_term(s, k + 1, b, subtrahend(f));
        lemma_expression_bounds(s, a, k, f.operands()[0]);
        lemma_term_bounds(s, k + 1, b, subtrahend(f));
    }
}

/// A factor of the grammar that ends where a factor can end is read as what
/// it is.
pub proof fn lemma_factor_complete(s: Seq<char>, a: int, b: int, f: Formula)
    requires
        is_factor(s, a, b, f),
        ends_factor(s, b),
    ensures
        factor_at(s, a) == Some((f, b)),
    decreases b - a, 0int,
{
    let (c, d) = choose|c: int, d: int| #[trigger]
        is_padded(s, a, c, d, b) && {
            ||| c + 2 <= d <= b && a <= c && holds(s, c, '(') && holds(s, d - 1, ')')
                && is_expression(s, c + 1, d - 1, f)
            ||| d == c + 1 && is_variable(s[c]) && f == Formula::Symbol(seq![s[c]])
            ||| is_numeral(s, c, d) && f == Formula::Number(numeral_value(s.subrange(c, d)))
        };
    assert(!is_space(s[c])) by {
        if is_numeral(s, c, d) {
            assert(is_digit(s[c]));
        }
    }
    lemma_skip_spaces_over_blank(s, a, c);
    lemma_skip_spaces_over_blank(s, d, b);
    if s[c] == '(' {
        assert(!is_digit(s[c]));
        lemma_expression_complete(s, c + 1, d - 1, f);
    } else if is_variable(s[c]) {
        assert(!is_digit(s[c]));
    } else {
        assert(is_digit(s[c]));
        assert(d == s.len() || !is_digit(s[d])) by {
            if d < b {
                assert(is_space(s[d]));
            }
        }
        lemma_skip_digits_over_numeral(s, c, d);
    }
}

/// Reading a term from the start of a term of the grammar is reading on
/// from its end with what it denotes.
pub proof fn lemma_term_continues(s: Seq<char>, a: int, k: int, left: Formula)
    requires
        is_term(s, a, k, left),
        ends_factor(s, k),
    ensures
        term_at(s, a) == term_rest(s, k, left),
    decreases k - a, 1int,
{
    lemma_term_bounds(s, a, k, left);
    if is_factor(s, a, k, left) {
        lemma_factor_complete(s, a, k, left);
    } else {
        let m = choose|m: int|
            a < m < k && #[trigger] holds(s, m, '*') && is_times(left) && is_term(
                s,
                a,
                m,
                left.operands()[0],
            ) && is_factor(s, m + 1, k, left.operands()[1]);
        lemma_term_continues(s, a, m, left.operands()[0]);
        lemma_factor_complete(s, m + 1, k, left.operands()[1]);
        assert(left.operands() =~= seq![left.operands()[0], left.operands()[1]]);
        assert(left == times(left.operands()[0], left.operands()[1]));
    }
}

/// A term of the grammar that ends where a term can end is read as what it
/// is.
pub proof fn lemma_term_complete(s: Seq<char>, a: int, b: int, f: Formula)
    requires
        is_term(s, a, b, f),
        ends_term(s, b),
    ensures
        term_at(s, a) == Some((f, b)),
    decreases b - a, 2int,
{
    lemma_term_continues(s, a, b, f);
}

/// Reading an expression from the start of an expression of the grammar is
/// reading on from its end with what it denotes.
pub proof fn lemma_expression_continues(s: Seq<char>, a: int, k: int, left: Formula)
    requires
        is_expression(s, a, k, left),
        ends_term(s, k),
    ensures
        expression_at(s, a) == expression_rest(s, k, left),
    decreases k - a, 3int,
{
    lemma_expression_bounds(s, a, k, left);
    if is_term(s, a, k, left) {
        lemma_term_complete(s, a, k, left);
    } else if exists|m: int|
        a < m < k && #[trigger] holds(s, m, '+') && is_plus(left) && is_expression(
            s,
            a,
            m,
            left.operands()[0],
        ) && is_term(s, m + 1, k, left.operands()[1]) {
        let m = choose|m: int|
            a < m < k && #[trigger] holds(s, m, '+') && is_plus(left) && is_expression(
                s,
                a,
                m,
                left.operands()[0],
            ) && is_term(s, m + 1, k, left.operands()[1]);
        lemma_expression_continues(s, a, m, left.operands()[0]);
        lemma_term_complete(s, m + 1, k, left.operands()[1]);
        assert(left.operands() =~= seq![left.operands()[0], left.operands()[1]]);
        assert(left == plus(left.operands()[0], left.operands()[1]));
    } else {
        let m = choose|m: int|
            a < m < k && #[trigger] holds(s, m, '-') && is_minus(left, subtrahend(left))
                && is_expression(s, a, m, left.operands()[0]) && is_term(
                s,
                m + 1,
                k,
                subtrahend(left),
            );
        lemma_expression_continues(s, a, m, left.operands()[0]);
        lemma_term_complete(s, m + 1, k, subtrahend(left));
    }
}

/// An expression of the grammar that ends where an expression can end is
/// read as what it is.
pub proof fn lemma_expression_complete(s: Seq<char>, a: int, b: int, f: Formula)
    requires
        is_expression(s, a, b, f),
        ends_expression(s, b),
    ensures
        expression_at(s, a) == Some((f, b)),
    decreases b - a, 4int,
{
    lemma_expression_continues(s, a, b, f);
}

/// Reading is the grammar: a text is read as a formula exactly if it is a
/// sentence of the grammar that denotes the formula.
pub proof fn parse_is_the_grammar(s: Seq<char>, f: Formula)
    ensures
        parse(s) == Some(f) <==> is_sentence(s, f),
{
    if parse(s) == Some(f) {
        lemma_expression_sound(s, 0);
    }
    if is_sentence(s, f) {
        lemma_expression_complete(s, 0, s.len() as int, f);
    }
}

/// The grammar is unambiguous: a sentence denotes one formula only.
pub proof fn grammar_is_unambiguous(s: Seq<char>, f: Formula, g: Formula)
    requires
        is_sentence(s, f),
        is_sentence(s, g),
    ensures
        f == g,
{
    parse_is_the_grammar(s, f);
    parse_is_the_grammar(s, g);
}

} // verus!
