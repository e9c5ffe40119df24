//! A recursive-descent reader for the grammar of expressions.

use vstd::prelude::*;
use crate::formula::Formula;
use crate::constant::Constant;
use crate::variable::Variable;
use crate::add::Add;
use crate::multiply::Multiply;
use crate::expression::{Expression, views};
use vstd::std_specs::iter::IteratorSpec;
use crate::error::ParseError;
use crate::grammar::{
    digit_value, numeral_value, times, plus, minus, is_sentence, lemma_operators_representable,
};
use crate::descent::{
    skip_digits, variable_at, number_at, factor_at, term_rest, term_at, expression_rest,
    expression_at, parse, formula_of, lemma_skip_digits_bounds, lemma_factor_advances,
    lemma_term_advances, lemma_expression_advances, parse_is_the_grammar,
};

verus! {

/// What a parser has read: the expression, the position after it, and
/// whether every number in it could be held in 64 bits. Where one could
/// not, the expression stands for nothing.
pub struct Parsed {
    pub expression: Expression,
    pub next: usize,
    pub exact: bool,
}

/// Whether `found` is what the grammar reads: nothing where the grammar
/// reads nothing; else the same end, exact where the formula read is
/// representable, and then an expression of that formula.
pub open spec fn agrees(found: Option<Parsed>, read: Option<(Formula, int)>) -> bool {
    match read {
        Some((formula, next)) => {
            &&& found matches Some(p)
            &&& p.next == next
            &&& p.exact == formula.representable()
            &&& p.exact ==> p.expression@ == formula
        },
        None => found is None,
    }
}

/// The first position from `start` on that holds no white space; `start`
/// itself where it lies at or after the end of the text.
pub fn skip_spaces(input: &[char], start: usize) -> (next: usize)
    ensures
        next == crate::descent::skip_spaces(input@, start as int),
        start <= next,
        start <= input@.len() ==> next <= input@.len(),
{
    let mut i: usize = start;
    while i < input.len() && (input[i] == ' ' || input[i] == '\t' || input[i] == '\n' || input[i]
        == '\r')
        invariant
            start <= i,
            start <= input@.len() ==> i <= input@.len(),
            crate::descent::skip_spaces(input@, i as int) == crate::descent::skip_spaces(
                input@,
                start as int,
            ),
        decreases input@.len() - i,
    {
        i += 1;
    }
    i
}

/// Reads the variable at position `start`.
pub fn parse_variable(input: &[char], start: usize) -> (found: Option<Parsed>)
    ensures
        agrees(found, variable_at(input@, start as int)),
{
    if start >= input.len() {
        return None;
    }
    proof {
        reveal_strlit("x");
        reveal_strlit("y");
        reveal_strlit("z");
    }
    let name = if input[start] == 'x' {
        "x"
    } else if input[start] == 'y' {
        "y"
    } else if input[start] == 'z' {
        "z"
    } else {
        return None;
    };
    assert(name@ =~= seq![input@[start as int]]);
    Some(
        Parsed {
            expression: Expression::Variable(Variable::new(name)),
            next: start + 1,
            exact: true,
        },
    )
}

/// Reads the number whose digits start at position `start`.
pub fn parse_number(input: &[char], start: usize) -> (found: Option<Parsed>)
    ensures
        agrees(found, number_at(input@, start as int)),
{
    if start >= input.len() || !(input[start] >= '0' && input[start] <= '9') {
        return None;
    }
    let ghost s = input@;
    let mut value: i64 = 0;
    let mut exact = true;
    let mut i: usize = start;
    while i < input.len() && input[i] >= '0' && input[i] <= '9'
        invariant
            s == input@,
            start <= i <= s.len(),
            skip_digits(s, i as int) == skip_digits(s, start as int),
            0 <= value,
            exact ==> value == numeral_value(s.subrange(start as int, i as int)),
            !exact ==> numeral_value(s.subrange(start as int, i as int)) > i64::MAX,
        decreases s.len() - i,
    {
        let digit: u32 = input[i] as u32 - '0' as u32;
        proof {
            assert(s.subrange(start as int, i + 1).drop_last() =~= s.subrange(
                start as int,
                i as int,
            ));
            assert(digit == digit_value(s[i as int]));
        }
        if exact {
            let wide: i128 = value as i128 * 10 + digit as i128;
            if wide > i64::MAX as i128 {
                exact = false;
            } else {
                value = wide as i64;
            }
        }
        i += 1;
    }
    Some(Parsed { expression: Expression::Constant(Constant::new(value)), next: i, exact })
}

/// The product that `left * right` denotes.
fn times_of(left: Expression, right: Expression) -> (product: Expression)
    ensures
        product@ == times(left@, right@),
{
    let ops = vec![left, right];
    assert(views(ops@) =~= seq![left@, right@]);
    Expression::Multiply(Multiply::new(ops))
}

/// The sum that `left + right` denotes.
fn plus_of(left: Expression, right: Expression) -> (sum: Expression)
    ensures
        sum@ == plus(left@, right@),
{
    let ops = vec![left, right];
    assert(views(ops@) =~= seq![left@, right@]);
    Expression::Add(Add::new(ops))
}

/// The sum that `left - right` denotes: `left` plus the sum of zero and
/// `-1 * right`.
fn minus_of(left: Expression, right: Expression) -> (difference: Expression)
    ensures
        difference@ == minus(left@, right@),
{
    let negated = times_of(Expression::Constant(Constant::new(-1)), right);
    plus_of(left, plus_of(Expression::Constant(Constant::new(0)), negated))
}

/// Reads the factor that starts at position `start`: a parenthesised
/// expression, a variable or a number, with the white space around it.
pub fn parse_factor(input: &[char], start: usize) -> (found: Option<Parsed>)
    ensures
        agrees(found, factor_at(input@, start as int)),
    decreases input@.len() - start, 0int,
{
    if start > input.len() {
        return None;
    }
    let begin = skip_spaces(input, start);
    let atom = if begin < input.len() && input[begin] == '(' {
        proof {
            lemma_expression_advances(input@, begin + 1);
        }
        match parse_sum(input, begin + 1) {
            Some(inner) => {
                if inner.next < input.len() && input[inner.next] == ')' {
                    Some(
                        Parsed {
                            expression: inner.expression,
                            next: inner.next + 1,
                            exact: inner.exact,
                        },
                    )
                } else {
                    None
                }
            },
            None => None,
        }
    } else {
        proof {
            if begin < input@.len() {
                lemma_skip_digits_bounds(input@, begin + 1);
            }
        }
        match parse_variable(input, begin) {
            Some(variable) => Some(variable),
            None => parse_number(input, begin),
        }
    };
    match atom {
        Some(p) => Some(
            Parsed {
                expression: p.expression,
                next: skip_spaces(input, p.next),
                exact: p.exact,
            },
        ),
        None => None,
    }
}

/// Reads the term that starts at position `start`: a factor and each `*`
/// with the factor after it, multiplied from left to right.
pub fn parse_term(input: &[char], start: usize) -> (found: Option<Parsed>)
    ensures
        agrees(found, term_at(input@, start as int)),
    decreases input@.len() - start, 2int,
{
    let ghost s = input@;
    let first = match parse_factor(input, start) {
        Some(p) => p,
        None => {
            return None;
        },
    };
    proof {
        lemma_factor_advances(s, start as int);
    }
    let ghost mut left = formula_of(factor_at(s, start as int));
    let mut product = first.expression;
    let mut exact = first.exact;
    let mut i = first.next;
    while i < input.len() && input[i] == '*'
        invariant
            s == input@,
            start < i <= s.len(),
            exact == left.representable(),
            exact ==> product@ == left,
            term_rest(s, i as int, left) == term_at(s, start as int),
        decreases s.len() - i,
    {
        let right = match parse_factor(input, i + 1) {
            Some(p) => p,
            None => {
                return None;
            },
        };
        proof {
            lemma_factor_advances(s, i + 1);
            lemma_operators_representable(left, formula_of(factor_at(s, i + 1)));
            left = times(left, formula_of(factor_at(s, i + 1)));
        }
        product = times_of(product, right.expression);
        exact = exact && right.exact;
        i = right.next;
    }
    Some(Parsed { expression: product, next: i, exact })
}

/// Reads the expression that starts at position `start`: a term and each
/// `+` or `-` with the term after it, added from left to right.
pub fn parse_sum(input: &[char], start: usize) -> (found: Option<Parsed>)
    ensures
        agrees(found, expression_at(input@, start as int)),
    decreases input@.len() - start, 4int,
{
    let ghost s = input@;
    let first = match parse_term(input, start) {
        Some(p) => p,
        None => {
            return None;
        },
    };
    proof {
        lemma_term_advances(s, start as int);
    }
    let ghost mut left = formula_of(term_at(s, start as int));
    let mut sum = first.expression;
    let mut exact = first.exact;
    let mut i = first.next;
    while i < input.len() && (input[i] == '+' || input[i] == '-')
        invariant
            s == input@,
            start < i <= s.len(),
            exact == left.representable(),
            exact ==> sum@ == left,
            expression_rest(s, i as int, left) == expression_at(s, start as int),
        decreases s.len() - i,
    {
        let right = match parse_term(input, i + 1) {
            Some(p) => p,
            None => {
                return None;
            },
        };
        proof {
            lemma_term_advances(s, i + 1);
            lemma_operators_representable(left, formula_of(term_at(s, i + 1)));
        }
        if input[i] == '+' {
            sum = plus_of(sum, right.expression);
            proof {
                left = plus(left, formula_of(term_at(s, i + 1)));
            }
        } else {
            sum = minus_of(sum, right.expression);
            proof {
                left = minus(left, formula_of(term_at(s, i + 1)));
            }
        }
        exact = exact && right.exact;
        i = right.next;
    }
    Some(Parsed { expression: sum, next: i, exact })
}

/// The characters of `text`, in order.
fn chars_of(text: &str) -> (chars: Vec<char>)
    ensures
        chars@ == text@,
{
    let mut chars: Vec<char> = Vec::new();
    let mut rest = text.chars();
    loop
        invariant
            chars@ + rest.remaining() == text@,
            rest.decrease() is Some,
        ensures
            chars@ == text@,
        decreases rest.decrease()->0,
    {
        let ghost before = chars@;
        let ghost remaining = rest.remaining();
        match rest.next() {
            Some(c) => {
                chars.push(c);
                assert(chars@ + rest.remaining() =~= before + remaining);
            },
            None => {
                assert(chars@ + remaining =~= chars@);
                break ;
            },
        }
    }
    chars
}

/// Reads the whole of `input` as an expression.
///
/// Succeeds, with nothing left of the input, exactly if `input` is a
/// sentence of the grammar and each of its numbers fits in 64 bits; the
/// expression is then the one formula that the sentence denotes. A sentence
/// with a number that does not fit is `NumberTooLarge`, and a text that is
/// no sentence is a `SyntaxError`.
pub fn parse_expression<'a>(input: &'a str) -> (result: Result<(&'a str, Expression), ParseError>)
    ensures
        match result {
            Ok((rest, expression)) => rest@.len() == 0 && is_sentence(input@, expression@),
            Err(ParseError::NumberTooLarge) => exists|f: Formula| #[trigger]
                is_sentence(input@, f) && !f.representable(),
            Err(ParseError::SyntaxError) => forall|f: Formula| !#[trigger] is_sentence(input@, f),
        },
        match parse(input@) {
            Some(formula) => if formula.representable() {
                result matches Ok((_, expression)) && expression@ == formula
            } else {
                result matches Err(ParseError::NumberTooLarge)
            },
            None => result matches Err(ParseError::SyntaxError),
        },
{
    let chars = chars_of(input);
    let found = parse_sum(chars.as_slice(), 0);
    proof {
        match parse(input@) {
            Some(formula) => {
                parse_is_the_grammar(input@, formula);
            },
            None => {
                assert forall|f: Formula| !#[trigger] is_sentence(input@, f) by {
                    parse_is_the_grammar(input@, f);
                }
            },
        }
    }
    match found {
        Some(p) => {
            if p.next != chars.len() {
                Err(ParseError::SyntaxError)
            } else if !p.exact {
                Err(ParseError::NumberTooLarge)
            } else {
                proof {
                    reveal_strlit("");
                }
                Ok(("", p.expression))
            }
        },
        None => Err(ParseError::SyntaxError),
    }
}

} // verus!
