use vstd::prelude::*;
use vstd::string::StringExecFns;
use crate::formula::{Formula, rendered_operands, dumped_operands};
use crate::text::{join, concat, spaces, spaces_text, lemma_join_push, lemma_concat_push};
use crate::constant::Constant;
use crate::error::EvalError;
use crate::variable::Variable;
use crate::add::Add;
use crate::multiply::Multiply;

verus! {

/// An arithmetic expression tree.
#[derive(Debug)]
pub enum Expression {
    Constant(Constant),
    Variable(Variable),
    Add(Add),
    Multiply(Multiply),
}

/// The formulas of a list of expressions, in order.
pub open spec fn views(ops: Seq<Expression>) -> Seq<Formula>
    decreases ops,
{
    Seq::new(
        ops.len(),
        |i: int|
            if 0 <= i < ops.len() {
                ops[i].view()
            } else {
                Formula::Number(0)
            },
    )
}

impl View for Expression {
    type V = Formula;

    open spec fn view(&self) -> Formula
        decreases self,
    {
        match self {
            Expression::Constant(c) => Formula::Number(c.value as int),
            Expression::Variable(v) => Formula::Symbol(v.name@),
            Expression::Add(a) => Formula::Sum(views(a.ops@)),
            Expression::Multiply(m) => Formula::Product(views(m.ops@)),
        }
    }
}

/// A deep copy of every expression of `ops`, in order.
pub fn clone_all(ops: &Vec<Expression>) -> (copies: Vec<Expression>)
    ensures
        views(copies@) == views(ops@),
    decreases ops,
{
    let mut copies: Vec<Expression> = Vec::new();
    let mut i: usize = 0;
    while i < ops.len()
        invariant
            i <= ops.len(),
            copies.len() == i,
            forall|k: int| 0 <= k < i ==> copies[k]@ == ops[k]@,
        decreases ops.len() - i,
    {
        let copy = ops[i].clone();
        copies.push(copy);
        i += 1;
    }
    assert(views(copies@) =~= views(ops@));
    copies
}

impl Clone for Expression {
    fn clone(&self) -> (copy: Self)
        ensures
            copy@ == self@,
        decreases self,
    {
        match self {
            Expression::Constant(c) => Expression::Constant(Constant { value: c.value }),
            Expression::Variable(v) => Expression::Variable(Variable { name: v.name.clone() }),
            Expression::Add(a) => Expression::Add(Add { ops: clone_all(&a.ops) }),
            Expression::Multiply(m) => Expression::Multiply(Multiply { ops: clone_all(&m.ops) }),
        }
    }
}

impl Expression {
    /// The terminal value of this expression: a copy of a constant or a
    /// variable. Sums and products are not evaluated.
    pub fn eval(&self) -> (value: Result<Expression, EvalError>)
        ensures
            match self@.eval() {
                Some(formula) => value matches Ok(e) && e@ == formula,
                None => value matches Err(EvalError::NotImplemented),
            },
    {
        match self {
            Expression::Constant(c) => c.eval(),
            Expression::Variable(v) => v.eval(),
            Expression::Add(a) => a.eval(),
            Expression::Multiply(m) => m.eval(),
        }
    }

    /// The simplified form of this expression, or `None` where a constant
    /// that simplification folds does not fit in 64 bits.
    pub fn checked_simplify(&self) -> (simplified: Option<Expression>)
        ensures
            simplified is Some <==> self@.foldable(),
            simplified matches Some(e) ==> e@ == self@.simplify(),
        decreases self@, 1int,
    {
        match self {
            Expression::Constant(c) => Some(c.simplify()),
            Expression::Variable(v) => Some(v.simplify()),
            Expression::Add(a) => a.checked_simplify(),
            Expression::Multiply(m) => m.checked_simplify(),
        }
    }

    /// The simplified form of this expression.
    pub fn simplify(&self) -> (simplified: Expression)
        requires
            self@.foldable(),
        ensures
            simplified@ == self@.simplify(),
    {
        self.checked_simplify().unwrap()
    }
}

/// The infix texts of `ops` joined by `separator`, each in parentheses
/// where it is a sum or a product.
pub fn typist_joined(ops: &Vec<Expression>, separator: &str) -> (text: String)
    ensures
        text@ == join(rendered_operands(views(ops@)), separator@),
    decreases ops,
{
    let ghost parts = rendered_operands(views(ops@));
    let mut text = String::new();
    let mut i: usize = 0;
    while i < ops.len()
        invariant
            i <= ops.len(),
            parts == rendered_operands(views(ops@)),
            text@ == join(parts.take(i as int), separator@),
        decreases ops.len() - i,
    {
        proof {
            reveal_strlit("(");
            reveal_strlit(")");
            assert(parts.take(i + 1) =~= parts.take(i as int).push(parts[i as int]));
            lemma_join_push(parts.take(i as int), separator@, parts[i as int]);
            assert(views(ops@)[i as int] == ops[i as int]@);
        }
        let ghost before = text@;
        if i > 0 {
            text.append(separator);
        }
        let part = ops[i].to_typist();
        match &ops[i] {
            Expression::Add(_) => {
                text.append("(");
                text.append(part.as_str());
                text.append(")");
            },
            Expression::Multiply(_) => {
                text.append("(");
                text.append(part.as_str());
                text.append(")");
            },
            _ => {
                text.append(part.as_str());
            },
        }
        assert(text@ =~= if i == 0 {
            parts[i as int]
        } else {
            before + separator@ + parts[i as int]
        });
        i += 1;
    }
    assert(parts.take(ops.len() as int) =~= parts);
    text
}

/// Appends the indented tree of each expression of `ops` to `out`, each
/// line after `margin`.
pub(crate) fn debug_all_into(ops: &Vec<Expression>, margin: &str, out: &mut String)
    requires
        margin@ == spaces(margin@.len()),
    ensures
        final(out)@ == old(out)@ + concat(dumped_operands(views(ops@), margin@.len())),
    decreases ops,
{
    let ghost parts = dumped_operands(views(ops@), margin@.len());
    let mut i: usize = 0;
    while i < ops.len()
        invariant
            i <= ops.len(),
            margin@ == spaces(margin@.len()),
            parts == dumped_operands(views(ops@), margin@.len()),
            out@ == old(out)@ + concat(parts.take(i as int)),
        decreases ops.len() - i,
    {
        proof {
            assert(parts.take(i + 1) =~= parts.take(i as int).push(parts[i as int]));
            lemma_concat_push(parts.take(i as int), parts[i as int]);
            assert(views(ops@)[i as int] == ops[i as int]@);
        }
        let ghost before = out@;
        ops[i].debug_into(margin, out);
        assert(out@ =~= old(out)@ + (concat(parts.take(i as int)) + parts[i as int]));
        i += 1;
    }
    assert(parts.take(ops.len() as int) =~= parts);
}

/// The margin of the operands of a node whose own margin is `margin`: two
/// spaces more.
pub(crate) fn deeper_margin(margin: &str) -> (deeper: String)
    requires
        margin@ == spaces(margin@.len()),
    ensures
        deeper@ == spaces(margin@.len() + 2),
{
    proof {
        reveal_strlit("  ");
    }
    let mut deeper = String::from_str(margin);
    deeper.append("  ");
    assert(deeper@ =~= spaces(margin@.len() + 2));
    deeper
}

impl Expression {
    /// The expression as infix text.
    pub fn to_typist(&self) -> (text: String)
        ensures
            text@ == self@.render(),
        decreases self,
    {
        match self {
            Expression::Constant(c) => c.to_typist(),
            Expression::Variable(v) => v.to_typist(),
            Expression::Add(a) => a.to_typist(),
            Expression::Multiply(m) => m.to_typist(),
        }
    }

    /// The expression as an indented tree; its first line is indented by
    /// `indent` spaces.
    pub fn debug(&self, indent: usize) -> (text: String)
        ensures
            text@ == self@.dump(indent as nat),
    {
        let margin = spaces_text(indent);
        let mut text = String::new();
        self.debug_into(margin.as_str(), &mut text);
        assert(text@ =~= self@.dump(indent as nat));
        text
    }

    /// Appends the indented tree of the expression to `out`, each line after
    /// `margin`.
    pub(crate) fn debug_into(&self, margin: &str, out: &mut String)
        requires
            margin@ == spaces(margin@.len()),
        ensures
            final(out)@ == old(out)@ + self@.dump(margin@.len()),
        decreases self,
    {
        match self {
            Expression::Constant(c) => c.debug_into(margin, out),
            Expression::Variable(v) => v.debug_into(margin, out),
            Expression::Add(a) => a.debug_into(margin, out),
            Expression::Multiply(m) => m.debug_into(margin, out),
        }
    }
}

} // verus!
