use vstd::prelude::*;
use vstd::string::StringExecFns;
use crate::formula::Formula;
use crate::text::{spaces, spaces_text, decimal_text};
use crate::expression::Expression;
use crate::error::EvalError;

verus! {

/// A literal integer value.
#[derive(Clone, Copy, Debug)]
pub struct Constant {
    pub value: i64,
}

impl View for Constant {
    type V = Formula;

    open spec fn view(&self) -> Formula {
        Formula::Number(self.value as int)
    }
}

impl Constant {
    /// Makes the constant that holds `value`.
    pub fn new(value: i64) -> (c: Self)
        ensures
            c.value == value,
    {
        Self { value }
    }

    /// The terminal value of a constant: the constant itself.
    pub fn eval(&self) -> (value: Result<Expression, EvalError>)
        ensures
            value matches Ok(e) && e@ == self@,
            self@.eval() == Some(self@),
    {
        Ok(Expression::Constant(Constant { value: self.value }))
    }

    /// The simplified form of a constant: the constant itself.
    pub fn simplify(&self) -> (simplified: Expression)
        ensures
            simplified@ == self@,
            simplified@ == self@.simplify(),
    {
        Expression::Constant(Constant { value: self.value })
    }

    /// The constant as infix text: its decimal numeral.
    pub fn to_typist(&self) -> (text: String)
        ensures
            text@ == self@.render(),
    {
        decimal_text(self.value)
    }

    /// The constant as a one-line tree, indented by `indent` spaces.
    pub fn debug(&self, indent: usize) -> (text: String)
        ensures
            text@ == self@.dump(indent as nat),
    {
        let margin = spaces_text(indent);
        let mut text = String::new();
        self.debug_into(margin.as_str(), &mut text);
        assert(text@ =~= self@.dump(indent as nat));
        text
    }

    /// Appends the one-line tree of the constant to `out`, after `margin`.
    pub(crate) fn debug_into(&self, margin: &str, out: &mut String)
        requires
            margin@ == spaces(margin@.len()),
        ensures
            final(out)@ == old(out)@ + self@.dump(margin@.len()),
    {
        out.append(margin);
        out.append("Constant { value: ");
        let value = decimal_text(self.value);
        out.append(value.as_str());
        out.append(" }\n");
        assert(final(out)@ =~= old(out)@ + self@.dump(margin@.len()));
    }
}

} // verus!
