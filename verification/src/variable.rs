use vstd::prelude::*;
use vstd::string::StringExecFns;
use crate::formula::Formula;
use crate::text::{spaces, spaces_text};
use crate::expression::Expression;
use crate::error::EvalError;

verus! {

/// A named unknown.
#[derive(Clone, Debug)]
pub struct Variable {
    pub name: String,
}

impl View for Variable {
    type V = Formula;

    open spec fn view(&self) -> Formula {
        Formula::Symbol(self.name@)
    }
}

impl Variable {
    /// Makes the variable called `value`.
    pub fn new(value: &str) -> (v: Self)
        ensures
            v.name@ == value@,
    {
        Self { name: value.to_owned() }
    }

    /// The terminal value of a variable: the variable itself.
    pub fn eval(&self) -> (value: Result<Expression, EvalError>)
        ensures
            value matches Ok(e) && e@ == self@,
            self@.eval() == Some(self@),
    {
        Ok(Expression::Variable(Variable { name: self.name.clone() }))
    }

    /// The simplified form of a variable: the variable itself.
    pub fn simplify(&self) -> (simplified: Expression)
        ensures
            simplified@ == self@,
            simplified@ == self@.simplify(),
    {
        Expression::Variable(Variable { name: self.name.clone() })
    }

    /// The variable as infix text: its name.
    pub fn to_typist(&self) -> (text: String)
        ensures
            text@ == self@.render(),
    {
        self.name.clone()
    }

    /// The variable as a one-line tree, indented by `indent` spaces.
    pub fn debug(&self, indent: usize) -> (text: String)
        ensures
            text@ == self@.dump(indent as nat),
    {
        let margin = spaces_text(indent);
        let mut text = String::new();
        self.debug_into(margin.as_str(), &mut text);
        assert(text@ =~= self@.dump(indent as nat));
        text
    }

    /// Appends the one-line tree of the variable to `out`, after `margin`.
    pub(crate) fn debug_into(&self, margin: &str, out: &mut String)
        requires
            margin@ == spaces(margin@.len()),
        ensures
            final(out)@ == old(out)@ + self@.dump(margin@.len()),
    {
        out.append(margin);
        out.append("Variable { name: ");
        out.append(self.name.as_str());
        out.append(" }\n");
        assert(final(out)@ =~= old(out)@ + self@.dump(margin@.len()));
    }
}

} // verus!
