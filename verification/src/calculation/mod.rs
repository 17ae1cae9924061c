//! The expression tree and its evaluation.
use vstd::prelude::*;

pub mod operator;

use std::str::FromStr;

use crate::error::InvalidFormulaError;
use crate::parse::grammar;
use crate::parse::parse_equation;
use operator::Operator;

verus! {

/// An arithmetic expression: a literal, or two expressions joined by an operator.
#[derive(Debug, PartialEq, Eq)]
pub enum Calculation {
    Literal(isize),
    Unevaluated { lhs: Box<Calculation>, operator: Operator, rhs: Box<Calculation> },
}

impl Calculation {
    /// The integer the expression denotes, computed without bounds.
    /// A quotient is rounded toward zero.
    pub open spec fn value(self) -> int
        decreases self,
    {
        match self {
            Calculation::Literal(n) => n as int,
            Calculation::Unevaluated { lhs, operator, rhs } => operator.combine(
                lhs.value(),
                rhs.value(),
            ),
        }
    }

    /// Whether the expression can be evaluated in machine integers: no
    /// divisor is zero and every intermediate result fits an `isize`.
    pub open spec fn evaluable(self) -> bool
        decreases self,
    {
        match self {
            Calculation::Literal(_) => true,
            Calculation::Unevaluated { lhs, operator, rhs } => {
                &&& lhs.evaluable()
                &&& rhs.evaluable()
                &&& operator.applicable(lhs.value(), rhs.value())
            },
        }
    }

    /// The number of nodes of the tree.
    pub open spec fn size(self) -> nat
        decreases self,
    {
        match self {
            Calculation::Literal(_) => 1,
            Calculation::Unevaluated { lhs, operator, rhs } => 1 + lhs.size() + rhs.size(),
        }
    }

    /// Evaluates the expression.
    ///
    /// A division by zero and a result that no `isize` holds are left out by
    /// the precondition; [`Calculation::checked_evaluate`] tests for them.
    pub fn evaluate(&self) -> (result: isize)
        requires
            self.evaluable(),
        ensures
            result == self.value(),
        decreases self.size(), 1nat,
    {
        match self {
            Self::Literal(n) => *n,
            Self::Unevaluated { lhs, operator, rhs } => operator.apply(lhs, rhs),
        }
    }

    /// Evaluates the expression, where that can be done in machine integers:
    /// `None` where a divisor is zero or a result is one that no `isize`
    /// holds.
    pub fn checked_evaluate(&self) -> (result: Option<isize>)
        ensures
            match result {
                Some(value) => self.evaluable() && value == self.value(),
                None => !self.evaluable(),
            },
        decreases self,
    {
        match self {
            Self::Literal(n) => Some(*n),
            Self::Unevaluated { lhs, operator, rhs } => match lhs.checked_evaluate() {
                None => None,
                Some(left) => match rhs.checked_evaluate() {
                    None => None,
                    Some(right) => operator.checked_apply(left, right),
                },
            },
        }
    }
}

/// Evaluation is pure: whatever two evaluations of one tree return, they
/// return the same integer.
pub proof fn lemma_evaluate_is_pure(tree: Calculation, first: isize, second: isize)
    requires
        tree.evaluable(),
        call_ensures(Calculation::evaluate, (&tree,), first),
        call_ensures(Calculation::evaluate, (&tree,), second),
    ensures
        first == second,
{
}

impl FromStr for Calculation {
    type Err = InvalidFormulaError;

    /// Reads a whole string as one equation.
    ///
    /// Where the equation cannot be read, or ends before the string does, the
    /// error holds the string from that place on.
    fn from_str(input: &str) -> (result: Result<Self, Self::Err>)
        ensures
            match grammar::equation(input@) {
                Ok((tail, tree)) => if tail.len() == 0 {
                    result == Ok::<Calculation, InvalidFormulaError>(tree)
                } else {
                    result matches Err(error) && error.failed_tail@ == tail
                },
                Err(failure) => result matches Err(error) && error.failed_tail@ == failure.tail,
            },
    {
        match parse_equation(input) {
            Err(error) => Err(InvalidFormulaError::from(error)),
            Ok((tail, result)) => if !tail.is_empty() {
                Err(InvalidFormulaError { failed_tail: tail.to_owned() })
            } else {
                Ok(result)
            },
        }
    }
}

} // verus!
