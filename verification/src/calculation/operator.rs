//! The four binary operators.
use vstd::prelude::*;

use vstd::std_specs::convert::TryFromSpecImpl;

use super::Calculation;
use crate::error::BadOperatorError;

verus! {

/// A binary arithmetic operator.
#[derive(Debug, Clone, Copy, PartialEq, Eq, Structural)]
pub enum Operator {
    Add,
    Sub,
    Times,
    Div,
}

/// The quotient of `a` by `b`, rounded toward zero.
pub open spec fn quotient_toward_zero(a: int, b: int) -> int
    recommends
        b != 0,
{
    let magnitude = (if a < 0 { -a } else { a }) / (if b < 0 { -b } else { b });
    if (a < 0) == (b < 0) {
        magnitude
    } else {
        -magnitude
    }
}

/// Division by a negative number is the negated division by its magnitude,
/// for a dividend that is not negative.
proof fn lemma_divide_by_negative(a: int, b: int)
    requires
        0 <= a,
        b < 0,
    ensures
        a / b == -(a / (-b)),
{
    assert(a / b == -(a / (-b))) by (nonlinear_arith)
        requires
            0 <= a,
            b < 0,
    ;
}

/// `char::to_string`, of std: the string that holds the one character.
#[verifier::external_body]
fn char_to_string(c: char) -> (text: String)
    ensures
        text@ == seq![c],
{
    c.to_string()
}

impl Operator {
    /// The operator that a character stands for.
    pub open spec fn from_char(c: char) -> Option<Operator> {
        if c == '+' {
            Some(Operator::Add)
        } else if c == '-' {
            Some(Operator::Sub)
        } else if c == '*' {
            Some(Operator::Times)
        } else if c == '/' {
            Some(Operator::Div)
        } else {
            None
        }
    }

    /// The precedence of the operator: the higher rank binds tighter.
    pub open spec fn spec_rank(self) -> nat {
        match self {
            Operator::Add | Operator::Sub => 1,
            Operator::Times | Operator::Div => 2,
        }
    }

    /// The operator applied to two integers, without bounds.
    pub open spec fn combine(self, left: int, right: int) -> int {
        match self {
            Operator::Add => left + right,
            Operator::Sub => left - right,
            Operator::Times => left * right,
            Operator::Div => quotient_toward_zero(left, right),
        }
    }

    /// Whether the operator can be applied in machine integers: the divisor
    /// is not zero and the result fits an `isize`.
    pub open spec fn applicable(self, left: int, right: int) -> bool {
        &&& self == Operator::Div ==> right != 0
        &&& isize::MIN <= self.combine(left, right) <= isize::MAX
    }

    /// Evaluates both operands and applies the operator to their values.
    pub fn apply(&self, lhs: &Calculation, rhs: &Calculation) -> (result: isize)
        requires
            lhs.evaluable(),
            rhs.evaluable(),
            self.applicable(lhs.value(), rhs.value()),
        ensures
            result == self.combine(lhs.value(), rhs.value()),
        decreases 1 + lhs.size() + rhs.size(), 0nat,
    {
        let left = lhs.evaluate();
        let right = rhs.evaluate();
        proof {
            if *self == Operator::Div {
                if right < 0 {
                    lemma_divide_by_negative(if left < 0 { -left } else { left as int }, right as int);
                }
            }
        }
        match self {
            Operator::Add => left + right,
            Operator::Sub => left - right,
            Operator::Times => left * right,
            Operator::Div => left / right,
        }
    }

    /// Applies the operator to two integers, where that can be done in
    /// machine integers: `None` for a divisor of zero and for a result that
    /// no `isize` holds.
    pub fn checked_apply(&self, left: isize, right: isize) -> (result: Option<isize>)
        ensures
            match result {
                Some(value) => self.applicable(left as int, right as int) && value == self.combine(
                    left as int,
                    right as int,
                ),
                None => !self.applicable(left as int, right as int),
            },
    {
        match self {
            Operator::Add => left.checked_add(right),
            Operator::Sub => left.checked_sub(right),
            Operator::Times => left.checked_mul(right),
            Operator::Div => left.checked_div(right),
        }
    }

    /// The precedence of the operator.
    pub fn rank(&self) -> (rank: usize)
        ensures
            rank == self.spec_rank(),
    {
        match self {
            Operator::Add | Operator::Sub => 1,
            Operator::Times | Operator::Div => 2,
        }
    }
}

impl TryFrom<char> for Operator {
    type Error = BadOperatorError;

    /// The operator that the character stands for. Any other character is
    /// refused, with the character as the message.
    fn try_from(value: char) -> (result: Result<Self, Self::Error>)
        ensures
            match Operator::from_char(value) {
                Some(operator) => result == Ok::<Operator, BadOperatorError>(operator),
                None => result matches Err(error) && error@ == seq![value],
            },
    {
        match value {
            '+' => Ok(Self::Add),
            '-' => Ok(Self::Sub),
            '*' => Ok(Self::Times),
            '/' => Ok(Self::Div),
            _ => Err(BadOperatorError::new(char_to_string(value))),
        }
    }
}

/// A `String` cannot be written down in a specification, so the error of
/// `try_from` is stated by its own `ensures`, not here.
impl TryFromSpecImpl<char> for Operator {
    open spec fn obeys_try_from_spec() -> bool {
        false
    }

    open spec fn try_from_spec(value: char) -> Result<Self, BadOperatorError> {
        arbitrary()
    }
}

} // verus!
