//! The grammar, as functions on sequences of characters.
//!
//! ```text
//! equation := ws operand ws (operator ws operand ws)*
//! operand  := literal | '(' equation ')'
//! literal  := ['+' | '-'] digit+
//! operator := '+' | '-' | '*' | '/'
//! ws       := (' ' | '\t' | '\r' | '\n')*
//! ```
//!
//! Each function reads one construct from the front of its input and gives
//! what it read and the rest of the input, or the failure with the input left
//! at the place where reading stopped.
use vstd::prelude::*;

use super::tree::precedence_tree;
use crate::calculation::operator::Operator;
use crate::calculation::Calculation;
use crate::error::{ParseErrorKind, ParseFailure};

verus! {

/// What reading a `T` from the front of an input gives: the rest of the input
/// and the value, or the failure.
pub type Parsed<T> = Result<(Seq<char>, T), ParseFailure>;

/// The operands and operators of one nesting level, and the input after them.
pub struct Level {
    pub tail: Seq<char>,
    pub operands: Seq<Calculation>,
    pub operators: Seq<Operator>,
}

/// Whether the character is whitespace: a space, a tab, a carriage return or
/// a line feed.
pub open spec fn is_space(c: char) -> bool {
    c == ' ' || c == '\t' || c == '\r' || c == '\n'
}

/// Whether the character is one of the ten ASCII digits.
pub open spec fn is_digit(c: char) -> bool {
    '0' <= c <= '9'
}

/// The failure to find a required token at the front of `tail`.
pub open spec fn malformed(tail: Seq<char>) -> ParseFailure {
    ParseFailure { kind: ParseErrorKind::Malformed, tail }
}

/// The failure of a literal, at the front of `tail`, to fit an `isize`.
pub open spec fn out_of_range(tail: Seq<char>) -> ParseFailure {
    ParseFailure { kind: ParseErrorKind::OutOfRange, tail }
}

/// The input without its leading whitespace.
pub open spec fn skip_spaces(s: Seq<char>) -> Seq<char>
    decreases s.len(),
{
    if s.len() > 0 && is_space(s[0]) {
        skip_spaces(s.skip(1))
    } else {
        s
    }
}

/// The number of digits that the input starts with.
pub open spec fn digit_count(s: Seq<char>) -> nat
    decreases s.len(),
{
    if s.len() > 0 && is_digit(s[0]) {
        1 + digit_count(s.skip(1))
    } else {
        0
    }
}

/// The number that a sequence of digits denotes in base ten.
pub open spec fn decimal(digits: Seq<char>) -> nat
    decreases digits.len(),
{
    if digits.len() == 0 {
        0
    } else {
        (10 * decimal(digits.drop_last()) + (digits.last() as int - '0' as int)) as nat
    }
}

/// An integer literal: an optional sign and one or more digits.
///
/// Without a digit the failure stands behind the sign. A literal whose digits
/// denote more than `isize::MAX` fails as a whole, whatever its sign.
pub open spec fn literal(s: Seq<char>) -> Parsed<isize> {
    let signed = s.len() > 0 && (s[0] == '+' || s[0] == '-');
    let unsigned = if signed { s.skip(1) } else { s };
    let count = digit_count(unsigned) as int;
    let magnitude = decimal(unsigned.take(count));
    if count == 0 {
        Err(malformed(unsigned))
    } else if magnitude > isize::MAX {
        Err(out_of_range(s))
    } else if signed && s[0] == '-' {
        Ok((unsigned.skip(count), (-magnitude) as isize))
    } else {
        Ok((unsigned.skip(count), magnitude as isize))
    }
}

/// One operator character.
pub open spec fn operator(s: Seq<char>) -> Parsed<Operator> {
    if s.len() > 0 && Operator::from_char(s[0]) is Some {
        Ok((s.skip(1), Operator::from_char(s[0])->0))
    } else {
        Err(malformed(s))
    }
}

/// An equation between parentheses. The parentheses leave no trace in the
/// tree.
pub open spec fn parentheses(s: Seq<char>) -> Parsed<Calculation>
    decreases s.len(), 0nat,
{
    if s.len() > 0 && s[0] == '(' {
        match equation(s.skip(1)) {
            Err(failure) => Err(failure),
            Ok((tail, inner)) => if tail.len() > 0 && tail[0] == ')' {
                Ok((tail.skip(1), inner))
            } else {
                Err(malformed(tail))
            },
        }
    } else {
        Err(malformed(s))
    }
}

/// A literal, or else an equation between parentheses. A literal that is out
/// of range fails the operand; any other failure of the literal leaves the
/// word to the parentheses.
pub open spec fn operand(s: Seq<char>) -> Parsed<Calculation>
    decreases s.len(), 1nat,
{
    match literal(s) {
        Ok((tail, value)) => Ok((tail, Calculation::Literal(value))),
        Err(failure) => if failure.kind == ParseErrorKind::OutOfRange {
            Err(failure)
        } else {
            parentheses(s)
        },
    }
}

/// The operands of one nesting level and the operators between them, up to
/// the end of the input or a closing parenthesis, which is left in the tail.
/// Whitespace may stand before and after each of them.
pub open spec fn level(s: Seq<char>) -> Result<Level, ParseFailure>
    decreases s.len(), 2nat,
{
    let start = skip_spaces(s);
    proof {
        lemma_skip_spaces(s);
    }
    match operand(start) {
        Err(failure) => Err(failure),
        Ok((after, first)) => {
            let next = skip_spaces(after);
            if next.len() == 0 || next[0] == ')' {
                Ok(Level { tail: next, operands: seq![first], operators: seq![] })
            } else {
                match operator(next) {
                    Err(failure) => Err(failure),
                    Ok((rest, op)) => if rest.len() < start.len() {
                        match level(rest) {
                            Err(failure) => Err(failure),
                            Ok(more) => Ok(
                                Level {
                                    tail: more.tail,
                                    operands: seq![first] + more.operands,
                                    operators: seq![op] + more.operators,
                                },
                            ),
                        }
                    } else {
                        // not reached, as `lemma_operand_advances` and
                        // `lemma_operator_advances` show: the test is here
                        // for the recursion to be seen to end
                        Err(malformed(rest))
                    },
                }
            }
        },
    }
}

/// One equation: the operands and operators of one level, joined into the
/// tree that precedence gives.
pub open spec fn equation(s: Seq<char>) -> Parsed<Calculation>
    decreases s.len(), 3nat,
{
    match level(s) {
        Err(failure) => Err(failure),
        Ok(found) => Ok((found.tail, precedence_tree(found.operands, found.operators))),
    }
}

/// Skipping whitespace leaves a suffix of the input that does not start with
/// whitespace.
pub proof fn lemma_skip_spaces(s: Seq<char>)
    ensures
        skip_spaces(s).len() <= s.len(),
        skip_spaces(s) == s.skip(s.len() - skip_spaces(s).len()),
        skip_spaces(s).len() > 0 ==> !is_space(skip_spaces(s)[0]),
        forall|i: int| 0 <= i < s.len() - skip_spaces(s).len() ==> is_space(#[trigger] s[i]),
    decreases s.len(),
{
    if s.len() > 0 && is_space(s[0]) {
        let rest = s.skip(1);
        lemma_skip_spaces(rest);
        let n = rest.len() - skip_spaces(rest).len();
        assert(rest.skip(n) == s.skip(n + 1));
        assert forall|i: int| 0 <= i < n + 1 implies is_space(#[trigger] s[i]) by {
            if i > 0 {
                assert(s[i] == rest[i - 1]);
            }
        }
    } else {
        assert(s.skip(0) == s);
    }
}

/// Whitespace before a level changes nothing.
pub proof fn lemma_level_skips_spaces(s: Seq<char>)
    ensures
        level(skip_spaces(s)) == level(s),
{
    lemma_skip_spaces(s);
}

/// Whether what a parser gave lies within its input `s`: what is left after
/// a success is a suffix of `s` and shorter than `s`, and the tail of a
/// failure is a suffix of `s`.
pub open spec fn advances<T>(parsed: Parsed<T>, s: Seq<char>) -> bool {
    match parsed {
        Ok((tail, _)) => tail.len() < s.len() && tail.is_suffix_of(s),
        Err(failure) => failure.tail.is_suffix_of(s),
    }
}

proof fn lemma_suffix_of_suffix(a: Seq<char>, b: Seq<char>, c: Seq<char>)
    requires
        a.is_suffix_of(b),
        b.is_suffix_of(c),
    ensures
        a.is_suffix_of(c),
{
}

proof fn lemma_digit_count_bound(s: Seq<char>)
    ensures
        digit_count(s) <= s.len(),
    decreases s.len(),
{
    if s.len() > 0 && is_digit(s[0]) {
        lemma_digit_count_bound(s.skip(1));
    }
}

/// A sequence that is split behind its leading digits starts with as many
/// digits as the first part is long.
pub proof fn lemma_digit_count(s: Seq<char>, digits: Seq<char>, tail: Seq<char>)
    requires
        s == digits + tail,
        forall|i: int| 0 <= i < digits.len() ==> is_digit(#[trigger] digits[i]),
        tail.len() > 0 ==> !is_digit(tail[0]),
    ensures
        digit_count(s) == digits.len(),
        s.take(digits.len() as int) == digits,
        s.skip(digits.len() as int) == tail,
    decreases digits.len(),
{
    if digits.len() > 0 {
        assert(s[0] == digits[0]);
        assert(s.skip(1) == digits.skip(1) + tail);
        lemma_digit_count(s.skip(1), digits.skip(1), tail);
    } else {
        assert(s == tail);
    }
}

/// A sign or none, then digits, then anything that does not start with a
/// digit, is read as the number that the digits denote, with that sign, and
/// what follows the digits is left.
pub proof fn lemma_literal_round_trip(sign: Seq<char>, digits: Seq<char>, rest: Seq<char>)
    requires
        sign.len() == 0 || sign == seq!['+'] || sign == seq!['-'],
        digits.len() > 0,
        forall|i: int| 0 <= i < digits.len() ==> is_digit(#[trigger] digits[i]),
        rest.len() > 0 ==> !is_digit(rest[0]),
        decimal(digits) <= isize::MAX,
    ensures
        literal(sign + digits + rest) == Ok::<(Seq<char>, isize), ParseFailure>(
            (
                rest,
                if sign == seq!['-'] {
                    (-decimal(digits)) as isize
                } else {
                    decimal(digits) as isize
                },
            ),
        ),
{
    let s = sign + digits + rest;
    let unsigned = digits + rest;
    assert(is_digit(digits[0]));
    if sign.len() == 0 {
        assert(s == unsigned);
        assert(s[0] == digits[0]);
    } else {
        assert(s[0] == sign[0]);
        assert(s.skip(1) == unsigned);
    }
    lemma_digit_count(unsigned, digits, rest);
}

/// A literal lies within its input.
pub proof fn lemma_literal_advances(s: Seq<char>)
    ensures
        advances(literal(s), s),
{
    let signed = s.len() > 0 && (s[0] == '+' || s[0] == '-');
    let unsigned = if signed { s.skip(1) } else { s };
    lemma_digit_count_bound(unsigned);
    assert(unsigned.is_suffix_of(s));
    assert(s.is_suffix_of(s));
    let count = digit_count(unsigned) as int;
    if count > 0 {
        assert(unsigned.skip(count).is_suffix_of(unsigned));
        lemma_suffix_of_suffix(unsigned.skip(count), unsigned, s);
    }
}

/// An operator lies within its input.
pub proof fn lemma_operator_advances(s: Seq<char>)
    ensures
        advances(operator(s), s),
{
    assert(s.is_suffix_of(s));
    if s.len() > 0 {
        assert(s.skip(1).is_suffix_of(s));
    }
}

/// An equation between parentheses lies within its input.
pub proof fn lemma_parentheses_advances(s: Seq<char>)
    ensures
        advances(parentheses(s), s),
    decreases s.len(), 0nat,
{
    assert(s.is_suffix_of(s));
    if s.len() > 0 && s[0] == '(' {
        let inner = s.skip(1);
        assert(inner.is_suffix_of(s));
        lemma_equation_advances(inner);
        match equation(inner) {
            Err(failure) => {
                lemma_suffix_of_suffix(failure.tail, inner, s);
            },
            Ok((tail, _)) => {
                lemma_suffix_of_suffix(tail, inner, s);
                if tail.len() > 0 {
                    assert(tail.skip(1).is_suffix_of(tail));
                    lemma_suffix_of_suffix(tail.skip(1), tail, s);
                }
            },
        }
    }
}

/// An operand lies within its input.
pub proof fn lemma_operand_advances(s: Seq<char>)
    ensures
        advances(operand(s), s),
    decreases s.len(), 1nat,
{
    lemma_literal_advances(s);
    lemma_parentheses_advances(s);
}

/// The operands and operators of a level lie within its input, and there is
/// one operand more than there are operators.
pub proof fn lemma_level_advances(s: Seq<char>)
    ensures
        match level(s) {
            Ok(found) => {
                &&& found.tail.len() < s.len()
                &&& found.tail.is_suffix_of(s)
                &&& found.operands.len() == found.operators.len() + 1
            },
            Err(failure) => failure.tail.is_suffix_of(s),
        },
    decreases s.len(), 2nat,
{
    let start = skip_spaces(s);
    lemma_skip_spaces(s);
    assert(start.is_suffix_of(s));
    lemma_operand_advances(start);
    match operand(start) {
        Err(failure) => {
            lemma_suffix_of_suffix(failure.tail, start, s);
        },
        Ok((after, first)) => {
            let next = skip_spaces(after);
            lemma_skip_spaces(after);
            assert(next.is_suffix_of(after));
            lemma_suffix_of_suffix(next, after, start);
            lemma_suffix_of_suffix(next, start, s);
            if !(next.len() == 0 || next[0] == ')') {
                lemma_operator_advances(next);
                match operator(next) {
                    Err(failure) => {
                        lemma_suffix_of_suffix(failure.tail, next, s);
                    },
                    Ok((rest, op)) => {
                        lemma_suffix_of_suffix(rest, next, s);
                        lemma_level_advances(rest);
                        match level(rest) {
                            Err(failure) => {
                                lemma_suffix_of_suffix(failure.tail, rest, s);
                            },
                            Ok(more) => {
                                lemma_suffix_of_suffix(more.tail, rest, s);
                            },
                        }
                    },
                }
            }
        },
    }
}

/// An equation lies within its input.
pub proof fn lemma_equation_advances(s: Seq<char>)
    ensures
        advances(equation(s), s),
    decreases s.len(), 3nat,
{
    lemma_level_advances(s);
}

} // verus!
