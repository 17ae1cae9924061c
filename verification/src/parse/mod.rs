//! The parser: from text to an expression tree.
use vstd::prelude::*;

pub mod grammar;
mod lexer;
pub mod tree;

use crate::calculation::operator::Operator;
use crate::calculation::Calculation;
use crate::error::{ParseError, ParseErrorKind, ParseFailure};
use grammar::{decimal, is_digit, is_space, skip_spaces, Level, Parsed};
use lexer::{character, digit1, multispace0};
use tree::combine_operands_and_operators;

verus! {

/// What a parser returned, over characters.
pub open spec fn outcome<'a, T>(result: Result<(&'a str, T), ParseError<'a>>) -> Parsed<T> {
    match result {
        Ok((tail, value)) => Ok((tail@, value)),
        Err(error) => Err(error@),
    }
}

/// The digits of a number denote no less than any of their prefixes.
proof fn lemma_decimal_prefix(digits: Seq<char>, n: int)
    requires
        0 <= n <= digits.len(),
        forall|i: int| 0 <= i < digits.len() ==> is_digit(#[trigger] digits[i]),
    ensures
        decimal(digits.take(n)) <= decimal(digits),
    decreases digits.len(),
{
    if n == digits.len() {
        assert(digits.take(n) == digits);
    } else {
        assert(is_digit(digits.last()));
        assert(digits.drop_last().take(n) == digits.take(n));
        lemma_decimal_prefix(digits.drop_last(), n);
    }
}

/// The number that a string of digits denotes, if an `isize` holds it.
fn decimal_value(digits: &str) -> (value: Option<isize>)
    requires
        forall|i: int| 0 <= i < digits@.len() ==> is_digit(#[trigger] digits@[i]),
    ensures
        match value {
            Some(v) => v == decimal(digits@),
            None => decimal(digits@) > isize::MAX,
        },
{
    broadcast use vstd::utf8::is_ascii_chars_encode_utf8;

    let bytes = digits.as_bytes();
    assert(vstd::utf8::is_ascii_chars(digits@)) by {
        assert forall|i: int| 0 <= i < digits@.len() implies '\0' <= #[trigger] digits@[i]
            <= '\u{7f}' by {
            assert(is_digit(digits@[i]));
        }
    }
    let mut value: isize = 0;
    let mut i: usize = 0;
    assert(digits@.take(0).len() == 0);
    while i < bytes.len()
        invariant
            bytes@.len() == digits@.len(),
            forall|k: int| 0 <= k < digits@.len() ==> is_digit(#[trigger] digits@[k]),
            forall|k: int| 0 <= k < digits@.len() ==> digits@[k] as u8 == #[trigger] bytes@[k],
            i <= bytes@.len(),
            0 <= value,
            value == decimal(digits@.take(i as int)),
        decreases bytes@.len() - i,
    {
        let ghost longer = digits@.take(i + 1);
        assert(longer.drop_last() == digits@.take(i as int));
        assert(longer.last() == digits@[i as int]);
        assert(is_digit(digits@[i as int]));
        proof {
            lemma_decimal_prefix(digits@, i + 1);
        }
        let digit = (bytes[i] - 48u8) as isize;
        assert(digit == digits@[i as int] as int - '0' as int);
        value = match value.checked_mul(10) {
            Some(tens) => match tens.checked_add(digit) {
                Some(sum) => sum,
                None => return None,
            },
            None => return None,
        };
        i += 1;
    }
    assert(digits@.take(i as int) == digits@);
    Some(value)
}

/// Reads an integer literal from the front of the input: an optional sign,
/// then one or more digits.
///
/// A literal whose digits denote more than `isize::MAX` is refused.
pub fn parse_numeric_literal<'a>(input: &'a str) -> (result: Result<(&'a str, isize), ParseError<'a>>)
    ensures
        outcome(result) == grammar::literal(input@),
{
    // the sign on the number, if any
    let (unsigned, sign) = match character('+', input) {
        Ok((tail, sign)) => (tail, Some(sign)),
        Err(_) => match character('-', input) {
            Ok((tail, sign)) => (tail, Some(sign)),
            Err(_) => (input, None),
        },
    };
    // one or more digits
    let (tail, number_text) = match digit1(unsigned) {
        Ok(parts) => parts,
        Err(_) => {
            return Err(ParseError { kind: ParseErrorKind::Malformed, tail: unsigned });
        },
    };
    proof {
        grammar::lemma_digit_count(unsigned@, number_text@, tail@);
    }
    let value = match decimal_value(number_text) {
        Some(value) => value,
        None => {
            return Err(ParseError { kind: ParseErrorKind::OutOfRange, tail: input });
        },
    };
    let result = match sign {
        Some('+') | None => value,
        _ => -value,
    };
    Ok((tail, result))
}

/// Reads one of the four operator characters from the front of the input.
pub fn parse_operator<'a>(input: &'a str) -> (result: Result<(&'a str, Operator), ParseError<'a>>)
    ensures
        outcome(result) == grammar::operator(input@),
{
    let found = character('+', input);
    let found = if found.is_ok() { found } else { character('-', input) };
    let found = if found.is_ok() { found } else { character('*', input) };
    let found = if found.is_ok() { found } else { character('/', input) };
    match found {
        Ok((tail, symbol)) => match Operator::try_from(symbol) {
            Ok(operator) => Ok((tail, operator)),
            // not reached: each of the four characters stands for an operator
            Err(_) => Err(ParseError { kind: ParseErrorKind::Malformed, tail: input }),
        },
        Err(_) => Err(ParseError { kind: ParseErrorKind::Malformed, tail: input }),
    }
}

/// A sequence that is split behind its leading whitespace: the second part
/// is the sequence without that whitespace.
proof fn lemma_skipped_spaces(s: Seq<char>, spaces: Seq<char>, tail: Seq<char>)
    requires
        s == spaces + tail,
        forall|i: int| 0 <= i < spaces.len() ==> is_space(#[trigger] spaces[i]),
        tail.len() > 0 ==> !is_space(tail[0]),
    ensures
        skip_spaces(s) == tail,
    decreases spaces.len(),
{
    if spaces.len() > 0 {
        assert(s[0] == spaces[0]);
        assert(s.skip(1) == spaces.skip(1) + tail);
        lemma_skipped_spaces(s.skip(1), spaces.skip(1), tail);
    } else {
        assert(s == tail);
    }
}

/// The input without its leading whitespace.
fn skip_whitespace<'a>(input: &'a str) -> (tail: &'a str)
    ensures
        tail@ == skip_spaces(input@),
{
    match multispace0(input) {
        Ok((tail, spaces)) => {
            proof {
                lemma_skipped_spaces(input@, spaces@, tail@);
            }
            tail
        },
        // not reached: whitespace is optional
        Err(_) => input,
    }
}

/// A level that follows the operands and operators read so far.
spec fn continued(
    operands: Seq<Calculation>,
    operators: Seq<Operator>,
    more: Result<Level, ParseFailure>,
) -> Result<Level, ParseFailure> {
    match more {
        Err(failure) => Err(failure),
        Ok(found) => Ok(
            Level {
                tail: found.tail,
                operands: operands + found.operands,
                operators: operators + found.operators,
            },
        ),
    }
}

/// Reads an equation between parentheses from the front of the input.
pub fn parse_parentheses<'a>(input: &'a str) -> (result: Result<
    (&'a str, Calculation),
    ParseError<'a>,
>)
    ensures
        outcome(result) == grammar::parentheses(input@),
    decreases input@.len(), 0nat,
{
    let tail = match character('(', input) {
        Ok((tail, _)) => tail,
        Err(_) => {
            return Err(ParseError { kind: ParseErrorKind::Malformed, tail: input });
        },
    };
    let (tail, calculation) = match parse_equation(tail) {
        Ok(found) => found,
        Err(error) => {
            return Err(error);
        },
    };
    let tail = match character(')', tail) {
        Ok((tail, _)) => tail,
        Err(_) => {
            return Err(ParseError { kind: ParseErrorKind::Malformed, tail });
        },
    };
    Ok((tail, calculation))
}

/// Reads a single operand from the front of the input.
///
/// An operand is either a single numeric literal or a more complex expression
/// in parentheses, which is still treated like a single entity.
pub fn parse_operand<'a>(input: &'a str) -> (result: Result<(&'a str, Calculation), ParseError<'a>>)
    ensures
        outcome(result) == grammar::operand(input@),
    decreases input@.len(), 1nat,
{
    match parse_numeric_literal(input) {
        Ok((tail, value)) => Ok((tail, Calculation::Literal(value))),
        Err(error) => match error.kind {
            ParseErrorKind::OutOfRange => Err(error),
            ParseErrorKind::Malformed => parse_parentheses(input),
        },
    }
}

/// Reads one equation from the front of the input: operands with operators
/// between them, up to the end of the input or a closing parenthesis. What
/// was not read, the closing parenthesis too, is handed back.
pub fn parse_equation<'a>(input: &'a str) -> (result: Result<(&'a str, Calculation), ParseError<'a>>)
    ensures
        outcome(result) == grammar::equation(input@),
    decreases input@.len(), 2nat,
{
    let mut rest = input;

    let mut operands: Vec<Calculation> = Vec::new();
    let mut operators: Vec<Operator> = Vec::new();

    assert(grammar::level(input@) == continued(operands@, operators@, grammar::level(rest@))) by {
        match grammar::level(input@) {
            Ok(found) => {
                assert(operands@ + found.operands == found.operands);
                assert(operators@ + found.operators == found.operators);
            },
            Err(_) => {},
        }
    }
    loop
        invariant_except_break
            operands@.len() == operators@.len(),
            grammar::level(input@) == continued(operands@, operators@, grammar::level(rest@)),
        invariant
            rest@.len() <= input@.len(),
        ensures
            grammar::level(input@) == Ok::<Level, ParseFailure>(
                Level { tail: rest@, operands: operands@, operators: operators@ },
            ),
            operands@.len() == operators@.len() + 1,
        decreases rest@.len(),
    {
        let ghost before = (operands@, operators@);
        let ghost start = skip_spaces(rest@);
        proof {
            grammar::lemma_skip_spaces(rest@);
            grammar::lemma_operand_advances(start);
        }
        let tail = skip_whitespace(rest);
        let (tail, operand) = match parse_operand(tail) {
            Ok(found) => found,
            Err(error) => {
                return Err(error);
            },
        };
        let ghost first = operand;
        let ghost after = tail@;
        operands.push(operand);
        proof {
            grammar::lemma_skip_spaces(after);
        }

        let tail = skip_whitespace(tail);

        // two checks to see if we are at the end of the equation
        if tail.is_empty() || character(')', tail).is_ok() {
            rest = tail;
            assert(operands@ == before.0 + seq![first]);
            assert(operators@ == before.1 + Seq::<Operator>::empty());
            break ;
        }
        // else: we have to look further right

        proof {
            grammar::lemma_operator_advances(tail@);
        }
        let (tail, operator) = match parse_operator(tail) {
            Ok(found) => found,
            Err(error) => {
                return Err(error);
            },
        };
        let ghost behind = tail@;
        let tail = skip_whitespace(tail);
        operators.push(operator);
        rest = tail;
        proof {
            grammar::lemma_skip_spaces(behind);
            assert(skip_spaces(rest@) == skip_spaces(behind));
            grammar::lemma_level_skips_spaces(behind);
            match grammar::level(rest@) {
                Ok(more) => {
                    assert(operands@ + more.operands == before.0 + (seq![first] + more.operands));
                    assert(operators@ + more.operators == before.1 + (seq![operator]
                        + more.operators));
                },
                Err(_) => {},
            }
        }
    }

    // all n operators and all n + 1 operands of this level are gathered:
    // now build the tree
    let result = combine_operands_and_operators(operands, operators);
    Ok((rest, result))
}

} // verus!
