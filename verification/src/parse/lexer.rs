//! The three recognizers of characters that the parser is built on.
//!
//! They are `nom`'s. Verus does not read `nom`: what each of them does is
//! stated here as its source has it, and taken on trust. The error that `nom`
//! reports stays opaque; the parser knows from these contracts where each
//! recognizer fails, and reports the failure in its own type.
use vstd::prelude::*;

use super::grammar::{is_digit, is_space};

verus! {

/// `nom::Err`, the error of every `nom` parser.
#[verifier::external_type_specification]
#[verifier::external_body]
#[verifier::reject_recursive_types(E)]
pub struct ExErr<E>(nom::Err<E>);

/// `nom::error::Error`, what `nom::Err` holds by default: the input at the
/// place of the failure and the kind of the failure.
#[verifier::external_type_specification]
#[verifier::external_body]
#[verifier::reject_recursive_types(I)]
pub struct ExError<I>(nom::error::Error<I>);

/// `nom::character::complete::multispace0` on a `&str`.
///
/// It always succeeds, and splits the input behind its leading spaces, tabs,
/// carriage returns and line feeds: the first part of the result is the rest
/// of the input, the second the whitespace.
#[verifier::external_body]
pub(crate) fn multispace0<'a>(input: &'a str) -> (found: Result<
    (&'a str, &'a str),
    nom::Err<nom::error::Error<&'a str>>,
>)
    ensures
        found is Ok,
        found matches Ok((tail, spaces)) ==> {
            &&& input@ == spaces@ + tail@
            &&& forall|i: int| 0 <= i < spaces@.len() ==> is_space(#[trigger] spaces@[i])
            &&& tail@.len() > 0 ==> !is_space(tail@[0])
        },
{
    nom::character::complete::multispace0(input)
}

/// `nom::character::complete::digit1` on a `&str`.
///
/// It splits the input behind its leading ASCII digits, and fails where the
/// input does not start with one: the first part of the result is the rest of
/// the input, the second the digits.
#[verifier::external_body]
pub(crate) fn digit1<'a>(input: &'a str) -> (found: Result<
    (&'a str, &'a str),
    nom::Err<nom::error::Error<&'a str>>,
>)
    ensures
        match found {
            Ok((tail, digits)) => {
                &&& input@ == digits@ + tail@
                &&& digits@.len() > 0
                &&& forall|i: int| 0 <= i < digits@.len() ==> is_digit(#[trigger] digits@[i])
                &&& tail@.len() > 0 ==> !is_digit(tail@[0])
            },
            Err(_) => input@.len() == 0 || !is_digit(input@[0]),
        },
{
    nom::character::complete::digit1(input)
}

/// `nom::character::complete::char` on a `&str`.
///
/// It succeeds where the input starts with the character `c`, and gives the
/// input behind that character, and the character.
#[verifier::external_body]
pub(crate) fn character<'a>(c: char, input: &'a str) -> (found: Result<
    (&'a str, char),
    nom::Err<nom::error::Error<&'a str>>,
>)
    ensures
        match found {
            Ok((tail, first)) => {
                &&& input@.len() > 0
                &&& input@[0] == c
                &&& first == c
                &&& tail@ == input@.skip(1)
            },
            Err(_) => input@.len() == 0 || input@[0] != c,
        },
{
    nom::character::complete::char(c)(input)
}

} // verus!
