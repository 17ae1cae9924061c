use std::convert::TryFrom;
use std::str::FromStr;

use equation_parser::calculation::operator::Operator;
use equation_parser::calculation::Calculation;

fn node(lhs: Calculation, operator: Operator, rhs: Calculation) -> Calculation {
    Calculation::Unevaluated { lhs: Box::new(lhs), operator, rhs: Box::new(rhs) }
}

fn lit(value: isize) -> Calculation {
    Calculation::Literal(value)
}

#[test]
fn literal_evaluates_to_its_value() {
    assert_eq!(lit(0).evaluate(), 0);
    assert_eq!(lit(-17).evaluate(), -17);
    assert_eq!(lit(isize::MAX).evaluate(), isize::MAX);
    assert_eq!(lit(isize::MIN).checked_evaluate(), Some(isize::MIN));
}

#[test]
fn each_operator_applies() {
    assert_eq!(Operator::Add.apply(&lit(7), &lit(2)), 9);
    assert_eq!(Operator::Sub.apply(&lit(7), &lit(2)), 5);
    assert_eq!(Operator::Times.apply(&lit(7), &lit(2)), 14);
    assert_eq!(Operator::Div.apply(&lit(7), &lit(2)), 3);
    assert_eq!(
        Operator::Times.apply(&node(lit(1), Operator::Add, lit(2)), &node(lit(9), Operator::Sub, lit(4))),
        15
    );
}

#[test]
fn ranks_are_one_and_two() {
    assert_eq!(Operator::Add.rank(), 1);
    assert_eq!(Operator::Sub.rank(), 1);
    assert_eq!(Operator::Times.rank(), 2);
    assert_eq!(Operator::Div.rank(), 2);
}

#[test]
fn operator_of_a_character() {
    assert_eq!(Operator::try_from('+').unwrap(), Operator::Add);
    assert_eq!(Operator::try_from('-').unwrap(), Operator::Sub);
    assert_eq!(Operator::try_from('*').unwrap(), Operator::Times);
    assert_eq!(Operator::try_from('/').unwrap(), Operator::Div);
    assert_eq!(Operator::try_from('x').unwrap_err().to_string(), "x");
    assert_eq!(Operator::try_from('\u{f7}').unwrap_err().to_string(), "\u{f7}");
}

#[test]
fn evaluating_twice_gives_the_same() {
    let tree = Calculation::from_str("2 * (3 * (4 * (5 + 7) + 8) + 9) + 10").unwrap();
    let first = tree.evaluate();
    let second = tree.evaluate();
    assert_eq!(first, 364);
    assert_eq!(first, second);
    assert_eq!(tree.checked_evaluate(), Some(first));
}

#[test]
fn division_truncates_toward_zero() {
    assert_eq!(Calculation::from_str("7 / 2").unwrap().evaluate(), 3);
    assert_eq!(Calculation::from_str("-7 / 2").unwrap().evaluate(), -3);
    assert_eq!(Calculation::from_str("7 / -2").unwrap().evaluate(), -3);
    assert_eq!(Calculation::from_str("-7 / -2").unwrap().evaluate(), 3);
    assert_eq!(Calculation::from_str("0 / -2").unwrap().evaluate(), 0);
    assert_eq!(Calculation::from_str("1 / 2").unwrap().evaluate(), 0);
    assert_eq!(Calculation::from_str("-1 / 2").unwrap().evaluate(), 0);
    assert_eq!(Calculation::from_str("-6 / 3").unwrap().evaluate(), -2);
}

#[test]
fn checked_division_truncates_toward_zero() {
    assert_eq!(Operator::Div.checked_apply(7, 2), Some(3));
    assert_eq!(Operator::Div.checked_apply(-7, 2), Some(-3));
    assert_eq!(Operator::Div.checked_apply(7, -2), Some(-3));
    assert_eq!(Operator::Div.checked_apply(-7, -2), Some(3));
    assert_eq!(Operator::Div.checked_apply(isize::MIN, 1), Some(isize::MIN));
    assert_eq!(Operator::Div.checked_apply(isize::MAX, -1), Some(-isize::MAX));
}

#[test]
fn checked_apply_refuses_what_does_not_fit() {
    assert_eq!(Operator::Add.checked_apply(isize::MAX, 1), None);
    assert_eq!(Operator::Add.checked_apply(isize::MAX, 0), Some(isize::MAX));
    assert_eq!(Operator::Add.checked_apply(isize::MIN, -1), None);
    assert_eq!(Operator::Sub.checked_apply(isize::MIN, 1), None);
    assert_eq!(Operator::Sub.checked_apply(0, isize::MIN), None);
    assert_eq!(Operator::Sub.checked_apply(-1, isize::MIN), Some(isize::MAX));
    assert_eq!(Operator::Times.checked_apply(isize::MAX, 2), None);
    assert_eq!(Operator::Times.checked_apply(isize::MIN, -1), None);
    assert_eq!(Operator::Times.checked_apply(isize::MAX, -1), Some(-isize::MAX));
    assert_eq!(Operator::Div.checked_apply(isize::MIN, -1), None);
    assert_eq!(Operator::Div.checked_apply(1, 0), None);
    assert_eq!(Operator::Div.checked_apply(0, 0), None);
}

#[test]
fn checked_evaluate_refuses_a_zero_divisor() {
    assert_eq!(Calculation::from_str("1 / 0").unwrap().checked_evaluate(), None);
    assert_eq!(Calculation::from_str("1 / (2 - 2)").unwrap().checked_evaluate(), None);
    assert_eq!(Calculation::from_str("3 + 4 / (5 - 5) * 0").unwrap().checked_evaluate(), None);
    assert_eq!(Calculation::from_str("0 / 1").unwrap().checked_evaluate(), Some(0));
}

#[test]
fn checked_evaluate_refuses_an_overflow() {
    let max = isize::MAX;
    assert_eq!(node(lit(max), Operator::Add, lit(1)).checked_evaluate(), None);
    assert_eq!(node(lit(max), Operator::Times, lit(2)).checked_evaluate(), None);
    assert_eq!(node(lit(isize::MIN), Operator::Sub, lit(1)).checked_evaluate(), None);
    assert_eq!(node(lit(isize::MIN), Operator::Div, lit(-1)).checked_evaluate(), None);
    // an intermediate result that does not fit is refused, though the end would
    assert_eq!(
        node(node(lit(max), Operator::Add, lit(1)), Operator::Sub, lit(1)).checked_evaluate(),
        None
    );
    assert_eq!(
        node(lit(max), Operator::Add, node(lit(1), Operator::Sub, lit(1))).checked_evaluate(),
        Some(max)
    );
}

#[test]
fn checked_evaluate_agrees_with_evaluate() {
    for text in ["4", "4 + 3", "2 + 3 * 4", "5 - (-5 ) * 2", "2 * 3 + 4 - (3 - 6 * 2) * (4 + 3)"] {
        let tree = Calculation::from_str(text).unwrap();
        assert_eq!(tree.checked_evaluate(), Some(tree.evaluate()));
    }
}
