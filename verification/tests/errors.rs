use equation_parser::error::{
    BadOperatorError, InvalidFormulaError, ParseError, ParseErrorKind,
};

#[test]
fn invalid_formula_error_keeps_the_tail() {
    let error = InvalidFormulaError::new(String::from(") + 1"));
    assert_eq!(error.failed_tail, ") + 1");
    assert_eq!(error.to_string(), "failed formula tail=) + 1");
    assert_eq!(InvalidFormulaError::new(String::new()).to_string(), "failed formula tail=");
}

#[test]
fn invalid_formula_error_from_a_parse_error() {
    let error = InvalidFormulaError::from(ParseError { kind: ParseErrorKind::Malformed, tail: "x 3" });
    assert_eq!(error.failed_tail, "x 3");
    let error = InvalidFormulaError::from(ParseError { kind: ParseErrorKind::OutOfRange, tail: "" });
    assert_eq!(error.failed_tail, "");
}

#[test]
fn bad_operator_error_keeps_the_message() {
    assert_eq!(BadOperatorError::new(String::from("%")).to_string(), "%");
    assert_eq!(BadOperatorError::new(String::new()).to_string(), "");
}
