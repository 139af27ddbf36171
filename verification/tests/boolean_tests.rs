use rxscan::parser::{BooleanEvaluator, BooleanParser};

#[test]
fn eval_literals() {
    assert_eq!(BooleanEvaluator::eval("true"), Ok(true));
    assert_eq!(BooleanEvaluator::eval("false"), Ok(false));
}

#[test]
fn eval_and_binds_tighter_than_or() {
    assert_eq!(BooleanEvaluator::eval("true || false && false"), Ok(true));
    assert_eq!(BooleanEvaluator::eval("(true || false) && false"), Ok(false));
}

#[test]
fn eval_not_and_parentheses() {
    assert_eq!(BooleanEvaluator::eval("!true"), Ok(false));
    assert_eq!(BooleanEvaluator::eval("! (false || false)"), Ok(true));
    assert_eq!(BooleanEvaluator::eval("!!true"), Ok(true));
    assert_eq!(BooleanEvaluator::eval("(true)&&(true)"), Ok(true));
    assert_eq!(BooleanEvaluator::eval("(false)||(true)"), Ok(true));
}

#[test]
fn eval_blanks_around_tokens() {
    assert_eq!(BooleanEvaluator::eval("  ( true\t&&\ntrue )  "), Ok(true));
}

#[test]
fn eval_syntax_errors() {
    for bad in ["", "truefalse", "true &", "true | false", "(true", "true)", "tru", "x", "true &&"] {
        let r = BooleanEvaluator::eval(bad);
        assert!(r.is_err(), "{:?}", bad);
        assert!(r.unwrap_err().starts_with("语法错误: "));
    }
}

#[test]
fn parser_on_chars() {
    let chars: Vec<char> = "false || !false".chars().collect();
    assert_eq!(BooleanParser::parse(&chars), Some(true));
    let chars: Vec<char> = "false ||".chars().collect();
    assert_eq!(BooleanParser::parse(&chars), None);
}

#[test]
fn eval_parenthesised_operands_with_spaces() {
    let a = "true || false";
    let b = "!true";
    assert_eq!(BooleanEvaluator::eval(&format!("({}) && ({})", a, b)), Ok(false));
    assert_eq!(BooleanEvaluator::eval(&format!("({}) || ({})", a, b)), Ok(true));
}
