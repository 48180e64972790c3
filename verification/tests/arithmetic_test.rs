use equaio::arithmetic;
use equaio::arithmetic::ArithmeticErrorKind;
use equaio::arithmetic::ArithmeticOperator;
use equaio::arithmetic::Calculation;
use equaio::expression::Address;
use equaio::expression::Expression;
use equaio::parser::parser_prefix;
use equaio::text_map::TextMap;

fn strings(items: &[&str]) -> Vec<String> {
    items.iter().map(|s| s.to_string()).collect()
}

fn address(path: &[usize]) -> Address {
    Address::new(path.to_vec(), None)
}

/// Carries out a computation with floating-point numbers.
fn evaluate(calculation: &Calculation) -> String {
    let values: Vec<f64> = calculation
        .operands
        .iter()
        .map(|operand| {
            let value: f64 = operand.numeral.parse().unwrap();
            if operand.negated {
                -value
            } else {
                value
            }
        })
        .collect();
    let value: f64 = match calculation.operator {
        ArithmeticOperator::Add => values[0] + values[1],
        ArithmeticOperator::Sub => values[0] - values[1],
        ArithmeticOperator::Mul => values[0] * values[1],
        ArithmeticOperator::Div => values[0] / values[1],
        ArithmeticOperator::Negative => -values[0],
        ArithmeticOperator::AddTrain => values.iter().sum(),
        ArithmeticOperator::MulTrain => values.iter().product(),
    };
    format!("{}", value)
}

/// The value of the computation at `addr`, empty where there is none.
fn value_at(expr: &Expression, addr: &Address) -> String {
    match expr.simple_calculation_at(addr) {
        Ok(calculation) => evaluate(&calculation),
        Err(_) => String::new(),
    }
}

/// The quotient of two numerals.
fn divide(numerator: &str, denominator: &str) -> String {
    let n: f64 = numerator.parse().unwrap();
    let d: f64 = denominator.parse().unwrap();
    format!("{}", n / d)
}

/// The quotient of the two factors chosen in the quotient at `addr`, empty
/// where there are none.
fn quotient_at(expr: &Expression, numerator_id: usize, denominator_id: usize, addr: &Address) -> String {
    match expr.at(addr) {
        Ok(node) => match node.fraction_operands(numerator_id, denominator_id) {
            Ok((n, d)) => divide(&n.symbol, &d.symbol),
            Err(_) => String::new(),
        },
        Err(_) => String::new(),
    }
}

#[test]
fn addition_train() {
    let ctx = arithmetic::get_arithmetic_ctx();
    let expr = parser_prefix::to_expression("+(1,2,3,4)", &ctx).unwrap();
    assert!(match expr.identify_arithmetic_operator() {
        Some(arithmetic::ArithmeticOperator::AddTrain) => true,
        _ => false,
    });
    let calculation = expr.simple_calculation().unwrap();
    assert_eq!(calculation.operator, ArithmeticOperator::AddTrain);
    let numerals: Vec<&str> = calculation.operands.iter().map(|o| o.numeral.as_str()).collect();
    assert_eq!(numerals, vec!["1", "2", "3", "4"]);
    let value: f64 = evaluate(&calculation).parse().unwrap();
    assert_eq!(value, 10.0);
}

#[test]
fn arithmetic_test_simple_equation() {
    let ctx = arithmetic::get_arithmetic_ctx();
    let expr = parser_prefix::to_expression("+(1,2)", &ctx).unwrap();
    let value = evaluate(&expr.simple_calculation().unwrap());
    let eq = expr.generate_simple_arithmetic_equation(&value).unwrap();
    assert_eq!(eq.clone().children.unwrap()[1].symbol, "3");
    assert_eq!(eq.to_string(true), "((1 + 2) = 3)");
}

#[test]
fn generate_from_simple_address() {
    let ctx = arithmetic::get_arithmetic_ctx();
    let expr = parser_prefix::to_expression("*(+(1,2),3)", &ctx).unwrap();
    let addr = address(&[0]);
    let eq = expr.generate_simple_artithmetic_equation_at(&addr, &value_at(&expr, &addr)).unwrap();
    assert_eq!(eq.to_string(true), "((1 + 2) = 3)");
}

#[test]
fn generate_from_train() {
    let ctx = arithmetic::get_arithmetic_ctx();
    let expr = parser_prefix::to_expression("*(+(1,2,3,4,5),3)", &ctx).unwrap();
    let addr = address(&[0]).sub(2);
    let eq = expr.generate_simple_artithmetic_equation_at(&addr, &value_at(&expr, &addr)).unwrap();
    assert_eq!(eq.to_string(true), "((3 + 4) = 7)");
}

/// The negation of every numeral that stands under a unary minus.
fn negations(expr: &Expression) -> TextMap<String> {
    let mut map = TextMap::new();
    for numeral in expr.negated_numerals() {
        let value: f64 = numeral.parse().unwrap();
        map.insert(numeral, format!("{}", -value));
    }
    map
}

#[test]
fn negative() {
    let ctx = arithmetic::get_arithmetic_ctx();
    let expr = parser_prefix::to_expression("+(-(-(1),0),+(-(2),3))", &ctx).unwrap();
    assert_eq!(expr.negated_numerals(), vec!["1".to_string(), "2".to_string()]);
    let normalized_expr = expr.normalize_handle_negative_unary_on_numerics(&negations(&expr));
    assert_eq!(normalized_expr.at(&address(&[0, 0])).unwrap().symbol, "-1");
    assert_eq!(normalized_expr.at(&address(&[1, 0])).unwrap().symbol, "-2");
    assert_eq!(expr.to_string(true), "(((-1) - 0) + ((-2) + 3))");
    assert_eq!(normalized_expr.to_string(true), "((-1 - 0) + (-2 + 3))");
    // a negation whose numeral is not given stays
    assert_eq!(expr.normalize_handle_negative_unary_on_numerics(&TextMap::new()), expr);
}

#[test]
fn arithmetic_test_simple() {
    let ctx = arithmetic::get_arithmetic_ctx();
    let expr = parser_prefix::to_expression("+(+(1,2),3)", &ctx).unwrap();

    let action_addr = address(&[0]);
    let equation =
        expr.generate_simple_artithmetic_equation_at(&action_addr, &value_at(&expr, &action_addr)).unwrap();
    assert_eq!(equation.to_string(true), "((1 + 2) = 3)");
    let expr = expr.apply_equation_at(&equation, &action_addr).unwrap();
    assert_eq!(expr.to_string(true), "(3 + 3)");

    let action_addr = address(&[]);
    let equation =
        expr.generate_simple_artithmetic_equation_at(&action_addr, &value_at(&expr, &action_addr)).unwrap();
    assert_eq!(equation.to_string(true), "((3 + 3) = 6)");
    let expr = expr.apply_equation_at(&equation, &action_addr).unwrap();
    assert_eq!(expr.to_string(true), "6");
}

#[test]
fn arithmetic_test_on_train() {
    let ctx = arithmetic::get_arithmetic_ctx();
    let expr = parser_prefix::to_expression("+(1,2,3)", &ctx).unwrap();

    let action_addr = address(&[]).sub(0);
    let equation =
        expr.generate_simple_artithmetic_equation_at(&action_addr, &value_at(&expr, &action_addr)).unwrap();
    assert_eq!(equation.to_string(true), "((1 + 2) = 3)");
    let expr = expr.apply_equation_at(&equation, &action_addr).unwrap();
    assert_eq!(expr.to_string(true), "(3 + 3)");

    let action_addr = address(&[]);
    let equation =
        expr.generate_simple_artithmetic_equation_at(&action_addr, &value_at(&expr, &action_addr)).unwrap();
    assert_eq!(equation.to_string(true), "((3 + 3) = 6)");
    let expr = expr.apply_equation_at(&equation, &action_addr).unwrap();
    assert_eq!(expr.to_string(true), "6");
}

#[test]
fn negated_operands_are_marked() {
    let ctx = arithmetic::get_arithmetic_ctx();
    let expr = parser_prefix::to_expression("+(-(2),3)", &ctx).unwrap();
    let calculation = expr.simple_calculation().unwrap();
    assert_eq!(calculation.operator, ArithmeticOperator::Add);
    assert_eq!(calculation.operands[0].numeral, "2");
    assert!(calculation.operands[0].negated);
    assert!(!calculation.operands[1].negated);
    assert_eq!(evaluate(&calculation), "1");
    assert_eq!(divide("1", "4"), "0.25");
    assert_eq!(quotient_at(&expr, 0, 0, &address(&[])), "");
}

#[test]
fn what_is_not_a_calculation() {
    let ctx = arithmetic::get_arithmetic_ctx();
    let not_numeric = parser_prefix::to_expression("+(x,3)", &ctx).unwrap();
    assert_eq!(not_numeric.simple_calculation().unwrap_err().kind(), ArithmeticErrorKind::NotNumeric);
    let negation = parser_prefix::to_expression("-(3)", &ctx).unwrap();
    assert_eq!(negation.simple_calculation().unwrap_err().kind(), ArithmeticErrorKind::NotNumeric);
    let function = parser_prefix::to_expression("f(1,2,3)", &ctx).unwrap();
    assert_eq!(function.simple_calculation().unwrap_err().kind(), ArithmeticErrorKind::CalculationError);
    let train = parser_prefix::to_expression("f(+(1,2,3))", &ctx).unwrap();
    assert_eq!(
        train.simple_calculation_at(&address(&[0]).sub(2)).unwrap_err().kind(),
        ArithmeticErrorKind::ExpressionErr(equaio::expression::ErrorKind::InvalidAddress)
    );
    assert_eq!(
        function.simple_calculation_at(&address(&[]).sub(0)).unwrap_err().kind(),
        ArithmeticErrorKind::NotAnArithmeticTrainOperator
    );
}

#[test]
fn numerals_and_integers() {
    let ctx = arithmetic::get_arithmetic_ctx();
    for text in ["1", "-1", "+1.5", "1.", ".5", "1e3", "1E-3", "inf", "-Infinity", "NaN", "007"] {
        let e = parser_prefix::to_expression(text, &ctx).unwrap();
        assert!(e.is_numeric(), "{} is a numeral", text);
    }
    for text in ["", ".", "e3", "1e", "1e+", "x", "1x", "--1", "in", "1_000", "0x10"] {
        assert!(!equaio::utils::is_number(text), "{} is no numeral", text);
    }
    assert!(parser_prefix::to_expression("42", &ctx).unwrap().is_integer());
    assert!(parser_prefix::to_expression("-9223372036854775808", &ctx).unwrap().is_integer());
    assert!(!parser_prefix::to_expression("9223372036854775808", &ctx).unwrap().is_integer());
    assert!(!parser_prefix::to_expression("1.5", &ctx).unwrap().is_integer());
    assert_eq!(equaio::utils::parse_i64("+17"), Some(17));
    assert_eq!(equaio::utils::parse_i64("-17"), Some(-17));
    assert_eq!(equaio::utils::parse_i64("1 7"), None);
}

#[test]
fn subtraction_and_negation_forms() {
    let ctx = arithmetic::get_arithmetic_ctx();
    let expr = parser_prefix::to_expression("-(-(a,b),c)", &ctx).unwrap();
    let sums = expr.normalize_sub_to_negative();
    assert_eq!(sums.to_string(true), "((a + (-b)) + (-c))");
    let back = sums.normalize_add_negative_to_sub();
    assert_eq!(back.to_string(true), "((a - b) - c)");
    assert_eq!(back, expr);
    let nested = parser_prefix::to_expression("+(+(a,-(b)),-(+(c,-(d))))", &ctx).unwrap();
    assert_eq!(nested.normalize_add_negative_to_sub().to_string(true), "((a - b) - (c - d))");
    assert_eq!(back.normalize_add_negative_to_sub(), back);
    assert_eq!(ArithmeticOperator::AddTrain.inverse(), ArithmeticOperator::Sub);
    assert_eq!(ArithmeticOperator::Div.inverse(), ArithmeticOperator::Mul);
    assert_eq!(ArithmeticOperator::Negative.as_str(), "-");
}
