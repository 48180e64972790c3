use equaio::algebra::AlgebraCtxFlags;
use equaio::algebra::AlgebraError;
use equaio::arithmetic::ArithmeticError;
use equaio::expression::ErrorKind;
use equaio::expression::ExpressionError;
use equaio::algebra::AlgebraErrorKind;
use equaio::arithmetic;
use equaio::arithmetic::ArithmeticErrorKind;
use equaio::arithmetic::ArithmeticOperator;
use equaio::arithmetic::Calculation;
use equaio::expression::expression_builder as eb;
use equaio::expression::Address;
use equaio::expression::Expression;
use equaio::parser::parser;
use equaio::parser::parser_prefix;
use equaio::rule::ruleset::ruleset_from_json;
use equaio::rule::ruleset::ContextJSON;
use equaio::rule::ruleset::RuleJSON;
use equaio::rule::ruleset::RulesetJSON;
use equaio::rule::ruleset::RulesetVariationJSON;
use equaio::rule::RuleMap;

fn strings(items: &[&str]) -> Vec<String> {
    items.iter().map(|s| s.to_string()).collect()
}

fn address(path: &[usize]) -> Address {
    Address::new(path.to_vec(), None)
}

/// Carries out a computation with floating-point numbers.
fn evaluate(calculation: &Calculation) -> String {
    let values: Vec<f64> = calculation
        .operands
        .iter()
        .map(|operand| {
            let value: f64 = operand.numeral.parse().unwrap();
            if operand.negated {
                -value
            } else {
                value
            }
        })
        .collect();
    let value: f64 = match calculation.operator {
        ArithmeticOperator::Add => values[0] + values[1],
        ArithmeticOperator::Sub => values[0] - values[1],
        ArithmeticOperator::Mul => values[0] * values[1],
        ArithmeticOperator::Div => values[0] / values[1],
        ArithmeticOperator::Negative => -values[0],
        ArithmeticOperator::AddTrain => values.iter().sum(),
        ArithmeticOperator::MulTrain => values.iter().product(),
    };
    format!("{}", value)
}

/// The value of the computation at `addr`, empty where there is none.
fn value_at(expr: &Expression, addr: &Address) -> String {
    match expr.simple_calculation_at(addr) {
        Ok(calculation) => evaluate(&calculation),
        Err(_) => String::new(),
    }
}

/// The quotient of two numerals.
fn divide(numerator: &str, denominator: &str) -> String {
    let n: f64 = numerator.parse().unwrap();
    let d: f64 = denominator.parse().unwrap();
    format!("{}", n / d)
}

/// The quotient of the two factors chosen in the quotient at `addr`, empty
/// where there are none.
fn quotient_at(expr: &Expression, numerator_id: usize, denominator_id: usize, addr: &Address) -> String {
    match expr.at(addr) {
        Ok(node) => match node.fraction_operands(numerator_id, denominator_id) {
            Ok((n, d)) => divide(&n.symbol, &d.symbol),
            Err(_) => String::new(),
        },
        Err(_) => String::new(),
    }
}

fn variation(expr: &str) -> RulesetVariationJSON {
    RulesetVariationJSON { expr_prefix: None, expr: Some(expr.to_string()) }
}

fn variation_prefix(expr_prefix: &str) -> RulesetVariationJSON {
    RulesetVariationJSON { expr_prefix: Some(expr_prefix.to_string()), expr: None }
}

fn rule_json(id: &str, label: Option<&str>, expr: &str) -> RuleJSON {
    RuleJSON {
        id: id.to_string(),
        label: label.map(|l| l.to_string()),
        expr_prefix: None,
        expr: Some(expr.to_string()),
        variations: None,
        auto: None,
    }
}

fn rule_json_prefix(id: &str, label: Option<&str>, expr_prefix: &str) -> RuleJSON {
    RuleJSON {
        id: id.to_string(),
        label: label.map(|l| l.to_string()),
        expr_prefix: Some(expr_prefix.to_string()),
        expr: None,
        variations: None,
        auto: None,
    }
}

fn arithmetic_base() -> ContextJSON {
    ContextJSON {
        base: Some("arithmetic".to_string()),
        parameters: None,
        unary_ops: None,
        binary_ops: None,
        assoc_ops: None,
        handle_numerics: None,
        flags: None,
    }
}

fn fixed(mut rule: RuleJSON) -> RuleJSON {
    rule.variations = Some(vec![]);
    rule
}

fn automatic(mut rule: RuleJSON, auto: bool) -> RuleJSON {
    if auto {
        rule.auto = Some(true);
    }
    rule
}

/// The rules of algebra: commutative variations of each rule unless the rule
/// is fixed; with `auto_simplify` the simplifying rules are applied
/// automatically.
fn algebra_description(auto_simplify: bool) -> RulesetJSON {
    RulesetJSON {
        name: "algebra".to_string(),
        context: Some(arithmetic_base()),
        variations: Some(vec![variation("A + B = B + A"), variation("A * B = B * A")]),
        normalization: None,
        rules: vec![
            automatic(rule_json("add_zero", Some("Addition with 0"), "X + 0 = X"), auto_simplify),
            automatic(rule_json("mul_one", Some("Multiplication with 1"), "X * 1 = X"), auto_simplify),
            automatic(rule_json("mul_zero", Some("Multiplication with 0"), "X * 0 = 0"), auto_simplify),
            automatic(rule_json("sub_zero", Some("Subtraction by 0"), "X - 0 = X"), auto_simplify),
            automatic(rule_json("div_one", Some("Division by 1"), "X / 1 = X"), auto_simplify),
            automatic(rule_json("sub_self", Some("Self subtraction"), "X - X = 0"), auto_simplify),
            automatic(
                rule_json_prefix("add_negative_self", Some("Self subtraction"), "=(+(X,-(X)),0)"),
                auto_simplify,
            ),
            fixed(rule_json_prefix(
                "factor_out_minus_right",
                Some("Factor out the minus sign"),
                "=(*(X,-(Y)),-(*(X,Y)))",
            )),
            fixed(rule_json_prefix(
                "factor_out_minus_left",
                Some("Factor out the minus sign"),
                "=(*(-(X),Y),-(*(X,Y)))",
            )),
            rule_json("add_self", Some("Self addition"), "X + X = 2 * X"),
            rule_json_prefix("distribution", Some("Distribution"), "=(*(X,+(...(A))),+(...(*(X,A))))"),
            fixed(rule_json_prefix(
                "factor_out_left",
                Some("Factoring Out"),
                "=(+(...(*(X,A))),*(X,+(...(A))))",
            )),
            fixed(rule_json_prefix(
                "factor_out_right",
                Some("Factoring Out"),
                "=(+(...(*(A,X))),*(+(...(A)),X))",
            )),
        ],
    }
}

fn get_algebra_rules() -> RuleMap {
    ruleset_from_json(algebra_description(false)).unwrap().get_rule_map()
}

/// Replaces what stands at `addr` by its value and brings the result to
/// normal form.
fn calculated(expr: &Expression, addr: &Address, ctx: &equaio::expression::Context) -> Expression {
    expr.apply_simple_arithmetic_equation_at(addr, &value_at(expr, addr)).unwrap().normalize_algebra(ctx)
}

/// Cancels two factors of the quotient at `addr` and brings the result to
/// normal form.
fn cancelled(
    expr: &Expression,
    numerator_id: usize,
    denominator_id: usize,
    addr: &Address,
    ctx: &equaio::expression::Context,
) -> Expression {
    let quotient = quotient_at(expr, numerator_id, denominator_id, addr);
    expr.apply_fraction_arithmetic_at(numerator_id, denominator_id, addr, &quotient).unwrap().normalize_algebra(ctx)
}

#[test]
fn simple_expression() {
    let ctx = arithmetic::get_arithmetic_ctx().add_params(strings(&["x"]));
    let expr = parser_prefix::to_expression("+(-(x,1),2)", &ctx).unwrap();
    let normalized_expr = expr.normalize_algebra(&ctx);
    let target_expr = parser_prefix::to_expression("+(x,-(1),2)", &ctx).unwrap();
    assert_eq!(normalized_expr, target_expr);
}

#[test]
fn simplification_one_and_zero() {
    let ctx = arithmetic::get_arithmetic_ctx()
        .add_params(strings(&["x"]))
        .add_flag(AlgebraCtxFlags::SimplifyOneAndZero.as_str());
    let expr = parser_prefix::to_expression("*(-(x,0),1)", &ctx).unwrap();
    let normalized_expr = expr.normalize_simplify_one_and_zero(&ctx);
    let target_expr = parser_prefix::to_expression("x", &ctx).unwrap();
    assert_eq!(normalized_expr, target_expr);

    let expr = parser_prefix::to_expression("-(-(x,0),0)", &ctx).unwrap();
    let normalized_expr = expr.normalize_simplify_one_and_zero(&ctx);
    let target_expr = parser_prefix::to_expression("x", &ctx).unwrap();
    assert_eq!(normalized_expr, target_expr);

    // (1/1 + 0)*(x - 0)
    let expr = parser_prefix::to_expression("*(+(/(1,1),0),-(x,0))", &ctx).unwrap();
    let normalized_expr = expr.normalize_simplify_one_and_zero(&ctx);
    let target_expr = parser_prefix::to_expression("x", &ctx).unwrap();
    assert_eq!(normalized_expr, target_expr);
}

#[test]
fn double_minus() {
    let ctx = arithmetic::get_arithmetic_ctx().add_params(strings(&["x", "y"]));
    let expr = parser::to_expression("(x - y) - y", &ctx).unwrap();
    let normalized_expr = expr.normalize_algebra(&ctx);
    let target_expr = parser_prefix::to_expression("+(x,-(y),-(y))", &ctx).unwrap();
    assert_eq!(normalized_expr.to_string(true), target_expr.to_string(true));
}

#[test]
fn simple_function() {
    let ctx = arithmetic::get_arithmetic_ctx();
    let expr = parser_prefix::to_expression("f(2)", &ctx).unwrap();
    let function_expr = parser_prefix::to_expression("=(f(X), +(X,3))", &ctx).unwrap();
    assert_eq!(function_expr.to_string(true), "(f(X) = (X + 3))");
    let expr = expr.apply_equation_at(&function_expr, &address(&[])).unwrap();
    assert_eq!(expr.to_string(true), "(2 + 3)");
    let equation =
        expr.generate_simple_artithmetic_equation_at(&address(&[]), &value_at(&expr, &address(&[]))).unwrap();
    let expr = expr.apply_equation_at(&equation, &address(&[])).unwrap();
    assert_eq!(expr.to_string(true), "5");
}

#[test]
fn apply_function_to_both_side() {
    let ctx = arithmetic::get_arithmetic_ctx().add_params(strings(&["x", "y"]));
    let expr = parser_prefix::to_expression("=(x,y)", &ctx).unwrap();
    let function_expr = parser_prefix::to_expression("=(_(X),+(X,1))", &ctx).unwrap();
    assert!(function_expr.is_function());
    assert_eq!(function_expr.to_string(true), "(_(X) = (X + 1))");

    let new_expr = expr.apply_function_to_both_side(function_expr).unwrap();
    assert_eq!(new_expr.to_string(true), "((x + 1) = (y + 1))");
}

#[test]
fn apply_algebra_to_both_side() {
    let ctx = arithmetic::get_arithmetic_ctx().add_params(strings(&["x", "y"]));
    let expr = parser_prefix::to_expression("=(x,y)", &ctx).unwrap();
    let new_expr = expr.apply_simple_arithmetic_to_both_side(&ArithmeticOperator::Add, &eb::constant("1")).unwrap();
    let target_expr = parser_prefix::to_expression("=(+(x,1),+(y,1))", &ctx).unwrap();
    assert_eq!(new_expr.to_string(true), target_expr.to_string(true));
}

#[test]
fn simple_division() {
    let ctx = arithmetic::get_arithmetic_ctx().add_params(strings(&["x"]));
    let expr = parser_prefix::to_expression("/(*(4,5,6),*(1,2,3))", &ctx).unwrap();
    let quotient = quotient_at(&expr, 0, 1, &address(&[]));
    let new_expr = expr.apply_fraction_arithmetic(0, 1, &quotient).unwrap();
    let target_expr = parser_prefix::to_expression("/(*(2,5,6),*(1,1,3))", &ctx).unwrap();
    assert_eq!(new_expr.to_string(true), target_expr.to_string(true));
}

#[test]
fn question1() {
    let ctx = arithmetic::get_arithmetic_ctx().add_params(strings(&["x"]));

    let x_plus_zero = parser_prefix::to_expression("=(+(X,0),X)", &ctx).unwrap();
    let x_div_one = parser_prefix::to_expression("=(/(X,1),X)", &ctx).unwrap();
    let one_times_x = parser_prefix::to_expression("=(*(1,X),X)", &ctx).unwrap();
    let algebra_rules = get_algebra_rules();
    assert_eq!(algebra_rules.get("algebra/add_zero/0").unwrap().expression, x_plus_zero);
    assert_eq!(algebra_rules.get("algebra/div_one").unwrap().expression, x_div_one);
    assert_eq!(algebra_rules.get("algebra/mul_one/1").unwrap().expression, one_times_x);

    // 2*x - 1 = 3
    let expr = parser_prefix::to_expression("=(-(*(2,x),1),3)", &ctx).unwrap();
    assert_eq!(expr.to_string(true), "(((2 * x) - 1) = 3)");
    // add 1 to both side
    let add1_fn = parser_prefix::to_expression("=(_(X),+(X,1))", &ctx).unwrap();
    let expr = expr.apply_function_to_both_side(add1_fn).unwrap().normalize_algebra(&ctx);
    assert_eq!(expr.to_string(true), "(((2 * x) + (-1) + 1) = (3 + 1))");
    let expr = calculated(&expr, &address(&[1]), &ctx);
    assert_eq!(expr.to_string(true), "(((2 * x) + (-1) + 1) = 4)");
    let expr = calculated(&expr, &address(&[0]).sub(1), &ctx);
    assert_eq!(expr.to_string(true), "(((2 * x) + 0) = 4)");
    let expr = expr.apply_equation_at(&x_plus_zero, &address(&[0])).unwrap().normalize_algebra(&ctx);
    assert_eq!(expr.to_string(true), "((2 * x) = 4)");
    let div2_fn = parser_prefix::to_expression("=(_(X),/(X,2))", &ctx).unwrap();
    let expr = expr.apply_function_to_both_side(div2_fn).unwrap().normalize_algebra(&ctx);
    assert_eq!(expr.to_string(true), "(((2 * x) / 2) = (4 / 2))");
    let expr = calculated(&expr, &address(&[1]), &ctx);
    assert_eq!(expr.to_string(true), "(((2 * x) / 2) = 2)");
    let expr = cancelled(&expr, 0, 0, &address(&[0]), &ctx);
    assert_eq!(expr.to_string(true), "(((1 * x) / 1) = 2)");
    let expr = expr.apply_equation_at(&x_div_one, &address(&[0])).unwrap().normalize_algebra(&ctx);
    assert_eq!(expr.to_string(true), "((1 * x) = 2)");
    let expr = expr.apply_equation_at(&one_times_x, &address(&[0])).unwrap().normalize_algebra(&ctx);
    assert_eq!(expr.to_string(true), "(x = 2)");
}

#[test]
fn question2() {
    let ctx = arithmetic::get_arithmetic_ctx()
        .add_params(strings(&["x"]))
        .add_flag(AlgebraCtxFlags::SimplifyOneAndZero.as_str());
    let algebra_rules = get_algebra_rules();

    // x = 4 - x
    let expr = parser_prefix::to_expression("=(x,-(4,x))", &ctx).unwrap();
    assert_eq!(expr.to_string(true), "(x = (4 - x))");
    let func = parser_prefix::to_expression("=(_(X),+(X,x))", &ctx).unwrap();
    let expr = expr.apply_function_to_both_side(func).unwrap().normalize_algebra(&ctx);
    assert_eq!(expr.to_string(true), "((x + x) = (4 + (-x) + x))");
    let rule_eq = &algebra_rules.get("algebra/add_negative_self/1").unwrap().expression;
    let expr = expr.apply_equation_at(rule_eq, &address(&[1]).sub(1)).unwrap().normalize_algebra(&ctx);
    assert_eq!(expr.to_string(true), "((x + x) = 4)");
    let rule_eq = &algebra_rules.get("algebra/add_self").unwrap().expression;
    let expr = expr.apply_equation_at(rule_eq, &address(&[0])).unwrap().normalize_algebra(&ctx);
    assert_eq!(expr.to_string(true), "((2 * x) = 4)");
    let func = parser_prefix::to_expression("=(_(X),/(X,2))", &ctx).unwrap();
    let expr = expr.apply_function_to_both_side(func).unwrap().normalize_algebra(&ctx);
    assert_eq!(expr.to_string(true), "(((2 * x) / 2) = (4 / 2))");
    let expr = calculated(&expr, &address(&[1]), &ctx);
    assert_eq!(expr.to_string(true), "(((2 * x) / 2) = 2)");
    let expr = cancelled(&expr, 0, 0, &address(&[0]), &ctx);
    assert_eq!(expr.to_string(true), "(x = 2)");
}

#[test]
fn question3() {
    let ctx = arithmetic::get_arithmetic_ctx()
        .add_params(strings(&["x"]))
        .add_flag(AlgebraCtxFlags::SimplifyOneAndZero.as_str());
    let algebra_rules = get_algebra_rules();

    // 4x - 4 = 2 - 3x
    let expr = parser_prefix::to_expression("=(-(*(4,x),4),-(2,*(3,x)))", &ctx).unwrap();
    assert_eq!(expr.to_string(true), "(((4 * x) - 4) = (2 - (3 * x)))");
    let func = parser_prefix::to_expression("=(_(X),+(X,*(3,x)))", &ctx).unwrap();
    let expr = expr.apply_function_to_both_side(func).unwrap().normalize_algebra(&ctx);
    assert_eq!(expr.to_string(true), "(((4 * x) + (-4) + (3 * x)) = (2 + (-(3 * x)) + (3 * x)))");
    let rule_eq = &algebra_rules.get("algebra/add_negative_self/1").unwrap().expression;
    let expr = expr.apply_equation_at(rule_eq, &address(&[1]).sub(1)).unwrap().normalize_algebra(&ctx);
    assert_eq!(expr.to_string(true), "(((4 * x) + (-4) + (3 * x)) = 2)");
    let func = parser_prefix::to_expression("=(_(X),+(X,4))", &ctx).unwrap();
    let expr = expr.apply_function_to_both_side(func).unwrap().normalize_algebra(&ctx);
    assert_eq!(expr.to_string(true), "(((4 * x) + (-4) + (3 * x) + 4) = (2 + 4))");
    let expr = calculated(&expr, &address(&[1]), &ctx);
    assert_eq!(expr.to_string(true), "(((4 * x) + (-4) + (3 * x) + 4) = 6)");
    let expr = expr.swap_assoc_train_children_at(1, 2, &address(&[0])).unwrap().normalize_algebra(&ctx);
    assert_eq!(expr.to_string(true), "(((4 * x) + (3 * x) + (-4) + 4) = 6)");
    let expr = calculated(&expr, &address(&[0]).sub(2), &ctx);
    assert_eq!(expr.to_string(true), "(((4 * x) + (3 * x)) = 6)");
    // a variable that a variadic pattern repeats is bound once for each
    // repetition, so the variadic rule leaves the common factor unbound
    let variadic = &algebra_rules.get("algebra/factor_out_right").unwrap().expression;
    let unbound = expr.apply_equation_at(variadic, &address(&[0])).unwrap();
    assert_eq!(unbound.to_string(true), "(((4 + 3) * X) = 6)");
    // factoring out, written for the two terms of the train
    let rule_eq = parser_prefix::to_expression("=(+(*(A,X),*(B,X)),*(+(A,B),X))", &ctx).unwrap();
    let expr = expr.apply_equation_at(&rule_eq, &address(&[0]).sub(0)).unwrap().normalize_algebra(&ctx);
    assert_eq!(expr.to_string(true), "(((4 + 3) * x) = 6)");
    let expr = calculated(&expr, &address(&[0, 0]), &ctx);
    assert_eq!(expr.to_string(true), "((7 * x) = 6)");
    let func = parser_prefix::to_expression("=(_(X),/(X,7))", &ctx).unwrap();
    let expr = expr.apply_function_to_both_side(func).unwrap().normalize_algebra(&ctx);
    assert_eq!(expr.to_string(true), "(((7 * x) / 7) = (6 / 7))");
    let expr = cancelled(&expr, 0, 0, &address(&[0]), &ctx);
    assert_eq!(expr.to_string(true), "(x = (6 / 7))");
}

#[test]
fn fraction_errors() {
    let ctx = arithmetic::get_arithmetic_ctx().add_params(strings(&["x"]));
    let sum = parser_prefix::to_expression("+(1,2)", &ctx).unwrap();
    assert_eq!(sum.apply_fraction_arithmetic(0, 0, "").unwrap_err().kind(), AlgebraErrorKind::NotAFraction);
    let fraction = parser_prefix::to_expression("/(*(4,x),*(0,3))", &ctx).unwrap();
    assert_eq!(
        fraction.apply_fraction_arithmetic(5, 0, "").unwrap_err().kind(),
        AlgebraErrorKind::ExpressionErr(equaio::expression::ErrorKind::InvalidAddress)
    );
    assert_eq!(
        fraction.apply_fraction_arithmetic(1, 0, "").unwrap_err().kind(),
        AlgebraErrorKind::ArithmeticErr(ArithmeticErrorKind::NotNumeric)
    );
    let zeros = parser_prefix::to_expression("/(0,0)", &ctx).unwrap();
    assert_eq!(
        zeros.apply_fraction_arithmetic(0, 0, "").unwrap_err().kind(),
        AlgebraErrorKind::ArithmeticErr(ArithmeticErrorKind::CalculationError)
    );
    let halves = parser_prefix::to_expression("/(1.5,3)", &ctx).unwrap();
    let quotient = quotient_at(&halves, 0, 0, &address(&[]));
    assert_eq!(quotient, "0.5");
    assert_eq!(halves.apply_fraction_arithmetic(0, 0, &quotient).unwrap().to_string(true), "((0.5) / (1))");
    let negative = parser_prefix::to_expression("/(-6,4)", &ctx).unwrap();
    assert_eq!(negative.apply_fraction_arithmetic(0, 0, "").unwrap().to_string(true), "((3) / (-2))");
}

#[test]
fn errors_are_taken_over() {
    let arithmetic: ArithmeticError = ExpressionError::InvalidAddress.into();
    assert_eq!(arithmetic.kind(), ArithmeticErrorKind::ExpressionErr(ErrorKind::InvalidAddress));
    let algebra: AlgebraError = arithmetic.into();
    assert_eq!(algebra.kind(), AlgebraErrorKind::ExpressionErr(ErrorKind::InvalidAddress));
    let algebra: AlgebraError = ArithmeticError::NotNumeric.into();
    assert_eq!(algebra.kind(), AlgebraErrorKind::ArithmeticErr(ArithmeticErrorKind::NotNumeric));
    let algebra: AlgebraError = ExpressionError::NotAnEquation.into();
    assert_eq!(algebra.kind(), AlgebraErrorKind::ExpressionErr(ErrorKind::NotAnEquation));
}

#[test]
fn function_errors() {
    let ctx = arithmetic::get_arithmetic_ctx().add_params(strings(&["x", "y"]));
    let equation = parser_prefix::to_expression("=(x,y)", &ctx).unwrap();
    let not_a_function = parser_prefix::to_expression("=(x,+(x,1))", &ctx).unwrap();
    assert_eq!(
        equation.apply_function_to_both_side(not_a_function).unwrap_err().kind(),
        AlgebraErrorKind::NotAFunction
    );
    let function = parser_prefix::to_expression("=(_(X),+(X,1))", &ctx).unwrap();
    let sum = parser_prefix::to_expression("+(x,y)", &ctx).unwrap();
    assert_eq!(
        sum.apply_function_to_both_side(function).unwrap_err().kind(),
        AlgebraErrorKind::ExpressionErr(equaio::expression::ErrorKind::NotAnEquation)
    );
}

#[test]
fn built_in_rules_are_read_in_the_context() {
    let ctx = arithmetic::get_arithmetic_ctx();
    let rules = equaio::algebra::get_algebra_rules(&ctx);
    assert_eq!(rules.len(), 15);
    assert_eq!(rules.get("add_zero").unwrap().label, "Add by Zero");
    assert_eq!(rules.get("distribute_property2").unwrap().expression.to_string(true), "(((Y + Z) * X) = ((Y * X) + (Z * X)))");
    assert_eq!(rules.keys()[0], "add_zero");
}
