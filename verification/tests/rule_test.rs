use equaio::rule;
use equaio::rule::ruleset::ruleset_from_json;
use equaio::rule::ruleset::ContextJSON;
use equaio::rule::ruleset::RuleJSON;
use equaio::rule::ruleset::RulesetJSON;
use equaio::rule::ruleset::RulesetVariationJSON;

fn assert_rule_eq(rule: &rule::Rule, id: &str, label: &str, expr: &str) {
    assert_eq!(rule.id, id);
    assert_eq!(rule.label, label);
    assert_eq!(rule.expression.to_string(true), expr);
}

fn variation(expr: &str) -> RulesetVariationJSON {
    RulesetVariationJSON { expr_prefix: None, expr: Some(expr.to_string()) }
}

fn variation_prefix(expr_prefix: &str) -> RulesetVariationJSON {
    RulesetVariationJSON { expr_prefix: Some(expr_prefix.to_string()), expr: None }
}

fn rule_json(id: &str, label: Option<&str>, expr: &str) -> RuleJSON {
    RuleJSON {
        id: id.to_string(),
        label: label.map(|l| l.to_string()),
        expr_prefix: None,
        expr: Some(expr.to_string()),
        variations: None,
        auto: None,
    }
}

fn rule_json_prefix(id: &str, label: Option<&str>, expr_prefix: &str) -> RuleJSON {
    RuleJSON {
        id: id.to_string(),
        label: label.map(|l| l.to_string()),
        expr_prefix: Some(expr_prefix.to_string()),
        expr: None,
        variations: None,
        auto: None,
    }
}

fn arithmetic_base() -> ContextJSON {
    ContextJSON {
        base: Some("arithmetic".to_string()),
        parameters: None,
        unary_ops: None,
        binary_ops: None,
        assoc_ops: None,
        handle_numerics: None,
        flags: None,
    }
}

fn fixed(mut rule: RuleJSON) -> RuleJSON {
    rule.variations = Some(vec![]);
    rule
}

fn automatic(mut rule: RuleJSON, auto: bool) -> RuleJSON {
    if auto {
        rule.auto = Some(true);
    }
    rule
}

/// The rules of algebra: commutative variations of each rule unless the rule
/// is fixed; with `auto_simplify` the simplifying rules are applied
/// automatically.
fn algebra_description(auto_simplify: bool) -> RulesetJSON {
    RulesetJSON {
        name: "algebra".to_string(),
        context: Some(arithmetic_base()),
        variations: Some(vec![variation("A + B = B + A"), variation("A * B = B * A")]),
        normalization: None,
        rules: vec![
            automatic(rule_json("add_zero", Some("Addition with 0"), "X + 0 = X"), auto_simplify),
            automatic(rule_json("mul_one", Some("Multiplication with 1"), "X * 1 = X"), auto_simplify),
            automatic(rule_json("mul_zero", Some("Multiplication with 0"), "X * 0 = 0"), auto_simplify),
            automatic(rule_json("sub_zero", Some("Subtraction by 0"), "X - 0 = X"), auto_simplify),
            automatic(rule_json("div_one", Some("Division by 1"), "X / 1 = X"), auto_simplify),
            automatic(rule_json("sub_self", Some("Self subtraction"), "X - X = 0"), auto_simplify),
            automatic(
                rule_json_prefix("add_negative_self", Some("Self subtraction"), "=(+(X,-(X)),0)"),
                auto_simplify,
            ),
            fixed(rule_json_prefix(
                "factor_out_minus_right",
                Some("Factor out the minus sign"),
                "=(*(X,-(Y)),-(*(X,Y)))",
            )),
            fixed(rule_json_prefix(
                "factor_out_minus_left",
                Some("Factor out the minus sign"),
                "=(*(-(X),Y),-(*(X,Y)))",
            )),
            rule_json("add_self", Some("Self addition"), "X + X = 2 * X"),
            rule_json_prefix("distribution", Some("Distribution"), "=(*(X,+(...(A))),+(...(*(X,A))))"),
            fixed(rule_json_prefix(
                "factor_out_left",
                Some("Factoring Out"),
                "=(+(...(*(X,A))),*(X,+(...(A))))",
            )),
            fixed(rule_json_prefix(
                "factor_out_right",
                Some("Factoring Out"),
                "=(+(...(*(A,X))),*(+(...(A)),X))",
            )),
        ],
    }
}

fn simple_description(variations: Option<Vec<RulesetVariationJSON>>, rules: Vec<RuleJSON>) -> RulesetJSON {
    RulesetJSON {
        name: "simple".to_string(),
        context: Some(arithmetic_base()),
        variations,
        normalization: None,
        rules,
    }
}

#[test]
fn rule_test_simple() {
    let description = simple_description(
        None,
        vec![rule_json_prefix("rule0", None, "=(1,2)"), rule_json_prefix("rule1", Some("Rule 1"), "=(1,3)")],
    );
    let rules = ruleset_from_json(description).unwrap().rule_vec;

    assert_eq!(rules.len(), 2);
    assert_rule_eq(&rules[0], "simple/rule0", "", "(1 = 2)");
    assert_rule_eq(&rules[1], "simple/rule1", "Rule 1", "(1 = 3)");
}

#[test]
fn with_variation_prefix() {
    let description = simple_description(
        Some(vec![variation_prefix("=(+(A,B),+(B,A))")]),
        vec![rule_json_prefix("rule0", None, "=(+(X,0),X)")],
    );
    let rules = ruleset_from_json(description).unwrap().rule_vec;
    assert_eq!(rules.len(), 2);
    assert_rule_eq(&rules[0], "simple/rule0/0", "", "((X + 0) = X)");
    assert_rule_eq(&rules[1], "simple/rule0/1", "", "((0 + X) = X)");
}

#[test]
fn with_variation() {
    let description =
        simple_description(Some(vec![variation("A + B = B + A")]), vec![rule_json("rule0", None, "X + 0 = X")]);
    let rules = ruleset_from_json(description).unwrap().rule_vec;
    assert_eq!(rules.len(), 2);
    assert_rule_eq(&rules[0], "simple/rule0/0", "", "((X + 0) = X)");
    assert_rule_eq(&rules[1], "simple/rule0/1", "", "((0 + X) = X)");
}

#[test]
fn with_multiple_variations_prefix() {
    // A*(B+C) = A*B + A*C
    // (B+C)*A = A*B + A*C
    let description = simple_description(
        Some(vec![variation_prefix("=(+(A,B),+(B,A))"), variation_prefix("=(*(A,B),*(B,A))")]),
        vec![rule_json_prefix("rule0", None, "=(*(A,+(B,C)),+(*(A,B),*(A,C)))")],
    );
    let rules = ruleset_from_json(description).unwrap().rule_vec;
    assert_eq!(rules.len(), 2);
    assert_rule_eq(&rules[0], "simple/rule0/0", "", "((A * (B + C)) = ((A * B) + (A * C)))");
    assert_rule_eq(&rules[1], "simple/rule0/1", "", "(((B + C) * A) = ((A * B) + (A * C)))");
}

#[test]
fn with_multiple_variations() {
    // A*(B+C) = A*B + A*C
    // (B+C)*A = A*B + A*C
    let description = simple_description(
        Some(vec![variation("A + B = B + A"), variation("A * B = B * A")]),
        vec![rule_json("rule0", None, "A * (B + C) = (A * B) + (A * C)")],
    );
    let rules = ruleset_from_json(description).unwrap().rule_vec;
    assert_eq!(rules.len(), 2);
    assert_rule_eq(&rules[0], "simple/rule0/0", "", "((A * (B + C)) = ((A * B) + (A * C)))");
    assert_rule_eq(&rules[1], "simple/rule0/1", "", "(((B + C) * A) = ((A * B) + (A * C)))");
}

#[test]
fn algebra_rule_set_from_description() {
    let set = ruleset_from_json(algebra_description(false)).unwrap();
    let rules = set.rule_vec;
    assert_eq!(rules.len(), 18);
    let rule_descriptions = vec![
        ("algebra/add_zero/0", "Addition with 0", "((X + 0) = X)"),
        ("algebra/add_zero/1", "Addition with 0", "((0 + X) = X)"),
        ("algebra/mul_one/0", "Multiplication with 1", "((X * 1) = X)"),
        ("algebra/mul_one/1", "Multiplication with 1", "((1 * X) = X)"),
        ("algebra/mul_zero/0", "Multiplication with 0", "((X * 0) = 0)"),
        ("algebra/mul_zero/1", "Multiplication with 0", "((0 * X) = 0)"),
        ("algebra/sub_zero", "Subtraction by 0", "((X - 0) = X)"),
        ("algebra/div_one", "Division by 1", "((X / 1) = X)"),
        ("algebra/sub_self", "Self subtraction", "((X - X) = 0)"),
        ("algebra/add_negative_self/0", "Self subtraction", "((X + (-X)) = 0)"),
        ("algebra/add_negative_self/1", "Self subtraction", "(((-X) + X) = 0)"),
        ("algebra/factor_out_minus_right", "Factor out the minus sign", "((X * (-Y)) = (-(X * Y)))"),
        ("algebra/factor_out_minus_left", "Factor out the minus sign", "(((-X) * Y) = (-(X * Y)))"),
        ("algebra/add_self", "Self addition", "((X + X) = (2 * X))"),
        ("algebra/distribution/0", "Distribution", "((X * (A_1 + A_2 + ...)) = ((X_1 * A_1) + (X_2 * A_2) + ...))"),
        ("algebra/distribution/1", "Distribution", "(((A_1 + A_2 + ...) * X) = ((X_1 * A_1) + (X_2 * A_2) + ...))"),
        ("algebra/factor_out_left", "Factoring Out", "(((X_1 * A_1) + (X_2 * A_2) + ...) = (X * (A_1 + A_2 + ...)))"),
        ("algebra/factor_out_right", "Factoring Out", "(((A_1 * X_1) + (A_2 * X_2) + ...) = ((A_1 + A_2 + ...) * X))"),
    ];
    for (i, (id, description, expression)) in rule_descriptions.iter().enumerate() {
        assert_rule_eq(&rules[i], id, description, expression);
    }
    assert_eq!(set.rule_ids.len(), 18);
    assert_eq!(set.rule_ids[6], "algebra/sub_zero");
    assert!(set.auto_rule_ids.is_empty());
}

#[test]
fn unknown_base_context_is_an_invalid_rule() {
    let mut description = simple_description(None, vec![]);
    description.context =
        Some(ContextJSON { base: Some("geometry".to_string()), ..arithmetic_base() });
    match ruleset_from_json(description) {
        Err(rule::ParserError::InvalidRule(what)) => assert_eq!(what, "geometry"),
        _ => panic!("expected an invalid rule"),
    }
}

#[test]
fn rule_without_expression_is_an_invalid_rule() {
    let mut missing = rule_json("rule0", None, "");
    missing.expr = None;
    match ruleset_from_json(simple_description(None, vec![missing])) {
        Err(rule::ParserError::InvalidRule(what)) => assert_eq!(what, "missing rule"),
        _ => panic!("expected an invalid rule"),
    }
}

#[test]
fn automatic_rules_are_listed_by_id() {
    let set = ruleset_from_json(algebra_description(true)).unwrap();
    assert_eq!(set.auto_rule_ids[0], "algebra/add_zero/0");
    assert_eq!(set.auto_rule_ids[1], "algebra/add_zero/1");
    assert!(set.auto_rule_ids.contains(&"algebra/div_one".to_string()));
    assert!(!set.auto_rule_ids.contains(&"algebra/add_self".to_string()));
    let map = set.get_rule_map();
    assert_eq!(map.len(), 18);
    assert_eq!(map.get("algebra/div_one").unwrap().label, "Division by 1");
}
