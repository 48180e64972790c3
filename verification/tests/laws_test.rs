use equaio::expression::expression_builder as eb;
use equaio::expression::Address;
use equaio::expression::Context;
use equaio::expression::ErrorKind;
use equaio::expression::Expression;
use equaio::expression::ExpressionError;
use equaio::expression::ExpressionType;
use equaio::expression::MatchMap;
use equaio::expression::StatementSymbols;
use equaio::parser::parser_prefix;
use equaio::text;
use equaio::text_map::TextMap;

fn strings(items: &[&str]) -> Vec<String> {
    items.iter().map(|s| s.to_string()).collect()
}

fn address(path: &[usize]) -> Address {
    Address::new(path.to_vec(), None)
}

fn context() -> Context {
    Context {
        parameters: strings(&["a", "b", "c", "d", "x", "y", "0"]),
        unary_ops: strings(&["-"]),
        binary_ops: strings(&["+", "*"]),
        assoc_ops: strings(&["+"]),
        ..Default::default()
    }
}

fn read(text: &str) -> Expression {
    parser_prefix::to_expression(text, &context()).unwrap()
}

fn same_bindings(a: &MatchMap, b: &MatchMap) -> bool {
    a.len() == b.len() && a.keys().iter().all(|k| b.get(k).map(|v| v == a.get(k).unwrap()).unwrap_or(false))
}

#[test]
fn flattening_twice_is_flattening_once() {
    let ops = strings(&["+", "@"]);
    for text in ["+(+(a,b),+(c,d))", "+(a,+(b,+(c,d)))", "@(+(a,@(b,c)),@(d,+(a,+(b,c))))", "f(+(a,+(b,c)),+(a))", "a"] {
        let once = read(text).normalize_to_assoc_train(&ops);
        let twice = once.normalize_to_assoc_train(&ops);
        assert_eq!(once, twice, "{}", text);
    }
    let flat = read("+(+(a,b),+(c,d))").normalize_to_assoc_train(&ops);
    assert_eq!(flat.to_string(true), "(a + b + c + d)");
}

#[test]
fn flattening_comes_back_after_pairs_were_made_binary() {
    let ops = strings(&["+", "@"]);
    let binary = strings(&["+", "@", "*"]);
    for text in ["+(+(a,b),c)", "+(a,@(b,c))", "@(+(a,b),+(c,d))", "+(a,b)"] {
        let flat = read(text).normalize_to_assoc_train(&ops);
        let nested = flat.normalize_two_children_assoc_train_to_binary_op(&binary);
        let again = nested.normalize_to_assoc_train(&ops);
        assert_eq!(flat, again, "{}", text);
    }
    let pair = read("+(a,b)").normalize_to_assoc_train(&ops);
    assert_eq!(pair.exp_type, ExpressionType::AssocTrain);
    assert_eq!(
        pair.normalize_two_children_assoc_train_to_binary_op(&binary).exp_type,
        ExpressionType::OperatorBinary
    );
}

#[test]
fn every_reported_match_is_the_match_at_its_address() {
    for (subject, pattern) in [
        ("+(x,y,+(a,b))", "+(A,B)"),
        ("*(+(a,b),+(a,b))", "+(A,A)"),
        ("*(+(a,a),+(a,b,b))", "+(A,A)"),
        ("+(a,b,c)", "+(...(A))"),
        ("f(a,f(b,c),g(d))", "f(A,B)"),
        ("a", "A"),
    ] {
        let subject = read(subject);
        let pattern = read(pattern);
        let matches = subject.get_pattern_matches(&pattern);
        for (address, map) in &matches {
            let again = subject.pattern_match_at(&pattern, address).unwrap();
            assert!(same_bindings(map, &again));
        }
    }
    let found = read("*(+(a,a),+(a,b,b))").get_pattern_matches(&read("+(A,A)"));
    let places: Vec<Address> = found.iter().map(|(a, _)| a.clone()).collect();
    assert_eq!(places, vec![address(&[0]), address(&[1]).sub(1)]);
}

#[test]
fn a_ground_equation_and_its_flip_undo_each_other() {
    let tree = read("*(+(a,b),f(c,+(a,b)))");
    let equation = read("=(+(a,b),d)");
    for place in tree.get_possible_equation_application_addresses(&equation) {
        let there = tree.apply_equation_at(&equation, &place).unwrap();
        assert_ne!(there, tree);
        let back = there.apply_equation_rtl_at(&equation, &place).unwrap();
        assert_eq!(back, tree);
        assert!(tree.is_equivalent_to(&back));
        let flipped = there.apply_equation_at(&equation.flip_equation(), &place).unwrap();
        assert_eq!(flipped, tree);
    }
    assert_eq!(tree.get_possible_equation_application_addresses(&equation), vec![address(&[0]), address(&[1, 1])]);
    assert!(tree.get_possible_equation_application_addresses(&read("+(a,b)")).is_empty());
}

#[test]
fn replacing_a_pair_takes_away_one_child() {
    let train = read("+(a,b,c,d)");
    let once = train.replace_expression_at(read("x"), &address(&[]).sub(1)).unwrap();
    assert_eq!(once.children.as_ref().unwrap().len(), 3);
    assert_eq!(once.to_string(true), "(a + x + d)");
    let twice = once.replace_expression_at(read("y"), &address(&[]).sub(1)).unwrap();
    assert_eq!(twice.children.as_ref().unwrap().len(), 2);
    assert_eq!(twice.to_string(true), "(a + y)");
    let last = twice.replace_expression_at(read("y"), &address(&[]).sub(0)).unwrap();
    assert_eq!(last.children.as_ref().unwrap().len(), 1);
    assert!(matches!(
        last.replace_expression_at(read("y"), &address(&[]).sub(0)),
        Err(ExpressionError::InvalidAddress)
    ));
    assert_eq!(train.to_string(true), "(a + b + c + d)");
}

#[test]
fn expansion_has_as_many_instances_as_asked_for() {
    let pattern = read("+(...(*(A,f(B,x))))");
    for n in [0usize, 1, 3, 12] {
        let expanded = pattern.expand_variadic(n, None).unwrap();
        assert_eq!(expanded.exp_type, ExpressionType::AssocTrain);
        assert_eq!(expanded.symbol, "+");
        let children = expanded.children.unwrap();
        assert_eq!(children.len(), n);
        for (i, child) in children.iter().enumerate() {
            assert_eq!(child.to_string(true), format!("(A_{} * f(B_{}, x))", i + 1, i + 1));
        }
    }
    let skipping = strings(&["B"]);
    let expanded = pattern.expand_variadic(2, Some(&skipping)).unwrap();
    assert_eq!(expanded.to_string(true), "((A_1 * f(B, x)) + (A_2 * f(B, x)))");
    assert!(matches!(read("+(a,b)").expand_variadic(2, None), Err(ExpressionError::NotAParentOfVariadic)));
    let mut hollow = read("+(...(A))");
    hollow.children.as_mut().unwrap()[0].children = None;
    assert!(matches!(hollow.expand_variadic(2, None), Err(ExpressionError::InvalidAddress)));
}

#[test]
fn every_error_of_an_expression() {
    let sum = read("+(a,b)");
    assert_eq!(sum.at(&address(&[2])).unwrap_err().kind(), ErrorKind::InvalidAddress);
    assert_eq!(sum.at(&address(&[0, 0])).unwrap_err().kind(), ErrorKind::InvalidAddress);
    assert_eq!(sum.generate_subexpr_from_train(0).unwrap_err().kind(), ErrorKind::NotAnAssocTrain);
    assert_eq!(read("+(a,b,c)").generate_subexpr_from_train(2).unwrap_err().kind(), ErrorKind::InvalidAddress);
    assert_eq!(read("+(a,b,c)").generate_subexpr_from_train(usize::MAX).unwrap_err().kind(), ErrorKind::InvalidAddress);
    assert_eq!(sum.apply_equation_this_node(&sum).unwrap_err().kind(), ErrorKind::NotAnEquation);
    assert_eq!(sum.apply_equation_this_node(&read("=(*(A,B),A)")).unwrap_err().kind(), ErrorKind::PatternDoesNotMatch);
    assert_eq!(sum.apply_implication(&sum).unwrap_err().kind(), ErrorKind::NotAnImplication);
    assert_eq!(sum.apply_implication(&read("=>(*(A,B),A)")).unwrap_err().kind(), ErrorKind::PatternDoesNotMatch);
    assert_eq!(sum.apply_implication(&read("=>(+(A,B),C)")).unwrap_err().kind(), ErrorKind::ExpressionContainsVariable);
    match sum.apply_implication(&read("=>(+(b,a),a)")) {
        Err(ExpressionError::ImplicationLHSMismatch(expected, got)) => {
            assert_eq!(expected, "(b + a)");
            assert_eq!(got, "(a + b)");
        },
        _ => panic!("expected a mismatch"),
    }
    assert_eq!(sum.apply_implication(&read("=>(+(a,b),a)")).unwrap().to_string(true), "a");
    assert_eq!(sum.apply_rule_expr_at(&sum, &address(&[])).unwrap_err().kind(), ErrorKind::InvalidRule);
    assert_eq!(sum.swap_assoc_train_children(0, 1).unwrap_err().kind(), ErrorKind::NotAnAssocTrain);
    assert_eq!(read("+(a,b,c)").swap_assoc_train_children(0, 3).unwrap_err().kind(), ErrorKind::InvalidAddress);
    assert_eq!(sum.replace_expression_at(read("a"), &address(&[]).sub(0)).unwrap_err().kind(), ErrorKind::NotAnAssocTrain);
    assert_eq!(sum.pattern_match_at(&read("*(A,B)"), &address(&[])).unwrap_err().kind(), ErrorKind::PatternDoesNotMatch);
    assert_eq!(sum.pattern_match_at(&read("A"), &address(&[5])).unwrap_err().kind(), ErrorKind::InvalidAddress);
    assert_eq!(sum.expand_variadic(1, None).unwrap_err().kind(), ErrorKind::NotAParentOfVariadic);
    assert_eq!(ExpressionError::EquationLHSMismatch(String::new(), String::new()).kind(), ErrorKind::EquationLHSMismatch);
}

#[test]
fn matching_binds_once_and_gives_up_on_a_clash() {
    let pattern = read("*(A,+(A,B))");
    assert!(read("*(a,+(a,b))").pattern_match_this_node(&pattern).is_some());
    assert!(read("*(a,+(b,b))").pattern_match_this_node(&pattern).is_none());
    assert!(read("*(a,+(a,b,c))").pattern_match_this_node(&pattern).is_none());
    // a constant matches by symbol and kind
    assert!(read("a").pattern_match_this_node(&read("a")).unwrap().is_empty());
    assert!(read("a").pattern_match_this_node(&read("b")).is_none());
    assert!(eb::variable("a").pattern_match_this_node(&read("a")).is_none());
    // a variadic marker on its own matches nothing
    let marker = eb::variadic(read("A"));
    assert!(read("a").pattern_match_this_node(&marker).is_none());
    assert!(read("+(a,b)").pattern_match_this_node(&read("*(+(...(A)),b)")).is_none());
    // the arity of a variadic match is read back when the bindings are put in
    let bindings = read("+(a,b,c)").pattern_match_this_node(&read("+(...(A))")).unwrap();
    assert_eq!(bindings.get("...").unwrap().symbol, "3");
    assert_eq!(read("f(+(...(A)))").apply_match_map(&bindings).to_string(true), "f((a + b + c))");
    let mut odd = MatchMap::new();
    odd.insert("...".to_string(), eb::constant("many"));
    assert_eq!(read("+(...(A))").apply_match_map(&odd), read("+(...(A))"));
}

#[test]
fn an_equation_that_never_becomes_the_subject_is_given_up() {
    // a constant with children matches a constant of its symbol without them
    let mut subject = read("+(a,b)");
    subject.children.as_mut().unwrap()[1].children = Some(vec![read("c")]);
    let equation = read("=(+(X,b),X)");
    assert!(subject.pattern_match_this_node(&read("+(X,b)")).is_some());
    assert_eq!(subject.apply_equation_ltr_this_node(&equation).unwrap_err().kind(), ErrorKind::PatternDoesNotMatch);
}

#[test]
fn addresses_are_ordered_and_related() {
    let a = address(&[1, 2, 3]);
    assert_eq!(a.head(), 1);
    assert_eq!(a.last(), 3);
    assert_eq!(a.tail(), address(&[2, 3]));
    assert_eq!(a.parent(), address(&[1, 2]));
    assert_eq!(a.take(1), address(&[1]));
    assert_eq!(a.append(4), address(&[1, 2, 3, 4]));
    assert_eq!(a.sub(5).to_vec(), vec![1, 2, 3, 5]);
    assert_eq!(a.sub(5).no_sub(), a);
    assert!(!a.sub(0).is_empty());
    assert!(address(&[]).is_empty());
    assert!(a.equals(&address(&[1, 2, 3])));
    assert!(!a.equals(&a.sub(0)));
    assert_eq!(Address::common_ancestor(&a, &address(&[1, 2, 4, 5]).sub(1)), address(&[1, 2]));
    assert_eq!(Address::common_ancestor(&a, &address(&[0])), address(&[]));
    assert!(a.is_sibling(&address(&[1, 2, 9])));
    assert!(!a.is_sibling(&address(&[1, 3, 3])));
    assert!(a.is_nth_cousin(&address(&[1, 4, 5]), 1));
    assert!(!a.is_nth_cousin(&address(&[1, 4]), 1));
    assert!(a.is_child_of(&address(&[1, 2])));
    assert!(a.is_grandchild_of(&address(&[1])));
    assert!(!a.is_grandchild_of(&address(&[2])));
    assert!(a.is_nth_order_child_of(&address(&[]), 3));
    assert!(address(&[1]).is_before(&address(&[1, 0])));
    assert!(address(&[1]).sub(3).is_before(&address(&[1, 2])));
    assert!(!address(&[1, 2]).is_before(&address(&[1]).sub(3)));
    assert!(address(&[0]).sub(5).is_before(&address(&[0, 1])));
    assert!(address(&[1]).is_before(&address(&[1]).sub(0)));
    assert!(address(&[1]).sub(0).is_before(&address(&[1]).sub(1)));
    assert!(!address(&[1]).sub(1).is_before(&address(&[1]).sub(1)));
    assert!(!address(&[2]).is_before(&address(&[1, 5])));
    assert!(!a.is_before(&a));
}

#[test]
fn a_context_keeps_its_lists_and_flags() {
    let mut ctx = Context::default();
    ctx.add_param("a".to_string());
    ctx.add_param("a".to_string());
    let copy = ctx.add_params(strings(&["b", "a", "c"]));
    assert_eq!(copy.parameters, strings(&["a", "b", "c"]));
    ctx.remove_param(&"b".to_string());
    assert_eq!(ctx.parameters, strings(&["a", "c"]));
    ctx.parameters.push("c".to_string());
    ctx.remove_params(&strings(&["c", "z"]));
    assert_eq!(ctx.parameters, strings(&["a"]));
    assert!(!ctx.contains_flag("f"));
    ctx.add_flag("f");
    ctx.add_flags(strings(&["g", "f"]));
    assert!(ctx.contains_flag("f"));
    assert!(ctx.contains_all_flags(&strings(&["f", "g"])));
    assert!(!ctx.contains_all_flags(&strings(&["f", "h"])));
    assert!(ctx.contains_all_flags(&vec![]));
}

#[test]
fn a_text_map_keeps_one_value_for_a_key_in_the_order_of_arrival() {
    let mut map: TextMap<usize> = TextMap::new();
    assert!(map.is_empty());
    map.insert("b".to_string(), 1);
    map.insert("a".to_string(), 2);
    map.insert("b".to_string(), 3);
    assert_eq!(map.len(), 2);
    assert_eq!(map.keys(), strings(&["b", "a"]));
    assert_eq!(map.get("b"), Some(&3));
    assert_eq!(map.get("c"), None);
    assert!(map.contains_key("a"));
    assert_eq!(*map.value_at(1), 2);
    assert_eq!(map.key_at(0), "b");
    let mut other: TextMap<usize> = TextMap::new();
    other.insert("a".to_string(), 9);
    other.insert("c".to_string(), 8);
    map.absorb(&other);
    assert_eq!(map.keys(), strings(&["b", "a", "c"]));
    assert_eq!(map.get("a"), Some(&9));
    let copy = map.clone();
    assert_eq!(copy.keys(), map.keys());
    map.clear();
    assert!(map.is_empty());
    assert_eq!(copy.len(), 3);
    let mut x = MatchMap::new();
    x.insert("X".to_string(), read("a"));
    let mut y = MatchMap::new();
    y.insert("Y".to_string(), read("b"));
    assert!(equaio::utils::is_hashmap_no_clash(&x, &y));
    y.insert("X".to_string(), read("b"));
    assert!(!equaio::utils::is_hashmap_no_clash(&x, &y));
    assert!(!equaio::utils::is_hashmap_no_clash(&y, &x));
}

#[test]
fn numerals_are_written_and_read() {
    assert_eq!(text::usize_to_string(0), "0");
    assert_eq!(text::usize_to_string(7), "7");
    assert_eq!(text::usize_to_string(1203), "1203");
    assert_eq!(text::usize_to_string(usize::MAX), usize::MAX.to_string());
    assert_eq!(text::i64_to_string(i64::MIN), i64::MIN.to_string());
    assert_eq!(text::i64_to_string(-40), "-40");
    assert_eq!(text::i64_to_string(40), "40");
    for n in [0usize, 9, 10, 99, 100, 65535, usize::MAX] {
        assert_eq!(text::parse_usize(&text::usize_to_string(n)), Some(n));
    }
    assert_eq!(text::parse_usize("+12"), Some(12));
    assert_eq!(text::parse_usize("012"), Some(12));
    assert_eq!(text::parse_usize(""), None);
    assert_eq!(text::parse_usize("+"), None);
    assert_eq!(text::parse_usize("-1"), None);
    assert_eq!(text::parse_usize("1a"), None);
    assert_eq!(text::parse_usize(&(usize::MAX.to_string() + "0")), None);
    assert_eq!(text::parse_usize("99999999999999999999999999"), None);
}

#[test]
fn texts_are_searched_trimmed_and_replaced() {
    let chars = |s: &str| -> Vec<char> { s.chars().collect() };
    assert_eq!(text::chars_of("a\u{e9}b"), chars("a\u{e9}b"));
    assert_eq!(text::string_of(&chars("a\u{e9}b")), "a\u{e9}b");
    assert!(text::str_eq("ab", "ab"));
    assert!(!text::str_eq("ab", "abc"));
    assert!(text::contains_str(&strings(&["x", "y"]), "y"));
    assert!(!text::contains_str(&strings(&["x", "y"]), "z"));
    assert_eq!(text::find_from(&chars("a=>b=>c"), &chars("=>"), 0), Some(1));
    assert_eq!(text::find_from(&chars("a=>b=>c"), &chars("=>"), 2), Some(4));
    assert_eq!(text::find_from(&chars("a=>b=>c"), &chars("=>"), 5), None);
    assert_eq!(text::find_from(&chars("abc"), &chars(""), 3), Some(3));
    assert_eq!(text::find_from(&chars("abc"), &chars("abcd"), 0), None);
    for s in ["  a b \t\n", "a", "", "   ", "\u{a0}x\u{3000}"] {
        assert_eq!(text::string_of(&text::trim_chars(&chars(s))), s.trim());
    }
    for (s, from, to) in [("-a + -b", "-", "- "), ("aaa", "aa", "b"), ("abc", "", "-"), ("", "", "-"), ("abab", "ab", ""), ("abc", "abcd", "x")] {
        assert_eq!(text::string_of(&text::replace_chars(&chars(s), &chars(from), &chars(to))), s.replace(from, to));
    }
    for c in [' ', '\t', '\n', '\u{85}', '\u{a0}', '\u{1680}', '\u{2003}', '\u{2028}', '\u{202f}', '\u{205f}', '\u{3000}', 'a', '0', '\u{200b}', '\u{feff}'] {
        assert_eq!(text::is_whitespace(c), c.is_whitespace());
    }
}

#[test]
fn statement_symbols_and_kinds() {
    assert_eq!(StatementSymbols::Equal.as_str(), "=");
    assert_eq!(StatementSymbols::Implies.to_string(), "=>");
    assert_eq!(StatementSymbols::from_symbol("=>"), Some(StatementSymbols::Implies));
    assert_eq!(StatementSymbols::from_symbol("=="), None);
    assert_eq!("=".parse::<StatementSymbols>(), Ok(StatementSymbols::Equal));
    assert_eq!("=<".parse::<StatementSymbols>(), Err(()));
    assert_eq!(ExpressionType::variadic_string(), "...");
    assert!(ExpressionType::is_variadic_str("..."));
    assert!(!ExpressionType::is_variadic_str(".."));
    assert_eq!(ExpressionType::default(), ExpressionType::ValueConst);
    let e = read("=>(=(a,b),=(b,a))");
    assert!(e.is_implication() && e.is_statement() && !e.is_equation() && e.is_operator());
    assert_eq!(e.identify_statement_operator(), Some(StatementSymbols::Implies));
    assert!(e.lhs().is_none());
    let eq = read("=(a,B)");
    assert_eq!(eq.lhs().unwrap().to_string(true), "a");
    assert_eq!(eq.rhs().unwrap().to_string(true), "B");
    assert!(eq.is_contain_variable() && !read("=(a,b)").is_contain_variable());
    assert!(eq.rhs().unwrap().is_variable() && eq.lhs().unwrap().is_constant() && eq.lhs().unwrap().is_value());
    assert_eq!(eq.arity(), 2);
    assert_eq!(read("f(A,g(B,a),A)").collect_var(None).len(), 3);
    assert_eq!(read("a").turn_into_assoc_train("*".to_string()).to_string(true), "(a)");
    assert_eq!(read("+(a,b)").turn_into_assoc_train("*".to_string()).to_string(true), "(a * b)");
    assert_eq!(read("+(...(A))").children.unwrap()[0].to_string(true), "UNREACHABLE, VARIADIC MARKER SHOULD NEVER BE PRINTED");
    assert_eq!(read("f(a,-(b))").to_string(false), "f(a, -b)");
    assert_eq!(Expression::default(), eb::constant(""));
    assert_eq!(eb::unary("-", read("a")).to_string(true), "(-a)");
    assert_eq!(eb::nary("f", vec![]).to_string(true), "f()");
    assert_eq!(eb::binary_statement("=>", read("a"), read("b")).to_string(false), "a => b");
}

#[test]
fn prefix_notation_that_is_no_expression() {
    let ctx = context();
    for text in ["", "(", "f(", "f(a", "f(a))", "f(,a)", "f(a,)b", "(a)", ",", "f(a)(b)"] {
        assert!(parser_prefix::to_expression(text, &ctx).is_none(), "{}", text);
    }
    assert_eq!(parser_prefix::to_expression(" f ( a , b ) ", &ctx).unwrap().to_string(true), "f(a, b)");
    assert_eq!(parser_prefix::to_expression("f(a,)", &ctx).unwrap().to_string(true), "f(a)");
    assert_eq!(parser_prefix::to_expression("f()", &ctx).unwrap().to_string(true), "f()");
    assert_eq!(parser_prefix::to_expression("a b", &ctx).unwrap().symbol, "ab");
}
