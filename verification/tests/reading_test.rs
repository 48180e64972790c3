use equaio::algebra;
use equaio::arithmetic;
use equaio::arithmetic::get_possible_actions::arithmetic_calculation;
use equaio::arithmetic::get_possible_actions::common_ancestor_from_vec;
use equaio::block::block_builder;
use equaio::block::Block;
use equaio::block::BlockContext;
use equaio::block::BlockTag;
use equaio::block::BlockType;
use equaio::expression::Address;
use equaio::expression::Context;
use equaio::expression::Expression;
use equaio::parser::parser;
use equaio::parser::parser::SemanticSymbol;
use equaio::parser::parser::TokenItem;
use equaio::parser::parser_prefix;
use equaio::parser::parser_prefix::Token;
use equaio::text_map::TextMap;
use equaio::worksheet::Action;

fn strings(items: &[&str]) -> Vec<String> {
    items.iter().map(|s| s.to_string()).collect()
}

fn address(path: &[usize]) -> Address {
    Address::new(path.to_vec(), None)
}

fn context() -> Context {
    Context {
        parameters: strings(&["a", "b", "c"]),
        unary_ops: strings(&["-", "~"]),
        binary_ops: strings(&["+", "*"]),
        assoc_ops: strings(&["+"]),
        ..Default::default()
    }
}

fn symbol(s: &str) -> TokenItem {
    TokenItem::Token(Token::Symbol(s.to_string()))
}

#[test]
fn tokens_are_set_apart() {
    assert_eq!(
        parser_prefix::tokenize("f( a b,c)"),
        vec![
            Token::Symbol("f".to_string()),
            Token::OpenParen,
            Token::Symbol("ab".to_string()),
            Token::Comma,
            Token::Symbol("c".to_string()),
            Token::CloseParen
        ]
    );
    assert_eq!(
        parser_prefix::tokenize_with(" a  +b", true),
        vec![Token::Symbol("a".to_string()), Token::Symbol("+b".to_string())]
    );
    assert!(parser_prefix::tokenize("  ").is_empty());
    let groups = parser_prefix::split_tokens_by_comma(&parser_prefix::tokenize("1,f(3,4),,g(f(1,2),3),"));
    let lengths: Vec<usize> = groups.iter().map(|g| g.len()).collect();
    assert_eq!(lengths, vec![1, 6, 0, 11]);
}

#[test]
fn tokens_are_grouped_by_their_brackets() {
    let tokens = parser_prefix::tokenize_with("2 + f(x + g(x,y)) = -(x)", true);
    let grouped = parser::group_tokens_by_parentheses(&tokens);
    let expected = TokenItem::Group(vec![
        symbol("2"),
        symbol("+"),
        symbol("f"),
        TokenItem::Group(vec![
            symbol("x"),
            symbol("+"),
            symbol("g"),
            TokenItem::Group(vec![symbol("x"), TokenItem::Token(Token::Comma), symbol("y")]),
        ]),
        symbol("="),
        symbol("-"),
        TokenItem::Group(vec![symbol("x")]),
    ]);
    assert_eq!(grouped, expected);
    // a bracket that is never closed keeps what follows it
    let open = parser::group_tokens_by_parentheses(&parser_prefix::tokenize_with("a (b", true));
    assert_eq!(open, TokenItem::Group(vec![symbol("a")]));
    let arguments = match &expected {
        TokenItem::Group(items) => match &items[3] {
            TokenItem::Group(inner) => inner[3].clone(),
            _ => panic!("a group"),
        },
        _ => panic!("a group"),
    };
    assert!(arguments.is_function_parameter());
    assert!(arguments.is_group() && !arguments.is_comma());
    assert_eq!(arguments.get_symbol(), "");
    if let TokenItem::Group(inner) = &arguments {
        let parts = parser::split_token_item_by_comma(inner);
        assert_eq!(parts, vec![vec![symbol("x")], vec![symbol("y")]]);
    }
    let ctx = context();
    assert!(symbol("-").is_unary_op(&ctx) && !symbol("-").is_effectively_binary_op(&ctx));
    assert!(symbol("+").is_effectively_binary_op(&ctx) && symbol("=>").is_effectively_binary_op(&ctx));
    assert!(symbol("a").is_simple_value(&ctx) && !symbol("+").is_simple_value(&ctx));
    assert_eq!(symbol("a").get_symbol(), "a");
    assert!(TokenItem::Token(Token::Comma).is_comma());
}

#[test]
fn items_are_read_as_values_and_operators() {
    let ctx = context();
    let read = |text: &str| -> Option<Vec<SemanticSymbol>> {
        match parser::group_tokens_by_parentheses(&parser_prefix::tokenize_with(text, true)) {
            TokenItem::Group(items) => parser::parse_semantic_symbol(&items, &ctx),
            _ => None,
        }
    };
    assert_eq!(
        read("- a + f(b, c) * (a)"),
        Some(vec![
            SemanticSymbol::UnaryOp("-".to_string(), vec![SemanticSymbol::Value("a".to_string())]),
            SemanticSymbol::BinaryOp("+".to_string()),
            SemanticSymbol::Nary(
                "f".to_string(),
                vec![vec![SemanticSymbol::Value("b".to_string())], vec![SemanticSymbol::Value("c".to_string())]]
            ),
            SemanticSymbol::BinaryOp("*".to_string()),
            SemanticSymbol::ValueGroup(vec![SemanticSymbol::Value("a".to_string())]),
        ])
    );
    assert_eq!(read("a b"), None);
    assert_eq!(read("- +"), None);
    assert_eq!(read("a +"), Some(vec![SemanticSymbol::Value("a".to_string()), SemanticSymbol::BinaryOp("+".to_string())]));
    assert_eq!(SemanticSymbol::value_or_variadic("...".to_string()), SemanticSymbol::Variadic);
    assert_eq!(SemanticSymbol::value_or_variadic("..".to_string()), SemanticSymbol::Value("..".to_string()));
}

#[test]
fn infix_notation_that_is_no_expression() {
    let ctx = context();
    for text in ["", "a +", "a b", "+ a", "a + + b", "- +", "f(a b)", "... + a", "a * ...", ")"] {
        assert!(parser::to_expression_raw(text, &ctx).is_none(), "{}", text);
    }
    assert_eq!(parser::to_expression_raw("+", &ctx).unwrap().symbol, "+");
    assert_eq!(parser::to_expression("X + ...", &ctx).unwrap().to_string(true), "(X_1 + X_2 + ...)");
    assert_eq!(parser::to_expression("f(a, -b) + ~(c)", &ctx).unwrap().to_string(true), "(f(a, (-b)) + (~c))");
    assert_eq!(parser::to_expression("a = b = c", &ctx).unwrap().to_string(true), "((a = b) = c)");
    assert_eq!(parser::preprocess_statement("a = b => b = a"), "((a) = (b)) => ((b) = (a))");
    assert_eq!(parser::preprocess_statement(" a => b => c"), " a => b => c");
    assert_eq!(parser::preprocess_statement("a+b"), "a+b");
    assert_eq!(parser::preprocess_unary("-a + ~-b", &ctx), "- a + ~ - b");
    let symbols = vec![SemanticSymbol::Value("a".to_string()), SemanticSymbol::BinaryOp("+".to_string())];
    assert_eq!(parser::semantic_to_expression(&symbols, &ctx), None);
    assert_eq!(parser::semantic_to_expression(&vec![], &ctx), None);
}

#[test]
fn blocks_are_tagged_and_aligned() {
    let ctx = context();
    let mut precedence = TextMap::new();
    precedence.insert("+".to_string(), 0usize);
    precedence.insert("*".to_string(), 1usize);
    let block_ctx = BlockContext { op_precedence: precedence, ..Default::default() };
    assert!(block_ctx.has_precedence_over("*", "+"));
    assert!(!block_ctx.has_precedence_over("+", "*"));
    assert!(!block_ctx.has_precedence_over("*", "/"));
    let copy = block_ctx.clone();
    assert!(copy.has_precedence_over("*", "+"));

    let block = block_builder::symbol("a".to_string(), address(&[1]))
        .add_tag(BlockTag::Parentheses)
        .add_tag(BlockTag::Concealed)
        .add_tag(BlockTag::Parentheses);
    assert!(block.contains_tag(&BlockTag::Parentheses));
    let without = block.clone().remove_tag(&BlockTag::Parentheses);
    assert_eq!(without.tags, vec![BlockTag::Concealed]);
    assert!(!without.contains_tag(&BlockTag::Parentheses));
    assert_eq!(block.tags.len(), 3);
    assert_eq!(Block::default().block_type, BlockType::Symbol);
    assert_eq!(block_builder::comma().symbol, Some(",".to_string()));
    let box_ = block_builder::container(BlockType::FractionContainer, vec![], address(&[]));
    assert_eq!(box_, block_builder::fraction_container(vec![], address(&[])));

    let equation = parser_prefix::to_expression("=(f(a,b),*(+(a,b),c))", &ctx).unwrap();
    assert!(equation.is_complete());
    let (left, middle, right) = Block::from_root_expression_to_alignable_blocks(&equation, &block_ctx);
    assert_eq!(
        left.unwrap(),
        block_builder::horizontal_container(
            vec![
                block_builder::symbol("f".to_string(), address(&[0])),
                block_builder::horizontal_container(
                    vec![
                        block_builder::symbol("a".to_string(), address(&[0, 0])),
                        block_builder::comma(),
                        block_builder::symbol("b".to_string(), address(&[0, 1])),
                    ],
                    address(&[0])
                ),
            ],
            address(&[0])
        )
    );
    assert_eq!(middle.unwrap(), block_builder::symbol("=".to_string(), address(&[])));
    let right = right.unwrap();
    assert!(right.children.as_ref().unwrap()[0].contains_tag(&BlockTag::Parentheses));
    let sum = parser_prefix::to_expression("+(a,b)", &ctx).unwrap();
    let (left, middle, right) = Block::from_root_expression_to_alignable_blocks(&sum, &block_ctx);
    assert!(left.is_none() && middle.is_none());
    assert_eq!(right.unwrap(), Block::from_root_expression(&sum, &block_ctx));

    let mut broken = sum.clone();
    broken.children = None;
    assert!(!broken.is_complete());
    let mut short: Expression = parser_prefix::to_expression("*(a,b)", &ctx).unwrap();
    short.children.as_mut().unwrap().pop();
    assert!(!short.is_complete());
}

#[test]
fn a_selection_points_at_a_computation_or_a_fraction() {
    let ctx = arithmetic::get_arithmetic_ctx().add_params(strings(&["x", "y"]));
    let expr = parser_prefix::to_expression("=(+(1,2,x),/(*(4,x),*(6,y)))", &ctx).unwrap();
    let pair = address(&[0]).sub(0);
    assert_eq!(common_ancestor_from_vec(&vec![pair.clone()]), pair);
    assert_eq!(common_ancestor_from_vec(&vec![address(&[0, 0]), address(&[0, 1, 3])]), address(&[0]));
    assert_eq!(common_ancestor_from_vec(&vec![address(&[0, 0]), address(&[0, 1]), address(&[1])]), address(&[]));
    let offered = arithmetic_calculation(&expr, &vec![pair], "3");
    assert_eq!(offered.len(), 1);
    assert_eq!(offered[0].0, Action::ApplyAction("Calculate 1 + 2 = 3".to_string()));
    assert_eq!(offered[0].1.to_string(true), "((3 + x) = ((4 * x) / (6 * y)))");
    assert!(arithmetic_calculation(&expr, &vec![address(&[0])], "3").is_empty());
    assert!(arithmetic_calculation(&expr, &vec![], "3").is_empty());

    let selection = vec![address(&[1, 1, 0]), address(&[1, 0, 0])];
    let (numerator, denominator, place) = algebra::get_possible_actions::selected_fraction(&selection).unwrap();
    assert_eq!((numerator, denominator, place.clone()), (0, 0, address(&[1])));
    let offered = algebra::get_possible_actions::apply_fraction_arithmetic(&expr, &selection, "");
    assert_eq!(offered.len(), 1);
    assert_eq!(offered[0].0, Action::ApplyAction("Simplify fraction".to_string()));
    assert_eq!(offered[0].1.to_string(true), "((1 + 2 + x) = ((2 * x) / (3 * y)))");
    assert!(algebra::get_possible_actions::selected_fraction(&vec![address(&[1])]).is_none());
    assert!(algebra::get_possible_actions::apply_fraction_arithmetic(
        &expr,
        &vec![address(&[0, 0]), address(&[0, 1])],
        ""
    )
    .is_empty());
    let both = algebra::get_possible_actions::apply_operation_both_side(&expr, &vec![address(&[]), address(&[0, 2])]);
    assert_eq!(both.len(), 1);
    assert_eq!(both[0].0, Action::ApplyAction("Apply -x to both side".to_string()));
    assert!(algebra::get_possible_actions::apply_operation_both_side(&expr, &vec![address(&[0]), address(&[0, 2])])
        .is_empty());
    let name = algebra::generate_simple_apply_arithmetic_to_both_side_name(
        &arithmetic::ArithmeticOperator::Mul,
        &parser_prefix::to_expression("+(x,1)", &ctx).unwrap(),
    );
    assert_eq!(name, "Apply *(x + 1) to both side");
    assert_eq!(algebra::AlgebraCtxFlags::SimplifyOneAndZero.to_string(), "algebra:simplify_one_and_zero");
    let fraction = parser_prefix::to_expression("/(4,x)", &ctx).unwrap();
    assert_eq!(fraction.normalize_fraction().to_string(true), "((4) / (x))");
    assert_eq!(expr.normalize_fraction(), expr);
    assert_eq!(expr.node_count(), 12);
}
