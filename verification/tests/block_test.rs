use equaio::algebra::AlgebraNormalization;
use equaio::arithmetic::get_arithmetic_ctx;
use equaio::block::block_builder;
use equaio::block::Block;
use equaio::block::BlockContext;
use equaio::block::BlockTag;
use equaio::expression as exp;
use equaio::expression::Address;
use equaio::parser::parser;
use equaio::parser::parser_prefix;
use equaio::text_map::TextMap;
use equaio::worksheet::NoSuggestions;
use equaio::worksheet::Worksheet;

fn strings(items: &[&str]) -> Vec<String> {
    items.iter().map(|s| s.to_string()).collect()
}

fn pair_map(pairs: &[(&str, &str)]) -> TextMap<String> {
    let mut map = TextMap::new();
    for (a, b) in pairs {
        map.insert(a.to_string(), b.to_string());
        map.insert(b.to_string(), a.to_string());
    }
    map
}

fn index_map(items: &[&str]) -> TextMap<usize> {
    let mut map = TextMap::new();
    for (index, value) in items.iter().enumerate() {
        map.insert(value.to_string(), index);
    }
    map
}

fn print_block_tree(block: &Block) {
    f_print_block_tree(block, 0);
}

fn f_print_block_tree(block: &Block, indent: usize) {
    let left_pad = " ".repeat(indent);
    let has_parenthesis_str = if block.contains_tag(&BlockTag::Parentheses) { "[parenthesis]" } else { "" };
    if let Some(children) = &block.children {
        println!("{}{:?} {:?} {} {{", left_pad, block.block_type, block.address, has_parenthesis_str);
        for child in children {
            f_print_block_tree(child, indent + 4);
        }
        println!("{}}}", left_pad);
    } else {
        println!(
            "{}{:?} {:?} {}",
            left_pad,
            block.symbol.clone().unwrap_or("EMPTY".to_string()),
            block.address,
            has_parenthesis_str
        );
    }
}

#[test]
fn block_test_unary() {
    let ctx = exp::Context {
        parameters: strings(&["a"]),
        unary_ops: strings(&["-"]),
        ..Default::default()
    };
    let expr = parser_prefix::to_expression("-(a)", &ctx).unwrap();
    let block = Block::from_root_expression(&expr, &BlockContext::default());
    let expected_block = block_builder::horizontal_container(vec![
        block_builder::symbol("-".to_string(), Address::new(vec![], None)),
        block_builder::symbol("a".to_string(), Address::new(vec![0], None)),
    ], Address::new(vec![], None));
    assert_eq!(block, expected_block);
}

#[test]
fn binary() {
    let ctx = exp::Context {
        parameters: strings(&["a", "b"]),
        binary_ops: strings(&["+"]),
        ..Default::default()
    };
    let expr = parser_prefix::to_expression("+(a,b)", &ctx).unwrap();
    let block = Block::from_root_expression(&expr, &BlockContext::default());
    let expected_block = block_builder::horizontal_container(vec![
        block_builder::symbol("a".to_string(), Address::new(vec![0], None)),
        block_builder::symbol("+".to_string(), Address::new(vec![], None)),
        block_builder::symbol("b".to_string(), Address::new(vec![1], None)),
    ], Address::new(vec![], None));
    assert_eq!(block, expected_block);
}


#[test]
fn block_test_assoc_train() {
    let ctx = exp::Context {
        parameters: strings(&["a", "b", "c", "d", "e"]),
        binary_ops: strings(&["+"]),
        assoc_ops: strings(&["+"]),
        ..Default::default()
    };
    let expr = parser_prefix::to_expression("+(a,b,c,d,e)", &ctx).unwrap();
    let block = Block::from_root_expression(&expr, &BlockContext::default());
    let expected_block = block_builder::horizontal_container(vec![
        block_builder::symbol("a".to_string(), Address::new(vec![0], None)),
        block_builder::symbol("+".to_string(), Address::new(vec![], None).sub(0)),
        block_builder::symbol("b".to_string(), Address::new(vec![1], None)),
        block_builder::symbol("+".to_string(), Address::new(vec![], None).sub(1)),
        block_builder::symbol("c".to_string(), Address::new(vec![2], None)),
        block_builder::symbol("+".to_string(), Address::new(vec![], None).sub(2)),
        block_builder::symbol("d".to_string(), Address::new(vec![3], None)),
        block_builder::symbol("+".to_string(), Address::new(vec![], None).sub(3)),
        block_builder::symbol("e".to_string(), Address::new(vec![4], None)),
    ], Address::new(vec![], None));
    assert_eq!(block, expected_block);
}

#[test]
fn assoc_train_with_inverse() {
    let ctx = exp::Context {
        parameters: strings(&["a", "b", "c", "d", "e"]),
        unary_ops: strings(&["-"]),
        binary_ops: strings(&["+"]),
        assoc_ops: strings(&["+"]),
        ..Default::default()
    };
    let block_ctx = BlockContext {
        inverse_ops: pair_map(&[("+", "-")]),
        ..Default::default()
    };
    let expr = parser_prefix::to_expression("+(-(a),b,c,-(d),-(e))", &ctx).unwrap();
    let block = Block::from_root_expression(&expr, &block_ctx);
    let expected_block = block_builder::horizontal_container(vec![
        block_builder::symbol("-".to_string(), Address::new(vec![0], None)),
        block_builder::symbol("a".to_string(), Address::new(vec![0,0], None)),
        block_builder::symbol("+".to_string(), Address::new(vec![], None).sub(0)),
        block_builder::symbol("b".to_string(), Address::new(vec![1], None)),
        block_builder::symbol("+".to_string(), Address::new(vec![], None).sub(1)),
        block_builder::symbol("c".to_string(), Address::new(vec![2], None)),
        block_builder::symbol("-".to_string(), Address::new(vec![], None).sub(2)),
        block_builder::symbol("d".to_string(), Address::new(vec![3,0], None)),
        block_builder::symbol("-".to_string(), Address::new(vec![], None).sub(3)),
        block_builder::symbol("e".to_string(), Address::new(vec![4,0], None)),
    ], Address::new(vec![], None));
    
    print_block_tree(&block);
    print_block_tree(&expected_block);
    assert_eq!(block, expected_block);
}

#[test]
fn assoc_train_with_inverse_complex() {
    let ctx = exp::Context {
        parameters: strings(&["a", "b", "c", "d", "e"]),
        unary_ops: strings(&["-"]),
        binary_ops: strings(&["+", "*"]),
        assoc_ops: strings(&["+"]),
        ..Default::default()
    };
    let block_ctx = BlockContext {
        inverse_ops: pair_map(&[("+", "-")]),
        ..Default::default()
    };
    let expr = parser_prefix::to_expression("+(-(a),b,-(*(c,d)),e)", &ctx).unwrap();
    let block = Block::from_root_expression(&expr, &block_ctx);
    let expected_block = block_builder::horizontal_container(vec![
        block_builder::symbol("-".to_string(), Address::new(vec![0], None)),
        block_builder::symbol("a".to_string(), Address::new(vec![0,0], None)),
        block_builder::symbol("+".to_string(), Address::new(vec![], None).sub(0)),
        block_builder::symbol("b".to_string(), Address::new(vec![1], None)),
        block_builder::symbol("-".to_string(), Address::new(vec![], None).sub(1)),
        block_builder::horizontal_container(vec![
            block_builder::symbol("c".to_string(), Address::new(vec![2,0,0], None)),
            block_builder::symbol("*".to_string(), Address::new(vec![2,0], None)),
            block_builder::symbol("d".to_string(), Address::new(vec![2,0,1], None)),
        ], Address::new(vec![2,0], None)).add_tag(BlockTag::Parentheses),
        block_builder::symbol("+".to_string(), Address::new(vec![], None).sub(2)),
        block_builder::symbol("e".to_string(), Address::new(vec![3], None)),
    ], Address::new(vec![], None));
    
    print_block_tree(&block);
    print_block_tree(&expected_block);
    assert_eq!(block, expected_block);
}

#[test]
fn nested_binary(){
    let ctx = exp::Context {
        parameters: strings(&["a", "b", "c"]),
        binary_ops: strings(&["*"]),
        ..Default::default()
    };
    let expr = parser_prefix::to_expression("*(*(a,b),c)", &ctx).unwrap();
    let block = Block::from_root_expression(&expr, &BlockContext::default());
    let expected_block = block_builder::horizontal_container(vec![
        block_builder::horizontal_container(vec![
            block_builder::symbol("a".to_string(), Address::new(vec![0,0], None)),
            block_builder::symbol("*".to_string(), Address::new(vec![0], None)),
            block_builder::symbol("b".to_string(), Address::new(vec![0,1], None)),
        ], Address::new(vec![0], None)),
        block_builder::symbol("*".to_string(), Address::new(vec![], None)),
        block_builder::symbol("c".to_string(), Address::new(vec![1], None)),
    ], Address::new(vec![], None));
    assert_eq!(block, expected_block);
}

#[test]
fn nested_binary_assoc(){
    let ctx = exp::Context {
        parameters: strings(&["a", "b", "c"]),
        binary_ops: strings(&["+", "*"]),
        assoc_ops: strings(&["+"]),
        ..Default::default()
    };
    let expr = parser_prefix::to_expression("*(*(a,b),+(c,*(e,f),d))", &ctx).unwrap();
    let block = Block::from_root_expression(&expr, &BlockContext::default());
    let expected_block = block_builder::horizontal_container(vec![
        block_builder::horizontal_container(vec![
            block_builder::symbol("a".to_string(), Address::new(vec![0,0], None)),
            block_builder::symbol("*".to_string(), Address::new(vec![0], None)),
            block_builder::symbol("b".to_string(), Address::new(vec![0,1], None)),
        ], Address::new(vec![0], None)),
        block_builder::symbol("*".to_string(), Address::new(vec![], None)),
        block_builder::horizontal_container(vec![
            block_builder::symbol("c".to_string(), Address::new(vec![1,0], None)),
            block_builder::symbol("+".to_string(), Address::new(vec![1], None).sub(0)),
            block_builder::horizontal_container(vec![
                block_builder::symbol("e".to_string(), Address::new(vec![1,1,0], None)),
                block_builder::symbol("*".to_string(), Address::new(vec![1,1], None)),
                block_builder::symbol("f".to_string(), Address::new(vec![1,1,1], None)),
            ], Address::new(vec![1,1], None)),
            block_builder::symbol("+".to_string(), Address::new(vec![1], None).sub(1)),
            block_builder::symbol("d".to_string(), Address::new(vec![1,2], None)),
        ], Address::new(vec![1], None)),
    ], Address::new(vec![], None));
    assert_eq!(block, expected_block);
}

#[test]
fn fraction() {
    let ctx = exp::Context {
        parameters: strings(&["a", "b", "c"]),
        binary_ops: strings(&["+", "/"]),
        ..Default::default()
    };
    let block_ctx = BlockContext {
        fraction_ops: strings(&["/"]),
        ..Default::default()
    };
    let expr = parser_prefix::to_expression("+(a,/(+(a,b),c))", &ctx).unwrap();
    let block = Block::from_root_expression(&expr, &block_ctx);
    let expected_block = block_builder::horizontal_container(vec![
        block_builder::symbol("a".to_string(), Address::new(vec![0], None)),
        block_builder::symbol("+".to_string(), Address::new(vec![], None)),
        block_builder::fraction_container(vec![
            block_builder::horizontal_container(vec![
                block_builder::symbol("a".to_string(), Address::new(vec![1,0,0], None)),
                block_builder::symbol("+".to_string(), Address::new(vec![1,0], None)),
                block_builder::symbol("b".to_string(), Address::new(vec![1,0,1], None)),
            ], Address::new(vec![1,0], None)),
            block_builder::symbol("c".to_string(), Address::new(vec![1,1], None)),
        ], Address::new(vec![1], None))
    ], Address::new(vec![], None));
    print_block_tree(&block);
    print_block_tree(&expected_block);
    assert_eq!(block, expected_block);
}

#[test]
fn algebra_with_number(){
    let ctx = get_arithmetic_ctx().add_param("x".to_string());
    let expr = parser_prefix::to_expression("=(-(*(2,x),1),3)", &ctx).unwrap();
    assert_eq!(expr.to_string(true), "(((2 * x) - 1) = 3)");
    let block = Block::from_root_expression(&expr, &BlockContext::default());
    let expected_block = block_builder::horizontal_container(vec![
        block_builder::horizontal_container(vec![
            block_builder::horizontal_container(vec![
                block_builder::symbol("2".to_string(), Address::new(vec![0,0,0], None)),
                block_builder::symbol("*".to_string(), Address::new(vec![0,0], None)),
                block_builder::symbol("x".to_string(), Address::new(vec![0,0,1], None)),
            ], Address::new(vec![0,0], None)),
            block_builder::symbol("-".to_string(), Address::new(vec![0], None)),
            block_builder::symbol("1".to_string(), Address::new(vec![0,1], None)),
        ], Address::new(vec![0], None)),
        block_builder::symbol("=".to_string(), Address::new(vec![], None)),
        block_builder::symbol("3".to_string(), Address::new(vec![1], None)),
    ], Address::new(vec![], None));
    assert_eq!(block, expected_block);
}

#[test]
fn conceal_multiplication_marks_the_operator() {
    let ctx = exp::Context {
        parameters: strings(&["1", "2", "x"]),
        binary_ops: strings(&["*", "+"]),
        ..Default::default()
    };
    let block_ctx = BlockContext {
        conceal_ops: strings(&["*"]),
        ..Default::default()
    };
    let expr = parser::to_expression("(2 * x) + 1", &ctx).unwrap();
    let block = Block::from_root_expression(&expr, &block_ctx);
    let expected_block = block_builder::horizontal_container(vec![
        block_builder::horizontal_container(vec![
            block_builder::symbol("2".to_string(), Address::new(vec![0,0], None)).add_tag(BlockTag::LeftOfConcealed),
            block_builder::symbol("*".to_string(), Address::new(vec![0], None)).add_tag(BlockTag::Concealed),
            block_builder::symbol("x".to_string(), Address::new(vec![0,1], None)).add_tag(BlockTag::RightOfConcealed),
        ], Address::new(vec![0], None)),
        block_builder::symbol("+".to_string(), Address::new(vec![], None)),
        block_builder::symbol("1".to_string(), Address::new(vec![1], None)),
    ], Address::new(vec![], None));
    print_block_tree(&block);
    assert_eq!(block, expected_block);
}

#[test]
fn operator_presedence() {
    let ctx = exp::Context {
        parameters: strings(&["a", "b", "c"]),
        binary_ops: strings(&["+", "*"]),
        ..Default::default()
    };
    let block_ctx = BlockContext {
        op_precedence: index_map(&["+", "*"]),
        ..Default::default()
    };
    let expr = parser::to_expression("(a * b) + c", &ctx).unwrap();
    let block = Block::from_root_expression(&expr, &block_ctx);
    let expected_block = block_builder::horizontal_container(vec![
        block_builder::horizontal_container(vec![
            block_builder::symbol("a".to_string(), Address::new(vec![0,0], None)),
            block_builder::symbol("*".to_string(), Address::new(vec![0], None)),
            block_builder::symbol("b".to_string(), Address::new(vec![0,1], None)),
        ], Address::new(vec![0], None)),
        block_builder::symbol("+".to_string(), Address::new(vec![], None)),
        block_builder::symbol("c".to_string(), Address::new(vec![1], None)),
    ], Address::new(vec![], None));
    
    print_block_tree(&block);
    print_block_tree(&expected_block);
    assert_eq!(block, expected_block);
    
    let expr = parser::to_expression("(a + b) * c", &ctx).unwrap();
    let block = Block::from_root_expression(&expr, &block_ctx);
    let expected_block = block_builder::horizontal_container(vec![
        block_builder::horizontal_container(vec![
            block_builder::symbol("a".to_string(), Address::new(vec![0,0], None)),
            block_builder::symbol("+".to_string(), Address::new(vec![0], None)),
            block_builder::symbol("b".to_string(), Address::new(vec![0,1], None)),
        ], Address::new(vec![0], None)).add_tag(BlockTag::Parentheses),
        block_builder::symbol("*".to_string(), Address::new(vec![], None)),
        block_builder::symbol("c".to_string(), Address::new(vec![1], None)),
    ], Address::new(vec![], None));
    
    print_block_tree(&block);
    print_block_tree(&expected_block);
    assert_eq!(block, expected_block);
}

#[test]
fn form_worksheet() {
    let mut ws: Worksheet<AlgebraNormalization, NoSuggestions> = Worksheet::new();
    ws.set_expression_context(get_arithmetic_ctx().add_params(strings(&["x"])));
    ws.set_normalization_function(AlgebraNormalization);
    
    let expr = parser_prefix::to_expression("=(-(*(2,x),1),3)", &ws.get_expression_context()).unwrap();
    assert_eq!(expr.clone().to_string(true), "(((2 * x) - 1) = 3)");
    ws.introduce_expression(expr.clone());
    let seq0 = ws.get_workable_expression_sequence(0).unwrap();
    let expr0 = seq0.last_expression();
    assert_eq!(expr0.to_string(true), "(((2 * x) - 1) = 3)");
    let block = Block::from_root_expression(expr0, &BlockContext::default());
    let expected_block = block_builder::horizontal_container(vec![
        block_builder::horizontal_container(vec![
            block_builder::horizontal_container(vec![
                block_builder::symbol("2".to_string(), Address::new(vec![0,0,0], None)),
                block_builder::symbol("*".to_string(), Address::new(vec![0,0], None)),
                block_builder::symbol("x".to_string(), Address::new(vec![0,0,1], None)),
            ], Address::new(vec![0,0], None)),
            block_builder::symbol("-".to_string(), Address::new(vec![0], None)),
            block_builder::symbol("1".to_string(), Address::new(vec![0,1], None)),
        ], Address::new(vec![0], None)),
        block_builder::symbol("=".to_string(), Address::new(vec![], None)),
        block_builder::symbol("3".to_string(), Address::new(vec![1], None)),
    ], Address::new(vec![], None));
    assert_eq!(block, expected_block);
}
