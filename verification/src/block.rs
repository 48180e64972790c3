//! The layout of an expression as nested blocks, each marked with the
//! address it stands for.

use vstd::prelude::*;

use crate::expression::Address;
use crate::expression::AddressView;
use crate::expression::Expression;
use crate::expression::ExpressionType;
use crate::expression::ExpressionView;
use crate::expression::context::clone_strings;
use crate::expression::context::list_contains;
use crate::expression::tree::lemma_child_height;
use crate::expression::views;
use crate::text::str_eq;
use crate::text::strings_view;
use crate::text_map::TextMap;
use crate::utils::is_number;
use crate::utils::is_numeral;

pub mod block_builder;

verus! {

/// What a block is.
#[derive(Debug, PartialEq, Eq, Clone, Copy, Structural)]
pub enum BlockType {
    Symbol,
    HorizontalContainer,
    FractionContainer,
}

impl Default for BlockType {
    fn default() -> (r: BlockType)
        ensures
            r == BlockType::Symbol,
    {
        BlockType::Symbol
    }
}

/// How the operators are to be laid out.
pub struct BlockContext {
    /// For an operator, the operator that undoes it.
    pub inverse_ops: TextMap<String>,
    /// The operators that are drawn as fractions.
    pub fraction_ops: Vec<String>,
    /// The operators that need not be drawn, like multiplication.
    pub conceal_ops: Vec<String>,
    /// The precedence of the operators; a higher number binds tighter.
    pub op_precedence: TextMap<usize>,
}

/// The mathematical value of a [`BlockContext`].
pub struct BlockContextView {
    pub inverse_ops: Map<Seq<char>, Seq<char>>,
    pub fraction_ops: Seq<Seq<char>>,
    pub conceal_ops: Seq<Seq<char>>,
    pub op_precedence: Map<Seq<char>, usize>,
}

impl View for BlockContext {
    type V = BlockContextView;

    open spec fn view(&self) -> BlockContextView {
        BlockContextView {
            inverse_ops: self.inverse_ops@,
            fraction_ops: strings_view(self.fraction_ops@),
            conceal_ops: strings_view(self.conceal_ops@),
            op_precedence: self.op_precedence@,
        }
    }
}

impl BlockContextView {
    /// Whether both operators have a precedence and that of `a` is the
    /// higher.
    pub open spec fn has_precedence_over(self, a: Seq<char>, b: Seq<char>) -> bool {
        self.op_precedence.dom().contains(a) && self.op_precedence.dom().contains(b) && self.op_precedence[a]
            > self.op_precedence[b]
    }
}

impl Default for BlockContext {
    fn default() -> (c: BlockContext)
        ensures
            c@.inverse_ops == Map::<Seq<char>, Seq<char>>::empty(),
            c@.fraction_ops == Seq::<Seq<char>>::empty(),
            c@.conceal_ops == Seq::<Seq<char>>::empty(),
            c@.op_precedence == Map::<Seq<char>, usize>::empty(),
    {
        let c = BlockContext {
            inverse_ops: TextMap::new(),
            fraction_ops: Vec::new(),
            conceal_ops: Vec::new(),
            op_precedence: TextMap::new(),
        };
        assert(c@.fraction_ops =~= Seq::<Seq<char>>::empty());
        assert(c@.conceal_ops =~= Seq::<Seq<char>>::empty());
        c
    }
}

impl Clone for BlockContext {
    fn clone(&self) -> (res: Self)
        ensures
            res@ == self@,
    {
        BlockContext {
            inverse_ops: self.inverse_ops.clone(),
            fraction_ops: clone_strings(&self.fraction_ops),
            conceal_ops: clone_strings(&self.conceal_ops),
            op_precedence: self.op_precedence.clone(),
        }
    }
}

impl BlockContext {
    /// Whether both operators have a precedence and that of `a` is the
    /// higher.
    pub fn has_precedence_over(&self, a: &str, b: &str) -> (r: bool)
        ensures
            r == self@.has_precedence_over(a@, b@),
    {
        match (self.op_precedence.get(a), self.op_precedence.get(b)) {
            (Some(x), Some(y)) => *x > *y,
            _ => false,
        }
    }
}

/// A mark on a block.
#[derive(Debug, PartialEq, Eq, Clone, Copy, Structural)]
pub enum BlockTag {
    Parentheses,
    Concealed,
    LeftOfConcealed,
    RightOfConcealed,
}

/// A piece of the layout: a symbol, or a container of blocks.
#[derive(Debug, PartialEq)]
pub struct Block {
    pub block_type: BlockType,
    pub address: Address,
    pub symbol: Option<String>,
    pub children: Option<Vec<Block>>,
    pub tags: Vec<BlockTag>,
}

/// The mathematical value of a [`Block`].
pub struct BlockView {
    pub block_type: BlockType,
    pub address: AddressView,
    pub symbol: Option<Seq<char>>,
    pub children: Option<Seq<BlockView>>,
    pub tags: Seq<BlockTag>,
}

impl Block {
    /// The model of this block.
    pub open spec fn model(self) -> BlockView
        decreases self,
    {
        BlockView {
            block_type: self.block_type,
            address: self.address@,
            symbol: match self.symbol {
                None => None,
                Some(s) => Some(s@),
            },
            children: match self.children {
                None => None,
                Some(v) => Some(
                    Seq::new(
                        v.len() as nat,
                        |i: int|
                            if 0 <= i < v.len() {
                                v[i].model()
                            } else {
                                BlockView::symbol(Seq::empty(), AddressView { path: Seq::empty(), sub: None })
                            },
                    ),
                ),
            },
            tags: self.tags@,
        }
    }

    /// How the model of a block is made of the models of its children.
    pub proof fn lemma_view(&self)
        ensures
            self@.block_type == self.block_type,
            self@.address == self.address@,
            self@.symbol == match self.symbol {
                None => None::<Seq<char>>,
                Some(s) => Some(s@),
            },
            self@.children == match self.children {
                None => None::<Seq<BlockView>>,
                Some(v) => Some(block_views(v@)),
            },
            self@.tags == self.tags@,
    {
        match self.children {
            None => {},
            Some(v) => {
                assert(self@.children->0 =~= block_views(v@));
            },
        }
    }
}

impl View for Block {
    type V = BlockView;

    open spec fn view(&self) -> BlockView {
        self.model()
    }
}

/// The models of a list of blocks.
pub open spec fn block_views(v: Seq<Block>) -> Seq<BlockView> {
    Seq::new(v.len(), |i: int| v[i]@)
}

/// The tags of `tags` that are not `tag`, in their order.
pub open spec fn tags_without(tags: Seq<BlockTag>, tag: BlockTag) -> Seq<BlockTag> {
    tags.filter(|t: BlockTag| t != tag)
}

impl BlockView {
    /// The block of a symbol.
    pub open spec fn symbol(symbol: Seq<char>, address: AddressView) -> BlockView {
        BlockView {
            block_type: BlockType::Symbol,
            address,
            symbol: Some(symbol),
            children: None,
            tags: Seq::empty(),
        }
    }

    /// A container of blocks.
    pub open spec fn container(block_type: BlockType, children: Seq<BlockView>, address: AddressView) -> BlockView {
        BlockView { block_type, address, symbol: None, children: Some(children), tags: Seq::empty() }
    }

    /// A row of blocks.
    pub open spec fn row(children: Seq<BlockView>, address: AddressView) -> BlockView {
        Self::container(BlockType::HorizontalContainer, children, address)
    }

    /// The comma between the arguments of a function.
    pub open spec fn comma() -> BlockView {
        Self::symbol(seq![','], AddressView { path: Seq::empty(), sub: None })
    }

    /// The block with one more tag.
    pub open spec fn with_tag(self, tag: BlockTag) -> BlockView {
        BlockView { tags: self.tags.push(tag), ..self }
    }

    /// The block without the tag `tag`.
    pub open spec fn without_tag(self, tag: BlockTag) -> BlockView {
        BlockView { tags: tags_without(self.tags, tag), ..self }
    }

    /// The block of the operand `source` of `parent_op`, between brackets
    /// where `parent_op` binds tighter than the operator of `source`.
    pub open spec fn parenthesized(self, ctx: BlockContextView, source: ExpressionView, parent_op: Seq<char>) -> BlockView {
        if source.is_operator() && ctx.has_precedence_over(parent_op, source.symbol) {
            self.with_tag(BlockTag::Parentheses)
        } else {
            self
        }
    }
}

impl AddressView {
    /// The address of child `i`.
    pub open spec fn child(self, i: usize) -> AddressView {
        AddressView { path: self.path.push(i), sub: self.sub }
    }

    /// The address of the pair that starts at `i`.
    pub open spec fn pair(self, i: usize) -> AddressView {
        AddressView { path: self.path, sub: Some(i) }
    }
}

impl ExpressionView {
    /// Whether every operator of the tree has the operands that its kind
    /// asks for: one for a unary operator and a variadic marker, two for a
    /// binary operator and a statement, a list for a function and a train.
    pub open spec fn is_complete(self) -> bool
        decreases self,
    {
        match self.kind {
            ExpressionType::ValueConst | ExpressionType::ValueVar => true,
            ExpressionType::Variadic | ExpressionType::OperatorUnary => self.children is Some && self.arity() >= 1
                && self.children->0[0].is_complete(),
            ExpressionType::StatementOperatorBinary | ExpressionType::OperatorBinary => self.children is Some
                && self.arity() >= 2 && self.children->0[0].is_complete() && self.children->0[1].is_complete(),
            ExpressionType::OperatorNary | ExpressionType::AssocTrain => self.children is Some && forall|i: int|
                0 <= i < self.arity() ==> (#[trigger] self.children->0[i]).is_complete(),
        }
    }

    /// Whether child `i` of this train is drawn as the inverse operator
    /// before its operand: a unary operator whose symbol is the inverse of
    /// the operator of the train.
    pub open spec fn is_inverse_item(self, ctx: BlockContextView, i: int) -> bool {
        let child = self.children->0[i];
        child.kind == ExpressionType::OperatorUnary && ctx.inverse_ops.dom().contains(self.symbol)
            && ctx.inverse_ops[self.symbol] == child.symbol
    }

    /// The blocks of child `i` of this train, which lies at `address`: the
    /// operator before the child, if it is not the first, and the child; or,
    /// for a child that negates, the inverse operator and the operand of the
    /// child.
    pub open spec fn train_item(self, address: AddressView, ctx: BlockContextView, i: int) -> Seq<BlockView>
        decreases self.height(), 0nat,
    {
        if self.children is None || i < 0 || i >= self.arity() || i > usize::MAX {
            Seq::empty()
        } else {
            let child = self.children->0[i];
            if self.is_inverse_item(ctx, i) && child.children is Some && child.arity() >= 1 {
                proof {
                    lemma_child_height(self, i);
                    lemma_child_height(child, 0);
                }
                let operand = child.children->0[0].block(address.child(i as usize).child(0), ctx);
                let operand = if operand.block_type != BlockType::Symbol {
                    operand.with_tag(BlockTag::Parentheses)
                } else {
                    operand
                };
                let op_address = if i == 0 {
                    address.child(0)
                } else {
                    address.pair((i - 1) as usize)
                };
                seq![BlockView::symbol(ctx.inverse_ops[self.symbol], op_address), operand]
            } else {
                proof {
                    lemma_child_height(self, i);
                }
                let item = child.block(address.child(i as usize), ctx);
                if i > 0 {
                    seq![BlockView::symbol(self.symbol, address.pair((i - 1) as usize)), item]
                } else {
                    seq![item]
                }
            }
        }
    }

    /// The blocks of the first `n` children of this train.
    pub open spec fn train_items(self, address: AddressView, ctx: BlockContextView, n: nat) -> Seq<BlockView>
        decreases self.height(), n + 1,
    {
        if n == 0 {
            Seq::empty()
        } else {
            self.train_items(address, ctx, (n - 1) as nat) + self.train_item(address, ctx, n - 1)
        }
    }

    /// The blocks of the first `n` arguments of this function, a comma
    /// after each but the last of all.
    pub open spec fn argument_items(self, address: AddressView, ctx: BlockContextView, n: nat) -> Seq<BlockView>
        decreases self.height(), n,
    {
        if n == 0 || self.children is None || n > self.arity() || n > usize::MAX {
            Seq::empty()
        } else {
            proof {
                lemma_child_height(self, n - 1);
            }
            let earlier = self.argument_items(address, ctx, (n - 1) as nat);
            let item = self.children->0[n - 1].block(address.child((n - 1) as usize), ctx);
            if n < self.arity() {
                earlier.push(item).push(BlockView::comma())
            } else {
                earlier.push(item)
            }
        }
    }

    /// The block of operand `i` of this operator.
    pub open spec fn operand_block(self, address: AddressView, ctx: BlockContextView, i: usize) -> BlockView
        decreases self.height(), 0nat,
    {
        if self.children is Some && i < self.arity() {
            proof {
                lemma_child_height(self, i as int);
            }
            self.children->0[i as int].block(address.child(i), ctx)
        } else {
            BlockView::symbol(Seq::empty(), address)
        }
    }

    /// The layout of this expression, which lies at `address`.
    ///
    /// A value is its symbol. A unary operator is a row of the operator and
    /// its operand. A binary operator is a row of its operands with the
    /// operator between them, or a fraction; an operand stands between
    /// brackets where the operator binds tighter than its own. A function is
    /// a row of its symbol and the row of its arguments. A train is a row of
    /// its operands with the operator, at the address of each pair, between
    /// them.
    pub open spec fn block(self, address: AddressView, ctx: BlockContextView) -> BlockView
        decreases self.height(), self.arity() + 2,
    {
        match self.kind {
            ExpressionType::ValueConst | ExpressionType::ValueVar => BlockView::symbol(self.symbol, address),
            ExpressionType::Variadic | ExpressionType::OperatorUnary => BlockView::row(
                seq![BlockView::symbol(self.symbol, address), self.operand_block(address, ctx, 0)],
                address,
            ),
            ExpressionType::StatementOperatorBinary | ExpressionType::OperatorBinary => {
                let left = self.operand_block(address, ctx, 0).parenthesized(
                    ctx,
                    self.children->0[0],
                    self.symbol,
                );
                let right = self.operand_block(address, ctx, 1).parenthesized(
                    ctx,
                    self.children->0[1],
                    self.symbol,
                );
                if ctx.fraction_ops.contains(self.symbol) {
                    BlockView::container(BlockType::FractionContainer, seq![left, right], address)
                } else if ctx.conceal_ops.contains(self.symbol) && !is_numeral(self.children->0[1].symbol) {
                    BlockView::row(
                        seq![
                            left.with_tag(BlockTag::LeftOfConcealed),
                            BlockView::symbol(self.symbol, address).with_tag(BlockTag::Concealed),
                            right.with_tag(BlockTag::RightOfConcealed),
                        ],
                        address,
                    )
                } else {
                    BlockView::row(seq![left, BlockView::symbol(self.symbol, address), right], address)
                }
            },
            ExpressionType::OperatorNary => BlockView::row(
                seq![
                    BlockView::symbol(self.symbol, address),
                    BlockView::row(self.argument_items(address, ctx, self.arity()), address),
                ],
                address,
            ),
            ExpressionType::AssocTrain => BlockView::row(self.train_items(address, ctx, self.arity()), address),
        }
    }
}

impl Clone for Block {
    #[verifier::loop_isolation(false)]
    fn clone(&self) -> (res: Self)
        ensures
            res@ == self@,
        decreases self,
    {
        proof {
            self.lemma_view();
        }
        let children = match &self.children {
            None => None,
            Some(v) => {
                let mut out: Vec<Block> = Vec::new();
                let mut i: usize = 0;
                while i < v.len()
                    invariant
                        i <= v.len(),
                        out.len() == i,
                        forall|j: int| 0 <= j < i ==> out@[j]@ == v@[j]@,
                    decreases v.len() - i,
                {
                    out.push(v[i].clone());
                    i += 1;
                }
                assert(block_views(out@) =~= block_views(v@));
                Some(out)
            },
        };
        let mut tags: Vec<BlockTag> = Vec::new();
        let mut k: usize = 0;
        while k < self.tags.len()
            invariant
                k <= self.tags.len(),
                tags@ == self.tags@.take(k as int),
            decreases self.tags.len() - k,
        {
            tags.push(self.tags[k]);
            assert(tags@ =~= self.tags@.take(k + 1));
            k += 1;
        }
        assert(self.tags@.take(k as int) =~= self.tags@);
        let res = Block {
            block_type: self.block_type,
            address: self.address.clone(),
            symbol: match &self.symbol {
                None => None,
                Some(s) => Some(s.clone()),
            },
            children,
            tags,
        };
        proof {
            res.lemma_view();
        }
        res
    }
}

impl Default for Block {
    fn default() -> (b: Block)
        ensures
            b@.block_type == BlockType::Symbol,
            b@.symbol is None,
            b@.children is None,
            b@.tags == Seq::<BlockTag>::empty(),
            b@.address == (AddressView { path: Seq::empty(), sub: None }),
    {
        let b = Block {
            block_type: BlockType::Symbol,
            address: Address::default(),
            symbol: None,
            children: None,
            tags: Vec::new(),
        };
        proof {
            b.lemma_view();
        }
        b
    }
}

impl Block {
    /// Puts the parts of a block together.
    pub fn from_parts(
        block_type: BlockType,
        address: Address,
        symbol: Option<String>,
        children: Option<Vec<Block>>,
        tags: Vec<BlockTag>,
    ) -> (b: Block)
        ensures
            b@.block_type == block_type,
            b@.address == address@,
            b@.symbol == match symbol {
                None => None::<Seq<char>>,
                Some(s) => Some(s@),
            },
            b@.children == match children {
                None => None::<Seq<BlockView>>,
                Some(v) => Some(block_views(v@)),
            },
            b@.tags == tags@,
    {
        let b = Block { block_type, address, symbol, children, tags };
        proof {
            b.lemma_view();
        }
        b
    }

    pub fn add_tag(self, tag: BlockTag) -> (b: Block)
        ensures
            b@ == self@.with_tag(tag),
    {
        proof {
            self.lemma_view();
        }
        let Block { block_type, address, symbol, children, tags } = self;
        let mut tags = tags;
        tags.push(tag);
        Block::from_parts(block_type, address, symbol, children, tags)
    }

    /// The block without any tag equal to `tag`.
    pub fn remove_tag(self, tag: &BlockTag) -> (b: Block)
        ensures
            b@ == self@.without_tag(*tag),
    {
        proof {
            self.lemma_view();
        }
        let Block { block_type, address, symbol, children, tags } = self;
        let mut kept: Vec<BlockTag> = Vec::new();
        let mut i: usize = 0;
        assert(tags_without(tags@.take(0), *tag) =~= Seq::<BlockTag>::empty()) by {
            assert(tags@.take(0) =~= Seq::<BlockTag>::empty());
        }
        while i < tags.len()
            invariant
                i <= tags.len(),
                kept@ == tags_without(tags@.take(i as int), *tag),
            decreases tags.len() - i,
        {
            proof {
                assert(tags@.take(i + 1).drop_last() =~= tags@.take(i as int));
                assert(tags@.take(i + 1).last() == tags@[i as int]);
                reveal_with_fuel(Seq::filter, 2);
            }
            if tags[i] != *tag {
                kept.push(tags[i]);
            }
            i += 1;
        }
        assert(tags@.take(i as int) =~= tags@);
        Block::from_parts(block_type, address, symbol, children, kept)
    }

    pub fn contains_tag(&self, tag: &BlockTag) -> (r: bool)
        ensures
            r == self@.tags.contains(*tag),
    {
        proof {
            self.lemma_view();
        }
        let mut i: usize = 0;
        while i < self.tags.len()
            invariant
                i <= self.tags.len(),
                forall|j: int| 0 <= j < i ==> self.tags@[j] != *tag,
            decreases self.tags.len() - i,
        {
            if self.tags[i] == *tag {
                return true;
            }
            i += 1;
        }
        false
    }

    fn set_parenthesis_based_on_precedence(self, ctx: &BlockContext, src_expr: &Expression, parent_op: &str) -> (b:
        Block)
        ensures
            b@ == self@.parenthesized(ctx@, src_expr@, parent_op@),
    {
        if !src_expr.is_operator() {
            return self;
        }
        if ctx.has_precedence_over(parent_op, src_expr.symbol.as_str()) {
            self.add_tag(BlockTag::Parentheses)
        } else {
            self
        }
    }

    /// The layout of the whole expression `expr`.
    pub fn from_root_expression(expr: &Expression, ctx: &BlockContext) -> (b: Block)
        requires
            expr@.is_complete(),
        ensures
            b@ == expr@.block(AddressView { path: Seq::empty(), sub: None }, ctx@),
    {
        Block::from_expression(expr, Address::default(), ctx)
    }

    /// The block of operand `i` of `expr`, which lies at `addr`.
    fn operand_block(expr: &Expression, addr: &Address, ctx: &BlockContext, i: usize) -> (b: Block)
        requires
            expr@.is_complete(),
            expr@.children is Some,
            i < expr@.arity(),
            expr@.children->0[i as int].is_complete(),
        ensures
            b@ == expr@.operand_block(addr@, ctx@, i),
        decreases expr@.height(), 0nat,
    {
        proof {
            expr.lemma_view();
            lemma_child_height(expr@, i as int);
        }
        match &expr.children {
            Some(children) => Block::from_expression(&children[i], addr.append(i), ctx),
            None => block_builder::symbol(String::new(), addr.clone()),
        }
    }

    /// The layout of the binary operator or statement `expr`.
    fn binary_block(expr: &Expression, addr: Address, ctx: &BlockContext) -> (b: Block)
        requires
            expr@.is_complete(),
            expr@.kind == ExpressionType::StatementOperatorBinary || expr@.kind == ExpressionType::OperatorBinary,
        ensures
            b@ == expr@.block(addr@, ctx@),
        decreases expr@.height(), 1nat,
    {
        proof {
            expr.lemma_view();
        }
        let symbol = expr.symbol.clone();
        let expr_children = match &expr.children {
            Some(c) => c,
            None => {
                return block_builder::symbol(symbol, addr);
            },
        };
        let left_expr = &expr_children[0];
        let right_expr = &expr_children[1];
        let left_block = Block::operand_block(expr, &addr, ctx, 0).set_parenthesis_based_on_precedence(
            ctx,
            left_expr,
            symbol.as_str(),
        );
        let right_block = Block::operand_block(expr, &addr, ctx, 1).set_parenthesis_based_on_precedence(
            ctx,
            right_expr,
            symbol.as_str(),
        );
        if list_contains(&ctx.fraction_ops, symbol.as_str()) {
            block_builder::fraction_container(block_builder::two(left_block, right_block), addr)
        } else {
            proof {
                right_expr.lemma_view();
            }
            let is_conceal = list_contains(&ctx.conceal_ops, symbol.as_str()) && !is_number(
                right_expr.symbol.as_str(),
            );
            let operator_block = block_builder::symbol(symbol, addr.clone());
            if is_conceal {
                let operator_block = operator_block.add_tag(BlockTag::Concealed);
                let left_block = left_block.add_tag(BlockTag::LeftOfConcealed);
                let right_block = right_block.add_tag(BlockTag::RightOfConcealed);
                block_builder::horizontal_container(
                    block_builder::three(left_block, operator_block, right_block),
                    addr,
                )
            } else {
                block_builder::horizontal_container(
                    block_builder::three(left_block, operator_block, right_block),
                    addr,
                )
            }
        }
    }

    /// The row of the arguments of the function `expr`.
    fn argument_blocks(expr: &Expression, addr: &Address, ctx: &BlockContext) -> (items: Vec<Block>)
        requires
            expr@.is_complete(),
            expr@.kind == ExpressionType::OperatorNary,
        ensures
            block_views(items@) == expr@.argument_items(addr@, ctx@, expr@.arity()),
        decreases expr@.height(), expr@.arity() + 1,
    {
        proof {
            expr.lemma_view();
        }
        let mut children_blocks: Vec<Block> = Vec::new();
        let expr_children = match &expr.children {
            Some(c) => c,
            None => {
                assert(block_views(children_blocks@) =~= Seq::<BlockView>::empty());
                return children_blocks;
            },
        };
        let mut i: usize = 0;
        assert(block_views(children_blocks@) =~= expr@.argument_items(addr@, ctx@, 0));
        while i < expr_children.len()
            invariant
                i <= expr_children.len(),
                expr@.is_complete(),
                expr@.kind == ExpressionType::OperatorNary,
                expr.children == Some(*expr_children),
                expr@.children == Some(views(expr_children@)),
                block_views(children_blocks@) == expr@.argument_items(addr@, ctx@, i as nat),
            decreases expr_children.len() - i,
        {
            proof {
                lemma_child_height(expr@, i as int);
                assert(expr@.children->0[i as int] == expr_children@[i as int]@);
                assert(expr@.children->0[i as int].is_complete());
            }
            let child_addr = addr.append(i);
            let child_block = Block::from_expression(&expr_children[i], child_addr, ctx);
            let ghost before = block_views(children_blocks@);
            let ghost item = child_block@;
            children_blocks.push(child_block);
            assert(block_views(children_blocks@) =~= before.push(item));
            if i < expr_children.len() - 1 {
                children_blocks.push(block_builder::comma());
                assert(block_views(children_blocks@) =~= before.push(item).push(BlockView::comma()));
            }
            i += 1;
        }
        children_blocks
    }

    /// The blocks of child `i` of the train `expr`.
    fn train_item(expr: &Expression, addr: &Address, ctx: &BlockContext, i: usize) -> (items: Vec<Block>)
        requires
            expr@.is_complete(),
            expr@.kind == ExpressionType::AssocTrain,
            i < expr@.arity(),
        ensures
            block_views(items@) == expr@.train_item(addr@, ctx@, i as int),
        decreases expr@.height(), 0nat,
    {
        proof {
            expr.lemma_view();
        }
        let mut items: Vec<Block> = Vec::new();
        let expr_children = match &expr.children {
            Some(c) => c,
            None => {
                return items;
            },
        };
        let child = &expr_children[i];
        let child_addr = addr.append(i);
        proof {
            child.lemma_view();
            lemma_child_height(expr@, i as int);
            assert(expr@.children->0[i as int] == child@);
            assert(child@.is_complete());
        }
        let inverse = match ctx.inverse_ops.get(expr.symbol.as_str()) {
            Some(inv) => if child.exp_type == ExpressionType::OperatorUnary && str_eq(
                child.symbol.as_str(),
                inv.as_str(),
            ) {
                Some(inv)
            } else {
                None
            },
            None => None,
        };
        match inverse {
            Some(inverse_symbol) => {
                proof {
                    lemma_child_height(child@, 0);
                }
                let grandchild_block = match &child.children {
                    Some(grandchildren) => {
                        proof {
                            assert(child@.children->0[0] == grandchildren@[0]@);
                        }
                        Block::from_expression(&grandchildren[0], child_addr.append(0), ctx)
                    },
                    None => block_builder::symbol(String::new(), child_addr.clone()),
                };
                let grandchild_block = if grandchild_block.block_type != BlockType::Symbol {
                    proof {
                        grandchild_block.lemma_view();
                    }
                    grandchild_block.add_tag(BlockTag::Parentheses)
                } else {
                    proof {
                        grandchild_block.lemma_view();
                    }
                    grandchild_block
                };
                let op_addr = if i == 0 {
                    addr.append(i)
                } else {
                    addr.sub(i - 1)
                };
                let op_block = block_builder::symbol(inverse_symbol.clone(), op_addr);
                let ghost first = op_block@;
                let ghost second = grandchild_block@;
                items.push(op_block);
                items.push(grandchild_block);
                assert(block_views(items@) =~= seq![first, second]);
            },
            None => {
                if i > 0 {
                    let op_block = block_builder::symbol(expr.symbol.clone(), addr.sub(i - 1));
                    let child_block = Block::from_expression(child, child_addr, ctx);
                    let ghost first = op_block@;
                    let ghost second = child_block@;
                    items.push(op_block);
                    items.push(child_block);
                    assert(block_views(items@) =~= seq![first, second]);
                } else {
                    let child_block = Block::from_expression(child, child_addr, ctx);
                    let ghost item = child_block@;
                    items.push(child_block);
                    assert(block_views(items@) =~= seq![item]);
                }
            },
        }
        items
    }

    /// The blocks of the children of the train `expr`.
    fn train_blocks(expr: &Expression, addr: &Address, ctx: &BlockContext) -> (items: Vec<Block>)
        requires
            expr@.is_complete(),
            expr@.kind == ExpressionType::AssocTrain,
        ensures
            block_views(items@) == expr@.train_items(addr@, ctx@, expr@.arity()),
        decreases expr@.height(), 1nat,
    {
        let n = expr.arity();
        let mut children_blocks: Vec<Block> = Vec::new();
        let mut i: usize = 0;
        assert(block_views(children_blocks@) =~= expr@.train_items(addr@, ctx@, 0));
        while i < n
            invariant
                i <= n,
                n == expr@.arity(),
                expr@.is_complete(),
                expr@.kind == ExpressionType::AssocTrain,
                block_views(children_blocks@) == expr@.train_items(addr@, ctx@, i as nat),
            decreases n - i,
        {
            let mut item = Block::train_item(expr, addr, ctx, i);
            let ghost before = children_blocks@;
            let ghost added = item@;
            children_blocks.append(&mut item);
            assert(block_views(children_blocks@) =~= block_views(before) + block_views(added));
            i += 1;
        }
        children_blocks
    }

    /// The layout of `expr`, which lies at `addr`.
    pub fn from_expression(expr: &Expression, addr: Address, ctx: &BlockContext) -> (b: Block)
        requires
            expr@.is_complete(),
        ensures
            b@ == expr@.block(addr@, ctx@),
        decreases expr@.height(), expr@.arity() + 2,
    {
        proof {
            expr.lemma_view();
        }
        match expr.exp_type {
            ExpressionType::ValueConst | ExpressionType::ValueVar => block_builder::symbol(expr.symbol.clone(), addr),
            ExpressionType::Variadic | ExpressionType::OperatorUnary => {
                let operator_block = block_builder::symbol(expr.symbol.clone(), addr.clone());
                let operand_block = Block::operand_block(expr, &addr, ctx, 0);
                block_builder::horizontal_container(block_builder::two(operator_block, operand_block), addr)
            },
            ExpressionType::StatementOperatorBinary | ExpressionType::OperatorBinary => Block::binary_block(
                expr,
                addr,
                ctx,
            ),
            ExpressionType::OperatorNary => {
                let operator_block = block_builder::symbol(expr.symbol.clone(), addr.clone());
                let children_blocks = Block::argument_blocks(expr, &addr, ctx);
                let children_block = block_builder::horizontal_container(children_blocks, addr.clone());
                block_builder::horizontal_container(block_builder::two(operator_block, children_block), addr)
            },
            ExpressionType::AssocTrain => {
                let children_blocks = Block::train_blocks(expr, &addr, ctx);
                block_builder::horizontal_container(children_blocks, addr)
            },
        }
    }

    /// The layout of an equation in three blocks that can be aligned: left
    /// side, equals sign, right side. Anything else comes as the third block
    /// alone.
    pub fn from_root_expression_to_alignable_blocks(expr: &Expression, ctx: &BlockContext) -> (r: (
        Option<Block>,
        Option<Block>,
        Option<Block>,
    ))
        requires
            expr@.is_complete(),
        ensures
            match (expr@.lhs(), expr@.rhs()) {
                (Some(lhs), Some(rhs)) => {
                    &&& r.0 is Some && r.0->0@ == lhs.block(AddressView { path: seq![0usize], sub: None }, ctx@)
                    &&& r.1 is Some && r.1->0@ == BlockView::symbol(
                        expr@.symbol,
                        AddressView { path: Seq::empty(), sub: None },
                    )
                    &&& r.2 is Some && r.2->0@ == rhs.block(AddressView { path: seq![1usize], sub: None }, ctx@)
                },
                _ => {
                    &&& r.0 is None
                    &&& r.1 is None
                    &&& r.2 is Some && r.2->0@ == expr@.block(AddressView { path: Seq::empty(), sub: None }, ctx@)
                },
            },
    {
        match (expr.lhs(), expr.rhs()) {
            (Some(lhs), Some(rhs)) => {
                let root = Address::default();
                let lhs_block = Block::from_expression(lhs, root.append(0), ctx);
                let rhs_block = Block::from_expression(rhs, root.append(1), ctx);
                let eq_block = block_builder::symbol(expr.symbol.clone(), Address::default());
                proof {
                    expr.lemma_view();
                    assert(root@.path.push(0usize) =~= seq![0usize]);
                    assert(root@.path.push(1usize) =~= seq![1usize]);
                }
                (Some(lhs_block), Some(eq_block), Some(rhs_block))
            },
            _ => {
                let block = Block::from_expression(expr, Address::default(), ctx);
                (None, None, Some(block))
            },
        }
    }
}

impl Expression {
    /// Whether every operator of the tree has the operands that its kind
    /// asks for.
    #[verifier::loop_isolation(false)]
    pub fn is_complete(&self) -> (r: bool)
        ensures
            r == self@.is_complete(),
        decreases self,
    {
        proof {
            self.lemma_view();
        }
        match self.exp_type {
            ExpressionType::ValueConst | ExpressionType::ValueVar => true,
            ExpressionType::Variadic | ExpressionType::OperatorUnary => match &self.children {
                None => false,
                Some(children) => children.len() >= 1 && children[0].is_complete(),
            },
            ExpressionType::StatementOperatorBinary | ExpressionType::OperatorBinary => match &self.children {
                None => false,
                Some(children) => children.len() >= 2 && children[0].is_complete() && children[1].is_complete(),
            },
            ExpressionType::OperatorNary | ExpressionType::AssocTrain => match &self.children {
                None => false,
                Some(children) => {
                    let mut i: usize = 0;
                    while i < children.len()
                        invariant
                            i <= children.len(),
                            forall|j: int| 0 <= j < i ==> (#[trigger] self@.children->0[j]).is_complete(),
                        decreases children.len() - i,
                    {
                        if !children[i].is_complete() {
                            assert(!self@.children->0[i as int].is_complete());
                            return false;
                        }
                        i += 1;
                    }
                    true
                },
            },
        }
    }
}

} // verus!
