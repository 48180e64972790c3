//! Short constructors for blocks.

use vstd::prelude::*;
use vstd::string::*;

use crate::block::Block;
use crate::block::BlockType;
use crate::block::BlockView;
use crate::block::block_views;
use crate::expression::Address;

verus! {

/// A list of two blocks.
pub fn two(a: Block, b: Block) -> (v: Vec<Block>)
    ensures
        block_views(v@) == seq![a@, b@],
{
    let mut v: Vec<Block> = Vec::new();
    v.push(a);
    v.push(b);
    assert(block_views(v@) =~= seq![a@, b@]);
    v
}

/// A list of three blocks.
pub fn three(a: Block, b: Block, c: Block) -> (v: Vec<Block>)
    ensures
        block_views(v@) == seq![a@, b@, c@],
{
    let mut v: Vec<Block> = Vec::new();
    v.push(a);
    v.push(b);
    v.push(c);
    assert(block_views(v@) =~= seq![a@, b@, c@]);
    v
}

pub fn symbol(text: String, addr: Address) -> (b: Block)
    ensures
        b@ == BlockView::symbol(text@, addr@),
{
    Block::from_parts(BlockType::Symbol, addr, Some(text), None, Vec::new())
}

pub fn container(block_type: BlockType, children: Vec<Block>, addr: Address) -> (b: Block)
    ensures
        b@ == BlockView::container(block_type, block_views(children@), addr@),
{
    Block::from_parts(block_type, addr, None, Some(children), Vec::new())
}

pub fn comma() -> (b: Block)
    ensures
        b@ == BlockView::comma(),
{
    proof {
        reveal_strlit(",");
        assert(","@ =~= seq![',']);
    }
    symbol(String::from_str(","), Address::default())
}

pub fn horizontal_container(children: Vec<Block>, addr: Address) -> (b: Block)
    ensures
        b@ == BlockView::row(block_views(children@), addr@),
{
    container(BlockType::HorizontalContainer, children, addr)
}

pub fn fraction_container(children: Vec<Block>, addr: Address) -> (b: Block)
    ensures
        b@ == BlockView::container(BlockType::FractionContainer, block_views(children@), addr@),
{
    container(BlockType::FractionContainer, children, addr)
}

} // verus!
