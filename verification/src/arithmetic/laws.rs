//! What holds of the two ways to write a difference.

use vstd::prelude::*;

use crate::arithmetic::ArithmeticOperator;
use crate::expression::ExpressionType;
use crate::expression::ExpressionView;

verus! {

impl ExpressionView {
    /// Whether every difference in this tree is a binary operator, and no
    /// sum in it has a negation as its second summand.
    pub open spec fn writes_differences(self) -> bool
        decreases self,
    {
        &&& !self.is_add_negative()
        &&& self.arithmetic_operator() == Some(ArithmeticOperator::Sub) ==> self.kind
            == ExpressionType::OperatorBinary
        &&& match self.children {
            None => true,
            Some(cs) => forall|i: int| 0 <= i < cs.len() ==> (#[trigger] cs[i]).writes_differences(),
        }
    }
}

/// Writing differences as sums leaves a node that is no difference what it
/// was, but for its children.
proof fn lemma_sum_keeps_node(e: ExpressionView)
    requires
        e.arithmetic_operator() != Some(ArithmeticOperator::Sub),
    ensures
        e.sub_to_negative().kind == e.kind,
        e.sub_to_negative().symbol == e.symbol,
        e.sub_to_negative().arity() == e.arity(),
        e.sub_to_negative().children is Some == e.children is Some,
        e.sub_to_negative().arithmetic_operator() == e.arithmetic_operator(),
{
}

/// Writing sums as differences leaves a node that is no sum with a negated
/// summand what it was, but for its children.
proof fn lemma_difference_keeps_node(e: ExpressionView)
    requires
        !e.is_add_negative(),
    ensures
        e.add_negative_to_sub().kind == e.kind,
        e.add_negative_to_sub().symbol == e.symbol,
        e.add_negative_to_sub().arity() == e.arity(),
        e.add_negative_to_sub().arithmetic_operator() == e.arithmetic_operator(),
{
}

/// Writing every difference of a tree as a sum, and every such sum as a
/// difference again, gives the tree back, at every depth: for a tree in which
/// the differences are binary operators and no sum has a negated summand.
pub proof fn law_difference_round_trip(e: ExpressionView)
    requires
        e.writes_differences(),
    ensures
        e.sub_to_negative().add_negative_to_sub() == e,
    decreases e,
{
    let s = e.sub_to_negative();
    match e.children {
        None => {},
        Some(cs) => {
            if e.arithmetic_operator() == Some(ArithmeticOperator::Sub) {
                assert(cs.len() == 2);
                law_difference_round_trip(cs[0]);
                law_difference_round_trip(cs[1]);
                let negated = ExpressionView::node(
                    ExpressionType::OperatorUnary,
                    seq!['-'],
                    seq![cs[1].sub_to_negative()],
                );
                assert(seq!['+'][0] != seq!['-'][0]);
                assert(negated.arithmetic_operator() == Some(ArithmeticOperator::Negative));
                assert(s.children->0[1] == negated);
                assert(s.arithmetic_operator() == Some(ArithmeticOperator::Add));
                assert(s.is_add_negative());
                assert(s.add_negative_to_sub().children->0 =~= cs);
            } else {
                lemma_sum_keeps_node(e);
                assert forall|i: int| 0 <= i < cs.len() implies (#[trigger] s.children->0[i]).add_negative_to_sub()
                    == cs[i] by {
                    law_difference_round_trip(cs[i]);
                }
                if s.arithmetic_operator() == Some(ArithmeticOperator::Add) {
                    assert(cs.len() == 2);
                    if cs[1].arithmetic_operator() != Some(ArithmeticOperator::Sub) {
                        lemma_sum_keeps_node(cs[1]);
                    }
                    assert(seq!['+'][0] != seq!['-'][0]);
                    assert(s.children->0[1].arithmetic_operator() != Some(ArithmeticOperator::Negative));
                }
                assert(!s.is_add_negative());
                assert(s.add_negative_to_sub().children->0 =~= cs);
            }
        },
    }
}

/// Writing sums as differences a second time changes nothing.
pub proof fn law_differences_settle(e: ExpressionView)
    ensures
        e.add_negative_to_sub().add_negative_to_sub() == e.add_negative_to_sub(),
    decreases e,
{
    let d = e.add_negative_to_sub();
    match e.children {
        None => {},
        Some(cs) => {
            if e.is_add_negative() {
                law_differences_settle(cs[0]);
                law_differences_settle(cs[1].children->0[0]);
                assert(seq!['+'][0] != seq!['-'][0]);
                assert(d.arithmetic_operator() == Some(ArithmeticOperator::Sub));
                assert(!d.is_add_negative());
                assert(d.add_negative_to_sub().children->0 =~= d.children->0);
            } else {
                lemma_difference_keeps_node(e);
                assert forall|i: int| 0 <= i < cs.len() implies (#[trigger] d.children->0[i]).add_negative_to_sub()
                    == d.children->0[i] by {
                    law_differences_settle(cs[i]);
                }
                if d.arithmetic_operator() == Some(ArithmeticOperator::Add) {
                    assert(cs.len() == 2);
                    let second = cs[1].add_negative_to_sub();
                    assert(d.children->0[1] == second);
                    if !cs[1].is_add_negative() {
                        lemma_difference_keeps_node(cs[1]);
                        assert(cs[1].arithmetic_operator() == Some(ArithmeticOperator::Negative)
                            ==> cs[1].children is Some);
                    } else {
                        assert(second.arity() == 2);
                    }
                    assert(second.arithmetic_operator() != Some(ArithmeticOperator::Negative));
                }
                assert(!d.is_add_negative());
                assert(d.add_negative_to_sub().children->0 =~= d.children->0);
            }
        },
    }
}

/// Writing differences as sums a second time changes nothing.
pub proof fn law_sums_settle(e: ExpressionView)
    ensures
        e.sub_to_negative().sub_to_negative() == e.sub_to_negative(),
    decreases e,
{
    let s = e.sub_to_negative();
    match e.children {
        None => {},
        Some(cs) => {
            if e.arithmetic_operator() == Some(ArithmeticOperator::Sub) {
                law_sums_settle(cs[0]);
                law_sums_settle(cs[1]);
                let negated = s.children->0[1];
                assert(seq!['+'][0] != seq!['-'][0]);
                assert(s.arithmetic_operator() == Some(ArithmeticOperator::Add));
                assert(negated.arithmetic_operator() == Some(ArithmeticOperator::Negative));
                assert(negated.sub_to_negative().children->0 =~= negated.children->0);
                assert(s.sub_to_negative().children->0 =~= s.children->0);
            } else {
                lemma_sum_keeps_node(e);
                assert forall|i: int| 0 <= i < cs.len() implies (#[trigger] s.children->0[i]).sub_to_negative()
                    == s.children->0[i] by {
                    law_sums_settle(cs[i]);
                }
                assert(s.sub_to_negative().children->0 =~= s.children->0);
            }
        },
    }
}

} // verus!
