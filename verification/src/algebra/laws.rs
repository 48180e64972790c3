//! What holds of the simplifications with one and zero.

use vstd::prelude::*;

use crate::algebra::unit_rule;
use crate::algebra::unit_rules;
use crate::algebra::unit_value;
use crate::expression::AddressView;
use crate::expression::ContextView;
use crate::expression::ExpressionType;
use crate::expression::ExpressionView;
use crate::expression::pattern::Bindings;

verus! {

/// The constant zero.
pub open spec fn zero() -> ExpressionView {
    ExpressionView::leaf(ExpressionType::ValueConst, seq!['0'])
}

/// Whether `e` is an equation whose left side applies a binary operator to
/// two operands and whose right side is one of the two operands, or zero.
pub open spec fn is_unit_shaped(e: ExpressionView) -> bool {
    &&& e.is_equation()
    &&& e.children->0[0].kind == ExpressionType::OperatorBinary
    &&& e.children->0[0].children is Some
    &&& e.children->0[0].arity() == 2
    &&& (e.children->0[1] == e.children->0[0].children->0[0] || e.children->0[1]
        == e.children->0[0].children->0[1] || e.children->0[1] == zero())
}

/// Every simplification with one and zero takes an operand, or zero, for an
/// application to two operands.
pub proof fn lemma_unit_rules_shaped()
    ensures
        unit_rules().len() == 8,
        forall|i: int| 0 <= i < 8 ==> is_unit_shaped(#[trigger] unit_rules()[i]),
{
    assert(seq!['0'][0] != seq!['X'][0]);
    assert(seq!['1'][0] != seq!['X'][0]);
    assert(seq!['='].len() == 1);
    assert(seq!['=', '>'].len() == 2);
    assert(unit_value(seq!['X']) == ExpressionView::leaf(ExpressionType::ValueVar, seq!['X']));
    assert(unit_value(seq!['0']) == zero());
    assert forall|op: Seq<char>, left: Seq<char>, right: Seq<char>, result: Seq<char>|
        (result == left || result == right || result == seq!['0']) implies is_unit_shaped(
        #[trigger] unit_rule(op, left, right, result),
    ) by {
        let e = unit_rule(op, left, right, result);
        assert(e.children->0[0].children->0.len() == 2);
    }
    let rules = unit_rules();
    assert(rules[0] == unit_rule(seq!['+'], seq!['X'], seq!['0'], seq!['X']));
    assert(rules[1] == unit_rule(seq!['+'], seq!['0'], seq!['X'], seq!['X']));
    assert(rules[2] == unit_rule(seq!['*'], seq!['X'], seq!['1'], seq!['X']));
    assert(rules[3] == unit_rule(seq!['*'], seq!['1'], seq!['X'], seq!['X']));
    assert(rules[4] == unit_rule(seq!['*'], seq!['X'], seq!['0'], seq!['0']));
    assert(rules[5] == unit_rule(seq!['*'], seq!['0'], seq!['X'], seq!['0']));
    assert(rules[6] == unit_rule(seq!['/'], seq!['X'], seq!['1'], seq!['X']));
    assert(rules[7] == unit_rule(seq!['-'], seq!['X'], seq!['0'], seq!['X']));
}

/// Putting bindings into such an equation gives such an equation.
pub proof fn lemma_shape_kept(e: ExpressionView, m: Bindings)
    requires
        is_unit_shaped(e),
    ensures
        is_unit_shaped(e.apply_map(m)),
{
    let cs = e.children->0;
    let lhs = cs[0];
    let rhs = cs[1];
    let after = e.apply_map(m);
    assert(!e.is_parent_of_variadic());
    assert(!lhs.is_parent_of_variadic());
    assert(after.children->0.len() == 2);
    assert(after.children->0[0] == lhs.apply_map(m));
    assert(after.children->0[1] == rhs.apply_map(m));
    let ls = lhs.children->0;
    assert(lhs.apply_map(m).children->0.len() == 2);
    assert(lhs.apply_map(m).children->0[0] == ls[0].apply_map(m));
    assert(lhs.apply_map(m).children->0[1] == ls[1].apply_map(m));
    assert(zero().apply_map(m) == zero());
}

/// Where such an equation rewrites a node, the node has two children and
/// becomes one of them, or zero.
pub proof fn lemma_unit_result(node: ExpressionView, e: ExpressionView, passes: nat)
    requires
        is_unit_shaped(e),
        node.apply_equation_within(e, passes) is Ok,
    ensures
        node.children is Some,
        node.arity() == 2,
        ({
            let out = node.apply_equation_within(e, passes)->Ok_0;
            out == node.children->0[0] || out == node.children->0[1] || out == zero()
        }),
    decreases passes,
{
    if e.children->0[0] != node {
        match node.match_pattern(e.children->0[0]) {
            None => {},
            Some(m) => {
                lemma_shape_kept(e, m);
                lemma_unit_result(node, e.apply_map(m), (passes - 1) as nat);
            },
        }
    }
}

/// A tree has at least one node.
pub proof fn lemma_size_positive(e: ExpressionView)
    ensures
        e.size() >= 1,
{
}

/// Two lists that agree on their first `n` nodes have the same size up to
/// `n`.
pub proof fn lemma_size_prefix(a: Seq<ExpressionView>, b: Seq<ExpressionView>, n: nat)
    requires
        n <= a.len(),
        n <= b.len(),
        forall|i: int| 0 <= i < n ==> a[i] == b[i],
    ensures
        ExpressionView::size_upto(a, n) == ExpressionView::size_upto(b, n),
    decreases n,
{
    if n > 0 {
        lemma_size_prefix(a, b, (n - 1) as nat);
    }
}

/// The size of two lists put together is the sum of their sizes.
pub proof fn lemma_size_concat(a: Seq<ExpressionView>, b: Seq<ExpressionView>, n: nat)
    requires
        n <= b.len(),
    ensures
        ExpressionView::size_upto(a + b, a.len() + n) == ExpressionView::size_upto(a, a.len())
            + ExpressionView::size_upto(b, n),
    decreases n,
{
    if n == 0 {
        lemma_size_prefix(a + b, a, a.len());
    } else {
        lemma_size_concat(a, b, (n - 1) as nat);
        assert((a + b)[a.len() + n - 1] == b[n - 1]);
    }
}

/// The size of the whole of a list.
pub open spec fn list_size(cs: Seq<ExpressionView>) -> nat {
    ExpressionView::size_upto(cs, cs.len())
}

/// A list is as large as the part before `i`, node `i` and the part after
/// it together.
pub proof fn lemma_size_around(cs: Seq<ExpressionView>, i: int)
    requires
        0 <= i < cs.len(),
    ensures
        list_size(cs) == list_size(cs.subrange(0, i)) + cs[i].size() + list_size(
            cs.subrange(i + 1, cs.len() as int),
        ),
{
    let before = cs.subrange(0, i);
    let one = seq![cs[i]];
    let after = cs.subrange(i + 1, cs.len() as int);
    assert(cs =~= (before + one) + after);
    lemma_size_concat(before, one, 1);
    lemma_size_concat(before + one, after, after.len());
    assert(ExpressionView::size_upto(one, 0) == 0);
}

/// Giving a list another node `i` changes its size by the difference of
/// the two nodes.
pub proof fn lemma_size_update(cs: Seq<ExpressionView>, i: int, c: ExpressionView)
    requires
        0 <= i < cs.len(),
    ensures
        list_size(cs.update(i, c)) + cs[i].size() == list_size(cs) + c.size(),
{
    let updated = cs.update(i, c);
    lemma_size_around(cs, i);
    lemma_size_around(updated, i);
    assert(updated.subrange(0, i) =~= cs.subrange(0, i));
    assert(updated.subrange(i + 1, cs.len() as int) =~= cs.subrange(i + 1, cs.len() as int));
}

/// Putting one node in place of the pair at `i` changes the size of a list
/// by the difference of the node and the pair.
pub proof fn lemma_size_splice(cs: Seq<ExpressionView>, i: int, c: ExpressionView)
    requires
        0 <= i,
        i + 1 < cs.len(),
    ensures
        list_size(cs.subrange(0, i).push(c) + cs.subrange(i + 2, cs.len() as int)) + cs[i].size() + cs[i
            + 1].size() == list_size(cs) + c.size(),
{
    let before = cs.subrange(0, i);
    let after = cs.subrange(i + 2, cs.len() as int);
    let spliced = before.push(c) + after;
    lemma_size_around(cs, i);
    let rest = cs.subrange(i + 1, cs.len() as int);
    lemma_size_around(rest, 0);
    assert(rest.subrange(0, 0) =~= Seq::<ExpressionView>::empty());
    assert(rest.subrange(1, rest.len() as int) =~= after);
    assert(rest[0] == cs[i + 1]);
    lemma_size_around(spliced, i);
    assert(spliced.subrange(0, i) =~= before);
    assert(spliced.subrange(i + 1, spliced.len() as int) =~= after);
    assert(spliced[i] == c);
    assert(list_size(Seq::<ExpressionView>::empty()) == 0);
}

/// Replacing a node by a smaller one, or a pair of a train by a node that
/// is smaller than the two together, makes the tree smaller.
pub proof fn lemma_replace_shrinks(root: ExpressionView, new: ExpressionView, path: Seq<usize>, sub: Option<usize>)
    requires
        root.at(path) is Some,
        match sub {
            None => new.size() < root.at(path)->0.size(),
            Some(i) => {
                let node = root.at(path)->0;
                &&& node.is_assoc_train()
                &&& i + 1 < node.arity()
                &&& new.size() < node.children->0[i as int].size() + node.children->0[i + 1].size()
            },
        },
    ensures
        root.replace(new, path, sub) is Ok,
        root.replace(new, path, sub)->Ok_0.size() < root.size(),
    decreases path.len(),
{
    if path.len() == 0 {
        match sub {
            None => {},
            Some(i) => {
                lemma_size_splice(root.children->0, i as int, new);
            },
        }
    } else {
        let cs = root.children->0;
        let k = path[0] as int;
        let child = cs[k];
        assert(root.at(path) == child.at(path.drop_first()));
        lemma_replace_shrinks(child, new, path.drop_first(), sub);
        let c2 = child.replace(new, path.drop_first(), sub)->Ok_0;
        lemma_size_update(cs, k, c2);
    }
}

/// Applying such an equation anywhere makes the tree smaller.
pub proof fn lemma_unit_step_shrinks(root: ExpressionView, rule: ExpressionView, address: AddressView)
    requires
        is_unit_shaped(rule),
        root.apply_equation_at(rule, address) is Ok,
    ensures
        root.apply_equation_at(rule, address)->Ok_0.size() < root.size(),
{
    let node = root.at(address.path)->0;
    let passes = crate::expression::rewrite::LIMIT_OF_GROUNDING_PASSES as nat;
    match address.sub {
        None => {
            lemma_unit_result(node, rule, passes);
            let out = node.apply_equation(rule)->Ok_0;
            lemma_size_around(node.children->0, 0);
            lemma_size_around(node.children->0, 1);
            lemma_size_positive(node.children->0[0]);
            lemma_size_positive(node.children->0[1]);
            lemma_replace_shrinks(root, out, address.path, None);
        },
        Some(i) => {
            let pair = node.subexpr_from_train(i)->Ok_0;
            lemma_unit_result(pair, rule, passes);
            let out = pair.apply_equation(rule)->Ok_0;
            lemma_size_positive(node.children->0[i as int]);
            lemma_size_positive(node.children->0[i + 1]);
            lemma_replace_shrinks(root, out, address.path, Some(i));
        },
    }
}

/// A round of such rules makes the tree smaller, or leaves it as it is.
pub proof fn lemma_round_shrinks(e: ExpressionView, rules: Seq<ExpressionView>, n: nat)
    requires
        n <= rules.len(),
        forall|i: int| 0 <= i < rules.len() ==> is_unit_shaped(#[trigger] rules[i]),
    ensures
        e.rewritten_once(rules, n) == e || e.rewritten_once(rules, n).size() < e.size(),
    decreases n,
{
    if n > 0 {
        lemma_round_shrinks(e, rules, (n - 1) as nat);
        let earlier = e.rewritten_once(rules, (n - 1) as nat);
        let addresses = earlier.equation_addresses(rules[n - 1]);
        if addresses.len() > 0 && earlier.apply_equation_at(rules[n - 1], addresses[0]) is Ok {
            lemma_unit_step_shrinks(earlier, rules[n - 1], addresses[0]);
        }
    }
}

/// Given more rounds than the tree has nodes, the rounds end with a tree
/// that a further round leaves as it is, and that is no larger than the
/// tree they began with.
pub proof fn lemma_rounds_settle(e: ExpressionView, rules: Seq<ExpressionView>, rounds: nat)
    requires
        forall|i: int| 0 <= i < rules.len() ==> is_unit_shaped(#[trigger] rules[i]),
        rounds >= e.size(),
    ensures
        e.rewritten(rules, rounds).rewritten_once(rules, rules.len()) == e.rewritten(rules, rounds),
        e.rewritten(rules, rounds).size() <= e.size(),
    decreases rounds,
{
    lemma_size_positive(e);
    let next = e.rewritten_once(rules, rules.len());
    lemma_round_shrinks(e, rules, rules.len());
    if next != e {
        lemma_rounds_settle(next, rules, (rounds - 1) as nat);
    }
}

/// What a round leaves as it is, any number of rounds leaves as it is.
pub proof fn lemma_settled_stays(e: ExpressionView, rules: Seq<ExpressionView>, rounds: nat)
    requires
        e.rewritten_once(rules, rules.len()) == e,
    ensures
        e.rewritten(rules, rounds) == e,
{
}

/// The simplification with one and zero of an expression of countable
/// size ends with an expression to which none of its rules applies any
/// more at the first place where its left side matches: simplifying what has
/// been simplified changes nothing.
pub proof fn law_simplification_settles(e: ExpressionView, ctx: ContextView)
    requires
        e.size() < usize::MAX,
    ensures
        e.simplify_one_and_zero(ctx).size() <= e.size(),
        e.simplify_one_and_zero(ctx).simplify_one_and_zero(ctx) == e.simplify_one_and_zero(ctx),
        ctx.flags.contains(crate::algebra::AlgebraCtxFlags::SimplifyOneAndZero.text()) ==> e.simplify_one_and_zero(
            ctx,
        ).rewritten_once(unit_rules(), unit_rules().len()) == e.simplify_one_and_zero(ctx),
{
    if ctx.flags.contains(crate::algebra::AlgebraCtxFlags::SimplifyOneAndZero.text()) {
        lemma_unit_rules_shaped();
        let rules = unit_rules();
        lemma_rounds_settle(e, rules, e.simplification_rounds());
        let r = e.simplify_one_and_zero(ctx);
        lemma_settled_stays(r, rules, r.simplification_rounds());
    }
}

} // verus!
