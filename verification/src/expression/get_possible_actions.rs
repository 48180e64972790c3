//! Steps that any domain can offer at a selection of addresses.

use vstd::prelude::*;
use vstd::string::*;

use crate::expression::Address;
use crate::expression::AddressView;
use crate::expression::Context;
use crate::expression::ContextView;
use crate::expression::Expression;
use crate::expression::ExpressionView;
use crate::expression::rewrite::address_views;
use crate::rule::RuleMap;
use crate::rule::RuleView;
use crate::worksheet::Action;
use crate::worksheet::ActionView;
use crate::worksheet::GetPossibleActionsFunction;
use crate::worksheet::step_views;

verus! {

/// The steps that the first `n` rules of `order` offer on `expr` at
/// `address`, each under the label of its rule.
pub open spec fn rule_steps(
    expr: ExpressionView,
    rules: Map<Seq<char>, RuleView>,
    order: Seq<Seq<char>>,
    address: AddressView,
    n: nat,
) -> Seq<(ActionView, ExpressionView)>
    decreases n,
{
    if n == 0 || n > order.len() {
        Seq::empty()
    } else {
        let earlier = rule_steps(expr, rules, order, address, (n - 1) as nat);
        let rule = rules[order[n - 1]];
        match expr.apply_rule_expr_at(rule.expression, address) {
            Ok(e) => earlier.push((ActionView::ApplyRule(rule.label), e)),
            Err(_) => earlier,
        }
    }
}

/// What the rules offer at the last address of `selection`.
pub open spec fn rule_actions(
    expr: ExpressionView,
    rules: Map<Seq<char>, RuleView>,
    order: Seq<Seq<char>>,
    selection: Seq<AddressView>,
) -> Seq<(ActionView, ExpressionView)> {
    if selection.len() == 0 {
        Seq::empty()
    } else {
        rule_steps(expr, rules, order, selection.last(), order.len())
    }
}

/// The reordering that the last two addresses of `selection` ask for: where
/// they are children of one node, the tree with those two children of that
/// train exchanged. Earlier addresses are not read.
pub open spec fn swap_action(expr: ExpressionView, selection: Seq<AddressView>) -> Seq<
    (ActionView, ExpressionView),
> {
    if selection.len() < 2 {
        Seq::empty()
    } else {
        let a = selection[selection.len() - 1];
        let b = selection[selection.len() - 2];
        if a.path.len() == 0 || b.path.len() == 0 || a.path.drop_last() != b.path.drop_last() || a.sub != b.sub {
            Seq::empty()
        } else {
            let parent = AddressView { path: a.path.drop_last(), sub: a.sub };
            match expr.at(parent.path) {
                None => Seq::empty(),
                Some(node) => match node.swap_children(a.path.last(), b.path.last()) {
                    Err(_) => Seq::empty(),
                    Ok(swapped) => match expr.replace(swapped, parent.path, parent.sub) {
                        Err(_) => Seq::empty(),
                        Ok(e) => seq![(ActionView::ApplyAction("Reorder"@), e)],
                    },
                },
            }
        }
    }
}

/// The steps that the rules of `rule_map` offer on `expr` at the last
/// address of `addr_vec`, in the order of the map.
pub fn from_rule_map(expr: &Expression, rule_map: &RuleMap, addr_vec: &Vec<Address>) -> (r: Vec<
    (Action, Expression),
>)
    ensures
        step_views(r@) == rule_actions(expr@, rule_map@, rule_map.spec_keys(), address_views(addr_vec@)),
{
    let mut possible_actions: Vec<(Action, Expression)> = Vec::new();
    if addr_vec.len() == 0 {
        assert(step_views(possible_actions@) =~= Seq::<(ActionView, ExpressionView)>::empty());
        return possible_actions;
    }
    let addr = &addr_vec[addr_vec.len() - 1];
    let n = rule_map.len();
    let ghost order = rule_map.spec_keys();
    let mut i: usize = 0;
    assert(step_views(possible_actions@) =~= rule_steps(expr@, rule_map@, order, addr@, 0));
    while i < n
        invariant
            i <= n,
            n == order.len(),
            order == rule_map.spec_keys(),
            step_views(possible_actions@) == rule_steps(expr@, rule_map@, order, addr@, i as nat),
        decreases n - i,
    {
        let rule = rule_map.value_at(i);
        let ghost before = possible_actions@;
        match expr.apply_rule_at(rule, addr) {
            Ok(new_expr) => {
                let action = Action::ApplyRule(rule.label.clone());
                let ghost step = (action@, new_expr@);
                possible_actions.push((action, new_expr));
                assert(step_views(possible_actions@) =~= step_views(before).push(step));
            },
            Err(_) => {},
        }
        i += 1;
    }
    possible_actions
}

/// The reordering that the last two addresses of `addr_vec` ask for, if
/// they name two children of one train.
pub fn swap_position_in_assoc_train(expr: &Expression, addr_vec: &Vec<Address>) -> (r: Vec<(Action, Expression)>)
    ensures
        step_views(r@) == swap_action(expr@, address_views(addr_vec@)),
{
    let mut out: Vec<(Action, Expression)> = Vec::new();
    assert(step_views(out@) =~= Seq::<(ActionView, ExpressionView)>::empty());
    if addr_vec.len() < 2 {
        return out;
    }
    let addr0 = &addr_vec[addr_vec.len() - 1];
    let addr1 = &addr_vec[addr_vec.len() - 2];
    if addr0.path.len() == 0 || addr1.path.len() == 0 {
        return out;
    }
    let addr_parent0 = addr0.parent();
    let addr_parent1 = addr1.parent();
    if !addr_parent0.equals(&addr_parent1) {
        return out;
    }
    let index0 = addr0.last();
    let index1 = addr1.last();
    match expr.swap_assoc_train_children_at(index0, index1, &addr_parent0) {
        Err(_) => out,
        Ok(new_expr) => {
            let action = Action::ApplyAction(String::from_str("Reorder"));
            let ghost step = (action@, new_expr@);
            out.push((action, new_expr));
            assert(step_views(out@) =~= seq![step]);
            out
        },
    }
}

/// The domain that offers the steps of the rule map and nothing else.
#[derive(Debug, Clone, Copy)]
pub struct RuleMapSuggestions;

impl GetPossibleActionsFunction for RuleMapSuggestions {
    open spec fn suggestions(
        &self,
        expr: ExpressionView,
        rules: Map<Seq<char>, RuleView>,
        order: Seq<Seq<char>>,
        ctx: ContextView,
        selection: Seq<AddressView>,
    ) -> Seq<(ActionView, ExpressionView)> {
        rule_actions(expr, rules, order, selection)
    }

    fn get_possible_actions(
        &self,
        expr: &Expression,
        rule_map: &RuleMap,
        ctx: &Context,
        addr_vec: &Vec<Address>,
    ) -> (r: Vec<(Action, Expression)>) {
        from_rule_map(expr, rule_map, addr_vec)
    }
}

} // verus!
