//! The steps that algebra offers.

use vstd::prelude::*;
use vstd::string::*;

use crate::algebra::arithmetic_function;
use crate::algebra::both_sides_name;
use crate::algebra::generate_simple_apply_arithmetic_to_both_side_name;
use crate::arithmetic::get_possible_actions::arithmetic;
use crate::arithmetic::get_possible_actions::calculation_action;
use crate::expression::Address;
use crate::expression::AddressView;
use crate::expression::Context;
use crate::expression::ContextView;
use crate::expression::Expression;
use crate::expression::ExpressionView;
use crate::expression::address::common_prefix_len;
use crate::expression::get_possible_actions::from_rule_map;
use crate::expression::get_possible_actions::rule_actions;
use crate::expression::rewrite::address_views;
use crate::rule::RuleMap;
use crate::rule::RuleView;
use crate::worksheet::Action;
use crate::worksheet::ActionView;
use crate::worksheet::GetPossibleActionsFunction;
use crate::worksheet::step_views;

verus! {

/// The step that the last two addresses of `selection` ask for when the
/// first of the two is the root, an equation, and the second lies two or
/// more steps below it: the inverse of the operator above the node two
/// steps down, applied with that node to both sides.
pub open spec fn both_sides_action(expr: ExpressionView, selection: Seq<AddressView>) -> Seq<
    (ActionView, ExpressionView),
> {
    if selection.len() < 2 {
        Seq::empty()
    } else {
        let pivot = selection[selection.len() - 2];
        let inner = selection[selection.len() - 1];
        if expr.at(pivot.path) is None || pivot.path.len() != 0 || pivot.sub is Some || !expr.is_equation()
            || inner.path.len() < 2 {
            Seq::empty()
        } else {
            let target_path = inner.path.take(2);
            match (expr.at(target_path.drop_last()), expr.at(target_path)) {
                (Some(parent), Some(target)) => match parent.arithmetic_operator() {
                    None => Seq::empty(),
                    Some(op) => match expr.apply_function_to_both_side(
                        arithmetic_function(op.spec_inverse(), target),
                    ) {
                        Err(_) => Seq::empty(),
                        Ok(e) => seq![
                            (ActionView::ApplyAction(both_sides_name(op.spec_inverse(), target)), e),
                        ],
                    },
                },
                _ => Seq::empty(),
            }
        }
    }
}

/// The step that undoes, on both sides of the equation `expr`, the
/// operator above the sub-term that the selection `addr_vec` names last.
pub fn apply_operation_both_side(expr: &Expression, addr_vec: &Vec<Address>) -> (r: Vec<(Action, Expression)>)
    ensures
        step_views(r@) == both_sides_action(expr@, address_views(addr_vec@)),
{
    let mut out: Vec<(Action, Expression)> = Vec::new();
    assert(step_views(out@) =~= Seq::<(ActionView, ExpressionView)>::empty());
    match f_apply_operation_both_side(expr, addr_vec) {
        Some(step) => {
            let ghost model = (step.0@, step.1@);
            out.push(step);
            assert(step_views(out@) =~= seq![model]);
            out
        },
        None => out,
    }
}

fn f_apply_operation_both_side(expr: &Expression, addr_vec: &Vec<Address>) -> (r: Option<(Action, Expression)>)
    ensures
        match r {
            Some(step) => both_sides_action(expr@, address_views(addr_vec@)) == seq![(step.0@, step.1@)],
            None => both_sides_action(expr@, address_views(addr_vec@)) == Seq::<
                (ActionView, ExpressionView),
            >::empty(),
        },
{
    if addr_vec.len() < 2 {
        return None;
    }
    let addr0 = &addr_vec[addr_vec.len() - 2];
    let addr1 = &addr_vec[addr_vec.len() - 1];
    let should_be_equation_expr = match expr.at(addr0) {
        Ok(e) => e,
        Err(_) => {
            return None;
        },
    };
    if !addr0.is_empty() {
        return None;
    }
    assert(expr@.at(addr0@.path) == Some(expr@));
    if !should_be_equation_expr.is_equation() {
        return None;
    }
    if addr1.path.len() < 2 {
        return None;
    }
    let addr_target = addr1.take(2).no_sub();
    let addr_parent = addr_target.parent();
    let expr_parent = match expr.at(&addr_parent) {
        Ok(e) => e,
        Err(_) => {
            return None;
        },
    };
    let parent_arithmetic_op = match expr_parent.identify_arithmetic_operator() {
        Some(op) => op,
        None => {
            proof {
                if expr@.at(addr_target@.path) is None {
                }
            }
            return None;
        },
    };
    let inverse_op = parent_arithmetic_op.inverse();
    let expr_target = match expr.at(&addr_target) {
        Ok(e) => e,
        Err(_) => {
            return None;
        },
    };
    let result_expr = match expr.apply_simple_arithmetic_to_both_side(&inverse_op, expr_target) {
        Ok(e) => e,
        Err(_) => {
            return None;
        },
    };
    let action = Action::ApplyAction(generate_simple_apply_arithmetic_to_both_side_name(&inverse_op, expr_target));
    Some((action, result_expr))
}

/// The factor that `address` names below the quotient at `common`: the
/// first where the address is a child of the quotient, and else the one
/// that the address passes through.
pub open spec fn fraction_index(address: AddressView, common: AddressView) -> Option<usize> {
    if address.path.len() == common.path.len() + 1 && address.path.drop_last() == common.path {
        Some(0)
    } else if common.path.len() + 1 < address.path.len() {
        Some(address.path[common.path.len() as int + 1])
    } else {
        None
    }
}

/// The two factors and the quotient that the last two addresses of
/// `selection` name: the quotient is the deepest node above both, the
/// earlier address names the factor of the numerator, the later one that
/// of the denominator.
pub open spec fn fraction_selection(selection: Seq<AddressView>) -> Option<(usize, usize, AddressView)> {
    if selection.len() < 2 {
        None
    } else {
        let a0 = selection[selection.len() - 2];
        let a1 = selection[selection.len() - 1];
        let common = AddressView { path: a0.path.take(common_prefix_len(a0.path, a1.path) as int), sub: None };
        let swapped = a1.before(a0);
        let numerator = if swapped {
            a1
        } else {
            a0
        };
        let denominator = if swapped {
            a0
        } else {
            a1
        };
        match (fraction_index(numerator, common), fraction_index(denominator, common)) {
            (Some(n), Some(d)) => Some((n, d, common)),
            _ => None,
        }
    }
}

/// The cancelling that `selection` asks for, `quotient` being the first
/// factor divided by the second.
pub open spec fn fraction_action(expr: ExpressionView, selection: Seq<AddressView>, quotient: Seq<char>) -> Seq<
    (ActionView, ExpressionView),
> {
    match fraction_selection(selection) {
        None => Seq::empty(),
        Some((n, d, common)) => match expr.apply_fraction_arithmetic_at(n, d, common, quotient) {
            Err(_) => Seq::empty(),
            Ok(e) => seq![(ActionView::ApplyAction("Simplify fraction"@), e)],
        },
    }
}

fn addr_to_index(addr: &Address, common: &Address) -> (r: Option<usize>)
    ensures
        r == fraction_index(addr@, common@),
{
    if addr.is_child_of(common) {
        return Some(0);
    }
    let n = common.path.len();
    let m = addr.path.len();
    if n < usize::MAX && n + 1 < m {
        Some(addr.path[n + 1])
    } else {
        None
    }
}

/// The two factors and the quotient that the last two addresses of
/// `addr_vec` name.
pub fn selected_fraction(addr_vec: &Vec<Address>) -> (r: Option<(usize, usize, Address)>)
    ensures
        match r {
            Some(found) => fraction_selection(address_views(addr_vec@)) == Some((found.0, found.1, found.2@)),
            None => fraction_selection(address_views(addr_vec@)) is None,
        },
{
    if addr_vec.len() < 2 {
        return None;
    }
    let addr0 = &addr_vec[addr_vec.len() - 2];
    let addr1 = &addr_vec[addr_vec.len() - 1];
    let addr_common_ancestor = Address::common_ancestor(addr0, addr1);
    let swapped = addr1.is_before(addr0);
    let addr_num = if swapped {
        addr1
    } else {
        addr0
    };
    let addr_den = if swapped {
        addr0
    } else {
        addr1
    };
    let numerator_id = match addr_to_index(addr_num, &addr_common_ancestor) {
        Some(i) => i,
        None => {
            return None;
        },
    };
    let denominator_id = match addr_to_index(addr_den, &addr_common_ancestor) {
        Some(i) => i,
        None => {
            return None;
        },
    };
    Some((numerator_id, denominator_id, addr_common_ancestor))
}

/// The step that cancels the two factors that the selection `addr_vec`
/// names, `quotient` being the first of them divided by the second.
pub fn apply_fraction_arithmetic(expr: &Expression, addr_vec: &Vec<Address>, quotient: &str) -> (r: Vec<
    (Action, Expression),
>)
    ensures
        step_views(r@) == fraction_action(expr@, address_views(addr_vec@), quotient@),
{
    let mut out: Vec<(Action, Expression)> = Vec::new();
    assert(step_views(out@) =~= Seq::<(ActionView, ExpressionView)>::empty());
    match f_apply_fraction_arithmetic(expr, addr_vec, quotient) {
        Some(step) => {
            let ghost model = (step.0@, step.1@);
            out.push(step);
            assert(step_views(out@) =~= seq![model]);
            out
        },
        None => out,
    }
}

fn f_apply_fraction_arithmetic(expr: &Expression, addr_vec: &Vec<Address>, quotient: &str) -> (r: Option<
    (Action, Expression),
>)
    ensures
        match r {
            Some(step) => fraction_action(expr@, address_views(addr_vec@), quotient@) == seq![(step.0@, step.1@)],
            None => fraction_action(expr@, address_views(addr_vec@), quotient@) == Seq::<
                (ActionView, ExpressionView),
            >::empty(),
        },
{
    let (numerator_id, denominator_id, addr_common_ancestor) = match selected_fraction(addr_vec) {
        Some(found) => found,
        None => {
            return None;
        },
    };
    match expr.apply_fraction_arithmetic_at(numerator_id, denominator_id, &addr_common_ancestor, quotient) {
        Ok(e) => Some((Action::ApplyAction(String::from_str("Simplify fraction")), e)),
        Err(_) => None,
    }
}

/// The steps that algebra offers for the selection `addr_vec`: the
/// operation on both sides, the computation, the rules of `rule_map`, and
/// the cancelling of a fraction, in this order. `value` is to be the value
/// of the computation that the selection points at, and `quotient` the
/// quotient of the two factors that it names.
pub fn algebra(
    expr: &Expression,
    rule_map: &RuleMap,
    addr_vec: &Vec<Address>,
    value: &str,
    quotient: &str,
) -> (r: Vec<(Action, Expression)>)
    ensures
        step_views(r@) == both_sides_action(expr@, address_views(addr_vec@)) + calculation_action(
            expr@,
            address_views(addr_vec@),
            value@,
        ) + rule_actions(expr@, rule_map@, rule_map.spec_keys(), address_views(addr_vec@)) + fraction_action(
            expr@,
            address_views(addr_vec@),
            quotient@,
        ),
{
    let mut all = apply_operation_both_side(expr, addr_vec);
    let ghost first = step_views(all@);
    let mut second = arithmetic(expr, addr_vec, value);
    let ghost second_model = step_views(second@);
    let ghost before = all@;
    let ghost added = second@;
    all.append(&mut second);
    assert(step_views(all@) =~= step_views(before) + step_views(added));
    let mut third = from_rule_map(expr, rule_map, addr_vec);
    let ghost before = all@;
    let ghost added = third@;
    all.append(&mut third);
    assert(step_views(all@) =~= step_views(before) + step_views(added));
    let mut fourth = apply_fraction_arithmetic(expr, addr_vec, quotient);
    let ghost before = all@;
    let ghost added = fourth@;
    all.append(&mut fourth);
    assert(step_views(all@) =~= step_views(before) + step_views(added));
    all
}

/// The domain of algebra as far as it needs no computed number: the
/// operation on both sides, then the rules of the rule map. The steps that
/// need one, a computation or the cancelling of a fraction, are those of
/// `algebra`, for a caller that has the number.
#[derive(Debug, Clone, Copy)]
pub struct AlgebraSuggestions;

impl GetPossibleActionsFunction for AlgebraSuggestions {
    open spec fn suggestions(
        &self,
        expr: ExpressionView,
        rules: Map<Seq<char>, RuleView>,
        order: Seq<Seq<char>>,
        ctx: ContextView,
        selection: Seq<AddressView>,
    ) -> Seq<(ActionView, ExpressionView)> {
        both_sides_action(expr, selection) + rule_actions(expr, rules, order, selection)
    }

    fn get_possible_actions(
        &self,
        expr: &Expression,
        rule_map: &RuleMap,
        ctx: &Context,
        addr_vec: &Vec<Address>,
    ) -> (r: Vec<(Action, Expression)>) {
        let mut all = apply_operation_both_side(expr, addr_vec);
        let mut rest = from_rule_map(expr, rule_map, addr_vec);
        let ghost before = all@;
        let ghost added = rest@;
        all.append(&mut rest);
        assert(step_views(all@) =~= step_views(before) + step_views(added));
        all
    }
}

} // verus!
