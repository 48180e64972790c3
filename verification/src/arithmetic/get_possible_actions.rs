//! The steps that arithmetic offers.

use vstd::prelude::*;
use vstd::string::*;

use crate::arithmetic::calculation_name;
use crate::expression::Address;
use crate::expression::AddressView;
use crate::expression::Expression;
use crate::expression::ExpressionView;
use crate::expression::address::common_prefix_len;
use crate::expression::rewrite::address_views;
use crate::worksheet::Action;
use crate::worksheet::ActionView;
use crate::worksheet::step_views;

verus! {

/// The place that a selection of addresses points at: the address itself
/// where only one is selected, and else the deepest position that lies on
/// the paths of the first `n` of them.
pub open spec fn selected_place(selection: Seq<AddressView>, n: nat) -> AddressView
    decreases n,
{
    if n <= 1 || n > selection.len() {
        if selection.len() > 0 {
            selection[0]
        } else {
            AddressView { path: Seq::empty(), sub: None }
        }
    } else {
        let earlier = selected_place(selection, (n - 1) as nat);
        AddressView {
            path: earlier.path.take(common_prefix_len(earlier.path, selection[n - 1].path) as int),
            sub: None,
        }
    }
}

/// The computation that a selection points at, and the expression that
/// carrying it out with the value `value` gives.
pub open spec fn calculation_action(expr: ExpressionView, selection: Seq<AddressView>, value: Seq<char>) -> Seq<
    (ActionView, ExpressionView),
> {
    if selection.len() == 0 {
        Seq::empty()
    } else {
        let place = selected_place(selection, selection.len());
        match expr.apply_simple_arithmetic_equation_at(place, value) {
            Err(_) => Seq::empty(),
            Ok(e) => seq![(ActionView::ApplyAction(calculation_name(expr, place, value)), e)],
        }
    }
}

/// The place that the selection `addr_vec` points at.
pub fn common_ancestor_from_vec(addr_vec: &Vec<Address>) -> (place: Address)
    requires
        addr_vec.len() > 0,
    ensures
        place@ == selected_place(address_views(addr_vec@), addr_vec.len() as nat),
{
    let mut place = addr_vec[0].clone();
    let mut i: usize = 1;
    while i < addr_vec.len()
        invariant
            1 <= i <= addr_vec.len(),
            place@ == selected_place(address_views(addr_vec@), i as nat),
        decreases addr_vec.len() - i,
    {
        place = Address::common_ancestor(&place, &addr_vec[i]);
        i += 1;
    }
    place
}

/// The step that arithmetic offers for the selection `addr_vec` when the
/// computation it points at has the value `value`.
pub fn arithmetic(expr: &Expression, addr_vec: &Vec<Address>, value: &str) -> (r: Vec<(Action, Expression)>)
    ensures
        step_views(r@) == calculation_action(expr@, address_views(addr_vec@), value@),
{
    arithmetic_calculation(expr, addr_vec, value)
}

/// The step that carries out the computation that the selection `addr_vec`
/// points at, `value` being its value.
pub fn arithmetic_calculation(root_expr: &Expression, addr_vec: &Vec<Address>, value: &str) -> (r: Vec<
    (Action, Expression),
>)
    ensures
        step_views(r@) == calculation_action(root_expr@, address_views(addr_vec@), value@),
{
    let mut out: Vec<(Action, Expression)> = Vec::new();
    assert(step_views(out@) =~= Seq::<(ActionView, ExpressionView)>::empty());
    match f_arithmetic_calculation(root_expr, addr_vec, value) {
        Some(step) => {
            let ghost model = (step.0@, step.1@);
            out.push(step);
            assert(step_views(out@) =~= seq![model]);
            out
        },
        None => out,
    }
}

fn f_arithmetic_calculation(root_expr: &Expression, addr_vec: &Vec<Address>, value: &str) -> (r: Option<
    (Action, Expression),
>)
    ensures
        match r {
            Some(step) => calculation_action(root_expr@, address_views(addr_vec@), value@) == seq![
                (step.0@, step.1@),
            ],
            None => calculation_action(root_expr@, address_views(addr_vec@), value@) == Seq::<
                (ActionView, ExpressionView),
            >::empty(),
        },
{
    if addr_vec.len() == 0 {
        return None;
    }
    let addr = common_ancestor_from_vec(addr_vec);
    let result = match root_expr.apply_simple_arithmetic_equation_at(&addr, value) {
        Ok(e) => e,
        Err(_) => {
            return None;
        },
    };
    let equation_expr = match root_expr.generate_simple_artithmetic_equation_at(&addr, value) {
        Ok(e) => e,
        Err(_) => {
            return None;
        },
    };
    let mut name = String::from_str("Calculate ");
    let text = equation_expr.to_string(false);
    name.append(text.as_str());
    assert(name@ =~= calculation_name(root_expr@, addr@, value@));
    Some((Action::ApplyAction(name), result))
}

} // verus!
