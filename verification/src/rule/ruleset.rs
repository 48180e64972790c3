//! Building a rule set from its description: the context, the rules, and
//! the variations of each rule.

use vstd::prelude::*;
use vstd::string::*;

use crate::arithmetic::arithmetic_context;
use crate::arithmetic::get_arithmetic_ctx;
use crate::expression::Address;
use crate::expression::AddressView;
use crate::expression::Context;
use crate::expression::ContextView;
use crate::expression::Expression;
use crate::expression::ExpressionView;
use crate::expression::context::clone_strings;
use crate::expression::rewrite::address_views;
use crate::expression::tree::clone_children;
use crate::expression::tree::string_set;
use crate::expression::views;
use crate::parser::parser::infix_expression;
use crate::parser::parser::to_expression;
use crate::parser::parser_prefix;
use crate::rule::ParserError;
use crate::rule::Rule;
use crate::rule::RuleSet;
use crate::rule::RuleView;
use crate::rule::rule_views;
use crate::text::decimal;
use crate::text::str_eq;
use crate::text::strings_view;
use crate::text::usize_to_string;

verus! {

/// How deep the search for the variations of one rule goes.
pub const LIMIT_OF_VARIATION_DEPTH: usize = 16;

/// A rule that says how a rule may be varied, or an expression to bring
/// rules to normal form with: in infix notation, or else in prefix
/// notation.
#[derive(Debug)]
pub struct RulesetVariationJSON {
    pub expr_prefix: Option<String>,
    pub expr: Option<String>,
}

/// The context of a rule set as it is written down: a context to start
/// from, and what to add to it.
#[derive(Debug)]
pub struct ContextJSON {
    pub base: Option<String>,
    pub parameters: Option<Vec<String>>,
    pub unary_ops: Option<Vec<String>>,
    pub binary_ops: Option<Vec<String>>,
    pub assoc_ops: Option<Vec<String>>,
    pub handle_numerics: Option<bool>,
    pub flags: Option<Vec<String>>,
}

/// A rule as it is written down.
#[derive(Debug)]
pub struct RuleJSON {
    pub id: String,
    pub label: Option<String>,
    pub expr_prefix: Option<String>,
    pub expr: Option<String>,
    /// The variations of this rule, in place of those of the rule set.
    pub variations: Option<Vec<RulesetVariationJSON>>,
    /// Whether the rule is applied without being asked.
    pub auto: Option<bool>,
}

/// A rule set as it is written down.
#[derive(Debug)]
pub struct RulesetJSON {
    pub name: String,
    pub context: Option<ContextJSON>,
    pub variations: Option<Vec<RulesetVariationJSON>>,
    pub normalization: Option<Vec<RulesetVariationJSON>>,
    pub rules: Vec<RuleJSON>,
}

/// The mathematical value of a [`ParserError`].
pub enum ParserErrorView {
    InvalidJSON(Seq<char>),
    InvalidRule(Seq<char>),
}

impl View for ParserError {
    type V = ParserErrorView;

    open spec fn view(&self) -> ParserErrorView {
        match self {
            ParserError::InvalidJSON(s) => ParserErrorView::InvalidJSON(s@),
            ParserError::InvalidRule(s) => ParserErrorView::InvalidRule(s@),
        }
    }
}

/// The strings of an optional list; none for no list.
pub open spec fn optional_strings(list: Option<Vec<String>>) -> Seq<Seq<char>> {
    match list {
        Some(v) => strings_view(v@),
        None => Seq::empty(),
    }
}

/// The context that a description stands for: the context it starts from,
/// which is empty or that of arithmetic, with what it adds put after what is
/// there.
pub open spec fn described_context(description: Option<ContextJSON>) -> Result<ContextView, ParserErrorView> {
    match description {
        None => Ok(ContextView::empty()),
        Some(d) => {
            let base = match d.base {
                None => Ok(ContextView::empty()),
                Some(name) => if name@ == "arithmetic"@ {
                    Ok(arithmetic_context())
                } else {
                    Err(ParserErrorView::InvalidRule(name@))
                },
            };
            match base {
                Err(e) => Err(e),
                Ok(ctx) => Ok(
                    ContextView {
                        parameters: ctx.parameters + optional_strings(d.parameters),
                        unary_ops: ctx.unary_ops + optional_strings(d.unary_ops),
                        binary_ops: ctx.binary_ops + optional_strings(d.binary_ops),
                        assoc_ops: ctx.assoc_ops + optional_strings(d.assoc_ops),
                        handle_numerics: match d.handle_numerics {
                            Some(b) => b,
                            None => ctx.handle_numerics,
                        },
                        flags: match d.flags {
                            Some(v) => ctx.flags.union(string_set(v@)),
                            None => ctx.flags,
                        },
                    },
                ),
            }
        },
    }
}

/// The expression that is written in infix notation as `expr`, or else in
/// prefix notation as `expr_prefix`; `missing` is what is wrong where
/// neither is there.
pub open spec fn written_expression(
    expr: Option<String>,
    expr_prefix: Option<String>,
    ctx: ContextView,
    missing: Seq<char>,
) -> Result<ExpressionView, ParserErrorView> {
    match expr {
        Some(text) => match infix_expression(text@, ctx) {
            Some(e) => Ok(e),
            None => Err(ParserErrorView::InvalidRule(text@)),
        },
        None => match expr_prefix {
            Some(text) => match parser_prefix::parsed(parser_prefix::tokens_of(text@), ctx) {
                Some(e) => Ok(e),
                None => Err(ParserErrorView::InvalidRule(text@)),
            },
            None => Err(ParserErrorView::InvalidRule(missing)),
        },
    }
}

/// The expressions of the first `n` of `variations`, or what is wrong with
/// the first of them that is no expression.
pub open spec fn described_variations(variations: Seq<RulesetVariationJSON>, ctx: ContextView, n: nat) -> Result<
    Seq<ExpressionView>,
    ParserErrorView,
>
    decreases n,
{
    if n == 0 || n > variations.len() {
        Ok(Seq::empty())
    } else {
        match described_variations(variations, ctx, (n - 1) as nat) {
            Err(e) => Err(e),
            Ok(earlier) => match written_expression(
                variations[n - 1].expr,
                variations[n - 1].expr_prefix,
                ctx,
                "missing expr or expr_prefix"@,
            ) {
                Err(e) => Err(e),
                Ok(e) => Ok(earlier.push(e)),
            },
        }
    }
}

/// The variations of an optional list.
pub open spec fn optional_variations(variations: Option<Vec<RulesetVariationJSON>>, ctx: ContextView) -> Result<
    Seq<ExpressionView>,
    ParserErrorView,
> {
    match variations {
        None => Ok(Seq::empty()),
        Some(v) => described_variations(v@, ctx, v@.len()),
    }
}

/// The first of `addresses`, from position `from` on, that comes after
/// `last`.
pub open spec fn first_after(addresses: Seq<AddressView>, last: AddressView, from: nat) -> Option<AddressView>
    decreases addresses.len() - from,
{
    if from >= addresses.len() {
        None
    } else if last.before(addresses[from as int]) {
        Some(addresses[from as int])
    } else {
        first_after(addresses, last, from + 1)
    }
}

/// Whether the left sides of two equations are equivalent.
pub open spec fn same_left_side(a: ExpressionView, b: ExpressionView) -> bool {
    match (a.lhs(), b.lhs()) {
        (Some(x), Some(y)) => x.is_equivalent_to(y),
        _ => false,
    }
}

/// The variations of `expr` under the variation rule `rule`, made at the
/// places after `last` where the rule applies, within `depth` steps.
///
/// At the first such place on the left side the rule is applied; the search
/// goes on behind that place in `expr` and, unless the left side it gives is
/// equivalent to the one it was made from, in what the rule gave.
pub open spec fn variations_from(expr: ExpressionView, rule: ExpressionView, last: AddressView, depth: nat) -> Seq<
    ExpressionView,
>
    decreases depth,
{
    if depth == 0 {
        seq![expr]
    } else {
        match first_after(expr.equation_addresses(rule), last, 0) {
            None => seq![expr],
            Some(place) => if place.path.len() > 0 && place.path[0] > 0 {
                seq![expr]
            } else {
                match expr.apply_equation_at(rule, place) {
                    Err(_) => seq![expr],
                    Ok(new_expr) => if same_left_side(expr, new_expr) {
                        variations_from(expr, rule, place, (depth - 1) as nat)
                    } else {
                        variations_from(expr, rule, place, (depth - 1) as nat) + variations_from(
                            new_expr,
                            rule,
                            place,
                            (depth - 1) as nat,
                        )
                    },
                }
            },
        }
    }
}

/// The variations of `expr` under one variation rule.
pub open spec fn single_rule_variations(expr: ExpressionView, rule: ExpressionView) -> Seq<ExpressionView> {
    variations_from(expr, rule, AddressView { path: Seq::empty(), sub: None }, LIMIT_OF_VARIATION_DEPTH as nat)
}

/// The variations of the first `n` of `exprs` under one variation rule,
/// one after the other.
pub open spec fn spread(exprs: Seq<ExpressionView>, rule: ExpressionView, n: nat) -> Seq<ExpressionView>
    decreases n,
{
    if n == 0 || n > exprs.len() {
        Seq::empty()
    } else {
        spread(exprs, rule, (n - 1) as nat) + single_rule_variations(exprs[n - 1], rule)
    }
}

/// The variations of `expr` under the first `n` of `rules`, each rule
/// applied to all that the rules before it gave.
pub open spec fn all_variations(expr: ExpressionView, rules: Seq<ExpressionView>, n: nat) -> Seq<ExpressionView>
    decreases n,
{
    if n == 0 || n > rules.len() {
        seq![expr]
    } else {
        let earlier = all_variations(expr, rules, (n - 1) as nat);
        spread(earlier, rules[n - 1], earlier.len())
    }
}

/// Whether a later one of `exprs` has a left side equivalent to that of
/// `exprs[i]`.
pub open spec fn has_later_twin(exprs: Seq<ExpressionView>, i: int) -> bool {
    exists|j: int| i < j < exprs.len() && #[trigger] same_left_side(exprs[i], exprs[j])
}

/// Those of the first `n` of `exprs` that no later one repeats.
pub open spec fn unique_upto(exprs: Seq<ExpressionView>, n: nat) -> Seq<ExpressionView>
    decreases n,
{
    if n == 0 || n > exprs.len() {
        Seq::empty()
    } else if has_later_twin(exprs, n - 1) {
        unique_upto(exprs, (n - 1) as nat)
    } else {
        unique_upto(exprs, (n - 1) as nat).push(exprs[n - 1])
    }
}

/// The variations without those whose left side a later one repeats. Two
/// or fewer variations, and variations that are no equations, are all kept.
pub open spec fn unique_variations(exprs: Seq<ExpressionView>) -> Seq<ExpressionView> {
    if exprs.len() <= 2 || !exprs[0].is_equation() {
        exprs
    } else {
        unique_upto(exprs, exprs.len())
    }
}

/// The rules that the variations of `base` make: variation `i` has the
/// id of `base` followed by a stroke and `i`.
pub open spec fn varied_rules(base: RuleView, rules: Seq<ExpressionView>) -> Seq<RuleView> {
    let exprs = unique_variations(all_variations(base.expression, rules, rules.len()));
    Seq::new(
        exprs.len(),
        |i: int| RuleView { id: base.id.push('/') + decimal(i as nat), label: base.label, expression: exprs[i] },
    )
}

/// The label of a rule; empty where none is written.
pub open spec fn described_label(rule: RuleJSON) -> Seq<char> {
    match rule.label {
        Some(l) => l@,
        None => Seq::empty(),
    }
}

/// The rules that one description stands for in the rule set `name`:
/// the rule alone, under the id of the set, a stroke and its own id, if it
/// has no variation but itself; all its variations otherwise.
pub open spec fn described_rule(
    rule: RuleJSON,
    name: Seq<char>,
    set_variations: Seq<ExpressionView>,
    ctx: ContextView,
) -> Result<Seq<RuleView>, ParserErrorView> {
    let id = name.push('/') + rule.id@;
    let variations = match rule.variations {
        Some(v) => described_variations(v@, ctx, v@.len()),
        None => Ok(set_variations),
    };
    match variations {
        Err(e) => Err(e),
        Ok(variations) => match written_expression(rule.expr, rule.expr_prefix, ctx, "missing rule"@) {
            Err(e) => Err(e),
            Ok(expression) => {
                let varied = varied_rules(RuleView { id, label: described_label(rule), expression }, variations);
                if varied.len() == 1 {
                    Ok(seq![RuleView { id, ..varied[0] }])
                } else {
                    Ok(varied)
                }
            },
        },
    }
}

/// The ids of a list of rules.
pub open spec fn ids_of(rules: Seq<RuleView>) -> Seq<Seq<char>> {
    Seq::new(rules.len(), |i: int| rules[i].id)
}

/// The rules of the first `n` descriptions, and the ids of those among
/// them that are applied without being asked; or what is wrong with the
/// first description that stands for no rule.
pub open spec fn described_rules(
    rules: Seq<RuleJSON>,
    name: Seq<char>,
    set_variations: Seq<ExpressionView>,
    ctx: ContextView,
    n: nat,
) -> Result<(Seq<RuleView>, Seq<Seq<char>>), ParserErrorView>
    decreases n,
{
    if n == 0 || n > rules.len() {
        Ok((Seq::empty(), Seq::empty()))
    } else {
        match described_rules(rules, name, set_variations, ctx, (n - 1) as nat) {
            Err(e) => Err(e),
            Ok((earlier, auto)) => match described_rule(rules[n - 1], name, set_variations, ctx) {
                Err(e) => Err(e),
                Ok(made) => Ok(
                    (
                        earlier + made,
                        if rules[n - 1].auto == Some(true) {
                            auto + ids_of(made)
                        } else {
                            auto
                        },
                    ),
                ),
            },
        }
    }
}

/// The model of a fallible list of expressions.
pub open spec fn expressions_outcome(r: Result<Vec<Expression>, ParserError>) -> Result<
    Seq<ExpressionView>,
    ParserErrorView,
> {
    match r {
        Ok(v) => Ok(views(v@)),
        Err(e) => Err(e@),
    }
}

/// Adds copies of the strings of `more` to `list`.
fn extend_strings(list: &mut Vec<String>, more: &Vec<String>)
    ensures
        strings_view(final(list)@) == strings_view(old(list)@) + strings_view(more@),
        string_set(final(list)@) == string_set(old(list)@).union(string_set(more@)),
{
    let ghost start = list@;
    let mut copies = clone_strings(more);
    let ghost added = copies@;
    list.append(&mut copies);
    assert(strings_view(list@) =~= strings_view(start) + strings_view(added));
    proof {
        let after = list@;
        assert forall|s: Seq<char>| string_set(after).contains(s) <==> string_set(start).union(
            string_set(more@),
        ).contains(s) by {
            crate::expression::context::lemma_contains_view(after, s);
            crate::expression::context::lemma_contains_view(start, s);
            crate::expression::context::lemma_contains_view(more@, s);
            crate::expression::context::lemma_contains_view(added, s);
            let all = strings_view(after);
            let a = strings_view(start);
            let b = strings_view(added);
            if all.contains(s) {
                let i = choose|i: int| 0 <= i < all.len() && all[i] == s;
                if i < a.len() {
                    assert(a[i] == s);
                } else {
                    assert(b[i - a.len()] == s);
                }
            }
            if a.contains(s) {
                let i = choose|i: int| 0 <= i < a.len() && a[i] == s;
                assert(all[i] == s);
            }
            if b.contains(s) {
                let i = choose|i: int| 0 <= i < b.len() && b[i] == s;
                assert(all[a.len() + i] == s);
            }
        }
        assert(string_set(after) =~= string_set(start).union(string_set(more@)));
    }
}

/// The context that `context_json` stands for.
pub fn resolve_context_json(context_json: Option<ContextJSON>) -> (r: Result<Context, ParserError>)
    ensures
        match r {
            Ok(ctx) => described_context(context_json) == Ok::<ContextView, ParserErrorView>(ctx@),
            Err(e) => described_context(context_json) == Err::<ContextView, ParserErrorView>(e@),
        },
{
    let context_json = match context_json {
        None => {
            return Ok(Context::default());
        },
        Some(c) => c,
    };
    let mut ctx = match &context_json.base {
        Some(base) => {
            if str_eq(base.as_str(), "arithmetic") {
                get_arithmetic_ctx()
            } else {
                return Err(ParserError::InvalidRule(base.clone()));
            }
        },
        None => Context::default(),
    };
    if let Some(parameters) = &context_json.parameters {
        extend_strings(&mut ctx.parameters, parameters);
    } else {
        assert(ctx@.parameters + Seq::<Seq<char>>::empty() =~= ctx@.parameters);
    }
    if let Some(unary_ops) = &context_json.unary_ops {
        extend_strings(&mut ctx.unary_ops, unary_ops);
    } else {
        assert(ctx@.unary_ops + Seq::<Seq<char>>::empty() =~= ctx@.unary_ops);
    }
    if let Some(binary_ops) = &context_json.binary_ops {
        extend_strings(&mut ctx.binary_ops, binary_ops);
    } else {
        assert(ctx@.binary_ops + Seq::<Seq<char>>::empty() =~= ctx@.binary_ops);
    }
    if let Some(assoc_ops) = &context_json.assoc_ops {
        extend_strings(&mut ctx.assoc_ops, assoc_ops);
    } else {
        assert(ctx@.assoc_ops + Seq::<Seq<char>>::empty() =~= ctx@.assoc_ops);
    }
    if let Some(handle_numerics) = context_json.handle_numerics {
        ctx.handle_numerics = handle_numerics;
    }
    if let Some(flags) = &context_json.flags {
        extend_strings(&mut ctx.flags, flags);
    }
    Ok(ctx)
}

/// The expression written as `expr` or, failing that, as `expr_prefix`.
fn resolve_expression(expr: &Option<String>, expr_prefix: &Option<String>, ctx: &Context, missing: &str) -> (r:
    Result<Expression, ParserError>)
    ensures
        match r {
            Ok(e) => written_expression(*expr, *expr_prefix, ctx@, missing@) == Ok::<
                ExpressionView,
                ParserErrorView,
            >(e@),
            Err(err) => written_expression(*expr, *expr_prefix, ctx@, missing@) == Err::<
                ExpressionView,
                ParserErrorView,
            >(err@),
        },
{
    match expr {
        Some(text) => match to_expression(text.as_str(), ctx) {
            Some(e) => Ok(e),
            None => Err(ParserError::InvalidRule(text.clone())),
        },
        None => match expr_prefix {
            Some(text) => match parser_prefix::to_expression(text.as_str(), ctx) {
                Some(e) => Ok(e),
                None => Err(ParserError::InvalidRule(text.clone())),
            },
            None => Err(ParserError::InvalidRule(String::from_str(missing))),
        },
    }
}

/// The expressions of `variations`.
fn resolve_variation_list(variations: &Vec<RulesetVariationJSON>, ctx: &Context) -> (r: Result<
    Vec<Expression>,
    ParserError,
>)
    ensures
        expressions_outcome(r) == described_variations(variations@, ctx@, variations@.len()),
{
    let mut out: Vec<Expression> = Vec::new();
    let mut i: usize = 0;
    assert(views(out@) =~= Seq::<ExpressionView>::empty());
    while i < variations.len()
        invariant
            i <= variations.len(),
            described_variations(variations@, ctx@, i as nat) == Ok::<Seq<ExpressionView>, ParserErrorView>(
                views(out@),
            ),
        decreases variations.len() - i,
    {
        let ghost before = views(out@);
        match resolve_expression(&variations[i].expr, &variations[i].expr_prefix, ctx, "missing expr or expr_prefix") {
            Err(err) => {
                proof {
                    lemma_variations_fail(variations@, ctx@, (i + 1) as nat, variations@.len());
                }
                return Err(err);
            },
            Ok(e) => {
                let ghost model = e@;
                out.push(e);
                assert(views(out@) =~= before.push(model));
            },
        }
        i += 1;
    }
    Ok(out)
}

/// Once a variation is wrong, the list is wrong in the same way.
pub proof fn lemma_variations_fail(variations: Seq<RulesetVariationJSON>, ctx: ContextView, k: nat, n: nat)
    requires
        k <= n <= variations.len(),
        described_variations(variations, ctx, k) is Err,
    ensures
        described_variations(variations, ctx, n) == described_variations(variations, ctx, k),
    decreases n,
{
    if k < n {
        lemma_variations_fail(variations, ctx, k, (n - 1) as nat);
    }
}

/// The expressions of the variations that `variations_json` lists.
pub fn resolve_variations_json(variations_json: &Option<Vec<RulesetVariationJSON>>, context: &Context) -> (r:
    Result<Vec<Expression>, ParserError>)
    ensures
        expressions_outcome(r) == optional_variations(*variations_json, context@),
{
    match variations_json {
        None => {
            let out: Vec<Expression> = Vec::new();
            assert(views(out@) =~= Seq::<ExpressionView>::empty());
            Ok(out)
        },
        Some(list) => resolve_variation_list(list, context),
    }
}

/// Whether the left sides of two equations are equivalent.
fn left_sides_equivalent(a: &Expression, b: &Expression) -> (r: bool)
    ensures
        r == same_left_side(a@, b@),
{
    match (a.lhs(), b.lhs()) {
        (Some(x), Some(y)) => x.is_equivalent_to(y),
        _ => false,
    }
}

/// A list of one expression.
fn only(e: Expression) -> (v: Vec<Expression>)
    ensures
        views(v@) == seq![e@],
{
    let mut v: Vec<Expression> = Vec::new();
    v.push(e);
    assert(views(v@) =~= seq![e@]);
    v
}

/// The position of the first of `addresses` that comes after `last`.
fn first_address_after(addresses: &Vec<Address>, last: &Address) -> (r: Option<usize>)
    ensures
        match r {
            Some(k) => k < addresses.len() && first_after(address_views(addresses@), last@, 0) == Some(
                addresses@[k as int]@,
            ),
            None => first_after(address_views(addresses@), last@, 0) is None,
        },
{
    let ghost models = address_views(addresses@);
    let mut i: usize = 0;
    while i < addresses.len()
        invariant
            i <= addresses.len(),
            models == address_views(addresses@),
            first_after(models, last@, 0) == first_after(models, last@, i as nat),
        decreases addresses.len() - i,
    {
        assert(models[i as int] == addresses@[i as int]@);
        if last.is_before(&addresses[i]) {
            return Some(i);
        }
        i += 1;
    }
    None
}

/// Whether a later one of `exprs` has a left side equivalent to that of
/// `exprs[i]`.
fn later_twin(exprs: &Vec<Expression>, i: usize) -> (r: bool)
    requires
        i < exprs.len(),
    ensures
        r == has_later_twin(views(exprs@), i as int),
{
    let ghost models = views(exprs@);
    let mut j: usize = i + 1;
    while j < exprs.len()
        invariant
            i < j <= exprs.len(),
            models == views(exprs@),
            forall|k: int| i < k < j ==> !#[trigger] same_left_side(models[i as int], models[k]),
        decreases exprs.len() - j,
    {
        assert(models[i as int] == exprs@[i as int]@);
        assert(models[j as int] == exprs@[j as int]@);
        if left_sides_equivalent(&exprs[i], &exprs[j]) {
            assert(same_left_side(models[i as int], models[j as int]));
            return true;
        }
        j += 1;
    }
    false
}

fn f_generate_variation(expr: &Expression, variation_rule: &Expression, last_modified_address: &Address, depth: usize) -> (r:
    Vec<Expression>)
    ensures
        views(r@) == variations_from(expr@, variation_rule@, last_modified_address@, depth as nat),
    decreases depth,
{
    if depth == 0 {
        return only(expr.clone());
    }
    let possible_addresses = expr.get_possible_equation_application_addresses(variation_rule);
    let to_modify_address = match first_address_after(&possible_addresses, last_modified_address) {
        None => {
            return only(expr.clone());
        },
        Some(k) => &possible_addresses[k],
    };
    if to_modify_address.path.len() > 0 && to_modify_address.path[0] > 0 {
        return only(expr.clone());
    }
    let new_expr = match expr.apply_equation_at(variation_rule, to_modify_address) {
        Ok(e) => e,
        Err(_) => {
            return only(expr.clone());
        },
    };
    let is_equivalent = left_sides_equivalent(expr, &new_expr);
    let mut variation0 = f_generate_variation(expr, variation_rule, to_modify_address, depth - 1);
    if is_equivalent {
        variation0
    } else {
        let mut variation1 = f_generate_variation(&new_expr, variation_rule, to_modify_address, depth - 1);
        let ghost first = variation0@;
        let ghost second = variation1@;
        variation0.append(&mut variation1);
        assert(views(variation0@) =~= views(first) + views(second));
        variation0
    }
}

fn generate_variations_from_single_rule(base_expr: &Expression, variation_rule: &Expression) -> (r: Vec<Expression>)
    ensures
        views(r@) == single_rule_variations(base_expr@, variation_rule@),
{
    f_generate_variation(base_expr, variation_rule, &Address::default(), LIMIT_OF_VARIATION_DEPTH)
}

/// The variations without those whose left side a later one repeats.
pub fn filter_for_unique_variations(expr_variations: &Vec<Expression>) -> (r: Vec<Expression>)
    ensures
        views(r@) == unique_variations(views(expr_variations@)),
{
    let ghost exprs = views(expr_variations@);
    if expr_variations.len() <= 2 {
        return clone_children(expr_variations);
    }
    if !expr_variations[0].is_equation() {
        return clone_children(expr_variations);
    }
    let mut unique_variations: Vec<Expression> = Vec::new();
    let mut i: usize = 0;
    assert(views(unique_variations@) =~= unique_upto(exprs, 0));
    while i < expr_variations.len()
        invariant
            i <= expr_variations.len(),
            exprs == views(expr_variations@),
            views(unique_variations@) == unique_upto(exprs, i as nat),
        decreases expr_variations.len() - i,
    {
        let expr1 = &expr_variations[i];
        let is_unique = !later_twin(expr_variations, i);
        let ghost before = views(unique_variations@);
        if is_unique {
            unique_variations.push(expr1.clone());
            assert(views(unique_variations@) =~= before.push(exprs[i as int]));
        }
        i += 1;
    }
    unique_variations
}

/// The rules that the variations of `base` under `variation_rules` make.
pub fn generate_variations(base: &Rule, variation_rules: &Vec<Expression>) -> (r: Vec<Rule>)
    ensures
        rule_views(r@) == varied_rules(base@, views(variation_rules@)),
{
    let ghost rules = views(variation_rules@);
    let mut expr_variations: Vec<Expression> = only(base.expression.clone());
    let mut k: usize = 0;
    while k < variation_rules.len()
        invariant
            k <= variation_rules.len(),
            rules == views(variation_rules@),
            views(expr_variations@) == all_variations(base@.expression, rules, k as nat),
        decreases variation_rules.len() - k,
    {
        let variation_rule = &variation_rules[k];
        let ghost earlier = views(expr_variations@);
        let mut new_expr_variations: Vec<Expression> = Vec::new();
        let mut i: usize = 0;
        assert(views(new_expr_variations@) =~= spread(earlier, variation_rule@, 0));
        while i < expr_variations.len()
            invariant
                i <= expr_variations.len(),
                earlier == views(expr_variations@),
                views(new_expr_variations@) == spread(earlier, variation_rule@, i as nat),
            decreases expr_variations.len() - i,
        {
            let mut more = generate_variations_from_single_rule(&expr_variations[i], variation_rule);
            let ghost before = new_expr_variations@;
            let ghost added = more@;
            new_expr_variations.append(&mut more);
            assert(views(new_expr_variations@) =~= views(before) + views(added));
            i += 1;
        }
        expr_variations = new_expr_variations;
        k += 1;
    }
    let expr_variations = filter_for_unique_variations(&expr_variations);
    let ghost exprs = views(expr_variations@);
    let mut out: Vec<Rule> = Vec::new();
    let mut i: usize = 0;
    while i < expr_variations.len()
        invariant
            i <= expr_variations.len(),
            exprs == views(expr_variations@),
            out.len() == i,
            forall|j: int|
                0 <= j < i ==> (#[trigger] out@[j])@ == (RuleView {
                    id: base@.id.push('/') + decimal(j as nat),
                    label: base@.label,
                    expression: exprs[j],
                }),
        decreases expr_variations.len() - i,
    {
        let mut id = base.id.clone();
        crate::text::push_char(&mut id, '/');
        let index = usize_to_string(i);
        id.append(index.as_str());
        out.push(Rule { id, label: base.label.clone(), expression: expr_variations[i].clone() });
        i += 1;
    }
    assert(rule_views(out@) =~= varied_rules(base@, rules));
    out
}

/// The rules that the description `rule_json` stands for.
fn parse_rule(rule_json: &RuleJSON, name: &String, ruleset_variations: &Vec<Expression>, context: &Context) -> (r:
    Result<Vec<Rule>, ParserError>)
    ensures
        match r {
            Ok(rules) => described_rule(*rule_json, name@, views(ruleset_variations@), context@) == Ok::<
                Seq<RuleView>,
                ParserErrorView,
            >(rule_views(rules@)),
            Err(e) => described_rule(*rule_json, name@, views(ruleset_variations@), context@) == Err::<
                Seq<RuleView>,
                ParserErrorView,
            >(e@),
        },
{
    let mut id = name.clone();
    crate::text::push_char(&mut id, '/');
    id.append(rule_json.id.as_str());
    let label = match &rule_json.label {
        Some(l) => l.clone(),
        None => String::new(),
    };
    let variations = match &rule_json.variations {
        Some(list) => match resolve_variation_list(list, context) {
            Ok(v) => v,
            Err(err) => {
                return Err(err);
            },
        },
        None => clone_children(ruleset_variations),
    };
    let expression = match resolve_expression(&rule_json.expr, &rule_json.expr_prefix, context, "missing rule") {
        Ok(e) => e,
        Err(err) => {
            return Err(err);
        },
    };
    let base = Rule { id: id.clone(), label, expression };
    let mut var_rules = generate_variations(&base, &variations);
    if var_rules.len() == 1 {
        let first = &var_rules[0];
        let rule = Rule { id, label: first.label.clone(), expression: first.expression.clone() };
        let mut out: Vec<Rule> = Vec::new();
        let ghost model = rule@;
        out.push(rule);
        assert(rule_views(out@) =~= seq![model]);
        Ok(out)
    } else {
        Ok(var_rules)
    }
}

/// Once a description is wrong, the list is wrong in the same way.
pub proof fn lemma_rules_fail(
    rules: Seq<RuleJSON>,
    name: Seq<char>,
    set_variations: Seq<ExpressionView>,
    ctx: ContextView,
    k: nat,
    n: nat,
)
    requires
        k <= n <= rules.len(),
        described_rules(rules, name, set_variations, ctx, k) is Err,
    ensures
        described_rules(rules, name, set_variations, ctx, n) == described_rules(rules, name, set_variations, ctx, k),
    decreases n,
{
    if k < n {
        lemma_rules_fail(rules, name, set_variations, ctx, k, (n - 1) as nat);
    }
}

/// The rules that `rules_json` describes for the rule set `name`, and the
/// ids of those that are applied without being asked.
pub fn parse_rule_vector(
    rules_json: &Vec<RuleJSON>,
    name: &String,
    ruleset_variations: &Vec<Expression>,
    context: &Context,
) -> (r: Result<(Vec<Rule>, Vec<String>), ParserError>)
    ensures
        match r {
            Ok(made) => described_rules(
                rules_json@,
                name@,
                views(ruleset_variations@),
                context@,
                rules_json@.len(),
            ) == Ok::<(Seq<RuleView>, Seq<Seq<char>>), ParserErrorView>(
                (rule_views(made.0@), strings_view(made.1@)),
            ),
            Err(e) => described_rules(
                rules_json@,
                name@,
                views(ruleset_variations@),
                context@,
                rules_json@.len(),
            ) == Err::<(Seq<RuleView>, Seq<Seq<char>>), ParserErrorView>(e@),
        },
{
    let ghost variations = views(ruleset_variations@);
    let mut rules: Vec<Rule> = Vec::new();
    let mut auto_rule_ids: Vec<String> = Vec::new();
    let mut i: usize = 0;
    assert(rule_views(rules@) =~= Seq::<RuleView>::empty());
    assert(strings_view(auto_rule_ids@) =~= Seq::<Seq<char>>::empty());
    while i < rules_json.len()
        invariant
            i <= rules_json.len(),
            variations == views(ruleset_variations@),
            described_rules(rules_json@, name@, variations, context@, i as nat) == Ok::<
                (Seq<RuleView>, Seq<Seq<char>>),
                ParserErrorView,
            >((rule_views(rules@), strings_view(auto_rule_ids@))),
        decreases rules_json.len() - i,
    {
        let rule_json = &rules_json[i];
        let mut made = match parse_rule(rule_json, name, ruleset_variations, context) {
            Ok(m) => m,
            Err(err) => {
                proof {
                    lemma_rules_fail(rules_json@, name@, variations, context@, (i + 1) as nat, rules_json@.len());
                }
                return Err(err);
            },
        };
        let auto = match rule_json.auto {
            Some(b) => b,
            None => false,
        };
        let ghost made_models = rule_views(made@);
        if auto {
            let ghost ids_before = strings_view(auto_rule_ids@);
            let mut k: usize = 0;
            while k < made.len()
                invariant
                    k <= made.len(),
                    made_models == rule_views(made@),
                    strings_view(auto_rule_ids@) == ids_before + ids_of(made_models).take(k as int),
                decreases made.len() - k,
            {
                let ghost before = strings_view(auto_rule_ids@);
                auto_rule_ids.push(made[k].id.clone());
                assert(strings_view(auto_rule_ids@) =~= before.push(made_models[k as int].id));
                assert(ids_of(made_models).take(k + 1) =~= ids_of(made_models).take(k as int).push(
                    made_models[k as int].id,
                ));
                assert(strings_view(auto_rule_ids@) =~= ids_before + ids_of(made_models).take(k + 1));
                k += 1;
            }
            assert(ids_of(made_models).take(k as int) =~= ids_of(made_models));
        }
        let ghost before = rules@;
        let ghost added = made@;
        rules.append(&mut made);
        assert(rule_views(rules@) =~= rule_views(before) + rule_views(added));
        i += 1;
    }
    Ok((rules, auto_rule_ids))
}

/// The rule set that a description stands for: its name, the context it
/// describes, and its rules with all their variations, read in that
/// context.
pub open spec fn described_ruleset(description: RulesetJSON) -> Result<
    (Seq<char>, ContextView, Seq<RuleView>, Seq<Seq<char>>),
    ParserErrorView,
> {
    match described_context(description.context) {
        Err(e) => Err(e),
        Ok(ctx) => match optional_variations(description.variations, ctx) {
            Err(e) => Err(e),
            Ok(variations) => match described_rules(
                description.rules@,
                description.name@,
                variations,
                ctx,
                description.rules@.len(),
            ) {
                Err(e) => Err(e),
                Ok((rules, auto)) => Ok((description.name@, ctx, rules, auto)),
            },
        },
    }
}

/// The rule set that `ruleset_json` describes.
pub fn ruleset_from_json(ruleset_json: RulesetJSON) -> (r: Result<RuleSet, ParserError>)
    ensures
        match r {
            Ok(set) => {
                &&& described_ruleset(ruleset_json) == Ok::<
                    (Seq<char>, ContextView, Seq<RuleView>, Seq<Seq<char>>),
                    ParserErrorView,
                >((set.name@, set.context@, rule_views(set.rule_vec@), strings_view(set.auto_rule_ids@)))
                &&& strings_view(set.rule_ids@) == ids_of(rule_views(set.rule_vec@))
            },
            Err(e) => described_ruleset(ruleset_json) == Err::<
                (Seq<char>, ContextView, Seq<RuleView>, Seq<Seq<char>>),
                ParserErrorView,
            >(e@),
        },
{
    let RulesetJSON { name, context, variations, normalization, rules } = ruleset_json;
    let context = match resolve_context_json(context) {
        Ok(c) => c,
        Err(err) => {
            return Err(err);
        },
    };
    let ruleset_variations = match resolve_variations_json(&variations, &context) {
        Ok(v) => v,
        Err(err) => {
            return Err(err);
        },
    };
    let (rule_vec, auto_rule_ids) = match parse_rule_vector(&rules, &name, &ruleset_variations, &context) {
        Ok(made) => made,
        Err(err) => {
            return Err(err);
        },
    };
    let mut rule_ids: Vec<String> = Vec::new();
    let mut i: usize = 0;
    while i < rule_vec.len()
        invariant
            i <= rule_vec.len(),
            rule_ids.len() == i,
            forall|j: int| 0 <= j < i ==> (#[trigger] rule_ids@[j])@ == rule_vec@[j].id@,
        decreases rule_vec.len() - i,
    {
        rule_ids.push(rule_vec[i].id.clone());
        i += 1;
    }
    assert(strings_view(rule_ids@) =~= ids_of(rule_views(rule_vec@)));
    Ok(RuleSet { name, context, rule_vec, rule_ids, auto_rule_ids })
}

} // verus!
