//! Named rewrite rules and collections of them.

use vstd::prelude::*;

use crate::expression::Address;
use crate::expression::AddressView;
use crate::expression::Context;
use crate::expression::ErrorKind;
use crate::expression::Expression;
use crate::expression::ExpressionError;
use crate::expression::ExpressionView;
use crate::expression::context::clone_strings;
use crate::expression::outcome;
use crate::expression::rewrite::tells_the_mismatch;
use crate::text_map::Duplicate;
use crate::text_map::TextMap;

pub mod ruleset;

verus! {

/// A rewrite rule: an equation or an implication under an id, with a
/// label for people to read.
#[derive(Debug)]
pub struct Rule {
    pub id: String,
    pub expression: Expression,
    pub label: String,
}

/// The mathematical value of a [`Rule`].
pub struct RuleView {
    pub id: Seq<char>,
    pub expression: ExpressionView,
    pub label: Seq<char>,
}

impl View for Rule {
    type V = RuleView;

    open spec fn view(&self) -> RuleView {
        RuleView { id: self.id@, expression: self.expression@, label: self.label@ }
    }
}

impl Clone for Rule {
    fn clone(&self) -> (res: Self)
        ensures
            res@ == self@,
    {
        Rule { id: self.id.clone(), expression: self.expression.clone(), label: self.label.clone() }
    }
}

impl Default for Rule {
    fn default() -> (r: Rule)
        ensures
            r@.id == Seq::<char>::empty(),
            r@.label == Seq::<char>::empty(),
            r@.expression == ExpressionView::leaf(crate::expression::ExpressionType::ValueConst, Seq::empty()),
    {
        Rule { id: String::new(), expression: Expression::default(), label: String::new() }
    }
}

impl Duplicate for Rule {
    fn duplicate(&self) -> (r: Rule) {
        self.clone()
    }
}

/// Rules by id, in the order in which their ids were first inserted.
pub type RuleMap = TextMap<Rule>;

/// The models of a list of rules.
pub open spec fn rule_views(rules: Seq<Rule>) -> Seq<RuleView> {
    Seq::new(rules.len(), |i: int| rules[i]@)
}

/// The map from id to rule made of the first `n` of `rules`; of two rules
/// with one id the later one stays.
pub open spec fn rule_map_upto(rules: Seq<RuleView>, n: nat) -> Map<Seq<char>, RuleView>
    decreases n,
{
    if n == 0 || n > rules.len() {
        Map::empty()
    } else {
        rule_map_upto(rules, (n - 1) as nat).insert(rules[n - 1].id, rules[n - 1])
    }
}

/// The ids of the first `n` of `rules`, each where it occurs first.
pub open spec fn rule_order_upto(rules: Seq<RuleView>, n: nat) -> Seq<Seq<char>>
    decreases n,
{
    if n == 0 || n > rules.len() {
        Seq::empty()
    } else {
        let earlier = rule_order_upto(rules, (n - 1) as nat);
        if earlier.contains(rules[n - 1].id) {
            earlier
        } else {
            earlier.push(rules[n - 1].id)
        }
    }
}

/// Copies a list of rules.
pub fn clone_rules(rules: &Vec<Rule>) -> (out: Vec<Rule>)
    ensures
        rule_views(out@) == rule_views(rules@),
{
    let mut out: Vec<Rule> = Vec::new();
    let mut i: usize = 0;
    while i < rules.len()
        invariant
            i <= rules.len(),
            out.len() == i,
            forall|j: int| 0 <= j < i ==> out@[j]@ == rules@[j]@,
        decreases rules.len() - i,
    {
        out.push(rules[i].clone());
        i += 1;
    }
    assert(rule_views(out@) =~= rule_views(rules@));
    out
}

/// A named, ordered collection of rules with the context they were written
/// in, and the ids of those to apply without being asked.
#[derive(Debug)]
pub struct RuleSet {
    pub name: String,
    pub context: Context,
    pub rule_vec: Vec<Rule>,
    /// The ids of the rules, in their order.
    pub rule_ids: Vec<String>,
    /// The ids of the rules that are applied automatically.
    pub auto_rule_ids: Vec<String>,
}

impl Clone for RuleSet {
    fn clone(&self) -> (res: Self)
        ensures
            res.name@ == self.name@,
            res.context@ == self.context@,
            rule_views(res.rule_vec@) == rule_views(self.rule_vec@),
            crate::text::strings_view(res.rule_ids@) == crate::text::strings_view(self.rule_ids@),
            crate::text::strings_view(res.auto_rule_ids@) == crate::text::strings_view(self.auto_rule_ids@),
    {
        RuleSet {
            name: self.name.clone(),
            context: self.context.clone(),
            rule_vec: clone_rules(&self.rule_vec),
            rule_ids: clone_strings(&self.rule_ids),
            auto_rule_ids: clone_strings(&self.auto_rule_ids),
        }
    }
}

impl Default for RuleSet {
    fn default() -> (r: RuleSet)
        ensures
            r.name@ == Seq::<char>::empty(),
            r.rule_vec@.len() == 0,
            r.rule_ids@.len() == 0,
            r.auto_rule_ids@.len() == 0,
    {
        RuleSet {
            name: String::new(),
            context: Context::default(),
            rule_vec: Vec::new(),
            rule_ids: Vec::new(),
            auto_rule_ids: Vec::new(),
        }
    }
}

impl RuleSet {
    /// The rules by id. Of two rules with one id the later one stays, at
    /// the place of the earlier one: the map keeps the ids in the order in
    /// which they occur first.
    pub fn get_rule_map(&self) -> (map: RuleMap)
        ensures
            map@ == rule_map_upto(rule_views(self.rule_vec@), self.rule_vec@.len()),
            map.spec_keys() == rule_order_upto(rule_views(self.rule_vec@), self.rule_vec@.len()),
    {
        let mut map: RuleMap = TextMap::new();
        let mut i: usize = 0;
        while i < self.rule_vec.len()
            invariant
                i <= self.rule_vec.len(),
                map@ == rule_map_upto(rule_views(self.rule_vec@), i as nat),
                map.spec_keys() == rule_order_upto(rule_views(self.rule_vec@), i as nat),
            decreases self.rule_vec.len() - i,
        {
            let rule = &self.rule_vec[i];
            map.insert(rule.id.clone(), rule.clone());
            i += 1;
        }
        map
    }
}

/// Why a rule set could not be built.
#[derive(Debug)]
pub enum ParserError {
    InvalidJSON(String),
    InvalidRule(String),
}

impl ExpressionView {
    /// What applying the rule `rule` at `address` gives: an equation
    /// rewrites the node at the address, an implication is applied to the
    /// whole expression, and anything else is no rule.
    pub open spec fn apply_rule_expr_at(self, rule: ExpressionView, address: AddressView) -> Result<
        ExpressionView,
        ErrorKind,
    > {
        if rule.is_equation() {
            self.apply_equation_at(rule, address)
        } else if rule.is_implication() {
            self.apply_implication(rule)
        } else {
            Err(ErrorKind::InvalidRule)
        }
    }
}

impl Expression {
    /// Applies the rule written as `rule_expr` at `addr`.
    pub fn apply_rule_expr_at(&self, rule_expr: &Expression, addr: &Address) -> (r: Result<
        Expression,
        ExpressionError,
    >)
        ensures
            outcome(r) == self@.apply_rule_expr_at(rule_expr@, addr@),
            !rule_expr@.is_equation() ==> tells_the_mismatch(r, self@, rule_expr@),
    {
        if rule_expr.is_equation() {
            return self.apply_equation_at(rule_expr, addr);
        } else if rule_expr.is_implication() {
            return self.apply_implication(rule_expr);
        }
        Err(ExpressionError::InvalidRule)
    }

    /// Applies `rule` at `addr`.
    pub fn apply_rule_at(&self, rule: &Rule, addr: &Address) -> (r: Result<Expression, ExpressionError>)
        ensures
            outcome(r) == self@.apply_rule_expr_at(rule@.expression, addr@),
            !rule@.expression.is_equation() ==> tells_the_mismatch(r, self@, rule@.expression),
    {
        self.apply_rule_expr_at(&rule.expression, addr)
    }
}

} // verus!
