//! The worksheet: sequences of rewrite steps that share one context.

use vstd::prelude::*;
use vstd::string::*;

use crate::expression::Address;
use crate::expression::AddressView;
use crate::expression::Context;
use crate::expression::ContextView;
use crate::expression::Expression;
use crate::expression::ExpressionView;
use crate::expression::context::clone_strings;
use crate::rule::Rule;
use crate::rule::RuleMap;
use crate::rule::RuleSet;
use crate::rule::RuleView;
use crate::rule::rule_views;
use crate::text::str_eq;
use crate::text::strings_view;
use crate::text_map::TextMap;

verus! {

/// The most lines that one explicit step may add by automatic rules.
pub const LIMIT_OF_AUTO_GENERATED_STEPS: usize = 100;

/// How a line of a sequence came about.
#[derive(Debug, PartialEq)]
pub enum Action {
    Introduce(String),
    ApplyRule(String),
    ApplyAction(String),
}

/// The mathematical value of an [`Action`].
pub enum ActionView {
    Introduce(Seq<char>),
    ApplyRule(Seq<char>),
    ApplyAction(Seq<char>),
}

impl View for Action {
    type V = ActionView;

    open spec fn view(&self) -> ActionView {
        match self {
            Action::Introduce(s) => ActionView::Introduce(s@),
            Action::ApplyRule(s) => ActionView::ApplyRule(s@),
            Action::ApplyAction(s) => ActionView::ApplyAction(s@),
        }
    }
}

impl ActionView {
    /// The text of the action.
    pub open spec fn text(self) -> Seq<char> {
        match self {
            ActionView::Introduce(s) => s,
            ActionView::ApplyRule(s) => s,
            ActionView::ApplyAction(s) => s,
        }
    }
}

impl Clone for Action {
    fn clone(&self) -> (res: Self)
        ensures
            res@ == self@,
    {
        match self {
            Action::Introduce(s) => Action::Introduce(s.clone()),
            Action::ApplyRule(s) => Action::ApplyRule(s.clone()),
            Action::ApplyAction(s) => Action::ApplyAction(s.clone()),
        }
    }
}

impl Action {
    pub fn as_str(&self) -> (s: &str)
        ensures
            s@ == self@.text(),
    {
        match self {
            Action::Introduce(s) => s.as_str(),
            Action::ApplyRule(s) => s.as_str(),
            Action::ApplyAction(s) => s.as_str(),
        }
    }

    pub fn to_string(&self) -> (s: String)
        ensures
            s@ == self@.text(),
    {
        String::from_str(self.as_str())
    }
}

/// The way a worksheet brings every expression it stores to normal form.
pub trait NormalizationFunction: Copy + Sized {
    /// The normal form of `expr` under `ctx`.
    spec fn normal_form(&self, expr: ExpressionView, ctx: ContextView) -> ExpressionView;

    fn normalize(&self, expr: &Expression, ctx: &Context) -> (r: Expression)
        ensures
            r@ == self.normal_form(expr@, ctx@),
    ;
}

/// The way a worksheet asks its domain which steps are possible at a
/// selection of addresses, the latest last.
pub trait GetPossibleActionsFunction: Copy + Sized {
    /// The steps that the domain suggests on `expr` at `selection`, given
    /// the rules by id, the order of the ids and the context.
    spec fn suggestions(
        &self,
        expr: ExpressionView,
        rules: Map<Seq<char>, RuleView>,
        order: Seq<Seq<char>>,
        ctx: ContextView,
        selection: Seq<AddressView>,
    ) -> Seq<(ActionView, ExpressionView)>;

    fn get_possible_actions(
        &self,
        expr: &Expression,
        rule_map: &RuleMap,
        ctx: &Context,
        addr_vec: &Vec<Address>,
    ) -> (r: Vec<(Action, Expression)>)
        ensures
            step_views(r@) == self.suggestions(
                expr@,
                rule_map@,
                rule_map.spec_keys(),
                ctx@,
                crate::expression::rewrite::address_views(addr_vec@),
            ),
    ;
}

/// The normalization that leaves every expression as it is.
#[derive(Debug, Clone, Copy)]
pub struct Untouched;

impl NormalizationFunction for Untouched {
    open spec fn normal_form(&self, expr: ExpressionView, ctx: ContextView) -> ExpressionView {
        expr
    }

    fn normalize(&self, expr: &Expression, ctx: &Context) -> (r: Expression) {
        expr.clone()
    }
}

/// The domain that suggests no step.
#[derive(Debug, Clone, Copy)]
pub struct NoSuggestions;

impl GetPossibleActionsFunction for NoSuggestions {
    open spec fn suggestions(
        &self,
        expr: ExpressionView,
        rules: Map<Seq<char>, RuleView>,
        order: Seq<Seq<char>>,
        ctx: ContextView,
        selection: Seq<AddressView>,
    ) -> Seq<(ActionView, ExpressionView)> {
        Seq::empty()
    }

    fn get_possible_actions(
        &self,
        expr: &Expression,
        rule_map: &RuleMap,
        ctx: &Context,
        addr_vec: &Vec<Address>,
    ) -> (r: Vec<(Action, Expression)>) {
        let r: Vec<(Action, Expression)> = Vec::new();
        assert(step_views(r@) =~= Seq::<(ActionView, ExpressionView)>::empty());
        r
    }
}

/// What every sequence of a worksheet shares.
pub struct WorksheetContext<N, S> {
    pub expression_context: Context,
    pub normalization_function: Option<N>,
    pub rule_map: RuleMap,
    pub rule_ids: Vec<String>,
    pub get_possible_actions_function: Option<S>,
    /// The expressions that carry a label, each once under each of its
    /// labels, in the order in which they were registered.
    pub labelled_expression: Vec<(String, Expression)>,
    /// The ids of the rules that are applied automatically, in the order in
    /// which they are tried.
    pub auto_rule_ids: Vec<String>,
}

/// The mathematical value of a [`WorksheetContext`].
pub struct WorksheetContextView<N, S> {
    pub expression_context: ContextView,
    pub normalization_function: Option<N>,
    pub rule_map: Map<Seq<char>, RuleView>,
    pub rule_order: Seq<Seq<char>>,
    pub rule_ids: Seq<Seq<char>>,
    pub get_possible_actions_function: Option<S>,
    pub labelled_expression: Seq<(Seq<char>, ExpressionView)>,
    pub auto_rule_ids: Seq<Seq<char>>,
}

/// The models of a list of labelled expressions.
pub open spec fn labelled_views(list: Seq<(String, Expression)>) -> Seq<(Seq<char>, ExpressionView)> {
    Seq::new(list.len(), |i: int| (list[i].0@, list[i].1@))
}

impl<N, S> View for WorksheetContext<N, S> {
    type V = WorksheetContextView<N, S>;

    open spec fn view(&self) -> WorksheetContextView<N, S> {
        WorksheetContextView {
            expression_context: self.expression_context@,
            normalization_function: self.normalization_function,
            rule_map: self.rule_map@,
            rule_order: self.rule_map.spec_keys(),
            rule_ids: strings_view(self.rule_ids@),
            get_possible_actions_function: self.get_possible_actions_function,
            labelled_expression: labelled_views(self.labelled_expression@),
            auto_rule_ids: strings_view(self.auto_rule_ids@),
        }
    }
}

/// One step of a sequence.
#[derive(Debug, PartialEq)]
pub struct ExpressionLine {
    pub action: Action,
    pub expr: Expression,
    pub label: Option<String>,
    pub is_auto_generated: bool,
}

/// The mathematical value of an [`ExpressionLine`].
pub struct LineView {
    pub action: ActionView,
    pub expr: ExpressionView,
    pub label: Option<Seq<char>>,
    pub is_auto_generated: bool,
}

impl View for ExpressionLine {
    type V = LineView;

    open spec fn view(&self) -> LineView {
        LineView {
            action: self.action@,
            expr: self.expr@,
            label: match self.label {
                Some(l) => Some(l@),
                None => None,
            },
            is_auto_generated: self.is_auto_generated,
        }
    }
}

impl Clone for ExpressionLine {
    fn clone(&self) -> (res: Self)
        ensures
            res@ == self@,
    {
        ExpressionLine {
            action: self.action.clone(),
            expr: self.expr.clone(),
            label: match &self.label {
                Some(l) => Some(l.clone()),
                None => None,
            },
            is_auto_generated: self.is_auto_generated,
        }
    }
}

/// The models of a list of lines.
pub open spec fn line_views(lines: Seq<ExpressionLine>) -> Seq<LineView> {
    Seq::new(lines.len(), |i: int| lines[i]@)
}

/// The models of a list of suggested steps.
pub open spec fn step_views(steps: Seq<(Action, Expression)>) -> Seq<(ActionView, ExpressionView)> {
    Seq::new(steps.len(), |i: int| (steps[i].0@, steps[i].1@))
}

/// Copies a history.
pub fn clone_lines(lines: &Vec<ExpressionLine>) -> (out: Vec<ExpressionLine>)
    ensures
        line_views(out@) == line_views(lines@),
{
    let mut out: Vec<ExpressionLine> = Vec::new();
    let mut i: usize = 0;
    while i < lines.len()
        invariant
            i <= lines.len(),
            out.len() == i,
            forall|j: int| 0 <= j < i ==> out@[j]@ == lines@[j]@,
        decreases lines.len() - i,
    {
        out.push(lines[i].clone());
        i += 1;
    }
    assert(line_views(out@) =~= line_views(lines@));
    out
}

/// A line that an explicit step adds.
pub open spec fn user_line(action: ActionView, expr: ExpressionView) -> LineView {
    LineView { action, expr, label: None, is_auto_generated: false }
}

/// A line that an automatic rule with the label `label` adds.
pub open spec fn auto_line(label: Seq<char>, expr: ExpressionView) -> LineView {
    LineView { action: ActionView::ApplyRule(label), expr, label: None, is_auto_generated: true }
}

/// The rules that the first `n` of `ids` name in `map`, in the order of the
/// ids.
pub open spec fn rules_named(ids: Seq<Seq<char>>, map: Map<Seq<char>, RuleView>, n: nat) -> Seq<RuleView>
    decreases n,
{
    if n == 0 || n > ids.len() {
        Seq::empty()
    } else if map.dom().contains(ids[n - 1]) {
        rules_named(ids, map, (n - 1) as nat).push(map[ids[n - 1]])
    } else {
        rules_named(ids, map, (n - 1) as nat)
    }
}

/// The first of `rules`, from position `from` on, that can be applied to
/// `last` at the first place where its left side matches: its label, and
/// what it makes of `last`.
pub open spec fn first_applicable(last: ExpressionView, rules: Seq<RuleView>, from: nat) -> Option<
    (Seq<char>, ExpressionView),
>
    decreases rules.len() - from,
{
    if from >= rules.len() {
        None
    } else {
        let rule = rules[from as int];
        let addresses = last.equation_addresses(rule.expression);
        if addresses.len() > 0 && last.apply_equation_at(rule.expression, addresses[0]) is Ok {
            Some((rule.label, last.apply_equation_at(rule.expression, addresses[0])->Ok_0))
        } else {
            first_applicable(last, rules, from + 1)
        }
    }
}

impl<N: NormalizationFunction, S> WorksheetContextView<N, S> {
    /// The normal form of `expr` in this context.
    pub open spec fn normal(self, expr: ExpressionView) -> ExpressionView {
        match self.normalization_function {
            Some(f) => f.normal_form(expr, self.expression_context),
            None => expr,
        }
    }

    /// The rules that are applied automatically, in the order in which they
    /// are tried.
    pub open spec fn auto_rules(self) -> Seq<RuleView> {
        rules_named(self.auto_rule_ids, self.rule_map, self.auto_rule_ids.len())
    }

    /// The history after automatic rules have been applied to it for as long
    /// as one applies, `budget` times at most. Each round adds one line: what
    /// the first applicable rule makes of the last expression.
    pub open spec fn saturate(self, lines: Seq<LineView>, budget: nat) -> Seq<LineView>
        decreases budget,
    {
        if budget == 0 || lines.len() == 0 {
            lines
        } else {
            match first_applicable(lines.last().expr, self.auto_rules(), 0) {
                None => lines,
                Some((label, expr)) => self.saturate(
                    lines.push(auto_line(label, self.normal(expr))),
                    (budget - 1) as nat,
                ),
            }
        }
    }

    /// The history after the explicit step `action` with the result `expr`.
    pub open spec fn pushed(self, lines: Seq<LineView>, action: ActionView, expr: ExpressionView) -> Seq<
        LineView,
    > {
        self.saturate(lines.push(user_line(action, self.normal(expr))), LIMIT_OF_AUTO_GENERATED_STEPS as nat)
    }

    /// The substitutions that the first `n` labelled expressions offer into
    /// `last` at `address`.
    pub open spec fn labelled_steps(self, last: ExpressionView, address: AddressView, n: nat) -> Seq<
        (ActionView, ExpressionView),
    >
        decreases n,
    {
        if n == 0 || n > self.labelled_expression.len() {
            Seq::empty()
        } else {
            let (label, rule) = self.labelled_expression[n - 1];
            let earlier = self.labelled_steps(last, address, (n - 1) as nat);
            match last.apply_rule_expr_at(rule, address) {
                Ok(e) => earlier.push((ActionView::ApplyRule("Substitute from "@ + label), self.normal(e))),
                Err(_) => earlier,
            }
        }
    }

    /// What the labelled expressions offer at the last address of
    /// `selection`.
    pub open spec fn labelled_actions(self, last: ExpressionView, selection: Seq<AddressView>) -> Seq<
        (ActionView, ExpressionView),
    > {
        if selection.len() == 0 {
            Seq::empty()
        } else {
            self.labelled_steps(last, selection.last(), self.labelled_expression.len())
        }
    }

    /// Whether trying the labelled expressions at `selection` reads the
    /// last expression of a history.
    pub open spec fn labels_read_last(self, selection: Seq<AddressView>) -> bool {
        selection.len() > 0 && self.labelled_expression.len() > 0
    }

    /// The suggested steps, each result in normal form.
    pub open spec fn normal_steps(self, steps: Seq<(ActionView, ExpressionView)>) -> Seq<
        (ActionView, ExpressionView),
    > {
        Seq::new(steps.len(), |i: int| (steps[i].0, self.normal(steps[i].1)))
    }

    /// What is on offer on `last` at `selection`: the substitutions from
    /// the labelled expressions, followed by `suggested`, each result in
    /// normal form.
    pub open spec fn composed(
        self,
        last: ExpressionView,
        selection: Seq<AddressView>,
        suggested: Seq<(ActionView, ExpressionView)>,
    ) -> Seq<(ActionView, ExpressionView)> {
        self.labelled_actions(last, selection) + self.normal_steps(suggested)
    }

    /// The expression registered first under `label`.
    pub open spec fn labelled(self, label: Seq<char>, from: nat) -> Option<ExpressionView>
        decreases self.labelled_expression.len() - from,
    {
        if from >= self.labelled_expression.len() {
            None
        } else if self.labelled_expression[from as int].0 == label {
            Some(self.labelled_expression[from as int].1)
        } else {
            self.labelled(label, from + 1)
        }
    }
}

impl<N: NormalizationFunction, S: GetPossibleActionsFunction> WorksheetContextView<N, S> {
    /// What the domain of this context suggests on `last` at `selection`:
    /// nothing where no domain is set.
    pub open spec fn suggested(self, last: ExpressionView, selection: Seq<AddressView>) -> Seq<
        (ActionView, ExpressionView),
    > {
        match self.get_possible_actions_function {
            Some(f) => f.suggestions(last, self.rule_map, self.rule_order, self.expression_context, selection),
            None => Seq::empty(),
        }
    }

    /// The steps on offer on `last` at `selection`: those of the labelled
    /// expressions, followed by those that the domain suggests, each
    /// result in normal form.
    pub open spec fn offered(self, last: ExpressionView, selection: Seq<AddressView>) -> Seq<
        (ActionView, ExpressionView),
    > {
        self.composed(last, selection, self.suggested(last, selection))
    }

    /// Whether finding the steps on offer at `selection` reads the last
    /// expression of a history: a domain is set, or a labelled expression is
    /// tried at an address.
    pub open spec fn offer_reads_last(self, selection: Seq<AddressView>) -> bool {
        self.get_possible_actions_function is Some || self.labels_read_last(selection)
    }
}

/// The registry after the labelled lines among the first `n` of `lines`
/// have been added to it, each unless it is there already.
pub open spec fn harvested(registry: Seq<(Seq<char>, ExpressionView)>, lines: Seq<LineView>, n: nat) -> Seq<
    (Seq<char>, ExpressionView),
>
    decreases n,
{
    if n == 0 || n > lines.len() {
        registry
    } else {
        let earlier = harvested(registry, lines, (n - 1) as nat);
        match lines[n - 1].label {
            None => earlier,
            Some(label) => if earlier.contains((label, lines[n - 1].expr)) {
                earlier
            } else {
                earlier.push((label, lines[n - 1].expr))
            },
        }
    }
}

/// Whatever the rules, and in whatever order they stand, applying them
/// automatically leaves the lines that were there, marks every line it adds
/// as automatic, and adds no more lines than its budget.
pub proof fn law_saturation_bounded<N: NormalizationFunction, S>(
    ctx: WorksheetContextView<N, S>,
    lines: Seq<LineView>,
    budget: nat,
)
    ensures
        lines.len() <= ctx.saturate(lines, budget).len() <= lines.len() + budget,
        ctx.saturate(lines, budget).take(lines.len() as int) == lines,
        forall|i: int|
            lines.len() <= i < ctx.saturate(lines, budget).len() ==> (#[trigger] ctx.saturate(
                lines,
                budget,
            )[i]).is_auto_generated,
    decreases budget,
{
    let result = ctx.saturate(lines, budget);
    if budget == 0 || lines.len() == 0 {
        assert(result.take(lines.len() as int) =~= lines);
    } else {
        match first_applicable(lines.last().expr, ctx.auto_rules(), 0) {
            None => {
                assert(result.take(lines.len() as int) =~= lines);
            },
            Some((label, expr)) => {
                let next = lines.push(auto_line(label, ctx.normal(expr)));
                law_saturation_bounded(ctx, next, (budget - 1) as nat);
                assert(result.take(next.len() as int) == next);
                assert(result.take(lines.len() as int) =~= next.take(lines.len() as int));
                assert(next.take(lines.len() as int) =~= lines);
                assert forall|i: int| lines.len() <= i < result.len() implies (#[trigger] result[i]).is_auto_generated by {
                    if i == lines.len() {
                        assert(result.take(next.len() as int)[i] == next[i]);
                    }
                }
            },
        }
    }
}

impl<N: NormalizationFunction, S: GetPossibleActionsFunction> Clone for WorksheetContext<N, S> {
    fn clone(&self) -> (res: Self)
        ensures
            res@ == self@,
    {
        let mut labelled: Vec<(String, Expression)> = Vec::new();
        let mut i: usize = 0;
        while i < self.labelled_expression.len()
            invariant
                i <= self.labelled_expression.len(),
                labelled.len() == i,
                forall|j: int|
                    0 <= j < i ==> labelled@[j].0@ == self.labelled_expression@[j].0@ && labelled@[j].1@
                        == self.labelled_expression@[j].1@,
            decreases self.labelled_expression.len() - i,
        {
            let pair = &self.labelled_expression[i];
            labelled.push((pair.0.clone(), pair.1.clone()));
            i += 1;
        }
        assert(labelled_views(labelled@) =~= labelled_views(self.labelled_expression@));
        WorksheetContext {
            expression_context: self.expression_context.clone(),
            normalization_function: self.normalization_function,
            rule_map: self.rule_map.clone(),
            rule_ids: clone_strings(&self.rule_ids),
            get_possible_actions_function: self.get_possible_actions_function,
            labelled_expression: labelled,
            auto_rule_ids: clone_strings(&self.auto_rule_ids),
        }
    }
}

impl<N: NormalizationFunction, S: GetPossibleActionsFunction> WorksheetContext<N, S> {
    /// A context without rules, labels or functions.
    pub fn new() -> (ctx: Self)
        ensures
            ctx@.normalization_function is None,
            ctx@.get_possible_actions_function is None,
            ctx@.rule_map == Map::<Seq<char>, RuleView>::empty(),
            ctx@.rule_order == Seq::<Seq<char>>::empty(),
            ctx@.rule_ids == Seq::<Seq<char>>::empty(),
            ctx@.auto_rule_ids == Seq::<Seq<char>>::empty(),
            ctx@.labelled_expression == Seq::<(Seq<char>, ExpressionView)>::empty(),
            ctx@.expression_context == ContextView::empty(),
    {
        let ctx = WorksheetContext {
            expression_context: Context::default(),
            normalization_function: None,
            rule_map: TextMap::new(),
            rule_ids: Vec::new(),
            get_possible_actions_function: None,
            labelled_expression: Vec::new(),
            auto_rule_ids: Vec::new(),
        };
        assert(ctx@.rule_ids =~= Seq::<Seq<char>>::empty());
        assert(ctx@.auto_rule_ids =~= Seq::<Seq<char>>::empty());
        assert(ctx@.labelled_expression =~= Seq::<(Seq<char>, ExpressionView)>::empty());
        ctx
    }

    /// The normal form of `expr` in this context.
    pub fn normalize(&self, expr: &Expression) -> (r: Expression)
        ensures
            r@ == self@.normal(expr@),
    {
        match self.normalization_function {
            Some(f) => f.normalize(expr, &self.expression_context),
            None => expr.clone(),
        }
    }

    /// The rules that are applied automatically, in the order in which they
    /// are tried.
    pub fn auto_rules(&self) -> (rules: Vec<Rule>)
        ensures
            rule_views(rules@) == self@.auto_rules(),
    {
        let mut rules: Vec<Rule> = Vec::new();
        let mut i: usize = 0;
        let ghost ids = strings_view(self.auto_rule_ids@);
        assert(rule_views(rules@) =~= rules_named(ids, self.rule_map@, 0));
        while i < self.auto_rule_ids.len()
            invariant
                i <= self.auto_rule_ids.len(),
                ids == strings_view(self.auto_rule_ids@),
                rule_views(rules@) == rules_named(ids, self.rule_map@, i as nat),
            decreases self.auto_rule_ids.len() - i,
        {
            let ghost before = rules@;
            match self.rule_map.get(self.auto_rule_ids[i].as_str()) {
                Some(rule) => {
                    rules.push(rule.clone());
                    assert(rule_views(rules@) =~= rule_views(before).push(rule@));
                },
                None => {},
            }
            i += 1;
        }
        rules
    }
}

/// A sequence of lines as a worksheet keeps it.
#[derive(Debug, PartialEq)]
pub struct ExpressionSequence {
    pub history: Vec<ExpressionLine>,
}

impl Clone for ExpressionSequence {
    fn clone(&self) -> (res: Self)
        ensures
            line_views(res.history@) == line_views(self.history@),
    {
        ExpressionSequence { history: clone_lines(&self.history) }
    }
}

impl Default for ExpressionSequence {
    fn default() -> (r: ExpressionSequence)
        ensures
            r.history@.len() == 0,
    {
        ExpressionSequence { history: Vec::new() }
    }
}

impl ExpressionSequence {
    /// The lines of the sequence.
    pub open spec fn lines(&self) -> Seq<LineView> {
        line_views(self.history@)
    }

    /// The sequence ready to be worked on in the context `ctx`.
    pub fn with_context<N: NormalizationFunction, S: GetPossibleActionsFunction>(
        &self,
        ctx: WorksheetContext<N, S>,
    ) -> (seq: WorkableExpressionSequence<N, S>)
        ensures
            seq.lines() == self.lines(),
            seq.context() == ctx,
    {
        WorkableExpressionSequence { history: clone_lines(&self.history), context: ctx }
    }

    /// The expression of the last line.
    pub fn last_expression(&self) -> (e: &Expression)
        requires
            self.history@.len() > 0,
        ensures
            e@ == self.lines().last().expr,
    {
        &self.history[self.history.len() - 1].expr
    }
}

/// A sequence of lines together with the context in which it is extended.
pub struct WorkableExpressionSequence<N, S> {
    pub history: Vec<ExpressionLine>,
    pub context: WorksheetContext<N, S>,
}

impl<N: NormalizationFunction, S: GetPossibleActionsFunction> WorkableExpressionSequence<N, S> {
    /// The lines of the sequence.
    pub open spec fn lines(&self) -> Seq<LineView> {
        line_views(self.history@)
    }

    /// The context of the sequence.
    pub open spec fn context(&self) -> WorksheetContext<N, S> {
        self.context
    }

    /// An empty sequence.
    pub fn new(ctx: WorksheetContext<N, S>) -> (seq: Self)
        ensures
            seq.lines() == Seq::<LineView>::empty(),
            seq.context() == ctx,
    {
        let seq = WorkableExpressionSequence { context: ctx, history: Vec::new() };
        assert(seq.lines() =~= Seq::<LineView>::empty());
        seq
    }

    pub fn set_context(&mut self, ctx: WorksheetContext<N, S>)
        ensures
            final(self).context() == ctx,
            final(self).lines() == old(self).lines(),
    {
        self.context = ctx;
    }

    /// The sequence without its context.
    pub fn into_sequence(self) -> (seq: ExpressionSequence)
        ensures
            seq.lines() == self.lines(),
    {
        ExpressionSequence { history: self.history }
    }

    /// The expression of line `index`.
    pub fn expression(&self, index: usize) -> (r: Option<&Expression>)
        ensures
            match r {
                Some(e) => index < self.lines().len() && e@ == self.lines()[index as int].expr,
                None => index >= self.lines().len(),
            },
    {
        if index < self.history.len() {
            Some(&self.history[index].expr)
        } else {
            None
        }
    }

    /// The expression of the last line.
    pub fn last_expression(&self) -> (e: &Expression)
        requires
            self.lines().len() > 0,
        ensures
            e@ == self.lines().last().expr,
    {
        &self.history[self.history.len() - 1].expr
    }

    /// Applies the rule with the id `rule_id` to the last expression at
    /// `addr` and, if that works, adds the result as a new line.
    pub fn apply_rule_at(&mut self, rule_id: &str, addr: &Address) -> (ok: bool)
        requires
            old(self).context()@.rule_map.dom().contains(rule_id@) ==> old(self).lines().len() > 0,
        ensures
            final(self).context() == old(self).context(),
            ({
                let ctx = old(self).context()@;
                let last = old(self).lines().last().expr;
                if ctx.rule_map.dom().contains(rule_id@) {
                    let rule = ctx.rule_map[rule_id@];
                    match last.apply_rule_expr_at(rule.expression, addr@) {
                        Ok(e) => ok && final(self).lines() == ctx.pushed(
                            old(self).lines(),
                            ActionView::ApplyRule(rule.label),
                            e,
                        ),
                        Err(_) => !ok && final(self).lines() == old(self).lines(),
                    }
                } else {
                    !ok && final(self).lines() == old(self).lines()
                }
            }),
    {
        let rule = match self.context.rule_map.get(rule_id) {
            Some(rule) => rule.clone(),
            None => {
                return false;
            },
        };
        let result_expr = self.last_expression().apply_rule_at(&rule, addr);
        self.try_push(Action::ApplyRule(rule.label.clone()), result_expr)
    }

    /// Adds `expr`, in normal form, as the result of the step `action`, and
    /// then applies the automatic rules for as long as one applies.
    pub fn push(&mut self, action: Action, expr: Expression)
        ensures
            final(self).context() == old(self).context(),
            final(self).lines() == old(self).context()@.pushed(old(self).lines(), action@, expr@),
    {
        let expr = self.context.normalize(&expr);
        let ghost before = self.history@;
        let line = ExpressionLine { action, expr, label: None, is_auto_generated: false };
        let ghost added = line@;
        self.history.push(line);
        assert(self.lines() =~= line_views(before).push(added));
        self.try_apply_auto_rules();
    }

    fn push_auto(&mut self, action: Action, expr: Expression)
        ensures
            final(self).context() == old(self).context(),
            final(self).lines() == old(self).lines().push(
                LineView {
                    action: action@,
                    expr: old(self).context()@.normal(expr@),
                    label: None,
                    is_auto_generated: true,
                },
            ),
    {
        let expr = self.context.normalize(&expr);
        let ghost before = self.history@;
        let line = ExpressionLine { action, expr, label: None, is_auto_generated: true };
        let ghost added = line@;
        self.history.push(line);
        assert(self.lines() =~= line_views(before).push(added));
    }

    /// Adds the result of a step that worked; leaves the sequence as it is
    /// after one that failed.
    pub fn try_push<T>(&mut self, action: Action, expr: Result<Expression, T>) -> (ok: bool)
        ensures
            final(self).context() == old(self).context(),
            match expr {
                Ok(e) => ok && final(self).lines() == old(self).context()@.pushed(old(self).lines(), action@, e@),
                Err(_) => !ok && final(self).lines() == old(self).lines(),
            },
    {
        match expr {
            Ok(expr) => {
                self.push(action, expr);
                true
            },
            Err(_) => false,
        }
    }

    /// What the labelled expressions of the context offer as substitutions
    /// into the last expression, at the last address of `addr_vec`.
    pub fn get_possible_actions_from_labelled_equations(&self, addr_vec: &Vec<Address>) -> (r: Vec<
        (Action, Expression),
    >)
        requires
            self.context()@.labels_read_last(crate::expression::rewrite::address_views(addr_vec@))
                ==> self.lines().len() > 0,
        ensures
            step_views(r@) == self.context()@.labelled_actions(
                self.lines().last().expr,
                crate::expression::rewrite::address_views(addr_vec@),
            ),
    {
        let mut possible_actions: Vec<(Action, Expression)> = Vec::new();
        if addr_vec.len() == 0 {
            assert(step_views(possible_actions@) =~= Seq::<(ActionView, ExpressionView)>::empty());
            return possible_actions;
        }
        let addr = &addr_vec[addr_vec.len() - 1];
        let ghost ctx = self.context@;
        let ghost last = self.lines().last().expr;
        let mut i: usize = 0;
        assert(step_views(possible_actions@) =~= ctx.labelled_steps(last, addr@, 0));
        while i < self.context.labelled_expression.len()
            invariant
                i <= self.context.labelled_expression.len(),
                self.context.labelled_expression.len() > 0 ==> self.history@.len() > 0,
                ctx == self.context@,
                last == self.lines().last().expr,
                step_views(possible_actions@) == ctx.labelled_steps(last, addr@, i as nat),
            decreases self.context.labelled_expression.len() - i,
        {
            let pair = &self.context.labelled_expression[i];
            let ghost before = possible_actions@;
            assert(ctx.labelled_expression[i as int] == (pair.0@, pair.1@));
            match self.last_expression().apply_rule_expr_at(&pair.1, addr) {
                Ok(new_expr) => {
                    let mut rulestr = String::from_str("Substitute from ");
                    rulestr.append(pair.0.as_str());
                    let action = Action::ApplyRule(rulestr);
                    let normalized_expr = self.context.normalize(&new_expr);
                    let ghost step = (action@, normalized_expr@);
                    possible_actions.push((action, normalized_expr));
                    assert(step_views(possible_actions@) =~= step_views(before).push(step));
                },
                Err(_) => {},
            }
            i += 1;
        }
        possible_actions
    }

    /// The steps on offer: those of the labelled expressions, followed by
    /// `suggested`, each result in normal form.
    pub fn compose_possible_actions(&self, addr_vec: &Vec<Address>, suggested: Vec<(Action, Expression)>) -> (r:
        Vec<(Action, Expression)>)
        requires
            self.context()@.labels_read_last(crate::expression::rewrite::address_views(addr_vec@))
                ==> self.lines().len() > 0,
        ensures
            step_views(r@) == self.context()@.composed(
                self.lines().last().expr,
                crate::expression::rewrite::address_views(addr_vec@),
                step_views(suggested@),
            ),
    {
        let mut possible_actions = self.get_possible_actions_from_labelled_equations(addr_vec);
        let ghost head = step_views(possible_actions@);
        let ghost ctx = self.context@;
        let ghost tail = ctx.normal_steps(step_views(suggested@));
        let mut i: usize = 0;
        assert(step_views(possible_actions@) =~= head + tail.take(0));
        while i < suggested.len()
            invariant
                i <= suggested.len(),
                ctx == self.context@,
                tail == ctx.normal_steps(step_views(suggested@)),
                step_views(possible_actions@) == head + tail.take(i as int),
            decreases suggested.len() - i,
        {
            let ghost before = possible_actions@;
            let action = suggested[i].0.clone();
            let expr = self.context.normalize(&suggested[i].1);
            let ghost step = (action@, expr@);
            possible_actions.push((action, expr));
            assert(step_views(possible_actions@) =~= step_views(before).push(step));
            assert(tail.take(i + 1) =~= tail.take(i as int).push(step));
            assert(step_views(possible_actions@) =~= head + tail.take(i + 1));
            i += 1;
        }
        assert(tail.take(i as int) =~= tail);
        possible_actions
    }

    /// The steps on offer for the selection `addr_vec`, the latest address
    /// last: those of the labelled expressions, followed by those that the
    /// domain suggests, each result in normal form.
    pub fn get_possible_actions(&self, addr_vec: &Vec<Address>) -> (r: Vec<(Action, Expression)>)
        requires
            self.context()@.offer_reads_last(crate::expression::rewrite::address_views(addr_vec@))
                ==> self.lines().len() > 0,
        ensures
            step_views(r@) == self.context()@.offered(
                self.lines().last().expr,
                crate::expression::rewrite::address_views(addr_vec@),
            ),
    {
        let suggested = self.get_suggested_actions(addr_vec);
        self.compose_possible_actions(addr_vec, suggested)
    }

    /// What the domain of the context suggests for the last expression at
    /// `addr_vec`: nothing where no domain is set.
    fn get_suggested_actions(&self, addr_vec: &Vec<Address>) -> (r: Vec<(Action, Expression)>)
        requires
            self.context()@.get_possible_actions_function is Some ==> self.lines().len() > 0,
        ensures
            step_views(r@) == self.context()@.suggested(
                self.lines().last().expr,
                crate::expression::rewrite::address_views(addr_vec@),
            ),
    {
        match self.context.get_possible_actions_function {
            Some(f) => f.get_possible_actions(
                self.last_expression(),
                &self.context.rule_map,
                &self.context.expression_context,
                addr_vec,
            ),
            None => {
                let none: Vec<(Action, Expression)> = Vec::new();
                assert(step_views(none@) =~= Seq::<(ActionView, ExpressionView)>::empty());
                none
            },
        }
    }

    /// Takes the step at position `index` of what is on offer when the
    /// domain's steps are `suggested`, if there is one.
    pub fn try_apply_composed_action_by_index(
        &mut self,
        addr_vec: &Vec<Address>,
        suggested: Vec<(Action, Expression)>,
        index: usize,
    ) -> (ok: bool)
        requires
            old(self).context()@.labels_read_last(crate::expression::rewrite::address_views(addr_vec@))
                ==> old(self).lines().len() > 0,
        ensures
            final(self).context() == old(self).context(),
            ({
                let offered = old(self).context()@.composed(
                    old(self).lines().last().expr,
                    crate::expression::rewrite::address_views(addr_vec@),
                    step_views(suggested@),
                );
                &&& ok == (index < offered.len())
                &&& ok ==> final(self).lines() == old(self).context()@.pushed(
                    old(self).lines(),
                    offered[index as int].0,
                    offered[index as int].1,
                )
                &&& !ok ==> final(self).lines() == old(self).lines()
            }),
    {
        let actions = self.compose_possible_actions(addr_vec, suggested);
        if index < actions.len() {
            let action = actions[index].0.clone();
            let expr = actions[index].1.clone();
            self.push(action, expr);
            true
        } else {
            false
        }
    }

    /// Takes the step at position `index` of `get_possible_actions`, if
    /// there is one.
    pub fn try_apply_action_by_index(&mut self, addr_vec: &Vec<Address>, index: usize) -> (ok: bool)
        requires
            old(self).context()@.offer_reads_last(crate::expression::rewrite::address_views(addr_vec@))
                ==> old(self).lines().len() > 0,
        ensures
            final(self).context() == old(self).context(),
            ({
                let offered = old(self).context()@.offered(
                    old(self).lines().last().expr,
                    crate::expression::rewrite::address_views(addr_vec@),
                );
                &&& ok == (index < offered.len())
                &&& ok ==> final(self).lines() == old(self).context()@.pushed(
                    old(self).lines(),
                    offered[index as int].0,
                    offered[index as int].1,
                )
                &&& !ok ==> final(self).lines() == old(self).lines()
            }),
    {
        let suggested = self.get_suggested_actions(addr_vec);
        self.try_apply_composed_action_by_index(addr_vec, suggested, index)
    }

    /// Puts `label` on line `index`, or takes the label off that line if
    /// `label` is empty. Nothing happens if there is no such line.
    pub fn label_expression(&mut self, label: String, index: usize)
        ensures
            final(self).context() == old(self).context(),
            final(self).lines() == if index < old(self).lines().len() {
                old(self).lines().update(
                    index as int,
                    LineView {
                        label: if label@.len() == 0 {
                            None
                        } else {
                            Some(label@)
                        },
                        ..old(self).lines()[index as int]
                    },
                )
            } else {
                old(self).lines()
            },
    {
        if index < self.history.len() {
            let ghost before = self.history@;
            let mut line = self.history.remove(index);
            if label.as_str().unicode_len() == 0 {
                line.label = None;
            } else {
                line.label = Some(label);
            }
            let ghost changed = line@;
            self.history.insert(index, line);
            assert(self.lines() =~= line_views(before).update(index as int, changed));
        }
    }

    /// Forgets every line after line `index`. Nothing happens if there is no
    /// such line.
    pub fn reset_to(&mut self, index: usize)
        ensures
            final(self).context() == old(self).context(),
            final(self).lines() == if index < old(self).lines().len() {
                old(self).lines().take(index + 1)
            } else {
                old(self).lines()
            },
    {
        if index < self.history.len() {
            let ghost before = self.history@;
            self.history.truncate(index + 1);
            assert(self.lines() =~= line_views(before).take(index + 1));
        }
    }

    /// Applies the automatic rules to the last expression for as long as one
    /// applies, adding a line each time, and no more often than
    /// `LIMIT_OF_AUTO_GENERATED_STEPS` times.
    #[verifier::loop_isolation(false)]
    pub fn try_apply_auto_rules(&mut self)
        ensures
            final(self).context() == old(self).context(),
            final(self).lines() == old(self).context()@.saturate(
                old(self).lines(),
                LIMIT_OF_AUTO_GENERATED_STEPS as nat,
            ),
            old(self).lines().len() <= final(self).lines().len() <= old(self).lines().len()
                + LIMIT_OF_AUTO_GENERATED_STEPS,
    {
        let ghost ctx = self.context@;
        let ghost start = self.lines();
        proof {
            law_saturation_bounded(ctx, start, LIMIT_OF_AUTO_GENERATED_STEPS as nat);
        }
        if self.context.auto_rule_ids.len() == 0 || self.history.len() == 0 {
            proof {
                if self.history@.len() > 0 {
                    assert(ctx.auto_rules() =~= Seq::<RuleView>::empty());
                }
                reveal_with_fuel(WorksheetContextView::saturate, 2);
            }
            return ;
        }
        let auto_rules = self.context.auto_rules();
        let mut round: usize = 0;
        while round < LIMIT_OF_AUTO_GENERATED_STEPS
            invariant
                round <= LIMIT_OF_AUTO_GENERATED_STEPS,
                self.history@.len() > 0,
                self.context() == old(self).context(),
                ctx == self.context@,
                rule_views(auto_rules@) == ctx.auto_rules(),
                ctx.saturate(start, LIMIT_OF_AUTO_GENERATED_STEPS as nat) == ctx.saturate(
                    self.lines(),
                    (LIMIT_OF_AUTO_GENERATED_STEPS - round) as nat,
                ),
            decreases LIMIT_OF_AUTO_GENERATED_STEPS - round,
        {
            let ghost before = self.lines();
            let changed = self.f_try_apply_auto_rules(&auto_rules);
            if !changed {
                assert(ctx.saturate(before, (LIMIT_OF_AUTO_GENERATED_STEPS - round) as nat) == before);
                return ;
            }
            round += 1;
        }
    }

    /// Applies the first of `rules` that can be applied; tells whether one
    /// was.
    fn f_try_apply_auto_rules(&mut self, rules: &Vec<Rule>) -> (changed: bool)
        requires
            old(self).lines().len() > 0,
        ensures
            final(self).context() == old(self).context(),
            final(self).lines().len() > 0,
            match first_applicable(old(self).lines().last().expr, rule_views(rules@), 0) {
                None => !changed && final(self).lines() == old(self).lines(),
                Some((label, expr)) => changed && final(self).lines() == old(self).lines().push(
                    auto_line(label, old(self).context()@.normal(expr)),
                ),
            },
    {
        let ghost last = self.lines().last().expr;
        let ghost models = rule_views(rules@);
        let mut i: usize = 0;
        while i < rules.len()
            invariant
                i <= rules.len(),
                self.history@.len() > 0,
                self.history == old(self).history,
                self.context() == old(self).context(),
                last == self.lines().last().expr,
                models == rule_views(rules@),
                first_applicable(last, models, 0) == first_applicable(last, models, i as nat),
            decreases rules.len() - i,
        {
            let rule = &rules[i];
            assert(models[i as int] == rule@);
            let expr = self.last_expression();
            let possible_eq_addr = expr.get_possible_equation_application_addresses(&rule.expression);
            if possible_eq_addr.len() > 0 {
                assert(crate::expression::rewrite::address_views(possible_eq_addr@)[0] == possible_eq_addr@[0]@);
                match expr.apply_equation_at(&rule.expression, &possible_eq_addr[0]) {
                    Ok(new_expr) => {
                        let action = Action::ApplyRule(rule.label.clone());
                        self.push_auto(action, new_expr);
                        return true;
                    },
                    Err(_) => {},
                }
            }
            i += 1;
        }
        false
    }
}

impl<N, S> From<WorkableExpressionSequence<N, S>> for ExpressionSequence {
    fn from(seq: WorkableExpressionSequence<N, S>) -> (r: ExpressionSequence) {
        ExpressionSequence { history: seq.history }
    }
}

impl<N, S> vstd::std_specs::convert::FromSpecImpl<WorkableExpressionSequence<N, S>> for ExpressionSequence {
    open spec fn obeys_from_spec() -> bool {
        true
    }

    open spec fn from_spec(seq: WorkableExpressionSequence<N, S>) -> ExpressionSequence {
        ExpressionSequence { history: seq.history }
    }
}

/// Independent sequences of lines that share one context and one registry
/// of labelled expressions.
pub struct Worksheet<N, S> {
    expression_sequences: Vec<ExpressionSequence>,
    context: WorksheetContext<N, S>,
}

/// The histories of a list of sequences.
pub open spec fn sequence_views(list: Seq<ExpressionSequence>) -> Seq<Seq<LineView>> {
    Seq::new(list.len(), |i: int| list[i].lines())
}

impl<N: NormalizationFunction, S: GetPossibleActionsFunction> Worksheet<N, S> {
    /// The shared context.
    pub closed spec fn context(&self) -> WorksheetContextView<N, S> {
        self.context@
    }

    /// The histories of the sequences.
    pub closed spec fn sequences(&self) -> Seq<Seq<LineView>> {
        sequence_views(self.expression_sequences@)
    }

    /// A worksheet without sequences, rules or labels.
    pub fn new() -> (ws: Self)
        ensures
            ws.sequences() == Seq::<Seq<LineView>>::empty(),
            ws.context().normalization_function is None,
            ws.context().get_possible_actions_function is None,
            ws.context().rule_map == Map::<Seq<char>, RuleView>::empty(),
            ws.context().rule_order == Seq::<Seq<char>>::empty(),
            ws.context().rule_ids == Seq::<Seq<char>>::empty(),
            ws.context().auto_rule_ids == Seq::<Seq<char>>::empty(),
            ws.context().labelled_expression == Seq::<(Seq<char>, ExpressionView)>::empty(),
            ws.context().expression_context == ContextView::empty(),
    {
        let ws = Worksheet { context: WorksheetContext::new(), expression_sequences: Vec::new() };
        assert(ws.sequences() =~= Seq::<Seq<LineView>>::empty());
        ws
    }

    pub fn set_expression_context(&mut self, expression_ctx: Context)
        ensures
            final(self).context() == (WorksheetContextView {
                expression_context: expression_ctx@,
                ..old(self).context()
            }),
            final(self).sequences() == old(self).sequences(),
    {
        self.context.expression_context = expression_ctx;
    }

    pub fn get_expression_context(&self) -> (ctx: Context)
        ensures
            ctx@ == self.context().expression_context,
    {
        self.context.expression_context.clone()
    }

    pub fn set_normalization_function(&mut self, f: N)
        ensures
            final(self).context() == (WorksheetContextView {
                normalization_function: Some(f),
                ..old(self).context()
            }),
            final(self).sequences() == old(self).sequences(),
    {
        self.context.normalization_function = Some(f);
    }

    pub fn set_get_possible_actions_function(&mut self, f: S)
        ensures
            final(self).context() == (WorksheetContextView {
                get_possible_actions_function: Some(f),
                ..old(self).context()
            }),
            final(self).sequences() == old(self).sequences(),
    {
        self.context.get_possible_actions_function = Some(f);
    }

    /// Takes the context, the rules by id, the ids and the automatic ids
    /// from `ruleset`.
    pub fn set_ruleset(&mut self, ruleset: RuleSet)
        ensures
            final(self).context().expression_context == ruleset.context@,
            final(self).context().rule_map == crate::rule::rule_map_upto(
                rule_views(ruleset.rule_vec@),
                ruleset.rule_vec@.len(),
            ),
            final(self).context().rule_order == crate::rule::rule_order_upto(
                rule_views(ruleset.rule_vec@),
                ruleset.rule_vec@.len(),
            ),
            final(self).context().rule_ids == strings_view(ruleset.rule_ids@),
            final(self).context().auto_rule_ids == strings_view(ruleset.auto_rule_ids@),
            final(self).context().normalization_function == old(self).context().normalization_function,
            final(self).context().get_possible_actions_function == old(
                self,
            ).context().get_possible_actions_function,
            final(self).context().labelled_expression == old(self).context().labelled_expression,
            final(self).sequences() == old(self).sequences(),
    {
        let rule_map = ruleset.get_rule_map();
        self.set_expression_context(ruleset.context);
        self.set_rule_ids(ruleset.rule_ids);
        self.set_auto_rule_ids(ruleset.auto_rule_ids);
        self.set_rule_map(rule_map);
    }

    pub fn reset_rule_map(&mut self)
        ensures
            final(self).context() == (WorksheetContextView {
                rule_map: Map::<Seq<char>, RuleView>::empty(),
                rule_order: Seq::<Seq<char>>::empty(),
                ..old(self).context()
            }),
            final(self).sequences() == old(self).sequences(),
    {
        self.context.rule_map = TextMap::new();
    }

    pub fn set_rule_map(&mut self, rule_map: RuleMap)
        ensures
            final(self).context() == (WorksheetContextView {
                rule_map: rule_map@,
                rule_order: rule_map.spec_keys(),
                ..old(self).context()
            }),
            final(self).sequences() == old(self).sequences(),
    {
        self.context.rule_map = rule_map;
    }

    pub fn set_rule_ids(&mut self, rule_ids: Vec<String>)
        ensures
            final(self).context() == (WorksheetContextView {
                rule_ids: strings_view(rule_ids@),
                ..old(self).context()
            }),
            final(self).sequences() == old(self).sequences(),
    {
        self.context.rule_ids = rule_ids;
    }

    pub fn set_auto_rule_ids(&mut self, rule_ids: Vec<String>)
        ensures
            final(self).context() == (WorksheetContextView {
                auto_rule_ids: strings_view(rule_ids@),
                ..old(self).context()
            }),
            final(self).sequences() == old(self).sequences(),
    {
        self.context.auto_rule_ids = rule_ids;
    }

    /// Adds the rules of `rule_map`, each in place of the rule that had its
    /// id.
    pub fn extend_rule_map(&mut self, rule_map: RuleMap)
        ensures
            final(self).context().rule_map == old(self).context().rule_map.union_prefer_right(rule_map@),
            final(self).context().rule_order == crate::text_map::merged_keys(
                old(self).context().rule_order,
                rule_map.spec_keys(),
                rule_map.spec_keys().len(),
            ),
            final(self).context().expression_context == old(self).context().expression_context,
            final(self).context().rule_ids == old(self).context().rule_ids,
            final(self).context().auto_rule_ids == old(self).context().auto_rule_ids,
            final(self).context().normalization_function == old(self).context().normalization_function,
            final(self).context().get_possible_actions_function == old(
                self,
            ).context().get_possible_actions_function,
            final(self).context().labelled_expression == old(self).context().labelled_expression,
            final(self).sequences() == old(self).sequences(),
    {
        let mut merged = self.context.rule_map.clone();
        merged.absorb(&rule_map);
        self.context.rule_map = merged;
    }

    /// Adds `rule_ids` at the end of the ids.
    pub fn extend_rule_ids(&mut self, rule_ids: Vec<String>)
        ensures
            final(self).context() == (WorksheetContextView {
                rule_ids: old(self).context().rule_ids + strings_view(rule_ids@),
                ..old(self).context()
            }),
            final(self).sequences() == old(self).sequences(),
    {
        let ghost before = self.context.rule_ids@;
        let mut rule_ids = rule_ids;
        let ghost added = rule_ids@;
        self.context.rule_ids.append(&mut rule_ids);
        assert(strings_view(self.context.rule_ids@) =~= strings_view(before) + strings_view(added));
    }

    /// Starts a new sequence with `expr`.
    pub fn introduce_expression(&mut self, expr: Expression)
        ensures
            final(self).context() == old(self).context(),
            final(self).sequences() == old(self).sequences().push(
                old(self).context().pushed(
                    Seq::empty(),
                    ActionView::Introduce("Introduce"@),
                    expr@,
                ),
            ),
    {
        let mut sequence = WorkableExpressionSequence::new(self.context.clone());
        sequence.push(Action::Introduce(String::from_str("Introduce")), expr);
        let ghost before = self.expression_sequences@;
        let ghost added = sequence.lines();
        self.expression_sequences.push(sequence.into_sequence());
        assert(self.sequences() =~= sequence_views(before).push(added));
    }

    /// Starts a new sequence with the expression that was registered first
    /// under `label`; tells whether there is one.
    pub fn introduce_from_label(&mut self, label: &str) -> (ok: bool)
        ensures
            final(self).context() == old(self).context(),
            match old(self).context().labelled(label@, 0) {
                None => !ok && final(self).sequences() == old(self).sequences(),
                Some(e) => ok && final(self).sequences() == old(self).sequences().push(
                    old(self).context().pushed(
                        Seq::empty(),
                        ActionView::Introduce("Introduce from "@ + label@),
                        e,
                    ),
                ),
            },
    {
        let ghost ctx = self.context@;
        let mut i: usize = 0;
        while i < self.context.labelled_expression.len()
            invariant
                i <= self.context.labelled_expression.len(),
                ctx == self.context@,
                self.context == old(self).context,
                self.expression_sequences == old(self).expression_sequences,
                ctx.labelled(label@, 0) == ctx.labelled(label@, i as nat),
            decreases self.context.labelled_expression.len() - i,
        {
            assert(ctx.labelled_expression[i as int] == (
                self.context.labelled_expression@[i as int].0@,
                self.context.labelled_expression@[i as int].1@,
            ));
            if str_eq(self.context.labelled_expression[i].0.as_str(), label) {
                let expr = self.context.labelled_expression[i].1.clone();
                let mut sequence = WorkableExpressionSequence::new(self.context.clone());
                let mut action_str = String::from_str("Introduce from ");
                action_str.append(label);
                sequence.push(Action::Introduce(action_str), expr);
                let ghost before = self.expression_sequences@;
                let ghost added = sequence.lines();
                self.expression_sequences.push(sequence.into_sequence());
                assert(self.sequences() =~= sequence_views(before).push(added));
                return true;
            }
            i += 1;
        }
        false
    }

    /// Registers every labelled line of `seq` that is not registered yet.
    fn check_and_update_labelled_expr(&mut self, seq: &WorkableExpressionSequence<N, S>)
        ensures
            final(self).context() == (WorksheetContextView {
                labelled_expression: harvested(
                    old(self).context().labelled_expression,
                    seq.lines(),
                    seq.lines().len(),
                ),
                ..old(self).context()
            }),
            final(self).sequences() == old(self).sequences(),
    {
        let ghost start = self.context@;
        let ghost lines = seq.lines();
        let mut i: usize = 0;
        while i < seq.history.len()
            invariant
                i <= seq.history.len(),
                lines == seq.lines(),
                self.expression_sequences == old(self).expression_sequences,
                self.context@ == (WorksheetContextView {
                    labelled_expression: harvested(start.labelled_expression, lines, i as nat),
                    ..start
                }),
            decreases seq.history.len() - i,
        {
            let line = &seq.history[i];
            assert(lines[i as int] == line@);
            if let Some(label) = &line.label {
                let known = self.is_labelled(label.as_str(), &line.expr);
                if !known {
                    let ghost before = self.context.labelled_expression@;
                    self.context.labelled_expression.push((label.clone(), line.expr.clone()));
                    assert(labelled_views(self.context.labelled_expression@) =~= labelled_views(before).push(
                        (label@, line.expr@),
                    ));
                }
            }
            i += 1;
        }
    }

    /// Whether `expr` is registered under `label`.
    fn is_labelled(&self, label: &str, expr: &Expression) -> (r: bool)
        ensures
            r == self.context().labelled_expression.contains((label@, expr@)),
    {
        let ghost registry = self.context@.labelled_expression;
        let mut i: usize = 0;
        while i < self.context.labelled_expression.len()
            invariant
                i <= self.context.labelled_expression.len(),
                registry == self.context@.labelled_expression,
                forall|j: int| 0 <= j < i ==> registry[j] != (label@, expr@),
            decreases self.context.labelled_expression.len() - i,
        {
            let pair = &self.context.labelled_expression[i];
            assert(registry[i as int] == (pair.0@, pair.1@));
            if str_eq(pair.0.as_str(), label) && pair.1.equals(expr) {
                return true;
            }
            i += 1;
        }
        false
    }

    /// Sequence `index`, ready to be worked on in a copy of the context.
    pub fn get_workable_expression_sequence(&self, index: usize) -> (r: Option<WorkableExpressionSequence<N, S>>)
        ensures
            match r {
                Some(seq) => index < self.sequences().len() && seq.lines() == self.sequences()[index as int]
                    && seq.context()@ == self.context(),
                None => index >= self.sequences().len(),
            },
    {
        if index < self.expression_sequences.len() {
            Some(self.expression_sequences[index].with_context(self.context.clone()))
        } else {
            None
        }
    }

    /// Registers the labelled lines of `seq`, then keeps `seq` as sequence
    /// `index`, or as a new last sequence if there is no sequence `index`.
    pub fn store_expression_sequence(&mut self, index: usize, seq: WorkableExpressionSequence<N, S>)
        ensures
            final(self).context() == (WorksheetContextView {
                labelled_expression: harvested(
                    old(self).context().labelled_expression,
                    seq.lines(),
                    seq.lines().len(),
                ),
                ..old(self).context()
            }),
            final(self).sequences() == if index < old(self).sequences().len() {
                old(self).sequences().update(index as int, seq.lines())
            } else {
                old(self).sequences().push(seq.lines())
            },
    {
        self.check_and_update_labelled_expr(&seq);
        let ghost before = self.expression_sequences@;
        let ghost lines = seq.lines();
        if index < self.expression_sequences.len() {
            self.expression_sequences.set(index, seq.into_sequence());
            assert(self.sequences() =~= sequence_views(before).update(index as int, lines));
        } else {
            self.expression_sequences.push(seq.into_sequence());
            assert(self.sequences() =~= sequence_views(before).push(lines));
        }
    }

    pub fn get(&self, index: usize) -> (r: Option<WorkableExpressionSequence<N, S>>)
        ensures
            match r {
                Some(seq) => index < self.sequences().len() && seq.lines() == self.sequences()[index as int]
                    && seq.context()@ == self.context(),
                None => index >= self.sequences().len(),
            },
    {
        self.get_workable_expression_sequence(index)
    }

    pub fn store(&mut self, index: usize, seq: WorkableExpressionSequence<N, S>)
        ensures
            final(self).context() == (WorksheetContextView {
                labelled_expression: harvested(
                    old(self).context().labelled_expression,
                    seq.lines(),
                    seq.lines().len(),
                ),
                ..old(self).context()
            }),
            final(self).sequences() == if index < old(self).sequences().len() {
                old(self).sequences().update(index as int, seq.lines())
            } else {
                old(self).sequences().push(seq.lines())
            },
    {
        self.store_expression_sequence(index, seq);
    }

    pub fn len(&self) -> (n: usize)
        ensures
            n == self.sequences().len(),
    {
        self.expression_sequences.len()
    }

    pub fn is_empty(&self) -> (r: bool)
        ensures
            r == (self.sequences().len() == 0),
    {
        self.expression_sequences.len() == 0
    }
}

} // verus!
