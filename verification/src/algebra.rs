//! Algebra on top of arithmetic: functions applied to both sides of an
//! equation, fractions, and the simplifications with one and zero.

use vstd::prelude::*;
use vstd::string::*;

use crate::arithmetic::ArithmeticError;
use crate::arithmetic::ArithmeticErrorKind;
use crate::arithmetic::ArithmeticOperator;
use crate::arithmetic::get_arithmetic_ctx;
use crate::expression::Address;
use crate::expression::AddressView;
use crate::expression::Context;
use crate::expression::ContextView;
use crate::expression::ErrorKind;
use crate::expression::Expression;
use crate::expression::ExpressionError;
use crate::expression::ExpressionType;
use crate::expression::ExpressionView;
use crate::algebra::get_possible_actions::AlgebraSuggestions;
use crate::expression::StatementSymbols;
use crate::expression::expression_builder::binary;
use crate::expression::expression_builder::binary_statement;
use crate::expression::expression_builder::constant;
use crate::expression::expression_builder::equation;
use crate::expression::expression_builder::nary;
use crate::expression::expression_builder::one;
use crate::expression::expression_builder::two;
use crate::expression::expression_builder::variable;
use crate::expression::rewrite::address_views;
use crate::expression::views;
use crate::parser::parser_prefix;
use crate::rule::Rule;
use crate::rule::RuleMap;
use crate::rule::RuleView;
use crate::text::i64_to_string;
use crate::text::signed_decimal;
use crate::text::strings_view;
use crate::text_map::TextMap;
use crate::utils::euclid;
use crate::utils::gcd;
use crate::utils::parse_i64;
use crate::utils::parsed_i64;
use crate::utils::quotient;
use crate::worksheet::Action;
use crate::worksheet::ActionView;
use crate::worksheet::GetPossibleActionsFunction;
use crate::worksheet::NormalizationFunction;
use crate::worksheet::WorkableExpressionSequence;
use crate::worksheet::Worksheet;

pub mod get_possible_actions;
pub mod laws;

verus! {

/// Why a step of algebra failed.
#[derive(Debug)]
pub enum AlgebraError {
    ArithmeticErr(ArithmeticError),
    ExpressionErr(ExpressionError),
    FunctionApplicationError,
    NotAFunction,
    NotAFraction,
}

/// The kind of an [`AlgebraError`].
#[derive(Debug, PartialEq, Eq, Clone, Copy, Structural)]
pub enum AlgebraErrorKind {
    ArithmeticErr(ArithmeticErrorKind),
    ExpressionErr(ErrorKind),
    FunctionApplicationError,
    NotAFunction,
    NotAFraction,
}

impl AlgebraError {
    pub open spec fn spec_kind(&self) -> AlgebraErrorKind {
        match self {
            AlgebraError::ArithmeticErr(e) => AlgebraErrorKind::ArithmeticErr(e.spec_kind()),
            AlgebraError::ExpressionErr(e) => AlgebraErrorKind::ExpressionErr(e.spec_kind()),
            AlgebraError::FunctionApplicationError => AlgebraErrorKind::FunctionApplicationError,
            AlgebraError::NotAFunction => AlgebraErrorKind::NotAFunction,
            AlgebraError::NotAFraction => AlgebraErrorKind::NotAFraction,
        }
    }

    /// The kind of this error.
    #[verifier::when_used_as_spec(spec_kind)]
    pub fn kind(&self) -> (k: AlgebraErrorKind)
        ensures
            k == self.spec_kind(),
    {
        match self {
            AlgebraError::ArithmeticErr(e) => AlgebraErrorKind::ArithmeticErr(e.kind()),
            AlgebraError::ExpressionErr(e) => AlgebraErrorKind::ExpressionErr(e.kind()),
            AlgebraError::FunctionApplicationError => AlgebraErrorKind::FunctionApplicationError,
            AlgebraError::NotAFunction => AlgebraErrorKind::NotAFunction,
            AlgebraError::NotAFraction => AlgebraErrorKind::NotAFraction,
        }
    }

    /// The error of algebra that stands for an error of the expression.
    pub fn from_expression_error(err: ExpressionError) -> (r: AlgebraError)
        ensures
            r.spec_kind() == AlgebraErrorKind::ExpressionErr(err.spec_kind()),
    {
        AlgebraError::ExpressionErr(err)
    }

    /// The error of algebra that stands for an error of arithmetic: an
    /// error of the expression stays one.
    pub fn from_arithmetic_error(err: ArithmeticError) -> (r: AlgebraError)
        ensures
            r.spec_kind() == match err.spec_kind() {
                ArithmeticErrorKind::ExpressionErr(k) => AlgebraErrorKind::ExpressionErr(k),
                k => AlgebraErrorKind::ArithmeticErr(k),
            },
    {
        match err {
            ArithmeticError::ExpressionErr(e) => AlgebraError::ExpressionErr(e),
            other => AlgebraError::ArithmeticErr(other),
        }
    }
}

impl From<ExpressionError> for AlgebraError {
    fn from(err: ExpressionError) -> (r: AlgebraError) {
        AlgebraError::ExpressionErr(err)
    }
}

impl vstd::std_specs::convert::FromSpecImpl<ExpressionError> for AlgebraError {
    open spec fn obeys_from_spec() -> bool {
        true
    }

    open spec fn from_spec(err: ExpressionError) -> AlgebraError {
        AlgebraError::ExpressionErr(err)
    }
}

impl From<ArithmeticError> for AlgebraError {
    fn from(err: ArithmeticError) -> (r: AlgebraError) {
        match err {
            ArithmeticError::ExpressionErr(e) => AlgebraError::ExpressionErr(e),
            other => AlgebraError::ArithmeticErr(other),
        }
    }
}

impl vstd::std_specs::convert::FromSpecImpl<ArithmeticError> for AlgebraError {
    open spec fn obeys_from_spec() -> bool {
        true
    }

    open spec fn from_spec(err: ArithmeticError) -> AlgebraError {
        match err {
            ArithmeticError::ExpressionErr(e) => AlgebraError::ExpressionErr(e),
            other => AlgebraError::ArithmeticErr(other),
        }
    }
}

/// The model of a fallible result of algebra.
pub open spec fn algebra_outcome(r: Result<Expression, AlgebraError>) -> Result<ExpressionView, AlgebraErrorKind> {
    match r {
        Ok(e) => Ok(e@),
        Err(err) => Err(err.spec_kind()),
    }
}

/// The model of an expression result taken as a result of algebra.
pub open spec fn raised(r: Result<ExpressionView, ErrorKind>) -> Result<ExpressionView, AlgebraErrorKind> {
    match r {
        Ok(e) => Ok(e),
        Err(k) => Err(AlgebraErrorKind::ExpressionErr(k)),
    }
}

/// The flags of a context that algebra looks at.
#[derive(Debug, PartialEq, Eq, Clone, Copy, Structural)]
pub enum AlgebraCtxFlags {
    SimplifyOneAndZero,
}

impl AlgebraCtxFlags {
    /// The flag as it is written in a context.
    pub open spec fn text(self) -> Seq<char> {
        "algebra:simplify_one_and_zero"@
    }

    pub fn as_str(&self) -> (s: &'static str)
        ensures
            s@ == self.text(),
    {
        "algebra:simplify_one_and_zero"
    }

    pub fn to_string(&self) -> (s: String)
        ensures
            s@ == self.text(),
    {
        String::from_str(self.as_str())
    }
}

/// The rule `left op right = result` over the variable `X`, the constants
/// `0` and `1`: each side is a variable if its symbol is `X`, a constant
/// otherwise.
pub open spec fn unit_rule(op: Seq<char>, left: Seq<char>, right: Seq<char>, result: Seq<char>) -> ExpressionView {
    ExpressionView::node(
        ExpressionType::StatementOperatorBinary,
        StatementSymbols::Equal.symbol(),
        seq![
            ExpressionView::node(ExpressionType::OperatorBinary, op, seq![unit_value(left), unit_value(right)]),
            unit_value(result),
        ],
    )
}

/// The variable `X`, or the constant with the symbol `s`.
pub open spec fn unit_value(s: Seq<char>) -> ExpressionView {
    if s == seq!['X'] {
        ExpressionView::leaf(ExpressionType::ValueVar, s)
    } else {
        ExpressionView::leaf(ExpressionType::ValueConst, s)
    }
}

/// The simplifications with one and zero, in the order in which they are
/// tried: `X + 0 = X`, `0 + X = X`, `X * 1 = X`, `1 * X = X`, `X * 0 = 0`,
/// `0 * X = 0`, `X / 1 = X`, `X - 0 = X`.
pub open spec fn unit_rules() -> Seq<ExpressionView> {
    seq![
        unit_rule(seq!['+'], seq!['X'], seq!['0'], seq!['X']),
        unit_rule(seq!['+'], seq!['0'], seq!['X'], seq!['X']),
        unit_rule(seq!['*'], seq!['X'], seq!['1'], seq!['X']),
        unit_rule(seq!['*'], seq!['1'], seq!['X'], seq!['X']),
        unit_rule(seq!['*'], seq!['X'], seq!['0'], seq!['0']),
        unit_rule(seq!['*'], seq!['0'], seq!['X'], seq!['0']),
        unit_rule(seq!['/'], seq!['X'], seq!['1'], seq!['X']),
        unit_rule(seq!['-'], seq!['X'], seq!['0'], seq!['X']),
    ]
}

/// The function that both sides of an equation are put into: the
/// implication `A = B => f(A) = f(B)` for the function symbol `f`.
pub open spec fn both_sides_rule(f: Seq<char>) -> ExpressionView {
    let a = ExpressionView::leaf(ExpressionType::ValueVar, seq!['A']);
    let b = ExpressionView::leaf(ExpressionType::ValueVar, seq!['B']);
    ExpressionView::node(
        ExpressionType::StatementOperatorBinary,
        StatementSymbols::Implies.symbol(),
        seq![
            ExpressionView::node(ExpressionType::StatementOperatorBinary, StatementSymbols::Equal.symbol(), seq![a, b]),
            ExpressionView::node(
                ExpressionType::StatementOperatorBinary,
                StatementSymbols::Equal.symbol(),
                seq![
                    ExpressionView::node(ExpressionType::OperatorNary, seq!['_'], seq![a]),
                    ExpressionView::node(ExpressionType::OperatorNary, seq!['_'], seq![b]),
                ],
            ),
        ],
    ).substitute_symbol(seq!['_'], f)
}

/// The definition `_(X) = X op operand` of the function that applies `op`
/// with `operand`.
pub open spec fn arithmetic_function(op: ArithmeticOperator, operand: ExpressionView) -> ExpressionView {
    ExpressionView::node(
        ExpressionType::StatementOperatorBinary,
        StatementSymbols::Equal.symbol(),
        seq![
            ExpressionView::node(
                ExpressionType::OperatorNary,
                seq!['_'],
                seq![ExpressionView::leaf(ExpressionType::ValueVar, seq!['X'])],
            ),
            ExpressionView::node(
                ExpressionType::OperatorBinary,
                op.symbol(),
                seq![ExpressionView::leaf(ExpressionType::ValueVar, seq!['X']), operand],
            ),
        ],
    )
}

/// The name of the step that applies `op` with `operand` to both sides.
pub open spec fn both_sides_name(op: ArithmeticOperator, operand: ExpressionView) -> Seq<char> {
    "Apply "@ + op.symbol() + operand.display(true) + " to both side"@
}

impl ExpressionView {
    /// The number of nodes of the tree.
    pub open spec fn size(self) -> nat
        decreases self, 0nat,
    {
        match self.children {
            None => 1,
            Some(cs) => 1 + Self::size_upto(cs, cs.len()),
        }
    }

    /// The number of nodes of the first `n` of `cs`.
    pub open spec fn size_upto(cs: Seq<ExpressionView>, n: nat) -> nat
        decreases cs, n,
    {
        if n == 0 || n > cs.len() {
            0
        } else {
            Self::size_upto(cs, (n - 1) as nat) + cs[n - 1].size()
        }
    }

    /// The definition of a function: an equation whose left side is a
    /// function application.
    pub open spec fn is_function(self) -> bool {
        self.is_equation() && self.children->0[0].kind == ExpressionType::OperatorNary
    }

    /// A quotient with its numerator and its denominator as trains of
    /// multiplication; anything else unchanged.
    pub open spec fn fraction_form(self) -> ExpressionView {
        if self.arithmetic_operator() == Some(ArithmeticOperator::Div) && self.children is Some {
            ExpressionView::node(
                ExpressionType::OperatorBinary,
                seq!['/'],
                seq![
                    self.children->0[0].turn_into_assoc_train(seq!['*']),
                    self.children->0[1].turn_into_assoc_train(seq!['*']),
                ],
            )
        } else {
            self
        }
    }

    /// What the first `n` of `rules` make of this expression when each is
    /// applied in turn, once, at the first place where its left side
    /// matches, if that works.
    pub open spec fn rewritten_once(self, rules: Seq<ExpressionView>, n: nat) -> ExpressionView
        decreases n,
    {
        if n == 0 || n > rules.len() {
            self
        } else {
            let earlier = self.rewritten_once(rules, (n - 1) as nat);
            let addresses = earlier.equation_addresses(rules[n - 1]);
            if addresses.len() > 0 && earlier.apply_equation_at(rules[n - 1], addresses[0]) is Ok {
                earlier.apply_equation_at(rules[n - 1], addresses[0])->Ok_0
            } else {
                earlier
            }
        }
    }

    /// What `rules` make of this expression in rounds, each round applying
    /// each rule once; the rounds end with the first that changes nothing,
    /// and after `rounds` of them at the latest.
    pub open spec fn rewritten(self, rules: Seq<ExpressionView>, rounds: nat) -> ExpressionView
        decreases rounds,
    {
        if rounds == 0 {
            self
        } else {
            let next = self.rewritten_once(rules, rules.len());
            if next == self {
                self
            } else {
                next.rewritten(rules, (rounds - 1) as nat)
            }
        }
    }

    /// How many rounds of simplification an expression is given: one more
    /// than it has nodes, as far as that can be counted.
    pub open spec fn simplification_rounds(self) -> nat {
        if self.size() + 1 <= usize::MAX {
            self.size() + 1
        } else {
            usize::MAX as nat
        }
    }

    /// The expression without the additions of zero, the multiplications
    /// by one or zero, the divisions by one and the subtractions of zero
    /// that the rounds of simplification find, where the context asks for
    /// that.
    pub open spec fn simplify_one_and_zero(self, ctx: ContextView) -> ExpressionView {
        if !ctx.flags.contains(AlgebraCtxFlags::SimplifyOneAndZero.text()) {
            self
        } else {
            self.rewritten(unit_rules(), self.simplification_rounds())
        }
    }

    /// The normal form of algebra: differences as sums of negations,
    /// associative operators as trains, trains of two as binary operators,
    /// sums of negations as differences again, trains of one as their only
    /// child, and last the simplifications with one and zero.
    pub open spec fn normal_algebra(self, ctx: ContextView) -> ExpressionView {
        self.sub_to_negative().to_assoc_train(ctx.assoc_ops).pairs_to_binary(
            ctx.binary_ops,
        ).add_negative_to_sub().collapse_single().simplify_one_and_zero(ctx)
    }

    /// Factor `i` of a train of factors.
    pub open spec fn factor(self, i: usize) -> Option<ExpressionView> {
        if self.children is Some && i < self.arity() {
            Some(self.children->0[i as int])
        } else {
            None
        }
    }

    /// The two factors that are to be cancelled against each other:
    /// factor `numerator_id` of the numerator and factor `denominator_id`
    /// of the denominator of this quotient, both of them numbers.
    pub open spec fn fraction_factors(self, numerator_id: usize, denominator_id: usize) -> Result<
        (ExpressionView, ExpressionView),
        AlgebraErrorKind,
    > {
        if self.arithmetic_operator() != Some(ArithmeticOperator::Div) || self.children is None {
            Err(AlgebraErrorKind::NotAFraction)
        } else {
            let fraction = self.fraction_form();
            match (
                fraction.children->0[0].factor(numerator_id),
                fraction.children->0[1].factor(denominator_id),
            ) {
                (Some(n), Some(d)) => if !n.is_numeric() || !d.is_numeric() {
                    Err(AlgebraErrorKind::ArithmeticErr(ArithmeticErrorKind::NotNumeric))
                } else {
                    Ok((n, d))
                },
                _ => Err(AlgebraErrorKind::ExpressionErr(ErrorKind::InvalidAddress)),
            }
        }
    }

    /// The quotient with the two chosen factors cancelled: two integers are
    /// each divided by what Euclid's algorithm makes of them; of any other
    /// two numbers the first becomes `quotient` and the second `1`.
    pub open spec fn apply_fraction_arithmetic(self, numerator_id: usize, denominator_id: usize, quotient: Seq<char>) -> Result<
        ExpressionView,
        AlgebraErrorKind,
    > {
        match self.fraction_factors(numerator_id, denominator_id) {
            Err(e) => Err(e),
            Ok((n, d)) => {
                let fraction = self.fraction_form();
                let symbols = if n.is_integer() && d.is_integer() {
                    reduced(parsed_i64(n.symbol)->0, parsed_i64(d.symbol)->0)
                } else {
                    Some((quotient, seq!['1']))
                };
                match symbols {
                    None => Err(AlgebraErrorKind::ArithmeticErr(ArithmeticErrorKind::CalculationError)),
                    Some((a, b)) => match (
                        fraction.children->0[0].replace(
                            ExpressionView::leaf(ExpressionType::ValueConst, a),
                            seq![numerator_id],
                            None,
                        ),
                        fraction.children->0[1].replace(
                            ExpressionView::leaf(ExpressionType::ValueConst, b),
                            seq![denominator_id],
                            None,
                        ),
                    ) {
                        (Ok(new_n), Ok(new_d)) => Ok(
                            ExpressionView::node(ExpressionType::OperatorBinary, seq!['/'], seq![new_n, new_d]),
                        ),
                        (Err(k), _) => Err(AlgebraErrorKind::ExpressionErr(k)),
                        (_, Err(k)) => Err(AlgebraErrorKind::ExpressionErr(k)),
                    },
                }
            },
        }
    }

    /// The tree in which the quotient at `address` has the two chosen
    /// factors cancelled.
    pub open spec fn apply_fraction_arithmetic_at(
        self,
        numerator_id: usize,
        denominator_id: usize,
        address: AddressView,
        quotient: Seq<char>,
    ) -> Result<ExpressionView, AlgebraErrorKind> {
        match self.at(address.path) {
            None => Err(AlgebraErrorKind::ExpressionErr(ErrorKind::InvalidAddress)),
            Some(node) => match node.apply_fraction_arithmetic(numerator_id, denominator_id, quotient) {
                Err(e) => Err(e),
                Ok(new_node) => raised(self.replace(new_node, address.path, address.sub)),
            },
        }
    }

    /// What applying the function defined by `function` to both sides of
    /// this equation gives.
    pub open spec fn apply_function_to_both_side(self, function: ExpressionView) -> Result<
        ExpressionView,
        AlgebraErrorKind,
    > {
        if !function.is_function() {
            Err(AlgebraErrorKind::NotAFunction)
        } else if !self.is_equation() {
            Err(AlgebraErrorKind::ExpressionErr(ErrorKind::NotAnEquation))
        } else {
            match self.apply_implication(both_sides_rule(function.children->0[0].symbol)) {
                Err(k) => Err(AlgebraErrorKind::ExpressionErr(k)),
                Ok(wrapped) => match wrapped.apply_equation_at(
                    function,
                    AddressView { path: seq![0usize], sub: None },
                ) {
                    Err(k) => Err(AlgebraErrorKind::ExpressionErr(k)),
                    Ok(left_done) => raised(
                        left_done.apply_equation_at(function, AddressView { path: seq![1usize], sub: None }),
                    ),
                },
            }
        }
    }
}

/// The numerals of `n` and `d`, each divided by what Euclid's algorithm
/// makes of the two; none where that is zero or a quotient does not fit.
pub open spec fn reduced(n: i64, d: i64) -> Option<(Seq<char>, Seq<char>)> {
    let g = euclid(n as int, d as int);
    if g == 0 || !(i64::MIN <= quotient(n as int, g) <= i64::MAX) || !(i64::MIN <= quotient(d as int, g)
        <= i64::MAX) {
        None
    } else {
        Some((signed_decimal(quotient(n as int, g)), signed_decimal(quotient(d as int, g))))
    }
}

/// `x` divided by `d` and rounded towards zero, where that is defined and
/// fits.
fn divide(x: i64, d: i64) -> (r: Option<i64>)
    requires
        d != 0,
    ensures
        match r {
            Some(q) => q == quotient(x as int, d as int),
            None => !(i64::MIN <= quotient(x as int, d as int) <= i64::MAX),
        },
{
    let r = x.checked_div(d);
    assert(match r {
        Some(q) => q == quotient(x as int, d as int),
        None => !(i64::MIN <= quotient(x as int, d as int) <= i64::MAX),
    }) by (nonlinear_arith)
        requires
            d != 0,
            r == (if d == 0 {
                None
            } else {
                let a = x as int;
                let b = d as int;
                let output = if a == 0 {
                    0
                } else if a > 0 && b > 0 {
                    a / b
                } else if a < 0 && b < 0 {
                    ((a * -1) / (b * -1))
                } else if a < 0 {
                    ((a * -1) / b) * -1
                } else {
                    (a / (b * -1)) * -1
                };
                if output < i64::MIN || output > i64::MAX {
                    None
                } else {
                    Some(output as i64)
                }
            }),
    ;
    r
}

/// The list of one index.
fn path_of(i: usize) -> (a: Address)
    ensures
        a@ == (AddressView { path: seq![i], sub: None }),
{
    let mut path: Vec<usize> = Vec::new();
    path.push(i);
    assert(path@ =~= seq![i]);
    Address::new(path, None)
}

/// The simplifications with one and zero.
fn unit_rule_list() -> (rules: Vec<Expression>)
    ensures
        views(rules@) == unit_rules(),
{
    proof {
        reveal_strlit("+");
        reveal_strlit("-");
        reveal_strlit("*");
        reveal_strlit("/");
        reveal_strlit("X");
        reveal_strlit("0");
        reveal_strlit("1");
        assert("+"@ =~= seq!['+']);
        assert("-"@ =~= seq!['-']);
        assert("*"@ =~= seq!['*']);
        assert("/"@ =~= seq!['/']);
        assert("X"@ =~= seq!['X']);
        assert("0"@ =~= seq!['0']);
        assert("1"@ =~= seq!['1']);
    }
    let add_zero = equation(binary("+", variable("X"), constant("0")), variable("X"));
    let zero_add = equation(binary("+", constant("0"), variable("X")), variable("X"));
    let mul_one = equation(binary("*", variable("X"), constant("1")), variable("X"));
    let one_mul = equation(binary("*", constant("1"), variable("X")), variable("X"));
    let mul_zero = equation(binary("*", variable("X"), constant("0")), constant("0"));
    let zero_mul = equation(binary("*", constant("0"), variable("X")), constant("0"));
    let sub_zero = equation(binary("-", variable("X"), constant("0")), variable("X"));
    let div_one = equation(binary("/", variable("X"), constant("1")), variable("X"));
    let mut rules: Vec<Expression> = Vec::new();
    rules.push(add_zero);
    rules.push(zero_add);
    rules.push(mul_one);
    rules.push(one_mul);
    rules.push(mul_zero);
    rules.push(zero_mul);
    rules.push(div_one);
    rules.push(sub_zero);
    proof {
        assert(seq!['0'][0] != seq!['X'][0]);
        assert(seq!['1'][0] != seq!['X'][0]);
        assert(unit_value(seq!['X']) == ExpressionView::leaf(ExpressionType::ValueVar, seq!['X']));
        assert(unit_value(seq!['0']) == ExpressionView::leaf(ExpressionType::ValueConst, seq!['0']));
        assert(unit_value(seq!['1']) == ExpressionView::leaf(ExpressionType::ValueConst, seq!['1']));
        let models = views(rules@);
        let expected = unit_rules();
        assert(models.len() == expected.len());
        assert(models[0] == expected[0]);
        assert(models[1] == expected[1]);
        assert(models[2] == expected[2]);
        assert(models[3] == expected[3]);
        assert(models[4] == expected[4]);
        assert(models[5] == expected[5]);
        assert(models[6] == expected[6]);
        assert(models[7] == expected[7]);
    }
    assert(views(rules@) =~= unit_rules());
    rules
}

impl Expression {
    /// The number of nodes of the tree, as far as it can be counted.
    #[verifier::loop_isolation(false)]
    pub fn node_count(&self) -> (n: usize)
        ensures
            n == self@.size() || (n == usize::MAX && self@.size() > usize::MAX),
        decreases self,
    {
        proof {
            self.lemma_view();
        }
        match &self.children {
            None => 1,
            Some(children) => {
                let ghost cs = views(children@);
                let mut total: usize = 0;
                let mut i: usize = 0;
                while i < children.len()
                    invariant
                        i <= children.len(),
                        total == ExpressionView::size_upto(cs, i as nat) || (total == usize::MAX
                            && ExpressionView::size_upto(cs, i as nat) > usize::MAX),
                    decreases children.len() - i,
                {
                    let c = children[i].node_count();
                    total = match total.checked_add(c) {
                        Some(t) => t,
                        None => usize::MAX,
                    };
                    i += 1;
                }
                match total.checked_add(1) {
                    Some(t) => t,
                    None => usize::MAX,
                }
            },
        }
    }

    /// Whether this is the definition of a function, as in `f(x) = x + 1`.
    pub fn is_function(&self) -> (r: bool)
        ensures
            r == self@.is_function(),
    {
        proof {
            self.lemma_view();
        }
        if !self.is_equation() {
            return false;
        }
        match &self.children {
            None => false,
            Some(children) => {
                proof {
                    children[0].lemma_view();
                }
                children[0].exp_type == ExpressionType::OperatorNary
            },
        }
    }

    /// The normal form of algebra.
    pub fn normalize_algebra(&self, ctx: &Context) -> (r: Expression)
        ensures
            r@ == self@.normal_algebra(ctx@),
    {
        self.normalize_sub_to_negative().normalize_to_assoc_train(
            &ctx.assoc_ops,
        ).normalize_two_children_assoc_train_to_binary_op(
            &ctx.binary_ops,
        ).normalize_add_negative_to_sub().normalize_single_children_assoc_train().normalize_simplify_one_and_zero(
            ctx,
        )
    }

    /// Turns the numerator and the denominator of a quotient into trains of
    /// multiplication.
    pub fn normalize_fraction(&self) -> (r: Expression)
        ensures
            r@ == self@.fraction_form(),
    {
        proof {
            self.lemma_view();
        }
        match self.identify_arithmetic_operator() {
            Some(ArithmeticOperator::Div) => {},
            _ => {
                return self.clone();
            },
        }
        let children = match &self.children {
            None => {
                return self.clone();
            },
            Some(c) => c,
        };
        let numerator = children[0].turn_into_assoc_train(ArithmeticOperator::MulTrain.to_string());
        let denominator = children[1].turn_into_assoc_train(ArithmeticOperator::MulTrain.to_string());
        Expression::from_parts(
            ExpressionType::OperatorBinary,
            ArithmeticOperator::Div.to_string(),
            Some(two(numerator, denominator)),
        )
    }

    /// Takes away the additions of zero, the multiplications by one or
    /// zero, the divisions by one and the subtractions of zero, where the
    /// context sets the flag that asks for it. The rules are tried in rounds
    /// until a round changes nothing; an expression is given one round more
    /// than it has nodes.
    #[verifier::loop_isolation(false)]
    pub fn normalize_simplify_one_and_zero(&self, ctx: &Context) -> (r: Expression)
        ensures
            r@ == self@.simplify_one_and_zero(ctx@),
    {
        if !ctx.contains_flag(AlgebraCtxFlags::SimplifyOneAndZero.as_str()) {
            return self.clone();
        }
        let rule_exprs = unit_rule_list();
        let count = self.node_count();
        let rounds = match count.checked_add(1) {
            Some(r) => r,
            None => usize::MAX,
        };
        let ghost rules = unit_rules();
        let mut expr = self.clone();
        let mut round: usize = 0;
        while round < rounds
            invariant
                round <= rounds,
                rules == unit_rules(),
                views(rule_exprs@) == rules,
                self@.rewritten(rules, rounds as nat) == expr@.rewritten(rules, (rounds - round) as nat),
            decreases rounds - round,
        {
            let ghost start = expr@;
            let prev_expr = expr.clone();
            let mut i: usize = 0;
            while i < rule_exprs.len()
                invariant
                    i <= rule_exprs.len(),
                    views(rule_exprs@) == rules,
                    expr@ == start.rewritten_once(rules, i as nat),
                decreases rule_exprs.len() - i,
            {
                let e = &rule_exprs[i];
                assert(rules[i as int] == e@);
                let possible_eq_addr = expr.get_possible_equation_application_addresses(e);
                if possible_eq_addr.len() > 0 {
                    assert(address_views(possible_eq_addr@)[0] == possible_eq_addr@[0]@);
                    match expr.apply_equation_at(e, &possible_eq_addr[0]) {
                        Ok(new_expr) => {
                            expr = new_expr;
                        },
                        Err(_) => {},
                    }
                }
                i += 1;
            }
            if expr.equals(&prev_expr) {
                return expr;
            }
            round += 1;
        }
        expr
    }

    /// Applies the function that `fn_expr` defines to both sides of this
    /// equation: `x = 3` under `f(X) = X + 1` becomes `x + 1 = 3 + 1`.
    pub fn apply_function_to_both_side(&self, fn_expr: Expression) -> (r: Result<Expression, AlgebraError>)
        ensures
            algebra_outcome(r) == self@.apply_function_to_both_side(fn_expr@),
    {
        proof {
            fn_expr.lemma_view();
            reveal_strlit("A");
            reveal_strlit("B");
            reveal_strlit("_");
            reveal_strlit("=>");
            assert("A"@ =~= seq!['A']);
            assert("B"@ =~= seq!['B']);
            assert("_"@ =~= seq!['_']);
            assert("=>"@ =~= seq!['=', '>']);
        }
        if !fn_expr.is_function() {
            return Err(AlgebraError::NotAFunction);
        }
        if !self.is_equation() {
            return Err(AlgebraError::from_expression_error(ExpressionError::NotAnEquation));
        }
        let fn_symbol = match &fn_expr.children {
            None => {
                return Err(AlgebraError::NotAFunction);
            },
            Some(children) => {
                proof {
                    children[0].lemma_view();
                }
                children[0].symbol.clone()
            },
        };
        let pattern = binary_statement(
            "=>",
            equation(variable("A"), variable("B")),
            equation(nary("_", one(variable("A"))), nary("_", one(variable("B")))),
        );
        let rule_expr = pattern.substitute_symbol(String::from_str("_"), fn_symbol);
        let wrapped_expr = match self.apply_implication(&rule_expr) {
            Ok(e) => e,
            Err(err) => {
                return Err(AlgebraError::from_expression_error(err));
            },
        };
        let left_done = match wrapped_expr.apply_equation_at(&fn_expr, &path_of(0)) {
            Ok(e) => e,
            Err(err) => {
                return Err(AlgebraError::from_expression_error(err));
            },
        };
        match left_done.apply_equation_at(&fn_expr, &path_of(1)) {
            Ok(e) => Ok(e),
            Err(err) => Err(AlgebraError::from_expression_error(err)),
        }
    }

    /// The two numerals that are to be cancelled against each other:
    /// factor `numerator_id` of the numerator and factor `denominator_id`
    /// of the denominator of this quotient.
    pub fn fraction_operands(&self, numerator_id: usize, denominator_id: usize) -> (r: Result<
        (Expression, Expression),
        AlgebraError,
    >)
        ensures
            match r {
                Ok(pair) => self@.fraction_factors(numerator_id, denominator_id) == Ok::<
                    (ExpressionView, ExpressionView),
                    AlgebraErrorKind,
                >((pair.0@, pair.1@)),
                Err(err) => self@.fraction_factors(numerator_id, denominator_id) == Err::<
                    (ExpressionView, ExpressionView),
                    AlgebraErrorKind,
                >(err.spec_kind()),
            },
    {
        proof {
            self.lemma_view();
        }
        match self.identify_arithmetic_operator() {
            Some(ArithmeticOperator::Div) => {},
            _ => {
                return Err(AlgebraError::NotAFraction);
            },
        }
        if self.children.is_none() {
            return Err(AlgebraError::NotAFraction);
        }
        let expr = self.normalize_fraction();
        proof {
            expr.lemma_view();
        }
        let children = match &expr.children {
            None => {
                return Err(AlgebraError::from_expression_error(ExpressionError::InvalidAddress));
            },
            Some(c) => c,
        };
        proof {
            assert(expr@ == self@.fraction_form());
            assert(self@.fraction_form().children->0.len() == 2);
            assert(views(children@).len() == 2);
            assert(views(children@)[0] == children@[0]@);
            assert(views(children@)[1] == children@[1]@);
        }
        proof {
            children[0].lemma_view();
            children[1].lemma_view();
        }
        let numerator_selected_expr = match &children[0].children {
            None => {
                return Err(AlgebraError::from_expression_error(ExpressionError::InvalidAddress));
            },
            Some(factors) => {
                if numerator_id >= factors.len() {
                    return Err(AlgebraError::from_expression_error(ExpressionError::InvalidAddress));
                }
                &factors[numerator_id]
            },
        };
        let denominator_selected_expr = match &children[1].children {
            None => {
                return Err(AlgebraError::from_expression_error(ExpressionError::InvalidAddress));
            },
            Some(factors) => {
                if denominator_id >= factors.len() {
                    return Err(AlgebraError::from_expression_error(ExpressionError::InvalidAddress));
                }
                &factors[denominator_id]
            },
        };
        if !numerator_selected_expr.is_numeric() {
            return Err(AlgebraError::from_arithmetic_error(ArithmeticError::NotNumeric));
        }
        if !denominator_selected_expr.is_numeric() {
            return Err(AlgebraError::from_arithmetic_error(ArithmeticError::NotNumeric));
        }
        Ok((numerator_selected_expr.clone(), denominator_selected_expr.clone()))
    }

    /// Cancels factor `numerator_id` of the numerator against factor
    /// `denominator_id` of the denominator of this quotient. Two integers
    /// are each divided by their common divisor; for any other two numbers
    /// `quotient` is to be the first divided by the second.
    pub fn apply_fraction_arithmetic(&self, numerator_id: usize, denominator_id: usize, quotient: &str) -> (r:
        Result<Expression, AlgebraError>)
        ensures
            algebra_outcome(r) == self@.apply_fraction_arithmetic(numerator_id, denominator_id, quotient@),
    {
        proof {
            reveal_strlit("1");
            assert("1"@ =~= seq!['1']);
        }
        let (numerator_selected_expr, denominator_selected_expr) = match self.fraction_operands(
            numerator_id,
            denominator_id,
        ) {
            Ok(pair) => pair,
            Err(err) => {
                return Err(err);
            },
        };
        let expr = self.normalize_fraction();
        proof {
            expr.lemma_view();
            numerator_selected_expr.lemma_view();
            denominator_selected_expr.lemma_view();
        }
        let children = match &expr.children {
            None => {
                return Err(AlgebraError::from_expression_error(ExpressionError::InvalidAddress));
            },
            Some(c) => c,
        };
        proof {
            assert(expr@ == self@.fraction_form());
            assert(self@.fraction_form().children->0.len() == 2);
            assert(views(children@).len() == 2);
            assert(views(children@)[0] == children@[0]@);
            assert(views(children@)[1] == children@[1]@);
        }
        let both_integer = numerator_selected_expr.is_integer() && denominator_selected_expr.is_integer();
        let (new_num_sym, new_den_sym) = if both_integer {
            let num_val = match parse_i64(numerator_selected_expr.symbol.as_str()) {
                Some(v) => v,
                None => {
                    return Err(AlgebraError::from_arithmetic_error(ArithmeticError::NotNumeric));
                },
            };
            let den_val = match parse_i64(denominator_selected_expr.symbol.as_str()) {
                Some(v) => v,
                None => {
                    return Err(AlgebraError::from_arithmetic_error(ArithmeticError::NotNumeric));
                },
            };
            let g = gcd(num_val, den_val);
            if g == 0 {
                return Err(AlgebraError::from_arithmetic_error(ArithmeticError::CalculationError));
            }
            let new_num_val = match divide(num_val, g) {
                Some(v) => v,
                None => {
                    return Err(AlgebraError::from_arithmetic_error(ArithmeticError::CalculationError));
                },
            };
            let new_den_val = match divide(den_val, g) {
                Some(v) => v,
                None => {
                    return Err(AlgebraError::from_arithmetic_error(ArithmeticError::CalculationError));
                },
            };
            (i64_to_string(new_num_val), i64_to_string(new_den_val))
        } else {
            (String::from_str(quotient), String::from_str("1"))
        };
        let new_num_selected_expr = constant(new_num_sym.as_str());
        let new_den_selected_expr = constant(new_den_sym.as_str());
        let new_numerator = match children[0].replace_expression_at(new_num_selected_expr, &path_of(numerator_id)) {
            Ok(e) => e,
            Err(err) => {
                return Err(AlgebraError::from_expression_error(err));
            },
        };
        let new_denominator = match children[1].replace_expression_at(
            new_den_selected_expr,
            &path_of(denominator_id),
        ) {
            Ok(e) => e,
            Err(err) => {
                return Err(AlgebraError::from_expression_error(err));
            },
        };
        Ok(
            Expression::from_parts(
                ExpressionType::OperatorBinary,
                ArithmeticOperator::Div.to_string(),
                Some(two(new_numerator, new_denominator)),
            ),
        )
    }

    /// Cancels two factors of the quotient at `addr`.
    pub fn apply_fraction_arithmetic_at(
        &self,
        numerator_id: usize,
        denominator_id: usize,
        addr: &Address,
        quotient: &str,
    ) -> (r: Result<Expression, AlgebraError>)
        ensures
            algebra_outcome(r) == self@.apply_fraction_arithmetic_at(
                numerator_id,
                denominator_id,
                addr@,
                quotient@,
            ),
    {
        let expr = match self.at(addr) {
            Ok(e) => e,
            Err(err) => {
                return Err(AlgebraError::from_expression_error(err));
            },
        };
        let new_expr = match expr.apply_fraction_arithmetic(numerator_id, denominator_id, quotient) {
            Ok(e) => e,
            Err(err) => {
                return Err(err);
            },
        };
        match self.replace_expression_at(new_expr, addr) {
            Ok(e) => Ok(e),
            Err(err) => Err(AlgebraError::from_expression_error(err)),
        }
    }

    /// Applies `op` with `expr` to both sides of this equation.
    pub fn apply_simple_arithmetic_to_both_side(&self, op: &ArithmeticOperator, expr: &Expression) -> (r: Result<
        Expression,
        AlgebraError,
    >)
        ensures
            algebra_outcome(r) == self@.apply_function_to_both_side(arithmetic_function(*op, expr@)),
    {
        let fn_expr = generate_simple_apply_arithmetic_to_both_side_expr(op, expr);
        self.apply_function_to_both_side(fn_expr)
    }
}

/// The definition `_(X) = X op expr` of the function that applies `op`
/// with `expr`.
pub fn generate_simple_apply_arithmetic_to_both_side_expr(op: &ArithmeticOperator, expr: &Expression) -> (r:
    Expression)
    ensures
        r@ == arithmetic_function(*op, expr@),
{
    proof {
        reveal_strlit("X");
        reveal_strlit("_");
        assert("X"@ =~= seq!['X']);
        assert("_"@ =~= seq!['_']);
    }
    equation(nary("_", one(variable("X"))), binary(op.as_str(), variable("X"), expr.clone()))
}

/// The name of the step that applies `op` with `expr` to both sides.
pub fn generate_simple_apply_arithmetic_to_both_side_name(op: &ArithmeticOperator, expr: &Expression) -> (name:
    String)
    ensures
        name@ == both_sides_name(*op, expr@),
{
    let mut name = String::from_str("Apply ");
    name.append(op.as_str());
    let text = expr.to_string(true);
    name.append(text.as_str());
    name.append(" to both side");
    assert(name@ =~= both_sides_name(*op, expr@));
    name
}

/// The normalization of algebra.
#[derive(Debug, Clone, Copy)]
pub struct AlgebraNormalization;

impl NormalizationFunction for AlgebraNormalization {
    open spec fn normal_form(&self, expr: ExpressionView, ctx: ContextView) -> ExpressionView {
        expr.normal_algebra(ctx)
    }

    fn normalize(&self, expr: &Expression, ctx: &Context) -> (r: Expression) {
        expr.normalize_algebra(ctx)
    }
}

impl<N: NormalizationFunction, S: GetPossibleActionsFunction> WorkableExpressionSequence<N, S> {
    /// Applies `op` with `expr` to both sides of the last expression and
    /// adds the result as a new line.
    pub fn apply_simple_arithmetic_to_both_side(&mut self, op: ArithmeticOperator, expr: &Expression) -> (ok: bool)
        requires
            old(self).lines().len() > 0,
        ensures
            final(self).context() == old(self).context(),
            ({
                let last = old(self).lines().last().expr;
                match last.apply_function_to_both_side(arithmetic_function(op, expr@)) {
                    Ok(e) => ok && final(self).lines() == old(self).context()@.pushed(
                        old(self).lines(),
                        ActionView::ApplyAction(both_sides_name(op, expr@)),
                        e,
                    ),
                    Err(_) => !ok && final(self).lines() == old(self).lines(),
                }
            }),
    {
        let name = generate_simple_apply_arithmetic_to_both_side_name(&op, expr);
        let result = self.last_expression().apply_simple_arithmetic_to_both_side(&op, expr);
        self.try_push(Action::ApplyAction(name), result)
    }
    /// Cancels two factors of the quotient at `addr` of the last
    /// expression and adds the result as a new line.
    pub fn apply_fraction_arithmetic_at(
        &mut self,
        numerator_id: usize,
        denominator_id: usize,
        addr: &Address,
        quotient: &str,
    ) -> (ok: bool)
        requires
            old(self).lines().len() > 0,
        ensures
            final(self).context() == old(self).context(),
            ({
                let last = old(self).lines().last().expr;
                match last.apply_fraction_arithmetic_at(numerator_id, denominator_id, addr@, quotient@) {
                    Ok(e) => ok && final(self).lines() == old(self).context()@.pushed(
                        old(self).lines(),
                        ActionView::ApplyAction("Simplify fraction"@),
                        e,
                    ),
                    Err(_) => !ok && final(self).lines() == old(self).lines(),
                }
            }),
    {
        let result = self.last_expression().apply_fraction_arithmetic_at(
            numerator_id,
            denominator_id,
            addr,
            quotient,
        );
        self.try_push(Action::ApplyAction(String::from_str("Simplify fraction")), result)
    }
}

/// The rules of algebra as they are written: id, rule in prefix notation,
/// label.
pub open spec fn algebra_rule_rows() -> Seq<(&'static str, &'static str, &'static str)> {
    seq![
        ("add_zero", "=(+(X,0),X)", "Add by Zero"),
        ("zero_add", "=(+(0,X),X)", "Add by Zero"),
        ("mul_one", "=(*(X,1),X)", "Multiply by One"),
        ("one_mul", "=(*(1,X),X)", "Multiply by One"),
        ("mul_zero", "=(*(X,0),0)", "Multiply by Zero"),
        ("zero_mul", "=(*(0,X),0)", "Multiply by Zero"),
        ("sub_zero", "=(-(X,0),X)", "Subtract by Zero"),
        ("div_one", "=(/(X,1),X)", "Divide by One"),
        ("add_self", "=(+(X,X),*(2,X))", "Self Addition"),
        ("sub_self", "=(-(X,X),0)", "Self Subtraction"),
        ("sub_self2", "=(+(X,-(X)),0)", "Self Subtraction"),
        ("sub_self3", "=(+(-(X),X),0)", "Self Subtraction"),
        ("div_self", "=(/(X,X),1)", "Self Division"),
        ("distribute_property", "=(*(X,+(Y,Z)),+(*(X,Y),*(X,Z)))", "Distributive Property"),
        ("distribute_property2", "=(*(+(Y,Z),X),+(*(Y,X),*(Z,X)))", "Distributive Property"),
    ]
}

/// The rules of algebra as they are written.
pub fn algebra_rule_table() -> (table: Vec<(&'static str, &'static str, &'static str)>)
    ensures
        table@ == algebra_rule_rows(),
{
    let mut table: Vec<(&'static str, &'static str, &'static str)> = Vec::new();
    table.push(("add_zero", "=(+(X,0),X)", "Add by Zero"));
    table.push(("zero_add", "=(+(0,X),X)", "Add by Zero"));
    table.push(("mul_one", "=(*(X,1),X)", "Multiply by One"));
    table.push(("one_mul", "=(*(1,X),X)", "Multiply by One"));
    table.push(("mul_zero", "=(*(X,0),0)", "Multiply by Zero"));
    table.push(("zero_mul", "=(*(0,X),0)", "Multiply by Zero"));
    table.push(("sub_zero", "=(-(X,0),X)", "Subtract by Zero"));
    table.push(("div_one", "=(/(X,1),X)", "Divide by One"));
    table.push(("add_self", "=(+(X,X),*(2,X))", "Self Addition"));
    table.push(("sub_self", "=(-(X,X),0)", "Self Subtraction"));
    table.push(("sub_self2", "=(+(X,-(X)),0)", "Self Subtraction"));
    table.push(("sub_self3", "=(+(-(X),X),0)", "Self Subtraction"));
    table.push(("div_self", "=(/(X,X),1)", "Self Division"));
    table.push(("distribute_property", "=(*(X,+(Y,Z)),+(*(X,Y),*(X,Z)))", "Distributive Property"));
    table.push(("distribute_property2", "=(*(+(Y,Z),X),+(*(Y,X),*(Z,X)))", "Distributive Property"));
    assert(table@ =~= algebra_rule_rows());
    table
}

/// The rules that the first `n` rows of `table` write in the context
/// `ctx`, by id. A row whose rule is no expression is left out.
pub open spec fn table_rules(table: Seq<(&'static str, &'static str, &'static str)>, ctx: ContextView, n: nat) -> Map<
    Seq<char>,
    RuleView,
>
    decreases n,
{
    if n == 0 || n > table.len() {
        Map::empty()
    } else {
        let earlier = table_rules(table, ctx, (n - 1) as nat);
        let row = table[n - 1];
        match parser_prefix::parsed(parser_prefix::tokens_of(row.1@), ctx) {
            None => earlier,
            Some(e) => earlier.insert(row.0@, RuleView { id: row.0@, expression: e, label: row.2@ }),
        }
    }
}

/// The ids of the rules that the first `n` rows of `table` write in the
/// context `ctx`, each where it occurs first.
pub open spec fn table_order(table: Seq<(&'static str, &'static str, &'static str)>, ctx: ContextView, n: nat) -> Seq<
    Seq<char>,
>
    decreases n,
{
    if n == 0 || n > table.len() {
        Seq::empty()
    } else {
        let earlier = table_order(table, ctx, (n - 1) as nat);
        let row = table[n - 1];
        if parser_prefix::parsed(parser_prefix::tokens_of(row.1@), ctx) is None || earlier.contains(row.0@) {
            earlier
        } else {
            earlier.push(row.0@)
        }
    }
}

/// The rules of algebra, read in the context `ctx`, in the order of the
/// table.
pub fn get_algebra_rules(ctx: &Context) -> (rules: RuleMap)
    ensures
        rules@ == table_rules(algebra_rule_rows(), ctx@, algebra_rule_rows().len()),
        rules.spec_keys() == table_order(algebra_rule_rows(), ctx@, algebra_rule_rows().len()),
{
    let table = algebra_rule_table();
    let mut rules: RuleMap = TextMap::new();
    let mut i: usize = 0;
    while i < table.len()
        invariant
            i <= table.len(),
            rules@ == table_rules(table@, ctx@, i as nat),
            rules.spec_keys() == table_order(table@, ctx@, i as nat),
        decreases table.len() - i,
    {
        let row = &table[i];
        match parser_prefix::to_expression(row.1, ctx) {
            Some(rule_expr) => {
                rules.insert(
                    String::from_str(row.0),
                    Rule { id: String::from_str(row.0), expression: rule_expr, label: String::from_str(row.2) },
                );
            },
            None => {},
        }
        i += 1;
    }
    rules
}

impl Worksheet<AlgebraNormalization, AlgebraSuggestions> {
    /// A worksheet for algebra over the parameters `variables`: the context
    /// of arithmetic with those parameters, the normalization of algebra,
    /// the rules of algebra, and the domain of algebra to ask for possible
    /// steps.
    pub fn init_algebra_worksheet(variables: Vec<String>) -> (ws: Self)
        ensures
            ws.sequences() == Seq::<Seq<crate::worksheet::LineView>>::empty(),
            ws.context().expression_context == crate::arithmetic::arithmetic_context().add_params(
                strings_view(variables@),
                variables@.len(),
            ),
            ws.context().normalization_function == Some(AlgebraNormalization),
            ws.context().get_possible_actions_function == Some(AlgebraSuggestions),
            ws.context().rule_map == table_rules(
                algebra_rule_rows(),
                ws.context().expression_context,
                algebra_rule_rows().len(),
            ),
            ws.context().rule_order == table_order(
                algebra_rule_rows(),
                ws.context().expression_context,
                algebra_rule_rows().len(),
            ),
            ws.context().rule_ids == Seq::<Seq<char>>::empty(),
            ws.context().auto_rule_ids == Seq::<Seq<char>>::empty(),
            ws.context().labelled_expression == Seq::<(Seq<char>, ExpressionView)>::empty(),
    {
        let mut ws = Worksheet::new();
        let mut base = get_arithmetic_ctx();
        let ctx = base.add_params(variables);
        ws.set_expression_context(ctx);
        ws.set_normalization_function(AlgebraNormalization);
        let rules = get_algebra_rules(&ws.get_expression_context());
        ws.set_rule_map(rules);
        ws.set_get_possible_actions_function(AlgebraSuggestions);
        ws
    }
}

} // verus!
