//! The operators of arithmetic and what they make of expressions.

use vstd::prelude::*;
use vstd::string::*;

use crate::expression::Address;
use crate::expression::AddressView;
use crate::expression::Context;
use crate::expression::ContextView;
use crate::expression::ErrorKind;
use crate::expression::Expression;
use crate::expression::ExpressionError;
use crate::expression::ExpressionType;
use crate::expression::ExpressionView;
use crate::expression::StatementSymbols;
use crate::expression::expression_builder::constant;
use crate::expression::expression_builder::equation;
use crate::expression::expression_builder::one;
use crate::expression::expression_builder::two;
use crate::expression::views;
use crate::text::str_eq;
use crate::text::strings_view;
use crate::text_map::TextMap;
use crate::utils::is_number;
use crate::utils::is_numeral;
use crate::utils::parse_i64;
use crate::utils::parsed_i64;
use crate::worksheet::Action;
use crate::worksheet::ActionView;
use crate::worksheet::GetPossibleActionsFunction;
use crate::worksheet::NormalizationFunction;
use crate::worksheet::WorkableExpressionSequence;

pub mod get_possible_actions;
pub mod laws;

verus! {

/// An operator of arithmetic, told apart by the shape of its application.
#[derive(Debug, PartialEq, Eq, Clone, Copy, Structural)]
pub enum ArithmeticOperator {
    Add,
    Sub,
    Mul,
    Div,
    /// The unary minus.
    Negative,
    /// A train of additions.
    AddTrain,
    /// A train of multiplications.
    MulTrain,
}

impl ArithmeticOperator {
    /// The symbol of the operator.
    pub open spec fn symbol(self) -> Seq<char> {
        match self {
            ArithmeticOperator::Add => seq!['+'],
            ArithmeticOperator::Sub => seq!['-'],
            ArithmeticOperator::Mul => seq!['*'],
            ArithmeticOperator::Div => seq!['/'],
            ArithmeticOperator::Negative => seq!['-'],
            ArithmeticOperator::AddTrain => seq!['+'],
            ArithmeticOperator::MulTrain => seq!['*'],
        }
    }

    /// The operator that undoes this one.
    pub open spec fn spec_inverse(self) -> ArithmeticOperator {
        match self {
            ArithmeticOperator::Add => ArithmeticOperator::Sub,
            ArithmeticOperator::Sub => ArithmeticOperator::Add,
            ArithmeticOperator::Mul => ArithmeticOperator::Div,
            ArithmeticOperator::Div => ArithmeticOperator::Mul,
            ArithmeticOperator::AddTrain => ArithmeticOperator::Sub,
            ArithmeticOperator::MulTrain => ArithmeticOperator::Div,
            ArithmeticOperator::Negative => ArithmeticOperator::Negative,
        }
    }

    pub fn as_str(&self) -> (s: &'static str)
        ensures
            s@ == self.symbol(),
    {
        proof {
            reveal_strlit("+");
            reveal_strlit("-");
            reveal_strlit("*");
            reveal_strlit("/");
        }
        let s = match self {
            ArithmeticOperator::Add => "+",
            ArithmeticOperator::Sub => "-",
            ArithmeticOperator::Mul => "*",
            ArithmeticOperator::Div => "/",
            ArithmeticOperator::Negative => "-",
            ArithmeticOperator::AddTrain => "+",
            ArithmeticOperator::MulTrain => "*",
        };
        assert(s@ =~= self.symbol());
        s
    }

    pub fn to_string(&self) -> (s: String)
        ensures
            s@ == self.symbol(),
    {
        String::from_str(self.as_str())
    }

    /// The operator that undoes this one.
    pub fn inverse(&self) -> (r: ArithmeticOperator)
        ensures
            r == self.spec_inverse(),
    {
        match self {
            ArithmeticOperator::Add => ArithmeticOperator::Sub,
            ArithmeticOperator::Sub => ArithmeticOperator::Add,
            ArithmeticOperator::Mul => ArithmeticOperator::Div,
            ArithmeticOperator::Div => ArithmeticOperator::Mul,
            ArithmeticOperator::AddTrain => ArithmeticOperator::Sub,
            ArithmeticOperator::MulTrain => ArithmeticOperator::Div,
            ArithmeticOperator::Negative => ArithmeticOperator::Negative,
        }
    }
}

/// Why an arithmetic step failed.
#[derive(Debug)]
pub enum ArithmeticError {
    ExpressionErr(ExpressionError),
    NotAnArithmeticTrainOperator,
    NotNumeric,
    CalculationError,
}

/// The kind of an [`ArithmeticError`].
#[derive(Debug, PartialEq, Eq, Clone, Copy, Structural)]
pub enum ArithmeticErrorKind {
    ExpressionErr(ErrorKind),
    NotAnArithmeticTrainOperator,
    NotNumeric,
    CalculationError,
}

impl ArithmeticError {
    pub open spec fn spec_kind(&self) -> ArithmeticErrorKind {
        match self {
            ArithmeticError::ExpressionErr(e) => ArithmeticErrorKind::ExpressionErr(e.spec_kind()),
            ArithmeticError::NotAnArithmeticTrainOperator => ArithmeticErrorKind::NotAnArithmeticTrainOperator,
            ArithmeticError::NotNumeric => ArithmeticErrorKind::NotNumeric,
            ArithmeticError::CalculationError => ArithmeticErrorKind::CalculationError,
        }
    }

    /// The kind of this error.
    #[verifier::when_used_as_spec(spec_kind)]
    pub fn kind(&self) -> (k: ArithmeticErrorKind)
        ensures
            k == self.spec_kind(),
    {
        match self {
            ArithmeticError::ExpressionErr(e) => ArithmeticErrorKind::ExpressionErr(e.kind()),
            ArithmeticError::NotAnArithmeticTrainOperator => ArithmeticErrorKind::NotAnArithmeticTrainOperator,
            ArithmeticError::NotNumeric => ArithmeticErrorKind::NotNumeric,
            ArithmeticError::CalculationError => ArithmeticErrorKind::CalculationError,
        }
    }

    /// The arithmetic error that stands for an error of the expression.
    pub fn from_expression_error(err: ExpressionError) -> (r: ArithmeticError)
        ensures
            r.spec_kind() == ArithmeticErrorKind::ExpressionErr(err.spec_kind()),
    {
        ArithmeticError::ExpressionErr(err)
    }
}

impl From<ExpressionError> for ArithmeticError {
    fn from(err: ExpressionError) -> (r: ArithmeticError) {
        ArithmeticError::ExpressionErr(err)
    }
}

impl vstd::std_specs::convert::FromSpecImpl<ExpressionError> for ArithmeticError {
    open spec fn obeys_from_spec() -> bool {
        true
    }

    open spec fn from_spec(err: ExpressionError) -> ArithmeticError {
        ArithmeticError::ExpressionErr(err)
    }
}

/// The model of a fallible arithmetic result.
pub open spec fn arithmetic_outcome(r: Result<Expression, ArithmeticError>) -> Result<
    ExpressionView,
    ArithmeticErrorKind,
> {
    match r {
        Ok(e) => Ok(e@),
        Err(err) => Err(err.spec_kind()),
    }
}

/// The model of an expression result taken as an arithmetic result.
pub open spec fn lifted(r: Result<ExpressionView, ErrorKind>) -> Result<ExpressionView, ArithmeticErrorKind> {
    match r {
        Ok(e) => Ok(e),
        Err(k) => Err(ArithmeticErrorKind::ExpressionErr(k)),
    }
}

/// The context of arithmetic: the unary minus, the four binary operators,
/// addition and multiplication as associative operators, and numerals as
/// constants.
pub open spec fn arithmetic_context() -> ContextView {
    ContextView {
        parameters: Seq::empty(),
        unary_ops: seq![seq!['-']],
        binary_ops: seq![seq!['+'], seq!['-'], seq!['*'], seq!['/']],
        assoc_ops: seq![seq!['+'], seq!['*']],
        handle_numerics: true,
        flags: Set::empty(),
    }
}

pub fn get_arithmetic_ctx() -> (ctx: Context)
    ensures
        ctx@ == arithmetic_context(),
{
    let mut unary_ops: Vec<String> = Vec::new();
    unary_ops.push(ArithmeticOperator::Negative.to_string());
    let mut binary_ops: Vec<String> = Vec::new();
    binary_ops.push(ArithmeticOperator::Add.to_string());
    binary_ops.push(ArithmeticOperator::Sub.to_string());
    binary_ops.push(ArithmeticOperator::Mul.to_string());
    binary_ops.push(ArithmeticOperator::Div.to_string());
    let mut assoc_ops: Vec<String> = Vec::new();
    assoc_ops.push(ArithmeticOperator::Add.to_string());
    assoc_ops.push(ArithmeticOperator::Mul.to_string());
    let ctx = Context {
        parameters: Vec::new(),
        unary_ops,
        binary_ops,
        assoc_ops,
        handle_numerics: true,
        flags: Vec::new(),
    };
    assert(ctx@.parameters =~= Seq::<Seq<char>>::empty());
    assert(ctx@.unary_ops =~= seq![seq!['-']]);
    assert(ctx@.binary_ops =~= seq![seq!['+'], seq!['-'], seq!['*'], seq!['/']]);
    assert(ctx@.assoc_ops =~= seq![seq!['+'], seq!['*']]);
    assert(ctx@.flags =~= Set::<Seq<char>>::empty());
    ctx
}

/// A number to compute with: a numeral, and whether it stands under a
/// unary minus.
#[derive(Debug, PartialEq)]
pub struct Operand {
    pub numeral: String,
    pub negated: bool,
}

/// A computation on numbers that is left to be carried out: the operator
/// and its operands from left to right.
#[derive(Debug, PartialEq)]
pub struct Calculation {
    pub operator: ArithmeticOperator,
    pub operands: Vec<Operand>,
}

/// The models of a list of operands.
pub open spec fn operand_views(list: Seq<Operand>) -> Seq<(Seq<char>, bool)> {
    Seq::new(list.len(), |i: int| (list[i].numeral@, list[i].negated))
}

/// The model of a fallible computation.
pub open spec fn calculation_outcome(r: Result<Calculation, ArithmeticError>) -> Result<
    (ArithmeticOperator, Seq<(Seq<char>, bool)>),
    ArithmeticErrorKind,
> {
    match r {
        Ok(c) => Ok((c.operator, operand_views(c.operands@))),
        Err(err) => Err(err.spec_kind()),
    }
}

impl ExpressionView {
    /// The arithmetic operator that this node applies: a train of `+` or
    /// `*`; another operator of one child with the symbol `-`; or another
    /// operator of two children with one of the symbols `+ - * /`.
    pub open spec fn arithmetic_operator(self) -> Option<ArithmeticOperator> {
        if !self.is_operator() {
            None
        } else if self.is_assoc_train() {
            if self.symbol == seq!['+'] {
                Some(ArithmeticOperator::AddTrain)
            } else if self.symbol == seq!['*'] {
                Some(ArithmeticOperator::MulTrain)
            } else {
                None
            }
        } else if self.arity() == 1 {
            if self.symbol == seq!['-'] {
                Some(ArithmeticOperator::Negative)
            } else {
                None
            }
        } else if self.arity() == 2 {
            if self.symbol == seq!['+'] {
                Some(ArithmeticOperator::Add)
            } else if self.symbol == seq!['-'] {
                Some(ArithmeticOperator::Sub)
            } else if self.symbol == seq!['*'] {
                Some(ArithmeticOperator::Mul)
            } else if self.symbol == seq!['/'] {
                Some(ArithmeticOperator::Div)
            } else {
                None
            }
        } else {
            None
        }
    }

    /// A constant whose symbol is a numeral.
    pub open spec fn is_numeric(self) -> bool {
        self.kind == ExpressionType::ValueConst && is_numeral(self.symbol)
    }

    /// A constant whose symbol is an integer of 64 bits.
    pub open spec fn is_integer(self) -> bool {
        self.kind == ExpressionType::ValueConst && parsed_i64(self.symbol) is Some
    }

    pub open spec fn is_arithmetic_train_operator(self) -> bool {
        self.arithmetic_operator() == Some(ArithmeticOperator::AddTrain) || self.arithmetic_operator() == Some(
            ArithmeticOperator::MulTrain,
        )
    }

    /// An operator all of whose children are numeric.
    pub open spec fn is_directly_calculatable(self) -> bool {
        self.is_operator() && match self.children {
            None => true,
            Some(cs) => forall|i: int| 0 <= i < cs.len() ==> (#[trigger] cs[i]).is_numeric(),
        }
    }

    /// The numerals that stand under a unary minus, from left to right.
    pub open spec fn negated_numerals(self) -> Seq<Seq<char>>
        decreases self, 0nat,
    {
        match self.children {
            None => Seq::empty(),
            Some(cs) => if self.arithmetic_operator() == Some(ArithmeticOperator::Negative)
                && cs[0].is_numeric() {
                seq![cs[0].symbol]
            } else {
                Self::negated_numerals_upto(cs, cs.len())
            },
        }
    }

    /// The numerals that stand under a unary minus in the first `n` of `cs`.
    pub open spec fn negated_numerals_upto(cs: Seq<ExpressionView>, n: nat) -> Seq<Seq<char>>
        decreases cs, n,
    {
        if n == 0 || n > cs.len() {
            Seq::empty()
        } else {
            Self::negated_numerals_upto(cs, (n - 1) as nat) + cs[n - 1].negated_numerals()
        }
    }

    /// The tree with every negation of a number written as one number: the
    /// numeral that `negated` holds for the numeral under the minus. A
    /// negation whose numeral `negated` does not hold is left as it is.
    pub open spec fn fold_negatives(self, negated: Map<Seq<char>, Seq<char>>) -> ExpressionView
        decreases self,
    {
        match self.children {
            None => self,
            Some(cs) => if self.arithmetic_operator() == Some(ArithmeticOperator::Negative)
                && cs[0].is_numeric() {
                if negated.dom().contains(cs[0].symbol) {
                    ExpressionView::leaf(ExpressionType::ValueConst, negated[cs[0].symbol])
                } else {
                    self
                }
            } else {
                self.with_children(
                    Seq::new(
                        cs.len(),
                        |i: int|
                            if 0 <= i < cs.len() {
                                cs[i].fold_negatives(negated)
                            } else {
                                self
                            },
                    ),
                )
            },
        }
    }

    /// The tree with every difference `a - b` written as the sum
    /// `a + (-b)`.
    pub open spec fn sub_to_negative(self) -> ExpressionView
        decreases self,
    {
        if self.arithmetic_operator() == Some(ArithmeticOperator::Sub) && self.children is Some {
            ExpressionView::node(
                ExpressionType::OperatorBinary,
                seq!['+'],
                seq![
                    self.children->0[0].sub_to_negative(),
                    ExpressionView::node(
                        ExpressionType::OperatorUnary,
                        seq!['-'],
                        seq![self.children->0[1].sub_to_negative()],
                    ),
                ],
            )
        } else {
            match self.children {
                None => self,
                Some(cs) => self.with_children(
                    Seq::new(
                        cs.len(),
                        |i: int|
                            if 0 <= i < cs.len() {
                                cs[i].sub_to_negative()
                            } else {
                                self
                            },
                    ),
                ),
            }
        }
    }

    /// A sum of two whose second summand is a negation.
    pub open spec fn is_add_negative(self) -> bool {
        &&& self.arithmetic_operator() == Some(ArithmeticOperator::Add)
        &&& self.children is Some
        &&& self.children->0[1].arithmetic_operator() == Some(ArithmeticOperator::Negative)
        &&& self.children->0[1].children is Some
    }

    /// The tree with every sum `a + (-b)` written as the difference
    /// `a - b`, at every depth: the converse of `sub_to_negative`.
    pub open spec fn add_negative_to_sub(self) -> ExpressionView
        decreases self,
    {
        if self.is_add_negative() {
            ExpressionView::node(
                ExpressionType::OperatorBinary,
                seq!['-'],
                seq![
                    self.children->0[0].add_negative_to_sub(),
                    self.children->0[1].children->0[0].add_negative_to_sub(),
                ],
            )
        } else {
            match self.children {
                None => self,
                Some(cs) => self.with_children(
                    Seq::new(
                        cs.len(),
                        |i: int|
                            if 0 <= i < cs.len() {
                                cs[i].add_negative_to_sub()
                            } else {
                                self
                            },
                    ),
                ),
            }
        }
    }

    /// The number that this operand of a computation stands for: a numeric
    /// constant, or the negation of one.
    pub open spec fn operand(self) -> Option<(Seq<char>, bool)> {
        if self.is_numeric() {
            Some((self.symbol, false))
        } else if self.children is Some && self.arithmetic_operator() == Some(ArithmeticOperator::Negative)
            && self.children->0[0].is_numeric() {
            Some((self.children->0[0].symbol, true))
        } else {
            None
        }
    }

    /// Whether this node is an operator on numbers alone that is not itself
    /// the negation of a number.
    pub open spec fn is_simple_calculation(self) -> bool {
        &&& self.is_operator()
        &&& self.children is Some
        &&& !(self.arithmetic_operator() == Some(ArithmeticOperator::Negative) && self.children->0[0].is_numeric())
        &&& forall|i: int| 0 <= i < self.arity() ==> (#[trigger] self.children->0[i]).operand() is Some
    }

    /// The computation that this node asks for: not numeric unless it is an
    /// operator on numbers alone, and no calculation unless its operator is
    /// one of arithmetic.
    pub open spec fn simple_calculation(self) -> Result<
        (ArithmeticOperator, Seq<(Seq<char>, bool)>),
        ArithmeticErrorKind,
    > {
        if !self.is_simple_calculation() {
            Err(ArithmeticErrorKind::NotNumeric)
        } else {
            match self.arithmetic_operator() {
                None => Err(ArithmeticErrorKind::CalculationError),
                Some(op) => Ok((op, Seq::new(self.arity(), |i: int| self.children->0[i].operand()->0))),
            }
        }
    }

    /// The equation between this node and the value `value` of its
    /// computation.
    pub open spec fn simple_arithmetic_equation(self, value: Seq<char>) -> Result<
        ExpressionView,
        ArithmeticErrorKind,
    > {
        match self.simple_calculation() {
            Err(e) => Err(e),
            Ok(_) => Ok(
                ExpressionView::node(
                    ExpressionType::StatementOperatorBinary,
                    StatementSymbols::Equal.symbol(),
                    seq![self, ExpressionView::leaf(ExpressionType::ValueConst, value)],
                ),
            ),
        }
    }

    /// The pair at `i` of a train of additions or multiplications.
    pub open spec fn arithmetic_pair(self, i: usize) -> Result<ExpressionView, ArithmeticErrorKind> {
        if !self.is_arithmetic_train_operator() {
            Err(ArithmeticErrorKind::NotAnArithmeticTrainOperator)
        } else if i + 1 >= self.arity() {
            Err(ArithmeticErrorKind::ExpressionErr(ErrorKind::InvalidAddress))
        } else {
            Ok(self.pair(i as int))
        }
    }

    /// The node, or the pair, at `address` that a computation is asked of.
    pub open spec fn calculation_target(self, address: AddressView) -> Result<ExpressionView, ArithmeticErrorKind> {
        match self.at(address.path) {
            None => Err(ArithmeticErrorKind::ExpressionErr(ErrorKind::InvalidAddress)),
            Some(target) => match address.sub {
                Some(i) => target.arithmetic_pair(i),
                None => Ok(target),
            },
        }
    }

    /// The computation asked for at `address`.
    pub open spec fn simple_calculation_at(self, address: AddressView) -> Result<
        (ArithmeticOperator, Seq<(Seq<char>, bool)>),
        ArithmeticErrorKind,
    > {
        match self.calculation_target(address) {
            Err(e) => Err(e),
            Ok(target) => target.simple_calculation(),
        }
    }

    /// The equation between what stands at `address` and the value `value`
    /// of its computation.
    pub open spec fn simple_arithmetic_equation_at(self, address: AddressView, value: Seq<char>) -> Result<
        ExpressionView,
        ArithmeticErrorKind,
    > {
        match self.calculation_target(address) {
            Err(e) => Err(e),
            Ok(target) => target.simple_arithmetic_equation(value),
        }
    }

    /// The tree in which what stands at `address` is replaced by the value
    /// `value` of its computation.
    pub open spec fn apply_simple_arithmetic_equation_at(self, address: AddressView, value: Seq<char>) -> Result<
        ExpressionView,
        ArithmeticErrorKind,
    > {
        match self.simple_arithmetic_equation_at(address, value) {
            Err(e) => Err(e),
            Ok(equation) => lifted(self.apply_equation_at(equation, address)),
        }
    }
}

impl Expression {
    pub fn identify_arithmetic_operator(&self) -> (r: Option<ArithmeticOperator>)
        ensures
            r == self@.arithmetic_operator(),
    {
        proof {
            reveal_strlit("+");
            reveal_strlit("-");
            reveal_strlit("*");
            reveal_strlit("/");
            assert("+"@ =~= seq!['+']);
            assert("-"@ =~= seq!['-']);
            assert("*"@ =~= seq!['*']);
            assert("/"@ =~= seq!['/']);
        }
        if !self.is_operator() {
            return None;
        }
        let symbol = self.symbol.as_str();
        let children_len = self.arity();
        if self.is_assoc_train() {
            if str_eq(symbol, "+") {
                Some(ArithmeticOperator::AddTrain)
            } else if str_eq(symbol, "*") {
                Some(ArithmeticOperator::MulTrain)
            } else {
                None
            }
        } else if children_len == 1 {
            if str_eq(symbol, "-") {
                Some(ArithmeticOperator::Negative)
            } else {
                None
            }
        } else if children_len == 2 {
            if str_eq(symbol, "+") {
                Some(ArithmeticOperator::Add)
            } else if str_eq(symbol, "-") {
                Some(ArithmeticOperator::Sub)
            } else if str_eq(symbol, "*") {
                Some(ArithmeticOperator::Mul)
            } else if str_eq(symbol, "/") {
                Some(ArithmeticOperator::Div)
            } else {
                None
            }
        } else {
            None
        }
    }

    /// Whether this is a constant whose symbol is written as a number is.
    pub fn is_numeric(&self) -> (r: bool)
        ensures
            r == self@.is_numeric(),
    {
        self.exp_type == ExpressionType::ValueConst && is_number(self.symbol.as_str())
    }

    /// Whether this is a constant whose symbol is an integer of 64 bits.
    pub fn is_integer(&self) -> (r: bool)
        ensures
            r == self@.is_integer(),
    {
        self.exp_type == ExpressionType::ValueConst && parse_i64(self.symbol.as_str()).is_some()
    }

    pub fn is_arithmetic_train_operator(&self) -> (r: bool)
        ensures
            r == self@.is_arithmetic_train_operator(),
    {
        match self.identify_arithmetic_operator() {
            Some(ArithmeticOperator::AddTrain) => true,
            Some(ArithmeticOperator::MulTrain) => true,
            _ => false,
        }
    }

    /// Whether this is an operator all of whose children are numeric, so
    /// that its value can be computed without computing below it first.
    #[verifier::loop_isolation(false)]
    pub fn is_directly_calculatable(&self) -> (r: bool)
        ensures
            r == self@.is_directly_calculatable(),
    {
        proof {
            self.lemma_view();
        }
        if !self.is_operator() {
            return false;
        }
        match &self.children {
            None => true,
            Some(children) => {
                let mut i: usize = 0;
                while i < children.len()
                    invariant
                        i <= children.len(),
                        forall|j: int| 0 <= j < i ==> (#[trigger] self@.children->0[j]).is_numeric(),
                    decreases children.len() - i,
                {
                    if !children[i].is_numeric() {
                        assert(!self@.children->0[i as int].is_numeric());
                        return false;
                    }
                    i += 1;
                }
                true
            },
        }
    }

    /// The numerals that stand under a unary minus, from left to right.
    #[verifier::loop_isolation(false)]
    pub fn negated_numerals(&self) -> (r: Vec<String>)
        ensures
            strings_view(r@) == self@.negated_numerals(),
        decreases self,
    {
        proof {
            self.lemma_view();
        }
        let mut out: Vec<String> = Vec::new();
        let children = match &self.children {
            None => {
                assert(strings_view(out@) =~= Seq::<Seq<char>>::empty());
                return out;
            },
            Some(c) => c,
        };
        match self.identify_arithmetic_operator() {
            Some(ArithmeticOperator::Negative) => {
                proof {
                    children[0].lemma_view();
                }
                if children[0].is_numeric() {
                    out.push(children[0].symbol.clone());
                    assert(strings_view(out@) =~= seq![children[0]@.symbol]);
                    return out;
                }
            },
            _ => {},
        }
        let ghost cs = views(children@);
        let mut i: usize = 0;
        assert(strings_view(out@) =~= ExpressionView::negated_numerals_upto(cs, 0));
        while i < children.len()
            invariant
                i <= children.len(),
                strings_view(out@) == ExpressionView::negated_numerals_upto(cs, i as nat),
            decreases children.len() - i,
        {
            let mut more = children[i].negated_numerals();
            let ghost before = out@;
            let ghost added = more@;
            out.append(&mut more);
            assert(strings_view(out@) =~= strings_view(before) + strings_view(added));
            i += 1;
        }
        out
    }

    /// Writes every negation of a number as one number: `-(2)` becomes the
    /// numeral that `negated` holds for `2`.
    #[verifier::loop_isolation(false)]
    pub fn normalize_handle_negative_unary_on_numerics(&self, negated: &TextMap<String>) -> (r: Expression)
        ensures
            r@ == self@.fold_negatives(negated@),
        decreases self,
    {
        proof {
            self.lemma_view();
        }
        let children = match &self.children {
            None => {
                return self.clone();
            },
            Some(c) => c,
        };
        match self.identify_arithmetic_operator() {
            Some(ArithmeticOperator::Negative) => {
                proof {
                    children[0].lemma_view();
                }
                if children[0].is_numeric() {
                    return match negated.get(children[0].symbol.as_str()) {
                        Some(numeral) => constant(numeral.as_str()),
                        None => self.clone(),
                    };
                }
            },
            _ => {},
        }
        let mut out: Vec<Expression> = Vec::new();
        let mut i: usize = 0;
        while i < children.len()
            invariant
                i <= children.len(),
                out.len() == i,
                forall|j: int| 0 <= j < i ==> (#[trigger] out@[j])@ == children@[j]@.fold_negatives(negated@),
            decreases children.len() - i,
        {
            out.push(children[i].normalize_handle_negative_unary_on_numerics(negated));
            i += 1;
        }
        assert(views(out@) =~= self@.fold_negatives(negated@).children->0);
        let r = Expression::from_parts(self.exp_type, self.symbol.clone(), Some(out));
        assert(r@.children =~= self@.fold_negatives(negated@).children);
        r
    }

    /// Writes every difference `a - b` as the sum `a + (-b)`.
    #[verifier::loop_isolation(false)]
    pub fn normalize_sub_to_negative(&self) -> (r: Expression)
        ensures
            r@ == self@.sub_to_negative(),
        decreases self,
    {
        proof {
            self.lemma_view();
        }
        let children = match &self.children {
            None => {
                return self.clone();
            },
            Some(c) => c,
        };
        match self.identify_arithmetic_operator() {
            Some(ArithmeticOperator::Sub) => {
                let left = children[0].normalize_sub_to_negative();
                let right = children[1].normalize_sub_to_negative();
                let negative_right = Expression::from_parts(
                    ExpressionType::OperatorUnary,
                    ArithmeticOperator::Negative.to_string(),
                    Some(one(right)),
                );
                Expression::from_parts(
                    ExpressionType::OperatorBinary,
                    ArithmeticOperator::Add.to_string(),
                    Some(two(left, negative_right)),
                )
            },
            _ => {
                let mut out: Vec<Expression> = Vec::new();
                let mut i: usize = 0;
                while i < children.len()
                    invariant
                        i <= children.len(),
                        out.len() == i,
                        forall|j: int| 0 <= j < i ==> (#[trigger] out@[j])@ == children@[j]@.sub_to_negative(),
                    decreases children.len() - i,
                {
                    out.push(children[i].normalize_sub_to_negative());
                    i += 1;
                }
                assert(views(out@) =~= self@.sub_to_negative().children->0);
                let r = Expression::from_parts(self.exp_type, self.symbol.clone(), Some(out));
                assert(r@.children =~= self@.sub_to_negative().children);
                r
            },
        }
    }

    /// Whether this is a sum of two whose second summand is a negation.
    fn is_add_negative(&self) -> (r: bool)
        ensures
            r == self@.is_add_negative(),
    {
        proof {
            self.lemma_view();
        }
        match self.identify_arithmetic_operator() {
            Some(ArithmeticOperator::Add) => {},
            _ => {
                return false;
            },
        }
        match &self.children {
            None => false,
            Some(children) => {
                if children.len() != 2 {
                    return false;
                }
                proof {
                    children[1].lemma_view();
                }
                match children[1].identify_arithmetic_operator() {
                    Some(ArithmeticOperator::Negative) => children[1].children.is_some(),
                    _ => false,
                }
            },
        }
    }

    /// Writes every sum `a + (-b)` as the difference `a - b`, at every
    /// depth.
    #[verifier::loop_isolation(false)]
    pub fn normalize_add_negative_to_sub(&self) -> (r: Expression)
        ensures
            r@ == self@.add_negative_to_sub(),
        decreases self,
    {
        proof {
            self.lemma_view();
        }
        let children = match &self.children {
            None => {
                return self.clone();
            },
            Some(c) => c,
        };
        if self.is_add_negative() {
            let left = children[0].normalize_add_negative_to_sub();
            proof {
                children[1].lemma_view();
            }
            let right_child = match &children[1].children {
                Some(grand) => grand[0].normalize_add_negative_to_sub(),
                None => children[1].clone(),
            };
            return Expression::from_parts(
                ExpressionType::OperatorBinary,
                ArithmeticOperator::Sub.to_string(),
                Some(two(left, right_child)),
            );
        }
        let mut out: Vec<Expression> = Vec::new();
        let mut i: usize = 0;
        while i < children.len()
            invariant
                i <= children.len(),
                out.len() == i,
                forall|j: int| 0 <= j < i ==> (#[trigger] out@[j])@ == children@[j]@.add_negative_to_sub(),
            decreases children.len() - i,
        {
            out.push(children[i].normalize_add_negative_to_sub());
            i += 1;
        }
        assert(views(out@) =~= self@.add_negative_to_sub().children->0);
        let r = Expression::from_parts(self.exp_type, self.symbol.clone(), Some(out));
        assert(r@.children =~= self@.add_negative_to_sub().children);
        r
    }

    /// The number that this operand of a computation stands for.
    fn operand(&self) -> (r: Option<Operand>)
        ensures
            match r {
                Some(o) => self@.operand() == Some((o.numeral@, o.negated)),
                None => self@.operand() is None,
            },
    {
        proof {
            self.lemma_view();
        }
        if self.is_numeric() {
            return Some(Operand { numeral: self.symbol.clone(), negated: false });
        }
        match &self.children {
            None => None,
            Some(children) => {
                match self.identify_arithmetic_operator() {
                    Some(ArithmeticOperator::Negative) => {
                        proof {
                            children[0].lemma_view();
                        }
                        if children[0].is_numeric() {
                            Some(Operand { numeral: children[0].symbol.clone(), negated: true })
                        } else {
                            None
                        }
                    },
                    _ => None,
                }
            },
        }
    }

    /// The computation that this node asks for: its arithmetic operator and
    /// its operands, each a numeral or the negation of one.
    pub fn simple_calculation(&self) -> (r: Result<Calculation, ArithmeticError>)
        ensures
            calculation_outcome(r) == self@.simple_calculation(),
    {
        proof {
            self.lemma_view();
        }
        if !self.is_operator() {
            return Err(ArithmeticError::NotNumeric);
        }
        let children = match &self.children {
            None => {
                return Err(ArithmeticError::NotNumeric);
            },
            Some(c) => c,
        };
        let op = self.identify_arithmetic_operator();
        match op {
            Some(ArithmeticOperator::Negative) => {
                if children[0].is_numeric() {
                    return Err(ArithmeticError::NotNumeric);
                }
            },
            _ => {},
        }
        let mut operands: Vec<Operand> = Vec::new();
        let mut i: usize = 0;
        while i < children.len()
            invariant
                i <= children.len(),
                operands.len() == i,
                self@.children == Some(views(children@)),
                forall|j: int|
                    0 <= j < i ==> (#[trigger] self@.children->0[j]).operand() == Some(
                        (operands@[j].numeral@, operands@[j].negated),
                    ),
            decreases children.len() - i,
        {
            match children[i].operand() {
                None => {
                    assert(self@.children->0[i as int].operand() is None);
                    return Err(ArithmeticError::NotNumeric);
                },
                Some(o) => {
                    operands.push(o);
                },
            }
            i += 1;
        }
        match op {
            None => Err(ArithmeticError::CalculationError),
            Some(operator) => {
                assert(operand_views(operands@) =~= Seq::new(
                    self@.arity(),
                    |i: int| self@.children->0[i].operand()->0,
                ));
                Ok(Calculation { operator, operands })
            },
        }
    }

    /// The equation between this node and `value`, which is to be the value
    /// of its computation.
    pub fn generate_simple_arithmetic_equation(&self, value: &str) -> (r: Result<Expression, ArithmeticError>)
        ensures
            arithmetic_outcome(r) == self@.simple_arithmetic_equation(value@),
    {
        match self.simple_calculation() {
            Err(err) => Err(err),
            Ok(_) => Ok(equation(self.clone(), constant(value))),
        }
    }

    /// The pair at `sub_address` of this train of additions or
    /// multiplications.
    fn generate_expr_from_train_sub_address(&self, sub_address: usize) -> (r: Result<Expression, ArithmeticError>)
        ensures
            arithmetic_outcome(r) == self@.arithmetic_pair(sub_address),
    {
        if !self.is_arithmetic_train_operator() {
            return Err(ArithmeticError::NotAnArithmeticTrainOperator);
        }
        match self.generate_subexpr_from_train(sub_address) {
            Ok(e) => Ok(e),
            Err(err) => Err(ArithmeticError::ExpressionErr(ExpressionError::InvalidAddress)),
        }
    }

    /// The node, or the pair, at `addr` that a computation is asked of.
    fn calculation_target(&self, addr: &Address) -> (r: Result<Expression, ArithmeticError>)
        ensures
            arithmetic_outcome(r) == self@.calculation_target(addr@),
    {
        let target = match self.at(addr) {
            Ok(e) => e,
            Err(err) => {
                return Err(ArithmeticError::from_expression_error(err));
            },
        };
        match addr.sub {
            Some(sub_address) => target.generate_expr_from_train_sub_address(sub_address),
            None => Ok(target.clone()),
        }
    }

    /// The computation asked for at `addr`.
    pub fn simple_calculation_at(&self, addr: &Address) -> (r: Result<Calculation, ArithmeticError>)
        ensures
            calculation_outcome(r) == self@.simple_calculation_at(addr@),
    {
        match self.calculation_target(addr) {
            Err(err) => Err(err),
            Ok(target) => target.simple_calculation(),
        }
    }

    /// The equation between what stands at `addr` and `value`, which is to
    /// be the value of its computation.
    pub fn generate_simple_artithmetic_equation_at(&self, addr: &Address, value: &str) -> (r: Result<
        Expression,
        ArithmeticError,
    >)
        ensures
            arithmetic_outcome(r) == self@.simple_arithmetic_equation_at(addr@, value@),
    {
        match self.calculation_target(addr) {
            Err(err) => Err(err),
            Ok(target) => target.generate_simple_arithmetic_equation(value),
        }
    }

    /// The tree in which what stands at `addr` is replaced by `value`,
    /// which is to be the value of its computation.
    pub fn apply_simple_arithmetic_equation_at(&self, addr: &Address, value: &str) -> (r: Result<
        Expression,
        ArithmeticError,
    >)
        ensures
            arithmetic_outcome(r) == self@.apply_simple_arithmetic_equation_at(addr@, value@),
    {
        let equation = match self.generate_simple_artithmetic_equation_at(addr, value) {
            Ok(e) => e,
            Err(err) => {
                return Err(err);
            },
        };
        match self.apply_equation_at(&equation, addr) {
            Ok(e) => Ok(e),
            Err(err) => Err(ArithmeticError::from_expression_error(err)),
        }
    }
}

/// The name of the step that replaces what stands at `address` by the
/// value `value` of its computation.
pub open spec fn calculation_name(expr: ExpressionView, address: AddressView, value: Seq<char>) -> Seq<char> {
    "Calculate "@ + match expr.simple_arithmetic_equation_at(address, value) {
        Ok(equation) => equation.display(false),
        Err(_) => Seq::empty(),
    }
}

impl<N: NormalizationFunction, S: GetPossibleActionsFunction> WorkableExpressionSequence<N, S> {
    /// Replaces what stands at `addr` of the last expression by `value`,
    /// which is to be the value of its computation, and adds the result as
    /// a new line.
    pub fn do_arithmetic_calculation_at(&mut self, addr: &Address, value: &str) -> (ok: bool)
        requires
            old(self).lines().len() > 0,
        ensures
            final(self).context() == old(self).context(),
            ({
                let last = old(self).lines().last().expr;
                match last.apply_simple_arithmetic_equation_at(addr@, value@) {
                    Ok(e) => ok && final(self).lines() == old(self).context()@.pushed(
                        old(self).lines(),
                        ActionView::ApplyAction(calculation_name(last, addr@, value@)),
                        e,
                    ),
                    Err(_) => !ok && final(self).lines() == old(self).lines(),
                }
            }),
    {
        let last_expr = self.last_expression();
        let mut name = String::from_str("Calculate ");
        match last_expr.generate_simple_artithmetic_equation_at(addr, value) {
            Ok(e) => {
                let text = e.to_string(false);
                name.append(text.as_str());
            },
            Err(_) => {},
        }
        assert(name@ =~= calculation_name(last_expr@, addr@, value@));
        let expr = last_expr.apply_simple_arithmetic_equation_at(addr, value);
        self.try_push(Action::ApplyAction(name), expr)
    }
}

} // verus!
