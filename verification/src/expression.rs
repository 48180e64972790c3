//! The expression tree, its mathematical model and the predicates on a node.

use vstd::prelude::*;
use vstd::string::*;

pub mod address;
pub mod context;
pub mod display;
pub mod expression_builder;
pub mod get_possible_actions;
pub mod laws;
pub mod match_map;
pub mod normalize;
pub mod pattern;
pub mod rewrite;
pub mod tree;

pub use crate::expression::address::Address;
pub use crate::expression::address::AddressView;
pub use crate::expression::context::Context;
pub use crate::expression::context::ContextView;
pub use crate::expression::match_map::MatchMap;

verus! {

/// What kind of node an expression is.
#[derive(Debug, PartialEq, Eq, Clone, Copy, Structural)]
pub enum ExpressionType {
    OperatorUnary,
    OperatorBinary,
    OperatorNary,
    ValueConst,
    ValueVar,
    StatementOperatorBinary,
    /// A flattened chain of one associative operator: `a + b + c + d` as one
    /// node rather than nested binary nodes.
    AssocTrain,
    /// A marker for "any number of these", legal only as the sole child of an
    /// `AssocTrain` in a rule.
    Variadic,
}

impl Default for ExpressionType {
    fn default() -> (r: ExpressionType)
        ensures
            r == ExpressionType::ValueConst,
    {
        ExpressionType::ValueConst
    }
}

impl ExpressionType {
    /// The symbol that marks a variadic node, and the key under which a match
    /// records the arity it resolved.
    pub open spec fn variadic_symbol() -> Seq<char> {
        seq!['.', '.', '.']
    }

    pub fn variadic_string() -> (s: String)
        ensures
            s@ == Self::variadic_symbol(),
    {
        proof {
            reveal_strlit("...");
        }
        let s = String::from_str("...");
        assert(s@ =~= Self::variadic_symbol());
        s
    }

    pub fn is_variadic_str(str: &str) -> (r: bool)
        ensures
            r == (str@ == Self::variadic_symbol()),
    {
        let v = Self::variadic_string();
        crate::text::str_eq(str, v.as_str())
    }
}

/// The two statement operators.
#[derive(Debug, PartialEq, Eq, Clone, Copy, Structural)]
pub enum StatementSymbols {
    Equal,
    Implies,
}

impl StatementSymbols {
    /// The symbol as a sequence of characters.
    pub open spec fn symbol(self) -> Seq<char> {
        match self {
            StatementSymbols::Equal => seq!['='],
            StatementSymbols::Implies => seq!['=', '>'],
        }
    }

    /// The statement operator written as `s`, if any.
    pub open spec fn of_symbol(s: Seq<char>) -> Option<StatementSymbols> {
        if s == StatementSymbols::Equal.symbol() {
            Some(StatementSymbols::Equal)
        } else if s == StatementSymbols::Implies.symbol() {
            Some(StatementSymbols::Implies)
        } else {
            None
        }
    }

    pub fn as_str(&self) -> (s: &'static str)
        ensures
            s@ == self.symbol(),
    {
        proof {
            reveal_strlit("=");
            reveal_strlit("=>");
        }
        match self {
            StatementSymbols::Equal => {
                let s = "=";
                assert(s@ =~= seq!['=']);
                s
            },
            StatementSymbols::Implies => {
                let s = "=>";
                assert(s@ =~= seq!['=', '>']);
                s
            },
        }
    }

    /// The statement operator written as `s`, if any.
    pub fn from_symbol(s: &str) -> (r: Option<StatementSymbols>)
        ensures
            r == Self::of_symbol(s@),
    {
        if crate::text::str_eq(s, StatementSymbols::Equal.as_str()) {
            Some(StatementSymbols::Equal)
        } else if crate::text::str_eq(s, StatementSymbols::Implies.as_str()) {
            Some(StatementSymbols::Implies)
        } else {
            None
        }
    }

    pub fn to_string(&self) -> (s: String)
        ensures
            s@ == self.symbol(),
    {
        String::from_str(self.as_str())
    }
}

impl std::str::FromStr for StatementSymbols {
    type Err = ();

    /// Reads a statement operator: `Ok` exactly for the two symbols.
    fn from_str(s: &str) -> (r: Result<StatementSymbols, ()>)
        ensures
            r == match StatementSymbols::of_symbol(s@) {
                Some(symbol) => Ok::<StatementSymbols, ()>(symbol),
                None => Err(()),
            },
    {
        match StatementSymbols::from_symbol(s) {
            Some(symbol) => Ok(symbol),
            None => Err(()),
        }
    }
}

/// A node of an expression tree. Each node owns its children.
#[derive(Debug, PartialEq)]
pub struct Expression {
    pub exp_type: ExpressionType,
    pub symbol: String,
    pub children: Option<Vec<Expression>>,
}

/// The mathematical value of an [`Expression`]: the same tree over sequences.
pub struct ExpressionView {
    pub kind: ExpressionType,
    pub symbol: Seq<char>,
    pub children: Option<Seq<ExpressionView>>,
}

/// The models of a list of expressions, element by element.
pub open spec fn views(v: Seq<Expression>) -> Seq<ExpressionView> {
    Seq::new(v.len(), |i: int| v[i]@)
}

impl Expression {
    /// The model of this expression.
    pub open spec fn model(self) -> ExpressionView
        decreases self,
    {
        ExpressionView {
            kind: self.exp_type,
            symbol: self.symbol@,
            children: match self.children {
                None => None,
                Some(v) => Some(
                    Seq::new(
                        v.len() as nat,
                        |i: int|
                            if 0 <= i < v.len() {
                                v[i].model()
                            } else {
                                ExpressionView::leaf(ExpressionType::ValueConst, Seq::empty())
                            },
                    ),
                ),
            },
        }
    }
}

impl View for Expression {
    type V = ExpressionView;

    open spec fn view(&self) -> ExpressionView {
        self.model()
    }
}

/// Why an operation on an expression failed.
#[derive(Debug)]
pub enum ExpressionError {
    InvalidAddress,
    ImplicationLHSMismatch(String, String),
    EquationLHSMismatch(String, String),
    ExpressionContainsVariable,
    PatternDoesNotMatch,
    NotAnEquation,
    NotAnImplication,
    NotAnAssocTrain,
    NotAParentOfVariadic,
    InvalidRule,
}

/// The kind of an [`ExpressionError`], without the texts it may carry.
#[derive(Debug, PartialEq, Eq, Clone, Copy, Structural)]
pub enum ErrorKind {
    InvalidAddress,
    ImplicationLHSMismatch,
    EquationLHSMismatch,
    ExpressionContainsVariable,
    PatternDoesNotMatch,
    NotAnEquation,
    NotAnImplication,
    NotAnAssocTrain,
    NotAParentOfVariadic,
    InvalidRule,
}

impl ExpressionError {
    pub open spec fn spec_kind(&self) -> ErrorKind {
        match self {
            ExpressionError::InvalidAddress => ErrorKind::InvalidAddress,
            ExpressionError::ImplicationLHSMismatch(_, _) => ErrorKind::ImplicationLHSMismatch,
            ExpressionError::EquationLHSMismatch(_, _) => ErrorKind::EquationLHSMismatch,
            ExpressionError::ExpressionContainsVariable => ErrorKind::ExpressionContainsVariable,
            ExpressionError::PatternDoesNotMatch => ErrorKind::PatternDoesNotMatch,
            ExpressionError::NotAnEquation => ErrorKind::NotAnEquation,
            ExpressionError::NotAnImplication => ErrorKind::NotAnImplication,
            ExpressionError::NotAnAssocTrain => ErrorKind::NotAnAssocTrain,
            ExpressionError::NotAParentOfVariadic => ErrorKind::NotAParentOfVariadic,
            ExpressionError::InvalidRule => ErrorKind::InvalidRule,
        }
    }

    /// The kind of this error.
    #[verifier::when_used_as_spec(spec_kind)]
    pub fn kind(&self) -> (k: ErrorKind)
        ensures
            k == self.spec_kind(),
    {
        match self {
            ExpressionError::InvalidAddress => ErrorKind::InvalidAddress,
            ExpressionError::ImplicationLHSMismatch(_, _) => ErrorKind::ImplicationLHSMismatch,
            ExpressionError::EquationLHSMismatch(_, _) => ErrorKind::EquationLHSMismatch,
            ExpressionError::ExpressionContainsVariable => ErrorKind::ExpressionContainsVariable,
            ExpressionError::PatternDoesNotMatch => ErrorKind::PatternDoesNotMatch,
            ExpressionError::NotAnEquation => ErrorKind::NotAnEquation,
            ExpressionError::NotAnImplication => ErrorKind::NotAnImplication,
            ExpressionError::NotAnAssocTrain => ErrorKind::NotAnAssocTrain,
            ExpressionError::NotAParentOfVariadic => ErrorKind::NotAParentOfVariadic,
            ExpressionError::InvalidRule => ErrorKind::InvalidRule,
        }
    }
}

/// The model of a fallible result: the model of the expression, or the kind of
/// the error.
pub open spec fn outcome(r: Result<Expression, ExpressionError>) -> Result<ExpressionView, ErrorKind> {
    match r {
        Ok(e) => Ok(e@),
        Err(err) => Err(err.spec_kind()),
    }
}

impl ExpressionView {
    /// A node without children.
    pub open spec fn leaf(kind: ExpressionType, symbol: Seq<char>) -> ExpressionView {
        ExpressionView { kind, symbol, children: None }
    }

    /// A node with children.
    pub open spec fn node(kind: ExpressionType, symbol: Seq<char>, children: Seq<ExpressionView>) -> ExpressionView {
        ExpressionView { kind, symbol, children: Some(children) }
    }

    /// The same node with other children.
    pub open spec fn with_children(self, children: Seq<ExpressionView>) -> ExpressionView {
        ExpressionView { kind: self.kind, symbol: self.symbol, children: Some(children) }
    }

    /// The number of children; zero for a node that has no list of children.
    pub open spec fn arity(self) -> nat {
        match self.children {
            Some(cs) => cs.len(),
            None => 0,
        }
    }

    pub open spec fn is_operator(self) -> bool {
        self.kind == ExpressionType::OperatorUnary || self.kind == ExpressionType::OperatorBinary
            || self.kind == ExpressionType::OperatorNary || self.kind
            == ExpressionType::StatementOperatorBinary || self.kind == ExpressionType::AssocTrain
    }

    pub open spec fn is_assoc_train(self) -> bool {
        self.kind == ExpressionType::AssocTrain
    }

    /// An `AssocTrain` whose first child is a `Variadic` marker.
    pub open spec fn is_parent_of_variadic(self) -> bool {
        &&& self.is_assoc_train()
        &&& self.children is Some
        &&& self.arity() > 0
        &&& self.children->0[0].kind == ExpressionType::Variadic
    }

    pub open spec fn is_value(self) -> bool {
        self.kind == ExpressionType::ValueConst || self.kind == ExpressionType::ValueVar
    }

    pub open spec fn is_variable(self) -> bool {
        self.kind == ExpressionType::ValueVar
    }

    pub open spec fn is_constant(self) -> bool {
        self.kind == ExpressionType::ValueConst
    }

    pub open spec fn is_statement(self) -> bool {
        self.kind == ExpressionType::StatementOperatorBinary
    }

    /// The statement operator of a statement node whose symbol is one.
    pub open spec fn statement_operator(self) -> Option<StatementSymbols> {
        if self.is_statement() {
            StatementSymbols::of_symbol(self.symbol)
        } else {
            None
        }
    }

    /// A statement `lhs = rhs` with exactly two children.
    pub open spec fn is_equation(self) -> bool {
        &&& self.statement_operator() == Some(StatementSymbols::Equal)
        &&& self.children is Some
        &&& self.arity() == 2
    }

    /// A statement `premise => conclusion` with exactly two children.
    pub open spec fn is_implication(self) -> bool {
        &&& self.statement_operator() == Some(StatementSymbols::Implies)
        &&& self.children is Some
        &&& self.arity() == 2
    }

    /// Whether a `ValueVar` node occurs anywhere in the tree.
    pub open spec fn contains_variable(self) -> bool
        decreases self,
    {
        self.is_variable() || match self.children {
            None => false,
            Some(cs) => exists|i: int| 0 <= i < cs.len() && (#[trigger] cs[i]).contains_variable(),
        }
    }

    /// The length of the longest path from this node down to a leaf.
    pub open spec fn height(self) -> nat
        decreases self,
    {
        match self.children {
            None => 0,
            Some(cs) => 1 + Self::max_height(cs, cs.len()),
        }
    }

    /// The largest height among the first `n` of `cs`.
    pub open spec fn max_height(cs: Seq<ExpressionView>, n: nat) -> nat
        decreases cs, n,
    {
        if n == 0 || n > cs.len() {
            0
        } else {
            let h = cs[n - 1].height();
            let r = Self::max_height(cs, (n - 1) as nat);
            if h > r {
                h
            } else {
                r
            }
        }
    }
}

impl Expression {
    /// How the model of a node is made of the models of its children.
    pub proof fn lemma_view(&self)
        ensures
            self@.kind == self.exp_type,
            self@.symbol == self.symbol@,
            self@.children == match self.children {
                None => None::<Seq<ExpressionView>>,
                Some(v) => Some(views(v@)),
            },
    {
        match self.children {
            None => {},
            Some(v) => {
                assert(self@.children->0 =~= views(v@));
            },
        }
    }

    /// Puts the parts of a node together.
    pub fn from_parts(exp_type: ExpressionType, symbol: String, children: Option<Vec<Expression>>) -> (e:
        Expression)
        ensures
            e.exp_type == exp_type,
            e.symbol == symbol,
            e.children == children,
            e@.kind == exp_type,
            e@.symbol == symbol@,
            e@.children == match children {
                None => None::<Seq<ExpressionView>>,
                Some(v) => Some(views(v@)),
            },
    {
        let e = Expression { exp_type, symbol, children };
        proof {
            e.lemma_view();
        }
        e
    }

    /// Whether two expressions are the same tree.
    #[verifier::loop_isolation(false)]
    pub fn equals(&self, other: &Expression) -> (r: bool)
        ensures
            r == (self@ == other@),
        decreases self,
    {
        proof {
            self.lemma_view();
            other.lemma_view();
        }
        if self.exp_type != other.exp_type {
            return false;
        }
        if self.symbol != other.symbol {
            return false;
        }
        match &self.children {
            None => other.children.is_none(),
            Some(a) => match &other.children {
                None => false,
                Some(b) => {
                    if a.len() != b.len() {
                        assert(views(a@).len() != views(b@).len());
                        return false;
                    }
                    let mut i: usize = 0;
                    while i < a.len()
                        invariant
                            i <= a.len(),
                            a.len() == b.len(),
                            forall|j: int| 0 <= j < i ==> a@[j]@ == b@[j]@,
                        decreases a.len() - i,
                    {
                        if !a[i].equals(&b[i]) {
                            assert(views(a@)[i as int] != views(b@)[i as int]);
                            return false;
                        }
                        i += 1;
                    }
                    assert(views(a@) =~= views(b@));
                    true
                },
            },
        }
    }

    pub fn is_operator(&self) -> (r: bool)
        ensures
            r == self@.is_operator(),
    {
        match self.exp_type {
            ExpressionType::OperatorUnary => true,
            ExpressionType::OperatorBinary => true,
            ExpressionType::OperatorNary => true,
            ExpressionType::StatementOperatorBinary => true,
            ExpressionType::AssocTrain => true,
            _ => false,
        }
    }

    pub fn is_assoc_train(&self) -> (r: bool)
        ensures
            r == self@.is_assoc_train(),
    {
        self.exp_type == ExpressionType::AssocTrain
    }

    pub fn is_parent_of_variadic(&self) -> (r: bool)
        ensures
            r == self@.is_parent_of_variadic(),
    {
        proof {
            self.lemma_view();
        }
        if !self.is_assoc_train() {
            return false;
        }
        match &self.children {
            Some(children) => {
                if children.len() > 0 {
                    children[0].exp_type == ExpressionType::Variadic
                } else {
                    false
                }
            },
            None => false,
        }
    }

    pub fn is_value(&self) -> (r: bool)
        ensures
            r == self@.is_value(),
    {
        self.exp_type == ExpressionType::ValueConst || self.exp_type == ExpressionType::ValueVar
    }

    pub fn is_variable(&self) -> (r: bool)
        ensures
            r == self@.is_variable(),
    {
        self.exp_type == ExpressionType::ValueVar
    }

    pub fn is_constant(&self) -> (r: bool)
        ensures
            r == self@.is_constant(),
    {
        self.exp_type == ExpressionType::ValueConst
    }

    pub fn is_statement(&self) -> (r: bool)
        ensures
            r == self@.is_statement(),
    {
        self.exp_type == ExpressionType::StatementOperatorBinary
    }

    /// The number of children; zero for a node that has no list of children.
    pub fn arity(&self) -> (n: usize)
        ensures
            n == self@.arity(),
    {
        proof {
            self.lemma_view();
        }
        match &self.children {
            Some(children) => children.len(),
            None => 0,
        }
    }

    pub fn is_equation(&self) -> (r: bool)
        ensures
            r == self@.is_equation(),
    {
        proof {
            self.lemma_view();
        }
        match self.identify_statement_operator() {
            Some(StatementSymbols::Equal) => self.children.is_some() && self.arity() == 2,
            _ => false,
        }
    }

    pub fn is_implication(&self) -> (r: bool)
        ensures
            r == self@.is_implication(),
    {
        proof {
            self.lemma_view();
        }
        match self.identify_statement_operator() {
            Some(StatementSymbols::Implies) => self.children.is_some() && self.arity() == 2,
            _ => false,
        }
    }

    pub fn identify_statement_operator(&self) -> (r: Option<StatementSymbols>)
        ensures
            r == self@.statement_operator(),
    {
        if !self.is_statement() {
            return None;
        }
        StatementSymbols::from_symbol(self.symbol.as_str())
    }

    #[verifier::loop_isolation(false)]
    pub fn is_contain_variable(&self) -> (r: bool)
        ensures
            r == self@.contains_variable(),
        decreases self,
    {
        proof {
            self.lemma_view();
        }
        if self.is_variable() {
            return true;
        }
        match &self.children {
            None => false,
            Some(children) => {
                let mut i: usize = 0;
                while i < children.len()
                    invariant
                        i <= children.len(),
                        self@.children == Some(views(children@)),
                        forall|j: int| 0 <= j < i ==> !(#[trigger] self@.children->0[j]).contains_variable(),
                    decreases children.len() - i,
                {
                    if children[i].is_contain_variable() {
                        assert(self@.children->0[i as int] == children[i as int]@);
                        assert(self@.children->0[i as int].contains_variable());
                        return true;
                    }
                    i += 1;
                }
                false
            },
        }
    }
}

impl Clone for Expression {
    #[verifier::loop_isolation(false)]
    fn clone(&self) -> (res: Self)
        ensures
            res@ == self@,
        decreases self,
    {
        proof {
            self.lemma_view();
        }
        let children = match &self.children {
            None => None,
            Some(v) => {
                let mut out: Vec<Expression> = Vec::new();
                let mut i: usize = 0;
                while i < v.len()
                    invariant
                        i <= v.len(),
                        out.len() == i,
                        forall|j: int| 0 <= j < i ==> out@[j]@ == v@[j]@,
                    decreases v.len() - i,
                {
                    let c = v[i].clone();
                    out.push(c);
                    i += 1;
                }
                assert(views(out@) =~= views(v@));
                Some(out)
            },
        };
        Expression::from_parts(self.exp_type, self.symbol.clone(), children)
    }
}

impl Default for Expression {
    fn default() -> (e: Expression)
        ensures
            e@ == ExpressionView::leaf(ExpressionType::ValueConst, Seq::empty()),
    {
        Expression::from_parts(ExpressionType::ValueConst, String::new(), None)
    }
}

} // verus!
