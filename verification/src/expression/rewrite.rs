//! Rewriting with equations and implications.

use vstd::prelude::*;

use crate::expression::Address;
use crate::expression::AddressView;
use crate::expression::ErrorKind;
use crate::expression::Expression;
use crate::expression::ExpressionError;
use crate::expression::ExpressionView;
use crate::expression::outcome;
use crate::expression::pattern::matches_view;

verus! {

/// How many rounds of matching and substitution an equation is given to
/// become one whose left side is the subject itself.
pub const LIMIT_OF_GROUNDING_PASSES: usize = 100;

/// The addresses of a list of matches.
pub open spec fn addresses_of(matches: Seq<(AddressView, Map<Seq<char>, ExpressionView>)>) -> Seq<AddressView> {
    Seq::new(matches.len(), |i: int| matches[i].0)
}

/// The models of a list of addresses.
pub open spec fn address_views(list: Seq<Address>) -> Seq<AddressView> {
    Seq::new(list.len(), |i: int| list[i]@)
}

impl ExpressionView {
    /// What this expression becomes under `equation`, read from left to
    /// right, within `passes` rounds of matching and substitution.
    ///
    /// Where the left side is this very expression, the result is the right
    /// side. Otherwise the left side is matched against this expression, the
    /// bindings are put into the whole equation, and the equation so grounded
    /// is tried again.
    pub open spec fn apply_equation_within(self, equation: ExpressionView, passes: nat) -> Result<
        ExpressionView,
        ErrorKind,
    >
        decreases passes,
    {
        if !equation.is_equation() {
            Err(ErrorKind::NotAnEquation)
        } else if equation.children->0[0] == self {
            Ok(equation.children->0[1])
        } else if passes == 0 {
            Err(ErrorKind::PatternDoesNotMatch)
        } else {
            match self.match_pattern(equation.children->0[0]) {
                None => Err(ErrorKind::PatternDoesNotMatch),
                Some(m) => self.apply_equation_within(equation.apply_map(m), (passes - 1) as nat),
            }
        }
    }

    /// What this expression becomes under `equation`, read from left to
    /// right.
    pub open spec fn apply_equation(self, equation: ExpressionView) -> Result<ExpressionView, ErrorKind> {
        self.apply_equation_within(equation, LIMIT_OF_GROUNDING_PASSES as nat)
    }

    /// The tree in which the node at `address`, or the pair there, has been
    /// rewritten with `equation`.
    pub open spec fn apply_equation_at(self, equation: ExpressionView, address: AddressView) -> Result<
        ExpressionView,
        ErrorKind,
    > {
        match self.at(address.path) {
            None => Err(ErrorKind::InvalidAddress),
            Some(node) => match address.sub {
                None => match node.apply_equation(equation) {
                    Err(e) => Err(e),
                    Ok(new_node) => self.replace(new_node, address.path, address.sub),
                },
                Some(i) => match node.subexpr_from_train(i) {
                    Err(e) => Err(e),
                    Ok(pair) => match pair.apply_equation(equation) {
                        Err(e) => Err(e),
                        Ok(new_node) => self.replace(new_node, address.path, address.sub),
                    },
                },
            },
        }
    }

    /// The conclusion of a variable-free implication whose premise is this
    /// very expression.
    pub open spec fn apply_ground_implication(self, implication: ExpressionView) -> Result<
        ExpressionView,
        ErrorKind,
    > {
        if !implication.is_implication() {
            Err(ErrorKind::NotAnImplication)
        } else if implication.children->0[0] == self {
            Ok(implication.children->0[1])
        } else {
            Err(ErrorKind::ImplicationLHSMismatch)
        }
    }

    /// The implication as it is held against this expression: itself where
    /// it is variable-free, and else with the bindings put in under which its
    /// premise matches this expression.
    pub open spec fn grounded_implication(self, implication: ExpressionView) -> ExpressionView {
        if !implication.contains_variable() {
            implication
        } else {
            match self.match_pattern(implication.children->0[0]) {
                None => implication,
                Some(m) => implication.apply_map(m),
            }
        }
    }

    /// What follows from this expression by `implication`.
    ///
    /// A variable-free implication must have this very expression as its
    /// premise. Any other is matched against this expression by its premise,
    /// and must be variable-free once the bindings are put in.
    pub open spec fn apply_implication(self, implication: ExpressionView) -> Result<ExpressionView, ErrorKind> {
        if !implication.is_implication() {
            Err(ErrorKind::NotAnImplication)
        } else if !implication.contains_variable() {
            self.apply_ground_implication(implication)
        } else {
            match self.match_pattern(implication.children->0[0]) {
                None => Err(ErrorKind::PatternDoesNotMatch),
                Some(m) => {
                    let grounded = implication.apply_map(m);
                    if grounded.contains_variable() {
                        Err(ErrorKind::ExpressionContainsVariable)
                    } else {
                        self.apply_ground_implication(grounded)
                    }
                },
            }
        }
    }

    /// Where the left side of `equation` matches in this tree.
    pub open spec fn equation_addresses(self, equation: ExpressionView) -> Seq<AddressView> {
        if !equation.is_equation() {
            Seq::empty()
        } else {
            addresses_of(self.matches_from(equation.children->0[0], Seq::empty()))
        }
    }
}

/// Whether `r`, where it is the error of an implication whose premise is
/// another expression than `subject`, carries the two as they are printed:
/// the premise of the implication as it was held against the subject, and
/// the subject.
pub open spec fn tells_the_mismatch(
    r: Result<Expression, ExpressionError>,
    subject: ExpressionView,
    implication: ExpressionView,
) -> bool {
    match r {
        Err(ExpressionError::ImplicationLHSMismatch(expected, got)) => {
            &&& expected@ == subject.grounded_implication(implication).children->0[0].display(true)
            &&& got@ == subject.display(true)
        },
        _ => true,
    }
}

impl Expression {
    pub fn apply_equation_this_node(&self, equation: &Expression) -> (r: Result<Expression, ExpressionError>)
        ensures
            outcome(r) == self@.apply_equation(equation@),
    {
        self.apply_equation_ltr_this_node(equation)
    }

    /// What this expression becomes under `equation` read from right to
    /// left.
    pub fn apply_equation_rtl_this_node(&self, equation: &Expression) -> (r: Result<
        Expression,
        ExpressionError,
    >)
        ensures
            outcome(r) == self@.apply_equation(equation@.flip_equation()),
    {
        self.apply_equation_ltr_this_node(&equation.flip_equation())
    }

    /// What this expression becomes under `equation` read from left to
    /// right: the right side, with the bindings under which the left side is
    /// this expression.
    pub fn apply_equation_ltr_this_node(&self, equation: &Expression) -> (r: Result<
        Expression,
        ExpressionError,
    >)
        ensures
            outcome(r) == self@.apply_equation(equation@),
    {
        self.apply_equation_bounded(equation, LIMIT_OF_GROUNDING_PASSES)
    }

    fn apply_equation_bounded(&self, equation: &Expression, passes: usize) -> (r: Result<
        Expression,
        ExpressionError,
    >)
        ensures
            outcome(r) == self@.apply_equation_within(equation@, passes as nat),
        decreases passes,
    {
        proof {
            equation.lemma_view();
        }
        if !equation.is_equation() {
            return Err(ExpressionError::NotAnEquation);
        }
        let eq_children = match &equation.children {
            None => {
                return Err(ExpressionError::InvalidAddress);
            },
            Some(c) => c,
        };
        let lhs = &eq_children[0];
        if lhs.equals(self) {
            return Ok(eq_children[1].clone());
        }
        if passes == 0 {
            return Err(ExpressionError::PatternDoesNotMatch);
        }
        let match_map = match self.pattern_match_this_node(lhs) {
            None => {
                return Err(ExpressionError::PatternDoesNotMatch);
            },
            Some(m) => m,
        };
        let grounded = equation.apply_match_map(&match_map);
        self.apply_equation_bounded(&grounded, passes - 1)
    }

    pub fn apply_equation_at(&self, equation: &Expression, addr: &Address) -> (r: Result<
        Expression,
        ExpressionError,
    >)
        ensures
            outcome(r) == self@.apply_equation_at(equation@, addr@),
    {
        self.apply_equation_ltr_at(equation, addr)
    }

    /// The tree in which the node at `addr`, or the pair there, has been
    /// rewritten with `equation` read from right to left.
    pub fn apply_equation_rtl_at(&self, equation: &Expression, addr: &Address) -> (r: Result<
        Expression,
        ExpressionError,
    >)
        ensures
            outcome(r) == self@.apply_equation_at(equation@.flip_equation(), addr@),
    {
        self.apply_equation_ltr_at(&equation.flip_equation(), addr)
    }

    /// The tree in which the node at `addr`, or the pair there, has been
    /// rewritten with `equation` read from left to right.
    pub fn apply_equation_ltr_at(&self, equation: &Expression, addr: &Address) -> (r: Result<
        Expression,
        ExpressionError,
    >)
        ensures
            outcome(r) == self@.apply_equation_at(equation@, addr@),
    {
        let expr = match self.at(addr) {
            Ok(e) => e,
            Err(err) => {
                return Err(err);
            },
        };
        match addr.sub {
            None => {
                let new_expr = match expr.apply_equation_this_node(equation) {
                    Ok(e) => e,
                    Err(err) => {
                        return Err(err);
                    },
                };
                self.replace_expression_at(new_expr, addr)
            },
            Some(sub) => {
                let subexpr = match expr.generate_subexpr_from_train(sub) {
                    Ok(e) => e,
                    Err(err) => {
                        return Err(err);
                    },
                };
                let new_expr = match subexpr.apply_equation_this_node(equation) {
                    Ok(e) => e,
                    Err(err) => {
                        return Err(err);
                    },
                };
                self.replace_expression_at(new_expr, addr)
            },
        }
    }

    /// Where the left side of `equation` matches in this tree, in the order
    /// of the search: a node, then its pairs, then its children.
    pub fn get_possible_equation_application_addresses(&self, equation: &Expression) -> (r: Vec<Address>)
        ensures
            address_views(r@) == self@.equation_addresses(equation@),
    {
        proof {
            equation.lemma_view();
        }
        let mut out: Vec<Address> = Vec::new();
        if !equation.is_equation() {
            assert(address_views(out@) =~= Seq::<AddressView>::empty());
            return out;
        }
        let lhs = match &equation.children {
            None => {
                assert(address_views(out@) =~= Seq::<AddressView>::empty());
                return out;
            },
            Some(c) => &c[0],
        };
        let pattern_matches = self.get_pattern_matches(lhs);
        let mut i: usize = 0;
        while i < pattern_matches.len()
            invariant
                i <= pattern_matches.len(),
                out.len() == i,
                forall|j: int| 0 <= j < i ==> (#[trigger] out@[j])@ == pattern_matches@[j].0@,
            decreases pattern_matches.len() - i,
        {
            out.push(pattern_matches[i].0.clone());
            i += 1;
        }
        assert(address_views(out@) =~= addresses_of(matches_view(pattern_matches@)));
        out
    }

    /// The conclusion of a variable-free implication whose premise is this
    /// very expression.
    fn apply_ground_implication(&self, implication: &Expression) -> (r: Result<Expression, ExpressionError>)
        ensures
            outcome(r) == self@.apply_ground_implication(implication@),
            match r {
                Err(ExpressionError::ImplicationLHSMismatch(expected, got)) => {
                    &&& implication@.is_implication()
                    &&& expected@ == implication@.children->0[0].display(true)
                    &&& got@ == self@.display(true)
                },
                _ => true,
            },
    {
        proof {
            implication.lemma_view();
        }
        if !implication.is_implication() {
            return Err(ExpressionError::NotAnImplication);
        }
        let impl_children = match &implication.children {
            None => {
                return Err(ExpressionError::InvalidAddress);
            },
            Some(c) => c,
        };
        let lhs = &impl_children[0];
        if !lhs.equals(self) {
            return Err(ExpressionError::ImplicationLHSMismatch(lhs.to_string(true), self.to_string(true)));
        }
        Ok(impl_children[1].clone())
    }

    /// What follows from this expression by `implication`: its conclusion,
    /// with the bindings under which its premise is this expression. Where
    /// the premise is another expression, the error carries the premise and
    /// this expression as they are printed.
    pub fn apply_implication(&self, implication: &Expression) -> (r: Result<Expression, ExpressionError>)
        ensures
            outcome(r) == self@.apply_implication(implication@),
            tells_the_mismatch(r, self@, implication@),
    {
        proof {
            implication.lemma_view();
        }
        if !implication.is_implication() {
            return Err(ExpressionError::NotAnImplication);
        }
        if !implication.is_contain_variable() {
            return self.apply_ground_implication(implication);
        }
        let impl_children = match &implication.children {
            None => {
                return Err(ExpressionError::InvalidAddress);
            },
            Some(c) => c,
        };
        let match_map = match self.pattern_match_this_node(&impl_children[0]) {
            None => {
                return Err(ExpressionError::PatternDoesNotMatch);
            },
            Some(m) => m,
        };
        let grounded = implication.apply_match_map(&match_map);
        if grounded.is_contain_variable() {
            return Err(ExpressionError::ExpressionContainsVariable);
        }
        self.apply_ground_implication(&grounded)
    }
}

} // verus!
