//! Normal forms of trains of an associative operator.

use vstd::prelude::*;

use crate::expression::Expression;
use crate::expression::ExpressionType;
use crate::expression::ExpressionView;
use crate::expression::context::list_contains;
use crate::expression::views;
use crate::text::strings_view;

verus! {

impl ExpressionView {
    /// Whether a child is a train of `symbol` that a train of `symbol`
    /// takes the children of.
    pub open spec fn absorbed_by(self, symbol: Seq<char>) -> bool {
        self.is_assoc_train() && self.symbol == symbol && self.children is Some
    }

    /// The first `n` of `cs`, with every train of `symbol` among them
    /// replaced by its children.
    pub open spec fn flatten_upto(cs: Seq<ExpressionView>, symbol: Seq<char>, n: nat) -> Seq<ExpressionView>
        decreases n,
    {
        if n == 0 || n > cs.len() {
            Seq::empty()
        } else {
            Self::flatten_upto(cs, symbol, (n - 1) as nat) + (if cs[n - 1].absorbed_by(symbol) {
                cs[n - 1].children->0
            } else {
                seq![cs[n - 1]]
            })
        }
    }

    /// The children, each brought to train form.
    pub open spec fn train_children(self, assoc_ops: Seq<Seq<char>>) -> Seq<ExpressionView>
        decreases self, 0nat,
    {
        match self.children {
            None => Seq::empty(),
            Some(cs) => Seq::new(
                cs.len(),
                |i: int|
                    if 0 <= i < cs.len() {
                        cs[i].to_assoc_train(assoc_ops)
                    } else {
                        self
                    },
            ),
        }
    }

    /// The tree in which every nest of applications of one associative
    /// operator is a single train, its operands in their order from left to
    /// right.
    pub open spec fn to_assoc_train(self, assoc_ops: Seq<Seq<char>>) -> ExpressionView
        decreases self, 1nat,
    {
        if self.children is None {
            self
        } else if !assoc_ops.contains(self.symbol) {
            self.with_children(self.train_children(assoc_ops))
        } else {
            let ns = self.train_children(assoc_ops);
            ExpressionView::node(
                ExpressionType::AssocTrain,
                self.symbol,
                Self::flatten_upto(ns, self.symbol, ns.len()),
            )
        }
    }

    /// The tree in which every train of two children whose operator is in
    /// `binary_ops` is a binary operator.
    pub open spec fn pairs_to_binary(self, binary_ops: Seq<Seq<char>>) -> ExpressionView
        decreases self,
    {
        match self.children {
            None => self,
            Some(cs) => ExpressionView {
                kind: if self.is_assoc_train() && cs.len() == 2 && binary_ops.contains(self.symbol) {
                    ExpressionType::OperatorBinary
                } else {
                    self.kind
                },
                symbol: self.symbol,
                children: Some(
                    Seq::new(
                        cs.len(),
                        |i: int|
                            if 0 <= i < cs.len() {
                                cs[i].pairs_to_binary(binary_ops)
                            } else {
                                self
                            },
                    ),
                ),
            },
        }
    }

    /// The tree in which every train of a single child is that child.
    pub open spec fn collapse_single(self) -> ExpressionView
        decreases self,
    {
        match self.children {
            None => self,
            Some(cs) => if self.is_assoc_train() && cs.len() == 1 {
                cs[0].collapse_single()
            } else {
                self.with_children(
                    Seq::new(
                        cs.len(),
                        |i: int|
                            if 0 <= i < cs.len() {
                                cs[i].collapse_single()
                            } else {
                                self
                            },
                    ),
                )
            },
        }
    }
}

impl Expression {
    /// Groups every nest of applications of one associative operator into a
    /// single train: `((1 + 2) + 3)` becomes `+(1, 2, 3)`.
    #[verifier::loop_isolation(false)]
    pub fn normalize_to_assoc_train(&self, assoc_ops: &Vec<String>) -> (r: Expression)
        ensures
            r@ == self@.to_assoc_train(strings_view(assoc_ops@)),
        decreases self,
    {
        proof {
            self.lemma_view();
        }
        let ghost ops = strings_view(assoc_ops@);
        let children = match &self.children {
            None => {
                return self.clone();
            },
            Some(c) => c,
        };
        let ghost ns = self@.train_children(ops);
        let absorb = list_contains(assoc_ops, self.symbol.as_str());
        let mut out: Vec<Expression> = Vec::new();
        let mut i: usize = 0;
        assert(views(out@) =~= ExpressionView::flatten_upto(ns, self@.symbol, 0));
        while i < children.len()
            invariant
                i <= children.len(),
                absorb ==> views(out@) == ExpressionView::flatten_upto(ns, self@.symbol, i as nat),
                !absorb ==> views(out@) == ns.take(i as int),
            decreases children.len() - i,
        {
            let normalized_child = children[i].normalize_to_assoc_train(assoc_ops);
            let ghost before = out@;
            let ghost c = normalized_child@;
            assert(c == ns[i as int]);
            proof {
                normalized_child.lemma_view();
            }
            if absorb && normalized_child.is_assoc_train() && normalized_child.symbol == self.symbol
                && normalized_child.children.is_some() {
                let Expression { exp_type: _, symbol: _, children: grand } = normalized_child;
                let mut grand = grand.unwrap();
                let ghost added = grand@;
                out.append(&mut grand);
                assert(views(out@) =~= views(before) + views(added));
            } else {
                out.push(normalized_child);
                assert(views(out@) =~= views(before).push(c));
                assert(views(before).push(c) =~= views(before) + seq![c]);
                assert(ns.take(i + 1) =~= ns.take(i as int).push(c));
            }
            i += 1;
        }
        if absorb {
            Expression::from_parts(ExpressionType::AssocTrain, self.symbol.clone(), Some(out))
        } else {
            assert(ns.take(i as int) =~= ns);
            Expression::from_parts(self.exp_type, self.symbol.clone(), Some(out))
        }
    }

    /// Turns every train of two children whose operator is in `binary_ops`
    /// into a binary operator.
    #[verifier::loop_isolation(false)]
    pub fn normalize_two_children_assoc_train_to_binary_op(&self, binary_ops: &Vec<String>) -> (r: Expression)
        ensures
            r@ == self@.pairs_to_binary(strings_view(binary_ops@)),
        decreases self,
    {
        proof {
            self.lemma_view();
        }
        let ghost ops = strings_view(binary_ops@);
        let children = match &self.children {
            None => {
                return self.clone();
            },
            Some(c) => c,
        };
        let mut out: Vec<Expression> = Vec::new();
        let mut i: usize = 0;
        while i < children.len()
            invariant
                i <= children.len(),
                out.len() == i,
                forall|j: int| 0 <= j < i ==> (#[trigger] out@[j])@ == children@[j]@.pairs_to_binary(ops),
            decreases children.len() - i,
        {
            out.push(children[i].normalize_two_children_assoc_train_to_binary_op(binary_ops));
            i += 1;
        }
        assert(views(out@) =~= self@.pairs_to_binary(ops).children->0);
        let kind = if self.is_assoc_train() && children.len() == 2 && list_contains(
            binary_ops,
            self.symbol.as_str(),
        ) {
            ExpressionType::OperatorBinary
        } else {
            self.exp_type
        };
        let r = Expression::from_parts(kind, self.symbol.clone(), Some(out));
        assert(r@.children =~= self@.pairs_to_binary(ops).children);
        r
    }

    /// Replaces every train of a single child by that child.
    #[verifier::loop_isolation(false)]
    pub fn normalize_single_children_assoc_train(&self) -> (r: Expression)
        ensures
            r@ == self@.collapse_single(),
        decreases self,
    {
        proof {
            self.lemma_view();
        }
        let children = match &self.children {
            None => {
                return self.clone();
            },
            Some(c) => c,
        };
        if self.is_assoc_train() && children.len() == 1 {
            return children[0].normalize_single_children_assoc_train();
        }
        let mut out: Vec<Expression> = Vec::new();
        let mut i: usize = 0;
        while i < children.len()
            invariant
                i <= children.len(),
                out.len() == i,
                forall|j: int| 0 <= j < i ==> (#[trigger] out@[j])@ == children@[j]@.collapse_single(),
            decreases children.len() - i,
        {
            out.push(children[i].normalize_single_children_assoc_train());
            i += 1;
        }
        assert(views(out@) =~= self@.collapse_single().children->0);
        let r = Expression::from_parts(self.exp_type, self.symbol.clone(), Some(out));
        assert(r@.children =~= self@.collapse_single().children);
        r
    }
}

} // verus!
