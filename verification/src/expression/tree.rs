//! Reading and rebuilding parts of an expression tree: descent by address,
//! virtual pairs inside a train, replacement, renaming and the like.

use vstd::prelude::*;

use crate::expression::Address;
use crate::expression::ErrorKind;
use crate::expression::Expression;
use crate::expression::ExpressionError;
use crate::expression::ExpressionType;
use crate::expression::ExpressionView;
use crate::expression::outcome;
use crate::expression::views;
use crate::text::contains_str;

verus! {

/// The set of the strings in `list`.
pub open spec fn string_set(list: Seq<String>) -> Set<Seq<char>> {
    Set::new(|s: Seq<char>| exists|i: int| 0 <= i < list.len() && (#[trigger] list[i])@ == s)
}

/// The symbols to leave alone, as a set.
pub open spec fn excluded(list: Option<&Vec<String>>) -> Option<Set<Seq<char>>> {
    match list {
        None => None,
        Some(v) => Some(string_set(v@)),
    }
}

/// The symbols of a list of nodes.
pub open spec fn symbols_of(nodes: Seq<ExpressionView>) -> Seq<Seq<char>> {
    Seq::new(nodes.len(), |i: int| nodes[i].symbol)
}

impl ExpressionView {
    /// The node reached from here by following `path`.
    pub open spec fn at(self, path: Seq<usize>) -> Option<ExpressionView>
        decreases path.len(),
    {
        if path.len() == 0 {
            Some(self)
        } else if self.children is None || path[0] >= self.arity() {
            None
        } else {
            self.children->0[path[0] as int].at(path.drop_first())
        }
    }

    /// The binary node that groups children `i` and `i + 1` of a train.
    pub open spec fn pair(self, i: int) -> ExpressionView {
        ExpressionView::node(
            ExpressionType::OperatorBinary,
            self.symbol,
            seq![self.children->0[i], self.children->0[i + 1]],
        )
    }

    /// The virtual pair at `i`, or why there is none.
    pub open spec fn subexpr_from_train(self, i: usize) -> Result<ExpressionView, ErrorKind> {
        if !self.is_assoc_train() {
            Err(ErrorKind::NotAnAssocTrain)
        } else if i + 1 >= self.arity() {
            Err(ErrorKind::InvalidAddress)
        } else {
            Ok(self.pair(i as int))
        }
    }

    /// The train with children `i` and `i + 1` replaced by the single child
    /// `new`, or why that cannot be done.
    pub open spec fn splice(self, new: ExpressionView, i: usize) -> Result<ExpressionView, ErrorKind> {
        if !self.is_assoc_train() {
            Err(ErrorKind::NotAnAssocTrain)
        } else if i + 1 >= self.arity() {
            Err(ErrorKind::InvalidAddress)
        } else {
            let cs = self.children->0;
            Ok(self.with_children(cs.subrange(0, i as int).push(new) + cs.subrange(i + 2, cs.len() as int)))
        }
    }

    /// The tree with the node at `path` (or, with `sub`, the pair there)
    /// replaced by `new`.
    pub open spec fn replace(self, new: ExpressionView, path: Seq<usize>, sub: Option<usize>) -> Result<
        ExpressionView,
        ErrorKind,
    >
        decreases path.len(),
    {
        if path.len() == 0 {
            match sub {
                None => Ok(new),
                Some(i) => self.splice(new, i),
            }
        } else if self.children is None || path[0] >= self.arity() {
            Err(ErrorKind::InvalidAddress)
        } else {
            let cs = self.children->0;
            match cs[path[0] as int].replace(new, path.drop_first(), sub) {
                Err(e) => Err(e),
                Ok(c) => Ok(self.with_children(cs.update(path[0] as int, c))),
            }
        }
    }

    /// The train with children `i` and `j` exchanged, or why that cannot be
    /// done.
    pub open spec fn swap_children(self, i: usize, j: usize) -> Result<ExpressionView, ErrorKind> {
        if !self.is_assoc_train() {
            Err(ErrorKind::NotAnAssocTrain)
        } else if i >= self.arity() || j >= self.arity() {
            Err(ErrorKind::InvalidAddress)
        } else {
            let cs = self.children->0;
            Ok(self.with_children(cs.update(i as int, cs[j as int]).update(j as int, cs[i as int])))
        }
    }

    /// The tree with every node whose symbol is `from` given the symbol `to`.
    pub open spec fn substitute_symbol(self, from: Seq<char>, to: Seq<char>) -> ExpressionView
        decreases self,
    {
        ExpressionView {
            kind: self.kind,
            symbol: if self.symbol == from {
                to
            } else {
                self.symbol
            },
            children: match self.children {
                None => None,
                Some(cs) => Some(
                    Seq::new(
                        cs.len(),
                        |i: int|
                            if 0 <= i < cs.len() {
                                cs[i].substitute_symbol(from, to)
                            } else {
                                self
                            },
                    ),
                ),
            },
        }
    }

    /// The variable nodes of the tree from left to right, without those whose
    /// symbol is in `skip`. The search does not look below a variable.
    pub open spec fn collect_var(self, skip: Option<Set<Seq<char>>>) -> Seq<ExpressionView>
        decreases self, 0nat,
    {
        if self.is_variable() {
            if skip is Some && skip->0.contains(self.symbol) {
                Seq::empty()
            } else {
                seq![self]
            }
        } else {
            match self.children {
                None => Seq::empty(),
                Some(cs) => Self::collect_var_upto(cs, cs.len(), skip),
            }
        }
    }

    /// The variables of the first `n` of `cs`, in order.
    pub open spec fn collect_var_upto(cs: Seq<ExpressionView>, n: nat, skip: Option<Set<Seq<char>>>) -> Seq<
        ExpressionView,
    >
        decreases cs, n,
    {
        if n == 0 || n > cs.len() {
            Seq::empty()
        } else {
            Self::collect_var_upto(cs, (n - 1) as nat, skip) + cs[n - 1].collect_var(skip)
        }
    }

    /// A leaf becomes a train of itself; any other node becomes a train of
    /// its children.
    pub open spec fn turn_into_assoc_train(self, symbol: Seq<char>) -> ExpressionView {
        ExpressionView {
            kind: ExpressionType::AssocTrain,
            symbol,
            children: match self.children {
                None => Some(seq![self]),
                Some(cs) => Some(cs),
            },
        }
    }

    /// An equation with its sides exchanged; anything else unchanged.
    pub open spec fn flip_equation(self) -> ExpressionView {
        if self.is_equation() {
            self.with_children(seq![self.children->0[1], self.children->0[0]])
        } else {
            self
        }
    }

    /// The left side of an equation.
    pub open spec fn lhs(self) -> Option<ExpressionView> {
        if self.is_equation() {
            Some(self.children->0[0])
        } else {
            None
        }
    }

    /// The right side of an equation.
    pub open spec fn rhs(self) -> Option<ExpressionView> {
        if self.is_equation() {
            Some(self.children->0[1])
        } else {
            None
        }
    }
}

/// The first `n` children are no higher than the highest of them.
pub proof fn lemma_max_height(cs: Seq<ExpressionView>, n: nat, i: int)
    requires
        0 <= i < n <= cs.len(),
    ensures
        cs[i].height() <= ExpressionView::max_height(cs, n),
    decreases n,
{
    if i < n - 1 {
        lemma_max_height(cs, (n - 1) as nat, i);
    }
}

/// A child is strictly lower than its parent.
pub proof fn lemma_child_height(e: ExpressionView, i: int)
    requires
        e.children is Some,
        0 <= i < e.arity(),
    ensures
        e.children->0[i].height() < e.height(),
{
    lemma_max_height(e.children->0, e.arity(), i);
}

/// Two lists of equally high nodes have the same greatest height.
pub proof fn lemma_max_height_pointwise(a: Seq<ExpressionView>, b: Seq<ExpressionView>, n: nat)
    requires
        a.len() == b.len(),
        n <= a.len(),
        forall|i: int| 0 <= i < n ==> (#[trigger] a[i]).height() == b[i].height(),
    ensures
        ExpressionView::max_height(a, n) == ExpressionView::max_height(b, n),
    decreases n,
{
    if n > 0 {
        lemma_max_height_pointwise(a, b, (n - 1) as nat);
        assert(a[n - 1].height() == b[n - 1].height());
    }
}

/// Renaming symbols does not change the height of a tree.
pub proof fn lemma_substitute_height(e: ExpressionView, from: Seq<char>, to: Seq<char>)
    ensures
        e.substitute_symbol(from, to).height() == e.height(),
    decreases e,
{
    match e.children {
        None => {},
        Some(cs) => {
            let r = e.substitute_symbol(from, to);
            let rs = r.children->0;
            assert forall|i: int| 0 <= i < cs.len() implies (#[trigger] rs[i]).height() == cs[i].height() by {
                lemma_substitute_height(cs[i], from, to);
            }
            lemma_max_height_pointwise(rs, cs, cs.len());
        },
    }
}

/// Copies a list of expressions.
pub fn clone_children(v: &Vec<Expression>) -> (out: Vec<Expression>)
    ensures
        views(out@) == views(v@),
{
    let mut out: Vec<Expression> = Vec::new();
    let mut i: usize = 0;
    while i < v.len()
        invariant
            i <= v.len(),
            out.len() == i,
            forall|j: int| 0 <= j < i ==> out@[j]@ == v@[j]@,
        decreases v.len() - i,
    {
        out.push(v[i].clone());
        i += 1;
    }
    assert(views(out@) =~= views(v@));
    out
}

impl Expression {
    /// The node reached from here by following the path of `address`. The
    /// sub index is not looked at.
    pub fn at(&self, address: &Address) -> (r: Result<&Expression, ExpressionError>)
        ensures
            match r {
                Ok(e) => self@.at(address@.path) == Some(e@),
                Err(err) => self@.at(address@.path) is None && err.spec_kind() == ErrorKind::InvalidAddress,
            },
    {
        let mut node: &Expression = self;
        let mut i: usize = 0;
        proof {
            assert(address@.path.skip(0) =~= address@.path);
        }
        while i < address.path.len()
            invariant
                i <= address.path.len(),
                self@.at(address@.path) == node@.at(address@.path.skip(i as int)),
            decreases address.path.len() - i,
        {
            let index = address.path[i];
            proof {
                node.lemma_view();
                assert(address@.path.skip(i as int).drop_first() =~= address@.path.skip(i + 1));
            }
            match &node.children {
                None => {
                    return Err(ExpressionError::InvalidAddress);
                },
                Some(children) => {
                    if index >= children.len() {
                        return Err(ExpressionError::InvalidAddress);
                    }
                    node = &children[index];
                },
            }
            i += 1;
        }
        Ok(node)
    }

    /// The binary node that groups children `sub_address` and
    /// `sub_address + 1` of this train.
    pub fn generate_subexpr_from_train(&self, sub_address: usize) -> (r: Result<Expression, ExpressionError>)
        ensures
            outcome(r) == self@.subexpr_from_train(sub_address),
    {
        proof {
            self.lemma_view();
        }
        if !self.is_assoc_train() {
            return Err(ExpressionError::NotAnAssocTrain);
        }
        match &self.children {
            None => Err(ExpressionError::InvalidAddress),
            Some(children) => {
                if sub_address >= children.len() || sub_address + 1 >= children.len() {
                    return Err(ExpressionError::InvalidAddress);
                }
                let lhs = children[sub_address].clone();
                let rhs = children[sub_address + 1].clone();
                let mut pair: Vec<Expression> = Vec::new();
                pair.push(lhs);
                pair.push(rhs);
                assert(views(pair@) =~= seq![self@.children->0[sub_address as int], self@.children->0[sub_address + 1]]);
                Ok(Expression::from_parts(ExpressionType::OperatorBinary, self.symbol.clone(), Some(pair)))
            },
        }
    }

    /// This train with children `sub_address` and `sub_address + 1` replaced
    /// by the single child `new_expr`.
    fn replace_expression_at_train(&self, new_expr: Expression, sub_address: usize) -> (r: Result<
        Expression,
        ExpressionError,
    >)
        ensures
            outcome(r) == self@.splice(new_expr@, sub_address),
    {
        proof {
            self.lemma_view();
        }
        if !self.is_assoc_train() {
            return Err(ExpressionError::NotAnAssocTrain);
        }
        match &self.children {
            None => Err(ExpressionError::InvalidAddress),
            Some(children) => {
                let n = children.len();
                if sub_address >= n || sub_address + 1 >= n {
                    return Err(ExpressionError::InvalidAddress);
                }
                let ghost cs = views(children@);
                let ghost target = cs.subrange(0, sub_address as int).push(new_expr@) + cs.subrange(
                    sub_address + 2,
                    cs.len() as int,
                );
                let mut out: Vec<Expression> = Vec::new();
                let mut i: usize = 0;
                while i < sub_address
                    invariant
                        i <= sub_address < n,
                        n == children.len(),
                        cs == views(children@),
                        out.len() == i,
                        forall|j: int| 0 <= j < i ==> out@[j]@ == cs[j],
                    decreases sub_address - i,
                {
                    out.push(children[i].clone());
                    i += 1;
                }
                out.push(new_expr);
                let mut k: usize = sub_address + 2;
                while k < n
                    invariant
                        sub_address + 2 <= k <= n,
                        n == children.len(),
                        cs == views(children@),
                        out.len() == k - 1,
                        forall|j: int| 0 <= j < sub_address ==> out@[j]@ == cs[j],
                        out@[sub_address as int]@ == new_expr@,
                        forall|j: int| sub_address < j < k - 1 ==> out@[j]@ == cs[j + 1],
                    decreases n - k,
                {
                    out.push(children[k].clone());
                    k += 1;
                }
                assert(views(out@) =~= target);
                Ok(Expression::from_parts(self.exp_type, self.symbol.clone(), Some(out)))
            },
        }
    }

    /// A new tree in which the node at `addr` (or, with a sub index, the pair
    /// there) is `new_expr`. This tree is left as it is.
    pub fn replace_expression_at(&self, new_expr: Expression, addr: &Address) -> (r: Result<
        Expression,
        ExpressionError,
    >)
        ensures
            outcome(r) == self@.replace(new_expr@, addr@.path, addr@.sub),
    {
        proof {
            assert(addr@.path.skip(0) =~= addr@.path);
        }
        self.replace_below(new_expr, addr, 0)
    }

    fn replace_below(&self, new_expr: Expression, addr: &Address, depth: usize) -> (r: Result<
        Expression,
        ExpressionError,
    >)
        requires
            depth <= addr.path.len(),
        ensures
            outcome(r) == self@.replace(new_expr@, addr@.path.skip(depth as int), addr@.sub),
        decreases addr.path.len() - depth,
    {
        proof {
            self.lemma_view();
        }
        if depth == addr.path.len() {
            return match addr.sub {
                None => Ok(new_expr),
                Some(sub) => self.replace_expression_at_train(new_expr, sub),
            };
        }
        let head = addr.path[depth];
        proof {
            assert(addr@.path.skip(depth as int).drop_first() =~= addr@.path.skip(depth + 1));
            assert(addr@.path.skip(depth as int)[0] == head);
        }
        match &self.children {
            None => Err(ExpressionError::InvalidAddress),
            Some(children) => {
                if head >= children.len() {
                    return Err(ExpressionError::InvalidAddress);
                }
                match children[head].replace_below(new_expr, addr, depth + 1) {
                    Err(err) => Err(err),
                    Ok(new_child) => {
                        let ghost cs = views(children@);
                        let ghost c = new_child@;
                        let mut new_children = clone_children(children);
                        new_children.set(head, new_child);
                        assert(views(new_children@) =~= cs.update(head as int, c));
                        Ok(Expression::from_parts(self.exp_type, self.symbol.clone(), Some(new_children)))
                    },
                }
            },
        }
    }

    /// This train with children `index0` and `index1` exchanged.
    pub fn swap_assoc_train_children(&self, index0: usize, index1: usize) -> (r: Result<
        Expression,
        ExpressionError,
    >)
        ensures
            outcome(r) == self@.swap_children(index0, index1),
    {
        proof {
            self.lemma_view();
        }
        if !self.is_assoc_train() {
            return Err(ExpressionError::NotAnAssocTrain);
        }
        match &self.children {
            None => Err(ExpressionError::InvalidAddress),
            Some(children) => {
                if index0 >= children.len() || index1 >= children.len() {
                    return Err(ExpressionError::InvalidAddress);
                }
                let ghost cs = views(children@);
                let mut new_children = clone_children(children);
                let a = children[index0].clone();
                let b = children[index1].clone();
                new_children.set(index0, b);
                new_children.set(index1, a);
                assert(views(new_children@) =~= cs.update(index0 as int, cs[index1 as int]).update(
                    index1 as int,
                    cs[index0 as int],
                ));
                Ok(Expression::from_parts(self.exp_type, self.symbol.clone(), Some(new_children)))
            },
        }
    }

    /// The tree in which the train at `addr` has its children `index0` and
    /// `index1` exchanged.
    pub fn swap_assoc_train_children_at(&self, index0: usize, index1: usize, addr: &Address) -> (r: Result<
        Expression,
        ExpressionError,
    >)
        ensures
            outcome(r) == match self@.at(addr@.path) {
                None => Err(ErrorKind::InvalidAddress),
                Some(node) => match node.swap_children(index0, index1) {
                    Err(e) => Err(e),
                    Ok(swapped) => self@.replace(swapped, addr@.path, addr@.sub),
                },
            },
    {
        let expr = match self.at(addr) {
            Ok(e) => e,
            Err(err) => {
                return Err(err);
            },
        };
        let new_expr = match expr.swap_assoc_train_children(index0, index1) {
            Ok(e) => e,
            Err(err) => {
                return Err(err);
            },
        };
        self.replace_expression_at(new_expr, addr)
    }

    /// The tree with every node whose symbol is `from` given the symbol `to`.
    /// The renaming looks at nothing but the symbol.
    #[verifier::loop_isolation(false)]
    pub fn substitute_symbol(&self, from: String, to: String) -> (r: Expression)
        ensures
            r@ == self@.substitute_symbol(from@, to@),
        decreases self,
    {
        proof {
            self.lemma_view();
        }
        let symbol = if self.symbol == from {
            to.clone()
        } else {
            self.symbol.clone()
        };
        let children = match &self.children {
            None => None,
            Some(v) => {
                let mut out: Vec<Expression> = Vec::new();
                let mut i: usize = 0;
                while i < v.len()
                    invariant
                        i <= v.len(),
                        out.len() == i,
                        forall|j: int| 0 <= j < i ==> out@[j]@ == v@[j]@.substitute_symbol(from@, to@),
                    decreases v.len() - i,
                {
                    out.push(v[i].substitute_symbol(from.clone(), to.clone()));
                    i += 1;
                }
                assert(views(out@) =~= self@.substitute_symbol(from@, to@).children->0);
                Some(out)
            },
        };
        let r = Expression::from_parts(self.exp_type, symbol, children);
        assert(r@.children =~= self@.substitute_symbol(from@, to@).children);
        r
    }

    /// The variable nodes of the tree from left to right, without those whose
    /// symbol is in `const_symbols`.
    #[verifier::loop_isolation(false)]
    pub fn collect_var(&self, const_symbols: Option<&Vec<String>>) -> (r: Vec<Expression>)
        ensures
            views(r@) == self@.collect_var(excluded(const_symbols)),
        decreases self,
    {
        proof {
            self.lemma_view();
        }
        let ghost skip = excluded(const_symbols);
        if self.is_variable() {
            let mut out: Vec<Expression> = Vec::new();
            if let Some(list) = const_symbols {
                if contains_str(list, self.symbol.as_str()) {
                    assert(string_set(list@).contains(self.symbol@));
                    assert(views(out@) =~= Seq::empty());
                    return out;
                }
            }
            out.push(self.clone());
            assert(views(out@) =~= seq![self@]);
            return out;
        }
        match &self.children {
            None => {
                let out: Vec<Expression> = Vec::new();
                assert(views(out@) =~= Seq::empty());
                out
            },
            Some(children) => {
                let ghost cs = views(children@);
                let mut out: Vec<Expression> = Vec::new();
                let mut i: usize = 0;
                assert(views(out@) =~= ExpressionView::collect_var_upto(cs, 0, skip));
                while i < children.len()
                    invariant
                        i <= children.len(),
                        views(out@) == ExpressionView::collect_var_upto(cs, i as nat, skip),
                    decreases children.len() - i,
                {
                    let mut found = children[i].collect_var(const_symbols);
                    let ghost before = out@;
                    let ghost added = found@;
                    out.append(&mut found);
                    assert(views(out@) =~= views(before) + views(added));
                    i += 1;
                }
                out
            },
        }
    }

    /// A leaf becomes a train of itself; any other node becomes a train of
    /// its children. Whether `symbol` is associative is not checked.
    pub fn turn_into_assoc_train(&self, symbol: String) -> (r: Expression)
        ensures
            r@ == self@.turn_into_assoc_train(symbol@),
    {
        proof {
            self.lemma_view();
        }
        let children = match &self.children {
            None => {
                let mut one: Vec<Expression> = Vec::new();
                one.push(self.clone());
                assert(views(one@) =~= seq![self@]);
                one
            },
            Some(v) => clone_children(v),
        };
        Expression::from_parts(ExpressionType::AssocTrain, symbol, Some(children))
    }

    /// An equation with its sides exchanged; a copy of anything else.
    pub fn flip_equation(&self) -> (r: Expression)
        ensures
            r@ == self@.flip_equation(),
    {
        proof {
            self.lemma_view();
        }
        if !self.is_equation() {
            return self.clone();
        }
        match &self.children {
            None => self.clone(),
            Some(children) => {
                let left = children[0].clone();
                let right = children[1].clone();
                let mut flipped: Vec<Expression> = Vec::new();
                flipped.push(right);
                flipped.push(left);
                assert(views(flipped@) =~= seq![self@.children->0[1], self@.children->0[0]]);
                Expression::from_parts(self.exp_type, self.symbol.clone(), Some(flipped))
            },
        }
    }

    /// The left side of an equation.
    pub fn lhs(&self) -> (r: Option<&Expression>)
        ensures
            match r {
                Some(e) => self@.lhs() == Some(e@),
                None => self@.lhs() is None,
            },
    {
        proof {
            self.lemma_view();
        }
        if !self.is_equation() {
            return None;
        }
        match &self.children {
            None => None,
            Some(children) => Some(&children[0]),
        }
    }

    /// The right side of an equation.
    pub fn rhs(&self) -> (r: Option<&Expression>)
        ensures
            match r {
                Some(e) => self@.rhs() == Some(e@),
                None => self@.rhs() is None,
            },
    {
        proof {
            self.lemma_view();
        }
        if !self.is_equation() {
            return None;
        }
        match &self.children {
            None => None,
            Some(children) => Some(&children[1]),
        }
    }
}

} // verus!
