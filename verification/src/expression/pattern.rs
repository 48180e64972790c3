//! One-directional matching of a pattern against a subject, expansion of
//! variadic patterns, and substitution of the bindings found.

use vstd::prelude::*;

use crate::expression::Address;
use crate::expression::AddressView;
use crate::expression::ErrorKind;
use crate::expression::Expression;
use crate::expression::ExpressionError;
use crate::expression::ExpressionType;
use crate::expression::ExpressionView;
use crate::expression::MatchMap;
use crate::expression::expression_builder::constant;
use crate::expression::match_map::agree;
use crate::expression::outcome;
use crate::expression::tree::excluded;
use crate::expression::tree::lemma_child_height;
use crate::expression::tree::lemma_substitute_height;
use crate::expression::tree::string_set;
use crate::expression::tree::symbols_of;
use crate::expression::views;
use crate::text::decimal;
use crate::text::parse_usize;
use crate::text::parsed_usize;
use crate::text::push_char;
use crate::text::usize_to_string;
use crate::utils::is_hashmap_no_clash;

verus! {

/// A set of bindings.
pub type Bindings = Map<Seq<char>, ExpressionView>;

/// The model of an optional match.
pub open spec fn bindings_of(r: Option<MatchMap>) -> Option<Bindings> {
    match r {
        Some(m) => Some(m@),
        None => None,
    }
}

/// The model of a list of matches.
pub open spec fn matches_view(list: Seq<(Address, MatchMap)>) -> Seq<(AddressView, Bindings)> {
    Seq::new(list.len(), |i: int| (list[i].0@, list[i].1@))
}

/// The symbol of instance `k` of a variable: the symbol, an underscore and
/// the decimal numeral of `k`.
pub open spec fn indexed_symbol(symbol: Seq<char>, k: nat) -> Seq<char> {
    symbol.push('_') + decimal(k)
}

/// The keys that `m` binds to a constant.
pub open spec fn constant_keys(m: Bindings) -> Set<Seq<char>> {
    Set::new(|k: Seq<char>| m.dom().contains(k) && m[k].is_constant())
}

impl ExpressionView {
    /// The tree after renaming, one after the other, each of the first `m`
    /// of `symbols` to its instance `k`.
    pub open spec fn rename_upto(self, symbols: Seq<Seq<char>>, m: nat, k: nat) -> ExpressionView
        decreases m,
    {
        if m == 0 || m > symbols.len() {
            self
        } else {
            self.rename_upto(symbols, (m - 1) as nat, k).substitute_symbol(
                symbols[m - 1],
                indexed_symbol(symbols[m - 1], k),
            )
        }
    }

    /// Instance `k` of a template: every variable that is not in `skip`
    /// renamed to its instance `k`.
    pub open spec fn instance(self, skip: Option<Set<Seq<char>>>, k: nat) -> ExpressionView {
        let symbols = symbols_of(self.collect_var(skip));
        self.rename_upto(symbols, symbols.len(), k)
    }

    /// The template of a variadic train: the first child of its first child.
    pub open spec fn template(self) -> Option<ExpressionView> {
        self.at(seq![0usize, 0usize])
    }

    /// The train of `n` instances of the template of this variadic train,
    /// numbered from one.
    pub open spec fn expand_variadic(self, n: nat, skip: Option<Set<Seq<char>>>) -> Result<
        ExpressionView,
        ErrorKind,
    > {
        if !self.is_parent_of_variadic() {
            Err(ErrorKind::NotAParentOfVariadic)
        } else {
            match self.template() {
                None => Err(ErrorKind::InvalidAddress),
                Some(t) => Ok(
                    ExpressionView::node(
                        ExpressionType::AssocTrain,
                        self.symbol,
                        Seq::new(n, |i: int| t.instance(skip, (i + 1) as nat)),
                    ),
                ),
            }
        }
    }

    /// The bindings under which `pattern` becomes this expression, if there
    /// are any.
    ///
    /// A constant matches a constant of the same symbol. A variable matches
    /// anything and binds it. A train whose first child is a variadic marker
    /// matches a train: it is expanded to the arity of the subject, matched,
    /// and the arity is bound to the variadic symbol. Any other operator
    /// matches a node of the same kind, symbol and arity whose children match
    /// with bindings that agree. A variadic marker on its own matches nothing.
    pub open spec fn match_pattern(self, pattern: ExpressionView) -> Option<Bindings>
        decreases pattern.height(), pattern.arity() + 1,
    {
        if pattern.kind == ExpressionType::ValueConst {
            if pattern.symbol == self.symbol && self.kind == ExpressionType::ValueConst {
                Some(Map::empty())
            } else {
                None
            }
        } else if pattern.kind == ExpressionType::ValueVar {
            Some(Map::empty().insert(pattern.symbol, self))
        } else if pattern.kind == ExpressionType::Variadic {
            None
        } else if pattern.is_parent_of_variadic() {
            if !self.is_assoc_train() || self.children is None {
                None
            } else {
                match pattern.expand_variadic(self.arity(), None) {
                    Err(_) => None,
                    Ok(expanded) => {
                        proof {
                            lemma_expand_height(pattern, self.arity(), None);
                        }
                        match self.match_pattern(expanded) {
                            None => None,
                            Some(m) => Some(
                                m.insert(
                                    ExpressionType::variadic_symbol(),
                                    ExpressionView::leaf(ExpressionType::ValueConst, decimal(self.arity())),
                                ),
                            ),
                        }
                    },
                }
            }
        } else if pattern.symbol != self.symbol || pattern.kind != self.kind || self.children is None
            || pattern.children is None || self.arity() != pattern.arity() {
            None
        } else {
            self.match_children(pattern, pattern.arity())
        }
    }

    /// The merged bindings of the first `n` children of this node against
    /// the first `n` children of `pattern`.
    pub open spec fn match_children(self, pattern: ExpressionView, n: nat) -> Option<Bindings>
        decreases pattern.height(), n,
    {
        if n == 0 {
            Some(Map::empty())
        } else if n > pattern.arity() || n > self.arity() || pattern.children is None || self.children is None {
            None
        } else {
            match self.match_children(pattern, (n - 1) as nat) {
                None => None,
                Some(m) => {
                    proof {
                        lemma_child_height(pattern, n - 1);
                    }
                    match self.children->0[n - 1].match_pattern(pattern.children->0[n - 1]) {
                        None => None,
                        Some(c) => if agree(m, c) {
                            Some(m.union_prefer_right(c))
                        } else {
                            None
                        },
                    }
                },
            }
        }
    }

    /// The tree with every variable replaced by what `m` binds it to, and
    /// every variadic train expanded to the arity that `m` holds under the
    /// variadic symbol.
    pub open spec fn apply_map(self, m: Bindings) -> ExpressionView
        decreases self.height(),
    {
        if self.kind == ExpressionType::ValueVar {
            if m.dom().contains(self.symbol) {
                m[self.symbol]
            } else {
                self
            }
        } else if self.is_parent_of_variadic() {
            if !m.dom().contains(ExpressionType::variadic_symbol()) {
                self
            } else {
                match parsed_usize(m[ExpressionType::variadic_symbol()].symbol) {
                    None => self,
                    Some(n) => match self.expand_variadic(n as nat, Some(constant_keys(m))) {
                        Err(_) => self,
                        Ok(expanded) => {
                            proof {
                                lemma_expand_height(self, n as nat, Some(constant_keys(m)));
                            }
                            expanded.apply_map(m)
                        },
                    },
                }
            }
        } else {
            match self.children {
                None => self,
                Some(cs) => self.with_children(
                    Seq::new(
                        cs.len(),
                        |i: int|
                            if 0 <= i < cs.len() {
                                proof {
                                    lemma_child_height(self, i);
                                }
                                cs[i].apply_map(m)
                            } else {
                                self
                            },
                    ),
                ),
            }
        }
    }

    /// The match of `pattern` against this very node, listed under `address`.
    pub open spec fn direct_match(self, pattern: ExpressionView, address: AddressView) -> Seq<
        (AddressView, Bindings),
    > {
        match self.match_pattern(pattern) {
            Some(m) => seq![(address, m)],
            None => Seq::empty(),
        }
    }

    /// The matches of `pattern` against the first `n` virtual pairs of this
    /// train, in ascending order.
    pub open spec fn pair_matches(self, pattern: ExpressionView, path: Seq<usize>, n: nat) -> Seq<
        (AddressView, Bindings),
    >
        decreases n,
    {
        if n == 0 || n > usize::MAX {
            Seq::empty()
        } else {
            self.pair_matches(pattern, path, (n - 1) as nat) + match self.subexpr_from_train((n - 1) as usize) {
                Ok(pair) => pair.direct_match(pattern, AddressView { path, sub: Some((n - 1) as usize) }),
                Err(_) => Seq::empty(),
            }
        }
    }

    /// Every match of `pattern` in this tree, whose root has the address
    /// `path`: first this node, then the pairs of a train from left to
    /// right, then the children from left to right.
    pub open spec fn matches_from(self, pattern: ExpressionView, path: Seq<usize>) -> Seq<
        (AddressView, Bindings),
    >
        decreases self, 0nat,
    {
        self.direct_match(pattern, AddressView { path, sub: None }) + (if self.is_assoc_train() && self.arity()
            > 0 {
            self.pair_matches(pattern, path, (self.arity() - 1) as nat)
        } else {
            Seq::empty()
        }) + match self.children {
            None => Seq::empty(),
            Some(cs) => Self::child_matches(cs, pattern, path, cs.len()),
        }
    }

    /// The matches below the first `n` of `cs`, the children of the node at
    /// `path`.
    pub open spec fn child_matches(cs: Seq<ExpressionView>, pattern: ExpressionView, path: Seq<usize>, n: nat) -> Seq<
        (AddressView, Bindings),
    >
        decreases cs, n,
    {
        if n == 0 || n > cs.len() || n > usize::MAX {
            Seq::empty()
        } else {
            Self::child_matches(cs, pattern, path, (n - 1) as nat) + cs[n - 1].matches_from(
                pattern,
                path.push((n - 1) as usize),
            )
        }
    }

    /// The match of `pattern` against the node, or the pair, at `address`.
    pub open spec fn match_at(self, pattern: ExpressionView, address: AddressView) -> Result<
        Bindings,
        ErrorKind,
    > {
        match self.at(address.path) {
            None => Err(ErrorKind::InvalidAddress),
            Some(node) => match address.sub {
                None => match node.match_pattern(pattern) {
                    Some(m) => Ok(m),
                    None => Err(ErrorKind::PatternDoesNotMatch),
                },
                Some(i) => match node.subexpr_from_train(i) {
                    Err(e) => Err(e),
                    Ok(pair) => match pair.match_pattern(pattern) {
                        Some(m) => Ok(m),
                        None => Err(ErrorKind::PatternDoesNotMatch),
                    },
                },
            },
        }
    }

    /// Whether `other`, read as a pattern, matches this expression and
    /// becomes it again when its bindings are put back.
    pub open spec fn is_equivalent_to(self, other: ExpressionView) -> bool {
        match self.match_pattern(other) {
            None => false,
            Some(m) => other.apply_map(m) == self,
        }
    }
}

/// Renaming symbols does not change the height of a tree.
pub proof fn lemma_rename_height(e: ExpressionView, symbols: Seq<Seq<char>>, m: nat, k: nat)
    ensures
        e.rename_upto(symbols, m, k).height() == e.height(),
    decreases m,
{
    if m == 0 || m > symbols.len() {
    } else {
        lemma_rename_height(e, symbols, (m - 1) as nat, k);
        lemma_substitute_height(
            e.rename_upto(symbols, (m - 1) as nat, k),
            symbols[m - 1],
            indexed_symbol(symbols[m - 1], k),
        );
    }
}

/// A list of nodes that are all of height `h` at most is itself of height
/// `h` at most.
pub proof fn lemma_max_height_bound(cs: Seq<ExpressionView>, n: nat, h: nat)
    requires
        n <= cs.len(),
        forall|i: int| 0 <= i < n ==> (#[trigger] cs[i]).height() <= h,
    ensures
        ExpressionView::max_height(cs, n) <= h,
    decreases n,
{
    if n > 0 {
        lemma_max_height_bound(cs, (n - 1) as nat, h);
    }
}

/// The expansion of a variadic train is strictly lower than the train.
pub proof fn lemma_expand_height(e: ExpressionView, n: nat, skip: Option<Set<Seq<char>>>)
    ensures
        e.expand_variadic(n, skip) is Ok ==> e.expand_variadic(n, skip)->Ok_0.height() < e.height(),
{
    if e.expand_variadic(n, skip) is Ok {
        let r = e.expand_variadic(n, skip)->Ok_0;
        let path = seq![0usize, 0usize];
        let marker = e.children->0[0];
        assert(path.drop_first() =~= seq![0usize]);
        assert(path.drop_first().drop_first() =~= Seq::<usize>::empty());
        assert(e.at(path) == marker.at(seq![0usize]));
        assert(marker.children is Some && marker.arity() > 0);
        let t = marker.children->0[0];
        assert(marker.at(seq![0usize]) == t.at(Seq::<usize>::empty()));
        assert(e.template() == Some(t));
        lemma_child_height(e, 0);
        lemma_child_height(marker, 0);
        let rs = r.children->0;
        assert forall|i: int| 0 <= i < n implies (#[trigger] rs[i]).height() <= t.height() by {
            let symbols = symbols_of(t.collect_var(skip));
            lemma_rename_height(t, symbols, symbols.len(), (i + 1) as nat);
        }
        lemma_max_height_bound(rs, n, t.height());
    }
}

/// Once the first children fail to match, so do any more of them.
pub proof fn lemma_match_children_none(s: ExpressionView, p: ExpressionView, k: nat, n: nat)
    requires
        k <= n,
        s.match_children(p, k) is None,
    ensures
        s.match_children(p, n) is None,
    decreases n,
{
    if k < n {
        lemma_match_children_none(s, p, k, (n - 1) as nat);
    }
}

/// The symbol of instance `k` of a variable.
fn indexed(symbol: &String, k: usize) -> (s: String)
    ensures
        s@ == indexed_symbol(symbol@, k as nat),
{
    let mut s = symbol.clone();
    push_char(&mut s, '_');
    let digits = usize_to_string(k);
    s.append(digits.as_str());
    s
}

impl Expression {
    /// The train of `n` instances of the template of this variadic train:
    /// in instance `i`, counted from one, every variable of the template
    /// that is not in `const_symbols` has `_i` added to its symbol.
    #[verifier::loop_isolation(false)]
    pub fn expand_variadic(&self, n: usize, const_symbols: Option<&Vec<String>>) -> (r: Result<
        Expression,
        ExpressionError,
    >)
        ensures
            outcome(r) == self@.expand_variadic(n as nat, excluded(const_symbols)),
    {
        if !self.is_parent_of_variadic() {
            return Err(ExpressionError::NotAParentOfVariadic);
        }
        let mut path: Vec<usize> = Vec::new();
        path.push(0);
        path.push(0);
        assert(path@ =~= seq![0usize, 0usize]);
        let inner_expr = match self.at(&Address::new(path, None)) {
            Ok(e) => e,
            Err(err) => {
                return Err(err);
            },
        };
        let ghost skip = excluded(const_symbols);
        let ghost t = inner_expr@;
        let variables = inner_expr.collect_var(const_symbols);
        let ghost symbols = symbols_of(t.collect_var(skip));
        let mut children: Vec<Expression> = Vec::new();
        let mut i: usize = 0;
        while i < n
            invariant
                i <= n,
                children.len() == i,
                forall|j: int| 0 <= j < i ==> (#[trigger] children@[j])@ == t.instance(skip, (j + 1) as nat),
            decreases n - i,
        {
            let mut child = inner_expr.clone();
            let mut s: usize = 0;
            while s < variables.len()
                invariant
                    s <= variables.len(),
                    i < n,
                    child@ == t.rename_upto(symbols, s as nat, (i + 1) as nat),
                decreases variables.len() - s,
            {
                proof {
                    variables[s as int].lemma_view();
                    assert(symbols[s as int] == views(variables@)[s as int].symbol);
                }
                let symbol = variables[s].symbol.clone();
                let new_symbol = indexed(&symbol, i + 1);
                child = child.substitute_symbol(symbol, new_symbol);
                s += 1;
            }
            children.push(child);
            i += 1;
        }
        assert(views(children@) =~= Seq::new(n as nat, |i: int| t.instance(skip, (i + 1) as nat)));
        Ok(Expression::from_parts(ExpressionType::AssocTrain, self.symbol.clone(), Some(children)))
    }

    /// The bindings under which `pattern` becomes this expression, if there
    /// are any. Only this node is tried, not the nodes below it.
    #[verifier::loop_isolation(false)]
    pub fn pattern_match_this_node(&self, pattern: &Expression) -> (r: Option<MatchMap>)
        ensures
            bindings_of(r) == self@.match_pattern(pattern@),
        decreases pattern@.height(), pattern@.arity() + 1,
    {
        proof {
            self.lemma_view();
            pattern.lemma_view();
        }
        match pattern.exp_type {
            ExpressionType::ValueConst => {
                if pattern.symbol == self.symbol && self.exp_type == ExpressionType::ValueConst {
                    Some(MatchMap::new())
                } else {
                    None
                }
            },
            ExpressionType::ValueVar => {
                let mut map = MatchMap::new();
                map.insert(pattern.symbol.clone(), self.clone());
                Some(map)
            },
            ExpressionType::Variadic => None,
            _ => {
                if pattern.is_parent_of_variadic() {
                    if !self.is_assoc_train() {
                        return None;
                    }
                    let children_len = match &self.children {
                        None => {
                            return None;
                        },
                        Some(children) => children.len(),
                    };
                    let new_pattern = match pattern.expand_variadic(children_len, None) {
                        Err(_) => {
                            return None;
                        },
                        Ok(p) => p,
                    };
                    proof {
                        lemma_expand_height(pattern@, children_len as nat, None);
                    }
                    let mut match_map = match self.pattern_match_this_node(&new_pattern) {
                        None => {
                            return None;
                        },
                        Some(m) => m,
                    };
                    let digits = usize_to_string(children_len);
                    match_map.insert(ExpressionType::variadic_string(), constant(digits.as_str()));
                    return Some(match_map);
                }
                if pattern.symbol != self.symbol {
                    return None;
                }
                if pattern.exp_type != self.exp_type {
                    return None;
                }
                let self_children = match &self.children {
                    None => {
                        return None;
                    },
                    Some(c) => c,
                };
                let pattern_children = match &pattern.children {
                    None => {
                        return None;
                    },
                    Some(c) => c,
                };
                if self_children.len() != pattern_children.len() {
                    return None;
                }
                let n = self_children.len();
                let mut map = MatchMap::new();
                let mut i: usize = 0;
                while i < n
                    invariant
                        i <= n,
                        Some(map@) == self@.match_children(pattern@, i as nat),
                    decreases n - i,
                {
                    proof {
                        lemma_child_height(pattern@, i as int);
                    }
                    let child_map = match self_children[i].pattern_match_this_node(&pattern_children[i]) {
                        None => {
                            proof {
                                lemma_match_children_none(self@, pattern@, (i + 1) as nat, n as nat);
                            }
                            return None;
                        },
                        Some(m) => m,
                    };
                    if !is_hashmap_no_clash(&map, &child_map) {
                        proof {
                            lemma_match_children_none(self@, pattern@, (i + 1) as nat, n as nat);
                        }
                        return None;
                    }
                    map.absorb(&child_map);
                    i += 1;
                }
                Some(map)
            },
        }
    }

    /// The tree with every variable replaced by what `match_map` binds it
    /// to. A variadic train is first expanded to the arity bound to the
    /// variadic symbol; it is left as it is where no arity is bound or the
    /// binding is no numeral.
    #[verifier::loop_isolation(false)]
    pub fn apply_match_map(&self, match_map: &MatchMap) -> (r: Expression)
        ensures
            r@ == self@.apply_map(match_map@),
        decreases self@.height(),
    {
        proof {
            self.lemma_view();
        }
        if self.exp_type == ExpressionType::ValueVar {
            return match match_map.get(self.symbol.as_str()) {
                Some(expr) => expr.clone(),
                None => self.clone(),
            };
        }
        if self.is_parent_of_variadic() {
            let key = ExpressionType::variadic_string();
            let n_expr = match match_map.get(key.as_str()) {
                None => {
                    return self.clone();
                },
                Some(e) => e,
            };
            proof {
                n_expr.lemma_view();
            }
            let n = match parse_usize(n_expr.symbol.as_str()) {
                None => {
                    return self.clone();
                },
                Some(n) => n,
            };
            let const_symbols = constant_symbols(match_map);
            let resolved_self = match self.expand_variadic(n, Some(&const_symbols)) {
                Err(_) => {
                    return self.clone();
                },
                Ok(e) => e,
            };
            proof {
                lemma_expand_height(self@, n as nat, Some(constant_keys(match_map@)));
            }
            return resolved_self.apply_match_map(match_map);
        }
        match &self.children {
            None => self.clone(),
            Some(children) => {
                let mut new_children: Vec<Expression> = Vec::new();
                let mut i: usize = 0;
                while i < children.len()
                    invariant
                        i <= children.len(),
                        new_children.len() == i,
                        forall|j: int|
                            0 <= j < i ==> (#[trigger] new_children@[j])@ == children@[j]@.apply_map(match_map@),
                    decreases children.len() - i,
                {
                    proof {
                        lemma_child_height(self@, i as int);
                    }
                    new_children.push(children[i].apply_match_map(match_map));
                    i += 1;
                }
                assert(views(new_children@) =~= self@.apply_map(match_map@).children->0);
                let r = Expression::from_parts(self.exp_type, self.symbol.clone(), Some(new_children));
                assert(r@.children =~= self@.apply_map(match_map@).children);
                r
            },
        }
    }

    /// Every place in this tree where `pattern` matches, with the bindings
    /// found there: first this node, then the pairs of a train from left to
    /// right, then the children from left to right.
    pub fn get_pattern_matches(&self, pattern: &Expression) -> (r: Vec<(Address, MatchMap)>)
        ensures
            matches_view(r@) == self@.matches_from(pattern@, Seq::<usize>::empty()),
    {
        self.f_get_patten_matches(pattern, &Address::default())
    }

    /// The matches of `pattern` against the virtual pairs of this train,
    /// which lies at `current_address`.
    fn get_pair_matches(&self, pattern: &Expression, current_address: &Address) -> (r: Vec<(Address, MatchMap)>)
        requires
            self@.is_assoc_train(),
            self@.arity() > 0,
        ensures
            matches_view(r@) == self@.pair_matches(
                pattern@,
                current_address@.path,
                (self@.arity() - 1) as nat,
            ),
    {
        let ghost path = current_address@.path;
        let mut result: Vec<(Address, MatchMap)> = Vec::new();
        let pairs = self.arity() - 1;
        let mut i: usize = 0;
        assert(matches_view(result@) =~= self@.pair_matches(pattern@, path, 0));
        while i < pairs
            invariant
                i <= pairs,
                pairs == self@.arity() - 1,
                path == current_address@.path,
                matches_view(result@) == self@.pair_matches(pattern@, path, i as nat),
            decreases pairs - i,
        {
            let ghost before = matches_view(result@);
            let ghost here = AddressView { path, sub: Some(i) };
            let ghost step = match self@.subexpr_from_train(i) {
                Ok(pair) => pair.direct_match(pattern@, here),
                Err(_) => Seq::empty(),
            };
            match self.generate_subexpr_from_train(i) {
                Ok(sub) => match sub.pattern_match_this_node(pattern) {
                    Some(map) => {
                        result.push((current_address.sub(i), map));
                        assert(matches_view(result@) =~= before.push((here, map@)));
                        assert(step =~= seq![(here, map@)]);
                    },
                    None => {
                        assert(step =~= Seq::empty());
                    },
                },
                Err(_) => {},
            }
            assert(matches_view(result@) =~= before + step);
            i += 1;
        }
        result
    }

    /// The matches in the tree below this node, which lies at
    /// `current_address`.
    #[verifier::loop_isolation(false)]
    fn f_get_patten_matches(&self, pattern: &Expression, current_address: &Address) -> (r: Vec<
        (Address, MatchMap),
    >)
        requires
            current_address@.sub is None,
        ensures
            matches_view(r@) == self@.matches_from(pattern@, current_address@.path),
        decreases self,
    {
        proof {
            self.lemma_view();
        }
        let ghost path = current_address@.path;
        let mut result: Vec<(Address, MatchMap)> = Vec::new();
        if let Some(map) = self.pattern_match_this_node(pattern) {
            result.push((current_address.clone(), map));
        }
        assert(matches_view(result@) =~= self@.direct_match(pattern@, AddressView { path, sub: None }));
        let ghost direct = matches_view(result@);
        let ghost pairs = if self@.is_assoc_train() && self@.arity() > 0 {
            self@.pair_matches(pattern@, path, (self@.arity() - 1) as nat)
        } else {
            Seq::empty()
        };
        if self.is_assoc_train() && self.arity() > 0 {
            let mut found = self.get_pair_matches(pattern, current_address);
            let ghost before = result@;
            let ghost added = found@;
            result.append(&mut found);
            assert(matches_view(result@) =~= matches_view(before) + matches_view(added));
        }
        assert(matches_view(result@) =~= direct + pairs);
        let ghost upper = direct + pairs;
        match &self.children {
            Some(children) => {
                let ghost cs = views(children@);
                let mut i: usize = 0;
                assert(matches_view(result@) =~= upper + ExpressionView::child_matches(cs, pattern@, path, 0));
                while i < children.len()
                    invariant
                        i <= children.len(),
                        self.children == Some(*children),
                        cs == views(children@),
                        path == current_address@.path,
                        current_address@.sub is None,
                        matches_view(result@) == upper + ExpressionView::child_matches(
                            cs,
                            pattern@,
                            path,
                            i as nat,
                        ),
                    decreases children.len() - i,
                {
                    let child_address = current_address.append(i);
                    let mut child_matches = children[i].f_get_patten_matches(pattern, &child_address);
                    let ghost before = result@;
                    let ghost added = child_matches@;
                    let ghost earlier = ExpressionView::child_matches(cs, pattern@, path, i as nat);
                    result.append(&mut child_matches);
                    assert(matches_view(result@) =~= matches_view(before) + matches_view(added));
                    assert(ExpressionView::child_matches(cs, pattern@, path, (i + 1) as nat) == earlier
                        + matches_view(added));
                    assert(matches_view(result@) =~= upper + (earlier + matches_view(added)));
                    i += 1;
                }
            },
            None => {
                assert(matches_view(result@) =~= upper + Seq::<(AddressView, Bindings)>::empty());
            },
        }
        result
    }

    /// The bindings under which `pattern` becomes the node at `addr`, or the
    /// pair there when `addr` has a sub index. Nothing below is searched.
    pub fn pattern_match_at(&self, pattern: &Expression, addr: &Address) -> (r: Result<MatchMap, ExpressionError>)
        ensures
            match r {
                Ok(m) => self@.match_at(pattern@, addr@) == Ok::<Bindings, ErrorKind>(m@),
                Err(err) => self@.match_at(pattern@, addr@) == Err::<Bindings, ErrorKind>(err.spec_kind()),
            },
    {
        let curr_node = match self.at(addr) {
            Ok(e) => e,
            Err(err) => {
                return Err(err);
            },
        };
        match addr.sub {
            Some(sub_addr) => {
                let sub_expr = match curr_node.generate_subexpr_from_train(sub_addr) {
                    Ok(e) => e,
                    Err(err) => {
                        return Err(err);
                    },
                };
                match sub_expr.pattern_match_this_node(pattern) {
                    Some(m) => Ok(m),
                    None => Err(ExpressionError::PatternDoesNotMatch),
                }
            },
            None => match curr_node.pattern_match_this_node(pattern) {
                Some(m) => Ok(m),
                None => Err(ExpressionError::PatternDoesNotMatch),
            },
        }
    }

    /// Whether `other`, read as a pattern, matches this expression and
    /// becomes it again when its bindings are put back.
    pub fn is_equivalent_to(&self, other: &Expression) -> (r: bool)
        ensures
            r == self@.is_equivalent_to(other@),
    {
        match self.pattern_match_this_node(other) {
            None => false,
            Some(match_map) => {
                let new_other = other.apply_match_map(&match_map);
                self.equals(&new_other)
            },
        }
    }
}

/// The keys that `match_map` binds to a constant.
fn constant_symbols(match_map: &MatchMap) -> (out: Vec<String>)
    ensures
        string_set(out@) == constant_keys(match_map@),
{
    let n = match_map.len();
    let mut out: Vec<String> = Vec::new();
    let mut i: usize = 0;
    let ghost keys = match_map.spec_keys();
    while i < n
        invariant
            i <= n,
            n == keys.len(),
            keys == match_map.spec_keys(),
            forall|k: Seq<char>| #[trigger] match_map@.dom().contains(k) <==> keys.contains(k),
            forall|s: Seq<char>|
                string_set(out@).contains(s) <==> exists|j: int|
                    0 <= j < i && #[trigger] keys[j] == s && match_map@[s].is_constant(),
        decreases n - i,
    {
        let ghost before = out@;
        let key = match_map.key_at(i);
        let value = match_map.value_at(i);
        if value.is_constant() {
            out.push(key.clone());
            proof {
                let after = out@;
                assert forall|s: Seq<char>| string_set(after).contains(s) <==> exists|j: int|
                    0 <= j < i + 1 && #[trigger] keys[j] == s && match_map@[s].is_constant() by {
                    if string_set(after).contains(s) {
                        let x = choose|x: int| 0 <= x < after.len() && (#[trigger] after[x])@ == s;
                        if x < before.len() {
                            assert(before[x]@ == s);
                            assert(string_set(before).contains(s));
                        } else {
                            assert(keys[i as int] == s);
                        }
                    }
                    if exists|j: int| 0 <= j < i + 1 && #[trigger] keys[j] == s && match_map@[s].is_constant() {
                        let j = choose|j: int|
                            0 <= j < i + 1 && #[trigger] keys[j] == s && match_map@[s].is_constant();
                        if j < i {
                            assert(string_set(before).contains(s));
                            let x = choose|x: int| 0 <= x < before.len() && (#[trigger] before[x])@ == s;
                            assert(after[x]@ == s);
                        } else {
                            assert(after[before.len() as int]@ == s);
                        }
                    }
                }
            }
        } else {
            proof {
                assert forall|s: Seq<char>| string_set(before).contains(s) <==> exists|j: int|
                    0 <= j < i + 1 && #[trigger] keys[j] == s && match_map@[s].is_constant() by {
                    if exists|j: int| 0 <= j < i + 1 && #[trigger] keys[j] == s && match_map@[s].is_constant() {
                        let j = choose|j: int|
                            0 <= j < i + 1 && #[trigger] keys[j] == s && match_map@[s].is_constant();
                        assert(j < i);
                    }
                }
            }
        }
        i += 1;
    }
    proof {
        assert forall|s: Seq<char>| string_set(out@).contains(s) <==> constant_keys(match_map@).contains(
            s,
        ) by {
            if constant_keys(match_map@).contains(s) {
                let j = choose|j: int| 0 <= j < keys.len() && keys[j] == s;
                assert(keys[j] == s);
            }
        }
        assert(string_set(out@) =~= constant_keys(match_map@));
    }
    out
}

} // verus!
