//! What holds of the operations of this module taken together.

use vstd::prelude::*;

use crate::expression::AddressView;
use crate::expression::ErrorKind;
use crate::expression::address::seq_less;
use crate::expression::ExpressionType;
use crate::expression::ExpressionView;
use crate::expression::pattern::Bindings;
use crate::expression::pattern::indexed_symbol;
use crate::text::decimal;
use crate::text::digit_char;
use crate::text::digit_value;
use crate::text::digits_value;
use crate::text::parsed_usize;

verus! {

/// A decimal numeral reads back as the number it was written for.
pub proof fn lemma_decimal_reads_back(n: nat)
    ensures
        decimal(n).len() >= 1,
        digits_value(decimal(n)) == Some(n),
        forall|i: int| 0 <= i < decimal(n).len() ==> digit_value(#[trigger] decimal(n)[i]) is Some,
    decreases n,
{
    if n < 10 {
        assert(digit_value(digit_char(n)) == Some(n));
    } else {
        lemma_decimal_reads_back(n / 10);
        let s = decimal(n);
        let d = digit_char(n % 10);
        assert(digit_value(d) == Some(n % 10));
        assert(s.drop_last() =~= decimal(n / 10));
        assert(s.last() == d);
    }
}

/// Different numbers have different decimal numerals.
pub proof fn lemma_decimal_injective(a: nat, b: nat)
    requires
        decimal(a) == decimal(b),
    ensures
        a == b,
{
    lemma_decimal_reads_back(a);
    lemma_decimal_reads_back(b);
}

/// The decimal numeral that is written for a machine integer reads back as
/// that integer, so the arity that a variadic match records is the arity
/// that is expanded to when its bindings are put in.
pub proof fn law_numeral_reads_back(n: usize)
    ensures
        parsed_usize(decimal(n as nat)) == Some(n),
{
    lemma_decimal_reads_back(n as nat);
    let s = decimal(n as nat);
    assert(digit_value(s[0]) is Some);
    assert(s[0] != '+');
}

/// Instances of one variable with different numbers have different
/// symbols.
pub proof fn lemma_indexed_symbol_injective(symbol: Seq<char>, a: nat, b: nat)
    requires
        indexed_symbol(symbol, a) == indexed_symbol(symbol, b),
    ensures
        a == b,
{
    let x = indexed_symbol(symbol, a);
    let y = indexed_symbol(symbol, b);
    let prefix = symbol.push('_');
    assert(x.subrange(prefix.len() as int, x.len() as int) =~= decimal(a));
    assert(y.subrange(prefix.len() as int, y.len() as int) =~= decimal(b));
    lemma_decimal_injective(a, b);
}

/// Expanding a variadic train to `n` gives a train of the same operator
/// with exactly `n` children; child `i` is the template with every variable
/// that is not set aside renamed to its instance `i + 1`, and no two
/// children share the number of their instance.
pub proof fn law_variadic_arity(e: ExpressionView, n: nat, skip: Option<Set<Seq<char>>>)
    requires
        e.expand_variadic(n, skip) is Ok,
    ensures
        e.is_parent_of_variadic(),
        e.template() is Some,
        ({
            let r = e.expand_variadic(n, skip)->Ok_0;
            &&& r.kind == ExpressionType::AssocTrain
            &&& r.symbol == e.symbol
            &&& r.children is Some
            &&& r.arity() == n
            &&& forall|i: int|
                0 <= i < n ==> #[trigger] r.children->0[i] == e.template()->0.instance(skip, (i + 1) as nat)
        }),
        forall|symbol: Seq<char>, a: nat, b: nat|
            a != b ==> #[trigger] indexed_symbol(symbol, a) != #[trigger] indexed_symbol(symbol, b),
{
    assert forall|symbol: Seq<char>, a: nat, b: nat| a != b implies #[trigger] indexed_symbol(symbol, a)
        != #[trigger] indexed_symbol(symbol, b) by {
        if indexed_symbol(symbol, a) == indexed_symbol(symbol, b) {
            lemma_indexed_symbol_injective(symbol, a, b);
        }
    }
}

/// Replacing a pair of neighbours in a train by one node gives a train
/// with exactly one child fewer: the children before the pair, the new node,
/// and the children after the pair.
pub proof fn law_splice_arity(train: ExpressionView, new: ExpressionView, i: usize)
    requires
        train.is_assoc_train(),
        i + 1 < train.arity(),
    ensures
        train.splice(new, i) is Ok,
        train.splice(new, i)->Ok_0.is_assoc_train(),
        train.splice(new, i)->Ok_0.arity() == train.arity() - 1,
        train.splice(new, i)->Ok_0.children->0[i as int] == new,
        forall|j: int| 0 <= j < i ==> train.splice(new, i)->Ok_0.children->0[j] == train.children->0[j],
        forall|j: int|
            i < j < train.arity() - 1 ==> train.splice(new, i)->Ok_0.children->0[j] == train.children->0[j + 1],
{
}

/// Replacing a pair twice at one sub address of a train of three or more
/// children takes away one child each time.
pub proof fn law_splice_twice(train: ExpressionView, first: ExpressionView, second: ExpressionView, i: usize)
    requires
        train.is_assoc_train(),
        train.arity() >= 3,
        i + 2 < train.arity(),
    ensures
        train.splice(first, i) is Ok,
        train.splice(first, i)->Ok_0.splice(second, i) is Ok,
        train.splice(first, i)->Ok_0.splice(second, i)->Ok_0.arity() == train.arity() - 2,
{
    law_splice_arity(train, first, i);
    law_splice_arity(train.splice(first, i)->Ok_0, second, i);
}

/// The node below `path` and then `i` is child `i` of the node below
/// `path`.
pub proof fn lemma_at_push(root: ExpressionView, path: Seq<usize>, i: usize)
    requires
        root.at(path) is Some,
        root.at(path)->0.children is Some,
        i < root.at(path)->0.arity(),
    ensures
        root.at(path.push(i)) == Some(root.at(path)->0.children->0[i as int]),
    decreases path.len(),
{
    let p = path.push(i);
    if path.len() == 0 {
        assert(root.at(path) == Some(root));
        assert(p.drop_first() =~= Seq::<usize>::empty());
        assert(p[0] == i);
        let child = root.children->0[i as int];
        assert(child.at(Seq::<usize>::empty()) == Some(child));
        assert(root.at(p) == child.at(p.drop_first()));
    } else {
        assert(p.drop_first() =~= path.drop_first().push(i));
        assert(p[0] == path[0]);
        let child = root.children->0[path[0] as int];
        assert(root.at(path) == child.at(path.drop_first()));
        lemma_at_push(child, path.drop_first(), i);
        assert(root.at(p) == child.at(p.drop_first()));
    }
}

/// Every match among the first `n` pairs of the train at `path` is the
/// match found at its address.
pub proof fn lemma_pair_matches_at(root: ExpressionView, e: ExpressionView, pattern: ExpressionView, path: Seq<usize>, n: nat)
    requires
        root.at(path) == Some(e),
    ensures
        forall|k: int|
            0 <= k < e.pair_matches(pattern, path, n).len() ==> root.match_at(
                pattern,
                (#[trigger] e.pair_matches(pattern, path, n)[k]).0,
            ) == Ok::<Bindings, ErrorKind>(e.pair_matches(pattern, path, n)[k].1),
    decreases n,
{
    if n == 0 || n > usize::MAX {
    } else {
        lemma_pair_matches_at(root, e, pattern, path, (n - 1) as nat);
    }
}

/// Every match found below the first `n` children of the node at `path` is
/// the match found at its address.
pub proof fn lemma_child_matches_at(
    root: ExpressionView,
    e: ExpressionView,
    pattern: ExpressionView,
    path: Seq<usize>,
    n: nat,
)
    requires
        root.at(path) == Some(e),
        e.children is Some,
        n <= e.arity(),
    ensures
        forall|k: int|
            0 <= k < ExpressionView::child_matches(e.children->0, pattern, path, n).len() ==> root.match_at(
                pattern,
                (#[trigger] ExpressionView::child_matches(e.children->0, pattern, path, n)[k]).0,
            ) == Ok::<Bindings, ErrorKind>(ExpressionView::child_matches(e.children->0, pattern, path, n)[k].1),
    decreases e, n,
{
    if n == 0 || n > usize::MAX {
    } else {
        let cs = e.children->0;
        lemma_child_matches_at(root, e, pattern, path, (n - 1) as nat);
        lemma_at_push(root, path, (n - 1) as usize);
        lemma_matches_at(root, cs[n - 1], pattern, path.push((n - 1) as usize));
    }
}

/// Every match found in the tree below the node at `path` is the match
/// found at its address.
pub proof fn lemma_matches_at(root: ExpressionView, e: ExpressionView, pattern: ExpressionView, path: Seq<usize>)
    requires
        root.at(path) == Some(e),
    ensures
        forall|k: int|
            0 <= k < e.matches_from(pattern, path).len() ==> root.match_at(
                pattern,
                (#[trigger] e.matches_from(pattern, path)[k]).0,
            ) == Ok::<Bindings, ErrorKind>(e.matches_from(pattern, path)[k].1),
    decreases e, e.arity() + 1,
{
    if e.is_assoc_train() && e.arity() > 0 {
        lemma_pair_matches_at(root, e, pattern, path, (e.arity() - 1) as nat);
    }
    if e.children is Some {
        lemma_child_matches_at(root, e, pattern, path, e.arity());
    }
}

/// Matching at an address that the search reported gives the bindings that
/// the search reported with it.
pub proof fn law_match_then_apply(root: ExpressionView, pattern: ExpressionView, k: int)
    requires
        0 <= k < root.matches_from(pattern, Seq::empty()).len(),
    ensures
        root.match_at(pattern, root.matches_from(pattern, Seq::empty())[k].0) == Ok::<Bindings, ErrorKind>(
            root.matches_from(pattern, Seq::empty())[k].1,
        ),
{
    lemma_matches_at(root, root, pattern, Seq::empty());
}

/// Whether every node of `list` is its own train form and is no train of
/// `symbol` that a train of `symbol` would take the children of.
pub open spec fn settled(list: Seq<ExpressionView>, symbol: Seq<char>, assoc_ops: Seq<Seq<char>>) -> bool {
    forall|i: int|
        0 <= i < list.len() ==> (#[trigger] list[i]).to_assoc_train(assoc_ops) == list[i] && !list[i].absorbed_by(
            symbol,
        )
}

/// The children of the train form of an associative node are settled.
proof fn lemma_flatten_settled(e: ExpressionView, assoc_ops: Seq<Seq<char>>, n: nat)
    requires
        e.children is Some,
        assoc_ops.contains(e.symbol),
        n <= e.arity(),
    ensures
        settled(ExpressionView::flatten_upto(e.train_children(assoc_ops), e.symbol, n), e.symbol, assoc_ops),
    decreases e, n,
{
    if n > 0 {
        lemma_flatten_settled(e, assoc_ops, (n - 1) as nat);
        let ns = e.train_children(assoc_ops);
        let c = e.children->0[n - 1];
        let nc = ns[n - 1];
        assert(nc == c.to_assoc_train(assoc_ops));
        law_flatten_idempotent(c, assoc_ops);
        let earlier = ExpressionView::flatten_upto(ns, e.symbol, (n - 1) as nat);
        let chunk = if nc.absorbed_by(e.symbol) {
            nc.children->0
        } else {
            seq![nc]
        };
        let all = ExpressionView::flatten_upto(ns, e.symbol, n);
        assert(all == earlier + chunk);
        assert forall|i: int| 0 <= i < all.len() implies (#[trigger] all[i]).to_assoc_train(assoc_ops) == all[i]
            && !all[i].absorbed_by(e.symbol) by {
            if i < earlier.len() {
                assert(all[i] == earlier[i]);
            } else {
                assert(all[i] == chunk[i - earlier.len()]);
            }
        }
    }
}

/// Flattening a settled list changes nothing.
proof fn lemma_flatten_fixed(list: Seq<ExpressionView>, symbol: Seq<char>, assoc_ops: Seq<Seq<char>>, n: nat)
    requires
        settled(list, symbol, assoc_ops),
        n <= list.len(),
    ensures
        ExpressionView::flatten_upto(list, symbol, n) == list.take(n as int),
    decreases n,
{
    if n == 0 {
        assert(list.take(0) =~= Seq::<ExpressionView>::empty());
    } else {
        lemma_flatten_fixed(list, symbol, assoc_ops, (n - 1) as nat);
        assert(!list[n - 1].absorbed_by(symbol));
        assert(list.take(n as int) =~= list.take(n - 1) + seq![list[n - 1]]);
    }
}

/// Bringing an expression to train form twice gives what bringing it to
/// train form once gives, for every expression and every set of associative
/// operators. The children of a train so made are themselves in train form,
/// and none of them is a train of the same operator.
pub proof fn law_flatten_idempotent(e: ExpressionView, assoc_ops: Seq<Seq<char>>)
    ensures
        e.to_assoc_train(assoc_ops).to_assoc_train(assoc_ops) == e.to_assoc_train(assoc_ops),
        e.children is Some && assoc_ops.contains(e.symbol) ==> {
            &&& e.to_assoc_train(assoc_ops).is_assoc_train()
            &&& e.to_assoc_train(assoc_ops).symbol == e.symbol
            &&& e.to_assoc_train(assoc_ops).children is Some
            &&& settled(e.to_assoc_train(assoc_ops).children->0, e.symbol, assoc_ops)
        },
    decreases e, e.arity() + 1,
{
    match e.children {
        None => {},
        Some(cs) => {
            let ns = e.train_children(assoc_ops);
            let r = e.to_assoc_train(assoc_ops);
            assert forall|i: int| 0 <= i < cs.len() implies (#[trigger] ns[i]).to_assoc_train(assoc_ops)
                == ns[i] by {
                law_flatten_idempotent(cs[i], assoc_ops);
            }
            if !assoc_ops.contains(e.symbol) {
                assert(r.children == Some(ns));
                assert(r.train_children(assoc_ops) =~= ns);
            } else {
                lemma_flatten_settled(e, assoc_ops, cs.len());
                let flat = ExpressionView::flatten_upto(ns, e.symbol, ns.len());
                assert(r.children == Some(flat));
                assert(r.train_children(assoc_ops) =~= flat);
                lemma_flatten_fixed(flat, e.symbol, assoc_ops, flat.len());
                assert(flat.take(flat.len() as int) =~= flat);
            }
        },
    }
}

impl ExpressionView {
    /// Whether every application in the tree is one of an operator in
    /// `assoc_ops`.
    pub open spec fn only_applies(self, assoc_ops: Seq<Seq<char>>) -> bool
        decreases self,
    {
        match self.children {
            None => true,
            Some(cs) => assoc_ops.contains(self.symbol) && forall|i: int|
                0 <= i < cs.len() ==> (#[trigger] cs[i]).only_applies(assoc_ops),
        }
    }

    /// Whether the tree is made of leaves and of trains of operators in
    /// `assoc_ops` alone, no train holding a train of its own operator.
    pub open spec fn is_flat(self, assoc_ops: Seq<Seq<char>>) -> bool
        decreases self,
    {
        match self.children {
            None => true,
            Some(cs) => self.is_assoc_train() && assoc_ops.contains(self.symbol) && forall|i: int|
                0 <= i < cs.len() ==> (#[trigger] cs[i]).is_flat(assoc_ops) && !cs[i].absorbed_by(self.symbol),
        }
    }
}

/// Whether every node of `list` is flat and is no train of `symbol`.
pub open spec fn flat_list(list: Seq<ExpressionView>, symbol: Seq<char>, assoc_ops: Seq<Seq<char>>) -> bool {
    forall|i: int| 0 <= i < list.len() ==> (#[trigger] list[i]).is_flat(assoc_ops) && !list[i].absorbed_by(symbol)
}

proof fn lemma_flatten_flat(e: ExpressionView, assoc_ops: Seq<Seq<char>>, n: nat)
    requires
        e.children is Some,
        e.only_applies(assoc_ops),
        n <= e.arity(),
    ensures
        flat_list(ExpressionView::flatten_upto(e.train_children(assoc_ops), e.symbol, n), e.symbol, assoc_ops),
    decreases e, n,
{
    if n > 0 {
        lemma_flatten_flat(e, assoc_ops, (n - 1) as nat);
        let ns = e.train_children(assoc_ops);
        let c = e.children->0[n - 1];
        let nc = ns[n - 1];
        assert(nc == c.to_assoc_train(assoc_ops));
        assert(c.only_applies(assoc_ops));
        lemma_train_form_is_flat(c, assoc_ops);
        let earlier = ExpressionView::flatten_upto(ns, e.symbol, (n - 1) as nat);
        let chunk = if nc.absorbed_by(e.symbol) {
            nc.children->0
        } else {
            seq![nc]
        };
        let all = ExpressionView::flatten_upto(ns, e.symbol, n);
        assert(all == earlier + chunk);
        assert forall|i: int| 0 <= i < all.len() implies (#[trigger] all[i]).is_flat(assoc_ops)
            && !all[i].absorbed_by(e.symbol) by {
            if i < earlier.len() {
                assert(all[i] == earlier[i]);
            } else {
                assert(all[i] == chunk[i - earlier.len()]);
            }
        }
    }
}

/// The train form of a tree that only applies associative operators is
/// flat.
pub proof fn lemma_train_form_is_flat(e: ExpressionView, assoc_ops: Seq<Seq<char>>)
    requires
        e.only_applies(assoc_ops),
    ensures
        e.to_assoc_train(assoc_ops).is_flat(assoc_ops),
    decreases e, e.arity() + 1,
{
    match e.children {
        None => {},
        Some(cs) => {
            lemma_flatten_flat(e, assoc_ops, cs.len());
        },
    }
}

/// A flat tree whose trains of two children have been made binary
/// operators comes back when it is brought to train form.
pub proof fn lemma_flat_comes_back(y: ExpressionView, assoc_ops: Seq<Seq<char>>, binary_ops: Seq<Seq<char>>)
    requires
        y.is_flat(assoc_ops),
    ensures
        y.pairs_to_binary(binary_ops).to_assoc_train(assoc_ops) == y,
        y.pairs_to_binary(binary_ops).symbol == y.symbol,
        (y.pairs_to_binary(binary_ops).children is Some) == (y.children is Some),
    decreases y,
{
    match y.children {
        None => {},
        Some(cs) => {
            let b = y.pairs_to_binary(binary_ops);
            let bs = b.children->0;
            let ns = b.train_children(assoc_ops);
            assert forall|i: int| 0 <= i < cs.len() implies #[trigger] ns[i] == cs[i] by {
                lemma_flat_comes_back(cs[i], assoc_ops, binary_ops);
                assert(bs[i] == cs[i].pairs_to_binary(binary_ops));
            }
            assert(ns =~= cs);
            lemma_flat_list_is_settled(cs, y.symbol, assoc_ops);
            lemma_flatten_fixed(cs, y.symbol, assoc_ops, cs.len());
            assert(cs.take(cs.len() as int) =~= cs);
        },
    }
}

/// A flat tree is its own train form.
pub proof fn lemma_flat_is_settled(y: ExpressionView, assoc_ops: Seq<Seq<char>>)
    requires
        y.is_flat(assoc_ops),
    ensures
        y.to_assoc_train(assoc_ops) == y,
    decreases y,
{
    match y.children {
        None => {},
        Some(cs) => {
            let ns = y.train_children(assoc_ops);
            assert forall|i: int| 0 <= i < cs.len() implies #[trigger] ns[i] == cs[i] by {
                lemma_flat_is_settled(cs[i], assoc_ops);
            }
            assert(ns =~= cs);
            lemma_flat_list_is_settled(cs, y.symbol, assoc_ops);
            lemma_flatten_fixed(cs, y.symbol, assoc_ops, cs.len());
            assert(cs.take(cs.len() as int) =~= cs);
        },
    }
}

/// A list of flat nodes, none a train of `symbol`, is settled.
pub proof fn lemma_flat_list_is_settled(list: Seq<ExpressionView>, symbol: Seq<char>, assoc_ops: Seq<Seq<char>>)
    requires
        flat_list(list, symbol, assoc_ops),
    ensures
        settled(list, symbol, assoc_ops),
    decreases list,
{
    assert forall|i: int| 0 <= i < list.len() implies (#[trigger] list[i]).to_assoc_train(assoc_ops) == list[i]
        && !list[i].absorbed_by(symbol) by {
        lemma_flat_is_settled(list[i], assoc_ops);
    }
}

/// For an expression that applies associative operators only: bringing it
/// to train form, turning the trains of two children into binary operators
/// again, and bringing the result to train form once more gives the first
/// train form, operand for operand in the same order.
pub proof fn law_flatten_round_trip(e: ExpressionView, assoc_ops: Seq<Seq<char>>, binary_ops: Seq<Seq<char>>)
    requires
        e.only_applies(assoc_ops),
    ensures
        e.to_assoc_train(assoc_ops).pairs_to_binary(binary_ops).to_assoc_train(assoc_ops) == e.to_assoc_train(
            assoc_ops,
        ),
{
    lemma_train_form_is_flat(e, assoc_ops);
    lemma_flat_comes_back(e.to_assoc_train(assoc_ops), assoc_ops, binary_ops);
}

impl ExpressionView {
    /// Whether a variadic marker occurs anywhere in the tree.
    pub open spec fn contains_variadic(self) -> bool
        decreases self,
    {
        self.kind == ExpressionType::Variadic || match self.children {
            None => false,
            Some(cs) => exists|i: int| 0 <= i < cs.len() && (#[trigger] cs[i]).contains_variadic(),
        }
    }

    /// Whether the tree holds neither a variable nor a variadic marker.
    pub open spec fn is_ground(self) -> bool {
        !self.contains_variable() && !self.contains_variadic()
    }

    /// Whether every value of the tree is a leaf, every other node has a
    /// list of children, and no node is a variadic marker.
    pub open spec fn is_well_formed(self) -> bool
        decreases self,
    {
        &&& self.kind != ExpressionType::Variadic
        &&& self.is_value() ==> self.children is None
        &&& !self.is_value() ==> self.children is Some
        &&& match self.children {
            None => true,
            Some(cs) => forall|i: int| 0 <= i < cs.len() ==> (#[trigger] cs[i]).is_well_formed(),
        }
    }
}

/// Whether `m` binds every key to the variable of that name.
pub open spec fn identity_bindings(m: Bindings) -> bool {
    forall|k: Seq<char>| #[trigger]
        m.dom().contains(k) ==> m[k] == ExpressionView::leaf(ExpressionType::ValueVar, k)
}

/// Putting bindings into a ground tree changes nothing.
pub proof fn lemma_apply_map_ground(e: ExpressionView, m: Bindings)
    requires
        e.is_ground(),
    ensures
        e.apply_map(m) == e,
    decreases e,
{
    match e.children {
        None => {},
        Some(cs) => {
            if cs.len() > 0 {
                assert(!cs[0].contains_variadic());
            }
            let rs = e.apply_map(m).children->0;
            assert forall|i: int| 0 <= i < cs.len() implies #[trigger] rs[i] == cs[i] by {
                assert(!cs[i].contains_variable());
                assert(!cs[i].contains_variadic());
                lemma_apply_map_ground(cs[i], m);
            }
            assert(rs =~= cs);
        },
    }
}

/// A ground equation rewrites nothing but its own left side.
pub proof fn lemma_ground_equation(node: ExpressionView, equation: ExpressionView, passes: nat)
    requires
        equation.is_equation(),
        equation.is_ground(),
    ensures
        node.apply_equation_within(equation, passes) == if equation.children->0[0] == node {
            Ok::<ExpressionView, ErrorKind>(equation.children->0[1])
        } else {
            Err::<ExpressionView, ErrorKind>(ErrorKind::PatternDoesNotMatch)
        },
    decreases passes,
{
    if equation.children->0[0] != node && passes > 0 {
        match node.match_pattern(equation.children->0[0]) {
            None => {},
            Some(m) => {
                lemma_apply_map_ground(equation, m);
                lemma_ground_equation(node, equation, (passes - 1) as nat);
            },
        }
    }
}

/// Replacing the node at `path` puts the new node there, and replacing it
/// again by the old node gives the old tree.
pub proof fn lemma_replace_at(root: ExpressionView, new: ExpressionView, path: Seq<usize>)
    requires
        root.at(path) is Some,
    ensures
        root.replace(new, path, None) is Ok,
        root.replace(new, path, None)->Ok_0.at(path) == Some(new),
        root.replace(new, path, None)->Ok_0.replace(root.at(path)->0, path, None) == Ok::<
            ExpressionView,
            ErrorKind,
        >(root),
    decreases path.len(),
{
    if path.len() == 0 {
        assert(new.at(path) == Some(new));
    } else {
        let cs = root.children->0;
        let i = path[0] as int;
        let child = cs[i];
        let rest = path.drop_first();
        assert(root.at(path) == child.at(rest));
        lemma_replace_at(child, new, rest);
        let c2 = child.replace(new, rest, None)->Ok_0;
        let r = root.with_children(cs.update(i, c2));
        assert(root.replace(new, path, None) == Ok::<ExpressionView, ErrorKind>(r));
        assert(r.children->0[i] == c2);
        assert(r.at(path) == c2.at(rest));
        let old = root.at(path)->0;
        assert(c2.replace(old, rest, None) == Ok::<ExpressionView, ErrorKind>(child));
        assert(cs.update(i, c2).update(i, child) =~= cs);
        assert(r.replace(old, path, None) == Ok::<ExpressionView, ErrorKind>(r.with_children(cs)));
    }
}

/// Where a ground equation has been applied at an address without sub
/// index, applying the flipped equation at the same address of the result
/// gives the tree that was there before.
pub proof fn law_equation_round_trip(root: ExpressionView, equation: ExpressionView, address: AddressView)
    requires
        equation.is_equation(),
        equation.is_ground(),
        address.sub is None,
        root.apply_equation_at(equation, address) is Ok,
    ensures
        root.apply_equation_at(equation, address)->Ok_0.apply_equation_at(equation.flip_equation(), address)
            == Ok::<ExpressionView, ErrorKind>(root),
{
    let node = root.at(address.path)->0;
    let lhs = equation.children->0[0];
    let rhs = equation.children->0[1];
    lemma_ground_equation(node, equation, crate::expression::rewrite::LIMIT_OF_GROUNDING_PASSES as nat);
    assert(lhs == node);
    lemma_replace_at(root, rhs, address.path);
    let after = root.replace(rhs, address.path, None)->Ok_0;
    assert(root.apply_equation_at(equation, address) == Ok::<ExpressionView, ErrorKind>(after));
    let flipped = equation.flip_equation();
    assert(flipped.children->0 =~= seq![rhs, lhs]);
    assert(flipped.is_equation());
    assert(rhs.apply_equation_within(
        flipped,
        crate::expression::rewrite::LIMIT_OF_GROUNDING_PASSES as nat,
    ) == Ok::<ExpressionView, ErrorKind>(lhs));
}

/// Two sets of bindings that bind every key to the variable of that name
/// agree, and so does what they make together.
pub proof fn lemma_identity_bindings_merge(a: Bindings, b: Bindings)
    requires
        identity_bindings(a),
        identity_bindings(b),
    ensures
        crate::expression::match_map::agree(a, b),
        identity_bindings(a.union_prefer_right(b)),
{
}

/// The first `n` children of a well-formed node match themselves, each
/// variable bound to itself.
pub proof fn lemma_match_children_self(e: ExpressionView, n: nat)
    requires
        e.is_well_formed(),
        e.children is Some,
        n <= e.arity(),
    ensures
        e.match_children(e, n) is Some,
        identity_bindings(e.match_children(e, n)->0),
    decreases e, n,
{
    if n > 0 {
        lemma_match_children_self(e, (n - 1) as nat);
        let c = e.children->0[n - 1];
        lemma_match_self(c);
        lemma_identity_bindings_merge(e.match_children(e, (n - 1) as nat)->0, c.match_pattern(c)->0);
    }
}

/// A well-formed expression matches itself, each variable bound to itself.
pub proof fn lemma_match_self(e: ExpressionView)
    requires
        e.is_well_formed(),
    ensures
        e.match_pattern(e) is Some,
        identity_bindings(e.match_pattern(e)->0),
    decreases e, e.arity() + 1,
{
    if e.kind == ExpressionType::ValueConst {
    } else if e.kind == ExpressionType::ValueVar {
        let m = Map::<Seq<char>, ExpressionView>::empty().insert(e.symbol, e);
        assert(e.match_pattern(e) == Some(m));
    } else {
        if e.arity() > 0 {
            assert(e.children->0[0].is_well_formed());
        }
        assert(!e.is_parent_of_variadic());
        lemma_match_children_self(e, e.arity());
    }
}

/// Putting bindings that bind every key to the variable of that name into
/// a well-formed expression changes nothing.
pub proof fn lemma_apply_identity(e: ExpressionView, m: Bindings)
    requires
        e.is_well_formed(),
        identity_bindings(m),
    ensures
        e.apply_map(m) == e,
    decreases e,
{
    if e.kind == ExpressionType::ValueVar {
    } else {
        match e.children {
            None => {},
            Some(cs) => {
                if cs.len() > 0 {
                    assert(cs[0].is_well_formed());
                }
                assert(!e.is_parent_of_variadic());
                let rs = e.apply_map(m).children->0;
                assert forall|i: int| 0 <= i < cs.len() implies #[trigger] rs[i] == cs[i] by {
                    lemma_apply_identity(cs[i], m);
                }
                assert(rs =~= cs);
            },
        }
    }
}

/// A well-formed expression is equivalent to itself.
pub proof fn law_equivalent_reflexive(e: ExpressionView)
    requires
        e.is_well_formed(),
    ensures
        e.is_equivalent_to(e),
{
    lemma_match_self(e);
    lemma_apply_identity(e, e.match_pattern(e)->0);
}

/// Where a ground equation has been applied to a well-formed tree at an
/// address without sub index, applying the flipped equation at the same
/// address of the result gives a tree that the first tree is equivalent to.
pub proof fn law_equation_soundness(root: ExpressionView, equation: ExpressionView, address: AddressView)
    requires
        root.is_well_formed(),
        equation.is_equation(),
        equation.is_ground(),
        address.sub is None,
        root.apply_equation_at(equation, address) is Ok,
    ensures
        root.apply_equation_at(equation, address)->Ok_0.apply_equation_at(equation.flip_equation(), address)
            is Ok,
        root.is_equivalent_to(
            root.apply_equation_at(equation, address)->Ok_0.apply_equation_at(
                equation.flip_equation(),
                address,
            )->Ok_0,
        ),
{
    law_equation_round_trip(root, equation, address);
    law_equivalent_reflexive(root);
}

/// Of two different sequences exactly one comes before the other, and none
/// comes before itself.
proof fn lemma_seq_less_total(a: Seq<usize>, b: Seq<usize>)
    ensures
        a == b ==> !seq_less(a, b),
        a != b ==> (seq_less(a, b) != seq_less(b, a)),
    decreases a.len(),
{
    if a.len() == 0 || b.len() == 0 {
        if a.len() == 0 && b.len() == 0 {
            assert(a =~= b);
        }
    } else if a[0] == b[0] {
        lemma_seq_less_total(a.drop_first(), b.drop_first());
        if a.drop_first() == b.drop_first() {
            assert(a =~= seq![a[0]] + a.drop_first());
            assert(b =~= seq![b[0]] + b.drop_first());
        }
    }
}

/// The lexicographic order on sequences is transitive.
proof fn lemma_seq_less_transitive(a: Seq<usize>, b: Seq<usize>, c: Seq<usize>)
    requires
        seq_less(a, b),
        seq_less(b, c),
    ensures
        seq_less(a, c),
    decreases a.len(),
{
    if a.len() > 0 && a[0] == b[0] && b[0] == c[0] {
        lemma_seq_less_transitive(a.drop_first(), b.drop_first(), c.drop_first());
    }
}

/// The order on addresses is a strict total order: no address comes before
/// itself, of two different addresses exactly one comes before the other,
/// and what comes before an address comes before all that come after it.
pub proof fn law_address_order(a: AddressView, b: AddressView, c: AddressView)
    ensures
        !a.before(a),
        a != b ==> (a.before(b) != b.before(a)),
        a.before(b) && b.before(c) ==> a.before(c),
{
    lemma_seq_less_total(a.path, a.path);
    lemma_seq_less_total(a.path, b.path);
    lemma_seq_less_total(b.path, c.path);
    lemma_seq_less_total(a.path, c.path);
    if a.before(b) && b.before(c) {
        if seq_less(a.path, b.path) && seq_less(b.path, c.path) {
            lemma_seq_less_transitive(a.path, b.path, c.path);
        }
    }
}

/// An address comes before every address further down, whatever the sub
/// index of either.
pub proof fn law_address_order_descends(a: AddressView, b: AddressView)
    requires
        a.path.len() < b.path.len(),
        b.path.take(a.path.len() as int) == a.path,
    ensures
        a.before(b),
{
    lemma_prefix_is_less(a.path, b.path);
}

/// A sequence comes before every sequence that continues it.
proof fn lemma_prefix_is_less(a: Seq<usize>, b: Seq<usize>)
    requires
        a.len() < b.len(),
        b.take(a.len() as int) == a,
    ensures
        seq_less(a, b),
    decreases a.len(),
{
    if a.len() > 0 {
        assert(b.take(a.len() as int)[0] == a[0]);
        assert(b.drop_first().take(a.len() - 1) =~= a.drop_first()) by {
            assert forall|i: int| 0 <= i < a.len() - 1 implies b.drop_first().take(a.len() - 1)[i]
                == a.drop_first()[i] by {
                assert(b.take(a.len() as int)[i + 1] == a[i + 1]);
            }
        }
        lemma_prefix_is_less(a.drop_first(), b.drop_first());
    }
}

/// Writing the trains of two children as binary operators a second time
/// changes nothing.
pub proof fn law_pairs_settle(e: ExpressionView, binary_ops: Seq<Seq<char>>)
    ensures
        e.pairs_to_binary(binary_ops).pairs_to_binary(binary_ops) == e.pairs_to_binary(binary_ops),
    decreases e,
{
    let p = e.pairs_to_binary(binary_ops);
    match e.children {
        None => {},
        Some(cs) => {
            assert forall|i: int| 0 <= i < cs.len() implies (#[trigger] p.children->0[i]).pairs_to_binary(binary_ops)
                == p.children->0[i] by {
                law_pairs_settle(cs[i], binary_ops);
            }
            assert(p.pairs_to_binary(binary_ops).children->0 =~= p.children->0);
        },
    }
}

/// Taking the single child for every train of one child a second time
/// changes nothing.
pub proof fn law_singles_settle(e: ExpressionView)
    ensures
        e.collapse_single().collapse_single() == e.collapse_single(),
    decreases e,
{
    let c = e.collapse_single();
    match e.children {
        None => {},
        Some(cs) => {
            if e.is_assoc_train() && cs.len() == 1 {
                law_singles_settle(cs[0]);
            } else {
                assert forall|i: int| 0 <= i < cs.len() implies (#[trigger] c.children->0[i]).collapse_single()
                    == c.children->0[i] by {
                    law_singles_settle(cs[i]);
                }
                assert(c.collapse_single().children->0 =~= c.children->0);
            }
        },
    }
}

} // verus!
