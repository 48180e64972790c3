//! Positions in an expression tree.

use vstd::prelude::*;

verus! {

/// A position in an expression: the child indices from the root, and
/// optionally the left index of a pair of neighbours inside an `AssocTrain`.
#[derive(Debug, PartialEq, Eq)]
pub struct Address {
    pub path: Vec<usize>,
    pub sub: Option<usize>,
}

/// The mathematical value of an [`Address`].
pub struct AddressView {
    pub path: Seq<usize>,
    pub sub: Option<usize>,
}

impl View for Address {
    type V = AddressView;

    open spec fn view(&self) -> AddressView {
        AddressView { path: self.path@, sub: self.sub }
    }
}

impl AddressView {
    /// The path followed by the sub index, if there is one.
    pub open spec fn flat(self) -> Seq<usize> {
        match self.sub {
            Some(s) => self.path.push(s),
            None => self.path,
        }
    }
}

/// Whether `a` comes before `b` in lexicographic order.
pub open spec fn seq_less(a: Seq<usize>, b: Seq<usize>) -> bool
    decreases a.len(),
{
    if b.len() == 0 {
        false
    } else if a.len() == 0 {
        true
    } else if a[0] != b[0] {
        a[0] < b[0]
    } else {
        seq_less(a.drop_first(), b.drop_first())
    }
}

impl AddressView {
    /// Whether this address comes before `other`: by path in lexicographic
    /// order, and for one path by sub index, an address without a sub index
    /// first.
    pub open spec fn before(self, other: AddressView) -> bool {
        seq_less(self.path, other.path) || (self.path == other.path && match (self.sub, other.sub) {
            (None, Some(_)) => true,
            (Some(a), Some(b)) => a < b,
            _ => false,
        })
    }
}

/// The length of the longest common prefix of `a` and `b`.
pub open spec fn common_prefix_len(a: Seq<usize>, b: Seq<usize>) -> nat
    decreases a.len(),
{
    if a.len() == 0 || b.len() == 0 || a[0] != b[0] {
        0
    } else {
        1 + common_prefix_len(a.drop_first(), b.drop_first())
    }
}

/// The elements of `v` from `from` up to `to`.
fn copy_range(v: &Vec<usize>, from: usize, to: usize) -> (out: Vec<usize>)
    requires
        from <= to <= v.len(),
    ensures
        out@ == v@.subrange(from as int, to as int),
        from == 0 && to == v.len() ==> out@ == v@,
{
    let mut out: Vec<usize> = Vec::new();
    let mut i: usize = from;
    while i < to
        invariant
            from <= i <= to <= v.len(),
            out@ == v@.subrange(from as int, i as int),
        decreases to - i,
    {
        out.push(v[i]);
        assert(out@ =~= v@.subrange(from as int, i + 1));
        i += 1;
    }
    proof {
        if from == 0 && to == v.len() {
            assert(out@ =~= v@);
        }
    }
    out
}

impl Clone for Address {
    fn clone(&self) -> (res: Self)
        ensures
            res@ == self@,
    {
        Address { path: copy_range(&self.path, 0, self.path.len()), sub: self.sub }
    }
}

impl Default for Address {
    fn default() -> (a: Address)
        ensures
            a@.path == Seq::<usize>::empty(),
            a@.sub is None,
    {
        Address { path: Vec::new(), sub: None }
    }
}

impl Address {
    pub fn new(path: Vec<usize>, sub: Option<usize>) -> (a: Address)
        ensures
            a@.path == path@,
            a@.sub == sub,
    {
        Address { path, sub }
    }

    /// Whether two addresses name the same position.
    pub fn equals(&self, other: &Address) -> (r: bool)
        ensures
            r == (self@ == other@),
    {
        let same_sub = match (self.sub, other.sub) {
            (None, None) => true,
            (Some(a), Some(b)) => a == b,
            _ => false,
        };
        if !same_sub || self.path.len() != other.path.len() {
            return false;
        }
        let mut i: usize = 0;
        while i < self.path.len()
            invariant
                i <= self.path.len(),
                self.path.len() == other.path.len(),
                forall|j: int| 0 <= j < i ==> self.path@[j] == other.path@[j],
            decreases self.path.len() - i,
        {
            if self.path[i] != other.path[i] {
                return false;
            }
            i += 1;
        }
        assert(self.path@ =~= other.path@);
        true
    }

    /// The address of child `val` of this position.
    pub fn append(&self, val: usize) -> (a: Address)
        ensures
            a@.path == self@.path.push(val),
            a@.sub == self@.sub,
    {
        let mut new_path = copy_range(&self.path, 0, self.path.len());
        new_path.push(val);
        Address { path: new_path, sub: self.sub }
    }

    /// The same path, with the pair starting at `val` selected.
    pub fn sub(&self, val: usize) -> (a: Address)
        ensures
            a@.path == self@.path,
            a@.sub == Some(val),
    {
        Address { path: copy_range(&self.path, 0, self.path.len()), sub: Some(val) }
    }

    /// The same path, with no pair selected.
    pub fn no_sub(&self) -> (a: Address)
        ensures
            a@.path == self@.path,
            a@.sub is None,
    {
        Address { path: copy_range(&self.path, 0, self.path.len()), sub: None }
    }

    /// The address without its first step.
    pub fn tail(&self) -> (a: Address)
        requires
            self@.path.len() > 0,
        ensures
            a@.path == self@.path.drop_first(),
            a@.sub == self@.sub,
    {
        Address { path: copy_range(&self.path, 1, self.path.len()), sub: self.sub }
    }

    /// The first step.
    pub fn head(&self) -> (i: usize)
        requires
            self@.path.len() > 0,
        ensures
            i == self@.path[0],
    {
        self.path[0]
    }

    /// The last step.
    pub fn last(&self) -> (i: usize)
        requires
            self@.path.len() > 0,
        ensures
            i == self@.path.last(),
    {
        self.path[self.path.len() - 1]
    }

    /// The address without its last step.
    pub fn parent(&self) -> (a: Address)
        requires
            self@.path.len() > 0,
        ensures
            a@.path == self@.path.drop_last(),
            a@.sub == self@.sub,
    {
        Address { path: copy_range(&self.path, 0, self.path.len() - 1), sub: self.sub }
    }

    pub fn is_empty(&self) -> (r: bool)
        ensures
            r == (self@.path.len() == 0 && self@.sub is None),
    {
        self.path.len() == 0 && self.sub.is_none()
    }

    /// The first `n` steps.
    pub fn take(&self, n: usize) -> (a: Address)
        requires
            n <= self@.path.len(),
        ensures
            a@.path == self@.path.take(n as int),
            a@.sub == self@.sub,
    {
        Address { path: copy_range(&self.path, 0, n), sub: self.sub }
    }

    /// The path followed by the sub index, if there is one.
    pub fn to_vec(&self) -> (v: Vec<usize>)
        ensures
            v@ == self@.flat(),
    {
        let mut v = copy_range(&self.path, 0, self.path.len());
        if let Some(sub) = self.sub {
            v.push(sub);
        }
        v
    }

    /// The deepest position that lies on both paths.
    pub fn common_ancestor(a: &Address, b: &Address) -> (c: Address)
        ensures
            c@.path == a@.path.take(common_prefix_len(a@.path, b@.path) as int),
            c@.sub is None,
    {
        let mut i: usize = 0;
        proof {
            assert(a@.path.skip(0) =~= a@.path);
            assert(b@.path.skip(0) =~= b@.path);
        }
        while i < a.path.len() && i < b.path.len() && a.path[i] == b.path[i]
            invariant
                i <= a.path.len(),
                i <= b.path.len(),
                common_prefix_len(a@.path, b@.path) == i + common_prefix_len(
                    a@.path.skip(i as int),
                    b@.path.skip(i as int),
                ),
            decreases a.path.len() - i,
        {
            proof {
                let x = a@.path.skip(i as int);
                let y = b@.path.skip(i as int);
                assert(x.drop_first() =~= a@.path.skip(i + 1));
                assert(y.drop_first() =~= b@.path.skip(i + 1));
            }
            i += 1;
        }
        Address::new(copy_range(&a.path, 0, i), None)
    }

    /// Whether both addresses are equally deep and share all but their last
    /// `n + 1` steps. Cousins of order zero are siblings.
    pub fn is_nth_cousin(&self, other: &Address, n: usize) -> (r: bool)
        ensures
            r == (self@.path.len() == other@.path.len() && self@.path.len() >= n + 1
                && self@.path.take(self@.path.len() - n - 1) == other@.path.take(
                other@.path.len() - n - 1,
            )),
    {
        if self.path.len() != other.path.len() {
            return false;
        }
        if self.path.len() <= n {
            return false;
        }
        let k = self.path.len() - n - 1;
        prefixes_equal(&self.path, &other.path, k)
    }

    pub fn is_sibling(&self, other: &Address) -> (r: bool)
        ensures
            r == (self@.path.len() == other@.path.len() && self@.path.len() >= 1
                && self@.path.drop_last() == other@.path.drop_last()),
    {
        proof {
            if self@.path.len() == other@.path.len() && self@.path.len() >= 1 {
                assert(self@.path.take(self@.path.len() - 1) =~= self@.path.drop_last());
                assert(other@.path.take(other@.path.len() - 1) =~= other@.path.drop_last());
            }
        }
        self.is_nth_cousin(other, 0)
    }

    /// Whether this address lies exactly `n` steps below `other`.
    pub fn is_nth_order_child_of(&self, other: &Address, n: usize) -> (r: bool)
        ensures
            r == (self@.path.len() == other@.path.len() + n && self@.path.take(
                other@.path.len() as int,
            ) == other@.path),
    {
        if self.path.len() < n {
            return false;
        }
        if self.path.len() - n != other.path.len() {
            return false;
        }
        proof {
            assert(other@.path.take(other@.path.len() as int) =~= other@.path);
        }
        prefixes_equal(&self.path, &other.path, other.path.len())
    }

    pub fn is_child_of(&self, other: &Address) -> (r: bool)
        ensures
            r == (self@.path.len() == other@.path.len() + 1 && self@.path.drop_last() == other@.path),
    {
        proof {
            if self@.path.len() == other@.path.len() + 1 {
                assert(self@.path.take(other@.path.len() as int) =~= self@.path.drop_last());
            }
        }
        self.is_nth_order_child_of(other, 1)
    }

    pub fn is_grandchild_of(&self, other: &Address) -> (r: bool)
        ensures
            r == (self@.path.len() == other@.path.len() + 2 && self@.path.take(
                other@.path.len() as int,
            ) == other@.path),
    {
        self.is_nth_order_child_of(other, 2)
    }

    /// Whether this address comes before `other`: by path in lexicographic
    /// order, then by sub index.
    pub fn is_before(&self, other: &Address) -> (r: bool)
        ensures
            r == self@.before(other@),
    {
        let a = &self.path;
        let b = &other.path;
        let mut i: usize = 0;
        proof {
            assert(a@.skip(0) =~= a@);
            assert(b@.skip(0) =~= b@);
        }
        while i < a.len() && i < b.len() && a[i] == b[i]
            invariant
                i <= a.len(),
                i <= b.len(),
                seq_less(a@, b@) == seq_less(a@.skip(i as int), b@.skip(i as int)),
                forall|j: int| 0 <= j < i ==> a@[j] == b@[j],
            decreases a.len() - i,
        {
            proof {
                assert(a@.skip(i as int).drop_first() =~= a@.skip(i + 1));
                assert(b@.skip(i as int).drop_first() =~= b@.skip(i + 1));
            }
            i += 1;
        }
        if i >= b.len() {
            if i >= a.len() {
                assert(a@ =~= b@);
                match (self.sub, other.sub) {
                    (None, Some(_)) => true,
                    (Some(x), Some(y)) => x < y,
                    _ => false,
                }
            } else {
                assert(a@.len() != b@.len());
                false
            }
        } else if i >= a.len() {
            assert(a@.len() != b@.len());
            true
        } else {
            assert(a@[i as int] != b@[i as int]);
            a[i] < b[i]
        }
    }
}

/// Whether the first `k` elements of `a` and `b` agree.
fn prefixes_equal(a: &Vec<usize>, b: &Vec<usize>, k: usize) -> (r: bool)
    requires
        k <= a.len(),
        k <= b.len(),
    ensures
        r == (a@.take(k as int) == b@.take(k as int)),
{
    let mut i: usize = 0;
    while i < k
        invariant
            i <= k,
            k <= a.len(),
            k <= b.len(),
            forall|j: int| 0 <= j < i ==> a@[j] == b@[j],
        decreases k - i,
    {
        if a[i] != b[i] {
            assert(a@.take(k as int)[i as int] != b@.take(k as int)[i as int]);
            return false;
        }
        i += 1;
    }
    assert(a@.take(k as int) =~= b@.take(k as int));
    true
}

} // verus!
