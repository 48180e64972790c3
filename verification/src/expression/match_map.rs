//! The bindings that a successful match produces.

use vstd::prelude::*;

use crate::expression::Expression;
use crate::expression::ExpressionView;
use crate::text_map::Duplicate;
use crate::text_map::TextMap;

verus! {

/// The bindings of a match: from the symbol of a pattern variable to the
/// part of the subject bound to it.
pub type MatchMap = TextMap<Expression>;

impl Duplicate for Expression {
    fn duplicate(&self) -> (r: Expression) {
        self.clone()
    }
}

/// Whether two maps agree on every key that both bind.
pub open spec fn agree(a: Map<Seq<char>, ExpressionView>, b: Map<Seq<char>, ExpressionView>) -> bool {
    forall|k: Seq<char>| a.dom().contains(k) && b.dom().contains(k) ==> a[k] == b[k]
}

} // verus!
