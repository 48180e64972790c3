//! The infix text of an expression.

use vstd::prelude::*;
use vstd::string::*;

use crate::expression::Address;
use crate::expression::Expression;
use crate::expression::ExpressionType;
use crate::expression::ExpressionView;
use crate::expression::pattern::lemma_rename_height;
use crate::expression::tree::lemma_child_height;
use crate::expression::tree::symbols_of;
use crate::expression::views;
use crate::text::push_char;

verus! {

/// `text` between round brackets if `parentheses` is set, bare otherwise.
pub open spec fn wrapped(text: Seq<char>, parentheses: bool) -> Seq<char> {
    if parentheses {
        seq!['('] + text + seq![')']
    } else {
        text
    }
}

impl ExpressionView {
    /// The text of child `i`, empty where there is no such child.
    pub open spec fn child_text(self, i: int, parentheses: bool) -> Seq<char>
        decreases self.height(), 0nat,
    {
        if self.children is Some && 0 <= i < self.arity() {
            proof {
                lemma_child_height(self, i);
            }
            self.children->0[i].display(parentheses)
        } else {
            Seq::empty()
        }
    }

    /// The texts of the first `n` children, with `separator` between them.
    pub open spec fn joined(self, n: nat, separator: Seq<char>, parentheses: bool) -> Seq<char>
        decreases self.height(), n,
    {
        if n == 0 || n > self.arity() || self.children is None {
            Seq::empty()
        } else if n == 1 {
            proof {
                lemma_child_height(self, 0);
            }
            self.children->0[0].display(parentheses)
        } else {
            proof {
                lemma_child_height(self, n - 1);
            }
            self.joined((n - 1) as nat, separator, parentheses) + separator + self.children->0[n
                - 1].display(parentheses)
        }
    }

    /// The text of a variadic train: its first two instances and an
    /// ellipsis.
    pub open spec fn variadic_text(self, parentheses: bool) -> Seq<char>
        decreases self.height(), 0nat,
    {
        match self.template() {
            None => "UNREACHABLE, VARIADIC MARKER SHOULD HAVE A CHILDREN"@,
            Some(t) => {
                proof {
                    lemma_template_height(self);
                    let symbols = symbols_of(t.collect_var(None));
                    lemma_rename_height(t, symbols, symbols.len(), 1);
                    lemma_rename_height(t, symbols, symbols.len(), 2);
                }
                wrapped(
                    t.instance(None, 1).display(parentheses) + seq![' '] + self.symbol + seq![' '] + t.instance(
                        None,
                        2,
                    ).display(parentheses) + seq![' '] + self.symbol + seq![' ', '.', '.', '.'],
                    parentheses,
                )
            },
        }
    }

    /// The infix text of the expression. With `parentheses`, every operator
    /// application but a function call is put between round brackets.
    pub open spec fn display(self, parentheses: bool) -> Seq<char>
        decreases self.height(), self.arity() + 1,
    {
        match self.kind {
            ExpressionType::ValueConst => self.symbol,
            ExpressionType::ValueVar => self.symbol,
            ExpressionType::OperatorUnary => wrapped(self.symbol + self.child_text(0, parentheses), parentheses),
            ExpressionType::StatementOperatorBinary | ExpressionType::OperatorBinary => wrapped(
                self.child_text(0, parentheses) + seq![' '] + self.symbol + seq![' '] + self.child_text(
                    1,
                    parentheses,
                ),
                parentheses,
            ),
            ExpressionType::OperatorNary => self.symbol + seq!['('] + self.joined(
                self.arity(),
                seq![',', ' '],
                parentheses,
            ) + seq![')'],
            ExpressionType::AssocTrain => if self.is_parent_of_variadic() {
                self.variadic_text(parentheses)
            } else {
                wrapped(self.joined(self.arity(), seq![' '] + self.symbol + seq![' '], parentheses), parentheses)
            },
            ExpressionType::Variadic => "UNREACHABLE, VARIADIC MARKER SHOULD NEVER BE PRINTED"@,
        }
    }
}

/// The template of a variadic train lies two levels below it.
pub proof fn lemma_template_height(e: ExpressionView)
    ensures
        e.template() is Some ==> e.template()->0.height() < e.height(),
        e.template() is Some ==> {
            &&& e.children is Some
            &&& e.arity() > 0
            &&& e.children->0[0].children is Some
            &&& e.children->0[0].arity() > 0
            &&& e.template()->0 == e.children->0[0].children->0[0]
        },
{
    if e.template() is Some {
        let path = seq![0usize, 0usize];
        assert(path.drop_first() =~= seq![0usize]);
        assert(path.drop_first().drop_first() =~= Seq::<usize>::empty());
        let marker = e.children->0[0];
        assert(e.at(path) == marker.at(seq![0usize]));
        let t = marker.children->0[0];
        assert(marker.at(seq![0usize]) == t.at(Seq::<usize>::empty()));
        lemma_child_height(e, 0);
        lemma_child_height(marker, 0);
    }
}

impl Expression {
    /// Adds `text` to `out`, between round brackets if `parentheses` is set.
    fn push_wrapped(out: &mut String, text: &String, parentheses: bool)
        ensures
            final(out)@ == old(out)@ + wrapped(text@, parentheses),
    {
        let ghost before = out@;
        if parentheses {
            push_char(out, '(');
        }
        out.append(text.as_str());
        if parentheses {
            push_char(out, ')');
        }
        assert(out@ =~= before + wrapped(text@, parentheses));
    }

    /// The text of child `i`, empty where there is no such child.
    fn child_string(&self, i: usize, parentheses: bool) -> (s: String)
        ensures
            s@ == self@.child_text(i as int, parentheses),
        decreases self@.height(), 0nat,
    {
        proof {
            self.lemma_view();
        }
        match &self.children {
            Some(children) => {
                if i < children.len() {
                    proof {
                        lemma_child_height(self@, i as int);
                    }
                    children[i].to_string(parentheses)
                } else {
                    String::new()
                }
            },
            None => String::new(),
        }
    }

    /// The texts of the children, with `separator` between them.
    #[verifier::loop_isolation(false)]
    fn join_children(&self, separator: &String, parentheses: bool) -> (s: String)
        ensures
            s@ == self@.joined(self@.arity(), separator@, parentheses),
        decreases self@.height(), self@.arity(),
    {
        proof {
            self.lemma_view();
        }
        let mut result = String::new();
        match &self.children {
            None => {},
            Some(children) => {
                let mut i: usize = 0;
                while i < children.len()
                    invariant
                        i <= children.len(),
                        result@ == self@.joined(i as nat, separator@, parentheses),
                    decreases children.len() - i,
                {
                    proof {
                        lemma_child_height(self@, i as int);
                    }
                    if i > 0 {
                        result.append(separator.as_str());
                    }
                    let text = children[i].to_string(parentheses);
                    result.append(text.as_str());
                    proof {
                        if i == 0 {
                            assert(result@ =~= children@[0]@.display(parentheses));
                        }
                    }
                    i += 1;
                }
            },
        }
        result
    }

    /// The infix text of the expression. With `parentheses`, every operator
    /// application but a function call is put between round brackets.
    pub fn to_string(&self, parentheses: bool) -> (s: String)
        ensures
            s@ == self@.display(parentheses),
        decreases self@.height(), self@.arity() + 1,
    {
        match self.exp_type {
            ExpressionType::ValueConst => self.symbol.clone(),
            ExpressionType::ValueVar => self.symbol.clone(),
            ExpressionType::OperatorUnary => {
                let mut text = self.symbol.clone();
                let child = self.child_string(0, parentheses);
                text.append(child.as_str());
                let mut out = String::new();
                Self::push_wrapped(&mut out, &text, parentheses);
                assert(out@ =~= wrapped(text@, parentheses));
                out
            },
            ExpressionType::StatementOperatorBinary | ExpressionType::OperatorBinary => {
                let mut text = self.child_string(0, parentheses);
                push_char(&mut text, ' ');
                text.append(self.symbol.as_str());
                push_char(&mut text, ' ');
                let right = self.child_string(1, parentheses);
                text.append(right.as_str());
                assert(text@ =~= self@.child_text(0, parentheses) + seq![' '] + self@.symbol + seq![' ']
                    + self@.child_text(1, parentheses));
                let mut out = String::new();
                Self::push_wrapped(&mut out, &text, parentheses);
                assert(out@ =~= wrapped(text@, parentheses));
                out
            },
            ExpressionType::OperatorNary => {
                let mut result = self.symbol.clone();
                push_char(&mut result, '(');
                let mut separator = String::new();
                push_char(&mut separator, ',');
                push_char(&mut separator, ' ');
                assert(separator@ =~= seq![',', ' ']);
                let inner = self.join_children(&separator, parentheses);
                result.append(inner.as_str());
                push_char(&mut result, ')');
                assert(result@ =~= self@.symbol + seq!['('] + self@.joined(
                    self@.arity(),
                    seq![',', ' '],
                    parentheses,
                ) + seq![')']);
                result
            },
            ExpressionType::AssocTrain => {
                if self.is_parent_of_variadic() {
                    self.variadic_string(parentheses)
                } else {
                    let mut separator = String::new();
                    push_char(&mut separator, ' ');
                    separator.append(self.symbol.as_str());
                    push_char(&mut separator, ' ');
                    assert(separator@ =~= seq![' '] + self@.symbol + seq![' ']);
                    let inner = self.join_children(&separator, parentheses);
                    let mut out = String::new();
                    Self::push_wrapped(&mut out, &inner, parentheses);
                    assert(out@ =~= wrapped(inner@, parentheses));
                    out
                }
            },
            ExpressionType::Variadic => String::from_str("UNREACHABLE, VARIADIC MARKER SHOULD NEVER BE PRINTED"),
        }
    }

    /// The text of a variadic train: its first two instances and an
    /// ellipsis.
    #[verifier::loop_isolation(false)]
    fn variadic_string(&self, parentheses: bool) -> (s: String)
        ensures
            s@ == self@.variadic_text(parentheses),
        decreases self@.height(), 0nat,
    {
        let mut path: Vec<usize> = Vec::new();
        path.push(0);
        path.push(0);
        assert(path@ =~= seq![0usize, 0usize]);
        let grandchild = match self.at(&Address::new(path, None)) {
            Ok(e) => e,
            Err(_) => {
                return String::from_str("UNREACHABLE, VARIADIC MARKER SHOULD HAVE A CHILDREN");
            },
        };
        let ghost t = grandchild@;
        let ghost symbols = symbols_of(t.collect_var(None));
        let variables = grandchild.collect_var(None);
        let mut first = grandchild.clone();
        let mut second = grandchild.clone();
        let mut s: usize = 0;
        while s < variables.len()
            invariant
                s <= variables.len(),
                first@ == t.rename_upto(symbols, s as nat, 1),
                second@ == t.rename_upto(symbols, s as nat, 2),
            decreases variables.len() - s,
        {
            proof {
                variables[s as int].lemma_view();
                assert(symbols[s as int] == views(variables@)[s as int].symbol);
                reveal_with_fuel(crate::text::decimal, 2);
                assert(crate::text::decimal(1) =~= seq!['1']);
                assert(crate::text::decimal(2) =~= seq!['2']);
            }
            let symbol = variables[s].symbol.clone();
            let mut new_symbol1 = symbol.clone();
            push_char(&mut new_symbol1, '_');
            push_char(&mut new_symbol1, '1');
            let mut new_symbol2 = symbol.clone();
            push_char(&mut new_symbol2, '_');
            push_char(&mut new_symbol2, '2');
            assert(new_symbol1@ =~= crate::expression::pattern::indexed_symbol(symbol@, 1));
            assert(new_symbol2@ =~= crate::expression::pattern::indexed_symbol(symbol@, 2));
            first = first.substitute_symbol(symbol.clone(), new_symbol1);
            second = second.substitute_symbol(symbol, new_symbol2);
            s += 1;
        }
        proof {
            lemma_template_height(self@);
            lemma_rename_height(t, symbols, symbols.len(), 1);
            lemma_rename_height(t, symbols, symbols.len(), 2);
        }
        let mut text = first.to_string(parentheses);
        push_char(&mut text, ' ');
        text.append(self.symbol.as_str());
        push_char(&mut text, ' ');
        let right = second.to_string(parentheses);
        text.append(right.as_str());
        push_char(&mut text, ' ');
        text.append(self.symbol.as_str());
        push_char(&mut text, ' ');
        push_char(&mut text, '.');
        push_char(&mut text, '.');
        push_char(&mut text, '.');
        assert(text@ =~= t.instance(None, 1).display(parentheses) + seq![' '] + self@.symbol + seq![' ']
            + t.instance(None, 2).display(parentheses) + seq![' '] + self@.symbol + seq![' ', '.', '.', '.']);
        let mut out = String::new();
        Self::push_wrapped(&mut out, &text, parentheses);
        assert(out@ =~= wrapped(text@, parentheses));
        out
    }
}

} // verus!
