//! Infix notation: `a + f(b) = -(c)`.

use vstd::prelude::*;
use vstd::string::*;

use crate::expression::Context;
use crate::expression::ContextView;
use crate::expression::Expression;
use crate::expression::ExpressionType;
use crate::expression::ExpressionView;
use crate::expression::StatementSymbols;
use crate::expression::context::list_contains;
use crate::expression::expression_builder::binary;
use crate::expression::expression_builder::binary_statement;
use crate::expression::expression_builder::nary;
use crate::expression::expression_builder::unary;
use crate::expression::expression_builder::variadic;
use crate::expression::views;
use crate::parser::parser_prefix::Token;
use crate::parser::parser_prefix::TokenView;
use crate::parser::parser_prefix::get_value_expression;
use crate::parser::parser_prefix::spaced_tokens_of;
use crate::parser::parser_prefix::token_views;
use crate::parser::parser_prefix::tokenize_with;
use crate::parser::parser_prefix::value_kind;
use crate::text::append_chars;
use crate::text::chars_of;
use crate::text::find_from;
use crate::text::first_match;
use crate::text::replace_chars;
use crate::text::replaced;
use crate::text::slice_chars;
use crate::text::string_of;
use crate::text::trim_chars;
use crate::text::trimmed;

verus! {

/// A token, or what stands between a pair of brackets.
#[derive(Debug, PartialEq)]
pub enum TokenItem {
    Token(Token),
    Group(Vec<TokenItem>),
}

/// The mathematical value of a [`TokenItem`].
pub enum TokenItemView {
    Token(TokenView),
    Group(Seq<TokenItemView>),
}

impl TokenItem {
    /// The model of this item.
    pub open spec fn model(self) -> TokenItemView
        decreases self,
    {
        match self {
            TokenItem::Token(t) => TokenItemView::Token(t@),
            TokenItem::Group(v) => TokenItemView::Group(
                Seq::new(
                    v.len() as nat,
                    |i: int|
                        if 0 <= i < v.len() {
                            v[i].model()
                        } else {
                            TokenItemView::Group(Seq::empty())
                        },
                ),
            ),
        }
    }

    /// How the model of a group is made of the models of its items.
    pub proof fn lemma_view(&self)
        ensures
            self@ == match *self {
                TokenItem::Token(t) => TokenItemView::Token(t@),
                TokenItem::Group(v) => TokenItemView::Group(item_views(v@)),
            },
    {
        match *self {
            TokenItem::Token(t) => {},
            TokenItem::Group(v) => {
                assert(self@->Group_0 =~= item_views(v@));
            },
        }
    }
}

impl View for TokenItem {
    type V = TokenItemView;

    open spec fn view(&self) -> TokenItemView {
        self.model()
    }
}

/// The models of a list of items.
pub open spec fn item_views(v: Seq<TokenItem>) -> Seq<TokenItemView> {
    Seq::new(v.len(), |i: int| v[i]@)
}

/// The models of a list of lists of items.
pub open spec fn item_group_views(groups: Seq<Vec<TokenItem>>) -> Seq<Seq<TokenItemView>> {
    Seq::new(groups.len(), |i: int| item_views(groups[i]@))
}

impl Clone for TokenItem {
    #[verifier::loop_isolation(false)]
    fn clone(&self) -> (res: Self)
        ensures
            res@ == self@,
        decreases self,
    {
        proof {
            self.lemma_view();
        }
        match self {
            TokenItem::Token(t) => {
                let res = TokenItem::Token(t.clone());
                proof {
                    res.lemma_view();
                }
                res
            },
            TokenItem::Group(v) => {
                let mut out: Vec<TokenItem> = Vec::new();
                let mut i: usize = 0;
                while i < v.len()
                    invariant
                        i <= v.len(),
                        out.len() == i,
                        forall|j: int| 0 <= j < i ==> out@[j]@ == v@[j]@,
                    decreases v.len() - i,
                {
                    out.push(v[i].clone());
                    i += 1;
                }
                assert(item_views(out@) =~= item_views(v@));
                let res = TokenItem::Group(out);
                proof {
                    res.lemma_view();
                }
                res
            },
        }
    }
}

impl TokenItemView {
    /// The symbol of a symbol token; empty for anything else.
    pub open spec fn symbol(self) -> Seq<char> {
        match self {
            TokenItemView::Token(TokenView::Symbol(s)) => s,
            _ => Seq::empty(),
        }
    }

    pub open spec fn is_group(self) -> bool {
        self is Group
    }

    pub open spec fn is_comma(self) -> bool {
        self == TokenItemView::Token(TokenView::Comma)
    }

    /// A group that holds a comma: the arguments of a function.
    pub open spec fn is_function_parameter(self) -> bool {
        match self {
            TokenItemView::Group(items) => exists|i: int| 0 <= i < items.len() && (#[trigger] items[i]).is_comma(),
            _ => false,
        }
    }

    /// A symbol that the context declares as unary operator.
    pub open spec fn is_unary_op(self, ctx: ContextView) -> bool {
        match self {
            TokenItemView::Token(TokenView::Symbol(s)) => ctx.unary_ops.contains(s),
            _ => false,
        }
    }

    /// A symbol that stands between two operands: a binary operator, an
    /// associative operator or a statement symbol.
    pub open spec fn is_effectively_binary_op(self, ctx: ContextView) -> bool {
        match self {
            TokenItemView::Token(TokenView::Symbol(s)) => ctx.binary_ops.contains(s) || ctx.assoc_ops.contains(s)
                || StatementSymbols::of_symbol(s) is Some,
            _ => false,
        }
    }

    /// Neither a group nor an operator.
    pub open spec fn is_simple_value(self, ctx: ContextView) -> bool {
        !(self.is_group() || self.is_unary_op(ctx) || self.is_effectively_binary_op(ctx))
    }

    /// The number of tokens and groups in this item.
    pub open spec fn size(self) -> nat
        decreases self, 0nat,
    {
        match self {
            TokenItemView::Token(_) => 1,
            TokenItemView::Group(items) => 1 + items_size(items, items.len()),
        }
    }
}

/// The number of tokens and groups in the first `n` of `items`.
pub open spec fn items_size(items: Seq<TokenItemView>, n: nat) -> nat
    decreases items, n,
{
    if n == 0 || n > items.len() {
        0
    } else {
        items_size(items, (n - 1) as nat) + items[n - 1].size()
    }
}

impl TokenItem {
    /// The symbol of a symbol token; empty for anything else.
    pub fn get_symbol(&self) -> (s: String)
        ensures
            s@ == self@.symbol(),
    {
        proof {
            self.lemma_view();
        }
        match self {
            TokenItem::Token(Token::Symbol(s)) => s.clone(),
            _ => String::new(),
        }
    }

    pub fn is_group(&self) -> (r: bool)
        ensures
            r == self@.is_group(),
    {
        proof {
            self.lemma_view();
        }
        match self {
            TokenItem::Group(_) => true,
            _ => false,
        }
    }

    pub fn is_comma(&self) -> (r: bool)
        ensures
            r == self@.is_comma(),
    {
        proof {
            self.lemma_view();
        }
        match self {
            TokenItem::Token(Token::Comma) => true,
            _ => false,
        }
    }

    /// Whether this is a group that holds a comma.
    #[verifier::loop_isolation(false)]
    pub fn is_function_parameter(&self) -> (r: bool)
        ensures
            r == self@.is_function_parameter(),
    {
        proof {
            self.lemma_view();
        }
        match self {
            TokenItem::Group(group) => {
                let mut i: usize = 0;
                while i < group.len()
                    invariant
                        i <= group.len(),
                        forall|j: int| 0 <= j < i ==> !(#[trigger] self@->Group_0[j]).is_comma(),
                    decreases group.len() - i,
                {
                    if group[i].is_comma() {
                        assert(self@->Group_0[i as int].is_comma());
                        return true;
                    }
                    i += 1;
                }
                false
            },
            _ => false,
        }
    }

    /// Whether this is neither a group nor an operator.
    pub fn is_simple_value(&self, ctx: &Context) -> (r: bool)
        ensures
            r == self@.is_simple_value(ctx@),
    {
        !(self.is_group() || self.is_unary_op(ctx) || self.is_effectively_binary_op(ctx))
    }

    pub fn is_unary_op(&self, ctx: &Context) -> (r: bool)
        ensures
            r == self@.is_unary_op(ctx@),
    {
        proof {
            self.lemma_view();
        }
        match self {
            TokenItem::Token(Token::Symbol(s)) => list_contains(&ctx.unary_ops, s.as_str()),
            _ => false,
        }
    }

    /// Whether this is a symbol that stands between two operands.
    pub fn is_effectively_binary_op(&self, ctx: &Context) -> (r: bool)
        ensures
            r == self@.is_effectively_binary_op(ctx@),
    {
        proof {
            self.lemma_view();
        }
        match self {
            TokenItem::Token(Token::Symbol(s)) => {
                list_contains(&ctx.binary_ops, s.as_str()) || list_contains(&ctx.assoc_ops, s.as_str())
                    || StatementSymbols::from_symbol(s.as_str()).is_some()
            },
            _ => false,
        }
    }
}

/// The tokens inside the bracket that is open after the first `n` of
/// `tokens`, and how many brackets are open. The outermost brackets
/// themselves are not kept.
pub open spec fn pending(tokens: Seq<TokenView>, n: nat) -> (Seq<TokenView>, int)
    decreases n,
{
    if n == 0 || n > tokens.len() {
        (Seq::empty(), 0)
    } else {
        let (current, count) = pending(tokens, (n - 1) as nat);
        let t = tokens[n - 1];
        match t {
            TokenView::OpenParen => (if count != 0 {
                current.push(t)
            } else {
                current
            }, count + 1),
            TokenView::CloseParen => if count - 1 != 0 {
                (current.push(t), count - 1)
            } else {
                (Seq::empty(), 0)
            },
            _ => if count != 0 {
                (current.push(t), count)
            } else {
                (Seq::empty(), count)
            },
        }
    }
}

/// What is kept inside a bracket is shorter than what was read.
pub proof fn lemma_pending_len(tokens: Seq<TokenView>, n: nat)
    requires
        n <= tokens.len(),
    ensures
        pending(tokens, n).0.len() <= n,
        -n <= pending(tokens, n).1 <= n,
    decreases n,
{
    if n > 0 {
        lemma_pending_len(tokens, (n - 1) as nat);
    }
}

/// The items that the first `n` of `tokens` make: a token outside all
/// brackets is an item, and what stands between a bracket and the bracket
/// that closes it is a group of items.
pub open spec fn grouped_upto(tokens: Seq<TokenView>, n: nat) -> Seq<TokenItemView>
    decreases tokens.len(), n,
{
    if n == 0 || n > tokens.len() {
        Seq::empty()
    } else {
        let items = grouped_upto(tokens, (n - 1) as nat);
        let (current, count) = pending(tokens, (n - 1) as nat);
        let t = tokens[n - 1];
        match t {
            TokenView::OpenParen => items,
            TokenView::CloseParen => if count - 1 == 0 {
                proof {
                    lemma_pending_len(tokens, (n - 1) as nat);
                }
                items.push(TokenItemView::Group(grouped_upto(current, current.len())))
            } else {
                items
            },
            _ => if count != 0 {
                items
            } else {
                items.push(TokenItemView::Token(t))
            },
        }
    }
}

/// The tokens as one group of items.
pub open spec fn grouped(tokens: Seq<TokenView>) -> TokenItemView {
    TokenItemView::Group(grouped_upto(tokens, tokens.len()))
}

/// Groups the tokens by their brackets: `2 + f(x + g(x,y))` becomes the
/// items `2`, `+`, `f` and the group of `x`, `+`, `g` and the group of `x`,
/// `,`, `y`.
pub fn group_tokens_by_parentheses(tokens: &Vec<Token>) -> (r: TokenItem)
    ensures
        r@ == grouped(token_views(tokens@)),
    decreases tokens.len(),
{
    let ghost models = token_views(tokens@);
    let mut result: Vec<TokenItem> = Vec::new();
    let mut current: Vec<Token> = Vec::new();
    let mut opened: usize = 0;
    let mut closed: usize = 0;
    let mut i: usize = 0;
    assert(item_views(result@) =~= grouped_upto(models, 0));
    assert(token_views(current@) =~= pending(models, 0).0);
    while i < tokens.len()
        invariant
            i <= tokens.len(),
            models == token_views(tokens@),
            opened <= i,
            closed <= i,
            item_views(result@) == grouped_upto(models, i as nat),
            token_views(current@) == pending(models, i as nat).0,
            opened - closed == pending(models, i as nat).1,
        decreases tokens.len() - i,
    {
        let t = &tokens[i];
        let ghost items = item_views(result@);
        let ghost kept = token_views(current@);
        assert(models[i as int] == t@);
        proof {
            lemma_pending_len(models, i as nat);
        }
        match t {
            Token::OpenParen => {
                if opened != closed {
                    current.push(t.clone());
                    assert(token_views(current@) =~= kept.push(t@));
                }
                opened += 1;
            },
            Token::CloseParen => {
                closed += 1;
                if opened != closed {
                    current.push(t.clone());
                    assert(token_views(current@) =~= kept.push(t@));
                } else {
                    let group = group_tokens_by_parentheses(&current);
                    let ghost model = group@;
                    result.push(group);
                    current = Vec::new();
                    assert(item_views(result@) =~= items.push(model));
                    assert(token_views(current@) =~= Seq::<TokenView>::empty());
                }
            },
            _ => {
                if opened != closed {
                    current.push(t.clone());
                    assert(token_views(current@) =~= kept.push(t@));
                } else {
                    let item = TokenItem::Token(t.clone());
                    proof {
                        item.lemma_view();
                    }
                    let ghost model = item@;
                    result.push(item);
                    current = Vec::new();
                    assert(item_views(result@) =~= items.push(model));
                    assert(token_views(current@) =~= Seq::<TokenView>::empty());
                }
            },
        }
        i += 1;
    }
    let r = TokenItem::Group(result);
    proof {
        r.lemma_view();
    }
    r
}

/// The groups closed so far, the group being read, and the depth of
/// brackets after the first `n` of `items`. A comma outside all brackets
/// closes the group; every other item joins it.
pub open spec fn item_split_state(items: Seq<TokenItemView>, n: nat) -> (
    Seq<Seq<TokenItemView>>,
    Seq<TokenItemView>,
    int,
)
    decreases n,
{
    if n == 0 || n > items.len() {
        (Seq::empty(), Seq::empty(), 0)
    } else {
        let (groups, current, depth) = item_split_state(items, (n - 1) as nat);
        let t = items[n - 1];
        match t {
            TokenItemView::Token(TokenView::OpenParen) => (groups, current.push(t), depth + 1),
            TokenItemView::Token(TokenView::CloseParen) => (groups, current.push(t), depth - 1),
            TokenItemView::Token(TokenView::Comma) => if depth == 0 {
                (groups.push(current), Seq::empty(), depth)
            } else {
                (groups, current.push(t), depth)
            },
            _ => (groups, current.push(t), depth),
        }
    }
}

/// The arguments among `items`: the groups between the commas that stand
/// outside all brackets. A last group that is empty is left out.
pub open spec fn item_split(items: Seq<TokenItemView>) -> Seq<Seq<TokenItemView>> {
    let (groups, current, depth) = item_split_state(items, items.len());
    if current.len() > 0 {
        groups.push(current)
    } else {
        groups
    }
}

/// No group is larger than the items it was cut from.
pub proof fn lemma_item_split_state_size(items: Seq<TokenItemView>, n: nat)
    requires
        n <= items.len(),
    ensures
        ({
            let state = item_split_state(items, n);
            &&& state.1.len() <= n
            &&& -n <= state.2 <= n
            &&& items_size(state.1, state.1.len()) <= items_size(items, n)
            &&& forall|i: int|
                0 <= i < state.0.len() ==> items_size(#[trigger] state.0[i], state.0[i].len()) <= items_size(
                    items,
                    n,
                )
        }),
    decreases n,
{
    if n > 0 {
        lemma_item_split_state_size(items, (n - 1) as nat);
        let (groups, current, depth) = item_split_state(items, (n - 1) as nat);
        let t = items[n - 1];
        let pushed = current.push(t);
        assert(pushed.drop_last() =~= current);
        lemma_items_size_push(current, t);
    }
}

/// One more item adds its size.
pub proof fn lemma_items_size_push(items: Seq<TokenItemView>, t: TokenItemView)
    ensures
        items_size(items.push(t), items.len() + 1) == items_size(items, items.len()) + t.size(),
{
    let pushed = items.push(t);
    lemma_items_size_prefix(pushed, items, items.len());
}

/// Two lists that agree on their first `n` items have the same size up to
/// `n`.
pub proof fn lemma_items_size_prefix(a: Seq<TokenItemView>, b: Seq<TokenItemView>, n: nat)
    requires
        n <= a.len(),
        n <= b.len(),
        forall|i: int| 0 <= i < n ==> a[i] == b[i],
    ensures
        items_size(a, n) == items_size(b, n),
    decreases n,
{
    if n > 0 {
        lemma_items_size_prefix(a, b, (n - 1) as nat);
    }
}

/// No argument is larger than the items it was cut from.
pub proof fn lemma_item_split_size(items: Seq<TokenItemView>)
    ensures
        forall|i: int|
            0 <= i < item_split(items).len() ==> items_size(
                #[trigger] item_split(items)[i],
                item_split(items)[i].len(),
            ) <= items_size(items, items.len()),
{
    lemma_item_split_state_size(items, items.len());
}

/// Copies a list of items.
pub fn clone_items(v: &Vec<TokenItem>) -> (out: Vec<TokenItem>)
    ensures
        item_views(out@) == item_views(v@),
{
    let mut out: Vec<TokenItem> = Vec::new();
    let mut i: usize = 0;
    while i < v.len()
        invariant
            i <= v.len(),
            out.len() == i,
            forall|j: int| 0 <= j < i ==> out@[j]@ == v@[j]@,
        decreases v.len() - i,
    {
        out.push(v[i].clone());
        i += 1;
    }
    assert(item_views(out@) =~= item_views(v@));
    out
}

/// The arguments among `tokens`: the groups between the commas that stand
/// outside all brackets.
pub fn split_token_item_by_comma(tokens: &Vec<TokenItem>) -> (result: Vec<Vec<TokenItem>>)
    ensures
        item_group_views(result@) == item_split(item_views(tokens@)),
{
    let ghost models = item_views(tokens@);
    let mut result: Vec<Vec<TokenItem>> = Vec::new();
    let mut current: Vec<TokenItem> = Vec::new();
    let mut opened: usize = 0;
    let mut closed: usize = 0;
    let mut i: usize = 0;
    assert(item_group_views(result@) =~= item_split_state(models, 0).0);
    assert(item_views(current@) =~= item_split_state(models, 0).1);
    while i < tokens.len()
        invariant
            i <= tokens.len(),
            models == item_views(tokens@),
            opened <= i,
            closed <= i,
            item_group_views(result@) == item_split_state(models, i as nat).0,
            item_views(current@) == item_split_state(models, i as nat).1,
            opened - closed == item_split_state(models, i as nat).2,
        decreases tokens.len() - i,
    {
        let t = &tokens[i];
        let ghost groups = item_group_views(result@);
        let ghost kept = item_views(current@);
        assert(models[i as int] == t@);
        proof {
            t.lemma_view();
        }
        match t {
            TokenItem::Token(Token::OpenParen) => {
                opened += 1;
                current.push(t.clone());
                assert(item_views(current@) =~= kept.push(t@));
            },
            TokenItem::Token(Token::CloseParen) => {
                closed += 1;
                current.push(t.clone());
                assert(item_views(current@) =~= kept.push(t@));
            },
            TokenItem::Token(Token::Comma) => {
                if opened == closed {
                    result.push(current);
                    current = Vec::new();
                    assert(item_group_views(result@) =~= groups.push(kept));
                    assert(item_views(current@) =~= Seq::<TokenItemView>::empty());
                } else {
                    current.push(t.clone());
                    assert(item_views(current@) =~= kept.push(t@));
                }
            },
            _ => {
                current.push(t.clone());
                assert(item_views(current@) =~= kept.push(t@));
            },
        }
        i += 1;
    }
    let ghost groups = item_group_views(result@);
    let ghost kept = item_views(current@);
    if current.len() > 0 {
        result.push(current);
        assert(item_group_views(result@) =~= groups.push(kept));
    }
    result
}

/// A piece of an infix expression, told apart by the part it plays.
#[derive(Debug, PartialEq)]
pub enum SemanticSymbol {
    Value(String),
    /// An expression between brackets, which is a value to what surrounds
    /// it.
    ValueGroup(Vec<SemanticSymbol>),
    UnaryOp(String, Vec<SemanticSymbol>),
    BinaryOp(String),
    Nary(String, Vec<Vec<SemanticSymbol>>),
    Variadic,
}

/// The mathematical value of a [`SemanticSymbol`].
pub enum SemanticView {
    Value(Seq<char>),
    ValueGroup(Seq<SemanticView>),
    UnaryOp(Seq<char>, Seq<SemanticView>),
    BinaryOp(Seq<char>),
    Nary(Seq<char>, Seq<Seq<SemanticView>>),
    Variadic,
}

/// The models of a list of symbols.
pub open spec fn semantic_views(v: Seq<SemanticSymbol>) -> Seq<SemanticView> {
    Seq::new(v.len(), |i: int| v[i]@)
}

/// The models of a list of lists of symbols.
pub open spec fn semantic_group_views(v: Seq<Vec<SemanticSymbol>>) -> Seq<Seq<SemanticView>> {
    Seq::new(v.len(), |i: int| semantic_views(v[i]@))
}

impl SemanticSymbol {
    /// The models of the symbols of a list.
    pub open spec fn models(v: Vec<SemanticSymbol>) -> Seq<SemanticView>
        decreases v,
    {
        Seq::new(
            v.len() as nat,
            |i: int|
                if 0 <= i < v.len() {
                    v[i].model()
                } else {
                    SemanticView::Variadic
                },
        )
    }

    /// The model of this symbol.
    pub open spec fn model(self) -> SemanticView
        decreases self,
    {
        match self {
            SemanticSymbol::Value(s) => SemanticView::Value(s@),
            SemanticSymbol::ValueGroup(v) => SemanticView::ValueGroup(Self::models(v)),
            SemanticSymbol::UnaryOp(s, v) => SemanticView::UnaryOp(s@, Self::models(v)),
            SemanticSymbol::BinaryOp(s) => SemanticView::BinaryOp(s@),
            SemanticSymbol::Nary(s, vv) => SemanticView::Nary(
                s@,
                Seq::new(
                    vv.len() as nat,
                    |i: int|
                        if 0 <= i < vv.len() {
                            Self::models(vv[i])
                        } else {
                            Seq::empty()
                        },
                ),
            ),
            SemanticSymbol::Variadic => SemanticView::Variadic,
        }
    }

    /// The models of a list, element by element.
    pub proof fn lemma_models(v: Vec<SemanticSymbol>)
        ensures
            Self::models(v) == semantic_views(v@),
    {
        assert(Self::models(v) =~= semantic_views(v@));
    }

    /// How the model of a symbol is made of the models of its parts.
    pub proof fn lemma_view(&self)
        ensures
            self@ == match *self {
                SemanticSymbol::Value(s) => SemanticView::Value(s@),
                SemanticSymbol::ValueGroup(v) => SemanticView::ValueGroup(semantic_views(v@)),
                SemanticSymbol::UnaryOp(s, v) => SemanticView::UnaryOp(s@, semantic_views(v@)),
                SemanticSymbol::BinaryOp(s) => SemanticView::BinaryOp(s@),
                SemanticSymbol::Nary(s, vv) => SemanticView::Nary(s@, semantic_group_views(vv@)),
                SemanticSymbol::Variadic => SemanticView::Variadic,
            },
    {
        match *self {
            SemanticSymbol::ValueGroup(v) => {
                Self::lemma_models(v);
            },
            SemanticSymbol::UnaryOp(s, v) => {
                Self::lemma_models(v);
            },
            SemanticSymbol::Nary(s, vv) => {
                assert forall|i: int| 0 <= i < vv.len() implies Self::models(#[trigger] vv[i]) == semantic_views(
                    vv[i]@,
                ) by {
                    Self::lemma_models(vv[i]);
                }
                assert(self@->Nary_1 =~= semantic_group_views(vv@));
            },
            _ => {},
        }
    }

    /// The value with the symbol `s`, or the variadic marker if `s` is the
    /// variadic symbol.
    pub fn value_or_variadic(s: String) -> (r: SemanticSymbol)
        ensures
            r@ == value_or_variadic(s@),
    {
        let r = if ExpressionType::is_variadic_str(s.as_str()) {
            SemanticSymbol::Variadic
        } else {
            SemanticSymbol::Value(s)
        };
        proof {
            r.lemma_view();
        }
        r
    }
}

impl View for SemanticSymbol {
    type V = SemanticView;

    open spec fn view(&self) -> SemanticView {
        self.model()
    }
}

/// The value with the symbol `s`, or the variadic marker if `s` is the
/// variadic symbol.
pub open spec fn value_or_variadic(s: Seq<char>) -> SemanticView {
    if s == ExpressionType::variadic_symbol() {
        SemanticView::Variadic
    } else {
        SemanticView::Value(s)
    }
}

/// What the reading of the items waits for.
pub enum SemanticParsingState {
    LookingForLeftElement,
    LookingForBinaryOp,
    /// After the symbol of a function: its arguments.
    LookingForNaryParameter(Seq<char>),
    /// After a unary operator: its operand.
    LookingForUnaryParameter(Seq<char>),
}

/// An item is no larger than the list that holds it.
pub proof fn lemma_item_size(items: Seq<TokenItemView>, n: nat, i: int)
    requires
        0 <= i < n <= items.len(),
    ensures
        items[i].size() <= items_size(items, n),
    decreases n,
{
    if i < n - 1 {
        lemma_item_size(items, (n - 1) as nat, i);
    }
}

/// What each argument of a function reads as.
pub open spec fn semantic_params(group: Seq<TokenItemView>, ctx: ContextView) -> Seq<Option<Seq<SemanticView>>>
    decreases items_size(group, group.len()) + 1, 0nat,
{
    let params = item_split(group);
    Seq::new(
        params.len(),
        |k: int|
            if 0 <= k < params.len() {
                proof {
                    lemma_item_split_size(group);
                }
                semantic(params[k], ctx)
            } else {
                None
            },
    )
}

/// What the items read as, if they can be read to the end.
pub open spec fn semantic(items: Seq<TokenItemView>, ctx: ContextView) -> Option<Seq<SemanticView>>
    decreases items_size(items, items.len()), items.len() + 1,
{
    match semantic_upto(items, items.len(), ctx) {
        None => None,
        Some((result, state)) => Some(result),
    }
}

/// What the first `n` of `items` read as, and what the reading waits for
/// then.
///
/// Where a left element is waited for: a unary operator waits for its
/// operand; an item before a group is the symbol of a function and waits
/// for its arguments; a group is a value; anything else is a value or the
/// variadic marker. Then a binary operator is waited for, and after it a
/// left element again.
pub open spec fn semantic_upto(items: Seq<TokenItemView>, n: nat, ctx: ContextView) -> Option<
    (Seq<SemanticView>, SemanticParsingState),
>
    decreases items_size(items, items.len()), n,
{
    if n == 0 {
        Some((Seq::empty(), SemanticParsingState::LookingForLeftElement))
    } else if n > items.len() {
        None
    } else {
        match semantic_upto(items, (n - 1) as nat, ctx) {
            None => None,
            Some((result, state)) => {
                let t = items[n - 1];
                proof {
                    lemma_item_size(items, items.len(), n - 1);
                }
                match state {
                    SemanticParsingState::LookingForNaryParameter(symbol) => match t {
                        TokenItemView::Group(group) => {
                            let params = semantic_params(group, ctx);
                            if forall|k: int| 0 <= k < params.len() ==> (#[trigger] params[k]) is Some {
                                Some(
                                    (
                                        result.push(
                                            SemanticView::Nary(
                                                symbol,
                                                Seq::new(params.len(), |k: int| params[k]->0),
                                            ),
                                        ),
                                        SemanticParsingState::LookingForBinaryOp,
                                    ),
                                )
                            } else {
                                None
                            }
                        },
                        _ => None,
                    },
                    SemanticParsingState::LookingForUnaryParameter(symbol) => {
                        if t.is_simple_value(ctx) {
                            Some(
                                (
                                    result.push(SemanticView::UnaryOp(symbol, seq![value_or_variadic(t.symbol())])),
                                    SemanticParsingState::LookingForBinaryOp,
                                ),
                            )
                        } else {
                            match t {
                                TokenItemView::Group(group) => match semantic(group, ctx) {
                                    Some(inner) => Some(
                                        (
                                            result.push(
                                                SemanticView::UnaryOp(symbol, seq![SemanticView::ValueGroup(inner)]),
                                            ),
                                            SemanticParsingState::LookingForBinaryOp,
                                        ),
                                    ),
                                    None => None,
                                },
                                _ => None,
                            }
                        }
                    },
                    SemanticParsingState::LookingForLeftElement => {
                        if t.is_unary_op(ctx) {
                            Some((result, SemanticParsingState::LookingForUnaryParameter(t.symbol())))
                        } else if n < items.len() && items[n as int].is_group() {
                            Some((result, SemanticParsingState::LookingForNaryParameter(t.symbol())))
                        } else {
                            match t {
                                TokenItemView::Group(group) => match semantic(group, ctx) {
                                    Some(inner) => Some(
                                        (
                                            result.push(SemanticView::ValueGroup(inner)),
                                            SemanticParsingState::LookingForBinaryOp,
                                        ),
                                    ),
                                    None => None,
                                },
                                _ => Some(
                                    (
                                        result.push(value_or_variadic(t.symbol())),
                                        SemanticParsingState::LookingForBinaryOp,
                                    ),
                                ),
                            }
                        }
                    },
                    SemanticParsingState::LookingForBinaryOp => {
                        if t.is_effectively_binary_op(ctx) {
                            Some(
                                (
                                    result.push(SemanticView::BinaryOp(t.symbol())),
                                    SemanticParsingState::LookingForLeftElement,
                                ),
                            )
                        } else {
                            None
                        }
                    },
                }
            },
        }
    }
}

/// Once the reading has failed, it stays failed.
pub proof fn lemma_semantic_stops(items: Seq<TokenItemView>, k: nat, n: nat, ctx: ContextView)
    requires
        k <= n <= items.len(),
        semantic_upto(items, k, ctx) is None,
    ensures
        semantic_upto(items, n, ctx) is None,
    decreases n,
{
    if k < n {
        lemma_semantic_stops(items, k, (n - 1) as nat, ctx);
    }
}

/// What the reading of the items waits for, as it is kept while reading.
enum ReadingState {
    LookingForLeftElement,
    LookingForBinaryOp,
    LookingForNaryParameter(String),
    LookingForUnaryParameter(String),
}

impl View for ReadingState {
    type V = SemanticParsingState;

    closed spec fn view(&self) -> SemanticParsingState {
        match self {
            ReadingState::LookingForLeftElement => SemanticParsingState::LookingForLeftElement,
            ReadingState::LookingForBinaryOp => SemanticParsingState::LookingForBinaryOp,
            ReadingState::LookingForNaryParameter(s) => SemanticParsingState::LookingForNaryParameter(s@),
            ReadingState::LookingForUnaryParameter(s) => SemanticParsingState::LookingForUnaryParameter(s@),
        }
    }
}

/// A list of one symbol.
fn one_symbol(a: SemanticSymbol) -> (v: Vec<SemanticSymbol>)
    ensures
        semantic_views(v@) == seq![a@],
{
    let mut v: Vec<SemanticSymbol> = Vec::new();
    v.push(a);
    assert(semantic_views(v@) =~= seq![a@]);
    v
}

/// What each argument among the items of `group` reads as.
fn parse_semantic_params(group: &Vec<TokenItem>, ctx: &Context) -> (r: Option<Vec<Vec<SemanticSymbol>>>)
    ensures
        ({
            let params = semantic_params(item_views(group@), ctx@);
            match r {
                Some(parsed) => {
                    &&& forall|k: int| 0 <= k < params.len() ==> (#[trigger] params[k]) is Some
                    &&& semantic_group_views(parsed@) == Seq::new(params.len(), |k: int| params[k]->0)
                },
                None => !(forall|k: int| 0 <= k < params.len() ==> (#[trigger] params[k]) is Some),
            }
        }),
    decreases items_size(item_views(group@), group@.len() as nat) + 1, 0nat,
{
    let params = split_token_item_by_comma(group);
    let ghost expected = semantic_params(item_views(group@), ctx@);
    proof {
        lemma_item_split_size(item_views(group@));
    }
    let mut parsed: Vec<Vec<SemanticSymbol>> = Vec::new();
    let mut k: usize = 0;
    while k < params.len()
        invariant
            k <= params.len(),
            params.len() == expected.len(),
            expected == semantic_params(item_views(group@), ctx@),
            item_group_views(params@) == item_split(item_views(group@)),
            forall|j: int|
                0 <= j < item_split(item_views(group@)).len() ==> items_size(
                    #[trigger] item_split(item_views(group@))[j],
                    item_split(item_views(group@))[j].len(),
                ) <= items_size(item_views(group@), group@.len() as nat),
            parsed.len() == k,
            forall|j: int| 0 <= j < k ==> expected[j] == Some(semantic_views((#[trigger] parsed@[j])@)),
        decreases params.len() - k,
    {
        assert(item_group_views(params@)[k as int] == item_views(params@[k as int]@));
        assert(items_size(item_split(item_views(group@))[k as int], item_split(item_views(group@))[k as int].len())
            <= items_size(item_views(group@), group@.len() as nat));
        match parse_semantic_symbol(&params[k], ctx) {
            None => {
                assert(expected[k as int] is None);
                return None;
            },
            Some(p) => {
                parsed.push(p);
            },
        }
        k += 1;
    }
    proof {
        assert forall|j: int| 0 <= j < expected.len() implies (#[trigger] expected[j]) is Some by {
            assert(expected[j] == Some(semantic_views(parsed@[j]@)));
        }
        assert(semantic_group_views(parsed@) =~= Seq::new(expected.len(), |k: int| expected[k]->0));
    }
    Some(parsed)
}

/// Reads the items as values, operators and function applications.
pub fn parse_semantic_symbol(token_items: &Vec<TokenItem>, ctx: &Context) -> (r: Option<Vec<SemanticSymbol>>)
    ensures
        match r {
            Some(v) => semantic(item_views(token_items@), ctx@) == Some(semantic_views(v@)),
            None => semantic(item_views(token_items@), ctx@) is None,
        },
    decreases items_size(item_views(token_items@), token_items@.len() as nat), token_items@.len() + 1,
{
    let ghost items = item_views(token_items@);
    let mut result: Vec<SemanticSymbol> = Vec::new();
    let mut state = ReadingState::LookingForLeftElement;
    let mut i: usize = 0;
    assert(semantic_views(result@) =~= Seq::<SemanticView>::empty());
    while i < token_items.len()
        invariant
            i <= token_items.len(),
            items == item_views(token_items@),
            semantic_upto(items, i as nat, ctx@) == Some((semantic_views(result@), state@)),
        decreases token_items.len() - i,
    {
        let t = &token_items[i];
        let ghost before = semantic_views(result@);
        proof {
            t.lemma_view();
            assert(items[i as int] == t@);
            lemma_item_size(items, items.len(), i as int);
        }
        match state {
            ReadingState::LookingForNaryParameter(nary_symbol) => {
                match t {
                    TokenItem::Group(group) => {
                        match parse_semantic_params(group, ctx) {
                            None => {
                                proof {
                                    lemma_semantic_stops(items, (i + 1) as nat, items.len(), ctx@);
                                }
                                return None;
                            },
                            Some(params) => {
                                let symbol = SemanticSymbol::Nary(nary_symbol, params);
                                proof {
                                    symbol.lemma_view();
                                }
                                let ghost model = symbol@;
                                result.push(symbol);
                                assert(semantic_views(result@) =~= before.push(model));
                                state = ReadingState::LookingForBinaryOp;
                            },
                        }
                    },
                    _ => {
                        proof {
                            lemma_semantic_stops(items, (i + 1) as nat, items.len(), ctx@);
                        }
                        return None;
                    },
                }
            },
            ReadingState::LookingForUnaryParameter(unary_symbol) => {
                if t.is_simple_value(ctx) {
                    let value = SemanticSymbol::value_or_variadic(t.get_symbol());
                    let symbol = SemanticSymbol::UnaryOp(unary_symbol, one_symbol(value));
                    proof {
                        symbol.lemma_view();
                    }
                    let ghost model = symbol@;
                    result.push(symbol);
                    assert(semantic_views(result@) =~= before.push(model));
                    state = ReadingState::LookingForBinaryOp;
                } else {
                    match t {
                        TokenItem::Group(group) => {
                            match parse_semantic_symbol(group, ctx) {
                                Some(group_semantic) => {
                                    let value = SemanticSymbol::ValueGroup(group_semantic);
                                    proof {
                                        value.lemma_view();
                                    }
                                    let symbol = SemanticSymbol::UnaryOp(unary_symbol, one_symbol(value));
                                    proof {
                                        symbol.lemma_view();
                                    }
                                    let ghost model = symbol@;
                                    result.push(symbol);
                                    assert(semantic_views(result@) =~= before.push(model));
                                    state = ReadingState::LookingForBinaryOp;
                                },
                                None => {
                                    proof {
                                        lemma_semantic_stops(items, (i + 1) as nat, items.len(), ctx@);
                                    }
                                    return None;
                                },
                            }
                        },
                        _ => {
                            proof {
                                lemma_semantic_stops(items, (i + 1) as nat, items.len(), ctx@);
                            }
                            return None;
                        },
                    }
                }
            },
            ReadingState::LookingForLeftElement => {
                if t.is_unary_op(ctx) {
                    state = ReadingState::LookingForUnaryParameter(t.get_symbol());
                } else if i + 1 < token_items.len() && token_items[i + 1].is_group() {
                    assert(items[i + 1] == token_items@[i + 1]@);
                    state = ReadingState::LookingForNaryParameter(t.get_symbol());
                } else {
                    proof {
                        if i + 1 < token_items.len() {
                            assert(items[i + 1] == token_items@[i + 1]@);
                        }
                    }
                    match t {
                        TokenItem::Group(group) => {
                            match parse_semantic_symbol(group, ctx) {
                                Some(group_semantic) => {
                                    let symbol = SemanticSymbol::ValueGroup(group_semantic);
                                    proof {
                                        symbol.lemma_view();
                                    }
                                    let ghost model = symbol@;
                                    result.push(symbol);
                                    assert(semantic_views(result@) =~= before.push(model));
                                    state = ReadingState::LookingForBinaryOp;
                                },
                                None => {
                                    proof {
                                        lemma_semantic_stops(items, (i + 1) as nat, items.len(), ctx@);
                                    }
                                    return None;
                                },
                            }
                        },
                        _ => {
                            let symbol = SemanticSymbol::value_or_variadic(t.get_symbol());
                            let ghost model = symbol@;
                            result.push(symbol);
                            assert(semantic_views(result@) =~= before.push(model));
                            state = ReadingState::LookingForBinaryOp;
                        },
                    }
                }
            },
            ReadingState::LookingForBinaryOp => {
                if t.is_effectively_binary_op(ctx) {
                    let symbol = SemanticSymbol::BinaryOp(t.get_symbol());
                    proof {
                        symbol.lemma_view();
                    }
                    let ghost model = symbol@;
                    result.push(symbol);
                    assert(semantic_views(result@) =~= before.push(model));
                    state = ReadingState::LookingForLeftElement;
                } else {
                    proof {
                        lemma_semantic_stops(items, (i + 1) as nat, items.len(), ctx@);
                    }
                    return None;
                }
            },
        }
        i += 1;
    }
    Some(result)
}

/// Where the making of an expression stands.
#[derive(Debug, PartialEq, Eq, Clone, Copy, Structural)]
pub enum ExpressionParsingState {
    Initial,
    AfterValue,
    AfterOp,
}

/// What each argument of a function makes as an expression.
pub open spec fn nary_children(params: Seq<Seq<SemanticView>>, ctx: ContextView) -> Seq<Option<ExpressionView>>
    decreases params, 0nat,
{
    Seq::new(
        params.len(),
        |k: int|
            if 0 <= k < params.len() {
                expression_of(params[k], ctx)
            } else {
                None
            },
    )
}

/// The expression of a single operand: none at all where the operand
/// cannot stand there, and else the expression it makes, if it makes one.
pub open spec fn element(s: SemanticView, ctx: ContextView) -> Option<Option<ExpressionView>>
    decreases s, 0nat,
{
    match s {
        SemanticView::Value(v) => Some(Some(ExpressionView::leaf(value_kind(v, ctx), v))),
        SemanticView::ValueGroup(group) => Some(expression_of(group, ctx)),
        SemanticView::UnaryOp(op, param) => match expression_of(param, ctx) {
            None => None,
            Some(child) => Some(Some(ExpressionView::node(ExpressionType::OperatorUnary, op, seq![child]))),
        },
        SemanticView::Nary(op, params) => {
            let children = nary_children(params, ctx);
            if forall|k: int| 0 <= k < children.len() ==> (#[trigger] children[k]) is Some {
                Some(
                    Some(
                        ExpressionView::node(
                            ExpressionType::OperatorNary,
                            op,
                            Seq::new(children.len(), |k: int| children[k]->0),
                        ),
                    ),
                )
            } else {
                None
            }
        },
        SemanticView::BinaryOp(_) => None,
        SemanticView::Variadic => None,
    }
}

/// The expression that the symbols make: operands and binary operators in
/// turn, each operator applied to all that stands before it and the operand
/// after it.
pub open spec fn expression_of(semantic: Seq<SemanticView>, ctx: ContextView) -> Option<ExpressionView>
    decreases semantic, semantic.len() + 1,
{
    match expression_upto(semantic, semantic.len(), ctx) {
        None => None,
        Some((left, op, state)) => if state == ExpressionParsingState::AfterValue {
            left
        } else {
            None
        },
    }
}

/// The expression made of the first `n` symbols, the operator that waits
/// for its right operand, and where the making stands.
pub open spec fn expression_upto(semantic: Seq<SemanticView>, n: nat, ctx: ContextView) -> Option<
    (Option<ExpressionView>, Option<Seq<char>>, ExpressionParsingState),
>
    decreases semantic, n,
{
    if n == 0 {
        Some((None, None, ExpressionParsingState::Initial))
    } else if n > semantic.len() {
        None
    } else {
        match expression_upto(semantic, (n - 1) as nat, ctx) {
            None => None,
            Some((left, op, state)) => {
                let s = semantic[n - 1];
                match state {
                    ExpressionParsingState::Initial => match element(s, ctx) {
                        None => None,
                        Some(e) => Some((e, op, ExpressionParsingState::AfterValue)),
                    },
                    ExpressionParsingState::AfterValue => match s {
                        SemanticView::BinaryOp(v) => Some((left, Some(v), ExpressionParsingState::AfterOp)),
                        _ => None,
                    },
                    ExpressionParsingState::AfterOp => if s is Variadic {
                        match (op, left) {
                            (Some(symbol), Some(l)) => if ctx.assoc_ops.contains(symbol) {
                                Some(
                                    (
                                        Some(
                                            ExpressionView::node(
                                                ExpressionType::OperatorUnary,
                                                symbol,
                                                seq![
                                                    ExpressionView::node(
                                                        ExpressionType::Variadic,
                                                        ExpressionType::variadic_symbol(),
                                                        seq![l],
                                                    ),
                                                ],
                                            ),
                                        ),
                                        op,
                                        ExpressionParsingState::AfterValue,
                                    ),
                                )
                            } else {
                                None
                            },
                            _ => None,
                        }
                    } else {
                        match (element(s, ctx), op) {
                            (Some(Some(r)), Some(symbol)) => Some(
                                (
                                    Some(
                                        match left {
                                            None => ExpressionView::node(
                                                ExpressionType::OperatorUnary,
                                                symbol,
                                                seq![r],
                                            ),
                                            Some(l) => if StatementSymbols::of_symbol(symbol) is Some {
                                                ExpressionView::node(
                                                    ExpressionType::StatementOperatorBinary,
                                                    symbol,
                                                    seq![l, r],
                                                )
                                            } else {
                                                ExpressionView::node(
                                                    ExpressionType::OperatorBinary,
                                                    symbol,
                                                    seq![l, r],
                                                )
                                            },
                                        },
                                    ),
                                    op,
                                    ExpressionParsingState::AfterValue,
                                ),
                            ),
                            _ => None,
                        }
                    },
                }
            },
        }
    }
}

/// Once the making has failed, it stays failed.
pub proof fn lemma_expression_stops(semantic: Seq<SemanticView>, k: nat, n: nat, ctx: ContextView)
    requires
        k <= n <= semantic.len(),
        expression_upto(semantic, k, ctx) is None,
    ensures
        expression_upto(semantic, n, ctx) is None,
    decreases n,
{
    if k < n {
        lemma_expression_stops(semantic, k, (n - 1) as nat, ctx);
    }
}

/// The model of an optional expression.
pub open spec fn optional_view(e: Option<Expression>) -> Option<ExpressionView> {
    match e {
        Some(e) => Some(e@),
        None => None,
    }
}

/// The expression of a single operand.
#[verifier::loop_isolation(false)]
fn element_expression(s: &SemanticSymbol, ctx: &Context) -> (r: Option<Option<Expression>>)
    ensures
        match r {
            Some(e) => element(s@, ctx@) == Some(optional_view(e)),
            None => element(s@, ctx@) is None,
        },
    decreases s, 0nat,
{
    proof {
        s.lemma_view();
    }
    match s {
        SemanticSymbol::Value(v) => Some(Some(get_value_expression(v, ctx))),
        SemanticSymbol::ValueGroup(group) => Some(semantic_to_expression(group, ctx)),
        SemanticSymbol::UnaryOp(op, param) => match semantic_to_expression(param, ctx) {
            None => None,
            Some(child) => Some(Some(unary(op.as_str(), child))),
        },
        SemanticSymbol::Nary(op, params) => {
            let ghost expected = nary_children(semantic_group_views(params@), ctx@);
            let mut children: Vec<Expression> = Vec::new();
            let mut k: usize = 0;
            while k < params.len()
                invariant
                    k <= params.len(),
                    *s == SemanticSymbol::Nary(*op, *params),
                    expected == nary_children(semantic_group_views(params@), ctx@),
                    children.len() == k,
                    forall|j: int| 0 <= j < k ==> expected[j] == Some((#[trigger] children@[j])@),
                decreases params.len() - k,
            {
                assert(semantic_group_views(params@)[k as int] == semantic_views(params@[k as int]@));
                match semantic_to_expression(&params[k], ctx) {
                    None => {
                        assert(expected[k as int] is None);
                        return None;
                    },
                    Some(e) => {
                        children.push(e);
                    },
                }
                k += 1;
            }
            proof {
                assert forall|j: int| 0 <= j < expected.len() implies (#[trigger] expected[j]) is Some by {
                    assert(expected[j] == Some(children@[j]@));
                }
                assert(views(children@) =~= Seq::new(expected.len(), |k: int| expected[k]->0));
            }
            Some(Some(nary(op.as_str(), children)))
        },
        SemanticSymbol::BinaryOp(_) => None,
        SemanticSymbol::Variadic => None,
    }
}

/// The expression that the symbols make.
pub fn semantic_to_expression(semantic: &Vec<SemanticSymbol>, ctx: &Context) -> (r: Option<Expression>)
    ensures
        optional_view(r) == expression_of(semantic_views(semantic@), ctx@),
    decreases semantic, 1nat,
{
    let ghost models = semantic_views(semantic@);
    let mut left_expr: Option<Expression> = None;
    let mut op_symbol: Option<String> = None;
    let mut state = ExpressionParsingState::Initial;
    let mut i: usize = 0;
    while i < semantic.len()
        invariant
            i <= semantic.len(),
            models == semantic_views(semantic@),
            expression_upto(models, i as nat, ctx@) == Some(
                (
                    optional_view(left_expr),
                    match op_symbol {
                        Some(s) => Some(s@),
                        None => None::<Seq<char>>,
                    },
                    state,
                ),
            ),
        decreases semantic.len() - i,
    {
        let s = &semantic[i];
        proof {
            s.lemma_view();
            assert(models[i as int] == s@);
        }
        match state {
            ExpressionParsingState::Initial => {
                match element_expression(s, ctx) {
                    None => {
                        proof {
                            lemma_expression_stops(models, (i + 1) as nat, models.len(), ctx@);
                        }
                        return None;
                    },
                    Some(e) => {
                        left_expr = e;
                        state = ExpressionParsingState::AfterValue;
                    },
                }
            },
            ExpressionParsingState::AfterValue => {
                match s {
                    SemanticSymbol::BinaryOp(v) => {
                        op_symbol = Some(v.clone());
                    },
                    _ => {
                        proof {
                            lemma_expression_stops(models, (i + 1) as nat, models.len(), ctx@);
                        }
                        return None;
                    },
                }
                state = ExpressionParsingState::AfterOp;
            },
            ExpressionParsingState::AfterOp => {
                let is_variadic = match s {
                    SemanticSymbol::Variadic => true,
                    _ => false,
                };
                if is_variadic {
                    let symbol = match &op_symbol {
                        Some(symbol) => symbol,
                        None => {
                            proof {
                                lemma_expression_stops(models, (i + 1) as nat, models.len(), ctx@);
                            }
                            return None;
                        },
                    };
                    if !list_contains(&ctx.assoc_ops, symbol.as_str()) {
                        proof {
                            lemma_expression_stops(models, (i + 1) as nat, models.len(), ctx@);
                        }
                        return None;
                    }
                    let left = match left_expr {
                        Some(l) => l,
                        None => {
                            proof {
                                lemma_expression_stops(models, (i + 1) as nat, models.len(), ctx@);
                            }
                            return None;
                        },
                    };
                    left_expr = Some(unary(symbol.as_str(), variadic(left)));
                    state = ExpressionParsingState::AfterValue;
                } else {
                    let right = match element_expression(s, ctx) {
                        Some(Some(r)) => r,
                        _ => {
                            proof {
                                lemma_expression_stops(models, (i + 1) as nat, models.len(), ctx@);
                            }
                            return None;
                        },
                    };
                    let symbol = match &op_symbol {
                        Some(symbol) => symbol,
                        None => {
                            proof {
                                lemma_expression_stops(models, (i + 1) as nat, models.len(), ctx@);
                            }
                            return None;
                        },
                    };
                    left_expr = match left_expr {
                        None => Some(unary(symbol.as_str(), right)),
                        Some(left) => if StatementSymbols::from_symbol(symbol.as_str()).is_some() {
                            Some(binary_statement(symbol.as_str(), left, right))
                        } else {
                            Some(binary(symbol.as_str(), left, right))
                        },
                    };
                    state = ExpressionParsingState::AfterValue;
                }
            },
        }
        i += 1;
    }
    if state != ExpressionParsingState::AfterValue {
        return None;
    }
    left_expr
}

/// The expression that `text` writes in infix notation, read as it
/// stands: symbols are set apart by white space, by brackets and by commas,
/// and every binary operator is applied to all that stands before it.
pub open spec fn raw_expression(text: Seq<char>, ctx: ContextView) -> Option<ExpressionView> {
    let tokens = spaced_tokens_of(text, true);
    match semantic(grouped_upto(tokens, tokens.len()), ctx) {
        None => None,
        Some(symbols) => expression_of(symbols, ctx),
    }
}

/// The expression that `text` writes in infix notation, read as it stands.
pub fn to_expression_raw(text: &str, ctx: &Context) -> (r: Option<Expression>)
    ensures
        optional_view(r) == raw_expression(text@, ctx@),
{
    let tokens = tokenize_with(text, true);
    let token_items = group_tokens_by_parentheses(&tokens);
    proof {
        token_items.lemma_view();
    }
    match &token_items {
        TokenItem::Group(group) => {
            match parse_semantic_symbol(group, ctx) {
                Some(semantic) => semantic_to_expression(&semantic, ctx),
                None => None,
            }
        },
        _ => None,
    }
}

/// Trimming makes nothing longer.
pub proof fn lemma_trimmed_len(s: Seq<char>)
    ensures
        trimmed(s).len() <= s.len(),
{
    lemma_trim_bounds(s, 0);
    lemma_trim_end_bounds(s, crate::text::trimmed_start(s, 0), s.len() as int);
}

proof fn lemma_trim_bounds(s: Seq<char>, from: int)
    requires
        0 <= from <= s.len(),
    ensures
        from <= crate::text::trimmed_start(s, from) <= s.len(),
    decreases s.len() - from,
{
    if from < s.len() && crate::text::is_space(s[from]) {
        lemma_trim_bounds(s, from + 1);
    }
}

proof fn lemma_trim_end_bounds(s: Seq<char>, from: int, to: int)
    requires
        0 <= from <= to <= s.len(),
    ensures
        from <= crate::text::trimmed_end(s, from, to) <= to,
    decreases to,
{
    if from < to && crate::text::is_space(s[to - 1]) {
        lemma_trim_end_bounds(s, from, to - 1);
    }
}

/// Where a match is found, it lies within the text.
pub proof fn lemma_first_match_bounds(s: Seq<char>, pattern: Seq<char>, from: int)
    requires
        0 <= from,
    ensures
        first_match(s, pattern, from) is Some ==> from <= first_match(s, pattern, from)->0 && first_match(
            s,
            pattern,
            from,
        )->0 + pattern.len() <= s.len(),
    decreases s.len() - from,
{
    if from + pattern.len() <= s.len() && !(pattern.len() == 0 || crate::text::occurs_at(s, pattern, from)) {
        lemma_first_match_bounds(s, pattern, from + 1);
    }
}

/// The text with brackets around the two sides of its statement: of an
/// implication, if `=>` stands in it exactly once, each side treated in the
/// same way; else of an equation, if `=` stands in it exactly once; and else
/// the text as it is.
pub open spec fn statement_text(s: Seq<char>) -> Seq<char>
    decreases s.len(),
{
    let arrow = seq!['=', '>'];
    let equals = seq!['='];
    match first_match(s, arrow, 0) {
        Some(i) => if first_match(s, arrow, i + 2) is Some {
            s
        } else {
            proof {
                lemma_first_match_bounds(s, arrow, 0);
                lemma_trimmed_len(s.subrange(0, i));
                lemma_trimmed_len(s.subrange(i + 2, s.len() as int));
            }
            seq!['('] + statement_text(trimmed(s.subrange(0, i))) + seq![')', ' ', '=', '>', ' ', '(']
                + statement_text(trimmed(s.subrange(i + 2, s.len() as int))) + seq![')']
        },
        None => match first_match(s, equals, 0) {
            Some(i) => if first_match(s, equals, i + 1) is Some {
                s
            } else {
                seq!['('] + trimmed(s.subrange(0, i)) + seq![')', ' ', '=', ' ', '('] + trimmed(
                    s.subrange(i + 1, s.len() as int),
                ) + seq![')']
            },
            None => s,
        },
    }
}

/// A list of characters.
fn chars(text: &str) -> (v: Vec<char>)
    ensures
        v@ == text@,
{
    chars_of(text)
}

fn preprocess_statement_chars(text: &Vec<char>) -> (r: Vec<char>)
    ensures
        r@ == statement_text(text@),
    decreases text.len(),
{
    proof {
        reveal_strlit("=>");
        reveal_strlit("=");
        reveal_strlit("(");
        reveal_strlit(") => (");
        reveal_strlit(") = (");
        reveal_strlit(")");
    }
    let arrow = chars("=>");
    let equals = chars("=");
    assert(arrow@ =~= seq!['=', '>']);
    assert(equals@ =~= seq!['=']);
    match find_from(text, &arrow, 0) {
        Some(i) => {
            if find_from(text, &arrow, i + 2).is_some() {
                return slice_chars(text, 0, text.len());
            }
            let left = trim_chars(&slice_chars(text, 0, i));
            let right = trim_chars(&slice_chars(text, i + 2, text.len()));
            proof {
                lemma_trimmed_len(text@.subrange(0, i as int));
                lemma_trimmed_len(text@.subrange(i + 2, text.len() as int));
            }
            let processed_left = preprocess_statement_chars(&left);
            let processed_right = preprocess_statement_chars(&right);
            let mut out = chars("(");
            append_chars(&mut out, &processed_left);
            append_chars(&mut out, &chars(") => ("));
            append_chars(&mut out, &processed_right);
            append_chars(&mut out, &chars(")"));
            assert(out@ =~= seq!['('] + processed_left@ + seq![')', ' ', '=', '>', ' ', '('] + processed_right@
                + seq![')']);
            out
        },
        None => match find_from(text, &equals, 0) {
            Some(i) => {
                if find_from(text, &equals, i + 1).is_some() {
                    return slice_chars(text, 0, text.len());
                }
                let left = trim_chars(&slice_chars(text, 0, i));
                let right = trim_chars(&slice_chars(text, i + 1, text.len()));
                let mut out = chars("(");
                append_chars(&mut out, &left);
                append_chars(&mut out, &chars(") = ("));
                append_chars(&mut out, &right);
                append_chars(&mut out, &chars(")"));
                assert(out@ =~= seq!['('] + left@ + seq![')', ' ', '=', ' ', '('] + right@ + seq![')']);
                out
            },
            None => slice_chars(text, 0, text.len()),
        },
    }
}

/// Puts brackets around the two sides of the statement that `text`
/// writes, so that the statement symbol is applied last.
pub fn preprocess_statement(text: &str) -> (r: String)
    ensures
        r@ == statement_text(text@),
{
    let out = preprocess_statement_chars(&chars_of(text));
    string_of(&out)
}

/// The text with a space after every occurrence of each of the first `n`
/// of `ops`, one operator after the other.
pub open spec fn unary_text(s: Seq<char>, ops: Seq<Seq<char>>, n: nat) -> Seq<char>
    decreases n,
{
    if n == 0 || n > ops.len() {
        s
    } else {
        replaced(unary_text(s, ops, (n - 1) as nat), ops[n - 1], ops[n - 1].push(' '))
    }
}

/// Sets every unary operator apart from the symbol it is stuck to: `-b`
/// becomes `- b`.
pub fn preprocess_unary(text: &str, ctx: &Context) -> (r: String)
    ensures
        r@ == unary_text(text@, ctx@.unary_ops, ctx@.unary_ops.len()),
{
    let mut result = chars_of(text);
    let mut i: usize = 0;
    while i < ctx.unary_ops.len()
        invariant
            i <= ctx.unary_ops.len(),
            result@ == unary_text(text@, ctx@.unary_ops, i as nat),
        decreases ctx.unary_ops.len() - i,
    {
        let op = chars_of(ctx.unary_ops[i].as_str());
        let mut spaced = chars_of(ctx.unary_ops[i].as_str());
        spaced.push(' ');
        assert(ctx@.unary_ops[i as int] == op@);
        result = replace_chars(&result, &op, &spaced);
        i += 1;
    }
    string_of(&result)
}

/// The expression that `text` writes in infix notation: the statement is
/// applied last, unary operators may be stuck to their operands, and trains
/// of an associative operator are flattened.
pub open spec fn infix_expression(text: Seq<char>, ctx: ContextView) -> Option<ExpressionView> {
    match raw_expression(unary_text(statement_text(text), ctx.unary_ops, ctx.unary_ops.len()), ctx) {
        None => None,
        Some(e) => Some(e.to_assoc_train(ctx.assoc_ops).pairs_to_binary(ctx.assoc_ops)),
    }
}

/// The expression that `text` writes in infix notation, as in
/// `a * (b + c) = (a * b) + (a * c)`.
pub fn to_expression(text: &str, ctx: &Context) -> (r: Option<Expression>)
    ensures
        optional_view(r) == infix_expression(text@, ctx@),
{
    let preprocessed = preprocess_statement(text);
    let preprocessed = preprocess_unary(preprocessed.as_str(), ctx);
    match to_expression_raw(preprocessed.as_str(), ctx) {
        None => None,
        Some(expr) => Some(
            expr.normalize_to_assoc_train(&ctx.assoc_ops).normalize_two_children_assoc_train_to_binary_op(
                &ctx.assoc_ops,
            ),
        ),
    }
}

} // verus!
