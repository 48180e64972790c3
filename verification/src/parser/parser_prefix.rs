//! Prefix notation: `symbol`, or `symbol(argument, ...)`.

use vstd::prelude::*;

use crate::expression::Context;
use crate::expression::ContextView;
use crate::expression::Expression;
use crate::expression::ExpressionType;
use crate::expression::ExpressionView;
use crate::expression::StatementSymbols;
use crate::expression::context::list_contains;
use crate::expression::views;
use crate::text::chars_of;
use crate::text::is_space;
use crate::text::is_whitespace;
use crate::text::push_char;
use crate::utils::is_number;
use crate::utils::is_numeral;

verus! {

/// A piece of prefix notation.
#[derive(Debug, PartialEq)]
pub enum Token {
    OpenParen,
    CloseParen,
    Comma,
    Symbol(String),
}

/// The mathematical value of a [`Token`].
pub enum TokenView {
    OpenParen,
    CloseParen,
    Comma,
    Symbol(Seq<char>),
}

impl View for Token {
    type V = TokenView;

    open spec fn view(&self) -> TokenView {
        match self {
            Token::OpenParen => TokenView::OpenParen,
            Token::CloseParen => TokenView::CloseParen,
            Token::Comma => TokenView::Comma,
            Token::Symbol(s) => TokenView::Symbol(s@),
        }
    }
}

impl Clone for Token {
    fn clone(&self) -> (res: Self)
        ensures
            res@ == self@,
    {
        match self {
            Token::OpenParen => Token::OpenParen,
            Token::CloseParen => Token::CloseParen,
            Token::Comma => Token::Comma,
            Token::Symbol(s) => Token::Symbol(s.clone()),
        }
    }
}

/// The models of a list of tokens.
pub open spec fn token_views(tokens: Seq<Token>) -> Seq<TokenView> {
    Seq::new(tokens.len(), |i: int| tokens[i]@)
}

/// The models of a list of lists of tokens.
pub open spec fn group_views(groups: Seq<Vec<Token>>) -> Seq<Seq<TokenView>> {
    Seq::new(groups.len(), |i: int| token_views(groups[i]@))
}

/// The tokens with the pending symbol, if there is one, added as a token.
pub open spec fn flushed(tokens: Seq<TokenView>, pending: Seq<char>) -> Seq<TokenView> {
    if pending.len() > 0 {
        tokens.push(TokenView::Symbol(pending))
    } else {
        tokens
    }
}

/// The tokens read from the first `n` characters of `s`, and the symbol
/// that is still being read. Brackets and commas are tokens of their own
/// and end a symbol. White space is passed over; it ends a symbol only if
/// `spaced` is set.
pub open spec fn scanned(s: Seq<char>, n: nat, spaced: bool) -> (Seq<TokenView>, Seq<char>)
    decreases n,
{
    if n == 0 || n > s.len() {
        (Seq::empty(), Seq::empty())
    } else {
        let (tokens, pending) = scanned(s, (n - 1) as nat, spaced);
        let c = s[n - 1];
        if c == '(' {
            (flushed(tokens, pending).push(TokenView::OpenParen), Seq::empty())
        } else if c == ')' {
            (flushed(tokens, pending).push(TokenView::CloseParen), Seq::empty())
        } else if c == ',' {
            (flushed(tokens, pending).push(TokenView::Comma), Seq::empty())
        } else if is_space(c) {
            if spaced {
                (flushed(tokens, pending), Seq::empty())
            } else {
                (tokens, pending)
            }
        } else {
            (tokens, pending.push(c))
        }
    }
}

/// The tokens of the text `s` in prefix notation, where white space means
/// nothing.
pub open spec fn tokens_of(s: Seq<char>) -> Seq<TokenView> {
    spaced_tokens_of(s, false)
}

/// The tokens of the text `s`.
pub open spec fn spaced_tokens_of(s: Seq<char>, spaced: bool) -> Seq<TokenView> {
    let (tokens, pending) = scanned(s, s.len(), spaced);
    flushed(tokens, pending)
}

/// The groups closed so far, the group being read, and the depth of
/// brackets after the first `n` of `tokens`. A comma outside all brackets
/// closes the group; every other token joins it.
pub open spec fn split_state(tokens: Seq<TokenView>, n: nat) -> (Seq<Seq<TokenView>>, Seq<TokenView>, int)
    decreases n,
{
    if n == 0 || n > tokens.len() {
        (Seq::empty(), Seq::empty(), 0)
    } else {
        let (groups, current, depth) = split_state(tokens, (n - 1) as nat);
        let t = tokens[n - 1];
        match t {
            TokenView::OpenParen => (groups, current.push(t), depth + 1),
            TokenView::CloseParen => (groups, current.push(t), depth - 1),
            TokenView::Comma => if depth == 0 {
                (groups.push(current), Seq::empty(), depth)
            } else {
                (groups, current.push(t), depth)
            },
            TokenView::Symbol(_) => (groups, current.push(t), depth),
        }
    }
}

/// The arguments among `tokens`: the groups between the commas that stand
/// outside all brackets. A last group that is empty is left out.
pub open spec fn split_by_comma(tokens: Seq<TokenView>) -> Seq<Seq<TokenView>> {
    let (groups, current, depth) = split_state(tokens, tokens.len());
    if current.len() > 0 {
        groups.push(current)
    } else {
        groups
    }
}

/// No group is longer than the tokens it was cut from.
pub proof fn lemma_split_state_len(tokens: Seq<TokenView>, n: nat)
    requires
        n <= tokens.len(),
    ensures
        split_state(tokens, n).1.len() <= n,
        forall|i: int| 0 <= i < split_state(tokens, n).0.len() ==> (#[trigger] split_state(tokens, n).0[i]).len() <= n,
        -n <= split_state(tokens, n).2 <= n,
    decreases n,
{
    if n > 0 {
        lemma_split_state_len(tokens, (n - 1) as nat);
    }
}

/// No argument is longer than the tokens it was cut from.
pub proof fn lemma_split_len(tokens: Seq<TokenView>)
    ensures
        forall|i: int|
            0 <= i < split_by_comma(tokens).len() ==> (#[trigger] split_by_comma(tokens)[i]).len() <= tokens.len(),
{
    lemma_split_state_len(tokens, tokens.len());
}

/// The kind of a value with the symbol `s`: a constant if `s` is a declared
/// parameter, or a numeral where numerals are constants; else a variable.
pub open spec fn value_kind(s: Seq<char>, ctx: ContextView) -> ExpressionType {
    if ctx.parameters.contains(s) || (ctx.handle_numerics && is_numeral(s)) {
        ExpressionType::ValueConst
    } else {
        ExpressionType::ValueVar
    }
}

/// The kind of an application of `s` to `n` arguments.
pub open spec fn operator_kind(s: Seq<char>, n: nat, ctx: ContextView) -> ExpressionType {
    if n == 1 && s == ExpressionType::variadic_symbol() {
        ExpressionType::Variadic
    } else if n == 1 && ctx.unary_ops.contains(s) {
        ExpressionType::OperatorUnary
    } else if n == 2 && ctx.binary_ops.contains(s) {
        ExpressionType::OperatorBinary
    } else if n == 2 && StatementSymbols::of_symbol(s) is Some {
        ExpressionType::StatementOperatorBinary
    } else if ctx.assoc_ops.contains(s) {
        ExpressionType::AssocTrain
    } else {
        ExpressionType::OperatorNary
    }
}

/// What the arguments between the outer brackets of `tokens` write, one
/// by one.
pub open spec fn parsed_arguments(tokens: Seq<TokenView>, ctx: ContextView) -> Seq<Option<ExpressionView>>
    decreases tokens.len(), 0nat,
{
    if tokens.len() < 3 {
        Seq::empty()
    } else {
        let groups = split_by_comma(tokens.subrange(2, tokens.len() - 1));
        Seq::new(
            groups.len(),
            |i: int|
                if 0 <= i < groups.len() {
                    proof {
                        lemma_split_len(tokens.subrange(2, tokens.len() - 1));
                    }
                    parsed(groups[i], ctx)
                } else {
                    None
                },
        )
    }
}

/// The expression that `tokens` write in prefix notation: a symbol alone
/// is a value; a symbol followed by arguments between brackets is an
/// application, every argument an expression itself.
pub open spec fn parsed(tokens: Seq<TokenView>, ctx: ContextView) -> Option<ExpressionView>
    decreases tokens.len(), 1nat,
{
    if tokens.len() == 0 {
        None
    } else {
        match tokens[0] {
            TokenView::Symbol(s) => {
                if tokens.len() == 1 {
                    Some(ExpressionView::leaf(value_kind(s, ctx), s))
                } else if tokens[1] != TokenView::OpenParen || tokens.last() != TokenView::CloseParen {
                    None
                } else {
                    let children = parsed_arguments(tokens, ctx);
                    if forall|i: int| 0 <= i < children.len() ==> (#[trigger] children[i]) is Some {
                        Some(
                            ExpressionView::node(
                                operator_kind(s, children.len(), ctx),
                                s,
                                Seq::new(children.len(), |i: int| children[i]->0),
                            ),
                        )
                    } else {
                        None
                    }
                }
            },
            _ => None,
        }
    }
}

/// The tokens of the text `s` in prefix notation.
pub fn tokenize(s: &str) -> (tokens: Vec<Token>)
    ensures
        token_views(tokens@) == tokens_of(s@),
{
    tokenize_with(s, false)
}

/// The tokens of the text `s`. White space ends a symbol if `spaced` is
/// set, and means nothing otherwise.
pub fn tokenize_with(s: &str, spaced: bool) -> (tokens: Vec<Token>)
    ensures
        token_views(tokens@) == spaced_tokens_of(s@, spaced),
{
    let chars = chars_of(s);
    let mut tokens: Vec<Token> = Vec::new();
    let mut current_symbol = String::new();
    let mut i: usize = 0;
    assert(token_views(tokens@) =~= scanned(s@, 0, spaced).0);
    while i < chars.len()
        invariant
            i <= chars.len(),
            chars@ == s@,
            token_views(tokens@) == scanned(s@, i as nat, spaced).0,
            current_symbol@ == scanned(s@, i as nat, spaced).1,
        decreases chars.len() - i,
    {
        let c = chars[i];
        let ghost before = token_views(tokens@);
        let ghost pending = current_symbol@;
        if c == '(' || c == ')' || c == ',' {
            if current_symbol.as_str().unicode_len() > 0 {
                tokens.push(Token::Symbol(current_symbol));
                current_symbol = String::new();
            }
            assert(token_views(tokens@) =~= flushed(before, pending));
            let ghost flushed_tokens = token_views(tokens@);
            let token = if c == '(' {
                Token::OpenParen
            } else if c == ')' {
                Token::CloseParen
            } else {
                Token::Comma
            };
            let ghost added = token@;
            tokens.push(token);
            assert(token_views(tokens@) =~= flushed_tokens.push(added));
        } else if is_whitespace(c) {
            if spaced {
                if current_symbol.as_str().unicode_len() > 0 {
                    tokens.push(Token::Symbol(current_symbol));
                    current_symbol = String::new();
                }
                assert(token_views(tokens@) =~= flushed(before, pending));
            }
        } else {
            push_char(&mut current_symbol, c);
        }
        i += 1;
    }
    let ghost before = token_views(tokens@);
    if current_symbol.as_str().unicode_len() > 0 {
        let ghost pending = current_symbol@;
        tokens.push(Token::Symbol(current_symbol));
        assert(token_views(tokens@) =~= before.push(TokenView::Symbol(pending)));
    }
    tokens
}

/// The arguments among `tokens`: the groups between the commas that stand
/// outside all brackets. `1,2,f(3,4)` gives `1`, `2` and `f(3,4)`.
pub fn split_tokens_by_comma(tokens: &Vec<Token>) -> (result: Vec<Vec<Token>>)
    ensures
        group_views(result@) == split_by_comma(token_views(tokens@)),
{
    let ghost models = token_views(tokens@);
    let mut result: Vec<Vec<Token>> = Vec::new();
    let mut current: Vec<Token> = Vec::new();
    let mut opened: usize = 0;
    let mut closed: usize = 0;
    let mut i: usize = 0;
    assert(group_views(result@) =~= split_state(models, 0).0);
    assert(token_views(current@) =~= split_state(models, 0).1);
    while i < tokens.len()
        invariant
            i <= tokens.len(),
            models == token_views(tokens@),
            opened <= i,
            closed <= i,
            group_views(result@) == split_state(models, i as nat).0,
            token_views(current@) == split_state(models, i as nat).1,
            opened - closed == split_state(models, i as nat).2,
        decreases tokens.len() - i,
    {
        let t = &tokens[i];
        let ghost groups = group_views(result@);
        let ghost pending = token_views(current@);
        assert(models[i as int] == t@);
        match t {
            Token::OpenParen => {
                opened += 1;
                current.push(t.clone());
                assert(token_views(current@) =~= pending.push(t@));
            },
            Token::CloseParen => {
                closed += 1;
                current.push(t.clone());
                assert(token_views(current@) =~= pending.push(t@));
            },
            Token::Comma => {
                if opened == closed {
                    result.push(current);
                    current = Vec::new();
                    assert(group_views(result@) =~= groups.push(pending));
                    assert(token_views(current@) =~= Seq::<TokenView>::empty());
                } else {
                    current.push(t.clone());
                    assert(token_views(current@) =~= pending.push(t@));
                }
            },
            Token::Symbol(_) => {
                current.push(t.clone());
                assert(token_views(current@) =~= pending.push(t@));
            },
        }
        i += 1;
    }
    let ghost groups = group_views(result@);
    let ghost pending = token_views(current@);
    if current.len() > 0 {
        result.push(current);
        assert(group_views(result@) =~= groups.push(pending));
    }
    result
}

/// The tokens of `v` from `from` up to `to`.
pub fn copy_tokens(v: &Vec<Token>, from: usize, to: usize) -> (out: Vec<Token>)
    requires
        from <= to <= v.len(),
    ensures
        token_views(out@) == token_views(v@).subrange(from as int, to as int),
{
    let mut out: Vec<Token> = Vec::new();
    let mut i: usize = from;
    while i < to
        invariant
            from <= i <= to <= v.len(),
            out.len() == i - from,
            forall|j: int| 0 <= j < i - from ==> (#[trigger] out@[j])@ == v@[from + j]@,
        decreases to - i,
    {
        out.push(v[i].clone());
        i += 1;
    }
    assert(token_views(out@) =~= token_views(v@).subrange(from as int, to as int));
    out
}

/// The kind of a value with the symbol `s`.
fn kind_of_value(s: &String, ctx: &Context) -> (kind: ExpressionType)
    ensures
        kind == value_kind(s@, ctx@),
{
    let is_param = list_contains(&ctx.parameters, s.as_str());
    let is_numeric = ctx.handle_numerics && is_number(s.as_str());
    if is_param || is_numeric {
        ExpressionType::ValueConst
    } else {
        ExpressionType::ValueVar
    }
}

/// The kind of an application of `s` to `n` arguments.
fn kind_of_operator(s: &String, n: usize, ctx: &Context) -> (kind: ExpressionType)
    ensures
        kind == operator_kind(s@, n as nat, ctx@),
{
    if n == 1 && ExpressionType::is_variadic_str(s.as_str()) {
        ExpressionType::Variadic
    } else if n == 1 && list_contains(&ctx.unary_ops, s.as_str()) {
        ExpressionType::OperatorUnary
    } else if n == 2 && list_contains(&ctx.binary_ops, s.as_str()) {
        ExpressionType::OperatorBinary
    } else if n == 2 && StatementSymbols::from_symbol(s.as_str()).is_some() {
        ExpressionType::StatementOperatorBinary
    } else if list_contains(&ctx.assoc_ops, s.as_str()) {
        ExpressionType::AssocTrain
    } else {
        ExpressionType::OperatorNary
    }
}

/// The value with the symbol `s`.
pub fn get_value_expression(s: &String, ctx: &Context) -> (e: Expression)
    ensures
        e@ == ExpressionView::leaf(value_kind(s@, ctx@), s@),
{
    Expression::from_parts(kind_of_value(s, ctx), s.clone(), None)
}

/// The expression that `tokens` write in prefix notation.
#[verifier::loop_isolation(false)]
pub fn tokens_to_expression(tokens: &Vec<Token>, ctx: &Context) -> (r: Option<Expression>)
    ensures
        match r {
            Some(e) => parsed(token_views(tokens@), ctx@) == Some(e@),
            None => parsed(token_views(tokens@), ctx@) is None,
        },
    decreases tokens.len(),
{
    let ghost models = token_views(tokens@);
    if tokens.len() == 0 {
        return None;
    }
    assert(models[0] == tokens@[0]@);
    let s = match &tokens[0] {
        Token::Symbol(s) => s,
        _ => {
            return None;
        },
    };
    if tokens.len() == 1 {
        return Some(get_value_expression(s, ctx));
    }
    assert(models[1] == tokens@[1]@);
    assert(models.last() == tokens@[tokens.len() - 1]@);
    match &tokens[1] {
        Token::OpenParen => {},
        _ => {
            return None;
        },
    }
    match &tokens[tokens.len() - 1] {
        Token::CloseParen => {},
        _ => {
            return None;
        },
    }
    let inner_tokens = copy_tokens(tokens, 2, tokens.len() - 1);
    let ghost inner = models.subrange(2, models.len() - 1);
    let child_tokens = split_tokens_by_comma(&inner_tokens);
    let ghost groups = split_by_comma(inner);
    proof {
        lemma_split_len(inner);
    }
    let ghost expected = parsed_arguments(models, ctx@);
    let mut children: Vec<Expression> = Vec::new();
    let mut i: usize = 0;
    while i < child_tokens.len()
        invariant
            i <= child_tokens.len(),
            children.len() == i,
            forall|j: int| 0 <= j < i ==> expected[j] == Some((#[trigger] children@[j])@),
        decreases child_tokens.len() - i,
    {
        assert(groups[i as int] == token_views(child_tokens@[i as int]@));
        assert(groups[i as int].len() <= inner.len());
        match tokens_to_expression(&child_tokens[i], ctx) {
            None => {
                assert(expected[i as int] is None);
                return None;
            },
            Some(e) => {
                children.push(e);
            },
        }
        i += 1;
    }
    let kind = kind_of_operator(s, children.len(), ctx);
    assert(expected.len() == children.len());
    assert forall|j: int| 0 <= j < expected.len() implies (#[trigger] expected[j]) is Some by {
        assert(expected[j] == Some(children@[j]@));
    }
    assert(views(children@) =~= Seq::new(expected.len(), |i: int| expected[i]->0));
    Some(Expression::from_parts(kind, s.clone(), Some(children)))
}

/// The expression that `text` writes in prefix notation, as in
/// `=(+(X,0),X)`. There is none where the text is empty, where an argument
/// is empty or is no expression, and where the brackets do not enclose all
/// that follows the first symbol.
pub fn to_expression(text: &str, ctx: &Context) -> (r: Option<Expression>)
    ensures
        match r {
            Some(e) => parsed(tokens_of(text@), ctx@) == Some(e@),
            None => parsed(tokens_of(text@), ctx@) is None,
        },
{
    let tokens = tokenize(text);
    tokens_to_expression(&tokens, ctx)
}

} // verus!
