//! The static configuration that parsing and normalization consult.

use vstd::prelude::*;

use crate::expression::tree::string_set;
use crate::text::contains_str;
use crate::text::str_eq;
use crate::text::strings_view;

verus! {

/// Which symbols are parameters and operators, and which optional passes
/// are switched on.
#[derive(Debug)]
pub struct Context {
    /// Symbols that stand for constants rather than free variables.
    pub parameters: Vec<String>,
    pub unary_ops: Vec<String>,
    pub binary_ops: Vec<String>,
    pub assoc_ops: Vec<String>,
    /// Whether bare numerals are constants.
    pub handle_numerics: bool,
    /// Free-form feature flags, read as a set.
    pub flags: Vec<String>,
}

/// The mathematical value of a [`Context`].
pub struct ContextView {
    pub parameters: Seq<Seq<char>>,
    pub unary_ops: Seq<Seq<char>>,
    pub binary_ops: Seq<Seq<char>>,
    pub assoc_ops: Seq<Seq<char>>,
    pub handle_numerics: bool,
    pub flags: Set<Seq<char>>,
}

impl View for Context {
    type V = ContextView;

    open spec fn view(&self) -> ContextView {
        ContextView {
            parameters: strings_view(self.parameters@),
            unary_ops: strings_view(self.unary_ops@),
            binary_ops: strings_view(self.binary_ops@),
            assoc_ops: strings_view(self.assoc_ops@),
            handle_numerics: self.handle_numerics,
            flags: string_set(self.flags@),
        }
    }
}

/// Whether `list` holds `s`, stated over the views of its strings.
pub proof fn lemma_contains_view(list: Seq<String>, s: Seq<char>)
    ensures
        strings_view(list).contains(s) <==> exists|i: int| 0 <= i < list.len() && (#[trigger] list[i])@ == s,
        strings_view(list).contains(s) <==> string_set(list).contains(s),
{
    let v = strings_view(list);
    if v.contains(s) {
        let i = choose|i: int| 0 <= i < v.len() && v[i] == s;
        assert(list[i]@ == s);
    }
    if exists|i: int| 0 <= i < list.len() && (#[trigger] list[i])@ == s {
        let i = choose|i: int| 0 <= i < list.len() && (#[trigger] list[i])@ == s;
        assert(v[i] == s);
    }
}

/// Whether `list` holds a string equal to `s`.
pub fn list_contains(list: &Vec<String>, s: &str) -> (r: bool)
    ensures
        r == strings_view(list@).contains(s@),
        r == string_set(list@).contains(s@),
{
    proof {
        lemma_contains_view(list@, s@);
    }
    contains_str(list, s)
}

/// Copies a list of strings.
pub fn clone_strings(list: &Vec<String>) -> (out: Vec<String>)
    ensures
        strings_view(out@) == strings_view(list@),
        string_set(out@) == string_set(list@),
{
    let mut out: Vec<String> = Vec::new();
    let mut i: usize = 0;
    while i < list.len()
        invariant
            i <= list.len(),
            out.len() == i,
            forall|j: int| 0 <= j < i ==> out@[j]@ == list@[j]@,
        decreases list.len() - i,
    {
        out.push(list[i].clone());
        i += 1;
    }
    assert(strings_view(out@) =~= strings_view(list@));
    proof {
        assert forall|s: Seq<char>| string_set(out@).contains(s) <==> string_set(list@).contains(s) by {
            lemma_contains_view(out@, s);
            lemma_contains_view(list@, s);
        }
        assert(string_set(out@) =~= string_set(list@));
    }
    out
}

impl Clone for Context {
    fn clone(&self) -> (res: Self)
        ensures
            res@ == self@,
    {
        Context {
            parameters: clone_strings(&self.parameters),
            unary_ops: clone_strings(&self.unary_ops),
            binary_ops: clone_strings(&self.binary_ops),
            assoc_ops: clone_strings(&self.assoc_ops),
            handle_numerics: self.handle_numerics,
            flags: clone_strings(&self.flags),
        }
    }
}

impl Default for Context {
    fn default() -> (c: Context)
        ensures
            c@ == ContextView::empty(),
    {
        let c = Context {
            parameters: Vec::new(),
            unary_ops: Vec::new(),
            binary_ops: Vec::new(),
            assoc_ops: Vec::new(),
            handle_numerics: false,
            flags: Vec::new(),
        };
        assert(c@.parameters =~= Seq::<Seq<char>>::empty());
        assert(c@.unary_ops =~= Seq::<Seq<char>>::empty());
        assert(c@.binary_ops =~= Seq::<Seq<char>>::empty());
        assert(c@.assoc_ops =~= Seq::<Seq<char>>::empty());
        assert(c@.flags =~= Set::<Seq<char>>::empty());
        c
    }
}

impl ContextView {
    /// The context that declares nothing.
    pub open spec fn empty() -> ContextView {
        ContextView {
            parameters: Seq::empty(),
            unary_ops: Seq::empty(),
            binary_ops: Seq::empty(),
            assoc_ops: Seq::empty(),
            handle_numerics: false,
            flags: Set::empty(),
        }
    }

    /// The context with `param` declared, if it was not yet.
    pub open spec fn add_param(self, param: Seq<char>) -> ContextView {
        ContextView {
            parameters: if self.parameters.contains(param) {
                self.parameters
            } else {
                self.parameters.push(param)
            },
            ..self
        }
    }

    /// The context with each of the first `n` of `params` declared in turn.
    pub open spec fn add_params(self, params: Seq<Seq<char>>, n: nat) -> ContextView
        decreases n,
    {
        if n == 0 || n > params.len() {
            self
        } else {
            self.add_params(params, (n - 1) as nat).add_param(params[n - 1])
        }
    }

    /// The context without any declaration of `param`.
    pub open spec fn remove_param(self, param: Seq<char>) -> ContextView {
        ContextView { parameters: self.parameters.filter(|p: Seq<char>| p != param), ..self }
    }

    /// The context with each of the first `n` of `params` removed in turn.
    pub open spec fn remove_params(self, params: Seq<Seq<char>>, n: nat) -> ContextView
        decreases n,
    {
        if n == 0 || n > params.len() {
            self
        } else {
            self.remove_params(params, (n - 1) as nat).remove_param(params[n - 1])
        }
    }

    /// The context with `flag` set.
    pub open spec fn add_flag(self, flag: Seq<char>) -> ContextView {
        ContextView { flags: self.flags.insert(flag), ..self }
    }
}

impl Context {
    /// Declares `param` as a parameter, unless it is one already, and hands
    /// back a copy of the context.
    pub fn add_param(&mut self, param: String) -> (r: Context)
        ensures
            final(self)@ == old(self)@.add_param(param@),
            r@ == final(self)@,
    {
        if !list_contains(&self.parameters, param.as_str()) {
            let ghost before = self.parameters@;
            self.parameters.push(param);
            assert(strings_view(self.parameters@) =~= strings_view(before).push(param@));
        }
        self.clone()
    }

    /// Declares each of `params` in turn.
    pub fn add_params(&mut self, params: Vec<String>) -> (r: Context)
        ensures
            final(self)@ == old(self)@.add_params(strings_view(params@), params.len() as nat),
            r@ == final(self)@,
    {
        let mut i: usize = 0;
        while i < params.len()
            invariant
                i <= params.len(),
                self@ == old(self)@.add_params(strings_view(params@), i as nat),
            decreases params.len() - i,
        {
            let _ = self.add_param(params[i].clone());
            i += 1;
        }
        self.clone()
    }

    /// Removes every declaration of `param`.
    pub fn remove_param(&mut self, param: &String) -> (r: Context)
        ensures
            final(self)@ == old(self)@.remove_param(param@),
            r@ == final(self)@,
    {
        let ghost before = strings_view(self.parameters@);
        let ghost keep = |p: Seq<char>| p != param@;
        let mut kept: Vec<String> = Vec::new();
        let mut i: usize = 0;
        assert(before.take(0).filter(keep) =~= Seq::<Seq<char>>::empty()) by {
            assert(before.take(0) =~= Seq::<Seq<char>>::empty());
        }
        assert(strings_view(kept@) =~= Seq::<Seq<char>>::empty());
        while i < self.parameters.len()
            invariant
                i <= self.parameters.len(),
                before == strings_view(self.parameters@),
                keep == |p: Seq<char>| p != param@,
                strings_view(kept@) == before.take(i as int).filter(keep),
            decreases self.parameters.len() - i,
        {
            let ghost old_kept = kept@;
            proof {
                assert(before.take(i + 1).drop_last() =~= before.take(i as int));
                assert(before.take(i + 1).last() == self.parameters@[i as int]@);
                reveal_with_fuel(Seq::filter, 2);
            }
            if !str_eq(self.parameters[i].as_str(), param.as_str()) {
                kept.push(self.parameters[i].clone());
                assert(strings_view(kept@) =~= strings_view(old_kept).push(self.parameters@[i as int]@));
            }
            i += 1;
        }
        assert(before.take(i as int) =~= before);
        self.parameters = kept;
        self.clone()
    }

    /// Removes each of `params` in turn.
    pub fn remove_params(&mut self, params: &Vec<String>) -> (r: Context)
        ensures
            final(self)@ == old(self)@.remove_params(strings_view(params@), params.len() as nat),
            r@ == final(self)@,
    {
        let mut i: usize = 0;
        while i < params.len()
            invariant
                i <= params.len(),
                self@ == old(self)@.remove_params(strings_view(params@), i as nat),
            decreases params.len() - i,
        {
            let _ = self.remove_param(&params[i]);
            i += 1;
        }
        self.clone()
    }

    /// Sets `flag`.
    pub fn add_flag(&mut self, flag: &str) -> (r: Context)
        ensures
            final(self)@ == old(self)@.add_flag(flag@),
            r@ == final(self)@,
    {
        let ghost before = self.flags@;
        if !list_contains(&self.flags, flag) {
            self.flags.push(String::from_str(flag));
            proof {
                let after = self.flags@;
                assert forall|s: Seq<char>| string_set(after).contains(s) <==> string_set(before).insert(
                    flag@,
                ).contains(s) by {
                    if string_set(after).contains(s) {
                        let i = choose|i: int| 0 <= i < after.len() && (#[trigger] after[i])@ == s;
                        if i < before.len() {
                            assert(before[i]@ == s);
                        }
                    }
                    if string_set(before).contains(s) {
                        let i = choose|i: int| 0 <= i < before.len() && (#[trigger] before[i])@ == s;
                        assert(after[i]@ == s);
                    }
                    if s == flag@ {
                        assert(after[before.len() as int]@ == s);
                    }
                }
                assert(string_set(after) =~= string_set(before).insert(flag@));
            }
        } else {
            assert(string_set(before) =~= string_set(before).insert(flag@));
        }
        self.clone()
    }

    /// Sets each of `flags`.
    pub fn add_flags(&mut self, flags: Vec<String>) -> (r: Context)
        ensures
            final(self)@.flags == old(self)@.flags.union(string_set(flags@)),
            final(self)@.parameters == old(self)@.parameters,
            final(self)@.unary_ops == old(self)@.unary_ops,
            final(self)@.binary_ops == old(self)@.binary_ops,
            final(self)@.assoc_ops == old(self)@.assoc_ops,
            final(self)@.handle_numerics == old(self)@.handle_numerics,
            r@ == final(self)@,
    {
        let mut i: usize = 0;
        assert(self@.flags =~= old(self)@.flags.union(string_set(flags@.take(0))));
        while i < flags.len()
            invariant
                i <= flags.len(),
                self@.flags == old(self)@.flags.union(string_set(flags@.take(i as int))),
                self@.parameters == old(self)@.parameters,
                self@.unary_ops == old(self)@.unary_ops,
                self@.binary_ops == old(self)@.binary_ops,
                self@.assoc_ops == old(self)@.assoc_ops,
                self@.handle_numerics == old(self)@.handle_numerics,
            decreases flags.len() - i,
        {
            let _ = self.add_flag(flags[i].as_str());
            proof {
                let done = flags@.take(i as int);
                let next = flags@.take(i + 1);
                assert forall|s: Seq<char>| string_set(next).contains(s) <==> string_set(done).insert(
                    flags@[i as int]@,
                ).contains(s) by {
                    if string_set(next).contains(s) {
                        let j = choose|j: int| 0 <= j < next.len() && (#[trigger] next[j])@ == s;
                        if j < i {
                            assert(done[j]@ == s);
                        }
                    }
                    if string_set(done).contains(s) {
                        let j = choose|j: int| 0 <= j < done.len() && (#[trigger] done[j])@ == s;
                        assert(next[j]@ == s);
                    }
                    if s == flags@[i as int]@ {
                        assert(next[i as int]@ == s);
                    }
                }
                assert(string_set(next) =~= string_set(done).insert(flags@[i as int]@));
                assert(self@.flags =~= old(self)@.flags.union(string_set(next)));
            }
            i += 1;
        }
        assert(flags@.take(i as int) =~= flags@);
        self.clone()
    }

    /// Whether `flag` is set.
    pub fn contains_flag(&self, flag: &str) -> (r: bool)
        ensures
            r == self@.flags.contains(flag@),
    {
        list_contains(&self.flags, flag)
    }

    /// Whether each of `flags` is set.
    pub fn contains_all_flags(&self, flags: &Vec<String>) -> (r: bool)
        ensures
            r == string_set(flags@).subset_of(self@.flags),
    {
        let mut i: usize = 0;
        while i < flags.len()
            invariant
                i <= flags.len(),
                forall|j: int| 0 <= j < i ==> self@.flags.contains((#[trigger] flags@[j])@),
            decreases flags.len() - i,
        {
            if !self.contains_flag(flags[i].as_str()) {
                assert(string_set(flags@).contains(flags@[i as int]@));
                return false;
            }
            i += 1;
        }
        true
    }
}

} // verus!
