//! The variables of a running program: a map from names to values.
use vstd::prelude::*;
use crate::error::SSharpError;

verus! {

/// The variables, kept as a list of bindings in which no name occurs twice.
/// The value type is a parameter: the evaluator decides what a value is.
#[derive(Debug, Clone)]
pub struct Environment<T> {
    vars: Vec<(String, T)>,
}

/// No two bindings have the same name.
pub open spec fn names_distinct<T>(s: Seq<(String, T)>) -> bool {
    forall|i: int, j: int| 0 <= i < j < s.len() ==> #[trigger] s[i].0@ != #[trigger] s[j].0@
}

/// The map that a list of bindings stands for.
pub open spec fn bindings<T>(s: Seq<(String, T)>) -> Map<Seq<char>, T>
    decreases s.len(),
{
    if s.len() == 0 {
        Map::empty()
    } else {
        bindings(s.drop_last()).insert(s.last().0@, s.last().1)
    }
}

/// The message for reading a variable that was never set.
pub open spec fn undefined_message(name: Seq<char>) -> Seq<char> {
    "Undefined variable '"@ + name + "'"@
}

impl<T> View for Environment<T> {
    type V = Map<Seq<char>, T>;

    closed spec fn view(&self) -> Map<Seq<char>, T> {
        bindings(self.vars@)
    }
}

/// The names bound by a list of bindings are those of its entries.
proof fn lemma_bindings_dom<T>(s: Seq<(String, T)>, name: Seq<char>)
    ensures
        bindings(s).contains_key(name) <==> exists|i: int| 0 <= i < s.len() && #[trigger] s[i].0@
            == name,
    decreases s.len(),
{
    if s.len() > 0 {
        lemma_bindings_dom(s.drop_last(), name);
        if bindings(s).contains_key(name) && s.last().0@ != name {
            let i = choose|i: int| 0 <= i < s.len() - 1 && #[trigger] s.drop_last()[i].0@ == name;
            assert(s[i].0@ == name);
        }
        if exists|i: int| 0 <= i < s.len() && #[trigger] s[i].0@ == name {
            let i = choose|i: int| 0 <= i < s.len() && #[trigger] s[i].0@ == name;
            if i < s.len() - 1 {
                assert(s.drop_last()[i].0@ == name);
            }
        }
    }
}

/// With distinct names, the value bound to the name of entry `i` is that entry's value.
proof fn lemma_bindings_at<T>(s: Seq<(String, T)>, i: int)
    requires
        names_distinct(s),
        0 <= i < s.len(),
    ensures
        bindings(s).contains_key(s[i].0@),
        bindings(s)[s[i].0@] == s[i].1,
    decreases s.len(),
{
    if i < s.len() - 1 {
        assert(s.drop_last()[i] == s[i]);
        lemma_bindings_at(s.drop_last(), i);
        assert(s.last().0@ != s[i].0@);
    }
}

/// Replacing the value of entry `i` rebinds its name.
proof fn lemma_bindings_update<T>(s: Seq<(String, T)>, i: int, v: T)
    requires
        names_distinct(s),
        0 <= i < s.len(),
    ensures
        bindings(s.update(i, (s[i].0, v))) == bindings(s).insert(s[i].0@, v),
    decreases s.len(),
{
    let t = s.update(i, (s[i].0, v));
    if i == s.len() - 1 {
        assert(t.drop_last() == s.drop_last());
        let m = bindings(s.drop_last());
        assert(m.insert(s[i].0@, s[i].1).insert(s[i].0@, v) =~= m.insert(s[i].0@, v));
    } else {
        assert(t.drop_last() == s.drop_last().update(i, (s[i].0, v)));
        assert(s.drop_last()[i] == s[i]);
        lemma_bindings_update(s.drop_last(), i, v);
        assert(s.last().0@ != s[i].0@);
        let m = bindings(s.drop_last());
        assert(m.insert(s[i].0@, v).insert(s.last().0@, s.last().1) =~= m.insert(
            s.last().0@,
            s.last().1,
        ).insert(s[i].0@, v));
    }
}

impl<T> Environment<T> {
    /// No name is bound twice.
    pub closed spec fn wf(&self) -> bool {
        names_distinct(self.vars@)
    }

    /// No variables.
    pub fn new() -> (e: Self)
        ensures
            e.wf(),
            e@ == Map::<Seq<char>, T>::empty(),
    {
        Self { vars: Vec::new() }
    }

    /// The index of the binding of `name`, if there is one.
    fn find(&self, name: &str) -> (r: Option<usize>)
        requires
            self.wf(),
        ensures
            match r {
                Some(i) => i < self.vars@.len() && self.vars@[i as int].0@ == name@,
                None => !self@.contains_key(name@),
            },
    {
        let key = name.to_owned();
        let n: usize = self.vars.len();
        let mut i: usize = 0;
        while i < n
            invariant
                n == self.vars@.len(),
                i <= n,
                key@ == name@,
                forall|j: int| 0 <= j < i ==> #[trigger] self.vars@[j].0@ != name@,
            decreases n - i,
        {
            if self.vars[i].0 == key {
                return Some(i);
            }
            i = i + 1;
        }
        proof {
            lemma_bindings_dom(self.vars@, name@);
        }
        None
    }

    /// Binds `name` to `value`, replacing any value it had.
    pub fn set(&mut self, name: &str, value: T)
        requires
            old(self).wf(),
        ensures
            final(self).wf(),
            final(self)@ == old(self)@.insert(name@, value),
    {
        match self.find(name) {
            Some(i) => {
                proof {
                    lemma_bindings_update(self.vars@, i as int, value);
                }
                let ghost before = self.vars@;
                let entry = (self.vars[i].0.clone(), value);
                self.vars.set(i, entry);
                assert(self.vars@ == before.update(i as int, (before[i as int].0, value)));
                assert forall|a: int, b: int| 0 <= a < b < self.vars@.len() implies #[trigger] self.vars@[a].0@
                    != #[trigger] self.vars@[b].0@ by {
                    assert(before[a].0@ != before[b].0@);
                }
            },
            None => {
                let ghost before = self.vars@;
                self.vars.push((name.to_owned(), value));
                assert(self.vars@.drop_last() == before);
                proof {
                    lemma_bindings_dom(before, name@);
                }
                assert forall|a: int, b: int| 0 <= a < b < self.vars@.len() implies #[trigger] self.vars@[a].0@
                    != #[trigger] self.vars@[b].0@ by {
                    if b < before.len() {
                        assert(before[a].0@ != before[b].0@);
                    } else {
                        assert(before[a].0@ != name@);
                    }
                }
            },
        }
    }

    /// The value bound to `name` (a clone of it), or the error for an undefined variable.
    pub fn get(&self, name: &str) -> (r: Result<T, SSharpError>) where T: Clone
        requires
            self.wf(),
        ensures
            self@.contains_key(name@) ==> (r matches Ok(v) && cloned(self@[name@], v)),
            !self@.contains_key(name@) ==> (r matches Err(SSharpError::RuntimeError { message })
                && message@ == undefined_message(name@)),
    {
        match self.find(name) {
            Some(i) => {
                proof {
                    lemma_bindings_at(self.vars@, i as int);
                }
                Ok(self.vars[i].1.clone())
            },
            None => {
                let mut message = "Undefined variable '".to_owned();
                message.append(name);
                message.append("'");
                Err(SSharpError::RuntimeError { message })
            },
        }
    }
}

impl<T> Default for Environment<T> {
    /// No variables.
    fn default() -> (e: Self)
        ensures
            e.wf(),
            e@ == Map::<Seq<char>, T>::empty(),
    {
        Self::new()
    }
}

} // verus!

verus! {

/// Reading a variable gives back the value last saved to it (`get` after
/// `set`), and saving to one name leaves every other name as it was.
pub proof fn law_get_after_set<T>(
    before: Map<Seq<char>, T>,
    name: Seq<char>,
    value: T,
    other: Seq<char>,
)
    ensures
        before.insert(name, value).contains_key(name),
        before.insert(name, value)[name] == value,
        other != name ==> before.insert(name, value).contains_key(other) == before.contains_key(
            other,
        ),
        other != name && before.contains_key(other) ==> before.insert(name, value)[other]
            == before[other],
{
}

} // verus!

verus! {

/// The variables after `Environment::new` and then `set` with each name and
/// value of `ops` in order: the view that the contracts of `new` and `set`
/// give, step by step.
pub open spec fn after_sets<T>(ops: Seq<(Seq<char>, T)>) -> Map<Seq<char>, T>
    decreases ops.len(),
{
    if ops.len() == 0 {
        Map::empty()
    } else {
        after_sets(ops.drop_last()).insert(ops.last().0, ops.last().1)
    }
}

proof fn lemma_after_sets_dom<T>(ops: Seq<(Seq<char>, T)>, name: Seq<char>)
    ensures
        after_sets(ops).contains_key(name) <==> exists|i: int|
            0 <= i < ops.len() && #[trigger] ops[i].0 == name,
    decreases ops.len(),
{
    if ops.len() > 0 {
        let init = ops.drop_last();
        lemma_after_sets_dom(init, name);
        if after_sets(ops).contains_key(name) && ops.last().0 != name {
            let i = choose|i: int| 0 <= i < init.len() && #[trigger] init[i].0 == name;
            assert(ops[i].0 == name);
        }
        if exists|i: int| 0 <= i < ops.len() && #[trigger] ops[i].0 == name {
            let i = choose|i: int| 0 <= i < ops.len() && #[trigger] ops[i].0 == name;
            if i < ops.len() - 1 {
                assert(init[i].0 == name);
            }
        }
    }
}

proof fn lemma_after_sets_last<T>(ops: Seq<(Seq<char>, T)>, name: Seq<char>, i: int)
    requires
        0 <= i < ops.len(),
        ops[i].0 == name,
        forall|j: int| i < j < ops.len() ==> #[trigger] ops[j].0 != name,
    ensures
        after_sets(ops).contains_key(name),
        after_sets(ops)[name] == ops[i].1,
    decreases ops.len(),
{
    if i < ops.len() - 1 {
        let init = ops.drop_last();
        assert(ops[ops.len() - 1].0 != name);
        assert(init[i].0 == name);
        assert forall|j: int| i < j < init.len() implies #[trigger] init[j].0 != name by {
            assert(ops[j].0 != name);
        }
        lemma_after_sets_last(init, name, i);
    }
}

/// After a fresh environment and any sequence of `set` calls, a name is bound
/// exactly when some call used that very name, and it holds the value of the
/// last such call; so `get` gives that value, and for any other name the
/// undefined-variable error.
pub proof fn law_sets_in_sequence<T>(ops: Seq<(Seq<char>, T)>, name: Seq<char>)
    ensures
        after_sets(ops).contains_key(name) <==> exists|i: int|
            0 <= i < ops.len() && #[trigger] ops[i].0 == name,
        forall|i: int|
            0 <= i < ops.len() && #[trigger] ops[i].0 == name && (forall|j: int|
                i < j < ops.len() ==> #[trigger] ops[j].0 != name) ==> after_sets(ops)[name]
                == ops[i].1,
{
    lemma_after_sets_dom(ops, name);
    assert forall|i: int|
        0 <= i < ops.len() && #[trigger] ops[i].0 == name && (forall|j: int|
            i < j < ops.len() ==> #[trigger] ops[j].0 != name) implies after_sets(ops)[name]
        == ops[i].1 by {
        lemma_after_sets_last(ops, name, i);
    }
}

} // verus!
