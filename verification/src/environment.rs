//! The environment: a mutable binding table chained to an optional parent.
//!
//! A lookup that misses locally walks up the parent chain until a binding
//! is found or the root is passed. Definition and removal touch the local
//! table only: defining a name shadows a same-named binding in an ancestor
//! without changing it, and removing a local binding never edits an
//! ancestor's table.
//!
//! The parent link is shared, never exclusive: a child holds a counted
//! reference to its parent, so one parent can back several children at
//! once and stays usable on its own for as long as any child lives.
//!
//! The model of an environment is the sequence of its scopes' binding
//! maps, the local scope first.

use std::rc::Rc;
use vstd::prelude::*;

use crate::error::{ErrorV, KirundiError};
use crate::value::{Value, ValueV};

verus! {

/// A binding table plus an optional parent scope.
pub struct Environment {
    entries: Vec<(String, Value)>,
    parent: Option<Rc<Environment>>,
}

/// The binding map of one local table; a later entry for the same name
/// overrides an earlier one.
pub open spec fn assoc_model(entries: Seq<(String, Value)>) -> Map<Seq<char>, ValueV>
    decreases entries.len(),
{
    if entries.len() == 0 {
        Map::empty()
    } else {
        assoc_model(entries.drop_last()).insert(entries.last().0@, entries.last().1@)
    }
}

/// The local binding for a name, scanning from the most recent entry.
pub open spec fn assoc_get(entries: Seq<(String, Value)>, name: Seq<char>) -> Option<ValueV>
    decreases entries.len(),
{
    if entries.len() == 0 {
        Option::None
    } else if entries.last().0@ == name {
        Option::Some(entries.last().1@)
    } else {
        assoc_get(entries.drop_last(), name)
    }
}

/// The entries whose name differs from `name`, in order.
pub open spec fn without_key(entries: Seq<(String, Value)>, name: Seq<char>) -> Seq<
    (String, Value),
>
    decreases entries.len(),
{
    if entries.len() == 0 {
        Seq::empty()
    } else if entries.last().0@ == name {
        without_key(entries.drop_last(), name)
    } else {
        without_key(entries.drop_last(), name).push(entries.last())
    }
}

proof fn lemma_assoc_get(entries: Seq<(String, Value)>, name: Seq<char>)
    ensures
        assoc_model(entries).contains_key(name) <==> assoc_get(entries, name) is Some,
        assoc_get(entries, name) matches Option::Some(v) ==> assoc_model(entries)[name] == v,
    decreases entries.len(),
{
    if entries.len() > 0 {
        lemma_assoc_get(entries.drop_last(), name);
    }
}

proof fn lemma_assoc_without_key(entries: Seq<(String, Value)>, name: Seq<char>)
    ensures
        assoc_model(without_key(entries, name)) =~= assoc_model(entries).remove(name),
    decreases entries.len(),
{
    if entries.len() > 0 {
        lemma_assoc_without_key(entries.drop_last(), name);
        if entries.last().0@ != name {
            let w = without_key(entries.drop_last(), name).push(entries.last());
            assert(w.drop_last() =~= without_key(entries.drop_last(), name));
        }
    }
}

/// The binding a name resolves to in a chain of scopes: the innermost
/// scope that holds it decides.
pub open spec fn lookup_scopes(scopes: Seq<Map<Seq<char>, ValueV>>, name: Seq<char>) -> Option<
    ValueV,
>
    decreases scopes.len(),
{
    if scopes.len() == 0 {
        Option::None
    } else if scopes[0].contains_key(name) {
        Option::Some(scopes[0][name])
    } else {
        lookup_scopes(scopes.drop_first(), name)
    }
}

/// The scope maps of an environment chain, the local table first.
pub closed spec fn env_model(e: Environment) -> Seq<Map<Seq<char>, ValueV>>
    decreases e,
{
    match e.parent {
        Option::None => seq![assoc_model(e.entries@)],
        Option::Some(p) => seq![assoc_model(e.entries@)] + env_model(*p),
    }
}

impl View for Environment {
    type V = Seq<Map<Seq<char>, ValueV>>;

    open spec fn view(&self) -> Seq<Map<Seq<char>, ValueV>> {
        env_model(*self)
    }
}

impl Environment {
    /// A fresh root environment: one empty scope, no parent.
    pub fn new() -> (r: Environment)
        ensures
            r@ == seq![Map::<Seq<char>, ValueV>::empty()],
    {
        let r = Environment { entries: Vec::new(), parent: Option::None };
        proof {
            assert(r@ =~~= seq![Map::<Seq<char>, ValueV>::empty()]);
        }
        r
    }

    /// A fresh scope whose lookups fall back to `parent`. The parent is
    /// taken as a shared reference: cloning the `Rc` gives one parent any
    /// number of children, and the parent stays usable beside them all.
    pub fn new_with_parent(parent: Rc<Environment>) -> (r: Environment)
        ensures
            r@ == seq![Map::<Seq<char>, ValueV>::empty()] + parent@,
    {
        let ghost pv = parent@;
        let r = Environment { entries: Vec::new(), parent: Option::Some(parent) };
        proof {
            assert(r@ =~~= seq![Map::<Seq<char>, ValueV>::empty()] + pv);
        }
        r
    }

    /// Binds `name` to `value` in the local table only, inserting or
    /// overwriting; an equally named binding in an ancestor is shadowed,
    /// never changed.
    pub fn set(&mut self, name: String, value: Value)
        ensures
            final(self)@ == old(self)@.update(0, old(self)@[0].insert(name@, value@)),
    {
        let ghost old_entries = self.entries@;
        self.entries.push((name, value));
        proof {
            assert(self.entries@.drop_last() =~= old_entries);
            assert(self@ =~~= old(self)@.update(0, old(self)@[0].insert(name@, value@)));
        }
    }

    /// The value `name` resolves to: the local table first, then the
    /// parent chain, `None` when no scope holds it.
    pub fn get<'a>(&'a self, name: &str) -> (r: Option<&'a Value>)
        ensures
            match r {
                Option::Some(v) => lookup_scopes(self@, name@) == Option::Some(v@),
                Option::None => lookup_scopes(self@, name@) is None,
            },
        decreases *self,
    {
        let key: String = name.to_owned();
        let n = self.entries.len();
        let mut i: usize = n;
        proof {
            assert(self.entries@.subrange(0, n as int) =~= self.entries@);
        }
        while i > 0
            invariant
                i <= n,
                n == self.entries@.len(),
                key@ == name@,
                assoc_get(self.entries@, name@) == assoc_get(
                    self.entries@.subrange(0, i as int),
                    name@,
                ),
            decreases i,
        {
            i = i - 1;
            proof {
                assert(self.entries@.subrange(0, i + 1int).drop_last() =~= self.entries@.subrange(
                    0,
                    i as int,
                ));
            }
            if self.entries[i].0 == key {
                proof {
                    lemma_assoc_get(self.entries@, name@);
                }
                return Option::Some(&self.entries[i].1);
            }
        }
        proof {
            assert(self.entries@.subrange(0, 0) =~= Seq::<(String, Value)>::empty());
            lemma_assoc_get(self.entries@, name@);
        }
        match &self.parent {
            Option::Some(p) => {
                let r = (**p).get(name);
                proof {
                    assert(self@[0] == assoc_model(self.entries@));
                    assert(!self@[0].contains_key(name@));
                    assert(self@.drop_first() =~= (**p)@);
                    assert(lookup_scopes(self@, name@) == lookup_scopes((**p)@, name@));
                    if r is None {
                        assert(lookup_scopes((**p)@, name@) is None);
                        assert(lookup_scopes(self@, name@) is None);
                    }
                }
                r
            },
            Option::None => {
                proof {
                    assert(self@ == seq![assoc_model(self.entries@)]);
                    assert(!self@[0].contains_key(name@));
                    assert(self@.drop_first() =~= Seq::<Map<Seq<char>, ValueV>>::empty());
                    assert(lookup_scopes(Seq::<Map<Seq<char>, ValueV>>::empty(), name@) is None);
                    assert(lookup_scopes(self@, name@) is None);
                }
                Option::None
            },
        }
    }

    /// The value `name` resolves to, or the taxonomy error: the lookup
    /// fails with [`KirundiError::UndefinedVariable`] carrying the name
    /// exactly when no scope in the chain binds it.
    pub fn lookup<'a>(&'a self, name: &str) -> (r: Result<&'a Value, KirundiError>)
        ensures
            match r {
                Ok(v) => lookup_scopes(self@, name@) == Option::Some(v@),
                Err(e) => lookup_scopes(self@, name@) is None && e@ == ErrorV::UndefinedVariable(
                    name@,
                ),
            },
    {
        match self.get(name) {
            Option::Some(v) => Ok(v),
            Option::None => Err(KirundiError::UndefinedVariable(name.to_owned())),
        }
    }

    /// Deletes `name` from the local table only; a shadowed binding in an
    /// ancestor is untouched (and a later lookup will reach it again,
    /// since lookup re-walks the chain).
    pub fn remove(&mut self, name: &str)
        ensures
            final(self)@ == old(self)@.update(0, old(self)@[0].remove(name@)),
    {
        let key: String = name.to_owned();
        let n = self.entries.len();
        let mut kept: Vec<(String, Value)> = Vec::new();
        let mut i: usize = 0;
        while i < n
            invariant
                i <= n,
                n == self.entries@.len(),
                key@ == name@,
                self.entries@ == old(self).entries@,
                self.parent == old(self).parent,
                kept@ == without_key(self.entries@.subrange(0, i as int), name@),
            decreases n - i,
        {
            proof {
                assert(self.entries@.subrange(0, i + 1int).drop_last() =~= self.entries@.subrange(
                    0,
                    i as int,
                ));
            }
            if !(self.entries[i].0 == key) {
                let entry_name = self.entries[i].0.clone();
                let entry_value = self.entries[i].1.duplicate();
                kept.push((entry_name, entry_value));
                proof {
                    assert((self.entries@[i as int].0, self.entries@[i as int].1)
                        == self.entries@[i as int]);
                }
            }
            i = i + 1;
        }
        proof {
            assert(self.entries@.subrange(0, n as int) =~= self.entries@);
            lemma_assoc_without_key(self.entries@, name@);
        }
        self.entries = kept;
        proof {
            assert(self@ =~~= old(self)@.update(0, old(self)@[0].remove(name@)));
        }
    }
}

/// Every environment chain holds at least its own local scope, so the
/// scope at index 0, which `set` and `remove` speak of, always exists.
pub proof fn lemma_env_scopes_nonempty(e: Environment)
    ensures
        e@.len() >= 1,
{
    if e.parent is Some {
        assert(e@.len() >= 1);
    } else {
        assert(e@.len() == 1);
    }
}

/// After a definition the name resolves to the defined value, in the same
/// environment and in a child created afterwards; a child's own definition
/// shadows it in the child while the parent still sees the original.
pub proof fn lemma_define_lookup_shadow(
    scopes: Seq<Map<Seq<char>, ValueV>>,
    n: Seq<char>,
    v: ValueV,
    w: ValueV,
)
    requires
        scopes.len() > 0,
    ensures
        ({
            let defined = scopes.update(0, scopes[0].insert(n, v));
            let child = seq![Map::<Seq<char>, ValueV>::empty()] + defined;
            let shadowed = child.update(0, child[0].insert(n, w));
            &&& lookup_scopes(defined, n) == Option::Some(v)
            &&& lookup_scopes(child, n) == Option::Some(v)
            &&& lookup_scopes(shadowed, n) == Option::Some(w)
            &&& lookup_scopes(shadowed.drop_first(), n) == Option::Some(v)
        }),
{
    let defined = scopes.update(0, scopes[0].insert(n, v));
    let child = seq![Map::<Seq<char>, ValueV>::empty()] + defined;
    let shadowed = child.update(0, child[0].insert(n, w));
    assert(child.drop_first() =~= defined);
    assert(shadowed.drop_first() =~= defined);
}

/// A name bound in no scope of the chain resolves to nothing.
pub proof fn lemma_lookup_absent(scopes: Seq<Map<Seq<char>, ValueV>>, n: Seq<char>)
    requires
        forall|i: int| 0 <= i < scopes.len() ==> !(#[trigger] scopes[i]).contains_key(n),
    ensures
        lookup_scopes(scopes, n) is None,
    decreases scopes.len(),
{
    if scopes.len() > 0 {
        let rest = scopes.drop_first();
        assert forall|i: int| 0 <= i < rest.len() implies !(#[trigger] rest[i]).contains_key(
            n,
        ) by {
            assert(rest[i] == scopes[i + 1]);
        }
        lemma_lookup_absent(rest, n);
    }
}

} // verus!
