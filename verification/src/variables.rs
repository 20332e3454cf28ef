//! The variables of a template: names with their values, each name once.

use crate::value::{Value, ValueView};
use vstd::prelude::*;

verus! {

/// The variables of a template, in the order in which they were first set.
/// No name occurs twice.
#[derive(Debug)]
pub struct Variables {
    entries: Vec<(String, Value)>,
}

/// Some entry of `entries` has the name `key`.
pub open spec fn has_key(entries: Seq<(Seq<char>, ValueView)>, key: Seq<char>) -> bool {
    exists|i: int| 0 <= i < entries.len() && (#[trigger] entries[i]).0 == key
}

/// The index of an entry of `entries` with the name `key`.
pub open spec fn index_of(entries: Seq<(Seq<char>, ValueView)>, key: Seq<char>) -> int {
    choose|i: int| 0 <= i < entries.len() && (#[trigger] entries[i]).0 == key
}

/// No two entries of `entries` have the same name.
pub open spec fn distinct_keys(entries: Seq<(Seq<char>, ValueView)>) -> bool {
    forall|i: int, j: int|
        0 <= i < j < entries.len() ==> (#[trigger] entries[i]).0 != (#[trigger] entries[j]).0
}

/// The value that `entries` gives to `key`.
pub open spec fn lookup(entries: Seq<(Seq<char>, ValueView)>, key: Seq<char>) -> Option<
    ValueView,
> {
    if has_key(entries, key) {
        Some(entries[index_of(entries, key)].1)
    } else {
        None
    }
}

/// `entries` with `key` set to `value`: in the place where `key` stood, or
/// at the end where it did not stand.
pub open spec fn upsert(
    entries: Seq<(Seq<char>, ValueView)>,
    key: Seq<char>,
    value: ValueView,
) -> Seq<(Seq<char>, ValueView)> {
    if has_key(entries, key) {
        entries.update(index_of(entries, key), (key, value))
    } else {
        entries.push((key, value))
    }
}

/// Setting a name keeps the names distinct, gives the name its new value
/// and leaves every other name with the value it had.
pub proof fn lemma_upsert(
    entries: Seq<(Seq<char>, ValueView)>,
    key: Seq<char>,
    value: ValueView,
    other: Seq<char>,
)
    requires
        distinct_keys(entries),
    ensures
        distinct_keys(upsert(entries, key, value)),
        lookup(upsert(entries, key, value), key) == Some(value),
        other != key ==> lookup(upsert(entries, key, value), other) == lookup(entries, other),
{
    let after = upsert(entries, key, value);
    if has_key(entries, key) {
        let at = index_of(entries, key);
        assert(after[at].0 == key);
        assert forall|i: int, j: int| 0 <= i < j < after.len() implies (#[trigger] after[i]).0 != (
        #[trigger] after[j]).0 by {
            assert(after[i].0 == entries[i].0);
            assert(after[j].0 == entries[j].0);
        }
        let found = index_of(after, key);
        assert(found == at) by {
            if found != at {
                assert(after[found].0 == after[at].0);
            }
        }
        if other != key {
            if has_key(entries, other) {
                let there = index_of(entries, other);
                assert(after[there].0 == other);
                let then = index_of(after, other);
                assert(then == there) by {
                    if then != there {
                        assert(entries[then].0 == entries[there].0);
                    }
                }
            } else if has_key(after, other) {
                let then = index_of(after, other);
                assert(entries[then].0 == other);
            }
        }
    } else {
        let at = entries.len() as int;
        assert(after[at].0 == key);
        assert forall|i: int, j: int| 0 <= i < j < after.len() implies (#[trigger] after[i]).0 != (
        #[trigger] after[j]).0 by {
            if j < at {
                assert(after[i].0 == entries[i].0);
                assert(after[j].0 == entries[j].0);
            } else {
                assert(after[i] == entries[i]);
            }
        }
        let found = index_of(after, key);
        assert(found == at) by {
            if found != at {
                assert(entries[found].0 == key);
            }
        }
        if other != key {
            if has_key(entries, other) {
                let there = index_of(entries, other);
                assert(after[there].0 == other);
                let then = index_of(after, other);
                assert(then == there) by {
                    if then != there {
                        assert(after[then].0 == after[there].0);
                    }
                }
            } else if has_key(after, other) {
                let then = index_of(after, other);
                assert(entries[then].0 == other);
            }
        }
    }
}

impl View for Variables {
    type V = Seq<(Seq<char>, ValueView)>;

    closed spec fn view(&self) -> Seq<(Seq<char>, ValueView)> {
        Seq::new(self.entries@.len(), |i: int| (self.entries@[i].0@, self.entries@[i].1@))
    }
}

impl Variables {
    #[verifier::type_invariant]
    spec fn names_once(&self) -> bool {
        distinct_keys(self@)
    }

    /// No variables.
    pub fn new() -> (variables: Variables)
        ensures
            variables@ == Seq::<(Seq<char>, ValueView)>::empty(),
    {
        let variables = Variables { entries: Vec::new() };
        assert(variables@ =~= Seq::<(Seq<char>, ValueView)>::empty());
        variables
    }

    /// The number of variables; their names are distinct.
    pub fn len(&self) -> (n: usize)
        ensures
            n == self@.len(),
            distinct_keys(self@),
    {
        proof {
            use_type_invariant(self);
        }
        self.entries.len()
    }

    /// The name of the variable at `index`.
    pub fn key_at(&self, index: usize) -> (key: &String)
        requires
            index < self@.len(),
        ensures
            key@ == self@[index as int].0,
    {
        &self.entries[index].0
    }

    /// The value of the variable at `index`.
    pub fn value_at(&self, index: usize) -> (value: &Value)
        requires
            index < self@.len(),
        ensures
            value@ == self@[index as int].1,
    {
        &self.entries[index].1
    }

    /// Where `key` stands.
    fn position(&self, key: &String) -> (found: Option<usize>)
        ensures
            match found {
                Some(at) => has_key(self@, key@) && at == index_of(self@, key@),
                None => !has_key(self@, key@),
            },
    {
        proof {
            use_type_invariant(self);
        }
        let mut i: usize = 0;
        while i < self.entries.len()
            invariant
                i <= self.entries@.len(),
                self@.len() == self.entries@.len(),
                distinct_keys(self@),
                forall|j: int| 0 <= j < i ==> (#[trigger] self@[j]).0 != key@,
            decreases self.entries.len() - i,
        {
            if self.entries[i].0 == *key {
                assert(self@[i as int].0 == key@);
                let ghost chosen = index_of(self@, key@);
                assert(chosen == i) by {
                    if chosen != i {
                        assert(self@[chosen].0 == self@[i as int].0);
                    }
                }
                return Some(i);
            }
            i += 1;
        }
        None
    }

    /// Tells whether a variable is named `key`.
    pub fn contains_key(&self, key: &str) -> (found: bool)
        ensures
            found == has_key(self@, key@),
    {
        self.position(&key.to_owned()).is_some()
    }

    /// The value of the variable named `key`.
    pub fn get(&self, key: &str) -> (value: Option<&Value>)
        ensures
            match value {
                Some(v) => lookup(self@, key@) == Some(v@),
                None => lookup(self@, key@) is None,
            },
    {
        match self.position(&key.to_owned()) {
            Some(at) => Some(&self.entries[at].1),
            None => None,
        }
    }

    /// Sets the variable named `key` to `value`, whether or not it stood
    /// there before.
    pub fn insert(&mut self, key: String, value: Value)
        ensures
            final(self)@ == upsert(old(self)@, key@, value@),
            distinct_keys(final(self)@),
    {
        proof {
            use_type_invariant(&*self);
            lemma_upsert(self@, key@, value@, key@);
        }
        let found = self.position(&key);
        let mut taken = Variables { entries: Vec::new() };
        assert(taken@ =~= Seq::<(Seq<char>, ValueView)>::empty());
        std::mem::swap(self, &mut taken);
        let mut entries = taken.entries;
        match found {
            Some(at) => {
                entries.set(at, (key, value));
            },
            None => {
                entries.push((key, value));
            },
        }
        let ghost after = Variables { entries };
        assert(after@ =~= upsert(old(self)@, key@, value@));
        *self = Variables { entries };
    }

    /// The names of the variables, in their order.
    pub fn keys(&self) -> (names: Vec<String>)
        ensures
            names@.len() == self@.len(),
            forall|i: int| 0 <= i < names@.len() ==> (#[trigger] names@[i])@ == self@[i].0,
    {
        let mut names: Vec<String> = Vec::new();
        let mut i: usize = 0;
        while i < self.entries.len()
            invariant
                i <= self.entries@.len(),
                self@.len() == self.entries@.len(),
                names@.len() == i,
                forall|j: int| 0 <= j < i ==> (#[trigger] names@[j])@ == self@[j].0,
            decreases self.entries.len() - i,
        {
            names.push(self.entries[i].0.clone());
            i += 1;
        }
        names
    }

    /// A copy of these variables.
    pub fn duplicate(&self) -> (copy: Variables)
        ensures
            copy@ == self@,
    {
        proof {
            use_type_invariant(self);
        }
        let mut entries: Vec<(String, Value)> = Vec::new();
        let mut i: usize = 0;
        while i < self.entries.len()
            invariant
                i <= self.entries@.len(),
                entries@.len() == i,
                forall|j: int|
                    0 <= j < i ==> (#[trigger] entries@[j]).0@ == self.entries@[j].0@
                        && entries@[j].1@ == self.entries@[j].1@,
            decreases self.entries.len() - i,
        {
            entries.push((self.entries[i].0.clone(), self.entries[i].1.duplicate()));
            i += 1;
        }
        let ghost made = Variables { entries };
        assert(made@ =~= self@);
        Variables { entries }
    }
}

} // verus!
