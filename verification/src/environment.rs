//! The bindings of variable names to values.

use vstd::prelude::*;

use crate::token::Token;
use crate::value::{SpecValue, Value};

verus! {

/// Variable bindings, most recent last.
pub struct Environment {
    values: Vec<(String, Value)>,
}

/// The value bound to `name` by the last binding of that name, if any.
pub open spec fn lookup(bindings: Seq<(String, Value)>, name: Seq<char>) -> Option<SpecValue>
    decreases bindings.len(),
{
    if bindings.len() == 0 {
        None
    } else if bindings.last().0@ == name {
        Some(bindings.last().1@)
    } else {
        lookup(bindings.drop_last(), name)
    }
}

/// The index of the last binding of `name`, or -1.
pub open spec fn last_index(bindings: Seq<(String, Value)>, name: Seq<char>) -> int
    decreases bindings.len(),
{
    if bindings.len() == 0 {
        -1
    } else if bindings.last().0@ == name {
        bindings.len() - 1
    } else {
        last_index(bindings.drop_last(), name)
    }
}

proof fn lemma_last_index(bindings: Seq<(String, Value)>, name: Seq<char>)
    ensures
        -1 <= last_index(bindings, name) < bindings.len(),
        last_index(bindings, name) == -1 <==> lookup(bindings, name) is None,
        last_index(bindings, name) >= 0 ==> {
            let i = last_index(bindings, name);
            &&& bindings[i].0@ == name
            &&& lookup(bindings, name) == Some(bindings[i].1@)
            &&& forall|j: int| i < j < bindings.len() ==> bindings[j].0@ != name
        },
        last_index(bindings, name) == -1 ==> forall|j: int|
            0 <= j < bindings.len() ==> bindings[j].0@ != name,
    decreases bindings.len(),
{
    if bindings.len() > 0 {
        let rest = bindings.drop_last();
        lemma_last_index(rest, name);
        assert forall|j: int| 0 <= j < rest.len() implies rest[j] == bindings[j] by {}
    }
}

proof fn lemma_lookup_update(bindings: Seq<(String, Value)>, i: int, entry: (String, Value), name: Seq<char>)
    requires
        0 <= i < bindings.len(),
        entry.0@ == bindings[i].0@,
        forall|j: int| i < j < bindings.len() ==> bindings[j].0@ != bindings[i].0@,
    ensures
        lookup(bindings.update(i, entry), name) == if name == entry.0@ {
            Some(entry.1@)
        } else {
            lookup(bindings, name)
        },
    decreases bindings.len(),
{
    let updated = bindings.update(i, entry);
    if i < bindings.len() - 1 {
        assert(updated.drop_last() =~= bindings.drop_last().update(i, entry));
        lemma_lookup_update(bindings.drop_last(), i, entry, name);
    } else {
        assert(updated.drop_last() =~= bindings.drop_last());
    }
}

impl View for Environment {
    type V = Map<Seq<char>, SpecValue>;

    closed spec fn view(&self) -> Map<Seq<char>, SpecValue> {
        Map::new(
            |name: Seq<char>| lookup(self.values@, name) is Some,
            |name: Seq<char>| lookup(self.values@, name)->0,
        )
    }
}

impl Environment {
    /// An environment without bindings.
    pub fn new() -> (e: Environment)
        ensures
            e@ == Map::<Seq<char>, SpecValue>::empty(),
    {
        let e = Environment { values: Vec::new() };
        assert(e@ =~= Map::<Seq<char>, SpecValue>::empty());
        e
    }

    /// The index of the last binding of `name`.
    fn find(&self, name: &String) -> (r: Option<usize>)
        ensures
            match r {
                Some(i) => i as int == last_index(self.values@, name@),
                None => last_index(self.values@, name@) == -1,
            },
    {
        proof { lemma_last_index(self.values@, name@); }
        let mut i = self.values.len();
        while i > 0
            invariant
                i <= self.values.len(),
                forall|j: int| i <= j < self.values.len() ==> self.values@[j].0@ != name@,
                last_index(self.values@, name@) < i,
            decreases i,
        {
            proof { lemma_last_index(self.values@, name@); }
            if self.values[i - 1].0 == *name {
                return Some(i - 1);
            }
            i = i - 1;
        }
        None
    }

    /// Binds `name` to `value`, replacing any binding it had.
    pub fn define(&mut self, name: &Token, value: Value)
        ensures
            final(self)@ == old(self)@.insert(name.lexeme@, value@),
    {
        let ghost name_v = name.lexeme@;
        let ghost value_v = value@;
        match self.find(&name.lexeme) {
            Some(i) => {
                let ghost before = self.values@;
                proof { lemma_last_index(before, name_v); }
                let key = name.lexeme.clone();
                self.values.set(i, (key, value));
                proof {
                    assert forall|k: Seq<char>| #[trigger] lookup(self.values@, k) == if k == name_v {
                        Some(value_v)
                    } else {
                        lookup(before, k)
                    } by {
                        lemma_lookup_update(before, i as int, self.values@[i as int], k);
                    }
                }
            },
            None => {
                let ghost before = self.values@;
                let key = name.lexeme.clone();
                self.values.push((key, value));
                proof {
                    assert(self.values@.drop_last() =~= before);
                }
            },
        }
        assert(self@ =~= old(self)@.insert(name_v, value_v));
    }

    /// Rebinds `name` to `value` if it is bound; says whether it was.
    pub fn assign(&mut self, name: &Token, value: Value) -> (found: bool)
        ensures
            found == old(self)@.dom().contains(name.lexeme@),
            found ==> final(self)@ == old(self)@.insert(name.lexeme@, value@),
            !found ==> final(self)@ == old(self)@,
    {
        proof { lemma_last_index(self.values@, name.lexeme@); }
        if self.find(&name.lexeme).is_none() {
            return false;
        }
        self.define(name, value);
        true
    }

    /// The value bound to `name`, if any.
    pub fn get(&self, name: &Token) -> (r: Option<Value>)
        ensures
            match r {
                Some(v) => self@.dom().contains(name.lexeme@) && v@ == self@[name.lexeme@],
                None => !self@.dom().contains(name.lexeme@),
            },
    {
        proof { lemma_last_index(self.values@, name.lexeme@); }
        match self.find(&name.lexeme) {
            Some(i) => Some(self.values[i].1.clone()),
            None => None,
        }
    }

    /// A copy of the environment.
    pub fn duplicate(&self) -> (r: Environment)
        ensures
            r@ == self@,
    {
        let mut values: Vec<(String, Value)> = Vec::new();
        let mut i: usize = 0;
        while i < self.values.len()
            invariant
                i <= self.values.len(),
                values@ == self.values@.take(i as int),
            decreases self.values.len() - i,
        {
            let entry = (self.values[i].0.clone(), self.values[i].1.clone());
            values.push(entry);
            assert(values@ =~= self.values@.take(i + 1));
            i = i + 1;
        }
        assert(values@ =~= self.values@);
        let r = Environment { values };
        assert(r@ =~= self@);
        r
    }
}

} // verus!
