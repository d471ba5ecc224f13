//! The binding environment: names and the values bound to them.
use crate::types::{
    copy_entries, copy_value, entries_view, find_key, lemma_entries_view, lemma_first_index,
    lookup, store, store_entry, RispType, Value,
};
use vstd::prelude::*;
use vstd::string::StringExecFns;

verus! {

/// A store of bindings. A call of a user-defined function works on a copy,
/// so nothing that it binds reaches its caller.
pub struct Environment {
    data: Vec<(String, RispType)>,
}

impl View for Environment {
    type V = Seq<(Seq<char>, Value)>;

    closed spec fn view(&self) -> Seq<(Seq<char>, Value)> {
        entries_view(self.data@)
    }
}

impl Environment {
    /// The environment without bindings.
    pub fn new() -> (r: Self)
        ensures
            r@ == Seq::<(Seq<char>, Value)>::empty(),
    {
        let data: Vec<(String, RispType)> = Vec::new();
        proof {
            lemma_entries_view(data@);
            assert(entries_view(data@) =~= Seq::<(Seq<char>, Value)>::empty());
        }
        Environment { data }
    }

    /// Binds `key` to `value`; an earlier binding of `key` is replaced.
    pub fn set(&mut self, key: &str, value: RispType)
        ensures
            final(self)@ == store(old(self)@, key@, value@),
    {
        store_entry(&mut self.data, String::from_str(key), value);
    }

    /// The value bound to `key`, if there is one.
    pub fn get(&self, key: &str) -> (r: Option<RispType>)
        ensures
            match r {
                Some(v) => lookup(self@, key@) == Some(v@),
                None => lookup(self@, key@) is None,
            },
    {
        let name = String::from_str(key);
        match find_key(&self.data, &name) {
            Some(i) => {
                proof {
                    lemma_entries_view(self.data@);
                    lemma_first_index(self@, key@, i as int);
                }
                Some(copy_value(&self.data[i].1))
            },
            None => None,
        }
    }

    /// A copy with the same bindings.
    pub fn duplicate(&self) -> (r: Self)
        ensures
            r@ == self@,
    {
        Environment { data: copy_entries(&self.data) }
    }
}

impl Clone for Environment {
    fn clone(&self) -> (r: Self)
        ensures
            r@ == self@,
    {
        self.duplicate()
    }
}

impl Default for Environment {
    fn default() -> (r: Self)
        ensures
            r@ == Seq::<(Seq<char>, Value)>::empty(),
    {
        Environment::new()
    }
}

} // verus!
