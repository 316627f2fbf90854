//! A process environment: variable names and their raw values.

use vstd::prelude::*;
use vstd::std_specs::cmp::PartialEqSpecImpl;
use crate::bytes::copy_bytes;
use crate::table::{entries_map, lemma_sorted_distinct, strictly_sorted, SortedTable};

verus! {

/// The names of a list of pairs of a name and a value.
pub open spec fn pair_names(pairs: Seq<(Vec<u8>, Vec<u8>)>) -> Seq<Seq<u8>> {
    pairs.map_values(|pair: (Vec<u8>, Vec<u8>)| pair.0@)
}

/// The values of a list of pairs of a name and a value.
pub open spec fn pair_values(pairs: Seq<(Vec<u8>, Vec<u8>)>) -> Seq<Seq<u8>> {
    pairs.map_values(|pair: (Vec<u8>, Vec<u8>)| pair.1@)
}

/// A snapshot of a process environment. Each name has at most one value;
/// neither names nor values need to be valid Unicode.
#[derive(Debug)]
pub struct Env {
    vars: SortedTable<Vec<u8>>,
}

impl View for Env {
    type V = Map<Seq<u8>, Seq<u8>>;

    closed spec fn view(&self) -> Map<Seq<u8>, Seq<u8>> {
        self.vars.map()
    }
}

impl Env {
    /// An environment without variables.
    pub fn empty() -> (env: Self)
        ensures
            env@ == Map::<Seq<u8>, Seq<u8>>::empty(),
    {
        Env { vars: SortedTable::new() }
    }

    /// Sets the variable `name` to `value`, replacing its previous value.
    pub fn insert(&mut self, name: &[u8], value: &[u8])
        ensures
            final(self)@ == old(self)@.insert(name@, value@),
    {
        self.vars.insert(copy_bytes(name), copy_bytes(value));
    }

    /// Sets the variable `name` to `value`, taking ownership of both.
    pub fn insert_owned(&mut self, name: Vec<u8>, value: Vec<u8>)
        ensures
            final(self)@ == old(self)@.insert(name@, value@),
    {
        self.vars.insert(name, value);
    }

    /// The value of the variable `name`, if it is set.
    pub fn get(&self, name: &[u8]) -> (value: Option<Vec<u8>>)
        ensures
            match value {
                Some(v) => self@.contains_key(name@) && v@ == self@[name@],
                None => !self@.contains_key(name@),
            },
    {
        match self.vars.get(name) {
            Some(v) => Some(copy_bytes(v.as_slice())),
            None => None,
        }
    }

    /// The value of the variable `name`, borrowed, if it is set.
    pub fn get_ref(&self, name: &[u8]) -> (value: Option<&Vec<u8>>)
        ensures
            match value {
                Some(v) => self@.contains_key(name@) && v@ == self@[name@],
                None => !self@.contains_key(name@),
            },
    {
        self.vars.get(name)
    }

    /// Whether the variable `name` is set.
    pub fn contains_key(&self, name: &[u8]) -> (found: bool)
        ensures
            found == self@.contains_key(name@),
    {
        self.vars.contains_key(name)
    }

    /// The number of variables.
    pub fn len(&self) -> (n: usize)
        ensures
            n == self@.dom().len(),
            self@.dom().finite(),
    {
        proof {
            use_type_invariant(&self.vars);
            self.vars.lemma_dom_len();
        }
        self.vars.len()
    }

    /// All variables as pairs of name and value, in ascending order of their
    /// names.
    pub fn iter(&self) -> (pairs: Vec<(Vec<u8>, Vec<u8>)>)
        ensures
            strictly_sorted(pair_names(pairs@)),
            entries_map(pair_names(pairs@), pair_values(pairs@)) == self@,
    {
        proof {
            use_type_invariant(&self.vars);
        }
        let mut pairs: Vec<(Vec<u8>, Vec<u8>)> = Vec::new();
        let mut i: usize = 0;
        while i < self.vars.len()
            invariant
                self.vars.wf(),
                i <= self.vars.keys().len(),
                pairs.len() == i,
                pair_names(pairs@) == self.vars.keys().subrange(0, i as int),
                pair_values(pairs@) == self.vars.vals().subrange(0, i as int),
            decreases self.vars.keys().len() - i,
        {
            let name = copy_bytes(self.vars.key_at(i).as_slice());
            let value = copy_bytes(self.vars.value_at(i).as_slice());
            let ghost before = pairs@;
            pairs.push((name, value));
            i += 1;
            proof {
                assert forall|j: int| 0 <= j < i implies pair_names(pairs@)[j]
                    == self.vars.keys()[j] && pair_values(pairs@)[j] == self.vars.vals()[j] by {
                    if j < i - 1 {
                        assert(pairs@[j] == before[j]);
                        assert(pair_names(before)[j] == self.vars.keys()[j]);
                        assert(pair_values(before)[j] == self.vars.vals()[j]);
                    }
                }
                assert(pair_names(pairs@) =~= self.vars.keys().subrange(0, i as int));
                assert(pair_values(pairs@) =~= self.vars.vals().subrange(0, i as int));
            }
        }
        assert(self.vars.keys().subrange(0, i as int) =~= self.vars.keys());
        assert(self.vars.vals().subrange(0, i as int) =~= self.vars.vals());
        pairs
    }
}

impl Clone for Env {
    /// An independent copy with the same variables.
    fn clone(&self) -> (copy: Self)
        ensures
            copy@ == self@,
    {
        proof {
            use_type_invariant(&self.vars);
        }
        let mut vars: SortedTable<Vec<u8>> = SortedTable::new();
        let mut i: usize = 0;
        while i < self.vars.len()
            invariant
                self.vars.wf(),
                i <= self.vars.keys().len(),
                forall|name: Seq<u8>| #[trigger]
                    vars.map().contains_key(name) ==> self.vars.map().contains_key(name),
                forall|j: int|
                    0 <= j < i ==> vars.map().contains_key(#[trigger] self.vars.keys()[j])
                        && vars.map()[self.vars.keys()[j]] == self.vars.vals()[j],
            decreases self.vars.keys().len() - i,
        {
            let name = copy_bytes(self.vars.key_at(i).as_slice());
            let value = copy_bytes(self.vars.value_at(i).as_slice());
            proof {
                self.vars.lemma_entry(i as int);
                assert forall|j: int| 0 <= j < i implies self.vars.keys()[j]
                    != self.vars.keys()[i as int] by {
                    lemma_sorted_distinct(self.vars.keys(), j, i as int);
                }
            }
            vars.insert(name, value);
            i += 1;
        }
        proof {
            assert forall|name: Seq<u8>| self.vars.map().contains_key(name) implies vars.map().contains_key(
                name,
            ) && vars.map()[name] == self.vars.map()[name] by {
                self.vars.lemma_key(name);
                let j = self.vars.keys().index_of(name);
                assert(vars.map().contains_key(self.vars.keys()[j]));
            }
            assert(vars.map() =~= self.vars.map());
        }
        Env { vars }
    }
}

impl PartialEq for Env {
    /// Two environments are equal when they set the same variables to the same
    /// values.
    fn eq(&self, other: &Self) -> (same: bool) {
        self.vars.same_entries(&other.vars)
    }
}

impl PartialEqSpecImpl for Env {
    open spec fn obeys_eq_spec() -> bool {
        true
    }

    open spec fn eq_spec(&self, other: &Self) -> bool {
        self@ == other@
    }
}

impl Eq for Env {

}

} // verus!
