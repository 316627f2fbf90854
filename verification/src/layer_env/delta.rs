//! The entries of one scope of a layer's environment.

use vstd::prelude::*;
use vstd::std_specs::cmp::PartialEqSpecImpl;
use crate::bytes::{copy_bytes, lex_lt, push_bytes};
use crate::env::Env;
use crate::layer_env::behavior::ModificationBehavior;
use crate::layer_env::merge::{after_pass, apply_delta, delimiter_of, entry_effect, lookup,
    DeltaMap, EnvMap};
use crate::layer_env::sequence::{apply_entries, ascending, lemma_apply_in_order, lists,
    precedes};
use crate::table::{lemma_sorted_distinct, SortedTable};

verus! {

/// The entries of one scope: for each behavior a table from variable names to
/// values. Going through the tables in the order of the ranks of their
/// behaviors, and through each table in the order of its names, visits the
/// entries in ascending order of behavior and name.
#[derive(Debug)]
pub struct LayerEnvDelta {
    append: SortedTable<Vec<u8>>,
    default: SortedTable<Vec<u8>>,
    delimiter: SortedTable<Vec<u8>>,
    overrides: SortedTable<Vec<u8>>,
    prepend: SortedTable<Vec<u8>>,
}

impl View for LayerEnvDelta {
    type V = DeltaMap;

    closed spec fn view(&self) -> DeltaMap {
        Map::new(
            |key: (ModificationBehavior, Seq<u8>)| self.table(key.0).map().contains_key(key.1),
            |key: (ModificationBehavior, Seq<u8>)| self.table(key.0).map()[key.1],
        )
    }
}

impl LayerEnvDelta {
    /// The table that holds the entries of a behavior.
    pub closed spec fn table(&self, behavior: ModificationBehavior) -> SortedTable<Vec<u8>> {
        match behavior {
            ModificationBehavior::Append => self.append,
            ModificationBehavior::Default => self.default,
            ModificationBehavior::Delimiter => self.delimiter,
            ModificationBehavior::Override => self.overrides,
            ModificationBehavior::Prepend => self.prepend,
        }
    }

    /// What every value of this type satisfies: each of its tables is sorted.
    #[verifier::type_invariant]
    pub open spec fn wf(&self) -> bool {
        forall|behavior: ModificationBehavior| #[trigger] self.table(behavior).wf()
    }

    /// The entries are those of the five tables.
    pub proof fn lemma_view(&self, behavior: ModificationBehavior, name: Seq<u8>)
        ensures
            self@.contains_key((behavior, name)) == self.table(behavior).map().contains_key(name),
            self@.contains_key((behavior, name)) ==> self@[(behavior, name)] == self.table(
                behavior,
            ).map()[name],
    {
    }

    /// The entries of one behavior, in ascending order of their names.
    pub open spec fn entries_of_behavior(&self, behavior: ModificationBehavior) -> Seq<
        (ModificationBehavior, Seq<u8>, Seq<u8>),
    > {
        Seq::new(
            self.table(behavior).keys().len(),
            |i: int| (behavior, self.table(behavior).keys()[i], self.table(behavior).vals()[i]),
        )
    }

    /// All entries as triples of behavior, name and value, in ascending order
    /// of the rank of the behavior and, within a behavior, of the name.
    pub open spec fn entries(&self) -> Seq<(ModificationBehavior, Seq<u8>, Seq<u8>)> {
        self.entries_of_behavior(ModificationBehavior::Append) + self.entries_of_behavior(
            ModificationBehavior::Default,
        ) + self.entries_of_behavior(ModificationBehavior::Delimiter) + self.entries_of_behavior(
            ModificationBehavior::Override,
        ) + self.entries_of_behavior(ModificationBehavior::Prepend)
    }

    /// The list of entries lists the map: it is in strictly ascending order, each
    /// of its triples is an entry of the map, and each entry of the map is one
    /// of its triples.
    pub proof fn lemma_entries(&self)
        requires
            self.wf(),
        ensures
            ascending(self.entries()),
            lists(self.entries(), self@),
    {
        let entries = self.entries();
        let a = self.entries_of_behavior(ModificationBehavior::Append);
        let b = self.entries_of_behavior(ModificationBehavior::Default);
        let c = self.entries_of_behavior(ModificationBehavior::Delimiter);
        let d = self.entries_of_behavior(ModificationBehavior::Override);
        let e = self.entries_of_behavior(ModificationBehavior::Prepend);
        assert forall|i: int| 0 <= i < entries.len() implies {
            let behavior = (#[trigger] entries[i]).0;
            let at = i - self.offset(behavior);
            &&& 0 <= at < self.table(behavior).keys().len()
            &&& entries[i] == self.entries_of_behavior(behavior)[at]
        } by {
            if i < a.len() {
            } else if i < a.len() + b.len() {
            } else if i < a.len() + b.len() + c.len() {
            } else if i < a.len() + b.len() + c.len() + d.len() {
            } else {
            }
        }
        assert forall|i: int, j: int| 0 <= i < j < entries.len() implies precedes(
            #[trigger] entries[i],
            #[trigger] entries[j],
        ) by {
            let left = entries[i].0;
            let right = entries[j].0;
            assert(self.table(left).wf());
            if left == right {
                let table = self.table(left);
                let from = i - self.offset(left);
                let to = j - self.offset(left);
                assert(lex_lt(table.keys()[from], table.keys()[to]));
            }
        }
        assert forall|i: int| 0 <= i < entries.len() implies self@.contains_key(
            ((#[trigger] entries[i]).0, entries[i].1),
        ) && self@[(entries[i].0, entries[i].1)] == entries[i].2 by {
            let behavior = entries[i].0;
            assert(self.table(behavior).wf());
            self.table(behavior).lemma_entry(i - self.offset(behavior));
        }
        assert forall|key: (ModificationBehavior, Seq<u8>)| self@.contains_key(key) implies exists|
            i: int,
        |
            0 <= i < entries.len() && (#[trigger] entries[i]).0 == key.0 && entries[i].1
                == key.1 by {
            let behavior = key.0;
            assert(self.table(behavior).wf());
            self.table(behavior).lemma_key(key.1);
            let at = self.table(behavior).keys().index_of(key.1);
            let i = self.offset(behavior) + at;
            assert(self.entries_of_behavior(behavior)[at].1 == key.1);
            assert(entries[i] == self.entries_of_behavior(behavior)[at]);
        }
    }

    /// Applying the entries one after the other, in ascending order of behavior
    /// and name, gives what `apply` returns.
    pub proof fn lemma_apply_in_key_order(&self, env: EnvMap)
        requires
            self.wf(),
        ensures
            apply_entries(self@, env, self.entries()) == apply_delta(self@, env),
    {
        self.lemma_entries();
        lemma_apply_in_order(self.entries(), self@, env);
    }

    /// The index in the list of all entries at which those of a behavior start.
    pub open spec fn offset(&self, behavior: ModificationBehavior) -> int {
        let a = self.table(ModificationBehavior::Append).keys().len() as int;
        let b = self.table(ModificationBehavior::Default).keys().len() as int;
        let c = self.table(ModificationBehavior::Delimiter).keys().len() as int;
        let d = self.table(ModificationBehavior::Override).keys().len() as int;
        match behavior {
            ModificationBehavior::Append => 0,
            ModificationBehavior::Default => a,
            ModificationBehavior::Delimiter => a + b,
            ModificationBehavior::Override => a + b + c,
            ModificationBehavior::Prepend => a + b + c + d,
        }
    }

    /// No entries.
    pub fn empty() -> (delta: Self)
        ensures
            delta@ == Map::<(ModificationBehavior, Seq<u8>), Seq<u8>>::empty(),
    {
        let append: SortedTable<Vec<u8>> = SortedTable::new();
        let default: SortedTable<Vec<u8>> = SortedTable::new();
        let delimiter: SortedTable<Vec<u8>> = SortedTable::new();
        let overrides: SortedTable<Vec<u8>> = SortedTable::new();
        let prepend: SortedTable<Vec<u8>> = SortedTable::new();
        proof {
            use_type_invariant(&append);
            use_type_invariant(&default);
            use_type_invariant(&delimiter);
            use_type_invariant(&overrides);
            use_type_invariant(&prepend);
        }
        let delta = LayerEnvDelta { append, default, delimiter, overrides, prepend };
        assert(delta@ =~= Map::<(ModificationBehavior, Seq<u8>), Seq<u8>>::empty());
        delta
    }

    /// The table that holds the entries of a behavior.
    pub fn entries_of(&self, behavior: ModificationBehavior) -> (table: &SortedTable<Vec<u8>>)
        ensures
            *table == self.table(behavior),
            table.wf(),
            self.wf(),
    {
        proof {
            use_type_invariant(self);
        }
        let table = match behavior {
            ModificationBehavior::Append => &self.append,
            ModificationBehavior::Default => &self.default,
            ModificationBehavior::Delimiter => &self.delimiter,
            ModificationBehavior::Override => &self.overrides,
            ModificationBehavior::Prepend => &self.prepend,
        };
        proof {
            use_type_invariant(table);
        }
        table
    }

    /// Stores `value` as the entry of `behavior` for the variable `name`, in
    /// place of the entry that was there, if any.
    pub fn insert(&mut self, behavior: ModificationBehavior, name: &[u8], value: &[u8])
        ensures
            final(self)@ == old(self)@.insert((behavior, name@), value@),
    {
        let name = copy_bytes(name);
        let value = copy_bytes(value);
        let mut taken = LayerEnvDelta::empty();
        std::mem::swap(self, &mut taken);
        let LayerEnvDelta { mut append, mut default, mut delimiter, mut overrides, mut prepend } =
            taken;
        match behavior {
            ModificationBehavior::Append => append.insert(name, value),
            ModificationBehavior::Default => default.insert(name, value),
            ModificationBehavior::Delimiter => delimiter.insert(name, value),
            ModificationBehavior::Override => overrides.insert(name, value),
            ModificationBehavior::Prepend => prepend.insert(name, value),
        }
        proof {
            use_type_invariant(&append);
            use_type_invariant(&default);
            use_type_invariant(&delimiter);
            use_type_invariant(&overrides);
            use_type_invariant(&prepend);
        }
        *self = LayerEnvDelta { append, default, delimiter, overrides, prepend };
        assert(self@ =~= old(self)@.insert((behavior, name@), value@));
    }

    /// The value of the entry of `behavior` for the variable `name`, if there
    /// is one.
    pub fn get(&self, behavior: ModificationBehavior, name: &[u8]) -> (value: Option<&Vec<u8>>)
        ensures
            match value {
                Some(v) => self@.contains_key((behavior, name@)) && v@ == self@[(
                    behavior,
                    name@,
                )],
                None => !self@.contains_key((behavior, name@)),
            },
    {
        self.entries_of(behavior).get(name)
    }

    /// The delimiter registered for the variable `name`; empty where none is
    /// registered.
    pub fn delimiter_for(&self, name: &[u8]) -> (delimiter: Vec<u8>)
        ensures
            delimiter@ == delimiter_of(self@, name@),
    {
        match self.delimiter.get(name) {
            Some(delimiter) => copy_bytes(delimiter.as_slice()),
            None => Vec::new(),
        }
    }

    /// What the entry of `behavior` with the value `value` makes of the variable
    /// `name`, which `env` holds as it is before the entry is applied: the new
    /// value to set, or `None` where the variable stays as it is.
    fn updated_value(
        &self,
        behavior: ModificationBehavior,
        name: &[u8],
        value: &[u8],
        env: &Env,
    ) -> (update: Option<Vec<u8>>)
        ensures
            match update {
                Some(v) => entry_effect(
                    behavior,
                    lookup(env@, name@),
                    delimiter_of(self@, name@),
                    value@,
                ) == Some(v@),
                None => entry_effect(
                    behavior,
                    lookup(env@, name@),
                    delimiter_of(self@, name@),
                    value@,
                ) == lookup(env@, name@),
            },
    {
        match behavior {
            ModificationBehavior::Override => Some(copy_bytes(value)),
            ModificationBehavior::Default => {
                if env.contains_key(name) {
                    None
                } else {
                    Some(copy_bytes(value))
                }
            },
            ModificationBehavior::Delimiter => None,
            ModificationBehavior::Append => {
                let mut joined: Vec<u8> = Vec::new();
                match env.get_ref(name) {
                    Some(previous) => {
                        if previous.len() > 0 {
                            push_bytes(&mut joined, previous.as_slice());
                            let delimiter = self.delimiter_for(name);
                            push_bytes(&mut joined, delimiter.as_slice());
                        }
                    },
                    None => {},
                }
                push_bytes(&mut joined, value);
                assert(Seq::<u8>::empty() + value@ =~= value@);
                Some(joined)
            },
            ModificationBehavior::Prepend => {
                let mut joined: Vec<u8> = Vec::new();
                push_bytes(&mut joined, value);
                assert(Seq::<u8>::empty() + value@ =~= value@);
                match env.get_ref(name) {
                    Some(previous) => {
                        if previous.len() > 0 {
                            let delimiter = self.delimiter_for(name);
                            push_bytes(&mut joined, delimiter.as_slice());
                            push_bytes(&mut joined, previous.as_slice());
                        }
                    },
                    None => {},
                }
                Some(joined)
            },
        }
    }

    /// Applies the entries of one behavior to `env`, in the order of their
    /// names.
    pub fn apply_pass(&self, behavior: ModificationBehavior, env: &mut Env)
        ensures
            forall|name: Seq<u8>| #[trigger]
                lookup(final(env)@, name) == after_pass(
                    self@,
                    behavior,
                    name,
                    lookup(old(env)@, name),
                ),
    {
        let table = self.entries_of(behavior);
        let mut i: usize = 0;
        while i < table.len()
            invariant
                table.wf(),
                *table == self.table(behavior),
                i <= table.keys().len(),
                forall|name: Seq<u8>| #[trigger]
                    lookup(env@, name) == if table.keys().subrange(0, i as int).contains(name) {
                        after_pass(self@, behavior, name, lookup(old(env)@, name))
                    } else {
                        lookup(old(env)@, name)
                    },
            decreases table.keys().len() - i,
        {
            let name = table.key_at(i);
            let value = table.value_at(i);
            let ghost before = env@;
            proof {
                table.lemma_entry(i as int);
                self.lemma_view(behavior, name@);
                assert(!table.keys().subrange(0, i as int).contains(name@)) by {
                    if table.keys().subrange(0, i as int).contains(name@) {
                        let j = table.keys().subrange(0, i as int).index_of(name@);
                        lemma_sorted_distinct(table.keys(), j, i as int);
                    }
                }
                assert(lookup(before, name@) == lookup(old(env)@, name@));
            }
            match self.updated_value(behavior, name.as_slice(), value.as_slice(), env) {
                Some(new_value) => {
                    env.insert_owned(copy_bytes(name.as_slice()), new_value);
                },
                None => {},
            }
            proof {
                let grown = table.keys().subrange(0, i + 1);
                let prefix = table.keys().subrange(0, i as int);
                assert(grown[i as int] == name@);
                assert forall|other: Seq<u8>| #[trigger]
                    lookup(env@, other) == if grown.contains(other) {
                        after_pass(self@, behavior, other, lookup(old(env)@, other))
                    } else {
                        lookup(old(env)@, other)
                    } by {
                    if other != name@ {
                        assert(lookup(env@, other) == lookup(before, other));
                        if grown.contains(other) {
                            let j = grown.index_of(other);
                            assert(prefix[j] == other);
                        }
                        if prefix.contains(other) {
                            let j = prefix.index_of(other);
                            assert(grown[j] == other);
                        }
                    }
                }
            }
            i += 1;
        }
        proof {
            assert(table.keys().subrange(0, i as int) =~= table.keys());
            assert forall|name: Seq<u8>| #[trigger]
                lookup(env@, name) == after_pass(self@, behavior, name, lookup(old(env)@, name)) by {
                self.lemma_view(behavior, name);
            }
        }
    }

    /// Applies the entries to `env` and returns the resulting environment. The
    /// passes run in the order of the ranks of the behaviors.
    pub fn apply(&self, env: &Env) -> (result: Env)
        ensures
            result@ == apply_delta(self@, env@),
    {
        let mut result = env.clone();
        self.apply_pass(ModificationBehavior::Append, &mut result);
        let ghost appended = result@;
        self.apply_pass(ModificationBehavior::Default, &mut result);
        let ghost defaulted = result@;
        self.apply_pass(ModificationBehavior::Delimiter, &mut result);
        let ghost delimited = result@;
        self.apply_pass(ModificationBehavior::Override, &mut result);
        let ghost overridden = result@;
        self.apply_pass(ModificationBehavior::Prepend, &mut result);
        proof {
            let expected = apply_delta(self@, env@);
            assert forall|name: Seq<u8>|
                #![trigger result@.contains_key(name)]
                #![trigger expected.contains_key(name)]
                result@.contains_key(name) == expected.contains_key(name) && (
                result@.contains_key(name) ==> result@[name] == expected[name]) by {
                let previous = lookup(env@, name);
                let first = after_pass(self@, ModificationBehavior::Append, name, previous);
                let second = after_pass(self@, ModificationBehavior::Default, name, first);
                let third = after_pass(self@, ModificationBehavior::Delimiter, name, second);
                let fourth = after_pass(self@, ModificationBehavior::Override, name, third);
                assert(lookup(appended, name) == first);
                assert(lookup(defaulted, name) == second);
                assert(lookup(delimited, name) == third);
                assert(lookup(overridden, name) == fourth);
                assert(lookup(result@, name) == lookup(expected, name));
            }
            assert(result@ =~= expected);
        }
        result
    }
}

impl PartialEq for LayerEnvDelta {
    /// Two sets of entries are equal when they hold the same values under the
    /// same behaviors and names, in whatever order these were inserted.
    fn eq(&self, other: &Self) -> (same: bool) {
        proof {
            assert forall|behavior: ModificationBehavior| self@ == other@ implies self.table(
                behavior,
            ).map() == other.table(behavior).map() by {
                let mine = self.table(behavior).map();
                let theirs = other.table(behavior).map();
                assert forall|name: Seq<u8>|
                    #![trigger mine.contains_key(name)]
                    #![trigger theirs.contains_key(name)]
                    mine.contains_key(name) == theirs.contains_key(name) && (mine.contains_key(
                        name,
                    ) ==> mine[name] == theirs[name]) by {
                    self.lemma_view(behavior, name);
                    other.lemma_view(behavior, name);
                }
                assert(mine =~= theirs);
            }
        }
        let same = self.append.same_entries(&other.append) && self.default.same_entries(
            &other.default,
        ) && self.delimiter.same_entries(&other.delimiter) && self.overrides.same_entries(
            &other.overrides,
        ) && self.prepend.same_entries(&other.prepend);
        proof {
            if same {
                assert(self@ =~= other@);
            } else {
                assert(self.table(ModificationBehavior::Append) == self.append);
                assert(self.table(ModificationBehavior::Default) == self.default);
                assert(self.table(ModificationBehavior::Delimiter) == self.delimiter);
                assert(self.table(ModificationBehavior::Override) == self.overrides);
                assert(self.table(ModificationBehavior::Prepend) == self.prepend);
            }
        }
        same
    }
}

impl PartialEqSpecImpl for LayerEnvDelta {
    open spec fn obeys_eq_spec() -> bool {
        true
    }

    open spec fn eq_spec(&self, other: &Self) -> bool {
        self@ == other@
    }
}

impl Eq for LayerEnvDelta {

}

} // verus!
