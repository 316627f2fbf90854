//! A map from byte-string names to values, kept as two parallel vectors sorted
//! by name. The sorted form is canonical: two tables that hold the same entries
//! hold them in the same order.

use vstd::prelude::*;
use crate::bytes::{bytes_eq, compare_bytes, lemma_lex_lt_asymmetric, lemma_lex_lt_irreflexive,
    lemma_lex_lt_transitive, lex_lt, ByteOrder};

verus! {

/// Every name sorts strictly before all names behind it.
pub open spec fn strictly_sorted(names: Seq<Seq<u8>>) -> bool {
    forall|i: int, j: int| 0 <= i < j < names.len() ==> lex_lt(names[i], names[j])
}

/// The map that a list of names and a list of values of the same length stand for.
pub open spec fn entries_map<V>(names: Seq<Seq<u8>>, values: Seq<V>) -> Map<Seq<u8>, V> {
    Map::new(|name: Seq<u8>| names.contains(name), |name: Seq<u8>| values[names.index_of(name)])
}

/// In a sorted list a name occurs once, so it is found at its own index.
pub proof fn lemma_sorted_index_of(names: Seq<Seq<u8>>, i: int)
    requires
        strictly_sorted(names),
        0 <= i < names.len(),
    ensures
        names.contains(names[i]),
        names.index_of(names[i]) == i,
{
    let j = names.index_of(names[i]);
    assert(names[i] == names[i]);
    lemma_lex_lt_irreflexive(names[i]);
    if j < i {
        assert(lex_lt(names[j], names[i]));
    } else if i < j {
        assert(lex_lt(names[i], names[j]));
    }
}

/// In a sorted list, entries at different indices have different names.
pub proof fn lemma_sorted_distinct(names: Seq<Seq<u8>>, i: int, j: int)
    requires
        strictly_sorted(names),
        0 <= i < names.len(),
        0 <= j < names.len(),
        i != j,
    ensures
        names[i] != names[j],
{
    lemma_lex_lt_irreflexive(names[i]);
    if i < j {
        assert(lex_lt(names[i], names[j]));
    } else {
        assert(lex_lt(names[j], names[i]));
    }
}

/// A sorted list holds as many different names as it is long.
pub proof fn lemma_names_set_len(names: Seq<Seq<u8>>)
    requires
        strictly_sorted(names),
    ensures
        names.to_set().finite(),
        names.to_set().len() == names.len(),
{
    assert forall|i: int, j: int| 0 <= i < names.len() && 0 <= j < names.len() && i
        != j implies names[i] != names[j] by {
        lemma_sorted_distinct(names, i, j);
    }
    names.unique_seq_to_set();
}

/// A sorted table from names to values.
#[derive(Debug)]
pub struct SortedTable<V: View> {
    names: Vec<Vec<u8>>,
    values: Vec<V>,
}

impl<V: View> SortedTable<V> {
    /// The names, in ascending order.
    pub closed spec fn keys(&self) -> Seq<Seq<u8>> {
        self.names@.map_values(|name: Vec<u8>| name@)
    }

    /// The values, each at the index of its name.
    pub closed spec fn vals(&self) -> Seq<V::V> {
        self.values@.map_values(|value: V| value@)
    }

    /// What every table satisfies: one value per name, names strictly ascending.
    #[verifier::type_invariant]
    pub open spec fn wf(&self) -> bool {
        &&& self.keys().len() == self.vals().len()
        &&& strictly_sorted(self.keys())
    }

    /// The table as a map.
    pub open spec fn map(&self) -> Map<Seq<u8>, V::V> {
        entries_map(self.keys(), self.vals())
    }

    /// The entry at index `i` is in the map, under its name.
    pub proof fn lemma_entry(&self, i: int)
        requires
            self.wf(),
            0 <= i < self.keys().len(),
        ensures
            self.map().contains_key(self.keys()[i]),
            self.map()[self.keys()[i]] == self.vals()[i],
    {
        lemma_sorted_index_of(self.keys(), i);
    }

    /// Every name of the map is the name of an entry.
    pub proof fn lemma_key(&self, name: Seq<u8>)
        requires
            self.wf(),
            self.map().contains_key(name),
        ensures
            0 <= self.keys().index_of(name) < self.keys().len(),
            self.keys()[self.keys().index_of(name)] == name,
            self.vals()[self.keys().index_of(name)] == self.map()[name],
    {
    }

    /// The map has as many names as the table has entries.
    pub proof fn lemma_dom_len(&self)
        requires
            self.wf(),
        ensures
            self.map().dom().finite(),
            self.map().dom().len() == self.keys().len(),
    {
        lemma_names_set_len(self.keys());
        assert(self.map().dom() =~= self.keys().to_set());
    }

    /// Two tables that stand for the same map hold the same entries in the same
    /// order.
    pub proof fn lemma_same_map(&self, other: &Self)
        requires
            self.wf(),
            other.wf(),
            self.map() == other.map(),
        ensures
            self.keys() == other.keys(),
            self.vals() == other.vals(),
    {
        lemma_sorted_entries_unique(self.keys(), self.vals(), other.keys(), other.vals());
    }

    /// A table without entries.
    pub fn new() -> (table: Self)
        ensures
            table.keys() == Seq::<Seq<u8>>::empty(),
            table.vals() == Seq::<V::V>::empty(),
            table.map() == Map::<Seq<u8>, V::V>::empty(),
    {
        let table = SortedTable { names: Vec::new(), values: Vec::new() };
        assert(table.keys() =~= Seq::<Seq<u8>>::empty());
        assert(table.vals() =~= Seq::<V::V>::empty());
        assert(table.map() =~= Map::<Seq<u8>, V::V>::empty());
        table
    }

    /// The number of entries.
    pub fn len(&self) -> (n: usize)
        ensures
            n == self.keys().len(),
    {
        self.names.len()
    }

    /// The name at index `i`.
    pub fn key_at(&self, i: usize) -> (name: &Vec<u8>)
        requires
            i < self.keys().len(),
        ensures
            name@ == self.keys()[i as int],
    {
        &self.names[i]
    }

    /// The value at index `i`.
    pub fn value_at(&self, i: usize) -> (value: &V)
        requires
            i < self.keys().len(),
        ensures
            value@ == self.vals()[i as int],
    {
        proof {
            use_type_invariant(self);
        }
        &self.values[i]
    }

    /// Where `name` stands, or where it would have to be inserted: `Ok` with
    /// the index of the entry of that name, or `Err` with the index before which
    /// every name is smaller and from which on every name is larger.
    pub fn position(&self, name: &[u8]) -> (slot: Result<usize, usize>)
        ensures
            match slot {
                Ok(i) => i < self.keys().len() && self.keys()[i as int] == name@,
                Err(i) => {
                    &&& i <= self.keys().len()
                    &&& !self.keys().contains(name@)
                    &&& forall|j: int| 0 <= j < i ==> lex_lt(#[trigger] self.keys()[j], name@)
                    &&& forall|j: int|
                        i <= j < self.keys().len() ==> lex_lt(name@, #[trigger] self.keys()[j])
                },
            },
    {
        proof {
            use_type_invariant(self);
        }
        let mut low: usize = 0;
        let mut high: usize = self.names.len();
        while low < high
            invariant
                self.wf(),
                low <= high <= self.keys().len(),
                self.keys().len() == self.names.len(),
                forall|j: int| 0 <= j < low ==> lex_lt(#[trigger] self.keys()[j], name@),
                forall|j: int|
                    high <= j < self.keys().len() ==> lex_lt(name@, #[trigger] self.keys()[j]),
            decreases high - low,
        {
            let middle: usize = low + (high - low) / 2;
            match compare_bytes(self.names[middle].as_slice(), name) {
                ByteOrder::Same => {
                    return Ok(middle);
                },
                ByteOrder::Before => {
                    assert forall|j: int| 0 <= j < middle + 1 implies lex_lt(
                        #[trigger] self.keys()[j],
                        name@,
                    ) by {
                        if j < middle {
                            lemma_lex_lt_transitive(
                                self.keys()[j],
                                self.keys()[middle as int],
                                name@,
                            );
                        }
                    }
                    low = middle + 1;
                },
                ByteOrder::After => {
                    assert forall|j: int| middle <= j < self.keys().len() implies lex_lt(
                        name@,
                        #[trigger] self.keys()[j],
                    ) by {
                        if middle < j {
                            lemma_lex_lt_transitive(
                                name@,
                                self.keys()[middle as int],
                                self.keys()[j],
                            );
                        }
                    }
                    high = middle;
                },
            }
        }
        proof {
            if self.keys().contains(name@) {
                let j = self.keys().index_of(name@);
                lemma_lex_lt_irreflexive(name@);
                if j < low {
                    assert(lex_lt(self.keys()[j], name@));
                } else {
                    assert(lex_lt(name@, self.keys()[j]));
                }
            }
        }
        Err(low)
    }

    /// Whether the table has an entry of that name.
    pub fn contains_key(&self, name: &[u8]) -> (found: bool)
        ensures
            found == self.map().contains_key(name@),
    {
        match self.position(name) {
            Ok(i) => {
                assert(self.keys().contains(name@));
                true
            },
            Err(_) => false,
        }
    }

    /// The value stored under `name`, if there is one.
    pub fn get(&self, name: &[u8]) -> (value: Option<&V>)
        ensures
            match value {
                Some(v) => self.map().contains_key(name@) && v@ == self.map()[name@],
                None => !self.map().contains_key(name@),
            },
    {
        proof {
            use_type_invariant(self);
        }
        match self.position(name) {
            Ok(i) => {
                proof {
                    self.lemma_entry(i as int);
                }
                Some(&self.values[i])
            },
            Err(_) => None,
        }
    }

    /// Stores `value` under `name`, in place of the value that was there, if any.
    pub fn insert(&mut self, name: Vec<u8>, value: V)
        ensures
            final(self).map() == old(self).map().insert(name@, value@),
    {
        proof {
            use_type_invariant(&*self);
        }
        let slot = self.position(name.as_slice());
        let mut taken = SortedTable::new();
        std::mem::swap(self, &mut taken);
        let SortedTable { mut names, mut values } = taken;
        let ghost old_keys = old(self).keys();
        let ghost old_vals = old(self).vals();
        match slot {
            Ok(i) => {
                let ghost value_view = value@;
                values.set(i, value);
                proof {
                    assert(values@.map_values(|value: V| value@) =~= old_vals.update(
                        i as int,
                        value_view,
                    ));
                    lemma_update_map(old_keys, old_vals, i as int, value_view);
                }
                *self = SortedTable { names, values };
            },
            Err(i) => {
                let ghost name_bytes = name@;
                let ghost value_view = value@;
                names.insert(i, name);
                values.insert(i, value);
                proof {
                    assert(names@.map_values(|name: Vec<u8>| name@) =~= old_keys.insert(
                        i as int,
                        name_bytes,
                    ));
                    assert(values@.map_values(|value: V| value@) =~= old_vals.insert(
                        i as int,
                        value_view,
                    ));
                    lemma_insert_map(old_keys, old_vals, i as int, name_bytes, value_view);
                }
                *self = SortedTable { names, values };
            },
        }
    }
}

impl<V: View> SortedTable<V> {
    /// Takes the entry of `name` out of the table and returns its value, if
    /// there is such an entry.
    pub fn remove(&mut self, name: &[u8]) -> (value: Option<V>)
        ensures
            final(self).map() == old(self).map().remove(name@),
            match value {
                Some(v) => old(self).map().contains_key(name@) && v@ == old(self).map()[name@],
                None => !old(self).map().contains_key(name@),
            },
    {
        proof {
            use_type_invariant(&*self);
        }
        match self.position(name) {
            Ok(i) => {
                let mut taken = SortedTable::new();
                std::mem::swap(self, &mut taken);
                let SortedTable { mut names, mut values } = taken;
                let ghost old_keys = old(self).keys();
                let ghost old_vals = old(self).vals();
                names.remove(i);
                let value = values.remove(i);
                proof {
                    assert(names@.map_values(|name: Vec<u8>| name@) =~= old_keys.remove(i as int));
                    assert(values@.map_values(|value: V| value@) =~= old_vals.remove(i as int));
                    lemma_remove_map(old_keys, old_vals, i as int);
                    lemma_sorted_index_of(old_keys, i as int);
                }
                *self = SortedTable { names, values };
                Some(value)
            },
            Err(_) => {
                assert(self.map().remove(name@) =~= self.map());
                None
            },
        }
    }
}

/// Removing the entry at index `i` of a sorted list keeps the list sorted and
/// removes its name from the map.
pub proof fn lemma_remove_map<V>(names: Seq<Seq<u8>>, values: Seq<V>, i: int)
    requires
        strictly_sorted(names),
        names.len() == values.len(),
        0 <= i < names.len(),
    ensures
        strictly_sorted(names.remove(i)),
        entries_map(names.remove(i), values.remove(i)) == entries_map(names, values).remove(
            names[i],
        ),
{
    let fewer = names.remove(i);
    let fewer_values = values.remove(i);
    assert forall|a: int, b: int| 0 <= a < b < fewer.len() implies lex_lt(fewer[a], fewer[b]) by {
        let from = if a < i { a } else { a + 1 };
        let to = if b < i { b } else { b + 1 };
        assert(fewer[a] == names[from]);
        assert(fewer[b] == names[to]);
    }
    let result = entries_map(fewer, fewer_values);
    let expected = entries_map(names, values).remove(names[i]);
    assert forall|k: Seq<u8>| result.contains_key(k) <==> expected.contains_key(k) by {
        if result.contains_key(k) {
            let j = fewer.index_of(k);
            let from = if j < i { j } else { j + 1 };
            assert(names[from] == k);
            lemma_sorted_distinct(names, from, i);
        }
        if expected.contains_key(k) {
            let j = names.index_of(k);
            if j < i {
                assert(fewer[j] == k);
            } else {
                assert(fewer[j - 1] == k);
            }
        }
    }
    assert forall|k: Seq<u8>| result.contains_key(k) implies #[trigger] result[k]
        == expected[k] by {
        let j = fewer.index_of(k);
        lemma_sorted_index_of(fewer, j);
        let from = if j < i { j } else { j + 1 };
        assert(names[from] == k);
        lemma_sorted_index_of(names, from);
    }
    assert(result =~= expected);
}

impl SortedTable<Vec<u8>> {
    /// Whether two tables of byte strings hold the same entries.
    pub fn same_entries(&self, other: &Self) -> (same: bool)
        ensures
            same == (self.map() == other.map()),
    {
        proof {
            use_type_invariant(self);
            use_type_invariant(other);
            if self.map() == other.map() {
                self.lemma_same_map(other);
            }
        }
        if self.len() != other.len() {
            return false;
        }
        let mut i: usize = 0;
        while i < self.len()
            invariant
                self.wf(),
                other.wf(),
                self.keys().len() == other.keys().len(),
                i <= self.keys().len(),
                self.map() == other.map() ==> self.keys() == other.keys() && self.vals()
                    == other.vals(),
                forall|j: int|
                    0 <= j < i ==> self.keys()[j] == other.keys()[j] && self.vals()[j]
                        == other.vals()[j],
            decreases self.keys().len() - i,
        {
            if !bytes_eq(self.key_at(i).as_slice(), other.key_at(i).as_slice()) {
                return false;
            }
            if !bytes_eq(self.value_at(i).as_slice(), other.value_at(i).as_slice()) {
                return false;
            }
            i += 1;
        }
        proof {
            assert(self.keys() =~= other.keys());
            assert(self.vals() =~= other.vals());
        }
        true
    }
}

/// Replacing the value at index `i` of a sorted list of entries stores it under
/// the name at `i`.
pub proof fn lemma_update_map<V>(names: Seq<Seq<u8>>, values: Seq<V>, i: int, value: V)
    requires
        strictly_sorted(names),
        names.len() == values.len(),
        0 <= i < names.len(),
    ensures
        entries_map(names, values.update(i, value)) == entries_map(names, values).insert(
            names[i],
            value,
        ),
{
    let updated = entries_map(names, values.update(i, value));
    let expected = entries_map(names, values).insert(names[i], value);
    lemma_sorted_index_of(names, i);
    assert forall|name: Seq<u8>| updated.contains_key(name) implies #[trigger] updated[name]
        == expected[name] by {
        let j = names.index_of(name);
        if name != names[i] {
            assert(j != i);
        }
    }
    assert(updated =~= expected);
}

/// Inserting a new name at its sorted position keeps the list sorted and adds
/// the entry to the map.
pub proof fn lemma_insert_map<V>(
    names: Seq<Seq<u8>>,
    values: Seq<V>,
    i: int,
    name: Seq<u8>,
    value: V,
)
    requires
        strictly_sorted(names),
        names.len() == values.len(),
        0 <= i <= names.len(),
        forall|j: int| 0 <= j < i ==> lex_lt(#[trigger] names[j], name),
        forall|j: int| i <= j < names.len() ==> lex_lt(name, #[trigger] names[j]),
    ensures
        strictly_sorted(names.insert(i, name)),
        entries_map(names.insert(i, name), values.insert(i, value)) == entries_map(
            names,
            values,
        ).insert(name, value),
{
    let grown = names.insert(i, name);
    let grown_values = values.insert(i, value);
    assert forall|a: int, b: int| 0 <= a < b < grown.len() implies lex_lt(grown[a], grown[b]) by {
        if a < i && b > i {
            assert(grown[a] == names[a]);
            assert(grown[b] == names[b - 1]);
        }
    }
    let result = entries_map(grown, grown_values);
    let expected = entries_map(names, values).insert(name, value);
    assert forall|k: Seq<u8>| result.contains_key(k) <==> expected.contains_key(k) by {
        if result.contains_key(k) {
            let j = grown.index_of(k);
            if j < i {
                assert(names[j] == k);
            } else if j > i {
                assert(names[j - 1] == k);
            }
        }
        if expected.contains_key(k) {
            if k == name {
                assert(grown[i] == k);
            } else {
                let j = names.index_of(k);
                if j < i {
                    assert(grown[j] == k);
                } else {
                    assert(grown[j + 1] == k);
                }
            }
        }
    }
    assert forall|k: Seq<u8>| result.contains_key(k) implies #[trigger] result[k]
        == expected[k] by {
        let j = grown.index_of(k);
        lemma_sorted_index_of(grown, j);
        if j < i {
            assert(names[j] == k);
            lemma_sorted_index_of(names, j);
        } else if j > i {
            assert(names[j - 1] == k);
            lemma_sorted_index_of(names, j - 1);
        }
    }
    assert(result =~= expected);
}

/// Two sorted lists that hold the same names agree on their first `i` names.
proof fn lemma_same_names_prefix(first: Seq<Seq<u8>>, second: Seq<Seq<u8>>, i: int)
    requires
        strictly_sorted(first),
        strictly_sorted(second),
        forall|name: Seq<u8>| first.contains(name) <==> second.contains(name),
        0 <= i <= first.len(),
    ensures
        i <= second.len(),
        forall|j: int| 0 <= j < i ==> first[j] == second[j],
    decreases i,
{
    if i > 0 {
        lemma_same_names_prefix(first, second, i - 1);
        let name = first[i - 1];
        assert(first.contains(name));
        let m = second.index_of(name);
        lemma_lex_lt_irreflexive(name);
        if m < i - 1 {
            assert(first[m] == second[m]);
            assert(lex_lt(first[m], first[i - 1]));
        } else if m > i - 1 {
            let other = second[i - 1];
            assert(lex_lt(other, second[m]));
            assert(second.contains(other));
            let p = first.index_of(other);
            lemma_lex_lt_irreflexive(other);
            if p < i - 1 {
                assert(first[p] == second[p]);
                assert(lex_lt(second[p], second[i - 1]));
            } else if p > i - 1 {
                assert(lex_lt(first[i - 1], first[p]));
                lemma_lex_lt_asymmetric(name, other);
            }
        }
    }
}

/// The sorted form is canonical: two sorted lists of entries that stand for the
/// same map are the same lists.
pub proof fn lemma_sorted_entries_unique<V>(
    first_names: Seq<Seq<u8>>,
    first_values: Seq<V>,
    second_names: Seq<Seq<u8>>,
    second_values: Seq<V>,
)
    requires
        strictly_sorted(first_names),
        strictly_sorted(second_names),
        first_names.len() == first_values.len(),
        second_names.len() == second_values.len(),
        entries_map(first_names, first_values) == entries_map(second_names, second_values),
    ensures
        first_names == second_names,
        first_values == second_values,
{
    let first = entries_map(first_names, first_values);
    let second = entries_map(second_names, second_values);
    assert forall|name: Seq<u8>| first_names.contains(name) <==> second_names.contains(name) by {
        assert(first.contains_key(name) <==> second.contains_key(name));
    }
    lemma_same_names_prefix(first_names, second_names, first_names.len() as int);
    lemma_same_names_prefix(second_names, first_names, second_names.len() as int);
    assert(first_names =~= second_names);
    assert forall|i: int| 0 <= i < first_values.len() implies first_values[i]
        == second_values[i] by {
        lemma_sorted_index_of(first_names, i);
        lemma_sorted_index_of(second_names, i);
        assert(first[first_names[i]] == first_values[i]);
        assert(second[second_names[i]] == second_values[i]);
    }
    assert(first_values =~= second_values);
}

} // verus!
