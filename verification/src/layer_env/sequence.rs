//! The entries of a scope as a list in ascending order, and what applying them
//! one after the other makes of an environment.

use vstd::prelude::*;
use crate::bytes::{lemma_lex_lt_irreflexive, lex_lt};
use crate::layer_env::behavior::ModificationBehavior;
use crate::layer_env::merge::{after_pass, apply_delta, apply_to_variable, delimiter_of,
    entry_effect, lookup, DeltaMap, EnvMap};

verus! {

/// Whether one entry stands before another: its behavior has the smaller rank,
/// or both have the same behavior and its name sorts first.
pub open spec fn precedes(
    first: (ModificationBehavior, Seq<u8>, Seq<u8>),
    second: (ModificationBehavior, Seq<u8>, Seq<u8>),
) -> bool {
    first.0.rank() < second.0.rank() || (first.0 == second.0 && lex_lt(first.1, second.1))
}

/// Whether a list of entries is in strictly ascending order.
pub open spec fn ascending(entries: Seq<(ModificationBehavior, Seq<u8>, Seq<u8>)>) -> bool {
    forall|i: int, j: int|
        0 <= i < j < entries.len() ==> precedes(#[trigger] entries[i], #[trigger] entries[j])
}

/// Whether a list of entries holds what a map holds: each triple of the list is
/// an entry of the map, and each entry of the map is a triple of the list.
pub open spec fn lists(
    entries: Seq<(ModificationBehavior, Seq<u8>, Seq<u8>)>,
    delta: DeltaMap,
) -> bool {
    &&& forall|i: int|
        0 <= i < entries.len() ==> delta.contains_key(((#[trigger] entries[i]).0, entries[i].1))
            && delta[(entries[i].0, entries[i].1)] == entries[i].2
    &&& forall|key: (ModificationBehavior, Seq<u8>)|
        delta.contains_key(key) ==> exists|i: int|
            0 <= i < entries.len() && (#[trigger] entries[i]).0 == key.0 && entries[i].1 == key.1
}

/// What applying one entry makes of an environment: the entry reads and
/// writes the variable it is named after. The delimiter is looked up among all
/// entries, wherever in the list its entry stands.
pub open spec fn apply_entry(
    delta: DeltaMap,
    env: EnvMap,
    entry: (ModificationBehavior, Seq<u8>, Seq<u8>),
) -> EnvMap {
    match entry_effect(entry.0, lookup(env, entry.1), delimiter_of(delta, entry.1), entry.2) {
        Some(value) => env.insert(entry.1, value),
        None => env,
    }
}

/// What applying the entries of a list one after the other, from the first to
/// the last, makes of an environment.
pub open spec fn apply_entries(
    delta: DeltaMap,
    env: EnvMap,
    entries: Seq<(ModificationBehavior, Seq<u8>, Seq<u8>)>,
) -> EnvMap
    decreases entries.len(),
{
    if entries.len() == 0 {
        env
    } else {
        apply_entry(delta, apply_entries(delta, env, entries.drop_last()), entries.last())
    }
}

/// Whether one of the first `count` entries of a list has this behavior and
/// this name.
pub open spec fn reached(
    entries: Seq<(ModificationBehavior, Seq<u8>, Seq<u8>)>,
    count: int,
    behavior: ModificationBehavior,
    name: Seq<u8>,
) -> bool {
    exists|i: int| 0 <= i < count && (#[trigger] entries[i]).0 == behavior && entries[i].1 == name
}

/// What the pass of a behavior makes of a variable, as far as the first
/// `count` entries go.
pub open spec fn after_reached_pass(
    entries: Seq<(ModificationBehavior, Seq<u8>, Seq<u8>)>,
    count: int,
    delta: DeltaMap,
    behavior: ModificationBehavior,
    name: Seq<u8>,
    previous: Option<Seq<u8>>,
) -> Option<Seq<u8>> {
    if reached(entries, count, behavior, name) {
        after_pass(delta, behavior, name, previous)
    } else {
        previous
    }
}

/// What the first `count` entries make of a variable.
pub open spec fn apply_reached(
    entries: Seq<(ModificationBehavior, Seq<u8>, Seq<u8>)>,
    count: int,
    delta: DeltaMap,
    name: Seq<u8>,
    previous: Option<Seq<u8>>,
) -> Option<Seq<u8>> {
    let appended = after_reached_pass(
        entries,
        count,
        delta,
        ModificationBehavior::Append,
        name,
        previous,
    );
    let defaulted = after_reached_pass(
        entries,
        count,
        delta,
        ModificationBehavior::Default,
        name,
        appended,
    );
    let delimited = after_reached_pass(
        entries,
        count,
        delta,
        ModificationBehavior::Delimiter,
        name,
        defaulted,
    );
    let overridden = after_reached_pass(
        entries,
        count,
        delta,
        ModificationBehavior::Override,
        name,
        delimited,
    );
    after_reached_pass(entries, count, delta, ModificationBehavior::Prepend, name, overridden)
}

/// Among the entries before the one at `at`, none with the same name has the
/// same or a later behavior.
proof fn lemma_later_behaviors_not_reached(
    entries: Seq<(ModificationBehavior, Seq<u8>, Seq<u8>)>,
    at: int,
    behavior: ModificationBehavior,
)
    requires
        ascending(entries),
        0 <= at < entries.len(),
        behavior.rank() >= entries[at].0.rank(),
    ensures
        !reached(entries, at, behavior, entries[at].1),
{
    if reached(entries, at, behavior, entries[at].1) {
        let i = choose|i: int|
            0 <= i < at && (#[trigger] entries[i]).0 == behavior && entries[i].1 == entries[at].1;
        assert(precedes(entries[i], entries[at]));
        lemma_lex_lt_irreflexive(entries[at].1);
    }
}

/// Whether an entry is reached after one more entry of the list.
proof fn lemma_reached_next(
    entries: Seq<(ModificationBehavior, Seq<u8>, Seq<u8>)>,
    at: int,
    behavior: ModificationBehavior,
    name: Seq<u8>,
)
    requires
        0 <= at < entries.len(),
    ensures
        reached(entries, at + 1, behavior, name) == (reached(entries, at, behavior, name) || (
        entries[at].0 == behavior && entries[at].1 == name)),
{
    if reached(entries, at + 1, behavior, name) {
        let i = choose|i: int|
            0 <= i < at + 1 && (#[trigger] entries[i]).0 == behavior && entries[i].1 == name;
        if i < at {
            assert(reached(entries, at, behavior, name));
        }
    }
    if reached(entries, at, behavior, name) {
        let i = choose|i: int|
            0 <= i < at && (#[trigger] entries[i]).0 == behavior && entries[i].1 == name;
        assert(0 <= i < at + 1);
    }
    if entries[at].0 == behavior && entries[at].1 == name {
        assert(0 <= at < at + 1);
    }
}

/// Applying the first `count` entries of an ascending list one after the other
/// gives each variable what the passes make of it as far as those entries go.
proof fn lemma_apply_entries_prefix(
    entries: Seq<(ModificationBehavior, Seq<u8>, Seq<u8>)>,
    delta: DeltaMap,
    env: EnvMap,
    count: int,
    name: Seq<u8>,
)
    requires
        ascending(entries),
        lists(entries, delta),
        0 <= count <= entries.len(),
    ensures
        lookup(apply_entries(delta, env, entries.take(count)), name) == apply_reached(
            entries,
            count,
            delta,
            name,
            lookup(env, name),
        ),
    decreases count,
{
    if count == 0 {
        assert(entries.take(0).len() == 0);
    } else {
        let at = count - 1;
        let entry = entries[at];
        lemma_apply_entries_prefix(entries, delta, env, at, name);
        assert(entries.take(count).drop_last() =~= entries.take(at));
        assert(entries.take(count).last() == entry);
        let before = apply_entries(delta, env, entries.take(at));
        assert(apply_entries(delta, env, entries.take(count)) == apply_entry(delta, before, entry));
        lemma_reached_next(entries, at, ModificationBehavior::Append, name);
        lemma_reached_next(entries, at, ModificationBehavior::Default, name);
        lemma_reached_next(entries, at, ModificationBehavior::Delimiter, name);
        lemma_reached_next(entries, at, ModificationBehavior::Override, name);
        lemma_reached_next(entries, at, ModificationBehavior::Prepend, name);
        if entry.1 == name {
            assert(delta.contains_key((entry.0, entry.1)) && delta[(entry.0, entry.1)] == entry.2);
            if entry.0.rank() <= 0 {
                lemma_later_behaviors_not_reached(entries, at, ModificationBehavior::Append);
            }
            if entry.0.rank() <= 1 {
                lemma_later_behaviors_not_reached(entries, at, ModificationBehavior::Default);
            }
            if entry.0.rank() <= 2 {
                lemma_later_behaviors_not_reached(entries, at, ModificationBehavior::Delimiter);
            }
            if entry.0.rank() <= 3 {
                lemma_later_behaviors_not_reached(entries, at, ModificationBehavior::Override);
            }
            lemma_later_behaviors_not_reached(entries, at, ModificationBehavior::Prepend);
        }
    }
}

/// Going through the entries in ascending order of behavior and name, and
/// applying each to the environment that the entries before it left, gives the
/// environment that the passes give.
pub proof fn lemma_apply_in_order(
    entries: Seq<(ModificationBehavior, Seq<u8>, Seq<u8>)>,
    delta: DeltaMap,
    env: EnvMap,
)
    requires
        ascending(entries),
        lists(entries, delta),
    ensures
        apply_entries(delta, env, entries) == apply_delta(delta, env),
{
    let count = entries.len() as int;
    let result = apply_entries(delta, env, entries);
    let expected = apply_delta(delta, env);
    assert(entries.take(count) =~= entries);
    assert forall|name: Seq<u8>| lookup(result, name) == lookup(expected, name) by {
        lemma_apply_entries_prefix(entries, delta, env, count, name);
        assert forall|behavior: ModificationBehavior|
            reached(entries, count, behavior, name) == delta.contains_key((behavior, name)) by {
            if delta.contains_key((behavior, name)) {
                let i = choose|i: int|
                    0 <= i < entries.len() && (#[trigger] entries[i]).0 == behavior
                        && entries[i].1 == name;
                assert(reached(entries, count, behavior, name));
            }
        }
        assert(apply_reached(entries, count, delta, name, lookup(env, name))
            == apply_to_variable(delta, name, lookup(env, name)));
    }
    assert forall|name: Seq<u8>|
        #![trigger result.contains_key(name)]
        #![trigger expected.contains_key(name)]
        result.contains_key(name) == expected.contains_key(name) && (result.contains_key(name)
            ==> result[name] == expected[name]) by {
        assert(lookup(result, name) == lookup(expected, name));
    }
    assert(result =~= expected);
}

} // verus!
