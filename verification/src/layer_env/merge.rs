//! What applying the entries of a layer to an environment means.
//!
//! Entries are applied in passes, in the order of the ranks of their behaviors:
//! all `Append` entries, then all `Default` entries, then `Delimiter` entries
//! (which change nothing), then all `Override` entries, then all `Prepend`
//! entries. An entry reads and writes only the variable it is named after, so
//! the result can be stated variable by variable.

use vstd::prelude::*;
use crate::layer_env::behavior::ModificationBehavior;

verus! {

/// The entries of one scope: at most one value for each pair of a behavior and
/// a variable name.
pub type DeltaMap = Map<(ModificationBehavior, Seq<u8>), Seq<u8>>;

/// An environment: at most one value for each variable name.
pub type EnvMap = Map<Seq<u8>, Seq<u8>>;

/// The value of a variable, if it is set.
pub open spec fn lookup(env: EnvMap, name: Seq<u8>) -> Option<Seq<u8>> {
    if env.contains_key(name) {
        Some(env[name])
    } else {
        None
    }
}

/// The delimiter that the entries register for a variable; empty where they
/// register none.
pub open spec fn delimiter_of(delta: DeltaMap, name: Seq<u8>) -> Seq<u8> {
    if delta.contains_key((ModificationBehavior::Delimiter, name)) {
        delta[(ModificationBehavior::Delimiter, name)]
    } else {
        Seq::empty()
    }
}

/// Whether a variable holds a value that is not empty.
pub open spec fn has_content(previous: Option<Seq<u8>>) -> bool {
    previous is Some && previous->0.len() > 0
}

/// What one entry makes of its variable: `previous` is the variable before the
/// entry is applied, `delimiter` the delimiter registered for it, and `value`
/// the value of the entry.
pub open spec fn entry_effect(
    behavior: ModificationBehavior,
    previous: Option<Seq<u8>>,
    delimiter: Seq<u8>,
    value: Seq<u8>,
) -> Option<Seq<u8>> {
    match behavior {
        ModificationBehavior::Append => if has_content(previous) {
            Some(previous->0 + delimiter + value)
        } else {
            Some(value)
        },
        ModificationBehavior::Default => if previous is Some {
            previous
        } else {
            Some(value)
        },
        ModificationBehavior::Delimiter => previous,
        ModificationBehavior::Override => Some(value),
        ModificationBehavior::Prepend => if has_content(previous) {
            Some(value + delimiter + previous->0)
        } else {
            Some(value)
        },
    }
}

/// What the pass of one behavior makes of a variable.
pub open spec fn after_pass(
    delta: DeltaMap,
    behavior: ModificationBehavior,
    name: Seq<u8>,
    previous: Option<Seq<u8>>,
) -> Option<Seq<u8>> {
    if delta.contains_key((behavior, name)) {
        entry_effect(behavior, previous, delimiter_of(delta, name), delta[(behavior, name)])
    } else {
        previous
    }
}

/// What all passes, in the order of the ranks, make of a variable.
pub open spec fn apply_to_variable(
    delta: DeltaMap,
    name: Seq<u8>,
    previous: Option<Seq<u8>>,
) -> Option<Seq<u8>> {
    let appended = after_pass(delta, ModificationBehavior::Append, name, previous);
    let defaulted = after_pass(delta, ModificationBehavior::Default, name, appended);
    let delimited = after_pass(delta, ModificationBehavior::Delimiter, name, defaulted);
    let overridden = after_pass(delta, ModificationBehavior::Override, name, delimited);
    after_pass(delta, ModificationBehavior::Prepend, name, overridden)
}

/// The environment that results from applying the entries to `env`.
pub open spec fn apply_delta(delta: DeltaMap, env: EnvMap) -> EnvMap {
    Map::new(
        |name: Seq<u8>| apply_to_variable(delta, name, lookup(env, name)) is Some,
        |name: Seq<u8>| apply_to_variable(delta, name, lookup(env, name))->0,
    )
}

/// A variable of the result is what the passes make of that variable of the
/// base.
pub proof fn lemma_apply_lookup(delta: DeltaMap, env: EnvMap, name: Seq<u8>)
    ensures
        lookup(apply_delta(delta, env), name) == apply_to_variable(
            delta,
            name,
            lookup(env, name),
        ),
{
}

/// Entries without any effect: applying no entries changes nothing.
pub proof fn lemma_apply_empty(env: EnvMap)
    ensures
        apply_delta(Map::empty(), env) == env,
{
    assert(apply_delta(Map::empty(), env) =~= env);
}

/// A variable that no entry names keeps its value, or stays unset.
pub proof fn lemma_unnamed_variable_unchanged(delta: DeltaMap, env: EnvMap, name: Seq<u8>)
    requires
        forall|behavior: ModificationBehavior| !delta.contains_key((behavior, name)),
    ensures
        lookup(apply_delta(delta, env), name) == lookup(env, name),
{
}

/// The passes run in the order `Append`, `Default`, `Override`, `Prepend`,
/// whatever the order in which the entries were inserted: where a variable has
/// an `Override` entry, what `Append` and `Default` made of it is discarded,
/// and a `Prepend` entry then joins its value in front of the overriding one.
pub proof fn lemma_precedence(delta: DeltaMap, env: EnvMap, name: Seq<u8>)
    requires
        delta.contains_key((ModificationBehavior::Override, name)),
    ensures
        lookup(apply_delta(delta, env), name) == after_pass(
            delta,
            ModificationBehavior::Prepend,
            name,
            Some(delta[(ModificationBehavior::Override, name)]),
        ),
{
}

/// The result depends on the entries alone, not on the order in which they were
/// inserted.
pub proof fn lemma_insertion_order_irrelevant(
    delta: DeltaMap,
    env: EnvMap,
    first: (ModificationBehavior, Seq<u8>),
    first_value: Seq<u8>,
    second: (ModificationBehavior, Seq<u8>),
    second_value: Seq<u8>,
)
    requires
        first != second,
    ensures
        apply_delta(delta.insert(first, first_value).insert(second, second_value), env)
            == apply_delta(delta.insert(second, second_value).insert(first, first_value), env),
{
    assert(delta.insert(first, first_value).insert(second, second_value) =~= delta.insert(
        second,
        second_value,
    ).insert(first, first_value));
}

/// A `Default` entry never replaces a value: where its variable is set in the
/// base and has no other entry, the variable keeps its value; where it is not
/// set, it gets the value of the entry.
pub proof fn lemma_default_never_clobbers(delta: DeltaMap, env: EnvMap, name: Seq<u8>)
    requires
        delta.contains_key((ModificationBehavior::Default, name)),
        !delta.contains_key((ModificationBehavior::Append, name)),
        !delta.contains_key((ModificationBehavior::Override, name)),
        !delta.contains_key((ModificationBehavior::Prepend, name)),
    ensures
        env.contains_key(name) ==> lookup(apply_delta(delta, env), name) == Some(env[name]),
        !env.contains_key(name) ==> lookup(apply_delta(delta, env), name) == Some(
            delta[(ModificationBehavior::Default, name)],
        ),
{
}

/// An `Append` entry joins its value behind the value of the base with the
/// registered delimiter between them; where the base has no value, or an empty
/// one, the result is the value of the entry alone, without a delimiter.
pub proof fn lemma_append_uses_delimiter(delta: DeltaMap, env: EnvMap, name: Seq<u8>)
    requires
        delta.contains_key((ModificationBehavior::Append, name)),
        !delta.contains_key((ModificationBehavior::Override, name)),
        !delta.contains_key((ModificationBehavior::Prepend, name)),
    ensures
        has_content(lookup(env, name)) ==> lookup(apply_delta(delta, env), name) == Some(
            env[name] + delimiter_of(delta, name) + delta[(ModificationBehavior::Append, name)],
        ),
        !has_content(lookup(env, name)) ==> lookup(apply_delta(delta, env), name) == Some(
            delta[(ModificationBehavior::Append, name)],
        ),
{
}

/// A `Prepend` entry joins its value in front of the value of the base with the
/// registered delimiter between them; where the base has no value, or an empty
/// one, the result is the value of the entry alone, without a delimiter.
pub proof fn lemma_prepend_uses_delimiter(delta: DeltaMap, env: EnvMap, name: Seq<u8>)
    requires
        delta.contains_key((ModificationBehavior::Prepend, name)),
        !delta.contains_key((ModificationBehavior::Append, name)),
        !delta.contains_key((ModificationBehavior::Default, name)),
        !delta.contains_key((ModificationBehavior::Override, name)),
    ensures
        has_content(lookup(env, name)) ==> lookup(apply_delta(delta, env), name) == Some(
            delta[(ModificationBehavior::Prepend, name)] + delimiter_of(delta, name) + env[name],
        ),
        !has_content(lookup(env, name)) ==> lookup(apply_delta(delta, env), name) == Some(
            delta[(ModificationBehavior::Prepend, name)],
        ),
{
}

} // verus!
