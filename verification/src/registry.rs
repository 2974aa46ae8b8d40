//! Registering callbacks by name: a later callback takes the place of an
//! earlier one with the same name.

use vstd::prelude::*;
use crate::callback::CallbackView;

verus! {

/// Whether one of the entries has the given name.
pub open spec fn has_name(entries: Seq<CallbackView>, name: Seq<char>) -> bool {
    exists|i: int| 0 <= i < entries.len() && (#[trigger] entries[i]).name == name
}

/// The place of an entry with the given name, if there is one.
pub open spec fn index_of_name(entries: Seq<CallbackView>, name: Seq<char>) -> int {
    choose|i: int| 0 <= i < entries.len() && (#[trigger] entries[i]).name == name
}

/// Whether no two entries have the same name.
pub open spec fn distinct_names(entries: Seq<CallbackView>) -> bool {
    forall|i: int, j: int|
        0 <= i < j < entries.len() ==> (#[trigger] entries[i]).name != (#[trigger] entries[j]).name
}

/// The entries after `callback` is registered: it takes the place of the
/// entry that has its name, or the last place if there is none.
pub open spec fn registered(entries: Seq<CallbackView>, callback: CallbackView) -> Seq<
    CallbackView,
> {
    if has_name(entries, callback.name) {
        entries.update(index_of_name(entries, callback.name), callback)
    } else {
        entries.push(callback)
    }
}

/// The entries of a registry in which the given callbacks were registered one after the other.
pub open spec fn registry(callbacks: Seq<CallbackView>) -> Seq<CallbackView>
    decreases callbacks.len(),
{
    if callbacks.len() == 0 {
        Seq::empty()
    } else {
        registered(registry(callbacks.drop_last()), callbacks.last())
    }
}

/// Among entries with distinct names, an entry's name is found at the entry's own place.
pub proof fn lemma_index_of_name(entries: Seq<CallbackView>, i: int)
    requires
        distinct_names(entries),
        0 <= i < entries.len(),
    ensures
        has_name(entries, entries[i].name),
        index_of_name(entries, entries[i].name) == i,
{
    let j = index_of_name(entries, entries[i].name);
    assert(entries[i].name == entries[i].name);
    if j < i {
        assert(entries[j].name != entries[i].name);
    } else if i < j {
        assert(entries[i].name != entries[j].name);
    }
}

/// Registering a callback keeps the names distinct.
pub proof fn lemma_registered_distinct(entries: Seq<CallbackView>, callback: CallbackView)
    requires
        distinct_names(entries),
    ensures
        distinct_names(registered(entries, callback)),
{
    let after = registered(entries, callback);
    if has_name(entries, callback.name) {
        assert forall|i: int, j: int| 0 <= i < j < after.len() implies (#[trigger] after[i]).name
            != (#[trigger] after[j]).name by {
            assert(after[i].name == entries[i].name);
            assert(after[j].name == entries[j].name);
        }
    } else {
        assert forall|i: int, j: int| 0 <= i < j < after.len() implies (#[trigger] after[i]).name
            != (#[trigger] after[j]).name by {
            assert(after[i] == entries[i]);
            if j < entries.len() {
                assert(after[j] == entries[j]);
            }
        }
    }
}

/// The names in a registry are distinct.
pub proof fn lemma_registry_distinct(callbacks: Seq<CallbackView>)
    ensures
        distinct_names(registry(callbacks)),
    decreases callbacks.len(),
{
    if callbacks.len() > 0 {
        lemma_registry_distinct(callbacks.drop_last());
        lemma_registered_distinct(registry(callbacks.drop_last()), callbacks.last());
    }
}

/// A registry holds a name exactly if one of the registered callbacks has it.
pub proof fn lemma_registry_names(callbacks: Seq<CallbackView>, name: Seq<char>)
    ensures
        has_name(registry(callbacks), name) <==> has_name(callbacks, name),
    decreases callbacks.len(),
{
    if callbacks.len() > 0 {
        let init = callbacks.drop_last();
        let last = callbacks.last();
        let before = registry(init);
        let after = registry(callbacks);
        lemma_registry_names(init, name);
        if has_name(callbacks, name) {
            let j = choose|j: int|
                0 <= j < callbacks.len() && (#[trigger] callbacks[j]).name == name;
            if j < init.len() {
                assert(init[j].name == name);
                let i = choose|i: int|
                    0 <= i < before.len() && (#[trigger] before[i]).name == name;
                assert(after[i].name == name);
            } else if has_name(before, last.name) {
                assert(after[index_of_name(before, last.name)].name == name);
            } else {
                assert(after[before.len() as int].name == name);
            }
        }
        if has_name(after, name) {
            let i = choose|i: int| 0 <= i < after.len() && (#[trigger] after[i]).name == name;
            if i < before.len() && after[i] == before[i] {
                assert(before[i].name == name);
                let j = choose|j: int| 0 <= j < init.len() && (#[trigger] init[j]).name == name;
                assert(callbacks[j].name == name);
            } else {
                assert(after[i] == last);
                assert(callbacks[callbacks.len() - 1].name == name);
            }
        }
    }
}

/// Of the callbacks registered under one name the last one stays: a
/// callback that none with its name follows is the registry's entry for that name.
pub proof fn lemma_registry_last_wins(callbacks: Seq<CallbackView>, j: int)
    requires
        0 <= j < callbacks.len(),
        forall|k: int|
            j < k < callbacks.len() ==> (#[trigger] callbacks[k]).name != callbacks[j].name,
    ensures
        has_name(registry(callbacks), callbacks[j].name),
        registry(callbacks)[index_of_name(registry(callbacks), callbacks[j].name)] == callbacks[j],
    decreases callbacks.len(),
{
    let init = callbacks.drop_last();
    let last = callbacks.last();
    let before = registry(init);
    let after = registry(callbacks);
    let name = callbacks[j].name;
    lemma_registry_distinct(init);
    lemma_registry_distinct(callbacks);
    if j == callbacks.len() - 1 {
        let at = if has_name(before, name) {
            index_of_name(before, name)
        } else {
            before.len() as int
        };
        assert(after[at] == last);
        lemma_index_of_name(after, at);
    } else {
        assert(last.name != name);
        assert(init[j] == callbacks[j]);
        lemma_registry_last_wins(init, j);
        let at = index_of_name(before, name);
        assert(after[at] == before[at]);
        lemma_index_of_name(after, at);
    }
}

/// Callbacks with distinct names are registered as they come, each at its own place.
pub proof fn lemma_registry_of_distinct(callbacks: Seq<CallbackView>)
    requires
        distinct_names(callbacks),
    ensures
        registry(callbacks) == callbacks,
    decreases callbacks.len(),
{
    if callbacks.len() > 0 {
        let init = callbacks.drop_last();
        assert forall|i: int, j: int| 0 <= i < j < init.len() implies (#[trigger] init[i]).name
            != (#[trigger] init[j]).name by {
            assert(init[i] == callbacks[i] && init[j] == callbacks[j]);
        }
        lemma_registry_of_distinct(init);
        if has_name(init, callbacks.last().name) {
            let i = index_of_name(init, callbacks.last().name);
            assert(callbacks[i].name == callbacks[callbacks.len() - 1].name);
        }
        assert(init.push(callbacks.last()) =~= callbacks);
    } else {
        assert(callbacks =~= Seq::<CallbackView>::empty());
    }
}

/// Every entry of a registry is one of the registered callbacks, and there
/// are no more entries than callbacks.
pub proof fn lemma_registry_members(callbacks: Seq<CallbackView>)
    ensures
        registry(callbacks).len() <= callbacks.len(),
        forall|i: int|
            0 <= i < registry(callbacks).len() ==> callbacks.contains(
                #[trigger] registry(callbacks)[i],
            ),
    decreases callbacks.len(),
{
    if callbacks.len() > 0 {
        let init = callbacks.drop_last();
        let before = registry(init);
        let after = registry(callbacks);
        lemma_registry_members(init);
        assert forall|i: int| 0 <= i < after.len() implies callbacks.contains(
            #[trigger] after[i],
        ) by {
            if i < before.len() && after[i] == before[i] {
                assert(init.contains(before[i]));
                let j = choose|j: int| 0 <= j < init.len() && init[j] == before[i];
                assert(callbacks[j] == after[i]);
            } else {
                assert(callbacks[callbacks.len() - 1] == after[i]);
            }
        }
    }
}

} // verus!
