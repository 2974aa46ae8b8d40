//! The registry of the callbacks of one key file.

use vstd::prelude::*;
use crate::callback::{Callback, CallbackView};
use crate::distance::{edit_distance, levenshtein_distance};
use crate::number::{decimal_string, decimal_text};
use crate::proposal::{distances, proposed_names};
use crate::ranking::{as_ints, lemma_ranking, rank};
use crate::registry::{
    distinct_names, has_name, index_of_name, lemma_index_of_name, lemma_registry_distinct,
    registry,
};

verus! {

/// The views of a sequence of callbacks.
pub open spec fn callback_views(callbacks: Seq<Callback>) -> Seq<CallbackView> {
    Seq::new(callbacks.len(), |i: int| callbacks[i]@)
}

/// The views of a sequence of strings.
pub open spec fn string_views(strings: Seq<String>) -> Seq<Seq<char>> {
    Seq::new(strings.len(), |i: int| strings[i]@)
}

/// The summary of a registry with the given name and number of callbacks.
pub open spec fn description(name: Seq<char>, count: nat) -> Seq<char> {
    name + " with "@ + decimal_text(count) + " callbacks."@
}

/// A key file as a mathematical value: its name, and its callbacks in the
/// order in which their names were first registered.
pub struct KeyfileView {
    pub name: Seq<char>,
    pub entries: Seq<CallbackView>,
}

impl KeyfileView {
    /// The callbacks by name.
    pub open spec fn callbacks(self) -> Map<Seq<char>, CallbackView> {
        Map::new(
            |name: Seq<char>| has_name(self.entries, name),
            |name: Seq<char>| self.entries[index_of_name(self.entries, name)],
        )
    }

    /// The names of the callbacks, in the order of the entries.
    pub open spec fn names(self) -> Seq<Seq<char>> {
        Seq::new(self.entries.len(), |i: int| self.entries[i].name)
    }
}

/// The callbacks of one key file, by name. No two have the same name.
#[derive(Debug)]
pub struct FalconKeyfile {
    name: String,
    callbacks: Vec<Callback>,
}

impl View for FalconKeyfile {
    type V = KeyfileView;

    closed spec fn view(&self) -> KeyfileView {
        KeyfileView { name: self.name@, entries: callback_views(self.callbacks@) }
    }
}

/// Where the names are distinct there are as many names as entries, and
/// each entry is the callback of its own name.
pub proof fn lemma_callbacks_by_name(keyfile: KeyfileView)
    requires
        distinct_names(keyfile.entries),
    ensures
        keyfile.callbacks().dom().finite(),
        keyfile.callbacks().dom().len() == keyfile.entries.len(),
        forall|i: int|
            0 <= i < keyfile.entries.len() ==> keyfile.callbacks().contains_key(
                (#[trigger] keyfile.entries[i]).name,
            ) && keyfile.callbacks()[keyfile.entries[i].name] == keyfile.entries[i],
{
    let names = keyfile.names();
    assert forall|i: int, j: int|
        0 <= i < names.len() && 0 <= j < names.len() && i != j implies names[i] != names[j] by {
        if i < j {
            assert(keyfile.entries[i].name != keyfile.entries[j].name);
        } else {
            assert(keyfile.entries[j].name != keyfile.entries[i].name);
        }
    }
    names.unique_seq_to_set();
    vstd::seq_lib::seq_to_set_is_finite(names);
    let by_name = keyfile.callbacks().dom();
    assert(names.to_set() =~= by_name) by {
        assert forall|name: Seq<char>| names.to_set().contains(name) implies by_name.contains(
            name,
        ) by {
            let i = choose|i: int| 0 <= i < names.len() && names[i] == name;
            assert(keyfile.entries[i].name == name);
        }
        assert forall|name: Seq<char>| by_name.contains(name) implies names.to_set().contains(
            name,
        ) by {
            let i = index_of_name(keyfile.entries, name);
            assert(names[i] == name);
        }
    }
    assert forall|i: int| 0 <= i < keyfile.entries.len() implies keyfile.callbacks().contains_key(
        (#[trigger] keyfile.entries[i]).name,
    ) && keyfile.callbacks()[keyfile.entries[i].name] == keyfile.entries[i] by {
        lemma_index_of_name(keyfile.entries, i);
    }
}

/// The place of the callback with the given name.
fn position(callbacks: &Vec<Callback>, name: &String) -> (found: Option<usize>)
    ensures
        match found {
            Some(i) => i < callbacks.len() && callbacks[i as int]@.name == name@,
            None => !has_name(callback_views(callbacks@), name@),
        },
{
    let mut i: usize = 0;
    while i < callbacks.len()
        invariant
            i <= callbacks.len(),
            forall|j: int| 0 <= j < i ==> (#[trigger] callbacks[j])@.name != name@,
        decreases callbacks.len() - i,
    {
        if callbacks[i].name == *name {
            return Some(i);
        }
        i += 1;
    }
    assert forall|j: int| 0 <= j < callbacks.len() implies (#[trigger] callback_views(
        callbacks@,
    )[j]).name != name@ by {
        assert(callbacks[j]@.name != name@);
    }
    None
}

impl FalconKeyfile {
    #[verifier::type_invariant]
    spec fn names_are_distinct(&self) -> bool {
        distinct_names(callback_views(self.callbacks@))
    }

    /// A key file with the given name and callbacks. The callbacks are
    /// registered in the order given; of two with the same name the later
    /// one stays, in the place of the earlier.
    pub fn new(name: String, keycodes_by_callback: Vec<Callback>) -> (keyfile: FalconKeyfile)
        ensures
            keyfile@.name == name@,
            keyfile@.entries == registry(callback_views(keycodes_by_callback@)),
            distinct_names(keyfile@.entries),
    {
        let ghost given = callback_views(keycodes_by_callback@);
        let mut callbacks: Vec<Callback> = Vec::new();
        assert(given.take(0) =~= Seq::<CallbackView>::empty());
        assert(callback_views(callbacks@) =~= registry(given.take(0)));
        for callback in it: keycodes_by_callback
            invariant
                callback_views(it.seq()) == given,
                callback_views(callbacks@) == registry(given.take(it.index())),
        {
            let ghost before = callback_views(callbacks@);
            proof {
                lemma_registry_distinct(given.take(it.index()));
                assert(given.take(it.index() + 1).drop_last() =~= given.take(it.index()));
                assert(given[it.index()] == callback@);
            }
            match position(&callbacks, &callback.name) {
                Some(i) => {
                    proof {
                        lemma_index_of_name(before, i as int);
                        assert(callback_views(callbacks@.update(i as int, callback))
                            =~= before.update(i as int, callback@));
                    }
                    callbacks.set(i, callback);
                },
                None => {
                    assert(callback_views(callbacks@.push(callback)) =~= before.push(callback@));
                    callbacks.push(callback);
                },
            }
        }
        proof {
            assert(given.take(given.len() as int) =~= given);
            lemma_registry_distinct(given);
        }
        FalconKeyfile { name, callbacks }
    }

    /// The callback with the given name, if one is registered.
    pub fn callback(&self, callback_name: &str) -> (found: Option<Callback>)
        ensures
            match found {
                Some(callback) => self@.callbacks().contains_key(callback_name@) && callback@
                    == self@.callbacks()[callback_name@],
                None => !self@.callbacks().contains_key(callback_name@),
            },
            distinct_names(self@.entries),
    {
        proof {
            use_type_invariant(self);
        }
        let name = callback_name.to_owned();
        match position(&self.callbacks, &name) {
            Some(i) => {
                proof {
                    lemma_index_of_name(self@.entries, i as int);
                }
                Some(self.callbacks[i].clone())
            },
            None => None,
        }
    }

    /// A summary for people: the file's name and how many callbacks it holds.
    pub fn describe(&self) -> (summary: String)
        ensures
            summary@ == description(self@.name, self@.entries.len()),
            distinct_names(self@.entries),
    {
        proof {
            use_type_invariant(self);
        }
        let mut summary = self.name.clone();
        summary.append(" with ");
        let count = decimal_string(self.callbacks.len());
        summary.append(count.as_str());
        summary.append(" callbacks.");
        summary
    }

    /// The names of the registered callbacks that are nearest to `query` by
    /// edit distance, nearest first; at most `count` of them.
    pub fn propose_callback_names(&self, query: String, count: usize) -> (names: Vec<String>)
        ensures
            string_views(names@) == proposed_names(self@.entries, query@, count as nat),
            names@.len() == if count < self@.entries.len() {
                count as nat
            } else {
                self@.entries.len()
            },
            distinct_names(self@.entries),
    {
        proof {
            use_type_invariant(self);
        }
        let n = self.callbacks.len();
        let mut keys: Vec<usize> = Vec::new();
        let mut i: usize = 0;
        while i < n
            invariant
                n == self.callbacks.len(),
                i <= n,
                keys.len() == i,
                forall|j: int|
                    0 <= j < i ==> #[trigger] keys[j] == edit_distance(
                        query@,
                        self.callbacks[j]@.name,
                    ),
            decreases n - i,
        {
            keys.push(levenshtein_distance(query.as_str(), self.callbacks[i].name.as_str()));
            i += 1;
        }
        assert(as_ints(keys@) =~= distances(self@.entries, query@));
        let order = rank(&keys);
        proof {
            lemma_ranking(as_ints(keys@));
            assert(as_ints(order@).len() == n);
            assert forall|j: int| 0 <= j < n implies 0 <= #[trigger] order[j] < n by {
                assert(as_ints(order@)[j] == order[j] as int);
            }
        }
        let wanted = if count < n {
            count
        } else {
            n
        };
        let mut names: Vec<String> = Vec::new();
        let mut k: usize = 0;
        while k < wanted
            invariant
                n == self.callbacks.len(),
                wanted <= n,
                k <= wanted,
                order.len() == n,
                forall|j: int| 0 <= j < n ==> 0 <= #[trigger] order[j] < n,
                names.len() == k,
                forall|j: int|
                    0 <= j < k ==> (#[trigger] names[j])@ == self.callbacks[order[j] as int]@.name,
            decreases wanted - k,
        {
            names.push(self.callbacks[order[k]].name.clone());
            k += 1;
        }
        assert(string_views(names@) =~= proposed_names(self@.entries, query@, count as nat)) by {
            assert forall|j: int| 0 <= j < wanted implies string_views(names@)[j] == proposed_names(
                self@.entries,
                query@,
                count as nat,
            )[j] by {
                assert(as_ints(order@)[j] == order[j] as int);
            }
        }
        names
    }
}

impl Clone for FalconKeyfile {
    fn clone(&self) -> (copy: FalconKeyfile)
        ensures
            copy@ == self@,
    {
        proof {
            use_type_invariant(self);
        }
        let mut callbacks: Vec<Callback> = Vec::new();
        let mut i: usize = 0;
        while i < self.callbacks.len()
            invariant
                i <= self.callbacks.len(),
                callback_views(callbacks@) == callback_views(self.callbacks@).take(i as int),
            decreases self.callbacks.len() - i,
        {
            let callback = self.callbacks[i].clone();
            let ghost before = callback_views(callbacks@);
            assert(callback_views(callbacks@.push(callback)) =~= before.push(callback@));
            assert(before.push(callback@) =~= callback_views(self.callbacks@).take(i + 1));
            callbacks.push(callback);
            i += 1;
        }
        assert(callback_views(self.callbacks@).take(self.callbacks.len() as int) =~= callback_views(
            self.callbacks@,
        ));
        FalconKeyfile { name: self.name.clone(), callbacks }
    }
}

} // verus!

