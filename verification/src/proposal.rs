//! Which registered names are proposed for a name that was asked for.

use vstd::prelude::*;
use crate::callback::CallbackView;
use crate::distance::{edit_distance, lemma_distance_to_self, lemma_distance_zero};
use crate::ranking::{lemma_ranking, precedes, ranking};
use crate::registry::{distinct_names, has_name, index_of_name};

verus! {

/// The distance from `query` to the name of each entry.
pub open spec fn distances(entries: Seq<CallbackView>, query: Seq<char>) -> Seq<int> {
    Seq::new(entries.len(), |i: int| edit_distance(query, entries[i].name) as int)
}

/// The names that are proposed for `query`: those of all entries, ranked by
/// their distance to `query`, nearest first and equally near ones in the
/// order of the entries; of these the first `count`, or all if there are fewer.
pub open spec fn proposed_names(entries: Seq<CallbackView>, query: Seq<char>, count: nat) -> Seq<
    Seq<char>,
> {
    let order = ranking(distances(entries, query));
    Seq::new(
        if count < entries.len() {
            count
        } else {
            entries.len()
        },
        |k: int| entries[order[k]].name,
    )
}

/// Every registered name is proposed if `count` allows, none twice, and
/// each proposal is a registered name.
pub proof fn lemma_proposals_are_names(entries: Seq<CallbackView>, query: Seq<char>, count: nat)
    requires
        distinct_names(entries),
    ensures
        proposed_names(entries, query, count).len() == if count < entries.len() {
            count
        } else {
            entries.len()
        },
        forall|k: int|
            0 <= k < proposed_names(entries, query, count).len() ==> has_name(
                entries,
                #[trigger] proposed_names(entries, query, count)[k],
            ),
        proposed_names(entries, query, count).no_duplicates(),
        count >= entries.len() ==> forall|i: int|
            0 <= i < entries.len() ==> proposed_names(entries, query, count).contains(
                (#[trigger] entries[i]).name,
            ),
{
    let keys = distances(entries, query);
    let order = ranking(keys);
    let names = proposed_names(entries, query, count);
    lemma_ranking(keys);
    assert forall|k: int| 0 <= k < names.len() implies has_name(entries, #[trigger] names[k]) by {
        assert(entries[order[k]].name == names[k]);
    }
    assert forall|k: int, l: int|
        0 <= k < names.len() && 0 <= l < names.len() && k != l implies names[k] != names[l] by {
        if k < l {
            assert(precedes(keys, order[k], order[l]));
        } else {
            assert(precedes(keys, order[l], order[k]));
        }
        if order[k] < order[l] {
            assert(entries[order[k]].name != entries[order[l]].name);
        } else {
            assert(entries[order[l]].name != entries[order[k]].name);
        }
    }
    if count >= entries.len() {
        assert forall|i: int| 0 <= i < entries.len() implies names.contains(
            (#[trigger] entries[i]).name,
        ) by {
            assert(order.contains(i));
            let k = choose|k: int| 0 <= k < order.len() && order[k] == i;
            assert(names[k] == entries[i].name);
        }
    }
}

/// Proposals come nearest first: none is farther from the query than a later one.
pub proof fn lemma_proposals_nearest_first(
    entries: Seq<CallbackView>,
    query: Seq<char>,
    count: nat,
    k: int,
    l: int,
)
    requires
        0 <= k <= l < proposed_names(entries, query, count).len(),
    ensures
        edit_distance(query, proposed_names(entries, query, count)[k]) <= edit_distance(
            query,
            proposed_names(entries, query, count)[l],
        ),
{
    let keys = distances(entries, query);
    let order = ranking(keys);
    lemma_ranking(keys);
    if k < l {
        assert(precedes(keys, order[k], order[l]));
    }
}

/// No registered name is nearer to the query than the first proposal.
pub proof fn lemma_first_proposal_nearest(
    entries: Seq<CallbackView>,
    query: Seq<char>,
    count: nat,
    i: int,
)
    requires
        count > 0,
        0 <= i < entries.len(),
    ensures
        edit_distance(query, proposed_names(entries, query, count)[0]) <= edit_distance(
            query,
            entries[i].name,
        ),
{
    let keys = distances(entries, query);
    let order = ranking(keys);
    lemma_ranking(keys);
    assert(order.contains(i));
    let k = choose|k: int| 0 <= k < order.len() && order[k] == i;
    if k > 0 {
        assert(precedes(keys, order[0], order[k]));
    }
}

/// A query that is itself a registered name is the first proposal.
pub proof fn lemma_exact_match_first(entries: Seq<CallbackView>, query: Seq<char>, count: nat)
    requires
        distinct_names(entries),
        has_name(entries, query),
        count > 0,
    ensures
        proposed_names(entries, query, count)[0] == query,
{
    let keys = distances(entries, query);
    let order = ranking(keys);
    lemma_ranking(keys);
    let i = index_of_name(entries, query);
    lemma_distance_to_self(query);
    lemma_first_proposal_nearest(entries, query, count, i);
    lemma_distance_zero(query, entries[order[0]].name);
}

} // verus!
