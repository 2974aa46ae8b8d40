//! Ranking items by a key, lowest first, where items with equal keys keep their order.

use vstd::prelude::*;

verus! {

/// Whether item `i` is ranked before item `j`: the lower key first, and of
/// two items with equal keys the one that stood first.
pub open spec fn precedes(keys: Seq<int>, i: int, j: int) -> bool {
    keys[i] < keys[j] || (keys[i] == keys[j] && i < j)
}

/// Whether `order` ranks the items that `keys` belong to: it lists the index
/// of every item, each once, and each index is ranked before those behind it.
pub open spec fn is_ranking(order: Seq<int>, keys: Seq<int>) -> bool {
    &&& order.len() == keys.len()
    &&& forall|k: int| 0 <= k < order.len() ==> 0 <= #[trigger] order[k] < keys.len()
    &&& forall|i: int| 0 <= i < keys.len() ==> #[trigger] order.contains(i)
    &&& forall|k: int, l: int|
        0 <= k < l < order.len() ==> precedes(keys, #[trigger] order[k], #[trigger] order[l])
}

/// The ranking of the items that `keys` belong to. There is exactly one:
/// see `lemma_ranking` and `lemma_ranking_unique`.
pub open spec fn ranking(keys: Seq<int>) -> Seq<int> {
    choose|order: Seq<int>| is_ranking(order, keys)
}

/// The indices in a vector, as mathematical integers.
pub open spec fn as_ints(v: Seq<usize>) -> Seq<int> {
    Seq::new(v.len(), |i: int| v[i] as int)
}

/// A ranking of all items but the last becomes a ranking of all items when
/// the last is put behind every item whose key is not above its own.
pub proof fn lemma_insert_last(order: Seq<int>, keys: Seq<int>, pos: int)
    requires
        keys.len() > 0,
        is_ranking(order, keys.drop_last()),
        0 <= pos <= order.len(),
        forall|k: int| 0 <= k < pos ==> keys[#[trigger] order[k]] <= keys.last(),
        forall|k: int| pos <= k < order.len() ==> keys[#[trigger] order[k]] > keys.last(),
    ensures
        is_ranking(order.insert(pos, keys.len() - 1), keys),
{
    let last = keys.len() - 1;
    let init = keys.drop_last();
    let grown = order.insert(pos, last);
    assert forall|k: int| 0 <= k < grown.len() implies 0 <= #[trigger] grown[k] < keys.len() by {
        if k < pos {
            assert(grown[k] == order[k]);
        } else if k > pos {
            assert(grown[k] == order[k - 1]);
        }
    }
    assert forall|i: int| 0 <= i < keys.len() implies #[trigger] grown.contains(i) by {
        if i == last {
            assert(grown[pos] == i);
        } else {
            assert(order.contains(i));
            let k = choose|k: int| 0 <= k < order.len() && order[k] == i;
            if k < pos {
                assert(grown[k] == i);
            } else {
                assert(grown[k + 1] == i);
            }
        }
    }
    assert forall|k: int, l: int| 0 <= k < l < grown.len() implies precedes(
        keys,
        #[trigger] grown[k],
        #[trigger] grown[l],
    ) by {
        let a = if k < pos {
            k
        } else {
            k - 1
        };
        let b = if l < pos {
            l
        } else {
            l - 1
        };
        if k != pos {
            assert(grown[k] == order[a]);
            assert(init[order[a]] == keys[order[a]]);
        }
        if l != pos {
            assert(grown[l] == order[b]);
            assert(init[order[b]] == keys[order[b]]);
        }
        if k != pos && l != pos {
            assert(precedes(init, order[a], order[b]));
        }
    }
}

/// Where the last item goes in a ranking of the items before it.
proof fn lemma_place_for(order: Seq<int>, keys: Seq<int>, x: int) -> (pos: int)
    requires
        forall|k: int| 0 <= k < order.len() ==> 0 <= #[trigger] order[k] < keys.len(),
        forall|k: int, l: int|
            0 <= k < l < order.len() ==> keys[#[trigger] order[k]] <= keys[#[trigger] order[l]],
    ensures
        0 <= pos <= order.len(),
        forall|k: int| 0 <= k < pos ==> keys[#[trigger] order[k]] <= x,
        forall|k: int| pos <= k < order.len() ==> keys[#[trigger] order[k]] > x,
    decreases order.len(),
{
    if order.len() == 0 {
        0
    } else if keys[order.last()] <= x {
        order.len() as int
    } else {
        let shorter = order.drop_last();
        assert forall|k: int, l: int| 0 <= k < l < shorter.len() implies keys[#[trigger] shorter[k]]
            <= keys[#[trigger] shorter[l]] by {
            assert(shorter[k] == order[k] && shorter[l] == order[l]);
        }
        let pos = lemma_place_for(shorter, keys, x);
        assert forall|k: int| 0 <= k < pos implies keys[#[trigger] order[k]] <= x by {
            assert(order[k] == shorter[k]);
        }
        assert forall|k: int| pos <= k < order.len() implies keys[#[trigger] order[k]] > x by {
            if k < shorter.len() {
                assert(order[k] == shorter[k]);
            }
        }
        pos
    }
}

/// Any items can be ranked.
proof fn lemma_ranking_exists(keys: Seq<int>) -> (order: Seq<int>)
    ensures
        is_ranking(order, keys),
    decreases keys.len(),
{
    if keys.len() == 0 {
        let order = Seq::<int>::empty();
        assert(is_ranking(order, keys));
        order
    } else {
        let init = keys.drop_last();
        let before = lemma_ranking_exists(init);
        assert forall|k: int, l: int| 0 <= k < l < before.len() implies init[#[trigger] before[k]]
            <= init[#[trigger] before[l]] by {
            assert(precedes(init, before[k], before[l]));
        }
        let pos = lemma_place_for(before, init, keys.last());
        assert forall|k: int| 0 <= k < before.len() implies keys[#[trigger] before[k]]
            == init[before[k]] by {}
        lemma_insert_last(before, keys, pos);
        before.insert(pos, keys.len() - 1)
    }
}

/// The ranking of any items is a ranking of them.
pub proof fn lemma_ranking(keys: Seq<int>)
    ensures
        is_ranking(ranking(keys), keys),
{
    let witness = lemma_ranking_exists(keys);
    assert(is_ranking(witness, keys));
}

/// No items have two rankings.
pub proof fn lemma_ranking_unique(a: Seq<int>, b: Seq<int>, keys: Seq<int>)
    requires
        is_ranking(a, keys),
        is_ranking(b, keys),
    ensures
        a == b,
{
    assert forall|k: int| 0 <= k < a.len() implies a[k] == b[k] by {
        lemma_rankings_agree(a, b, keys, k);
    }
    assert(a =~= b);
}

/// Two rankings of the same items agree up to and at every place.
proof fn lemma_rankings_agree(a: Seq<int>, b: Seq<int>, keys: Seq<int>, k: int)
    requires
        is_ranking(a, keys),
        is_ranking(b, keys),
        0 <= k < a.len(),
    ensures
        forall|j: int| 0 <= j <= k ==> a[j] == b[j],
    decreases k,
{
    if k > 0 {
        lemma_rankings_agree(a, b, keys, k - 1);
    }
    if a[k] != b[k] {
        // each of the two indices stands somewhere in the other ranking, and
        // not before place k, where the rankings agree
        assert(b.contains(a[k]));
        let m = choose|m: int| 0 <= m < b.len() && b[m] == a[k];
        assert(a.contains(b[k]));
        let n = choose|n: int| 0 <= n < a.len() && a[n] == b[k];
        if m < k {
            assert(a[m] == b[m]);
            assert(precedes(keys, a[m], a[k]));
        }
        if n < k {
            assert(a[n] == b[n]);
            assert(precedes(keys, b[n], b[k]));
        }
        assert(precedes(keys, b[k], b[m]));
        assert(precedes(keys, a[k], a[n]));
    }
}

/// Ranks the items that `keys` belong to. The result lists their indices,
/// lowest key first; items with equal keys keep their order.
pub fn rank(keys: &Vec<usize>) -> (order: Vec<usize>)
    ensures
        as_ints(order@) == ranking(as_ints(keys@)),
{
    let ghost all = as_ints(keys@);
    let mut order: Vec<usize> = Vec::new();
    let mut i: usize = 0;
    assert(all.take(0) =~= Seq::<int>::empty());
    assert(is_ranking(as_ints(order@), all.take(0)));
    while i < keys.len()
        invariant
            i <= keys.len(),
            all == as_ints(keys@),
            is_ranking(as_ints(order@), all.take(i as int)),
        decreases keys.len() - i,
    {
        let ghost before = as_ints(order@);
        let ghost seen = all.take(i as int);
        let ghost now = all.take(i + 1);
        let key = keys[i];
        let mut pos: usize = 0;
        assert forall|k: int| 0 <= k < order.len() implies 0 <= #[trigger] order@[k] < i by {
            assert(before[k] == order@[k] as int);
        }
        while pos < order.len() && keys[order[pos]] <= key
            invariant
                i < keys.len(),
                key == keys@[i as int],
                order.len() == i,
                pos <= order.len(),
                forall|k: int| 0 <= k < order.len() ==> 0 <= #[trigger] order@[k] < i,
                forall|k: int| 0 <= k < pos ==> keys@[#[trigger] order@[k] as int] <= key,
            decreases order.len() - pos,
        {
            pos += 1;
        }
        proof {
            assert(now.drop_last() =~= seen);
            assert(now.last() == key as int);
            assert forall|k: int| 0 <= k < pos implies now[#[trigger] before[k]] <= now.last() by {
                assert(before[k] == order@[k] as int);
            }
            assert forall|k: int| pos <= k < before.len() implies now[#[trigger] before[k]]
                > now.last() by {
                assert(before[k] == order@[k] as int);
                assert(before[pos as int] == order@[pos as int] as int);
                if k > pos {
                    assert(precedes(seen, before[pos as int], before[k]));
                }
            }
            lemma_insert_last(before, now, pos as int);
            assert(as_ints(order@.insert(pos as int, i)) =~= before.insert(pos as int, i as int));
        }
        order.insert(pos, i);
        i += 1;
    }
    proof {
        assert(all.take(keys.len() as int) =~= all);
        lemma_ranking(all);
        lemma_ranking_unique(as_ints(order@), ranking(all), all);
    }
    order
}

} // verus!
