//! What the canonical order of a combination keeps: every key, once, and
//! the press order of the keys of one rank.

use crate::combination::{
    canonical_order, lemma_ascending_is_canonical, of_rank, priority_of, ranks_ascend,
};
use vstd::prelude::*;

verus! {

/// The keys of one rank are the keys of the sequence that have this rank,
/// and none of them comes twice unless it did in the sequence.
pub proof fn lemma_of_rank_holds(keys: Seq<u32>, rank: u16)
    ensures
        forall|vk: u32|
            of_rank(keys, rank).contains(vk) <==> keys.contains(vk) && priority_of(vk) == rank,
        forall|i: int|
            0 <= i < of_rank(keys, rank).len() ==> priority_of(#[trigger] of_rank(keys, rank)[i])
                == rank,
        keys.no_duplicates() ==> of_rank(keys, rank).no_duplicates(),
    decreases keys.len(),
{
    let picked = of_rank(keys, rank);
    if keys.len() > 0 {
        let before = keys.drop_last();
        let last = keys.last();
        let picked_before = of_rank(before, rank);
        lemma_of_rank_holds(before, rank);
        assert(keys =~= before.push(last));
        assert forall|vk: u32| picked.contains(vk) <==> keys.contains(vk) && priority_of(vk)
            == rank by {
            if picked.contains(vk) {
                let i = picked.index_of(vk);
                if i < picked_before.len() {
                    assert(picked_before[i] == vk);
                    let j = before.index_of(vk);
                    assert(keys[j] == vk);
                } else {
                    assert(keys[keys.len() - 1] == vk);
                }
            }
            if keys.contains(vk) && priority_of(vk) == rank {
                let j = keys.index_of(vk);
                if j < before.len() {
                    assert(before[j] == vk);
                    let i = picked_before.index_of(vk);
                    assert(picked[i] == vk);
                } else {
                    assert(picked[picked.len() - 1] == vk);
                }
            }
        }
        if keys.no_duplicates() {
            assert(before.no_duplicates()) by {
                assert forall|i: int, j: int|
                    0 <= i < before.len() && 0 <= j < before.len() && i != j implies before[i]
                    != before[j] by {
                    assert(before[i] == keys[i] && before[j] == keys[j]);
                }
            }
            if priority_of(last) == rank {
                assert(!picked_before.contains(last)) by {
                    if before.contains(last) {
                        let j = before.index_of(last);
                        assert(keys[j] == keys[keys.len() - 1]);
                    }
                }
                assert forall|i: int, j: int|
                    0 <= i < picked.len() && 0 <= j < picked.len() && i != j implies picked[i]
                    != picked[j] by {
                    if i < picked_before.len() && j < picked_before.len() {
                        assert(picked[i] == picked_before[i] && picked[j] == picked_before[j]);
                    } else if i < picked_before.len() {
                        assert(picked_before.contains(picked_before[i]));
                    } else {
                        assert(picked_before.contains(picked_before[j]));
                    }
                }
            }
        }
    }
}

/// Every key has one of the five ranks: the keys of the five ranks are as
/// many as the keys of the sequence.
pub proof fn lemma_rank_sizes(keys: Seq<u32>)
    ensures
        of_rank(keys, 0).len() + of_rank(keys, 1).len() + of_rank(keys, 2).len() + of_rank(
            keys,
            3,
        ).len() + of_rank(keys, 10).len() == keys.len(),
    decreases keys.len(),
{
    if keys.len() > 0 {
        lemma_rank_sizes(keys.drop_last());
    }
}

/// What holds a key of two sequences put together holds it in one of them.
proof fn lemma_concat_contains(a: Seq<u32>, b: Seq<u32>)
    ensures
        forall|vk: u32| (a + b).contains(vk) <==> a.contains(vk) || b.contains(vk),
{
    assert forall|vk: u32| (a + b).contains(vk) <==> a.contains(vk) || b.contains(vk) by {
        if (a + b).contains(vk) {
            let i = (a + b).index_of(vk);
            if i < a.len() {
                assert(a[i] == vk);
            } else {
                assert(b[i - a.len()] == vk);
            }
        }
        if a.contains(vk) {
            let i = a.index_of(vk);
            assert((a + b)[i] == vk);
        }
        if b.contains(vk) {
            let i = b.index_of(vk);
            assert((a + b)[a.len() + i] == vk);
        }
    }
}

/// Whether every key of the sequence has a rank from `low` to `high`.
spec fn ranks_within(keys: Seq<u32>, low: u16, high: u16) -> bool {
    forall|i: int| 0 <= i < keys.len() ==> low <= priority_of(#[trigger] keys[i]) <= high
}

/// Keys of one rank behind keys of lower ranks: the ranks still ascend, and
/// no key comes twice unless it did before.
proof fn lemma_next_rank(ahead: Seq<u32>, group: Seq<u32>, reached: u16, rank: u16)
    requires
        reached < rank,
        ranks_ascend(ahead),
        ranks_within(ahead, 0, reached),
        ranks_within(group, rank, rank),
    ensures
        ranks_ascend(ahead + group),
        ranks_within(ahead + group, 0, rank),
        ahead.no_duplicates() && group.no_duplicates() ==> (ahead + group).no_duplicates(),
{
    let all = ahead + group;
    assert forall|i: int| 0 <= i < all.len() implies 0 <= priority_of(#[trigger] all[i])
        <= rank by {
        if i < ahead.len() {
            assert(all[i] == ahead[i]);
        } else {
            assert(all[i] == group[i - ahead.len()]);
        }
    }
    assert forall|i: int, j: int| 0 <= i < j < all.len() implies priority_of(#[trigger] all[i])
        <= priority_of(#[trigger] all[j]) by {
        if j < ahead.len() {
            assert(all[i] == ahead[i] && all[j] == ahead[j]);
        } else if i < ahead.len() {
            assert(all[i] == ahead[i] && all[j] == group[j - ahead.len()]);
        } else {
            assert(all[i] == group[i - ahead.len()] && all[j] == group[j - ahead.len()]);
        }
    }
    if ahead.no_duplicates() && group.no_duplicates() {
        assert forall|i: int, j: int|
            0 <= i < ahead.len() && 0 <= j < group.len() implies ahead[i] != group[j] by {
            assert(priority_of(ahead[i]) <= reached);
            assert(priority_of(group[j]) == rank);
        }
        vstd::seq_lib::lemma_no_dup_in_concat(ahead, group);
    }
}

/// The canonical order holds the keys that the sequence holds, as many as
/// there were and none twice unless it came twice before; its ranks ascend;
/// the keys of each rank are in the order in which the sequence had them;
/// and putting it into canonical order again changes nothing.
pub proof fn lemma_canonical_order_keeps_keys(keys: Seq<u32>)
    ensures
        canonical_order(keys).len() == keys.len(),
        forall|vk: u32| canonical_order(keys).contains(vk) <==> keys.contains(vk),
        keys.no_duplicates() ==> canonical_order(keys).no_duplicates(),
        ranks_ascend(canonical_order(keys)),
        canonical_order(canonical_order(keys)) == canonical_order(keys),
{
    let (g0, g1, g2, g3, g10) = (
        of_rank(keys, 0),
        of_rank(keys, 1),
        of_rank(keys, 2),
        of_rank(keys, 3),
        of_rank(keys, 10),
    );
    lemma_rank_sizes(keys);
    lemma_of_rank_holds(keys, 0);
    lemma_of_rank_holds(keys, 1);
    lemma_of_rank_holds(keys, 2);
    lemma_of_rank_holds(keys, 3);
    lemma_of_rank_holds(keys, 10);
    lemma_concat_contains(g0, g1);
    lemma_concat_contains(g0 + g1, g2);
    lemma_concat_contains(g0 + g1 + g2, g3);
    lemma_concat_contains(g0 + g1 + g2 + g3, g10);
    assert forall|vk: u32| canonical_order(keys).contains(vk) <==> keys.contains(vk) by {
        let rank = priority_of(vk);
        assert(rank == 0 || rank == 1 || rank == 2 || rank == 3 || rank == 10);
        assert(canonical_order(keys).contains(vk) <==> g0.contains(vk) || g1.contains(vk)
            || g2.contains(vk) || g3.contains(vk) || g10.contains(vk));
    }
    assert(ranks_ascend(g0));
    assert(ranks_within(g0, 0, 0));
    lemma_next_rank(g0, g1, 0, 1);
    lemma_next_rank(g0 + g1, g2, 1, 2);
    lemma_next_rank(g0 + g1 + g2, g3, 2, 3);
    lemma_next_rank(g0 + g1 + g2 + g3, g10, 3, 10);
    lemma_ascending_is_canonical(canonical_order(keys));
}

/// Two press orders that agree on the order of the keys of each rank give
/// the same canonical order: where no two keys share a rank, the order in
/// which the keys went down does not show.
pub proof fn lemma_order_across_ranks_does_not_show(first: Seq<u32>, second: Seq<u32>)
    requires
        forall|rank: u16| #[trigger] of_rank(first, rank) == of_rank(second, rank),
    ensures
        canonical_order(first) == canonical_order(second),
{
    assert(of_rank(first, 0) == of_rank(second, 0));
    assert(of_rank(first, 1) == of_rank(second, 1));
    assert(of_rank(first, 2) == of_rank(second, 2));
    assert(of_rank(first, 3) == of_rank(second, 3));
    assert(of_rank(first, 10) == of_rank(second, 10));
}

} // verus!
