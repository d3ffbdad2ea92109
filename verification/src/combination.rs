//! The label of a combination of keys: modifiers first, in a fixed order,
//! then the other keys in the order in which they went down, joined by
//! `" + "`.

use crate::codes::{
    VK_LCONTROL, VK_LMENU, VK_LSHIFT, VK_LWIN, VK_RCONTROL, VK_RMENU, VK_RSHIFT, VK_RWIN,
};
use crate::key_set::{held_keys, keys_in_order, sort_by_priority};
use crate::label::{may_label, named_key_label, named_label, layout_label};
use indexmap::IndexSet;
use vstd::prelude::*;
use vstd::string::StringExecFns;

verus! {

/// The rank of a key in a combination's label: 0 for left and right Ctrl,
/// 1 for left and right Shift, 2 for left and right Alt, 3 for the left and
/// right OS key, 10 for every other key. Only the low 16 bits of the code
/// count.
pub open spec fn priority_of(vk: u32) -> u16 {
    let code = vk % 0x1_0000;
    if code == VK_LCONTROL || code == VK_RCONTROL {
        0
    } else if code == VK_LSHIFT || code == VK_RSHIFT {
        1
    } else if code == VK_LMENU || code == VK_RMENU {
        2
    } else if code == VK_LWIN || code == VK_RWIN {
        3
    } else {
        10
    }
}

/// The rank of a key in a combination's label.
pub fn modifier_priority(vk: u32) -> (rank: u16)
    ensures
        rank == priority_of(vk),
{
    let code: u32 = vk % 0x1_0000;
    if code == VK_LCONTROL || code == VK_RCONTROL {
        0
    } else if code == VK_LSHIFT || code == VK_RSHIFT {
        1
    } else if code == VK_LMENU || code == VK_RMENU {
        2
    } else if code == VK_LWIN || code == VK_RWIN {
        3
    } else {
        10
    }
}

/// The keys of one rank, in the order in which the sequence has them.
pub open spec fn of_rank(keys: Seq<u32>, rank: u16) -> Seq<u32>
    decreases keys.len(),
{
    if keys.len() == 0 {
        keys
    } else {
        let before = of_rank(keys.drop_last(), rank);
        if priority_of(keys.last()) == rank {
            before.push(keys.last())
        } else {
            before
        }
    }
}

/// Whether no key stands before a key of lower rank.
pub open spec fn ranks_ascend(keys: Seq<u32>) -> bool {
    forall|i: int, j: int|
        0 <= i < j < keys.len() ==> priority_of(#[trigger] keys[i]) <= priority_of(
            #[trigger] keys[j],
        )
}

/// The keys in the order of a combination's label: by rank, and within a
/// rank as the sequence has them.
pub open spec fn canonical_order(keys: Seq<u32>) -> Seq<u32> {
    of_rank(keys, 0) + of_rank(keys, 1) + of_rank(keys, 2) + of_rank(keys, 3) + of_rank(keys, 10)
}

/// The labels joined, with the separator between each two.
pub open spec fn joined(labels: Seq<Seq<char>>, separator: Seq<char>) -> Seq<char>
    decreases labels.len(),
{
    if labels.len() == 0 {
        Seq::empty()
    } else if labels.len() == 1 {
        labels[0]
    } else {
        joined(labels.drop_last(), separator) + separator + labels.last()
    }
}

/// The texts of some strings.
pub open spec fn texts(labels: Seq<String>) -> Seq<Seq<char>> {
    Seq::new(labels.len(), |i: int| labels[i]@)
}

/// A sequence without a key of some rank has nothing of that rank.
proof fn lemma_rank_absent(keys: Seq<u32>, rank: u16)
    requires
        forall|i: int| 0 <= i < keys.len() ==> priority_of(#[trigger] keys[i]) != rank,
    ensures
        of_rank(keys, rank) == Seq::<u32>::empty(),
    decreases keys.len(),
{
    if keys.len() > 0 {
        let before = keys.drop_last();
        assert forall|i: int| 0 <= i < before.len() implies priority_of(#[trigger] before[i])
            != rank by {
            assert(before[i] == keys[i]);
        }
        lemma_rank_absent(before, rank);
    }
}

/// A sequence whose ranks ascend is its own canonical order.
pub proof fn lemma_ascending_is_canonical(keys: Seq<u32>)
    requires
        ranks_ascend(keys),
    ensures
        canonical_order(keys) == keys,
    decreases keys.len(),
{
    if keys.len() == 0 {
        assert(canonical_order(keys) =~= keys);
    } else {
        let before = keys.drop_last();
        let last = keys.last();
        let rank = priority_of(last);
        assert(ranks_ascend(before)) by {
            assert forall|i: int, j: int| 0 <= i < j < before.len() implies priority_of(
                #[trigger] before[i],
            ) <= priority_of(#[trigger] before[j]) by {
                assert(before[i] == keys[i] && before[j] == keys[j]);
            }
        }
        lemma_ascending_is_canonical(before);
        // Nothing before the last key has a higher rank than the last key.
        assert forall|i: int| 0 <= i < before.len() implies priority_of(#[trigger] before[i])
            <= rank by {
            assert(before[i] == keys[i]);
            assert(last == keys[keys.len() - 1]);
        }
        if rank < 1 {
            lemma_rank_absent(before, 1);
        }
        if rank < 2 {
            lemma_rank_absent(before, 2);
        }
        if rank < 3 {
            lemma_rank_absent(before, 3);
        }
        if rank < 10 {
            lemma_rank_absent(before, 10);
        }
        assert(canonical_order(keys) =~= canonical_order(before).push(last));
        assert(keys =~= before.push(last));
    }
}

/// Sorting by rank, keeping the order within each rank, gives the canonical
/// order.
pub proof fn lemma_stable_sort_is_canonical(before: Seq<u32>, after: Seq<u32>)
    requires
        ranks_ascend(after),
        forall|rank: u16| #[trigger] of_rank(after, rank) == of_rank(before, rank),
    ensures
        after == canonical_order(before),
{
    lemma_ascending_is_canonical(after);
    assert(of_rank(after, 0) == of_rank(before, 0));
    assert(of_rank(after, 1) == of_rank(before, 1));
    assert(of_rank(after, 2) == of_rank(before, 2));
    assert(of_rank(after, 3) == of_rank(before, 3));
    assert(of_rank(after, 10) == of_rank(before, 10));
}

/// Joins labels with a separator between each two.
pub fn join_labels(labels: &Vec<String>, separator: &str) -> (text: String)
    ensures
        text@ == joined(texts(labels@), separator@),
{
    let mut text = String::new();
    let mut i: usize = 0;
    while i < labels.len()
        invariant
            i <= labels.len(),
            text@ == joined(texts(labels@).take(i as int), separator@),
        decreases labels.len() - i,
    {
        if i > 0 {
            text.append(separator);
        }
        text.append(labels[i].as_str());
        proof {
            let all = texts(labels@);
            assert(all.take(i + 1).drop_last() =~= all.take(i as int));
            assert(all.take(i + 1).last() == labels@[i as int]@);
        }
        i = i + 1;
    }
    assert(texts(labels@).take(i as int) =~= texts(labels@));
    text
}

/// Whether `text` can be the label of the combination `keys`, where
/// `layout` asks the keyboard layout: the labels of the keys, one that
/// each key may have, joined by `" + "`.
pub open spec fn may_label_combination<F: Fn(u32) -> Vec<u16>>(
    layout: F,
    keys: Seq<u32>,
    text: Seq<char>,
) -> bool {
    exists|labels: Seq<Seq<char>>|
        {
            &&& labels.len() == keys.len()
            &&& forall|i: int|
                0 <= i < keys.len() ==> may_label(layout, keys[i], #[trigger] labels[i])
            &&& text == joined(labels, " + "@)
        }
}

/// Puts the keys of a combination into canonical order and gives the
/// combination's label: the label of each key, resolved on its own, with
/// `" + "` between each two. The keyboard layout is asked, through
/// `layout`, once for each key without a fixed label.
pub fn key_combination_to_string<F: Fn(u32) -> Vec<u16>>(
    keys: &mut IndexSet<u32>,
    layout: F,
) -> (text: String)
    requires
        forall|vk: u32| named_label(vk).is_none() ==> call_requires(layout, (vk,)),
    ensures
        held_keys(*final(keys)) == canonical_order(held_keys(*old(keys))),
        may_label_combination(layout, held_keys(*final(keys)), text@),
{
    sort_by_priority(keys);
    proof {
        lemma_stable_sort_is_canonical(held_keys(*old(keys)), held_keys(*keys));
    }
    let codes = keys_in_order(keys);
    let mut labels: Vec<String> = Vec::new();
    let mut i: usize = 0;
    while i < codes.len()
        invariant
            i <= codes.len(),
            labels@.len() == i,
            forall|vk: u32| named_label(vk).is_none() ==> call_requires(layout, (vk,)),
            forall|j: int| 0 <= j < i ==> may_label(layout, codes@[j], #[trigger] labels@[j]@),
        decreases codes.len() - i,
    {
        let vk: u32 = codes[i];
        let label = match named_key_label(vk) {
            Some(name) => name,
            None => {
                let units = layout(vk);
                layout_label(vk, units.as_slice())
            },
        };
        labels.push(label);
        i = i + 1;
    }
    let text = join_labels(&labels, " + ");
    proof {
        let found = texts(labels@);
        assert forall|j: int| 0 <= j < codes@.len() implies may_label(
            layout,
            codes@[j],
            #[trigger] found[j],
        ) by {
            assert(found[j] == labels@[j]@);
        }
    }
    text
}

} // verus!
