//! The order in which the pairs of a list follow each other when they are
//! sorted by their second components.
//!
//! The sort is a merge sort on the places of the pairs. Pairs with the same
//! text keep the order that they have in the list, so the result is the one
//! sequence of places that ascends by text first and by place second.

use vstd::prelude::*;
use crate::keyed::Text;
use crate::text::{lemma_lt_total, lemma_lt_transitive, relate, text_lt, Relation};

verus! {

/// The second components of a list, in its order.
pub open spec fn values<K, V: Text>(entries: Seq<(K, V)>) -> Seq<Seq<char>> {
    Seq::new(entries.len(), |i: int| entries[i].1.text())
}

/// Place `x` comes before place `y`: its text comes first or, the texts
/// being the same, it is the earlier place.
pub open spec fn precedes(texts: Seq<Seq<char>>, x: int, y: int) -> bool {
    text_lt(texts[x], texts[y]) || (texts[x] == texts[y] && x < y)
}

/// `order` holds places of `texts`, each before every later one.
pub open spec fn ranked(texts: Seq<Seq<char>>, order: Seq<usize>) -> bool {
    &&& forall|i: int| 0 <= i < order.len() ==> #[trigger] order[i] < texts.len()
    &&& forall|i: int, j: int|
        0 <= i < j < order.len() ==> precedes(
            texts,
            #[trigger] order[i] as int,
            #[trigger] order[j] as int,
        )
}

/// `precedes` is transitive.
pub proof fn lemma_precedes_transitive(texts: Seq<Seq<char>>, x: int, y: int, z: int)
    requires
        precedes(texts, x, y),
        precedes(texts, y, z),
    ensures
        precedes(texts, x, z),
{
    if text_lt(texts[x], texts[y]) && text_lt(texts[y], texts[z]) {
        lemma_lt_transitive(texts[x], texts[y], texts[z]);
    }
}

/// Merges two ranked sequences where every place of the first is smaller
/// than every place of the second.
fn merge<K, V: Text>(
    entries: &Vec<(K, V)>,
    left: &Vec<usize>,
    right: &Vec<usize>,
) -> (out: Vec<usize>)
    requires
        ranked(values(entries@), left@),
        ranked(values(entries@), right@),
        forall|i: int, j: int|
            0 <= i < left.len() && 0 <= j < right.len() ==> #[trigger] left[i]
                < #[trigger] right[j],
        left.len() + right.len() <= usize::MAX,
    ensures
        ranked(values(entries@), out@),
        out.len() == left.len() + right.len(),
        forall|k: int|
            0 <= k < out.len() ==> left@.contains(#[trigger] out[k]) || right@.contains(out[k]),
        forall|i: int| 0 <= i < left.len() ==> out@.contains(#[trigger] left[i]),
        forall|j: int| 0 <= j < right.len() ==> out@.contains(#[trigger] right[j]),
{
    let ghost texts = values(entries@);
    let mut out: Vec<usize> = Vec::new();
    let mut i: usize = 0;
    let mut j: usize = 0;
    while i < left.len() || j < right.len()
        invariant
            texts == values(entries@),
            ranked(texts, left@),
            ranked(texts, right@),
            forall|a: int, b: int|
                0 <= a < left.len() && 0 <= b < right.len() ==> #[trigger] left[a]
                    < #[trigger] right[b],
            left.len() + right.len() <= usize::MAX,
            i <= left.len(),
            j <= right.len(),
            out.len() == i + j,
            ranked(texts, out@),
            forall|k: int, a: int|
                0 <= k < out.len() && i <= a < left.len() ==> precedes(
                    texts,
                    #[trigger] out[k] as int,
                    #[trigger] left[a] as int,
                ),
            forall|k: int, b: int|
                0 <= k < out.len() && j <= b < right.len() ==> precedes(
                    texts,
                    #[trigger] out[k] as int,
                    #[trigger] right[b] as int,
                ),
            forall|k: int|
                0 <= k < out.len() ==> left@.contains(#[trigger] out[k]) || right@.contains(out[k]),
            forall|a: int| 0 <= a < i ==> out@.contains(#[trigger] left[a]),
            forall|b: int| 0 <= b < j ==> out@.contains(#[trigger] right[b]),
        decreases left.len() - i + (right.len() - j),
    {
        let ghost before = out@;
        let from_left = if i == left.len() {
            false
        } else if j == right.len() {
            true
        } else {
            match relate(entries[left[i]].1.as_text(), entries[right[j]].1.as_text()) {
                Relation::After => false,
                _ => true,
            }
        };
        if from_left {
            let x = left[i];
            out.push(x);
            proof {
                assert(out@[out.len() - 1] == x);
                assert forall|k: int, b: int|
                    0 <= k < out.len() && j <= b < right.len() implies precedes(
                    texts,
                    #[trigger] out[k] as int,
                    #[trigger] right[b] as int,
                ) by {
                    if k == out.len() - 1 {
                        assert(precedes(texts, x as int, right[j as int] as int));
                        if j < b {
                            lemma_precedes_transitive(
                                texts,
                                x as int,
                                right[j as int] as int,
                                right[b] as int,
                            );
                        }
                    } else {
                        assert(out[k] == before[k]);
                    }
                }
                assert forall|k: int, a: int|
                    0 <= k < out.len() && i + 1 <= a < left.len() implies precedes(
                    texts,
                    #[trigger] out[k] as int,
                    #[trigger] left[a] as int,
                ) by {
                    if k < out.len() - 1 {
                        assert(out[k] == before[k]);
                    }
                }
                assert forall|a: int| 0 <= a < i + 1 implies out@.contains(#[trigger] left[a]) by {
                    if a < i {
                        let k = choose|k: int| 0 <= k < before.len() && before[k] == left[a];
                        assert(out@[k] == left[a]);
                    }
                }
                assert forall|b: int| 0 <= b < j implies out@.contains(#[trigger] right[b]) by {
                    let k = choose|k: int| 0 <= k < before.len() && before[k] == right[b];
                    assert(out@[k] == right[b]);
                }
                assert forall|k: int| 0 <= k < out.len() implies left@.contains(#[trigger] out[k])
                    || right@.contains(out[k]) by {
                    if k < out.len() - 1 {
                        assert(out[k] == before[k]);
                    }
                }
                assert forall|k: int, l: int| 0 <= k < l < out.len() implies precedes(
                    texts,
                    #[trigger] out[k] as int,
                    #[trigger] out[l] as int,
                ) by {
                    assert(out[k] == before[k]);
                    if l < out.len() - 1 {
                        assert(out[l] == before[l]);
                    }
                }
            }
            i = i + 1;
        } else {
            let y = right[j];
            out.push(y);
            proof {
                assert(out@[out.len() - 1] == y);
                if i < left.len() {
                    lemma_lt_total(texts[left[i as int] as int], texts[y as int]);
                }
                assert forall|k: int, a: int|
                    0 <= k < out.len() && i <= a < left.len() implies precedes(
                    texts,
                    #[trigger] out[k] as int,
                    #[trigger] left[a] as int,
                ) by {
                    if k == out.len() - 1 {
                        assert(precedes(texts, y as int, left[i as int] as int));
                        if i < a {
                            lemma_precedes_transitive(
                                texts,
                                y as int,
                                left[i as int] as int,
                                left[a] as int,
                            );
                        }
                    } else {
                        assert(out[k] == before[k]);
                    }
                }
                assert forall|k: int, b: int|
                    0 <= k < out.len() && j + 1 <= b < right.len() implies precedes(
                    texts,
                    #[trigger] out[k] as int,
                    #[trigger] right[b] as int,
                ) by {
                    if k < out.len() - 1 {
                        assert(out[k] == before[k]);
                    }
                }
                assert forall|a: int| 0 <= a < i implies out@.contains(#[trigger] left[a]) by {
                    let k = choose|k: int| 0 <= k < before.len() && before[k] == left[a];
                    assert(out@[k] == left[a]);
                }
                assert forall|b: int| 0 <= b < j + 1 implies out@.contains(#[trigger] right[b]) by {
                    if b < j {
                        let k = choose|k: int| 0 <= k < before.len() && before[k] == right[b];
                        assert(out@[k] == right[b]);
                    }
                }
                assert forall|k: int| 0 <= k < out.len() implies left@.contains(#[trigger] out[k])
                    || right@.contains(out[k]) by {
                    if k < out.len() - 1 {
                        assert(out[k] == before[k]);
                    }
                }
                assert forall|k: int, l: int| 0 <= k < l < out.len() implies precedes(
                    texts,
                    #[trigger] out[k] as int,
                    #[trigger] out[l] as int,
                ) by {
                    assert(out[k] == before[k]);
                    if l < out.len() - 1 {
                        assert(out[l] == before[l]);
                    }
                }
            }
            j = j + 1;
        }
    }
    out
}

/// The places from `low` up to `high`, ranked.
fn rank_range<K, V: Text>(entries: &Vec<(K, V)>, low: usize, high: usize) -> (order: Vec<usize>)
    requires
        low <= high <= entries.len(),
    ensures
        order.len() == high - low,
        ranked(values(entries@), order@),
        forall|i: int| 0 <= i < order.len() ==> low <= #[trigger] order[i] < high,
        forall|x: usize| low <= x < high ==> order@.contains(x),
    decreases high - low,
{
    if high - low == 0 {
        Vec::new()
    } else if high - low == 1 {
        let mut order: Vec<usize> = Vec::new();
        order.push(low);
        assert(order@[0] == low);
        order
    } else {
        let middle: usize = low + (high - low) / 2;
        let left = rank_range(entries, low, middle);
        let right = rank_range(entries, middle, high);
        let order = merge(entries, &left, &right);
        proof {
            assert forall|x: usize| low <= x < high implies order@.contains(x) by {
                if x < middle {
                    assert(left@.contains(x));
                    let i = choose|i: int| 0 <= i < left.len() && left[i] == x;
                    assert(order@.contains(left[i]));
                } else {
                    assert(right@.contains(x));
                    let j = choose|j: int| 0 <= j < right.len() && right[j] == x;
                    assert(order@.contains(right[j]));
                }
            }
            assert forall|i: int| 0 <= i < order.len() implies low <= #[trigger] order[i]
                < high by {
                if left@.contains(order[i]) {
                    let a = choose|a: int| 0 <= a < left.len() && left[a] == order[i];
                    assert(low <= left[a] < middle);
                } else {
                    let b = choose|b: int| 0 <= b < right.len() && right[b] == order[i];
                    assert(middle <= right[b] < high);
                }
            }
        }
        order
    }
}

/// The places of a list in the order of their second components: by text
/// first, by place second. Each place of the list occurs in it.
pub(crate) fn rank_by_value<K, V: Text>(entries: &Vec<(K, V)>) -> (order: Vec<usize>)
    ensures
        order.len() == entries.len(),
        ranked(values(entries@), order@),
        forall|x: usize| x < entries.len() ==> order@.contains(x),
{
    rank_range(entries, 0, entries.len())
}

} // verus!
