//! Lists of pairs kept in ascending order of their keys.
//!
//! The dictionaries of the library are such lists: the order makes a key
//! occur once at most and lets a key be found by halving.

use vstd::prelude::*;
use crate::text::{
    ascending, lemma_lt_irreflexive, lemma_lt_total, lemma_lt_transitive, relate, text_lt,
    Relation,
};

verus! {

/// A value that stands for a text.
pub trait Text {
    /// The text.
    spec fn text(&self) -> Seq<char>;

    /// The text, borrowed.
    fn as_text(&self) -> (t: &str)
        ensures
            t@ == self.text(),
    ;
}

/// The keys of a list, in its order.
pub open spec fn keys<K: Text, V>(entries: Seq<(K, V)>) -> Seq<Seq<char>> {
    Seq::new(entries.len(), |i: int| entries[i].0.text())
}

/// Some pair of the list has this key.
pub open spec fn has_key<K: Text, V>(entries: Seq<(K, V)>, key: Seq<char>) -> bool {
    exists|i: int| 0 <= i < entries.len() && #[trigger] keys(entries)[i] == key
}

/// The place of a pair with this key, where there is one.
pub open spec fn place_of<K: Text, V>(entries: Seq<(K, V)>, key: Seq<char>) -> int {
    choose|i: int| 0 <= i < entries.len() && #[trigger] keys(entries)[i] == key
}

/// In an ascending list a key stands at one place only.
pub proof fn lemma_place_of<K: Text, V>(entries: Seq<(K, V)>, i: int)
    requires
        ascending(keys(entries)),
        0 <= i < entries.len(),
    ensures
        has_key(entries, keys(entries)[i]),
        place_of(entries, keys(entries)[i]) == i,
{
    let key = keys(entries)[i];
    let j = place_of(entries, key);
    lemma_lt_irreflexive(key);
    if j < i {
        assert(text_lt(keys(entries)[j], keys(entries)[i]));
    } else if i < j {
        assert(text_lt(keys(entries)[i], keys(entries)[j]));
    }
}

/// Where a key stands in an ascending list, or where it would have to be
/// put: the second component says whether it was found.
pub(crate) fn locate<K: Text, V>(entries: &Vec<(K, V)>, key: &str) -> (r: (usize, bool))
    requires
        ascending(keys(entries@)),
    ensures
        r.0 <= entries.len(),
        r.1 == has_key(entries@, key@),
        r.1 ==> r.0 < entries.len() && keys(entries@)[r.0 as int] == key@,
        forall|i: int| 0 <= i < r.0 ==> text_lt(#[trigger] keys(entries@)[i], key@),
        forall|i: int|
            r.0 <= i < entries.len() && !(r.1 && i == r.0) ==> text_lt(
                key@,
                #[trigger] keys(entries@)[i],
            ),
{
    let mut low: usize = 0;
    let mut high: usize = entries.len();
    while low < high
        invariant
            low <= high <= entries.len(),
            ascending(keys(entries@)),
            forall|i: int| 0 <= i < low ==> text_lt(#[trigger] keys(entries@)[i], key@),
            forall|i: int|
                high <= i < entries.len() ==> text_lt(key@, #[trigger] keys(entries@)[i]),
        decreases high - low,
    {
        let middle: usize = low + (high - low) / 2;
        let ghost pivot = keys(entries@)[middle as int];
        match relate(entries[middle].0.as_text(), key) {
            Relation::Same => {
                return (middle, true);
            },
            Relation::Before => {
                assert forall|i: int| 0 <= i < middle + 1 implies text_lt(
                    #[trigger] keys(entries@)[i],
                    key@,
                ) by {
                    if i < middle {
                        assert(text_lt(keys(entries@)[i], pivot));
                        lemma_lt_transitive(keys(entries@)[i], pivot, key@);
                    }
                }
                low = middle + 1;
            },
            Relation::After => {
                proof {
                    lemma_lt_total(pivot, key@);
                }
                assert forall|i: int| middle <= i < entries.len() implies text_lt(
                    key@,
                    #[trigger] keys(entries@)[i],
                ) by {
                    if middle < i {
                        assert(text_lt(pivot, keys(entries@)[i]));
                        lemma_lt_transitive(key@, pivot, keys(entries@)[i]);
                    }
                }
                high = middle;
            },
        }
    }
    proof {
        lemma_lt_irreflexive(key@);
    }
    (low, false)
}

} // verus!
