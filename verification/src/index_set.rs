//! The reverse dictionaries of a run, in the order of their precedence, and
//! the lookup over all of them.

use vstd::prelude::*;
use vstd::seq_lib::lemma_flatten_concat;
use crate::dictionary::{
    lemma_strokes_ascending, stroke_texts, InvertedDictionary, Reverse, Stroke,
};
use crate::error::LoadError;
use crate::text::ascending;

verus! {

/// What one reverse dictionary adds to the answer for `term`: the strokes
/// listed under it, or nothing where the dictionary does not have it.
pub open spec fn segment(dictionary: Reverse, term: Seq<char>) -> Seq<Seq<char>> {
    if dictionary.dom().contains(term) {
        dictionary[term]
    } else {
        Seq::empty()
    }
}

/// The answer for `term`: the segments of the dictionaries, one after the
/// other in the order of the dictionaries.
pub open spec fn lookup_texts(dictionaries: Seq<Reverse>, term: Seq<char>) -> Seq<Seq<char>> {
    dictionaries.map_values(|dictionary: Reverse| segment(dictionary, term)).flatten()
}

/// The texts of borrowed strokes, in their order.
pub open spec fn borrowed_texts(strokes: Seq<&Stroke>) -> Seq<Seq<char>> {
    Seq::new(strokes.len(), |i: int| strokes[i]@)
}

/// The reverse dictionaries that stand behind the given results, in their
/// order.
pub open spec fn loaded(results: Seq<Result<InvertedDictionary, LoadError>>) -> Seq<Reverse> {
    Seq::new(results.len(), |i: int| results[i]->Ok_0@)
}

/// The result at place `i` is this failure, and all the results before it
/// are dictionaries.
pub open spec fn first_failure(
    results: Seq<Result<InvertedDictionary, LoadError>>,
    i: int,
    error: LoadError,
) -> bool {
    &&& 0 <= i < results.len()
    &&& results[i] == Err::<InvertedDictionary, LoadError>(error)
    &&& forall|j: int| 0 <= j < i ==> (#[trigger] results[j]) is Ok
}

/// An ordered collection of reverse dictionaries. It is made once and never
/// changed after that.
#[derive(Debug)]
pub struct IndexSet {
    dictionaries: Vec<InvertedDictionary>,
}

impl View for IndexSet {
    type V = Seq<Reverse>;

    closed spec fn view(&self) -> Seq<Reverse> {
        Seq::new(self.dictionaries.len() as nat, |i: int| self.dictionaries[i]@)
    }
}

impl IndexSet {
    /// Each dictionary of the set is well formed.
    #[verifier::type_invariant]
    pub closed spec fn well_formed(&self) -> bool {
        forall|i: int|
            0 <= i < self.dictionaries.len() ==> (#[trigger] self.dictionaries[i]).well_formed()
    }

    /// Joins the outcomes of loading the dictionaries, which stand in the
    /// order of the paths they were loaded from. If every one was loaded,
    /// the set holds them in that order. If not, the first failure in that
    /// order is returned, and no set.
    pub fn from_results(
        results: Vec<Result<InvertedDictionary, LoadError>>,
    ) -> (outcome: Result<IndexSet, LoadError>)
        ensures
            outcome is Ok <==> forall|i: int|
                0 <= i < results.len() ==> (#[trigger] results[i]) is Ok,
            outcome matches Ok(set) ==> set@ == loaded(results@) && set.well_formed(),
            outcome matches Err(error) ==> exists|i: int| first_failure(results@, i, error),
    {
        let mut dictionaries: Vec<InvertedDictionary> = Vec::new();
        for result in it: results
            invariant
                dictionaries.len() == it.index(),
                forall|j: int| 0 <= j < it.index() ==> (#[trigger] results[j]) is Ok,
                forall|j: int|
                    0 <= j < it.index() ==> (#[trigger] dictionaries[j]).well_formed()
                        && dictionaries[j] == results[j]->Ok_0,
        {
            match result {
                Ok(dictionary) => {
                    proof {
                        use_type_invariant(&dictionary);
                    }
                    dictionaries.push(dictionary);
                },
                Err(error) => {
                    assert(first_failure(results@, it.index() as int, error));
                    return Err(error);
                },
            }
        }
        let set = IndexSet { dictionaries };
        assert(set@ =~= loaded(results@));
        Ok(set)
    }

    /// The number of dictionaries.
    pub fn len(&self) -> (count: usize)
        ensures
            count == self@.len(),
    {
        self.dictionaries.len()
    }

    /// The strokes that produce `term`: for each dictionary in turn that has
    /// the term, its strokes in their order. Nothing is left out where two
    /// dictionaries list the same stroke, and where no dictionary has the
    /// term the answer is empty.
    pub fn lookup(&self, term: &str) -> (strokes: Vec<&Stroke>)
        ensures
            borrowed_texts(strokes@) == lookup_texts(self@, term@),
    {
        let mut strokes: Vec<&Stroke> = Vec::new();
        let ghost contribution = |dictionary: Reverse| segment(dictionary, term@);
        assert(self@.take(0).map_values(contribution) =~= Seq::empty());
        let mut i: usize = 0;
        while i < self.dictionaries.len()
            invariant
                i <= self.dictionaries.len(),
                contribution == |dictionary: Reverse| segment(dictionary, term@),
                borrowed_texts(strokes@) == self@.take(i as int).map_values(contribution).flatten(),
            decreases self.dictionaries.len() - i,
        {
            let ghost before = borrowed_texts(strokes@);
            let ghost found = segment(self@[i as int], term@);
            match self.dictionaries[i].get(term.to_owned()) {
                Some(list) => {
                    let mut j: usize = 0;
                    while j < list.len()
                        invariant
                            j <= list.len(),
                            borrowed_texts(strokes@) == before + stroke_texts(list@).take(
                                j as int,
                            ),
                        decreases list.len() - j,
                    {
                        let ghost prior = borrowed_texts(strokes@);
                        strokes.push(&list[j]);
                        assert(borrowed_texts(strokes@) =~= prior.push(list[j as int]@));
                        assert(stroke_texts(list@).take(j + 1) =~= stroke_texts(list@).take(
                            j as int,
                        ).push(list[j as int]@));
                        j = j + 1;
                    }
                    assert(stroke_texts(list@).take(j as int) =~= stroke_texts(list@));
                },
                None => {},
            }
            proof {
                assert(borrowed_texts(strokes@) =~= before + found);
                let parts = self@.take(i as int).map_values(contribution);
                assert(self@.take(i + 1).map_values(contribution) =~= parts.push(found));
                parts.lemma_flatten_push(found);
            }
            i = i + 1;
        }
        assert(self@.take(i as int) =~= self@);
        strokes
    }
}

/// The answer of an empty set is empty, and a dictionary more at the end of
/// a set adds its segment at the end of the answer.
pub proof fn lemma_lookup_in_order(dictionaries: Seq<Reverse>, last: Reverse, term: Seq<char>)
    ensures
        lookup_texts(Seq::empty(), term) == Seq::<Seq<char>>::empty(),
        lookup_texts(dictionaries.push(last), term) == lookup_texts(dictionaries, term) + segment(
            last,
            term,
        ),
{
    let contribution = |dictionary: Reverse| segment(dictionary, term);
    assert(Seq::<Reverse>::empty().map_values(contribution) =~= Seq::<Seq<Seq<char>>>::empty());
    let parts = dictionaries.map_values(contribution);
    assert(dictionaries.push(last).map_values(contribution) =~= parts.push(segment(last, term)));
    parts.lemma_flatten_push(segment(last, term));
}

/// Precedence: the answer is made of the segments of the dictionaries in
/// the order of the dictionaries. The segment of the dictionary at place `i`
/// stands after all that the dictionaries before it add and before all that
/// the dictionaries after it add; it is empty where that dictionary does not
/// have the term.
pub proof fn lemma_lookup_precedence(dictionaries: Seq<Reverse>, i: int, term: Seq<char>)
    requires
        0 <= i < dictionaries.len(),
    ensures
        lookup_texts(dictionaries, term) == lookup_texts(dictionaries.take(i), term) + segment(
            dictionaries[i],
            term,
        ) + lookup_texts(dictionaries.skip(i + 1), term),
        !dictionaries[i].dom().contains(term) ==> segment(dictionaries[i], term).len() == 0,
        dictionaries[i].dom().contains(term) ==> segment(dictionaries[i], term)
            == dictionaries[i][term],
{
    let contribution = |dictionary: Reverse| segment(dictionary, term);
    let before = dictionaries.take(i).map_values(contribution);
    let at = seq![segment(dictionaries[i], term)];
    let after = dictionaries.skip(i + 1).map_values(contribution);
    assert(dictionaries.map_values(contribution) =~= before + at + after);
    lemma_flatten_concat(before + at, after);
    lemma_flatten_concat(before, at);
    at.lemma_flatten_one_element();
}

/// A term that no dictionary has, has an empty answer.
pub proof fn lemma_lookup_unknown(dictionaries: Seq<Reverse>, term: Seq<char>)
    requires
        forall|i: int|
            0 <= i < dictionaries.len() ==> !(#[trigger] dictionaries[i]).dom().contains(term),
    ensures
        lookup_texts(dictionaries, term) == Seq::<Seq<char>>::empty(),
    decreases dictionaries.len(),
{
    if dictionaries.len() == 0 {
        assert(dictionaries =~= Seq::empty());
        lemma_lookup_in_order(dictionaries, Map::empty(), term);
    } else {
        let front = dictionaries.drop_last();
        lemma_lookup_unknown(front, term);
        lemma_lookup_in_order(front, dictionaries.last(), term);
        assert(front.push(dictionaries.last()) =~= dictionaries);
        assert(lookup_texts(front, term) + segment(dictionaries.last(), term) =~= Seq::empty());
    }
}

/// Each segment of the answer of a set is sorted in ascending order and
/// holds no stroke twice.
pub proof fn lemma_segments_ascending(set: IndexSet, i: int, term: Seq<char>)
    requires
        set.well_formed(),
        0 <= i < set@.len(),
    ensures
        ascending(segment(set@[i], term)),
        segment(set@[i], term).no_duplicates(),
{
    if set@[i].dom().contains(term) {
        lemma_strokes_ascending(set.dictionaries[i], term);
    }
}

} // verus!
