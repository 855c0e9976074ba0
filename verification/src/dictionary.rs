//! Forward dictionaries, from stroke to translation, and their inversion
//! into reverse dictionaries, from translation to strokes.

use vstd::prelude::*;
use crate::error::LoadError;
use crate::grouping::{
    entry_at, group_by_translation, group_texts, groups_within, has_entry, listed, listed_at,
    well_grouped,
};
use crate::keyed::{has_key, keys, lemma_place_of, locate, place_of, Text};
use crate::ranking::values;
use crate::text::{ascending, lemma_ascending_no_duplicates, lemma_ascending_unique, text_lt};

verus! {

/// The keys of one chord of a stenotype machine, as the dictionaries write
/// them. Strokes are ordered as texts are.
#[derive(Debug, PartialEq, Eq, Hash, PartialOrd, Ord)]
pub struct Stroke(String);

/// The text that a stroke produces.
#[derive(Debug, PartialEq, Eq, Hash)]
pub struct Translation(String);

impl View for Stroke {
    type V = Seq<char>;

    closed spec fn view(&self) -> Seq<char> {
        self.0@
    }
}

impl View for Translation {
    type V = Seq<char>;

    closed spec fn view(&self) -> Seq<char> {
        self.0@
    }
}

impl Text for Stroke {
    open spec fn text(&self) -> Seq<char> {
        self@
    }

    fn as_text(&self) -> (t: &str) {
        self.0.as_str()
    }
}

impl Text for Translation {
    open spec fn text(&self) -> Seq<char> {
        self@
    }

    fn as_text(&self) -> (t: &str) {
        self.0.as_str()
    }
}

impl Stroke {
    /// The stroke that is written `text`.
    pub fn new(text: String) -> (stroke: Stroke)
        ensures
            stroke@ == text@,
    {
        Stroke(text)
    }

    /// The stroke as it is written.
    pub fn to_string(&self) -> (text: String)
        ensures
            text@ == self@,
    {
        self.0.clone()
    }
}

impl Translation {
    /// The translation that reads `text`.
    pub fn new(text: String) -> (translation: Translation)
        ensures
            translation@ == text@,
    {
        Translation(text)
    }
}

/// What a forward dictionary stands for: a mapping from the text of a
/// stroke to the text of its translation.
pub type Forward = Map<Seq<char>, Seq<char>>;

/// What a reverse dictionary stands for: a mapping from the text of a
/// translation to the texts of its strokes, in their order.
pub type Reverse = Map<Seq<char>, Seq<Seq<char>>>;

/// The texts of a sequence of strokes, in its order.
pub open spec fn stroke_texts(strokes: Seq<Stroke>) -> Seq<Seq<char>> {
    Seq::new(strokes.len(), |i: int| strokes[i]@)
}

/// The texts of a sequence of pairs, in its order.
pub open spec fn pair_texts(pairs: Seq<(Stroke, Translation)>) -> Seq<(Seq<char>, Seq<char>)> {
    Seq::new(pairs.len(), |i: int| (pairs[i].0@, pairs[i].1@))
}

/// The mapping that pairs make when they are entered one after the other:
/// of two pairs with one stroke the later one stays.
pub open spec fn collected(pairs: Seq<(Seq<char>, Seq<char>)>) -> Forward
    decreases pairs.len(),
{
    if pairs.len() == 0 {
        Map::empty()
    } else {
        collected(pairs.drop_last()).insert(pairs.last().0, pairs.last().1)
    }
}

/// In `forward` the stroke has this translation.
pub open spec fn produces(forward: Forward, stroke: Seq<char>, translation: Seq<char>) -> bool {
    forward.dom().contains(stroke) && forward[stroke] == translation
}

/// In `backward` the stroke stands in the list of this translation.
pub open spec fn lists(backward: Reverse, translation: Seq<char>, stroke: Seq<char>) -> bool {
    backward.dom().contains(translation) && backward[translation].contains(stroke)
}

/// `backward` is `forward` turned round: it lists a stroke under a
/// translation if and only if the stroke has that translation in `forward`,
/// and each of its lists holds a stroke at least and is in ascending order.
pub open spec fn inverts(forward: Forward, backward: Reverse) -> bool {
    &&& forall|translation: Seq<char>, stroke: Seq<char>|
        #![trigger lists(backward, translation, stroke)]
        #![trigger produces(forward, stroke, translation)]
        lists(backward, translation, stroke) <==> produces(forward, stroke, translation)
    &&& forall|translation: Seq<char>| #[trigger]
        backward.dom().contains(translation) ==> backward[translation].len() > 0 && ascending(
            backward[translation],
        )
}

/// What `serde_json::from_slice` returns for `bytes` when it is asked for a
/// `BTreeMap<String, String>`: the entries of the map in the map's order, or
/// nothing where it returns an error.
pub uninterp spec fn json_object(bytes: Seq<u8>) -> Option<Seq<(Seq<char>, Seq<char>)>>;

/// Calls `serde_json::from_slice` for a `BTreeMap<String, String>` and hands
/// out the entries of the map in the map's order, each name as a stroke and
/// each value as a translation. The contract claims no more than that the
/// outcome depends on the bytes alone: it is `json_object` of them, and an
/// error where that is nothing.
#[verifier::external_body]
fn read_object(bytes: &[u8]) -> (outcome: Result<Vec<(Stroke, Translation)>, serde_json::Error>)
    ensures
        match outcome {
            Ok(pairs) => json_object(bytes@) == Some(pair_texts(pairs@)),
            Err(_) => json_object(bytes@) is None,
        },
{
    let members: std::collections::BTreeMap<String, String> = serde_json::from_slice(bytes)?;
    let pair = |(name, value)| (Stroke::new(name), Translation::new(value));
    Ok(members.into_iter().map(pair).collect())
}

/// The mapping that an ascending list of entries stands for.
spec fn mapping(entries: Seq<(Stroke, Translation)>) -> Forward {
    Map::new(
        |stroke: Seq<char>| has_key(entries, stroke),
        |stroke: Seq<char>| entries[place_of(entries, stroke)].1@,
    )
}

/// The mapping that a well-formed list of groups stands for.
spec fn inverse_mapping(groups: Seq<(Translation, Vec<Stroke>)>) -> Reverse {
    Map::new(
        |translation: Seq<char>| has_key(groups, translation),
        |translation: Seq<char>| group_texts(groups, place_of(groups, translation)),
    )
}

/// Enters a pair into an ascending list: in place of the entry with the
/// same stroke, if there is one, else where the order puts it.
fn enter(entries: &mut Vec<(Stroke, Translation)>, stroke: Stroke, translation: Translation)
    requires
        ascending(keys(old(entries)@)),
    ensures
        ascending(keys(final(entries)@)),
        mapping(final(entries)@) == mapping(old(entries)@).insert(stroke@, translation@),
{
    let (at, found) = locate(entries, stroke.as_text());
    let ghost before = entries@;
    let ghost key = stroke@;
    let ghost value = translation@;
    if found {
        entries[at] = (stroke, translation);
    } else {
        entries.insert(at, (stroke, translation));
    }
    proof {
        let after = entries@;
        assert forall|i: int, j: int| 0 <= i < j < after.len() implies text_lt(
            #[trigger] keys(after)[i],
            #[trigger] keys(after)[j],
        ) by {
            if found {
                assert(keys(after)[i] == keys(before)[i]);
                assert(keys(after)[j] == keys(before)[j]);
            } else {
                let bi = if i < at { i } else { i - 1 };
                let bj = if j < at { j } else { j - 1 };
                if i != at {
                    assert(keys(after)[i] == keys(before)[bi]);
                }
                if j != at {
                    assert(keys(after)[j] == keys(before)[bj]);
                }
            }
        }
        assert forall|k: Seq<char>| has_key(after, k) <==> (k == key || has_key(before, k)) by {
            if has_key(after, k) {
                let i = place_of(after, k);
                if found {
                    assert(keys(before)[i] == k);
                } else if i != at {
                    let bi = if i < at { i } else { i - 1 };
                    assert(keys(before)[bi] == k);
                }
            }
            if k == key {
                assert(keys(after)[at as int] == k);
            }
            if has_key(before, k) {
                let i = place_of(before, k);
                if found {
                    assert(keys(after)[i] == k);
                } else {
                    let ai = if i < at { i } else { i + 1 };
                    assert(keys(after)[ai] == k);
                }
            }
        }
        assert forall|k: Seq<char>| has_key(after, k) implies #[trigger] mapping(after)[k]
            == mapping(before).insert(key, value)[k] by {
            let i = place_of(after, k);
            lemma_place_of(after, i);
            if k == key {
                lemma_place_of(after, at as int);
            } else {
                let bi = if found || i < at { i } else { i - 1 };
                assert(keys(before)[bi] == k);
                lemma_place_of(before, bi);
            }
        }
        assert(mapping(after) =~= mapping(before).insert(key, value));
    }
}

/// Groups that hold the entries of a list, and these only, stand for the
/// mapping of the list turned round.
proof fn lemma_groups_invert(
    entries: Seq<(Stroke, Translation)>,
    groups: Seq<(Translation, Vec<Stroke>)>,
)
    requires
        ascending(keys(entries)),
        well_grouped(groups),
        groups_within(entries, groups),
        forall|x: int|
            0 <= x < entries.len() ==> listed(
                groups,
                #[trigger] values(entries)[x],
                keys(entries)[x],
            ),
    ensures
        inverts(mapping(entries), inverse_mapping(groups)),
{
    let forward = mapping(entries);
    let backward = inverse_mapping(groups);
    assert forall|translation: Seq<char>, stroke: Seq<char>|
        produces(forward, stroke, translation) implies lists(backward, translation, stroke) by {
        assert(has_key(entries, stroke));
        let x = place_of(entries, stroke);
        assert(listed(groups, values(entries)[x], keys(entries)[x]));
        let (g, k) = choose|g: int, k: int| listed_at(groups, g, k, translation, stroke);
        lemma_place_of(groups, g);
        assert(backward[translation][k] == stroke);
    }
    assert forall|translation: Seq<char>, stroke: Seq<char>|
        lists(backward, translation, stroke) implies produces(forward, stroke, translation) by {
        let g = place_of(groups, translation);
        let k = choose|k: int|
            0 <= k < backward[translation].len() && backward[translation][k] == stroke;
        assert(has_entry(entries, group_texts(groups, g)[k], keys(groups)[g]));
        let x = choose|x: int| entry_at(entries, x, group_texts(groups, g)[k], keys(groups)[g]);
        lemma_place_of(entries, x);
    }
    assert forall|translation: Seq<char>| #[trigger]
        backward.dom().contains(translation) implies backward[translation].len() > 0 && ascending(
        backward[translation],
    ) by {
        let g = place_of(groups, translation);
        assert(groups[g].1.len() > 0);
    }
}

/// A forward dictionary: each stroke of it has one translation.
#[derive(Debug)]
pub struct Dictionary {
    entries: Vec<(Stroke, Translation)>,
}

impl View for Dictionary {
    type V = Forward;

    closed spec fn view(&self) -> Forward {
        mapping(self.entries@)
    }
}

impl Dictionary {
    /// The entries stand in ascending order of their strokes.
    #[verifier::type_invariant]
    pub closed spec fn well_formed(&self) -> bool {
        ascending(keys(self.entries@))
    }

    /// The dictionary that holds the given pairs. Where a stroke occurs more
    /// than once, its last pair counts.
    pub fn from_pairs(pairs: Vec<(Stroke, Translation)>) -> (dictionary: Dictionary)
        ensures
            dictionary@ == collected(pair_texts(pairs@)),
            dictionary.well_formed(),
    {
        let mut entries: Vec<(Stroke, Translation)> = Vec::new();
        let ghost all = pair_texts(pairs@);
        assert(mapping(entries@) =~= collected(all.take(0)));
        for pair in it: pairs
            invariant
                ascending(keys(entries@)),
                all == pair_texts(pairs@),
                mapping(entries@) == collected(all.take(it.index() as int)),
        {
            let ghost n = it.index() as int;
            assert(all.take(n + 1).drop_last() =~= all.take(n));
            enter(&mut entries, pair.0, pair.1);
        }
        assert(all.take(pairs.len() as int) =~= all);
        Dictionary { entries }
    }

    /// Reads a dictionary from the content of a dictionary file: a JSON
    /// object whose members are strings, each name a stroke and each value
    /// its translation. Any other content is an error, and no part of it is
    /// kept.
    pub fn parse(bytes: &[u8]) -> (outcome: Result<Dictionary, LoadError>)
        ensures
            match json_object(bytes@) {
                Some(pairs) => outcome matches Ok(dictionary) && dictionary@ == collected(pairs)
                    && dictionary.well_formed(),
                None => outcome matches Err(error) && error is Json,
            },
    {
        match read_object(bytes) {
            Ok(pairs) => Ok(Dictionary::from_pairs(pairs)),
            Err(error) => Err(LoadError::from(error)),
        }
    }

    /// Turns the dictionary round. The result lists each stroke under its
    /// translation and under no other, so a translation that no stroke has
    /// is not in it; the strokes of a translation stand in ascending order.
    /// The dictionary itself is used up.
    pub fn invert(self) -> (inverted: InvertedDictionary)
        ensures
            inverts(self@, inverted@),
            inverted.well_formed(),
    {
        proof {
            use_type_invariant(&self);
        }
        let groups = group_by_translation(&self.entries);
        proof {
            lemma_groups_invert(self.entries@, groups@);
        }
        InvertedDictionary { entries: groups }
    }
}

/// A reverse dictionary: each translation of it has the list of the strokes
/// that produce it.
#[derive(Debug, PartialEq, Eq)]
pub struct InvertedDictionary {
    entries: Vec<(Translation, Vec<Stroke>)>,
}

impl View for InvertedDictionary {
    type V = Reverse;

    closed spec fn view(&self) -> Reverse {
        inverse_mapping(self.entries@)
    }
}

impl InvertedDictionary {
    /// The entries stand in ascending order of their translations; each has
    /// a stroke at least, and its strokes ascend.
    #[verifier::type_invariant]
    pub closed spec fn well_formed(&self) -> bool {
        well_grouped(self.entries@)
    }

    /// The strokes that produce `translation`, in ascending order, if there
    /// are any.
    pub fn get(&self, translation: String) -> (strokes: Option<&Vec<Stroke>>)
        ensures
            match strokes {
                Some(list) => self@.dom().contains(translation@) && stroke_texts(list@)
                    == self@[translation@] && ascending(stroke_texts(list@)),
                None => !self@.dom().contains(translation@),
            },
    {
        proof {
            use_type_invariant(self);
        }
        let (at, found) = locate(&self.entries, translation.as_str());
        if found {
            proof {
                lemma_place_of(self.entries@, at as int);
            }
            Some(&self.entries[at].1)
        } else {
            None
        }
    }

    /// The translations with their strokes, in ascending order of the
    /// translations.
    pub fn entries(&self) -> (entries: &Vec<(Translation, Vec<Stroke>)>)
        ensures
            ascending(keys(entries@)),
            forall|translation: Seq<char>|
                self@.dom().contains(translation) <==> has_key(entries@, translation),
            forall|i: int|
                0 <= i < entries.len() ==> self@[#[trigger] keys(entries@)[i]] == stroke_texts(
                    entries[i].1@,
                ),
    {
        proof {
            use_type_invariant(self);
            assert forall|i: int| 0 <= i < self.entries.len() implies self@[#[trigger] keys(
                self.entries@,
            )[i]] == stroke_texts(self.entries[i].1@) by {
                lemma_place_of(self.entries@, i);
            }
        }
        &self.entries
    }
}

/// Round trip: in the inverse of a dictionary each stroke of the dictionary
/// is found under its translation, and under no other translation.
pub proof fn lemma_round_trip(forward: Forward, backward: Reverse, stroke: Seq<char>)
    requires
        inverts(forward, backward),
        forward.dom().contains(stroke),
    ensures
        backward.dom().contains(forward[stroke]),
        backward[forward[stroke]].contains(stroke),
        forall|translation: Seq<char>| #[trigger]
            lists(backward, translation, stroke) ==> translation == forward[stroke],
{
    assert(produces(forward, stroke, forward[stroke]));
    assert(lists(backward, forward[stroke], stroke));
    assert forall|translation: Seq<char>| #[trigger]
        lists(backward, translation, stroke) implies translation == forward[stroke] by {
        assert(produces(forward, stroke, translation));
    }
}

/// Totality: a translation that no stroke of a dictionary has is no key of
/// the inverse of the dictionary.
pub proof fn lemma_absent_translation(forward: Forward, backward: Reverse, translation: Seq<char>)
    requires
        inverts(forward, backward),
        forall|stroke: Seq<char>| forward.dom().contains(stroke) ==> #[trigger] forward[stroke]
            != translation,
    ensures
        !backward.dom().contains(translation),
{
    if backward.dom().contains(translation) {
        let stroke = backward[translation][0];
        assert(lists(backward, translation, stroke));
        assert(produces(forward, stroke, translation));
    }
}

/// Ordering: in the inverse of a dictionary the strokes of each translation
/// are sorted in ascending order, and none of them occurs twice.
pub proof fn lemma_inverse_ascending(forward: Forward, backward: Reverse, translation: Seq<char>)
    requires
        inverts(forward, backward),
        backward.dom().contains(translation),
    ensures
        ascending(backward[translation]),
        backward[translation].no_duplicates(),
{
    lemma_ascending_no_duplicates(backward[translation]);
}

/// A dictionary has one inverse only.
pub proof fn lemma_inverse_unique(forward: Forward, one: Reverse, other: Reverse)
    requires
        inverts(forward, one),
        inverts(forward, other),
    ensures
        one == other,
{
    assert forall|translation: Seq<char>|
        one.dom().contains(translation) <==> other.dom().contains(translation) by {
        if one.dom().contains(translation) {
            let stroke = one[translation][0];
            assert(lists(one, translation, stroke));
            assert(produces(forward, stroke, translation));
            assert(lists(other, translation, stroke));
        }
        if other.dom().contains(translation) {
            let stroke = other[translation][0];
            assert(lists(other, translation, stroke));
            assert(produces(forward, stroke, translation));
            assert(lists(one, translation, stroke));
        }
    }
    assert forall|translation: Seq<char>| one.dom().contains(translation) implies one[translation]
        == other[translation] by {
        let left = one[translation];
        let right = other[translation];
        assert forall|stroke: Seq<char>| left.contains(stroke) <==> right.contains(stroke) by {
            assert(lists(one, translation, stroke) <==> produces(forward, stroke, translation));
            assert(lists(other, translation, stroke) <==> produces(forward, stroke, translation));
        }
        lemma_ascending_unique(left, right);
    }
    assert(one =~= other);
}

/// In every reverse dictionary, however it was made, the strokes of each
/// translation are sorted in ascending order, none of them occurs twice, and
/// there is one at least.
pub proof fn lemma_strokes_ascending(inverted: InvertedDictionary, translation: Seq<char>)
    requires
        inverted.well_formed(),
        inverted@.dom().contains(translation),
    ensures
        ascending(inverted@[translation]),
        inverted@[translation].no_duplicates(),
        inverted@[translation].len() > 0,
{
    let g = place_of(inverted.entries@, translation);
    assert(inverted.entries@[g].1.len() > 0);
    lemma_ascending_no_duplicates(inverted@[translation]);
}

} // verus!
