//! Grouping the entries of a forward dictionary by their translations.
//!
//! The entries are ranked by translation, which brings those with the same
//! translation together and leaves them in the order of their strokes. Each
//! run of the ranking then becomes one group.

use vstd::prelude::*;
use crate::dictionary::{stroke_texts, Stroke, Translation};
use crate::keyed::{keys, Text};
use crate::ranking::{precedes, rank_by_value, ranked, values};
use crate::text::{ascending, lemma_lt_irreflexive, lemma_lt_transitive, same, text_lt};

verus! {

/// Entry `x` has this stroke and this translation.
pub open spec fn entry_at(
    entries: Seq<(Stroke, Translation)>,
    x: int,
    stroke: Seq<char>,
    translation: Seq<char>,
) -> bool {
    &&& 0 <= x < entries.len()
    &&& keys(entries)[x] == stroke
    &&& values(entries)[x] == translation
}

/// Some entry has this stroke and this translation.
pub open spec fn has_entry(
    entries: Seq<(Stroke, Translation)>,
    stroke: Seq<char>,
    translation: Seq<char>,
) -> bool {
    exists|x: int| entry_at(entries, x, stroke, translation)
}

/// The strokes of group `g`, as texts.
pub open spec fn group_texts(groups: Seq<(Translation, Vec<Stroke>)>, g: int) -> Seq<Seq<char>> {
    stroke_texts(groups[g].1@)
}

/// Group `g` is the group of this translation and lists this stroke at
/// place `k`.
pub open spec fn listed_at(
    groups: Seq<(Translation, Vec<Stroke>)>,
    g: int,
    k: int,
    translation: Seq<char>,
    stroke: Seq<char>,
) -> bool {
    &&& 0 <= g < groups.len()
    &&& 0 <= k < groups[g].1.len()
    &&& keys(groups)[g] == translation
    &&& group_texts(groups, g)[k] == stroke
}

/// Some group lists this stroke under this translation.
pub open spec fn listed(
    groups: Seq<(Translation, Vec<Stroke>)>,
    translation: Seq<char>,
    stroke: Seq<char>,
) -> bool {
    exists|g: int, k: int| listed_at(groups, g, k, translation, stroke)
}

/// The translations ascend, and so do the strokes of each group, of which
/// there is one at least.
pub open spec fn well_grouped(groups: Seq<(Translation, Vec<Stroke>)>) -> bool {
    &&& ascending(keys(groups))
    &&& forall|g: int|
        0 <= g < groups.len() ==> (#[trigger] groups[g]).1.len() > 0 && ascending(
            group_texts(groups, g),
        )
}

/// Each stroke that a group lists is the stroke of an entry with the
/// translation of the group.
pub open spec fn groups_within(
    entries: Seq<(Stroke, Translation)>,
    groups: Seq<(Translation, Vec<Stroke>)>,
) -> bool {
    forall|g: int, k: int|
        0 <= g < groups.len() && 0 <= k < groups[g].1.len() ==> has_entry(
            entries,
            #[trigger] group_texts(groups, g)[k],
            keys(groups)[g],
        )
}

/// The groups are well formed and hold the entries at the first `done`
/// places of the order, and these only; the entries that follow have later
/// translations.
spec fn grouped(
    entries: Seq<(Stroke, Translation)>,
    order: Seq<usize>,
    done: int,
    groups: Seq<(Translation, Vec<Stroke>)>,
) -> bool {
    &&& well_grouped(groups)
    &&& groups_within(entries, groups)
    &&& forall|q: int|
        0 <= q < done ==> listed(
            groups,
            values(entries)[#[trigger] order[q] as int],
            keys(entries)[order[q] as int],
        )
    &&& done < order.len() ==> forall|g: int|
        0 <= g < groups.len() ==> text_lt(
            #[trigger] keys(groups)[g],
            values(entries)[order[done] as int],
        )
}

/// One more group, made of the entries at the places `from` up to `to` of
/// the order, which share a translation that the entry at `to` has not.
proof fn lemma_group_added(
    entries: Seq<(Stroke, Translation)>,
    order: Seq<usize>,
    from: int,
    to: int,
    before: Seq<(Translation, Vec<Stroke>)>,
    after: Seq<(Translation, Vec<Stroke>)>,
)
    requires
        ascending(keys(entries)),
        ranked(values(entries), order),
        order.len() == entries.len(),
        0 <= from < to <= order.len(),
        grouped(entries, order, from, before),
        after.len() == before.len() + 1,
        after.take(before.len() as int) == before,
        keys(after)[before.len() as int] == values(entries)[order[from] as int],
        after.last().1.len() == to - from,
        forall|k: int|
            0 <= k < to - from ==> #[trigger] group_texts(after, before.len() as int)[k] == keys(
                entries,
            )[order[from + k] as int],
        forall|q: int|
            from <= q < to ==> values(entries)[#[trigger] order[q] as int] == values(
                entries,
            )[order[from] as int],
        to < order.len() ==> values(entries)[order[to] as int] != values(
            entries,
        )[order[from] as int],
    ensures
        grouped(entries, order, to, after),
{
    let strokes = keys(entries);
    let translations = values(entries);
    let last = before.len() as int;
    let key = translations[order[from] as int];
    assert forall|g: int| 0 <= g < last implies after[g] == before[g] by {
        assert(after.take(last)[g] == after[g]);
    }
    assert forall|g: int| 0 <= g < last implies #[trigger] keys(after)[g] == keys(before)[g] by {
        assert(after[g] == before[g]);
    }
    assert forall|g: int| 0 <= g < last implies #[trigger] group_texts(after, g) == group_texts(
        before,
        g,
    ) by {
        assert(after[g] == before[g]);
    }
    // the translations ascend
    assert forall|g: int, h: int| 0 <= g < h < after.len() implies text_lt(
        #[trigger] keys(after)[g],
        #[trigger] keys(after)[h],
    ) by {
        if h < last {
            assert(text_lt(keys(before)[g], keys(before)[h]));
        } else {
            assert(text_lt(keys(before)[g], key));
        }
    }
    // the strokes of each group ascend
    assert forall|g: int| 0 <= g < after.len() implies (#[trigger] after[g]).1.len() > 0
        && ascending(group_texts(after, g)) by {
        if g < last {
            assert(before[g].1.len() > 0 && ascending(group_texts(before, g)));
        } else {
            let group = group_texts(after, last);
            assert forall|i: int, j: int| 0 <= i < j < group.len() implies text_lt(
                #[trigger] group[i],
                #[trigger] group[j],
            ) by {
                let x = order[from + i];
                let y = order[from + j];
                assert(precedes(translations, x as int, y as int));
                assert(translations[x as int] == key);
                assert(translations[y as int] == key);
                lemma_lt_irreflexive(key);
                assert(text_lt(strokes[x as int], strokes[y as int]));
            }
        }
    }
    // each listed stroke is an entry with that translation
    assert forall|g: int, k: int|
        0 <= g < after.len() && 0 <= k < after[g].1.len() implies has_entry(
        entries,
        #[trigger] group_texts(after, g)[k],
        keys(after)[g],
    ) by {
        if g < last {
            assert(after[g] == before[g]);
            assert(keys(after)[g] == keys(before)[g]);
            assert(group_texts(after, g) == group_texts(before, g));
            assert(has_entry(entries, group_texts(before, g)[k], keys(before)[g]));
        } else {
            let x = order[from + k] as int;
            assert(entry_at(entries, x, group_texts(after, g)[k], keys(after)[g]));
        }
    }
    // each entry so far is listed
    assert forall|q: int| 0 <= q < to implies listed(
        after,
        translations[#[trigger] order[q] as int],
        strokes[order[q] as int],
    ) by {
        let t = translations[order[q] as int];
        let s = strokes[order[q] as int];
        if q < from {
            assert(listed(before, t, s));
            let (g, k) = choose|g: int, k: int| listed_at(before, g, k, t, s);
            assert(after[g] == before[g]);
            assert(keys(after)[g] == keys(before)[g]);
            assert(group_texts(after, g) == group_texts(before, g));
            assert(listed_at(after, g, k, t, s));
        } else {
            assert(group_texts(after, last)[q - from] == s);
            assert(listed_at(after, last, q - from, t, s));
        }
    }
    // what follows has a later translation
    if to < order.len() {
        let following = translations[order[to] as int];
        assert(precedes(translations, order[from] as int, order[to] as int));
        assert(text_lt(key, following));
        assert forall|g: int| 0 <= g < after.len() implies text_lt(
            #[trigger] keys(after)[g],
            following,
        ) by {
            if g < last {
                assert(text_lt(keys(before)[g], key));
                lemma_lt_transitive(keys(before)[g], key, following);
            }
        }
    }
}

/// The groups of the entries of a forward dictionary: one for each
/// translation that an entry has, with the strokes of the entries that have
/// it.
pub(crate) fn group_by_translation(
    entries: &Vec<(Stroke, Translation)>,
) -> (groups: Vec<(Translation, Vec<Stroke>)>)
    requires
        ascending(keys(entries@)),
    ensures
        well_grouped(groups@),
        groups_within(entries@, groups@),
        forall|x: int|
            0 <= x < entries.len() ==> listed(
                groups@,
                #[trigger] values(entries@)[x],
                keys(entries@)[x],
            ),
{
    let order = rank_by_value(entries);
    let count = entries.len();
    let ghost strokes = keys(entries@);
    let ghost translations = values(entries@);
    let mut groups: Vec<(Translation, Vec<Stroke>)> = Vec::new();
    let mut next: usize = 0;
    while next < count
        invariant
            count == entries.len(),
            count == order.len(),
            strokes == keys(entries@),
            translations == values(entries@),
            ascending(strokes),
            ranked(translations, order@),
            next <= count,
            grouped(entries@, order@, next as int, groups@),
        decreases count - next,
    {
        let from = next;
        let ghost before = groups@;
        let translation = Translation::new(entries[order[from]].1.as_text().to_owned());
        let ghost key = translation@;
        let mut group: Vec<Stroke> = Vec::new();
        let mut more = true;
        while more
            invariant
                count == entries.len(),
                count == order.len(),
                strokes == keys(entries@),
                translations == values(entries@),
                ranked(translations, order@),
                from <= next <= count,
                key == translation@,
                more ==> next < count && translations[order[next as int] as int] == key,
                !more ==> from < next && (next < count ==> translations[order[next as int] as int]
                    != key),
                group.len() == next - from,
                forall|k: int|
                    0 <= k < group.len() ==> (#[trigger] group[k])@
                        == strokes[order[from + k] as int],
                forall|q: int| from <= q < next ==> translations[#[trigger] order[q] as int] == key,
            decreases count - next,
        {
            group.push(Stroke::new(entries[order[next]].0.as_text().to_owned()));
            next = next + 1;
            more = next < count && same(entries[order[next]].1.as_text(), translation.as_text());
        }
        groups.push((translation, group));
        proof {
            assert(groups@.take(before.len() as int) =~= before);
            lemma_group_added(entries@, order@, from as int, next as int, before, groups@);
        }
    }
    proof {
        assert forall|x: int| 0 <= x < entries.len() implies listed(
            groups@,
            #[trigger] values(entries@)[x],
            keys(entries@)[x],
        ) by {
            assert(order@.contains(x as usize));
            let q = choose|q: int| 0 <= q < order.len() && order[q] == x as usize;
            assert(listed(groups@, translations[order[q] as int], strokes[order[q] as int]));
        }
    }
    groups
}

} // verus!
