//! The order of texts.
//!
//! Strokes and translations are texts, modelled as `Seq<char>`. They are
//! ordered lexicographically, character by character, each character by its
//! code point. Every sorted sequence of the library is sorted by this order.

use vstd::prelude::*;
use vstd::std_specs::iter::IteratorSpec;

verus! {

/// `a` comes strictly before `b`: at the first place where they differ `a`
/// has the smaller character, or `a` ends there and `b` goes on.
pub open spec fn text_lt(a: Seq<char>, b: Seq<char>) -> bool
    decreases a.len(),
{
    if b.len() == 0 {
        false
    } else if a.len() == 0 {
        true
    } else if a[0] != b[0] {
        a[0] < b[0]
    } else {
        text_lt(a.drop_first(), b.drop_first())
    }
}

/// Each element comes strictly before every later one: the sequence is
/// sorted and holds nothing twice.
pub open spec fn ascending(s: Seq<Seq<char>>) -> bool {
    forall|i: int, j: int| 0 <= i < j < s.len() ==> text_lt(#[trigger] s[i], #[trigger] s[j])
}

/// How one text stands to another.
#[derive(Clone, Copy, Debug, PartialEq, Eq, Structural)]
pub enum Relation {
    Before,
    Same,
    After,
}

/// The relation of `a` to `b`.
pub open spec fn relation_of(a: Seq<char>, b: Seq<char>) -> Relation {
    if a == b {
        Relation::Same
    } else if text_lt(a, b) {
        Relation::Before
    } else {
        Relation::After
    }
}

/// No text comes before itself.
pub proof fn lemma_lt_irreflexive(a: Seq<char>)
    ensures
        !text_lt(a, a),
    decreases a.len(),
{
    if a.len() > 0 {
        lemma_lt_irreflexive(a.drop_first());
    }
}

/// The order is transitive.
pub proof fn lemma_lt_transitive(a: Seq<char>, b: Seq<char>, c: Seq<char>)
    requires
        text_lt(a, b),
        text_lt(b, c),
    ensures
        text_lt(a, c),
    decreases a.len(),
{
    if a.len() > 0 && a[0] == b[0] && b[0] == c[0] {
        lemma_lt_transitive(a.drop_first(), b.drop_first(), c.drop_first());
    }
}

/// Of two different texts one comes before the other.
pub proof fn lemma_lt_total(a: Seq<char>, b: Seq<char>)
    ensures
        a == b || text_lt(a, b) || text_lt(b, a),
    decreases a.len(),
{
    if a.len() == 0 || b.len() == 0 {
        if a.len() == 0 && b.len() == 0 {
            assert(a =~= b);
        }
    } else if a[0] == b[0] {
        lemma_lt_total(a.drop_first(), b.drop_first());
        if a.drop_first() == b.drop_first() {
            assert(a =~= seq![a[0]] + a.drop_first());
            assert(b =~= seq![b[0]] + b.drop_first());
        }
    }
}

/// No two texts come before each other.
pub proof fn lemma_lt_asymmetric(a: Seq<char>, b: Seq<char>)
    requires
        text_lt(a, b),
    ensures
        !text_lt(b, a),
        a != b,
{
    lemma_lt_irreflexive(a);
    if text_lt(b, a) {
        lemma_lt_transitive(a, b, a);
    }
}

/// An ascending sequence holds nothing twice.
pub proof fn lemma_ascending_no_duplicates(s: Seq<Seq<char>>)
    requires
        ascending(s),
    ensures
        s.no_duplicates(),
{
    assert forall|i: int, j: int| 0 <= i < s.len() && 0 <= j < s.len() && i != j implies s[i]
        != s[j] by {
        if i < j {
            lemma_lt_asymmetric(s[i], s[j]);
        } else {
            lemma_lt_asymmetric(s[j], s[i]);
        }
    }
}

/// Two ascending sequences with the same elements are the same sequence: a
/// set of texts has one ascending order only.
pub proof fn lemma_ascending_unique(a: Seq<Seq<char>>, b: Seq<Seq<char>>)
    requires
        ascending(a),
        ascending(b),
        forall|x: Seq<char>| a.contains(x) <==> b.contains(x),
    ensures
        a == b,
    decreases a.len(),
{
    if a.len() == 0 {
        if b.len() > 0 {
            assert(b.contains(b[0]));
        }
        assert(a =~= b);
    } else {
        assert(a.contains(a.last()));
        assert(b.contains(a.last()));
        assert(b.len() > 0);
        assert(b.contains(b.last()));
        assert(a.contains(b.last()));
        // the last element of each is the greatest of both
        let i = choose|i: int| 0 <= i < b.len() && b[i] == a.last();
        let j = choose|j: int| 0 <= j < a.len() && a[j] == b.last();
        if i < b.len() - 1 {
            assert(text_lt(b[i], b[b.len() - 1]));
            if j < a.len() - 1 {
                assert(text_lt(a[j], a[a.len() - 1]));
                lemma_lt_asymmetric(a.last(), b.last());
            }
        }
        assert(a.last() == b.last());
        let front_a = a.drop_last();
        let front_b = b.drop_last();
        assert forall|x: Seq<char>| front_a.contains(x) <==> front_b.contains(x) by {
            if front_a.contains(x) {
                let k = choose|k: int| 0 <= k < front_a.len() && front_a[k] == x;
                assert(a[k] == x);
                assert(text_lt(a[k], a[a.len() - 1]));
                lemma_lt_asymmetric(x, a.last());
                assert(b.contains(x));
                let l = choose|l: int| 0 <= l < b.len() && b[l] == x;
                assert(front_b[l] == x);
            }
            if front_b.contains(x) {
                let k = choose|k: int| 0 <= k < front_b.len() && front_b[k] == x;
                assert(b[k] == x);
                assert(text_lt(b[k], b[b.len() - 1]));
                lemma_lt_asymmetric(x, b.last());
                assert(a.contains(x));
                let l = choose|l: int| 0 <= l < a.len() && a[l] == x;
                assert(front_a[l] == x);
            }
        }
        assert forall|k: int, l: int| 0 <= k < l < front_a.len() implies text_lt(
            #[trigger] front_a[k],
            #[trigger] front_a[l],
        ) by {
            assert(text_lt(a[k], a[l]));
        }
        assert forall|k: int, l: int| 0 <= k < l < front_b.len() implies text_lt(
            #[trigger] front_b[k],
            #[trigger] front_b[l],
        ) by {
            assert(text_lt(b[k], b[l]));
        }
        lemma_ascending_unique(front_a, front_b);
        assert(a =~= front_a.push(a.last()));
        assert(b =~= front_b.push(b.last()));
    }
}

/// Two texts that begin with the same character stand to each other as
/// their tails do.
proof fn lemma_relation_tail(a: Seq<char>, b: Seq<char>)
    ensures
        a.len() > 0 && b.len() > 0 && a[0] == b[0] ==> relation_of(a, b) == relation_of(
            a.drop_first(),
            b.drop_first(),
        ),
{
    if a.len() > 0 && b.len() > 0 && a[0] == b[0] && a.drop_first() == b.drop_first() {
        assert(a =~= seq![a[0]] + a.drop_first());
        assert(b =~= seq![b[0]] + b.drop_first());
    }
}

/// Compares two texts character by character.
pub fn relate(a: &str, b: &str) -> (r: Relation)
    ensures
        r == relation_of(a@, b@),
{
    broadcast use vstd::string::group_string_axioms;

    let mut left = a.chars();
    let mut right = b.chars();
    loop
        invariant
            relation_of(a@, b@) == relation_of(left.remaining(), right.remaining()),
            left.decrease() is Some,
        decreases left.decrease()->0,
    {
        let ghost before_left = left;
        let ghost before_right = right;
        let x = left.next();
        let y = right.next();
        assert(before_left.remaining().len() == 0 && before_right.remaining().len() == 0
            ==> before_left.remaining() =~= before_right.remaining());
        assert(before_left.remaining().len() > 0 && before_right.remaining().len() > 0
            && before_left.remaining()[0] == before_right.remaining()[0] ==> relation_of(
            before_left.remaining(),
            before_right.remaining(),
        ) == relation_of(left.remaining(), right.remaining())) by {
            lemma_relation_tail(before_left.remaining(), before_right.remaining());
        }
        match (x, y) {
            (None, None) => {
                return Relation::Same;
            },
            (None, Some(_)) => {
                return Relation::Before;
            },
            (Some(_), None) => {
                return Relation::After;
            },
            (Some(c), Some(d)) => {
                if c != d {
                    if c < d {
                        return Relation::Before;
                    } else {
                        return Relation::After;
                    }
                }
            },
        }
    }
}

/// Whether two texts are the same.
pub fn same(a: &str, b: &str) -> (r: bool)
    ensures
        r == (a@ == b@),
{
    relate(a, b) == Relation::Same
}

} // verus!
