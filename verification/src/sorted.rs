//! Texts in ascending order, without repetition.

use vstd::prelude::*;
use crate::text::{
    lemma_text_lt_irreflexive, lemma_text_lt_total, lemma_text_lt_transitive, text_eq, text_less,
    text_lt, views,
};

verus! {

/// Each text sorts before every later one.
pub open spec fn ascending(texts: Seq<Seq<char>>) -> bool {
    forall|i: int, j: int| 0 <= i < j < texts.len() ==> #[trigger] text_lt(texts[i], texts[j])
}

/// The elements of `set` in ascending order.
pub open spec fn in_order(set: Set<Seq<char>>) -> Seq<Seq<char>> {
    choose|texts: Seq<Seq<char>>| ascending(texts) && texts.to_set() == set
}

/// Ascending texts are distinct.
pub proof fn lemma_ascending_distinct(texts: Seq<Seq<char>>)
    requires
        ascending(texts),
    ensures
        texts.no_duplicates(),
{
    assert forall|i: int, j: int| 0 <= i < j < texts.len() implies texts[i] != texts[j] by {
        assert(text_lt(texts[i], texts[j]));
        lemma_text_lt_irreflexive(texts[i]);
    }
}

/// No text in an ascending sequence sorts after its last.
proof fn lemma_last_is_greatest(texts: Seq<Seq<char>>, text: Seq<char>)
    requires
        ascending(texts),
        texts.contains(text),
        text != texts.last(),
    ensures
        text_lt(text, texts.last()),
{
    let i = choose|i: int| 0 <= i < texts.len() && texts[i] == text;
    assert(text_lt(texts[i], texts[texts.len() - 1]));
}

/// A set has only one ascending sequence.
pub proof fn lemma_ascending_unique(a: Seq<Seq<char>>, b: Seq<Seq<char>>)
    requires
        ascending(a),
        ascending(b),
        a.to_set() == b.to_set(),
    ensures
        a == b,
    decreases a.len(),
{
    if a.len() == 0 {
        if b.len() > 0 {
            assert(b.to_set().contains(b[0]));
            assert(a.to_set().contains(b[0]));
        }
        assert(a =~= b);
    } else {
        assert(a.to_set().contains(a.last()));
        assert(b.contains(a.last()));
        assert(b.to_set().contains(b.last()));
        assert(a.contains(b.last()));
        if a.last() != b.last() {
            lemma_last_is_greatest(b, a.last());
            lemma_last_is_greatest(a, b.last());
            lemma_text_lt_transitive(a.last(), b.last(), a.last());
            lemma_text_lt_irreflexive(a.last());
        }
        let c = a.drop_last();
        let d = b.drop_last();
        lemma_ascending_distinct(a);
        lemma_ascending_distinct(b);
        lemma_without_last(a);
        lemma_without_last(b);
        assert(ascending(c)) by {
            assert forall|i: int, j: int| 0 <= i < j < c.len() implies #[trigger] text_lt(
                c[i],
                c[j],
            ) by {
                assert(text_lt(a[i], a[j]));
            }
        }
        assert(ascending(d)) by {
            assert forall|i: int, j: int| 0 <= i < j < d.len() implies #[trigger] text_lt(
                d[i],
                d[j],
            ) by {
                assert(text_lt(b[i], b[j]));
            }
        }
        lemma_ascending_unique(c, d);
        assert(a =~= c.push(a.last()));
        assert(b =~= d.push(b.last()));
    }
}

/// Dropping the last of distinct texts removes just that text.
proof fn lemma_without_last(texts: Seq<Seq<char>>)
    requires
        texts.len() > 0,
        texts.no_duplicates(),
    ensures
        texts.drop_last().to_set() == texts.to_set().remove(texts.last()),
{
    let init = texts.drop_last();
    assert forall|t: Seq<char>| init.to_set().contains(t) <==> texts.to_set().remove(
        texts.last(),
    ).contains(t) by {
        if init.to_set().contains(t) {
            let i = choose|i: int| 0 <= i < init.len() && init[i] == t;
            assert(texts[i] == t && texts[i] != texts[texts.len() - 1]);
            assert(texts.contains(t));
        }
        if texts.to_set().contains(t) && t != texts.last() {
            let i = choose|i: int| 0 <= i < texts.len() && texts[i] == t;
            assert(init[i] == t);
            assert(init.contains(t));
        }
    }
    assert(init.to_set() =~= texts.to_set().remove(texts.last()));
}

/// The ascending sequence of its own set is the sequence itself.
pub proof fn lemma_in_order(texts: Seq<Seq<char>>)
    requires
        ascending(texts),
    ensures
        in_order(texts.to_set()) == texts,
{
    let set = texts.to_set();
    assert(ascending(texts) && texts.to_set() == set);
    lemma_ascending_unique(in_order(set), texts);
}

/// Where `text` stands in an ascending sequence, or where it belongs.
pub struct Place {
    /// The number of texts that sort before it.
    pub index: usize,
    /// Whether it is there.
    pub found: bool,
}

/// Finds the place of `text`.
pub fn place_of(texts: &Vec<String>, text: &str) -> (place: Place)
    requires
        ascending(views(texts@)),
    ensures
        place.index <= texts@.len(),
        forall|i: int| 0 <= i < place.index ==> text_lt(#[trigger] texts@[i]@, text@),
        place.found ==> place.index < texts@.len() && texts@[place.index as int]@ == text@,
        !place.found ==> forall|i: int|
            place.index <= i < texts@.len() ==> text_lt(text@, #[trigger] texts@[i]@),
        place.found <==> views(texts@).contains(text@),
{
    let ghost all = views(texts@);
    let mut i: usize = 0;
    while i < texts.len()
        invariant
            all == views(texts@),
            ascending(all),
            i <= texts@.len(),
            forall|j: int| 0 <= j < i ==> text_lt(#[trigger] texts@[j]@, text@),
        decreases texts@.len() - i,
    {
        if !text_less(texts[i].as_str(), text) {
            let found = text_eq(texts[i].as_str(), text);
            proof {
                assert(all[i as int] == texts@[i as int]@);
                if found {
                    assert(all.contains(text@));
                } else {
                    assert forall|j: int| i <= j < texts@.len() implies text_lt(
                        text@,
                        #[trigger] texts@[j]@,
                    ) by {
                        assert(all[j] == texts@[j]@);
                        if i < j {
                            assert(text_lt(all[i as int], all[j]));
                            lemma_text_lt_transitive(text@, all[i as int], all[j]);
                        }
                    }
                    if all.contains(text@) {
                        let j = choose|j: int| 0 <= j < all.len() && all[j] == text@;
                        assert(all[j] == texts@[j]@);
                        lemma_text_lt_irreflexive(text@);
                    }
                }
            }
            return Place { index: i, found };
        }
        i = i + 1;
    }
    proof {
        if all.contains(text@) {
            let j = choose|j: int| 0 <= j < all.len() && all[j] == text@;
            assert(all[j] == texts@[j]@);
            lemma_text_lt_irreflexive(text@);
        }
    }
    Place { index: i, found: false }
}

/// Putting a text at its place keeps the sequence ascending.
pub proof fn lemma_insert_ascending(texts: Seq<Seq<char>>, index: int, text: Seq<char>)
    requires
        ascending(texts),
        0 <= index <= texts.len(),
        forall|i: int| 0 <= i < index ==> text_lt(#[trigger] texts[i], text),
        forall|i: int| index <= i < texts.len() ==> text_lt(text, #[trigger] texts[i]),
    ensures
        ascending(texts.insert(index, text)),
        texts.insert(index, text).to_set() == texts.to_set().insert(text),
{
    let more = texts.insert(index, text);
    assert forall|i: int, j: int| 0 <= i < j < more.len() implies #[trigger] text_lt(
        more[i],
        more[j],
    ) by {
        let p = if i < index {
            i
        } else {
            i - 1
        };
        let q = if j < index {
            j
        } else {
            j - 1
        };
        if i != index && j != index {
            assert(more[i] == texts[p] && more[j] == texts[q]);
            assert(text_lt(texts[p], texts[q]));
        } else if i == index {
            assert(more[j] == texts[q]);
        } else {
            assert(more[i] == texts[p]);
        }
    }
    assert forall|t: Seq<char>| more.to_set().contains(t) <==> texts.to_set().insert(
        text,
    ).contains(t) by {
        if more.contains(t) {
            let i = choose|i: int| 0 <= i < more.len() && more[i] == t;
            if i < index {
                assert(texts[i] == t);
            } else if i > index {
                assert(texts[i - 1] == t);
            }
        }
        if texts.contains(t) {
            let i = choose|i: int| 0 <= i < texts.len() && texts[i] == t;
            if i < index {
                assert(more[i] == t);
            } else {
                assert(more[i + 1] == t);
            }
        }
        assert(more[index] == text);
    }
    assert(more.to_set() =~= texts.to_set().insert(text));
}

/// A text that is not in an ascending sequence has a place in it.
pub proof fn lemma_has_place(texts: Seq<Seq<char>>, text: Seq<char>) -> (index: int)
    requires
        ascending(texts),
        !texts.contains(text),
    ensures
        0 <= index <= texts.len(),
        forall|i: int| 0 <= i < index ==> text_lt(#[trigger] texts[i], text),
        forall|i: int| index <= i < texts.len() ==> text_lt(text, #[trigger] texts[i]),
    decreases texts.len(),
{
    if texts.len() == 0 {
        0
    } else {
        let end = texts.len() - 1;
        let last = texts[end];
        assert(texts.contains(last));
        lemma_text_lt_total(last, text);
        if text_lt(last, text) {
            assert forall|i: int| 0 <= i < texts.len() implies text_lt(#[trigger] texts[i], text) by {
                if i < end {
                    assert(text_lt(texts[i], texts[end]));
                    lemma_text_lt_transitive(texts[i], last, text);
                }
            }
            texts.len() as int
        } else {
            let init = texts.drop_last();
            assert(ascending(init)) by {
                assert forall|i: int, j: int| 0 <= i < j < init.len() implies #[trigger] text_lt(
                    init[i],
                    init[j],
                ) by {
                    assert(text_lt(texts[i], texts[j]));
                }
            }
            if init.contains(text) {
                let i = choose|i: int| 0 <= i < init.len() && init[i] == text;
                assert(texts[i] == text);
            }
            let index = lemma_has_place(init, text);
            assert forall|i: int| 0 <= i < index implies text_lt(#[trigger] texts[i], text) by {
                assert(init[i] == texts[i]);
            }
            assert forall|i: int| index <= i < texts.len() implies text_lt(
                text,
                #[trigger] texts[i],
            ) by {
                if i < end {
                    assert(init[i] == texts[i]);
                }
            }
            index
        }
    }
}

/// A finite set of texts has an ascending sequence.
pub proof fn lemma_in_order_of_finite(set: Set<Seq<char>>)
    requires
        set.finite(),
    ensures
        ascending(in_order(set)),
        in_order(set).to_set() == set,
    decreases set.len(),
{
    if set.len() == 0 {
        let none = Seq::<Seq<char>>::empty();
        assert(none.to_set() =~= set);
        lemma_in_order(none);
    } else {
        let text = set.choose();
        let fewer = set.remove(text);
        lemma_in_order_of_finite(fewer);
        let texts = in_order(fewer);
        if texts.contains(text) {
            assert(texts.to_set().contains(text));
        }
        let index = lemma_has_place(texts, text);
        lemma_insert_ascending(texts, index, text);
        let more = texts.insert(index, text);
        assert(fewer.insert(text) =~= set);
        lemma_in_order(more);
    }
}

} // verus!
