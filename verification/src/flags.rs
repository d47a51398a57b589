//! Sets of feature flags, and the comma-separated text they are stored as.

use vstd::prelude::*;
use vstd::string::StringExecFns;
use crate::sorted::{
    ascending, in_order, lemma_in_order, lemma_in_order_of_finite, lemma_insert_ascending, place_of,
};
use crate::text::{join, lemma_split_join, lemma_split_nonempty, split, split_text, text_lt, views};

verus! {

/// What stands between two flags.
pub const FLAG_SEPARATOR: char = ',';

/// A set of string feature flags.
#[derive(Debug, PartialEq, Eq, Hash, PartialOrd, Ord)]
pub struct Flags {
    flags: Vec<String>,
}

impl View for Flags {
    type V = Set<Seq<char>>;

    closed spec fn view(&self) -> Set<Seq<char>> {
        views(self.flags@).to_set()
    }
}

/// The texts that can be flags, out of a sequence of texts: all but the empty one.
pub open spec fn flags_among(texts: Seq<Seq<char>>) -> Set<Seq<char>> {
    texts.to_set().remove(Seq::empty())
}

/// The text of a set of flags: the flags in ascending order, separated by commas.
pub open spec fn flags_text(flags: Set<Seq<char>>) -> Seq<char> {
    join(in_order(flags), FLAG_SEPARATOR)
}

/// The flags in a text.
pub open spec fn read_flags(text: Seq<char>) -> Set<Seq<char>> {
    flags_among(split(text, FLAG_SEPARATOR))
}

impl Flags {
    /// The flags are kept in ascending order, and none is empty.
    #[verifier::type_invariant]
    pub closed spec fn wf(&self) -> bool {
        &&& ascending(views(self.flags@))
        &&& forall|i: int| 0 <= i < self.flags@.len() ==> (#[trigger] self.flags@[i]@).len() > 0
    }

    /// The flags in ascending order.
    pub fn iter(&self) -> (flags: Vec<&str>)
        ensures
            flags@.map_values(|flag: &str| flag@) == in_order(self@),
            ascending(in_order(self@)),
            in_order(self@).to_set() == self@,
            !self@.contains(Seq::empty()),
    {
        proof {
            use_type_invariant(self);
            lemma_in_order(views(self.flags@));
            if self@.contains(Seq::empty()) {
                let i = choose|i: int|
                    0 <= i < self.flags@.len() && views(self.flags@)[i] == Seq::<char>::empty();
                assert(self.flags@[i]@.len() > 0);
            }
        }
        let ghost all = views(self.flags@);
        let mut flags: Vec<&str> = Vec::new();
        let mut i: usize = 0;
        while i < self.flags.len()
            invariant
                all == views(self.flags@),
                i <= self.flags@.len(),
                flags@.len() == i,
                forall|j: int| 0 <= j < i ==> (#[trigger] flags@[j])@ == all[j],
            decreases self.flags@.len() - i,
        {
            flags.push(self.flags[i].as_str());
            i = i + 1;
        }
        assert(flags@.map_values(|flag: &str| flag@) =~= all);
        flags
    }

    /// The flags as comma-separated text.
    pub fn to_string(&self) -> (text: String)
        ensures
            text@ == flags_text(self@),
    {
        proof {
            use_type_invariant(self);
            lemma_in_order(views(self.flags@));
        }
        let ghost all = views(self.flags@);
        let mut text = String::new();
        let mut i: usize = 0;
        assert(join(all.take(0), FLAG_SEPARATOR) =~= Seq::<char>::empty());
        while i < self.flags.len()
            invariant
                all == views(self.flags@),
                i <= self.flags@.len(),
                text@ == join(all.take(i as int), FLAG_SEPARATOR),
            decreases self.flags@.len() - i,
        {
            assert(all.take(i + 1).drop_last() =~= all.take(i as int));
            assert(all.take(i + 1).last() == self.flags@[i as int]@);
            if i > 0 {
                text.push(FLAG_SEPARATOR);
            }
            text.append(self.flags[i].as_str());
            proof {
                if i == 0 {
                    assert(text@ =~= all.take(1)[0]);
                }
            }
            i = i + 1;
        }
        assert(all.take(all.len() as int) =~= all);
        text
    }

    /// Reads comma-separated flags. Every text can be read.
    pub fn from_str(s: &str) -> (result: Result<Self, ()>)
        ensures
            result matches Ok(flags) && flags@ == read_flags(s@),
    {
        Ok(Flags::from_iter(split_text(s, FLAG_SEPARATOR)))
    }

    /// The set of the given flags; empty texts are left out.
    pub fn from_iter(items: Vec<String>) -> (flags: Self)
        ensures
            flags@ == flags_among(views(items@)),
            flags.wf(),
    {
        let ghost all = views(items@);
        let mut flags: Vec<String> = Vec::new();
        let mut i: usize = 0;
        assert(views(flags@).to_set() =~= flags_among(all.take(0)));
        while i < items.len()
            invariant
                all == views(items@),
                i <= items@.len(),
                ascending(views(flags@)),
                forall|j: int| 0 <= j < flags@.len() ==> (#[trigger] flags@[j]@).len() > 0,
                views(flags@).to_set() == flags_among(all.take(i as int)),
            decreases items@.len() - i,
        {
            let ghost before = flags@;
            let ghost item = all[i as int];
            let ghost seen = all.take(i as int);
            proof {
                assert(all.take(i + 1) =~= seen.push(item));
                lemma_flags_push(seen, item);
            }
            if !items[i].as_str().is_empty() {
                let place = place_of(&flags, items[i].as_str());
                if !place.found {
                    flags.insert(place.index, items[i].clone());
                    proof {
                        assert(views(flags@) =~= views(before).insert(place.index as int, item));
                        assert forall|j: int| 0 <= j < place.index implies text_lt(
                            #[trigger] views(before)[j],
                            item,
                        ) by {
                            assert(views(before)[j] == before[j]@);
                        }
                        assert forall|j: int|
                            place.index <= j < views(before).len() implies text_lt(
                            item,
                            #[trigger] views(before)[j],
                        ) by {
                            assert(views(before)[j] == before[j]@);
                        }
                        lemma_insert_ascending(views(before), place.index as int, item);
                        assert forall|j: int| 0 <= j < flags@.len() implies (#[trigger] flags@[j]@).len()
                            > 0 by {
                            if j < place.index {
                                assert(flags@[j] == before[j]);
                            } else if j > place.index {
                                assert(flags@[j] == before[j - 1]);
                            }
                        }
                    }
                } else {
                    assert(views(before).to_set().insert(item) =~= views(before).to_set());
                }
            } else {
                assert(item =~= Seq::<char>::empty());
            }
            i = i + 1;
        }
        assert(all.take(all.len() as int) =~= all);
        Flags { flags }
    }
}

impl std::str::FromStr for Flags {
    /// Infallible
    type Err = ();

    fn from_str(s: &str) -> (result: Result<Self, ()>)
        ensures
            result matches Ok(flags) && flags@ == read_flags(s@),
    {
        Flags::from_str(s)
    }
}

impl Clone for Flags {
    fn clone(&self) -> (flags: Self)
        ensures
            flags@ == self@,
            flags.wf(),
    {
        proof {
            use_type_invariant(self);
        }
        let flags = self.flags.clone();
        assert(flags@ =~= self.flags@);
        Flags { flags }
    }
}

impl Default for Flags {
    fn default() -> (flags: Self)
        ensures
            flags@ == Set::<Seq<char>>::empty(),
            flags.wf(),
    {
        let flags = Flags { flags: Vec::new() };
        assert(flags@ =~= Set::<Seq<char>>::empty());
        flags
    }
}

/// One more text adds a flag, unless it is empty.
proof fn lemma_flags_push(texts: Seq<Seq<char>>, text: Seq<char>)
    ensures
        flags_among(texts.push(text)) == if text.len() == 0 {
            flags_among(texts)
        } else {
            flags_among(texts).insert(text)
        },
{
    let more = texts.push(text);
    assert forall|t: Seq<char>| more.contains(t) <==> texts.contains(t) || t == text by {
        if more.contains(t) {
            let i = choose|i: int| 0 <= i < more.len() && more[i] == t;
            if i < texts.len() {
                assert(texts[i] == t);
            }
        }
        if texts.contains(t) {
            let i = choose|i: int| 0 <= i < texts.len() && texts[i] == t;
            assert(more[i] == t);
        }
        assert(more[texts.len() as int] == text);
    }
    if text.len() == 0 {
        assert(text =~= Seq::<char>::empty());
        assert(flags_among(more) =~= flags_among(texts));
    } else {
        assert(flags_among(more) =~= flags_among(texts).insert(text));
    }
}

/// Whether a set of flags can be read from its text: it is finite, and no flag is empty or holds a
/// comma.
pub open spec fn are_plain(flags: Set<Seq<char>>) -> bool {
    &&& flags.finite()
    &&& forall|flag: Seq<char>| #[trigger]
        flags.contains(flag) ==> flag.len() > 0 && !flag.contains(FLAG_SEPARATOR)
}

/// No piece of a text holds the separator at which it was split.
proof fn lemma_pieces_are_plain(text: Seq<char>, separator: char)
    ensures
        forall|i: int|
            0 <= i < split(text, separator).len() ==> !(#[trigger] split(
                text,
                separator,
            )[i]).contains(separator),
    decreases text.len(),
{
    let pieces = split(text, separator);
    if text.len() > 0 {
        let before = split(text.drop_last(), separator);
        lemma_pieces_are_plain(text.drop_last(), separator);
        lemma_split_nonempty(text.drop_last(), separator);
        assert forall|i: int| 0 <= i < pieces.len() implies !(#[trigger] pieces[i]).contains(
            separator,
        ) by {
            if pieces[i].contains(separator) {
                let n = choose|n: int| 0 <= n < pieces[i].len() && pieces[i][n] == separator;
                if text.last() == separator {
                    assert(i < before.len());
                    assert(before[i].contains(separator));
                } else if i == before.len() - 1 {
                    assert(pieces[i] == before.last().push(text.last()));
                    assert(before[i][n] == separator);
                    assert(before[i].contains(separator));
                } else {
                    assert(before[i].contains(separator));
                }
            }
        }
    } else {
        assert forall|i: int| 0 <= i < pieces.len() implies !(#[trigger] pieces[i]).contains(
            separator,
        ) by {
            assert(pieces[i].len() == 0);
        }
    }
}

/// Flags that were read from a text can be read from their own text.
pub proof fn law_read_flags_are_plain(text: Seq<char>)
    ensures
        are_plain(read_flags(text)),
        read_flags(flags_text(read_flags(text))) == read_flags(text),
{
    let pieces = split(text, FLAG_SEPARATOR);
    lemma_pieces_are_plain(text, FLAG_SEPARATOR);
    let flags = read_flags(text);
    assert forall|flag: Seq<char>| #[trigger] flags.contains(flag) implies flag.len() > 0
        && !flag.contains(FLAG_SEPARATOR) by {
        let i = choose|i: int| 0 <= i < pieces.len() && pieces[i] == flag;
        if flag.len() == 0 {
            assert(flag =~= Seq::<char>::empty());
        }
    }
    law_flags_round_trip(flags);
}

/// Reading the text of a set of flags gives the set back, as long as no flag holds a comma.
pub proof fn law_flags_round_trip(flags: Set<Seq<char>>)
    requires
        are_plain(flags),
    ensures
        read_flags(flags_text(flags)) == flags,
{
    let names = in_order(flags);
    lemma_in_order_of_finite(flags);
    assert forall|i: int| 0 <= i < names.len() implies !(#[trigger] names[i]).contains(
        FLAG_SEPARATOR,
    ) && names[i].len() > 0 by {
        assert(names.to_set().contains(names[i]));
    }
    if names.len() == 0 {
        assert(split(Seq::empty(), FLAG_SEPARATOR) =~= seq![Seq::<char>::empty()]);
    } else {
        lemma_split_join(names, FLAG_SEPARATOR);
    }
    assert(read_flags(flags_text(flags)) =~= flags);
}

/// Two sets of flags without commas that have the same text are the same set.
pub proof fn law_flags_text_injective(a: Set<Seq<char>>, b: Set<Seq<char>>)
    requires
        are_plain(a),
        are_plain(b),
        flags_text(a) == flags_text(b),
    ensures
        a == b,
{
    law_flags_round_trip(a);
    law_flags_round_trip(b);
}

/// A flag is read from a text just if it is a piece of the text between commas, and not empty.
pub proof fn law_read_flags(text: Seq<char>, flag: Seq<char>)
    ensures
        read_flags(text).contains(flag) <==> flag.len() > 0 && split(text, ',').contains(flag),
{
    if flag.len() == 0 {
        assert(flag =~= Seq::<char>::empty());
    }
}

/// The flags among some texts are the texts that are not empty.
pub proof fn law_flags_among(texts: Seq<Seq<char>>, flag: Seq<char>)
    ensures
        flags_among(texts).contains(flag) <==> flag.len() > 0 && texts.contains(flag),
{
    if flag.len() == 0 {
        assert(flag =~= Seq::<char>::empty());
    }
}

/// The text of a set of flags holds the flags in ascending order, with a comma between each two
/// neighbours. The text of no flags is empty.
pub proof fn law_flags_text(names: Seq<Seq<char>>)
    requires
        ascending(names),
    ensures
        names.len() == 0 ==> flags_text(names.to_set()).len() == 0,
        names.len() == 1 ==> flags_text(names.to_set()) == names[0],
        names.len() > 1 ==> flags_text(names.to_set()) == flags_text(
            names.drop_last().to_set(),
        ).push(',') + names.last(),
{
    lemma_in_order(names);
    if names.len() > 1 {
        let init = names.drop_last();
        assert forall|i: int, j: int| 0 <= i < j < init.len() implies #[trigger] text_lt(
            init[i],
            init[j],
        ) by {
            assert(text_lt(names[i], names[j]));
        }
        lemma_in_order(init);
    }
}

} // verus!
