//! Text as sequences of characters: comparison, splitting and joining.

use vstd::prelude::*;

verus! {

/// `String::push` appends one character.
pub assume_specification[ String::push ](text: &mut String, c: char)
    ensures
        final(text)@ == old(text)@.push(c),
;

/// The characters of `text`, in order.
pub fn chars_of(text: &str) -> (chars: Vec<char>)
    ensures
        chars@ == text@,
{
    let mut chars: Vec<char> = Vec::new();
    for c in it: text.chars()
        invariant
            it.seq() == text@,
            chars@ == it.seq().take(it.index()),
    {
        chars.push(c);
        assert(it.seq().take(it.index() + 1) =~= it.seq().take(it.index()).push(c));
    }
    assert(text@.take(text@.len() as int) =~= text@);
    chars
}

/// The text whose characters are those of `chars` from `from` up to `to`.
pub fn text_of(chars: &Vec<char>, from: usize, to: usize) -> (text: String)
    requires
        from <= to <= chars@.len(),
    ensures
        text@ == chars@.subrange(from as int, to as int),
{
    let mut text = String::new();
    let mut i: usize = from;
    while i < to
        invariant
            from <= i <= to <= chars@.len(),
            text@ == chars@.subrange(from as int, i as int),
        decreases to - i,
    {
        text.push(chars[i]);
        i = i + 1;
        assert(chars@.subrange(from as int, i as int) =~= chars@.subrange(
            from as int,
            i - 1,
        ).push(chars@[i - 1]));
    }
    text
}

/// Whether two texts hold the same characters.
pub fn text_eq(a: &str, b: &str) -> (equal: bool)
    ensures
        equal == (a@ == b@),
{
    let x = chars_of(a);
    let y = chars_of(b);
    if x.len() != y.len() {
        return false;
    }
    let mut i: usize = 0;
    while i < x.len()
        invariant
            x@ == a@,
            y@ == b@,
            x@.len() == y@.len(),
            i <= x@.len(),
            forall|j: int| 0 <= j < i ==> x@[j] == y@[j],
        decreases x@.len() - i,
    {
        if x[i] != y[i] {
            assert(a@[i as int] != b@[i as int]);
            return false;
        }
        i = i + 1;
    }
    assert(a@ =~= b@);
    true
}

/// `a` and `b` agree on their first `n` characters, and `a` either ends there while `b` goes on,
/// or has the smaller code point there.
pub open spec fn lt_at(a: Seq<char>, b: Seq<char>, n: int) -> bool {
    &&& 0 <= n <= a.len()
    &&& n < b.len()
    &&& forall|i: int| 0 <= i < n ==> a[i] == b[i]
    &&& n == a.len() || (a[n] as int) < (b[n] as int)
}

/// Lexicographic order by code point. It is the order of `String`, and that of SQLite's `BINARY`
/// collation on UTF-8 text (see [`crate::collation`]).
pub open spec fn text_lt(a: Seq<char>, b: Seq<char>) -> bool {
    exists|n: int| lt_at(a, b, n)
}

/// The order is irreflexive.
pub proof fn lemma_text_lt_irreflexive(a: Seq<char>)
    ensures
        !text_lt(a, a),
{
}

/// The order is transitive.
pub proof fn lemma_text_lt_transitive(a: Seq<char>, b: Seq<char>, c: Seq<char>)
    requires
        text_lt(a, b),
        text_lt(b, c),
    ensures
        text_lt(a, c),
{
    let n = choose|n: int| lt_at(a, b, n);
    let m = choose|m: int| lt_at(b, c, m);
    if n <= m {
        assert(lt_at(a, c, n));
    } else {
        assert(lt_at(a, c, m));
    }
}

/// Of two different texts, one sorts before the other.
pub proof fn lemma_text_lt_total(a: Seq<char>, b: Seq<char>)
    ensures
        a == b || text_lt(a, b) || text_lt(b, a),
{
    lemma_text_lt_total_from(a, b, 0);
}

/// As above, for texts that agree on their first `n` characters.
proof fn lemma_text_lt_total_from(a: Seq<char>, b: Seq<char>, n: int)
    requires
        0 <= n <= a.len(),
        n <= b.len(),
        forall|i: int| 0 <= i < n ==> a[i] == b[i],
    ensures
        a == b || text_lt(a, b) || text_lt(b, a),
    decreases a.len() - n,
{
    if n == a.len() && n == b.len() {
        assert(a =~= b);
    } else if n == a.len() {
        assert(lt_at(a, b, n));
    } else if n == b.len() {
        assert(lt_at(b, a, n));
    } else if a[n] == b[n] {
        lemma_text_lt_total_from(a, b, n + 1);
    } else if (a[n] as int) < (b[n] as int) {
        assert(lt_at(a, b, n));
    } else {
        assert(lt_at(b, a, n));
    }
}

/// The code point of `c`.
fn code_point(c: char) -> (n: u32)
    ensures
        n == c as int,
{
    c as u32
}

/// Whether `a` sorts before `b`.
pub fn text_less(a: &str, b: &str) -> (less: bool)
    ensures
        less == text_lt(a@, b@),
        !less ==> a@ == b@ || text_lt(b@, a@),
{
    let x = chars_of(a);
    let y = chars_of(b);
    let mut i: usize = 0;
    while i < x.len() && i < y.len()
        invariant
            x@ == a@,
            y@ == b@,
            i <= x@.len(),
            i <= y@.len(),
            forall|j: int| 0 <= j < i ==> x@[j] == y@[j],
        decreases x@.len() - i,
    {
        let p: char = x[i];
        let q: char = y[i];
        if p != q {
            let less = code_point(p) < code_point(q);
            proof {
                if less {
                    assert(lt_at(a@, b@, i as int));
                } else {
                    assert(lt_at(b@, a@, i as int));
                    if text_lt(a@, b@) {
                        lemma_text_lt_transitive(a@, b@, a@);
                        lemma_text_lt_irreflexive(a@);
                    }
                }
            }
            return less;
        }
        i = i + 1;
    }
    let less = i < y.len();
    proof {
        if less {
            assert(lt_at(a@, b@, i as int));
        } else if i < x.len() {
            assert(lt_at(b@, a@, i as int));
            if text_lt(a@, b@) {
                lemma_text_lt_transitive(a@, b@, a@);
                lemma_text_lt_irreflexive(a@);
            }
        } else {
            assert(a@ =~= b@);
            lemma_text_lt_irreflexive(a@);
        }
    }
    less
}

/// The pieces of `s` between the occurrences of `separator`; there is always at least one.
pub open spec fn split(s: Seq<char>, separator: char) -> Seq<Seq<char>>
    decreases s.len(),
{
    if s.len() == 0 {
        seq![Seq::empty()]
    } else {
        let pieces = split(s.drop_last(), separator);
        if s.last() == separator {
            pieces.push(Seq::empty())
        } else {
            pieces.update(pieces.len() - 1, pieces.last().push(s.last()))
        }
    }
}

/// The texts of `pieces`, with `separator` between each two neighbours.
pub open spec fn join(pieces: Seq<Seq<char>>, separator: char) -> Seq<char>
    decreases pieces.len(),
{
    if pieces.len() == 0 {
        Seq::empty()
    } else if pieces.len() == 1 {
        pieces[0]
    } else {
        join(pieces.drop_last(), separator).push(separator) + pieces.last()
    }
}

/// There is always a piece.
pub proof fn lemma_split_nonempty(s: Seq<char>, separator: char)
    ensures
        split(s, separator).len() > 0,
    decreases s.len(),
{
    if s.len() > 0 {
        lemma_split_nonempty(s.drop_last(), separator);
    }
}

/// Text without a separator only lengthens the last piece.
pub proof fn lemma_split_append(s: Seq<char>, t: Seq<char>, separator: char)
    requires
        !t.contains(separator),
    ensures
        split(s + t, separator) == split(s, separator).update(
            split(s, separator).len() - 1,
            split(s, separator).last() + t,
        ),
    decreases t.len(),
{
    let before = split(s, separator);
    lemma_split_nonempty(s, separator);
    if t.len() == 0 {
        assert(s + t =~= s);
        assert(before.last() + t =~= before.last());
        assert(before.update(before.len() - 1, before.last()) =~= before);
    } else {
        let init = t.drop_last();
        assert(t[t.len() - 1] != separator);
        assert(!init.contains(separator)) by {
            if init.contains(separator) {
                let i = choose|i: int| 0 <= i < init.len() && init[i] == separator;
                assert(t[i] == separator);
            }
        }
        lemma_split_append(s, init, separator);
        assert((s + t).drop_last() =~= s + init);
        assert(before.last() + t =~= (before.last() + init).push(t.last()));
        assert(split(s + t, separator) =~= before.update(before.len() - 1, before.last() + t));
    }
}

/// Splitting what was joined gives the pieces back, as long as none of them holds the separator.
pub proof fn lemma_split_join(pieces: Seq<Seq<char>>, separator: char)
    requires
        pieces.len() > 0,
        forall|i: int| 0 <= i < pieces.len() ==> !(#[trigger] pieces[i]).contains(separator),
    ensures
        split(join(pieces, separator), separator) == pieces,
    decreases pieces.len(),
{
    let last = pieces.last();
    if pieces.len() == 1 {
        let empty = Seq::<char>::empty();
        lemma_split_append(empty, last, separator);
        assert(empty + last =~= last);
        assert(split(empty, separator) =~= seq![empty]);
        assert(split(last, separator) =~= pieces);
    } else {
        let init = pieces.drop_last();
        let head = join(init, separator).push(separator);
        assert forall|i: int| 0 <= i < init.len() implies !(#[trigger] init[i]).contains(
            separator,
        ) by {
            assert(init[i] == pieces[i]);
        }
        lemma_split_join(init, separator);
        assert(head.drop_last() =~= join(init, separator));
        assert(split(head, separator) =~= init.push(Seq::empty()));
        lemma_split_append(head, last, separator);
        assert(Seq::<char>::empty() + last =~= last);
        assert(split(head + last, separator) =~= pieces);
    }
}

/// The contents of each text.
pub open spec fn views(texts: Seq<String>) -> Seq<Seq<char>> {
    texts.map_values(|text: String| text@)
}

/// The pieces of `text` between the occurrences of `separator`.
pub fn split_text(text: &str, separator: char) -> (pieces: Vec<String>)
    ensures
        views(pieces@) == split(text@, separator),
{
    let chars = chars_of(text);
    let mut pieces: Vec<String> = Vec::new();
    let mut piece = String::new();
    let mut i: usize = 0;
    assert(views(pieces@).push(piece@) =~= split(text@.take(0), separator));
    while i < chars.len()
        invariant
            chars@ == text@,
            i <= chars@.len(),
            views(pieces@).push(piece@) == split(text@.take(i as int), separator),
        decreases chars@.len() - i,
    {
        let c: char = chars[i];
        let ghost before = views(pieces@).push(piece@);
        let ghost more = text@.take(i + 1);
        assert(more.drop_last() =~= text@.take(i as int));
        if c == separator {
            pieces.push(piece);
            piece = String::new();
            assert(views(pieces@) =~= before);
            assert(piece@ =~= Seq::<char>::empty());
            assert(split(more, separator) == before.push(Seq::empty()));
        } else {
            piece.push(c);
            assert(views(pieces@).push(piece@) =~= split(more, separator));
        }
        i = i + 1;
    }
    assert(text@.take(text@.len() as int) =~= text@);
    let ghost done = views(pieces@).push(piece@);
    pieces.push(piece);
    assert(views(pieces@) =~= done);
    pieces
}

/// Joining the pieces of a text gives the text back, there is always a piece, and no piece holds the
/// separator. Only one way of taking a text apart does that.
pub proof fn law_split(s: Seq<char>, separator: char)
    ensures
        split(s, separator).len() > 0,
        join(split(s, separator), separator) == s,
        forall|i: int|
            0 <= i < split(s, separator).len() ==> !(#[trigger] split(s, separator)[i]).contains(
                separator,
            ),
    decreases s.len(),
{
    let pieces = split(s, separator);
    if s.len() > 0 {
        let before = split(s.drop_last(), separator);
        law_split(s.drop_last(), separator);
        let last = before.last();
        assert(before.drop_last().push(last) =~= before);
        if s.last() == separator {
            assert(pieces.drop_last() =~= before);
            assert(join(pieces, separator) =~= s);
        } else {
            assert(pieces.drop_last() =~= before.drop_last());
            assert(pieces.last() == last.push(s.last()));
            assert(s =~= s.drop_last().push(s.last()));
            if before.len() == 1 {
                assert(before[0] == last);
                assert(pieces[0] == last.push(s.last()));
            } else {
                assert(join(pieces, separator) =~= s);
            }
        }
        assert forall|i: int| 0 <= i < pieces.len() implies !(#[trigger] pieces[i]).contains(
            separator,
        ) by {
            if pieces[i].contains(separator) {
                let n = choose|n: int| 0 <= n < pieces[i].len() && pieces[i][n] == separator;
                if s.last() == separator {
                    assert(i < before.len());
                    assert(before[i].contains(separator));
                } else if i == before.len() - 1 {
                    assert(before[i][n] == separator);
                    assert(before[i].contains(separator));
                } else {
                    assert(before[i].contains(separator));
                }
            }
        }
    } else {
        assert(join(pieces, separator) =~= s);
    }
}

/// Joining puts a separator before each piece but the first.
pub proof fn law_join(pieces: Seq<Seq<char>>, piece: Seq<char>, separator: char)
    ensures
        join(Seq::empty(), separator).len() == 0,
        join(seq![piece], separator) == piece,
        pieces.len() > 0 ==> join(pieces.push(piece), separator) == join(pieces, separator).push(
            separator,
        ) + piece,
{
    assert(pieces.push(piece).drop_last() =~= pieces);
}

/// The contents of texts are those of each text, in their order.
pub proof fn law_views(texts: Seq<String>)
    ensures
        views(texts).len() == texts.len(),
        forall|i: int| 0 <= i < texts.len() ==> #[trigger] views(texts)[i] == texts[i]@,
{
}

} // verus!
