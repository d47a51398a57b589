//! The expressions of a `SELECT` statement, read from its text.
//!
//! A statement for parts of a value selects calls of `substr` on the column `v`, separated by commas.
//! Here they are taken apart as the engine takes them apart: the list of columns at the commas outside
//! of brackets, a call at the commas between its brackets, and a number digit by digit.

use vstd::prelude::*;
use crate::keys::ByteRange;
use crate::numeral::{all_digits, decimal, digits_value, is_digit, lemma_decimal_value};
use crate::queries::{select_text, substr_text, substrs_text};
use crate::text::{join, lemma_split_join, split};

verus! {

/// What stands between an opening and a closing text.
pub open spec fn inside(text: Seq<char>, open: Seq<char>, close: Seq<char>) -> Option<Seq<char>> {
    let end = text.len() - close.len();
    if open.len() <= end && text.take(open.len() as int) == open && text.skip(end) == close {
        Some(text.subrange(open.len() as int, end))
    } else {
        None
    }
}

/// How many brackets a text leaves open.
pub open spec fn depth(text: Seq<char>) -> int
    decreases text.len(),
{
    if text.len() == 0 {
        0
    } else if text.last() == '(' {
        depth(text.drop_last()) + 1
    } else if text.last() == ')' {
        depth(text.drop_last()) - 1
    } else {
        depth(text.drop_last())
    }
}

/// The pieces of a list between the commas that stand outside of brackets.
pub open spec fn columns(list: Seq<char>) -> Seq<Seq<char>>
    decreases list.len(),
{
    if list.len() == 0 {
        seq![Seq::empty()]
    } else {
        let before = columns(list.drop_last());
        if list.last() == ',' && depth(list.drop_last()) == 0 {
            before.push(Seq::empty())
        } else {
            before.update(before.len() - 1, before.last().push(list.last()))
        }
    }
}

/// A text without the blanks at its start.
pub open spec fn trimmed(text: Seq<char>) -> Seq<char>
    decreases text.len(),
{
    if text.len() > 0 && text[0] == ' ' {
        trimmed(text.skip(1))
    } else {
        text
    }
}

/// The integer that a numeral denotes: digits, with a minus sign or without.
pub open spec fn read_integer(text: Seq<char>) -> Option<int> {
    let negative = text.len() > 0 && text[0] == '-';
    let digits = if negative {
        text.skip(1)
    } else {
        text
    };
    if digits.len() > 0 && all_digits(digits) {
        if negative {
            Some(-(digits_value(digits) as int))
        } else {
            Some(digits_value(digits) as int)
        }
    } else {
        None
    }
}

/// A call of `substr` on the column `v`: where it starts, and how long it is, if that is given.
pub struct Call {
    pub start: int,
    pub length: Option<int>,
}

/// Whether the numbers of a call fit into 64 bits. Others are no integers to the engine.
pub open spec fn is_engine_call(call: Call) -> bool {
    &&& -i64::MAX <= call.start <= i64::MAX
    &&& call.length matches Some(length) ==> length <= i64::MAX
}

/// The call that an expression is.
pub open spec fn read_call(expression: Seq<char>) -> Option<Call> {
    match inside(expression, "substr("@, ")"@) {
        Some(inner) => {
            let arguments = split(inner, ',');
            if arguments.len() < 2 || trimmed(arguments[0]) != "v"@ {
                None
            } else if arguments.len() == 2 {
                match read_integer(trimmed(arguments[1])) {
                    Some(start) => Some(Call { start, length: None }),
                    None => None,
                }
            } else if arguments.len() == 3 {
                match (read_integer(trimmed(arguments[1])), read_integer(trimmed(arguments[2]))) {
                    (Some(start), Some(length)) => if length >= 0 {
                        Some(Call { start, length: Some(length) })
                    } else {
                        None
                    },
                    _ => None,
                }
            } else {
                None
            }
        },
        None => None,
    }
}

/// The calls that a statement selects for the value of a key, column by column.
pub open spec fn read_calls(sql: Seq<char>) -> Option<Seq<Call>> {
    match inside(sql, "SELECT "@, " FROM zarr WHERE k = ? LIMIT 1;"@) {
        Some(list) => {
            let pieces = columns(list);
            if forall|i: int|
                0 <= i < pieces.len() ==> read_call(trimmed(#[trigger] pieces[i])) is Some {
                Some(Seq::new(pieces.len(), |i: int| read_call(trimmed(pieces[i]))->0))
            } else {
                None
            }
        },
        None => None,
    }
}

/// What stands between two texts is what was put there.
proof fn lemma_inside(open: Seq<char>, inner: Seq<char>, close: Seq<char>)
    ensures
        inside(open + inner + close, open, close) == Some(inner),
{
    let text = open + inner + close;
    let end = text.len() - close.len();
    assert(text.take(open.len() as int) =~= open);
    assert(text.skip(end) =~= close);
    assert(text.subrange(open.len() as int, end) =~= inner);
}

/// The brackets of two texts add up.
proof fn lemma_depth_concat(a: Seq<char>, b: Seq<char>)
    ensures
        depth(a + b) == depth(a) + depth(b),
    decreases b.len(),
{
    if b.len() == 0 {
        assert(a + b =~= a);
    } else {
        assert((a + b).drop_last() =~= a + b.drop_last());
        assert((a + b).last() == b.last());
        lemma_depth_concat(a, b.drop_last());
    }
}

/// A text without brackets leaves none open.
proof fn lemma_depth_flat(text: Seq<char>)
    requires
        !text.contains('('),
        !text.contains(')'),
    ensures
        depth(text) == 0,
    decreases text.len(),
{
    if text.len() > 0 {
        let init = text.drop_last();
        assert(text[text.len() - 1] != '(' && text[text.len() - 1] != ')');
        assert forall|c: char| init.contains(c) implies text.contains(c) by {
            let i = choose|i: int| 0 <= i < init.len() && init[i] == c;
            assert(text[i] == c);
        }
        lemma_depth_flat(init);
    }
}

/// There is always a piece.
proof fn lemma_columns_nonempty(list: Seq<char>)
    ensures
        columns(list).len() > 0,
    decreases list.len(),
{
    if list.len() > 0 {
        lemma_columns_nonempty(list.drop_last());
    }
}

/// A text whose commas all stand inside of brackets only lengthens the last piece.
proof fn lemma_columns_extend(list: Seq<char>, more: Seq<char>)
    requires
        forall|i: int|
            0 <= i < more.len() && #[trigger] more[i] == ',' ==> depth(list + more.take(i)) != 0,
    ensures
        columns(list + more) == columns(list).update(
            columns(list).len() - 1,
            columns(list).last() + more,
        ),
    decreases more.len(),
{
    let before = columns(list);
    lemma_columns_nonempty(list);
    if more.len() == 0 {
        assert(list + more =~= list);
        assert(before.last() + more =~= before.last());
        assert(before.update(before.len() - 1, before.last()) =~= before);
    } else {
        let init = more.drop_last();
        let n = more.len() - 1;
        assert forall|i: int| 0 <= i < init.len() && #[trigger] init[i] == ',' implies depth(
            list + init.take(i),
        ) != 0 by {
            assert(more[i] == ',');
            assert(init.take(i) =~= more.take(i));
        }
        lemma_columns_extend(list, init);
        assert((list + more).drop_last() =~= list + init);
        assert(more.take(n) =~= init);
        assert((list + more).last() == more[n]);
        assert(before.last() + more =~= (before.last() + init).push(more.last()));
        assert(columns(list + more) =~= before.update(before.len() - 1, before.last() + more));
    }
}

/// A numeral holds nothing but digits.
proof fn lemma_decimal_lacks(n: nat, c: char)
    requires
        !is_digit(c),
    ensures
        !decimal(n).contains(c),
        decimal(n)[0] != c,
{
    lemma_decimal_value(n);
    assert(is_digit(decimal(n)[0]));
    if decimal(n).contains(c) {
        let i = choose|i: int| 0 <= i < decimal(n).len() && decimal(n)[i] == c;
        assert(is_digit(decimal(n)[i]));
    }
}

/// What is written between the brackets of a call: the column and the numbers, separated by commas.
pub open spec fn arguments_text(range: ByteRange) -> Seq<char> {
    match range {
        ByteRange::FromStart(offset, Some(length)) => "v, "@ + decimal((offset + 1) as nat) + ", "@
            + decimal(length as nat),
        ByteRange::FromStart(offset, None) => "v, "@ + decimal((offset + 1) as nat),
        ByteRange::Suffix(length) => if length == 0 {
            "v, 1, 0"@
        } else {
            "v, -"@ + decimal(length as nat)
        },
    }
}

/// The expression for a range is a call.
proof fn lemma_substr_text(range: ByteRange)
    ensures
        substr_text("v"@, range) == "substr("@ + arguments_text(range) + ")"@,
{
    reveal_strlit("v");
    reveal_strlit("v, ");
    reveal_strlit(", ");
    reveal_strlit("v, -");
    reveal_strlit(", -");
    reveal_strlit(")");
    reveal_strlit(", 1, 0)");
    reveal_strlit("v, 1, 0");
    assert(substr_text("v"@, range) =~= "substr("@ + arguments_text(range) + ")"@);
}

/// Blanks before a text that starts with none go.
proof fn lemma_trimmed(text: Seq<char>)
    requires
        text.len() > 0,
        text[0] != ' ',
    ensures
        trimmed(text) == text,
        trimmed(seq![' '] + text) == text,
{
    let spaced = seq![' '] + text;
    assert(spaced.skip(1) =~= text);
    assert(spaced[0] == ' ');
    assert(trimmed(spaced) == trimmed(text));
}

/// A numeral is read as its number.
proof fn lemma_read_integer(n: nat)
    ensures
        read_integer(decimal(n)) == Some(n as int),
        read_integer(seq!['-'] + decimal(n)) == Some(-(n as int)),
        decimal(n).len() > 0,
{
    lemma_decimal_value(n);
    lemma_decimal_lacks(n, '-');
    assert((seq!['-'] + decimal(n)).skip(1) =~= decimal(n));
}

/// Two arguments are told apart by the comma between them.
proof fn lemma_two_arguments(a: Seq<char>, b: Seq<char>)
    requires
        !a.contains(','),
        !b.contains(','),
    ensures
        split(a.push(',') + b, ',') == seq![a, b],
{
    let pieces = seq![a, b];
    assert(join(pieces, ',') =~= a.push(',') + b) by {
        assert(pieces.drop_last() =~= seq![a]);
        reveal_with_fuel(join, 3);
    }
    lemma_split_join(pieces, ',');
}

/// Three arguments are told apart by the commas between them.
proof fn lemma_three_arguments(a: Seq<char>, b: Seq<char>, c: Seq<char>)
    requires
        !a.contains(','),
        !b.contains(','),
        !c.contains(','),
    ensures
        split((a.push(',') + b).push(',') + c, ',') == seq![a, b, c],
{
    let pieces = seq![a, b, c];
    assert(join(pieces, ',') =~= (a.push(',') + b).push(',') + c) by {
        assert(pieces.drop_last() =~= seq![a, b]);
        assert(seq![a, b].drop_last() =~= seq![a]);
        reveal_with_fuel(join, 4);
    }
    lemma_split_join(pieces, ',');
}

/// A blank before a text brings no comma.
proof fn lemma_spaced_lacks(text: Seq<char>)
    requires
        !text.contains(','),
    ensures
        !(seq![' '] + text).contains(','),
        !(seq!['-'] + text).contains(','),
{
    if (seq![' '] + text).contains(',') {
        let i = choose|i: int|
            0 <= i < (seq![' '] + text).len() && (seq![' '] + text)[i] == ',';
        assert(text[i - 1] == ',');
    }
    if (seq!['-'] + text).contains(',') {
        let i = choose|i: int|
            0 <= i < (seq!['-'] + text).len() && (seq!['-'] + text)[i] == ',';
        assert(text[i - 1] == ',');
    }
}

/// Whether the numbers in the expression for a range are integers to the engine.
pub open spec fn is_engine_range(range: ByteRange) -> bool {
    is_engine_call(call_of(range))
}

/// The call that the expression for a range is.
pub open spec fn call_of(range: ByteRange) -> Call {
    match range {
        ByteRange::FromStart(offset, Some(length)) => Call {
            start: offset + 1,
            length: Some(length as int),
        },
        ByteRange::FromStart(offset, None) => Call { start: offset + 1, length: None },
        ByteRange::Suffix(length) => if length == 0 {
            Call { start: 1, length: Some(0) }
        } else {
            Call { start: -length, length: None }
        },
    }
}

/// The expression for a range is read as a call with the numbers of the range.
pub proof fn lemma_read_call(range: ByteRange)
    ensures
        read_call(substr_text("v"@, range)) == Some(call_of(range)),
{
    lemma_substr_text(range);
    let inner = arguments_text(range);
    lemma_inside("substr("@, inner, ")"@);
    reveal_strlit("v");
    reveal_strlit("v, ");
    reveal_strlit(", ");
    reveal_strlit("v, -");
    reveal_strlit("v, 1, 0");
    let v = "v"@;
    assert(v =~= seq!['v']);
    assert(!v.contains(','));
    lemma_trimmed(v);
    match range {
        ByteRange::FromStart(offset, Some(length)) => {
            let a = decimal((offset + 1) as nat);
            let b = decimal(length as nat);
            lemma_read_integer((offset + 1) as nat);
            lemma_read_integer(length as nat);
            lemma_decimal_lacks((offset + 1) as nat, ' ');
            lemma_decimal_lacks((offset + 1) as nat, ',');
            lemma_decimal_lacks(length as nat, ' ');
            lemma_decimal_lacks(length as nat, ',');
            lemma_spaced_lacks(a);
            lemma_spaced_lacks(b);
            lemma_trimmed(a);
            lemma_trimmed(b);
            assert(inner =~= (v.push(',') + (seq![' '] + a)).push(',') + (seq![' '] + b));
            lemma_three_arguments(v, seq![' '] + a, seq![' '] + b);
        },
        ByteRange::FromStart(offset, None) => {
            let a = decimal((offset + 1) as nat);
            lemma_read_integer((offset + 1) as nat);
            lemma_decimal_lacks((offset + 1) as nat, ' ');
            lemma_decimal_lacks((offset + 1) as nat, ',');
            lemma_spaced_lacks(a);
            lemma_trimmed(a);
            assert(inner =~= v.push(',') + (seq![' '] + a));
            lemma_two_arguments(v, seq![' '] + a);
        },
        ByteRange::Suffix(length) => {
            if length == 0 {
                let a = decimal(1);
                let b = decimal(0);
                assert(a =~= seq!['1']);
                assert(b =~= seq!['0']);
                lemma_read_integer(1);
                lemma_read_integer(0);
                lemma_decimal_lacks(1, ',');
                lemma_decimal_lacks(0, ',');
                lemma_spaced_lacks(a);
                lemma_spaced_lacks(b);
                lemma_trimmed(a);
                lemma_trimmed(b);
                assert(inner =~= (v.push(',') + (seq![' '] + a)).push(',') + (seq![' '] + b));
                lemma_three_arguments(v, seq![' '] + a, seq![' '] + b);
            } else {
                let n = decimal(length as nat);
                let a = seq!['-'] + n;
                lemma_read_integer(length as nat);
                lemma_decimal_lacks(length as nat, ',');
                lemma_spaced_lacks(n);
                lemma_spaced_lacks(a);
                lemma_trimmed(a);
                assert(inner =~= v.push(',') + (seq![' '] + a));
                lemma_two_arguments(v, seq![' '] + a);
            }
        },
    }
}

/// The expression for a range closes its bracket, has its commas inside of it, and starts with no
/// blank.
proof fn lemma_expression_shape(range: ByteRange)
    ensures
        ({
            let e = substr_text("v"@, range);
            &&& e.len() > 0
            &&& e[0] == 's'
            &&& depth(e) == 0
            &&& forall|i: int| 0 <= i < e.len() && #[trigger] e[i] == ',' ==> depth(e.take(i)) == 1
        }),
{
    lemma_substr_text(range);
    let e = substr_text("v"@, range);
    let open = "substr("@;
    let inner = arguments_text(range);
    reveal_strlit("substr(");
    reveal_strlit(")");
    reveal_strlit("v, ");
    reveal_strlit(", ");
    reveal_strlit("v, -");
    reveal_strlit("v, 1, 0");
    assert(forall|i: int| 0 <= i < 7 ==> open[i] != ',' && open[i] != ')');
    assert(depth(open) == 1) by {
        let flat = open.take(6);
        assert(open.drop_last() =~= flat);
        lemma_depth_flat(flat);
    }
    assert forall|i: int| 0 <= i < inner.len() implies #[trigger] inner[i] != '(' && inner[i]
        != ')' by {
        lemma_inner_flat(range, i);
    }
    assert(e =~= open + inner + ")"@);
    assert(!inner.contains('(') && !inner.contains(')'));
    lemma_depth_flat(inner);
    lemma_depth_concat(open, inner);
    assert(depth(")"@) == -1) by {
        assert(")"@.drop_last() =~= Seq::<char>::empty());
        reveal_with_fuel(depth, 2);
    }
    lemma_depth_concat(open + inner, ")"@);
    assert forall|i: int| 0 <= i < e.len() && #[trigger] e[i] == ',' implies depth(e.take(i))
        == 1 by {
        if i < 7 {
            assert(e[i] == open[i]);
        } else if i == e.len() - 1 {
            assert(e[i] == ')');
        } else {
            let part = inner.take(i - 7);
            assert(e.take(i) =~= open + part);
            assert(!part.contains('(')) by {
                if part.contains('(') {
                    let j = choose|j: int| 0 <= j < part.len() && part[j] == '(';
                    assert(inner[j] == '(');
                }
            }
            assert(!part.contains(')')) by {
                if part.contains(')') {
                    let j = choose|j: int| 0 <= j < part.len() && part[j] == ')';
                    assert(inner[j] == ')');
                }
            }
            lemma_depth_flat(part);
            lemma_depth_concat(open, part);
        }
    }
}

/// Between the brackets there are no brackets.
proof fn lemma_inner_flat(range: ByteRange, i: int)
    requires
        0 <= i < arguments_text(range).len(),
    ensures
        arguments_text(range)[i] != '(',
        arguments_text(range)[i] != ')',
{
    reveal_strlit("v, ");
    reveal_strlit(", ");
    reveal_strlit("v, -");
    reveal_strlit("v, 1, 0");
    let inner = arguments_text(range);
    match range {
        ByteRange::FromStart(offset, Some(length)) => {
            let a = decimal((offset + 1) as nat);
            let b = decimal(length as nat);
            lemma_decimal_value((offset + 1) as nat);
            lemma_decimal_value(length as nat);
            if 3 <= i < 3 + a.len() {
                assert(inner[i] == a[i - 3]);
                assert(is_digit(a[i - 3]));
            } else if i >= 5 + a.len() {
                assert(inner[i] == b[i - 5 - a.len()]);
                assert(is_digit(b[i - 5 - a.len()]));
            }
        },
        ByteRange::FromStart(offset, None) => {
            let a = decimal((offset + 1) as nat);
            lemma_decimal_value((offset + 1) as nat);
            if 3 <= i {
                assert(inner[i] == a[i - 3]);
                assert(is_digit(a[i - 3]));
            }
        },
        ByteRange::Suffix(length) => {
            let a = decimal(length as nat);
            lemma_decimal_value(length as nat);
            if length > 0 && 4 <= i {
                assert(inner[i] == a[i - 4]);
                assert(is_digit(a[i - 4]));
            }
        },
    }
}

/// The column list for some ranges has one piece for each range: its expression, after a blank from
/// the second on.
proof fn lemma_columns(ranges: Seq<ByteRange>)
    requires
        ranges.len() > 0,
    ensures
        depth(substrs_text("v"@, ranges)) == 0,
        columns(substrs_text("v"@, ranges)).len() == ranges.len(),
        forall|i: int|
            0 <= i < ranges.len() ==> #[trigger] columns(substrs_text("v"@, ranges))[i] == if i == 0 {
                substr_text("v"@, ranges[i])
            } else {
                seq![' '] + substr_text("v"@, ranges[i])
            },
    decreases ranges.len(),
{
    let list = substrs_text("v"@, ranges);
    let last = substr_text("v"@, ranges.last());
    lemma_expression_shape(ranges.last());
    if ranges.len() == 1 {
        let none = Seq::<char>::empty();
        assert(none + last =~= list);
        assert forall|i: int| 0 <= i < last.len() && #[trigger] last[i] == ',' implies depth(
            none + last.take(i),
        ) != 0 by {
            assert(none + last.take(i) =~= last.take(i));
        }
        lemma_columns_extend(none, last);
        assert(none + last =~= last);
    } else {
        let init = ranges.drop_last();
        lemma_columns(init);
        let head = substrs_text("v"@, init);
        reveal_strlit(", ");
        let comma = head.push(',');
        let spaced = seq![' '] + last;
        assert(list =~= comma + spaced);
        assert(comma.drop_last() =~= head);
        assert(columns(comma) =~= columns(head).push(Seq::empty()));
        lemma_depth_concat(head, seq![',']);
        assert(head + seq![','] =~= comma);
        assert(depth(seq![',']) == 0) by {
            assert(seq![','].drop_last() =~= Seq::<char>::empty());
            reveal_with_fuel(depth, 2);
        }
        assert(depth(seq![' ']) == 0) by {
            assert(seq![' '].drop_last() =~= Seq::<char>::empty());
            reveal_with_fuel(depth, 2);
        }
        lemma_depth_concat(seq![' '], last);
        lemma_depth_concat(comma, spaced);
        assert forall|i: int| 0 <= i < spaced.len() && #[trigger] spaced[i] == ',' implies depth(
            comma + spaced.take(i),
        ) != 0 by {
            assert(last[i - 1] == ',');
            assert(spaced.take(i) =~= seq![' '] + last.take(i - 1));
            lemma_depth_concat(seq![' '], last.take(i - 1));
            lemma_depth_concat(comma, spaced.take(i));
        }
        lemma_columns_extend(comma, spaced);
        assert(Seq::<char>::empty() + spaced =~= spaced);
        assert(columns(list) =~= columns(head).push(spaced));
        assert forall|i: int| 0 <= i < ranges.len() implies #[trigger] columns(list)[i] == if i == 0 {
            substr_text("v"@, ranges[i])
        } else {
            seq![' '] + substr_text("v"@, ranges[i])
        } by {
            if i < init.len() {
                assert(columns(list)[i] == columns(head)[i]);
                assert(init[i] == ranges[i]);
            }
        }
    }
}

/// The statement for some ranges is read as one call for each range, in their order, with the numbers
/// of the range.
pub proof fn lemma_read_calls(ranges: Seq<ByteRange>)
    requires
        ranges.len() > 0,
    ensures
        read_calls(select_text(substrs_text("v"@, ranges))) == Some(
            Seq::new(ranges.len(), |i: int| call_of(ranges[i])),
        ),
{
    let list = substrs_text("v"@, ranges);
    lemma_columns(ranges);
    lemma_inside("SELECT "@, list, " FROM zarr WHERE k = ? LIMIT 1;"@);
    let pieces = columns(list);
    assert forall|i: int| 0 <= i < pieces.len() implies read_call(trimmed(#[trigger] pieces[i]))
        == Some(call_of(ranges[i])) by {
        lemma_expression_shape(ranges[i]);
        lemma_trimmed(substr_text("v"@, ranges[i]));
        lemma_read_call(ranges[i]);
    }
    assert(Seq::new(pieces.len(), |i: int| read_call(trimmed(pieces[i]))->0) =~= Seq::new(
        ranges.len(),
        |i: int| call_of(ranges[i]),
    ));
}

/// The statement for some ranges has a column for each range, in their order: a call of `substr` whose
/// numerals denote the position of the first byte of the range, counted from one, and its length if it
/// has one. For a suffix the position is counted from the end, and an empty suffix is no bytes from the
/// first position.
pub proof fn law_parts_text(ranges: Seq<ByteRange>)
    requires
        ranges.len() > 0,
    ensures
        read_calls(select_text(substrs_text("v"@, ranges))) matches Some(calls) && {
            &&& calls.len() == ranges.len()
            &&& forall|i: int|
                0 <= i < ranges.len() ==> match ranges[i] {
                    ByteRange::FromStart(offset, Some(length)) => (#[trigger] calls[i]).start
                        == offset + 1 && calls[i].length == Some(length as int),
                    ByteRange::FromStart(offset, None) => calls[i].start == offset + 1
                        && calls[i].length is None,
                    ByteRange::Suffix(length) => if length == 0 {
                        calls[i].length == Some(0int)
                    } else {
                        calls[i].start == -length && calls[i].length is None
                    },
                }
        },
{
    lemma_read_calls(ranges);
}

/// One range is written as several are.
pub proof fn law_part_text(range: ByteRange)
    ensures
        read_calls(select_text(substr_text("v"@, range))) == read_calls(
            select_text(substrs_text("v"@, seq![range])),
        ),
{
}

} // verus!
