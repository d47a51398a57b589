//! The order of text in a database: SQLite's `BINARY` collation compares the bytes of its UTF-8
//! encoding.

use vstd::prelude::*;
use vstd::utf8::{
    char_is_scalar, encode_scalar, encode_utf8, has_width_1_encoding, has_width_2_encoding,
    has_width_3_encoding, has_width_4_encoding, is_scalar, last_continuation_byte,
    leading_byte_width_1, leading_byte_width_2, leading_byte_width_3, leading_byte_width_4,
    second_last_continuation_byte, third_last_continuation_byte,
};
use crate::text::{lemma_text_lt_total, lt_at, text_lt};

verus! {

/// `a` and `b` agree on their first `n` bytes, and `a` either ends there while `b` goes on, or has
/// the smaller byte there.
pub open spec fn bytes_lt_at(a: Seq<u8>, b: Seq<u8>, n: int) -> bool {
    &&& 0 <= n <= a.len()
    &&& n < b.len()
    &&& forall|i: int| 0 <= i < n ==> a[i] == b[i]
    &&& n == a.len() || a[n] < b[n]
}

/// Lexicographic order of bytes.
pub open spec fn bytes_lt(a: Seq<u8>, b: Seq<u8>) -> bool {
    exists|n: int| bytes_lt_at(a, b, n)
}

/// The order of bytes is asymmetric.
proof fn lemma_bytes_lt_asymmetric(a: Seq<u8>, b: Seq<u8>)
    requires
        bytes_lt(a, b),
    ensures
        !bytes_lt(b, a),
{
    if bytes_lt(b, a) {
        let n = choose|n: int| bytes_lt_at(a, b, n);
        let m = choose|m: int| bytes_lt_at(b, a, m);
        if n < m {
            assert(a[n] == b[n]);
        } else if m < n {
            assert(a[m] == b[m]);
        }
    }
}

/// The first byte tells the widths of encodings apart, and a wider one has the greater first byte.
proof fn lemma_leading_bytes(x: u32)
    by (bit_vector)
    ensures
        leading_byte_width_1(x) <= 0x7f,
        0xc0 <= leading_byte_width_2(x) <= 0xdf,
        0xe0 <= leading_byte_width_3(x) <= 0xef,
        0xf0 <= leading_byte_width_4(x) <= 0xf7,
{
}

/// One byte is ordered as what it encodes.
proof fn lemma_order_width_1(x: u32, y: u32)
    by (bit_vector)
    requires
        has_width_1_encoding(x),
        has_width_1_encoding(y),
        x < y,
    ensures
        leading_byte_width_1(x) < leading_byte_width_1(y),
{
}

/// Two bytes are ordered as what they encode.
proof fn lemma_order_width_2(x: u32, y: u32)
    by (bit_vector)
    requires
        has_width_2_encoding(x),
        has_width_2_encoding(y),
        x < y,
    ensures
        leading_byte_width_2(x) < leading_byte_width_2(y) || leading_byte_width_2(x)
            == leading_byte_width_2(y) && last_continuation_byte(x) < last_continuation_byte(y),
{
}

/// Three bytes are ordered as what they encode.
proof fn lemma_order_width_3(x: u32, y: u32)
    by (bit_vector)
    requires
        0x800 <= x <= 0xffff,
        0x800 <= y <= 0xffff,
        x < y,
    ensures
        leading_byte_width_3(x) < leading_byte_width_3(y) || leading_byte_width_3(x)
            == leading_byte_width_3(y) && (second_last_continuation_byte(x)
            < second_last_continuation_byte(y) || second_last_continuation_byte(x)
            == second_last_continuation_byte(y) && last_continuation_byte(x)
            < last_continuation_byte(y)),
{
}

/// Four bytes are ordered as what they encode.
proof fn lemma_order_width_4(x: u32, y: u32)
    by (bit_vector)
    requires
        has_width_4_encoding(x),
        has_width_4_encoding(y),
        x < y,
    ensures
        leading_byte_width_4(x) < leading_byte_width_4(y) || leading_byte_width_4(x)
            == leading_byte_width_4(y) && (third_last_continuation_byte(x)
            < third_last_continuation_byte(y) || third_last_continuation_byte(x)
            == third_last_continuation_byte(y) && (second_last_continuation_byte(x)
            < second_last_continuation_byte(y) || second_last_continuation_byte(x)
            == second_last_continuation_byte(y) && last_continuation_byte(x)
            < last_continuation_byte(y))),
{
}

/// Encodings of different characters differ in a byte that both have, and the smaller character has
/// the smaller byte there.
proof fn lemma_scalar_order(x: u32, y: u32) -> (n: int)
    requires
        is_scalar(x),
        is_scalar(y),
        x < y,
    ensures
        0 <= n < encode_scalar(x).len(),
        n < encode_scalar(y).len(),
        forall|i: int| 0 <= i < n ==> encode_scalar(x)[i] == encode_scalar(y)[i],
        encode_scalar(x)[n] < encode_scalar(y)[n],
{
    let a = encode_scalar(x);
    let b = encode_scalar(y);
    lemma_leading_bytes(x);
    lemma_leading_bytes(y);
    if has_width_1_encoding(x) && has_width_1_encoding(y) {
        lemma_order_width_1(x, y);
    } else if has_width_2_encoding(x) && has_width_2_encoding(y) {
        lemma_order_width_2(x, y);
    } else if has_width_3_encoding(x) && has_width_3_encoding(y) {
        lemma_order_width_3(x, y);
    } else if has_width_4_encoding(x) && has_width_4_encoding(y) {
        lemma_order_width_4(x, y);
    }
    if a[0] < b[0] {
        0
    } else if a[1] < b[1] {
        1
    } else if a[2] < b[2] {
        2
    } else {
        3
    }
}

/// A code point fits.
proof fn lemma_code_point(c: char)
    ensures
        (c as u32) as int == c as int,
{
}

/// A text that sorts before another has the smaller encoding.
proof fn lemma_encoding_order(a: Seq<char>, b: Seq<char>, n: int)
    requires
        lt_at(a, b, n),
    ensures
        bytes_lt(encode_utf8(a), encode_utf8(b)),
    decreases n,
{
    let x = encode_utf8(a);
    let y = encode_utf8(b);
    char_is_scalar(b[0]);
    if a.len() == 0 {
        lemma_leading_bytes(b[0] as u32);
        assert(bytes_lt_at(x, y, 0));
    } else {
        char_is_scalar(a[0]);
        let first = encode_scalar(a[0] as u32);
        if n == 0 {
            lemma_code_point(a[0]);
            lemma_code_point(b[0]);
            let m = lemma_scalar_order(a[0] as u32, b[0] as u32);
            assert(bytes_lt_at(x, y, m));
        } else {
            let rest_a = a.drop_first();
            let rest_b = b.drop_first();
            assert(lt_at(rest_a, rest_b, n - 1)) by {
                assert forall|i: int| 0 <= i < n - 1 implies rest_a[i] == rest_b[i] by {
                    assert(a[i + 1] == b[i + 1]);
                }
            }
            lemma_encoding_order(rest_a, rest_b, n - 1);
            let m = choose|m: int| bytes_lt_at(encode_utf8(rest_a), encode_utf8(rest_b), m);
            assert(a[0] == b[0]);
            assert(bytes_lt_at(x, y, first.len() + m));
        }
    }
}

/// The order of text by code point is the order of its UTF-8 encoding byte by byte.
pub proof fn law_binary_collation(a: Seq<char>, b: Seq<char>)
    ensures
        text_lt(a, b) <==> bytes_lt(encode_utf8(a), encode_utf8(b)),
{
    if text_lt(a, b) {
        lemma_encoding_order(a, b, choose|n: int| lt_at(a, b, n));
    } else {
        lemma_text_lt_total(a, b);
        if bytes_lt(encode_utf8(a), encode_utf8(b)) {
            if text_lt(b, a) {
                lemma_encoding_order(b, a, choose|n: int| lt_at(b, a, n));
            }
            lemma_bytes_lt_asymmetric(encode_utf8(a), encode_utf8(b));
        }
    }
}

} // verus!
