//! The order of texts is the order of their UTF-8 bytes, the order in which
//! strings compare.

use vstd::prelude::*;
use vstd::utf8::{encode_scalar, encode_utf8};
use vstd::utf8::{has_width_1_encoding, has_width_2_encoding, has_width_3_encoding};
use vstd::utf8::{has_width_4_encoding, is_scalar};
use vstd::utf8::{last_continuation_byte, second_last_continuation_byte};
use vstd::utf8::{leading_byte_width_1, leading_byte_width_2, leading_byte_width_3};
use vstd::utf8::{leading_byte_width_4, third_last_continuation_byte};
use crate::text::{agree_up_to, comes_first_at, lemma_first_difference_decides, lex_le};

verus! {

/// `a` and `b` agree on their first `k` bytes.
pub open spec fn bytes_agree_up_to(a: Seq<u8>, b: Seq<u8>, k: int) -> bool {
    &&& 0 <= k <= a.len()
    &&& k <= b.len()
    &&& forall|i: int| 0 <= i < k ==> a[i] == b[i]
}

/// `a` and `b` agree on their first `k` bytes, and there `a` ends or has the
/// smaller byte.
pub open spec fn bytes_come_first_at(a: Seq<u8>, b: Seq<u8>, k: int) -> bool {
    &&& bytes_agree_up_to(a, b, k)
    &&& k == a.len() || (k < b.len() && a[k] < b[k])
}

/// Lexicographic order on sequences of bytes.
pub open spec fn bytes_le(a: Seq<u8>, b: Seq<u8>) -> bool {
    exists|k: int| bytes_come_first_at(a, b, k)
}

/// `a` has the smaller byte where `a` and `b` first differ, and that is
/// within both.
spec fn strictly_below(a: Seq<u8>, b: Seq<u8>) -> bool {
    exists|k: int| bytes_agree_up_to(a, b, k) && k < a.len() && k < b.len() && a[k] < b[k]
}

proof fn lemma_lead_ranges(v: u32)
    by (bit_vector)
    ensures
        has_width_1_encoding(v) ==> leading_byte_width_1(v) <= 0x7f,
        has_width_2_encoding(v) ==> 0xc0 <= leading_byte_width_2(v) <= 0xdf,
        has_width_3_encoding(v) ==> 0xe0 <= leading_byte_width_3(v) <= 0xef,
        has_width_4_encoding(v) ==> 0xf0 <= leading_byte_width_4(v) <= 0xf7,
{
}

proof fn lemma_order_width_1(v: u32, w: u32)
    by (bit_vector)
    requires
        has_width_1_encoding(v),
        has_width_1_encoding(w),
        v < w,
    ensures
        leading_byte_width_1(v) < leading_byte_width_1(w),
{
}

proof fn lemma_order_width_2(v: u32, w: u32)
    by (bit_vector)
    requires
        has_width_2_encoding(v),
        has_width_2_encoding(w),
        v < w,
    ensures
        leading_byte_width_2(v) < leading_byte_width_2(w) || (leading_byte_width_2(v)
            == leading_byte_width_2(w) && last_continuation_byte(v) < last_continuation_byte(w)),
{
}

proof fn lemma_order_width_3(v: u32, w: u32)
    by (bit_vector)
    requires
        has_width_3_encoding(v),
        has_width_3_encoding(w),
        v < w,
    ensures
        leading_byte_width_3(v) < leading_byte_width_3(w) || (leading_byte_width_3(v)
            == leading_byte_width_3(w) && (second_last_continuation_byte(v)
            < second_last_continuation_byte(w) || (second_last_continuation_byte(v)
            == second_last_continuation_byte(w) && last_continuation_byte(v)
            < last_continuation_byte(w)))),
{
}

proof fn lemma_order_width_4(v: u32, w: u32)
    by (bit_vector)
    requires
        has_width_4_encoding(v),
        has_width_4_encoding(w),
        v < w,
    ensures
        leading_byte_width_4(v) < leading_byte_width_4(w) || (leading_byte_width_4(v)
            == leading_byte_width_4(w) && (third_last_continuation_byte(v)
            < third_last_continuation_byte(w) || (third_last_continuation_byte(v)
            == third_last_continuation_byte(w) && (second_last_continuation_byte(v)
            < second_last_continuation_byte(w) || (second_last_continuation_byte(v)
            == second_last_continuation_byte(w) && last_continuation_byte(v)
            < last_continuation_byte(w)))))),
{
}

/// The smaller of two characters has the encoding that comes first, and the
/// two encodings differ within both.
proof fn lemma_encoding_keeps_order(c: char, d: char)
    requires
        c < d,
    ensures
        strictly_below(encode_scalar(c as u32), encode_scalar(d as u32)),
{
    let v = c as u32;
    let w = d as u32;
    let x = encode_scalar(v);
    let y = encode_scalar(w);
    assert(is_scalar(v) && is_scalar(w)) by {
        vstd::utf8::char_is_scalar(c);
        vstd::utf8::char_is_scalar(d);
    }
    lemma_lead_ranges(v);
    lemma_lead_ranges(w);
    let same_width = (has_width_1_encoding(v) && has_width_1_encoding(w)) || (
    has_width_2_encoding(v) && has_width_2_encoding(w)) || (has_width_3_encoding(v)
        && has_width_3_encoding(w)) || (has_width_4_encoding(v) && has_width_4_encoding(w));
    if !same_width {
        assert(x[0] < y[0]);
        assert(bytes_agree_up_to(x, y, 0));
    } else {
        if has_width_1_encoding(v) {
            lemma_order_width_1(v, w);
        } else if has_width_2_encoding(v) {
            lemma_order_width_2(v, w);
        } else if has_width_3_encoding(v) {
            lemma_order_width_3(v, w);
        } else {
            lemma_order_width_4(v, w);
        }
        if x[0] != y[0] {
            assert(bytes_agree_up_to(x, y, 0));
        } else if x[1] != y[1] {
            assert(bytes_agree_up_to(x, y, 1));
        } else if x[2] != y[2] {
            assert(bytes_agree_up_to(x, y, 2));
        } else {
            assert(bytes_agree_up_to(x, y, 3));
        }
    }
}

/// Where `x` comes strictly before `y`, whatever follows them does not
/// change that.
proof fn lemma_strictly_below_decides(x: Seq<u8>, y: Seq<u8>, s: Seq<u8>, t: Seq<u8>)
    requires
        strictly_below(x, y),
    ensures
        bytes_le(x + s, y + t),
        !bytes_le(y + t, x + s),
{
    let k = choose|k: int|
        bytes_agree_up_to(x, y, k) && k < x.len() && k < y.len() && x[k] < y[k];
    let a = x + s;
    let b = y + t;
    assert forall|i: int| 0 <= i <= k implies a[i] == x[i] && b[i] == y[i] by {}
    assert(bytes_come_first_at(a, b, k));
    assert forall|j: int| !bytes_come_first_at(b, a, j) by {
        if bytes_come_first_at(b, a, j) {
            if j > k {
                assert(b[k] == a[k]);
            }
        }
    }
}

/// A common beginning does not change the order of what follows it.
proof fn lemma_common_beginning(e: Seq<u8>, s: Seq<u8>, t: Seq<u8>)
    ensures
        bytes_le(e + s, e + t) <==> bytes_le(s, t),
{
    let a = e + s;
    let b = e + t;
    let n = e.len() as int;
    if bytes_le(s, t) {
        let k = choose|k: int| bytes_come_first_at(s, t, k);
        assert forall|i: int| 0 <= i < n + k implies a[i] == b[i] by {
            if i >= n {
                assert(a[i] == s[i - n] && b[i] == t[i - n]);
            }
        }
        if k < s.len() {
            assert(a[n + k] == s[k] && b[n + k] == t[k]);
        }
        assert(bytes_come_first_at(a, b, n + k));
    }
    if bytes_le(a, b) {
        let j = choose|j: int| bytes_come_first_at(a, b, j);
        if j < n {
            assert(a[j] == e[j] && b[j] == e[j]);
        }
        assert forall|i: int| 0 <= i < j - n implies s[i] == t[i] by {
            assert(a[n + i] == s[i] && b[n + i] == t[i]);
        }
        if j < a.len() {
            assert(a[j] == s[j - n] && b[j] == t[j - n]);
        }
        assert(bytes_come_first_at(s, t, j - n));
    }
}

/// A common first character does not change the order of what follows it.
proof fn lemma_common_first_character(a: Seq<char>, b: Seq<char>)
    requires
        a.len() > 0,
        b.len() > 0,
        a[0] == b[0],
    ensures
        lex_le(a, b) <==> lex_le(a.drop_first(), b.drop_first()),
{
    let s = a.drop_first();
    let t = b.drop_first();
    if lex_le(s, t) {
        let k = choose|k: int| comes_first_at(s, t, k);
        assert forall|i: int| 0 <= i < k + 1 implies a[i] == b[i] by {
            if i > 0 {
                assert(a[i] == s[i - 1] && b[i] == t[i - 1]);
            }
        }
        if k < s.len() {
            assert(a[k + 1] == s[k] && b[k + 1] == t[k]);
        }
        assert(comes_first_at(a, b, k + 1));
    }
    if lex_le(a, b) {
        let j = choose|j: int| comes_first_at(a, b, j);
        assert forall|i: int| 0 <= i < j - 1 implies s[i] == t[i] by {
            assert(a[i + 1] == s[i] && b[i + 1] == t[i]);
        }
        if j < a.len() {
            assert(a[j] == s[j - 1] && b[j] == t[j - 1]);
        }
        assert(comes_first_at(s, t, j - 1));
    }
}

/// The order of texts is the lexicographic order of their UTF-8 bytes.
pub proof fn lemma_lex_le_is_byte_order(a: Seq<char>, b: Seq<char>)
    ensures
        lex_le(a, b) <==> bytes_le(encode_utf8(a), encode_utf8(b)),
    decreases a.len(),
{
    let x = encode_utf8(a);
    let y = encode_utf8(b);
    if a.len() == 0 {
        assert(comes_first_at(a, b, 0));
        assert(bytes_come_first_at(x, y, 0));
    } else if b.len() == 0 {
        assert(encode_scalar(a[0] as u32).len() > 0);
        assert(x.len() > 0);
        assert forall|k: int| !comes_first_at(a, b, k) by {}
        assert forall|k: int| !bytes_come_first_at(x, y, k) by {}
    } else {
        let first_a = encode_scalar(a[0] as u32);
        let first_b = encode_scalar(b[0] as u32);
        let rest_a = encode_utf8(a.drop_first());
        let rest_b = encode_utf8(b.drop_first());
        assert(x == first_a + rest_a);
        assert(y == first_b + rest_b);
        if a[0] == b[0] {
            lemma_common_first_character(a, b);
            lemma_common_beginning(first_a, rest_a, rest_b);
            lemma_lex_le_is_byte_order(a.drop_first(), b.drop_first());
        } else {
            assert(agree_up_to(a, b, 0));
            lemma_first_difference_decides(a, b, 0);
            if a[0] < b[0] {
                lemma_encoding_keeps_order(a[0], b[0]);
                lemma_strictly_below_decides(first_a, first_b, rest_a, rest_b);
            } else {
                lemma_encoding_keeps_order(b[0], a[0]);
                lemma_strictly_below_decides(first_b, first_a, rest_b, rest_a);
            }
        }
    }
}

} // verus!
