//! Text predicates and helpers: the order in which paths are processed, the
//! search for a piece of text, and the reading of a process's output.

use vstd::prelude::*;
use vstd::std_specs::iter::IteratorSpec;
use vstd::utf8::{decode_utf8, encode_utf8, valid_utf8};

verus! {

/// `a` and `b` agree on their first `k` characters.
pub open spec fn agree_up_to(a: Seq<char>, b: Seq<char>, k: int) -> bool {
    &&& 0 <= k <= a.len()
    &&& k <= b.len()
    &&& forall|i: int| 0 <= i < k ==> a[i] == b[i]
}

/// `a` and `b` agree on their first `k` characters, and there `a` ends or
/// has the smaller character.
pub open spec fn comes_first_at(a: Seq<char>, b: Seq<char>, k: int) -> bool {
    &&& agree_up_to(a, b, k)
    &&& k == a.len() || (k < b.len() && a[k] < b[k])
}

/// Lexicographic order on texts: `a` is a prefix of `b`, or the first
/// character in which they differ is the smaller one in `a`. Characters are
/// ordered by their code points; `byte_order` shows that this is the order
/// of the texts' UTF-8 bytes.
pub open spec fn lex_le(a: Seq<char>, b: Seq<char>) -> bool {
    exists|k: int| comes_first_at(a, b, k)
}

/// Where two texts agree on `k` characters and differ in the next, that
/// character decides their order.
pub proof fn lemma_first_difference_decides(a: Seq<char>, b: Seq<char>, k: int)
    requires
        agree_up_to(a, b, k),
        k < a.len(),
        k < b.len(),
        a[k] != b[k],
    ensures
        lex_le(a, b) == (a[k] < b[k]),
{
    if a[k] < b[k] {
        assert(comes_first_at(a, b, k));
    }
}

/// Where two texts agree on `k` characters and one of them ends there, the
/// shorter one comes first.
pub proof fn lemma_exhausted_decides(a: Seq<char>, b: Seq<char>, k: int)
    requires
        agree_up_to(a, b, k),
        k == a.len() || k == b.len(),
    ensures
        lex_le(a, b) == (a.len() <= b.len()),
{
    if a.len() <= b.len() {
        assert(comes_first_at(a, b, k));
    }
}

/// Decides the lexicographic order of two texts.
pub fn text_le(a: &str, b: &str) -> (le: bool)
    ensures
        le == lex_le(a@, b@),
{
    let mut rest_a = a.chars();
    let mut rest_b = b.chars();
    let ghost mut k: int = 0;
    loop
        invariant
            agree_up_to(a@, b@, k),
            rest_a.remaining() == a@.subrange(k, a@.len() as int),
            rest_b.remaining() == b@.subrange(k, b@.len() as int),
        decreases a@.len() - k,
    {
        let next_a = rest_a.next();
        let next_b = rest_b.next();
        match (next_a, next_b) {
            (None, _) => {
                proof {
                    lemma_exhausted_decides(a@, b@, k);
                }
                return true;
            },
            (Some(_), None) => {
                proof {
                    lemma_exhausted_decides(a@, b@, k);
                }
                return false;
            },
            (Some(x), Some(y)) => {
                assert(x == a@[k] && y == b@[k]);
                if x != y {
                    proof {
                        lemma_first_difference_decides(a@, b@, k);
                    }
                    return x < y;
                }
                proof {
                    assert(a@.subrange(k, a@.len() as int).drop_first() =~= a@.subrange(
                        k + 1,
                        a@.len() as int,
                    ));
                    assert(b@.subrange(k, b@.len() as int).drop_first() =~= b@.subrange(
                        k + 1,
                        b@.len() as int,
                    ));
                    k = k + 1;
                }
            },
        }
    }
}

/// Every text is at most itself.
pub proof fn lemma_lex_le_reflexive(a: Seq<char>)
    ensures
        lex_le(a, a),
{
    assert(comes_first_at(a, a, a.len() as int));
}

proof fn lemma_lex_le_total_from(a: Seq<char>, b: Seq<char>, k: int)
    requires
        agree_up_to(a, b, k),
    ensures
        lex_le(a, b) || lex_le(b, a),
    decreases a.len() - k,
{
    assert(agree_up_to(b, a, k));
    if k == a.len() || k == b.len() {
        lemma_exhausted_decides(a, b, k);
        lemma_exhausted_decides(b, a, k);
    } else if a[k] != b[k] {
        lemma_first_difference_decides(a, b, k);
        lemma_first_difference_decides(b, a, k);
    } else {
        lemma_lex_le_total_from(a, b, k + 1);
    }
}

/// Any two texts are ordered one way or the other.
pub proof fn lemma_lex_le_total(a: Seq<char>, b: Seq<char>)
    ensures
        lex_le(a, b) || lex_le(b, a),
{
    lemma_lex_le_total_from(a, b, 0);
}

/// The order is transitive.
pub proof fn lemma_lex_le_transitive(a: Seq<char>, b: Seq<char>, c: Seq<char>)
    requires
        lex_le(a, b),
        lex_le(b, c),
    ensures
        lex_le(a, c),
{
    let i = choose|i: int| comes_first_at(a, b, i);
    let j = choose|j: int| comes_first_at(b, c, j);
    if i <= j {
        assert(comes_first_at(a, c, i));
    } else {
        assert(comes_first_at(a, c, j));
    }
}

/// Two texts that are each at most the other are the same text.
pub proof fn lemma_lex_le_antisymmetric(a: Seq<char>, b: Seq<char>)
    requires
        lex_le(a, b),
        lex_le(b, a),
    ensures
        a == b,
{
    let i = choose|i: int| comes_first_at(a, b, i);
    let j = choose|j: int| comes_first_at(b, a, j);
    assert(a =~= b);
}

/// The order is that of the dictionary: a text that is at most another is
/// its prefix, or has the smaller character where the two first differ.
pub proof fn lemma_lex_le_is_prefix_or_smaller(a: Seq<char>, b: Seq<char>)
    ensures
        lex_le(a, b) <==> a.is_prefix_of(b) || exists|k: int|
            agree_up_to(a, b, k) && k < a.len() && k < b.len() && a[k] < b[k],
{
    if lex_le(a, b) {
        let k = choose|k: int| comes_first_at(a, b, k);
        if k == a.len() {
            assert(a =~= b.subrange(0, a.len() as int));
        }
    }
    if a.is_prefix_of(b) {
        assert forall|i: int| 0 <= i < a.len() implies a[i] == b[i] by {
            assert(b.subrange(0, a.len() as int)[i] == b[i]);
        }
        assert(comes_first_at(a, b, a.len() as int));
    }
    if exists|k: int| agree_up_to(a, b, k) && k < a.len() && k < b.len() && a[k] < b[k] {
        let k = choose|k: int| agree_up_to(a, b, k) && k < a.len() && k < b.len() && a[k] < b[k];
        assert(comes_first_at(a, b, k));
    }
}

/// Decides whether two texts are the same.
pub fn text_eq(a: &str, b: &str) -> (same: bool)
    ensures
        same == (a@ == b@),
{
    let mut rest_a = a.chars();
    let mut rest_b = b.chars();
    let ghost mut k: int = 0;
    loop
        invariant
            agree_up_to(a@, b@, k),
            rest_a.remaining() == a@.subrange(k, a@.len() as int),
            rest_b.remaining() == b@.subrange(k, b@.len() as int),
        decreases a@.len() - k,
    {
        let next_a = rest_a.next();
        let next_b = rest_b.next();
        match (next_a, next_b) {
            (None, None) => {
                assert(a@ =~= b@);
                return true;
            },
            (None, Some(_)) => {
                return false;
            },
            (Some(_), None) => {
                return false;
            },
            (Some(x), Some(y)) => {
                assert(x == a@[k] && y == b@[k]);
                if x != y {
                    return false;
                }
                proof {
                    assert(a@.subrange(k, a@.len() as int).drop_first() =~= a@.subrange(
                        k + 1,
                        a@.len() as int,
                    ));
                    assert(b@.subrange(k, b@.len() as int).drop_first() =~= b@.subrange(
                        k + 1,
                        b@.len() as int,
                    ));
                    k = k + 1;
                }
            },
        }
    }
}

/// `needle` stands in `hay` at position `at`.
pub open spec fn occurs_at(hay: Seq<char>, needle: Seq<char>, at: int) -> bool {
    &&& 0 <= at
    &&& at + needle.len() <= hay.len()
    &&& hay.subrange(at, at + needle.len()) == needle
}

/// `needle` stands somewhere in `hay`. The empty text stands in every text.
pub open spec fn occurs_in(hay: Seq<char>, needle: Seq<char>) -> bool {
    exists|at: int| occurs_at(hay, needle, at)
}

/// The characters of a text, for access by position.
pub fn chars_of(s: &str) -> (chars: Vec<char>)
    ensures
        chars@ == s@,
{
    let mut chars: Vec<char> = Vec::new();
    let mut rest = s.chars();
    loop
        invariant
            chars@ + rest.remaining() == s@,
        decreases s@.len() - chars@.len(),
    {
        let ghost before = rest.remaining();
        match rest.next() {
            None => {
                assert(chars@ + before =~= chars@);
                return chars;
            },
            Some(c) => {
                chars.push(c);
                assert(chars@ + before.drop_first() =~= chars@.drop_last() + before);
            },
        }
    }
}

fn matches_at(hay: &Vec<char>, needle: &Vec<char>, at: usize) -> (found: bool)
    requires
        at + needle.len() <= hay.len(),
    ensures
        found == occurs_at(hay@, needle@, at as int),
{
    let mut i: usize = 0;
    while i < needle.len()
        invariant
            at + needle.len() <= hay.len(),
            i <= needle.len(),
            forall|j: int| 0 <= j < i ==> hay@[at + j] == needle@[j],
        decreases needle.len() - i,
    {
        if hay[at + i] != needle[i] {
            assert(hay@.subrange(at as int, at + needle.len())[i as int] == hay@[at + i]);
            return false;
        }
        i += 1;
    }
    assert(hay@.subrange(at as int, at + needle.len()) =~= needle@);
    true
}

/// Decides whether `needle` stands somewhere in `hay`.
pub fn text_contains(hay: &str, needle: &str) -> (found: bool)
    ensures
        found == occurs_in(hay@, needle@),
{
    let text = chars_of(hay);
    let wanted = chars_of(needle);
    if wanted.len() == 0 {
        assert(hay@.subrange(0, 0) =~= needle@);
        assert(occurs_at(hay@, needle@, 0));
        return true;
    }
    if wanted.len() > text.len() {
        assert forall|at: int| !occurs_at(hay@, needle@, at) by {}
        return false;
    }
    let end: usize = text.len() - wanted.len() + 1;
    let mut at: usize = 0;
    while at < end
        invariant
            text@ == hay@,
            wanted@ == needle@,
            end == text.len() - wanted.len() + 1,
            at <= end,
            forall|j: int| 0 <= j < at ==> !occurs_at(hay@, needle@, j),
        decreases end - at,
    {
        if matches_at(&text, &wanted, at) {
            return true;
        }
        at += 1;
    }
    assert forall|j: int| !occurs_at(hay@, needle@, j) by {}
    false
}

/// What `String::from_utf8_lossy` makes of a sequence of bytes.
pub uninterp spec fn lossy_text(bytes: Seq<u8>) -> Seq<char>;

/// Reads bytes as text with std's `String::from_utf8_lossy`. Nothing is
/// proved of the call. Its result is given the name `lossy_text`, as a
/// function of the bytes, and one more thing is taken from its documentation:
/// bytes that are valid UTF-8 come out as the text that they encode. What
/// becomes of other bytes, where U+FFFD is put in, is not stated.
#[verifier::external_body]
pub(crate) fn decode_lossy(bytes: &Vec<u8>) -> (text: String)
    ensures
        text@ == lossy_text(bytes@),
        valid_utf8(bytes@) ==> text@ == decode_utf8(bytes@),
{
    String::from_utf8_lossy(bytes).into_owned()
}

/// The text as which the bytes that a process wrote are shown: the text that
/// they encode where they are valid UTF-8, else what the lenient reading
/// makes of them.
pub open spec fn shown_text(bytes: Seq<u8>) -> Seq<char> {
    if valid_utf8(bytes) {
        decode_utf8(bytes)
    } else {
        lossy_text(bytes)
    }
}

/// Reads what a process wrote as text, leniently: bytes that are not valid
/// UTF-8 do not make it fail.
pub fn read_output(bytes: &Vec<u8>) -> (text: String)
    ensures
        text@ == shown_text(bytes@),
{
    decode_lossy(bytes)
}

/// Bytes that encode a text are shown as that text; nothing is shown for no
/// bytes.
pub proof fn lemma_encoded_text_is_shown(text: Seq<char>)
    ensures
        shown_text(encode_utf8(text)) == text,
        shown_text(Seq::empty()) == Seq::<char>::empty(),
{
    vstd::utf8::encode_utf8_valid_utf8(text);
    vstd::utf8::encode_utf8_decode_utf8(text);
    assert(encode_utf8(Seq::<char>::empty()) =~= Seq::<u8>::empty());
    vstd::utf8::encode_utf8_valid_utf8(Seq::<char>::empty());
    vstd::utf8::encode_utf8_decode_utf8(Seq::<char>::empty());
}

/// Bytes of the ASCII range are shown as written, each as the character
/// with its number.
pub proof fn lemma_ascii_is_shown_as_written(bytes: Seq<u8>)
    requires
        forall|i: int| 0 <= i < bytes.len() ==> bytes[i] < 128,
    ensures
        shown_text(bytes) == Seq::new(bytes.len(), |i: int| bytes[i] as char),
{
    let text = Seq::new(bytes.len(), |i: int| bytes[i] as char);
    assert(vstd::utf8::is_ascii_chars(text));
    vstd::utf8::is_ascii_chars_encode_utf8(text);
    assert(encode_utf8(text) =~= bytes) by {
        assert forall|i: int| 0 <= i < bytes.len() implies encode_utf8(text)[i] == bytes[i] by {
            assert(text[i] as u8 == encode_utf8(text)[i]);
        }
    }
    lemma_encoded_text_is_shown(text);
}

} // verus!
