//! UTF-8 byte offsets of the characters of a string, and the few `String`
//! operations the editor needs that address a string by byte offset.

use vstd::prelude::*;
use vstd::utf8::*;

verus! {

/// Number of bytes that the UTF-8 encoding of `s` takes.
pub open spec fn utf8_len(s: Seq<char>) -> nat {
    encode_utf8(s).len()
}

/// Byte offset at which the character with index `k` starts in the UTF-8
/// encoding of `s`; for `k == s.len()` the length of the encoding.
pub open spec fn byte_offset(s: Seq<char>, k: int) -> nat
    recommends
        0 <= k <= s.len(),
{
    utf8_len(s.take(k))
}

/// Number of bytes that one character takes in UTF-8.
pub open spec fn scalar_len(c: char) -> nat {
    encode_scalar(c as u32).len()
}

/// The encoded length of a character depends on its range alone.
pub proof fn lemma_scalar_len(c: char)
    ensures
        1 <= scalar_len(c) <= 4,
        scalar_len(c) == if (c as u32) < 0x80 {
            1nat
        } else if (c as u32) < 0x800 {
            2nat
        } else if (c as u32) < 0x10000 {
            3nat
        } else {
            4nat
        },
{
    char_is_scalar(c);
}

/// Number of bytes that `c` takes in UTF-8.
pub fn len_utf8(c: char) -> (n: usize)
    ensures
        n == scalar_len(c),
        1 <= n <= 4,
{
    proof {
        lemma_scalar_len(c);
    }
    let v: u32 = c as u32;
    if v < 0x80 {
        1
    } else if v < 0x800 {
        2
    } else if v < 0x10000 {
        3
    } else {
        4
    }
}

/// Encoding distributes over concatenation.
pub proof fn lemma_encode_concat(a: Seq<char>, b: Seq<char>)
    ensures
        encode_utf8(a + b) == encode_utf8(a) + encode_utf8(b),
    decreases a.len(),
{
    if a.len() == 0 {
        assert(a + b == b);
        assert(encode_utf8(a) + encode_utf8(b) == encode_utf8(b));
    } else {
        lemma_encode_concat(a.drop_first(), b);
        assert((a + b).drop_first() == a.drop_first() + b);
        assert((a + b)[0] == a[0]);
        assert(encode_utf8(a + b) == encode_scalar(a[0] as u32) + (encode_utf8(a.drop_first())
            + encode_utf8(b)));
        assert(encode_utf8(a + b) == encode_utf8(a) + encode_utf8(b));
    }
}

/// The encoding of one character is the encoding of its scalar value.
pub proof fn lemma_encode_single(c: char)
    ensures
        encode_utf8(seq![c]) == encode_scalar(c as u32),
{
    let s = seq![c];
    assert(s.drop_first() == Seq::<char>::empty());
    assert(encode_utf8(s.drop_first()) == Seq::<u8>::empty());
    assert(encode_utf8(s) == encode_scalar(c as u32) + Seq::<u8>::empty());
    assert(encode_scalar(c as u32) + Seq::<u8>::empty() == encode_scalar(c as u32));
}

/// Offsets grow by the encoded length of each character passed.
pub proof fn lemma_byte_offset_step(s: Seq<char>, k: int)
    requires
        0 <= k < s.len(),
    ensures
        byte_offset(s, k + 1) == byte_offset(s, k) + scalar_len(s[k]),
        byte_offset(s, 0) == 0,
{
    assert(s.take(k + 1) == s.take(k) + seq![s[k]]);
    lemma_encode_concat(s.take(k), seq![s[k]]);
    lemma_encode_single(s[k]);
    assert(s.take(0) == Seq::<char>::empty());
}

/// Offsets are monotone in the character index.
pub proof fn lemma_byte_offset_monotone(s: Seq<char>, i: int, j: int)
    requires
        0 <= i <= j <= s.len(),
    ensures
        byte_offset(s, i) <= byte_offset(s, j),
        i < j ==> byte_offset(s, i) < byte_offset(s, j),
        byte_offset(s, j) == byte_offset(s, i) + utf8_len(s.subrange(i, j)),
    decreases j - i,
{
    assert(s.take(j) == s.take(i) + s.subrange(i, j));
    lemma_encode_concat(s.take(i), s.subrange(i, j));
    if i < j {
        lemma_byte_offset_monotone(s, i, j - 1);
        lemma_byte_offset_step(s, j - 1);
        lemma_scalar_len(s[j - 1]);
    }
}

/// Every character index falls on a character boundary of the encoding.
pub proof fn lemma_offset_is_boundary(s: Seq<char>, k: int)
    requires
        0 <= k <= s.len(),
    ensures
        is_char_boundary(encode_utf8(s), byte_offset(s, k) as int),
        byte_offset(s, k) <= utf8_len(s),
    decreases k,
{
    encode_utf8_valid_utf8(s);
    lemma_byte_offset_monotone(s, k, s.len() as int);
    assert(s.take(s.len() as int) == s);
    if k == 0 {
        assert(s.take(0) == Seq::<char>::empty());
    } else {
        let bytes = encode_utf8(s);
        let rest = s.drop_first();
        encode_utf8_first_scalar(s);
        assert(pop_first_scalar(bytes) == encode_utf8(rest));
        lemma_offset_is_boundary(rest, k - 1);
        assert(s.take(k) == seq![s[0]] + rest.take(k - 1));
        lemma_encode_concat(seq![s[0]], rest.take(k - 1));
        lemma_encode_single(s[0]);
        lemma_scalar_len(s[0]);
        assert(byte_offset(s, k) == scalar_len(s[0]) + byte_offset(rest, k - 1));
    }
}

/// Two strings with the same encoding are the same string.
pub proof fn lemma_encode_injective(a: Seq<char>, b: Seq<char>)
    requires
        encode_utf8(a) == encode_utf8(b),
    ensures
        a == b,
{
    encode_utf8_decode_utf8(a);
    encode_utf8_decode_utf8(b);
}

/// The encoding splits at the offset of any character index.
pub proof fn lemma_encode_split(s: Seq<char>, k: int)
    requires
        0 <= k <= s.len(),
    ensures
        encode_utf8(s).subrange(0, byte_offset(s, k) as int) == encode_utf8(s.take(k)),
        encode_utf8(s).subrange(byte_offset(s, k) as int, utf8_len(s) as int) == encode_utf8(
            s.skip(k),
        ),
{
    assert(s == s.take(k) + s.skip(k));
    lemma_encode_concat(s.take(k), s.skip(k));
    let a = encode_utf8(s.take(k));
    let b = encode_utf8(s.skip(k));
    assert((a + b).subrange(0, a.len() as int) == a);
    assert((a + b).subrange(a.len() as int, (a + b).len() as int) == b);
}

/// `String::push` appends one character to the end of the string.
pub assume_specification[ String::push ](s: &mut String, ch: char)
    ensures
        final(s)@ == old(s)@.push(ch),
;

/// `String::insert` puts the encoding of `ch` at byte position `idx` and
/// keeps the bytes on both sides. It panics unless `idx` is a character
/// boundary within the string, which the precondition demands.
pub assume_specification[ String::insert ](s: &mut String, idx: usize, ch: char)
    requires
        is_char_boundary(encode_utf8(old(s)@), idx as int),
    ensures
        encode_utf8(final(s)@) == encode_utf8(old(s)@).subrange(0, idx as int) + encode_scalar(
            ch as u32,
        ) + encode_utf8(old(s)@).subrange(idx as int, encode_utf8(old(s)@).len() as int),
;

/// `String::replace_range` with an empty replacement removes the bytes in
/// `start..end` and keeps the bytes on both sides. It panics unless both
/// ends are character boundaries within the string and `start <= end`,
/// which the precondition demands.
#[verifier::external_body]
fn remove_bytes(s: &mut String, start: usize, end: usize)
    requires
        start <= end,
        is_char_boundary(encode_utf8(old(s)@), start as int),
        is_char_boundary(encode_utf8(old(s)@), end as int),
    ensures
        encode_utf8(final(s)@) == encode_utf8(old(s)@).subrange(0, start as int) + encode_utf8(
            old(s)@,
        ).subrange(end as int, encode_utf8(old(s)@).len() as int),
{
    s.replace_range(start..end, "");
}

/// Inserts `ch` before the character with index `k`, addressed by its byte
/// offset `idx`.
pub(crate) fn insert_char_at(s: &mut String, idx: usize, ch: char, Ghost(k): Ghost<int>)
    requires
        0 <= k <= old(s)@.len(),
        idx == byte_offset(old(s)@, k),
    ensures
        final(s)@ == old(s)@.insert(k, ch),
{
    let ghost before = s@;
    proof {
        lemma_offset_is_boundary(before, k);
    }
    s.insert(idx, ch);
    proof {
        let after = s@;
        let want = before.insert(k, ch);
        lemma_encode_split(before, k);
        assert(want == before.take(k) + seq![ch] + before.skip(k));
        lemma_encode_concat(before.take(k) + seq![ch], before.skip(k));
        lemma_encode_concat(before.take(k), seq![ch]);
        lemma_encode_single(ch);
        lemma_encode_injective(after, want);
    }
}

/// Removes the characters with indices in `from..to`, addressed by the byte
/// offsets `start..end`.
pub(crate) fn remove_chars_at(
    s: &mut String,
    start: usize,
    end: usize,
    Ghost(from): Ghost<int>,
    Ghost(to): Ghost<int>,
)
    requires
        0 <= from <= to <= old(s)@.len(),
        start == byte_offset(old(s)@, from),
        end == byte_offset(old(s)@, to),
    ensures
        final(s)@ == old(s)@.take(from) + old(s)@.skip(to),
{
    let ghost before = s@;
    proof {
        lemma_offset_is_boundary(before, from);
        lemma_offset_is_boundary(before, to);
        lemma_byte_offset_monotone(before, from, to);
    }
    remove_bytes(s, start, end);
    proof {
        let after = s@;
        let want = before.take(from) + before.skip(to);
        lemma_encode_split(before, from);
        lemma_encode_split(before, to);
        lemma_encode_concat(before.take(from), before.skip(to));
        lemma_encode_injective(after, want);
    }
}

/// The characters of `s`, in order.
pub fn chars_of(s: &str) -> (v: Vec<char>)
    ensures
        v@ == s@,
{
    let mut v: Vec<char> = Vec::new();
    for c in it: s.chars()
        invariant
            it.seq() == s@,
            v@ == s@.take(it.index()),
    {
        v.push(c);
        assert(s@.take(it.index() + 1) == s@.take(it.index()).push(s@[it.index()]));
    }
    assert(s@.take(s@.len() as int) == s@);
    v
}

} // verus!
