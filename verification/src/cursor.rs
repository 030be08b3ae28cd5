//! The index map from visible characters to raw byte offsets, and the
//! cursor operations of the prompt that are built on it.

use crate::app::App;
use crate::encoding::{
    byte_offset, chars_of, insert_char_at, lemma_byte_offset_monotone, lemma_byte_offset_step,
    lemma_offset_is_boundary, len_utf8, remove_chars_at, utf8_len,
};
use crate::markup::{
    is_digit, is_marker, is_marker_char, lemma_marker_len_bounds, lemma_plain_visible_from,
    lemma_visible_from_bounds, marker_len, marker_span, visible_from, visible_positions,
    visible_text,
};
use vstd::prelude::*;

verus! {

/// For each visible character of a buffer, in order, the byte offset at
/// which it starts in the raw buffer.
pub struct PromptCursorMap {
    pub visible_to_raw: Vec<usize>,
}

impl View for PromptCursorMap {
    type V = Seq<int>;

    open spec fn view(&self) -> Seq<int> {
        self.visible_to_raw@.map_values(|b: usize| b as int)
    }
}

/// Byte offsets of the visible characters of `s` at or after index `i`.
pub open spec fn index_map_from(s: Seq<char>, i: int) -> Seq<int> {
    visible_from(s, i).map_values(|p: int| byte_offset(s, p) as int)
}

/// The index map of `s`: one entry per visible character, the byte offset
/// of its first byte.
pub open spec fn index_map(s: Seq<char>) -> Seq<int> {
    index_map_from(s, 0)
}

/// Number of visible characters of `s`.
pub open spec fn visible_count(s: Seq<char>) -> nat {
    visible_positions(s).len()
}

/// Character index in `s` at which the visible character `k` starts, or
/// the length of `s` where there is no such character.
pub open spec fn raw_position(s: Seq<char>, k: int) -> int {
    if 0 <= k < visible_positions(s).len() {
        visible_positions(s)[k]
    } else {
        s.len() as int
    }
}

/// `x` confined to `0..=len`.
pub open spec fn clamped(x: int, len: int) -> int {
    if x <= 0 {
        0
    } else if x >= len {
        len
    } else {
        x
    }
}

/// Adds to `off` the encoded length of the characters in `from..to`.
fn offset_after(s: &Vec<char>, from: usize, to: usize, off: usize) -> (r: usize)
    requires
        from <= to <= s.len(),
        off == byte_offset(s@, from as int),
        utf8_len(s@) <= usize::MAX,
    ensures
        r == byte_offset(s@, to as int),
{
    let mut i: usize = from;
    let mut r: usize = off;
    while i < to
        invariant
            from <= i <= to <= s.len(),
            r == byte_offset(s@, i as int),
            utf8_len(s@) <= usize::MAX,
        decreases to - i,
    {
        proof {
            lemma_byte_offset_step(s@, i as int);
            lemma_offset_is_boundary(s@, i + 1);
        }
        r = r + len_utf8(s[i]);
        i = i + 1;
    }
    r
}

/// Builds the index map of `prompt` in one pass from left to right.
pub fn build_prompt_cursor_map(prompt: &str) -> (map: PromptCursorMap)
    ensures
        map@ == index_map(prompt@),
        map.visible_to_raw@.len() == visible_count(prompt@),
{
    let chars = chars_of(prompt);
    let total: usize = prompt.as_bytes().len();
    let mut visible_to_raw: Vec<usize> = Vec::new();
    let mut i: usize = 0;
    let mut off: usize = 0;
    proof {
        assert(chars@.take(0) == Seq::<char>::empty());
        assert(Seq::<int>::empty() + index_map_from(chars@, 0) == index_map(chars@));
    }
    while i < chars.len()
        invariant
            chars@ == prompt@,
            utf8_len(chars@) == total,
            i <= chars.len(),
            off == byte_offset(chars@, i as int),
            visible_to_raw@.map_values(|b: usize| b as int) + index_map_from(chars@, i as int)
                == index_map(chars@),
            visible_to_raw@.len() + visible_from(chars@, i as int).len() == visible_count(
                chars@,
            ),
        decreases chars.len() - i,
    {
        let ghost before = visible_to_raw@.map_values(|b: usize| b as int);
        if is_marker_char(chars[i]) {
            let n: usize = marker_span(&chars, i);
            off = offset_after(&chars, i, i + n, off);
            i = i + n;
        } else {
            visible_to_raw.push(off);
            proof {
                let rest = index_map_from(chars@, i + 1);
                assert(index_map_from(chars@, i as int) == seq![off as int] + rest);
                assert(visible_to_raw@.map_values(|b: usize| b as int) == before.push(
                    off as int,
                ));
                assert(before.push(off as int) + rest == before + (seq![off as int] + rest));
            }
            off = offset_after(&chars, i, i + 1, off);
            i = i + 1;
        }
    }
    proof {
        assert(index_map_from(chars@, i as int) == Seq::<int>::empty());
        assert(visible_to_raw@.map_values(|b: usize| b as int) + Seq::<int>::empty()
            == visible_to_raw@.map_values(|b: usize| b as int));
    }
    PromptCursorMap { visible_to_raw }
}

/// The byte offset of the visible character `visible_cursor`, or the byte
/// length of `prompt` where the map has no such entry.
pub fn byte_index(visible_cursor: usize, map: &PromptCursorMap, prompt: &str) -> (idx: usize)
    ensures
        visible_cursor < map@.len() ==> idx == map@[visible_cursor as int],
        visible_cursor >= map@.len() ==> idx == utf8_len(prompt@),
{
    if visible_cursor < map.visible_to_raw.len() {
        map.visible_to_raw[visible_cursor]
    } else {
        prompt.as_bytes().len()
    }
}

/// Confines a cursor candidate, which may be negative or too large, to the
/// positions of the map: `0..=map.len()`.
pub fn clamp_cursor(new_cursor_pos: isize, map: &PromptCursorMap) -> (cursor: usize)
    ensures
        cursor == clamped(new_cursor_pos as int, map@.len() as int),
        cursor <= map@.len(),
{
    let len: usize = map.visible_to_raw.len();
    if new_cursor_pos <= 0 {
        0
    } else {
        let wanted: usize = new_cursor_pos as usize;
        if wanted >= len {
            len
        } else {
            wanted
        }
    }
}

/// Plain text maps onto itself: a buffer without markers has one map
/// entry per character, the entry `i` is the byte offset of the character
/// `i`, and its visible text is the buffer.
pub proof fn lemma_plain_text_identity(s: Seq<char>)
    requires
        forall|j: int| 0 <= j < s.len() ==> !is_marker(#[trigger] s[j]),
    ensures
        index_map(s).len() == s.len(),
        visible_count(s) == s.len(),
        forall|i: int| 0 <= i < s.len() ==> #[trigger] index_map(s)[i] == byte_offset(s, i),
        forall|i: int| 0 <= i < s.len() ==> raw_position(s, i) == i,
        visible_text(s) == s,
{
    lemma_plain_visible_from(s, 0);
    assert(visible_text(s) =~= s);
}

/// Every entry of the index map is a character boundary of the encoded
/// buffer, the entries ascend, and there is one for each visible
/// character.
pub proof fn lemma_index_map_boundaries(s: Seq<char>)
    ensures
        index_map(s).len() == visible_text(s).len(),
        forall|k: int|
            0 <= k < index_map(s).len() ==> vstd::utf8::is_char_boundary(
                vstd::utf8::encode_utf8(s),
                #[trigger] index_map(s)[k],
            ) && index_map(s)[k] < utf8_len(s),
        forall|j: int, k: int|
            0 <= j < k < index_map(s).len() ==> index_map(s)[j] < index_map(s)[k],
{
    lemma_visible_from_bounds(s, 0);
    assert forall|k: int| 0 <= k < index_map(s).len() implies vstd::utf8::is_char_boundary(
        vstd::utf8::encode_utf8(s),
        #[trigger] index_map(s)[k],
    ) && index_map(s)[k] < utf8_len(s) by {
        let p = visible_positions(s)[k];
        lemma_offset_is_boundary(s, p);
        lemma_byte_offset_monotone(s, p, s.len() as int);
        assert(s.take(s.len() as int) == s);
    }
    assert forall|j: int, k: int| 0 <= j < k < index_map(s).len() implies index_map(s)[j]
        < index_map(s)[k] by {
        lemma_byte_offset_monotone(s, visible_positions(s)[j], visible_positions(s)[k]);
    }
}

/// The buffer `s` without a marker that it begins with, argument included.
pub open spec fn strip_leading_marker(s: Seq<char>) -> Seq<char> {
    if s.len() > 0 && is_marker(s[0]) {
        s.skip(marker_len(s, 0))
    } else {
        s
    }
}

/// The buffer `s` after a backspace at visible position `k > 0`, before any
/// leading marker is stripped: the visible character `k - 1` is gone, and
/// with it the markup between it and the visible character `k`.
pub open spec fn without_visible(s: Seq<char>, k: int) -> Seq<char> {
    s.take(raw_position(s, k - 1)) + s.skip(raw_position(s, k))
}

/// Buffer and cursor after a character `c` is entered into `s` with the
/// cursor at `k`: `c` stands before the visible character `k`, or at the
/// end where there is none, and the cursor has moved right by one, within
/// the new buffer.
pub open spec fn entered(s: Seq<char>, k: int, c: char) -> (Seq<char>, int) {
    let after = s.insert(raw_position(s, k), c);
    (after, clamped(k + 1, visible_count(after) as int))
}

/// Buffer and cursor after a backspace in `s` with the cursor at `k`.
/// At 0 nothing changes. Otherwise the visible character before the
/// cursor goes, and the cursor moves left by one, within the old buffer;
/// a cursor that reaches 0 takes a leading marker with it.
pub open spec fn deleted(s: Seq<char>, k: int) -> (Seq<char>, int) {
    if k <= 0 {
        (s, 0)
    } else {
        let cut = without_visible(s, k);
        let cursor = clamped(k - 1, visible_count(s) as int);
        if cursor == 0 {
            (strip_leading_marker(cut), cursor)
        } else {
            (cut, cursor)
        }
    }
}

/// The byte offset held by the map for `k` is that of `raw_position(s, k)`.
pub proof fn lemma_byte_index(s: Seq<char>, k: int)
    requires
        0 <= k,
    ensures
        0 <= raw_position(s, k) <= s.len(),
        k < visible_count(s) ==> index_map(s)[k] == byte_offset(s, raw_position(s, k)),
        k >= visible_count(s) ==> utf8_len(s) == byte_offset(s, raw_position(s, k)),
        raw_position(s, k) <= raw_position(s, k + 1),
{
    lemma_visible_from_bounds(s, 0);
    assert(s.take(s.len() as int) == s);
}

/// Inserts `new_char` before the visible character under the cursor, or at
/// the end of the prompt where the cursor is past the last one, and moves
/// the cursor one visible position to the right.
pub fn enter_char(app: &mut App, new_char: char)
    ensures
        (final(app).prompt@, final(app).character_index as int) == entered(
            old(app).prompt@,
            old(app).character_index as int,
            new_char,
        ),
        final(app).same_but_prompt(old(app)),
{
    let map = build_prompt_cursor_map(app.prompt.as_str());
    let idx: usize = byte_index(app.character_index, &map, app.prompt.as_str());
    let ghost at = raw_position(app.prompt@, app.character_index as int);
    proof {
        lemma_byte_index(app.prompt@, app.character_index as int);
    }
    insert_char_at(&mut app.prompt, idx, new_char, Ghost(at));
    let map = build_prompt_cursor_map(app.prompt.as_str());
    let len: usize = map.visible_to_raw.len();
    if app.character_index >= len {
        app.character_index = len;
    } else {
        app.character_index = app.character_index + 1;
    }
}

/// Moves the cursor one visible position to the right, within `map`.
pub fn move_cursor_right(app: &mut App, map: &PromptCursorMap)
    ensures
        final(app).character_index == clamped(old(app).character_index + 1, map@.len() as int),
        final(app).prompt == old(app).prompt,
        final(app).same_but_prompt(old(app)),
{
    let len: usize = map.visible_to_raw.len();
    if app.character_index >= len {
        app.character_index = len;
    } else {
        app.character_index = app.character_index + 1;
    }
}

/// Moves the cursor one visible position to the left, within `map`.
pub fn move_cursor_left(app: &mut App, map: &PromptCursorMap)
    ensures
        final(app).character_index == clamped(old(app).character_index - 1, map@.len() as int),
        final(app).prompt == old(app).prompt,
        final(app).same_but_prompt(old(app)),
{
    let len: usize = map.visible_to_raw.len();
    if app.character_index == 0 {
        app.character_index = 0;
    } else if app.character_index - 1 >= len {
        app.character_index = len;
    } else {
        app.character_index = app.character_index - 1;
    }
}

/// Puts the cursor before the first visible character.
pub fn reset_cursor(app: &mut App)
    ensures
        final(app).character_index == 0,
        final(app).prompt == old(app).prompt,
        final(app).same_but_prompt(old(app)),
{
    app.character_index = 0;
}

/// Backspace. With the cursor at 0 nothing changes. Otherwise the visible
/// character before the cursor is removed, together with the markup that
/// follows it up to the next visible character, and the cursor moves one
/// position to the left. If that leaves the cursor at 0 and the prompt
/// begins with a marker, the marker and its argument are removed too.
pub fn delete_char(app: &mut App)
    ensures
        (final(app).prompt@, final(app).character_index as int) == deleted(
            old(app).prompt@,
            old(app).character_index as int,
        ),
        old(app).character_index == 0 ==> final(app).prompt == old(app).prompt,
        final(app).same_but_prompt(old(app)),
{
    if app.character_index != 0 {
        let map = build_prompt_cursor_map(app.prompt.as_str());
        let idx: usize = byte_index(app.character_index, &map, app.prompt.as_str());
        let prev_idx: usize = byte_index(app.character_index - 1, &map, app.prompt.as_str());
        let ghost from = raw_position(app.prompt@, app.character_index - 1);
        let ghost to = raw_position(app.prompt@, app.character_index as int);
        proof {
            lemma_byte_index(app.prompt@, app.character_index as int);
            lemma_byte_index(app.prompt@, app.character_index - 1);
        }
        remove_chars_at(&mut app.prompt, prev_idx, idx, Ghost(from), Ghost(to));
        move_cursor_left(app, &map);
        if app.character_index == 0 {
            let chars = chars_of(app.prompt.as_str());
            if chars.len() > 0 && is_marker_char(chars[0]) {
                let n: usize = marker_span(&chars, 0);
                let total: usize = app.prompt.as_str().as_bytes().len();
                proof {
                    assert(chars@.take(0) == Seq::<char>::empty());
                }
                let end: usize = offset_after(&chars, 0, n, 0);
                remove_chars_at(&mut app.prompt, 0, end, Ghost(0), Ghost(n as int));
                proof {
                    assert(chars@.take(0) + chars@.skip(n as int) == chars@.skip(n as int));
                }
            }
        }
    }
}

/// Each position moved one to the right.
pub open spec fn shifted(v: Seq<int>) -> Seq<int> {
    v.map_values(|x: int| x + 1)
}

/// Whether `c` can be no part of markup: it is no marker, no digit and no
/// comma.
pub open spec fn inert(c: char) -> bool {
    !is_marker(c) && !is_digit(c) && c != ','
}

/// Behind an inserted character the buffer reads as before, one position
/// further right.
proof fn lemma_insert_suffix(s: Seq<char>, p: int, c: char, j: int)
    requires
        0 <= p <= j,
        p <= s.len(),
    ensures
        visible_from(s.insert(p, c), j + 1) == shifted(visible_from(s, j)),
    decreases s.len() - j,
{
    let t = s.insert(p, c);
    assert(t.len() == s.len() + 1);
    assert(forall|x: int| p <= x < s.len() ==> t[x + 1] == s[x]);
    if j >= s.len() {
        assert(visible_from(t, j + 1) == Seq::<int>::empty());
        assert(shifted(visible_from(s, j)) == Seq::<int>::empty());
    } else if is_marker(s[j]) {
        lemma_marker_len_bounds(s, j);
        assert(marker_len(t, j + 1) == marker_len(s, j));
        lemma_insert_suffix(s, p, c, j + marker_len(s, j));
    } else {
        lemma_insert_suffix(s, p, c, j + 1);
        assert(shifted(seq![j] + visible_from(s, j + 1)) == seq![j + 1] + shifted(
            visible_from(s, j + 1),
        ));
    }
}

/// Up to an inserted character that stays visible the buffer reads as
/// before: the visible positions from `i` on are those of the old buffer
/// below `p`, then `p`, then the rest moved one to the right.
proof fn lemma_insert_prefix(s: Seq<char>, p: int, c: char, i: int) -> (m: int)
    requires
        0 <= i <= p <= s.len(),
        inert(c) || visible_from(s.insert(p, c), i).contains(p),
        p == s.len() || visible_from(s, i).contains(p),
    ensures
        0 <= m <= visible_from(s, i).len(),
        visible_from(s.insert(p, c), i) == visible_from(s, i).take(m) + seq![p] + shifted(
            visible_from(s, i).skip(m),
        ),
        forall|x: int| 0 <= x < m ==> visible_from(s, i)[x] < p,
        forall|x: int| m <= x < visible_from(s, i).len() ==> visible_from(s, i)[x] >= p,
    decreases p - i,
{
    let t = s.insert(p, c);
    let old_v = visible_from(s, i);
    let new_v = visible_from(t, i);
    assert(t.len() == s.len() + 1);
    assert(forall|x: int| 0 <= x < p ==> t[x] == s[x]);
    assert(t[p] == c);
    assert(forall|x: int| p <= x < s.len() ==> t[x + 1] == s[x]);
    lemma_visible_from_bounds(s, i);
    lemma_visible_from_bounds(t, i);
    if i == p {
        if is_marker(c) {
            lemma_marker_len_bounds(t, p);
            lemma_visible_from_bounds(t, p + marker_len(t, p));
            let w = choose|x: int| 0 <= x < new_v.len() && new_v[x] == p;
            assert(false);
        }
        lemma_insert_suffix(s, p, c, p);
        assert(old_v.take(0) == Seq::<int>::empty());
        assert(old_v.skip(0) == old_v);
        assert(Seq::<int>::empty() + seq![p] + shifted(old_v) == seq![p] + shifted(old_v));
        0
    } else if is_marker(s[i]) {
        let n = marker_len(s, i);
        let n1 = marker_len(t, i);
        lemma_marker_len_bounds(s, i);
        lemma_marker_len_bounds(t, i);
        lemma_visible_from_bounds(s, i + n);
        lemma_visible_from_bounds(t, i + n1);
        if p < s.len() {
            let w = choose|x: int| 0 <= x < old_v.len() && old_v[x] == p;
            assert(i + n <= p);
        }
        assert(i + n <= p);
        assert(n1 == n || (i + n == p && n1 > n && !inert(c)));
        if n1 != n {
            let w = choose|x: int| 0 <= x < new_v.len() && new_v[x] == p;
            assert(false);
        }
        lemma_insert_prefix(s, p, c, i + n)
    } else {
        let old_rest = visible_from(s, i + 1);
        let new_rest = visible_from(t, i + 1);
        assert(old_v == seq![i] + old_rest);
        assert(new_v == seq![i] + new_rest);
        if !inert(c) {
            let w = choose|x: int| 0 <= x < new_v.len() && new_v[x] == p;
            assert(new_rest[w - 1] == p);
        }
        if p < s.len() {
            let w = choose|x: int| 0 <= x < old_v.len() && old_v[x] == p;
            assert(old_rest[w - 1] == p);
        }
        let m = lemma_insert_prefix(s, p, c, i + 1);
        assert(old_v.take(m + 1) == seq![i] + old_rest.take(m));
        assert(old_v.skip(m + 1) == old_rest.skip(m));
        assert(new_v == old_v.take(m + 1) + seq![p] + shifted(old_v.skip(m + 1)));
        m + 1
    }
}

/// Two buffers that agree up to index `a` have the same visible positions
/// below `a`, where the first buffer has a marker or a visible character
/// starting at `a`, or ends there.
proof fn lemma_common_prefix(s: Seq<char>, t: Seq<char>, a: int, i: int) -> (m: int)
    requires
        0 <= i <= a <= s.len(),
        a <= t.len(),
        s.take(a) == t.take(a),
        a == s.len() || visible_from(s, i).contains(a),
    ensures
        0 <= m <= visible_from(s, i).len(),
        m <= visible_from(t, i).len(),
        forall|x: int| 0 <= x < m ==> visible_from(t, i)[x] == visible_from(s, i)[x],
        forall|x: int| 0 <= x < m ==> visible_from(s, i)[x] < a,
        forall|x: int| m <= x < visible_from(s, i).len() ==> visible_from(s, i)[x] >= a,
    decreases a - i,
{
    let old_v = visible_from(s, i);
    let new_v = visible_from(t, i);
    assert forall|x: int| 0 <= x < a implies s[x] == t[x] by {
        assert(s.take(a)[x] == s[x]);
        assert(t.take(a)[x] == t[x]);
    }
    lemma_visible_from_bounds(s, i);
    if i == a {
        0
    } else if is_marker(s[i]) {
        let n = marker_len(s, i);
        lemma_marker_len_bounds(s, i);
        lemma_marker_len_bounds(t, i);
        lemma_visible_from_bounds(s, i + n);
        if a < s.len() {
            let w = choose|x: int| 0 <= x < old_v.len() && old_v[x] == a;
            assert(i + n <= a);
        }
        if i + n == a {
            0
        } else {
            assert(marker_len(t, i) == n);
            lemma_common_prefix(s, t, a, i + n)
        }
    } else {
        let old_rest = visible_from(s, i + 1);
        assert(old_v == seq![i] + old_rest);
        assert(new_v == seq![i] + visible_from(t, i + 1));
        if a < s.len() {
            let w = choose|x: int| 0 <= x < old_v.len() && old_v[x] == a;
            assert(old_rest[w - 1] == a);
        }
        let m = lemma_common_prefix(s, t, a, i + 1);
        assert forall|x: int| 0 <= x < m + 1 implies new_v[x] == old_v[x] && old_v[x] < a by {
            if x > 0 {
                assert(old_v[x] == old_rest[x - 1]);
            }
        }
        assert forall|x: int| m + 1 <= x < old_v.len() implies old_v[x] >= a by {
            assert(old_v[x] == old_rest[x - 1]);
        }
        m + 1
    }
}

/// The cursor never leaves the buffer: after a character is entered and
/// after a backspace it lies within `0..=n`, where `n` is the number of
/// visible characters of the buffer as it then is. This holds from any
/// cursor, in range or not.
pub proof fn lemma_cursor_stays_in_range(s: Seq<char>, k: int, c: char)
    requires
        0 <= k,
    ensures
        0 <= entered(s, k, c).1 <= visible_count(entered(s, k, c).0),
        0 <= deleted(s, k).1 <= visible_count(deleted(s, k).0),
{
    let v = visible_positions(s);
    let cursor = deleted(s, k).1;
    lemma_visible_from_bounds(s, 0);
    if cursor > 0 {
        let cut = without_visible(s, k);
        assert(deleted(s, k).0 == cut);
        if k > v.len() {
            assert(cut =~= s);
        } else {
            let a = v[k - 1];
            let b = raw_position(s, k);
            assert(a < b <= s.len());
            assert(cut.take(a) =~= s.take(a));
            let m = lemma_common_prefix(s, cut, a, 0);
            if m < k - 1 {
                assert(v[m] >= a);
            }
            assert(m >= k - 1);
        }
    }
}

/// Where a character entered at cursor `k` stays visible, the visible
/// positions of the new buffer are those of the old one with the position
/// of the new character put in at index `k` and the later ones moved one
/// to the right. A character that is no marker, no digit and no comma
/// always stays visible.
pub proof fn lemma_entered_positions(s: Seq<char>, k: int, c: char)
    requires
        0 <= k <= visible_count(s),
        inert(c) || visible_positions(entered(s, k, c).0).contains(raw_position(s, k)),
    ensures
        visible_positions(entered(s, k, c).0) == visible_positions(s).take(k) + seq![
            raw_position(s, k),
        ] + shifted(visible_positions(s).skip(k)),
        visible_count(entered(s, k, c).0) == visible_count(s) + 1,
        entered(s, k, c).1 == k + 1,
{
    let p = raw_position(s, k);
    let v = visible_positions(s);
    lemma_visible_from_bounds(s, 0);
    if k < v.len() {
        assert(v[k] == p);
    }
    let m = lemma_insert_prefix(s, p, c, 0);
    if m < k {
        assert(v[m] >= p);
    }
    if k < m {
        assert(v[k] < p);
    }
    assert(m == k);
}

/// Entering a character and deleting it again restores buffer and cursor,
/// provided that the character stays visible where it was put, and that
/// the cursor is not at 0 in front of a leading marker: there the
/// backspace would take the marker as well. A character that is no
/// marker, no digit and no comma always stays visible.
pub proof fn lemma_enter_then_delete(s: Seq<char>, k: int, c: char)
    requires
        0 <= k <= visible_count(s),
        inert(c) || visible_positions(entered(s, k, c).0).contains(raw_position(s, k)),
        !(k == 0 && s.len() > 0 && is_marker(s[0])),
    ensures
        deleted(entered(s, k, c).0, entered(s, k, c).1) == (s, k),
{
    let p = raw_position(s, k);
    let v = visible_positions(s);
    let t = entered(s, k, c).0;
    let u = visible_positions(t);
    lemma_entered_positions(s, k, c);
    lemma_visible_from_bounds(s, 0);
    assert(t.len() == s.len() + 1);
    assert(u[k] == p);
    assert(raw_position(t, k) == p);
    if k < v.len() {
        assert(u[k + 1] == shifted(v.skip(k))[0]);
        assert(v[k] == p);
    }
    assert(raw_position(t, k + 1) == p + 1);
    assert(without_visible(t, k + 1) =~= s);
}

} // verus!
