//! The markup alphabet: the control characters that carry style, and the
//! one rule that says how many characters a marker takes with it.
//!
//! Both the index map of the editor and the tokenizer of the renderer read
//! a buffer through [`marker_len`], so they cannot disagree on which
//! characters are markup.

use vstd::prelude::*;

verus! {

/// Toggles bold.
pub const BOLD: char = '\u{2}';

/// Selects colours; may be followed by a foreground code, a comma and a
/// background code.
pub const COLOR: char = '\u{3}';

/// Toggles italic.
pub const ITALIC: char = '\u{1D}';

/// Toggles underline.
pub const UNDERLINE: char = '\u{1F}';

/// Clears every toggle and both colours.
pub const RESET: char = '\u{F}';

/// Delimits a client-to-client request; it is dropped without effect.
pub const CTCP: char = '\u{1}';

/// Whether `c` is one of the six markers.
pub open spec fn is_marker(c: char) -> bool {
    c == BOLD || c == COLOR || c == ITALIC || c == UNDERLINE || c == RESET || c == CTCP
}

/// Whether `c` is an ASCII decimal digit.
pub open spec fn is_digit(c: char) -> bool {
    '0' <= c && c <= '9'
}

/// Number of digits, at most two, that stand at index `i` of `s`.
pub open spec fn digits_at(s: Seq<char>, i: int) -> int {
    if 0 <= i < s.len() && is_digit(s[i]) {
        if i + 1 < s.len() && is_digit(s[i + 1]) {
            2
        } else {
            1
        }
    } else {
        0
    }
}

/// Whether a comma stands at index `i` of `s`.
pub open spec fn comma_at(s: Seq<char>, i: int) -> bool {
    0 <= i < s.len() && s[i] == ','
}

/// Number of characters that the argument of a colour marker takes, where
/// the argument starts at index `i`: up to two foreground digits, then, only
/// if a comma follows at once, the comma and up to two background digits.
pub open spec fn color_args_len(s: Seq<char>, i: int) -> int {
    let fg = digits_at(s, i);
    if comma_at(s, i + fg) {
        fg + 1 + digits_at(s, i + fg + 1)
    } else {
        fg
    }
}

/// Number of characters that the marker at index `i` consumes, itself
/// included.
pub open spec fn marker_len(s: Seq<char>, i: int) -> int
    recommends
        0 <= i < s.len(),
        is_marker(s[i]),
{
    if s[i] == COLOR {
        1 + color_args_len(s, i + 1)
    } else {
        1
    }
}

/// What was read of the argument of one colour marker.
#[derive(Clone, Copy, Debug)]
pub struct ColorArgs {
    /// Number of foreground digits, 0 to 2.
    pub fg_digits: usize,
    /// Whether a comma followed the foreground digits.
    pub comma: bool,
    /// Number of background digits after the comma, 0 to 2.
    pub bg_digits: usize,
}

impl ColorArgs {
    /// Number of characters of the argument.
    pub open spec fn len(self) -> int {
        if self.comma {
            self.fg_digits + 1 + self.bg_digits
        } else {
            self.fg_digits as int
        }
    }

    /// The argument that starts at index `i` of `s`.
    pub open spec fn at(s: Seq<char>, i: int) -> ColorArgs {
        let fg = digits_at(s, i);
        if comma_at(s, i + fg) {
            ColorArgs {
                fg_digits: fg as usize,
                comma: true,
                bg_digits: digits_at(s, i + fg + 1) as usize,
            }
        } else {
            ColorArgs { fg_digits: fg as usize, comma: false, bg_digits: 0 }
        }
    }
}

/// Whether `c` is one of the six markers.
pub fn is_marker_char(c: char) -> (b: bool)
    ensures
        b == is_marker(c),
{
    c == BOLD || c == COLOR || c == ITALIC || c == UNDERLINE || c == RESET || c == CTCP
}

/// Whether `c` is an ASCII decimal digit.
pub fn is_digit_char(c: char) -> (b: bool)
    ensures
        b == is_digit(c),
{
    '0' <= c && c <= '9'
}

/// Counts the digits, at most two, that stand at index `i`.
pub fn count_digits(s: &Vec<char>, i: usize) -> (n: usize)
    ensures
        n == digits_at(s@, i as int),
        n <= 2,
        i + n <= s.len() || n == 0,
{
    if i < s.len() && is_digit_char(s[i]) {
        if i + 1 < s.len() && is_digit_char(s[i + 1]) {
            2
        } else {
            1
        }
    } else {
        0
    }
}

/// Reads the argument of a colour marker, where the argument starts at
/// index `i`.
pub fn scan_color_args(s: &Vec<char>, i: usize) -> (args: ColorArgs)
    requires
        i <= s.len(),
    ensures
        args == ColorArgs::at(s@, i as int),
        args.len() == color_args_len(s@, i as int),
        args.fg_digits <= 2,
        args.bg_digits <= 2,
        i + args.len() <= s.len(),
{
    let fg: usize = count_digits(s, i);
    let at: usize = i + fg;
    if at < s.len() && s[at] == ',' {
        let bg: usize = count_digits(s, at + 1);
        ColorArgs { fg_digits: fg, comma: true, bg_digits: bg }
    } else {
        ColorArgs { fg_digits: fg, comma: false, bg_digits: 0 }
    }
}

/// Number of characters that the marker at index `i` consumes, itself
/// included.
pub fn marker_span(s: &Vec<char>, i: usize) -> (n: usize)
    requires
        i < s.len(),
        is_marker(s@[i as int]),
    ensures
        n == marker_len(s@, i as int),
        1 <= n <= 6,
        i + n <= s.len(),
{
    if s[i] == COLOR {
        let args = scan_color_args(s, i + 1);
        let rest: usize = if args.comma {
            args.fg_digits + 1 + args.bg_digits
        } else {
            args.fg_digits
        };
        1 + rest
    } else {
        1
    }
}

/// The character indices of the visible characters of `s` at or after
/// index `i`, where `i` starts a marker or a visible character.
pub open spec fn visible_from(s: Seq<char>, i: int) -> Seq<int>
    decreases s.len() - i,
{
    if i < 0 || i >= s.len() {
        Seq::empty()
    } else if is_marker(s[i]) {
        visible_from(s, i + marker_len(s, i))
    } else {
        seq![i] + visible_from(s, i + 1)
    }
}

/// The character indices of the visible characters of `s`, ascending.
pub open spec fn visible_positions(s: Seq<char>) -> Seq<int> {
    visible_from(s, 0)
}

/// `s` without its markers and their arguments.
pub open spec fn visible_text(s: Seq<char>) -> Seq<char> {
    visible_positions(s).map_values(|p: int| s[p])
}

/// The visible positions at or after `i` lie in `i..s.len()` and ascend.
pub proof fn lemma_visible_from_bounds(s: Seq<char>, i: int)
    requires
        0 <= i,
    ensures
        visible_from(s, i).len() <= s.len() - i || visible_from(s, i).len() == 0,
        forall|k: int|
            0 <= k < visible_from(s, i).len() ==> i <= #[trigger] visible_from(s, i)[k] < s.len()
                && !is_marker(s[visible_from(s, i)[k]]),
        forall|j: int, k: int|
            0 <= j < k < visible_from(s, i).len() ==> visible_from(s, i)[j] < visible_from(
                s,
                i,
            )[k],
    decreases s.len() - i,
{
    if i >= s.len() {
    } else if is_marker(s[i]) {
        lemma_visible_from_bounds(s, i + marker_len(s, i));
    } else {
        lemma_visible_from_bounds(s, i + 1);
    }
}

/// The visible characters of `s` at or after index `i`.
pub open spec fn visible_text_from(s: Seq<char>, i: int) -> Seq<char> {
    visible_from(s, i).map_values(|p: int| s[p])
}

/// A marker consumes itself and nothing beyond the end of the buffer.
pub proof fn lemma_marker_len_bounds(s: Seq<char>, i: int)
    requires
        0 <= i < s.len(),
    ensures
        1 <= marker_len(s, i) <= 6,
        i + marker_len(s, i) <= s.len(),
{
}

/// In a buffer without markers every character is visible.
pub proof fn lemma_plain_visible_from(s: Seq<char>, i: int)
    requires
        0 <= i <= s.len(),
        forall|j: int| 0 <= j < s.len() ==> !is_marker(#[trigger] s[j]),
    ensures
        visible_from(s, i) == Seq::new((s.len() - i) as nat, |k: int| i + k),
    decreases s.len() - i,
{
    if i < s.len() {
        lemma_plain_visible_from(s, i + 1);
        let rest = Seq::new((s.len() - i - 1) as nat, |k: int| i + 1 + k);
        assert(seq![i] + rest == Seq::new((s.len() - i) as nat, |k: int| i + k));
    }
}

} // verus!
