//! Display widths of text and splitting a line at a display column.

use vstd::prelude::*;

use crate::error::CargoUpdateCheckError;

verus! {

/// An ASCII character other than a line feed: the kind of character that a
/// line of ASCII text holds.
pub open spec fn is_ascii_in_line(c: char) -> bool {
    c <= '\u{7f}' && c != '\n'
}

pub open spec fn all_ascii_in_line(s: Seq<char>) -> bool {
    forall|i: int| 0 <= i < s.len() ==> is_ascii_in_line(#[trigger] s[i])
}

/// The display width that `unicode-width` gives a string that holds a line
/// feed or a character outside ASCII (wide glyphs, combining marks, emoji
/// sequences and the like).
pub uninterp spec fn unicode_text_width(s: Seq<char>) -> nat;

/// The number of terminal columns that `s` takes when rendered.
pub open spec fn text_width(s: Seq<char>) -> nat {
    if all_ascii_in_line(s) {
        s.len()
    } else {
        unicode_text_width(s)
    }
}

/// Relies on `unicode_width::UnicodeWidthStr::width`: in a string of ASCII
/// characters without a line feed each character is one column; any other
/// string's width depends on its characters alone.
#[verifier::external_body]
pub(crate) fn display_width(s: &str) -> (r: usize)
    ensures
        all_ascii_in_line(s@) ==> r == s@.len(),
        !all_ascii_in_line(s@) ==> r == unicode_text_width(s@),
{
    unicode_width::UnicodeWidthStr::width(s)
}

/// Display width of the first `k` characters of `s`.
pub open spec fn prefix_width(s: Seq<char>, k: int) -> int {
    text_width(s.take(k)) as int
}

/// Moving the boundary left from `k` while the prefix is too wide: the first
/// boundary whose prefix is exactly `w` wide, unless a narrower prefix comes
/// first or the start of the line is passed.
pub open spec fn walk_left(s: Seq<char>, w: int, k: int) -> Option<int>
    decreases k,
{
    if prefix_width(s, k) == w {
        Some(k)
    } else if prefix_width(s, k) < w || k <= 0 {
        None
    } else {
        walk_left(s, w, k - 1)
    }
}

/// Moving the boundary right from `k` while the prefix is too narrow: the
/// first boundary whose prefix is exactly `w` wide, unless a wider prefix comes
/// first or the end of the line is reached.
pub open spec fn walk_right(s: Seq<char>, w: int, k: int) -> Option<int>
    decreases s.len() - k,
{
    if prefix_width(s, k) == w {
        Some(k)
    } else if prefix_width(s, k) > w || k >= s.len() {
        None
    } else {
        walk_right(s, w, k + 1)
    }
}

/// Where a line is split so that its head is `w` columns wide. The search
/// starts at the boundary after `w` characters (or at the end of a shorter
/// line) and walks one character at a time towards the target width.
pub open spec fn split_point(s: Seq<char>, w: int) -> Option<int> {
    let start = if w < s.len() { w } else { s.len() as int };
    if prefix_width(s, start) > w {
        walk_left(s, w, start)
    } else {
        walk_right(s, w, start)
    }
}

proof fn lemma_walk_left_bounds(s: Seq<char>, w: int, k: int)
    requires
        0 <= k <= s.len(),
    ensures
        walk_left(s, w, k) matches Some(j) ==> 0 <= j <= k && prefix_width(s, j) == w,
    decreases k,
{
    if prefix_width(s, k) != w && prefix_width(s, k) >= w && k > 0 {
        lemma_walk_left_bounds(s, w, k - 1);
    }
}

proof fn lemma_walk_right_bounds(s: Seq<char>, w: int, k: int)
    requires
        0 <= k <= s.len(),
    ensures
        walk_right(s, w, k) matches Some(j) ==> k <= j <= s.len() && prefix_width(s, j) == w,
    decreases s.len() - k,
{
    if prefix_width(s, k) != w && prefix_width(s, k) <= w && k < s.len() {
        lemma_walk_right_bounds(s, w, k + 1);
    }
}

/// A split point always lies within the line, and the head it leaves is
/// exactly `w` columns wide: the split never falls inside a character, so a
/// double-width character is never cut in half.
pub proof fn lemma_split_point_exact(s: Seq<char>, w: int)
    ensures
        split_point(s, w) matches Some(k) ==> {
            &&& 0 <= k <= s.len()
            &&& text_width(s.take(k)) == w
            &&& s.take(k) + s.skip(k) == s
        },
{
    let start = if w < s.len() { w } else { s.len() as int };
    if start >= 0 {
        lemma_walk_left_bounds(s, w, start);
        lemma_walk_right_bounds(s, w, start);
    }
    if let Some(k) = split_point(s, w) {
        if start < 0 {
            assert(prefix_width(s, start) >= 0);
        }
        assert(s.take(k) + s.skip(k) =~= s);
    }
}

/// A prefix of a line of ASCII text is as wide as it is long.
pub proof fn lemma_ascii_prefix_width(s: Seq<char>, k: int)
    requires
        all_ascii_in_line(s),
        0 <= k <= s.len(),
    ensures
        prefix_width(s, k) == k,
{
    assert(all_ascii_in_line(s.take(k)));
}

/// On a line of ASCII text, splitting at any width up to the line's length
/// gives a head of exactly that many characters, and head and tail together
/// are the line.
pub proof fn lemma_ascii_split(s: Seq<char>, w: int)
    requires
        all_ascii_in_line(s),
        0 <= w <= s.len(),
    ensures
        split_point(s, w) == Some(w),
        s.take(w).len() == w,
        s.take(w) + s.skip(w) == s,
{
    lemma_ascii_prefix_width(s, w);
    assert(s.take(w) + s.skip(w) =~= s);
}

/// Splits `s` so that the head is `width` columns wide, searching as
/// `split_point` describes; fails where that search finds no such boundary.
pub fn split_at_width<'a>(s: &'a str, width: usize) -> (r: Result<(&'a str, &'a str), CargoUpdateCheckError>)
    ensures
        match split_point(s@, width as int) {
            Some(k) => r matches Ok((head, tail)) && head@ == s@.take(k) && tail@ == s@.skip(k),
            None => r matches Err(CargoUpdateCheckError::SplitAtWidth),
        },
{
    let n = s.unicode_len();
    let mut idx: usize = if width < n { width } else { n };
    let w0 = display_width(s.substring_char(0, idx));
    assert(s@.subrange(0, idx as int) == s@.take(idx as int));
    if w0 > width {
        loop
            invariant
                n == s@.len(),
                0 <= idx <= n,
                prefix_width(s@, idx as int) > width,
                walk_left(s@, width as int, idx as int) == split_point(s@, width as int),
            decreases idx,
        {
            if idx == 0 {
                return Err(CargoUpdateCheckError::SplitAtWidth);
            }
            idx = idx - 1;
            let w = display_width(s.substring_char(0, idx));
            assert(s@.subrange(0, idx as int) == s@.take(idx as int));
            if w == width {
                let head = s.substring_char(0, idx);
                let tail = s.substring_char(idx, n);
                assert(s@.subrange(idx as int, n as int) == s@.skip(idx as int));
                return Ok((head, tail));
            }
            if w < width {
                return Err(CargoUpdateCheckError::SplitAtWidth);
            }
        }
    } else {
        let mut w = w0;
        while w < width
            invariant
                n == s@.len(),
                0 <= idx <= n,
                w == prefix_width(s@, idx as int),
                walk_right(s@, width as int, idx as int) == split_point(s@, width as int),
            decreases n - idx,
        {
            if idx >= n {
                return Err(CargoUpdateCheckError::SplitAtWidth);
            }
            idx = idx + 1;
            w = display_width(s.substring_char(0, idx));
            assert(s@.subrange(0, idx as int) == s@.take(idx as int));
        }
        if w == width {
            let head = s.substring_char(0, idx);
            let tail = s.substring_char(idx, n);
            assert(s@.subrange(idx as int, n as int) == s@.skip(idx as int));
            Ok((head, tail))
        } else {
            Err(CargoUpdateCheckError::SplitAtWidth)
        }
    }
}

} // verus!
