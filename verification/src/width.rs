//! The number of terminal columns a rendered string takes up.

use vstd::prelude::*;
use unicode_width::UnicodeWidthStr;
use crate::text::chars_of;

verus! {

/// The width in columns that the `unicode-width` crate gives a string.
pub uninterp spec fn unicode_str_width(s: Seq<char>) -> usize;

/// Calls `UnicodeWidthStr::width`; its result is named, not stated: it is
/// the width of `s` by the crate's Unicode tables and ligature rules.
#[verifier::external_body]
fn str_width(s: &str) -> (w: usize)
    ensures
        w == unicode_str_width(s@),
{
    UnicodeWidthStr::width(s)
}

/// The number of bytes of `c` in UTF-8.
pub open spec fn char_utf8_len(c: char) -> nat {
    if (c as u32) < 0x80 {
        1
    } else if (c as u32) < 0x800 {
        2
    } else if (c as u32) < 0x10000 {
        3
    } else {
        4
    }
}

/// The number of bytes of `s` in UTF-8.
pub open spec fn utf8_len(s: Seq<char>) -> nat
    decreases s.len(),
{
    if s.len() == 0 {
        0
    } else {
        utf8_len(s.drop_last()) + char_utf8_len(s.last())
    }
}

/// An escape sequence `ESC [` starts at `i`.
pub open spec fn csi_at(s: Seq<char>, i: int) -> bool {
    0 <= i && i + 1 < s.len() && s[i] == '\x1b' && s[i + 1] == '['
}

/// A hyperlink escape `ESC ] 8 ; ;` starts at `i`.
pub open spec fn osc8_at(s: Seq<char>, i: int) -> bool {
    0 <= i && i + 4 < s.len() && s[i] == '\x1b' && s[i + 1] == ']' && s[i + 2] == '8' && s[i
        + 3] == ';' && s[i + 4] == ';'
}

/// The string terminator `ESC \` starts at `i`.
pub open spec fn st_at(s: Seq<char>, i: int) -> bool {
    0 <= i && i + 1 < s.len() && s[i] == '\x1b' && s[i + 1] == '\\'
}

/// The first position at or after `i` that holds `m`.
pub open spec fn first_m_from(s: Seq<char>, i: int) -> Option<int>
    decreases s.len() - i,
{
    if i < 0 || i >= s.len() {
        None
    } else if s[i] == 'm' {
        Some(i)
    } else {
        first_m_from(s, i + 1)
    }
}

/// The first position at or after `i` where a string terminator starts.
pub open spec fn first_st_from(s: Seq<char>, i: int) -> Option<int>
    decreases s.len() - i,
{
    if i < 0 || i >= s.len() {
        None
    } else if st_at(s, i) {
        Some(i)
    } else {
        first_st_from(s, i + 1)
    }
}

/// The bytes of the color escape starting at `i`: up to and with the next `m`.
pub open spec fn csi_span(s: Seq<char>, i: int) -> int {
    match first_m_from(s, i) {
        Some(j) => utf8_len(s.subrange(i, j)) as int + 1,
        None => 0,
    }
}

/// The bytes of the hyperlink escape starting at `i`: up to and with the
/// next string terminator.
pub open spec fn osc_span(s: Seq<char>, i: int) -> int {
    match first_st_from(s, i) {
        Some(j) => utf8_len(s.subrange(i, j)) as int + 2,
        None => 0,
    }
}

/// What position `i` adds to the invisible bytes of `s`.
pub open spec fn invisible_at(s: Seq<char>, i: int, hyperlink: bool) -> int {
    (if csi_at(s, i) { csi_span(s, i) } else { 0 }) + (if hyperlink && osc8_at(s, i) {
        osc_span(s, i)
    } else {
        0
    })
}

/// The invisible bytes that start before position `n`.
pub open spec fn invisible_upto(s: Seq<char>, n: int, hyperlink: bool) -> int
    decreases n,
{
    if n <= 0 {
        0
    } else {
        invisible_upto(s, n - 1, hyperlink) + invisible_at(s, n - 1, hyperlink)
    }
}

/// The bytes of `s` taken by color escapes (each counted from its `ESC [`
/// through the next `m`) and, with `hyperlink`, by hyperlink escapes (each
/// from its `ESC ] 8 ; ;` through the next `ESC \`).
pub open spec fn invisible_len(s: Seq<char>, hyperlink: bool) -> int {
    invisible_upto(s, s.len() as int, hyperlink)
}

/// Whether the invisible bytes of `s` are no more than its Unicode width,
/// so that the one can be taken from the other.
pub open spec fn width_fits(s: Seq<char>, hyperlink: bool) -> bool {
    invisible_len(s, hyperlink) <= unicode_str_width(s)
}

/// The width of `s` less its invisible bytes, where those are no more (see
/// `width_fits`; elsewhere 0, a value no function here computes).
pub open spec fn visible_width(s: Seq<char>, hyperlink: bool) -> nat {
    let w = unicode_str_width(s) as int;
    let inv = invisible_len(s, hyperlink);
    if inv <= w {
        (w - inv) as nat
    } else {
        0
    }
}

proof fn lemma_invisible_upto_nonneg(s: Seq<char>, n: int, hyperlink: bool)
    ensures
        invisible_upto(s, n, hyperlink) >= 0,
    decreases n,
{
    if n > 0 {
        lemma_invisible_upto_nonneg(s, n - 1, hyperlink);
    }
}

proof fn lemma_no_escape_upto(s: Seq<char>, n: int, hyperlink: bool)
    requires
        forall|i: int| 0 <= i < s.len() ==> s[i] != '\x1b',
        n <= s.len(),
    ensures
        invisible_upto(s, n, hyperlink) == 0,
    decreases n,
{
    if n > 0 {
        lemma_no_escape_upto(s, n - 1, hyperlink);
    }
}

/// Text without escape characters is as wide as its Unicode width (and so
/// can always be measured).
pub proof fn lemma_plain_text_width(s: Seq<char>, hyperlink: bool)
    requires
        forall|i: int| 0 <= i < s.len() ==> s[i] != '\x1b',
    ensures
        width_fits(s, hyperlink),
        visible_width(s, hyperlink) == unicode_str_width(s),
{
    lemma_no_escape_upto(s, s.len() as int, hyperlink);
}

/// No text is wider than its Unicode width, so a visible width always fits
/// in `usize`.
pub proof fn lemma_visible_width_bounded(s: Seq<char>, hyperlink: bool)
    ensures
        visible_width(s, hyperlink) <= unicode_str_width(s),
{
    lemma_invisible_upto_nonneg(s, s.len() as int, hyperlink);
}

/// The UTF-8 length of `c`.
fn char_len_utf8(c: char) -> (n: usize)
    ensures
        n == char_utf8_len(c),
{
    let u = c as u32;
    if u < 0x80 {
        1
    } else if u < 0x800 {
        2
    } else if u < 0x10000 {
        3
    } else {
        4
    }
}

/// The UTF-8 length of `s[i..j]`, `None` where it exceeds `usize::MAX`.
fn utf8_len_between(s: &Vec<char>, i: usize, j: usize) -> (n: Option<usize>)
    requires
        i <= j <= s@.len(),
    ensures
        n is Some <==> utf8_len(s@.subrange(i as int, j as int)) <= usize::MAX,
        n matches Some(v) ==> v == utf8_len(s@.subrange(i as int, j as int)),
{
    let mut n: usize = 0;
    let mut k: usize = i;
    assert(s@.subrange(i as int, i as int) =~= Seq::<char>::empty());
    while k < j
        invariant
            i <= k <= j <= s@.len(),
            n == utf8_len(s@.subrange(i as int, k as int)),
        decreases j - k,
    {
        let l = char_len_utf8(s[k]);
        assert(s@.subrange(i as int, k + 1).drop_last() =~= s@.subrange(i as int, k as int));
        if l > usize::MAX - n {
            proof {
                lemma_utf8_len_grows(s@, i as int, k + 1, j as int);
            }
            return None;
        }
        n = n + l;
        k = k + 1;
    }
    Some(n)
}

/// Longer stretches take no fewer bytes.
proof fn lemma_utf8_len_grows(s: Seq<char>, i: int, k: int, j: int)
    requires
        0 <= i <= k <= j <= s.len(),
    ensures
        utf8_len(s.subrange(i, k)) <= utf8_len(s.subrange(i, j)),
    decreases j - k,
{
    if k < j {
        lemma_utf8_len_grows(s, i, k, j - 1);
        assert(s.subrange(i, j).drop_last() =~= s.subrange(i, j - 1));
    }
}

/// The first position at or after `i` that holds `m`.
fn find_m(s: &Vec<char>, i: usize) -> (r: Option<usize>)
    requires
        i <= s@.len(),
    ensures
        match r {
            Some(j) => first_m_from(s@, i as int) == Some(j as int),
            None => first_m_from(s@, i as int) is None,
        },
    decreases s@.len() - i,
{
    if i >= s.len() {
        None
    } else if s[i] == 'm' {
        Some(i)
    } else {
        find_m(s, i + 1)
    }
}

/// The first position at or after `i` where `ESC \` starts.
fn find_st(s: &Vec<char>, i: usize) -> (r: Option<usize>)
    requires
        i <= s@.len(),
    ensures
        match r {
            Some(j) => first_st_from(s@, i as int) == Some(j as int),
            None => first_st_from(s@, i as int) is None,
        },
    decreases s@.len() - i,
{
    if i >= s.len() {
        None
    } else if i + 1 < s.len() && s[i] == '\x1b' && s[i + 1] == '\\' {
        Some(i)
    } else {
        find_st(s, i + 1)
    }
}

proof fn lemma_first_m_bounds(s: Seq<char>, i: int)
    ensures
        first_m_from(s, i) matches Some(j) ==> i <= j < s.len(),
    decreases s.len() - i,
{
    if 0 <= i < s.len() && s[i] != 'm' {
        lemma_first_m_bounds(s, i + 1);
    }
}

proof fn lemma_first_st_bounds(s: Seq<char>, i: int)
    ensures
        first_st_from(s, i) matches Some(j) ==> i <= j < s.len(),
    decreases s.len() - i,
{
    if 0 <= i < s.len() && !st_at(s, i) {
        lemma_first_st_bounds(s, i + 1);
    }
}

proof fn lemma_invisible_at_nonneg(s: Seq<char>, i: int, hyperlink: bool)
    ensures
        invisible_at(s, i, hyperlink) >= 0,
{
}

/// Invisible bytes only add up.
proof fn lemma_invisible_upto_grows(s: Seq<char>, k: int, n: int, hyperlink: bool)
    requires
        k <= n,
    ensures
        invisible_upto(s, k, hyperlink) <= invisible_upto(s, n, hyperlink),
    decreases n - k,
{
    if k < n {
        lemma_invisible_upto_grows(s, k, n - 1, hyperlink);
        if n > 0 {
            lemma_invisible_at_nonneg(s, n - 1, hyperlink);
        }
    }
}

/// The invisible bytes of `s`, `None` where they exceed `usize::MAX`.
fn invisible_bytes(s: &Vec<char>, hyperlink: bool) -> (n: Option<usize>)
    ensures
        n is Some <==> invisible_len(s@, hyperlink) <= usize::MAX,
        n matches Some(v) ==> v == invisible_len(s@, hyperlink),
{
    let mut acc: usize = 0;
    let mut i: usize = 0;
    while i < s.len()
        invariant
            i <= s@.len(),
            acc == invisible_upto(s@, i as int, hyperlink),
        decreases s@.len() - i,
    {
        proof {
            lemma_invisible_upto_grows(s@, i + 1, s@.len() as int, hyperlink);
            lemma_invisible_upto_nonneg(s@, i as int, hyperlink);
        }
        let mut here: usize = 0;
        if i + 1 < s.len() && s[i] == '\x1b' && s[i + 1] == '[' {
            proof {
                lemma_first_m_bounds(s@, i as int);
            }
            match find_m(s, i) {
                Some(j) => match utf8_len_between(s, i, j) {
                    Some(l) => {
                        if l == usize::MAX {
                            return None;
                        }
                        here = l + 1;
                    },
                    None => {
                        return None;
                    },
                },
                None => {},
            }
        }
        assert(here == (if csi_at(s@, i as int) { csi_span(s@, i as int) } else { 0 }));
        let mut link: usize = 0;
        if hyperlink && s.len() >= 5 && i < s.len() - 4 && s[i] == '\x1b' && s[i + 1] == ']' && s[i + 2] == '8'
            && s[i + 3] == ';' && s[i + 4] == ';' {
            proof {
                lemma_first_st_bounds(s@, i as int);
            }
            match find_st(s, i) {
                Some(j) => match utf8_len_between(s, i, j) {
                    Some(l) => {
                        if l > usize::MAX - 2 {
                            return None;
                        }
                        link = l + 2;
                    },
                    None => {
                        return None;
                    },
                },
                None => {},
            }
        }
        assert(link == (if hyperlink && osc8_at(s@, i as int) { osc_span(s@, i as int) } else { 0 }));
        if here > usize::MAX - acc || link > usize::MAX - acc - here {
            return None;
        }
        acc = acc + here + link;
        i = i + 1;
    }
    Some(acc)
}

/// The number of columns `input` takes on a terminal: its Unicode width
/// less the bytes of its color escapes and, with `hyperlink`, of its
/// hyperlink escapes. Those bytes must not outnumber the width.
pub fn get_visible_width(input: &str, hyperlink: bool) -> (r: usize)
    requires
        width_fits(input@, hyperlink),
    ensures
        r == visible_width(input@, hyperlink),
        r == unicode_str_width(input@) - invisible_len(input@, hyperlink),
{
    let chars = chars_of(input);
    let width = str_width(input);
    proof {
        lemma_invisible_upto_nonneg(input@, input@.len() as int, hyperlink);
    }
    match invisible_bytes(&chars, hyperlink) {
        Some(invisible) => width - invisible,
        None => 0,
    }
}

/// `get_visible_width` where the invisible bytes of `input` are no more than
/// its width; `None` where they are more.
pub fn try_get_visible_width(input: &str, hyperlink: bool) -> (r: Option<usize>)
    ensures
        r is Some <==> width_fits(input@, hyperlink),
        r matches Some(w) ==> w == visible_width(input@, hyperlink),
{
    let chars = chars_of(input);
    let width = str_width(input);
    match invisible_bytes(&chars, hyperlink) {
        Some(invisible) => if invisible <= width {
            Some(get_visible_width(input, hyperlink))
        } else {
            None
        },
        None => None,
    }
}

} // verus!
