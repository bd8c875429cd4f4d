//! Character-level string helpers shared by the parsers in this crate.

use vstd::prelude::*;
use unicode_segmentation::UnicodeSegmentation;
use unicode_width::UnicodeWidthStr;

verus! {

/// Append one character to a string.
///
/// Trusted: calls `String::push`, which std documents as appending the
/// character to the end of the string.
#[verifier::external_body]
pub(crate) fn push_char(s: &mut String, c: char)
    ensures
        final(s)@ == old(s)@.push(c),
{
    s.push(c);
}

/// Compare two string slices for equality.
///
/// Trusted: calls `<str as PartialEq>::eq`, which std documents as comparing
/// the two strings character by character.
#[verifier::external_body]
pub(crate) fn str_eq(a: &str, b: &str) -> (r: bool)
    ensures
        r == (a@ == b@),
{
    a == b
}

/// Copy the characters of a string slice into a vector.
pub fn str_to_chars(s: &str) -> (v: Vec<char>)
    ensures
        v@ == s@,
{
    let n: usize = s.unicode_len();
    let mut v: Vec<char> = Vec::new();
    let mut i: usize = 0;
    while i < n
        invariant
            n == s@.len(),
            i <= n,
            v@ == s@.subrange(0, i as int),
        decreases n - i,
    {
        let c = s.get_char(i);
        v.push(c);
        i = i + 1;
        assert(v@ =~= s@.subrange(0, i as int));
    }
    assert(v@ =~= s@);
    v
}

/// Build a string from a run of characters.
pub fn string_from_chars(v: &[char]) -> (s: String)
    ensures
        s@ == v@,
{
    let mut s = String::new();
    let mut i: usize = 0;
    while i < v.len()
        invariant
            i <= v@.len(),
            s@ == v@.subrange(0, i as int),
        decreases v@.len() - i,
    {
        push_char(&mut s, v[i]);
        i = i + 1;
        assert(s@ =~= v@.subrange(0, i as int));
    }
    assert(s@ =~= v@);
    s
}

/// Copy a string slice into an owned string.
pub fn owned(s: &str) -> (r: String)
    ensures
        r@ == s@,
{
    let v = str_to_chars(s);
    string_from_chars(v.as_slice())
}

/// Compare two strings for equality.
pub fn string_eq(a: &String, b: &String) -> (r: bool)
    ensures
        r == (a@ == b@),
{
    *a == *b
}

/// The displayed width in terminal columns of a string, as computed by
/// `unicode_width`.
pub uninterp spec fn display_width(s: Seq<char>) -> usize;

/// The extended grapheme clusters of a string, as computed by
/// `unicode_segmentation`.
pub uninterp spec fn grapheme_clusters(s: Seq<char>) -> Seq<Seq<char>>;

/// Return the displayed width of a string in terminal columns.
///
/// Trusted: calls `unicode_width::UnicodeWidthStr::width`, whose result is
/// a function of the string alone; the contract names that result.
#[verifier::external_body]
pub(crate) fn str_display_width(s: &str) -> (r: usize)
    ensures
        r == display_width(s@),
{
    UnicodeWidthStr::width(s)
}

/// The number of terminal cells a grapheme occupies: its display width,
/// capped at two cells.
pub open spec fn cell_width(s: Seq<char>) -> usize {
    if display_width(s) > 2 {
        2
    } else {
        display_width(s)
    }
}

/// Return the number of terminal cells a grapheme occupies.
pub fn grapheme_width(s: &str) -> (r: usize)
    ensures
        r == cell_width(s@),
{
    let w = str_display_width(s);
    if w > 2 {
        2
    } else {
        w
    }
}

/// Return whether a space occupies exactly one terminal cell, as the
/// canonical-layout and replay laws assume of the width tables in use.
pub fn space_is_one_cell() -> (r: bool)
    ensures
        r == (cell_width(seq![' ']) == 1),
{
    let w = grapheme_width(" ");
    proof {
        reveal_strlit(" ");
        assert(" "@ =~= seq![' ']);
    }
    w == 1
}

/// Split a string into extended grapheme clusters.
///
/// Trusted: calls `unicode_segmentation::UnicodeSegmentation::graphemes`
/// with extended clusters and copies each cluster into a `String`; the
/// clusters are a function of the string alone, and the contract names them.
#[verifier::external_body]
pub(crate) fn graphemes_of(s: &str) -> (r: Vec<String>)
    ensures
        r@.map_values(|g: String| g@) == grapheme_clusters(s@),
{
    s.graphemes(true).map(|g| g.to_string()).collect()
}

/// Whether a character has the Unicode `White_Space` property: the
/// controls tab to carriage return, space, next line, no-break space, ogham
/// space mark, the spaces from en quad to hair space, the line and
/// paragraph separators, narrow no-break space, medium mathematical space
/// and ideographic space.
pub open spec fn white_space(c: char) -> bool {
    let u = c as u32;
    ||| 0x09 <= u <= 0x0D
    ||| u == 0x20
    ||| u == 0x85
    ||| u == 0xA0
    ||| u == 0x1680
    ||| 0x2000 <= u <= 0x200A
    ||| u == 0x2028
    ||| u == 0x2029
    ||| u == 0x202F
    ||| u == 0x205F
    ||| u == 0x3000
}

/// Return whether a character is whitespace, as std's `char::is_whitespace`
/// decides it.
pub fn char_is_whitespace(c: char) -> (r: bool)
    ensures
        r == white_space(c),
{
    let u = c as u32;
    (0x09 <= u && u <= 0x0D) || u == 0x20 || u == 0x85 || u == 0xA0 || u == 0x1680
        || (0x2000 <= u && u <= 0x200A) || u == 0x2028 || u == 0x2029 || u == 0x202F || u == 0x205F
        || u == 0x3000
}

/// Whether a string holds nothing but whitespace, so that trimming it
/// leaves it empty.
pub open spec fn blank(s: Seq<char>) -> bool {
    forall|i: int| 0 <= i < s.len() ==> white_space(#[trigger] s[i])
}

/// Return whether a string holds nothing but whitespace.
pub fn is_blank(s: &str) -> (r: bool)
    ensures
        r == blank(s@),
{
    let v = str_to_chars(s);
    let mut i: usize = 0;
    while i < v.len()
        invariant
            v@ == s@,
            i <= v@.len(),
            forall|j: int| 0 <= j < i ==> white_space(#[trigger] s@[j]),
        decreases v@.len() - i,
    {
        if !char_is_whitespace(v[i]) {
            return false;
        }
        i = i + 1;
    }
    true
}

} // verus!
