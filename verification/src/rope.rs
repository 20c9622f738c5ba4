//! The text buffer: a [`ropey::Rope`], seen as the sequence of chars it holds.
//!
//! Positions are char indices into that sequence. Byte and UTF-16 positions count the
//! UTF-8 and UTF-16 encodings of the chars before them, and lines are separated by the
//! line breaks ropey recognises with its default features.

use vstd::prelude::*;

use ropey::Rope;

verus! {

#[verifier::external_type_specification]
#[verifier::external_body]
pub struct ExRope(Rope);

/// The chars a rope holds.
pub uninterp spec fn rope_text(r: Rope) -> Seq<char>;

/// The number of bytes UTF-8 uses for `c`.
pub open spec fn utf8_width(c: char) -> nat {
    let v = c as u32;
    if v < 0x80 {
        1
    } else if v < 0x800 {
        2
    } else if v < 0x10000 {
        3
    } else {
        4
    }
}

/// The number of code units UTF-16 uses for `c`.
pub open spec fn utf16_width(c: char) -> nat {
    if (c as u32) < 0x10000 {
        1
    } else {
        2
    }
}

/// The UTF-8 length of a char sequence.
pub open spec fn utf8_len(s: Seq<char>) -> nat
    decreases s.len(),
{
    if s.len() == 0 {
        0
    } else {
        utf8_len(s.drop_last()) + utf8_width(s.last())
    }
}

/// The UTF-16 length of a char sequence.
pub open spec fn utf16_len(s: Seq<char>) -> nat
    decreases s.len(),
{
    if s.len() == 0 {
        0
    } else {
        utf16_len(s.drop_last()) + utf16_width(s.last())
    }
}

/// A char that ends a line by itself (`\r` is one too, unless a `\n` follows it).
pub open spec fn is_line_break_char(c: char) -> bool {
    c == '\n' || c == '\u{B}' || c == '\u{C}' || c == '\u{85}' || c == '\u{2028}' || c == '\u{2029}'
}

/// A line break ends right before char index `j`.
pub open spec fn break_ends_at(s: Seq<char>, j: int) -> bool {
    &&& 1 <= j <= s.len()
    &&& is_line_break_char(s[j - 1]) || (s[j - 1] == '\r' && !(j < s.len() && s[j] == '\n'))
}

/// The number of line breaks that end at or before char index `i`.
pub open spec fn breaks_upto(s: Seq<char>, i: int) -> nat
    decreases i,
{
    if i <= 0 {
        0
    } else {
        breaks_upto(s, i - 1) + if break_ends_at(s, i) {
            1nat
        } else {
            0nat
        }
    }
}

/// The number of lines of a text: one more than its line breaks.
pub open spec fn line_count(s: Seq<char>) -> nat {
    breaks_upto(s, s.len() as int) + 1
}

/// `r` is where line `l` starts: the text start for line 0, else right after the `l`-th break;
/// one past the last line starts at the end of the text.
pub open spec fn is_line_start(s: Seq<char>, l: int, r: int) -> bool {
    &&& 0 <= r <= s.len()
    &&& if l == line_count(s) {
        r == s.len()
    } else {
        &&& breaks_upto(s, r) == l
        &&& (r == 0 || break_ends_at(s, r))
    }
}

/// Where line `l` starts.
pub open spec fn line_start(s: Seq<char>, l: int) -> int {
    choose|r: int| is_line_start(s, l, r)
}

/// Line breaks only add up as the position moves right.
pub proof fn lemma_breaks_monotone(s: Seq<char>, a: int, b: int)
    requires
        a <= b,
    ensures
        breaks_upto(s, a) <= breaks_upto(s, b),
        a < b && break_ends_at(s, b) ==> breaks_upto(s, a) < breaks_upto(s, b),
    decreases b - a,
{
    if a < b {
        lemma_breaks_monotone(s, a, b - 1);
    }
}

/// A UTF-16 position belongs to one char.
pub proof fn lemma_char_of_utf16_unique(s: Seq<char>, u: int, r1: int, r2: int)
    requires
        is_char_of_utf16(s, u, r1),
        is_char_of_utf16(s, u, r2),
    ensures
        r1 == r2,
{
    if r1 < r2 {
        lemma_offsets_monotone(s, r1 + 1, r2);
    } else if r2 < r1 {
        lemma_offsets_monotone(s, r2 + 1, r1);
    }
}

/// The UTF-8 offset of char index `i`.
pub open spec fn byte_offset(s: Seq<char>, i: int) -> nat {
    utf8_len(s.subrange(0, i))
}

/// The UTF-16 offset of char index `i`.
pub open spec fn utf16_offset(s: Seq<char>, i: int) -> nat {
    utf16_len(s.subrange(0, i))
}

/// `r` is the index of the char holding byte `b` (the end of the text for the end offset).
pub open spec fn is_char_of_byte(s: Seq<char>, b: int, r: int) -> bool {
    &&& 0 <= r <= s.len()
    &&& byte_offset(s, r) <= b
    &&& r == s.len() || b < byte_offset(s, r + 1)
}

/// `r` is the index of the char holding UTF-16 code unit `u` (the end of the text for the end
/// offset).
pub open spec fn is_char_of_utf16(s: Seq<char>, u: int, r: int) -> bool {
    &&& 0 <= r <= s.len()
    &&& utf16_offset(s, r) <= u
    &&& r == s.len() || u < utf16_offset(s, r + 1)
}

/// The char that UTF-16 code unit `u` belongs to.
pub open spec fn char_of_utf16(s: Seq<char>, u: int) -> int {
    choose|r: int| is_char_of_utf16(s, u, r)
}

/// The char that byte `b` belongs to.
pub open spec fn char_of_byte(s: Seq<char>, b: int) -> int {
    choose|r: int| is_char_of_byte(s, b, r)
}

/// `utf8_len` adds up over a concatenation.
pub proof fn lemma_utf8_len_concat(a: Seq<char>, b: Seq<char>)
    ensures
        utf8_len(a + b) == utf8_len(a) + utf8_len(b),
    decreases b.len(),
{
    if b.len() == 0 {
        assert(a + b =~= a);
    } else {
        lemma_utf8_len_concat(a, b.drop_last());
        assert((a + b).drop_last() =~= a + b.drop_last());
        assert((a + b).last() == b.last());
    }
}

/// `utf16_len` adds up over a concatenation.
pub proof fn lemma_utf16_len_concat(a: Seq<char>, b: Seq<char>)
    ensures
        utf16_len(a + b) == utf16_len(a) + utf16_len(b),
    decreases b.len(),
{
    if b.len() == 0 {
        assert(a + b =~= a);
    } else {
        lemma_utf16_len_concat(a, b.drop_last());
        assert((a + b).drop_last() =~= a + b.drop_last());
        assert((a + b).last() == b.last());
    }
}

/// Every char takes one to four UTF-8 bytes and one or two UTF-16 code units.
pub proof fn lemma_len_le_utf8_len(s: Seq<char>)
    ensures
        s.len() <= utf8_len(s) <= 4 * s.len(),
        s.len() <= utf16_len(s) <= 2 * s.len(),
    decreases s.len(),
{
    if s.len() > 0 {
        lemma_len_le_utf8_len(s.drop_last());
    }
}

/// Offsets grow with the char index.
pub proof fn lemma_offsets_monotone(s: Seq<char>, a: int, b: int)
    requires
        0 <= a <= b <= s.len(),
    ensures
        byte_offset(s, a) <= byte_offset(s, b),
        utf16_offset(s, a) <= utf16_offset(s, b),
        a < b ==> utf16_offset(s, a) < utf16_offset(s, b),
    decreases b - a,
{
    if a < b {
        lemma_offsets_monotone(s, a, b - 1);
        assert(s.subrange(0, b).drop_last() =~= s.subrange(0, b - 1));
    }
}

/// The start of the line holding char `i` is not after `i`.
pub proof fn lemma_line_start_before(s: Seq<char>, i: int)
    requires
        0 <= i <= s.len(),
    ensures
        line_start(s, breaks_upto(s, i) as int) <= i,
        is_line_start(s, breaks_upto(s, i) as int, line_start(s, breaks_upto(s, i) as int)),
    decreases i,
{
    let l = breaks_upto(s, i) as int;
    lemma_breaks_monotone(s, i, s.len() as int);
    lemma_line_start_exists(s, i);
    let r = line_start(s, l);
    if r > i {
        lemma_breaks_monotone(s, i, r);
    }
}

/// Every char index lies on a line that starts somewhere.
pub proof fn lemma_line_start_exists(s: Seq<char>, i: int)
    requires
        0 <= i <= s.len(),
    ensures
        exists|r: int| is_line_start(s, breaks_upto(s, i) as int, r),
    decreases i,
{
    lemma_breaks_monotone(s, i, s.len() as int);
    if i == 0 {
        assert(is_line_start(s, 0, 0));
    } else if break_ends_at(s, i) {
        assert(is_line_start(s, breaks_upto(s, i) as int, i));
    } else {
        lemma_line_start_exists(s, i - 1);
    }
}

/// UTF-16 positions map to chars in order.
pub proof fn lemma_char_of_utf16_monotone(s: Seq<char>, u1: int, u2: int, r1: int, r2: int)
    requires
        u1 <= u2,
        is_char_of_utf16(s, u1, r1),
        is_char_of_utf16(s, u2, r2),
    ensures
        r1 <= r2,
{
    if r1 > r2 {
        lemma_offsets_monotone(s, r2 + 1, r1);
    }
}

/// `Rope::len_chars`: the number of chars.
#[verifier::external_body]
pub(crate) fn len_chars(r: &Rope) -> (n: usize)
    ensures
        n == rope_text(*r).len(),
{
    r.len_chars()
}

/// `Rope::len_bytes`: the UTF-8 length.
#[verifier::external_body]
pub(crate) fn len_bytes(r: &Rope) -> (n: usize)
    ensures
        n == utf8_len(rope_text(*r)),
{
    r.len_bytes()
}

/// `Rope::len_utf16_cu`: the UTF-16 length.
#[verifier::external_body]
pub(crate) fn len_utf16_cu(r: &Rope) -> (n: usize)
    ensures
        n == utf16_len(rope_text(*r)),
{
    r.len_utf16_cu()
}

/// `Rope::len_lines`: one more than the number of line breaks.
#[verifier::external_body]
pub(crate) fn len_lines(r: &Rope) -> (n: usize)
    ensures
        n == line_count(rope_text(*r)),
{
    r.len_lines()
}

/// `Rope::char`: the char at `i`.
#[verifier::external_body]
pub(crate) fn char_at(r: &Rope, i: usize) -> (c: char)
    requires
        i < rope_text(*r).len(),
    ensures
        c == rope_text(*r)[i as int],
{
    r.char(i)
}

/// `Rope::char_to_byte`: the UTF-8 offset of char `i`.
#[verifier::external_body]
pub(crate) fn char_to_byte(r: &Rope, i: usize) -> (b: usize)
    requires
        i <= rope_text(*r).len(),
    ensures
        b == byte_offset(rope_text(*r), i as int),
{
    r.char_to_byte(i)
}

/// `Rope::byte_to_char`: the char that byte `b` belongs to.
#[verifier::external_body]
pub(crate) fn byte_to_char(r: &Rope, b: usize) -> (i: usize)
    requires
        b <= utf8_len(rope_text(*r)),
    ensures
        is_char_of_byte(rope_text(*r), b as int, i as int),
        i == char_of_byte(rope_text(*r), b as int),
{
    r.byte_to_char(b)
}

/// `Rope::char_to_utf16_cu`: the UTF-16 offset of char `i`.
#[verifier::external_body]
pub(crate) fn char_to_utf16_cu(r: &Rope, i: usize) -> (u: usize)
    requires
        i <= rope_text(*r).len(),
    ensures
        u == utf16_offset(rope_text(*r), i as int),
{
    r.char_to_utf16_cu(i)
}

/// `Rope::utf16_cu_to_char`: the char that UTF-16 code unit `u` belongs to.
#[verifier::external_body]
pub(crate) fn utf16_cu_to_char(r: &Rope, u: usize) -> (i: usize)
    requires
        u <= utf16_len(rope_text(*r)),
    ensures
        is_char_of_utf16(rope_text(*r), u as int, i as int),
        i == char_of_utf16(rope_text(*r), u as int),
{
    r.utf16_cu_to_char(u)
}

/// `Rope::char_to_line`: the number of line breaks before char `i`.
#[verifier::external_body]
pub(crate) fn char_to_line(r: &Rope, i: usize) -> (l: usize)
    requires
        i <= rope_text(*r).len(),
    ensures
        l == breaks_upto(rope_text(*r), i as int),
{
    r.char_to_line(i)
}

/// `Rope::line_to_char`: where line `l` starts.
#[verifier::external_body]
pub(crate) fn line_to_char(r: &Rope, l: usize) -> (i: usize)
    requires
        l <= line_count(rope_text(*r)),
    ensures
        is_line_start(rope_text(*r), l as int, i as int),
        i == line_start(rope_text(*r), l as int),
{
    r.line_to_char(l)
}

/// `Rope::line_to_byte`: the UTF-8 offset where line `l` starts.
#[verifier::external_body]
pub(crate) fn line_to_byte(r: &Rope, l: usize) -> (b: usize)
    requires
        l <= line_count(rope_text(*r)),
    ensures
        b == byte_offset(rope_text(*r), line_start(rope_text(*r), l as int)),
{
    r.line_to_byte(l)
}

/// `Rope::insert_char`: puts `ch` at char index `i`.
#[verifier::external_body]
pub(crate) fn insert_char(r: &mut Rope, i: usize, ch: char)
    requires
        i <= rope_text(*old(r)).len(),
    ensures
        rope_text(*final(r)) == rope_text(*old(r)).insert(i as int, ch),
{
    r.insert_char(i, ch)
}

/// `Rope::insert`: puts `text` at char index `i`.
#[verifier::external_body]
pub(crate) fn insert_str(r: &mut Rope, i: usize, text: &str)
    requires
        i <= rope_text(*old(r)).len(),
    ensures
        rope_text(*final(r)) == rope_text(*old(r)).subrange(0, i as int) + text@ + rope_text(
            *old(r),
        ).subrange(i as int, rope_text(*old(r)).len() as int),
{
    r.insert(i, text)
}

/// `Rope::remove`: takes out the chars in `start..end`.
#[verifier::external_body]
pub(crate) fn remove_range(r: &mut Rope, start: usize, end: usize)
    requires
        start <= end <= rope_text(*old(r)).len(),
    ensures
        rope_text(*final(r)) == rope_text(*old(r)).subrange(0, start as int) + rope_text(
            *old(r),
        ).subrange(end as int, rope_text(*old(r)).len() as int),
{
    r.remove(start..end)
}

/// `Rope::slice(start..end).to_string()`: the chars in `start..end`.
#[verifier::external_body]
pub(crate) fn slice_to_string(r: &Rope, start: usize, end: usize) -> (s: String)
    requires
        start <= end <= rope_text(*r).len(),
    ensures
        s@ == rope_text(*r).subrange(start as int, end as int),
{
    r.slice(start..end).to_string()
}

/// `Rope::to_string`: all the chars.
#[verifier::external_body]
pub(crate) fn rope_to_string(r: &Rope) -> (s: String)
    ensures
        s@ == rope_text(*r),
{
    r.to_string()
}

/// `Rope::get_line(l)`: the chars of line `l`, when there is such a line.
#[verifier::external_body]
pub(crate) fn get_line(r: &Rope, l: usize) -> (line: Option<String>)
    ensures
        line is Some <==> l < line_count(rope_text(*r)),
        line matches Some(text) ==> {
            let s = rope_text(*r);
            text@ == s.subrange(line_start(s, l as int), line_start(s, l + 1))
        },
{
    r.get_line(l).map(|line| line.to_string())
}

/// `str::encode_utf16().count()`: the number of UTF-16 code units of `s`.
#[verifier::external_body]
pub(crate) fn utf16_count(s: &str) -> (n: usize)
    ensures
        n == utf16_len(s@),
{
    s.encode_utf16().count()
}

/// `Rope::get_slice(start..end)`: the chars in `start..end`, when that range is in the rope.
#[verifier::external_body]
pub(crate) fn get_slice(r: &Rope, start: usize, end: usize) -> (text: Option<String>)
    ensures
        text is Some <==> start <= end <= rope_text(*r).len(),
        text matches Some(t) ==> t@ == rope_text(*r).subrange(start as int, end as int),
{
    r.get_slice(start..end).map(|slice| slice.to_string())
}

/// The Unicode `White_Space` chars.
pub open spec fn is_unicode_white_space(c: char) -> bool {
    ||| '\u{9}' <= c <= '\u{D}'
    ||| c == ' ' || c == '\u{85}' || c == '\u{A0}' || c == '\u{1680}'
    ||| '\u{2000}' <= c <= '\u{200A}'
    ||| c == '\u{2028}' || c == '\u{2029}' || c == '\u{202F}' || c == '\u{205F}' || c == '\u{3000}'
}

/// Whether `c` has the Unicode `White_Space` property, as `char::is_whitespace` decides.
pub(crate) fn is_whitespace(c: char) -> (r: bool)
    ensures
        r == is_unicode_white_space(c),
{
    let u = c as u32;
    (0x9 <= u && u <= 0xD) || u == 0x20 || u == 0x85 || u == 0xA0 || u == 0x1680 || (0x2000 <= u
        && u <= 0x200A) || u == 0x2028 || u == 0x2029 || u == 0x202F || u == 0x205F || u == 0x3000
}

} // verus!
