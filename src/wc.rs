use vstd::prelude::*;
use vstd::string::StringSliceAdditionalSpecFns;
use crate::parser::chars_of;
use crate::text::{decimal, decimal_padded, pad_left, string_of};

verus! {

/// The counts of a text: lines, words, bytes and characters.
#[derive(Debug, Clone, Copy, PartialEq, Eq, Structural)]
pub struct FileInfo {
    pub num_lines: usize,
    pub num_words: usize,
    pub num_bytes: usize,
    pub num_chars: usize,
}

/// Characters with the Unicode `White_Space` property.
pub open spec fn is_white_space(c: char) -> bool {
    let u = c as u32;
    (0x09 <= u <= 0x0d) || u == 0x20 || u == 0x85 || u == 0xa0 || u == 0x1680 || (0x2000 <= u
        <= 0x200a) || u == 0x2028 || u == 0x2029 || u == 0x202f || u == 0x205f || u == 0x3000
}

/// Relies on `char::is_whitespace`: true exactly for the characters with the
/// Unicode `White_Space` property.
#[verifier::external_body]
fn is_whitespace(c: char) -> (r: bool)
    ensures
        r == is_white_space(c),
{
    c.is_whitespace()
}

/// Number of newline characters in `s`.
pub open spec fn newlines(s: Seq<char>) -> nat
    decreases s.len(),
{
    if s.len() == 0 {
        0
    } else {
        newlines(s.drop_last()) + if s.last() == '\n' {
            1nat
        } else {
            0nat
        }
    }
}

/// Number of lines of `s`: each newline ends one, and a last line without a
/// newline counts too.
pub open spec fn line_count(s: Seq<char>) -> nat {
    newlines(s) + if s.len() > 0 && s.last() != '\n' {
        1nat
    } else {
        0nat
    }
}

/// Number of words of `s`: maximal runs of characters that are not white space.
pub open spec fn word_count(s: Seq<char>) -> nat
    decreases s.len(),
{
    if s.len() == 0 {
        0
    } else {
        word_count(s.drop_last()) + if !is_white_space(s.last()) && (s.len() == 1
            || is_white_space(s[s.len() - 2])) {
            1nat
        } else {
            0nat
        }
    }
}

/// Counts the lines, words, bytes and characters of `text`.
pub fn count(text: &str) -> (r: FileInfo)
    ensures
        r.num_lines == line_count(text@),
        r.num_words == word_count(text@),
        r.num_bytes == text.spec_bytes().len() as usize,
        r.num_chars == text@.len(),
{
    let chars = chars_of(text);
    let mut num_lines: usize = 0;
    let mut num_words: usize = 0;
    let mut prev_ws = true;
    let mut k: usize = 0;
    while k < chars.len()
        invariant
            chars@ == text@,
            0 <= k <= chars.len(),
            num_lines == newlines(chars@.take(k as int)),
            num_words == word_count(chars@.take(k as int)),
            num_lines <= k,
            k > 0 && chars@[k - 1] != '\n' ==> num_lines < k,
            num_words <= k,
            prev_ws == (k == 0 || is_white_space(chars@[k - 1])),
        decreases chars.len() - k,
    {
        let c = chars[k];
        assert(chars@.take(k + 1).drop_last() =~= chars@.take(k as int));
        let ws = is_whitespace(c);
        if c == '\n' {
            num_lines = num_lines + 1;
        }
        if !ws && prev_ws {
            num_words = num_words + 1;
        }
        prev_ws = ws;
        k = k + 1;
    }
    assert(chars@.take(k as int) =~= text@);
    if k > 0 && chars[k - 1] != '\n' {
        num_lines = num_lines + 1;
    }
    FileInfo { num_lines, num_words, num_bytes: text.len(), num_chars: chars.len() }
}

/// `value` right-aligned in eight columns where `show` holds, else nothing.
pub fn format_field(value: usize, show: bool) -> (r: String)
    ensures
        show ==> r@ == pad_left(decimal(value as nat), 8, ' '),
        !show ==> r@ == Seq::<char>::empty(),
{
    if show {
        let v = decimal_padded(value, 8, ' ');
        string_of(&v)
    } else {
        let v: Vec<char> = Vec::new();
        string_of(&v)
    }
}

} // verus!
