//! Counts over one piece of text: its words, and its characters that are
//! not white space.

use vstd::prelude::*;
use vstd::std_specs::iter::IteratorSpec;
use vstd::utf8::encode_utf8;

verus! {

/// The characters that separate words: those with the Unicode property
/// `White_Space`.
pub open spec fn white_space(c: char) -> bool {
    let code: u32 = c as u32;
    ||| 0x09 <= code <= 0x0D
    ||| code == 0x20
    ||| code == 0x85
    ||| code == 0xA0
    ||| code == 0x1680
    ||| 0x2000 <= code <= 0x200A
    ||| code == 0x2028
    ||| code == 0x2029
    ||| code == 0x202F
    ||| code == 0x205F
    ||| code == 0x3000
}

/// Whether a word starts at position `at` of `text`: the character there is
/// no white space, and it is the first of the text or stands behind white
/// space.
pub open spec fn starts_word(text: Seq<char>, at: int) -> bool {
    &&& 0 <= at < text.len()
    &&& !white_space(text[at])
    &&& (at == 0 || white_space(text[at - 1]))
}

/// The number of positions before `end` at which a word starts.
pub open spec fn word_starts_before(text: Seq<char>, end: int) -> nat
    decreases end,
{
    if end <= 0 {
        0
    } else {
        word_starts_before(text, end - 1) + if starts_word(text, end - 1) {
            1nat
        } else {
            0nat
        }
    }
}

/// The number of words of `text`: of its longest runs of characters that
/// are no white space.
pub open spec fn word_count(text: Seq<char>) -> nat {
    word_starts_before(text, text.len() as int)
}

/// The number of positions before `end` whose character is no white space.
pub open spec fn visible_before(text: Seq<char>, end: int) -> nat
    decreases end,
{
    if end <= 0 {
        0
    } else {
        visible_before(text, end - 1) + if white_space(text[end - 1]) {
            0nat
        } else {
            1nat
        }
    }
}

/// The number of characters of `text` that are no white space.
pub open spec fn visible_count(text: Seq<char>) -> nat {
    visible_before(text, text.len() as int)
}

/// A text has at most as many characters as its UTF-8 form has bytes.
proof fn lemma_chars_within_bytes(chars: Seq<char>)
    ensures
        chars.len() <= encode_utf8(chars).len(),
    decreases chars.len(),
{
    if chars.len() > 0 {
        lemma_chars_within_bytes(chars.drop_first());
    }
}

/// No more words start before `end` than there are positions before it.
proof fn lemma_word_starts_bounded(text: Seq<char>, end: int)
    requires
        0 <= end,
    ensures
        word_starts_before(text, end) <= end,
    decreases end,
{
    if end > 0 {
        lemma_word_starts_bounded(text, end - 1);
    }
}

/// No more characters before `end` are visible than there are positions
/// before it.
proof fn lemma_visible_bounded(text: Seq<char>, end: int)
    requires
        0 <= end,
    ensures
        visible_before(text, end) <= end,
    decreases end,
{
    if end > 0 {
        lemma_visible_bounded(text, end - 1);
    }
}

/// Whether `c` is white space.
pub fn is_white_space(c: char) -> (blank: bool)
    ensures
        blank == white_space(c),
{
    let code: u32 = c as u32;
    (0x09 <= code && code <= 0x0D) || code == 0x20 || code == 0x85 || code == 0xA0 || code
        == 0x1680 || (0x2000 <= code && code <= 0x200A) || code == 0x2028 || code == 0x2029
        || code == 0x202F || code == 0x205F || code == 0x3000
}

/// Counts the words of `text`: its longest runs of characters that are no
/// white space.
pub fn count_words_simple(text: &str) -> (count: usize)
    ensures
        count == word_count(text@),
{
    let byte_count: usize = text.as_bytes().len();
    proof {
        lemma_chars_within_bytes(text@);
    }
    if byte_count == 0 {
        return 0;
    }
    let mut chars = text.chars();
    let mut count: usize = 0;
    let mut in_word: bool = false;
    let ghost mut seen: int = 0;
    loop
        invariant
            text@.len() <= byte_count,
            0 <= seen <= text@.len(),
            chars.remaining() == text@.skip(seen),
            count == word_starts_before(text@, seen),
            in_word == (seen > 0 && !white_space(text@[seen - 1])),
        ensures
            seen == text@.len(),
        decreases text@.len() - seen,
    {
        match chars.next() {
            None => {
                break ;
            },
            Some(c) => {
                proof {
                    lemma_word_starts_bounded(text@, seen);
                }
                let blank: bool = is_white_space(c);
                if !blank && !in_word {
                    count = count + 1;
                }
                in_word = !blank;
                proof {
                    seen = seen + 1;
                }
            },
        }
    }
    count
}

/// Counts the characters of `text` that are no white space.
pub fn count_characters(text: &str) -> (count: usize)
    ensures
        count == visible_count(text@),
{
    let byte_count: usize = text.as_bytes().len();
    proof {
        lemma_chars_within_bytes(text@);
    }
    if byte_count == 0 {
        return 0;
    }
    let mut chars = text.chars();
    let mut count: usize = 0;
    let ghost mut seen: int = 0;
    loop
        invariant
            text@.len() <= byte_count,
            0 <= seen <= text@.len(),
            chars.remaining() == text@.skip(seen),
            count == visible_before(text@, seen),
        ensures
            seen == text@.len(),
        decreases text@.len() - seen,
    {
        match chars.next() {
            None => {
                break ;
            },
            Some(c) => {
                proof {
                    lemma_visible_bounded(text@, seen);
                }
                if !is_white_space(c) {
                    count = count + 1;
                }
                proof {
                    seen = seen + 1;
                }
            },
        }
    }
    count
}

} // verus!
