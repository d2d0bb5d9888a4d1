//! Searching and cutting `&str` by characters.

use crate::grammar::{spec_skip_spaces, spec_strip_char, spec_strip_prefix};
use crate::search::{first_index_of, lemma_first_index_of};
use vstd::prelude::*;
use vstd::string::*;
use vstd::utf8::*;

verus! {

/// A text has at most as many characters as its UTF-8 encoding has bytes.
pub proof fn lemma_chars_no_more_than_bytes(chars: Seq<char>)
    ensures
        chars.len() <= encode_utf8(chars).len(),
    decreases chars.len(),
{
    if chars.len() > 0 {
        lemma_chars_no_more_than_bytes(chars.drop_first());
    }
}

/// An upper bound on the number of characters of `text`: its length in bytes.
pub fn char_count_bound(text: &str) -> (bound: usize)
    ensures
        text@.len() <= bound,
{
    proof {
        lemma_chars_no_more_than_bytes(text@);
    }
    text.as_bytes().len()
}

/// The position of the first `needle` in `text`, counted in characters.
pub fn find_char(text: &str, needle: char) -> (found: Option<usize>)
    ensures
        match found {
            Some(at) => first_index_of(text@, needle) == Some(at as int),
            None => first_index_of(text@, needle) is None,
        },
{
    let bound = char_count_bound(text);
    let mut at: usize = 0;
    for c in it: text.chars()
        invariant
            at == it.index(),
            it.seq() == text@,
            text@.len() <= bound,
            forall|j: int| 0 <= j < at ==> text@[j] != needle,
    {
        if c == needle {
            proof {
                lemma_first_index_of(text@, needle);
            }
            return Some(at);
        }
        at = at + 1;
    }
    proof {
        lemma_first_index_of(text@, needle);
    }
    None
}

/// The two parts of `text` before and from the character at position `at`.
pub fn split_at_char<'a>(text: &'a str, at: usize) -> (parts: (&'a str, &'a str))
    requires
        at <= text@.len(),
    ensures
        parts.0@ == text@.take(at as int),
        parts.1@ == text@.skip(at as int),
{
    let count = text.unicode_len();
    (text.substring_char(0, at), text.substring_char(at, count))
}

/// `text` from the character at position `at` on.
pub fn skip_chars<'a>(text: &'a str, at: usize) -> (rest: &'a str)
    requires
        at <= text@.len(),
    ensures
        rest@ == text@.skip(at as int),
{
    let count = text.unicode_len();
    text.substring_char(at, count)
}

/// The parts of `text` before and after the first `needle`, where `text`
/// holds one.
pub fn split_once<'a>(text: &'a str, needle: char) -> (parts: Option<(&'a str, &'a str)>)
    ensures
        match parts {
            Some((before, after)) => {
                &&& first_index_of(text@, needle) matches Some(at)
                &&& before@ == text@.take(at)
                &&& after@ == text@.skip(at + 1)
            },
            None => first_index_of(text@, needle) is None,
        },
{
    proof {
        lemma_first_index_of(text@, needle);
    }
    match find_char(text, needle) {
        Some(at) => {
            let (before, from_needle) = split_at_char(text, at);
            let after = skip_chars(from_needle, 1);
            assert(after@ == text@.skip(at as int + 1));
            Some((before, after))
        },
        None => None,
    }
}

/// What follows `first` in `text`, where `text` begins with it.
pub fn strip_char<'a>(text: &'a str, first: char) -> (rest: Option<&'a str>)
    ensures
        match rest {
            Some(rest) => spec_strip_char(text@, first) == Some(rest@),
            None => spec_strip_char(text@, first) is None,
        },
{
    if text.is_empty() {
        None
    } else if text.get_char(0) == first {
        Some(skip_chars(text, 1))
    } else {
        None
    }
}

/// What follows `tag` in `text`, where `text` begins with it.
pub fn strip_prefix<'a>(text: &'a str, tag: &str) -> (rest: Option<&'a str>)
    ensures
        match rest {
            Some(rest) => spec_strip_prefix(text@, tag@) == Some(rest@),
            None => spec_strip_prefix(text@, tag@) is None,
        },
{
    let count = text.unicode_len();
    let tag_count = tag.unicode_len();
    if count < tag_count {
        return None;
    }
    let mut at: usize = 0;
    while at < tag_count
        invariant
            at <= tag_count == tag@.len(),
            tag_count <= count == text@.len(),
            forall|j: int| 0 <= j < at ==> text@[j] == tag@[j],
        decreases tag_count - at,
    {
        if text.get_char(at) != tag.get_char(at) {
            return None;
        }
        at = at + 1;
    }
    Some(text.substring_char(tag_count, count))
}

/// `text` without the spaces that it begins with.
pub fn skip_spaces<'a>(text: &'a str) -> (rest: &'a str)
    ensures
        rest@ == spec_skip_spaces(text@),
{
    let bound = char_count_bound(text);
    let mut at: usize = 0;
    assert(text@.skip(0) == text@);
    for c in it: text.chars()
        invariant
            at == it.index(),
            it.seq() == text@,
            text@.len() <= bound,
            spec_skip_spaces(text@) == spec_skip_spaces(text@.skip(at as int)),
    {
        if c != ' ' {
            return skip_chars(text, at);
        }
        proof {
            assert(text@.skip(at as int).drop_first() == text@.skip(at as int + 1));
        }
        at = at + 1;
    }
    skip_chars(text, at)
}

} // verus!
