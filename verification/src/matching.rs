//! Regular expressions, and the byte offsets that their matches are given by.

use vstd::prelude::*;
use vstd::string::StrSliceExecFns;
use vstd::utf8::{
    decode_utf8, decode_utf8_split, encode_utf8, encode_utf8_decode_utf8, encode_utf8_valid_utf8,
    is_char_boundary, is_char_boundary_iff_not_is_continuation_byte, valid_utf8_split,
};

use crate::text::{subrange, to_chars, to_string};

verus! {

/// The matches of the regular expression `pattern` in `haystack`, from left
/// to right, none overlapping another: each as the byte offsets of its start
/// and of its end in the UTF-8 encoding of `haystack`. `None` if `pattern`
/// is not accepted as a regular expression.
pub uninterp spec fn regex_matches(pattern: Seq<char>, haystack: Seq<char>) -> Option<
    Seq<(usize, usize)>,
>;

/// Whether each span of `spans` starts and ends between two characters of
/// `text`, or at its start or end, and does not end before it starts.
pub open spec fn well_placed(text: Seq<char>, spans: Seq<(usize, usize)>) -> bool {
    forall|i: int|
        0 <= i < spans.len() ==> {
            &&& (#[trigger] spans[i]).0 <= spans[i].1
            &&& is_char_boundary(encode_utf8(text), spans[i].0 as int)
            &&& is_char_boundary(encode_utf8(text), spans[i].1 as int)
        }
}

/// Calls `regex::Regex::new` on `pattern` and `Regex::find_iter` on
/// `haystack`, and collects `Match::start` and `Match::end` of each match.
/// The result is the one named by [`regex_matches`]; each match starts and
/// ends at a character boundary of `haystack`, the start not after the end.
#[verifier::external_body]
pub(crate) fn find_matches(pattern: &str, haystack: &str) -> (r: Option<Vec<(usize, usize)>>)
    ensures
        match r {
            Some(spans) => regex_matches(pattern@, haystack@) == Some(spans@) && well_placed(
                haystack@,
                spans@,
            ),
            None => regex_matches(pattern@, haystack@) is None,
        },
{
    match regex::Regex::new(pattern) {
        Ok(re) => Some(re.find_iter(haystack).map(|m| (m.start(), m.end())).collect()),
        Err(_) => None,
    }
}

/// How many characters of `text` are encoded before the byte offset `offset`.
pub open spec fn char_index(text: Seq<char>, offset: int) -> int {
    decode_utf8(encode_utf8(text).subrange(0, offset)).len() as int
}

/// A character boundary parts a text in two: the characters before it and
/// the characters after it.
pub proof fn lemma_char_index(text: Seq<char>, offset: int)
    requires
        is_char_boundary(encode_utf8(text), offset),
    ensures
        0 <= char_index(text, offset) <= text.len(),
        text.take(char_index(text, offset)) == decode_utf8(encode_utf8(text).subrange(0, offset)),
        text.skip(char_index(text, offset)) == decode_utf8(
            encode_utf8(text).subrange(offset, encode_utf8(text).len() as int),
        ),
{
    broadcast use encode_utf8_valid_utf8, encode_utf8_decode_utf8;

    let bytes = encode_utf8(text);
    decode_utf8_split(bytes, offset);
    let a = decode_utf8(bytes.subrange(0, offset));
    let b = decode_utf8(bytes.subrange(offset, bytes.len() as int));
    assert(text =~= a + b);
    assert(text.take(a.len() as int) =~= a);
    assert(text.skip(a.len() as int) =~= b);
}

/// Of two character boundaries, the later one has no fewer characters before it.
pub proof fn lemma_char_index_ordered(text: Seq<char>, first: int, second: int)
    requires
        is_char_boundary(encode_utf8(text), first),
        is_char_boundary(encode_utf8(text), second),
        0 <= first <= second <= encode_utf8(text).len(),
    ensures
        char_index(text, first) <= char_index(text, second),
{
    broadcast use encode_utf8_valid_utf8;

    let bytes = encode_utf8(text);
    let upto = bytes.subrange(0, second);
    valid_utf8_split(bytes, second);
    if first == second {
    } else {
        if first > 0 {
            is_char_boundary_iff_not_is_continuation_byte(bytes, first);
            is_char_boundary_iff_not_is_continuation_byte(upto, first);
        }
        decode_utf8_split(upto, first);
        assert(upto.subrange(0, first) =~= bytes.subrange(0, first));
    }
}

/// A character boundary lies within the encoding.
pub proof fn lemma_boundary_in_range(text: Seq<char>, offset: int)
    requires
        is_char_boundary(encode_utf8(text), offset),
    ensures
        0 <= offset <= encode_utf8(text).len(),
{
    broadcast use encode_utf8_valid_utf8;

    let bytes = encode_utf8(text);
    if 0 < offset {
        if offset > bytes.len() {
            assert(!is_char_boundary(bytes, offset));
        }
    } else if offset < 0 {
        assert(!is_char_boundary(bytes, offset));
    }
}

/// The number of characters of `text` before the byte offset `offset`.
pub(crate) fn char_index_of(text: &str, offset: usize) -> (i: usize)
    requires
        is_char_boundary(encode_utf8(text@), offset as int),
    ensures
        i == char_index(text@, offset as int),
        i <= text@.len(),
{
    broadcast use encode_utf8_decode_utf8;

    proof {
        lemma_char_index(text@, offset as int);
    }
    let (head, _) = text.split_at(offset);
    head.unicode_len()
}

/// The part of `haystack` that group `group` of the regular expression
/// `pattern` matched in the first match of `pattern`, as the byte offsets
/// of its start and of its end. `None` if `pattern` is not accepted as a
/// regular expression, if it matches nowhere, or if the group took no part
/// in the match.
pub uninterp spec fn regex_capture(pattern: Seq<char>, haystack: Seq<char>, group: nat) -> Option<
    (usize, usize),
>;

/// Calls `regex::Regex::new` on `pattern`, `Regex::captures` on `haystack`
/// and `Captures::get` on `group`, and hands out `Match::start` and
/// `Match::end` of what it finds. The result is the one named by
/// [`regex_capture`]; it starts and ends at a character boundary of
/// `haystack`, the start not after the end.
#[verifier::external_body]
pub(crate) fn first_capture(pattern: &str, haystack: &str, group: usize) -> (r: Option<
    (usize, usize),
>)
    ensures
        r == regex_capture(pattern@, haystack@, group as nat),
        r matches Some(span) ==> well_placed(haystack@, seq![span]),
{
    match regex::Regex::new(pattern) {
        Ok(re) => re.captures(haystack).and_then(|c| c.get(group)).map(|m| (m.start(), m.end())),
        Err(_) => None,
    }
}

/// The characters of `text` that are encoded from the byte offset `start`
/// up to the byte offset `end`.
pub open spec fn between(text: Seq<char>, start: int, end: int) -> Seq<char> {
    text.subrange(char_index(text, start), char_index(text, end))
}

/// The part of `text` from the byte offset `start` up to the byte offset `end`.
pub fn slice_between(text: &str, start: usize, end: usize) -> (r: String)
    requires
        start <= end,
        is_char_boundary(encode_utf8(text@), start as int),
        is_char_boundary(encode_utf8(text@), end as int),
    ensures
        r@ == between(text@, start as int, end as int),
{
    proof {
        lemma_boundary_in_range(text@, end as int);
        lemma_char_index_ordered(text@, start as int, end as int);
    }
    let from = char_index_of(text, start);
    let to = char_index_of(text, end);
    to_string(&subrange(&to_chars(text), from, to))
}

} // verus!
